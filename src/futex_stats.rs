//! Per-thread futex accumulator: cumulative wait per futex word, a snapshot per derived
//! event, and the CSV rows the snapshots become.
use vstd::prelude::*;

use crate::clock::{epoch_ns_spec, minute_bucket_spec};
use crate::futex::FutexEvent;
use crate::pieces::{
    comma, csv_ext, dash, futex_wait_header, futex_wake_header, newline, push_comma, push_csv_ext,
    push_dash, push_futex_wait_header, push_futex_wake_header, push_newline, push_slash,
    push_wait_dir, push_wake_dir, slash, wait_dir, wake_dir,
};
use crate::render::{append, dec_text, render_dec};
use crate::sink::{record_view, records_view, CsvRecord};
use crate::clock::{boot_to_epoch, epoch_ms_of, minute_bucket};
use crate::text::bytes_eq;

verus! {

/// Cumulative wait of one futex word and the tracer's latest count for it.
#[derive(Clone, Copy, Debug, PartialEq, Eq, Structural)]
pub struct WaitStat {
    pub accumulated_wait: u64,
    pub count: u64,
}

/// What a futex snapshot records.
#[derive(Clone, Copy, Debug, PartialEq, Eq, Structural)]
pub enum SnapshotStat {
    Wait(WaitStat),
    Wake { count: u64 },
}

/// One futex word of the thread: its stats and its snapshots, oldest first.
pub struct FutexEntry {
    pub root_pid: u64,
    pub uaddr: Vec<u8>,
    pub stat: WaitStat,
    pub snapshots: Vec<(u64, SnapshotStat)>,
}

pub struct FutexEntryView {
    pub root_pid: u64,
    pub uaddr: Seq<u8>,
    pub stat: WaitStat,
    pub snapshots: Seq<(u64, SnapshotStat)>,
}

pub open spec fn futex_entry_view(e: FutexEntry) -> FutexEntryView {
    FutexEntryView { root_pid: e.root_pid, uaddr: e.uaddr@, stat: e.stat, snapshots: e.snapshots@ }
}

pub open spec fn futex_entries_view(v: Seq<FutexEntry>) -> Seq<FutexEntryView> {
    v.map_values(|e: FutexEntry| futex_entry_view(e))
}

pub open spec fn find_word(es: Seq<FutexEntryView>, root_pid: u64, uaddr: Seq<u8>, i: int) -> int
    decreases es.len() - i,
{
    if i < 0 || i >= es.len() {
        -1
    } else if es[i].root_pid == root_pid && es[i].uaddr == uaddr {
        i
    } else {
        find_word(es, root_pid, uaddr, i + 1)
    }
}

/// The entries with one for the word added at the end if there was none.
pub open spec fn ensure_word(es: Seq<FutexEntryView>, root_pid: u64, uaddr: Seq<u8>) -> Seq<FutexEntryView> {
    if find_word(es, root_pid, uaddr, 0) < 0 {
        es.push(FutexEntryView { root_pid, uaddr, stat: WaitStat { accumulated_wait: 0, count: 0 }, snapshots: Seq::empty() })
    } else {
        es
    }
}

/// How one derived event changes the accumulator: a wait adds its total to the word's
/// cumulative wait (saturating), takes its count, and is snapshotted; a wake is
/// snapshotted with its count.
pub open spec fn futex_sample_step(es: Seq<FutexEntryView>, e: FutexEvent) -> Seq<FutexEntryView> {
    match e {
        FutexEvent::Wait { root_pid, uaddr, sample_instant_ns, total_interval_wait_ns, count, .. } => {
            let es1 = ensure_word(es, root_pid, uaddr@);
            let i = find_word(es1, root_pid, uaddr@, 0);
            let st = WaitStat { accumulated_wait: crate::epoll::sat_add(es1[i].stat.accumulated_wait, total_interval_wait_ns as int), count };
            es1.update(i, FutexEntryView { stat: st, snapshots: es1[i].snapshots.push((sample_instant_ns, SnapshotStat::Wait(st))), ..es1[i] })
        },
        FutexEvent::Wake { root_pid, uaddr, sample_instant_ns, count, .. } => {
            let es1 = ensure_word(es, root_pid, uaddr@);
            let i = find_word(es1, root_pid, uaddr@, 0);
            es1.update(i, FutexEntryView { snapshots: es1[i].snapshots.push((sample_instant_ns, SnapshotStat::Wake { count })), ..es1[i] })
        },
    }
}

pub open spec fn futex_sample_run(es: Seq<FutexEntryView>, evs: Seq<FutexEvent>) -> Seq<FutexEntryView>
    decreases evs.len(),
{
    if evs.len() == 0 {
        es
    } else {
        futex_sample_step(futex_sample_run(es, evs.drop_last()), evs.last())
    }
}

/// Milliseconds since the epoch of a tracer instant.
pub open spec fn epoch_ms_spec(boot_epoch_ns: u64, t: u64) -> nat {
    (epoch_ns_spec(boot_epoch_ns as int, t as int) / 1_000_000) as nat
}

/// The record one snapshot of word (`root_pid`, `uaddr`) becomes under directory `dir`.
pub open spec fn futex_record(dir: Seq<u8>, boot_epoch_ns: u64, root_pid: u64, uaddr: Seq<u8>, s: (u64, SnapshotStat)) -> (Seq<u8>, Seq<u8>, Seq<u8>) {
    let ms = epoch_ms_spec(boot_epoch_ns, s.0);
    let name = dec_text(minute_bucket_spec(ms as int) as nat) + slash() + dec_text(root_pid as nat) + dash() + uaddr + csv_ext();
    match s.1 {
        SnapshotStat::Wait(w) => (
            dir + wait_dir() + name,
            futex_wait_header(),
            dec_text(ms) + comma() + dec_text(w.accumulated_wait as nat) + comma() + dec_text(w.count as nat) + newline(),
        ),
        SnapshotStat::Wake { count } => (
            dir + wake_dir() + name,
            futex_wake_header(),
            dec_text(ms) + comma() + dec_text(count as nat) + newline(),
        ),
    }
}

pub open spec fn entry_records(dir: Seq<u8>, boot_epoch_ns: u64, e: FutexEntryView) -> Seq<(Seq<u8>, Seq<u8>, Seq<u8>)> {
    Seq::new(e.snapshots.len(), |i: int| futex_record(dir, boot_epoch_ns, e.root_pid, e.uaddr, e.snapshots[i]))
}

/// The records of all snapshots, word by word, oldest snapshot first.
pub open spec fn all_records(dir: Seq<u8>, boot_epoch_ns: u64, es: Seq<FutexEntryView>) -> Seq<(Seq<u8>, Seq<u8>, Seq<u8>)>
    decreases es.len(),
{
    if es.len() == 0 {
        Seq::empty()
    } else {
        all_records(dir, boot_epoch_ns, es.drop_last()) + entry_records(dir, boot_epoch_ns, es.last())
    }
}

/// Wait snapshots of one word never lose cumulative wait, and none passes the word's stats.
pub open spec fn futex_entry_wf(e: FutexEntryView) -> bool {
    &&& forall|i: int, j: int| 0 <= i < j < e.snapshots.len() && e.snapshots[i].1 is Wait && e.snapshots[j].1 is Wait
        ==> e.snapshots[i].1->Wait_0.accumulated_wait <= e.snapshots[j].1->Wait_0.accumulated_wait
    &&& forall|i: int| 0 <= i < e.snapshots.len() && (#[trigger] e.snapshots[i]).1 is Wait
        ==> e.snapshots[i].1->Wait_0.accumulated_wait <= e.stat.accumulated_wait
}

pub open spec fn futex_all_wf(es: Seq<FutexEntryView>) -> bool {
    forall|i: int| 0 <= i < es.len() ==> futex_entry_wf(#[trigger] es[i])
}

/// The futex accumulator of one thread.
pub struct Futex {
    tid: u64,
    entries: Vec<FutexEntry>,
    target_subdirectory: Vec<u8>,
}

impl View for Futex {
    type V = Seq<FutexEntryView>;

    closed spec fn view(&self) -> Seq<FutexEntryView> {
        futex_entries_view(self.entries@)
    }
}

impl Futex {
    /// The directory of this thread's futex files: `<root>/<target>/futex`.
    pub closed spec fn dir(&self) -> Seq<u8> {
        self.target_subdirectory@
    }

    pub closed spec fn tid_spec(&self) -> u64 {
        self.tid
    }

    /// An accumulator for thread `tid` whose files go under `<root_directory>/<target_subdirectory>/futex`.
    pub fn new(tid: u64, root_directory: &[u8], target_subdirectory: &[u8]) -> (r: Self)
        ensures
            r@ == Seq::<FutexEntryView>::empty(),
            r.dir() == root_directory@ + slash() + target_subdirectory@ + slash() + seq![102u8, 117, 116, 101, 120],
            r.tid_spec() == tid,
    {
        let mut dir: Vec<u8> = Vec::new();
        append(&mut dir, root_directory);
        push_slash(&mut dir);
        append(&mut dir, target_subdirectory);
        push_slash(&mut dir);
        append(&mut dir, &[102u8, 117, 116, 101, 120]);
        let r = Futex { tid, entries: Vec::new(), target_subdirectory: dir };
        assert(r@ =~= Seq::<FutexEntryView>::empty());
        r
    }

    /// The thread this accumulator follows.
    pub fn tid(&self) -> (r: u64)
        ensures
            r == self.tid_spec(),
    {
        self.tid
    }

    fn find(&self, root_pid: u64, uaddr: &Vec<u8>) -> (r: Option<usize>)
        ensures
            match r {
                Some(i) => i as int == find_word(self@, root_pid, uaddr@, 0) && i < self@.len(),
                None => find_word(self@, root_pid, uaddr@, 0) < 0,
            },
            self@.len() == self.entries@.len(),
    {
        let ghost es = self@;
        let mut i: usize = 0;
        while i < self.entries.len()
            invariant
                0 <= i <= self.entries@.len(),
                es == self@,
                es.len() == self.entries@.len(),
                find_word(es, root_pid, uaddr@, 0) == find_word(es, root_pid, uaddr@, i as int),
            decreases self.entries@.len() - i,
        {
            assert(es[i as int] == futex_entry_view(self.entries@[i as int]));
            if self.entries[i].root_pid == root_pid && bytes_eq(self.entries[i].uaddr.as_slice(), uaddr.as_slice()) {
                return Some(i);
            }
            i = i + 1;
        }
        None
    }

    /// The snapshots of futex word (`root_pid`, `uaddr`), oldest first, if it has been seen.
    pub fn snapshots_of(&self, root_pid: u64, uaddr: &Vec<u8>) -> (r: Option<Vec<(u64, SnapshotStat)>>)
        ensures
            match r {
                Some(v) => find_word(self@, root_pid, uaddr@, 0) >= 0 && v@ == self@[find_word(self@, root_pid, uaddr@, 0)].snapshots,
                None => find_word(self@, root_pid, uaddr@, 0) < 0,
            },
    {
        match self.find(root_pid, uaddr) {
            Some(i) => {
                assert(self@[i as int] == futex_entry_view(self.entries@[i as int]));
                Some(copy_snapshots(&self.entries[i].snapshots))
            },
            None => None,
        }
    }

    /// Applies one derived event.
    pub fn process_event(&mut self, event: FutexEvent)
        requires
            futex_all_wf(old(self)@),
        ensures
            final(self)@ == futex_sample_step(old(self)@, event),
            futex_all_wf(final(self)@),
            final(self).dir() == old(self).dir(),
            final(self).tid_spec() == old(self).tid_spec(),
    {
        let ghost before = self@;
        let (root_pid, uaddr, t, wait) = match &event {
            FutexEvent::Wait { root_pid, uaddr, sample_instant_ns, total_interval_wait_ns, count, .. } => (*root_pid, crate::futex::copy_bytes(uaddr), *sample_instant_ns, Some((*total_interval_wait_ns, *count))),
            FutexEvent::Wake { root_pid, uaddr, sample_instant_ns, count, .. } => (*root_pid, crate::futex::copy_bytes(uaddr), *sample_instant_ns, None),
        };
        let wake_count: u64 = match &event {
            FutexEvent::Wake { count, .. } => *count,
            _ => 0,
        };
        let i = match self.find(root_pid, &uaddr) {
            Some(i) => i,
            None => {
                let e = FutexEntry { root_pid, uaddr: crate::futex::copy_bytes(&uaddr), stat: WaitStat { accumulated_wait: 0, count: 0 }, snapshots: Vec::new() };
                self.entries.push(e);
                assert(self@ =~= ensure_word(before, root_pid, uaddr@));
                proof {
                    lemma_find_word_push(before, root_pid, uaddr@, 0);
                }
                self.entries.len() - 1
            },
        };
        let ghost mid = self@;
        assert(mid == ensure_word(before, root_pid, uaddr@));
        assert(mid[i as int] == futex_entry_view(self.entries@[i as int]));
        let mut e = self.entries.remove(i);
        match wait {
            Some((total, count)) => {
                let st = WaitStat { accumulated_wait: e.stat.accumulated_wait.saturating_add(total), count };
                e.stat = st;
                e.snapshots.push((t, SnapshotStat::Wait(st)));
            },
            None => {
                e.snapshots.push((t, SnapshotStat::Wake { count: wake_count }));
            },
        }
        self.entries.insert(i, e);
        assert(self@ =~= futex_sample_step(before, event));
        assert forall|k: int| 0 <= k < self@.len() implies futex_entry_wf(#[trigger] self@[k]) by {
            if k != i {
                if k < before.len() {
                    assert(self@[k] == before[k]);
                }
            }
        }
    }

    /// Applies the derived events of this thread, in order.
    pub fn sample(&mut self, events: Vec<FutexEvent>)
        requires
            futex_all_wf(old(self)@),
        ensures
            final(self)@ == futex_sample_run(old(self)@, events@),
            futex_all_wf(final(self)@),
            final(self).dir() == old(self).dir(),
            final(self).tid_spec() == old(self).tid_spec(),
    {
        let mut events = events;
        let ghost all = events@;
        let n = events.len();
        let mut i: usize = 0;
        while events.len() > 0
            invariant
                n == all.len(),
                0 <= i <= n,
                events@ == all.subrange(i as int, n as int),
                events@.len() == n - i,
                self@ == futex_sample_run(old(self)@, all.subrange(0, i as int)),
                futex_all_wf(self@),
                self.dir() == old(self).dir(),
                self.tid_spec() == old(self).tid_spec(),
            decreases events@.len(),
        {
            assert(i < n);
            let e = events.remove(0);
            assert(all.subrange(0, i + 1).drop_last() =~= all.subrange(0, i as int));
            assert(all.subrange(0, i + 1).last() == e);
            self.process_event(e);
            i = i + 1;
            assert(events@ =~= all.subrange(i as int, n as int));
        }
        assert(all.subrange(0, n as int) =~= all);
    }
}

/// The record one snapshot of word (`root_pid`, `uaddr`) becomes under directory `dir`.
fn make_record(dir: &Vec<u8>, boot_epoch_ns: u64, root_pid: u64, uaddr: &Vec<u8>, s: (u64, SnapshotStat)) -> (r: CsvRecord)
    ensures
        record_view(r) == futex_record(dir@, boot_epoch_ns, root_pid, uaddr@, s),
{
    let ep = boot_to_epoch(boot_epoch_ns as u128, s.0 as u128);
    let ms = epoch_ms_of(ep);
    let minute = minute_bucket(ms);
    let mut name: Vec<u8> = render_dec(minute);
    push_slash(&mut name);
    append(&mut name, render_dec(root_pid as u128).as_slice());
    push_dash(&mut name);
    append(&mut name, uaddr.as_slice());
    push_csv_ext(&mut name);
    let mut path: Vec<u8> = Vec::new();
    append(&mut path, dir.as_slice());
    let mut header: Vec<u8> = Vec::new();
    let mut row: Vec<u8> = render_dec(ms);
    match s.1 {
        SnapshotStat::Wait(w) => {
            push_wait_dir(&mut path);
            push_futex_wait_header(&mut header);
            push_comma(&mut row);
            append(&mut row, render_dec(w.accumulated_wait as u128).as_slice());
            push_comma(&mut row);
            append(&mut row, render_dec(w.count as u128).as_slice());
            push_newline(&mut row);
        },
        SnapshotStat::Wake { count } => {
            push_wake_dir(&mut path);
            push_futex_wake_header(&mut header);
            push_comma(&mut row);
            append(&mut row, render_dec(count as u128).as_slice());
            push_newline(&mut row);
        },
    }
    append(&mut path, name.as_slice());
    let r = CsvRecord { path, header, row };
    assert(header@ =~= futex_record(dir@, boot_epoch_ns, root_pid, uaddr@, s).1);
    assert(path@ =~= futex_record(dir@, boot_epoch_ns, root_pid, uaddr@, s).0);
    assert(row@ =~= futex_record(dir@, boot_epoch_ns, root_pid, uaddr@, s).2);
    r
}

impl Futex {
    /// Takes every snapshot, word by word and oldest first, as the CSV records they
    /// become; `boot_epoch_ns` maps tracer instants onto the epoch.
    pub fn store(&mut self, boot_epoch_ns: u64) -> (r: Vec<CsvRecord>)
        ensures
            records_view(r@) == all_records(old(self).dir(), boot_epoch_ns, old(self)@),
            final(self)@ == Seq::new(old(self)@.len(), |i: int| FutexEntryView { snapshots: Seq::empty(), ..old(self)@[i] }),
            final(self).dir() == old(self).dir(),
            final(self).tid_spec() == old(self).tid_spec(),
            futex_all_wf(old(self)@) ==> futex_all_wf(final(self)@),
    {
        let ghost es = self@;
        let mut out: Vec<CsvRecord> = Vec::new();
        let mut old_entries: Vec<FutexEntry> = Vec::new();
        std::mem::swap(&mut old_entries, &mut self.entries);
        let ghost all = old_entries@;
        let n = old_entries.len();
        let mut k: usize = 0;
        assert(es.subrange(0, 0) =~= Seq::<FutexEntryView>::empty());
        assert(records_view(out@) =~= Seq::empty());
        while old_entries.len() > 0
            invariant
                n == all.len(),
                es == futex_entries_view(all),
                0 <= k <= n,
                old_entries@ == all.subrange(k as int, n as int),
                old_entries@.len() == n - k,
                records_view(out@) == all_records(self.target_subdirectory@, boot_epoch_ns, es.subrange(0, k as int)),
                self.entries@.len() == k,
                forall|j: int| 0 <= j < k ==> futex_entry_view(#[trigger] self.entries@[j]) == (FutexEntryView { snapshots: Seq::empty(), ..es[j] }),
                self.target_subdirectory == old(self).target_subdirectory,
                self.tid == old(self).tid,
                es == old(self)@,
            decreases old_entries@.len(),
        {
            assert(k < n);
            let e = old_entries.remove(0);
            assert(futex_entry_view(e) == es[k as int]);
            let ghost before_out = records_view(out@);
            let ghost ev = es[k as int];
            let mut j: usize = 0;
            while j < e.snapshots.len()
                invariant
                    0 <= j <= e.snapshots@.len(),
                    ev == futex_entry_view(e),
                    records_view(out@) == before_out + entry_records(self.target_subdirectory@, boot_epoch_ns, ev).subrange(0, j as int),
                decreases e.snapshots@.len() - j,
            {
                let rec = make_record(&self.target_subdirectory, boot_epoch_ns, e.root_pid, &e.uaddr, e.snapshots[j]);
                let ghost before_push = records_view(out@);
                assert(entry_records(self.target_subdirectory@, boot_epoch_ns, ev)[j as int] == record_view(rec));
                out.push(rec);
                assert(records_view(out@) =~= before_push.push(record_view(rec)));
                j = j + 1;
                assert(records_view(out@) =~= before_out + entry_records(self.target_subdirectory@, boot_epoch_ns, ev).subrange(0, j as int));
            }
            assert(entry_records(self.target_subdirectory@, boot_epoch_ns, ev).subrange(0, j as int) =~= entry_records(self.target_subdirectory@, boot_epoch_ns, ev));
            assert(es.subrange(0, k + 1).drop_last() =~= es.subrange(0, k as int));
            assert(es.subrange(0, k + 1).last() == ev);
            let emptied = FutexEntry { root_pid: e.root_pid, uaddr: e.uaddr, stat: e.stat, snapshots: Vec::new() };
            self.entries.push(emptied);
            k = k + 1;
            assert(old_entries@ =~= all.subrange(k as int, n as int));
        }
        assert(es.subrange(0, n as int) =~= es);
        assert(self@ =~= Seq::new(es.len(), |i: int| FutexEntryView { snapshots: Seq::empty(), ..es[i] }));
        out
    }
}

proof fn lemma_find_word_push(es: Seq<FutexEntryView>, root_pid: u64, uaddr: Seq<u8>, i: int)
    requires
        0 <= i <= es.len(),
        find_word(es, root_pid, uaddr, 0) < 0,
        find_word(es, root_pid, uaddr, i) < 0,
    ensures
        find_word(ensure_word(es, root_pid, uaddr), root_pid, uaddr, i) == es.len(),
    decreases es.len() - i,
{
    let n = ensure_word(es, root_pid, uaddr);
    if i < es.len() {
        assert(n[i] == es[i]);
        lemma_find_word_push(es, root_pid, uaddr, i + 1);
    }
}

fn copy_snapshots(v: &Vec<(u64, SnapshotStat)>) -> (r: Vec<(u64, SnapshotStat)>)
    ensures
        r@ == v@,
{
    let mut out: Vec<(u64, SnapshotStat)> = Vec::new();
    let mut i: usize = 0;
    while i < v.len()
        invariant
            0 <= i <= v@.len(),
            out@ == v@.subrange(0, i as int),
        decreases v@.len() - i,
    {
        out.push(v[i]);
        i = i + 1;
        assert(out@ =~= v@.subrange(0, i as int));
    }
    assert(v@.subrange(0, i as int) =~= v@);
    out
}

} // verus!
