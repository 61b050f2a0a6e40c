//! Attribution of waits to files: cumulative wait per target file, fed by inode-wait
//! summaries and by epoll add / remove / wait events, with one snapshot queue per file.
use vstd::prelude::*;

use crate::ipc::{copy_target, same_target, target_view, TargetFile, TargetView};

verus! {

/// Cumulative wait of one resource and the latest count the tracer reported for it.
#[derive(Clone, Copy, Debug, PartialEq, Eq, Structural)]
pub struct Stats {
    pub accumulated_wait: u64,
    pub count: u64,
}

/// A snapshot: its instant in epoch nanoseconds (`None` while tentative) and the stats.
pub type Snapshot = (Option<u128>, Stats);

/// One target file: its add-time contribution while registered, its stats, its snapshots.
pub struct TargetEntry {
    pub target: TargetFile,
    pub active: Option<u64>,
    pub stats: Stats,
    pub snapshots: Vec<Snapshot>,
}

/// A target entry as plain values.
pub struct EntryView {
    pub target: TargetView,
    pub active: Option<u64>,
    pub stats: Stats,
    pub snapshots: Seq<Snapshot>,
}

pub open spec fn entry_view(e: TargetEntry) -> EntryView {
    EntryView { target: target_view(e.target), active: e.active, stats: e.stats, snapshots: e.snapshots@ }
}

pub open spec fn entries_view(v: Seq<TargetEntry>) -> Seq<EntryView> {
    v.map_values(|e: TargetEntry| entry_view(e))
}

/// `a + b`, or the largest 64-bit value when the sum does not fit.
pub open spec fn sat_add(a: u64, b: int) -> u64 {
    if a + b > u64::MAX {
        u64::MAX
    } else {
        (a + b) as u64
    }
}

/// Index of the entry of target `t` at or after `i`, or -1.
pub open spec fn find_from(es: Seq<EntryView>, t: TargetView, i: int) -> int
    decreases es.len() - i,
{
    if i < 0 || i >= es.len() {
        -1
    } else if es[i].target == t {
        i
    } else {
        find_from(es, t, i + 1)
    }
}

pub open spec fn find_target(es: Seq<EntryView>, t: TargetView) -> int {
    find_from(es, t, 0)
}

/// The entries with one for `t` added at the end if there was none.
pub open spec fn ensure_entry(es: Seq<EntryView>, t: TargetView) -> Seq<EntryView> {
    if find_target(es, t) < 0 {
        es.push(EntryView { target: t, active: None, stats: Stats { accumulated_wait: 0, count: 0 }, snapshots: Seq::empty() })
    } else {
        es
    }
}

/// Appends a tentative snapshot, or replaces the tentative tail.
pub open spec fn push_tentative(s: Seq<Snapshot>, st: Stats) -> Seq<Snapshot> {
    if s.len() > 0 && s.last().0 is None {
        s.update(s.len() - 1, (None, st))
    } else {
        s.push((None, st))
    }
}

/// Appends a snapshot at `ep`, or fixes the tentative tail at `ep` with the new stats.
pub open spec fn push_fixed(s: Seq<Snapshot>, ep: u128, st: Stats) -> Seq<Snapshot> {
    if s.len() > 0 && s.last().0 is None {
        s.update(s.len() - 1, (Some(ep), st))
    } else {
        s.push((Some(ep), st))
    }
}

/// The contribution of an epoll item between its add-time and remove-time snapshots;
/// a remove snapshot below the add snapshot is taken whole (the counter was reset).
pub open spec fn remove_delta(add: u64, rem: u64) -> int {
    if rem >= add {
        rem - add
    } else {
        rem as int
    }
}

/// The share of an epoll wait `w` given to an item whose add-time contribution is `a`.
pub open spec fn wait_delta(w: u64, a: u64) -> int {
    if w > a {
        w - a
    } else {
        0
    }
}

/// `EpollItemAdd` / `EpollItem`: the target is registered with add-time contribution `c`.
pub open spec fn add_spec(es: Seq<EntryView>, t: TargetView, c: u64) -> Seq<EntryView> {
    let es1 = ensure_entry(es, t);
    let i = find_target(es1, t);
    es1.update(i, EntryView { active: Some(c), ..es1[i] })
}

/// `EpollItemRemove`: a registered target takes its contribution and leaves.
pub open spec fn remove_spec(es: Seq<EntryView>, t: TargetView, c: u64) -> Seq<EntryView> {
    let i = find_target(es, t);
    if i < 0 {
        es
    } else {
        match es[i].active {
            None => es,
            Some(a) => {
                let st = Stats { accumulated_wait: sat_add(es[i].stats.accumulated_wait, remove_delta(a, c)), ..es[i].stats };
                es.update(i, EntryView { active: None, stats: st, snapshots: push_tentative(es[i].snapshots, st), ..es[i] })
            },
        }
    }
}

/// One entry under an `EpollWait` of total `w` at `ep`: a registered target takes its
/// share and is snapshotted; an unregistered one has its tentative tail fixed at `ep`.
pub open spec fn wait_entry(e: EntryView, ep: u128, w: u64) -> EntryView {
    match e.active {
        Some(a) => {
            let st = Stats { accumulated_wait: sat_add(e.stats.accumulated_wait, wait_delta(w, a)), ..e.stats };
            EntryView { active: Some(0), stats: st, snapshots: push_fixed(e.snapshots, ep, st), ..e }
        },
        None => if e.snapshots.len() > 0 && e.snapshots.last().0 is None {
            EntryView { snapshots: e.snapshots.update(e.snapshots.len() - 1, (Some(ep), e.snapshots.last().1)), ..e }
        } else {
            e
        },
    }
}

pub open spec fn wait_spec(es: Seq<EntryView>, ep: u128, w: u64) -> Seq<EntryView> {
    Seq::new(es.len(), |i: int| wait_entry(es[i], ep, w))
}

/// A per-interval inode wait of `total` at `ep`, with the tracer's `count`.
pub open spec fn inode_wait_spec(es: Seq<EntryView>, t: TargetView, ep: u128, total: u64, count: u64) -> Seq<EntryView> {
    let es1 = ensure_entry(es, t);
    let i = find_target(es1, t);
    let st = Stats { accumulated_wait: sat_add(es1[i].stats.accumulated_wait, total as int), count };
    es1.update(i, EntryView { stats: st, snapshots: es1[i].snapshots.push((Some(ep), st)), ..es1[i] })
}

/// The newest fixed instant of a snapshot queue whose only tentative entry may be its last.
pub open spec fn newest_instant(s: Seq<Snapshot>) -> Option<u128> {
    if s.len() == 0 {
        None
    } else if s.last().0 is Some {
        s.last().0
    } else if s.len() >= 2 {
        s[s.len() - 2].0
    } else {
        None
    }
}

/// `ep` is later than every fixed instant of the queue.
pub open spec fn after_newest(s: Seq<Snapshot>, ep: u128) -> bool {
    match newest_instant(s) {
        Some(x) => x < ep,
        None => true,
    }
}

/// The ordering invariant of one target's snapshots: only the last may be tentative, fixed
/// instants strictly increase, cumulative waits never decrease and never pass the stats.
pub open spec fn entry_wf(e: EntryView) -> bool {
    let s = e.snapshots;
    &&& forall|i: int| 0 <= i < s.len() - 1 ==> (#[trigger] s[i]).0 is Some
    &&& forall|i: int, j: int| 0 <= i < j < s.len() && s[i].0 is Some && s[j].0 is Some
        ==> s[i].0.unwrap() < s[j].0.unwrap()
    &&& forall|i: int, j: int| 0 <= i < j < s.len() ==> s[i].1.accumulated_wait <= s[j].1.accumulated_wait
    &&& forall|i: int| 0 <= i < s.len() ==> (#[trigger] s[i]).1.accumulated_wait <= e.stats.accumulated_wait
}

/// No file has two entries.
pub open spec fn targets_unique(es: Seq<EntryView>) -> bool {
    forall|i: int, j: int| 0 <= i < j < es.len() ==> (#[trigger] es[i]).target != (#[trigger] es[j]).target
}

/// No file loses its entry or its cumulative wait between `old` and `new`.
pub open spec fn acc_monotone(old: Seq<EntryView>, new: Seq<EntryView>) -> bool {
    &&& old.len() <= new.len()
    &&& forall|i: int| 0 <= i < old.len() ==> (#[trigger] new[i]).target == old[i].target && new[i].stats.accumulated_wait >= old[i].stats.accumulated_wait
}

/// Every entry is well formed and no file has two entries.
pub open spec fn all_wf(es: Seq<EntryView>) -> bool {
    &&& forall|i: int| 0 <= i < es.len() ==> entry_wf(#[trigger] es[i])
    &&& targets_unique(es)
}

/// Why an event could not be applied to a target's snapshots.
#[derive(Clone, Copy, Debug, PartialEq, Eq)]
pub enum AttributionError {
    /// The event's instant is not later than a snapshot the target already has.
    InstantWentBack,
    /// A socket event that names a file other than an inode.
    UnexpectedTarget,
    /// An event that the accumulator does not take.
    UnexpectedEvent,
}

proof fn lemma_push_tentative_wf(e: EntryView, st: Stats)
    requires
        entry_wf(e),
        st.accumulated_wait >= e.stats.accumulated_wait,
    ensures
        entry_wf(EntryView { stats: st, snapshots: push_tentative(e.snapshots, st), ..e }),
{
    let s = e.snapshots;
    let n = push_tentative(s, st);
    if s.len() > 0 && s.last().0 is None {
        assert forall|i: int, j: int| 0 <= i < j < n.len() implies n[i].1.accumulated_wait <= n[j].1.accumulated_wait by {
            if j == n.len() - 1 {
                assert(s[i].1.accumulated_wait <= e.stats.accumulated_wait);
            }
        }
    } else {
        assert forall|i: int, j: int| 0 <= i < j < n.len() implies n[i].1.accumulated_wait <= n[j].1.accumulated_wait by {
            if j == n.len() - 1 {
                assert(s[i].1.accumulated_wait <= e.stats.accumulated_wait);
            }
        }
        assert forall|i: int| 0 <= i < n.len() - 1 implies (#[trigger] n[i]).0 is Some by {
            if i == s.len() - 1 {
                assert(s.last().0 is Some);
            }
        }
    }
}

proof fn lemma_push_fixed_wf(e: EntryView, ep: u128, st: Stats)
    requires
        entry_wf(e),
        st.accumulated_wait >= e.stats.accumulated_wait,
        after_newest(e.snapshots, ep),
    ensures
        entry_wf(EntryView { stats: st, snapshots: push_fixed(e.snapshots, ep, st), ..e }),
{
    let s = e.snapshots;
    let n = push_fixed(s, ep, st);
    assert forall|i: int| 0 <= i < s.len() && s[i].0 is Some implies s[i].0.unwrap() < ep by {
        if s.last().0 is Some {
            if i < s.len() - 1 {
                assert(s[i].0.unwrap() < s[s.len() - 1].0.unwrap());
            }
        } else {
            assert(i < s.len() - 1);
            if i < s.len() - 2 {
                assert(s[i].0.unwrap() < s[s.len() - 2].0.unwrap());
            }
            assert(s[s.len() - 2].0 is Some);
        }
    }
    assert forall|i: int, j: int| 0 <= i < j < n.len() implies n[i].1.accumulated_wait <= n[j].1.accumulated_wait by {
        if j == n.len() - 1 {
            assert(s[i].1.accumulated_wait <= e.stats.accumulated_wait);
        }
    }
    assert forall|i: int, j: int| 0 <= i < j < n.len() && n[i].0 is Some && n[j].0 is Some implies n[i].0.unwrap() < n[j].0.unwrap() by {
        if j == n.len() - 1 {
            assert(n[i] == s[i]);
        }
    }
    if !(s.len() > 0 && s.last().0 is None) {
        assert forall|i: int| 0 <= i < n.len() - 1 implies (#[trigger] n[i]).0 is Some by {
            if i == s.len() - 1 {
                assert(s.last().0 is Some);
            }
        }
    }
}

proof fn lemma_wait_entry_wf(e: EntryView, ep: u128, w: u64)
    requires
        entry_wf(e),
        after_newest(e.snapshots, ep),
    ensures
        entry_wf(wait_entry(e, ep, w)),
{
    match e.active {
        Some(a) => {
            let st = Stats { accumulated_wait: sat_add(e.stats.accumulated_wait, wait_delta(w, a)), ..e.stats };
            lemma_push_fixed_wf(e, ep, st);
            assert(wait_entry(e, ep, w) == EntryView { active: Some(0), stats: st, snapshots: push_fixed(e.snapshots, ep, st), ..e });
        },
        None => {
            if e.snapshots.len() > 0 && e.snapshots.last().0 is None {
                lemma_push_fixed_wf(e, ep, e.stats);
                let s = e.snapshots;
                let n = s.update(s.len() - 1, (Some(ep), s.last().1));
                assert forall|i: int, j: int| 0 <= i < j < n.len() implies n[i].1.accumulated_wait <= n[j].1.accumulated_wait by {
                    assert(s[i].1.accumulated_wait <= s[j].1.accumulated_wait);
                }
                assert forall|i: int| 0 <= i < n.len() implies (#[trigger] n[i]).1.accumulated_wait <= e.stats.accumulated_wait by {
                    assert(s[i].1.accumulated_wait <= e.stats.accumulated_wait);
                }
                assert forall|i: int, j: int| 0 <= i < j < n.len() && n[i].0 is Some && n[j].0 is Some implies n[i].0.unwrap() < n[j].0.unwrap() by {
                    let m = push_fixed(s, ep, e.stats);
                    assert(n[i].0 == m[i].0 && n[j].0 == m[j].0);
                }
            }
        },
    }
}

/// Appends a tentative snapshot to a queue, or replaces its tentative tail.
fn push_tentative_exec(s: &mut Vec<Snapshot>, st: Stats)
    ensures
        final(s)@ == push_tentative(old(s)@, st),
{
    let n = s.len();
    if n > 0 && s[n - 1].0.is_none() {
        let _ = s.pop();
        s.push((None, st));
        assert(s@ =~= push_tentative(old(s)@, st));
    } else {
        s.push((None, st));
    }
}

/// Appends a fixed snapshot to a queue, or fixes its tentative tail.
fn push_fixed_exec(s: &mut Vec<Snapshot>, ep: u128, st: Stats)
    ensures
        final(s)@ == push_fixed(old(s)@, ep, st),
{
    let n = s.len();
    if n > 0 && s[n - 1].0.is_none() {
        let _ = s.pop();
        s.push((Some(ep), st));
        assert(s@ =~= push_fixed(old(s)@, ep, st));
    } else {
        s.push((Some(ep), st));
    }
}

fn sat_add_exec(a: u64, b: u64) -> (r: u64)
    ensures
        r == sat_add(a, b as int),
{
    a.saturating_add(b)
}

/// Whether `ep` is later than every fixed instant of a well-formed queue.
fn is_after_newest(s: &Vec<Snapshot>, ep: u128) -> (r: bool)
    ensures
        r == after_newest(s@, ep),
{
    let n = s.len();
    if n == 0 {
        return true;
    }
    let newest = match s[n - 1].0 {
        Some(x) => Some(x),
        None => if n >= 2 {
            s[n - 2].0
        } else {
            None
        },
    };
    match newest {
        Some(x) => x < ep,
        None => true,
    }
}

/// The cumulative waits of every file registered on one epoll instance (or touched by one
/// thread), with one snapshot queue per file.
pub struct Attribution {
    entries: Vec<TargetEntry>,
}

impl View for Attribution {
    type V = Seq<EntryView>;

    closed spec fn view(&self) -> Seq<EntryView> {
        entries_view(self.entries@)
    }
}

impl Attribution {
    /// No files yet.
    pub fn new() -> (r: Self)
        ensures
            r@ == Seq::<EntryView>::empty(),
    {
        let r = Attribution { entries: Vec::new() };
        assert(r@ =~= Seq::<EntryView>::empty());
        r
    }

    /// The snapshots of file `t`, oldest first, if the file has been seen.
    pub fn snapshots_of(&self, t: &TargetFile) -> (r: Option<Vec<Snapshot>>)
        ensures
            match r {
                Some(v) => find_target(self@, target_view(*t)) >= 0 && v@ == self@[find_target(self@, target_view(*t))].snapshots,
                None => find_target(self@, target_view(*t)) < 0,
            },
    {
        match self.find(t) {
            Some(i) => {
                assert(self@[i as int] == entry_view(self.entries@[i as int]));
                Some(copy_snapshots(&self.entries[i].snapshots))
            },
            None => None,
        }
    }

    /// The entries, in the order their files were first seen.
    pub fn entries(&self) -> (r: &Vec<TargetEntry>)
        ensures
            entries_view(r@) == self@,
    {
        &self.entries
    }

    fn find(&self, t: &TargetFile) -> (r: Option<usize>)
        ensures
            match r {
                Some(i) => i as int == find_target(self@, target_view(*t)) && i < self@.len(),
                None => find_target(self@, target_view(*t)) < 0,
            },
            self@.len() == self.entries@.len(),
    {
        let ghost es = self@;
        let ghost tv = target_view(*t);
        let mut i: usize = 0;
        while i < self.entries.len()
            invariant
                0 <= i <= self.entries@.len(),
                es == self@,
                es.len() == self.entries@.len(),
                tv == target_view(*t),
                find_target(es, tv) == find_from(es, tv, i as int),
            decreases self.entries@.len() - i,
        {
            assert(es[i as int] == entry_view(self.entries@[i as int]));
            if same_target(&self.entries[i].target, t) {
                return Some(i);
            }
            i = i + 1;
        }
        None
    }

    /// Index of the entry of `t`, created at the end when there is none.
    fn ensure(&mut self, t: &TargetFile) -> (r: usize)
        requires
            all_wf(old(self)@),
        ensures
            final(self)@ == ensure_entry(old(self)@, target_view(*t)),
            r as int == find_target(final(self)@, target_view(*t)),
            r < final(self)@.len(),
            final(self)@.len() == final(self).entries@.len(),
            all_wf(final(self)@),
    {
        match self.find(t) {
            Some(i) => i,
            None => {
                let ghost before = self@;
                let e = TargetEntry {
                    target: copy_target(t),
                    active: None,
                    stats: Stats { accumulated_wait: 0, count: 0 },
                    snapshots: Vec::new(),
                };
                self.entries.push(e);
                assert(self@ =~= ensure_entry(before, target_view(*t)));
                proof {
                    lemma_find_push(before, target_view(*t));
                    lemma_find_absent(before, target_view(*t), 0);
                    assert forall|i: int, j: int| 0 <= i < j < self@.len() implies (#[trigger] self@[i]).target != (#[trigger] self@[j]).target by {
                        if j == before.len() {
                            assert(self@[i] == before[i]);
                        } else {
                            assert(self@[i] == before[i] && self@[j] == before[j]);
                        }
                    }
                }
                self.entries.len() - 1
            },
        }
    }

    /// `EpollItemAdd` / `EpollItem`: registers `t` with add-time contribution `c`.
    pub fn item_add(&mut self, t: &TargetFile, c: u64)
        requires
            all_wf(old(self)@),
        ensures
            final(self)@ == add_spec(old(self)@, target_view(*t), c),
            all_wf(final(self)@),
            acc_monotone(old(self)@, final(self)@),
    {
        let i = self.ensure(t);
        let ghost mid = self@;
        let mut e = self.entries.remove(i);
        e.active = Some(c);
        self.entries.insert(i, e);
        assert(self@ =~= mid.update(i as int, EntryView { active: Some(c), ..mid[i as int] }));
    }

    /// `EpollItemRemove`: a registered `t` takes its contribution since it was added and
    /// leaves, with a tentative snapshot of its stats; an unregistered `t` is ignored.
    pub fn item_remove(&mut self, t: &TargetFile, c: u64)
        requires
            all_wf(old(self)@),
        ensures
            final(self)@ == remove_spec(old(self)@, target_view(*t), c),
            all_wf(final(self)@),
            acc_monotone(old(self)@, final(self)@),
    {
        let i = match self.find(t) {
            Some(i) => i,
            None => return,
        };
        let ghost before = self@;
        if self.entries[i].active.is_none() {
            return;
        }
        let mut e = self.entries.remove(i);
        let a = match e.active {
            Some(a) => a,
            None => 0,
        };
        let delta = if c >= a { c - a } else { c };
        let st = Stats { accumulated_wait: sat_add_exec(e.stats.accumulated_wait, delta), count: e.stats.count };
        e.active = None;
        e.stats = st;
        push_tentative_exec(&mut e.snapshots, st);
        self.entries.insert(i, e);
        let ghost ev = before[i as int];
        assert(self@ =~= before.update(i as int, EntryView { active: None, stats: st, snapshots: push_tentative(ev.snapshots, st), ..ev }));
        proof {
            lemma_push_tentative_wf(ev, st);
            assert(EntryView { active: None, stats: st, snapshots: push_tentative(ev.snapshots, st), ..ev } == EntryView { active: None, ..EntryView { stats: st, snapshots: push_tentative(ev.snapshots, st), ..ev } });
        }
    }

    /// `EpollWait` of total `w` at epoch instant `ep`: every registered file takes the part
    /// of `w` beyond its add-time contribution (which is then reset), and every tentative
    /// snapshot is fixed at `ep`. Fails, changing nothing, when a file already has a
    /// snapshot at or after `ep`.
    pub fn epoll_wait(&mut self, ep: u128, w: u64) -> (r: Result<(), AttributionError>)
        requires
            all_wf(old(self)@),
        ensures
            all_wf(final(self)@),
            (forall|i: int| 0 <= i < old(self)@.len() ==> after_newest(#[trigger] old(self)@[i].snapshots, ep)) ==> (r is Ok && final(self)@ == wait_spec(old(self)@, ep, w)),
            !(forall|i: int| 0 <= i < old(self)@.len() ==> after_newest(#[trigger] old(self)@[i].snapshots, ep)) ==> (r == Err::<(), AttributionError>(AttributionError::InstantWentBack) && final(self)@ == old(self)@),
            (r, final(self)@) == wait_result(old(self)@, ep, w),
            acc_monotone(old(self)@, final(self)@),
    {
        let mut k: usize = 0;
        while k < self.entries.len()
            invariant
                0 <= k <= self.entries@.len(),
                self@ == old(self)@,
                all_wf(old(self)@),
                self@.len() == self.entries@.len(),
                forall|i: int| 0 <= i < k ==> after_newest(#[trigger] self@[i].snapshots, ep),
            decreases self.entries@.len() - k,
        {
            assert(self@[k as int] == entry_view(self.entries@[k as int]));
            if !is_after_newest(&self.entries[k].snapshots, ep) {
                assert(!after_newest(old(self)@[k as int].snapshots, ep));
                return Err(AttributionError::InstantWentBack);
            }
            k = k + 1;
        }
        let ghost before = self@;
        let mut old_entries: Vec<TargetEntry> = Vec::new();
        std::mem::swap(&mut old_entries, &mut self.entries);
        let ghost all = old_entries@;
        let n = old_entries.len();
        let mut i: usize = 0;
        while old_entries.len() > 0
            invariant
                n == all.len(),
                0 <= i <= n,
                old_entries@ == all.subrange(i as int, n as int),
                old_entries@.len() == n - i,
                before == entries_view(all),
                self.entries@.len() == i,
                forall|j: int| 0 <= j < i ==> entry_view(#[trigger] self.entries@[j]) == wait_entry(before[j], ep, w),
            decreases old_entries@.len(),
        {
            assert(i < n);
            let mut e = old_entries.remove(0);
            assert(e == all[i as int]);
            assert(entry_view(e) == before[i as int]);
            match e.active {
                Some(a) => {
                    let d = if w > a { w - a } else { 0 };
                    let st = Stats { accumulated_wait: sat_add_exec(e.stats.accumulated_wait, d), count: e.stats.count };
                    e.active = Some(0);
                    e.stats = st;
                    push_fixed_exec(&mut e.snapshots, ep, st);
                },
                None => {
                    let m = e.snapshots.len();
                    if m > 0 && e.snapshots[m - 1].0.is_none() {
                        let last = e.snapshots.pop();
                        match last {
                            Some((_, st)) => e.snapshots.push((Some(ep), st)),
                            None => {},
                        }
                        assert(e.snapshots@ =~= before[i as int].snapshots.update(m - 1, (Some(ep), before[i as int].snapshots.last().1)));
                    }
                },
            }
            self.entries.push(e);
            i = i + 1;
            assert(old_entries@ =~= all.subrange(i as int, n as int));
        }
        assert(self@ =~= wait_spec(before, ep, w));
        assert forall|j: int| 0 <= j < self@.len() implies entry_wf(#[trigger] self@[j]) by {
            lemma_wait_entry_wf(before[j], ep, w);
        }
        Ok(())
    }

    /// An inode wait of `total` at epoch instant `ep` with the tracer's `count`: the file's
    /// cumulative wait grows by `total` and a snapshot at `ep` is taken (fixing a tentative
    /// tail). Fails, changing nothing, when the file already has a snapshot at or after `ep`.
    pub fn inode_wait(&mut self, t: &TargetFile, ep: u128, total: u64, count: u64) -> (r: Result<(), AttributionError>)
        requires
            all_wf(old(self)@),
        ensures
            all_wf(final(self)@),
            ({
                let es1 = ensure_entry(old(self)@, target_view(*t));
                let i = find_target(es1, target_view(*t));
                let st = Stats { accumulated_wait: sat_add(es1[i].stats.accumulated_wait, total as int), count };
                if after_newest(es1[i].snapshots, ep) {
                    r is Ok && final(self)@ == es1.update(i, EntryView { stats: st, snapshots: push_fixed(es1[i].snapshots, ep, st), ..es1[i] })
                } else {
                    r == Err::<(), AttributionError>(AttributionError::InstantWentBack) && final(self)@ == es1
                }
            }),
            (r, final(self)@) == inode_wait_result(old(self)@, target_view(*t), ep, total, count),
            acc_monotone(old(self)@, final(self)@),
    {
        let i = self.ensure(t);
        let ghost mid = self@;
        assert(mid[i as int] == entry_view(self.entries@[i as int]));
        if !is_after_newest(&self.entries[i].snapshots, ep) {
            return Err(AttributionError::InstantWentBack);
        }
        let mut e = self.entries.remove(i);
        let st = Stats { accumulated_wait: sat_add_exec(e.stats.accumulated_wait, total), count };
        e.stats = st;
        push_fixed_exec(&mut e.snapshots, ep, st);
        self.entries.insert(i, e);
        let ghost ev = mid[i as int];
        assert(self@ =~= mid.update(i as int, EntryView { stats: st, snapshots: push_fixed(ev.snapshots, ep, st), ..ev }));
        proof {
            lemma_push_fixed_wf(ev, ep, st);
        }
        Ok(())
    }
}

/// A target that is not found has no entry.
proof fn lemma_find_absent(es: Seq<EntryView>, t: TargetView, i: int)
    requires
        0 <= i,
        find_from(es, t, i) < 0,
    ensures
        forall|k: int| i <= k < es.len() ==> es[k].target != t,
    decreases es.len() - i,
{
    if i < es.len() {
        lemma_find_absent(es, t, i + 1);
    }
}

proof fn lemma_find_push(es: Seq<EntryView>, t: TargetView)
    requires
        find_target(es, t) < 0,
    ensures
        find_target(ensure_entry(es, t), t) == es.len(),
{
    let n = ensure_entry(es, t);
    lemma_find_from_push(es, t, 0);
}

proof fn lemma_find_from_push(es: Seq<EntryView>, t: TargetView, i: int)
    requires
        0 <= i <= es.len(),
        find_target(es, t) < 0,
        find_from(es, t, i) < 0,
    ensures
        find_from(ensure_entry(es, t), t, i) == es.len(),
    decreases es.len() - i,
{
    let n = ensure_entry(es, t);
    assert(n[es.len() as int].target == t);
    if i < es.len() {
        assert(n[i] == es[i]);
        lemma_find_from_push(es, t, i + 1);
    }
}

/// Consecutive snapshots of one file never lose cumulative wait, and where both instants
/// are fixed the later snapshot's instant is strictly greater. Every operation of
/// `Attribution` keeps `all_wf`, and a new `Attribution` has no entries.
pub proof fn lemma_consecutive_snapshots(es: Seq<EntryView>, k: int, i: int)
    requires
        all_wf(es),
        0 <= k < es.len(),
        0 <= i,
        i + 1 < es[k].snapshots.len(),
    ensures
        es[k].snapshots[i + 1].1.accumulated_wait >= es[k].snapshots[i].1.accumulated_wait,
        es[k].snapshots[i].0 is Some && es[k].snapshots[i + 1].0 is Some ==> es[k].snapshots[i
            + 1].0.unwrap() > es[k].snapshots[i].0.unwrap(),
{
    assert(entry_wf(es[k]));
}

/// Sum of the cumulative waits of all files.
pub open spec fn total_acc(es: Seq<EntryView>) -> int
    decreases es.len(),
{
    if es.len() == 0 {
        0
    } else {
        total_acc(es.drop_last()) + es.last().stats.accumulated_wait
    }
}

/// Sum of the add-time contributions of the registered files.
pub open spec fn active_contribs(es: Seq<EntryView>) -> int
    decreases es.len(),
{
    if es.len() == 0 {
        0
    } else {
        active_contribs(es.drop_last()) + match es.last().active {
            Some(a) => a as int,
            None => 0,
        }
    }
}

/// Number of registered files.
pub open spec fn count_active(es: Seq<EntryView>) -> int
    decreases es.len(),
{
    if es.len() == 0 {
        0
    } else {
        count_active(es.drop_last()) + if es.last().active is Some {
            1int
        } else {
            0int
        }
    }
}

/// Under an `EpollWait` of total `w`, each file's cumulative wait grows by at least zero
/// and at most `w`; a file that is not registered does not grow.
pub proof fn lemma_wait_delta_bounds(es: Seq<EntryView>, ep: u128, w: u64, k: int)
    requires
        0 <= k < es.len(),
    ensures
        wait_spec(es, ep, w)[k].stats.accumulated_wait >= es[k].stats.accumulated_wait,
        wait_spec(es, ep, w)[k].stats.accumulated_wait <= es[k].stats.accumulated_wait + w,
        es[k].active is None ==> wait_spec(es, ep, w)[k].stats == es[k].stats,
{
}

proof fn lemma_wait_spec_drop_last(es: Seq<EntryView>, ep: u128, w: u64)
    requires
        es.len() > 0,
    ensures
        wait_spec(es, ep, w).drop_last() == wait_spec(es.drop_last(), ep, w),
        wait_spec(es, ep, w).last() == wait_entry(es.last(), ep, w),
{
    assert(wait_spec(es, ep, w).drop_last() =~= wait_spec(es.drop_last(), ep, w));
}

/// With at most one file registered, the cumulative waits of all files grow under an
/// `EpollWait` of total `w` by at least zero and at most `w` plus the add-time
/// contributions of the registered files.
pub proof fn lemma_wait_total_bounded(es: Seq<EntryView>, ep: u128, w: u64)
    requires
        count_active(es) <= 1,
    ensures
        total_acc(wait_spec(es, ep, w)) >= total_acc(es),
        total_acc(wait_spec(es, ep, w)) - total_acc(es) <= w + active_contribs(es),
    decreases es.len(),
{
    if es.len() > 0 {
        lemma_count_active_nonneg(es.drop_last());
        lemma_wait_spec_drop_last(es, ep, w);
        lemma_wait_total_bounded(es.drop_last(), ep, w);
        let e = es.last();
        if e.active is Some {
            lemma_inactive_unchanged(es.drop_last(), ep, w);
        }
        lemma_contribs_nonneg(es.drop_last());
    }
}

/// Sum over the registered files of the part of `w` beyond their add-time contribution.
pub open spec fn active_shares(es: Seq<EntryView>, w: u64) -> int
    decreases es.len(),
{
    if es.len() == 0 {
        0
    } else {
        active_shares(es.drop_last(), w) + match es.last().active {
            Some(a) => wait_delta(w, a),
            None => 0,
        }
    }
}

/// Under an `EpollWait` of total `w`, the cumulative waits of all files grow by at least
/// zero and at most the sum, over the registered files, of the part of `w` beyond each
/// one's add-time contribution.
pub proof fn lemma_wait_total_shares(es: Seq<EntryView>, ep: u128, w: u64)
    ensures
        total_acc(wait_spec(es, ep, w)) >= total_acc(es),
        total_acc(wait_spec(es, ep, w)) - total_acc(es) <= active_shares(es, w),
    decreases es.len(),
{
    if es.len() > 0 {
        lemma_wait_spec_drop_last(es, ep, w);
        lemma_wait_total_shares(es.drop_last(), ep, w);
    }
}

proof fn lemma_count_active_nonneg(es: Seq<EntryView>)
    ensures
        count_active(es) >= 0,
    decreases es.len(),
{
    if es.len() > 0 {
        lemma_count_active_nonneg(es.drop_last());
    }
}

proof fn lemma_contribs_nonneg(es: Seq<EntryView>)
    ensures
        active_contribs(es) >= 0,
    decreases es.len(),
{
    if es.len() > 0 {
        lemma_contribs_nonneg(es.drop_last());
    }
}

/// With no file registered, an `EpollWait` changes no cumulative wait.
proof fn lemma_inactive_unchanged(es: Seq<EntryView>, ep: u128, w: u64)
    requires
        count_active(es) == 0,
    ensures
        total_acc(wait_spec(es, ep, w)) == total_acc(es),
    decreases es.len(),
{
    if es.len() > 0 {
        lemma_count_active_nonneg(es.drop_last());
        lemma_wait_spec_drop_last(es, ep, w);
        lemma_inactive_unchanged(es.drop_last(), ep, w);
    }
}

/// Number of leading snapshots whose instant is fixed.
pub open spec fn fixed_prefix(s: Seq<Snapshot>, i: int) -> int
    decreases s.len() - i,
{
    if i < 0 || i >= s.len() || s[i].0 is None {
        if i < 0 { 0 } else { i }
    } else {
        fixed_prefix(s, i + 1)
    }
}

/// The snapshots a store takes from one entry, paired with the entry's target.
pub open spec fn entry_drained(e: EntryView) -> Seq<(TargetView, Snapshot)> {
    Seq::new(fixed_prefix(e.snapshots, 0) as nat, |i: int| (e.target, e.snapshots[i]))
}

/// The snapshots a store takes, entry by entry, oldest first.
pub open spec fn drained(es: Seq<EntryView>) -> Seq<(TargetView, Snapshot)>
    decreases es.len(),
{
    if es.len() == 0 {
        Seq::empty()
    } else {
        drained(es.drop_last()) + entry_drained(es.last())
    }
}

/// An entry once its fixed snapshots have been taken.
pub open spec fn entry_after_drain(e: EntryView) -> EntryView {
    EntryView { snapshots: e.snapshots.subrange(fixed_prefix(e.snapshots, 0), e.snapshots.len() as int), ..e }
}

proof fn lemma_fixed_prefix_bounds(s: Seq<Snapshot>, i: int)
    requires
        0 <= i <= s.len(),
    ensures
        i <= fixed_prefix(s, i) <= s.len(),
        forall|k: int| i <= k < fixed_prefix(s, i) ==> (#[trigger] s[k]).0 is Some,
    decreases s.len() - i,
{
    if i < s.len() && s[i].0 is Some {
        lemma_fixed_prefix_bounds(s, i + 1);
    }
}

impl Attribution {
    /// Takes from every file the snapshots before its first tentative one, file by file and
    /// oldest first, each with a copy of its file.
    pub fn drain_fixed(&mut self) -> (r: Vec<(TargetFile, Snapshot)>)
        requires
            all_wf(old(self)@),
        ensures
            Seq::new(r@.len(), |i: int| (target_view(r@[i].0), r@[i].1)) == drained(old(self)@),
            final(self)@ == Seq::new(old(self)@.len(), |i: int| entry_after_drain(old(self)@[i])),
            all_wf(final(self)@),
    {
        let ghost es = self@;
        let mut out: Vec<(TargetFile, Snapshot)> = Vec::new();
        let mut old_entries: Vec<TargetEntry> = Vec::new();
        std::mem::swap(&mut old_entries, &mut self.entries);
        let ghost all = old_entries@;
        let n = old_entries.len();
        let mut k: usize = 0;
        assert(es.subrange(0, 0) =~= Seq::<EntryView>::empty());
        while old_entries.len() > 0
            invariant
                n == all.len(),
                es == entries_view(all),
                es == old(self)@,
                all_wf(es),
                0 <= k <= n,
                old_entries@ == all.subrange(k as int, n as int),
                old_entries@.len() == n - k,
                Seq::new(out@.len(), |i: int| (target_view(out@[i].0), out@[i].1)) == drained(es.subrange(0, k as int)),
                self.entries@.len() == k,
                forall|j: int| 0 <= j < k ==> entry_view(#[trigger] self.entries@[j]) == entry_after_drain(es[j]),
            decreases old_entries@.len(),
        {
            assert(k < n);
            let e = old_entries.remove(0);
            let ghost ev = es[k as int];
            assert(entry_view(e) == ev);
            proof {
                lemma_fixed_prefix_bounds(ev.snapshots, 0);
            }
            let ghost before_out = Seq::new(out@.len(), |i: int| (target_view(out@[i].0), out@[i].1));
            let mut j: usize = 0;
            while j < e.snapshots.len() && e.snapshots[j].0.is_some()
                invariant
                    0 <= j <= e.snapshots@.len(),
                    ev == entry_view(e),
                    fixed_prefix(ev.snapshots, 0) == fixed_prefix(ev.snapshots, j as int),
                    Seq::new(out@.len(), |i: int| (target_view(out@[i].0), out@[i].1)) == before_out + entry_drained(ev).subrange(0, j as int),
                    j <= fixed_prefix(ev.snapshots, 0),
                decreases e.snapshots@.len() - j,
            {
                proof {
                    lemma_fixed_prefix_bounds(ev.snapshots, j + 1);
                }
                assert(fixed_prefix(ev.snapshots, j as int) == fixed_prefix(ev.snapshots, j + 1));
                let t = copy_target(&e.target);
                let ghost before_push = Seq::new(out@.len(), |i: int| (target_view(out@[i].0), out@[i].1));
                out.push((t, e.snapshots[j]));
                assert(entry_drained(ev)[j as int] == (target_view(t), e.snapshots@[j as int]));
                assert(Seq::new(out@.len(), |i: int| (target_view(out@[i].0), out@[i].1)) =~= before_push.push((target_view(t), e.snapshots@[j as int])));
                j = j + 1;
                assert(Seq::new(out@.len(), |i: int| (target_view(out@[i].0), out@[i].1)) =~= before_out + entry_drained(ev).subrange(0, j as int));
            }
            assert(fixed_prefix(ev.snapshots, j as int) == j);
            assert(entry_drained(ev).subrange(0, j as int) =~= entry_drained(ev));
            assert(es.subrange(0, k + 1).drop_last() =~= es.subrange(0, k as int));
            assert(es.subrange(0, k + 1).last() == ev);
            let mut rest: Vec<Snapshot> = Vec::new();
            let mut m: usize = j;
            while m < e.snapshots.len()
                invariant
                    j <= m <= e.snapshots@.len(),
                    rest@ == e.snapshots@.subrange(j as int, m as int),
                decreases e.snapshots@.len() - m,
            {
                rest.push(e.snapshots[m]);
                m = m + 1;
                assert(rest@ =~= e.snapshots@.subrange(j as int, m as int));
            }
            let kept = TargetEntry { target: e.target, active: e.active, stats: e.stats, snapshots: rest };
            assert(entry_view(kept) == entry_after_drain(ev));
            self.entries.push(kept);
            k = k + 1;
            assert(old_entries@ =~= all.subrange(k as int, n as int));
        }
        assert(es.subrange(0, n as int) =~= es);
        assert(self@ =~= Seq::new(es.len(), |i: int| entry_after_drain(es[i])));
        assert forall|i: int| 0 <= i < self@.len() implies entry_wf(#[trigger] self@[i]) by {
            let ev = es[i];
            assert(entry_wf(ev));
            lemma_fixed_prefix_bounds(ev.snapshots, 0);
            let p = fixed_prefix(ev.snapshots, 0);
            let s2 = ev.snapshots.subrange(p, ev.snapshots.len() as int);
            assert forall|a: int, b: int| 0 <= a < b < s2.len() implies s2[a].1.accumulated_wait <= s2[b].1.accumulated_wait by {
                assert(s2[a] == ev.snapshots[a + p] && s2[b] == ev.snapshots[b + p]);
            }
            assert forall|a: int, b: int| 0 <= a < b < s2.len() && s2[a].0 is Some && s2[b].0 is Some implies s2[a].0.unwrap() < s2[b].0.unwrap() by {
                assert(s2[a] == ev.snapshots[a + p] && s2[b] == ev.snapshots[b + p]);
            }
            assert forall|a: int| 0 <= a < s2.len() - 1 implies (#[trigger] s2[a]).0 is Some by {
                assert(s2[a] == ev.snapshots[a + p]);
            }
            assert forall|a: int| 0 <= a < s2.len() implies (#[trigger] s2[a]).1.accumulated_wait <= ev.stats.accumulated_wait by {
                assert(s2[a] == ev.snapshots[a + p]);
            }
        }
        out
    }
}

/// The outcome of an `EpollWait` of total `w` at `ep`: applied when `ep` is later than every
/// file's fixed snapshots, refused otherwise.
pub open spec fn wait_result(es: Seq<EntryView>, ep: u128, w: u64) -> (Result<(), AttributionError>, Seq<EntryView>) {
    if forall|i: int| 0 <= i < es.len() ==> after_newest(#[trigger] es[i].snapshots, ep) {
        (Ok(()), wait_spec(es, ep, w))
    } else {
        (Err(AttributionError::InstantWentBack), es)
    }
}

/// The outcome of an inode wait of `total` at `ep` with count `count` on file `t`.
pub open spec fn inode_wait_result(es: Seq<EntryView>, t: TargetView, ep: u128, total: u64, count: u64) -> (Result<(), AttributionError>, Seq<EntryView>) {
    let es1 = ensure_entry(es, t);
    let i = find_target(es1, t);
    let st = Stats { accumulated_wait: sat_add(es1[i].stats.accumulated_wait, total as int), count };
    if after_newest(es1[i].snapshots, ep) {
        (Ok(()), es1.update(i, EntryView { stats: st, snapshots: push_fixed(es1[i].snapshots, ep, st), ..es1[i] }))
    } else {
        (Err(AttributionError::InstantWentBack), es1)
    }
}

fn copy_snapshots(v: &Vec<Snapshot>) -> (r: Vec<Snapshot>)
    ensures
        r@ == v@,
{
    let mut out: Vec<Snapshot> = Vec::new();
    let mut i: usize = 0;
    while i < v.len()
        invariant
            0 <= i <= v@.len(),
            out@ == v@.subrange(0, i as int),
        decreases v@.len() - i,
    {
        out.push(v[i]);
        i = i + 1;
        assert(out@ =~= v@.subrange(0, i as int));
    }
    assert(v@.subrange(0, i as int) =~= v@);
    out
}

} // verus!
