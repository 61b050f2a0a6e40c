//! Per-thread, per-device iowait accumulator: sectors per second (the first observation of
//! a second stands), written as one row per second into per-minute files.
use vstd::prelude::*;

use crate::iowait::IowaitEvent;
use crate::ipc_stats::{action_view, actions_view, ActionView, SinkAction};
use crate::pieces::{comma, csv_ext, iowait_header, newline, push_comma, push_csv_ext, push_iowait_header, push_newline, push_slash, slash};
use crate::render::{append, dec_text, render_dec};
use crate::sink::CsvRecord;

verus! {

/// Seconds strictly increase along the sequence.
pub open spec fn sorted_seconds(s: Seq<(u64, u64)>) -> bool {
    forall|i: int, j: int| 0 <= i < j < s.len() ==> (#[trigger] s[i]).0 < (#[trigger] s[j]).0
}

pub open spec fn has_second(s: Seq<(u64, u64)>, sec: u64) -> bool {
    exists|i: int| 0 <= i < s.len() && (#[trigger] s[i]).0 == sec
}

/// An append of one iowait row.
pub open spec fn is_iowait_row(a: ActionView) -> bool {
    match a {
        ActionView::Append(_, h, _) => h == iowait_header(),
        _ => false,
    }
}

/// Sectors per second of one thread on one device.
pub struct DeviceSeconds {
    pub device: u32,
    pub seconds: Vec<(u64, u64)>,
}

impl View for DeviceSeconds {
    type V = Seq<(u64, u64)>;

    closed spec fn view(&self) -> Seq<(u64, u64)> {
        self.seconds@
    }
}

impl DeviceSeconds {
    pub fn new(device: u32) -> (r: Self)
        ensures
            r@ == Seq::<(u64, u64)>::empty(),
            r.device == device,
    {
        DeviceSeconds { device, seconds: Vec::new() }
    }

    /// Takes every recorded second, in increasing order, as a row of the minute file under
    /// `prefix` (`<root>/global/iowait/<pid>/<tid>`).
    pub fn take_rows(&mut self, prefix: &Vec<u8>) -> (r: Vec<SinkAction>)
        requires
            sorted_seconds(old(self)@),
        ensures
            final(self)@ == Seq::<(u64, u64)>::empty(),
            final(self).device == old(self).device,
            actions_view(r@) == Seq::new(old(self)@.len(), |i: int| second_row(prefix@, old(self).device, old(self)@[i])),
    {
        let mut out: Vec<SinkAction> = Vec::new();
        let mut si: usize = 0;
        while si < self.seconds.len()
            invariant
                0 <= si <= self.seconds@.len(),
                self.seconds@ == old(self)@,
                self.device == old(self).device,
                actions_view(out@) == Seq::new(si as nat, |i: int| second_row(prefix@, self.device, self.seconds@[i])),
            decreases self.seconds@.len() - si,
        {
            let (sec, n) = self.seconds[si];
            let mut path: Vec<u8> = Vec::new();
            append(&mut path, prefix.as_slice());
            push_slash(&mut path);
            append(&mut path, render_dec(((sec / 60) as u128) * 60).as_slice());
            push_slash(&mut path);
            append(&mut path, render_dec(self.device as u128).as_slice());
            push_csv_ext(&mut path);
            let mut header: Vec<u8> = Vec::new();
            push_iowait_header(&mut header);
            let mut row = render_dec(sec as u128);
            push_comma(&mut row);
            append(&mut row, render_dec(n as u128).as_slice());
            push_newline(&mut row);
            let ghost prev = actions_view(out@);
            let a = SinkAction::Append(CsvRecord { path, header, row });
            assert(action_view(a) == second_row(prefix@, self.device, (sec, n)));
            assert(self.seconds@[si as int] == (sec, n));
            let ghost av = action_view(a);
            out.push(a);
            assert(actions_view(out@) =~= prev.push(av));
            si = si + 1;
            assert(actions_view(out@) =~= Seq::new(si as nat, |i: int| second_row(prefix@, self.device, self.seconds@[i])));
        }
        self.seconds = Vec::new();
        assert(self.seconds@ =~= Seq::<(u64, u64)>::empty());
        out
    }

    /// Records `n` sectors at second `sec` unless that second already has a count.
    pub fn insert_entry(&mut self, sec: u64, n: u64)
        requires
            sorted_seconds(old(self)@),
        ensures
            sorted_seconds(final(self)@),
            final(self).device == old(self).device,
            has_second(old(self)@, sec) ==> final(self)@ == old(self)@,
            !has_second(old(self)@, sec) ==> forall|x: (u64, u64)| final(self)@.contains(x) <==> (old(self)@.contains(x) || x == (sec, n)),
    {
        let mut i: usize = 0;
        while i < self.seconds.len() && self.seconds[i].0 < sec
            invariant
                0 <= i <= self.seconds@.len(),
                self@ == old(self)@,
                forall|k: int| 0 <= k < i ==> (#[trigger] self@[k]).0 < sec,
            decreases self.seconds@.len() - i,
        {
            i = i + 1;
        }
        if i < self.seconds.len() && self.seconds[i].0 == sec {
            return;
        }
        assert(!has_second(old(self)@, sec)) by {
            if has_second(old(self)@, sec) {
                let k = choose|k: int| 0 <= k < old(self)@.len() && (#[trigger] old(self)@[k]).0 == sec;
                if k >= i {
                    assert(old(self)@[i as int].0 <= old(self)@[k].0);
                }
            }
        }
        let ghost before = self@;
        assert(before == old(self)@);
        self.seconds.insert(i, (sec, n));
        assert(self@ =~= before.insert(i as int, (sec, n)));
        assert forall|x: (u64, u64)| self@.contains(x) <==> (before.contains(x) || x == (sec, n)) by {
            if self@.contains(x) {
                let k = choose|k: int| 0 <= k < self@.len() && self@[k] == x;
                if k < i {
                    assert(before[k] == x);
                } else if k > i {
                    assert(before[k - 1] == x);
                }
            }
            if before.contains(x) {
                let k = choose|k: int| 0 <= k < before.len() && before[k] == x;
                if k < i {
                    assert(self@[k] == x);
                } else {
                    assert(self@[k + 1] == x);
                }
            }
            if x == (sec, n) {
                assert(self@[i as int] == x);
            }
        }
        assert forall|x: (u64, u64)| self@.contains(x) <==> (old(self)@.contains(x) || x == (sec, n)) by {}
    }
}

/// The row of one recorded second: `<prefix>/<minute start>/<device>.csv` gets
/// `<second>,<sectors>`.
pub open spec fn second_row(prefix: Seq<u8>, device: u32, e: (u64, u64)) -> ActionView {
    ActionView::Append(
        prefix + slash() + dec_text(((e.0 / 60) * 60) as nat) + slash() + dec_text(device as nat) + csv_ext(),
        iowait_header(),
        dec_text(e.0 as nat) + comma() + dec_text(e.1 as nat) + newline(),
    )
}

/// The epoch second of a tracer instant.
pub open spec fn epoch_second(boot_epoch_ns: u64, t: u64) -> u64 {
    ((boot_epoch_ns + t) / 1_000_000_000) as u64
}

/// The iowait accumulators of one thread.
pub struct ThreadIo {
    pub tid: u64,
    pub pid: u64,
    pub devices: Vec<DeviceSeconds>,
}

/// One device of a thread as plain values: (device, seconds with their sector counts).
pub type DevView = (u32, Seq<(u64, u64)>);

/// One thread as plain values: (tid, pid, devices).
pub type ThreadView = (u64, u64, Seq<DevView>);

pub open spec fn dev_view(d: DeviceSeconds) -> DevView {
    (d.device, d.seconds@)
}

pub open spec fn thread_view(t: ThreadIo) -> ThreadView {
    (t.tid, t.pid, t.devices@.map_values(|d: DeviceSeconds| dev_view(d)))
}

pub open spec fn io_view(v: Seq<ThreadIo>) -> Seq<ThreadView> {
    v.map_values(|t: ThreadIo| thread_view(t))
}

pub open spec fn find_thread(v: Seq<ThreadView>, tid: u64, i: int) -> int
    decreases v.len() - i,
{
    if i < 0 || i >= v.len() {
        -1
    } else if v[i].0 == tid {
        i
    } else {
        find_thread(v, tid, i + 1)
    }
}

pub open spec fn find_device(v: Seq<DevView>, device: u32, i: int) -> int
    decreases v.len() - i,
{
    if i < 0 || i >= v.len() {
        -1
    } else if v[i].0 == device {
        i
    } else {
        find_device(v, device, i + 1)
    }
}

/// Second `s` gets count `c` unless it already has one; the seconds stay in increasing
/// order.
pub open spec fn device_insert_ok(old: Seq<(u64, u64)>, new: Seq<(u64, u64)>, s: u64, c: u64) -> bool {
    &&& sorted_seconds(new)
    &&& has_second(old, s) ==> new == old
    &&& !has_second(old, s) ==> forall|x: (u64, u64)| new.contains(x) <==> (old.contains(x) || x == (s, c))
}

/// How one request changes the accumulator: none of zero sectors; otherwise the first
/// observation of its second stands on the thread's device (both created at the end when
/// new), and nothing else changes.
pub open spec fn io_step_ok(old: Seq<ThreadView>, new: Seq<ThreadView>, e: IowaitEvent, boot_epoch_ns: u64) -> bool {
    match e {
    IowaitEvent::Requests { ns_since_boot, device, tid, pid, sector_cnt, .. } => if sector_cnt == 0 {
        new == old
    } else {
        let ti = find_thread(old, tid, 0);
        let t_old: ThreadView = if ti >= 0 { old[ti] } else { (tid, pid, Seq::empty()) };
        let ti2 = if ti >= 0 { ti } else { old.len() as int };
        let di = find_device(t_old.2, device, 0);
        let d_old: Seq<(u64, u64)> = if di >= 0 { t_old.2[di].1 } else { Seq::empty() };
        let di2 = if di >= 0 { di } else { t_old.2.len() as int };
        &&& new.len() == if ti >= 0 { old.len() as int } else { old.len() + 1int }
        &&& forall|k: int| 0 <= k < new.len() && k != ti2 ==> new[k] == old[k]
        &&& new[ti2].0 == t_old.0 && new[ti2].1 == t_old.1
        &&& new[ti2].2.len() == if di >= 0 { t_old.2.len() as int } else { t_old.2.len() + 1int }
        &&& forall|j: int| 0 <= j < new[ti2].2.len() && j != di2 ==> new[ti2].2[j] == t_old.2[j]
        &&& new[ti2].2[di2].0 == device
        &&& device_insert_ok(d_old, new[ti2].2[di2].1, epoch_second(boot_epoch_ns, ns_since_boot), sector_cnt)
    },
    }
}

/// No thread has two entries.
pub open spec fn io_unique(v: Seq<ThreadView>) -> bool {
    forall|a: int, b: int| 0 <= a < b < v.len() ==> (#[trigger] v[a]).0 != (#[trigger] v[b]).0
}

proof fn lemma_thread_absent(v: Seq<ThreadView>, tid: u64, i: int)
    requires
        0 <= i,
        find_thread(v, tid, i) < 0,
    ensures
        forall|m: int| i <= m < v.len() ==> v[m].0 != tid,
    decreases v.len() - i,
{
    if i < v.len() {
        lemma_thread_absent(v, tid, i + 1);
    }
}

proof fn lemma_thread_found(v: Seq<ThreadView>, tid: u64, i: int)
    requires
        0 <= i,
    ensures
        find_thread(v, tid, i) >= 0 ==> find_thread(v, tid, i) < v.len() && v[find_thread(v, tid, i)].0 == tid,
    decreases v.len() - i,
{
    if i < v.len() && v[i].0 != tid {
        lemma_thread_found(v, tid, i + 1);
    }
}

/// A request keeps threads and devices unique.
pub proof fn lemma_io_step_unique(old: Seq<ThreadView>, new: Seq<ThreadView>, e: IowaitEvent, boot_epoch_ns: u64)
    requires
        io_unique(old),
        io_step_ok(old, new, e, boot_epoch_ns),
    ensures
        io_unique(new),
{
    let (tid, pid, sector_cnt) = match e {
        IowaitEvent::Requests { tid, pid, sector_cnt, .. } => (tid, pid, sector_cnt),
    };
    if sector_cnt != 0 {
        let ti = find_thread(old, tid, 0);
        if ti < 0 {
            lemma_thread_absent(old, tid, 0);
        }
        lemma_thread_found(old, tid, 0);
        let ti2 = if ti >= 0 { ti } else { old.len() as int };
        assert forall|a: int, b: int| 0 <= a < b < new.len() implies (#[trigger] new[a]).0 != (#[trigger] new[b]).0 by {
            if a != ti2 && b != ti2 {
                assert(new[a] == old[a] && new[b] == old[b]);
            } else if a == ti2 {
                assert(new[b] == old[b]);
            } else {
                assert(new[a] == old[a]);
            }
        }
    }
}

/// The requests applied in order through the views `c`.
pub open spec fn io_run_ok(c: Seq<Seq<ThreadView>>, evs: Seq<IowaitEvent>, boot_epoch_ns: u64) -> bool {
    &&& c.len() == evs.len() + 1
    &&& forall|i: int| 0 <= i < evs.len() ==> io_step_ok(c[i], c[i + 1], #[trigger] evs[i], boot_epoch_ns)
}

/// The accumulator went from `before` to `after` through the views `c`, one request of
/// `evs` at a time.
pub open spec fn io_sampled(c: Seq<Seq<ThreadView>>, before: Seq<ThreadView>, after: Seq<ThreadView>, evs: Seq<IowaitEvent>, boot_epoch_ns: u64) -> bool {
    io_run_ok(c, evs, boot_epoch_ns) && c[0] == before && c[evs.len() as int] == after
}

/// The rows of one device of a thread, seconds in increasing order.
pub open spec fn device_rows(dir: Seq<u8>, t: ThreadView, d: DevView) -> Seq<ActionView> {
    Seq::new(d.1.len(), |i: int| second_row(thread_prefix(dir, t), d.0, d.1[i]))
}

/// `<dir>/<pid>/<tid>`.
pub open spec fn thread_prefix(dir: Seq<u8>, t: ThreadView) -> Seq<u8> {
    dir + slash() + dec_text(t.1 as nat) + slash() + dec_text(t.0 as nat)
}

pub open spec fn devices_rows(dir: Seq<u8>, t: ThreadView, ds: Seq<DevView>) -> Seq<ActionView>
    decreases ds.len(),
{
    if ds.len() == 0 {
        Seq::empty()
    } else {
        devices_rows(dir, t, ds.drop_last()) + device_rows(dir, t, ds.last())
    }
}

/// The rows of every thread, device and second, in that order.
pub open spec fn io_rows(dir: Seq<u8>, v: Seq<ThreadView>) -> Seq<ActionView>
    decreases v.len(),
{
    if v.len() == 0 {
        Seq::empty()
    } else {
        io_rows(dir, v.drop_last()) + devices_rows(dir, v.last(), v.last().2)
    }
}

/// The accumulator with every second taken.
pub open spec fn io_emptied(v: Seq<ThreadView>) -> Seq<ThreadView> {
    Seq::new(v.len(), |i: int| (v[i].0, v[i].1, Seq::new(v[i].2.len(), |j: int| (v[i].2[j].0, Seq::<(u64, u64)>::empty()))))
}

/// The system-wide iowait accumulator: one entry per thread, files under
/// `<root>/global/iowait/<pid>/<tid>/<minute>/<device>.csv`.
pub struct IOWait {
    pub threads: Vec<ThreadIo>,
    pub dir: Vec<u8>,
}

impl IOWait {
    pub open spec fn wf(&self) -> bool {
        forall|i: int, j: int| 0 <= i < self.threads@.len() && 0 <= j < self.threads@[i].devices@.len()
            ==> sorted_seconds(#[trigger] self.threads@[i].devices@[j]@)
    }

    /// No thread yet.
    pub fn new(root_directory: &[u8]) -> (r: Self)
        ensures
            r.wf(),
            r.threads@.len() == 0,
            io_unique(io_view(r.threads@)),
    {
        let mut dir: Vec<u8> = Vec::new();
        append(&mut dir, root_directory);
        append(&mut dir, &[47u8, 103, 108, 111, 98, 97, 108, 47, 105, 111, 119, 97, 105, 116]);
        IOWait { threads: Vec::new(), dir }
    }

    /// Records one frame's sectors of a thread on a device at the frame's second; a request
    /// of zero sectors is dropped, and the first count of a second stands.
    pub fn process_event(&mut self, event: IowaitEvent, boot_epoch_ns: u64)
        requires
            old(self).wf(),
        ensures
            final(self).wf(),
            final(self).dir == old(self).dir,
            io_step_ok(io_view(old(self).threads@), io_view(final(self).threads@), event, boot_epoch_ns),
            io_unique(io_view(old(self).threads@)) ==> io_unique(io_view(final(self).threads@)),
    {
        let ghost ov = io_view(self.threads@);
        let IowaitEvent::Requests { ns_since_boot, device, tid, pid, sector_cnt, .. } = event;
        if sector_cnt == 0 {
            return;
        }
        let sec = ((boot_epoch_ns as u128 + ns_since_boot as u128) / 1_000_000_000) as u64;
        let mut ti: usize = 0;
        while ti < self.threads.len() && self.threads[ti].tid != tid
            invariant
                0 <= ti <= self.threads@.len(),
                self.wf(),
                self.dir == old(self).dir,
                self.threads@ == old(self).threads@,
                ov == io_view(self.threads@),
                find_thread(ov, tid, 0) == find_thread(ov, tid, ti as int),
            decreases self.threads@.len() - ti,
        {
            assert(ov[ti as int] == thread_view(self.threads@[ti as int]));
            ti = ti + 1;
        }
        let found_t = ti < self.threads.len();
        if found_t {
            assert(ov[ti as int] == thread_view(self.threads@[ti as int]));
        }
        assert(found_t == (find_thread(ov, tid, 0) >= 0));
        if !found_t {
            self.threads.push(ThreadIo { tid, pid, devices: Vec::new() });
            assert forall|i: int, j: int| 0 <= i < self.threads@.len() && 0 <= j < self.threads@[i].devices@.len()
                implies sorted_seconds(#[trigger] self.threads@[i].devices@[j]@) by {
                assert(i < self.threads@.len() - 1);
            }
        }
        let ghost tb = self.threads@;
        let mut th = self.threads.remove(ti);
        let ghost t_old = thread_view(th);
        assert(found_t ==> t_old == ov[ti as int]);
        assert(!found_t ==> t_old.2 =~= Seq::<DevView>::empty());
        let mut di: usize = 0;
        while di < th.devices.len() && th.devices[di].device != device
            invariant
                0 <= di <= th.devices@.len(),
                t_old == thread_view(th),
                forall|j: int| 0 <= j < th.devices@.len() ==> sorted_seconds(#[trigger] th.devices@[j]@),
                find_device(t_old.2, device, 0) == find_device(t_old.2, device, di as int),
            decreases th.devices@.len() - di,
        {
            assert(t_old.2[di as int] == dev_view(th.devices@[di as int]));
            di = di + 1;
        }
        let found_d = di < th.devices.len();
        if found_d {
            assert(t_old.2[di as int] == dev_view(th.devices@[di as int]));
        }
        assert(found_d == (find_device(t_old.2, device, 0) >= 0));
        if !found_d {
            th.devices.push(DeviceSeconds::new(device));
        }
        assert(th.tid == tid);
        assert(th.devices@[di as int].device == device);
        let ghost td = th.devices@;
        assert(forall|j: int| 0 <= j < td.len() ==> sorted_seconds(#[trigger] td[j]@));
        let mut d = th.devices.remove(di);
        let ghost before_d = d@;
        assert(found_d ==> before_d == t_old.2[di as int].1);
        assert(!found_d ==> before_d =~= Seq::<(u64, u64)>::empty());
        d.insert_entry(sec, sector_cnt);
        let ghost dv = d;
        th.devices.insert(di, d);
        assert(th.devices@ =~= td.update(di as int, dv));
        let ghost thv = th;
        self.threads.insert(ti, th);
        assert(self.threads@ =~= tb.update(ti as int, thv));
        assert(sec == epoch_second(boot_epoch_ns, ns_since_boot));
        assert forall|j: int| 0 <= j < thv.devices@.len() implies sorted_seconds(#[trigger] thv.devices@[j]@) by {
            if j != di {
                assert(thv.devices@[j] == td[j]);
            }
        }
        assert forall|i: int, j: int| 0 <= i < self.threads@.len() && 0 <= j < self.threads@[i].devices@.len()
            implies sorted_seconds(#[trigger] self.threads@[i].devices@[j]@) by {
            if i != ti {
                assert(self.threads@[i] == tb[i]);
                assert(sorted_seconds(tb[i].devices@[j]@));
            } else {
                assert(self.threads@[i] == thv);
                assert(sorted_seconds(thv.devices@[j]@));
            }
        }
        let ghost nv = io_view(self.threads@);
        assert(nv =~= io_view(tb).update(ti as int, thread_view(thv)));
        assert(thread_view(thv).2 =~= td.map_values(|x: DeviceSeconds| dev_view(x)).update(di as int, dev_view(dv)));
        assert(forall|k: int| 0 <= k < ov.len() ==> io_view(tb)[k] == ov[k]);
        assert(forall|j: int| 0 <= j < t_old.2.len() ==> td.map_values(|x: DeviceSeconds| dev_view(x))[j] == t_old.2[j]);
        assert(!found_t ==> io_view(tb).len() == ov.len() + 1);
        assert(!found_d ==> td.len() == t_old.2.len() + 1);
        proof {
            if io_unique(ov) {
                lemma_io_step_unique(ov, io_view(self.threads@), event, boot_epoch_ns);
            }
        }
    }

    /// Records every event of a frame, in order.
    pub fn sample(&mut self, events: Vec<IowaitEvent>, boot_epoch_ns: u64)
        requires
            old(self).wf(),
        ensures
            final(self).wf(),
            final(self).dir == old(self).dir,
            exists|c: Seq<Seq<ThreadView>>| #[trigger] io_sampled(c, io_view(old(self).threads@), io_view(final(self).threads@), events@, boot_epoch_ns),
            io_unique(io_view(old(self).threads@)) ==> io_unique(io_view(final(self).threads@)),
    {
        let ghost mut c: Seq<Seq<ThreadView>> = seq![io_view(self.threads@)];
        let mut i: usize = 0;
        while i < events.len()
            invariant
                0 <= i <= events@.len(),
                self.wf(),
                self.dir == old(self).dir,
                c.len() == i + 1,
                c[0] == io_view(old(self).threads@),
                c[i as int] == io_view(self.threads@),
                forall|k: int| 0 <= k < i ==> io_step_ok(c[k], c[k + 1], #[trigger] events@[k], boot_epoch_ns),
                io_unique(io_view(old(self).threads@)) ==> io_unique(io_view(self.threads@)),
            decreases events@.len() - i,
        {
            self.process_event(events[i], boot_epoch_ns);
            proof {
                let c2 = c.push(io_view(self.threads@));
                assert forall|k: int| 0 <= k < i + 1 implies io_step_ok(c2[k], c2[k + 1], #[trigger] events@[k], boot_epoch_ns) by {
                    assert(c2[k] == c[k] || k == i);
                    if k < i {
                        assert(c2[k + 1] == c[k + 1]);
                    }
                }
                c = c2;
            }
            i = i + 1;
        }
        assert(io_sampled(c, io_view(old(self).threads@), io_view(self.threads@), events@, boot_epoch_ns));
    }

    /// Takes every recorded second as a row of its minute file, thread by thread, device by
    /// device, seconds in increasing order; the accumulator keeps its threads and devices
    /// with no seconds left.
    pub fn store(&mut self) -> (r: Vec<SinkAction>)
        requires
            old(self).wf(),
        ensures
            final(self).wf(),
            final(self).dir == old(self).dir,
            actions_view(r@) == io_rows(old(self).dir@, io_view(old(self).threads@)),
            io_view(final(self).threads@) == io_emptied(io_view(old(self).threads@)),
            io_unique(io_view(old(self).threads@)) ==> io_unique(io_view(final(self).threads@)),
            forall|k: int| 0 <= k < r@.len() ==> is_iowait_row(#[trigger] action_view(r@[k])),
    {
        let ghost ov = io_view(self.threads@);
        let mut all: Vec<ThreadIo> = Vec::new();
        std::mem::swap(&mut all, &mut self.threads);
        let ghost orig = all@;
        let n = all.len();
        let mut out: Vec<SinkAction> = Vec::new();
        let mut i: usize = 0;
        assert(ov.subrange(0, 0) =~= Seq::<ThreadView>::empty());
        assert(actions_view(out@) =~= Seq::<ActionView>::empty());
        while all.len() > 0
            invariant
                n == orig.len(),
                ov == io_view(orig),
                orig == old(self).threads@,
                self.dir == old(self).dir,
                forall|k: int, j: int| 0 <= k < orig.len() && 0 <= j < orig[k].devices@.len() ==> sorted_seconds(#[trigger] orig[k].devices@[j]@),
                0 <= i <= n,
                all@ == orig.subrange(i as int, n as int),
                all@.len() == n - i,
                self.threads@.len() == i,
                forall|k: int| 0 <= k < i ==> thread_view(#[trigger] self.threads@[k]) == io_emptied(ov)[k],
                forall|k: int, j: int| 0 <= k < i && 0 <= j < self.threads@[k].devices@.len() ==> sorted_seconds(#[trigger] self.threads@[k].devices@[j]@),
                actions_view(out@) == io_rows(self.dir@, ov.subrange(0, i as int)),
                forall|k: int| 0 <= k < out@.len() ==> is_iowait_row(#[trigger] action_view(out@[k])),
            decreases all@.len(),
        {
            assert(i < n);
            let mut th = all.remove(0);
            assert(th == orig[i as int]);
            let ghost tv = thread_view(th);
            assert(tv == ov[i as int]);
            let mut rows = th.take_rows(&self.dir);
            let ghost prev = actions_view(out@);
            let ghost rv = actions_view(rows@);
            let ghost outv = out@;
            let ghost rowsv = rows@;
            out.append(&mut rows);
            assert(actions_view(out@) =~= prev + rv);
            assert(ov.subrange(0, i + 1).drop_last() =~= ov.subrange(0, i as int));
            assert(ov.subrange(0, i + 1).last() == tv);
            assert forall|k: int| 0 <= k < out@.len() implies is_iowait_row(#[trigger] action_view(out@[k])) by {
                if k >= outv.len() {
                    assert(out@[k] == rowsv[k - outv.len()]);
                    lemma_devices_rows_headers(self.dir@, tv, tv.2, k - outv.len());
                } else {
                    assert(out@[k] == outv[k]);
                }
            }
            let ghost thv = th;
            self.threads.push(th);
            assert(thread_view(self.threads@[i as int]) == thread_view(thv));
            assert(thread_view(thv) =~= io_emptied(ov)[i as int]) by {
                assert(thread_view(thv).2 =~= io_emptied(ov)[i as int].2);
            }
            i = i + 1;
            assert(all@ =~= orig.subrange(i as int, n as int));
        }
        assert(ov.subrange(0, n as int) =~= ov);
        assert(io_view(self.threads@) =~= io_emptied(ov));
        assert(io_unique(ov) ==> io_unique(io_emptied(ov))) by {
            let em = io_emptied(ov);
            if io_unique(ov) {
                assert forall|a: int, b: int| 0 <= a < b < em.len() implies (#[trigger] em[a]).0 != (#[trigger] em[b]).0 by {
                    assert(em[a].0 == ov[a].0 && em[b].0 == ov[b].0);
                }
            }
        }
        out
    }
}

/// Every row of a thread's devices is an iowait row.
proof fn lemma_devices_rows_headers(dir: Seq<u8>, t: ThreadView, ds: Seq<DevView>, k: int)
    requires
        0 <= k < devices_rows(dir, t, ds).len(),
    ensures
        is_iowait_row(devices_rows(dir, t, ds)[k]),
    decreases ds.len(),
{
    if ds.len() > 0 {
        let a = devices_rows(dir, t, ds.drop_last());
        if k < a.len() {
            lemma_devices_rows_headers(dir, t, ds.drop_last(), k);
        } else {
            assert(devices_rows(dir, t, ds)[k] == device_rows(dir, t, ds.last())[k - a.len()]);
        }
    }
}

impl ThreadIo {
    /// Takes the rows of every device, in order, leaving the devices with no seconds.
    pub fn take_rows(&mut self, dir: &Vec<u8>) -> (r: Vec<SinkAction>)
        requires
            forall|j: int| 0 <= j < old(self).devices@.len() ==> sorted_seconds(#[trigger] old(self).devices@[j]@),
        ensures
            actions_view(r@) == devices_rows(dir@, thread_view(*old(self)), thread_view(*old(self)).2),
            thread_view(*final(self)) == (old(self).tid, old(self).pid, Seq::new(old(self).devices@.len(), |j: int| (old(self).devices@[j].device, Seq::<(u64, u64)>::empty()))),
            forall|j: int| 0 <= j < final(self).devices@.len() ==> sorted_seconds(#[trigger] final(self).devices@[j]@),
    {
        let ghost tv = thread_view(*self);
        let mut prefix: Vec<u8> = Vec::new();
        append(&mut prefix, dir.as_slice());
        push_slash(&mut prefix);
        append(&mut prefix, render_dec(self.pid as u128).as_slice());
        push_slash(&mut prefix);
        append(&mut prefix, render_dec(self.tid as u128).as_slice());
        assert(prefix@ =~= thread_prefix(dir@, tv));
        let mut all: Vec<DeviceSeconds> = Vec::new();
        std::mem::swap(&mut all, &mut self.devices);
        let ghost orig = all@;
        let ghost dvs = tv.2;
        let n = all.len();
        let mut out: Vec<SinkAction> = Vec::new();
        let mut i: usize = 0;
        assert(dvs.subrange(0, 0) =~= Seq::<DevView>::empty());
        assert(actions_view(out@) =~= Seq::<ActionView>::empty());
        while all.len() > 0
            invariant
                n == orig.len(),
                dvs == orig.map_values(|d: DeviceSeconds| dev_view(d)),
                tv == thread_view(*old(self)),
                orig == old(self).devices@,
                self.tid == old(self).tid && self.pid == old(self).pid,
                prefix@ == thread_prefix(dir@, tv),
                forall|j: int| 0 <= j < orig.len() ==> sorted_seconds(#[trigger] orig[j]@),
                0 <= i <= n,
                all@ == orig.subrange(i as int, n as int),
                all@.len() == n - i,
                self.devices@.len() == i,
                forall|j: int| 0 <= j < i ==> dev_view(#[trigger] self.devices@[j]) == (orig[j].device, Seq::<(u64, u64)>::empty()),
                actions_view(out@) == devices_rows(dir@, tv, dvs.subrange(0, i as int)),
            decreases all@.len(),
        {
            assert(i < n);
            let mut d = all.remove(0);
            assert(d == orig[i as int]);
            let ghost dv0 = dev_view(d);
            assert(dv0 == dvs[i as int]);
            let mut rows = d.take_rows(&prefix);
            let ghost prev = actions_view(out@);
            let ghost rv = actions_view(rows@);
            out.append(&mut rows);
            assert(actions_view(out@) =~= prev + rv);
            assert(dvs.subrange(0, i + 1).drop_last() =~= dvs.subrange(0, i as int));
            assert(dvs.subrange(0, i + 1).last() == dv0);
            assert(rv =~= device_rows(dir@, tv, dv0));
            let ghost dd = d;
            self.devices.push(d);
            assert(self.devices@[i as int] == dd);
            assert(dd@ =~= Seq::<(u64, u64)>::empty());
            i = i + 1;
            assert(all@ =~= orig.subrange(i as int, n as int));
        }
        assert(dvs.subrange(0, n as int) =~= dvs);
        assert(thread_view(*self).2 =~= Seq::new(orig.len(), |j: int| (orig[j].device, Seq::<(u64, u64)>::empty())));
        out
    }
}

} // verus!
