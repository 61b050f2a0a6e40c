//! The iowait dialect: block requests per thread and device, summarised per frame.
use vstd::prelude::*;

use crate::closure::ReduceError;
use crate::frame::{frame_run, BpfReader, FrameReader, FrameState};
use crate::futex::is_u64;
use crate::lits::{is_completed, is_pending, is_sample_instant, lit_completed, lit_pending, lit_sample_instant};
use crate::text::{dec_value, parse_dec, starts_with, starts_with_spec, views, words, words_spec};
use crate::wire::{fi64, field_i64, field_u32, field_u64, fu32, fu64, list_spec, marker_spec, parse_marker, split_list, split_summary, split_tuple, summary_parts, tuple_spec, Marker};

verus! {

/// Sectors requested by one thread on one device during one frame.
#[derive(Debug, PartialEq, Eq, Clone, Copy)]
pub enum IowaitEvent {
    Requests { ns_since_boot: u64, part0: u32, device: u32, tid: u64, pid: u64, sector_cnt: u64 },
}

/// One line of the iowait tracing script, typed.
#[derive(Debug, PartialEq, Eq, Clone)]
pub enum IowaitBpfEvent {
    NoOp,
    MapStatsStart,
    MapStatsEnd,
    MapCompleted { part0: u32, device: u32, tid: u64, pid: u64, sector_cnt: u64 },
    MapPending {
        ns_since_boot: u64,
        part0: u32,
        device: u32,
        sector: u64,
        sector_cnt: u64,
        is_write: bool,
        op: u8,
        status: u32,
        tid: u64,
        pid: u64,
    },
    SampleInstant { ns_since_boot: u64 },
    Unexpected { data: Vec<u8> },
}

/// Field `i` as a signed 8-bit number.
pub open spec fn fi8(f: Seq<Seq<u8>>, i: int) -> Option<i64> {
    match fi64(f, i) {
        Some(v) => if -128 <= v <= 127 {
            Some(v)
        } else {
            None
        },
        None => None,
    }
}

/// Field `i` as an unsigned 8-bit number.
pub open spec fn fu8(f: Seq<Seq<u8>>, i: int) -> Option<u8> {
    match fu32(f, i) {
        Some(v) => if v <= 255 {
            Some(v as u8)
        } else {
            None
        },
        None => None,
    }
}

/// What a map-summary line of the iowait script denotes (`None`: it is malformed).
pub open spec fn iowait_summary_spec(s: Seq<u8>) -> Option<IowaitBpfEvent> {
    match summary_parts(s) {
        None => None,
        Some((name, key, value)) => {
            let k = list_spec(key);
            if name == lit_completed() {
                if fu32(k, 0) is Some && fu32(k, 1) is Some && fu64(k, 2) is Some && fu64(k, 3) is Some && fu64(seq![value], 0) is Some {
                    Some(IowaitBpfEvent::MapCompleted {
                        part0: fu32(k, 0).unwrap(),
                        device: fu32(k, 1).unwrap(),
                        tid: fu64(k, 2).unwrap(),
                        pid: fu64(k, 3).unwrap(),
                        sector_cnt: fu64(seq![value], 0).unwrap(),
                    })
                } else {
                    None
                }
            } else if name == lit_pending() {
                match tuple_spec(value) {
                    Some(v) => if fu32(k, 0) is Some && fu32(k, 1) is Some && fu64(k, 2) is Some && fi8(k, 3) is Some
                        && fu8(k, 4) is Some && fu32(k, 5) is Some && fu64(v, 0) is Some && fu64(v, 1) is Some
                        && fu64(v, 2) is Some && fu64(v, 3) is Some {
                        Some(IowaitBpfEvent::MapPending {
                            part0: fu32(k, 0).unwrap(),
                            device: fu32(k, 1).unwrap(),
                            sector: fu64(k, 2).unwrap(),
                            is_write: fi8(k, 3).unwrap() > 0,
                            op: fu8(k, 4).unwrap(),
                            status: fu32(k, 5).unwrap(),
                            ns_since_boot: fu64(v, 0).unwrap(),
                            tid: fu64(v, 1).unwrap(),
                            pid: fu64(v, 2).unwrap(),
                            sector_cnt: fu64(v, 3).unwrap(),
                        })
                    } else {
                        None
                    },
                    None => None,
                }
            } else {
                None
            }
        },
    }
}

/// What a trace line of the iowait script denotes: only `SampleInstant <ns>` is known.
pub open spec fn iowait_trace_spec(s: Seq<u8>) -> Option<IowaitBpfEvent> {
    let w = words_spec(s);
    if w.len() >= 2 && w[0] == lit_sample_instant() && is_u64(w[1]) {
        Some(IowaitBpfEvent::SampleInstant { ns_since_boot: dec_value(w[1]) as u64 })
    } else {
        None
    }
}

/// What a non-empty line of the iowait script denotes, by its leading characters.
pub open spec fn iowait_line_spec(s: Seq<u8>) -> Option<IowaitBpfEvent> {
    if s.len() > 0 && s[0] == 64 {
        iowait_summary_spec(s)
    } else if starts_with_spec(s, seq![61u8, 62]) {
        match marker_spec(s) {
            Some(Marker::Start) => Some(IowaitBpfEvent::MapStatsStart),
            Some(Marker::End) => Some(IowaitBpfEvent::MapStatsEnd),
            None => None,
        }
    } else {
        iowait_trace_spec(s)
    }
}

/// The event a record of the iowait script yields.
pub open spec fn iowait_event_of(s: Seq<u8>, e: IowaitBpfEvent) -> bool {
    if s.len() == 0 {
        e == IowaitBpfEvent::NoOp
    } else {
        match iowait_line_spec(s) {
            Some(x) => e == x,
            None => match e {
                IowaitBpfEvent::Unexpected { data } => data@ == s,
                _ => false,
            },
        }
    }
}

impl IowaitBpfEvent {
    /// Parses a map-summary line.
    pub fn from_summary_stats_string(event_string: &[u8]) -> (r: Option<Self>)
        ensures
            r == iowait_summary_spec(event_string@),
    {
        let (name, key, value) = match split_summary(event_string) {
            Some(p) => p,
            None => return None,
        };
        let k = split_list(key.as_slice());
        if is_completed(name.as_slice()) {
            let mut single: Vec<Vec<u8>> = Vec::new();
            single.push(value);
            assert(views(single@) =~= seq![single@[0]@]);
            let part0 = match field_u32(&k, 0) { Some(x) => x, None => return None };
            let device = match field_u32(&k, 1) { Some(x) => x, None => return None };
            let tid = match field_u64(&k, 2) { Some(x) => x, None => return None };
            let pid = match field_u64(&k, 3) { Some(x) => x, None => return None };
            let sector_cnt = match field_u64(&single, 0) { Some(x) => x, None => return None };
            Some(IowaitBpfEvent::MapCompleted { part0, device, tid, pid, sector_cnt })
        } else if is_pending(name.as_slice()) {
            let v = match split_tuple(value.as_slice()) {
                Some(v) => v,
                None => return None,
            };
            let part0 = match field_u32(&k, 0) { Some(x) => x, None => return None };
            let device = match field_u32(&k, 1) { Some(x) => x, None => return None };
            let sector = match field_u64(&k, 2) { Some(x) => x, None => return None };
            let w = match field_i64(&k, 3) { Some(x) => x, None => return None };
            if w < -128 || w > 127 {
                return None;
            }
            let op = match field_u32(&k, 4) { Some(x) => x, None => return None };
            if op > 255 {
                return None;
            }
            let status = match field_u32(&k, 5) { Some(x) => x, None => return None };
            let ns_since_boot = match field_u64(&v, 0) { Some(x) => x, None => return None };
            let tid = match field_u64(&v, 1) { Some(x) => x, None => return None };
            let pid = match field_u64(&v, 2) { Some(x) => x, None => return None };
            let sector_cnt = match field_u64(&v, 3) { Some(x) => x, None => return None };
            Some(IowaitBpfEvent::MapPending {
                ns_since_boot,
                part0,
                device,
                sector,
                sector_cnt,
                is_write: w > 0,
                op: op as u8,
                status,
                tid,
                pid,
            })
        } else {
            None
        }
    }

    /// Parses a frame-marker line.
    pub fn from_stats_closure_string(event_string: &[u8]) -> (r: Option<Self>)
        ensures
            r == (match marker_spec(event_string@) {
                Some(Marker::Start) => Some(IowaitBpfEvent::MapStatsStart),
                Some(Marker::End) => Some(IowaitBpfEvent::MapStatsEnd),
                None => None,
            }),
    {
        match parse_marker(event_string) {
            Some(Marker::Start) => Some(IowaitBpfEvent::MapStatsStart),
            Some(Marker::End) => Some(IowaitBpfEvent::MapStatsEnd),
            None => None,
        }
    }

    /// Parses a trace line.
    pub fn from_trace_string(event_string: &[u8]) -> (r: Option<Self>)
        ensures
            r == iowait_trace_spec(event_string@),
    {
        let w = words(event_string);
        assert(w@.len() == views(w@).len());
        if w.len() < 2 || !is_sample_instant(w[0].as_slice()) {
            return None;
        }
        match parse_dec(w[1].as_slice()) {
            Some(ns_since_boot) => Some(IowaitBpfEvent::SampleInstant { ns_since_boot }),
            None => None,
        }
    }

    /// Parses a line, choosing the grammar by its leading characters.
    pub fn parse_line(event_string: &[u8]) -> (r: Option<Self>)
        ensures
            r == iowait_line_spec(event_string@),
    {
        if event_string.len() > 0 && event_string[0] == 64 {
            Self::from_summary_stats_string(event_string)
        } else if starts_with(event_string, &[61u8, 62]) {
            Self::from_stats_closure_string(event_string)
        } else {
            Self::from_trace_string(event_string)
        }
    }

    /// The event of one record: `NoOp` when empty, `Unexpected` when it does not parse.
    pub fn from_bytes(value: Vec<u8>) -> (r: Self)
        ensures
            iowait_event_of(value@, r),
    {
        if value.len() == 0 {
            return IowaitBpfEvent::NoOp;
        }
        match Self::parse_line(value.as_slice()) {
            Some(e) => e,
            None => IowaitBpfEvent::Unexpected { data: value },
        }
    }
}

/// Key of an iowait frame entry: (part0, device, pid, tid).
pub type IowaitKey = (u32, u32, u64, u64);

/// The iowait program's accounting state, as plain values.
pub struct IowaitState {
    /// Derived events not yet taken, in order.
    pub events: Seq<IowaitEvent>,
    /// Sectors per key gathered in the open frame, in order of first arrival.
    pub entries: Seq<(IowaitKey, u64)>,
    /// The open frame's instant, once announced.
    pub sample_instant_ns: Option<u64>,
}

pub open spec fn find_io_from(es: Seq<(IowaitKey, u64)>, k: IowaitKey, i: int) -> int
    decreases es.len() - i,
{
    if i < 0 || i >= es.len() {
        -1
    } else if es[i].0 == k {
        i
    } else {
        find_io_from(es, k, i + 1)
    }
}

/// No key has two entries.
pub open spec fn io_keys_unique(es: Seq<(IowaitKey, u64)>) -> bool {
    forall|a: int, b: int| 0 <= a < b < es.len() ==> (#[trigger] es[a]).0 != (#[trigger] es[b]).0
}

proof fn lemma_io_find(es: Seq<(IowaitKey, u64)>, k: IowaitKey, i: int)
    requires
        0 <= i,
    ensures
        find_io_from(es, k, i) < 0 ==> forall|m: int| i <= m < es.len() ==> es[m].0 != k,
        find_io_from(es, k, i) >= 0 ==> find_io_from(es, k, i) < es.len() && es[find_io_from(es, k, i)].0 == k,
    decreases es.len() - i,
{
    if i < es.len() && es[i].0 != k {
        lemma_io_find(es, k, i + 1);
    }
}

/// Adding sectors keeps the entry keys unique.
pub proof fn lemma_add_sectors_unique(es: Seq<(IowaitKey, u64)>, k: IowaitKey, n: u64)
    requires
        io_keys_unique(es),
    ensures
        io_keys_unique(add_sectors(es, k, n)),
{
    lemma_io_find(es, k, 0);
    let r = add_sectors(es, k, n);
    assert forall|a: int, b: int| 0 <= a < b < r.len() implies (#[trigger] r[a]).0 != (#[trigger] r[b]).0 by {
        if find_io_from(es, k, 0) < 0 {
            assert(r[a] == es[a]);
            if b < es.len() {
                assert(r[b] == es[b]);
            }
        } else {
            assert(r[a].0 == es[a].0 && r[b].0 == es[b].0);
        }
    }
}

/// Adds `n` sectors to key `k` (saturating at the largest 64-bit value).
pub open spec fn add_sectors(es: Seq<(IowaitKey, u64)>, k: IowaitKey, n: u64) -> Seq<(IowaitKey, u64)> {
    let i = find_io_from(es, k, 0);
    if i < 0 {
        es.push((k, n))
    } else {
        es.update(i, (k, crate::epoll::sat_add(es[i].1, n as int)))
    }
}

pub open spec fn request_of(e: (IowaitKey, u64), t: u64) -> IowaitEvent {
    IowaitEvent::Requests { ns_since_boot: t, part0: e.0.0, device: e.0.1, pid: e.0.2, tid: e.0.3, sector_cnt: e.1 }
}

/// How one typed line changes the iowait program's state.
pub open spec fn iowait_step(s: IowaitState, e: IowaitBpfEvent) -> Result<IowaitState, ReduceError> {
    match e {
        IowaitBpfEvent::MapCompleted { part0, device, tid, pid, sector_cnt } => Ok(IowaitState { entries: add_sectors(s.entries, (part0, device, pid, tid), sector_cnt), ..s }),
        IowaitBpfEvent::MapPending { part0, device, tid, pid, sector_cnt, .. } => Ok(IowaitState { entries: add_sectors(s.entries, (part0, device, pid, tid), sector_cnt), ..s }),
        IowaitBpfEvent::SampleInstant { ns_since_boot } => Ok(IowaitState { sample_instant_ns: Some(ns_since_boot), ..s }),
        IowaitBpfEvent::MapStatsEnd => match s.sample_instant_ns {
            Some(t) => Ok(IowaitState {
                events: s.events + Seq::new(s.entries.len(), |i: int| request_of(s.entries[i], t)),
                entries: Seq::empty(),
                sample_instant_ns: None,
            }),
            None => Err(ReduceError::EndOutsideClosure),
        },
        _ => Ok(s),
    }
}

pub open spec fn iowait_run(s: IowaitState, evs: Seq<IowaitBpfEvent>) -> Result<IowaitState, ReduceError>
    decreases evs.len(),
{
    if evs.len() == 0 {
        Ok(s)
    } else {
        match iowait_run(s, evs.drop_last()) {
            Ok(s1) => iowait_step(s1, evs.last()),
            Err(err) => Err(err),
        }
    }
}

/// The iowait tracing program: frames its output and sums sectors per frame.
pub struct IOWaitProgram {
    reader: FrameReader,
    events: Vec<IowaitEvent>,
    stats_closure_events: Vec<(IowaitKey, u64)>,
    sample_instant_ns: Option<u64>,
}

impl View for IOWaitProgram {
    type V = IowaitState;

    closed spec fn view(&self) -> IowaitState {
        IowaitState { events: self.events@, entries: self.stats_closure_events@, sample_instant_ns: self.sample_instant_ns }
    }
}

impl IOWaitProgram {
    /// A program that has read nothing yet.
    pub fn new() -> (r: Self)
        ensures
            r@ == (IowaitState { events: Seq::empty(), entries: Seq::empty(), sample_instant_ns: None }),
            r.frame() == (false, Seq::<u8>::empty()),
    {
        IOWaitProgram { reader: FrameReader::new(), events: Vec::new(), stats_closure_events: Vec::new(), sample_instant_ns: None }
    }

    /// The framing state of the program's output.
    pub closed spec fn frame(&self) -> FrameState {
        self.reader.frame()
    }

    /// Whether the header line of the script's output has been consumed.
    pub fn header_read(&self) -> (r: bool)
        ensures
            r == self.frame().0,
    {
        self.reader.header_read()
    }

    fn add(&mut self, k: IowaitKey, n: u64)
        ensures
            final(self)@ == (IowaitState { entries: add_sectors(old(self)@.entries, k, n), ..old(self)@ }),
            final(self).frame() == old(self).frame(),
    {
        let ghost es = self.stats_closure_events@;
        let mut i: usize = 0;
        while i < self.stats_closure_events.len()
            invariant
                0 <= i <= self.stats_closure_events@.len(),
                es == self.stats_closure_events@,
                self@ == old(self)@,
                self.frame() == old(self).frame(),
                find_io_from(es, k, 0) == find_io_from(es, k, i as int),
            decreases self.stats_closure_events@.len() - i,
        {
            let ek = self.stats_closure_events[i].0;
            if ek.0 == k.0 && ek.1 == k.1 && ek.2 == k.2 && ek.3 == k.3 {
                let (key, v) = self.stats_closure_events.remove(i);
                self.stats_closure_events.insert(i, (key, v.saturating_add(n)));
                assert(self.stats_closure_events@ =~= es.update(i as int, (k, crate::epoll::sat_add(es[i as int].1, n as int))));
                return;
            }
            i = i + 1;
        }
        self.stats_closure_events.push((k, n));
    }

    /// Applies one typed line of the script's output.
    pub fn handle_event(&mut self, event: IowaitBpfEvent) -> (r: Result<(), ReduceError>)
        ensures
            match iowait_step(old(self)@, event) {
                Ok(s) => r is Ok && final(self)@ == s,
                Err(e) => r == Err::<(), ReduceError>(e),
            },
            r is Err ==> final(self)@.events == old(self)@.events,
            io_keys_unique(old(self)@.entries) ==> io_keys_unique(final(self)@.entries),
            final(self).frame() == old(self).frame(),
    {
        match event {
            IowaitBpfEvent::MapCompleted { part0, device, tid, pid, sector_cnt } => {
                let ghost es = self@.entries;
                self.add((part0, device, pid, tid), sector_cnt);
                proof {
                    if io_keys_unique(es) {
                        lemma_add_sectors_unique(es, (part0, device, pid, tid), sector_cnt);
                    }
                }
                Ok(())
            },
            IowaitBpfEvent::MapPending { part0, device, tid, pid, sector_cnt, .. } => {
                let ghost es = self@.entries;
                self.add((part0, device, pid, tid), sector_cnt);
                proof {
                    if io_keys_unique(es) {
                        lemma_add_sectors_unique(es, (part0, device, pid, tid), sector_cnt);
                    }
                }
                Ok(())
            },
            IowaitBpfEvent::SampleInstant { ns_since_boot } => {
                self.sample_instant_ns = Some(ns_since_boot);
                Ok(())
            },
            IowaitBpfEvent::MapStatsEnd => {
                let t = match self.sample_instant_ns {
                    Some(t) => t,
                    None => return Err(ReduceError::EndOutsideClosure),
                };
                let ghost before = self.events@;
                let ghost es = self.stats_closure_events@;
                let mut i: usize = 0;
                while i < self.stats_closure_events.len()
                    invariant
                        0 <= i <= self.stats_closure_events@.len(),
                        es == self.stats_closure_events@,
                        self.events@ == before + Seq::new(i as nat, |j: int| request_of(es[j], t)),
                        self.frame() == old(self).frame(),
                    decreases self.stats_closure_events@.len() - i,
                {
                    let (k, n) = self.stats_closure_events[i];
                    self.events.push(IowaitEvent::Requests { ns_since_boot: t, part0: k.0, device: k.1, pid: k.2, tid: k.3, sector_cnt: n });
                    i = i + 1;
                    assert(self.events@ =~= before + Seq::new(i as nat, |j: int| request_of(es[j], t)));
                }
                self.stats_closure_events = Vec::new();
                self.sample_instant_ns = None;
                assert(self.stats_closure_events@ =~= Seq::<(IowaitKey, u64)>::empty());
                Ok(())
            },
            _ => Ok(()),
        }
    }

    /// Consumes a chunk of the script's output, stopping at the first reducer error.
    /// Returns the number of derived events waiting to be taken.
    pub fn poll_bytes(&mut self, buf: &[u8]) -> (r: Result<usize, ReduceError>)
        ensures
            exists|recs: Seq<Seq<u8>>, evs: Seq<IowaitBpfEvent>|
                #[trigger] iowait_poll_outcome(old(self).frame(), final(self).frame(), buf@, old(self)@, final(self)@, r, recs, evs),
    {
        let recs = self.reader.handle_bytes(buf);
        let ghost rv = views(recs@);
        let ghost s0 = old(self)@;
        let ghost mut evs: Seq<IowaitBpfEvent> = Seq::empty();
        let mut recs = recs;
        let ghost all = recs@;
        let n = recs.len();
        let mut i: usize = 0;
        assert(rv.len() == n);
        while recs.len() > 0
            invariant
                n == all.len(),
                rv == views(all),
                recs@ == all.subrange(i as int, n as int),
                recs@.len() == n - i,
                0 <= i <= n,
                s0 == old(self)@,
                evs.len() == i,
                forall|j: int| 0 <= j < evs.len() ==> iowait_event_of(rv[j], #[trigger] evs[j]),
                iowait_run(s0, evs) == Ok::<IowaitState, ReduceError>(self@),
                frame_run(old(self).frame(), buf@) == (self.frame(), rv),
            decreases recs@.len(),
        {
            assert(i < n);
            let rec = recs.remove(0);
            assert(rec@ == rv[i as int]);
            let e = IowaitBpfEvent::from_bytes(rec);
            let ghost e_spec = e;
            let ghost before = self@;
            let res = self.handle_event(e);
            proof {
                assert(evs.push(e_spec).drop_last() =~= evs);
                evs = evs.push(e_spec);
                assert(iowait_run(s0, evs) == iowait_step(before, e_spec));
            }
            i = i + 1;
            assert(recs@ =~= all.subrange(i as int, n as int));
            match res {
                Ok(()) => {},
                Err(err) => {
                    assert(iowait_poll_outcome(old(self).frame(), self.frame(), buf@, s0, self@, Err::<usize, ReduceError>(err), rv, evs));
                    return Err(err);
                },
            }
        }
        let count = self.events.len();
        assert(iowait_poll_outcome(old(self).frame(), self.frame(), buf@, s0, self@, Ok::<usize, ReduceError>(count), rv, evs));
        Ok(count)
    }

    /// Takes the derived events, in order.
    pub fn take_events(&mut self) -> (r: Vec<IowaitEvent>)
        ensures
            r@ == old(self)@.events,
            final(self)@ == (IowaitState { events: Seq::empty(), ..old(self)@ }),
            final(self).frame() == old(self).frame(),
    {
        let mut out: Vec<IowaitEvent> = Vec::new();
        std::mem::swap(&mut out, &mut self.events);
        out
    }
}

/// What a call of `IOWaitProgram::poll_bytes` did, given the records it framed and the
/// typed lines it applied.
pub open spec fn iowait_poll_outcome(
    old_frame: FrameState,
    new_frame: FrameState,
    buf: Seq<u8>,
    old_state: IowaitState,
    new_state: IowaitState,
    r: Result<usize, ReduceError>,
    recs: Seq<Seq<u8>>,
    evs: Seq<IowaitBpfEvent>,
) -> bool {
    &&& frame_run(old_frame, buf) == (new_frame, recs)
    &&& evs.len() <= recs.len()
    &&& forall|i: int| 0 <= i < evs.len() ==> iowait_event_of(recs[i], #[trigger] evs[i])
    &&& match r {
        Ok(n) => evs.len() == recs.len() && iowait_run(old_state, evs) == Ok::<IowaitState, ReduceError>(new_state)
            && n == new_state.events.len(),
        Err(e) => evs.len() > 0 && iowait_run(old_state, evs) == Err::<IowaitState, ReduceError>(e) && match iowait_run(old_state, evs.drop_last()) {
            Ok(s1) => new_state.events == s1.events,
            Err(_) => false,
        },
    }
}

} // verus!
