//! The futex dialect: wait and wake summaries of the futex tracing script.
use vstd::prelude::*;

use crate::closure::{
    derive_wait, derived_wait, instants_ordered, pending_extra, pending_wait, ReduceError,
};
use crate::frame::{frame_run, BpfReader, FrameReader, FrameState};
use crate::lits::{
    is_new_process, is_sample_instant, is_unhandled_opcode, is_wait_elapsed, is_wait_pending,
    is_wake, lit_new_process, lit_sample_instant, lit_unhandled_opcode, lit_wait_elapsed,
    lit_wait_pending, lit_wake,
};
use crate::text::{
    bytes_eq, dec_fits, dec_value, parse_dec, starts_with, starts_with_spec, subslice, views, words,
    words_spec,
};
use crate::wire::{
    list_spec, marker_spec, parse_marker, split_list, split_summary, split_tuple, summary_parts,
    tuple_spec, Marker,
};

verus! {

/// `s` is a decimal number that fits in 64 bits.
pub open spec fn is_u64(s: Seq<u8>) -> bool {
    dec_fits(s, u64::MAX as int)
}

/// One line of the futex tracing script, typed.
#[derive(PartialEq, Eq, Debug, Clone)]
pub enum FutexBpfEvent {
    NoOp,
    NewProcess { comm: Vec<u8>, pid: u64 },
    Unexpected { data: Vec<u8> },
    UnhandledOpcode { opcode: Vec<u8> },
    WaitElapsed {
        tid: u64,
        root_pid: u64,
        uaddr: Vec<u8>,
        total_interval_wait_ns: u64,
        count_interval_wait: u64,
    },
    WaitPending { tid: u64, root_pid: u64, uaddr: Vec<u8>, ns_since_boot: u64 },
    Wake { tid: u64, root_pid: u64, uaddr: Vec<u8>, count: u64 },
    SampleInstant { ns_since_boot: u64 },
    MapStatsStart,
    MapStatsEnd,
}

/// What a map-summary line of the futex script denotes (`None`: it is malformed).
pub open spec fn futex_summary_denotes(s: Seq<u8>, r: Option<FutexBpfEvent>) -> bool {
    match summary_parts(s) {
        None => r is None,
        Some((name, key, value)) => {
            let kf = list_spec(key);
            if name == lit_wait_elapsed() {
                match tuple_spec(value) {
                    Some(vf) => if kf.len() >= 3 && vf.len() >= 2 && is_u64(kf[0]) && is_u64(kf[1])
                        && is_u64(vf[0]) && is_u64(vf[1]) {
                        match r {
                            Some(
                                FutexBpfEvent::WaitElapsed {
                                    tid,
                                    root_pid,
                                    uaddr,
                                    total_interval_wait_ns,
                                    count_interval_wait,
                                },
                            ) => tid == dec_value(kf[0]) && root_pid == dec_value(kf[1]) && uaddr@
                                == kf[2] && total_interval_wait_ns == dec_value(vf[0])
                                && count_interval_wait == dec_value(vf[1]),
                            _ => false,
                        }
                    } else {
                        r is None
                    },
                    None => r is None,
                }
            } else if name == lit_wait_pending() {
                match tuple_spec(value) {
                    Some(vf) => if kf.len() >= 1 && vf.len() >= 3 && is_u64(kf[0]) && is_u64(vf[0])
                        && is_u64(vf[1]) {
                        match r {
                            Some(
                                FutexBpfEvent::WaitPending { tid, root_pid, uaddr, ns_since_boot },
                            ) => tid == dec_value(kf[0]) && ns_since_boot == dec_value(vf[0])
                                && root_pid == dec_value(vf[1]) && uaddr@ == vf[2],
                            _ => false,
                        }
                    } else {
                        r is None
                    },
                    None => r is None,
                }
            } else if name == lit_wake() {
                let vf = list_spec(value);
                if kf.len() >= 3 && is_u64(kf[0]) && is_u64(kf[1]) && is_u64(vf[0]) {
                    match r {
                        Some(FutexBpfEvent::Wake { tid, root_pid, uaddr, count }) => tid
                            == dec_value(kf[0]) && root_pid == dec_value(kf[1]) && uaddr@ == kf[2]
                            && count == dec_value(vf[0]),
                        _ => false,
                    }
                } else {
                    r is None
                }
            } else {
                r is None
            }
        },
    }
}

/// What a trace line of the futex script denotes: whitespace-separated words, the first
/// being the tag.
pub open spec fn futex_trace_denotes(s: Seq<u8>, r: Option<FutexBpfEvent>) -> bool {
    let w = words_spec(s);
    if w.len() == 0 {
        r is None
    } else if w[0] == lit_unhandled_opcode() {
        if w.len() >= 2 {
            match r {
                Some(FutexBpfEvent::UnhandledOpcode { opcode }) => opcode@ == w[1],
                _ => false,
            }
        } else {
            r is None
        }
    } else if w[0] == lit_new_process() {
        if w.len() >= 3 && is_u64(w[2]) {
            match r {
                Some(FutexBpfEvent::NewProcess { comm, pid }) => comm@ == w[1] && pid == dec_value(
                    w[2],
                ),
                _ => false,
            }
        } else {
            r is None
        }
    } else if w[0] == lit_sample_instant() {
        if w.len() >= 2 && is_u64(w[1]) {
            r == Some(FutexBpfEvent::SampleInstant { ns_since_boot: dec_value(w[1]) as u64 })
        } else {
            r is None
        }
    } else {
        match r {
            Some(FutexBpfEvent::Unexpected { data }) => data@ == s,
            _ => false,
        }
    }
}

/// What a non-empty line of the futex script denotes, by its leading characters.
pub open spec fn futex_line_denotes(s: Seq<u8>, r: Option<FutexBpfEvent>) -> bool {
    if s.len() > 0 && s[0] == 64 {
        futex_summary_denotes(s, r)
    } else if starts_with_spec(s, seq![61u8, 62]) {
        match marker_spec(s) {
            Some(Marker::Start) => r == Some(FutexBpfEvent::MapStatsStart),
            Some(Marker::End) => r == Some(FutexBpfEvent::MapStatsEnd),
            None => r is None,
        }
    } else {
        futex_trace_denotes(s, r)
    }
}

/// The event a record of the futex script yields: `NoOp` for an empty record,
/// `Unexpected` holding the record for one that does not parse.
pub open spec fn futex_event_of(s: Seq<u8>, e: FutexBpfEvent) -> bool {
    if s.len() == 0 {
        e == FutexBpfEvent::NoOp
    } else {
        futex_line_denotes(s, Some(e)) || (futex_line_denotes(s, None) && match e {
            FutexBpfEvent::Unexpected { data } => data@ == s,
            _ => false,
        })
    }
}

/// A copy of a byte string.
pub fn copy_bytes(s: &Vec<u8>) -> (r: Vec<u8>)
    ensures
        r@ == s@,
{
    subslice(s.as_slice(), 0, s.len())
}

impl FutexBpfEvent {
    /// Parses a line, choosing the summary, marker or trace grammar by its leading characters.
    pub fn parse_line(event_string: &[u8]) -> (r: Option<Self>)
        ensures
            futex_line_denotes(event_string@, r),
    {
        if event_string.len() > 0 && event_string[0] == 64 {
            Self::from_summary_stats_string(event_string)
        } else if starts_with(event_string, &[61u8, 62]) {
            Self::from_stats_closure_string(event_string)
        } else {
            Self::from_trace_string(event_string)
        }
    }

    /// Parses a frame-marker line.
    pub fn from_stats_closure_string(event_string: &[u8]) -> (r: Option<Self>)
        ensures
            match marker_spec(event_string@) {
                Some(Marker::Start) => r == Some(FutexBpfEvent::MapStatsStart),
                Some(Marker::End) => r == Some(FutexBpfEvent::MapStatsEnd),
                None => r is None,
            },
    {
        match parse_marker(event_string) {
            Some(Marker::Start) => Some(FutexBpfEvent::MapStatsStart),
            Some(Marker::End) => Some(FutexBpfEvent::MapStatsEnd),
            None => None,
        }
    }

    /// Parses a trace line.
    pub fn from_trace_string(event_string: &[u8]) -> (r: Option<Self>)
        ensures
            futex_trace_denotes(event_string@, r),
    {
        let w = words(event_string);
        assert(w@.len() == views(w@).len());
        if w.len() == 0 {
            return None;
        }
        let tag = w[0].as_slice();
        if is_unhandled_opcode(tag) {
            if w.len() >= 2 {
                Some(FutexBpfEvent::UnhandledOpcode { opcode: copy_bytes(&w[1]) })
            } else {
                None
            }
        } else if is_new_process(tag) {
            if w.len() >= 3 {
                match parse_dec(w[2].as_slice()) {
                    Some(pid) => Some(FutexBpfEvent::NewProcess { comm: copy_bytes(&w[1]), pid }),
                    None => None,
                }
            } else {
                None
            }
        } else if is_sample_instant(tag) {
            if w.len() >= 2 {
                match parse_dec(w[1].as_slice()) {
                    Some(ns_since_boot) => Some(FutexBpfEvent::SampleInstant { ns_since_boot }),
                    None => None,
                }
            } else {
                None
            }
        } else {
            let data = subslice(event_string, 0, event_string.len());
            assert(data@ =~= event_string@);
            Some(FutexBpfEvent::Unexpected { data })
        }
    }

    /// Parses a map-summary line.
    pub fn from_summary_stats_string(event_string: &[u8]) -> (r: Option<Self>)
        ensures
            futex_summary_denotes(event_string@, r),
    {
        let (name, key, value) = match split_summary(event_string) {
            Some(p) => p,
            None => return None,
        };
        let kf = split_list(key.as_slice());
        assert(views(kf@) == list_spec(key@));
        if is_wait_elapsed(name.as_slice()) {
            let vf = match split_tuple(value.as_slice()) {
                Some(v) => v,
                None => return None,
            };
            if kf.len() < 3 || vf.len() < 2 {
                return None;
            }
            let tid = match parse_dec(kf[0].as_slice()) { Some(v) => v, None => return None };
            let root_pid = match parse_dec(kf[1].as_slice()) { Some(v) => v, None => return None };
            let total = match parse_dec(vf[0].as_slice()) { Some(v) => v, None => return None };
            let count = match parse_dec(vf[1].as_slice()) { Some(v) => v, None => return None };
            Some(
                FutexBpfEvent::WaitElapsed {
                    tid,
                    root_pid,
                    uaddr: copy_bytes(&kf[2]),
                    total_interval_wait_ns: total,
                    count_interval_wait: count,
                },
            )
        } else if is_wait_pending(name.as_slice()) {
            let vf = match split_tuple(value.as_slice()) {
                Some(v) => v,
                None => return None,
            };
            if kf.len() < 1 || vf.len() < 3 {
                return None;
            }
            let tid = match parse_dec(kf[0].as_slice()) { Some(v) => v, None => return None };
            let ns = match parse_dec(vf[0].as_slice()) { Some(v) => v, None => return None };
            let root_pid = match parse_dec(vf[1].as_slice()) { Some(v) => v, None => return None };
            Some(
                FutexBpfEvent::WaitPending {
                    tid,
                    root_pid,
                    uaddr: copy_bytes(&vf[2]),
                    ns_since_boot: ns,
                },
            )
        } else if is_wake(name.as_slice()) {
            let vf = split_list(value.as_slice());
            if kf.len() < 3 {
                return None;
            }
            let tid = match parse_dec(kf[0].as_slice()) { Some(v) => v, None => return None };
            let root_pid = match parse_dec(kf[1].as_slice()) { Some(v) => v, None => return None };
            let count = match parse_dec(vf[0].as_slice()) { Some(v) => v, None => return None };
            Some(FutexBpfEvent::Wake { tid, root_pid, uaddr: copy_bytes(&kf[2]), count })
        } else {
            None
        }
    }

    /// The event of one record: `NoOp` when empty, `Unexpected` when it does not parse.
    pub fn from_bytes(value: Vec<u8>) -> (r: Self)
        ensures
            futex_event_of(value@, r),
    {
        if value.len() == 0 {
            return FutexBpfEvent::NoOp;
        }
        match Self::parse_line(value.as_slice()) {
            Some(e) => e,
            None => FutexBpfEvent::Unexpected { data: value },
        }
    }
}

/// Key of a stat-closure entry: waits and wakes of one thread on one futex word.
#[derive(PartialEq, Eq, Debug, Clone)]
pub enum StatsClosureKey {
    Wait { tid: u64, root_pid: u64, uaddr: Vec<u8> },
    Wake { tid: u64, root_pid: u64, uaddr: Vec<u8> },
}

/// A key as plain values: (is a wait, tid, root pid, futex word address text).
pub type KeyView = (bool, u64, u64, Seq<u8>);

pub open spec fn key_view(k: StatsClosureKey) -> KeyView {
    match k {
        StatsClosureKey::Wait { tid, root_pid, uaddr } => (true, tid, root_pid, uaddr@),
        StatsClosureKey::Wake { tid, root_pid, uaddr } => (false, tid, root_pid, uaddr@),
    }
}

/// The cached and pending fragments gathered for one key inside a frame.
#[derive(Debug)]
pub enum StatsClosureValue {
    Wait(Option<FutexBpfEvent>, Option<FutexBpfEvent>),
    Wake(FutexBpfEvent),
}

/// One derived per-interval futex event.
#[derive(Debug, PartialEq, Eq, Clone)]
pub enum FutexEvent {
    Wait {
        tid: u64,
        root_pid: u64,
        uaddr: Vec<u8>,
        sample_instant_ns: u64,
        total_interval_wait_ns: u64,
        count: u64,
    },
    Wake { tid: u64, root_pid: u64, uaddr: Vec<u8>, sample_instant_ns: u64, count: u64 },
}

pub open spec fn futex_event_tid(e: FutexEvent) -> u64 {
    match e {
        FutexEvent::Wait { tid, .. } => tid,
        FutexEvent::Wake { tid, .. } => tid,
    }
}

/// Events of thread `tid`.
pub open spec fn of_thread(tid: u64) -> spec_fn(FutexEvent) -> bool {
    |e: FutexEvent| futex_event_tid(e) == tid
}

/// Events of other threads than `tid`.
pub open spec fn not_of_thread(tid: u64) -> spec_fn(FutexEvent) -> bool {
    |e: FutexEvent| futex_event_tid(e) != tid
}

/// The event a frame closing at `t` derives from one key's fragments.
pub open spec fn reduce_spec(entry: StatsClosureValue, t: u64, prev: Option<u64>) -> Result<
    FutexEvent,
    ReduceError,
> {
    match entry {
        StatsClosureValue::Wait(
            None,
            Some(FutexBpfEvent::WaitPending { tid, root_pid, uaddr, ns_since_boot }),
        ) => Ok(
            FutexEvent::Wait {
                tid,
                root_pid,
                uaddr,
                sample_instant_ns: t,
                total_interval_wait_ns: pending_extra(Some(ns_since_boot), t, prev) as u64,
                count: 0,
            },
        ),
        StatsClosureValue::Wait(
            Some(
                FutexBpfEvent::WaitElapsed {
                    tid,
                    root_pid,
                    uaddr,
                    total_interval_wait_ns,
                    count_interval_wait,
                },
            ),
            None,
        ) => Ok(
            FutexEvent::Wait {
                tid,
                root_pid,
                uaddr,
                sample_instant_ns: t,
                total_interval_wait_ns,
                count: count_interval_wait,
            },
        ),
        StatsClosureValue::Wait(
            Some(
                FutexBpfEvent::WaitElapsed {
                    tid,
                    root_pid,
                    uaddr,
                    total_interval_wait_ns,
                    count_interval_wait,
                },
            ),
            Some(FutexBpfEvent::WaitPending { ns_since_boot, .. }),
        ) => if derived_wait(total_interval_wait_ns, Some(ns_since_boot), t, prev) <= u64::MAX {
            Ok(
                FutexEvent::Wait {
                    tid,
                    root_pid,
                    uaddr,
                    sample_instant_ns: t,
                    total_interval_wait_ns: derived_wait(
                        total_interval_wait_ns,
                        Some(ns_since_boot),
                        t,
                        prev,
                    ) as u64,
                    count: count_interval_wait,
                },
            )
        } else {
            Err(ReduceError::Overflow)
        },
        StatsClosureValue::Wake(FutexBpfEvent::Wake { tid, root_pid, uaddr, count }) => Ok(
            FutexEvent::Wake { tid, root_pid, uaddr, sample_instant_ns: t, count },
        ),
        _ => Err(ReduceError::InconsistentEntry),
    }
}

impl FutexEvent {
    /// Derives one key's event for the frame closing at `current_instant_ns`.
    pub fn from_stats_closure_value(
        entry: StatsClosureValue,
        current_instant_ns: u64,
        previous_instant_ns: Option<u64>,
    ) -> (r: Result<Self, ReduceError>)
        requires
            instants_ordered(current_instant_ns, previous_instant_ns),
        ensures
            r == reduce_spec(entry, current_instant_ns, previous_instant_ns),
    {
        let t = current_instant_ns;
        match entry {
            StatsClosureValue::Wait(
                None,
                Some(FutexBpfEvent::WaitPending { tid, root_pid, uaddr, ns_since_boot }),
            ) => {
                let pending = pending_wait(Some(ns_since_boot), t, previous_instant_ns);
                Ok(
                    FutexEvent::Wait {
                        tid,
                        root_pid,
                        uaddr,
                        sample_instant_ns: t,
                        total_interval_wait_ns: pending,
                        count: 0,
                    },
                )
            },
            StatsClosureValue::Wait(
                Some(
                    FutexBpfEvent::WaitElapsed {
                        tid,
                        root_pid,
                        uaddr,
                        total_interval_wait_ns,
                        count_interval_wait,
                    },
                ),
                None,
            ) => Ok(
                FutexEvent::Wait {
                    tid,
                    root_pid,
                    uaddr,
                    sample_instant_ns: t,
                    total_interval_wait_ns,
                    count: count_interval_wait,
                },
            ),
            StatsClosureValue::Wait(
                Some(
                    FutexBpfEvent::WaitElapsed {
                        tid,
                        root_pid,
                        uaddr,
                        total_interval_wait_ns,
                        count_interval_wait,
                    },
                ),
                Some(FutexBpfEvent::WaitPending { ns_since_boot, .. }),
            ) => {
                match derive_wait(
                    total_interval_wait_ns,
                    Some(ns_since_boot),
                    t,
                    previous_instant_ns,
                ) {
                    Ok(total) => Ok(
                        FutexEvent::Wait {
                            tid,
                            root_pid,
                            uaddr,
                            sample_instant_ns: t,
                            total_interval_wait_ns: total,
                            count: count_interval_wait,
                        },
                    ),
                    Err(e) => Err(e),
                }
            },
            StatsClosureValue::Wake(FutexBpfEvent::Wake { tid, root_pid, uaddr, count }) => Ok(
                FutexEvent::Wake { tid, root_pid, uaddr, sample_instant_ns: t, count },
            ),
            _ => Err(ReduceError::InconsistentEntry),
        }
    }
}

/// The futex program's accounting state, as plain values.
pub struct FutexState {
    /// Derived events not yet taken, in the order they were derived.
    pub events: Seq<FutexEvent>,
    /// Processes announced by the script and not yet taken.
    pub new_pids: Seq<(Vec<u8>, u64)>,
    /// `None` outside a frame; inside one, the frame's instant once it is known.
    pub closure: Option<Option<u64>>,
    /// The fragments gathered in the open frame, one entry per key, in order of arrival.
    pub entries: Seq<(KeyView, StatsClosureValue)>,
    /// The instant of the last closed frame.
    pub prev_instant_ns: Option<u64>,
}

/// No key has two entries.
pub open spec fn entry_keys_unique(es: Seq<(KeyView, StatsClosureValue)>) -> bool {
    forall|a: int, b: int| 0 <= a < b < es.len() ==> (#[trigger] es[a]).0 != (#[trigger] es[b]).0
}

/// A key that is not found has no entry.
pub proof fn lemma_entry_absent(es: Seq<(KeyView, StatsClosureValue)>, k: KeyView, i: int)
    requires
        0 <= i,
        find_entry_from(es, k, i) < 0,
    ensures
        forall|m: int| i <= m < es.len() ==> es[m].0 != k,
    decreases es.len() - i,
{
    if i < es.len() {
        lemma_entry_absent(es, k, i + 1);
    }
}

/// Adding an entry for an absent key keeps the keys unique.
pub proof fn lemma_push_unique(es: Seq<(KeyView, StatsClosureValue)>, e: (KeyView, StatsClosureValue))
    requires
        entry_keys_unique(es),
        find_entry_from(es, e.0, 0) < 0,
    ensures
        entry_keys_unique(es.push(e)),
{
    lemma_entry_absent(es, e.0, 0);
    let n = es.push(e);
    assert forall|a: int, b: int| 0 <= a < b < n.len() implies (#[trigger] n[a]).0 != (#[trigger] n[b]).0 by {
        assert(n[a] == es[a]);
        if b < es.len() {
            assert(n[b] == es[b]);
        }
    }
}

/// Replacing an entry by one with the same key keeps the keys unique.
pub proof fn lemma_update_unique(es: Seq<(KeyView, StatsClosureValue)>, i: int, e: (KeyView, StatsClosureValue))
    requires
        entry_keys_unique(es),
        0 <= i < es.len(),
        es[i].0 == e.0,
    ensures
        entry_keys_unique(es.update(i, e)),
{
    let n = es.update(i, e);
    assert forall|a: int, b: int| 0 <= a < b < n.len() implies (#[trigger] n[a]).0 != (#[trigger] n[b]).0 by {
        assert(n[a].0 == es[a].0 && n[b].0 == es[b].0);
    }
}

/// A step that succeeds keeps the entry keys unique.
pub proof fn lemma_step_unique(s: FutexState, e: FutexBpfEvent)
    requires
        entry_keys_unique(s.entries),
        futex_step(s, e) is Ok,
    ensures
        entry_keys_unique(futex_step(s, e)->Ok_0.entries),
{
    let es = s.entries;
    match e {
        FutexBpfEvent::WaitElapsed { tid, root_pid, uaddr, .. } | FutexBpfEvent::WaitPending { tid, root_pid, uaddr, .. } | FutexBpfEvent::Wake { tid, root_pid, uaddr, .. } => {
            let k = if e is Wake { (false, tid, root_pid, uaddr@) } else { (true, tid, root_pid, uaddr@) };
            let i = find_entry(es, k);
            if i < 0 {
                match e {
                    FutexBpfEvent::WaitElapsed { .. } => lemma_push_unique(es, (k, StatsClosureValue::Wait(Some(e), None))),
                    FutexBpfEvent::WaitPending { .. } => lemma_push_unique(es, (k, StatsClosureValue::Wait(None, Some(e)))),
                    _ => lemma_push_unique(es, (k, StatsClosureValue::Wake(e))),
                }
            } else {
                lemma_find_entry_from_result(es, k, 0);
                match (e, es[i].1) {
                    (FutexBpfEvent::WaitElapsed { .. }, StatsClosureValue::Wait(_, p)) => lemma_update_unique(es, i, (k, StatsClosureValue::Wait(Some(e), p))),
                    (FutexBpfEvent::WaitPending { .. }, StatsClosureValue::Wait(c, _)) => lemma_update_unique(es, i, (k, StatsClosureValue::Wait(c, Some(e)))),
                    _ => {},
                }
            }
        },
        _ => {},
    }
}

/// Index of the entry for `k` at or after `i`, or -1.
pub open spec fn find_entry_from(entries: Seq<(KeyView, StatsClosureValue)>, k: KeyView, i: int) -> int
    decreases entries.len() - i,
{
    if i < 0 || i >= entries.len() {
        -1
    } else if entries[i].0 == k {
        i
    } else {
        find_entry_from(entries, k, i + 1)
    }
}

pub open spec fn find_entry(entries: Seq<(KeyView, StatsClosureValue)>, k: KeyView) -> int {
    find_entry_from(entries, k, 0)
}

/// Records a cached wait fragment for its key.
pub open spec fn with_elapsed(entries: Seq<(KeyView, StatsClosureValue)>, k: KeyView, e: FutexBpfEvent) -> Seq<(KeyView, StatsClosureValue)> {
    let i = find_entry(entries, k);
    if i < 0 {
        entries.push((k, StatsClosureValue::Wait(Some(e), None)))
    } else {
        match entries[i].1 {
            StatsClosureValue::Wait(_, p) => entries.update(i, (k, StatsClosureValue::Wait(Some(e), p))),
            _ => entries,
        }
    }
}

/// Records a pending wait fragment for its key.
pub open spec fn with_pending(entries: Seq<(KeyView, StatsClosureValue)>, k: KeyView, e: FutexBpfEvent) -> Seq<(KeyView, StatsClosureValue)> {
    let i = find_entry(entries, k);
    if i < 0 {
        entries.push((k, StatsClosureValue::Wait(None, Some(e))))
    } else {
        match entries[i].1 {
            StatsClosureValue::Wait(c, _) => entries.update(i, (k, StatsClosureValue::Wait(c, Some(e)))),
            _ => entries,
        }
    }
}

/// Records a wake summary for its key; the first one of a frame stays.
pub open spec fn with_wake(entries: Seq<(KeyView, StatsClosureValue)>, k: KeyView, e: FutexBpfEvent) -> Seq<(KeyView, StatsClosureValue)> {
    if find_entry(entries, k) < 0 {
        entries.push((k, StatsClosureValue::Wake(e)))
    } else {
        entries
    }
}

/// The events a frame closing at `t` derives from its entries, in order.
pub open spec fn closure_outputs(entries: Seq<(KeyView, StatsClosureValue)>, t: u64, prev: Option<u64>) -> Result<Seq<FutexEvent>, ReduceError>
    decreases entries.len(),
{
    if entries.len() == 0 {
        Ok(Seq::<FutexEvent>::empty())
    } else {
        match closure_outputs(entries.drop_last(), t, prev) {
            Ok(out) => match reduce_spec(entries.last().1, t, prev) {
                Ok(e) => Ok(out.push(e)),
                Err(err) => Err(err),
            },
            Err(err) => Err(err),
        }
    }
}

/// How one typed line changes the futex program's state.
pub open spec fn futex_step(s: FutexState, e: FutexBpfEvent) -> Result<FutexState, ReduceError> {
    match e {
        FutexBpfEvent::NewProcess { comm, pid } => Ok(FutexState { new_pids: s.new_pids.push((comm, pid)), ..s }),
        FutexBpfEvent::MapStatsStart => Ok(FutexState { closure: Some(None), ..s }),
        FutexBpfEvent::SampleInstant { ns_since_boot } => match s.closure {
            Some(_) => Ok(FutexState { closure: Some(Some(ns_since_boot)), ..s }),
            None => Err(ReduceError::InstantOutsideClosure),
        },
        FutexBpfEvent::MapStatsEnd => match s.closure {
            Some(Some(t)) => if !instants_ordered(t, s.prev_instant_ns) {
                Err(ReduceError::InstantWentBack)
            } else {
                match closure_outputs(s.entries, t, s.prev_instant_ns) {
                    Ok(out) => Ok(
                        FutexState {
                            events: s.events + out,
                            new_pids: s.new_pids,
                            closure: None,
                            entries: Seq::empty(),
                            prev_instant_ns: Some(t),
                        },
                    ),
                    Err(err) => Err(err),
                }
            },
            _ => Err(ReduceError::EndOutsideClosure),
        },
        FutexBpfEvent::WaitElapsed { tid, root_pid, uaddr, .. } => Ok(
            FutexState { entries: with_elapsed(s.entries, (true, tid, root_pid, uaddr@), e), ..s },
        ),
        FutexBpfEvent::WaitPending { tid, root_pid, uaddr, .. } => Ok(
            FutexState { entries: with_pending(s.entries, (true, tid, root_pid, uaddr@), e), ..s },
        ),
        FutexBpfEvent::Wake { tid, root_pid, uaddr, .. } => Ok(
            FutexState { entries: with_wake(s.entries, (false, tid, root_pid, uaddr@), e), ..s },
        ),
        _ => Ok(s),
    }
}

/// The state after a sequence of typed lines, or the first error.
pub open spec fn futex_run(s: FutexState, evs: Seq<FutexBpfEvent>) -> Result<FutexState, ReduceError>
    decreases evs.len(),
{
    if evs.len() == 0 {
        Ok(s)
    } else {
        match futex_run(s, evs.drop_last()) {
            Ok(s1) => futex_step(s1, evs.last()),
            Err(err) => Err(err),
        }
    }
}

pub open spec fn entries_view(v: Seq<(StatsClosureKey, StatsClosureValue)>) -> Seq<(KeyView, StatsClosureValue)> {
    v.map_values(|p: (StatsClosureKey, StatsClosureValue)| (key_view(p.0), p.1))
}

/// The futex tracing program: frames its output, reduces map dumps, and keeps the derived
/// events until each thread's accumulator takes them.
pub struct FutexProgram {
    reader: FrameReader,
    events: Vec<FutexEvent>,
    new_pids: Vec<(Vec<u8>, u64)>,
    state: Option<Option<u64>>,
    stats_closure_events: Vec<(StatsClosureKey, StatsClosureValue)>,
    prev_instant_ns: Option<u64>,
}

impl View for FutexProgram {
    type V = FutexState;

    closed spec fn view(&self) -> FutexState {
        FutexState {
            events: self.events@,
            new_pids: self.new_pids@,
            closure: self.state,
            entries: entries_view(self.stats_closure_events@),
            prev_instant_ns: self.prev_instant_ns,
        }
    }
}

/// Whether key `k` is the key with the given parts.
fn key_is(k: &StatsClosureKey, wait: bool, tid: u64, root_pid: u64, uaddr: &Vec<u8>) -> (r: bool)
    ensures
        r == (key_view(*k) == (wait, tid, root_pid, uaddr@)),
{
    match k {
        StatsClosureKey::Wait { tid: t, root_pid: p, uaddr: u } => wait && *t == tid && *p == root_pid
            && bytes_eq(u.as_slice(), uaddr.as_slice()),
        StatsClosureKey::Wake { tid: t, root_pid: p, uaddr: u } => !wait && *t == tid && *p == root_pid
            && bytes_eq(u.as_slice(), uaddr.as_slice()),
    }
}

impl FutexProgram {
    /// A program that has read nothing yet.
    pub fn new() -> (r: Self)
        ensures
            r@ == (FutexState {
                events: Seq::empty(),
                new_pids: Seq::empty(),
                closure: None,
                entries: Seq::empty(),
                prev_instant_ns: None,
            }),
            r.frame() == (false, Seq::<u8>::empty()),
    {
        let r = FutexProgram {
            reader: FrameReader::new(),
            events: Vec::new(),
            new_pids: Vec::new(),
            state: None,
            stats_closure_events: Vec::new(),
            prev_instant_ns: None,
        };
        assert(entries_view(r.stats_closure_events@) =~= Seq::empty());
        r
    }

    /// The framing state of the program's output.
    pub closed spec fn frame(&self) -> FrameState {
        self.reader.frame()
    }

    /// Whether the header line of the script's output has been consumed.
    pub fn header_read(&self) -> (r: bool)
        ensures
            r == self.frame().0,
    {
        self.reader.header_read()
    }

    fn find_key(&self, wait: bool, tid: u64, root_pid: u64, uaddr: &Vec<u8>) -> (r: Option<usize>)
        ensures
            match r {
                Some(i) => i as int == find_entry(self@.entries, (wait, tid, root_pid, uaddr@)) && i
                    < self@.entries.len(),
                None => find_entry(self@.entries, (wait, tid, root_pid, uaddr@)) < 0,
            },
    {
        let ghost k = (wait, tid, root_pid, uaddr@);
        let ghost es = self@.entries;
        let mut i: usize = 0;
        while i < self.stats_closure_events.len()
            invariant
                0 <= i <= self.stats_closure_events@.len(),
                es == entries_view(self.stats_closure_events@),
                es == self@.entries,
                es.len() == self.stats_closure_events@.len(),
                k == (wait, tid, root_pid, uaddr@),
                find_entry(es, k) == find_entry_from(es, k, i as int),
            decreases self.stats_closure_events@.len() - i,
        {
            assert(es[i as int] == (
                key_view(self.stats_closure_events@[i as int].0),
                self.stats_closure_events@[i as int].1,
            ));
            if key_is(&self.stats_closure_events[i].0, wait, tid, root_pid, uaddr) {
                return Some(i);
            }
            i = i + 1;
        }
        None
    }

    /// Applies one typed line of the script's output.
    pub fn handle_event(&mut self, event: FutexBpfEvent) -> (r: Result<(), ReduceError>)
        ensures
            match futex_step(old(self)@, event) {
                Ok(s) => r is Ok && final(self)@ == s,
                Err(e) => r == Err::<(), ReduceError>(e),
            },
            r is Err ==> final(self)@.events == old(self)@.events && final(self)@.new_pids == old(self)@.new_pids,
            entry_keys_unique(old(self)@.entries) ==> entry_keys_unique(final(self)@.entries),
            final(self).frame() == old(self).frame(),
    {
        let ghost s0 = self@;
        let ghost e0 = event;
        let r = match event {
            FutexBpfEvent::NewProcess { comm, pid } => {
                self.new_pids.push((comm, pid));
                Ok(())
            },
            FutexBpfEvent::MapStatsStart => {
                self.state = Some(None);
                Ok(())
            },
            FutexBpfEvent::SampleInstant { ns_since_boot } => {
                if self.state.is_some() {
                    self.state = Some(Some(ns_since_boot));
                    Ok(())
                } else {
                    Err(ReduceError::InstantOutsideClosure)
                }
            },
            FutexBpfEvent::MapStatsEnd => self.close_frame(),
            FutexBpfEvent::WaitElapsed { tid, root_pid, uaddr, total_interval_wait_ns, count_interval_wait } => {
                let ev = FutexBpfEvent::WaitElapsed { tid, root_pid, uaddr, total_interval_wait_ns, count_interval_wait };
                self.put_wait(ev, tid, root_pid, true);
                Ok(())
            },
            FutexBpfEvent::WaitPending { tid, root_pid, uaddr, ns_since_boot } => {
                let ev = FutexBpfEvent::WaitPending { tid, root_pid, uaddr, ns_since_boot };
                self.put_wait(ev, tid, root_pid, false);
                Ok(())
            },
            FutexBpfEvent::Wake { tid, root_pid, uaddr, count } => {
                let key_uaddr = copy_bytes(&uaddr);
                let ev = FutexBpfEvent::Wake { tid, root_pid, uaddr, count };
                match self.find_key(false, tid, root_pid, &key_uaddr) {
                    Some(_) => {},
                    None => {
                        let ghost before = self.stats_closure_events@;
                        self.stats_closure_events.push(
                            (StatsClosureKey::Wake { tid, root_pid, uaddr: key_uaddr }, StatsClosureValue::Wake(ev)),
                        );
                        assert(entries_view(self.stats_closure_events@) =~= entries_view(before).push(
                            ((false, tid, root_pid, key_uaddr@), StatsClosureValue::Wake(ev)),
                        ));
                    },
                }
                Ok(())
            },
            _ => Ok(()),
        };
        proof {
            if entry_keys_unique(s0.entries) && r is Ok {
                lemma_step_unique(s0, e0);
            }
        }
        r
    }

    /// Records a cached (`elapsed`) or pending wait fragment under its key.
    fn put_wait(&mut self, ev: FutexBpfEvent, tid: u64, root_pid: u64, elapsed: bool)
        requires
            elapsed ==> (ev matches FutexBpfEvent::WaitElapsed { tid: t, root_pid: p, .. } && t == tid && p == root_pid),
            !elapsed ==> (ev matches FutexBpfEvent::WaitPending { tid: t, root_pid: p, .. } && t == tid && p == root_pid),
        ensures
            final(self)@ == (FutexState {
                entries: if elapsed {
                    with_elapsed(old(self)@.entries, (true, tid, root_pid, ev_uaddr(ev)@), ev)
                } else {
                    with_pending(old(self)@.entries, (true, tid, root_pid, ev_uaddr(ev)@), ev)
                },
                ..old(self)@
            }),
            final(self).frame() == old(self).frame(),
    {
        let key_uaddr = match &ev {
            FutexBpfEvent::WaitElapsed { uaddr, .. } => copy_bytes(uaddr),
            FutexBpfEvent::WaitPending { uaddr, .. } => copy_bytes(uaddr),
            _ => Vec::new(),
        };
        let ghost k = (true, tid, root_pid, key_uaddr@);
        let ghost before = self.stats_closure_events@;
        assert(entries_view(before).len() == before.len());
        match self.find_key(true, tid, root_pid, &key_uaddr) {
            None => {
                let v = if elapsed {
                    StatsClosureValue::Wait(Some(ev), None)
                } else {
                    StatsClosureValue::Wait(None, Some(ev))
                };
                self.stats_closure_events.push((StatsClosureKey::Wait { tid, root_pid, uaddr: key_uaddr }, v));
                assert(entries_view(self.stats_closure_events@) =~= entries_view(before).push((k, v)));
            },
            Some(i) => {
                let ghost found = find_entry(entries_view(before), k);
                assert(entries_view(before)[i as int] == (key_view(before[i as int].0), before[i as int].1));
                proof {
                    lemma_find_entry_hit(entries_view(before), k, i as int);
                }
                let (key, old_v) = self.stats_closure_events.remove(i);
                assert(key_view(key) == k);
                match old_v {
                    StatsClosureValue::Wait(c, p) => {
                        let v = if elapsed {
                            StatsClosureValue::Wait(Some(ev), p)
                        } else {
                            StatsClosureValue::Wait(c, Some(ev))
                        };
                        self.stats_closure_events.insert(i, (key, v));
                        assert(entries_view(self.stats_closure_events@) =~= entries_view(before).update(i as int, (k, v)));
                    },
                    other => {
                        self.stats_closure_events.insert(i, (key, other));
                        assert(self.stats_closure_events@ =~= before);
                    },
                }
            },
        }
    }

    /// Closes the open frame: derives one event per key and remembers the frame's instant.
    fn close_frame(&mut self) -> (r: Result<(), ReduceError>)
        ensures
            match futex_step(old(self)@, FutexBpfEvent::MapStatsEnd) {
                Ok(s) => r is Ok && final(self)@ == s,
                Err(e) => r == Err::<(), ReduceError>(e),
            },
            r is Err ==> final(self)@.events == old(self)@.events && final(self)@.new_pids == old(self)@.new_pids,
            r is Err ==> final(self)@.entries == old(self)@.entries || final(self)@.entries.len() == 0,
            final(self).frame() == old(self).frame(),
    {
        let t = match self.state {
            Some(Some(t)) => t,
            _ => return Err(ReduceError::EndOutsideClosure),
        };
        let prev = self.prev_instant_ns;
        match prev {
            Some(p) => if p > t {
                return Err(ReduceError::InstantWentBack);
            },
            None => {},
        }
        let ghost s0 = self@;
        let mut entries: Vec<(StatsClosureKey, StatsClosureValue)> = Vec::new();
        std::mem::swap(&mut entries, &mut self.stats_closure_events);
        assert(entries_view(self.stats_closure_events@) =~= Seq::<(KeyView, StatsClosureValue)>::empty());
        let ghost all = entries@;
        let ghost n = entries@.len();
        assert(s0.entries == entries_view(all));
        let mut out: Vec<FutexEvent> = Vec::new();
        let ghost k: int = 0;
        assert(entries_view(all).subrange(0, 0) =~= Seq::<(KeyView, StatsClosureValue)>::empty());
        while entries.len() > 0
            invariant
                0 <= k <= n,
                n == all.len(),
                entries@ == all.subrange(k, n as int),
                closure_outputs(entries_view(all).subrange(0, k), t, prev) == Ok::<Seq<FutexEvent>, ReduceError>(out@),
                instants_ordered(t, prev),
                self.frame() == old(self).frame(),
                self@ == (FutexState { entries: Seq::empty(), ..s0 }),
                s0 == old(self)@,
                s0.entries == entries_view(all),
                s0.closure == Some(Some(t)),
                prev == s0.prev_instant_ns,
            decreases entries@.len(),
        {
            let (_key, v) = entries.remove(0);
            proof {
                assert(entries_view(all).subrange(0, k + 1).drop_last() =~= entries_view(all).subrange(0, k));
                assert(entries_view(all).subrange(0, k + 1).last() == entries_view(all)[k]);
                assert(all[k] == (_key, v));
                k = k + 1;
            }
            match FutexEvent::from_stats_closure_value(v, t, prev) {
                Ok(e) => {
                    out.push(e);
                },
                Err(err) => {
                    proof {
                        lemma_outputs_err_prefix(entries_view(all), k, n as int, t, prev, err);
                        assert(entries_view(all).subrange(0, n as int) =~= entries_view(all));
                    }
                    return Err(err);
                },
            }
            assert(entries@ =~= all.subrange(k, n as int));
        }
        assert(entries_view(all).subrange(0, k) =~= entries_view(all));
        let ghost before = self.events@;
        self.events.append(&mut out);
        self.state = None;
        self.prev_instant_ns = Some(t);
        assert(self.events@ =~= before + closure_outputs(s0.entries, t, prev).unwrap());
        assert(entries_view(self.stats_closure_events@) =~= Seq::<(KeyView, StatsClosureValue)>::empty());
        Ok(())
    }
}

/// What a call of `poll_bytes` did, given the records `recs` it framed and the typed
/// lines `evs` it applied.
pub open spec fn poll_outcome(
    old_frame: FrameState,
    new_frame: FrameState,
    buf: Seq<u8>,
    old_state: FutexState,
    new_state: FutexState,
    r: Result<usize, ReduceError>,
    recs: Seq<Seq<u8>>,
    evs: Seq<FutexBpfEvent>,
) -> bool {
    &&& frame_run(old_frame, buf) == (new_frame, recs)
    &&& evs.len() <= recs.len()
    &&& forall|i: int| 0 <= i < evs.len() ==> futex_event_of(recs[i], #[trigger] evs[i])
    &&& match r {
        Ok(n) => evs.len() == recs.len() && futex_run(old_state, evs) == Ok::<FutexState, ReduceError>(new_state)
            && n == new_state.events.len(),
        Err(e) => evs.len() > 0 && futex_run(old_state, evs) == Err::<FutexState, ReduceError>(e) && match futex_run(old_state, evs.drop_last()) {
            Ok(s1) => new_state.events == s1.events && new_state.new_pids == s1.new_pids,
            Err(_) => false,
        },
    }
}

impl FutexProgram {
    /// Consumes a chunk of the script's output: frames it into records, types each one and
    /// applies it, stopping at the first reducer error. Returns the number of derived events
    /// waiting to be taken.
    pub fn poll_bytes(&mut self, buf: &[u8]) -> (r: Result<usize, ReduceError>)
        ensures
            exists|recs: Seq<Seq<u8>>, evs: Seq<FutexBpfEvent>|
                #[trigger] poll_outcome(old(self).frame(), final(self).frame(), buf@, old(self)@, final(self)@, r, recs, evs),
    {
        let recs = self.reader.handle_bytes(buf);
        let ghost rv = views(recs@);
        let ghost s0 = old(self)@;
        let ghost mut evs: Seq<FutexBpfEvent> = Seq::empty();
        let mut recs = recs;
        let ghost all = recs@;
        let n = recs.len();
        let mut i: usize = 0;
        assert(rv.len() == n);
        while recs.len() > 0
            invariant
                n == all.len(),
                rv == views(all),
                recs@ == all.subrange(i as int, n as int),
                recs@.len() == n - i,
                0 <= i <= n,
                s0 == old(self)@,
                evs.len() == i,
                forall|j: int| 0 <= j < evs.len() ==> futex_event_of(rv[j], #[trigger] evs[j]),
                futex_run(s0, evs) == Ok::<FutexState, ReduceError>(self@),
                frame_run(old(self).frame(), buf@) == (self.frame(), rv),
            decreases recs@.len(),
        {
            assert(i < n);
            let rec = recs.remove(0);
            assert(rec@ == rv[i as int]);
            let e = FutexBpfEvent::from_bytes(rec);
            let ghost e_spec = e;
            let ghost before = self@;
            let res = self.handle_event(e);
            proof {
                assert(evs.push(e_spec).drop_last() =~= evs);
                evs = evs.push(e_spec);
                assert(futex_run(s0, evs) == futex_step(before, e_spec));
            }
            i = i + 1;
            assert(recs@ =~= all.subrange(i as int, n as int));
            match res {
                Ok(()) => {},
                Err(err) => {
                    assert(poll_outcome(old(self).frame(), self.frame(), buf@, s0, self@, Err::<usize, ReduceError>(err), rv, evs));
                    return Err(err);
                },
            }
        }
        let count = self.events.len();
        assert(poll_outcome(old(self).frame(), self.frame(), buf@, s0, self@, Ok::<usize, ReduceError>(count), rv, evs));
        Ok(count)
    }

    /// Takes the derived events of thread `tid`, in the order they were derived.
    pub fn take_futex_events(&mut self, tid: u64) -> (r: Vec<FutexEvent>)
        ensures
            r@ == old(self)@.events.filter(of_thread(tid)),
            final(self)@ == (FutexState {
                events: old(self)@.events.filter(not_of_thread(tid)),
                ..old(self)@
            }),
            final(self).frame() == old(self).frame(),
    {
        let mut all: Vec<FutexEvent> = Vec::new();
        std::mem::swap(&mut all, &mut self.events);
        let ghost orig = all@;
        let n = all.len();
        let mut taken: Vec<FutexEvent> = Vec::new();
        let mut i: usize = 0;
        assert(orig.subrange(0, 0) =~= Seq::<FutexEvent>::empty());
        proof {
            reveal(Seq::filter);
        }
        while all.len() > 0
            invariant
                n == orig.len(),
                0 <= i <= n,
                all@ == orig.subrange(i as int, n as int),
                taken@ == orig.subrange(0, i as int).filter(of_thread(tid)),
                self.events@ == orig.subrange(0, i as int).filter(not_of_thread(tid)),
                self.frame() == old(self).frame(),
                orig == old(self)@.events,
                self.new_pids == old(self).new_pids,
                self.state == old(self).state,
                self.stats_closure_events == old(self).stats_closure_events,
                self.prev_instant_ns == old(self).prev_instant_ns,
            decreases all@.len(),
        {
            assert(all@.len() == n - i);
            assert(i < n);
            let e = all.remove(0);
            assert(orig.subrange(0, i + 1).drop_last() =~= orig.subrange(0, i as int));
            assert(orig.subrange(0, i + 1).last() == e);
            let et = match &e {
                FutexEvent::Wait { tid, .. } => *tid,
                FutexEvent::Wake { tid, .. } => *tid,
            };
            assert(et == futex_event_tid(e));
            assert(of_thread(tid)(e) == (et == tid));
            assert(not_of_thread(tid)(e) == (et != tid));
            let ghost pre = orig.subrange(0, i as int);
            let ghost post = orig.subrange(0, i + 1);
            assert(post =~= pre.push(e));
            proof {
                pre.lemma_filter_push(e, of_thread(tid));
                pre.lemma_filter_push(e, not_of_thread(tid));
            }
            assert(post.filter(of_thread(tid)) == (if of_thread(tid)(e) { pre.filter(of_thread(tid)).push(e) } else { pre.filter(of_thread(tid)) }));
            assert(post.filter(not_of_thread(tid)) == (if not_of_thread(tid)(e) { pre.filter(not_of_thread(tid)).push(e) } else { pre.filter(not_of_thread(tid)) }));
            if et == tid {
                taken.push(e);
            } else {
                self.events.push(e);
            }
            i = i + 1;
            assert(all@ =~= orig.subrange(i as int, n as int));
        }
        assert(orig.subrange(0, n as int) =~= orig);
        taken
    }

    /// Takes the processes announced by the script since the last call.
    pub fn take_new_pid_events(&mut self) -> (r: Vec<(Vec<u8>, u64)>)
        ensures
            r@ == old(self)@.new_pids,
            final(self)@ == (FutexState { new_pids: Seq::empty(), ..old(self)@ }),
            final(self).frame() == old(self).frame(),
    {
        let mut out: Vec<(Vec<u8>, u64)> = Vec::new();
        std::mem::swap(&mut out, &mut self.new_pids);
        out
    }
}

/// The futex word address text of a wait fragment.
pub open spec fn ev_uaddr(e: FutexBpfEvent) -> Vec<u8> {
    match e {
        FutexBpfEvent::WaitElapsed { uaddr, .. } => uaddr,
        FutexBpfEvent::WaitPending { uaddr, .. } => uaddr,
        _ => arbitrary(),
    }
}

/// The first entry found for a key holds that key.
proof fn lemma_find_entry_hit(es: Seq<(KeyView, StatsClosureValue)>, k: KeyView, i: int)
    requires
        0 <= i < es.len(),
        find_entry(es, k) == i,
    ensures
        es[i].0 == k,
        find_entry_from(es, k, i) == i,
{
    lemma_find_entry_from_result(es, k, 0);
}

proof fn lemma_find_entry_from_result(es: Seq<(KeyView, StatsClosureValue)>, k: KeyView, j: int)
    requires
        0 <= j,
    ensures
        find_entry_from(es, k, j) >= 0 ==> (j <= find_entry_from(es, k, j) < es.len() && es[find_entry_from(es, k, j)].0 == k
            && find_entry_from(es, k, find_entry_from(es, k, j)) == find_entry_from(es, k, j)),
    decreases es.len() - j,
{
    if j < es.len() && es[j].0 != k {
        lemma_find_entry_from_result(es, k, j + 1);
    }
}

/// Once a prefix of the entries fails to reduce, so do all longer prefixes.
proof fn lemma_outputs_err_prefix(es: Seq<(KeyView, StatsClosureValue)>, k: int, n: int, t: u64, prev: Option<u64>, err: ReduceError)
    requires
        0 <= k <= n <= es.len(),
        closure_outputs(es.subrange(0, k), t, prev) == Err::<Seq<FutexEvent>, ReduceError>(err),
    ensures
        closure_outputs(es.subrange(0, n), t, prev) == Err::<Seq<FutexEvent>, ReduceError>(err),
    decreases n - k,
{
    if k < n {
        lemma_outputs_err_prefix(es, k, n - 1, t, prev, err);
        assert(es.subrange(0, n).drop_last() =~= es.subrange(0, n - 1));
    }
}

} // verus!
