//! The clone dialect: thread and process lifecycle events.
use vstd::prelude::*;

use crate::lits::{is_new_process, is_new_thread, is_remove_process, lit_new_process, lit_new_thread, lit_remove_process};
use crate::text::{split, split_spec, trim, trim_spec, views};
use crate::wire::{field_text, field_u64, fu64};

verus! {

/// A thread or process appearing or leaving.
#[derive(Debug, PartialEq, Eq, Clone)]
pub enum CloneEvent {
    NewThread { comm: Vec<u8>, pid: u64, tid: u64 },
    NewProcess(Vec<u8>, u64),
    RemoveProcess(u64),
    Unexpected { data: Vec<u8> },
}

/// What a line of the clone script denotes: tab-separated fields, the first (trimmed)
/// being the tag; anything else, or a malformed known line, is `Unexpected`.
pub open spec fn clone_event_of(s: Seq<u8>, e: CloneEvent) -> bool {
    let f = split_spec(s, 9);
    let tag = trim_spec(f[0]);
    if tag == lit_new_thread() && f.len() >= 4 && fu64(f, 2) is Some && fu64(f, 3) is Some {
        match e {
            CloneEvent::NewThread { comm, pid, tid } => comm@ == trim_spec(f[1]) && pid == fu64(f, 2).unwrap() && tid == fu64(f, 3).unwrap(),
            _ => false,
        }
    } else if tag == lit_new_process() && f.len() >= 3 && fu64(f, 2) is Some {
        match e {
            CloneEvent::NewProcess(comm, pid) => comm@ == f[1] && pid == fu64(f, 2).unwrap(),
            _ => false,
        }
    } else if tag == lit_remove_process() && fu64(f, 1) is Some {
        e == CloneEvent::RemoveProcess(fu64(f, 1).unwrap())
    } else {
        match e {
            CloneEvent::Unexpected { data } => data@ == s,
            _ => false,
        }
    }
}

impl CloneEvent {
    /// Types one record of the clone script.
    pub fn from_bytes(value: Vec<u8>) -> (r: Self)
        ensures
            clone_event_of(value@, r),
    {
        let f = split(value.as_slice(), 9);
        assert(views(f@)[0] == f@[0]@);
        let tag = trim(f[0].as_slice());
        if is_new_thread(tag.as_slice()) && f.len() >= 4 {
            assert(views(f@)[1] == f@[1]@);
            match (field_u64(&f, 2), field_u64(&f, 3)) {
                (Some(pid), Some(tid)) => {
                    let comm = trim(f[1].as_slice());
                    return CloneEvent::NewThread { comm, pid, tid };
                },
                _ => {},
            }
        } else if is_new_process(tag.as_slice()) && f.len() >= 3 {
            match (field_text(&f, 1), field_u64(&f, 2)) {
                (Some(comm), Some(pid)) => return CloneEvent::NewProcess(comm, pid),
                _ => {},
            }
        } else if is_remove_process(tag.as_slice()) {
            match field_u64(&f, 1) {
                Some(pid) => return CloneEvent::RemoveProcess(pid),
                None => {},
            }
        }
        CloneEvent::Unexpected { data: value }
    }
}

impl CloneEvent {
    /// The process a `NewProcess` event announces.
    pub fn new_process_pid(&self) -> (r: Option<u64>)
        ensures
            r == (match *self {
                CloneEvent::NewProcess(_, pid) => Some(pid),
                _ => None,
            }),
    {
        match self {
            CloneEvent::NewProcess(_, pid) => Some(*pid),
            _ => None,
        }
    }
}

} // verus!
