//! The stat-closure reducer's shared rule: how much of a still-pending wait belongs to
//! the frame that a `SampleInstant` closes.
use vstd::prelude::*;

verus! {

/// Why a framed map dump could not be reduced.
#[derive(PartialEq, Eq, Debug, Clone, Copy)]
pub enum ReduceError {
    /// `=> end map statistics` arrived with no open frame, or with no instant in it.
    EndOutsideClosure,
    /// `SampleInstant` arrived outside a frame, or twice in one.
    InstantOutsideClosure,
    /// A frame's instant lies before the previous frame's instant.
    InstantWentBack,
    /// A key with neither a cached nor a pending entry, or entries of the wrong kind.
    InconsistentEntry,
    /// A derived total does not fit in 64 bits.
    Overflow,
}

/// Wait imputed to the frame closing at `t_curr` for a wait pending since `pending`,
/// given the previous frame's instant `t_prev`.
pub open spec fn pending_extra(pending: Option<u64>, t_curr: u64, t_prev: Option<u64>) -> int {
    match pending {
        None => 0,
        Some(ns) => match t_prev {
            Some(p) => if ns > p {
                if t_curr >= ns {
                    t_curr - ns
                } else {
                    0
                }
            } else {
                t_curr - p
            },
            None => if t_curr >= ns {
                t_curr - ns
            } else {
                0
            },
        },
    }
}

/// The instants of consecutive frames do not go back.
pub open spec fn instants_ordered(t_curr: u64, t_prev: Option<u64>) -> bool {
    match t_prev {
        Some(p) => p <= t_curr,
        None => true,
    }
}

/// Computes the pending wait imputed to the frame closing at `t_curr`.
pub fn pending_wait(pending: Option<u64>, t_curr: u64, t_prev: Option<u64>) -> (r: u64)
    requires
        instants_ordered(t_curr, t_prev),
    ensures
        r == pending_extra(pending, t_curr, t_prev),
        r <= t_curr,
{
    match pending {
        None => 0,
        Some(ns) => match t_prev {
            Some(p) => if ns > p {
                if t_curr >= ns {
                    t_curr - ns
                } else {
                    0
                }
            } else {
                t_curr - p
            },
            None => if t_curr >= ns {
                t_curr - ns
            } else {
                0
            },
        },
    }
}

/// Cached total plus imputed pending wait.
pub open spec fn derived_wait(cached: u64, pending: Option<u64>, t_curr: u64, t_prev: Option<u64>) -> int {
    cached + pending_extra(pending, t_curr, t_prev)
}

/// Computes the derived wait of a frame, failing with `Overflow` past 64 bits.
pub fn derive_wait(cached: u64, pending: Option<u64>, t_curr: u64, t_prev: Option<u64>) -> (r:
    Result<u64, ReduceError>)
    requires
        instants_ordered(t_curr, t_prev),
    ensures
        derived_wait(cached, pending, t_curr, t_prev) <= u64::MAX ==> r == Ok::<u64, ReduceError>(
            derived_wait(cached, pending, t_curr, t_prev) as u64,
        ),
        derived_wait(cached, pending, t_curr, t_prev) > u64::MAX ==> r == Err::<u64, ReduceError>(
            ReduceError::Overflow,
        ),
{
    let extra = pending_wait(pending, t_curr, t_prev);
    match cached.checked_add(extra) {
        Some(v) => Ok(v),
        None => Err(ReduceError::Overflow),
    }
}

} // verus!
