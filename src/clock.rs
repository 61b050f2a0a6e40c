//! Mapping of tracer instants (nanoseconds since boot) onto wall-clock time.
use vstd::prelude::*;

verus! {

/// Nanoseconds in one millisecond.
pub const NS_PER_MS: u128 = 1_000_000;

/// Milliseconds in one minute.
pub const MS_PER_MINUTE: u128 = 60_000;

/// Wall-clock nanoseconds since the epoch of an instant given in nanoseconds since boot.
pub open spec fn epoch_ns_spec(boot_epoch_ns: int, boot_ns: int) -> int {
    boot_epoch_ns + boot_ns
}

/// Start, in seconds since the epoch, of the minute that holds `epoch_ms`.
pub open spec fn minute_bucket_spec(epoch_ms: int) -> int {
    (epoch_ms / 60_000) * 60
}

/// Converts an instant in nanoseconds since boot to nanoseconds since the epoch, given
/// the epoch instant of the boot (`BOOT_EPOCH_NS`, computed once at start-up).
pub fn boot_to_epoch(boot_epoch_ns: u128, boot_ns: u128) -> (r: u128)
    requires
        boot_epoch_ns + boot_ns <= u128::MAX,
    ensures
        r == epoch_ns_spec(boot_epoch_ns as int, boot_ns as int),
{
    boot_epoch_ns + boot_ns
}

/// Milliseconds since the epoch of an instant given in nanoseconds since the epoch.
pub fn epoch_ms_of(epoch_ns: u128) -> (r: u128)
    ensures
        r == epoch_ns / 1_000_000,
{
    epoch_ns / NS_PER_MS
}

/// The minute bucket of a file partition: `(epoch_ms / 60000) * 60`, in seconds.
pub fn minute_bucket(epoch_ms: u128) -> (r: u128)
    ensures
        r == minute_bucket_spec(epoch_ms as int),
{
    (epoch_ms / MS_PER_MINUTE) * 60
}

} // verus!
