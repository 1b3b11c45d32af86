//! Transfer rates and the shared bandwidth budget of one download, in whole
//! bytes and nanoseconds.
use vstd::prelude::*;

verus! {

/// Average rate of `bytes` over `elapsed_nanos`, rounded down; zero when no
/// time has passed; at most `u64::MAX`.
pub open spec fn spec_bytes_per_second(bytes: u64, elapsed_nanos: u64) -> u64 {
    if elapsed_nanos == 0 {
        0
    } else {
        let q = (bytes as int) * 1_000_000_000 / (elapsed_nanos as int);
        if q > u64::MAX { u64::MAX } else { q as u64 }
    }
}

pub fn bytes_per_second(bytes: u64, elapsed_nanos: u64) -> (r: u64)
    ensures
        r == spec_bytes_per_second(bytes, elapsed_nanos),
{
    if elapsed_nanos == 0 {
        return 0;
    }
    let scaled = (bytes as u128) * 1_000_000_000u128;
    proof {
        assert((bytes as u128) * 1_000_000_000u128 <= 0xFFFF_FFFF_FFFF_FFFFu128 * 1_000_000_000u128) by (nonlinear_arith);
    }
    let q = scaled / (elapsed_nanos as u128);
    if q > u64::MAX as u128 {
        u64::MAX
    } else {
        q as u64
    }
}

/// Time that `bytes` take at `bytes_per_second`, in nanoseconds rounded down,
/// at most `u64::MAX`.
pub open spec fn spec_transfer_duration(bytes: u64, bytes_per_second: u64) -> u64 {
    let q = (bytes as int) * 1_000_000_000 / (bytes_per_second as int);
    if q > u64::MAX { u64::MAX } else { q as u64 }
}

pub fn transfer_duration(bytes: u64, bytes_per_second: u64) -> (r: u64)
    requires
        bytes_per_second > 0,
    ensures
        r == spec_transfer_duration(bytes, bytes_per_second),
{
    let scaled = (bytes as u128) * 1_000_000_000u128;
    proof {
        assert((bytes as u128) * 1_000_000_000u128 <= 0xFFFF_FFFF_FFFF_FFFFu128 * 1_000_000_000u128) by (nonlinear_arith);
    }
    let q = scaled / (bytes_per_second as u128);
    if q > u64::MAX as u128 {
        u64::MAX
    } else {
        q as u64
    }
}

/// One reservation of the shared budget: the point in time from which the
/// next chunk may pass, and how long the caller waits now. Without a limit,
/// or for an empty chunk, nothing changes and nobody waits. Otherwise the
/// chunk is scheduled after the later of the previous reservation and now.
pub open spec fn spec_reserve(next_available: u64, now: u64, bytes: u64, bytes_per_second: u64) -> (u64, u64) {
    if bytes_per_second == 0 || bytes == 0 {
        (next_available, 0)
    } else {
        let start = if next_available < now { now } else { next_available };
        let end = start + spec_transfer_duration(bytes, bytes_per_second);
        let next = if end > u64::MAX { u64::MAX } else { end as u64 };
        (next, (next - now) as u64)
    }
}

pub fn reserve_bandwidth(next_available: u64, now: u64, bytes: u64, bytes_per_second: u64) -> (r: (u64, u64))
    ensures
        r == spec_reserve(next_available, now, bytes, bytes_per_second),
        bytes_per_second > 0 && bytes > 0 ==> r.0 >= now && r.1 == r.0 - now,
{
    if bytes_per_second == 0 || bytes == 0 {
        return (next_available, 0);
    }
    let start = if next_available < now { now } else { next_available };
    let next = start.saturating_add(transfer_duration(bytes, bytes_per_second));
    (next, next - now)
}


/// The limit holds for the transfer as a whole: when chunks share one
/// budget, each reservation starts after the previous one ends, so a chunk
/// reserved after another cannot pass before that one's time is used up.
pub proof fn law_reservations_queue_up(
    next_available: u64,
    first_at: u64,
    first_bytes: u64,
    second_at: u64,
    second_bytes: u64,
    bytes_per_second: u64,
)
    requires
        bytes_per_second > 0,
        first_bytes > 0,
        second_bytes > 0,
    ensures
        ({
            let first = spec_reserve(next_available, first_at, first_bytes, bytes_per_second);
            let second = spec_reserve(first.0, second_at, second_bytes, bytes_per_second);
            &&& first.0 >= first_at
            &&& second.0 >= first.0
            &&& second.0 < u64::MAX ==> second.0 >= first.0 + spec_transfer_duration(
                second_bytes,
                bytes_per_second,
            )
        }),
{
}

} // verus!
