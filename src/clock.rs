use vstd::prelude::*;

verus! {

/// Relies on `SystemTime::now().duration_since(UNIX_EPOCH)`: the nanoseconds since
/// the Unix epoch, or `None` when the system clock is set before it. Nothing is
/// promised of the value: it is the time.
#[verifier::external_body]
pub(crate) fn unix_time_nanos() -> (r: Option<u128>) {
    std::time::SystemTime::now().duration_since(std::time::UNIX_EPOCH).ok().map(|d| d.as_nanos())
}

/// The seed a clock reading gives: its nanoseconds truncated to 64 bits,
/// 12345 without a reading.
pub open spec fn seed_from_reading(reading: Option<u128>) -> u64 {
    match reading {
        Some(n) => (n % 0x1_0000_0000_0000_0000) as u64,
        None => 12345,
    }
}

/// Turns a clock reading into a seed.
pub fn seed_from_clock(reading: Option<u128>) -> (r: u64)
    ensures
        r == seed_from_reading(reading),
{
    match reading {
        Some(n) => (n % 0x1_0000_0000_0000_0000) as u64,
        None => 12345,
    }
}

/// A fresh seed from the clock.
pub fn generate_seed() -> (r: u64) {
    seed_from_clock(unix_time_nanos())
}

/// Whole seconds of a clock reading (0 without one), capped at `u64::MAX`.
pub open spec fn secs_from_reading(reading: Option<u128>) -> u64 {
    match reading {
        Some(n) => if n / 1_000_000_000 > u64::MAX {
            u64::MAX
        } else {
            (n / 1_000_000_000) as u64
        },
        None => 0,
    }
}

/// The low 16 bits of the sub-second nanoseconds of a reading (0 without one).
pub open spec fn noise_from_reading(reading: Option<u128>) -> u16 {
    match reading {
        Some(n) => ((n % 1_000_000_000) % 65536) as u16,
        None => 0,
    }
}

/// Turns a clock reading into whole seconds.
pub fn secs_from_clock(reading: Option<u128>) -> (r: u64)
    ensures
        r == secs_from_reading(reading),
{
    match reading {
        Some(n) => {
            let secs = n / 1_000_000_000;
            if secs > u64::MAX as u128 {
                u64::MAX
            } else {
                secs as u64
            }
        },
        None => 0,
    }
}

/// Turns a clock reading into 16 bits of noise.
pub fn noise_from_clock(reading: Option<u128>) -> (r: u16)
    ensures
        r == noise_from_reading(reading),
{
    match reading {
        Some(n) => ((n % 1_000_000_000) % 65536) as u16,
        None => 0,
    }
}

/// Seconds since the Unix epoch, 0 without a reading.
pub fn unix_time_secs() -> (r: u64) {
    secs_from_clock(unix_time_nanos())
}

/// The low 16 bits of the sub-second nanoseconds of the clock, 0 without a reading.
pub fn rand_u16() -> (r: u16) {
    noise_from_clock(unix_time_nanos())
}

} // verus!
