//! Terminal recovery: how long to wait before the device restarts.
use vstd::prelude::*;

verus! {

/// The wait before a restart, in seconds: five, doubled for each attempt up to the third.
pub open spec fn backoff(attempt: int) -> int {
    if attempt <= 0 {
        5
    } else if attempt == 1 {
        10
    } else if attempt == 2 {
        20
    } else {
        40
    }
}

pub fn backoff_seconds(attempt: u32) -> (seconds: u64)
    ensures
        seconds == backoff(attempt as int),
{
    match attempt {
        0 => 5,
        1 => 10,
        2 => 20,
        _ => 40,
    }
}

/// The wait in milliseconds, with up to a second of jitter so that devices do not restart
/// together.
pub fn delay_ms(seconds: u64, random: u32) -> (delay: u64)
    requires
        seconds * 1000 + random % 1000 <= u64::MAX,
    ensures
        delay == seconds * 1000 + random % 1000,
{
    seconds * 1000 + (random % 1000) as u64
}

/// Whatever the attempt and the random number, the wait lies between 5 and 41 seconds, and it
/// never gets shorter with further attempts.
pub proof fn lemma_waits_are_bounded(attempt: int, later: int, random: u32)
    requires
        0 <= attempt <= later,
    ensures
        5 <= backoff(attempt) <= backoff(later) <= 40,
        5_000 <= backoff(attempt) * 1000 + random % 1000 < 41_000,
{
}

/// The wait doubles with each of the first three attempts: five seconds, ten, twenty and forty,
/// and stays there.
pub proof fn lemma_waits_double(attempt: int)
    requires
        0 <= attempt,
    ensures
        backoff(0) == 5,
        attempt < 3 ==> backoff(attempt + 1) == 2 * backoff(attempt),
        attempt >= 3 ==> backoff(attempt + 1) == backoff(attempt),
{
}

} // verus!
