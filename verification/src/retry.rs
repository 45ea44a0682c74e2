//! How long a client waits before it connects again.

use vstd::arithmetic::power2::{lemma2_to64, lemma_pow2_strictly_increases, lemma_pow2_unfold, pow2};
use vstd::prelude::*;

verus! {

/// The longest that a client waits, in seconds.
pub const MAX_BACKOFF_SECS: u64 = 60;

/// The most that a client waits after that many attempts in a row, in seconds: one at first, twice
/// as much each time, and never more than `MAX_BACKOFF_SECS`.
pub open spec fn backoff_of(attempt: int) -> int {
    let doubled = pow2((attempt - 1) as nat) as int;
    if doubled < MAX_BACKOFF_SECS {
        doubled
    } else {
        MAX_BACKOFF_SECS as int
    }
}

/// The attempts in a row to connect.
#[derive(Clone, Copy, Debug, PartialEq, Eq)]
pub struct Retry {
    attempt: i32,
}

impl View for Retry {
    type V = int;

    closed spec fn view(&self) -> int {
        self.attempt as int
    }
}

impl Retry {
    /// No attempt yet.
    pub fn new() -> (retry: Retry)
        ensures
            retry@ == 0,
    {
        Retry { attempt: 0 }
    }

    /// How many attempts there were.
    pub fn attempt(&self) -> (attempt: i32)
        ensures
            attempt == self@,
    {
        self.attempt
    }

    /// Another attempt begins.
    pub fn begin(&mut self)
        requires
            old(self)@ < i32::MAX,
        ensures
            final(self)@ == old(self)@ + 1,
    {
        self.attempt = self.attempt + 1;
    }

    /// The most that the client waits if this attempt fails, in seconds.
    pub fn backoff_secs(&self) -> (secs: u64)
        requires
            self@ >= 1,
        ensures
            secs == backoff_of(self@),
    {
        proof {
            lemma2_to64();
            if self@ > 7 {
                lemma_pow2_strictly_increases(6, (self@ - 1) as nat);
            }
        }
        match self.attempt {
            1 => 1,
            2 => 2,
            3 => 4,
            4 => 8,
            5 => 16,
            6 => 32,
            _ => MAX_BACKOFF_SECS,
        }
    }

    /// The attempt has ended. Where the connection was made and closed as it should be, the count
    /// starts over and the client connects again at once; else it waits first, for a time by chance
    /// below the number of seconds that comes back.
    pub fn ended(&mut self, gracefully: bool) -> (wait: Option<u64>)
        requires
            old(self)@ >= 1,
        ensures
            gracefully ==> wait is None && final(self)@ == 0,
            !gracefully ==> wait is Some && wait->0 == backoff_of(old(self)@),
            !gracefully ==> final(self)@ == old(self)@,
    {
        if gracefully {
            self.attempt = 0;
            None
        } else {
            Some(self.backoff_secs())
        }
    }
}

/// The wait is a second after the first failure, doubles with each failure that follows up to the
/// limit, and stays at the limit from then on.
pub proof fn law_backoff(attempt: int)
    requires
        attempt >= 1,
    ensures
        backoff_of(1) == 1,
        1 <= backoff_of(attempt) <= MAX_BACKOFF_SECS,
        backoff_of(attempt) <= backoff_of(attempt + 1),
        2 * backoff_of(attempt) <= MAX_BACKOFF_SECS ==> backoff_of(attempt + 1) == 2 * backoff_of(
            attempt,
        ),
        2 * backoff_of(attempt) > MAX_BACKOFF_SECS ==> backoff_of(attempt + 1)
            == MAX_BACKOFF_SECS,
{
    lemma2_to64();
    lemma_pow2_unfold(attempt as nat);
    if attempt > 1 {
        lemma_pow2_strictly_increases(0, (attempt - 1) as nat);
    }
}

/// A client that fails again and again waits for at most 1, 2, 4, 8, 16 and 32 seconds, and from
/// the seventh failure on for at most a minute.
pub proof fn law_waits(attempt: int)
    requires
        attempt >= 1,
    ensures
        attempt < 7 ==> backoff_of(attempt) == pow2((attempt - 1) as nat),
        attempt >= 7 ==> backoff_of(attempt) == 60,
{
    lemma2_to64();
    if attempt > 7 {
        lemma_pow2_strictly_increases(6, (attempt - 1) as nat);
    }
    if attempt < 6 {
        lemma_pow2_strictly_increases((attempt - 1) as nat, 5);
    }
}

} // verus!
