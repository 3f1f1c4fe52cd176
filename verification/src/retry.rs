//! The retry policy of a batch upload: up to twenty attempts, waiting with
//! exponential backoff between refused ones.
use vstd::prelude::*;

verus! {

/// How many times a batch is offered before the upload gives up.
pub const MAX_SEND_ATTEMPTS: u32 = 20u32;

/// Two to the power `e`.
pub open spec fn two_to_the(e: nat) -> nat
    decreases e,
{
    if e == 0 {
        1
    } else {
        2 * two_to_the((e - 1) as nat)
    }
}

/// What to do after an attempt.
#[derive(Debug, Clone, Copy, PartialEq, Eq, Structural)]
pub enum RetryAction {
    /// The batch was accepted.
    Done,
    /// The batch was refused: wait this many seconds, then offer it again.
    RetryAfterSecs(u64),
    /// The batch was refused on the last attempt.
    GiveUp,
}

/// The attempts made to upload one batch.
pub struct SendRetry {
    attempt: u32,
}

impl SendRetry {
    /// The number of the current attempt, counted from zero.
    pub closed spec fn attempt(&self) -> nat {
        self.attempt as nat
    }

    /// The first attempt.
    pub fn new() -> (r: SendRetry)
        ensures
            r.attempt() == 0,
    {
        SendRetry { attempt: 0 }
    }

    /// The number of the current attempt, counted from zero.
    pub fn attempt_number(&self) -> (n: u32)
        ensures
            n == self.attempt(),
    {
        self.attempt
    }

    /// Decides after an attempt: an accepted batch is done; a refused one
    /// (an error status, or a request that never got an answer) is offered
    /// again after 2^attempt seconds, unless this was the last of the twenty
    /// attempts.
    pub fn on_response(&mut self, accepted: bool) -> (action: RetryAction)
        requires
            old(self).attempt() < MAX_SEND_ATTEMPTS,
        ensures
            final(self).attempt() < MAX_SEND_ATTEMPTS,
            accepted ==> action == RetryAction::Done && final(self).attempt() == old(self).attempt(),
            !accepted && old(self).attempt() + 1 < MAX_SEND_ATTEMPTS ==> (action
                matches RetryAction::RetryAfterSecs(s) && s == two_to_the(old(self).attempt()))
                && final(self).attempt() == old(self).attempt() + 1,
            !accepted && old(self).attempt() + 1 == MAX_SEND_ATTEMPTS ==> action
                == RetryAction::GiveUp && final(self).attempt() == old(self).attempt(),
    {
        if accepted {
            return RetryAction::Done;
        }
        if self.attempt + 1 >= MAX_SEND_ATTEMPTS {
            return RetryAction::GiveUp;
        }
        let secs = backoff_secs(self.attempt);
        self.attempt = self.attempt + 1;
        RetryAction::RetryAfterSecs(secs)
    }
}

/// 2^attempt seconds, for the attempts that are followed by another.
fn backoff_secs(attempt: u32) -> (s: u64)
    requires
        attempt < MAX_SEND_ATTEMPTS,
    ensures
        s == two_to_the(attempt as nat),
{
    let mut s: u64 = 1;
    let mut k: u32 = 0;
    while k < attempt
        invariant
            k <= attempt < MAX_SEND_ATTEMPTS,
            s == two_to_the(k as nat),
            s <= 1048576,
        decreases attempt - k,
    {
        proof {
            lemma_two_to_the_bound(k as nat);
        }
        s = s * 2;
        k = k + 1;
    }
    s
}

proof fn lemma_two_to_the_monotone(a: nat, b: nat)
    requires
        a <= b,
    ensures
        two_to_the(a) <= two_to_the(b),
    decreases b,
{
    if a < b {
        lemma_two_to_the_monotone(a, (b - 1) as nat);
    }
}

proof fn lemma_two_to_the_bound(e: nat)
    requires
        e < 20,
    ensures
        two_to_the(e) * 2 <= 1048576,
{
    lemma_two_to_the_monotone(e, 19);
    reveal_with_fuel(two_to_the, 20);
    assert(two_to_the(19) == 524288);
}

} // verus!
