//! When to try again to start a stdio server that died: a few attempts,
//! with waits that double up to a ceiling.

use vstd::prelude::*;
use crate::config::ServerConfig;

verus! {

/// How many times a dead server is started again before giving up.
pub const MAX_RESPAWN_ATTEMPTS: u32 = 5;

/// The wait before the first attempt, in seconds.
pub const INITIAL_BACKOFF_SECS: u64 = 1;

/// The longest wait between attempts, in seconds.
pub const MAX_BACKOFF_SECS: u64 = 30;

/// Two to the `n`.
pub open spec fn pow2(n: nat) -> nat
    decreases n,
{
    if n == 0 { 1 } else { 2 * pow2((n - 1) as nat) }
}

/// The wait before attempt `attempt` (counted from 1): doubling from the
/// initial wait, capped at the ceiling.
pub open spec fn backoff_before(attempt: nat) -> nat {
    let d: nat = (INITIAL_BACKOFF_SECS as nat) * pow2((attempt - 1) as nat);
    if d > MAX_BACKOFF_SECS { MAX_BACKOFF_SECS as nat } else { d }
}

/// Only servers started from a command are started again.
pub fn should_respawn(config: &ServerConfig) -> (r: bool)
    ensures
        r == config.command is Some,
{
    config.command.is_some()
}

/// The state of the attempts to start a dead server again.
pub struct RespawnSchedule {
    attempt: u32,
    delay_secs: u64,
}

impl RespawnSchedule {
    /// The attempt about to be made, counted from 1.
    pub closed spec fn attempt(&self) -> nat {
        self.attempt as nat
    }

    /// The wait before that attempt, in seconds.
    pub closed spec fn delay(&self) -> nat {
        self.delay_secs as nat
    }

    /// The schedule's invariant: a valid attempt with its wait.
    pub open spec fn wf(&self) -> bool {
        &&& 1 <= self.attempt() <= MAX_RESPAWN_ATTEMPTS
        &&& self.delay() == backoff_before(self.attempt())
    }

    /// The schedule of a server that just died: the first attempt, after
    /// the initial wait.
    pub fn new() -> (r: Self)
        ensures
            r.wf(),
            r.attempt() == 1,
            r.delay() == INITIAL_BACKOFF_SECS,
    {
        RespawnSchedule { attempt: 1, delay_secs: INITIAL_BACKOFF_SECS }
    }

    /// The attempt about to be made.
    pub fn attempt_number(&self) -> (r: u32)
        ensures
            r == self.attempt(),
    {
        self.attempt
    }

    /// The wait before the attempt, in seconds.
    pub fn delay_secs(&self) -> (r: u64)
        ensures
            r == self.delay(),
    {
        self.delay_secs
    }

    /// After a failed attempt: whether another one is made, and if so the
    /// schedule moves to it, with the wait doubled up to the ceiling.
    pub fn after_failure(&mut self) -> (again: bool)
        requires
            old(self).wf(),
        ensures
            again == (old(self).attempt() < MAX_RESPAWN_ATTEMPTS),
            again ==> final(self).wf() && final(self).attempt() == old(self).attempt() + 1,
            !again ==> *final(self) == *old(self),
    {
        if self.attempt >= MAX_RESPAWN_ATTEMPTS {
            return false;
        }
        let ghost a = self.attempt as nat;
        let doubled = self.delay_secs * 2;
        self.delay_secs = if doubled > MAX_BACKOFF_SECS { MAX_BACKOFF_SECS } else { doubled };
        self.attempt = self.attempt + 1;
        proof {
            assert(pow2(a) == 2 * pow2((a - 1) as nat));
        }
        true
    }
}

/// The waits never exceed the ceiling, and attempts never exceed the
/// limit.
pub proof fn law_backoff_is_bounded(s: RespawnSchedule)
    requires
        s.wf(),
    ensures
        s.delay() <= MAX_BACKOFF_SECS,
        s.attempt() <= MAX_RESPAWN_ATTEMPTS,
        s.delay() >= INITIAL_BACKOFF_SECS,
{
    lemma_pow2_positive((s.attempt() - 1) as nat);
}

proof fn lemma_pow2_positive(n: nat)
    ensures
        pow2(n) >= 1,
    decreases n,
{
    if n > 0 {
        lemma_pow2_positive((n - 1) as nat);
    }
}

} // verus!
