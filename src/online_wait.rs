use vstd::prelude::*;

verus! {

/// What a wait for a server to come online does next.
#[derive(Debug, Clone, Copy, PartialEq, Eq, Structural)]
pub enum WaitAction {
    /// Check whether the server answers.
    Check,
    /// Pause before the next check.
    Pause,
    /// The server answered: the wait is over.
    Online,
    /// Every check failed: the wait is over, unsuccessfully.
    GiveUp,
}

/// A bounded wait for a server: up to `retries` checks, with a pause after
/// each one that fails.
pub struct OnlineWait {
    retries: usize,
    failed: usize,
}

impl OnlineWait {
    /// The number of checks allowed.
    pub closed spec fn allowed(&self) -> nat {
        self.retries as nat
    }

    /// The number of checks that have failed so far.
    pub closed spec fn failures(&self) -> nat {
        self.failed as nat
    }

    pub fn new(retries: usize) -> (w: OnlineWait)
        ensures
            w.allowed() == retries,
            w.failures() == 0,
    {
        OnlineWait { retries, failed: 0 }
    }

    /// Check again while checks are left; give up once all have failed.
    pub fn next_action(&self) -> (a: WaitAction)
        ensures
            a == (if self.failures() < self.allowed() {
                WaitAction::Check
            } else {
                WaitAction::GiveUp
            }),
    {
        if self.failed < self.retries {
            WaitAction::Check
        } else {
            WaitAction::GiveUp
        }
    }

    /// Takes the outcome of a check: an answer ends the wait, a failure is
    /// counted and followed by a pause.
    pub fn after_check(&mut self, online: bool) -> (a: WaitAction)
        requires
            old(self).failures() < old(self).allowed(),
        ensures
            final(self).allowed() == old(self).allowed(),
            online ==> a == WaitAction::Online && final(self).failures() == old(self).failures(),
            !online ==> a == WaitAction::Pause && final(self).failures() == old(self).failures()
                + 1,
    {
        if online {
            WaitAction::Online
        } else {
            self.failed = self.failed + 1;
            WaitAction::Pause
        }
    }
}

} // verus!
