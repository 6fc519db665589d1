//! The state machine of the interactive session driver.
//!
//! The driver's lifecycle is `NotStarted -> Running -> Stopped`. Every
//! decision it takes — whether to enter the loop after the init callback,
//! what to do with a failed update callback, when to leave the loop — is a
//! function of the fields below and of the callback's outcome, and is stated
//! and verified here. The surrounding loop, which prompts, blocks on one
//! line of input and invokes the callbacks, performs each decided action and
//! hands the outcome back.
//!
//! Termination is callback-driven: the update callback receives the session
//! by mutable reference and clears the running flag (for example on an
//! `exit` line); the driver itself never interprets input content.

use vstd::prelude::*;

verus! {

/// What the driver must do after one update callback has returned.
#[derive(Debug, PartialEq, Eq, Structural)]
pub enum UpdateAction {
    /// The callback succeeded: go on with the next iteration.
    Continue,
    /// The callback failed and failures are non-fatal: report the error and
    /// go on with the next iteration.
    ReportAndContinue,
    /// The callback failed and failures are fatal: leave the loop and
    /// surface the error.
    Propagate,
}

/// The error policy, as a function of the configuration and of one update
/// callback's outcome.
pub open spec fn spec_update_action(crash_on_error: bool, update_ok: bool) -> UpdateAction {
    if update_ok {
        UpdateAction::Continue
    } else if crash_on_error {
        UpdateAction::Propagate
    } else {
        UpdateAction::ReportAndContinue
    }
}

/// The interactive session driver's own state: the running flag and the
/// error policy for update callbacks.
#[derive(Debug, PartialEq, Eq, Structural)]
pub struct Repl {
    /// True exactly while the session is in the `Running` state.
    pub is_running: bool,
    /// When set, a failed update callback ends the session with that error;
    /// when clear, the failure is only reported.
    pub crash_on_error: bool,
}

impl Repl {
    /// A fresh driver: not yet running, with the given error policy.
    pub fn new(crash_on_error: bool) -> (r: Self)
        ensures
            !r.is_running,
            r.crash_on_error == crash_on_error,
    {
        Repl { is_running: false, crash_on_error }
    }

    /// Records the outcome of the one-time init callback. On success the
    /// session enters `Running` and the loop may begin; on failure it never
    /// starts and the failure propagates to the caller at once.
    pub fn on_init_outcome(&mut self, init_ok: bool) -> (proceed: bool)
        ensures
            proceed == init_ok,
            final(self).is_running == init_ok,
            final(self).crash_on_error == old(self).crash_on_error,
    {
        self.is_running = init_ok;
        init_ok
    }

    /// Applies the error policy to one update callback's outcome. The
    /// running flag is untouched: only the callback itself, through its
    /// mutable borrow of the session, may stop the loop.
    pub fn on_update_outcome(&self, update_ok: bool) -> (action: UpdateAction)
        ensures
            action == spec_update_action(self.crash_on_error, update_ok),
    {
        if update_ok {
            UpdateAction::Continue
        } else if self.crash_on_error {
            UpdateAction::Propagate
        } else {
            UpdateAction::ReportAndContinue
        }
    }

    /// Leaves the `Running` state; the loop exits before its next iteration.
    pub fn stop(&mut self)
        ensures
            !final(self).is_running,
            final(self).crash_on_error == old(self).crash_on_error,
    {
        self.is_running = false;
    }
}

/// The crash policy, stated once for every configuration: a failed update
/// ends the session exactly when `crash_on_error` is set, is merely reported
/// when it is clear, and a successful update never interrupts the loop.
pub proof fn lemma_crash_policy()
    ensures
        spec_update_action(true, false) == UpdateAction::Propagate,
        spec_update_action(false, false) == UpdateAction::ReportAndContinue,
        forall|crash_on_error: bool|
            spec_update_action(crash_on_error, true) == UpdateAction::Continue,
{
}

} // verus!
