//! The certificate-store initialisation as the responder tasks run it
//! together on one cooperative single-core executor: each task advances one
//! step at a time, between its awaits, through `spec_init_step`. Loading the
//! shared state and storing the step's value happen in one such step, since
//! nothing preempts a task between them. Attempts are numbered from 1 in the
//! order they start.

use vstd::prelude::*;
use crate::responder::{
    spec_init_step, InitAction, InitEvent, InitStep, CERT_STORE_DONE, CERT_STORE_IN_PROGRESS,
    CERT_STORE_UNINIT,
};

verus! {

/// Where a task stands in the initialisation.
pub enum TaskPhase {
    /// Not yet entered.
    Idle,
    /// Provisioning the device identity certificates.
    Populating,
    /// Setting up the endorsement certificates.
    SettingUp,
    /// Waiting for the completion signal; the attempt that was in progress
    /// when the task entered.
    Waiting(nat),
    /// Returned, as the action says.
    Finished(InitAction),
}

/// The shared state, the completion signal, and every task.
pub struct InitSystem {
    /// The shared initialisation state.
    pub state: u8,
    /// The value the completion signal holds, if it holds one; waiting takes it.
    pub signal: Option<bool>,
    /// Number of attempts started so far.
    pub attempts: nat,
    /// Outcome of the most recent attempt that finished, if any has.
    pub last_outcome: Option<bool>,
    /// Number of the most recent attempt that finished.
    pub last_attempt: nat,
    pub tasks: Seq<TaskPhase>,
}

/// What happens next: a task enters, a provisioning or setup step of a task
/// completes, or a waiting task takes the signal.
pub enum InitTransition {
    Enter(nat),
    PopulateDone(nat, bool),
    SetupDone(nat, bool),
    Wake(nat),
}

/// Where a task goes when the step's action is this, while attempt `attempt`
/// is the latest.
pub open spec fn phase_for(action: InitAction, attempt: nat) -> TaskPhase {
    match action {
        InitAction::Populate => TaskPhase::Populating,
        InitAction::SetupEndorsements => TaskPhase::SettingUp,
        InitAction::AwaitSignal => TaskPhase::Waiting(attempt),
        _ => TaskPhase::Finished(action),
    }
}

/// The system after task `t` performs `step`.
pub open spec fn apply_step(sys: InitSystem, t: nat, step: InitStep) -> InitSystem {
    let attempts = if step.action is Populate {
        sys.attempts + 1
    } else {
        sys.attempts
    };
    InitSystem {
        state: match step.store {
            Some(v) => v,
            None => sys.state,
        },
        signal: match step.signal {
            Some(v) => Some(v),
            None => if step.reset_signal {
                None
            } else {
                sys.signal
            },
        },
        attempts,
        last_outcome: match step.signal {
            Some(v) => Some(v),
            None => sys.last_outcome,
        },
        last_attempt: match step.signal {
            Some(v) => attempts,
            None => sys.last_attempt,
        },
        tasks: sys.tasks.update(t as int, phase_for(step.action, attempts)),
    }
}

/// The system in which `n` tasks are about to start.
pub open spec fn init_system(n: nat) -> InitSystem {
    InitSystem {
        state: CERT_STORE_UNINIT,
        signal: None,
        attempts: 0,
        last_outcome: None,
        last_attempt: 0,
        tasks: Seq::new(n, |i: int| TaskPhase::Idle),
    }
}

/// The transition can happen.
pub open spec fn enabled(sys: InitSystem, tr: InitTransition) -> bool {
    match tr {
        InitTransition::Enter(t) => t < sys.tasks.len() && sys.tasks[t as int] is Idle,
        InitTransition::PopulateDone(t, _) => t < sys.tasks.len() && sys.tasks[t as int] is Populating,
        InitTransition::SetupDone(t, _) => t < sys.tasks.len() && sys.tasks[t as int] is SettingUp,
        InitTransition::Wake(t) => t < sys.tasks.len() && sys.tasks[t as int] is Waiting
            && sys.signal is Some,
    }
}

/// The system after the transition.
pub open spec fn next(sys: InitSystem, tr: InitTransition) -> InitSystem {
    match tr {
        InitTransition::Enter(t) => apply_step(sys, t, spec_init_step(InitEvent::Entered(sys.state))),
        InitTransition::PopulateDone(t, ok) => apply_step(
            sys,
            t,
            spec_init_step(InitEvent::PopulateFinished(ok)),
        ),
        InitTransition::SetupDone(t, ok) => apply_step(
            sys,
            t,
            spec_init_step(InitEvent::SetupFinished(ok)),
        ),
        InitTransition::Wake(t) => {
            let taken = InitSystem { signal: None, ..sys };
            apply_step(taken, t, spec_init_step(InitEvent::SignalReceived(sys.signal->Some_0)))
        },
    }
}

/// Task `i` is provisioning or setting up certificates.
pub open spec fn busy(sys: InitSystem, i: int) -> bool {
    0 <= i < sys.tasks.len() && (sys.tasks[i] is Populating || sys.tasks[i] is SettingUp)
}

/// An attempt is in progress.
pub open spec fn attempt_running(sys: InitSystem) -> bool {
    exists|i: int| busy(sys, i)
}

/// At most one task works on the store, and one does exactly while the state
/// says "in progress"; while it works the signal is empty; a value in the
/// signal is the outcome of the latest attempt; and every waiting task waits
/// for an attempt that has started; the store is initialised only when the
/// latest attempt to finish succeeded.
pub open spec fn inv(sys: InitSystem) -> bool {
    &&& sys.state == CERT_STORE_DONE ==> sys.last_outcome == Some(true)
    &&& forall|i: int, j: int| busy(sys, i) && busy(sys, j) ==> i == j
    &&& (sys.state == CERT_STORE_IN_PROGRESS <==> attempt_running(sys))
    &&& attempt_running(sys) ==> sys.signal is None && sys.attempts >= 1
    &&& (sys.signal matches Some(v) ==> sys.last_outcome == Some(v) && sys.last_attempt
        == sys.attempts)
    &&& forall|i: int|
        0 <= i < sys.tasks.len() ==> (#[trigger] sys.tasks[i] matches TaskPhase::Waiting(k) ==> 1
            <= k <= sys.attempts)
}

/// The invariant holds when the tasks start.
pub proof fn lemma_init_system_inv(n: nat)
    ensures
        inv(init_system(n)),
{
    let sys = init_system(n);
    assert(forall|i: int| !busy(sys, i));
}

/// Every transition keeps the invariant. In particular, at no time do two
/// tasks provision or set up certificates at once, and the one that does is
/// the task that found the store uninitialised and marked it in progress.
pub proof fn lemma_transition_keeps_inv(sys: InitSystem, tr: InitTransition)
    requires
        inv(sys),
        enabled(sys, tr),
    ensures
        inv(next(sys, tr)),
{
    let post = next(sys, tr);
    match tr {
        InitTransition::Enter(t) => {
            if sys.state == CERT_STORE_UNINIT {
                assert(forall|i: int| !busy(sys, i));
                assert(busy(post, t as int));
                assert forall|i: int| busy(post, i) implies i == t by {
                    if i != t {
                        assert(busy(sys, i));
                    }
                }
            } else {
                assert forall|i: int| busy(post, i) <==> busy(sys, i) by {}
                if sys.state == CERT_STORE_IN_PROGRESS {
                    let w = choose|i: int| busy(sys, i);
                    assert(busy(post, w));
                }
            }
            assert forall|i: int| 0 <= i < post.tasks.len() implies (#[trigger] post.tasks[i] matches TaskPhase::Waiting(k) ==> 1 <= k <= post.attempts) by {
                if i != t {
                    assert(sys.tasks[i] == post.tasks[i]);
                }
            }
        },
        InitTransition::PopulateDone(t, ok) => {
            assert(busy(sys, t as int));
            if ok {
                assert forall|i: int| busy(post, i) <==> busy(sys, i) by {}
                assert(busy(post, t as int));
            } else {
                assert forall|i: int| !busy(post, i) by {
                    if i != t && busy(post, i) {
                        assert(busy(sys, i));
                    }
                }
            }
            assert forall|i: int| 0 <= i < post.tasks.len() implies (#[trigger] post.tasks[i] matches TaskPhase::Waiting(k) ==> 1 <= k <= post.attempts) by {
                if i != t {
                    assert(sys.tasks[i] == post.tasks[i]);
                }
            }
        },
        InitTransition::SetupDone(t, ok) => {
            assert(busy(sys, t as int));
            assert forall|i: int| !busy(post, i) by {
                if i != t && busy(post, i) {
                    assert(busy(sys, i));
                }
            }
            assert forall|i: int| 0 <= i < post.tasks.len() implies (#[trigger] post.tasks[i] matches TaskPhase::Waiting(k) ==> 1 <= k <= post.attempts) by {
                if i != t {
                    assert(sys.tasks[i] == post.tasks[i]);
                }
            }
        },
        InitTransition::Wake(t) => {
            assert forall|i: int| busy(post, i) <==> busy(sys, i) by {}
            assert forall|i: int| 0 <= i < post.tasks.len() implies (#[trigger] post.tasks[i] matches TaskPhase::Waiting(k) ==> 1 <= k <= post.attempts) by {
                if i != t {
                    assert(sys.tasks[i] == post.tasks[i]);
                }
            }
        },
    }
}

/// No waiting task returns while an attempt is in progress.
pub proof fn lemma_no_wake_during_attempt(sys: InitSystem, w: nat)
    requires
        inv(sys),
        attempt_running(sys),
    ensures
        !enabled(sys, InitTransition::Wake(w)),
{
}

/// A task waiting for attempt `k` returns only once an attempt has finished
/// and signalled, and no attempt is in progress; that attempt is `k` itself
/// unless a later one has started since; and the task returns success exactly
/// when that attempt succeeded, an internal error otherwise.
pub proof fn lemma_waiter_returns_attempt_outcome(sys: InitSystem, t: nat, k: nat)
    requires
        inv(sys),
        enabled(sys, InitTransition::Wake(t)),
        sys.tasks[t as int] == TaskPhase::Waiting(k),
    ensures
        !attempt_running(sys),
        sys.last_outcome is Some,
        sys.last_attempt >= k,
        sys.last_attempt == k <==> sys.attempts == k,
        next(sys, InitTransition::Wake(t)).tasks[t as int] == TaskPhase::Finished(
            if sys.last_outcome == Some(true) {
                InitAction::ReturnOk
            } else {
                InitAction::ReturnInternalBug
            },
        ),
        next(sys, InitTransition::Wake(t)).signal is None,
{
    assert(sys.tasks[t as int] matches TaskPhase::Waiting(k) ==> 1 <= k <= sys.attempts);
}

/// Once the store is initialised it stays so, and every task that enters
/// afterwards returns success at once.
pub proof fn lemma_done_stays_done(sys: InitSystem, tr: InitTransition)
    requires
        inv(sys),
        enabled(sys, tr),
        sys.state == CERT_STORE_DONE,
    ensures
        next(sys, tr).state == CERT_STORE_DONE,
        tr matches InitTransition::Enter(t) ==> next(sys, tr).tasks[t as int] == TaskPhase::Finished(
            InitAction::ReturnOk,
        ),
{
    match tr {
        InitTransition::PopulateDone(t, _) => {
            assert(busy(sys, t as int));
        },
        InitTransition::SetupDone(t, _) => {
            assert(busy(sys, t as int));
        },
        _ => {},
    }
}

/// The store is marked initialised only when the latest attempt to finish
/// succeeded; in particular a failed attempt never leaves it marked so.
pub proof fn lemma_done_means_success(sys: InitSystem, tr: InitTransition)
    requires
        inv(sys),
        enabled(sys, tr),
    ensures
        next(sys, tr).state == CERT_STORE_DONE ==> next(sys, tr).last_outcome == Some(true),
        next(sys, tr).state == CERT_STORE_DONE && sys.state != CERT_STORE_DONE ==> tr
            matches InitTransition::SetupDone(_, true),
{
    lemma_transition_keeps_inv(sys, tr);
}

} // verus!
