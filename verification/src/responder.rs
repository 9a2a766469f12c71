//! Decisions of the user app's SPDM responder tasks: which measurement
//! provider they use, and the one-time initialisation of the certificate store
//! that all responder tasks share.

use vstd::prelude::*;

verus! {

/// The measurement provider a responder hands to its platform layer.
#[derive(Clone, Copy, Debug, PartialEq, Eq)]
pub enum MeasurementProviderKind {
    /// Measurements are a quote over the platform configuration registers.
    PcrQuote,
    /// Measurements are an OCP EAT token, signed with the slot-0 leaf key.
    OcpEatSlot0Leaf,
}

/// The measurement provider of a build: the PCR quote provider where the build
/// selects it, the OCP EAT provider otherwise.
pub fn measurement_provider(pcr_quote_build: bool) -> (k: MeasurementProviderKind)
    ensures
        k == (if pcr_quote_build {
            MeasurementProviderKind::PcrQuote
        } else {
            MeasurementProviderKind::OcpEatSlot0Leaf
        }),
{
    if pcr_quote_build {
        MeasurementProviderKind::PcrQuote
    } else {
        MeasurementProviderKind::OcpEatSlot0Leaf
    }
}

/// Certificate store not initialised (or the last attempt failed).
pub const CERT_STORE_UNINIT: u8 = 0;

/// A task is initialising the certificate store.
pub const CERT_STORE_IN_PROGRESS: u8 = 1;

/// The certificate store is initialised.
pub const CERT_STORE_DONE: u8 = 2;

/// What a task running the certificate-store initialisation has just learnt.
#[derive(Clone, Copy, Debug, PartialEq, Eq)]
pub enum InitEvent {
    /// The task entered initialisation and loaded this value of the shared state.
    Entered(u8),
    /// Provisioning the device identity certificates finished, successfully or not.
    PopulateFinished(bool),
    /// Setting up the endorsement certificates finished, successfully or not.
    SetupFinished(bool),
    /// The completion signal of another task's initialisation arrived with this value.
    SignalReceived(bool),
}

/// What the task does next.
#[derive(Clone, Copy, Debug, PartialEq, Eq)]
pub enum InitAction {
    /// Provision the device identity certificates.
    Populate,
    /// Wait for the completion signal of the task that initialises the store.
    AwaitSignal,
    /// Set up the endorsement certificates.
    SetupEndorsements,
    /// Return success.
    ReturnOk,
    /// Return the error of the step that just failed.
    ReturnStepError,
    /// Return an internal error: another task's initialisation failed.
    ReturnInternalBug,
}

/// One step of the initialisation: the value to store in the shared state,
/// whether to empty the completion signal, the value to signal to waiting
/// tasks, and what to do next.
#[derive(Clone, Copy, Debug, PartialEq, Eq)]
pub struct InitStep {
    pub store: Option<u8>,
    /// Empty the completion signal of any value an earlier attempt left in it.
    pub reset_signal: bool,
    pub signal: Option<bool>,
    pub action: InitAction,
}

/// How the initialisation reacts to an event.
pub open spec fn spec_init_step(event: InitEvent) -> InitStep {
    match event {
        InitEvent::Entered(state) => if state == CERT_STORE_UNINIT {
            InitStep {
                store: Some(CERT_STORE_IN_PROGRESS),
                signal: None,
                reset_signal: true, action: InitAction::Populate,
            }
        } else if state == CERT_STORE_IN_PROGRESS {
            InitStep { store: None, signal: None, reset_signal: false, action: InitAction::AwaitSignal }
        } else {
            InitStep { store: None, signal: None, reset_signal: false, action: InitAction::ReturnOk }
        },
        InitEvent::PopulateFinished(ok) => if ok {
            InitStep { store: None, signal: None, reset_signal: false, action: InitAction::SetupEndorsements }
        } else {
            InitStep {
                store: Some(CERT_STORE_UNINIT),
                signal: Some(false),
                reset_signal: false, action: InitAction::ReturnStepError,
            }
        },
        InitEvent::SetupFinished(ok) => InitStep {
            store: Some(
                if ok {
                    CERT_STORE_DONE
                } else {
                    CERT_STORE_UNINIT
                },
            ),
            signal: Some(ok),
            reset_signal: false, action: if ok {
                InitAction::ReturnOk
            } else {
                InitAction::ReturnStepError
            },
        },
        InitEvent::SignalReceived(ok) => InitStep {
            store: None,
            signal: None,
            reset_signal: false, action: if ok {
                InitAction::ReturnOk
            } else {
                InitAction::ReturnInternalBug
            },
        },
    }
}

/// Decides the next step of the shared certificate-store initialisation. The
/// first task to enter does the work; a task that finds it in progress waits
/// for the signal; a task that finds it done returns at once. A task that
/// starts an attempt empties the signal first, so that waiters hear the
/// outcome of that attempt and not of an earlier one.
pub fn ensure_cert_store_init(event: InitEvent) -> (step: InitStep)
    ensures
        step == spec_init_step(event),
{
    match event {
        InitEvent::Entered(state) => {
            if state == CERT_STORE_UNINIT {
                InitStep {
                    store: Some(CERT_STORE_IN_PROGRESS),
                    signal: None,
                    reset_signal: true, action: InitAction::Populate,
                }
            } else if state == CERT_STORE_IN_PROGRESS {
                InitStep { store: None, signal: None, reset_signal: false, action: InitAction::AwaitSignal }
            } else {
                InitStep { store: None, signal: None, reset_signal: false, action: InitAction::ReturnOk }
            }
        },
        InitEvent::PopulateFinished(ok) => {
            if ok {
                InitStep { store: None, signal: None, reset_signal: false, action: InitAction::SetupEndorsements }
            } else {
                InitStep {
                    store: Some(CERT_STORE_UNINIT),
                    signal: Some(false),
                    reset_signal: false, action: InitAction::ReturnStepError,
                }
            }
        },
        InitEvent::SetupFinished(ok) => {
            InitStep {
                store: Some(
                    if ok {
                        CERT_STORE_DONE
                    } else {
                        CERT_STORE_UNINIT
                    },
                ),
                signal: Some(ok),
                reset_signal: false, action: if ok {
                    InitAction::ReturnOk
                } else {
                    InitAction::ReturnStepError
                },
            }
        },
        InitEvent::SignalReceived(ok) => {
            InitStep {
                store: None,
                signal: None,
                reset_signal: false, action: if ok {
                    InitAction::ReturnOk
                } else {
                    InitAction::ReturnInternalBug
                },
            }
        },
    }
}

/// Only a task that finds the store uninitialised starts initialising it, and
/// it marks the store as in progress and empties the completion signal before
/// anything else; no other step empties the signal.
pub proof fn lemma_single_initiator(state: u8)
    ensures
        spec_init_step(InitEvent::Entered(state)).reset_signal <==> state == CERT_STORE_UNINIT,
        spec_init_step(InitEvent::Entered(state)).action == InitAction::Populate <==> state
            == CERT_STORE_UNINIT,
        spec_init_step(InitEvent::Entered(state)).action == InitAction::Populate ==> spec_init_step(
            InitEvent::Entered(state),
        ).store == Some(CERT_STORE_IN_PROGRESS),
{
}

/// An initiating task never leaves the store in progress: it ends by storing
/// "done" when provisioning and endorsement setup both succeed and
/// "uninitialised" otherwise, it signals waiters with the same outcome, and it
/// returns success exactly then.
pub proof fn lemma_initiator_run_settles(populate_ok: bool, setup_ok: bool)
    ensures
        ({
            let after_populate = spec_init_step(InitEvent::PopulateFinished(populate_ok));
            let after_setup = spec_init_step(InitEvent::SetupFinished(setup_ok));
            let last = if populate_ok {
                after_setup
            } else {
                after_populate
            };
            let ok = populate_ok && setup_ok;
            &&& populate_ok ==> after_populate.action == InitAction::SetupEndorsements
                && after_populate.store is None && after_populate.signal is None
            &&& last.store == Some(
                if ok {
                    CERT_STORE_DONE
                } else {
                    CERT_STORE_UNINIT
                },
            )
            &&& last.signal == Some(ok)
            &&& (last.action == InitAction::ReturnOk) == ok
        }),
{
}

/// A waiting task returns success exactly when the initiating task signalled
/// success, and returns an error otherwise.
pub proof fn lemma_waiter_follows_signal(populate_ok: bool, setup_ok: bool)
    ensures
        ({
            let signalled = if populate_ok {
                spec_init_step(InitEvent::SetupFinished(setup_ok)).signal
            } else {
                spec_init_step(InitEvent::PopulateFinished(populate_ok)).signal
            };
            let waiter = spec_init_step(InitEvent::SignalReceived(signalled->Some_0));
            &&& signalled is Some
            &&& (waiter.action == InitAction::ReturnOk) == (populate_ok && setup_ok)
            &&& !(populate_ok && setup_ok) ==> waiter.action == InitAction::ReturnInternalBug
        }),
{
}

/// What each step does, event by event: the store is marked initialised (2)
/// only after a successful endorsement setup, in progress (1) only by a task
/// that found it uninitialised (0), and uninitialised again only after a
/// failed provisioning or setup; only the attempt's own steps signal, with
/// its outcome; only starting an attempt empties the signal; and a task
/// returns success only when the store was initialised before it entered,
/// its own setup succeeded, or the signal it waited for said so.
pub proof fn lemma_init_step_meaning(e: InitEvent)
    ensures
        spec_init_step(e).store == Some(2u8) <==> e == InitEvent::SetupFinished(true),
        spec_init_step(e).store == Some(1u8) <==> e == InitEvent::Entered(0),
        spec_init_step(e).store == Some(0u8) <==> (e == InitEvent::PopulateFinished(false) || e
            == InitEvent::SetupFinished(false)),
        spec_init_step(e).store is Some ==> (e == InitEvent::Entered(0)
            || e is PopulateFinished || e is SetupFinished),
        spec_init_step(e).reset_signal <==> e == InitEvent::Entered(0),
        spec_init_step(e).signal == Some(true) <==> e == InitEvent::SetupFinished(true),
        spec_init_step(e).signal == Some(false) <==> (e == InitEvent::PopulateFinished(false) || e
            == InitEvent::SetupFinished(false)),
        spec_init_step(e).action == InitAction::ReturnOk <==> (e == InitEvent::SetupFinished(true)
            || e == InitEvent::SignalReceived(true) || (e matches InitEvent::Entered(x) && x != 0
            && x != 1)),
        spec_init_step(e).action == InitAction::ReturnInternalBug <==> e
            == InitEvent::SignalReceived(false),
        spec_init_step(e).action == InitAction::ReturnStepError <==> (e
            == InitEvent::PopulateFinished(false) || e == InitEvent::SetupFinished(false)),
        spec_init_step(e).action == InitAction::AwaitSignal <==> e == InitEvent::Entered(1),
        spec_init_step(e).action == InitAction::Populate <==> e == InitEvent::Entered(0),
        spec_init_step(e).action == InitAction::SetupEndorsements <==> e
            == InitEvent::PopulateFinished(true),
{
}

} // verus!
