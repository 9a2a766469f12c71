use spdm_lite_responder::responder::{
    ensure_cert_store_init, measurement_provider, InitAction, InitEvent, InitStep,
    MeasurementProviderKind, CERT_STORE_DONE, CERT_STORE_IN_PROGRESS, CERT_STORE_UNINIT,
};

#[test]
fn provider_follows_build() {
    assert_eq!(measurement_provider(true), MeasurementProviderKind::PcrQuote);
    assert_eq!(measurement_provider(false), MeasurementProviderKind::OcpEatSlot0Leaf);
}

#[test]
fn first_task_initialises() {
    assert_eq!(
        ensure_cert_store_init(InitEvent::Entered(CERT_STORE_UNINIT)),
        InitStep {
            store: Some(CERT_STORE_IN_PROGRESS),
            reset_signal: true,
            signal: None,
            action: InitAction::Populate
        }
    );
}

#[test]
fn concurrent_task_waits() {
    assert_eq!(
        ensure_cert_store_init(InitEvent::Entered(CERT_STORE_IN_PROGRESS)),
        InitStep { store: None, reset_signal: false, signal: None, action: InitAction::AwaitSignal }
    );
}

#[test]
fn later_task_returns_at_once() {
    for s in [CERT_STORE_DONE, 3, 255] {
        assert_eq!(ensure_cert_store_init(InitEvent::Entered(s)).action, InitAction::ReturnOk);
    }
}

#[test]
fn populate_failure_resets() {
    assert_eq!(
        ensure_cert_store_init(InitEvent::PopulateFinished(false)),
        InitStep {
            store: Some(CERT_STORE_UNINIT),
            reset_signal: false,
            signal: Some(false),
            action: InitAction::ReturnStepError
        }
    );
    assert_eq!(
        ensure_cert_store_init(InitEvent::PopulateFinished(true)),
        InitStep { store: None, reset_signal: false, signal: None, action: InitAction::SetupEndorsements }
    );
}

#[test]
fn setup_outcome_is_stored_and_signalled() {
    assert_eq!(
        ensure_cert_store_init(InitEvent::SetupFinished(true)),
        InitStep {
            store: Some(CERT_STORE_DONE),
            reset_signal: false,
            signal: Some(true),
            action: InitAction::ReturnOk
        }
    );
    assert_eq!(
        ensure_cert_store_init(InitEvent::SetupFinished(false)),
        InitStep {
            store: Some(CERT_STORE_UNINIT),
            reset_signal: false,
            signal: Some(false),
            action: InitAction::ReturnStepError
        }
    );
}

#[test]
fn waiter_follows_signal() {
    assert_eq!(
        ensure_cert_store_init(InitEvent::SignalReceived(true)).action,
        InitAction::ReturnOk
    );
    assert_eq!(
        ensure_cert_store_init(InitEvent::SignalReceived(false)).action,
        InitAction::ReturnInternalBug
    );
}

#[test]
fn initiator_never_leaves_in_progress() {
    for populate_ok in [false, true] {
        for setup_ok in [false, true] {
            let mut last = ensure_cert_store_init(InitEvent::PopulateFinished(populate_ok));
            if populate_ok {
                last = ensure_cert_store_init(InitEvent::SetupFinished(setup_ok));
            }
            let ok = populate_ok && setup_ok;
            assert_eq!(last.store, Some(if ok { CERT_STORE_DONE } else { CERT_STORE_UNINIT }));
            assert_eq!(last.signal, Some(ok));
            let waiter = ensure_cert_store_init(InitEvent::SignalReceived(last.signal.unwrap()));
            assert_eq!(waiter.action == InitAction::ReturnOk, ok);
        }
    }
}

/// Runs the shared state and the signal for a step, as the app does.
fn apply(step: &InitStep, state: &mut u8, signal: &mut Option<bool>) {
    if let Some(v) = step.store {
        *state = v;
    }
    if step.reset_signal {
        *signal = None;
    }
    if let Some(ok) = step.signal {
        *signal = Some(ok);
    }
}

#[test]
fn second_task_waits_for_first() {
    for setup_ok in [false, true] {
        let mut state = CERT_STORE_UNINIT;
        let mut signal = None;
        let a = ensure_cert_store_init(InitEvent::Entered(state));
        apply(&a, &mut state, &mut signal);
        let b = ensure_cert_store_init(InitEvent::Entered(state));
        apply(&b, &mut state, &mut signal);
        assert_eq!(a.action, InitAction::Populate);
        assert_eq!(b.action, InitAction::AwaitSignal);
        assert_eq!(signal, None);
        let a = ensure_cert_store_init(InitEvent::PopulateFinished(true));
        apply(&a, &mut state, &mut signal);
        assert_eq!(signal, None);
        let a = ensure_cert_store_init(InitEvent::SetupFinished(setup_ok));
        apply(&a, &mut state, &mut signal);
        let b = ensure_cert_store_init(InitEvent::SignalReceived(signal.take().unwrap()));
        assert_eq!(b.action == InitAction::ReturnOk, setup_ok);
        assert_eq!(a.action == InitAction::ReturnOk, setup_ok);
        assert_eq!(state, if setup_ok { CERT_STORE_DONE } else { CERT_STORE_UNINIT });
    }
}

#[test]
fn new_attempt_clears_earlier_failure() {
    let mut state = CERT_STORE_UNINIT;
    let mut signal = None;
    let a = ensure_cert_store_init(InitEvent::Entered(state));
    apply(&a, &mut state, &mut signal);
    let a = ensure_cert_store_init(InitEvent::PopulateFinished(false));
    apply(&a, &mut state, &mut signal);
    assert_eq!(signal, Some(false));
    // A new attempt starts while the failure is still unread: it empties the signal.
    let c = ensure_cert_store_init(InitEvent::Entered(state));
    apply(&c, &mut state, &mut signal);
    assert_eq!(c.action, InitAction::Populate);
    assert_eq!(signal, None);
    let w = ensure_cert_store_init(InitEvent::Entered(state));
    apply(&w, &mut state, &mut signal);
    assert_eq!(w.action, InitAction::AwaitSignal);
    // The waiter has nothing to take until the new attempt finishes.
    assert_eq!(signal, None);
    let c = ensure_cert_store_init(InitEvent::PopulateFinished(true));
    apply(&c, &mut state, &mut signal);
    assert_eq!(signal, None);
    let c = ensure_cert_store_init(InitEvent::SetupFinished(true));
    apply(&c, &mut state, &mut signal);
    let w = ensure_cert_store_init(InitEvent::SignalReceived(signal.take().unwrap()));
    assert_eq!(w.action, InitAction::ReturnOk);
    assert_eq!(state, CERT_STORE_DONE);
}
