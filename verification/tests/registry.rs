//! Calls in flight: who can be sent to, and whose pump is to be aborted.

use bytes::Bytes;
use connectrpc_tauri::body::IpcRequestBody;
use connectrpc_tauri::registry::CallRegistry;
use tokio::task::AbortHandle;

/// A task that never ends by itself, and a handle on it.
fn with_pump<T>(test: impl FnOnce(AbortHandle, &tokio::task::JoinHandle<()>) -> T) -> T {
    let runtime = tokio::runtime::Builder::new_current_thread().build().expect("runtime");
    let task = runtime.spawn(std::future::pending::<()>());
    test(task.abort_handle(), &task)
}

#[test]
fn a_new_registry_tracks_nothing() {
    let calls = CallRegistry::default();
    assert_eq!(calls.len(), 0);
    assert!(calls.body_sender(1).is_none());
}

#[test]
fn a_registered_call_can_be_sent_to() {
    let mut calls = CallRegistry::default();
    let (tx, _body) = IpcRequestBody::channel();
    let registration = calls.begin(7, Some(tx.clone()));
    assert_eq!(registration.id(), 7);
    assert!(calls.body_sender(7).expect("sender").same_channel(&tx));
    assert!(calls.body_sender(8).is_none());
    assert_eq!(calls.len(), 1);
}

#[test]
fn registering_again_replaces_the_call() {
    let mut calls = CallRegistry::default();
    let (tx, _body) = IpcRequestBody::channel();
    calls.begin(7, Some(tx));
    calls.begin(7, None);
    assert_eq!(calls.len(), 1);
    assert!(calls.body_sender(7).is_none());
}

#[test]
fn ending_the_request_keeps_the_call() {
    let mut calls = CallRegistry::default();
    let (tx, mut body) = IpcRequestBody::channel();
    calls.begin(7, Some(tx));
    calls.close_request_body(7);
    calls.close_request_body(8);
    assert!(calls.body_sender(7).is_none());
    assert_eq!(calls.len(), 1);
    // The registry held the last sender, so the body has ended.
    assert!(body.rx.try_recv().is_err());
    assert!(body.rx.is_closed());
}

#[test]
fn a_cancel_after_the_pump_hands_it_out() {
    with_pump(|pump, _| {
        let mut calls = CallRegistry::default();
        let id = pump.id();
        let registration = calls.begin(7, None);
        assert!(registration.attach(&mut calls, pump).is_none());
        calls.close_request_body(7);
        assert_eq!(calls.remove(7).expect("pump").id(), id);
        assert_eq!(calls.len(), 0);
        assert!(calls.remove(7).is_none());
    });
}

#[test]
fn a_cancel_before_the_pump_is_honoured_when_it_is_attached() {
    with_pump(|pump, _| {
        let mut calls = CallRegistry::default();
        let id = pump.id();
        let (tx, body) = IpcRequestBody::channel();
        let registration = calls.begin(7, Some(tx));
        assert!(calls.remove(7).is_none());
        // Still tracked, with its body closed, until the pump is there.
        assert_eq!(calls.len(), 1);
        assert!(calls.body_sender(7).is_none());
        assert!(body.rx.is_closed());
        assert!(calls.remove(7).is_none());
        assert_eq!(registration.attach(&mut calls, pump).expect("pump").id(), id);
        assert_eq!(calls.len(), 0);
    });
}

#[test]
fn a_call_that_finished_first_has_nothing_to_abort() {
    with_pump(|pump, _| {
        let mut calls = CallRegistry::default();
        let registration = calls.begin(7, None);
        calls.forget(7);
        assert!(registration.attach(&mut calls, pump).is_none());
        assert_eq!(calls.len(), 0);
    });
}

#[test]
fn every_operation_counts_its_calls() {
    with_pump(|pump, _| {
        let mut calls = CallRegistry::default();
        calls.begin(1, None);
        calls.begin(2, None);
        let registration = calls.begin(3, None);
        assert_eq!(calls.len(), 3);
        calls.begin(2, None);
        calls.close_request_body(2);
        assert_eq!(calls.len(), 3);
        assert!(calls.remove(3).is_none());
        assert_eq!(calls.len(), 3);
        assert!(registration.attach(&mut calls, pump).is_some());
        assert_eq!(calls.len(), 2);
        calls.forget(1);
        calls.forget(1);
        assert_eq!(calls.len(), 1);
    });
}

#[test]
fn forgetting_does_not_abort() {
    with_pump(|pump, task| {
        let mut calls = CallRegistry::default();
        let registration = calls.begin(7, None);
        assert!(registration.attach(&mut calls, pump).is_none());
        calls.forget(7);
        assert_eq!(calls.len(), 0);
        assert!(!task.is_finished());
    });
}

#[test]
fn calls_do_not_touch_each_other() {
    with_pump(|pump, _| {
        let mut calls = CallRegistry::default();
        let (tx, _body) = IpcRequestBody::channel();
        calls.begin(1, Some(tx));
        let registration = calls.begin(2, None);
        assert!(registration.attach(&mut calls, pump).is_none());
        assert!(calls.remove(2).is_some());
        calls.forget(3);
        assert_eq!(calls.len(), 1);
        let tx = calls.body_sender(1).expect("sender");
        assert!(tx.try_send(Bytes::from_static(b"x")).is_ok());
    });
}

#[test]
fn a_late_pump_of_a_call_registered_anew_is_attached_to_it() {
    with_pump(|pump, _| {
        let mut calls = CallRegistry::default();
        let late = calls.begin(7, None);
        calls.forget(7);
        calls.begin(7, None);
        assert!(late.attach(&mut calls, pump).is_none());
        assert!(calls.remove(7).is_some());
    });
}
