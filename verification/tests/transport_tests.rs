use httpbridge::msg::{RequestMessage, ResponseMessage};
use httpbridge::transport::{frame_request, CallbackTransport, DispatchError};
use tokio::sync::oneshot::error::TryRecvError;

fn resp(id: u64, status: u16) -> ResponseMessage {
    ResponseMessage { request_id: id, status, headers: vec![], body: None }
}

#[test]
fn start_installs_once() {
    let mut t = CallbackTransport::new();
    assert!(t.start());
    assert!(!t.start());
}

#[test]
fn dispatch_without_callback_fails_fast() {
    let mut t = CallbackTransport::new();
    match t.begin_dispatch(1) {
        Err(DispatchError::NotConfigured) => {}
        other => panic!("expected a configuration error, got {:?}", other.is_ok()),
    }
}

#[test]
fn rejected_ack_errors_immediately_and_delivers_nothing() {
    let mut t = CallbackTransport::new();
    assert!(t.start());
    let mut rx = t.begin_dispatch(1).unwrap();
    // The external party refuses with code 5: the dispatch error surfaces
    // at once, nothing is awaited, and no completion ever arrives.
    assert_eq!(t.on_dispatch_ack(1, 5), Err(DispatchError::Rejected(5)));
    assert!(matches!(rx.try_recv(), Err(TryRecvError::Closed)));
    assert!(!t.deliver(1, resp(1, 200)));
}

#[test]
fn accepted_ack_then_deliver_resolves_waiter() {
    let mut t = CallbackTransport::new();
    assert!(t.start());
    let rx = t.begin_dispatch(9).unwrap();
    assert_eq!(t.on_dispatch_ack(9, 0), Ok(()));
    assert!(t.deliver(9, resp(9, 200)));
    assert_eq!(rx.blocking_recv().unwrap(), resp(9, 200));
    // The slot was single-use.
    assert!(!t.deliver(9, resp(9, 200)));
}

#[test]
fn teardown_resolves_every_pending_waiter() {
    let mut t = CallbackTransport::new();
    assert!(t.start());
    let rx1 = t.begin_dispatch(1).unwrap();
    let rx2 = t.begin_dispatch(2).unwrap();
    t.stop();
    // Both in-flight waiters observe a closed channel: a failure, never a
    // silent hang.
    assert!(rx1.blocking_recv().is_err());
    assert!(rx2.blocking_recv().is_err());
    // Teardown is idempotent and later completions are stray.
    t.stop();
    assert!(!t.deliver(1, resp(1, 200)));
}

#[test]
fn stopped_transport_refuses_dispatch() {
    let mut t = CallbackTransport::new();
    assert!(t.start());
    t.stop();
    assert!(t.begin_dispatch(3).is_err());
    // It can be started again afterwards.
    assert!(t.start());
    assert!(t.begin_dispatch(3).is_ok());
}

#[test]
fn cancelled_dispatch_ignores_late_completion() {
    let mut t = CallbackTransport::new();
    assert!(t.start());
    let rx = t.begin_dispatch(4).unwrap();
    assert_eq!(t.on_dispatch_ack(4, 0), Ok(()));
    // The waiting side gives up (e.g. a deadline fires) before any
    // completion arrives.
    t.cancel_dispatch(4);
    assert!(rx.blocking_recv().is_err());
    assert!(!t.deliver(4, resp(4, 200)));
}

#[test]
fn frame_request_prefixes_encoded_length() {
    let m = RequestMessage::new(12);
    let encoded = m.to_bytes().unwrap();
    let framed = frame_request(&m).unwrap();
    assert_eq!(&framed[..4], &(encoded.len() as u32).to_le_bytes());
    assert_eq!(&framed[4..], &encoded[..]);
}
