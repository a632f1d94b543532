use httpbridge::msg::ResponseMessage;
use httpbridge::table::CorrelationTable;
use tokio::sync::oneshot::error::TryRecvError;

fn resp(id: u64, status: u16) -> ResponseMessage {
    ResponseMessage { request_id: id, status, headers: vec![], body: None }
}

#[test]
fn register_then_complete_delivers_exactly_once() {
    let mut t = CorrelationTable::new();
    let rx = t.register(7);
    assert!(t.complete(7, resp(7, 200)));
    let got = rx.blocking_recv().expect("waiter must resolve");
    assert_eq!(got, resp(7, 200));
    // The identity was consumed: a second completion finds nothing.
    assert!(!t.complete(7, resp(7, 500)));
}

#[test]
fn complete_unknown_is_a_noop() {
    let mut t = CorrelationTable::new();
    assert!(!t.complete(42, resp(42, 200)));
    let mut rx1 = t.register(1);
    // A stray completion touches no other identity's state.
    assert!(!t.complete(42, resp(42, 200)));
    assert!(matches!(rx1.try_recv(), Err(TryRecvError::Empty)));
    assert!(t.complete(1, resp(1, 204)));
    assert_eq!(rx1.try_recv().unwrap(), resp(1, 204));
}

#[test]
fn cancel_then_complete_noops_and_closes_waiter() {
    let mut t = CorrelationTable::new();
    let rx = t.register(5);
    t.cancel(5);
    assert!(!t.complete(5, resp(5, 200)));
    // The waiter observes a closed channel, not a value and not a hang.
    assert!(rx.blocking_recv().is_err());
}

#[test]
fn clear_closes_every_pending_waiter() {
    let mut t = CorrelationTable::new();
    let rx1 = t.register(1);
    let rx2 = t.register(2);
    t.clear();
    assert!(rx1.blocking_recv().is_err());
    assert!(rx2.blocking_recv().is_err());
    assert!(!t.complete(1, resp(1, 200)));
    assert!(!t.complete(2, resp(2, 200)));
}
