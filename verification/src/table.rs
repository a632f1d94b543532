//! The correlation table: a registry from request identity to the single-use
//! completion slot a dispatcher waits on. An identity is inserted once by the
//! dispatcher and removed exactly once — by a successful completion, or by
//! the dispatcher itself when it gives up. The slot is one half of a
//! single-use channel; the receiving half is returned to the dispatcher, who
//! awaits it from whatever task or thread it pleases.

use vstd::prelude::*;
use std::collections::HashMap;
use crate::msg::ResponseMessage;

verus! {

#[verifier::external_type_specification]
#[verifier::external_body]
#[verifier::reject_recursive_types(T)]
pub struct ExSender<T>(tokio::sync::oneshot::Sender<T>);

#[verifier::external_type_specification]
#[verifier::external_body]
#[verifier::reject_recursive_types(T)]
pub struct ExReceiver<T>(tokio::sync::oneshot::Receiver<T>);

#[verifier::external_type_specification]
#[verifier::external_body]
pub struct ExRecvError(tokio::sync::oneshot::error::RecvError);

/// Relies on `tokio::sync::oneshot::channel`: returns the linked halves of a
/// fresh single-use channel; the value sent into the first is received,
/// once, by the second.
#[verifier::external_body]
fn oneshot_pair() -> (tokio::sync::oneshot::Sender<ResponseMessage>, tokio::sync::oneshot::Receiver<
    ResponseMessage,
>) {
    tokio::sync::oneshot::channel()
}

/// Relies on `tokio::sync::oneshot::Sender::send`: transfers `resp` to the
/// receiving half, or reports failure when the receiver was already dropped.
#[verifier::external_body]
fn slot_send(tx: tokio::sync::oneshot::Sender<ResponseMessage>, resp: ResponseMessage) -> bool {
    match tx.send(resp) {
        Ok(()) => true,
        Err(_) => false,
    }
}

/// Registry of in-flight identities. Modelled as the map from each
/// registered identity to its stored completion slot.
pub struct CorrelationTable {
    slots: HashMap<u64, tokio::sync::oneshot::Sender<ResponseMessage>>,
}

impl View for CorrelationTable {
    type V = Map<u64, tokio::sync::oneshot::Sender<ResponseMessage>>;

    closed spec fn view(&self) -> Map<u64, tokio::sync::oneshot::Sender<ResponseMessage>> {
        self.slots@
    }
}

impl CorrelationTable {
    /// A table with nothing in flight.
    pub fn new() -> (r: Self)
        ensures
            r@ == Map::<u64, tokio::sync::oneshot::Sender<ResponseMessage>>::empty(),
    {
        CorrelationTable { slots: HashMap::new() }
    }

    /// Whether `id` is currently registered.
    pub fn contains(&self, id: u64) -> (r: bool)
        ensures
            r == self@.contains_key(id),
    {
        self.slots.contains_key(&id)
    }

    /// Creates the single-use completion slot for `id`, stores its sending
    /// half, and returns the receiving half for the dispatcher to await.
    /// The dispatcher must guarantee `id` is not already in flight.
    pub fn register(&mut self, id: u64) -> (rx: tokio::sync::oneshot::Receiver<ResponseMessage>)
        requires
            !old(self)@.contains_key(id),
        ensures
            final(self)@.contains_key(id),
            final(self)@.remove(id) == old(self)@,
    {
        let (tx, rx) = oneshot_pair();
        self.slots.insert(id, tx);
        proof {
            assert(self@.remove(id) =~= old(self)@);
        }
        rx
    }

    /// Removes and resolves the slot for `id` if one is present, feeding it
    /// `resp`; returns false (and changes nothing) when no slot is
    /// registered — the expected outcome for an identity that already timed
    /// out, was already completed, or was never issued.
    pub fn complete(&mut self, id: u64, resp: ResponseMessage) -> (r: bool)
        ensures
            r == old(self)@.contains_key(id),
            final(self)@ == old(self)@.remove(id),
    {
        match self.slots.remove(&id) {
            Some(tx) => {
                // A send failure means the waiter already gave up and
                // dropped its receiver; the completion is dropped with it.
                let _delivered = slot_send(tx, resp);
                true
            },
            None => {
                proof {
                    assert(old(self)@.remove(id) =~= old(self)@);
                }
                false
            },
        }
    }

    /// Removes the slot for `id` without resolving it; the waiter observes a
    /// closed channel. Used when the awaiting task gives up. A later
    /// `complete(id, ..)` then safely does nothing.
    pub fn cancel(&mut self, id: u64)
        ensures
            final(self)@ == old(self)@.remove(id),
    {
        match self.slots.remove(&id) {
            Some(_tx) => (),
            None => {
                proof {
                    assert(old(self)@.remove(id) =~= old(self)@);
                }
            },
        }
    }

    /// Drops every registered slot, unresolved: every still-pending waiter
    /// observes a closed channel. Used at transport teardown.
    pub fn clear(&mut self)
        ensures
            final(self)@ == Map::<u64, tokio::sync::oneshot::Sender<ResponseMessage>>::empty(),
    {
        self.slots.clear();
    }
}

/// Register-then-complete law: starting from a table without `id`, a
/// `register(id)` (post-state `t1`) followed by a `complete(id, resp)` with
/// no intervening removal finds the slot — `complete` reports true, because
/// `t1` contains `id` — consumes exactly that identity, restoring the table
/// to its prior state, and a second `complete(id, ..)` then reports false.
/// Delivery of `resp` itself rides on the single-use channel stored for
/// `id`, which `register` created and `complete` resolves at most once.
pub proof fn lemma_register_then_complete(
    t0: Map<u64, tokio::sync::oneshot::Sender<ResponseMessage>>,
    t1: Map<u64, tokio::sync::oneshot::Sender<ResponseMessage>>,
    t2: Map<u64, tokio::sync::oneshot::Sender<ResponseMessage>>,
    id: u64,
)
    requires
        !t0.contains_key(id),  // before the registration
        t1.contains_key(id),  // after it, as `register` ensures
        t1.remove(id) == t0,
        t2 == t1.remove(id),  // after the completion, as `complete` ensures
    ensures
        t2 == t0,
        !t2.contains_key(id),
{
}

/// Independence law: consuming one identity — by completion or
/// cancellation — leaves every other identity registered, with the very
/// slot stored for it. Completions may therefore arrive in any order, each
/// resolving only its own waiter.
pub proof fn lemma_completion_independent(
    t0: Map<u64, tokio::sync::oneshot::Sender<ResponseMessage>>,
    consumed: u64,
    other: u64,
)
    requires
        consumed != other,
        t0.contains_key(other),
    ensures
        t0.remove(consumed).contains_key(other),
        t0.remove(consumed)[other] == t0[other],
{
}

/// Stray-completion law: completing an identity that is not registered —
/// never issued, already resolved, or already cancelled — reports false and
/// leaves every identity's state exactly as it was.
pub proof fn lemma_complete_unknown_is_noop(
    t0: Map<u64, tokio::sync::oneshot::Sender<ResponseMessage>>,
    id: u64,
)
    requires
        !t0.contains_key(id),
    ensures
        t0.remove(id) == t0,
        forall|other: u64| t0.remove(id).contains_key(other) == t0.contains_key(other),
        forall|other: u64| #[trigger] t0.contains_key(other) ==> t0.remove(id)[other] == t0[other],
{
    assert(t0.remove(id) =~= t0);
}

} // verus!
