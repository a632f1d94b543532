//! Transport-level dispatch rules shared by both delivery mechanisms, and
//! the callback transport's lifecycle. The surrounding process performs the
//! actual I/O and foreign calls; every decision — when dispatch is allowed,
//! what an acknowledgement code means, what teardown must do to in-flight
//! waiters — is made here, against the correlation table.

use vstd::prelude::*;
use vstd::bytes::spec_u32_to_le_bytes;
use crate::codec::{request_ok, spec_encode_request, EncodeError};
use crate::framing::frame_payload;
use crate::msg::{RequestMessage, ResponseMessage};
use crate::table::CorrelationTable;

verus! {

/// Why a dispatch could not produce a response. Every variant is mapped by
/// the front-end adapter to the same fixed 500-class reply.
#[derive(Debug, Clone, PartialEq, Eq)]
pub enum DispatchError {
    /// The external party refused the hand-off with this nonzero
    /// acknowledgement code; nothing is awaited.
    Rejected(i32),
    /// The completion channel closed before a response was transferred
    /// (teardown, cancellation, or a lost connection).
    ChannelClosed,
    /// No callback is installed: dispatch fails fast instead of hanging.
    NotConfigured,
}

/// Serializes a request and wraps it as one wire frame: 4-byte little-endian
/// length, then the encoded message. This is the writer-side computation of
/// the framed-stream transport; the caller writes the returned bytes in one
/// locked, uninterleaved write.
pub fn frame_request(m: &RequestMessage) -> (r: Result<Vec<u8>, EncodeError>)
    ensures
        (match r {
            Result::Ok(f) => {
                &&& request_ok(m@)
                &&& spec_encode_request(m@).len() <= u32::MAX
                &&& f@ == spec_u32_to_le_bytes(spec_encode_request(m@).len() as u32)
                    + spec_encode_request(m@)
            },
            Result::Err(_) => !(request_ok(m@) && spec_encode_request(m@).len() <= u32::MAX),
        }),
{
    match m.to_bytes() {
        Ok(data) => frame_payload(data.as_slice()),
        Err(e) => Err(e),
    }
}

/// The callback transport: an installed/not-installed lifecycle flag and
/// the correlation table its dispatches and completions share.
pub struct CallbackTransport {
    callback_installed: bool,
    table: CorrelationTable,
}

impl CallbackTransport {
    /// Whether the external callback is currently installed.
    pub closed spec fn installed(&self) -> bool {
        self.callback_installed
    }

    /// The identities currently in flight, with their stored slots.
    pub closed spec fn pending(&self) -> Map<
        u64,
        tokio::sync::oneshot::Sender<ResponseMessage>,
    > {
        self.table@
    }

    /// A stopped transport with nothing in flight.
    pub fn new() -> (r: Self)
        ensures
            !r.installed(),
            r.pending() == Map::<u64, tokio::sync::oneshot::Sender<ResponseMessage>>::empty(),
    {
        CallbackTransport { callback_installed: false, table: CorrelationTable::new() }
    }

    /// Marks the external callback installed. Returns false — and changes
    /// nothing — when one is already installed: installation happens once.
    pub fn start(&mut self) -> (r: bool)
        ensures
            r == !old(self).installed(),
            final(self).installed(),
            final(self).pending() == old(self).pending(),
    {
        if self.callback_installed {
            false
        } else {
            self.callback_installed = true;
            true
        }
    }

    /// Tears the transport down: clears the callback and drops every
    /// registered slot unresolved, so each pending waiter observes a
    /// closed channel rather than hanging. Idempotent.
    pub fn stop(&mut self)
        ensures
            !final(self).installed(),
            final(self).pending() == Map::<
                u64,
                tokio::sync::oneshot::Sender<ResponseMessage>,
            >::empty(),
    {
        self.callback_installed = false;
        self.table.clear();
    }

    /// Whether `id` is currently in flight on this transport.
    pub fn is_pending(&self, id: u64) -> (r: bool)
        ensures
            r == self.pending().contains_key(id),
    {
        self.table.contains(id)
    }

    /// First half of a dispatch: fails fast when no callback is installed;
    /// otherwise registers `id` and returns the waiter's receiving half.
    /// The caller then hands the request to the external entry point and
    /// reports its acknowledgement through `on_dispatch_ack`.
    pub fn begin_dispatch(&mut self, id: u64) -> (r: Result<
        tokio::sync::oneshot::Receiver<ResponseMessage>,
        DispatchError,
    >)
        requires
            !old(self).pending().contains_key(id),
        ensures
            r is Ok <==> old(self).installed(),
            final(self).installed() == old(self).installed(),
            (match r {
                Result::Ok(_) => {
                    &&& final(self).pending().contains_key(id)
                    &&& final(self).pending().remove(id) == old(self).pending()
                },
                Result::Err(e) => {
                    &&& e == DispatchError::NotConfigured
                    &&& final(self).pending() == old(self).pending()
                },
            }),
    {
        if !self.callback_installed {
            return Err(DispatchError::NotConfigured);
        }
        Ok(self.table.register(id))
    }

    /// Second half of a dispatch: interprets the external entry point's
    /// acknowledgement. Zero accepts the hand-off and the waiter stays
    /// registered; any other code rejects it, so `id` is cancelled and the
    /// rejection surfaces immediately — nothing is awaited and nothing is
    /// ever delivered for it.
    pub fn on_dispatch_ack(&mut self, id: u64, ack: i32) -> (r: Result<(), DispatchError>)
        ensures
            r is Ok <==> ack == 0,
            final(self).installed() == old(self).installed(),
            ack == 0 ==> final(self).pending() == old(self).pending(),
            ack != 0 ==> final(self).pending() == old(self).pending().remove(id) && r
                == Result::<(), DispatchError>::Err(DispatchError::Rejected(ack)),
    {
        if ack != 0 {
            self.table.cancel(id);
            Err(DispatchError::Rejected(ack))
        } else {
            Ok(())
        }
    }

    /// Abandons an in-flight dispatch: the waiting side gave up (deadline
    /// expiry, connection reset), so its registration is removed without
    /// being resolved. A completion arriving later for `id` is then stray
    /// and does nothing.
    pub fn cancel_dispatch(&mut self, id: u64)
        ensures
            final(self).pending() == old(self).pending().remove(id),
            final(self).installed() == old(self).installed(),
    {
        self.table.cancel(id);
    }

    /// Completion entry point, callable from any execution context: resolves
    /// the waiter registered under `id` with `resp`. Returns false — a
    /// per-completion misuse signal, never fatal — when no such waiter
    /// exists; no other identity is affected either way.
    pub fn deliver(&mut self, id: u64, resp: ResponseMessage) -> (r: bool)
        requires
            resp@.request_id == id,
        ensures
            r == old(self).pending().contains_key(id),
            final(self).pending() == old(self).pending().remove(id),
            final(self).installed() == old(self).installed(),
    {
        self.table.complete(id, resp)
    }
}

} // verus!
