//! Length-prefix framing for the persistent duplex connection, and the
//! decision logic of the background reader loop. Each wire message is a
//! 4-byte little-endian payload length followed by that many payload bytes.
//! The reader rejects an advertised length of 0 or above `MAX_FRAME_LEN`
//! without ending its loop; a well-framed payload is decoded and, when it is
//! a response, resolves the matching waiter in the correlation table.

use vstd::prelude::*;
use vstd::bytes::*;
use crate::codec::{spec_decode_response, EncodeError};
use crate::msg::ResponseMessage;
use crate::table::CorrelationTable;

verus! {

/// Largest payload length the reader accepts: 10 MiB.
pub const MAX_FRAME_LEN: u32 = 10485760;

/// What the reader does with one 4-byte length prefix.
#[derive(Debug, Clone, Copy, PartialEq, Eq, Structural)]
pub enum FrameDecision {
    /// Advertised length 0 or above the cap: drop the frame, keep reading.
    Reject,
    /// Read exactly this many payload bytes as the frame's body.
    Accept(u32),
}

/// The decision owed for an advertised payload length.
pub open spec fn spec_frame_decision(len: u32) -> FrameDecision {
    if len == 0 || len > MAX_FRAME_LEN {
        FrameDecision::Reject
    } else {
        FrameDecision::Accept(len)
    }
}

/// Classifies one 4-byte little-endian length prefix read off the stream.
pub fn classify_frame_header(hdr: &[u8]) -> (r: FrameDecision)
    requires
        hdr@.len() == 4,
    ensures
        r == spec_frame_decision(spec_u32_from_le_bytes(hdr@)),
{
    let len = u32_from_le_bytes(hdr);
    if len == 0 || len > MAX_FRAME_LEN {
        FrameDecision::Reject
    } else {
        FrameDecision::Accept(len)
    }
}

/// What one completely-read frame body did to the correlation table.
#[derive(Debug, Clone, Copy, PartialEq, Eq, Structural)]
pub enum FrameOutcome {
    /// The payload is not a response encoding; the frame is dropped and the
    /// table untouched. Never fatal to the reader loop.
    Malformed,
    /// The payload decoded and the waiter with this identity was resolved.
    Completed(u64),
    /// The payload decoded but no waiter holds this identity (it already
    /// timed out, completed, or was never issued). Logged, never an error.
    Stray(u64),
}

/// Processes one fully-read frame body: decode it as a response and resolve
/// the matching waiter. Only this step of the reader loop touches the
/// table, and it removes at most the decoded response's own identity.
pub fn handle_frame(table: &mut CorrelationTable, payload: &[u8]) -> (r: FrameOutcome)
    ensures
        (match spec_decode_response(payload@) {
            Option::Some(v) => {
                &&& final(table)@ == old(table)@.remove(v.request_id)
                &&& r == (if old(table)@.contains_key(v.request_id) {
                    FrameOutcome::Completed(v.request_id)
                } else {
                    FrameOutcome::Stray(v.request_id)
                })
            },
            Option::None => {
                &&& final(table)@ == old(table)@
                &&& r == FrameOutcome::Malformed
            },
        }),
{
    match ResponseMessage::from_bytes(payload) {
        Ok(resp) => {
            let id = resp.request_id;
            if table.complete(id, resp) {
                FrameOutcome::Completed(id)
            } else {
                FrameOutcome::Stray(id)
            }
        },
        Err(_) => FrameOutcome::Malformed,
    }
}

/// Wraps a serialized message for the wire: 4-byte little-endian length,
/// then the payload. Fails exactly when the payload is too long for the
/// 32-bit prefix.
pub fn frame_payload(payload: &[u8]) -> (r: Result<Vec<u8>, EncodeError>)
    ensures
        (match r {
            Result::Ok(f) => payload@.len() <= u32::MAX && f@ == spec_u32_to_le_bytes(
                payload@.len() as u32,
            ) + payload@,
            Result::Err(_) => payload@.len() > u32::MAX,
        }),
{
    if payload.len() as u64 > u32::MAX as u64 {
        return Err(EncodeError);
    }
    let mut out = u32_to_le_bytes(payload.len() as u32);
    let ghost mid = out@;
    let mut i: usize = 0;
    while i < payload.len()
        invariant
            i <= payload@.len(),
            out@ == mid + payload@.take(i as int),
        decreases payload@.len() - i,
    {
        out.push(*vstd::slice::slice_index_get(payload, i));
        proof {
            assert(mid + payload@.take(i as int) + seq![payload@[i as int]] =~= mid + payload@.take(
                i + 1,
            ));
        }
        i = i + 1;
    }
    proof {
        assert(payload@.take(payload@.len() as int) =~= payload@);
    }
    Ok(out)
}

} // verus!
