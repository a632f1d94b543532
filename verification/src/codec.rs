//! Binary wire codec for the framed-stream transport.
//!
//! Each message is a tagged, schema-based binary value: every field carries a
//! one-byte tag, integers are little-endian and fixed width, strings are
//! length-prefixed UTF-8, byte strings and lists are length- or
//! count-prefixed. `spec_encode_request`/`spec_encode_response` are the
//! authoritative byte-level meaning of a message; decoding is specified by
//! `dec_request`/`dec_response` and accepts exactly the encoder's output
//! (`lemma_request_round_trip`, `lemma_response_round_trip`).

use vstd::prelude::*;
use vstd::bytes::*;
use vstd::utf8::*;
use crate::msg::{headers_view, Header, HeaderV, RequestMessage, RequestV, ResponseMessage, ResponseV};

verus! {

pub const TAG_U64: u8 = 1;
pub const TAG_U16: u8 = 2;
pub const TAG_STR: u8 = 3;
pub const TAG_BIN: u8 = 4;
pub const TAG_NONE: u8 = 5;
pub const TAG_SOME: u8 = 6;
pub const TAG_LIST: u8 = 7;
pub const TAG_REQ: u8 = 16;
pub const TAG_RESP: u8 = 17;

/// Encoding fails only when a length does not fit in the 32-bit prefix.
#[derive(Debug, Clone, PartialEq, Eq)]
pub struct EncodeError;

/// The bytes are truncated, hold an unknown tag, a bad length, invalid
/// UTF-8, or trailing garbage.
#[derive(Debug, Clone, PartialEq, Eq)]
pub struct DecodeError;

// ---------------------------------------------------------------------------
// Specification: encoding
// ---------------------------------------------------------------------------

pub open spec fn enc_u64(x: u64) -> Seq<u8> {
    seq![TAG_U64] + spec_u64_to_le_bytes(x)
}

pub open spec fn enc_u16(x: u16) -> Seq<u8> {
    seq![TAG_U16] + spec_u16_to_le_bytes(x)
}

pub open spec fn enc_str(s: Seq<char>) -> Seq<u8> {
    seq![TAG_STR] + spec_u32_to_le_bytes(encode_utf8(s).len() as u32) + encode_utf8(s)
}

pub open spec fn enc_bytes(b: Seq<u8>) -> Seq<u8> {
    seq![TAG_BIN] + spec_u32_to_le_bytes(b.len() as u32) + b
}

pub open spec fn enc_opt_bytes(b: Option<Seq<u8>>) -> Seq<u8> {
    match b {
        Option::None => seq![TAG_NONE],
        Option::Some(bb) => seq![TAG_SOME] + enc_bytes(bb),
    }
}

pub open spec fn enc_str_seq(ss: Seq<Seq<char>>) -> Seq<u8>
    decreases ss.len(),
{
    if ss.len() == 0 {
        Seq::<u8>::empty()
    } else {
        enc_str(ss[0]) + enc_str_seq(ss.drop_first())
    }
}

pub open spec fn enc_str_list(ss: Seq<Seq<char>>) -> Seq<u8> {
    seq![TAG_LIST] + spec_u32_to_le_bytes(ss.len() as u32) + enc_str_seq(ss)
}

pub open spec fn enc_header(h: HeaderV) -> Seq<u8> {
    enc_str(h.name) + enc_str_list(h.values)
}

pub open spec fn enc_header_seq(hs: Seq<HeaderV>) -> Seq<u8>
    decreases hs.len(),
{
    if hs.len() == 0 {
        Seq::<u8>::empty()
    } else {
        enc_header(hs[0]) + enc_header_seq(hs.drop_first())
    }
}

pub open spec fn enc_headers(hs: Seq<HeaderV>) -> Seq<u8> {
    seq![TAG_LIST] + spec_u32_to_le_bytes(hs.len() as u32) + enc_header_seq(hs)
}

pub open spec fn spec_encode_request(v: RequestV) -> Seq<u8> {
    seq![TAG_REQ] + enc_u64(v.request_id) + enc_str(v.method) + enc_str(v.uri)
        + enc_str(v.protocol) + enc_headers(v.headers) + enc_opt_bytes(v.body)
        + enc_str(v.remote_addr) + enc_str(v.local_addr)
}

pub open spec fn spec_encode_response(v: ResponseV) -> Seq<u8> {
    seq![TAG_RESP] + enc_u64(v.request_id) + enc_u16(v.status) + enc_headers(v.headers)
        + enc_opt_bytes(v.body)
}

// ---------------------------------------------------------------------------
// Specification: which values are encodable (every length fits 32 bits)
// ---------------------------------------------------------------------------

pub open spec fn str_ok(s: Seq<char>) -> bool {
    encode_utf8(s).len() <= u32::MAX
}

pub open spec fn bytes_ok(b: Seq<u8>) -> bool {
    b.len() <= u32::MAX
}

pub open spec fn opt_bytes_ok(b: Option<Seq<u8>>) -> bool {
    b matches Option::Some(bb) ==> bytes_ok(bb)
}

pub open spec fn header_ok(h: HeaderV) -> bool {
    &&& str_ok(h.name)
    &&& h.values.len() <= u32::MAX
    &&& forall|i: int| 0 <= i < h.values.len() ==> str_ok(#[trigger] h.values[i])
}

pub open spec fn headers_ok(hs: Seq<HeaderV>) -> bool {
    &&& hs.len() <= u32::MAX
    &&& forall|i: int| 0 <= i < hs.len() ==> header_ok(#[trigger] hs[i])
}

pub open spec fn request_ok(v: RequestV) -> bool {
    &&& str_ok(v.method)
    &&& str_ok(v.uri)
    &&& str_ok(v.protocol)
    &&& headers_ok(v.headers)
    &&& opt_bytes_ok(v.body)
    &&& str_ok(v.remote_addr)
    &&& str_ok(v.local_addr)
}

pub open spec fn response_ok(v: ResponseV) -> bool {
    &&& headers_ok(v.headers)
    &&& opt_bytes_ok(v.body)
}

// ---------------------------------------------------------------------------
// Specification: decoding. Each function consumes a prefix of `b` and
// returns the decoded value with the remaining bytes, or `None` when the
// prefix is not an encoding.
// ---------------------------------------------------------------------------

pub open spec fn dec_u64(b: Seq<u8>) -> Option<(u64, Seq<u8>)> {
    if b.len() >= 9 && b[0] == TAG_U64 {
        Option::Some((spec_u64_from_le_bytes(b.subrange(1, 9)), b.skip(9)))
    } else {
        Option::None
    }
}

pub open spec fn dec_u16(b: Seq<u8>) -> Option<(u16, Seq<u8>)> {
    if b.len() >= 3 && b[0] == TAG_U16 {
        Option::Some((spec_u16_from_le_bytes(b.subrange(1, 3)), b.skip(3)))
    } else {
        Option::None
    }
}

pub open spec fn dec_str(b: Seq<u8>) -> Option<(Seq<char>, Seq<u8>)> {
    if b.len() >= 5 && b[0] == TAG_STR {
        let n = spec_u32_from_le_bytes(b.subrange(1, 5)) as int;
        if b.len() >= 5 + n {
            let u = b.subrange(5, 5 + n);
            if valid_utf8(u) {
                Option::Some((decode_utf8(u), b.skip(5 + n)))
            } else {
                Option::None
            }
        } else {
            Option::None
        }
    } else {
        Option::None
    }
}

pub open spec fn dec_bytes(b: Seq<u8>) -> Option<(Seq<u8>, Seq<u8>)> {
    if b.len() >= 5 && b[0] == TAG_BIN {
        let n = spec_u32_from_le_bytes(b.subrange(1, 5)) as int;
        if b.len() >= 5 + n {
            Option::Some((b.subrange(5, 5 + n), b.skip(5 + n)))
        } else {
            Option::None
        }
    } else {
        Option::None
    }
}

pub open spec fn dec_opt_bytes(b: Seq<u8>) -> Option<(Option<Seq<u8>>, Seq<u8>)> {
    if b.len() >= 1 && b[0] == TAG_NONE {
        Option::Some((Option::None, b.skip(1)))
    } else if b.len() >= 1 && b[0] == TAG_SOME {
        match dec_bytes(b.skip(1)) {
            Option::Some((bb, r)) => Option::Some((Option::Some(bb), r)),
            Option::None => Option::None,
        }
    } else {
        Option::None
    }
}

pub open spec fn dec_str_seq(b: Seq<u8>, n: nat) -> Option<(Seq<Seq<char>>, Seq<u8>)>
    decreases n,
{
    if n == 0 {
        Option::Some((Seq::<Seq<char>>::empty(), b))
    } else {
        match dec_str(b) {
            Option::Some((s, r)) => match dec_str_seq(r, (n - 1) as nat) {
                Option::Some((ss, r2)) => Option::Some((seq![s] + ss, r2)),
                Option::None => Option::None,
            },
            Option::None => Option::None,
        }
    }
}

pub open spec fn dec_str_list(b: Seq<u8>) -> Option<(Seq<Seq<char>>, Seq<u8>)> {
    if b.len() >= 5 && b[0] == TAG_LIST {
        dec_str_seq(b.skip(5), spec_u32_from_le_bytes(b.subrange(1, 5)) as nat)
    } else {
        Option::None
    }
}

pub open spec fn dec_header(b: Seq<u8>) -> Option<(HeaderV, Seq<u8>)> {
    match dec_str(b) {
        Option::Some((name, r)) => match dec_str_list(r) {
            Option::Some((vals, r2)) => Option::Some((HeaderV { name, values: vals }, r2)),
            Option::None => Option::None,
        },
        Option::None => Option::None,
    }
}

pub open spec fn dec_header_seq(b: Seq<u8>, n: nat) -> Option<(Seq<HeaderV>, Seq<u8>)>
    decreases n,
{
    if n == 0 {
        Option::Some((Seq::<HeaderV>::empty(), b))
    } else {
        match dec_header(b) {
            Option::Some((h, r)) => match dec_header_seq(r, (n - 1) as nat) {
                Option::Some((hs, r2)) => Option::Some((seq![h] + hs, r2)),
                Option::None => Option::None,
            },
            Option::None => Option::None,
        }
    }
}

pub open spec fn dec_headers(b: Seq<u8>) -> Option<(Seq<HeaderV>, Seq<u8>)> {
    if b.len() >= 5 && b[0] == TAG_LIST {
        dec_header_seq(b.skip(5), spec_u32_from_le_bytes(b.subrange(1, 5)) as nat)
    } else {
        Option::None
    }
}

pub open spec fn dec_request(b: Seq<u8>) -> Option<(RequestV, Seq<u8>)> {
    if b.len() >= 1 && b[0] == TAG_REQ {
        match dec_u64(b.skip(1)) {
            Option::Some((id, r1)) => match dec_str(r1) {
                Option::Some((method, r2)) => match dec_str(r2) {
                    Option::Some((uri, r3)) => match dec_str(r3) {
                        Option::Some((protocol, r4)) => match dec_headers(r4) {
                            Option::Some((headers, r5)) => match dec_opt_bytes(r5) {
                                Option::Some((body, r6)) => match dec_str(r6) {
                                    Option::Some((remote, r7)) => match dec_str(r7) {
                                        Option::Some((local, r8)) => Option::Some((
                                            RequestV {
                                                request_id: id,
                                                method,
                                                uri,
                                                protocol,
                                                headers,
                                                body,
                                                remote_addr: remote,
                                                local_addr: local,
                                            },
                                            r8,
                                        )),
                                        Option::None => Option::None,
                                    },
                                    Option::None => Option::None,
                                },
                                Option::None => Option::None,
                            },
                            Option::None => Option::None,
                        },
                        Option::None => Option::None,
                    },
                    Option::None => Option::None,
                },
                Option::None => Option::None,
            },
            Option::None => Option::None,
        }
    } else {
        Option::None
    }
}

pub open spec fn dec_response(b: Seq<u8>) -> Option<(ResponseV, Seq<u8>)> {
    if b.len() >= 1 && b[0] == TAG_RESP {
        match dec_u64(b.skip(1)) {
            Option::Some((id, r1)) => match dec_u16(r1) {
                Option::Some((status, r2)) => match dec_headers(r2) {
                    Option::Some((headers, r3)) => match dec_opt_bytes(r3) {
                        Option::Some((body, r4)) => Option::Some((
                            ResponseV { request_id: id, status, headers, body },
                            r4,
                        )),
                        Option::None => Option::None,
                    },
                    Option::None => Option::None,
                },
                Option::None => Option::None,
            },
            Option::None => Option::None,
        }
    } else {
        Option::None
    }
}

/// A whole frame decodes to a request exactly when `dec_request` consumes
/// every byte.
pub open spec fn spec_decode_request(b: Seq<u8>) -> Option<RequestV> {
    match dec_request(b) {
        Option::Some((v, r)) => if r.len() == 0 {
            Option::Some(v)
        } else {
            Option::None
        },
        Option::None => Option::None,
    }
}

/// A whole frame decodes to a response exactly when `dec_response` consumes
/// every byte.
pub open spec fn spec_decode_response(b: Seq<u8>) -> Option<ResponseV> {
    match dec_response(b) {
        Option::Some((v, r)) => if r.len() == 0 {
            Option::Some(v)
        } else {
            Option::None
        },
        Option::None => Option::None,
    }
}

// ---------------------------------------------------------------------------
// Round trip: decoding inverts encoding
// ---------------------------------------------------------------------------

pub proof fn lemma_dec_u64(x: u64, rest: Seq<u8>)
    ensures
        dec_u64(enc_u64(x) + rest) == Option::Some((x, rest)),
{
    lemma_auto_spec_u64_to_from_le_bytes();
    let b = enc_u64(x) + rest;
    assert(b.subrange(1, 9) =~= spec_u64_to_le_bytes(x));
    assert(b.skip(9) =~= rest);
}

pub proof fn lemma_dec_u16(x: u16, rest: Seq<u8>)
    ensures
        dec_u16(enc_u16(x) + rest) == Option::Some((x, rest)),
{
    lemma_auto_spec_u16_to_from_le_bytes();
    let b = enc_u16(x) + rest;
    assert(b.subrange(1, 3) =~= spec_u16_to_le_bytes(x));
    assert(b.skip(3) =~= rest);
}

pub proof fn lemma_dec_str(s: Seq<char>, rest: Seq<u8>)
    requires
        str_ok(s),
    ensures
        dec_str(enc_str(s) + rest) == Option::Some((s, rest)),
{
    lemma_auto_spec_u32_to_from_le_bytes();
    let u = encode_utf8(s);
    let n = u.len() as u32;
    let b = enc_str(s) + rest;
    assert(b.subrange(1, 5) =~= spec_u32_to_le_bytes(n));
    assert(n as int == u.len());
    assert(b.len() == 5 + u.len() + rest.len());
    assert(b.subrange(5, 5 + u.len() as int) =~= u);
    encode_utf8_valid_utf8(s);
    encode_utf8_decode_utf8(s);
    assert(b.skip(5 + u.len() as int) =~= rest);
}

pub proof fn lemma_dec_bytes(x: Seq<u8>, rest: Seq<u8>)
    requires
        bytes_ok(x),
    ensures
        dec_bytes(enc_bytes(x) + rest) == Option::Some((x, rest)),
{
    lemma_auto_spec_u32_to_from_le_bytes();
    let b = enc_bytes(x) + rest;
    assert(b.subrange(1, 5) =~= spec_u32_to_le_bytes(x.len() as u32));
    assert(b.subrange(5, 5 + x.len() as int) =~= x);
    assert(b.skip(5 + x.len() as int) =~= rest);
}

pub proof fn lemma_dec_opt_bytes(x: Option<Seq<u8>>, rest: Seq<u8>)
    requires
        opt_bytes_ok(x),
    ensures
        dec_opt_bytes(enc_opt_bytes(x) + rest) == Option::Some((x, rest)),
{
    let b = enc_opt_bytes(x) + rest;
    match x {
        Option::None => {
            assert(b.skip(1) =~= rest);
        }
        Option::Some(bb) => {
            assert(b[0] == TAG_SOME);
            assert(b.skip(1) =~= enc_bytes(bb) + rest);
            lemma_dec_bytes(bb, rest);
        }
    }
}

pub proof fn lemma_dec_str_seq(ss: Seq<Seq<char>>, rest: Seq<u8>)
    requires
        forall|i: int| 0 <= i < ss.len() ==> str_ok(#[trigger] ss[i]),
    ensures
        dec_str_seq(enc_str_seq(ss) + rest, ss.len()) == Option::Some((ss, rest)),
    decreases ss.len(),
{
    if ss.len() == 0 {
        assert(enc_str_seq(ss) + rest =~= rest);
        assert(ss =~= Seq::<Seq<char>>::empty());
    } else {
        let b = enc_str_seq(ss) + rest;
        let tail = ss.drop_first();
        assert(b =~= enc_str(ss[0]) + (enc_str_seq(tail) + rest));
        lemma_dec_str(ss[0], enc_str_seq(tail) + rest);
        lemma_dec_str_seq(tail, rest);
        assert(seq![ss[0]] + tail =~= ss);
    }
}

pub proof fn lemma_dec_str_list(ss: Seq<Seq<char>>, rest: Seq<u8>)
    requires
        ss.len() <= u32::MAX,
        forall|i: int| 0 <= i < ss.len() ==> str_ok(#[trigger] ss[i]),
    ensures
        dec_str_list(enc_str_list(ss) + rest) == Option::Some((ss, rest)),
{
    lemma_auto_spec_u32_to_from_le_bytes();
    let b = enc_str_list(ss) + rest;
    assert(b.subrange(1, 5) =~= spec_u32_to_le_bytes(ss.len() as u32));
    assert(b.skip(5) =~= enc_str_seq(ss) + rest);
    lemma_dec_str_seq(ss, rest);
}

pub proof fn lemma_dec_header(h: HeaderV, rest: Seq<u8>)
    requires
        header_ok(h),
    ensures
        dec_header(enc_header(h) + rest) == Option::Some((h, rest)),
{
    let b = enc_header(h) + rest;
    assert(b =~= enc_str(h.name) + (enc_str_list(h.values) + rest));
    lemma_dec_str(h.name, enc_str_list(h.values) + rest);
    lemma_dec_str_list(h.values, rest);
}

pub proof fn lemma_dec_header_seq(hs: Seq<HeaderV>, rest: Seq<u8>)
    requires
        forall|i: int| 0 <= i < hs.len() ==> header_ok(#[trigger] hs[i]),
    ensures
        dec_header_seq(enc_header_seq(hs) + rest, hs.len()) == Option::Some((hs, rest)),
    decreases hs.len(),
{
    if hs.len() == 0 {
        assert(enc_header_seq(hs) + rest =~= rest);
        assert(hs =~= Seq::<HeaderV>::empty());
    } else {
        let b = enc_header_seq(hs) + rest;
        let tail = hs.drop_first();
        assert(b =~= enc_header(hs[0]) + (enc_header_seq(tail) + rest));
        lemma_dec_header(hs[0], enc_header_seq(tail) + rest);
        lemma_dec_header_seq(tail, rest);
        assert(seq![hs[0]] + tail =~= hs);
    }
}

pub proof fn lemma_dec_headers(hs: Seq<HeaderV>, rest: Seq<u8>)
    requires
        headers_ok(hs),
    ensures
        dec_headers(enc_headers(hs) + rest) == Option::Some((hs, rest)),
{
    lemma_auto_spec_u32_to_from_le_bytes();
    let b = enc_headers(hs) + rest;
    assert(b.subrange(1, 5) =~= spec_u32_to_le_bytes(hs.len() as u32));
    assert(b.skip(5) =~= enc_header_seq(hs) + rest);
    lemma_dec_header_seq(hs, rest);
}

/// Round-trip law, request side: every encodable request decodes back to
/// itself, in every field.
#[verifier::rlimit(100)]
#[verifier::spinoff_prover]
pub proof fn lemma_request_round_trip(v: RequestV)
    requires
        request_ok(v),
    ensures
        spec_decode_request(spec_encode_request(v)) == Option::Some(v),
{
    let b = spec_encode_request(v);
    let r8 = Seq::<u8>::empty();
    let e_local = enc_str(v.local_addr) + r8;
    let e_remote = enc_str(v.remote_addr) + e_local;
    let e_body = enc_opt_bytes(v.body) + e_remote;
    let e_headers = enc_headers(v.headers) + e_body;
    let e_protocol = enc_str(v.protocol) + e_headers;
    let e_uri = enc_str(v.uri) + e_protocol;
    let e_method = enc_str(v.method) + e_uri;
    let e_id = enc_u64(v.request_id) + e_method;
    assert(b.skip(1) =~= e_id);
    lemma_dec_u64(v.request_id, e_method);
    assert(enc_str(v.local_addr) + r8 =~= enc_str(v.local_addr));
    lemma_dec_str(v.method, e_uri);
    lemma_dec_str(v.uri, e_protocol);
    lemma_dec_str(v.protocol, e_headers);
    lemma_dec_headers(v.headers, e_body);
    lemma_dec_opt_bytes(v.body, e_remote);
    lemma_dec_str(v.remote_addr, e_local);
    lemma_dec_str(v.local_addr, r8);
}

/// Round-trip law, response side.
pub proof fn lemma_response_round_trip(v: ResponseV)
    requires
        response_ok(v),
    ensures
        spec_decode_response(spec_encode_response(v)) == Option::Some(v),
{
    let b = spec_encode_response(v);
    let r4 = Seq::<u8>::empty();
    let e_body = enc_opt_bytes(v.body) + r4;
    let e_headers = enc_headers(v.headers) + e_body;
    let e_status = enc_u16(v.status) + e_headers;
    let e_id = enc_u64(v.request_id) + e_status;
    assert(b.skip(1) =~= e_id);
    lemma_dec_u64(v.request_id, e_status);
    assert(enc_opt_bytes(v.body) + r4 =~= enc_opt_bytes(v.body));
    lemma_dec_u16(v.status, e_headers);
    lemma_dec_headers(v.headers, e_body);
    lemma_dec_opt_bytes(v.body, r4);
}

// ---------------------------------------------------------------------------
// Executable decoding
// ---------------------------------------------------------------------------

/// Relies on `String::from_utf8`: it succeeds exactly on valid UTF-8 input
/// and yields the character sequence those bytes encode.
#[verifier::external_body]
fn string_from_utf8(v: Vec<u8>) -> (r: Option<String>)
    ensures
        r matches Option::Some(s) ==> valid_utf8(v@) && s@ == decode_utf8(v@),
        r is None ==> !valid_utf8(v@),
{
    match String::from_utf8(v) {
        Ok(s) => Some(s),
        Err(_) => None,
    }
}

fn read_u64(data: &[u8], pos: usize) -> (r: Option<(u64, usize)>)
    requires
        pos <= data@.len(),
    ensures
        (match r {
            Option::Some((x, p)) => {
                &&& pos < p <= data@.len()
                &&& dec_u64(data@.skip(pos as int)) == Option::Some((x, data@.skip(p as int)))
            },
            Option::None => dec_u64(data@.skip(pos as int)) is None,
        }),
{
    let ghost b = data@.skip(pos as int);
    if data.len() - pos < 9 {
        return None;
    }
    if *vstd::slice::slice_index_get(data, pos) != TAG_U64 {
        return None;
    }
    let x = u64_from_le_bytes(vstd::slice::slice_subrange(data, pos + 1, pos + 9));
    proof {
        assert(data@.subrange(pos + 1, pos + 9) =~= b.subrange(1, 9));
        assert(data@.skip(pos + 9) =~= b.skip(9));
    }
    Some((x, pos + 9))
}

fn read_u16(data: &[u8], pos: usize) -> (r: Option<(u16, usize)>)
    requires
        pos <= data@.len(),
    ensures
        (match r {
            Option::Some((x, p)) => {
                &&& pos < p <= data@.len()
                &&& dec_u16(data@.skip(pos as int)) == Option::Some((x, data@.skip(p as int)))
            },
            Option::None => dec_u16(data@.skip(pos as int)) is None,
        }),
{
    let ghost b = data@.skip(pos as int);
    if data.len() - pos < 3 {
        return None;
    }
    if *vstd::slice::slice_index_get(data, pos) != TAG_U16 {
        return None;
    }
    let x = u16_from_le_bytes(vstd::slice::slice_subrange(data, pos + 1, pos + 3));
    proof {
        assert(data@.subrange(pos + 1, pos + 3) =~= b.subrange(1, 3));
        assert(data@.skip(pos + 3) =~= b.skip(3));
    }
    Some((x, pos + 3))
}

/// Reads a 32-bit length prefix at `pos + 1` (after the tag byte `tag`) and
/// returns the payload bounds.
fn read_len_prefixed(data: &[u8], pos: usize, tag: u8) -> (r: Option<(usize, usize)>)
    requires
        pos <= data@.len(),
    ensures
        (match r {
            Option::Some((start, end)) => {
                let b = data@.skip(pos as int);
                &&& b.len() >= 5
                &&& b[0] == tag
                &&& start == pos + 5
                &&& end - start == spec_u32_from_le_bytes(b.subrange(1, 5)) as int
                &&& pos < start <= end <= data@.len()
            },
            Option::None => {
                let b = data@.skip(pos as int);
                !(b.len() >= 5 && b[0] == tag && b.len() >= 5 + spec_u32_from_le_bytes(
                    b.subrange(1, 5),
                ) as int)
            },
        }),
{
    let ghost b = data@.skip(pos as int);
    if data.len() - pos < 5 {
        return None;
    }
    if *vstd::slice::slice_index_get(data, pos) != tag {
        return None;
    }
    let n = u32_from_le_bytes(vstd::slice::slice_subrange(data, pos + 1, pos + 5));
    proof {
        assert(data@.subrange(pos + 1, pos + 5) =~= b.subrange(1, 5));
    }
    let avail = data.len() - (pos + 5);
    if (avail as u64) < (n as u64) {
        return None;
    }
    Some((pos + 5, pos + 5 + (n as usize)))
}

fn read_str(data: &[u8], pos: usize) -> (r: Option<(String, usize)>)
    requires
        pos <= data@.len(),
    ensures
        (match r {
            Option::Some((s, p)) => {
                &&& pos < p <= data@.len()
                &&& dec_str(data@.skip(pos as int)) == Option::Some((s@, data@.skip(p as int)))
            },
            Option::None => dec_str(data@.skip(pos as int)) is None,
        }),
{
    let ghost b = data@.skip(pos as int);
    match read_len_prefixed(data, pos, TAG_STR) {
        Some((start, end)) => {
            let bytes = vstd::slice::slice_to_vec(vstd::slice::slice_subrange(data, start, end));
            proof {
                assert(data@.subrange(start as int, end as int) =~= b.subrange(
                    5,
                    5 + (end - start),
                ));
            }
            match string_from_utf8(bytes) {
                Some(s) => {
                    proof {
                        assert(data@.skip(end as int) =~= b.skip(5 + (end - start)));
                    }
                    Some((s, end))
                },
                None => None,
            }
        },
        None => None,
    }
}

fn read_bytes(data: &[u8], pos: usize) -> (r: Option<(Vec<u8>, usize)>)
    requires
        pos <= data@.len(),
    ensures
        (match r {
            Option::Some((v, p)) => {
                &&& pos < p <= data@.len()
                &&& dec_bytes(data@.skip(pos as int)) == Option::Some((v@, data@.skip(p as int)))
            },
            Option::None => dec_bytes(data@.skip(pos as int)) is None,
        }),
{
    let ghost b = data@.skip(pos as int);
    match read_len_prefixed(data, pos, TAG_BIN) {
        Some((start, end)) => {
            let bytes = vstd::slice::slice_to_vec(vstd::slice::slice_subrange(data, start, end));
            proof {
                assert(data@.subrange(start as int, end as int) =~= b.subrange(
                    5,
                    5 + (end - start),
                ));
                assert(data@.skip(end as int) =~= b.skip(5 + (end - start)));
            }
            Some((bytes, end))
        },
        None => None,
    }
}

fn read_opt_bytes(data: &[u8], pos: usize) -> (r: Option<(Option<Vec<u8>>, usize)>)
    requires
        pos <= data@.len(),
    ensures
        (match r {
            Option::Some((ob, p)) => {
                &&& pos < p <= data@.len()
                &&& dec_opt_bytes(data@.skip(pos as int)) == Option::Some(
                    (ob.deep_view(), data@.skip(p as int)),
                )
            },
            Option::None => dec_opt_bytes(data@.skip(pos as int)) is None,
        }),
{
    let ghost b = data@.skip(pos as int);
    if data.len() - pos < 1 {
        return None;
    }
    let tag = *vstd::slice::slice_index_get(data, pos);
    if tag == TAG_NONE {
        proof {
            assert(data@.skip(pos + 1) =~= b.skip(1));
        }
        Some((None, pos + 1))
    } else if tag == TAG_SOME {
        proof {
            assert(data@.skip(pos + 1) =~= b.skip(1));
        }
        match read_bytes(data, pos + 1) {
            Some((v, p)) => Some((Some(v), p)),
            None => None,
        }
    } else {
        None
    }
}

fn read_str_seq(data: &[u8], pos: usize, n: u32) -> (r: Option<(Vec<String>, usize)>)
    requires
        pos <= data@.len(),
    ensures
        (match r {
            Option::Some((vs, p)) => {
                &&& pos <= p <= data@.len()
                &&& dec_str_seq(data@.skip(pos as int), n as nat) == Option::Some(
                    (vs.deep_view(), data@.skip(p as int)),
                )
            },
            Option::None => dec_str_seq(data@.skip(pos as int), n as nat) is None,
        }),
{
    let mut vs: Vec<String> = Vec::new();
    let mut cur: usize = pos;
    let mut i: u32 = 0;
    proof {
        assert(vs.deep_view() =~= Seq::<Seq<char>>::empty());
    }
    while i < n
        invariant
            pos <= cur <= data@.len(),
            i <= n,
            vs.deep_view().len() == i as int,
            (match dec_str_seq(data@.skip(cur as int), (n - i) as nat) {
                Option::Some((ss, rr)) => dec_str_seq(data@.skip(pos as int), n as nat)
                    == Option::Some((vs.deep_view() + ss, rr)),
                Option::None => dec_str_seq(data@.skip(pos as int), n as nat) is None,
            }),
        decreases n - i,
    {
        match read_str(data, cur) {
            Some((s, p)) => {
                proof {
                    let bc = data@.skip(cur as int);
                    let bp = data@.skip(p as int);
                    let m = (n - i - 1) as nat;
                    assert(dec_str_seq(bc, (n - i) as nat) == (match dec_str_seq(bp, m) {
                        Option::Some((ss, rr)) => Option::Some((seq![s@] + ss, rr)),
                        Option::None => Option::None::<(Seq<Seq<char>>, Seq<u8>)>,
                    }));
                    if let Option::Some((ss, rr)) = dec_str_seq(bp, m) {
                        assert(vs.deep_view() + (seq![s@] + ss) =~= vs.deep_view().push(s@) + ss);
                    }
                }
                let ghost olddeep = vs.deep_view();
                vs.push(s);
                proof {
                    assert(vs.deep_view() =~= olddeep.push(s@));
                }
                cur = p;
                i = i + 1;
            },
            None => {
                return None;
            },
        }
    }
    proof {
        assert(vs.deep_view() + Seq::<Seq<char>>::empty() =~= vs.deep_view());
    }
    Some((vs, cur))
}

fn read_str_list(data: &[u8], pos: usize) -> (r: Option<(Vec<String>, usize)>)
    requires
        pos <= data@.len(),
    ensures
        (match r {
            Option::Some((vs, p)) => {
                &&& pos < p <= data@.len()
                &&& dec_str_list(data@.skip(pos as int)) == Option::Some(
                    (vs.deep_view(), data@.skip(p as int)),
                )
            },
            Option::None => dec_str_list(data@.skip(pos as int)) is None,
        }),
{
    let ghost b = data@.skip(pos as int);
    if data.len() - pos < 5 {
        return None;
    }
    if *vstd::slice::slice_index_get(data, pos) != TAG_LIST {
        return None;
    }
    let n = u32_from_le_bytes(vstd::slice::slice_subrange(data, pos + 1, pos + 5));
    proof {
        assert(data@.subrange(pos + 1, pos + 5) =~= b.subrange(1, 5));
        assert(data@.skip(pos + 5) =~= b.skip(5));
    }
    read_str_seq(data, pos + 5, n)
}

fn read_header(data: &[u8], pos: usize) -> (r: Option<(Header, usize)>)
    requires
        pos <= data@.len(),
    ensures
        (match r {
            Option::Some((h, p)) => {
                &&& pos < p <= data@.len()
                &&& dec_header(data@.skip(pos as int)) == Option::Some((h@, data@.skip(p as int)))
            },
            Option::None => dec_header(data@.skip(pos as int)) is None,
        }),
{
    match read_str(data, pos) {
        Some((name, p1)) => match read_str_list(data, p1) {
            Some((values, p2)) => Some((Header { name, values }, p2)),
            None => None,
        },
        None => None,
    }
}

fn read_header_seq(data: &[u8], pos: usize, n: u32) -> (r: Option<(Vec<Header>, usize)>)
    requires
        pos <= data@.len(),
    ensures
        (match r {
            Option::Some((vs, p)) => {
                &&& pos <= p <= data@.len()
                &&& dec_header_seq(data@.skip(pos as int), n as nat) == Option::Some(
                    (headers_view(vs@), data@.skip(p as int)),
                )
            },
            Option::None => dec_header_seq(data@.skip(pos as int), n as nat) is None,
        }),
{
    let mut vs: Vec<Header> = Vec::new();
    let mut cur: usize = pos;
    let mut i: u32 = 0;
    proof {
        assert(headers_view(vs@) =~= Seq::<HeaderV>::empty());
    }
    while i < n
        invariant
            pos <= cur <= data@.len(),
            i <= n,
            headers_view(vs@).len() == i as int,
            (match dec_header_seq(data@.skip(cur as int), (n - i) as nat) {
                Option::Some((ss, rr)) => dec_header_seq(data@.skip(pos as int), n as nat)
                    == Option::Some((headers_view(vs@) + ss, rr)),
                Option::None => dec_header_seq(data@.skip(pos as int), n as nat) is None,
            }),
        decreases n - i,
    {
        match read_header(data, cur) {
            Some((h, p)) => {
                proof {
                    let bc = data@.skip(cur as int);
                    let bp = data@.skip(p as int);
                    let m = (n - i - 1) as nat;
                    assert(dec_header_seq(bc, (n - i) as nat) == (match dec_header_seq(bp, m) {
                        Option::Some((ss, rr)) => Option::Some((seq![h@] + ss, rr)),
                        Option::None => Option::None::<(Seq<HeaderV>, Seq<u8>)>,
                    }));
                    if let Option::Some((ss, rr)) = dec_header_seq(bp, m) {
                        assert(headers_view(vs@) + (seq![h@] + ss) =~= headers_view(vs@).push(h@)
                            + ss);
                    }
                }
                let ghost oldhv = headers_view(vs@);
                vs.push(h);
                proof {
                    assert(headers_view(vs@) =~= oldhv.push(h@));
                }
                cur = p;
                i = i + 1;
            },
            None => {
                return None;
            },
        }
    }
    proof {
        assert(headers_view(vs@) + Seq::<HeaderV>::empty() =~= headers_view(vs@));
    }
    Some((vs, cur))
}

fn read_headers(data: &[u8], pos: usize) -> (r: Option<(Vec<Header>, usize)>)
    requires
        pos <= data@.len(),
    ensures
        (match r {
            Option::Some((vs, p)) => {
                &&& pos < p <= data@.len()
                &&& dec_headers(data@.skip(pos as int)) == Option::Some(
                    (headers_view(vs@), data@.skip(p as int)),
                )
            },
            Option::None => dec_headers(data@.skip(pos as int)) is None,
        }),
{
    let ghost b = data@.skip(pos as int);
    if data.len() - pos < 5 {
        return None;
    }
    if *vstd::slice::slice_index_get(data, pos) != TAG_LIST {
        return None;
    }
    let n = u32_from_le_bytes(vstd::slice::slice_subrange(data, pos + 1, pos + 5));
    proof {
        assert(data@.subrange(pos + 1, pos + 5) =~= b.subrange(1, 5));
        assert(data@.skip(pos + 5) =~= b.skip(5));
    }
    match read_header_seq(data, pos + 5, n) {
        Some((vs, p)) => {
            proof {
                assert(pos < pos + 5 <= p);
            }
            Some((vs, p))
        },
        None => None,
    }
}

fn read_request(data: &[u8], pos: usize) -> (r: Option<(RequestMessage, usize)>)
    requires
        pos <= data@.len(),
    ensures
        (match r {
            Option::Some((m, p)) => {
                &&& pos < p <= data@.len()
                &&& dec_request(data@.skip(pos as int)) == Option::Some((m@, data@.skip(p as int)))
            },
            Option::None => dec_request(data@.skip(pos as int)) is None,
        }),
{
    let ghost b = data@.skip(pos as int);
    if data.len() - pos < 1 {
        return None;
    }
    if *vstd::slice::slice_index_get(data, pos) != TAG_REQ {
        return None;
    }
    proof {
        assert(data@.skip(pos + 1) =~= b.skip(1));
    }
    let (request_id, p1) = match read_u64(data, pos + 1) {
        Some(x) => x,
        None => {
            return None;
        },
    };
    let (method, p2) = match read_str(data, p1) {
        Some(x) => x,
        None => {
            return None;
        },
    };
    let (uri, p3) = match read_str(data, p2) {
        Some(x) => x,
        None => {
            return None;
        },
    };
    let (protocol, p4) = match read_str(data, p3) {
        Some(x) => x,
        None => {
            return None;
        },
    };
    let (headers, p5) = match read_headers(data, p4) {
        Some(x) => x,
        None => {
            return None;
        },
    };
    let (body, p6) = match read_opt_bytes(data, p5) {
        Some(x) => x,
        None => {
            return None;
        },
    };
    let (remote_addr, p7) = match read_str(data, p6) {
        Some(x) => x,
        None => {
            return None;
        },
    };
    let (local_addr, p8) = match read_str(data, p7) {
        Some(x) => x,
        None => {
            return None;
        },
    };
    let m = RequestMessage {
        request_id,
        method,
        uri,
        protocol,
        headers,
        body,
        remote_addr,
        local_addr,
    };
    Some((m, p8))
}

fn read_response(data: &[u8], pos: usize) -> (r: Option<(ResponseMessage, usize)>)
    requires
        pos <= data@.len(),
    ensures
        (match r {
            Option::Some((m, p)) => {
                &&& pos < p <= data@.len()
                &&& dec_response(data@.skip(pos as int)) == Option::Some((m@, data@.skip(p as int)))
            },
            Option::None => dec_response(data@.skip(pos as int)) is None,
        }),
{
    let ghost b = data@.skip(pos as int);
    if data.len() - pos < 1 {
        return None;
    }
    if *vstd::slice::slice_index_get(data, pos) != TAG_RESP {
        return None;
    }
    proof {
        assert(data@.skip(pos + 1) =~= b.skip(1));
    }
    let (request_id, p1) = match read_u64(data, pos + 1) {
        Some(x) => x,
        None => {
            return None;
        },
    };
    let (status, p2) = match read_u16(data, p1) {
        Some(x) => x,
        None => {
            return None;
        },
    };
    let (headers, p3) = match read_headers(data, p2) {
        Some(x) => x,
        None => {
            return None;
        },
    };
    let (body, p4) = match read_opt_bytes(data, p3) {
        Some(x) => x,
        None => {
            return None;
        },
    };
    let m = ResponseMessage { request_id, status, headers, body };
    Some((m, p4))
}

// ---------------------------------------------------------------------------
// Executable encoding
// ---------------------------------------------------------------------------

proof fn lemma_enc_str_seq_push(ss: Seq<Seq<char>>, s: Seq<char>)
    ensures
        enc_str_seq(ss.push(s)) == enc_str_seq(ss) + enc_str(s),
    decreases ss.len(),
{
    if ss.len() == 0 {
        let e = Seq::<Seq<char>>::empty();
        assert(enc_str_seq(e) == Seq::<u8>::empty());
        assert(ss.push(s)[0] == s);
        assert(ss.push(s).drop_first() =~= e);
        assert(enc_str_seq(ss.push(s)) =~= enc_str_seq(ss) + enc_str(s));
    } else {
        assert(ss.push(s)[0] == ss[0]);
        assert(ss.push(s).drop_first() =~= ss.drop_first().push(s));
        lemma_enc_str_seq_push(ss.drop_first(), s);
        assert(enc_str_seq(ss.push(s)) =~= enc_str_seq(ss) + enc_str(s));
    }
}

proof fn lemma_enc_header_seq_push(hs: Seq<HeaderV>, h: HeaderV)
    ensures
        enc_header_seq(hs.push(h)) == enc_header_seq(hs) + enc_header(h),
    decreases hs.len(),
{
    if hs.len() == 0 {
        let e = Seq::<HeaderV>::empty();
        assert(enc_header_seq(e) == Seq::<u8>::empty());
        assert(hs.push(h)[0] == h);
        assert(hs.push(h).drop_first() =~= e);
        assert(enc_header_seq(hs.push(h)) =~= enc_header_seq(hs) + enc_header(h));
    } else {
        assert(hs.push(h)[0] == hs[0]);
        assert(hs.push(h).drop_first() =~= hs.drop_first().push(h));
        lemma_enc_header_seq_push(hs.drop_first(), h);
        assert(enc_header_seq(hs.push(h)) =~= enc_header_seq(hs) + enc_header(h));
    }
}

fn emit_u64(out: &mut Vec<u8>, x: u64)
    ensures
        final(out)@ == old(out)@ + enc_u64(x),
{
    out.push(TAG_U64);
    let mut bs = u64_to_le_bytes(x);
    out.append(&mut bs);
    proof {
        assert(out@ =~= old(out)@ + enc_u64(x));
    }
}

fn emit_u16(out: &mut Vec<u8>, x: u16)
    ensures
        final(out)@ == old(out)@ + enc_u16(x),
{
    out.push(TAG_U16);
    let mut bs = u16_to_le_bytes(x);
    out.append(&mut bs);
    proof {
        assert(out@ =~= old(out)@ + enc_u16(x));
    }
}

/// Appends a tag, a 32-bit length prefix, and the bytes themselves.
fn emit_block(out: &mut Vec<u8>, tag: u8, bs: &[u8]) -> (r: Result<(), EncodeError>)
    ensures
        (match r {
            Result::Ok(()) => bs@.len() <= u32::MAX && final(out)@ == old(out)@ + seq![tag]
                + spec_u32_to_le_bytes(bs@.len() as u32) + bs@,
            Result::Err(_) => bs@.len() > u32::MAX && final(out)@ == old(out)@,
        }),
{
    if bs.len() as u64 > u32::MAX as u64 {
        return Err(EncodeError);
    }
    out.push(tag);
    let mut lb = u32_to_le_bytes(bs.len() as u32);
    out.append(&mut lb);
    let ghost mid = out@;
    let mut i: usize = 0;
    while i < bs.len()
        invariant
            i <= bs@.len(),
            out@ == mid + bs@.take(i as int),
        decreases bs@.len() - i,
    {
        out.push(*vstd::slice::slice_index_get(bs, i));
        proof {
            assert(mid + bs@.take(i as int) + seq![bs@[i as int]] =~= mid + bs@.take(i + 1));
        }
        i = i + 1;
    }
    proof {
        assert(bs@.take(bs@.len() as int) =~= bs@);
        assert(out@ =~= old(out)@ + seq![tag] + spec_u32_to_le_bytes(bs@.len() as u32) + bs@);
    }
    Ok(())
}

fn emit_str(out: &mut Vec<u8>, s: &str) -> (r: Result<(), EncodeError>)
    ensures
        (match r {
            Result::Ok(()) => str_ok(s@) && final(out)@ == old(out)@ + enc_str(s@),
            Result::Err(_) => !str_ok(s@) && final(out)@ == old(out)@,
        }),
{
    let bs = s.as_bytes();
    let r = emit_block(out, TAG_STR, bs);
    proof {
        if r is Ok {
            assert(out@ =~= old(out)@ + enc_str(s@));
        }
    }
    r
}

fn emit_bytes(out: &mut Vec<u8>, b: &[u8]) -> (r: Result<(), EncodeError>)
    ensures
        (match r {
            Result::Ok(()) => bytes_ok(b@) && final(out)@ == old(out)@ + enc_bytes(b@),
            Result::Err(_) => !bytes_ok(b@) && final(out)@ == old(out)@,
        }),
{
    let r = emit_block(out, TAG_BIN, b);
    proof {
        if r is Ok {
            assert(out@ =~= old(out)@ + enc_bytes(b@));
        }
    }
    r
}

fn emit_opt_bytes(out: &mut Vec<u8>, b: &Option<Vec<u8>>) -> (r: Result<(), EncodeError>)
    ensures
        (match r {
            Result::Ok(()) => opt_bytes_ok(b.deep_view()) && final(out)@ == old(out)@ + enc_opt_bytes(
                b.deep_view(),
            ),
            Result::Err(_) => !opt_bytes_ok(b.deep_view()),
        }),
{
    match b {
        None => {
            out.push(TAG_NONE);
            proof {
                assert(out@ =~= old(out)@ + enc_opt_bytes(b.deep_view()));
            }
            Ok(())
        },
        Some(v) => {
            out.push(TAG_SOME);
            let r = emit_bytes(out, v.as_slice());
            proof {
                if r is Ok {
                    assert(out@ =~= old(out)@ + enc_opt_bytes(b.deep_view()));
                }
            }
            r
        },
    }
}

fn emit_str_list(out: &mut Vec<u8>, vs: &Vec<String>) -> (r: Result<(), EncodeError>)
    ensures
        (match r {
            Result::Ok(()) => vs@.len() <= u32::MAX && (forall|i: int|
                0 <= i < vs@.len() ==> str_ok(#[trigger] vs.deep_view()[i])) && final(out)@ == old(out)@
                + enc_str_list(vs.deep_view()),
            Result::Err(_) => !(vs@.len() <= u32::MAX && (forall|i: int|
                0 <= i < vs@.len() ==> str_ok(#[trigger] vs.deep_view()[i]))),
        }),
{
    if vs.len() as u64 > u32::MAX as u64 {
        return Err(EncodeError);
    }
    out.push(TAG_LIST);
    let mut lb = u32_to_le_bytes(vs.len() as u32);
    out.append(&mut lb);
    let ghost mid = out@;
    let mut i: usize = 0;
    while i < vs.len()
        invariant
            i <= vs@.len(),
            out@ == mid + enc_str_seq(vs.deep_view().take(i as int)),
            forall|j: int| 0 <= j < i ==> str_ok(#[trigger] vs.deep_view()[j]),
        decreases vs@.len() - i,
    {
        let ghost pre = vs.deep_view().take(i as int);
        match emit_str(out, vs[i].as_str()) {
            Ok(()) => {},
            Err(e) => {
                proof {
                    assert(vs.deep_view()[i as int] == vs@[i as int]@);
                }
                return Err(e);
            },
        }
        proof {
            lemma_enc_str_seq_push(pre, vs.deep_view()[i as int]);
            assert(pre.push(vs.deep_view()[i as int]) =~= vs.deep_view().take(i + 1));
            assert(out@ =~= mid + enc_str_seq(vs.deep_view().take(i + 1)));
        }
        i = i + 1;
    }
    proof {
        assert(vs.deep_view().take(vs@.len() as int) =~= vs.deep_view());
        assert(out@ =~= old(out)@ + enc_str_list(vs.deep_view()));
    }
    Ok(())
}

fn emit_header(out: &mut Vec<u8>, h: &Header) -> (r: Result<(), EncodeError>)
    ensures
        (match r {
            Result::Ok(()) => header_ok(h@) && final(out)@ == old(out)@ + enc_header(h@),
            Result::Err(_) => !header_ok(h@),
        }),
{
    match emit_str(out, h.name.as_str()) {
        Ok(()) => {},
        Err(e) => {
            return Err(e);
        },
    }
    let r = emit_str_list(out, &h.values);
    proof {
        if r is Ok {
            assert(out@ =~= old(out)@ + enc_header(h@));
        }
    }
    r
}

fn emit_headers(out: &mut Vec<u8>, hs: &Vec<Header>) -> (r: Result<(), EncodeError>)
    ensures
        (match r {
            Result::Ok(()) => headers_ok(headers_view(hs@)) && final(out)@ == old(out)@ + enc_headers(
                headers_view(hs@),
            ),
            Result::Err(_) => !headers_ok(headers_view(hs@)),
        }),
{
    if hs.len() as u64 > u32::MAX as u64 {
        return Err(EncodeError);
    }
    out.push(TAG_LIST);
    let mut lb = u32_to_le_bytes(hs.len() as u32);
    out.append(&mut lb);
    let ghost mid = out@;
    let mut i: usize = 0;
    while i < hs.len()
        invariant
            i <= hs@.len(),
            out@ == mid + enc_header_seq(headers_view(hs@).take(i as int)),
            forall|j: int| 0 <= j < i ==> header_ok(#[trigger] headers_view(hs@)[j]),
        decreases hs@.len() - i,
    {
        let ghost pre = headers_view(hs@).take(i as int);
        match emit_header(out, &hs[i]) {
            Ok(()) => {},
            Err(e) => {
                proof {
                    assert(headers_view(hs@)[i as int] == hs@[i as int]@);
                }
                return Err(e);
            },
        }
        proof {
            lemma_enc_header_seq_push(pre, headers_view(hs@)[i as int]);
            assert(pre.push(headers_view(hs@)[i as int]) =~= headers_view(hs@).take(i + 1));
            assert(out@ =~= mid + enc_header_seq(headers_view(hs@).take(i + 1)));
        }
        i = i + 1;
    }
    proof {
        assert(headers_view(hs@).take(hs@.len() as int) =~= headers_view(hs@));
        assert(out@ =~= old(out)@ + enc_headers(headers_view(hs@)));
    }
    Ok(())
}

impl RequestMessage {
    /// Serializes the request for the framed-stream wire; fails exactly when
    /// some length in the message does not fit the 32-bit prefix.
    pub fn to_bytes(&self) -> (r: Result<Vec<u8>, EncodeError>)
        ensures
            r matches Result::Ok(b) ==> b@ == spec_encode_request(self@),
            r is Ok <==> request_ok(self@),
    {
        let mut out: Vec<u8> = Vec::new();
        out.push(TAG_REQ);
        emit_u64(&mut out, self.request_id);
        if let Err(e) = emit_str(&mut out, self.method.as_str()) {
            return Err(e);
        }
        if let Err(e) = emit_str(&mut out, self.uri.as_str()) {
            return Err(e);
        }
        if let Err(e) = emit_str(&mut out, self.protocol.as_str()) {
            return Err(e);
        }
        if let Err(e) = emit_headers(&mut out, &self.headers) {
            return Err(e);
        }
        if let Err(e) = emit_opt_bytes(&mut out, &self.body) {
            return Err(e);
        }
        if let Err(e) = emit_str(&mut out, self.remote_addr.as_str()) {
            return Err(e);
        }
        if let Err(e) = emit_str(&mut out, self.local_addr.as_str()) {
            return Err(e);
        }
        proof {
            assert(out@ =~= spec_encode_request(self@));
        }
        Ok(out)
    }

    /// Parses one whole frame; fails exactly when the bytes are not an
    /// encoding that `to_bytes` could have produced.
    pub fn from_bytes(data: &[u8]) -> (r: Result<Self, DecodeError>)
        ensures
            (match r {
                Result::Ok(m) => spec_decode_request(data@) == Option::Some(m@),
                Result::Err(_) => spec_decode_request(data@) is None,
            }),
    {
        proof {
            assert(data@.skip(0) =~= data@);
        }
        match read_request(data, 0) {
            Some((m, p)) => if p == data.len() {
                Ok(m)
            } else {
                Err(DecodeError)
            },
            None => Err(DecodeError),
        }
    }
}

impl ResponseMessage {
    /// Serializes the response for the framed-stream wire; fails exactly when
    /// some length in the message does not fit the 32-bit prefix.
    pub fn to_bytes(&self) -> (r: Result<Vec<u8>, EncodeError>)
        ensures
            r matches Result::Ok(b) ==> b@ == spec_encode_response(self@),
            r is Ok <==> response_ok(self@),
    {
        let mut out: Vec<u8> = Vec::new();
        out.push(TAG_RESP);
        emit_u64(&mut out, self.request_id);
        emit_u16(&mut out, self.status);
        if let Err(e) = emit_headers(&mut out, &self.headers) {
            return Err(e);
        }
        if let Err(e) = emit_opt_bytes(&mut out, &self.body) {
            return Err(e);
        }
        proof {
            assert(out@ =~= spec_encode_response(self@));
        }
        Ok(out)
    }

    /// Parses one whole frame; fails exactly when the bytes are not an
    /// encoding that `to_bytes` could have produced.
    pub fn from_bytes(data: &[u8]) -> (r: Result<Self, DecodeError>)
        ensures
            (match r {
                Result::Ok(m) => spec_decode_response(data@) == Option::Some(m@),
                Result::Err(_) => spec_decode_response(data@) is None,
            }),
    {
        proof {
            assert(data@.skip(0) =~= data@);
        }
        match read_response(data, 0) {
            Some((m, p)) => if p == data.len() {
                Ok(m)
            } else {
                Err(DecodeError)
            },
            None => Err(DecodeError),
        }
    }
}

} // verus!
