//! The front-end adapter's computational pieces: identity allocation, request
//! assembly from parsed wire data, the fixed failure reply, and connection
//! address parsing. The listener loop itself — accepting connections,
//! reading bodies, writing replies — lives with the embedding process.

use vstd::prelude::*;
use vstd::string::StrSliceExecFns;
use crate::msg::{headers_view, Header, HeaderV, RequestMessage};

verus! {

/// The shared monotonic identity counter: every dispatched request takes the
/// next value, so no identity is ever reused while the process runs.
pub struct IdCounter {
    next: u64,
}

impl IdCounter {
    /// The identity the next request will take.
    pub closed spec fn spec_next(&self) -> u64 {
        self.next
    }

    /// Counting starts at 1.
    pub fn new() -> (r: Self)
        ensures
            r.spec_next() == 1,
    {
        IdCounter { next: 1 }
    }

    /// Whether another identity can still be allocated.
    pub fn has_next(&self) -> (r: bool)
        ensures
            r == (self.spec_next() < u64::MAX),
    {
        self.next < u64::MAX
    }

    /// Takes the next identity. Strictly increasing, hence unique for the
    /// counter's lifetime; wraparound is out of scope, given practical
    /// request volumes.
    pub fn next_id(&mut self) -> (id: u64)
        requires
            old(self).spec_next() < u64::MAX,
        ensures
            id == old(self).spec_next(),
            final(self).spec_next() == id + 1,
    {
        let id = self.next;
        self.next = self.next + 1;
        id
    }
}

/// Where a header value lands: appended to the values of the first entry
/// carrying the same name, or — when no entry does — as a fresh entry at
/// the end. Repeated names thus keep one entry each, with their values in
/// arrival order.
pub open spec fn spec_add_header_value(
    hs: Seq<HeaderV>,
    name: Seq<char>,
    value: Seq<char>,
) -> Seq<HeaderV>
    decreases hs.len(),
{
    if hs.len() == 0 {
        seq![HeaderV { name, values: seq![value] }]
    } else if hs[0].name == name {
        seq![HeaderV { name: hs[0].name, values: hs[0].values.push(value) }] + hs.drop_first()
    } else {
        seq![hs[0]] + spec_add_header_value(hs.drop_first(), name, value)
    }
}

proof fn lemma_add_header_value_skip(hs: Seq<HeaderV>, name: Seq<char>, value: Seq<char>, i: int)
    requires
        0 <= i <= hs.len(),
        forall|j: int| 0 <= j < i ==> (#[trigger] hs[j]).name != name,
    ensures
        spec_add_header_value(hs, name, value) == hs.take(i) + spec_add_header_value(
            hs.skip(i),
            name,
            value,
        ),
    decreases i,
{
    if i == 0 {
        assert(hs.skip(0) =~= hs);
        assert(hs.take(0) + spec_add_header_value(hs, name, value) =~= spec_add_header_value(
            hs,
            name,
            value,
        ));
    } else {
        let tail = hs.drop_first();
        lemma_add_header_value_skip(tail, name, value, i - 1);
        assert(tail.skip(i - 1) =~= hs.skip(i));
        assert(seq![hs[0]] + (tail.take(i - 1) + spec_add_header_value(hs.skip(i), name, value))
            =~= hs.take(i) + spec_add_header_value(hs.skip(i), name, value));
    }
}

/// Records one `name: value` pair from the parsed wire data, as
/// `spec_add_header_value` lays it down.
pub fn add_header_value(headers: &mut Vec<Header>, name: String, value: String)
    ensures
        headers_view(final(headers)@) == spec_add_header_value(
            headers_view(old(headers)@),
            name@,
            value@,
        ),
{
    let ghost hv0 = headers_view(old(headers)@);
    let mut i: usize = 0;
    while i < headers.len()
        invariant
            i <= headers@.len(),
            headers@ == old(headers)@,
            hv0 == headers_view(headers@),
            forall|j: int| 0 <= j < i ==> (#[trigger] hv0[j]).name != name@,
        decreases headers@.len() - i,
    {
        if headers[i].name == name {
            proof {
                assert(hv0.len() == headers@.len());
                lemma_add_header_value_skip(hv0, name@, value@, i as int);
                assert(hv0.skip(i as int)[0] == hv0[i as int]);
                assert(hv0[i as int].name == headers@[i as int].name@);
            }
            let mut h = headers.remove(i);
            let ghost valsdeep = h.values.deep_view();
            h.values.push(value);
            proof {
                assert(h.values.deep_view() =~= valsdeep.push(value@));
            }
            headers.insert(i, h);
            proof {
                assert(headers_view(headers@) =~= hv0.take(i as int) + (seq![
                    HeaderV {
                        name: hv0[i as int].name,
                        values: hv0[i as int].values.push(value@),
                    },
                ] + hv0.skip(i as int).drop_first()));
            }
            return;
        }
        i = i + 1;
    }
    proof {
        assert(hv0.len() == headers@.len());
        lemma_add_header_value_skip(hv0, name@, value@, hv0.len() as int);
        assert(hv0.skip(hv0.len() as int) =~= Seq::<HeaderV>::empty());
        assert(hv0.skip(hv0.len() as int).len() == 0);
    }
    let ghost nview = name@;
    let ghost vview = value@;
    let mut values: Vec<String> = Vec::new();
    values.push(value);
    proof {
        assert(values.deep_view() =~= seq![vview]);
    }
    headers.push(Header { name, values });
    proof {
        assert(headers_view(headers@) =~= hv0.take(hv0.len() as int) + seq![
            HeaderV { name: nview, values: seq![vview] },
        ]);
    }
}

/// Assembles the request handed to a transport from the front end's parsed
/// wire data. An empty body is recorded as no body at all.
pub fn build_request(
    request_id: u64,
    method: String,
    uri: String,
    protocol: String,
    headers: Vec<Header>,
    body: Vec<u8>,
    remote_addr: String,
    local_addr: String,
) -> (r: RequestMessage)
    ensures
        r@.request_id == request_id,
        r@.method == method@,
        r@.uri == uri@,
        r@.protocol == protocol@,
        r@.headers == headers_view(headers@),
        r@.body == (if body@.len() == 0 {
            Option::<Seq<u8>>::None
        } else {
            Option::Some(body@)
        }),
        r@.remote_addr == remote_addr@,
        r@.local_addr == local_addr@,
{
    let body = if body.len() == 0 {
        None
    } else {
        Some(body)
    };
    RequestMessage {
        request_id,
        method,
        uri,
        protocol,
        headers,
        body,
        remote_addr,
        local_addr,
    }
}

/// The fixed reply emitted for every dispatch failure: status 500 with a
/// generic plaintext body. The specific failure reason is never leaked to
/// the remote peer.
pub fn error_reply() -> (r: (u16, Vec<u8>))
    ensures
        r.0 == 500,
        r.1@ == vstd::utf8::encode_utf8("Internal Server Error"@),
{
    let body = vstd::slice::slice_to_vec("Internal Server Error".as_bytes());
    (500, body)
}

/// Splits a framed-stream connection address of the form `tcp://<rest>`,
/// returning `<rest>`; any other shape is a configuration error.
pub fn parse_ipc_addr(addr: &str) -> (r: Option<String>)
    ensures
        (match r {
            Option::Some(s) => {
                &&& addr@.len() >= 6
                &&& addr@.subrange(0, 6) == "tcp://"@
                &&& s@ == addr@.skip(6)
            },
            Option::None => !(addr@.len() >= 6 && addr@.subrange(0, 6) == "tcp://"@),
        }),
{
    proof {
        reveal_strlit("tcp://");
    }
    let n = addr.unicode_len();
    if n < 6 {
        return None;
    }
    if addr.get_char(0) != 't' || addr.get_char(1) != 'c' || addr.get_char(2) != 'p'
        || addr.get_char(3) != ':' || addr.get_char(4) != '/' || addr.get_char(5) != '/' {
        proof {
            assert(addr@.subrange(0, 6) != "tcp://"@) by {
                if addr@.subrange(0, 6) == "tcp://"@ {
                    assert(addr@.subrange(0, 6)[0] == addr@[0]);
                    assert(addr@.subrange(0, 6)[1] == addr@[1]);
                    assert(addr@.subrange(0, 6)[2] == addr@[2]);
                    assert(addr@.subrange(0, 6)[3] == addr@[3]);
                    assert(addr@.subrange(0, 6)[4] == addr@[4]);
                    assert(addr@.subrange(0, 6)[5] == addr@[5]);
                }
            }
        }
        return None;
    }
    let rest = addr.substring_char(6, n);
    proof {
        assert(addr@.subrange(0, 6) =~= "tcp://"@);
        assert(addr@.subrange(6, addr@.len() as int) =~= addr@.skip(6));
    }
    Some(rest.to_owned())
}

} // verus!
