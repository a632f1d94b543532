//! The message model: requests sent to the external decision-maker and the
//! responses it returns. Header multimaps are kept as an ordered list of
//! name/values entries, so repeated names and value order are preserved.

use vstd::prelude::*;

verus! {

/// One header entry: a name and the ordered values recorded under it.
#[derive(Debug, Clone, PartialEq, Eq)]
pub struct Header {
    pub name: String,
    pub values: Vec<String>,
}

/// Mathematical model of a `Header`.
#[verifier::ext_equal]
pub struct HeaderV {
    pub name: Seq<char>,
    pub values: Seq<Seq<char>>,
}

impl View for Header {
    type V = HeaderV;

    open spec fn view(&self) -> HeaderV {
        HeaderV { name: self.name@, values: self.values.deep_view() }
    }
}

/// A request handed to the external decision-maker. Its identity
/// (`request_id`) must be unique for the lifetime of the process.
#[derive(Debug, Clone, PartialEq, Eq)]
pub struct RequestMessage {
    pub request_id: u64,
    pub method: String,
    pub uri: String,
    pub protocol: String,
    pub headers: Vec<Header>,
    pub body: Option<Vec<u8>>,
    pub remote_addr: String,
    pub local_addr: String,
}

/// The models of a sequence of `Header`s.
pub open spec fn headers_view(hs: Seq<Header>) -> Seq<HeaderV> {
    Seq::new(hs.len(), |i: int| hs[i]@)
}

/// Mathematical model of a `RequestMessage`.
#[verifier::ext_equal]
pub struct RequestV {
    pub request_id: u64,
    pub method: Seq<char>,
    pub uri: Seq<char>,
    pub protocol: Seq<char>,
    pub headers: Seq<HeaderV>,
    pub body: Option<Seq<u8>>,
    pub remote_addr: Seq<char>,
    pub local_addr: Seq<char>,
}

impl View for RequestMessage {
    type V = RequestV;

    open spec fn view(&self) -> RequestV {
        RequestV {
            request_id: self.request_id,
            method: self.method@,
            uri: self.uri@,
            protocol: self.protocol@,
            headers: headers_view(self.headers@),
            body: self.body.deep_view(),
            remote_addr: self.remote_addr@,
            local_addr: self.local_addr@,
        }
    }
}

/// A response that completes the request of the same identity.
#[derive(Debug, Clone, PartialEq, Eq)]
pub struct ResponseMessage {
    pub request_id: u64,
    pub status: u16,
    pub headers: Vec<Header>,
    pub body: Option<Vec<u8>>,
}

/// Mathematical model of a `ResponseMessage`.
#[verifier::ext_equal]
pub struct ResponseV {
    pub request_id: u64,
    pub status: u16,
    pub headers: Seq<HeaderV>,
    pub body: Option<Seq<u8>>,
}

impl View for ResponseMessage {
    type V = ResponseV;

    open spec fn view(&self) -> ResponseV {
        ResponseV {
            request_id: self.request_id,
            status: self.status,
            headers: headers_view(self.headers@),
            body: self.body.deep_view(),
        }
    }
}

impl RequestMessage {
    /// An empty request carrying only its identity; the front-end adapter
    /// fills the remaining fields from the parsed wire data.
    pub fn new(request_id: u64) -> (r: Self)
        ensures
            r@.request_id == request_id,
            r@.method == Seq::<char>::empty(),
            r@.uri == Seq::<char>::empty(),
            r@.protocol == "HTTP/1.1"@,
            r@.headers == Seq::<HeaderV>::empty(),
            r@.body is None,
            r@.remote_addr == Seq::<char>::empty(),
            r@.local_addr == Seq::<char>::empty(),
    {
        let r = RequestMessage {
            request_id,
            method: String::new(),
            uri: String::new(),
            protocol: "HTTP/1.1".to_owned(),
            headers: Vec::new(),
            body: None,
            remote_addr: String::new(),
            local_addr: String::new(),
        };
        proof {
            assert(r@.headers =~= Seq::<HeaderV>::empty());
        }
        r
    }
}

} // verus!
