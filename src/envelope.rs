use vstd::prelude::*;

verus! {

/// One request header, as received.
pub struct Header {
    pub name: String,
    pub value: String,
}

impl Header {
    pub open spec fn view(&self) -> (Seq<char>, Seq<char>) {
        (self.name@, self.value@)
    }

    pub fn new(name: &str, value: &str) -> (h: Header)
        ensures
            h@ == (name@, value@),
    {
        Header { name: name.to_owned(), value: value.to_owned() }
    }
}

/// What a list of headers stands for: each as a (name, value) pair.
pub open spec fn headers_view(v: Seq<Header>) -> Seq<(Seq<char>, Seq<char>)> {
    v.map_values(|h: Header| h@)
}

/// A request taken whole from the connection it came on: method, headers in
/// the order received, the body in full, and the path suffix that follows
/// the route identifier. Nothing of it changes once it is built.
pub struct RequestEnvelope {
    pub method: String,
    pub headers: Vec<Header>,
    pub body: Vec<u8>,
    pub suffix: String,
}

impl RequestEnvelope {
    /// Captures an inbound request. The headers are kept as they came: the
    /// forwarding side decides which of them go on.
    pub fn new(method: String, headers: Vec<Header>, body: Vec<u8>, suffix: String) -> (e:
        RequestEnvelope)
        ensures
            e.method@ == method@,
            headers_view(e.headers@) == headers_view(headers@),
            e.body@ == body@,
            e.suffix@ == suffix@,
    {
        RequestEnvelope { method, headers, body, suffix }
    }
}

} // verus!
