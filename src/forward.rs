use vstd::prelude::*;
use crate::envelope::{Header, RequestEnvelope, headers_view};
use crate::url::{compose, compose_url};

verus! {

/// `c` equals the lower-case ASCII letter or other character `l`, ignoring
/// ASCII case.
pub open spec fn char_matches(c: char, l: char) -> bool {
    c == l || (97 <= l as u32 <= 122 && c as u32 + 32 == l as u32)
}

/// `name` spells `lower` (written in lower case), ignoring ASCII case.
pub open spec fn name_matches(name: Seq<char>, lower: Seq<char>) -> bool {
    name.len() == lower.len() && forall|i: int| 0 <= i < name.len() ==> char_matches(name[i], lower[i])
}

/// Headers that belong to one connection and are never passed on: the
/// destination host, the body length, `connection` and `transfer-encoding`.
pub open spec fn is_hop_by_hop(name: Seq<char>) -> bool {
    name_matches(name, seq!['h', 'o', 's', 't'])
    || name_matches(name, seq!['c', 'o', 'n', 't', 'e', 'n', 't', '-', 'l', 'e', 'n', 'g', 't', 'h'])
    || name_matches(name, seq!['c', 'o', 'n', 'n', 'e', 'c', 't', 'i', 'o', 'n'])
    || name_matches(name, seq!['t', 'r', 'a', 'n', 's', 'f', 'e', 'r', '-', 'e', 'n', 'c', 'o', 'd', 'i', 'n', 'g'])
}

/// The headers that an outbound copy carries: all but the hop-by-hop ones,
/// with their values and in their order.
pub open spec fn forwarded_headers(hs: Seq<(Seq<char>, Seq<char>)>) -> Seq<(Seq<char>, Seq<char>)>
    decreases hs.len(),
{
    if hs.len() == 0 {
        hs
    } else if is_hop_by_hop(hs.last().0) {
        forwarded_headers(hs.drop_last())
    } else {
        forwarded_headers(hs.drop_last()).push(hs.last())
    }
}

/// Whether `name` spells `lower` ignoring ASCII case.
fn name_is(name: &str, lower: &str) -> (r: bool)
    ensures
        r == name_matches(name@, lower@),
{
    let n: usize = name.unicode_len();
    if n != lower.unicode_len() {
        return false;
    }
    let mut i: usize = 0;
    while i < n
        invariant
            n == name@.len() == lower@.len(),
            i <= n,
            forall|j: int| 0 <= j < i ==> char_matches(name@[j], lower@[j]),
        decreases n - i,
    {
        let c = name.get_char(i);
        let l = lower.get_char(i);
        let cu = c as u32;
        let lu = l as u32;
        if !(c == l || (97 <= lu && lu <= 122 && cu + 32 == lu)) {
            return false;
        }
        i = i + 1;
    }
    true
}

/// Whether a header of this name is left off an outbound copy.
pub fn hop_by_hop(name: &str) -> (r: bool)
    ensures
        r == is_hop_by_hop(name@),
{
    proof {
        reveal_strlit("host");
        reveal_strlit("content-length");
        reveal_strlit("connection");
        reveal_strlit("transfer-encoding");
    }
    name_is(name, "host") || name_is(name, "content-length") || name_is(name, "connection")
        || name_is(name, "transfer-encoding")
}

/// The headers of `hs` that go on to a target.
pub fn filter_headers(hs: &Vec<Header>) -> (r: Vec<Header>)
    ensures
        headers_view(r@) == forwarded_headers(headers_view(hs@)),
{
    let mut r: Vec<Header> = Vec::new();
    let mut i: usize = 0;
    while i < hs.len()
        invariant
            i <= hs@.len(),
            headers_view(r@) == forwarded_headers(headers_view(hs@.subrange(0, i as int))),
        decreases hs@.len() - i,
    {
        let ghost pre = headers_view(hs@.subrange(0, i + 1));
        assert(pre.drop_last() == headers_view(hs@.subrange(0, i as int)));
        assert(pre.last() == hs@[i as int]@);
        if !hop_by_hop(hs[i].name.as_str()) {
            r.push(Header::new(hs[i].name.as_str(), hs[i].value.as_str()));
            assert(headers_view(r@) == forwarded_headers(
                headers_view(hs@.subrange(0, i as int)),
            ).push(hs@[i as int]@));
        }
        i = i + 1;
    }
    assert(hs@.subrange(0, hs@.len() as int) == hs@);
    r
}

/// One outbound copy of a request, ready to send to one target.
pub struct OutboundRequest {
    pub target: String,
    pub url: String,
    pub method: String,
    pub headers: Vec<Header>,
    pub body: Vec<u8>,
}

impl OutboundRequest {
    /// This is the copy of `env` that goes to `target`: the composed address,
    /// the same method and body, and the headers less the hop-by-hop ones.
    pub open spec fn forwards(&self, target: Seq<char>, env: &RequestEnvelope) -> bool {
        &&& self.target@ == target
        &&& self.url@ == compose_url(target, env.suffix@)
        &&& self.method@ == env.method@
        &&& headers_view(self.headers@) == forwarded_headers(headers_view(env.headers@))
        &&& self.body@ == env.body@
    }
}

/// Builds the copy of `env` that goes to `target`.
pub fn forward(target: &str, env: &RequestEnvelope) -> (r: OutboundRequest)
    ensures
        r.forwards(target@, env),
{
    OutboundRequest {
        target: target.to_owned(),
        url: compose(target, env.suffix.as_str()),
        method: env.method.clone(),
        headers: filter_headers(&env.headers),
        body: vstd::slice::slice_to_vec(env.body.as_slice()),
    }
}

proof fn lemma_forwarded_headers(hs: Seq<(Seq<char>, Seq<char>)>)
    ensures
        forall|i: int|
            0 <= i < forwarded_headers(hs).len() ==> !is_hop_by_hop(
                #[trigger] forwarded_headers(hs)[i].0,
            ),
        forall|i: int|
            0 <= i < hs.len() && !is_hop_by_hop(#[trigger] hs[i].0) ==> forwarded_headers(
                hs,
            ).contains(hs[i]),
    decreases hs.len(),
{
    if hs.len() > 0 {
        let rest = hs.drop_last();
        lemma_forwarded_headers(rest);
        let f = forwarded_headers(hs);
        assert forall|i: int| 0 <= i < hs.len() && !is_hop_by_hop(#[trigger] hs[i].0) implies f.contains(
            hs[i],
        ) by {
            if i < hs.len() - 1 {
                assert(rest[i] == hs[i]);
                let j = choose|j: int| 0 <= j < forwarded_headers(rest).len() && forwarded_headers(rest)[j] == hs[i];
                assert(f[j] == hs[i]);
            } else {
                assert(f[f.len() - 1] == hs[i]);
            }
        }
    }
}

/// An outbound copy never carries a hop-by-hop header (the destination
/// host, the body length, `connection`, `transfer-encoding`), and carries
/// every other header of the inbound request with its value unchanged.
pub proof fn outbound_headers(r: &OutboundRequest, target: Seq<char>, env: &RequestEnvelope)
    requires
        r.forwards(target, env),
    ensures
        forall|i: int|
            0 <= i < r.headers@.len() ==> !is_hop_by_hop(#[trigger] r.headers@[i].name@),
        forall|i: int|
            0 <= i < env.headers@.len() && !is_hop_by_hop(#[trigger] env.headers@[i].name@)
                ==> headers_view(r.headers@).contains(env.headers@[i]@),
{
    let hs = headers_view(env.headers@);
    lemma_forwarded_headers(hs);
    assert forall|i: int| 0 <= i < r.headers@.len() implies !is_hop_by_hop(
        #[trigger] r.headers@[i].name@,
    ) by {
        assert(headers_view(r.headers@)[i].0 == r.headers@[i].name@);
    }
    assert forall|i: int|
        0 <= i < env.headers@.len() && !is_hop_by_hop(#[trigger] env.headers@[i].name@)
        implies headers_view(r.headers@).contains(env.headers@[i]@) by {
        assert(hs[i].0 == env.headers@[i].name@);
    }
}

} // verus!
