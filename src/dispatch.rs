use vstd::prelude::*;
use crate::envelope::RequestEnvelope;
use crate::forward::{OutboundRequest, forward};
use crate::routing::{RoutingTable, count_of, urls_view};

verus! {

/// What the caller of a dispatch hears at once.
#[derive(PartialEq, Eq, Structural, Clone, Copy, Debug)]
pub enum DispatchAck {
    /// The route has targets; the copies are on their way.
    Accepted,
    /// The route is unknown or has no targets; nothing was sent.
    NotFound,
}

/// The answer of a dispatch, and the outbound copies that the caller hands
/// to independent senders without waiting for any of them.
pub struct Dispatch {
    pub ack: DispatchAck,
    pub requests: Vec<OutboundRequest>,
}

/// `requests` holds one copy of `env` for each of `targets`, position by
/// position.
pub open spec fn fans_out(
    requests: Seq<OutboundRequest>,
    targets: Seq<Seq<char>>,
    env: &RequestEnvelope,
) -> bool {
    &&& requests.len() == targets.len()
    &&& forall|i: int| 0 <= i < targets.len() ==> #[trigger] requests[i].forwards(targets[i], env)
}

/// Takes a snapshot of the targets of route `id` and builds one copy of
/// `env` for each. An unknown route and a route without targets both give
/// `NotFound` and no copy; otherwise the answer is `Accepted`, whatever the
/// targets later do.
pub fn dispatch(table: &RoutingTable, id: &str, env: &RequestEnvelope) -> (r: Dispatch)
    requires
        table.wf(),
    ensures
        (r.ack == DispatchAck::Accepted) == (table.targets_of(id@).len() > 0),
        (r.ack == DispatchAck::NotFound) == (table.targets_of(id@).len() == 0),
        r.ack == DispatchAck::NotFound ==> r.requests@.len() == 0,
        fans_out(r.requests@, table.targets_of(id@), env),
{
    let targets = table.snapshot_for_dispatch(id);
    if targets.len() == 0 {
        return Dispatch { ack: DispatchAck::NotFound, requests: Vec::new() };
    }
    let mut requests: Vec<OutboundRequest> = Vec::new();
    let mut i: usize = 0;
    while i < targets.len()
        invariant
            i <= targets@.len(),
            urls_view(targets@) == table.targets_of(id@),
            requests@.len() == i,
            forall|j: int| 0 <= j < i ==> #[trigger] requests@[j].forwards(targets@[j]@, env),
        decreases targets@.len() - i,
    {
        requests.push(forward(targets[i].as_str(), env));
        i = i + 1;
    }
    Dispatch { ack: DispatchAck::Accepted, requests }
}

/// How one forwarding attempt ended.
pub enum Outcome {
    /// The target answered with a success status (200 to 299).
    Delivered { status: u16 },
    /// The target answered with another status: seen, and otherwise ignored.
    Rejected { status: u16 },
    /// The request did not get through (refused, timed out, unknown host).
    Failed { detail: String },
}

/// The outcome of one forwarding attempt, for the observability sink.
pub struct DispatchOutcome {
    pub target: String,
    pub outcome: Outcome,
}

impl DispatchOutcome {
    /// Only a transport error counts as a failure; a status of any kind is
    /// an answer.
    pub fn is_failure(&self) -> (r: bool)
        ensures
            r == (self.outcome is Failed),
    {
        match self.outcome {
            Outcome::Failed { .. } => true,
            _ => false,
        }
    }
}

/// Classifies what the sender saw for `target`: the status of a response,
/// or the text of a transport error.
pub fn classify(target: &str, result: Result<u16, String>) -> (r: DispatchOutcome)
    ensures
        r.target@ == target@,
        match result {
            Ok(status) => if 200 <= status <= 299 {
                r.outcome == (Outcome::Delivered { status })
            } else {
                r.outcome == (Outcome::Rejected { status })
            },
            Err(detail) => r.outcome is Failed && r.outcome->detail@ == detail@,
        },
{
    let outcome = match result {
        Ok(status) => if 200 <= status && status <= 299 {
            Outcome::Delivered { status }
        } else {
            Outcome::Rejected { status }
        },
        Err(detail) => Outcome::Failed { detail },
    };
    DispatchOutcome { target: target.to_owned(), outcome }
}

/// The target of each copy, in order.
pub open spec fn sent_to(requests: Seq<OutboundRequest>) -> Seq<Seq<char>> {
    requests.map_values(|r: OutboundRequest| r.target@)
}

/// Adding the same target twice to a route and then dispatching on it sends
/// that target exactly two copies more than the route held before; a target
/// that was not there gets exactly two.
pub proof fn add_twice_then_dispatch(
    before: RoutingTable,
    mid: RoutingTable,
    after: RoutingTable,
    id: Seq<char>,
    target: Seq<char>,
    env: &RequestEnvelope,
    requests: Seq<OutboundRequest>,
)
    requires
        before.wf(),
        mid@ == before@.insert(id, before.targets_of(id).push(target)),
        after@ == mid@.insert(id, mid.targets_of(id).push(target)),
        fans_out(requests, after.targets_of(id), env),
    ensures
        count_of(sent_to(requests), target) == count_of(before.targets_of(id), target) + 2,
{
    let targets = after.targets_of(id);
    assert forall|i: int| 0 <= i < targets.len() implies sent_to(requests)[i] == targets[i] by {
        assert(requests[i].forwards(targets[i], env));
    }
    assert(sent_to(requests) =~= targets);
    assert(mid.targets_of(id) == before.targets_of(id).push(target));
    assert(targets == mid.targets_of(id).push(target));
    assert(targets.drop_last() == mid.targets_of(id));
    assert(mid.targets_of(id).drop_last() == before.targets_of(id));
    assert(count_of(targets, target) == count_of(mid.targets_of(id), target) + 1);
    assert(count_of(mid.targets_of(id), target) == count_of(before.targets_of(id), target) + 1);
}

} // verus!
