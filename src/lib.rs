// An HTTP fan-out broadcaster: a routing table from route identifiers to
// target addresses, and a dispatcher that turns one captured request into
// one outbound copy per target of its route.
use vstd::prelude::*;

pub mod dispatch;
pub mod envelope;
pub mod forward;
pub mod routing;
pub mod url;

verus! {

} // verus!
