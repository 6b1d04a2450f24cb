//! How the proxy extends the `Forwarded` header of a request it passes on.
use vstd::prelude::*;

verus! {

/// What the proxy adds to the `Forwarded` header.
#[derive(Clone, Copy, Debug, PartialEq, Eq, Structural)]
pub struct ForwardPlan {
    /// Append an element for the caller (its address, and the host asked for).
    pub append: bool,
    /// Name the gateway in that element (`by`).
    pub by_gateway: bool,
}

/// Decides on the `Forwarded` header: an element for the caller is appended
/// when the caller's address is known, and it names the gateway only when
/// the request came without a `Forwarded` element of its own (the gateway is
/// then the first proxy on the way).
pub fn forward_plan(peer_known: bool, forwarded_empty: bool) -> (p: ForwardPlan)
    ensures
        p.append == peer_known,
        p.by_gateway == (peer_known && forwarded_empty),
{
    ForwardPlan { append: peer_known, by_gateway: peer_known && forwarded_empty }
}

} // verus!
