//! Facts about the DHT and ends of procedures that several laws share.

use vstd::prelude::*;
use crate::dht::{LinkSet, LinkTag};
use crate::error::HostErrorView;

verus! {

/// Whether the DHT holds a `verified_host_tag` link of `agent`: it registered as a host.
pub open spec fn registered(links: LinkSet, agent: Seq<char>) -> bool {
    exists|t: Seq<char>| links.contains((agent, t, LinkTag::VerifiedHost))
}

/// Whether a procedure ends at once refused as no host, with the links untouched.
pub open spec fn refused_goal<O>(links: LinkSet) -> spec_fn(Result<O, HostErrorView>, LinkSet) -> bool {
    |r: Result<O, HostErrorView>, l: LinkSet| r == Err::<O, HostErrorView>(HostErrorView::NotAHost) && l == links
}

/// Whether a procedure ends with success and the links untouched.
pub open spec fn unchanged_goal(links: LinkSet) -> spec_fn(Result<(), HostErrorView>, LinkSet) -> bool {
    |r: Result<(), HostErrorView>, l: LinkSet| r == Ok::<(), HostErrorView>(()) && l == links
}

} // verus!
