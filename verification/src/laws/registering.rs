//! Laws of registering as a host and of checking that an agent is one.

use vstd::prelude::*;
use crate::dht::{answers, lemma_leads_to_weaken, leads_to, LinkSet, LinkTag, ReplyView, RequestView, StepView};
use crate::host::{registration_request, validate_host_result};
use crate::registration::{register_next, RegisterAsHostView, RegisterPhase};
use crate::error::HostErrorView;
use crate::laws::common::registered;

verus! {

pub open spec fn register_procedure() -> spec_fn(RegisterAsHostView, ReplyView) -> (RegisterAsHostView, StepView<Seq<char>>) {
    |s: RegisterAsHostView, r: ReplyView| register_next(s, r)
}

pub open spec fn register_start(agent: Seq<char>, doc: Seq<u8>) -> RegisterAsHostView {
    RegisterAsHostView { phase: RegisterPhase::Start, agent, host_doc: doc, address: seq![] }
}

/// What the registration leads to: it ends with the address of the committed
/// document, and the DHT holds what it held and the agent's `verified_host_tag`
/// link to that address.
pub open spec fn registered_goal(agent: Seq<char>, links: LinkSet) -> spec_fn(Result<Seq<char>, HostErrorView>, LinkSet) -> bool {
    |r: Result<Seq<char>, HostErrorView>, l: LinkSet| match r {
        Ok(a) => l == links.insert((agent, a, LinkTag::VerifiedHost)),
        Err(_) => false,
    }
}

/// Whether `validate_host` accepts `agent` on every list of its `verified_host_tag`
/// links that a DHT holding `links` may give.
pub open spec fn validated(links: LinkSet, agent: Seq<char>) -> bool {
    forall|rep: ReplyView| #[trigger] answers(links, registration_request(agent), rep)
        ==> (rep matches ReplyView::Links(r) && validate_host_result(r) == Ok::<bool, HostErrorView>(true))
}

/// Law: registering as a host succeeds, whatever address the document gets, and adds
/// exactly one link to the DHT: the agent's `verified_host_tag` link to the document.
pub proof fn registering_registers(agent: Seq<char>, doc: Seq<u8>, links: LinkSet)
    ensures
        leads_to(register_procedure(), register_start(agent, doc), ReplyView::Done, links, 2, registered_goal(agent, links)),
{
    let s1 = RegisterAsHostView { phase: RegisterPhase::Committing, agent, host_doc: seq![], address: seq![] };
    assert(register_next(register_start(agent, doc), ReplyView::Done).0 == s1);
    assert forall|rep: ReplyView| #[trigger] answers(links, RequestView::CommitHostDoc { doc }, rep) implies leads_to(
        register_procedure(), s1, rep, links, 1, registered_goal(agent, links)) by {
        if let ReplyView::Address(a) = rep {
            let l2 = links.insert((agent, a, LinkTag::VerifiedHost));
            let s2 = RegisterAsHostView { phase: RegisterPhase::Linking, address: a, ..s1 };
            assert(register_next(s1, rep).0 == s2);
            assert forall|rep2: ReplyView| #[trigger] answers(
                links,
                RequestView::LinkEntries { base: agent, target: a, tag: LinkTag::VerifiedHost },
                rep2,
            ) implies leads_to(register_procedure(), s2, rep2, l2, 0, registered_goal(agent, links)) by {}
        }
    }
}

/// Law: `validate_host` reads the DHT: on every list of the agent's `verified_host_tag`
/// links that the DHT gives, it accepts the agent exactly when the DHT holds such a
/// link, and otherwise refuses it as no host.
pub proof fn validate_host_reads_the_dht(links: LinkSet, agent: Seq<char>, rep: ReplyView)
    requires
        answers(links, registration_request(agent), rep),
    ensures
        rep matches ReplyView::Links(r) && validate_host_result(r) == (if registered(links, agent) {
            Ok::<bool, HostErrorView>(true)
        } else {
            Err::<bool, HostErrorView>(HostErrorView::NotAHost)
        }),
{
    if let ReplyView::Links(r) = rep {
        if registered(links, agent) {
            let t0 = choose|t: Seq<char>| links.contains((agent, t, LinkTag::VerifiedHost));
            assert(r.contains(t0));
        } else if r.len() > 0 {
            assert(links.contains((agent, r[0], LinkTag::VerifiedHost)));
        }
    }
}

/// Law: once an agent has registered as a host, `validate_host` accepts it, however the
/// DHT lists its links.
pub proof fn registering_makes_a_host(agent: Seq<char>, doc: Seq<u8>, links: LinkSet)
    ensures
        leads_to(
            register_procedure(),
            register_start(agent, doc),
            ReplyView::Done,
            links,
            2,
            |r: Result<Seq<char>, HostErrorView>, l: LinkSet| r is Ok && validated(l, agent),
        ),
{
    let goal2 = |r: Result<Seq<char>, HostErrorView>, l: LinkSet| r is Ok && validated(l, agent);
    registering_registers(agent, doc, links);
    assert forall|r: Result<Seq<char>, HostErrorView>, l: LinkSet| registered_goal(agent, links)(r, l) implies #[trigger] goal2(
        r, l) by {
        if let Ok(a) = r {
            assert(l.contains((agent, a, LinkTag::VerifiedHost)));
            assert forall|rep: ReplyView| #[trigger] answers(l, registration_request(agent), rep) implies (rep matches ReplyView::Links(x)
                && validate_host_result(x) == Ok::<bool, HostErrorView>(true)) by {
                validate_host_reads_the_dht(l, agent, rep);
            }
        }
    }
    lemma_leads_to_weaken(
        register_procedure(),
        register_start(agent, doc),
        ReplyView::Done,
        links,
        2,
        registered_goal(agent, links),
        goal2,
    );
}

} // verus!
