//! Laws of what an agent that is not a host is refused, of what needs no check at all,
//! and of reading links.

use vstd::prelude::*;
use crate::dht::{answers, leads_to, LinkSet, LinkTag, ReplyView, RequestView};
use crate::host::registration_request;
use crate::enable::EnablePhase;
use crate::disable::DisablePhase;
use crate::apps::{AllAppsPhase, EnabledListPhase, GetAllAppsView, GetEnabledAppListView};
use crate::kv::{kv_completed_next, next_pair, CompletedPhase, KvCompletedView, KvPhase, KvUpdatesView};
use crate::host::App2HostView;
use crate::host::check_link_exists_result;
use crate::error::HostErrorView;
use crate::laws::common::{refused_goal, registered, unchanged_goal};
use crate::laws::enabling::{disable_procedure, disabling, enable_procedure, enabling};
use crate::laws::listing::{all_apps_procedure, enabled_list_procedure, enabled_list_start};
use crate::laws::key_value::{completed_procedure, confirming, kv_updates_procedure, kv_updates_start};

verus! {

/// Law: an agent that is not registered as a host cannot enable an app; the DHT is left
/// as it was.
pub proof fn enabling_refused_to_non_host(agent: Seq<char>, app: Seq<char>, links: LinkSet)
    requires
        !registered(links, agent),
    ensures
        leads_to(enable_procedure(), enabling(agent, app, EnablePhase::Start), ReplyView::Done, links, 1, refused_goal(links)),
{
    assert forall|rep: ReplyView| #[trigger] answers(links, registration_request(agent), rep) implies leads_to(
        enable_procedure(), enabling(agent, app, EnablePhase::HostCheck), rep, links, 0, refused_goal(links)) by {
        if let ReplyView::Links(l) = rep {
            if l.len() > 0 {
                assert(links.contains((agent, l[0], LinkTag::VerifiedHost)));
            }
        }
    }
}

/// Law: an agent that is not registered as a host cannot disable an app; the DHT is
/// left as it was.
pub proof fn disabling_refused_to_non_host(agent: Seq<char>, app: Seq<char>, links: LinkSet)
    requires
        !registered(links, agent),
    ensures
        leads_to(disable_procedure(), disabling(agent, app, DisablePhase::Start), ReplyView::Done, links, 1, refused_goal(links)),
{
    assert forall|rep: ReplyView| #[trigger] answers(links, registration_request(agent), rep) implies leads_to(
        disable_procedure(), disabling(agent, app, DisablePhase::HostCheck), rep, links, 0, refused_goal(links)) by {
        if let ReplyView::Links(l) = rep {
            if l.len() > 0 {
                assert(links.contains((agent, l[0], LinkTag::VerifiedHost)));
            }
        }
    }
}

/// Law: an agent that is not registered as a host cannot list the apps.
pub proof fn listing_refused_to_non_host(agent: Seq<char>, links: LinkSet)
    requires
        !registered(links, agent),
    ensures
        leads_to(
            all_apps_procedure(),
            GetAllAppsView { phase: AllAppsPhase::Start, agent, apps: seq![], listed: seq![] },
            ReplyView::Done,
            links,
            1,
            refused_goal(links),
        ),
{
    let s = GetAllAppsView { phase: AllAppsPhase::HostCheck, agent, apps: seq![], listed: seq![] };
    assert forall|rep: ReplyView| #[trigger] answers(links, registration_request(agent), rep) implies leads_to(
        all_apps_procedure(), s, rep, links, 0, refused_goal(links)) by {
        if let ReplyView::Links(l) = rep {
            if l.len() > 0 {
                assert(links.contains((agent, l[0], LinkTag::VerifiedHost)));
            }
        }
    }
}

/// Law: an agent that is not registered as a host cannot list the apps it enabled; the
/// DHT is left as it was.
pub proof fn enabled_list_refused_to_non_host(agent: Seq<char>, links: LinkSet)
    requires
        !registered(links, agent),
    ensures
        leads_to(enabled_list_procedure(), enabled_list_start(agent), ReplyView::Done, links, 1, refused_goal(links)),
{
    let s = GetEnabledAppListView { phase: EnabledListPhase::HostCheck, agent };
    assert forall|rep: ReplyView| #[trigger] answers(links, registration_request(agent), rep) implies leads_to(
        enabled_list_procedure(), s, rep, links, 0, refused_goal(links)) by {
        if let ReplyView::Links(l) = rep {
            if l.len() > 0 {
                assert(links.contains((agent, l[0], LinkTag::VerifiedHost)));
            }
        }
    }
}

/// Law: an agent that is not registered as a host cannot collect the updates for the
/// key-value store; the DHT is left as it was.
pub proof fn kv_updates_refused_to_non_host(agent: Seq<char>, links: LinkSet)
    requires
        !registered(links, agent),
    ensures
        leads_to(kv_updates_procedure(), kv_updates_start(agent), ReplyView::Done, links, 1, refused_goal(links)),
{
    let s = KvUpdatesView { phase: KvPhase::HostCheck, ..kv_updates_start(agent) };
    assert forall|rep: ReplyView| #[trigger] answers(links, registration_request(agent), rep) implies leads_to(
        kv_updates_procedure(), s, rep, links, 0, refused_goal(links)) by {
        if let ReplyView::Links(l) = rep {
            if l.len() > 0 {
                assert(links.contains((agent, l[0], LinkTag::VerifiedHost)));
            }
        }
    }
}

/// Whether some app of the bundle lists a host.
pub open spec fn names_a_host(b: Seq<App2HostView>) -> bool {
    exists|k: int| 0 <= k < b.len() && #[trigger] b[k].host.len() > 0
}

/// From the `k`-th app on, where a later app lists a host, the next (app, host) place
/// is one of the bundle.
proof fn lemma_next_pair_in_bundle(b: Seq<App2HostView>, k: int, j: int)
    requires
        0 <= k <= j < b.len(),
        b[j].host.len() > 0,
    ensures
        0 <= next_pair(b, k, 0).0 < b.len(),
        0 <= next_pair(b, k, 0).1 < b[next_pair(b, k, 0).0].host.len(),
    decreases j - k,
{
    if b[k].host.len() == 0 {
        lemma_next_pair_in_bundle(b, k + 1, j);
    }
}

/// Law: an agent that is not registered as a host cannot confirm a bundle of updates
/// that names a host; the DHT is left as it was.
pub proof fn confirming_refused_to_non_host(agent: Seq<char>, b: Seq<App2HostView>, links: LinkSet)
    requires
        !registered(links, agent),
        names_a_host(b),
    ensures
        leads_to(completed_procedure(), confirming(agent, b, CompletedPhase::Start, 0, 0), ReplyView::Done, links, 1, refused_goal(links)),
{
    let j = choose|k: int| 0 <= k < b.len() && #[trigger] b[k].host.len() > 0;
    lemma_next_pair_in_bundle(b, 0, j);
    let (k, h) = next_pair(b, 0, 0);
    let s = KvCompletedView { phase: CompletedPhase::EnabledHostCheck, agent, bundle: b, kv_index: k, host_index: h };
    assert(kv_completed_next(confirming(agent, b, CompletedPhase::Start, 0, 0), ReplyView::Done).0 == s);
    assert forall|rep: ReplyView| #[trigger] answers(links, registration_request(agent), rep) implies leads_to(
        completed_procedure(), s, rep, links, 0, refused_goal(links)) by {
        if let ReplyView::Links(l) = rep {
            if l.len() > 0 {
                assert(links.contains((agent, l[0], LinkTag::VerifiedHost)));
            }
        }
    }
}

/// From the `k`-th app on, where no app lists a host, there is no next place.
proof fn lemma_next_pair_past_bundle(b: Seq<App2HostView>, k: int)
    requires
        0 <= k,
        forall|i: int| k <= i < b.len() ==> #[trigger] b[i].host.len() == 0,
    ensures
        next_pair(b, k, 0).0 >= b.len(),
    decreases b.len() - k,
{
    if k < b.len() {
        lemma_next_pair_past_bundle(b, k + 1);
    }
}

/// Law: a bundle that names no host is confirmed at once, by any agent, without a
/// request to the DHT.
pub proof fn confirming_nothing_asks_nothing(agent: Seq<char>, b: Seq<App2HostView>, links: LinkSet)
    requires
        !names_a_host(b),
    ensures
        leads_to(completed_procedure(), confirming(agent, b, CompletedPhase::Start, 0, 0), ReplyView::Done, links, 0, unchanged_goal(links)),
{
    assert forall|i: int| 0 <= i < b.len() implies #[trigger] b[i].host.len() == 0 by {
        if b[i].host.len() > 0 {
            assert(names_a_host(b));
        }
    }
    lemma_next_pair_past_bundle(b, 0);
}

/// Law: what `check_link_exists` (and so `is_enabled`) decides on links that the DHT
/// listed is whether the DHT holds the link: for a registered host, the links from
/// `base` with `tag` list `target` exactly when the link (base, target, tag) is held.
pub proof fn check_link_exists_reads_the_dht(
    links: LinkSet,
    agent: Seq<char>,
    registrations: ReplyView,
    base: Seq<char>,
    tag: LinkTag,
    found: ReplyView,
    target: Seq<char>,
)
    requires
        registered(links, agent),
        answers(links, registration_request(agent), registrations),
        answers(links, RequestView::GetLinks { base, tag }, found),
    ensures
        registrations matches ReplyView::Links(r) && found matches ReplyView::Links(l)
            && check_link_exists_result(r, l, target) == Ok::<bool, HostErrorView>(links.contains((base, target, tag))),
{
    let t0 = choose|t: Seq<char>| links.contains((agent, t, LinkTag::VerifiedHost));
    if let ReplyView::Links(r) = registrations {
        assert(r.contains(t0));
    }
    if let ReplyView::Links(l) = found {
        if l.contains(target) {
            let i = choose|i: int| 0 <= i < l.len() && l[i] == target;
            assert(links.contains((base, l[i], tag)));
        }
    }
}

} // verus!
