//! Laws of listing all apps.

use vstd::prelude::*;
use crate::dht::{lemma_list_within, lemma_ranked_leads_to, outcome_ranked, answers, effect, ends_only_in, lemma_invariant_ends_only_in, leads_to, lists, outcome_ok, LinkSet, LinkTag, ReplyView, RequestView, StepView};
use crate::apps::{enabled_list_next, get_all_apps_next, next_details, AllAppsPhase, EnabledListPhase, GetAllAppsView, GetEnabledAppListView};
use crate::app_config::LoadedAppConfigView;
use crate::host::registration_request;
use crate::laws::common::registered;
use crate::host::AllAppsView;
use crate::error::HostErrorView;

verus! {

pub open spec fn all_apps_procedure() -> spec_fn(GetAllAppsView, ReplyView) -> (GetAllAppsView, StepView<Seq<AllAppsView>>) {
    |s: GetAllAppsView, r: ReplyView| get_all_apps_next(s, r)
}

// ---------------------------------------------------------------------
// Listing all apps
// ---------------------------------------------------------------------

/// Whether the hashes `hashes` are, as a set, the targets of the `all_apps_tag` links
/// from the anchor `a`.
pub open spec fn lists_anchor(l: LinkSet, a: Seq<char>, hashes: Seq<Seq<char>>) -> bool {
    &&& forall|i: int| 0 <= i < hashes.len() ==> l.contains((a, #[trigger] hashes[i], LinkTag::AllApps))
    &&& forall|t: Seq<char>| #[trigger] l.contains((a, t, LinkTag::AllApps)) ==> hashes.contains(t)
}

/// The hashes of listed apps, in order.
pub open spec fn listed_hashes(list: Seq<AllAppsView>) -> Seq<Seq<char>> {
    list.map_values(|x: AllAppsView| x.hash)
}

/// What the listing leads to: where it succeeds, the DHT is untouched and the listed
/// hashes are the apps linked from one anchor: each of them, and all of them.
pub open spec fn listing_goal(links: LinkSet) -> spec_fn(Result<Seq<AllAppsView>, HostErrorView>, LinkSet) -> bool {
    |r: Result<Seq<AllAppsView>, HostErrorView>, l: LinkSet| listing_ok(links, r, l)
}

pub open spec fn listing_ok(links: LinkSet, r: Result<Seq<AllAppsView>, HostErrorView>, l: LinkSet) -> bool {
    r is Ok ==> l == links && exists|a: Seq<char>| #[trigger] lists_anchor(l, a, listed_hashes(r->Ok_0))
}

pub open spec fn listing_inv(links: LinkSet) -> spec_fn(GetAllAppsView, ReplyView, LinkSet) -> bool {
    |s: GetAllAppsView, rep: ReplyView, l: LinkSet| {
        &&& l == links
        &&& (s.phase is AppLinks ==> exists|a: Seq<char>| #[trigger] answers(l, RequestView::GetLinks { base: a, tag: LinkTag::AllApps }, rep))
        &&& (s.phase is Details ==> {
            &&& s.listed.len() < s.apps.len()
            &&& (forall|i: int| 0 <= i < s.listed.len() ==> #[trigger] s.listed[i].hash == s.apps[i])
            &&& exists|a: Seq<char>| #[trigger] lists_anchor(l, a, s.apps)
        })
    }
}

proof fn lemma_next_details(links: LinkSet, s: GetAllAppsView, a: Seq<char>)
    requires
        s.listed.len() <= s.apps.len(),
        forall|i: int| 0 <= i < s.listed.len() ==> #[trigger] s.listed[i].hash == s.apps[i],
        lists_anchor(links, a, s.apps),
    ensures
        outcome_ok(next_details(s), links, listing_inv(links), listing_goal(links)),
{
    if s.listed.len() >= s.apps.len() {
        let hashes = listed_hashes(s.listed);
        assert(hashes =~= s.apps);
        assert(lists_anchor(links, a, hashes));
        assert(exists|a2: Seq<char>| #[trigger] lists_anchor(links, a2, listed_hashes(s.listed)));
        let r = Ok::<Seq<AllAppsView>, HostErrorView>(s.listed);
        assert(r->Ok_0 == s.listed);
        assert(lists_anchor(links, a, listed_hashes(r->Ok_0)));
        assert(listing_ok(links, r, links));
    } else {
        let req = RequestView::GetAppDetails { app_hash: s.apps[s.listed.len() as int] };
        assert forall|rep: ReplyView| #[trigger] answers(links, req, rep) implies listing_inv(links)(
            GetAllAppsView { phase: AllAppsPhase::Details, ..s }, rep, effect(links, req)) by {
            assert(lists_anchor(links, a, s.apps));
            let s2 = GetAllAppsView { phase: AllAppsPhase::Details, ..s };
            assert(s2.listed.len() < s2.apps.len());
            assert(forall|i: int| 0 <= i < s2.listed.len() ==> #[trigger] s2.listed[i].hash == s2.apps[i]);
            assert(effect(links, req) == links);
            assert(exists|a2: Seq<char>| #[trigger] lists_anchor(effect(links, req), a2, s2.apps));
        }
    }
}

/// Law: where the listing of all apps succeeds, it left the DHT untouched, and the hashes
/// it lists are exactly the apps linked from one anchor with `all_apps_tag`: every one
/// listed is linked, and every one linked is listed. This holds of every run, however
/// long.
pub proof fn listing_lists_the_anchor(agent: Seq<char>, links: LinkSet, fuel: nat)
    ensures
        ends_only_in(
            all_apps_procedure(),
            GetAllAppsView { phase: AllAppsPhase::Start, agent, apps: seq![], listed: seq![] },
            ReplyView::Done,
            links,
            fuel,
            listing_goal(links),
        ),
{
    assert forall|s: GetAllAppsView, rep: ReplyView, l: LinkSet| #[trigger] listing_inv(links)(s, rep, l) implies outcome_ok(
        all_apps_procedure()(s, rep), l, listing_inv(links), listing_goal(links)) by {
        match s.phase {
            AllAppsPhase::Anchoring => {
                if let ReplyView::Address(a) = rep {
                    let req = RequestView::GetLinks { base: a, tag: LinkTag::AllApps };
                    assert forall|rep2: ReplyView| #[trigger] answers(l, req, rep2) implies listing_inv(links)(
                        GetAllAppsView { phase: AllAppsPhase::AppLinks, ..s }, rep2, effect(l, req)) by {
                        assert(answers(l, RequestView::GetLinks { base: a, tag: LinkTag::AllApps }, rep2));
                    }
                }
            },
            AllAppsPhase::AppLinks => {
                if let ReplyView::Links(apps) = rep {
                    let a = choose|a: Seq<char>| #[trigger] answers(l, RequestView::GetLinks { base: a, tag: LinkTag::AllApps }, rep);
                    assert(lists_anchor(l, a, apps));
                    lemma_next_details(links, GetAllAppsView { apps, listed: seq![], ..s }, a);
                }
            },
            AllAppsPhase::Details => {
                if let ReplyView::Details(d) = rep {
                    let a = choose|a: Seq<char>| lists_anchor(l, a, s.apps);
                    let s2 = GetAllAppsView {
                        listed: s.listed.push(AllAppsView { hash: s.apps[s.listed.len() as int], details: d }),
                        ..s
                    };
                    assert forall|i: int| 0 <= i < s2.listed.len() implies #[trigger] s2.listed[i].hash == s2.apps[i] by {
                        if i < s.listed.len() {
                            assert(s2.listed[i] == s.listed[i]);
                        }
                    }
                    lemma_next_details(links, s2, a);
                }
            },
            _ => {},
        }
    }
    lemma_invariant_ends_only_in(
        all_apps_procedure(),
        listing_inv(links),
        listing_goal(links),
        GetAllAppsView { phase: AllAppsPhase::Start, agent, apps: seq![], listed: seq![] },
        ReplyView::Done,
        links,
        fuel,
    );
}

/// What a listing for a registered host keeps, on its way to success.
pub open spec fn listing_run_inv(links: LinkSet, agent: Seq<char>) -> spec_fn(GetAllAppsView, ReplyView, LinkSet) -> bool {
    |s: GetAllAppsView, rep: ReplyView, l: LinkSet| {
        &&& l == links
        &&& s.agent == agent
        &&& registered(l, agent)
        &&& s.phase is Start || s.phase is HostCheck || s.phase is Anchoring || s.phase is AppLinks || s.phase is Details
        &&& s.phase is HostCheck ==> answers(l, registration_request(agent), rep)
        &&& s.phase is Anchoring ==> rep is Address
        &&& s.phase is AppLinks ==> exists|a: Seq<char>| #[trigger] answers(l, RequestView::GetLinks { base: a, tag: LinkTag::AllApps }, rep)
        &&& s.phase is Details ==> {
            &&& rep is Details
            &&& s.listed.len() < s.apps.len() <= l.len()
            &&& (forall|i: int| 0 <= i < s.listed.len() ==> #[trigger] s.listed[i].hash == s.apps[i])
            &&& exists|a: Seq<char>| #[trigger] lists_anchor(l, a, s.apps)
        }
    }
}

/// How far a listing is from its end: at most one request per phase before the
/// details, and one per app whose details are still to come.
pub open spec fn listing_rank(links: LinkSet) -> spec_fn(GetAllAppsView, ReplyView, LinkSet) -> nat {
    |s: GetAllAppsView, rep: ReplyView, l: LinkSet| match s.phase {
        AllAppsPhase::Start => links.len() + 4,
        AllAppsPhase::HostCheck => links.len() + 3,
        AllAppsPhase::Anchoring => links.len() + 2,
        AllAppsPhase::AppLinks => links.len() + 1,
        _ => (s.apps.len() - s.listed.len()) as nat,
    }
}

/// What a listing for a registered host leads to: success, the DHT untouched, and the
/// apps linked from one anchor listed.
pub open spec fn listing_success(links: LinkSet) -> spec_fn(Result<Seq<AllAppsView>, HostErrorView>, LinkSet) -> bool {
    |r: Result<Seq<AllAppsView>, HostErrorView>, l: LinkSet| r is Ok && listing_ok(links, r, l)
}

proof fn lemma_listing_details_ranked(links: LinkSet, agent: Seq<char>, s: GetAllAppsView, a: Seq<char>, bound: nat)
    requires
        links.finite(),
        registered(links, agent),
        s.agent == agent,
        s.listed.len() <= s.apps.len() <= links.len(),
        forall|i: int| 0 <= i < s.listed.len() ==> #[trigger] s.listed[i].hash == s.apps[i],
        lists_anchor(links, a, s.apps),
        s.apps.len() - s.listed.len() < bound,
    ensures
        outcome_ranked(next_details(s), links, listing_run_inv(links, agent), listing_rank(links), bound, listing_success(links)),
{
    if s.listed.len() >= s.apps.len() {
        let hashes = listed_hashes(s.listed);
        assert(hashes =~= s.apps);
        let r = Ok::<Seq<AllAppsView>, HostErrorView>(s.listed);
        assert(lists_anchor(links, a, listed_hashes(r->Ok_0)));
        assert(listing_ok(links, r, links));
    } else {
        let req = RequestView::GetAppDetails { app_hash: s.apps[s.listed.len() as int] };
        let s2 = GetAllAppsView { phase: AllAppsPhase::Details, ..s };
        assert forall|rep: ReplyView| #[trigger] answers(links, req, rep) implies listing_run_inv(links, agent)(s2, rep, effect(links, req))
            && listing_rank(links)(s2, rep, effect(links, req)) < bound by {
            assert(lists_anchor(links, a, s2.apps));
        }
    }
}

/// Law: listing all apps for a registered host succeeds, within as many requests as
/// the DHT holds links and four more; it leaves the DHT untouched and lists exactly
/// the apps linked from one anchor.
pub proof fn listing_succeeds(agent: Seq<char>, links: LinkSet)
    requires
        registered(links, agent),
        links.finite(),
    ensures
        leads_to(
            all_apps_procedure(),
            GetAllAppsView { phase: AllAppsPhase::Start, agent, apps: seq![], listed: seq![] },
            ReplyView::Done,
            links,
            links.len() + 5,
            listing_success(links),
        ),
{
    let inv = listing_run_inv(links, agent);
    let rank = listing_rank(links);
    let t0 = choose|t: Seq<char>| links.contains((agent, t, LinkTag::VerifiedHost));
    assert forall|s: GetAllAppsView, rep: ReplyView, l: LinkSet| #[trigger] inv(s, rep, l) implies outcome_ranked(
        all_apps_procedure()(s, rep), l, inv, rank, rank(s, rep, l), listing_success(links)) by {
        match s.phase {
            AllAppsPhase::Start => {
                let s2 = GetAllAppsView { phase: AllAppsPhase::HostCheck, ..s };
                assert forall|r2: ReplyView| #[trigger] answers(l, registration_request(s.agent), r2) implies inv(s2, r2, l)
                    && rank(s2, r2, l) < rank(s, rep, l) by {}
            },
            AllAppsPhase::HostCheck => {
                assert(rep->Links_0.contains(t0));
                let s2 = GetAllAppsView { phase: AllAppsPhase::Anchoring, ..s };
                assert forall|r2: ReplyView| #[trigger] answers(l, RequestView::CommitAllAppsAnchor, r2) implies inv(s2, r2, l)
                    && rank(s2, r2, l) < rank(s, rep, l) by {}
            },
            AllAppsPhase::Anchoring => {
                let a = rep->Address_0;
                let req = RequestView::GetLinks { base: a, tag: LinkTag::AllApps };
                let s2 = GetAllAppsView { phase: AllAppsPhase::AppLinks, ..s };
                assert forall|r2: ReplyView| #[trigger] answers(l, req, r2) implies inv(s2, r2, l) && rank(s2, r2, l) < rank(s, rep, l) by {
                    assert(answers(l, RequestView::GetLinks { base: a, tag: LinkTag::AllApps }, r2));
                }
            },
            AllAppsPhase::AppLinks => {
                let apps = rep->Links_0;
                let a = choose|a: Seq<char>| #[trigger] answers(l, RequestView::GetLinks { base: a, tag: LinkTag::AllApps }, rep);
                assert(lists_anchor(l, a, apps));
                lemma_list_within(l, a, LinkTag::AllApps, apps);
                lemma_listing_details_ranked(links, agent, GetAllAppsView { apps, listed: seq![], ..s }, a, rank(s, rep, l));
            },
            AllAppsPhase::Details => {
                let d = rep->Details_0;
                let a = choose|a: Seq<char>| #[trigger] lists_anchor(l, a, s.apps);
                let s2 = GetAllAppsView {
                    listed: s.listed.push(AllAppsView { hash: s.apps[s.listed.len() as int], details: d }),
                    ..s
                };
                assert forall|i: int| 0 <= i < s2.listed.len() implies #[trigger] s2.listed[i].hash == s2.apps[i] by {
                    if i < s.listed.len() {
                        assert(s2.listed[i] == s.listed[i]);
                    }
                }
                lemma_listing_details_ranked(links, agent, s2, a, rank(s, rep, l));
            },
            _ => {},
        }
    }
    lemma_ranked_leads_to(all_apps_procedure(), inv, rank, listing_success(links),
        GetAllAppsView { phase: AllAppsPhase::Start, agent, apps: seq![], listed: seq![] }, ReplyView::Done, links, links.len() + 5);
}

// ---------------------------------------------------------------------
// Listing the apps that a host enabled
// ---------------------------------------------------------------------

pub open spec fn enabled_list_procedure() -> spec_fn(GetEnabledAppListView, ReplyView) -> (
    GetEnabledAppListView,
    StepView<Seq<LoadedAppConfigView>>,
) {
    |s: GetEnabledAppListView, r: ReplyView| enabled_list_next(s, r)
}

pub open spec fn enabled_list_start(agent: Seq<char>) -> GetEnabledAppListView {
    GetEnabledAppListView { phase: EnabledListPhase::Start, agent }
}

/// What listing a host's enabled apps leads to: it succeeds, the DHT is untouched, and
/// every app configuration listed sits at the target of one of the host's
/// `apps_enabled` links.
pub open spec fn enabled_list_goal(agent: Seq<char>, links: LinkSet) -> spec_fn(
    Result<Seq<LoadedAppConfigView>, HostErrorView>,
    LinkSet,
) -> bool {
    |r: Result<Seq<LoadedAppConfigView>, HostErrorView>, l: LinkSet| l == links && match r {
        Ok(c) => forall|i: int| 0 <= i < c.len() ==> links.contains((agent, #[trigger] c[i].address, LinkTag::AppsEnabled)),
        Err(_) => false,
    }
}

/// Law: listing the apps that a registered host enabled succeeds, changes nothing in
/// the DHT, and lists only apps that the host's `apps_enabled` links lead to.
pub proof fn enabled_list_lists_enabled_apps(agent: Seq<char>, links: LinkSet)
    requires
        registered(links, agent),
    ensures
        leads_to(enabled_list_procedure(), enabled_list_start(agent), ReplyView::Done, links, 2, enabled_list_goal(agent, links)),
{
    let s1 = GetEnabledAppListView { phase: EnabledListPhase::HostCheck, agent };
    let s2 = GetEnabledAppListView { phase: EnabledListPhase::Loading, agent };
    let t0 = choose|t: Seq<char>| links.contains((agent, t, LinkTag::VerifiedHost));
    assert forall|rep: ReplyView| #[trigger] answers(links, registration_request(agent), rep) implies leads_to(
        enabled_list_procedure(), s1, rep, links, 1, enabled_list_goal(agent, links)) by {
        if let ReplyView::Links(l) = rep {
            assert(l.contains(t0));
            assert(enabled_list_next(s1, rep).0 == s2);
            assert forall|rep2: ReplyView| #[trigger] answers(
                links,
                RequestView::LoadAppConfigs { base: agent, tag: LinkTag::AppsEnabled },
                rep2,
            ) implies leads_to(enabled_list_procedure(), s2, rep2, links, 0, enabled_list_goal(agent, links)) by {}
        }
    }
}

} // verus!
