//! Laws of collecting updates for the key-value store and of confirming them.

use vstd::prelude::*;
use crate::dht::{finite_links, lemma_finite_kept, lemma_leads_to_at_weaken, leads_to_at, lemma_leads_to_at_both, lemma_list_within, lemma_ranked_leads_to_at, outcome_ranked_at, answers_at, ends_at, lemma_invariant_ends_at, loads_links, outcome_at, both, lemma_leads_to_both, lemma_leads_to_weaken, answers, effect, ends_only_in, lemma_invariant_ends_only_in, lemma_leads_to_same_step, leads_to, lists, outcome_ok, LinkSet, LinkTag, LoadedEntryView, ReplyView, RequestView, StepView};
use crate::host::registration_request;
use crate::kv::{after_removal, begin_app, begin_host, kv_at, in_app, in_host, kv_completed_next, kv_updates_next, next_pair, pending_tag, recent_tag, record, CompletedPhase, KvCompletedView, KvPhase, KvRound, KvUpdatesView};
use crate::host::{agent_exists_result, fold_agent_keys, App2HostView, DnaToHostView};
use crate::error::HostErrorView;
use crate::laws::common::{registered, unchanged_goal};

verus! {

pub open spec fn kv_updates_procedure() -> spec_fn(KvUpdatesView, ReplyView) -> (KvUpdatesView, StepView<DnaToHostView>) {
    |s: KvUpdatesView, r: ReplyView| kv_updates_next(s, r)
}

pub open spec fn kv_updates_start(agent: Seq<char>) -> KvUpdatesView {
    KvUpdatesView {
        phase: KvPhase::Start,
        agent,
        round: KvRound::Enabled,
        apps: seq![],
        app_index: 0,
        recent: seq![],
        pending: seq![],
        hosts: seq![],
        host_index: 0,
        enabled: seq![],
        disabled: seq![],
    }
}

pub open spec fn completed_procedure() -> spec_fn(KvCompletedView, ReplyView) -> (KvCompletedView, StepView<()>) {
    |s: KvCompletedView, r: ReplyView| kv_completed_next(s, r)
}

pub open spec fn confirming(agent: Seq<char>, b: Seq<App2HostView>, phase: CompletedPhase, k: int, h: int) -> KvCompletedView {
    KvCompletedView { phase, agent, bundle: b, kv_index: k, host_index: h }
}

/// How many (app, host) places the bundle holds at or after (`k`, `h`).
pub open spec fn pairs_from(b: Seq<App2HostView>, k: int, h: int) -> nat
    decreases b.len() - k, b[k].host.len() - h,
{
    if !(0 <= k < b.len()) || h < 0 {
        0
    } else if h >= b[k].host.len() {
        pairs_from(b, k + 1, 0)
    } else {
        1 + pairs_from(b, k, h + 1)
    }
}

/// Whether no pending-change link (of either kind) goes from an app of the bundle to
/// one of its hosts, for every place before (`k`, `h`).
pub open spec fn cleared_before(links: LinkSet, b: Seq<App2HostView>, k: int, h: int) -> bool {
    forall|i: int, j: int|
        #![trigger b[i].host[j]]
        0 <= i < b.len() && 0 <= j < b[i].host.len() && (i < k || (i == k && j < h)) ==> {
            &&& !links.contains((b[i].app, b[i].host[j], LinkTag::NeedUpdatesEnabled))
            &&& !links.contains((b[i].app, b[i].host[j], LinkTag::NeedUpdatesDisabled))
        }
}

pub open spec fn confirmed_goal(b: Seq<App2HostView>) -> spec_fn(Result<(), HostErrorView>, LinkSet) -> bool {
    |r: Result<(), HostErrorView>, l: LinkSet| r == Ok::<(), HostErrorView>(()) && cleared_before(l, b, b.len() as int, 0)
}

/// What the confirmation leads to from the place (`k`, `h`) on, for every links in
/// which the earlier places are cleared.
pub open spec fn confirms_from(agent: Seq<char>, b: Seq<App2HostView>, k: int, h: int, t0: Seq<char>) -> bool {
    forall|l: LinkSet, f: nat|
        #![trigger leads_to(completed_procedure(), confirming(agent, b, CompletedPhase::Start, k, h), ReplyView::Done, l, f, confirmed_goal(b))]
        l.contains((agent, t0, LinkTag::VerifiedHost)) && cleared_before(l, b, k, h) && f >= 6 * pairs_from(b, k, h)
            ==> leads_to(completed_procedure(), confirming(agent, b, CompletedPhase::Start, k, h), ReplyView::Done, l, f, confirmed_goal(b))
}

/// The last probe of a place: the pending disablings.
proof fn confirm_disabled_links(agent: Seq<char>, b: Seq<App2HostView>, k: int, h: int, t0: Seq<char>, links: LinkSet, rep: ReplyView, fuel: nat)
    requires
        0 <= k < b.len(),
        0 <= h < b[k].host.len(),
        confirms_from(agent, b, k, h + 1, t0),
        links.contains((agent, t0, LinkTag::VerifiedHost)),
        cleared_before(links, b, k, h),
        !links.contains((b[k].app, b[k].host[h], LinkTag::NeedUpdatesEnabled)),
        answers(links, RequestView::GetLinks { base: b[k].app, tag: LinkTag::NeedUpdatesDisabled }, rep),
        fuel >= 1 + 6 * pairs_from(b, k, h + 1),
    ensures
        leads_to(completed_procedure(), confirming(agent, b, CompletedPhase::DisabledLinks, k, h), rep, links, fuel, confirmed_goal(b)),
{
    let s = confirming(agent, b, CompletedPhase::DisabledLinks, k, h);
    let start = confirming(agent, b, CompletedPhase::Start, k, h + 1);
    let l = rep->Links_0;
    if lists(l, b[k].host[h]) {
        let rm = RequestView::RemoveLink { base: b[k].app, target: b[k].host[h], tag: LinkTag::NeedUpdatesDisabled };
        let links2 = effect(links, rm);
        assert(cleared_before(links2, b, k, h + 1));
        assert forall|rep2: ReplyView| #[trigger] answers(links, rm, rep2) implies leads_to(
            completed_procedure(), confirming(agent, b, CompletedPhase::DisabledRemoving, k, h), rep2, links2, (fuel - 1) as nat, confirmed_goal(b)) by {
            lemma_leads_to_same_step(completed_procedure(), confirming(agent, b, CompletedPhase::DisabledRemoving, k, h), rep2,
                start, ReplyView::Done, links2, (fuel - 1) as nat, confirmed_goal(b));
        }
    } else {
        assert(!links.contains((b[k].app, b[k].host[h], LinkTag::NeedUpdatesDisabled)));
        assert(cleared_before(links, b, k, h + 1));
        lemma_leads_to_same_step(completed_procedure(), s, rep, start, ReplyView::Done, links, fuel, confirmed_goal(b));
    }
}

/// One place of the bundle: both probes, each after a check that the agent is a host.
proof fn confirm_place(agent: Seq<char>, b: Seq<App2HostView>, k: int, h: int, t0: Seq<char>, links: LinkSet, fuel: nat)
    requires
        0 <= k < b.len(),
        0 <= h < b[k].host.len(),
        confirms_from(agent, b, k, h + 1, t0),
        links.contains((agent, t0, LinkTag::VerifiedHost)),
        cleared_before(links, b, k, h),
        fuel >= 6 * pairs_from(b, k, h),
    ensures
        leads_to(completed_procedure(), confirming(agent, b, CompletedPhase::Start, k, h), ReplyView::Done, links, fuel, confirmed_goal(b)),
{
    assert(pairs_from(b, k, h) == 1 + pairs_from(b, k, h + 1));
    assert(next_pair(b, k, h) == (k, h));
    let host = registration_request(agent);
    let q1 = RequestView::GetLinks { base: b[k].app, tag: LinkTag::NeedUpdatesEnabled };
    let q2 = RequestView::GetLinks { base: b[k].app, tag: LinkTag::NeedUpdatesDisabled };
    let rm1 = RequestView::RemoveLink { base: b[k].app, target: b[k].host[h], tag: LinkTag::NeedUpdatesEnabled };
    assert forall|r1: ReplyView| #[trigger] answers(links, host, r1) implies leads_to(
        completed_procedure(), confirming(agent, b, CompletedPhase::EnabledHostCheck, k, h), r1, links, (fuel - 1) as nat, confirmed_goal(b)) by {
        assert(r1->Links_0.contains(t0));
        assert forall|r2: ReplyView| #[trigger] answers(links, q1, r2) implies leads_to(
            completed_procedure(), confirming(agent, b, CompletedPhase::EnabledLinks, k, h), r2, links, (fuel - 2) as nat, confirmed_goal(b)) by {
            let l2 = r2->Links_0;
            if lists(l2, b[k].host[h]) {
                let links3 = effect(links, rm1);
                assert forall|r3: ReplyView| #[trigger] answers(links, rm1, r3) implies leads_to(
                    completed_procedure(), confirming(agent, b, CompletedPhase::EnabledRemoving, k, h), r3, links3, (fuel - 3) as nat, confirmed_goal(b)) by {
                    assert forall|r4: ReplyView| #[trigger] answers(links3, host, r4) implies leads_to(
                        completed_procedure(), confirming(agent, b, CompletedPhase::DisabledHostCheck, k, h), r4, links3, (fuel - 4) as nat, confirmed_goal(b)) by {
                        assert(links3.contains((agent, t0, LinkTag::VerifiedHost)));
                        assert(r4->Links_0.contains(t0));
                        assert forall|r5: ReplyView| #[trigger] answers(links3, q2, r5) implies leads_to(
                            completed_procedure(), confirming(agent, b, CompletedPhase::DisabledLinks, k, h), r5, links3, (fuel - 5) as nat, confirmed_goal(b)) by {
                            confirm_disabled_links(agent, b, k, h, t0, links3, r5, (fuel - 5) as nat);
                        }
                    }
                }
            } else {
                assert(!links.contains((b[k].app, b[k].host[h], LinkTag::NeedUpdatesEnabled)));
                assert forall|r4: ReplyView| #[trigger] answers(links, host, r4) implies leads_to(
                    completed_procedure(), confirming(agent, b, CompletedPhase::DisabledHostCheck, k, h), r4, links, (fuel - 3) as nat, confirmed_goal(b)) by {
                    assert(r4->Links_0.contains(t0));
                    assert forall|r5: ReplyView| #[trigger] answers(links, q2, r5) implies leads_to(
                        completed_procedure(), confirming(agent, b, CompletedPhase::DisabledLinks, k, h), r5, links, (fuel - 4) as nat, confirmed_goal(b)) by {
                        confirm_disabled_links(agent, b, k, h, t0, links, r5, (fuel - 4) as nat);
                    }
                }
            }
        }
    }
}

proof fn confirm_from(agent: Seq<char>, b: Seq<App2HostView>, k: int, h: int, t0: Seq<char>)
    requires
        0 <= k,
        0 <= h,
    ensures
        confirms_from(agent, b, k, h, t0),
    decreases b.len() - k, b[k].host.len() - h,
{
    if k >= b.len() {
        assert forall|l: LinkSet, f: nat|
            l.contains((agent, t0, LinkTag::VerifiedHost)) && cleared_before(l, b, k, h) && f >= 6 * pairs_from(b, k, h)
            implies #[trigger] leads_to(completed_procedure(), confirming(agent, b, CompletedPhase::Start, k, h), ReplyView::Done, l, f, confirmed_goal(b)) by {
            assert(cleared_before(l, b, b.len() as int, 0));
        }
    } else if h >= b[k].host.len() {
        confirm_from(agent, b, k + 1, 0, t0);
        assert forall|l: LinkSet, f: nat|
            l.contains((agent, t0, LinkTag::VerifiedHost)) && cleared_before(l, b, k, h) && f >= 6 * pairs_from(b, k, h)
            implies #[trigger] leads_to(completed_procedure(), confirming(agent, b, CompletedPhase::Start, k, h), ReplyView::Done, l, f, confirmed_goal(b)) by {
            assert(cleared_before(l, b, k + 1, 0));
            assert(next_pair(b, k, h) == next_pair(b, k + 1, 0));
            lemma_leads_to_same_step(completed_procedure(), confirming(agent, b, CompletedPhase::Start, k, h), ReplyView::Done,
                confirming(agent, b, CompletedPhase::Start, k + 1, 0), ReplyView::Done, l, f, confirmed_goal(b));
        }
    } else {
        confirm_from(agent, b, k, h + 1, t0);
        assert forall|l: LinkSet, f: nat|
            l.contains((agent, t0, LinkTag::VerifiedHost)) && cleared_before(l, b, k, h) && f >= 6 * pairs_from(b, k, h)
            implies #[trigger] leads_to(completed_procedure(), confirming(agent, b, CompletedPhase::Start, k, h), ReplyView::Done, l, f, confirmed_goal(b)) by {
            confirm_place(agent, b, k, h, t0, l, f);
        }
    }
}

/// Law: a registered host that confirms a bundle of updates succeeds, and afterwards the
/// DHT holds no pending-change link, of either kind, from any app of the bundle to any
/// of the hosts listed with it. It takes at most six requests per (app, host) pair.
pub proof fn confirming_clears_pending_marks(agent: Seq<char>, b: Seq<App2HostView>, links: LinkSet)
    requires
        registered(links, agent),
    ensures
        leads_to(
            completed_procedure(),
            confirming(agent, b, CompletedPhase::Start, 0, 0),
            ReplyView::Done,
            links,
            6 * pairs_from(b, 0, 0),
            confirmed_goal(b),
        ),
{
    let t0 = choose|t: Seq<char>| links.contains((agent, t, LinkTag::VerifiedHost));
    confirm_from(agent, b, 0, 0, t0);
    assert(cleared_before(links, b, 0, 0));
}

/// What the confirmation leads to from the place (`k`, `h`) on, for every links in
/// which no place of the bundle has a pending-change link: success, with no write.
pub open spec fn confirms_quietly_from(agent: Seq<char>, b: Seq<App2HostView>, k: int, h: int, t0: Seq<char>) -> bool {
    forall|l: LinkSet, f: nat|
        #![trigger leads_to(completed_procedure(), confirming(agent, b, CompletedPhase::Start, k, h), ReplyView::Done, l, f, unchanged_goal(l))]
        l.contains((agent, t0, LinkTag::VerifiedHost)) && cleared_before(l, b, b.len() as int, 0) && f >= 6 * pairs_from(b, k, h)
            ==> leads_to(completed_procedure(), confirming(agent, b, CompletedPhase::Start, k, h), ReplyView::Done, l, f, unchanged_goal(l))
}

/// One place of a bundle whose pending-change links are all gone: both probes find
/// nothing to remove.
proof fn confirm_place_quietly(agent: Seq<char>, b: Seq<App2HostView>, k: int, h: int, t0: Seq<char>, links: LinkSet, fuel: nat)
    requires
        0 <= k < b.len(),
        0 <= h < b[k].host.len(),
        confirms_quietly_from(agent, b, k, h + 1, t0),
        links.contains((agent, t0, LinkTag::VerifiedHost)),
        cleared_before(links, b, b.len() as int, 0),
        fuel >= 6 * pairs_from(b, k, h),
    ensures
        leads_to(completed_procedure(), confirming(agent, b, CompletedPhase::Start, k, h), ReplyView::Done, links, fuel, unchanged_goal(links)),
{
    assert(pairs_from(b, k, h) == 1 + pairs_from(b, k, h + 1));
    assert(next_pair(b, k, h) == (k, h));
    let g = unchanged_goal(links);
    let app = b[k].app;
    let host_at = b[k].host[h];
    assert(!links.contains((app, host_at, LinkTag::NeedUpdatesEnabled)));
    assert(!links.contains((app, host_at, LinkTag::NeedUpdatesDisabled)));
    let host = registration_request(agent);
    let q1 = RequestView::GetLinks { base: app, tag: LinkTag::NeedUpdatesEnabled };
    let q2 = RequestView::GetLinks { base: app, tag: LinkTag::NeedUpdatesDisabled };
    let start = confirming(agent, b, CompletedPhase::Start, k, h + 1);
    assert forall|r1: ReplyView| #[trigger] answers(links, host, r1) implies leads_to(
        completed_procedure(), confirming(agent, b, CompletedPhase::EnabledHostCheck, k, h), r1, links, (fuel - 1) as nat, g) by {
        assert(r1->Links_0.contains(t0));
        assert forall|r2: ReplyView| #[trigger] answers(links, q1, r2) implies leads_to(
            completed_procedure(), confirming(agent, b, CompletedPhase::EnabledLinks, k, h), r2, links, (fuel - 2) as nat, g) by {
            if lists(r2->Links_0, host_at) {
                let j = choose|j: int| 0 <= j < r2->Links_0.len() && r2->Links_0[j] == host_at;
                assert(links.contains((app, r2->Links_0[j], LinkTag::NeedUpdatesEnabled)));
            }
            assert forall|r4: ReplyView| #[trigger] answers(links, host, r4) implies leads_to(
                completed_procedure(), confirming(agent, b, CompletedPhase::DisabledHostCheck, k, h), r4, links, (fuel - 3) as nat, g) by {
                assert(r4->Links_0.contains(t0));
                assert forall|r5: ReplyView| #[trigger] answers(links, q2, r5) implies leads_to(
                    completed_procedure(), confirming(agent, b, CompletedPhase::DisabledLinks, k, h), r5, links, (fuel - 4) as nat, g) by {
                    if lists(r5->Links_0, host_at) {
                        let j = choose|j: int| 0 <= j < r5->Links_0.len() && r5->Links_0[j] == host_at;
                        assert(links.contains((app, r5->Links_0[j], LinkTag::NeedUpdatesDisabled)));
                    }
                    lemma_leads_to_same_step(completed_procedure(), confirming(agent, b, CompletedPhase::DisabledLinks, k, h), r5,
                        start, ReplyView::Done, links, (fuel - 4) as nat, g);
                }
            }
        }
    }
}

proof fn confirm_quietly_from(agent: Seq<char>, b: Seq<App2HostView>, k: int, h: int, t0: Seq<char>)
    requires
        0 <= k,
        0 <= h,
    ensures
        confirms_quietly_from(agent, b, k, h, t0),
    decreases b.len() - k, b[k].host.len() - h,
{
    if k >= b.len() {
    } else if h >= b[k].host.len() {
        confirm_quietly_from(agent, b, k + 1, 0, t0);
        assert forall|l: LinkSet, f: nat|
            l.contains((agent, t0, LinkTag::VerifiedHost)) && cleared_before(l, b, b.len() as int, 0) && f >= 6 * pairs_from(b, k, h)
            implies #[trigger] leads_to(completed_procedure(), confirming(agent, b, CompletedPhase::Start, k, h), ReplyView::Done, l, f, unchanged_goal(l)) by {
            assert(next_pair(b, k, h) == next_pair(b, k + 1, 0));
            lemma_leads_to_same_step(completed_procedure(), confirming(agent, b, CompletedPhase::Start, k, h), ReplyView::Done,
                confirming(agent, b, CompletedPhase::Start, k + 1, 0), ReplyView::Done, l, f, unchanged_goal(l));
        }
    } else {
        confirm_quietly_from(agent, b, k, h + 1, t0);
        assert forall|l: LinkSet, f: nat|
            l.contains((agent, t0, LinkTag::VerifiedHost)) && cleared_before(l, b, b.len() as int, 0) && f >= 6 * pairs_from(b, k, h)
            implies #[trigger] leads_to(completed_procedure(), confirming(agent, b, CompletedPhase::Start, k, h), ReplyView::Done, l, f, unchanged_goal(l)) by {
            confirm_place_quietly(agent, b, k, h, t0, l, f);
        }
    }
}

/// What a second confirmation of the bundle `b` by `agent` leads to on the links that
/// the first left: success, with nothing changed.
pub open spec fn confirmed_again(agent: Seq<char>, b: Seq<App2HostView>) -> spec_fn(Result<(), HostErrorView>, LinkSet) -> bool {
    |r: Result<(), HostErrorView>, l: LinkSet| r is Ok && leads_to(
        completed_procedure(),
        confirming(agent, b, CompletedPhase::Start, 0, 0),
        ReplyView::Done,
        l,
        6 * pairs_from(b, 0, 0),
        unchanged_goal(l),
    )
}

/// Law: confirming a bundle twice has the effect of confirming it once: for a
/// registered host the first confirmation succeeds, and a second one of the same bundle
/// succeeds and changes nothing.
pub proof fn confirming_twice(agent: Seq<char>, b: Seq<App2HostView>, links: LinkSet)
    requires
        registered(links, agent),
    ensures
        leads_to(
            completed_procedure(),
            confirming(agent, b, CompletedPhase::Start, 0, 0),
            ReplyView::Done,
            links,
            6 * pairs_from(b, 0, 0),
            confirmed_again(agent, b),
        ),
{
    let t0 = choose|t: Seq<char>| links.contains((agent, t, LinkTag::VerifiedHost));
    let start = confirming(agent, b, CompletedPhase::Start, 0, 0);
    let fuel = 6 * pairs_from(b, 0, 0);
    let kept = |r: Result<(), HostErrorView>, l: LinkSet| l.contains((agent, t0, LinkTag::VerifiedHost));
    confirming_clears_pending_marks(agent, b, links);
    let inv = |s1: KvCompletedView, r1: ReplyView, l1: LinkSet| l1.contains((agent, t0, LinkTag::VerifiedHost));
    assert forall|s1: KvCompletedView, r1: ReplyView, l1: LinkSet| #[trigger] inv(s1, r1, l1) implies outcome_ok(
        completed_procedure()(s1, r1), l1, inv, kept) by {
        if let StepView::Perform(req) = completed_procedure()(s1, r1).1 {
            assert(effect(l1, req).contains((agent, t0, LinkTag::VerifiedHost)));
        }
    }
    lemma_invariant_ends_only_in(completed_procedure(), inv, kept, start, ReplyView::Done, links, fuel);
    lemma_leads_to_both(completed_procedure(), start, ReplyView::Done, links, fuel, confirmed_goal(b), kept);
    confirm_quietly_from(agent, b, 0, 0, t0);
    assert forall|r: Result<(), HostErrorView>, l: LinkSet| both(confirmed_goal(b), kept)(r, l) implies #[trigger] confirmed_again(agent, b)(r, l) by {
    }
    lemma_leads_to_weaken(completed_procedure(), start, ReplyView::Done, links, fuel, both(confirmed_goal(b), kept), confirmed_again(agent, b));
}

// ---------------------------------------------------------------------
// Collecting the updates for the key-value store
// ---------------------------------------------------------------------

/// Whether, for the first `n` hosts of `x`, the app's recent-change link to the host is
/// gone and its pending-change link to the host is there.
pub open spec fn moved(l: LinkSet, x: App2HostView, round: KvRound, n: int) -> bool {
    forall|j: int| 0 <= j < n ==> {
        &&& !l.contains((x.app, #[trigger] x.host[j], recent_tag(round)))
        &&& l.contains((x.app, x.host[j], pending_tag(round)))
    }
}

/// Whether every host of the first `upto` entries of `list` is moved.
pub open spec fn all_moved(l: LinkSet, list: Seq<App2HostView>, round: KvRound, upto: int) -> bool {
    forall|i: int| 0 <= i < upto && i < list.len() ==> #[trigger] moved(l, list[i], round, list[i].host.len() as int)
}

/// What the collection leads to: where it succeeds, every host that it reports for an
/// app has been moved from the recent-change link to the pending-change link.
pub open spec fn kv_goal() -> spec_fn(Result<DnaToHostView, HostErrorView>, LinkSet) -> bool {
    |r: Result<DnaToHostView, HostErrorView>, l: LinkSet| match r {
        Ok(d) => all_moved(l, d.recently_enabled_apps, KvRound::Enabled, d.recently_enabled_apps.len() as int)
            && all_moved(l, d.recently_disabled_apps, KvRound::Disabled, d.recently_disabled_apps.len() as int),
        Err(_) => true,
    }
}

/// Whether the links keep the marks of both rounds: what has no recent-change link
/// still has none, and what has a pending-change link still has it.
pub open spec fn keeps_marks(l: LinkSet, l2: LinkSet) -> bool {
    &&& forall|a: Seq<char>, h: Seq<char>, r: KvRound|
        !l.contains((a, h, recent_tag(r))) ==> !#[trigger] l2.contains((a, h, recent_tag(r)))
    &&& forall|a: Seq<char>, h: Seq<char>, r: KvRound|
        l.contains((a, h, pending_tag(r))) ==> #[trigger] l2.contains((a, h, pending_tag(r)))
}

proof fn lemma_all_moved_kept(l: LinkSet, l2: LinkSet, list: Seq<App2HostView>, round: KvRound, upto: int)
    requires
        all_moved(l, list, round, upto),
        keeps_marks(l, l2),
    ensures
        all_moved(l2, list, round, upto),
{
    assert forall|i: int| 0 <= i < upto && i < list.len() implies #[trigger] moved(l2, list[i], round, list[i].host.len() as int) by {
        assert(moved(l, list[i], round, list[i].host.len() as int));
        assert forall|j: int| 0 <= j < list[i].host.len() implies {
            &&& !l2.contains((list[i].app, #[trigger] list[i].host[j], recent_tag(round)))
            &&& l2.contains((list[i].app, list[i].host[j], pending_tag(round)))
        } by {
            assert(!l.contains((list[i].app, list[i].host[j], recent_tag(round))));
            assert(l.contains((list[i].app, list[i].host[j], pending_tag(round))));
        }
    }
}

pub open spec fn cur_list(s: KvUpdatesView) -> Seq<App2HostView> {
    if s.round == KvRound::Enabled {
        s.enabled
    } else {
        s.disabled
    }
}

pub open spec fn kv_processing(p: KvPhase) -> bool {
    p is HostCheckForHost || p is HostLinks || p is RemovingRecent || p is LinkingPending
}

/// Whether every agent entry among the pending-change entries is at a pending-change
/// link of the app at hand.
pub open spec fn pending_held(l: LinkSet, s: KvUpdatesView) -> bool {
    forall|i: int| 0 <= i < s.pending.len() ==> (#[trigger] s.pending[i] matches LoadedEntryView::Agent(k)
        ==> l.contains((s.apps[s.app_index], k, pending_tag(s.round))))
}

pub open spec fn kv_done_so_far(s: KvUpdatesView, l: LinkSet) -> bool {
    &&& s.round == KvRound::Disabled ==> all_moved(l, s.enabled, KvRound::Enabled, s.enabled.len() as int)
    &&& s.round == KvRound::Enabled ==> s.disabled.len() == 0
}

/// What the entry at hand of the round's list, and the host at hand, stand for.
pub open spec fn kv_host_facts(s: KvUpdatesView, l: LinkSet) -> bool {
    let list = cur_list(s);
    &&& list.len() > 0
    &&& all_moved(l, list, s.round, list.len() - 1)
    &&& in_app(s)
    &&& 0 <= s.host_index <= s.hosts.len()
    &&& list.last().app == s.apps[s.app_index]
    &&& list.last().host == s.hosts
    &&& moved(l, list.last(), s.round, s.host_index)
    &&& pending_held(l, s)
}

/// The invariant of the collection's runs.
pub open spec fn kv_inv(s: KvUpdatesView, rep: ReplyView, l: LinkSet) -> bool {
    &&& kv_done_so_far(s, l)
    &&& (s.phase is Start || s.phase is HostCheck || s.phase is Anchoring || s.phase is AppLinks) ==> s.enabled.len() == 0 && s.disabled.len() == 0
    &&& if kv_processing(s.phase) {
        &&& kv_host_facts(s, l)
        &&& in_host(s)
        &&& (s.phase is HostLinks ==> answers(l, RequestView::GetLinks { base: s.apps[s.app_index], tag: recent_tag(s.round) }, rep))
        &&& (s.phase is RemovingRecent ==> !l.contains((s.apps[s.app_index], s.hosts[s.host_index], recent_tag(s.round))))
        &&& (s.phase is LinkingPending ==> !l.contains((s.apps[s.app_index], s.hosts[s.host_index], recent_tag(s.round)))
            && l.contains((s.apps[s.app_index], s.hosts[s.host_index], pending_tag(s.round))))
    } else {
        &&& all_moved(l, cur_list(s), s.round, cur_list(s).len() as int)
        &&& (s.phase is PendingEntries && in_app(s) ==> answers(
            l,
            RequestView::LoadLinks { base: s.apps[s.app_index], tag: pending_tag(s.round) },
            rep,
        ))
    }
}

pub open spec fn kv_inv_fn() -> spec_fn(KvUpdatesView, ReplyView, LinkSet) -> bool {
    |s: KvUpdatesView, rep: ReplyView, l: LinkSet| kv_inv(s, rep, l)
}

proof fn lemma_kv_begin_app(s: KvUpdatesView, l: LinkSet)
    requires
        kv_done_so_far(s, l),
        all_moved(l, cur_list(s), s.round, cur_list(s).len() as int),
    ensures
        outcome_ok(begin_app(s), l, kv_inv_fn(), kv_goal()),
{
}

proof fn lemma_kv_begin_host(s: KvUpdatesView, l: LinkSet)
    requires
        kv_done_so_far(s, l),
        kv_host_facts(s, l),
    ensures
        outcome_ok(begin_host(s), l, kv_inv_fn(), kv_goal()),
{
    if !(0 <= s.host_index < s.hosts.len()) {
        let list = cur_list(s);
        assert(all_moved(l, list, s.round, list.len() as int)) by {
            assert forall|i: int| 0 <= i < list.len() && i < list.len() implies #[trigger] moved(l, list[i], s.round, list[i].host.len() as int) by {
                if i < list.len() - 1 {
                    assert(moved(l, list[i], s.round, list[i].host.len() as int));
                } else {
                    assert(list[i] == list.last());
                }
            }
        }
        lemma_kv_begin_app(KvUpdatesView { app_index: s.app_index + 1, ..s }, l);
    }
}

proof fn lemma_agent_exists_found(entries: Seq<LoadedEntryView>, agent: Seq<char>)
    requires
        agent_exists_result(entries, agent) == Ok::<bool, HostErrorView>(true),
    ensures
        exists|i: int| 0 <= i < entries.len() && entries[i] == LoadedEntryView::Agent(agent),
    decreases entries.len(),
{
    if entries[0] != LoadedEntryView::Agent(agent) {
        lemma_agent_exists_found(entries.drop_first(), agent);
        let i = choose|i: int| 0 <= i < entries.drop_first().len() && entries.drop_first()[i] == LoadedEntryView::Agent(agent);
        assert(entries[i + 1] == LoadedEntryView::Agent(agent));
    }
}

proof fn lemma_kv_after_removal(s: KvUpdatesView, l: LinkSet)
    requires
        kv_done_so_far(s, l),
        kv_host_facts(s, l),
        in_host(s),
        !l.contains((s.apps[s.app_index], s.hosts[s.host_index], recent_tag(s.round))),
    ensures
        outcome_ok(after_removal(s), l, kv_inv_fn(), kv_goal()),
{
    let a = s.apps[s.app_index];
    let h = s.hosts[s.host_index];
    let list = cur_list(s);
    match agent_exists_result(s.pending, h) {
        Err(e) => {},
        Ok(found) => if found {
            lemma_agent_exists_found(s.pending, h);
            let i = choose|i: int| 0 <= i < s.pending.len() && s.pending[i] == LoadedEntryView::Agent(h);
            assert(s.pending[i] matches LoadedEntryView::Agent(k) ==> l.contains((a, k, pending_tag(s.round))));
            assert(l.contains((a, h, pending_tag(s.round))));
            let s2 = KvUpdatesView { host_index: s.host_index + 1, ..s };
            assert(moved(l, list.last(), s.round, s.host_index + 1)) by {
                assert forall|j: int| 0 <= j < s.host_index + 1 implies {
                    &&& !l.contains((list.last().app, #[trigger] list.last().host[j], recent_tag(s.round)))
                    &&& l.contains((list.last().app, list.last().host[j], pending_tag(s.round)))
                } by {
                    if j < s.host_index {
                        assert(moved(l, list.last(), s.round, s.host_index));
                    }
                }
            }
            lemma_kv_begin_host(s2, l);
        } else {
            let req = RequestView::LinkEntries { base: a, target: h, tag: pending_tag(s.round) };
            let l2 = effect(l, req);
            assert(keeps_marks(l, l2));
            lemma_all_moved_kept(l, l2, list, s.round, list.len() - 1);
            if s.round == KvRound::Disabled {
                lemma_all_moved_kept(l, l2, s.enabled, KvRound::Enabled, s.enabled.len() as int);
            }
            let x = list.last();
            assert(moved(l2, x, s.round, s.host_index)) by {
                assert forall|j: int| 0 <= j < s.host_index implies {
                    &&& !l2.contains((x.app, #[trigger] x.host[j], recent_tag(s.round)))
                    &&& l2.contains((x.app, x.host[j], pending_tag(s.round)))
                } by {
                    assert(moved(l, x, s.round, s.host_index));
                    assert(!l.contains((x.app, x.host[j], recent_tag(s.round))));
                }
            }
            let s2 = KvUpdatesView { phase: KvPhase::LinkingPending, ..s };
            assert forall|rep: ReplyView| #[trigger] answers(l, req, rep) implies kv_inv(s2, rep, l2) by {
                assert(pending_held(l2, s2));
            }
        },
    }
}

proof fn lemma_kv_step(s: KvUpdatesView, rep: ReplyView, l: LinkSet)
    requires
        kv_inv(s, rep, l),
    ensures
        outcome_ok(kv_updates_next(s, rep), l, kv_inv_fn(), kv_goal()),
{
    match s.phase {
        KvPhase::AppLinks => {
            if let ReplyView::Links(apps) = rep {
                lemma_kv_begin_app(KvUpdatesView { apps, round: KvRound::Enabled, app_index: 0, ..s }, l);
            }
        },
        KvPhase::PendingEntries => {
            if let ReplyView::Entries(e) = rep {
                if in_app(s) {
                    let s2 = KvUpdatesView { pending: e, ..s };
                    if let Ok(ks) = fold_agent_keys_of(s.recent, e) {
                        let s3 = KvUpdatesView { hosts: ks, host_index: 0, ..record(s2, ks) };
                        assert(cur_list(s3) == cur_list(s).push(App2HostView { app: s.apps[s.app_index], host: ks }));
                        assert(cur_list(s3).drop_last() == cur_list(s));
                        assert(all_moved(l, cur_list(s3), s3.round, cur_list(s3).len() - 1)) by {
                            assert forall|i: int| 0 <= i < cur_list(s3).len() - 1 && i < cur_list(s3).len() implies #[trigger] moved(l, cur_list(s3)[i], s3.round, cur_list(s3)[i].host.len() as int) by {
                                assert(cur_list(s3)[i] == cur_list(s)[i]);
                                assert(moved(l, cur_list(s)[i], s.round, cur_list(s)[i].host.len() as int));
                            }
                        }
                        assert(pending_held(l, s3)) by {
                            assert forall|i: int| 0 <= i < s3.pending.len() implies (#[trigger] s3.pending[i] matches LoadedEntryView::Agent(k)
                                ==> l.contains((s3.apps[s3.app_index], k, pending_tag(s3.round)))) by {
                                assert(e[i] == s3.pending[i]);
                            }
                        }
                        lemma_kv_begin_host(s3, l);
                    }
                }
            }
        },
        KvPhase::HostLinks => {
            if let ReplyView::Links(found) = rep {
                if in_host(s) {
                    let a = s.apps[s.app_index];
                    let h = s.hosts[s.host_index];
                    if lists(found, h) {
                        let req = RequestView::RemoveLink { base: a, target: h, tag: recent_tag(s.round) };
                        let l2 = effect(l, req);
                        let list = cur_list(s);
                        assert(keeps_marks(l, l2));
                        lemma_all_moved_kept(l, l2, list, s.round, list.len() - 1);
                        if s.round == KvRound::Disabled {
                lemma_all_moved_kept(l, l2, s.enabled, KvRound::Enabled, s.enabled.len() as int);
            }
                        let x = list.last();
                        assert(moved(l2, x, s.round, s.host_index)) by {
                            assert forall|j: int| 0 <= j < s.host_index implies {
                                &&& !l2.contains((x.app, #[trigger] x.host[j], recent_tag(s.round)))
                                &&& l2.contains((x.app, x.host[j], pending_tag(s.round)))
                            } by {
                                assert(moved(l, x, s.round, s.host_index));
                                assert(l.contains((x.app, x.host[j], pending_tag(s.round))));
                            }
                        }
                        let s2 = KvUpdatesView { phase: KvPhase::RemovingRecent, ..s };
                        assert forall|rep2: ReplyView| #[trigger] answers(l, req, rep2) implies kv_inv(s2, rep2, l2) by {
                            assert(pending_held(l2, s2));
                        }
                    } else {
                        assert(!l.contains((a, h, recent_tag(s.round))));
                        lemma_kv_after_removal(s, l);
                    }
                }
            }
        },
        KvPhase::RemovingRecent => {
            if in_host(s) {
                lemma_kv_after_removal(s, l);
            }
        },
        KvPhase::LinkingPending => {
            if in_host(s) {
                let list = cur_list(s);
                let x = list.last();
                assert(moved(l, x, s.round, s.host_index + 1)) by {
                    assert forall|j: int| 0 <= j < s.host_index + 1 implies {
                        &&& !l.contains((x.app, #[trigger] x.host[j], recent_tag(s.round)))
                        &&& l.contains((x.app, x.host[j], pending_tag(s.round)))
                    } by {
                        if j < s.host_index {
                            assert(moved(l, x, s.round, s.host_index));
                        }
                    }
                }
                lemma_kv_begin_host(KvUpdatesView { host_index: s.host_index + 1, ..s }, l);
            }
        },
        _ => {},
    }
}

pub open spec fn fold_agent_keys_of(recent: Seq<LoadedEntryView>, pending: Seq<LoadedEntryView>) -> Result<Seq<Seq<char>>, HostErrorView> {
    fold_agent_keys(seq![], recent + pending)
}

/// Law: where the collection of updates for the key-value store succeeds, every host
/// that it reports for an app (among the enablings, or the disablings) no longer has
/// the app's recent-change link (`recently_enabled_app_tag`, or
/// `recently_disabled_app_tag`) and has its pending-change link
/// (`need_updates_enabled_from_kv_store`, or `need_updates_disabled_from_kv_store`).
/// This holds of every run, however long, whatever the DHT held before.
pub proof fn collecting_moves_marks(agent: Seq<char>, links: LinkSet, fuel: nat)
    ensures
        ends_only_in(kv_updates_procedure(), kv_updates_start(agent), ReplyView::Done, links, fuel, kv_goal()),
{
    assert forall|s1: KvUpdatesView, r1: ReplyView, l1: LinkSet| #[trigger] kv_inv_fn()(s1, r1, l1) implies outcome_ok(
        kv_updates_procedure()(s1, r1), l1, kv_inv_fn(), kv_goal()) by {
        lemma_kv_step(s1, r1, l1);
    }
    lemma_invariant_ends_only_in(kv_updates_procedure(), kv_inv_fn(), kv_goal(), kv_updates_start(agent), ReplyView::Done, links, fuel);
}

// ---------------------------------------------------------------------
// Collecting, acknowledging, and collecting again, against a DHT whose anchor
// of all apps keeps its address and whose loaded links lead to agent entries
// ---------------------------------------------------------------------

/// Whether the app of `x` has no recent-change link of the round left, and every
/// pending-change link of the round from it goes to one of the hosts of `x`.
pub open spec fn settled(l: LinkSet, x: App2HostView, round: KvRound) -> bool {
    &&& forall|t: Seq<char>| !#[trigger] l.contains((x.app, t, recent_tag(round)))
    &&& forall|t: Seq<char>| #[trigger] l.contains((x.app, t, pending_tag(round))) ==> x.host.contains(t)
}

pub open spec fn all_settled(l: LinkSet, list: Seq<App2HostView>, round: KvRound, upto: int) -> bool {
    forall|i: int| 0 <= i < upto && i < list.len() ==> #[trigger] settled(l, list[i], round)
}

/// The apps of a list of updates.
pub open spec fn apps_of(list: Seq<App2HostView>) -> Seq<Seq<char>> {
    list.map_values(|x: App2HostView| x.app)
}

/// Whether the anchor's `all_apps_tag` links in `l` are those in `l0`.
pub open spec fn same_anchor_links(l: LinkSet, l0: LinkSet, anchor: Seq<char>) -> bool {
    forall|t: Seq<char>| #[trigger] l.contains((anchor, t, LinkTag::AllApps)) == l0.contains((anchor, t, LinkTag::AllApps))
}

/// Whether `list` has an entry for every app linked from the anchor, and every entry
/// is settled.
pub open spec fn reports_all(l: LinkSet, anchor: Seq<char>, list: Seq<App2HostView>, round: KvRound) -> bool {
    &&& forall|t: Seq<char>| #[trigger] l.contains((anchor, t, LinkTag::AllApps)) ==> apps_of(list).contains(t)
    &&& all_settled(l, list, round, list.len() as int)
}

/// What the collection leads to where it succeeds: the anchor's links are as they
/// were, the agent is still registered, and each round's list reports every app with
/// all that is left of its marks.
pub open spec fn collected_goal(anchor: Seq<char>, l0: LinkSet, agent: Seq<char>, t0: Seq<char>) -> spec_fn(
    Result<DnaToHostView, HostErrorView>,
    LinkSet,
) -> bool {
    |r: Result<DnaToHostView, HostErrorView>, l: LinkSet| match r {
        Ok(d) => {
            &&& same_anchor_links(l, l0, anchor)
            &&& l.contains((agent, t0, LinkTag::VerifiedHost))
            &&& reports_all(l, anchor, d.recently_enabled_apps, KvRound::Enabled)
            &&& reports_all(l, anchor, d.recently_disabled_apps, KvRound::Disabled)
            &&& all_moved(l, d.recently_enabled_apps, KvRound::Enabled, d.recently_enabled_apps.len() as int)
            &&& all_moved(l, d.recently_disabled_apps, KvRound::Disabled, d.recently_disabled_apps.len() as int)
        },
        Err(_) => true,
    }
}

/// What holds of the links at every point of the collection.
pub open spec fn common_links(anchor: Seq<char>, l0: LinkSet, agent: Seq<char>, t0: Seq<char>, s: KvUpdatesView, l: LinkSet) -> bool {
    &&& same_anchor_links(l, l0, anchor)
    &&& l.contains((agent, t0, LinkTag::VerifiedHost))
}

/// What holds between two apps: the apps read are distinct and every app linked from
/// the anchor is among them; the round's list has an entry for each app before the
/// one at hand, which is settled; in the disabling round, so has the list of the
/// enabling round for every app.
pub open spec fn between_facts(anchor: Seq<char>, s: KvUpdatesView, l: LinkSet) -> bool {
    &&& s.apps.no_duplicates()
    &&& 0 <= s.app_index <= s.apps.len()
    &&& forall|t: Seq<char>| #[trigger] l.contains((anchor, t, LinkTag::AllApps)) ==> s.apps.contains(t)
    &&& forall|i: int| 0 <= i < cur_list(s).len() ==> #[trigger] cur_list(s)[i].app == s.apps[i]
    &&& all_settled(l, cur_list(s), s.round, s.app_index)
    &&& s.round == KvRound::Disabled ==> {
        &&& s.enabled.len() == s.apps.len()
        &&& forall|i: int| 0 <= i < s.enabled.len() ==> #[trigger] s.enabled[i].app == s.apps[i]
        &&& all_settled(l, s.enabled, KvRound::Enabled, s.enabled.len() as int)
    }
}

/// Whether the recent-change links from the app at hand to its first `n` hosts are gone.
pub open spec fn recent_gone(l: LinkSet, s: KvUpdatesView, n: int) -> bool {
    forall|j: int| 0 <= j < n ==> !l.contains((s.apps[s.app_index], #[trigger] s.hosts[j], recent_tag(s.round)))
}

/// What holds while the hosts of the app at hand are handled: its entry is the last of
/// the round's list, with all its hosts, and every recent-change or pending-change
/// link of the round from the app goes to one of them.
pub open spec fn host_loop_facts(anchor: Seq<char>, s: KvUpdatesView, l: LinkSet) -> bool {
    &&& between_facts(anchor, s, l)
    &&& s.app_index < s.apps.len()
    &&& cur_list(s).len() == s.app_index + 1
    &&& cur_list(s).last().host == s.hosts
    &&& 0 <= s.host_index <= s.hosts.len()
    &&& recent_gone(l, s, s.host_index)
    &&& forall|t: Seq<char>| #[trigger] l.contains((s.apps[s.app_index], t, recent_tag(s.round))) ==> s.hosts.contains(t)
    &&& forall|t: Seq<char>| #[trigger] l.contains((s.apps[s.app_index], t, pending_tag(s.round))) ==> s.hosts.contains(t)
}

pub open spec fn all_agents(e: Seq<LoadedEntryView>) -> bool {
    forall|i: int| 0 <= i < e.len() ==> #[trigger] e[i] is Agent
}

/// What the collection knows of the answer it is handed.
pub open spec fn kv_rep_facts(anchor: Seq<char>, s: KvUpdatesView, rep: ReplyView, l: LinkSet) -> bool {
    &&& s.phase is Anchoring ==> rep == ReplyView::Address(anchor)
    &&& s.phase is AppLinks ==> answers(l, RequestView::GetLinks { base: anchor, tag: LinkTag::AllApps }, rep)
    &&& s.phase is RecentEntries ==> answers_at(
        anchor,
        l,
        RequestView::LoadLinks { base: s.apps[s.app_index], tag: recent_tag(s.round) },
        rep,
    )
    &&& s.phase is PendingEntries ==> {
        &&& answers_at(anchor, l, RequestView::LoadLinks { base: s.apps[s.app_index], tag: pending_tag(s.round) }, rep)
        &&& exists|ts: Seq<Seq<char>>| #[trigger] loads_links(l, s.apps[s.app_index], recent_tag(s.round), ts, s.recent)
        &&& all_agents(s.recent)
    }
}

pub open spec fn kv_inv_at(anchor: Seq<char>, l0: LinkSet, agent: Seq<char>, t0: Seq<char>) -> spec_fn(KvUpdatesView, ReplyView, LinkSet) -> bool {
    |s: KvUpdatesView, rep: ReplyView, l: LinkSet| {
        &&& kv_inv(s, rep, l)
        &&& common_links(anchor, l0, agent, t0, s, l)
        &&& (s.phase is RecentEntries || s.phase is PendingEntries) ==> between_facts(anchor, s, l) && s.app_index < s.apps.len()
            && cur_list(s).len() == s.app_index
        &&& kv_processing(s.phase) ==> host_loop_facts(anchor, s, l)
        &&& kv_rep_facts(anchor, s, rep, l)
    }
}

/// The keys of agent entries, after `keys`: every key among them is listed.
proof fn lemma_fold_agents(keys: Seq<Seq<char>>, e: Seq<LoadedEntryView>)
    requires
        all_agents(e),
    ensures
        fold_agent_keys(keys, e) is Ok,
        forall|j: int| 0 <= j < keys.len() ==> fold_agent_keys(keys, e)->Ok_0.contains(#[trigger] keys[j]),
        forall|i: int| 0 <= i < e.len() ==> (#[trigger] e[i] matches LoadedEntryView::Agent(k) ==> fold_agent_keys(keys, e)->Ok_0.contains(k)),
        e.len() == 0 ==> fold_agent_keys(keys, e) == Ok::<Seq<Seq<char>>, HostErrorView>(keys),
        fold_agent_keys(keys, e)->Ok_0.len() == keys.len() + e.len(),
        forall|k: Seq<char>| #[trigger] fold_agent_keys(keys, e)->Ok_0.contains(k) ==> keys.contains(k)
            || exists|i: int| 0 <= i < e.len() && e[i] == LoadedEntryView::Agent(k),
    decreases e.len(),
{
    if e.len() > 0 {
        let k = e[0]->Agent_0;
        let rest = e.drop_first();
        assert(all_agents(rest)) by {
            assert forall|i: int| 0 <= i < rest.len() implies #[trigger] rest[i] is Agent by {
                assert(rest[i] == e[i + 1]);
            }
        }
        lemma_fold_agents(keys.push(k), rest);
        let ks = fold_agent_keys(keys.push(k), rest)->Ok_0;
        assert forall|j: int| 0 <= j < keys.len() implies ks.contains(#[trigger] keys[j]) by {
            assert(keys.push(k)[j] == keys[j]);
        }
        assert(keys.push(k)[keys.len() as int] == k);
        assert forall|i: int| 0 <= i < e.len() implies (#[trigger] e[i] matches LoadedEntryView::Agent(k2) ==> ks.contains(k2)) by {
            if i > 0 {
                assert(rest[i - 1] == e[i]);
            }
        }
        assert forall|k2: Seq<char>| #[trigger] ks.contains(k2) implies keys.contains(k2)
            || exists|i: int| 0 <= i < e.len() && e[i] == LoadedEntryView::Agent(k2) by {
            if !keys.push(k).contains(k2) {
                let i = choose|i: int| 0 <= i < rest.len() && rest[i] == LoadedEntryView::Agent(k2);
                assert(e[i + 1] == rest[i]);
            } else if !keys.contains(k2) {
                let j = choose|j: int| 0 <= j < keys.push(k).len() && keys.push(k)[j] == k2;
                assert(j == keys.len());
                assert(e[0] == LoadedEntryView::Agent(k2));
            }
        }
    }
}

/// A list with one entry for each app, in order, lists every app.
proof fn lemma_covers(list: Seq<App2HostView>, apps: Seq<Seq<char>>, t: Seq<char>)
    requires
        list.len() == apps.len(),
        forall|i: int| 0 <= i < list.len() ==> #[trigger] list[i].app == apps[i],
        apps.contains(t),
    ensures
        apps_of(list).contains(t),
{
    let i = choose|i: int| 0 <= i < apps.len() && apps[i] == t;
    assert(apps_of(list)[i] == list[i].app);
}

proof fn lemma_begin_app_at(anchor: Seq<char>, l0: LinkSet, agent: Seq<char>, t0: Seq<char>, s: KvUpdatesView, l: LinkSet)
    requires
        outcome_ok(begin_app(s), l, kv_inv_fn(), kv_goal()),
        common_links(anchor, l0, agent, t0, s, l),
        between_facts(anchor, s, l),
        cur_list(s).len() == s.app_index,
        s.round == KvRound::Enabled ==> s.disabled.len() == 0,
    ensures
        outcome_at(anchor, begin_app(s), l, kv_inv_at(anchor, l0, agent, t0), collected_goal(anchor, l0, agent, t0)),
{
    let inv = kv_inv_at(anchor, l0, agent, t0);
    if 0 <= s.app_index < s.apps.len() {
        let s1 = kv_at(s, KvPhase::RecentEntries);
        assert forall|rep: ReplyView| #[trigger] answers_at(anchor, l, RequestView::LoadLinks { base: s.apps[s.app_index], tag: recent_tag(s.round) }, rep)
            implies inv(s1, rep, l) by {
        }
    } else if s.round == KvRound::Enabled {
        let s2 = KvUpdatesView { round: KvRound::Disabled, app_index: 0, ..s };
        assert(s.enabled.len() == s.apps.len());
        assert(all_settled(l, s.enabled, KvRound::Enabled, s.enabled.len() as int));
        if 0 < s.apps.len() {
            let s1 = kv_at(s2, KvPhase::RecentEntries);
            assert(between_facts(anchor, s1, l));
            assert forall|rep: ReplyView| #[trigger] answers_at(anchor, l, RequestView::LoadLinks { base: s.apps[0], tag: recent_tag(KvRound::Disabled) }, rep)
                implies inv(s1, rep, l) by {
            }
        } else {
            assert forall|t: Seq<char>| #[trigger] l.contains((anchor, t, LinkTag::AllApps)) implies false by {
                assert(s.apps.contains(t));
            }
        }
    } else {
        assert(cur_list(s) == s.disabled);
        assert forall|t: Seq<char>| #[trigger] l.contains((anchor, t, LinkTag::AllApps)) implies apps_of(s.enabled).contains(t)
            && apps_of(s.disabled).contains(t) by {
            lemma_covers(s.enabled, s.apps, t);
            lemma_covers(s.disabled, s.apps, t);
        }
    }
}

proof fn lemma_begin_host_at(anchor: Seq<char>, l0: LinkSet, agent: Seq<char>, t0: Seq<char>, s: KvUpdatesView, l: LinkSet)
    requires
        outcome_ok(begin_host(s), l, kv_inv_fn(), kv_goal()),
        common_links(anchor, l0, agent, t0, s, l),
        host_loop_facts(anchor, s, l),
        s.round == KvRound::Enabled ==> s.disabled.len() == 0,
    ensures
        outcome_at(anchor, begin_host(s), l, kv_inv_at(anchor, l0, agent, t0), collected_goal(anchor, l0, agent, t0)),
{
    let inv = kv_inv_at(anchor, l0, agent, t0);
    if 0 <= s.host_index < s.hosts.len() {
        let s1 = kv_at(s, KvPhase::HostCheckForHost);
        assert(host_loop_facts(anchor, s1, l));
        assert forall|rep: ReplyView| #[trigger] answers_at(anchor, l, registration_request(s.agent), rep) implies inv(s1, rep, l) by {
        }
    } else {
        let s2 = KvUpdatesView { app_index: s.app_index + 1, ..s };
        let list = cur_list(s);
        let x = list[s.app_index];
        assert(x == list.last());
        assert(settled(l, x, s.round)) by {
            assert forall|t: Seq<char>| !#[trigger] l.contains((x.app, t, recent_tag(s.round))) by {
                if l.contains((x.app, t, recent_tag(s.round))) {
                    assert(s.hosts.contains(t));
                    let j = choose|j: int| 0 <= j < s.hosts.len() && s.hosts[j] == t;
                    assert(!l.contains((s.apps[s.app_index], s.hosts[j], recent_tag(s.round))));
                }
            }
        }
        assert(cur_list(s2) == list);
        assert(all_settled(l, cur_list(s2), s2.round, s2.app_index)) by {
            assert forall|i: int| 0 <= i < s2.app_index && i < list.len() implies #[trigger] settled(l, list[i], s.round) by {
                if i < s.app_index {
                    assert(settled(l, list[i], s.round));
                }
            }
        }
        assert(between_facts(anchor, s2, l));
        lemma_begin_app_at(anchor, l0, agent, t0, s2, l);
    }
}

/// A write of the collection, to a link of the round from the app at hand to the host
/// at hand, keeps what holds of the links of every other app and round.
proof fn lemma_write_frame(anchor: Seq<char>, l0: LinkSet, agent: Seq<char>, t0: Seq<char>, s: KvUpdatesView, l: LinkSet, l2: LinkSet, removing: bool)
    requires
        common_links(anchor, l0, agent, t0, s, l),
        host_loop_facts(anchor, s, l),
        in_host(s),
        removing ==> l2 == l.remove((s.apps[s.app_index], s.hosts[s.host_index], recent_tag(s.round))),
        !removing ==> l2 == l.insert((s.apps[s.app_index], s.hosts[s.host_index], pending_tag(s.round))),
    ensures
        common_links(anchor, l0, agent, t0, s, l2),
        host_loop_facts(anchor, s, l2),
{
    let a = s.apps[s.app_index];
    let list = cur_list(s);
    assert forall|t: Seq<char>| #[trigger] l2.contains((anchor, t, LinkTag::AllApps)) == l.contains((anchor, t, LinkTag::AllApps)) by {}
    assert forall|i: int| 0 <= i < s.app_index && i < list.len() implies #[trigger] settled(l2, list[i], s.round) by {
        assert(settled(l, list[i], s.round));
        assert(list[i].app == s.apps[i]);
        assert(s.apps[i] != a);
        assert forall|t: Seq<char>| !#[trigger] l2.contains((list[i].app, t, recent_tag(s.round))) by {
            assert(!l.contains((list[i].app, t, recent_tag(s.round))));
        }
        assert forall|t: Seq<char>| #[trigger] l2.contains((list[i].app, t, pending_tag(s.round))) implies list[i].host.contains(t) by {
            assert(l.contains((list[i].app, t, pending_tag(s.round))));
        }
    }
    if s.round == KvRound::Disabled {
        assert forall|i: int| 0 <= i < s.enabled.len() && i < s.enabled.len() implies #[trigger] settled(l2, s.enabled[i], KvRound::Enabled) by {
            assert(settled(l, s.enabled[i], KvRound::Enabled));
            assert forall|t: Seq<char>| !#[trigger] l2.contains((s.enabled[i].app, t, recent_tag(KvRound::Enabled))) by {
                assert(!l.contains((s.enabled[i].app, t, recent_tag(KvRound::Enabled))));
            }
            assert forall|t: Seq<char>| #[trigger] l2.contains((s.enabled[i].app, t, pending_tag(KvRound::Enabled))) implies s.enabled[i].host.contains(t) by {
                assert(l.contains((s.enabled[i].app, t, pending_tag(KvRound::Enabled))));
            }
        }
    }
    assert forall|j: int| 0 <= j < s.host_index implies !l2.contains((a, #[trigger] s.hosts[j], recent_tag(s.round))) by {
        assert(!l.contains((a, s.hosts[j], recent_tag(s.round))));
    }
    assert forall|t: Seq<char>| #[trigger] l2.contains((a, t, recent_tag(s.round))) implies s.hosts.contains(t) by {
        assert(l.contains((a, t, recent_tag(s.round))));
    }
    assert forall|t: Seq<char>| #[trigger] l2.contains((a, t, pending_tag(s.round))) implies s.hosts.contains(t) by {
        if !(t == s.hosts[s.host_index] && !removing) {
            assert(l.contains((a, t, pending_tag(s.round))));
        }
    }
}

proof fn lemma_after_removal_at(anchor: Seq<char>, l0: LinkSet, agent: Seq<char>, t0: Seq<char>, s: KvUpdatesView, l: LinkSet)
    requires
        outcome_ok(after_removal(s), l, kv_inv_fn(), kv_goal()),
        common_links(anchor, l0, agent, t0, s, l),
        host_loop_facts(anchor, s, l),
        in_host(s),
        s.round == KvRound::Enabled ==> s.disabled.len() == 0,
        !l.contains((s.apps[s.app_index], s.hosts[s.host_index], recent_tag(s.round))),
    ensures
        outcome_at(anchor, after_removal(s), l, kv_inv_at(anchor, l0, agent, t0), collected_goal(anchor, l0, agent, t0)),
{
    let inv = kv_inv_at(anchor, l0, agent, t0);
    match agent_exists_result(s.pending, s.hosts[s.host_index]) {
        Err(e) => {},
        Ok(found) => if found {
            let s2 = KvUpdatesView { host_index: s.host_index + 1, ..s };
            assert(recent_gone(l, s2, s2.host_index)) by {
                assert forall|j: int| 0 <= j < s2.host_index implies !l.contains((s.apps[s.app_index], #[trigger] s.hosts[j], recent_tag(s.round))) by {
                    if j < s.host_index {
                        assert(!l.contains((s.apps[s.app_index], s.hosts[j], recent_tag(s.round))));
                    }
                }
            }
            assert(host_loop_facts(anchor, s2, l));
            lemma_begin_host_at(anchor, l0, agent, t0, s2, l);
        } else {
            let req = RequestView::LinkEntries { base: s.apps[s.app_index], target: s.hosts[s.host_index], tag: pending_tag(s.round) };
            let l2 = effect(l, req);
            lemma_write_frame(anchor, l0, agent, t0, s, l, l2, false);
            let s1 = kv_at(s, KvPhase::LinkingPending);
            assert(host_loop_facts(anchor, s1, l2));
            assert forall|rep: ReplyView| #[trigger] answers_at(anchor, l, req, rep) implies inv(s1, rep, l2) by {
            }
        },
    }
}

proof fn lemma_kv_step_at(anchor: Seq<char>, l0: LinkSet, agent: Seq<char>, t0: Seq<char>, s: KvUpdatesView, rep: ReplyView, l: LinkSet)
    requires
        kv_inv_at(anchor, l0, agent, t0)(s, rep, l),
    ensures
        outcome_at(anchor, kv_updates_next(s, rep), l, kv_inv_at(anchor, l0, agent, t0), collected_goal(anchor, l0, agent, t0)),
{
    let inv = kv_inv_at(anchor, l0, agent, t0);
    lemma_kv_step(s, rep, l);
    assert(outcome_ok(kv_updates_next(s, rep), l, kv_inv_fn(), kv_goal()));
    match s.phase {
        KvPhase::Start => {
            let s1 = kv_at(s, KvPhase::HostCheck);
            assert forall|r2: ReplyView| #[trigger] answers_at(anchor, l, registration_request(s.agent), r2) implies inv(s1, r2, l) by {}
        },
        KvPhase::HostCheck => {
            if let ReplyView::Links(x) = rep {
                if x.len() != 0 {
                    let s1 = kv_at(s, KvPhase::Anchoring);
                    assert forall|r2: ReplyView| #[trigger] answers_at(anchor, l, RequestView::CommitAllAppsAnchor, r2) implies inv(s1, r2, l) by {}
                }
            }
        },
        KvPhase::Anchoring => {
            let s1 = kv_at(s, KvPhase::AppLinks);
            assert forall|r2: ReplyView| #[trigger] answers_at(anchor, l, RequestView::GetLinks { base: anchor, tag: LinkTag::AllApps }, r2)
                implies inv(s1, r2, l) by {}
        },
        KvPhase::AppLinks => {
            if let ReplyView::Links(apps) = rep {
                let s2 = KvUpdatesView { apps, round: KvRound::Enabled, app_index: 0, ..s };
                assert(between_facts(anchor, s2, l));
                lemma_begin_app_at(anchor, l0, agent, t0, s2, l);
            }
        },
        KvPhase::RecentEntries => {
            if let ReplyView::Entries(e) = rep {
                if in_app(s) {
                    let a = s.apps[s.app_index];
                    let s1 = KvUpdatesView { phase: KvPhase::PendingEntries, recent: e, ..s };
                    let ts = choose|ts: Seq<Seq<char>>| #[trigger] loads_links(l, a, recent_tag(s.round), ts, e);
                    assert forall|r2: ReplyView| #[trigger] answers_at(anchor, l, RequestView::LoadLinks { base: a, tag: pending_tag(s.round) }, r2)
                        implies inv(s1, r2, l) by {
                        assert(loads_links(l, s1.apps[s1.app_index], recent_tag(s1.round), ts, s1.recent));
                        assert(between_facts(anchor, s1, l));
                    }
                }
            }
        },
        KvPhase::PendingEntries => {
            if let ReplyView::Entries(e) = rep {
                if in_app(s) {
                    let a = s.apps[s.app_index];
                    let all = s.recent + e;
                    assert(all_agents(all)) by {
                        assert forall|i: int| 0 <= i < all.len() implies #[trigger] all[i] is Agent by {
                            if i < s.recent.len() {
                                assert(all[i] == s.recent[i]);
                            } else {
                                assert(all[i] == e[i - s.recent.len()]);
                            }
                        }
                    }
                    lemma_fold_agents(seq![], all);
                    let ks = fold_agent_keys(seq![], all)->Ok_0;
                    assert(fold_agent_keys_of(s.recent, e) == Ok::<Seq<Seq<char>>, HostErrorView>(ks));
                    let s2 = KvUpdatesView { pending: e, ..s };
                    let s3 = KvUpdatesView { hosts: ks, host_index: 0, ..record(s2, ks) };
                    let tr = choose|ts: Seq<Seq<char>>| #[trigger] loads_links(l, a, recent_tag(s.round), ts, s.recent);
                    let tp = choose|ts: Seq<Seq<char>>| #[trigger] loads_links(l, a, pending_tag(s.round), ts, e);
                    assert forall|t: Seq<char>| #[trigger] l.contains((a, t, recent_tag(s.round))) implies ks.contains(t) by {
                        assert(tr.contains(t));
                        let i = choose|i: int| 0 <= i < tr.len() && tr[i] == t;
                        assert(s.recent[i] is Agent);
                        assert(all[i] == s.recent[i]);
                        assert(all[i] matches LoadedEntryView::Agent(k) ==> ks.contains(k));
                    }
                    assert forall|t: Seq<char>| #[trigger] l.contains((a, t, pending_tag(s.round))) implies ks.contains(t) by {
                        assert(tp.contains(t));
                        let i = choose|i: int| 0 <= i < tp.len() && tp[i] == t;
                        assert(e[i] is Agent);
                        assert(all[s.recent.len() + i] == e[i]);
                        assert(all[s.recent.len() + i] matches LoadedEntryView::Agent(k) ==> ks.contains(k));
                    }
                    let entry = App2HostView { app: a, host: ks };
                    assert(cur_list(s3) == cur_list(s).push(entry));
                    assert(all_settled(l, cur_list(s3), s3.round, s3.app_index)) by {
                        assert forall|i: int| 0 <= i < s3.app_index && i < cur_list(s3).len() implies #[trigger] settled(l, cur_list(s3)[i], s3.round) by {
                            assert(cur_list(s3)[i] == cur_list(s)[i]);
                        }
                    }
                    assert(host_loop_facts(anchor, s3, l));
                    lemma_begin_host_at(anchor, l0, agent, t0, s3, l);
                }
            }
        },
        KvPhase::HostCheckForHost => {
            if let ReplyView::Links(x) = rep {
                if in_host(s) && x.len() != 0 {
                    let s1 = kv_at(s, KvPhase::HostLinks);
                    assert(host_loop_facts(anchor, s1, l));
                    assert forall|r2: ReplyView| #[trigger] answers_at(anchor, l, RequestView::GetLinks { base: s.apps[s.app_index], tag: recent_tag(s.round) }, r2)
                        implies inv(s1, r2, l) by {}
                }
            }
        },
        KvPhase::HostLinks => {
            if let ReplyView::Links(found) = rep {
                if in_host(s) {
                    let a = s.apps[s.app_index];
                    let h = s.hosts[s.host_index];
                    if lists(found, h) {
                        let req = RequestView::RemoveLink { base: a, target: h, tag: recent_tag(s.round) };
                        let l2 = effect(l, req);
                        lemma_write_frame(anchor, l0, agent, t0, s, l, l2, true);
                        let s1 = kv_at(s, KvPhase::RemovingRecent);
                        assert(host_loop_facts(anchor, s1, l2));
                        assert forall|r2: ReplyView| #[trigger] answers_at(anchor, l, req, r2) implies inv(s1, r2, l2) by {}
                    } else {
                        lemma_after_removal_at(anchor, l0, agent, t0, s, l);
                    }
                }
            }
        },
        KvPhase::RemovingRecent => {
            if in_host(s) {
                lemma_after_removal_at(anchor, l0, agent, t0, s, l);
            }
        },
        KvPhase::LinkingPending => {
            if in_host(s) {
                let s2 = KvUpdatesView { host_index: s.host_index + 1, ..s };
                assert(recent_gone(l, s2, s2.host_index)) by {
                    assert forall|j: int| 0 <= j < s2.host_index implies !l.contains((s.apps[s.app_index], #[trigger] s.hosts[j], recent_tag(s.round))) by {
                        if j < s.host_index {
                            assert(!l.contains((s.apps[s.app_index], s.hosts[j], recent_tag(s.round))));
                        }
                    }
                }
                assert(host_loop_facts(anchor, s2, l));
                lemma_begin_host_at(anchor, l0, agent, t0, s2, l);
            }
        },
        KvPhase::Finished => {},
    }
}

/// Law: against a DHT whose anchor of all apps keeps its address and whose loaded
/// links lead to agent entries, where the collection of updates for the key-value
/// store succeeds, each round's list has an entry for every app linked from the
/// anchor; every recent-change link of the round from the app is gone, and every
/// pending-change link of the round from it goes to a host that the entry reports.
/// The anchor's links and the agent's registration are as they were.
pub proof fn collecting_reports_everything(agent: Seq<char>, t0: Seq<char>, anchor: Seq<char>, links: LinkSet, fuel: nat)
    requires
        links.contains((agent, t0, LinkTag::VerifiedHost)),
    ensures
        ends_at(anchor, kv_updates_procedure(), kv_updates_start(agent), ReplyView::Done, links, fuel, collected_goal(anchor, links, agent, t0)),
{
    let inv = kv_inv_at(anchor, links, agent, t0);
    assert forall|s1: KvUpdatesView, r1: ReplyView, l1: LinkSet| #[trigger] inv(s1, r1, l1) implies outcome_at(
        anchor, kv_updates_procedure()(s1, r1), l1, inv, collected_goal(anchor, links, agent, t0)) by {
        lemma_kv_step_at(anchor, links, agent, t0, s1, r1, l1);
    }
    assert(inv(kv_updates_start(agent), ReplyView::Done, links));
    lemma_invariant_ends_at(anchor, kv_updates_procedure(), inv, collected_goal(anchor, links, agent, t0), kv_updates_start(agent),
        ReplyView::Done, links, fuel);
}

/// Whether no app linked from the anchor has a recent-change or pending-change link
/// of either round.
pub open spec fn quiet(l: LinkSet, anchor: Seq<char>) -> bool {
    &&& forall|t: Seq<char>, h: Seq<char>, r: KvRound| #![trigger l.contains((t, h, recent_tag(r)))]
        l.contains((anchor, t, LinkTag::AllApps)) ==> !l.contains((t, h, recent_tag(r)))
    &&& forall|t: Seq<char>, h: Seq<char>, r: KvRound| #![trigger l.contains((t, h, pending_tag(r)))]
        l.contains((anchor, t, LinkTag::AllApps)) ==> !l.contains((t, h, pending_tag(r)))
}

/// Whether every entry of a list of updates reports no host.
pub open spec fn reports_no_host(list: Seq<App2HostView>) -> bool {
    forall|i: int| 0 <= i < list.len() ==> #[trigger] list[i].host.len() == 0
}

/// What a collection leads to where nothing is left to report: where it succeeds, it
/// reports no host for any app and changes nothing.
pub open spec fn nothing_reported(l0: LinkSet) -> spec_fn(Result<DnaToHostView, HostErrorView>, LinkSet) -> bool {
    |r: Result<DnaToHostView, HostErrorView>, l: LinkSet| match r {
        Ok(d) => l == l0 && reports_no_host(d.recently_enabled_apps) && reports_no_host(d.recently_disabled_apps),
        Err(_) => true,
    }
}

pub open spec fn quiet_inv(anchor: Seq<char>, l0: LinkSet) -> spec_fn(KvUpdatesView, ReplyView, LinkSet) -> bool {
    |s: KvUpdatesView, rep: ReplyView, l: LinkSet| {
        &&& l == l0
        &&& quiet(l, anchor)
        &&& !kv_processing(s.phase)
        &&& forall|i: int| 0 <= i < s.apps.len() ==> l.contains((anchor, #[trigger] s.apps[i], LinkTag::AllApps))
        &&& reports_no_host(s.enabled)
        &&& reports_no_host(s.disabled)
        &&& (s.phase is RecentEntries || s.phase is PendingEntries) ==> in_app(s)
        &&& s.phase is Anchoring ==> rep == ReplyView::Address(anchor)
        &&& s.phase is AppLinks ==> answers(l, RequestView::GetLinks { base: anchor, tag: LinkTag::AllApps }, rep)
        &&& s.phase is RecentEntries ==> answers_at(anchor, l, RequestView::LoadLinks { base: s.apps[s.app_index], tag: recent_tag(s.round) }, rep)
        &&& s.phase is PendingEntries ==> s.recent.len() == 0
            && answers_at(anchor, l, RequestView::LoadLinks { base: s.apps[s.app_index], tag: pending_tag(s.round) }, rep)
    }
}

proof fn lemma_quiet_begin_app(anchor: Seq<char>, l0: LinkSet, s: KvUpdatesView)
    requires
        quiet(l0, anchor),
        forall|i: int| 0 <= i < s.apps.len() ==> l0.contains((anchor, #[trigger] s.apps[i], LinkTag::AllApps)),
        reports_no_host(s.enabled),
        reports_no_host(s.disabled),
        0 <= s.app_index,
    ensures
        outcome_at(anchor, begin_app(s), l0, quiet_inv(anchor, l0), nothing_reported(l0)),
{
    let inv = quiet_inv(anchor, l0);
    if 0 <= s.app_index < s.apps.len() {
        let s1 = kv_at(s, KvPhase::RecentEntries);
        assert forall|rep: ReplyView| #[trigger] answers_at(anchor, l0, RequestView::LoadLinks { base: s.apps[s.app_index], tag: recent_tag(s.round) }, rep)
            implies inv(s1, rep, l0) by {}
    } else if s.round == KvRound::Enabled && 0 < s.apps.len() {
        let s1 = kv_at(KvUpdatesView { round: KvRound::Disabled, app_index: 0, ..s }, KvPhase::RecentEntries);
        assert forall|rep: ReplyView| #[trigger] answers_at(anchor, l0, RequestView::LoadLinks { base: s.apps[0], tag: recent_tag(KvRound::Disabled) }, rep)
            implies inv(s1, rep, l0) by {}
    }
}

/// A load of links from a quiet app gives nothing.
proof fn lemma_quiet_load(anchor: Seq<char>, l: LinkSet, a: Seq<char>, tag: LinkTag, rep: ReplyView)
    requires
        quiet(l, anchor),
        l.contains((anchor, a, LinkTag::AllApps)),
        tag == recent_tag(KvRound::Enabled) || tag == recent_tag(KvRound::Disabled) || tag == pending_tag(KvRound::Enabled)
            || tag == pending_tag(KvRound::Disabled),
        answers_at(anchor, l, RequestView::LoadLinks { base: a, tag }, rep),
    ensures
        rep matches ReplyView::Entries(e) && e.len() == 0,
{
    let e = rep->Entries_0;
    let ts = choose|ts: Seq<Seq<char>>| #[trigger] loads_links(l, a, tag, ts, e);
    if ts.len() > 0 {
        assert(l.contains((a, ts[0], tag)));
        if tag == recent_tag(KvRound::Enabled) {
            assert(!l.contains((a, ts[0], recent_tag(KvRound::Enabled))));
        } else if tag == recent_tag(KvRound::Disabled) {
            assert(!l.contains((a, ts[0], recent_tag(KvRound::Disabled))));
        } else if tag == pending_tag(KvRound::Enabled) {
            assert(!l.contains((a, ts[0], pending_tag(KvRound::Enabled))));
        } else {
            assert(!l.contains((a, ts[0], pending_tag(KvRound::Disabled))));
        }
    }
}

proof fn lemma_quiet_step(anchor: Seq<char>, l0: LinkSet, s: KvUpdatesView, rep: ReplyView, l: LinkSet)
    requires
        quiet_inv(anchor, l0)(s, rep, l),
    ensures
        outcome_at(anchor, kv_updates_next(s, rep), l, quiet_inv(anchor, l0), nothing_reported(l0)),
{
    let inv = quiet_inv(anchor, l0);
    match s.phase {
        KvPhase::Start => {
            let s1 = kv_at(s, KvPhase::HostCheck);
            assert forall|r2: ReplyView| #[trigger] answers_at(anchor, l, registration_request(s.agent), r2) implies inv(s1, r2, l) by {}
        },
        KvPhase::HostCheck => {
            let s1 = kv_at(s, KvPhase::Anchoring);
            assert forall|r2: ReplyView| #[trigger] answers_at(anchor, l, RequestView::CommitAllAppsAnchor, r2) implies inv(s1, r2, l) by {}
        },
        KvPhase::Anchoring => {
            let s1 = kv_at(s, KvPhase::AppLinks);
            assert forall|r2: ReplyView| #[trigger] answers_at(anchor, l, RequestView::GetLinks { base: anchor, tag: LinkTag::AllApps }, r2)
                implies inv(s1, r2, l) by {}
        },
        KvPhase::AppLinks => {
            if let ReplyView::Links(apps) = rep {
                lemma_quiet_begin_app(anchor, l0, KvUpdatesView { apps, round: KvRound::Enabled, app_index: 0, ..s });
            }
        },
        KvPhase::RecentEntries => {
            if let ReplyView::Entries(e) = rep {
                if in_app(s) {
                    lemma_quiet_load(anchor, l, s.apps[s.app_index], recent_tag(s.round), rep);
                    let s1 = KvUpdatesView { phase: KvPhase::PendingEntries, recent: e, ..s };
                    assert forall|r2: ReplyView| #[trigger] answers_at(anchor, l, RequestView::LoadLinks { base: s.apps[s.app_index], tag: pending_tag(s.round) }, r2)
                        implies inv(s1, r2, l) by {}
                }
            }
        },
        KvPhase::PendingEntries => {
            if let ReplyView::Entries(e) = rep {
                if in_app(s) {
                    lemma_quiet_load(anchor, l, s.apps[s.app_index], pending_tag(s.round), rep);
                    assert(s.recent + e =~= Seq::<LoadedEntryView>::empty());
                    assert(fold_agent_keys(seq![], s.recent + e) == Ok::<Seq<Seq<char>>, HostErrorView>(seq![]));
                    let s2 = KvUpdatesView { pending: e, ..s };
                    let s3 = KvUpdatesView { hosts: seq![], host_index: 0, ..record(s2, seq![]) };
                    let s4 = KvUpdatesView { app_index: s3.app_index + 1, ..s3 };
                    assert(reports_no_host(s4.enabled) && reports_no_host(s4.disabled)) by {
                        assert forall|i: int| 0 <= i < s4.enabled.len() implies #[trigger] s4.enabled[i].host.len() == 0 by {
                            if i < s.enabled.len() {
                                assert(s4.enabled[i] == s.enabled[i]);
                            }
                        }
                        assert forall|i: int| 0 <= i < s4.disabled.len() implies #[trigger] s4.disabled[i].host.len() == 0 by {
                            if i < s.disabled.len() {
                                assert(s4.disabled[i] == s.disabled[i]);
                            }
                        }
                    }
                    lemma_quiet_begin_app(anchor, l0, s4);
                }
            }
        },
        _ => {},
    }
}

/// Law: against a DHT whose anchor of all apps keeps its address and whose loaded
/// links lead to agent entries, where no app linked from the anchor has a
/// recent-change or pending-change link, a collection that succeeds reports no host
/// for any app and changes nothing.
pub proof fn collecting_nothing_reports_nothing(agent: Seq<char>, anchor: Seq<char>, links: LinkSet, fuel: nat)
    requires
        quiet(links, anchor),
    ensures
        ends_at(anchor, kv_updates_procedure(), kv_updates_start(agent), ReplyView::Done, links, fuel, nothing_reported(links)),
{
    let inv = quiet_inv(anchor, links);
    assert forall|s1: KvUpdatesView, r1: ReplyView, l1: LinkSet| #[trigger] inv(s1, r1, l1) implies outcome_at(
        anchor, kv_updates_procedure()(s1, r1), l1, inv, nothing_reported(links)) by {
        lemma_quiet_step(anchor, links, s1, r1, l1);
    }
    assert(inv(kv_updates_start(agent), ReplyView::Done, links));
    lemma_invariant_ends_at(anchor, kv_updates_procedure(), inv, nothing_reported(links), kv_updates_start(agent), ReplyView::Done, links, fuel);
}

/// The bundle with which the key-value store acknowledges what a collection reported.
pub open spec fn bundle_of(d: DnaToHostView) -> Seq<App2HostView> {
    d.recently_enabled_apps + d.recently_disabled_apps
}

/// What holds once the acknowledgement succeeded: the next collection succeeds,
/// reports no host and changes nothing.
pub open spec fn quiet_after(agent: Seq<char>, anchor: Seq<char>) -> spec_fn(Result<(), HostErrorView>, LinkSet) -> bool {
    |r: Result<(), HostErrorView>, l: LinkSet| r is Ok && leads_to_at(
        anchor,
        kv_updates_procedure(),
        kv_updates_start(agent),
        ReplyView::Done,
        l,
        (kv_top(l) + 4) as nat,
        both(kv_success(), nothing_reported(l)),
    )
}

/// What a collection leads to: it succeeds, acknowledging all it reported succeeds,
/// and afterwards nothing is reported.
pub open spec fn acknowledged_then_quiet(agent: Seq<char>, anchor: Seq<char>) -> spec_fn(Result<DnaToHostView, HostErrorView>, LinkSet) -> bool {
    |r: Result<DnaToHostView, HostErrorView>, l: LinkSet| match r {
        Ok(d) => leads_to(
            completed_procedure(),
            confirming(agent, bundle_of(d), CompletedPhase::Start, 0, 0),
            ReplyView::Done,
            l,
            6 * pairs_from(bundle_of(d), 0, 0),
            quiet_after(agent, anchor),
        ),
        Err(_) => false,
    }
}

/// The links of a confirmation are among those it started with, the agent's
/// registration among them.
pub open spec fn within(l1: LinkSet, agent: Seq<char>, t0: Seq<char>) -> spec_fn(Result<(), HostErrorView>, LinkSet) -> bool {
    |r: Result<(), HostErrorView>, l: LinkSet| l.subset_of(l1) && l.contains((agent, t0, LinkTag::VerifiedHost))
}

/// After the acknowledgement of what was reported, an app linked from the anchor has
/// no mark left.
proof fn lemma_quiet_after_ack_at(anchor: Seq<char>, l0: LinkSet, agent: Seq<char>, t0: Seq<char>, d: DnaToHostView, l1: LinkSet,
    l2: LinkSet, t: Seq<char>, h: Seq<char>, r: KvRound)
    requires
        collected_goal(anchor, l0, agent, t0)(Ok::<DnaToHostView, HostErrorView>(d), l1),
        cleared_before(l2, bundle_of(d), bundle_of(d).len() as int, 0),
        l2.subset_of(l1),
        l2.contains((anchor, t, LinkTag::AllApps)),
    ensures
        !l2.contains((t, h, recent_tag(r))),
        !l2.contains((t, h, pending_tag(r))),
{
    let b = bundle_of(d);
    let en = d.recently_enabled_apps;
    let dis = d.recently_disabled_apps;
    assert(l1.contains((anchor, t, LinkTag::AllApps)));
    let list = if r == KvRound::Enabled { en } else { dis };
    let off: int = if r == KvRound::Enabled { 0 } else { en.len() as int };
    assert(apps_of(list).contains(t));
    let i = choose|i: int| 0 <= i < apps_of(list).len() && apps_of(list)[i] == t;
    let x = list[i];
    assert(x.app == t);
    assert(settled(l1, x, r));
    assert(!l1.contains((t, h, recent_tag(r))));
    if l2.contains((t, h, pending_tag(r))) {
        assert(l1.contains((t, h, pending_tag(r))));
        assert(x.host.contains(h));
        let j = choose|j: int| 0 <= j < x.host.len() && x.host[j] == h;
        assert(b[off + i] == x);
        assert(b[off + i].host[j] == h);
    }
}

proof fn lemma_quiet_after_ack(anchor: Seq<char>, l0: LinkSet, agent: Seq<char>, t0: Seq<char>, d: DnaToHostView, l1: LinkSet, l2: LinkSet)
    requires
        collected_goal(anchor, l0, agent, t0)(Ok::<DnaToHostView, HostErrorView>(d), l1),
        cleared_before(l2, bundle_of(d), bundle_of(d).len() as int, 0),
        l2.subset_of(l1),
    ensures
        quiet(l2, anchor),
{
    assert forall|t: Seq<char>, h: Seq<char>, r: KvRound| l2.contains((anchor, t, LinkTag::AllApps))
        implies !#[trigger] l2.contains((t, h, recent_tag(r))) by {
        lemma_quiet_after_ack_at(anchor, l0, agent, t0, d, l1, l2, t, h, r);
    }
    assert forall|t: Seq<char>, h: Seq<char>, r: KvRound| l2.contains((anchor, t, LinkTag::AllApps))
        implies !#[trigger] l2.contains((t, h, pending_tag(r))) by {
        lemma_quiet_after_ack_at(anchor, l0, agent, t0, d, l1, l2, t, h, r);
    }
}

/// Law: acknowledged updates are not reported again. Against a DHT whose anchor of all
/// apps keeps its address and whose loaded links lead to agent entries, a registered
/// host's collection of updates for the key-value store succeeds; acknowledging every
/// (app, host) pair it reported succeeds; and the next collection succeeds, reports no
/// host for any app and changes nothing.
pub proof fn acknowledged_updates_are_not_reported_again(agent: Seq<char>, anchor: Seq<char>, links: LinkSet)
    requires
        registered(links, agent),
        links.finite(),
    ensures
        leads_to_at(anchor, kv_updates_procedure(), kv_updates_start(agent), ReplyView::Done, links, (kv_top(links) + 4) as nat,
            acknowledged_then_quiet(agent, anchor)),
{
    let t0 = choose|t: Seq<char>| links.contains((agent, t, LinkTag::VerifiedHost));
    let fuel = (kv_top(links) + 4) as nat;
    let first = both(kv_success(), collected_goal(anchor, links, agent, t0));
    collecting_succeeds(agent, t0, anchor, links);
    lemma_finite_kept(anchor, kv_updates_procedure(), kv_updates_start(agent), ReplyView::Done, links, fuel);
    lemma_leads_to_at_both(anchor, kv_updates_procedure(), kv_updates_start(agent), ReplyView::Done, links, fuel, first,
        finite_links::<DnaToHostView>());
    assert forall|r: Result<DnaToHostView, HostErrorView>, l1: LinkSet| both(first, finite_links::<DnaToHostView>())(r, l1)
        implies #[trigger] acknowledged_then_quiet(agent, anchor)(r, l1) by {
        let d = r->Ok_0;
        let b = bundle_of(d);
        let start = confirming(agent, b, CompletedPhase::Start, 0, 0);
        let fuel2 = 6 * pairs_from(b, 0, 0);
        confirming_clears_pending_marks(agent, b, l1);
        let inv = |s1: KvCompletedView, r1: ReplyView, l: LinkSet| l.subset_of(l1) && l.contains((agent, t0, LinkTag::VerifiedHost));
        assert forall|s1: KvCompletedView, r1: ReplyView, l: LinkSet| #[trigger] inv(s1, r1, l) implies outcome_ok(
            completed_procedure()(s1, r1), l, inv, within(l1, agent, t0)) by {
            if let StepView::Perform(req) = completed_procedure()(s1, r1).1 {
                assert(effect(l, req).subset_of(l1));
                assert(effect(l, req).contains((agent, t0, LinkTag::VerifiedHost)));
            }
        }
        lemma_invariant_ends_only_in(completed_procedure(), inv, within(l1, agent, t0), start, ReplyView::Done, l1, fuel2);
        lemma_leads_to_both(completed_procedure(), start, ReplyView::Done, l1, fuel2, confirmed_goal(b), within(l1, agent, t0));
        assert forall|r2: Result<(), HostErrorView>, l2: LinkSet| both(confirmed_goal(b), within(l1, agent, t0))(r2, l2)
            implies #[trigger] quiet_after(agent, anchor)(r2, l2) by {
            vstd::set_lib::lemma_len_subset(l2, l1);
            lemma_quiet_after_ack(anchor, links, agent, t0, d, l1, l2);
            let fuel3 = (kv_top(l2) + 4) as nat;
            collecting_succeeds(agent, t0, anchor, l2);
            collecting_nothing_reports_nothing(agent, anchor, l2, fuel3);
            let g = both(kv_success(), collected_goal(anchor, l2, agent, t0));
            lemma_leads_to_at_both(anchor, kv_updates_procedure(), kv_updates_start(agent), ReplyView::Done, l2, fuel3, g,
                nothing_reported(l2));
            assert forall|r3: Result<DnaToHostView, HostErrorView>, l3: LinkSet| both(g, nothing_reported(l2))(r3, l3)
                implies #[trigger] both(kv_success(), nothing_reported(l2))(r3, l3) by {}
            lemma_leads_to_at_weaken(anchor, kv_updates_procedure(), kv_updates_start(agent), ReplyView::Done, l2, fuel3,
                both(g, nothing_reported(l2)), both(kv_success(), nothing_reported(l2)));
        }
        lemma_leads_to_weaken(completed_procedure(), start, ReplyView::Done, l1, fuel2, both(confirmed_goal(b), within(l1, agent, t0)),
            quiet_after(agent, anchor));
    }
    lemma_leads_to_at_weaken(anchor, kv_updates_procedure(), kv_updates_start(agent), ReplyView::Done, links, fuel,
        both(first, finite_links::<DnaToHostView>()), acknowledged_then_quiet(agent, anchor));
}

/// Among agent entries, one with the key `agent` is found.
proof fn lemma_agent_found(entries: Seq<LoadedEntryView>, agent: Seq<char>, i: int)
    requires
        all_agents(entries),
        0 <= i < entries.len(),
        entries[i] == LoadedEntryView::Agent(agent),
    ensures
        agent_exists_result(entries, agent) == Ok::<bool, HostErrorView>(true),
    decreases entries.len(),
{
    if entries[0] != LoadedEntryView::Agent(agent) {
        let rest = entries.drop_first();
        assert(all_agents(rest)) by {
            assert forall|j: int| 0 <= j < rest.len() implies #[trigger] rest[j] is Agent by {
                assert(rest[j] == entries[j + 1]);
            }
        }
        assert(rest[i - 1] == entries[i]);
        lemma_agent_found(rest, agent, i - 1);
    }
}

/// Whether no app linked from the anchor has a recent-change link of either round.
pub open spec fn no_recent(l: LinkSet, anchor: Seq<char>) -> bool {
    forall|t: Seq<char>, h: Seq<char>, r: KvRound| #![trigger l.contains((t, h, recent_tag(r)))]
        l.contains((anchor, t, LinkTag::AllApps)) ==> !l.contains((t, h, recent_tag(r)))
}

/// Whether each entry of `list` reports, as its hosts, exactly the targets of the
/// pending-change links of the round from its app.
pub open spec fn hosts_match(l: LinkSet, list: Seq<App2HostView>, round: KvRound) -> bool {
    forall|i: int, h: Seq<char>| 0 <= i < list.len() ==> (#[trigger] list[i].host.contains(h) <==> l.contains((list[i].app, h, pending_tag(round))))
}

/// What a collection leads to where no recent-change link is left: where it succeeds,
/// it reports each app's pending changes and changes nothing.
pub open spec fn pending_reported(l0: LinkSet) -> spec_fn(Result<DnaToHostView, HostErrorView>, LinkSet) -> bool {
    |r: Result<DnaToHostView, HostErrorView>, l: LinkSet| match r {
        Ok(d) => l == l0 && hosts_match(l0, d.recently_enabled_apps, KvRound::Enabled)
            && hosts_match(l0, d.recently_disabled_apps, KvRound::Disabled),
        Err(_) => true,
    }
}

pub open spec fn stable_inv(anchor: Seq<char>, l0: LinkSet) -> spec_fn(KvUpdatesView, ReplyView, LinkSet) -> bool {
    |s: KvUpdatesView, rep: ReplyView, l: LinkSet| {
        &&& l == l0
        &&& no_recent(l, anchor)
        &&& !(s.phase is RemovingRecent || s.phase is LinkingPending)
        &&& forall|i: int| 0 <= i < s.apps.len() ==> l.contains((anchor, #[trigger] s.apps[i], LinkTag::AllApps))
        &&& hosts_match(l, s.enabled, KvRound::Enabled)
        &&& hosts_match(l, s.disabled, KvRound::Disabled)
        &&& (s.phase is RecentEntries || s.phase is PendingEntries || kv_processing(s.phase)) ==> in_app(s)
        &&& kv_processing(s.phase) ==> {
            &&& 0 <= s.host_index < s.hosts.len()
            &&& all_agents(s.pending)
            &&& forall|h: Seq<char>| #[trigger] s.hosts.contains(h) ==> s.pending.contains(LoadedEntryView::Agent(h))
            &&& cur_list(s).len() > 0 && cur_list(s).last().app == s.apps[s.app_index] && cur_list(s).last().host == s.hosts
        }
        &&& s.phase is Anchoring ==> rep == ReplyView::Address(anchor)
        &&& s.phase is AppLinks ==> answers(l, RequestView::GetLinks { base: anchor, tag: LinkTag::AllApps }, rep)
        &&& s.phase is RecentEntries ==> answers_at(anchor, l, RequestView::LoadLinks { base: s.apps[s.app_index], tag: recent_tag(s.round) }, rep)
        &&& s.phase is PendingEntries ==> s.recent.len() == 0
            && answers_at(anchor, l, RequestView::LoadLinks { base: s.apps[s.app_index], tag: pending_tag(s.round) }, rep)
        &&& s.phase is HostLinks ==> answers(l, RequestView::GetLinks { base: s.apps[s.app_index], tag: recent_tag(s.round) }, rep)
    }
}

proof fn lemma_stable_begin_app(anchor: Seq<char>, l0: LinkSet, s: KvUpdatesView)
    requires
        no_recent(l0, anchor),
        forall|i: int| 0 <= i < s.apps.len() ==> l0.contains((anchor, #[trigger] s.apps[i], LinkTag::AllApps)),
        hosts_match(l0, s.enabled, KvRound::Enabled),
        hosts_match(l0, s.disabled, KvRound::Disabled),
        0 <= s.app_index,
    ensures
        outcome_at(anchor, begin_app(s), l0, stable_inv(anchor, l0), pending_reported(l0)),
{
    let inv = stable_inv(anchor, l0);
    if 0 <= s.app_index < s.apps.len() {
        let s1 = kv_at(s, KvPhase::RecentEntries);
        assert forall|rep: ReplyView| #[trigger] answers_at(anchor, l0, RequestView::LoadLinks { base: s.apps[s.app_index], tag: recent_tag(s.round) }, rep)
            implies inv(s1, rep, l0) by {}
    } else if s.round == KvRound::Enabled && 0 < s.apps.len() {
        let s1 = kv_at(KvUpdatesView { round: KvRound::Disabled, app_index: 0, ..s }, KvPhase::RecentEntries);
        assert forall|rep: ReplyView| #[trigger] answers_at(anchor, l0, RequestView::LoadLinks { base: s.apps[0], tag: recent_tag(KvRound::Disabled) }, rep)
            implies inv(s1, rep, l0) by {}
    }
}

proof fn lemma_stable_begin_host(anchor: Seq<char>, l0: LinkSet, s: KvUpdatesView)
    requires
        no_recent(l0, anchor),
        forall|i: int| 0 <= i < s.apps.len() ==> l0.contains((anchor, #[trigger] s.apps[i], LinkTag::AllApps)),
        hosts_match(l0, s.enabled, KvRound::Enabled),
        hosts_match(l0, s.disabled, KvRound::Disabled),
        in_app(s),
        0 <= s.host_index,
        all_agents(s.pending),
        forall|h: Seq<char>| #[trigger] s.hosts.contains(h) ==> s.pending.contains(LoadedEntryView::Agent(h)),
        cur_list(s).len() > 0 && cur_list(s).last().app == s.apps[s.app_index] && cur_list(s).last().host == s.hosts,
    ensures
        outcome_at(anchor, begin_host(s), l0, stable_inv(anchor, l0), pending_reported(l0)),
{
    let inv = stable_inv(anchor, l0);
    if 0 <= s.host_index < s.hosts.len() {
        let s1 = kv_at(s, KvPhase::HostCheckForHost);
        assert forall|rep: ReplyView| #[trigger] answers_at(anchor, l0, registration_request(s.agent), rep) implies inv(s1, rep, l0) by {}
    } else {
        lemma_stable_begin_app(anchor, l0, KvUpdatesView { app_index: s.app_index + 1, ..s });
    }
}

proof fn lemma_stable_step(anchor: Seq<char>, l0: LinkSet, s: KvUpdatesView, rep: ReplyView, l: LinkSet)
    requires
        stable_inv(anchor, l0)(s, rep, l),
    ensures
        outcome_at(anchor, kv_updates_next(s, rep), l, stable_inv(anchor, l0), pending_reported(l0)),
{
    let inv = stable_inv(anchor, l0);
    match s.phase {
        KvPhase::Start => {
            let s1 = kv_at(s, KvPhase::HostCheck);
            assert forall|r2: ReplyView| #[trigger] answers_at(anchor, l, registration_request(s.agent), r2) implies inv(s1, r2, l) by {}
        },
        KvPhase::HostCheck => {
            let s1 = kv_at(s, KvPhase::Anchoring);
            assert forall|r2: ReplyView| #[trigger] answers_at(anchor, l, RequestView::CommitAllAppsAnchor, r2) implies inv(s1, r2, l) by {}
        },
        KvPhase::Anchoring => {
            let s1 = kv_at(s, KvPhase::AppLinks);
            assert forall|r2: ReplyView| #[trigger] answers_at(anchor, l, RequestView::GetLinks { base: anchor, tag: LinkTag::AllApps }, r2)
                implies inv(s1, r2, l) by {}
        },
        KvPhase::AppLinks => {
            if let ReplyView::Links(apps) = rep {
                lemma_stable_begin_app(anchor, l0, KvUpdatesView { apps, round: KvRound::Enabled, app_index: 0, ..s });
            }
        },
        KvPhase::RecentEntries => {
            if let ReplyView::Entries(e) = rep {
                if in_app(s) {
                    let a = s.apps[s.app_index];
                    let ts = choose|ts: Seq<Seq<char>>| #[trigger] loads_links(l, a, recent_tag(s.round), ts, e);
                    if ts.len() > 0 {
                        assert(l.contains((a, ts[0], recent_tag(s.round))));
                    }
                    let s1 = KvUpdatesView { phase: KvPhase::PendingEntries, recent: e, ..s };
                    assert forall|r2: ReplyView| #[trigger] answers_at(anchor, l, RequestView::LoadLinks { base: a, tag: pending_tag(s.round) }, r2)
                        implies inv(s1, r2, l) by {}
                }
            }
        },
        KvPhase::PendingEntries => {
            if let ReplyView::Entries(e) = rep {
                if in_app(s) {
                    let a = s.apps[s.app_index];
                    assert(s.recent + e =~= e);
                    lemma_fold_agents(seq![], e);
                    let ks = fold_agent_keys(seq![], e)->Ok_0;
                    let tp = choose|ts: Seq<Seq<char>>| #[trigger] loads_links(l, a, pending_tag(s.round), ts, e);
                    assert forall|h: Seq<char>| #[trigger] ks.contains(h) <==> l.contains((a, h, pending_tag(s.round))) by {
                        if ks.contains(h) {
                            let i = choose|i: int| 0 <= i < e.len() && e[i] == LoadedEntryView::Agent(h);
                            assert(e[i] matches LoadedEntryView::Agent(k) ==> k == tp[i]);
                        }
                        if l.contains((a, h, pending_tag(s.round))) {
                            assert(tp.contains(h));
                            let i = choose|i: int| 0 <= i < tp.len() && tp[i] == h;
                            assert(e[i] is Agent);
                            assert(e[i] matches LoadedEntryView::Agent(k) ==> ks.contains(k));
                        }
                    }
                    assert forall|h: Seq<char>| #[trigger] ks.contains(h) implies e.contains(LoadedEntryView::Agent(h)) by {
                        let i = choose|i: int| 0 <= i < e.len() && e[i] == LoadedEntryView::Agent(h);
                    }
                    let s2 = KvUpdatesView { pending: e, ..s };
                    let s3 = KvUpdatesView { hosts: ks, host_index: 0, ..record(s2, ks) };
                    let entry = App2HostView { app: a, host: ks };
                    assert(cur_list(s3) == cur_list(s).push(entry));
                    assert(hosts_match(l0, s3.enabled, KvRound::Enabled) && hosts_match(l0, s3.disabled, KvRound::Disabled)) by {
                        assert forall|i: int, h: Seq<char>| 0 <= i < s3.enabled.len() implies (#[trigger] s3.enabled[i].host.contains(h)
                            <==> l0.contains((s3.enabled[i].app, h, pending_tag(KvRound::Enabled)))) by {
                            if i < s.enabled.len() {
                                assert(s3.enabled[i] == s.enabled[i]);
                            }
                        }
                        assert forall|i: int, h: Seq<char>| 0 <= i < s3.disabled.len() implies (#[trigger] s3.disabled[i].host.contains(h)
                            <==> l0.contains((s3.disabled[i].app, h, pending_tag(KvRound::Disabled)))) by {
                            if i < s.disabled.len() {
                                assert(s3.disabled[i] == s.disabled[i]);
                            }
                        }
                    }
                    lemma_stable_begin_host(anchor, l0, s3);
                }
            }
        },
        KvPhase::HostCheckForHost => {
            if let ReplyView::Links(x) = rep {
                if in_host(s) && x.len() != 0 {
                    let s1 = kv_at(s, KvPhase::HostLinks);
                    assert forall|r2: ReplyView| #[trigger] answers_at(anchor, l, RequestView::GetLinks { base: s.apps[s.app_index], tag: recent_tag(s.round) }, r2)
                        implies inv(s1, r2, l) by {}
                }
            }
        },
        KvPhase::HostLinks => {
            if let ReplyView::Links(found) = rep {
                if in_host(s) {
                    let a = s.apps[s.app_index];
                    let h = s.hosts[s.host_index];
                    if lists(found, h) {
                        let j = choose|j: int| 0 <= j < found.len() && found[j] == h;
                        assert(l.contains((a, found[j], recent_tag(s.round))));
                    }
                    assert(s.hosts.contains(h));
                    let i = choose|i: int| 0 <= i < s.pending.len() && s.pending[i] == LoadedEntryView::Agent(h);
                    lemma_agent_found(s.pending, h, i);
                    lemma_stable_begin_host(anchor, l0, KvUpdatesView { host_index: s.host_index + 1, ..s });
                }
            }
        },
        _ => {},
    }
}

/// Law: against a DHT whose anchor of all apps keeps its address and whose loaded
/// links lead to agent entries, where no app linked from the anchor has a
/// recent-change link, a collection that succeeds reports for each app exactly the
/// targets of its pending-change links of the round, and changes nothing.
pub proof fn collecting_reports_pending(agent: Seq<char>, anchor: Seq<char>, links: LinkSet, fuel: nat)
    requires
        no_recent(links, anchor),
    ensures
        ends_at(anchor, kv_updates_procedure(), kv_updates_start(agent), ReplyView::Done, links, fuel, pending_reported(links)),
{
    let inv = stable_inv(anchor, links);
    assert forall|s1: KvUpdatesView, r1: ReplyView, l1: LinkSet| #[trigger] inv(s1, r1, l1) implies outcome_at(
        anchor, kv_updates_procedure()(s1, r1), l1, inv, pending_reported(links)) by {
        lemma_stable_step(anchor, links, s1, r1, l1);
    }
    assert(inv(kv_updates_start(agent), ReplyView::Done, links));
    lemma_invariant_ends_at(anchor, kv_updates_procedure(), inv, pending_reported(links), kv_updates_start(agent), ReplyView::Done, links, fuel);
}

/// Whether two lists of updates report the same: each has an entry for every app
/// linked from the anchor, and entries for the same app report the same hosts.
pub open spec fn reports_same(l: LinkSet, anchor: Seq<char>, first: Seq<App2HostView>, second: Seq<App2HostView>) -> bool {
    &&& forall|t: Seq<char>| #[trigger] l.contains((anchor, t, LinkTag::AllApps)) ==> apps_of(first).contains(t) && apps_of(second).contains(t)
    &&& forall|i: int, j: int, h: Seq<char>|
        #![trigger second[i].host.contains(h), first[j].host.contains(h)]
        0 <= i < second.len() && 0 <= j < first.len() && second[i].app == first[j].app
            ==> (second[i].host.contains(h) <==> first[j].host.contains(h))
}

/// What a second collection leads to, after a first that reported `d` and left `l1`:
/// where it succeeds, it reports the same as the first, and changes nothing.
pub open spec fn same_report(anchor: Seq<char>, d: DnaToHostView, l1: LinkSet) -> spec_fn(Result<DnaToHostView, HostErrorView>, LinkSet) -> bool {
    |r: Result<DnaToHostView, HostErrorView>, l: LinkSet| match r {
        Ok(d2) => l == l1 && reports_same(l1, anchor, d.recently_enabled_apps, d2.recently_enabled_apps)
            && reports_same(l1, anchor, d.recently_disabled_apps, d2.recently_disabled_apps),
        Err(_) => true,
    }
}

/// What a collection leads to: it succeeds, and the next collection, with no write in
/// between, succeeds and reports the same.
pub open spec fn reported_again(agent: Seq<char>, anchor: Seq<char>) -> spec_fn(Result<DnaToHostView, HostErrorView>, LinkSet) -> bool {
    |r: Result<DnaToHostView, HostErrorView>, l: LinkSet| match r {
        Ok(d) => leads_to_at(
            anchor,
            kv_updates_procedure(),
            kv_updates_start(agent),
            ReplyView::Done,
            l,
            (kv_top(l) + 4) as nat,
            both(kv_success(), same_report(anchor, d, l)),
        ),
        Err(_) => false,
    }
}

/// An entry that a collection reported reports exactly the targets of its app's
/// pending-change links of the round.
proof fn lemma_reported_hosts(l: LinkSet, list: Seq<App2HostView>, round: KvRound, j: int, h: Seq<char>)
    requires
        all_settled(l, list, round, list.len() as int),
        all_moved(l, list, round, list.len() as int),
        0 <= j < list.len(),
    ensures
        list[j].host.contains(h) <==> l.contains((list[j].app, h, pending_tag(round))),
{
    assert(settled(l, list[j], round));
    assert(moved(l, list[j], round, list[j].host.len() as int));
    if list[j].host.contains(h) {
        let k = choose|k: int| 0 <= k < list[j].host.len() && list[j].host[k] == h;
        assert(l.contains((list[j].app, list[j].host[k], pending_tag(round))));
    }
}

proof fn lemma_reports_same(anchor: Seq<char>, l1: LinkSet, first: Seq<App2HostView>, second: Seq<App2HostView>, round: KvRound)
    requires
        reports_all(l1, anchor, first, round),
        all_moved(l1, first, round, first.len() as int),
        forall|t: Seq<char>| #[trigger] l1.contains((anchor, t, LinkTag::AllApps)) ==> apps_of(second).contains(t),
        hosts_match(l1, second, round),
    ensures
        reports_same(l1, anchor, first, second),
{
    assert forall|i: int, j: int, h: Seq<char>|
        0 <= i < second.len() && 0 <= j < first.len() && second[i].app == first[j].app
        implies (#[trigger] second[i].host.contains(h) <==> #[trigger] first[j].host.contains(h)) by {
        lemma_reported_hosts(l1, first, round, j, h);
        assert(second[i].host.contains(h) <==> l1.contains((second[i].app, h, pending_tag(round))));
    }
}

/// Law: unacknowledged updates are reported again, none lost and none invented.
/// Against a DHT whose anchor of all apps keeps its address and whose loaded links
/// lead to agent entries, a registered host's collection of updates for the key-value
/// store succeeds, and the next collection, with no write in between, succeeds,
/// reports for each app and round the same hosts, and changes nothing.
pub proof fn unacknowledged_updates_are_reported_again(agent: Seq<char>, anchor: Seq<char>, links: LinkSet)
    requires
        registered(links, agent),
        links.finite(),
    ensures
        leads_to_at(anchor, kv_updates_procedure(), kv_updates_start(agent), ReplyView::Done, links, (kv_top(links) + 4) as nat,
            reported_again(agent, anchor)),
{
    let t0 = choose|t: Seq<char>| links.contains((agent, t, LinkTag::VerifiedHost));
    let fuel = (kv_top(links) + 4) as nat;
    let first = both(kv_success(), collected_goal(anchor, links, agent, t0));
    collecting_succeeds(agent, t0, anchor, links);
    lemma_finite_kept(anchor, kv_updates_procedure(), kv_updates_start(agent), ReplyView::Done, links, fuel);
    lemma_leads_to_at_both(anchor, kv_updates_procedure(), kv_updates_start(agent), ReplyView::Done, links, fuel, first,
        finite_links::<DnaToHostView>());
    assert forall|r: Result<DnaToHostView, HostErrorView>, l1: LinkSet| both(first, finite_links::<DnaToHostView>())(r, l1)
        implies #[trigger] reported_again(agent, anchor)(r, l1) by {
        let d = r->Ok_0;
        let en = d.recently_enabled_apps;
        let dis = d.recently_disabled_apps;
        assert(no_recent(l1, anchor)) by {
            assert forall|t: Seq<char>, h: Seq<char>, rd: KvRound| l1.contains((anchor, t, LinkTag::AllApps))
                implies !#[trigger] l1.contains((t, h, recent_tag(rd))) by {
                let list = if rd == KvRound::Enabled { en } else { dis };
                assert(apps_of(list).contains(t));
                let i = choose|i: int| 0 <= i < apps_of(list).len() && apps_of(list)[i] == t;
                assert(settled(l1, list[i], rd));
            }
        }
        let f = (kv_top(l1) + 4) as nat;
        let g = both(kv_success(), collected_goal(anchor, l1, agent, t0));
        collecting_succeeds(agent, t0, anchor, l1);
        collecting_reports_pending(agent, anchor, l1, f);
        lemma_leads_to_at_both(anchor, kv_updates_procedure(), kv_updates_start(agent), ReplyView::Done, l1, f, g, pending_reported(l1));
        assert forall|r2: Result<DnaToHostView, HostErrorView>, l2: LinkSet| both(g, pending_reported(l1))(r2, l2)
            implies #[trigger] both(kv_success(), same_report(anchor, d, l1))(r2, l2) by {
            let d2 = r2->Ok_0;
            lemma_reports_same(anchor, l1, en, d2.recently_enabled_apps, KvRound::Enabled);
            lemma_reports_same(anchor, l1, dis, d2.recently_disabled_apps, KvRound::Disabled);
        }
        lemma_leads_to_at_weaken(anchor, kv_updates_procedure(), kv_updates_start(agent), ReplyView::Done, l1, f,
            both(g, pending_reported(l1)), both(kv_success(), same_report(anchor, d, l1)));
    }
    lemma_leads_to_at_weaken(anchor, kv_updates_procedure(), kv_updates_start(agent), ReplyView::Done, links, fuel,
        both(first, finite_links::<DnaToHostView>()), reported_again(agent, anchor));
}

// ---------------------------------------------------------------------
// The collection succeeds
// ---------------------------------------------------------------------

/// Among agent entries, the search for an agent does not fail.
proof fn lemma_agent_exists_ok(entries: Seq<LoadedEntryView>, agent: Seq<char>)
    requires
        all_agents(entries),
    ensures
        agent_exists_result(entries, agent) is Ok,
    decreases entries.len(),
{
    if entries.len() > 0 {
        let rest = entries.drop_first();
        assert(all_agents(rest)) by {
            assert forall|j: int| 0 <= j < rest.len() implies #[trigger] rest[j] is Agent by {
                assert(rest[j] == entries[j + 1]);
            }
        }
        lemma_agent_exists_ok(rest, agent);
    }
}

/// Whether the links of the apps from the `k`-th on, of the round at hand, and those of
/// every app of the disabling round while the enabling round runs, are as in `l0`.
pub open spec fn untouched_from(l: LinkSet, l0: LinkSet, s: KvUpdatesView, k: int) -> bool {
    &&& forall|i: int, t: Seq<char>|
        #![trigger l.contains((s.apps[i], t, recent_tag(s.round)))]
        #![trigger l0.contains((s.apps[i], t, recent_tag(s.round)))]
        k <= i < s.apps.len() ==> (l.contains((s.apps[i], t, recent_tag(s.round))) == l0.contains((s.apps[i], t, recent_tag(s.round))))
    &&& forall|i: int, t: Seq<char>|
        #![trigger l.contains((s.apps[i], t, pending_tag(s.round)))]
        #![trigger l0.contains((s.apps[i], t, pending_tag(s.round)))]
        k <= i < s.apps.len() ==> (l.contains((s.apps[i], t, pending_tag(s.round))) == l0.contains((s.apps[i], t, pending_tag(s.round))))
    &&& s.round == KvRound::Enabled ==> {
        &&& forall|i: int, t: Seq<char>|
            #![trigger l.contains((s.apps[i], t, recent_tag(KvRound::Disabled)))]
            #![trigger l0.contains((s.apps[i], t, recent_tag(KvRound::Disabled)))]
            0 <= i < s.apps.len() ==> (l.contains((s.apps[i], t, recent_tag(KvRound::Disabled))) == l0.contains((s.apps[i], t, recent_tag(KvRound::Disabled))))
        &&& forall|i: int, t: Seq<char>|
            #![trigger l.contains((s.apps[i], t, pending_tag(KvRound::Disabled)))]
            #![trigger l0.contains((s.apps[i], t, pending_tag(KvRound::Disabled)))]
            0 <= i < s.apps.len() ==> (l.contains((s.apps[i], t, pending_tag(KvRound::Disabled))) == l0.contains((s.apps[i], t, pending_tag(KvRound::Disabled))))
    }
}

pub open spec fn kv_past_anchor(p: KvPhase) -> bool {
    p is RecentEntries || p is PendingEntries || kv_processing(p)
}

/// The requests that one app may take: two loads, and four per host, of which there
/// are at most twice as many as links.
pub open spec fn kv_width(l0: LinkSet) -> int {
    8 * (l0.len() as int) + 3
}

pub open spec fn kv_top(l0: LinkSet) -> int {
    2 * (l0.len() as int + 1) * kv_width(l0)
}

/// The requests left for the apps after the one at hand, in this round and the next.
pub open spec fn kv_base(s: KvUpdatesView, w: int) -> int {
    (if s.round == KvRound::Enabled { s.apps.len() as int } else { 0 }) * w + (s.apps.len() - s.app_index - 1) * w
}

/// How far the collection is from its end.
pub open spec fn kv_rank(l0: LinkSet) -> spec_fn(KvUpdatesView, ReplyView, LinkSet) -> nat {
    |s: KvUpdatesView, rep: ReplyView, l: LinkSet| {
        let w = kv_width(l0);
        let b = kv_base(s, w);
        let h = s.hosts.len() - s.host_index;
        (match s.phase {
            KvPhase::Start => kv_top(l0) + 3,
            KvPhase::HostCheck => kv_top(l0) + 2,
            KvPhase::Anchoring => kv_top(l0) + 1,
            KvPhase::AppLinks => kv_top(l0),
            KvPhase::RecentEntries => b + w - 1,
            KvPhase::PendingEntries => b + w - 2,
            KvPhase::HostCheckForHost => b + 4 * h - 1,
            KvPhase::HostLinks => b + 4 * h - 2,
            KvPhase::RemovingRecent => b + 4 * h - 3,
            KvPhase::LinkingPending => b + 4 * h - 4,
            KvPhase::Finished => 0,
        }) as nat
    }
}

pub open spec fn kv_success() -> spec_fn(Result<DnaToHostView, HostErrorView>, LinkSet) -> bool {
    |r: Result<DnaToHostView, HostErrorView>, l: LinkSet| r is Ok
}

/// What a collection for a registered host keeps, on its way to success.
pub open spec fn kv_rank_inv(anchor: Seq<char>, l0: LinkSet, agent: Seq<char>, t0: Seq<char>) -> spec_fn(KvUpdatesView, ReplyView, LinkSet) -> bool {
    |s: KvUpdatesView, rep: ReplyView, l: LinkSet| {
        &&& kv_inv_at(anchor, l0, agent, t0)(s, rep, l)
        &&& l0.finite()
        &&& s.agent == agent
        &&& !(s.phase is Finished)
        &&& (s.phase is Start || s.phase is HostCheck || s.phase is Anchoring || s.phase is AppLinks) ==> l == l0
        &&& (s.phase is HostCheck || s.phase is HostCheckForHost) ==> answers(l, registration_request(agent), rep)
        &&& kv_past_anchor(s.phase) ==> s.apps.len() <= l0.len()
        &&& (s.phase is RecentEntries || s.phase is PendingEntries) ==> untouched_from(l, l0, s, s.app_index)
        &&& kv_processing(s.phase) ==> {
            &&& untouched_from(l, l0, s, s.app_index + 1)
            &&& all_agents(s.pending)
            &&& s.hosts.len() <= 2 * l0.len()
        }
    }
}

proof fn lemma_mul_step(k: int, w: int)
    ensures
        (k + 1) * w == k * w + w,
{
    assert((k + 1) * w == k * w + w) by (nonlinear_arith);
}

proof fn lemma_mul_nonneg(k: int, w: int)
    requires
        0 <= k,
        0 <= w,
    ensures
        0 <= k * w,
{
    assert(0 <= k * w) by (nonlinear_arith)
        requires
            0 <= k,
            0 <= w,
    ;
}

proof fn lemma_first_app_below_top(a: int, n: int, w: int)
    requires
        0 <= a <= n,
        0 <= w,
    ensures
        a * w + (a - 1) * w + w <= 2 * (n + 1) * w,
{
    assert(a * w + (a - 1) * w + w <= 2 * (n + 1) * w) by (nonlinear_arith)
        requires
            0 <= a <= n,
            0 <= w,
    ;
}

proof fn lemma_base_nonneg(s: KvUpdatesView, w: int)
    requires
        0 <= s.app_index < s.apps.len(),
        0 <= w,
    ensures
        0 <= kv_base(s, w),
{
    lemma_mul_nonneg(if s.round == KvRound::Enabled { s.apps.len() as int } else { 0 }, w);
    lemma_mul_nonneg(s.apps.len() - s.app_index - 1, w);
}

/// A write to a link from the app at hand, of its round, leaves the later apps and the
/// other round as they were.
proof fn lemma_untouched_write(l: LinkSet, l0: LinkSet, s: KvUpdatesView, l2: LinkSet, h: Seq<char>, removing: bool)
    requires
        untouched_from(l, l0, s, s.app_index + 1),
        s.apps.no_duplicates(),
        0 <= s.app_index < s.apps.len(),
        removing ==> l2 == l.remove((s.apps[s.app_index], h, recent_tag(s.round))),
        !removing ==> l2 == l.insert((s.apps[s.app_index], h, pending_tag(s.round))),
    ensures
        untouched_from(l2, l0, s, s.app_index + 1),
{
    let a = s.apps[s.app_index];
    assert forall|i: int, t: Seq<char>| s.app_index + 1 <= i < s.apps.len() implies (l2.contains((s.apps[i], t, recent_tag(s.round)))
        == l0.contains((s.apps[i], t, recent_tag(s.round)))) by {
        assert(s.apps[i] != a);
        assert(l2.contains((s.apps[i], t, recent_tag(s.round))) == l.contains((s.apps[i], t, recent_tag(s.round))));
    }
    assert forall|i: int, t: Seq<char>| s.app_index + 1 <= i < s.apps.len() implies (l2.contains((s.apps[i], t, pending_tag(s.round)))
        == l0.contains((s.apps[i], t, pending_tag(s.round)))) by {
        assert(s.apps[i] != a);
        assert(l2.contains((s.apps[i], t, pending_tag(s.round))) == l.contains((s.apps[i], t, pending_tag(s.round))));
    }
    if s.round == KvRound::Enabled {
        assert forall|i: int, t: Seq<char>| 0 <= i < s.apps.len() implies (l2.contains((s.apps[i], t, recent_tag(KvRound::Disabled)))
            == l0.contains((s.apps[i], t, recent_tag(KvRound::Disabled)))) by {
            assert(l2.contains((s.apps[i], t, recent_tag(KvRound::Disabled))) == l.contains((s.apps[i], t, recent_tag(KvRound::Disabled))));
        }
        assert forall|i: int, t: Seq<char>| 0 <= i < s.apps.len() implies (l2.contains((s.apps[i], t, pending_tag(KvRound::Disabled)))
            == l0.contains((s.apps[i], t, pending_tag(KvRound::Disabled)))) by {
            assert(l2.contains((s.apps[i], t, pending_tag(KvRound::Disabled))) == l.contains((s.apps[i], t, pending_tag(KvRound::Disabled))));
        }
    }
}

proof fn lemma_rank_begin_app(anchor: Seq<char>, l0: LinkSet, agent: Seq<char>, t0: Seq<char>, s: KvUpdatesView, l: LinkSet, bound: nat)
    requires
        outcome_at(anchor, begin_app(s), l, kv_inv_at(anchor, l0, agent, t0), collected_goal(anchor, l0, agent, t0)),
        l0.finite(),
        s.agent == agent,
        s.apps.len() <= l0.len(),
        0 <= s.app_index <= s.apps.len(),
        untouched_from(l, l0, s, s.app_index),
        kv_base(s, kv_width(l0)) + kv_width(l0) <= bound,
    ensures
        outcome_ranked_at(anchor, begin_app(s), l, kv_rank_inv(anchor, l0, agent, t0), kv_rank(l0), bound, kv_success()),
{
    let w = kv_width(l0);
    let inv = kv_rank_inv(anchor, l0, agent, t0);
    let rank = kv_rank(l0);
    if 0 <= s.app_index < s.apps.len() {
        lemma_base_nonneg(s, w);
        let s1 = kv_at(s, KvPhase::RecentEntries);
        assert forall|rep: ReplyView| #[trigger] answers_at(anchor, l, RequestView::LoadLinks { base: s.apps[s.app_index], tag: recent_tag(s.round) }, rep)
            implies inv(s1, rep, l) && rank(s1, rep, l) < bound by {
            assert(kv_base(s1, w) == kv_base(s, w));
        }
    } else if s.round == KvRound::Enabled && 0 < s.apps.len() {
        let s2 = KvUpdatesView { round: KvRound::Disabled, app_index: 0, ..s };
        let s1 = kv_at(s2, KvPhase::RecentEntries);
        lemma_base_nonneg(s1, w);
        lemma_mul_step(s.apps.len() - 1, w);
        assert(kv_base(s1, w) + w == s.apps.len() * w);
        assert(s.app_index == s.apps.len());
        assert((s.apps.len() - s.app_index - 1) * w == -w) by (nonlinear_arith)
            requires
                s.app_index == s.apps.len(),
        ;
        assert(kv_base(s, w) == s.apps.len() * w - w);
        assert(untouched_from(l, l0, s1, 0));
        assert forall|rep: ReplyView| #[trigger] answers_at(anchor, l, RequestView::LoadLinks { base: s.apps[0], tag: recent_tag(KvRound::Disabled) }, rep)
            implies inv(s1, rep, l) && rank(s1, rep, l) < bound by {
        }
    }
}

proof fn lemma_rank_begin_host(anchor: Seq<char>, l0: LinkSet, agent: Seq<char>, t0: Seq<char>, s: KvUpdatesView, l: LinkSet, bound: nat)
    requires
        outcome_at(anchor, begin_host(s), l, kv_inv_at(anchor, l0, agent, t0), collected_goal(anchor, l0, agent, t0)),
        l0.finite(),
        s.agent == agent,
        s.apps.len() <= l0.len(),
        0 <= s.app_index < s.apps.len(),
        untouched_from(l, l0, s, s.app_index + 1),
        all_agents(s.pending),
        s.hosts.len() <= 2 * l0.len(),
        0 <= s.host_index <= s.hosts.len(),
        kv_base(s, kv_width(l0)) + 4 * (s.hosts.len() - s.host_index) <= bound,
    ensures
        outcome_ranked_at(anchor, begin_host(s), l, kv_rank_inv(anchor, l0, agent, t0), kv_rank(l0), bound, kv_success()),
{
    let w = kv_width(l0);
    let inv = kv_rank_inv(anchor, l0, agent, t0);
    let rank = kv_rank(l0);
    lemma_base_nonneg(s, w);
    if 0 <= s.host_index < s.hosts.len() {
        let s1 = kv_at(s, KvPhase::HostCheckForHost);
        assert forall|rep: ReplyView| #[trigger] answers_at(anchor, l, registration_request(s.agent), rep)
            implies inv(s1, rep, l) && rank(s1, rep, l) < bound by {
            assert(kv_base(s1, w) == kv_base(s, w));
        }
    } else {
        let s2 = KvUpdatesView { app_index: s.app_index + 1, ..s };
        lemma_mul_step(s.apps.len() - s.app_index - 2, w);
        assert(kv_base(s2, w) + w == kv_base(s, w));
        lemma_rank_begin_app(anchor, l0, agent, t0, s2, l, bound);
    }
}

proof fn lemma_rank_after_removal(anchor: Seq<char>, l0: LinkSet, agent: Seq<char>, t0: Seq<char>, s: KvUpdatesView, l: LinkSet, bound: nat)
    requires
        outcome_at(anchor, after_removal(s), l, kv_inv_at(anchor, l0, agent, t0), collected_goal(anchor, l0, agent, t0)),
        l0.finite(),
        s.agent == agent,
        s.apps.len() <= l0.len(),
        s.apps.no_duplicates(),
        in_host(s),
        untouched_from(l, l0, s, s.app_index + 1),
        all_agents(s.pending),
        s.hosts.len() <= 2 * l0.len(),
        kv_base(s, kv_width(l0)) + 4 * (s.hosts.len() - s.host_index) - 3 <= bound,
    ensures
        outcome_ranked_at(anchor, after_removal(s), l, kv_rank_inv(anchor, l0, agent, t0), kv_rank(l0), bound, kv_success()),
{
    let w = kv_width(l0);
    let inv = kv_rank_inv(anchor, l0, agent, t0);
    let rank = kv_rank(l0);
    lemma_base_nonneg(s, w);
    lemma_agent_exists_ok(s.pending, s.hosts[s.host_index]);
    if agent_exists_result(s.pending, s.hosts[s.host_index]) == Ok::<bool, HostErrorView>(true) {
        lemma_rank_begin_host(anchor, l0, agent, t0, KvUpdatesView { host_index: s.host_index + 1, ..s }, l, bound);
    } else {
        let req = RequestView::LinkEntries { base: s.apps[s.app_index], target: s.hosts[s.host_index], tag: pending_tag(s.round) };
        let l2 = effect(l, req);
        lemma_untouched_write(l, l0, s, l2, s.hosts[s.host_index], false);
        let s1 = kv_at(s, KvPhase::LinkingPending);
        assert forall|rep: ReplyView| #[trigger] answers_at(anchor, l, req, rep) implies inv(s1, rep, l2) && rank(s1, rep, l2) < bound by {
            assert(kv_base(s1, w) == kv_base(s, w));
        }
    }
}

proof fn lemma_kv_rank_step(anchor: Seq<char>, l0: LinkSet, agent: Seq<char>, t0: Seq<char>, s: KvUpdatesView, rep: ReplyView, l: LinkSet)
    requires
        kv_rank_inv(anchor, l0, agent, t0)(s, rep, l),
    ensures
        outcome_ranked_at(anchor, kv_updates_next(s, rep), l, kv_rank_inv(anchor, l0, agent, t0), kv_rank(l0),
            kv_rank(l0)(s, rep, l), kv_success()),
{
    let w = kv_width(l0);
    let inv = kv_rank_inv(anchor, l0, agent, t0);
    let rank = kv_rank(l0);
    let bound = rank(s, rep, l);
    lemma_kv_step_at(anchor, l0, agent, t0, s, rep, l);
    lemma_mul_nonneg(2 * (l0.len() as int + 1), w);
    match s.phase {
        KvPhase::Start => {
            let s1 = kv_at(s, KvPhase::HostCheck);
            assert forall|r2: ReplyView| #[trigger] answers_at(anchor, l, registration_request(s.agent), r2)
                implies inv(s1, r2, l) && rank(s1, r2, l) < bound by {}
        },
        KvPhase::HostCheck => {
            assert(rep->Links_0.contains(t0));
            let s1 = kv_at(s, KvPhase::Anchoring);
            assert forall|r2: ReplyView| #[trigger] answers_at(anchor, l, RequestView::CommitAllAppsAnchor, r2)
                implies inv(s1, r2, l) && rank(s1, r2, l) < bound by {}
        },
        KvPhase::Anchoring => {
            let s1 = kv_at(s, KvPhase::AppLinks);
            assert forall|r2: ReplyView| #[trigger] answers_at(anchor, l, RequestView::GetLinks { base: anchor, tag: LinkTag::AllApps }, r2)
                implies inv(s1, r2, l) && rank(s1, r2, l) < bound by {}
        },
        KvPhase::AppLinks => {
            let apps = rep->Links_0;
            lemma_list_within(l, anchor, LinkTag::AllApps, apps);
            let s2 = KvUpdatesView { apps, round: KvRound::Enabled, app_index: 0, ..s };
            lemma_first_app_below_top(apps.len() as int, l0.len() as int, w);
            assert(kv_base(s2, w) + w == apps.len() * w + (apps.len() - 1) * w + w);
            lemma_rank_begin_app(anchor, l0, agent, t0, s2, l, bound);
        },
        KvPhase::RecentEntries => {
            let e = rep->Entries_0;
            lemma_base_nonneg(s, w);
            let s1 = KvUpdatesView { phase: KvPhase::PendingEntries, recent: e, ..s };
            assert forall|r2: ReplyView| #[trigger] answers_at(anchor, l, RequestView::LoadLinks { base: s.apps[s.app_index], tag: pending_tag(s.round) }, r2)
                implies inv(s1, r2, l) && rank(s1, r2, l) < bound by {
                assert(kv_base(s1, w) == kv_base(s, w));
            }
        },
        KvPhase::PendingEntries => {
            let e = rep->Entries_0;
            let a = s.apps[s.app_index];
            let all = s.recent + e;
            assert(all_agents(all)) by {
                assert forall|i: int| 0 <= i < all.len() implies #[trigger] all[i] is Agent by {
                    if i < s.recent.len() {
                        assert(all[i] == s.recent[i]);
                    } else {
                        assert(all[i] == e[i - s.recent.len()]);
                    }
                }
            }
            lemma_fold_agents(seq![], all);
            let ks = fold_agent_keys(seq![], all)->Ok_0;
            let tr = choose|ts: Seq<Seq<char>>| #[trigger] loads_links(l, a, recent_tag(s.round), ts, s.recent);
            let tp = choose|ts: Seq<Seq<char>>| #[trigger] loads_links(l, a, pending_tag(s.round), ts, e);
            assert forall|j: int| 0 <= j < tr.len() implies l0.contains((a, #[trigger] tr[j], recent_tag(s.round))) by {
                assert(l.contains((a, tr[j], recent_tag(s.round))));
            }
            assert forall|j: int| 0 <= j < tp.len() implies l0.contains((a, #[trigger] tp[j], pending_tag(s.round))) by {
                assert(l.contains((a, tp[j], pending_tag(s.round))));
            }
            lemma_list_within(l0, a, recent_tag(s.round), tr);
            lemma_list_within(l0, a, pending_tag(s.round), tp);
            let s2 = KvUpdatesView { pending: e, ..s };
            let s3 = KvUpdatesView { hosts: ks, host_index: 0, ..record(s2, ks) };
            assert(kv_base(s3, w) == kv_base(s, w));
            assert(fold_agent_keys_of(s.recent, e) == Ok::<Seq<Seq<char>>, HostErrorView>(ks));
            lemma_rank_begin_host(anchor, l0, agent, t0, s3, l, bound);
        },
        KvPhase::HostCheckForHost => {
            assert(rep->Links_0.contains(t0));
            lemma_base_nonneg(s, w);
            let s1 = kv_at(s, KvPhase::HostLinks);
            assert forall|r2: ReplyView| #[trigger] answers_at(anchor, l, RequestView::GetLinks { base: s.apps[s.app_index], tag: recent_tag(s.round) }, r2)
                implies inv(s1, r2, l) && rank(s1, r2, l) < bound by {
                assert(kv_base(s1, w) == kv_base(s, w));
            }
        },
        KvPhase::HostLinks => {
            let found = rep->Links_0;
            let a = s.apps[s.app_index];
            let h = s.hosts[s.host_index];
            lemma_base_nonneg(s, w);
            if lists(found, h) {
                let req = RequestView::RemoveLink { base: a, target: h, tag: recent_tag(s.round) };
                let l2 = effect(l, req);
                lemma_untouched_write(l, l0, s, l2, h, true);
                let s1 = kv_at(s, KvPhase::RemovingRecent);
                assert forall|r2: ReplyView| #[trigger] answers_at(anchor, l, req, r2) implies inv(s1, r2, l2) && rank(s1, r2, l2) < bound by {
                    assert(kv_base(s1, w) == kv_base(s, w));
                }
            } else {
                lemma_rank_after_removal(anchor, l0, agent, t0, s, l, bound);
            }
        },
        KvPhase::RemovingRecent => {
            lemma_base_nonneg(s, w);
            lemma_rank_after_removal(anchor, l0, agent, t0, s, l, bound);
        },
        KvPhase::LinkingPending => {
            lemma_base_nonneg(s, w);
            lemma_rank_begin_host(anchor, l0, agent, t0, KvUpdatesView { host_index: s.host_index + 1, ..s }, l, bound);
        },
        KvPhase::Finished => {},
    }
}

/// Law: against a DHT whose anchor of all apps keeps its address and whose loaded
/// links lead to agent entries, the collection of updates for the key-value store by a
/// registered host succeeds, within a number of requests bounded by the links the DHT
/// holds, and ends as `collecting_reports_everything` states.
pub proof fn collecting_succeeds(agent: Seq<char>, t0: Seq<char>, anchor: Seq<char>, links: LinkSet)
    requires
        links.contains((agent, t0, LinkTag::VerifiedHost)),
        links.finite(),
    ensures
        leads_to_at(anchor, kv_updates_procedure(), kv_updates_start(agent), ReplyView::Done, links, (kv_top(links) + 4) as nat,
            both(kv_success(), collected_goal(anchor, links, agent, t0))),
{
    let inv = kv_rank_inv(anchor, links, agent, t0);
    let rank = kv_rank(links);
    let fuel = (kv_top(links) + 4) as nat;
    lemma_mul_nonneg(2 * (links.len() as int + 1), kv_width(links));
    assert forall|s1: KvUpdatesView, r1: ReplyView, l1: LinkSet| #[trigger] inv(s1, r1, l1) implies outcome_ranked_at(
        anchor, kv_updates_procedure()(s1, r1), l1, inv, rank, rank(s1, r1, l1), kv_success()) by {
        lemma_kv_rank_step(anchor, links, agent, t0, s1, r1, l1);
    }
    assert(inv(kv_updates_start(agent), ReplyView::Done, links));
    lemma_ranked_leads_to_at(anchor, kv_updates_procedure(), inv, rank, kv_success(), kv_updates_start(agent), ReplyView::Done, links, fuel);
    collecting_reports_everything(agent, t0, anchor, links, fuel);
    lemma_leads_to_at_both(anchor, kv_updates_procedure(), kv_updates_start(agent), ReplyView::Done, links, fuel, kv_success(),
        collected_goal(anchor, links, agent, t0));
}

} // verus!
