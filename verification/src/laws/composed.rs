//! Laws that relate several zome functions: what `is_enabled` and `get_host_for_app`
//! answer after enabling or disabling, and that no zome function unregisters a host.

use vstd::prelude::*;
use crate::dht::{
    answers, effect, ends_only_in, lemma_invariant_ends_only_in, lemma_leads_to_more_fuel,
    lemma_leads_to_weaken, leads_to, outcome_ok, LinkSet,
    LinkTag, LoadedEntryView, ReplyView, RequestView, StepView,
};
use crate::host::{check_link_exists_result, registration_request};
use crate::enable::EnablePhase;
use crate::disable::DisablePhase;
use crate::error::HostErrorView;
use crate::laws::common::{registered, unchanged_goal};
use crate::laws::enabling::{
    disable_procedure, disabled_goal, disabling, disabling_disables, enable_procedure, enabled_by_links, enabled_goal,
    disabling_not_enabled_changes_nothing, enabling, enabling_enables, fresh_links, not_yet_enabled,
};
use crate::laws::refusals::check_link_exists_reads_the_dht;
use crate::laws::listing::{all_apps_procedure, enabled_list_procedure};
use crate::laws::key_value::{completed_procedure, kv_updates_procedure};
use crate::laws::registering::register_procedure;
use crate::service_log::{account_lookup_next, PaymentAccountLookupView};
use crate::apps::{GetAllAppsView, GetEnabledAppListView};
use crate::enable::EnableAppView;
use crate::disable::DisableAppView;
use crate::kv::{KvCompletedView, KvUpdatesView};
use crate::registration::RegisterAsHostView;
use crate::host::DnaToHostView;
use crate::app_config::LoadedAppConfigView;
use crate::host::AllAppsView;

verus! {

/// Whether `is_enabled` answers `expected` for `app` on every pair of lists that a DHT
/// holding `links` may give of the agent's `verified_host_tag` and `apps_enabled` links.
pub open spec fn is_enabled_reads(links: LinkSet, agent: Seq<char>, app: Seq<char>, expected: bool) -> bool {
    forall|regs: ReplyView, found: ReplyView|
        #![trigger answers(links, registration_request(agent), regs), answers(links, RequestView::GetLinks { base: agent, tag: LinkTag::AppsEnabled }, found)]
        answers(links, registration_request(agent), regs) && answers(
            links,
            RequestView::GetLinks { base: agent, tag: LinkTag::AppsEnabled },
            found,
        ) ==> (regs matches ReplyView::Links(r) && found matches ReplyView::Links(f) && check_link_exists_result(r, f, app)
            == Ok::<bool, HostErrorView>(expected))
}

proof fn lemma_is_enabled_reads(links: LinkSet, agent: Seq<char>, app: Seq<char>)
    requires
        registered(links, agent),
    ensures
        is_enabled_reads(links, agent, app, links.contains((agent, app, LinkTag::AppsEnabled))),
{
    assert forall|regs: ReplyView, found: ReplyView|
        answers(links, registration_request(agent), regs) && answers(
            links,
            RequestView::GetLinks { base: agent, tag: LinkTag::AppsEnabled },
            found,
        ) implies (regs matches ReplyView::Links(r) && found matches ReplyView::Links(f) && check_link_exists_result(r, f, app)
            == Ok::<bool, HostErrorView>(links.contains((agent, app, LinkTag::AppsEnabled)))) by {
        check_link_exists_reads_the_dht(links, agent, regs, agent, LinkTag::AppsEnabled, found, app);
    }
}

/// Law: after a registered host enabled an app, `is_enabled` answers `true` for it,
/// however the DHT lists the links.
pub proof fn enabling_then_is_enabled(agent: Seq<char>, app: Seq<char>, links: LinkSet)
    requires
        registered(links, agent),
    ensures
        leads_to(
            enable_procedure(),
            enabling(agent, app, EnablePhase::Start),
            ReplyView::Done,
            links,
            11,
            |r: Result<(), HostErrorView>, l: LinkSet| r is Ok && is_enabled_reads(l, agent, app, true),
        ),
{
    let goal2 = |r: Result<(), HostErrorView>, l: LinkSet| r is Ok && is_enabled_reads(l, agent, app, true);
    enabling_enables(agent, app, links);
    assert forall|r: Result<(), HostErrorView>, l: LinkSet| enabled_goal(agent, app, false)(r, l) implies #[trigger] goal2(r, l) by {
        lemma_is_enabled_reads(l, agent, app);
    }
    lemma_leads_to_weaken(enable_procedure(), enabling(agent, app, EnablePhase::Start), ReplyView::Done, links, 11,
        enabled_goal(agent, app, false), goal2);
}

/// Law: after a registered host disabled an app that it had enabled, `is_enabled`
/// answers `false` for it, however the DHT lists the links.
pub proof fn disabling_then_not_enabled(agent: Seq<char>, app: Seq<char>, links: LinkSet)
    requires
        registered(links, agent),
        enabled_by_links(links, agent, app),
    ensures
        leads_to(
            disable_procedure(),
            disabling(agent, app, DisablePhase::Start),
            ReplyView::Done,
            links,
            14,
            |r: Result<(), HostErrorView>, l: LinkSet| r is Ok && is_enabled_reads(l, agent, app, false),
        ),
{
    let goal2 = |r: Result<(), HostErrorView>, l: LinkSet| r is Ok && is_enabled_reads(l, agent, app, false);
    disabling_disables(agent, app, links);
    assert forall|r: Result<(), HostErrorView>, l: LinkSet| disabled_goal(agent, app)(r, l) implies #[trigger] goal2(r, l) by {
        lemma_is_enabled_reads(l, agent, app);
    }
    lemma_leads_to_weaken(disable_procedure(), disabling(agent, app, DisablePhase::Start), ReplyView::Done, links, 14,
        disabled_goal(agent, app), goal2);
}

/// Whether every entry that a load gave is an agent entry.
pub open spec fn all_agent_entries(rep: ReplyView) -> bool {
    rep matches ReplyView::Entries(e) && forall|i: int| 0 <= i < e.len() ==> #[trigger] e[i] is Agent
}

/// Whether `get_host_for_app` lists `agent` among the hosts of `app` on every load of
/// the app's `host_enabled` links that a DHT holding `links` may give, where the
/// entries at those links are agent entries.
pub open spec fn hosts_list(links: LinkSet, app: Seq<char>, agent: Seq<char>) -> bool {
    forall|rep: ReplyView|
        #[trigger] answers(links, RequestView::LoadLinks { base: app, tag: LinkTag::HostEnabled }, rep) && all_agent_entries(rep)
            ==> rep->Entries_0.contains(LoadedEntryView::Agent(agent))
}

/// Law: after a registered host enabled an app that it had not enabled, the host is
/// listed among the app's hosts by `get_host_for_app`.
pub proof fn enabling_lists_the_host(agent: Seq<char>, app: Seq<char>, links: LinkSet)
    requires
        registered(links, agent),
        not_yet_enabled(links, agent, app),
    ensures
        leads_to(
            enable_procedure(),
            enabling(agent, app, EnablePhase::Start),
            ReplyView::Done,
            links,
            11,
            |r: Result<(), HostErrorView>, l: LinkSet| r is Ok && hosts_list(l, app, agent),
        ),
{
    let goal2 = |r: Result<(), HostErrorView>, l: LinkSet| r is Ok && hosts_list(l, app, agent);
    crate::laws::enabling::enabling_from_start(agent, app, links, true);
    assert forall|r: Result<(), HostErrorView>, l: LinkSet| enabled_goal(agent, app, true)(r, l) implies #[trigger] goal2(r, l) by {
        assert(fresh_links(l, agent, app));
        assert forall|rep: ReplyView|
            #[trigger] answers(l, RequestView::LoadLinks { base: app, tag: LinkTag::HostEnabled }, rep) && all_agent_entries(rep)
                implies rep->Entries_0.contains(LoadedEntryView::Agent(agent)) by {
            let e = rep->Entries_0;
            let ts = choose|ts: Seq<Seq<char>>| #[trigger] crate::dht::loads_links(l, app, LinkTag::HostEnabled, ts, e);
            assert(ts.contains(agent));
            let i = choose|i: int| 0 <= i < ts.len() && ts[i] == agent;
            assert(e[i] is Agent);
            assert(e[i] == LoadedEntryView::Agent(agent));
        }
    }
    lemma_leads_to_weaken(enable_procedure(), enabling(agent, app, EnablePhase::Start), ReplyView::Done, links, 11,
        enabled_goal(agent, app, true), goal2);
}

/// Whether no step of a procedure removes a `verified_host_tag` link.
pub open spec fn never_unregisters<S, O>(next: spec_fn(S, ReplyView) -> (S, StepView<O>)) -> bool {
    forall|s: S, r: ReplyView| !(#[trigger] next(s, r)).1.removes_registration()
}

/// The goal that the link (`host`, `doc`, `verified_host_tag`) is still held.
pub open spec fn still_registered<O>(host: Seq<char>, doc: Seq<char>) -> spec_fn(Result<O, HostErrorView>, LinkSet) -> bool {
    |r: Result<O, HostErrorView>, l: LinkSet| l.contains((host, doc, LinkTag::VerifiedHost))
}

/// A procedure that never removes a `verified_host_tag` link keeps every such link in
/// every run, whatever it ends with.
proof fn lemma_registration_kept<S, O>(
    next: spec_fn(S, ReplyView) -> (S, StepView<O>),
    s: S,
    reply: ReplyView,
    links: LinkSet,
    fuel: nat,
    host: Seq<char>,
    doc: Seq<char>,
)
    requires
        never_unregisters(next),
        links.contains((host, doc, LinkTag::VerifiedHost)),
    ensures
        ends_only_in(next, s, reply, links, fuel, still_registered::<O>(host, doc)),
{
    let inv = |s1: S, r1: ReplyView, l1: LinkSet| l1.contains((host, doc, LinkTag::VerifiedHost));
    assert forall|s1: S, r1: ReplyView, l1: LinkSet| #[trigger] inv(s1, r1, l1) implies outcome_ok(
        next(s1, r1), l1, inv, still_registered::<O>(host, doc)) by {
        assert(!next(s1, r1).1.removes_registration());
        if let StepView::Perform(req) = next(s1, r1).1 {
            assert(effect(l1, req).contains((host, doc, LinkTag::VerifiedHost)));
        }
    }
    lemma_invariant_ends_only_in(next, inv, still_registered::<O>(host, doc), s, reply, links, fuel);
}

pub open spec fn account_lookup_procedure() -> spec_fn(PaymentAccountLookupView, ReplyView) -> (
    PaymentAccountLookupView,
    StepView<Seq<char>>,
) {
    |s: PaymentAccountLookupView, r: ReplyView| account_lookup_next(s, r)
}

/// Law: a registered host stays a host. No zome function removes a `verified_host_tag`
/// link: whatever state any procedure is in, whatever it is answered and however it
/// ends (with success or an error), the link (`host`, `doc`, `verified_host_tag`) that
/// the DHT held is still held.
pub proof fn hosts_stay_hosts(host: Seq<char>, doc: Seq<char>, links: LinkSet, reply: ReplyView, fuel: nat)
    requires
        links.contains((host, doc, LinkTag::VerifiedHost)),
    ensures
        forall|s: EnableAppView| #[trigger] ends_only_in(enable_procedure(), s, reply, links, fuel, still_registered::<()>(host, doc)),
        forall|s: DisableAppView| #[trigger] ends_only_in(disable_procedure(), s, reply, links, fuel, still_registered::<()>(host, doc)),
        forall|s: GetAllAppsView| #[trigger] ends_only_in(all_apps_procedure(), s, reply, links, fuel, still_registered::<Seq<AllAppsView>>(host, doc)),
        forall|s: KvUpdatesView| #[trigger] ends_only_in(kv_updates_procedure(), s, reply, links, fuel, still_registered::<DnaToHostView>(host, doc)),
        forall|s: KvCompletedView| #[trigger] ends_only_in(completed_procedure(), s, reply, links, fuel, still_registered::<()>(host, doc)),
        forall|s: RegisterAsHostView| #[trigger] ends_only_in(register_procedure(), s, reply, links, fuel, still_registered::<Seq<char>>(host, doc)),
        forall|s: GetEnabledAppListView| #[trigger] ends_only_in(enabled_list_procedure(), s, reply, links, fuel, still_registered::<Seq<LoadedAppConfigView>>(host, doc)),
        forall|s: PaymentAccountLookupView| #[trigger] ends_only_in(account_lookup_procedure(), s, reply, links, fuel, still_registered::<Seq<char>>(host, doc)),
{
    assert(never_unregisters(enable_procedure()));
    assert(never_unregisters(disable_procedure()));
    assert(never_unregisters(all_apps_procedure()));
    assert(never_unregisters(kv_updates_procedure()));
    assert(never_unregisters(completed_procedure()));
    assert(never_unregisters(register_procedure()));
    assert(never_unregisters(enabled_list_procedure()));
    assert(never_unregisters(account_lookup_procedure()));
    assert forall|s: EnableAppView| #[trigger] ends_only_in(enable_procedure(), s, reply, links, fuel, still_registered::<()>(host, doc)) by {
        lemma_registration_kept(enable_procedure(), s, reply, links, fuel, host, doc);
    }
    assert forall|s: DisableAppView| #[trigger] ends_only_in(disable_procedure(), s, reply, links, fuel, still_registered::<()>(host, doc)) by {
        lemma_registration_kept(disable_procedure(), s, reply, links, fuel, host, doc);
    }
    assert forall|s: GetAllAppsView| #[trigger] ends_only_in(all_apps_procedure(), s, reply, links, fuel, still_registered::<Seq<AllAppsView>>(host, doc)) by {
        lemma_registration_kept(all_apps_procedure(), s, reply, links, fuel, host, doc);
    }
    assert forall|s: KvUpdatesView| #[trigger] ends_only_in(kv_updates_procedure(), s, reply, links, fuel, still_registered::<DnaToHostView>(host, doc)) by {
        lemma_registration_kept(kv_updates_procedure(), s, reply, links, fuel, host, doc);
    }
    assert forall|s: KvCompletedView| #[trigger] ends_only_in(completed_procedure(), s, reply, links, fuel, still_registered::<()>(host, doc)) by {
        lemma_registration_kept(completed_procedure(), s, reply, links, fuel, host, doc);
    }
    assert forall|s: RegisterAsHostView| #[trigger] ends_only_in(register_procedure(), s, reply, links, fuel, still_registered::<Seq<char>>(host, doc)) by {
        lemma_registration_kept(register_procedure(), s, reply, links, fuel, host, doc);
    }
    assert forall|s: GetEnabledAppListView| #[trigger] ends_only_in(enabled_list_procedure(), s, reply, links, fuel, still_registered::<Seq<LoadedAppConfigView>>(host, doc)) by {
        lemma_registration_kept(enabled_list_procedure(), s, reply, links, fuel, host, doc);
    }
    assert forall|s: PaymentAccountLookupView| #[trigger] ends_only_in(account_lookup_procedure(), s, reply, links, fuel, still_registered::<Seq<char>>(host, doc)) by {
        lemma_registration_kept(account_lookup_procedure(), s, reply, links, fuel, host, doc);
    }
}

/// What a second disabling of `app` by `agent` leads to on the links that the first
/// left: success, with nothing changed.
pub open spec fn disabled_again(agent: Seq<char>, app: Seq<char>) -> spec_fn(Result<(), HostErrorView>, LinkSet) -> bool {
    |r: Result<(), HostErrorView>, l: LinkSet| r is Ok && leads_to(
        disable_procedure(),
        disabling(agent, app, DisablePhase::Start),
        ReplyView::Done,
        l,
        14,
        unchanged_goal(l),
    )
}

/// Law: disabling an app twice has the effect of disabling it once: where the host's
/// links show the app either enabled (with the app's `host_enabled` link back, and none
/// from the host to the app) or not enabled, the first disabling succeeds, and a second
/// one succeeds and changes nothing.
pub proof fn disabling_twice(agent: Seq<char>, app: Seq<char>, links: LinkSet)
    requires
        registered(links, agent),
        enabled_by_links(links, agent, app) || !links.contains((agent, app, LinkTag::AppsEnabled)),
    ensures
        leads_to(disable_procedure(), disabling(agent, app, DisablePhase::Start), ReplyView::Done, links, 14, disabled_again(agent, app)),
{
    let start = disabling(agent, app, DisablePhase::Start);
    if links.contains((agent, app, LinkTag::AppsEnabled)) {
        disabling_disables(agent, app, links);
        assert forall|r: Result<(), HostErrorView>, l: LinkSet| disabled_goal(agent, app)(r, l) implies #[trigger] disabled_again(agent, app)(r, l) by {
            disabling_not_enabled_changes_nothing(agent, app, l);
            lemma_leads_to_more_fuel(disable_procedure(), start, ReplyView::Done, l, 2, 14, unchanged_goal(l));
        }
        lemma_leads_to_weaken(disable_procedure(), start, ReplyView::Done, links, 14, disabled_goal(agent, app), disabled_again(agent, app));
    } else {
        disabling_not_enabled_changes_nothing(agent, app, links);
        lemma_leads_to_more_fuel(disable_procedure(), start, ReplyView::Done, links, 2, 14, unchanged_goal(links));
        assert forall|r: Result<(), HostErrorView>, l: LinkSet| unchanged_goal(links)(r, l) implies #[trigger] disabled_again(agent, app)(r, l) by {
            assert(l == links);
        }
        lemma_leads_to_weaken(disable_procedure(), start, ReplyView::Done, links, 14, unchanged_goal(links), disabled_again(agent, app));
    }
}

} // verus!
