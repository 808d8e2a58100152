//! Laws of enabling and disabling apps.

use vstd::prelude::*;
use crate::dht::{answers, effect, lemma_leads_to_weaken, leads_to, lists, LinkSet, LinkTag, ReplyView, RequestView, StepView, PROPAGATION_WAIT_MILLIS};
use crate::host::registration_request;
use crate::enable::{enable_app_next, EnableAppView, EnablePhase};
use crate::disable::{disable_app_next, DisableAppView, DisablePhase, DisableProbe};
use crate::error::HostErrorView;
use crate::laws::common::{registered, unchanged_goal};

verus! {

pub open spec fn enable_procedure() -> spec_fn(EnableAppView, ReplyView) -> (EnableAppView, StepView<()>) {
    |s: EnableAppView, r: ReplyView| enable_app_next(s, r)
}

/// What holds once the enabling ended: it succeeded, the agent is still a host and
/// its `apps_enabled` links list the app; where the app was `fresh` (not enabled
/// before), the app's `host_enabled` link to the agent is there too and the agent
/// has no `host_enabled` link to the app.
pub open spec fn enabled_goal(agent: Seq<char>, app: Seq<char>, fresh: bool) -> spec_fn(Result<(), HostErrorView>, LinkSet) -> bool {
    |r: Result<(), HostErrorView>, l: LinkSet|
        r == Ok::<(), HostErrorView>(()) && l.contains((agent, app, LinkTag::AppsEnabled))
            && registered(l, agent) && (fresh ==> fresh_links(l, agent, app))
}

pub open spec fn fresh_links(links: LinkSet, agent: Seq<char>, app: Seq<char>) -> bool {
    links.contains((app, agent, LinkTag::HostEnabled)) && !links.contains((agent, app, LinkTag::HostEnabled))
}

/// Where an app is not enabled on a host yet, and the agent has no `host_enabled` link to it.
pub open spec fn not_yet_enabled(links: LinkSet, agent: Seq<char>, app: Seq<char>) -> bool {
    &&& !links.contains((agent, app, LinkTag::AppsEnabled))
    &&& !links.contains((agent, app, LinkTag::HostEnabled))
    &&& agent != app
}

pub open spec fn enabling(agent: Seq<char>, app: Seq<char>, phase: EnablePhase) -> EnableAppView {
    EnableAppView { phase, agent, app_hash: app }
}

/// The facts that the enabling keeps once it has linked the app.
pub open spec fn enable_kept(links: LinkSet, agent: Seq<char>, app: Seq<char>, t0: Seq<char>, fresh: bool) -> bool {
    &&& links.contains((agent, t0, LinkTag::VerifiedHost))
    &&& links.contains((agent, app, LinkTag::AppsEnabled))
    &&& fresh ==> fresh_links(links, agent, app)
}

proof fn enable_waiting(agent: Seq<char>, app: Seq<char>, links: LinkSet, t0: Seq<char>, fresh: bool, rep: ReplyView, fuel: nat)
    requires
        enable_kept(links, agent, app, t0, fresh),
    ensures
        leads_to(enable_procedure(), enabling(agent, app, EnablePhase::Waiting), rep, links, fuel, enabled_goal(agent, app, fresh)),
{
    assert(links.contains((agent, t0, LinkTag::VerifiedHost)));
}

proof fn enable_removing_pending(agent: Seq<char>, app: Seq<char>, links: LinkSet, t0: Seq<char>, fresh: bool, rep: ReplyView, fuel: nat)
    requires
        enable_kept(links, agent, app, t0, fresh),
        fuel >= 1,
    ensures
        leads_to(enable_procedure(), enabling(agent, app, EnablePhase::RemovingPending), rep, links, fuel, enabled_goal(agent, app, fresh)),
{
    let req = RequestView::Sleep { millis: PROPAGATION_WAIT_MILLIS };
    assert forall|rep2: ReplyView| #[trigger] answers(links, req, rep2) implies leads_to(
        enable_procedure(), enabling(agent, app, EnablePhase::Waiting), rep2, effect(links, req), (fuel - 1) as nat, enabled_goal(agent, app, fresh)) by {
        enable_waiting(agent, app, effect(links, req), t0, fresh, rep2, (fuel - 1) as nat);
    }
}

proof fn enable_pending_links(agent: Seq<char>, app: Seq<char>, links: LinkSet, t0: Seq<char>, fresh: bool, rep: ReplyView, fuel: nat)
    requires
        enable_kept(links, agent, app, t0, fresh),
        answers(links, RequestView::GetLinks { base: agent, tag: LinkTag::NeedUpdatesDisabled }, rep),
        fuel >= 2,
    ensures
        leads_to(enable_procedure(), enabling(agent, app, EnablePhase::PendingLinks), rep, links, fuel, enabled_goal(agent, app, fresh)),
{
    let rm = RequestView::RemoveLink { base: app, target: agent, tag: LinkTag::NeedUpdatesDisabled };
    assert forall|rep2: ReplyView| #[trigger] answers(links, rm, rep2) implies leads_to(
        enable_procedure(), enabling(agent, app, EnablePhase::RemovingPending), rep2, effect(links, rm), (fuel - 1) as nat, enabled_goal(agent, app, fresh)) by {
        enable_removing_pending(agent, app, effect(links, rm), t0, fresh, rep2, (fuel - 1) as nat);
    }
    let sl = RequestView::Sleep { millis: PROPAGATION_WAIT_MILLIS };
    assert forall|rep2: ReplyView| #[trigger] answers(links, sl, rep2) implies leads_to(
        enable_procedure(), enabling(agent, app, EnablePhase::Waiting), rep2, effect(links, sl), (fuel - 1) as nat, enabled_goal(agent, app, fresh)) by {
        enable_waiting(agent, app, effect(links, sl), t0, fresh, rep2, (fuel - 1) as nat);
    }
}

proof fn enable_pending_host_check(agent: Seq<char>, app: Seq<char>, links: LinkSet, t0: Seq<char>, fresh: bool, rep: ReplyView, fuel: nat)
    requires
        enable_kept(links, agent, app, t0, fresh),
        answers(links, registration_request(agent), rep),
        fuel >= 3,
    ensures
        leads_to(enable_procedure(), enabling(agent, app, EnablePhase::PendingHostCheck), rep, links, fuel, enabled_goal(agent, app, fresh)),
{
    let req = RequestView::GetLinks { base: agent, tag: LinkTag::NeedUpdatesDisabled };
    assert forall|rep2: ReplyView| #[trigger] answers(links, req, rep2) implies leads_to(
        enable_procedure(), enabling(agent, app, EnablePhase::PendingLinks), rep2, effect(links, req), (fuel - 1) as nat, enabled_goal(agent, app, fresh)) by {
        enable_pending_links(agent, app, effect(links, req), t0, fresh, rep2, (fuel - 1) as nat);
    }
    if let ReplyView::Links(l) = rep {
        assert(l.contains(t0));
    }
}


proof fn enable_removing_disabled(agent: Seq<char>, app: Seq<char>, links: LinkSet, t0: Seq<char>, fresh: bool, rep: ReplyView, fuel: nat)
    requires
        enable_kept(links, agent, app, t0, fresh),
        fuel >= 4,
    ensures
        leads_to(enable_procedure(), enabling(agent, app, EnablePhase::RemovingDisabled), rep, links, fuel, enabled_goal(agent, app, fresh)),
{
    let req = registration_request(agent);
    assert forall|rep2: ReplyView| #[trigger] answers(links, req, rep2) implies leads_to(
        enable_procedure(), enabling(agent, app, EnablePhase::PendingHostCheck), rep2, effect(links, req), (fuel - 1) as nat, enabled_goal(agent, app, fresh)) by {
        enable_pending_host_check(agent, app, effect(links, req), t0, fresh, rep2, (fuel - 1) as nat);
    }
}

proof fn enable_disabled_links(agent: Seq<char>, app: Seq<char>, links: LinkSet, t0: Seq<char>, fresh: bool, rep: ReplyView, fuel: nat)
    requires
        enable_kept(links, agent, app, t0, fresh),
        answers(links, RequestView::GetLinks { base: agent, tag: LinkTag::RecentlyDisabledApp }, rep),
        fuel >= 5,
    ensures
        leads_to(enable_procedure(), enabling(agent, app, EnablePhase::DisabledLinks), rep, links, fuel, enabled_goal(agent, app, fresh)),
{
    let rm = RequestView::RemoveLink { base: app, target: agent, tag: LinkTag::RecentlyDisabledApp };
    assert forall|rep2: ReplyView| #[trigger] answers(links, rm, rep2) implies leads_to(
        enable_procedure(), enabling(agent, app, EnablePhase::RemovingDisabled), rep2, effect(links, rm), (fuel - 1) as nat, enabled_goal(agent, app, fresh)) by {
        enable_removing_disabled(agent, app, effect(links, rm), t0, fresh, rep2, (fuel - 1) as nat);
    }
    let req = registration_request(agent);
    assert forall|rep2: ReplyView| #[trigger] answers(links, req, rep2) implies leads_to(
        enable_procedure(), enabling(agent, app, EnablePhase::PendingHostCheck), rep2, effect(links, req), (fuel - 1) as nat, enabled_goal(agent, app, fresh)) by {
        enable_pending_host_check(agent, app, effect(links, req), t0, fresh, rep2, (fuel - 1) as nat);
    }
}

proof fn enable_disabled_host_check(agent: Seq<char>, app: Seq<char>, links: LinkSet, t0: Seq<char>, fresh: bool, rep: ReplyView, fuel: nat)
    requires
        enable_kept(links, agent, app, t0, fresh),
        answers(links, registration_request(agent), rep),
        fuel >= 6,
    ensures
        leads_to(enable_procedure(), enabling(agent, app, EnablePhase::DisabledHostCheck), rep, links, fuel, enabled_goal(agent, app, fresh)),
{
    let req = RequestView::GetLinks { base: agent, tag: LinkTag::RecentlyDisabledApp };
    assert forall|rep2: ReplyView| #[trigger] answers(links, req, rep2) implies leads_to(
        enable_procedure(), enabling(agent, app, EnablePhase::DisabledLinks), rep2, effect(links, req), (fuel - 1) as nat, enabled_goal(agent, app, fresh)) by {
        enable_disabled_links(agent, app, effect(links, req), t0, fresh, rep2, (fuel - 1) as nat);
    }
    if let ReplyView::Links(l) = rep {
        assert(l.contains(t0));
    }
}

proof fn enable_linking_recent(agent: Seq<char>, app: Seq<char>, links: LinkSet, t0: Seq<char>, fresh: bool, rep: ReplyView, fuel: nat)
    requires
        enable_kept(links, agent, app, t0, fresh),
        fuel >= 7,
    ensures
        leads_to(enable_procedure(), enabling(agent, app, EnablePhase::LinkingRecent), rep, links, fuel, enabled_goal(agent, app, fresh)),
{
    let req = registration_request(agent);
    assert forall|rep2: ReplyView| #[trigger] answers(links, req, rep2) implies leads_to(
        enable_procedure(), enabling(agent, app, EnablePhase::DisabledHostCheck), rep2, effect(links, req), (fuel - 1) as nat, enabled_goal(agent, app, fresh)) by {
        enable_disabled_host_check(agent, app, effect(links, req), t0, fresh, rep2, (fuel - 1) as nat);
    }
}

proof fn enable_linking_both(agent: Seq<char>, app: Seq<char>, links: LinkSet, t0: Seq<char>, fresh: bool, rep: ReplyView, fuel: nat)
    requires
        enable_kept(links, agent, app, t0, fresh),
        fuel >= 8,
    ensures
        leads_to(enable_procedure(), enabling(agent, app, EnablePhase::LinkingBoth), rep, links, fuel, enabled_goal(agent, app, fresh)),
{
    let req = RequestView::LinkEntries { base: app, target: agent, tag: LinkTag::RecentlyEnabledApp };
    assert forall|rep2: ReplyView| #[trigger] answers(links, req, rep2) implies leads_to(
        enable_procedure(), enabling(agent, app, EnablePhase::LinkingRecent), rep2, effect(links, req), (fuel - 1) as nat, enabled_goal(agent, app, fresh)) by {
        enable_linking_recent(agent, app, effect(links, req), t0, fresh, rep2, (fuel - 1) as nat);
    }
}

proof fn enable_enabled_links(agent: Seq<char>, app: Seq<char>, links: LinkSet, t0: Seq<char>, fresh: bool, rep: ReplyView, fuel: nat)
    requires
        links.contains((agent, t0, LinkTag::VerifiedHost)),
        fresh ==> not_yet_enabled(links, agent, app),
        answers(links, RequestView::GetLinks { base: agent, tag: LinkTag::AppsEnabled }, rep),
        fuel >= 9,
    ensures
        leads_to(enable_procedure(), enabling(agent, app, EnablePhase::EnabledLinks), rep, links, fuel, enabled_goal(agent, app, fresh)),
{
    let req = RequestView::LinkEntriesBidir { base: app, target: agent, tag: LinkTag::HostEnabled, back_tag: LinkTag::AppsEnabled };
    assert forall|rep2: ReplyView| #[trigger] answers(links, req, rep2) implies leads_to(
        enable_procedure(), enabling(agent, app, EnablePhase::LinkingBoth), rep2, effect(links, req), (fuel - 1) as nat, enabled_goal(agent, app, fresh)) by {
        enable_linking_both(agent, app, effect(links, req), t0, fresh, rep2, (fuel - 1) as nat);
    }
    if let ReplyView::Links(l) = rep {
        if l.contains(app) {
            let i = choose|i: int| 0 <= i < l.len() && l[i] == app;
            assert(links.contains((agent, l[i], LinkTag::AppsEnabled)));
        }
    }
}

proof fn enable_host_check(agent: Seq<char>, app: Seq<char>, links: LinkSet, t0: Seq<char>, fresh: bool, rep: ReplyView, fuel: nat)
    requires
        links.contains((agent, t0, LinkTag::VerifiedHost)),
        fresh ==> not_yet_enabled(links, agent, app),
        answers(links, registration_request(agent), rep),
        fuel >= 10,
    ensures
        leads_to(enable_procedure(), enabling(agent, app, EnablePhase::HostCheck), rep, links, fuel, enabled_goal(agent, app, fresh)),
{
    let req = RequestView::GetLinks { base: agent, tag: LinkTag::AppsEnabled };
    assert forall|rep2: ReplyView| #[trigger] answers(links, req, rep2) implies leads_to(
        enable_procedure(), enabling(agent, app, EnablePhase::EnabledLinks), rep2, effect(links, req), (fuel - 1) as nat, enabled_goal(agent, app, fresh)) by {
        enable_enabled_links(agent, app, effect(links, req), t0, fresh, rep2, (fuel - 1) as nat);
    }
    if let ReplyView::Links(l) = rep {
        assert(l.contains(t0));
    }
}

/// Law: enabling an app on a registered host succeeds, and afterwards the DHT holds the
/// host's `apps_enabled` link to the app, so that `is_enabled` answers `true`. This holds
/// for every order in which the DHT lists links and whatever links it held before.
pub proof fn enabling_enables(agent: Seq<char>, app: Seq<char>, links: LinkSet)
    requires
        registered(links, agent),
    ensures
        leads_to(enable_procedure(), enabling(agent, app, EnablePhase::Start), ReplyView::Done, links, 11, enabled_goal(agent, app, false)),
{
    enabling_from_start(agent, app, links, false);
}

pub(crate) proof fn enabling_from_start(agent: Seq<char>, app: Seq<char>, links: LinkSet, fresh: bool)
    requires
        registered(links, agent),
        fresh ==> not_yet_enabled(links, agent, app),
    ensures
        leads_to(enable_procedure(), enabling(agent, app, EnablePhase::Start), ReplyView::Done, links, 11, enabled_goal(agent, app, fresh)),
{
    let t0 = choose|t: Seq<char>| links.contains((agent, t, LinkTag::VerifiedHost));
    let req = registration_request(agent);
    assert forall|rep2: ReplyView| #[trigger] answers(links, req, rep2) implies leads_to(
        enable_procedure(), enabling(agent, app, EnablePhase::HostCheck), rep2, effect(links, req), 10, enabled_goal(agent, app, fresh)) by {
        enable_host_check(agent, app, effect(links, req), t0, fresh, rep2, 10);
    }
}

pub open spec fn disable_procedure() -> spec_fn(DisableAppView, ReplyView) -> (DisableAppView, StepView<()>) {
    |s: DisableAppView, r: ReplyView| disable_app_next(s, r)
}

pub open spec fn disabled_goal(agent: Seq<char>, app: Seq<char>) -> spec_fn(Result<(), HostErrorView>, LinkSet) -> bool {
    |r: Result<(), HostErrorView>, l: LinkSet|
        r == Ok::<(), HostErrorView>(()) && !l.contains((agent, app, LinkTag::AppsEnabled))
            && l.contains((app, agent, LinkTag::RecentlyDisabledApp)) && registered(l, agent)
}

pub open spec fn disabling(agent: Seq<char>, app: Seq<char>, phase: DisablePhase) -> DisableAppView {
    DisableAppView { phase, agent, app_hash: app }
}

/// How a host's links to an app stand after `enable_app` linked them.
pub open spec fn enabled_by_links(links: LinkSet, agent: Seq<char>, app: Seq<char>) -> bool {
    &&& links.contains((agent, app, LinkTag::AppsEnabled))
    &&& links.contains((app, agent, LinkTag::HostEnabled))
    &&& !links.contains((agent, app, LinkTag::HostEnabled))
}

proof fn disable_linking(agent: Seq<char>, app: Seq<char>, links: LinkSet, t0: Seq<char>, rep: ReplyView, fuel: nat)
    requires
        links.contains((agent, t0, LinkTag::VerifiedHost)),
        !links.contains((agent, app, LinkTag::AppsEnabled)),
        links.contains((app, agent, LinkTag::RecentlyDisabledApp)),
    ensures
        leads_to(disable_procedure(), disabling(agent, app, DisablePhase::LinkingDisabled), rep, links, fuel, disabled_goal(agent, app)),
{
}

proof fn disable_removing_pending(agent: Seq<char>, app: Seq<char>, links: LinkSet, t0: Seq<char>, rep: ReplyView, fuel: nat)
    requires
        links.contains((agent, t0, LinkTag::VerifiedHost)),
        !links.contains((agent, app, LinkTag::AppsEnabled)),
        fuel >= 1,
    ensures
        leads_to(disable_procedure(), disabling(agent, app, DisablePhase::ProbeRemoving(DisableProbe::PendingEnabled)), rep, links, fuel, disabled_goal(agent, app)),
{
    let req = RequestView::LinkEntries { base: app, target: agent, tag: LinkTag::RecentlyDisabledApp };
    assert forall|rep2: ReplyView| #[trigger] answers(links, req, rep2) implies leads_to(
        disable_procedure(), disabling(agent, app, DisablePhase::LinkingDisabled), rep2, effect(links, req), (fuel - 1) as nat, disabled_goal(agent, app)) by {
        disable_linking(agent, app, effect(links, req), t0, rep2, (fuel - 1) as nat);
    }
}

proof fn disable_pending_links(agent: Seq<char>, app: Seq<char>, links: LinkSet, t0: Seq<char>, rep: ReplyView, fuel: nat)
    requires
        links.contains((agent, t0, LinkTag::VerifiedHost)),
        !links.contains((agent, app, LinkTag::AppsEnabled)),
        answers(links, RequestView::GetLinks { base: agent, tag: LinkTag::NeedUpdatesEnabled }, rep),
        fuel >= 2,
    ensures
        leads_to(disable_procedure(), disabling(agent, app, DisablePhase::ProbeLinks(DisableProbe::PendingEnabled)), rep, links, fuel, disabled_goal(agent, app)),
{
    let rm = RequestView::RemoveLink { base: app, target: agent, tag: LinkTag::NeedUpdatesEnabled };
    assert forall|rep2: ReplyView| #[trigger] answers(links, rm, rep2) implies leads_to(
        disable_procedure(), disabling(agent, app, DisablePhase::ProbeRemoving(DisableProbe::PendingEnabled)), rep2, effect(links, rm), (fuel - 1) as nat, disabled_goal(agent, app)) by {
        disable_removing_pending(agent, app, effect(links, rm), t0, rep2, (fuel - 1) as nat);
    }
    let req = RequestView::LinkEntries { base: app, target: agent, tag: LinkTag::RecentlyDisabledApp };
    assert forall|rep2: ReplyView| #[trigger] answers(links, req, rep2) implies leads_to(
        disable_procedure(), disabling(agent, app, DisablePhase::LinkingDisabled), rep2, effect(links, req), (fuel - 1) as nat, disabled_goal(agent, app)) by {
        disable_linking(agent, app, effect(links, req), t0, rep2, (fuel - 1) as nat);
    }
}

proof fn disable_pending_host_check(agent: Seq<char>, app: Seq<char>, links: LinkSet, t0: Seq<char>, rep: ReplyView, fuel: nat)
    requires
        links.contains((agent, t0, LinkTag::VerifiedHost)),
        !links.contains((agent, app, LinkTag::AppsEnabled)),
        answers(links, registration_request(agent), rep),
        fuel >= 3,
    ensures
        leads_to(disable_procedure(), disabling(agent, app, DisablePhase::ProbeHostCheck(DisableProbe::PendingEnabled)), rep, links, fuel, disabled_goal(agent, app)),
{
    let req = RequestView::GetLinks { base: agent, tag: LinkTag::NeedUpdatesEnabled };
    assert forall|rep2: ReplyView| #[trigger] answers(links, req, rep2) implies leads_to(
        disable_procedure(), disabling(agent, app, DisablePhase::ProbeLinks(DisableProbe::PendingEnabled)), rep2, effect(links, req), (fuel - 1) as nat, disabled_goal(agent, app)) by {
        disable_pending_links(agent, app, effect(links, req), t0, rep2, (fuel - 1) as nat);
    }
    if let ReplyView::Links(l) = rep {
        assert(l.contains(t0));
    }
}

proof fn disable_removing_recent(agent: Seq<char>, app: Seq<char>, links: LinkSet, t0: Seq<char>, rep: ReplyView, fuel: nat)
    requires
        links.contains((agent, t0, LinkTag::VerifiedHost)),
        !links.contains((agent, app, LinkTag::AppsEnabled)),
        fuel >= 4,
    ensures
        leads_to(disable_procedure(), disabling(agent, app, DisablePhase::ProbeRemoving(DisableProbe::RecentlyEnabled)), rep, links, fuel, disabled_goal(agent, app)),
{
    let req = registration_request(agent);
    assert forall|rep2: ReplyView| #[trigger] answers(links, req, rep2) implies leads_to(
        disable_procedure(), disabling(agent, app, DisablePhase::ProbeHostCheck(DisableProbe::PendingEnabled)), rep2, effect(links, req), (fuel - 1) as nat, disabled_goal(agent, app)) by {
        disable_pending_host_check(agent, app, effect(links, req), t0, rep2, (fuel - 1) as nat);
    }
}

proof fn disable_recent_links(agent: Seq<char>, app: Seq<char>, links: LinkSet, t0: Seq<char>, rep: ReplyView, fuel: nat)
    requires
        links.contains((agent, t0, LinkTag::VerifiedHost)),
        !links.contains((agent, app, LinkTag::AppsEnabled)),
        answers(links, RequestView::GetLinks { base: agent, tag: LinkTag::RecentlyEnabledApp }, rep),
        fuel >= 5,
    ensures
        leads_to(disable_procedure(), disabling(agent, app, DisablePhase::ProbeLinks(DisableProbe::RecentlyEnabled)), rep, links, fuel, disabled_goal(agent, app)),
{
    let rm = RequestView::RemoveLink { base: app, target: agent, tag: LinkTag::RecentlyEnabledApp };
    assert forall|rep2: ReplyView| #[trigger] answers(links, rm, rep2) implies leads_to(
        disable_procedure(), disabling(agent, app, DisablePhase::ProbeRemoving(DisableProbe::RecentlyEnabled)), rep2, effect(links, rm), (fuel - 1) as nat, disabled_goal(agent, app)) by {
        disable_removing_recent(agent, app, effect(links, rm), t0, rep2, (fuel - 1) as nat);
    }
    let req = registration_request(agent);
    assert forall|rep2: ReplyView| #[trigger] answers(links, req, rep2) implies leads_to(
        disable_procedure(), disabling(agent, app, DisablePhase::ProbeHostCheck(DisableProbe::PendingEnabled)), rep2, effect(links, req), (fuel - 1) as nat, disabled_goal(agent, app)) by {
        disable_pending_host_check(agent, app, effect(links, req), t0, rep2, (fuel - 1) as nat);
    }
}

proof fn disable_recent_host_check(agent: Seq<char>, app: Seq<char>, links: LinkSet, t0: Seq<char>, rep: ReplyView, fuel: nat)
    requires
        links.contains((agent, t0, LinkTag::VerifiedHost)),
        !links.contains((agent, app, LinkTag::AppsEnabled)),
        answers(links, registration_request(agent), rep),
        fuel >= 6,
    ensures
        leads_to(disable_procedure(), disabling(agent, app, DisablePhase::ProbeHostCheck(DisableProbe::RecentlyEnabled)), rep, links, fuel, disabled_goal(agent, app)),
{
    let req = RequestView::GetLinks { base: agent, tag: LinkTag::RecentlyEnabledApp };
    assert forall|rep2: ReplyView| #[trigger] answers(links, req, rep2) implies leads_to(
        disable_procedure(), disabling(agent, app, DisablePhase::ProbeLinks(DisableProbe::RecentlyEnabled)), rep2, effect(links, req), (fuel - 1) as nat, disabled_goal(agent, app)) by {
        disable_recent_links(agent, app, effect(links, req), t0, rep2, (fuel - 1) as nat);
    }
    if let ReplyView::Links(l) = rep {
        assert(l.contains(t0));
    }
}

proof fn disable_removing_apps_enabled(agent: Seq<char>, app: Seq<char>, links: LinkSet, t0: Seq<char>, rep: ReplyView, fuel: nat)
    requires
        links.contains((agent, t0, LinkTag::VerifiedHost)),
        !links.contains((agent, app, LinkTag::AppsEnabled)),
        fuel >= 7,
    ensures
        leads_to(disable_procedure(), disabling(agent, app, DisablePhase::ProbeRemoving(DisableProbe::HostEnabledOfApp)), rep, links, fuel, disabled_goal(agent, app)),
{
    let req = registration_request(agent);
    assert forall|rep2: ReplyView| #[trigger] answers(links, req, rep2) implies leads_to(
        disable_procedure(), disabling(agent, app, DisablePhase::ProbeHostCheck(DisableProbe::RecentlyEnabled)), rep2, effect(links, req), (fuel - 1) as nat, disabled_goal(agent, app)) by {
        disable_recent_host_check(agent, app, effect(links, req), t0, rep2, (fuel - 1) as nat);
    }
}

proof fn disable_app_host_links(agent: Seq<char>, app: Seq<char>, links: LinkSet, t0: Seq<char>, rep: ReplyView, fuel: nat)
    requires
        links.contains((agent, t0, LinkTag::VerifiedHost)),
        links.contains((app, agent, LinkTag::HostEnabled)),
        answers(links, RequestView::GetLinks { base: app, tag: LinkTag::HostEnabled }, rep),
        fuel >= 8,
    ensures
        leads_to(disable_procedure(), disabling(agent, app, DisablePhase::ProbeLinks(DisableProbe::HostEnabledOfApp)), rep, links, fuel, disabled_goal(agent, app)),
{
    let req = RequestView::RemoveLink { base: agent, target: app, tag: LinkTag::AppsEnabled };
    assert forall|rep2: ReplyView| #[trigger] answers(links, req, rep2) implies leads_to(
        disable_procedure(), disabling(agent, app, DisablePhase::ProbeRemoving(DisableProbe::HostEnabledOfApp)), rep2, effect(links, req), (fuel - 1) as nat, disabled_goal(agent, app)) by {
        disable_removing_apps_enabled(agent, app, effect(links, req), t0, rep2, (fuel - 1) as nat);
    }
    if let ReplyView::Links(l) = rep {
        assert(l.contains(agent));
    }
}

proof fn disable_app_host_check(agent: Seq<char>, app: Seq<char>, links: LinkSet, t0: Seq<char>, rep: ReplyView, fuel: nat)
    requires
        links.contains((agent, t0, LinkTag::VerifiedHost)),
        links.contains((app, agent, LinkTag::HostEnabled)),
        answers(links, registration_request(agent), rep),
        fuel >= 9,
    ensures
        leads_to(disable_procedure(), disabling(agent, app, DisablePhase::ProbeHostCheck(DisableProbe::HostEnabledOfApp)), rep, links, fuel, disabled_goal(agent, app)),
{
    let req = RequestView::GetLinks { base: app, tag: LinkTag::HostEnabled };
    assert forall|rep2: ReplyView| #[trigger] answers(links, req, rep2) implies leads_to(
        disable_procedure(), disabling(agent, app, DisablePhase::ProbeLinks(DisableProbe::HostEnabledOfApp)), rep2, effect(links, req), (fuel - 1) as nat, disabled_goal(agent, app)) by {
        disable_app_host_links(agent, app, effect(links, req), t0, rep2, (fuel - 1) as nat);
    }
    if let ReplyView::Links(l) = rep {
        assert(l.contains(t0));
    }
}

proof fn disable_agent_host_links(agent: Seq<char>, app: Seq<char>, links: LinkSet, t0: Seq<char>, rep: ReplyView, fuel: nat)
    requires
        links.contains((agent, t0, LinkTag::VerifiedHost)),
        enabled_by_links(links, agent, app),
        answers(links, RequestView::GetLinks { base: agent, tag: LinkTag::HostEnabled }, rep),
        fuel >= 10,
    ensures
        leads_to(disable_procedure(), disabling(agent, app, DisablePhase::ProbeLinks(DisableProbe::HostEnabledOfAgent)), rep, links, fuel, disabled_goal(agent, app)),
{
    let req = registration_request(agent);
    assert forall|rep2: ReplyView| #[trigger] answers(links, req, rep2) implies leads_to(
        disable_procedure(), disabling(agent, app, DisablePhase::ProbeHostCheck(DisableProbe::HostEnabledOfApp)), rep2, effect(links, req), (fuel - 1) as nat, disabled_goal(agent, app)) by {
        disable_app_host_check(agent, app, effect(links, req), t0, rep2, (fuel - 1) as nat);
    }
    if let ReplyView::Links(l) = rep {
        if l.contains(app) {
            let i = choose|i: int| 0 <= i < l.len() && l[i] == app;
            assert(links.contains((agent, l[i], LinkTag::HostEnabled)));
        }
    }
}

proof fn disable_agent_host_check(agent: Seq<char>, app: Seq<char>, links: LinkSet, t0: Seq<char>, rep: ReplyView, fuel: nat)
    requires
        links.contains((agent, t0, LinkTag::VerifiedHost)),
        enabled_by_links(links, agent, app),
        answers(links, registration_request(agent), rep),
        fuel >= 11,
    ensures
        leads_to(disable_procedure(), disabling(agent, app, DisablePhase::ProbeHostCheck(DisableProbe::HostEnabledOfAgent)), rep, links, fuel, disabled_goal(agent, app)),
{
    let req = RequestView::GetLinks { base: agent, tag: LinkTag::HostEnabled };
    assert forall|rep2: ReplyView| #[trigger] answers(links, req, rep2) implies leads_to(
        disable_procedure(), disabling(agent, app, DisablePhase::ProbeLinks(DisableProbe::HostEnabledOfAgent)), rep2, effect(links, req), (fuel - 1) as nat, disabled_goal(agent, app)) by {
        disable_agent_host_links(agent, app, effect(links, req), t0, rep2, (fuel - 1) as nat);
    }
    if let ReplyView::Links(l) = rep {
        assert(l.contains(t0));
    }
}

proof fn disable_enabled_links(agent: Seq<char>, app: Seq<char>, links: LinkSet, t0: Seq<char>, rep: ReplyView, fuel: nat)
    requires
        links.contains((agent, t0, LinkTag::VerifiedHost)),
        enabled_by_links(links, agent, app),
        answers(links, RequestView::GetLinks { base: agent, tag: LinkTag::AppsEnabled }, rep),
        fuel >= 12,
    ensures
        leads_to(disable_procedure(), disabling(agent, app, DisablePhase::EnabledLinks), rep, links, fuel, disabled_goal(agent, app)),
{
    let req = registration_request(agent);
    assert forall|rep2: ReplyView| #[trigger] answers(links, req, rep2) implies leads_to(
        disable_procedure(), disabling(agent, app, DisablePhase::ProbeHostCheck(DisableProbe::HostEnabledOfAgent)), rep2, effect(links, req), (fuel - 1) as nat, disabled_goal(agent, app)) by {
        disable_agent_host_check(agent, app, effect(links, req), t0, rep2, (fuel - 1) as nat);
    }
    if let ReplyView::Links(l) = rep {
        assert(l.contains(app));
    }
}

proof fn disable_host_check(agent: Seq<char>, app: Seq<char>, links: LinkSet, t0: Seq<char>, rep: ReplyView, fuel: nat)
    requires
        links.contains((agent, t0, LinkTag::VerifiedHost)),
        enabled_by_links(links, agent, app),
        answers(links, registration_request(agent), rep),
        fuel >= 13,
    ensures
        leads_to(disable_procedure(), disabling(agent, app, DisablePhase::HostCheck), rep, links, fuel, disabled_goal(agent, app)),
{
    let req = RequestView::GetLinks { base: agent, tag: LinkTag::AppsEnabled };
    assert forall|rep2: ReplyView| #[trigger] answers(links, req, rep2) implies leads_to(
        disable_procedure(), disabling(agent, app, DisablePhase::EnabledLinks), rep2, effect(links, req), (fuel - 1) as nat, disabled_goal(agent, app)) by {
        disable_enabled_links(agent, app, effect(links, req), t0, rep2, (fuel - 1) as nat);
    }
    if let ReplyView::Links(l) = rep {
        assert(l.contains(t0));
    }
}

/// Law: disabling an app that a registered host enabled (its `apps_enabled` link to the
/// app and the app's `host_enabled` link back, and no `host_enabled` link from the
/// agent to the app) succeeds; afterwards the host's `apps_enabled` links no longer
/// list the app, so that `is_enabled` answers `false`, and the app is linked to the
/// host as recently disabled.
pub proof fn disabling_disables(agent: Seq<char>, app: Seq<char>, links: LinkSet)
    requires
        registered(links, agent),
        enabled_by_links(links, agent, app),
    ensures
        leads_to(disable_procedure(), disabling(agent, app, DisablePhase::Start), ReplyView::Done, links, 14, disabled_goal(agent, app)),
{
    let t0 = choose|t: Seq<char>| links.contains((agent, t, LinkTag::VerifiedHost));
    let req = registration_request(agent);
    assert forall|rep2: ReplyView| #[trigger] answers(links, req, rep2) implies leads_to(
        disable_procedure(), disabling(agent, app, DisablePhase::HostCheck), rep2, effect(links, req), 13, disabled_goal(agent, app)) by {
        disable_host_check(agent, app, effect(links, req), t0, rep2, 13);
    }
}

/// Law: enabling an app that a registered host had not enabled, then disabling it,
/// succeeds both times and leaves the app not enabled (`is_enabled` answers `false`)
/// and marked as recently disabled.
pub proof fn enable_then_disable(agent: Seq<char>, app: Seq<char>, links: LinkSet)
    requires
        registered(links, agent),
        not_yet_enabled(links, agent, app),
    ensures
        leads_to(
            enable_procedure(),
            enabling(agent, app, EnablePhase::Start),
            ReplyView::Done,
            links,
            11,
            |r: Result<(), HostErrorView>, l: LinkSet|
                r == Ok::<(), HostErrorView>(()) && leads_to(
                    disable_procedure(),
                    disabling(agent, app, DisablePhase::Start),
                    ReplyView::Done,
                    l,
                    14,
                    disabled_goal(agent, app),
                ),
        ),
{
    enabling_from_start(agent, app, links, true);
    let goal2 = |r: Result<(), HostErrorView>, l: LinkSet|
        r == Ok::<(), HostErrorView>(()) && leads_to(
            disable_procedure(),
            disabling(agent, app, DisablePhase::Start),
            ReplyView::Done,
            l,
            14,
            disabled_goal(agent, app),
        );
    assert forall|r: Result<(), HostErrorView>, l: LinkSet| enabled_goal(agent, app, true)(r, l) implies #[trigger] goal2(r, l) by {
        disabling_disables(agent, app, l);
    }
    lemma_leads_to_weaken(
        enable_procedure(),
        enabling(agent, app, EnablePhase::Start),
        ReplyView::Done,
        links,
        11,
        enabled_goal(agent, app, true),
        goal2,
    );
}

/// Law: enabling an app that the host's `apps_enabled` links already list succeeds and
/// changes nothing.
pub proof fn enabling_is_idempotent(agent: Seq<char>, app: Seq<char>, links: LinkSet)
    requires
        registered(links, agent),
        links.contains((agent, app, LinkTag::AppsEnabled)),
    ensures
        leads_to(enable_procedure(), enabling(agent, app, EnablePhase::Start), ReplyView::Done, links, 2, unchanged_goal(links)),
{
    let t0 = choose|t: Seq<char>| links.contains((agent, t, LinkTag::VerifiedHost));
    let q = RequestView::GetLinks { base: agent, tag: LinkTag::AppsEnabled };
    assert forall|rep: ReplyView| #[trigger] answers(links, registration_request(agent), rep) implies leads_to(
        enable_procedure(), enabling(agent, app, EnablePhase::HostCheck), rep, links, 1, unchanged_goal(links)) by {
        if let ReplyView::Links(l) = rep {
            assert(l.contains(t0));
        }
        assert forall|rep2: ReplyView| #[trigger] answers(links, q, rep2) implies leads_to(
            enable_procedure(), enabling(agent, app, EnablePhase::EnabledLinks), rep2, links, 0, unchanged_goal(links)) by {
            if let ReplyView::Links(l2) = rep2 {
                assert(l2.contains(app));
            }
        }
    }
}

/// Law: disabling an app that the host's `apps_enabled` links do not list succeeds and
/// changes nothing.
pub proof fn disabling_not_enabled_changes_nothing(agent: Seq<char>, app: Seq<char>, links: LinkSet)
    requires
        registered(links, agent),
        !links.contains((agent, app, LinkTag::AppsEnabled)),
    ensures
        leads_to(disable_procedure(), disabling(agent, app, DisablePhase::Start), ReplyView::Done, links, 2, unchanged_goal(links)),
{
    let t0 = choose|t: Seq<char>| links.contains((agent, t, LinkTag::VerifiedHost));
    let q = RequestView::GetLinks { base: agent, tag: LinkTag::AppsEnabled };
    assert forall|rep: ReplyView| #[trigger] answers(links, registration_request(agent), rep) implies leads_to(
        disable_procedure(), disabling(agent, app, DisablePhase::HostCheck), rep, links, 1, unchanged_goal(links)) by {
        if let ReplyView::Links(l) = rep {
            assert(l.contains(t0));
        }
        assert forall|rep2: ReplyView| #[trigger] answers(links, q, rep2) implies leads_to(
            disable_procedure(), disabling(agent, app, DisablePhase::EnabledLinks), rep2, links, 0, unchanged_goal(links)) by {
            if let ReplyView::Links(l2) = rep2 {
                if l2.contains(app) {
                    let i = choose|i: int| 0 <= i < l2.len() && l2[i] == app;
                    assert(links.contains((agent, l2[i], LinkTag::AppsEnabled)));
                }
            }
        }
    }
}

} // verus!
