//! Laws of what whole runs of the procedures answer: the requests they make, in
//! order, and the result they end with, as functions of the answers they are handed.

use vstd::prelude::*;
use crate::dht::{answers, feed, lemma_feed_one, lemma_feed_push, LinkSet, LinkTag, ReplyView, RequestView, StepView};
use crate::host::{check_link_exists_result, registration_request, AllAppsView};
use crate::apps::{AllAppsPhase, EnabledListPhase, GetAllAppsView, GetEnabledAppListView};
use crate::app_config::LoadedAppConfigView;
use crate::service_log::{AccountLookupPhase, PaymentAccountLookupView};
use crate::error::HostErrorView;
use crate::laws::common::registered;
use crate::laws::listing::{all_apps_procedure, enabled_list_procedure, enabled_list_start};
use crate::laws::composed::account_lookup_procedure;
use crate::laws::key_value::{all_agents, cur_list};
use crate::kv::{kv_updates_next, KvPhase, KvUpdatesView};
use crate::host::{fold_agent_keys, App2HostView};
use crate::dht::LoadedEntryView;

verus! {

// ---------------------------------------------------------------------
// Listing the apps that a host enabled
// ---------------------------------------------------------------------

/// Law: the listing of a registered host's enabled apps asks whether the agent is a
/// host, then loads the app configurations at the agent's `apps_enabled` links, and
/// ends with exactly the configurations loaded: all of them, in the order loaded. An
/// agent with no `verified_host_tag` link is refused.
pub proof fn enabled_list_gives_all_it_loaded(agent: Seq<char>, regs: Seq<Seq<char>>, c: Seq<LoadedAppConfigView>)
    ensures
        feed(enabled_list_procedure(), enabled_list_start(agent), seq![ReplyView::Done]).1
            == StepView::<Seq<LoadedAppConfigView>>::Perform(registration_request(agent)),
        regs.len() > 0 ==> feed(enabled_list_procedure(), enabled_list_start(agent), seq![ReplyView::Done, ReplyView::Links(regs)]).1
            == StepView::<Seq<LoadedAppConfigView>>::Perform(RequestView::LoadAppConfigs { base: agent, tag: LinkTag::AppsEnabled }),
        regs.len() > 0 ==> feed(
            enabled_list_procedure(),
            enabled_list_start(agent),
            seq![ReplyView::Done, ReplyView::Links(regs), ReplyView::AppConfigs(c)],
        ).1 == StepView::<Seq<LoadedAppConfigView>>::Finish(Ok(c)),
        regs.len() == 0 ==> feed(enabled_list_procedure(), enabled_list_start(agent), seq![ReplyView::Done, ReplyView::Links(regs)]).1
            == StepView::<Seq<LoadedAppConfigView>>::Finish(Err(HostErrorView::NotAHost)),
{
    let p = enabled_list_procedure();
    let s0 = enabled_list_start(agent);
    let r1 = seq![ReplyView::Done];
    let r2 = r1.push(ReplyView::Links(regs));
    let r3 = r2.push(ReplyView::AppConfigs(c));
    lemma_feed_one(p, s0, ReplyView::Done);
    lemma_feed_push(p, s0, r1, ReplyView::Links(regs));
    lemma_feed_push(p, s0, r2, ReplyView::AppConfigs(c));
    assert(r2 =~= seq![ReplyView::Done, ReplyView::Links(regs)]);
    assert(r3 =~= seq![ReplyView::Done, ReplyView::Links(regs), ReplyView::AppConfigs(c)]);
}

// ---------------------------------------------------------------------
// Listing all apps
// ---------------------------------------------------------------------

/// The answers of the provider zome, one for each app asked for.
pub open spec fn details_replies(ds: Seq<Seq<char>>) -> Seq<ReplyView> {
    ds.map_values(|d: Seq<char>| ReplyView::Details(d))
}

/// Each of the first `ds.len()` apps with the details given for it.
pub open spec fn with_details(apps: Seq<Seq<char>>, ds: Seq<Seq<char>>) -> Seq<AllAppsView> {
    Seq::new(ds.len(), |i: int| AllAppsView { hash: apps[i], details: ds[i] })
}

/// The answers before the details: the agent's registrations, the anchor's address,
/// and the apps linked from it.
pub open spec fn listing_prefix(regs: Seq<Seq<char>>, a: Seq<char>, apps: Seq<Seq<char>>) -> Seq<ReplyView> {
    seq![ReplyView::Done, ReplyView::Links(regs), ReplyView::Address(a), ReplyView::Links(apps)]
}

pub open spec fn listing_start(agent: Seq<char>) -> GetAllAppsView {
    GetAllAppsView { phase: AllAppsPhase::Start, agent, apps: seq![], listed: seq![] }
}

/// Where the listing stands once the details of the first `k` apps came.
proof fn lemma_listing_after_details(agent: Seq<char>, regs: Seq<Seq<char>>, a: Seq<char>, apps: Seq<Seq<char>>, ds: Seq<Seq<char>>, k: int)
    requires
        regs.len() > 0,
        ds.len() == apps.len(),
        0 <= k < apps.len(),
    ensures
        feed(all_apps_procedure(), listing_start(agent), listing_prefix(regs, a, apps) + details_replies(ds.take(k)))
            == (GetAllAppsView { phase: AllAppsPhase::Details, agent, apps, listed: with_details(apps, ds.take(k)) },
            StepView::<Seq<AllAppsView>>::Perform(RequestView::GetAppDetails { app_hash: apps[k] })),
    decreases k,
{
    let p = all_apps_procedure();
    let s0 = listing_start(agent);
    let pre = listing_prefix(regs, a, apps);
    if k == 0 {
        assert(details_replies(ds.take(0)) =~= Seq::<ReplyView>::empty());
        assert(pre + details_replies(ds.take(0)) =~= pre);
        let r1 = seq![ReplyView::Done];
        let r2 = r1.push(ReplyView::Links(regs));
        let r3 = r2.push(ReplyView::Address(a));
        let r4 = r3.push(ReplyView::Links(apps));
        lemma_feed_one(p, s0, ReplyView::Done);
        lemma_feed_push(p, s0, r1, ReplyView::Links(regs));
        lemma_feed_push(p, s0, r2, ReplyView::Address(a));
        lemma_feed_push(p, s0, r3, ReplyView::Links(apps));
        assert(r4 =~= pre);
        assert(with_details(apps, ds.take(0)) =~= Seq::<AllAppsView>::empty());
    } else {
        lemma_listing_after_details(agent, regs, a, apps, ds, k - 1);
        let before = pre + details_replies(ds.take(k - 1));
        assert(pre + details_replies(ds.take(k)) =~= before.push(ReplyView::Details(ds[k - 1])));
        lemma_feed_push(p, s0, before, ReplyView::Details(ds[k - 1]));
        let listed = with_details(apps, ds.take(k - 1));
        assert(listed.push(AllAppsView { hash: apps[k - 1], details: ds[k - 1] }) =~= with_details(apps, ds.take(k)));
    }
}

/// Law: the listing of all apps for a registered host asks whether the agent is a
/// host, commits the anchor, reads the apps linked from the anchor's address, then asks
/// the provider zome for the details of each app in the order read, the `k`-th request
/// for the `k`-th app; it ends with every app paired with the details given for it.
pub proof fn listing_pairs_each_app_with_its_details(
    agent: Seq<char>,
    regs: Seq<Seq<char>>,
    a: Seq<char>,
    apps: Seq<Seq<char>>,
    ds: Seq<Seq<char>>,
)
    requires
        regs.len() > 0,
        ds.len() == apps.len(),
    ensures
        feed(all_apps_procedure(), listing_start(agent), seq![ReplyView::Done, ReplyView::Links(regs)]).1
            == StepView::<Seq<AllAppsView>>::Perform(RequestView::CommitAllAppsAnchor),
        feed(all_apps_procedure(), listing_start(agent), seq![ReplyView::Done, ReplyView::Links(regs), ReplyView::Address(a)]).1
            == StepView::<Seq<AllAppsView>>::Perform(RequestView::GetLinks { base: a, tag: LinkTag::AllApps }),
        forall|k: int| 0 <= k < apps.len() ==> #[trigger] feed(
            all_apps_procedure(),
            listing_start(agent),
            listing_prefix(regs, a, apps) + details_replies(ds.take(k)),
        ).1 == StepView::<Seq<AllAppsView>>::Perform(RequestView::GetAppDetails { app_hash: apps[k] }),
        feed(all_apps_procedure(), listing_start(agent), listing_prefix(regs, a, apps) + details_replies(ds)).1
            == StepView::<Seq<AllAppsView>>::Finish(Ok(with_details(apps, ds))),
{
    let p = all_apps_procedure();
    let s0 = listing_start(agent);
    let pre = listing_prefix(regs, a, apps);
    let r1 = seq![ReplyView::Done];
    let r2 = r1.push(ReplyView::Links(regs));
    let r3 = r2.push(ReplyView::Address(a));
    let r4 = r3.push(ReplyView::Links(apps));
    lemma_feed_one(p, s0, ReplyView::Done);
    lemma_feed_push(p, s0, r1, ReplyView::Links(regs));
    lemma_feed_push(p, s0, r2, ReplyView::Address(a));
    lemma_feed_push(p, s0, r3, ReplyView::Links(apps));
    assert(r2 =~= seq![ReplyView::Done, ReplyView::Links(regs)]);
    assert(r3 =~= seq![ReplyView::Done, ReplyView::Links(regs), ReplyView::Address(a)]);
    assert(r4 =~= pre);
    assert forall|k: int| 0 <= k < apps.len() implies #[trigger] feed(p, s0, pre + details_replies(ds.take(k))).1
        == StepView::<Seq<AllAppsView>>::Perform(RequestView::GetAppDetails { app_hash: apps[k] }) by {
        lemma_listing_after_details(agent, regs, a, apps, ds, k);
    }
    if apps.len() == 0 {
        assert(details_replies(ds) =~= Seq::<ReplyView>::empty());
        assert(pre + details_replies(ds) =~= pre);
        assert(with_details(apps, ds) =~= Seq::<AllAppsView>::empty());
    } else {
        let n = apps.len() - 1;
        lemma_listing_after_details(agent, regs, a, apps, ds, n);
        let before = pre + details_replies(ds.take(n));
        assert(ds.take(n + 1) =~= ds);
        assert(pre + details_replies(ds) =~= before.push(ReplyView::Details(ds[n])));
        lemma_feed_push(p, s0, before, ReplyView::Details(ds[n]));
        assert(with_details(apps, ds.take(n)).push(AllAppsView { hash: apps[n], details: ds[n] }) =~= with_details(apps, ds));
    }
}

// ---------------------------------------------------------------------
// The account to which a provider is paid
// ---------------------------------------------------------------------

pub open spec fn account_lookup_start(app_hash: Seq<char>) -> PaymentAccountLookupView {
    PaymentAccountLookupView { phase: AccountLookupPhase::Start, app_hash }
}

/// Law: the lookup of the account to which an app's provider is paid looks up the
/// app's entry; for anything but a single entry it ends refused, the provider having
/// no account registered; else it loads the `holofuel_account_details_tag` accounts of
/// the first provenance source of the entry's last header, and ends with the first of
/// them.
pub proof fn lookup_pays_the_first_account(app_hash: Seq<char>, h: Seq<Seq<Seq<char>>>, accounts: Seq<Seq<char>>)
    ensures
        feed(account_lookup_procedure(), account_lookup_start(app_hash), seq![ReplyView::Done]).1
            == StepView::<Seq<char>>::Perform(RequestView::LookupEntry { address: app_hash }),
        feed(account_lookup_procedure(), account_lookup_start(app_hash), seq![ReplyView::Done, ReplyView::Lookup(None)]).1
            == StepView::<Seq<char>>::Finish(Err(HostErrorView::ProviderAccountNotRegistered)),
        feed(account_lookup_procedure(), account_lookup_start(app_hash), seq![ReplyView::Done, ReplyView::Lookup(Some(h))]).1
            == StepView::<Seq<char>>::Perform(RequestView::LoadAccounts { base: h.last()[0], tag: LinkTag::HolofuelAccountDetails }),
        accounts.len() > 0 ==> feed(
            account_lookup_procedure(),
            account_lookup_start(app_hash),
            seq![ReplyView::Done, ReplyView::Lookup(Some(h)), ReplyView::Accounts(accounts)],
        ).1 == StepView::<Seq<char>>::Finish(Ok(accounts[0])),
{
    let p = account_lookup_procedure();
    let s0 = account_lookup_start(app_hash);
    let r1 = seq![ReplyView::Done];
    let rn = r1.push(ReplyView::Lookup(None));
    let r2 = r1.push(ReplyView::Lookup(Some(h)));
    let r3 = r2.push(ReplyView::Accounts(accounts));
    lemma_feed_one(p, s0, ReplyView::Done);
    lemma_feed_push(p, s0, r1, ReplyView::Lookup(None));
    lemma_feed_push(p, s0, r1, ReplyView::Lookup(Some(h)));
    lemma_feed_push(p, s0, r2, ReplyView::Accounts(accounts));
    assert(rn =~= seq![ReplyView::Done, ReplyView::Lookup(None)]);
    assert(r2 =~= seq![ReplyView::Done, ReplyView::Lookup(Some(h))]);
    assert(r3 =~= seq![ReplyView::Done, ReplyView::Lookup(Some(h)), ReplyView::Accounts(accounts)]);
}

// ---------------------------------------------------------------------
// Whether a link exists, and whether an app is enabled
// ---------------------------------------------------------------------

/// Law: `check_link_exists`, and so `is_enabled`, refuses an agent with no
/// `verified_host_tag` link as no host, whatever links it read; for a host it answers
/// whether the target is among the links read.
pub proof fn check_link_exists_refuses_non_hosts(registrations: Seq<Seq<char>>, links: Seq<Seq<char>>, target: Seq<char>)
    ensures
        registrations.len() == 0 ==> check_link_exists_result(registrations, links, target) == Err::<bool, HostErrorView>(
            HostErrorView::NotAHost,
        ),
        registrations.len() > 0 ==> check_link_exists_result(registrations, links, target) == Ok::<bool, HostErrorView>(
            links.contains(target),
        ),
{
}

/// Law: `check_link_exists`, and so `is_enabled`, reads the DHT: for an agent that is
/// not registered as a host, every pair of lists the DHT may give ends in the refusal;
/// for a host, in whether the DHT holds the link.
pub proof fn check_link_exists_answers_as_the_dht(
    links: LinkSet,
    agent: Seq<char>,
    registrations: ReplyView,
    base: Seq<char>,
    tag: LinkTag,
    found: ReplyView,
    target: Seq<char>,
)
    requires
        answers(links, registration_request(agent), registrations),
        answers(links, RequestView::GetLinks { base, tag }, found),
    ensures
        registrations matches ReplyView::Links(r) && found matches ReplyView::Links(l) && check_link_exists_result(r, l, target) == (
        if registered(links, agent) {
            Ok::<bool, HostErrorView>(links.contains((base, target, tag)))
        } else {
            Err::<bool, HostErrorView>(HostErrorView::NotAHost)
        }),
{
    let r = registrations->Links_0;
    let l = found->Links_0;
    if registered(links, agent) {
        let t0 = choose|t: Seq<char>| links.contains((agent, t, LinkTag::VerifiedHost));
        assert(r.contains(t0));
        if l.contains(target) {
            let i = choose|i: int| 0 <= i < l.len() && l[i] == target;
            assert(links.contains((base, l[i], tag)));
        }
    } else if r.len() > 0 {
        assert(links.contains((agent, r[0], LinkTag::VerifiedHost)));
    }
}

// ---------------------------------------------------------------------
// The hosts that the collection reports for an app
// ---------------------------------------------------------------------

/// The keys of agent entries, in order.
pub open spec fn agent_keys(e: Seq<LoadedEntryView>) -> Seq<Seq<char>> {
    e.map_values(|x: LoadedEntryView| x->Agent_0)
}

proof fn lemma_fold_keys(keys: Seq<Seq<char>>, e: Seq<LoadedEntryView>)
    requires
        all_agents(e),
    ensures
        fold_agent_keys(keys, e) == Ok::<Seq<Seq<char>>, HostErrorView>(keys + agent_keys(e)),
    decreases e.len(),
{
    if e.len() == 0 {
        assert(keys + agent_keys(e) =~= keys);
    } else {
        let rest = e.drop_first();
        assert(all_agents(rest)) by {
            assert forall|j: int| 0 <= j < rest.len() implies #[trigger] rest[j] is Agent by {
                assert(rest[j] == e[j + 1]);
            }
        }
        assert(e[0] is Agent);
        lemma_fold_keys(keys.push(e[0]->Agent_0), rest);
        assert(keys.push(e[0]->Agent_0) + agent_keys(rest) =~= keys + agent_keys(e));
    }
}

/// Law: once both loads of an app came, the collection reports for the app the keys of
/// the agent entries at its recent-change links, followed by those at its
/// pending-change links, each in the order loaded; it adds that entry to the round's
/// list and turns to the first of those hosts, checking again that the agent is a host.
pub proof fn collection_reports_loaded_hosts_in_order(s: KvUpdatesView, e: Seq<LoadedEntryView>)
    requires
        s.phase == KvPhase::PendingEntries,
        0 <= s.app_index < s.apps.len(),
        all_agents(s.recent),
        all_agents(e),
        s.recent.len() + e.len() > 0,
    ensures
        kv_updates_next(s, ReplyView::Entries(e)).1 == StepView::<crate::host::DnaToHostView>::Perform(registration_request(s.agent)),
        kv_updates_next(s, ReplyView::Entries(e)).0.hosts == agent_keys(s.recent) + agent_keys(e),
        kv_updates_next(s, ReplyView::Entries(e)).0.host_index == 0,
        cur_list(kv_updates_next(s, ReplyView::Entries(e)).0) == cur_list(s).push(
            App2HostView { app: s.apps[s.app_index], host: agent_keys(s.recent) + agent_keys(e) },
        ),
{
    let all = s.recent + e;
    assert(all_agents(all)) by {
        assert forall|i: int| 0 <= i < all.len() implies #[trigger] all[i] is Agent by {
            if i < s.recent.len() {
                assert(all[i] == s.recent[i]);
            } else {
                assert(all[i] == e[i - s.recent.len()]);
            }
        }
    }
    lemma_fold_keys(seq![], all);
    assert(seq![] + agent_keys(all) =~= agent_keys(s.recent) + agent_keys(e));
}

} // verus!
