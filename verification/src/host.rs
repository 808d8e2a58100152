use vstd::prelude::*;
use crate::dht::{lists, contains_address, LinkTag, LoadedEntry, LoadedEntryView, Request, RequestView};
use crate::error::{HostError, HostErrorView};

verus! {

/// An app that the provider registered, with the details that its provider zome gave.
#[derive(Debug)]
pub struct AllApps {
    pub hash: String,
    pub details: String,
}

pub struct AllAppsView {
    pub hash: Seq<char>,
    pub details: Seq<char>,
}

impl View for AllApps {
    type V = AllAppsView;

    open spec fn view(&self) -> AllAppsView {
        AllAppsView { hash: self.hash@, details: self.details@ }
    }
}

impl DeepView for AllApps {
    type V = AllAppsView;

    open spec fn deep_view(&self) -> AllAppsView {
        self@
    }
}

/// An app with the hosts whose enabling or disabling of it the key-value store has to learn.
#[derive(Debug)]
pub struct App2Host {
    pub app: String,
    pub host: Vec<String>,
}

pub struct App2HostView {
    pub app: Seq<char>,
    pub host: Seq<Seq<char>>,
}

impl View for App2Host {
    type V = App2HostView;

    open spec fn view(&self) -> App2HostView {
        App2HostView { app: self.app@, host: self.host.deep_view() }
    }
}

impl DeepView for App2Host {
    type V = App2HostView;

    open spec fn deep_view(&self) -> App2HostView {
        self@
    }
}

/// The updates that the key-value store collects from the DHT: per app, the hosts
/// that recently enabled it and those that recently disabled it.
#[derive(Debug)]
pub struct DnaToHost {
    pub recently_enabled_apps: Vec<App2Host>,
    pub recently_disabled_apps: Vec<App2Host>,
}

pub struct DnaToHostView {
    pub recently_enabled_apps: Seq<App2HostView>,
    pub recently_disabled_apps: Seq<App2HostView>,
}

impl View for DnaToHost {
    type V = DnaToHostView;

    open spec fn view(&self) -> DnaToHostView {
        DnaToHostView {
            recently_enabled_apps: self.recently_enabled_apps.deep_view(),
            recently_disabled_apps: self.recently_disabled_apps.deep_view(),
        }
    }
}

impl DeepView for DnaToHost {
    type V = DnaToHostView;

    open spec fn deep_view(&self) -> DnaToHostView {
        self@
    }
}

/// The HoloFuel account of an app's provider.
#[derive(Debug)]
pub struct HoloFuelAc {
    pub account_number: String,
}

/// The request by which a procedure reads the agent's `verified_host_tag` links.
pub open spec fn registration_request(agent: Seq<char>) -> RequestView {
    RequestView::GetLinks { base: agent, tag: LinkTag::VerifiedHost }
}

/// The request for the agent's `verified_host_tag` links: whether, and as what, the
/// agent registered as a host.
pub fn handle_is_registered_as_host(agent_address: &String) -> (r: Request)
    ensures
        r@ == registration_request(agent_address@),
{
    Request::GetLinks { base: agent_address.clone(), tag: LinkTag::VerifiedHost }
}

/// The request for the hosts of an app: the entries at the app's `host_enabled` links.
pub fn handle_get_host_for_app(app_hash: &String) -> (r: Request)
    ensures
        r@ == (RequestView::LoadLinks { base: app_hash@, tag: LinkTag::HostEnabled }),
{
    Request::LoadLinks { base: app_hash.clone(), tag: LinkTag::HostEnabled }
}

/// What `validate_host` answers on the agent's `verified_host_tag` links.
pub open spec fn validate_host_result(registrations: Seq<Seq<char>>) -> Result<bool, HostErrorView> {
    if registrations.len() != 0 {
        Ok(true)
    } else {
        Err(HostErrorView::NotAHost)
    }
}

/// Decides whether the agent is a host, from the targets of its `verified_host_tag`
/// links: it is one if it has any; else the zome function is refused.
pub fn validate_host(registrations: &Vec<String>) -> (r: Result<bool, HostError>)
    ensures
        match r {
            Ok(b) => validate_host_result(registrations.deep_view()) == Ok::<bool, HostErrorView>(b),
            Err(e) => validate_host_result(registrations.deep_view()) == Err::<bool, HostErrorView>(e@),
        },
{
    if registrations.len() != 0 {
        Ok(true)
    } else {
        Err(HostError::NotAHost)
    }
}

/// What `check_link_exists` answers, from the agent's registrations and the targets of
/// the links that it read.
pub open spec fn check_link_exists_result(
    registrations: Seq<Seq<char>>,
    links: Seq<Seq<char>>,
    target: Seq<char>,
) -> Result<bool, HostErrorView> {
    if registrations.len() == 0 {
        Err(HostErrorView::NotAHost)
    } else {
        Ok(lists(links, target))
    }
}

/// Decides whether a link to `target` exists, from the agent's `verified_host_tag`
/// links and the targets of the links read: refused for an agent that is no host,
/// else whether `target` is among the targets.
pub fn check_link_exists(registrations: &Vec<String>, links: &Vec<String>, target: &String) -> (r:
    Result<bool, HostError>)
    ensures
        match r {
            Ok(b) => check_link_exists_result(registrations.deep_view(), links.deep_view(), target@)
                == Ok::<bool, HostErrorView>(b),
            Err(e) => check_link_exists_result(registrations.deep_view(), links.deep_view(), target@)
                == Err::<bool, HostErrorView>(e@),
        },
{
    match validate_host(registrations) {
        Err(e) => Err(e),
        Ok(_) => Ok(contains_address(links, target)),
    }
}

/// Decides whether the app is enabled on this host, from the agent's
/// `verified_host_tag` links and the targets of its `apps_enabled` links.
pub fn is_enabled(registrations: &Vec<String>, enabled_apps: &Vec<String>, app_hash: &String) -> (r:
    Result<bool, HostError>)
    ensures
        match r {
            Ok(b) => check_link_exists_result(registrations.deep_view(), enabled_apps.deep_view(), app_hash@)
                == Ok::<bool, HostErrorView>(b),
            Err(e) => check_link_exists_result(registrations.deep_view(), enabled_apps.deep_view(), app_hash@)
                == Err::<bool, HostErrorView>(e@),
        },
{
    check_link_exists(registrations, enabled_apps, app_hash)
}

/// What `check_agent_exist` answers: the entries are read in order; the first one
/// that failed to load ends the search with its error, the first agent entry with
/// the key `agent` ends it with `true`; with neither, `false`.
pub open spec fn agent_exists_result(entries: Seq<LoadedEntryView>, agent: Seq<char>) -> Result<
    bool,
    HostErrorView,
>
    decreases entries.len(),
{
    if entries.len() == 0 {
        Ok(false)
    } else {
        match entries[0] {
            LoadedEntryView::Failed(e) => Err(e),
            LoadedEntryView::Agent(k) => if k == agent {
                Ok(true)
            } else {
                agent_exists_result(entries.drop_first(), agent)
            },
            LoadedEntryView::Other => agent_exists_result(entries.drop_first(), agent),
        }
    }
}

/// Whether an agent entry with the key `agent` is among the loaded entries, read in order.
pub fn check_agent_exist(agent_list: &Vec<LoadedEntry>, agent: &String) -> (r: Result<bool, HostError>)
    ensures
        match r {
            Ok(b) => agent_exists_result(agent_list.deep_view(), agent@) == Ok::<bool, HostErrorView>(b),
            Err(e) => agent_exists_result(agent_list.deep_view(), agent@) == Err::<bool, HostErrorView>(e@),
        },
{
    let ghost all = agent_list.deep_view();
    let n = agent_list.len();
    let mut i: usize = 0;
    assert(all.skip(0) =~= all);
    while i < n
        invariant
            n == agent_list.len(),
            all == agent_list.deep_view(),
            i <= n,
            agent_exists_result(all, agent@) == agent_exists_result(all.skip(i as int), agent@),
        decreases n - i,
    {
        assert(all.skip(i as int)[0] == all[i as int]);
        assert(all.skip(i as int).drop_first() =~= all.skip(i + 1));
        match &agent_list[i] {
            LoadedEntry::Failed(e) => {
                return Err(e.duplicate());
            },
            LoadedEntry::Agent(k) => {
                if *k == *agent {
                    return Ok(true);
                }
            },
            LoadedEntry::Other => {},
        }
        i = i + 1;
    }
    assert(all.skip(n as int).len() == 0);
    Ok(false)
}

/// The keys of the agent entries among `entries`, in order, after those in `keys`;
/// or the error of the first entry that failed to load.
pub open spec fn fold_agent_keys(keys: Seq<Seq<char>>, entries: Seq<LoadedEntryView>) -> Result<
    Seq<Seq<char>>,
    HostErrorView,
>
    decreases entries.len(),
{
    if entries.len() == 0 {
        Ok(keys)
    } else {
        match entries[0] {
            LoadedEntryView::Failed(e) => Err(e),
            LoadedEntryView::Agent(k) => fold_agent_keys(keys.push(k), entries.drop_first()),
            LoadedEntryView::Other => fold_agent_keys(keys, entries.drop_first()),
        }
    }
}

/// The keys of the agent entries among the entries of `first`, then `second`, in
/// order; the first entry that failed to load ends the reading with its error.
pub fn collect_agent_keys(first: &Vec<LoadedEntry>, second: &Vec<LoadedEntry>) -> (r: Result<
    Vec<String>,
    HostError,
>)
    ensures
        match r {
            Ok(keys) => fold_agent_keys(seq![], first.deep_view() + second.deep_view()) == Ok::<
                Seq<Seq<char>>,
                HostErrorView,
            >(keys.deep_view()),
            Err(e) => fold_agent_keys(seq![], first.deep_view() + second.deep_view()) == Err::<
                Seq<Seq<char>>,
                HostErrorView,
            >(e@),
        },
{
    let ghost a = first.deep_view();
    let ghost b = second.deep_view();
    let mut keys: Vec<String> = Vec::new();
    let n = first.len();
    let mut i: usize = 0;
    assert(a.skip(0) + b =~= a + b);
    assert(keys.deep_view() =~= Seq::<Seq<char>>::empty());
    while i < n
        invariant
            n == first.len(),
            a == first.deep_view(),
            b == second.deep_view(),
            i <= n,
            fold_agent_keys(seq![], a + b) == fold_agent_keys(keys.deep_view(), a.skip(i as int) + b),
        decreases n - i,
    {
        let ghost rest = a.skip(i as int) + b;
        assert(rest[0] == a[i as int]);
        assert(rest.drop_first() =~= a.skip(i + 1) + b);
        match &first[i] {
            LoadedEntry::Failed(e) => {
                return Err(e.duplicate());
            },
            LoadedEntry::Agent(k) => {
                let ghost before = keys.deep_view();
                keys.push(k.clone());
                assert(keys.deep_view() =~= before.push(k@));
            },
            LoadedEntry::Other => {},
        }
        i = i + 1;
    }
    assert(a.skip(n as int) + b =~= b);
    let m = second.len();
    let mut j: usize = 0;
    assert(b.skip(0) =~= b);
    while j < m
        invariant
            m == second.len(),
            a == first.deep_view(),
            b == second.deep_view(),
            j <= m,
            fold_agent_keys(seq![], a + b) == fold_agent_keys(keys.deep_view(), b.skip(j as int)),
        decreases m - j,
    {
        assert(b.skip(j as int)[0] == b[j as int]);
        assert(b.skip(j as int).drop_first() =~= b.skip(j + 1));
        match &second[j] {
            LoadedEntry::Failed(e) => {
                return Err(e.duplicate());
            },
            LoadedEntry::Agent(k) => {
                let ghost before = keys.deep_view();
                keys.push(k.clone());
                assert(keys.deep_view() =~= before.push(k@));
            },
            LoadedEntry::Other => {},
        }
        j = j + 1;
    }
    assert(b.skip(m as int).len() == 0);
    Ok(keys)
}

} // verus!
