use vstd::prelude::*;
use crate::dht::{contains_address, lists, LinkTag, LoadedEntry, LoadedEntryView, Reply, ReplyView, Request, RequestView, Step, StepView};
use crate::host::{handle_is_registered_as_host, registration_request};
use crate::error::{HostError, HostErrorView};
use crate::host::{
    agent_exists_result, check_agent_exist, collect_agent_keys, fold_agent_keys, validate_host, App2Host,
    App2HostView, DnaToHost, DnaToHostView,
};

verus! {

/// Which changes a pass over the apps collects.
#[derive(Clone, Copy, PartialEq, Eq, Structural, Debug)]
pub enum KvRound {
    /// Enablings: `recently_enabled_app_tag` and `need_updates_enabled_from_kv_store`.
    Enabled,
    /// Disablings: `recently_disabled_app_tag` and `need_updates_disabled_from_kv_store`.
    Disabled,
}

/// The links that mark a change that the key-value store has not collected yet.
pub open spec fn recent_tag(r: KvRound) -> LinkTag {
    match r {
        KvRound::Enabled => LinkTag::RecentlyEnabledApp,
        KvRound::Disabled => LinkTag::RecentlyDisabledApp,
    }
}

/// The links that mark a change that the key-value store collected but has not confirmed.
pub open spec fn pending_tag(r: KvRound) -> LinkTag {
    match r {
        KvRound::Enabled => LinkTag::NeedUpdatesEnabled,
        KvRound::Disabled => LinkTag::NeedUpdatesDisabled,
    }
}

impl KvRound {
    pub fn recent(&self) -> (t: LinkTag)
        ensures
            t == recent_tag(*self),
    {
        match self {
            KvRound::Enabled => LinkTag::RecentlyEnabledApp,
            KvRound::Disabled => LinkTag::RecentlyDisabledApp,
        }
    }

    pub fn pending(&self) -> (t: LinkTag)
        ensures
            t == pending_tag(*self),
    {
        match self {
            KvRound::Enabled => LinkTag::NeedUpdatesEnabled,
            KvRound::Disabled => LinkTag::NeedUpdatesDisabled,
        }
    }
}

/// A copy of a list of addresses.
pub fn copy_addresses(v: &Vec<String>) -> (r: Vec<String>)
    ensures
        r.deep_view() == v.deep_view(),
{
    let mut r: Vec<String> = Vec::new();
    let n = v.len();
    let mut i: usize = 0;
    while i < n
        invariant
            n == v.len(),
            i <= n,
            r.deep_view() =~= v.deep_view().take(i as int),
        decreases n - i,
    {
        let ghost before = r.deep_view();
        r.push(v[i].clone());
        assert(r.deep_view() =~= before.push(v.deep_view()[i as int]));
        assert(v.deep_view().take(i + 1) =~= v.deep_view().take(i as int).push(v.deep_view()[i as int]));
        i = i + 1;
    }
    assert(v.deep_view().take(n as int) =~= v.deep_view());
    r
}

// ---------------------------------------------------------------------
// Collecting the updates for the key-value store
// ---------------------------------------------------------------------

/// Where the collection of updates for the key-value store stands.
#[derive(Clone, Copy, PartialEq, Eq, Structural, Debug)]
pub enum KvPhase {
    Start,
    /// Awaits the agent's `verified_host_tag` links.
    HostCheck,
    /// Awaits the address of the anchor of all apps.
    Anchoring,
    /// Awaits the anchor's `all_apps_tag` links.
    AppLinks,
    /// Awaits the entries at the app's recent-change links.
    RecentEntries,
    /// Awaits the entries at the app's pending-change links.
    PendingEntries,
    /// Awaits the agent's `verified_host_tag` links, before handling the next host.
    HostCheckForHost,
    /// Awaits the app's recent-change links.
    HostLinks,
    /// Awaits the removal of the app's recent-change link to the host.
    RemovingRecent,
    /// Awaits the app's pending-change link to the host.
    LinkingPending,
    Finished,
}

/// The collection of the hosts that recently enabled or disabled each app, as a
/// procedure: zome function `get_kv_updates_dna_to_host`. For each app and each host
/// so collected, the recent-change link becomes a pending-change link.
#[derive(Debug)]
pub struct KvUpdates {
    pub phase: KvPhase,
    pub agent: String,
    pub round: KvRound,
    /// The apps linked from the anchor, in the order read.
    pub apps: Vec<String>,
    /// The app at hand.
    pub app_index: usize,
    /// The entries at the app's recent-change links.
    pub recent: Vec<LoadedEntry>,
    /// The entries at the app's pending-change links.
    pub pending: Vec<LoadedEntry>,
    /// The hosts collected for the app at hand.
    pub hosts: Vec<String>,
    /// The host at hand.
    pub host_index: usize,
    /// What the enabling round collected so far.
    pub enabled: Vec<App2Host>,
    /// What the disabling round collected so far.
    pub disabled: Vec<App2Host>,
}

pub struct KvUpdatesView {
    pub phase: KvPhase,
    pub agent: Seq<char>,
    pub round: KvRound,
    pub apps: Seq<Seq<char>>,
    pub app_index: int,
    pub recent: Seq<LoadedEntryView>,
    pub pending: Seq<LoadedEntryView>,
    pub hosts: Seq<Seq<char>>,
    pub host_index: int,
    pub enabled: Seq<App2HostView>,
    pub disabled: Seq<App2HostView>,
}

impl View for KvUpdates {
    type V = KvUpdatesView;

    open spec fn view(&self) -> KvUpdatesView {
        KvUpdatesView {
            phase: self.phase,
            agent: self.agent@,
            round: self.round,
            apps: self.apps.deep_view(),
            app_index: self.app_index as int,
            recent: self.recent.deep_view(),
            pending: self.pending.deep_view(),
            hosts: self.hosts.deep_view(),
            host_index: self.host_index as int,
            enabled: self.enabled.deep_view(),
            disabled: self.disabled.deep_view(),
        }
    }
}

pub open spec fn kv_at(s: KvUpdatesView, phase: KvPhase) -> KvUpdatesView {
    KvUpdatesView { phase, ..s }
}

pub open spec fn kv_fail(s: KvUpdatesView, e: HostErrorView) -> (KvUpdatesView, StepView<DnaToHostView>) {
    (kv_at(s, KvPhase::Finished), StepView::Finish(Err(e)))
}

/// Ends with everything collected.
pub open spec fn kv_finish(s: KvUpdatesView) -> (KvUpdatesView, StepView<DnaToHostView>) {
    (
        KvUpdatesView { phase: KvPhase::Finished, enabled: seq![], disabled: seq![], ..s },
        StepView::Finish(Ok(DnaToHostView { recently_enabled_apps: s.enabled, recently_disabled_apps: s.disabled })),
    )
}

pub open spec fn in_app(s: KvUpdatesView) -> bool {
    0 <= s.app_index < s.apps.len()
}

pub open spec fn in_host(s: KvUpdatesView) -> bool {
    in_app(s) && 0 <= s.host_index < s.hosts.len()
}

pub open spec fn load_recent(s: KvUpdatesView) -> (KvUpdatesView, StepView<DnaToHostView>) {
    (
        kv_at(s, KvPhase::RecentEntries),
        StepView::Perform(RequestView::LoadLinks { base: s.apps[s.app_index], tag: recent_tag(s.round) }),
    )
}

/// Turns to the app at hand; past the last app, from the enabling round to the
/// disabling round, and past that, ends.
pub open spec fn begin_app(s: KvUpdatesView) -> (KvUpdatesView, StepView<DnaToHostView>) {
    if 0 <= s.app_index < s.apps.len() {
        load_recent(s)
    } else if s.round == KvRound::Enabled {
        let s2 = KvUpdatesView { round: KvRound::Disabled, app_index: 0, ..s };
        if 0 < s.apps.len() {
            load_recent(s2)
        } else {
            kv_finish(s2)
        }
    } else {
        kv_finish(s)
    }
}

/// Turns to the host at hand; past the last, to the next app.
pub open spec fn begin_host(s: KvUpdatesView) -> (KvUpdatesView, StepView<DnaToHostView>) {
    if 0 <= s.host_index < s.hosts.len() {
        (kv_at(s, KvPhase::HostCheckForHost), StepView::Perform(registration_request(s.agent)))
    } else {
        begin_app(KvUpdatesView { app_index: s.app_index + 1, ..s })
    }
}

/// Once the recent-change link to the host is gone: links the app to the host as a
/// pending change, unless the pending-change entries already hold the host.
pub open spec fn after_removal(s: KvUpdatesView) -> (KvUpdatesView, StepView<DnaToHostView>) {
    match agent_exists_result(s.pending, s.hosts[s.host_index]) {
        Err(e) => kv_fail(s, e),
        Ok(found) => if found {
            begin_host(KvUpdatesView { host_index: s.host_index + 1, ..s })
        } else {
            (
                kv_at(s, KvPhase::LinkingPending),
                StepView::Perform(
                    RequestView::LinkEntries {
                        base: s.apps[s.app_index],
                        target: s.hosts[s.host_index],
                        tag: pending_tag(s.round),
                    },
                ),
            )
        },
    }
}

/// Records the hosts collected for the app at hand in the list of the round.
pub open spec fn record(s: KvUpdatesView, hosts: Seq<Seq<char>>) -> KvUpdatesView {
    let entry = App2HostView { app: s.apps[s.app_index], host: hosts };
    if s.round == KvRound::Enabled {
        KvUpdatesView { enabled: s.enabled.push(entry), ..s }
    } else {
        KvUpdatesView { disabled: s.disabled.push(entry), ..s }
    }
}

/// The transitions of the collection. It is refused for an agent that is no host.
/// Else it commits the anchor of all apps and reads its `all_apps_tag` links; then,
/// first for enablings and then for disablings, for each app in the order read: it
/// loads the entries at the app's recent-change links, then those at its
/// pending-change links, and collects the keys of the agent entries among both, in
/// order (an entry that failed to load ends the procedure with its error). For each
/// host so collected, after checking again that the agent is a host, it removes the
/// app's recent-change link to the host where the app's links list the host, and
/// links the app to the host as a pending change where the pending-change entries
/// do not hold the host yet. It ends with the hosts collected per app and round.
pub open spec fn kv_updates_next(s: KvUpdatesView, reply: ReplyView) -> (KvUpdatesView, StepView<DnaToHostView>) {
    let protocol = kv_fail(s, HostErrorView::Protocol);
    match s.phase {
        KvPhase::Start => (kv_at(s, KvPhase::HostCheck), StepView::Perform(registration_request(s.agent))),
        KvPhase::HostCheck => match reply {
            ReplyView::Links(l) => if l.len() == 0 {
                kv_fail(s, HostErrorView::NotAHost)
            } else {
                (kv_at(s, KvPhase::Anchoring), StepView::Perform(RequestView::CommitAllAppsAnchor))
            },
            _ => protocol,
        },
        KvPhase::Anchoring => match reply {
            ReplyView::Address(a) => (
                kv_at(s, KvPhase::AppLinks),
                StepView::Perform(RequestView::GetLinks { base: a, tag: LinkTag::AllApps }),
            ),
            _ => protocol,
        },
        KvPhase::AppLinks => match reply {
            ReplyView::Links(l) => begin_app(KvUpdatesView { apps: l, round: KvRound::Enabled, app_index: 0, ..s }),
            _ => protocol,
        },
        KvPhase::RecentEntries => match reply {
            ReplyView::Entries(e) => if in_app(s) {
                (
                    KvUpdatesView { phase: KvPhase::PendingEntries, recent: e, ..s },
                    StepView::Perform(RequestView::LoadLinks { base: s.apps[s.app_index], tag: pending_tag(s.round) }),
                )
            } else {
                protocol
            },
            _ => protocol,
        },
        KvPhase::PendingEntries => match reply {
            ReplyView::Entries(e) => if in_app(s) {
                let s2 = KvUpdatesView { pending: e, ..s };
                match fold_agent_keys(seq![], s.recent + e) {
                    Err(x) => kv_fail(s2, x),
                    Ok(ks) => begin_host(KvUpdatesView { hosts: ks, host_index: 0, ..record(s2, ks) }),
                }
            } else {
                protocol
            },
            _ => protocol,
        },
        KvPhase::HostCheckForHost => match reply {
            ReplyView::Links(l) => if !in_host(s) {
                protocol
            } else if l.len() == 0 {
                kv_fail(s, HostErrorView::NotAHost)
            } else {
                (
                    kv_at(s, KvPhase::HostLinks),
                    StepView::Perform(RequestView::GetLinks { base: s.apps[s.app_index], tag: recent_tag(s.round) }),
                )
            },
            _ => protocol,
        },
        KvPhase::HostLinks => match reply {
            ReplyView::Links(l) => if !in_host(s) {
                protocol
            } else if lists(l, s.hosts[s.host_index]) {
                (
                    kv_at(s, KvPhase::RemovingRecent),
                    StepView::Perform(
                        RequestView::RemoveLink {
                            base: s.apps[s.app_index],
                            target: s.hosts[s.host_index],
                            tag: recent_tag(s.round),
                        },
                    ),
                )
            } else {
                after_removal(s)
            },
            _ => protocol,
        },
        KvPhase::RemovingRecent => if in_host(s) {
            after_removal(s)
        } else {
            protocol
        },
        KvPhase::LinkingPending => if in_host(s) {
            begin_host(KvUpdatesView { host_index: s.host_index + 1, ..s })
        } else {
            protocol
        },
        KvPhase::Finished => protocol,
    }
}

/// Starts the collection of updates for the key-value store, for the host `agent_address`.
pub fn handle_get_kv_updates_dna_to_host(agent_address: String) -> (m: KvUpdates)
    ensures
        m@ == (KvUpdatesView {
            phase: KvPhase::Start,
            agent: agent_address@,
            round: KvRound::Enabled,
            apps: seq![],
            app_index: 0,
            recent: seq![],
            pending: seq![],
            hosts: seq![],
            host_index: 0,
            enabled: seq![],
            disabled: seq![],
        }),
{
    let m = KvUpdates {
        phase: KvPhase::Start,
        agent: agent_address,
        round: KvRound::Enabled,
        apps: Vec::new(),
        app_index: 0,
        recent: Vec::new(),
        pending: Vec::new(),
        hosts: Vec::new(),
        host_index: 0,
        enabled: Vec::new(),
        disabled: Vec::new(),
    };
    assert(m.apps.deep_view() =~= Seq::<Seq<char>>::empty());
    assert(m.recent.deep_view() =~= Seq::<LoadedEntryView>::empty());
    assert(m.pending.deep_view() =~= Seq::<LoadedEntryView>::empty());
    assert(m.hosts.deep_view() =~= Seq::<Seq<char>>::empty());
    assert(m.enabled.deep_view() =~= Seq::<App2HostView>::empty());
    assert(m.disabled.deep_view() =~= Seq::<App2HostView>::empty());
    m
}

impl KvUpdates {
    fn fail(self, e: HostError) -> (res: (KvUpdates, Step<DnaToHost>))
        ensures
            (res.0@, res.1@) == kv_fail(self@, e@),
    {
        (KvUpdates { phase: KvPhase::Finished, ..self }, Step::Finish(Err(e)))
    }

    fn finish(self) -> (res: (KvUpdates, Step<DnaToHost>))
        ensures
            (res.0@, res.1@) == kv_finish(self@),
    {
        let KvUpdates { phase, agent, round, apps, app_index, recent, pending, hosts, host_index, enabled, disabled } = self;
        let e2: Vec<App2Host> = Vec::new();
        let d2: Vec<App2Host> = Vec::new();
        assert(e2.deep_view() =~= Seq::<App2HostView>::empty());
        assert(d2.deep_view() =~= Seq::<App2HostView>::empty());
        let out = DnaToHost { recently_enabled_apps: enabled, recently_disabled_apps: disabled };
        (
            KvUpdates {
                phase: KvPhase::Finished,
                agent,
                round,
                apps,
                app_index,
                recent,
                pending,
                hosts,
                host_index,
                enabled: e2,
                disabled: d2,
            },
            Step::Finish(Ok(out)),
        )
    }

    fn load_recent(self) -> (res: (KvUpdates, Step<DnaToHost>))
        requires
            self.app_index < self.apps.len(),
        ensures
            (res.0@, res.1@) == load_recent(self@),
    {
        let req = Request::LoadLinks { base: self.apps[self.app_index].clone(), tag: self.round.recent() };
        (KvUpdates { phase: KvPhase::RecentEntries, ..self }, Step::Perform(req))
    }

    fn begin_app(self) -> (res: (KvUpdates, Step<DnaToHost>))
        ensures
            (res.0@, res.1@) == begin_app(self@),
    {
        if self.app_index < self.apps.len() {
            self.load_recent()
        } else if self.round == KvRound::Enabled {
            let s2 = KvUpdates { round: KvRound::Disabled, app_index: 0, ..self };
            if 0 < s2.apps.len() {
                s2.load_recent()
            } else {
                s2.finish()
            }
        } else {
            self.finish()
        }
    }

    fn begin_host(self) -> (res: (KvUpdates, Step<DnaToHost>))
        requires
            self.app_index < self.apps.len(),
        ensures
            (res.0@, res.1@) == begin_host(self@),
    {
        if self.host_index < self.hosts.len() {
            let req = handle_is_registered_as_host(&self.agent);
            (KvUpdates { phase: KvPhase::HostCheckForHost, ..self }, Step::Perform(req))
        } else {
            let next = self.app_index + 1;
            KvUpdates { app_index: next, ..self }.begin_app()
        }
    }

    fn after_removal(self) -> (res: (KvUpdates, Step<DnaToHost>))
        requires
            self.app_index < self.apps.len(),
            self.host_index < self.hosts.len(),
        ensures
            (res.0@, res.1@) == after_removal(self@),
    {
        match check_agent_exist(&self.pending, &self.hosts[self.host_index]) {
            Err(e) => self.fail(e),
            Ok(found) => if found {
                let next = self.host_index + 1;
                KvUpdates { host_index: next, ..self }.begin_host()
            } else {
                let req = Request::LinkEntries {
                    base: self.apps[self.app_index].clone(),
                    target: self.hosts[self.host_index].clone(),
                    tag: self.round.pending(),
                };
                (KvUpdates { phase: KvPhase::LinkingPending, ..self }, Step::Perform(req))
            },
        }
    }

    /// Hands the procedure the answer to its last request (`Reply::Done` to start it);
    /// it says what comes next.
    pub fn step(self, reply: Reply) -> (res: (KvUpdates, Step<DnaToHost>))
        ensures
            (res.0@, res.1@) == kv_updates_next(self@, reply@),
    {
        match self.phase {
            KvPhase::Start => {
                let req = handle_is_registered_as_host(&self.agent);
                (KvUpdates { phase: KvPhase::HostCheck, ..self }, Step::Perform(req))
            },
            KvPhase::HostCheck => match reply {
                Reply::Links(l) => match validate_host(&l) {
                    Err(e) => self.fail(e),
                    Ok(_) => (KvUpdates { phase: KvPhase::Anchoring, ..self }, Step::Perform(Request::CommitAllAppsAnchor)),
                },
                _ => self.fail(HostError::Protocol),
            },
            KvPhase::Anchoring => match reply {
                Reply::Address(a) => (
                    KvUpdates { phase: KvPhase::AppLinks, ..self },
                    Step::Perform(Request::GetLinks { base: a, tag: LinkTag::AllApps }),
                ),
                _ => self.fail(HostError::Protocol),
            },
            KvPhase::AppLinks => match reply {
                Reply::Links(l) => KvUpdates { apps: l, round: KvRound::Enabled, app_index: 0, ..self }.begin_app(),
                _ => self.fail(HostError::Protocol),
            },
            KvPhase::RecentEntries => match reply {
                Reply::Entries(e) => if self.app_index < self.apps.len() {
                    let req = Request::LoadLinks { base: self.apps[self.app_index].clone(), tag: self.round.pending() };
                    (KvUpdates { phase: KvPhase::PendingEntries, recent: e, ..self }, Step::Perform(req))
                } else {
                    self.fail(HostError::Protocol)
                },
                _ => self.fail(HostError::Protocol),
            },
            KvPhase::PendingEntries => match reply {
                Reply::Entries(e) => if self.app_index < self.apps.len() {
                    let keys = collect_agent_keys(&self.recent, &e);
                    let s2 = KvUpdates { pending: e, ..self };
                    match keys {
                        Err(x) => s2.fail(x),
                        Ok(ks) => {
                            let entry = App2Host { app: s2.apps[s2.app_index].clone(), host: copy_addresses(&ks) };
                            let mut s3 = s2;
                            if s3.round == KvRound::Enabled {
                                s3.enabled.push(entry);
                            } else {
                                s3.disabled.push(entry);
                            }
                            proof {
                                let ghost rec = record(s2@, ks.deep_view());
                                assert(s3.enabled.deep_view() =~= rec.enabled);
                                assert(s3.disabled.deep_view() =~= rec.disabled);
                            }
                            KvUpdates { hosts: ks, host_index: 0, ..s3 }.begin_host()
                        },
                    }
                } else {
                    self.fail(HostError::Protocol)
                },
                _ => self.fail(HostError::Protocol),
            },
            KvPhase::HostCheckForHost => match reply {
                Reply::Links(l) => if !(self.app_index < self.apps.len() && self.host_index < self.hosts.len()) {
                    self.fail(HostError::Protocol)
                } else {
                    match validate_host(&l) {
                        Err(e) => self.fail(e),
                        Ok(_) => {
                            let req = Request::GetLinks { base: self.apps[self.app_index].clone(), tag: self.round.recent() };
                            (KvUpdates { phase: KvPhase::HostLinks, ..self }, Step::Perform(req))
                        },
                    }
                },
                _ => self.fail(HostError::Protocol),
            },
            KvPhase::HostLinks => match reply {
                Reply::Links(l) => if !(self.app_index < self.apps.len() && self.host_index < self.hosts.len()) {
                    self.fail(HostError::Protocol)
                } else if contains_address(&l, &self.hosts[self.host_index]) {
                    let req = Request::RemoveLink {
                        base: self.apps[self.app_index].clone(),
                        target: self.hosts[self.host_index].clone(),
                        tag: self.round.recent(),
                    };
                    (KvUpdates { phase: KvPhase::RemovingRecent, ..self }, Step::Perform(req))
                } else {
                    self.after_removal()
                },
                _ => self.fail(HostError::Protocol),
            },
            KvPhase::RemovingRecent => if self.app_index < self.apps.len() && self.host_index < self.hosts.len() {
                self.after_removal()
            } else {
                self.fail(HostError::Protocol)
            },
            KvPhase::LinkingPending => if self.app_index < self.apps.len() && self.host_index < self.hosts.len() {
                let next = self.host_index + 1;
                KvUpdates { host_index: next, ..self }.begin_host()
            } else {
                self.fail(HostError::Protocol)
            },
            KvPhase::Finished => self.fail(HostError::Protocol),
        }
    }
}

// ---------------------------------------------------------------------
// Confirming that the key-value store applied updates
// ---------------------------------------------------------------------

/// Where the confirmation stands.
#[derive(Clone, Copy, PartialEq, Eq, Structural, Debug)]
pub enum CompletedPhase {
    Start,
    /// Awaits the agent's `verified_host_tag` links, before the pending enabling.
    EnabledHostCheck,
    /// Awaits the app's `need_updates_enabled_from_kv_store` links.
    EnabledLinks,
    /// Awaits the removal of the app's such link to the host.
    EnabledRemoving,
    /// Awaits the agent's `verified_host_tag` links, before the pending disabling.
    DisabledHostCheck,
    /// Awaits the app's `need_updates_disabled_from_kv_store` links.
    DisabledLinks,
    /// Awaits the removal of the app's such link to the host.
    DisabledRemoving,
    Finished,
}

/// The confirmation that the key-value store applied the updates in `bundle`, as a
/// procedure: zome function `kv_updates_host_completed`.
#[derive(Debug)]
pub struct KvCompleted {
    pub phase: CompletedPhase,
    pub agent: String,
    pub bundle: Vec<App2Host>,
    /// The app at hand, by its place in the bundle.
    pub kv_index: usize,
    /// The host at hand, by its place in the app's hosts.
    pub host_index: usize,
}

pub struct KvCompletedView {
    pub phase: CompletedPhase,
    pub agent: Seq<char>,
    pub bundle: Seq<App2HostView>,
    pub kv_index: int,
    pub host_index: int,
}

impl View for KvCompleted {
    type V = KvCompletedView;

    open spec fn view(&self) -> KvCompletedView {
        KvCompletedView {
            phase: self.phase,
            agent: self.agent@,
            bundle: self.bundle.deep_view(),
            kv_index: self.kv_index as int,
            host_index: self.host_index as int,
        }
    }
}

/// The first (app, host) place at or after (`k`, `h`) that holds a host; past the last
/// app, a place with `k` at least the bundle's length.
pub open spec fn next_pair(b: Seq<App2HostView>, k: int, h: int) -> (int, int)
    decreases b.len() - k,
{
    if 0 <= k < b.len() {
        if h < b[k].host.len() {
            (k, h)
        } else {
            next_pair(b, k + 1, 0)
        }
    } else {
        (k, h)
    }
}

pub open spec fn in_pair(s: KvCompletedView) -> bool {
    0 <= s.kv_index < s.bundle.len() && 0 <= s.host_index < s.bundle[s.kv_index].host.len()
}

pub open spec fn pair_app(s: KvCompletedView) -> Seq<char> {
    s.bundle[s.kv_index].app
}

pub open spec fn pair_host(s: KvCompletedView) -> Seq<char> {
    s.bundle[s.kv_index].host[s.host_index]
}

pub open spec fn completed_at(s: KvCompletedView, phase: CompletedPhase) -> KvCompletedView {
    KvCompletedView { phase, ..s }
}

/// Turns to the next (app, host) place from the one at hand; past the last, ends.
pub open spec fn begin_pair(s: KvCompletedView) -> (KvCompletedView, StepView<()>) {
    let (k, h) = next_pair(s.bundle, s.kv_index, s.host_index);
    if 0 <= k < s.bundle.len() {
        (
            KvCompletedView { phase: CompletedPhase::EnabledHostCheck, kv_index: k, host_index: h, ..s },
            StepView::Perform(registration_request(s.agent)),
        )
    } else {
        (
            KvCompletedView { phase: CompletedPhase::Finished, kv_index: k, host_index: h, ..s },
            StepView::Finish(Ok(())),
        )
    }
}

/// The transitions of the confirmation. For each app in the bundle and each of its
/// hosts, in order: after checking that the agent is a host, it removes the app's
/// `need_updates_enabled_from_kv_store` link to the host where the app's such links
/// list the host; then the same for `need_updates_disabled_from_kv_store`. An agent
/// that is no host ends it with the refusal; with all done, it ends with success.
pub open spec fn kv_completed_next(s: KvCompletedView, reply: ReplyView) -> (KvCompletedView, StepView<()>) {
    let protocol = (completed_at(s, CompletedPhase::Finished), StepView::Finish(Err(HostErrorView::Protocol)));
    let refused = (completed_at(s, CompletedPhase::Finished), StepView::Finish(Err(HostErrorView::NotAHost)));
    match s.phase {
        CompletedPhase::Start => begin_pair(s),
        CompletedPhase::EnabledHostCheck => match reply {
            ReplyView::Links(l) => if !in_pair(s) {
                protocol
            } else if l.len() == 0 {
                refused
            } else {
                (
                    completed_at(s, CompletedPhase::EnabledLinks),
                    StepView::Perform(RequestView::GetLinks { base: pair_app(s), tag: LinkTag::NeedUpdatesEnabled }),
                )
            },
            _ => protocol,
        },
        CompletedPhase::EnabledLinks => match reply {
            ReplyView::Links(l) => if !in_pair(s) {
                protocol
            } else if lists(l, pair_host(s)) {
                (
                    completed_at(s, CompletedPhase::EnabledRemoving),
                    StepView::Perform(
                        RequestView::RemoveLink { base: pair_app(s), target: pair_host(s), tag: LinkTag::NeedUpdatesEnabled },
                    ),
                )
            } else {
                (completed_at(s, CompletedPhase::DisabledHostCheck), StepView::Perform(registration_request(s.agent)))
            },
            _ => protocol,
        },
        CompletedPhase::EnabledRemoving => if in_pair(s) {
            (completed_at(s, CompletedPhase::DisabledHostCheck), StepView::Perform(registration_request(s.agent)))
        } else {
            protocol
        },
        CompletedPhase::DisabledHostCheck => match reply {
            ReplyView::Links(l) => if !in_pair(s) {
                protocol
            } else if l.len() == 0 {
                refused
            } else {
                (
                    completed_at(s, CompletedPhase::DisabledLinks),
                    StepView::Perform(RequestView::GetLinks { base: pair_app(s), tag: LinkTag::NeedUpdatesDisabled }),
                )
            },
            _ => protocol,
        },
        CompletedPhase::DisabledLinks => match reply {
            ReplyView::Links(l) => if !in_pair(s) {
                protocol
            } else if lists(l, pair_host(s)) {
                (
                    completed_at(s, CompletedPhase::DisabledRemoving),
                    StepView::Perform(
                        RequestView::RemoveLink { base: pair_app(s), target: pair_host(s), tag: LinkTag::NeedUpdatesDisabled },
                    ),
                )
            } else {
                begin_pair(KvCompletedView { host_index: s.host_index + 1, ..s })
            },
            _ => protocol,
        },
        CompletedPhase::DisabledRemoving => if in_pair(s) {
            begin_pair(KvCompletedView { host_index: s.host_index + 1, ..s })
        } else {
            protocol
        },
        CompletedPhase::Finished => protocol,
    }
}

/// Starts the confirmation, by the host `agent_address`, that the key-value store
/// applied the updates in `kv_bundle`.
pub fn handle_kv_updates_host_completed(agent_address: String, kv_bundle: Vec<App2Host>) -> (m: KvCompleted)
    ensures
        m@ == (KvCompletedView {
            phase: CompletedPhase::Start,
            agent: agent_address@,
            bundle: kv_bundle.deep_view(),
            kv_index: 0,
            host_index: 0,
        }),
{
    KvCompleted { phase: CompletedPhase::Start, agent: agent_address, bundle: kv_bundle, kv_index: 0, host_index: 0 }
}

impl KvCompleted {
    fn in_pair(&self) -> (b: bool)
        ensures
            b == in_pair(self@),
    {
        self.kv_index < self.bundle.len() && self.host_index < self.bundle[self.kv_index].host.len()
    }

    fn end(self, r: Result<(), HostError>) -> (res: (KvCompleted, Step<()>))
        ensures
            res.0@ == completed_at(self@, CompletedPhase::Finished),
            res.1 == Step::<()>::Finish(r),
    {
        (KvCompleted { phase: CompletedPhase::Finished, ..self }, Step::Finish(r))
    }

    fn begin_pair(self) -> (res: (KvCompleted, Step<()>))
        ensures
            (res.0@, res.1@) == begin_pair(self@),
    {
        let ghost b = self.bundle.deep_view();
        let n = self.bundle.len();
        let mut k = self.kv_index;
        let mut h = self.host_index;
        while k < n && h >= self.bundle[k].host.len()
            invariant
                n == self.bundle.len(),
                b == self.bundle.deep_view(),
                next_pair(b, self.kv_index as int, self.host_index as int) == next_pair(b, k as int, h as int),
            decreases n - k,
        {
            assert(b[k as int].host.len() == self.bundle[k as int].host.len());
            k = k + 1;
            h = 0;
        }
        if k < n {
            assert(b[k as int].host.len() == self.bundle[k as int].host.len());
            let req = handle_is_registered_as_host(&self.agent);
            (KvCompleted { phase: CompletedPhase::EnabledHostCheck, kv_index: k, host_index: h, ..self }, Step::Perform(req))
        } else {
            (KvCompleted { phase: CompletedPhase::Finished, kv_index: k, host_index: h, ..self }, Step::Finish(Ok(())))
        }
    }

    fn probe(&self, tag: LinkTag) -> (r: Request)
        requires
            in_pair(self@),
        ensures
            r@ == (RequestView::GetLinks { base: pair_app(self@), tag }),
    {
        Request::GetLinks { base: self.bundle[self.kv_index].app.clone(), tag }
    }

    fn removal(&self, tag: LinkTag) -> (r: Request)
        requires
            in_pair(self@),
        ensures
            r@ == (RequestView::RemoveLink { base: pair_app(self@), target: pair_host(self@), tag }),
    {
        let entry = &self.bundle[self.kv_index];
        assert(entry.host.deep_view()[self.host_index as int] == entry.host[self.host_index as int]@);
        Request::RemoveLink { base: entry.app.clone(), target: entry.host[self.host_index].clone(), tag }
    }

    fn found(&self, links: &Vec<String>) -> (b: bool)
        requires
            in_pair(self@),
        ensures
            b == lists(links.deep_view(), pair_host(self@)),
    {
        let entry = &self.bundle[self.kv_index];
        assert(entry.host.deep_view()[self.host_index as int] == entry.host[self.host_index as int]@);
        contains_address(links, &entry.host[self.host_index])
    }

    fn next_host(self) -> (res: (KvCompleted, Step<()>))
        requires
            in_pair(self@),
        ensures
            (res.0@, res.1@) == begin_pair(KvCompletedView { host_index: self@.host_index + 1, ..self@ }),
    {
        assert(self.bundle.deep_view()[self.kv_index as int].host.len() == self.bundle[self.kv_index as int].host.len());
        let next = self.host_index + 1;
        KvCompleted { host_index: next, ..self }.begin_pair()
    }

    /// Hands the procedure the answer to its last request (`Reply::Done` to start it);
    /// it says what comes next.
    pub fn step(self, reply: Reply) -> (res: (KvCompleted, Step<()>))
        ensures
            (res.0@, res.1@) == kv_completed_next(self@, reply@),
    {
        match self.phase {
            CompletedPhase::Start => self.begin_pair(),
            CompletedPhase::EnabledHostCheck => match reply {
                Reply::Links(l) => if !self.in_pair() {
                    self.end(Err(HostError::Protocol))
                } else {
                    match validate_host(&l) {
                        Err(e) => self.end(Err(e)),
                        Ok(_) => {
                            let req = self.probe(LinkTag::NeedUpdatesEnabled);
                            (KvCompleted { phase: CompletedPhase::EnabledLinks, ..self }, Step::Perform(req))
                        },
                    }
                },
                _ => self.end(Err(HostError::Protocol)),
            },
            CompletedPhase::EnabledLinks => match reply {
                Reply::Links(l) => if !self.in_pair() {
                    self.end(Err(HostError::Protocol))
                } else if self.found(&l) {
                    let req = self.removal(LinkTag::NeedUpdatesEnabled);
                    (KvCompleted { phase: CompletedPhase::EnabledRemoving, ..self }, Step::Perform(req))
                } else {
                    let req = handle_is_registered_as_host(&self.agent);
                    (KvCompleted { phase: CompletedPhase::DisabledHostCheck, ..self }, Step::Perform(req))
                },
                _ => self.end(Err(HostError::Protocol)),
            },
            CompletedPhase::EnabledRemoving => if self.in_pair() {
                let req = handle_is_registered_as_host(&self.agent);
                (KvCompleted { phase: CompletedPhase::DisabledHostCheck, ..self }, Step::Perform(req))
            } else {
                self.end(Err(HostError::Protocol))
            },
            CompletedPhase::DisabledHostCheck => match reply {
                Reply::Links(l) => if !self.in_pair() {
                    self.end(Err(HostError::Protocol))
                } else {
                    match validate_host(&l) {
                        Err(e) => self.end(Err(e)),
                        Ok(_) => {
                            let req = self.probe(LinkTag::NeedUpdatesDisabled);
                            (KvCompleted { phase: CompletedPhase::DisabledLinks, ..self }, Step::Perform(req))
                        },
                    }
                },
                _ => self.end(Err(HostError::Protocol)),
            },
            CompletedPhase::DisabledLinks => match reply {
                Reply::Links(l) => if !self.in_pair() {
                    self.end(Err(HostError::Protocol))
                } else if self.found(&l) {
                    let req = self.removal(LinkTag::NeedUpdatesDisabled);
                    (KvCompleted { phase: CompletedPhase::DisabledRemoving, ..self }, Step::Perform(req))
                } else {
                    self.next_host()
                },
                _ => self.end(Err(HostError::Protocol)),
            },
            CompletedPhase::DisabledRemoving => if self.in_pair() {
                self.next_host()
            } else {
                self.end(Err(HostError::Protocol))
            },
            CompletedPhase::Finished => self.end(Err(HostError::Protocol)),
        }
    }
}

} // verus!
