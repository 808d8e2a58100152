use vstd::prelude::*;
use crate::dht::{LinkTag, Reply, ReplyView, Request, RequestView, Step, StepView};
use crate::host::{handle_is_registered_as_host, registration_request};
use crate::error::{HostError, HostErrorView};
use crate::host::{validate_host, AllApps, AllAppsView};
use crate::app_config::{LoadedAppConfig, LoadedAppConfigView};

verus! {

/// Where the listing of all apps stands.
#[derive(Clone, Copy, PartialEq, Eq, Structural, Debug)]
pub enum AllAppsPhase {
    Start,
    /// Awaits the agent's `verified_host_tag` links.
    HostCheck,
    /// Awaits the address of the anchor of all apps.
    Anchoring,
    /// Awaits the anchor's `all_apps_tag` links.
    AppLinks,
    /// Awaits the details of the next app.
    Details,
    Finished,
}

/// The listing of every registered app with its details, as a procedure: zome
/// function `get_all_apps`.
#[derive(Debug)]
pub struct GetAllApps {
    pub phase: AllAppsPhase,
    pub agent: String,
    /// The apps linked from the anchor, in the order read.
    pub apps: Vec<String>,
    /// The apps listed so far, with their details.
    pub listed: Vec<AllApps>,
}

pub struct GetAllAppsView {
    pub phase: AllAppsPhase,
    pub agent: Seq<char>,
    pub apps: Seq<Seq<char>>,
    pub listed: Seq<AllAppsView>,
}

impl View for GetAllApps {
    type V = GetAllAppsView;

    open spec fn view(&self) -> GetAllAppsView {
        GetAllAppsView {
            phase: self.phase,
            agent: self.agent@,
            apps: self.apps.deep_view(),
            listed: self.listed.deep_view(),
        }
    }
}

pub open spec fn all_apps_at(s: GetAllAppsView, phase: AllAppsPhase) -> GetAllAppsView {
    GetAllAppsView { phase, ..s }
}

/// Asks for the details of the next app not listed yet; with none left, ends with
/// the list.
pub open spec fn next_details(s: GetAllAppsView) -> (GetAllAppsView, StepView<Seq<AllAppsView>>) {
    if s.listed.len() < s.apps.len() {
        (
            all_apps_at(s, AllAppsPhase::Details),
            StepView::Perform(RequestView::GetAppDetails { app_hash: s.apps[s.listed.len() as int] }),
        )
    } else {
        (
            GetAllAppsView { phase: AllAppsPhase::Finished, listed: seq![], ..s },
            StepView::Finish(Ok(s.listed)),
        )
    }
}

/// The transitions of the listing. It is refused for an agent that is no host. Else
/// it commits the anchor of all apps, reads the anchor's `all_apps_tag` links, asks
/// the provider zome for the details of each app in the order read, and ends with
/// every app and its details in that order.
pub open spec fn get_all_apps_next(s: GetAllAppsView, reply: ReplyView) -> (
    GetAllAppsView,
    StepView<Seq<AllAppsView>>,
) {
    let protocol = (all_apps_at(s, AllAppsPhase::Finished), StepView::Finish(Err(HostErrorView::Protocol)));
    match s.phase {
        AllAppsPhase::Start => (all_apps_at(s, AllAppsPhase::HostCheck), StepView::Perform(registration_request(s.agent))),
        AllAppsPhase::HostCheck => match reply {
            ReplyView::Links(l) => if l.len() == 0 {
                (all_apps_at(s, AllAppsPhase::Finished), StepView::Finish(Err(HostErrorView::NotAHost)))
            } else {
                (all_apps_at(s, AllAppsPhase::Anchoring), StepView::Perform(RequestView::CommitAllAppsAnchor))
            },
            _ => protocol,
        },
        AllAppsPhase::Anchoring => match reply {
            ReplyView::Address(a) => (
                all_apps_at(s, AllAppsPhase::AppLinks),
                StepView::Perform(RequestView::GetLinks { base: a, tag: LinkTag::AllApps }),
            ),
            _ => protocol,
        },
        AllAppsPhase::AppLinks => match reply {
            ReplyView::Links(l) => next_details(GetAllAppsView { apps: l, listed: seq![], ..s }),
            _ => protocol,
        },
        AllAppsPhase::Details => match reply {
            ReplyView::Details(d) => if s.listed.len() < s.apps.len() {
                next_details(
                    GetAllAppsView {
                        listed: s.listed.push(AllAppsView { hash: s.apps[s.listed.len() as int], details: d }),
                        ..s
                    },
                )
            } else {
                protocol
            },
            _ => protocol,
        },
        AllAppsPhase::Finished => protocol,
    }
}

/// Starts the listing of all apps for the host `agent_address`.
pub fn handle_get_all_apps(agent_address: String) -> (m: GetAllApps)
    ensures
        m@ == (GetAllAppsView { phase: AllAppsPhase::Start, agent: agent_address@, apps: seq![], listed: seq![] }),
{
    let m = GetAllApps { phase: AllAppsPhase::Start, agent: agent_address, apps: Vec::new(), listed: Vec::new() };
    assert(m.apps.deep_view() =~= Seq::<Seq<char>>::empty());
    assert(m.listed.deep_view() =~= Seq::<AllAppsView>::empty());
    m
}

impl GetAllApps {
    fn next_details(self) -> (res: (GetAllApps, Step<Vec<AllApps>>))
        ensures
            (res.0@, res.1@) == next_details(self@),
    {
        let n = self.listed.len();
        if n < self.apps.len() {
            let req = Request::GetAppDetails { app_hash: self.apps[n].clone() };
            (GetAllApps { phase: AllAppsPhase::Details, ..self }, Step::Perform(req))
        } else {
            let GetAllApps { phase, agent, apps, listed } = self;
            let rest: Vec<AllApps> = Vec::new();
            assert(rest.deep_view() =~= Seq::<AllAppsView>::empty());
            (GetAllApps { phase: AllAppsPhase::Finished, agent, apps, listed: rest }, Step::Finish(Ok(listed)))
        }
    }

    fn end(self, e: HostError) -> (res: (GetAllApps, Step<Vec<AllApps>>))
        ensures
            res.0@ == all_apps_at(self@, AllAppsPhase::Finished),
            res.1@ == StepView::<Seq<AllAppsView>>::Finish(Err(e@)),
    {
        (GetAllApps { phase: AllAppsPhase::Finished, ..self }, Step::Finish(Err(e)))
    }

    /// Hands the procedure the answer to its last request (`Reply::Done` to start it);
    /// it says what comes next.
    pub fn step(self, reply: Reply) -> (res: (GetAllApps, Step<Vec<AllApps>>))
        ensures
            (res.0@, res.1@) == get_all_apps_next(self@, reply@),
    {
        match self.phase {
            AllAppsPhase::Start => {
                let req = handle_is_registered_as_host(&self.agent);
                (GetAllApps { phase: AllAppsPhase::HostCheck, ..self }, Step::Perform(req))
            },
            AllAppsPhase::HostCheck => match reply {
                Reply::Links(l) => match validate_host(&l) {
                    Err(e) => self.end(e),
                    Ok(_) => (GetAllApps { phase: AllAppsPhase::Anchoring, ..self }, Step::Perform(Request::CommitAllAppsAnchor)),
                },
                _ => self.end(HostError::Protocol),
            },
            AllAppsPhase::Anchoring => match reply {
                Reply::Address(a) => (
                    GetAllApps { phase: AllAppsPhase::AppLinks, ..self },
                    Step::Perform(Request::GetLinks { base: a, tag: LinkTag::AllApps }),
                ),
                _ => self.end(HostError::Protocol),
            },
            AllAppsPhase::AppLinks => match reply {
                Reply::Links(l) => {
                    let fresh: Vec<AllApps> = Vec::new();
                    assert(fresh.deep_view() =~= Seq::<AllAppsView>::empty());
                    GetAllApps { apps: l, listed: fresh, ..self }.next_details()
                },
                _ => self.end(HostError::Protocol),
            },
            AllAppsPhase::Details => match reply {
                Reply::Details(d) => {
                    let n = self.listed.len();
                    if n < self.apps.len() {
                        let mut m = self;
                        let ghost before = m.listed.deep_view();
                        let hash = m.apps[n].clone();
                        m.listed.push(AllApps { hash, details: d });
                        assert(m.listed.deep_view() =~= before.push(AllAppsView { hash: m.apps.deep_view()[n as int], details: d@ }));
                        m.next_details()
                    } else {
                        self.end(HostError::Protocol)
                    }
                },
                _ => self.end(HostError::Protocol),
            },
            AllAppsPhase::Finished => self.end(HostError::Protocol),
        }
    }
}

/// Where the listing of the apps that a host enabled stands.
#[derive(Clone, Copy, PartialEq, Eq, Structural, Debug)]
pub enum EnabledListPhase {
    Start,
    /// Awaits the agent's `verified_host_tag` links.
    HostCheck,
    /// Awaits the app configurations at the agent's `apps_enabled` links.
    Loading,
    Finished,
}

/// The listing of the app configurations that the host `agent` enabled, as a
/// procedure: zome function `get_enabled_app_list`.
#[derive(Debug)]
pub struct GetEnabledAppList {
    pub phase: EnabledListPhase,
    pub agent: String,
}

pub struct GetEnabledAppListView {
    pub phase: EnabledListPhase,
    pub agent: Seq<char>,
}

impl View for GetEnabledAppList {
    type V = GetEnabledAppListView;

    open spec fn view(&self) -> GetEnabledAppListView {
        GetEnabledAppListView { phase: self.phase, agent: self.agent@ }
    }
}

/// The transitions of the listing. It is refused for an agent that is no host; else it
/// loads the app configurations at the agent's `apps_enabled` links and ends with them.
pub open spec fn enabled_list_next(s: GetEnabledAppListView, reply: ReplyView) -> (
    GetEnabledAppListView,
    StepView<Seq<LoadedAppConfigView>>,
) {
    let finished = GetEnabledAppListView { phase: EnabledListPhase::Finished, ..s };
    let protocol = (finished, StepView::Finish(Err(HostErrorView::Protocol)));
    match s.phase {
        EnabledListPhase::Start => (
            GetEnabledAppListView { phase: EnabledListPhase::HostCheck, ..s },
            StepView::Perform(registration_request(s.agent)),
        ),
        EnabledListPhase::HostCheck => match reply {
            ReplyView::Links(l) => if l.len() == 0 {
                (finished, StepView::Finish(Err(HostErrorView::NotAHost)))
            } else {
                (
                    GetEnabledAppListView { phase: EnabledListPhase::Loading, ..s },
                    StepView::Perform(RequestView::LoadAppConfigs { base: s.agent, tag: LinkTag::AppsEnabled }),
                )
            },
            _ => protocol,
        },
        EnabledListPhase::Loading => match reply {
            ReplyView::AppConfigs(c) => (finished, StepView::Finish(Ok(c))),
            _ => protocol,
        },
        EnabledListPhase::Finished => protocol,
    }
}

/// Starts the listing of the apps that the host `agent_address` enabled.
pub fn handle_get_enabled_app_list(agent_address: String) -> (m: GetEnabledAppList)
    ensures
        m@ == (GetEnabledAppListView { phase: EnabledListPhase::Start, agent: agent_address@ }),
{
    GetEnabledAppList { phase: EnabledListPhase::Start, agent: agent_address }
}

impl GetEnabledAppList {
    /// Hands the procedure the answer to its last request (`Reply::Done` to start it);
    /// it says what comes next.
    pub fn step(self, reply: Reply) -> (res: (GetEnabledAppList, Step<Vec<LoadedAppConfig>>))
        ensures
            (res.0@, res.1@) == enabled_list_next(self@, reply@),
    {
        let GetEnabledAppList { phase, agent } = self;
        match phase {
            EnabledListPhase::Start => {
                let req = handle_is_registered_as_host(&agent);
                (GetEnabledAppList { phase: EnabledListPhase::HostCheck, agent }, Step::Perform(req))
            },
            EnabledListPhase::HostCheck => match reply {
                Reply::Links(l) => match validate_host(&l) {
                    Err(e) => (GetEnabledAppList { phase: EnabledListPhase::Finished, agent }, Step::Finish(Err(e))),
                    Ok(_) => {
                        let req = Request::LoadAppConfigs { base: agent.clone(), tag: LinkTag::AppsEnabled };
                        (GetEnabledAppList { phase: EnabledListPhase::Loading, agent }, Step::Perform(req))
                    },
                },
                _ => (GetEnabledAppList { phase: EnabledListPhase::Finished, agent }, Step::Finish(Err(HostError::Protocol))),
            },
            EnabledListPhase::Loading => match reply {
                Reply::AppConfigs(c) => (GetEnabledAppList { phase: EnabledListPhase::Finished, agent }, Step::Finish(Ok(c))),
                _ => (GetEnabledAppList { phase: EnabledListPhase::Finished, agent }, Step::Finish(Err(HostError::Protocol))),
            },
            EnabledListPhase::Finished => (
                GetEnabledAppList { phase: EnabledListPhase::Finished, agent },
                Step::Finish(Err(HostError::Protocol)),
            ),
        }
    }
}

} // verus!
