use vstd::prelude::*;
use crate::dht::{contains_address, lists, LinkTag, Reply, ReplyView, Request, RequestView, Step, StepView};
use crate::host::{handle_is_registered_as_host, registration_request};
use crate::error::{HostError, HostErrorView};
use crate::host::validate_host;

verus! {

/// The links that disabling an app looks for, in the order in which it does, each
/// removed where it is found.
#[derive(Clone, Copy, PartialEq, Eq, Structural, Debug)]
pub enum DisableProbe {
    /// A `host_enabled` link of the agent listing the app; removes the app's
    /// `host_enabled` link to the agent.
    HostEnabledOfAgent,
    /// A `host_enabled` link of the app listing the agent; removes the agent's
    /// `apps_enabled` link to the app.
    HostEnabledOfApp,
    /// A `recently_enabled_app_tag` link of the agent listing the app; removes the
    /// app's such link to the agent.
    RecentlyEnabled,
    /// A `need_updates_enabled_from_kv_store` link of the agent listing the app;
    /// removes the app's such link to the agent.
    PendingEnabled,
}

/// Where the disabling of an app stands.
#[derive(Clone, Copy, PartialEq, Eq, Structural, Debug)]
pub enum DisablePhase {
    Start,
    /// Awaits the agent's `verified_host_tag` links.
    HostCheck,
    /// Awaits the agent's `apps_enabled` links.
    EnabledLinks,
    /// Awaits the agent's `verified_host_tag` links, before the probe.
    ProbeHostCheck(DisableProbe),
    /// Awaits the links that the probe reads.
    ProbeLinks(DisableProbe),
    /// Awaits the removal that the probe found due.
    ProbeRemoving(DisableProbe),
    /// Awaits the `recently_disabled_app_tag` link.
    LinkingDisabled,
    Finished,
}

/// The disabling of `app_hash` on the host `agent`, as a procedure: zome function
/// `disable_app`.
#[derive(Debug)]
pub struct DisableApp {
    pub phase: DisablePhase,
    pub agent: String,
    pub app_hash: String,
}

pub struct DisableAppView {
    pub phase: DisablePhase,
    pub agent: Seq<char>,
    pub app_hash: Seq<char>,
}

impl View for DisableApp {
    type V = DisableAppView;

    open spec fn view(&self) -> DisableAppView {
        DisableAppView { phase: self.phase, agent: self.agent@, app_hash: self.app_hash@ }
    }
}

pub open spec fn disable_at(s: DisableAppView, phase: DisablePhase) -> DisableAppView {
    DisableAppView { phase, ..s }
}

/// The links that a probe reads.
pub open spec fn probe_query(s: DisableAppView, p: DisableProbe) -> RequestView {
    match p {
        DisableProbe::HostEnabledOfAgent => RequestView::GetLinks { base: s.agent, tag: LinkTag::HostEnabled },
        DisableProbe::HostEnabledOfApp => RequestView::GetLinks { base: s.app_hash, tag: LinkTag::HostEnabled },
        DisableProbe::RecentlyEnabled => RequestView::GetLinks { base: s.agent, tag: LinkTag::RecentlyEnabledApp },
        DisableProbe::PendingEnabled => RequestView::GetLinks { base: s.agent, tag: LinkTag::NeedUpdatesEnabled },
    }
}

/// The address that a probe looks for among the links it read.
pub open spec fn probe_target(s: DisableAppView, p: DisableProbe) -> Seq<char> {
    match p {
        DisableProbe::HostEnabledOfApp => s.agent,
        _ => s.app_hash,
    }
}

/// The link that a probe removes when it found its address.
pub open spec fn probe_removal(s: DisableAppView, p: DisableProbe) -> RequestView {
    match p {
        DisableProbe::HostEnabledOfAgent => RequestView::RemoveLink { base: s.app_hash, target: s.agent, tag: LinkTag::HostEnabled },
        DisableProbe::HostEnabledOfApp => RequestView::RemoveLink { base: s.agent, target: s.app_hash, tag: LinkTag::AppsEnabled },
        DisableProbe::RecentlyEnabled => RequestView::RemoveLink { base: s.app_hash, target: s.agent, tag: LinkTag::RecentlyEnabledApp },
        DisableProbe::PendingEnabled => RequestView::RemoveLink { base: s.app_hash, target: s.agent, tag: LinkTag::NeedUpdatesEnabled },
    }
}

/// What follows a probe: the next probe, or after the last, marking the app as
/// recently disabled.
pub open spec fn after_probe(s: DisableAppView, p: DisableProbe) -> (DisableAppView, StepView<()>) {
    match p {
        DisableProbe::HostEnabledOfAgent => (
            disable_at(s, DisablePhase::ProbeHostCheck(DisableProbe::HostEnabledOfApp)),
            StepView::Perform(registration_request(s.agent)),
        ),
        DisableProbe::HostEnabledOfApp => (
            disable_at(s, DisablePhase::ProbeHostCheck(DisableProbe::RecentlyEnabled)),
            StepView::Perform(registration_request(s.agent)),
        ),
        DisableProbe::RecentlyEnabled => (
            disable_at(s, DisablePhase::ProbeHostCheck(DisableProbe::PendingEnabled)),
            StepView::Perform(registration_request(s.agent)),
        ),
        DisableProbe::PendingEnabled => (
            disable_at(s, DisablePhase::LinkingDisabled),
            StepView::Perform(
                RequestView::LinkEntries { base: s.app_hash, target: s.agent, tag: LinkTag::RecentlyDisabledApp },
            ),
        ),
    }
}

/// The transitions of the disabling. It is refused for an agent that is no host and
/// ends at once for an app that the agent's `apps_enabled` links do not list. Else it
/// runs the four probes in order, each after checking again that the agent is a
/// host, then links the app to the agent as recently disabled and ends.
pub open spec fn disable_app_next(s: DisableAppView, reply: ReplyView) -> (DisableAppView, StepView<()>) {
    let protocol = (disable_at(s, DisablePhase::Finished), StepView::Finish(Err(HostErrorView::Protocol)));
    let refused = (disable_at(s, DisablePhase::Finished), StepView::Finish(Err(HostErrorView::NotAHost)));
    match s.phase {
        DisablePhase::Start => (disable_at(s, DisablePhase::HostCheck), StepView::Perform(registration_request(s.agent))),
        DisablePhase::HostCheck => match reply {
            ReplyView::Links(l) => if l.len() == 0 {
                refused
            } else {
                (
                    disable_at(s, DisablePhase::EnabledLinks),
                    StepView::Perform(RequestView::GetLinks { base: s.agent, tag: LinkTag::AppsEnabled }),
                )
            },
            _ => protocol,
        },
        DisablePhase::EnabledLinks => match reply {
            ReplyView::Links(l) => if lists(l, s.app_hash) {
                (
                    disable_at(s, DisablePhase::ProbeHostCheck(DisableProbe::HostEnabledOfAgent)),
                    StepView::Perform(registration_request(s.agent)),
                )
            } else {
                (disable_at(s, DisablePhase::Finished), StepView::Finish(Ok(())))
            },
            _ => protocol,
        },
        DisablePhase::ProbeHostCheck(p) => match reply {
            ReplyView::Links(l) => if l.len() == 0 {
                refused
            } else {
                (disable_at(s, DisablePhase::ProbeLinks(p)), StepView::Perform(probe_query(s, p)))
            },
            _ => protocol,
        },
        DisablePhase::ProbeLinks(p) => match reply {
            ReplyView::Links(l) => if lists(l, probe_target(s, p)) {
                (disable_at(s, DisablePhase::ProbeRemoving(p)), StepView::Perform(probe_removal(s, p)))
            } else {
                after_probe(s, p)
            },
            _ => protocol,
        },
        DisablePhase::ProbeRemoving(p) => after_probe(s, p),
        DisablePhase::LinkingDisabled => (disable_at(s, DisablePhase::Finished), StepView::Finish(Ok(()))),
        DisablePhase::Finished => protocol,
    }
}

/// Starts the disabling of `app_hash` on the host `agent_address`.
pub fn handle_disable_app(agent_address: String, app_hash: String) -> (m: DisableApp)
    ensures
        m@ == (DisableAppView { phase: DisablePhase::Start, agent: agent_address@, app_hash: app_hash@ }),
{
    DisableApp { phase: DisablePhase::Start, agent: agent_address, app_hash }
}

impl DisableApp {
    fn query(&self, p: DisableProbe) -> (r: Request)
        ensures
            r@ == probe_query(self@, p),
    {
        match p {
            DisableProbe::HostEnabledOfAgent => Request::GetLinks { base: self.agent.clone(), tag: LinkTag::HostEnabled },
            DisableProbe::HostEnabledOfApp => Request::GetLinks { base: self.app_hash.clone(), tag: LinkTag::HostEnabled },
            DisableProbe::RecentlyEnabled => Request::GetLinks { base: self.agent.clone(), tag: LinkTag::RecentlyEnabledApp },
            DisableProbe::PendingEnabled => Request::GetLinks { base: self.agent.clone(), tag: LinkTag::NeedUpdatesEnabled },
        }
    }

    fn removal(&self, p: DisableProbe) -> (r: Request)
        ensures
            r@ == probe_removal(self@, p),
    {
        match p {
            DisableProbe::HostEnabledOfAgent => Request::RemoveLink {
                base: self.app_hash.clone(),
                target: self.agent.clone(),
                tag: LinkTag::HostEnabled,
            },
            DisableProbe::HostEnabledOfApp => Request::RemoveLink {
                base: self.agent.clone(),
                target: self.app_hash.clone(),
                tag: LinkTag::AppsEnabled,
            },
            DisableProbe::RecentlyEnabled => Request::RemoveLink {
                base: self.app_hash.clone(),
                target: self.agent.clone(),
                tag: LinkTag::RecentlyEnabledApp,
            },
            DisableProbe::PendingEnabled => Request::RemoveLink {
                base: self.app_hash.clone(),
                target: self.agent.clone(),
                tag: LinkTag::NeedUpdatesEnabled,
            },
        }
    }

    fn found(&self, p: DisableProbe, links: &Vec<String>) -> (b: bool)
        ensures
            b == lists(links.deep_view(), probe_target(self@, p)),
    {
        match p {
            DisableProbe::HostEnabledOfApp => contains_address(links, &self.agent),
            _ => contains_address(links, &self.app_hash),
        }
    }

    fn after(self, p: DisableProbe) -> (res: (DisableApp, Step<()>))
        ensures
            (res.0@, res.1@) == after_probe(self@, p),
    {
        match p {
            DisableProbe::HostEnabledOfAgent => {
                let req = handle_is_registered_as_host(&self.agent);
                (DisableApp { phase: DisablePhase::ProbeHostCheck(DisableProbe::HostEnabledOfApp), ..self }, Step::Perform(req))
            },
            DisableProbe::HostEnabledOfApp => {
                let req = handle_is_registered_as_host(&self.agent);
                (DisableApp { phase: DisablePhase::ProbeHostCheck(DisableProbe::RecentlyEnabled), ..self }, Step::Perform(req))
            },
            DisableProbe::RecentlyEnabled => {
                let req = handle_is_registered_as_host(&self.agent);
                (DisableApp { phase: DisablePhase::ProbeHostCheck(DisableProbe::PendingEnabled), ..self }, Step::Perform(req))
            },
            DisableProbe::PendingEnabled => {
                let req = Request::LinkEntries {
                    base: self.app_hash.clone(),
                    target: self.agent.clone(),
                    tag: LinkTag::RecentlyDisabledApp,
                };
                (DisableApp { phase: DisablePhase::LinkingDisabled, ..self }, Step::Perform(req))
            },
        }
    }

    fn end(self, r: Result<(), HostError>) -> (res: (DisableApp, Step<()>))
        ensures
            res.0@ == disable_at(self@, DisablePhase::Finished),
            res.1 == Step::<()>::Finish(r),
    {
        (DisableApp { phase: DisablePhase::Finished, ..self }, Step::Finish(r))
    }

    /// Hands the procedure the answer to its last request (`Reply::Done` to start it);
    /// it says what comes next.
    pub fn step(self, reply: Reply) -> (res: (DisableApp, Step<()>))
        ensures
            (res.0@, res.1@) == disable_app_next(self@, reply@),
    {
        match self.phase {
            DisablePhase::Start => {
                let req = handle_is_registered_as_host(&self.agent);
                (DisableApp { phase: DisablePhase::HostCheck, ..self }, Step::Perform(req))
            },
            DisablePhase::HostCheck => match reply {
                Reply::Links(l) => match validate_host(&l) {
                    Err(e) => self.end(Err(e)),
                    Ok(_) => {
                        let req = Request::GetLinks { base: self.agent.clone(), tag: LinkTag::AppsEnabled };
                        (DisableApp { phase: DisablePhase::EnabledLinks, ..self }, Step::Perform(req))
                    },
                },
                _ => self.end(Err(HostError::Protocol)),
            },
            DisablePhase::EnabledLinks => match reply {
                Reply::Links(l) => if contains_address(&l, &self.app_hash) {
                    let req = handle_is_registered_as_host(&self.agent);
                    (
                        DisableApp { phase: DisablePhase::ProbeHostCheck(DisableProbe::HostEnabledOfAgent), ..self },
                        Step::Perform(req),
                    )
                } else {
                    self.end(Ok(()))
                },
                _ => self.end(Err(HostError::Protocol)),
            },
            DisablePhase::ProbeHostCheck(p) => match reply {
                Reply::Links(l) => match validate_host(&l) {
                    Err(e) => self.end(Err(e)),
                    Ok(_) => {
                        let req = self.query(p);
                        (DisableApp { phase: DisablePhase::ProbeLinks(p), ..self }, Step::Perform(req))
                    },
                },
                _ => self.end(Err(HostError::Protocol)),
            },
            DisablePhase::ProbeLinks(p) => match reply {
                Reply::Links(l) => if self.found(p, &l) {
                    let req = self.removal(p);
                    (DisableApp { phase: DisablePhase::ProbeRemoving(p), ..self }, Step::Perform(req))
                } else {
                    self.after(p)
                },
                _ => self.end(Err(HostError::Protocol)),
            },
            DisablePhase::ProbeRemoving(p) => self.after(p),
            DisablePhase::LinkingDisabled => self.end(Ok(())),
            DisablePhase::Finished => self.end(Err(HostError::Protocol)),
        }
    }
}

} // verus!
