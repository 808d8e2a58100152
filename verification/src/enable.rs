use vstd::prelude::*;
use crate::dht::{
    contains_address, lists, LinkTag, Reply, ReplyView, Request, RequestView, Step, StepView,
    PROPAGATION_WAIT_MILLIS,
};
use crate::error::{HostError, HostErrorView};
use crate::host::{handle_is_registered_as_host, registration_request, validate_host};

verus! {

/// Where the enabling of an app stands.
#[derive(Clone, Copy, PartialEq, Eq, Structural, Debug)]
pub enum EnablePhase {
    /// Nothing asked yet.
    Start,
    /// Awaits the agent's `verified_host_tag` links.
    HostCheck,
    /// Awaits the agent's `apps_enabled` links.
    EnabledLinks,
    /// Awaits the `host_enabled` / `apps_enabled` pair of links.
    LinkingBoth,
    /// Awaits the `recently_enabled_app_tag` link.
    LinkingRecent,
    /// Awaits the agent's `verified_host_tag` links, before reading its recent disablings.
    DisabledHostCheck,
    /// Awaits the agent's `recently_disabled_app_tag` links.
    DisabledLinks,
    /// Awaits the removal of the `recently_disabled_app_tag` link.
    RemovingDisabled,
    /// Awaits the agent's `verified_host_tag` links, before reading its pending disablings.
    PendingHostCheck,
    /// Awaits the agent's `need_updates_disabled_from_kv_store` links.
    PendingLinks,
    /// Awaits the removal of the `need_updates_disabled_from_kv_store` link.
    RemovingPending,
    /// Awaits the end of the wait for removals to propagate.
    Waiting,
    /// Has ended.
    Finished,
}

/// The enabling of `app_hash` on the host `agent`, as a procedure: zome function
/// `enable_app`.
#[derive(Debug)]
pub struct EnableApp {
    pub phase: EnablePhase,
    pub agent: String,
    pub app_hash: String,
}

pub struct EnableAppView {
    pub phase: EnablePhase,
    pub agent: Seq<char>,
    pub app_hash: Seq<char>,
}

impl View for EnableApp {
    type V = EnableAppView;

    open spec fn view(&self) -> EnableAppView {
        EnableAppView { phase: self.phase, agent: self.agent@, app_hash: self.app_hash@ }
    }
}

pub open spec fn enable_at(s: EnableAppView, phase: EnablePhase) -> EnableAppView {
    EnableAppView { phase, ..s }
}

/// The transitions of the enabling. It is refused for an agent that is no host,
/// ends at once for an app that is already enabled, else links app and host both
/// ways and marks the app as recently enabled; then it removes the marks of a recent
/// or pending disabling where the agent's own links list the app, waits for the
/// removals to propagate and ends.
pub open spec fn enable_app_next(s: EnableAppView, reply: ReplyView) -> (EnableAppView, StepView<()>) {
    let protocol = (enable_at(s, EnablePhase::Finished), StepView::Finish(Err(HostErrorView::Protocol)));
    let refused = (enable_at(s, EnablePhase::Finished), StepView::Finish(Err(HostErrorView::NotAHost)));
    match s.phase {
        EnablePhase::Start => (enable_at(s, EnablePhase::HostCheck), StepView::Perform(registration_request(s.agent))),
        EnablePhase::HostCheck => match reply {
            ReplyView::Links(l) => if l.len() == 0 {
                refused
            } else {
                (
                    enable_at(s, EnablePhase::EnabledLinks),
                    StepView::Perform(RequestView::GetLinks { base: s.agent, tag: LinkTag::AppsEnabled }),
                )
            },
            _ => protocol,
        },
        EnablePhase::EnabledLinks => match reply {
            ReplyView::Links(l) => if lists(l, s.app_hash) {
                (enable_at(s, EnablePhase::Finished), StepView::Finish(Ok(())))
            } else {
                (
                    enable_at(s, EnablePhase::LinkingBoth),
                    StepView::Perform(
                        RequestView::LinkEntriesBidir {
                            base: s.app_hash,
                            target: s.agent,
                            tag: LinkTag::HostEnabled,
                            back_tag: LinkTag::AppsEnabled,
                        },
                    ),
                )
            },
            _ => protocol,
        },
        EnablePhase::LinkingBoth => (
            enable_at(s, EnablePhase::LinkingRecent),
            StepView::Perform(
                RequestView::LinkEntries { base: s.app_hash, target: s.agent, tag: LinkTag::RecentlyEnabledApp },
            ),
        ),
        EnablePhase::LinkingRecent => (
            enable_at(s, EnablePhase::DisabledHostCheck),
            StepView::Perform(registration_request(s.agent)),
        ),
        EnablePhase::DisabledHostCheck => match reply {
            ReplyView::Links(l) => if l.len() == 0 {
                refused
            } else {
                (
                    enable_at(s, EnablePhase::DisabledLinks),
                    StepView::Perform(RequestView::GetLinks { base: s.agent, tag: LinkTag::RecentlyDisabledApp }),
                )
            },
            _ => protocol,
        },
        EnablePhase::DisabledLinks => match reply {
            ReplyView::Links(l) => if lists(l, s.app_hash) {
                (
                    enable_at(s, EnablePhase::RemovingDisabled),
                    StepView::Perform(
                        RequestView::RemoveLink {
                            base: s.app_hash,
                            target: s.agent,
                            tag: LinkTag::RecentlyDisabledApp,
                        },
                    ),
                )
            } else {
                (enable_at(s, EnablePhase::PendingHostCheck), StepView::Perform(registration_request(s.agent)))
            },
            _ => protocol,
        },
        EnablePhase::RemovingDisabled => (
            enable_at(s, EnablePhase::PendingHostCheck),
            StepView::Perform(registration_request(s.agent)),
        ),
        EnablePhase::PendingHostCheck => match reply {
            ReplyView::Links(l) => if l.len() == 0 {
                refused
            } else {
                (
                    enable_at(s, EnablePhase::PendingLinks),
                    StepView::Perform(RequestView::GetLinks { base: s.agent, tag: LinkTag::NeedUpdatesDisabled }),
                )
            },
            _ => protocol,
        },
        EnablePhase::PendingLinks => match reply {
            ReplyView::Links(l) => if lists(l, s.app_hash) {
                (
                    enable_at(s, EnablePhase::RemovingPending),
                    StepView::Perform(
                        RequestView::RemoveLink {
                            base: s.app_hash,
                            target: s.agent,
                            tag: LinkTag::NeedUpdatesDisabled,
                        },
                    ),
                )
            } else {
                (
                    enable_at(s, EnablePhase::Waiting),
                    StepView::Perform(RequestView::Sleep { millis: PROPAGATION_WAIT_MILLIS }),
                )
            },
            _ => protocol,
        },
        EnablePhase::RemovingPending => (
            enable_at(s, EnablePhase::Waiting),
            StepView::Perform(RequestView::Sleep { millis: PROPAGATION_WAIT_MILLIS }),
        ),
        EnablePhase::Waiting => (enable_at(s, EnablePhase::Finished), StepView::Finish(Ok(()))),
        EnablePhase::Finished => protocol,
    }
}

/// Starts the enabling of `app_hash` on the host `agent_address`.
pub fn handle_enable_app(agent_address: String, app_hash: String) -> (m: EnableApp)
    ensures
        m@ == (EnableAppView { phase: EnablePhase::Start, agent: agent_address@, app_hash: app_hash@ }),
{
    EnableApp { phase: EnablePhase::Start, agent: agent_address, app_hash }
}

impl EnableApp {
    /// Hands the procedure the answer to its last request (`Reply::Done` to start it);
    /// it says what comes next.
    pub fn step(self, reply: Reply) -> (res: (EnableApp, Step<()>))
        ensures
            (res.0@, res.1@) == enable_app_next(self@, reply@),
    {
        let EnableApp { phase, agent, app_hash } = self;
        match phase {
            EnablePhase::Start => {
                let req = handle_is_registered_as_host(&agent);
                (EnableApp { phase: EnablePhase::HostCheck, agent, app_hash }, Step::Perform(req))
            },
            EnablePhase::HostCheck => match reply {
                Reply::Links(l) => match validate_host(&l) {
                    Err(e) => (EnableApp { phase: EnablePhase::Finished, agent, app_hash }, Step::Finish(Err(e))),
                    Ok(_) => {
                        let req = Request::GetLinks { base: agent.clone(), tag: LinkTag::AppsEnabled };
                        (EnableApp { phase: EnablePhase::EnabledLinks, agent, app_hash }, Step::Perform(req))
                    },
                },
                _ => (
                    EnableApp { phase: EnablePhase::Finished, agent, app_hash },
                    Step::Finish(Err(HostError::Protocol)),
                ),
            },
            EnablePhase::EnabledLinks => match reply {
                Reply::Links(l) => if contains_address(&l, &app_hash) {
                    (EnableApp { phase: EnablePhase::Finished, agent, app_hash }, Step::Finish(Ok(())))
                } else {
                    let req = Request::LinkEntriesBidir {
                        base: app_hash.clone(),
                        target: agent.clone(),
                        tag: LinkTag::HostEnabled,
                        back_tag: LinkTag::AppsEnabled,
                    };
                    (EnableApp { phase: EnablePhase::LinkingBoth, agent, app_hash }, Step::Perform(req))
                },
                _ => (
                    EnableApp { phase: EnablePhase::Finished, agent, app_hash },
                    Step::Finish(Err(HostError::Protocol)),
                ),
            },
            EnablePhase::LinkingBoth => {
                let req = Request::LinkEntries {
                    base: app_hash.clone(),
                    target: agent.clone(),
                    tag: LinkTag::RecentlyEnabledApp,
                };
                (EnableApp { phase: EnablePhase::LinkingRecent, agent, app_hash }, Step::Perform(req))
            },
            EnablePhase::LinkingRecent => {
                let req = handle_is_registered_as_host(&agent);
                (EnableApp { phase: EnablePhase::DisabledHostCheck, agent, app_hash }, Step::Perform(req))
            },
            EnablePhase::DisabledHostCheck => match reply {
                Reply::Links(l) => match validate_host(&l) {
                    Err(e) => (EnableApp { phase: EnablePhase::Finished, agent, app_hash }, Step::Finish(Err(e))),
                    Ok(_) => {
                        let req = Request::GetLinks { base: agent.clone(), tag: LinkTag::RecentlyDisabledApp };
                        (EnableApp { phase: EnablePhase::DisabledLinks, agent, app_hash }, Step::Perform(req))
                    },
                },
                _ => (
                    EnableApp { phase: EnablePhase::Finished, agent, app_hash },
                    Step::Finish(Err(HostError::Protocol)),
                ),
            },
            EnablePhase::DisabledLinks => match reply {
                Reply::Links(l) => if contains_address(&l, &app_hash) {
                    let req = Request::RemoveLink {
                        base: app_hash.clone(),
                        target: agent.clone(),
                        tag: LinkTag::RecentlyDisabledApp,
                    };
                    (EnableApp { phase: EnablePhase::RemovingDisabled, agent, app_hash }, Step::Perform(req))
                } else {
                    let req = handle_is_registered_as_host(&agent);
                    (EnableApp { phase: EnablePhase::PendingHostCheck, agent, app_hash }, Step::Perform(req))
                },
                _ => (
                    EnableApp { phase: EnablePhase::Finished, agent, app_hash },
                    Step::Finish(Err(HostError::Protocol)),
                ),
            },
            EnablePhase::RemovingDisabled => {
                let req = handle_is_registered_as_host(&agent);
                (EnableApp { phase: EnablePhase::PendingHostCheck, agent, app_hash }, Step::Perform(req))
            },
            EnablePhase::PendingHostCheck => match reply {
                Reply::Links(l) => match validate_host(&l) {
                    Err(e) => (EnableApp { phase: EnablePhase::Finished, agent, app_hash }, Step::Finish(Err(e))),
                    Ok(_) => {
                        let req = Request::GetLinks { base: agent.clone(), tag: LinkTag::NeedUpdatesDisabled };
                        (EnableApp { phase: EnablePhase::PendingLinks, agent, app_hash }, Step::Perform(req))
                    },
                },
                _ => (
                    EnableApp { phase: EnablePhase::Finished, agent, app_hash },
                    Step::Finish(Err(HostError::Protocol)),
                ),
            },
            EnablePhase::PendingLinks => match reply {
                Reply::Links(l) => if contains_address(&l, &app_hash) {
                    let req = Request::RemoveLink {
                        base: app_hash.clone(),
                        target: agent.clone(),
                        tag: LinkTag::NeedUpdatesDisabled,
                    };
                    (EnableApp { phase: EnablePhase::RemovingPending, agent, app_hash }, Step::Perform(req))
                } else {
                    let req = Request::Sleep { millis: PROPAGATION_WAIT_MILLIS };
                    (EnableApp { phase: EnablePhase::Waiting, agent, app_hash }, Step::Perform(req))
                },
                _ => (
                    EnableApp { phase: EnablePhase::Finished, agent, app_hash },
                    Step::Finish(Err(HostError::Protocol)),
                ),
            },
            EnablePhase::RemovingPending => {
                let req = Request::Sleep { millis: PROPAGATION_WAIT_MILLIS };
                (EnableApp { phase: EnablePhase::Waiting, agent, app_hash }, Step::Perform(req))
            },
            EnablePhase::Waiting => (
                EnableApp { phase: EnablePhase::Finished, agent, app_hash },
                Step::Finish(Ok(())),
            ),
            EnablePhase::Finished => (
                EnableApp { phase: EnablePhase::Finished, agent, app_hash },
                Step::Finish(Err(HostError::Protocol)),
            ),
        }
    }
}

} // verus!
