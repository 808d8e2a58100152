use vstd::prelude::*;
use crate::dht::{LinkTag, Reply, ReplyView, Request, RequestView, Step, StepView};
use crate::error::{HostError, HostErrorView};

verus! {

/// Where the registration of a host stands.
#[derive(Clone, Copy, PartialEq, Eq, Structural, Debug)]
pub enum RegisterPhase {
    /// Nothing asked yet.
    Start,
    /// Awaits the address of the committed host document.
    Committing,
    /// Awaits the `verified_host_tag` link from the agent to the document.
    Linking,
    /// Has ended.
    Finished,
}

/// The registration of `agent` as a host with its host document, as a procedure:
/// zome function `register_as_host`.
#[derive(Debug)]
pub struct RegisterAsHost {
    pub phase: RegisterPhase,
    pub agent: String,
    /// The host document, until it is handed over to be committed.
    pub host_doc: Vec<u8>,
    /// The address of the committed host document, once it is known.
    pub address: String,
}

pub struct RegisterAsHostView {
    pub phase: RegisterPhase,
    pub agent: Seq<char>,
    pub host_doc: Seq<u8>,
    pub address: Seq<char>,
}

impl View for RegisterAsHost {
    type V = RegisterAsHostView;

    open spec fn view(&self) -> RegisterAsHostView {
        RegisterAsHostView { phase: self.phase, agent: self.agent@, host_doc: self.host_doc@, address: self.address@ }
    }
}

/// The transitions of the registration. It commits the host document, links the agent
/// to the document's address with a `verified_host_tag` link, and ends with that
/// address.
pub open spec fn register_next(s: RegisterAsHostView, reply: ReplyView) -> (RegisterAsHostView, StepView<Seq<char>>) {
    let protocol = (RegisterAsHostView { phase: RegisterPhase::Finished, ..s }, StepView::Finish(Err(HostErrorView::Protocol)));
    match s.phase {
        RegisterPhase::Start => (
            RegisterAsHostView { phase: RegisterPhase::Committing, host_doc: seq![], ..s },
            StepView::Perform(RequestView::CommitHostDoc { doc: s.host_doc }),
        ),
        RegisterPhase::Committing => match reply {
            ReplyView::Address(a) => (
                RegisterAsHostView { phase: RegisterPhase::Linking, address: a, ..s },
                StepView::Perform(RequestView::LinkEntries { base: s.agent, target: a, tag: LinkTag::VerifiedHost }),
            ),
            _ => protocol,
        },
        RegisterPhase::Linking => (
            RegisterAsHostView { phase: RegisterPhase::Finished, address: seq![], ..s },
            StepView::Finish(Ok(s.address)),
        ),
        RegisterPhase::Finished => protocol,
    }
}

/// Starts the registration of `agent_address` as a host with the document `host_doc`.
pub fn handle_register_as_host(agent_address: String, host_doc: Vec<u8>) -> (m: RegisterAsHost)
    ensures
        m@ == (RegisterAsHostView {
            phase: RegisterPhase::Start,
            agent: agent_address@,
            host_doc: host_doc@,
            address: seq![],
        }),
{
    RegisterAsHost { phase: RegisterPhase::Start, agent: agent_address, host_doc, address: String::new() }
}

impl RegisterAsHost {
    /// Hands the procedure the answer to its last request (`Reply::Done` to start it);
    /// it says what comes next.
    pub fn step(self, reply: Reply) -> (res: (RegisterAsHost, Step<String>))
        ensures
            (res.0@, res.1@) == register_next(self@, reply@),
    {
        let RegisterAsHost { phase, agent, host_doc, address } = self;
        match phase {
            RegisterPhase::Start => {
                let rest: Vec<u8> = Vec::new();
                (
                    RegisterAsHost { phase: RegisterPhase::Committing, agent, host_doc: rest, address },
                    Step::Perform(Request::CommitHostDoc { doc: host_doc }),
                )
            },
            RegisterPhase::Committing => match reply {
                Reply::Address(a) => {
                    let req = Request::LinkEntries { base: agent.clone(), target: a.clone(), tag: LinkTag::VerifiedHost };
                    (RegisterAsHost { phase: RegisterPhase::Linking, agent, host_doc, address: a }, Step::Perform(req))
                },
                _ => (
                    RegisterAsHost { phase: RegisterPhase::Finished, agent, host_doc, address },
                    Step::Finish(Err(HostError::Protocol)),
                ),
            },
            RegisterPhase::Linking => (
                RegisterAsHost { phase: RegisterPhase::Finished, agent, host_doc, address: String::new() },
                Step::Finish(Ok(address)),
            ),
            RegisterPhase::Finished => (
                RegisterAsHost { phase: RegisterPhase::Finished, agent, host_doc, address },
                Step::Finish(Err(HostError::Protocol)),
            ),
        }
    }
}

} // verus!
