use vstd::prelude::*;

verus! {

/// Why a zome function of the host refused or failed.
#[derive(Debug)]
pub enum HostError {
    /// The calling agent has no `verified_host_tag` link: it never registered as a host.
    NotAHost,
    /// The provider of an app has no HoloFuel account registered for it.
    ProviderAccountNotRegistered,
    /// A procedure was handed an answer of another kind than the request it made,
    /// or was stepped again after it had ended.
    Protocol,
    /// An error reported by the conductor while it served a request, by its text.
    Zome(String),
}

/// What a `HostError` is, with its text taken as a sequence of characters.
pub enum HostErrorView {
    NotAHost,
    ProviderAccountNotRegistered,
    Protocol,
    Zome(Seq<char>),
}

impl View for HostError {
    type V = HostErrorView;

    open spec fn view(&self) -> HostErrorView {
        match self {
            HostError::NotAHost => HostErrorView::NotAHost,
            HostError::ProviderAccountNotRegistered => HostErrorView::ProviderAccountNotRegistered,
            HostError::Protocol => HostErrorView::Protocol,
            HostError::Zome(s) => HostErrorView::Zome(s@),
        }
    }
}

impl DeepView for HostError {
    type V = HostErrorView;

    open spec fn deep_view(&self) -> HostErrorView {
        self@
    }
}

/// The message that the zome returns for each error, as `ZomeApiError::Internal`.
pub open spec fn error_message(e: HostErrorView) -> Seq<char> {
    match e {
        HostErrorView::NotAHost => "Agent Not a Host"@,
        HostErrorView::ProviderAccountNotRegistered => "Providers HoloFuel Ac is not Registered"@,
        HostErrorView::Protocol => "Unexpected answer to a DHT request"@,
        HostErrorView::Zome(s) => s,
    }
}

impl HostError {
    /// The text under which the zome reports this error.
    pub fn message(&self) -> (m: String)
        ensures
            m@ == error_message(self@),
    {
        match self {
            HostError::NotAHost => String::from_str("Agent Not a Host"),
            HostError::ProviderAccountNotRegistered => String::from_str(
                "Providers HoloFuel Ac is not Registered",
            ),
            HostError::Protocol => String::from_str("Unexpected answer to a DHT request"),
            HostError::Zome(s) => s.clone(),
        }
    }

    /// A copy of this error.
    pub fn duplicate(&self) -> (e: HostError)
        ensures
            e@ == self@,
    {
        match self {
            HostError::NotAHost => HostError::NotAHost,
            HostError::ProviderAccountNotRegistered => HostError::ProviderAccountNotRegistered,
            HostError::Protocol => HostError::Protocol,
            HostError::Zome(s) => HostError::Zome(s.clone()),
        }
    }
}

} // verus!
