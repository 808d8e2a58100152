use vstd::prelude::*;
use crate::dht::{LinkTag, Reply, ReplyView, Request, RequestView, Step, StepView};
use crate::error::{HostError, HostErrorView};
use crate::host::HoloFuelAc;

verus! {

/// What looking up an app's entry with its headers found, as far as the host reads it.
#[derive(Debug)]
pub enum EntryLookup {
    /// A single entry: for each of its headers, in order, the sources of the header's
    /// provenances, in order.
    Single { provenance_sources: Vec<Vec<String>> },
    /// Anything else: no entry, or several.
    Other,
}

/// The header sources of a single entry, as sequences of characters.
pub open spec fn lookup_sources(l: &EntryLookup) -> Option<Seq<Seq<Seq<char>>>> {
    match l {
        EntryLookup::Single { provenance_sources } => Some(
            Seq::new(provenance_sources@.len(), |i: int| provenance_sources@[i].deep_view()),
        ),
        EntryLookup::Other => None,
    }
}

/// Whether a lookup can be read for a provider: a single entry must have a header,
/// and its last header a provenance.
pub open spec fn lookup_readable(l: &EntryLookup) -> bool {
    match lookup_sources(l) {
        Some(h) => h.len() > 0 && h.last().len() > 0,
        None => true,
    }
}

/// Decides who provides an app, from the lookup of the app's entry: the source of the
/// first provenance of the last header of a single entry; for anything else the
/// provider has no account registered.
pub fn provider_address(lookup: &EntryLookup) -> (r: Result<String, HostError>)
    requires
        lookup_readable(lookup),
    ensures
        match lookup_sources(lookup) {
            Some(h) => r matches Ok(a) && a@ == h.last()[0],
            None => r matches Err(e) && e@ == HostErrorView::ProviderAccountNotRegistered,
        },
{
    match lookup {
        EntryLookup::Single { provenance_sources } => {
            let n = provenance_sources.len();
            let last = &provenance_sources[n - 1];
            assert(last.deep_view()[0] == last[0]@);
            Ok(last[0].clone())
        },
        EntryLookup::Other => Err(HostError::ProviderAccountNotRegistered),
    }
}

/// The account to which a provider is paid: the first of its HoloFuel accounts.
pub fn provider_account(accounts: &Vec<HoloFuelAc>) -> (a: String)
    requires
        accounts.len() > 0,
    ensures
        a@ == accounts@[0].account_number@,
{
    accounts[0].account_number.clone()
}

/// Where the lookup of the account to which an app's provider is paid stands.
#[derive(Clone, Copy, PartialEq, Eq, Structural, Debug)]
pub enum AccountLookupPhase {
    Start,
    /// Awaits the lookup of the app's entry with its headers.
    LookingUp,
    /// Awaits the provider's HoloFuel accounts.
    LoadingAccounts,
    Finished,
}

/// The lookup of the account to which the provider of `app_hash` is paid, as a
/// procedure: the part of zome function `add_service_log_details` that decides where
/// the payment preferences point.
#[derive(Debug)]
pub struct PaymentAccountLookup {
    pub phase: AccountLookupPhase,
    pub app_hash: String,
}

pub struct PaymentAccountLookupView {
    pub phase: AccountLookupPhase,
    pub app_hash: Seq<char>,
}

impl View for PaymentAccountLookup {
    type V = PaymentAccountLookupView;

    open spec fn view(&self) -> PaymentAccountLookupView {
        PaymentAccountLookupView { phase: self.phase, app_hash: self.app_hash@ }
    }
}

/// The transitions of the lookup. It looks up the app's entry with its headers; for
/// anything but a single entry the provider has no account registered; else the
/// provider is the source of the first provenance of the entry's last header, and the
/// lookup loads the provider's `holofuel_account_details_tag` accounts and ends with
/// the first one's number.
pub open spec fn account_lookup_next(s: PaymentAccountLookupView, reply: ReplyView) -> (
    PaymentAccountLookupView,
    StepView<Seq<char>>,
) {
    let finished = PaymentAccountLookupView { phase: AccountLookupPhase::Finished, ..s };
    let protocol = (finished, StepView::Finish(Err(HostErrorView::Protocol)));
    match s.phase {
        AccountLookupPhase::Start => (
            PaymentAccountLookupView { phase: AccountLookupPhase::LookingUp, ..s },
            StepView::Perform(RequestView::LookupEntry { address: s.app_hash }),
        ),
        AccountLookupPhase::LookingUp => match reply {
            ReplyView::Lookup(Some(h)) => (
                PaymentAccountLookupView { phase: AccountLookupPhase::LoadingAccounts, ..s },
                StepView::Perform(RequestView::LoadAccounts { base: h.last()[0], tag: LinkTag::HolofuelAccountDetails }),
            ),
            ReplyView::Lookup(None) => (finished, StepView::Finish(Err(HostErrorView::ProviderAccountNotRegistered))),
            _ => protocol,
        },
        AccountLookupPhase::LoadingAccounts => match reply {
            ReplyView::Accounts(a) => (finished, StepView::Finish(Ok(a[0]))),
            _ => protocol,
        },
        AccountLookupPhase::Finished => protocol,
    }
}

/// Whether the lookup can read `reply`: the entry of an app has a header, its last
/// header a provenance, and its provider an account. (On anything else the zome
/// function fails on an index out of bounds.)
pub open spec fn account_lookup_readable(s: PaymentAccountLookupView, reply: ReplyView) -> bool {
    match (s.phase, reply) {
        (AccountLookupPhase::LookingUp, ReplyView::Lookup(Some(h))) => h.len() > 0 && h.last().len() > 0,
        (AccountLookupPhase::LoadingAccounts, ReplyView::Accounts(a)) => a.len() > 0,
        _ => true,
    }
}

/// Starts the lookup of the account to which the provider of `app_hash` is paid.
pub fn lookup_payment_account(app_hash: String) -> (m: PaymentAccountLookup)
    ensures
        m@ == (PaymentAccountLookupView { phase: AccountLookupPhase::Start, app_hash: app_hash@ }),
{
    PaymentAccountLookup { phase: AccountLookupPhase::Start, app_hash }
}

impl PaymentAccountLookup {
    /// Hands the procedure the answer to its last request (`Reply::Done` to start it);
    /// it says what comes next.
    pub fn step(self, reply: Reply) -> (res: (PaymentAccountLookup, Step<String>))
        requires
            account_lookup_readable(self@, reply@),
        ensures
            (res.0@, res.1@) == account_lookup_next(self@, reply@),
    {
        let PaymentAccountLookup { phase, app_hash } = self;
        match phase {
            AccountLookupPhase::Start => {
                let req = Request::LookupEntry { address: app_hash.clone() };
                (PaymentAccountLookup { phase: AccountLookupPhase::LookingUp, app_hash }, Step::Perform(req))
            },
            AccountLookupPhase::LookingUp => match reply {
                Reply::Lookup(l) => match provider_address(&l) {
                    Ok(provider) => {
                        let req = Request::LoadAccounts { base: provider, tag: LinkTag::HolofuelAccountDetails };
                        (PaymentAccountLookup { phase: AccountLookupPhase::LoadingAccounts, app_hash }, Step::Perform(req))
                    },
                    Err(e) => (PaymentAccountLookup { phase: AccountLookupPhase::Finished, app_hash }, Step::Finish(Err(e))),
                },
                _ => (
                    PaymentAccountLookup { phase: AccountLookupPhase::Finished, app_hash },
                    Step::Finish(Err(HostError::Protocol)),
                ),
            },
            AccountLookupPhase::LoadingAccounts => match reply {
                Reply::Accounts(a) => {
                    let account = provider_account(&a);
                    (PaymentAccountLookup { phase: AccountLookupPhase::Finished, app_hash }, Step::Finish(Ok(account)))
                },
                _ => (
                    PaymentAccountLookup { phase: AccountLookupPhase::Finished, app_hash },
                    Step::Finish(Err(HostError::Protocol)),
                ),
            },
            AccountLookupPhase::Finished => (
                PaymentAccountLookup { phase: AccountLookupPhase::Finished, app_hash },
                Step::Finish(Err(HostError::Protocol)),
            ),
        }
    }
}

} // verus!
