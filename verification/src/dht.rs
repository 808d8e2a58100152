use vstd::prelude::*;
use crate::error::{HostError, HostErrorView};
use crate::app_config::{LoadedAppConfig, LoadedAppConfigView};
use crate::host::HoloFuelAc;
use crate::service_log::{lookup_sources, EntryLookup};
use vstd::relations::injective_on;

verus! {

/// The link types that the host zome reads and writes.
#[derive(Clone, Copy, PartialEq, Eq, Structural, Debug)]
pub enum LinkTag {
    /// agent -> host document: the agent registered as a host.
    VerifiedHost,
    /// agent -> app: the host enabled the app.
    AppsEnabled,
    /// app -> agent: the app is enabled on that host.
    HostEnabled,
    /// app -> agent: enabled since the key-value store last collected updates.
    RecentlyEnabledApp,
    /// app -> agent: disabled since the key-value store last collected updates.
    RecentlyDisabledApp,
    /// app -> agent: an enabling that the key-value store has not confirmed yet.
    NeedUpdatesEnabled,
    /// app -> agent: a disabling that the key-value store has not confirmed yet.
    NeedUpdatesDisabled,
    /// anchor -> app: every app that the provider zome registered.
    AllApps,
    /// provider -> HoloFuel account: where the provider of an app is paid.
    HolofuelAccountDetails,
    /// app -> payment preferences: what serving the app is paid.
    PaymentPref,
}

/// The name under which each link type is stored in the DHT.
pub open spec fn tag_name(t: LinkTag) -> Seq<char> {
    match t {
        LinkTag::VerifiedHost => "verified_host_tag"@,
        LinkTag::AppsEnabled => "apps_enabled"@,
        LinkTag::HostEnabled => "host_enabled"@,
        LinkTag::RecentlyEnabledApp => "recently_enabled_app_tag"@,
        LinkTag::RecentlyDisabledApp => "recently_disabled_app_tag"@,
        LinkTag::NeedUpdatesEnabled => "need_updates_enabled_from_kv_store"@,
        LinkTag::NeedUpdatesDisabled => "need_updates_disabled_from_kv_store"@,
        LinkTag::AllApps => "all_apps_tag"@,
        LinkTag::HolofuelAccountDetails => "holofuel_account_details_tag"@,
        LinkTag::PaymentPref => "payment_pref_tag"@,
    }
}

impl LinkTag {
    /// The name under which this link type is stored.
    pub fn name(&self) -> (s: &'static str)
        ensures
            s@ == tag_name(*self),
    {
        match self {
            LinkTag::VerifiedHost => "verified_host_tag",
            LinkTag::AppsEnabled => "apps_enabled",
            LinkTag::HostEnabled => "host_enabled",
            LinkTag::RecentlyEnabledApp => "recently_enabled_app_tag",
            LinkTag::RecentlyDisabledApp => "recently_disabled_app_tag",
            LinkTag::NeedUpdatesEnabled => "need_updates_enabled_from_kv_store",
            LinkTag::NeedUpdatesDisabled => "need_updates_disabled_from_kv_store",
            LinkTag::AllApps => "all_apps_tag",
            LinkTag::HolofuelAccountDetails => "holofuel_account_details_tag",
            LinkTag::PaymentPref => "payment_pref_tag",
        }
    }
}

/// The milliseconds that enabling an app waits for removed links to propagate.
pub const PROPAGATION_WAIT_MILLIS: u64 = 100;

/// One request that a procedure asks the conductor to serve.
#[derive(Debug)]
pub enum Request {
    /// The addresses of the targets of the links from `base` with `tag`.
    GetLinks { base: String, tag: LinkTag },
    /// The entries at the targets of the links from `base` with `tag`, each loaded on its own.
    LoadLinks { base: String, tag: LinkTag },
    /// Add a link from `base` to `target` with `tag`.
    LinkEntries { base: String, target: String, tag: LinkTag },
    /// Add a link from `base` to `target` with `tag` and one back with `back_tag`.
    LinkEntriesBidir { base: String, target: String, tag: LinkTag, back_tag: LinkTag },
    /// Remove the link from `base` to `target` with `tag`.
    RemoveLink { base: String, target: String, tag: LinkTag },
    /// Commit the anchor entry under which all apps are linked; answers its address.
    CommitAllAppsAnchor,
    /// Call `get_app_details` of the provider zome for `app_hash`; answers the details.
    GetAppDetails { app_hash: String },
    /// Wait so long.
    Sleep { millis: u64 },
    /// Commit a host document as an entry; answers the entry's address.
    CommitHostDoc { doc: Vec<u8> },
    /// The app configurations at the targets of the links from `base` with `tag`, with
    /// their addresses; targets that hold no app configuration are left out.
    LoadAppConfigs { base: String, tag: LinkTag },
    /// Look up the entry at `address` with its headers.
    LookupEntry { address: String },
    /// The HoloFuel accounts at the targets of the links from `base` with `tag`; targets
    /// that hold no account are left out.
    LoadAccounts { base: String, tag: LinkTag },
}

/// What a `Request` is, with its addresses as sequences of characters.
pub enum RequestView {
    GetLinks { base: Seq<char>, tag: LinkTag },
    LoadLinks { base: Seq<char>, tag: LinkTag },
    LinkEntries { base: Seq<char>, target: Seq<char>, tag: LinkTag },
    LinkEntriesBidir { base: Seq<char>, target: Seq<char>, tag: LinkTag, back_tag: LinkTag },
    RemoveLink { base: Seq<char>, target: Seq<char>, tag: LinkTag },
    CommitAllAppsAnchor,
    GetAppDetails { app_hash: Seq<char> },
    Sleep { millis: u64 },
    CommitHostDoc { doc: Seq<u8> },
    LoadAppConfigs { base: Seq<char>, tag: LinkTag },
    LookupEntry { address: Seq<char> },
    LoadAccounts { base: Seq<char>, tag: LinkTag },
}

impl View for Request {
    type V = RequestView;

    open spec fn view(&self) -> RequestView {
        match self {
            Request::GetLinks { base, tag } => RequestView::GetLinks { base: base@, tag: *tag },
            Request::LoadLinks { base, tag } => RequestView::LoadLinks { base: base@, tag: *tag },
            Request::LinkEntries { base, target, tag } => RequestView::LinkEntries {
                base: base@,
                target: target@,
                tag: *tag,
            },
            Request::LinkEntriesBidir { base, target, tag, back_tag } =>
                RequestView::LinkEntriesBidir {
                    base: base@,
                    target: target@,
                    tag: *tag,
                    back_tag: *back_tag,
                },
            Request::RemoveLink { base, target, tag } => RequestView::RemoveLink {
                base: base@,
                target: target@,
                tag: *tag,
            },
            Request::CommitAllAppsAnchor => RequestView::CommitAllAppsAnchor,
            Request::GetAppDetails { app_hash } => RequestView::GetAppDetails {
                app_hash: app_hash@,
            },
            Request::Sleep { millis } => RequestView::Sleep { millis: *millis },
            Request::CommitHostDoc { doc } => RequestView::CommitHostDoc { doc: doc@ },
            Request::LoadAppConfigs { base, tag } => RequestView::LoadAppConfigs { base: base@, tag: *tag },
            Request::LookupEntry { address } => RequestView::LookupEntry { address: address@ },
            Request::LoadAccounts { base, tag } => RequestView::LoadAccounts { base: base@, tag: *tag },
        }
    }
}

/// An entry loaded at the target of a link, as far as the host reads it.
#[derive(Debug)]
pub enum LoadedEntry {
    /// An agent entry, by its public signing key.
    Agent(String),
    /// An entry of another kind.
    Other,
    /// The entry could not be loaded.
    Failed(HostError),
}

pub enum LoadedEntryView {
    Agent(Seq<char>),
    Other,
    Failed(HostErrorView),
}

impl View for LoadedEntry {
    type V = LoadedEntryView;

    open spec fn view(&self) -> LoadedEntryView {
        match self {
            LoadedEntry::Agent(k) => LoadedEntryView::Agent(k@),
            LoadedEntry::Other => LoadedEntryView::Other,
            LoadedEntry::Failed(e) => LoadedEntryView::Failed(e@),
        }
    }
}

impl DeepView for LoadedEntry {
    type V = LoadedEntryView;

    open spec fn deep_view(&self) -> LoadedEntryView {
        self@
    }
}

/// The conductor's answer to a request that it served.
#[derive(Debug)]
pub enum Reply {
    /// To `GetLinks`: the target addresses.
    Links(Vec<String>),
    /// To `LoadLinks`: the loaded entries.
    Entries(Vec<LoadedEntry>),
    /// To `CommitAllAppsAnchor`: the anchor's address.
    Address(String),
    /// To `GetAppDetails`: the details.
    Details(String),
    /// To a write or a wait; also the event that starts a procedure.
    Done,
    /// To `LoadAppConfigs`: the app configurations found, with their addresses.
    AppConfigs(Vec<LoadedAppConfig>),
    /// To `LookupEntry`: what the lookup found.
    Lookup(EntryLookup),
    /// To `LoadAccounts`: the accounts found.
    Accounts(Vec<HoloFuelAc>),
}

pub enum ReplyView {
    Links(Seq<Seq<char>>),
    Entries(Seq<LoadedEntryView>),
    Address(Seq<char>),
    Details(Seq<char>),
    Done,
    AppConfigs(Seq<LoadedAppConfigView>),
    /// The header sources of a single entry, `None` for anything else.
    Lookup(Option<Seq<Seq<Seq<char>>>>),
    /// The account numbers.
    Accounts(Seq<Seq<char>>),
}

/// The account numbers of a list of accounts.
pub open spec fn account_numbers(accounts: Seq<HoloFuelAc>) -> Seq<Seq<char>> {
    Seq::new(accounts.len(), |i: int| accounts[i].account_number@)
}

impl View for Reply {
    type V = ReplyView;

    open spec fn view(&self) -> ReplyView {
        match self {
            Reply::Links(l) => ReplyView::Links(l.deep_view()),
            Reply::Entries(e) => ReplyView::Entries(e.deep_view()),
            Reply::Address(a) => ReplyView::Address(a@),
            Reply::Details(d) => ReplyView::Details(d@),
            Reply::Done => ReplyView::Done,
            Reply::AppConfigs(c) => ReplyView::AppConfigs(c.deep_view()),
            Reply::Lookup(l) => ReplyView::Lookup(lookup_sources(l)),
            Reply::Accounts(a) => ReplyView::Accounts(account_numbers(a@)),
        }
    }
}

/// What a procedure does next: serve a request, or end the zome function with a result.
#[derive(Debug)]
pub enum Step<T> {
    Perform(Request),
    Finish(Result<T, HostError>),
}

pub enum StepView<T> {
    Perform(RequestView),
    Finish(Result<T, HostErrorView>),
}

impl<T: DeepView> View for Step<T> {
    type V = StepView<T::V>;

    open spec fn view(&self) -> StepView<T::V> {
        match self {
            Step::Perform(r) => StepView::Perform(r@),
            Step::Finish(Ok(v)) => StepView::Finish(Ok(v.deep_view())),
            Step::Finish(Err(e)) => StepView::Finish(Err(e@)),
        }
    }
}

impl<O> StepView<O> {
    /// Whether the step asks to remove a `verified_host_tag` link.
    pub open spec fn removes_registration(self) -> bool {
        self matches StepView::Perform(RequestView::RemoveLink { tag: LinkTag::VerifiedHost, .. })
    }
}

/// Whether an address occurs in a list of addresses.
pub open spec fn lists(links: Seq<Seq<char>>, address: Seq<char>) -> bool {
    links.contains(address)
}

/// Whether `address` occurs in `links`.
pub fn contains_address(links: &Vec<String>, address: &String) -> (found: bool)
    ensures
        found == lists(links.deep_view(), address@),
{
    let n = links.len();
    let mut i: usize = 0;
    while i < n
        invariant
            n == links.len(),
            i <= n,
            forall|j: int| 0 <= j < i ==> links.deep_view()[j] != address@,
        decreases n - i,
    {
        if links[i] == *address {
            assert(links.deep_view()[i as int] == address@);
            return true;
        }
        i = i + 1;
    }
    proof {
        if links.deep_view().contains(address@) {
            let k = choose|k: int| 0 <= k < links.deep_view().len() && links.deep_view()[k] == address@;
            assert(links.deep_view()[k] != address@);
        }
    }
    false
}

// ---------------------------------------------------------------------
// A model of the DHT's links, against which the laws of the procedures
// are stated. A link is (base, target, tag); the DHT holds a set of them.
// ---------------------------------------------------------------------

/// The links that the DHT holds.
pub type LinkSet = Set<(Seq<char>, Seq<char>, LinkTag)>;

/// Whether the entries `e` are those loaded at the links from `base` with `tag`, the
/// `i`-th at the target `ts[i]`: one entry for each link held, in any order; an agent
/// entry has its target as its key.
pub open spec fn loads_links(links: LinkSet, base: Seq<char>, tag: LinkTag, ts: Seq<Seq<char>>, e: Seq<LoadedEntryView>) -> bool {
    &&& ts.len() == e.len()
    &&& ts.no_duplicates()
    &&& forall|i: int| 0 <= i < ts.len() ==> links.contains((base, #[trigger] ts[i], tag))
    &&& forall|t: Seq<char>| #[trigger] links.contains((base, t, tag)) ==> ts.contains(t)
    &&& forall|i: int| 0 <= i < e.len() ==> (#[trigger] e[i] matches LoadedEntryView::Agent(k) ==> k == ts[i])
}

/// Whether `reply` is an answer that a DHT holding `links` may give to `req`.
/// A list of links gives each link held once, in any order; a load of links gives one
/// entry for each link held (`loads_links`), where an agent entry has the link's
/// target, its address, as its key, and any other entry may load as anything or fail; an app configuration is loaded only from the target
/// of such a link; the anchor and a committed document may have any address, an app
/// any details, a lookup and a list of accounts any content.
pub open spec fn answers(links: LinkSet, req: RequestView, reply: ReplyView) -> bool {
    match req {
        RequestView::GetLinks { base, tag } => match reply {
            ReplyView::Links(l) => {
                &&& forall|i: int| 0 <= i < l.len() ==> #[trigger] links.contains((base, l[i], tag))
                &&& forall|t: Seq<char>| #[trigger] links.contains((base, t, tag)) ==> l.contains(t)
                &&& l.no_duplicates()
            },
            _ => false,
        },
        RequestView::LoadLinks { base, tag } => match reply {
            ReplyView::Entries(e) => {
                &&& forall|i: int|
                    0 <= i < e.len() ==> (#[trigger] e[i] matches LoadedEntryView::Agent(k) ==> links.contains((base, k, tag)))
                &&& exists|ts: Seq<Seq<char>>| #[trigger] loads_links(links, base, tag, ts, e)
            },
            _ => false,
        },
        RequestView::LoadAppConfigs { base, tag } => match reply {
            ReplyView::AppConfigs(c) => forall|i: int|
                0 <= i < c.len() ==> links.contains((base, #[trigger] c[i].address, tag)),
            _ => false,
        },
        RequestView::CommitAllAppsAnchor => reply is Address,
        RequestView::CommitHostDoc { .. } => reply is Address,
        RequestView::GetAppDetails { .. } => reply is Details,
        RequestView::LookupEntry { .. } => reply is Lookup,
        RequestView::LoadAccounts { .. } => reply is Accounts,
        _ => reply is Done,
    }
}

/// The links that the DHT holds after it served `req`.
pub open spec fn effect(links: LinkSet, req: RequestView) -> LinkSet {
    match req {
        RequestView::LinkEntries { base, target, tag } => links.insert((base, target, tag)),
        RequestView::LinkEntriesBidir { base, target, tag, back_tag } => links.insert(
            (base, target, tag),
        ).insert((target, base, back_tag)),
        RequestView::RemoveLink { base, target, tag } => links.remove((base, target, tag)),
        _ => links,
    }
}

/// Whether every run of a procedure from state `s`, handed `reply` next, against a DHT
/// that holds `links` and answers as `answers` allows, ends within `fuel` requests, and
/// ends with a result and links of which `goal` holds.
pub open spec fn leads_to<S, O>(
    next: spec_fn(S, ReplyView) -> (S, StepView<O>),
    s: S,
    reply: ReplyView,
    links: LinkSet,
    fuel: nat,
    goal: spec_fn(Result<O, HostErrorView>, LinkSet) -> bool,
) -> bool
    decreases fuel,
{
    match next(s, reply).1 {
        StepView::Finish(r) => goal(r, links),
        StepView::Perform(req) => fuel > 0 && forall|rep: ReplyView|
            #[trigger] answers(links, req, rep) ==> leads_to(
                next,
                next(s, reply).0,
                rep,
                effect(links, req),
                (fuel - 1) as nat,
                goal,
            ),
    }
}

/// Whether every run of a procedure from state `s`, handed `reply` next, against a DHT
/// that holds `links`, if it ends within `fuel` requests, ends with a result and links
/// of which `goal` holds.
pub open spec fn ends_only_in<S, O>(
    next: spec_fn(S, ReplyView) -> (S, StepView<O>),
    s: S,
    reply: ReplyView,
    links: LinkSet,
    fuel: nat,
    goal: spec_fn(Result<O, HostErrorView>, LinkSet) -> bool,
) -> bool
    decreases fuel,
{
    match next(s, reply).1 {
        StepView::Finish(r) => goal(r, links),
        StepView::Perform(req) => fuel == 0 || forall|rep: ReplyView|
            #[trigger] answers(links, req, rep) ==> ends_only_in(
                next,
                next(s, reply).0,
                rep,
                effect(links, req),
                (fuel - 1) as nat,
                goal,
            ),
    }
}

/// Whether a step's outcome either ends with a result of which `goal` holds, or
/// requests something for every answer to which `inv` holds again.
pub open spec fn outcome_ok<S, O>(
    out: (S, StepView<O>),
    links: LinkSet,
    inv: spec_fn(S, ReplyView, LinkSet) -> bool,
    goal: spec_fn(Result<O, HostErrorView>, LinkSet) -> bool,
) -> bool {
    match out.1 {
        StepView::Finish(r) => goal(r, links),
        StepView::Perform(req) => forall|rep: ReplyView|
            #[trigger] answers(links, req, rep) ==> inv(out.0, rep, effect(links, req)),
    }
}

/// An invariant of the configurations that every step keeps, and that implies the goal
/// where a step ends the procedure, holds of every end.
pub proof fn lemma_invariant_ends_only_in<S, O>(
    next: spec_fn(S, ReplyView) -> (S, StepView<O>),
    inv: spec_fn(S, ReplyView, LinkSet) -> bool,
    goal: spec_fn(Result<O, HostErrorView>, LinkSet) -> bool,
    s: S,
    reply: ReplyView,
    links: LinkSet,
    fuel: nat,
)
    requires
        forall|s1: S, r1: ReplyView, l1: LinkSet| #[trigger] inv(s1, r1, l1) ==> outcome_ok(next(s1, r1), l1, inv, goal),
        inv(s, reply, links),
    ensures
        ends_only_in(next, s, reply, links, fuel, goal),
    decreases fuel,
{
    assert(outcome_ok(next(s, reply), links, inv, goal));
    match next(s, reply).1 {
        StepView::Finish(r) => {},
        StepView::Perform(req) => {
            if fuel > 0 {
                assert forall|rep: ReplyView| #[trigger] answers(links, req, rep) implies ends_only_in(
                    next,
                    next(s, reply).0,
                    rep,
                    effect(links, req),
                    (fuel - 1) as nat,
                    goal,
                ) by {
                    lemma_invariant_ends_only_in(next, inv, goal, next(s, reply).0, rep, effect(links, req), (fuel - 1) as nat);
                }
            }
        },
    }
}

/// Two configurations that take the same next step lead to the same ends.
pub proof fn lemma_leads_to_same_step<S, O>(
    next: spec_fn(S, ReplyView) -> (S, StepView<O>),
    s1: S,
    reply1: ReplyView,
    s2: S,
    reply2: ReplyView,
    links: LinkSet,
    fuel: nat,
    goal: spec_fn(Result<O, HostErrorView>, LinkSet) -> bool,
)
    requires
        next(s1, reply1) == next(s2, reply2),
    ensures
        leads_to(next, s1, reply1, links, fuel, goal) == leads_to(next, s2, reply2, links, fuel, goal),
{
}

/// A run that reaches one goal reaches every goal that follows from it.
pub proof fn lemma_leads_to_weaken<S, O>(
    next: spec_fn(S, ReplyView) -> (S, StepView<O>),
    s: S,
    reply: ReplyView,
    links: LinkSet,
    fuel: nat,
    goal: spec_fn(Result<O, HostErrorView>, LinkSet) -> bool,
    goal2: spec_fn(Result<O, HostErrorView>, LinkSet) -> bool,
)
    requires
        leads_to(next, s, reply, links, fuel, goal),
        forall|r: Result<O, HostErrorView>, l: LinkSet| goal(r, l) ==> #[trigger] goal2(r, l),
    ensures
        leads_to(next, s, reply, links, fuel, goal2),
    decreases fuel,
{
    match next(s, reply).1 {
        StepView::Finish(r) => {},
        StepView::Perform(req) => {
            assert forall|rep: ReplyView| #[trigger] answers(links, req, rep) implies leads_to(
                next,
                next(s, reply).0,
                rep,
                effect(links, req),
                (fuel - 1) as nat,
                goal2,
            ) by {
                lemma_leads_to_weaken(
                    next,
                    next(s, reply).0,
                    rep,
                    effect(links, req),
                    (fuel - 1) as nat,
                    goal,
                    goal2,
                );
            }
        },
    }
}

/// A run that reaches a goal within `fuel` requests reaches it within more.
pub proof fn lemma_leads_to_more_fuel<S, O>(
    next: spec_fn(S, ReplyView) -> (S, StepView<O>),
    s: S,
    reply: ReplyView,
    links: LinkSet,
    fuel: nat,
    more: nat,
    goal: spec_fn(Result<O, HostErrorView>, LinkSet) -> bool,
)
    requires
        leads_to(next, s, reply, links, fuel, goal),
        fuel <= more,
    ensures
        leads_to(next, s, reply, links, more, goal),
    decreases fuel,
{
    if let StepView::Perform(req) = next(s, reply).1 {
        assert forall|rep: ReplyView| #[trigger] answers(links, req, rep) implies leads_to(
            next, next(s, reply).0, rep, effect(links, req), (more - 1) as nat, goal) by {
            lemma_leads_to_more_fuel(next, next(s, reply).0, rep, effect(links, req), (fuel - 1) as nat, (more - 1) as nat, goal);
        }
    }
}

/// Both goals at once.
pub open spec fn both<O>(
    goal: spec_fn(Result<O, HostErrorView>, LinkSet) -> bool,
    goal2: spec_fn(Result<O, HostErrorView>, LinkSet) -> bool,
) -> spec_fn(Result<O, HostErrorView>, LinkSet) -> bool {
    |r: Result<O, HostErrorView>, l: LinkSet| goal(r, l) && goal2(r, l)
}

/// A run that reaches one goal, and whose every end meets another, reaches both.
pub proof fn lemma_leads_to_both<S, O>(
    next: spec_fn(S, ReplyView) -> (S, StepView<O>),
    s: S,
    reply: ReplyView,
    links: LinkSet,
    fuel: nat,
    goal: spec_fn(Result<O, HostErrorView>, LinkSet) -> bool,
    goal2: spec_fn(Result<O, HostErrorView>, LinkSet) -> bool,
)
    requires
        leads_to(next, s, reply, links, fuel, goal),
        ends_only_in(next, s, reply, links, fuel, goal2),
    ensures
        leads_to(next, s, reply, links, fuel, both(goal, goal2)),
    decreases fuel,
{
    if let StepView::Perform(req) = next(s, reply).1 {
        assert forall|rep: ReplyView| #[trigger] answers(links, req, rep) implies leads_to(
            next, next(s, reply).0, rep, effect(links, req), (fuel - 1) as nat, both(goal, goal2)) by {
            lemma_leads_to_both(next, next(s, reply).0, rep, effect(links, req), (fuel - 1) as nat, goal, goal2);
        }
    }
}

// ---------------------------------------------------------------------
// Runs against a DHT of which more is known than its links: the anchor of all
// apps, one entry, has the same address in every run, and the entries at the
// links that are loaded are agent entries.
// ---------------------------------------------------------------------

/// Whether `reply` is an answer that a DHT holding `links`, whose anchor of all apps is
/// at `anchor` and whose loaded links lead to agent entries, may give to `req`.
pub open spec fn answers_at(anchor: Seq<char>, links: LinkSet, req: RequestView, reply: ReplyView) -> bool {
    &&& answers(links, req, reply)
    &&& (req is CommitAllAppsAnchor ==> reply == ReplyView::Address(anchor))
    &&& (req is LoadLinks ==> (reply matches ReplyView::Entries(e) && forall|i: int| 0 <= i < e.len() ==> #[trigger] e[i] is Agent))
}

/// `ends_only_in`, for the runs against such a DHT.
pub open spec fn ends_at<S, O>(
    anchor: Seq<char>,
    next: spec_fn(S, ReplyView) -> (S, StepView<O>),
    s: S,
    reply: ReplyView,
    links: LinkSet,
    fuel: nat,
    goal: spec_fn(Result<O, HostErrorView>, LinkSet) -> bool,
) -> bool
    decreases fuel,
{
    match next(s, reply).1 {
        StepView::Finish(r) => goal(r, links),
        StepView::Perform(req) => fuel == 0 || forall|rep: ReplyView|
            #[trigger] answers_at(anchor, links, req, rep) ==> ends_at(
                anchor,
                next,
                next(s, reply).0,
                rep,
                effect(links, req),
                (fuel - 1) as nat,
                goal,
            ),
    }
}

/// `outcome_ok`, for the runs against such a DHT.
pub open spec fn outcome_at<S, O>(
    anchor: Seq<char>,
    out: (S, StepView<O>),
    links: LinkSet,
    inv: spec_fn(S, ReplyView, LinkSet) -> bool,
    goal: spec_fn(Result<O, HostErrorView>, LinkSet) -> bool,
) -> bool {
    match out.1 {
        StepView::Finish(r) => goal(r, links),
        StepView::Perform(req) => forall|rep: ReplyView|
            #[trigger] answers_at(anchor, links, req, rep) ==> inv(out.0, rep, effect(links, req)),
    }
}

/// An invariant that every step keeps, and that implies the goal where a step ends
/// the procedure, holds of every end of the runs against such a DHT.
pub proof fn lemma_invariant_ends_at<S, O>(
    anchor: Seq<char>,
    next: spec_fn(S, ReplyView) -> (S, StepView<O>),
    inv: spec_fn(S, ReplyView, LinkSet) -> bool,
    goal: spec_fn(Result<O, HostErrorView>, LinkSet) -> bool,
    s: S,
    reply: ReplyView,
    links: LinkSet,
    fuel: nat,
)
    requires
        forall|s1: S, r1: ReplyView, l1: LinkSet| #[trigger] inv(s1, r1, l1) ==> outcome_at(anchor, next(s1, r1), l1, inv, goal),
        inv(s, reply, links),
    ensures
        ends_at(anchor, next, s, reply, links, fuel, goal),
    decreases fuel,
{
    assert(outcome_at(anchor, next(s, reply), links, inv, goal));
    if let StepView::Perform(req) = next(s, reply).1 {
        if fuel > 0 {
            assert forall|rep: ReplyView| #[trigger] answers_at(anchor, links, req, rep) implies ends_at(
                anchor, next, next(s, reply).0, rep, effect(links, req), (fuel - 1) as nat, goal) by {
                lemma_invariant_ends_at(anchor, next, inv, goal, next(s, reply).0, rep, effect(links, req), (fuel - 1) as nat);
            }
        }
    }
}

/// Whether a step's outcome either ends with a result of which `goal` holds, or
/// requests something for every answer to which `inv` holds again, at a rank below
/// `bound`.
pub open spec fn outcome_ranked<S, O>(
    out: (S, StepView<O>),
    links: LinkSet,
    inv: spec_fn(S, ReplyView, LinkSet) -> bool,
    rank: spec_fn(S, ReplyView, LinkSet) -> nat,
    bound: nat,
    goal: spec_fn(Result<O, HostErrorView>, LinkSet) -> bool,
) -> bool {
    match out.1 {
        StepView::Finish(r) => goal(r, links),
        StepView::Perform(req) => forall|rep: ReplyView|
            #[trigger] answers(links, req, rep) ==> inv(out.0, rep, effect(links, req)) && rank(out.0, rep, effect(links, req)) < bound,
    }
}

/// An invariant that every step keeps while it lowers a rank, and that implies the
/// goal where a step ends the procedure, makes every run from a configuration of
/// rank below `fuel` reach the goal within `fuel` requests.
pub proof fn lemma_ranked_leads_to<S, O>(
    next: spec_fn(S, ReplyView) -> (S, StepView<O>),
    inv: spec_fn(S, ReplyView, LinkSet) -> bool,
    rank: spec_fn(S, ReplyView, LinkSet) -> nat,
    goal: spec_fn(Result<O, HostErrorView>, LinkSet) -> bool,
    s: S,
    reply: ReplyView,
    links: LinkSet,
    fuel: nat,
)
    requires
        forall|s1: S, r1: ReplyView, l1: LinkSet| #[trigger] inv(s1, r1, l1) ==> outcome_ranked(next(s1, r1), l1, inv, rank, rank(s1, r1, l1), goal),
        inv(s, reply, links),
        rank(s, reply, links) < fuel,
    ensures
        leads_to(next, s, reply, links, fuel, goal),
    decreases fuel,
{
    assert(outcome_ranked(next(s, reply), links, inv, rank, rank(s, reply, links), goal));
    if let StepView::Perform(req) = next(s, reply).1 {
        assert forall|rep: ReplyView| #[trigger] answers(links, req, rep) implies leads_to(
            next, next(s, reply).0, rep, effect(links, req), (fuel - 1) as nat, goal) by {
            lemma_ranked_leads_to(next, inv, rank, goal, next(s, reply).0, rep, effect(links, req), (fuel - 1) as nat);
        }
    }
}

/// A list of distinct targets of links from `base` with `tag` is no longer than the
/// links held.
pub proof fn lemma_list_within(links: LinkSet, base: Seq<char>, tag: LinkTag, l: Seq<Seq<char>>)
    requires
        links.finite(),
        l.no_duplicates(),
        forall|i: int| 0 <= i < l.len() ==> links.contains((base, #[trigger] l[i], tag)),
    ensures
        l.len() <= links.len(),
{
    let x = l.to_set();
    let f = |t: Seq<char>| (base, t, tag);
    let y = x.map(f);
    l.unique_seq_to_set();
    assert(injective_on(f, x));
    vstd::set_lib::lemma_map_size(x, y, f);
    assert(y.subset_of(links)) by {
        assert forall|v: (Seq<char>, Seq<char>, LinkTag)| y.contains(v) implies links.contains(v) by {
            let t = choose|t: Seq<char>| x.contains(t) && f(t) == v;
            let i = choose|i: int| 0 <= i < l.len() && l[i] == t;
            assert(links.contains((base, l[i], tag)));
        }
    }
    vstd::set_lib::lemma_len_subset(y, links);
}

/// `leads_to`, for the runs against a DHT whose anchor of all apps is at `anchor` and
/// whose loaded links lead to agent entries.
pub open spec fn leads_to_at<S, O>(
    anchor: Seq<char>,
    next: spec_fn(S, ReplyView) -> (S, StepView<O>),
    s: S,
    reply: ReplyView,
    links: LinkSet,
    fuel: nat,
    goal: spec_fn(Result<O, HostErrorView>, LinkSet) -> bool,
) -> bool
    decreases fuel,
{
    match next(s, reply).1 {
        StepView::Finish(r) => goal(r, links),
        StepView::Perform(req) => fuel > 0 && forall|rep: ReplyView|
            #[trigger] answers_at(anchor, links, req, rep) ==> leads_to_at(
                anchor,
                next,
                next(s, reply).0,
                rep,
                effect(links, req),
                (fuel - 1) as nat,
                goal,
            ),
    }
}

/// `outcome_ranked`, for the runs against such a DHT.
pub open spec fn outcome_ranked_at<S, O>(
    anchor: Seq<char>,
    out: (S, StepView<O>),
    links: LinkSet,
    inv: spec_fn(S, ReplyView, LinkSet) -> bool,
    rank: spec_fn(S, ReplyView, LinkSet) -> nat,
    bound: nat,
    goal: spec_fn(Result<O, HostErrorView>, LinkSet) -> bool,
) -> bool {
    match out.1 {
        StepView::Finish(r) => goal(r, links),
        StepView::Perform(req) => forall|rep: ReplyView|
            #[trigger] answers_at(anchor, links, req, rep) ==> inv(out.0, rep, effect(links, req)) && rank(out.0, rep, effect(links, req)) < bound,
    }
}

/// `lemma_ranked_leads_to`, for the runs against such a DHT.
pub proof fn lemma_ranked_leads_to_at<S, O>(
    anchor: Seq<char>,
    next: spec_fn(S, ReplyView) -> (S, StepView<O>),
    inv: spec_fn(S, ReplyView, LinkSet) -> bool,
    rank: spec_fn(S, ReplyView, LinkSet) -> nat,
    goal: spec_fn(Result<O, HostErrorView>, LinkSet) -> bool,
    s: S,
    reply: ReplyView,
    links: LinkSet,
    fuel: nat,
)
    requires
        forall|s1: S, r1: ReplyView, l1: LinkSet| #[trigger] inv(s1, r1, l1) ==> outcome_ranked_at(anchor, next(s1, r1), l1, inv, rank, rank(s1, r1, l1), goal),
        inv(s, reply, links),
        rank(s, reply, links) < fuel,
    ensures
        leads_to_at(anchor, next, s, reply, links, fuel, goal),
    decreases fuel,
{
    assert(outcome_ranked_at(anchor, next(s, reply), links, inv, rank, rank(s, reply, links), goal));
    if let StepView::Perform(req) = next(s, reply).1 {
        assert forall|rep: ReplyView| #[trigger] answers_at(anchor, links, req, rep) implies leads_to_at(
            anchor, next, next(s, reply).0, rep, effect(links, req), (fuel - 1) as nat, goal) by {
            lemma_ranked_leads_to_at(anchor, next, inv, rank, goal, next(s, reply).0, rep, effect(links, req), (fuel - 1) as nat);
        }
    }
}

/// A run that reaches one goal, and whose every end meets another, reaches both.
pub proof fn lemma_leads_to_at_both<S, O>(
    anchor: Seq<char>,
    next: spec_fn(S, ReplyView) -> (S, StepView<O>),
    s: S,
    reply: ReplyView,
    links: LinkSet,
    fuel: nat,
    goal: spec_fn(Result<O, HostErrorView>, LinkSet) -> bool,
    goal2: spec_fn(Result<O, HostErrorView>, LinkSet) -> bool,
)
    requires
        leads_to_at(anchor, next, s, reply, links, fuel, goal),
        ends_at(anchor, next, s, reply, links, fuel, goal2),
    ensures
        leads_to_at(anchor, next, s, reply, links, fuel, both(goal, goal2)),
    decreases fuel,
{
    if let StepView::Perform(req) = next(s, reply).1 {
        assert forall|rep: ReplyView| #[trigger] answers_at(anchor, links, req, rep) implies leads_to_at(
            anchor, next, next(s, reply).0, rep, effect(links, req), (fuel - 1) as nat, both(goal, goal2)) by {
            lemma_leads_to_at_both(anchor, next, next(s, reply).0, rep, effect(links, req), (fuel - 1) as nat, goal, goal2);
        }
    }
}

/// A run that reaches one goal reaches every goal that follows from it.
pub proof fn lemma_leads_to_at_weaken<S, O>(
    anchor: Seq<char>,
    next: spec_fn(S, ReplyView) -> (S, StepView<O>),
    s: S,
    reply: ReplyView,
    links: LinkSet,
    fuel: nat,
    goal: spec_fn(Result<O, HostErrorView>, LinkSet) -> bool,
    goal2: spec_fn(Result<O, HostErrorView>, LinkSet) -> bool,
)
    requires
        leads_to_at(anchor, next, s, reply, links, fuel, goal),
        forall|r: Result<O, HostErrorView>, l: LinkSet| goal(r, l) ==> #[trigger] goal2(r, l),
    ensures
        leads_to_at(anchor, next, s, reply, links, fuel, goal2),
    decreases fuel,
{
    if let StepView::Perform(req) = next(s, reply).1 {
        assert forall|rep: ReplyView| #[trigger] answers_at(anchor, links, req, rep) implies leads_to_at(
            anchor, next, next(s, reply).0, rep, effect(links, req), (fuel - 1) as nat, goal2) by {
            lemma_leads_to_at_weaken(anchor, next, next(s, reply).0, rep, effect(links, req), (fuel - 1) as nat, goal, goal2);
        }
    }
}

/// The goal that the links held are finitely many.
pub open spec fn finite_links<O>() -> spec_fn(Result<O, HostErrorView>, LinkSet) -> bool {
    |r: Result<O, HostErrorView>, l: LinkSet| l.finite()
}

/// A DHT that holds finitely many links holds finitely many at the end of every run.
pub proof fn lemma_finite_kept<S, O>(
    anchor: Seq<char>,
    next: spec_fn(S, ReplyView) -> (S, StepView<O>),
    s: S,
    reply: ReplyView,
    links: LinkSet,
    fuel: nat,
)
    requires
        links.finite(),
    ensures
        ends_at(anchor, next, s, reply, links, fuel, finite_links::<O>()),
{
    let inv = |s1: S, r1: ReplyView, l1: LinkSet| l1.finite();
    assert forall|s1: S, r1: ReplyView, l1: LinkSet| #[trigger] inv(s1, r1, l1) implies outcome_at(anchor, next(s1, r1), l1, inv, finite_links::<O>()) by {
        if let StepView::Perform(req) = next(s1, r1).1 {
            assert(effect(l1, req).finite());
        }
    }
    lemma_invariant_ends_at(anchor, next, inv, finite_links::<O>(), s, reply, links, fuel);
}

/// What a procedure does after it is handed `replies` one after the other, from the
/// state `s` on (the first of them is the event that starts it): the state it is in
/// and the step it takes on the last.
pub open spec fn feed<S, O>(next: spec_fn(S, ReplyView) -> (S, StepView<O>), s: S, replies: Seq<ReplyView>) -> (S, StepView<O>)
    decreases replies.len(),
{
    if replies.len() <= 1 {
        next(s, replies[0])
    } else {
        feed(next, next(s, replies[0]).0, replies.drop_first())
    }
}

/// Handing a procedure two runs of answers is handing it the first, then the second.
pub proof fn lemma_feed_append<S, O>(next: spec_fn(S, ReplyView) -> (S, StepView<O>), s: S, a: Seq<ReplyView>, b: Seq<ReplyView>)
    requires
        a.len() >= 1,
        b.len() >= 1,
    ensures
        feed(next, s, a + b) == feed(next, feed(next, s, a).0, b),
    decreases a.len(),
{
    assert((a + b)[0] == a[0]);
    if a.len() == 1 {
        assert((a + b).drop_first() =~= b);
    } else {
        assert((a + b).drop_first() =~= a.drop_first() + b);
        lemma_feed_append(next, next(s, a[0]).0, a.drop_first(), b);
    }
}

/// Handing a procedure one answer is taking one step.
pub proof fn lemma_feed_one<S, O>(next: spec_fn(S, ReplyView) -> (S, StepView<O>), s: S, r: ReplyView)
    ensures
        feed(next, s, seq![r]) == next(s, r),
{
    assert(seq![r].len() == 1);
    assert(seq![r][0] == r);
}

/// Handing a procedure answers and then one more is taking one more step.
pub proof fn lemma_feed_push<S, O>(next: spec_fn(S, ReplyView) -> (S, StepView<O>), s: S, a: Seq<ReplyView>, r: ReplyView)
    requires
        a.len() >= 1,
    ensures
        feed(next, s, a.push(r)) == next(feed(next, s, a).0, r),
{
    assert(a.push(r) =~= a + seq![r]);
    lemma_feed_append(next, s, a, seq![r]);
    lemma_feed_one(next, feed(next, s, a).0, r);
}

} // verus!
