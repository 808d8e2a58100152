use std::collections::BTreeSet;

use holo_hosting::app_config::{AppConfig, LoadedAppConfig};
use holo_hosting::apps::{handle_get_all_apps, handle_get_enabled_app_list};
use holo_hosting::dht::{LinkTag, LoadedEntry, Reply, Request, Step};
use holo_hosting::disable::handle_disable_app;
use holo_hosting::enable::handle_enable_app;
use holo_hosting::error::HostError;
use holo_hosting::host::{AllApps, App2Host, DnaToHost, HoloFuelAc};
use holo_hosting::kv::{handle_get_kv_updates_dna_to_host, handle_kv_updates_host_completed};
use holo_hosting::registration::handle_register_as_host;
use holo_hosting::service_log::{lookup_payment_account, EntryLookup};

/// An in-memory DHT of links, which answers requests the way the conductor does.
struct Dht {
    links: BTreeSet<(String, String, String)>,
    agents: Vec<String>,
    requests: Vec<String>,
    /// Committed documents, in order.
    docs: Vec<Vec<u8>>,
    /// App configurations by address.
    configs: Vec<(String, String)>,
    /// Entries with their headers' provenance sources, by address.
    headers: Vec<(String, Vec<Vec<String>>)>,
    /// HoloFuel accounts by address.
    accounts: Vec<(String, String)>,
}

impl Dht {
    fn new() -> Dht {
        Dht {
            links: BTreeSet::new(),
            agents: Vec::new(),
            requests: Vec::new(),
            docs: Vec::new(),
            configs: Vec::new(),
            headers: Vec::new(),
            accounts: Vec::new(),
        }
    }

    fn link(&mut self, base: &str, target: &str, tag: LinkTag) {
        self.links.insert((base.to_string(), target.to_string(), tag.name().to_string()));
    }

    fn has(&self, base: &str, target: &str, tag: LinkTag) -> bool {
        self.links.contains(&(base.to_string(), target.to_string(), tag.name().to_string()))
    }

    fn targets(&self, base: &str, tag: LinkTag) -> Vec<String> {
        self.links
            .iter()
            .filter(|(b, _, t)| b == base && t == tag.name())
            .map(|(_, target, _)| target.clone())
            .collect()
    }

    fn serve(&mut self, req: Request) -> Reply {
        self.requests.push(format!("{:?}", req));
        match req {
            Request::GetLinks { base, tag } => Reply::Links(self.targets(&base, tag)),
            Request::LoadLinks { base, tag } => Reply::Entries(
                self.targets(&base, tag)
                    .into_iter()
                    .map(|t| if self.agents.contains(&t) { LoadedEntry::Agent(t) } else { LoadedEntry::Other })
                    .collect(),
            ),
            Request::LinkEntries { base, target, tag } => {
                self.link(&base, &target, tag);
                Reply::Done
            }
            Request::LinkEntriesBidir { base, target, tag, back_tag } => {
                self.link(&base, &target, tag);
                self.link(&target, &base, back_tag);
                Reply::Done
            }
            Request::RemoveLink { base, target, tag } => {
                self.links.remove(&(base, target, tag.name().to_string()));
                Reply::Done
            }
            Request::CommitAllAppsAnchor => Reply::Address("anchor".to_string()),
            Request::GetAppDetails { app_hash } => Reply::Details(format!("details of {}", app_hash)),
            Request::Sleep { .. } => Reply::Done,
            Request::CommitHostDoc { doc } => {
                self.docs.push(doc);
                Reply::Address(format!("doc-{}", self.docs.len()))
            }
            Request::LoadAppConfigs { base, tag } => {
                let mut found = Vec::new();
                for t in self.targets(&base, tag) {
                    for (address, hash) in &self.configs {
                        if *address == t {
                            found.push(LoadedAppConfig {
                                address: t.clone(),
                                entry: AppConfig { happ_hash: hash.clone() },
                            });
                        }
                    }
                }
                Reply::AppConfigs(found)
            }
            Request::LookupEntry { address } => match self.headers.iter().find(|(a, _)| *a == address) {
                Some((_, sources)) => Reply::Lookup(EntryLookup::Single { provenance_sources: sources.clone() }),
                None => Reply::Lookup(EntryLookup::Other),
            },
            Request::LoadAccounts { base, tag } => {
                let mut found = Vec::new();
                for t in self.targets(&base, tag) {
                    for (address, number) in &self.accounts {
                        if *address == t {
                            found.push(HoloFuelAc { account_number: number.clone() });
                        }
                    }
                }
                Reply::Accounts(found)
            }
        }
    }
}

fn registered_dht() -> Dht {
    let mut dht = Dht::new();
    dht.link("agent", "host_doc", LinkTag::VerifiedHost);
    dht
}

fn enable(dht: &mut Dht, app: &str) -> Result<(), HostError> {
    let mut m = handle_enable_app("agent".to_string(), app.to_string());
    let mut reply = Reply::Done;
    loop {
        let (next, step) = m.step(reply);
        m = next;
        match step {
            Step::Perform(req) => reply = dht.serve(req),
            Step::Finish(r) => return r,
        }
    }
}

fn disable(dht: &mut Dht, app: &str) -> Result<(), HostError> {
    let mut m = handle_disable_app("agent".to_string(), app.to_string());
    let mut reply = Reply::Done;
    loop {
        let (next, step) = m.step(reply);
        m = next;
        match step {
            Step::Perform(req) => reply = dht.serve(req),
            Step::Finish(r) => return r,
        }
    }
}

fn all_apps(dht: &mut Dht) -> Result<Vec<AllApps>, HostError> {
    let mut m = handle_get_all_apps("agent".to_string());
    let mut reply = Reply::Done;
    loop {
        let (next, step) = m.step(reply);
        m = next;
        match step {
            Step::Perform(req) => reply = dht.serve(req),
            Step::Finish(r) => return r,
        }
    }
}

fn kv_updates(dht: &mut Dht) -> Result<DnaToHost, HostError> {
    let mut m = handle_get_kv_updates_dna_to_host("agent".to_string());
    let mut reply = Reply::Done;
    loop {
        let (next, step) = m.step(reply);
        m = next;
        match step {
            Step::Perform(req) => reply = dht.serve(req),
            Step::Finish(r) => return r,
        }
    }
}

fn kv_completed(dht: &mut Dht, bundle: Vec<App2Host>) -> Result<(), HostError> {
    let mut m = handle_kv_updates_host_completed("agent".to_string(), bundle);
    let mut reply = Reply::Done;
    loop {
        let (next, step) = m.step(reply);
        m = next;
        match step {
            Step::Perform(req) => reply = dht.serve(req),
            Step::Finish(r) => return r,
        }
    }
}

fn register(dht: &mut Dht, doc: &[u8]) -> Result<String, HostError> {
    let mut m = handle_register_as_host("agent".to_string(), doc.to_vec());
    let mut reply = Reply::Done;
    loop {
        let (next, step) = m.step(reply);
        m = next;
        match step {
            Step::Perform(req) => reply = dht.serve(req),
            Step::Finish(r) => return r,
        }
    }
}

fn enabled_list(dht: &mut Dht) -> Result<Vec<LoadedAppConfig>, HostError> {
    let mut m = handle_get_enabled_app_list("agent".to_string());
    let mut reply = Reply::Done;
    loop {
        let (next, step) = m.step(reply);
        m = next;
        match step {
            Step::Perform(req) => reply = dht.serve(req),
            Step::Finish(r) => return r,
        }
    }
}

fn payment_account(dht: &mut Dht, app: &str) -> Result<String, HostError> {
    let mut m = lookup_payment_account(app.to_string());
    let mut reply = Reply::Done;
    loop {
        let (next, step) = m.step(reply);
        m = next;
        match step {
            Step::Perform(req) => reply = dht.serve(req),
            Step::Finish(r) => return r,
        }
    }
}

#[test]
fn enabling_links_app_and_host() {
    let mut dht = registered_dht();
    assert!(enable(&mut dht, "app").is_ok());
    assert!(dht.has("agent", "app", LinkTag::AppsEnabled));
    assert!(dht.has("app", "agent", LinkTag::HostEnabled));
    assert!(dht.has("app", "agent", LinkTag::RecentlyEnabledApp));
    assert!(dht.requests.iter().any(|r| r.contains("Sleep") && r.contains("100")));
}

#[test]
fn enabling_twice_changes_nothing_more() {
    let mut dht = registered_dht();
    enable(&mut dht, "app").unwrap();
    let before = dht.links.clone();
    dht.requests.clear();
    assert!(enable(&mut dht, "app").is_ok());
    assert_eq!(dht.links, before);
    assert_eq!(dht.requests.len(), 2);
}

#[test]
fn enabling_refused_for_non_host() {
    let mut dht = Dht::new();
    assert!(matches!(enable(&mut dht, "app"), Err(HostError::NotAHost)));
    assert!(dht.links.is_empty());
}

#[test]
fn enabling_removes_marks_listed_from_the_agent() {
    let mut dht = registered_dht();
    dht.link("agent", "app", LinkTag::RecentlyDisabledApp);
    dht.link("agent", "app", LinkTag::NeedUpdatesDisabled);
    // Marks from the app to the agent are not what enabling reads.
    dht.link("app", "agent", LinkTag::RecentlyDisabledApp);
    enable(&mut dht, "app").unwrap();
    assert!(dht.requests.iter().any(|r| r.contains("RemoveLink") && r.contains("RecentlyDisabledApp")));
    assert!(dht.requests.iter().any(|r| r.contains("RemoveLink") && r.contains("NeedUpdatesDisabled")));
    assert!(dht.has("app", "agent", LinkTag::RecentlyDisabledApp) == false);
}

#[test]
fn disabling_unlinks_enabled_app() {
    let mut dht = registered_dht();
    enable(&mut dht, "app").unwrap();
    assert!(disable(&mut dht, "app").is_ok());
    assert!(!dht.has("agent", "app", LinkTag::AppsEnabled));
    assert!(dht.has("app", "agent", LinkTag::RecentlyDisabledApp));
    // The app's host_enabled link stays: disabling looks for it from the agent.
    assert!(dht.has("app", "agent", LinkTag::HostEnabled));
}

#[test]
fn disabling_app_not_enabled_changes_nothing() {
    let mut dht = registered_dht();
    let before = dht.links.clone();
    assert!(disable(&mut dht, "app").is_ok());
    assert_eq!(dht.links, before);
}

#[test]
fn disabling_refused_for_non_host() {
    let mut dht = Dht::new();
    dht.link("agent", "app", LinkTag::AppsEnabled);
    assert!(matches!(disable(&mut dht, "app"), Err(HostError::NotAHost)));
}

#[test]
fn listing_all_apps_gives_details_in_order() {
    let mut dht = registered_dht();
    dht.link("anchor", "app1", LinkTag::AllApps);
    dht.link("anchor", "app2", LinkTag::AllApps);
    let apps = all_apps(&mut dht).unwrap();
    assert_eq!(apps.len(), 2);
    assert_eq!(apps[0].hash, "app1");
    assert_eq!(apps[0].details, "details of app1");
    assert_eq!(apps[1].hash, "app2");
    assert_eq!(apps[1].details, "details of app2");
}

#[test]
fn listing_all_apps_refused_for_non_host() {
    let mut dht = Dht::new();
    assert!(matches!(all_apps(&mut dht), Err(HostError::NotAHost)));
}

#[test]
fn listing_no_apps_gives_empty_list() {
    let mut dht = registered_dht();
    assert!(all_apps(&mut dht).unwrap().is_empty());
}

#[test]
fn kv_updates_collect_and_mark_pending() {
    let mut dht = registered_dht();
    dht.agents = vec!["host1".to_string(), "host2".to_string()];
    dht.link("anchor", "app", LinkTag::AllApps);
    dht.link("app", "host1", LinkTag::RecentlyEnabledApp);
    dht.link("app", "host2", LinkTag::RecentlyDisabledApp);
    let updates = kv_updates(&mut dht).unwrap();
    assert_eq!(updates.recently_enabled_apps.len(), 1);
    assert_eq!(updates.recently_enabled_apps[0].app, "app");
    assert_eq!(updates.recently_enabled_apps[0].host, vec!["host1".to_string()]);
    assert_eq!(updates.recently_disabled_apps[0].host, vec!["host2".to_string()]);
    assert!(!dht.has("app", "host1", LinkTag::RecentlyEnabledApp));
    assert!(dht.has("app", "host1", LinkTag::NeedUpdatesEnabled));
    assert!(!dht.has("app", "host2", LinkTag::RecentlyDisabledApp));
    assert!(dht.has("app", "host2", LinkTag::NeedUpdatesDisabled));
}

#[test]
fn kv_updates_report_pending_hosts_again() {
    let mut dht = registered_dht();
    dht.agents = vec!["host1".to_string()];
    dht.link("anchor", "app", LinkTag::AllApps);
    dht.link("app", "host1", LinkTag::NeedUpdatesEnabled);
    let updates = kv_updates(&mut dht).unwrap();
    assert_eq!(updates.recently_enabled_apps[0].host, vec!["host1".to_string()]);
    assert!(updates.recently_disabled_apps[0].host.is_empty());
    assert!(dht.has("app", "host1", LinkTag::NeedUpdatesEnabled));
}

#[test]
fn kv_updates_without_apps_are_empty() {
    let mut dht = registered_dht();
    let updates = kv_updates(&mut dht).unwrap();
    assert!(updates.recently_enabled_apps.is_empty());
    assert!(updates.recently_disabled_apps.is_empty());
}

#[test]
fn kv_updates_refused_for_non_host() {
    let mut dht = Dht::new();
    assert!(matches!(kv_updates(&mut dht), Err(HostError::NotAHost)));
}

#[test]
fn kv_completed_clears_pending_marks() {
    let mut dht = registered_dht();
    dht.agents = vec!["host1".to_string(), "host2".to_string()];
    dht.link("anchor", "app", LinkTag::AllApps);
    dht.link("app", "host1", LinkTag::RecentlyEnabledApp);
    dht.link("app", "host2", LinkTag::RecentlyDisabledApp);
    let updates = kv_updates(&mut dht).unwrap();
    let mut bundle = updates.recently_enabled_apps;
    bundle.extend(updates.recently_disabled_apps);
    assert!(kv_completed(&mut dht, bundle).is_ok());
    assert!(!dht.has("app", "host1", LinkTag::NeedUpdatesEnabled));
    assert!(!dht.has("app", "host2", LinkTag::NeedUpdatesDisabled));
}

#[test]
fn kv_completed_with_empty_bundle_asks_nothing() {
    let mut dht = Dht::new();
    assert!(kv_completed(&mut dht, Vec::new()).is_ok());
    assert!(dht.requests.is_empty());
}

#[test]
fn kv_completed_refused_for_non_host() {
    let mut dht = Dht::new();
    let bundle = vec![App2Host { app: "app".to_string(), host: vec!["host1".to_string()] }];
    assert!(matches!(kv_completed(&mut dht, bundle), Err(HostError::NotAHost)));
}

#[test]
fn unexpected_reply_is_protocol_error() {
    let m = handle_enable_app("agent".to_string(), "app".to_string());
    let (m, _) = m.step(Reply::Done);
    let (_, step) = m.step(Reply::Done);
    assert!(matches!(step, Step::Finish(Err(HostError::Protocol))));
}

#[test]
fn registering_links_agent_to_committed_document() {
    let mut dht = Dht::new();
    let address = register(&mut dht, b"host document").unwrap();
    assert_eq!(address, "doc-1");
    assert_eq!(dht.docs, vec![b"host document".to_vec()]);
    assert!(dht.has("agent", "doc-1", LinkTag::VerifiedHost));
    assert_eq!(dht.links.len(), 1);
}

#[test]
fn registering_makes_the_agent_a_host() {
    let mut dht = Dht::new();
    assert!(matches!(enable(&mut dht, "app-1"), Err(HostError::NotAHost)));
    register(&mut dht, b"host document").unwrap();
    assert!(enable(&mut dht, "app-1").is_ok());
    assert!(dht.has("agent", "app-1", LinkTag::AppsEnabled));
}

#[test]
fn enabled_app_list_loads_configurations_of_enabled_apps() {
    let mut dht = registered_dht();
    dht.link("agent", "app-1", LinkTag::AppsEnabled);
    dht.link("agent", "app-2", LinkTag::AppsEnabled);
    dht.link("other", "app-3", LinkTag::AppsEnabled);
    dht.configs.push(("app-1".to_string(), "bundle-1".to_string()));
    dht.configs.push(("app-3".to_string(), "bundle-3".to_string()));
    let list = enabled_list(&mut dht).unwrap();
    assert_eq!(list.len(), 1);
    assert_eq!(list[0].address, "app-1");
    assert_eq!(list[0].entry.happ_hash, "bundle-1");
}

#[test]
fn enabled_app_list_refused_for_non_host() {
    let mut dht = Dht::new();
    dht.link("agent", "app-1", LinkTag::AppsEnabled);
    assert!(matches!(enabled_list(&mut dht), Err(HostError::NotAHost)));
    assert_eq!(dht.requests.len(), 1);
}

#[test]
fn payment_account_is_first_account_of_last_header_author() {
    let mut dht = Dht::new();
    dht.headers.push((
        "app-1".to_string(),
        vec![vec!["first-author".to_string()], vec!["provider".to_string(), "co-signer".to_string()]],
    ));
    dht.link("provider", "ac-1", LinkTag::HolofuelAccountDetails);
    dht.link("provider", "ac-2", LinkTag::HolofuelAccountDetails);
    dht.link("first-author", "ac-0", LinkTag::HolofuelAccountDetails);
    dht.accounts.push(("ac-0".to_string(), "HF-0".to_string()));
    dht.accounts.push(("ac-1".to_string(), "HF-1".to_string()));
    dht.accounts.push(("ac-2".to_string(), "HF-2".to_string()));
    assert_eq!(payment_account(&mut dht, "app-1").unwrap(), "HF-1");
}

#[test]
fn payment_account_of_unknown_app_is_not_registered() {
    let mut dht = Dht::new();
    assert!(matches!(payment_account(&mut dht, "app-9"), Err(HostError::ProviderAccountNotRegistered)));
    assert_eq!(dht.requests.len(), 1);
}

#[test]
fn kv_completed_bundle_without_hosts_needs_no_host() {
    let mut dht = Dht::new();
    let bundle = vec![
        App2Host { app: "app-1".to_string(), host: Vec::new() },
        App2Host { app: "app-2".to_string(), host: Vec::new() },
    ];
    assert!(kv_completed(&mut dht, bundle).is_ok());
    assert!(dht.requests.is_empty());
}

#[test]
fn acknowledged_updates_are_not_reported_again_example() {
    let mut dht = registered_dht();
    dht.agents = vec!["host1".to_string(), "host2".to_string(), "host3".to_string()];
    dht.link("anchor", "app-1", LinkTag::AllApps);
    dht.link("anchor", "app-2", LinkTag::AllApps);
    dht.link("app-1", "host1", LinkTag::RecentlyEnabledApp);
    dht.link("app-1", "host2", LinkTag::NeedUpdatesEnabled);
    dht.link("app-2", "host3", LinkTag::RecentlyDisabledApp);
    let first = kv_updates(&mut dht).unwrap();
    let mut bundle = first.recently_enabled_apps;
    bundle.extend(first.recently_disabled_apps);
    assert!(kv_completed(&mut dht, bundle).is_ok());
    let before = dht.links.clone();
    let second = kv_updates(&mut dht).unwrap();
    assert_eq!(second.recently_enabled_apps.len(), 2);
    assert_eq!(second.recently_disabled_apps.len(), 2);
    assert!(second.recently_enabled_apps.iter().all(|x| x.host.is_empty()));
    assert!(second.recently_disabled_apps.iter().all(|x| x.host.is_empty()));
    assert_eq!(dht.links, before);
}

#[test]
fn unacknowledged_updates_are_reported_again_example() {
    let mut dht = registered_dht();
    dht.agents = vec!["host1".to_string(), "host2".to_string()];
    dht.link("anchor", "app", LinkTag::AllApps);
    dht.link("app", "host1", LinkTag::RecentlyEnabledApp);
    dht.link("app", "host2", LinkTag::RecentlyDisabledApp);
    let first = kv_updates(&mut dht).unwrap();
    let after_first = dht.links.clone();
    let second = kv_updates(&mut dht).unwrap();
    assert_eq!(dht.links, after_first);
    assert_eq!(second.recently_enabled_apps[0].app, first.recently_enabled_apps[0].app);
    assert_eq!(second.recently_enabled_apps[0].host, first.recently_enabled_apps[0].host);
    assert_eq!(second.recently_disabled_apps[0].host, first.recently_disabled_apps[0].host);
    assert_eq!(second.recently_enabled_apps[0].host, vec!["host1".to_string()]);
}

#[test]
fn disabling_twice_changes_nothing_more() {
    let mut dht = registered_dht();
    enable(&mut dht, "app").unwrap();
    disable(&mut dht, "app").unwrap();
    let after_first = dht.links.clone();
    assert!(disable(&mut dht, "app").is_ok());
    assert_eq!(dht.links, after_first);
}

#[test]
fn confirming_twice_changes_nothing_more() {
    let mut dht = registered_dht();
    dht.link("app", "host1", LinkTag::NeedUpdatesEnabled);
    dht.link("app", "host1", LinkTag::NeedUpdatesDisabled);
    let bundle = || vec![App2Host { app: "app".to_string(), host: vec!["host1".to_string()] }];
    assert!(kv_completed(&mut dht, bundle()).is_ok());
    let after_first = dht.links.clone();
    assert!(kv_completed(&mut dht, bundle()).is_ok());
    assert_eq!(dht.links, after_first);
    assert!(!dht.has("app", "host1", LinkTag::NeedUpdatesEnabled));
}

#[test]
fn is_enabled_answers_after_enabling_and_disabling() {
    let mut dht = registered_dht();
    enable(&mut dht, "app").unwrap();
    let registrations = dht.targets("agent", LinkTag::VerifiedHost);
    let enabled = dht.targets("agent", LinkTag::AppsEnabled);
    assert!(matches!(holo_hosting::host::is_enabled(&registrations, &enabled, &"app".to_string()), Ok(true)));
    disable(&mut dht, "app").unwrap();
    let enabled = dht.targets("agent", LinkTag::AppsEnabled);
    assert!(matches!(holo_hosting::host::is_enabled(&registrations, &enabled, &"app".to_string()), Ok(false)));
}

#[test]
fn enabling_lists_the_host_among_the_app_hosts() {
    let mut dht = registered_dht();
    dht.agents = vec!["agent".to_string()];
    enable(&mut dht, "app").unwrap();
    match dht.serve(holo_hosting::host::handle_get_host_for_app(&"app".to_string())) {
        Reply::Entries(e) => assert!(e.iter().any(|x| matches!(x, LoadedEntry::Agent(k) if k == "agent"))),
        other => panic!("unexpected reply {:?}", other),
    }
}

#[test]
fn hosts_stay_hosts_example() {
    let mut dht = registered_dht();
    dht.link("anchor", "app", LinkTag::AllApps);
    enable(&mut dht, "app").unwrap();
    disable(&mut dht, "app").unwrap();
    kv_updates(&mut dht).unwrap();
    all_apps(&mut dht).unwrap();
    assert!(dht.has("agent", "host_doc", LinkTag::VerifiedHost));
}
