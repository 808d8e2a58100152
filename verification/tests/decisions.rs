use holo_hosting::app_config::{validate_app_config, AppConfig, AppConfigValidation};
use holo_hosting::dht::{contains_address, LinkTag, LoadedEntry};
use holo_hosting::error::HostError;
use holo_hosting::host::{check_agent_exist, check_link_exists, collect_agent_keys, is_enabled, validate_host, HoloFuelAc};
use holo_hosting::service_log::{provider_account, provider_address, EntryLookup};

fn strings(v: &[&str]) -> Vec<String> {
    v.iter().map(|s| s.to_string()).collect()
}

#[test]
fn validate_host_accepts_registered_agent() {
    assert!(matches!(validate_host(&strings(&["host_doc"])), Ok(true)));
}

#[test]
fn validate_host_refuses_unregistered_agent() {
    let r = validate_host(&Vec::new());
    match r {
        Err(e) => {
            assert!(matches!(e, HostError::NotAHost));
            assert_eq!(e.message(), "Agent Not a Host");
        }
        Ok(_) => panic!("an unregistered agent was accepted"),
    }
}

#[test]
fn is_enabled_finds_app_among_links() {
    let reg = strings(&["doc"]);
    let links = strings(&["QmA", "QmB"]);
    assert!(matches!(is_enabled(&reg, &links, &"QmB".to_string()), Ok(true)));
    assert!(matches!(is_enabled(&reg, &links, &"QmC".to_string()), Ok(false)));
    assert!(matches!(is_enabled(&Vec::new(), &links, &"QmB".to_string()), Err(HostError::NotAHost)));
}

#[test]
fn check_link_exists_on_empty_links_is_false() {
    assert!(matches!(check_link_exists(&strings(&["doc"]), &Vec::new(), &"QmA".to_string()), Ok(false)));
}

#[test]
fn contains_address_matches_whole_addresses() {
    let links = strings(&["QmAB"]);
    assert!(!contains_address(&links, &"QmA".to_string()));
    assert!(contains_address(&links, &"QmAB".to_string()));
}

#[test]
fn check_agent_exist_finds_agent() {
    let list = vec![LoadedEntry::Other, LoadedEntry::Agent("k1".to_string()), LoadedEntry::Agent("k2".to_string())];
    assert!(matches!(check_agent_exist(&list, &"k2".to_string()), Ok(true)));
    assert!(matches!(check_agent_exist(&list, &"k3".to_string()), Ok(false)));
    assert!(matches!(check_agent_exist(&Vec::new(), &"k1".to_string()), Ok(false)));
}

#[test]
fn check_agent_exist_stops_at_first_failure() {
    let list = vec![
        LoadedEntry::Agent("k1".to_string()),
        LoadedEntry::Failed(HostError::Zome("load failed".to_string())),
        LoadedEntry::Agent("k2".to_string()),
    ];
    assert!(matches!(check_agent_exist(&list, &"k1".to_string()), Ok(true)));
    match check_agent_exist(&list, &"k2".to_string()) {
        Err(HostError::Zome(m)) => assert_eq!(m, "load failed"),
        other => panic!("unexpected {:?}", other),
    }
}

#[test]
fn collect_agent_keys_keeps_order_and_skips_other_entries() {
    let a = vec![LoadedEntry::Agent("k1".to_string()), LoadedEntry::Other];
    let b = vec![LoadedEntry::Agent("k2".to_string()), LoadedEntry::Agent("k1".to_string())];
    let keys = collect_agent_keys(&a, &b).unwrap();
    assert_eq!(keys, strings(&["k1", "k2", "k1"]));
}

#[test]
fn collect_agent_keys_fails_on_failed_entry() {
    let a = vec![LoadedEntry::Agent("k1".to_string())];
    let b = vec![LoadedEntry::Failed(HostError::Zome("gone".to_string()))];
    assert!(matches!(collect_agent_keys(&a, &b), Err(HostError::Zome(_))));
}

#[test]
fn link_tag_names() {
    assert_eq!(LinkTag::VerifiedHost.name(), "verified_host_tag");
    assert_eq!(LinkTag::AppsEnabled.name(), "apps_enabled");
    assert_eq!(LinkTag::HostEnabled.name(), "host_enabled");
    assert_eq!(LinkTag::RecentlyEnabledApp.name(), "recently_enabled_app_tag");
    assert_eq!(LinkTag::RecentlyDisabledApp.name(), "recently_disabled_app_tag");
    assert_eq!(LinkTag::NeedUpdatesEnabled.name(), "need_updates_enabled_from_kv_store");
    assert_eq!(LinkTag::NeedUpdatesDisabled.name(), "need_updates_disabled_from_kv_store");
    assert_eq!(LinkTag::AllApps.name(), "all_apps_tag");
    assert_eq!(LinkTag::HolofuelAccountDetails.name(), "holofuel_account_details_tag");
    assert_eq!(LinkTag::PaymentPref.name(), "payment_pref_tag");
}

#[test]
fn error_messages() {
    assert_eq!(HostError::ProviderAccountNotRegistered.message(), "Providers HoloFuel Ac is not Registered");
    assert_eq!(HostError::Zome("x".to_string()).message(), "x");
}

#[test]
fn app_config_modification_must_change_hash() {
    let same = AppConfigValidation::Modify {
        new_entry: AppConfig { happ_hash: "QmA".to_string() },
        old_entry: AppConfig { happ_hash: "QmA".to_string() },
    };
    assert_eq!(validate_app_config(&same), Err("Trying to modify with same data".to_string()));
    let changed = AppConfigValidation::Modify {
        new_entry: AppConfig { happ_hash: "QmB".to_string() },
        old_entry: AppConfig { happ_hash: "QmA".to_string() },
    };
    assert_eq!(validate_app_config(&changed), Ok(()));
}

#[test]
fn app_config_create_and_delete_are_accepted() {
    let c = AppConfigValidation::Create { entry: AppConfig { happ_hash: "QmA".to_string() } };
    let d = AppConfigValidation::Delete { old_entry: AppConfig { happ_hash: "QmA".to_string() } };
    assert_eq!(validate_app_config(&c), Ok(()));
    assert_eq!(validate_app_config(&d), Ok(()));
}

#[test]
fn provider_is_first_source_of_last_header() {
    let lookup = EntryLookup::Single {
        provenance_sources: vec![strings(&["early"]), strings(&["provider", "co-signer"])],
    };
    assert_eq!(provider_address(&lookup).unwrap(), "provider");
}

#[test]
fn provider_of_missing_entry_is_not_registered() {
    match provider_address(&EntryLookup::Other) {
        Err(e) => assert_eq!(e.message(), "Providers HoloFuel Ac is not Registered"),
        Ok(_) => panic!("a provider was found for no entry"),
    }
}

#[test]
fn provider_account_is_first_account() {
    let accounts = vec![
        HoloFuelAc { account_number: "HF1".to_string() },
        HoloFuelAc { account_number: "HF2".to_string() },
    ];
    assert_eq!(provider_account(&accounts), "HF1");
}

#[test]
fn registration_request_reads_verified_host_links_of_agent() {
    match holo_hosting::host::handle_is_registered_as_host(&"agent-1".to_string()) {
        holo_hosting::dht::Request::GetLinks { base, tag } => {
            assert_eq!(base, "agent-1");
            assert_eq!(tag, LinkTag::VerifiedHost);
        }
        other => panic!("unexpected request {:?}", other),
    }
}

#[test]
fn host_for_app_request_loads_host_enabled_links_of_app() {
    match holo_hosting::host::handle_get_host_for_app(&"app-7".to_string()) {
        holo_hosting::dht::Request::LoadLinks { base, tag } => {
            assert_eq!(base, "app-7");
            assert_eq!(tag, LinkTag::HostEnabled);
        }
        other => panic!("unexpected request {:?}", other),
    }
}
