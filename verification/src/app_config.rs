use vstd::prelude::*;
use boolinator::Boolinator;

verus! {

/// The configuration entry of an app: the hash of its bundle.
#[derive(Debug)]
pub struct AppConfig {
    pub happ_hash: String,
}

/// An app configuration loaded at the target of a link, with the target's address.
#[derive(Debug)]
pub struct LoadedAppConfig {
    pub address: String,
    pub entry: AppConfig,
}

pub struct LoadedAppConfigView {
    pub address: Seq<char>,
    pub happ_hash: Seq<char>,
}

impl View for LoadedAppConfig {
    type V = LoadedAppConfigView;

    open spec fn view(&self) -> LoadedAppConfigView {
        LoadedAppConfigView { address: self.address@, happ_hash: self.entry.happ_hash@ }
    }
}

impl DeepView for LoadedAppConfig {
    type V = LoadedAppConfigView;

    open spec fn deep_view(&self) -> LoadedAppConfigView {
        self@
    }
}

/// What the DHT asks the `app_config` entry type to validate.
#[derive(Debug)]
pub enum AppConfigValidation {
    Create { entry: AppConfig },
    Modify { new_entry: AppConfig, old_entry: AppConfig },
    Delete { old_entry: AppConfig },
}

/// `Ok(())` where `b` holds, else `Err(err)`.
/// Calls `Boolinator::ok_or` of the boolinator crate on `b`, which (per its source)
/// returns `Ok(())` for `true` and `Err(err)` for `false`.
#[verifier::external_body]
fn bool_ok_or(b: bool, err: String) -> (r: Result<(), String>)
    ensures
        r == (if b { Ok::<(), String>(()) } else { Err::<(), String>(err) }),
{
    Boolinator::ok_or(b, err)
}

/// The message with which a modification that keeps the app's hash is refused.
pub open spec fn same_data_message() -> Seq<char> {
    "Trying to modify with same data"@
}

/// Validates an `app_config` entry: a creation or deletion is accepted; a
/// modification is accepted only if it changes the app's hash.
pub fn validate_app_config(data: &AppConfigValidation) -> (r: Result<(), String>)
    ensures
        match data {
            AppConfigValidation::Modify { new_entry, old_entry } => if new_entry.happ_hash@ != old_entry.happ_hash@ {
                r is Ok
            } else {
                r matches Err(m) && m@ == same_data_message()
            },
            _ => r is Ok,
        },
{
    match data {
        AppConfigValidation::Create { .. } => Ok(()),
        AppConfigValidation::Modify { new_entry, old_entry } => {
            let differs = !(new_entry.happ_hash == old_entry.happ_hash);
            bool_ok_or(differs, String::from_str("Trying to modify with same data"))
        },
        AppConfigValidation::Delete { .. } => Ok(()),
    }
}

} // verus!
