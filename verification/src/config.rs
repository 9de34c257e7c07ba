//! The global and per-project configuration, as plain values. Reading the
//! YAML files is the caller's business; these types are what it reads into.
use vstd::prelude::*;

use crate::env_dsl::{trim, trim_chars};
use crate::error::HimitsuError;
use crate::text::{chars_of, lower_chars, lower_seq, slice_eq};
use crate::labels::KeyProvider;
use crate::outputs::OutputsMap;

verus! {

/// Global user configuration.
#[derive(Debug)]
pub struct Config {
    /// Default remote store slug (`org/repo`).
    pub default_store: Option<String>,
    /// Active store context, preferred over `default_store`.
    pub context: Option<String>,
    /// Where age private keys live.
    pub key_provider: KeyProvider,
    /// Override of the data directory.
    pub data_dir: Option<String>,
    /// Pull stores before every store-touching command.
    pub auto_pull: bool,
    /// Dashboard settings.
    pub tui: TuiConfig,
    /// Global output definitions.
    pub outputs: OutputsMap,
}

impl Config {
    /// Every combination of settings is acceptable.
    pub fn validate(&self) -> (r: Result<(), HimitsuError>)
        ensures
            r is Ok,
    {
        Ok(())
    }
}

/// `tui:` section of the global configuration.
#[derive(Debug, Clone, PartialEq, Eq)]
pub struct TuiConfig {
    /// Built-in color theme name; `random` picks one per launch.
    pub theme: String,
    /// Use Nerd Font glyphs.
    pub nerd_fonts: bool,
}

impl TuiConfig {
    /// The default dashboard settings: a random theme, no Nerd Font glyphs.
    pub fn default_settings() -> (r: TuiConfig)
        ensures
            r.theme@ == "random"@,
            !r.nerd_fonts,
    {
        TuiConfig { theme: String::from_str("random"), nerd_fonts: false }
    }
}

/// Per-project configuration.
#[derive(Debug)]
pub struct ProjectConfig {
    /// Default remote store slug for the project.
    pub default_store: Option<String>,
    /// Output definitions.
    pub outputs: OutputsMap,
    /// Settings of `generate`.
    pub generate: Option<GenerateConfig>,
    /// Recipients directory inside the store.
    pub recipients_path: Option<String>,
}

impl ProjectConfig {
    /// Every combination of settings is acceptable.
    pub fn validate(&self) -> (r: Result<(), HimitsuError>)
        ensures
            r is Ok,
    {
        Ok(())
    }
}

/// Settings of the `generate` command.
#[derive(Debug, Clone, PartialEq, Eq)]
pub struct GenerateConfig {
    /// Output directory relative to the project root.
    pub target: String,
    /// Output format; `sops` when not given.
    pub format: String,
    /// Age recipients of the generated files.
    pub age_recipients: Vec<String>,
}

/// Legacy global configuration file.
#[derive(Debug, Clone, PartialEq, Eq)]
pub struct GlobalConfig {
    pub default_remote: Option<String>,
    pub nostr: Option<NostrConfig>,
    pub sharing: Option<SharingConfig>,
}

#[derive(Debug, Clone, PartialEq, Eq)]
pub struct NostrConfig {
    pub relays: Vec<String>,
    pub event_kind: Option<u32>,
}

#[derive(Debug, Clone, PartialEq, Eq)]
pub struct SharingConfig {
    pub default_transport: Option<String>,
}

/// Store-level remote configuration: path policies and identity sources.
#[derive(Debug, Clone, PartialEq, Eq)]
pub struct RemoteConfig {
    pub policies: Vec<Policy>,
    pub identity_sources: Vec<IdentitySource>,
}

#[derive(Debug, Clone, PartialEq, Eq)]
pub struct Policy {
    pub path_prefix: String,
    pub includes: Vec<String>,
    pub exclude: Vec<String>,
}

#[derive(Debug, Clone, PartialEq, Eq)]
pub struct IdentitySource {
    pub id: String,
    pub kind: String,
    pub repo: Option<String>,
    pub git_ref: Option<String>,
    pub domain: Option<String>,
    pub path: Option<String>,
    pub key_public: Option<String>,
    pub key_inbox: Option<String>,
}

/// Whether stores are pulled before store-touching commands: the
/// `HIMITSU_AUTO_PULL` value when it is set (`1`, `true` or `yes`, trimmed,
/// ASCII case ignored), else the global config's `auto_pull` (false when
/// the config cannot be read).
pub fn auto_pull_from(env_value: Option<&str>, config_auto_pull: bool) -> (r: bool)
    ensures
        r == match env_value {
            Some(v) => {
                let t = lower_seq(trim(v@));
                t == "1"@ || t == "true"@ || t == "yes"@
            },
            None => config_auto_pull,
        },
{
    match env_value {
        Some(v) => {
            let t = lower_chars(&trim_chars(&chars_of(v)));
            slice_eq(&t, &chars_of("1")) || slice_eq(&t, &chars_of("true")) || slice_eq(&t, &chars_of("yes"))
        },
        None => config_auto_pull,
    }
}

} // verus!
