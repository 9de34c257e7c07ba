//! The legacy per-repository configuration: the store remote, code
//! generation settings and auto-sync.
use vstd::prelude::*;

verus! {

/// Per-repository settings.
#[derive(Debug, Clone, PartialEq, Eq)]
pub struct ProjectConfig {
    /// Remote store slug.
    pub remote: String,
    /// Code generation settings.
    pub codegen: Option<CodegenConfig>,
    /// Sync the store automatically.
    pub autosync: bool,
    /// When to sync automatically.
    pub autosync_on: Option<String>,
}

/// Where and in which language code is generated.
#[derive(Debug, Clone, PartialEq, Eq)]
pub struct CodegenConfig {
    pub lang: String,
    pub path: String,
}

} // verus!
