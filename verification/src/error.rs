//! The error type shared by every fallible operation of the library.
use vstd::prelude::*;

use crate::env_resolver::{join_strings, joined};
use crate::text::{push_str, views};

verus! {

/// Everything that can go wrong, each kind carrying a human-readable detail.
#[derive(Debug, Clone, PartialEq, Eq)]
pub enum HimitsuError {
    InvalidSelector(String),
    InvalidConfig(String),
    InvalidReference(String),
    SecretNotFound(String),
    DecryptionFailed(String),
    NotSupported(String),
    ProjectConfigRequired(String),
    RemoteNotFound(String),
    GenerateError(String),
    Recipient(String),
    External(String),
    Git(String),
    StoreNotFound(String),
    Remote(String),
    /// A cache index could not be read or written.
    Index(String),
    /// Several stores could be meant; their slugs.
    AmbiguousStore(Vec<String>),
}

impl HimitsuError {
    /// The detail text carried by the error.
    pub open spec fn detail(self) -> Seq<char> {
        match self {
            HimitsuError::InvalidSelector(m) => m@,
            HimitsuError::InvalidConfig(m) => m@,
            HimitsuError::InvalidReference(m) => m@,
            HimitsuError::SecretNotFound(m) => m@,
            HimitsuError::DecryptionFailed(m) => m@,
            HimitsuError::NotSupported(m) => m@,
            HimitsuError::ProjectConfigRequired(m) => m@,
            HimitsuError::RemoteNotFound(m) => m@,
            HimitsuError::GenerateError(m) => m@,
            HimitsuError::Recipient(m) => m@,
            HimitsuError::External(m) => m@,
            HimitsuError::Git(m) => m@,
            HimitsuError::StoreNotFound(m) => m@,
            HimitsuError::Remote(m) => m@,
            HimitsuError::Index(m) => m@,
            HimitsuError::AmbiguousStore(v) => joined(views(v@), ", "@),
        }
    }

    /// The heading that introduces the detail when the error is rendered.
    pub open spec fn heading_text(self) -> Seq<char> {
        match self {
            HimitsuError::InvalidSelector(_) => "invalid selector: "@,
            HimitsuError::InvalidConfig(_) => "invalid config: "@,
            HimitsuError::InvalidReference(_) => "invalid reference: "@,
            HimitsuError::SecretNotFound(_) => "secret not found: "@,
            HimitsuError::DecryptionFailed(_) => "decryption failed: "@,
            HimitsuError::NotSupported(_) => "not supported: "@,
            HimitsuError::ProjectConfigRequired(_) => "project config required: "@,
            HimitsuError::RemoteNotFound(_) => "remote not found: "@,
            HimitsuError::GenerateError(_) => "generate error: "@,
            HimitsuError::Recipient(_) => "recipient error: "@,
            HimitsuError::External(_) => "external command failed: "@,
            HimitsuError::Git(_) => "git error: "@,
            HimitsuError::StoreNotFound(_) => "store not found: "@,
            HimitsuError::Remote(_) => "remote error: "@,
            HimitsuError::Index(_) => "index error: "@,
            HimitsuError::AmbiguousStore(_) => "multiple stores found, pick one with --remote: "@,
        }
    }

    /// The heading as a string slice.
    pub fn heading(&self) -> (r: &'static str)
        ensures
            r@ == self.heading_text(),
    {
        match self {
            HimitsuError::InvalidSelector(_) => "invalid selector: ",
            HimitsuError::InvalidConfig(_) => "invalid config: ",
            HimitsuError::InvalidReference(_) => "invalid reference: ",
            HimitsuError::SecretNotFound(_) => "secret not found: ",
            HimitsuError::DecryptionFailed(_) => "decryption failed: ",
            HimitsuError::NotSupported(_) => "not supported: ",
            HimitsuError::ProjectConfigRequired(_) => "project config required: ",
            HimitsuError::RemoteNotFound(_) => "remote not found: ",
            HimitsuError::GenerateError(_) => "generate error: ",
            HimitsuError::Recipient(_) => "recipient error: ",
            HimitsuError::External(_) => "external command failed: ",
            HimitsuError::Git(_) => "git error: ",
            HimitsuError::StoreNotFound(_) => "store not found: ",
            HimitsuError::Remote(_) => "remote error: ",
            HimitsuError::Index(_) => "index error: ",
            HimitsuError::AmbiguousStore(_) => "multiple stores found, pick one with --remote: ",
        }
    }

    /// Renders the error as heading followed by its detail.
    pub fn to_string(&self) -> (r: String)
        ensures
            r@ == self.heading_text() + self.detail(),
    {
        let mut r = String::new();
        push_str(&mut r, self.heading());
        if let HimitsuError::AmbiguousStore(v) = self {
            let d = join_strings(v.as_slice(), ", ");
            push_str(&mut r, d.as_str());
            return r;
        }
        let d = match self {
            HimitsuError::InvalidSelector(m) => m,
            HimitsuError::InvalidConfig(m) => m,
            HimitsuError::InvalidReference(m) => m,
            HimitsuError::SecretNotFound(m) => m,
            HimitsuError::DecryptionFailed(m) => m,
            HimitsuError::NotSupported(m) => m,
            HimitsuError::ProjectConfigRequired(m) => m,
            HimitsuError::RemoteNotFound(m) => m,
            HimitsuError::GenerateError(m) => m,
            HimitsuError::Recipient(m) => m,
            HimitsuError::External(m) => m,
            HimitsuError::Git(m) => m,
            HimitsuError::StoreNotFound(m) => m,
            HimitsuError::Remote(m) => m,
            HimitsuError::Index(m) => m,
            HimitsuError::AmbiguousStore(_) => {
                return r;
            },
        };
        push_str(&mut r, d.as_str());
        r
    }
}

} // verus!
