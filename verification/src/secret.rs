//! A secret's decoded contents: its plaintext bytes and the metadata stored
//! beside them.
use vstd::prelude::*;

use crate::strmap::StrMap;

verus! {

/// A point in time, as seconds and nanoseconds since the Unix epoch.
#[derive(Debug, Clone, Copy, PartialEq, Eq)]
pub struct Timestamp {
    pub seconds: i64,
    pub nanos: i32,
}

/// A decrypted secret.
#[derive(Debug, Clone)]
pub struct Decoded {
    /// The plaintext.
    pub data: Vec<u8>,
    /// Env-var name pinned on the secret; empty when none is.
    pub env_key: String,
    /// Tags carried by the secret.
    pub tags: Vec<String>,
    pub description: String,
    pub url: String,
    pub totp: String,
    pub expires_at: Option<Timestamp>,
    pub annotations: StrMap<String>,
}

impl Decoded {
    /// A secret holding `data` and nothing else.
    pub fn plain(data: Vec<u8>) -> (r: Decoded)
        ensures
            r.data@ == data@,
            r.env_key@.len() == 0,
            r.tags@.len() == 0,
            r.description@.len() == 0,
            r.url@.len() == 0,
            r.totp@.len() == 0,
            r.expires_at is None,
            r.annotations.entries_view().len() == 0,
    {
        Decoded {
            data,
            env_key: String::new(),
            tags: Vec::new(),
            description: String::new(),
            url: String::new(),
            totp: String::new(),
            expires_at: None,
            annotations: StrMap::new(),
        }
    }
}

} // verus!
