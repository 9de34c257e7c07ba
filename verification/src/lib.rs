//! Core logic of the himitsu secrets manager: selector and glob grammars,
//! env-label validation, env/output resolution and the small validators the
//! command line applies before touching a store.
pub mod text;
pub mod error;
pub mod tags;
pub mod glob;
pub mod selector;
pub mod labels;
pub mod strmap;
pub mod yaml;
pub mod json;
pub mod env_dsl;
pub mod outputs;
pub mod env_resolver;
pub mod args;
pub mod ci;
pub mod config;
pub mod project;
pub mod paths;
pub mod cli;
pub mod decrypt;
pub mod share;
pub mod keys;
pub mod init;
pub mod secret;
pub mod set;
pub mod exec;
pub mod tag;
pub mod export;
pub mod import;
pub mod git;
pub mod codegen;
pub mod ls;
pub mod recipient;
pub mod duration;
pub mod generate;
pub mod output_resolver;
pub mod get;
pub mod schema;
pub mod search;
pub mod completions;
pub mod env_cache;
pub mod envs_mut;
pub mod join;
pub mod check;
pub mod doctor;
pub mod remote;
pub mod migrate;
pub mod sync;
pub mod store_ops;
pub mod rekey;
