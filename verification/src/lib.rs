//! Deterministic core of a roleplay engine.

pub mod artifact;
pub mod artifact_codec;
pub mod assoc;
pub mod capsule;
pub mod capsule_json;
pub mod capsule_laws;
pub mod capsule_transfer;
pub mod config;
pub mod credential;
pub mod document;
pub mod ecma_regex;
pub mod egress;
pub mod engine;
pub mod fixture;
pub mod identity;
pub mod inference;
pub mod interaction;
pub mod json;
pub mod lists;
pub mod lore;
pub mod macros;
pub mod paths;
pub mod persona;
pub mod plugin;
pub mod plugin_laws;
pub mod profile;
pub mod prompt;
pub mod prompt_diff;
pub mod prompt_inspect;
pub mod protocol;
pub mod provider;
pub mod session;
pub mod state;
pub mod text;
pub mod tokenizer;
pub mod turn;
