//! Lore: entries that enter a prompt when the talk mentions their keys.
pub mod activation;
pub mod decision;
pub mod decision_laws;
pub mod entry;
pub mod group_laws;
pub mod groups;
pub mod laws;
pub mod matching;
pub mod searching_laws;
