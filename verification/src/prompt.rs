//! Prompts: the segments they are made of, how a preset arranges them, and how
//! they are pruned to fit.
pub mod arrange;
pub mod arranging_laws;
pub mod chat;
pub mod chat_laws;
pub mod preset;
pub mod prune;
pub mod pruning_laws;
pub mod segment;
