//! Turns of a session.
use vstd::prelude::*;

use crate::identity::EntityId;
use crate::plugin::PluginReceipt;
use crate::prompt::prune::PromptPruning;
use crate::prompt::segment::PromptSegment;
use crate::tokenizer::TokenizerId;

verus! {

/// What came of a plugin's command.
#[derive(Clone, Debug, Eq, PartialEq)]
pub struct PluginCommandResult {
    pub receipt: PluginReceipt,
}

/// Why a turn cannot be had or looked at.
#[derive(Clone, Copy, Debug, Eq, PartialEq, Structural)]
pub enum TurnError {
    TurnNotFound(EntityId),
    AttemptNotFound(EntityId),
    CandidateNotFound(EntityId),
    NoPreviousTurnForAttempt(EntityId),
    TurnHasNoSelection(EntityId),
    PreviousTurnSelectionHasNoGenerationAttempt {
        attempt_id: EntityId,
        previous_turn_id: EntityId,
    },
}

/// The prompt of an attempt: its segments, how they were pruned, and by which
/// vocabulary and from which seed it was made.
#[derive(Clone, Debug, Eq, PartialEq)]
pub struct PromptPlan {
    pub tokenizer: TokenizerId,
    pub rng_seed: u64,
    pub segments: Vec<PromptSegment>,
    pub total_tokens: usize,
    pub pruning: PromptPruning,
}

} // verus!
