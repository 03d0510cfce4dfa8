//! What an evaluation of lore is told, and what it tells.
use vstd::prelude::*;

use crate::identity::ContentHash;
use crate::json::{JsonNumber, JsonNumberView};
use crate::lore::entry::LorePosition;
use crate::text::{option_view, views};

verus! {

pub const DEFAULT_SCAN_DEPTH: usize = 2;

pub const DEFAULT_MAX_RECURSION_STEPS: usize = 32;

/// The settings of an evaluation. `prior_activations` holds, by entry, the
/// number of messages at its last activation.
#[derive(Clone, Debug)]
pub struct LoreSettings {
    pub scan_depth: usize,
    pub recursive: bool,
    pub max_recursion_steps: usize,
    pub budget_tokens: usize,
    pub case_sensitive: bool,
    pub match_whole_words: bool,
    pub use_group_scoring: bool,
    pub generation_type: String,
    pub rng_seed: u64,
    pub message_count: usize,
    pub prior_activations: Vec<(String, usize)>,
}

impl Default for LoreSettings {
    fn default() -> (settings: Self)
        ensures
            settings.scan_depth == DEFAULT_SCAN_DEPTH,
            settings.recursive,
            settings.max_recursion_steps == DEFAULT_MAX_RECURSION_STEPS,
            settings.budget_tokens == 512,
            !settings.case_sensitive,
            !settings.match_whole_words,
            !settings.use_group_scoring,
            settings.generation_type@ == "normal"@,
            settings.rng_seed == 1,
            settings.message_count == 0,
            settings.prior_activations@.len() == 0,
    {
        LoreSettings {
            scan_depth: DEFAULT_SCAN_DEPTH,
            recursive: true,
            max_recursion_steps: DEFAULT_MAX_RECURSION_STEPS,
            budget_tokens: 512,
            case_sensitive: false,
            match_whole_words: false,
            use_group_scoring: false,
            generation_type: "normal".to_owned(),
            rng_seed: 1,
            message_count: 0,
            prior_activations: Vec::new(),
        }
    }
}

/// What became of an entry at a step.
#[derive(Clone, Copy, Debug, Eq, PartialEq, Structural)]
pub enum LoreDecisionOutcome {
    Disabled,
    TriggerFiltered,
    DelaySuppressed,
    CooldownSuppressed,
    RecursionSuppressed,
    NoPrimaryMatch,
    SecondaryRejected,
    GroupRejected,
    ProbabilityRejected,
    BudgetRejected,
    Activated,
}

/// What was decided of an entry at a step, and on what grounds.
#[derive(Clone, Debug)]
pub struct LoreDecision {
    pub entry_key: String,
    pub recursion_step: usize,
    pub primary_matches: Vec<String>,
    pub secondary_matches: Vec<String>,
    pub score: usize,
    pub group: Option<String>,
    pub group_draw: Option<u64>,
    pub probability_draw: Option<JsonNumber>,
    pub tokens: usize,
    pub outcome: LoreDecisionOutcome,
}

/// The abstract value of a [`LoreDecision`].
pub struct DecisionView {
    pub entry_key: Seq<char>,
    pub recursion_step: usize,
    pub primary_matches: Seq<Seq<char>>,
    pub secondary_matches: Seq<Seq<char>>,
    pub score: usize,
    pub group: Option<Seq<char>>,
    pub group_draw: Option<u64>,
    pub probability_draw: Option<JsonNumberView>,
    pub tokens: usize,
    pub outcome: LoreDecisionOutcome,
}

impl View for LoreDecision {
    type V = DecisionView;

    open spec fn view(&self) -> DecisionView {
        DecisionView {
            entry_key: self.entry_key@,
            recursion_step: self.recursion_step,
            primary_matches: views(self.primary_matches@),
            secondary_matches: views(self.secondary_matches@),
            score: self.score,
            group: option_view(self.group),
            group_draw: self.group_draw,
            probability_draw: match self.probability_draw {
                Some(draw) => Some(draw@),
                None => None,
            },
            tokens: self.tokens,
            outcome: self.outcome,
        }
    }
}

/// The abstract values of a list of decisions.
pub open spec fn decision_views(decisions: Seq<LoreDecision>) -> Seq<DecisionView> {
    Seq::new(decisions.len(), |i: int| decisions[i]@)
}

pub proof fn lemma_decisions_push(decisions: Seq<LoreDecision>, decision: LoreDecision)
    ensures
        decision_views(decisions.push(decision)) == decision_views(decisions).push(decision@),
{
    assert(decision_views(decisions.push(decision)) =~= decision_views(decisions).push(decision@));
}

/// An entry that enters the prompt.
#[derive(Clone, Debug)]
pub struct ActivatedLore {
    pub entry_key: String,
    pub source_revision: ContentHash,
    pub content: String,
    pub insertion_order: i64,
    pub position: LorePosition,
    pub depth: usize,
    pub role: i64,
    pub outlet: String,
    pub tokens: usize,
}

/// The abstract value of an [`ActivatedLore`].
pub struct ActivatedView {
    pub entry_key: Seq<char>,
    pub source_revision: Seq<u8>,
    pub content: Seq<char>,
    pub insertion_order: i64,
    pub position: LorePosition,
    pub depth: usize,
    pub role: i64,
    pub outlet: Seq<char>,
    pub tokens: usize,
}

impl View for ActivatedLore {
    type V = ActivatedView;

    open spec fn view(&self) -> ActivatedView {
        ActivatedView {
            entry_key: self.entry_key@,
            source_revision: self.source_revision@,
            content: self.content@,
            insertion_order: self.insertion_order,
            position: self.position,
            depth: self.depth,
            role: self.role,
            outlet: self.outlet@,
            tokens: self.tokens,
        }
    }
}

/// The abstract values of a list of activated entries.
pub open spec fn activated_views(activated: Seq<ActivatedLore>) -> Seq<ActivatedView> {
    Seq::new(activated.len(), |i: int| activated[i]@)
}

pub proof fn lemma_activated_push(activated: Seq<ActivatedLore>, entry: ActivatedLore)
    ensures
        activated_views(activated.push(entry)) == activated_views(activated).push(entry@),
{
    assert(activated_views(activated.push(entry)) =~= activated_views(activated).push(entry@));
}

/// The outcome of an evaluation.
#[derive(Clone, Debug)]
pub struct LoreResult {
    pub activated: Vec<ActivatedLore>,
    pub decisions: Vec<LoreDecision>,
    pub used_tokens: usize,
    pub budget_tokens: usize,
    pub overflowed: bool,
}

impl Default for LoreResult {
    fn default() -> (result: Self)
        ensures
            result.activated@.len() == 0,
            result.decisions@.len() == 0,
            result.used_tokens == 0,
            result.budget_tokens == 0,
            !result.overflowed,
    {
        LoreResult {
            activated: Vec::new(),
            decisions: Vec::new(),
            used_tokens: 0,
            budget_tokens: 0,
            overflowed: false,
        }
    }
}

/// The number that chance gives after another.
pub open spec fn next_random(state: u64) -> u64 {
    let a = state ^ (state << 13);
    let b = a ^ (a >> 7);
    b ^ (b << 17)
}

/// The state of chance.
pub(crate) fn advance(state: u64) -> (next: u64)
    ensures
        next == next_random(state),
{
    let a: u64 = state ^ (state << 13);
    let b: u64 = a ^ (a >> 7);
    b ^ (b << 17)
}

} // verus!
