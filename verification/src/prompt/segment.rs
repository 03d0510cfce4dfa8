//! The segments that a prompt is made of.
use vstd::prelude::*;

use crate::identity::ContentHash;
use crate::macros::render::{evaluations_view, EvaluationView, MacroEvaluation};
use crate::provider::ChatRole;
use crate::state::{cell_view, CellView, StateCell, StateKey, VariableScope};
use crate::text::{copy_option, copy_texts, option_view};

verus! {

/// A use of a script of regular expressions on some content.
#[derive(Clone, Debug, Eq, PartialEq)]
pub struct RegexScriptApplication {
    pub id: String,
    pub name: String,
    pub placement: u8,
    pub replacements: usize,
}

/// A change of a variable.
#[derive(Clone, Debug, Eq, PartialEq)]
pub struct StateMutation {
    pub key: StateKey,
    pub before: Option<StateCell>,
    pub after: Option<StateCell>,
}

/// A piece of a prompt. `source` tells where it comes from, `slot` the place
/// that a preset may give it. One with an `in_chat_depth` is put among the
/// messages, counted from the last one.
#[derive(Clone, Debug, Eq, PartialEq)]
pub struct PromptSegment {
    pub source: String,
    pub slot: String,
    pub role: ChatRole,
    pub content: String,
    pub raw_content: String,
    pub token_count: usize,
    pub source_revision: Option<ContentHash>,
    pub source_field: Option<String>,
    pub in_chat_depth: Option<usize>,
    pub in_chat_order: usize,
    pub truncation_priority: u32,
    pub pruned: bool,
    pub macro_evaluations: Vec<MacroEvaluation>,
    pub regex_applications: Vec<RegexScriptApplication>,
    pub state_mutations: Vec<StateMutation>,
}

/// Content in which macros have been evaluated.
#[derive(Clone, Debug, Eq, PartialEq)]
pub struct RenderedPromptContent {
    pub content: String,
    pub macro_evaluations: Vec<MacroEvaluation>,
    pub state_mutations: Vec<StateMutation>,
}

/// Why a prompt cannot be made.
#[derive(Clone, Debug, Eq, PartialEq)]
pub enum PromptError {
    MissingPrompts,
    InvalidPrompt,
    MissingIdentifier,
    Render(String),
    ContextTemplate(String),
    ContextOverflow { required: usize, available: usize },
    /// The content of a prompt has to be rendered first.
    Unrendered { identifier: String, content: String },
}

/// The abstract value of a [`RegexScriptApplication`].
pub struct ApplicationView {
    pub id: Seq<char>,
    pub name: Seq<char>,
    pub placement: u8,
    pub replacements: usize,
}

/// The abstract value of a [`StateMutation`].
pub struct MutationView {
    pub scope: VariableScope,
    pub name: Seq<char>,
    pub before: Option<CellView>,
    pub after: Option<CellView>,
}

/// The abstract value of a [`PromptSegment`].
pub struct SegmentView {
    pub source: Seq<char>,
    pub slot: Seq<char>,
    pub role: ChatRole,
    pub content: Seq<char>,
    pub raw_content: Seq<char>,
    pub token_count: usize,
    pub source_revision: Option<Seq<u8>>,
    pub source_field: Option<Seq<char>>,
    pub in_chat_depth: Option<usize>,
    pub in_chat_order: usize,
    pub truncation_priority: u32,
    pub pruned: bool,
    pub macro_evaluations: Seq<EvaluationView>,
    pub regex_applications: Seq<ApplicationView>,
    pub state_mutations: Seq<MutationView>,
}

/// The abstract values of some uses of scripts.
pub open spec fn application_views(applications: Seq<RegexScriptApplication>) -> Seq<
    ApplicationView,
> {
    Seq::new(
        applications.len(),
        |i: int|
            ApplicationView {
                id: applications[i].id@,
                name: applications[i].name@,
                placement: applications[i].placement,
                replacements: applications[i].replacements,
            },
    )
}

/// The abstract value of a cell that may be absent.
pub open spec fn optional_cell(cell: Option<StateCell>) -> Option<CellView> {
    match cell {
        Some(c) => Some(cell_view(c)),
        None => None,
    }
}

/// The abstract values of some changes of variables.
pub open spec fn mutation_views(mutations: Seq<StateMutation>) -> Seq<MutationView> {
    Seq::new(
        mutations.len(),
        |i: int|
            MutationView {
                scope: mutations[i].key.scope,
                name: mutations[i].key.name@,
                before: optional_cell(mutations[i].before),
                after: optional_cell(mutations[i].after),
            },
    )
}

/// The bytes of a hash that may be absent.
pub open spec fn optional_hash(hash: Option<ContentHash>) -> Option<Seq<u8>> {
    match hash {
        Some(h) => Some(h@),
        None => None,
    }
}

impl View for PromptSegment {
    type V = SegmentView;

    open spec fn view(&self) -> SegmentView {
        SegmentView {
            source: self.source@,
            slot: self.slot@,
            role: self.role,
            content: self.content@,
            raw_content: self.raw_content@,
            token_count: self.token_count,
            source_revision: optional_hash(self.source_revision),
            source_field: option_view(self.source_field),
            in_chat_depth: self.in_chat_depth,
            in_chat_order: self.in_chat_order,
            truncation_priority: self.truncation_priority,
            pruned: self.pruned,
            macro_evaluations: evaluations_view(self.macro_evaluations@),
            regex_applications: application_views(self.regex_applications@),
            state_mutations: mutation_views(self.state_mutations@),
        }
    }
}

/// The abstract values of a list of segments.
pub open spec fn segment_views(segments: Seq<PromptSegment>) -> Seq<SegmentView> {
    Seq::new(segments.len(), |i: int| segments[i]@)
}

pub proof fn lemma_segments_push(segments: Seq<PromptSegment>, segment: PromptSegment)
    ensures
        segment_views(segments.push(segment)) == segment_views(segments).push(segment@),
{
    assert(segment_views(segments.push(segment)) =~= segment_views(segments).push(segment@));
}

pub proof fn lemma_segments_remove_first(segments: Seq<PromptSegment>)
    requires
        segments.len() > 0,
    ensures
        segment_views(segments.remove(0)) == segment_views(segments).skip(1),
{
    assert(segment_views(segments.remove(0)) =~= segment_views(segments).skip(1));
}

/// A segment of which no more is said than what it holds and where it belongs.
pub open spec fn plain_segment(
    token_count: usize,
    source: Seq<char>,
    slot: Seq<char>,
    role: ChatRole,
    content: Seq<char>,
) -> SegmentView {
    SegmentView {
        source,
        slot,
        role,
        content,
        raw_content: content,
        token_count,
        source_revision: None,
        source_field: None,
        in_chat_depth: None,
        in_chat_order: 0,
        truncation_priority: 500,
        pruned: false,
        macro_evaluations: Seq::empty(),
        regex_applications: Seq::empty(),
        state_mutations: Seq::empty(),
    }
}

fn copy_cell(cell: &Option<StateCell>) -> (copy: Option<StateCell>)
    ensures
        optional_cell(copy) == optional_cell(*cell),
{
    match cell {
        Some(c) => Some(
            StateCell {
                raw_value: c.raw_value.clone(),
                owner: c.owner.clone(),
                origin: c.origin.clone(),
            },
        ),
        None => None,
    }
}

/// A copy of some evaluations of macros.
pub fn copy_evaluations(evaluations: &Vec<MacroEvaluation>) -> (copies: Vec<MacroEvaluation>)
    ensures
        evaluations_view(copies@) == evaluations_view(evaluations@),
{
    let mut copies: Vec<MacroEvaluation> = Vec::new();
    let mut i: usize = 0;
    while i < evaluations.len()
        invariant
            i <= evaluations@.len(),
            copies@.len() == i,
            forall|j: int|
                0 <= j < i ==> {
                    &&& (#[trigger] copies@[j]).name == evaluations@[j].name
                    &&& copies@[j].arguments@ == evaluations@[j].arguments@
                    &&& copies@[j].output == evaluations@[j].output
                },
        decreases evaluations@.len() - i,
    {
        let evaluation = &evaluations[i];
        copies.push(
            MacroEvaluation {
                name: evaluation.name.clone(),
                arguments: copy_texts(&evaluation.arguments),
                output: evaluation.output.clone(),
            },
        );
        i = i + 1;
    }
    proof {
        assert(evaluations_view(copies@) =~= evaluations_view(evaluations@));
    }
    copies
}

/// A copy of some uses of scripts.
pub fn copy_applications(applications: &Vec<RegexScriptApplication>) -> (copies: Vec<
    RegexScriptApplication,
>)
    ensures
        application_views(copies@) == application_views(applications@),
{
    let mut copies: Vec<RegexScriptApplication> = Vec::new();
    let mut i: usize = 0;
    while i < applications.len()
        invariant
            i <= applications@.len(),
            copies@.len() == i,
            forall|j: int| 0 <= j < i ==> #[trigger] copies@[j] == applications@[j],
        decreases applications@.len() - i,
    {
        let application = &applications[i];
        copies.push(
            RegexScriptApplication {
                id: application.id.clone(),
                name: application.name.clone(),
                placement: application.placement,
                replacements: application.replacements,
            },
        );
        i = i + 1;
    }
    proof {
        assert(application_views(copies@) =~= application_views(applications@));
    }
    copies
}

/// A copy of some changes of variables.
pub fn copy_mutations(mutations: &Vec<StateMutation>) -> (copies: Vec<StateMutation>)
    ensures
        mutation_views(copies@) == mutation_views(mutations@),
{
    let mut copies: Vec<StateMutation> = Vec::new();
    let mut i: usize = 0;
    while i < mutations.len()
        invariant
            i <= mutations@.len(),
            copies@.len() == i,
            forall|j: int|
                0 <= j < i ==> {
                    &&& (#[trigger] copies@[j]).key.scope == mutations@[j].key.scope
                    &&& copies@[j].key.name == mutations@[j].key.name
                    &&& optional_cell(copies@[j].before) == optional_cell(mutations@[j].before)
                    &&& optional_cell(copies@[j].after) == optional_cell(mutations@[j].after)
                },
        decreases mutations@.len() - i,
    {
        let mutation = &mutations[i];
        copies.push(
            StateMutation {
                key: StateKey { scope: mutation.key.scope, name: mutation.key.name.clone() },
                before: copy_cell(&mutation.before),
                after: copy_cell(&mutation.after),
            },
        );
        i = i + 1;
    }
    proof {
        assert(mutation_views(copies@) =~= mutation_views(mutations@));
    }
    copies
}

impl PromptSegment {
    /// A segment with some content, of a number of tokens.
    pub fn new(
        token_count: usize,
        source: String,
        slot: String,
        role: ChatRole,
        content: String,
    ) -> (segment: Self)
        ensures
            segment@ == plain_segment(token_count, source@, slot@, role, content@),
    {
        let segment = PromptSegment {
            source,
            slot,
            role,
            raw_content: content.clone(),
            content,
            token_count,
            source_revision: None,
            source_field: None,
            in_chat_depth: None,
            in_chat_order: 0,
            truncation_priority: 500,
            pruned: false,
            macro_evaluations: Vec::new(),
            regex_applications: Vec::new(),
            state_mutations: Vec::new(),
        };
        proof {
            assert(segment@.macro_evaluations =~= Seq::<EvaluationView>::empty());
            assert(segment@.regex_applications =~= Seq::<ApplicationView>::empty());
            assert(segment@.state_mutations =~= Seq::<MutationView>::empty());
        }
        segment
    }

    /// A copy of the segment.
    pub fn copy(&self) -> (copy: Self)
        ensures
            copy@ == self@,
    {
        PromptSegment {
            source: self.source.clone(),
            slot: self.slot.clone(),
            role: self.role,
            content: self.content.clone(),
            raw_content: self.raw_content.clone(),
            token_count: self.token_count,
            source_revision: self.source_revision,
            source_field: copy_option(&self.source_field),
            in_chat_depth: self.in_chat_depth,
            in_chat_order: self.in_chat_order,
            truncation_priority: self.truncation_priority,
            pruned: self.pruned,
            macro_evaluations: copy_evaluations(&self.macro_evaluations),
            regex_applications: copy_applications(&self.regex_applications),
            state_mutations: copy_mutations(&self.state_mutations),
        }
    }
}

impl RenderedPromptContent {
    /// Content without macros.
    pub fn plain(content: String) -> (rendered: Self)
        ensures
            rendered.content == content,
            rendered.macro_evaluations@.len() == 0,
            rendered.state_mutations@.len() == 0,
    {
        RenderedPromptContent {
            content,
            macro_evaluations: Vec::new(),
            state_mutations: Vec::new(),
        }
    }
}

} // verus!
