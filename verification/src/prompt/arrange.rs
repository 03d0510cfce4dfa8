//! How a preset arranges the segments of a prompt.
use vstd::prelude::*;

use crate::assoc;
use crate::macros::render::evaluations_view;
use crate::prompt::chat::{insert_in_chat_segments, with_chat_segments};
use crate::prompt::preset::{order_views, OrderView, PresetOrder, PresetPrompt, PromptPreset};
use crate::prompt::segment::{
    copy_evaluations, copy_mutations, lemma_segments_push, lemma_segments_remove_first,
    mutation_views, plain_segment, PromptError, PromptSegment, RenderedPromptContent,
    segment_views, SegmentView,
};
use crate::text::{self, blank, contains_text, lemma_views_push, views};

verus! {

/// A prompt of a preset as rendered, with its number of tokens.
#[derive(Clone, Debug, Eq, PartialEq)]
pub struct PresetRendering {
    pub rendered: RenderedPromptContent,
    pub token_count: usize,
}

/// A slot that a preset's own prompt never takes the place of.
pub open spec fn passes_through(identifier: Seq<char>) -> bool {
    ||| identifier == "worldInfoBefore"@
    ||| identifier == "worldInfoAfter"@
    ||| identifier == "dialogueExamples"@
    ||| identifier == "chatHistory"@
    ||| identifier == "userInput"@
}

/// A slot that every prompt knows.
pub open spec fn native(identifier: Seq<char>) -> bool {
    ||| identifier == "main"@
    ||| identifier == "charDescription"@
    ||| identifier == "charPersonality"@
    ||| identifier == "scenario"@
    ||| identifier == "personaDescription"@
    ||| identifier == "dialogueExamples"@
    ||| identifier == "nsfw"@
    ||| identifier == "jailbreak"@
    ||| identifier == "worldInfoBefore"@
    ||| identifier == "worldInfoAfter"@
    ||| identifier == "chatHistory"@
    ||| identifier == "userInput"@
    ||| identifier == "enhanceDefinitions"@
}

fn is_native_passthrough(identifier: &str) -> (r: bool)
    ensures
        r == passes_through(identifier@),
{
    text::same(identifier, "worldInfoBefore") || text::same(identifier, "worldInfoAfter")
        || text::same(identifier, "dialogueExamples") || text::same(identifier, "chatHistory")
        || text::same(identifier, "userInput")
}

fn is_native_slot(identifier: &str) -> (r: bool)
    ensures
        r == native(identifier@),
{
    text::same(identifier, "main") || text::same(identifier, "charDescription") || text::same(
        identifier,
        "charPersonality",
    ) || text::same(identifier, "scenario") || text::same(identifier, "personaDescription")
        || text::same(identifier, "dialogueExamples") || text::same(identifier, "nsfw")
        || text::same(identifier, "jailbreak") || text::same(identifier, "worldInfoBefore")
        || text::same(identifier, "worldInfoAfter") || text::same(identifier, "chatHistory")
        || text::same(identifier, "userInput") || text::same(identifier, "enhanceDefinitions")
}

/// A slot with its segments.
pub struct Slot {
    pub name: Seq<char>,
    pub segments: Seq<SegmentView>,
}

/// The abstract values of slots.
pub open spec fn slot_views(slots: Seq<(String, Vec<PromptSegment>)>) -> Seq<Slot> {
    Seq::new(
        slots.len(),
        |i: int| Slot { name: slots[i].0@, segments: segment_views(slots[i].1@) },
    )
}

/// Where a slot stands, or `slots.len()` when there is none of that name.
pub open spec fn slot_index(slots: Seq<Slot>, name: Seq<char>, from: int) -> int
    decreases slots.len() - from,
{
    if from < 0 || from >= slots.len() {
        slots.len() as int
    } else if slots[from].name == name {
        from
    } else {
        slot_index(slots, name, from + 1)
    }
}

/// Slots with segments added to one of them, which is made where there is none.
pub open spec fn with_segments(
    slots: Seq<Slot>,
    name: Seq<char>,
    segments: Seq<SegmentView>,
) -> Seq<Slot> {
    let at = slot_index(slots, name, 0);
    if 0 <= at < slots.len() {
        slots.update(at, Slot { name, segments: slots[at].segments + segments })
    } else {
        slots.push(Slot { name, segments })
    }
}

/// Segments by slot, in the order in which the slots first appear.
pub open spec fn grouped(segments: Seq<SegmentView>) -> Seq<Slot>
    decreases segments.len(),
{
    if segments.len() == 0 {
        Seq::empty()
    } else {
        with_segments(grouped(segments.drop_last()), segments.last().slot, seq![segments.last()])
    }
}

/// An order has an enabled place of that name.
pub open spec fn enables(order: Seq<OrderView>, name: Seq<char>) -> bool {
    exists|i: int|
        0 <= i < order.len() && (#[trigger] order[i]).identifier == name && order[i].enabled
}

/// The slots, with the user's input at the end of the chat history where the
/// order has a place for that alone.
pub open spec fn merged(slots: Seq<Slot>, order: Seq<OrderView>) -> Seq<Slot> {
    let at = slot_index(slots, "userInput"@, 0);
    if enables(order, "chatHistory"@) && !enables(order, "userInput"@) && 0 <= at < slots.len() {
        with_segments(slots.remove(at), "chatHistory"@, slots[at].segments)
    } else {
        slots
    }
}

/// The segment of a prompt that a preset brings.
pub open spec fn preset_segment(prompt: PresetPrompt, rendering: PresetRendering) -> SegmentView {
    SegmentView {
        raw_content: prompt.content@,
        macro_evaluations: evaluations_view(rendering.rendered.macro_evaluations@),
        state_mutations: mutation_views(rendering.rendered.state_mutations@),
        in_chat_depth: prompt.in_chat_depth,
        in_chat_order: prompt.in_chat_order,
        ..plain_segment(
            rendering.token_count,
            "preset:"@ + prompt.identifier@,
            prompt.identifier@,
            prompt.role,
            rendering.rendered.content@,
        )
    }
}

/// How far an arrangement has come: the slots left, the names that have had
/// their turn, the segments so far, and how many prompts were rendered.
pub struct Arrangement {
    pub slots: Seq<Slot>,
    pub used: Seq<Seq<char>>,
    pub ordered: Seq<SegmentView>,
    pub asked: nat,
}

/// An arrangement, or the prompt that has to be rendered first, or why one could
/// not be rendered.
pub enum Arranged {
    Going(Arrangement),
    Wanting(Seq<char>, Seq<char>),
    Failed(PromptError),
}

/// An arrangement to which a prompt of the preset is added, unless it renders
/// to white space. Whether it is marked as used then depends on `always`.
pub open spec fn with_prompt(
    arrangement: Arrangement,
    renderings: Seq<Result<PresetRendering, PromptError>>,
    prompt: PresetPrompt,
    name: Seq<char>,
    always: bool,
) -> Arranged {
    if arrangement.asked >= renderings.len() {
        Arranged::Wanting(prompt.identifier@, prompt.content@)
    } else {
        match renderings[arrangement.asked as int] {
            Err(e) => Arranged::Failed(e),
            Ok(rendering) => {
                let empty = blank(rendering.rendered.content@);
                Arranged::Going(
                    Arrangement {
                        slots: arrangement.slots,
                        used: if always || !empty {
                            arrangement.used.push(name)
                        } else {
                            arrangement.used
                        },
                        ordered: if empty {
                            arrangement.ordered
                        } else {
                            arrangement.ordered.push(preset_segment(prompt, rendering))
                        },
                        asked: arrangement.asked + 1,
                    },
                )
            },
        }
    }
}

/// What a place of the order adds to an arrangement.
pub open spec fn with_place(
    prompts: Seq<(String, PresetPrompt)>,
    renderings: Seq<Result<PresetRendering, PromptError>>,
    place: OrderView,
    arrangement: Arrangement,
) -> Arranged {
    let name = place.identifier;
    let at = slot_index(arrangement.slots, name, 0);
    let prompt = assoc::lookup(prompts, name);
    let has_content = prompt is Some && prompt->0.content@.len() > 0;
    if !place.enabled {
        Arranged::Going(Arrangement { used: arrangement.used.push(name), ..arrangement })
    } else if 0 <= at < arrangement.slots.len() {
        let rest = Arrangement { slots: arrangement.slots.remove(at), ..arrangement };
        if has_content && !passes_through(name) {
            with_prompt(rest, renderings, prompt->0, name, true)
        } else {
            Arranged::Going(
                Arrangement {
                    used: rest.used.push(name),
                    ordered: rest.ordered + arrangement.slots[at].segments,
                    ..rest
                },
            )
        }
    } else if has_content {
        with_prompt(arrangement, renderings, prompt->0, name, false)
    } else {
        Arranged::Going(arrangement)
    }
}

/// What the places of the order from `i` on add to an arrangement.
pub open spec fn with_places(
    prompts: Seq<(String, PresetPrompt)>,
    renderings: Seq<Result<PresetRendering, PromptError>>,
    order: Seq<OrderView>,
    i: int,
    arrangement: Arrangement,
) -> Arranged
    decreases order.len() - i,
{
    if i < 0 || i >= order.len() {
        Arranged::Going(arrangement)
    } else {
        match with_place(prompts, renderings, order[i], arrangement) {
            Arranged::Going(next) => with_places(prompts, renderings, order, i + 1, next),
            stopped => stopped,
        }
    }
}

/// A slot that had no turn and is kept: the user's input, or one that only this
/// prompt knows.
pub open spec fn is_kept(name: Seq<char>, used: Seq<Seq<char>>) -> bool {
    !used.contains(name) && (!native(name) || name == "userInput"@)
}

/// The segments of the slots from `i` on that had no turn and are kept.
pub open spec fn leftovers(slots: Seq<Slot>, used: Seq<Seq<char>>, i: int) -> Seq<SegmentView>
    decreases slots.len() - i,
{
    if i < 0 || i >= slots.len() {
        Seq::empty()
    } else if is_kept(slots[i].name, used) {
        slots[i].segments + leftovers(slots, used, i + 1)
    } else {
        leftovers(slots, used, i + 1)
    }
}

/// The segments as a preset arranges them, or the prompt that has to be rendered
/// first, or why the first that could not be rendered could not be.
pub open spec fn arranged(
    preset: Option<PromptPreset>,
    segments: Seq<SegmentView>,
    renderings: Seq<Result<PresetRendering, PromptError>>,
) -> Result<Seq<SegmentView>, Arranged> {
    match preset {
        None => Ok(with_chat_segments(segments)),
        Some(p) => {
            let order = order_views(p.order@);
            let start = Arrangement {
                slots: merged(grouped(segments), order),
                used: Seq::empty(),
                ordered: Seq::empty(),
                asked: 0,
            };
            match with_places(p.prompts@, renderings, order, 0, start) {
                Arranged::Going(end) => Ok(
                    with_chat_segments(end.ordered + leftovers(end.slots, end.used, 0)),
                ),
                stopped => Err(stopped),
            }
        },
    }
}

fn find_slot(slots: &Vec<(String, Vec<PromptSegment>)>, name: &str) -> (at: usize)
    ensures
        at == slot_index(slot_views(slots@), name@, 0),
        at <= slots@.len(),
{
    let ghost all = slot_views(slots@);
    let mut at: usize = 0;
    while at < slots.len()
        invariant
            at <= slots@.len(),
            all == slot_views(slots@),
            slot_index(all, name@, 0) == slot_index(all, name@, at as int),
        decreases slots@.len() - at,
    {
        proof {
            assert(all[at as int].name == slots@[at as int].0@);
        }
        if text::same(slots[at].0.as_str(), name) {
            return at;
        }
        at = at + 1;
    }
    at
}

fn add_segments(
    slots: &mut Vec<(String, Vec<PromptSegment>)>,
    name: &str,
    segments: Vec<PromptSegment>,
)
    ensures
        slot_views(final(slots)@) == with_segments(
            slot_views(old(slots)@),
            name@,
            segment_views(segments@),
        ),
{
    let ghost before = slot_views(slots@);
    let ghost earlier = slots@;
    let at: usize = find_slot(slots, name);
    let mut more = segments;
    if at < slots.len() {
        proof {
            assert(before[at as int].name == slots@[at as int].0@);
            lemma_slot_index(before, name@, 0);
        }
        slots[at].1.append(&mut more);
        proof {
            assert(slots@[at as int].1@ =~= earlier[at as int].1@ + segments@);
            assert(segment_views(slots@[at as int].1@) =~= before[at as int].segments
                + segment_views(segments@));
            assert(slot_views(slots@) =~= with_segments(before, name@, segment_views(segments@)));
        }
    } else {
        slots.push((name.to_owned(), more));
        proof {
            assert(slot_views(slots@) =~= with_segments(before, name@, segment_views(segments@)));
        }
    }
}

proof fn lemma_slot_index(slots: Seq<Slot>, name: Seq<char>, from: int)
    requires
        0 <= from <= slots.len(),
    ensures
        from <= slot_index(slots, name, from) <= slots.len(),
        slot_index(slots, name, from) < slots.len() ==> slots[slot_index(
            slots,
            name,
            from,
        )].name == name,
    decreases slots.len() - from,
{
    if from < slots.len() && slots[from].name != name {
        lemma_slot_index(slots, name, from + 1);
    }
}

fn group_segments(segments: Vec<PromptSegment>) -> (slots: Vec<(String, Vec<PromptSegment>)>)
    ensures
        slot_views(slots@) == grouped(segment_views(segments@)),
{
    let ghost all = segment_views(segments@);
    let count: usize = segments.len();
    let mut rest = segments;
    let mut slots: Vec<(String, Vec<PromptSegment>)> = Vec::new();
    let mut i: usize = 0;
    proof {
        assert(all.skip(0) =~= all);
        assert(slot_views(slots@) =~= Seq::<Slot>::empty());
    }
    while i < count
        invariant
            i <= count,
            count == all.len(),
            segment_views(rest@) == all.skip(i as int),
            slot_views(slots@) == grouped(all.take(i as int)),
        decreases count - i,
    {
        proof {
            assert(segment_views(rest@).len() == rest@.len());
            assert(segment_views(rest@)[0] == rest@[0]@);
            assert(all.take(i + 1).drop_last() =~= all.take(i as int));
            assert(all.take(i + 1).last() == all[i as int]);
            lemma_segments_remove_first(rest@);
            assert(all.skip(i as int).skip(1) =~= all.skip(i + 1));
        }
        let segment = rest.remove(0);
        let name = segment.slot.clone();
        let mut one: Vec<PromptSegment> = Vec::new();
        one.push(segment);
        proof {
            assert(segment@ == all[i as int]);
            assert(segment_views(one@) =~= seq![all[i as int]]);
        }
        add_segments(&mut slots, name.as_str(), one);
        i = i + 1;
    }
    proof {
        assert(all.take(count as int) =~= all);
    }
    slots
}

fn check_enables(order: &Vec<PresetOrder>, name: &str) -> (r: bool)
    ensures
        r == enables(order_views(order@), name@),
{
    let ghost all = order_views(order@);
    let mut i: usize = 0;
    while i < order.len()
        invariant
            i <= order@.len(),
            all == order_views(order@),
            forall|j: int|
                0 <= j < i ==> !((#[trigger] all[j]).identifier == name@ && all[j].enabled),
        decreases order@.len() - i,
    {
        proof {
            assert(all[i as int].identifier == order@[i as int].identifier@);
        }
        if order[i].enabled && text::same(order[i].identifier.as_str(), name) {
            return true;
        }
        i = i + 1;
    }
    false
}

fn take_slot(slots: &mut Vec<(String, Vec<PromptSegment>)>, at: usize) -> (segments: Vec<
    PromptSegment,
>)
    requires
        at < old(slots)@.len(),
    ensures
        slot_views(final(slots)@) == slot_views(old(slots)@).remove(at as int),
        segment_views(segments@) == slot_views(old(slots)@)[at as int].segments,
{
    let taken = slots.remove(at);
    proof {
        assert(slot_views(slots@) =~= slot_views(old(slots)@).remove(at as int));
    }
    taken.1
}

fn merge_input(slots: &mut Vec<(String, Vec<PromptSegment>)>, order: &Vec<PresetOrder>)
    ensures
        slot_views(final(slots)@) == merged(slot_views(old(slots)@), order_views(order@)),
{
    if !check_enables(order, "chatHistory") || check_enables(order, "userInput") {
        return;
    }
    let at: usize = find_slot(slots, "userInput");
    if at < slots.len() {
        let input = take_slot(slots, at);
        add_segments(slots, "chatHistory", input);
    }
}

/// An arrangement while it goes on.
struct Draft {
    slots: Vec<(String, Vec<PromptSegment>)>,
    used: Vec<String>,
    ordered: Vec<PromptSegment>,
    asked: usize,
}

impl View for Draft {
    type V = Arrangement;

    closed spec fn view(&self) -> Arrangement {
        Arrangement {
            slots: slot_views(self.slots@),
            used: views(self.used@),
            ordered: segment_views(self.ordered@),
            asked: self.asked as nat,
        }
    }
}

fn make_segment(prompt: &PresetPrompt, rendering: &PresetRendering) -> (segment: PromptSegment)
    ensures
        segment@ == preset_segment(*prompt, *rendering),
{
    let mut source = "preset:".to_owned();
    source.push_str(prompt.identifier.as_str());
    let mut segment = PromptSegment::new(
        rendering.token_count,
        source,
        prompt.identifier.clone(),
        prompt.role,
        rendering.rendered.content.clone(),
    );
    segment.raw_content = prompt.content.clone();
    segment.macro_evaluations = copy_evaluations(&rendering.rendered.macro_evaluations);
    segment.state_mutations = copy_mutations(&rendering.rendered.state_mutations);
    segment.in_chat_depth = prompt.in_chat_depth;
    segment.in_chat_order = prompt.in_chat_order;
    segment
}

/// The prompt that has to be rendered first.
pub open spec fn is_wanting(
    error: PromptError,
    identifier: Seq<char>,
    content: Seq<char>,
) -> bool {
    match error {
        PromptError::Unrendered { identifier: i, content: c } => i@ == identifier && c@ == content,
        _ => false,
    }
}

/// The error says why an arrangement stopped.
pub open spec fn is_stop(error: PromptError, stopped: Arranged) -> bool {
    match stopped {
        Arranged::Going(_) => false,
        Arranged::Wanting(identifier, content) => is_wanting(error, identifier, content),
        Arranged::Failed(e) => error == e,
    }
}

fn copy_error(error: &PromptError) -> (copy: PromptError)
    ensures
        copy == *error,
{
    match error {
        PromptError::MissingPrompts => PromptError::MissingPrompts,
        PromptError::InvalidPrompt => PromptError::InvalidPrompt,
        PromptError::MissingIdentifier => PromptError::MissingIdentifier,
        PromptError::Render(message) => PromptError::Render(message.clone()),
        PromptError::ContextTemplate(message) => PromptError::ContextTemplate(message.clone()),
        PromptError::ContextOverflow { required, available } => PromptError::ContextOverflow {
            required: *required,
            available: *available,
        },
        PromptError::Unrendered { identifier, content } => PromptError::Unrendered {
            identifier: identifier.clone(),
            content: content.clone(),
        },
    }
}

impl Draft {
    fn mark(&mut self, name: &str)
        ensures
            final(self)@ == (Arrangement { used: old(self)@.used.push(name@), ..old(self)@ }),
    {
        let owned = name.to_owned();
        proof {
            lemma_views_push(self.used@, owned);
        }
        self.used.push(owned);
    }

    fn add_prompt(
        &mut self,
        renderings: &Vec<Result<PresetRendering, PromptError>>,
        prompt: &PresetPrompt,
        name: &str,
        always: bool,
    ) -> (r: Result<(), PromptError>)
        ensures
            match (r, with_prompt(old(self)@, renderings@, *prompt, name@, always)) {
                (Ok(()), Arranged::Going(next)) => final(self)@ == next,
                (Err(e), stopped) => is_stop(e, stopped),
                _ => false,
            },
    {
        if self.asked >= renderings.len() {
            return Err(
                PromptError::Unrendered {
                    identifier: prompt.identifier.clone(),
                    content: prompt.content.clone(),
                },
            );
        }
        let rendering = match &renderings[self.asked] {
            Ok(rendering) => rendering,
            Err(e) => return Err(copy_error(e)),
        };
        let empty = text::is_blank(rendering.rendered.content.as_str());
        self.asked = self.asked + 1;
        if always || !empty {
            self.mark(name);
        }
        if !empty {
            let segment = make_segment(prompt, rendering);
            proof {
                lemma_segments_push(self.ordered@, segment);
            }
            self.ordered.push(segment);
        }
        Ok(())
    }

    fn add_place(
        &mut self,
        prompts: &Vec<(String, PresetPrompt)>,
        renderings: &Vec<Result<PresetRendering, PromptError>>,
        place: &PresetOrder,
    ) -> (r: Result<(), PromptError>)
        ensures
            match (
                r,
                with_place(
                    prompts@,
                    renderings@,
                    (OrderView { identifier: place.identifier@, enabled: place.enabled }),
                    old(self)@,
                ),
            ) {
                (Ok(()), Arranged::Going(next)) => final(self)@ == next,
                (Err(e), stopped) => is_stop(e, stopped),
                _ => false,
            },
    {
        let name: &str = place.identifier.as_str();
        if !place.enabled {
            self.mark(name);
            return Ok(());
        }
        let at: usize = find_slot(&self.slots, name);
        let prompt = assoc::find(prompts, name);
        if at < self.slots.len() {
            let mut segments = take_slot(&mut self.slots, at);
            if let Some(custom) = prompt {
                if !custom.content.as_str().is_empty() && !is_native_passthrough(name) {
                    return self.add_prompt(renderings, custom, name, true);
                }
            }
            self.mark(name);
            let ghost before = self.ordered@;
            let ghost more = segments@;
            self.ordered.append(&mut segments);
            proof {
                assert(segment_views(self.ordered@) =~= segment_views(before) + segment_views(
                    more,
                ));
            }
            return Ok(());
        }
        if let Some(custom) = prompt {
            if !custom.content.as_str().is_empty() {
                return self.add_prompt(renderings, custom, name, false);
            }
        }
        Ok(())
    }

    fn add_leftovers(&mut self)
        ensures
            segment_views(final(self).ordered@) == old(self)@.ordered + leftovers(
                old(self)@.slots,
                old(self)@.used,
                0,
            ),
    {
        let ghost slots = slot_views(self.slots@);
        let ghost used = views(self.used@);
        let ghost start = segment_views(self.ordered@);
        let count: usize = self.slots.len();
        let mut i: usize = 0;
        proof {
            assert(slots.skip(0) =~= slots);
        }
        while i < count
            invariant
                i <= count,
                count == slots.len(),
                slot_views(self.slots@) == slots.skip(i as int),
                views(self.used@) == used,
                start + leftovers(slots, used, 0) == segment_views(self.ordered@) + leftovers(
                    slots,
                    used,
                    i as int,
                ),
            decreases count - i,
        {
            proof {
                assert(slot_views(self.slots@).len() == self.slots@.len());
                assert(slot_views(self.slots@)[0].name == self.slots@[0].0@);
                assert(slots.skip(i as int)[0] == slots[i as int]);
                assert(slots.skip(i as int).remove(0) =~= slots.skip(i + 1));
            }
            let name = self.slots[0].0.clone();
            let mut segments = take_slot(&mut self.slots, 0);
            let kept = !contains_text(&self.used, name.as_str()) && (!is_native_slot(name.as_str())
                || text::same(name.as_str(), "userInput"));
            if kept {
                let ghost before = self.ordered@;
                let ghost more = segments@;
                self.ordered.append(&mut segments);
                proof {
                    assert(segment_views(self.ordered@) =~= segment_views(before) + segment_views(
                        more,
                    ));
                    assert(segment_views(before) + (segment_views(more) + leftovers(
                        slots,
                        used,
                        i + 1,
                    )) =~= segment_views(self.ordered@) + leftovers(slots, used, i + 1));
                }
            }
            i = i + 1;
        }
        proof {
            assert(segment_views(self.ordered@) + Seq::<SegmentView>::empty() =~= segment_views(
                self.ordered@,
            ));
        }
    }
}

/// Arranges segments as a preset says. The prompts that the preset brings are
/// rendered by the caller, one after the other: `renderings` holds those done
/// so far. The first that could not be rendered stops the arrangement.
pub fn apply_prompt_preset(
    preset: Option<&PromptPreset>,
    segments: Vec<PromptSegment>,
    renderings: &Vec<Result<PresetRendering, PromptError>>,
) -> (r: Result<Vec<PromptSegment>, PromptError>)
    ensures
        match (
            r,
            arranged(
                match preset {
                    Some(p) => Some(*p),
                    None => None,
                },
                segment_views(segments@),
                renderings@,
            ),
        ) {
            (Ok(list), Ok(expected)) => segment_views(list@) == expected,
            (Err(e), Err(stopped)) => is_stop(e, stopped),
            _ => false,
        },
{
    let chosen = match preset {
        Some(chosen) => chosen,
        None => return Ok(insert_in_chat_segments(segments)),
    };
    let ghost all = segment_views(segments@);
    let ghost order = order_views(chosen.order@);
    let mut slots = group_segments(segments);
    merge_input(&mut slots, &chosen.order);
    let mut draft = Draft { slots, used: Vec::new(), ordered: Vec::new(), asked: 0 };
    let ghost start = draft@;
    proof {
        assert(start.used =~= Seq::<Seq<char>>::empty());
        assert(start.ordered =~= Seq::<SegmentView>::empty());
    }
    let mut i: usize = 0;
    while i < chosen.order.len()
        invariant
            i <= chosen.order@.len(),
            order == order_views(chosen.order@),
            all == segment_views(segments@),
            preset == Some(chosen),
            start == (Arrangement {
                slots: merged(grouped(all), order),
                used: Seq::empty(),
                ordered: Seq::empty(),
                asked: 0,
            }),
            with_places(chosen.prompts@, renderings@, order, 0, start) == with_places(
                chosen.prompts@,
                renderings@,
                order,
                i as int,
                draft@,
            ),
        decreases chosen.order@.len() - i,
    {
        match draft.add_place(&chosen.prompts, renderings, &chosen.order[i]) {
            Ok(()) => {},
            Err(e) => return Err(e),
        }
        i = i + 1;
    }
    draft.add_leftovers();
    Ok(insert_in_chat_segments(draft.ordered))
}

/// Where the first prompt that a preset asks for cannot be rendered, that is the
/// error, whatever comes after it.
pub proof fn law_first_rendering_error_is_told(
    arrangement: Arrangement,
    renderings: Seq<Result<PresetRendering, PromptError>>,
    prompts: Seq<(String, PresetPrompt)>,
    order: Seq<OrderView>,
    i: int,
    error: PromptError,
)
    requires
        0 <= i < order.len(),
        with_place(prompts, renderings, order[i], arrangement) == Arranged::Failed(error),
    ensures
        with_places(prompts, renderings, order, i, arrangement) == Arranged::Failed(error),
        arrangement.asked < renderings.len(),
        renderings[arrangement.asked as int] == Err::<PresetRendering, PromptError>(error),
{
}

} // verus!
