//! What a preset makes of the segments of a prompt, whatever they are.
use vstd::prelude::*;

use crate::assoc;
use crate::lists::lemma_push_contains;
use crate::prompt::arrange::{
    arranged, Arranged, Arrangement, grouped, leftovers, merged, native, passes_through,
    preset_segment, PresetRendering, Slot, slot_index, with_place, with_places, with_prompt,
    with_segments,
};
use crate::prompt::chat::{
    law_chat_segments_are_kept, law_plain_segments_stay, with_chat_segments,
};
use crate::prompt::preset::{order_views, OrderView, PresetPrompt, PromptPreset};
use crate::prompt::segment::{PromptError, SegmentView};
use crate::text::blank;

verus! {

/// The preset has an enabled place for a slot.
pub open spec fn gives_place(preset: PromptPreset, slot: Seq<char>) -> bool {
    exists|i: int|
        0 <= i < preset.order@.len() && (#[trigger] preset.order@[i]).identifier@ == slot
            && preset.order@[i].enabled
}

/// The preset names a slot in its order, enabled or not.
pub open spec fn lists(preset: PromptPreset, slot: Seq<char>) -> bool {
    exists|i: int|
        0 <= i < preset.order@.len() && (#[trigger] preset.order@[i]).identifier@ == slot
}

/// The preset has a prompt of its own for a slot, with something in it.
pub open spec fn has_own(preset: PromptPreset, slot: Seq<char>) -> bool {
    exists|i: int|
        0 <= i < preset.prompts@.len() && (#[trigger] preset.prompts@[i]).0@ == slot
            && preset.prompts@[i].1.content@.len() > 0
}

/// Each prompt of a preset stands under its identifier, and no two under one.
pub open spec fn is_well_named(preset: PromptPreset) -> bool {
    &&& forall|i: int|
        0 <= i < preset.prompts@.len() ==> (#[trigger] preset.prompts@[i]).1.identifier@
            == preset.prompts@[i].0@
    &&& forall|i: int, j: int|
        0 <= i < j < preset.prompts@.len() ==> (#[trigger] preset.prompts@[i]).0@ != (
        #[trigger] preset.prompts@[j]).0@
}

/// The user's input goes with the chat history: that has a place, and the input has
/// none of its own.
pub open spec fn joins_input(preset: PromptPreset) -> bool {
    gives_place(preset, "chatHistory"@) && !gives_place(preset, "userInput"@)
}

/// How often a segment stands among some.
pub open spec fn count_of(segments: Seq<SegmentView>, x: SegmentView) -> nat {
    segments.to_multiset().count(x)
}

/// The slot that a segment's place is found under.
spec fn home(joined: bool, slot: Seq<char>) -> Seq<char> {
    if joined && slot == "userInput"@ {
        "chatHistory"@
    } else {
        slot
    }
}

/// No two slots have one name, and each holds only what belongs there.
spec fn are_tidy(slots: Seq<Slot>, joined: bool) -> bool {
    &&& forall|i: int, j: int|
        0 <= i < j < slots.len() ==> (#[trigger] slots[i]).name != (#[trigger] slots[j]).name
    &&& forall|i: int, k: int|
        0 <= i < slots.len() && 0 <= k < slots[i].segments.len() ==> home(
            joined,
            (#[trigger] slots[i].segments[k]).slot,
        ) == slots[i].name
}

/// How often a segment stands in the slot of a name.
spec fn held(slots: Seq<Slot>, name: Seq<char>, x: SegmentView) -> nat {
    let at = slot_index(slots, name, 0);
    if 0 <= at < slots.len() {
        count_of(slots[at].segments, x)
    } else {
        0
    }
}

proof fn lemma_found(slots: Seq<Slot>, name: Seq<char>, from: int)
    requires
        0 <= from <= slots.len(),
    ensures
        from <= slot_index(slots, name, from) <= slots.len(),
        slot_index(slots, name, from) < slots.len() ==> slots[slot_index(slots, name, from)].name
            == name,
        forall|i: int|
            from <= i < slot_index(slots, name, from) ==> (#[trigger] slots[i]).name != name,
    decreases slots.len() - from,
{
    if from < slots.len() && slots[from].name != name {
        lemma_found(slots, name, from + 1);
    }
}

proof fn lemma_found_at(slots: Seq<Slot>, joined: bool, name: Seq<char>, i: int)
    requires
        are_tidy(slots, joined),
        0 <= i < slots.len(),
        slots[i].name == name,
    ensures
        slot_index(slots, name, 0) == i,
{
    lemma_found(slots, name, 0);
    let at = slot_index(slots, name, 0);
    if at < i {
        assert(slots[at].name != slots[i].name);
    }
}

proof fn lemma_count_outside(segments: Seq<SegmentView>, x: SegmentView)
    ensures
        !segments.contains(x) ==> count_of(segments, x) == 0,
        segments.contains(x) ==> count_of(segments, x) > 0,
{
    broadcast use vstd::seq_lib::group_to_multiset_ensures;

    if segments.contains(x) {
        segments.to_multiset_ensures();
    } else {
        segments.to_multiset_ensures();
    }
}

proof fn lemma_count_add(a: Seq<SegmentView>, b: Seq<SegmentView>, x: SegmentView)
    ensures
        count_of(a + b, x) == count_of(a, x) + count_of(b, x),
{
    vstd::seq_lib::lemma_multiset_commutative(a, b);
}

proof fn lemma_count_one(y: SegmentView, x: SegmentView)
    ensures
        count_of(seq![y], x) == if x == y {
            1nat
        } else {
            0
        },
{
    seq![y].to_multiset_ensures();
    assert(seq![y] =~= Seq::<SegmentView>::empty().push(y));
    Seq::<SegmentView>::empty().to_multiset_ensures();
    broadcast use vstd::seq_lib::group_to_multiset_ensures;

    assert(seq![y].to_multiset() =~= Seq::<SegmentView>::empty().to_multiset().insert(y));
    assert(Seq::<SegmentView>::empty().to_multiset().len() == 0);
}

/// Adding segments to a slot adds them to that slot alone.
proof fn lemma_with_segments(
    slots: Seq<Slot>,
    joined: bool,
    name: Seq<char>,
    segments: Seq<SegmentView>,
    x: SegmentView,
    other: Seq<char>,
)
    requires
        are_tidy(slots, joined),
        forall|k: int|
            0 <= k < segments.len() ==> home(joined, (#[trigger] segments[k]).slot) == name,
    ensures
        are_tidy(with_segments(slots, name, segments), joined),
        held(with_segments(slots, name, segments), other, x) == held(slots, other, x)
            + if other == name {
            count_of(segments, x)
        } else {
            0
        },
{
    let at = slot_index(slots, name, 0);
    let after = with_segments(slots, name, segments);
    lemma_found(slots, name, 0);
    lemma_found(slots, other, 0);
    if at < slots.len() {
        lemma_count_add(slots[at].segments, segments, x);
        assert forall|i: int, k: int|
            0 <= i < after.len() && 0 <= k < after[i].segments.len() implies home(
            joined,
            (#[trigger] after[i].segments[k]).slot,
        ) == after[i].name by {
            if i == at {
                if k < slots[at].segments.len() {
                    assert(after[i].segments[k] == slots[at].segments[k]);
                } else {
                    assert(after[i].segments[k] == segments[k - slots[at].segments.len()]);
                }
            } else {
                assert(after[i].segments[k] == slots[i].segments[k]);
            }
        }
        assert forall|i: int, j: int| 0 <= i < j < after.len() implies (
        #[trigger] after[i]).name != (#[trigger] after[j]).name by {
            assert(slots[i].name != slots[j].name);
        }
    } else {
        assert forall|i: int, k: int|
            0 <= i < after.len() && 0 <= k < after[i].segments.len() implies home(
            joined,
            (#[trigger] after[i].segments[k]).slot,
        ) == after[i].name by {
            if i < slots.len() {
                assert(after[i].segments[k] == slots[i].segments[k]);
            } else {
                assert(after[i].segments[k] == segments[k]);
            }
        }
        assert forall|i: int, j: int| 0 <= i < j < after.len() implies (
        #[trigger] after[i]).name != (#[trigger] after[j]).name by {
            assert(slots[i].name == after[i].name);
            if j < slots.len() {
                assert(slots[j].name == after[j].name);
            }
        }
    }
    let there = slot_index(slots, other, 0);
    if other == name {
        if at < slots.len() {
            lemma_found_at(after, joined, other, at);
        } else {
            lemma_found_at(after, joined, other, slots.len() as int);
        }
    } else if there < slots.len() {
        lemma_found_at(after, joined, other, there);
    } else {
        lemma_found(after, other, 0);
        let w = slot_index(after, other, 0);
        if w < after.len() {
            assert(after[w].name == other);
            if w < slots.len() {
                assert(slots[w].name == after[w].name);
            }
        }
    }
}

/// Taking a slot away leaves the others.
proof fn lemma_without_slot(
    slots: Seq<Slot>,
    joined: bool,
    at: int,
    x: SegmentView,
    other: Seq<char>,
)
    requires
        are_tidy(slots, joined),
        0 <= at < slots.len(),
    ensures
        are_tidy(slots.remove(at), joined),
        held(slots.remove(at), other, x) == if other == slots[at].name {
            0
        } else {
            held(slots, other, x)
        },
        other == slots[at].name ==> slot_index(slots.remove(at), other, 0) == slots.len() - 1,
{
    let after = slots.remove(at);
    assert forall|i: int, k: int|
        0 <= i < after.len() && 0 <= k < after[i].segments.len() implies home(
        joined,
        (#[trigger] after[i].segments[k]).slot,
    ) == after[i].name by {
        let j = if i < at {
            i
        } else {
            i + 1
        };
        assert(after[i] == slots[j]);
        assert(after[i].segments[k] == slots[j].segments[k]);
    }
    assert forall|i: int, j: int| 0 <= i < j < after.len() implies (#[trigger] after[i]).name != (
    #[trigger] after[j]).name by {
        let a = if i < at {
            i
        } else {
            i + 1
        };
        let b = if j < at {
            j
        } else {
            j + 1
        };
        assert(slots[a].name != slots[b].name);
    }
    lemma_found(after, other, 0);
    lemma_found(slots, other, 0);
    let w = slot_index(after, other, 0);
    let there = slot_index(slots, other, 0);
    if w < after.len() {
        let back = if w < at {
            w
        } else {
            w + 1
        };
        assert(slots[back] == after[w]);
        lemma_found_at(slots, joined, other, back);
        if other == slots[at].name {
            lemma_found_at(slots, joined, other, at);
        }
    } else if there < slots.len() && there != at {
        let on = if there < at {
            there
        } else {
            there - 1
        };
        assert(after[on] == slots[there]);
    } else if there == at {
        assert(slots[at].name == other);
    }
}

proof fn lemma_grouped(segments: Seq<SegmentView>, x: SegmentView, other: Seq<char>)
    ensures
        are_tidy(grouped(segments), false),
        held(grouped(segments), other, x) == if other == x.slot {
            count_of(segments, x)
        } else {
            0
        },
    decreases segments.len(),
{
    if segments.len() == 0 {
        lemma_count_outside(segments, x);
    } else {
        let head = segments.drop_last();
        let last = segments.last();
        lemma_grouped(head, x, other);
        lemma_with_segments(grouped(head), false, last.slot, seq![last], x, other);
        lemma_count_one(last, x);
        lemma_count_add(head, seq![last], x);
        assert(head + seq![last] =~= segments);
    }
}

proof fn lemma_enables(preset: PromptPreset, name: Seq<char>)
    ensures
        crate::prompt::arrange::enables(order_views(preset.order@), name) <==> gives_place(
            preset,
            name,
        ),
{
    let order = order_views(preset.order@);
    if crate::prompt::arrange::enables(order, name) {
        let i = choose|i: int|
            0 <= i < order.len() && (#[trigger] order[i]).identifier == name && order[i].enabled;
        assert(preset.order@[i].identifier@ == name);
    }
    if gives_place(preset, name) {
        let i = choose|i: int|
            0 <= i < preset.order@.len() && (#[trigger] preset.order@[i]).identifier@ == name
                && preset.order@[i].enabled;
        assert(order[i].identifier == name);
    }
}

/// The slots at the start: each holds the segments that belong there.
proof fn lemma_start(
    preset: PromptPreset,
    segments: Seq<SegmentView>,
    x: SegmentView,
    other: Seq<char>,
)
    ensures
        are_tidy(merged(grouped(segments), order_views(preset.order@)), joins_input(preset)),
        held(merged(grouped(segments), order_views(preset.order@)), other, x) == if other
            == home(joins_input(preset), x.slot) {
            count_of(segments, x)
        } else {
            0
        },
{
    reveal_strlit("userInput");
    reveal_strlit("chatHistory");
    let slots = grouped(segments);
    let joined = joins_input(preset);
    let at = slot_index(slots, "userInput"@, 0);
    lemma_enables(preset, "userInput"@);
    lemma_enables(preset, "chatHistory"@);
    lemma_grouped(segments, x, other);
    lemma_grouped(segments, x, "userInput"@);
    lemma_found(slots, "userInput"@, 0);
    assert("userInput"@.len() != "chatHistory"@.len());
    if joined {
        if at < slots.len() {
            lemma_without_slot(slots, false, at, x, other);
            let rest = slots.remove(at);
            assert(are_tidy(rest, true)) by {
                assert forall|i: int, k: int|
                    0 <= i < rest.len() && 0 <= k < rest[i].segments.len() implies home(
                    true,
                    (#[trigger] rest[i].segments[k]).slot,
                ) == rest[i].name by {
                    assert(home(false, rest[i].segments[k].slot) == rest[i].name);
                    let j = if i < at {
                        i
                    } else {
                        i + 1
                    };
                    assert(rest[i] == slots[j]);
                    if rest[i].name == "userInput"@ {
                        if j < at {
                            assert(slots[j].name != slots[at].name);
                        } else {
                            assert(slots[at].name != slots[j].name);
                        }
                    }
                }
            }
            assert forall|k: int| 0 <= k < slots[at].segments.len() implies home(
                true,
                (#[trigger] slots[at].segments[k]).slot,
            ) == "chatHistory"@ by {
                assert(home(false, slots[at].segments[k].slot) == slots[at].name);
            }
            lemma_with_segments(rest, true, "chatHistory"@, slots[at].segments, x, other);
        } else {
            assert forall|i: int, k: int|
                0 <= i < slots.len() && 0 <= k < slots[i].segments.len() implies home(
                true,
                (#[trigger] slots[i].segments[k]).slot,
            ) == slots[i].name by {
                assert(home(false, slots[i].segments[k].slot) == slots[i].name);
            }
        }
    }
}

/// A place from `i` on is that of a slot, and enabled where `enabled` says so.
spec fn places_from(order: Seq<OrderView>, i: int, name: Seq<char>, enabled: bool) -> bool {
    exists|j: int|
        i <= j < order.len() && (#[trigger] order[j]).identifier == name && (enabled
            ==> order[j].enabled)
}

/// The segments of a slot give way to a prompt of the preset.
spec fn gives_way(prompts: Seq<(String, PresetPrompt)>, name: Seq<char>) -> bool {
    &&& assoc::lookup(prompts, name) is Some
    &&& assoc::lookup(prompts, name)->0.content@.len() > 0
    &&& !passes_through(name)
}

/// A prompt of the preset adds no segment but its own.
proof fn lemma_with_prompt(
    arrangement: Arrangement,
    renderings: Seq<Result<PresetRendering, PromptError>>,
    prompt: PresetPrompt,
    name: Seq<char>,
    always: bool,
    x: SegmentView,
)
    requires
        x.source != "preset:"@ + x.slot,
    ensures
        match with_prompt(arrangement, renderings, prompt, name, always) {
            Arranged::Going(next) => {
                &&& next.slots == arrangement.slots
                &&& count_of(next.ordered, x) == count_of(arrangement.ordered, x)
                &&& forall|other: Seq<char>|
                    other != name ==> (#[trigger] next.used.contains(other)
                        <==> arrangement.used.contains(other))
            },
            _ => true,
        },
{
    if arrangement.asked < renderings.len() {
        match renderings[arrangement.asked as int] {
            Ok(rendering) => {
                let segment = preset_segment(prompt, rendering);
                let ordered = arrangement.ordered;
                lemma_count_one(segment, x);
                lemma_count_add(ordered, seq![segment], x);
                assert(ordered.push(segment) =~= ordered + seq![segment]);
                lemma_used(arrangement.used, name);
            },
            Err(_) => {},
        }
    }
}

proof fn lemma_used(used: Seq<Seq<char>>, name: Seq<char>)
    ensures
        forall|other: Seq<char>|
            #![trigger used.push(name).contains(other)]
            used.push(name).contains(other) <==> used.contains(other) || other == name,
{
    assert forall|other: Seq<char>|
        #![trigger used.push(name).contains(other)]
        used.push(name).contains(other) <==> used.contains(other) || other == name by {
        lemma_push_contains(used, name, other);
    }
}

/// One place moves the segments of its slot, or drops them, and touches no others.
proof fn lemma_place(
    prompts: Seq<(String, PresetPrompt)>,
    renderings: Seq<Result<PresetRendering, PromptError>>,
    place: OrderView,
    arrangement: Arrangement,
    joined: bool,
    x: SegmentView,
)
    requires
        x.source != "preset:"@ + x.slot,
        are_tidy(arrangement.slots, joined),
    ensures
        ({
            let h = home(joined, x.slot);
            let taken = place.enabled && place.identifier == h;
            match with_place(prompts, renderings, place, arrangement) {
                Arranged::Going(next) => {
                    &&& are_tidy(next.slots, joined)
                    &&& count_of(next.ordered, x) == count_of(arrangement.ordered, x) + if taken
                        && !gives_way(prompts, h) {
                        held(arrangement.slots, h, x)
                    } else {
                        0
                    }
                    &&& held(next.slots, h, x) == if taken {
                        0
                    } else {
                        held(arrangement.slots, h, x)
                    }
                    &&& !taken ==> (next.used.contains(h) <==> arrangement.used.contains(h)
                        || place.identifier == h)
                },
                _ => true,
            }
        }),
{
    let name = place.identifier;
    let h = home(joined, x.slot);
    let slots = arrangement.slots;
    let at = slot_index(slots, name, 0);
    lemma_found(slots, name, 0);
    lemma_used(arrangement.used, name);
    if place.enabled {
        let prompt = assoc::lookup(prompts, name);
        if at < slots.len() {
            lemma_without_slot(slots, joined, at, x, h);
            let rest = Arrangement { slots: slots.remove(at), ..arrangement };
            if prompt is Some {
                lemma_with_prompt(rest, renderings, prompt->0, name, true, x);
            }
            lemma_count_add(arrangement.ordered, slots[at].segments, x);
            lemma_count_outside(slots[at].segments, x);
            if name != h && slots[at].segments.contains(x) {
                let k = choose|k: int|
                    0 <= k < slots[at].segments.len() && slots[at].segments[k] == x;
                assert(home(joined, slots[at].segments[k].slot) == name);
            }
        } else if prompt is Some {
            lemma_with_prompt(arrangement, renderings, prompt->0, name, false, x);
        }
    }
}

/// What the places from `i` on do to a segment that is no prompt of the preset.
proof fn lemma_places(
    prompts: Seq<(String, PresetPrompt)>,
    renderings: Seq<Result<PresetRendering, PromptError>>,
    order: Seq<OrderView>,
    i: int,
    arrangement: Arrangement,
    joined: bool,
    x: SegmentView,
)
    requires
        x.source != "preset:"@ + x.slot,
        are_tidy(arrangement.slots, joined),
        0 <= i <= order.len(),
    ensures
        ({
            let h = home(joined, x.slot);
            let taken = places_from(order, i, h, true);
            match with_places(prompts, renderings, order, i, arrangement) {
                Arranged::Going(end) => {
                    &&& are_tidy(end.slots, joined)
                    &&& count_of(end.ordered, x) == count_of(arrangement.ordered, x) + if taken
                        && !gives_way(prompts, h) {
                        held(arrangement.slots, h, x)
                    } else {
                        0
                    }
                    &&& held(end.slots, h, x) == if taken {
                        0
                    } else {
                        held(arrangement.slots, h, x)
                    }
                    &&& !taken ==> (end.used.contains(h) <==> arrangement.used.contains(h)
                        || places_from(order, i, h, false))
                },
                _ => true,
            }
        }),
    decreases order.len() - i,
{
    let h = home(joined, x.slot);
    if i < order.len() {
        lemma_place(prompts, renderings, order[i], arrangement, joined, x);
        match with_place(prompts, renderings, order[i], arrangement) {
            Arranged::Going(next) => {
                lemma_places(prompts, renderings, order, i + 1, next, joined, x);
                lemma_places_step(order, i, h, true);
                lemma_places_step(order, i, h, false);
            },
            _ => {},
        }
    }
}

proof fn lemma_places_step(order: Seq<OrderView>, i: int, name: Seq<char>, enabled: bool)
    requires
        0 <= i < order.len(),
    ensures
        places_from(order, i, name, enabled) <==> places_from(order, i + 1, name, enabled) || (
        order[i].identifier == name && (enabled ==> order[i].enabled)),
{
    if places_from(order, i, name, enabled) {
        let j = choose|j: int|
            i <= j < order.len() && (#[trigger] order[j]).identifier == name && (enabled
                ==> order[j].enabled);
        if j > i {
            assert(order[j].identifier == name);
        }
    }
    if places_from(order, i + 1, name, enabled) {
        let j = choose|j: int|
            i + 1 <= j < order.len() && (#[trigger] order[j]).identifier == name && (enabled
                ==> order[j].enabled);
        assert(order[j].identifier == name);
    }
}

proof fn lemma_leftovers(
    slots: Seq<Slot>,
    used: Seq<Seq<char>>,
    i: int,
    joined: bool,
    x: SegmentView,
)
    requires
        are_tidy(slots, joined),
        0 <= i <= slots.len(),
    ensures
        ({
            let h = home(joined, x.slot);
            count_of(leftovers(slots, used, i), x) == if slot_index(slots, h, 0) >= i
                && !used.contains(h) && (!native(h) || h == "userInput"@) {
                held(slots, h, x)
            } else {
                0
            }
        }),
    decreases slots.len() - i,
{
    let h = home(joined, x.slot);
    lemma_found(slots, h, 0);
    if i < slots.len() {
        lemma_leftovers(slots, used, i + 1, joined, x);
        let segments = slots[i].segments;
        lemma_count_add(segments, leftovers(slots, used, i + 1), x);
        lemma_count_outside(segments, x);
        if slots[i].name == h {
            lemma_found_at(slots, joined, h, i);
        } else if segments.contains(x) {
            let k = choose|k: int| 0 <= k < segments.len() && segments[k] == x;
            assert(home(joined, slots[i].segments[k].slot) == slots[i].name);
        }
    } else {
        lemma_count_outside(Seq::empty(), x);
    }
}

/// What becomes of a segment that is no prompt of the preset.
proof fn lemma_native_segments(
    preset: PromptPreset,
    segments: Seq<SegmentView>,
    renderings: Seq<Result<PresetRendering, PromptError>>,
    x: SegmentView,
)
    requires
        arranged(Some(preset), segments, renderings) is Ok,
        x.source != "preset:"@ + x.slot,
    ensures
        ({
            let h = home(joins_input(preset), x.slot);
            count_of(arranged(Some(preset), segments, renderings)->Ok_0, x) == if gives_place(
                preset,
                h,
            ) {
                if gives_way(preset.prompts@, h) {
                    0
                } else {
                    count_of(segments, x)
                }
            } else if lists(preset, h) || (native(h) && h != "userInput"@) {
                0
            } else {
                count_of(segments, x)
            }
        }),
{
    let joined = joins_input(preset);
    let h = home(joined, x.slot);
    let order = order_views(preset.order@);
    let start = Arrangement {
        slots: merged(grouped(segments), order),
        used: Seq::empty(),
        ordered: Seq::empty(),
        asked: 0,
    };
    lemma_start(preset, segments, x, h);
    lemma_places(preset.prompts@, renderings, order, 0, start, joined, x);
    lemma_count_outside(Seq::empty(), x);
    lemma_order_places(preset, h);
    match with_places(preset.prompts@, renderings, order, 0, start) {
        Arranged::Going(end) => {
            lemma_leftovers(end.slots, end.used, 0, joined, x);
            lemma_found(end.slots, h, 0);
            lemma_count_add(end.ordered, leftovers(end.slots, end.used, 0), x);
            law_chat_segments_are_kept(end.ordered + leftovers(end.slots, end.used, 0));
        },
        _ => {},
    }
}

proof fn lemma_order_places(preset: PromptPreset, name: Seq<char>)
    ensures
        places_from(order_views(preset.order@), 0, name, true) <==> gives_place(preset, name),
        places_from(order_views(preset.order@), 0, name, false) <==> lists(preset, name),
{
    let order = order_views(preset.order@);
    if places_from(order, 0, name, true) {
        let j = choose|j: int|
            0 <= j < order.len() && (#[trigger] order[j]).identifier == name && order[j].enabled;
        assert(preset.order@[j].identifier@ == name);
    }
    if places_from(order, 0, name, false) {
        let j = choose|j: int| 0 <= j < order.len() && (#[trigger] order[j]).identifier == name;
        assert(preset.order@[j].identifier@ == name);
    }
    if lists(preset, name) {
        let j = choose|j: int|
            0 <= j < preset.order@.len() && (#[trigger] preset.order@[j]).identifier@ == name;
        assert(order[j].identifier == name);
    }
    if gives_place(preset, name) {
        let j = choose|j: int|
            0 <= j < preset.order@.len() && (#[trigger] preset.order@[j]).identifier@ == name
                && preset.order@[j].enabled;
        assert(order[j].identifier == name);
    }
}

proof fn lemma_own(preset: PromptPreset, name: Seq<char>)
    requires
        is_well_named(preset),
    ensures
        has_own(preset, name) <==> assoc::lookup(preset.prompts@, name) is Some
            && assoc::lookup(preset.prompts@, name)->0.content@.len() > 0,
        assoc::lookup(preset.prompts@, name) is Some ==> assoc::lookup(
            preset.prompts@,
            name,
        )->0.identifier@ == name,
{
    let prompts = preset.prompts@;
    assoc::lemma_index_of(prompts, name);
    let at = assoc::index_of(prompts, name);
    if has_own(preset, name) {
        let i = choose|i: int|
            0 <= i < prompts.len() && (#[trigger] prompts[i]).0@ == name
                && prompts[i].1.content@.len() > 0;
        if i < at {
            assert(prompts[i].0@ == name);
        } else if at < i {
            assert(prompts[at].0@ != prompts[i].0@);
        }
    }
    if at < prompts.len() {
        assert(prompts[at].0@ == name);
    }
}

/// World info, dialogue examples, the chat history and the user's input stay where
/// the preset gives them a place, whatever prompt of that name it has: every segment
/// of theirs is there as often as before.
pub proof fn law_passing_slots_keep_their_segments(
    preset: PromptPreset,
    segments: Seq<SegmentView>,
    renderings: Seq<Result<PresetRendering, PromptError>>,
    x: SegmentView,
)
    requires
        arranged(Some(preset), segments, renderings) is Ok,
        x.source != "preset:"@ + x.slot,
        gives_place(preset, x.slot),
        x.slot == "worldInfoBefore"@ || x.slot == "worldInfoAfter"@ || x.slot
            == "dialogueExamples"@ || x.slot == "chatHistory"@ || x.slot == "userInput"@,
    ensures
        count_of(arranged(Some(preset), segments, renderings)->Ok_0, x) == count_of(segments, x),
{
    lemma_native_segments(preset, segments, renderings, x);
}

/// A slot with a place keeps its segments where the preset has no prompt of that name
/// or an empty one.
pub proof fn law_slots_without_a_prompt_keep_their_segments(
    preset: PromptPreset,
    segments: Seq<SegmentView>,
    renderings: Seq<Result<PresetRendering, PromptError>>,
    x: SegmentView,
)
    requires
        arranged(Some(preset), segments, renderings) is Ok,
        is_well_named(preset),
        x.source != "preset:"@ + x.slot,
        gives_place(preset, x.slot),
        !has_own(preset, x.slot),
    ensures
        count_of(arranged(Some(preset), segments, renderings)->Ok_0, x) == count_of(segments, x),
{
    lemma_own(preset, x.slot);
    lemma_native_segments(preset, segments, renderings, x);
}

/// Any other slot gives way: where the preset has a prompt of that name with
/// something in it, none of the segments that the slot had is left.
pub proof fn law_other_slots_give_way_to_the_prompt(
    preset: PromptPreset,
    segments: Seq<SegmentView>,
    renderings: Seq<Result<PresetRendering, PromptError>>,
    x: SegmentView,
)
    requires
        arranged(Some(preset), segments, renderings) is Ok,
        is_well_named(preset),
        x.source != "preset:"@ + x.slot,
        gives_place(preset, x.slot),
        has_own(preset, x.slot),
        x.slot != "worldInfoBefore"@,
        x.slot != "worldInfoAfter"@,
        x.slot != "dialogueExamples"@,
        x.slot != "chatHistory"@,
        x.slot != "userInput"@,
    ensures
        !arranged(Some(preset), segments, renderings)->Ok_0.contains(x),
{
    lemma_own(preset, x.slot);
    lemma_native_segments(preset, segments, renderings, x);
    lemma_count_outside(arranged(Some(preset), segments, renderings)->Ok_0, x);
}

/// A slot that the order names without enabling it is left out, except that the
/// user's input goes with the chat history where that has a place.
pub proof fn law_disabled_slots_are_left_out(
    preset: PromptPreset,
    segments: Seq<SegmentView>,
    renderings: Seq<Result<PresetRendering, PromptError>>,
    x: SegmentView,
)
    requires
        arranged(Some(preset), segments, renderings) is Ok,
        x.source != "preset:"@ + x.slot,
        lists(preset, x.slot),
        !gives_place(preset, x.slot),
        x.slot != "userInput"@ || !gives_place(preset, "chatHistory"@),
    ensures
        !arranged(Some(preset), segments, renderings)->Ok_0.contains(x),
{
    lemma_native_segments(preset, segments, renderings, x);
    lemma_count_outside(arranged(Some(preset), segments, renderings)->Ok_0, x);
}

/// The user's input is never lost but where the order disables it and gives the chat
/// history no place.
pub proof fn law_user_input_is_kept(
    preset: PromptPreset,
    segments: Seq<SegmentView>,
    renderings: Seq<Result<PresetRendering, PromptError>>,
    x: SegmentView,
)
    requires
        arranged(Some(preset), segments, renderings) is Ok,
        x.source != "preset:"@ + x.slot,
        x.slot == "userInput"@,
        gives_place(preset, "userInput"@) || gives_place(preset, "chatHistory"@) || !lists(
            preset,
            "userInput"@,
        ),
    ensures
        count_of(arranged(Some(preset), segments, renderings)->Ok_0, x) == count_of(segments, x),
{
    lemma_native_segments(preset, segments, renderings, x);
}

/// Of the slots that the order does not name those that every prompt knows are left
/// out, and the others are kept.
pub proof fn law_slots_out_of_order_are_kept_if_unknown(
    preset: PromptPreset,
    segments: Seq<SegmentView>,
    renderings: Seq<Result<PresetRendering, PromptError>>,
    x: SegmentView,
)
    requires
        arranged(Some(preset), segments, renderings) is Ok,
        x.source != "preset:"@ + x.slot,
        !lists(preset, x.slot),
        x.slot != "userInput"@,
    ensures
        count_of(arranged(Some(preset), segments, renderings)->Ok_0, x) == if x.slot == "main"@
            || x.slot == "charDescription"@ || x.slot == "charPersonality"@ || x.slot
            == "scenario"@ || x.slot == "personaDescription"@ || x.slot == "dialogueExamples"@
            || x.slot == "nsfw"@ || x.slot == "jailbreak"@ || x.slot == "worldInfoBefore"@
            || x.slot == "worldInfoAfter"@ || x.slot == "chatHistory"@ || x.slot
            == "enhanceDefinitions"@ {
            0
        } else {
            count_of(segments, x)
        },
{
    lemma_native_segments(preset, segments, renderings, x);
    if gives_place(preset, x.slot) {
        let i = choose|i: int|
            0 <= i < preset.order@.len() && (#[trigger] preset.order@[i]).identifier@ == x.slot
                && preset.order@[i].enabled;
        assert(preset.order@[i].identifier@ == x.slot);
    }
}

/// A segment is that of a prompt of the preset, with what the prompt was rendered to.
pub open spec fn is_own_segment(
    preset: PromptPreset,
    name: Seq<char>,
    rendering: PresetRendering,
    x: SegmentView,
) -> bool {
    exists|i: int|
        {
            &&& 0 <= i < preset.prompts@.len()
            &&& (#[trigger] preset.prompts@[i]).0@ == name
            &&& x.source == "preset:"@ + name
            &&& x.slot == name
            &&& x.role == preset.prompts@[i].1.role
            &&& x.raw_content == preset.prompts@[i].1.content@
            &&& x.raw_content.len() > 0
            &&& x.in_chat_depth == preset.prompts@[i].1.in_chat_depth
            &&& x.in_chat_order == preset.prompts@[i].1.in_chat_order
            &&& x.content == rendering.rendered.content@
            &&& x.token_count == rendering.token_count
            &&& x.truncation_priority == 500
            &&& !x.pruned
            &&& !blank(x.content)
        }
}

/// A prompt was rendered so.
pub open spec fn is_rendering(
    renderings: Seq<Result<PresetRendering, PromptError>>,
    rendering: PresetRendering,
) -> bool {
    exists|k: int| 0 <= k < renderings.len() && #[trigger] renderings[k] == Ok::<
        PresetRendering,
        PromptError,
    >(rendering)
}

/// A prompt of the preset for a slot stands among some segments, or was rendered to
/// white space.
pub open spec fn brings_own(
    preset: PromptPreset,
    name: Seq<char>,
    renderings: Seq<Result<PresetRendering, PromptError>>,
    segments: Seq<SegmentView>,
) -> bool {
    exists|rendering: PresetRendering| #[trigger]
        is_rendering(renderings, rendering) && (blank(rendering.rendered.content@) || exists|
            x: SegmentView,
        |
            #[trigger] segments.contains(x) && is_own_segment(preset, name, rendering, x))
}

proof fn lemma_brings_more(
    preset: PromptPreset,
    name: Seq<char>,
    renderings: Seq<Result<PresetRendering, PromptError>>,
    segments: Seq<SegmentView>,
    more: Seq<SegmentView>,
)
    requires
        brings_own(preset, name, renderings, segments),
        forall|x: SegmentView| #[trigger] segments.contains(x) ==> more.contains(x),
    ensures
        brings_own(preset, name, renderings, more),
{
    let rendering = choose|rendering: PresetRendering| #[trigger]
        is_rendering(renderings, rendering) && (blank(rendering.rendered.content@) || exists|
            x: SegmentView,
        |
            #[trigger] segments.contains(x) && is_own_segment(preset, name, rendering, x));
    if !blank(rendering.rendered.content@) {
        let x = choose|x: SegmentView| #[trigger]
            segments.contains(x) && is_own_segment(preset, name, rendering, x);
        assert(more.contains(x));
    }
}

/// A prompt that is added is there afterwards, unless it was rendered to white space.
proof fn lemma_prompt_is_brought(
    preset: PromptPreset,
    arrangement: Arrangement,
    renderings: Seq<Result<PresetRendering, PromptError>>,
    name: Seq<char>,
    always: bool,
)
    requires
        is_well_named(preset),
        has_own(preset, name),
    ensures
        match with_prompt(
            arrangement,
            renderings,
            assoc::lookup(preset.prompts@, name)->0,
            name,
            always,
        ) {
            Arranged::Going(next) => {
                &&& brings_own(preset, name, renderings, next.ordered)
                &&& forall|x: SegmentView| #[trigger]
                    arrangement.ordered.contains(x) ==> next.ordered.contains(x)
                &&& forall|x: SegmentView| #[trigger]
                    next.ordered.contains(x) ==> arrangement.ordered.contains(x) || exists|
                        rendering: PresetRendering,
                    |
                        #[trigger] is_rendering(renderings, rendering) && is_own_segment(
                            preset,
                            name,
                            rendering,
                            x,
                        )
            },
            _ => true,
        },
{
    lemma_own(preset, name);
    let prompts = preset.prompts@;
    assoc::lemma_index_of(prompts, name);
    let at = assoc::index_of(prompts, name);
    let prompt = prompts[at].1;
    assert(prompts[at].0@ == name);
    if arrangement.asked < renderings.len() {
        match renderings[arrangement.asked as int] {
            Ok(rendering) => {
                assert(is_rendering(renderings, rendering));
                let ordered = arrangement.ordered;
                let segment = preset_segment(prompt, rendering);
                if !blank(rendering.rendered.content@) {
                    assert(is_own_segment(preset, name, rendering, segment));
                    assert forall|x: SegmentView|
                        #![trigger ordered.push(segment).contains(x)]
                        #![trigger ordered.contains(x)]
                        ordered.push(segment).contains(x) <==> ordered.contains(x) || x
                            == segment by {
                        lemma_push_contains(ordered, segment, x);
                    }
                    assert(ordered.push(segment).contains(segment));
                }
            },
            Err(_) => {},
        }
    }
}

proof fn lemma_own_is_brought(
    preset: PromptPreset,
    renderings: Seq<Result<PresetRendering, PromptError>>,
    i: int,
    arrangement: Arrangement,
    name: Seq<char>,
)
    requires
        is_well_named(preset),
        0 <= i <= preset.order@.len(),
    ensures
        match with_places(
            preset.prompts@,
            renderings,
            order_views(preset.order@),
            i,
            arrangement,
        ) {
            Arranged::Going(end) => {
                &&& forall|x: SegmentView| #[trigger]
                    arrangement.ordered.contains(x) ==> end.ordered.contains(x)
                &&& (has_own(preset, name) && places_from(
                    order_views(preset.order@),
                    i,
                    name,
                    true,
                ) && (!passes_through(name) || slot_index(arrangement.slots, name, 0)
                    >= arrangement.slots.len())) ==> brings_own(
                    preset,
                    name,
                    renderings,
                    end.ordered,
                )
            },
            _ => true,
        },
    decreases preset.order@.len() - i,
{
    let order = order_views(preset.order@);
    if i < order.len() {
        let place = order[i].identifier;
        let slots = arrangement.slots;
        let at = slot_index(slots, place, 0);
        lemma_own(preset, place);
        lemma_found(slots, place, 0);
        lemma_found(slots, name, 0);
        let rest = Arrangement { slots: slots.remove(at), ..arrangement };
        if has_own(preset, place) {
            lemma_prompt_is_brought(preset, rest, renderings, place, true);
            lemma_prompt_is_brought(preset, arrangement, renderings, place, false);
        }
        if at < slots.len() {
            lemma_more(arrangement.ordered, slots[at].segments);
            if slot_index(slots, name, 0) >= slots.len() {
                lemma_found(rest.slots, name, 0);
                let w = slot_index(rest.slots, name, 0);
                if w < rest.slots.len() {
                    let back = if w < at {
                        w
                    } else {
                        w + 1
                    };
                    assert(rest.slots[w] == slots[back]);
                    assert(slots[back].name == name);
                }
            }
        }
        lemma_places_step(order, i, name, true);
        match with_place(preset.prompts@, renderings, order[i], arrangement) {
            Arranged::Going(next) => {
                lemma_own_is_brought(preset, renderings, i + 1, next, name);
                match with_places(preset.prompts@, renderings, order, i + 1, next) {
                    Arranged::Going(end) => {
                        if brings_own(preset, name, renderings, next.ordered) {
                            lemma_brings_more(
                                preset,
                                name,
                                renderings,
                                next.ordered,
                                end.ordered,
                            );
                        }
                    },
                    _ => {},
                }
            },
            _ => {},
        }
    }
}

proof fn lemma_more(a: Seq<SegmentView>, b: Seq<SegmentView>)
    ensures
        forall|x: SegmentView|
            #![trigger (a + b).contains(x)]
            #![trigger a.contains(x)]
            (a + b).contains(x) <==> a.contains(x) || b.contains(x),
{
    assert forall|x: SegmentView|
        #![trigger (a + b).contains(x)]
        #![trigger a.contains(x)]
        (a + b).contains(x) <==> a.contains(x) || b.contains(x) by {
        if a.contains(x) {
            let k = choose|k: int| 0 <= k < a.len() && a[k] == x;
            assert((a + b)[k] == x);
        }
        if b.contains(x) {
            let k = choose|k: int| 0 <= k < b.len() && b[k] == x;
            assert((a + b)[a.len() + k] == x);
        }
        if (a + b).contains(x) {
            let k = choose|k: int| 0 <= k < (a + b).len() && (a + b)[k] == x;
            if k < a.len() {
                assert(a[k] == x);
            } else {
                assert(b[k - a.len()] == x);
            }
        }
    }
}

proof fn lemma_chat_contains(segments: Seq<SegmentView>, x: SegmentView)
    ensures
        with_chat_segments(segments).contains(x) <==> segments.contains(x),
{
    law_chat_segments_are_kept(segments);
    lemma_count_outside(segments, x);
    lemma_count_outside(with_chat_segments(segments), x);
}

/// Where the preset gives a slot a place and has a prompt of that name with something
/// in it, that prompt stands in the result with what it was rendered to, unless that
/// is white space. This holds of all slots but world info, dialogue examples, the chat
/// history and the user's input, and of those where there is no segment for them.
pub proof fn law_prompts_stand_in_their_place(
    preset: PromptPreset,
    segments: Seq<SegmentView>,
    renderings: Seq<Result<PresetRendering, PromptError>>,
    name: Seq<char>,
)
    requires
        arranged(Some(preset), segments, renderings) is Ok,
        is_well_named(preset),
        gives_place(preset, name),
        has_own(preset, name),
        (name != "worldInfoBefore"@ && name != "worldInfoAfter"@ && name != "dialogueExamples"@
            && name != "chatHistory"@ && name != "userInput"@) || forall|i: int|
            0 <= i < segments.len() ==> (#[trigger] segments[i]).slot != name && (
            segments[i].slot != "userInput"@ || !joins_input(preset)),
    ensures
        brings_own(
            preset,
            name,
            renderings,
            arranged(Some(preset), segments, renderings)->Ok_0,
        ),
{
    let order = order_views(preset.order@);
    let start = Arrangement {
        slots: merged(grouped(segments), order),
        used: Seq::empty(),
        ordered: Seq::empty(),
        asked: 0,
    };
    lemma_order_places(preset, name);
    if passes_through(name) {
        lemma_no_slot(preset, segments, name);
    }
    lemma_own_is_brought(preset, renderings, 0, start, name);
    match with_places(preset.prompts@, renderings, order, 0, start) {
        Arranged::Going(end) => {
            let all = end.ordered + leftovers(end.slots, end.used, 0);
            lemma_more(end.ordered, leftovers(end.slots, end.used, 0));
            assert forall|x: SegmentView| #[trigger]
                end.ordered.contains(x) implies with_chat_segments(all).contains(x) by {
                lemma_chat_contains(all, x);
            }
            lemma_brings_more(
                preset,
                name,
                renderings,
                end.ordered,
                with_chat_segments(all),
            );
        },
        _ => {},
    }
}

proof fn lemma_no_slot(preset: PromptPreset, segments: Seq<SegmentView>, name: Seq<char>)
    requires
        forall|i: int|
            0 <= i < segments.len() ==> (#[trigger] segments[i]).slot != name && (
            segments[i].slot != "userInput"@ || !joins_input(preset)),
    ensures
        ({
            let slots = merged(grouped(segments), order_views(preset.order@));
            slot_index(slots, name, 0) >= slots.len()
        }),
{
    lemma_enables(preset, "userInput"@);
    lemma_enables(preset, "chatHistory"@);
    lemma_no_group(segments, name);
    if joins_input(preset) {
        lemma_no_group(segments, "userInput"@);
    }
}

proof fn lemma_no_group(segments: Seq<SegmentView>, name: Seq<char>)
    requires
        forall|i: int| 0 <= i < segments.len() ==> (#[trigger] segments[i]).slot != name,
    ensures
        slot_index(grouped(segments), name, 0) == grouped(segments).len(),
    decreases segments.len(),
{
    if segments.len() > 0 {
        let head = segments.drop_last();
        assert forall|i: int| 0 <= i < head.len() implies (#[trigger] head[i]).slot != name by {
            assert(head[i] == segments[i]);
        }
        lemma_no_group(head, name);
        let slots = grouped(head);
        let last = segments.last();
        assert(segments[segments.len() - 1].slot != name);
        let after = with_segments(slots, last.slot, seq![last]);
        lemma_found(slots, last.slot, 0);
        lemma_found(slots, name, 0);
        lemma_found(after, name, 0);
        let w = slot_index(after, name, 0);
        if w < after.len() {
            if w < slots.len() {
                assert(slots[w].name == after[w].name);
            }
        }
    }
}

/// Nothing is made up: each segment of the result was there before, or is a prompt of
/// the preset that has a place, with what it was rendered to.
pub proof fn law_arranging_makes_nothing_up(
    preset: PromptPreset,
    segments: Seq<SegmentView>,
    renderings: Seq<Result<PresetRendering, PromptError>>,
    x: SegmentView,
)
    requires
        arranged(Some(preset), segments, renderings) is Ok,
        is_well_named(preset),
        arranged(Some(preset), segments, renderings)->Ok_0.contains(x),
    ensures
        segments.contains(x) || (gives_place(preset, x.slot) && exists|
            rendering: PresetRendering,
        |
            #[trigger] is_rendering(renderings, rendering) && is_own_segment(
                preset,
                x.slot,
                rendering,
                x,
            )),
{
    let order = order_views(preset.order@);
    let start = Arrangement {
        slots: merged(grouped(segments), order),
        used: Seq::empty(),
        ordered: Seq::empty(),
        asked: 0,
    };
    if x.source != "preset:"@ + x.slot {
        lemma_native_segments(preset, segments, renderings, x);
        lemma_count_outside(segments, x);
        lemma_count_outside(arranged(Some(preset), segments, renderings)->Ok_0, x);
    } else {
        lemma_grouped_holds(segments);
        lemma_merged_holds(preset, segments);
        lemma_places_hold(preset, segments, renderings, 0, start);
        match with_places(preset.prompts@, renderings, order, 0, start) {
            Arranged::Going(end) => {
                let rest = leftovers(end.slots, end.used, 0);
                lemma_chat_contains(end.ordered + rest, x);
                lemma_more(end.ordered, rest);
                if rest.contains(x) {
                    lemma_leftovers_hold(segments, end.slots, end.used, 0, x);
                }
            },
            _ => {},
        }
    }
}

/// Slots hold nothing but some of the segments.
spec fn hold(segments: Seq<SegmentView>, slots: Seq<Slot>) -> bool {
    forall|i: int, k: int|
        0 <= i < slots.len() && 0 <= k < slots[i].segments.len() ==> segments.contains(
            #[trigger] slots[i].segments[k],
        )
}

proof fn lemma_with_segments_holds(
    segments: Seq<SegmentView>,
    slots: Seq<Slot>,
    name: Seq<char>,
    more: Seq<SegmentView>,
)
    requires
        hold(segments, slots),
        forall|k: int| 0 <= k < more.len() ==> segments.contains(#[trigger] more[k]),
    ensures
        hold(segments, with_segments(slots, name, more)),
{
    let after = with_segments(slots, name, more);
    let at = slot_index(slots, name, 0);
    assert forall|i: int, k: int|
        0 <= i < after.len() && 0 <= k < after[i].segments.len() implies segments.contains(
        #[trigger] after[i].segments[k],
    ) by {
        if i == at && i < slots.len() {
            if k < slots[i].segments.len() {
                assert(after[i].segments[k] == slots[i].segments[k]);
            } else {
                assert(after[i].segments[k] == more[k - slots[i].segments.len()]);
            }
        } else if i < slots.len() {
            assert(after[i].segments[k] == slots[i].segments[k]);
        } else {
            assert(after[i].segments[k] == more[k]);
        }
    }
}

proof fn lemma_grouped_holds(segments: Seq<SegmentView>)
    ensures
        hold(segments, grouped(segments)),
    decreases segments.len(),
{
    if segments.len() > 0 {
        let head = segments.drop_last();
        let last = segments.last();
        lemma_grouped_holds(head);
        let slots = grouped(head);
        assert forall|i: int, k: int|
            0 <= i < slots.len() && 0 <= k < slots[i].segments.len() implies segments.contains(
            #[trigger] slots[i].segments[k],
        ) by {
            let x = slots[i].segments[k];
            let j = choose|j: int| 0 <= j < head.len() && head[j] == x;
            assert(segments[j] == x);
        }
        assert(segments.contains(last)) by {
            assert(segments[segments.len() - 1] == last);
        }
        lemma_with_segments_holds(segments, slots, last.slot, seq![last]);
    }
}

proof fn lemma_without_slot_holds(segments: Seq<SegmentView>, slots: Seq<Slot>, at: int)
    requires
        hold(segments, slots),
        0 <= at < slots.len(),
    ensures
        hold(segments, slots.remove(at)),
{
    let after = slots.remove(at);
    assert forall|i: int, k: int|
        0 <= i < after.len() && 0 <= k < after[i].segments.len() implies segments.contains(
        #[trigger] after[i].segments[k],
    ) by {
        let j = if i < at {
            i
        } else {
            i + 1
        };
        assert(after[i].segments[k] == slots[j].segments[k]);
    }
}

proof fn lemma_merged_holds(preset: PromptPreset, segments: Seq<SegmentView>)
    requires
        hold(segments, grouped(segments)),
    ensures
        hold(segments, merged(grouped(segments), order_views(preset.order@))),
{
    let slots = grouped(segments);
    let at = slot_index(slots, "userInput"@, 0);
    if 0 <= at < slots.len() {
        lemma_without_slot_holds(segments, slots, at);
        lemma_with_segments_holds(
            segments,
            slots.remove(at),
            "chatHistory"@,
            slots[at].segments,
        );
    }
}

/// A segment is one of those there were, or a prompt of the preset that has a place.
spec fn is_accounted_for(
    preset: PromptPreset,
    segments: Seq<SegmentView>,
    renderings: Seq<Result<PresetRendering, PromptError>>,
    x: SegmentView,
) -> bool {
    segments.contains(x) || (gives_place(preset, x.slot) && exists|rendering: PresetRendering|
     #[trigger]
        is_rendering(renderings, rendering) && is_own_segment(preset, x.slot, rendering, x))
}

proof fn lemma_places_hold(
    preset: PromptPreset,
    segments: Seq<SegmentView>,
    renderings: Seq<Result<PresetRendering, PromptError>>,
    i: int,
    arrangement: Arrangement,
)
    requires
        is_well_named(preset),
        0 <= i <= preset.order@.len(),
        hold(segments, arrangement.slots),
        forall|x: SegmentView| #[trigger]
            arrangement.ordered.contains(x) ==> is_accounted_for(preset, segments, renderings, x),
    ensures
        match with_places(
            preset.prompts@,
            renderings,
            order_views(preset.order@),
            i,
            arrangement,
        ) {
            Arranged::Going(end) => {
                &&& hold(segments, end.slots)
                &&& forall|x: SegmentView| #[trigger]
                    end.ordered.contains(x) ==> is_accounted_for(preset, segments, renderings, x)
            },
            _ => true,
        },
    decreases preset.order@.len() - i,
{
    let order = order_views(preset.order@);
    if i < order.len() {
        let place = order[i].identifier;
        let slots = arrangement.slots;
        let at = slot_index(slots, place, 0);
        lemma_own(preset, place);
        lemma_found(slots, place, 0);
        let rest = Arrangement { slots: slots.remove(at), ..arrangement };
        if order[i].enabled {
            assert(gives_place(preset, place)) by {
                assert(preset.order@[i].identifier@ == place);
            }
            if has_own(preset, place) {
                lemma_prompt_is_brought(preset, rest, renderings, place, true);
                lemma_prompt_is_brought(preset, arrangement, renderings, place, false);
            }
            if at < slots.len() {
                lemma_without_slot_holds(segments, slots, at);
                lemma_more(arrangement.ordered, slots[at].segments);
            }
        }
        match with_place(preset.prompts@, renderings, order[i], arrangement) {
            Arranged::Going(next) => {
                assert forall|x: SegmentView| #[trigger]
                    next.ordered.contains(x) implies is_accounted_for(
                    preset,
                    segments,
                    renderings,
                    x,
                ) by {
                    if !arrangement.ordered.contains(x) {
                        if at < slots.len() && slots[at].segments.contains(x) {
                            let k = choose|k: int|
                                0 <= k < slots[at].segments.len() && slots[at].segments[k] == x;
                            assert(segments.contains(slots[at].segments[k]));
                        }
                    }
                }
                lemma_places_hold(preset, segments, renderings, i + 1, next);
            },
            _ => {},
        }
    }
}

proof fn lemma_leftovers_hold(
    segments: Seq<SegmentView>,
    slots: Seq<Slot>,
    used: Seq<Seq<char>>,
    i: int,
    x: SegmentView,
)
    requires
        hold(segments, slots),
        0 <= i <= slots.len(),
        leftovers(slots, used, i).contains(x),
    ensures
        segments.contains(x),
    decreases slots.len() - i,
{
    if i < slots.len() {
        let rest = leftovers(slots, used, i + 1);
        lemma_more(slots[i].segments, rest);
        if rest.contains(x) {
            lemma_leftovers_hold(segments, slots, used, i + 1, x);
        } else {
            let k = choose|k: int|
                0 <= k < slots[i].segments.len() && slots[i].segments[k] == x;
            assert(segments.contains(slots[i].segments[k]));
        }
    }
}

proof fn lemma_ordered_grows(
    prompts: Seq<(String, PresetPrompt)>,
    renderings: Seq<Result<PresetRendering, PromptError>>,
    order: Seq<OrderView>,
    i: int,
    arrangement: Arrangement,
    x: SegmentView,
)
    requires
        arrangement.ordered.contains(x),
    ensures
        match with_places(prompts, renderings, order, i, arrangement) {
            Arranged::Going(end) => end.ordered.contains(x),
            _ => true,
        },
    decreases order.len() - i,
{
    if 0 <= i < order.len() {
        match with_place(prompts, renderings, order[i], arrangement) {
            Arranged::Going(next) => {
                let at = slot_index(arrangement.slots, order[i].identifier, 0);
                lemma_more(arrangement.ordered, arrangement.slots[at].segments);
                if arrangement.asked < renderings.len() {
                    let last = next.ordered.last();
                    lemma_push_contains(arrangement.ordered, last, x);
                }
                lemma_ordered_grows(prompts, renderings, order, i + 1, next, x);
            },
            _ => {},
        }
    }
}

proof fn lemma_asked_in_turn(
    prompts: Seq<(String, PresetPrompt)>,
    renderings: Seq<Result<PresetRendering, PromptError>>,
    more: Seq<Result<PresetRendering, PromptError>>,
    order: Seq<OrderView>,
    i: int,
    arrangement: Arrangement,
    identifier: Seq<char>,
    content: Seq<char>,
)
    requires
        0 <= i <= order.len(),
        arrangement.asked <= renderings.len(),
        renderings.is_prefix_of(more),
        renderings.len() < more.len(),
        with_places(prompts, renderings, order, i, arrangement) == Arranged::Wanting(
            identifier,
            content,
        ),
    ensures
        match more[renderings.len() as int] {
            Err(e) => with_places(prompts, more, order, i, arrangement) == Arranged::Failed(e),
            Ok(rendering) => match with_places(prompts, more, order, i, arrangement) {
                Arranged::Going(end) => !blank(rendering.rendered.content@) ==> exists|
                    x: SegmentView,
                |
                    #[trigger] end.ordered.contains(x) && x.source == "preset:"@ + identifier
                        && x.slot == identifier && x.raw_content == content && x.content
                        == rendering.rendered.content@ && x.token_count == rendering.token_count,
                _ => true,
            },
        },
    decreases order.len() - i,
{
    let now = with_place(prompts, renderings, order[i], arrangement);
    let later = with_place(prompts, more, order[i], arrangement);
    if arrangement.asked < renderings.len() {
        assert(renderings[arrangement.asked as int] == more[arrangement.asked as int]);
    }
    match now {
        Arranged::Going(next) => {
            assert(later == now);
            lemma_asked_in_turn(
                prompts,
                renderings,
                more,
                order,
                i + 1,
                next,
                identifier,
                content,
            );
        },
        Arranged::Wanting(_, _) => {
            assert(arrangement.asked == renderings.len());
            match more[renderings.len() as int] {
                Ok(rendering) => {
                    if !blank(rendering.rendered.content@) {
                        match later {
                            Arranged::Going(next) => {
                                let x = next.ordered.last();
                                assert(next.ordered[next.ordered.len() - 1] == x);
                                assert(next.ordered.contains(x));
                                lemma_ordered_grows(prompts, more, order, i + 1, next, x);
                            },
                            _ => {},
                        }
                    }
                },
                Err(_) => {},
            }
        },
        Arranged::Failed(_) => {},
    }
}

/// The prompt that is asked for is the one that gets the next rendering: it stands in
/// the result with it, and where it could not be rendered that is what is told.
pub proof fn law_the_prompt_asked_for_gets_the_rendering(
    preset: PromptPreset,
    segments: Seq<SegmentView>,
    renderings: Seq<Result<PresetRendering, PromptError>>,
    more: Seq<Result<PresetRendering, PromptError>>,
    identifier: Seq<char>,
    content: Seq<char>,
)
    requires
        renderings.is_prefix_of(more),
        renderings.len() < more.len(),
        arranged(Some(preset), segments, renderings) == Err::<Seq<SegmentView>, Arranged>(
            Arranged::Wanting(identifier, content),
        ),
    ensures
        match more[renderings.len() as int] {
            Err(e) => arranged(Some(preset), segments, more) == Err::<Seq<SegmentView>, Arranged>(
                Arranged::Failed(e),
            ),
            Ok(rendering) => match arranged(Some(preset), segments, more) {
                Ok(result) => !blank(rendering.rendered.content@) ==> exists|x: SegmentView|
                 #[trigger]
                    result.contains(x) && x.source == "preset:"@ + identifier && x.slot
                        == identifier && x.raw_content == content && x.content
                        == rendering.rendered.content@ && x.token_count == rendering.token_count,
                Err(_) => true,
            },
        },
{
    let order = order_views(preset.order@);
    let start = Arrangement {
        slots: merged(grouped(segments), order),
        used: Seq::empty(),
        ordered: Seq::empty(),
        asked: 0,
    };
    lemma_asked_in_turn(
        preset.prompts@,
        renderings,
        more,
        order,
        0,
        start,
        identifier,
        content,
    );
    match more[renderings.len() as int] {
        Ok(rendering) => {
            match with_places(preset.prompts@, more, order, 0, start) {
                Arranged::Going(end) => {
                    if !blank(rendering.rendered.content@) {
                        let x = choose|x: SegmentView| #[trigger]
                            end.ordered.contains(x) && x.source == "preset:"@ + identifier
                                && x.slot == identifier && x.raw_content == content && x.content
                                == rendering.rendered.content@ && x.token_count
                                == rendering.token_count;
                        let rest = leftovers(end.slots, end.used, 0);
                        lemma_more(end.ordered, rest);
                        lemma_chat_contains(end.ordered + rest, x);
                        let result = arranged(Some(preset), segments, more)->Ok_0;
                        assert(result.contains(x));
                    }
                },
                _ => {},
            }
        },
        Err(_) => {},
    }
}

/// No slot has two places in the order.
pub open spec fn has_single_places(preset: PromptPreset) -> bool {
    forall|i: int, j: int|
        0 <= i < j < preset.order@.len() ==> (#[trigger] preset.order@[i]).identifier@ != (
        #[trigger] preset.order@[j]).identifier@
}

/// One of the first `count` places is that of a slot, and enabled.
spec fn has_place(order: Seq<OrderView>, count: int, name: Seq<char>) -> bool {
    exists|j: int|
        0 <= j < count && (#[trigger] order[j]).identifier == name && order[j].enabled
}

/// The segments so far come in the order of the first `count` places.
spec fn follow(
    order: Seq<OrderView>,
    joined: bool,
    ordered: Seq<SegmentView>,
    count: int,
) -> bool {
    &&& forall|x: int|
        0 <= x < ordered.len() ==> has_place(
            order,
            count,
            home(joined, (#[trigger] ordered[x]).slot),
        )
    &&& forall|x: int, y: int, a: int, b: int|
        0 <= x <= y < ordered.len() && 0 <= a < order.len() && 0 <= b < order.len()
            && (#[trigger] order[a]).identifier == home(joined, (#[trigger] ordered[x]).slot)
            && (#[trigger] order[b]).identifier == home(joined, (#[trigger] ordered[y]).slot)
            ==> a <= b
}

proof fn lemma_follow_on(
    order: Seq<OrderView>,
    joined: bool,
    ordered: Seq<SegmentView>,
    i: int,
    more: Seq<SegmentView>,
)
    requires
        follow(order, joined, ordered, i),
        0 <= i < order.len(),
        order[i].enabled,
        forall|a: int, b: int|
            0 <= a < b < order.len() ==> (#[trigger] order[a]).identifier != (
            #[trigger] order[b]).identifier,
        forall|k: int|
            0 <= k < more.len() ==> home(joined, (#[trigger] more[k]).slot)
                == order[i].identifier,
    ensures
        follow(order, joined, ordered + more, i + 1),
{
    let all = ordered + more;
    assert forall|x: int| 0 <= x < all.len() implies has_place(
        order,
        i + 1,
        home(joined, (#[trigger] all[x]).slot),
    ) by {
        if x < ordered.len() {
            assert(all[x] == ordered[x]);
            let j = choose|j: int|
                0 <= j < i && (#[trigger] order[j]).identifier == home(joined, ordered[x].slot)
                    && order[j].enabled;
            assert(order[j].identifier == home(joined, all[x].slot));
        } else {
            assert(all[x] == more[x - ordered.len()]);
            assert(order[i].identifier == home(joined, all[x].slot));
        }
    }
    assert forall|x: int, y: int, a: int, b: int|
        0 <= x <= y < all.len() && 0 <= a < order.len() && 0 <= b < order.len() && (
        #[trigger] order[a]).identifier == home(joined, (#[trigger] all[x]).slot) && (
        #[trigger] order[b]).identifier == home(joined, (#[trigger] all[y]).slot) implies a
        <= b by {
        if y < ordered.len() {
            assert(all[x] == ordered[x] && all[y] == ordered[y]);
        } else {
            assert(all[y] == more[y - ordered.len()]);
            assert(order[b].identifier == order[i].identifier);
            if b < i {
                assert(order[b].identifier != order[i].identifier);
            } else if i < b {
                assert(order[i].identifier != order[b].identifier);
            }
            if x < ordered.len() {
                assert(all[x] == ordered[x]);
                let j = choose|j: int|
                    0 <= j < i && (#[trigger] order[j]).identifier == home(
                        joined,
                        ordered[x].slot,
                    ) && order[j].enabled;
                if a > j {
                    assert(order[j].identifier != order[a].identifier);
                }
            } else {
                assert(all[x] == more[x - ordered.len()]);
                if a > i {
                    assert(order[i].identifier != order[a].identifier);
                }
            }
        }
    }
}

proof fn lemma_follow_further(
    order: Seq<OrderView>,
    joined: bool,
    ordered: Seq<SegmentView>,
    i: int,
)
    requires
        follow(order, joined, ordered, i),
    ensures
        follow(order, joined, ordered, i + 1),
{
    assert forall|x: int| 0 <= x < ordered.len() implies has_place(
        order,
        i + 1,
        home(joined, (#[trigger] ordered[x]).slot),
    ) by {
        let j = choose|j: int|
            0 <= j < i && (#[trigger] order[j]).identifier == home(joined, ordered[x].slot)
                && order[j].enabled;
        assert(order[j].enabled);
    }
}

proof fn lemma_places_follow(
    preset: PromptPreset,
    renderings: Seq<Result<PresetRendering, PromptError>>,
    i: int,
    arrangement: Arrangement,
)
    requires
        is_well_named(preset),
        has_single_places(preset),
        0 <= i <= preset.order@.len(),
        are_tidy(arrangement.slots, joins_input(preset)),
        follow(order_views(preset.order@), joins_input(preset), arrangement.ordered, i),
    ensures
        match with_places(
            preset.prompts@,
            renderings,
            order_views(preset.order@),
            i,
            arrangement,
        ) {
            Arranged::Going(end) => follow(
                order_views(preset.order@),
                joins_input(preset),
                end.ordered,
                preset.order@.len() as int,
            ),
            _ => true,
        },
    decreases preset.order@.len() - i,
{
    let order = order_views(preset.order@);
    let joined = joins_input(preset);
    if i < order.len() {
        let place = order[i].identifier;
        let slots = arrangement.slots;
        let at = slot_index(slots, place, 0);
        lemma_own(preset, place);
        lemma_found(slots, place, 0);
        assert forall|a: int, b: int| 0 <= a < b < order.len() implies (
        #[trigger] order[a]).identifier != (#[trigger] order[b]).identifier by {
            assert(preset.order@[a].identifier@ != preset.order@[b].identifier@);
        }
        if order[i].enabled {
            assert(gives_place(preset, place)) by {
                assert(preset.order@[i].identifier@ == place);
            }
            assert(home(joined, place) == place);
        }
        match with_place(preset.prompts@, renderings, order[i], arrangement) {
            Arranged::Going(next) => {
                if !order[i].enabled || next.ordered == arrangement.ordered {
                    lemma_follow_further(order, joined, arrangement.ordered, i);
                } else if at < slots.len() && next.ordered == arrangement.ordered
                    + slots[at].segments {
                    assert forall|k: int| 0 <= k < slots[at].segments.len() implies home(
                        joined,
                        (#[trigger] slots[at].segments[k]).slot,
                    ) == place by {
                        assert(slots[at].name == place);
                    }
                    lemma_follow_on(order, joined, arrangement.ordered, i, slots[at].segments);
                } else {
                    let last = next.ordered.last();
                    assert(next.ordered =~= arrangement.ordered + seq![last]);
                    lemma_follow_on(order, joined, arrangement.ordered, i, seq![last]);
                }
                if order[i].enabled && at < slots.len() {
                    lemma_without_slot(slots, joined, at, arbitrary(), place);
                }
                lemma_places_follow(preset, renderings, i + 1, next);
            },
            _ => {},
        }
    }
}

/// The segments come in the order of the preset's places: what belongs to an earlier
/// place stands in front of what belongs to a later one.
pub proof fn law_segments_follow_the_order(
    preset: PromptPreset,
    segments: Seq<SegmentView>,
    renderings: Seq<Result<PresetRendering, PromptError>>,
    i: int,
    j: int,
    x: int,
    y: int,
)
    requires
        arranged(Some(preset), segments, renderings) is Ok,
        is_well_named(preset),
        has_single_places(preset),
        forall|k: int| 0 <= k < segments.len() ==> (#[trigger] segments[k]).in_chat_depth is None,
        forall|k: int|
            0 <= k < preset.prompts@.len() ==> (
            #[trigger] preset.prompts@[k]).1.in_chat_depth is None,
        0 <= i < j < preset.order@.len(),
        preset.order@[i].enabled,
        preset.order@[j].enabled,
        0 <= x < arranged(Some(preset), segments, renderings)->Ok_0.len(),
        0 <= y < arranged(Some(preset), segments, renderings)->Ok_0.len(),
        arranged(Some(preset), segments, renderings)->Ok_0[x].slot
            == preset.order@[i].identifier@,
        arranged(Some(preset), segments, renderings)->Ok_0[y].slot
            == preset.order@[j].identifier@,
    ensures
        x < y,
{
    let order = order_views(preset.order@);
    let joined = joins_input(preset);
    let start = Arrangement {
        slots: merged(grouped(segments), order),
        used: Seq::empty(),
        ordered: Seq::empty(),
        asked: 0,
    };
    lemma_start(preset, segments, arbitrary(), arbitrary());
    lemma_places_follow(preset, renderings, 0, start);
    lemma_grouped_holds(segments);
    lemma_merged_holds(preset, segments);
    lemma_places_hold(preset, segments, renderings, 0, start);
    match with_places(preset.prompts@, renderings, order, 0, start) {
        Arranged::Going(end) => {
            let rest = leftovers(end.slots, end.used, 0);
            let all = end.ordered + rest;
            assert forall|k: int| 0 <= k < all.len() implies (
            #[trigger] all[k]).in_chat_depth is None by {
                let s = all[k];
                if k < end.ordered.len() {
                    assert(end.ordered[k] == s);
                    assert(end.ordered.contains(s));
                    assert(is_accounted_for(preset, segments, renderings, s));
                } else {
                    assert(rest[k - end.ordered.len()] == s);
                    assert(rest.contains(s));
                    lemma_leftovers_hold(segments, end.slots, end.used, 0, s);
                }
            }
            law_plain_segments_stay(all);
            assert(order[i].identifier == preset.order@[i].identifier@);
            assert(order[j].identifier == preset.order@[j].identifier@);
            assert(gives_place(preset, order[i].identifier));
            assert(gives_place(preset, order[j].identifier));
            lemma_order_places(preset, order[i].identifier);
            lemma_order_places(preset, order[j].identifier);
            lemma_rest_has_no_place(preset, segments, renderings, start, end, all[x]);
            lemma_rest_has_no_place(preset, segments, renderings, start, end, all[y]);
            if x >= end.ordered.len() {
                assert(rest[x - end.ordered.len()] == all[x]);
                assert(rest.contains(all[x]));
            }
            if y >= end.ordered.len() {
                assert(rest[y - end.ordered.len()] == all[y]);
                assert(rest.contains(all[y]));
            }
            assert(all[x] == end.ordered[x] && all[y] == end.ordered[y]);
            if y <= x {
                assert(order[j].identifier == home(joined, end.ordered[y].slot));
                assert(order[i].identifier == home(joined, end.ordered[x].slot));
            }
        },
        _ => {},
    }
}

/// What is left over belongs to no enabled place.
proof fn lemma_rest_has_no_place(
    preset: PromptPreset,
    segments: Seq<SegmentView>,
    renderings: Seq<Result<PresetRendering, PromptError>>,
    start: Arrangement,
    end: Arrangement,
    x: SegmentView,
)
    requires
        start.slots == merged(grouped(segments), order_views(preset.order@)),
        start.ordered.len() == 0,
        with_places(preset.prompts@, renderings, order_views(preset.order@), 0, start)
            == Arranged::Going(end),
        gives_place(preset, x.slot),
    ensures
        !leftovers(end.slots, end.used, 0).contains(x),
{
    let joined = joins_input(preset);
    let order = order_views(preset.order@);
    lemma_start(preset, segments, x, x.slot);
    lemma_order_places(preset, x.slot);
    assert(home(joined, x.slot) == x.slot);
    lemma_slot_is_taken(preset.prompts@, renderings, order, 0, start, joined, x.slot);
    if leftovers(end.slots, end.used, 0).contains(x) {
        lemma_leftover_has_slot(end.slots, end.used, 0, joined, x);
    }
}

proof fn lemma_slot_is_taken(
    prompts: Seq<(String, PresetPrompt)>,
    renderings: Seq<Result<PresetRendering, PromptError>>,
    order: Seq<OrderView>,
    i: int,
    arrangement: Arrangement,
    joined: bool,
    name: Seq<char>,
)
    requires
        are_tidy(arrangement.slots, joined),
        0 <= i <= order.len(),
    ensures
        match with_places(prompts, renderings, order, i, arrangement) {
            Arranged::Going(end) => {
                &&& are_tidy(end.slots, joined)
                &&& places_from(order, i, name, true) || slot_index(arrangement.slots, name, 0)
                    >= arrangement.slots.len() ==> slot_index(end.slots, name, 0)
                    >= end.slots.len()
            },
            _ => true,
        },
    decreases order.len() - i,
{
    if i < order.len() {
        let slots = arrangement.slots;
        let place = order[i].identifier;
        let at = slot_index(slots, place, 0);
        lemma_found(slots, place, 0);
        lemma_found(slots, name, 0);
        lemma_places_step(order, i, name, true);
        match with_place(prompts, renderings, order[i], arrangement) {
            Arranged::Going(next) => {
                if order[i].enabled && at < slots.len() {
                    lemma_without_slot(slots, joined, at, arbitrary(), name);
                    if slot_index(slots, name, 0) >= slots.len() {
                        lemma_found(next.slots, name, 0);
                        let w = slot_index(next.slots, name, 0);
                        if w < next.slots.len() {
                            let back = if w < at {
                                w
                            } else {
                                w + 1
                            };
                            assert(next.slots[w] == slots[back]);
                            assert(slots[back].name == name);
                        }
                    }
                }
                lemma_slot_is_taken(prompts, renderings, order, i + 1, next, joined, name);
            },
            _ => {},
        }
    }
}

proof fn lemma_leftover_has_slot(
    slots: Seq<Slot>,
    used: Seq<Seq<char>>,
    i: int,
    joined: bool,
    x: SegmentView,
)
    requires
        are_tidy(slots, joined),
        0 <= i <= slots.len(),
        leftovers(slots, used, i).contains(x),
    ensures
        slot_index(slots, home(joined, x.slot), 0) < slots.len(),
    decreases slots.len() - i,
{
    if i < slots.len() {
        let rest = leftovers(slots, used, i + 1);
        lemma_more(slots[i].segments, rest);
        if rest.contains(x) {
            lemma_leftover_has_slot(slots, used, i + 1, joined, x);
        } else {
            let k = choose|k: int|
                0 <= k < slots[i].segments.len() && slots[i].segments[k] == x;
            assert(home(joined, slots[i].segments[k].slot) == slots[i].name);
            lemma_found_at(slots, joined, slots[i].name, i);
        }
    }
}

} // verus!
