//! A closer look at segments of a prompt.
use vstd::prelude::*;

use crate::lore::groups::index_views;
use crate::macros::effects::lemma_decimal;
use crate::macros::render::{evaluations_view, MacroEvaluation};
use crate::macros::replies::{numeral_value, read_unsigned};
use crate::prompt::segment::{
    application_views, copy_applications, copy_evaluations, copy_mutations, mutation_views,
    PromptSegment, RegexScriptApplication, segment_views, SegmentView, StateMutation,
};
use crate::text::{self, decimal};
use crate::turn::PromptPlan;

verus! {

/// The segments that a selector picks.
#[derive(Clone, Debug, Eq, PartialEq)]
pub struct PromptSegmentInspection {
    pub selector: String,
    pub segments: Vec<PromptSegmentDetail>,
}

/// A segment with its place in the prompt and how it came about.
#[derive(Clone, Debug, Eq, PartialEq)]
pub struct PromptSegmentDetail {
    pub index: usize,
    pub segment: PromptSegment,
    pub transformations: PromptSegmentTransformations,
}

/// How a segment came about.
#[derive(Clone, Debug, Eq, PartialEq)]
pub struct PromptSegmentTransformations {
    pub macro_evaluations: Vec<MacroEvaluation>,
    pub regex_applications: Vec<RegexScriptApplication>,
    pub state_mutations: Vec<StateMutation>,
}

/// The places of those of the first `count` segments that stand in a slot.
pub open spec fn places_in_slot(segments: Seq<SegmentView>, slot: Seq<char>, count: int) -> Seq<
    int,
>
    decreases count,
{
    if count <= 0 {
        Seq::empty()
    } else if segments[count - 1].slot == slot {
        places_in_slot(segments, slot, count - 1).push(count - 1)
    } else {
        places_in_slot(segments, slot, count - 1)
    }
}

/// The places that a selector picks: those of a slot, or else the one that the
/// selector numbers.
pub open spec fn selected_places(segments: Seq<SegmentView>, selector: Seq<char>) -> Seq<int> {
    let in_slot = places_in_slot(segments, selector, segments.len() as int);
    if in_slot.len() > 0 {
        in_slot
    } else {
        match numeral_value(selector, false) {
            Some(index) => if index < segments.len() {
                seq![index]
            } else {
                Seq::empty()
            },
            None => Seq::empty(),
        }
    }
}

/// A closer look at the segment at a place.
pub open spec fn is_detail(
    detail: PromptSegmentDetail,
    segments: Seq<SegmentView>,
    index: int,
) -> bool {
    &&& detail.index == index
    &&& detail.segment@ == segments[index]
    &&& evaluations_view(detail.transformations.macro_evaluations@)
        == segments[index].macro_evaluations
    &&& application_views(detail.transformations.regex_applications@)
        == segments[index].regex_applications
    &&& mutation_views(detail.transformations.state_mutations@) == segments[index].state_mutations
}

fn find_places(segments: &Vec<PromptSegment>, selector: &str) -> (places: Vec<usize>)
    ensures
        index_views(places@) == selected_places(segment_views(segments@), selector@),
        forall|i: int| 0 <= i < places@.len() ==> #[trigger] places@[i] < segments@.len(),
{
    let ghost all = segment_views(segments@);
    let mut places: Vec<usize> = Vec::new();
    let mut i: usize = 0;
    proof {
        assert(index_views(places@) =~= Seq::<int>::empty());
    }
    while i < segments.len()
        invariant
            i <= segments@.len(),
            all == segment_views(segments@),
            index_views(places@) == places_in_slot(all, selector@, i as int),
            forall|j: int| 0 <= j < places@.len() ==> #[trigger] places@[j] < segments@.len(),
        decreases segments@.len() - i,
    {
        proof {
            assert(all[i as int] == segments@[i as int]@);
        }
        if text::same(segments[i].slot.as_str(), selector) {
            let ghost before = places@;
            places.push(i);
            proof {
                assert(index_views(places@) =~= index_views(before).push(i as int));
            }
        }
        i = i + 1;
    }
    proof {
        assert(index_views(places@).len() == places@.len());
    }
    if places.len() == 0 {
        if let Some(index) = read_unsigned(selector, u64::MAX) {
            if index < segments.len() as u64 {
                places.push(index as usize);
                proof {
                    assert(index_views(places@) =~= seq![index as int]);
                }
            }
        }
    }
    places
}

/// A closer look at the segments that a selector picks, if it picks any.
pub open spec fn is_inspection(
    inspection: Option<PromptSegmentInspection>,
    plan: PromptPlan,
    selector: Seq<char>,
) -> bool {
    let segments = segment_views(plan.segments@);
    let places = selected_places(segments, selector);
    match inspection {
        Some(found) => {
            &&& places.len() > 0
            &&& found.selector@ == selector
            &&& found.segments@.len() == places.len()
            &&& forall|i: int|
                0 <= i < places.len() ==> is_detail(
                    #[trigger] found.segments@[i],
                    segments,
                    places[i],
                )
        },
        None => places.len() == 0,
    }
}

impl PromptPlan {
    /// A closer look at the segments that a selector picks, if it picks any.
    pub fn inspect_segments(&self, selector: &str) -> (inspection: Option<PromptSegmentInspection>)
        ensures
            is_inspection(inspection, *self, selector@),
    {
        let places = find_places(&self.segments, selector);
        let ghost segments = segment_views(self.segments@);
        let ghost all = index_views(places@);
        proof {
            assert(all.len() == places@.len());
        }
        if places.len() == 0 {
            return None;
        }
        let mut details: Vec<PromptSegmentDetail> = Vec::new();
        let mut i: usize = 0;
        while i < places.len()
            invariant
                i <= places@.len(),
                all == index_views(places@),
                segments == segment_views(self.segments@),
                forall|j: int|
                    0 <= j < places@.len() ==> #[trigger] places@[j] < self.segments@.len(),
                details@.len() == i,
                forall|j: int|
                    0 <= j < i ==> is_detail(#[trigger] details@[j], segments, all[j]),
            decreases places@.len() - i,
        {
            let index: usize = places[i];
            let segment = &self.segments[index];
            proof {
                assert(segments[index as int] == segment@);
                assert(all[i as int] == index);
            }
            details.push(
                PromptSegmentDetail {
                    index,
                    segment: segment.copy(),
                    transformations: PromptSegmentTransformations {
                        macro_evaluations: copy_evaluations(&segment.macro_evaluations),
                        regex_applications: copy_applications(&segment.regex_applications),
                        state_mutations: copy_mutations(&segment.state_mutations),
                    },
                },
            );
            i = i + 1;
        }
        Some(PromptSegmentInspection { selector: selector.to_owned(), segments: details })
    }
}

proof fn lemma_places(segments: Seq<SegmentView>, slot: Seq<char>, count: int)
    requires
        0 <= count <= segments.len(),
    ensures
        forall|i: int|
            0 <= i < count && (#[trigger] segments[i]).slot == slot ==> places_in_slot(
                segments,
                slot,
                count,
            ).contains(i),
        forall|k: int|
            0 <= k < places_in_slot(segments, slot, count).len() ==> 0 <= #[trigger]
            places_in_slot(segments, slot, count)[k] < count && segments[places_in_slot(
                segments,
                slot,
                count,
            )[k]].slot == slot,
        forall|a: int, b: int|
            0 <= a < b < places_in_slot(segments, slot, count).len() ==> #[trigger] places_in_slot(
                segments,
                slot,
                count,
            )[a] < #[trigger] places_in_slot(segments, slot, count)[b],
    decreases count,
{
    if count > 0 {
        lemma_places(segments, slot, count - 1);
        let head = places_in_slot(segments, slot, count - 1);
        let all = places_in_slot(segments, slot, count);
        assert forall|i: int|
            0 <= i < count && (#[trigger] segments[i]).slot == slot implies all.contains(i) by {
            if i < count - 1 {
                let k = choose|k: int| 0 <= k < head.len() && head[k] == i;
                assert(all[k] == i);
            } else {
                assert(all[head.len() as int] == i);
            }
        }
    }
}

/// A selector that names a slot picks the segments of that slot, all of them, in
/// order.
pub proof fn law_slots_are_picked_whole(segments: Seq<SegmentView>, selector: Seq<char>, at: int)
    requires
        0 <= at < segments.len(),
        segments[at].slot == selector,
    ensures
        selected_places(segments, selector).contains(at),
        forall|k: int|
            0 <= k < selected_places(segments, selector).len() ==> 0 <= #[trigger]
            selected_places(segments, selector)[k] < segments.len() && segments[selected_places(
                segments,
                selector,
            )[k]].slot == selector,
        forall|a: int, b: int|
            0 <= a < b < selected_places(segments, selector).len() ==> #[trigger]
            selected_places(segments, selector)[a] < #[trigger] selected_places(
                segments,
                selector,
            )[b],
{
    lemma_places(segments, selector, segments.len() as int);
    let places = places_in_slot(segments, selector, segments.len() as int);
    assert(segments[at].slot == selector);
    assert(places.contains(at));
    assert(places.len() > 0);
}

/// A selector that names no slot picks by number, if there is a segment of that number.
pub proof fn law_numbers_pick_one(segments: Seq<SegmentView>, n: nat)
    requires
        forall|i: int| 0 <= i < segments.len() ==> (#[trigger] segments[i]).slot != decimal(n),
    ensures
        n < segments.len() ==> selected_places(segments, decimal(n)) == seq![n as int],
        n >= segments.len() ==> selected_places(segments, decimal(n)).len() == 0,
{
    lemma_places(segments, decimal(n), segments.len() as int);
    lemma_decimal(n);
    let places = places_in_slot(segments, decimal(n), segments.len() as int);
    if places.len() > 0 {
        assert(segments[places[0]].slot == decimal(n));
    }
}

} // verus!
