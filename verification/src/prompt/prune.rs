//! Pruning a prompt until it fits its limit.
use vstd::prelude::*;

use crate::lore::groups::index_views;
use crate::prompt::segment::{PromptError, PromptSegment, segment_views, SegmentView};
use crate::text::{self, begins_with, from_range, starts_with, to_chars};

verus! {

/// What a prompt was pruned to.
#[derive(Clone, Copy, Debug, Eq, PartialEq, Structural)]
pub struct PromptPruning {
    pub context_limit: usize,
    pub response_reserve: usize,
    pub prompt_limit: usize,
    pub kept_tokens: usize,
    pub pruned_tokens: usize,
}

/// The last position before `end` at which `c` stands.
pub open spec fn last_char(text: Seq<char>, c: char, end: int) -> Option<int>
    decreases end,
{
    if end <= 0 || end > text.len() {
        None
    } else if text[end - 1] == c {
        Some(end - 1)
    } else {
        last_char(text, c, end - 1)
    }
}

/// What is pruned together: the segments of one turn, or those of one source.
pub open spec fn group_of(source: Seq<char>) -> Seq<char> {
    if begins_with(source, "turn:"@) {
        let turn = source.skip(5);
        match last_char(turn, ':', turn.len() as int) {
            Some(at) => "turn:"@ + turn.take(at),
            None => "turn:"@ + turn,
        }
    } else {
        source
    }
}

/// A segment that may be pruned.
pub open spec fn prunable(segment: SegmentView) -> bool {
    segment.truncation_priority != u32::MAX
}

/// A segment that is pruned together with those of a group.
pub open spec fn belongs(segment: SegmentView, group: Seq<char>) -> bool {
    prunable(segment) && group_of(segment.source) == group
}

/// The lowest priority among the first `count` segments of a group.
pub open spec fn group_priority(segments: Seq<SegmentView>, group: Seq<char>, count: int) -> u32
    decreases count,
{
    if count <= 0 {
        u32::MAX
    } else {
        let head = group_priority(segments, group, count - 1);
        let priority = segments[count - 1].truncation_priority;
        if belongs(segments[count - 1], group) && priority < head {
            priority
        } else {
            head
        }
    }
}

/// One of the first `count` segments is of a group.
pub open spec fn has_member(segments: Seq<SegmentView>, group: Seq<char>, count: int) -> bool {
    exists|i: int| 0 <= i < count && belongs(#[trigger] segments[i], group)
}

/// The group of the segment at a place.
pub open spec fn group_at(segments: Seq<SegmentView>, index: int) -> Seq<char> {
    group_of(segments[index].source)
}

/// Where a group goes among others, each told by the first of its segments:
/// behind all at the end whose priority is not higher.
pub open spec fn group_slot(segments: Seq<SegmentView>, leaders: Seq<int>, priority: u32) -> int
    decreases leaders.len(),
{
    if leaders.len() > 0 && priority < group_priority(
        segments,
        group_at(segments, leaders.last()),
        segments.len() as int,
    ) {
        group_slot(segments, leaders.drop_last(), priority)
    } else {
        leaders.len() as int
    }
}

/// The groups of the first `count` segments, each told by the first of its
/// segments, those of lower priority first and of these the earlier one first.
pub open spec fn group_order(segments: Seq<SegmentView>, count: int) -> Seq<int>
    decreases count,
{
    if count <= 0 {
        Seq::empty()
    } else {
        let head = group_order(segments, count - 1);
        let index = count - 1;
        let group = group_at(segments, index);
        if prunable(segments[index]) && !has_member(segments, group, index) {
            head.insert(
                group_slot(
                    segments,
                    head,
                    group_priority(segments, group, segments.len() as int),
                ),
                index,
            )
        } else {
            head
        }
    }
}

/// A segment as it is once a group is pruned.
pub open spec fn pruned_segment(segment: SegmentView, group: Seq<char>) -> SegmentView {
    if belongs(segment, group) {
        SegmentView { pruned: true, ..segment }
    } else {
        segment
    }
}

/// The segments once those of a group among the first `count` are pruned.
pub open spec fn without_group(segments: Seq<SegmentView>, group: Seq<char>, count: int) -> Seq<
    SegmentView,
> {
    Seq::new(
        segments.len(),
        |i: int|
            if i < count {
                pruned_segment(segments[i], group)
            } else {
                segments[i]
            },
    )
}

/// The tokens that pruning a group frees among the first `count` segments.
pub open spec fn freed(segments: Seq<SegmentView>, group: Seq<char>, count: int) -> nat
    decreases count,
{
    if count <= 0 {
        0
    } else {
        freed(segments, group, count - 1) + if belongs(segments[count - 1], group)
            && !segments[count - 1].pruned {
            segments[count - 1].token_count as nat
        } else {
            0
        }
    }
}

/// The tokens of the first `count` segments.
pub open spec fn tokens_of(segments: Seq<SegmentView>, count: int) -> nat
    decreases count,
{
    if count <= 0 {
        0
    } else {
        tokens_of(segments, count - 1) + segments[count - 1].token_count as nat
    }
}

/// The tokens of those of the first `count` segments that are not pruned.
pub open spec fn open_tokens(segments: Seq<SegmentView>, count: int) -> nat
    decreases count,
{
    if count <= 0 {
        0
    } else {
        open_tokens(segments, count - 1) + if segments[count - 1].pruned {
            0
        } else {
            segments[count - 1].token_count as nat
        }
    }
}

/// The difference of two sizes, or zero where that is negative.
pub open spec fn less_by(size: nat, by: nat) -> nat {
    if by <= size {
        (size - by) as nat
    } else {
        0
    }
}

/// How far pruning has come.
pub struct Pruned {
    pub segments: Seq<SegmentView>,
    pub kept: nat,
    pub dropped: nat,
}

/// What pruning the groups from place `k` on comes to, as long as more is kept
/// than the limit.
pub open spec fn pruned_from(pruned: Pruned, order: Seq<int>, k: int, limit: nat) -> Pruned
    decreases order.len() - k,
{
    if k < 0 || k >= order.len() || pruned.kept <= limit {
        pruned
    } else {
        let count = pruned.segments.len() as int;
        let group = group_at(pruned.segments, order[k]);
        let tokens = freed(pruned.segments, group, count);
        pruned_from(
            Pruned {
                segments: without_group(pruned.segments, group, count),
                kept: less_by(pruned.kept, tokens),
                dropped: pruned.dropped + tokens,
            },
            order,
            k + 1,
            limit,
        )
    }
}

/// What pruning comes to.
pub open spec fn pruned_to(segments: Seq<SegmentView>, limit: nat) -> Pruned {
    pruned_from(
        Pruned { segments, kept: tokens_of(segments, segments.len() as int), dropped: 0 },
        group_order(segments, segments.len() as int),
        0,
        limit,
    )
}

pub(crate) fn find_last_char(chars: &Vec<char>, c: char) -> (at: Option<usize>)
    ensures
        match at {
            Some(i) => last_char(chars@, c, chars@.len() as int) == Some(i as int) && i
                < chars@.len(),
            None => last_char(chars@, c, chars@.len() as int) is None,
        },
{
    let mut end: usize = chars.len();
    while end > 0
        invariant
            end <= chars@.len(),
            last_char(chars@, c, chars@.len() as int) == last_char(chars@, c, end as int),
        decreases end,
    {
        if chars[end - 1] == c {
            return Some(end - 1);
        }
        end = end - 1;
    }
    None
}

fn find_group(source: &str) -> (group: String)
    ensures
        group@ == group_of(source@),
{
    if !starts_with(source, "turn:") {
        return source.to_owned();
    }
    proof {
        reveal_strlit("turn:");
        assert(source@.take(5) == "turn:"@);
        assert(source@.take(5) + source@.skip(5) =~= source@);
    }
    let chars = to_chars(source);
    let mut turn: Vec<char> = Vec::new();
    let mut i: usize = 5;
    while i < chars.len()
        invariant
            5 <= i <= chars@.len(),
            turn@ == chars@.subrange(5, i as int),
        decreases chars@.len() - i,
    {
        turn.push(chars[i]);
        i = i + 1;
        proof {
            assert(turn@ =~= chars@.subrange(5, i as int));
        }
    }
    proof {
        assert(turn@ =~= source@.skip(5));
    }
    match find_last_char(&turn, ':') {
        Some(at) => {
            let mut group = "turn:".to_owned();
            let head = from_range(&turn, 0, at);
            proof {
                assert(head@ =~= turn@.take(at as int));
            }
            group.push_str(head.as_str());
            group
        },
        None => source.to_owned(),
    }
}

fn check_belongs(segment: &PromptSegment, group: &str) -> (r: bool)
    ensures
        r == belongs(segment@, group@),
{
    if segment.truncation_priority == u32::MAX {
        return false;
    }
    let own = find_group(segment.source.as_str());
    text::same(own.as_str(), group)
}

fn find_priority(segments: &Vec<PromptSegment>, group: &str) -> (priority: u32)
    ensures
        priority == group_priority(segment_views(segments@), group@, segments@.len() as int),
{
    let ghost all = segment_views(segments@);
    let mut priority: u32 = u32::MAX;
    let mut i: usize = 0;
    while i < segments.len()
        invariant
            i <= segments@.len(),
            all == segment_views(segments@),
            priority == group_priority(all, group@, i as int),
        decreases segments@.len() - i,
    {
        proof {
            assert(all[i as int] == segments@[i as int]@);
        }
        if segments[i].truncation_priority < priority && check_belongs(&segments[i], group) {
            priority = segments[i].truncation_priority;
        }
        i = i + 1;
    }
    priority
}

fn check_member(segments: &Vec<PromptSegment>, group: &str, count: usize) -> (r: bool)
    requires
        count <= segments@.len(),
    ensures
        r == has_member(segment_views(segments@), group@, count as int),
{
    let ghost all = segment_views(segments@);
    let mut i: usize = 0;
    while i < count
        invariant
            i <= count <= segments@.len(),
            all == segment_views(segments@),
            forall|j: int| 0 <= j < i ==> !belongs(#[trigger] all[j], group@),
        decreases count - i,
    {
        proof {
            assert(all[i as int] == segments@[i as int]@);
        }
        if check_belongs(&segments[i], group) {
            return true;
        }
        i = i + 1;
    }
    false
}

/// The places are those of segments.
spec fn places_fit(places: Seq<usize>, count: nat) -> bool {
    forall|i: int| 0 <= i < places.len() ==> #[trigger] places[i] < count
}

fn order_groups(segments: &Vec<PromptSegment>) -> (order: Vec<usize>)
    ensures
        index_views(order@) == group_order(segment_views(segments@), segments@.len() as int),
        places_fit(order@, segments@.len()),
{
    let ghost all = segment_views(segments@);
    let mut order: Vec<usize> = Vec::new();
    let mut i: usize = 0;
    proof {
        assert(index_views(order@) =~= Seq::<int>::empty());
    }
    while i < segments.len()
        invariant
            i <= segments@.len(),
            all == segment_views(segments@),
            index_views(order@) == group_order(all, i as int),
            places_fit(order@, segments@.len()),
        decreases segments@.len() - i,
    {
        proof {
            assert(all[i as int] == segments@[i as int]@);
        }
        let group = find_group(segments[i].source.as_str());
        if segments[i].truncation_priority != u32::MAX && !check_member(
            segments,
            group.as_str(),
            i,
        ) {
            let priority: u32 = find_priority(segments, group.as_str());
            let ghost head = index_views(order@);
            let ghost before = order@;
            let mut at: usize = order.len();
            proof {
                assert(head.take(at as int) =~= head);
            }
            while at > 0 && priority < priority_at(segments, order[at - 1])
                invariant
                    at <= order@.len(),
                    head == index_views(order@),
                    all == segment_views(segments@),
                    places_fit(order@, segments@.len()),
                    group_slot(all, head, priority) == group_slot(
                        all,
                        head.take(at as int),
                        priority,
                    ),
                decreases at,
            {
                proof {
                    assert(head.take(at as int).drop_last() =~= head.take(at - 1));
                    assert(head.take(at as int).last() == order@[at - 1]);
                }
                at = at - 1;
            }
            proof {
                assert(at > 0 ==> head.take(at as int).last() == order@[at - 1]);
                assert(group_slot(all, head, priority) == at);
            }
            order.insert(at, i);
            proof {
                assert(index_views(order@) =~= head.insert(at as int, i as int));
                assert forall|j: int| 0 <= j < order@.len() implies #[trigger] order@[j]
                    < segments@.len() by {
                    if j < at {
                        assert(order@[j] == before[j]);
                    } else if j > at {
                        assert(order@[j] == before[j - 1]);
                    }
                }
            }
        }
        i = i + 1;
    }
    order
}

fn priority_at(segments: &Vec<PromptSegment>, index: usize) -> (priority: u32)
    requires
        index < segments@.len(),
    ensures
        priority == group_priority(
            segment_views(segments@),
            group_at(segment_views(segments@), index as int),
            segments@.len() as int,
        ),
{
    let group = find_group(segments[index].source.as_str());
    find_priority(segments, group.as_str())
}

fn count_tokens(segments: &Vec<PromptSegment>) -> (tokens: usize)
    requires
        tokens_of(segment_views(segments@), segments@.len() as int) <= usize::MAX,
    ensures
        tokens == tokens_of(segment_views(segments@), segments@.len() as int),
{
    let ghost all = segment_views(segments@);
    let mut tokens: usize = 0;
    let mut i: usize = 0;
    while i < segments.len()
        invariant
            i <= segments@.len(),
            all == segment_views(segments@),
            tokens_of(all, segments@.len() as int) <= usize::MAX,
            tokens == tokens_of(all, i as int),
        decreases segments@.len() - i,
    {
        proof {
            assert(all[i as int] == segments@[i as int]@);
            lemma_tokens_upto(all, i + 1, segments@.len() as int);
        }
        tokens = tokens + segments[i].token_count;
        i = i + 1;
    }
    tokens
}

proof fn lemma_tokens_upto(segments: Seq<SegmentView>, low: int, high: int)
    requires
        low <= high,
    ensures
        tokens_of(segments, low) <= tokens_of(segments, high),
    decreases high - low,
{
    if low < high {
        lemma_tokens_upto(segments, low, high - 1);
    }
}

proof fn lemma_freed_upto(segments: Seq<SegmentView>, group: Seq<char>, low: int, high: int)
    requires
        low <= high,
    ensures
        freed(segments, group, low) <= freed(segments, group, high),
    decreases high - low,
{
    if low < high {
        lemma_freed_upto(segments, group, low, high - 1);
    }
}

proof fn lemma_open_tokens(segments: Seq<SegmentView>, count: int)
    ensures
        open_tokens(segments, count) <= tokens_of(segments, count),
    decreases count,
{
    if count > 0 {
        lemma_open_tokens(segments, count - 1);
    }
}

proof fn lemma_freeing(segments: Seq<SegmentView>, group: Seq<char>, whole: int, count: int)
    requires
        count <= whole <= segments.len(),
    ensures
        freed(segments, group, count) + open_tokens(without_group(segments, group, whole), count)
            == open_tokens(segments, count),
        tokens_of(without_group(segments, group, whole), count) == tokens_of(segments, count),
    decreases count,
{
    if count > 0 {
        lemma_freeing(segments, group, whole, count - 1);
    }
}

fn prune_group(
    segments: &mut Vec<PromptSegment>,
    group: &str,
    kept: &mut usize,
    dropped: &mut usize,
)
    requires
        *old(dropped) + freed(
            segment_views(old(segments)@),
            group@,
            old(segments)@.len() as int,
        ) <= usize::MAX,
    ensures
        segment_views(final(segments)@) == without_group(
            segment_views(old(segments)@),
            group@,
            old(segments)@.len() as int,
        ),
        *final(kept) == less_by(
            *old(kept) as nat,
            freed(segment_views(old(segments)@), group@, old(segments)@.len() as int),
        ),
        *final(dropped) == *old(dropped) + freed(
            segment_views(old(segments)@),
            group@,
            old(segments)@.len() as int,
        ),
        final(segments)@.len() == old(segments)@.len(),
{
    let ghost all = segment_views(segments@);
    let mut i: usize = 0;
    proof {
        assert(without_group(all, group@, 0) =~= all);
    }
    while i < segments.len()
        invariant
            i <= segments@.len(),
            segments@.len() == all.len(),
            all == segment_views(old(segments)@),
            segment_views(segments@) == without_group(all, group@, i as int),
            *kept == less_by(*old(kept) as nat, freed(all, group@, i as int)),
            *dropped == *old(dropped) + freed(all, group@, i as int),
            *old(dropped) + freed(all, group@, all.len() as int) <= usize::MAX,
        decreases segments@.len() - i,
    {
        let ghost before = segments@;
        proof {
            assert(segment_views(segments@)[i as int] == segments@[i as int]@);
            assert(without_group(all, group@, i as int)[i as int] == all[i as int]);
            lemma_freed_upto(all, group@, i + 1, all.len() as int);
        }
        if check_belongs(&segments[i], group) && !segments[i].pruned {
            let tokens: usize = segments[i].token_count;
            segments[i].pruned = true;
            *kept = if tokens <= *kept {
                *kept - tokens
            } else {
                0
            };
            *dropped = *dropped + tokens;
        }
        proof {
            assert forall|j: int| 0 <= j < all.len() implies segment_views(segments@)[j]
                == without_group(all, group@, i + 1)[j] by {
                assert(segment_views(before)[j] == without_group(all, group@, i as int)[j]);
                if j == i {
                    assert(segments@[j]@ == pruned_segment(all[j], group@));
                } else {
                    assert(segments@[j] == before[j]);
                }
            }
            assert(segment_views(segments@) =~= without_group(all, group@, i + 1));
        }
        i = i + 1;
    }
}

/// Prunes segments, a group at a time, until they leave enough of the context
/// for a response.
pub fn prune_segments(
    segments: &mut Vec<PromptSegment>,
    context_limit: usize,
    response_reserve: usize,
) -> (r: Result<PromptPruning, PromptError>)
    requires
        tokens_of(segment_views(old(segments)@), old(segments)@.len() as int) <= usize::MAX,
    ensures
        ({
            let limit = less_by(context_limit as nat, response_reserve as nat);
            let pruned = pruned_to(segment_views(old(segments)@), limit);
            &&& segment_views(final(segments)@) == pruned.segments
            &&& match r {
                Ok(report) => {
                    &&& pruned.kept <= limit
                    &&& report.context_limit == context_limit
                    &&& report.response_reserve == response_reserve
                    &&& report.prompt_limit == limit
                    &&& report.kept_tokens == pruned.kept
                    &&& report.pruned_tokens == pruned.dropped
                },
                Err(PromptError::ContextOverflow { required, available }) => {
                    &&& pruned.kept > limit
                    &&& required == pruned.kept
                    &&& available == limit
                },
                Err(_) => false,
            }
        }),
        r matches Ok(report) ==> {
            &&& report.kept_tokens + response_reserve <= context_limit || report.kept_tokens == 0
            &&& report.prompt_limit + response_reserve == context_limit || (report.prompt_limit == 0
                && context_limit < response_reserve)
        },
{
    let prompt_limit: usize = if response_reserve <= context_limit {
        context_limit - response_reserve
    } else {
        0
    };
    let ghost start = segment_views(segments@);
    let count: usize = segments.len();
    let mut kept: usize = count_tokens(segments);
    let order = order_groups(segments);
    let mut dropped: usize = 0;
    let mut k: usize = 0;
    proof {
        lemma_open_tokens(start, count as int);
    }
    while k < order.len() && kept > prompt_limit
        invariant
            k <= order@.len(),
            segments@.len() == count,
            places_fit(order@, count as nat),
            dropped + open_tokens(segment_views(segments@), count as int) <= usize::MAX,
            pruned_to(start, prompt_limit as nat) == pruned_from(
                (Pruned {
                    segments: segment_views(segments@),
                    kept: kept as nat,
                    dropped: dropped as nat,
                }),
                index_views(order@),
                k as int,
                prompt_limit as nat,
            ),
        decreases order@.len() - k,
    {
        let ghost current = segment_views(segments@);
        let leader: usize = order[k];
        proof {
            assert(index_views(order@)[k as int] == leader);
            assert(current[leader as int] == segments@[leader as int]@);
        }
        let group = find_group(segments[leader].source.as_str());
        proof {
            lemma_freeing(current, group@, count as int, count as int);
        }
        prune_group(segments, group.as_str(), &mut kept, &mut dropped);
        k = k + 1;
    }
    if kept > prompt_limit {
        return Err(PromptError::ContextOverflow { required: kept, available: prompt_limit });
    }
    Ok(
        PromptPruning {
            context_limit,
            response_reserve,
            prompt_limit,
            kept_tokens: kept,
            pruned_tokens: dropped,
        },
    )
}

/// What pruning never touches: everything of a segment but whether it is
/// pruned, and of a protected segment that too. What is pruned stays pruned.
pub open spec fn is_pruning_of(before: SegmentView, after: SegmentView) -> bool {
    &&& after == (SegmentView { pruned: after.pruned, ..before })
    &&& before.pruned ==> after.pruned
    &&& !prunable(before) ==> after == before
}

/// What holds of pruning all the time.
pub open spec fn is_balanced(start: Seq<SegmentView>, pruned: Pruned) -> bool {
    &&& pruned.segments.len() == start.len()
    &&& forall|i: int|
        0 <= i < start.len() ==> is_pruning_of(start[i], #[trigger] pruned.segments[i])
    &&& forall|i: int, j: int|
        0 <= i < start.len() && 0 <= j < start.len() && prunable(start[j]) && group_at(start, i)
            == group_at(start, j) && !start[i].pruned && (#[trigger] pruned.segments[i]).pruned
            ==> (#[trigger] pruned.segments[j]).pruned
    &&& pruned.dropped + open_tokens(pruned.segments, start.len() as int) == open_tokens(
        start,
        start.len() as int,
    )
    &&& pruned.kept + pruned.dropped == tokens_of(start, start.len() as int)
}

/// Pruning a group keeps the balance.
pub proof fn lemma_pruning_step(start: Seq<SegmentView>, pruned: Pruned, group: Seq<char>)
    requires
        is_balanced(start, pruned),
    ensures
        is_balanced(
            start,
            Pruned {
                segments: without_group(pruned.segments, group, start.len() as int),
                kept: less_by(pruned.kept, freed(pruned.segments, group, start.len() as int)),
                dropped: pruned.dropped + freed(pruned.segments, group, start.len() as int),
            },
        ),
{
    let count = start.len() as int;
    let next = without_group(pruned.segments, group, count);
    lemma_freeing(pruned.segments, group, count, count);
    lemma_open_tokens(start, count);
    assert forall|i: int| 0 <= i < count implies is_pruning_of(start[i], #[trigger] next[i]) by {
        assert(is_pruning_of(start[i], pruned.segments[i]));
    }
    assert forall|i: int, j: int|
        0 <= i < count && 0 <= j < count && prunable(start[j]) && group_at(start, i) == group_at(
            start,
            j,
        ) && !start[i].pruned && (#[trigger] next[i]).pruned implies (
    #[trigger] next[j]).pruned by {
        assert(is_pruning_of(start[i], pruned.segments[i]));
        assert(is_pruning_of(start[j], pruned.segments[j]));
        if belongs(pruned.segments[i], group) {
            assert(belongs(pruned.segments[j], group));
        } else {
            assert(next[i] == pruned.segments[i]);
            assert(pruned.segments[j].pruned);
        }
    }
}

proof fn lemma_pruned_from(
    start: Seq<SegmentView>,
    pruned: Pruned,
    order: Seq<int>,
    k: int,
    limit: nat,
)
    requires
        is_balanced(start, pruned),
    ensures
        is_balanced(start, pruned_from(pruned, order, k, limit)),
    decreases order.len() - k,
{
    if 0 <= k < order.len() && pruned.kept > limit {
        let group = group_at(pruned.segments, order[k]);
        lemma_pruning_step(start, pruned, group);
        let tokens = freed(pruned.segments, group, start.len() as int);
        lemma_pruned_from(
            start,
            Pruned {
                segments: without_group(pruned.segments, group, start.len() as int),
                kept: less_by(pruned.kept, tokens),
                dropped: pruned.dropped + tokens,
            },
            order,
            k + 1,
            limit,
        );
    }
}

/// Where nothing is pruned yet there is balance.
pub proof fn lemma_start_is_balanced(segments: Seq<SegmentView>)
    ensures
        is_balanced(
            segments,
            Pruned { segments, kept: tokens_of(segments, segments.len() as int), dropped: 0 },
        ),
{
}

/// Pruning changes nothing of a segment but marks it, leaves protected segments
/// alone, prunes a turn as a whole, and accounts for every token: what is kept
/// and what is pruned make up what there was.
pub proof fn law_pruning_is_balanced(segments: Seq<SegmentView>, limit: nat)
    ensures
        is_balanced(segments, pruned_to(segments, limit)),
{
    lemma_pruned_from(
        segments,
        Pruned { segments, kept: tokens_of(segments, segments.len() as int), dropped: 0 },
        group_order(segments, segments.len() as int),
        0,
        limit,
    );
}

/// A prompt that fits is not pruned.
pub proof fn law_fitting_prompts_stay(segments: Seq<SegmentView>, limit: nat)
    requires
        tokens_of(segments, segments.len() as int) <= limit,
    ensures
        pruned_to(segments, limit).segments == segments,
        pruned_to(segments, limit).dropped == 0,
{
}

} // verus!
