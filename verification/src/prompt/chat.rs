//! Segments that are put among the messages of a chat.
use vstd::prelude::*;

use crate::lists::lemma_insert_multiset;
use crate::prompt::segment::{
    lemma_segments_push, lemma_segments_remove_first, PromptSegment, segment_views, SegmentView,
};
use crate::text::{less, lex_less};

verus! {

/// The segments that stand for themselves, or those put among the messages, in
/// the order given.
pub open spec fn part_of(segments: Seq<SegmentView>, in_chat: bool) -> Seq<SegmentView>
    decreases segments.len(),
{
    if segments.len() == 0 {
        segments
    } else if (segments.last().in_chat_depth is Some) == in_chat {
        part_of(segments.drop_last(), in_chat).push(segments.last())
    } else {
        part_of(segments.drop_last(), in_chat)
    }
}

/// The depth of a segment that is put among the messages.
pub open spec fn depth_of(segment: SegmentView) -> usize {
    match segment.in_chat_depth {
        Some(depth) => depth,
        None => 0,
    }
}

/// A segment goes before another: it is put deeper, or as deep and of a lower
/// order, or else its source comes first.
pub open spec fn goes_before(left: SegmentView, right: SegmentView) -> bool {
    ||| depth_of(left) > depth_of(right)
    ||| depth_of(left) == depth_of(right) && left.in_chat_order < right.in_chat_order
    ||| depth_of(left) == depth_of(right) && left.in_chat_order == right.in_chat_order
        && lex_less(left.source, right.source)
}

/// Where a segment goes among others that are in order: behind all at the end
/// that it does not go before.
pub open spec fn chat_slot(segments: Seq<SegmentView>, segment: SegmentView) -> int
    decreases segments.len(),
{
    if segments.len() > 0 && goes_before(segment, segments.last()) {
        chat_slot(segments.drop_last(), segment)
    } else {
        segments.len() as int
    }
}

/// Segments in the order in which they are put among the messages. Those of
/// which none goes before the other keep their order.
pub open spec fn chat_sorted(segments: Seq<SegmentView>) -> Seq<SegmentView>
    decreases segments.len(),
{
    if segments.len() == 0 {
        segments
    } else {
        let head = chat_sorted(segments.drop_last());
        head.insert(chat_slot(head, segments.last()), segments.last())
    }
}

/// How many of the segments from place `i` on share a depth.
pub open spec fn run_end(segments: Seq<SegmentView>, depth: Option<usize>, i: int) -> int
    decreases segments.len() - i,
{
    if i < 0 || i >= segments.len() || segments[i].in_chat_depth != depth {
        i
    } else {
        run_end(segments, depth, i + 1)
    }
}

/// The place `depth` segments from the end, or the first one.
pub open spec fn place(count: nat, depth: usize) -> int {
    if depth <= count {
        count - depth
    } else {
        0
    }
}

/// Segments of one depth end somewhere.
pub proof fn lemma_run_end(segments: Seq<SegmentView>, depth: Option<usize>, i: int)
    requires
        0 <= i <= segments.len(),
    ensures
        i <= run_end(segments, depth, i) <= segments.len(),
        i < segments.len() && segments[i].in_chat_depth == depth ==> i < run_end(
            segments,
            depth,
            i,
        ),
    decreases segments.len() - i,
{
    if i < segments.len() && segments[i].in_chat_depth == depth {
        lemma_run_end(segments, depth, i + 1);
    }
}

/// Messages with other segments put among them, those of one depth at a time:
/// each counts its depth from the end of what is there by that time.
pub open spec fn placed(messages: Seq<SegmentView>, others: Seq<SegmentView>) -> Seq<SegmentView>
    decreases others.len(),
{
    if others.len() == 0 || others[0].in_chat_depth is None {
        messages
    } else {
        let depth = others[0].in_chat_depth;
        let end = run_end(others, depth, 0);
        let at = place(messages.len(), depth->0);
        if 0 < end <= others.len() {
            placed(
                messages.take(at) + others.take(end) + messages.skip(at),
                others.skip(end),
            )
        } else {
            messages
        }
    }
}

/// The segments, with those that have a depth put among the others.
pub open spec fn with_chat_segments(segments: Seq<SegmentView>) -> Seq<SegmentView> {
    placed(part_of(segments, false), chat_sorted(part_of(segments, true)))
}

fn check_goes_before(left: &PromptSegment, right: &PromptSegment) -> (r: bool)
    ensures
        r == goes_before(left@, right@),
{
    let left_depth: usize = match left.in_chat_depth {
        Some(depth) => depth,
        None => 0,
    };
    let right_depth: usize = match right.in_chat_depth {
        Some(depth) => depth,
        None => 0,
    };
    if left_depth != right_depth {
        return left_depth > right_depth;
    }
    if left.in_chat_order != right.in_chat_order {
        return left.in_chat_order < right.in_chat_order;
    }
    less(left.source.as_str(), right.source.as_str())
}

fn insert_sorted(sorted: &mut Vec<PromptSegment>, segment: PromptSegment)
    ensures
        segment_views(final(sorted)@) == segment_views(old(sorted)@).insert(
            chat_slot(segment_views(old(sorted)@), segment@),
            segment@,
        ),
{
    let ghost before = segment_views(sorted@);
    let mut at: usize = sorted.len();
    proof {
        assert(before.take(at as int) =~= before);
    }
    while at > 0 && check_goes_before(&segment, &sorted[at - 1])
        invariant
            at <= sorted@.len(),
            before == segment_views(sorted@),
            chat_slot(before, segment@) == chat_slot(before.take(at as int), segment@),
        decreases at,
    {
        proof {
            assert(before.take(at as int).drop_last() =~= before.take(at - 1));
            assert(before.take(at as int).last() == sorted@[at - 1]@);
        }
        at = at - 1;
    }
    proof {
        assert(at > 0 ==> before.take(at as int).last() == sorted@[at - 1]@);
        assert(chat_slot(before, segment@) == at);
    }
    sorted.insert(at, segment);
    proof {
        assert(segment_views(sorted@) =~= before.insert(at as int, segment@));
    }
}

/// Puts the segments that have a depth among the others.
pub fn insert_in_chat_segments(segments: Vec<PromptSegment>) -> (placed: Vec<PromptSegment>)
    ensures
        segment_views(placed@) == with_chat_segments(segment_views(segments@)),
{
    let ghost all = segment_views(segments@);
    let mut rest = segments;
    let mut messages: Vec<PromptSegment> = Vec::new();
    let mut others: Vec<PromptSegment> = Vec::new();
    let mut i: usize = 0;
    let count: usize = rest.len();
    proof {
        assert(segment_views(messages@) =~= part_of(all.take(0), false));
        assert(segment_views(others@) =~= chat_sorted(part_of(all.take(0), true)));
        assert(all.skip(0) =~= all);
    }
    while i < count
        invariant
            i <= count,
            count == all.len(),
            segment_views(rest@) == all.skip(i as int),
            segment_views(messages@) == part_of(all.take(i as int), false),
            segment_views(others@) == chat_sorted(part_of(all.take(i as int), true)),
        decreases count - i,
    {
        proof {
            assert(segment_views(rest@).len() == rest@.len());
            assert(segment_views(rest@)[0] == rest@[0]@);
            assert(all.take(i + 1).drop_last() =~= all.take(i as int));
            assert(all.take(i + 1).last() == all[i as int]);
            lemma_segments_remove_first(rest@);
            assert(all.skip(i as int).skip(1) =~= all.skip(i + 1));
        }
        let segment = rest.remove(0);
        proof {
            assert(segment_views(rest@) =~= all.skip(i + 1));
            assert(segment@ == all[i as int]);
        }
        if segment.in_chat_depth.is_none() {
            proof {
                lemma_segments_push(messages@, segment);
            }
            messages.push(segment);
        } else {
            proof {
                let head = part_of(all.take(i as int), true);
                assert(head.push(segment@).drop_last() =~= head);
            }
            insert_sorted(&mut others, segment);
        }
        i = i + 1;
    }
    proof {
        assert(all.take(all.len() as int) =~= all);
        lemma_sorted_have_depth(part_of(all, true));
        lemma_part_has_depth(all);
    }
    while others.len() > 0
        invariant
            with_chat_segments(all) == placed(segment_views(messages@), segment_views(others@)),
            forall|j: int|
                0 <= j < others@.len() ==> (#[trigger] segment_views(others@)[j]).in_chat_depth
                    is Some,
        decreases others@.len(),
    {
        let ghost chat = segment_views(others@);
        let ghost before = segment_views(messages@);
        proof {
            assert(chat[0] == others@[0]@);
            assert(chat[0].in_chat_depth is Some);
            lemma_run_end(chat, chat[0].in_chat_depth, 0);
        }
        let chosen: Option<usize> = others[0].in_chat_depth;
        let depth: usize = match chosen {
            Some(depth) => depth,
            None => 0,
        };
        let at: usize = if depth <= messages.len() {
            messages.len() - depth
        } else {
            0
        };
        let waiting: usize = others.len();
        let mut moved: usize = 0;
        let ghost end = run_end(chat, chosen, 0);
        proof {
            assert(before.take(at as int) + chat.take(0) + before.skip(at as int) =~= before);
            assert(chat.skip(0) =~= chat);
        }
        while others.len() > 0 && same_depth(&others[0], &chosen)
            invariant
                0 <= moved <= end <= chat.len(),
                chat.len() == waiting,
                0 <= at <= before.len(),
                end == run_end(chat, chosen, 0),
                end == run_end(chat, chosen, moved as int),
                segment_views(others@) == chat.skip(moved as int),
                messages@.len() == before.len() + moved,
                segment_views(messages@) == before.take(at as int) + chat.take(moved as int)
                    + before.skip(at as int),
            decreases others@.len(),
        {
            proof {
                assert(segment_views(others@).len() == others@.len());
                assert(segment_views(others@)[0] == others@[0]@);
                assert(chat.skip(moved as int)[0] == chat[moved as int]);
                lemma_run_end(chat, chosen, moved as int);
                lemma_segments_remove_first(others@);
                assert(chat.skip(moved as int).skip(1) =~= chat.skip(moved + 1));
                assert(messages.len() == messages@.len());
            }
            let ghost earlier = segment_views(messages@);
            let segment = others.remove(0);
            let next: usize = at + moved;
            messages.insert(next, segment);
            proof {
                assert(segment_views(others@) =~= chat.skip(moved + 1));
                assert(segment@ == chat[moved as int]);
                assert(segment_views(messages@) =~= earlier.insert(at + moved, segment@));
                assert(segment_views(messages@) =~= before.take(at as int) + chat.take(moved + 1)
                    + before.skip(at as int));
            }
            moved = moved + 1;
        }
        proof {
            assert(segment_views(others@).len() == others@.len());
            if others@.len() > 0 {
                assert(segment_views(others@)[0] == others@[0]@);
                assert(chat.skip(moved as int)[0] == chat[moved as int]);
            }
            assert(moved == end);
            assert forall|j: int| 0 <= j < others@.len() implies (#[trigger] segment_views(
                others@,
            )[j]).in_chat_depth is Some by {
                assert(segment_views(others@)[j] == chat[moved + j]);
            }
        }
    }
    proof {
        assert(segment_views(others@) =~= Seq::<SegmentView>::empty());
    }
    messages
}

fn same_depth(segment: &PromptSegment, depth: &Option<usize>) -> (r: bool)
    ensures
        r == (segment.in_chat_depth == *depth),
{
    match (segment.in_chat_depth, depth) {
        (Some(a), Some(b)) => a == *b,
        (None, None) => true,
        _ => false,
    }
}

/// What is put among the messages has a depth.
pub proof fn lemma_part_has_depth(segments: Seq<SegmentView>)
    ensures
        forall|j: int|
            0 <= j < part_of(segments, true).len() ==> (#[trigger] part_of(
                segments,
                true,
            )[j]).in_chat_depth is Some,
    decreases segments.len(),
{
    if segments.len() > 0 {
        lemma_part_has_depth(segments.drop_last());
    }
}

proof fn lemma_chat_slot(segments: Seq<SegmentView>, segment: SegmentView)
    ensures
        0 <= chat_slot(segments, segment) <= segments.len(),
    decreases segments.len(),
{
    if segments.len() > 0 && goes_before(segment, segments.last()) {
        lemma_chat_slot(segments.drop_last(), segment);
    }
}

/// Ordering segments keeps their number and that they have a depth.
pub proof fn lemma_sorted_have_depth(segments: Seq<SegmentView>)
    ensures
        chat_sorted(segments).len() == segments.len(),
        (forall|j: int| 0 <= j < segments.len() ==> (#[trigger] segments[j]).in_chat_depth is Some)
            ==> forall|j: int|
            0 <= j < segments.len() ==> (#[trigger] chat_sorted(segments)[j]).in_chat_depth
                is Some,
    decreases segments.len(),
{
    if segments.len() > 0 {
        let rest = segments.drop_last();
        lemma_sorted_have_depth(rest);
        let head = chat_sorted(rest);
        lemma_chat_slot(head, segments.last());
        let at = chat_slot(head, segments.last());
        if forall|j: int| 0 <= j < segments.len() ==> (#[trigger] segments[j]).in_chat_depth is Some {
            assert forall|j: int| 0 <= j < rest.len() implies (#[trigger] rest[j]).in_chat_depth
                is Some by {
                assert(rest[j] == segments[j]);
            }
            assert forall|j: int| 0 <= j < segments.len() implies (#[trigger] chat_sorted(
                segments,
            )[j]).in_chat_depth is Some by {
                if j < at {
                    assert(chat_sorted(segments)[j] == head[j]);
                } else if j > at {
                    assert(chat_sorted(segments)[j] == head[j - 1]);
                } else {
                    assert(chat_sorted(segments)[j] == segments[segments.len() - 1]);
                }
            }
        }
    }
}

proof fn lemma_part_multiset(segments: Seq<SegmentView>)
    ensures
        part_of(segments, false).to_multiset().add(part_of(segments, true).to_multiset())
            =~= segments.to_multiset(),
    decreases segments.len(),
{
    broadcast use vstd::seq_lib::group_to_multiset_ensures;

    if segments.len() > 0 {
        lemma_part_multiset(segments.drop_last());
        assert(segments =~= segments.drop_last().push(segments.last()));
    }
}

proof fn lemma_sorted_multiset(segments: Seq<SegmentView>)
    ensures
        chat_sorted(segments).to_multiset() =~= segments.to_multiset(),
    decreases segments.len(),
{
    broadcast use vstd::seq_lib::group_to_multiset_ensures;

    if segments.len() > 0 {
        let head = chat_sorted(segments.drop_last());
        lemma_sorted_multiset(segments.drop_last());
        lemma_chat_slot(head, segments.last());
        lemma_insert_multiset(head, chat_slot(head, segments.last()), segments.last());
        assert(segments =~= segments.drop_last().push(segments.last()));
    }
}

proof fn lemma_placed_multiset(messages: Seq<SegmentView>, others: Seq<SegmentView>)
    requires
        forall|j: int| 0 <= j < others.len() ==> (#[trigger] others[j]).in_chat_depth is Some,
    ensures
        placed(messages, others).to_multiset() =~= messages.to_multiset().add(
            others.to_multiset(),
        ),
    decreases others.len(),
{
    broadcast use vstd::seq_lib::group_to_multiset_ensures;

    if others.len() > 0 {
        let depth = others[0].in_chat_depth;
        lemma_run_end(others, depth, 0);
        let end = run_end(others, depth, 0);
        let at = place(messages.len(), depth->0);
        let head = messages.take(at);
        let tail = messages.skip(at);
        let run = others.take(end);
        let rest = others.skip(end);
        assert forall|j: int| 0 <= j < rest.len() implies (#[trigger] rest[j]).in_chat_depth
            is Some by {
            assert(rest[j] == others[end + j]);
        }
        lemma_placed_multiset(head + run + tail, rest);
        vstd::seq_lib::lemma_multiset_commutative(head, run);
        vstd::seq_lib::lemma_multiset_commutative(head + run, tail);
        vstd::seq_lib::lemma_multiset_commutative(head, tail);
        vstd::seq_lib::lemma_multiset_commutative(run, rest);
        assert(head + tail =~= messages);
        assert(run + rest =~= others);
    } else {
        assert(others =~= Seq::<SegmentView>::empty());
    }
}

/// Putting segments among the messages loses none and adds none.
pub proof fn law_chat_segments_are_kept(segments: Seq<SegmentView>)
    ensures
        with_chat_segments(segments).to_multiset() =~= segments.to_multiset(),
{
    lemma_part_has_depth(segments);
    lemma_sorted_have_depth(part_of(segments, true));
    lemma_sorted_multiset(part_of(segments, true));
    lemma_placed_multiset(part_of(segments, false), chat_sorted(part_of(segments, true)));
    lemma_part_multiset(segments);
}

/// Segments without a depth stay as they are.
pub proof fn law_plain_segments_stay(segments: Seq<SegmentView>)
    requires
        forall|i: int| 0 <= i < segments.len() ==> (#[trigger] segments[i]).in_chat_depth is None,
    ensures
        with_chat_segments(segments) == segments,
{
    lemma_no_chat(segments);
}

proof fn lemma_no_chat(segments: Seq<SegmentView>)
    requires
        forall|i: int| 0 <= i < segments.len() ==> (#[trigger] segments[i]).in_chat_depth is None,
    ensures
        part_of(segments, false) == segments,
        part_of(segments, true).len() == 0,
    decreases segments.len(),
{
    if segments.len() > 0 {
        lemma_no_chat(segments.drop_last());
        assert(segments.last().in_chat_depth is None);
        assert(segments.drop_last().push(segments.last()) =~= segments);
    }
}

} // verus!
