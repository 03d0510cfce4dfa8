//! Where segments with a depth stand among the messages.
use vstd::prelude::*;

use crate::prompt::chat::{
    chat_slot, chat_sorted, goes_before, lemma_part_has_depth, lemma_run_end,
    lemma_sorted_have_depth, part_of, place, placed, run_end, with_chat_segments,
};
use crate::prompt::segment::SegmentView;
use crate::text::{
    lemma_lex_asymmetric, lemma_lex_irreflexive, lemma_lex_total, lemma_lex_transitive, lex_less,
};

verus! {

/// A segment is a message, or put deeper than `depth`.
pub open spec fn is_deeper(segment: SegmentView, depth: usize) -> bool {
    match segment.in_chat_depth {
        None => true,
        Some(own) => own > depth,
    }
}

/// How many of some segments are messages or put deeper than `depth`.
pub open spec fn count_deeper(segments: Seq<SegmentView>, depth: usize) -> nat
    decreases segments.len(),
{
    if segments.len() == 0 {
        0
    } else {
        count_deeper(segments.drop_last(), depth) + if is_deeper(segments.last(), depth) {
            1nat
        } else {
            0
        }
    }
}

/// Of two segments of one depth the first may stand in front: it is of no higher order
/// and, where the order is the same, its source does not come later.
pub open spec fn may_lead(left: SegmentView, right: SegmentView) -> bool {
    &&& left.in_chat_order <= right.in_chat_order
    &&& left.in_chat_order == right.in_chat_order ==> left.source == right.source || lex_less(
        left.source,
        right.source,
    )
}

/// The segment at a place has as many messages and deeper segments behind it as its
/// depth says, or all where there are fewer.
pub open spec fn stands_at_depth(segments: Seq<SegmentView>, p: int) -> bool {
    match segments[p].in_chat_depth {
        None => true,
        Some(depth) => {
            let all = count_deeper(segments, depth);
            count_deeper(segments.skip(p + 1), depth) == if depth <= all {
                depth as nat
            } else {
                all
            }
        },
    }
}

spec fn stand_at_depth(segments: Seq<SegmentView>) -> bool {
    &&& forall|p: int| 0 <= p < segments.len() ==> #[trigger] stands_at_depth(segments, p)
    &&& forall|p: int, q: int|
        0 <= p < q < segments.len() && (#[trigger] segments[p]).in_chat_depth is Some && (
        #[trigger] segments[q]).in_chat_depth == segments[p].in_chat_depth ==> may_lead(
            segments[p],
            segments[q],
        )
}

proof fn lemma_count_add(a: Seq<SegmentView>, b: Seq<SegmentView>, depth: usize)
    ensures
        count_deeper(a + b, depth) == count_deeper(a, depth) + count_deeper(b, depth),
    decreases b.len(),
{
    if b.len() == 0 {
        assert(a + b =~= a);
    } else {
        lemma_count_add(a, b.drop_last(), depth);
        assert((a + b).drop_last() =~= a + b.drop_last());
    }
}

proof fn lemma_count_all(segments: Seq<SegmentView>, depth: usize)
    ensures
        (forall|i: int| 0 <= i < segments.len() ==> is_deeper(#[trigger] segments[i], depth))
            ==> count_deeper(segments, depth) == segments.len(),
        (forall|i: int| 0 <= i < segments.len() ==> !is_deeper(#[trigger] segments[i], depth))
            ==> count_deeper(segments, depth) == 0,
    decreases segments.len(),
{
    if segments.len() > 0 {
        let head = segments.drop_last();
        lemma_count_all(head, depth);
        assert(forall|i: int| 0 <= i < head.len() ==> head[i] == #[trigger] segments[i]);
        assert(segments[segments.len() - 1] == segments.last());
    }
}

proof fn lemma_put(
    messages: Seq<SegmentView>,
    block: Seq<SegmentView>,
    depth: usize,
)
    requires
        stand_at_depth(messages),
        forall|i: int| 0 <= i < messages.len() ==> is_deeper(#[trigger] messages[i], depth),
        forall|i: int|
            0 <= i < block.len() ==> (#[trigger] block[i]).in_chat_depth == Some(depth),
        forall|i: int, j: int|
            0 <= i < j < block.len() ==> may_lead(#[trigger] block[i], #[trigger] block[j]),
    ensures
        stand_at_depth(
            messages.take(place(messages.len(), depth)) + block + messages.skip(
                place(messages.len(), depth),
            ),
        ),
{
    let at = place(messages.len(), depth);
    let front = messages.take(at);
    let back = messages.skip(at);
    let all = front + block + back;
    let n = block.len() as int;
    assert(messages =~= front + back);
    assert forall|p: int| 0 <= p < all.len() implies #[trigger] stands_at_depth(all, p) by {
        if all[p].in_chat_depth is Some {
            let own = all[p].in_chat_depth->0;
            lemma_count_add(front + block, back, own);
            lemma_count_add(front, block, own);
            lemma_count_add(front, back, own);
            if at <= p < at + n {
                assert(all[p] == block[p - at]);
                let rest = block.skip(p - at + 1);
                assert(all.skip(p + 1) =~= rest + back);
                lemma_count_add(rest, back, own);
                assert forall|i: int| 0 <= i < rest.len() implies !is_deeper(
                    #[trigger] rest[i],
                    own,
                ) by {
                    assert(rest[i] == block[p - at + 1 + i]);
                }
                lemma_count_all(rest, own);
                assert forall|i: int| 0 <= i < back.len() implies is_deeper(
                    #[trigger] back[i],
                    own,
                ) by {
                    assert(back[i] == messages[at + i]);
                }
                lemma_count_all(back, own);
                lemma_count_all(messages, own);
                lemma_count_all(block, own);
            } else {
                let k = if p < at {
                    p
                } else {
                    p - n
                };
                assert(all[p] == messages[k]);
                assert(stands_at_depth(messages, k));
                assert(is_deeper(messages[k], depth));
                lemma_count_all(block, own);
                assert(count_deeper(block, own) == 0);
                if p < at {
                    let rest = front.skip(p + 1);
                    assert(all.skip(p + 1) =~= rest + block + back);
                    assert(messages.skip(p + 1) =~= rest + back);
                    lemma_count_add(rest + block, back, own);
                    lemma_count_add(rest, block, own);
                    lemma_count_add(rest, back, own);
                } else {
                    assert(all.skip(p + 1) =~= messages.skip(k + 1));
                }
            }
        }
    }
    assert forall|p: int, q: int|
        0 <= p < q < all.len() && (#[trigger] all[p]).in_chat_depth is Some && (
        #[trigger] all[q]).in_chat_depth == all[p].in_chat_depth implies may_lead(
        all[p],
        all[q],
    ) by {
        let a = if p < at {
            p
        } else {
            p - n
        };
        let b = if q < at {
            q
        } else {
            q - n
        };
        if at <= p < at + n {
            assert(all[p] == block[p - at]);
            if at <= q < at + n {
                assert(all[q] == block[q - at]);
            } else {
                assert(all[q] == messages[b]);
                assert(is_deeper(messages[b], depth));
            }
        } else {
            assert(all[p] == messages[a]);
            assert(is_deeper(messages[a], depth));
            if at <= q < at + n {
                assert(all[q] == block[q - at]);
            } else {
                assert(all[q] == messages[b]);
            }
        }
    }
}

/// No segment stands behind one that it goes before.
spec fn are_sorted(segments: Seq<SegmentView>) -> bool {
    forall|i: int, j: int|
        0 <= i < j < segments.len() ==> !goes_before(
            #[trigger] segments[j],
            #[trigger] segments[i],
        )
}

proof fn lemma_not_before(a: SegmentView, b: SegmentView, c: SegmentView)
    requires
        !goes_before(b, a),
        !goes_before(c, b),
    ensures
        !goes_before(c, a),
{
    lemma_lex_total(a.source, b.source);
    lemma_lex_total(b.source, c.source);
    if lex_less(a.source, b.source) && lex_less(b.source, c.source) {
        lemma_lex_transitive(a.source, b.source, c.source);
        lemma_lex_asymmetric(a.source, c.source);
    }
    lemma_lex_irreflexive(a.source);
    if lex_less(a.source, b.source) {
        lemma_lex_asymmetric(a.source, b.source);
    }
    if lex_less(b.source, c.source) {
        lemma_lex_asymmetric(b.source, c.source);
    }
}

proof fn lemma_slot(segments: Seq<SegmentView>, segment: SegmentView)
    requires
        are_sorted(segments),
    ensures
        0 <= chat_slot(segments, segment) <= segments.len(),
        forall|i: int|
            0 <= i < chat_slot(segments, segment) ==> !goes_before(
                segment,
                #[trigger] segments[i],
            ),
        forall|i: int|
            chat_slot(segments, segment) <= i < segments.len() ==> !goes_before(
                #[trigger] segments[i],
                segment,
            ),
    decreases segments.len(),
{
    if segments.len() > 0 {
        if goes_before(segment, segments.last()) {
            let head = segments.drop_last();
            lemma_slot(head, segment);
            assert forall|i: int|
                chat_slot(segments, segment) <= i < segments.len() implies !goes_before(
                #[trigger] segments[i],
                segment,
            ) by {
                if i < head.len() {
                    assert(head[i] == segments[i]);
                } else if lex_less(segment.source, segments.last().source) {
                    lemma_lex_asymmetric(segment.source, segments.last().source);
                }
            }
            assert forall|i: int| 0 <= i < chat_slot(segments, segment) implies !goes_before(
                segment,
                #[trigger] segments[i],
            ) by {
                assert(head[i] == segments[i]);
            }
        } else {
            assert forall|i: int| 0 <= i < segments.len() implies !goes_before(
                segment,
                #[trigger] segments[i],
            ) by {
                if i < segments.len() - 1 {
                    lemma_not_before(segments[i], segments.last(), segment);
                }
            }
        }
    }
}

proof fn lemma_sorted(segments: Seq<SegmentView>)
    ensures
        are_sorted(chat_sorted(segments)),
    decreases segments.len(),
{
    if segments.len() > 0 {
        let head = chat_sorted(segments.drop_last());
        let segment = segments.last();
        lemma_sorted(segments.drop_last());
        lemma_slot(head, segment);
        let at = chat_slot(head, segment);
        let all = head.insert(at, segment);
        assert forall|i: int, j: int| 0 <= i < j < all.len() implies !goes_before(
            #[trigger] all[j],
            #[trigger] all[i],
        ) by {
            if i != at && j != at {
                let a = if i < at {
                    i
                } else {
                    i - 1
                };
                let b = if j < at {
                    j
                } else {
                    j - 1
                };
                assert(all[i] == head[a] && all[j] == head[b]);
            } else if i == at {
                assert(all[j] == head[j - 1]);
            } else {
                assert(all[i] == head[i]);
            }
        }
    }
}

proof fn lemma_run(segments: Seq<SegmentView>, depth: Option<usize>, i: int)
    requires
        0 <= i <= segments.len(),
    ensures
        forall|k: int|
            i <= k < run_end(segments, depth, i) ==> (#[trigger] segments[k]).in_chat_depth
                == depth,
        run_end(segments, depth, i) < segments.len() ==> segments[run_end(
            segments,
            depth,
            i,
        )].in_chat_depth != depth,
    decreases segments.len() - i,
{
    if i < segments.len() && segments[i].in_chat_depth == depth {
        lemma_run(segments, depth, i + 1);
    }
}

proof fn lemma_placed(messages: Seq<SegmentView>, others: Seq<SegmentView>)
    requires
        stand_at_depth(messages),
        are_sorted(others),
        forall|i: int| 0 <= i < others.len() ==> (#[trigger] others[i]).in_chat_depth is Some,
        forall|i: int|
            0 <= i < messages.len() && others.len() > 0 ==> is_deeper(
                #[trigger] messages[i],
                others[0].in_chat_depth->0,
            ),
    ensures
        stand_at_depth(placed(messages, others)),
    decreases others.len(),
{
    if others.len() > 0 {
        let depth = others[0].in_chat_depth;
        let end = run_end(others, depth, 0);
        lemma_run_end(others, depth, 0);
        lemma_run(others, depth, 0);
        let block = others.take(end);
        let rest = others.skip(end);
        let at = place(messages.len(), depth->0);
        let next = messages.take(at) + block + messages.skip(at);
        assert forall|i: int| 0 <= i < block.len() implies (#[trigger] block[i]).in_chat_depth
            == Some(depth->0) by {
            assert(block[i] == others[i]);
        }
        assert forall|i: int, j: int| 0 <= i < j < block.len() implies may_lead(
            #[trigger] block[i],
            #[trigger] block[j],
        ) by {
            assert(block[i] == others[i] && block[j] == others[j]);
            assert(!goes_before(others[j], others[i]));
            lemma_lex_total(others[i].source, others[j].source);
        }
        lemma_put(messages, block, depth->0);
        assert forall|i: int, j: int| 0 <= i < j < rest.len() implies !goes_before(
            #[trigger] rest[j],
            #[trigger] rest[i],
        ) by {
            assert(rest[i] == others[end + i] && rest[j] == others[end + j]);
        }
        assert forall|i: int| 0 <= i < rest.len() implies (
        #[trigger] rest[i]).in_chat_depth is Some by {
            assert(rest[i] == others[end + i]);
        }
        if rest.len() > 0 {
            assert(rest[0] == others[end]);
            assert(!goes_before(others[end], others[0]));
            assert(rest[0].in_chat_depth->0 < depth->0);
            assert forall|i: int| 0 <= i < next.len() implies is_deeper(
                #[trigger] next[i],
                rest[0].in_chat_depth->0,
            ) by {
                if i < at {
                    assert(next[i] == messages[i]);
                } else if i < at + end {
                    assert(next[i] == block[i - at]);
                } else {
                    assert(next[i] == messages[i - end]);
                }
            }
        }
        lemma_placed(next, rest);
    }
}

proof fn lemma_plain_part(segments: Seq<SegmentView>)
    ensures
        forall|i: int|
            0 <= i < part_of(segments, false).len() ==> (#[trigger] part_of(
                segments,
                false,
            )[i]).in_chat_depth is None,
    decreases segments.len(),
{
    if segments.len() > 0 {
        lemma_plain_part(segments.drop_last());
    }
}

proof fn lemma_plain_stand(segments: Seq<SegmentView>)
    requires
        forall|i: int| 0 <= i < segments.len() ==> (#[trigger] segments[i]).in_chat_depth is None,
    ensures
        stand_at_depth(segments),
{
    assert forall|p: int| 0 <= p < segments.len() implies #[trigger] stands_at_depth(
        segments,
        p,
    ) by {
        assert(segments[p].in_chat_depth is None);
    }
}

/// A segment with a depth has that many messages and deeper segments behind it, or all
/// of them where there are fewer.
pub proof fn law_depth_counts_from_the_end(segments: Seq<SegmentView>, p: int)
    requires
        0 <= p < with_chat_segments(segments).len(),
    ensures
        stands_at_depth(with_chat_segments(segments), p),
{
    lemma_chat_stands(segments);
}

/// Segments of one depth stand by their order, those of one order by their source.
pub proof fn law_one_depth_stands_in_order(segments: Seq<SegmentView>, p: int, q: int)
    requires
        0 <= p < q < with_chat_segments(segments).len(),
        with_chat_segments(segments)[p].in_chat_depth is Some,
        with_chat_segments(segments)[q].in_chat_depth
            == with_chat_segments(segments)[p].in_chat_depth,
    ensures
        may_lead(with_chat_segments(segments)[p], with_chat_segments(segments)[q]),
{
    lemma_chat_stands(segments);
}

proof fn lemma_chat_stands(segments: Seq<SegmentView>)
    ensures
        stand_at_depth(with_chat_segments(segments)),
{
    let messages = part_of(segments, false);
    let others = chat_sorted(part_of(segments, true));
    lemma_plain_part(segments);
    lemma_plain_stand(messages);
    lemma_part_has_depth(segments);
    lemma_sorted_have_depth(part_of(segments, true));
    lemma_sorted(part_of(segments, true));
    assert forall|i: int| 0 <= i < others.len() implies (
    #[trigger] others[i]).in_chat_depth is Some by {
    }
    lemma_placed(messages, others);
}

proof fn lemma_part_add(a: Seq<SegmentView>, b: Seq<SegmentView>)
    ensures
        part_of(a + b, false) == part_of(a, false) + part_of(b, false),
    decreases b.len(),
{
    if b.len() == 0 {
        assert(a + b =~= a);
        assert(part_of(a, false) + part_of(b, false) =~= part_of(a, false));
    } else {
        lemma_part_add(a, b.drop_last());
        assert((a + b).drop_last() =~= a + b.drop_last());
        assert((a + b).last() == b.last());
        assert(part_of(a + b, false) =~= part_of(a, false) + part_of(b, false));
    }
}

proof fn lemma_part_of_others(others: Seq<SegmentView>)
    requires
        forall|i: int| 0 <= i < others.len() ==> (#[trigger] others[i]).in_chat_depth is Some,
    ensures
        part_of(others, false).len() == 0,
    decreases others.len(),
{
    if others.len() > 0 {
        assert(others[others.len() - 1].in_chat_depth is Some);
        lemma_part_of_others(others.drop_last());
    }
}

proof fn lemma_placed_keeps_messages(messages: Seq<SegmentView>, others: Seq<SegmentView>)
    requires
        forall|i: int| 0 <= i < others.len() ==> (#[trigger] others[i]).in_chat_depth is Some,
    ensures
        part_of(placed(messages, others), false) == part_of(messages, false),
    decreases others.len(),
{
    if others.len() > 0 {
        let depth = others[0].in_chat_depth;
        let end = run_end(others, depth, 0);
        lemma_run_end(others, depth, 0);
        let at = place(messages.len(), depth->0);
        let front = messages.take(at);
        let back = messages.skip(at);
        let block = others.take(end);
        let rest = others.skip(end);
        assert forall|i: int| 0 <= i < rest.len() implies (
        #[trigger] rest[i]).in_chat_depth is Some by {
            assert(rest[i] == others[end + i]);
        }
        lemma_placed_keeps_messages(front + block + back, rest);
        lemma_part_of_others(block);
        lemma_part_add(front + block, back);
        lemma_part_add(front, block);
        lemma_part_add(front, back);
        assert(messages =~= front + back);
        assert(part_of(front, false) + part_of(block, false) =~= part_of(front, false));
    }
}

/// How many segments stand in front of a place and have no depth.
pub open spec fn plain_before(segments: Seq<SegmentView>, p: int) -> nat
    decreases p,
{
    if p <= 0 {
        0
    } else {
        plain_before(segments, p - 1) + if segments[p - 1].in_chat_depth is None {
            1nat
        } else {
            0
        }
    }
}

proof fn lemma_plain_at(segments: Seq<SegmentView>, p: int)
    requires
        0 <= p < segments.len(),
        segments[p].in_chat_depth is None,
    ensures
        plain_before(segments, p) < part_of(segments, false).len(),
        part_of(segments, false)[plain_before(segments, p) as int] == segments[p],
    decreases segments.len(),
{
    let head = segments.drop_last();
    if p < segments.len() - 1 {
        lemma_plain_at(head, p);
        lemma_plain_before_same(head, segments, p);
        assert(head[p] == segments[p]);
    } else {
        lemma_plain_before_is_count(segments, p);
        assert(segments.take(p) =~= head);
    }
}

proof fn lemma_plain_before_same(a: Seq<SegmentView>, b: Seq<SegmentView>, p: int)
    requires
        0 <= p <= a.len(),
        p <= b.len(),
        forall|i: int| 0 <= i < p ==> #[trigger] a[i] == b[i],
    ensures
        plain_before(a, p) == plain_before(b, p),
    decreases p,
{
    if p > 0 {
        lemma_plain_before_same(a, b, p - 1);
        assert(a[p - 1] == b[p - 1]);
    }
}

proof fn lemma_plain_before_is_count(segments: Seq<SegmentView>, p: int)
    requires
        0 <= p <= segments.len(),
    ensures
        plain_before(segments, p) == part_of(segments.take(p), false).len(),
    decreases p,
{
    if p > 0 {
        lemma_plain_before_is_count(segments, p - 1);
        assert(segments.take(p).drop_last() =~= segments.take(p - 1));
    }
}

/// Segments without a depth keep their order: the one that has so many of them in
/// front of it before has as many in front of it after.
pub proof fn law_messages_keep_their_order(segments: Seq<SegmentView>, p: int, q: int)
    requires
        0 <= p < segments.len(),
        0 <= q < with_chat_segments(segments).len(),
        segments[p].in_chat_depth is None,
        with_chat_segments(segments)[q].in_chat_depth is None,
        plain_before(segments, p) == plain_before(with_chat_segments(segments), q),
    ensures
        with_chat_segments(segments)[q] == segments[p],
{
    let after = with_chat_segments(segments);
    let messages = part_of(segments, false);
    let others = chat_sorted(part_of(segments, true));
    lemma_part_has_depth(segments);
    lemma_sorted_have_depth(part_of(segments, true));
    assert forall|i: int| 0 <= i < others.len() implies (
    #[trigger] others[i]).in_chat_depth is Some by {
    }
    lemma_placed_keeps_messages(messages, others);
    lemma_plain_at(segments, p);
    lemma_plain_at(after, q);
    lemma_plain_part(segments);
    lemma_part_of_plain(messages);
}

proof fn lemma_part_of_plain(segments: Seq<SegmentView>)
    requires
        forall|i: int| 0 <= i < segments.len() ==> (#[trigger] segments[i]).in_chat_depth is None,
    ensures
        part_of(segments, false) == segments,
    decreases segments.len(),
{
    if segments.len() > 0 {
        lemma_part_of_plain(segments.drop_last());
        assert(segments[segments.len() - 1].in_chat_depth is None);
        assert(segments.drop_last().push(segments.last()) =~= segments);
    }
}

} // verus!
