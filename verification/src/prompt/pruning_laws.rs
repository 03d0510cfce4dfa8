//! What pruning a prompt leaves standing, whatever the prompt.
use vstd::prelude::*;

use crate::prompt::prune::{
    belongs, freed, group_at, group_of, group_order, group_priority, group_slot, has_member,
    is_balanced, last_char, law_pruning_is_balanced, less_by, prunable, Pruned, pruned_from,
    pruned_to, tokens_of, without_group,
};
use crate::prompt::segment::SegmentView;
use crate::text::begins_with;

verus! {

/// A source is that of a piece of a turn: the turn, and behind a colon what piece it
/// is.
pub open spec fn is_of_turn(source: Seq<char>, turn: Seq<char>) -> bool {
    ||| source == "turn:"@ + turn && !turn.contains(':')
    ||| exists|piece: Seq<char>|
        !(#[trigger] piece.contains(':')) && source == "turn:"@ + turn + seq![':'] + piece
}

/// Segments of two sources are pruned together or not at all: they are of one source,
/// or pieces of one turn.
pub open spec fn go_together(left: Seq<char>, right: Seq<char>) -> bool {
    left == right || exists|turn: Seq<char>| #[trigger]
        is_of_turn(left, turn) && is_of_turn(right, turn)
}

/// A segment is one of those that are pruned together with another.
pub open spec fn is_beside(segments: Seq<SegmentView>, i: int, other: int) -> bool {
    &&& 0 <= i < segments.len()
    &&& segments[i].truncation_priority != u32::MAX
    &&& go_together(segments[i].source, segments[other].source)
}

/// What is pruned together with one segment goes before what is pruned together with
/// another: the lowest priority among the first is lower, or is no higher and its
/// first segment stands earlier.
pub open spec fn goes_before(segments: Seq<SegmentView>, a: int, b: int) -> bool {
    ||| exists|x: int| #[trigger]
        is_beside(segments, x, a) && forall|y: int| #[trigger]
            is_beside(segments, y, b) ==> segments[x].truncation_priority
                < segments[y].truncation_priority
    ||| (exists|x: int| #[trigger]
        is_beside(segments, x, a) && forall|y: int| #[trigger]
            is_beside(segments, y, b) ==> segments[x].truncation_priority
                <= segments[y].truncation_priority) && (exists|x: int| #[trigger]
        is_beside(segments, x, a) && forall|y: int| #[trigger]
            is_beside(segments, y, b) ==> x < y)
}

/// Where a character stands last.
pub proof fn lemma_last_char(text: Seq<char>, c: char, end: int)
    requires
        0 <= end <= text.len(),
    ensures
        match last_char(text, c, end) {
            Some(at) => 0 <= at < end && text[at] == c && forall|i: int|
                at < i < end ==> #[trigger] text[i] != c,
            None => forall|i: int| 0 <= i < end ==> #[trigger] text[i] != c,
        },
    decreases end,
{
    if end > 0 && text[end - 1] != c {
        lemma_last_char(text, c, end - 1);
    }
}

proof fn lemma_turn_of(source: Seq<char>, turn: Seq<char>)
    requires
        is_of_turn(source, turn),
    ensures
        group_of(source) == "turn:"@ + turn,
{
    reveal_strlit("turn:");
    let tail = if source == "turn:"@ + turn && !turn.contains(':') {
        turn
    } else {
        let piece = choose|piece: Seq<char>|
            !(#[trigger] piece.contains(':')) && source == "turn:"@ + turn + seq![':'] + piece;
        let tail = turn + seq![':'] + piece;
        assert(source =~= "turn:"@ + tail);
        lemma_last_char(tail, ':', tail.len() as int);
        let at = last_char(tail, ':', tail.len() as int)->0;
        assert(tail[turn.len() as int] == ':');
        if at > turn.len() {
            assert(tail[at] == piece[at - turn.len() - 1]);
            assert(piece.contains(piece[at - turn.len() - 1]));
        }
        assert(tail.take(turn.len() as int) =~= turn);
        tail
    };
    assert(source.take(5) =~= "turn:"@);
    assert(source.skip(5) =~= tail);
    if source == "turn:"@ + turn && !turn.contains(':') {
        lemma_last_char(turn, ':', turn.len() as int);
        if last_char(turn, ':', turn.len() as int) is Some {
            assert(turn.contains(turn[last_char(turn, ':', turn.len() as int)->0]));
        }
    }
}

proof fn lemma_group_is_turn(source: Seq<char>)
    ensures
        begins_with(source, "turn:"@) ==> exists|turn: Seq<char>| #[trigger]
            is_of_turn(source, turn) && group_of(source) == "turn:"@ + turn,
        !begins_with(source, "turn:"@) ==> group_of(source) == source,
{
    if begins_with(source, "turn:"@) {
        reveal_strlit("turn:");
        let tail = source.skip(5);
        assert(source =~= "turn:"@ + tail);
        lemma_last_char(tail, ':', tail.len() as int);
        match last_char(tail, ':', tail.len() as int) {
            Some(at) => {
                let piece = tail.skip(at + 1);
                let turn = tail.take(at);
                if piece.contains(':') {
                    let i = choose|i: int| 0 <= i < piece.len() && piece[i] == ':';
                    assert(tail[at + 1 + i] == ':');
                }
                assert(source =~= "turn:"@ + turn + seq![':'] + piece);
                assert(is_of_turn(source, turn));
            },
            None => {
                if tail.contains(':') {
                    let i = choose|i: int| 0 <= i < tail.len() && tail[i] == ':';
                    assert(tail[i] == ':');
                }
                assert(is_of_turn(source, tail));
            },
        }
    }
}

/// What is pruned together is told by the group.
pub proof fn lemma_groups_go_together(left: Seq<char>, right: Seq<char>)
    ensures
        go_together(left, right) <==> group_of(left) == group_of(right),
{
    reveal_strlit("turn:");
    lemma_group_is_turn(left);
    lemma_group_is_turn(right);
    if left != right && go_together(left, right) {
        let turn = choose|turn: Seq<char>| #[trigger]
            is_of_turn(left, turn) && is_of_turn(right, turn);
        lemma_turn_of(left, turn);
        lemma_turn_of(right, turn);
    }
    if group_of(left) == group_of(right) && left != right {
        if begins_with(left, "turn:"@) {
            let a = choose|turn: Seq<char>| #[trigger]
                is_of_turn(left, turn) && group_of(left) == "turn:"@ + turn;
            if begins_with(right, "turn:"@) {
                let b = choose|turn: Seq<char>| #[trigger]
                    is_of_turn(right, turn) && group_of(right) == "turn:"@ + turn;
                assert(a =~= ("turn:"@ + a).skip(5));
                assert(b =~= ("turn:"@ + b).skip(5));
            } else {
                assert(("turn:"@ + a).take(5) =~= "turn:"@);
            }
        } else if begins_with(right, "turn:"@) {
            let b = choose|turn: Seq<char>| #[trigger]
                is_of_turn(right, turn) && group_of(right) == "turn:"@ + turn;
            assert(("turn:"@ + b).take(5) =~= "turn:"@);
        }
    }
}

proof fn lemma_beside(segments: Seq<SegmentView>, i: int, other: int)
    requires
        0 <= i < segments.len(),
    ensures
        is_beside(segments, i, other) <==> belongs(segments[i], group_at(segments, other)),
{
    lemma_groups_go_together(segments[i].source, segments[other].source);
}

proof fn lemma_priority(segments: Seq<SegmentView>, group: Seq<char>, count: int)
    requires
        0 <= count <= segments.len(),
    ensures
        forall|i: int|
            0 <= i < count && belongs(#[trigger] segments[i], group) ==> group_priority(
                segments,
                group,
                count,
            ) <= segments[i].truncation_priority,
        has_member(segments, group, count) ==> exists|i: int|
            0 <= i < count && belongs(#[trigger] segments[i], group)
                && segments[i].truncation_priority == group_priority(segments, group, count),
    decreases count,
{
    if count > 0 {
        lemma_priority(segments, group, count - 1);
        let last = segments[count - 1];
        if has_member(segments, group, count) {
            if belongs(last, group) && group_priority(segments, group, count)
                == last.truncation_priority {
                assert(belongs(segments[count - 1], group));
            } else if !has_member(segments, group, count - 1) {
                assert(belongs(last, group));
                assert(last.truncation_priority < u32::MAX);
                lemma_no_member_priority(segments, group, count - 1);
            }
        }
    }
}

proof fn lemma_no_member_priority(segments: Seq<SegmentView>, group: Seq<char>, count: int)
    requires
        0 <= count <= segments.len(),
        !has_member(segments, group, count),
    ensures
        group_priority(segments, group, count) == u32::MAX,
    decreases count,
{
    if count > 0 {
        assert(!belongs(segments[count - 1], group));
        lemma_no_member_priority(segments, group, count - 1);
    }
}

/// The priority of the group of a segment.
spec fn rank(segments: Seq<SegmentView>, index: int) -> u32 {
    group_priority(segments, group_at(segments, index), segments.len() as int)
}

/// Places of segments come in the order in which their groups are pruned.
spec fn are_ranked(segments: Seq<SegmentView>, order: Seq<int>) -> bool {
    forall|a: int, b: int|
        0 <= a < b < order.len() ==> rank(segments, #[trigger] order[a]) < rank(
            segments,
            #[trigger] order[b],
        ) || (rank(segments, order[a]) == rank(segments, order[b]) && order[a] < order[b])
}

proof fn lemma_slot(segments: Seq<SegmentView>, leaders: Seq<int>, priority: u32)
    requires
        are_ranked(segments, leaders),
    ensures
        0 <= group_slot(segments, leaders, priority) <= leaders.len(),
        forall|a: int|
            0 <= a < group_slot(segments, leaders, priority) ==> rank(
                segments,
                #[trigger] leaders[a],
            ) <= priority,
        forall|a: int|
            group_slot(segments, leaders, priority) <= a < leaders.len() ==> priority < rank(
                segments,
                #[trigger] leaders[a],
            ),
    decreases leaders.len(),
{
    if leaders.len() > 0 {
        let head = leaders.drop_last();
        let last = leaders.len() - 1;
        assert forall|a: int, b: int| 0 <= a < b < head.len() implies rank(
            segments,
            #[trigger] head[a],
        ) < rank(segments, #[trigger] head[b]) || (rank(segments, head[a]) == rank(
            segments,
            head[b],
        ) && head[a] < head[b]) by {
            assert(head[a] == leaders[a] && head[b] == leaders[b]);
        }
        if priority < rank(segments, leaders.last()) {
            lemma_slot(segments, head, priority);
            let at = group_slot(segments, head, priority);
            assert forall|a: int| 0 <= a < at implies rank(segments, #[trigger] leaders[a])
                <= priority by {
                assert(head[a] == leaders[a]);
            }
            assert forall|a: int| at <= a < leaders.len() implies priority < rank(
                segments,
                #[trigger] leaders[a],
            ) by {
                if a < head.len() {
                    assert(head[a] == leaders[a]);
                }
            }
        } else {
            assert forall|a: int| 0 <= a < leaders.len() implies rank(
                segments,
                #[trigger] leaders[a],
            ) <= priority by {
                if a < last {
                    assert(rank(segments, leaders[a]) <= rank(segments, leaders[last]));
                }
            }
        }
    }
}

/// A segment is the first of its group.
spec fn is_leader(segments: Seq<SegmentView>, index: int) -> bool {
    &&& 0 <= index < segments.len()
    &&& prunable(segments[index])
    &&& !has_member(segments, group_at(segments, index), index)
}

proof fn lemma_order(segments: Seq<SegmentView>, count: int)
    requires
        0 <= count <= segments.len(),
    ensures
        are_ranked(segments, group_order(segments, count)),
        forall|a: int|
            0 <= a < group_order(segments, count).len() ==> is_leader(
                segments,
                #[trigger] group_order(segments, count)[a],
            ) && group_order(segments, count)[a] < count,
        forall|i: int| #[trigger]
            is_leader(segments, i) && i < count ==> group_order(segments, count).contains(i),
    decreases count,
{
    if count > 0 {
        lemma_order(segments, count - 1);
        let head = group_order(segments, count - 1);
        let index = count - 1;
        if is_leader(segments, index) {
            let at = group_slot(segments, head, rank(segments, index));
            lemma_slot(segments, head, rank(segments, index));
            let all = head.insert(at, index);
            assert(group_order(segments, count) == all);
            assert forall|a: int, b: int| 0 <= a < b < all.len() implies rank(
                segments,
                #[trigger] all[a],
            ) < rank(segments, #[trigger] all[b]) || (rank(segments, all[a]) == rank(
                segments,
                all[b],
            ) && all[a] < all[b]) by {
                if a < at {
                    assert(all[a] == head[a]);
                } else if a > at {
                    assert(all[a] == head[a - 1]);
                }
                if b < at {
                    assert(all[b] == head[b]);
                } else if b > at {
                    assert(all[b] == head[b - 1]);
                }
            }
            assert forall|a: int| 0 <= a < all.len() implies is_leader(segments, #[trigger] all[a])
                && all[a] < count by {
                if a < at {
                    assert(all[a] == head[a]);
                } else if a > at {
                    assert(all[a] == head[a - 1]);
                }
            }
            assert forall|i: int| #[trigger] is_leader(segments, i) && i < count implies all.contains(
                i,
            ) by {
                if i == index {
                    assert(all[at] == i);
                } else {
                    let a = choose|a: int| 0 <= a < head.len() && head[a] == i;
                    assert(all[if a < at {
                        a
                    } else {
                        a + 1
                    }] == i);
                }
            }
        }
    }
}

proof fn lemma_leader_of(segments: Seq<SegmentView>, i: int) -> (leader: int)
    requires
        0 <= i < segments.len(),
        prunable(segments[i]),
    ensures
        is_leader(segments, leader),
        leader <= i,
        group_at(segments, leader) == group_at(segments, i),
    decreases i,
{
    if has_member(segments, group_at(segments, i), i) {
        let j = choose|j: int| 0 <= j < i && belongs(#[trigger] segments[j], group_at(segments, i));
        lemma_leader_of(segments, j)
    } else {
        i
    }
}

/// The groups of the first `count` of some leaders have been pruned, and no others.
spec fn has_pruned(
    start: Seq<SegmentView>,
    segments: Seq<SegmentView>,
    order: Seq<int>,
    count: int,
) -> bool {
    &&& segments.len() == start.len()
    &&& forall|i: int|
        0 <= i < start.len() ==> (#[trigger] segments[i]) == (SegmentView {
            pruned: segments[i].pruned,
            ..start[i]
        })
    &&& forall|i: int|
        0 <= i < start.len() ==> ((#[trigger] segments[i]).pruned <==> start[i].pruned || exists|
            k: int,
        |
            0 <= k < count && belongs(start[i], group_at(start, #[trigger] order[k])))
}

proof fn lemma_pruned_prefix(
    start: Seq<SegmentView>,
    pruned: Pruned,
    order: Seq<int>,
    k: int,
    limit: nat,
) -> (count: int)
    requires
        0 <= k <= order.len(),
        has_pruned(start, pruned.segments, order, k),
        is_balanced(start, pruned),
        forall|a: int| 0 <= a < order.len() ==> 0 <= #[trigger] order[a] < start.len(),
    ensures
        k <= count <= order.len(),
        has_pruned(start, pruned_from(pruned, order, k, limit).segments, order, count),
        count == order.len() || pruned_from(pruned, order, k, limit).kept <= limit,
        count == k ==> pruned_from(pruned, order, k, limit) == pruned,
        count > k ==> exists|before: Pruned| #[trigger]
            has_pruned(start, before.segments, order, count - 1) && before.kept > limit
                && pruned_from(pruned, order, k, limit).kept == less_by(
                before.kept,
                freed(before.segments, group_at(start, order[count - 1]), start.len() as int),
            ),
    decreases order.len() - k,
{
    if k >= order.len() || pruned.kept <= limit {
        k
    } else {
        let n = start.len() as int;
        let group = group_at(pruned.segments, order[k]);
        assert(pruned.segments[order[k]].source == start[order[k]].source);
        let tokens = freed(pruned.segments, group, n);
        let next = Pruned {
            segments: without_group(pruned.segments, group, n),
            kept: less_by(pruned.kept, tokens),
            dropped: pruned.dropped + tokens,
        };
        assert(has_pruned(start, next.segments, order, k + 1)) by {
            assert forall|i: int| 0 <= i < n implies ((#[trigger] next.segments[i]).pruned
                <==> start[i].pruned || exists|m: int|
                0 <= m < k + 1 && belongs(start[i], group_at(start, #[trigger] order[m]))) by {
                assert(pruned.segments[i] == (SegmentView {
                    pruned: pruned.segments[i].pruned,
                    ..start[i]
                }));
                if belongs(start[i], group) {
                    assert(belongs(start[i], group_at(start, order[k])));
                }
                if exists|m: int|
                    0 <= m < k + 1 && belongs(start[i], group_at(start, #[trigger] order[m])) {
                    let m = choose|m: int|
                        0 <= m < k + 1 && belongs(start[i], group_at(start, #[trigger] order[m]));
                    if m < k {
                        assert(belongs(start[i], group_at(start, order[m])));
                    }
                }
            }
            assert forall|i: int| 0 <= i < n implies (#[trigger] next.segments[i]) == (
            SegmentView { pruned: next.segments[i].pruned, ..start[i] }) by {
                assert(pruned.segments[i] == (SegmentView {
                    pruned: pruned.segments[i].pruned,
                    ..start[i]
                }));
            }
        }
        crate::prompt::prune::lemma_pruning_step(start, pruned, group);
        let count = lemma_pruned_prefix(start, next, order, k + 1, limit);
        if count == k + 1 {
            assert(has_pruned(start, pruned.segments, order, count - 1));
        }
        count
    }
}

proof fn lemma_pruned_to(segments: Seq<SegmentView>, limit: nat) -> (count: int)
    ensures
        ({
            let order = group_order(segments, segments.len() as int);
            let pruned = pruned_to(segments, limit);
            &&& 0 <= count <= order.len()
            &&& has_pruned(segments, pruned.segments, order, count)
            &&& count == order.len() || pruned.kept <= limit
            &&& count > 0 ==> exists|before: Pruned| #[trigger]
                has_pruned(segments, before.segments, order, count - 1) && before.kept > limit
                    && pruned.kept == less_by(
                    before.kept,
                    freed(
                        before.segments,
                        group_at(segments, order[count - 1]),
                        segments.len() as int,
                    ),
                )
        }),
{
    let order = group_order(segments, segments.len() as int);
    let start = Pruned {
        segments,
        kept: tokens_of(segments, segments.len() as int),
        dropped: 0,
    };
    lemma_order(segments, segments.len() as int);
    crate::prompt::prune::lemma_start_is_balanced(segments);
    assert forall|a: int| 0 <= a < order.len() implies 0 <= #[trigger] order[a]
        < segments.len() by {
        assert(is_leader(segments, order[a]));
    }
    lemma_pruned_prefix(segments, start, order, 0, limit)
}

proof fn lemma_ranked_goes_before(segments: Seq<SegmentView>, a: int, b: int, p: int, q: int)
    requires
        0 <= a < segments.len(),
        0 <= b < segments.len(),
        prunable(segments[a]),
        prunable(segments[b]),
        0 <= p < q < group_order(segments, segments.len() as int).len(),
        group_at(segments, group_order(segments, segments.len() as int)[p]) == group_at(segments, a),
        group_at(segments, group_order(segments, segments.len() as int)[q]) == group_at(segments, b),
    ensures
        goes_before(segments, a, b),
{
    let n = segments.len() as int;
    let order = group_order(segments, n);
    lemma_order(segments, n);
    let first = order[p];
    let second = order[q];
    assert(is_leader(segments, first) && is_leader(segments, second));
    let group = group_at(segments, a);
    let other = group_at(segments, b);
    assert(belongs(segments[a], group));
    lemma_priority(segments, group, n);
    lemma_priority(segments, other, n);
    let x = choose|x: int|
        0 <= x < n && belongs(#[trigger] segments[x], group) && segments[x].truncation_priority
            == group_priority(segments, group, n);
    lemma_beside(segments, x, a);
    assert(is_beside(segments, x, a));
    lemma_beside(segments, first, a);
    assert(is_beside(segments, first, a));
    assert forall|y: int| #[trigger] is_beside(segments, y, b) implies group_priority(
        segments,
        other,
        n,
    ) <= segments[y].truncation_priority && second <= y by {
        lemma_beside(segments, y, b);
        if y < second {
            assert(has_member(segments, other, second));
        }
    }
}

/// What is pruned goes before what is kept: its lowest priority is lower, or is no
/// higher and it stands earlier. So of turns of one priority the oldest go first.
pub proof fn law_the_oldest_are_pruned_first(segments: Seq<SegmentView>, limit: nat, a: int, b: int)
    requires
        0 <= a < segments.len(),
        0 <= b < segments.len(),
        segments[b].truncation_priority != u32::MAX,
        !segments[a].pruned,
        pruned_to(segments, limit).segments[a].pruned,
        !pruned_to(segments, limit).segments[b].pruned,
    ensures
        goes_before(segments, a, b),
{
    let n = segments.len() as int;
    let order = group_order(segments, n);
    let after = pruned_to(segments, limit).segments;
    let count = lemma_pruned_to(segments, limit);
    assert(after[a].pruned);
    let p = choose|k: int|
        0 <= k < count && belongs(segments[a], group_at(segments, #[trigger] order[k]));
    let leader = lemma_leader_of(segments, b);
    lemma_order(segments, n);
    assert(order.contains(leader));
    let q = choose|q: int| 0 <= q < order.len() && order[q] == leader;
    if q < count {
        assert(belongs(segments[b], group_at(segments, order[q])));
        assert(after[b].pruned);
    }
    lemma_ranked_goes_before(segments, a, b, p, q);
}

/// Segments that go together are pruned together: pieces of one turn, and segments
/// of one source.
pub proof fn law_turns_are_pruned_as_a_whole(
    segments: Seq<SegmentView>,
    limit: nat,
    a: int,
    b: int,
)
    requires
        0 <= a < segments.len(),
        0 <= b < segments.len(),
        segments[b].truncation_priority != u32::MAX,
        go_together(segments[a].source, segments[b].source),
        !segments[a].pruned,
        pruned_to(segments, limit).segments[a].pruned,
    ensures
        pruned_to(segments, limit).segments[b].pruned,
{
    lemma_groups_go_together(segments[a].source, segments[b].source);
    law_pruning_is_balanced(segments, limit);
}

/// A segment of the highest priority is never pruned, and nothing of a segment is
/// changed but that it is pruned.
pub proof fn law_protected_segments_stay(segments: Seq<SegmentView>, limit: nat, i: int)
    requires
        0 <= i < segments.len(),
    ensures
        pruned_to(segments, limit).segments.len() == segments.len(),
        pruned_to(segments, limit).segments[i] == (SegmentView {
            pruned: pruned_to(segments, limit).segments[i].pruned,
            ..segments[i]
        }),
        segments[i].truncation_priority == u32::MAX ==> pruned_to(segments, limit).segments[i]
            == segments[i],
{
    law_pruning_is_balanced(segments, limit);
    assert(crate::prompt::prune::is_pruning_of(
        segments[i],
        pruned_to(segments, limit).segments[i],
    ));
}

/// Pruning goes on until the prompt fits, as long as there is something left that
/// may be pruned.
pub proof fn law_pruning_goes_on_until_it_fits(segments: Seq<SegmentView>, limit: nat, i: int)
    requires
        0 <= i < segments.len(),
        segments[i].truncation_priority != u32::MAX,
        !pruned_to(segments, limit).segments[i].pruned,
    ensures
        pruned_to(segments, limit).kept <= limit,
{
    let n = segments.len() as int;
    let order = group_order(segments, n);
    let count = lemma_pruned_to(segments, limit);
    if count == order.len() {
        let leader = lemma_leader_of(segments, i);
        lemma_order(segments, n);
        assert(order.contains(leader));
        let q = choose|q: int| 0 <= q < order.len() && order[q] == leader;
        assert(belongs(segments[i], group_at(segments, order[q])));
        assert(pruned_to(segments, limit).segments[i].pruned);
    }
}

/// The tokens of what was not pruned before of that which goes with a segment.
pub open spec fn tokens_beside(segments: Seq<SegmentView>, other: int, count: int) -> nat
    decreases count,
{
    if count <= 0 {
        0
    } else {
        tokens_beside(segments, other, count - 1) + if is_beside(segments, count - 1, other)
            && !segments[count - 1].pruned {
            segments[count - 1].token_count as nat
        } else {
            0
        }
    }
}

proof fn lemma_freed_is_beside(
    start: Seq<SegmentView>,
    segments: Seq<SegmentView>,
    order: Seq<int>,
    k: int,
    other: int,
    count: int,
)
    requires
        has_pruned(start, segments, order, k),
        0 <= count <= start.len(),
        0 <= k < order.len(),
        0 <= other < start.len(),
        group_at(start, other) == group_at(start, order[k]),
        forall|m: int|
            0 <= m < k ==> group_at(start, #[trigger] order[m]) != group_at(start, order[k]),
    ensures
        freed(segments, group_at(start, order[k]), count) == tokens_beside(start, other, count),
    decreases count,
{
    if count > 0 {
        lemma_freed_is_beside(start, segments, order, k, other, count - 1);
        let i = count - 1;
        lemma_beside(start, i, other);
        assert(segments[i] == (SegmentView { pruned: segments[i].pruned, ..start[i] }));
        if belongs(start[i], group_at(start, order[k])) && segments[i].pruned && !start[i].pruned {
            let m = choose|m: int|
                0 <= m < k && belongs(start[i], group_at(start, #[trigger] order[m]));
            assert(group_at(start, order[m]) == group_at(start, order[k]));
        }
    }
}

/// No more is pruned than it takes: where anything was pruned, the prompt would not
/// fit with what was pruned last of it, and all else that was pruned goes before that.
pub proof fn law_no_more_is_pruned_than_it_takes(segments: Seq<SegmentView>, limit: nat, a: int)
    requires
        0 <= a < segments.len(),
        !segments[a].pruned,
        pruned_to(segments, limit).segments[a].pruned,
    ensures
        exists|last: int|
            {
                &&& 0 <= last < segments.len()
                &&& (#[trigger] pruned_to(segments, limit).segments[last]).pruned
                &&& pruned_to(segments, limit).kept + tokens_beside(
                    segments,
                    last,
                    segments.len() as int,
                ) > limit
                &&& go_together(segments[a].source, segments[last].source) || goes_before(
                    segments,
                    a,
                    last,
                )
            },
{
    let n = segments.len() as int;
    let order = group_order(segments, n);
    let after = pruned_to(segments, limit);
    let count = lemma_pruned_to(segments, limit);
    lemma_order(segments, n);
    let p = choose|k: int|
        0 <= k < count && belongs(segments[a], group_at(segments, #[trigger] order[k]));
    let last = order[count - 1];
    assert(is_leader(segments, last));
    assert(belongs(segments[last], group_at(segments, order[count - 1])));
    assert(after.segments[last].pruned);
    let before = choose|before: Pruned| #[trigger]
        has_pruned(segments, before.segments, order, count - 1) && before.kept > limit
            && after.kept == less_by(
            before.kept,
            freed(before.segments, group_at(segments, order[count - 1]), n),
        );
    assert forall|m: int| 0 <= m < count - 1 implies group_at(segments, #[trigger] order[m])
        != group_at(segments, order[count - 1]) by {
        lemma_leaders_differ(segments, m, count - 1);
    }
    lemma_freed_is_beside(segments, before.segments, order, count - 1, last, n);
    if p < count - 1 {
        lemma_ranked_goes_before(segments, a, last, p, count - 1);
    } else {
        lemma_groups_go_together(segments[a].source, segments[last].source);
    }
}

proof fn lemma_leaders_differ(segments: Seq<SegmentView>, p: int, q: int)
    requires
        0 <= p < q < group_order(segments, segments.len() as int).len(),
    ensures
        group_at(segments, group_order(segments, segments.len() as int)[p]) != group_at(
            segments,
            group_order(segments, segments.len() as int)[q],
        ),
{
    let n = segments.len() as int;
    let order = group_order(segments, n);
    lemma_order(segments, n);
    assert(is_leader(segments, order[p]) && is_leader(segments, order[q]));
    if group_at(segments, order[p]) == group_at(segments, order[q]) {
        let low = if order[p] < order[q] {
            order[p]
        } else {
            order[q]
        };
        let high = if order[p] < order[q] {
            order[q]
        } else {
            order[p]
        };
        assert(low < high);
        assert(belongs(segments[low], group_at(segments, high)));
        assert(has_member(segments, group_at(segments, high), high));
    }
}

/// Every segment counts with all its tokens, pruned before or not, and what is kept
/// and what is pruned make up the whole.
pub proof fn law_every_token_counts(
    head: Seq<SegmentView>,
    last: SegmentView,
    segments: Seq<SegmentView>,
    limit: nat,
)
    ensures
        tokens_of(head.push(last), head.len() as int + 1) == tokens_of(head, head.len() as int)
            + last.token_count,
        tokens_of(segments, 0) == 0,
        pruned_to(segments, limit).kept + pruned_to(segments, limit).dropped == tokens_of(
            segments,
            segments.len() as int,
        ),
{
    lemma_tokens_of_prefix(head, last, head.len() as int);
    law_pruning_is_balanced(segments, limit);
}

proof fn lemma_tokens_of_prefix(head: Seq<SegmentView>, last: SegmentView, count: int)
    requires
        0 <= count <= head.len(),
    ensures
        tokens_of(head.push(last), count) == tokens_of(head, count),
    decreases count,
{
    if count > 0 {
        lemma_tokens_of_prefix(head, last, count - 1);
    }
}

} // verus!
