//! What holds of groups of entries of which one becomes active.
use vstd::prelude::*;

use crate::lore::decision::next_random;
use crate::lore::entry::LoreEntry;
use crate::lore::groups::{
    available, best_score, Candidate, Contest, contested, drawn, entry_of, groups_of, overriding,
    scoring, settled, settled_from, weight, weighted, winner, with_index, with_names,
};
use crate::text::{lemma_with_name, views};

verus! {

/// A candidate is an entry of a group.
pub open spec fn is_of_group(
    entries: Seq<&LoreEntry>,
    candidates: Seq<Candidate>,
    i: int,
    name: Seq<char>,
) -> bool {
    exists|k: int|
        0 <= k < entries[candidates[i].at].group@.len() && (
        #[trigger] entries[candidates[i].at].group@[k])@ == name
}

proof fn lemma_of_group(
    entries: Seq<&LoreEntry>,
    candidates: Seq<Candidate>,
    i: int,
    name: Seq<char>,
)
    ensures
        is_of_group(entries, candidates, i, name) <==> views(
            entry_of(entries, candidates, i).group@,
        ).contains(name),
{
    let group = entry_of(entries, candidates, i).group@;
    if is_of_group(entries, candidates, i, name) {
        let k = choose|k: int| 0 <= k < group.len() && (#[trigger] group[k])@ == name;
        assert(views(group)[k] == name);
    }
    if views(group).contains(name) {
        let k = choose|k: int| 0 <= k < views(group).len() && views(group)[k] == name;
        assert(group[k]@ == name);
    }
}

proof fn lemma_with_index(
    members: Seq<int>,
    groups: Seq<Seq<char>>,
    name: Seq<char>,
    index: int,
    x: int,
)
    ensures
        with_index(members, groups, name, index).contains(x) <==> members.contains(x) || (x
            == index && groups.contains(name)),
    decreases groups.len(),
{
    if groups.len() > 0 {
        let rest = groups.drop_last();
        lemma_with_index(members, rest, name, index, x);
        let head = with_index(members, rest, name, index);
        assert(groups.contains(name) <==> rest.contains(name) || groups.last() == name) by {
            assert(groups =~= rest.push(groups.last()));
            crate::lists::lemma_push_contains(rest, groups.last(), name);
        }
        crate::lists::lemma_push_contains(head, index, x);
    }
}

/// The members that are left of a group.
pub proof fn lemma_available(
    entries: Seq<&LoreEntry>,
    candidates: Seq<Candidate>,
    lost: Seq<bool>,
    name: Seq<char>,
    count: int,
    x: int,
)
    requires
        0 <= count,
    ensures
        available(entries, candidates, lost, name, count).contains(x) <==> 0 <= x < count
            && !lost[x] && is_of_group(entries, candidates, x, name),
    decreases count,
{
    if count > 0 {
        lemma_available(entries, candidates, lost, name, count - 1, x);
        lemma_of_group(entries, candidates, count - 1, name);
        lemma_with_index(
            available(entries, candidates, lost, name, count - 1),
            views(entry_of(entries, candidates, count - 1).group@),
            name,
            count - 1,
            x,
        );
    }
}

/// A place among some members is that of one that overrides, and no other that does
/// is of a higher insertion order, nor of the same and further behind.
pub open spec fn overrides_at(
    entries: Seq<&LoreEntry>,
    candidates: Seq<Candidate>,
    members: Seq<int>,
    p: int,
) -> bool {
    &&& 0 <= p < members.len()
    &&& entries[candidates[members[p]].at].group_override
    &&& forall|k: int|
        0 <= k < members.len() && entries[candidates[#[trigger] members[k]].at].group_override
            ==> {
            ||| entries[candidates[members[k]].at].insertion_order < entries[candidates[
            members[p]].at].insertion_order
            ||| entries[candidates[members[k]].at].insertion_order == entries[candidates[
            members[p]].at].insertion_order && k <= p
        }
}

proof fn lemma_overriding(entries: Seq<&LoreEntry>, candidates: Seq<Candidate>, members: Seq<int>)
    ensures
        match overriding(entries, candidates, members) {
            Some(w) => exists|p: int| #[trigger]
                overrides_at(entries, candidates, members, p) && members[p] == w,
            None => forall|k: int|
                0 <= k < members.len() ==> !entries[candidates[
                #[trigger] members[k]].at].group_override,
        },
    decreases members.len(),
{
    if members.len() > 0 {
        let head = members.drop_last();
        let last = members.len() - 1;
        lemma_overriding(entries, candidates, head);
        assert(forall|k: int| 0 <= k < head.len() ==> head[k] == #[trigger] members[k]);
        assert(members[last] == members.last());
        match overriding(entries, candidates, head) {
            Some(best) => {
                let p = choose|p: int| #[trigger]
                    overrides_at(entries, candidates, head, p) && head[p] == best;
                if overriding(entries, candidates, members) == Some(best) && (
                !entries[candidates[members[last]].at].group_override
                    || entries[candidates[members[last]].at].insertion_order
                    < entries[candidates[best].at].insertion_order) {
                    assert(overrides_at(entries, candidates, members, p));
                } else {
                    assert(overrides_at(entries, candidates, members, last));
                }
            },
            None => {
                if entries[candidates[members[last]].at].group_override {
                    assert(overrides_at(entries, candidates, members, last));
                }
            },
        }
    }
}

proof fn lemma_best_score(candidates: Seq<Candidate>, members: Seq<int>)
    ensures
        forall|k: int|
            0 <= k < members.len() ==> candidates[#[trigger] members[k]].decision.score
                <= best_score(candidates, members),
        members.len() > 0 ==> exists|k: int|
            0 <= k < members.len() && candidates[#[trigger] members[k]].decision.score
                == best_score(candidates, members),
    decreases members.len(),
{
    if members.len() > 0 {
        let head = members.drop_last();
        lemma_best_score(candidates, head);
        assert(forall|k: int| 0 <= k < head.len() ==> head[k] == #[trigger] members[k]);
        let last = members.len() - 1;
        assert(members[last] == members.last());
        if head.len() > 0 && candidates[members.last()].decision.score <= best_score(
            candidates,
            head,
        ) {
            let k = choose|k: int|
                0 <= k < head.len() && candidates[#[trigger] head[k]].decision.score
                    == best_score(candidates, head);
            assert(candidates[members[k]].decision.score == best_score(candidates, members));
        }
    }
}

proof fn lemma_scoring(candidates: Seq<Candidate>, members: Seq<int>, score: usize, x: int)
    ensures
        scoring(candidates, members, score).contains(x) <==> members.contains(x)
            && candidates[x].decision.score == score,
    decreases members.len(),
{
    if members.len() > 0 {
        let head = members.drop_last();
        lemma_scoring(candidates, head, score, x);
        crate::lists::lemma_push_contains(
            scoring(candidates, head, score),
            members.last(),
            x,
        );
        crate::lists::lemma_push_contains(head, members.last(), x);
        assert(members =~= head.push(members.last()));
    }
}

proof fn lemma_weight_grows(
    entries: Seq<&LoreEntry>,
    candidates: Seq<Candidate>,
    members: Seq<int>,
    i: int,
)
    requires
        0 <= i < members.len(),
    ensures
        weight(entries, candidates, members.take(i + 1)) == weight(
            entries,
            candidates,
            members.take(i),
        ) + entries[candidates[members[i]].at].group_weight,
{
    assert(members.take(i + 1).drop_last() =~= members.take(i));
}

proof fn lemma_drawn(
    entries: Seq<&LoreEntry>,
    candidates: Seq<Candidate>,
    members: Seq<int>,
    i: int,
    draw: nat,
) -> (at: int)
    requires
        0 <= i <= members.len(),
        weight(entries, candidates, members.take(i)) <= draw,
        draw < weight(entries, candidates, members),
    ensures
        i <= at < members.len(),
        drawn(entries, candidates, members, i, draw) == members[at],
        weight(entries, candidates, members.take(at)) <= draw,
        draw < weight(entries, candidates, members.take(at)) + entries[candidates[
        members[at]].at].group_weight,
    decreases members.len() - i,
{
    if i == members.len() {
        assert(members.take(i) =~= members);
        i
    } else {
        lemma_weight_grows(entries, candidates, members, i);
        if draw < weight(entries, candidates, members.take(i + 1)) {
            i
        } else {
            lemma_drawn(entries, candidates, members, i + 1, draw)
        }
    }
}

/// A draw falls on the member whose share of the weights it lies in, when the shares
/// are laid out one behind the other. Where nothing has weight the first is taken and
/// nothing is drawn.
pub proof fn law_draws_fall_by_weight(
    entries: Seq<&LoreEntry>,
    candidates: Seq<Candidate>,
    members: Seq<int>,
    random: u64,
)
    requires
        members.len() > 0,
    ensures
        weight(entries, candidates, members) == 0 ==> weighted(
            entries,
            candidates,
            members,
            random,
        ) == (members[0], random),
        weight(entries, candidates, members) > 0 ==> {
            let draw = next_random(random) as nat % weight(entries, candidates, members);
            &&& weighted(entries, candidates, members, random).1 == next_random(random)
            &&& exists|at: int|
                {
                    &&& 0 <= at < members.len()
                    &&& weighted(entries, candidates, members, random).0
                        == #[trigger] members[at]
                    &&& weight(entries, candidates, members.take(at)) <= draw
                    &&& draw < weight(entries, candidates, members.take(at)) + entries[candidates[
                    members[at]].at].group_weight
                }
        },
{
    let total = weight(entries, candidates, members);
    if total > 0 {
        let draw = next_random(random) as nat % total;
        assert(members.take(0) =~= Seq::<int>::empty());
        let at = lemma_drawn(entries, candidates, members, 0, draw);
        assert(weighted(entries, candidates, members, random).0 == members[at]);
    }
}

/// Of a group the one that wins is a member. Members that override win over the
/// others, and of these the last of the highest insertion order, without a draw. Else,
/// where the score counts, a member of the highest score wins.
pub proof fn law_the_winner_is_the_best_member(
    entries: Seq<&LoreEntry>,
    candidates: Seq<Candidate>,
    members: Seq<int>,
    by_score: bool,
    random: u64,
)
    requires
        members.len() > 0,
    ensures
        ({
            let (w, after) = winner(entries, candidates, members, by_score, random);
            &&& members.contains(w)
            &&& forall|k: int|
                0 <= k < members.len() && entries[candidates[
                #[trigger] members[k]].at].group_override ==> after == random && exists|p: int|
                 #[trigger]
                    overrides_at(entries, candidates, members, p) && members[p] == w
            &&& by_score && !entries[candidates[w].at].group_override ==> forall|k: int|
                0 <= k < members.len() ==> candidates[#[trigger] members[k]].decision.score
                    <= candidates[w].decision.score
        }),
{
    lemma_overriding(entries, candidates, members);
    match overriding(entries, candidates, members) {
        Some(_) => {},
        None => {
            let best = best_score(candidates, members);
            let able = if by_score {
                scoring(candidates, members, best)
            } else {
                members
            };
            lemma_best_score(candidates, members);
            let k = choose|k: int|
                0 <= k < members.len() && candidates[#[trigger] members[k]].decision.score == best;
            lemma_scoring(candidates, members, best, members[k]);
            assert(members.contains(members[k]));
            assert(able.len() > 0);
            law_draws_fall_by_weight(entries, candidates, able, random);
            let w = weighted(entries, candidates, able, random).0;
            assert(able.contains(w)) by {
                if weight(entries, candidates, able) == 0 {
                    assert(able[0] == w);
                } else {
                    let draw = next_random(random) as nat % weight(entries, candidates, able);
                    let at = choose|at: int|
                        {
                            &&& 0 <= at < able.len()
                            &&& weighted(entries, candidates, able, random).0
                                == #[trigger] able[at]
                            &&& weight(entries, candidates, able.take(at)) <= draw
                            &&& draw < weight(entries, candidates, able.take(at))
                                + entries[candidates[able[at]].at].group_weight
                        };
                    assert(able[at] == w);
                }
            }
            lemma_scoring(candidates, members, best, w);
            if members.contains(w) {
                let m = choose|m: int| 0 <= m < members.len() && members[m] == w;
                assert(!entries[candidates[members[m]].at].group_override);
            }
        },
    }
}

/// A group has at most one candidate left.
spec fn is_settled(entries: Seq<&LoreEntry>, contest: Contest, name: Seq<char>) -> bool {
    forall|i: int, j: int|
        0 <= i < j < contest.candidates.len() && #[trigger] is_of_group(
            entries,
            contest.candidates,
            i,
            name,
        ) && #[trigger] is_of_group(entries, contest.candidates, j, name) ==> contest.lost[i]
            || contest.lost[j]
}

/// A contest has gone on from another: nobody who had lost is back, and whoever has
/// lost since did so to another of a group of theirs.
spec fn goes_on(entries: Seq<&LoreEntry>, before: Contest, after: Contest) -> bool {
    &&& after.candidates.len() == before.candidates.len()
    &&& after.lost.len() == before.lost.len()
    &&& forall|i: int|
        0 <= i < before.candidates.len() ==> (#[trigger] after.candidates[i]).at
            == before.candidates[i].at
    &&& forall|i: int|
        0 <= i < before.lost.len() && before.lost[i] ==> #[trigger] after.lost[i]
    &&& forall|i: int|
        0 <= i < before.lost.len() && !before.lost[i] && #[trigger] after.lost[i] ==> has_rival(
            entries,
            before.candidates,
            i,
        )
}

/// Another candidate is of a group of this one.
pub open spec fn has_rival(
    entries: Seq<&LoreEntry>,
    candidates: Seq<Candidate>,
    i: int,
) -> bool {
    exists|j: int, name: Seq<char>|
        0 <= j < candidates.len() && j != i && #[trigger] is_of_group(
            entries,
            candidates,
            j,
            name,
        ) && is_of_group(entries, candidates, i, name)
}

proof fn lemma_settled_on(
    entries: Seq<&LoreEntry>,
    contest: Contest,
    name: Seq<char>,
    by_score: bool,
)
    requires
        contest.lost.len() == contest.candidates.len(),
    ensures
        goes_on(entries, contest, settled(entries, contest, name, by_score)),
        is_settled(entries, settled(entries, contest, name, by_score), name),
{
    let candidates = contest.candidates;
    let n = candidates.len() as int;
    let after = settled(entries, contest, name, by_score);
    let members = available(entries, candidates, contest.lost, name, n);
    assert forall|x: int|
        #![trigger members.contains(x)]
        members.contains(x) <==> 0 <= x < n && !contest.lost[x] && is_of_group(
            entries,
            candidates,
            x,
            name,
        ) by {
        lemma_available(entries, candidates, contest.lost, name, n, x);
    }
    if members.len() > 1 {
        law_the_winner_is_the_best_member(entries, candidates, members, by_score, contest.random);
        let w = winner(entries, candidates, members, by_score, contest.random).0;
        assert forall|i: int|
            0 <= i < n && !contest.lost[i] && #[trigger] after.lost[i] implies has_rival(
            entries,
            candidates,
            i,
        ) by {
            assert(members.contains(i) && members.contains(w) && i != w);
            assert(is_of_group(entries, candidates, w, name));
        }
    }
    assert forall|i: int, j: int|
        0 <= i < j < after.candidates.len() && #[trigger] is_of_group(
            entries,
            after.candidates,
            i,
            name,
        ) && #[trigger] is_of_group(entries, after.candidates, j, name) implies after.lost[i]
        || after.lost[j] by {
        assert(is_of_group(entries, candidates, i, name) && is_of_group(
            entries,
            candidates,
            j,
            name,
        )) by {
            assert(after.candidates[i].at == candidates[i].at);
            assert(after.candidates[j].at == candidates[j].at);
        }
        if !contest.lost[i] && !contest.lost[j] {
            assert(members.contains(i) && members.contains(j));
            let a = choose|a: int| 0 <= a < members.len() && members[a] == i;
            let b = choose|b: int| 0 <= b < members.len() && members[b] == j;
            assert(a != b);
            assert(members.len() > 1);
        }
    }
}

proof fn lemma_same_groups(
    entries: Seq<&LoreEntry>,
    before: Seq<Candidate>,
    after: Seq<Candidate>,
    i: int,
    name: Seq<char>,
)
    requires
        before[i].at == after[i].at,
    ensures
        is_of_group(entries, before, i, name) <==> is_of_group(entries, after, i, name),
{
}

proof fn lemma_goes_on(entries: Seq<&LoreEntry>, a: Contest, b: Contest, c: Contest)
    requires
        goes_on(entries, a, b),
        goes_on(entries, b, c),
        a.lost.len() == a.candidates.len(),
    ensures
        goes_on(entries, a, c),
{
    assert forall|i: int|
        0 <= i < a.lost.len() && !a.lost[i] && #[trigger] c.lost[i] implies has_rival(
        entries,
        a.candidates,
        i,
    ) by {
        if b.lost[i] {
        } else {
            assert(has_rival(entries, b.candidates, i));
            let (j, name) = choose|j: int, name: Seq<char>|
                0 <= j < b.candidates.len() && j != i && #[trigger] is_of_group(
                    entries,
                    b.candidates,
                    j,
                    name,
                ) && is_of_group(entries, b.candidates, i, name);
            assert(b.candidates[i].at == a.candidates[i].at);
            assert(b.candidates[j].at == a.candidates[j].at);
            lemma_same_groups(entries, a.candidates, b.candidates, i, name);
            lemma_same_groups(entries, a.candidates, b.candidates, j, name);
        }
    }
    assert forall|i: int| 0 <= i < a.candidates.len() implies (#[trigger] c.candidates[i]).at
        == a.candidates[i].at by {
        assert(b.candidates[i].at == a.candidates[i].at);
    }
    assert forall|i: int| 0 <= i < a.lost.len() && a.lost[i] implies #[trigger] c.lost[i] by {
        assert(b.lost[i]);
    }
}

proof fn lemma_stays_settled(
    entries: Seq<&LoreEntry>,
    before: Contest,
    after: Contest,
    name: Seq<char>,
)
    requires
        goes_on(entries, before, after),
        is_settled(entries, before, name),
        before.lost.len() == before.candidates.len(),
    ensures
        is_settled(entries, after, name),
{
    assert forall|i: int, j: int|
        0 <= i < j < after.candidates.len() && #[trigger] is_of_group(
            entries,
            after.candidates,
            i,
            name,
        ) && #[trigger] is_of_group(entries, after.candidates, j, name) implies after.lost[i]
        || after.lost[j] by {
        assert(after.candidates[i].at == before.candidates[i].at);
        assert(after.candidates[j].at == before.candidates[j].at);
        lemma_same_groups(entries, before.candidates, after.candidates, i, name);
        lemma_same_groups(entries, before.candidates, after.candidates, j, name);
        assert(before.lost[i] || before.lost[j]);
    }
}

proof fn lemma_all_settled(
    entries: Seq<&LoreEntry>,
    contest: Contest,
    names: Seq<Seq<char>>,
    k: int,
    by_score: bool,
)
    requires
        0 <= k <= names.len(),
        contest.lost.len() == contest.candidates.len(),
    ensures
        goes_on(entries, contest, settled_from(entries, contest, names, k, by_score)),
        forall|m: int|
            k <= m < names.len() ==> is_settled(
                entries,
                settled_from(entries, contest, names, k, by_score),
                #[trigger] names[m],
            ),
    decreases names.len() - k,
{
    if k < names.len() {
        let next = settled(entries, contest, names[k], by_score);
        lemma_settled_on(entries, contest, names[k], by_score);
        lemma_all_settled(entries, next, names, k + 1, by_score);
        let end = settled_from(entries, next, names, k + 1, by_score);
        lemma_stays_settled(entries, next, end, names[k]);
        lemma_goes_on(entries, contest, next, end);
    }
}

/// Names put among others are there, and nothing else is.
pub proof fn lemma_with_names(names: Seq<Seq<char>>, more: Seq<Seq<char>>, name: Seq<char>)
    requires
        crate::text::ascending(names),
    ensures
        crate::text::ascending(with_names(names, more)),
        names.contains(name) || more.contains(name) <==> with_names(names, more).contains(name),
    decreases more.len(),
{
    if more.len() > 0 {
        let rest = more.drop_last();
        lemma_with_names(names, rest, name);
        lemma_with_name(with_names(names, rest), more.last());
        assert(more =~= rest.push(more.last()));
        crate::lists::lemma_push_contains(rest, more.last(), name);
    }
}

proof fn lemma_groups_of(
    entries: Seq<&LoreEntry>,
    candidates: Seq<Candidate>,
    count: int,
    i: int,
    name: Seq<char>,
)
    requires
        0 <= count <= candidates.len(),
    ensures
        crate::text::ascending(groups_of(entries, candidates, count)),
        0 <= i < count && is_of_group(entries, candidates, i, name) ==> groups_of(
            entries,
            candidates,
            count,
        ).contains(name),
    decreases count,
{
    if count > 0 {
        lemma_groups_of(entries, candidates, count - 1, i, name);
        lemma_of_group(entries, candidates, count - 1, name);
        lemma_with_names(
            groups_of(entries, candidates, count - 1),
            views(entry_of(entries, candidates, count - 1).group@),
            name,
        );
    }
}

/// Of the candidates of one group no two are left.
pub proof fn law_a_group_keeps_at_most_one(
    entries: Seq<&LoreEntry>,
    candidates: Seq<Candidate>,
    by_score: bool,
    random: u64,
    i: int,
    j: int,
    name: Seq<char>,
)
    requires
        0 <= i < j < candidates.len(),
        is_of_group(entries, candidates, i, name),
        is_of_group(entries, candidates, j, name),
    ensures
        contested(entries, candidates, by_score, random).lost[i] || contested(
            entries,
            candidates,
            by_score,
            random,
        ).lost[j],
{
    let n = candidates.len() as int;
    let names = groups_of(entries, candidates, n);
    let start = Contest { candidates, lost: Seq::new(candidates.len(), |k: int| false), random };
    lemma_all_settled(entries, start, names, 0, by_score);
    lemma_groups_of(entries, candidates, n, i, name);
    let m = choose|m: int| 0 <= m < names.len() && names[m] == name;
    let end = contested(entries, candidates, by_score, random);
    assert(is_settled(entries, end, names[m]));
    assert(end.candidates[i].at == candidates[i].at);
    assert(end.candidates[j].at == candidates[j].at);
    lemma_same_groups(entries, candidates, end.candidates, i, name);
    lemma_same_groups(entries, candidates, end.candidates, j, name);
}

/// A candidate only loses where another is of one of its groups.
pub proof fn law_only_rivals_lose(
    entries: Seq<&LoreEntry>,
    candidates: Seq<Candidate>,
    by_score: bool,
    random: u64,
    i: int,
)
    requires
        0 <= i < candidates.len(),
        contested(entries, candidates, by_score, random).lost[i],
    ensures
        has_rival(entries, candidates, i),
{
    let names = groups_of(entries, candidates, candidates.len() as int);
    let start = Contest { candidates, lost: Seq::new(candidates.len(), |k: int| false), random };
    lemma_all_settled(entries, start, names, 0, by_score);
}

} // verus!
