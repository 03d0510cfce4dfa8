//! Of the entries of a group that would become active together, one does.
use vstd::prelude::*;

use crate::lore::decision::{
    advance, decision_views, DecisionView, lemma_decisions_push, LoreDecision,
    LoreDecisionOutcome, next_random,
};
use crate::lore::entry::LoreEntry;
use crate::text::{self, add_name, views, with_name};

verus! {

/// An entry, by its place among all entries, that would become active.
pub struct Candidate {
    pub at: int,
    pub decision: DecisionView,
}

/// The abstract values of a list of candidates.
pub open spec fn candidate_views(candidates: Seq<(usize, LoreDecision)>) -> Seq<Candidate> {
    Seq::new(
        candidates.len(),
        |i: int| Candidate { at: candidates[i].0 as int, decision: candidates[i].1@ },
    )
}

/// Every candidate is an entry.
pub open spec fn candidates_fit(entries: Seq<&LoreEntry>, candidates: Seq<Candidate>) -> bool {
    forall|i: int| 0 <= i < candidates.len() ==> 0 <= (#[trigger] candidates[i]).at < entries.len()
}

/// The entry of a candidate.
pub open spec fn entry_of(
    entries: Seq<&LoreEntry>,
    candidates: Seq<Candidate>,
    index: int,
) -> LoreEntry {
    *entries[candidates[index].at]
}

/// Some names in ascending order with others among them.
pub open spec fn with_names(names: Seq<Seq<char>>, more: Seq<Seq<char>>) -> Seq<Seq<char>>
    decreases more.len(),
{
    if more.len() == 0 {
        names
    } else {
        with_name(with_names(names, more.drop_last()), more.last())
    }
}

/// The groups of the first `count` candidates, in ascending order.
pub open spec fn groups_of(
    entries: Seq<&LoreEntry>,
    candidates: Seq<Candidate>,
    count: int,
) -> Seq<Seq<char>>
    decreases count,
{
    if count <= 0 {
        Seq::empty()
    } else {
        with_names(
            groups_of(entries, candidates, count - 1),
            views(entry_of(entries, candidates, count - 1).group@),
        )
    }
}

/// `members` and then `index`, once for every time that the name stands in
/// the groups.
pub open spec fn with_index(
    members: Seq<int>,
    groups: Seq<Seq<char>>,
    name: Seq<char>,
    index: int,
) -> Seq<int>
    decreases groups.len(),
{
    if groups.len() == 0 {
        members
    } else {
        let head = with_index(members, groups.drop_last(), name, index);
        if groups.last() == name {
            head.push(index)
        } else {
            head
        }
    }
}

/// The members of a group among the first `count` candidates, without those
/// that have lost.
pub open spec fn available(
    entries: Seq<&LoreEntry>,
    candidates: Seq<Candidate>,
    lost: Seq<bool>,
    name: Seq<char>,
    count: int,
) -> Seq<int>
    decreases count,
{
    if count <= 0 {
        Seq::empty()
    } else {
        let head = available(entries, candidates, lost, name, count - 1);
        if lost[count - 1] {
            head
        } else {
            with_index(
                head,
                views(entry_of(entries, candidates, count - 1).group@),
                name,
                count - 1,
            )
        }
    }
}

/// The member that overrides the others: of those that do, the last with the
/// highest insertion order.
pub open spec fn overriding(
    entries: Seq<&LoreEntry>,
    candidates: Seq<Candidate>,
    members: Seq<int>,
) -> Option<int>
    decreases members.len(),
{
    if members.len() == 0 {
        None
    } else {
        let head = overriding(entries, candidates, members.drop_last());
        let entry = entry_of(entries, candidates, members.last());
        if !entry.group_override {
            head
        } else {
            match head {
                None => Some(members.last()),
                Some(best) => if entry.insertion_order >= entry_of(
                    entries,
                    candidates,
                    best,
                ).insertion_order {
                    Some(members.last())
                } else {
                    Some(best)
                },
            }
        }
    }
}

/// The highest score of some members.
pub open spec fn best_score(candidates: Seq<Candidate>, members: Seq<int>) -> usize
    decreases members.len(),
{
    if members.len() == 0 {
        0
    } else {
        let head = best_score(candidates, members.drop_last());
        let score = candidates[members.last()].decision.score;
        if score > head {
            score
        } else {
            head
        }
    }
}

/// The members with a score.
pub open spec fn scoring(candidates: Seq<Candidate>, members: Seq<int>, score: usize) -> Seq<int>
    decreases members.len(),
{
    if members.len() == 0 {
        members
    } else if candidates[members.last()].decision.score == score {
        scoring(candidates, members.drop_last(), score).push(members.last())
    } else {
        scoring(candidates, members.drop_last(), score)
    }
}

/// What some members weigh together.
pub open spec fn weight(
    entries: Seq<&LoreEntry>,
    candidates: Seq<Candidate>,
    members: Seq<int>,
) -> nat
    decreases members.len(),
{
    if members.len() == 0 {
        0
    } else {
        weight(entries, candidates, members.drop_last()) + entry_of(
            entries,
            candidates,
            members.last(),
        ).group_weight as nat
    }
}

/// The member on which a draw falls, when the members from place `i` on are
/// laid out by weight behind those before.
pub open spec fn drawn(
    entries: Seq<&LoreEntry>,
    candidates: Seq<Candidate>,
    members: Seq<int>,
    i: int,
    draw: nat,
) -> int
    decreases members.len() - i,
{
    if i < 0 || i >= members.len() {
        members.last()
    } else if draw < weight(entries, candidates, members.take(i + 1)) {
        members[i]
    } else {
        drawn(entries, candidates, members, i + 1, draw)
    }
}

/// The member that chance picks by weight, and the state of chance after that.
pub open spec fn weighted(
    entries: Seq<&LoreEntry>,
    candidates: Seq<Candidate>,
    members: Seq<int>,
    random: u64,
) -> (int, u64) {
    let total = weight(entries, candidates, members);
    if total == 0 {
        (members[0], random)
    } else {
        let next = next_random(random);
        (drawn(entries, candidates, members, 0, (next as nat) % total), next)
    }
}

/// The member of a group that becomes active, and the state of chance after
/// the choice.
pub open spec fn winner(
    entries: Seq<&LoreEntry>,
    candidates: Seq<Candidate>,
    members: Seq<int>,
    by_score: bool,
    random: u64,
) -> (int, u64) {
    match overriding(entries, candidates, members) {
        Some(index) => (index, random),
        None => if by_score {
            weighted(
                entries,
                candidates,
                scoring(candidates, members, best_score(candidates, members)),
                random,
            )
        } else {
            weighted(entries, candidates, members, random)
        },
    }
}

/// A candidate that is said to belong to a group.
pub open spec fn labelled(candidate: Candidate, name: Seq<char>) -> Candidate {
    Candidate {
        at: candidate.at,
        decision: DecisionView { group: Some(name), ..candidate.decision },
    }
}

/// The candidates, the members among them said to belong to a group.
pub open spec fn with_labels(
    candidates: Seq<Candidate>,
    members: Seq<int>,
    name: Seq<char>,
) -> Seq<Candidate> {
    Seq::new(
        candidates.len(),
        |i: int|
            if members.contains(i) {
                labelled(candidates[i], name)
            } else {
                candidates[i]
            },
    )
}

/// Who has lost once the members other than the winner have.
pub open spec fn with_losers(lost: Seq<bool>, members: Seq<int>, winner: int) -> Seq<bool> {
    Seq::new(lost.len(), |i: int| lost[i] || (members.contains(i) && i != winner))
}

/// The candidates while groups are settled.
pub struct Contest {
    pub candidates: Seq<Candidate>,
    pub lost: Seq<bool>,
    pub random: u64,
}

/// The contest once a group is settled.
pub open spec fn settled(
    entries: Seq<&LoreEntry>,
    contest: Contest,
    name: Seq<char>,
    by_score: bool,
) -> Contest {
    let members = available(
        entries,
        contest.candidates,
        contest.lost,
        name,
        contest.candidates.len() as int,
    );
    if members.len() <= 1 {
        contest
    } else {
        let choice = winner(entries, contest.candidates, members, by_score, contest.random);
        Contest {
            candidates: with_labels(contest.candidates, members, name),
            lost: with_losers(contest.lost, members, choice.0),
            random: choice.1,
        }
    }
}

/// The contest once the groups from place `k` on are settled.
pub open spec fn settled_from(
    entries: Seq<&LoreEntry>,
    contest: Contest,
    names: Seq<Seq<char>>,
    k: int,
    by_score: bool,
) -> Contest
    decreases names.len() - k,
{
    if k < 0 || k >= names.len() {
        contest
    } else {
        settled_from(entries, settled(entries, contest, names[k], by_score), names, k + 1, by_score)
    }
}

/// The contest once all groups are settled.
pub open spec fn contested(
    entries: Seq<&LoreEntry>,
    candidates: Seq<Candidate>,
    by_score: bool,
    random: u64,
) -> Contest {
    settled_from(
        entries,
        Contest { candidates, lost: Seq::new(candidates.len(), |i: int| false), random },
        groups_of(entries, candidates, candidates.len() as int),
        0,
        by_score,
    )
}

/// The candidates from place `i` on that have not lost.
pub open spec fn kept_from(contest: Contest, i: int) -> Seq<Candidate>
    decreases contest.candidates.len() - i,
{
    if i < 0 || i >= contest.candidates.len() {
        Seq::empty()
    } else if contest.lost[i] {
        kept_from(contest, i + 1)
    } else {
        seq![contest.candidates[i]] + kept_from(contest, i + 1)
    }
}

/// What is decided of a candidate that lost.
pub open spec fn rejection(candidate: Candidate) -> DecisionView {
    DecisionView { outcome: LoreDecisionOutcome::GroupRejected, ..candidate.decision }
}

/// What is decided of those of the first `count` candidates that lost, the last
/// of them first.
pub open spec fn rejected_below(contest: Contest, count: int) -> Seq<DecisionView>
    decreases count,
{
    if count <= 0 {
        Seq::empty()
    } else if contest.lost[count - 1] {
        seq![rejection(contest.candidates[count - 1])] + rejected_below(contest, count - 1)
    } else {
        rejected_below(contest, count - 1)
    }
}

/// The indices are those of candidates.
pub open spec fn indices_fit(indices: Seq<int>, count: nat) -> bool {
    forall|i: int| 0 <= i < indices.len() ==> 0 <= #[trigger] indices[i] < count
}

/// The abstract values of a list of indices.
pub open spec fn index_views(indices: Seq<usize>) -> Seq<int> {
    Seq::new(indices.len(), |i: int| indices[i] as int)
}

fn collect_groups(entries: &Vec<&LoreEntry>, candidates: &Vec<(usize, LoreDecision)>) -> (names: Vec<
    String,
>)
    requires
        candidates_fit(entries@, candidate_views(candidates@)),
    ensures
        views(names@) == groups_of(
            entries@,
            candidate_views(candidates@),
            candidates@.len() as int,
        ),
{
    let ghost all = candidate_views(candidates@);
    let mut names: Vec<String> = Vec::new();
    let mut i: usize = 0;
    proof {
        assert(views(names@) =~= Seq::<Seq<char>>::empty());
    }
    while i < candidates.len()
        invariant
            i <= candidates@.len(),
            all == candidate_views(candidates@),
            candidates_fit(entries@, all),
            views(names@) == groups_of(entries@, all, i as int),
            text::ascending(views(names@)),
        decreases candidates@.len() - i,
    {
        proof {
            assert(all[i as int].at == candidates@[i as int].0);
        }
        let group: &Vec<String> = &entries[candidates[i].0].group;
        let ghost before = views(names@);
        let mut k: usize = 0;
        proof {
            assert(views(group@).take(0) =~= Seq::<Seq<char>>::empty());
        }
        while k < group.len()
            invariant
                k <= group@.len(),
                views(names@) == with_names(before, views(group@).take(k as int)),
                text::ascending(views(names@)),
            decreases group@.len() - k,
        {
            proof {
                let next = views(group@).take(k + 1);
                assert(next.drop_last() =~= views(group@).take(k as int));
                assert(next.last() == group@[k as int]@);
            }
            add_name(&mut names, group[k].as_str());
            k = k + 1;
        }
        proof {
            assert(views(group@).take(group@.len() as int) =~= views(group@));
        }
        i = i + 1;
    }
    names
}

proof fn lemma_available_fits(
    entries: Seq<&LoreEntry>,
    candidates: Seq<Candidate>,
    lost: Seq<bool>,
    name: Seq<char>,
    count: int,
)
    requires
        0 <= count <= candidates.len(),
    ensures
        indices_fit(available(entries, candidates, lost, name, count), count as nat),
    decreases count,
{
    if count > 0 {
        lemma_available_fits(entries, candidates, lost, name, count - 1);
        if !lost[count - 1] {
            lemma_with_index_fits(
                available(entries, candidates, lost, name, count - 1),
                views(entry_of(entries, candidates, count - 1).group@),
                name,
                count - 1,
                count as nat,
            );
        }
    }
}

proof fn lemma_with_index_fits(
    members: Seq<int>,
    groups: Seq<Seq<char>>,
    name: Seq<char>,
    index: int,
    count: nat,
)
    requires
        indices_fit(members, count),
        0 <= index < count,
    ensures
        indices_fit(with_index(members, groups, name, index), count),
    decreases groups.len(),
{
    if groups.len() > 0 {
        lemma_with_index_fits(members, groups.drop_last(), name, index, count);
    }
}

fn collect_available(
    entries: &Vec<&LoreEntry>,
    candidates: &Vec<(usize, LoreDecision)>,
    lost: &Vec<bool>,
    name: &str,
) -> (members: Vec<usize>)
    requires
        candidates_fit(entries@, candidate_views(candidates@)),
        lost@.len() == candidates@.len(),
    ensures
        index_views(members@) == available(
            entries@,
            candidate_views(candidates@),
            lost@,
            name@,
            candidates@.len() as int,
        ),
        indices_fit(index_views(members@), candidates@.len()),
{
    let ghost all = candidate_views(candidates@);
    let mut members: Vec<usize> = Vec::new();
    let mut i: usize = 0;
    proof {
        assert(index_views(members@) =~= Seq::<int>::empty());
    }
    while i < candidates.len()
        invariant
            i <= candidates@.len(),
            lost@.len() == candidates@.len(),
            all == candidate_views(candidates@),
            candidates_fit(entries@, all),
            index_views(members@) == available(entries@, all, lost@, name@, i as int),
        decreases candidates@.len() - i,
    {
        if !lost[i] {
            proof {
                assert(all[i as int].at == candidates@[i as int].0);
            }
            let group: &Vec<String> = &entries[candidates[i].0].group;
            let ghost before = index_views(members@);
            let mut k: usize = 0;
            proof {
                assert(views(group@).take(0) =~= Seq::<Seq<char>>::empty());
            }
            while k < group.len()
                invariant
                    k <= group@.len(),
                    index_views(members@) == with_index(
                        before,
                        views(group@).take(k as int),
                        name@,
                        i as int,
                    ),
                decreases group@.len() - k,
            {
                proof {
                    let next = views(group@).take(k + 1);
                    assert(next.drop_last() =~= views(group@).take(k as int));
                    assert(next.last() == group@[k as int]@);
                }
                if text::same(group[k].as_str(), name) {
                    let ghost head = members@;
                    members.push(i);
                    proof {
                        assert(index_views(members@) =~= index_views(head).push(i as int));
                    }
                }
                k = k + 1;
            }
            proof {
                assert(views(group@).take(group@.len() as int) =~= views(group@));
            }
        }
        i = i + 1;
    }
    proof {
        lemma_available_fits(entries@, all, lost@, name@, candidates@.len() as int);
    }
    members
}

proof fn lemma_member_fits(
    entries: Seq<&LoreEntry>,
    candidates: Seq<(usize, LoreDecision)>,
    members: Seq<usize>,
    i: int,
)
    requires
        candidates_fit(entries, candidate_views(candidates)),
        indices_fit(index_views(members), candidates.len()),
        0 <= i < members.len(),
    ensures
        members[i] < candidates.len(),
        candidates[members[i] as int].0 < entries.len(),
        candidate_views(candidates)[members[i] as int] == (Candidate {
            at: candidates[members[i] as int].0 as int,
            decision: candidates[members[i] as int].1@,
        }),
{
    assert(index_views(members)[i] == members[i]);
    assert(candidate_views(candidates)[members[i] as int].at == candidates[members[i] as int].0);
}

fn find_overriding(
    entries: &Vec<&LoreEntry>,
    candidates: &Vec<(usize, LoreDecision)>,
    members: &Vec<usize>,
) -> (found: Option<usize>)
    requires
        candidates_fit(entries@, candidate_views(candidates@)),
        indices_fit(index_views(members@), candidates@.len()),
    ensures
        match found {
            Some(index) => overriding(
                entries@,
                candidate_views(candidates@),
                index_views(members@),
            ) == Some(index as int),
            None => overriding(
                entries@,
                candidate_views(candidates@),
                index_views(members@),
            ) is None,
        },
{
    let ghost all = candidate_views(candidates@);
    let ghost list = index_views(members@);
    let mut found: Option<usize> = None;
    let mut i: usize = 0;
    while i < members.len()
        invariant
            i <= members@.len(),
            all == candidate_views(candidates@),
            list == index_views(members@),
            candidates_fit(entries@, all),
            indices_fit(list, candidates@.len()),
            match found {
                Some(index) => index < candidates@.len() && overriding(
                    entries@,
                    all,
                    list.take(i as int),
                ) == Some(index as int),
                None => overriding(entries@, all, list.take(i as int)) is None,
            },
        decreases members@.len() - i,
    {
        proof {
            lemma_member_fits(entries@, candidates@, members@, i as int);
            assert(list.take(i + 1).drop_last() =~= list.take(i as int));
            assert(list.take(i + 1).last() == members@[i as int]);
        }
        let index: usize = members[i];
        let entry: &LoreEntry = entries[candidates[index].0];
        if entry.group_override {
            found = match found {
                None => Some(index),
                Some(best) => {
                    proof {
                        assert(all[best as int].at == candidates@[best as int].0);
                    }
                    if entry.insertion_order >= entries[candidates[best].0].insertion_order {
                        Some(index)
                    } else {
                        Some(best)
                    }
                },
            };
        }
        i = i + 1;
    }
    proof {
        assert(list.take(members@.len() as int) =~= list);
    }
    found
}

fn find_best_score(
    entries: &Vec<&LoreEntry>,
    candidates: &Vec<(usize, LoreDecision)>,
    members: &Vec<usize>,
) -> (best: usize)
    requires
        candidates_fit(entries@, candidate_views(candidates@)),
        indices_fit(index_views(members@), candidates@.len()),
    ensures
        best == best_score(candidate_views(candidates@), index_views(members@)),
{
    let ghost all = candidate_views(candidates@);
    let ghost list = index_views(members@);
    let mut best: usize = 0;
    let mut i: usize = 0;
    while i < members.len()
        invariant
            i <= members@.len(),
            all == candidate_views(candidates@),
            list == index_views(members@),
            candidates_fit(entries@, all),
            indices_fit(list, candidates@.len()),
            best == best_score(all, list.take(i as int)),
        decreases members@.len() - i,
    {
        proof {
            lemma_member_fits(entries@, candidates@, members@, i as int);
            assert(list.take(i + 1).drop_last() =~= list.take(i as int));
            assert(list.take(i + 1).last() == members@[i as int]);
        }
        let score: usize = candidates[members[i]].1.score;
        if score > best {
            best = score;
        }
        i = i + 1;
    }
    proof {
        assert(list.take(members@.len() as int) =~= list);
    }
    best
}

fn collect_scoring(
    entries: &Vec<&LoreEntry>,
    candidates: &Vec<(usize, LoreDecision)>,
    members: &Vec<usize>,
    score: usize,
) -> (scored: Vec<usize>)
    requires
        candidates_fit(entries@, candidate_views(candidates@)),
        indices_fit(index_views(members@), candidates@.len()),
    ensures
        index_views(scored@) == scoring(
            candidate_views(candidates@),
            index_views(members@),
            score,
        ),
        indices_fit(index_views(scored@), candidates@.len()),
{
    let ghost all = candidate_views(candidates@);
    let ghost list = index_views(members@);
    let mut scored: Vec<usize> = Vec::new();
    let mut i: usize = 0;
    proof {
        assert(list.take(0) =~= index_views(scored@));
    }
    while i < members.len()
        invariant
            i <= members@.len(),
            all == candidate_views(candidates@),
            list == index_views(members@),
            candidates_fit(entries@, all),
            indices_fit(list, candidates@.len()),
            indices_fit(index_views(scored@), candidates@.len()),
            index_views(scored@) == scoring(all, list.take(i as int), score),
        decreases members@.len() - i,
    {
        proof {
            lemma_member_fits(entries@, candidates@, members@, i as int);
            assert(list.take(i + 1).drop_last() =~= list.take(i as int));
            assert(list.take(i + 1).last() == members@[i as int]);
        }
        if candidates[members[i]].1.score == score {
            let ghost head = scored@;
            scored.push(members[i]);
            proof {
                assert(index_views(scored@) =~= index_views(head).push(members@[i as int] as int));
            }
        }
        i = i + 1;
    }
    proof {
        assert(list.take(members@.len() as int) =~= list);
    }
    scored
}

proof fn lemma_weight_bound(
    entries: Seq<&LoreEntry>,
    candidates: Seq<Candidate>,
    members: Seq<int>,
)
    ensures
        weight(entries, candidates, members) <= members.len() * u64::MAX,
    decreases members.len(),
{
    if members.len() > 0 {
        lemma_weight_bound(entries, candidates, members.drop_last());
        assert(members.len() * u64::MAX == (members.len() - 1) * u64::MAX + u64::MAX)
            by (nonlinear_arith);
    }
}

proof fn lemma_weight_fits(
    entries: Seq<&LoreEntry>,
    candidates: Seq<Candidate>,
    members: Seq<int>,
)
    requires
        members.len() <= usize::MAX,
    ensures
        weight(entries, candidates, members) <= u128::MAX,
{
    lemma_weight_bound(entries, candidates, members);
    assert(members.len() * u64::MAX <= u64::MAX * u64::MAX) by (nonlinear_arith)
        requires
            members.len() <= usize::MAX,
            usize::MAX <= u64::MAX,
    ;
    assert(u64::MAX * u64::MAX <= u128::MAX);
}

fn weighted_choice(
    entries: &Vec<&LoreEntry>,
    candidates: &Vec<(usize, LoreDecision)>,
    members: &Vec<usize>,
    random: &mut u64,
) -> (choice: usize)
    requires
        candidates_fit(entries@, candidate_views(candidates@)),
        indices_fit(index_views(members@), candidates@.len()),
        members@.len() > 0,
    ensures
        weighted(
            entries@,
            candidate_views(candidates@),
            index_views(members@),
            *old(random),
        ) == (choice as int, *final(random)),
{
    let ghost all = candidate_views(candidates@);
    let ghost list = index_views(members@);
    let mut total: u128 = 0;
    let mut i: usize = 0;
    while i < members.len()
        invariant
            i <= members@.len(),
            all == candidate_views(candidates@),
            list == index_views(members@),
            candidates_fit(entries@, all),
            indices_fit(list, candidates@.len()),
            total == weight(entries@, all, list.take(i as int)),
        decreases members@.len() - i,
    {
        proof {
            lemma_member_fits(entries@, candidates@, members@, i as int);
            assert(list.take(i + 1).drop_last() =~= list.take(i as int));
            assert(list.take(i + 1).last() == members@[i as int]);
            lemma_weight_fits(entries@, all, list.take(i + 1));
        }
        total = total + entries[candidates[members[i]].0].group_weight as u128;
        i = i + 1;
    }
    proof {
        assert(list.take(members@.len() as int) =~= list);
    }
    if total == 0 {
        return members[0];
    }
    *random = advance(*random);
    let draw: u128 = *random as u128 % total;
    let mut cursor: u128 = 0;
    let mut k: usize = 0;
    while k < members.len()
        invariant
            k <= members@.len(),
            all == candidate_views(candidates@),
            list == index_views(members@),
            candidates_fit(entries@, all),
            indices_fit(list, candidates@.len()),
            cursor == weight(entries@, all, list.take(k as int)),
            drawn(entries@, all, list, 0, draw as nat) == drawn(
                entries@,
                all,
                list,
                k as int,
                draw as nat,
            ),
            *random == next_random(*old(random)),
            total == weight(entries@, all, list),
            total > 0,
            draw == (*random as nat) % (total as nat),
        decreases members@.len() - k,
    {
        proof {
            lemma_member_fits(entries@, candidates@, members@, k as int);
            assert(list.take(k + 1).drop_last() =~= list.take(k as int));
            assert(list.take(k + 1).last() == members@[k as int]);
            lemma_weight_fits(entries@, all, list.take(k + 1));
        }
        cursor = cursor + entries[candidates[members[k]].0].group_weight as u128;
        if draw < cursor {
            return members[k];
        }
        k = k + 1;
    }
    members[members.len() - 1]
}

proof fn lemma_overriding_is_member(
    entries: Seq<&LoreEntry>,
    candidates: Seq<Candidate>,
    members: Seq<int>,
)
    ensures
        overriding(entries, candidates, members) matches Some(index) ==> members.contains(index),
    decreases members.len(),
{
    if members.len() > 0 {
        lemma_overriding_is_member(entries, candidates, members.drop_last());
        let head = members.drop_last();
        assert forall|x: int| head.contains(x) implies #[trigger] members.contains(x) by {
            let k = choose|k: int| 0 <= k < head.len() && head[k] == x;
            assert(members[k] == x);
        }
        assert(members[members.len() - 1] == members.last());
    }
}

proof fn lemma_best_score_is_reached(candidates: Seq<Candidate>, members: Seq<int>)
    requires
        members.len() > 0,
    ensures
        scoring(candidates, members, best_score(candidates, members)).len() > 0,
    decreases members.len(),
{
    let best = best_score(candidates, members);
    if candidates[members.last()].decision.score != best {
        assert(best == best_score(candidates, members.drop_last()));
        if members.len() == 1 {
            assert(members.drop_last().len() == 0);
        } else {
            lemma_best_score_is_reached(candidates, members.drop_last());
        }
    }
}

fn choose_winner(
    entries: &Vec<&LoreEntry>,
    candidates: &Vec<(usize, LoreDecision)>,
    members: &Vec<usize>,
    by_score: bool,
    random: &mut u64,
) -> (choice: usize)
    requires
        candidates_fit(entries@, candidate_views(candidates@)),
        indices_fit(index_views(members@), candidates@.len()),
        members@.len() > 0,
    ensures
        winner(
            entries@,
            candidate_views(candidates@),
            index_views(members@),
            by_score,
            *old(random),
        ) == (choice as int, *final(random)),
{
    if let Some(index) = find_overriding(entries, candidates, members) {
        return index;
    }
    if by_score {
        let best: usize = find_best_score(entries, candidates, members);
        let scored = collect_scoring(entries, candidates, members, best);
        proof {
            lemma_best_score_is_reached(candidate_views(candidates@), index_views(members@));
            assert(index_views(scored@).len() == scored@.len());
        }
        weighted_choice(entries, candidates, &scored, random)
    } else {
        weighted_choice(entries, candidates, members, random)
    }
}

proof fn lemma_contains_upto(members: Seq<int>, i: int, x: int)
    requires
        0 <= i < members.len(),
    ensures
        members.take(i + 1).contains(x) <==> members.take(i).contains(x) || members[i] == x,
{
    let next = members.take(i + 1);
    if members.take(i).contains(x) {
        let k = choose|k: int| 0 <= k < i && members.take(i)[k] == x;
        assert(next[k] == x);
    }
    if next.contains(x) {
        let k = choose|k: int| 0 <= k < i + 1 && next[k] == x;
        if k < i {
            assert(members.take(i)[k] == x);
        }
    }
    assert(next[i] == members[i]);
}

fn settle_group(
    entries: &Vec<&LoreEntry>,
    candidates: &mut Vec<(usize, LoreDecision)>,
    lost: &mut Vec<bool>,
    name: &str,
    by_score: bool,
    random: &mut u64,
)
    requires
        candidates_fit(entries@, candidate_views(old(candidates)@)),
        old(lost)@.len() == old(candidates)@.len(),
    ensures
        (Contest {
            candidates: candidate_views(final(candidates)@),
            lost: final(lost)@,
            random: *final(random),
        }) == settled(
            entries@,
            (Contest {
                candidates: candidate_views(old(candidates)@),
                lost: old(lost)@,
                random: *old(random),
            }),
            name@,
            by_score,
        ),
        final(lost)@.len() == final(candidates)@.len(),
        final(candidates)@.len() == old(candidates)@.len(),
        candidates_fit(entries@, candidate_views(final(candidates)@)),
{
    let ghost all = candidate_views(candidates@);
    let ghost out = lost@;
    let members = collect_available(entries, candidates, lost, name);
    let ghost list = index_views(members@);
    if members.len() <= 1 {
        return;
    }
    let choice: usize = choose_winner(entries, candidates, &members, by_score, random);
    let mut i: usize = 0;
    proof {
        assert(with_labels(all, list.take(0), name@) =~= all);
        assert(with_losers(out, list.take(0), choice as int) =~= out);
    }
    while i < members.len()
        invariant
            i <= members@.len(),
            list == index_views(members@),
            indices_fit(list, all.len()),
            candidates@.len() == all.len(),
            lost@.len() == all.len(),
            out.len() == all.len(),
            candidates_fit(entries@, all),
            candidate_views(candidates@) == with_labels(all, list.take(i as int), name@),
            lost@ == with_losers(out, list.take(i as int), choice as int),
        decreases members@.len() - i,
    {
        let ghost before = candidates@;
        let ghost before_lost = lost@;
        let index: usize = members[i];
        proof {
            assert(list[i as int] == index);
        }
        let label = name.to_owned();
        candidates[index].1.group = Some(label);
        if index != choice {
            lost.set(index, true);
        }
        proof {
            assert forall|x: int| list.take(i + 1).contains(x) <==> list.take(i as int).contains(x)
                || x == index by {
                lemma_contains_upto(list, i as int, x);
            }
            assert forall|x: int| 0 <= x < all.len() implies candidate_views(candidates@)[x]
                == with_labels(all, list.take(i + 1), name@)[x] by {
                assert(candidate_views(before)[x] == with_labels(
                    all,
                    list.take(i as int),
                    name@,
                )[x]);
            }
            assert(candidate_views(candidates@) =~= with_labels(all, list.take(i + 1), name@));
            assert(lost@ =~= with_losers(out, list.take(i + 1), choice as int)) by {
                assert forall|x: int| 0 <= x < out.len() implies lost@[x] == with_losers(
                    out,
                    list.take(i + 1),
                    choice as int,
                )[x] by {
                    assert(before_lost[x] == with_losers(
                        out,
                        list.take(i as int),
                        choice as int,
                    )[x]);
                }
            }
        }
        i = i + 1;
    }
    proof {
        assert(list.take(members@.len() as int) =~= list);
        assert forall|x: int| 0 <= x < all.len() implies 0 <= (#[trigger] candidate_views(
            candidates@,
        )[x]).at < entries@.len() by {
            assert(candidate_views(candidates@)[x] == with_labels(all, list, name@)[x]);
            assert(0 <= all[x].at < entries@.len());
        }
    }
}

/// Settles the groups among the candidates: those that lose are taken out and
/// rejected.
pub(crate) fn choose_groups(
    entries: &Vec<&LoreEntry>,
    candidates: &mut Vec<(usize, LoreDecision)>,
    rejected: &mut Vec<LoreDecision>,
    by_score: bool,
    random: &mut u64,
)
    requires
        candidates_fit(entries@, candidate_views(old(candidates)@)),
    ensures
        ({
            let contest = contested(
                entries@,
                candidate_views(old(candidates)@),
                by_score,
                *old(random),
            );
            &&& candidate_views(final(candidates)@) == kept_from(contest, 0)
            &&& decision_views(final(rejected)@) == decision_views(old(rejected)@)
                + rejected_below(contest, contest.candidates.len() as int)
            &&& *final(random) == contest.random
        }),
        candidates_fit(entries@, candidate_views(final(candidates)@)),
{
    let ghost start = candidate_views(candidates@);
    let ghost seed = *random;
    let names = collect_groups(entries, candidates);
    let ghost groups = views(names@);
    let mut lost: Vec<bool> = Vec::new();
    let mut n: usize = 0;
    while n < candidates.len()
        invariant
            n <= candidates@.len(),
            lost@ == Seq::new(n as nat, |i: int| false),
        decreases candidates@.len() - n,
    {
        lost.push(false);
        n = n + 1;
        proof {
            assert(lost@ =~= Seq::new(n as nat, |i: int| false));
        }
    }
    proof {
        assert(lost@ =~= Seq::new(start.len(), |i: int| false));
    }
    let mut k: usize = 0;
    while k < names.len()
        invariant
            k <= names@.len(),
            groups == views(names@),
            candidates_fit(entries@, candidate_views(candidates@)),
            lost@.len() == candidates@.len(),
            contested(entries@, start, by_score, seed) == settled_from(
                entries@,
                (Contest {
                    candidates: candidate_views(candidates@),
                    lost: lost@,
                    random: *random,
                }),
                groups,
                k as int,
                by_score,
            ),
        decreases names@.len() - k,
    {
        proof {
            assert(groups[k as int] == names@[k as int]@);
        }
        settle_group(entries, candidates, &mut lost, names[k].as_str(), by_score, random);
        k = k + 1;
    }
    let ghost contest = contested(entries@, start, by_score, seed);
    let ghost final_candidates = candidates@;
    let ghost earlier = decision_views(rejected@);
    let mut i: usize = candidates.len();
    proof {
        assert(contest.candidates == candidate_views(final_candidates));
        assert(candidates@ =~= final_candidates.take(i as int));
        assert(candidate_views(candidates@) =~= contest.candidates.take(i as int) + kept_from(
            contest,
            i as int,
        ));
    }
    while i > 0
        invariant
            i <= final_candidates.len(),
            i <= candidates@.len(),
            lost@ == contest.lost,
            lost@.len() == final_candidates.len(),
            contest.candidates == candidate_views(final_candidates),
            candidates_fit(entries@, contest.candidates),
            candidates_fit(entries@, candidate_views(candidates@)),
            candidates@.take(i as int) == final_candidates.take(i as int),
            candidate_views(candidates@) == contest.candidates.take(i as int) + kept_from(
                contest,
                i as int,
            ),
            earlier + rejected_below(contest, final_candidates.len() as int) == decision_views(
                rejected@,
            ) + rejected_below(contest, i as int),
        decreases i,
    {
        i = i - 1;
        let ghost before = candidates@;
        let ghost views_before = candidate_views(candidates@);
        proof {
            assert(candidates@[i as int] == candidates@.take(i + 1)[i as int]);
            assert(final_candidates[i as int] == final_candidates.take(i + 1)[i as int]);
            assert(candidates@[i as int] == final_candidates[i as int]);
            assert(candidates@.take(i + 1).take(i as int) =~= candidates@.take(i as int));
            assert(final_candidates.take(i + 1).take(i as int) =~= final_candidates.take(i as int));
        }
        if lost[i] {
            let taken = candidates.remove(i);
            let mut decision = taken.1;
            decision.outcome = LoreDecisionOutcome::GroupRejected;
            proof {
                lemma_decisions_push(rejected@, decision);
                assert(decision@ == rejection(contest.candidates[i as int]));
                assert(decision_views(rejected@) + (seq![decision@] + rejected_below(
                    contest,
                    i as int,
                )) =~= decision_views(rejected@).push(decision@) + rejected_below(
                    contest,
                    i as int,
                ));
                assert(candidates@ =~= before.remove(i as int));
                assert(candidates@.take(i as int) =~= before.take(i as int));
                assert(candidate_views(candidates@) =~= views_before.remove(i as int));
                assert(views_before.remove(i as int) =~= contest.candidates.take(i as int)
                    + kept_from(contest, i + 1));
            }
            rejected.push(decision);
        } else {
            proof {
                assert(contest.candidates.take(i + 1) + kept_from(contest, i + 1)
                    =~= contest.candidates.take(i as int) + (seq![contest.candidates[i as int]]
                    + kept_from(contest, i + 1)));
            }
        }
        proof {
            assert forall|x: int| 0 <= x < candidates@.len() implies 0 <= (
            #[trigger] candidate_views(candidates@)[x]).at < entries@.len() by {
                if lost@[i as int] {
                    if x < i {
                        assert(candidate_views(candidates@)[x] == views_before[x]);
                    } else {
                        assert(candidate_views(candidates@)[x] == views_before[x + 1]);
                    }
                } else {
                    assert(candidate_views(candidates@)[x] == views_before[x]);
                }
            }
        }
    }
    proof {
        assert(contest.candidates.take(0) + kept_from(contest, 0) =~= kept_from(contest, 0));
        assert(decision_views(rejected@) + Seq::<DecisionView>::empty() =~= decision_views(
            rejected@,
        ));
    }
}

} // verus!
