//! What is told of sessions, whatever they hold.
use vstd::prelude::*;

use crate::artifact::kind::ArtifactKind;
use crate::engine::sessions::{
    before_slashes, CountedTurn, last_selected, of_kind, parent_of, preview_of,
    previous_selection, session_tally, Tally, tallied, tallied_branches, turn_index, TurnOutline,
};
use crate::identity::EntityId;
use crate::prompt::prune::last_char;
use crate::prompt::pruning_laws::lemma_last_char;

verus! {

/// A preview is on one line. It is as long as the text, character for character but
/// for its line breaks, or it is cut to so many characters and ends in an ellipsis.
pub proof fn law_previews_stand_on_one_line(text: Seq<char>, limit: int, i: int)
    requires
        0 <= limit,
        0 <= i < preview_of(text, limit).len(),
    ensures
        preview_of(text, limit)[i] != '\n',
        preview_of(text, limit)[i] != '\r',
        preview_of(text, limit).len() == text.len() || (preview_of(text, limit).len() <= limit + 1
            && preview_of(text, limit).last() == '…'),
        i < text.len() && text[i] != '\n' && text[i] != '\r' ==> preview_of(text, limit)[i]
            == text[i] || i == preview_of(text, limit).len() - 1,
        i < text.len() && (text[i] == '\n' || text[i] == '\r') ==> preview_of(text, limit)[i]
            == ' ' || i == preview_of(text, limit).len() - 1,
{
    assert('…' != '\n' && '…' != '\r' && ' ' != '\n' && ' ' != '\r');
}

proof fn lemma_tallied_seen(tally: Tally, turns: Seq<CountedTurn>, i: int, again: bool, id: EntityId)
    requires
        0 <= i <= turns.len(),
    ensures
        tallied(tally, turns, i, again).seen.contains(id) <==> tally.seen.contains(id) || exists|
            k: int,
        |
            i <= k < turns.len() && (#[trigger] turns[k]).turn_id == id,
    decreases turns.len() - i,
{
    if i < turns.len() {
        let turn = turns[i];
        let next = Tally {
            seen: tally.seen.insert(turn.turn_id),
            tokens: tally.tokens + if again || !tally.seen.contains(turn.turn_id) {
                crate::engine::sessions::turn_tokens(turn)
            } else {
                0
            },
        };
        lemma_tallied_seen(next, turns, i + 1, again, id);
        if turn.turn_id == id {
            assert(turns[i].turn_id == id);
        }
        if exists|k: int| i <= k < turns.len() && (#[trigger] turns[k]).turn_id == id {
            let k = choose|k: int| i <= k < turns.len() && (#[trigger] turns[k]).turn_id == id;
            if k > i {
                assert(turns[k].turn_id == id);
            }
        }
        if exists|k: int| i + 1 <= k < turns.len() && (#[trigger] turns[k]).turn_id == id {
            let k = choose|k: int| i + 1 <= k < turns.len() && (#[trigger] turns[k]).turn_id == id;
            assert(turns[k].turn_id == id);
        }
    }
}

proof fn lemma_tallied_branches_seen(
    tally: Tally,
    branches: Seq<Vec<CountedTurn>>,
    k: int,
    id: EntityId,
)
    requires
        0 <= k <= branches.len(),
    ensures
        tally.seen.contains(id) ==> tallied_branches(tally, branches, k).seen.contains(id),
    decreases branches.len() - k,
{
    if k < branches.len() {
        lemma_tallied_seen(tally, branches[k]@, 0, false, id);
        lemma_tallied_branches_seen(
            tallied(tally, branches[k]@, 0, false),
            branches,
            k + 1,
            id,
        );
    }
}

proof fn lemma_one_branch_more(
    tally: Tally,
    branches: Seq<Vec<CountedTurn>>,
    more: Vec<CountedTurn>,
    k: int,
)
    requires
        0 <= k <= branches.len(),
    ensures
        tallied_branches(tally, branches.push(more), k) == tallied(
            tallied_branches(tally, branches, k),
            more@,
            0,
            false,
        ),
    decreases branches.len() - k,
{
    let all = branches.push(more);
    if k < branches.len() {
        assert(all[k] == branches[k]);
        lemma_one_branch_more(tallied(tally, branches[k]@, 0, false), branches, more, k + 1);
    } else {
        assert(all[k] == more);
        assert(tallied_branches(tallied(tally, more@, 0, false), all, k + 1) == tallied(
            tally,
            more@,
            0,
            false,
        ));
    }
}

proof fn lemma_nothing_new(tally: Tally, turns: Seq<CountedTurn>, i: int)
    requires
        0 <= i <= turns.len(),
        forall|k: int|
            i <= k < turns.len() ==> tally.seen.contains((#[trigger] turns[k]).turn_id),
    ensures
        tallied(tally, turns, i, false).tokens == tally.tokens,
    decreases turns.len() - i,
{
    if i < turns.len() {
        assert(tally.seen.contains(turns[i].turn_id));
        lemma_nothing_new(
            Tally { seen: tally.seen.insert(turns[i].turn_id), tokens: tally.tokens },
            turns,
            i + 1,
        );
    }
}

/// A branch whose turns all stand in the root branch adds no tokens to a session.
pub proof fn law_shared_turns_count_once(
    root: Seq<CountedTurn>,
    others: Seq<Vec<CountedTurn>>,
    branch: Vec<CountedTurn>,
)
    requires
        forall|k: int|
            0 <= k < branch@.len() ==> exists|m: int|
                0 <= m < root.len() && (#[trigger] root[m]).turn_id == (
                #[trigger] branch@[k]).turn_id,
    ensures
        session_tally(root, others.push(branch)).tokens == session_tally(root, others).tokens,
{
    let start = Tally { seen: Set::empty(), tokens: 0 };
    let rooted = tallied(start, root, 0, true);
    lemma_one_branch_more(rooted, others, branch, 0);
    let before = session_tally(root, others);
    assert forall|k: int| 0 <= k < branch@.len() implies before.seen.contains(
        (#[trigger] branch@[k]).turn_id,
    ) by {
        let m = choose|m: int|
            0 <= m < root.len() && (#[trigger] root[m]).turn_id == branch@[k].turn_id;
        lemma_tallied_seen(start, root, 0, true, branch@[k].turn_id);
        assert(root[m].turn_id == branch@[k].turn_id);
        lemma_tallied_branches_seen(rooted, others, 0, branch@[k].turn_id);
    }
    lemma_nothing_new(before, branch@, 0);
}

/// A branch of one turn that was met nowhere before adds what the user said and what
/// was replied.
pub proof fn law_new_turns_count_whole(
    root: Seq<CountedTurn>,
    others: Seq<Vec<CountedTurn>>,
    branch: Vec<CountedTurn>,
)
    requires
        branch@.len() == 1,
        !session_tally(root, others).seen.contains(branch@[0].turn_id),
    ensures
        session_tally(root, others.push(branch)).tokens == session_tally(root, others).tokens
            + branch@[0].user_tokens + branch@[0].reply_tokens,
{
    let start = Tally { seen: Set::empty(), tokens: 0 };
    let rooted = tallied(start, root, 0, true);
    lemma_one_branch_more(rooted, others, branch, 0);
    let before = session_tally(root, others);
    let turn = branch@[0];
    let after = Tally {
        seen: before.seen.insert(turn.turn_id),
        tokens: before.tokens + (turn.user_tokens + turn.reply_tokens) as nat,
    };
    assert(tallied(after, branch@, 1, false) == after);
}

/// Every turn of the root branch counts whole.
pub proof fn law_root_turns_all_count(root: Seq<CountedTurn>, turn: CountedTurn)
    ensures
        session_tally(root.push(turn), Seq::empty()).tokens == session_tally(
            root,
            Seq::empty(),
        ).tokens + turn.user_tokens + turn.reply_tokens,
        session_tally(Seq::empty(), Seq::empty()).tokens == 0,
{
    lemma_root(Tally { seen: Set::empty(), tokens: 0 }, root, turn, 0);
}

proof fn lemma_root(tally: Tally, root: Seq<CountedTurn>, turn: CountedTurn, i: int)
    requires
        0 <= i <= root.len(),
    ensures
        tallied(tally, root.push(turn), i, true).tokens == tallied(tally, root, i, true).tokens
            + turn.user_tokens + turn.reply_tokens,
    decreases root.len() - i,
{
    let all = root.push(turn);
    if i < root.len() {
        assert(all[i] == root[i]);
        lemma_root(
            Tally {
                seen: tally.seen.insert(root[i].turn_id),
                tokens: tally.tokens + crate::engine::sessions::turn_tokens(root[i]),
            },
            root,
            turn,
            i + 1,
        );
    } else {
        assert(all[i] == turn);
        let after = Tally {
            seen: tally.seen.insert(turn.turn_id),
            tokens: tally.tokens + crate::engine::sessions::turn_tokens(turn),
        };
        assert(tallied(after, all, i + 1, true) == after);
    }
}

/// The reply that was selected last is that of the last turn that has one and an
/// attempt that came to its end.
pub proof fn law_the_last_selection_counts(turns: Seq<TurnOutline>, i: int)
    requires
        0 <= i < turns.len(),
        turns[i].selected_candidate_id is Some,
        turns[i].completed,
        forall|k: int|
            i < k < turns.len() ==> (#[trigger] turns[k]).selected_candidate_id is None
                || !turns[k].completed,
    ensures
        last_selected(turns, turns.len() as int) == turns[i].selected_candidate_id,
{
    lemma_last_selected(turns, i, turns.len() as int);
}

proof fn lemma_last_selected(turns: Seq<TurnOutline>, i: int, count: int)
    requires
        0 <= i < count <= turns.len(),
        turns[i].selected_candidate_id is Some,
        turns[i].completed,
        forall|k: int|
            i < k < count ==> (#[trigger] turns[k]).selected_candidate_id is None
                || !turns[k].completed,
    ensures
        last_selected(turns, count) == turns[i].selected_candidate_id,
    decreases count,
{
    if i < count - 1 {
        assert(turns[count - 1].selected_candidate_id is None || !turns[count - 1].completed);
        lemma_last_selected(turns, i, count - 1);
    }
}

proof fn lemma_turn_index(turns: Seq<TurnOutline>, turn_id: EntityId, i: int)
    requires
        0 <= i <= turns.len(),
    ensures
        i <= turn_index(turns, turn_id, i) <= turns.len(),
        turn_index(turns, turn_id, i) < turns.len() ==> turns[turn_index(
            turns,
            turn_id,
            i,
        )].turn_id == turn_id,
    decreases turns.len() - i,
{
    if i < turns.len() && turns[i].turn_id != turn_id {
        lemma_turn_index(turns, turn_id, i + 1);
    }
}

/// The selection before a turn is that of the turn right in front of it.
pub proof fn law_the_previous_selection_stands_right_in_front(
    turns: Seq<TurnOutline>,
    turn_id: EntityId,
    attempt_id: EntityId,
    previous: EntityId,
    candidate: EntityId,
)
    requires
        previous_selection(turns, turn_id, attempt_id) == Ok::<
            (EntityId, EntityId),
            crate::turn::TurnError,
        >((previous, candidate)),
    ensures
        exists|i: int|
            0 < i < turns.len() && (#[trigger] turns[i]).turn_id == turn_id && turns[i
                - 1].turn_id == previous && turns[i - 1].selected_candidate_id == Some(candidate),
{
    lemma_turn_index(turns, turn_id, 0);
    let at = turn_index(turns, turn_id, 0);
    assert(turns[at].turn_id == turn_id);
}

/// The artifacts of a kind are those that are of it, no more and no less; where no
/// kind is asked for all are told.
pub proof fn law_artifacts_are_told_by_kind(
    records: Seq<crate::artifact::revision::ArtifactRecord>,
    kind: Option<ArtifactKind>,
    count: int,
    record: crate::artifact::revision::ArtifactRecord,
)
    requires
        0 <= count <= records.len(),
    ensures
        of_kind(records, kind, count).contains(record) <==> exists|k: int|
            0 <= k < count && #[trigger] records[k] == record && (kind matches Some(wanted)
                ==> record.kind == wanted),
    decreases count,
{
    if count > 0 {
        law_artifacts_are_told_by_kind(records, kind, count - 1, record);
        let head = of_kind(records, kind, count - 1);
        crate::lists::lemma_push_contains(head, records[count - 1], record);
        if exists|k: int|
            0 <= k < count - 1 && #[trigger] records[k] == record && (kind matches Some(wanted)
                ==> record.kind == wanted) {
            let k = choose|k: int|
                0 <= k < count - 1 && #[trigger] records[k] == record && (kind matches Some(
                    wanted,
                ) ==> record.kind == wanted);
            assert(records[k] == record);
        }
        if records[count - 1] == record {
            assert(records[count - 1] == record);
        }
    } else {
        assert(of_kind(records, kind, count) =~= Seq::empty());
    }
}

proof fn lemma_no_slashes(path: Seq<char>, end: int)
    requires
        0 < end <= path.len(),
        path[end - 1] != '/',
    ensures
        before_slashes(path, end) == end,
{
}

/// A file stands in the directory that its path names in front of the last slash.
pub proof fn law_files_stand_in_their_directory(directory: Seq<char>, name: Seq<char>)
    requires
        directory.len() > 0,
        directory.last() != '/',
        name.len() > 0,
        !name.contains('/'),
    ensures
        parent_of(directory + seq!['/'] + name) == Some(directory),
{
    let path = directory + seq!['/'] + name;
    let n = path.len() as int;
    assert(path[n - 1] == name[name.len() - 1]);
    assert(name.contains(name[name.len() - 1]));
    lemma_no_slashes(path, n);
    lemma_last_char(path, '/', n);
    let slash = directory.len() as int;
    assert(path[slash] == '/');
    match last_char(path, '/', n) {
        Some(at) => {
            if at > slash {
                assert(path[at] == name[at - slash - 1]);
                assert(name.contains(name[at - slash - 1]));
            }
            assert(at == slash);
        },
        None => {},
    }
    assert(path[slash - 1] == directory.last());
    lemma_no_slashes(path, slash);
    assert(path.take(slash) =~= directory);
}

} // verus!
