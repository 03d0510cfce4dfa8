//! How the prompts of two attempts differ.
use vstd::prelude::*;

use crate::identity::{ContentHash, EntityId};
use crate::lists::lemma_push_contains;
use crate::prompt::segment::{optional_hash, PromptSegment, segment_views, SegmentView};
use crate::provider::ChatRole;
use crate::text::{self, copy_option, option_view, same_option};
use crate::turn::PromptPlan;

verus! {

/// The difference of two prompts.
#[derive(Clone, Debug)]
pub struct PromptDiff {
    pub baseline_attempt_id: EntityId,
    pub target_attempt_id: EntityId,
    pub segments: Vec<PromptSegmentDiff>,
    pub token_delta: PromptTokenDelta,
}

/// The difference of a segment of two prompts.
#[derive(Clone, Debug)]
pub struct PromptSegmentDiff {
    pub source: String,
    pub baseline_index: Option<usize>,
    pub target_index: Option<usize>,
    pub baseline: Option<PromptSegmentSnapshot>,
    pub target: Option<PromptSegmentSnapshot>,
    pub changes: Vec<PromptSegmentChange>,
    pub text_diff: Option<PromptTextDiff>,
}

/// What a segment was like.
#[derive(Clone, Debug)]
pub struct PromptSegmentSnapshot {
    pub slot: String,
    pub role: ChatRole,
    pub content: String,
    pub raw_content: String,
    pub token_count: usize,
    pub source_revision: Option<ContentHash>,
    pub source_field: Option<String>,
    pub in_chat_depth: Option<usize>,
    pub in_chat_order: usize,
    pub truncation_priority: u32,
    pub pruned: bool,
}

/// How a segment changed.
#[derive(Clone, Copy, Debug, Eq, PartialEq, Structural)]
pub enum PromptSegmentChange {
    Added,
    Removed,
    Reordered,
    PruningStatusChanged,
    TextModified,
    TokenCountChanged,
    MetadataModified,
}

/// The difference of two texts by characters, by words and by lines.
#[derive(Clone, Debug)]
pub struct PromptTextDiff {
    pub character: Vec<PromptTextChange>,
    pub word: Vec<PromptTextChange>,
    pub line: Vec<PromptTextChange>,
}

/// A piece of text that stayed, came or went.
#[derive(Clone, Debug)]
pub struct PromptTextChange {
    pub kind: PromptTextChangeKind,
    pub value: String,
}

/// Whether a piece of text stayed, came or went.
#[derive(Clone, Copy, Debug, Eq, PartialEq, Structural)]
pub enum PromptTextChangeKind {
    Equal,
    Insert,
    Delete,
}

/// The differences of the numbers of tokens.
#[derive(Clone, Copy, Debug, Eq, PartialEq, Structural)]
pub struct PromptTokenDelta {
    pub kept_tokens: i64,
    pub pruned_tokens: i64,
    pub total_tokens: i64,
}

/// The abstract value of a [`PromptTextChange`].
pub struct ChangeView {
    pub kind: PromptTextChangeKind,
    pub value: Seq<char>,
}

/// The abstract values of a list of changes.
pub open spec fn change_views(changes: Seq<PromptTextChange>) -> Seq<ChangeView> {
    Seq::new(
        changes.len(),
        |i: int| ChangeView { kind: changes[i].kind, value: changes[i].value@ },
    )
}

/// The text that changes start from or lead to: what stayed, and what went or
/// what came.
pub open spec fn side(changes: Seq<ChangeView>, other: PromptTextChangeKind) -> Seq<char>
    decreases changes.len(),
{
    if changes.len() == 0 {
        Seq::empty()
    } else {
        let head = side(changes.drop_last(), other);
        if changes.last().kind == PromptTextChangeKind::Equal || changes.last().kind == other {
            head + changes.last().value
        } else {
            head
        }
    }
}

/// The changes lead from one text to another.
pub open spec fn leads(changes: Seq<ChangeView>, old_text: Seq<char>, new_text: Seq<char>) -> bool {
    &&& side(changes, PromptTextChangeKind::Delete) == old_text
    &&& side(changes, PromptTextChangeKind::Insert) == new_text
}

/// The changes by characters that `similar` finds.
pub uninterp spec fn character_changes_of(old_text: Seq<char>, new_text: Seq<char>) -> Seq<
    ChangeView,
>;

/// The changes by words that `similar` finds.
pub uninterp spec fn word_changes_of(old_text: Seq<char>, new_text: Seq<char>) -> Seq<ChangeView>;

/// The changes by lines that `similar` finds.
pub uninterp spec fn line_changes_of(old_text: Seq<char>, new_text: Seq<char>) -> Seq<ChangeView>;

/// `similar::TextDiff::from_chars` and `iter_all_changes`: the changes depend on
/// the two texts alone and lead from the one to the other.
#[verifier::external_body]
fn character_changes(old_text: &str, new_text: &str) -> (changes: Vec<PromptTextChange>)
    ensures
        change_views(changes@) == character_changes_of(old_text@, new_text@),
        leads(change_views(changes@), old_text@, new_text@),
{
    similar::TextDiff::from_chars(old_text, new_text).iter_all_changes().map(
        |change| PromptTextChange {
            kind: match change.tag() {
                similar::ChangeTag::Equal => PromptTextChangeKind::Equal,
                similar::ChangeTag::Insert => PromptTextChangeKind::Insert,
                similar::ChangeTag::Delete => PromptTextChangeKind::Delete,
            },
            value: change.value().to_owned(),
        },
    ).collect()
}

/// `similar::TextDiff::from_words` and `iter_all_changes`: the changes depend on
/// the two texts alone and lead from the one to the other.
#[verifier::external_body]
fn word_changes(old_text: &str, new_text: &str) -> (changes: Vec<PromptTextChange>)
    ensures
        change_views(changes@) == word_changes_of(old_text@, new_text@),
        leads(change_views(changes@), old_text@, new_text@),
{
    similar::TextDiff::from_words(old_text, new_text).iter_all_changes().map(
        |change| PromptTextChange {
            kind: match change.tag() {
                similar::ChangeTag::Equal => PromptTextChangeKind::Equal,
                similar::ChangeTag::Insert => PromptTextChangeKind::Insert,
                similar::ChangeTag::Delete => PromptTextChangeKind::Delete,
            },
            value: change.value().to_owned(),
        },
    ).collect()
}

/// `similar::TextDiff::from_lines` and `iter_all_changes`: the changes depend on
/// the two texts alone and lead from the one to the other.
#[verifier::external_body]
fn line_changes(old_text: &str, new_text: &str) -> (changes: Vec<PromptTextChange>)
    ensures
        change_views(changes@) == line_changes_of(old_text@, new_text@),
        leads(change_views(changes@), old_text@, new_text@),
{
    similar::TextDiff::from_lines(old_text, new_text).iter_all_changes().map(
        |change| PromptTextChange {
            kind: match change.tag() {
                similar::ChangeTag::Equal => PromptTextChangeKind::Equal,
                similar::ChangeTag::Insert => PromptTextChangeKind::Insert,
                similar::ChangeTag::Delete => PromptTextChangeKind::Delete,
            },
            value: change.value().to_owned(),
        },
    ).collect()
}

/// The changes from place `i` on behind others, neighbours of one kind taken
/// together.
pub open spec fn joined_from(
    changes: Seq<ChangeView>,
    i: int,
    joined: Seq<ChangeView>,
) -> Seq<ChangeView>
    decreases changes.len() - i,
{
    if i < 0 || i >= changes.len() {
        joined
    } else {
        let change = changes[i];
        joined_from(
            changes,
            i + 1,
            if joined.len() > 0 && joined.last().kind == change.kind {
                joined.drop_last().push(
                    ChangeView { kind: change.kind, value: joined.last().value + change.value },
                )
            } else {
                joined.push(change)
            },
        )
    }
}

/// The changes, neighbours of one kind taken together.
pub open spec fn joined(changes: Seq<ChangeView>) -> Seq<ChangeView> {
    joined_from(changes, 0, Seq::empty())
}

fn collect_text_changes(changes: Vec<PromptTextChange>) -> (r: Vec<PromptTextChange>)
    ensures
        change_views(r@) == joined(change_views(changes@)),
{
    let ghost all = change_views(changes@);
    let mut r: Vec<PromptTextChange> = Vec::new();
    let mut i: usize = 0;
    proof {
        assert(change_views(r@) =~= Seq::<ChangeView>::empty());
    }
    while i < changes.len()
        invariant
            i <= changes@.len(),
            all == change_views(changes@),
            joined(all) == joined_from(all, i as int, change_views(r@)),
        decreases changes@.len() - i,
    {
        let ghost before = r@;
        let change = &changes[i];
        let count: usize = r.len();
        if count > 0 && r[count - 1].kind == change.kind {
            let mut last = match r.pop() {
                Some(last) => last,
                None => PromptTextChange { kind: change.kind, value: String::new() },
            };
            last.value.push_str(change.value.as_str());
            r.push(last);
            proof {
                assert(change_views(r@) =~= change_views(before).drop_last().push(
                    ChangeView {
                        kind: change.kind,
                        value: change_views(before).last().value + change.value@,
                    },
                ));
            }
        } else {
            r.push(PromptTextChange { kind: change.kind, value: change.value.clone() });
            proof {
                assert(change_views(r@) =~= change_views(before).push(all[i as int]));
            }
        }
        i = i + 1;
    }
    r
}

/// The abstract value of a [`PromptTextDiff`].
pub struct TextDiffView {
    pub character: Seq<ChangeView>,
    pub word: Seq<ChangeView>,
    pub line: Seq<ChangeView>,
}

/// The difference of two texts.
pub open spec fn text_diff_of(old_text: Seq<char>, new_text: Seq<char>) -> TextDiffView {
    TextDiffView {
        character: joined(character_changes_of(old_text, new_text)),
        word: joined(word_changes_of(old_text, new_text)),
        line: joined(line_changes_of(old_text, new_text)),
    }
}

/// The abstract value of a difference of two texts.
pub open spec fn text_diff_view(diff: PromptTextDiff) -> TextDiffView {
    TextDiffView {
        character: change_views(diff.character@),
        word: change_views(diff.word@),
        line: change_views(diff.line@),
    }
}

/// The difference of two texts: each list of changes leads from the one to the
/// other.
pub fn prompt_text_diff(baseline: &str, target: &str) -> (diff: PromptTextDiff)
    ensures
        text_diff_view(diff) == text_diff_of(baseline@, target@),
        leads(change_views(diff.character@), baseline@, target@),
        leads(change_views(diff.word@), baseline@, target@),
        leads(change_views(diff.line@), baseline@, target@),
{
    let character = character_changes(baseline, target);
    let word = word_changes(baseline, target);
    let line = line_changes(baseline, target);
    proof {
        lemma_joined_sides(change_views(character@));
        lemma_joined_sides(change_views(word@));
        lemma_joined_sides(change_views(line@));
    }
    PromptTextDiff {
        character: collect_text_changes(character),
        word: collect_text_changes(word),
        line: collect_text_changes(line),
    }
}

proof fn lemma_side_push(changes: Seq<ChangeView>, change: ChangeView, other: PromptTextChangeKind)
    ensures
        side(changes.push(change), other) == if change.kind == PromptTextChangeKind::Equal
            || change.kind == other {
            side(changes, other) + change.value
        } else {
            side(changes, other)
        },
{
    assert(changes.push(change).drop_last() =~= changes);
}

proof fn lemma_joined_from_side(
    changes: Seq<ChangeView>,
    i: int,
    joined: Seq<ChangeView>,
    other: PromptTextChangeKind,
)
    requires
        0 <= i <= changes.len(),
        side(joined, other) == side(changes.take(i), other),
    ensures
        side(joined_from(changes, i, joined), other) == side(changes, other),
    decreases changes.len() - i,
{
    if i < changes.len() {
        let change = changes[i];
        assert(changes.take(i + 1) =~= changes.take(i).push(change));
        lemma_side_push(changes.take(i), change, other);
        if joined.len() > 0 && joined.last().kind == change.kind {
            let head = joined.drop_last();
            let last = ChangeView {
                kind: change.kind,
                value: joined.last().value + change.value,
            };
            lemma_side_push(head, last, other);
            assert(side(head, other) + last.value =~= (side(head, other) + joined.last().value)
                + change.value);
            lemma_joined_from_side(changes, i + 1, head.push(last), other);
        } else {
            lemma_side_push(joined, change, other);
            lemma_joined_from_side(changes, i + 1, joined.push(change), other);
        }
    } else {
        assert(changes.take(i) =~= changes);
    }
}

proof fn lemma_joined_sides(changes: Seq<ChangeView>)
    ensures
        side(joined(changes), PromptTextChangeKind::Delete) == side(
            changes,
            PromptTextChangeKind::Delete,
        ),
        side(joined(changes), PromptTextChangeKind::Insert) == side(
            changes,
            PromptTextChangeKind::Insert,
        ),
{
    assert(changes.take(0) =~= Seq::<ChangeView>::empty());
    lemma_joined_from_side(changes, 0, Seq::empty(), PromptTextChangeKind::Delete);
    lemma_joined_from_side(changes, 0, Seq::empty(), PromptTextChangeKind::Insert);
}

/// Taken together, no two neighbours are of one kind.
pub open spec fn alternates(changes: Seq<ChangeView>) -> bool {
    forall|i: int, j: int|
        0 <= i && j == i + 1 && j < changes.len() ==> (#[trigger] changes[i]).kind != (
        #[trigger] changes[j]).kind
}

proof fn lemma_joined_alternates(changes: Seq<ChangeView>, i: int, joined: Seq<ChangeView>)
    requires
        alternates(joined),
    ensures
        alternates(joined_from(changes, i, joined)),
    decreases changes.len() - i,
{
    if 0 <= i < changes.len() {
        let change = changes[i];
        if joined.len() > 0 && joined.last().kind == change.kind {
            let next = joined.drop_last().push(
                ChangeView { kind: change.kind, value: joined.last().value + change.value },
            );
            assert forall|a: int, b: int| 0 <= a && b == a + 1 && b < next.len() implies (
            #[trigger] next[a]).kind != (#[trigger] next[b]).kind by {
                assert(next[a].kind == joined[a].kind);
                assert(next[b].kind == joined[b].kind);
            }
            lemma_joined_alternates(changes, i + 1, next);
        } else {
            lemma_joined_alternates(changes, i + 1, joined.push(change));
        }
    }
}

/// A difference of two texts tells of no two changes of one kind in a row, by
/// characters, words or lines.
pub proof fn law_changes_alternate(changes: Seq<ChangeView>)
    ensures
        alternates(joined(changes)),
{
    lemma_joined_alternates(changes, 0, Seq::empty());
}

/// The abstract value of a [`PromptSegmentSnapshot`].
pub struct SnapshotView {
    pub slot: Seq<char>,
    pub role: ChatRole,
    pub content: Seq<char>,
    pub raw_content: Seq<char>,
    pub token_count: usize,
    pub source_revision: Option<Seq<u8>>,
    pub source_field: Option<Seq<char>>,
    pub in_chat_depth: Option<usize>,
    pub in_chat_order: usize,
    pub truncation_priority: u32,
    pub pruned: bool,
}

/// What a segment is like.
pub open spec fn snapshot_of(segment: SegmentView) -> SnapshotView {
    SnapshotView {
        slot: segment.slot,
        role: segment.role,
        content: segment.content,
        raw_content: segment.raw_content,
        token_count: segment.token_count,
        source_revision: segment.source_revision,
        source_field: segment.source_field,
        in_chat_depth: segment.in_chat_depth,
        in_chat_order: segment.in_chat_order,
        truncation_priority: segment.truncation_priority,
        pruned: segment.pruned,
    }
}

/// The abstract value of a snapshot.
pub open spec fn snapshot_view(snapshot: PromptSegmentSnapshot) -> SnapshotView {
    SnapshotView {
        slot: snapshot.slot@,
        role: snapshot.role,
        content: snapshot.content@,
        raw_content: snapshot.raw_content@,
        token_count: snapshot.token_count,
        source_revision: optional_hash(snapshot.source_revision),
        source_field: option_view(snapshot.source_field),
        in_chat_depth: snapshot.in_chat_depth,
        in_chat_order: snapshot.in_chat_order,
        truncation_priority: snapshot.truncation_priority,
        pruned: snapshot.pruned,
    }
}

fn take_snapshot(segment: &PromptSegment) -> (snapshot: PromptSegmentSnapshot)
    ensures
        snapshot_view(snapshot) == snapshot_of(segment@),
{
    PromptSegmentSnapshot {
        slot: segment.slot.clone(),
        role: segment.role,
        content: segment.content.clone(),
        raw_content: segment.raw_content.clone(),
        token_count: segment.token_count,
        source_revision: segment.source_revision,
        source_field: copy_option(&segment.source_field),
        in_chat_depth: segment.in_chat_depth,
        in_chat_order: segment.in_chat_order,
        truncation_priority: segment.truncation_priority,
        pruned: segment.pruned,
    }
}

/// Two segments are the same piece of a prompt, whatever it holds.
pub open spec fn same_piece(left: SegmentView, right: SegmentView) -> bool {
    &&& left.source == right.source
    &&& left.slot == right.slot
    &&& left.role == right.role
    &&& left.source_revision == right.source_revision
    &&& left.source_field == right.source_field
    &&& left.in_chat_depth == right.in_chat_depth
    &&& left.in_chat_order == right.in_chat_order
}

/// Two segments correspond: they are the same piece or, where that is not asked
/// for, of the same source.
pub open spec fn corresponds(left: SegmentView, right: SegmentView, exactly: bool) -> bool {
    if exactly {
        same_piece(left, right)
    } else {
        left.source == right.source
    }
}

fn same_hash(left: &Option<ContentHash>, right: &Option<ContentHash>) -> (r: bool)
    ensures
        r == (optional_hash(*left) == optional_hash(*right)),
{
    match (left, right) {
        (Some(a), Some(b)) => a.same(b),
        (None, None) => true,
        _ => false,
    }
}

fn same_size(left: &Option<usize>, right: &Option<usize>) -> (r: bool)
    ensures
        r == (*left == *right),
{
    match (left, right) {
        (Some(a), Some(b)) => *a == *b,
        (None, None) => true,
        _ => false,
    }
}

fn check_same_piece(left: &PromptSegment, right: &PromptSegment) -> (r: bool)
    ensures
        r == same_piece(left@, right@),
{
    text::same(left.source.as_str(), right.source.as_str()) && text::same(
        left.slot.as_str(),
        right.slot.as_str(),
    ) && left.role == right.role && same_hash(&left.source_revision, &right.source_revision)
        && same_option(&left.source_field, &right.source_field) && same_size(
        &left.in_chat_depth,
        &right.in_chat_depth,
    ) && left.in_chat_order == right.in_chat_order
}

fn check_corresponds(left: &PromptSegment, right: &PromptSegment, exactly: bool) -> (r: bool)
    ensures
        r == corresponds(left@, right@, exactly),
{
    if exactly {
        check_same_piece(left, right)
    } else {
        text::same(left.source.as_str(), right.source.as_str())
    }
}

/// Which segment of the target each segment of the baseline is matched with, and
/// which segments of the target are taken.
pub struct Matches {
    pub found: Seq<Option<int>>,
    pub taken: Seq<bool>,
}

/// The first free segment of the target from place `j` on that corresponds to
/// one of the baseline, or `target.len()` when there is none.
pub open spec fn first_free(
    segment: SegmentView,
    target: Seq<SegmentView>,
    taken: Seq<bool>,
    exactly: bool,
    j: int,
) -> int
    decreases target.len() - j,
{
    if j < 0 || j >= target.len() {
        target.len() as int
    } else if !taken[j] && corresponds(segment, target[j], exactly) {
        j
    } else {
        first_free(segment, target, taken, exactly, j + 1)
    }
}

/// The matches once the segments of the baseline from place `i` on that have
/// none look for one.
pub open spec fn matched_from(
    baseline: Seq<SegmentView>,
    target: Seq<SegmentView>,
    exactly: bool,
    i: int,
    matches: Matches,
) -> Matches
    decreases baseline.len() - i,
{
    if i < 0 || i >= baseline.len() {
        matches
    } else {
        let j = first_free(baseline[i], target, matches.taken, exactly, 0);
        matched_from(
            baseline,
            target,
            exactly,
            i + 1,
            if matches.found[i] is None && j < target.len() {
                Matches {
                    found: matches.found.update(i, Some(j)),
                    taken: matches.taken.update(j, true),
                }
            } else {
                matches
            },
        )
    }
}

/// No matches.
pub open spec fn no_matches(baseline: Seq<SegmentView>, target: Seq<SegmentView>) -> Matches {
    Matches {
        found: Seq::new(baseline.len(), |i: int| None),
        taken: Seq::new(target.len(), |i: int| false),
    }
}

/// The matches of two prompts: the same piece where there is one, else a piece
/// of the same source.
pub open spec fn matches_of(baseline: Seq<SegmentView>, target: Seq<SegmentView>) -> Matches {
    matched_from(
        baseline,
        target,
        false,
        0,
        matched_from(baseline, target, true, 0, no_matches(baseline, target)),
    )
}

/// The abstract values of places that may be absent.
pub open spec fn place_views(places: Seq<Option<usize>>) -> Seq<Option<int>> {
    Seq::new(
        places.len(),
        |i: int|
            match places[i] {
                Some(p) => Some(p as int),
                None => None,
            },
    )
}

/// The matches are between segments of the two prompts.
pub open spec fn matches_fit(matches: Matches, baseline: nat, target: nat) -> bool {
    &&& matches.found.len() == baseline
    &&& matches.taken.len() == target
    &&& forall|i: int|
        0 <= i < baseline ==> (#[trigger] matches.found[i] matches Some(j) ==> 0 <= j < target)
}

fn find_free(
    segment: &PromptSegment,
    target: &Vec<PromptSegment>,
    taken: &Vec<bool>,
    exactly: bool,
) -> (j: usize)
    requires
        taken@.len() == target@.len(),
    ensures
        j == first_free(segment@, segment_views(target@), taken@, exactly, 0),
        j <= target@.len(),
{
    let ghost all = segment_views(target@);
    let mut j: usize = 0;
    while j < target.len()
        invariant
            j <= target@.len(),
            all == segment_views(target@),
            taken@.len() == target@.len(),
            first_free(segment@, all, taken@, exactly, 0) == first_free(
                segment@,
                all,
                taken@,
                exactly,
                j as int,
            ),
        decreases target@.len() - j,
    {
        proof {
            assert(all[j as int] == target@[j as int]@);
        }
        if !taken[j] && check_corresponds(segment, &target[j], exactly) {
            return j;
        }
        j = j + 1;
    }
    j
}

fn match_round(
    baseline: &Vec<PromptSegment>,
    target: &Vec<PromptSegment>,
    exactly: bool,
    found: &mut Vec<Option<usize>>,
    taken: &mut Vec<bool>,
)
    requires
        matches_fit(
            (Matches { found: place_views(old(found)@), taken: old(taken)@ }),
            baseline@.len(),
            target@.len(),
        ),
    ensures
        (Matches { found: place_views(final(found)@), taken: final(taken)@ }) == matched_from(
            segment_views(baseline@),
            segment_views(target@),
            exactly,
            0,
            (Matches { found: place_views(old(found)@), taken: old(taken)@ }),
        ),
        matches_fit(
            (Matches { found: place_views(final(found)@), taken: final(taken)@ }),
            baseline@.len(),
            target@.len(),
        ),
{
    let ghost start = Matches { found: place_views(found@), taken: taken@ };
    let ghost left = segment_views(baseline@);
    let ghost right = segment_views(target@);
    let mut i: usize = 0;
    while i < baseline.len()
        invariant
            i <= baseline@.len(),
            left == segment_views(baseline@),
            right == segment_views(target@),
            matches_fit(
                (Matches { found: place_views(found@), taken: taken@ }),
                baseline@.len(),
                target@.len(),
            ),
            matched_from(left, right, exactly, 0, start) == matched_from(
                left,
                right,
                exactly,
                i as int,
                (Matches { found: place_views(found@), taken: taken@ }),
            ),
        decreases baseline@.len() - i,
    {
        let ghost before = place_views(found@);
        proof {
            assert(left[i as int] == baseline@[i as int]@);
            assert(before.len() == found@.len());
            assert((before[i as int] is None) == (found@[i as int] is None));
        }
        if found[i].is_none() {
            let j: usize = find_free(&baseline[i], target, taken, exactly);
            if j < target.len() {
                found.set(i, Some(j));
                taken.set(j, true);
                proof {
                    assert(place_views(found@) =~= before.update(i as int, Some(j as int)));
                }
            }
        }
        i = i + 1;
    }
}

fn match_segments(baseline: &Vec<PromptSegment>, target: &Vec<PromptSegment>) -> (r: (
    Vec<Option<usize>>,
    Vec<bool>,
))
    ensures
        (Matches { found: place_views(r.0@), taken: r.1@ }) == matches_of(
            segment_views(baseline@),
            segment_views(target@),
        ),
        matches_fit(
            (Matches { found: place_views(r.0@), taken: r.1@ }),
            baseline@.len(),
            target@.len(),
        ),
{
    let mut found: Vec<Option<usize>> = Vec::new();
    let mut taken: Vec<bool> = Vec::new();
    let mut i: usize = 0;
    while i < baseline.len()
        invariant
            i <= baseline@.len(),
            found@.len() == i,
            forall|j: int| 0 <= j < i ==> #[trigger] found@[j] is None,
        decreases baseline@.len() - i,
    {
        found.push(None);
        i = i + 1;
    }
    let mut k: usize = 0;
    while k < target.len()
        invariant
            k <= target@.len(),
            taken@.len() == k,
            forall|j: int| 0 <= j < k ==> #[trigger] taken@[j] == false,
        decreases target@.len() - k,
    {
        taken.push(false);
        k = k + 1;
    }
    proof {
        let none = no_matches(segment_views(baseline@), segment_views(target@));
        assert(place_views(found@) =~= none.found);
        assert(taken@ =~= none.taken);
    }
    match_round(baseline, target, true, &mut found, &mut taken);
    match_round(baseline, target, false, &mut found, &mut taken);
    (found, taken)
}

/// A matched segment has changed places with another: one matched before it
/// stands behind it in the target, or one matched after it before it.
pub open spec fn is_reordered(found: Seq<Option<int>>, i: int) -> bool {
    exists|k: int|
        0 <= k < found.len() && (#[trigger] found[k]) is Some && found[i] is Some && ((k < i
            && found[k]->0 > found[i]->0) || (k > i && found[k]->0 < found[i]->0))
}

fn check_reordered(found: &Vec<Option<usize>>, i: usize) -> (r: bool)
    requires
        i < found@.len(),
    ensures
        r == is_reordered(place_views(found@), i as int),
{
    let ghost all = place_views(found@);
    proof {
        assert(all[i as int] is Some == found@[i as int] is Some);
    }
    let own: usize = match found[i] {
        Some(own) => own,
        None => return false,
    };
    let mut k: usize = 0;
    while k < found.len()
        invariant
            k <= found@.len(),
            i < found@.len(),
            all == place_views(found@),
            found@[i as int] == Some(own),
            forall|m: int|
                0 <= m < k ==> !((#[trigger] all[m]) is Some && ((m < i && all[m]->0 > own) || (m
                    > i && all[m]->0 < own))),
        decreases found@.len() - k,
    {
        proof {
            assert(all[i as int] == Some(own as int));
            assert(all[k as int] is Some == found@[k as int] is Some);
        }
        if let Some(other) = found[k] {
            if (k < i && other > own) || (k > i && other < own) {
                proof {
                    assert(all[k as int] == Some(other as int));
                }
                return true;
            }
        }
        k = k + 1;
    }
    proof {
        assert(all[i as int] == Some(own as int));
    }
    false
}

/// Something of a segment has changed beside its text, its tokens and whether
/// it is pruned.
pub open spec fn metadata_changed(left: SegmentView, right: SegmentView) -> bool {
    !same_piece(left, right) || left.truncation_priority != right.truncation_priority
}

/// `changes`, with one more where it holds.
pub open spec fn with_change(
    changes: Seq<PromptSegmentChange>,
    change: PromptSegmentChange,
    holds: bool,
) -> Seq<PromptSegmentChange> {
    if holds {
        changes.push(change)
    } else {
        changes
    }
}

/// How a matched segment changed.
pub open spec fn changes_of(
    left: SegmentView,
    right: SegmentView,
    reordered: bool,
) -> Seq<PromptSegmentChange> {
    let moved = with_change(Seq::empty(), PromptSegmentChange::Reordered, reordered);
    let pruned = with_change(
        moved,
        PromptSegmentChange::PruningStatusChanged,
        left.pruned != right.pruned,
    );
    let modified = with_change(
        pruned,
        PromptSegmentChange::TextModified,
        left.content != right.content,
    );
    let counted = with_change(
        modified,
        PromptSegmentChange::TokenCountChanged,
        left.token_count != right.token_count,
    );
    with_change(counted, PromptSegmentChange::MetadataModified, metadata_changed(left, right))
}

fn add_change(
    changes: &mut Vec<PromptSegmentChange>,
    change: PromptSegmentChange,
    holds: bool,
)
    ensures
        final(changes)@ == with_change(old(changes)@, change, holds),
{
    if holds {
        changes.push(change);
    }
}

fn list_changes(left: &PromptSegment, right: &PromptSegment, reordered: bool) -> (changes: Vec<
    PromptSegmentChange,
>)
    ensures
        changes@ == changes_of(left@, right@, reordered),
{
    let mut changes: Vec<PromptSegmentChange> = Vec::new();
    add_change(&mut changes, PromptSegmentChange::Reordered, reordered);
    add_change(
        &mut changes,
        PromptSegmentChange::PruningStatusChanged,
        left.pruned != right.pruned,
    );
    add_change(
        &mut changes,
        PromptSegmentChange::TextModified,
        !text::same(left.content.as_str(), right.content.as_str()),
    );
    add_change(
        &mut changes,
        PromptSegmentChange::TokenCountChanged,
        left.token_count != right.token_count,
    );
    add_change(
        &mut changes,
        PromptSegmentChange::MetadataModified,
        !check_same_piece(left, right) || left.truncation_priority != right.truncation_priority,
    );
    changes
}

/// The abstract value of a [`PromptSegmentDiff`].
pub struct SegmentDiffView {
    pub source: Seq<char>,
    pub baseline_index: Option<usize>,
    pub target_index: Option<usize>,
    pub baseline: Option<SnapshotView>,
    pub target: Option<SnapshotView>,
    pub changes: Seq<PromptSegmentChange>,
    pub text_diff: Option<TextDiffView>,
}

/// The abstract value of a snapshot that may be absent.
pub open spec fn optional_snapshot(snapshot: Option<PromptSegmentSnapshot>) -> Option<
    SnapshotView,
> {
    match snapshot {
        Some(s) => Some(snapshot_view(s)),
        None => None,
    }
}

impl View for PromptSegmentDiff {
    type V = SegmentDiffView;

    open spec fn view(&self) -> SegmentDiffView {
        SegmentDiffView {
            source: self.source@,
            baseline_index: self.baseline_index,
            target_index: self.target_index,
            baseline: optional_snapshot(self.baseline),
            target: optional_snapshot(self.target),
            changes: self.changes@,
            text_diff: match self.text_diff {
                Some(diff) => Some(text_diff_view(diff)),
                None => None,
            },
        }
    }
}

/// The abstract values of the differences of some segments.
pub open spec fn diff_views(diffs: Seq<PromptSegmentDiff>) -> Seq<SegmentDiffView> {
    Seq::new(diffs.len(), |i: int| diffs[i]@)
}

/// A segment that the target does not have.
pub open spec fn removed_of(segment: SegmentView, index: int) -> SegmentDiffView {
    SegmentDiffView {
        source: segment.source,
        baseline_index: Some(index as usize),
        target_index: None,
        baseline: Some(snapshot_of(segment)),
        target: None,
        changes: seq![PromptSegmentChange::Removed],
        text_diff: Some(text_diff_of(segment.content, ""@)),
    }
}

/// A segment that the baseline does not have.
pub open spec fn added_of(segment: SegmentView, index: int) -> SegmentDiffView {
    SegmentDiffView {
        source: segment.source,
        baseline_index: None,
        target_index: Some(index as usize),
        baseline: None,
        target: Some(snapshot_of(segment)),
        changes: seq![PromptSegmentChange::Added],
        text_diff: Some(text_diff_of(""@, segment.content)),
    }
}

/// A segment that both prompts have and that changed.
pub open spec fn changed_of(
    left: SegmentView,
    right: SegmentView,
    left_index: int,
    right_index: int,
    reordered: bool,
) -> SegmentDiffView {
    SegmentDiffView {
        source: right.source,
        baseline_index: Some(left_index as usize),
        target_index: Some(right_index as usize),
        baseline: Some(snapshot_of(left)),
        target: Some(snapshot_of(right)),
        changes: changes_of(left, right, reordered),
        text_diff: if left.content != right.content {
            Some(text_diff_of(left.content, right.content))
        } else {
            None
        },
    }
}

/// What there is to tell of a segment of the baseline.
pub open spec fn told_of(
    baseline: Seq<SegmentView>,
    target: Seq<SegmentView>,
    found: Seq<Option<int>>,
    i: int,
) -> Option<SegmentDiffView> {
    match found[i] {
        None => Some(removed_of(baseline[i], i)),
        Some(j) => {
            let reordered = is_reordered(found, i);
            if changes_of(baseline[i], target[j], reordered).len() == 0 {
                None
            } else {
                Some(changed_of(baseline[i], target[j], i, j, reordered))
            }
        },
    }
}

/// What there is to tell of the first `count` segments of the baseline.
pub open spec fn baseline_told(
    baseline: Seq<SegmentView>,
    target: Seq<SegmentView>,
    found: Seq<Option<int>>,
    count: int,
) -> Seq<SegmentDiffView>
    decreases count,
{
    if count <= 0 {
        Seq::empty()
    } else {
        let head = baseline_told(baseline, target, found, count - 1);
        match told_of(baseline, target, found, count - 1) {
            Some(diff) => head.push(diff),
            None => head,
        }
    }
}

/// `told`, and what there is to tell of the first `count` segments of the target
/// that are not taken.
pub open spec fn target_told(
    told: Seq<SegmentDiffView>,
    target: Seq<SegmentView>,
    taken: Seq<bool>,
    count: int,
) -> Seq<SegmentDiffView>
    decreases count,
{
    if count <= 0 {
        told
    } else {
        let head = target_told(told, target, taken, count - 1);
        if taken[count - 1] {
            head
        } else {
            head.push(added_of(target[count - 1], count - 1))
        }
    }
}

/// The place by which the difference of a segment is ordered: that in the
/// target, or else that in the baseline.
pub open spec fn place_of(diff: SegmentDiffView) -> usize {
    match diff.target_index {
        Some(i) => i,
        None => match diff.baseline_index {
            Some(i) => i,
            None => usize::MAX,
        },
    }
}

/// Where a difference goes among others: behind all at the end that are not
/// placed behind it.
pub open spec fn diff_slot(diffs: Seq<SegmentDiffView>, place: usize) -> int
    decreases diffs.len(),
{
    if diffs.len() > 0 && place < place_of(diffs.last()) {
        diff_slot(diffs.drop_last(), place)
    } else {
        diffs.len() as int
    }
}

/// The differences by place. Those of one place keep their order.
pub open spec fn by_place(diffs: Seq<SegmentDiffView>) -> Seq<SegmentDiffView>
    decreases diffs.len(),
{
    if diffs.len() == 0 {
        diffs
    } else {
        let head = by_place(diffs.drop_last());
        head.insert(diff_slot(head, place_of(diffs.last())), diffs.last())
    }
}

/// The differences of the segments of two prompts.
pub open spec fn segment_diffs(
    baseline: Seq<SegmentView>,
    target: Seq<SegmentView>,
) -> Seq<SegmentDiffView> {
    let matches = matches_of(baseline, target);
    by_place(
        target_told(
            baseline_told(baseline, target, matches.found, baseline.len() as int),
            target,
            matches.taken,
            target.len() as int,
        ),
    )
}

/// The text of a segment on one side of a difference: none where it is not there.
pub open spec fn content_on(side: Option<SnapshotView>) -> Seq<char> {
    match side {
        Some(snapshot) => snapshot.content,
        None => Seq::empty(),
    }
}

/// The difference of two texts that a segment comes with leads from what it held in
/// the baseline to what it holds in the target, by characters, words and lines.
pub open spec fn leads_to_target(diff: SegmentDiffView) -> bool {
    diff.text_diff matches Some(told) ==> {
        &&& leads(told.character, content_on(diff.baseline), content_on(diff.target))
        &&& leads(told.word, content_on(diff.baseline), content_on(diff.target))
        &&& leads(told.line, content_on(diff.baseline), content_on(diff.target))
    }
}

fn find_place(diff: &PromptSegmentDiff) -> (place: usize)
    ensures
        place == place_of(diff@),
{
    match diff.target_index {
        Some(i) => i,
        None => match diff.baseline_index {
            Some(i) => i,
            None => usize::MAX,
        },
    }
}

fn insert_diff(diffs: &mut Vec<PromptSegmentDiff>, diff: PromptSegmentDiff)
    ensures
        diff_views(final(diffs)@) == diff_views(old(diffs)@).insert(
            diff_slot(diff_views(old(diffs)@), place_of(diff@)),
            diff@,
        ),
        leads_to_target(diff@) && (forall|k: int|
            0 <= k < old(diffs)@.len() ==> leads_to_target((#[trigger] old(diffs)@[k])@))
            ==> forall|k: int|
            0 <= k < final(diffs)@.len() ==> leads_to_target((#[trigger] final(diffs)@[k])@),
{
    let ghost earlier = diffs@;
    let ghost before = diff_views(diffs@);
    let place: usize = find_place(&diff);
    let mut at: usize = diffs.len();
    proof {
        assert(before.take(at as int) =~= before);
    }
    while at > 0 && place < find_place(&diffs[at - 1])
        invariant
            at <= diffs@.len(),
            before == diff_views(diffs@),
            diff_slot(before, place) == diff_slot(before.take(at as int), place),
        decreases at,
    {
        proof {
            assert(before.take(at as int).drop_last() =~= before.take(at - 1));
            assert(before.take(at as int).last() == diffs@[at - 1]@);
        }
        at = at - 1;
    }
    proof {
        assert(at > 0 ==> before.take(at as int).last() == diffs@[at - 1]@);
        assert(diff_slot(before, place) == at);
    }
    diffs.insert(at, diff);
    proof {
        assert(diff_views(diffs@) =~= before.insert(at as int, diff@));
        assert forall|k: int| 0 <= k < diffs@.len() implies (#[trigger] diffs@[k]) == if k < at {
            earlier[k]
        } else if k == at {
            diff
        } else {
            earlier[k - 1]
        } by {}
    }
}

fn removed_segment(index: usize, segment: &PromptSegment) -> (diff: PromptSegmentDiff)
    ensures
        diff@ == removed_of(segment@, index as int),
        leads_to_target(diff@),
{
    proof {
        reveal_strlit("");
        assert(""@ =~= Seq::<char>::empty());
    }
    let mut changes: Vec<PromptSegmentChange> = Vec::new();
    changes.push(PromptSegmentChange::Removed);
    proof {
        assert(changes@ =~= seq![PromptSegmentChange::Removed]);
    }
    PromptSegmentDiff {
        source: segment.source.clone(),
        baseline_index: Some(index),
        target_index: None,
        baseline: Some(take_snapshot(segment)),
        target: None,
        changes,
        text_diff: Some(prompt_text_diff(segment.content.as_str(), "")),
    }
}

fn added_segment(index: usize, segment: &PromptSegment) -> (diff: PromptSegmentDiff)
    ensures
        diff@ == added_of(segment@, index as int),
        leads_to_target(diff@),
{
    proof {
        reveal_strlit("");
        assert(""@ =~= Seq::<char>::empty());
    }
    let mut changes: Vec<PromptSegmentChange> = Vec::new();
    changes.push(PromptSegmentChange::Added);
    proof {
        assert(changes@ =~= seq![PromptSegmentChange::Added]);
    }
    PromptSegmentDiff {
        source: segment.source.clone(),
        baseline_index: None,
        target_index: Some(index),
        baseline: None,
        target: Some(take_snapshot(segment)),
        changes,
        text_diff: Some(prompt_text_diff("", segment.content.as_str())),
    }
}

fn tell_of(
    baseline: &Vec<PromptSegment>,
    target: &Vec<PromptSegment>,
    found: &Vec<Option<usize>>,
    i: usize,
) -> (told: Option<PromptSegmentDiff>)
    requires
        i < baseline@.len(),
        found@.len() == baseline@.len(),
        found@[i as int] matches Some(j) ==> j < target@.len(),
    ensures
        match told {
            Some(diff) => told_of(
                segment_views(baseline@),
                segment_views(target@),
                place_views(found@),
                i as int,
            ) == Some(diff@),
            None => told_of(
                segment_views(baseline@),
                segment_views(target@),
                place_views(found@),
                i as int,
            ) is None,
        },
        told matches Some(diff) ==> leads_to_target(diff@),
{
    let left = &baseline[i];
    proof {
        assert(segment_views(baseline@)[i as int] == left@);
    }
    let j: usize = match found[i] {
        Some(j) => j,
        None => {
            proof {
                assert(place_views(found@)[i as int] is None);
            }
            return Some(removed_segment(i, left));
        },
    };
    let right = &target[j];
    proof {
        assert(place_views(found@)[i as int] == Some(j as int));
        assert(segment_views(target@)[j as int] == right@);
    }
    let reordered = check_reordered(found, i);
    let changes = list_changes(left, right, reordered);
    if changes.len() == 0 {
        return None;
    }
    let text_diff: Option<PromptTextDiff> = if text::same(
        left.content.as_str(),
        right.content.as_str(),
    ) {
        None
    } else {
        Some(prompt_text_diff(left.content.as_str(), right.content.as_str()))
    };
    Some(
        PromptSegmentDiff {
            source: right.source.clone(),
            baseline_index: Some(i),
            target_index: Some(j),
            baseline: Some(take_snapshot(left)),
            target: Some(take_snapshot(right)),
            changes,
            text_diff,
        },
    )
}

fn diff_segments(baseline: &Vec<PromptSegment>, target: &Vec<PromptSegment>) -> (diffs: Vec<
    PromptSegmentDiff,
>)
    ensures
        diff_views(diffs@) == segment_diffs(segment_views(baseline@), segment_views(target@)),
        forall|k: int| 0 <= k < diffs@.len() ==> leads_to_target((#[trigger] diffs@[k])@),
{
    let ghost left = segment_views(baseline@);
    let ghost right = segment_views(target@);
    let (found, taken) = match_segments(baseline, target);
    let ghost places = place_views(found@);
    let mut diffs: Vec<PromptSegmentDiff> = Vec::new();
    let mut i: usize = 0;
    proof {
        assert(diff_views(diffs@) =~= by_place(Seq::<SegmentDiffView>::empty()));
    }
    while i < baseline.len()
        invariant
            i <= baseline@.len(),
            left == segment_views(baseline@),
            right == segment_views(target@),
            places == place_views(found@),
            matches_fit(
                (Matches { found: places, taken: taken@ }),
                baseline@.len(),
                target@.len(),
            ),
            diff_views(diffs@) == by_place(baseline_told(left, right, places, i as int)),
            forall|k: int| 0 <= k < diffs@.len() ==> leads_to_target((#[trigger] diffs@[k])@),
        decreases baseline@.len() - i,
    {
        proof {
            assert(places.len() == found@.len());
            assert(places[i as int] == match found@[i as int] {
                Some(p) => Some(p as int),
                None => None,
            });
        }
        if let Some(diff) = tell_of(baseline, target, &found, i) {
            proof {
                let head = baseline_told(left, right, places, i as int);
                assert(head.push(diff@).drop_last() =~= head);
            }
            insert_diff(&mut diffs, diff);
        }
        i = i + 1;
    }
    let ghost told = baseline_told(left, right, places, baseline@.len() as int);
    let mut j: usize = 0;
    while j < target.len()
        invariant
            j <= target@.len(),
            right == segment_views(target@),
            taken@.len() == target@.len(),
            diff_views(diffs@) == by_place(target_told(told, right, taken@, j as int)),
            forall|k: int| 0 <= k < diffs@.len() ==> leads_to_target((#[trigger] diffs@[k])@),
        decreases target@.len() - j,
    {
        if !taken[j] {
            proof {
                assert(right[j as int] == target@[j as int]@);
                let head = target_told(told, right, taken@, j as int);
                assert(head.push(added_of(right[j as int], j as int)).drop_last() =~= head);
            }
            let diff = added_segment(j, &target[j]);
            insert_diff(&mut diffs, diff);
        }
        j = j + 1;
    }
    diffs
}

/// The numbers of tokens of a prompt are in the range of signed numbers.
pub open spec fn countable(plan: PromptPlan) -> bool {
    &&& plan.total_tokens <= i64::MAX
    &&& plan.pruning.kept_tokens <= i64::MAX
    &&& plan.pruning.pruned_tokens <= i64::MAX
}

/// The difference of the prompts of two attempts.
pub open spec fn is_prompt_diff(
    diff: PromptDiff,
    baseline_attempt_id: EntityId,
    baseline: PromptPlan,
    target_attempt_id: EntityId,
    target: PromptPlan,
) -> bool {
    &&& diff.baseline_attempt_id == baseline_attempt_id
    &&& diff.target_attempt_id == target_attempt_id
    &&& diff_views(diff.segments@) == segment_diffs(
        segment_views(baseline.segments@),
        segment_views(target.segments@),
    )
    &&& diff.token_delta.kept_tokens == target.pruning.kept_tokens - baseline.pruning.kept_tokens
    &&& diff.token_delta.pruned_tokens == target.pruning.pruned_tokens
        - baseline.pruning.pruned_tokens
    &&& diff.token_delta.total_tokens == target.total_tokens - baseline.total_tokens
}

/// The difference of two prompts.
pub fn diff_prompt_plans(
    baseline_attempt_id: EntityId,
    baseline: &PromptPlan,
    target_attempt_id: EntityId,
    target: &PromptPlan,
) -> (diff: PromptDiff)
    requires
        countable(*baseline),
        countable(*target),
    ensures
        is_prompt_diff(diff, baseline_attempt_id, *baseline, target_attempt_id, *target),
        forall|k: int|
            0 <= k < diff.segments@.len() ==> leads_to_target((#[trigger] diff.segments@[k])@),
{
    PromptDiff {
        baseline_attempt_id,
        target_attempt_id,
        segments: diff_segments(&baseline.segments, &target.segments),
        token_delta: PromptTokenDelta {
            kept_tokens: delta(baseline.pruning.kept_tokens, target.pruning.kept_tokens),
            pruned_tokens: delta(baseline.pruning.pruned_tokens, target.pruning.pruned_tokens),
            total_tokens: delta(baseline.total_tokens, target.total_tokens),
        },
    }
}

fn delta(baseline: usize, target: usize) -> (difference: i64)
    requires
        baseline <= i64::MAX,
        target <= i64::MAX,
    ensures
        difference == target - baseline,
{
    target as i64 - baseline as i64
}

/// A prompt does not differ from itself.
pub proof fn law_no_difference_to_itself(segments: Seq<SegmentView>)
    ensures
        segment_diffs(segments, segments).len() == 0,
{
    let count = segments.len() as int;
    let start = no_matches(segments, segments);
    assert(start == upto(segments.len(), 0)) by {
        assert(start.found =~= upto(segments.len(), 0).found);
        assert(start.taken =~= upto(segments.len(), 0).taken);
    }
    lemma_matched_to_itself(segments, 0);
    let whole = upto(segments.len(), count);
    lemma_all_matched(segments, 0, whole);
    assert(matches_of(segments, segments) == whole);
    lemma_nothing_told(segments, whole.found, count);
    assert(baseline_told(segments, segments, whole.found, count) =~= Seq::empty());
    lemma_nothing_added(segments, whole.taken, count);
    assert(by_place(Seq::<SegmentDiffView>::empty()).len() == 0);
}

/// The first `n` segments are matched with themselves.
spec fn upto(count: nat, n: int) -> Matches {
    Matches {
        found: Seq::new(
            count,
            |i: int|
                if i < n {
                    Some(i)
                } else {
                    None
                },
        ),
        taken: Seq::new(count, |i: int| i < n),
    }
}

proof fn lemma_first_free_is(segments: Seq<SegmentView>, n: int, j: int)
    requires
        0 <= j <= n < segments.len(),
    ensures
        first_free(segments[n], segments, upto(segments.len(), n).taken, true, j) == n,
    decreases n - j,
{
    if j < n {
        lemma_first_free_is(segments, n, j + 1);
    }
}

proof fn lemma_matched_to_itself(segments: Seq<SegmentView>, n: int)
    requires
        0 <= n <= segments.len(),
    ensures
        matched_from(segments, segments, true, n, upto(segments.len(), n)) == upto(
            segments.len(),
            segments.len() as int,
        ),
    decreases segments.len() - n,
{
    if n < segments.len() {
        lemma_first_free_is(segments, n, 0);
        let next = upto(segments.len(), n + 1);
        let now = upto(segments.len(), n);
        assert(now.found.update(n, Some(n)) =~= next.found);
        assert(now.taken.update(n, true) =~= next.taken);
        lemma_matched_to_itself(segments, n + 1);
    }
}

proof fn lemma_all_matched(segments: Seq<SegmentView>, i: int, matches: Matches)
    requires
        0 <= i <= segments.len(),
        matches.found.len() == segments.len(),
        forall|k: int| 0 <= k < segments.len() ==> #[trigger] matches.found[k] is Some,
    ensures
        matched_from(segments, segments, false, i, matches) == matches,
    decreases segments.len() - i,
{
    if i < segments.len() {
        assert(matches.found[i] is Some);
        lemma_all_matched(segments, i + 1, matches);
    }
}

proof fn lemma_nothing_told(segments: Seq<SegmentView>, found: Seq<Option<int>>, count: int)
    requires
        0 <= count <= segments.len(),
        found == upto(segments.len(), segments.len() as int).found,
    ensures
        baseline_told(segments, segments, found, count).len() == 0,
    decreases count,
{
    if count > 0 {
        lemma_nothing_told(segments, found, count - 1);
        assert(!is_reordered(found, count - 1));
    }
}

proof fn lemma_nothing_added(segments: Seq<SegmentView>, taken: Seq<bool>, count: int)
    requires
        0 <= count <= segments.len(),
        taken == upto(segments.len(), segments.len() as int).taken,
    ensures
        target_told(Seq::empty(), segments, taken, count).len() == 0,
    decreases count,
{
    if count > 0 {
        lemma_nothing_added(segments, taken, count - 1);
    }
}

/// A segment on one side of a difference is shown as it stands in its prompt.
pub open spec fn is_shown_as(snapshot: SnapshotView, segment: SegmentView) -> bool {
    &&& snapshot.slot == segment.slot
    &&& snapshot.role == segment.role
    &&& snapshot.content == segment.content
    &&& snapshot.raw_content == segment.raw_content
    &&& snapshot.token_count == segment.token_count
    &&& snapshot.source_revision == segment.source_revision
    &&& snapshot.source_field == segment.source_field
    &&& snapshot.in_chat_depth == segment.in_chat_depth
    &&& snapshot.in_chat_order == segment.in_chat_order
    &&& snapshot.truncation_priority == segment.truncation_priority
    &&& snapshot.pruned == segment.pruned
}

/// Two segments of one source are alike in all that makes them the piece that they
/// are, beside what they hold.
pub open spec fn agree_beside_content(left: SegmentView, right: SegmentView) -> bool {
    &&& left.slot == right.slot
    &&& left.role == right.role
    &&& left.source_revision == right.source_revision
    &&& left.source_field == right.source_field
    &&& left.in_chat_depth == right.in_chat_depth
    &&& left.in_chat_order == right.in_chat_order
    &&& left.truncation_priority == right.truncation_priority
}

/// A difference says of segments of two prompts what is so: where they stand, what
/// they hold, and in what they differ.
pub open spec fn tells_truly(
    diff: SegmentDiffView,
    baseline: Seq<SegmentView>,
    target: Seq<SegmentView>,
) -> bool {
    &&& diff.baseline_index is Some == diff.baseline is Some
    &&& diff.target_index is Some == diff.target is Some
    &&& diff.baseline_index matches Some(i) ==> {
        &&& i < baseline.len()
        &&& diff.source == baseline[i as int].source
        &&& is_shown_as(diff.baseline->0, baseline[i as int])
    }
    &&& diff.target_index matches Some(j) ==> {
        &&& j < target.len()
        &&& diff.source == target[j as int].source
        &&& is_shown_as(diff.target->0, target[j as int])
    }
    &&& match (diff.baseline_index, diff.target_index) {
        (Some(i), Some(j)) => {
            let left = baseline[i as int];
            let right = target[j as int];
            &&& !diff.changes.contains(PromptSegmentChange::Added)
            &&& !diff.changes.contains(PromptSegmentChange::Removed)
            &&& diff.changes.contains(PromptSegmentChange::TextModified) <==> left.content
                != right.content
            &&& diff.changes.contains(PromptSegmentChange::TokenCountChanged) <==> left.token_count
                != right.token_count
            &&& diff.changes.contains(PromptSegmentChange::PruningStatusChanged) <==> left.pruned
                != right.pruned
            &&& diff.changes.contains(PromptSegmentChange::MetadataModified)
                <==> !agree_beside_content(left, right)
            &&& diff.changes.len() > 0
            &&& diff.text_diff is Some <==> left.content != right.content
        },
        (Some(_), None) => diff.changes == seq![PromptSegmentChange::Removed] && diff.text_diff
            is Some,
        (None, Some(_)) => diff.changes == seq![PromptSegmentChange::Added] && diff.text_diff
            is Some,
        (None, None) => false,
    }
    &&& diff.text_diff matches Some(told) ==> told == text_diff_of(
        content_on(diff.baseline),
        content_on(diff.target),
    )
}

/// The places of a match are those of segments of one source, and no segment of the
/// target is matched twice.
spec fn matches_truly(
    matches: Matches,
    baseline: Seq<SegmentView>,
    target: Seq<SegmentView>,
) -> bool {
    &&& matches.found.len() == baseline.len()
    &&& matches.taken.len() == target.len()
    &&& forall|i: int|
        0 <= i < baseline.len() ==> (#[trigger] matches.found[i] matches Some(j) ==> {
            &&& 0 <= j < target.len()
            &&& baseline[i].source == target[j].source
            &&& matches.taken[j]
        })
    &&& forall|i: int, k: int|
        0 <= i < k < baseline.len() && (#[trigger] matches.found[i]) is Some ==> (
        #[trigger] matches.found[k]) != matches.found[i]
    &&& forall|j: int|
        0 <= j < target.len() && (#[trigger] matches.taken[j]) ==> exists|i: int|
            0 <= i < baseline.len() && #[trigger] matches.found[i] == Some(j)
}

proof fn lemma_first_free(
    segment: SegmentView,
    target: Seq<SegmentView>,
    taken: Seq<bool>,
    exactly: bool,
    from: int,
)
    requires
        0 <= from <= target.len(),
    ensures
        ({
            let j = first_free(segment, target, taken, exactly, from);
            &&& from <= j <= target.len()
            &&& j < target.len() ==> !taken[j] && segment.source == target[j].source
        }),
    decreases target.len() - from,
{
    if from < target.len() && !(!taken[from] && corresponds(segment, target[from], exactly)) {
        lemma_first_free(segment, target, taken, exactly, from + 1);
    }
}

proof fn lemma_matches_truly(
    baseline: Seq<SegmentView>,
    target: Seq<SegmentView>,
    exactly: bool,
    i: int,
    matches: Matches,
)
    requires
        0 <= i <= baseline.len(),
        matches_truly(matches, baseline, target),
    ensures
        matches_truly(
            matched_from(baseline, target, exactly, i, matches),
            baseline,
            target,
        ),
    decreases baseline.len() - i,
{
    if i < baseline.len() {
        let j = first_free(baseline[i], target, matches.taken, exactly, 0);
        lemma_first_free(baseline[i], target, matches.taken, exactly, 0);
        let next = if matches.found[i] is None && j < target.len() {
            Matches {
                found: matches.found.update(i, Some(j)),
                taken: matches.taken.update(j, true),
            }
        } else {
            matches
        };
        assert(matches_truly(next, baseline, target)) by {
            if matches.found[i] is None && j < target.len() {
                assert forall|k: int| 0 <= k < target.len() && (#[trigger] next.taken[k]) implies
                    exists|m: int| 0 <= m < baseline.len() && #[trigger] next.found[m] == Some(
                    k,
                ) by {
                    if k == j {
                        assert(next.found[i] == Some(k));
                    } else {
                        assert(matches.taken[k]);
                        let m = choose|m: int|
                            0 <= m < baseline.len() && #[trigger] matches.found[m] == Some(k);
                        assert(next.found[m] == Some(k));
                    }
                }
                assert forall|a: int, b: int|
                    0 <= a < b < baseline.len() && (#[trigger] next.found[a]) is Some implies (
                #[trigger] next.found[b]) != next.found[a] by {
                    if a == i {
                        assert(next.found[b] == matches.found[b]);
                    } else if b == i {
                        assert(next.found[a] == matches.found[a]);
                    } else {
                        assert(next.found[a] == matches.found[a]);
                        assert(next.found[b] == matches.found[b]);
                    }
                }
            }
        }
        lemma_matches_truly(baseline, target, exactly, i + 1, next);
    }
}

proof fn lemma_all_matches_truly(baseline: Seq<SegmentView>, target: Seq<SegmentView>)
    ensures
        matches_truly(matches_of(baseline, target), baseline, target),
{
    let none = no_matches(baseline, target);
    lemma_matches_truly(baseline, target, true, 0, none);
    lemma_matches_truly(
        baseline,
        target,
        false,
        0,
        matched_from(baseline, target, true, 0, none),
    );
}

proof fn lemma_changes_tell(left: SegmentView, right: SegmentView, reordered: bool)
    ensures
        ({
            let changes = changes_of(left, right, reordered);
            &&& !changes.contains(PromptSegmentChange::Added)
            &&& !changes.contains(PromptSegmentChange::Removed)
            &&& changes.contains(PromptSegmentChange::Reordered) <==> reordered
            &&& changes.contains(PromptSegmentChange::TextModified) <==> left.content
                != right.content
            &&& changes.contains(PromptSegmentChange::TokenCountChanged) <==> left.token_count
                != right.token_count
            &&& changes.contains(PromptSegmentChange::PruningStatusChanged) <==> left.pruned
                != right.pruned
            &&& left.source == right.source ==> (changes.contains(
                PromptSegmentChange::MetadataModified,
            ) <==> !agree_beside_content(left, right))
        }),
{
    let none = Seq::<PromptSegmentChange>::empty();
    let moved = with_change(none, PromptSegmentChange::Reordered, reordered);
    let pruned = with_change(
        moved,
        PromptSegmentChange::PruningStatusChanged,
        left.pruned != right.pruned,
    );
    let modified = with_change(
        pruned,
        PromptSegmentChange::TextModified,
        left.content != right.content,
    );
    let counted = with_change(
        modified,
        PromptSegmentChange::TokenCountChanged,
        left.token_count != right.token_count,
    );
    assert forall|change: PromptSegmentChange| !(#[trigger] none.contains(change)) by {}
    assert forall|change: PromptSegmentChange| #[trigger]
        changes_of(left, right, reordered).contains(change) <==> {
        ||| change == PromptSegmentChange::Reordered && reordered
        ||| change == PromptSegmentChange::PruningStatusChanged && left.pruned != right.pruned
        ||| change == PromptSegmentChange::TextModified && left.content != right.content
        ||| change == PromptSegmentChange::TokenCountChanged && left.token_count
            != right.token_count
        ||| change == PromptSegmentChange::MetadataModified && metadata_changed(left, right)
    } by {
        lemma_push_contains(none, PromptSegmentChange::Reordered, change);
        lemma_push_contains(moved, PromptSegmentChange::PruningStatusChanged, change);
        lemma_push_contains(pruned, PromptSegmentChange::TextModified, change);
        lemma_push_contains(modified, PromptSegmentChange::TokenCountChanged, change);
        lemma_push_contains(counted, PromptSegmentChange::MetadataModified, change);
    }
}

proof fn lemma_told_truly(
    baseline: Seq<SegmentView>,
    target: Seq<SegmentView>,
    matches: Matches,
    i: int,
)
    requires
        0 <= i < baseline.len() <= usize::MAX,
        target.len() <= usize::MAX,
        matches_truly(matches, baseline, target),
    ensures
        told_of(baseline, target, matches.found, i) matches Some(diff) ==> tells_truly(
            diff,
            baseline,
            target,
        ),
{
    reveal_strlit("");
    assert(""@ =~= Seq::<char>::empty());
    if let Some(j) = matches.found[i] {
        lemma_changes_tell(baseline[i], target[j], is_reordered(matches.found, i));
    }
}

proof fn lemma_baseline_truly(
    baseline: Seq<SegmentView>,
    target: Seq<SegmentView>,
    matches: Matches,
    count: int,
)
    requires
        0 <= count <= baseline.len() <= usize::MAX,
        target.len() <= usize::MAX,
        matches_truly(matches, baseline, target),
    ensures
        forall|k: int|
            0 <= k < baseline_told(baseline, target, matches.found, count).len() ==> tells_truly(
                #[trigger] baseline_told(baseline, target, matches.found, count)[k],
                baseline,
                target,
            ),
    decreases count,
{
    if count > 0 {
        lemma_baseline_truly(baseline, target, matches, count - 1);
        lemma_told_truly(baseline, target, matches, count - 1);
        let head = baseline_told(baseline, target, matches.found, count - 1);
        let all = baseline_told(baseline, target, matches.found, count);
        assert forall|k: int| 0 <= k < all.len() implies tells_truly(
            #[trigger] all[k],
            baseline,
            target,
        ) by {
            if k < head.len() {
                assert(all[k] == head[k]);
            }
        }
    }
}

proof fn lemma_target_truly(
    told: Seq<SegmentDiffView>,
    baseline: Seq<SegmentView>,
    target: Seq<SegmentView>,
    taken: Seq<bool>,
    count: int,
)
    requires
        0 <= count <= target.len() <= usize::MAX,
        forall|k: int|
            0 <= k < told.len() ==> tells_truly(#[trigger] told[k], baseline, target),
    ensures
        forall|k: int|
            0 <= k < target_told(told, target, taken, count).len() ==> tells_truly(
                #[trigger] target_told(told, target, taken, count)[k],
                baseline,
                target,
            ),
    decreases count,
{
    if count > 0 {
        reveal_strlit("");
        assert(""@ =~= Seq::<char>::empty());
        lemma_target_truly(told, baseline, target, taken, count - 1);
        let head = target_told(told, target, taken, count - 1);
        let all = target_told(told, target, taken, count);
        assert forall|k: int| 0 <= k < all.len() implies tells_truly(
            #[trigger] all[k],
            baseline,
            target,
        ) by {
            if k < head.len() {
                assert(all[k] == head[k]);
            }
        }
    }
}

/// The place in the target of what a difference tells of, or in the baseline where
/// the target does not have it.
pub open spec fn stands_at(diff: SegmentDiffView) -> usize {
    if diff.target_index is Some {
        diff.target_index->0
    } else {
        diff.baseline_index->0
    }
}

proof fn lemma_diff_slot(diffs: Seq<SegmentDiffView>, place: usize)
    requires
        forall|a: int, b: int|
            0 <= a < b < diffs.len() ==> place_of(#[trigger] diffs[a]) <= place_of(
                #[trigger] diffs[b],
            ),
    ensures
        0 <= diff_slot(diffs, place) <= diffs.len(),
        forall|a: int|
            0 <= a < diff_slot(diffs, place) ==> place_of(#[trigger] diffs[a]) <= place,
        forall|a: int|
            diff_slot(diffs, place) <= a < diffs.len() ==> place < place_of(#[trigger] diffs[a]),
    decreases diffs.len(),
{
    if diffs.len() > 0 && place < place_of(diffs.last()) {
        let head = diffs.drop_last();
        assert forall|a: int, b: int| 0 <= a < b < head.len() implies place_of(#[trigger] head[a])
            <= place_of(#[trigger] head[b]) by {
            assert(head[a] == diffs[a] && head[b] == diffs[b]);
        }
        lemma_diff_slot(head, place);
        assert forall|a: int| 0 <= a < diff_slot(diffs, place) implies place_of(#[trigger] diffs[a])
            <= place by {
            assert(head[a] == diffs[a]);
        }
        assert forall|a: int| diff_slot(diffs, place) <= a < diffs.len() implies place < place_of(
            #[trigger] diffs[a],
        ) by {
            if a < head.len() {
                assert(head[a] == diffs[a]);
            }
        }
    } else if diffs.len() > 0 {
        assert forall|a: int| 0 <= a < diffs.len() implies place_of(#[trigger] diffs[a])
            <= place by {
            if a < diffs.len() - 1 {
                assert(place_of(diffs[a]) <= place_of(diffs[diffs.len() - 1]));
            }
        }
    }
}

proof fn lemma_by_place(diffs: Seq<SegmentDiffView>)
    ensures
        by_place(diffs).len() == diffs.len(),
        forall|diff: SegmentDiffView| #[trigger]
            by_place(diffs).contains(diff) <==> diffs.contains(diff),
        forall|a: int, b: int|
            0 <= a < b < diffs.len() ==> place_of(#[trigger] by_place(diffs)[a]) <= place_of(
                #[trigger] by_place(diffs)[b],
            ),
    decreases diffs.len(),
{
    if diffs.len() > 0 {
        let rest = diffs.drop_last();
        let last = diffs.last();
        lemma_by_place(rest);
        let head = by_place(rest);
        let at = diff_slot(head, place_of(last));
        lemma_diff_slot(head, place_of(last));
        let all = head.insert(at, last);
        assert(diffs =~= rest.push(last));
        assert forall|diff: SegmentDiffView| #[trigger] all.contains(diff) <==> diffs.contains(
            diff,
        ) by {
            lemma_push_contains(rest, last, diff);
            if head.contains(diff) {
                let k = choose|k: int| 0 <= k < head.len() && head[k] == diff;
                assert(all[if k < at {
                    k
                } else {
                    k + 1
                }] == diff);
            }
            if diff == last {
                assert(all[at] == diff);
            }
            if all.contains(diff) {
                let k = choose|k: int| 0 <= k < all.len() && all[k] == diff;
                if k < at {
                    assert(head[k] == diff);
                } else if k > at {
                    assert(head[k - 1] == diff);
                }
            }
        }
        assert forall|a: int, b: int| 0 <= a < b < all.len() implies place_of(#[trigger] all[a])
            <= place_of(#[trigger] all[b]) by {
            if a < at {
                assert(all[a] == head[a]);
            } else if a > at {
                assert(all[a] == head[a - 1]);
            }
            if b < at {
                assert(all[b] == head[b]);
            } else if b > at {
                assert(all[b] == head[b - 1]);
            }
        }
    }
}

/// Every difference of two prompts tells what is so of segments of the two: one that
/// is told of without a counterpart was removed or added, and of two counterparts it
/// is told in what they differ, with a difference of their texts from the baseline
/// to the target. The differences come in the order of the target.
pub proof fn law_differences_tell_truly(baseline: Seq<SegmentView>, target: Seq<SegmentView>)
    requires
        baseline.len() <= usize::MAX,
        target.len() <= usize::MAX,
    ensures
        forall|k: int|
            0 <= k < segment_diffs(baseline, target).len() ==> tells_truly(
                #[trigger] segment_diffs(baseline, target)[k],
                baseline,
                target,
            ),
        forall|a: int, b: int|
            0 <= a < b < segment_diffs(baseline, target).len() ==> stands_at(
                #[trigger] segment_diffs(baseline, target)[a],
            ) <= stands_at(#[trigger] segment_diffs(baseline, target)[b]),
{
    let matches = matches_of(baseline, target);
    lemma_all_matches_truly(baseline, target);
    lemma_baseline_truly(baseline, target, matches, baseline.len() as int);
    let told = baseline_told(baseline, target, matches.found, baseline.len() as int);
    lemma_target_truly(told, baseline, target, matches.taken, target.len() as int);
    let all = target_told(told, target, matches.taken, target.len() as int);
    lemma_by_place(all);
    let diffs = segment_diffs(baseline, target);
    assert forall|k: int| 0 <= k < diffs.len() implies tells_truly(
        #[trigger] diffs[k],
        baseline,
        target,
    ) by {
        assert(diffs.contains(diffs[k]));
        let m = choose|m: int| 0 <= m < all.len() && all[m] == diffs[k];
        assert(tells_truly(all[m], baseline, target));
    }
}

/// Two segments are told apart by nothing that is shown of them.
pub open spec fn look_alike(left: SegmentView, right: SegmentView) -> bool {
    &&& left.source == right.source
    &&& left.content == right.content
    &&& left.token_count == right.token_count
    &&& left.pruned == right.pruned
    &&& agree_beside_content(left, right)
}

proof fn lemma_baseline_is_told(
    baseline: Seq<SegmentView>,
    target: Seq<SegmentView>,
    found: Seq<Option<int>>,
    count: int,
    i: int,
)
    requires
        0 <= i < count <= baseline.len(),
    ensures
        told_of(baseline, target, found, i) matches Some(diff) ==> baseline_told(
            baseline,
            target,
            found,
            count,
        ).contains(diff),
    decreases count,
{
    let head = baseline_told(baseline, target, found, count - 1);
    if i < count - 1 {
        lemma_baseline_is_told(baseline, target, found, count - 1, i);
    }
    if told_of(baseline, target, found, i) is Some && told_of(
        baseline,
        target,
        found,
        count - 1,
    ) is Some {
        lemma_push_contains(
            head,
            told_of(baseline, target, found, count - 1)->0,
            told_of(baseline, target, found, i)->0,
        );
    }
}

proof fn lemma_target_is_told(
    told: Seq<SegmentDiffView>,
    target: Seq<SegmentView>,
    taken: Seq<bool>,
    count: int,
    diff: SegmentDiffView,
)
    requires
        0 <= count <= target.len(),
        told.contains(diff) || exists|j: int|
            0 <= j < count && !(#[trigger] taken[j]) && diff == added_of(target[j], j),
    ensures
        target_told(told, target, taken, count).contains(diff),
    decreases count,
{
    if count > 0 {
        let head = target_told(told, target, taken, count - 1);
        if told.contains(diff) || exists|j: int|
            0 <= j < count - 1 && !(#[trigger] taken[j]) && diff == added_of(target[j], j) {
            lemma_target_is_told(told, target, taken, count - 1, diff);
        }
        if !taken[count - 1] {
            lemma_push_contains(head, added_of(target[count - 1], count - 1), diff);
        }
    }
}

/// Nothing is left out: a segment of either prompt is told of, or the other prompt
/// has one that looks alike.
pub proof fn law_no_difference_is_left_out(
    baseline: Seq<SegmentView>,
    target: Seq<SegmentView>,
    i: int,
    j: int,
)
    requires
        baseline.len() <= usize::MAX,
        target.len() <= usize::MAX,
        0 <= i < baseline.len(),
        0 <= j < target.len(),
    ensures
        (exists|k: int|
            0 <= k < segment_diffs(baseline, target).len() && (#[trigger] segment_diffs(
                baseline,
                target,
            )[k]).baseline_index == Some(i as usize)) || (exists|m: int|
            0 <= m < target.len() && look_alike(baseline[i], #[trigger] target[m])),
        (exists|k: int|
            0 <= k < segment_diffs(baseline, target).len() && (#[trigger] segment_diffs(
                baseline,
                target,
            )[k]).target_index == Some(j as usize)) || (exists|m: int|
            0 <= m < baseline.len() && look_alike(#[trigger] baseline[m], target[j])),
{
    let matches = matches_of(baseline, target);
    lemma_all_matches_truly(baseline, target);
    let told = baseline_told(baseline, target, matches.found, baseline.len() as int);
    let all = target_told(told, target, matches.taken, target.len() as int);
    let diffs = segment_diffs(baseline, target);
    lemma_by_place(all);
    lemma_pair_is_told(baseline, target, i);
    if matches.taken[j] {
        let m = choose|m: int| 0 <= m < baseline.len() && #[trigger] matches.found[m] == Some(j);
        lemma_pair_is_told(baseline, target, m);
    } else {
        lemma_target_is_told(
            told,
            target,
            matches.taken,
            target.len() as int,
            added_of(target[j], j),
        );
        assert(diffs.contains(added_of(target[j], j)));
    }
}

proof fn lemma_pair_is_told(baseline: Seq<SegmentView>, target: Seq<SegmentView>, i: int)
    requires
        baseline.len() <= usize::MAX,
        target.len() <= usize::MAX,
        0 <= i < baseline.len(),
    ensures
        ({
            let found = matches_of(baseline, target).found[i];
            let diffs = segment_diffs(baseline, target);
            ||| exists|k: int|
                0 <= k < diffs.len() && (#[trigger] diffs[k]).baseline_index == Some(i as usize)
                    && (found matches Some(j) ==> diffs[k].target_index == Some(j as usize))
            ||| found matches Some(j) && 0 <= j < target.len() && look_alike(baseline[i], target[j])
        }),
{
    let matches = matches_of(baseline, target);
    lemma_all_matches_truly(baseline, target);
    let told = baseline_told(baseline, target, matches.found, baseline.len() as int);
    let all = target_told(told, target, matches.taken, target.len() as int);
    let diffs = segment_diffs(baseline, target);
    lemma_by_place(all);
    match told_of(baseline, target, matches.found, i) {
        Some(diff) => {
            lemma_baseline_is_told(
                baseline,
                target,
                matches.found,
                baseline.len() as int,
                i,
            );
            lemma_target_is_told(told, target, matches.taken, target.len() as int, diff);
            assert(diffs.contains(diff));
            let k = choose|k: int| 0 <= k < diffs.len() && diffs[k] == diff;
            assert(diffs[k].baseline_index == Some(i as usize));
        },
        None => {
            let j = matches.found[i]->0;
            let changes = changes_of(baseline[i], target[j], is_reordered(matches.found, i));
            lemma_changes_tell(baseline[i], target[j], is_reordered(matches.found, i));
            assert(!changes.contains(PromptSegmentChange::TextModified));
            assert(!changes.contains(PromptSegmentChange::TokenCountChanged));
            assert(!changes.contains(PromptSegmentChange::PruningStatusChanged));
            assert(!changes.contains(PromptSegmentChange::MetadataModified));
        },
    }
}

/// The differences of the numbers of tokens lead from the baseline to the target.
pub proof fn law_token_deltas_lead_to_target(
    diff: PromptDiff,
    baseline_attempt_id: EntityId,
    baseline: PromptPlan,
    target_attempt_id: EntityId,
    target: PromptPlan,
)
    requires
        is_prompt_diff(diff, baseline_attempt_id, baseline, target_attempt_id, target),
    ensures
        baseline.pruning.kept_tokens + diff.token_delta.kept_tokens == target.pruning.kept_tokens,
        baseline.pruning.pruned_tokens + diff.token_delta.pruned_tokens
            == target.pruning.pruned_tokens,
        baseline.total_tokens + diff.token_delta.total_tokens == target.total_tokens,
{
}

proof fn lemma_told_of_pair(
    baseline: Seq<SegmentView>,
    target: Seq<SegmentView>,
    found: Seq<Option<int>>,
    count: int,
    diff: SegmentDiffView,
)
    requires
        0 <= count <= baseline.len(),
        baseline_told(baseline, target, found, count).contains(diff),
    ensures
        exists|i: int|
            0 <= i < count && #[trigger] told_of(baseline, target, found, i) == Some(diff),
    decreases count,
{
    if count > 0 {
        let head = baseline_told(baseline, target, found, count - 1);
        if let Some(last) = told_of(baseline, target, found, count - 1) {
            lemma_push_contains(head, last, diff);
        }
        if told_of(baseline, target, found, count - 1) != Some(diff) {
            lemma_told_of_pair(baseline, target, found, count - 1, diff);
        }
    }
}

proof fn lemma_told_of_target(
    told: Seq<SegmentDiffView>,
    target: Seq<SegmentView>,
    taken: Seq<bool>,
    count: int,
    diff: SegmentDiffView,
)
    requires
        0 <= count <= target.len(),
        target_told(told, target, taken, count).contains(diff),
        diff.baseline_index is Some,
    ensures
        told.contains(diff),
    decreases count,
{
    if count > 0 {
        if !taken[count - 1] {
            lemma_push_contains(
                target_told(told, target, taken, count - 1),
                added_of(target[count - 1], count - 1),
                diff,
            );
        }
        lemma_told_of_target(told, target, taken, count - 1, diff);
    }
}

/// Two counterparts have changed places with two others: what comes first in the
/// one prompt comes last in the other.
pub open spec fn cross(a: SegmentDiffView, b: SegmentDiffView) -> bool {
    &&& a.baseline_index is Some && a.target_index is Some
    &&& b.baseline_index is Some && b.target_index is Some
    &&& (a.baseline_index->0 < b.baseline_index->0 && a.target_index->0 > b.target_index->0) || (
    a.baseline_index->0 > b.baseline_index->0 && a.target_index->0 < b.target_index->0)
}

/// A segment is said to be reordered exactly where it has changed places with
/// another that is told of.
pub proof fn law_reordered_segments_cross(
    baseline: Seq<SegmentView>,
    target: Seq<SegmentView>,
    k: int,
)
    requires
        baseline.len() <= usize::MAX,
        target.len() <= usize::MAX,
        0 <= k < segment_diffs(baseline, target).len(),
    ensures
        segment_diffs(baseline, target)[k].changes.contains(PromptSegmentChange::Reordered)
            <==> exists|m: int|
            0 <= m < segment_diffs(baseline, target).len() && cross(
                segment_diffs(baseline, target)[k],
                #[trigger] segment_diffs(baseline, target)[m],
            ),
{
    let diffs = segment_diffs(baseline, target);
    let found = matches_of(baseline, target).found;
    law_differences_tell_truly(baseline, target);
    lemma_all_matches_truly(baseline, target);
    let diff = diffs[k];
    assert(tells_truly(diff, baseline, target));
    if diff.baseline_index is Some && diff.target_index is Some {
        let i = lemma_pair_of(baseline, target, k);
        lemma_changes_tell(baseline[i], target[found[i]->0], is_reordered(found, i));
        if is_reordered(found, i) {
            let other = choose|n: int|
                0 <= n < found.len() && (#[trigger] found[n]) is Some && ((n < i && found[n]->0
                    > found[i]->0) || (n > i && found[n]->0 < found[i]->0));
            assert(is_reordered(found, other)) by {
                assert(found[i] is Some);
            }
            lemma_changes_tell(baseline[other], target[found[other]->0], true);
            lemma_pair_is_told(baseline, target, other);
            assert(changes_of(baseline[other], target[found[other]->0], true).contains(
                PromptSegmentChange::Reordered,
            ));
            lemma_reordered_is_told(baseline, target, other);
            let m = choose|m: int|
                0 <= m < diffs.len() && (#[trigger] diffs[m]).baseline_index == Some(
                    other as usize,
                ) && diffs[m].target_index == Some(found[other]->0 as usize);
            assert(cross(diff, diffs[m]));
        }
        if exists|m: int| 0 <= m < diffs.len() && cross(diff, #[trigger] diffs[m]) {
            let m = choose|m: int| 0 <= m < diffs.len() && cross(diff, #[trigger] diffs[m]);
            let other = lemma_pair_of(baseline, target, m);
            assert(found[other] is Some);
            assert(is_reordered(found, i));
        }
    } else {
        let one = diff.changes;
        assert(one.len() == 1);
        assert(one[0] != PromptSegmentChange::Reordered);
    }
}

proof fn lemma_pair_of(
    baseline: Seq<SegmentView>,
    target: Seq<SegmentView>,
    k: int,
) -> (i: int)
    requires
        baseline.len() <= usize::MAX,
        target.len() <= usize::MAX,
        0 <= k < segment_diffs(baseline, target).len(),
        segment_diffs(baseline, target)[k].baseline_index is Some,
        segment_diffs(baseline, target)[k].target_index is Some,
    ensures
        0 <= i < baseline.len(),
        segment_diffs(baseline, target)[k].baseline_index == Some(i as usize),
        matches_of(baseline, target).found[i] is Some,
        0 <= matches_of(baseline, target).found[i]->0 < target.len(),
        segment_diffs(baseline, target)[k].target_index == Some(
            matches_of(baseline, target).found[i]->0 as usize,
        ),
        segment_diffs(baseline, target)[k].changes == changes_of(
            baseline[i],
            target[matches_of(baseline, target).found[i]->0],
            is_reordered(matches_of(baseline, target).found, i),
        ),
{
    let matches = matches_of(baseline, target);
    lemma_all_matches_truly(baseline, target);
    let told = baseline_told(baseline, target, matches.found, baseline.len() as int);
    let all = target_told(told, target, matches.taken, target.len() as int);
    lemma_by_place(all);
    let diffs = segment_diffs(baseline, target);
    assert(diffs.contains(diffs[k]));
    lemma_told_of_target(told, target, matches.taken, target.len() as int, diffs[k]);
    lemma_told_of_pair(baseline, target, matches.found, baseline.len() as int, diffs[k]);
    choose|i: int|
        0 <= i < baseline.len() && #[trigger] told_of(baseline, target, matches.found, i) == Some(
            diffs[k],
        )
}

proof fn lemma_reordered_is_told(baseline: Seq<SegmentView>, target: Seq<SegmentView>, i: int)
    requires
        baseline.len() <= usize::MAX,
        target.len() <= usize::MAX,
        0 <= i < baseline.len(),
        is_reordered(matches_of(baseline, target).found, i),
        matches_of(baseline, target).found[i] is Some,
    ensures
        exists|m: int|
            0 <= m < segment_diffs(baseline, target).len() && (#[trigger] segment_diffs(
                baseline,
                target,
            )[m]).baseline_index == Some(i as usize) && segment_diffs(
                baseline,
                target,
            )[m].target_index == Some(matches_of(baseline, target).found[i]->0 as usize),
{
    let matches = matches_of(baseline, target);
    let told = baseline_told(baseline, target, matches.found, baseline.len() as int);
    let all = target_told(told, target, matches.taken, target.len() as int);
    let diffs = segment_diffs(baseline, target);
    lemma_by_place(all);
    let j = matches.found[i]->0;
    lemma_changes_tell(baseline[i], target[j], true);
    assert(changes_of(baseline[i], target[j], true).len() > 0);
    let diff = told_of(baseline, target, matches.found, i)->0;
    lemma_baseline_is_told(baseline, target, matches.found, baseline.len() as int, i);
    lemma_target_is_told(told, target, matches.taken, target.len() as int, diff);
    assert(diffs.contains(diff));
    let m = choose|m: int| 0 <= m < diffs.len() && diffs[m] == diff;
    assert(diffs[m].baseline_index == Some(i as usize));
}

/// Two segments are one piece of a prompt, whatever it holds.
pub open spec fn are_one_piece(left: SegmentView, right: SegmentView) -> bool {
    &&& left.source == right.source
    &&& left.slot == right.slot
    &&& left.role == right.role
    &&& left.source_revision == right.source_revision
    &&& left.source_field == right.source_field
    &&& left.in_chat_depth == right.in_chat_depth
    &&& left.in_chat_order == right.in_chat_order
}

/// The only counterparts of a piece in two prompts.
pub open spec fn is_sole_pair(
    baseline: Seq<SegmentView>,
    target: Seq<SegmentView>,
    i: int,
    j: int,
) -> bool {
    &&& 0 <= i < baseline.len()
    &&& 0 <= j < target.len()
    &&& are_one_piece(baseline[i], target[j])
    &&& forall|m: int|
        0 <= m < baseline.len() && m != i ==> !are_one_piece(#[trigger] baseline[m], target[j])
    &&& forall|m: int|
        0 <= m < target.len() && m != j ==> !are_one_piece(baseline[i], #[trigger] target[m])
}

proof fn lemma_sole_is_free(
    baseline: Seq<SegmentView>,
    target: Seq<SegmentView>,
    taken: Seq<bool>,
    i: int,
    j: int,
    from: int,
)
    requires
        is_sole_pair(baseline, target, i, j),
        0 <= from <= j,
        !taken[j],
    ensures
        first_free(baseline[i], target, taken, true, from) == j,
    decreases j - from,
{
    if from < j {
        assert(!are_one_piece(baseline[i], target[from]));
        lemma_sole_is_free(baseline, target, taken, i, j, from + 1);
    }
}

proof fn lemma_first_free_is_one_piece(
    segment: SegmentView,
    target: Seq<SegmentView>,
    taken: Seq<bool>,
    from: int,
)
    requires
        0 <= from <= target.len(),
    ensures
        ({
            let j = first_free(segment, target, taken, true, from);
            j < target.len() ==> are_one_piece(segment, target[j])
        }),
    decreases target.len() - from,
{
    if from < target.len() && !(!taken[from] && corresponds(segment, target[from], true)) {
        lemma_first_free_is_one_piece(segment, target, taken, from + 1);
    }
}

proof fn lemma_found_stays(
    baseline: Seq<SegmentView>,
    target: Seq<SegmentView>,
    exactly: bool,
    p: int,
    matches: Matches,
    i: int,
)
    requires
        0 <= p <= baseline.len(),
        0 <= i < baseline.len(),
        matches.found.len() == baseline.len(),
        matches.found[i] is Some,
    ensures
        matched_from(baseline, target, exactly, p, matches).found[i] == matches.found[i],
    decreases baseline.len() - p,
{
    if p < baseline.len() {
        let j = first_free(baseline[p], target, matches.taken, exactly, 0);
        let next = if matches.found[p] is None && j < target.len() {
            Matches {
                found: matches.found.update(p, Some(j)),
                taken: matches.taken.update(j, true),
            }
        } else {
            matches
        };
        lemma_found_stays(baseline, target, exactly, p + 1, next, i);
    }
}

proof fn lemma_sole_pair_is_found(
    baseline: Seq<SegmentView>,
    target: Seq<SegmentView>,
    p: int,
    matches: Matches,
    i: int,
    j: int,
)
    requires
        is_sole_pair(baseline, target, i, j),
        0 <= p <= i,
        matches.found.len() == baseline.len(),
        matches.taken.len() == target.len(),
        matches.found[i] is None,
        !matches.taken[j],
    ensures
        matched_from(baseline, target, true, p, matches).found[i] == Some(j),
    decreases i - p,
{
    let at = first_free(baseline[p], target, matches.taken, true, 0);
    lemma_first_free(baseline[p], target, matches.taken, true, 0);
    let next = if matches.found[p] is None && at < target.len() {
        Matches {
            found: matches.found.update(p, Some(at)),
            taken: matches.taken.update(at, true),
        }
    } else {
        matches
    };
    if p < i {
        lemma_first_free_is_one_piece(baseline[p], target, matches.taken, 0);
        assert(!are_one_piece(baseline[p], target[j]));
        lemma_sole_pair_is_found(baseline, target, p + 1, next, i, j);
    } else {
        lemma_sole_is_free(baseline, target, matches.taken, i, j, 0);
        lemma_found_stays(baseline, target, true, p + 1, next, i);
    }
}

/// A piece that stands once in each of two prompts is told of with its counterpart,
/// if at all: it is neither removed nor added, whatever else is of its source.
pub proof fn law_pieces_keep_their_counterparts(
    baseline: Seq<SegmentView>,
    target: Seq<SegmentView>,
    i: int,
    j: int,
    k: int,
)
    requires
        baseline.len() <= usize::MAX,
        target.len() <= usize::MAX,
        is_sole_pair(baseline, target, i, j),
        0 <= k < segment_diffs(baseline, target).len(),
    ensures
        segment_diffs(baseline, target)[k].baseline_index == Some(i as usize)
            <==> segment_diffs(baseline, target)[k].target_index == Some(j as usize),
{
    let none = no_matches(baseline, target);
    lemma_sole_pair_is_found(baseline, target, 0, none, i, j);
    lemma_matches_truly(baseline, target, true, 0, none);
    lemma_found_stays(
        baseline,
        target,
        false,
        0,
        matched_from(baseline, target, true, 0, none),
        i,
    );
    lemma_all_matches_truly(baseline, target);
    law_differences_tell_truly(baseline, target);
    let matches = matches_of(baseline, target);
    assert(matches.found[i] == Some(j));
    let diffs = segment_diffs(baseline, target);
    let diff = diffs[k];
    assert(tells_truly(diff, baseline, target));
    let told = baseline_told(baseline, target, matches.found, baseline.len() as int);
    let all = target_told(told, target, matches.taken, target.len() as int);
    lemma_by_place(all);
    assert(diffs.contains(diff));
    if diff.baseline_index is Some {
        lemma_told_of_target(told, target, matches.taken, target.len() as int, diff);
        lemma_told_of_pair(baseline, target, matches.found, baseline.len() as int, diff);
        let m = choose|m: int|
            0 <= m < baseline.len() && #[trigger] told_of(baseline, target, matches.found, m)
                == Some(diff);
        if m < i {
            assert(matches.found[m] is Some ==> matches.found[i] != matches.found[m]);
        } else if m > i {
            assert(matches.found[m] != matches.found[i]);
        }
    } else {
        lemma_added_is_free(told, target, matches.taken, target.len() as int, diff);
        if told.contains(diff) {
            lemma_told_of_pair(baseline, target, matches.found, baseline.len() as int, diff);
        }
    }
}

proof fn lemma_added_is_free(
    told: Seq<SegmentDiffView>,
    target: Seq<SegmentView>,
    taken: Seq<bool>,
    count: int,
    diff: SegmentDiffView,
)
    requires
        0 <= count <= target.len(),
        target_told(told, target, taken, count).contains(diff),
    ensures
        told.contains(diff) || exists|j: int|
            0 <= j < count && !(#[trigger] taken[j]) && diff == added_of(target[j], j),
    decreases count,
{
    if count > 0 {
        if !taken[count - 1] {
            lemma_push_contains(
                target_told(told, target, taken, count - 1),
                added_of(target[count - 1], count - 1),
                diff,
            );
        }
        if !(!taken[count - 1] && diff == added_of(target[count - 1], count - 1)) {
            lemma_added_is_free(told, target, taken, count - 1, diff);
        }
    }
}

} // verus!
