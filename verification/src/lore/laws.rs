//! What holds of every evaluation of lore.
use vstd::prelude::*;

use crate::lists::lemma_insert_multiset;
use crate::lore::activation::{
    activation, budget, Evaluated, evaluated, evaluated_from, Examined, examined, in_order,
    is_active, precedes, Progress, Scanned, scanned, scanned_from, Scene, slot, step_limit,
    StepEnd, Stepped, stepped, suppression, tried, tried_all, unstarted,
};
use crate::lore::decision::{ActivatedView, DecisionView, LoreDecisionOutcome, LoreSettings};
use crate::lore::entry::{entry_key, LoreEntry};
use crate::lore::groups::{
    Candidate, Contest, contested, groups_of, kept_from, rejected_below, rejection, settled,
    settled_from,
};
use crate::text::{
    lemma_lex_asymmetric, lemma_lex_irreflexive, lemma_lex_total, lemma_lex_transitive, lex_less,
};

verus! {

proof fn lemma_not_preceding(a: LoreEntry, b: LoreEntry, c: LoreEntry)
    requires
        !precedes(b, a),
        !precedes(c, b),
    ensures
        !precedes(c, a),
{
    lemma_lex_total(a.id@, b.id@);
    lemma_lex_total(b.id@, c.id@);
    if lex_less(a.id@, b.id@) && lex_less(b.id@, c.id@) {
        lemma_lex_transitive(a.id@, b.id@, c.id@);
        lemma_lex_asymmetric(a.id@, c.id@);
    }
    lemma_lex_irreflexive(a.id@);
    if lex_less(a.id@, b.id@) {
        lemma_lex_asymmetric(a.id@, b.id@);
    }
    if lex_less(b.id@, c.id@) {
        lemma_lex_asymmetric(b.id@, c.id@);
    }
}

proof fn lemma_precedes_is_strict(a: LoreEntry, b: LoreEntry)
    requires
        precedes(a, b),
    ensures
        !precedes(b, a),
{
    if lex_less(a.id@, b.id@) {
        lemma_lex_asymmetric(a.id@, b.id@);
    }
}

/// No entry stands behind one that it precedes.
pub open spec fn is_in_order(entries: Seq<&LoreEntry>) -> bool {
    forall|i: int, j: int|
        0 <= i < j < entries.len() ==> !precedes(*#[trigger] entries[j], *#[trigger] entries[i])
}

/// The entries themselves, as they are referred to.
pub open spec fn referred<'a>(entries: Seq<LoreEntry>) -> Seq<&'a LoreEntry> {
    Seq::new(entries.len(), |i: int| &entries[i])
}

proof fn lemma_slot_in_order(entries: Seq<&LoreEntry>, entry: LoreEntry)
    requires
        is_in_order(entries),
    ensures
        0 <= slot(entries, entry) <= entries.len(),
        forall|i: int|
            0 <= i < slot(entries, entry) ==> !precedes(entry, *#[trigger] entries[i]),
        forall|i: int|
            slot(entries, entry) <= i < entries.len() ==> !precedes(*#[trigger] entries[i], entry),
    decreases entries.len(),
{
    if entries.len() > 0 {
        if precedes(entry, *entries.last()) {
            let head = entries.drop_last();
            assert(is_in_order(head));
            lemma_slot_in_order(head, entry);
            assert forall|i: int| slot(entries, entry) <= i < entries.len() implies !precedes(
                *#[trigger] entries[i],
                entry,
            ) by {
                if i < head.len() {
                    assert(head[i] == entries[i]);
                } else {
                    lemma_precedes_is_strict(entry, *entries.last());
                }
            }
            assert forall|i: int| 0 <= i < slot(entries, entry) implies !precedes(
                entry,
                *#[trigger] entries[i],
            ) by {
                assert(head[i] == entries[i]);
            }
        } else {
            assert forall|i: int| 0 <= i < entries.len() implies !precedes(
                entry,
                *#[trigger] entries[i],
            ) by {
                if i < entries.len() - 1 {
                    lemma_not_preceding(*entries[i], *entries.last(), entry);
                }
            }
        }
    }
}

/// Entries are considered in order, and each of them is.
pub proof fn law_entries_are_considered_in_order(entries: Seq<LoreEntry>)
    ensures
        is_in_order(in_order(entries)),
        in_order(entries).to_multiset() =~= referred(entries).to_multiset(),
    decreases entries.len(),
{
    broadcast use vstd::seq_lib::group_to_multiset_ensures;

    if entries.len() > 0 {
        let rest = entries.drop_last();
        law_entries_are_considered_in_order(rest);
        let head = in_order(rest);
        let entry = entries.last();
        lemma_slot_in_order(head, entry);
        let at = slot(head, entry);
        let all = head.insert(at, &entry);
        assert forall|i: int, j: int| 0 <= i < j < all.len() implies !precedes(
            *#[trigger] all[j],
            *#[trigger] all[i],
        ) by {
            if i != at && j != at {
                let a = if i < at {
                    i
                } else {
                    i - 1
                };
                let b = if j < at {
                    j
                } else {
                    j - 1
                };
                assert(all[i] == head[a] && all[j] == head[b]);
            } else if i == at {
                assert(all[j] == head[j - 1]);
            } else {
                assert(all[i] == head[i]);
            }
        }
        lemma_insert_multiset(head, at, &entry);
        assert(referred(entries) =~= referred(rest).push(&entry));
    } else {
        assert(in_order(entries) =~= referred(entries));
    }
}

/// The tokens of some entries that became active.
pub open spec fn active_tokens(activated: Seq<ActivatedView>) -> nat
    decreases activated.len(),
{
    if activated.len() == 0 {
        0
    } else {
        active_tokens(activated.drop_last()) + activated.last().tokens as nat
    }
}

/// How many decisions let an entry become active.
pub open spec fn activations(decisions: Seq<DecisionView>) -> nat
    decreases decisions.len(),
{
    if decisions.len() == 0 {
        0
    } else {
        activations(decisions.drop_last()) + if decisions.last().outcome
            == LoreDecisionOutcome::Activated {
            1nat
        } else {
            0
        }
    }
}

/// No entry ignores the budget.
pub open spec fn all_heed_budget(entries: Seq<&LoreEntry>) -> bool {
    forall|i: int| 0 <= i < entries.len() ==> !(#[trigger] entries[i]).ignore_budget
}

/// Some entry of that name may be active at some step.
pub open spec fn is_allowed(
    entries: Seq<&LoreEntry>,
    settings: LoreSettings,
    active: ActivatedView,
) -> bool {
    exists|i: int, step: int|
        0 <= i < entries.len() && active == activation(
            *entries[i],
            active.content,
            active.tokens,
        ) && #[trigger] suppression(*entries[i], settings, step) is None
}

/// What holds of an evaluation all the time.
pub open spec fn is_sound(
    entries: Seq<&LoreEntry>,
    settings: LoreSettings,
    progress: Progress,
) -> bool {
    &&& progress.used == active_tokens(progress.activated)
    &&& activations(progress.decisions) == progress.activated.len()
    &&& all_heed_budget(entries) ==> progress.used < budget(settings)
    &&& forall|k: int|
        0 <= k < progress.activated.len() ==> is_allowed(
            entries,
            settings,
            #[trigger] progress.activated[k],
        )
}

proof fn lemma_activations_push(decisions: Seq<DecisionView>, decision: DecisionView)
    ensures
        activations(decisions.push(decision)) == activations(decisions) + if decision.outcome
            == LoreDecisionOutcome::Activated {
            1nat
        } else {
            0
        },
{
    assert(decisions.push(decision).drop_last() =~= decisions);
}

/// The candidates may be active at a step.
spec fn are_eligible(
    entries: Seq<&LoreEntry>,
    settings: LoreSettings,
    step: int,
    candidates: Seq<Candidate>,
) -> bool {
    forall|i: int|
        0 <= i < candidates.len() ==> 0 <= (#[trigger] candidates[i]).at < entries.len()
            && suppression(*entries[candidates[i].at], settings, step) is None
}

proof fn lemma_scanned(
    entries: Seq<&LoreEntry>,
    scene: Scene,
    progress: Progress,
    step: int,
    i: int,
    candidates: Seq<Candidate>,
    decisions: Seq<DecisionView>,
    asked: nat,
)
    requires
        0 <= i,
        are_eligible(entries, scene.settings, step, candidates),
    ensures
        scanned_from(entries, scene, progress, step, i, candidates, decisions, asked) matches
            Scanned::Done { candidates: c, decisions: d, asked: _ } ==> are_eligible(
            entries,
            scene.settings,
            step,
            c,
        ) && activations(d) == activations(decisions),
    decreases entries.len() - i,
{
    if i < entries.len() {
        if is_active(progress.activated, entry_key(*entries[i])) {
            lemma_scanned(entries, scene, progress, step, i + 1, candidates, decisions, asked);
        } else {
            match examined(*entries[i], scene, progress.recursion, step, asked) {
                Examined::Out(decision, n) => {
                    lemma_activations_push(decisions, decision);
                    lemma_scanned(
                        entries,
                        scene,
                        progress,
                        step,
                        i + 1,
                        candidates,
                        decisions.push(decision),
                        n,
                    );
                },
                Examined::In(decision, n) => {
                    lemma_scanned(
                        entries,
                        scene,
                        progress,
                        step,
                        i + 1,
                        candidates.push(Candidate { at: i, decision }),
                        decisions,
                        n,
                    );
                },
                Examined::Fault(fault) => {},
            }
        }
    }
}

proof fn lemma_settled(
    entries: Seq<&LoreEntry>,
    contest: Contest,
    names: Seq<Seq<char>>,
    k: int,
    by_score: bool,
    settings: LoreSettings,
    step: int,
)
    requires
        are_eligible(entries, settings, step, contest.candidates),
        0 <= k,
    ensures
        are_eligible(
            entries,
            settings,
            step,
            settled_from(entries, contest, names, k, by_score).candidates,
        ),
    decreases names.len() - k,
{
    if k < names.len() {
        let next = settled(entries, contest, names[k], by_score);
        assert forall|i: int| 0 <= i < next.candidates.len() implies 0 <= (
        #[trigger] next.candidates[i]).at < entries.len() && suppression(
            *entries[next.candidates[i].at],
            settings,
            step,
        ) is None by {
            assert(next.candidates[i].at == contest.candidates[i].at);
        }
        lemma_settled(entries, next, names, k + 1, by_score, settings, step);
    }
}

proof fn lemma_kept(
    entries: Seq<&LoreEntry>,
    contest: Contest,
    i: int,
    settings: LoreSettings,
    step: int,
)
    requires
        are_eligible(entries, settings, step, contest.candidates),
        0 <= i,
    ensures
        are_eligible(entries, settings, step, kept_from(contest, i)),
    decreases contest.candidates.len() - i,
{
    if i < contest.candidates.len() {
        lemma_kept(entries, contest, i + 1, settings, step);
        let kept = kept_from(contest, i);
        let rest = kept_from(contest, i + 1);
        if !contest.lost[i] {
            assert forall|j: int| 0 <= j < kept.len() implies 0 <= (#[trigger] kept[j]).at
                < entries.len() && suppression(*entries[kept[j].at], settings, step) is None by {
                if j > 0 {
                    assert(kept[j] == rest[j - 1]);
                } else {
                    assert(kept[0] == contest.candidates[i]);
                }
            }
        }
    }
}

proof fn lemma_rejected(decisions: Seq<DecisionView>, contest: Contest, count: int)
    ensures
        activations(decisions + rejected_below(contest, count)) == activations(decisions),
    decreases count,
{
    let rejected = rejected_below(contest, count);
    if count <= 0 {
        assert(decisions + rejected =~= decisions);
    } else if contest.lost[count - 1] {
        let first = rejection(contest.candidates[count - 1]);
        let rest = rejected_below(contest, count - 1);
        lemma_rejected(decisions.push(first), contest, count - 1);
        lemma_activations_push(decisions, first);
        assert(decisions + rejected =~= decisions.push(first) + rest);
    } else {
        lemma_rejected(decisions, contest, count - 1);
    }
}

proof fn lemma_tried(
    entries: Seq<&LoreEntry>,
    at: int,
    scene: Scene,
    decision: DecisionView,
    progress: Progress,
    brought: Seq<Seq<char>>,
    step: int,
)
    requires
        is_sound(entries, scene.settings, progress),
        0 <= at < entries.len(),
        suppression(*entries[at], scene.settings, step) is None,
    ensures
        tried(*entries[at], scene, decision, progress, brought) matches Stepped::Going(p, _)
            ==> is_sound(entries, scene.settings, p),
{
    let entry = *entries[at];
    match tried(entry, scene, decision, progress, brought) {
        Stepped::Going(p, _) => {
            lemma_activations_push(progress.decisions, p.decisions.last());
            assert(p.decisions =~= progress.decisions.push(p.decisions.last()));
            if p.activated != progress.activated {
                let active = p.activated.last();
                assert(p.activated =~= progress.activated.push(active));
                assert(p.activated.drop_last() =~= progress.activated);
                assert(active == activation(entry, active.content, active.tokens));
                assert(is_allowed(entries, scene.settings, active));
            }
            assert forall|k: int| 0 <= k < p.activated.len() implies is_allowed(
                entries,
                scene.settings,
                #[trigger] p.activated[k],
            ) by {
                if k < progress.activated.len() {
                    assert(p.activated[k] == progress.activated[k]);
                }
            }
        },
        Stepped::Fault(_) => {},
    }
}

proof fn lemma_tried_all(
    entries: Seq<&LoreEntry>,
    scene: Scene,
    candidates: Seq<Candidate>,
    progress: Progress,
    brought: Seq<Seq<char>>,
    step: int,
)
    requires
        is_sound(entries, scene.settings, progress),
        are_eligible(entries, scene.settings, step, candidates),
    ensures
        tried_all(entries, scene, candidates, progress, brought) matches Stepped::Going(p, _)
            ==> is_sound(entries, scene.settings, p),
    decreases candidates.len(),
{
    if candidates.len() > 0 {
        let first = candidates[0];
        lemma_tried(entries, first.at, scene, first.decision, progress, brought, step);
        match tried(*entries[first.at], scene, first.decision, progress, brought) {
            Stepped::Going(p, more) => {
                let rest = candidates.drop_first();
                assert forall|i: int| 0 <= i < rest.len() implies 0 <= (#[trigger] rest[i]).at
                    < entries.len() && suppression(
                    *entries[rest[i].at],
                    scene.settings,
                    step,
                ) is None by {
                    assert(rest[i] == candidates[i + 1]);
                }
                lemma_tried_all(entries, scene, rest, p, more, step);
            },
            Stepped::Fault(_) => {},
        }
    }
}

proof fn lemma_stepped(entries: Seq<&LoreEntry>, scene: Scene, progress: Progress, step: int)
    requires
        is_sound(entries, scene.settings, progress),
    ensures
        match stepped(entries, scene, progress, step) {
            StepEnd::Over(p) => is_sound(entries, scene.settings, p),
            StepEnd::Further(p) => is_sound(entries, scene.settings, p),
            StepEnd::Fault(_) => true,
        },
{
    lemma_scanned(
        entries,
        scene,
        progress,
        step,
        0,
        Seq::empty(),
        progress.decisions,
        progress.matched,
    );
    match scanned(entries, scene, progress, step) {
        Scanned::Fault(_) => {},
        Scanned::Done { candidates, decisions, asked } => {
            let by_score = scene.settings.use_group_scoring;
            let contest = contested(entries, candidates, by_score, progress.random);
            lemma_settled(
                entries,
                Contest {
                    candidates,
                    lost: Seq::new(candidates.len(), |i: int| false),
                    random: progress.random,
                },
                groups_of(entries, candidates, candidates.len() as int),
                0,
                by_score,
                scene.settings,
                step,
            );
            lemma_kept(entries, contest, 0, scene.settings, step);
            lemma_rejected(decisions, contest, contest.candidates.len() as int);
            let after = Progress {
                decisions: decisions + rejected_below(contest, contest.candidates.len() as int),
                matched: asked,
                random: contest.random,
                ..progress
            };
            assert(is_sound(entries, scene.settings, after));
            lemma_tried_all(entries, scene, kept_from(contest, 0), after, Seq::empty(), step);
        },
    }
}

proof fn lemma_evaluated_from(
    entries: Seq<&LoreEntry>,
    scene: Scene,
    progress: Progress,
    step: int,
)
    requires
        is_sound(entries, scene.settings, progress),
    ensures
        evaluated_from(entries, scene, progress, step) matches Evaluated::Going(p) ==> is_sound(
            entries,
            scene.settings,
            p,
        ),
    decreases step_limit(scene.settings) - step,
{
    if step < step_limit(scene.settings) {
        lemma_stepped(entries, scene, progress, step);
        if let StepEnd::Further(next) = stepped(entries, scene, progress, step) {
            lemma_evaluated_from(entries, scene, next, step + 1);
        }
    }
}

/// Of an evaluation that comes to its end: the tokens used are those of the
/// entries that became active, and stay below the budget unless some entry
/// ignores it. Each of these entries is one of those given that nothing
/// suppresses at some step, and each is traced by one decision.
pub proof fn law_evaluations_are_sound(entries: Seq<LoreEntry>, scene: Scene)
    ensures
        evaluated(entries, scene) matches Evaluated::Going(p) ==> is_sound(
            in_order(entries),
            scene.settings,
            p,
        ),
{
    lemma_evaluated_from(in_order(entries), scene, unstarted(scene.settings), 0);
}

/// A disabled entry never becomes active.
pub proof fn law_disabled_entries_stay_out(entry: LoreEntry, settings: LoreSettings, step: int)
    requires
        !entry.enabled,
    ensures
        suppression(entry, settings, step) == Some(LoreDecisionOutcome::Disabled),
{
}

/// Of two entries the one of the higher insertion order is considered first, of the
/// same order the one of the earlier source, and of the same source the one whose
/// identity comes first.
pub proof fn law_higher_orders_come_first(entries: Seq<LoreEntry>, i: int, j: int)
    requires
        0 <= i < j < in_order(entries).len(),
    ensures
        ({
            let first = *in_order(entries)[i];
            let second = *in_order(entries)[j];
            &&& first.insertion_order >= second.insertion_order
            &&& first.insertion_order == second.insertion_order ==> first.source_index
                <= second.source_index
            &&& first.insertion_order == second.insertion_order && first.source_index
                == second.source_index ==> first.id@ == second.id@ || lex_less(
                first.id@,
                second.id@,
            )
        }),
{
    law_entries_are_considered_in_order(entries);
    let first = *in_order(entries)[i];
    let second = *in_order(entries)[j];
    assert(!precedes(second, first));
    lemma_lex_total(first.id@, second.id@);
}

/// Where no entry ignores the budget the entries that became active stay below it, or
/// are empty where there is none.
pub proof fn law_the_budget_is_kept(entries: Seq<LoreEntry>, scene: Scene)
    requires
        forall|i: int|
            0 <= i < in_order(entries).len() ==> !(#[trigger] in_order(entries)[i]).ignore_budget,
    ensures
        evaluated(entries, scene) matches Evaluated::Going(p) ==> {
            &&& p.used == active_tokens(p.activated)
            &&& active_tokens(p.activated) < scene.settings.budget_tokens || active_tokens(
                p.activated,
            ) == 0
        },
{
    law_evaluations_are_sound(entries, scene);
}

/// An entry stands in the prompt as it says: in its place, with its role and depth.
pub open spec fn is_placed_as(active: ActivatedView, entry: LoreEntry) -> bool {
    &&& active.entry_key == entry_key(entry)
    &&& active.source_revision == entry.source_revision@
    &&& active.insertion_order == entry.insertion_order
    &&& active.position == entry.position
    &&& active.depth == entry.depth
    &&& active.role == entry.role
    &&& active.outlet == entry.outlet@
}

/// What became active comes from an entry that is enabled, and is placed as it says.
pub proof fn law_active_entries_are_placed_as_they_say(
    entries: Seq<LoreEntry>,
    scene: Scene,
    k: int,
)
    ensures
        evaluated(entries, scene) matches Evaluated::Going(p) ==> 0 <= k < p.activated.len()
            ==> exists|i: int|
            0 <= i < in_order(entries).len() && (#[trigger] in_order(entries)[i]).enabled
                && is_placed_as(p.activated[k], *in_order(entries)[i]),
{
    law_evaluations_are_sound(entries, scene);
    match evaluated(entries, scene) {
        Evaluated::Going(p) => {
            if 0 <= k < p.activated.len() {
                let all = in_order(entries);
                assert(is_allowed(all, scene.settings, p.activated[k]));
                let (i, step) = choose|i: int, step: int|
                    0 <= i < all.len() && p.activated[k] == activation(
                        *all[i],
                        p.activated[k].content,
                        p.activated[k].tokens,
                    ) && #[trigger] suppression(*all[i], scene.settings, step) is None;
                assert(all[i].enabled && is_placed_as(p.activated[k], *all[i]));
            }
        },
        Evaluated::Fault(_) => {},
    }
}

/// A candidate that becomes active brings its content in for the next step, unless it
/// prevents recursion; one that does not brings nothing.
pub proof fn law_active_entries_bring_their_content(
    entry: LoreEntry,
    scene: Scene,
    decision: DecisionView,
    progress: Progress,
    brought: Seq<Seq<char>>,
)
    ensures
        tried(entry, scene, decision, progress, brought) matches Stepped::Going(p, more) ==> {
            ||| p.activated == progress.activated && p.used == progress.used && more == brought
            ||| {
                &&& p.activated.len() == progress.activated.len() + 1
                &&& p.activated.drop_last() == progress.activated
                &&& is_placed_as(p.activated.last(), entry)
                &&& p.used == progress.used + p.activated.last().tokens
                &&& scene.contents is None ==> p.activated.last().content == entry.content@
                &&& entry.prevent_recursion ==> more == brought
                &&& !entry.prevent_recursion ==> more == brought + seq![
                    p.activated.last().content,
                ]
            }
        },
{
    match tried(entry, scene, decision, progress, brought) {
        Stepped::Going(p, more) => {
            if p.activated != progress.activated {
                assert(p.activated.drop_last() =~= progress.activated);
                assert(brought.push(p.activated.last().content) =~= brought + seq![
                    p.activated.last().content,
                ]);
            }
        },
        Stepped::Fault(_) => {},
    }
}

/// What the candidates of a step bring in.
spec fn is_brought(
    entries: Seq<&LoreEntry>,
    before: Progress,
    brought: Seq<Seq<char>>,
    after: Progress,
    more: Seq<Seq<char>>,
) -> bool {
    &&& before.activated.is_prefix_of(after.activated)
    &&& brought.is_prefix_of(more)
    &&& after.recursion == before.recursion
    &&& forall|k: int|
        before.activated.len() <= k < after.activated.len() ==> brings_in(
            entries,
            more.skip(brought.len() as int),
            #[trigger] after.activated[k],
        )
}

/// An entry that became active is one whose content was brought in, or that prevents
/// that.
pub open spec fn brings_in(
    entries: Seq<&LoreEntry>,
    brought: Seq<Seq<char>>,
    active: ActivatedView,
) -> bool {
    exists|i: int|
        0 <= i < entries.len() && is_placed_as(active, *#[trigger] entries[i]) && (
        entries[i].prevent_recursion || brought.contains(active.content))
}

proof fn lemma_all_bring(
    entries: Seq<&LoreEntry>,
    scene: Scene,
    candidates: Seq<Candidate>,
    progress: Progress,
    brought: Seq<Seq<char>>,
)
    requires
        forall|k: int|
            0 <= k < candidates.len() ==> 0 <= (#[trigger] candidates[k]).at < entries.len(),
    ensures
        tried_all(entries, scene, candidates, progress, brought) matches Stepped::Going(p, more)
            ==> is_brought(entries, progress, brought, p, more),
    decreases candidates.len(),
{
    if candidates.len() > 0 {
        let first = candidates[0];
        let rest = candidates.drop_first();
        let entry = *entries[first.at];
        law_active_entries_bring_their_content(entry, scene, first.decision, progress, brought);
        match tried(entry, scene, first.decision, progress, brought) {
            Stepped::Going(p, more) => {
                assert forall|k: int| 0 <= k < rest.len() implies 0 <= (#[trigger] rest[k]).at
                    < entries.len() by {
                    assert(rest[k] == candidates[k + 1]);
                }
                lemma_all_bring(entries, scene, rest, p, more);
                match tried_all(entries, scene, rest, p, more) {
                    Stepped::Going(end, all) => {
                        assert(progress.activated.is_prefix_of(end.activated));
                        let new = all.skip(brought.len() as int);
                        let later = all.skip(more.len() as int);
                        assert forall|k: int|
                            progress.activated.len() <= k < end.activated.len() implies brings_in(
                            entries,
                            new,
                            #[trigger] end.activated[k],
                        ) by {
                            if k < p.activated.len() {
                                assert(end.activated[k] == p.activated[k]);
                                assert(is_placed_as(end.activated[k], *entries[first.at]));
                                if !entry.prevent_recursion {
                                    assert(more[brought.len() as int]
                                        == p.activated.last().content);
                                    assert(new[0] == all[brought.len() as int]);
                                    assert(new[0] == end.activated[k].content);
                                    assert(new.contains(end.activated[k].content));
                                }
                            } else {
                                assert(brings_in(entries, later, end.activated[k]));
                                let i = choose|i: int|
                                    0 <= i < entries.len() && is_placed_as(
                                        end.activated[k],
                                        *#[trigger] entries[i],
                                    ) && (entries[i].prevent_recursion || later.contains(
                                        end.activated[k].content,
                                    ));
                                if later.contains(end.activated[k].content) {
                                    let m = choose|m: int|
                                        0 <= m < later.len() && later[m]
                                            == end.activated[k].content;
                                    assert(new[more.len() - brought.len() + m] == later[m]);
                                }
                                assert(is_placed_as(end.activated[k], *entries[i]));
                            }
                        }
                    },
                    Stepped::Fault(_) => {},
                }
            },
            Stepped::Fault(_) => {},
        }
    }
}

/// An evaluation only takes a further step where recursion is on, the budget has not
/// been passed and something was brought in: then the next step searches, behind what
/// it searched before, the content of every entry that became active and does not
/// prevent that. Where it ends although recursion is on and the budget has not been
/// passed, all that became active at this step prevents recursion.
pub proof fn law_further_steps_search_what_was_brought(
    entries: Seq<&LoreEntry>,
    scene: Scene,
    progress: Progress,
    step: int,
)
    ensures
        match stepped(entries, scene, progress, step) {
            StepEnd::Further(next) => {
                &&& scene.settings.recursive
                &&& !next.overflowed
                &&& progress.recursion.is_prefix_of(next.recursion)
                &&& progress.recursion.len() < next.recursion.len()
                &&& progress.activated.is_prefix_of(next.activated)
                &&& forall|k: int|
                    progress.activated.len() <= k < next.activated.len() ==> brings_in(
                        entries,
                        next.recursion.skip(progress.recursion.len() as int),
                        #[trigger] next.activated[k],
                    )
            },
            StepEnd::Over(end) => {
                &&& end.recursion == progress.recursion
                &&& progress.activated.is_prefix_of(end.activated)
                &&& scene.settings.recursive && !end.overflowed ==> forall|k: int|
                    progress.activated.len() <= k < end.activated.len() ==> brings_in(
                        entries,
                        Seq::empty(),
                        #[trigger] end.activated[k],
                    )
            },
            StepEnd::Fault(_) => true,
        },
{
    lemma_scanned(
        entries,
        scene,
        progress,
        step,
        0,
        Seq::empty(),
        progress.decisions,
        progress.matched,
    );
    match scanned(entries, scene, progress, step) {
        Scanned::Fault(_) => {},
        Scanned::Done { candidates, decisions, asked } => {
            let by_score = scene.settings.use_group_scoring;
            let contest = contested(entries, candidates, by_score, progress.random);
            lemma_settled(
                entries,
                Contest {
                    candidates,
                    lost: Seq::new(candidates.len(), |i: int| false),
                    random: progress.random,
                },
                groups_of(entries, candidates, candidates.len() as int),
                0,
                by_score,
                scene.settings,
                step,
            );
            lemma_kept(entries, contest, 0, scene.settings, step);
            let kept = kept_from(contest, 0);
            let after = Progress {
                decisions: decisions + rejected_below(contest, contest.candidates.len() as int),
                matched: asked,
                random: contest.random,
                ..progress
            };
            lemma_all_bring(entries, scene, kept, after, Seq::empty());
            match tried_all(entries, scene, kept, after, Seq::empty()) {
                Stepped::Going(p, more) => {
                    assert(more.skip(0) =~= more);
                    if more.len() == 0 {
                        assert(more =~= Seq::<Seq<char>>::empty());
                    }
                    let longer = p.recursion + more;
                    assert(longer.skip(progress.recursion.len() as int) =~= more);
                },
                Stepped::Fault(_) => {},
            }
        },
    }
}

} // verus!
