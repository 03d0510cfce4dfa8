//! Why entries of lore become active or do not: what every decision rests on.
use vstd::prelude::*;

use crate::assoc;
use crate::lore::activation::{
    Evaluated, evaluated, evaluated_from, Examined, examined, in_order, is_active,
    Progress, Scanned, scanned, scanned_from, Scene, step_limit, StepEnd, Stepped, stepped, tried,
    tried_all, unstarted,
};
use crate::lore::decision::{DecisionView, LoreDecisionOutcome, LoreSettings};
use crate::lore::entry::{entry_key, HUNDRED_ORDER, LoreEntry, SelectiveLogic};
use crate::lore::groups::{
    available, Candidate, Contest, contested, groups_of, kept_from, rejected_below, rejection,
    settled, settled_from,
};
use crate::lore::group_laws::{is_of_group, lemma_available};
use crate::text::views;

verus! {

/// An entry was last active less than `span` messages ago.
pub open spec fn was_active_lately(
    entry: LoreEntry,
    settings: LoreSettings,
    span: usize,
) -> bool {
    match assoc::lookup(settings.prior_activations@, entry_key(entry)) {
        Some(at) => settings.message_count < at + span,
        None => false,
    }
}

/// An entry may be triggered by what is being made.
pub open spec fn is_triggered(entry: LoreEntry, settings: LoreSettings) -> bool {
    entry.triggers@.len() == 0 || exists|i: int|
        0 <= i < entry.triggers@.len() && (#[trigger] entry.triggers@[i])@
            == settings.generation_type@
}

/// An entry may be active at a step of recursion.
pub open spec fn is_due(entry: LoreEntry, step: usize) -> bool {
    &&& step == 0 ==> entry.delay_until_recursion == 0
    &&& step > 0 ==> !entry.exclude_recursion && entry.delay_until_recursion <= step
}

/// An entry is looked at: it is enabled and triggered, the talk is long enough, and
/// it is active still or neither cooling down nor out of its turn.
pub open spec fn is_looked_at(entry: LoreEntry, settings: LoreSettings, step: usize) -> bool {
    &&& entry.enabled
    &&& is_triggered(entry, settings)
    &&& entry.delay <= settings.message_count
    &&& was_active_lately(entry, settings, entry.sticky) || (!was_active_lately(
        entry,
        settings,
        entry.cooldown,
    ) && is_due(entry, step))
}

/// So many secondary keys are what an entry asks for.
pub open spec fn are_enough(entry: LoreEntry, secondary: nat) -> bool {
    let count = entry.secondary_keys@.len();
    &&& entry.selective_logic == SelectiveLogic::AndAny ==> secondary >= 1
    &&& entry.selective_logic == SelectiveLogic::AndAll ==> secondary == count
    &&& entry.selective_logic == SelectiveLogic::NotAny ==> secondary == 0
    &&& entry.selective_logic == SelectiveLogic::NotAll ==> secondary < count
}

/// An entry needs no key to be mentioned.
pub open spec fn needs_no_key(entry: LoreEntry, settings: LoreSettings) -> bool {
    entry.constant || was_active_lately(entry, settings, entry.sticky)
}

/// The keys that were found call for an entry.
pub open spec fn is_called_for(
    entry: LoreEntry,
    settings: LoreSettings,
    decision: DecisionView,
) -> bool {
    needs_no_key(entry, settings) || (decision.primary_matches.len() > 0 && (entry.selective
        && entry.secondary_keys@.len() > 0 ==> are_enough(
        entry,
        decision.secondary_matches.len(),
    )))
}

/// Chance lets an entry pass: nothing had to be drawn, or no more was drawn than its
/// probability.
pub open spec fn passes_chance(entry: LoreEntry, decision: DecisionView) -> bool {
    match decision.probability_draw {
        None => !entry.use_probability || entry.probability.order >= HUNDRED_ORDER,
        Some(draw) => {
            &&& entry.use_probability
            &&& entry.probability.order < HUNDRED_ORDER
            &&& draw.order <= entry.probability.order || draw.order <= 0
        },
    }
}

/// What a decision on an entry rests on, where entries of `used` tokens became active
/// in all.
pub open spec fn is_justified(
    entry: LoreEntry,
    settings: LoreSettings,
    decision: DecisionView,
    used: nat,
) -> bool {
    let step = decision.recursion_step;
    &&& decision.entry_key == entry_key(entry)
    &&& step > 0 ==> settings.recursive && step < settings.max_recursion_steps
    &&& match decision.outcome {
        LoreDecisionOutcome::Disabled => !entry.enabled,
        LoreDecisionOutcome::TriggerFiltered => entry.enabled && !is_triggered(entry, settings),
        LoreDecisionOutcome::DelaySuppressed => entry.enabled && settings.message_count
            < entry.delay,
        LoreDecisionOutcome::CooldownSuppressed => was_active_lately(
            entry,
            settings,
            entry.cooldown,
        ) && !was_active_lately(entry, settings, entry.sticky),
        LoreDecisionOutcome::RecursionSuppressed => !is_due(entry, step) && !was_active_lately(
            entry,
            settings,
            entry.sticky,
        ),
        LoreDecisionOutcome::NoPrimaryMatch => is_looked_at(entry, settings, step)
            && !needs_no_key(entry, settings) && decision.primary_matches.len() == 0,
        LoreDecisionOutcome::SecondaryRejected => {
            &&& is_looked_at(entry, settings, step)
            &&& !needs_no_key(entry, settings)
            &&& decision.primary_matches.len() > 0
            &&& entry.selective
            &&& entry.secondary_keys@.len() > 0
            &&& !are_enough(entry, decision.secondary_matches.len())
        },
        LoreDecisionOutcome::GroupRejected => {
            &&& is_looked_at(entry, settings, step)
            &&& is_called_for(entry, settings, decision)
            &&& exists|k: int|
                0 <= k < entry.group@.len() && decision.group == Some(
                    (#[trigger] entry.group@[k])@,
                )
        },
        LoreDecisionOutcome::ProbabilityRejected => {
            &&& is_looked_at(entry, settings, step)
            &&& is_called_for(entry, settings, decision)
            &&& decision.probability_draw is Some
            &&& !passes_chance(entry, decision)
            &&& entry.use_probability
            &&& entry.probability.order < HUNDRED_ORDER
        },
        LoreDecisionOutcome::BudgetRejected => {
            &&& is_looked_at(entry, settings, step)
            &&& is_called_for(entry, settings, decision)
            &&& passes_chance(entry, decision)
            &&& !entry.ignore_budget
            &&& decision.tokens + used >= settings.budget_tokens
            &&& decision.tokens + used >= 1
        },
        LoreDecisionOutcome::Activated => {
            &&& is_looked_at(entry, settings, step)
            &&& is_called_for(entry, settings, decision)
            &&& passes_chance(entry, decision)
            &&& entry.ignore_budget || decision.tokens < settings.budget_tokens
                || decision.tokens == 0
        },
    }
}

/// Some entry is the one that a decision is on, and the decision is justified.
pub open spec fn rests_on_an_entry(
    entries: Seq<&LoreEntry>,
    settings: LoreSettings,
    decision: DecisionView,
    used: nat,
) -> bool {
    exists|i: int|
        0 <= i < entries.len() && is_justified(*#[trigger] entries[i], settings, decision, used)
}

/// All decisions so far are justified.
spec fn are_justified(
    entries: Seq<&LoreEntry>,
    settings: LoreSettings,
    decisions: Seq<DecisionView>,
    used: nat,
) -> bool {
    forall|k: int|
        0 <= k < decisions.len() ==> rests_on_an_entry(
            entries,
            settings,
            #[trigger] decisions[k],
            used,
        )
}

/// What is known of a candidate at a step.
spec fn is_candidate(
    entries: Seq<&LoreEntry>,
    settings: LoreSettings,
    step: int,
    candidate: Candidate,
) -> bool {
    &&& 0 <= candidate.at < entries.len()
    &&& ({
        let entry = *entries[candidate.at];
        let decision = candidate.decision;
        &&& decision.entry_key == entry_key(entry)
        &&& decision.recursion_step == step
        &&& decision.probability_draw is None
        &&& is_looked_at(entry, settings, decision.recursion_step)
        &&& is_called_for(entry, settings, decision)
    })
}

spec fn are_candidates(
    entries: Seq<&LoreEntry>,
    settings: LoreSettings,
    step: int,
    candidates: Seq<Candidate>,
) -> bool {
    forall|k: int|
        0 <= k < candidates.len() ==> is_candidate(
            entries,
            settings,
            step,
            #[trigger] candidates[k],
        )
}

/// A step that an evaluation can come to.
spec fn is_step(settings: LoreSettings, step: int) -> bool {
    &&& 0 <= step < step_limit(settings)
    &&& step > 0 ==> settings.recursive
}

/// What is being made is one of the triggers of an entry.
pub proof fn lemma_triggered(entry: LoreEntry, settings: LoreSettings)
    ensures
        is_triggered(entry, settings) <==> entry.triggers@.len() == 0 || views(
            entry.triggers@,
        ).contains(settings.generation_type@),
{
    let triggers = entry.triggers@;
    if views(triggers).contains(settings.generation_type@) {
        let i = choose|i: int|
            0 <= i < views(triggers).len() && views(triggers)[i] == settings.generation_type@;
        assert(triggers[i]@ == settings.generation_type@);
    }
    if is_triggered(entry, settings) && triggers.len() > 0 {
        let i = choose|i: int|
            0 <= i < triggers.len() && (#[trigger] triggers[i])@ == settings.generation_type@;
        assert(views(triggers)[i] == settings.generation_type@);
    }
}

/// The first look at an entry decides rightly.
proof fn lemma_examined(
    entries: Seq<&LoreEntry>,
    at: int,
    scene: Scene,
    recursion: Seq<Seq<char>>,
    step: int,
    asked: nat,
    used: nat,
)
    requires
        0 <= at < entries.len(),
        is_step(scene.settings, step),
    ensures
        match examined(*entries[at], scene, recursion, step, asked) {
            Examined::Out(decision, _) => {
                &&& is_justified(*entries[at], scene.settings, decision, used)
                &&& decision.recursion_step == step
            },
            Examined::In(decision, _) => is_candidate(
                entries,
                scene.settings,
                step,
                Candidate { at, decision },
            ),
            Examined::Fault(_) => true,
        },
{
    lemma_triggered(*entries[at], scene.settings);
}

proof fn lemma_justified_push(
    entries: Seq<&LoreEntry>,
    settings: LoreSettings,
    decisions: Seq<DecisionView>,
    used: nat,
    decision: DecisionView,
)
    requires
        are_justified(entries, settings, decisions, used),
        rests_on_an_entry(entries, settings, decision, used),
    ensures
        are_justified(entries, settings, decisions.push(decision), used),
{
    let more = decisions.push(decision);
    assert forall|k: int| 0 <= k < more.len() implies rests_on_an_entry(
        entries,
        settings,
        #[trigger] more[k],
        used,
    ) by {
        if k < decisions.len() {
            assert(more[k] == decisions[k]);
        }
    }
}

/// With more tokens in use what was justified still is.
proof fn lemma_justified_later(
    entries: Seq<&LoreEntry>,
    settings: LoreSettings,
    decisions: Seq<DecisionView>,
    used: nat,
    later: nat,
)
    requires
        are_justified(entries, settings, decisions, used),
        used <= later,
    ensures
        are_justified(entries, settings, decisions, later),
{
    assert forall|k: int| 0 <= k < decisions.len() implies rests_on_an_entry(
        entries,
        settings,
        #[trigger] decisions[k],
        later,
    ) by {
        let i = choose|i: int|
            0 <= i < entries.len() && is_justified(
                *#[trigger] entries[i],
                settings,
                decisions[k],
                used,
            );
        assert(is_justified(*entries[i], settings, decisions[k], later));
    }
}

/// Every entry from `i` on that is not active is decided on or stays a candidate.
spec fn are_covered(
    entries: Seq<&LoreEntry>,
    activated: Seq<crate::lore::decision::ActivatedView>,
    upto: int,
    step: int,
    candidates: Seq<Candidate>,
    decisions: Seq<DecisionView>,
) -> bool {
    forall|i: int|
        0 <= i < upto && !is_active(activated, entry_key(*#[trigger] entries[i])) ==> is_told(
            decisions,
            entry_key(*entries[i]),
            step,
        ) || has_candidate(candidates, i)
}

spec fn has_candidate(candidates: Seq<Candidate>, i: int) -> bool {
    exists|k: int| 0 <= k < candidates.len() && (#[trigger] candidates[k]).at == i
}

/// A decision at a step is told of an entry.
pub open spec fn is_told(decisions: Seq<DecisionView>, key: Seq<char>, step: int) -> bool {
    exists|k: int|
        0 <= k < decisions.len() && (#[trigger] decisions[k]).entry_key == key
            && decisions[k].recursion_step == step
}

proof fn lemma_told_push(
    decisions: Seq<DecisionView>,
    decision: DecisionView,
    key: Seq<char>,
    step: int,
)
    ensures
        is_told(decisions.push(decision), key, step) <==> is_told(decisions, key, step) || (
        decision.entry_key == key && decision.recursion_step == step),
{
    let more = decisions.push(decision);
    if is_told(decisions, key, step) {
        let k = choose|k: int|
            0 <= k < decisions.len() && (#[trigger] decisions[k]).entry_key == key
                && decisions[k].recursion_step == step;
        assert(more[k].entry_key == key);
    }
    if decision.entry_key == key && decision.recursion_step == step {
        assert(more[decisions.len() as int].entry_key == key);
    }
    if is_told(more, key, step) {
        let k = choose|k: int|
            0 <= k < more.len() && (#[trigger] more[k]).entry_key == key && more[k].recursion_step
                == step;
        if k < decisions.len() {
            assert(decisions[k].entry_key == key);
        }
    }
}

proof fn lemma_scan(
    entries: Seq<&LoreEntry>,
    scene: Scene,
    progress: Progress,
    step: int,
    i: int,
    candidates: Seq<Candidate>,
    decisions: Seq<DecisionView>,
    asked: nat,
    used: nat,
)
    requires
        0 <= i <= entries.len(),
        is_step(scene.settings, step),
        are_candidates(entries, scene.settings, step, candidates),
        are_justified(entries, scene.settings, decisions, used),
        are_covered(entries, progress.activated, i, step, candidates, decisions),
    ensures
        match scanned_from(entries, scene, progress, step, i, candidates, decisions, asked) {
            Scanned::Done { candidates: c, decisions: d, asked: _ } => {
                &&& are_candidates(entries, scene.settings, step, c)
                &&& are_justified(entries, scene.settings, d, used)
                &&& are_covered(
                    entries,
                    progress.activated,
                    entries.len() as int,
                    step,
                    c,
                    d,
                )
                &&& forall|key: Seq<char>, s: int| #[trigger]
                    is_told(decisions, key, s) ==> is_told(d, key, s)
            },
            Scanned::Fault(_) => true,
        },
    decreases entries.len() - i,
{
    if i < entries.len() {
        if is_active(progress.activated, entry_key(*entries[i])) {
            lemma_scan(
                entries,
                scene,
                progress,
                step,
                i + 1,
                candidates,
                decisions,
                asked,
                used,
            );
        } else {
            lemma_examined(entries, i, scene, progress.recursion, step, asked, used);
            match examined(*entries[i], scene, progress.recursion, step, asked) {
                Examined::Out(decision, n) => {
                    let more = decisions.push(decision);
                    assert(rests_on_an_entry(entries, scene.settings, decision, used));
                    lemma_justified_push(entries, scene.settings, decisions, used, decision);
                    assert forall|key: Seq<char>, s: int| #[trigger]
                        is_told(decisions, key, s) implies is_told(more, key, s) by {
                        lemma_told_push(decisions, decision, key, s);
                    }
                    assert(is_told(more, entry_key(*entries[i]), step)) by {
                        lemma_told_push(decisions, decision, entry_key(*entries[i]), step);
                    }
                    lemma_scan(
                        entries,
                        scene,
                        progress,
                        step,
                        i + 1,
                        candidates,
                        more,
                        n,
                        used,
                    );
                },
                Examined::In(decision, n) => {
                    let more = candidates.push(Candidate { at: i, decision });
                    assert(has_candidate(more, i)) by {
                        assert(more[candidates.len() as int].at == i);
                    }
                    assert forall|j: int| has_candidate(candidates, j) implies #[trigger]
                    has_candidate(more, j) by {
                        let k = choose|k: int|
                            0 <= k < candidates.len() && (#[trigger] candidates[k]).at == j;
                        assert(more[k].at == j);
                    }
                    assert forall|k: int| 0 <= k < more.len() implies is_candidate(
                        entries,
                        scene.settings,
                        step,
                        #[trigger] more[k],
                    ) by {
                        if k < candidates.len() {
                            assert(more[k] == candidates[k]);
                        }
                    }
                    lemma_scan(
                        entries,
                        scene,
                        progress,
                        step,
                        i + 1,
                        more,
                        decisions,
                        n,
                        used,
                    );
                },
                Examined::Fault(_) => {},
            }
        }
    }
}

/// A contest of candidates: they stay candidates, and those that lost are said to
/// belong to one of their groups.
spec fn is_contest(
    entries: Seq<&LoreEntry>,
    settings: LoreSettings,
    step: int,
    contest: Contest,
) -> bool {
    &&& contest.lost.len() == contest.candidates.len()
    &&& are_candidates(entries, settings, step, contest.candidates)
    &&& forall|i: int|
        0 <= i < contest.candidates.len() && contest.lost[i] ==> is_labelled(
            entries,
            #[trigger] contest.candidates[i],
        )
}

spec fn is_labelled(entries: Seq<&LoreEntry>, candidate: Candidate) -> bool {
    let group = entries[candidate.at].group@;
    exists|k: int|
        0 <= k < group.len() && candidate.decision.group == Some((#[trigger] group[k])@)
}

proof fn lemma_contest(
    entries: Seq<&LoreEntry>,
    settings: LoreSettings,
    step: int,
    contest: Contest,
    names: Seq<Seq<char>>,
    k: int,
    by_score: bool,
)
    requires
        is_contest(entries, settings, step, contest),
        0 <= k <= names.len(),
    ensures
        is_contest(
            entries,
            settings,
            step,
            settled_from(entries, contest, names, k, by_score),
        ),
        settled_from(entries, contest, names, k, by_score).candidates.len()
            == contest.candidates.len(),
        forall|i: int|
            0 <= i < contest.candidates.len() ==> (#[trigger] settled_from(
                entries,
                contest,
                names,
                k,
                by_score,
            ).candidates[i]).at == contest.candidates[i].at,
    decreases names.len() - k,
{
    if k < names.len() {
        let name = names[k];
        let n = contest.candidates.len() as int;
        let next = settled(entries, contest, name, by_score);
        let members = available(entries, contest.candidates, contest.lost, name, n);
        assert forall|i: int| 0 <= i < n implies is_candidate(
            entries,
            settings,
            step,
            #[trigger] next.candidates[i],
        ) by {
            assert(is_candidate(entries, settings, step, contest.candidates[i]));
        }
        assert forall|i: int| 0 <= i < n && next.lost[i] implies is_labelled(
            entries,
            #[trigger] next.candidates[i],
        ) by {
            lemma_available(entries, contest.candidates, contest.lost, name, n, i);
            assert(next.candidates[i].at == contest.candidates[i].at);
            if members.len() > 1 && members.contains(i) {
                let group = entries[contest.candidates[i].at].group@;
                assert(is_of_group(entries, contest.candidates, i, name));
                let g = choose|g: int| 0 <= g < group.len() && (#[trigger] group[g])@ == name;
                assert(next.candidates[i].decision.group == Some(group[g]@));
            } else {
                assert(next.candidates[i] == contest.candidates[i]);
                assert(is_labelled(entries, contest.candidates[i]));
            }
        }
        lemma_contest(entries, settings, step, next, names, k + 1, by_score);
        assert forall|i: int| 0 <= i < n implies (#[trigger] settled_from(
            entries,
            contest,
            names,
            k,
            by_score,
        ).candidates[i]).at == contest.candidates[i].at by {
            assert(next.candidates[i].at == contest.candidates[i].at);
        }
    }
}

proof fn lemma_lost_are_justified(
    entries: Seq<&LoreEntry>,
    settings: LoreSettings,
    step: int,
    contest: Contest,
    decisions: Seq<DecisionView>,
    count: int,
    used: nat,
)
    requires
        is_contest(entries, settings, step, contest),
        is_step(settings, step),
        are_justified(entries, settings, decisions, used),
        0 <= count <= contest.candidates.len(),
    ensures
        are_justified(entries, settings, decisions + rejected_below(contest, count), used),
        forall|i: int|
            0 <= i < count && contest.lost[i] ==> is_told(
                decisions + rejected_below(contest, count),
                (#[trigger] contest.candidates[i]).decision.entry_key,
                step,
            ),
        forall|key: Seq<char>, s: int| #[trigger]
            is_told(decisions, key, s) ==> is_told(
                decisions + rejected_below(contest, count),
                key,
                s,
            ),
    decreases count,
{
    let rejected = rejected_below(contest, count);
    if count == 0 {
        assert(decisions + rejected =~= decisions);
    } else if contest.lost[count - 1] {
        let candidate = contest.candidates[count - 1];
        let first = rejection(candidate);
        let more = decisions.push(first);
        assert(is_candidate(entries, settings, step, candidate));
        assert(is_labelled(entries, candidate));
        assert(is_justified(*entries[candidate.at], settings, first, used));
        assert(rests_on_an_entry(entries, settings, first, used));
        lemma_justified_push(entries, settings, decisions, used, first);
        assert forall|key: Seq<char>, s: int| #[trigger] is_told(decisions, key, s) implies is_told(
            more,
            key,
            s,
        ) by {
            lemma_told_push(decisions, first, key, s);
        }
        lemma_told_push(decisions, first, first.entry_key, step);
        lemma_lost_are_justified(entries, settings, step, contest, more, count - 1, used);
        assert(decisions + rejected =~= more + rejected_below(contest, count - 1));
    } else {
        lemma_lost_are_justified(entries, settings, step, contest, decisions, count - 1, used);
    }
}

proof fn lemma_kept_are_candidates(
    entries: Seq<&LoreEntry>,
    settings: LoreSettings,
    step: int,
    contest: Contest,
    i: int,
)
    requires
        is_contest(entries, settings, step, contest),
        0 <= i <= contest.candidates.len(),
    ensures
        are_candidates(entries, settings, step, kept_from(contest, i)),
        forall|j: int|
            i <= j < contest.candidates.len() && !contest.lost[j] ==> kept_from(
                contest,
                i,
            ).contains(#[trigger] contest.candidates[j]),
    decreases contest.candidates.len() - i,
{
    if i < contest.candidates.len() {
        lemma_kept_are_candidates(entries, settings, step, contest, i + 1);
        let rest = kept_from(contest, i + 1);
        if !contest.lost[i] {
            let first = contest.candidates[i];
            let kept = seq![first] + rest;
            assert forall|k: int| 0 <= k < kept.len() implies is_candidate(
                entries,
                settings,
                step,
                #[trigger] kept[k],
            ) by {
                if k > 0 {
                    assert(kept[k] == rest[k - 1]);
                } else {
                    assert(is_candidate(entries, settings, step, first));
                }
            }
            assert forall|j: int|
                i <= j < contest.candidates.len() && !contest.lost[j] implies kept.contains(
                #[trigger] contest.candidates[j],
            ) by {
                if j == i {
                    assert(kept[0] == contest.candidates[j]);
                } else {
                    assert(rest.contains(contest.candidates[j]));
                    let k = choose|k: int| 0 <= k < rest.len() && rest[k] == contest.candidates[j];
                    assert(kept[k + 1] == contest.candidates[j]);
                }
            }
        }
    }
}

proof fn lemma_tried_is_justified(
    entries: Seq<&LoreEntry>,
    scene: Scene,
    step: int,
    candidate: Candidate,
    progress: Progress,
    brought: Seq<Seq<char>>,
)
    requires
        is_candidate(entries, scene.settings, step, candidate),
        is_step(scene.settings, step),
        are_justified(entries, scene.settings, progress.decisions, progress.used),
    ensures
        match tried(
            *entries[candidate.at],
            scene,
            candidate.decision,
            progress,
            brought,
        ) {
            Stepped::Going(p, _) => {
                &&& progress.used <= p.used
                &&& are_justified(entries, scene.settings, p.decisions, p.used)
                &&& p.decisions.len() == progress.decisions.len() + 1
                &&& p.decisions.drop_last() == progress.decisions
                &&& p.decisions.last().entry_key == candidate.decision.entry_key
                &&& p.decisions.last().recursion_step == step
                &&& p.activated.len() >= progress.activated.len()
            },
            Stepped::Fault(_) => true,
        },
{
    let entry = *entries[candidate.at];
    match tried(entry, scene, candidate.decision, progress, brought) {
        Stepped::Going(p, _) => {
            let last = p.decisions.last();
            assert(p.decisions =~= progress.decisions.push(last));
            assert(p.decisions.drop_last() =~= progress.decisions);
            lemma_justified_later(
                entries,
                scene.settings,
                progress.decisions,
                progress.used,
                p.used,
            );
            assert(is_justified(entry, scene.settings, last, p.used));
            assert(rests_on_an_entry(entries, scene.settings, last, p.used));
            lemma_justified_push(
                entries,
                scene.settings,
                progress.decisions,
                p.used,
                last,
            );
        },
        Stepped::Fault(_) => {},
    }
}

proof fn lemma_tried_are_justified(
    entries: Seq<&LoreEntry>,
    scene: Scene,
    step: int,
    candidates: Seq<Candidate>,
    progress: Progress,
    brought: Seq<Seq<char>>,
)
    requires
        are_candidates(entries, scene.settings, step, candidates),
        is_step(scene.settings, step),
        are_justified(entries, scene.settings, progress.decisions, progress.used),
    ensures
        match tried_all(entries, scene, candidates, progress, brought) {
            Stepped::Going(p, _) => {
                &&& are_justified(entries, scene.settings, p.decisions, p.used)
                &&& forall|k: int|
                    0 <= k < candidates.len() ==> is_told(
                        p.decisions,
                        (#[trigger] candidates[k]).decision.entry_key,
                        step,
                    )
                &&& forall|key: Seq<char>, s: int| #[trigger]
                    is_told(progress.decisions, key, s) ==> is_told(p.decisions, key, s)
            },
            Stepped::Fault(_) => true,
        },
    decreases candidates.len(),
{
    if candidates.len() > 0 {
        let first = candidates[0];
        let rest = candidates.drop_first();
        assert(is_candidate(entries, scene.settings, step, first));
        lemma_tried_is_justified(entries, scene, step, first, progress, brought);
        match tried(*entries[first.at], scene, first.decision, progress, brought) {
            Stepped::Going(p, more) => {
                let last = p.decisions.last();
                assert(p.decisions =~= progress.decisions.push(last));
                assert forall|k: int| 0 <= k < rest.len() implies is_candidate(
                    entries,
                    scene.settings,
                    step,
                    #[trigger] rest[k],
                ) by {
                    assert(rest[k] == candidates[k + 1]);
                }
                lemma_tried_are_justified(entries, scene, step, rest, p, more);
                lemma_told_push(progress.decisions, last, first.decision.entry_key, step);
                assert forall|key: Seq<char>, s: int| #[trigger]
                    is_told(progress.decisions, key, s) implies is_told(p.decisions, key, s) by {
                    lemma_told_push(progress.decisions, last, key, s);
                }
                match tried_all(entries, scene, candidates, progress, brought) {
                    Stepped::Going(end, _) => {
                        assert forall|k: int| 0 <= k < candidates.len() implies is_told(
                            end.decisions,
                            (#[trigger] candidates[k]).decision.entry_key,
                            step,
                        ) by {
                            if k > 0 {
                                assert(rest[k - 1] == candidates[k]);
                            }
                        }
                    },
                    Stepped::Fault(_) => {},
                }
            },
            Stepped::Fault(_) => {},
        }
    }
}

proof fn lemma_step_is_justified(
    entries: Seq<&LoreEntry>,
    scene: Scene,
    progress: Progress,
    step: int,
)
    requires
        is_step(scene.settings, step),
        are_justified(entries, scene.settings, progress.decisions, progress.used),
    ensures
        match stepped(entries, scene, progress, step) {
            StepEnd::Over(p) => is_told_on(entries, scene, progress, step, p),
            StepEnd::Further(p) => is_told_on(entries, scene, progress, step, p)
                && scene.settings.recursive,
            StepEnd::Fault(_) => true,
        },
{
    let settings = scene.settings;
    let used = progress.used;
    lemma_scan(
        entries,
        scene,
        progress,
        step,
        0,
        Seq::empty(),
        progress.decisions,
        progress.matched,
        used,
    );
    match scanned(entries, scene, progress, step) {
        Scanned::Fault(_) => {},
        Scanned::Done { candidates, decisions, asked } => {
            let by_score = settings.use_group_scoring;
            let n = candidates.len() as int;
            let start = Contest {
                candidates,
                lost: Seq::new(candidates.len(), |i: int| false),
                random: progress.random,
            };
            let contest = contested(entries, candidates, by_score, progress.random);
            lemma_contest(
                entries,
                settings,
                step,
                start,
                groups_of(entries, candidates, n),
                0,
                by_score,
            );
            lemma_lost_are_justified(entries, settings, step, contest, decisions, n, used);
            lemma_kept_are_candidates(entries, settings, step, contest, 0);
            let kept = kept_from(contest, 0);
            let after = Progress {
                decisions: decisions + rejected_below(contest, contest.candidates.len() as int),
                matched: asked,
                random: contest.random,
                ..progress
            };
            lemma_tried_are_justified(entries, scene, step, kept, after, Seq::empty());
            let end = match stepped(entries, scene, progress, step) {
                StepEnd::Over(p) => p,
                StepEnd::Further(p) => p,
                StepEnd::Fault(_) => after,
            };
            assert forall|i: int|
                0 <= i < entries.len() && !is_active(
                    progress.activated,
                    entry_key(*#[trigger] entries[i]),
                ) && !(stepped(entries, scene, progress, step) is Fault) implies is_told(
                end.decisions,
                entry_key(*entries[i]),
                step,
            ) by {
                let key = entry_key(*entries[i]);
                if is_told(decisions, key, step) {
                    assert(is_told(after.decisions, key, step));
                } else {
                    let k = choose|k: int|
                        0 <= k < candidates.len() && (#[trigger] candidates[k]).at == i;
                    assert(contest.candidates[k].at == i);
                    assert(is_candidate(entries, settings, step, contest.candidates[k]));
                    if contest.lost[k] {
                        assert(is_told(after.decisions, key, step));
                    } else {
                        assert(kept.contains(contest.candidates[k]));
                        let m = choose|m: int|
                            0 <= m < kept.len() && kept[m] == contest.candidates[k];
                        assert(is_told(end.decisions, kept[m].decision.entry_key, step));
                    }
                }
            }
        },
    }
}

/// After a step all decisions are justified, and one at this step is told of every
/// entry that was not active before it.
spec fn is_told_on(
    entries: Seq<&LoreEntry>,
    scene: Scene,
    before: Progress,
    step: int,
    after: Progress,
) -> bool {
    &&& are_justified(entries, scene.settings, after.decisions, after.used)
    &&& forall|i: int|
        0 <= i < entries.len() && !is_active(
            before.activated,
            entry_key(*#[trigger] entries[i]),
        ) ==> is_told(after.decisions, entry_key(*entries[i]), step)
    &&& forall|key: Seq<char>, s: int| #[trigger]
        is_told(before.decisions, key, s) ==> is_told(after.decisions, key, s)
}

proof fn lemma_evaluation_is_justified(
    entries: Seq<&LoreEntry>,
    scene: Scene,
    progress: Progress,
    step: int,
)
    requires
        0 <= step,
        step > 0 ==> scene.settings.recursive,
        are_justified(entries, scene.settings, progress.decisions, progress.used),
    ensures
        match evaluated_from(entries, scene, progress, step) {
            Evaluated::Going(p) => {
                &&& are_justified(entries, scene.settings, p.decisions, p.used)
                &&& step < step_limit(scene.settings) ==> forall|i: int|
                    0 <= i < entries.len() && !is_active(
                        progress.activated,
                        entry_key(*#[trigger] entries[i]),
                    ) ==> is_told(p.decisions, entry_key(*entries[i]), step)
                &&& forall|key: Seq<char>, s: int| #[trigger]
                    is_told(progress.decisions, key, s) ==> is_told(p.decisions, key, s)
            },
            Evaluated::Fault(_) => true,
        },
    decreases step_limit(scene.settings) - step,
{
    if step < step_limit(scene.settings) {
        lemma_step_is_justified(entries, scene, progress, step);
        match stepped(entries, scene, progress, step) {
            StepEnd::Further(next) => {
                lemma_evaluation_is_justified(entries, scene, next, step + 1);
                match evaluated_from(entries, scene, next, step + 1) {
                    Evaluated::Going(p) => {
                        assert forall|i: int|
                            0 <= i < entries.len() && !is_active(
                                progress.activated,
                                entry_key(*#[trigger] entries[i]),
                            ) implies is_told(p.decisions, entry_key(*entries[i]), step) by {
                            assert(is_told(next.decisions, entry_key(*entries[i]), step));
                        }
                    },
                    Evaluated::Fault(_) => {},
                }
            },
            _ => {},
        }
    }
}

/// Every decision that an evaluation tells rests on what the entry says, what the
/// settings are, which keys were found, what was drawn and what fits.
pub proof fn law_decisions_are_justified(entries: Seq<LoreEntry>, scene: Scene)
    ensures
        match evaluated(entries, scene) {
            Evaluated::Going(p) => forall|k: int|
                0 <= k < p.decisions.len() ==> rests_on_an_entry(
                    in_order(entries),
                    scene.settings,
                    #[trigger] p.decisions[k],
                    p.used,
                ),
            Evaluated::Fault(_) => true,
        },
{
    lemma_evaluation_is_justified(in_order(entries), scene, unstarted(scene.settings), 0);
}

/// No entry is passed over: at the first step a decision is told of each.
pub proof fn law_every_entry_is_decided_on(entries: Seq<LoreEntry>, scene: Scene, i: int)
    requires
        0 <= i < in_order(entries).len(),
    ensures
        match evaluated(entries, scene) {
            Evaluated::Going(p) => is_told(p.decisions, entry_key(*in_order(entries)[i]), 0),
            Evaluated::Fault(_) => true,
        },
{
    lemma_evaluation_is_justified(in_order(entries), scene, unstarted(scene.settings), 0);
    assert(!is_active(
        unstarted(scene.settings).activated,
        entry_key(*in_order(entries)[i]),
    ));
}

} // verus!
