//! Which lore entries become active.
use vstd::prelude::*;

use crate::assoc;
use crate::ecma_regex::{EcmaRegexError, EcmaRegexWorker};
use crate::json::{JsonNumber, JsonNumberView};
use crate::lore::decision::{
    activated_views, ActivatedLore, ActivatedView, advance, decision_views, DecisionView,
    lemma_activated_push, lemma_decisions_push, LoreDecision, LoreDecisionOutcome, LoreResult,
    LoreSettings, next_random,
};
use crate::lore::entry::{
    entry_key, HUNDRED_ORDER, LoreEntry, LoreError, LoreQuestion, SelectiveLogic,
};
use crate::lore::groups::{
    Candidate, candidate_views, candidates_fit, choose_groups, contested, kept_from,
    rejected_below,
};
use crate::lore::matching::{find_keys, is_fault, LoreFault, Mentioned, mentioned, Oracle, Search};
use crate::macros::evaluate::Fault;
use crate::text::{
    self, contains_text, interspersed, join_texts, lemma_views_push, less, lex_less, views,
};
use crate::tokenizer::TokenizerId;

verus! {

/// The replies that a caller has given so far, each list in the order of the
/// questions: matches of regular expressions, percentages, and what entries
/// come to with the number of tokens of that.
#[derive(Clone, Debug)]
pub struct LoreReplies {
    pub matches: Vec<bool>,
    pub percentages: Vec<JsonNumber>,
    pub tokens: Vec<usize>,
    pub contents: Vec<String>,
}

impl LoreReplies {
    /// No replies.
    pub fn none() -> (replies: LoreReplies)
        ensures
            replies.matches@.len() == 0,
            replies.percentages@.len() == 0,
            replies.tokens@.len() == 0,
            replies.contents@.len() == 0,
    {
        LoreReplies {
            matches: Vec::new(),
            percentages: Vec::new(),
            tokens: Vec::new(),
            contents: Vec::new(),
        }
    }

    /// The numbers of tokens can be added up.
    pub open spec fn wf(&self) -> bool {
        total(self.tokens@) <= usize::MAX
    }
}

/// The sum of some sizes.
pub open spec fn total(sizes: Seq<usize>) -> nat
    decreases sizes.len(),
{
    if sizes.len() == 0 {
        0
    } else {
        total(sizes.drop_last()) + sizes.last() as nat
    }
}

proof fn lemma_total_upto(sizes: Seq<usize>, n: int)
    requires
        0 <= n <= sizes.len(),
    ensures
        total(sizes.take(n)) <= total(sizes),
        n < sizes.len() ==> total(sizes.take(n + 1)) == total(sizes.take(n)) + sizes[n],
        n < sizes.len() ==> total(sizes.take(n + 1)) <= total(sizes),
    decreases sizes.len() - n,
{
    if n < sizes.len() {
        assert(sizes.take(n + 1).drop_last() =~= sizes.take(n));
        lemma_total_upto(sizes, n + 1);
    } else {
        assert(sizes.take(n) =~= sizes);
    }
}

/// The abstract values of a list of numbers.
pub open spec fn number_views(numbers: Seq<JsonNumber>) -> Seq<JsonNumberView> {
    Seq::new(numbers.len(), |i: int| numbers[i]@)
}

/// What an evaluation has to go by, beside the entries.
pub struct Scene {
    pub messages: Seq<Seq<char>>,
    pub settings: LoreSettings,
    pub oracle: Oracle,
    pub percentages: Seq<JsonNumberView>,
    pub tokens: Seq<usize>,
    pub contents: Option<Seq<Seq<char>>>,
}

/// How far an evaluation has come.
pub struct Progress {
    pub decisions: Seq<DecisionView>,
    pub activated: Seq<ActivatedView>,
    pub used: nat,
    pub overflowed: bool,
    pub recursion: Seq<Seq<char>>,
    pub random: u64,
    pub matched: nat,
    pub drawn: nat,
    pub rendered: nat,
}

/// An evaluation that went on, or what stopped it.
pub enum Evaluated {
    Going(Progress),
    Fault(LoreFault),
}

/// An entry comes before another: by a higher insertion order, else by an
/// earlier source, else by a smaller identity.
pub open spec fn precedes(left: LoreEntry, right: LoreEntry) -> bool {
    ||| left.insertion_order > right.insertion_order
    ||| left.insertion_order == right.insertion_order && left.source_index < right.source_index
    ||| left.insertion_order == right.insertion_order && left.source_index == right.source_index
        && lex_less(left.id@, right.id@)
}

/// Where an entry goes among others: behind all that it does not precede at the
/// end.
pub open spec fn slot(entries: Seq<&LoreEntry>, entry: LoreEntry) -> int
    decreases entries.len(),
{
    if entries.len() > 0 && precedes(entry, *entries.last()) {
        slot(entries.drop_last(), entry)
    } else {
        entries.len() as int
    }
}

/// The entries in the order in which they are considered. Those of which none
/// precedes the other keep their order.
pub open spec fn in_order<'a>(entries: Seq<LoreEntry>) -> Seq<&'a LoreEntry>
    decreases entries.len(),
{
    if entries.len() == 0 {
        Seq::empty()
    } else {
        let head = in_order(entries.drop_last());
        head.insert(slot(head, entries.last()), &entries.last())
    }
}

proof fn lemma_slot(entries: Seq<&LoreEntry>, entry: LoreEntry)
    ensures
        0 <= slot(entries, entry) <= entries.len(),
        slot(entries, entry) < entries.len() ==> precedes(entry, *entries[slot(entries, entry)]),
        slot(entries, entry) > 0 ==> !precedes(entry, *entries[slot(entries, entry) - 1]),
    decreases entries.len(),
{
    if entries.len() > 0 && precedes(entry, *entries.last()) {
        lemma_slot(entries.drop_last(), entry);
    }
}

fn check_precedes(left: &LoreEntry, right: &LoreEntry) -> (r: bool)
    ensures
        r == precedes(*left, *right),
{
    if left.insertion_order != right.insertion_order {
        return left.insertion_order > right.insertion_order;
    }
    if left.source_index != right.source_index {
        return left.source_index < right.source_index;
    }
    less(left.id.as_str(), right.id.as_str())
}

fn sort_entries(entries: &Vec<LoreEntry>) -> (sorted: Vec<&LoreEntry>)
    ensures
        sorted@ == in_order(entries@),
{
    let mut sorted: Vec<&LoreEntry> = Vec::new();
    let mut i: usize = 0;
    proof {
        assert(sorted@ =~= Seq::<&LoreEntry>::empty());
    }
    while i < entries.len()
        invariant
            i <= entries@.len(),
            sorted@ == in_order(entries@.take(i as int)),
        decreases entries@.len() - i,
    {
        let entry: &LoreEntry = &entries[i];
        let mut at: usize = sorted.len();
        proof {
            assert(entries@.take(i + 1).drop_last() =~= entries@.take(i as int));
            assert(sorted@.take(at as int) =~= sorted@);
        }
        while at > 0 && check_precedes(entry, sorted[at - 1])
            invariant
                at <= sorted@.len(),
                slot(sorted@, *entry) == slot(sorted@.take(at as int), *entry),
            decreases at,
        {
            proof {
                assert(sorted@.take(at as int).drop_last() =~= sorted@.take(at - 1));
            }
            at = at - 1;
        }
        proof {
            assert(at > 0 ==> sorted@.take(at as int).last() == sorted@[at - 1]);
            assert(slot(sorted@, *entry) == at);
        }
        sorted.insert(at, entry);
        i = i + 1;
    }
    proof {
        assert(entries@.take(entries@.len() as int) =~= entries@);
    }
    sorted
}

/// The number of messages at which an entry was last active.
pub open spec fn last_active(entry: LoreEntry, settings: LoreSettings) -> Option<usize> {
    assoc::lookup(settings.prior_activations@, entry_key(entry))
}

/// An entry is still within a number of messages of its last activation.
pub open spec fn within_span(entry: LoreEntry, settings: LoreSettings, span: usize) -> bool {
    match last_active(entry, settings) {
        Some(at) => settings.message_count < at + span,
        None => false,
    }
}

/// An entry that is active without being mentioned because it was so lately.
pub open spec fn sticky(entry: LoreEntry, settings: LoreSettings) -> bool {
    within_span(entry, settings, entry.sticky)
}

/// What keeps an entry from being considered at a step, whatever the talk
/// mentions.
pub open spec fn suppression(entry: LoreEntry, settings: LoreSettings, step: int) -> Option<
    LoreDecisionOutcome,
> {
    if !entry.enabled {
        Some(LoreDecisionOutcome::Disabled)
    } else if entry.triggers@.len() > 0 && !views(entry.triggers@).contains(
        settings.generation_type@,
    ) {
        Some(LoreDecisionOutcome::TriggerFiltered)
    } else if settings.message_count < entry.delay {
        Some(LoreDecisionOutcome::DelaySuppressed)
    } else if sticky(entry, settings) {
        None
    } else if within_span(entry, settings, entry.cooldown) {
        Some(LoreDecisionOutcome::CooldownSuppressed)
    } else if step == 0 && entry.delay_until_recursion > 0 {
        Some(LoreDecisionOutcome::RecursionSuppressed)
    } else if step > 0 && (entry.exclude_recursion || step < entry.delay_until_recursion) {
        Some(LoreDecisionOutcome::RecursionSuppressed)
    } else {
        None
    }
}

fn check_span(prior: &Option<usize>, count: usize, span: usize) -> (r: bool)
    ensures
        r == match *prior {
            Some(at) => count < at + span,
            None => false,
        },
{
    match prior {
        Some(at) => *at > count || count - *at < span,
        None => false,
    }
}

fn find_prior(entry: &LoreEntry, settings: &LoreSettings) -> (prior: Option<usize>)
    ensures
        prior == last_active(*entry, *settings),
{
    let key = entry.key();
    match assoc::find(&settings.prior_activations, key.as_str()) {
        Some(at) => Some(*at),
        None => None,
    }
}

fn check_sticky(entry: &LoreEntry, settings: &LoreSettings) -> (r: bool)
    ensures
        r == sticky(*entry, *settings),
{
    let prior = find_prior(entry, settings);
    check_span(&prior, settings.message_count, entry.sticky)
}

fn find_suppression(entry: &LoreEntry, settings: &LoreSettings, step: usize) -> (r: Option<
    LoreDecisionOutcome,
>)
    ensures
        r == suppression(*entry, *settings, step as int),
{
    if !entry.enabled {
        return Some(LoreDecisionOutcome::Disabled);
    }
    if entry.triggers.len() > 0 && !contains_text(
        &entry.triggers,
        settings.generation_type.as_str(),
    ) {
        return Some(LoreDecisionOutcome::TriggerFiltered);
    }
    if settings.message_count < entry.delay {
        return Some(LoreDecisionOutcome::DelaySuppressed);
    }
    if check_sticky(entry, settings) {
        return None;
    }
    let prior = find_prior(entry, settings);
    if check_span(&prior, settings.message_count, entry.cooldown) {
        return Some(LoreDecisionOutcome::CooldownSuppressed);
    }
    if step == 0 && entry.delay_until_recursion > 0 {
        return Some(LoreDecisionOutcome::RecursionSuppressed);
    }
    if step > 0 && (entry.exclude_recursion || step < entry.delay_until_recursion) {
        return Some(LoreDecisionOutcome::RecursionSuppressed);
    }
    None
}

/// What an entry asks of its secondary keys is met by `matches` of them.
pub open spec fn selected(entry: LoreEntry, matches: nat) -> bool {
    let count = entry.secondary_keys@.len();
    count == 0 || match entry.selective_logic {
        SelectiveLogic::AndAny => matches > 0,
        SelectiveLogic::NotAll => matches < count,
        SelectiveLogic::NotAny => matches == 0,
        SelectiveLogic::AndAll => matches == count,
    }
}

fn secondary_matches(entry: &LoreEntry, matches: usize) -> (r: bool)
    ensures
        r == selected(*entry, matches as nat),
{
    let count: usize = entry.secondary_keys.len();
    if count == 0 {
        return true;
    }
    match entry.selective_logic {
        SelectiveLogic::AndAny => matches > 0,
        SelectiveLogic::NotAll => matches < count,
        SelectiveLogic::NotAny => matches == 0,
        SelectiveLogic::AndAll => matches == count,
    }
}

/// The texts that are searched for the keys of an entry: the newest messages
/// and, after the first step, what entries have brought in.
pub open spec fn searched(
    entry: LoreEntry,
    scene: Scene,
    recursion: Seq<Seq<char>>,
    step: int,
) -> Seq<Seq<char>> {
    let depth = match entry.scan_depth {
        Some(depth) => depth,
        None => scene.settings.scan_depth,
    };
    let newest = if depth <= scene.messages.len() {
        scene.messages.take(depth as int)
    } else {
        scene.messages
    };
    if step > 0 {
        newest + recursion
    } else {
        newest
    }
}

/// How a text is searched for the keys of an entry.
pub open spec fn search_for(
    entry: LoreEntry,
    scene: Scene,
    recursion: Seq<Seq<char>>,
    step: int,
) -> Search {
    Search {
        oracle: scene.oracle,
        text: interspersed(searched(entry, scene, recursion, step), "\n\u{1}"@),
        case_sensitive: match entry.case_sensitive {
            Some(sensitive) => sensitive,
            None => scene.settings.case_sensitive,
        },
        whole_words: match entry.match_whole_words {
            Some(whole) => whole,
            None => scene.settings.match_whole_words,
        },
    }
}

fn gather_text(
    entry: &LoreEntry,
    messages: &Vec<String>,
    settings: &LoreSettings,
    recursion: &Vec<String>,
    step: usize,
    Ghost(scene): Ghost<Scene>,
) -> (text: String)
    requires
        scene.messages == views(messages@),
        scene.settings == *settings,
    ensures
        text@ == search_for(*entry, scene, views(recursion@), step as int).text,
{
    let depth: usize = match entry.scan_depth {
        Some(depth) => depth,
        None => settings.scan_depth,
    };
    let count: usize = if depth <= messages.len() {
        depth
    } else {
        messages.len()
    };
    let mut parts: Vec<String> = Vec::new();
    let mut i: usize = 0;
    while i < count
        invariant
            i <= count <= messages@.len(),
            parts@ == messages@.take(i as int),
        decreases count - i,
    {
        parts.push(messages[i].clone());
        i = i + 1;
        proof {
            assert(parts@ =~= messages@.take(i as int));
        }
    }
    proof {
        assert(views(parts@) =~= searched(*entry, scene, views(recursion@), 0));
    }
    if step > 0 {
        let mut k: usize = 0;
        let ghost newest = parts@;
        while k < recursion.len()
            invariant
                k <= recursion@.len(),
                parts@ == newest + recursion@.take(k as int),
            decreases recursion@.len() - k,
        {
            parts.push(recursion[k].clone());
            k = k + 1;
            proof {
                assert(parts@ =~= newest + recursion@.take(k as int));
            }
        }
        proof {
            assert(views(parts@) =~= searched(*entry, scene, views(recursion@), step as int));
        }
    }
    join_texts(&parts, "\n\u{1}")
}

/// What is known of an entry before it is considered.
pub open spec fn undecided(entry: LoreEntry, step: int) -> DecisionView {
    DecisionView {
        entry_key: entry_key(entry),
        recursion_step: step as usize,
        primary_matches: Seq::empty(),
        secondary_matches: Seq::empty(),
        score: 0,
        group: if entry.group@.len() > 0 {
            Some(entry.group@[0]@)
        } else {
            None
        },
        group_draw: None,
        probability_draw: None,
        tokens: 0,
        outcome: LoreDecisionOutcome::NoPrimaryMatch,
    }
}

/// The sum of two sizes, or the largest size where that is less.
pub open spec fn capped_sum(left: nat, right: nat) -> usize {
    if left + right <= usize::MAX {
        (left + right) as usize
    } else {
        usize::MAX
    }
}

/// What the first look at an entry comes to: a decision against it, a place
/// among the candidates, or a fault. With it, the number of questions asked.
pub enum Examined {
    Out(DecisionView, nat),
    In(DecisionView, nat),
    Fault(LoreFault),
}

/// What comes of an entry whose keys are looked for.
pub open spec fn sought(entry: LoreEntry, search: Search, step: int, asked: nat) -> Examined {
    let decision = undecided(entry, step);
    match mentioned(search, views(entry.keys@), asked) {
        Mentioned::Fault(fault) => Examined::Fault(fault),
        Mentioned::Keys(primary, n) => {
            let found = DecisionView {
                primary_matches: primary,
                score: primary.len() as usize,
                ..decision
            };
            if primary.len() == 0 {
                Examined::Out(found, n)
            } else {
                match mentioned(search, views(entry.secondary_keys@), n) {
                    Mentioned::Fault(fault) => Examined::Fault(fault),
                    Mentioned::Keys(secondary, m) => if entry.selective && !selected(
                        entry,
                        secondary.len(),
                    ) {
                        Examined::Out(
                            DecisionView {
                                secondary_matches: secondary,
                                outcome: LoreDecisionOutcome::SecondaryRejected,
                                ..found
                            },
                            m,
                        )
                    } else {
                        Examined::In(
                            DecisionView {
                                secondary_matches: secondary,
                                score: capped_sum(primary.len(), secondary.len()),
                                ..found
                            },
                            m,
                        )
                    },
                }
            }
        },
    }
}

/// What the first look at an entry comes to.
pub open spec fn examined(
    entry: LoreEntry,
    scene: Scene,
    recursion: Seq<Seq<char>>,
    step: int,
    asked: nat,
) -> Examined {
    let decision = undecided(entry, step);
    match suppression(entry, scene.settings, step) {
        Some(outcome) => Examined::Out(DecisionView { outcome, ..decision }, asked),
        None => if entry.constant || sticky(entry, scene.settings) {
            Examined::In(DecisionView { score: usize::MAX, ..decision }, asked)
        } else {
            sought(entry, search_for(entry, scene, recursion, step), step, asked)
        },
    }
}

/// The outcome of an examination: whether the entry is in, and the decision.
pub open spec fn is_examined(
    r: Result<(bool, LoreDecision), LoreError>,
    asked: usize,
    examined: Examined,
) -> bool {
    match (r, examined) {
        (Ok((false, decision)), Examined::Out(d, n)) => decision@ == d && asked == n,
        (Ok((true, decision)), Examined::In(d, n)) => decision@ == d && asked == n,
        (Err(e), Examined::Fault(f)) => is_fault(e, f),
        _ => false,
    }
}

fn new_decision(entry: &LoreEntry, step: usize) -> (decision: LoreDecision)
    ensures
        decision@ == undecided(*entry, step as int),
{
    let group: Option<String> = if entry.group.len() > 0 {
        Some(entry.group[0].clone())
    } else {
        None
    };
    let decision = LoreDecision {
        entry_key: entry.key(),
        recursion_step: step,
        primary_matches: Vec::new(),
        secondary_matches: Vec::new(),
        score: 0,
        group,
        group_draw: None,
        probability_draw: None,
        tokens: 0,
        outcome: LoreDecisionOutcome::NoPrimaryMatch,
    };
    proof {
        assert(views(decision.primary_matches@) =~= Seq::<Seq<char>>::empty());
        assert(views(decision.secondary_matches@) =~= Seq::<Seq<char>>::empty());
    }
    decision
}

fn seek(
    entry: &LoreEntry,
    in_process: bool,
    replies: &Vec<bool>,
    asked: &mut usize,
    text: &str,
    case_sensitive: bool,
    whole_words: bool,
    step: usize,
) -> (r: Result<(bool, LoreDecision), LoreError>)
    ensures
        is_examined(
            r,
            *final(asked),
            sought(
                *entry,
                (Search {
                    oracle: Oracle { in_process, replies: replies@ },
                    text: text@,
                    case_sensitive,
                    whole_words,
                }),
                step as int,
                *old(asked) as nat,
            ),
        ),
{
    let mut decision = new_decision(entry, step);
    let primary = match find_keys(
        in_process,
        replies,
        asked,
        text,
        &entry.keys,
        case_sensitive,
        whole_words,
    ) {
        Ok(found) => found,
        Err(e) => return Err(e),
    };
    let hits: usize = primary.len();
    proof {
        assert(views(primary@).len() == primary@.len());
    }
    decision.primary_matches = primary;
    decision.score = hits;
    if hits == 0 {
        return Ok((false, decision));
    }
    let secondary = match find_keys(
        in_process,
        replies,
        asked,
        text,
        &entry.secondary_keys,
        case_sensitive,
        whole_words,
    ) {
        Ok(found) => found,
        Err(e) => return Err(e),
    };
    let more: usize = secondary.len();
    proof {
        assert(views(secondary@).len() == secondary@.len());
    }
    decision.secondary_matches = secondary;
    if entry.selective && !secondary_matches(entry, more) {
        decision.outcome = LoreDecisionOutcome::SecondaryRejected;
        return Ok((false, decision));
    }
    decision.score = if hits <= usize::MAX - more {
        hits + more
    } else {
        usize::MAX
    };
    Ok((true, decision))
}

/// An evaluation while it goes on.
struct Evaluation {
    result: LoreResult,
    recursion: Vec<String>,
    random: u64,
    matched: usize,
    drawn: usize,
    rendered: usize,
}

impl View for Evaluation {
    type V = Progress;

    closed spec fn view(&self) -> Progress {
        Progress {
            decisions: decision_views(self.result.decisions@),
            activated: activated_views(self.result.activated@),
            used: self.result.used_tokens as nat,
            overflowed: self.result.overflowed,
            recursion: views(self.recursion@),
            random: self.random,
            matched: self.matched as nat,
            drawn: self.drawn as nat,
            rendered: self.rendered as nat,
        }
    }
}

/// What an evaluation goes by.
struct Source<'a> {
    messages: &'a Vec<String>,
    settings: &'a LoreSettings,
    replies: &'a LoreReplies,
    in_process: bool,
    transformed: bool,
}

/// The abstract value of what an evaluation goes by.
pub open spec fn scene_of(
    messages: Seq<String>,
    settings: LoreSettings,
    replies: LoreReplies,
    in_process: bool,
    transformed: bool,
) -> Scene {
    Scene {
        messages: views(messages),
        settings,
        oracle: Oracle { in_process, replies: replies.matches@ },
        percentages: number_views(replies.percentages@),
        tokens: replies.tokens@,
        contents: if transformed {
            Some(views(replies.contents@))
        } else {
            None
        },
    }
}

impl<'a> View for Source<'a> {
    type V = Scene;

    closed spec fn view(&self) -> Scene {
        scene_of(
            self.messages@,
            *self.settings,
            *self.replies,
            self.in_process,
            self.transformed,
        )
    }
}

fn examine(
    entry: &LoreEntry,
    source: &Source,
    recursion: &Vec<String>,
    step: usize,
    asked: &mut usize,
) -> (r: Result<(bool, LoreDecision), LoreError>)
    ensures
        is_examined(
            r,
            *final(asked),
            examined(*entry, source@, views(recursion@), step as int, *old(asked) as nat),
        ),
{
    let settings = source.settings;
    if let Some(outcome) = find_suppression(entry, settings, step) {
        let mut decision = new_decision(entry, step);
        decision.outcome = outcome;
        return Ok((false, decision));
    }
    if entry.constant || check_sticky(entry, settings) {
        let mut decision = new_decision(entry, step);
        decision.score = usize::MAX;
        return Ok((true, decision));
    }
    let text = gather_text(entry, source.messages, settings, recursion, step, Ghost(source@));
    let case_sensitive: bool = match entry.case_sensitive {
        Some(sensitive) => sensitive,
        None => settings.case_sensitive,
    };
    let whole_words: bool = match entry.match_whole_words {
        Some(whole) => whole,
        None => settings.match_whole_words,
    };
    seek(
        entry,
        source.in_process,
        &source.replies.matches,
        asked,
        text.as_str(),
        case_sensitive,
        whole_words,
        step,
    )
}

/// An entry is among those that are active already.
pub open spec fn is_active(activated: Seq<ActivatedView>, key: Seq<char>) -> bool {
    exists|i: int| 0 <= i < activated.len() && (#[trigger] activated[i]).entry_key == key
}

/// The first look at all entries: those that stay candidates, the decisions
/// against others, and the number of questions asked; or what stopped it.
pub enum Scanned {
    Done { candidates: Seq<Candidate>, decisions: Seq<DecisionView>, asked: nat },
    Fault(LoreFault),
}

/// The first look at the entries from place `i` on, behind what is known.
pub open spec fn scanned_from(
    entries: Seq<&LoreEntry>,
    scene: Scene,
    progress: Progress,
    step: int,
    i: int,
    candidates: Seq<Candidate>,
    decisions: Seq<DecisionView>,
    asked: nat,
) -> Scanned
    decreases entries.len() - i,
{
    if i < 0 || i >= entries.len() {
        Scanned::Done { candidates, decisions, asked }
    } else if is_active(progress.activated, entry_key(*entries[i])) {
        scanned_from(entries, scene, progress, step, i + 1, candidates, decisions, asked)
    } else {
        match examined(*entries[i], scene, progress.recursion, step, asked) {
            Examined::Out(decision, n) => scanned_from(
                entries,
                scene,
                progress,
                step,
                i + 1,
                candidates,
                decisions.push(decision),
                n,
            ),
            Examined::In(decision, n) => scanned_from(
                entries,
                scene,
                progress,
                step,
                i + 1,
                candidates.push(Candidate { at: i, decision }),
                decisions,
                n,
            ),
            Examined::Fault(fault) => Scanned::Fault(fault),
        }
    }
}

/// The first look at all entries at a step.
pub open spec fn scanned(
    entries: Seq<&LoreEntry>,
    scene: Scene,
    progress: Progress,
    step: int,
) -> Scanned {
    scanned_from(
        entries,
        scene,
        progress,
        step,
        0,
        Seq::empty(),
        progress.decisions,
        progress.matched,
    )
}

fn check_active(activated: &Vec<ActivatedLore>, key: &str) -> (r: bool)
    ensures
        r == is_active(activated_views(activated@), key@),
{
    let mut i: usize = 0;
    while i < activated.len()
        invariant
            i <= activated@.len(),
            forall|j: int| 0 <= j < i ==> (#[trigger] activated@[j]).entry_key@ != key@,
        decreases activated@.len() - i,
    {
        if text::same(activated[i].entry_key.as_str(), key) {
            proof {
                assert(activated_views(activated@)[i as int].entry_key == key@);
            }
            return true;
        }
        i = i + 1;
    }
    proof {
        assert forall|j: int| 0 <= j < activated_views(activated@).len() implies (
        #[trigger] activated_views(activated@)[j]).entry_key != key@ by {
            assert(activated_views(activated@)[j].entry_key == activated@[j].entry_key@);
        }
    }
    false
}

fn scan(
    entries: &Vec<&LoreEntry>,
    source: &Source,
    evaluation: &mut Evaluation,
    step: usize,
) -> (r: Result<Vec<(usize, LoreDecision)>, LoreError>)
    ensures
        match (r, scanned(entries@, source@, old(evaluation)@, step as int)) {
            (Ok(list), Scanned::Done { candidates, decisions, asked }) => {
                &&& candidate_views(list@) == candidates
                &&& candidates_fit(entries@, candidates)
                &&& final(evaluation)@ == (Progress {
                    decisions,
                    matched: asked,
                    ..old(evaluation)@
                })
                &&& final(evaluation).result.budget_tokens == old(
                    evaluation,
                ).result.budget_tokens
            },
            (Err(e), Scanned::Fault(f)) => is_fault(e, f),
            _ => false,
        },
{
    let ghost start = evaluation@;
    let mut candidates: Vec<(usize, LoreDecision)> = Vec::new();
    let mut i: usize = 0;
    proof {
        assert(candidate_views(candidates@) =~= Seq::<Candidate>::empty());
    }
    while i < entries.len()
        invariant
            i <= entries@.len(),
            start == old(evaluation)@,
            evaluation@ == (Progress {
                decisions: evaluation@.decisions,
                matched: evaluation@.matched,
                ..start
            }),
            evaluation.result.budget_tokens == old(evaluation).result.budget_tokens,
            candidates_fit(entries@, candidate_views(candidates@)),
            scanned(entries@, source@, start, step as int) == scanned_from(
                entries@,
                source@,
                start,
                step as int,
                i as int,
                candidate_views(candidates@),
                evaluation@.decisions,
                evaluation@.matched,
            ),
        decreases entries@.len() - i,
    {
        let entry: &LoreEntry = entries[i];
        let key = entry.key();
        if !check_active(&evaluation.result.activated, key.as_str()) {
            let mut asked: usize = evaluation.matched;
            match examine(entry, source, &evaluation.recursion, step, &mut asked) {
                Ok((true, decision)) => {
                    let ghost before = candidates@;
                    candidates.push((i, decision));
                    proof {
                        assert(candidate_views(candidates@) =~= candidate_views(before).push(
                            Candidate { at: i as int, decision: decision@ },
                        ));
                    }
                    evaluation.matched = asked;
                },
                Ok((false, decision)) => {
                    proof {
                        lemma_decisions_push(evaluation.result.decisions@, decision);
                    }
                    evaluation.result.decisions.push(decision);
                    evaluation.matched = asked;
                },
                Err(e) => return Err(e),
            }
        }
        i = i + 1;
    }
    Ok(candidates)
}

/// What chance says of a candidate: it passes, it is rejected, or a percentage
/// is wanting.
pub enum Chance {
    Passed(DecisionView, Progress),
    Rejected(DecisionView, Progress),
    Fault(LoreFault),
}

/// What chance says of a candidate. Of a number drawn, the share that the caller
/// works out may not exceed the probability, taken between 0 and 100.
pub open spec fn chanced(
    entry: LoreEntry,
    scene: Scene,
    decision: DecisionView,
    progress: Progress,
) -> Chance {
    if !entry.use_probability || entry.probability.order >= HUNDRED_ORDER {
        Chance::Passed(decision, progress)
    } else {
        let random = next_random(progress.random);
        if progress.drawn >= scene.percentages.len() {
            Chance::Fault(LoreFault::Percentage { value: random })
        } else {
            let draw = scene.percentages[progress.drawn as int];
            let bound = if entry.probability.order < 0 {
                0
            } else {
                entry.probability.order
            };
            let told = DecisionView { probability_draw: Some(draw), ..decision };
            let after = Progress { random, drawn: progress.drawn + 1, ..progress };
            if draw.order > bound {
                Chance::Rejected(told, after)
            } else {
                Chance::Passed(told, after)
            }
        }
    }
}

/// What an entry comes to, with its tokens, as told by the caller.
pub open spec fn rendering(entry: LoreEntry, scene: Scene, asked: nat) -> Option<
    (Seq<char>, usize),
> {
    if asked >= scene.tokens.len() {
        None
    } else {
        match scene.contents {
            None => Some((entry.content@, scene.tokens[asked as int])),
            Some(contents) => if asked >= contents.len() {
                None
            } else {
                Some((contents[asked as int], scene.tokens[asked as int]))
            },
        }
    }
}

/// The entry as it enters the prompt.
pub open spec fn activation(entry: LoreEntry, content: Seq<char>, tokens: usize) -> ActivatedView {
    ActivatedView {
        entry_key: entry_key(entry),
        source_revision: entry.source_revision@,
        content,
        insertion_order: entry.insertion_order,
        position: entry.position,
        depth: entry.depth,
        role: entry.role,
        outlet: entry.outlet@,
        tokens,
    }
}

/// The tokens that may not be reached.
pub open spec fn budget(settings: LoreSettings) -> usize {
    if settings.budget_tokens >= 1 {
        settings.budget_tokens
    } else {
        1
    }
}

/// An evaluation within a step: how far it has come and what this step brings
/// in for the next; or what stopped it.
pub enum Stepped {
    Going(Progress, Seq<Seq<char>>),
    Fault(LoreFault),
}

/// What comes of a candidate that chance has passed.
pub open spec fn admitted(
    entry: LoreEntry,
    scene: Scene,
    decision: DecisionView,
    progress: Progress,
    brought: Seq<Seq<char>>,
) -> Stepped {
    match rendering(entry, scene, progress.rendered) {
        None => Stepped::Fault(LoreFault::Rendering { entry_key: entry_key(entry) }),
        Some((content, tokens)) => {
            let told = DecisionView { tokens, ..decision };
            let after = Progress { rendered: progress.rendered + 1, ..progress };
            if !entry.ignore_budget && progress.used + tokens >= budget(scene.settings) {
                Stepped::Going(
                    Progress {
                        overflowed: true,
                        decisions: progress.decisions.push(
                            DecisionView { outcome: LoreDecisionOutcome::BudgetRejected, ..told },
                        ),
                        ..after
                    },
                    brought,
                )
            } else {
                Stepped::Going(
                    Progress {
                        used: progress.used + tokens as nat,
                        activated: progress.activated.push(activation(entry, content, tokens)),
                        decisions: progress.decisions.push(
                            DecisionView { outcome: LoreDecisionOutcome::Activated, ..told },
                        ),
                        ..after
                    },
                    if entry.prevent_recursion {
                        brought
                    } else {
                        brought.push(content)
                    },
                )
            }
        },
    }
}

/// What comes of a candidate.
pub open spec fn tried(
    entry: LoreEntry,
    scene: Scene,
    decision: DecisionView,
    progress: Progress,
    brought: Seq<Seq<char>>,
) -> Stepped {
    match chanced(entry, scene, decision, progress) {
        Chance::Fault(fault) => Stepped::Fault(fault),
        Chance::Rejected(told, after) => Stepped::Going(
            Progress {
                decisions: after.decisions.push(
                    DecisionView { outcome: LoreDecisionOutcome::ProbabilityRejected, ..told },
                ),
                ..after
            },
            brought,
        ),
        Chance::Passed(told, after) => admitted(entry, scene, told, after, brought),
    }
}

/// What comes of some candidates, one after the other.
pub open spec fn tried_all(
    entries: Seq<&LoreEntry>,
    scene: Scene,
    candidates: Seq<Candidate>,
    progress: Progress,
    brought: Seq<Seq<char>>,
) -> Stepped
    decreases candidates.len(),
{
    if candidates.len() == 0 {
        Stepped::Going(progress, brought)
    } else {
        match tried(
            *entries[candidates[0].at],
            scene,
            candidates[0].decision,
            progress,
            brought,
        ) {
            Stepped::Fault(fault) => Stepped::Fault(fault),
            Stepped::Going(after, more) => tried_all(
                entries,
                scene,
                candidates.drop_first(),
                after,
                more,
            ),
        }
    }
}

impl Evaluation {
    /// The tokens used are among those that the caller has told of.
    spec fn accounted(&self, tokens: Seq<usize>) -> bool {
        &&& self.rendered <= tokens.len()
        &&& self.result.used_tokens <= total(tokens.take(self.rendered as int))
    }

    fn decide(&mut self, decision: LoreDecision, outcome: LoreDecisionOutcome)
        ensures
            final(self)@ == (Progress {
                decisions: old(self)@.decisions.push(DecisionView { outcome, ..decision@ }),
                ..old(self)@
            }),
            final(self).result.budget_tokens == old(self).result.budget_tokens,
    {
        let mut told = decision;
        told.outcome = outcome;
        proof {
            lemma_decisions_push(self.result.decisions@, told);
        }
        self.result.decisions.push(told);
    }

    fn admit_candidate(
        &mut self,
        entry: &LoreEntry,
        source: &Source,
        decision: LoreDecision,
        brought: &mut Vec<String>,
    ) -> (r: Result<(), LoreError>)
        requires
            source.replies.wf(),
            old(self).accounted(source@.tokens),
            old(self).result.budget_tokens == budget(source@.settings),
        ensures
            match (
                r,
                admitted(*entry, source@, decision@, old(self)@, views(old(brought)@)),
            ) {
                (Ok(()), Stepped::Going(progress, more)) => {
                    &&& final(self)@ == progress
                    &&& views(final(brought)@) == more
                    &&& final(self).accounted(source@.tokens)
                    &&& final(self).result.budget_tokens == old(self).result.budget_tokens
                },
                (Err(e), Stepped::Fault(f)) => is_fault(e, f),
                _ => false,
            },
    {
        let asked: usize = self.rendered;
        let replies = source.replies;
        if asked >= replies.tokens.len() || (source.transformed && asked
            >= replies.contents.len()) {
            return Err(
                LoreError::Unresolved(LoreQuestion::Rendering { entry_key: entry.key() }),
            );
        }
        let content: String = if source.transformed {
            replies.contents[asked].clone()
        } else {
            entry.content.clone()
        };
        let tokens: usize = replies.tokens[asked];
        proof {
            lemma_total_upto(source@.tokens, asked as int);
        }
        self.rendered = asked + 1;
        let mut told = decision;
        told.tokens = tokens;
        if !entry.ignore_budget && self.result.used_tokens + tokens >= self.result.budget_tokens {
            self.result.overflowed = true;
            self.decide(told, LoreDecisionOutcome::BudgetRejected);
            return Ok(());
        }
        self.result.used_tokens = self.result.used_tokens + tokens;
        if !entry.prevent_recursion {
            proof {
                lemma_views_push(brought@, content);
            }
            brought.push(content.clone());
        }
        let active = ActivatedLore {
            entry_key: entry.key(),
            source_revision: entry.source_revision,
            content,
            insertion_order: entry.insertion_order,
            position: entry.position,
            depth: entry.depth,
            role: entry.role,
            outlet: entry.outlet.clone(),
            tokens,
        };
        proof {
            lemma_activated_push(self.result.activated@, active);
        }
        self.result.activated.push(active);
        self.decide(told, LoreDecisionOutcome::Activated);
        Ok(())
    }

    fn try_candidate(
        &mut self,
        entry: &LoreEntry,
        source: &Source,
        decision: LoreDecision,
        brought: &mut Vec<String>,
    ) -> (r: Result<(), LoreError>)
        requires
            source.replies.wf(),
            old(self).accounted(source@.tokens),
            old(self).result.budget_tokens == budget(source@.settings),
        ensures
            match (r, tried(*entry, source@, decision@, old(self)@, views(old(brought)@))) {
                (Ok(()), Stepped::Going(progress, more)) => {
                    &&& final(self)@ == progress
                    &&& views(final(brought)@) == more
                    &&& final(self).accounted(source@.tokens)
                    &&& final(self).result.budget_tokens == old(self).result.budget_tokens
                },
                (Err(e), Stepped::Fault(f)) => is_fault(e, f),
                _ => false,
            },
    {
        let mut told = decision;
        if entry.use_probability && entry.probability.order < HUNDRED_ORDER {
            let value: u64 = advance(self.random);
            let asked: usize = self.drawn;
            if asked >= source.replies.percentages.len() {
                return Err(LoreError::Unresolved(LoreQuestion::Percentage { value }));
            }
            let draw = source.replies.percentages[asked].copy();
            let order: i64 = draw.order;
            proof {
                assert(source@.percentages[asked as int] == draw@);
            }
            self.random = value;
            self.drawn = asked + 1;
            told.probability_draw = Some(draw);
            let bound: i64 = if entry.probability.order < 0 {
                0
            } else {
                entry.probability.order
            };
            if order > bound {
                self.decide(told, LoreDecisionOutcome::ProbabilityRejected);
                return Ok(());
            }
        }
        self.admit_candidate(entry, source, told, brought)
    }
}

/// How an evaluation stands after a step: over, to be taken further, or stopped
/// by a fault.
pub enum StepEnd {
    Over(Progress),
    Further(Progress),
    Fault(LoreFault),
}

/// How an evaluation stands once the candidates of a step have been tried.
pub open spec fn concluded(scene: Scene, stepped: Stepped) -> StepEnd {
    match stepped {
        Stepped::Fault(fault) => StepEnd::Fault(fault),
        Stepped::Going(progress, brought) => if !scene.settings.recursive || brought.len() == 0
            || progress.overflowed {
            StepEnd::Over(progress)
        } else {
            StepEnd::Further(Progress { recursion: progress.recursion + brought, ..progress })
        },
    }
}

/// One step of an evaluation.
pub open spec fn stepped(
    entries: Seq<&LoreEntry>,
    scene: Scene,
    progress: Progress,
    step: int,
) -> StepEnd {
    match scanned(entries, scene, progress, step) {
        Scanned::Fault(fault) => StepEnd::Fault(fault),
        Scanned::Done { candidates, decisions, asked } => {
            let contest = contested(
                entries,
                candidates,
                scene.settings.use_group_scoring,
                progress.random,
            );
            let kept = kept_from(contest, 0);
            let after = Progress {
                decisions: decisions + rejected_below(contest, contest.candidates.len() as int),
                matched: asked,
                random: contest.random,
                ..progress
            };
            if kept.len() == 0 {
                StepEnd::Over(after)
            } else {
                concluded(scene, tried_all(entries, scene, kept, after, Seq::empty()))
            }
        },
    }
}

/// How many steps an evaluation takes at most.
pub open spec fn step_limit(settings: LoreSettings) -> usize {
    if settings.max_recursion_steps >= 1 {
        settings.max_recursion_steps
    } else {
        1
    }
}

/// The evaluation from a step on.
pub open spec fn evaluated_from(
    entries: Seq<&LoreEntry>,
    scene: Scene,
    progress: Progress,
    step: int,
) -> Evaluated
    decreases step_limit(scene.settings) - step,
{
    if step >= step_limit(scene.settings) {
        Evaluated::Going(progress)
    } else {
        match stepped(entries, scene, progress, step) {
            StepEnd::Over(end) => Evaluated::Going(end),
            StepEnd::Further(next) => evaluated_from(entries, scene, next, step + 1),
            StepEnd::Fault(fault) => Evaluated::Fault(fault),
        }
    }
}

/// An evaluation that has not begun.
pub open spec fn unstarted(settings: LoreSettings) -> Progress {
    Progress {
        decisions: Seq::empty(),
        activated: Seq::empty(),
        used: 0,
        overflowed: false,
        recursion: Seq::empty(),
        random: settings.rng_seed,
        matched: 0,
        drawn: 0,
        rendered: 0,
    }
}

/// What an evaluation comes to.
pub open spec fn evaluated(entries: Seq<LoreEntry>, scene: Scene) -> Evaluated {
    evaluated_from(in_order(entries), scene, unstarted(scene.settings), 0)
}

/// The result or the error that an evaluation gives.
pub open spec fn is_evaluation(
    r: Result<LoreResult, LoreError>,
    settings: LoreSettings,
    evaluated: Evaluated,
) -> bool {
    match (r, evaluated) {
        (Ok(result), Evaluated::Going(progress)) => {
            &&& activated_views(result.activated@) == progress.activated
            &&& decision_views(result.decisions@) == progress.decisions
            &&& result.used_tokens == progress.used
            &&& result.budget_tokens == budget(settings)
            &&& result.overflowed == progress.overflowed
        },
        (Err(e), Evaluated::Fault(f)) => is_fault(e, f),
        _ => false,
    }
}

fn try_all(
    entries: &Vec<&LoreEntry>,
    source: &Source,
    evaluation: &mut Evaluation,
    candidates: Vec<(usize, LoreDecision)>,
) -> (r: Result<Vec<String>, LoreError>)
    requires
        source.replies.wf(),
        old(evaluation).accounted(source@.tokens),
        old(evaluation).result.budget_tokens == budget(source@.settings),
        candidates_fit(entries@, candidate_views(candidates@)),
    ensures
        match (
            r,
            tried_all(
                entries@,
                source@,
                candidate_views(candidates@),
                old(evaluation)@,
                Seq::empty(),
            ),
        ) {
            (Ok(brought), Stepped::Going(progress, more)) => {
                &&& final(evaluation)@ == progress
                &&& views(brought@) == more
                &&& final(evaluation).accounted(source@.tokens)
                &&& final(evaluation).result.budget_tokens == old(
                    evaluation,
                ).result.budget_tokens
            },
            (Err(e), Stepped::Fault(f)) => is_fault(e, f),
            _ => false,
        },
{
    let ghost all = candidate_views(candidates@);
    let ghost start = evaluation@;
    let mut rest = candidates;
    let mut brought: Vec<String> = Vec::new();
    proof {
        assert(views(brought@) =~= Seq::<Seq<char>>::empty());
    }
    while rest.len() > 0
        invariant
            start == old(evaluation)@,
            all == candidate_views(candidates@),
            source.replies.wf(),
            evaluation.accounted(source@.tokens),
            evaluation.result.budget_tokens == budget(source@.settings),
            evaluation.result.budget_tokens == old(evaluation).result.budget_tokens,
            candidates_fit(entries@, candidate_views(rest@)),
            tried_all(entries@, source@, all, start, Seq::empty()) == tried_all(
                entries@,
                source@,
                candidate_views(rest@),
                evaluation@,
                views(brought@),
            ),
        decreases rest@.len(),
    {
        let ghost before = candidate_views(rest@);
        proof {
            assert(before[0].at == rest@[0].0);
        }
        let candidate = rest.remove(0);
        proof {
            assert(candidate_views(rest@) =~= before.drop_first());
            assert forall|i: int| 0 <= i < rest@.len() implies 0 <= (#[trigger] candidate_views(
                rest@,
            )[i]).at < entries@.len() by {
                assert(candidate_views(rest@)[i] == before[i + 1]);
            }
        }
        match evaluation.try_candidate(entries[candidate.0], source, candidate.1, &mut brought) {
            Ok(()) => {},
            Err(e) => return Err(e),
        }
    }
    Ok(brought)
}

fn append_texts(texts: &mut Vec<String>, more: Vec<String>)
    ensures
        views(final(texts)@) == views(old(texts)@) + views(more@),
{
    let ghost before = texts@;
    let mut i: usize = 0;
    while i < more.len()
        invariant
            i <= more@.len(),
            texts@ == before + more@.take(i as int),
        decreases more@.len() - i,
    {
        texts.push(more[i].clone());
        i = i + 1;
        proof {
            assert(texts@ =~= before + more@.take(i as int));
        }
    }
    proof {
        assert(views(texts@) =~= views(before) + views(more@));
    }
}

/// One step. Whether the evaluation is to be taken further.
fn take_step(
    entries: &Vec<&LoreEntry>,
    source: &Source,
    evaluation: &mut Evaluation,
    step: usize,
) -> (r: Result<bool, LoreError>)
    requires
        source.replies.wf(),
        old(evaluation).accounted(source@.tokens),
        old(evaluation).result.budget_tokens == budget(source@.settings),
    ensures
        match (r, stepped(entries@, source@, old(evaluation)@, step as int)) {
            (Ok(further), StepEnd::Over(progress)) => !further && final(evaluation)@ == progress,
            (Ok(further), StepEnd::Further(progress)) => {
                &&& further
                &&& final(evaluation)@ == progress
                &&& final(evaluation).accounted(source@.tokens)
            },
            (Err(e), StepEnd::Fault(f)) => is_fault(e, f),
            _ => false,
        },
        final(evaluation).result.budget_tokens == old(evaluation).result.budget_tokens || r is Err,
{
    let mut candidates = match scan(entries, source, evaluation, step) {
        Ok(candidates) => candidates,
        Err(e) => return Err(e),
    };
    let mut random: u64 = evaluation.random;
    choose_groups(
        entries,
        &mut candidates,
        &mut evaluation.result.decisions,
        source.settings.use_group_scoring,
        &mut random,
    );
    evaluation.random = random;
    proof {
        assert(candidate_views(candidates@).len() == candidates@.len());
    }
    if candidates.len() == 0 {
        return Ok(false);
    }
    match try_all(entries, source, evaluation, candidates) {
        Ok(brought) => {
            proof {
                assert(views(brought@).len() == brought@.len());
            }
            if !source.settings.recursive || brought.len() == 0 || evaluation.result.overflowed {
                return Ok(false);
            }
            append_texts(&mut evaluation.recursion, brought);
            Ok(true)
        },
        Err(e) => Err(e),
    }
}

fn evaluate_with(
    entries: &Vec<LoreEntry>,
    messages: &Vec<String>,
    settings: &LoreSettings,
    replies: &LoreReplies,
    in_process: bool,
    transformed: bool,
) -> (r: Result<LoreResult, LoreError>)
    requires
        replies.wf(),
    ensures
        is_evaluation(
            r,
            *settings,
            evaluated(
                entries@,
                scene_of(messages@, *settings, *replies, in_process, transformed),
            ),
        ),
{
    let source = Source { messages, settings, replies, in_process, transformed };
    let ghost scene = scene_of(messages@, *settings, *replies, in_process, transformed);
    let sorted = sort_entries(entries);
    let budget_tokens: usize = if settings.budget_tokens >= 1 {
        settings.budget_tokens
    } else {
        1
    };
    let mut result = LoreResult::default();
    result.budget_tokens = budget_tokens;
    let mut evaluation = Evaluation {
        result,
        recursion: Vec::new(),
        random: settings.rng_seed,
        matched: 0,
        drawn: 0,
        rendered: 0,
    };
    let limit: usize = if settings.max_recursion_steps >= 1 {
        settings.max_recursion_steps
    } else {
        1
    };
    proof {
        assert(views(evaluation.recursion@) =~= Seq::<Seq<char>>::empty());
        assert(decision_views(evaluation.result.decisions@) =~= Seq::<DecisionView>::empty());
        assert(activated_views(evaluation.result.activated@) =~= Seq::<ActivatedView>::empty());
    }
    let mut step: usize = 0;
    while step < limit
        invariant
            step <= limit,
            limit == step_limit(scene.settings),
            source@ == scene,
            source.replies.wf(),
            scene.settings == *settings,
            sorted@ == in_order(entries@),
            evaluation.accounted(scene.tokens),
            evaluation.result.budget_tokens == budget(scene.settings),
            scene == scene_of(messages@, *settings, *replies, in_process, transformed),
            evaluated(entries@, scene) == evaluated_from(
                sorted@,
                scene,
                evaluation@,
                step as int,
            ),
        decreases limit - step,
    {
        match take_step(&sorted, &source, &mut evaluation, step) {
            Ok(true) => {},
            Ok(false) => return Ok(evaluation.result),
            Err(e) => return Err(e),
        }
        step = step + 1;
    }
    Ok(evaluation.result)
}

/// Decides which lore entries become active.
#[derive(Debug)]
pub struct LoreEngine {
    pub tokenizer: TokenizerId,
    pub regex: EcmaRegexWorker,
}

impl LoreEngine {
    /// An engine with the matcher of this program, where there is one.
    pub fn new(tokenizer: TokenizerId, current: Result<EcmaRegexWorker, EcmaRegexError>) -> (r:
        Result<Self, LoreError>)
        ensures
            r == match current {
                Ok(regex) => Ok::<LoreEngine, LoreError>(LoreEngine { tokenizer, regex }),
                Err(e) => Err(LoreError::Regex(e)),
            },
    {
        match current {
            Ok(regex) => Ok(LoreEngine { tokenizer, regex }),
            Err(e) => Err(LoreError::Regex(e)),
        }
    }

    /// An engine with a matcher.
    pub fn with_worker(tokenizer: TokenizerId, regex: EcmaRegexWorker) -> (engine: Self)
        ensures
            engine == (LoreEngine { tokenizer, regex }),
    {
        LoreEngine { tokenizer, regex }
    }

    /// Evaluates entries. Regular expressions are matched by the caller.
    pub fn evaluate(
        &self,
        entries: &Vec<LoreEntry>,
        messages_newest_first: &Vec<String>,
        settings: &LoreSettings,
        replies: &LoreReplies,
    ) -> (r: Result<LoreResult, LoreError>)
        requires
            replies.wf(),
        ensures
            is_evaluation(
                r,
                *settings,
                evaluated(
                    entries@,
                    scene_of(messages_newest_first@, *settings, *replies, false, false),
                ),
            ),
    {
        evaluate_with(entries, messages_newest_first, settings, replies, false, false)
    }

    /// Evaluates entries whose content the caller rewrites. Regular expressions
    /// are matched by the caller too.
    pub fn evaluate_transformed(
        &self,
        entries: &Vec<LoreEntry>,
        messages_newest_first: &Vec<String>,
        settings: &LoreSettings,
        replies: &LoreReplies,
    ) -> (r: Result<LoreResult, LoreError>)
        requires
            replies.wf(),
        ensures
            is_evaluation(
                r,
                *settings,
                evaluated(
                    entries@,
                    scene_of(messages_newest_first@, *settings, *replies, false, true),
                ),
            ),
    {
        evaluate_with(entries, messages_newest_first, settings, replies, false, true)
    }

    /// Evaluates entries and matches regular expressions itself.
    pub fn evaluate_in_process(
        &self,
        entries: &Vec<LoreEntry>,
        messages_newest_first: &Vec<String>,
        settings: &LoreSettings,
        replies: &LoreReplies,
    ) -> (r: Result<LoreResult, LoreError>)
        requires
            replies.wf(),
        ensures
            is_evaluation(
                r,
                *settings,
                evaluated(
                    entries@,
                    scene_of(messages_newest_first@, *settings, *replies, true, false),
                ),
            ),
    {
        evaluate_with(entries, messages_newest_first, settings, replies, true, false)
    }
}

} // verus!
