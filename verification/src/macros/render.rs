//! Text with its macros resolved.
use vstd::prelude::*;

use crate::assoc;
use crate::macros::evaluate::{
    applied, apply_macro, argument, condition_holds, Evaluated, Fault, fault_view, Machine,
    machine_of, MacroContext, MacroError, MacroWarning, resolve_condition,
};
use crate::macros::replies::{Question, QuestionView, Replies};
use crate::macros::syntax::{
    balanced_end, Close, copy_range, find_close, find_end, find_open, FoundClose,
    lemma_matching_close, lemma_next_open, lemma_tag_end, lemma_tag_lengths, matching_close,
    next_open, parsed_tag, ParsedTag, same_name, tag_view, TagView,
};
use crate::state::StateTransaction;
use crate::text::{
    from_range, is_white, lemma_views_push, lowercase, lowercase_of, push_range, replace_all,
    replaced, same, same_ignoring_case, to_chars, trim, trim_back, trimmed, views,
};

verus! {

/// One macro that was evaluated.
#[derive(Clone, Debug, Eq, PartialEq)]
pub struct MacroEvaluation {
    pub name: String,
    pub arguments: Vec<String>,
    pub output: String,
}

/// A rendered text, with the macros that were evaluated on the way and notes
/// on those that could not be resolved.
#[derive(Clone, Debug, Eq, PartialEq)]
pub struct MacroRender {
    pub text: String,
    pub evaluations: Vec<MacroEvaluation>,
    pub warnings: Vec<MacroWarning>,
}

/// Renders texts. Chance is the same for the same seed.
#[derive(Clone, Copy, Debug, Eq, PartialEq, Structural)]
pub struct MacroEngine {
    pub random: u64,
}

/// The abstract value of a [`MacroEvaluation`].
pub struct EvaluationView {
    pub name: Seq<char>,
    pub arguments: Seq<Seq<char>>,
    pub output: Seq<char>,
}

/// The abstract values of some evaluations.
pub open spec fn evaluations_view(evaluations: Seq<MacroEvaluation>) -> Seq<EvaluationView> {
    Seq::new(
        evaluations.len(),
        |i: int|
            EvaluationView {
                name: evaluations[i].name@,
                arguments: views(evaluations[i].arguments@),
                output: evaluations[i].output@,
            },
    )
}

/// How far rendering has come: what macros have changed, and which were
/// evaluated.
pub struct Run {
    pub machine: Machine,
    pub evaluations: Seq<EvaluationView>,
}

impl Run {
    /// With one evaluation more.
    pub open spec fn recorded(
        self,
        machine: Machine,
        name: Seq<char>,
        arguments: Seq<Seq<char>>,
        output: Seq<char>,
    ) -> Run {
        Run {
            machine,
            evaluations: self.evaluations.push(EvaluationView { name, arguments, output }),
        }
    }
}

/// What comes of rendering a text.
pub enum Rendered {
    Text(Seq<char>, Run),
    Fault(Fault, Machine),
}

/// What comes of rendering several texts.
pub enum RenderedAll {
    Texts(Seq<Seq<char>>, Run),
    Fault(Fault, Machine),
}

/// What a text is rendered with.
pub struct Surroundings {
    pub context: MacroContext,
    pub replies: Replies,
}

/// What the caller makes of a macro's output.
pub open spec fn transform_known(replies: Replies, text: Seq<char>) -> Option<Seq<char>> {
    match replies.transforms {
        None => Some(text),
        Some(table) => match assoc::lookup(table@, text) {
            Some(result) => Some(result@),
            None => None,
        },
    }
}

/// The body of a macro as its argument: without white space at either end, and
/// with plain line ends.
pub open spec fn scoped(content: Seq<char>) -> Seq<char> {
    replaced(trimmed(content), "\r\n"@, "\n"@)
}

/// What comes of rendering `input` from `cursor` on, where `output` is what
/// came of the text in front of it. A tag without end is left as it is, and so
/// is a closing tag that closes nothing.
pub open spec fn render_from(
    input: Seq<char>,
    cursor: int,
    output: Seq<char>,
    around: Surroundings,
    run: Run,
) -> Rendered
    decreases input.len(), input.len() - cursor + 1, 0nat,
{
    if cursor < 0 || cursor > input.len() {
        Rendered::Text(output, run)
    } else {
        proof {
            lemma_next_open(input, cursor);
        }
        let start = next_open(input, cursor);
        if start >= input.len() {
            Rendered::Text(output + input.skip(cursor), run)
        } else {
            proof {
                lemma_tag_end(input, start);
            }
            let before = output + input.subrange(cursor, start);
            match balanced_end(input, start, 0) {
                None => Rendered::Text(before + input.skip(start), run),
                Some(after) => match parsed_tag(input.subrange(start + 2, after - 2)) {
                    None => Rendered::Fault(Fault::EmptyTag, run.machine),
                    Some(tag) => if tag.closing {
                        render_from(
                            input,
                            after,
                            before + input.subrange(start, after),
                            around,
                            run,
                        )
                    } else {
                        proof {
                            lemma_matching_close(input, after, tag.name, 0, None);
                        }
                        let close = matching_close(input, after, tag.name, 0, None);
                        match render_tag(input, start, after, tag, close, around, run) {
                            Rendered::Fault(f, m) => Rendered::Fault(f, m),
                            Rendered::Text(text, done) => render_from(
                                input,
                                close_end(close, after),
                                before + text,
                                around,
                                done,
                            ),
                        }
                    },
                },
            }
        }
    }
}

/// Where the text behind a tag goes on: behind its closing tag where it has
/// one.
pub open spec fn close_end(close: Close, after: int) -> int {
    match close {
        Close::At { end, .. } => end,
        _ => after,
    }
}

/// What comes of a tag of `input` that stands at `start..after` and whose body
/// ends at `close`. Of an `if` with a body only the part that its condition
/// picks is rendered. The arguments and the body of any other macro are
/// rendered before the macro is evaluated; what it comes to is not rendered
/// again.
pub open spec fn render_tag(
    input: Seq<char>,
    start: int,
    after: int,
    tag: TagView,
    close: Close,
    around: Surroundings,
    run: Run,
) -> Rendered
    decreases input.len(), 0int, tag.arguments.len() + 4,
{
    match close {
        Close::EmptyTag => Rendered::Fault(Fault::EmptyTag, run.machine),
        Close::Missing => render_macro(
            input.len(),
            tag,
            None,
            input.subrange(start, after),
            around,
            run,
        ),
        Close::At { start: close_start, end, otherwise } => if same_name(tag.name, "if"@) {
            match otherwise {
                Some((from, to)) => render_condition(
                    input.len(),
                    tag,
                    input.subrange(after, from),
                    input.subrange(to, close_start),
                    around,
                    run,
                ),
                None => render_condition(
                    input.len(),
                    tag,
                    input.subrange(after, close_start),
                    Seq::empty(),
                    around,
                    run,
                ),
            }
        } else {
            render_macro(
                input.len(),
                tag,
                Some(input.subrange(after, close_start)),
                input.subrange(start, end),
                around,
                run,
            )
        },
    }
}

/// What comes of an `if` in an input of `limit` characters: its condition is
/// rendered, and then one of its parts.
pub open spec fn render_condition(
    limit: nat,
    tag: TagView,
    kept: Seq<char>,
    dropped: Seq<char>,
    around: Surroundings,
    run: Run,
) -> Rendered
    decreases limit, 0int, tag.arguments.len() + 3,
{
    let test = argument(tag.arguments, 0);
    if test.len() >= limit || kept.len() >= limit || dropped.len() >= limit {
        Rendered::Text(Seq::empty(), run)
    } else {
        match render_from(test, 0, Seq::empty(), around, run) {
            Rendered::Fault(f, m) => Rendered::Fault(f, m),
            Rendered::Text(condition, tested) => match render_from(
                if condition_holds(condition, around.context, tested.machine.variables) {
                    kept
                } else {
                    dropped
                },
                0,
                Seq::empty(),
                around,
                tested,
            ) {
                Rendered::Fault(f, m) => Rendered::Fault(f, m),
                Rendered::Text(text, done) => Rendered::Text(
                    text,
                    done.recorded(done.machine, tag.name, seq![condition], text),
                ),
            },
        }
    }
}

/// What comes of a macro in an input of `limit` characters.
pub open spec fn render_macro(
    limit: nat,
    tag: TagView,
    body: Option<Seq<char>>,
    source: Seq<char>,
    around: Surroundings,
    run: Run,
) -> Rendered
    decreases limit, 0int, tag.arguments.len() + 3,
{
    match render_arguments(limit, tag, body, tag.arguments.len(), around, run) {
        RenderedAll::Fault(f, m) => Rendered::Fault(f, m),
        RenderedAll::Texts(arguments, ready) => resolved(
            tag.name,
            arguments,
            source,
            around,
            ready,
        ),
    }
}

/// What comes of rendering the first `count` arguments of a tag in an input of
/// `limit` characters, and behind all of them its body.
pub open spec fn render_arguments(
    limit: nat,
    tag: TagView,
    body: Option<Seq<char>>,
    count: nat,
    around: Surroundings,
    run: Run,
) -> RenderedAll
    decreases limit, 0int, count + 1,
{
    let head = render_heads(limit, tag.arguments, count, around, run);
    match (head, body) {
        (RenderedAll::Texts(texts, ready), Some(content)) => if content.len() >= limit {
            head
        } else {
            match render_from(content, 0, Seq::empty(), around, ready) {
                Rendered::Fault(f, m) => RenderedAll::Fault(f, m),
                Rendered::Text(text, done) => RenderedAll::Texts(
                    texts.push(
                        if tag.preserve_whitespace {
                            text
                        } else {
                            scoped(text)
                        },
                    ),
                    done,
                ),
            }
        },
        _ => head,
    }
}

/// What comes of rendering the first `count` of some texts, none of them as
/// long as `limit`.
pub open spec fn render_heads(
    limit: nat,
    texts: Seq<Seq<char>>,
    count: nat,
    around: Surroundings,
    run: Run,
) -> RenderedAll
    decreases limit, 0int, count,
{
    if count == 0 || count > texts.len() {
        RenderedAll::Texts(Seq::empty(), run)
    } else {
        match render_heads(limit, texts, (count - 1) as nat, around, run) {
            RenderedAll::Fault(f, m) => RenderedAll::Fault(f, m),
            RenderedAll::Texts(done, ready) => if texts[count - 1].len() >= limit {
                RenderedAll::Texts(done, ready)
            } else {
                match render_from(texts[count - 1], 0, Seq::empty(), around, ready) {
                    Rendered::Fault(f, m) => RenderedAll::Fault(f, m),
                    Rendered::Text(text, after) => RenderedAll::Texts(done.push(text), after),
                }
            },
        }
    }
}

/// What comes of a macro whose arguments have been rendered.
pub open spec fn resolved(
    name: Seq<char>,
    arguments: Seq<Seq<char>>,
    source: Seq<char>,
    around: Surroundings,
    run: Run,
) -> Rendered {
    match applied(
        lowercase_of(name),
        name,
        arguments,
        source,
        around.context,
        around.replies,
        run.machine,
    ) {
        Evaluated::Fault(f, m) => Rendered::Fault(f, m),
        Evaluated::Output(text, machine) => match transform_known(around.replies, text) {
            None => Rendered::Fault(
                Fault::Unresolved(QuestionView::Transform { text }),
                machine,
            ),
            Some(result) => Rendered::Text(result, run.recorded(machine, name, arguments, result)),
        },
    }
}

/// What comes of rendering a text.
pub open spec fn rendered(input: Seq<char>, around: Surroundings, run: Run) -> Rendered {
    render_from(input, 0, Seq::empty(), around, run)
}

/// The text ends with a `trim` macro, white space aside.
pub open spec fn ends_with_trim(input: Seq<char>) -> bool {
    let text = trim_back(input);
    text.len() >= 8 && text.skip(text.len() - 8) == "{{trim}}"@
}

/// The text that is handed out: without white space at either end where the
/// input ends with a `trim` macro.
pub open spec fn handed_out(input: Seq<char>, text: Seq<char>) -> Seq<char> {
    if ends_with_trim(input) {
        trimmed(text)
    } else {
        text
    }
}

/// A rendered text, or the error of a fault, with the state of chance and the
/// variables as they are afterwards.
pub open spec fn is_outcome(
    rendered: Rendered,
    input: Seq<char>,
    result: Result<MacroRender, MacroError>,
    random: u64,
    state: StateTransaction,
) -> bool {
    match (rendered, result) {
        (Rendered::Text(text, run), Ok(render)) => {
            &&& render.text@ == handed_out(input, text)
            &&& run == run_of(random, state, render.evaluations@, render.warnings@)
        },
        (Rendered::Fault(fault, machine), Err(e)) => {
            &&& fault == fault_view(e)
            &&& machine.random == random
            &&& machine.variables == state@
        },
        _ => false,
    }
}

fn push_evaluation(
    evaluations: &mut Vec<MacroEvaluation>,
    name: String,
    arguments: Vec<String>,
    output: String,
)
    ensures
        evaluations_view(final(evaluations)@) == evaluations_view(old(evaluations)@).push(
            EvaluationView { name: name@, arguments: views(arguments@), output: output@ },
        ),
{
    let ghost before = evaluations@;
    evaluations.push(MacroEvaluation { name, arguments, output });
    proof {
        assert forall|i: int| 0 <= i < before.len() implies evaluations_view(evaluations@)[i]
            == evaluations_view(before)[i] by {
            assert(evaluations@[i] == before[i]);
        }
        assert(evaluations_view(evaluations@) =~= evaluations_view(before).push(
            EvaluationView { name: name@, arguments: views(arguments@), output: output@ },
        ));
    }
}

/// How far rendering has come.
pub open spec fn run_of(
    random: u64,
    state: StateTransaction,
    evaluations: Seq<MacroEvaluation>,
    warnings: Seq<MacroWarning>,
) -> Run {
    Run {
        machine: machine_of(random, state, warnings),
        evaluations: evaluations_view(evaluations),
    }
}

/// An outcome is what a text comes to, with what has changed.
pub open spec fn renders_to(
    rendered: Rendered,
    result: Result<String, MacroError>,
    run: Run,
) -> bool {
    match result {
        Ok(text) => rendered == Rendered::Text(text@, run),
        Err(e) => rendered == Rendered::Fault(fault_view(e), run.machine),
    }
}

/// An outcome is what some texts come to, with what has changed.
pub open spec fn all_render_to(
    rendered: RenderedAll,
    result: Result<Vec<String>, MacroError>,
    run: Run,
) -> bool {
    match result {
        Ok(texts) => rendered == RenderedAll::Texts(views(texts@), run),
        Err(e) => rendered == RenderedAll::Fault(fault_view(e), run.machine),
    }
}

fn scope_text(content: &str) -> (r: String)
    ensures
        r@ == scoped(content@),
{
    let inner = trim(content);
    proof {
        reveal_strlit("\r\n");
    }
    replace_all(inner.as_str(), "\r\n", "\n")
}

/// The surroundings that a context and replies make.
pub open spec fn surroundings(context: MacroContext, replies: Replies) -> Surroundings {
    Surroundings { context, replies }
}

impl MacroEngine {
    /// An engine whose chance starts from a seed.
    pub fn new(seed: u64) -> (engine: Self)
        ensures
            engine.random == seed,
    {
        MacroEngine { random: seed }
    }

    fn resolve(
        &mut self,
        name: &str,
        arguments: Vec<String>,
        source: &str,
        context: &MacroContext,
        replies: &Replies,
        state: &mut StateTransaction,
        evaluations: &mut Vec<MacroEvaluation>,
        warnings: &mut Vec<MacroWarning>,
    ) -> (r: Result<String, MacroError>)
        requires
            old(state).wf(),
        ensures
            final(state).wf(),
            renders_to(
                resolved(
                    name@,
                    views(arguments@),
                    source@,
                    surroundings(*context, *replies),
                    run_of(old(self).random, *old(state), old(evaluations)@, old(warnings)@),
                ),
                r,
                run_of(final(self).random, *final(state), final(evaluations)@, final(warnings)@),
            ),
    {
        let lower = lowercase(name);
        let output = match apply_macro(
            lower.as_str(),
            name,
            &arguments,
            source,
            context,
            replies,
            &mut self.random,
            state,
            warnings,
        ) {
            Ok(output) => output,
            Err(e) => {
                return Err(e);
            },
        };
        let result = match &replies.transforms {
            None => output,
            Some(table) => match assoc::find(table, output.as_str()) {
                Some(result) => result.clone(),
                None => {
                    return Err(MacroError::Unresolved(Question::Transform { text: output }));
                },
            },
        };
        push_evaluation(evaluations, name.to_owned(), arguments, result.clone());
        Ok(result)
    }

    fn render_inputs(
        &mut self,
        Ghost(limit): Ghost<nat>,
        texts: &Vec<String>,
        context: &MacroContext,
        replies: &Replies,
        state: &mut StateTransaction,
        evaluations: &mut Vec<MacroEvaluation>,
        warnings: &mut Vec<MacroWarning>,
    ) -> (r: Result<Vec<String>, MacroError>)
        requires
            old(state).wf(),
            forall|i: int| 0 <= i < texts@.len() ==> (#[trigger] texts@[i])@.len() < limit,
        ensures
            final(state).wf(),
            all_render_to(
                render_heads(
                    limit,
                    views(texts@),
                    texts@.len(),
                    surroundings(*context, *replies),
                    run_of(old(self).random, *old(state), old(evaluations)@, old(warnings)@),
                ),
                r,
                run_of(final(self).random, *final(state), final(evaluations)@, final(warnings)@),
            ),
        decreases limit, 0nat, 0nat,
    {
        let ghost around = surroundings(*context, *replies);
        let ghost start = run_of(self.random, *state, evaluations@, warnings@);
        let ghost all = views(texts@);
        let mut done: Vec<String> = Vec::new();
        let mut i: usize = 0;
        proof {
            assert(views(done@) =~= Seq::<Seq<char>>::empty());
        }
        while i < texts.len()
            invariant
                i <= texts@.len(),
                state.wf(),
                around == surroundings(*context, *replies),
                start == run_of(
                    old(self).random,
                    *old(state),
                    old(evaluations)@,
                    old(warnings)@,
                ),
                all == views(texts@),
                forall|j: int| 0 <= j < texts@.len() ==> (#[trigger] texts@[j])@.len() < limit,
                render_heads(limit, all, i as nat, around, start) == RenderedAll::Texts(
                    views(done@),
                    run_of(self.random, *state, evaluations@, warnings@),
                ),
            decreases texts@.len() - i,
        {
            let input = to_chars(texts[i].as_str());
            proof {
                assert(all[i as int] == input@);
                assert(texts@[i as int]@.len() < limit);
            }
            match self.render_text(&input, context, replies, state, evaluations, warnings) {
                Ok(text) => {
                    proof {
                        lemma_views_push(done@, text);
                    }
                    done.push(text);
                    i = i + 1;
                },
                Err(e) => {
                    proof {
                        lemma_heads_fault(limit, all, (i + 1) as nat, around, start);
                    }
                    return Err(e);
                },
            }
        }
        Ok(done)
    }

    fn render_call(
        &mut self,
        input: &Vec<char>,
        start: usize,
        after: usize,
        tag: &ParsedTag,
        close: &Option<FoundClose>,
        context: &MacroContext,
        replies: &Replies,
        state: &mut StateTransaction,
        evaluations: &mut Vec<MacroEvaluation>,
        warnings: &mut Vec<MacroWarning>,
    ) -> (r: Result<String, MacroError>)
        requires
            old(state).wf(),
            start < after <= input@.len(),
            forall|i: int|
                0 <= i < tag.arguments@.len() ==> (#[trigger] tag.arguments@[i])@.len()
                    < input@.len(),
            match *close {
                Some(found) => after <= found.start < found.end <= input@.len(),
                None => true,
            },
        ensures
            final(state).wf(),
            renders_to(
                render_macro(
                    input@.len(),
                    tag_view(*tag),
                    match *close {
                        Some(found) => Some(input@.subrange(after as int, found.start as int)),
                        None => None,
                    },
                    match *close {
                        Some(found) => input@.subrange(start as int, found.end as int),
                        None => input@.subrange(start as int, after as int),
                    },
                    surroundings(*context, *replies),
                    run_of(old(self).random, *old(state), old(evaluations)@, old(warnings)@),
                ),
                r,
                run_of(final(self).random, *final(state), final(evaluations)@, final(warnings)@),
            ),
        decreases input@.len(), 0nat, 1nat,
    {
        let mut arguments = match self.render_inputs(
            Ghost(input@.len()),
            &tag.arguments,
            context,
            replies,
            state,
            evaluations,
            warnings,
        ) {
            Ok(arguments) => arguments,
            Err(e) => {
                return Err(e);
            },
        };
        let end: usize = match close {
            Some(found) => {
                let body = copy_range(input, after, found.start);
                let text = match self.render_text(
                    &body,
                    context,
                    replies,
                    state,
                    evaluations,
                    warnings,
                ) {
                    Ok(text) => text,
                    Err(e) => {
                        return Err(e);
                    },
                };
                let last = if tag.preserve_whitespace {
                    text
                } else {
                    scope_text(text.as_str())
                };
                proof {
                    lemma_views_push(arguments@, last);
                }
                arguments.push(last);
                found.end
            },
            None => after,
        };
        let source = from_range(input, start, end);
        self.resolve(
            tag.name.as_str(),
            arguments,
            source.as_str(),
            context,
            replies,
            state,
            evaluations,
            warnings,
        )
    }

    fn render_branch(
        &mut self,
        input: &Vec<char>,
        after: usize,
        tag: &ParsedTag,
        found: &FoundClose,
        context: &MacroContext,
        replies: &Replies,
        state: &mut StateTransaction,
        evaluations: &mut Vec<MacroEvaluation>,
        warnings: &mut Vec<MacroWarning>,
    ) -> (r: Result<String, MacroError>)
        requires
            old(state).wf(),
            0 < after <= found.start < input@.len(),
            match found.otherwise {
                Some((from, to)) => after <= from < to <= found.start,
                None => true,
            },
            forall|i: int|
                0 <= i < tag.arguments@.len() ==> (#[trigger] tag.arguments@[i])@.len()
                    < input@.len(),
        ensures
            final(state).wf(),
            renders_to(
                render_condition(
                    input@.len(),
                    tag_view(*tag),
                    match found.otherwise {
                        Some((from, to)) => input@.subrange(after as int, from as int),
                        None => input@.subrange(after as int, found.start as int),
                    },
                    match found.otherwise {
                        Some((from, to)) => input@.subrange(to as int, found.start as int),
                        None => Seq::empty(),
                    },
                    surroundings(*context, *replies),
                    run_of(old(self).random, *old(state), old(evaluations)@, old(warnings)@),
                ),
                r,
                run_of(final(self).random, *final(state), final(evaluations)@, final(warnings)@),
            ),
        decreases input@.len(), 0nat, 1nat,
    {
        let test = if tag.arguments.len() > 0 {
            to_chars(tag.arguments[0].as_str())
        } else {
            Vec::new()
        };
        proof {
            assert(test@ =~= argument(views(tag.arguments@), 0));
        }
        let condition = match self.render_text(
            &test,
            context,
            replies,
            state,
            evaluations,
            warnings,
        ) {
            Ok(condition) => condition,
            Err(e) => {
                return Err(e);
            },
        };
        let holds = resolve_condition(condition.as_str(), context, state);
        let (from, to): (usize, usize) = match found.otherwise {
            Some((middle_start, middle_end)) => if holds {
                (after, middle_start)
            } else {
                (middle_end, found.start)
            },
            None => if holds {
                (after, found.start)
            } else {
                (after, after)
            },
        };
        let chosen_text = copy_range(input, from, to);
        proof {
            assert(input@.subrange(after as int, after as int) =~= Seq::empty());
        }
        let text = match self.render_text(
            &chosen_text,
            context,
            replies,
            state,
            evaluations,
            warnings,
        ) {
            Ok(text) => text,
            Err(e) => {
                return Err(e);
            },
        };
        let conditions: Vec<String> = vec![condition];
        proof {
            assert(views(conditions@) =~= seq![condition@]);
        }
        push_evaluation(evaluations, tag.name.clone(), conditions, text.clone());
        Ok(text)
    }

    fn render_found(
        &mut self,
        input: &Vec<char>,
        start: usize,
        after: usize,
        tag: &ParsedTag,
        context: &MacroContext,
        replies: &Replies,
        state: &mut StateTransaction,
        evaluations: &mut Vec<MacroEvaluation>,
        warnings: &mut Vec<MacroWarning>,
    ) -> (r: Result<(String, usize), MacroError>)
        requires
            old(state).wf(),
            start + 4 <= after <= input@.len(),
            parsed_tag(input@.subrange(start + 2, after - 2)) == Some(tag_view(*tag)),
        ensures
            final(state).wf(),
            ({
                let close = matching_close(input@, after as int, tag.name@, 0, None);
                let came = render_tag(
                    input@,
                    start as int,
                    after as int,
                    tag_view(*tag),
                    close,
                    surroundings(*context, *replies),
                    run_of(old(self).random, *old(state), old(evaluations)@, old(warnings)@),
                );
                let run = run_of(
                    final(self).random,
                    *final(state),
                    final(evaluations)@,
                    final(warnings)@,
                );
                match r {
                    Ok((text, end)) => came == Rendered::Text(text@, run) && end == close_end(
                        close,
                        after as int,
                    ) && after <= end <= input@.len(),
                    Err(e) => came == Rendered::Fault(fault_view(e), run.machine),
                }
            }),
        decreases input@.len(), 0nat, 2nat,
    {
        proof {
            lemma_matching_close(input@, after as int, tag.name@, 0, None);
            lemma_tag_lengths(input@.subrange(start + 2, after - 2));
            assert forall|j: int| 0 <= j < tag.arguments@.len() implies (
            #[trigger] tag.arguments@[j])@.len() < input@.len() by {
                let inner = input@.subrange(start + 2, after - 2);
                assert((parsed_tag(inner)->0).arguments[j].len() <= inner.len());
                assert(tag_view(*tag).arguments[j] == tag.arguments@[j]@);
            }
        }
        let close = match find_close(input, after, tag.name.as_str()) {
            Ok(close) => close,
            Err(_) => {
                return Err(MacroError::EmptyTag);
            },
        };
        let (branch, end): (bool, usize) = match &close {
            Some(found) => (same_ignoring_case(tag.name.as_str(), "if"), found.end),
            None => (false, after),
        };
        let result = match (branch, &close) {
            (true, Some(found)) => self.render_branch(
                input,
                after,
                tag,
                found,
                context,
                replies,
                state,
                evaluations,
                warnings,
            ),
            _ => self.render_call(
                input,
                start,
                after,
                tag,
                &close,
                context,
                replies,
                state,
                evaluations,
                warnings,
            ),
        };
        match result {
            Ok(text) => Ok((text, end)),
            Err(e) => Err(e),
        }
    }

    fn render_text(
        &mut self,
        input: &Vec<char>,
        context: &MacroContext,
        replies: &Replies,
        state: &mut StateTransaction,
        evaluations: &mut Vec<MacroEvaluation>,
        warnings: &mut Vec<MacroWarning>,
    ) -> (r: Result<String, MacroError>)
        requires
            old(state).wf(),
        ensures
            final(state).wf(),
            renders_to(
                rendered(
                    input@,
                    surroundings(*context, *replies),
                    run_of(old(self).random, *old(state), old(evaluations)@, old(warnings)@),
                ),
                r,
                run_of(final(self).random, *final(state), final(evaluations)@, final(warnings)@),
            ),
        decreases input@.len(), 1nat, 0nat,
    {
        let ghost around = surroundings(*context, *replies);
        let ghost begin = run_of(self.random, *state, evaluations@, warnings@);
        let ghost whole = rendered(input@, around, begin);
        let mut output = String::new();
        let mut cursor: usize = 0;
        proof {
            assert(output@ =~= Seq::<char>::empty());
        }
        loop
            invariant
                cursor <= input@.len(),
                state.wf(),
                around == surroundings(*context, *replies),
                whole == rendered(
                    input@,
                    around,
                    run_of(old(self).random, *old(state), old(evaluations)@, old(warnings)@),
                ),
                whole == render_from(
                    input@,
                    cursor as int,
                    output@,
                    around,
                    run_of(self.random, *state, evaluations@, warnings@),
                ),
            decreases input@.len() - cursor,
        {
            let ghost now = run_of(self.random, *state, evaluations@, warnings@);
            let ghost sofar = output@;
            let start: usize = find_open(input, cursor);
            if start >= input.len() {
                push_range(&mut output, input, cursor, input.len());
                proof {
                    assert(input@.subrange(cursor as int, input@.len() as int) =~= input@.skip(
                        cursor as int,
                    ));
                }
                return Ok(output);
            }
            push_range(&mut output, input, cursor, start);
            let after: usize = match find_end(input, start) {
                Some(after) => after,
                None => {
                    push_range(&mut output, input, start, input.len());
                    proof {
                        assert(input@.subrange(start as int, input@.len() as int) =~= input@.skip(
                            start as int,
                        ));
                    }
                    return Ok(output);
                },
            };
            let tag = match ParsedTag::parse(input, start + 2, after - 2) {
                Some(tag) => tag,
                None => {
                    return Err(MacroError::EmptyTag);
                },
            };
            if tag.closing {
                push_range(&mut output, input, start, after);
                cursor = after;
                continue;
            }
            proof {
                lemma_tag_step(
                    input@,
                    cursor as int,
                    sofar,
                    around,
                    now,
                    start as int,
                    after as int,
                    tag_view(tag),
                );
            }
            match self.render_found(
                input,
                start,
                after,
                &tag,
                context,
                replies,
                state,
                evaluations,
                warnings,
            ) {
                Ok((text, end)) => {
                    output.push_str(text.as_str());
                    cursor = end;
                },
                Err(e) => {
                    return Err(e);
                },
            }
        }
    }

    /// Renders a text without rewriting what its macros come to. What macros
    /// have changed by the time of a fault stays changed.
    pub fn render(
        &mut self,
        input: &str,
        context: &MacroContext,
        replies: &Replies,
        state: &mut StateTransaction,
    ) -> (r: Result<MacroRender, MacroError>)
        requires
            old(state).wf(),
            replies.transforms is None,
        ensures
            final(state).wf(),
            is_outcome(
                rendered(
                    input@,
                    surroundings(*context, *replies),
                    run_of(old(self).random, *old(state), Seq::empty(), Seq::empty()),
                ),
                input@,
                r,
                final(self).random,
                *final(state),
            ),
    {
        self.render_with_transform(input, context, replies, state)
    }

    /// Renders a text. What macros have changed by the time of a fault stays
    /// changed.
    pub fn render_with_transform(
        &mut self,
        input: &str,
        context: &MacroContext,
        replies: &Replies,
        state: &mut StateTransaction,
    ) -> (r: Result<MacroRender, MacroError>)
        requires
            old(state).wf(),
        ensures
            final(state).wf(),
            is_outcome(
                rendered(
                    input@,
                    surroundings(*context, *replies),
                    run_of(old(self).random, *old(state), Seq::empty(), Seq::empty()),
                ),
                input@,
                r,
                final(self).random,
                *final(state),
            ),
    {
        let mut evaluations: Vec<MacroEvaluation> = Vec::new();
        let mut warnings: Vec<MacroWarning> = Vec::new();
        let chars = to_chars(input);
        proof {
            assert(evaluations@ =~= Seq::<MacroEvaluation>::empty());
            assert(warnings@ =~= Seq::<MacroWarning>::empty());
        }
        let text = match self.render_text(
            &chars,
            context,
            replies,
            state,
            &mut evaluations,
            &mut warnings,
        ) {
            Ok(text) => text,
            Err(e) => {
                return Err(e);
            },
        };
        let text = if check_ends_with_trim(&chars) {
            trim(text.as_str())
        } else {
            text
        };
        Ok(MacroRender { text, evaluations, warnings })
    }
}

fn check_ends_with_trim(chars: &Vec<char>) -> (r: bool)
    ensures
        r == ends_with_trim(chars@),
{
    let mut end: usize = chars.len();
    proof {
        assert(chars@.take(chars@.len() as int) =~= chars@);
    }
    while end > 0 && is_white(chars[end - 1])
        invariant
            end <= chars@.len(),
            trim_back(chars@) == trim_back(chars@.take(end as int)),
        decreases end,
    {
        proof {
            assert(chars@.take(end as int).last() == chars@[end - 1]);
            assert(chars@.take(end as int).drop_last() =~= chars@.take(end - 1));
        }
        end = end - 1;
    }
    proof {
        if end > 0 {
            assert(chars@.take(end as int).last() == chars@[end - 1]);
        }
        assert(trim_back(chars@) == chars@.take(end as int));
    }
    if end < 8 {
        return false;
    }
    let tail = from_range(chars, end - 8, end);
    proof {
        assert(chars@.take(end as int).skip(end - 8) =~= chars@.subrange(end - 8, end as int));
    }
    same(tail.as_str(), "{{trim}}")
}

proof fn lemma_tag_step(
    input: Seq<char>,
    cursor: int,
    output: Seq<char>,
    around: Surroundings,
    run: Run,
    start: int,
    after: int,
    tag: TagView,
)
    requires
        0 <= cursor <= input.len(),
        start == next_open(input, cursor),
        start < input.len(),
        balanced_end(input, start, 0) == Some(after),
        parsed_tag(input.subrange(start + 2, after - 2)) == Some(tag),
        !tag.closing,
    ensures
        ({
            let close = matching_close(input, after, tag.name, 0, None);
            render_from(input, cursor, output, around, run) == match render_tag(
                input,
                start,
                after,
                tag,
                close,
                around,
                run,
            ) {
                Rendered::Fault(f, m) => Rendered::Fault(f, m),
                Rendered::Text(text, done) => render_from(
                    input,
                    close_end(close, after),
                    output + input.subrange(cursor, start) + text,
                    around,
                    done,
                ),
            }
        }),
{
}

proof fn lemma_heads_fault(
    limit: nat,
    texts: Seq<Seq<char>>,
    count: nat,
    around: Surroundings,
    run: Run,
)
    requires
        count <= texts.len(),
        render_heads(limit, texts, count, around, run) is Fault,
    ensures
        render_heads(limit, texts, texts.len(), around, run) == render_heads(
            limit,
            texts,
            count,
            around,
            run,
        ),
    decreases texts.len() - count,
{
    if count < texts.len() {
        lemma_heads_fault(limit, texts, count + 1, around, run);
    }
}

} // verus!
