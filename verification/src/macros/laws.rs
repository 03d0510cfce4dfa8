//! What holds of rendering whatever the text.
use vstd::prelude::*;

use crate::assoc;
use crate::macros::evaluate::{
    argument, condition_holds, is_context_value, is_unsupported, MacroContext,
};
use crate::macros::render::{
    close_end, render_arguments, render_condition, render_from, render_heads, render_tag,
    Rendered, rendered, RenderedAll, resolved, Run, Surroundings,
};
use crate::macros::syntax::{
    balanced_end, Close, lemma_matching_close, lemma_next_open, lemma_tag_end, lemma_tag_lengths,
    matching_close, next_open, opens_with, parsed_tag, same_name, TagView,
};
use crate::text::{begins_with, lowercase_of};

verus! {

/// A macro, by its name in small letters, that stands for something.
pub open spec fn is_known(lower: Seq<char>, context: MacroContext) -> bool {
    ||| begins_with(lower, "//"@)
    ||| opens_with(lower, '.')
    ||| opens_with(lower, '$')
    ||| is_plain_name(lower)
    ||| is_variable_name(lower)
    ||| lower == "random"@
    ||| lower == "pick"@
    ||| lower == "roll"@
    ||| lower == "if"@
    ||| is_unsupported(lower)
    ||| assoc::lookup(context.registered_macros@, lower) is Some
}

/// A macro that makes its text of its first argument or of the context.
pub open spec fn is_plain_name(lower: Seq<char>) -> bool {
    ||| lower == "space"@
    ||| lower == "newline"@
    ||| lower == "noop"@
    ||| lower == "else"@
    ||| lower == "trim"@
    ||| lower == "reverse"@
    ||| is_context_value(lower)
    ||| lower == "hasextension"@
    ||| lower == "outlet"@
}

/// A macro that reads or changes variables.
pub open spec fn is_variable_name(lower: Seq<char>) -> bool {
    ||| lower == "setvar"@
    ||| lower == "setglobalvar"@
    ||| lower == "addvar"@
    ||| lower == "addglobalvar"@
    ||| lower == "incvar"@
    ||| lower == "incglobalvar"@
    ||| lower == "decvar"@
    ||| lower == "decglobalvar"@
    ||| lower == "getvar"@
    ||| lower == "getglobalvar"@
    ||| lower == "hasvar"@
    ||| lower == "hasglobalvar"@
    ||| lower == "deletevar"@
    ||| lower == "deleteglobalvar"@
}

/// From `cursor` on every tag of the text is well written and names no macro
/// that stands for something, and so on inside of its arguments and its body.
pub open spec fn inert(input: Seq<char>, cursor: int, context: MacroContext) -> bool
    decreases input.len(), input.len() - cursor + 1,
{
    if cursor < 0 || cursor > input.len() {
        true
    } else {
        proof {
            lemma_next_open(input, cursor);
        }
        let start = next_open(input, cursor);
        if start >= input.len() {
            true
        } else {
            proof {
                lemma_tag_end(input, start);
            }
            match balanced_end(input, start, 0) {
                None => true,
                Some(after) => match parsed_tag(input.subrange(start + 2, after - 2)) {
                    None => false,
                    Some(tag) => if tag.closing {
                        inert(input, after, context)
                    } else {
                        proof {
                            lemma_matching_close(input, after, tag.name, 0, None);
                        }
                        let close = matching_close(input, after, tag.name, 0, None);
                        &&& !(close is EmptyTag)
                        &&& !same_name(tag.name, "if"@)
                        &&& !is_known(lowercase_of(tag.name), context)
                        &&& forall|i: int|
                            0 <= i < tag.arguments.len() && (#[trigger] tag.arguments[i]).len()
                                < input.len() ==> inert(tag.arguments[i], 0, context)
                        &&& close is At ==> inert(
                            input.subrange(after, close->At_start),
                            0,
                            context,
                        )
                        &&& inert(input, close_end(close, after), context)
                    },
                },
            }
        }
    }
}

/// Between two points of a run nothing changed but that macros were evaluated, and
/// that there is one warning more for each of them.
pub open spec fn only_warned(before: Run, after: Run) -> bool {
    let said = before.machine.warnings.len() as int;
    let done = before.evaluations.len() as int;
    &&& after.machine.variables == before.machine.variables
    &&& after.machine.random == before.machine.random
    &&& before.evaluations.is_prefix_of(after.evaluations)
    &&& before.machine.warnings.is_prefix_of(after.machine.warnings)
    &&& after.machine.warnings.len() - said == after.evaluations.len() - done
    &&& forall|k: int|
        said <= k < after.machine.warnings.len() ==> (#[trigger] after.machine.warnings[k]).0
            == "unknown-macro-preserved"@
}

proof fn lemma_only_warned_on(first: Run, second: Run, third: Run)
    requires
        only_warned(first, second),
        only_warned(second, third),
    ensures
        only_warned(first, third),
{
    assert forall|k: int|
        first.machine.warnings.len() <= k < third.machine.warnings.len() implies (
    #[trigger] third.machine.warnings[k]).0 == "unknown-macro-preserved"@ by {
        if k < second.machine.warnings.len() {
            assert(third.machine.warnings[k] == second.machine.warnings[k]);
        }
    }
}

proof fn lemma_unknown_is_preserved(
    name: Seq<char>,
    arguments: Seq<Seq<char>>,
    source: Seq<char>,
    around: Surroundings,
    run: Run,
)
    requires
        !is_known(lowercase_of(name), around.context),
        around.replies.transforms is None,
    ensures
        resolved(name, arguments, source, around, run) is Text,
        resolved(name, arguments, source, around, run)->Text_0 == source,
        only_warned(run, resolved(name, arguments, source, around, run)->Text_1),
{
}

proof fn lemma_inert_heads(
    limit: nat,
    texts: Seq<Seq<char>>,
    count: nat,
    around: Surroundings,
    run: Run,
)
    requires
        count <= texts.len(),
        around.replies.transforms is None,
        forall|i: int|
            0 <= i < texts.len() ==> (#[trigger] texts[i]).len() < limit && inert(
                texts[i],
                0,
                around.context,
            ),
    ensures
        render_heads(limit, texts, count, around, run) is Texts,
        only_warned(run, render_heads(limit, texts, count, around, run)->Texts_1),
    decreases limit, 0int, count,
{
    if count > 0 {
        lemma_inert_heads(limit, texts, (count - 1) as nat, around, run);
        match render_heads(limit, texts, (count - 1) as nat, around, run) {
            RenderedAll::Texts(done, ready) => {
                let text = texts[count - 1];
                assert(text.len() < limit);
                lemma_inert_renders(text, 0, Seq::empty(), around, ready);
                let end = render_from(text, 0, Seq::empty(), around, ready)->Text_1;
                lemma_only_warned_on(run, ready, end);
            },
            _ => {},
        }
    }
}

proof fn lemma_inert_tag(
    input: Seq<char>,
    start: int,
    after: int,
    tag: TagView,
    close: Close,
    around: Surroundings,
    run: Run,
)
    requires
        around.replies.transforms is None,
        0 <= start,
        start + 4 <= after <= input.len(),
        parsed_tag(input.subrange(start + 2, after - 2)) == Some(tag),
        close == matching_close(input, after, tag.name, 0, None),
        !(close is EmptyTag),
        !same_name(tag.name, "if"@),
        !is_known(lowercase_of(tag.name), around.context),
        forall|i: int|
            0 <= i < tag.arguments.len() && (#[trigger] tag.arguments[i]).len() < input.len()
                ==> inert(tag.arguments[i], 0, around.context),
        close is At ==> inert(input.subrange(after, close->At_start), 0, around.context),
    ensures
        render_tag(input, start, after, tag, close, around, run) is Text,
        render_tag(input, start, after, tag, close, around, run)->Text_0 == input.subrange(
            start,
            close_end(close, after),
        ),
        only_warned(run, render_tag(input, start, after, tag, close, around, run)->Text_1),
    decreases input.len(), 0int, tag.arguments.len() + 4,
{
    let inner = input.subrange(start + 2, after - 2);
    lemma_tag_lengths(inner);
    lemma_matching_close(input, after, tag.name, 0, None);
    assert forall|i: int| 0 <= i < tag.arguments.len() implies (
    #[trigger] tag.arguments[i]).len() < input.len() && inert(
        tag.arguments[i],
        0,
        around.context,
    ) by {
        assert((parsed_tag(inner)->0).arguments[i].len() <= inner.len());
    }
    lemma_inert_heads(input.len(), tag.arguments, tag.arguments.len(), around, run);
    let count = tag.arguments.len();
    match render_heads(input.len(), tag.arguments, count, around, run) {
        RenderedAll::Texts(texts, ready) => {
            let source = input.subrange(start, close_end(close, after));
            match close {
                Close::At { start: close_start, end, otherwise } => {
                    let body = input.subrange(after, close_start);
                    assert(body.len() < input.len());
                    lemma_inert_renders(body, 0, Seq::empty(), around, ready);
                    lemma_only_warned_on(
                        run,
                        ready,
                        render_from(body, 0, Seq::empty(), around, ready)->Text_1,
                    );
                    let all = render_arguments(
                        input.len(),
                        tag,
                        Some(body),
                        count,
                        around,
                        run,
                    );
                    assert(all is Texts);
                    lemma_unknown_is_preserved(
                        tag.name,
                        all->Texts_0,
                        source,
                        around,
                        all->Texts_1,
                    );
                    lemma_only_warned_on(
                        run,
                        all->Texts_1,
                        resolved(tag.name, all->Texts_0, source, around, all->Texts_1)->Text_1,
                    );
                },
                _ => {
                    let all = render_arguments(input.len(), tag, None, count, around, run);
                    assert(all is Texts);
                    lemma_unknown_is_preserved(
                        tag.name,
                        all->Texts_0,
                        source,
                        around,
                        all->Texts_1,
                    );
                    lemma_only_warned_on(
                        run,
                        all->Texts_1,
                        resolved(tag.name, all->Texts_0, source, around, all->Texts_1)->Text_1,
                    );
                },
            }
        },
        _ => {},
    }
}

#[verifier::spinoff_prover]
#[verifier::rlimit(60)]
proof fn lemma_inert_renders(
    input: Seq<char>,
    cursor: int,
    output: Seq<char>,
    around: Surroundings,
    run: Run,
)
    requires
        around.replies.transforms is None,
        0 <= cursor <= input.len(),
        inert(input, cursor, around.context),
    ensures
        render_from(input, cursor, output, around, run) is Text,
        render_from(input, cursor, output, around, run)->Text_0 == output + input.skip(cursor),
        only_warned(run, render_from(input, cursor, output, around, run)->Text_1),
    decreases input.len(), input.len() - cursor + 1, 0nat,
{
    lemma_next_open(input, cursor);
    let start = next_open(input, cursor);
    if start < input.len() {
        lemma_tag_end(input, start);
        let before = output + input.subrange(cursor, start);
        match balanced_end(input, start, 0) {
            None => {
                assert(before + input.skip(start) =~= output + input.skip(cursor));
            },
            Some(after) => match parsed_tag(input.subrange(start + 2, after - 2)) {
                None => {},
                Some(tag) => if tag.closing {
                    let next = before + input.subrange(start, after);
                    lemma_inert_renders(input, after, next, around, run);
                    assert(next + input.skip(after) =~= output + input.skip(cursor));
                } else {
                    lemma_matching_close(input, after, tag.name, 0, None);
                    let close = matching_close(input, after, tag.name, 0, None);
                    lemma_inert_tag(input, start, after, tag, close, around, run);
                    let came = render_tag(input, start, after, tag, close, around, run);
                    let next = before + came->Text_0;
                    let end = close_end(close, after);
                    lemma_inert_renders(input, end, next, around, came->Text_1);
                    lemma_only_warned_on(
                        run,
                        came->Text_1,
                        render_from(input, end, next, around, came->Text_1)->Text_1,
                    );
                    assert(next + input.skip(end) =~= output + input.skip(cursor));
                },
            },
        }
    }
}

/// A text whose tags are well written and name no macro that stands for
/// something is rendered without fault, and comes out as it went in. Each tag is
/// warned of once, and no variable and no chance is touched.
pub proof fn law_unknown_macros_round_trip(input: Seq<char>, around: Surroundings, run: Run)
    requires
        around.replies.transforms is None,
        inert(input, 0, around.context),
    ensures
        rendered(input, around, run) is Text,
        rendered(input, around, run)->Text_0 == input,
        only_warned(run, rendered(input, around, run)->Text_1),
{
    lemma_inert_renders(input, 0, Seq::empty(), around, run);
    assert(Seq::<char>::empty() + input.skip(0) =~= input);
}

/// A text without tags comes out as it went in and changes nothing.
pub proof fn law_plain_text_is_kept(input: Seq<char>, around: Surroundings, run: Run)
    requires
        next_open(input, 0) == input.len(),
    ensures
        rendered(input, around, run) == Rendered::Text(input, run),
{
    assert(Seq::<char>::empty() + input.skip(0) =~= input);
}

/// The part of an `if` that its condition does not pick has no effect.
pub proof fn law_discarded_branch_has_no_effect(
    limit: nat,
    tag: TagView,
    kept: Seq<char>,
    dropped: Seq<char>,
    other: Seq<char>,
    around: Surroundings,
    run: Run,
)
    requires
        argument(tag.arguments, 0).len() < limit,
        kept.len() < limit,
        dropped.len() < limit,
        other.len() < limit,
        ({
            let test = rendered(argument(tag.arguments, 0), around, run);
            test is Text && condition_holds(
                test->Text_0,
                around.context,
                (test->Text_1).machine.variables,
            )
        }),
    ensures
        render_condition(limit, tag, kept, dropped, around, run) == render_condition(
            limit,
            tag,
            kept,
            other,
            around,
            run,
        ),
{
}

} // verus!
