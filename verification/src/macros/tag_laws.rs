//! What becomes of tags, as they are written.
use vstd::prelude::*;

use crate::macros::evaluate::{applied, condition_holds, Evaluated};
use crate::macros::render::{
    close_end, EvaluationView, render_arguments, render_condition, render_from, render_heads,
    render_tag, Rendered, rendered, RenderedAll, resolved, Run, Surroundings,
};
use crate::macros::syntax::{
    balanced_end, char_index, Close, doubled, lemma_char_index, lemma_next_open, lemma_tag_end,
    matching_close, next_open, parsed_tag, same_name, split_from, TagView,
};
use crate::macros::text_laws::{is_trim, joined, lemma_trim_stays};
use crate::text::{ascii_lower_text, lowercase_of, white};

verus! {

/// A text holds no brace.
pub open spec fn is_free_of_braces(text: Seq<char>) -> bool {
    forall|i: int| 0 <= i < text.len() ==> #[trigger] text[i] != '{' && text[i] != '}'
}

/// A text can stand as a part of a tag: it is not empty, has no white space around it,
/// and holds neither braces nor colons.
pub open spec fn is_part(text: Seq<char>) -> bool {
    &&& text.len() > 0
    &&& is_trim(text)
    &&& is_free_of_braces(text)
    &&& forall|i: int| 0 <= i < text.len() ==> #[trigger] text[i] != ':'
}

/// A tag with some content.
pub open spec fn braced(content: Seq<char>) -> Seq<char> {
    seq!['{', '{'] + content + seq!['}', '}']
}

proof fn lemma_no_open(input: Seq<char>, cursor: int, end: int)
    requires
        0 <= cursor <= end <= input.len(),
        forall|i: int| cursor <= i < end ==> #[trigger] input[i] != '{',
    ensures
        end == input.len() ==> next_open(input, cursor) == end,
        doubled(input, end, '{') ==> next_open(input, cursor) == end,
    decreases end - cursor,
{
    if cursor < end && cursor + 1 < input.len() {
        assert(input[cursor] != '{');
        lemma_no_open(input, cursor + 1, end);
    }
}

proof fn lemma_closes(input: Seq<char>, cursor: int, end: int)
    requires
        0 <= cursor <= end,
        doubled(input, end, '}'),
        forall|i: int| cursor <= i < end ==> #[trigger] input[i] != '{' && input[i] != '}',
    ensures
        balanced_end(input, cursor, 1) == Some(end + 2),
    decreases end - cursor,
{
    if cursor < end {
        assert(input[cursor] != '{' && input[cursor] != '}');
        lemma_closes(input, cursor + 1, end);
    }
}

/// A tag that stands in a text is found there.
proof fn lemma_tag_at(head: Seq<char>, content: Seq<char>, tail: Seq<char>)
    requires
        is_free_of_braces(content),
    ensures
        ({
            let input = head + braced(content) + tail;
            let at = head.len() as int;
            let after = at + content.len() + 4;
            &&& doubled(input, at, '{')
            &&& balanced_end(input, at, 0) == Some(after)
            &&& input.subrange(at + 2, after - 2) == content
            &&& input.subrange(at, after) == braced(content)
            &&& input.subrange(0, at) == head
            &&& input.skip(after) == tail
            &&& input.len() == after + tail.len()
        }),
{
    let input = head + braced(content) + tail;
    let at = head.len() as int;
    let end = at + 2 + content.len();
    assert(input[at] == '{' && input[at + 1] == '{');
    assert(input[end] == '}' && input[end + 1] == '}');
    assert forall|i: int| at + 2 <= i < end implies #[trigger] input[i] != '{' && input[i]
        != '}' by {
        assert(input[i] == content[i - at - 2]);
    }
    lemma_closes(input, at + 2, end);
    assert(input.subrange(at + 2, end) =~= content);
    assert(input.subrange(at, end + 2) =~= braced(content));
    assert(input.subrange(0, at) =~= head);
    assert(input.skip(end + 2) =~= tail);
}

proof fn lemma_split(content: Seq<char>, cursor: int, start: int, parts: Seq<Seq<char>>)
    requires
        parts.len() > 0,
        forall|k: int| 0 <= k < parts.len() ==> is_part(#[trigger] parts[k]),
        0 <= start <= cursor <= start + parts[0].len(),
        start <= content.len(),
        content.skip(start) == joined(parts, seq![':', ':']),
    ensures
        split_from(content, cursor, start, 0) == parts,
    decreases content.len() - cursor,
{
    let rest = content.skip(start);
    let first = parts[0];
    assert(is_part(first));
    lemma_trim_stays(first);
    if parts.len() == 1 {
        assert(rest == first);
        assert(content.len() == start + first.len());
        if cursor + 1 < content.len() {
            assert(content[cursor] == rest[cursor - start]);
            assert(first[cursor - start] != ':' && first[cursor - start] != '{'
                && first[cursor - start] != '}');
            lemma_split(content, cursor + 1, start, parts);
        } else {
            assert(parts =~= seq![first]);
        }
    } else {
        let more = parts.drop_first();
        let end = start + first.len();
        assert(rest == first + seq![':', ':'] + joined(more, seq![':', ':']));
        assert(content.len() == start + rest.len());
        if cursor < end {
            assert(content[cursor] == rest[cursor - start]);
            assert(rest[cursor - start] == first[cursor - start]);
            assert(first[cursor - start] != ':' && first[cursor - start] != '{'
                && first[cursor - start] != '}');
            lemma_split(content, cursor + 1, start, parts);
        } else {
            assert(content[end] == rest[first.len() as int]);
            assert(content[end + 1] == rest[first.len() as int + 1]);
            assert(content[end] == ':' && content[end + 1] == ':');
            assert(content.subrange(start, end) =~= first) by {
                assert forall|i: int| 0 <= i < first.len() implies content[start + i]
                    == first[i] by {
                    assert(content[start + i] == rest[i]);
                }
            }
            assert(content.skip(end + 2) =~= joined(more, seq![':', ':'])) by {
                assert forall|i: int| 0 <= i < joined(more, seq![':', ':']).len() implies content[
                    end + 2 + i] == joined(more, seq![':', ':'])[i] by {
                    assert(content[end + 2 + i] == rest[first.len() + 2 + i]);
                }
            }
            assert forall|k: int| 0 <= k < more.len() implies is_part(#[trigger] more[k]) by {
                assert(more[k] == parts[k + 1]);
            }
            lemma_split(content, end + 2, end + 2, more);
            assert(parts =~= seq![first] + more);
        }
    }
}

proof fn lemma_joined(parts: Seq<Seq<char>>)
    requires
        parts.len() > 0,
        forall|k: int| 0 <= k < parts.len() ==> is_part(#[trigger] parts[k]),
    ensures
        ({
            let content = joined(parts, seq![':', ':']);
            &&& content.len() >= parts[0].len()
            &&& content[0] == parts[0][0]
            &&& is_free_of_braces(content)
            &&& is_trim(content)
            &&& parts.len() == 1 ==> content == parts[0]
            &&& forall|k: int| 0 <= k < parts.len() ==> (#[trigger] parts[k]).len()
                <= content.len()
        }),
    decreases parts.len(),
{
    let content = joined(parts, seq![':', ':']);
    let first = parts[0];
    assert(is_part(first));
    if parts.len() > 1 {
        let more = parts.drop_first();
        assert forall|k: int| 0 <= k < more.len() implies is_part(#[trigger] more[k]) by {
            assert(more[k] == parts[k + 1]);
        }
        lemma_joined(more);
        let tail = joined(more, seq![':', ':']);
        assert(is_part(more[0]));
        assert(content.last() == tail.last());
        assert forall|i: int| 0 <= i < content.len() implies #[trigger] content[i] != '{'
            && content[i] != '}' by {
            if i < first.len() {
                assert(content[i] == first[i]);
            } else if i >= first.len() + 2 {
                assert(content[i] == tail[i - first.len() - 2]);
            }
        }
        assert forall|k: int| 0 <= k < parts.len() implies (#[trigger] parts[k]).len()
            <= content.len() by {
            if k > 0 {
                assert(more[k - 1] == parts[k]);
            }
        }
    }
}

proof fn lemma_plain(text: Seq<char>, around: Surroundings, run: Run)
    requires
        is_free_of_braces(text),
    ensures
        render_from(text, 0, Seq::empty(), around, run) == Rendered::Text(text, run),
{
    assert forall|i: int| 0 <= i < text.len() implies #[trigger] text[i] != '{' by {
    }
    lemma_no_open(text, 0, text.len() as int);
    assert(Seq::<char>::empty() + text.skip(0) =~= text);
}

proof fn lemma_heads(
    limit: nat,
    texts: Seq<Seq<char>>,
    count: nat,
    around: Surroundings,
    run: Run,
)
    requires
        count <= texts.len(),
        forall|k: int|
            0 <= k < texts.len() ==> is_free_of_braces(#[trigger] texts[k]) && texts[k].len()
                < limit,
    ensures
        render_heads(limit, texts, count, around, run) == RenderedAll::Texts(
            texts.take(count as int),
            run,
        ),
    decreases count,
{
    if count > 0 {
        lemma_heads(limit, texts, (count - 1) as nat, around, run);
        assert(is_free_of_braces(texts[count - 1]));
        lemma_plain(texts[count - 1], around, run);
        assert(texts.take(count - 1).push(texts[count - 1]) =~= texts.take(count as int));
    } else {
        assert(texts.take(0) =~= Seq::empty());
    }
}

/// What comes of a text up to behind its first tag.
proof fn lemma_step(
    input: Seq<char>,
    around: Surroundings,
    run: Run,
    start: int,
    after: int,
    tag: TagView,
    close: Close,
)
    requires
        next_open(input, 0) == start,
        0 <= start < input.len(),
        balanced_end(input, start, 0) == Some(after),
        parsed_tag(input.subrange(start + 2, after - 2)) == Some(tag),
        !tag.closing,
        matching_close(input, after, tag.name, 0, None) == close,
    ensures
        rendered(input, around, run) == match render_tag(
            input,
            start,
            after,
            tag,
            close,
            around,
            run,
        ) {
            Rendered::Fault(f, m) => Rendered::Fault(f, m),
            Rendered::Text(text, done) => render_from(
                input,
                close_end(close, after),
                input.subrange(0, start) + text,
                around,
                done,
            ),
        },
{
    lemma_next_open(input, 0);
    lemma_tag_end(input, start);
    assert(Seq::<char>::empty() + input.subrange(0, start) =~= input.subrange(0, start));
}

proof fn lemma_last_step(
    input: Seq<char>,
    cursor: int,
    output: Seq<char>,
    around: Surroundings,
    run: Run,
)
    requires
        0 <= cursor <= input.len(),
        next_open(input, cursor) == input.len(),
    ensures
        render_from(input, cursor, output, around, run) == Rendered::Text(
            output + input.skip(cursor),
            run,
        ),
{
}

/// The first tag of a text with one macro.
proof fn lemma_only_tag(head: Seq<char>, parts: Seq<Seq<char>>, tail: Seq<char>)
    requires
        is_free_of_braces(head),
        is_free_of_braces(tail),
        parts.len() >= 2,
        forall|k: int| 0 <= k < parts.len() ==> is_part(#[trigger] parts[k]),
        parts[0][0] != '/',
        parts[0][0] != '#',
    ensures
        ({
            let content = joined(parts, seq![':', ':']);
            let input = head + braced(content) + tail;
            let at = head.len() as int;
            let after = at + content.len() + 4;
            &&& next_open(input, 0) == at
            &&& at < input.len()
            &&& after <= input.len()
            &&& balanced_end(input, at, 0) == Some(after)
            &&& parsed_tag(input.subrange(at + 2, after - 2)) == Some(
                TagView {
                    name: parts[0],
                    arguments: parts.drop_first(),
                    closing: false,
                    preserve_whitespace: false,
                },
            )
            &&& matching_close(input, after, parts[0], 0, None) == Close::Missing
            &&& next_open(input, after) == input.len()
            &&& input.subrange(at, after) == braced(content)
            &&& input.subrange(0, at) == head
            &&& input.skip(after) == tail
            &&& forall|k: int| 0 <= k < parts.len() ==> (#[trigger] parts[k]).len() < input.len()
        }),
{
    let content = joined(parts, seq![':', ':']);
    let input = head + braced(content) + tail;
    let at = head.len() as int;
    let after = at + content.len() + 4;
    assert(is_part(parts[0]));
    lemma_joined(parts);
    lemma_tag_at(head, content, tail);
    assert forall|i: int| 0 <= i < at implies #[trigger] input[i] != '{' by {
        assert(input[i] == head[i]);
    }
    lemma_no_open(input, 0, at);
    lemma_trim_stays(content);
    assert(content.skip(0) =~= content);
    lemma_split(content, 0, 0, parts);
    assert forall|i: int| after <= i < input.len() implies #[trigger] input[i] != '{' by {
        assert(input[i] == input.skip(after)[i - after]);
        assert(input.skip(after)[i - after] == tail[i - after]);
    }
    lemma_no_open(input, after, input.len() as int);
}

proof fn lemma_ready(
    limit: nat,
    tag: TagView,
    around: Surroundings,
    run: Run,
)
    requires
        forall|k: int|
            0 <= k < tag.arguments.len() ==> is_free_of_braces(#[trigger] tag.arguments[k])
                && tag.arguments[k].len() < limit,
    ensures
        render_arguments(limit, tag, None, tag.arguments.len(), around, run)
            == RenderedAll::Texts(tag.arguments, run),
{
    lemma_heads(limit, tag.arguments, tag.arguments.len(), around, run);
    assert(tag.arguments.take(tag.arguments.len() as int) =~= tag.arguments);
}

/// A macro with arguments, double colons between them, gives way to what it comes to;
/// the text in front of it and behind it stays. It is noted with its name, its
/// arguments and its output, and once.
#[verifier::rlimit(60)]
#[verifier::spinoff_prover]
pub proof fn law_macros_give_way_to_their_output(
    head: Seq<char>,
    parts: Seq<Seq<char>>,
    tail: Seq<char>,
    around: Surroundings,
    run: Run,
)
    requires
        is_free_of_braces(head),
        is_free_of_braces(tail),
        parts.len() >= 2,
        forall|k: int| 0 <= k < parts.len() ==> is_part(#[trigger] parts[k]),
        parts[0][0] != '/',
        parts[0][0] != '#',
        around.replies.transforms is None,
    ensures
        ({
            let tag = braced(joined(parts, seq![':', ':']));
            let name = parts[0];
            let arguments = parts.drop_first();
            match applied(
                lowercase_of(name),
                name,
                arguments,
                tag,
                around.context,
                around.replies,
                run.machine,
            ) {
                Evaluated::Output(text, machine) => rendered(head + tag + tail, around, run)
                    == Rendered::Text(
                    head + text + tail,
                    Run {
                        machine,
                        evaluations: run.evaluations.push(
                            EvaluationView { name, arguments, output: text },
                        ),
                    },
                ),
                Evaluated::Fault(fault, machine) => rendered(head + tag + tail, around, run)
                    == Rendered::Fault(fault, machine),
            }
        }),
{
    let content = joined(parts, seq![':', ':']);
    let input = head + braced(content) + tail;
    let at = head.len() as int;
    let after = at + content.len() + 4;
    let arguments = parts.drop_first();
    let tag = TagView { name: parts[0], arguments, closing: false, preserve_whitespace: false };
    lemma_only_tag(head, parts, tail);
    lemma_step(input, around, run, at, after, tag, Close::Missing);
    assert forall|k: int| 0 <= k < arguments.len() implies is_free_of_braces(
        #[trigger] arguments[k],
    ) && arguments[k].len() < input.len() by {
        assert(arguments[k] == parts[k + 1]);
        assert(is_part(parts[k + 1]));
    }
    lemma_ready(input.len(), tag, around, run);
    let came = render_tag(input, at, after, tag, Close::Missing, around, run);
    assert(came == resolved(parts[0], arguments, braced(content), around, run));
    match came {
        Rendered::Text(text, done) => {
            lemma_last_step(input, after, head + text, around, done);
        },
        Rendered::Fault(_, _) => {},
    }
}

proof fn lemma_words()
    ensures
        "if"@ =~= seq!['i', 'f'],
        "else"@ =~= seq!['e', 'l', 's', 'e'],
        !same_name(seq!['e', 'l', 's', 'e'], seq!['i', 'f']),
        same_name(seq!['i', 'f'], "if"@),
        same_name(seq!['e', 'l', 's', 'e'], "else"@),
        parsed_tag(seq!['e', 'l', 's', 'e']) == Some(
            TagView {
                name: seq!['e', 'l', 's', 'e'],
                arguments: Seq::empty(),
                closing: false,
                preserve_whitespace: false,
            },
        ),
        parsed_tag(seq!['/', 'i', 'f']) == Some(
            TagView {
                name: seq!['i', 'f'],
                arguments: Seq::empty(),
                closing: true,
                preserve_whitespace: false,
            },
        ),
{
    reveal_strlit("if");
    reveal_strlit("else");
    let word = seq!['e', 'l', 's', 'e'];
    let small = seq!['i', 'f'];
    assert(ascii_lower_text(word).len() == 4 && ascii_lower_text(small).len() == 2);
    assert("if"@ =~= small);
    assert("else"@ =~= word);
    assert(!white('e') && !white('i') && !white('f') && !white('/'));
    lemma_trim_stays(word);
    let parts = seq![word];
    assert(is_part(word));
    assert(word.skip(0) =~= word);
    assert(joined(parts, seq![':', ':']) == word);
    lemma_split(word, 0, 0, parts);
    lemma_char_index(word, ' ');
    lemma_char_index(word, ':');
    let close = seq!['/', 'i', 'f'];
    lemma_trim_stays(close);
    assert(close.drop_first() =~= small);
    lemma_trim_stays(small);
    assert(is_part(small));
    assert(small.skip(0) =~= small);
    assert(joined(seq![small], seq![':', ':']) == small);
    lemma_split(small, 0, 0, seq![small]);
    lemma_char_index(small, ' ');
    lemma_char_index(small, ':');
    lemma_word_holds_no(word, ' ');
    lemma_word_holds_no(word, ':');
    lemma_word_holds_no(small, ' ');
    lemma_word_holds_no(small, ':');
}

proof fn lemma_word_holds_no(word: Seq<char>, c: char)
    requires
        forall|i: int| 0 <= i < word.len() ==> #[trigger] word[i] != c,
    ensures
        char_index(word, c) == word.len(),
{
    lemma_char_index(word, c);
}

proof fn lemma_if_tag(condition: Seq<char>)
    requires
        is_part(condition),
    ensures
        is_free_of_braces(seq!['i', 'f', ' '] + condition),
        parsed_tag(seq!['i', 'f', ' '] + condition) == Some(
            TagView {
                name: seq!['i', 'f'],
                arguments: seq![condition],
                closing: false,
                preserve_whitespace: false,
            },
        ),
{
    let content = seq!['i', 'f', ' '] + condition;
    assert(!white('i'));
    assert(content.last() == condition.last());
    lemma_trim_stays(content);
    lemma_trim_stays(condition);
    assert forall|i: int| 0 <= i < content.len() implies #[trigger] content[i] != '{'
        && content[i] != '}' && content[i] != ':' by {
        if i >= 3 {
            assert(content[i] == condition[i - 3]);
        }
    }
    assert(is_part(content));
    assert(content.skip(0) =~= content);
    assert(joined(seq![content], seq![':', ':']) == content);
    lemma_split(content, 0, 0, seq![content]);
    lemma_char_index(content, ' ');
    assert(content[2] == ' ');
    assert(content[0] != ' ' && content[1] != ' ');
    assert(char_index(content, ' ') == 2);
    assert(content.take(2) =~= seq!['i', 'f']);
    assert(content.skip(3) =~= condition);
}

/// A condition with two bodies, as it is written.
pub open spec fn two_way(condition: Seq<char>, first: Seq<char>, second: Seq<char>) -> Seq<char> {
    braced(seq!['i', 'f', ' '] + condition) + first + braced(seq!['e', 'l', 's', 'e']) + second
        + braced(seq!['/', 'i', 'f'])
}

proof fn lemma_two_way(condition: Seq<char>, first: Seq<char>, second: Seq<char>)
    requires
        is_part(condition),
        is_free_of_braces(first),
        is_free_of_braces(second),
    ensures
        ({
            let input = two_way(condition, first, second);
            let after = condition.len() as int + 7;
            let e = after + first.len();
            let f = e + 8 + second.len();
            &&& input.len() == f + 7
            &&& next_open(input, 0) == 0
            &&& balanced_end(input, 0, 0) == Some(after)
            &&& input.subrange(2, after - 2) == seq!['i', 'f', ' '] + condition
            &&& next_open(input, after) == e
            &&& balanced_end(input, e, 0) == Some(e + 8)
            &&& input.subrange(e + 2, e + 6) == seq!['e', 'l', 's', 'e']
            &&& next_open(input, e + 8) == f
            &&& balanced_end(input, f, 0) == Some(f + 7)
            &&& input.subrange(f + 2, f + 5) == seq!['/', 'i', 'f']
            &&& next_open(input, f + 7) == input.len()
            &&& input.subrange(after, e) == first
            &&& input.subrange(e + 8, f) == second
        }),
{
    let opening = seq!['i', 'f', ' '] + condition;
    let other = seq!['e', 'l', 's', 'e'];
    let closing = seq!['/', 'i', 'f'];
    let input = two_way(condition, first, second);
    let nothing = Seq::<char>::empty();
    assert forall|i: int| 0 <= i < opening.len() implies #[trigger] opening[i] != '{'
        && opening[i] != '}' by {
        if i >= 3 {
            assert(opening[i] == condition[i - 3]);
        }
    }
    let behind_opening = first + braced(other) + second + braced(closing);
    lemma_tag_at(nothing, opening, behind_opening);
    assert(nothing + braced(opening) + behind_opening =~= input);
    let front = braced(opening) + first;
    let behind_other = second + braced(closing);
    lemma_tag_at(front, other, behind_other);
    assert(front + braced(other) + behind_other =~= input);
    let most = front + braced(other) + second;
    lemma_tag_at(most, closing, nothing);
    assert(most + braced(closing) + nothing =~= input);
    let after = condition.len() as int + 7;
    let e = after + first.len();
    let f = e + 8 + second.len();
    lemma_no_open(input, 0, 0);
    assert forall|i: int| after <= i < e implies #[trigger] input[i] != '{' by {
        assert(input[i] == first[i - after]);
    }
    lemma_no_open(input, after, e);
    assert forall|i: int| e + 8 <= i < f implies #[trigger] input[i] != '{' by {
        assert(input[i] == second[i - e - 8]);
    }
    lemma_no_open(input, e + 8, f);
    lemma_no_open(input, f + 7, input.len() as int);
    assert(input.subrange(after, e) =~= first);
    assert(input.subrange(e + 8, f) =~= second);
}

proof fn lemma_close(condition: Seq<char>, first: Seq<char>, second: Seq<char>)
    requires
        is_part(condition),
        is_free_of_braces(first),
        is_free_of_braces(second),
    ensures
        ({
            let input = two_way(condition, first, second);
            let after = condition.len() as int + 7;
            let e = after + first.len();
            let f = e + 8 + second.len();
            matching_close(input, after, seq!['i', 'f'], 0, None) == (Close::At {
                start: f,
                end: f + 7,
                otherwise: Some((e, e + 8)),
            })
        }),
{
    let input = two_way(condition, first, second);
    let after = condition.len() as int + 7;
    let e = after + first.len();
    let f = e + 8 + second.len();
    lemma_two_way(condition, first, second);
    lemma_words();
    let close = Close::At { start: f, end: f + 7, otherwise: Some((e, e + 8)) };
    assert(matching_close(input, e + 8, seq!['i', 'f'], 0, Some((e, e + 8))) == close);
}

/// Of a condition with two bodies the first is put out where the condition holds and
/// the second where it does not, and nothing changes but that the condition is noted.
#[verifier::rlimit(60)]
#[verifier::spinoff_prover]
pub proof fn law_conditions_pick_a_body(
    condition: Seq<char>,
    first: Seq<char>,
    second: Seq<char>,
    around: Surroundings,
    run: Run,
)
    requires
        is_part(condition),
        is_free_of_braces(first),
        is_free_of_braces(second),
    ensures
        rendered(two_way(condition, first, second), around, run) matches Rendered::Text(
            text,
            done,
        ) && {
            &&& text == if condition_holds(condition, around.context, run.machine.variables) {
                first
            } else {
                second
            }
            &&& done.machine == run.machine
        },
{
    let input = two_way(condition, first, second);
    let after = condition.len() as int + 7;
    let e = after + first.len();
    let f = e + 8 + second.len();
    let close = Close::At { start: f, end: f + 7, otherwise: Some((e, e + 8)) };
    let tag = TagView {
        name: seq!['i', 'f'],
        arguments: seq![condition],
        closing: false,
        preserve_whitespace: false,
    };
    lemma_two_way(condition, first, second);
    lemma_close(condition, first, second);
    lemma_words();
    lemma_if_tag(condition);
    lemma_step(input, around, run, 0, after, tag, close);
    lemma_plain(condition, around, run);
    lemma_plain(first, around, run);
    lemma_plain(second, around, run);
    let came = render_condition(input.len(), tag, first, second, around, run);
    assert(render_tag(input, 0, after, tag, close, around, run) == came);
    match came {
        Rendered::Text(text, done) => {
            let so_far = input.subrange(0, 0) + text;
            lemma_last_step(input, f + 7, so_far, around, done);
            assert(so_far + input.skip(f + 7) =~= text);
        },
        Rendered::Fault(_, _) => {},
    }
}

} // verus!
