//! Tags of macro text: `{{name::argument}}`, with tags inside of tags, and
//! `{{name}}body{{/name}}`.
use vstd::prelude::*;

use crate::text::{
    ascii_lower_text, contains, find_from, first_occurrence, from_range, is_white,
    lemma_first_occurrence, lemma_views_push, lowercase, lowercase_of, occurs_at,
    same_ignoring_case, to_chars, trim_back, trim_front, trim_range, trimmed, views, white,
};

verus! {

/// The character `c` stands twice at position `at`.
pub open spec fn doubled(input: Seq<char>, at: int, c: char) -> bool {
    0 <= at && at + 1 < input.len() && input[at] == c && input[at + 1] == c
}

/// The first position from `cursor` on at which a tag opens, or the length of
/// the input when none does.
pub open spec fn next_open(input: Seq<char>, cursor: int) -> int
    decreases input.len() - cursor,
{
    if cursor < 0 || cursor + 1 >= input.len() {
        input.len() as int
    } else if doubled(input, cursor, '{') {
        cursor
    } else {
        next_open(input, cursor + 1)
    }
}

/// The position behind the braces that close what is open at `cursor`, where
/// `depth` tags are.
pub open spec fn balanced_end(input: Seq<char>, cursor: int, depth: int) -> Option<int>
    decreases input.len() - cursor,
{
    if cursor < 0 || cursor + 1 >= input.len() {
        None
    } else if doubled(input, cursor, '{') {
        balanced_end(input, cursor + 2, depth + 1)
    } else if doubled(input, cursor, '}') {
        if depth == 1 {
            Some(cursor + 2)
        } else {
            balanced_end(input, cursor + 2, depth - 1)
        }
    } else {
        balanced_end(input, cursor + 1, depth)
    }
}

/// What a tag says.
pub struct TagView {
    pub name: Seq<char>,
    pub arguments: Seq<Seq<char>>,
    pub closing: bool,
    pub preserve_whitespace: bool,
}

/// A tag that was read.
#[derive(Clone, Debug, Eq, PartialEq)]
pub struct ParsedTag {
    pub name: String,
    pub arguments: Vec<String>,
    pub closing: bool,
    pub preserve_whitespace: bool,
}

/// What a read tag says.
pub open spec fn tag_view(tag: ParsedTag) -> TagView {
    TagView {
        name: tag.name@,
        arguments: views(tag.arguments@),
        closing: tag.closing,
        preserve_whitespace: tag.preserve_whitespace,
    }
}

/// The parts of a tag from `cursor` on, where the part at hand began at
/// `start` and `depth` inner tags are open. Double colons outside of inner tags
/// part them; each part is trimmed.
pub open spec fn split_from(content: Seq<char>, cursor: int, start: int, depth: int) -> Seq<
    Seq<char>,
>
    decreases content.len() - cursor,
{
    if cursor < 0 || cursor + 1 >= content.len() {
        seq![trimmed(content.skip(start))]
    } else if doubled(content, cursor, '{') {
        split_from(content, cursor + 2, start, depth + 1)
    } else if doubled(content, cursor, '}') {
        split_from(
            content,
            cursor + 2,
            start,
            if depth > 0 {
                depth - 1
            } else {
                0
            },
        )
    } else if doubled(content, cursor, ':') && depth == 0 {
        seq![trimmed(content.subrange(start, cursor))] + split_from(
            content,
            cursor + 2,
            cursor + 2,
            depth,
        )
    } else {
        split_from(content, cursor + 1, start, depth)
    }
}

/// The first position of a character, or the length of the text when it does
/// not occur.
pub open spec fn char_index(text: Seq<char>, c: char) -> int
    decreases text.len(),
{
    if text.len() == 0 {
        0
    } else if text[0] == c {
        0
    } else {
        1 + char_index(text.drop_first(), c)
    }
}

/// The text starts with a character.
pub open spec fn opens_with(text: Seq<char>, c: char) -> bool {
    text.len() > 0 && text[0] == c
}

/// The name of a variable of the session or of all sessions.
pub open spec fn is_shorthand(text: Seq<char>) -> bool {
    opens_with(text, '.') || opens_with(text, '$')
}

/// The name and arguments that the parts of a tag stand for. A tag of one part
/// has its argument behind the first space, or else behind the first colon.
pub open spec fn named_parts(parts: Seq<Seq<char>>) -> (Seq<char>, Seq<Seq<char>>) {
    let first = parts[0];
    if parts.len() != 1 {
        (first, parts.drop_first())
    } else if is_shorthand(first) {
        (first, Seq::empty())
    } else if char_index(first, ' ') < first.len() {
        (
            first.take(char_index(first, ' ')),
            seq![trimmed(first.skip(char_index(first, ' ') + 1))],
        )
    } else if char_index(first, ':') < first.len() {
        (
            first.take(char_index(first, ':')),
            seq![trimmed(first.skip(char_index(first, ':') + 1))],
        )
    } else {
        (first, Seq::empty())
    }
}

/// What the text between the braces of a tag says; nothing where it is empty.
pub open spec fn parsed_tag(tag: Seq<char>) -> Option<TagView> {
    let content = trimmed(tag);
    let closing = opens_with(content, '/') && !doubled(content, 0, '/');
    let opened = if closing {
        trim_front(content.drop_first())
    } else {
        content
    };
    let preserve_whitespace = opens_with(opened, '#');
    let inner = if preserve_whitespace {
        trim_front(opened.drop_first())
    } else {
        opened
    };
    if inner.len() == 0 {
        None
    } else {
        let (name, arguments) = named_parts(split_from(inner, 0, 0, 0));
        Some(TagView { name, arguments, closing, preserve_whitespace })
    }
}

/// Where a tag's body ends: nowhere, at a closing tag, with an `else` on the
/// way where there is one, or at an empty tag, which is an error.
pub enum Close {
    Missing,
    At { start: int, end: int, otherwise: Option<(int, int)> },
    EmptyTag,
}

/// Two names are the same, capitals aside.
pub open spec fn same_name(a: Seq<char>, b: Seq<char>) -> bool {
    ascii_lower_text(a) == ascii_lower_text(b)
}

/// The closing tag of a name, letter for letter.
pub open spec fn closing_literal(name: Seq<char>) -> Seq<char> {
    "{{/"@ + lowercase_of(name) + "}}"@
}

/// The closing tag of a name stands somewhere behind `cursor`.
pub open spec fn closes_later(input: Seq<char>, cursor: int, name: Seq<char>) -> bool {
    contains(lowercase_of(input.skip(cursor)), closing_literal(name))
}

/// Where the body of a tag named `name` ends that goes on at `cursor`, where
/// `depth` tags of that name are open inside of it and `otherwise` is the last
/// `else` on the way.
pub open spec fn matching_close(
    input: Seq<char>,
    cursor: int,
    name: Seq<char>,
    depth: int,
    otherwise: Option<(int, int)>,
) -> Close
    decreases input.len() - cursor,
{
    let start = next_open(input, cursor);
    if cursor < 0 || start < cursor || start >= input.len() {
        Close::Missing
    } else {
        match balanced_end(input, start, 0) {
            None => Close::Missing,
            Some(end) => if end <= start || end > input.len() {
                Close::Missing
            } else {
                match parsed_tag(input.subrange(start + 2, end - 2)) {
                    None => Close::EmptyTag,
                    Some(tag) => if same_name(tag.name, name) {
                        if tag.closing {
                            if depth == 0 {
                                Close::At { start, end, otherwise }
                            } else {
                                matching_close(input, end, name, depth - 1, otherwise)
                            }
                        } else if closes_later(input, end, tag.name) {
                            matching_close(input, end, name, depth + 1, otherwise)
                        } else {
                            matching_close(input, end, name, depth, otherwise)
                        }
                    } else if same_name(name, "if"@) && same_name(tag.name, "else"@)
                        && !tag.closing && depth == 0 {
                        matching_close(input, end, name, depth, Some((start, end)))
                    } else {
                        matching_close(input, end, name, depth, otherwise)
                    },
                }
            },
        }
    }
}

pub proof fn lemma_next_open(input: Seq<char>, cursor: int)
    requires
        0 <= cursor <= input.len(),
    ensures
        cursor <= next_open(input, cursor) <= input.len(),
        next_open(input, cursor) < input.len() ==> doubled(input, next_open(input, cursor), '{'),
    decreases input.len() - cursor,
{
    if cursor + 1 < input.len() && !doubled(input, cursor, '{') {
        lemma_next_open(input, cursor + 1);
    }
}

pub proof fn lemma_balanced_end(input: Seq<char>, cursor: int, depth: int)
    requires
        0 <= cursor,
    ensures
        balanced_end(input, cursor, depth) is Some ==> cursor + 2 <= balanced_end(
            input,
            cursor,
            depth,
        )->0 <= input.len(),
    decreases input.len() - cursor,
{
    if cursor + 1 < input.len() {
        if doubled(input, cursor, '{') {
            lemma_balanced_end(input, cursor + 2, depth + 1);
        } else if doubled(input, cursor, '}') {
            if depth != 1 {
                lemma_balanced_end(input, cursor + 2, depth - 1);
            }
        } else {
            lemma_balanced_end(input, cursor + 1, depth);
        }
    }
}

/// A tag takes at least four characters: its braces.
pub proof fn lemma_tag_end(input: Seq<char>, start: int)
    requires
        doubled(input, start, '{'),
    ensures
        balanced_end(input, start, 0) is Some ==> start + 4 <= balanced_end(input, start, 0)->0
            <= input.len(),
{
    lemma_balanced_end(input, start + 2, 1);
}

pub proof fn lemma_trim_front_length(text: Seq<char>)
    ensures
        trim_front(text).len() <= text.len(),
    decreases text.len(),
{
    if text.len() > 0 && white(text[0]) {
        lemma_trim_front_length(text.drop_first());
    }
}

pub proof fn lemma_trim_back_length(text: Seq<char>)
    ensures
        trim_back(text).len() <= text.len(),
    decreases text.len(),
{
    if text.len() > 0 && white(text.last()) {
        lemma_trim_back_length(text.drop_last());
    }
}

/// Trimming never makes a text longer.
pub proof fn lemma_trimmed_length(text: Seq<char>)
    ensures
        trimmed(text).len() <= text.len(),
{
    lemma_trim_front_length(text);
    lemma_trim_back_length(trim_front(text));
}

proof fn lemma_split_lengths(content: Seq<char>, cursor: int, start: int, depth: int)
    requires
        0 <= start <= cursor,
        start <= content.len(),
    ensures
        split_from(content, cursor, start, depth).len() > 0,
        forall|i: int|
            0 <= i < split_from(content, cursor, start, depth).len() ==> (
            #[trigger] split_from(content, cursor, start, depth)[i]).len() <= content.len(),
    decreases content.len() - cursor,
{
    if cursor + 1 >= content.len() {
        lemma_trimmed_length(content.skip(start));
    } else if doubled(content, cursor, '{') {
        lemma_split_lengths(content, cursor + 2, start, depth + 1);
    } else if doubled(content, cursor, '}') {
        lemma_split_lengths(
            content,
            cursor + 2,
            start,
            if depth > 0 {
                depth - 1
            } else {
                0
            },
        );
    } else if doubled(content, cursor, ':') && depth == 0 {
        lemma_trimmed_length(content.subrange(start, cursor));
        lemma_split_lengths(content, cursor + 2, cursor + 2, depth);
        let head = seq![trimmed(content.subrange(start, cursor))];
        let tail = split_from(content, cursor + 2, cursor + 2, depth);
        assert forall|i: int| 0 <= i < (head + tail).len() implies (#[trigger] (head
            + tail)[i]).len() <= content.len() by {
            if i > 0 {
                assert((head + tail)[i] == tail[i - 1]);
            }
        }
    } else {
        lemma_split_lengths(content, cursor + 1, start, depth);
    }
}

pub proof fn lemma_char_index(text: Seq<char>, c: char)
    ensures
        0 <= char_index(text, c) <= text.len(),
        char_index(text, c) < text.len() ==> text[char_index(text, c)] == c,
        forall|i: int| 0 <= i < char_index(text, c) ==> text[i] != c,
    decreases text.len(),
{
    if text.len() > 0 && text[0] != c {
        lemma_char_index(text.drop_first(), c);
        assert forall|i: int| 0 <= i < char_index(text, c) implies text[i] != c by {
            if i > 0 {
                assert(text.drop_first()[i - 1] == text[i]);
            }
        }
    }
}

/// The arguments of a tag are no longer than the tag.
pub proof fn lemma_tag_lengths(tag: Seq<char>)
    ensures
        parsed_tag(tag) is Some ==> forall|i: int|
            0 <= i < (parsed_tag(tag)->0).arguments.len() ==> (#[trigger] (
            parsed_tag(tag)->0).arguments[i]).len() <= tag.len(),
{
    let content = trimmed(tag);
    lemma_trimmed_length(tag);
    let closing = opens_with(content, '/') && !doubled(content, 0, '/');
    let opened = if closing {
        trim_front(content.drop_first())
    } else {
        content
    };
    if closing {
        lemma_trim_front_length(content.drop_first());
    }
    let preserve_whitespace = opens_with(opened, '#');
    let inner = if preserve_whitespace {
        trim_front(opened.drop_first())
    } else {
        opened
    };
    if preserve_whitespace {
        lemma_trim_front_length(opened.drop_first());
    }
    if inner.len() > 0 {
        let parts = split_from(inner, 0, 0, 0);
        lemma_split_lengths(inner, 0, 0, 0);
        let first = parts[0];
        assert(first.len() <= inner.len());
        lemma_char_index(first, ' ');
        lemma_char_index(first, ':');
        if char_index(first, ' ') < first.len() {
            lemma_trimmed_length(first.skip(char_index(first, ' ') + 1));
        }
        if char_index(first, ':') < first.len() {
            lemma_trimmed_length(first.skip(char_index(first, ':') + 1));
        }
        let arguments = named_parts(parts).1;
        assert forall|i: int| 0 <= i < arguments.len() implies (#[trigger] arguments[i]).len()
            <= tag.len() by {
            if parts.len() != 1 {
                assert(arguments[i] == parts[i + 1]);
            }
        }
    }
}

/// A closing tag stands behind what it closes, and an `else` on the way.
pub proof fn lemma_matching_close(
    input: Seq<char>,
    cursor: int,
    name: Seq<char>,
    depth: int,
    otherwise: Option<(int, int)>,
)
    requires
        0 <= cursor <= input.len(),
    ensures
        match matching_close(input, cursor, name, depth, otherwise) {
            Close::At { start, end, otherwise: found } => {
                &&& cursor <= start < end <= input.len()
                &&& found == otherwise || (found is Some && cursor <= (found->0).0 < (found->0).1
                    <= start)
            },
            _ => true,
        },
    decreases input.len() - cursor,
{
    lemma_next_open(input, cursor);
    let start = next_open(input, cursor);
    if start < input.len() {
        lemma_tag_end(input, start);
        match balanced_end(input, start, 0) {
            None => {},
            Some(end) => match parsed_tag(input.subrange(start + 2, end - 2)) {
                None => {},
                Some(tag) => if same_name(tag.name, name) {
                    if tag.closing {
                        if depth != 0 {
                            lemma_matching_close(input, end, name, depth - 1, otherwise);
                        }
                    } else if closes_later(input, end, tag.name) {
                        lemma_matching_close(input, end, name, depth + 1, otherwise);
                    } else {
                        lemma_matching_close(input, end, name, depth, otherwise);
                    }
                } else if same_name(name, "if"@) && same_name(tag.name, "else"@) && !tag.closing
                    && depth == 0 {
                    lemma_matching_close(input, end, name, depth, Some((start, end)));
                } else {
                    lemma_matching_close(input, end, name, depth, otherwise);
                },
            },
        }
    }
}

fn is_doubled(input: &Vec<char>, at: usize, c: char) -> (r: bool)
    ensures
        r == doubled(input@, at as int, c),
{
    input.len() > 1 && at < input.len() - 1 && input[at] == c && input[at + 1] == c
}

/// The first position from `cursor` on at which a tag opens.
pub fn find_open(input: &Vec<char>, cursor: usize) -> (at: usize)
    requires
        cursor <= input@.len(),
    ensures
        at == next_open(input@, cursor as int),
        cursor <= at <= input@.len(),
        at < input@.len() ==> doubled(input@, at as int, '{'),
{
    let mut i: usize = cursor;
    while i < input.len()
        invariant
            cursor <= i <= input@.len(),
            next_open(input@, cursor as int) == next_open(input@, i as int),
        decreases input@.len() - i,
    {
        if is_doubled(input, i, '{') {
            return i;
        }
        i = i + 1;
    }
    input.len()
}

/// The position behind the braces that close the tag at `start`.
pub fn find_end(input: &Vec<char>, start: usize) -> (end: Option<usize>)
    requires
        doubled(input@, start as int, '{'),
    ensures
        match end {
            Some(e) => balanced_end(input@, start as int, 0) == Some(e as int) && start + 4 <= e
                <= input@.len(),
            None => balanced_end(input@, start as int, 0) is None,
        },
{
    proof {
        lemma_tag_end(input@, start as int);
    }
    let mut cursor: usize = start;
    let mut depth: usize = 0;
    while cursor < input.len() && input.len() - cursor > 1
        invariant
            start <= cursor <= input@.len(),
            depth <= cursor - start,
            cursor == start || depth > 0,
            doubled(input@, start as int, '{'),
            balanced_end(input@, start as int, 0) == balanced_end(
                input@,
                cursor as int,
                depth as int,
            ),
            balanced_end(input@, start as int, 0) is Some ==> start + 4 <= balanced_end(
                input@,
                start as int,
                0,
            )->0 <= input@.len(),
        decreases input@.len() - cursor,
    {
        if is_doubled(input, cursor, '{') {
            depth = depth + 1;
            cursor = cursor + 2;
        } else if is_doubled(input, cursor, '}') {
            if depth == 1 {
                return Some(cursor + 2);
            }
            depth = depth - 1;
            cursor = cursor + 2;
        } else {
            cursor = cursor + 1;
        }
    }
    None
}

fn split_arguments(content: &Vec<char>) -> (parts: Vec<String>)
    ensures
        views(parts@) == split_from(content@, 0, 0, 0),
{
    let mut parts: Vec<String> = Vec::new();
    let mut cursor: usize = 0;
    let mut start: usize = 0;
    let mut depth: usize = 0;
    proof {
        assert(views(parts@) + split_from(content@, 0, 0, 0) =~= split_from(content@, 0, 0, 0));
    }
    while cursor < content.len() && content.len() - cursor > 1
        invariant
            start <= cursor <= content@.len(),
            depth <= cursor,
            views(parts@) + split_from(content@, cursor as int, start as int, depth as int)
                == split_from(content@, 0, 0, 0),
        decreases content@.len() - cursor,
    {
        if is_doubled(content, cursor, '{') {
            depth = depth + 1;
            cursor = cursor + 2;
        } else if is_doubled(content, cursor, '}') {
            depth = if depth > 0 {
                depth - 1
            } else {
                0
            };
            cursor = cursor + 2;
        } else if is_doubled(content, cursor, ':') && depth == 0 {
            let ghost before = views(parts@);
            let range = trim_range(content, start, cursor);
            let part = from_range(content, range.0, range.1);
            proof {
                lemma_views_push(parts@, part);
                let rest = split_from(content@, cursor + 2, cursor + 2, 0);
                assert(before.push(part@) + rest =~= before + (seq![part@] + rest));
            }
            parts.push(part);
            cursor = cursor + 2;
            start = cursor;
        } else {
            cursor = cursor + 1;
        }
    }
    let range = trim_range(content, start, content.len());
    let part = from_range(content, range.0, range.1);
    proof {
        assert(content@.subrange(start as int, content@.len() as int) =~= content@.skip(
            start as int,
        ));
        lemma_views_push(parts@, part);
        assert(views(parts@).push(part@) =~= views(parts@) + seq![part@]);
    }
    parts.push(part);
    parts
}

pub(crate) fn find_char(text: &Vec<char>, c: char) -> (at: usize)
    ensures
        at == char_index(text@, c),
        at <= text@.len(),
{
    let mut i: usize = 0;
    proof {
        assert(text@.skip(0) =~= text@);
    }
    while i < text.len()
        invariant
            i <= text@.len(),
            char_index(text@, c) == i + char_index(text@.skip(i as int), c),
        decreases text@.len() - i,
    {
        proof {
            assert(text@.skip(i as int)[0] == text@[i as int]);
            assert(text@.skip(i as int).drop_first() =~= text@.skip(i + 1));
        }
        if text[i] == c {
            return i;
        }
        i = i + 1;
    }
    i
}

/// `text` from position `from` on without the white space it starts with.
pub(crate) fn skip_white(text: &Vec<char>, from: usize) -> (at: usize)
    requires
        from <= text@.len(),
    ensures
        from <= at <= text@.len(),
        text@.skip(at as int) == trim_front(text@.skip(from as int)),
{
    let mut at: usize = from;
    while at < text.len() && is_white(text[at])
        invariant
            from <= at <= text@.len(),
            trim_front(text@.skip(from as int)) == trim_front(text@.skip(at as int)),
        decreases text@.len() - at,
    {
        proof {
            assert(text@.skip(at as int)[0] == text@[at as int]);
            assert(text@.skip(at as int).drop_first() =~= text@.skip(at + 1));
        }
        at = at + 1;
    }
    proof {
        if at < text@.len() {
            assert(text@.skip(at as int)[0] == text@[at as int]);
        }
    }
    at
}

pub(crate) fn copy_range(text: &Vec<char>, from: usize, to: usize) -> (copy: Vec<char>)
    requires
        from <= to <= text@.len(),
    ensures
        copy@ == text@.subrange(from as int, to as int),
{
    let mut copy: Vec<char> = Vec::new();
    let mut i: usize = from;
    while i < to
        invariant
            from <= i <= to <= text@.len(),
            copy@ == text@.subrange(from as int, i as int),
        decreases to - i,
    {
        copy.push(text[i]);
        i = i + 1;
        proof {
            assert(copy@ =~= text@.subrange(from as int, i as int));
        }
    }
    copy
}

impl ParsedTag {
    /// Reads the text between the braces of a tag.
    pub fn parse(input: &Vec<char>, from: usize, to: usize) -> (tag: Option<ParsedTag>)
        requires
            from <= to <= input@.len(),
        ensures
            match tag {
                Some(t) => parsed_tag(input@.subrange(from as int, to as int)) == Some(
                    tag_view(t),
                ),
                None => parsed_tag(input@.subrange(from as int, to as int)) is None,
            },
    {
        let range = trim_range(input, from, to);
        let content = copy_range(input, range.0, range.1);
        proof {
            assert(content@ == trimmed(input@.subrange(from as int, to as int)));
        }
        let closing = content.len() > 0 && content[0] == '/' && !is_doubled(&content, 0, '/');
        let mut at: usize = 0;
        proof {
            assert(content@.skip(0) =~= content@);
            assert(content@.len() > 0 ==> content@.skip(1) =~= content@.drop_first());
        }
        if closing {
            at = skip_white(&content, 1);
        }
        let ghost opened = content@.skip(at as int);
        let preserve_whitespace = at < content.len() && content[at] == '#';
        proof {
            assert(at < content@.len() ==> opened[0] == content@[at as int]);
            assert(at < content@.len() ==> content@.skip(at + 1) =~= opened.drop_first());
        }
        if preserve_whitespace {
            at = skip_white(&content, at + 1);
        }
        if at >= content.len() {
            return None;
        }
        let inner = copy_range(&content, at, content.len());
        proof {
            assert(inner@ =~= content@.skip(at as int));
        }
        let parts = split_arguments(&inner);
        proof {
            lemma_split_lengths(inner@, 0, 0, 0);
        }
        let ghost all = views(parts@);
        let first = to_chars(parts[0].as_str());
        proof {
            assert(all[0] == parts@[0]@);
        }
        if parts.len() != 1 {
            let mut arguments: Vec<String> = Vec::new();
            let mut i: usize = 1;
            while i < parts.len()
                invariant
                    1 <= i <= parts@.len(),
                    arguments@ == parts@.subrange(1, i as int),
                decreases parts@.len() - i,
            {
                arguments.push(parts[i].clone());
                i = i + 1;
                proof {
                    assert(arguments@ =~= parts@.subrange(1, i as int));
                }
            }
            proof {
                assert(views(arguments@) =~= all.drop_first());
            }
            return Some(
                ParsedTag {
                    name: parts[0].clone(),
                    arguments,
                    closing,
                    preserve_whitespace,
                },
            );
        }
        if first.len() > 0 && (first[0] == '.' || first[0] == '$') {
            let arguments: Vec<String> = Vec::new();
            proof {
                assert(views(arguments@) =~= Seq::empty());
            }
            return Some(
                ParsedTag {
                    name: parts[0].clone(),
                    arguments,
                    closing,
                    preserve_whitespace,
                },
            );
        }
        let mut split: usize = find_char(&first, ' ');
        if split >= first.len() {
            split = find_char(&first, ':');
        }
        if split < first.len() {
            let name = from_range(&first, 0, split);
            let range = trim_range(&first, split + 1, first.len());
            let argument = from_range(&first, range.0, range.1);
            let arguments: Vec<String> = vec![argument];
            proof {
                assert(first@.subrange(0, split as int) =~= first@.take(split as int));
                assert(first@.subrange(split + 1, first@.len() as int) =~= first@.skip(split + 1));
                assert(views(arguments@) =~= seq![argument@]);
            }
            return Some(ParsedTag { name, arguments, closing, preserve_whitespace });
        }
        let arguments: Vec<String> = Vec::new();
        proof {
            assert(views(arguments@) =~= Seq::empty());
        }
        Some(ParsedTag { name: parts[0].clone(), arguments, closing, preserve_whitespace })
    }
}

fn check_closes_later(input: &Vec<char>, cursor: usize, name: &str) -> (r: bool)
    requires
        cursor <= input@.len(),
    ensures
        r == closes_later(input@, cursor as int, name@),
{
    let rest = from_range(input, cursor, input.len());
    proof {
        assert(input@.subrange(cursor as int, input@.len() as int) =~= input@.skip(
            cursor as int,
        ));
    }
    let lower = lowercase(rest.as_str());
    let mut literal = "{{/".to_owned();
    literal.push_str(lowercase(name).as_str());
    literal.push_str("}}");
    let text = to_chars(lower.as_str());
    let needle = to_chars(literal.as_str());
    proof {
        reveal_strlit("{{/");
        lemma_first_occurrence(text@, needle@, 0);
        let at = first_occurrence(text@, needle@, 0);
        if at < text@.len() {
            assert(occurs_at(text@, needle@, at));
        }
    }
    let at: usize = find_from(&text, &needle, 0);
    at < text.len()
}

/// A closing tag that was found.
pub struct FoundClose {
    pub start: usize,
    pub end: usize,
    pub otherwise: Option<(usize, usize)>,
}

/// Where a found closing tag stands.
pub open spec fn close_view(found: FoundClose) -> Close {
    Close::At {
        start: found.start as int,
        end: found.end as int,
        otherwise: range_view(found.otherwise),
    }
}

/// A range of positions.
pub open spec fn range_view(range: Option<(usize, usize)>) -> Option<(int, int)> {
    match range {
        Some((a, b)) => Some((a as int, b as int)),
        None => None,
    }
}

/// Finds where the body of a tag named `name` ends that goes on at `from`. An
/// empty tag on the way is an error.
pub fn find_close(input: &Vec<char>, from: usize, name: &str) -> (r: Result<
    Option<FoundClose>,
    (),
>)
    requires
        from <= input@.len(),
    ensures
        match r {
            Ok(Some(found)) => matching_close(input@, from as int, name@, 0, None) == close_view(
                found,
            ),
            Ok(None) => matching_close(input@, from as int, name@, 0, None) == Close::Missing,
            Err(_) => matching_close(input@, from as int, name@, 0, None) == Close::EmptyTag,
        },
{
    let mut cursor: usize = from;
    let mut depth: usize = 0;
    let mut otherwise: Option<(usize, usize)> = None;
    let for_if = same_ignoring_case(name, "if");
    loop
        invariant
            from <= cursor <= input@.len(),
            depth <= cursor,
            for_if == same_name(name@, "if"@),
            matching_close(input@, from as int, name@, 0, None) == matching_close(
                input@,
                cursor as int,
                name@,
                depth as int,
                range_view(otherwise),
            ),
        decreases input@.len() - cursor,
    {
        let start: usize = find_open(input, cursor);
        if start >= input.len() {
            return Ok(None);
        }
        let end: usize = match find_end(input, start) {
            Some(end) => end,
            None => {
                return Ok(None);
            },
        };
        let tag = match ParsedTag::parse(input, start + 2, end - 2) {
            Some(tag) => tag,
            None => {
                return Err(());
            },
        };
        if same_ignoring_case(tag.name.as_str(), name) {
            if tag.closing {
                if depth == 0 {
                    return Ok(Some(FoundClose { start, end, otherwise }));
                }
                depth = depth - 1;
            } else if check_closes_later(input, end, tag.name.as_str()) {
                depth = depth + 1;
            }
        } else if for_if && same_ignoring_case(tag.name.as_str(), "else") && !tag.closing && depth
            == 0 {
            otherwise = Some((start, end));
        }
        cursor = end;
    }
}

} // verus!
