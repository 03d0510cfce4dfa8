//! What macros of chance, of conditions and of plain text do.
use vstd::prelude::*;

use crate::assoc;
use crate::macros::effects::{lemma_decimal, lemma_digit};
use crate::macros::evaluate::{
    applied, choice_list, dice_total, Evaluated, Fault, is_context_value, MacroContext, Machine,
    parsed_dice, pick_seed, pieces_from, plain_applied, random_after, split_at_char, truthy,
    variable_applied,
};
use crate::macros::replies::{behind_sign, digit_value, numeral_value, Replies, signed_decimal};
use crate::macros::shorthand_laws::{held_by, marked};
use crate::macros::syntax::{char_index, lemma_char_index, opens_with};
use crate::state::VariableScope;
use crate::text::{
    begins_with, contains, decimal, first_occurrence, lemma_first_occurrence, lowercase_of,
    occurs_at, replaced, replaced_from, trim_back, trim_front, trimmed, white,
};

verus! {

/// A text neither starts nor ends with white space.
pub open spec fn is_trim(text: Seq<char>) -> bool {
    text.len() > 0 ==> !white(text[0]) && !white(text.last())
}

/// A text without white space around it stays as it is.
pub proof fn lemma_trim_stays(text: Seq<char>)
    requires
        is_trim(text),
    ensures
        trimmed(text) == text,
        trim_front(text) == text,
{
}

proof fn lemma_trim_front(text: Seq<char>) -> (from: int)
    ensures
        0 <= from <= text.len(),
        trim_front(text) == text.skip(from),
        forall|i: int| 0 <= i < from ==> white(#[trigger] text[i]),
        from < text.len() ==> !white(text[from]),
    decreases text.len(),
{
    if text.len() > 0 && white(text[0]) {
        let rest = lemma_trim_front(text.drop_first());
        assert(text.drop_first().skip(rest) =~= text.skip(rest + 1));
        assert forall|i: int| 0 <= i < rest + 1 implies white(#[trigger] text[i]) by {
            if i > 0 {
                assert(text.drop_first()[i - 1] == text[i]);
            }
        }
        rest + 1
    } else {
        assert(text.skip(0) =~= text);
        0
    }
}

proof fn lemma_trim_back(text: Seq<char>) -> (to: int)
    ensures
        0 <= to <= text.len(),
        trim_back(text) == text.take(to),
        forall|i: int| to <= i < text.len() ==> white(#[trigger] text[i]),
        to > 0 ==> !white(text[to - 1]),
    decreases text.len(),
{
    if text.len() > 0 && white(text.last()) {
        let to = lemma_trim_back(text.drop_last());
        assert(text.drop_last().take(to) =~= text.take(to));
        assert forall|i: int| to <= i < text.len() implies white(#[trigger] text[i]) by {
            if i < text.len() - 1 {
                assert(text.drop_last()[i] == text[i]);
            }
        }
        if to > 0 {
            assert(text.drop_last()[to - 1] == text[to - 1]);
        }
        to
    } else {
        assert(text.take(text.len() as int) =~= text);
        text.len() as int
    }
}

/// A text stands within another between white space, and neither starts nor ends with
/// any.
pub open spec fn is_what_white_space_surrounds(inner: Seq<char>, text: Seq<char>) -> bool {
    exists|from: int, to: int|
        {
            &&& 0 <= from <= to <= text.len()
            &&& inner == #[trigger] text.subrange(from, to)
            &&& is_trim(inner)
            &&& forall|i: int| 0 <= i < from ==> white(#[trigger] text[i])
            &&& forall|i: int| to <= i < text.len() ==> white(#[trigger] text[i])
        }
}

/// Trimming takes away the white space at either end and nothing else.
pub proof fn law_trimming_takes_only_white_space(text: Seq<char>)
    ensures
        is_what_white_space_surrounds(trimmed(text), text),
{
    let from = lemma_trim_front(text);
    let rest = text.skip(from);
    let to = lemma_trim_back(rest);
    assert(rest.take(to) =~= text.subrange(from, from + to));
    assert forall|i: int| from + to <= i < text.len() implies white(#[trigger] text[i]) by {
        assert(rest[i - from] == text[i]);
    }
    if to > 0 {
        assert(rest[0] == text[from]);
        assert(rest[to - 1] == text[from + to - 1]);
    }
}

/// The white spaces that a macro is asked for are put out: so many spaces or lines, one
/// where no number is given, and none where it is more than ten thousand.
pub proof fn law_spaces_are_counted(
    name: Seq<char>,
    arguments: Seq<Seq<char>>,
    source: Seq<char>,
    context: MacroContext,
    replies: Replies,
    machine: Machine,
    n: nat,
)
    requires
        arguments.len() >= 1,
        n <= u64::MAX,
        arguments[0] == decimal(n),
    ensures
        n <= 10000 ==> {
            &&& applied("space"@, name, arguments, source, context, replies, machine)
                == Evaluated::Output(Seq::new(n, |i: int| ' '), machine)
            &&& applied("newline"@, name, arguments, source, context, replies, machine)
                == Evaluated::Output(Seq::new(n, |i: int| '\n'), machine)
        },
        n > 10000 ==> {
            &&& applied("space"@, name, arguments, source, context, replies, machine)
                == Evaluated::Fault(Fault::InvalidCount(decimal(n)), machine)
            &&& applied("newline"@, name, arguments, source, context, replies, machine)
                == Evaluated::Fault(Fault::InvalidCount(decimal(n)), machine)
        },
{
    lemma_decimal(n);
    lemma_numeral(n);
    lemma_text_names();
}

proof fn lemma_numeral(n: nat)
    ensures
        numeral_value(decimal(n), false) == Some(n as int),
        numeral_value(decimal(n), true) == Some(n as int),
{
    lemma_decimal(n);
    assert(behind_sign(decimal(n), false) == decimal(n));
    assert(behind_sign(decimal(n), true) == decimal(n));
}

proof fn lemma_text_names()
    ensures
        "space"@ =~= seq!['s', 'p', 'a', 'c', 'e'],
        "newline"@ =~= seq!['n', 'e', 'w', 'l', 'i', 'n', 'e'],
        "noop"@ =~= seq!['n', 'o', 'o', 'p'],
        "else"@ =~= seq!['e', 'l', 's', 'e'],
        "trim"@ =~= seq!['t', 'r', 'i', 'm'],
        "reverse"@ =~= seq!['r', 'e', 'v', 'e', 'r', 's', 'e'],
        !begins_with("space"@, "//"@),
        !begins_with("newline"@, "//"@),
        !begins_with("noop"@, "//"@),
        !begins_with("else"@, "//"@),
        !begins_with("trim"@, "//"@),
        !begins_with("reverse"@, "//"@),
{
    reveal_strlit("//");
    reveal_strlit("space");
    reveal_strlit("newline");
    reveal_strlit("noop");
    reveal_strlit("else");
    reveal_strlit("trim");
    reveal_strlit("reverse");
    lemma_no_comment("space"@);
    lemma_no_comment("newline"@);
    lemma_no_comment("noop"@);
    lemma_no_comment("else"@);
    lemma_no_comment("trim"@);
    lemma_no_comment("reverse"@);
}

proof fn lemma_no_comment(lower: Seq<char>)
    requires
        lower.len() > 0,
        lower[0] != '/',
    ensures
        !begins_with(lower, "//"@),
{
    reveal_strlit("//");
    if begins_with(lower, "//"@) {
        assert(lower.take(2)[0] == lower[0]);
    }
}

/// A text is put out back to front, or without the white space around it. Macros that
/// do nothing put nothing out, nor do comments. None of them changes anything.
pub proof fn law_plain_macros_change_nothing(
    name: Seq<char>,
    arguments: Seq<Seq<char>>,
    source: Seq<char>,
    context: MacroContext,
    replies: Replies,
    machine: Machine,
    comment: Seq<char>,
)
    requires
        arguments.len() >= 1,
    ensures
        applied("reverse"@, name, arguments, source, context, replies, machine)
            == Evaluated::Output(
            Seq::new(
                arguments[0].len(),
                |i: int| arguments[0][arguments[0].len() - 1 - i],
            ),
            machine,
        ),
        applied("trim"@, name, arguments, source, context, replies, machine) matches
            Evaluated::Output(text, after) && after == machine && is_what_white_space_surrounds(
            text,
            arguments[0],
        ),
        applied("noop"@, name, arguments, source, context, replies, machine)
            == Evaluated::Output(Seq::<char>::empty(), machine),
        applied("else"@, name, arguments, source, context, replies, machine)
            == Evaluated::Output(Seq::<char>::empty(), machine),
        applied(seq!['/', '/'] + comment, name, arguments, source, context, replies, machine)
            == Evaluated::Output(Seq::<char>::empty(), machine),
{
    lemma_text_names();
    law_trimming_takes_only_white_space(arguments[0]);
    assert(arguments[0].reverse() =~= Seq::new(
        arguments[0].len(),
        |i: int| arguments[0][arguments[0].len() - 1 - i],
    ));
    reveal_strlit("//");
    let lower = seq!['/', '/'] + comment;
    assert(lower.take(2) =~= "//"@);
}

proof fn lemma_is_no_other(
    lower: Seq<char>,
    first: Seq<char>,
    second: Seq<char>,
    source: Seq<char>,
    context: MacroContext,
    replies: Replies,
    machine: Machine,
)
    requires
        lower =~= seq!['r', 'a', 'n', 'd', 'o', 'm'] || lower =~= seq!['p', 'i', 'c', 'k'] || lower
            =~= seq!['r', 'o', 'l', 'l'] || lower =~= seq!['i', 'f'] || lower =~= seq![
            'i',
            'n',
            'p',
            'u',
            't',
        ] || lower =~= seq!['b', 'a', 'n', 'n', 'e', 'd'],
    ensures
        !begins_with(lower, "//"@),
        !opens_with(lower, '.'),
        !opens_with(lower, '$'),
        plain_applied(lower, first, context, machine) is None,
        variable_applied(lower, first, second, source, replies, machine) is None,
{
    lemma_no_comment(lower);
    lemma_is_no_value(lower);
    lemma_is_no_variable(lower);
    lemma_text_names();
    reveal_strlit("hasextension");
    reveal_strlit("outlet");
}

proof fn lemma_is_no_variable(lower: Seq<char>)
    requires
        lower.len() > 0,
        lower.last() != 'r',
    ensures
        lower != "setvar"@,
        lower != "setglobalvar"@,
        lower != "addvar"@,
        lower != "addglobalvar"@,
        lower != "incvar"@,
        lower != "incglobalvar"@,
        lower != "decvar"@,
        lower != "decglobalvar"@,
        lower != "getvar"@,
        lower != "getglobalvar"@,
        lower != "hasvar"@,
        lower != "hasglobalvar"@,
        lower != "deletevar"@,
        lower != "deleteglobalvar"@,
{
    reveal_strlit("setvar");
    reveal_strlit("setglobalvar");
    reveal_strlit("addvar");
    reveal_strlit("addglobalvar");
    reveal_strlit("incvar");
    reveal_strlit("incglobalvar");
    reveal_strlit("decvar");
    reveal_strlit("decglobalvar");
    reveal_strlit("getvar");
    reveal_strlit("getglobalvar");
    reveal_strlit("hasvar");
    reveal_strlit("hasglobalvar");
    reveal_strlit("deletevar");
    reveal_strlit("deleteglobalvar");
}

proof fn lemma_is_no_value(lower: Seq<char>)
    requires
        2 <= lower.len() <= 6,
        lower.len() == 4 ==> lower[0] == 'p' || lower[0] == 'r',
        lower.len() == 5 ==> lower[0] == 'i',
    ensures
        !is_context_value(lower),
{
    reveal_strlit("user");
    reveal_strlit("char");
    reveal_strlit("charprompt");
    reveal_strlit("charinstruction");
    reveal_strlit("chardescription");
    reveal_strlit("charpersonality");
    reveal_strlit("charscenario");
    reveal_strlit("description");
    reveal_strlit("personality");
    reveal_strlit("scenario");
    reveal_strlit("persona");
    reveal_strlit("group");
    reveal_strlit("groupnotmuted");
    reveal_strlit("summary");
    reveal_strlit("short_term_memory");
    reveal_strlit("long_term_memory");
    reveal_strlit("mesexamplesraw");
    reveal_strlit("mesexamples");
    reveal_strlit("chardepthprompt");
    reveal_strlit("charcreatornotes");
    reveal_strlit("charfirstmessage");
    reveal_strlit("charversion");
    reveal_strlit("model");
    reveal_strlit("original");
    reveal_strlit("lastmessage");
    reveal_strlit("lastchatmessage");
    reveal_strlit("lastmessageid");
    reveal_strlit("lastusermessage");
    reveal_strlit("lastcharmessage");
    reveal_strlit("firstincludedmessageid");
    reveal_strlit("firstdisplayedmessageid");
    reveal_strlit("lastswipeid");
    reveal_strlit("currentswipeid");
    reveal_strlit("allchatrange");
    reveal_strlit("time");
    reveal_strlit("date");
    reveal_strlit("weekday");
    reveal_strlit("isotime");
    reveal_strlit("isodate");
    reveal_strlit("datetimeformat");
    reveal_strlit("idleduration");
    reveal_strlit("timediff");
    reveal_strlit("lastgenerationtype");
    reveal_strlit("maxprompt");
    reveal_strlit("maxcontext");
    reveal_strlit("maxresponse");
}

/// A choice at random is one of the choices, and nothing changes but the state of
/// chance; a pick is one of the choices, and nothing changes at all.
pub proof fn law_choices_are_among_the_given(
    name: Seq<char>,
    arguments: Seq<Seq<char>>,
    source: Seq<char>,
    context: MacroContext,
    replies: Replies,
    machine: Machine,
)
    requires
        choice_list(arguments).len() > 0,
    ensures
        applied("random"@, name, arguments, source, context, replies, machine) matches
            Evaluated::Output(text, after) && choice_list(arguments).contains(text)
            && after.variables == machine.variables && after.warnings == machine.warnings,
        applied("pick"@, name, arguments, source, context, replies, machine) matches
            Evaluated::Output(text, after) && choice_list(arguments).contains(text) && after
            == machine,
{
    reveal_strlit("random");
    reveal_strlit("pick");
    let first = crate::macros::evaluate::argument(arguments, 0);
    let second = crate::macros::evaluate::argument(arguments, 1);
    lemma_is_no_other("random"@, first, second, source, context, replies, machine);
    lemma_is_no_other("pick"@, first, second, source, context, replies, machine);
    let choices = choice_list(arguments);
    let n = choices.len() as int;
    let random = crate::macros::evaluate::next_random(machine.random) as int;
    assert(0 <= random % n < n) by (nonlinear_arith)
        requires
            n > 0,
    ;
    assert(choices.contains(choices[random % n]));
    let seed = pick_seed(choices);
    assert(0 <= seed % n < n) by (nonlinear_arith)
        requires
            n > 0,
    ;
    assert(choices.contains(choices[seed % n]));
}

/// The choices of a macro with more than one argument are its arguments.
pub proof fn law_arguments_are_choices(arguments: Seq<Seq<char>>)
    requires
        arguments.len() != 1,
    ensures
        choice_list(arguments) == arguments,
{
}

proof fn lemma_pieces(text: Seq<char>, separator: Seq<char>, from: int)
    requires
        0 <= from <= text.len(),
        separator.len() > 0,
    ensures
        pieces_from(text, separator, from).len() > 0,
        joined(pieces_from(text, separator, from), separator) == text.skip(from),
        forall|i: int|
            0 <= i < pieces_from(text, separator, from).len() ==> !contains(
                #[trigger] pieces_from(text, separator, from)[i],
                separator,
            ),
    decreases text.len() - from,
{
    let at = first_occurrence(text, separator, from);
    lemma_first_occurrence(text, separator, from);
    let pieces = pieces_from(text, separator, from);
    if at >= text.len() {
        let piece = text.skip(from);
        if contains(piece, separator) {
            let k = choose|k: int| occurs_at(piece, separator, k);
            assert(text.subrange(from + k, from + k + separator.len()) =~= piece.subrange(
                k,
                k + separator.len(),
            ));
            assert(occurs_at(text, separator, from + k));
        }
        assert(pieces =~= seq![piece]);
    } else {
        let next = at + separator.len();
        lemma_pieces(text, separator, next);
        let rest = pieces_from(text, separator, next);
        let piece = text.subrange(from, at);
        assert(pieces =~= seq![piece] + rest);
        if contains(piece, separator) {
            let k = choose|k: int| occurs_at(piece, separator, k);
            assert(text.subrange(from + k, from + k + separator.len()) =~= piece.subrange(
                k,
                k + separator.len(),
            ));
            assert(occurs_at(text, separator, from + k));
        }
        assert(pieces.drop_first() =~= rest);
        assert(text.skip(from) =~= piece + separator + text.skip(next)) by {
            assert(text.subrange(at, next) =~= separator);
        }
        assert forall|i: int| 0 <= i < pieces.len() implies !contains(
            #[trigger] pieces[i],
            separator,
        ) by {
            if i > 0 {
                assert(pieces[i] == rest[i - 1]);
            }
        }
    }
}

/// Texts one behind the other, with another between each two.
pub open spec fn joined(pieces: Seq<Seq<char>>, separator: Seq<char>) -> Seq<char>
    decreases pieces.len(),
{
    if pieces.len() == 0 {
        Seq::empty()
    } else if pieces.len() == 1 {
        pieces[0]
    } else {
        pieces[0] + separator + joined(pieces.drop_first(), separator)
    }
}

/// The pieces of a text hold no separator, and put together with it they are the text.
pub proof fn law_pieces_make_up_the_text(text: Seq<char>, separator: Seq<char>)
    requires
        separator.len() > 0,
    ensures
        joined(pieces_from(text, separator, 0), separator) == text,
        forall|i: int|
            0 <= i < pieces_from(text, separator, 0).len() ==> !contains(
                #[trigger] pieces_from(text, separator, 0)[i],
                separator,
            ),
{
    lemma_pieces(text, separator, 0);
    assert(text.skip(0) =~= text);
}

/// Replacing a text by another puts the pieces of a text together with that.
pub proof fn law_replacing_joins_the_pieces(
    text: Seq<char>,
    needle: Seq<char>,
    with: Seq<char>,
)
    requires
        needle.len() > 0,
    ensures
        replaced(text, needle, with) == joined(pieces_from(text, needle, 0), with),
{
    lemma_replaced(text, needle, with, 0);
}

proof fn lemma_replaced(text: Seq<char>, needle: Seq<char>, with: Seq<char>, from: int)
    requires
        needle.len() > 0,
        0 <= from <= text.len(),
    ensures
        replaced_from(text, needle, with, from) == joined(pieces_from(text, needle, from), with),
    decreases text.len() - from,
{
    let at = first_occurrence(text, needle, from);
    lemma_first_occurrence(text, needle, from);
    let pieces = pieces_from(text, needle, from);
    if at >= text.len() {
        assert(pieces =~= seq![text.skip(from)]);
    } else {
        let next = at + needle.len();
        lemma_replaced(text, needle, with, next);
        lemma_pieces(text, needle, next);
        let rest = pieces_from(text, needle, next);
        assert(pieces =~= seq![text.subrange(from, at)] + rest);
        assert(pieces.drop_first() =~= rest);
    }
}

proof fn lemma_decimal_chars(n: nat, i: int)
    requires
        0 <= i < decimal(n).len(),
    ensures
        digit_value(decimal(n)[i]) is Some,
    decreases n,
{
    if n < 10 {
        lemma_digit(n);
    } else {
        lemma_digit(n % 10);
        if i < decimal(n / 10).len() {
            lemma_decimal_chars(n / 10, i);
        }
    }
}

proof fn lemma_digits_hold_no(n: nat, c: char)
    requires
        digit_value(c) is None,
    ensures
        !decimal(n).contains(c),
        char_index(decimal(n), c) == decimal(n).len(),
{
    lemma_char_index(decimal(n), c);
    assert forall|i: int| 0 <= i < decimal(n).len() implies #[trigger] decimal(n)[i] != c by {
        lemma_decimal_chars(n, i);
    }
}

proof fn lemma_index_behind(head: Seq<char>, c: char, tail: Seq<char>)
    requires
        !head.contains(c),
    ensures
        char_index(head + seq![c] + tail, c) == head.len(),
        (head + seq![c] + tail).take(head.len() as int) == head,
        (head + seq![c] + tail).skip(head.len() as int + 1) == tail,
{
    let text = head + seq![c] + tail;
    lemma_char_index(text, c);
    let at = char_index(text, c);
    assert(text[head.len() as int] == c);
    if at < head.len() {
        assert(text[at] == head[at]);
        assert(head.contains(head[at]));
    }
    assert(text.take(head.len() as int) =~= head);
    assert(text.skip(head.len() as int + 1) =~= tail);
}

proof fn lemma_is_digit_white(c: char)
    requires
        digit_value(c) is Some,
    ensures
        !white(c),
{
    assert('0' as u32 == 48);
    assert('9' as u32 == 57);
}

proof fn lemma_dice_range(random: u64, count: int, sides: int)
    requires
        0 <= count,
        1 <= sides,
    ensures
        count <= dice_total(random, count, sides) <= count * sides,
    decreases count,
{
    if count > 0 {
        lemma_dice_range(random, count - 1, sides);
        let shown = random_after(random, count) as int % sides + 1;
        assert(1 <= shown <= sides) by (nonlinear_arith)
            requires
                shown == random_after(random, count) as int % sides + 1,
                sides >= 1,
        ;
        assert(count * sides == (count - 1) * sides + sides) by (nonlinear_arith);
    } else {
        assert(count * sides == 0) by (nonlinear_arith)
            requires
                count == 0,
        ;
    }
}

/// Dice written with their number and their sides show at least one each and at most
/// their sides each, and nothing changes but the state of chance. More than a thousand
/// dice, more than a million sides, or none of either cannot be rolled.
pub proof fn law_dice_show_what_they_can(
    name: Seq<char>,
    arguments: Seq<Seq<char>>,
    source: Seq<char>,
    context: MacroContext,
    replies: Replies,
    machine: Machine,
    count: nat,
    sides: nat,
)
    requires
        arguments.len() >= 1,
        arguments[0] == decimal(count) + seq!['d'] + decimal(sides),
    ensures
        1 <= count <= 1000 && 1 <= sides <= 1000000 ==> exists|total: int|
            {
                &&& count <= total <= count * sides
                &&& applied(
                    "roll"@,
                    name,
                    arguments,
                    source,
                    context,
                    replies,
                    machine,
                ) matches Evaluated::Output(text, after)
                &&& text == #[trigger] signed_decimal(total)
                &&& after.variables == machine.variables
                &&& after.warnings == machine.warnings
            },
        !(1 <= count <= 1000 && 1 <= sides <= 1000000) ==> applied(
            "roll"@,
            name,
            arguments,
            source,
            context,
            replies,
            machine,
        ) == Evaluated::Fault(Fault::InvalidRoll(arguments[0]), machine),
{
    reveal_strlit("roll");
    let first = arguments[0];
    let second = crate::macros::evaluate::argument(arguments, 1);
    lemma_is_no_other("roll"@, first, second, source, context, replies, machine);
    reveal_strlit("random");
    reveal_strlit("pick");
    lemma_plain_dice(count, sides);
    if 1 <= count <= 1000 && 1 <= sides <= 1000000 {
        lemma_dice_range(machine.random, count as int, sides as int);
        assert(count * sides <= 1000000000) by (nonlinear_arith)
            requires
                count <= 1000,
                sides <= 1000000,
        ;
        let total = dice_total(machine.random, count as int, sides as int);
        assert(count <= total <= count * sides);
        match applied("roll"@, name, arguments, source, context, replies, machine) {
            Evaluated::Output(text, _) => {
                assert(text == signed_decimal(total));
            },
            _ => {},
        }
    }
}

proof fn lemma_plain_dice(count: nat, sides: nat)
    ensures
        ({
            let text = decimal(count) + seq!['d'] + decimal(sides);
            &&& trimmed(text) == text
            &&& match parsed_dice(text) {
                Some(dice) => 1 <= count <= 1000 && 1 <= sides <= 1000000 && dice.count == count
                    && dice.sides == sides && dice.modifier == 0,
                None => !(1 <= count <= 1000 && 1 <= sides <= 1000000),
            }
        }),
{
    let text = decimal(count) + seq!['d'] + decimal(sides);
    lemma_decimal(count);
    lemma_decimal(sides);
    lemma_numeral(count);
    lemma_numeral(sides);
    assert('0' as u32 == 48 && '9' as u32 == 57 && 'd' as u32 == 100 && '+' as u32 == 43 && '-'
        as u32 == 45);
    lemma_digits_hold_no(count, 'd');
    lemma_digits_hold_no(sides, '+');
    lemma_digits_hold_no(sides, '-');
    lemma_index_behind(decimal(count), 'd', decimal(sides));
    lemma_decimal_chars(count, 0);
    lemma_is_digit_white(decimal(count)[0]);
    let last = decimal(sides).len() - 1;
    lemma_decimal_chars(sides, last);
    lemma_is_digit_white(decimal(sides)[last]);
    assert(text[0] == decimal(count)[0]);
    assert(text.last() == decimal(sides)[last]);
    lemma_trim_stays(text);
    assert(split_at_char(text, 'd') == Some((decimal(count), decimal(sides))));
    assert(split_at_char(decimal(sides), '+') is None);
    assert(split_at_char(decimal(sides), '-') is None);
}

/// A condition puts out what stands behind it where it holds, and nothing where it does
/// not. An exclamation mark turns it round. Nothing changes.
pub proof fn law_conditions_turn_round(
    name: Seq<char>,
    condition: Seq<char>,
    body: Seq<char>,
    source: Seq<char>,
    context: MacroContext,
    replies: Replies,
    machine: Machine,
)
    requires
        is_trim(condition),
        condition.len() > 0,
        condition[0] != '!',
    ensures
        ({
            let plain = applied(
                "if"@,
                name,
                seq![condition, body],
                source,
                context,
                replies,
                machine,
            );
            let turned = applied(
                "if"@,
                name,
                seq![seq!['!'] + condition, body],
                source,
                context,
                replies,
                machine,
            );
            let nothing = Evaluated::Output(Seq::<char>::empty(), machine);
            let something = Evaluated::Output(body, machine);
            &&& plain == something && turned == nothing || plain == nothing && turned == something
        }),
{
    reveal_strlit("if");
    reveal_strlit("random");
    reveal_strlit("pick");
    reveal_strlit("roll");
    let bang = seq!['!'] + condition;
    lemma_is_no_other("if"@, condition, body, source, context, replies, machine);
    lemma_is_no_other("if"@, bang, body, source, context, replies, machine);
    assert('!' as u32 == 33);
    assert(bang.last() == condition.last());
    lemma_trim_stays(condition);
    lemma_trim_stays(bang);
    assert(bang.drop_first() =~= condition);
}

/// A condition on a variable holds where the variable is there and counts as true: one
/// of the session behind a dot, one of all sessions behind a dollar sign.
pub proof fn law_conditions_read_variables(
    scope: VariableScope,
    variable: Seq<char>,
    name: Seq<char>,
    body: Seq<char>,
    source: Seq<char>,
    context: MacroContext,
    replies: Replies,
    machine: Machine,
)
    requires
        variable.len() > 0,
        !white(variable.last()),
    ensures
        applied(
            "if"@,
            name,
            seq![marked(scope, variable), body],
            source,
            context,
            replies,
            machine,
        ) == Evaluated::Output(
            match held_by(machine, scope, variable) {
                Some(text) => if truthy(text) {
                    body
                } else {
                    Seq::empty()
                },
                None => Seq::empty(),
            },
            machine,
        ),
{
    reveal_strlit("if");
    reveal_strlit("random");
    reveal_strlit("pick");
    reveal_strlit("roll");
    let condition = marked(scope, variable);
    lemma_is_no_other("if"@, condition, body, source, context, replies, machine);
    assert('.' as u32 == 46 && '$' as u32 == 36);
    assert(condition.last() == variable.last());
    lemma_trim_stays(condition);
    assert(condition.drop_first() =~= variable);
    assert(!truthy(Seq::<char>::empty()));
}

/// What the context says of the user, the character, the persona and the scenario is
/// put out in the place of their names, and nothing where it says nothing. Nothing
/// changes.
pub proof fn law_names_of_the_context_are_put_out(
    lower: Seq<char>,
    name: Seq<char>,
    arguments: Seq<Seq<char>>,
    source: Seq<char>,
    context: MacroContext,
    replies: Replies,
    machine: Machine,
)
    requires
        lower == "user"@ || lower == "char"@ || lower == "persona"@ || lower == "scenario"@
            || lower == "description"@ || lower == "personality"@,
    ensures
        applied(lower, name, arguments, source, context, replies, machine) == Evaluated::Output(
            match assoc::lookup(context.values@, lowercase_of(lower)) {
                Some(value) => value@,
                None => Seq::empty(),
            },
            machine,
        ),
{
    reveal_strlit("user");
    reveal_strlit("char");
    reveal_strlit("persona");
    reveal_strlit("scenario");
    reveal_strlit("description");
    reveal_strlit("personality");
    lemma_no_comment(lower);
    lemma_text_names();
}

/// Macros that ask the user, ban words or tell of other characters, of the device or of
/// the system prompt are refused, under the name that was written.
pub proof fn law_some_macros_are_refused(
    name: Seq<char>,
    arguments: Seq<Seq<char>>,
    source: Seq<char>,
    context: MacroContext,
    replies: Replies,
    machine: Machine,
)
    ensures
        applied("input"@, name, arguments, source, context, replies, machine)
            == Evaluated::Fault(Fault::HardUnsupported(name), machine),
        applied("banned"@, name, arguments, source, context, replies, machine)
            == Evaluated::Fault(Fault::HardUnsupported(name), machine),
{
    reveal_strlit("input");
    reveal_strlit("banned");
    reveal_strlit("random");
    reveal_strlit("pick");
    reveal_strlit("roll");
    reveal_strlit("if");
    let first = crate::macros::evaluate::argument(arguments, 0);
    let second = crate::macros::evaluate::argument(arguments, 1);
    lemma_is_no_other("input"@, first, second, source, context, replies, machine);
    lemma_is_no_other("banned"@, first, second, source, context, replies, machine);
}

} // verus!
