//! What expressions on variables do, operator by operator.
use vstd::prelude::*;

use crate::macros::effects::{
    law_numerals_are_read_as_written, leaves_global, leaves_local, lemma_numeral_is_not_empty,
    lemma_set_then_removed,
};
use crate::macros::evaluate::{
    applied, Evaluated, expression_name, expression_value, holds_operator, MacroContext, Machine,
    Operator, operator_of, truthy,
};
use crate::macros::replies::{Replies, signed_decimal};
use crate::state::VariableScope;
use crate::text::{
    begins_with, contains, first_occurrence, lemma_first_occurrence, occurs_at, trimmed,
};

verus! {

/// A character that an operator may hold.
pub open spec fn is_sign(c: char) -> bool {
    c == '?' || c == '|' || c == '+' || c == '-' || c == '=' || c == '!' || c == '>' || c == '<'
}

/// A text holds no character of an operator.
pub open spec fn is_free_of_signs(text: Seq<char>) -> bool {
    forall|i: int| 0 <= i < text.len() ==> !is_sign(#[trigger] text[i])
}

/// An expression on a variable of the session stands behind a dot, one on a variable
/// of all sessions behind a dollar sign.
pub open spec fn marked(scope: VariableScope, expression: Seq<char>) -> Seq<char> {
    match scope {
        VariableScope::Local => seq!['.'] + expression,
        VariableScope::Global => seq!['$'] + expression,
    }
}

/// What a variable holds, if it is there.
pub open spec fn held_by(machine: Machine, scope: VariableScope, name: Seq<char>) -> Option<
    Seq<char>,
> {
    match scope {
        VariableScope::Local => if machine.variables.local.contains_key(name) {
            Some(machine.variables.local[name].raw_value)
        } else {
            None
        },
        VariableScope::Global => if machine.variables.global.contains_key(name) {
            Some(machine.variables.global[name].raw_value)
        } else {
            None
        },
    }
}

/// An expression leaves a variable at a value, puts a text out, and changes nothing
/// else.
pub open spec fn leaves(
    outcome: Evaluated,
    before: Machine,
    scope: VariableScope,
    name: Seq<char>,
    value: Seq<char>,
    text: Seq<char>,
) -> bool {
    match scope {
        VariableScope::Local => leaves_local(outcome, before, name, value, text),
        VariableScope::Global => leaves_global(outcome, before, name, value, text),
    }
}

proof fn lemma_signs_of(operator: Operator)
    ensures
        forall|i: int|
            0 <= i < operator.symbol().len() ==> is_sign(#[trigger] operator.symbol()[i]),
        operator != Operator::Read ==> operator.symbol().len() > 0,
{
    lemma_symbols();
}

proof fn lemma_symbols()
    ensures
        Operator::NullishAssign.symbol() =~= seq!['?', '?', '='],
        Operator::OrAssign.symbol() =~= seq!['|', '|', '='],
        Operator::Add.symbol() =~= seq!['+', '='],
        Operator::Subtract.symbol() =~= seq!['-', '='],
        Operator::Equal.symbol() =~= seq!['=', '='],
        Operator::NotEqual.symbol() =~= seq!['!', '='],
        Operator::AtLeast.symbol() =~= seq!['>', '='],
        Operator::AtMost.symbol() =~= seq!['<', '='],
        Operator::Increment.symbol() =~= seq!['+', '+'],
        Operator::Decrement.symbol() =~= seq!['-', '-'],
        Operator::Greater.symbol() =~= seq!['>'],
        Operator::Less.symbol() =~= seq!['<'],
        Operator::Assign.symbol() =~= seq!['='],
        Operator::Nullish.symbol() =~= seq!['?', '?'],
        Operator::Or.symbol() =~= seq!['|', '|'],
        Operator::Read.symbol() =~= Seq::<char>::empty(),
{
    reveal_strlit("??=");
    reveal_strlit("||=");
    reveal_strlit("+=");
    reveal_strlit("-=");
    reveal_strlit("==");
    reveal_strlit("!=");
    reveal_strlit(">=");
    reveal_strlit("<=");
    reveal_strlit("++");
    reveal_strlit("--");
    reveal_strlit(">");
    reveal_strlit("<");
    reveal_strlit("=");
    reveal_strlit("??");
    reveal_strlit("||");
    reveal_strlit("");
}

/// An operator can only stand in an expression where its signs do.
proof fn lemma_only_within(
    name: Seq<char>,
    symbol: Seq<char>,
    value: Seq<char>,
    other: Operator,
)
    requires
        is_free_of_signs(name),
        is_free_of_signs(value),
        other != Operator::Read,
        holds_operator(name + symbol + value, other),
    ensures
        contains(symbol, other.symbol()),
{
    let text = name + symbol + value;
    let needle = other.symbol();
    lemma_signs_of(other);
    lemma_first_occurrence(text, needle, 0);
    let at = first_occurrence(text, needle, 0);
    assert(occurs_at(text, needle, at));
    let from = name.len() as int;
    assert(text[at] == needle[0]) by {
        assert(text.subrange(at, at + needle.len())[0] == text[at]);
    }
    let last = at + needle.len() - 1;
    assert(text[last] == needle[needle.len() - 1]) by {
        assert(text.subrange(at, at + needle.len())[needle.len() - 1] == text[last]);
    }
    if at < from {
        assert(text[at] == name[at]);
    }
    if at >= from + symbol.len() {
        assert(text[at] == value[at - from - symbol.len()]);
    }
    if last >= from + symbol.len() {
        assert(text[last] == value[last - from - symbol.len()]);
    }
    assert(symbol.subrange(at - from, at - from + needle.len()) =~= text.subrange(
        at,
        at + needle.len(),
    ));
    assert(occurs_at(symbol, needle, at - from));
}

proof fn lemma_within(symbol: Seq<char>, other: Seq<char>)
    requires
        contains(symbol, other),
        other.len() > 0,
    ensures
        other.len() <= symbol.len(),
        other.len() == symbol.len() ==> other == symbol,
        symbol.contains(other[0]),
{
    let at = choose|at: int| occurs_at(symbol, other, at);
    assert(symbol.subrange(at, at + other.len())[0] == symbol[at]);
    if other.len() == symbol.len() {
        assert(symbol.subrange(at, at + other.len()) =~= symbol);
    }
}

proof fn lemma_no_other(
    name: Seq<char>,
    operator: Operator,
    value: Seq<char>,
    other: Operator,
)
    requires
        is_free_of_signs(name),
        is_free_of_signs(value),
        other != Operator::Read,
        other.symbol().len() > operator.symbol().len() || (other.symbol().len()
            == operator.symbol().len() && other.symbol() != operator.symbol())
            || !operator.symbol().contains(other.symbol()[0]),
    ensures
        !holds_operator(name + operator.symbol() + value, other),
{
    lemma_signs_of(other);
    if holds_operator(name + operator.symbol() + value, other) {
        lemma_only_within(name, operator.symbol(), value, other);
        lemma_within(operator.symbol(), other.symbol());
    }
}

proof fn lemma_own_place(name: Seq<char>, operator: Operator, value: Seq<char>)
    requires
        is_free_of_signs(name),
        operator != Operator::Read,
    ensures
        first_occurrence(name + operator.symbol() + value, operator.symbol(), 0) == name.len(),
        (name + operator.symbol() + value).take(name.len() as int) == name,
        (name + operator.symbol() + value).skip((name.len() + operator.symbol().len()) as int)
            == value,
{
    let symbol = operator.symbol();
    let text = name + symbol + value;
    lemma_signs_of(operator);
    lemma_first_occurrence(text, symbol, 0);
    let at = first_occurrence(text, symbol, 0);
    assert(text.subrange(name.len() as int, (name.len() + symbol.len()) as int) =~= symbol);
    assert(occurs_at(text, symbol, name.len() as int));
    if at < name.len() {
        assert(text.subrange(at, at + symbol.len())[0] == text[at]);
        assert(text[at] == name[at]);
    }
    assert(text.take(name.len() as int) =~= name);
    assert(text.skip((name.len() + symbol.len()) as int) =~= value);
}

/// An expression is told by the operator that stands between its name and its value.
#[verifier::rlimit(40)]
proof fn lemma_operator(name: Seq<char>, operator: Operator, value: Seq<char>)
    requires
        is_free_of_signs(name),
        is_free_of_signs(value),
        operator != Operator::Read,
    ensures
        operator_of(name + operator.symbol() + value) == operator,
        expression_name(name + operator.symbol() + value) == trimmed(name),
        expression_value(name + operator.symbol() + value) == trimmed(value),
{
    lemma_symbols();
    lemma_own_place(name, operator, value);
    let o = operator;
    if o != Operator::NullishAssign {
        lemma_no_other(name, o, value, Operator::NullishAssign);
        if o != Operator::OrAssign {
            lemma_no_other(name, o, value, Operator::OrAssign);
            if o != Operator::Add {
                lemma_no_other(name, o, value, Operator::Add);
                if o != Operator::Subtract {
                    lemma_no_other(name, o, value, Operator::Subtract);
                    if o != Operator::Equal {
                        lemma_no_other(name, o, value, Operator::Equal);
                        if o != Operator::NotEqual {
                            lemma_no_other(name, o, value, Operator::NotEqual);
                            if o != Operator::AtLeast {
                                lemma_no_other(name, o, value, Operator::AtLeast);
                                if o != Operator::AtMost {
                                    lemma_no_other(name, o, value, Operator::AtMost);
                                    lemma_later_operator(name, o, value);
                                }
                            }
                        }
                    }
                }
            }
        }
    }
}

proof fn lemma_later_operator(name: Seq<char>, operator: Operator, value: Seq<char>)
    requires
        is_free_of_signs(name),
        is_free_of_signs(value),
        operator == Operator::Increment || operator == Operator::Decrement || operator
            == Operator::Greater || operator == Operator::Less || operator == Operator::Assign
            || operator == Operator::Nullish || operator == Operator::Or,
    ensures
        operator != Operator::Increment ==> !holds_operator(
            name + operator.symbol() + value,
            Operator::Increment,
        ),
        operator != Operator::Increment && operator != Operator::Decrement ==> !holds_operator(
            name + operator.symbol() + value,
            Operator::Decrement,
        ),
        operator == Operator::Less || operator == Operator::Assign || operator == Operator::Nullish
            || operator == Operator::Or ==> !holds_operator(
            name + operator.symbol() + value,
            Operator::Greater,
        ),
        operator == Operator::Assign || operator == Operator::Nullish || operator == Operator::Or
            ==> !holds_operator(name + operator.symbol() + value, Operator::Less),
        operator == Operator::Nullish || operator == Operator::Or ==> !holds_operator(
            name + operator.symbol() + value,
            Operator::Assign,
        ),
        operator == Operator::Or ==> !holds_operator(
            name + operator.symbol() + value,
            Operator::Nullish,
        ),
{
    lemma_symbols();
    let o = operator;
    if o != Operator::Increment {
        lemma_no_other(name, o, value, Operator::Increment);
        if o != Operator::Decrement {
            lemma_no_other(name, o, value, Operator::Decrement);
            if o != Operator::Greater {
                lemma_no_other(name, o, value, Operator::Greater);
                if o != Operator::Less {
                    lemma_no_other(name, o, value, Operator::Less);
                    if o != Operator::Assign {
                        lemma_no_other(name, o, value, Operator::Assign);
                        if o != Operator::Nullish {
                            lemma_no_other(name, o, value, Operator::Nullish);
                        }
                    }
                }
            }
        }
    }
}

proof fn lemma_marked(scope: VariableScope, expression: Seq<char>)
    ensures
        marked(scope, expression).drop_first() == expression,
        marked(scope, expression)[0] == match scope {
            VariableScope::Local => '.',
            VariableScope::Global => '$',
        },
        !begins_with(marked(scope, expression), "//"@),
{
    reveal_strlit("//");
    assert(marked(scope, expression).drop_first() =~= expression);
    if begins_with(marked(scope, expression), "//"@) {
        assert(marked(scope, expression).take(2)[0] == marked(scope, expression)[0]);
    }
}

/// Setting a variable leaves it at what stands behind the equals sign, and puts
/// nothing out.
pub proof fn law_equals_sets(
    scope: VariableScope,
    name: Seq<char>,
    value: Seq<char>,
    written: Seq<char>,
    source: Seq<char>,
    context: MacroContext,
    replies: Replies,
    machine: Machine,
)
    requires
        is_free_of_signs(name),
        is_free_of_signs(value),
    ensures
        leaves(
            applied(
                marked(scope, name + "="@ + value),
                written,
                Seq::empty(),
                source,
                context,
                replies,
                machine,
            ),
            machine,
            scope,
            trimmed(name),
            trimmed(value),
            Seq::empty(),
        ),
{
    lemma_operator(name, Operator::Assign, value);
    lemma_marked(scope, name + "="@ + value);
    lemma_set_then_removed(machine, trimmed(name));
}

/// A variable that holds an integer is counted up by a double plus and down by a
/// double minus, and what it then holds is put out.
pub proof fn law_double_signs_count(
    scope: VariableScope,
    name: Seq<char>,
    written: Seq<char>,
    source: Seq<char>,
    context: MacroContext,
    replies: Replies,
    machine: Machine,
    n: int,
)
    requires
        is_free_of_signs(name),
        -1000000000000000 < n < 1000000000000000,
        held_by(machine, scope, trimmed(name)) == Some(signed_decimal(n)),
    ensures
        leaves(
            applied(
                marked(scope, name + "++"@),
                written,
                Seq::empty(),
                source,
                context,
                replies,
                machine,
            ),
            machine,
            scope,
            trimmed(name),
            signed_decimal(n + 1),
            signed_decimal(n + 1),
        ),
        leaves(
            applied(
                marked(scope, name + "--"@),
                written,
                Seq::empty(),
                source,
                context,
                replies,
                machine,
            ),
            machine,
            scope,
            trimmed(name),
            signed_decimal(n - 1),
            signed_decimal(n - 1),
        ),
{
    let nothing = Seq::<char>::empty();
    law_numerals_are_read_as_written(n);
    lemma_operator(name, Operator::Increment, nothing);
    lemma_operator(name, Operator::Decrement, nothing);
    assert(name + "++"@ + nothing =~= name + "++"@);
    assert(name + "--"@ + nothing =~= name + "--"@);
    lemma_marked(scope, name + "++"@);
    lemma_marked(scope, name + "--"@);
    lemma_set_then_removed(machine, trimmed(name));
}

/// A variable that holds an integer is left at its sum with another, or at their
/// difference, and nothing is put out.
pub proof fn law_signed_equals_adds(
    scope: VariableScope,
    name: Seq<char>,
    value: Seq<char>,
    written: Seq<char>,
    source: Seq<char>,
    context: MacroContext,
    replies: Replies,
    machine: Machine,
    n: int,
    m: int,
)
    requires
        is_free_of_signs(name),
        is_free_of_signs(value),
        -1000000000000000 < n < 1000000000000000,
        0 < m < 1000000000000000,
        trimmed(value) == signed_decimal(m),
        held_by(machine, scope, trimmed(name)) == Some(signed_decimal(n)),
    ensures
        leaves(
            applied(
                marked(scope, name + "+="@ + value),
                written,
                Seq::empty(),
                source,
                context,
                replies,
                machine,
            ),
            machine,
            scope,
            trimmed(name),
            signed_decimal(n + m),
            Seq::empty(),
        ),
        leaves(
            applied(
                marked(scope, name + "-="@ + value),
                written,
                Seq::empty(),
                source,
                context,
                replies,
                machine,
            ),
            machine,
            scope,
            trimmed(name),
            signed_decimal(n - m),
            Seq::empty(),
        ),
{
    law_numerals_are_read_as_written(n);
    law_numerals_are_read_as_written(m);
    law_numerals_are_read_as_written(-m);
    lemma_numeral_is_not_empty(m);
    lemma_operator(name, Operator::Add, value);
    lemma_operator(name, Operator::Subtract, value);
    lemma_marked(scope, name + "+="@ + value);
    lemma_marked(scope, name + "-="@ + value);
    lemma_set_then_removed(machine, trimmed(name));
}

/// The text of a truth value.
pub open spec fn told(flag: bool) -> Seq<char> {
    if flag {
        "true"@
    } else {
        "false"@
    }
}

/// Whether a variable equals a text is told letter for letter, a variable that is not
/// there counting as nothing. Nothing changes.
pub proof fn law_equality_is_told(
    scope: VariableScope,
    name: Seq<char>,
    value: Seq<char>,
    written: Seq<char>,
    source: Seq<char>,
    context: MacroContext,
    replies: Replies,
    machine: Machine,
)
    requires
        is_free_of_signs(name),
        is_free_of_signs(value),
    ensures
        ({
            let current = match held_by(machine, scope, trimmed(name)) {
                Some(text) => text,
                None => Seq::empty(),
            };
            &&& applied(
                marked(scope, name + "=="@ + value),
                written,
                Seq::empty(),
                source,
                context,
                replies,
                machine,
            ) == Evaluated::Output(told(current == trimmed(value)), machine)
            &&& applied(
                marked(scope, name + "!="@ + value),
                written,
                Seq::empty(),
                source,
                context,
                replies,
                machine,
            ) == Evaluated::Output(told(current != trimmed(value)), machine)
        }),
{
    lemma_operator(name, Operator::Equal, value);
    lemma_operator(name, Operator::NotEqual, value);
    lemma_marked(scope, name + "=="@ + value);
    lemma_marked(scope, name + "!="@ + value);
}

/// A variable that holds an integer is compared with another as integers are. Nothing
/// changes.
pub proof fn law_integers_are_compared(
    scope: VariableScope,
    name: Seq<char>,
    value: Seq<char>,
    written: Seq<char>,
    source: Seq<char>,
    context: MacroContext,
    replies: Replies,
    machine: Machine,
    n: int,
    m: int,
)
    requires
        is_free_of_signs(name),
        is_free_of_signs(value),
        -1000000000000000 < n < 1000000000000000,
        0 <= m < 1000000000000000,
        trimmed(value) == signed_decimal(m),
        held_by(machine, scope, trimmed(name)) == Some(signed_decimal(n)),
    ensures
        applied(
            marked(scope, name + ">"@ + value),
            written,
            Seq::empty(),
            source,
            context,
            replies,
            machine,
        ) == Evaluated::Output(told(n > m), machine),
        applied(
            marked(scope, name + "<"@ + value),
            written,
            Seq::empty(),
            source,
            context,
            replies,
            machine,
        ) == Evaluated::Output(told(n < m), machine),
        applied(
            marked(scope, name + ">="@ + value),
            written,
            Seq::empty(),
            source,
            context,
            replies,
            machine,
        ) == Evaluated::Output(told(n >= m), machine),
        applied(
            marked(scope, name + "<="@ + value),
            written,
            Seq::empty(),
            source,
            context,
            replies,
            machine,
        ) == Evaluated::Output(told(n <= m), machine),
{
    law_numerals_are_read_as_written(n);
    law_numerals_are_read_as_written(m);
    lemma_numeral_is_not_empty(n);
    lemma_numeral_is_not_empty(m);
    lemma_operator(name, Operator::Greater, value);
    lemma_operator(name, Operator::Less, value);
    lemma_operator(name, Operator::AtLeast, value);
    lemma_operator(name, Operator::AtMost, value);
    lemma_marked(scope, name + ">"@ + value);
    lemma_marked(scope, name + "<"@ + value);
    lemma_marked(scope, name + ">="@ + value);
    lemma_marked(scope, name + "<="@ + value);
}

/// A value stands in for a variable that is not there, and with an equals sign behind
/// the operator the variable is set to it. A variable that is there is put out, and
/// nothing changes.
pub proof fn law_values_stand_in_for_what_is_missing(
    scope: VariableScope,
    name: Seq<char>,
    value: Seq<char>,
    written: Seq<char>,
    source: Seq<char>,
    context: MacroContext,
    replies: Replies,
    machine: Machine,
)
    requires
        is_free_of_signs(name),
        is_free_of_signs(value),
    ensures
        ({
            let offered = applied(
                marked(scope, name + "??"@ + value),
                written,
                Seq::empty(),
                source,
                context,
                replies,
                machine,
            );
            let assigned = applied(
                marked(scope, name + "??="@ + value),
                written,
                Seq::empty(),
                source,
                context,
                replies,
                machine,
            );
            match held_by(machine, scope, trimmed(name)) {
                Some(text) => {
                    &&& offered == Evaluated::Output(text, machine)
                    &&& assigned == Evaluated::Output(text, machine)
                },
                None => {
                    &&& offered == Evaluated::Output(trimmed(value), machine)
                    &&& leaves(
                        assigned,
                        machine,
                        scope,
                        trimmed(name),
                        trimmed(value),
                        trimmed(value),
                    )
                },
            }
        }),
{
    lemma_operator(name, Operator::Nullish, value);
    lemma_operator(name, Operator::NullishAssign, value);
    lemma_marked(scope, name + "??"@ + value);
    lemma_marked(scope, name + "??="@ + value);
    lemma_set_then_removed(machine, trimmed(name));
}

/// Nothing, zero, and the words for false and off, in capitals or not, count as
/// false; every other text counts as true.
pub proof fn law_falsehoods(text: Seq<char>)
    ensures
        text.len() == 0 ==> !truthy(text),
        text.len() == 1 ==> (truthy(text) <==> text[0] != '0'),
        text.len() == 2 || text.len() == 4 || text.len() > 5 ==> truthy(text),
        text.len() == 3 ==> (truthy(text) <==> !((text[0] == 'o' || text[0] == 'O') && (text[1]
            == 'f' || text[1] == 'F') && (text[2] == 'f' || text[2] == 'F'))),
        text.len() == 5 ==> (truthy(text) <==> !((text[0] == 'f' || text[0] == 'F') && (text[1]
            == 'a' || text[1] == 'A') && (text[2] == 'l' || text[2] == 'L') && (text[3] == 's'
            || text[3] == 'S') && (text[4] == 'e' || text[4] == 'E'))),
{
    reveal_strlit("0");
    reveal_strlit("false");
    reveal_strlit("off");
    let lower = crate::text::ascii_lower_text(text);
    let no = crate::text::ascii_lower_text("false"@);
    let off = crate::text::ascii_lower_text("off"@);
    assert(lower.len() == text.len());
    assert(no.len() == 5 && off.len() == 3);
    if text.len() == 1 {
        if text[0] == '0' {
            assert(text =~= "0"@);
        }
    }
    if text.len() == 3 {
        lemma_letter(text[0], 'o', 'O');
        lemma_letter(text[1], 'f', 'F');
        lemma_letter(text[2], 'f', 'F');
        assert(off =~= seq!['o', 'f', 'f']) by {
            lemma_letter('o', 'o', 'O');
            lemma_letter('f', 'f', 'F');
        }
        if lower[0] == 'o' && lower[1] == 'f' && lower[2] == 'f' {
            assert(lower =~= off);
        }
    }
    if text.len() == 5 {
        lemma_letter(text[0], 'f', 'F');
        lemma_letter(text[1], 'a', 'A');
        lemma_letter(text[2], 'l', 'L');
        lemma_letter(text[3], 's', 'S');
        lemma_letter(text[4], 'e', 'E');
        assert(no =~= seq!['f', 'a', 'l', 's', 'e']) by {
            lemma_letter('f', 'f', 'F');
            lemma_letter('a', 'a', 'A');
            lemma_letter('l', 'l', 'L');
            lemma_letter('s', 's', 'S');
            lemma_letter('e', 'e', 'E');
        }
        if lower[0] == 'f' && lower[1] == 'a' && lower[2] == 'l' && lower[3] == 's' && lower[4]
            == 'e' {
            assert(lower =~= no);
        }
    }
}

proof fn lemma_letter(c: char, small: char, capital: char)
    requires
        'a' as u32 <= small as u32 <= 'z' as u32,
        capital as u32 == small as u32 - 32,
    ensures
        crate::text::ascii_lower(c) == small <==> c == small || c == capital,
{
    let code: u32 = c as u32;
    if 65 <= code <= 90 {
        let lower: u32 = (code + 32) as u32;
        assert(crate::text::ascii_lower(c) as u32 == lower);
        if lower == small as u32 {
            assert(code == capital as u32);
            lemma_same_char(c, capital);
        }
        if crate::text::ascii_lower(c) == small {
            assert(lower == small as u32);
        }
        if c == capital {
            lemma_same_char(crate::text::ascii_lower(c), small);
        }
    }
}

proof fn lemma_same_char(a: char, b: char)
    requires
        a as u32 == b as u32,
    ensures
        a == b,
{
}

/// A value stands in for a variable that is not there or counts as false, and with an
/// equals sign behind the operator the variable is set to it. A variable that counts
/// as true is put out, and nothing changes.
pub proof fn law_values_stand_in_for_what_is_false(
    scope: VariableScope,
    name: Seq<char>,
    value: Seq<char>,
    written: Seq<char>,
    source: Seq<char>,
    context: MacroContext,
    replies: Replies,
    machine: Machine,
)
    requires
        is_free_of_signs(name),
        is_free_of_signs(value),
    ensures
        ({
            let offered = applied(
                marked(scope, name + "||"@ + value),
                written,
                Seq::empty(),
                source,
                context,
                replies,
                machine,
            );
            let assigned = applied(
                marked(scope, name + "||="@ + value),
                written,
                Seq::empty(),
                source,
                context,
                replies,
                machine,
            );
            let current = held_by(machine, scope, trimmed(name));
            if current is Some && truthy(current->0) {
                &&& offered == Evaluated::Output(current->0, machine)
                &&& assigned == Evaluated::Output(current->0, machine)
            } else {
                &&& offered == Evaluated::Output(trimmed(value), machine)
                &&& leaves(
                    assigned,
                    machine,
                    scope,
                    trimmed(name),
                    trimmed(value),
                    trimmed(value),
                )
            }
        }),
{
    lemma_operator(name, Operator::Or, value);
    lemma_operator(name, Operator::OrAssign, value);
    lemma_marked(scope, name + "||"@ + value);
    lemma_marked(scope, name + "||="@ + value);
    lemma_set_then_removed(machine, trimmed(name));
}

/// A variable alone is put out as it is, or as nothing where it is not there. Nothing
/// changes.
pub proof fn law_names_alone_read(
    scope: VariableScope,
    name: Seq<char>,
    written: Seq<char>,
    source: Seq<char>,
    context: MacroContext,
    replies: Replies,
    machine: Machine,
)
    requires
        is_free_of_signs(name),
    ensures
        applied(
            marked(scope, name),
            written,
            Seq::empty(),
            source,
            context,
            replies,
            machine,
        ) == Evaluated::Output(
            match held_by(machine, scope, trimmed(name)) {
                Some(text) => text,
                None => Seq::empty(),
            },
            machine,
        ),
{
    lemma_marked(scope, name);
    lemma_symbols();
    let nothing = Seq::<char>::empty();
    assert(name + nothing + nothing =~= name);
    assert(Operator::Read.symbol() =~= nothing);
    lemma_no_other(name, Operator::Read, nothing, Operator::NullishAssign);
    lemma_no_other(name, Operator::Read, nothing, Operator::OrAssign);
    lemma_no_other(name, Operator::Read, nothing, Operator::Add);
    lemma_no_other(name, Operator::Read, nothing, Operator::Subtract);
    lemma_no_other(name, Operator::Read, nothing, Operator::Equal);
    lemma_no_other(name, Operator::Read, nothing, Operator::NotEqual);
    lemma_no_other(name, Operator::Read, nothing, Operator::AtLeast);
    lemma_no_other(name, Operator::Read, nothing, Operator::AtMost);
    lemma_no_other(name, Operator::Read, nothing, Operator::Increment);
    lemma_no_other(name, Operator::Read, nothing, Operator::Decrement);
    lemma_no_other(name, Operator::Read, nothing, Operator::Greater);
    lemma_no_other(name, Operator::Read, nothing, Operator::Less);
    lemma_no_other(name, Operator::Read, nothing, Operator::Assign);
    lemma_no_other(name, Operator::Read, nothing, Operator::Nullish);
    lemma_no_other(name, Operator::Read, nothing, Operator::Or);
}

} // verus!
