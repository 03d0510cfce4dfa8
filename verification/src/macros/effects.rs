//! What each macro does, by its name, whatever it is given.
use vstd::prelude::*;

use crate::macros::evaluate::{
    applied, Evaluated, is_context_value, MacroContext, Machine, plain_applied,
};
use crate::macros::replies::{
    behind_sign, digit_value, digits_value, plain_integer, pow10, Replies, signed_decimal,
};
use crate::macros::syntax::opens_with;
use crate::state::CellView;
use crate::text::{begins_with, decimal, digit};

verus! {

/// The character of a digit stands for it.
pub proof fn lemma_digit(d: nat)
    requires
        d < 10,
    ensures
        digit_value(digit(d)) == Some(d as int),
        digit(d) != '-',
        digit(d) != '+',
{
    let code: u32 = (48 + d) as u32;
    assert('0' as u32 == 48);
    assert(digit(d) as u32 == code);
    assert('-' as u32 == 45);
    assert('+' as u32 == 43);
}

/// The digits of a number stand for it.
pub proof fn lemma_decimal(n: nat)
    ensures
        digits_value(decimal(n)) == Some(n as int),
        decimal(n).len() > 0,
        decimal(n)[0] != '-',
        decimal(n)[0] != '+',
        forall|k: nat| n < #[trigger] pow10(k) && k > 0 ==> decimal(n).len() <= k,
    decreases n,
{
    if n < 10 {
        lemma_digit(n);
        let text = seq![digit(n)];
        assert(text.drop_last() =~= Seq::<char>::empty());
        assert(digits_value(text.drop_last()) == Some(0int));
        assert(text.last() == digit(n));
    } else {
        lemma_decimal(n / 10);
        lemma_digit(n % 10);
        let head = decimal(n / 10);
        let text = head.push(digit(n % 10));
        assert(text.drop_last() =~= head);
        assert(text[0] == head[0]);
        assert forall|k: nat| n < #[trigger] pow10(k) && k > 0 implies text.len() <= k by {
            let less = (k - 1) as nat;
            assert(pow10(k) == 10 * pow10(less));
            if k == 1 {
                assert(pow10(0) == 1);
            }
            assert(n / 10 < pow10(less));
        }
    }
}

/// The numeral of an integer of at most fifteen digits is read as that integer,
/// whether or not a plus stands in front of it.
pub proof fn law_numerals_are_read_as_written(n: int)
    requires
        -1000000000000000 < n < 1000000000000000,
    ensures
        plain_integer(signed_decimal(n)) == Some(n),
        n >= 0 ==> plain_integer(seq!['+'] + signed_decimal(n)) == Some(n),
{
    assert(pow10(15) == 1000000000000000) by {
        reveal_with_fuel(pow10, 16);
    }
    if n < 0 {
        lemma_decimal((-n) as nat);
        let text = seq!['-'] + decimal((-n) as nat);
        assert(text.drop_first() =~= decimal((-n) as nat));
        assert(behind_sign(text, true) == decimal((-n) as nat));
    } else {
        lemma_decimal(n as nat);
        let text = seq!['+'] + decimal(n as nat);
        assert(text.drop_first() =~= decimal(n as nat));
    }
}

/// Different integers have different numerals.
pub proof fn law_numerals_differ(m: int, n: int)
    requires
        signed_decimal(m) == signed_decimal(n),
    ensures
        m == n,
{
    lemma_decimal(if m < 0 {
        (-m) as nat
    } else {
        m as nat
    });
    lemma_decimal(if n < 0 {
        (-n) as nat
    } else {
        n as nat
    });
    if m < 0 {
        assert(signed_decimal(m).drop_first() =~= decimal((-m) as nat));
    }
    if n < 0 {
        assert(signed_decimal(n).drop_first() =~= decimal((-n) as nat));
    }
}

/// A macro leaves one variable of a session at a value and changes nothing else.
pub open spec fn leaves_local(
    outcome: Evaluated,
    before: Machine,
    name: Seq<char>,
    value: Seq<char>,
    text: Seq<char>,
) -> bool {
    match outcome {
        Evaluated::Output(output, after) => {
            &&& output == text
            &&& after.random == before.random
            &&& after.warnings == before.warnings
            &&& after.variables.global == before.variables.global
            &&& after.variables.local.contains_key(name)
            &&& after.variables.local[name].raw_value == value
            &&& after.variables.local.remove(name) == before.variables.local.remove(name)
        },
        Evaluated::Fault(_, _) => false,
    }
}

/// A macro leaves one variable of all sessions at a value and changes nothing else.
pub open spec fn leaves_global(
    outcome: Evaluated,
    before: Machine,
    name: Seq<char>,
    value: Seq<char>,
    text: Seq<char>,
) -> bool {
    match outcome {
        Evaluated::Output(output, after) => {
            &&& output == text
            &&& after.random == before.random
            &&& after.warnings == before.warnings
            &&& after.variables.local == before.variables.local
            &&& after.variables.global.contains_key(name)
            &&& after.variables.global[name].raw_value == value
            &&& after.variables.global.remove(name) == before.variables.global.remove(name)
        },
        Evaluated::Fault(_, _) => false,
    }
}

/// A name ends like that of a macro on variables.
spec fn ends_with_var(lower: Seq<char>) -> bool {
    &&& lower.len() > 3
    &&& lower[lower.len() - 3] == 'v'
    &&& lower[lower.len() - 2] == 'a'
    &&& lower[lower.len() - 1] == 'r'
    &&& lower[0] != '.'
    &&& lower[0] != '$'
    &&& lower[0] != '/'
}

proof fn lemma_var_is_not_plain(
    lower: Seq<char>,
    first: Seq<char>,
    context: MacroContext,
    machine: Machine,
)
    requires
        ends_with_var(lower),
    ensures
        !begins_with(lower, "//"@),
        !opens_with(lower, '.'),
        !opens_with(lower, '$'),
        plain_applied(lower, first, context, machine) is None,
{
    reveal_strlit("//");
    if begins_with(lower, "//"@) {
        assert(lower.take(2)[0] == lower[0]);
    }
    reveal_strlit("space");
    reveal_strlit("newline");
    reveal_strlit("noop");
    reveal_strlit("else");
    reveal_strlit("trim");
    reveal_strlit("reverse");
    reveal_strlit("hasextension");
    reveal_strlit("outlet");
    lemma_var_is_no_value(lower);
}

proof fn lemma_var_is_no_value(lower: Seq<char>)
    requires
        ends_with_var(lower),
    ensures
        !is_context_value(lower),
{
    reveal_strlit("user");
    reveal_strlit("char");
    reveal_strlit("charprompt");
    reveal_strlit("charinstruction");
    reveal_strlit("chardescription");
    reveal_strlit("charpersonality");
    reveal_strlit("charscenario");
    reveal_strlit("description");
    reveal_strlit("personality");
    reveal_strlit("scenario");
    reveal_strlit("persona");
    reveal_strlit("group");
    reveal_strlit("groupnotmuted");
    reveal_strlit("summary");
    reveal_strlit("short_term_memory");
    reveal_strlit("long_term_memory");
    reveal_strlit("mesexamplesraw");
    reveal_strlit("mesexamples");
    reveal_strlit("chardepthprompt");
    reveal_strlit("charcreatornotes");
    reveal_strlit("charfirstmessage");
    reveal_strlit("charversion");
    reveal_strlit("model");
    reveal_strlit("original");
    reveal_strlit("lastmessage");
    reveal_strlit("lastchatmessage");
    reveal_strlit("lastmessageid");
    reveal_strlit("lastusermessage");
    reveal_strlit("lastcharmessage");
    reveal_strlit("firstincludedmessageid");
    reveal_strlit("firstdisplayedmessageid");
    reveal_strlit("lastswipeid");
    reveal_strlit("currentswipeid");
    reveal_strlit("allchatrange");
    reveal_strlit("time");
    reveal_strlit("date");
    reveal_strlit("weekday");
    reveal_strlit("isotime");
    reveal_strlit("isodate");
    reveal_strlit("datetimeformat");
    reveal_strlit("idleduration");
    reveal_strlit("timediff");
    reveal_strlit("lastgenerationtype");
    reveal_strlit("maxprompt");
    reveal_strlit("maxcontext");
    reveal_strlit("maxresponse");
}

proof fn lemma_var_names()
    ensures
        ends_with_var("setvar"@),
        ends_with_var("setglobalvar"@),
        ends_with_var("addvar"@),
        ends_with_var("addglobalvar"@),
        ends_with_var("incvar"@),
        ends_with_var("incglobalvar"@),
        ends_with_var("decvar"@),
        ends_with_var("decglobalvar"@),
        ends_with_var("getvar"@),
        ends_with_var("getglobalvar"@),
        ends_with_var("hasvar"@),
        ends_with_var("hasglobalvar"@),
        ends_with_var("deletevar"@),
        ends_with_var("deleteglobalvar"@),
        "setvar"@[0] == 's' && "setvar"@.len() == 6,
        "setglobalvar"@[0] == 's' && "setglobalvar"@.len() == 12,
        "addvar"@[0] == 'a' && "addvar"@.len() == 6,
        "addglobalvar"@[0] == 'a' && "addglobalvar"@.len() == 12,
        "incvar"@[0] == 'i' && "incvar"@.len() == 6,
        "incglobalvar"@[0] == 'i' && "incglobalvar"@.len() == 12,
        "decvar"@[0] == 'd' && "decvar"@.len() == 6,
        "decglobalvar"@[0] == 'd' && "decglobalvar"@.len() == 12,
        "getvar"@[0] == 'g' && "getvar"@.len() == 6,
        "getglobalvar"@[0] == 'g' && "getglobalvar"@.len() == 12,
        "hasvar"@[0] == 'h' && "hasvar"@.len() == 6,
        "hasglobalvar"@[0] == 'h' && "hasglobalvar"@.len() == 12,
        "deletevar"@[0] == 'd' && "deletevar"@.len() == 9,
        "deleteglobalvar"@[0] == 'd' && "deleteglobalvar"@.len() == 15,
{
    reveal_strlit("setvar");
    reveal_strlit("setglobalvar");
    reveal_strlit("addvar");
    reveal_strlit("addglobalvar");
    reveal_strlit("incvar");
    reveal_strlit("incglobalvar");
    reveal_strlit("decvar");
    reveal_strlit("decglobalvar");
    reveal_strlit("getvar");
    reveal_strlit("getglobalvar");
    reveal_strlit("hasvar");
    reveal_strlit("hasglobalvar");
    reveal_strlit("deletevar");
    reveal_strlit("deleteglobalvar");
}

/// A variable that holds the numeral of `n` holds that of `n + 1` after it is counted
/// up and that of `n - 1` after it is counted down, and that is what is put out. No
/// other variable changes, nor one of the same name in the other scope.
pub proof fn law_counting_goes_by_one(
    name: Seq<char>,
    arguments: Seq<Seq<char>>,
    source: Seq<char>,
    context: MacroContext,
    replies: Replies,
    machine: Machine,
    n: int,
)
    requires
        arguments.len() >= 1,
        -1000000000000000 < n < 1000000000000000,
    ensures
        machine.variables.local.contains_key(arguments[0])
            && machine.variables.local[arguments[0]].raw_value == signed_decimal(n) ==> {
            &&& leaves_local(
                applied("incvar"@, name, arguments, source, context, replies, machine),
                machine,
                arguments[0],
                signed_decimal(n + 1),
                signed_decimal(n + 1),
            )
            &&& leaves_local(
                applied("decvar"@, name, arguments, source, context, replies, machine),
                machine,
                arguments[0],
                signed_decimal(n - 1),
                signed_decimal(n - 1),
            )
        },
        machine.variables.global.contains_key(arguments[0])
            && machine.variables.global[arguments[0]].raw_value == signed_decimal(n) ==> {
            &&& leaves_global(
                applied("incglobalvar"@, name, arguments, source, context, replies, machine),
                machine,
                arguments[0],
                signed_decimal(n + 1),
                signed_decimal(n + 1),
            )
            &&& leaves_global(
                applied("decglobalvar"@, name, arguments, source, context, replies, machine),
                machine,
                arguments[0],
                signed_decimal(n - 1),
                signed_decimal(n - 1),
            )
        },
{
    law_numerals_are_read_as_written(n);
    lemma_var_names();
    lemma_var_is_not_plain("incvar"@, arguments[0], context, machine);
    lemma_var_is_not_plain("decvar"@, arguments[0], context, machine);
    lemma_var_is_not_plain("incglobalvar"@, arguments[0], context, machine);
    lemma_var_is_not_plain("decglobalvar"@, arguments[0], context, machine);
    lemma_set_then_removed(machine, arguments[0]);
}

/// Adding an integer to a variable that holds one leaves it at their sum, and puts
/// nothing out.
pub proof fn law_adding_leaves_the_sum(
    name: Seq<char>,
    arguments: Seq<Seq<char>>,
    source: Seq<char>,
    context: MacroContext,
    replies: Replies,
    machine: Machine,
    m: int,
    n: int,
)
    requires
        arguments.len() >= 2,
        -1000000000000000 < m < 1000000000000000,
        -1000000000000000 < n < 1000000000000000,
        arguments[1] == signed_decimal(m),
    ensures
        machine.variables.local.contains_key(arguments[0])
            && machine.variables.local[arguments[0]].raw_value == signed_decimal(n)
            ==> leaves_local(
            applied("addvar"@, name, arguments, source, context, replies, machine),
            machine,
            arguments[0],
            signed_decimal(n + m),
            Seq::empty(),
        ),
        machine.variables.global.contains_key(arguments[0])
            && machine.variables.global[arguments[0]].raw_value == signed_decimal(n)
            ==> leaves_global(
            applied("addglobalvar"@, name, arguments, source, context, replies, machine),
            machine,
            arguments[0],
            signed_decimal(n + m),
            Seq::empty(),
        ),
{
    law_numerals_are_read_as_written(n);
    law_numerals_are_read_as_written(m);
    lemma_var_names();
    lemma_var_is_not_plain("addvar"@, arguments[0], context, machine);
    lemma_var_is_not_plain("addglobalvar"@, arguments[0], context, machine);
    lemma_set_then_removed(machine, arguments[0]);
    lemma_numeral_is_not_empty(m);
}

/// A numeral has digits.
pub proof fn lemma_numeral_is_not_empty(n: int)
    ensures
        signed_decimal(n).len() > 0,
{
    lemma_decimal(if n < 0 {
        (-n) as nat
    } else {
        n as nat
    });
}

/// Setting a variable changes no other.
pub proof fn lemma_set_then_removed(machine: Machine, name: Seq<char>)
    ensures
        forall|cell: CellView|
            (#[trigger] machine.variables.local.insert(name, cell)).remove(name)
                == machine.variables.local.remove(name),
        forall|cell: CellView|
            (#[trigger] machine.variables.global.insert(name, cell)).remove(name)
                == machine.variables.global.remove(name),
{
    assert forall|cell: CellView|
        (#[trigger] machine.variables.local.insert(name, cell)).remove(name)
            == machine.variables.local.remove(name) by {
        assert(machine.variables.local.insert(name, cell).remove(name)
            =~= machine.variables.local.remove(name));
    }
    assert forall|cell: CellView|
        (#[trigger] machine.variables.global.insert(name, cell)).remove(name)
            == machine.variables.global.remove(name) by {
        assert(machine.variables.global.insert(name, cell).remove(name)
            =~= machine.variables.global.remove(name));
    }
}

/// A variable of a session is only added to where it is there: where it is not, or
/// where what is added is empty, the macro is kept as it is written, with a warning,
/// and nothing else changes.
pub proof fn law_nothing_is_added_to_nothing(
    name: Seq<char>,
    arguments: Seq<Seq<char>>,
    source: Seq<char>,
    context: MacroContext,
    replies: Replies,
    machine: Machine,
    m: int,
)
    requires
        arguments.len() >= 2,
        -1000000000000000 < m < 1000000000000000,
        arguments[1].len() == 0 || (arguments[1] == signed_decimal(m)
            && !machine.variables.local.contains_key(arguments[0])),
    ensures
        match applied("addvar"@, name, arguments, source, context, replies, machine) {
            Evaluated::Output(text, after) => {
                &&& text == source
                &&& after.variables == machine.variables
                &&& after.random == machine.random
                &&& after.warnings.len() == machine.warnings.len() + 1
                &&& after.warnings.drop_last() == machine.warnings
            },
            Evaluated::Fault(_, _) => false,
        },
{
    law_numerals_are_read_as_written(m);
    lemma_var_names();
    lemma_var_is_not_plain("addvar"@, arguments[0], context, machine);
    lemma_numeral_is_not_empty(m);
    match applied("addvar"@, name, arguments, source, context, replies, machine) {
        Evaluated::Output(_, after) => {
            assert(after.warnings.drop_last() =~= machine.warnings);
        },
        _ => {},
    }
}

/// What a variable is set to is what it gives, and it is there from then on, until it
/// is deleted. Setting and deleting put nothing out.
pub proof fn law_variables_give_what_they_are_set_to(
    name: Seq<char>,
    arguments: Seq<Seq<char>>,
    source: Seq<char>,
    context: MacroContext,
    replies: Replies,
    machine: Machine,
)
    requires
        arguments.len() >= 2,
    ensures
        leaves_local(
            applied("setvar"@, name, arguments, source, context, replies, machine),
            machine,
            arguments[0],
            arguments[1],
            Seq::empty(),
        ),
        leaves_global(
            applied("setglobalvar"@, name, arguments, source, context, replies, machine),
            machine,
            arguments[0],
            arguments[1],
            Seq::empty(),
        ),
{
    lemma_var_names();
    lemma_var_is_not_plain("setvar"@, arguments[0], context, machine);
    lemma_var_is_not_plain("setglobalvar"@, arguments[0], context, machine);
    lemma_set_then_removed(machine, arguments[0]);
}

/// Reading a variable, and asking whether it is there, changes nothing. What is not
/// there in a session reads as nothing; what is not there in all sessions is kept as
/// it is written, with a warning.
pub proof fn law_reading_changes_nothing(
    name: Seq<char>,
    arguments: Seq<Seq<char>>,
    source: Seq<char>,
    context: MacroContext,
    replies: Replies,
    machine: Machine,
)
    requires
        arguments.len() >= 1,
    ensures
        applied("getvar"@, name, arguments, source, context, replies, machine)
            == Evaluated::Output(
            if machine.variables.local.contains_key(arguments[0]) {
                machine.variables.local[arguments[0]].raw_value
            } else {
                Seq::empty()
            },
            machine,
        ),
        applied("hasvar"@, name, arguments, source, context, replies, machine)
            == Evaluated::Output(
            if machine.variables.local.contains_key(arguments[0]) {
                "true"@
            } else {
                "false"@
            },
            machine,
        ),
        applied("hasglobalvar"@, name, arguments, source, context, replies, machine)
            == Evaluated::Output(
            if machine.variables.global.contains_key(arguments[0]) {
                "true"@
            } else {
                "false"@
            },
            machine,
        ),
        machine.variables.global.contains_key(arguments[0]) ==> applied(
            "getglobalvar"@,
            name,
            arguments,
            source,
            context,
            replies,
            machine,
        ) == Evaluated::Output(machine.variables.global[arguments[0]].raw_value, machine),
        !machine.variables.global.contains_key(arguments[0]) ==> match applied(
            "getglobalvar"@,
            name,
            arguments,
            source,
            context,
            replies,
            machine,
        ) {
            Evaluated::Output(text, after) => {
                &&& text == source
                &&& after.variables == machine.variables
                &&& after.random == machine.random
                &&& after.warnings.len() == machine.warnings.len() + 1
            },
            Evaluated::Fault(_, _) => false,
        },
{
    lemma_var_names();
    lemma_var_is_not_plain("getvar"@, arguments[0], context, machine);
    lemma_var_is_not_plain("hasvar"@, arguments[0], context, machine);
    lemma_var_is_not_plain("getglobalvar"@, arguments[0], context, machine);
    lemma_var_is_not_plain("hasglobalvar"@, arguments[0], context, machine);
}

/// A deleted variable is there no longer, and no other variable changes.
pub proof fn law_deleted_variables_are_gone(
    name: Seq<char>,
    arguments: Seq<Seq<char>>,
    source: Seq<char>,
    context: MacroContext,
    replies: Replies,
    machine: Machine,
)
    requires
        arguments.len() >= 1,
    ensures
        match applied("deletevar"@, name, arguments, source, context, replies, machine) {
            Evaluated::Output(text, after) => {
                &&& text.len() == 0
                &&& after.variables.local == machine.variables.local.remove(arguments[0])
                &&& after.variables.global == machine.variables.global
                &&& after.random == machine.random
                &&& after.warnings == machine.warnings
            },
            Evaluated::Fault(_, _) => false,
        },
        match applied("deleteglobalvar"@, name, arguments, source, context, replies, machine) {
            Evaluated::Output(text, after) => {
                &&& text.len() == 0
                &&& after.variables.global == machine.variables.global.remove(arguments[0])
                &&& after.variables.local == machine.variables.local
                &&& after.random == machine.random
                &&& after.warnings == machine.warnings
            },
            Evaluated::Fault(_, _) => false,
        },
{
    lemma_var_names();
    lemma_var_is_not_plain("deletevar"@, arguments[0], context, machine);
    lemma_var_is_not_plain("deleteglobalvar"@, arguments[0], context, machine);
}

} // verus!
