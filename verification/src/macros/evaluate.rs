//! What each macro stands for.
use vstd::prelude::*;
use vstd::utf8::encode_utf8;

use crate::assoc;
use crate::identity::{sha256, sha256_of};
use crate::macros::replies::{
    know_negation, know_number, know_order, know_step, know_sum, negation_known, number_known,
    NumberOrder, numeral_value, order_known, Question, question_view, QuestionView, read_signed,
    read_unsigned, Replies, signed_decimal, signed_text, step_known, sum_known,
};
use crate::macros::syntax::{char_index, copy_range, find_char, opens_with, same_name, skip_white};
use crate::state::{StateTransaction, Variables, VariableScope};
use crate::text::{
    begins_with, contains_text, copy_texts, decimal, decimal_text, find_from,
    first_occurrence, from_chars, from_range, interspersed, join_texts, lemma_views_push,
    lowercase, lowercase_of, option_view, replace_all, replaced, same, same_ignoring_case,
    starts_with, to_chars, trim, trim_front, trim_range, trimmed, views,
};

verus! {

/// What macros can refer to. The names of values and of registered macros are
/// kept in small letters.
#[derive(Clone, Debug, Eq, PartialEq)]
pub struct MacroContext {
    pub values: Vec<(String, String)>,
    pub outlets: Vec<(String, String)>,
    pub registered_macros: Vec<(String, String)>,
    pub plugins: Vec<String>,
    pub random_seed: u64,
}

/// A note on a macro that could not be resolved.
#[derive(Clone, Debug, Eq, PartialEq)]
pub struct MacroWarning {
    pub code: String,
    pub message: String,
}

/// Why rendering failed, or what has to be told before it can go on.
#[derive(Clone, Debug, Eq, PartialEq)]
pub enum MacroError {
    EmptyTag,
    HardUnsupported(String),
    InvalidNumber(String),
    InvalidRoll(String),
    InvalidCount(String),
    Unresolved(Question),
}

/// The abstract value of a [`MacroError`].
pub enum Fault {
    EmptyTag,
    HardUnsupported(Seq<char>),
    InvalidNumber(Seq<char>),
    InvalidRoll(Seq<char>),
    InvalidCount(Seq<char>),
    Unresolved(QuestionView),
}

/// The abstract value of an error.
pub open spec fn fault_view(error: MacroError) -> Fault {
    match error {
        MacroError::EmptyTag => Fault::EmptyTag,
        MacroError::HardUnsupported(t) => Fault::HardUnsupported(t@),
        MacroError::InvalidNumber(t) => Fault::InvalidNumber(t@),
        MacroError::InvalidRoll(t) => Fault::InvalidRoll(t@),
        MacroError::InvalidCount(t) => Fault::InvalidCount(t@),
        MacroError::Unresolved(q) => Fault::Unresolved(question_view(q)),
    }
}

/// The codes and messages of some warnings.
pub open spec fn warnings_view(warnings: Seq<MacroWarning>) -> Seq<(Seq<char>, Seq<char>)> {
    Seq::new(warnings.len(), |i: int| (warnings[i].code@, warnings[i].message@))
}

/// What macros change: the state of chance, the variables and the warnings.
pub struct Machine {
    pub random: u64,
    pub variables: Variables,
    pub warnings: Seq<(Seq<char>, Seq<char>)>,
}

/// What comes of evaluating a macro: a text or a fault, and what has changed.
pub enum Evaluated {
    Output(Seq<char>, Machine),
    Fault(Fault, Machine),
}

impl Machine {
    /// With another state of chance.
    pub open spec fn with_random(self, random: u64) -> Machine {
        Machine { random, ..self }
    }

    /// With other variables.
    pub open spec fn with_variables(self, variables: Variables) -> Machine {
        Machine { variables, ..self }
    }

    /// With one warning more.
    pub open spec fn warned(self, message: Seq<char>) -> Machine {
        Machine { warnings: self.warnings.push(("unknown-macro-preserved"@, message)), ..self }
    }
}

/// The next state of chance.
pub open spec fn next_random(x: u64) -> u64 {
    let a = x ^ (x << 13u64);
    let b = a ^ (a >> 7u64);
    b ^ (b << 17u64)
}

/// Steps the state of chance.
pub fn step_random(x: u64) -> (r: u64)
    ensures
        r == next_random(x),
{
    let a: u64 = x ^ (x << 13u64);
    let b: u64 = a ^ (a >> 7u64);
    b ^ (b << 17u64)
}

/// An argument, or nothing where there is none.
pub open spec fn argument(arguments: Seq<Seq<char>>, index: int) -> Seq<char> {
    if 0 <= index < arguments.len() {
        arguments[index]
    } else {
        Seq::empty()
    }
}

fn get_argument(arguments: &Vec<String>, index: usize) -> (r: String)
    ensures
        r@ == argument(views(arguments@), index as int),
{
    if index < arguments.len() {
        arguments[index].clone()
    } else {
        String::new()
    }
}

/// A value that counts as true.
pub open spec fn truthy(value: Seq<char>) -> bool {
    &&& value.len() > 0
    &&& value != "0"@
    &&& !same_name(value, "false"@)
    &&& !same_name(value, "off"@)
}

/// Whether a value counts as true.
pub fn is_truthy(value: &str) -> (r: bool)
    ensures
        r == truthy(value@),
{
    !value.is_empty() && !same(value, "0") && !same_ignoring_case(value, "false")
        && !same_ignoring_case(value, "off")
}

/// A text, or nothing.
pub open spec fn or_empty(text: Option<Seq<char>>) -> Seq<char> {
    match text {
        Some(t) => t,
        None => Seq::empty(),
    }
}

/// The value that a condition names: that of a variable of the session behind a
/// dot, of one of all sessions behind a dollar sign, a value of the context, or
/// else the condition itself.
pub open spec fn condition_value(
    condition: Seq<char>,
    context: MacroContext,
    variables: Variables,
) -> Seq<char> {
    if opens_with(condition, '.') {
        or_empty(variables.raw(VariableScope::Local, condition.drop_first()))
    } else if opens_with(condition, '$') {
        or_empty(variables.raw(VariableScope::Global, condition.drop_first()))
    } else {
        match assoc::lookup(context.values@, lowercase_of(condition)) {
            Some(value) => value@,
            None => condition,
        }
    }
}

/// Whether a condition holds. An exclamation mark turns it round.
pub open spec fn condition_holds(
    condition: Seq<char>,
    context: MacroContext,
    variables: Variables,
) -> bool {
    let inner = trimmed(condition);
    if opens_with(inner, '!') {
        !truthy(condition_value(trim_front(inner.drop_first()), context, variables))
    } else {
        truthy(condition_value(inner, context, variables))
    }
}

fn rest_of(chars: &Vec<char>, from: usize) -> (rest: String)
    requires
        from <= chars@.len(),
    ensures
        rest@ == chars@.skip(from as int),
{
    proof {
        assert(chars@.subrange(from as int, chars@.len() as int) =~= chars@.skip(from as int));
    }
    from_range(chars, from, chars.len())
}

fn raw_value(state: &StateTransaction, scope: VariableScope, name: &str) -> (r: Option<String>)
    ensures
        option_view(r) == state@.raw(scope, name@),
{
    match state.get(scope, name) {
        Some(cell) => Some(cell.raw_value.clone()),
        None => None,
    }
}

fn text_or_empty(text: Option<String>) -> (r: String)
    ensures
        r@ == or_empty(option_view(text)),
{
    match text {
        Some(t) => t,
        None => String::new(),
    }
}

/// Whether a condition holds.
pub fn resolve_condition(condition: &str, context: &MacroContext, state: &StateTransaction) -> (r:
    bool)
    ensures
        r == condition_holds(condition@, *context, state@),
{
    let inner = trim(condition);
    let chars = to_chars(inner.as_str());
    let inverted = chars.len() > 0 && chars[0] == '!';
    let mut from: usize = 0;
    proof {
        assert(chars@.skip(0) =~= chars@);
        assert(chars@.len() > 0 ==> chars@.skip(1) =~= chars@.drop_first());
    }
    if inverted {
        from = skip_white(&chars, 1);
    }
    let ghost subject = chars@.skip(from as int);
    proof {
        assert(subject == if inverted {
            trim_front(trimmed(condition@).drop_first())
        } else {
            trimmed(condition@)
        });
        if from < chars@.len() {
            assert(subject[0] == chars@[from as int]);
            assert(chars@.skip(from + 1) =~= subject.drop_first());
        }
    }
    let value = if from < chars.len() && chars[from] == '.' {
        let name = rest_of(&chars, from + 1);
        text_or_empty(raw_value(state, VariableScope::Local, name.as_str()))
    } else if from < chars.len() && chars[from] == '$' {
        let name = rest_of(&chars, from + 1);
        text_or_empty(raw_value(state, VariableScope::Global, name.as_str()))
    } else {
        let text = rest_of(&chars, from);
        let lower = lowercase(text.as_str());
        match assoc::find(&context.values, lower.as_str()) {
            Some(value) => value.clone(),
            None => text,
        }
    };
    let holds = is_truthy(value.as_str());
    if inverted {
        !holds
    } else {
        holds
    }
}

/// How often a character is to be repeated: once where no number is given.
pub open spec fn repeat_count(count: Seq<char>) -> Option<int> {
    if count.len() == 0 {
        Some(1)
    } else {
        let n = numeral_value(count, false);
        if n is Some && n->0 <= u64::MAX {
            n
        } else {
            None
        }
    }
}

/// A character repeated at most ten thousand times.
pub open spec fn repeated(character: char, count: Seq<char>, machine: Machine) -> Evaluated {
    match repeat_count(count) {
        None => Evaluated::Fault(Fault::InvalidCount(count), machine),
        Some(n) => if n > 10000 {
            Evaluated::Fault(Fault::InvalidCount(decimal(n as nat)), machine)
        } else {
            Evaluated::Output(Seq::new(n as nat, |i: int| character), machine)
        },
    }
}

fn repeat_text(character: char, count: &str) -> (r: Result<String, MacroError>)
    ensures
        forall|machine: Machine|
            match r {
                Ok(text) => #[trigger] repeated(character, count@, machine) == Evaluated::Output(
                    text@,
                    machine,
                ),
                Err(e) => repeated(character, count@, machine) == Evaluated::Fault(
                    fault_view(e),
                    machine,
                ),
            },
{
    let times: u64 = if count.is_empty() {
        1
    } else {
        match read_unsigned(count, u64::MAX) {
            Some(n) => n,
            None => {
                return Err(MacroError::InvalidCount(count.to_owned()));
            },
        }
    };
    if times > 10000 {
        return Err(MacroError::InvalidCount(decimal_text(times)));
    }
    let mut text = String::new();
    let mut i: u64 = 0;
    while i < times
        invariant
            i <= times,
            text@ == Seq::new(i as nat, |j: int| character),
        decreases times - i,
    {
        text.push(character);
        i = i + 1;
        proof {
            assert(text@ =~= Seq::new(i as nat, |j: int| character));
        }
    }
    Ok(text)
}

/// The pieces of a text from position `from` on, parted by `separator`.
pub open spec fn pieces_from(text: Seq<char>, separator: Seq<char>, from: int) -> Seq<Seq<char>>
    decreases text.len() - from,
{
    let at = first_occurrence(text, separator, from);
    if separator.len() == 0 || at < from || at + separator.len() > text.len() {
        seq![text.skip(from)]
    } else {
        seq![text.subrange(from, at)] + pieces_from(text, separator, at + separator.len())
    }
}

/// Each text trimmed.
pub open spec fn all_trimmed(texts: Seq<Seq<char>>) -> Seq<Seq<char>> {
    Seq::new(texts.len(), |i: int| trimmed(texts[i]))
}

/// Each text trimmed, and its zero characters turned into commas.
pub open spec fn all_unescaped(texts: Seq<Seq<char>>) -> Seq<Seq<char>> {
    Seq::new(texts.len(), |i: int| replaced(trimmed(texts[i]), "\u{0}"@, ","@))
}

/// The choices that a macro is given: its arguments, or the parts of a single
/// one. Double colons part them, or else commas that are not escaped.
pub open spec fn choice_list(arguments: Seq<Seq<char>>) -> Seq<Seq<char>> {
    if arguments.len() != 1 {
        arguments
    } else if first_occurrence(arguments[0], "::"@, 0) < arguments[0].len() {
        all_trimmed(pieces_from(arguments[0], "::"@, 0))
    } else {
        all_unescaped(
            pieces_from(replaced(arguments[0], "\\,"@, "\u{0}"@), ","@, 0),
        )
    }
}

fn split_pieces(text: &Vec<char>, separator: &Vec<char>) -> (pieces: Vec<String>)
    requires
        separator@.len() > 0,
    ensures
        views(pieces@) == pieces_from(text@, separator@, 0),
{
    let mut pieces: Vec<String> = Vec::new();
    let mut from: usize = 0;
    proof {
        assert(views(pieces@) + pieces_from(text@, separator@, 0) =~= pieces_from(
            text@,
            separator@,
            0,
        ));
    }
    loop
        invariant
            from <= text@.len(),
            separator@.len() > 0,
            views(pieces@) + pieces_from(text@, separator@, from as int) == pieces_from(
                text@,
                separator@,
                0,
            ),
        decreases text@.len() - from,
    {
        let at: usize = find_from(text, separator, from);
        let ghost before = views(pieces@);
        if at >= text.len() {
            let piece = rest_of(text, from);
            proof {
                lemma_views_push(pieces@, piece);
                assert(before.push(piece@) =~= before + seq![piece@]);
            }
            pieces.push(piece);
            return pieces;
        }
        let piece = from_range(text, from, at);
        proof {
            lemma_views_push(pieces@, piece);
            let rest = pieces_from(text@, separator@, at + separator@.len());
            assert(before.push(piece@) + rest =~= before + (seq![piece@] + rest));
        }
        pieces.push(piece);
        from = at + separator.len();
    }
}

/// The choices that a macro is given.
pub fn choice_arguments(arguments: &Vec<String>) -> (choices: Vec<String>)
    ensures
        views(choices@) == choice_list(views(arguments@)),
{
    if arguments.len() != 1 {
        return copy_texts(arguments);
    }
    let value = to_chars(arguments[0].as_str());
    let colons = to_chars("::");
    proof {
        reveal_strlit("::");
        reveal_strlit(",");
        reveal_strlit("\\,");
        reveal_strlit("\u{0}");
        assert(views(arguments@)[0] == value@);
    }
    if find_from(&value, &colons, 0) < value.len() {
        let pieces = split_pieces(&value, &colons);
        let mut choices: Vec<String> = Vec::new();
        let mut i: usize = 0;
        while i < pieces.len()
            invariant
                i <= pieces@.len(),
                choices@.len() == i,
                forall|j: int| 0 <= j < i ==> (#[trigger] choices@[j])@ == trimmed(pieces@[j]@),
            decreases pieces@.len() - i,
        {
            choices.push(trim(pieces[i].as_str()));
            i = i + 1;
        }
        proof {
            assert(views(choices@) =~= all_trimmed(views(pieces@)));
        }
        choices
    } else {
        let escaped = replace_all(arguments[0].as_str(), "\\,", "\u{0}");
        let pieces = split_pieces(&to_chars(escaped.as_str()), &to_chars(","));
        let mut choices: Vec<String> = Vec::new();
        let mut i: usize = 0;
        while i < pieces.len()
            invariant
                i <= pieces@.len(),
                choices@.len() == i,
                "\u{0}"@.len() > 0,
                forall|j: int|
                    0 <= j < i ==> (#[trigger] choices@[j])@ == replaced(
                        trimmed(pieces@[j]@),
                        "\u{0}"@,
                        ","@,
                    ),
            decreases pieces@.len() - i,
        {
            choices.push(replace_all(trim(pieces[i].as_str()).as_str(), "\u{0}", ","));
            i = i + 1;
        }
        proof {
            assert(views(choices@) =~= all_unescaped(views(pieces@)));
        }
        choices
    }
}

/// The choice that a number picks, or nothing where there is none.
pub open spec fn chosen(choices: Seq<Seq<char>>, random: int) -> Seq<char> {
    if choices.len() == 0 {
        Seq::empty()
    } else {
        choices[random % (choices.len() as int)]
    }
}

fn choose_text(choices: &Vec<String>, random: u64) -> (r: String)
    ensures
        r@ == chosen(views(choices@), random as int),
{
    if choices.len() == 0 {
        String::new()
    } else {
        let at: u64 = random % (choices.len() as u64);
        choices[at as usize].clone()
    }
}

/// The number that bytes stand for, the most significant first.
pub open spec fn bytes_value(bytes: Seq<u8>) -> int
    decreases bytes.len(),
{
    if bytes.len() == 0 {
        0
    } else {
        bytes_value(bytes.drop_last()) * 256 + bytes.last()
    }
}

/// The number that picks among choices for good: the first eight bytes of the
/// digest of the choices, parted by zero characters.
pub open spec fn pick_seed(choices: Seq<Seq<char>>) -> int {
    bytes_value(sha256_of(encode_utf8(interspersed(choices, "\u{0}"@))).take(8))
}

fn seed_of(choices: &Vec<String>) -> (seed: u64)
    ensures
        seed as int == pick_seed(views(choices@)),
{
    let message = join_texts(choices, "\u{0}");
    let bytes = message.as_str().as_bytes();
    let mut copy: Vec<u8> = Vec::new();
    let mut k: usize = 0;
    while k < bytes.len()
        invariant
            k <= bytes@.len(),
            copy@ == bytes@.take(k as int),
        decreases bytes@.len() - k,
    {
        copy.push(bytes[k]);
        k = k + 1;
        proof {
            assert(copy@ =~= bytes@.take(k as int));
        }
    }
    proof {
        assert(bytes@.take(bytes@.len() as int) =~= bytes@);
    }
    let digest: [u8; 32] = sha256(&copy);
    let ghost all = digest@;
    let mut seed: u64 = 0;
    let mut i: usize = 0;
    let mut limit: u64 = 1;
    proof {
        assert(all.take(0) =~= Seq::empty());
    }
    while i < 8
        invariant
            i <= 8,
            all == digest@,
            all.len() == 32,
            seed as int == bytes_value(all.take(i as int)),
            i < 8 ==> seed < limit,
            i < 8 ==> limit as int == pow256(i as int),
        decreases 8 - i,
    {
        proof {
            assert(all.take(i + 1).drop_last() =~= all.take(i as int));
            assert(all.take(i + 1).last() == digest@[i as int]);
            assert(pow256(7) == 0x100000000000000) by {
                reveal_with_fuel(pow256, 8);
            }
            lemma_pow256_bound(i as int);
        }
        seed = seed * 256 + digest[i] as u64;
        i = i + 1;
        if i < 8 {
            limit = limit * 256;
        }
    }
    proof {
        assert(all.take(8) =~= digest@.take(8));
    }
    seed
}

spec fn pow256(n: int) -> int
    decreases n,
{
    if n <= 0 {
        1
    } else {
        256 * pow256(n - 1)
    }
}

proof fn lemma_pow256_bound(n: int)
    requires
        0 <= n <= 7,
    ensures
        1 <= pow256(n) <= 0x100000000000000,
        n < 7 ==> pow256(n) <= 0x1000000000000,
{
    reveal_with_fuel(pow256, 8);
}

/// A macro that stands for a value of the context.
pub open spec fn is_context_value(lower: Seq<char>) -> bool {
    ||| lower == "user"@
    ||| lower == "char"@
    ||| lower == "charprompt"@
    ||| lower == "charinstruction"@
    ||| lower == "chardescription"@
    ||| lower == "charpersonality"@
    ||| lower == "charscenario"@
    ||| lower == "description"@
    ||| lower == "personality"@
    ||| lower == "scenario"@
    ||| lower == "persona"@
    ||| lower == "group"@
    ||| lower == "groupnotmuted"@
    ||| lower == "summary"@
    ||| lower == "short_term_memory"@
    ||| lower == "long_term_memory"@
    ||| lower == "mesexamplesraw"@
    ||| lower == "mesexamples"@
    ||| lower == "chardepthprompt"@
    ||| lower == "charcreatornotes"@
    ||| lower == "charfirstmessage"@
    ||| lower == "charversion"@
    ||| lower == "model"@
    ||| lower == "original"@
    ||| lower == "lastmessage"@
    ||| lower == "lastchatmessage"@
    ||| lower == "lastmessageid"@
    ||| lower == "lastusermessage"@
    ||| lower == "lastcharmessage"@
    ||| lower == "firstincludedmessageid"@
    ||| lower == "firstdisplayedmessageid"@
    ||| lower == "lastswipeid"@
    ||| lower == "currentswipeid"@
    ||| lower == "allchatrange"@
    ||| lower == "time"@
    ||| lower == "date"@
    ||| lower == "weekday"@
    ||| lower == "isotime"@
    ||| lower == "isodate"@
    ||| lower == "datetimeformat"@
    ||| lower == "idleduration"@
    ||| lower == "timediff"@
    ||| lower == "lastgenerationtype"@
    ||| lower == "maxprompt"@
    ||| lower == "maxcontext"@
    ||| lower == "maxresponse"@
}

fn check_context_value(lower: &str) -> (r: bool)
    ensures
        r == is_context_value(lower@),
{
    same(lower, "user") || same(lower, "char") || same(lower, "charprompt")
        || same(lower, "charinstruction") || same(lower, "chardescription")
        || same(lower, "charpersonality") || same(lower, "charscenario")
        || same(lower, "description") || same(lower, "personality") || same(lower, "scenario")
        || same(lower, "persona") || same(lower, "group") || same(lower, "groupnotmuted")
        || same(lower, "summary") || same(lower, "short_term_memory")
        || same(lower, "long_term_memory") || same(lower, "mesexamplesraw")
        || same(lower, "mesexamples") || same(lower, "chardepthprompt")
        || same(lower, "charcreatornotes") || same(lower, "charfirstmessage")
        || same(lower, "charversion") || same(lower, "model") || same(lower, "original")
        || same(lower, "lastmessage") || same(lower, "lastchatmessage")
        || same(lower, "lastmessageid") || same(lower, "lastusermessage")
        || same(lower, "lastcharmessage") || same(lower, "firstincludedmessageid")
        || same(lower, "firstdisplayedmessageid") || same(lower, "lastswipeid")
        || same(lower, "currentswipeid") || same(lower, "allchatrange") || same(lower, "time")
        || same(lower, "date") || same(lower, "weekday") || same(lower, "isotime")
        || same(lower, "isodate") || same(lower, "datetimeformat")
        || same(lower, "idleduration") || same(lower, "timediff")
        || same(lower, "lastgenerationtype") || same(lower, "maxprompt")
        || same(lower, "maxcontext") || same(lower, "maxresponse")
}

/// The number, sides and modifier of some dice: `2d6+1`. One die where no
/// number is given.
pub struct Dice {
    pub count: int,
    pub sides: int,
    pub modifier: int,
}

/// The parts of a text in front of and behind the first `c`.
pub open spec fn split_at_char(text: Seq<char>, c: char) -> Option<(Seq<char>, Seq<char>)> {
    let at = char_index(text, c);
    if at < text.len() {
        Some((text.take(at), text.skip(at + 1)))
    } else {
        None
    }
}

/// The number of a numeral in the range of 64 bit integers.
pub open spec fn signed_numeral(text: Seq<char>) -> Option<int> {
    let n = numeral_value(text, true);
    if n is Some && i64::MIN <= n->0 <= i64::MAX {
        n
    } else {
        None
    }
}

/// The dice that an expression stands for.
pub open spec fn parsed_dice(expression: Seq<char>) -> Option<Dice> {
    let (count_text, rest) = match split_at_char(expression, 'd') {
        Some(parts) => parts,
        None => ("1"@, expression),
    };
    let (sides_text, modifier) = match split_at_char(rest, '+') {
        Some((sides, added)) => (sides, signed_numeral(added)),
        None => match split_at_char(rest, '-') {
            Some((sides, taken)) => (
                sides,
                match signed_numeral(taken) {
                    Some(n) => Some(-n),
                    None => None,
                },
            ),
            None => (rest, Some(0)),
        },
    };
    let count = numeral_value(count_text, false);
    let sides = numeral_value(sides_text, false);
    if count is Some && 1 <= count->0 <= 1000 && sides is Some && 1 <= sides->0 <= 1000000
        && modifier is Some {
        Some(Dice { count: count->0, sides: sides->0, modifier: modifier->0 })
    } else {
        None
    }
}

/// The state of chance after some dice.
pub open spec fn random_after(random: u64, count: int) -> u64
    decreases count,
{
    if count <= 0 {
        random
    } else {
        next_random(random_after(random, count - 1))
    }
}

/// What some dice show in all.
pub open spec fn dice_total(random: u64, count: int, sides: int) -> int
    decreases count,
{
    if count <= 0 {
        0
    } else {
        dice_total(random, count - 1, sides) + random_after(random, count) as int % sides + 1
    }
}

/// What comes of rolling dice. A total outside of the range of 64 bit integers
/// makes the expression invalid.
pub open spec fn rolled(expression: Seq<char>, machine: Machine) -> Evaluated {
    let inner = trimmed(expression);
    match parsed_dice(inner) {
        None => Evaluated::Fault(Fault::InvalidRoll(inner), machine),
        Some(dice) => {
            let after = machine.with_random(random_after(machine.random, dice.count));
            let total = dice_total(machine.random, dice.count, dice.sides) + dice.modifier;
            if i64::MIN <= total <= i64::MAX {
                Evaluated::Output(signed_decimal(total), after)
            } else {
                Evaluated::Fault(Fault::InvalidRoll(inner), after)
            }
        },
    }
}

fn split_char(text: &Vec<char>, c: char) -> (parts: Option<(Vec<char>, Vec<char>)>)
    ensures
        match parts {
            Some((head, tail)) => split_at_char(text@, c) == Some((head@, tail@)),
            None => split_at_char(text@, c) is None,
        },
{
    let at: usize = find_char(text, c);
    if at < text.len() {
        let head = copy_range(text, 0, at);
        let tail = copy_range(text, at + 1, text.len());
        proof {
            assert(head@ =~= text@.take(at as int));
            assert(tail@ =~= text@.skip(at + 1));
        }
        Some((head, tail))
    } else {
        None
    }
}

/// Dice that were read.
struct ReadDice {
    count: u64,
    sides: u64,
    modifier: i128,
}

fn read_dice(expression: &Vec<char>) -> (r: Option<ReadDice>)
    ensures
        match r {
            Some(dice) => parsed_dice(expression@) == Some(
                Dice {
                    count: dice.count as int,
                    sides: dice.sides as int,
                    modifier: dice.modifier as int,
                },
            ) && dice.count <= 1000 && 1 <= dice.sides <= 1000000 && i64::MIN
                <= dice.modifier <= 9223372036854775808,
            None => parsed_dice(expression@) is None,
        },
{
    let (count_text, rest) = match split_char(expression, 'd') {
        Some(parts) => parts,
        None => (to_chars("1"), copy_range(expression, 0, expression.len())),
    };
    proof {
        assert(expression@.subrange(0, expression@.len() as int) =~= expression@);
        assert(rest@.subrange(0, rest@.len() as int) =~= rest@);
    }
    let (sides_text, modifier) = match split_char(&rest, '+') {
        Some((sides, added)) => (
            sides,
            match read_signed(from_chars(&added).as_str()) {
                Some(n) => Some(n as i128),
                None => None,
            },
        ),
        None => match split_char(&rest, '-') {
            Some((sides, taken)) => (
                sides,
                match read_signed(from_chars(&taken).as_str()) {
                    Some(n) => Some(-(n as i128)),
                    None => None,
                },
            ),
            None => (copy_range(&rest, 0, rest.len()), Some(0i128)),
        },
    };
    let count = read_unsigned(from_chars(&count_text).as_str(), 1000);
    let sides = read_unsigned(from_chars(&sides_text).as_str(), 1000000);
    match (count, sides, modifier) {
        (Some(count), Some(sides), Some(modifier)) => if count == 0 || sides == 0 {
            None
        } else {
            Some(ReadDice { count, sides, modifier })
        },
        _ => None,
    }
}

fn roll(expression: &str, random: &mut u64) -> (r: Result<String, MacroError>)
    ensures
        forall|machine: Machine|
            machine.random == *old(random) ==> match r {
                Ok(text) => #[trigger] rolled(expression@, machine) == Evaluated::Output(
                    text@,
                    machine.with_random(*final(random)),
                ),
                Err(e) => rolled(expression@, machine) == Evaluated::Fault(
                    fault_view(e),
                    machine.with_random(*final(random)),
                ),
            },
{
    let inner = trim(expression);
    let dice = match read_dice(&to_chars(inner.as_str())) {
        Some(dice) => dice,
        None => {
            return Err(MacroError::InvalidRoll(inner));
        },
    };
    let ghost start = *random;
    let mut total: i128 = 0;
    let mut i: u64 = 0;
    while i < dice.count
        invariant
            i <= dice.count <= 1000,
            1 <= dice.sides <= 1000000,
            *random == random_after(start, i as int),
            total as int == dice_total(start, i as int, dice.sides as int),
            0 <= total <= i * 1000000,
        decreases dice.count - i,
    {
        *random = step_random(*random);
        let shown: u64 = *random % dice.sides + 1;
        total = total + shown as i128;
        i = i + 1;
    }
    let total: i128 = total + dice.modifier;
    if total < i64::MIN as i128 || total > i64::MAX as i128 {
        return Err(MacroError::InvalidRoll(inner));
    }
    Ok(signed_text(total as i64))
}

/// What a variable's expression does.
#[derive(Clone, Copy, Debug, Eq, PartialEq, Structural)]
pub enum Operator {
    Read,
    NullishAssign,
    OrAssign,
    Add,
    Subtract,
    Equal,
    NotEqual,
    AtLeast,
    AtMost,
    Increment,
    Decrement,
    Greater,
    Less,
    Assign,
    Nullish,
    Or,
}

impl Operator {
    /// The written operator.
    pub open spec fn symbol(self) -> Seq<char> {
        match self {
            Operator::Read => ""@,
            Operator::NullishAssign => "??="@,
            Operator::OrAssign => "||="@,
            Operator::Add => "+="@,
            Operator::Subtract => "-="@,
            Operator::Equal => "=="@,
            Operator::NotEqual => "!="@,
            Operator::AtLeast => ">="@,
            Operator::AtMost => "<="@,
            Operator::Increment => "++"@,
            Operator::Decrement => "--"@,
            Operator::Greater => ">"@,
            Operator::Less => "<"@,
            Operator::Assign => "="@,
            Operator::Nullish => "??"@,
            Operator::Or => "||"@,
        }
    }
}

/// An operator stands in an expression.
pub open spec fn holds_operator(expression: Seq<char>, operator: Operator) -> bool {
    first_occurrence(expression, operator.symbol(), 0) < expression.len()
}

/// The operator of an expression: of those that stand in it the one that comes
/// first in this order.
pub open spec fn operator_of(expression: Seq<char>) -> Operator {
    if holds_operator(expression, Operator::NullishAssign) {
        Operator::NullishAssign
    } else if holds_operator(expression, Operator::OrAssign) {
        Operator::OrAssign
    } else if holds_operator(expression, Operator::Add) {
        Operator::Add
    } else if holds_operator(expression, Operator::Subtract) {
        Operator::Subtract
    } else if holds_operator(expression, Operator::Equal) {
        Operator::Equal
    } else if holds_operator(expression, Operator::NotEqual) {
        Operator::NotEqual
    } else if holds_operator(expression, Operator::AtLeast) {
        Operator::AtLeast
    } else if holds_operator(expression, Operator::AtMost) {
        Operator::AtMost
    } else if holds_operator(expression, Operator::Increment) {
        Operator::Increment
    } else if holds_operator(expression, Operator::Decrement) {
        Operator::Decrement
    } else if holds_operator(expression, Operator::Greater) {
        Operator::Greater
    } else if holds_operator(expression, Operator::Less) {
        Operator::Less
    } else if holds_operator(expression, Operator::Assign) {
        Operator::Assign
    } else if holds_operator(expression, Operator::Nullish) {
        Operator::Nullish
    } else if holds_operator(expression, Operator::Or) {
        Operator::Or
    } else {
        Operator::Read
    }
}

/// The variable that an expression names: what stands in front of its operator.
pub open spec fn expression_name(expression: Seq<char>) -> Seq<char> {
    let operator = operator_of(expression);
    if operator == Operator::Read {
        trimmed(expression)
    } else {
        trimmed(expression.take(first_occurrence(expression, operator.symbol(), 0)))
    }
}

/// The value that an expression gives: what stands behind its operator.
pub open spec fn expression_value(expression: Seq<char>) -> Seq<char> {
    let operator = operator_of(expression);
    if operator == Operator::Read {
        Seq::empty()
    } else {
        trimmed(
            expression.skip(
                first_occurrence(expression, operator.symbol(), 0) + operator.symbol().len(),
            ),
        )
    }
}

/// The word for a truth value.
pub open spec fn flag_text(flag: bool) -> Seq<char> {
    if flag {
        "true"@
    } else {
        "false"@
    }
}

fn flag_string(flag: bool) -> (r: String)
    ensures
        r@ == flag_text(flag),
{
    if flag {
        "true".to_owned()
    } else {
        "false".to_owned()
    }
}

/// What comes of adding to a variable.
pub open spec fn added(
    replies: Replies,
    scope: VariableScope,
    name: Seq<char>,
    addend: Seq<char>,
    origin: Seq<char>,
    machine: Machine,
) -> Evaluated {
    let current = machine.variables.raw(scope, name);
    match sum_known(replies, current, addend) {
        Some(sum) => Evaluated::Output(
            Seq::empty(),
            machine.with_variables(
                machine.variables.with(scope, name, sum, "macro"@, origin),
            ),
        ),
        None => Evaluated::Fault(
            Fault::Unresolved(QuestionView::Sum { current, addend }),
            machine,
        ),
    }
}

/// What comes of stepping a variable by one: its new value.
pub open spec fn stepped(
    replies: Replies,
    scope: VariableScope,
    name: Seq<char>,
    up: bool,
    origin: Seq<char>,
    machine: Machine,
) -> Evaluated {
    let current = machine.variables.raw(scope, name);
    match step_known(replies, current, up) {
        Some(result) => Evaluated::Output(
            result,
            machine.with_variables(
                machine.variables.with(scope, name, result, "macro"@, origin),
            ),
        ),
        None => Evaluated::Fault(Fault::Unresolved(QuestionView::Step { current, up }), machine),
    }
}

/// What comes of setting a variable.
pub open spec fn assigned(
    scope: VariableScope,
    name: Seq<char>,
    value: Seq<char>,
    origin: Seq<char>,
    output: Seq<char>,
    machine: Machine,
) -> Evaluated {
    Evaluated::Output(
        output,
        machine.with_variables(machine.variables.with(scope, name, value, "macro"@, origin)),
    )
}

/// Whether an order is the one that an operator asks for.
pub open spec fn order_meets(order: NumberOrder, operator: Operator) -> bool {
    match operator {
        Operator::Greater => order == NumberOrder::Greater,
        Operator::Less => order == NumberOrder::Less,
        Operator::AtLeast => order == NumberOrder::Greater || order == NumberOrder::Equal,
        _ => order == NumberOrder::Less || order == NumberOrder::Equal,
    }
}

/// What comes of a variable's expression.
pub open spec fn shorthand_applied(
    replies: Replies,
    scope: VariableScope,
    operator: Operator,
    name: Seq<char>,
    value: Seq<char>,
    machine: Machine,
) -> Evaluated {
    let current = machine.variables.raw(scope, name);
    match operator {
        Operator::Read => Evaluated::Output(or_empty(current), machine),
        Operator::Assign => assigned(
            scope,
            name,
            value,
            "shorthand-set"@,
            Seq::empty(),
            machine,
        ),
        Operator::Add => added(replies, scope, name, value, "shorthand-add"@, machine),
        Operator::Subtract => match negation_known(replies, value) {
            None => Evaluated::Fault(
                Fault::Unresolved(QuestionView::Negation { text: value }),
                machine,
            ),
            Some(None) => Evaluated::Fault(Fault::InvalidNumber(value), machine),
            Some(Some(negated)) => added(
                replies,
                scope,
                name,
                negated,
                "shorthand-subtract"@,
                machine,
            ),
        },
        Operator::Increment => stepped(
            replies,
            scope,
            name,
            true,
            "shorthand-increment"@,
            machine,
        ),
        Operator::Decrement => stepped(
            replies,
            scope,
            name,
            false,
            "shorthand-decrement"@,
            machine,
        ),
        Operator::Or => Evaluated::Output(
            if current is Some && truthy(current->0) {
                current->0
            } else {
                value
            },
            machine,
        ),
        Operator::Nullish => Evaluated::Output(
            match current {
                Some(c) => c,
                None => value,
            },
            machine,
        ),
        Operator::OrAssign => if current is Some && truthy(current->0) {
            Evaluated::Output(current->0, machine)
        } else {
            assigned(scope, name, value, "shorthand-or-assign"@, value, machine)
        },
        Operator::NullishAssign => match current {
            Some(c) => Evaluated::Output(c, machine),
            None => assigned(scope, name, value, "shorthand-nullish-assign"@, value, machine),
        },
        Operator::Equal => Evaluated::Output(flag_text(or_empty(current) == value), machine),
        Operator::NotEqual => Evaluated::Output(flag_text(or_empty(current) != value), machine),
        _ => match order_known(replies, or_empty(current), value) {
            Some(order) => Evaluated::Output(flag_text(order_meets(order, operator)), machine),
            None => Evaluated::Fault(
                Fault::Unresolved(QuestionView::Order { left: or_empty(current), right: value }),
                machine,
            ),
        },
    }
}

/// What comes of a macro named like a variable, with its arguments as part of
/// the expression.
pub open spec fn shorthand(
    replies: Replies,
    scope: VariableScope,
    variable: Seq<char>,
    arguments: Seq<Seq<char>>,
    machine: Machine,
) -> Evaluated {
    let expression = if arguments.len() == 0 {
        variable
    } else {
        variable + " "@ + interspersed(arguments, "::"@)
    };
    shorthand_applied(
        replies,
        scope,
        operator_of(expression),
        expression_name(expression),
        expression_value(expression),
        machine,
    )
}

/// An outcome is what a macro comes to: its text or its error, and the
/// variables as they are afterwards.
pub open spec fn comes_to(
    evaluated: Evaluated,
    machine: Machine,
    result: Result<String, MacroError>,
    variables: Variables,
) -> bool {
    match result {
        Ok(text) => evaluated == Evaluated::Output(text@, machine.with_variables(variables)),
        Err(e) => evaluated == Evaluated::Fault(
            fault_view(e),
            machine.with_variables(variables),
        ),
    }
}

fn add_to_variable(
    replies: &Replies,
    scope: VariableScope,
    name: &str,
    addend: &str,
    origin: &str,
    state: &mut StateTransaction,
) -> (r: Result<String, MacroError>)
    requires
        old(state).wf(),
    ensures
        final(state).wf(),
        forall|machine: Machine|
            machine.variables == old(state)@ ==> comes_to(
                #[trigger] added(*replies, scope, name@, addend@, origin@, machine),
                machine,
                r,
                final(state)@,
            ),
{
    let current = raw_value(state, scope, name);
    match know_sum(replies, &current, addend) {
        Ok(sum) => {
            state.set_raw(scope, name, sum.as_str(), "macro", origin);
            Ok(String::new())
        },
        Err(question) => Err(MacroError::Unresolved(question)),
    }
}

fn step_variable(
    replies: &Replies,
    scope: VariableScope,
    name: &str,
    up: bool,
    origin: &str,
    state: &mut StateTransaction,
) -> (r: Result<String, MacroError>)
    requires
        old(state).wf(),
    ensures
        final(state).wf(),
        forall|machine: Machine|
            machine.variables == old(state)@ ==> comes_to(
                #[trigger] stepped(*replies, scope, name@, up, origin@, machine),
                machine,
                r,
                final(state)@,
            ),
{
    let current = raw_value(state, scope, name);
    match know_step(replies, &current, up) {
        Ok(result) => {
            state.set_raw(scope, name, result.as_str(), "macro", origin);
            Ok(result)
        },
        Err(question) => Err(MacroError::Unresolved(question)),
    }
}

fn check_operator(expression: &Vec<char>, symbol: &str) -> (at: usize)
    requires
        symbol@.len() > 0,
    ensures
        at == first_occurrence(expression@, symbol@, 0),
        at <= expression@.len(),
        at < expression@.len() ==> at + symbol@.len() <= expression@.len(),
{
    find_from(expression, &to_chars(symbol), 0)
}

/// An expression in its parts.
struct Expression {
    operator: Operator,
    name: String,
    value: String,
}

fn cut_expression(expression: &Vec<char>, operator: Operator, at: usize, width: usize) -> (r:
    Expression)
    requires
        operator != Operator::Read,
        operator == operator_of(expression@),
        at == first_occurrence(expression@, operator.symbol(), 0),
        width == operator.symbol().len(),
        at + width <= expression@.len(),
    ensures
        r.operator == operator_of(expression@),
        r.name@ == expression_name(expression@),
        r.value@ == expression_value(expression@),
{
    let length: usize = expression.len();
    let name_range = trim_range(expression, 0, at);
    let value_range = trim_range(expression, at + width, length);
    proof {
        assert(expression@.subrange(0, at as int) =~= expression@.take(at as int));
        assert(expression@.subrange(at + width, expression@.len() as int) =~= expression@.skip(
            at + width,
        ));
    }
    Expression {
        operator,
        name: from_range(expression, name_range.0, name_range.1),
        value: from_range(expression, value_range.0, value_range.1),
    }
}

fn parse_expression(expression: &Vec<char>) -> (r: Expression)
    ensures
        r.operator == operator_of(expression@),
        r.name@ == expression_name(expression@),
        r.value@ == expression_value(expression@),
{
    proof {
        reveal_strlit("??=");
        reveal_strlit("||=");
        reveal_strlit("+=");
        reveal_strlit("-=");
        reveal_strlit("==");
        reveal_strlit("!=");
        reveal_strlit(">=");
        reveal_strlit("<=");
        reveal_strlit("++");
        reveal_strlit("--");
        reveal_strlit(">");
        reveal_strlit("<");
        reveal_strlit("=");
        reveal_strlit("??");
        reveal_strlit("||");
    }
    let length: usize = expression.len();
    let at: usize = check_operator(expression, "??=");
    if at < length {
        return cut_expression(expression, Operator::NullishAssign, at, 3);
    }
    let at: usize = check_operator(expression, "||=");
    if at < length {
        return cut_expression(expression, Operator::OrAssign, at, 3);
    }
    let at: usize = check_operator(expression, "+=");
    if at < length {
        return cut_expression(expression, Operator::Add, at, 2);
    }
    let at: usize = check_operator(expression, "-=");
    if at < length {
        return cut_expression(expression, Operator::Subtract, at, 2);
    }
    let at: usize = check_operator(expression, "==");
    if at < length {
        return cut_expression(expression, Operator::Equal, at, 2);
    }
    let at: usize = check_operator(expression, "!=");
    if at < length {
        return cut_expression(expression, Operator::NotEqual, at, 2);
    }
    let at: usize = check_operator(expression, ">=");
    if at < length {
        return cut_expression(expression, Operator::AtLeast, at, 2);
    }
    let at: usize = check_operator(expression, "<=");
    if at < length {
        return cut_expression(expression, Operator::AtMost, at, 2);
    }
    let at: usize = check_operator(expression, "++");
    if at < length {
        return cut_expression(expression, Operator::Increment, at, 2);
    }
    let at: usize = check_operator(expression, "--");
    if at < length {
        return cut_expression(expression, Operator::Decrement, at, 2);
    }
    let at: usize = check_operator(expression, ">");
    if at < length {
        return cut_expression(expression, Operator::Greater, at, 1);
    }
    let at: usize = check_operator(expression, "<");
    if at < length {
        return cut_expression(expression, Operator::Less, at, 1);
    }
    let at: usize = check_operator(expression, "=");
    if at < length {
        return cut_expression(expression, Operator::Assign, at, 1);
    }
    let at: usize = check_operator(expression, "??");
    if at < length {
        return cut_expression(expression, Operator::Nullish, at, 2);
    }
    let at: usize = check_operator(expression, "||");
    if at < length {
        return cut_expression(expression, Operator::Or, at, 2);
    }
    let range = trim_range(expression, 0, length);
    proof {
        assert(expression@.subrange(0, length as int) =~= expression@);
    }
    Expression {
        operator: Operator::Read,
        name: from_range(expression, range.0, range.1),
        value: String::new(),
    }
}

/// Evaluates a variable's expression in its parts.
pub fn apply_shorthand(
    replies: &Replies,
    scope: VariableScope,
    operator: Operator,
    name: &str,
    value: &str,
    state: &mut StateTransaction,
) -> (r: Result<String, MacroError>)
    requires
        old(state).wf(),
    ensures
        final(state).wf(),
        forall|machine: Machine|
            machine.variables == old(state)@ ==> comes_to(
                #[trigger] shorthand_applied(*replies, scope, operator, name@, value@, machine),
                machine,
                r,
                final(state)@,
            ),
{
    let current = raw_value(state, scope, name);
    match operator {
        Operator::Read => Ok(text_or_empty(current)),
        Operator::Assign => {
            state.set_raw(scope, name, value, "macro", "shorthand-set");
            Ok(String::new())
        },
        Operator::Add => add_to_variable(replies, scope, name, value, "shorthand-add", state),
        Operator::Subtract => match know_negation(replies, value) {
            Err(question) => Err(MacroError::Unresolved(question)),
            Ok(None) => Err(MacroError::InvalidNumber(value.to_owned())),
            Ok(Some(negated)) => add_to_variable(
                replies,
                scope,
                name,
                negated.as_str(),
                "shorthand-subtract",
                state,
            ),
        },
        Operator::Increment => step_variable(
            replies,
            scope,
            name,
            true,
            "shorthand-increment",
            state,
        ),
        Operator::Decrement => step_variable(
            replies,
            scope,
            name,
            false,
            "shorthand-decrement",
            state,
        ),
        Operator::Or => match current {
            Some(c) => if is_truthy(c.as_str()) {
                Ok(c)
            } else {
                Ok(value.to_owned())
            },
            None => Ok(value.to_owned()),
        },
        Operator::Nullish => match current {
            Some(c) => Ok(c),
            None => Ok(value.to_owned()),
        },
        Operator::OrAssign => {
            match current {
                Some(c) => if is_truthy(c.as_str()) {
                    return Ok(c);
                },
                None => {},
            }
            state.set_raw(scope, name, value, "macro", "shorthand-or-assign");
            Ok(value.to_owned())
        },
        Operator::NullishAssign => match current {
            Some(c) => Ok(c),
            None => {
                state.set_raw(scope, name, value, "macro", "shorthand-nullish-assign");
                Ok(value.to_owned())
            },
        },
        Operator::Equal => {
            let c = text_or_empty(current);
            Ok(flag_string(same(c.as_str(), value)))
        },
        Operator::NotEqual => {
            let c = text_or_empty(current);
            Ok(flag_string(!same(c.as_str(), value)))
        },
        Operator::Greater | Operator::Less | Operator::AtLeast | Operator::AtMost => {
            let c = text_or_empty(current);
            match know_order(replies, c.as_str(), value) {
                Ok(order) => {
                    let meets = match operator {
                        Operator::Greater => order == NumberOrder::Greater,
                        Operator::Less => order == NumberOrder::Less,
                        Operator::AtLeast => order == NumberOrder::Greater || order
                            == NumberOrder::Equal,
                        _ => order == NumberOrder::Less || order == NumberOrder::Equal,
                    };
                    Ok(flag_string(meets))
                },
                Err(question) => Err(MacroError::Unresolved(question)),
            }
        },
    }
}

/// Evaluates a macro named like a variable.
pub fn variable_shorthand(
    replies: &Replies,
    scope: VariableScope,
    variable: &str,
    arguments: &Vec<String>,
    state: &mut StateTransaction,
) -> (r: Result<String, MacroError>)
    requires
        old(state).wf(),
    ensures
        final(state).wf(),
        forall|machine: Machine|
            machine.variables == old(state)@ ==> comes_to(
                #[trigger] shorthand(
                    *replies,
                    scope,
                    variable@,
                    views(arguments@),
                    machine,
                ),
                machine,
                r,
                final(state)@,
            ),
{
    let mut expression = variable.to_owned();
    if arguments.len() > 0 {
        expression.push_str(" ");
        expression.push_str(join_texts(arguments, "::").as_str());
    }
    let parts = parse_expression(&to_chars(expression.as_str()));
    apply_shorthand(
        replies,
        scope,
        parts.operator,
        parts.name.as_str(),
        parts.value.as_str(),
        state,
    )
}

/// What comes of a macro that cannot be resolved: its source, with a warning.
pub open spec fn preserved(source: Seq<char>, message: Seq<char>, machine: Machine) -> Evaluated {
    Evaluated::Output(source, machine.warned(message))
}

/// The text of a flag.
pub open spec fn flagged(flag: bool, machine: Machine) -> Evaluated {
    Evaluated::Output(flag_text(flag), machine)
}

/// What comes of a macro that changes nothing and makes its text of its first
/// argument or of the context; nothing where the name is not that of one.
pub open spec fn plain_applied(
    lower: Seq<char>,
    first: Seq<char>,
    context: MacroContext,
    machine: Machine,
) -> Option<Evaluated> {
    let nothing = Seq::<char>::empty();
    if lower == "space"@ {
        Some(
            repeated(' ', first, machine),
        )
    } else if lower == "newline"@ {
        Some(
            repeated('\n', first, machine),
        )
    } else if lower == "noop"@ || lower == "else"@ {
        Some(
            Evaluated::Output(nothing, machine),
        )
    } else if lower == "trim"@ {
        Some(
            Evaluated::Output(trimmed(first), machine),
        )
    } else if lower == "reverse"@ {
        Some(
            Evaluated::Output(first.reverse(), machine),
        )
    } else if is_context_value(lower) {
        Some(
            Evaluated::Output(
                match assoc::lookup(context.values@, lowercase_of(lower)) {
                    Some(value) => value@,
                    None => nothing,
                },
                machine,
            ),
        )
    } else if lower == "hasextension"@ {
        Some(
            flagged(views(context.plugins@).contains(first), machine),
        )
    } else if lower == "outlet"@ {
        Some(
            Evaluated::Output(
                match assoc::lookup(context.outlets@, first) {
                    Some(value) => value@,
                    None => nothing,
                },
                machine,
            ),
        )
    } else {
        None
    }
}

/// What comes of a macro that reads or changes variables; nothing where the
/// name is not that of one. `source` is the macro as it is written.
pub open spec fn variable_applied(
    lower: Seq<char>,
    first: Seq<char>,
    second: Seq<char>,
    source: Seq<char>,
    replies: Replies,
    machine: Machine,
) -> Option<Evaluated> {
    let nothing = Seq::<char>::empty();
    let variables = machine.variables;
    if lower == "setvar"@ {
        Some(
            assigned(VariableScope::Local, first, second, "setvar"@, nothing, machine),
        )
    } else if lower == "setglobalvar"@ {
        Some(
            assigned(VariableScope::Global, first, second, "setglobalvar"@, nothing, machine),
        )
    } else if lower == "addvar"@ {
        Some(
            match number_known(replies, second) {
                None => Evaluated::Fault(
                    Fault::Unresolved(QuestionView::IsNumber { text: second }),
                    machine,
                ),
                Some(is_number) => if !is_number || variables.raw(
                    VariableScope::Local,
                    first,
                ) is None {
                    preserved(
                        source,
                        "addition target '"@ + first + "' is unresolved and preserved literally"@,
                        machine,
                    )
                } else {
                    added(replies, VariableScope::Local, first, second, "addvar"@, machine)
                },
            },
        )
    } else if lower == "addglobalvar"@ {
        Some(
            added(replies, VariableScope::Global, first, second, "addglobalvar"@, machine),
        )
    } else if lower == "incvar"@ {
        Some(
            stepped(replies, VariableScope::Local, first, true, "incvar"@, machine),
        )
    } else if lower == "incglobalvar"@ {
        Some(
            stepped(replies, VariableScope::Global, first, true, "incglobalvar"@, machine),
        )
    } else if lower == "decvar"@ {
        Some(
            stepped(replies, VariableScope::Local, first, false, "decvar"@, machine),
        )
    } else if lower == "decglobalvar"@ {
        Some(
            stepped(replies, VariableScope::Global, first, false, "decglobalvar"@, machine),
        )
    } else if lower == "getvar"@ {
        Some(
            Evaluated::Output(or_empty(variables.raw(VariableScope::Local, first)), machine),
        )
    } else if lower == "getglobalvar"@ {
        Some(
            match variables.raw(VariableScope::Global, first) {
                Some(value) => Evaluated::Output(value, machine),
                None => preserved(
                    source,
                    "extension-owned global variable '"@ + first
                        + "' is unresolved and preserved literally"@,
                    machine,
                ),
            },
        )
    } else if lower == "hasvar"@ {
        Some(
            flagged(variables.raw(VariableScope::Local, first) is Some, machine),
        )
    } else if lower == "hasglobalvar"@ {
        Some(
            flagged(variables.raw(VariableScope::Global, first) is Some, machine),
        )
    } else if lower == "deletevar"@ {
        Some(
            Evaluated::Output(
                nothing,
                machine.with_variables(variables.without(VariableScope::Local, first)),
            ),
        )
    } else if lower == "deleteglobalvar"@ {
        Some(
            Evaluated::Output(
                nothing,
                machine.with_variables(variables.without(VariableScope::Global, first)),
            ),
        )
    } else {
        None
    }
}

/// What comes of a macro of chance, of a condition, of one that is refused and
/// of one that is registered or unknown. `source` is the macro as it is
/// written.
pub open spec fn other_applied(
    lower: Seq<char>,
    name: Seq<char>,
    arguments: Seq<Seq<char>>,
    source: Seq<char>,
    context: MacroContext,
    machine: Machine,
) -> Evaluated {
    let first = argument(arguments, 0);
    let second = argument(arguments, 1);
    let nothing = Seq::<char>::empty();
    let variables = machine.variables;
    if lower == "random"@ {
        let random = next_random(machine.random);
        Evaluated::Output(
            chosen(choice_list(arguments), random as int),
            machine.with_random(random),
        )
    } else if lower == "pick"@ {
        let choices = choice_list(arguments);
        Evaluated::Output(chosen(choices, pick_seed(choices)), machine)
    } else if lower == "roll"@ {
        rolled(first, machine)
    } else if lower == "if"@ {
        Evaluated::Output(
            if condition_holds(first, context, variables) {
                second
            } else {
                nothing
            },
            machine,
        )
    } else if is_unsupported(lower) {
        Evaluated::Fault(Fault::HardUnsupported(name), machine)
    } else {
        match assoc::lookup(context.registered_macros@, lower) {
            Some(value) => Evaluated::Output(value@, machine),
            None => preserved(
                source,
                "macro '"@ + name + "' is unresolved and preserved literally"@,
                machine,
            ),
        }
    }
}

/// What comes of a macro, by its name in small letters. `source` is the macro
/// as it is written.
pub open spec fn applied(
    lower: Seq<char>,
    name: Seq<char>,
    arguments: Seq<Seq<char>>,
    source: Seq<char>,
    context: MacroContext,
    replies: Replies,
    machine: Machine,
) -> Evaluated {
    let first = argument(arguments, 0);
    let second = argument(arguments, 1);
    if begins_with(lower, "//"@) {
        Evaluated::Output(Seq::<char>::empty(), machine)
    } else if opens_with(lower, '.') {
        shorthand(replies, VariableScope::Local, lower.drop_first(), arguments, machine)
    } else if opens_with(lower, '$') {
        shorthand(replies, VariableScope::Global, lower.drop_first(), arguments, machine)
    } else if plain_applied(lower, first, context, machine) is Some {
        plain_applied(lower, first, context, machine)->0
    } else if variable_applied(lower, first, second, source, replies, machine) is Some {
        variable_applied(lower, first, second, source, replies, machine)->0
    } else {
        other_applied(lower, name, arguments, source, context, machine)
    }
}

/// A macro that is refused outright.
pub open spec fn is_unsupported(lower: Seq<char>) -> bool {
    ||| lower == "input"@
    ||| lower == "banned"@
    ||| lower == "notchar"@
    ||| lower == "ismobile"@
    ||| lower == "systemprompt"@
}

fn reverse_text(text: &str) -> (r: String)
    ensures
        r@ == text@.reverse(),
{
    let chars = to_chars(text);
    let mut r = String::new();
    let mut i: usize = chars.len();
    while i > 0
        invariant
            i <= chars@.len(),
            chars@ == text@,
            r@ == text@.reverse().take(text@.len() - i),
        decreases i,
    {
        i = i - 1;
        r.push(chars[i]);
        proof {
            assert(r@ =~= text@.reverse().take(text@.len() - i));
        }
    }
    proof {
        assert(text@.reverse().take(text@.len() as int) =~= text@.reverse());
    }
    r
}

fn warn(warnings: &mut Vec<MacroWarning>, head: &str, subject: &str, tail: &str)
    ensures
        warnings_view(final(warnings)@) == warnings_view(old(warnings)@).push(
            ("unknown-macro-preserved"@, head@ + subject@ + tail@),
        ),
{
    let mut message = head.to_owned();
    message.push_str(subject);
    message.push_str(tail);
    let ghost before = warnings@;
    warnings.push(MacroWarning { code: "unknown-macro-preserved".to_owned(), message });
    proof {
        assert forall|i: int| 0 <= i < before.len() implies warnings_view(warnings@)[i]
            == warnings_view(before)[i] by {
            assert(warnings@[i] == before[i]);
        }
        assert(warnings_view(warnings@) =~= warnings_view(before).push(
            ("unknown-macro-preserved"@, head@ + subject@ + tail@),
        ));
    }
}

/// The state of chance, the variables and the warnings as macros change them.
pub open spec fn machine_of(
    random: u64,
    state: StateTransaction,
    warnings: Seq<MacroWarning>,
) -> Machine {
    Machine { random, variables: state@, warnings: warnings_view(warnings) }
}

fn apply_plain(lower: &str, first: &str, context: &MacroContext) -> (r: Option<
    Result<String, MacroError>,
>)
    ensures
        forall|machine: Machine|
            match r {
                None => #[trigger] plain_applied(lower@, first@, *context, machine) is None,
                Some(Ok(text)) => plain_applied(lower@, first@, *context, machine) == Some(
                    Evaluated::Output(text@, machine),
                ),
                Some(Err(e)) => plain_applied(lower@, first@, *context, machine) == Some(
                    Evaluated::Fault(fault_view(e), machine),
                ),
            },
{
    if same(lower, "space") {
        let r = {
            repeat_text(' ', first)
        };
        Some(r)
    } else if same(lower, "newline") {
        let r = {
            repeat_text('\n', first)
        };
        Some(r)
    } else if same(lower, "noop") || same(lower, "else") {
        let r = {
            Ok(String::new())
        };
        Some(r)
    } else if same(lower, "trim") {
        let r = {
            Ok(trim(first))
        };
        Some(r)
    } else if same(lower, "reverse") {
        let r = {
            Ok(reverse_text(first))
        };
        Some(r)
    } else if check_context_value(lower) {
        let r = {
            let key = lowercase(lower);
            match assoc::find(&context.values, key.as_str()) {
                Some(value) => Ok(value.clone()),
                None => Ok(String::new()),
            }
        };
        Some(r)
    } else if same(lower, "hasextension") {
        let r = {
            Ok(flag_string(contains_text(&context.plugins, first)))
        };
        Some(r)
    } else if same(lower, "outlet") {
        let r = {
            match assoc::find(&context.outlets, first) {
                Some(value) => Ok(value.clone()),
                None => Ok(String::new()),
            }
        };
        Some(r)
    } else {
        None
    }
}

fn apply_variable(
    lower: &str,
    first: &str,
    second: &str,
    source: &str,
    replies: &Replies,
    state: &mut StateTransaction,
    warnings: &mut Vec<MacroWarning>,
) -> (r: Option<Result<String, MacroError>>)
    requires
        old(state).wf(),
    ensures
        final(state).wf(),
        forall|random: u64|
            {
                let evaluated = variable_applied(
                    lower@,
                    first@,
                    second@,
                    source@,
                    *replies,
                    #[trigger] machine_of(random, *old(state), old(warnings)@),
                );
                let after = machine_of(random, *final(state), final(warnings)@);
                match r {
                    None => evaluated is None && *final(state) == *old(state) && final(warnings)@
                        == old(warnings)@,
                    Some(Ok(text)) => evaluated == Some(Evaluated::Output(text@, after)),
                    Some(Err(e)) => evaluated == Some(Evaluated::Fault(fault_view(e), after)),
                }
            },
{
    if same(lower, "setvar") {
        let r = {
            state.set_raw(VariableScope::Local, first, second, "macro", "setvar");
            Ok(String::new())
        };
        Some(r)
    } else if same(lower, "setglobalvar") {
        let r = {
            state.set_raw(VariableScope::Global, first, second, "macro", "setglobalvar");
            Ok(String::new())
        };
        Some(r)
    } else if same(lower, "addvar") {
        let r = {
            match know_number(replies, second) {
                Err(question) => Err(MacroError::Unresolved(question)),
                Ok(is_number) => if !is_number || state.get(VariableScope::Local, first).is_none() {
                    warn(
                        warnings,
                        "addition target '",
                        first,
                        "' is unresolved and preserved literally",
                    );
                    Ok(source.to_owned())
                } else {
                    add_to_variable(replies, VariableScope::Local, first, second, "addvar", state)
                },
            }
        };
        Some(r)
    } else if same(lower, "addglobalvar") {
        let r = {
            add_to_variable(replies, VariableScope::Global, first, second, "addglobalvar", state)
        };
        Some(r)
    } else if same(lower, "incvar") {
        let r = {
            step_variable(replies, VariableScope::Local, first, true, "incvar", state)
        };
        Some(r)
    } else if same(lower, "incglobalvar") {
        let r = {
            step_variable(replies, VariableScope::Global, first, true, "incglobalvar", state)
        };
        Some(r)
    } else if same(lower, "decvar") {
        let r = {
            step_variable(replies, VariableScope::Local, first, false, "decvar", state)
        };
        Some(r)
    } else if same(lower, "decglobalvar") {
        let r = {
            step_variable(replies, VariableScope::Global, first, false, "decglobalvar", state)
        };
        Some(r)
    } else if same(lower, "getvar") {
        let r = {
            Ok(text_or_empty(raw_value(state, VariableScope::Local, first)))
        };
        Some(r)
    } else if same(lower, "getglobalvar") {
        let r = {
            match raw_value(state, VariableScope::Global, first) {
                Some(value) => Ok(value),
                None => {
                    warn(
                        warnings,
                        "extension-owned global variable '",
                        first,
                        "' is unresolved and preserved literally",
                    );
                    Ok(source.to_owned())
                },
            }
        };
        Some(r)
    } else if same(lower, "hasvar") {
        let r = {
            Ok(flag_string(state.get(VariableScope::Local, first).is_some()))
        };
        Some(r)
    } else if same(lower, "hasglobalvar") {
        let r = {
            Ok(flag_string(state.get(VariableScope::Global, first).is_some()))
        };
        Some(r)
    } else if same(lower, "deletevar") {
        let r = {
            state.delete(VariableScope::Local, first);
            Ok(String::new())
        };
        Some(r)
    } else if same(lower, "deleteglobalvar") {
        let r = {
            state.delete(VariableScope::Global, first);
            Ok(String::new())
        };
        Some(r)
    } else {
        None
    }
}

fn apply_other(
    lower: &str,
    name: &str,
    arguments: &Vec<String>,
    source: &str,
    context: &MacroContext,
    random: &mut u64,
    state: &StateTransaction,
    warnings: &mut Vec<MacroWarning>,
) -> (r: Result<String, MacroError>)
    ensures
        ({
            let evaluated = other_applied(
                lower@,
                name@,
                views(arguments@),
                source@,
                *context,
                machine_of(*old(random), *state, old(warnings)@),
            );
            let after = machine_of(*final(random), *state, final(warnings)@);
            match r {
                Ok(text) => evaluated == Evaluated::Output(text@, after),
                Err(e) => evaluated == Evaluated::Fault(fault_view(e), after),
            }
        }),
{
    let ghost machine = machine_of(*random, *state, warnings@);
    let first = get_argument(arguments, 0);
    let second = get_argument(arguments, 1);
    let first = first.as_str();
    let second = second.as_str();
    if same(lower, "random") {
        let choices = choice_arguments(arguments);
        *random = step_random(*random);
        Ok(choose_text(&choices, *random))
    } else if same(lower, "pick") {
        let choices = choice_arguments(arguments);
        Ok(choose_text(&choices, seed_of(&choices)))
    } else if same(lower, "roll") {
        roll(first, random)
    } else if same(lower, "if") {
        if resolve_condition(first, context, state) {
            Ok(second.to_owned())
        } else {
            Ok(String::new())
        }
    } else if same(lower, "input") || same(lower, "banned") || same(lower, "notchar") || same(
        lower,
        "ismobile",
    ) || same(lower, "systemprompt") {
        Err(MacroError::HardUnsupported(name.to_owned()))
    } else {
        match assoc::find(&context.registered_macros, lower) {
            Some(value) => Ok(value.clone()),
            None => {
                warn(warnings, "macro '", name, "' is unresolved and preserved literally");
                Ok(source.to_owned())
            },
        }
    }
}

/// Evaluates a macro by its name in small letters.
pub fn apply_macro(
    lower: &str,
    name: &str,
    arguments: &Vec<String>,
    source: &str,
    context: &MacroContext,
    replies: &Replies,
    random: &mut u64,
    state: &mut StateTransaction,
    warnings: &mut Vec<MacroWarning>,
) -> (r: Result<String, MacroError>)
    requires
        old(state).wf(),
    ensures
        final(state).wf(),
        ({
            let evaluated = applied(
                lower@,
                name@,
                views(arguments@),
                source@,
                *context,
                *replies,
                machine_of(*old(random), *old(state), old(warnings)@),
            );
            let after = machine_of(*final(random), *final(state), final(warnings)@);
            match r {
                Ok(text) => evaluated == Evaluated::Output(text@, after),
                Err(e) => evaluated == Evaluated::Fault(fault_view(e), after),
            }
        }),
{
    let ghost machine = machine_of(*random, *state, warnings@);
    if starts_with(lower, "//") {
        return Ok(String::new());
    }
    let chars = to_chars(lower);
    proof {
        assert(chars@.len() > 0 ==> chars@.skip(1) =~= chars@.drop_first());
    }
    if chars.len() > 0 && chars[0] == '.' {
        let variable = rest_of(&chars, 1);
        return variable_shorthand(
            replies,
            VariableScope::Local,
            variable.as_str(),
            arguments,
            state,
        );
    }
    if chars.len() > 0 && chars[0] == '$' {
        let variable = rest_of(&chars, 1);
        return variable_shorthand(
            replies,
            VariableScope::Global,
            variable.as_str(),
            arguments,
            state,
        );
    }
    let first = get_argument(arguments, 0);
    let second = get_argument(arguments, 1);
    let first = first.as_str();
    let second = second.as_str();
    match apply_plain(lower, first, context) {
        Some(r) => {
            return r;
        },
        None => {},
    }
    match apply_variable(lower, first, second, source, replies, state, warnings) {
        Some(r) => {
            return r;
        },
        None => {},
    }
    apply_other(lower, name, arguments, source, context, random, state, warnings)
}

impl MacroContext {
    /// A context with nothing in it.
    pub fn empty() -> (context: MacroContext)
        ensures
            context.values@.len() == 0,
            context.outlets@.len() == 0,
            context.registered_macros@.len() == 0,
            context.plugins@.len() == 0,
            context.random_seed == 0,
    {
        MacroContext {
            values: Vec::new(),
            outlets: Vec::new(),
            registered_macros: Vec::new(),
            plugins: Vec::new(),
            random_seed: 0,
        }
    }

    /// Gives a value a name.
    pub fn insert(&mut self, name: &str, value: String)
        ensures
            exists|key: String|
                key@ == lowercase_of(name@) && final(self).values@ == #[trigger] assoc::with_entry(
                    old(self).values@,
                    key,
                    value,
                ),
            final(self).outlets == old(self).outlets,
            final(self).registered_macros == old(self).registered_macros,
            final(self).plugins == old(self).plugins,
            final(self).random_seed == old(self).random_seed,
    {
        let key = lowercase(name);
        assoc::set(&mut self.values, key, value);
    }

    /// Registers a macro that stands for a text.
    pub fn register(&mut self, name: &str, value: String)
        ensures
            exists|key: String|
                key@ == lowercase_of(name@) && final(self).registered_macros@
                    == #[trigger] assoc::with_entry(old(self).registered_macros@, key, value),
            final(self).outlets == old(self).outlets,
            final(self).values == old(self).values,
            final(self).plugins == old(self).plugins,
            final(self).random_seed == old(self).random_seed,
    {
        let key = lowercase(name);
        assoc::set(&mut self.registered_macros, key, value);
    }
}

/// What is said of a fault.
pub open spec fn fault_text(fault: Fault) -> Seq<char> {
    match fault {
        Fault::EmptyTag => "macro tag is empty"@,
        Fault::HardUnsupported(name) => "macro '"@ + name + "' is hard unsupported"@,
        Fault::InvalidNumber(text) => "invalid numeric macro argument '"@ + text + "'"@,
        Fault::InvalidRoll(text) => "invalid dice expression '"@ + text + "'"@,
        Fault::InvalidCount(text) => "invalid macro repeat count '"@ + text + "'"@,
        Fault::Unresolved(_) => "macro evaluation needs a reply"@,
    }
}

fn enclosed(before: &str, text: &str, after: &str) -> (all: String)
    ensures
        all@ == before@ + text@ + after@,
{
    let mut all = before.to_owned();
    all.push_str(text);
    all.push_str(after);
    all
}

impl MacroError {
    /// What is said of the error.
    pub fn message(&self) -> (text: String)
        ensures
            text@ == fault_text(fault_view(*self)),
    {
        match self {
            MacroError::EmptyTag => "macro tag is empty".to_owned(),
            MacroError::HardUnsupported(name) => enclosed(
                "macro '",
                name.as_str(),
                "' is hard unsupported",
            ),
            MacroError::InvalidNumber(text) => enclosed(
                "invalid numeric macro argument '",
                text.as_str(),
                "'",
            ),
            MacroError::InvalidRoll(text) => enclosed(
                "invalid dice expression '",
                text.as_str(),
                "'",
            ),
            MacroError::InvalidCount(text) => enclosed(
                "invalid macro repeat count '",
                text.as_str(),
                "'",
            ),
            MacroError::Unresolved(_) => "macro evaluation needs a reply".to_owned(),
        }
    }
}

} // verus!
