//! What macros need to be told: the outcome of arithmetic on numerals that are
//! no plain integers, and how the caller rewrites a macro's output.
//!
//! Plain integers are computed here. For everything else a macro asks a
//! question; the caller adds the reply and renders again.
use vstd::prelude::*;

use crate::assoc;
use crate::text::{copy_option, decimal, decimal_text, option_view, same, same_option, to_chars};

verus! {

/// How two numbers compare.
#[derive(Clone, Copy, Debug, Eq, PartialEq, Structural)]
pub enum NumberOrder {
    Less,
    Equal,
    Greater,
    Unordered,
}

/// What a macro needs to be told.
#[derive(Clone, Debug, Eq, PartialEq)]
pub enum Question {
    /// Is the text a number?
    IsNumber { text: String },
    /// What is the negative of the number that the text is, if it is one?
    Negation { text: String },
    /// What does a variable hold once something is added to it?
    Sum { current: Option<String>, addend: String },
    /// What does a variable hold once it is stepped up or down by one?
    Step { current: Option<String>, up: bool },
    /// How do two texts compare as numbers, a text that is none being zero?
    Order { left: String, right: String },
    /// What does the caller make of a macro's output?
    Transform { text: String },
}

/// The abstract value of a [`Question`].
pub enum QuestionView {
    IsNumber { text: Seq<char> },
    Negation { text: Seq<char> },
    Sum { current: Option<Seq<char>>, addend: Seq<char> },
    Step { current: Option<Seq<char>>, up: bool },
    Order { left: Seq<char>, right: Seq<char> },
    Transform { text: Seq<char> },
}

/// The abstract value of a question.
pub open spec fn question_view(question: Question) -> QuestionView {
    match question {
        Question::IsNumber { text } => QuestionView::IsNumber { text: text@ },
        Question::Negation { text } => QuestionView::Negation { text: text@ },
        Question::Sum { current, addend } => QuestionView::Sum {
            current: option_view(current),
            addend: addend@,
        },
        Question::Step { current, up } => QuestionView::Step { current: option_view(current), up },
        Question::Order { left, right } => QuestionView::Order { left: left@, right: right@ },
        Question::Transform { text } => QuestionView::Transform { text: text@ },
    }
}

/// The value of a variable after an addition.
#[derive(Clone, Debug, Eq, PartialEq)]
pub struct SumReply {
    pub current: Option<String>,
    pub addend: String,
    pub sum: String,
}

/// The value of a variable after a step.
#[derive(Clone, Debug, Eq, PartialEq)]
pub struct StepReply {
    pub current: Option<String>,
    pub up: bool,
    pub result: String,
}

/// How two texts compare as numbers.
#[derive(Clone, Debug, Eq, PartialEq)]
pub struct OrderReply {
    pub left: String,
    pub right: String,
    pub order: NumberOrder,
}

/// The replies that a caller has given so far. Where `transforms` is there, the
/// output of every macro is rewritten.
#[derive(Clone, Debug, Eq, PartialEq)]
pub struct Replies {
    pub numbers: Vec<(String, bool)>,
    pub negations: Vec<(String, Option<String>)>,
    pub sums: Vec<SumReply>,
    pub steps: Vec<StepReply>,
    pub orders: Vec<OrderReply>,
    pub transforms: Option<Vec<(String, String)>>,
}

impl Replies {
    /// No replies, and no rewriting.
    pub fn none() -> (replies: Replies)
        ensures
            replies.numbers@.len() == 0,
            replies.negations@.len() == 0,
            replies.sums@.len() == 0,
            replies.steps@.len() == 0,
            replies.orders@.len() == 0,
            replies.transforms is None,
    {
        Replies {
            numbers: Vec::new(),
            negations: Vec::new(),
            sums: Vec::new(),
            steps: Vec::new(),
            orders: Vec::new(),
            transforms: None,
        }
    }
}

/// The value of a decimal digit.
pub open spec fn digit_value(c: char) -> Option<int> {
    if '0' as u32 <= c as u32 <= '9' as u32 {
        Some(c as u32 - '0' as u32)
    } else {
        None
    }
}

/// The number that decimal digits stand for.
pub open spec fn digits_value(digits: Seq<char>) -> Option<int>
    decreases digits.len(),
{
    if digits.len() == 0 {
        Some(0)
    } else {
        match (digits_value(digits.drop_last()), digit_value(digits.last())) {
            (Some(head), Some(last)) => Some(head * 10 + last),
            _ => None,
        }
    }
}

/// The digits of a numeral behind its sign.
pub open spec fn behind_sign(numeral: Seq<char>, minus: bool) -> Seq<char> {
    if numeral.len() > 0 && (numeral[0] == '+' || (minus && numeral[0] == '-')) {
        numeral.drop_first()
    } else {
        numeral
    }
}

/// The number that a numeral stands for: digits behind a sign, at least one. A
/// minus counts only where `minus` says so.
pub open spec fn numeral_value(numeral: Seq<char>, minus: bool) -> Option<int> {
    let digits = behind_sign(numeral, minus);
    if digits.len() == 0 {
        None
    } else {
        match digits_value(digits) {
            Some(n) => Some(
                if minus && numeral[0] == '-' {
                    -n
                } else {
                    n
                },
            ),
            None => None,
        }
    }
}

/// The number of a plain integer: a sign and at most fifteen digits, but no
/// negative zero.
pub open spec fn plain_integer(text: Seq<char>) -> Option<int> {
    let n = numeral_value(text, true);
    if behind_sign(text, true).len() > 15 || n is None || (n == Some(0int) && text[0] == '-') {
        None
    } else {
        n
    }
}

/// The decimal numeral of an integer.
pub open spec fn signed_decimal(n: int) -> Seq<char> {
    if n < 0 {
        seq!['-'] + decimal((-n) as nat)
    } else {
        decimal(n as nat)
    }
}

proof fn lemma_digits_bound(digits: Seq<char>)
    ensures
        digits_value(digits) is Some ==> 0 <= digits_value(digits)->0 < pow10(digits.len()),
    decreases digits.len(),
{
    if digits.len() > 0 {
        lemma_digits_bound(digits.drop_last());
    }
}

/// Ten to the power of `n`.
pub open spec fn pow10(n: nat) -> int
    decreases n,
{
    if n == 0 {
        1
    } else {
        10 * pow10((n - 1) as nat)
    }
}

proof fn lemma_digits_prefix(digits: Seq<char>, k: int)
    requires
        0 <= k <= digits.len(),
        digits_value(digits) is Some,
    ensures
        digits_value(digits.take(k)) is Some,
        digits_value(digits.take(k))->0 <= digits_value(digits)->0,
    decreases digits.len() - k,
{
    if k == digits.len() {
        assert(digits.take(k) =~= digits);
    } else {
        lemma_digits_prefix(digits, k + 1);
        assert(digits.take(k + 1).drop_last() =~= digits.take(k));
        lemma_digits_bound(digits.take(k));
    }
}

/// The number that decimal digits stand for, where it is at most `limit`.
fn read_digits(chars: &Vec<char>, from: usize, limit: u64) -> (value: Option<u64>)
    requires
        from <= chars@.len(),
    ensures
        ({
            let n = digits_value(chars@.skip(from as int));
            match value {
                Some(v) => n == Some(v as int) && v <= limit,
                None => n is None || n->0 > limit,
            }
        }),
{
    let ghost all = chars@.skip(from as int);
    let mut value: u64 = 0;
    let mut i: usize = from;
    while i < chars.len()
        invariant
            from <= i <= chars@.len(),
            all == chars@.skip(from as int),
            digits_value(all.take(i - from)) == Some(value as int),
            value <= limit,
        decreases chars@.len() - i,
    {
        let code: u32 = chars[i] as u32;
        proof {
            assert(all.take(i - from + 1).drop_last() =~= all.take(i - from));
            assert(all.take(i - from + 1).last() == chars@[i as int]);
        }
        if code < 48 || code > 57 {
            proof {
                assert(digits_value(all.take(i - from + 1)) is None);
                if digits_value(all) is Some {
                    lemma_digits_prefix(all, i - from + 1);
                }
            }
            return None;
        }
        let digit: u64 = (code - 48) as u64;
        if value > (u64::MAX - digit) / 10 || value * 10 + digit > limit {
            proof {
                assert(digits_value(all.take(i - from + 1)) == Some(value * 10 + digit));
                if digits_value(all) is Some {
                    lemma_digits_prefix(all, i - from + 1);
                }
            }
            return None;
        }
        value = value * 10 + digit;
        i = i + 1;
    }
    proof {
        assert(all.take(all.len() as int) =~= all);
    }
    Some(value)
}

/// Reads a numeral without minus, where its number is at most `limit`.
pub fn read_unsigned(text: &str, limit: u64) -> (value: Option<u64>)
    ensures
        ({
            let n = numeral_value(text@, false);
            match value {
                Some(v) => n == Some(v as int) && v <= limit,
                None => n is None || n->0 > limit,
            }
        }),
{
    let chars = to_chars(text);
    let from: usize = if chars.len() > 0 && chars[0] == '+' {
        1
    } else {
        0
    };
    proof {
        assert(behind_sign(text@, false) =~= chars@.skip(from as int));
    }
    if chars.len() == from {
        return None;
    }
    read_digits(&chars, from, limit)
}

/// Reads a numeral in the range of 64 bit integers.
pub fn read_signed(text: &str) -> (value: Option<i64>)
    ensures
        ({
            let n = numeral_value(text@, true);
            match value {
                Some(v) => n == Some(v as int),
                None => n is None || !(i64::MIN <= n->0 <= i64::MAX),
            }
        }),
{
    let chars = to_chars(text);
    let negative = chars.len() > 0 && chars[0] == '-';
    let from: usize = if chars.len() > 0 && (chars[0] == '+' || chars[0] == '-') {
        1
    } else {
        0
    };
    proof {
        assert(behind_sign(text@, true) =~= chars@.skip(from as int));
        lemma_digits_bound(behind_sign(text@, true));
    }
    if chars.len() == from {
        return None;
    }
    if negative {
        match read_digits(&chars, from, 9223372036854775808) {
            Some(v) => if v == 9223372036854775808 {
                Some(i64::MIN)
            } else {
                Some(-(v as i64))
            },
            None => None,
        }
    } else {
        match read_digits(&chars, from, 9223372036854775807) {
            Some(v) => Some(v as i64),
            None => None,
        }
    }
}

/// Reads a plain integer.
pub fn read_plain(text: &str) -> (value: Option<i64>)
    ensures
        match value {
            Some(v) => plain_integer(text@) == Some(v as int) && -1000000000000000 < v
                < 1000000000000000,
            None => plain_integer(text@) is None,
        },
{
    let chars = to_chars(text);
    let signed = chars.len() > 0 && (chars[0] == '+' || chars[0] == '-');
    let digits: usize = if signed {
        chars.len() - 1
    } else {
        chars.len()
    };
    proof {
        let d = behind_sign(text@, true);
        assert(d.len() == digits);
        lemma_digits_bound(d);
        if digits <= 15 {
            lemma_pow10_bound(digits as nat, 15);
        }
        assert(pow10(15) == 1000000000000000) by {
            reveal_with_fuel(pow10, 16);
        }
    }
    if digits > 15 {
        return None;
    }
    match read_signed(text) {
        Some(v) => if v == 0 && chars.len() > 0 && chars[0] == '-' {
            None
        } else {
            Some(v)
        },
        None => None,
    }
}

proof fn lemma_pow10_bound(a: nat, b: nat)
    requires
        a <= b,
    ensures
        0 < pow10(a) <= pow10(b),
    decreases b,
{
    if a < b {
        lemma_pow10_bound(a, (b - 1) as nat);
    } else if a > 0 {
        lemma_pow10_bound((a - 1) as nat, (b - 1) as nat);
    }
}

/// The decimal numeral of an integer.
pub fn signed_text(n: i64) -> (text: String)
    ensures
        text@ == signed_decimal(n as int),
{
    if n == i64::MIN {
        let mut text = "-".to_owned();
        proof {
            reveal_strlit("-");
            assert("-"@ =~= seq!['-']);
        }
        text.push_str(decimal_text(9223372036854775808).as_str());
        text
    } else if n < 0 {
        let mut text = "-".to_owned();
        proof {
            reveal_strlit("-");
            assert("-"@ =~= seq!['-']);
        }
        text.push_str(decimal_text((-n) as u64).as_str());
        text
    } else {
        decimal_text(n as u64)
    }
}

/// The first sum that answers a question.
pub open spec fn sum_reply(
    replies: Seq<SumReply>,
    current: Option<Seq<char>>,
    addend: Seq<char>,
) -> Option<Seq<char>>
    decreases replies.len(),
{
    if replies.len() == 0 {
        None
    } else if option_view(replies[0].current) == current && replies[0].addend@ == addend {
        Some(replies[0].sum@)
    } else {
        sum_reply(replies.drop_first(), current, addend)
    }
}

/// The first step that answers a question.
pub open spec fn step_reply(replies: Seq<StepReply>, current: Option<Seq<char>>, up: bool) -> Option<
    Seq<char>,
>
    decreases replies.len(),
{
    if replies.len() == 0 {
        None
    } else if option_view(replies[0].current) == current && replies[0].up == up {
        Some(replies[0].result@)
    } else {
        step_reply(replies.drop_first(), current, up)
    }
}

/// The first order that answers a question.
pub open spec fn order_reply(replies: Seq<OrderReply>, left: Seq<char>, right: Seq<char>) -> Option<
    NumberOrder,
>
    decreases replies.len(),
{
    if replies.len() == 0 {
        None
    } else if replies[0].left@ == left && replies[0].right@ == right {
        Some(replies[0].order)
    } else {
        order_reply(replies.drop_first(), left, right)
    }
}

/// Whether a text is a number. An empty text is none.
pub open spec fn number_known(replies: Replies, text: Seq<char>) -> Option<bool> {
    if text.len() == 0 {
        Some(false)
    } else if plain_integer(text) is Some {
        Some(true)
    } else {
        assoc::lookup(replies.numbers@, text)
    }
}

/// The negative of the number that a text is. That of zero is negative zero.
pub open spec fn negation_known(replies: Replies, text: Seq<char>) -> Option<Option<Seq<char>>> {
    if text.len() == 0 {
        Some(None)
    } else if plain_integer(text) is Some {
        let n = plain_integer(text)->0;
        Some(
            Some(
                if n == 0 {
                    "-0"@
                } else {
                    signed_decimal(-n)
                },
            ),
        )
    } else {
        match assoc::lookup(replies.negations@, text) {
            Some(r) => Some(option_view(r)),
            None => None,
        }
    }
}

/// What a variable holds once something is added to it.
pub open spec fn sum_known(
    replies: Replies,
    current: Option<Seq<char>>,
    addend: Seq<char>,
) -> Option<Seq<char>> {
    if current is Some && plain_integer(current->0) is Some && plain_integer(addend) is Some {
        Some(signed_decimal(plain_integer(current->0)->0 + plain_integer(addend)->0))
    } else {
        sum_reply(replies.sums@, current, addend)
    }
}

/// What a variable holds once it is stepped by one.
pub open spec fn step_known(replies: Replies, current: Option<Seq<char>>, up: bool) -> Option<
    Seq<char>,
> {
    if current is Some && plain_integer(current->0) is Some {
        let n = plain_integer(current->0)->0;
        Some(
            signed_decimal(
                if up {
                    n + 1
                } else {
                    n - 1
                },
            ),
        )
    } else {
        step_reply(replies.steps@, current, up)
    }
}

/// The number that a text counts as where that is plain: an empty text counts
/// as zero.
pub open spec fn plain_or_zero(text: Seq<char>) -> Option<int> {
    if text.len() == 0 {
        Some(0)
    } else {
        plain_integer(text)
    }
}

/// How two texts compare as numbers.
pub open spec fn order_known(replies: Replies, left: Seq<char>, right: Seq<char>) -> Option<
    NumberOrder,
> {
    match (plain_or_zero(left), plain_or_zero(right)) {
        (Some(a), Some(b)) => Some(
            if a < b {
                NumberOrder::Less
            } else if a > b {
                NumberOrder::Greater
            } else {
                NumberOrder::Equal
            },
        ),
        _ => order_reply(replies.orders@, left, right),
    }
}

/// Whether a text is a number, or the question that is open.
pub fn know_number(replies: &Replies, text: &str) -> (r: Result<bool, Question>)
    ensures
        match r {
            Ok(flag) => number_known(*replies, text@) == Some(flag),
            Err(q) => number_known(*replies, text@) is None && question_view(q)
                == (QuestionView::IsNumber { text: text@ }),
        },
{
    if text.is_empty() {
        return Ok(false);
    }
    if read_plain(text).is_some() {
        return Ok(true);
    }
    match assoc::find(&replies.numbers, text) {
        Some(flag) => Ok(*flag),
        None => Err(Question::IsNumber { text: text.to_owned() }),
    }
}

/// The negative of the number that a text is, or the question that is open.
pub fn know_negation(replies: &Replies, text: &str) -> (r: Result<Option<String>, Question>)
    ensures
        match r {
            Ok(negated) => negation_known(*replies, text@) == Some(option_view(negated)),
            Err(q) => negation_known(*replies, text@) is None && question_view(q)
                == (QuestionView::Negation { text: text@ }),
        },
{
    if text.is_empty() {
        return Ok(None);
    }
    match read_plain(text) {
        Some(n) => {
            if n == 0 {
                return Ok(Some("-0".to_owned()));
            }
            return Ok(Some(signed_text(-n)));
        },
        None => {},
    }
    match assoc::find(&replies.negations, text) {
        Some(negated) => Ok(copy_option(negated)),
        None => Err(Question::Negation { text: text.to_owned() }),
    }
}

/// What a variable holds once something is added to it, or the question that
/// is open.
pub fn know_sum(replies: &Replies, current: &Option<String>, addend: &str) -> (r: Result<
    String,
    Question,
>)
    ensures
        match r {
            Ok(sum) => sum_known(*replies, option_view(*current), addend@) == Some(sum@),
            Err(q) => sum_known(*replies, option_view(*current), addend@) is None
                && question_view(q) == (QuestionView::Sum {
                current: option_view(*current),
                addend: addend@,
            }),
        },
{
    match current {
        Some(text) => match (read_plain(text.as_str()), read_plain(addend)) {
            (Some(a), Some(b)) => {
                return Ok(signed_text(a + b));
            },
            _ => {},
        },
        None => {},
    }
    let mut i: usize = 0;
    proof {
        assert(replies.sums@.skip(0) =~= replies.sums@);
    }
    while i < replies.sums.len()
        invariant
            i <= replies.sums@.len(),
            sum_reply(replies.sums@, option_view(*current), addend@) == sum_reply(
                replies.sums@.skip(i as int),
                option_view(*current),
                addend@,
            ),
            sum_known(*replies, option_view(*current), addend@) == sum_reply(
                replies.sums@,
                option_view(*current),
                addend@,
            ),
        decreases replies.sums@.len() - i,
    {
        proof {
            assert(replies.sums@.skip(i as int)[0] == replies.sums@[i as int]);
            assert(replies.sums@.skip(i as int).drop_first() =~= replies.sums@.skip(i + 1));
        }
        if same_option(&replies.sums[i].current, current) && same(
            replies.sums[i].addend.as_str(),
            addend,
        ) {
            return Ok(replies.sums[i].sum.clone());
        }
        i = i + 1;
    }
    Err(Question::Sum { current: copy_option(current), addend: addend.to_owned() })
}

/// What a variable holds once it is stepped by one, or the question that is
/// open.
pub fn know_step(replies: &Replies, current: &Option<String>, up: bool) -> (r: Result<
    String,
    Question,
>)
    ensures
        match r {
            Ok(result) => step_known(*replies, option_view(*current), up) == Some(result@),
            Err(q) => step_known(*replies, option_view(*current), up) is None && question_view(q)
                == (QuestionView::Step { current: option_view(*current), up }),
        },
{
    match current {
        Some(text) => match read_plain(text.as_str()) {
            Some(n) => {
                return Ok(
                    signed_text(
                        if up {
                            n + 1
                        } else {
                            n - 1
                        },
                    ),
                );
            },
            None => {},
        },
        None => {},
    }
    let mut i: usize = 0;
    proof {
        assert(replies.steps@.skip(0) =~= replies.steps@);
    }
    while i < replies.steps.len()
        invariant
            i <= replies.steps@.len(),
            step_reply(replies.steps@, option_view(*current), up) == step_reply(
                replies.steps@.skip(i as int),
                option_view(*current),
                up,
            ),
            step_known(*replies, option_view(*current), up) == step_reply(
                replies.steps@,
                option_view(*current),
                up,
            ),
        decreases replies.steps@.len() - i,
    {
        proof {
            assert(replies.steps@.skip(i as int)[0] == replies.steps@[i as int]);
            assert(replies.steps@.skip(i as int).drop_first() =~= replies.steps@.skip(i + 1));
        }
        if same_option(&replies.steps[i].current, current) && replies.steps[i].up == up {
            return Ok(replies.steps[i].result.clone());
        }
        i = i + 1;
    }
    Err(Question::Step { current: copy_option(current), up })
}

fn read_plain_or_zero(text: &str) -> (value: Option<i64>)
    ensures
        match value {
            Some(v) => plain_or_zero(text@) == Some(v as int),
            None => plain_or_zero(text@) is None,
        },
{
    if text.is_empty() {
        Some(0)
    } else {
        read_plain(text)
    }
}

/// How two texts compare as numbers, or the question that is open.
pub fn know_order(replies: &Replies, left: &str, right: &str) -> (r: Result<NumberOrder, Question>)
    ensures
        match r {
            Ok(order) => order_known(*replies, left@, right@) == Some(order),
            Err(q) => order_known(*replies, left@, right@) is None && question_view(q)
                == (QuestionView::Order { left: left@, right: right@ }),
        },
{
    match (read_plain_or_zero(left), read_plain_or_zero(right)) {
        (Some(a), Some(b)) => {
            return Ok(
                if a < b {
                    NumberOrder::Less
                } else if a > b {
                    NumberOrder::Greater
                } else {
                    NumberOrder::Equal
                },
            );
        },
        _ => {},
    }
    let mut i: usize = 0;
    proof {
        assert(replies.orders@.skip(0) =~= replies.orders@);
    }
    while i < replies.orders.len()
        invariant
            i <= replies.orders@.len(),
            order_reply(replies.orders@, left@, right@) == order_reply(
                replies.orders@.skip(i as int),
                left@,
                right@,
            ),
            order_known(*replies, left@, right@) == order_reply(replies.orders@, left@, right@),
        decreases replies.orders@.len() - i,
    {
        proof {
            assert(replies.orders@.skip(i as int)[0] == replies.orders@[i as int]);
            assert(replies.orders@.skip(i as int).drop_first() =~= replies.orders@.skip(i + 1));
        }
        if same(replies.orders[i].left.as_str(), left) && same(
            replies.orders[i].right.as_str(),
            right,
        ) {
            return Ok(replies.orders[i].order);
        }
        i = i + 1;
    }
    Err(Question::Order { left: left.to_owned(), right: right.to_owned() })
}

} // verus!
