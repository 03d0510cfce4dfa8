//! Text as sequences of characters: comparison, trimming, searching and
//! decimal numerals.
use vstd::prelude::*;
use vstd::utf8::{decode_utf8, is_ascii_chars, valid_utf8};

verus! {

/// `String::push` appends one character.
pub assume_specification[ String::push ](s: &mut String, c: char)
    ensures
        final(s)@ == old(s)@.push(c),
;

/// `String::push_str` appends the characters of a string slice.
pub assume_specification[ String::push_str ](s: &mut String, t: &str)
    ensures
        final(s)@ == old(s)@ + t@,
;

/// `==` on string slices compares their characters.
pub assume_specification[ <str as PartialEq>::eq ](s: &str, t: &str) -> (r: bool)
    ensures
        r == (s@ == t@),
;

/// What `str::to_lowercase` makes of a text.
pub uninterp spec fn lowercase_of(text: Seq<char>) -> Seq<char>;

/// `str::to_lowercase`: the result depends on the characters alone, and of an
/// ASCII text the capitals are made small.
#[verifier::external_body]
pub(crate) fn lowercase(text: &str) -> (lower: String)
    ensures
        lower@ == lowercase_of(text@),
        is_ascii_chars(text@) ==> lower@ == ascii_lower_text(text@),
{
    text.to_lowercase()
}

/// `String::from_utf8`: the text that bytes are in UTF-8, where they are one.
#[verifier::external_body]
pub(crate) fn text_from_utf8(bytes: Vec<u8>) -> (text: Option<String>)
    ensures
        match text {
            Some(t) => valid_utf8(bytes@) && t@ == decode_utf8(bytes@),
            None => !valid_utf8(bytes@),
        },
{
    String::from_utf8(bytes).ok()
}

/// What `str::to_uppercase` makes of a text.
pub uninterp spec fn uppercase_of(text: Seq<char>) -> Seq<char>;

/// `str::to_uppercase`: the result depends on the characters alone, and of an
/// ASCII text the small letters are made capitals.
#[verifier::external_body]
pub(crate) fn uppercase(text: &str) -> (upper: String)
    ensures
        upper@ == uppercase_of(text@),
        is_ascii_chars(text@) ==> upper@ == ascii_upper_text(text@),
{
    text.to_uppercase()
}

/// Whether std counts a character as a letter or a number.
pub uninterp spec fn alphanumeric(c: char) -> bool;

/// `char::is_alphanumeric`: the answer depends on the character alone.
#[verifier::external_body]
pub(crate) fn is_alphanumeric(c: char) -> (r: bool)
    ensures
        r == alphanumeric(c),
{
    c.is_alphanumeric()
}

/// Whether two texts hold the same characters.
pub fn same(left: &str, right: &str) -> (same: bool)
    ensures
        same == (left@ == right@),
{
    *left == *right
}

/// Whether two optional texts are both absent or hold the same characters.
pub fn same_option(left: &Option<String>, right: &Option<String>) -> (same: bool)
    ensures
        same == (option_view(*left) == option_view(*right)),
{
    match (left, right) {
        (Some(a), Some(b)) => self::same(a.as_str(), b.as_str()),
        (None, None) => true,
        _ => false,
    }
}

/// The characters of an optional text.
pub open spec fn option_view(text: Option<String>) -> Option<Seq<char>> {
    match text {
        Some(t) => Some(t@),
        None => None,
    }
}

/// The characters of each text of a list.
pub open spec fn views(texts: Seq<String>) -> Seq<Seq<char>> {
    Seq::new(texts.len(), |i: int| texts[i]@)
}

/// Whether `text` occurs in `texts`.
pub fn contains_text(texts: &Vec<String>, text: &str) -> (found: bool)
    ensures
        found == views(texts@).contains(text@),
{
    let mut i: usize = 0;
    while i < texts.len()
        invariant
            i <= texts@.len(),
            forall|j: int| 0 <= j < i ==> texts@[j]@ != text@,
        decreases texts@.len() - i,
    {
        if same(texts[i].as_str(), text) {
            proof {
                assert(views(texts@)[i as int] == text@);
            }
            return true;
        }
        i = i + 1;
    }
    proof {
        assert forall|j: int| 0 <= j < views(texts@).len() implies views(texts@)[j] != text@ by {}
    }
    false
}

/// A copy of a list of texts.
pub fn copy_texts(texts: &Vec<String>) -> (copy: Vec<String>)
    ensures
        copy@ == texts@,
{
    let mut copy: Vec<String> = Vec::new();
    let mut i: usize = 0;
    while i < texts.len()
        invariant
            i <= texts@.len(),
            copy@ == texts@.take(i as int),
        decreases texts@.len() - i,
    {
        copy.push(texts[i].clone());
        i = i + 1;
        proof {
            assert(copy@ =~= texts@.take(i as int));
        }
    }
    proof {
        assert(texts@.take(texts@.len() as int) =~= texts@);
    }
    copy
}

/// A copy of an optional text.
pub fn copy_option(text: &Option<String>) -> (copy: Option<String>)
    ensures
        copy == *text,
{
    match text {
        Some(t) => Some(t.clone()),
        None => None,
    }
}

/// The characters of `text`, in order.
pub fn to_chars(text: &str) -> (chars: Vec<char>)
    ensures
        chars@ == text@,
{
    let mut chars: Vec<char> = Vec::new();
    for c in iter: text.chars()
        invariant
            chars@ == text@.take(iter.index()),
            iter.seq() == text@,
    {
        chars.push(c);
        proof {
            assert(chars@ =~= text@.take(iter.index() + 1));
        }
    }
    proof {
        assert(text@.take(text@.len() as int) =~= text@);
    }
    chars
}

/// The text made of the characters at positions `from..to`.
pub fn from_range(chars: &Vec<char>, from: usize, to: usize) -> (text: String)
    requires
        from <= to <= chars@.len(),
    ensures
        text@ == chars@.subrange(from as int, to as int),
{
    let mut text = String::new();
    let mut i: usize = from;
    while i < to
        invariant
            from <= i <= to <= chars@.len(),
            text@ == chars@.subrange(from as int, i as int),
        decreases to - i,
    {
        text.push(chars[i]);
        i = i + 1;
        proof {
            assert(text@ =~= chars@.subrange(from as int, i as int));
        }
    }
    text
}

/// The text made of all of `chars`.
pub fn from_chars(chars: &Vec<char>) -> (text: String)
    ensures
        text@ == chars@,
{
    proof {
        assert(chars@.subrange(0, chars@.len() as int) =~= chars@);
    }
    from_range(chars, 0, chars.len())
}

/// The first `limit` characters of `text`, or all of it when it is shorter.
pub open spec fn at_most(text: Seq<char>, limit: int) -> Seq<char> {
    if text.len() <= limit {
        text
    } else {
        text.take(limit)
    }
}

/// The first `limit` characters of `text`.
pub fn take_chars(text: &str, limit: usize) -> (head: String)
    ensures
        head@ == at_most(text@, limit as int),
{
    let chars = to_chars(text);
    if chars.len() <= limit {
        from_chars(&chars)
    } else {
        proof {
            assert(text@.take(limit as int) =~= text@.subrange(0, limit as int));
        }
        from_range(&chars, 0, limit)
    }
}

/// A character of the Unicode property White_Space.
pub open spec fn white(c: char) -> bool {
    ||| 0x9 <= c as u32 <= 0xd
    ||| c as u32 == 0x20
    ||| c as u32 == 0x85
    ||| c as u32 == 0xa0
    ||| c as u32 == 0x1680
    ||| 0x2000 <= c as u32 <= 0x200a
    ||| c as u32 == 0x2028
    ||| c as u32 == 0x2029
    ||| c as u32 == 0x202f
    ||| c as u32 == 0x205f
    ||| c as u32 == 0x3000
}

/// Whether `c` is white space.
pub fn is_white(c: char) -> (r: bool)
    ensures
        r == white(c),
{
    let code: u32 = c as u32;
    (0x9 <= code && code <= 0xd) || code == 0x20 || code == 0x85 || code == 0xa0 || code == 0x1680
        || (0x2000 <= code && code <= 0x200a) || code == 0x2028 || code == 0x2029 || code == 0x202f
        || code == 0x205f || code == 0x3000
}

/// Text that is empty or holds white space only.
pub open spec fn blank(text: Seq<char>) -> bool {
    forall|i: int| 0 <= i < text.len() ==> white(#[trigger] text[i])
}

/// Whether `text` is empty or holds white space only.
pub fn is_blank(text: &str) -> (r: bool)
    ensures
        r == blank(text@),
{
    let chars = to_chars(text);
    let mut i: usize = 0;
    while i < chars.len()
        invariant
            i <= chars@.len(),
            chars@ == text@,
            forall|j: int| 0 <= j < i ==> white(#[trigger] text@[j]),
        decreases chars@.len() - i,
    {
        if !is_white(chars[i]) {
            proof {
                assert(!white(text@[i as int]));
            }
            return false;
        }
        i = i + 1;
    }
    true
}

/// `text` without the white space it starts with.
pub open spec fn trim_front(text: Seq<char>) -> Seq<char>
    decreases text.len(),
{
    if text.len() > 0 && white(text[0]) {
        trim_front(text.drop_first())
    } else {
        text
    }
}

/// `text` without the white space it ends with.
pub open spec fn trim_back(text: Seq<char>) -> Seq<char>
    decreases text.len(),
{
    if text.len() > 0 && white(text.last()) {
        trim_back(text.drop_last())
    } else {
        text
    }
}

/// `text` without white space at either end.
pub open spec fn trimmed(text: Seq<char>) -> Seq<char> {
    trim_back(trim_front(text))
}

/// Where `chars[from..to]` starts and ends once white space is trimmed away.
pub fn trim_range(chars: &Vec<char>, from: usize, to: usize) -> (range: (usize, usize))
    requires
        from <= to <= chars@.len(),
    ensures
        from <= range.0 <= range.1 <= to,
        chars@.subrange(range.0 as int, range.1 as int) == trimmed(
            chars@.subrange(from as int, to as int),
        ),
{
    let mut start: usize = from;
    let mut end: usize = to;
    while start < end && is_white(chars[start])
        invariant
            from <= start <= end,
            end == to,
            to <= chars@.len(),
            trim_front(chars@.subrange(from as int, to as int)) == trim_front(
                chars@.subrange(start as int, to as int),
            ),
        decreases end - start,
    {
        proof {
            assert(chars@.subrange(start as int, to as int).drop_first() =~= chars@.subrange(
                start + 1,
                to as int,
            ));
        }
        start = start + 1;
    }
    let ghost kept = chars@.subrange(start as int, to as int);
    proof {
        assert(start < end ==> kept[0] == chars@[start as int]);
        assert(trim_front(chars@.subrange(from as int, to as int)) == kept);
    }
    while start < end && is_white(chars[end - 1])
        invariant
            from <= start <= end <= to,
            to <= chars@.len(),
            trim_back(kept) == trim_back(chars@.subrange(start as int, end as int)),
        decreases end - start,
    {
        proof {
            assert(chars@.subrange(start as int, end as int).drop_last() =~= chars@.subrange(
                start as int,
                end - 1,
            ));
        }
        end = end - 1;
    }
    proof {
        assert(start < end ==> chars@.subrange(start as int, end as int).last() == chars@[end - 1]);
    }
    (start, end)
}

/// `text` without white space at either end.
pub fn trim(text: &str) -> (r: String)
    ensures
        r@ == trimmed(text@),
{
    let chars = to_chars(text);
    proof {
        assert(chars@.subrange(0, chars@.len() as int) =~= text@);
    }
    let range = trim_range(&chars, 0, chars.len());
    from_range(&chars, range.0, range.1)
}

/// Text is blank exactly when trimming leaves nothing.
pub proof fn lemma_blank_trims_to_nothing(text: Seq<char>)
    ensures
        blank(text) <==> trimmed(text).len() == 0,
    decreases text.len(),
{
    if text.len() > 0 {
        if white(text[0]) {
            lemma_blank_trims_to_nothing(text.drop_first());
            assert forall|i: int| blank(text.drop_first()) && 0 <= i < text.len() implies white(
                #[trigger] text[i],
            ) by {
                if i > 0 {
                    assert(text.drop_first()[i - 1] == text[i]);
                }
            }
            assert forall|i: int| blank(text) && 0 <= i < text.len() - 1 implies white(
                #[trigger] text.drop_first()[i],
            ) by {
                assert(text.drop_first()[i] == text[i + 1]);
            }
        } else {
            lemma_trim_back_keeps_first(text);
        }
    }
}

proof fn lemma_trim_back_keeps_first(text: Seq<char>)
    requires
        text.len() > 0,
        !white(text[0]),
    ensures
        trim_back(text).len() > 0,
    decreases text.len(),
{
    if white(text.last()) {
        assert(text.len() > 1);
        assert(text.drop_last()[0] == text[0]);
        lemma_trim_back_keeps_first(text.drop_last());
    }
}

/// `text` begins with `head`.
pub open spec fn begins_with(text: Seq<char>, head: Seq<char>) -> bool {
    head.len() <= text.len() && text.take(head.len() as int) == head
}

/// Whether `chars[at..]` begins with `head`.
pub fn begins_at(chars: &Vec<char>, at: usize, head: &Vec<char>) -> (r: bool)
    requires
        at <= chars@.len(),
    ensures
        r == begins_with(chars@.skip(at as int), head@),
{
    if head.len() > chars.len() - at {
        return false;
    }
    let mut i: usize = 0;
    while i < head.len()
        invariant
            i <= head@.len(),
            at + head@.len() <= chars.len(),
            forall|j: int| 0 <= j < i ==> chars@[at + j] == head@[j],
        decreases head@.len() - i,
    {
        if chars[at + i] != head[i] {
            proof {
                assert(chars@.skip(at as int).take(head@.len() as int)[i as int] != head@[i as int]);
            }
            return false;
        }
        i = i + 1;
    }
    proof {
        assert(chars@.skip(at as int).take(head@.len() as int) =~= head@);
    }
    true
}

/// Whether `text` begins with `head`.
pub fn starts_with(text: &str, head: &str) -> (r: bool)
    ensures
        r == begins_with(text@, head@),
{
    let chars = to_chars(text);
    let head_chars = to_chars(head);
    proof {
        assert(chars@.skip(0) =~= chars@);
    }
    begins_at(&chars, 0, &head_chars)
}

/// `needle` stands in `text` at position `at`.
pub open spec fn occurs_at(text: Seq<char>, needle: Seq<char>, at: int) -> bool {
    0 <= at && at + needle.len() <= text.len() && text.subrange(at, at + needle.len()) == needle
}

/// The first position from `from` on at which `needle` stands in `text`, or
/// `text.len()` when there is none.
pub open spec fn first_occurrence(text: Seq<char>, needle: Seq<char>, from: int) -> int
    decreases text.len() - from,
{
    if from >= text.len() || from + needle.len() > text.len() {
        text.len() as int
    } else if occurs_at(text, needle, from) {
        from
    } else {
        first_occurrence(text, needle, from + 1)
    }
}

/// Finds `needle` in `text` from position `from` on.
pub fn find_from(text: &Vec<char>, needle: &Vec<char>, from: usize) -> (at: usize)
    requires
        from <= text@.len(),
        needle@.len() > 0,
    ensures
        at == first_occurrence(text@, needle@, from as int),
        from <= at <= text@.len(),
        at < text@.len() ==> at + needle@.len() <= text@.len(),
{
    let mut at: usize = from;
    loop
        invariant
            from <= at <= text@.len(),
            needle@.len() > 0,
            first_occurrence(text@, needle@, from as int) == first_occurrence(
                text@,
                needle@,
                at as int,
            ),
        decreases text@.len() - at,
    {
        if needle.len() > text.len() - at {
            return text.len();
        }
        if begins_at(text, at, needle) {
            proof {
                assert(text@.skip(at as int).take(needle@.len() as int) =~= text@.subrange(
                    at as int,
                    at + needle@.len(),
                ));
            }
            return at;
        }
        proof {
            assert(text@.skip(at as int).take(needle@.len() as int) =~= text@.subrange(
                at as int,
                at + needle@.len(),
            ));
        }
        at = at + 1;
    }
}

/// Whether `needle` stands anywhere in `text`.
pub open spec fn contains(text: Seq<char>, needle: Seq<char>) -> bool {
    exists|at: int| occurs_at(text, needle, at)
}

pub proof fn lemma_first_occurrence(text: Seq<char>, needle: Seq<char>, from: int)
    requires
        0 <= from <= text.len(),
        needle.len() > 0,
    ensures
        ({
            let at = first_occurrence(text, needle, from);
            &&& from <= at <= text.len()
            &&& at < text.len() ==> occurs_at(text, needle, at)
            &&& forall|k: int| from <= k < at ==> !#[trigger] occurs_at(text, needle, k)
            &&& at == text.len() ==> forall|k: int|
                from <= k ==> !#[trigger] occurs_at(text, needle, k)
        }),
    decreases text.len() - from,
{
    if from + needle.len() > text.len() {
    } else if occurs_at(text, needle, from) {
    } else {
        lemma_first_occurrence(text, needle, from + 1);
    }
}

/// `left` comes before `right` in the order of code points.
pub open spec fn lex_less(left: Seq<char>, right: Seq<char>) -> bool
    decreases left.len(),
{
    if right.len() == 0 {
        false
    } else if left.len() == 0 {
        true
    } else if left[0] != right[0] {
        (left[0] as u32) < (right[0] as u32)
    } else {
        lex_less(left.drop_first(), right.drop_first())
    }
}

proof fn lemma_char_code(a: char, b: char)
    ensures
        a as u32 == b as u32 <==> a == b,
{
}

/// The order of code points is irreflexive.
pub proof fn lemma_lex_irreflexive(a: Seq<char>)
    ensures
        !lex_less(a, a),
    decreases a.len(),
{
    if a.len() > 0 {
        lemma_lex_irreflexive(a.drop_first());
    }
}

/// The order of code points is transitive.
pub proof fn lemma_lex_transitive(a: Seq<char>, b: Seq<char>, c: Seq<char>)
    requires
        lex_less(a, b),
        lex_less(b, c),
    ensures
        lex_less(a, c),
    decreases a.len(),
{
    if a.len() > 0 && a[0] == b[0] && b[0] == c[0] {
        lemma_lex_transitive(a.drop_first(), b.drop_first(), c.drop_first());
    }
}

/// Of two different texts one comes before the other.
pub proof fn lemma_lex_total(a: Seq<char>, b: Seq<char>)
    ensures
        lex_less(a, b) || lex_less(b, a) || a == b,
    decreases a.len(),
{
    if a.len() > 0 && b.len() > 0 {
        lemma_char_code(a[0], b[0]);
        if a[0] == b[0] {
            lemma_lex_total(a.drop_first(), b.drop_first());
            if a.drop_first() == b.drop_first() {
                assert(a =~= seq![a[0]] + a.drop_first());
                assert(b =~= seq![b[0]] + b.drop_first());
            }
        }
    } else if a.len() == 0 && b.len() == 0 {
        assert(a =~= b);
    }
}

/// The order of code points is asymmetric.
pub proof fn lemma_lex_asymmetric(a: Seq<char>, b: Seq<char>)
    requires
        lex_less(a, b),
    ensures
        !lex_less(b, a),
        a != b,
{
    if lex_less(b, a) {
        lemma_lex_transitive(a, b, a);
    }
    lemma_lex_irreflexive(a);
}

/// Whether `left` comes before `right` in the order of code points.
pub fn less(left: &str, right: &str) -> (r: bool)
    ensures
        r == lex_less(left@, right@),
{
    let a = to_chars(left);
    let b = to_chars(right);
    let mut i: usize = 0;
    proof {
        assert(a@.skip(0) =~= a@);
        assert(b@.skip(0) =~= b@);
    }
    loop
        invariant
            i <= a@.len(),
            i <= b@.len(),
            lex_less(left@, right@) == lex_less(a@.skip(i as int), b@.skip(i as int)),
        decreases a@.len() - i,
    {
        if i == b.len() {
            return false;
        }
        if i == a.len() {
            return true;
        }
        if a[i] != b[i] {
            return (a[i] as u32) < (b[i] as u32);
        }
        proof {
            assert(a@.skip(i as int).drop_first() =~= a@.skip(i + 1));
            assert(b@.skip(i as int).drop_first() =~= b@.skip(i + 1));
        }
        i = i + 1;
    }
}

/// The decimal numeral of `n`.
pub open spec fn decimal(n: nat) -> Seq<char>
    decreases n,
{
    if n < 10 {
        seq![digit(n)]
    } else {
        decimal(n / 10).push(digit(n % 10))
    }
}

/// The character of a decimal digit.
pub open spec fn digit(d: nat) -> char {
    (('0' as u32) + d) as u32 as char
}

fn digit_char(d: u64) -> (c: char)
    requires
        d < 10,
    ensures
        c == digit(d as nat),
{
    match d {
        0 => '0',
        1 => '1',
        2 => '2',
        3 => '3',
        4 => '4',
        5 => '5',
        6 => '6',
        7 => '7',
        8 => '8',
        _ => '9',
    }
}

/// The decimal numeral of `n`.
pub fn decimal_text(n: u64) -> (text: String)
    ensures
        text@ == decimal(n as nat),
    decreases n,
{
    if n < 10 {
        let mut text = String::new();
        text.push(digit_char(n));
        proof {
            assert(text@ =~= decimal(n as nat));
        }
        text
    } else {
        let mut text = decimal_text(n / 10);
        text.push(digit_char(n % 10));
        text
    }
}

/// `c` with an ASCII capital made small.
pub open spec fn ascii_lower(c: char) -> char {
    if 'A' as u32 <= c as u32 <= 'Z' as u32 {
        ((c as u32) + 32) as u32 as char
    } else {
        c
    }
}

/// `text` with its ASCII capitals made small.
pub open spec fn ascii_lower_text(text: Seq<char>) -> Seq<char> {
    Seq::new(text.len(), |i: int| ascii_lower(text[i]))
}

/// The capital of an ASCII letter; other characters are left as they are.
pub open spec fn ascii_upper(c: char) -> char {
    if 'a' as u32 <= c as u32 <= 'z' as u32 {
        ((c as u32) - 32) as u32 as char
    } else {
        c
    }
}

/// `text` with its small ASCII letters made capitals.
pub open spec fn ascii_upper_text(text: Seq<char>) -> Seq<char> {
    Seq::new(text.len(), |i: int| ascii_upper(text[i]))
}

/// Whether two texts agree once ASCII capitals are made small.
pub fn same_ignoring_case(left: &str, right: &str) -> (r: bool)
    ensures
        r == (ascii_lower_text(left@) == ascii_lower_text(right@)),
{
    let a = to_chars(left);
    let b = to_chars(right);
    if a.len() != b.len() {
        proof {
            assert(ascii_lower_text(left@).len() != ascii_lower_text(right@).len());
        }
        return false;
    }
    let mut i: usize = 0;
    while i < a.len()
        invariant
            i <= a@.len() == b@.len(),
            a@ == left@,
            b@ == right@,
            forall|j: int| 0 <= j < i ==> ascii_lower(a@[j]) == ascii_lower(b@[j]),
        decreases a@.len() - i,
    {
        if lower_code(a[i]) != lower_code(b[i]) {
            proof {
                assert(ascii_lower_text(left@)[i as int] != ascii_lower_text(right@)[i as int]);
            }
            return false;
        }
        i = i + 1;
    }
    proof {
        assert(ascii_lower_text(left@) =~= ascii_lower_text(right@));
    }
    true
}

fn lower_code(c: char) -> (code: u32)
    ensures
        code == ascii_lower(c) as u32,
{
    let code: u32 = c as u32;
    if 65 <= code && code <= 90 {
        code + 32
    } else {
        code
    }
}

/// `text` from position `from` on with each occurrence of `needle`, from the
/// left and without overlap, replaced by `with`.
pub open spec fn replaced_from(
    text: Seq<char>,
    needle: Seq<char>,
    with: Seq<char>,
    from: int,
) -> Seq<char>
    decreases text.len() - from,
{
    let at = first_occurrence(text, needle, from);
    if needle.len() == 0 || at < from || at + needle.len() > text.len() {
        text.skip(from)
    } else {
        text.subrange(from, at) + with + replaced_from(text, needle, with, at + needle.len())
    }
}

/// `text` with each occurrence of `needle` replaced by `with`.
pub open spec fn replaced(text: Seq<char>, needle: Seq<char>, with: Seq<char>) -> Seq<char> {
    replaced_from(text, needle, with, 0)
}

pub(crate) fn push_range(target: &mut String, chars: &Vec<char>, from: usize, to: usize)
    requires
        from <= to <= chars@.len(),
    ensures
        final(target)@ == old(target)@ + chars@.subrange(from as int, to as int),
{
    let mut i: usize = from;
    proof {
        assert(target@ =~= old(target)@ + chars@.subrange(from as int, from as int));
    }
    while i < to
        invariant
            from <= i <= to <= chars@.len(),
            target@ == old(target)@ + chars@.subrange(from as int, i as int),
        decreases to - i,
    {
        target.push(chars[i]);
        i = i + 1;
        proof {
            assert(target@ =~= old(target)@ + chars@.subrange(from as int, i as int));
        }
    }
}

/// `text` with each occurrence of `needle` replaced by `with`.
pub fn replace_all(text: &str, needle: &str, with: &str) -> (r: String)
    requires
        needle@.len() > 0,
    ensures
        r@ == replaced(text@, needle@, with@),
{
    let chars = to_chars(text);
    let pattern = to_chars(needle);
    let mut r = String::new();
    let mut from: usize = 0;
    proof {
        assert(r@ + replaced_from(text@, needle@, with@, 0) =~= replaced(text@, needle@, with@));
    }
    loop
        invariant
            from <= chars@.len(),
            chars@ == text@,
            pattern@ == needle@,
            needle@.len() > 0,
            r@ + replaced_from(text@, needle@, with@, from as int) == replaced(
                text@,
                needle@,
                with@,
            ),
        decreases chars@.len() - from,
    {
        let at: usize = find_from(&chars, &pattern, from);
        let ghost before = r@;
        if at >= chars.len() {
            push_range(&mut r, &chars, from, chars.len());
            proof {
                assert(chars@.subrange(from as int, chars@.len() as int) =~= text@.skip(
                    from as int,
                ));
            }
            return r;
        }
        push_range(&mut r, &chars, from, at);
        r.push_str(with);
        proof {
            let tail = replaced_from(text@, needle@, with@, at + needle@.len());
            assert(r@ + tail =~= before + (text@.subrange(from as int, at as int) + with@ + tail));
        }
        from = at + pattern.len();
    }
}

/// The characters of a list with one text more.
pub proof fn lemma_views_push(texts: Seq<String>, text: String)
    ensures
        views(texts.push(text)) == views(texts).push(text@),
{
    assert(views(texts.push(text)) =~= views(texts).push(text@));
}

/// Whether `needle` stands anywhere in `text`.
pub fn holds(text: &Vec<char>, needle: &Vec<char>) -> (r: bool)
    ensures
        r == contains(text@, needle@),
{
    if needle.len() == 0 {
        proof {
            assert(text@.subrange(0, 0) =~= needle@);
            assert(occurs_at(text@, needle@, 0));
        }
        return true;
    }
    let at: usize = find_from(text, needle, 0);
    proof {
        lemma_first_occurrence(text@, needle@, 0);
        if at < text@.len() {
            assert(occurs_at(text@, needle@, at as int));
        } else {
            assert forall|k: int| !occurs_at(text@, needle@, k) by {}
        }
    }
    at < text.len()
}

/// Some texts one after the other, with `between` between any two.
pub open spec fn interspersed(parts: Seq<Seq<char>>, between: Seq<char>) -> Seq<char>
    decreases parts.len(),
{
    if parts.len() == 0 {
        Seq::empty()
    } else if parts.len() == 1 {
        parts[0]
    } else {
        interspersed(parts.drop_last(), between) + between + parts.last()
    }
}

/// Appends another text to a list of texts, parted from those before it.
pub fn append_part(target: &mut String, first: bool, between: &str, part: &str)
    ensures
        final(target)@ == if first {
            old(target)@ + part@
        } else {
            old(target)@ + between@ + part@
        },
{
    if !first {
        target.push_str(between);
    }
    target.push_str(part);
}

/// Some texts one after the other, with `between` between any two.
pub fn join_texts(parts: &Vec<String>, between: &str) -> (all: String)
    ensures
        all@ == interspersed(views(parts@), between@),
{
    let mut all = String::new();
    let mut i: usize = 0;
    while i < parts.len()
        invariant
            i <= parts@.len(),
            all@ == interspersed(views(parts@.take(i as int)), between@),
        decreases parts@.len() - i,
    {
        proof {
            let next = views(parts@.take(i + 1));
            assert(next.drop_last() =~= views(parts@.take(i as int)));
            assert(next.last() == parts@[i as int]@);
            if i == 0 {
                assert(all@ =~= Seq::<char>::empty());
                assert(Seq::<char>::empty() + parts@[0]@ =~= parts@[0]@);
            }
        }
        append_part(&mut all, i == 0, between, parts[i].as_str());
        i = i + 1;
    }
    proof {
        assert(parts@.take(parts@.len() as int) =~= parts@);
    }
    all
}

/// The first position from `from` on at which `c` stands, or `text.len()` when
/// there is none.
pub open spec fn next_char(text: Seq<char>, c: char, from: int) -> int
    decreases text.len() - from,
{
    if from >= text.len() {
        text.len() as int
    } else if text[from] == c {
        from
    } else {
        next_char(text, c, from + 1)
    }
}

/// Finds `c` in `text` from position `from` on.
pub fn find_char(text: &Vec<char>, c: char, from: usize) -> (at: usize)
    requires
        from <= text@.len(),
    ensures
        at == next_char(text@, c, from as int),
        from <= at <= text@.len(),
        at < text@.len() ==> text@[at as int] == c,
{
    let mut at: usize = from;
    while at < text.len() && text[at] != c
        invariant
            from <= at <= text@.len(),
            next_char(text@, c, from as int) == next_char(text@, c, at as int),
        decreases text@.len() - at,
    {
        at = at + 1;
    }
    at
}

pub proof fn lemma_next_char(text: Seq<char>, c: char, from: int)
    requires
        0 <= from <= text.len(),
    ensures
        from <= next_char(text, c, from) <= text.len(),
        next_char(text, c, from) < text.len() ==> text[next_char(text, c, from)] == c,
        forall|k: int| from <= k < next_char(text, c, from) ==> text[k] != c,
    decreases text.len() - from,
{
    if from < text.len() && text[from] != c {
        lemma_next_char(text, c, from + 1);
    }
}

/// The items of a list from position `from` on, parted by `c`, each without
/// white space at either end. Items that are empty are left out.
pub open spec fn listed(text: Seq<char>, c: char, from: int) -> Seq<Seq<char>>
    decreases text.len() - from,
{
    if from < 0 || from > text.len() {
        Seq::empty()
    } else {
        let at = next_char(text, c, from);
        let item = trimmed(text.subrange(from, at));
        let rest = if from <= at < text.len() {
            listed(text, c, at + 1)
        } else {
            Seq::empty()
        };
        if item.len() == 0 {
            rest
        } else {
            seq![item] + rest
        }
    }
}

/// The items of a list, parted by `c`, each without white space at either end.
/// Items that are empty are left out.
pub fn split_list(text: &str, c: char) -> (items: Vec<String>)
    ensures
        views(items@) == listed(text@, c, 0),
{
    let chars = to_chars(text);
    let mut items: Vec<String> = Vec::new();
    let mut from: usize = 0;
    proof {
        assert(views(items@) + listed(text@, c, 0) =~= listed(text@, c, 0));
    }
    loop
        invariant
            chars@ == text@,
            from <= text@.len(),
            listed(text@, c, 0) == views(items@) + listed(text@, c, from as int),
        decreases text@.len() - from,
    {
        let at: usize = find_char(&chars, c, from);
        let range = trim_range(&chars, from, at);
        let ghost before = items@;
        let ghost item = trimmed(text@.subrange(from as int, at as int));
        if range.0 < range.1 {
            items.push(from_range(&chars, range.0, range.1));
            proof {
                lemma_views_push(before, items@.last());
                assert(items@ =~= before.push(items@.last()));
            }
        }
        let ghost rest = if at < text@.len() {
            listed(text@, c, at + 1)
        } else {
            Seq::empty()
        };
        proof {
            assert(item.len() == range.1 - range.0);
            if item.len() == 0 {
                assert(listed(text@, c, from as int) == rest);
            } else {
                assert(views(items@) == views(before).push(item));
                assert(views(before) + (seq![item] + rest) =~= views(items@) + rest);
            }
            assert(listed(text@, c, 0) == views(items@) + rest);
        }
        if at >= chars.len() {
            proof {
                assert(views(items@) + Seq::<Seq<char>>::empty() =~= views(items@));
            }
            return items;
        }
        from = at + 1;
    }
}

/// How many of the names that come first stand before `name`.
pub open spec fn name_rank(names: Seq<Seq<char>>, name: Seq<char>) -> int
    decreases names.len(),
{
    if names.len() > 0 && lex_less(names.last(), name) {
        names.len() as int
    } else if names.len() == 0 {
        0
    } else {
        name_rank(names.drop_last(), name)
    }
}

/// `names` in ascending order with `name` among them, once.
pub open spec fn with_name(names: Seq<Seq<char>>, name: Seq<char>) -> Seq<Seq<char>> {
    if names.contains(name) {
        names
    } else {
        names.insert(name_rank(names, name), name)
    }
}

/// Names in strictly ascending order.
pub open spec fn ascending(names: Seq<Seq<char>>) -> bool {
    forall|i: int, j: int|
        0 <= i < j < names.len() ==> lex_less(#[trigger] names[i], #[trigger] names[j])
}

pub proof fn lemma_name_rank(names: Seq<Seq<char>>, name: Seq<char>)
    requires
        ascending(names),
    ensures
        0 <= name_rank(names, name) <= names.len(),
        forall|i: int| 0 <= i < name_rank(names, name) ==> lex_less(#[trigger] names[i], name),
        forall|i: int|
            name_rank(names, name) <= i < names.len() ==> !lex_less(#[trigger] names[i], name),
    decreases names.len(),
{
    if names.len() > 0 {
        if lex_less(names.last(), name) {
            assert forall|i: int| 0 <= i < names.len() implies lex_less(#[trigger] names[i], name) by {
                if i < names.len() - 1 {
                    lemma_lex_transitive(names[i], names.last(), name);
                }
            }
        } else {
            lemma_name_rank(names.drop_last(), name);
            assert forall|i: int|
                name_rank(names, name) <= i < names.len() implies !lex_less(
                #[trigger] names[i],
                name,
            ) by {
                if i < names.len() - 1 {
                    assert(names.drop_last()[i] == names[i]);
                }
            }
            assert forall|i: int|
                0 <= i < name_rank(names, name) implies lex_less(#[trigger] names[i], name) by {
                assert(names.drop_last()[i] == names[i]);
            }
        }
    }
}

/// Adding a name keeps names in strictly ascending order, and adds nothing else.
pub proof fn lemma_with_name(names: Seq<Seq<char>>, name: Seq<char>)
    requires
        ascending(names),
    ensures
        ascending(with_name(names, name)),
        forall|other: Seq<char>| #[trigger]
            with_name(names, name).contains(other) <==> other == name || names.contains(other),
{
    lemma_name_rank(names, name);
    let at = name_rank(names, name);
    let next = with_name(names, name);
    if !names.contains(name) {
        assert forall|i: int, j: int| 0 <= i < j < next.len() implies lex_less(
            #[trigger] next[i],
            #[trigger] next[j],
        ) by {
            let a = if i < at {
                names[i]
            } else if i == at {
                name
            } else {
                names[i - 1]
            };
            let b = if j < at {
                names[j]
            } else if j == at {
                name
            } else {
                names[j - 1]
            };
            assert(next[i] == a && next[j] == b);
            if i == at {
                lemma_lex_total(names[j - 1], name);
                assert(names.contains(names[j - 1]));
            }
        }
        assert forall|other: Seq<char>| #[trigger] next.contains(other) implies other == name
            || names.contains(other) by {
            let k = choose|k: int| 0 <= k < next.len() && next[k] == other;
            if k < at {
                assert(names[k] == other);
            } else if k > at {
                assert(names[k - 1] == other);
            }
        }
        assert forall|other: Seq<char>| other == name || names.contains(other) implies
            #[trigger] next.contains(other) by {
            if other == name {
                assert(next[at] == name);
            } else {
                let k = choose|k: int| 0 <= k < names.len() && names[k] == other;
                if k < at {
                    assert(next[k] == other);
                } else {
                    assert(next[k + 1] == other);
                }
            }
        }
    }
}

/// Adds a name to names in ascending order, unless it is there.
pub fn add_name(names: &mut Vec<String>, name: &str)
    requires
        ascending(views(old(names)@)),
    ensures
        views(final(names)@) == with_name(views(old(names)@), name@),
        ascending(views(final(names)@)),
{
    proof {
        lemma_with_name(views(names@), name@);
    }
    if contains_text(names, name) {
        return;
    }
    let mut at: usize = names.len();
    let ghost before = views(names@);
    proof {
        assert(before.take(before.len() as int) =~= before);
    }
    while at > 0 && !less(names[at - 1].as_str(), name)
        invariant
            at <= names@.len(),
            before == views(names@),
            name_rank(before, name@) == name_rank(before.take(at as int), name@),
        decreases at,
    {
        proof {
            assert(before.take(at as int).drop_last() =~= before.take(at - 1));
        }
        at = at - 1;
    }
    proof {
        assert(at > 0 ==> before.take(at as int).last() == names@[at - 1]@);
        assert(name_rank(before, name@) == at);
    }
    let added = name.to_owned();
    names.insert(at, added);
    proof {
        assert(views(names@) =~= before.insert(at as int, name@));
    }
}

} // verus!
