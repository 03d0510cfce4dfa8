//! Whether a text mentions a key: a word, a phrase or a regular expression.
use vstd::prelude::*;

use crate::ecma_regex::{RegexResponse, response_to, search};
use crate::lore::entry::{LoreError, LoreQuestion};
use crate::lists::lemma_push_contains;
use crate::macros::evaluate::Fault;
use crate::text::{
    self, alphanumeric, begins_at, from_range, holds, is_alphanumeric, is_white, lemma_views_push,
    lowercase, lowercase_of, occurs_at, to_chars, views, white,
};

verus! {

/// What stops an evaluation.
pub enum LoreFault {
    Pattern(Seq<char>),
    Matches { pattern: Seq<char>, flags: Seq<char>, text: Seq<char> },
    Percentage { value: u64 },
    Rendering { entry_key: Seq<char> },
}

/// The error is the one that a fault gives.
pub open spec fn is_fault(error: LoreError, fault: LoreFault) -> bool {
    match (error, fault) {
        (LoreError::RegexPattern(message), LoreFault::Pattern(refusal)) => message@ == refusal,
        (
            LoreError::Unresolved(LoreQuestion::Matches { pattern, flags, text }),
            LoreFault::Matches { pattern: p, flags: f, text: t },
        ) => pattern@ == p && flags@ == f && text@ == t,
        (
            LoreError::Unresolved(LoreQuestion::Percentage { value }),
            LoreFault::Percentage { value: v },
        ) => value == v,
        (
            LoreError::Unresolved(LoreQuestion::Rendering { entry_key }),
            LoreFault::Rendering { entry_key: key },
        ) => entry_key@ == key,
        _ => false,
    }
}

/// Where the slash stands that ends a pattern, looking backwards from `end`. A
/// slash does not end it when a backslash that is not itself taken stands
/// right behind it.
pub open spec fn closing_slash(text: Seq<char>, end: int, taken: bool) -> Option<int>
    decreases end,
{
    if end <= 1 || end > text.len() {
        None
    } else if text[end - 1] == '/' && !taken {
        Some(end - 1)
    } else {
        closing_slash(text, end - 1, text[end - 1] == '\\' && !taken)
    }
}

/// The pattern and the flags of a key that is written as a regular expression.
pub open spec fn literal(key: Seq<char>) -> Option<(Seq<char>, Seq<char>)> {
    if key.len() == 0 || key[0] != '/' {
        None
    } else {
        match closing_slash(key, key.len() as int, false) {
            Some(at) => Some((key.subrange(1, at), key.subrange(at + 1, key.len() as int))),
            None => None,
        }
    }
}

pub(crate) fn parse_regex_literal(key: &str) -> (parts: Option<(String, String)>)
    ensures
        match parts {
            Some(p) => literal(key@) == Some((p.0@, p.1@)),
            None => literal(key@) is None,
        },
{
    let chars = to_chars(key);
    if chars.len() == 0 || chars[0] != '/' {
        return None;
    }
    let mut end: usize = chars.len();
    let mut taken = false;
    while end > 1
        invariant
            1 <= end <= chars@.len(),
            chars@ == key@,
            key@[0] == '/',
            closing_slash(key@, key@.len() as int, false) == closing_slash(key@, end as int, taken),
        decreases end,
    {
        let c: char = chars[end - 1];
        if c == '/' && !taken {
            let pattern = from_range(&chars, 1, end - 1);
            let flags = from_range(&chars, end, chars.len());
            return Some((pattern, flags));
        }
        taken = c == '\\' && !taken;
        end = end - 1;
    }
    None
}

/// A text that stands at a place stands there as a word: no letter or number
/// adjoins it.
pub open spec fn is_word(text: Seq<char>, from: int, to: int) -> bool {
    &&& from > 0 ==> !alphanumeric(text[from - 1])
    &&& to < text.len() ==> !alphanumeric(text[to])
}

/// Of the places from `at` on where the key stands, none overlapping the one
/// before, it stands as a word at one.
pub open spec fn word_from(text: Seq<char>, key: Seq<char>, at: int) -> bool
    decreases text.len() + 1 - at,
{
    if at < 0 || at + key.len() > text.len() {
        false
    } else if occurs_at(text, key, at) {
        is_word(text, at, at + key.len()) || word_from(
            text,
            key,
            if key.len() == 0 {
                at + 1
            } else {
                at + key.len()
            },
        )
    } else {
        word_from(text, key, at + 1)
    }
}

/// A text holds a white character.
pub open spec fn has_white(text: Seq<char>) -> bool {
    exists|i: int| 0 <= i < text.len() && white(#[trigger] text[i])
}

/// A text mentions a key that is no regular expression.
pub open spec fn mentions(
    text: Seq<char>,
    key: Seq<char>,
    case_sensitive: bool,
    whole_words: bool,
) -> bool {
    let folded_text = if case_sensitive {
        text
    } else {
        lowercase_of(text)
    };
    let folded_key = if case_sensitive {
        key
    } else {
        lowercase_of(key)
    };
    if whole_words && !has_white(folded_key) {
        word_from(folded_text, folded_key, 0)
    } else {
        text::contains(folded_text, folded_key)
    }
}

fn find_white(chars: &Vec<char>) -> (r: bool)
    ensures
        r == has_white(chars@),
{
    let mut i: usize = 0;
    while i < chars.len()
        invariant
            i <= chars@.len(),
            forall|j: int| 0 <= j < i ==> !white(#[trigger] chars@[j]),
        decreases chars@.len() - i,
    {
        if is_white(chars[i]) {
            return true;
        }
        i = i + 1;
    }
    false
}

fn find_word(text: &Vec<char>, key: &Vec<char>) -> (r: bool)
    ensures
        r == word_from(text@, key@, 0),
{
    let mut at: usize = 0;
    loop
        invariant
            at <= text@.len(),
            word_from(text@, key@, 0) == word_from(text@, key@, at as int),
        decreases text@.len() - at,
    {
        if key.len() > text.len() - at {
            return false;
        }
        proof {
            assert(text@.skip(at as int).take(key@.len() as int) =~= text@.subrange(
                at as int,
                at + key@.len(),
            ));
        }
        let found = begins_at(text, at, key);
        let end: usize = at + key.len();
        if found && (at == 0 || !is_alphanumeric(text[at - 1])) && (end == text.len()
            || !is_alphanumeric(text[end])) {
            return true;
        }
        if at == text.len() {
            proof {
                assert(!word_from(text@, key@, at + 1));
            }
            return false;
        }
        at = if found && key.len() != 0 {
            end
        } else {
            at + 1
        };
    }
}

fn check_mention(text: &str, key: &str, case_sensitive: bool, whole_words: bool) -> (r: bool)
    ensures
        r == mentions(text@, key@, case_sensitive, whole_words),
{
    let text_chars = if case_sensitive {
        to_chars(text)
    } else {
        to_chars(lowercase(text).as_str())
    };
    let key_chars = if case_sensitive {
        to_chars(key)
    } else {
        to_chars(lowercase(key).as_str())
    };
    if whole_words && !find_white(&key_chars) {
        find_word(&text_chars, &key_chars)
    } else {
        holds(&text_chars, &key_chars)
    }
}

/// How many regular expressions have been asked about, or what stopped that.
pub enum Matched {
    Answer(bool, nat),
    Fault(LoreFault),
}

/// Where matches of regular expressions come from: they are found here, or the
/// caller has them found and gives the replies in the order of the questions.
pub struct Oracle {
    pub in_process: bool,
    pub replies: Seq<bool>,
}

/// Whether a regular expression matches, after `asked` questions.
pub open spec fn pattern_matches(
    oracle: Oracle,
    asked: nat,
    pattern: Seq<char>,
    flags: Seq<char>,
    text: Seq<char>,
) -> Matched {
    if oracle.in_process {
        match response_to(pattern, flags, text) {
            Ok(matched) => Matched::Answer(matched, asked),
            Err(message) => Matched::Fault(LoreFault::Pattern(message)),
        }
    } else if asked < oracle.replies.len() {
        Matched::Answer(oracle.replies[asked as int], asked + 1)
    } else {
        Matched::Fault(LoreFault::Matches { pattern, flags, text })
    }
}

/// How a text is searched for keys.
pub struct Search {
    pub oracle: Oracle,
    pub text: Seq<char>,
    pub case_sensitive: bool,
    pub whole_words: bool,
}

/// Whether a text mentions a key, after `asked` questions.
pub open spec fn key_matches(search: Search, key: Seq<char>, asked: nat) -> Matched {
    match literal(key) {
        Some((pattern, flags)) => pattern_matches(
            search.oracle,
            asked,
            pattern,
            flags,
            search.text,
        ),
        None => Matched::Answer(
            mentions(search.text, key, search.case_sensitive, search.whole_words),
            asked,
        ),
    }
}

/// What an answer comes to.
pub open spec fn is_answer(r: Result<bool, LoreError>, asked: usize, matched: Matched) -> bool {
    match (r, matched) {
        (Ok(answer), Matched::Answer(b, n)) => answer == b && asked == n,
        (Err(e), Matched::Fault(f)) => is_fault(e, f),
        _ => false,
    }
}

fn match_pattern(
    in_process: bool,
    replies: &Vec<bool>,
    asked: &mut usize,
    pattern: String,
    flags: String,
    text: &str,
) -> (r: Result<bool, LoreError>)
    ensures
        is_answer(
            r,
            *final(asked),
            pattern_matches(
                (Oracle { in_process, replies: replies@ }),
                *old(asked) as nat,
                pattern@,
                flags@,
                text@,
            ),
        ),
{
    if in_process {
        return match search(pattern.as_str(), flags.as_str(), text) {
            RegexResponse::Match { matched } => Ok(matched),
            RegexResponse::Error { message } => Err(LoreError::RegexPattern(message)),
        };
    }
    if *asked < replies.len() {
        let answer = replies[*asked];
        *asked = *asked + 1;
        Ok(answer)
    } else {
        Err(LoreError::Unresolved(LoreQuestion::Matches { pattern, flags, text: text.to_owned() }))
    }
}

pub(crate) fn matches_key(
    in_process: bool,
    replies: &Vec<bool>,
    asked: &mut usize,
    text: &str,
    key: &str,
    case_sensitive: bool,
    whole_words: bool,
) -> (r: Result<bool, LoreError>)
    ensures
        is_answer(
            r,
            *final(asked),
            key_matches(
                (Search {
                    oracle: Oracle { in_process, replies: replies@ },
                    text: text@,
                    case_sensitive,
                    whole_words,
                }),
                key@,
                *old(asked) as nat,
            ),
        ),
{
    match parse_regex_literal(key) {
        Some(parts) => match_pattern(in_process, replies, asked, parts.0, parts.1, text),
        None => Ok(check_mention(text, key, case_sensitive, whole_words)),
    }
}

/// The keys that a text mentions, with the number of questions asked, or what
/// stopped the search.
pub enum Mentioned {
    Keys(Seq<Seq<char>>, nat),
    Fault(LoreFault),
}

/// Which of the keys from place `i` on a text mentions, behind those found.
pub open spec fn mentioned_from(
    search: Search,
    keys: Seq<Seq<char>>,
    i: int,
    found: Seq<Seq<char>>,
    asked: nat,
) -> Mentioned
    decreases keys.len() - i,
{
    if i < 0 || i >= keys.len() {
        Mentioned::Keys(found, asked)
    } else {
        match key_matches(search, keys[i], asked) {
            Matched::Answer(matched, n) => mentioned_from(
                search,
                keys,
                i + 1,
                if matched {
                    found.push(keys[i])
                } else {
                    found
                },
                n,
            ),
            Matched::Fault(fault) => Mentioned::Fault(fault),
        }
    }
}

/// Which of some keys a text mentions, after `asked` questions.
pub open spec fn mentioned(search: Search, keys: Seq<Seq<char>>, asked: nat) -> Mentioned {
    mentioned_from(search, keys, 0, Seq::empty(), asked)
}

/// What a search for keys comes to.
pub open spec fn is_mention(
    r: Result<Vec<String>, LoreError>,
    asked: usize,
    mentioned: Mentioned,
) -> bool {
    match (r, mentioned) {
        (Ok(found), Mentioned::Keys(keys, n)) => views(found@) == keys && asked == n,
        (Err(e), Mentioned::Fault(f)) => is_fault(e, f),
        _ => false,
    }
}

pub(crate) fn find_keys(
    in_process: bool,
    replies: &Vec<bool>,
    asked: &mut usize,
    text: &str,
    keys: &Vec<String>,
    case_sensitive: bool,
    whole_words: bool,
) -> (r: Result<Vec<String>, LoreError>)
    ensures
        is_mention(
            r,
            *final(asked),
            mentioned(
                (Search {
                    oracle: Oracle { in_process, replies: replies@ },
                    text: text@,
                    case_sensitive,
                    whole_words,
                }),
                views(keys@),
                *old(asked) as nat,
            ),
        ),
{
    let ghost search = Search {
        oracle: Oracle { in_process, replies: replies@ },
        text: text@,
        case_sensitive,
        whole_words,
    };
    let ghost start = *asked as nat;
    let mut found: Vec<String> = Vec::new();
    let mut i: usize = 0;
    proof {
        assert(views(found@) =~= Seq::<Seq<char>>::empty());
    }
    while i < keys.len()
        invariant
            i <= keys@.len(),
            start == *old(asked),
            search == (Search {
                    oracle: Oracle { in_process, replies: replies@ },
                    text: text@,
                    case_sensitive,
                    whole_words,
                }),
            mentioned(search, views(keys@), start) == mentioned_from(
                search,
                views(keys@),
                i as int,
                views(found@),
                *asked as nat,
            ),
        decreases keys@.len() - i,
    {
        proof {
            assert(views(keys@)[i as int] == keys@[i as int]@);
        }
        match matches_key(
            in_process,
            replies,
            asked,
            text,
            keys[i].as_str(),
            case_sensitive,
            whole_words,
        ) {
            Ok(true) => {
                proof {
                    lemma_views_push(found@, keys@[i as int]);
                }
                found.push(keys[i].clone());
            },
            Ok(false) => {},
            Err(e) => return Err(e),
        }
        i = i + 1;
    }
    Ok(found)
}

/// A key that is written as a regular expression is its pattern and its flags
/// between and behind two slashes.
pub proof fn law_literals_are_slashed(key: Seq<char>)
    requires
        literal(key) is Some,
    ensures
        key == seq!['/'] + (literal(key)->0).0 + seq!['/'] + (literal(key)->0).1,
{
    lemma_closing_slash(key, key.len() as int, false);
    let at = closing_slash(key, key.len() as int, false)->0;
    assert(key =~= seq!['/'] + key.subrange(1, at) + seq!['/'] + key.subrange(
        at + 1,
        key.len() as int,
    ));
}

proof fn lemma_closing_slash(text: Seq<char>, end: int, taken: bool)
    requires
        0 <= end <= text.len(),
    ensures
        closing_slash(text, end, taken) matches Some(at) ==> 1 <= at < end && text[at] == '/',
    decreases end,
{
    if end > 1 && !(text[end - 1] == '/' && !taken) {
        lemma_closing_slash(text, end - 1, text[end - 1] == '\\' && !taken);
    }
}

/// A key that is found as a word is found at all.
pub proof fn law_words_are_mentions(text: Seq<char>, key: Seq<char>, case_sensitive: bool)
    requires
        mentions(text, key, case_sensitive, true),
    ensures
        mentions(text, key, case_sensitive, false),
{
    let folded_text = if case_sensitive {
        text
    } else {
        lowercase_of(text)
    };
    let folded_key = if case_sensitive {
        key
    } else {
        lowercase_of(key)
    };
    if !has_white(folded_key) {
        lemma_word_occurs(folded_text, folded_key, 0);
    }
}

proof fn lemma_word_occurs(text: Seq<char>, key: Seq<char>, at: int)
    requires
        word_from(text, key, at),
    ensures
        text::contains(text, key),
    decreases text.len() + 1 - at,
{
    if !occurs_at(text, key, at) {
        lemma_word_occurs(text, key, at + 1);
    }
}

/// Where case does not count, it counts neither in the text nor in the key: what is
/// looked for is the key in small letters, in the text in small letters.
pub proof fn law_case_does_not_count(text: Seq<char>, key: Seq<char>, whole_words: bool)
    ensures
        mentions(text, key, false, whole_words) == mentions(
            lowercase_of(text),
            lowercase_of(key),
            true,
            whole_words,
        ),
{
}

/// A text mentions a key exactly where the key stands in it somewhere: as it is
/// written, or both in small letters where case does not count.
pub proof fn law_mentions_are_occurrences(text: Seq<char>, key: Seq<char>)
    ensures
        mentions(text, key, true, false) <==> exists|before: Seq<char>, after: Seq<char>|
            #[trigger] (before + key + after) == text,
        mentions(text, key, false, false) <==> exists|before: Seq<char>, after: Seq<char>|
            #[trigger] (before + lowercase_of(key) + after) == lowercase_of(text),
{
    lemma_contains_is_between(text, key);
    lemma_contains_is_between(lowercase_of(text), lowercase_of(key));
}

proof fn lemma_contains_is_between(text: Seq<char>, key: Seq<char>)
    ensures
        text::contains(text, key) <==> exists|before: Seq<char>, after: Seq<char>|
            #[trigger] (before + key + after) == text,
{
    if text::contains(text, key) {
        let at = choose|at: int| occurs_at(text, key, at);
        assert(text.take(at) + key + text.skip(at + key.len()) =~= text);
    }
    if exists|before: Seq<char>, after: Seq<char>| #[trigger] (before + key + after) == text {
        let (before, after) = choose|before: Seq<char>, after: Seq<char>|
            #[trigger] (before + key + after) == text;
        assert((before + key + after).subrange(before.len() as int, (before.len() + key.len()) as int)
            =~= key);
        assert(occurs_at(text, key, before.len() as int));
    }
}

/// A place of a text where a key stands with no letter or number beside it.
pub open spec fn stands_alone(text: Seq<char>, key: Seq<char>, before: Seq<char>, after: Seq<
    char,
>) -> bool {
    &&& before + key + after == text
    &&& before.len() > 0 ==> !alphanumeric(before.last())
    &&& after.len() > 0 ==> !alphanumeric(after[0])
}

/// Where whole words are looked for, a key that is found stands somewhere with no
/// letter or number beside it, and a key of letters and numbers that stands so
/// anywhere is found.
pub proof fn law_whole_words_stand_alone(text: Seq<char>, key: Seq<char>)
    requires
        forall|i: int| 0 <= i < key.len() ==> !white(#[trigger] key[i]),
    ensures
        mentions(text, key, true, true) ==> exists|before: Seq<char>, after: Seq<char>|
            #[trigger] stands_alone(text, key, before, after),
        key.len() > 0 && (forall|i: int| 0 <= i < key.len() ==> alphanumeric(#[trigger] key[i]))
            && (exists|before: Seq<char>, after: Seq<char>|
            #[trigger] stands_alone(text, key, before, after)) ==> mentions(text, key, true, true),
{
    assert(!has_white(key));
    if word_from(text, key, 0) {
        lemma_word_stands_alone(text, key, 0);
    }
    if key.len() > 0 && (forall|i: int| 0 <= i < key.len() ==> alphanumeric(#[trigger] key[i]))
        && (exists|before: Seq<char>, after: Seq<char>|
        #[trigger] stands_alone(text, key, before, after)) {
        let (before, after) = choose|before: Seq<char>, after: Seq<char>|
            #[trigger] stands_alone(text, key, before, after);
        let at = before.len() as int;
        assert(text.subrange(at, at + key.len()) =~= key);
        assert(at > 0 ==> text[at - 1] == before.last());
        assert(at + key.len() < text.len() ==> text[at + key.len()] == after[0]);
        lemma_words_are_met(text, key, 0, at);
    }
}

/// A key with white space in it is no word: it is found wherever it stands.
pub proof fn law_phrases_are_found_anywhere(text: Seq<char>, key: Seq<char>, i: int)
    requires
        0 <= i < key.len(),
        white(key[i]),
    ensures
        mentions(text, key, true, true) == mentions(text, key, true, false),
{
    assert(has_white(key));
}

proof fn lemma_word_stands_alone(text: Seq<char>, key: Seq<char>, at: int)
    requires
        word_from(text, key, at),
    ensures
        exists|before: Seq<char>, after: Seq<char>|
            #[trigger] stands_alone(text, key, before, after),
    decreases text.len() + 1 - at,
{
    if occurs_at(text, key, at) && is_word(text, at, at + key.len()) {
        let before = text.take(at);
        let after = text.skip(at + key.len());
        assert(before + key + after =~= text);
        assert(stands_alone(text, key, before, after));
    } else if occurs_at(text, key, at) {
        lemma_word_stands_alone(
            text,
            key,
            if key.len() == 0 {
                at + 1
            } else {
                at + key.len()
            },
        );
    } else {
        lemma_word_stands_alone(text, key, at + 1);
    }
}

proof fn lemma_words_are_met(text: Seq<char>, key: Seq<char>, at: int, place: int)
    requires
        0 <= at <= place,
        key.len() > 0,
        forall|i: int| 0 <= i < key.len() ==> alphanumeric(#[trigger] key[i]),
        occurs_at(text, key, place),
        is_word(text, place, place + key.len()),
    ensures
        word_from(text, key, at),
    decreases place - at,
{
    if at < place {
        if occurs_at(text, key, at) {
            if at + key.len() > place {
                assert(text.subrange(at, at + key.len())[place - 1 - at] == text[place - 1]);
                assert(alphanumeric(key[place - 1 - at]));
            } else {
                lemma_words_are_met(text, key, at + key.len(), place);
            }
        } else {
            lemma_words_are_met(text, key, at + 1, place);
        }
    }
}

/// Of keys that are no regular expressions, those are found that the text
/// mentions, and no question is asked.
pub proof fn law_found_keys_are_mentioned(
    search: Search,
    keys: Seq<Seq<char>>,
    asked: nat,
)
    requires
        forall|i: int|
            0 <= i < keys.len() ==> (#[trigger] keys[i]).len() > 0 && keys[i][0] != '/',
    ensures
        ({
            &&& mentioned(search, keys, asked) matches Mentioned::Keys(found, n)
            &&& n == asked
            &&& forall|key: Seq<char>| #[trigger]
                found.contains(key) <==> keys.contains(key) && mentions(
                    search.text,
                    key,
                    search.case_sensitive,
                    search.whole_words,
                )
        }),
{
    assert(keys.take(0) =~= Seq::<Seq<char>>::empty());
    assert forall|key: Seq<char>| #[trigger] Seq::<Seq<char>>::empty().contains(key) implies false by {
    }
    lemma_found_keys(search, keys, 0, Seq::empty(), asked);
    assert(keys.take(keys.len() as int) =~= keys);
}

proof fn lemma_found_keys(
    search: Search,
    keys: Seq<Seq<char>>,
    i: int,
    found: Seq<Seq<char>>,
    asked: nat,
)
    requires
        0 <= i <= keys.len(),
        forall|k: int|
            0 <= k < keys.len() ==> (#[trigger] keys[k]).len() > 0 && keys[k][0] != '/',
        forall|key: Seq<char>| #[trigger]
            found.contains(key) <==> keys.take(i).contains(key) && mentions(
                search.text,
                key,
                search.case_sensitive,
                search.whole_words,
            ),
    ensures
        ({
            &&& mentioned_from(search, keys, i, found, asked) matches Mentioned::Keys(all, n)
            &&& n == asked
            &&& forall|key: Seq<char>| #[trigger]
                all.contains(key) <==> keys.take(keys.len() as int).contains(key) && mentions(
                    search.text,
                    key,
                    search.case_sensitive,
                    search.whole_words,
                )
        }),
    decreases keys.len() - i,
{
    if i < keys.len() {
        let matched = mentions(
            search.text,
            keys[i],
            search.case_sensitive,
            search.whole_words,
        );
        let next = if matched {
            found.push(keys[i])
        } else {
            found
        };
        let shorter = keys.take(i);
        let longer = keys.take(i + 1);
        assert(longer =~= shorter.push(keys[i]));
        assert forall|key: Seq<char>| #[trigger] next.contains(key) <==> longer.contains(key)
            && mentions(search.text, key, search.case_sensitive, search.whole_words) by {
            lemma_push_contains(shorter, keys[i], key);
            lemma_push_contains(found, keys[i], key);
        }
        lemma_found_keys(search, keys, i + 1, next, asked);
    }
}

} // verus!
