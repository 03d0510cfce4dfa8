//! ECMAScript regular expressions: the requests and replies of the isolated
//! matcher, and the matcher itself.
use std::time::Duration;

use vstd::prelude::*;
use vstd::utf8::encode_utf8;

use crate::text::{decimal, decimal_text, option_view, to_chars};

verus! {

pub const MAX_PATTERN_BYTES: usize = 4096;

pub const MAX_TEXT_BYTES: usize = 1048576;

/// The variable of the environment that names the matcher's executable.
pub const WORKER_EXECUTABLE_ENV: &'static str = "STCLI_REGEX_WORKER";

/// A matcher that runs in a process of its own.
#[derive(Debug)]
pub struct EcmaRegexWorker {
    pub executable: String,
    pub timeout: Duration,
}

/// A search for one match.
#[derive(Clone, Debug, Eq, PartialEq)]
pub struct RegexRequest {
    pub pattern: String,
    pub flags: String,
    pub text: String,
}

/// The reply to a [`RegexRequest`].
#[derive(Clone, Debug, Eq, PartialEq)]
pub enum RegexResponse {
    Match { matched: bool },
    Error { message: String },
}

/// A search for the first match or for all of them.
#[derive(Clone, Debug, Eq, PartialEq)]
pub struct RegexReplaceRequest {
    pub pattern: String,
    pub flags: String,
    pub global: bool,
    pub text: String,
}

/// A match between two byte positions, with the text of the whole match first
/// and the text of each capturing group after it. A group that took no part in
/// the match has none.
#[derive(Clone, Debug, Eq, PartialEq)]
pub struct RegexMatch {
    pub start: usize,
    pub end: usize,
    pub groups: Vec<Option<String>>,
}

/// The reply to a [`RegexReplaceRequest`].
#[derive(Clone, Debug, Eq, PartialEq)]
pub enum RegexReplaceResponse {
    Matches { matches: Vec<RegexMatch> },
    Error { message: String },
}

/// What keeps the isolated matcher from replying.
#[derive(Debug)]
pub enum EcmaRegexError {
    Executable(String),
    Spawn(String),
    MissingPipe,
    Write(String),
    Wait(String),
    Kill(String),
    Read(String),
    Encode(String),
    Decode(String),
    Pattern(String),
    Timeout(Duration),
    PatternTooLarge(usize),
    TextTooLarge(usize),
}

/// The abstract value of a [`RegexMatch`].
pub struct MatchView {
    pub start: usize,
    pub end: usize,
    pub groups: Seq<Option<Seq<char>>>,
}

impl View for RegexMatch {
    type V = MatchView;

    open spec fn view(&self) -> MatchView {
        MatchView { start: self.start, end: self.end, groups: group_views(self.groups@) }
    }
}

/// The texts of the groups of a match.
pub open spec fn group_views(groups: Seq<Option<String>>) -> Seq<Option<Seq<char>>> {
    Seq::new(groups.len(), |i: int| option_view(groups[i]))
}

/// The abstract values of a list of matches.
pub open spec fn match_views(matches: Seq<RegexMatch>) -> Seq<MatchView> {
    Seq::new(matches.len(), |i: int| matches[i]@)
}

/// All matches of a pattern in a text, or why the pattern is refused.
pub uninterp spec fn matches_of(
    pattern: Seq<char>,
    flags: Seq<char>,
    text: Seq<char>,
) -> Result<Seq<MatchView>, Seq<char>>;

/// The matches that a search found.
pub open spec fn all_found(found: Result<Vec<RegexMatch>, String>) -> Result<
    Seq<MatchView>,
    Seq<char>,
> {
    match found {
        Ok(matches) => Ok(match_views(matches@)),
        Err(message) => Err(message@),
    }
}

/// The first of all matches, or why the pattern is refused.
pub open spec fn is_first(
    found: Result<Option<RegexMatch>, String>,
    all: Result<Seq<MatchView>, Seq<char>>,
) -> bool {
    match (found, all) {
        (Ok(Some(first)), Ok(matches)) => matches.len() > 0 && first@ == matches[0],
        (Ok(None), Ok(matches)) => matches.len() == 0,
        (Err(message), Err(refusal)) => message@ == refusal,
        _ => false,
    }
}

/// A match lies in a text, and its first group is what it matched there.
pub open spec fn lies_in(found: MatchView, text: Seq<char>) -> bool {
    &&& found.start <= found.end <= encode_utf8(text).len()
    &&& found.groups.len() > 0
    &&& found.groups[0] matches Some(whole)
    &&& encode_utf8(whole) == encode_utf8(text).subrange(found.start as int, found.end as int)
}

/// Matches lie in a text one after the other.
pub open spec fn lie_apart(matches: Seq<MatchView>, text: Seq<char>) -> bool {
    &&& forall|i: int| 0 <= i < matches.len() ==> lies_in(#[trigger] matches[i], text)
    &&& forall|i: int, j: int|
        0 <= i < j < matches.len() ==> (#[trigger] matches[i]).end <= (#[trigger] matches[j]).start
}

/// `regress::Regex::with_flags` followed by `regress::Regex::find_iter`: the
/// matches depend on the pattern, the flags and the text alone. They come from
/// left to right and do not overlap. Each match comes with the text of its
/// `groups`, the whole match being the first of them.
#[verifier::external_body]
fn find_all(pattern: &str, flags: &str, text: &str) -> (found: Result<Vec<RegexMatch>, String>)
    ensures
        all_found(found) == matches_of(pattern@, flags@, text@),
        found matches Ok(matches) ==> lie_apart(match_views(matches@), text@),
{
    match regress::Regex::with_flags(pattern, flags) {
        Ok(regex) => Ok(regex.find_iter(text).map(|found| RegexMatch {
            start: found.start(),
            end: found.end(),
            groups: found.groups().map(|group| group.map(|range| text[range].to_owned())).collect(),
        }).collect()),
        Err(error) => Err(error.to_string()),
    }
}

/// `regress::Regex::with_flags` followed by `regress::Regex::find`: the first of
/// the matches that `find_iter` walks through, with the text of its `groups`.
#[verifier::external_body]
fn find_first(pattern: &str, flags: &str, text: &str) -> (found: Result<Option<RegexMatch>, String>)
    ensures
        is_first(found, matches_of(pattern@, flags@, text@)),
        found matches Ok(Some(first)) ==> lies_in(first@, text@),
{
    match regress::Regex::with_flags(pattern, flags) {
        Ok(regex) => Ok(regex.find(text).map(|found| RegexMatch {
            start: found.start(),
            end: found.end(),
            groups: found.groups().map(|group| group.map(|range| text[range].to_owned())).collect(),
        })),
        Err(error) => Err(error.to_string()),
    }
}

/// Why a pattern and a text are not handed to the matcher, if they are not.
pub open spec fn size_error(pattern: Seq<char>, text: Seq<char>) -> Option<EcmaRegexError> {
    if encode_utf8(pattern).len() > MAX_PATTERN_BYTES {
        Some(EcmaRegexError::PatternTooLarge(encode_utf8(pattern).len() as usize))
    } else if encode_utf8(text).len() > MAX_TEXT_BYTES {
        Some(EcmaRegexError::TextTooLarge(encode_utf8(text).len() as usize))
    } else {
        None
    }
}

/// The message of a size error.
pub open spec fn size_message(pattern: Seq<char>, text: Seq<char>) -> Seq<char> {
    if encode_utf8(pattern).len() > MAX_PATTERN_BYTES {
        "regex pattern is too large: "@ + decimal(encode_utf8(pattern).len()) + " bytes"@
    } else {
        "regex input is too large: "@ + decimal(encode_utf8(text).len()) + " bytes"@
    }
}

/// Checks that a pattern and a text are small enough to be matched.
pub fn validate_sizes(pattern: &str, text: &str) -> (r: Result<(), EcmaRegexError>)
    ensures
        match r {
            Ok(()) => size_error(pattern@, text@) is None,
            Err(e) => size_error(pattern@, text@) == Some(e),
        },
{
    let pattern_bytes: usize = pattern.as_bytes().len();
    if pattern_bytes > MAX_PATTERN_BYTES {
        return Err(EcmaRegexError::PatternTooLarge(pattern_bytes));
    }
    let text_bytes: usize = text.as_bytes().len();
    if text_bytes > MAX_TEXT_BYTES {
        return Err(EcmaRegexError::TextTooLarge(text_bytes));
    }
    Ok(())
}

fn refusal(pattern: &str, text: &str) -> (message: Option<String>)
    ensures
        match message {
            Some(m) => size_error(pattern@, text@) is Some && m@ == size_message(pattern@, text@),
            None => size_error(pattern@, text@) is None,
        },
{
    let pattern_bytes: usize = pattern.as_bytes().len();
    if pattern_bytes > MAX_PATTERN_BYTES {
        let mut message = "regex pattern is too large: ".to_owned();
        message.push_str(decimal_text(pattern_bytes as u64).as_str());
        message.push_str(" bytes");
        return Some(message);
    }
    let text_bytes: usize = text.as_bytes().len();
    if text_bytes > MAX_TEXT_BYTES {
        let mut message = "regex input is too large: ".to_owned();
        message.push_str(decimal_text(text_bytes as u64).as_str());
        message.push_str(" bytes");
        return Some(message);
    }
    None
}

/// A flag that the matcher is told of.
pub open spec fn known_flag(flag: char) -> bool {
    flag == 'i' || flag == 'm' || flag == 's' || flag == 'u'
}

/// The flags that the matcher is told of, in the order given.
pub open spec fn normalized_flags(flags: Seq<char>) -> Seq<char>
    decreases flags.len(),
{
    if flags.len() == 0 {
        flags
    } else if known_flag(flags.last()) {
        normalized_flags(flags.drop_last()).push(flags.last())
    } else {
        normalized_flags(flags.drop_last())
    }
}

/// The flags that the matcher is told of.
pub fn normalize_flags(flags: &str) -> (normal: String)
    ensures
        normal@ == normalized_flags(flags@),
{
    let chars = to_chars(flags);
    let mut normal = String::new();
    let mut i: usize = 0;
    while i < chars.len()
        invariant
            i <= chars@.len(),
            normal@ == normalized_flags(chars@.take(i as int)),
        decreases chars@.len() - i,
    {
        let flag: char = chars[i];
        proof {
            assert(chars@.take(i + 1).drop_last() =~= chars@.take(i as int));
        }
        if flag == 'i' || flag == 'm' || flag == 's' || flag == 'u' {
            normal.push(flag);
        }
        i = i + 1;
    }
    proof {
        assert(chars@.take(chars@.len() as int) =~= flags@);
    }
    normal
}

/// The reply of the matcher to a search for one match.
pub open spec fn response_to(
    pattern: Seq<char>,
    flags: Seq<char>,
    text: Seq<char>,
) -> Result<bool, Seq<char>> {
    if size_error(pattern, text) is Some {
        Err(size_message(pattern, text))
    } else {
        match matches_of(pattern, flags, text) {
            Ok(matches) => Ok(matches.len() > 0),
            Err(message) => Err(message),
        }
    }
}

/// The abstract value of a [`RegexResponse`].
pub open spec fn response_view(response: RegexResponse) -> Result<bool, Seq<char>> {
    match response {
        RegexResponse::Match { matched } => Ok(matched),
        RegexResponse::Error { message } => Err(message@),
    }
}

/// The matcher: whether the pattern matches anywhere in the text.
pub fn run_worker(request: RegexRequest) -> (response: RegexResponse)
    ensures
        response_view(response) == response_to(request.pattern@, request.flags@, request.text@),
{
    search(request.pattern.as_str(), request.flags.as_str(), request.text.as_str())
}

pub(crate) fn search(pattern: &str, flags: &str, text: &str) -> (response: RegexResponse)
    ensures
        response_view(response) == response_to(pattern@, flags@, text@),
{
    match refusal(pattern, text) {
        Some(message) => RegexResponse::Error { message },
        None => match find_first(pattern, flags, text) {
            Ok(found) => RegexResponse::Match { matched: found.is_some() },
            Err(message) => RegexResponse::Error { message },
        },
    }
}

/// The matches that are wanted: all of them, or the first alone.
pub open spec fn wanted(matches: Seq<MatchView>, global: bool) -> Seq<MatchView> {
    if global || matches.len() == 0 {
        matches
    } else {
        matches.take(1)
    }
}

/// The reply of the matcher to a search for matches.
pub open spec fn replace_response_to(
    pattern: Seq<char>,
    flags: Seq<char>,
    global: bool,
    text: Seq<char>,
) -> Result<Seq<MatchView>, Seq<char>> {
    if size_error(pattern, text) is Some {
        Err(size_message(pattern, text))
    } else {
        match matches_of(pattern, flags, text) {
            Ok(matches) => Ok(wanted(matches, global)),
            Err(message) => Err(message),
        }
    }
}

/// The abstract value of a [`RegexReplaceResponse`].
pub open spec fn replace_response_view(response: RegexReplaceResponse) -> Result<
    Seq<MatchView>,
    Seq<char>,
> {
    match response {
        RegexReplaceResponse::Matches { matches } => Ok(match_views(matches@)),
        RegexReplaceResponse::Error { message } => Err(message@),
    }
}

/// The matcher: the first match of the pattern in the text, or all of them.
pub fn run_replace_worker(request: RegexReplaceRequest) -> (response: RegexReplaceResponse)
    ensures
        replace_response_view(response) == replace_response_to(
            request.pattern@,
            request.flags@,
            request.global,
            request.text@,
        ),
        response matches RegexReplaceResponse::Matches { matches } ==> lie_apart(
            match_views(matches@),
            request.text@,
        ),
{
    let pattern: &str = request.pattern.as_str();
    let flags: &str = request.flags.as_str();
    let text: &str = request.text.as_str();
    if let Some(message) = refusal(pattern, text) {
        return RegexReplaceResponse::Error { message };
    }
    if request.global {
        return match find_all(pattern, flags, text) {
            Ok(matches) => RegexReplaceResponse::Matches { matches },
            Err(message) => RegexReplaceResponse::Error { message },
        };
    }
    match find_first(pattern, flags, text) {
        Ok(first) => {
            let mut matches: Vec<RegexMatch> = Vec::new();
            if let Some(found) = first {
                matches.push(found);
            }
            proof {
                let all = matches_of(pattern@, flags@, text@)->Ok_0;
                assert(match_views(matches@) =~= wanted(all, false));
            }
            RegexReplaceResponse::Matches { matches }
        },
        Err(message) => RegexReplaceResponse::Error { message },
    }
}

impl EcmaRegexWorker {
    /// A matcher run from an executable, given up on after a time.
    pub fn new(executable: String, timeout: Duration) -> (worker: Self)
        ensures
            worker.executable == executable,
            worker.timeout == timeout,
    {
        EcmaRegexWorker { executable, timeout }
    }

    /// The request to send to find out whether a pattern matches.
    pub fn match_request(pattern: &str, flags: &str, text: &str) -> (r: Result<
        RegexRequest,
        EcmaRegexError,
    >)
        ensures
            match r {
                Ok(request) => {
                    &&& size_error(pattern@, text@) is None
                    &&& request.pattern@ == pattern@
                    &&& request.flags@ == normalized_flags(flags@)
                    &&& request.text@ == text@
                },
                Err(e) => size_error(pattern@, text@) == Some(e),
            },
    {
        match validate_sizes(pattern, text) {
            Ok(()) => Ok(
                RegexRequest {
                    pattern: pattern.to_owned(),
                    flags: normalize_flags(flags),
                    text: text.to_owned(),
                },
            ),
            Err(e) => Err(e),
        }
    }

    /// What a reply says of a match.
    pub fn is_match(response: RegexResponse) -> (r: Result<bool, EcmaRegexError>)
        ensures
            r == match response {
                RegexResponse::Match { matched } => Ok::<bool, EcmaRegexError>(matched),
                RegexResponse::Error { message } => Err(EcmaRegexError::Pattern(message)),
            },
    {
        match response {
            RegexResponse::Match { matched } => Ok(matched),
            RegexResponse::Error { message } => Err(EcmaRegexError::Pattern(message)),
        }
    }

    /// The request to send to find the matches of a pattern: all of them where
    /// the flags say so, the first otherwise.
    pub fn replace_request(pattern: &str, flags: &str, text: &str) -> (r: Result<
        RegexReplaceRequest,
        EcmaRegexError,
    >)
        ensures
            match r {
                Ok(request) => {
                    &&& size_error(pattern@, text@) is None
                    &&& request.pattern@ == pattern@
                    &&& request.flags@ == normalized_flags(flags@)
                    &&& request.global == flags@.contains('g')
                    &&& request.text@ == text@
                },
                Err(e) => size_error(pattern@, text@) == Some(e),
            },
    {
        match validate_sizes(pattern, text) {
            Ok(()) => Ok(
                RegexReplaceRequest {
                    pattern: pattern.to_owned(),
                    flags: normalize_flags(flags),
                    global: has_flag(flags, 'g'),
                    text: text.to_owned(),
                },
            ),
            Err(e) => Err(e),
        }
    }

    /// The matches that a reply tells of.
    pub fn find_matches(response: RegexReplaceResponse) -> (r: Result<
        Vec<RegexMatch>,
        EcmaRegexError,
    >)
        ensures
            r == match response {
                RegexReplaceResponse::Matches { matches } => Ok::<Vec<RegexMatch>, EcmaRegexError>(
                    matches,
                ),
                RegexReplaceResponse::Error { message } => Err(EcmaRegexError::Pattern(message)),
            },
    {
        match response {
            RegexReplaceResponse::Matches { matches } => Ok(matches),
            RegexReplaceResponse::Error { message } => Err(EcmaRegexError::Pattern(message)),
        }
    }
}

fn has_flag(flags: &str, flag: char) -> (r: bool)
    ensures
        r == flags@.contains(flag),
{
    let chars = to_chars(flags);
    let mut i: usize = 0;
    while i < chars.len()
        invariant
            i <= chars@.len(),
            chars@ == flags@,
            forall|j: int| 0 <= j < i ==> chars@[j] != flag,
        decreases chars@.len() - i,
    {
        if chars[i] == flag {
            return true;
        }
        i = i + 1;
    }
    false
}

/// Flags that were reduced once are not reduced further.
pub proof fn law_normal_flags_stay(flags: Seq<char>)
    ensures
        normalized_flags(normalized_flags(flags)) == normalized_flags(flags),
    decreases flags.len(),
{
    if flags.len() > 0 {
        law_normal_flags_stay(flags.drop_last());
        if known_flag(flags.last()) {
            let head = normalized_flags(flags.drop_last());
            assert(head.push(flags.last()).drop_last() =~= head);
        }
    }
}

/// A search finds something exactly when the search for matches, the first or
/// all of them, finds some.
pub proof fn law_search_agrees_with_matches(
    pattern: Seq<char>,
    flags: Seq<char>,
    global: bool,
    text: Seq<char>,
)
    ensures
        match (
            response_to(pattern, flags, text),
            replace_response_to(pattern, flags, global, text),
        ) {
            (Ok(matched), Ok(matches)) => matched == (matches.len() > 0),
            (Err(left), Err(right)) => left == right,
            _ => false,
        },
{
}

/// The matcher is told of the flags for case, lines, dots and code points, in the
/// order given, and of no others.
pub proof fn law_flags_are_told_in_order(flags: Seq<char>, flag: char)
    ensures
        flag == 'i' || flag == 'm' || flag == 's' || flag == 'u' ==> normalized_flags(
            flags.push(flag),
        ) == normalized_flags(flags).push(flag),
        flag != 'i' && flag != 'm' && flag != 's' && flag != 'u' ==> normalized_flags(
            flags.push(flag),
        ) == normalized_flags(flags),
        normalized_flags(Seq::empty()).len() == 0,
{
    assert(flags.push(flag).drop_last() =~= flags);
}

/// Without the global flag only the first match is wanted, with it all of them.
pub proof fn law_only_the_first_match_is_wanted(matches: Seq<MatchView>)
    ensures
        wanted(matches, true) == matches,
        matches.len() > 0 ==> wanted(matches, false) == seq![matches[0]],
        matches.len() == 0 ==> wanted(matches, false).len() == 0,
{
    if matches.len() > 0 {
        assert(matches.take(1) =~= seq![matches[0]]);
    }
}

} // verus!
