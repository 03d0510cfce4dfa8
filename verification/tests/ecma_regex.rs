use stcli_core::ecma_regex::{
    normalize_flags, run_replace_worker, run_worker, validate_sizes, EcmaRegexError,
    EcmaRegexWorker, RegexMatch, RegexReplaceRequest, RegexReplaceResponse, RegexRequest,
    RegexResponse, MAX_PATTERN_BYTES, MAX_TEXT_BYTES,
};

#[test]
fn worker_supports_backreferences_and_lookaround() {
    let backreference = run_worker(RegexRequest {
        pattern: r"(\w)\1".to_owned(),
        flags: String::new(),
        text: "book".to_owned(),
    });
    assert!(matches!(backreference, RegexResponse::Match { matched: true }));
    let lookaround = run_worker(RegexRequest {
        pattern: r"library(?= door)".to_owned(),
        flags: "i".to_owned(),
        text: "Library door".to_owned(),
    });
    assert!(matches!(lookaround, RegexResponse::Match { matched: true }));
}

#[test]
fn oversized_input_is_rejected_before_matching() {
    let response = run_worker(RegexRequest {
        pattern: "a".to_owned(),
        flags: String::new(),
        text: "a".repeat(MAX_TEXT_BYTES + 1),
    });
    assert!(matches!(response, RegexResponse::Error { .. }));
}

fn replace(pattern: &str, flags: &str, global: bool, text: &str) -> Vec<RegexMatch> {
    match run_replace_worker(RegexReplaceRequest {
        pattern: pattern.to_owned(),
        flags: normalize_flags(flags),
        global,
        text: text.to_owned(),
    }) {
        RegexReplaceResponse::Matches { matches } => matches,
        RegexReplaceResponse::Error { message } => panic!("regex error: {message}"),
    }
}

#[test]
fn replace_worker_reports_capture_groups() {
    let matches = replace(r"(\w+)@(\w+)", "", false, "reach me at alice@example");
    assert_eq!(matches.len(), 1);
    assert_eq!(matches[0].groups[0].as_deref(), Some("alice@example"));
    assert_eq!(matches[0].groups[1].as_deref(), Some("alice"));
    assert_eq!(matches[0].groups[2].as_deref(), Some("example"));
}

#[test]
fn replace_worker_honors_global_flag() {
    assert_eq!(replace("a", "", false, "banana").len(), 1);
    assert_eq!(replace("a", "g", true, "banana").len(), 3);
}

#[test]
fn replace_worker_reports_unmatched_optional_group_as_none() {
    let matches = replace(r"(a)?b", "", false, "b");
    assert_eq!(matches.len(), 1);
    assert_eq!(matches[0].groups[0].as_deref(), Some("b"));
    assert_eq!(matches[0].groups[1], None);
}

#[test]
fn replace_worker_returns_no_matches_when_absent() {
    assert!(replace("zzz", "g", true, "banana").is_empty());
}

#[test]
fn matches_are_told_from_left_to_right_with_their_text() {
    let text = "aa、aaa";
    let matches = replace("a*", "g", true, text);
    assert!(matches.windows(2).all(|pair| pair[0].end <= pair[1].start));
    for found in &matches {
        assert_eq!(found.groups[0].as_deref(), Some(&text[found.start..found.end]));
    }
    assert_eq!((matches[0].start, matches[0].end), (0, 2));
}

#[test]
fn matches_are_placed_by_bytes() {
    let matches = replace("本", "g", true, "日本、本");
    assert_eq!((matches[0].start, matches[0].end), (3, 6));
    assert_eq!((matches[1].start, matches[1].end), (9, 12));
}

#[test]
fn sizes_are_held_to_their_limits() {
    assert!(validate_sizes(&"a".repeat(MAX_PATTERN_BYTES), "").is_ok());
    assert!(matches!(
        validate_sizes(&"a".repeat(MAX_PATTERN_BYTES + 1), ""),
        Err(EcmaRegexError::PatternTooLarge(n)) if n == MAX_PATTERN_BYTES + 1
    ));
    assert!(matches!(
        validate_sizes("a", &"é".repeat(MAX_TEXT_BYTES / 2 + 1)),
        Err(EcmaRegexError::TextTooLarge(n)) if n == MAX_TEXT_BYTES + 2
    ));
}

#[test]
fn only_the_flags_of_a_pattern_are_kept() {
    assert_eq!(normalize_flags("gimsuy"), "imsu");
    assert_eq!(normalize_flags(&normalize_flags("gimsuy")), "imsu");
}

#[test]
fn a_pattern_that_is_none_is_answered_with_an_error() {
    let request = RegexRequest {
        pattern: "(".to_owned(),
        flags: String::new(),
        text: "a".to_owned(),
    };
    assert!(matches!(run_worker(request), RegexResponse::Error { .. }));
}

#[test]
fn replies_of_a_worker_are_read() {
    assert_eq!(EcmaRegexWorker::is_match(RegexResponse::Match { matched: false }).unwrap(), false);
    assert!(matches!(
        EcmaRegexWorker::is_match(RegexResponse::Error { message: "bad".to_owned() }),
        Err(EcmaRegexError::Pattern(message)) if message == "bad"
    ));
    assert!(EcmaRegexWorker::find_matches(RegexReplaceResponse::Matches { matches: vec![] })
        .unwrap()
        .is_empty());
    assert!(matches!(
        EcmaRegexWorker::find_matches(RegexReplaceResponse::Error { message: "bad".to_owned() }),
        Err(EcmaRegexError::Pattern(message)) if message == "bad"
    ));
    let request = EcmaRegexWorker::replace_request("a", "gi", "banana").unwrap();
    assert!(request.global);
    assert_eq!(request.flags, "i");
    assert_eq!(EcmaRegexWorker::match_request("a", "i", "x").unwrap().text, "x");
}
