use std::time::Duration;

use stcli_core::ecma_regex::EcmaRegexWorker;
use stcli_core::identity::ContentHash;
use stcli_core::json::{Json, JsonNumber, NumberForm};
use stcli_core::lore::activation::{LoreEngine, LoreReplies};
use stcli_core::lore::decision::{LoreDecisionOutcome, LoreResult, LoreSettings};
use stcli_core::lore::entry::{parse_lore_entries, LoreEntry, LoreError, LorePosition, LoreQuestion};
use stcli_core::tokenizer::TokenizerId;

fn order(value: f64) -> i64 {
    if value >= 0.0 {
        value.abs().to_bits() as i64
    } else {
        -((-value).to_bits() as i64)
    }
}

fn convert(value: &serde_json::Value) -> Json {
    match value {
        serde_json::Value::Null => Json::Null,
        serde_json::Value::Bool(b) => Json::Bool(*b),
        serde_json::Value::Number(n) => {
            let form = if let Some(u) = n.as_u64() {
                NumberForm::Unsigned(u)
            } else if let Some(i) = n.as_i64() {
                NumberForm::Negative(i)
            } else {
                NumberForm::Real(n.to_string())
            };
            Json::Number(JsonNumber { form, order: order(n.as_f64().unwrap()) })
        }
        serde_json::Value::String(s) => Json::Text(s.clone()),
        serde_json::Value::Array(items) => Json::Array(items.iter().map(convert).collect()),
        serde_json::Value::Object(members) => {
            Json::Object(members.iter().map(|(k, v)| (k.clone(), convert(v))).collect())
        }
    }
}

fn json(source: &str) -> Json {
    convert(&serde_json::from_str(source).unwrap())
}

const LIMIT: usize = 1000;

fn revision() -> ContentHash {
    ContentHash::parse("sha256:aaaaaaaaaaaaaaaaaaaaaaaaaaaaaaaaaaaaaaaaaaaaaaaaaaaaaaaaaaaaaaaa")
        .unwrap()
}

fn entries(source: &str) -> Vec<LoreEntry> {
    parse_lore_entries(&revision(), &json(source), 0, LIMIT).unwrap()
}

fn engine() -> LoreEngine {
    LoreEngine::with_worker(
        TokenizerId::Cl100kBase,
        EcmaRegexWorker::new("unused".to_owned(), Duration::from_secs(1)),
    )
}

/// Evaluates entries, with the words of an entry counted as its tokens.
fn evaluate(entries: &Vec<LoreEntry>, messages: &[&str], settings: &LoreSettings) -> LoreResult {
    let messages: Vec<String> = messages.iter().map(|m| m.to_string()).collect();
    let mut replies = LoreReplies::none();
    loop {
        match engine().evaluate_in_process(entries, &messages, settings, &replies) {
            Ok(result) => return result,
            Err(LoreError::Unresolved(LoreQuestion::Rendering { entry_key })) => {
                let entry = entries.iter().find(|entry| entry.key() == entry_key).unwrap();
                replies.tokens.push(entry.content.split_whitespace().count());
            }
            Err(LoreError::Unresolved(LoreQuestion::Percentage { value })) => {
                let share = value as f64 / u64::MAX as f64 * 100.0;
                replies.percentages.push(JsonNumber {
                    form: NumberForm::Real(share.to_string()),
                    order: order(share),
                });
            }
            Err(error) => panic!("{error:?}"),
        }
    }
}

fn outcomes(result: &LoreResult) -> Vec<LoreDecisionOutcome> {
    result.decisions.iter().map(|decision| decision.outcome).collect()
}

#[test]
fn parses_character_book_and_recursively_activates_entries() {
    let entries = entries(
        r#"{"entries": [
            {"id": 1, "keys": ["library"], "content": "A sealed archive", "enabled": true, "insertion_order": 100},
            {"id": 2, "keys": ["archive"], "content": "The archivist is Mira", "enabled": true, "insertion_order": 90}
        ]}"#,
    );
    let result = evaluate(&entries, &["Open the library"], &LoreSettings::default());
    assert_eq!(result.activated.len(), 2);
    assert_eq!(result.activated[0].entry_key, format!("{}.1", revision().text()));
    assert_eq!(result.activated[1].entry_key, format!("{}.2", revision().text()));
}

#[test]
fn selective_regex_groups_probability_and_budget_are_traced() {
    let entries = entries(
        r#"{"entries": {
            "regex": {"key": ["/lib(?:rary)?/i"], "keysecondary": ["door"], "selective": true, "selectiveLogic": 3, "content": "first", "constant": false, "order": 100, "group": "place", "groupWeight": 1},
            "constant": {"key": [], "content": "second", "constant": true, "order": 90, "group": "place", "groupWeight": 0},
            "large": {"key": [], "content": "a very long lore entry that exceeds the tiny budget", "constant": true, "order": 80}
        }}"#,
    );
    let settings = LoreSettings { budget_tokens: 8, rng_seed: 7, ..LoreSettings::default() };
    let result = evaluate(&entries, &["LIBRARY door"], &settings);
    assert_eq!(result.activated.len(), 1);
    assert!(result
        .decisions
        .iter()
        .any(|decision| decision.outcome == LoreDecisionOutcome::GroupRejected));
    assert!(result
        .decisions
        .iter()
        .any(|decision| decision.outcome == LoreDecisionOutcome::BudgetRejected));
}

#[test]
fn oversized_lorebook_is_rejected() {
    let items: Vec<Json> = (0..LIMIT + 1)
        .map(|i| {
            json(&format!(
                r#"{{"id": {i}, "keys": ["k"], "content": "c", "enabled": true, "insertion_order": 100}}"#
            ))
        })
        .collect();
    let source = Json::Object(vec![("entries".to_owned(), Json::Array(items))]);
    assert!(matches!(
        parse_lore_entries(&revision(), &source, 0, LIMIT),
        Err(LoreError::TooManyEntries { count, limit }) if count == LIMIT + 1 && limit == LIMIT
    ));
}

#[test]
fn sources_without_entries_are_refused() {
    let refused = |source: &str| parse_lore_entries(&revision(), &json(source), 0, LIMIT);
    assert!(matches!(refused("{}"), Err(LoreError::MissingEntries)));
    assert!(matches!(refused(r#"{"entries": 3}"#), Err(LoreError::InvalidEntries)));
    assert!(matches!(
        refused(r#"{"entries": {"x": 3}}"#),
        Err(LoreError::InvalidEntry(id)) if id == "x"
    ));
}

#[test]
fn entries_are_read_with_their_defaults() {
    let entries = entries(r#"{"entries": {"7": {"key": ["a", "b"], "content": "text", "position": 4}}}"#);
    let entry = &entries[0];
    assert_eq!(entry.id, "7");
    assert_eq!(entry.keys, ["a", "b"]);
    assert_eq!(entry.content, "text");
    assert!(entry.enabled);
    assert!(!entry.constant);
    assert_eq!(entry.insertion_order, 100);
    assert_eq!(entry.position, LorePosition::AtDepth);
    assert_eq!(entry.depth, 4);
    assert_eq!(entry.group_weight, 100);
    assert_eq!(entry.probability.order, order(100.0));
}

#[test]
fn disabled_entries_stay_out() {
    let entries = entries(
        r#"{"entries": {"a": {"key": ["door"], "content": "text", "disable": true}}}"#,
    );
    let result = evaluate(&entries, &["the door"], &LoreSettings::default());
    assert!(result.activated.is_empty());
    assert_eq!(outcomes(&result)[0], LoreDecisionOutcome::Disabled);
}

#[test]
fn whole_words_are_told_from_parts_of_words() {
    let entries = entries(
        r#"{"entries": {"a": {"key": ["door"], "content": "text", "matchWholeWords": true}}}"#,
    );
    assert!(evaluate(&entries, &["the doors"], &LoreSettings::default()).activated.is_empty());
    assert_eq!(evaluate(&entries, &["the door."], &LoreSettings::default()).activated.len(), 1);
}

#[test]
fn only_the_newest_messages_are_scanned() {
    let entries = entries(r#"{"entries": {"a": {"key": ["door"], "content": "text"}}}"#);
    let settings = LoreSettings { scan_depth: 1, ..LoreSettings::default() };
    assert!(evaluate(&entries, &["nothing", "the door"], &settings).activated.is_empty());
    let settings = LoreSettings { scan_depth: 2, ..LoreSettings::default() };
    assert_eq!(evaluate(&entries, &["nothing", "the door"], &settings).activated.len(), 1);
}

#[test]
fn an_outside_matcher_is_asked_for_its_match() {
    let entries = entries(r#"{"entries": {"a": {"key": ["/d.or/i"], "content": "text"}}}"#);
    let messages = vec!["the DOOR".to_owned()];
    let mut replies = LoreReplies::none();
    let asked = engine().evaluate(&entries, &messages, &LoreSettings::default(), &replies);
    assert!(matches!(
        asked,
        Err(LoreError::Unresolved(LoreQuestion::Matches { pattern, flags, .. }))
            if pattern == "d.or" && flags == "i"
    ));
    replies.matches.push(true);
    replies.tokens.push(1);
    let result =
        engine().evaluate(&entries, &messages, &LoreSettings::default(), &replies).unwrap();
    assert_eq!(result.activated.len(), 1);
    assert_eq!(result.activated[0].tokens, 1);
}

#[test]
fn recent_activations_stick_and_cool_down() {
    let sticky = entries(r#"{"entries": {"a": {"key": ["door"], "content": "text", "sticky": 3}}}"#);
    let settings = LoreSettings {
        message_count: 5,
        prior_activations: vec![(sticky[0].key(), 4)],
        ..LoreSettings::default()
    };
    assert_eq!(evaluate(&sticky, &["nothing"], &settings).activated.len(), 1);
    let cooling =
        entries(r#"{"entries": {"a": {"key": ["door"], "content": "text", "cooldown": 3}}}"#);
    let settings = LoreSettings {
        message_count: 5,
        prior_activations: vec![(cooling[0].key(), 4)],
        ..LoreSettings::default()
    };
    let result = evaluate(&cooling, &["the door"], &settings);
    assert!(result.activated.is_empty());
    assert_eq!(outcomes(&result)[0], LoreDecisionOutcome::CooldownSuppressed);
}
