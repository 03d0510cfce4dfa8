use stcli_core::artifact::kind::ArtifactKind;
use stcli_core::artifact::revision::ArtifactRecord;
use stcli_core::egress::EgressBroker;
use stcli_core::engine::plugins::EngineError;
use stcli_core::engine::sessions::{
    artifacts_of_kind, character_label, check_branch_session, check_preset_pinned, choice_label,
    count_session, ensure_attempt_session, greeting_of, override_prompt_order, preset_to_pin,
    previous_attempt, previous_selected_candidate, selected_content_candidate, source_branch,
    summarize, truncate_preview, CountedTurn, StcliEngine, SummarySource, TurnOutline,
};
use stcli_core::identity::{ContentHash, EntityId};
use stcli_core::inference::InferenceBroker;
use stcli_core::json::{Json, JsonNumber, NumberForm};
use stcli_core::session::{
    BranchProjection, CandidateOrigin, CandidateProjection, SessionProjection, TurnProjection,
};
use stcli_core::turn::TurnError;

fn order(value: f64) -> i64 {
    if value >= 0.0 {
        value.abs().to_bits() as i64
    } else {
        -((-value).to_bits() as i64)
    }
}

fn convert(value: &serde_json::Value) -> Json {
    match value {
        serde_json::Value::Null => Json::Null,
        serde_json::Value::Bool(b) => Json::Bool(*b),
        serde_json::Value::Number(n) => {
            let form = if let Some(u) = n.as_u64() {
                NumberForm::Unsigned(u)
            } else if let Some(i) = n.as_i64() {
                NumberForm::Negative(i)
            } else {
                NumberForm::Real(n.to_string())
            };
            Json::Number(JsonNumber { form, order: order(n.as_f64().unwrap()) })
        }
        serde_json::Value::String(s) => Json::Text(s.clone()),
        serde_json::Value::Array(items) => Json::Array(items.iter().map(convert).collect()),
        serde_json::Value::Object(members) => {
            Json::Object(members.iter().map(|(k, v)| (k.clone(), convert(v))).collect())
        }
    }
}

fn json(source: &str) -> Json {
    convert(&serde_json::from_str(source).unwrap())
}

fn id(n: u128) -> EntityId {
    EntityId::from_ulid(n)
}

fn hash(n: u8) -> ContentHash {
    ContentHash::new([n; 32])
}

fn counted(turn: u128, user_tokens: usize, reply_tokens: usize) -> CountedTurn {
    CountedTurn { turn_id: id(turn), user_tokens, reply_tokens }
}

#[test]
fn previews_are_cut_to_one_line() {
    assert_eq!(truncate_preview("a\nb\r\nc", 10), "a b  c");
    assert_eq!(truncate_preview("abcdef", 3), "abc…");
    assert_eq!(truncate_preview("abc", 3), "abc");
    assert_eq!(truncate_preview("日本", 3), "日本…");
}

#[test]
fn shared_turns_are_counted_once() {
    let root = vec![counted(1, 2, 3), counted(2, 1, 0)];
    let others = vec![vec![counted(1, 2, 3), counted(3, 5, 5)]];
    assert_eq!(count_session(&root, &others), (3, 16));
    assert_eq!(count_session(&vec![], &vec![]), (0, 0));
}

#[test]
fn sessions_are_summarized() {
    let source = SummarySource {
        session_id: id(5 << 80),
        custom_name: None,
        archived: true,
        character: json(r#"{"data": {"name": "Alice"}, "name": "Other"}"#),
        persona_name: "User".to_owned(),
        greeting: "Hello\nthere".to_owned(),
        root_turns: vec![counted(1, 2, 3)],
        other_branches: vec![],
        last_message: None,
        last_event: Some(id(9 << 80)),
    };
    let summary = summarize(&source);
    assert_eq!(summary.display_name, "Alice");
    assert_eq!(summary.character_label, "Alice");
    assert_eq!(summary.persona_label, "User");
    assert!(summary.archived);
    assert_eq!(summary.created_at_ms, 5);
    assert_eq!(summary.modified_at_ms, 9);
    assert_eq!((summary.turn_count, summary.token_count), (1, 5));
    assert_eq!(summary.last_message_preview, "Hello there");
    let named = SummarySource {
        custom_name: Some("Mine".to_owned()),
        last_message: Some("Bye".to_owned()),
        last_event: None,
        ..source
    };
    let summary = summarize(&named);
    assert_eq!(summary.display_name, "Mine");
    assert_eq!(summary.modified_at_ms, 5);
    assert_eq!(summary.last_message_preview, "Bye");
}

#[test]
fn characters_are_shown_by_their_names() {
    assert_eq!(character_label(&json(r#"{"name": "Bob"}"#)), "Bob");
    assert_eq!(character_label(&json("{}")), "Character");
    assert_eq!(choice_label(&json(r#"{"name": "Bob"}"#), &hash(1)), "Bob");
}

fn branch() -> BranchProjection {
    BranchProjection {
        branch_id: id(2),
        session_id: id(1),
        greeting_revision_hash: hash(1),
        greeting_index: 1,
    }
}

fn turn() -> TurnProjection {
    TurnProjection {
        turn_id: id(3),
        session_id: id(1),
        branch_id: id(2),
        user_content: "Hi".to_owned(),
        selected_candidate_id: None,
    }
}

#[test]
fn greetings_are_found_by_their_place() {
    let greetings = vec!["one".to_owned(), "two".to_owned()];
    let greeting = greeting_of(&branch(), &greetings).unwrap();
    assert_eq!((greeting.index, greeting.total, greeting.content.as_str()), (1, 2, "two"));
    assert!(greeting_of(&branch(), &vec!["one".to_owned()]).is_none());
}

#[test]
fn branches_and_attempts_belong_to_their_session() {
    assert!(check_branch_session(&branch(), id(1)).is_ok());
    assert!(matches!(
        check_branch_session(&branch(), id(9)),
        Err(EngineError::BranchSessionMismatch)
    ));
    assert!(ensure_attempt_session(&turn(), id(1)).is_ok());
    assert!(matches!(
        ensure_attempt_session(&turn(), id(9)),
        Err(EngineError::AttemptSessionMismatch)
    ));
}

fn outline(turn: u128, selected: Option<u128>, completed: bool) -> TurnOutline {
    TurnOutline { turn_id: id(turn), selected_candidate_id: selected.map(id), completed }
}

#[test]
fn the_reply_before_a_turn_is_found() {
    let turns =
        vec![outline(1, Some(11), true), outline(2, None, true), outline(3, Some(13), true)];
    assert_eq!(previous_selected_candidate(&turns, id(2), id(7)), Ok((id(1), id(11))));
    assert_eq!(
        previous_selected_candidate(&turns, id(1), id(7)),
        Err(TurnError::NoPreviousTurnForAttempt(id(7)))
    );
    assert_eq!(
        previous_selected_candidate(&turns, id(3), id(7)),
        Err(TurnError::TurnHasNoSelection(id(2)))
    );
    assert_eq!(
        previous_selected_candidate(&turns, id(8), id(7)),
        Err(TurnError::TurnNotFound(id(8)))
    );
    assert_eq!(selected_content_candidate(&turns), Some(id(13)));

    let mut candidate = CandidateProjection {
        candidate_id: id(11),
        turn_id: id(1),
        attempt_id: Some(id(21)),
        origin: CandidateOrigin::Generated,
        content: String::new(),
        value: Json::Null,
    };
    assert_eq!(previous_attempt(id(11), Some(&candidate), id(7), id(1)), Ok(id(21)));
    assert_eq!(
        previous_attempt(id(11), None, id(7), id(1)),
        Err(TurnError::CandidateNotFound(id(11)))
    );
    candidate.attempt_id = None;
    assert_eq!(
        previous_attempt(id(11), Some(&candidate), id(7), id(1)),
        Err(TurnError::PreviousTurnSelectionHasNoGenerationAttempt {
            attempt_id: id(7),
            previous_turn_id: id(1)
        })
    );
}

#[test]
fn presets_are_pinned_and_overridden() {
    assert!(check_preset_pinned(id(1), &Some(hash(1)), &hash(1)).is_ok());
    assert!(matches!(
        check_preset_pinned(id(1), &None, &hash(1)),
        Err(EngineError::PromptPresetNotPinned(session)) if session == id(1)
    ));
    assert_eq!(preset_to_pin(&hash(1), &hash(2)), Some(hash(2)));
    assert_eq!(preset_to_pin(&hash(1), &hash(1)), None);
    let mut overrides = vec![("main".to_owned(), true)];
    override_prompt_order(&mut overrides, "jailbreak".to_owned(), Some(false));
    assert_eq!(overrides, [("jailbreak".to_owned(), false), ("main".to_owned(), true)]);
    override_prompt_order(&mut overrides, "main".to_owned(), None);
    assert_eq!(overrides, [("jailbreak".to_owned(), false)]);
}

#[test]
fn artifacts_are_kept_by_kind() {
    let record = |kind| ArtifactRecord {
        revision_hash: hash(1),
        kind,
        source_format: "json".to_owned(),
        semantic_hash: hash(2),
        source_blob_hash: hash(3),
        imported_event_id: "event".to_owned(),
    };
    let records = || vec![record(ArtifactKind::Lorebook), record(ArtifactKind::CharacterCardV2)];
    assert_eq!(artifacts_of_kind(records(), Some(ArtifactKind::Lorebook)).len(), 1);
    assert_eq!(artifacts_of_kind(records(), None).len(), 2);
}

#[test]
fn an_engine_knows_its_directories() {
    let engine = StcliEngine::new("/data/stcli.sqlite3".to_owned());
    assert_eq!(engine.database(), "/data/stcli.sqlite3");
    assert_eq!(engine.plugin_root(), "/data/plugins");
    assert!(engine.egress.is_none());
    let engine = StcliEngine::with_effect_brokers(
        "/data/stcli.sqlite3".to_owned(),
        EgressBroker::stub(),
        InferenceBroker::stub(),
    )
    .with_config_directory("/config".to_owned());
    assert_eq!(engine.config_directory, "/config");
    assert!(engine.egress.is_some() && engine.inference.is_some());
    let session = SessionProjection {
        session_id: id(1),
        current_config_hash: hash(1),
        root_branch_id: id(2),
        archived: false,
    };
    assert_eq!(source_branch(&session, None), id(2));
    assert_eq!(source_branch(&session, Some(id(4))), id(4));
}
