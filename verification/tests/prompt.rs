use stcli_core::identity::EntityId;
use stcli_core::json::{Json, JsonNumber, NumberForm};
use stcli_core::macros::render::MacroEvaluation;
use stcli_core::prompt::arrange::{apply_prompt_preset, PresetRendering};
use stcli_core::prompt::chat::insert_in_chat_segments;
use stcli_core::prompt::preset::{PromptPreset, CHAT_COMPLETION_CHARACTER_ID};
use stcli_core::prompt::prune::{prune_segments, PromptPruning};
use stcli_core::prompt::segment::{
    PromptError, PromptSegment, RegexScriptApplication, RenderedPromptContent, StateMutation,
};
use stcli_core::prompt_diff::{
    diff_prompt_plans, prompt_text_diff, PromptDiff, PromptSegmentChange, PromptTextChangeKind,
    PromptTokenDelta,
};
use stcli_core::provider::ChatRole;
use stcli_core::state::{StateKey, VariableScope};
use stcli_core::tokenizer::TokenizerId;
use stcli_core::turn::PromptPlan;

fn order(value: f64) -> i64 {
    if value >= 0.0 {
        value.abs().to_bits() as i64
    } else {
        -((-value).to_bits() as i64)
    }
}

fn convert(value: &serde_json::Value) -> Json {
    match value {
        serde_json::Value::Null => Json::Null,
        serde_json::Value::Bool(b) => Json::Bool(*b),
        serde_json::Value::Number(n) => {
            let form = if let Some(u) = n.as_u64() {
                NumberForm::Unsigned(u)
            } else if let Some(i) = n.as_i64() {
                NumberForm::Negative(i)
            } else {
                NumberForm::Real(n.to_string())
            };
            Json::Number(JsonNumber { form, order: order(n.as_f64().unwrap()) })
        }
        serde_json::Value::String(s) => Json::Text(s.clone()),
        serde_json::Value::Array(items) => Json::Array(items.iter().map(convert).collect()),
        serde_json::Value::Object(members) => {
            Json::Object(members.iter().map(|(k, v)| (k.clone(), convert(v))).collect())
        }
    }
}

fn json(source: &str) -> Json {
    convert(&serde_json::from_str(source).unwrap())
}

fn new_segment(tokens: usize, source: &str, slot: &str, role: ChatRole, content: &str) -> PromptSegment {
    PromptSegment::new(tokens, source.to_owned(), slot.to_owned(), role, content.to_owned())
}

fn arrange(preset: &PromptPreset, segments: Vec<PromptSegment>) -> Vec<PromptSegment> {
    let mut renderings: Vec<Result<PresetRendering, PromptError>> = Vec::new();
    loop {
        let copies = segments.iter().map(|segment| segment.copy()).collect();
        match apply_prompt_preset(Some(preset), copies, &renderings) {
            Ok(arranged) => return arranged,
            Err(PromptError::Unrendered { content, .. }) => renderings.push(Ok(PresetRendering {
                rendered: RenderedPromptContent::plain(content),
                token_count: 1,
            })),
            Err(error) => panic!("{error:?}"),
        }
    }
}

fn contents(segments: &[PromptSegment]) -> Vec<&str> {
    segments.iter().map(|segment| segment.content.as_str()).collect()
}

#[test]
fn preset_orders_native_slots_custom_prompts_and_in_chat_depth() {
    let preset = PromptPreset::parse(
        &json(
            r#"{
            "prompts": [
                {"identifier": "custom", "role": "system", "content": "custom"},
                {"identifier": "depth", "role": "user", "content": "depth", "injection_position": 1, "injection_depth": 1}
            ],
            "prompt_order": [{"character_id": 100001, "order": [
                {"identifier": "main", "enabled": true},
                {"identifier": "custom", "enabled": true},
                {"identifier": "chatHistory", "enabled": true},
                {"identifier": "depth", "enabled": true},
                {"identifier": "userInput", "enabled": true}
            ]}]
        }"#,
        ),
        CHAT_COMPLETION_CHARACTER_ID,
    )
    .unwrap();
    let segments = vec![
        new_segment(1, "history", "chatHistory", ChatRole::User, "old"),
        new_segment(1, "main", "main", ChatRole::System, "main"),
        new_segment(1, "user", "userInput", ChatRole::User, "new"),
    ];
    let ordered = arrange(&preset, segments);
    assert_eq!(contents(&ordered), ["main", "custom", "old", "depth", "new"]);
}

#[test]
fn parse_order_selects_character_id_100001_over_100000() {
    let preset = PromptPreset::parse(
        &json(
            r#"{
            "prompts": [
                {"identifier": "main", "role": "system", "content": "main"}
            ],
            "prompt_order": [
                {"character_id": 100000, "order": [
                    {"identifier": "main", "enabled": true},
                    {"identifier": "chatHistory", "enabled": true}
                ]},
                {"character_id": 100001, "order": [
                    {"identifier": "chatHistory", "enabled": true},
                    {"identifier": "main", "enabled": false}
                ]}
            ]
        }"#,
        ),
        CHAT_COMPLETION_CHARACTER_ID,
    )
    .unwrap();
    assert_eq!(preset.order.len(), 2);
    assert_eq!(preset.order[0].identifier, "chatHistory");
    assert!(preset.order[0].enabled);
    assert_eq!(preset.order[1].identifier, "main");
    assert!(!preset.order[1].enabled);
}

#[test]
fn disabled_order_entries_suppress_native_slot_fallback() {
    let preset = PromptPreset::parse(
        &json(
            r#"{
            "prompts": [],
            "prompt_order": [{"character_id": 100001, "order": [
                {"identifier": "main", "enabled": true},
                {"identifier": "charDescription", "enabled": false},
                {"identifier": "chatHistory", "enabled": true}
            ]}]
        }"#,
        ),
        CHAT_COMPLETION_CHARACTER_ID,
    )
    .unwrap();
    let segments = vec![
        new_segment(1, "main", "main", ChatRole::System, "main"),
        new_segment(1, "char", "charDescription", ChatRole::System, "description"),
        new_segment(1, "history", "chatHistory", ChatRole::User, "chat"),
    ];
    let ordered = arrange(&preset, segments);
    assert_eq!(contents(&ordered), ["main", "chat"]);
}

#[test]
fn pruning_discards_examples_then_complete_oldest_turns() {
    let mut main = new_segment(1, "main", "main", ChatRole::System, "main");
    main.truncation_priority = u32::MAX;
    let mut example =
        new_segment(4, "example:0", "dialogueExamples", ChatRole::User, "an expendable example");
    example.truncation_priority = 50;
    let mut turn_user =
        new_segment(2, "turn:01:user", "chatHistory", ChatRole::User, "old question");
    turn_user.truncation_priority = 100;
    let mut turn_assistant =
        new_segment(2, "turn:01:assistant", "chatHistory", ChatRole::Assistant, "old answer");
    turn_assistant.truncation_priority = 100;
    let mut current =
        new_segment(1, "current-user-action", "userInput", ChatRole::User, "new");
    current.truncation_priority = u32::MAX;
    let protected = main.token_count + current.token_count;
    let mut segments = vec![main, example, turn_user, turn_assistant, current];

    let report = prune_segments(&mut segments, protected, 0).unwrap();

    assert_eq!(report.kept_tokens, protected);
    assert!(segments[1].pruned);
    assert!(segments[2].pruned);
    assert!(segments[3].pruned);
    assert!(!segments[0].pruned);
    assert!(!segments[4].pruned);
}

#[test]
fn pruning_stops_as_soon_as_the_prompt_fits() {
    let mut example = new_segment(4, "example:0", "dialogueExamples", ChatRole::User, "example");
    example.truncation_priority = 50;
    let mut turn = new_segment(2, "turn:01:user", "chatHistory", ChatRole::User, "old");
    turn.truncation_priority = 100;
    let mut segments = vec![turn, example];
    let report = prune_segments(&mut segments, 10, 8).unwrap();
    assert_eq!(report.prompt_limit, 2);
    assert_eq!(report.kept_tokens, 2);
    assert_eq!(report.pruned_tokens, 4);
    assert!(!segments[0].pruned);
    assert!(segments[1].pruned);
}

#[test]
fn protected_content_that_does_not_fit_is_refused() {
    let mut main = new_segment(5, "main", "main", ChatRole::System, "main");
    main.truncation_priority = u32::MAX;
    let mut segments = vec![main];
    assert_eq!(
        prune_segments(&mut segments, 3, 4),
        Err(PromptError::ContextOverflow { required: 5, available: 0 })
    );
}

#[test]
fn segments_of_a_depth_are_counted_from_the_end() {
    let mut first = new_segment(1, "b", "x", ChatRole::System, "depth two");
    first.in_chat_depth = Some(2);
    let mut second = new_segment(1, "a", "x", ChatRole::System, "depth none");
    second.in_chat_depth = Some(0);
    let mut third = new_segment(1, "a", "x", ChatRole::System, "depth two, earlier source");
    third.in_chat_depth = Some(2);
    let segments = vec![
        first,
        new_segment(1, "m1", "chatHistory", ChatRole::User, "one"),
        second,
        new_segment(1, "m2", "chatHistory", ChatRole::User, "two"),
        third,
    ];
    let placed = insert_in_chat_segments(segments);
    assert_eq!(
        contents(&placed),
        ["depth two, earlier source", "depth two", "one", "two", "depth none"]
    );
}

#[test]
fn presets_without_prompts_are_refused() {
    assert_eq!(PromptPreset::parse(&json("{}"), 1), Err(PromptError::MissingPrompts));
    assert_eq!(
        PromptPreset::parse(&json(r#"{"prompts": [1]}"#), 1),
        Err(PromptError::InvalidPrompt)
    );
    assert_eq!(
        PromptPreset::parse(&json(r#"{"prompts": [{}]}"#), 1),
        Err(PromptError::MissingIdentifier)
    );
}

#[test]
fn a_later_prompt_takes_the_place_of_an_earlier_one() {
    let preset = PromptPreset::parse(
        &json(
            r#"{"prompts": [
            {"identifier": "b", "content": "first", "role": "assistant"},
            {"identifier": "a", "content": "other"},
            {"identifier": "b", "content": "second", "role": "user", "marker": true}
        ], "prompt_order": {"order": [{"identifier": "b"}, {"enabled": true}]}}"#,
        ),
        1,
    )
    .unwrap();
    assert_eq!(preset.prompts.len(), 2);
    assert_eq!(preset.prompts[0].0, "a");
    assert_eq!(preset.prompts[1].1.content, "second");
    assert_eq!(preset.prompts[1].1.role, ChatRole::User);
    assert!(preset.prompts[1].1.marker);
    assert_eq!(preset.order.len(), 1);
    assert!(preset.order[0].enabled);
}

#[test]
fn user_input_joins_the_history_where_the_order_has_no_place_for_it() {
    let preset = PromptPreset::parse(
        &json(
            r#"{"prompts": [], "prompt_order": [{"character_id": 100001, "order": [
            {"identifier": "chatHistory", "enabled": true},
            {"identifier": "main", "enabled": true}
        ]}]}"#,
        ),
        CHAT_COMPLETION_CHARACTER_ID,
    )
    .unwrap();
    let segments = vec![
        new_segment(1, "user", "userInput", ChatRole::User, "new"),
        new_segment(1, "main", "main", ChatRole::System, "main"),
        new_segment(1, "history", "chatHistory", ChatRole::User, "old"),
        new_segment(1, "own", "ownSlot", ChatRole::User, "kept"),
        new_segment(1, "scenario", "scenario", ChatRole::User, "dropped"),
    ];
    let ordered = arrange(&preset, segments);
    assert_eq!(contents(&ordered), ["old", "new", "main", "kept"]);
}

fn plan(segments: Vec<PromptSegment>, kept_tokens: usize, pruned_tokens: usize) -> PromptPlan {
    PromptPlan {
        tokenizer: TokenizerId::O200kBase,
        rng_seed: 0,
        segments,
        total_tokens: kept_tokens,
        pruning: PromptPruning {
            context_limit: 10,
            response_reserve: 0,
            prompt_limit: 10,
            kept_tokens,
            pruned_tokens,
        },
    }
}

fn segment(source: &str, content: &str, token_count: usize, pruned: bool) -> PromptSegment {
    let mut segment = new_segment(token_count, source, "test", ChatRole::System, content);
    segment.pruned = pruned;
    segment
}

fn has_change(diff: &PromptDiff, source: &str, change: PromptSegmentChange) -> bool {
    diff.segments
        .iter()
        .any(|segment| segment.source == source && segment.changes.contains(&change))
}

#[test]
fn itemizes_structural_text_and_token_changes() {
    let baseline = plan(
        vec![
            segment("alpha", "old alpha", 2, false),
            segment("beta", "old beta", 2, false),
            segment("removed", "gone", 1, false),
            segment("pruned", "limited", 2, false),
        ],
        8,
        1,
    );
    let target = plan(
        vec![
            segment("beta", "new beta", 3, false),
            segment("alpha", "old alpha", 2, false),
            segment("pruned", "limited", 2, true),
            segment("added", "new", 1, false),
        ],
        5,
        3,
    );

    let diff = diff_prompt_plans(EntityId::new(), &baseline, EntityId::new(), &target);

    assert_eq!(
        diff.token_delta,
        PromptTokenDelta { kept_tokens: -3, pruned_tokens: 2, total_tokens: -3 }
    );
    assert!(has_change(&diff, "alpha", PromptSegmentChange::Reordered));
    assert!(has_change(&diff, "beta", PromptSegmentChange::Reordered));
    assert!(has_change(&diff, "beta", PromptSegmentChange::TextModified));
    assert!(has_change(&diff, "removed", PromptSegmentChange::Removed));
    assert!(has_change(&diff, "added", PromptSegmentChange::Added));
    assert!(has_change(&diff, "pruned", PromptSegmentChange::PruningStatusChanged));
    let added = diff.segments.iter().find(|segment| segment.source == "added").unwrap();
    assert_eq!(added.target.as_ref().unwrap().content, "new");
    assert!(added
        .text_diff
        .as_ref()
        .unwrap()
        .line
        .iter()
        .any(|change| change.kind == PromptTextChangeKind::Insert));
    let removed = diff.segments.iter().find(|segment| segment.source == "removed").unwrap();
    assert_eq!(removed.baseline.as_ref().unwrap().content, "gone");
    assert!(removed
        .text_diff
        .as_ref()
        .unwrap()
        .line
        .iter()
        .any(|change| change.kind == PromptTextChangeKind::Delete));
    let beta = diff.segments.iter().find(|segment| segment.source == "beta").unwrap();
    let text = beta.text_diff.as_ref().unwrap();
    assert!(text.word.iter().any(|change| change.kind == PromptTextChangeKind::Delete));
    assert!(text.word.iter().any(|change| change.kind == PromptTextChangeKind::Insert));
    assert!(text.character.iter().any(|change| change.kind == PromptTextChangeKind::Insert));
    assert!(text.line.iter().any(|change| change.kind == PromptTextChangeKind::Delete));
}

#[test]
fn a_prompt_does_not_differ_from_itself() {
    let segments = || vec![segment("a", "x", 1, false), segment("a", "y", 1, true)];
    let diff = diff_prompt_plans(
        EntityId::from_ulid(1),
        &plan(segments(), 2, 0),
        EntityId::from_ulid(2),
        &plan(segments(), 2, 0),
    );
    assert!(diff.segments.is_empty());
}

#[test]
fn text_changes_lead_from_one_text_to_the_other() {
    let old = "the quick fox\njumps over\nthe dog\n";
    let new = "the slow fox\njumps\nover the dog!\n";
    let diff = prompt_text_diff(old, new);
    for changes in [&diff.character, &diff.word, &diff.line] {
        let before: String = changes
            .iter()
            .filter(|change| change.kind != PromptTextChangeKind::Insert)
            .map(|change| change.value.as_str())
            .collect();
        let after: String = changes
            .iter()
            .filter(|change| change.kind != PromptTextChangeKind::Delete)
            .map(|change| change.value.as_str())
            .collect();
        assert_eq!(before, old);
        assert_eq!(after, new);
        for pair in changes.windows(2) {
            assert_ne!(pair[0].kind, pair[1].kind);
        }
    }
    assert_eq!(diff.word[0].value, "the ");
    assert_eq!(diff.line[0].kind, PromptTextChangeKind::Delete);
}

#[test]
fn slot_selection_precedes_index_and_correlates_transformations() {
    let mut first = new_segment(1, "first", "main", ChatRole::System, "first");
    first.raw_content = "{{setvar::mood::bright}}first".to_owned();
    first.macro_evaluations = vec![MacroEvaluation {
        name: "setvar".to_owned(),
        arguments: vec!["mood".to_owned(), "bright".to_owned()],
        output: String::new(),
    }];
    first.state_mutations = vec![StateMutation {
        key: StateKey { scope: VariableScope::Local, name: "mood".to_owned() },
        before: None,
        after: None,
    }];
    first.regex_applications = vec![RegexScriptApplication {
        id: "script".to_owned(),
        name: "replace".to_owned(),
        placement: 1,
        replacements: 1,
    }];
    let numeric_slot = new_segment(1, "numeric-slot", "0", ChatRole::System, "numeric");
    let plan = PromptPlan {
        tokenizer: TokenizerId::Cl100kBase,
        rng_seed: 0,
        segments: vec![first, numeric_slot],
        total_tokens: 0,
        pruning: PromptPruning {
            context_limit: 0,
            response_reserve: 0,
            prompt_limit: 0,
            kept_tokens: 0,
            pruned_tokens: 0,
        },
    };

    let by_slot = plan.inspect_segments("main").unwrap();
    assert_eq!(by_slot.segments.len(), 1);
    assert_eq!(by_slot.segments[0].index, 0);
    assert_eq!(by_slot.segments[0].transformations.macro_evaluations.len(), 1);
    assert_eq!(by_slot.segments[0].transformations.regex_applications.len(), 1);
    assert_eq!(by_slot.segments[0].transformations.state_mutations.len(), 1);

    let numeric_slot_wins = plan.inspect_segments("0").unwrap();
    assert_eq!(numeric_slot_wins.segments[0].index, 1);
    assert!(plan.inspect_segments("9").is_none());
    assert_eq!(plan.inspect_segments("1").unwrap().segments[0].index, 1);
}

#[test]
fn the_first_rendering_error_is_returned_as_it_is() {
    let preset = PromptPreset::parse(
        &json(
            r#"{
            "prompts": [
                {"identifier": "a", "role": "system", "content": "first"},
                {"identifier": "b", "role": "system", "content": "second"}
            ],
            "prompt_order": [{"order": [
                {"identifier": "a", "enabled": true},
                {"identifier": "b", "enabled": true}
            ]}]
        }"#,
        ),
        CHAT_COMPLETION_CHARACTER_ID,
    )
    .unwrap();
    let failed = Err(PromptError::Render("no such macro".to_owned()));
    let rendered = Ok(PresetRendering {
        rendered: RenderedPromptContent::plain("first".to_owned()),
        token_count: 1,
    });
    let apply = |renderings| apply_prompt_preset(Some(&preset), vec![], &renderings);
    assert_eq!(
        apply(vec![failed.clone()]).unwrap_err(),
        PromptError::Render("no such macro".to_owned())
    );
    assert_eq!(
        apply(vec![rendered, failed]).unwrap_err(),
        PromptError::Render("no such macro".to_owned())
    );
}
