use std::time::Duration;

use stcli_core::ecma_regex::{EcmaRegexError, EcmaRegexWorker};
use stcli_core::fixture::{
    case_id, check_suite, collect_case_ids, expand_macro_group_case, external_not_run,
    synthetic_coverage_id, validate_external_source, verify_case, verify_external_source,
    verify_regex_script, ArtifactRevisionCase, CanonicalJsonCase, CaseAids,
    CompatibilityOutcomeCase, ExternalFixtureSource, FixtureCase, FixtureError, FixtureReport,
    FixtureSuite, LoreEvaluateCase, MacroGroup, MacroGroupCase, MacroGroupDefaults,
    MacroRenderCase, RegexScriptApplyCase, ScriptOutcome, FIXTURE_SCHEMA_V1,
};
use stcli_core::identity::{artifact_revision_hash, canonical_json_hash, ContentHash};
use stcli_core::json::{Json, JsonNumber, NumberForm};
use stcli_core::lore::activation::LoreReplies;
use stcli_core::lore::decision::{LoreDecisionOutcome, LoreSettings};
use stcli_core::macros::replies::Replies;
use stcli_core::profile::{
    CompatibilityOutcome, CompatibilityProfile, CompatibilitySubjectKind, MacroManifest,
    ProfileScope, UpstreamRevision,
};
use stcli_core::tokenizer::TokenizerId;

fn order(value: f64) -> i64 {
    if value >= 0.0 {
        value.abs().to_bits() as i64
    } else {
        -((-value).to_bits() as i64)
    }
}

fn convert(value: &serde_json::Value) -> Json {
    match value {
        serde_json::Value::Null => Json::Null,
        serde_json::Value::Bool(b) => Json::Bool(*b),
        serde_json::Value::Number(n) => {
            let form = if let Some(u) = n.as_u64() {
                NumberForm::Unsigned(u)
            } else if let Some(i) = n.as_i64() {
                NumberForm::Negative(i)
            } else {
                NumberForm::Real(n.to_string())
            };
            Json::Number(JsonNumber { form, order: order(n.as_f64().unwrap()) })
        }
        serde_json::Value::String(s) => Json::Text(s.clone()),
        serde_json::Value::Array(items) => Json::Array(items.iter().map(convert).collect()),
        serde_json::Value::Object(members) => {
            Json::Object(members.iter().map(|(k, v)| (k.clone(), convert(v))).collect())
        }
    }
}

fn json(source: &str) -> Json {
    convert(&serde_json::from_str(source).unwrap())
}

fn profile() -> CompatibilityProfile {
    CompatibilityProfile {
        schema: "stcli.compat-profile/v1".to_owned(),
        id: "fixture-profile".to_owned(),
        upstream: UpstreamRevision {
            repository: "https://example.invalid".to_owned(),
            tag: "1.0.0".to_owned(),
            commit: "0000000000000000000000000000000000000000".to_owned(),
            version: "1.0.0".to_owned(),
        },
        scope: ProfileScope {
            formats: vec![],
            prompt_path: "test".to_owned(),
            generation_types: vec![],
            documented_fallback: vec![],
            hard_unsupported: vec![],
            preserved_metadata: vec![],
        },
        macros: MacroManifest {
            exact: vec![],
            documented_fallback: vec![],
            hard_unsupported: vec![],
            source_files: vec![],
        },
        preset_fields: vec![],
    }
}

fn aids() -> CaseAids {
    CaseAids {
        macro_replies: Replies::none(),
        lore_replies: LoreReplies::none(),
        lore_limit: 1000,
        worker: EcmaRegexWorker::new("unused".to_owned(), Duration::from_secs(1)),
        script: ScriptOutcome::Invalid,
    }
}

fn missing_source() -> ExternalFixtureSource {
    ExternalFixtureSource {
        name: "restricted preset".to_owned(),
        provenance: "local acquisition".to_owned(),
        revision: Some("1".to_owned()),
        sha256: "0".repeat(64),
        path_environment: "STCLI_TEST_MISSING_EXTERNAL_FIXTURE".to_owned(),
        repository_path: None,
    }
}

fn mismatch() -> FixtureCase {
    FixtureCase::ArtifactRevision(ArtifactRevisionCase {
        id: None,
        name: "intentional mismatch".to_owned(),
        artifact_kind: "card".to_owned(),
        source_format: "json".to_owned(),
        source: "{}".to_owned(),
        expected_hash: ContentHash::new([0; 32]),
    })
}

#[test]
fn fixture_report_includes_failures_without_hiding_them() {
    let profile = profile();
    profile.validate().unwrap();
    let suite = FixtureSuite {
        schema: FIXTURE_SCHEMA_V1.to_owned(),
        profile: profile.id.clone(),
        external_sources: vec![missing_source()],
        cases: vec![mismatch()],
        macro_groups: vec![],
    };
    check_suite(&profile.id, "fixture.json", &suite).unwrap();
    let mut report = FixtureReport::new(profile.id.clone(), 1);
    for source in &suite.external_sources {
        validate_external_source("fixture.json", source).unwrap();
        assert_eq!(source.resolve_path(&None, "/repository"), None);
        report.record(external_not_run("fixture.json", source));
    }
    for case in &suite.cases {
        report.record(verify_case(&profile, "fixture.json", case, aids()).unwrap());
    }
    assert_eq!(report.total, 2);
    assert_eq!(report.passed, 0);
    assert_eq!(report.not_run, 1);
    assert!(!report.is_success());
}

#[test]
fn fixture_report_treats_not_run_as_failure() {
    let report = FixtureReport {
        profile: "fixture-profile".to_owned(),
        files: 1,
        total: 1,
        passed: 0,
        not_run: 1,
        cases: vec![],
    };

    assert!(!report.is_success());
}

#[test]
fn external_fixture_uses_repository_path_without_environment_override() {
    let source = ExternalFixtureSource {
        name: "external".to_owned(),
        provenance: "fixture".to_owned(),
        revision: Some("1".to_owned()),
        sha256: "f16d05ec6b29248d2c61adb1e9263f78e4f7bace1b955014a2d17872cfe4064d".to_owned(),
        path_environment: "STCLI_TEST_REPOSITORY_EXTERNAL_FIXTURE".to_owned(),
        repository_path: Some("/repository/external.json".to_owned()),
    };
    assert_eq!(
        source.resolve_path(&None, "/root"),
        Some("/repository/external.json".to_owned())
    );

    let report = verify_external_source("sources.json", &source, &b"fixture".to_vec()).unwrap();

    assert!(report.passed);
    assert!(!report.not_run);
}

#[test]
fn external_fixture_digest_mismatch_fails_before_cases() {
    let source = ExternalFixtureSource {
        name: "external".to_owned(),
        provenance: "fixture".to_owned(),
        revision: None,
        sha256: "0".repeat(64),
        path_environment: "STCLI_TEST_UNUSED_EXTERNAL_FIXTURE".to_owned(),
        repository_path: Some("/repository/external.json".to_owned()),
    };

    let error = verify_external_source("sources.json", &source, &b"changed".to_vec()).unwrap_err();

    assert!(matches!(error, FixtureError::ExternalDigestMismatch { .. }));
}

#[test]
fn the_environment_overrides_the_path_of_a_source() {
    let mut source = missing_source();
    source.repository_path = Some("compat/x.json".to_owned());
    assert_eq!(
        source.resolve_path(&Some("/elsewhere/x.json".to_owned()), "/root"),
        Some("/elsewhere/x.json".to_owned())
    );
    assert_eq!(source.resolve_path(&None, "/root"), Some("/root/compat/x.json".to_owned()));
}

#[test]
fn suites_are_held_to_their_schema_and_profile() {
    let mut suite = FixtureSuite {
        schema: "other".to_owned(),
        profile: "p".to_owned(),
        external_sources: vec![],
        cases: vec![],
        macro_groups: vec![],
    };
    assert!(matches!(
        check_suite("p", "f", &suite),
        Err(FixtureError::UnsupportedSchema { schema, .. }) if schema == "other"
    ));
    suite.schema = FIXTURE_SCHEMA_V1.to_owned();
    assert!(matches!(
        check_suite("q", "f", &suite),
        Err(FixtureError::ProfileMismatch { expected, actual, .. })
            if expected == "q" && actual == "p"
    ));
    let mut source = missing_source();
    source.sha256 = "xyz".to_owned();
    assert!(matches!(
        validate_external_source("f", &source),
        Err(FixtureError::InvalidExternalSource { .. })
    ));
}

#[test]
fn canonical_forms_and_revisions_are_compared() {
    let input = json(r#"{"b": 1, "a": [true, null]}"#);
    let case = |expected_canonical: &str| {
        FixtureCase::CanonicalJson(CanonicalJsonCase {
            id: Some("canonical".to_owned()),
            name: "canonical".to_owned(),
            domain: "d".to_owned(),
            input: json(r#"{"b": 1, "a": [true, null]}"#),
            expected_canonical: expected_canonical.to_owned(),
            expected_hash: canonical_json_hash("d", &input).unwrap(),
        })
    };
    let good = case(r#"{"a":[true,null],"b":1}"#);
    assert_eq!(case_id(&good), Some("canonical".to_owned()));
    assert!(verify_case(&profile(), "f", &good, aids()).unwrap().passed);
    let bad = verify_case(&profile(), "f", &case("{}"), aids()).unwrap();
    assert!(!bad.passed);
    assert!(!bad.message.is_empty());

    let revision = FixtureCase::ArtifactRevision(ArtifactRevisionCase {
        id: None,
        name: "revision".to_owned(),
        artifact_kind: "card".to_owned(),
        source_format: "json".to_owned(),
        source: "{}".to_owned(),
        expected_hash: artifact_revision_hash("card", "json", b"{}"),
    });
    assert!(verify_case(&profile(), "f", &revision, aids()).unwrap().passed);
}

#[test]
fn outcomes_are_compared() {
    let case = |expected_outcome| {
        FixtureCase::CompatibilityOutcome(CompatibilityOutcomeCase {
            id: None,
            name: "outcome".to_owned(),
            subject_kind: CompatibilitySubjectKind::PromptPath,
            subject: "test".to_owned(),
            expected_outcome,
        })
    };
    let check =
        |outcome| verify_case(&profile(), "f", &case(outcome), aids()).unwrap().passed;
    assert!(check(CompatibilityOutcome::Exact));
    assert!(!check(CompatibilityOutcome::HardUnsupported));
}

fn macro_case(input: &str, expected_text: &str) -> MacroRenderCase {
    MacroRenderCase {
        id: None,
        name: "macro".to_owned(),
        input: input.to_owned(),
        context: vec![("char".to_owned(), "Alice".to_owned())],
        initial_local: vec![("mood".to_owned(), "calm".to_owned())],
        initial_global: vec![],
        plugins: vec![],
        outlets: vec![],
        expected_text: expected_text.to_owned(),
        expected_local: vec![],
        expected_global: vec![],
        expected_warnings: 0,
        expected_error: None,
    }
}

#[test]
fn macro_cases_are_rendered_and_compared() {
    let check = |case: MacroRenderCase| {
        verify_case(&profile(), "f", &FixtureCase::MacroRender(case), aids()).unwrap().passed
    };
    let mut case = macro_case("{{char}} is {{getvar::mood}}{{setvar::mood::glad}}", "Alice is calm");
    case.expected_local = vec![("mood".to_owned(), "glad".to_owned())];
    assert!(check(case.clone()));
    case.expected_local = vec![("mood".to_owned(), "calm".to_owned())];
    assert!(!check(case));
    let mut failing = macro_case("{{roll::many}}", "");
    failing.expected_error = Some("invalid dice expression 'many'".to_owned());
    assert!(check(failing));
}

#[test]
fn short_macro_cases_take_the_defaults_of_their_group() {
    let group = MacroGroup {
        defaults: MacroGroupDefaults {
            context: vec![("char".to_owned(), "Alice".to_owned())],
            initial_local: vec![],
            initial_global: vec![],
            plugins: vec![],
            outlets: vec![],
            expected_warnings: None,
        },
        cases: vec![],
    };
    let short = MacroGroupCase {
        id: "synthetic-char".to_owned(),
        input: "{{char}}".to_owned(),
        expected_text: "Alice".to_owned(),
        expected_local: None,
        expected_global: None,
        expected_warnings: None,
    };
    let case = expand_macro_group_case(&group, &short);
    assert_eq!(case.id, Some("synthetic-char".to_owned()));
    assert_eq!(case.context, group.defaults.context);
    assert_eq!(case.expected_warnings, 0);
    let case = FixtureCase::MacroRender(case);
    assert!(verify_case(&profile(), "f", &case, aids()).unwrap().passed);
}

#[test]
fn lore_cases_are_evaluated_and_compared() {
    let key = "1".to_owned();
    let case = |expected_activated: Vec<String>| LoreEvaluateCase {
        id: None,
        name: "lore".to_owned(),
        source_revision: ContentHash::new([0xaa; 32]),
        entries: json(r#"{"entries": [{"id": 1, "keys": ["door"], "content": "text"}]}"#),
        messages: vec!["the door".to_owned()],
        tokenizer: TokenizerId::Cl100kBase,
        settings: LoreSettings::default(),
        expected_activated,
        expected_outcomes: vec![(key.clone(), LoreDecisionOutcome::Activated)],
    };
    let check = |case: LoreEvaluateCase| {
        let mut aids = aids();
        aids.lore_replies.tokens.push(1);
        verify_case(&profile(), "f", &FixtureCase::LoreEvaluate(case), aids).unwrap().passed
    };
    assert!(check(case(vec![key.clone()])));
    assert!(!check(case(vec![])));
}

#[test]
fn script_cases_are_judged_by_what_the_scripts_made() {
    let case = RegexScriptApplyCase {
        id: None,
        name: "script".to_owned(),
        scripts: vec![],
        placement: 1,
        depth: 0,
        input: "a secret".to_owned(),
        expected_text: "a [redacted]".to_owned(),
    };
    let made = |outcome| verify_regex_script("f", &case, outcome);
    assert!(made(ScriptOutcome::Applied("a [redacted]".to_owned())).unwrap().passed);
    assert!(!made(ScriptOutcome::Applied("a secret".to_owned())).unwrap().passed);
    assert!(matches!(
        made(ScriptOutcome::Invalid),
        Err(FixtureError::InvalidRegexScript { case }) if case == "script"
    ));
    assert!(matches!(
        made(ScriptOutcome::Failed(EcmaRegexError::MissingPipe)),
        Err(FixtureError::Regex(EcmaRegexError::MissingPipe))
    ));
}

#[test]
fn identities_of_cases_are_collected_in_order() {
    let mut first = macro_case("", "");
    first.id = Some("b".to_owned());
    let mut second = macro_case("", "");
    second.id = Some("a".to_owned());
    let suite = FixtureSuite {
        schema: FIXTURE_SCHEMA_V1.to_owned(),
        profile: "p".to_owned(),
        external_sources: vec![],
        cases: vec![
            FixtureCase::MacroRender(first),
            FixtureCase::MacroRender(second),
            mismatch(),
        ],
        macro_groups: vec![],
    };
    let mut ids = vec![];
    collect_case_ids(&mut ids, &suite);
    assert_eq!(ids, ["a", "b"]);
    assert_eq!(synthetic_coverage_id(&mismatch()), None);
}
