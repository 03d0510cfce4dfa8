use stcli_core::artifact::revision::{content_blob_hash, import_artifact};
use stcli_core::artifact::kind::JsonFault;
use stcli_core::capsule::{
    feature_manifest_digest, CapsuleError, CapsuleFacts, CapsuleKind, SessionProjectionSnapshot,
    TurnCapsule, SESSION_CONFIGURATION_DOMAIN,
};
use stcli_core::capsule_json::CapsuleBodies;
use stcli_core::capsule_transfer::{
    already_imported, export_turn_capsule, find_candidate, import_turn_capsule, CapsuleParts,
    EarlierImport, ExportedArtifact, FreshIdentities, ImportStep,
};
use stcli_core::identity::{canonical_json_hash, ContentHash, EntityId};
use stcli_core::json::{Json, JsonNumber, NumberForm};
use stcli_core::prompt::prune::PromptPruning;
use stcli_core::session::{
    AttemptEffectReceipt, AttemptProjection, AttemptStatus, BranchProjection, CandidateOrigin,
    CandidateProjection, SessionConfiguration, SessionConfigurationRecord, SessionProjection,
    StoredCell, TurnProjection,
};
use stcli_core::state::{StateKey, VariableScope};
use stcli_core::tokenizer::TokenizerId;
use stcli_core::turn::PromptPlan;

fn order(value: f64) -> i64 {
    if value >= 0.0 {
        value.abs().to_bits() as i64
    } else {
        -((-value).to_bits() as i64)
    }
}

fn convert(value: &serde_json::Value) -> Json {
    match value {
        serde_json::Value::Null => Json::Null,
        serde_json::Value::Bool(b) => Json::Bool(*b),
        serde_json::Value::Number(n) => {
            let form = if let Some(u) = n.as_u64() {
                NumberForm::Unsigned(u)
            } else if let Some(i) = n.as_i64() {
                NumberForm::Negative(i)
            } else {
                NumberForm::Real(n.to_string())
            };
            Json::Number(JsonNumber { form, order: order(n.as_f64().unwrap()) })
        }
        serde_json::Value::String(s) => Json::Text(s.clone()),
        serde_json::Value::Array(items) => Json::Array(items.iter().map(convert).collect()),
        serde_json::Value::Object(members) => {
            Json::Object(members.iter().map(|(k, v)| (k.clone(), convert(v))).collect())
        }
    }
}

fn json(source: &str) -> Json {
    convert(&serde_json::from_str(source).unwrap())
}

const LIMIT: usize = 2097152;

const CARD: &str = r#"{"spec":"chara_card_v2","data":{"name":"Alice","first_mes":"Hi."}}"#;

fn id(n: u128) -> EntityId {
    EntityId::from_ulid(n)
}

fn request_hash() -> ContentHash {
    ContentHash::new([9; 32])
}

fn parse(source: &str) -> Result<Json, JsonFault> {
    Ok(json(source))
}

fn configuration() -> SessionConfigurationRecord {
    let character_revision =
        import_artifact(&CARD.as_bytes().to_vec(), parse(CARD), LIMIT, "event")
            .unwrap()
            .revision_hash;
    let value = json(r#"{"compatibility_profile": "p"}"#);
    SessionConfigurationRecord {
        revision_hash: canonical_json_hash(SESSION_CONFIGURATION_DOMAIN, &value).unwrap(),
        configuration: SessionConfiguration {
            compatibility_profile: "p".to_owned(),
            character_revision,
            lorebook_revisions: vec![],
            prompt_preset_revision: None,
            plugins: vec![],
            value,
        },
    }
}

fn candidate() -> CandidateProjection {
    CandidateProjection {
        candidate_id: id(5),
        turn_id: id(3),
        attempt_id: Some(id(4)),
        origin: CandidateOrigin::Generated,
        content: "Hello.".to_owned(),
        value: json(r#"{"content": "Hello."}"#),
    }
}

fn parts() -> CapsuleParts {
    let configuration = configuration();
    let record = import_artifact(&CARD.as_bytes().to_vec(), parse(CARD), LIMIT, "event").unwrap();
    let config_hash = configuration.revision_hash.clone();
    CapsuleParts {
        engine_version: "0.1.0".to_owned(),
        feature_manifest_digest: feature_manifest_digest(&json("{}")).unwrap(),
        session: SessionProjection {
            session_id: id(1),
            current_config_hash: config_hash.clone(),
            root_branch_id: id(2),
            archived: false,
        },
        branch: BranchProjection {
            branch_id: id(2),
            session_id: id(1),
            greeting_revision_hash: record.revision_hash.clone(),
            greeting_index: 0,
        },
        configuration,
        artifacts: vec![ExportedArtifact { record, source: CARD.as_bytes().to_vec() }],
        effects: Some(AttemptEffectReceipt {
            provider_request_hash: request_hash(),
            plugins: vec![],
            value: json("{}"),
        }),
        prompt: PromptPlan {
            tokenizer: TokenizerId::Cl100kBase,
            rng_seed: 0,
            segments: vec![],
            total_tokens: 0,
            pruning: PromptPruning {
                context_limit: 10,
                response_reserve: 0,
                prompt_limit: 10,
                kept_tokens: 0,
                pruned_tokens: 0,
            },
        },
        provider_receipt: None,
        projection: SessionProjectionSnapshot {
            turn: TurnProjection {
                turn_id: id(3),
                session_id: id(1),
                branch_id: id(2),
                user_content: "Hi".to_owned(),
                selected_candidate_id: Some(id(5)),
            },
            attempt: AttemptProjection {
                attempt_id: id(4),
                turn_id: id(3),
                config_hash,
                status: AttemptStatus::Completed,
                prompt_value: json("{}"),
                provider_request_hash: Some(request_hash()),
                provider_receipt: None,
                effect_value: Some(json("{}")),
                error_message: None,
            },
            candidate: Some(candidate()),
            state: vec![StoredCell {
                key: StateKey { scope: VariableScope::Local, name: "mood".to_owned() },
                value: Json::Text("calm".to_owned()),
                raw_value: "calm".to_owned(),
                owner: "user".to_owned(),
                origin: "test".to_owned(),
                revision: 1,
            }],
            state_value: json("[]"),
            value: json(r#"{"turn": 3}"#),
        },
    }
}

fn facts() -> CapsuleFacts {
    CapsuleFacts {
        feature_manifest_digest: feature_manifest_digest(&json("{}")).unwrap(),
        request_hash: request_hash(),
        parses: vec![parse(CARD)],
        blobs: vec![],
        artifact_limit: LIMIT,
    }
}

fn bodies() -> CapsuleBodies {
    CapsuleBodies {
        configuration: json(r#"{"configuration": {"compatibility_profile": "p"}}"#),
        session: json(r#"{"session": 1}"#),
        branch: json(r#"{"branch": 2}"#),
        prompt: json(r#"{"segments": []}"#),
    }
}

fn portable() -> TurnCapsule {
    export_turn_capsule(parts(), CapsuleKind::Portable, false, &vec![]).unwrap()
}

#[test]
fn an_exported_capsule_is_valid_and_replays() {
    let capsule = portable();
    assert!(capsule.capabilities.inspect && capsule.capabilities.replay);
    assert!(capsule.capabilities.rerun);
    assert_eq!(capsule.artifacts[0].source.as_deref(), Some(CARD));
    assert!(capsule.references[0].embedded);
    assert!(capsule.validate(&facts()).is_ok());
    let report = capsule.replay(&bodies(), &facts()).unwrap();
    assert_eq!(report.provider_calls, 0);
    assert_eq!(report.plugin_executions, 0);
    assert_eq!(Some(report.projection_hash), capsule.result.projection_hash);
    assert_eq!(
        report.capsule_hash,
        capsule.hash(&bodies()).unwrap()
    );
    assert_eq!(
        report.capsule_hash,
        canonical_json_hash("stcli:turn-capsule:v1", &capsule.to_json(&bodies())).unwrap()
    );
}

#[test]
fn the_whole_of_a_capsule_is_hashed() {
    let hash = |change: fn(&mut TurnCapsule)| {
        let mut capsule = portable();
        change(&mut capsule);
        capsule.hash(&bodies()).unwrap()
    };
    let plain = hash(|_| {});
    assert_eq!(plain, hash(|_| {}));
    assert_ne!(plain, hash(|capsule| capsule.version = "2.0".to_owned()));
    assert_ne!(plain, hash(|capsule| capsule.engine.version = "9".to_owned()));
    assert_ne!(plain, hash(|capsule| capsule.identity.turn_id = id(9)));
    assert_ne!(plain, hash(|capsule| capsule.artifacts[0].source = None));
    assert_ne!(plain, hash(|capsule| capsule.configuration = None));
    assert_ne!(plain, hash(|capsule| capsule.prompt = None));
    assert_ne!(plain, hash(|capsule| capsule.capabilities.rerun = false));
    let value = portable().to_json(&bodies());
    let text = |path: &[&str]| {
        let mut at = &value;
        for name in path {
            at = at.get(name).unwrap();
        }
        at.text().unwrap().clone()
    };
    assert_eq!(text(&["kind"]), "portable");
    assert_eq!(text(&["engine", "version"]), "0.1.0");
    assert_eq!(text(&["identity", "attempt_id"]), id(4).text());
}

#[test]
fn a_thin_capsule_needs_the_sources_that_it_refers_to() {
    let blob = content_blob_hash(CARD.as_bytes());
    let absent = export_turn_capsule(parts(), CapsuleKind::Thin, false, &vec![]).unwrap();
    assert!(absent.artifacts[0].source.is_none());
    assert!(!absent.capabilities.replay);
    let present =
        export_turn_capsule(parts(), CapsuleKind::Thin, false, &vec![blob.clone()]).unwrap();
    assert!(present.capabilities.replay);
    assert!(matches!(
        present.validate(&facts()),
        Err(CapsuleError::MissingReferencedBlob(hash)) if hash == blob
    ));
    let mut facts = facts();
    facts.blobs = vec![blob];
    assert!(present.validate(&facts).is_ok());
}

#[test]
fn redaction_takes_the_content_and_the_replay() {
    let capsule = export_turn_capsule(parts(), CapsuleKind::Portable, true, &vec![]).unwrap();
    assert!(capsule.artifacts[0].source.is_none());
    assert!(capsule.configuration.is_none());
    assert!(capsule.result.projection.is_none());
    assert!(!capsule.redactions.is_empty());
    assert!(capsule.capabilities.inspect);
    assert!(!capsule.capabilities.replay && !capsule.capabilities.rerun);
    assert!(capsule.validate(&facts()).is_err());
    assert!(matches!(
        capsule.replay(&bodies(), &facts()),
        Err(CapsuleError::CapabilityDenied("replay"))
    ));
}

#[test]
fn a_source_that_is_no_text_is_not_exported() {
    let mut binary = parts();
    binary.artifacts[0].source = vec![0xff];
    let hash = binary.artifacts[0].record.revision_hash.clone();
    assert!(matches!(
        export_turn_capsule(binary, CapsuleKind::Portable, false, &vec![]),
        Err(CapsuleError::ArtifactSourceNotUtf8(h)) if h == hash
    ));
}

#[test]
fn every_fault_of_a_capsule_is_named() {
    let fault = |change: fn(&mut TurnCapsule)| {
        let mut capsule = portable();
        change(&mut capsule);
        capsule.validate(&facts())
    };
    assert!(matches!(
        fault(|capsule| capsule.version = "2.0".to_owned()),
        Err(CapsuleError::UnsupportedFormat { version, .. }) if version == "2.0"
    ));
    assert!(matches!(
        fault(|capsule| capsule.compatibility.feature_manifest_digest = ContentHash::new([0; 32])),
        Err(CapsuleError::FeatureManifestMismatch)
    ));
    assert!(matches!(
        fault(|capsule| capsule.configuration = None),
        Err(CapsuleError::MissingReplayData("configuration"))
    ));
    assert!(matches!(
        fault(|capsule| {
            capsule.configuration.as_mut().unwrap().revision_hash = ContentHash::new([0; 32])
        }),
        Err(CapsuleError::ConfigurationHashMismatch)
    ));
    assert!(matches!(
        fault(|capsule| capsule.identity.turn_id = EntityId::from_ulid(77)),
        Err(CapsuleError::IdentityMismatch)
    ));
    assert!(matches!(
        fault(|capsule| capsule.result.projection_hash = Some(ContentHash::new([0; 32]))),
        Err(CapsuleError::ProjectionHashMismatch { .. })
    ));
    assert!(matches!(
        fault(|capsule| capsule.artifacts[0].record.semantic_hash = ContentHash::new([0; 32])),
        Err(CapsuleError::ArtifactHashMismatch(_))
    ));
    assert!(matches!(
        fault(|capsule| {
            let configuration = &mut capsule.configuration.as_mut().unwrap().configuration;
            configuration.lorebook_revisions.push(ContentHash::new([1; 32]))
        }),
        Err(CapsuleError::ArtifactSetMismatch)
    ));
}

fn fresh(from: u128) -> FreshIdentities {
    FreshIdentities {
        session_id: id(from),
        branch_id: id(from + 1),
        turn_id: id(from + 2),
        attempt_id: id(from + 3),
        candidate_id: id(from + 4),
    }
}

fn import(
    capsule: &TurnCapsule,
    earlier: Option<EarlierImport>,
    kept: Vec<ContentHash>,
) -> Result<ImportStep, CapsuleError> {
    import_turn_capsule(capsule, &bodies(), &facts(), earlier, &kept, fresh(11), 0)
}

#[test]
fn an_import_keeps_the_turn_under_fresh_identities() {
    let capsule = portable();
    let plan = match import(&capsule, None, vec![]).unwrap() {
        ImportStep::Plan(plan) => plan,
        other => panic!("{other:?}"),
    };
    assert_eq!(plan.imported.session_id, id(11));
    assert_eq!(plan.imported.candidate_id, Some(id(15)));
    assert_eq!(plan.imported.capsule_hash, capsule.hash(&bodies()).unwrap());
    assert_eq!(plan.body_hash, content_blob_hash(&plan.body));
    assert_eq!(plan.imports, [0]);
    assert_eq!(plan.status, "completed");
    assert_eq!(plan.capsule_kind, "portable");
    assert_eq!(plan.candidate.unwrap().content, "Hello.");
    assert_eq!(plan.cells.len(), 1);
    assert_eq!(plan.cells[0].value, br#""calm""#);
    assert_eq!(
        plan.configuration_hash,
        capsule.configuration.as_ref().unwrap().revision_hash
    );
    let kept = vec![capsule.artifacts[0].record.revision_hash.clone()];
    assert!(matches!(
        import(&capsule, None, kept),
        Ok(ImportStep::Plan(plan)) if plan.imports.is_empty()
    ));
}

#[test]
fn an_import_tells_the_place_of_the_greeting() {
    let mut capsule = portable();
    capsule.baseline.as_mut().unwrap().branch.greeting_index = 3;
    let order = 3.0f64.to_bits() as i64;
    let step =
        import_turn_capsule(&capsule, &bodies(), &facts(), None, &vec![], fresh(11), order).unwrap();
    let ImportStep::Plan(plan) = step else { panic!("{step:?}") };
    let Json::Object(pairs) = &plan.session_event else { panic!("{:?}", plan.session_event) };
    let index = pairs.iter().find(|(name, _)| name == "greeting_index").map(|(_, value)| value);
    assert_eq!(
        index,
        Some(&Json::Number(JsonNumber { form: NumberForm::Unsigned(3), order }))
    );
}

#[test]
fn only_sound_capsules_that_replay_are_imported() {
    let refused = |change: fn(&mut TurnCapsule)| {
        let mut capsule = portable();
        change(&mut capsule);
        import(&capsule, None, vec![]).unwrap_err()
    };
    assert!(matches!(
        refused(|capsule| capsule.capabilities.replay = false),
        CapsuleError::CapabilityDenied("replay")
    ));
    assert!(matches!(
        refused(|capsule| capsule.format = "other".to_owned()),
        CapsuleError::UnsupportedFormat { .. }
    ));
    assert!(matches!(
        refused(|capsule| capsule.identity.turn_id = id(9)),
        CapsuleError::IdentityMismatch
    ));
    assert!(matches!(
        refused(|capsule| capsule.baseline = None),
        CapsuleError::MissingReplayData("baseline")
    ));
    let blob = content_blob_hash(CARD.as_bytes());
    let thin =
        export_turn_capsule(parts(), CapsuleKind::Thin, false, &vec![blob.clone()]).unwrap();
    let mut facts = facts();
    facts.blobs = vec![blob.clone()];
    assert!(matches!(
        import_turn_capsule(&thin, &bodies(), &facts, None, &vec![], fresh(11), 0),
        Err(CapsuleError::MissingReferencedBlob(missing)) if missing == blob
    ));
}

#[test]
fn a_second_import_gives_the_first_identities() {
    let capsule = portable();
    let planned = match import(&capsule, None, vec![]).unwrap() {
        ImportStep::Plan(plan) => plan.imported,
        other => panic!("{other:?}"),
    };
    let parts = parts();
    let stored = EarlierImport {
        session_id: Some(planned.session_id),
        session: Some(SessionProjection {
            session_id: planned.session_id,
            root_branch_id: planned.branch_id,
            ..parts.session.clone()
        }),
        first_turn: Some(TurnProjection {
            turn_id: planned.turn_id,
            selected_candidate_id: planned.candidate_id,
            ..parts.projection.turn.clone()
        }),
        first_attempt: Some(planned.attempt_id),
    };
    match import(&capsule, Some(stored.clone()), vec![]).unwrap() {
        ImportStep::Known(known) => {
            assert_eq!(known.capsule_hash, planned.capsule_hash);
            assert_eq!(known.session_id, planned.session_id);
            assert_eq!(known.branch_id, planned.branch_id);
            assert_eq!(known.turn_id, planned.turn_id);
            assert_eq!(known.attempt_id, planned.attempt_id);
            assert_eq!(known.candidate_id, planned.candidate_id);
        }
        other => panic!("{other:?}"),
    }
    let hash = planned.capsule_hash;
    let broken = |change: fn(&mut EarlierImport)| {
        let mut earlier = stored.clone();
        change(&mut earlier);
        already_imported(hash.clone(), &earlier).unwrap_err()
    };
    assert!(matches!(
        broken(|earlier| earlier.session_id = None),
        CapsuleError::StoredIdentityInvalid
    ));
    assert!(matches!(
        broken(|earlier| earlier.session = None),
        CapsuleError::SessionNotFound(_)
    ));
    assert!(matches!(
        broken(|earlier| earlier.first_turn = None),
        CapsuleError::ImportedTurnMissing
    ));
    assert!(matches!(
        broken(|earlier| earlier.first_attempt = None),
        CapsuleError::ImportedAttemptMissing
    ));
    let candidates = vec![candidate()];
    assert_eq!(find_candidate(&candidates, id(4)).unwrap().candidate_id, id(5));
    assert!(find_candidate(&candidates, id(6)).is_none());
}
