use stcli_core::artifact::bundle::{
    artifact_codec_bundle, import_artifact_from_codec, AssetImport, CodecReplies,
    StoredSupplementary,
};
use stcli_core::artifact::keeping::{keep_codec_import, ImportEvents};
use stcli_core::artifact::kind::{
    decode_artifact, detect_kind, greetings_for_kind, ArtifactError, ArtifactKind,
    DecodedArtifact, JsonFault,
};
use stcli_core::artifact::preset_patch::{clone_and_patch_preset, patch_prompt_order, PresetPatch};
use stcli_core::artifact::revision::{
    artifact_semantic_hash, content_blob_hash, export_artifact, import_artifact,
    import_artifact_bundle, import_event, restore_artifact_revision, ArtifactRecord,
    AssetReference, ExportSource,
};
use stcli_core::artifact::validate::{
    is_media_path, validate_character_card_v3, validate_embedded_asset_references,
    validate_lorebook,
};
use stcli_core::artifact_codec::{
    validate_codec_format, validate_codec_logical_path, ArtifactCodecError,
    ArtifactCodecProvenance, CodecQuestion, MAX_CODEC_LOGICAL_PATH_BYTES,
};
use stcli_core::identity::{artifact_revision_hash, canonical_json, ContentHash};
use stcli_core::json::{Json, JsonNumber, NumberForm};
use stcli_core::plugin::plugin_digest;

fn order(value: f64) -> i64 {
    if value >= 0.0 {
        value.abs().to_bits() as i64
    } else {
        -((-value).to_bits() as i64)
    }
}

fn convert(value: &serde_json::Value) -> Json {
    match value {
        serde_json::Value::Null => Json::Null,
        serde_json::Value::Bool(b) => Json::Bool(*b),
        serde_json::Value::Number(n) => {
            let form = if let Some(u) = n.as_u64() {
                NumberForm::Unsigned(u)
            } else if let Some(i) = n.as_i64() {
                NumberForm::Negative(i)
            } else {
                NumberForm::Real(n.to_string())
            };
            Json::Number(JsonNumber { form, order: order(n.as_f64().unwrap()) })
        }
        serde_json::Value::String(s) => Json::Text(s.clone()),
        serde_json::Value::Array(items) => Json::Array(items.iter().map(convert).collect()),
        serde_json::Value::Object(members) => {
            Json::Object(members.iter().map(|(k, v)| (k.clone(), convert(v))).collect())
        }
    }
}

fn json(source: &str) -> Json {
    convert(&serde_json::from_str(source).unwrap())
}

const LIMIT: usize = 2097152;

const CARD: &str = r#"{
        "spec":"chara_card_v2",
        "spec_version":"2.0",
        "data":{
            "name":"Alice",
            "description":"A librarian.",
            "personality":"Curious",
            "scenario":"An old library",
            "first_mes":"Welcome.",
            "mes_example":"",
            "alternate_greetings":["You came back."],
            "plugins":{"unknown":{"value":1}}
        }
    }"#;

fn parse(bytes: &[u8]) -> Result<Json, JsonFault> {
    match serde_json::from_slice(bytes) {
        Ok(value) => Ok(convert(&value)),
        Err(error) => Err(JsonFault { path: ".".to_owned(), message: error.to_string() }),
    }
}

fn decode(source: &str) -> Result<DecodedArtifact, ArtifactError> {
    decode_artifact(&source.as_bytes().to_vec(), parse(source.as_bytes()), LIMIT)
}

fn import(bytes: &[u8]) -> ArtifactRecord {
    import_artifact(&bytes.to_vec(), parse(bytes), LIMIT, "event").unwrap()
}

fn number(value: f64) -> JsonNumber {
    JsonNumber { form: NumberForm::Real(value.to_string()), order: order(value) }
}

fn whole(value: u64) -> JsonNumber {
    JsonNumber { form: NumberForm::Unsigned(value), order: order(value as f64) }
}

fn member<'a>(value: &'a Json, name: &str) -> &'a Json {
    match value {
        Json::Object(members) => &members.iter().find(|member| member.0 == name).unwrap().1,
        _ => panic!("not an object"),
    }
}

#[test]
fn v2_card_exposes_default_and_alternate_greetings() {
    let artifact = decode(CARD).unwrap();
    assert_eq!(artifact.kind, ArtifactKind::CharacterCardV2);
    assert_eq!(artifact.greetings, ["Welcome.", "You came back."]);
}

#[test]
fn imported_artifact_exports_original_bytes_after_restart() {
    let record = import(CARD.as_bytes());
    let source = export_artifact(&record, &vec![]).unwrap();
    assert!(matches!(
        source,
        ExportSource::Blob(hash) if hash == content_blob_hash(CARD.as_bytes())
    ));
    let restored = restore_artifact_revision(
        &record,
        &CARD.as_bytes().to_vec(),
        parse(CARD.as_bytes()),
        LIMIT,
    )
    .unwrap();
    assert_eq!(restored.greetings.len(), 2);
}

#[test]
fn oversized_artifact_is_rejected() {
    let oversized = vec![b' '; LIMIT + 1];
    let parsed = parse(&oversized);
    assert!(matches!(
        decode_artifact(&oversized, parsed, LIMIT),
        Err(ArtifactError::SourceTooLarge { size, limit })
            if size == LIMIT + 1 && limit == LIMIT
    ));
}

#[test]
fn clone_and_patch_preset_changes_only_tunable_fields_and_revision_hash() {
    let source_text = r#"{
        "preset_name": "Source",
        "temperature": 0.7,
        "max_context": 8192,
        "openai_max_tokens": 512,
        "use_sysprompt": true,
        "prompts": [{"identifier": "main", "role": "system", "content": "Stay in character."}],
        "prompt_order": [{"character_id": 100001, "order": [
            {"identifier": "main", "enabled": true}
        ]}],
        "extensions": {"regex_scripts": [{
            "id": "cleanup",
            "findRegex": "/secret/g",
            "replaceString": "[redacted]"
        }]}
    }"#;
    let source = json(source_text);
    let source_bytes = serde_json::to_vec(
        &serde_json::from_str::<serde_json::Value>(source_text).unwrap(),
    )
    .unwrap();
    let source_record = import(&source_bytes);
    let decoded =
        decode_artifact(&source_bytes, parse(&source_bytes), LIMIT).unwrap();

    let clone_bytes = clone_and_patch_preset(
        &decoded,
        &PresetPatch {
            preset_name: "Source-copy".to_owned(),
            temperature: Ok(number(0.9)),
            max_context: whole(16_384),
            reasoning_effort: Some("high".to_owned()),
            max_tokens: whole(1_024),
            use_sysprompt: false,
        },
    )
    .unwrap();
    let clone = decode_artifact(&clone_bytes, parse(&clone_bytes), LIMIT).unwrap().semantic;
    let clone_record = import(&clone_bytes);

    assert_eq!(*member(&clone, "preset_name"), Json::Text("Source-copy".to_owned()));
    assert_eq!(*member(&clone, "temperature"), Json::Number(number(0.9)));
    assert_eq!(*member(&clone, "max_context"), Json::Number(whole(16_384)));
    assert_eq!(*member(&clone, "reasoning_effort"), Json::Text("high".to_owned()));
    assert_eq!(*member(&clone, "openai_max_tokens"), Json::Number(whole(1_024)));
    assert_eq!(*member(&clone, "openai_max_context"), Json::Number(whole(16_384)));
    assert_eq!(*member(&clone, "use_sysprompt"), Json::Bool(false));
    assert_eq!(member(&clone, "prompts"), member(&source, "prompts"));
    assert_eq!(member(&clone, "prompt_order"), member(&source, "prompt_order"));
    assert_eq!(member(&clone, "extensions"), member(&source, "extensions"));
    assert_ne!(clone_record.revision_hash, source_record.revision_hash);
    assert_ne!(clone_record.semantic_hash, source_record.semantic_hash);
}

#[test]
fn reformatting_creates_a_new_revision_with_same_semantic_hash() {
    let compact = canonical_json(&decode(CARD).unwrap().semantic).unwrap();
    let first = import(CARD.as_bytes());
    let second = import(&compact);
    assert_ne!(first.revision_hash, second.revision_hash);
    assert_eq!(first.semantic_hash, second.semantic_hash);
}

#[test]
fn a_preset_is_patched_with_a_finite_temperature_only() {
    let patch = PresetPatch {
        preset_name: "x".to_owned(),
        temperature: Err("inf".to_owned()),
        max_context: whole(1),
        reasoning_effort: None,
        max_tokens: whole(1),
        use_sysprompt: true,
    };
    let preset = decode(r#"{"prompts": [], "prompt_order": []}"#).unwrap();
    assert!(matches!(
        clone_and_patch_preset(&preset, &patch),
        Err(ArtifactError::InvalidPresetTemperature(text)) if text == "inf"
    ));
    assert!(matches!(
        clone_and_patch_preset(&decode(CARD).unwrap(), &patch),
        Err(ArtifactError::ChatCompletionPresetRequired(ArtifactKind::CharacterCardV2))
    ));
}

#[test]
fn the_prompt_order_of_a_character_is_patched() {
    let preset = decode(
        r#"{"prompts": [], "prompt_order": [{"character_id": 100001, "order": [
            {"identifier": "main", "enabled": true}, {"identifier": "jailbreak", "enabled": false}
        ]}]}"#,
    )
    .unwrap();
    let patched =
        patch_prompt_order(&preset, Some(100001), &vec![("main".to_owned(), false)])
            .unwrap()
            .unwrap();
    let value = parse(&patched).unwrap();
    let expected = json(
        r#"[{"character_id": 100001, "order": [
            {"identifier": "main", "enabled": false}, {"identifier": "jailbreak", "enabled": false}
        ]}]"#,
    );
    assert_eq!(*member(&value, "prompt_order"), expected);
    assert!(
        patch_prompt_order(&preset, Some(100001), &vec![("main".to_owned(), true)])
            .unwrap()
            .is_none()
    );
}

#[test]
fn switched_presets_are_other_revisions() {
    let source = r#"{"prompts": [], "prompt_order": {"order": [{"identifier": "main"}]}}"#;
    let record = import(source.as_bytes());
    let patched =
        patch_prompt_order(&decode(source).unwrap(), None, &vec![("main".to_owned(), true)])
            .unwrap()
            .unwrap();
    let second = import(&patched);
    assert_eq!(second.kind, record.kind);
    assert_ne!(second.revision_hash, record.revision_hash);
    assert_ne!(second.semantic_hash, record.semantic_hash);
}

#[test]
fn kinds_are_told_by_their_shape() {
    let kind = |source: &str| detect_kind(&json(source));
    assert!(matches!(
        kind(r#"{"spec": "chara_card_v3", "data": {"name": "x"}}"#),
        Ok(ArtifactKind::CharacterCardV3)
    ));
    assert!(matches!(kind(r#"{"prompts": [], "prompt_order": []}"#), Ok(ArtifactKind::ChatCompletionPreset)));
    assert!(matches!(kind(r#"{"entries": {}}"#), Ok(ArtifactKind::Lorebook)));
    assert!(matches!(kind(r#"{"other": 1}"#), Err(ArtifactError::UnknownFormat)));
    assert!(matches!(decode("[]"), Err(ArtifactError::ExpectedObject)));
    assert!(matches!(decode("{"), Err(ArtifactError::InvalidJson { .. })));
    assert_eq!(ArtifactKind::parse("lorebook").unwrap(), ArtifactKind::Lorebook);
    assert_eq!(ArtifactKind::CharacterCardV1.as_str(), "character-card-v1");
    assert!(matches!(
        ArtifactKind::parse("x"),
        Err(ArtifactError::UnknownStoredKind(name)) if name == "x"
    ));
}

#[test]
fn lorebooks_have_no_greetings() {
    assert!(greetings_for_kind(&json(r#"{"entries": {}}"#), ArtifactKind::Lorebook).is_empty());
}

#[test]
fn imports_are_described() {
    let record = import(CARD.as_bytes());
    assert_eq!(record.kind, ArtifactKind::CharacterCardV2);
    assert_eq!(record.source_format, "json");
    assert_eq!(record.imported_event_id, "event");
    assert_eq!(record.source_blob_hash, content_blob_hash(CARD.as_bytes()));
    assert_eq!(record.semantic_hash, artifact_semantic_hash(&json(CARD)).unwrap());
    let event = import_event(&record);
    assert_eq!(
        *member(&event, "revision_hash"),
        Json::Text(record.revision_hash.text())
    );
    let bundle = import_artifact_bundle(
        &CARD.as_bytes().to_vec(),
        parse(CARD.as_bytes()),
        LIMIT,
        "event",
    )
    .unwrap();
    assert_eq!(bundle.primary.revision_hash, record.revision_hash);
    assert!(bundle.supplementary_artifacts.is_empty());
    assert_eq!(bundle.asset_count, 0);
}

#[test]
fn a_record_that_does_not_match_its_payload_is_not_restored() {
    let mut record = import(CARD.as_bytes());
    record.semantic_hash = ContentHash::new([0; 32]);
    assert!(matches!(
        restore_artifact_revision(
            &record,
            &CARD.as_bytes().to_vec(),
            parse(CARD.as_bytes()),
            LIMIT
        ),
        Err(ArtifactError::RestoredRecordMismatch(_))
    ));
}

#[test]
fn images_are_exported_from_their_avatar() {
    let mut record = import(CARD.as_bytes());
    record.source_format = "png".to_owned();
    assert!(matches!(
        export_artifact(&record, &vec![]),
        Err(ArtifactError::MissingAvatar(hash)) if hash == record.revision_hash
    ));
    let avatar = AssetReference {
        logical_path: "avatar.png".to_owned(),
        asset_hash: ContentHash::new([7; 32]),
    };
    assert!(matches!(
        export_artifact(&record, &vec![avatar]),
        Ok(ExportSource::Asset(hash)) if hash == ContentHash::new([7; 32])
    ));
}

fn card_v3(assets: &str) -> String {
    format!(
        r#"{{"spec": "chara_card_v3", "spec_version": "3.0", "data": {{
            "name": "Alice", "description": "", "tags": [], "creator": "", "character_version": "",
            "mes_example": "", "extensions": {{}}, "system_prompt": "",
            "post_history_instructions": "", "first_mes": "Hi.", "alternate_greetings": [],
            "personality": "", "scenario": "", "creator_notes": "", "group_only_greetings": [],
            "assets": {assets}
        }}}}"#
    )
}

#[test]
fn cards_and_lorebooks_are_validated() {
    let card = decode(&card_v3("[]")).unwrap();
    assert!(validate_character_card_v3(&card).is_ok());
    assert!(matches!(
        validate_character_card_v3(&decode(CARD).unwrap()),
        Err(ArtifactError::CharacterCardV3Required)
    ));
    assert!(matches!(
        validate_lorebook(&decode(CARD).unwrap()),
        Err(ArtifactError::LorebookRequired)
    ));
}

#[test]
fn embedded_assets_must_be_there() {
    let card = decode(&card_v3(
        r#"[{"type": "icon", "uri": "embeded://assets/main.png", "name": "main", "ext": "png"}]"#,
    ))
    .unwrap();
    assert!(matches!(
        validate_embedded_asset_references(&card, &vec![]),
        Err(ArtifactError::MissingDeclaredAsset(path)) if path == "assets/main.png"
    ));
    assert!(validate_embedded_asset_references(&card, &vec!["assets/main.png".to_owned()]).is_ok());
}

#[test]
fn media_are_told_by_their_extension() {
    assert!(is_media_path("assets/b.PNG"));
    assert!(!is_media_path("assets/b.json") && !is_media_path("b.png"));
}

#[test]
fn codec_names_and_paths_are_held_to_their_form() {
    assert!(validate_codec_format("charx").is_ok());
    assert!(matches!(
        validate_codec_format(""),
        Err(ArtifactCodecError::InvalidFormat(format)) if format.is_empty()
    ));
    assert!(validate_codec_logical_path("assets/a.png").is_ok());
    for path in ["", "/a", "a/../b", "a\\b", "a//b"] {
        assert!(matches!(
            validate_codec_logical_path(path),
            Err(ArtifactCodecError::InvalidLogicalPath(_))
        ));
    }
    assert!(validate_codec_logical_path(&"a".repeat(MAX_CODEC_LOGICAL_PATH_BYTES + 1)).is_err());
}

fn import_codec(
    source: &[u8],
    bundle: &stcli_core::artifact_codec::ArtifactCodecBundle,
) -> Result<stcli_core::artifact::bundle::CodecImport, ArtifactCodecError> {
    import_codec_beside(source, bundle, vec![])
}

fn import_codec_beside(
    source: &[u8],
    bundle: &stcli_core::artifact_codec::ArtifactCodecBundle,
    revisions: Vec<ContentHash>,
) -> Result<stcli_core::artifact::bundle::CodecImport, ArtifactCodecError> {
    let mut replies = CodecReplies { parses: vec![], refusals: vec![], revisions };
    loop {
        match import_artifact_from_codec(&source.to_vec(), bundle, "charx", &replies) {
            Err(ArtifactCodecError::Unanswered(CodecQuestion::Parsing { bytes })) => {
                replies.parses.push(parse(&bytes))
            }
            Err(ArtifactCodecError::Unanswered(CodecQuestion::Keeping { .. })) => {
                replies.refusals.push(None)
            }
            other => return other,
        }
    }
}

#[test]
fn what_is_packed_for_a_codec_is_imported_again() {
    let payload = card_v3("[]").into_bytes();
    let lorebook = r#"{"entries": {}}"#.as_bytes().to_vec();
    let bundle = artifact_codec_bundle(
        ArtifactKind::CharacterCardV3,
        "json",
        &payload,
        &vec![AssetImport { logical_path: "assets/a.png".to_owned(), bytes: vec![1, 2, 3] }],
        &vec![StoredSupplementary {
            logical_path: "lore.json".to_owned(),
            embedded: false,
            kind: ArtifactKind::Lorebook,
            source_format: "json".to_owned(),
            payload: lorebook.clone(),
        }],
    );
    let imported = import_codec(b"container", &bundle).unwrap();
    assert_eq!(imported.payload, payload);
    assert_eq!(imported.assets.len(), 1);
    assert_eq!(imported.assets[0].bytes, [1, 2, 3]);
    assert_eq!(imported.supplementary.len(), 1);
    assert_eq!(imported.supplementary[0].bytes, lorebook);

    let mut wrong = bundle.clone();
    wrong.assets[0].sha256 = ContentHash::new([0; 32]);
    assert!(matches!(
        import_codec(b"container", &wrong),
        Err(ArtifactCodecError::HashMismatch { .. })
    ));
    let mut wrong = bundle.clone();
    wrong.payload = "!".to_owned();
    assert!(matches!(
        import_codec(b"container", &wrong),
        Err(ArtifactCodecError::InvalidBase64 { .. })
    ));
    let mut wrong = bundle.clone();
    wrong.assets[0].byte_size = 4;
    assert!(matches!(
        import_codec(b"container", &wrong),
        Err(ArtifactCodecError::ByteSizeMismatch { .. })
    ));
    let mut wrong = bundle.clone();
    wrong.assets.push(wrong.assets[0].clone());
    assert!(matches!(
        import_codec(b"container", &wrong),
        Err(ArtifactCodecError::DuplicateLogicalPath(_))
    ));
    let mut wrong = bundle.clone();
    wrong.artifact_kind = ArtifactKind::Lorebook;
    assert!(matches!(
        import_codec(b"container", &wrong),
        Err(ArtifactCodecError::ArtifactKindMismatch { .. })
    ));
}

#[test]
fn a_revision_that_is_kept_is_refused_and_a_new_one_is_recorded() {
    let payload = card_v3("[]").into_bytes();
    let lorebook = r#"{"entries": {}}"#.as_bytes().to_vec();
    let asset = |path: &str, bytes: &[u8]| AssetImport {
        logical_path: path.to_owned(),
        bytes: bytes.to_vec(),
    };
    let bundle = artifact_codec_bundle(
        ArtifactKind::CharacterCardV3,
        "json",
        &payload,
        &vec![asset("a.png", &[1, 2]), asset("b.png", &[3]), asset("c.png", &[1, 2])],
        &vec![StoredSupplementary {
            logical_path: "lore.json".to_owned(),
            embedded: false,
            kind: ArtifactKind::Lorebook,
            source_format: "json".to_owned(),
            payload: lorebook.clone(),
        }],
    );
    let import = import_codec(b"container", &bundle).unwrap();
    let revision = artifact_revision_hash("character-card-v3", "json", &payload);
    assert_eq!(import.revision_hash, revision);
    assert!(matches!(
        import_codec_beside(b"container", &bundle, vec![revision.clone()]),
        Err(ArtifactCodecError::RevisionConflict(hash)) if hash == revision
    ));

    let provenance = ArtifactCodecProvenance {
        plugin_id: "codec".to_owned(),
        version: "1.0.0".to_owned(),
        component_sha256: ContentHash::new([7; 32]),
        interface_version: "1".to_owned(),
        format: "charx".to_owned(),
        compatibility: vec![],
        supplementary_artifacts: vec![],
    };
    let events = ImportEvents { primary: "e1".to_owned(), supplementary: vec!["e2".to_owned()] };
    let present = vec![plugin_digest(&vec![3])];
    let kept = keep_codec_import(&import, &bundle, provenance, &events, &present).unwrap();
    assert_eq!(kept.bundle.primary.revision_hash, revision);
    assert_eq!(kept.bundle.primary.imported_event_id, "e1");
    assert_eq!(kept.bundle.asset_count, 3);
    let beside = artifact_revision_hash("lorebook", "json", &lorebook);
    assert_eq!(kept.bundle.supplementary_artifacts[0].revision_hash, beside);
    assert_eq!(kept.provenance.plugin_id, "codec");
    assert_eq!(kept.provenance.supplementary_artifacts[0].logical_path, "lore.json");
    assert_eq!(kept.provenance.supplementary_artifacts[0].revision_hash, beside);
    assert_eq!(kept.created, [plugin_digest(&vec![1, 2])]);
}
