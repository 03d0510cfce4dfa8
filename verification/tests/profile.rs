use stcli_core::profile::{
    CompatibilityOutcome, CompatibilityProfile, CompatibilitySubject, CompatibilitySubjectKind,
    MacroManifest, ProfileError, ProfileScope, UpstreamRevision, PROFILE_SCHEMA,
};

fn valid_profile() -> CompatibilityProfile {
    CompatibilityProfile {
        schema: PROFILE_SCHEMA.to_owned(),
        id: "sillytavern-1.18-core".to_owned(),
        upstream: UpstreamRevision {
            repository: "https://github.com/SillyTavern/SillyTavern".to_owned(),
            tag: "1.18.0".to_owned(),
            commit: "51ad27fb86d39a3daca3adaa970375c9670c12df".to_owned(),
            version: "1.18.0".to_owned(),
        },
        scope: ProfileScope {
            formats: vec!["character-card-v2-json".to_owned()],
            prompt_path: "chat-completion-prompt-manager".to_owned(),
            generation_types: vec!["normal".to_owned()],
            documented_fallback: vec!["approximate-tokenizer".to_owned()],
            hard_unsupported: vec![],
            preserved_metadata: vec!["unknown-json-member".to_owned()],
        },
        macros: MacroManifest {
            exact: vec!["char".to_owned(), "user".to_owned()],
            documented_fallback: vec![],
            hard_unsupported: vec![],
            source_files: vec![],
        },
        preset_fields: vec![],
    }
}

#[test]
fn valid_profile_passes_validation() {
    valid_profile().validate().unwrap();
}

#[test]
fn duplicate_macro_names_fail_case_insensitively() {
    let mut profile = valid_profile();
    profile.macros.exact = vec!["char".to_owned(), "CHAR".to_owned()];
    assert!(matches!(
        profile.validate(),
        Err(ProfileError::UnsortedOrDuplicateMacro { .. })
    ));
}

#[test]
fn classification_distinguishes_all_outcomes() {
    let mut profile = valid_profile();
    profile.scope.hard_unsupported = vec!["group-chat".to_owned()];
    profile.macros.hard_unsupported = vec!["input".to_owned()];
    let classify = |kind, name: &str| {
        profile.classify(&CompatibilitySubject { kind, name: name.to_owned() })
    };

    assert_eq!(classify(CompatibilitySubjectKind::Macro, "char"), CompatibilityOutcome::Exact);
    assert_eq!(
        classify(CompatibilitySubjectKind::Metadata, "unknown-json-member"),
        CompatibilityOutcome::PreservedMetadata
    );
    assert_eq!(
        classify(CompatibilitySubjectKind::Macro, "platformMacro"),
        CompatibilityOutcome::DocumentedFallback
    );
    assert_eq!(
        classify(CompatibilitySubjectKind::Feature, "group-chat"),
        CompatibilityOutcome::HardUnsupported
    );
}

#[test]
fn every_fault_of_a_profile_is_named() {
    let mut profile = valid_profile();
    profile.schema = "other".to_owned();
    assert_eq!(
        profile.validate(),
        Err(ProfileError::UnsupportedSchema("other".to_owned()))
    );
    let mut profile = valid_profile();
    profile.id = " \t".to_owned();
    assert_eq!(profile.validate(), Err(ProfileError::EmptyId));
    let mut profile = valid_profile();
    profile.upstream.commit = "51ad".to_owned();
    assert_eq!(profile.validate(), Err(ProfileError::InvalidCommit("51ad".to_owned())));
    let mut profile = valid_profile();
    profile.macros.exact = vec!["".to_owned()];
    assert_eq!(profile.validate(), Err(ProfileError::EmptyMacro));
    let mut profile = valid_profile();
    profile.macros.exact = vec!["user".to_owned(), "char".to_owned()];
    assert_eq!(
        profile.validate(),
        Err(ProfileError::UnsortedOrDuplicateMacro {
            previous: "user".to_owned(),
            current: "char".to_owned()
        })
    );
}

#[test]
fn subjects_of_every_kind_are_classified() {
    let mut profile = valid_profile();
    profile.macros.hard_unsupported = vec!["input".to_owned()];
    profile.preset_fields =
        vec![("temperature".to_owned(), CompatibilityOutcome::ProviderBehavior)];
    let classify = |kind, name: &str| {
        profile.classify(&CompatibilitySubject { kind, name: name.to_owned() })
    };
    assert_eq!(
        classify(CompatibilitySubjectKind::Format, "character-card-v2-json"),
        CompatibilityOutcome::Exact
    );
    assert_eq!(
        classify(CompatibilitySubjectKind::Generation, "quiet"),
        CompatibilityOutcome::HardUnsupported
    );
    assert_eq!(
        classify(CompatibilitySubjectKind::PromptPath, "CHAT-completion-prompt-manager"),
        CompatibilityOutcome::Exact
    );
    assert_eq!(
        classify(CompatibilitySubjectKind::Macro, "INPUT"),
        CompatibilityOutcome::HardUnsupported
    );
    assert_eq!(
        classify(CompatibilitySubjectKind::PresetField, "temperature"),
        CompatibilityOutcome::ProviderBehavior
    );
    assert_eq!(
        classify(CompatibilitySubjectKind::Feature, "approximate-tokenizer"),
        CompatibilityOutcome::DocumentedFallback
    );
}
