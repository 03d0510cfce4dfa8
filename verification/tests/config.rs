use stcli_core::config::{
    check_profile, format_available, remove_entry_text, save_entry_text,
    validate_enabled_extension, Config, ConfigError, GlobalExtensionPin, ParseError,
};
use stcli_core::document::stale_keys;
use stcli_core::egress::EgressAllowance;
use stcli_core::identity::ContentHash;
use stcli_core::json::Json;
use stcli_core::plugin::{
    InstalledPlugin, PluginCapability, PluginManifest, PluginRegistry, PluginRuntime,
};
use stcli_core::provider::ProviderSettings;

fn digest() -> ContentHash {
    ContentHash::parse("sha256:aaaaaaaaaaaaaaaaaaaaaaaaaaaaaaaaaaaaaaaaaaaaaaaaaaaaaaaaaaaaaaaa")
        .unwrap()
}

fn settings(id: &str, base_url: &str, model: &str) -> ProviderSettings {
    ProviderSettings {
        id: id.to_owned(),
        base_url: base_url.to_owned(),
        chat_completions_path: "/v1/chat/completions".to_owned(),
        api_key_env: None,
        credential_key: None,
        static_headers: vec![],
        timeout_seconds: 30,
        ca_certificate_pem: None,
        model: model.to_owned(),
        stream: true,
    }
}

fn pin(version: &str) -> GlobalExtensionPin {
    GlobalExtensionPin {
        version: version.to_owned(),
        digest: digest(),
        settings: Json::Object(vec![]),
        egress_allow_list: vec![],
    }
}

#[test]
fn resolve_provider_profile_returns_matching_profile() {
    let config = Config {
        providers: vec![(
            "my-provider".to_owned(),
            settings("my-provider", "https://example.com", "model-x"),
        )],
        enabled_extensions: vec![],
    };

    let profile = config.resolve_provider_profile("my-provider").unwrap();
    assert_eq!(profile.model, "model-x");
}

#[test]
fn resolve_provider_profile_lists_available_on_miss() {
    let config = Config {
        providers: vec![
            ("alpha".to_owned(), settings("alpha", "https://alpha.example.com", "m")),
            ("beta".to_owned(), settings("beta", "https://beta.example.com", "m")),
        ],
        enabled_extensions: vec![],
    };

    match config.resolve_provider_profile("nonexistent") {
        Err(ConfigError::ProfileNotFound { name, available }) => {
            assert_eq!(name, "nonexistent");
            assert_eq!(available, ["alpha", "beta"]);
            assert_eq!(format_available(&available), "alpha, beta");
        }
        other => panic!("{other:?}"),
    }
    assert_eq!(format_available(&vec![]), "(none configured)");
}

#[test]
fn rejects_invalid_enabled_extension_defaults() {
    let config = Config {
        providers: vec![],
        enabled_extensions: vec![("bad".to_owned(), pin(""))],
    };
    assert_eq!(
        config.validate(&vec![]),
        Err(ParseError::EmptyExtensionVersion("bad".to_owned()))
    );
}

#[test]
fn rejects_stale_enabled_extension_pin() {
    let config = Config {
        providers: vec![],
        enabled_extensions: vec![("example-extension".to_owned(), pin("1.2.3"))],
    };

    let error = config
        .resolve_enabled_extensions(&PluginRegistry::new("/root".to_owned()), &vec![], &vec![])
        .unwrap_err();

    assert!(matches!(
        error,
        ConfigError::EnabledExtensionNotInstalled { id, version, digest: wanted }
            if id == "example-extension" && version == "1.2.3" && wanted == digest()
    ));
}

#[test]
fn extensions_are_held_to_their_form() {
    let name = "x".to_owned();
    assert!(validate_enabled_extension(&name, &pin("1.2.3")).is_ok());
    assert_eq!(
        validate_enabled_extension(&" ".to_owned(), &pin("1.2.3")),
        Err(ParseError::EmptyExtensionId)
    );
    assert_eq!(
        validate_enabled_extension(&name, &pin("one")),
        Err(ParseError::InvalidExtensionVersion { id: name.clone() })
    );
    let mut wrong = pin("1.2.3");
    wrong.settings = Json::Null;
    assert_eq!(
        validate_enabled_extension(&name, &wrong),
        Err(ParseError::InvalidExtensionSettings(name.clone()))
    );
}

#[test]
fn profiles_are_checked_before_extensions() {
    let config = Config {
        providers: vec![("bad".to_owned(), settings("bad", "https://example.com", "model"))],
        enabled_extensions: vec![],
    };
    assert_eq!(
        config.validate(&vec![Some("literal secret".to_owned())]),
        Err(ParseError::InvalidProfile {
            name: "bad".to_owned(),
            source: "literal secret".to_owned()
        })
    );
    assert!(config.validate(&vec![None]).is_ok());
    assert!(Config::empty().validate(&vec![]).is_ok());
    assert!(matches!(
        check_profile(&"".to_owned(), None),
        Err(ConfigError::InvalidProfile { source: ParseError::EmptyProfileName, .. })
    ));
}

fn installed(runtime: PluginRuntime, capabilities: Vec<PluginCapability>) -> InstalledPlugin {
    InstalledPlugin {
        manifest: PluginManifest {
            schema: "stcli.plugin-manifest/v1".to_owned(),
            id: "example-extension".to_owned(),
            version: "1.2.3".to_owned(),
            engine: "*".to_owned(),
            runtime,
            component: "main.js".to_owned(),
            component_sha256: digest(),
            dependencies: vec![],
            license: "MIT".to_owned(),
            subscriptions: vec![],
            prompt_slots: vec![],
            commands: vec![],
            macros: vec![],
            settings_schema: None,
            requested_capabilities: capabilities,
            before: vec![],
            after: vec![],
            generate_interceptor: None,
            display_name: None,
            artifact_codec: None,
        },
        directory: "/root/example-extension".to_owned(),
        inspection_enabled: false,
    }
}

#[test]
fn enabled_extensions_are_resolved_to_pins() {
    let config = Config {
        providers: vec![],
        enabled_extensions: vec![("example-extension".to_owned(), pin("1.2.3"))],
    };
    let registry = PluginRegistry::new("/root".to_owned());
    let tier = vec![PluginCapability::ReadSession];
    let resolve = |plugin| {
        config.resolve_enabled_extension(
            &registry,
            &vec![plugin],
            &tier,
            &"example-extension".to_owned(),
        )
    };
    let resolved =
        resolve(installed(PluginRuntime::StBridge, vec![PluginCapability::ReadSession])).unwrap();
    assert_eq!(resolved.id, "example-extension");
    assert_eq!(resolved.version, "1.2.3");
    assert_eq!(resolved.capabilities, tier);
    assert!(resolved.enabled);
    assert!(matches!(
        resolve(installed(PluginRuntime::Wasm, vec![PluginCapability::ReadSession])),
        Err(ConfigError::EnabledExtensionNotStBridge(_))
    ));
    assert!(matches!(
        resolve(installed(PluginRuntime::StBridge, vec![])),
        Err(ConfigError::EnabledExtensionGrantExceeded(_))
    ));
    assert!(matches!(
        config.resolve_enabled_extension(&registry, &vec![], &tier, &"other".to_owned()),
        Err(ConfigError::EnabledExtensionNotConfigured(id)) if id == "other"
    ));
}

#[test]
fn a_profile_is_duplicated_under_a_new_name() {
    let config = Config {
        providers: vec![("source".to_owned(), settings("openai", "https://example.com", "m"))],
        enabled_extensions: vec![],
    };
    assert_eq!(
        *config.duplicate_provider_profile("source", &"copy".to_owned()).unwrap(),
        config.providers[0].1
    );
    assert!(matches!(
        config.duplicate_provider_profile("source", &"source".to_owned()),
        Err(ConfigError::ProfileAlreadyExists(_))
    ));
    assert!(matches!(
        config.duplicate_provider_profile("none", &"copy".to_owned()),
        Err(ConfigError::ProfileNotFound { .. })
    ));
}

#[test]
fn keys_that_are_not_kept_are_stale() {
    let keys = vec!["a".to_owned(), "b".to_owned(), "c".to_owned()];
    assert_eq!(stale_keys(&keys, &vec!["b".to_owned()]), ["a", "c"]);
}

/// How settings read as TOML.
fn written(settings: &ProviderSettings) -> String {
    let mut table = toml::Table::new();
    let mut put = |key: &str, value: toml::Value| {
        table.insert(key.to_owned(), value);
    };
    put("id", settings.id.clone().into());
    put("base_url", settings.base_url.clone().into());
    put("chat_completions_path", settings.chat_completions_path.clone().into());
    if let Some(name) = &settings.api_key_env {
        put("api_key_env", name.clone().into());
    }
    put("timeout_seconds", (settings.timeout_seconds as i64).into());
    put("model", settings.model.clone().into());
    put("stream", settings.stream.into());
    put("static_headers", toml::Table::new().into());
    toml::to_string(&table).unwrap()
}

fn read(source: &str) -> toml::Table {
    source.parse().unwrap()
}

/// The settings of a profile in the text of a configuration.
fn profile(source: &str, name: &str) -> Option<ProviderSettings> {
    let document = read(source);
    let table = document.get("providers")?.get(name)?.as_table()?.clone();
    let text = |key: &str| table.get(key).and_then(|value| value.as_str()).map(str::to_owned);
    Some(ProviderSettings {
        id: text("id")?,
        base_url: text("base_url")?,
        chat_completions_path: text("chat_completions_path")?,
        api_key_env: text("api_key_env"),
        credential_key: text("credential_key"),
        static_headers: vec![],
        timeout_seconds: table.get("timeout_seconds")?.as_integer()? as u64,
        ca_certificate_pem: text("ca_certificate_pem"),
        model: text("model")?,
        stream: table.get("stream")?.as_bool()?,
    })
}

#[test]
fn add_provider_profile_preserves_unmanaged_configuration() {
    let source = "# keep this comment\n[tui]\ntheme = \"dark\"\n\n[providers.existing]\nid = \"existing\"\nbase_url = \"https://existing.example.com\"\nchat_completions_path = \"/v1/chat/completions\"\ntimeout_seconds = 30\nmodel = \"existing-model\"\nstream = true\n";
    let settings = ProviderSettings {
        id: "new-profile".to_owned(),
        base_url: "https://api.example.com".to_owned(),
        chat_completions_path: "/v1/chat/completions".to_owned(),
        api_key_env: Some("EXAMPLE_API_KEY".to_owned()),
        credential_key: None,
        static_headers: vec![],
        timeout_seconds: 120,
        ca_certificate_pem: None,
        model: "example-model".to_owned(),
        stream: true,
    };

    let name = "new-profile".to_owned();
    let source =
        Config::add_provider_profile(source, &name, None, &written(&settings)).unwrap();

    assert!(source.contains("# keep this comment"));
    assert!(source.contains("[tui]\ntheme = \"dark\""));
    assert_eq!(profile(&source, "existing").unwrap().model, "existing-model");
    assert_eq!(profile(&source, "new-profile").unwrap(), settings);
}

#[test]
fn updating_provider_profile_preserves_profile_comments() {
    let source = "[providers.example]\nid = \"example\"\nbase_url = \"https://old.example.com\" # keep endpoint note\nchat_completions_path = \"/v1/chat/completions\"\ntimeout_seconds = 30\nmodel = \"old-model\"\nstream = true\n";
    let settings = ProviderSettings {
        timeout_seconds: 60,
        stream: false,
        ..settings("example", "https://new.example.com", "new-model")
    };

    let name = "example".to_owned();
    let source =
        Config::add_provider_profile(source, &name, None, &written(&settings)).unwrap();

    assert!(source.contains("base_url = \"https://new.example.com\" # keep endpoint note"));
}

#[test]
fn remove_provider_profile_removes_entry_and_preserves_others() {
    let source = "# top-level comment\n[tui]\ntheme = \"dark\"\n\n[providers.to_remove]\nid = \"to_remove\"\nbase_url = \"https://remove.example.com\"\nchat_completions_path = \"/v1/chat/completions\"\ntimeout_seconds = 30\nmodel = \"remove-model\"\nstream = true\n\n# keep this provider\n[providers.keep]\nid = \"keep\"\nbase_url = \"https://keep.example.com\"\nchat_completions_path = \"/v1/chat/completions\"\ntimeout_seconds = 30\nmodel = \"keep-model\"\nstream = true\n";

    let source = Config::remove_provider_profile(source, "to_remove").unwrap().unwrap();

    assert!(source.contains("# top-level comment"));
    assert!(source.contains("[tui]\ntheme = \"dark\""));
    assert!(source.contains("# keep this provider"));
    assert!(!source.contains("to_remove"));
    assert!(source.contains("keep"));

    let providers = read(&source)["providers"].as_table().unwrap().clone();
    assert_eq!(providers.len(), 1);
    assert!(providers.contains_key("keep"));

    assert!(Config::remove_provider_profile(&source, "to_remove").unwrap().is_none());
}

#[test]
fn rename_provider_profile_preserves_comments_and_removes_old_name() {
    let source = "# keep\n[providers.old]\n# endpoint\nid = \"old\"\nbase_url = \"https://old.example.com\"\nchat_completions_path = \"/v1/chat/completions\"\ntimeout_seconds = 30\nmodel = \"old-model\"\nstream = true\n";
    let settings = ProviderSettings {
        timeout_seconds: 60,
        stream: false,
        ..settings("new", "https://new.example.com", "new-model")
    };

    let source = Config::save_provider_profile(
        source,
        &Some("old".to_owned()),
        &"new".to_owned(),
        None,
        &written(&settings),
    )
    .unwrap();

    assert!(source.contains("# keep"));
    assert!(source.contains("# endpoint"));
    assert!(profile(&source, "old").is_none());
    assert_eq!(profile(&source, "new").unwrap().model, "new-model");
}

#[test]
fn duplicate_provider_profile_preserves_source_and_unmanaged_configuration() {
    let source = "# keep\n[tui]\ntheme = \"dark\"\n\n[providers.source]\nid = \"openai-compatible\"\nbase_url = \"https://example.com\" # endpoint\nchat_completions_path = \"/v1/chat/completions\"\napi_key_env = \"EXAMPLE_API_KEY\"\ntimeout_seconds = 30\nmodel = \"source-model\"\nstream = true\n";
    let config = Config {
        providers: vec![("source".to_owned(), profile(source, "source").unwrap())],
        enabled_extensions: vec![],
    };

    let name = "source-copy".to_owned();
    let settings = config.duplicate_provider_profile("source", &name).unwrap();
    let source = Config::add_provider_profile(source, &name, None, &written(settings)).unwrap();

    assert!(source.contains("# keep"));
    assert!(source.contains("[tui]\ntheme = \"dark\""));
    assert!(source.contains("base_url = \"https://example.com\" # endpoint"));
    assert_eq!(profile(&source, "source-copy"), profile(&source, "source"));
}

#[test]
fn enabled_extension_defaults_round_trip_without_rewriting_unmanaged_config() {
    let source = "# keep this comment\n[tui]\ntheme = \"dark\"\n";
    let pin = GlobalExtensionPin {
        version: "1.2.3".to_owned(),
        digest: digest(),
        settings: Json::Object(vec![("mode".to_owned(), Json::Text("strict".to_owned()))]),
        egress_allow_list: vec![EgressAllowance {
            domain: "example.com".to_owned(),
            secret: None,
        }],
    };
    let desired = format!(
        "version = \"1.2.3\"\ndigest = \"{}\"\n\n[settings]\nmode = \"strict\"\n\n[[egress_allow_list]]\ndomain = \"example.com\"\n",
        digest().text()
    );

    let id = "example-extension".to_owned();
    let source = Config::save_enabled_extension(source, &id, &pin, &desired).unwrap();

    assert!(source.contains("# keep this comment"));
    assert!(source.contains("[tui]\ntheme = \"dark\""));
    assert!(source.contains("[extensions.example-extension]"));
    let saved = read(&source)["extensions"]["example-extension"].clone();
    assert_eq!(saved["version"].as_str(), Some("1.2.3"));
    assert_eq!(saved["digest"].as_str(), Some(digest().text().as_str()));
    assert_eq!(saved["settings"]["mode"].as_str(), Some("strict"));
    assert_eq!(saved["egress_allow_list"][0]["domain"].as_str(), Some("example.com"));

    let source = Config::remove_enabled_extension(&source, &id).unwrap().unwrap();
    assert!(read(&source)["extensions"].as_table().unwrap().is_empty());
    assert!(source.contains("[tui]\ntheme = \"dark\""));
}

#[test]
fn stale_keys_go_and_unmanaged_keys_stay() {
    let source = "[providers.p]\nid = \"p\"\nmodel = \"old\" # note\ncredential_key = \"k\"\nmine = 1\n\n[providers.p.static_headers]\nA = \"1\"\nB = \"2\"\n";
    let managed = vec!["id".to_owned(), "model".to_owned(), "credential_key".to_owned()];
    let desired = "id = \"p\"\nmodel = \"new\"\n[static_headers]\nB = \"3\"\nC = \"4\"\n";
    let text =
        save_entry_text(source, "providers", &None, &"p".to_owned(), desired, &managed).unwrap();
    assert_eq!(
        text,
        "[providers.p]\nid = \"p\"\nmodel = \"new\" # note\nmine = 1\n\n[providers.p.static_headers]\nB = \"3\"\nC = \"4\"\n"
    );
}

#[test]
fn texts_that_cannot_be_edited_are_refused() {
    let none = vec![];
    let name = "a".to_owned();
    let save = |source: &str, section: &str, original: Option<&str>, desired: &str| {
        save_entry_text(source, section, &original.map(str::to_owned), &name, desired, &none)
    };
    assert!(matches!(save("= 1", "providers", None, ""), Err(ConfigError::Edit { .. })));
    assert!(matches!(save("", "providers", None, "= 1"), Err(ConfigError::Edit { .. })));
    assert!(matches!(
        save("providers = 1", "providers", None, ""),
        Err(ConfigError::ProvidersNotTable { path }) if path == "config.toml"
    ));
    assert!(matches!(
        save("extensions = 1", "extensions", None, ""),
        Err(ConfigError::ExtensionsNotTable { .. })
    ));
    assert!(matches!(
        save("[providers.a]\n[providers.b]\n", "providers", Some("b"), ""),
        Err(ConfigError::ProfileAlreadyExists(taken)) if taken == "a"
    ));
    assert!(matches!(remove_entry_text("= 1", "providers", "a"), Err(ConfigError::Edit { .. })));
    assert!(matches!(remove_entry_text("providers = 1", "providers", "a"), Ok(None)));
    let blank = Config::save_provider_profile("", &None, &" ".to_owned(), None, "");
    assert!(matches!(
        blank,
        Err(ConfigError::InvalidProfile { source: ParseError::EmptyProfileName, .. })
    ));
    let invalid = Config::save_enabled_extension("", &name, &pin(""), "");
    assert!(matches!(invalid, Err(ConfigError::InvalidExtension { .. })));
}
