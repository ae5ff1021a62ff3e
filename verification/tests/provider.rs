use fnm_ai::error::Error;
use fnm_ai::intent::{Intent, Preset};
use fnm_ai::provider::{
    chat_completions_url, extract_json_object, normalize_provider_version, optional_env,
    parse_provider_version, truncate_for_error, AiProviderConfig, ProviderIntent,
    DEFAULT_AI_MODEL,
};
use fnm_ai::session::{
    check_provider_response, handle_message, parse_intent_with_provider, provider_intent_error,
    provider_json, Ai, Step,
};

fn provider(action: &str, version: Option<&str>) -> ProviderIntent {
    ProviderIntent {
        action: action.into(),
        version: version.map(|v| v.into()),
        install_if_missing: false,
        use_after: false,
        lts: false,
        latest: false,
    }
}

fn config() -> AiProviderConfig {
    AiProviderConfig {
        base_url: "https://api.moonshot.ai/v1".into(),
        api_key: "test-key".into(),
        model: DEFAULT_AI_MODEL.into(),
    }
}

#[test]
fn completions_url_drops_trailing_slashes_and_is_stable() {
    let once = chat_completions_url("https://api.moonshot.ai/v1///");
    assert_eq!(once, "https://api.moonshot.ai/v1/chat/completions");
    assert_eq!(chat_completions_url(&once), once);
    assert_eq!(chat_completions_url(""), "/chat/completions");
}

#[test]
fn json_objects_in_replies() {
    assert_eq!(
        extract_json_object("  {\"action\":\"help\"}  ").as_deref(),
        Some("{\"action\":\"help\"}")
    );
    assert_eq!(
        extract_json_object("Sure: {\"action\":\"exit\"} done").as_deref(),
        Some("{\"action\":\"exit\"}")
    );
    assert_eq!(extract_json_object("no json here"), None);
    assert_eq!(extract_json_object("} backwards {"), None);
}

#[test]
fn error_quotes_are_truncated_on_character_boundaries() {
    assert_eq!(truncate_for_error("short"), "short");
    let exact = "a".repeat(500);
    assert_eq!(truncate_for_error(&exact), exact);
    let long = "a".repeat(600);
    assert_eq!(truncate_for_error(&long), format!("{}...", "a".repeat(500)));
    let wide = "中".repeat(200);
    let quoted = truncate_for_error(&wide);
    assert_eq!(quoted, format!("{}...", "中".repeat(166)));
    assert!(quoted.len() <= 503);
}

#[test]
fn provider_configuration_from_the_environment() {
    let c = AiProviderConfig::from_env(
        Some("  https://api.moonshot.ai/v1  ".into()),
        Some("key".into()),
        None,
    )
    .unwrap()
    .unwrap();
    assert_eq!(c.base_url, "https://api.moonshot.ai/v1");
    assert_eq!(c.api_key, "key");
    assert_eq!(c.model, "kimi-k2.6");

    let c = AiProviderConfig::from_env(Some("u".into()), Some("k".into()), Some(" m ".into()))
        .unwrap()
        .unwrap();
    assert_eq!(c.model, "m");

    assert!(AiProviderConfig::from_env(None, Some("   ".into()), None)
        .unwrap()
        .is_none());
    assert!(matches!(
        AiProviderConfig::from_env(Some("u".into()), None, None),
        Err(Error::MissingAiProviderConfig)
    ));
    assert_eq!(optional_env(Some(" x ".into())), Some("x".into()));
    assert_eq!(optional_env(Some(" ".into())), None);
}

#[test]
fn provider_versions() {
    assert_eq!(normalize_provider_version("  \"LTS/Iron\" "), "lts/iron");
    assert_eq!(parse_provider_version("LTS").unwrap().to_string(), "lts-latest");
    assert_eq!(parse_provider_version("latest-lts").unwrap().to_string(), "lts-latest");
    assert_eq!(parse_provider_version("\"20.14.0\"").unwrap().to_string(), "v20.14.0");
    assert_eq!(parse_provider_version("lts/iron").unwrap().to_string(), "lts-iron");
    assert!(parse_provider_version("99999999999999999999999.1.2").is_err());
}

#[test]
fn provider_actions_are_a_fixed_set() {
    assert!(matches!(provider(" HELP ", None).try_into_intent().unwrap(), Intent::Help));
    assert!(matches!(
        provider("switch_environment", None).try_into_intent().unwrap(),
        Intent::Preset(Preset::SwitchEnvironment)
    ));
    assert!(matches!(
        provider("check_environment", None).try_into_intent().unwrap(),
        Intent::Preset(Preset::CheckEnvironment)
    ));
    match provider("rm -rf /", None).try_into_intent() {
        Err(Error::AiProviderUnsupportedAction { action }) => assert_eq!(action, "rm -rf /"),
        other => panic!("unexpected outcome: {other:?}"),
    }
}

#[test]
fn provider_default_and_uninstall() {
    assert!(matches!(
        provider("default", None).try_into_intent().unwrap(),
        Intent::Default { version: None }
    ));
    match provider("default", Some("18")).try_into_intent().unwrap() {
        Intent::Default { version: Some(v) } => assert_eq!(v.to_string(), "v18.x.x"),
        other => panic!("unexpected intent: {other:?}"),
    }
    match provider("uninstall", Some("  ")).try_into_intent() {
        Err(Error::MissingVersion { action }) => assert_eq!(action, "uninstall"),
        other => panic!("unexpected outcome: {other:?}"),
    }
    match provider("use", Some(" 99999999999999999999999.1.2 ")).try_into_intent() {
        Err(Error::AiProviderInvalidVersion {
            action,
            version,
            source,
        }) => {
            assert_eq!(action, "use");
            assert_eq!(version, "99999999999999999999999.1.2");
            let expected = node_semver::Version::parse("99999999999999999999999.1.2").unwrap_err();
            assert_eq!(source, expected);
        }
        other => panic!("unexpected outcome: {other:?}"),
    }
}

#[test]
fn provider_version_errors_are_those_of_the_normalized_text() {
    match parse_provider_version(" \"V1ABC\" ") {
        Err(e) => assert_eq!(e, node_semver::Version::parse("1abc").unwrap_err()),
        Ok(v) => panic!("unexpected version: {v:?}"),
    }
    match provider("install", Some("1abc")).try_into_intent() {
        Err(Error::AiProviderInvalidVersion { action, version, source }) => {
            assert_eq!(action, "install");
            assert_eq!(version, "1abc");
            assert_eq!(source, node_semver::Version::parse("1abc").unwrap_err());
            assert_ne!(source, node_semver::Version::parse("2abc").unwrap_err());
        }
        other => panic!("unexpected outcome: {other:?}"),
    }
}

#[test]
fn provider_list_remote_reads_the_version_field() {
    assert!(matches!(
        provider("list_remote", Some("lts/iron")).try_into_intent().unwrap(),
        Intent::ListRemote {
            lts: true,
            latest: false
        }
    ));
    assert!(matches!(
        provider("list_remote", Some("\"LATEST\"")).try_into_intent().unwrap(),
        Intent::ListRemote {
            lts: false,
            latest: true
        }
    ));
    let mut latest = provider("install", None);
    latest.latest = true;
    match latest.try_into_intent().unwrap() {
        Intent::Install { version: Some(v), .. } => assert_eq!(v.to_string(), "latest"),
        other => panic!("unexpected intent: {other:?}"),
    }
}

#[test]
fn local_parsing_comes_first() {
    assert!(matches!(
        handle_message("install node 20", Ok(Some(config()))),
        Step::Perform(Intent::Install { .. })
    ));
    assert!(matches!(
        handle_message("", Ok(Some(config()))),
        Step::Fail(Error::EmptyRequest)
    ));
    assert!(matches!(
        handle_message("make coffee", Ok(Some(config()))),
        Step::AskProvider(_)
    ));
    match handle_message("  make coffee ", Ok(None)) {
        Step::Fail(Error::UnknownRequest { message }) => assert_eq!(message, "make coffee"),
        other => panic!("unexpected step: {other:?}"),
    }
    assert!(matches!(
        handle_message("make coffee", Err(Error::MissingAiProviderConfig)),
        Step::Fail(Error::MissingAiProviderConfig)
    ));
    assert!(matches!(
        handle_message("install node 20", Err(Error::MissingAiProviderConfig)),
        Step::Perform(_)
    ));
    assert!(parse_intent_with_provider("x", Ok(Some(config()))).is_ok());
}

#[test]
fn provider_responses() {
    match check_provider_response(404, "404 Not Found".into(), "nope", Ok(vec![])) {
        Err(Error::AiProviderStatus { status, body }) => {
            assert_eq!(status, "404 Not Found");
            assert_eq!(body, "nope");
        }
        other => panic!("unexpected outcome: {other:?}"),
    }
    assert!(matches!(
        check_provider_response(200, "200 OK".into(), "x", Err("bad".into())),
        Err(Error::AiProviderResponse { .. })
    ));
    assert!(matches!(
        check_provider_response(200, "200 OK".into(), "x", Ok(vec![])),
        Err(Error::AiProviderEmptyResponse)
    ));
    assert_eq!(
        check_provider_response(299, "299".into(), "x", Ok(vec!["a".into(), "b".into()])).unwrap(),
        "a"
    );
    assert_eq!(
        provider_json("```json\n{\"action\":\"current\"}\n```").unwrap(),
        "{\"action\":\"current\"}"
    );
    assert!(matches!(
        provider_json("nothing"),
        Err(Error::AiProviderInvalidJson { .. })
    ));
    match provider_intent_error("missing field".into(), "{}") {
        Error::AiProviderIntent { source, content } => {
            assert_eq!(source, "missing field");
            assert_eq!(content, "{}");
        }
        other => panic!("unexpected error: {other:?}"),
    }
}

#[test]
fn command_line_words_are_joined() {
    let ai = Ai {
        message: vec!["install".into(), "node".into(), "20".into()],
    };
    assert_eq!(ai.request_text(), Some("install node 20".into()));
    assert_eq!(Ai { message: vec![] }.request_text(), None);
}

#[test]
fn normalized_versions_have_no_capitals_or_quotes() {
    assert_eq!(normalize_provider_version("  \"V20.1.0\" "), "v20.1.0");
    assert_eq!(normalize_provider_version("\"\"lts/Iron\"\""), "lts/iron");
    for v in ["  \"V20.1.0\" ", "Latest-LTS", "\"Lts/*\"", "节点 20", "\"\""] {
        let n = normalize_provider_version(v);
        assert!(!n.chars().any(|c| c.is_ascii_uppercase()));
        assert!(!n.starts_with('"') && !n.ends_with('"'));
        assert_eq!(normalize_provider_version(&v.to_ascii_uppercase()), n);
    }
}
