use fnm_ai::intent::{parse_intent, Intent, Preset};
use fnm_ai::provider::{chat_completions_url, extract_json_object, ProviderIntent};

fn parsed_version(message: &str) -> Option<String> {
    match parse_intent(message).unwrap() {
        Intent::Install { version, .. }
        | Intent::Use { version, .. }
        | Intent::Default { version } => version.map(|version| version.to_string()),
        Intent::Uninstall { version } => Some(version.to_string()),
        Intent::Help
        | Intent::Exit
        | Intent::Preset(_)
        | Intent::ListLocal
        | Intent::ListRemote { .. }
        | Intent::Current => None,
    }
}

#[test]
fn parses_install_and_use() {
    match parse_intent("please install Node v8.11.3 and use it").unwrap() {
        Intent::Install {
            version,
            use_after: true,
        } => assert_eq!(
            version.map(|version| version.to_string()),
            Some("v8.11.3".into())
        ),
        other => panic!("unexpected intent: {other:?}"),
    }
}

#[test]
fn parses_use_with_install_if_missing() {
    match parse_intent("use node 20 and install it if missing").unwrap() {
        Intent::Use {
            version,
            install_if_missing: true,
        } => assert_eq!(
            version.map(|version| version.to_string()),
            Some("v20.x.x".into())
        ),
        other => panic!("unexpected intent: {other:?}"),
    }
}

#[test]
fn parses_chinese_use_request() {
    assert_eq!(parsed_version("切换到 Node 18"), Some("v18.x.x".into()));
}

#[test]
fn parses_chinese_inline_version() {
    assert_eq!(parsed_version("帮我安装v8.11.3"), Some("v8.11.3".into()));
}

#[test]
fn parses_latest_lts_before_latest() {
    assert_eq!(
        parsed_version("install latest lts"),
        Some("lts-latest".into())
    );
}

#[test]
fn parses_current_request() {
    assert!(matches!(
        parse_intent("what version am I using?").unwrap(),
        Intent::Current
    ));
}

#[test]
fn parses_list_remote_lts() {
    assert!(matches!(
        parse_intent("list remote lts versions").unwrap(),
        Intent::ListRemote {
            lts: true,
            latest: false
        }
    ));
}

#[test]
fn parses_switch_environment_preset() {
    assert!(matches!(
        parse_intent("1").unwrap(),
        Intent::Preset(Preset::SwitchEnvironment)
    ));
    assert!(matches!(
        parse_intent("先切换环境").unwrap(),
        Intent::Preset(Preset::SwitchEnvironment)
    ));
}

#[test]
fn parses_check_environment_preset() {
    assert!(matches!(
        parse_intent("2").unwrap(),
        Intent::Preset(Preset::CheckEnvironment)
    ));
    assert!(matches!(
        parse_intent("检查当前环境配置").unwrap(),
        Intent::Preset(Preset::CheckEnvironment)
    ));
}

#[test]
fn appends_chat_completions_to_provider_base_url() {
    assert_eq!(
        chat_completions_url("https://api.moonshot.ai/v1"),
        "https://api.moonshot.ai/v1/chat/completions"
    );
    assert_eq!(
        chat_completions_url("https://api.moonshot.ai/v1/chat/completions"),
        "https://api.moonshot.ai/v1/chat/completions"
    );
}

#[test]
fn extracts_json_object_from_markdown_response() {
    assert_eq!(
        extract_json_object("```json\n{\"action\":\"current\"}\n```").as_deref(),
        Some("{\"action\":\"current\"}")
    );
}

#[test]
fn converts_provider_use_intent() {
    let intent = ProviderIntent {
        action: "use".into(),
        version: Some("20".into()),
        install_if_missing: true,
        use_after: false,
        lts: false,
        latest: false,
    }
    .try_into_intent()
    .unwrap();

    match intent {
        Intent::Use {
            version,
            install_if_missing: true,
        } => assert_eq!(
            version.map(|version| version.to_string()),
            Some("v20.x.x".into())
        ),
        other => panic!("unexpected intent: {other:?}"),
    }
}

#[test]
fn converts_provider_lts_install_intent() {
    let intent = ProviderIntent {
        action: "install".into(),
        version: None,
        install_if_missing: false,
        use_after: true,
        lts: true,
        latest: false,
    }
    .try_into_intent()
    .unwrap();

    match intent {
        Intent::Install {
            version,
            use_after: true,
        } => assert_eq!(
            version.map(|version| version.to_string()),
            Some("lts-latest".into())
        ),
        other => panic!("unexpected intent: {other:?}"),
    }
}
