use fnm_ai::error::Error;
use fnm_ai::intent::{parse_intent, Flow, Intent};
use fnm_ai::request::{is_token_separator, tokenize};
use fnm_ai::version::UserVersion;

fn version_text(message: &str) -> Option<String> {
    match parse_intent(message).unwrap() {
        Intent::Install { version, .. }
        | Intent::Use { version, .. }
        | Intent::Default { version } => version.map(|v| v.to_string()),
        Intent::Uninstall { version } => Some(version.to_string()),
        _ => None,
    }
}

#[test]
fn blank_requests_are_refused() {
    assert!(matches!(parse_intent(""), Err(Error::EmptyRequest)));
    assert!(matches!(parse_intent("  \t \u{3000} "), Err(Error::EmptyRequest)));
}

#[test]
fn exit_wins_over_everything_else() {
    assert!(matches!(
        parse_intent("install node 20 and then quit").unwrap(),
        Intent::Exit
    ));
    assert!(matches!(parse_intent("退出").unwrap(), Intent::Exit));
    assert!(matches!(parse_intent("exit").unwrap().flow(), Flow::Exit));
    assert!(matches!(parse_intent("help").unwrap().flow(), Flow::Continue));
}

#[test]
fn help_requests() {
    assert!(matches!(parse_intent("help").unwrap(), Intent::Help));
    assert!(matches!(parse_intent("怎么用").unwrap(), Intent::Help));
}

#[test]
fn unknown_requests_quote_the_trimmed_request() {
    match parse_intent("  make coffee please  ") {
        Err(Error::UnknownRequest { message }) => assert_eq!(message, "make coffee please"),
        other => panic!("unexpected outcome: {other:?}"),
    }
}

#[test]
fn uninstall_needs_a_version() {
    match parse_intent("uninstall it") {
        Err(Error::MissingVersion { action }) => assert_eq!(action, "uninstall"),
        other => panic!("unexpected outcome: {other:?}"),
    }
    assert_eq!(version_text("uninstall node 16"), Some("v16.x.x".into()));
    assert_eq!(version_text("卸载 Node 16"), Some("v16.x.x".into()));
}

#[test]
fn setting_the_default_needs_a_version() {
    match parse_intent("set the default please") {
        Err(Error::MissingVersion { action }) => assert_eq!(action, "set the default"),
        other => panic!("unexpected outcome: {other:?}"),
    }
    assert_eq!(version_text("set default to 20"), Some("v20.x.x".into()));
    assert_eq!(version_text("把 Node 20 设置成默认版本"), Some("v20.x.x".into()));
    assert!(matches!(
        parse_intent("show the default").unwrap(),
        Intent::Default { version: None }
    ));
}

#[test]
fn use_default_switches_to_the_default_alias() {
    assert_eq!(version_text("use the default version"), Some("default".into()));
}

#[test]
fn listing_requests() {
    assert!(matches!(parse_intent("list installed versions").unwrap(), Intent::ListLocal));
    assert!(matches!(parse_intent("列出已安装版本").unwrap(), Intent::ListLocal));
    assert!(matches!(parse_intent("show me my versions").unwrap(), Intent::ListLocal));
    assert!(matches!(
        parse_intent("list available versions, newest").unwrap(),
        Intent::ListRemote {
            lts: false,
            latest: true
        }
    ));
}

#[test]
fn current_requests() {
    assert!(matches!(
        parse_intent("现在用的是哪个 Node 版本").unwrap(),
        Intent::Current
    ));
    assert!(matches!(parse_intent("show current").unwrap(), Intent::Current));
}

#[test]
fn install_and_use_requests() {
    match parse_intent("安装 Node 20 并马上使用").unwrap() {
        Intent::Install {
            version,
            use_after: true,
        } => assert_eq!(version.map(|v| v.to_string()), Some("v20.x.x".into())),
        other => panic!("unexpected intent: {other:?}"),
    }
    match parse_intent("use node 22, install it if missing").unwrap() {
        Intent::Use {
            version,
            install_if_missing: true,
        } => assert_eq!(version.map(|v| v.to_string()), Some("v22.x.x".into())),
        other => panic!("unexpected intent: {other:?}"),
    }
    match parse_intent("install node 20").unwrap() {
        Intent::Install {
            version,
            use_after: false,
        } => assert_eq!(version.map(|v| v.to_string()), Some("v20.x.x".into())),
        other => panic!("unexpected intent: {other:?}"),
    }
}

#[test]
fn requests_are_read_case_insensitively() {
    assert_eq!(version_text("INSTALL NODE 20"), Some("v20.x.x".into()));
    assert_eq!(version_text("Switch To LTS/Iron"), Some("lts-iron".into()));
}

#[test]
fn version_words() {
    assert_eq!(version_text("use node 20.1"), Some("v20.1.x".into()));
    assert_eq!(version_text("use node v20.1"), Some("v20.1.x".into()));
    assert_eq!(version_text("use node 20.x"), Some("v20.x.x".into()));
    assert_eq!(version_text("use node-18"), Some("v18.x.x".into()));
    assert_eq!(version_text("use nodejs_16"), Some("v16.x.x".into()));
    assert_eq!(version_text("use the system node"), Some("system".into()));
    assert_eq!(version_text("install latest"), Some("latest".into()));
    assert_eq!(version_text("install the newest node"), Some("latest".into()));
    assert_eq!(version_text("install lts"), Some("lts-latest".into()));
    assert_eq!(version_text("install lts/*"), Some("lts-latest".into()));
    assert_eq!(version_text("install 长期支持版本"), Some("lts-latest".into()));
    assert_eq!(version_text("install node"), None);
}

#[test]
fn semver_versions_are_rendered_by_node_semver() {
    assert_eq!(version_text("install node 08.011.3"), Some("v8.11.3".into()));
    assert_eq!(version_text("install node 1.2.3beta"), Some("v1.2.3-beta".into()));
}

#[test]
fn inline_versions_are_found_in_running_text() {
    assert_eq!(version_text("安装20.1版本"), Some("v20.1.x".into()));
    assert_eq!(version_text("切换到v18"), Some("v18.x.x".into()));
}

#[test]
fn user_versions_display() {
    assert_eq!(UserVersion::OnlyMajor(0).to_string(), "v0.x.x");
    assert_eq!(UserVersion::MajorMinor(20, 14).to_string(), "v20.14.x");
    assert_eq!(
        UserVersion::OnlyMajor(18446744073709551615).to_string(),
        "v18446744073709551615.x.x"
    );
}

#[test]
fn documented_chinese_requests() {
    match parse_intent("帮我切换到 Node 20").unwrap() {
        Intent::Use { version: Some(v), install_if_missing: false } => {
            assert_eq!(v.to_string(), "v20.x.x")
        }
        other => panic!("unexpected intent: {other:?}"),
    }
    match parse_intent("安装最新 LTS，并切换过去").unwrap() {
        Intent::Install { version: Some(v), use_after: true } => {
            assert_eq!(v.to_string(), "lts-latest")
        }
        other => panic!("unexpected intent: {other:?}"),
    }
}

#[test]
fn lts_wins_over_latest_in_any_script() {
    assert_eq!(version_text("安装最新的长期支持版本"), Some("lts-latest".into()));
    assert_eq!(version_text("install LTS/Ärgon, the latest lts"), Some("lts-ärgon".into()));
}

#[test]
fn words_are_the_runs_between_separators() {
    let text: Vec<char> = "  install, Node 20！切换到？lts/iron  ".chars().collect();
    let words: Vec<String> = tokenize(&text).iter().map(|w| w.iter().collect()).collect();
    assert_eq!(words, vec!["install", "Node", "20", "切换到", "lts/iron"]);
    for w in &words {
        assert!(!w.is_empty() && !w.chars().any(is_token_separator));
    }
    let joined: String = words.concat();
    let filtered: String = text.iter().filter(|c| !is_token_separator(**c)).collect();
    assert_eq!(joined, filtered);
    assert!(tokenize(&" ,; ".chars().collect::<Vec<char>>()).is_empty());
}
