use malscan::cli::{choose_api_key, effective_ai_mode, split_list, warn_missing_key, ScanArgs};
use malscan::model::{AIMode, HeuristicResult, Verdict};

fn args() -> ScanArgs {
    ScanArgs {
        path: "/w".to_string(),
        recursive: true,
        no_recursive: false,
        ai_mode: "auto".to_string(),
        format: "text".to_string(),
        threshold: 40,
        max_bytes: 52428800,
        workers: 4,
        output: None,
        quiet: false,
        exclude: Some("*.log, vendor ,,".to_string()),
        ext: None,
        api_key: None,
    }
}

#[test]
fn lists() {
    assert_eq!(split_list(" a, b ,,c "), vec!["a".to_string(), "b".to_string(), "c".to_string()]);
    assert!(split_list("").is_empty());
    assert!(split_list(" , ").is_empty());
    let a = args();
    assert_eq!(a.exclude_list(), vec!["*.log".to_string(), "vendor".to_string()]);
    assert!(a.ext_list().is_empty());
}

#[test]
fn recursion_flags() {
    let mut a = args();
    assert!(a.walk_recursively());
    a.no_recursive = true;
    assert!(!a.walk_recursively());
}

#[test]
fn api_key_choice() {
    assert_eq!(choose_api_key(&Some("k".to_string()), "env"), "k");
    assert_eq!(choose_api_key(&Some(String::new()), "env"), "env");
    assert_eq!(choose_api_key(&None, "env"), "env");
    assert_eq!(choose_api_key(&None, ""), "");
}

#[test]
fn no_key_turns_ai_off() {
    assert_eq!(effective_ai_mode(AIMode::Auto, ""), AIMode::Off);
    assert_eq!(effective_ai_mode(AIMode::Always, ""), AIMode::Off);
    assert_eq!(effective_ai_mode(AIMode::Auto, "k"), AIMode::Auto);
    assert_eq!(effective_ai_mode(AIMode::Off, "k"), AIMode::Off);
    assert!(warn_missing_key(AIMode::Auto, ""));
    assert!(!warn_missing_key(AIMode::Off, ""));
    assert!(!warn_missing_key(AIMode::Always, "k"));
}

#[test]
fn modes_and_names() {
    assert_eq!(AIMode::parse("ALWAYS"), AIMode::Always);
    assert_eq!(AIMode::parse("off"), AIMode::Off);
    assert_eq!(AIMode::parse("auto"), AIMode::Auto);
    assert_eq!(AIMode::parse("whatever"), AIMode::Auto);
    assert_eq!(Verdict::Clean.as_str(), "clean");
    assert_eq!(Verdict::Suspicious.as_str(), "suspicious");
    assert_eq!(Verdict::Malicious.as_str(), "malicious");
}

#[test]
fn verdict_thresholds() {
    let h = |score: i32| HeuristicResult { score, reasons: vec![], escalate_to_ai: false }.verdict();
    assert_eq!(h(39), Verdict::Clean);
    assert_eq!(h(40), Verdict::Suspicious);
    assert_eq!(h(69), Verdict::Suspicious);
    assert_eq!(h(70), Verdict::Malicious);
    assert_eq!(h(-1), Verdict::Clean);
}
