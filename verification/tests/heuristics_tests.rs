use malscan::heuristics::{has_php_input_sink, weight_for_hit, Scorer};
use malscan::model::{AIMode, FileFeatures, Verdict};

fn features_with(hits: &[&str], file_type: &str) -> FileFeatures {
    let mut f = FileFeatures::blank("/w/x.php".to_string());
    f.file_type = file_type.to_string();
    f.signature_hits = hits.iter().map(|h| h.to_string()).collect();
    f
}

#[test]
fn scorer_threshold_defaults_to_forty() {
    assert_eq!(Scorer::new(0, AIMode::Auto).threshold, 40);
    assert_eq!(Scorer::new(-5, AIMode::Auto).threshold, 40);
    assert_eq!(Scorer::new(55, AIMode::Off).threshold, 55);
}

#[test]
fn hit_weights() {
    assert_eq!(weight_for_hit("php:known_china_chopper"), 60);
    assert_eq!(weight_for_hit("php:obf_eval_chain_0"), 50);
    assert_eq!(weight_for_hit("htaccess:php_handler_disguise(.js)"), 50);
    assert_eq!(weight_for_hit("htaccess:allowed_php_file(a.php)"), 55);
    assert_eq!(weight_for_hit("php:superglobal_input"), 15);
    assert_eq!(weight_for_hit("php:exec_sink"), 20);
    assert_eq!(weight_for_hit("htaccess:ssi_handler_disguise(.shtml)"), 5);
    assert_eq!(weight_for_hit("other"), 5);
}

#[test]
fn input_and_sink_detection() {
    let both = vec!["php:superglobal_input".to_string(), "php:exec_sink".to_string()];
    assert!(has_php_input_sink(&both));
    let input_only = vec!["php:eval_input".to_string()];
    assert!(!has_php_input_sink(&input_only));
    let sink_only = vec!["php:system_sink".to_string()];
    assert!(!has_php_input_sink(&sink_only));
}

#[test]
fn score_adds_weights_and_bonus() {
    let s = Scorer::new(40, AIMode::Auto);
    let f = features_with(&["php:eval_input", "php:eval_sink"], "webshell");
    let r = s.score(&f);
    assert_eq!(r.score, 95);
    assert_eq!(
        r.reasons,
        vec![
            "[+45] php:eval_input".to_string(),
            "[+35] php:eval_sink".to_string(),
            "[+15] webshell_input_to_sink".to_string(),
        ]
    );
    assert!(r.escalate_to_ai);
    assert_eq!(r.verdict(), Verdict::Malicious);
}

#[test]
fn score_is_capped_at_one_hundred() {
    let s = Scorer::new(40, AIMode::Auto);
    let f = features_with(&["php:known_china_chopper", "php:known_wso"], "php");
    let r = s.score(&f);
    assert_eq!(r.score, 100);
    assert_eq!(r.reasons.len(), 2);
}

#[test]
fn score_counts_htaccess_context() {
    let s = Scorer::new(40, AIMode::Off);
    let mut f = features_with(&[], "webshell");
    f.allowed_by_htaccess = true;
    f.disguised_ext = "js".to_string();
    let r = s.score(&f);
    assert_eq!(r.score, 55);
    assert_eq!(
        r.reasons,
        vec!["[+25] htaccess_whitelisted_file".to_string(), "[+30] disguised_extension(.js)".to_string()]
    );
    assert!(!r.escalate_to_ai);
    assert_eq!(r.verdict(), Verdict::Suspicious);
}

#[test]
fn escalation_by_mode() {
    let f = features_with(&["php:base64_decode"], "php");
    let auto = Scorer::new(40, AIMode::Auto).score(&f);
    assert_eq!(auto.score, 20);
    assert!(!auto.escalate_to_ai);
    assert_eq!(auto.verdict(), Verdict::Clean);
    let always = Scorer::new(40, AIMode::Always).score(&f);
    assert!(always.escalate_to_ai);
    let low = Scorer::new(10, AIMode::Auto).score(&f);
    assert!(low.escalate_to_ai);
}

#[test]
fn no_findings_score_zero() {
    let r = Scorer::new(40, AIMode::Auto).score(&features_with(&[], "text"));
    assert_eq!(r.score, 0);
    assert!(r.reasons.is_empty());
    assert!(!r.escalate_to_ai);
}
