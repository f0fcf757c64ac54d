use malscan::ai::{
    api_error_verdict, no_error_yet, request_failed_verdict, retries_exhausted_verdict, retry_error,
    unconfigured_verdict,
};
use malscan::extractor::{file_type_from, reportable_ips};
use malscan::htaccess::{names_htaccess, parse};
use malscan::model::Verdict;
use malscan::signature::findings_from_matches;
use malscan::webshell::{has_php_marker, Policy};

#[test]
fn reportable_addresses() {
    let found = vec!["10.0.0.5".to_string(), "127.0.0.1".to_string(), "0.1.2.3".to_string(), "8.8.8.8".to_string()];
    assert_eq!(reportable_ips(&found), vec!["10.0.0.5".to_string(), "8.8.8.8".to_string()]);
}

#[test]
fn findings_from_match_results() {
    let mut ms = vec![false; 15];
    ms[0] = true;
    ms[6] = true;
    let cs = vec![true, false, true];
    let hits = findings_from_matches(&ms, true, true, &cs);
    assert_eq!(
        hits,
        vec![
            "php:eval_sink",
            "php:base64_decode",
            "php:superglobal_input",
            "php:eval_input",
            "php:obf_eval_chain_0",
            "php:obf_eval_chain_2",
        ]
        .into_iter()
        .map(String::from)
        .collect::<Vec<_>>()
    );
    assert!(findings_from_matches(&vec![false; 15], false, false, &vec![false; 3]).is_empty());
}

#[test]
fn lowered_names_and_markers() {
    assert!(names_htaccess(".htaccess"));
    assert!(names_htaccess("old.htaccess"));
    assert!(!names_htaccess("htaccess"));
    assert!(has_php_marker("x <?php"));
    assert!(has_php_marker("<% a"));
    assert!(!has_php_marker("<?xml"));
}

#[test]
fn scan_decisions_on_read_values() {
    let p = Policy::new(&[parse("<Files a.dat>\n")]);
    assert!(p.decide_scan(true, "x", None, false));
    assert!(p.decide_scan(false, "a.dat", Some("dat"), false));
    assert!(p.decide_scan(false, "b.php", Some("php"), false));
    assert!(!p.decide_scan(false, "b.txt", Some("txt"), false));
    assert!(p.decide_scan(false, "b.txt", Some("txt"), true));
    assert!(!p.decide_scan(false, "makefile", None, false));
}

#[test]
fn file_types_from_read_values() {
    assert_eq!(file_type_from(b"MZ", "mz", ""), ("pe".to_string(), "application/x-dos-executable".to_string()));
    assert_eq!(file_type_from(b"<?PHP", "<?php", "txt"), ("php".to_string(), "application/x-php".to_string()));
    assert_eq!(file_type_from(b"hi", "hi", "phtml"), ("php".to_string(), "application/x-php".to_string()));
    assert_eq!(file_type_from(b"#!x", "#!x", "sh"), ("script".to_string(), "text/x-shellscript".to_string()));
    assert_eq!(file_type_from(b"hi", "hi", "txt"), ("text".to_string(), "text/plain".to_string()));
}

#[test]
fn failure_verdicts() {
    let v = unconfigured_verdict();
    assert_eq!(v.verdict, Verdict::Suspicious);
    assert_eq!(v.error, "FIREWORKS_API_KEY not configured");
    assert_eq!(no_error_yet(), "unknown error");
    assert_eq!(retry_error("503 Service Unavailable", &"x".repeat(250)), format!("HTTP 503 Service Unavailable: {}", "x".repeat(200)));
    assert_eq!(request_failed_verdict("timeout").error, "request failed: timeout");
    assert_eq!(api_error_verdict("404 Not Found", "gone").reasoning, "API error HTTP 404 Not Found: gone");
    assert_eq!(retries_exhausted_verdict("HTTP 429").error, "max retries exceeded: HTTP 429");
}

#[test]
fn blank_and_comment_lines_change_nothing() {
    let plain = "AddHandler application/x-httpd-php .js\n<Files a.php>\n";
    let noisy = "# head\n\n   \nAddHandler application/x-httpd-php .js\n  # mid\n\n<Files a.php>\n# tail\n";
    let a = parse(plain);
    let b = parse(noisy);
    assert_eq!(a.handler_extensions, b.handler_extensions);
    assert_eq!(a.regex_extensions, b.regex_extensions);
    assert_eq!(a.allowed_files, b.allowed_files);
    assert_eq!(a.hits, b.hits);
}
