use malscan::model::{AIMode, FileFeatures, HeuristicResult, ScanResult, Verdict};
use malscan::scanner::{glob_match, sort_results, FileInput, Scanner};
use malscan::webshell::Policy;

fn input(path: &str, content: &[u8]) -> FileInput {
    FileInput { path: path.to_string(), content: Ok(content.to_vec()) }
}

#[test]
fn dedup_identical_sha256() {
    let data = b"<?php @eval($_POST['x']); echo base64_decode('aGVsbG8='); ?>";
    let files = vec![input("/t/a.php", data), input("/t/b.php", data)];
    let mut s = Scanner::new(AIMode::Off, 40, 0, 1, vec![], vec![], String::new());
    let plan = s.scan(&files);
    let results = plan.finish();
    assert_eq!(results.len(), 2);
    assert_eq!(results[0].features.sha256, results[1].features.sha256);
    assert_eq!(results[0].heuristic.score, results[1].heuristic.score);
    assert_eq!(plan.reps.len(), 1);
    assert_eq!(results[0].features.path, "/t/a.php");
    assert_eq!(results[1].features.path, "/t/b.php");
}

#[test]
fn empty_tree_gives_empty_plan() {
    let mut s = Scanner::new(AIMode::Off, 40, 0, 1, vec![], vec![], String::new());
    let plan = s.scan(&[]);
    assert!(plan.targets.is_empty());
    assert!(plan.finish().is_empty());
}

#[test]
fn htaccess_handler_brings_disguised_file_into_scope() {
    let files = vec![
        input("/t/.htaccess", b"AddHandler application/x-httpd-php .js\n"),
        input("/t/app.js", b"var x = 1; eval($_GET['c']);"),
        input("/t/notes.txt", b"just notes"),
    ];
    let mut s = Scanner::new(AIMode::Off, 40, 52428800, 4, vec![], vec![], String::new());
    let plan = s.scan(&files);
    assert_eq!(plan.targets, vec!["/t/.htaccess".to_string(), "/t/app.js".to_string()]);
    assert_eq!(plan.reps, vec![0, 1]);
    let results = plan.finish();
    let ht = &results[0];
    assert_eq!(ht.features.file_type, "htaccess");
    assert_eq!(ht.features.signature_hits, vec!["htaccess:php_handler_disguise(.js)".to_string()]);
    assert_eq!(ht.heuristic.score, 50);
    let js = &results[1];
    assert_eq!(js.features.file_type, "webshell");
    assert_eq!(js.features.disguised_ext, "js");
    assert_eq!(js.features.handler_name, "application/x-httpd-php");
    assert_eq!(js.features.mime_hint, "disguised/js (handler: application/x-httpd-php)");
    assert!(js.features.signature_hits.iter().any(|h| h == "php:eval_sink"));
    assert!(js.heuristic.reasons.iter().any(|r| r == "[+30] disguised_extension(.js)"));
    assert_eq!(js.final_verdict(), Verdict::Malicious);
}

#[test]
fn unreadable_file_reports_its_error() {
    let files = vec![FileInput { path: "/t/x.php".to_string(), content: Err("denied".to_string()) }];
    let mut s = Scanner::new(AIMode::Off, 40, 0, 1, vec![], vec![], String::new());
    let plan = s.scan(&files);
    assert!(plan.targets.is_empty());
    let policy = Policy::new(&[]);
    let r = s.scan_file(&files[0], &policy);
    assert_eq!(r.features.errors, vec!["read failed: denied".to_string()]);
    assert_eq!(r.heuristic.score, 0);
    assert_eq!(s.file_hash(&files[0]), "err:/t/x.php");
}

#[test]
fn globs() {
    assert!(glob_match("*.log", "error.log"));
    assert!(!glob_match("*.log", "error.txt"));
    assert!(glob_match("test", "test"));
    assert!(!glob_match("test", "test2"));
    assert!(glob_match("a*c", "abc"));
    assert!(!glob_match("a*c", "xabc"));
    assert!(glob_match("*", ""));
    assert!(!glob_match("a*a", "a"));
}

#[test]
fn exclusions() {
    let s = Scanner::new(
        AIMode::Off,
        40,
        0,
        0,
        vec!["*.log".to_string(), "vendor".to_string()],
        vec![],
        String::new(),
    );
    assert_eq!(s.workers, 4);
    assert!(s.is_excluded("/w/vendor"));
    assert!(s.is_excluded("/w/x.log"));
    assert!(!s.is_excluded("/w/x.php"));
    assert!(!s.keeps_walked("/w/.malscan/summary.json"));
    assert!(!s.keeps_walked("/w/x.log"));
    assert!(s.keeps_walked("/w/x.php"));
}

fn result(path: &str, score: i32) -> ScanResult {
    ScanResult {
        features: FileFeatures::blank(path.to_string()),
        heuristic: HeuristicResult { score, reasons: vec![], escalate_to_ai: false },
        ai_verdict: None,
    }
}

#[test]
fn results_sorted_by_path() {
    let mut rs = vec![result("/b", 1), result("/a/z", 2), result("/a", 3), result("/B", 4)];
    sort_results(&mut rs);
    let paths: Vec<&str> = rs.iter().map(|r| r.features.path.as_str()).collect();
    assert_eq!(paths, vec!["/B", "/a", "/a/z", "/b"]);
    assert_eq!(rs[1].heuristic.score, 3);
}

#[test]
fn zero_byte_limit_hashes_nothing() {
    let files = vec![input("/t/a.php", b"<?php echo 1; ?>"), input("/t/b.php", b"<?php echo 2; ?>")];
    let mut s = Scanner::new(AIMode::Off, 40, 0, 1, vec![], vec![], String::new());
    let plan = s.scan(&files);
    assert_eq!(plan.hashes[0], plan.hashes[1]);
    assert_eq!(plan.reps, vec![0]);
    assert_eq!(plan.target_rep, vec![0, 0]);
}

#[test]
fn htaccess_that_is_not_utf8_is_ignored() {
    let files = vec![
        input("/t/.htaccess", b"AddHandler application/x-httpd-php .js\n\xff\n"),
        input("/t/app.js", b"var x = 1;"),
    ];
    let mut s = Scanner::new(AIMode::Off, 40, 52428800, 1, vec![], vec![], String::new());
    let plan = s.scan(&files);
    assert_eq!(plan.targets, vec!["/t/.htaccess".to_string()]);
    assert!(s.policy.disguised_ext.is_empty());
}

#[test]
fn equal_paths_keep_their_order() {
    let mut rs = vec![result("/b", 1), result("/a", 2), result("/b", 3), result("/a", 4), result("/b", 5)];
    sort_results(&mut rs);
    let got: Vec<(&str, i32)> = rs.iter().map(|r| (r.features.path.as_str(), r.heuristic.score)).collect();
    assert_eq!(got, vec![("/a", 2), ("/a", 4), ("/b", 1), ("/b", 3), ("/b", 5)]);
}
