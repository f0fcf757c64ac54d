use malscan::model::FileFeatures;
use malscan::signature::{has_webshell_indicators, is_php_content, scan_php, scan_webshell};

#[test]
fn obf_eval_chain_detected() {
    let content = r#"<?php eval(base64_decode("ZXZhbCgkX1BPU1RbJ3gnXSk7")); ?>"#;
    let hits = scan_php(content.as_bytes(), content);
    assert!(hits.iter().any(|h| h == "php:obf_eval_chain_0"));
}

#[test]
fn scan_php_lists_findings_in_pattern_order() {
    let content = r#"<?php eval(base64_decode("ZXZhbCgkX1BPU1RbJ3gnXSk7")); ?>"#;
    let hits = scan_php(content.as_bytes(), content);
    assert_eq!(
        hits,
        vec![
            "php:eval_sink".to_string(),
            "php:base64_decode".to_string(),
            "php:obfuscated_eval".to_string(),
            "php:obf_eval_chain_0".to_string(),
        ]
    );
}

#[test]
fn scan_php_china_chopper_and_input() {
    let content = "<?php @eval($_POST['x']); ?>";
    let hits = scan_php(content.as_bytes(), content);
    assert!(hits.iter().any(|h| h == "php:known_china_chopper"));
    assert!(hits.iter().any(|h| h == "php:superglobal_input"));
    assert!(hits.iter().any(|h| h == "php:eval_input"));
    assert!(hits.iter().any(|h| h == "php:eval_sink"));
}

#[test]
fn scan_php_reads_raw_when_text_empty() {
    let raw = b"<?php system($cmd); ?>";
    let hits = scan_php(raw, "");
    assert_eq!(hits, vec!["php:system_sink".to_string()]);
}

#[test]
fn scan_php_clean_text_has_no_findings() {
    let content = "hello world, nothing to see";
    let hits = scan_php(content.as_bytes(), content);
    assert!(hits.is_empty());
}

#[test]
fn php_content_detection() {
    assert!(is_php_content(b"<?php echo 1;"));
    assert!(is_php_content(b"<?= $x ?>"));
    assert!(is_php_content(b"header\n<?php echo 1;"));
    assert!(!is_php_content(b"<?ph"));
    assert!(!is_php_content(b"hello world"));
}

#[test]
fn webshell_indicators() {
    assert!(has_webshell_indicators("x = $_POST['a'];"));
    assert!(has_webshell_indicators("EVAL($code)"));
    assert!(!has_webshell_indicators("plain text"));
}

#[test]
fn scan_webshell_on_htaccess_returns_its_findings() {
    let mut f = FileFeatures::blank("/site/.htaccess".to_string());
    f.file_type = "htaccess".to_string();
    let raw = b"AddHandler application/x-httpd-php .js\n";
    let hits = scan_webshell(&f, raw);
    assert_eq!(hits, vec!["htaccess:php_handler_disguise(.js)".to_string()]);
}

#[test]
fn scan_webshell_skips_plain_text() {
    let f = FileFeatures::blank("/site/readme.txt".to_string());
    let hits = scan_webshell(&f, b"just some notes");
    assert!(hits.is_empty());
}
