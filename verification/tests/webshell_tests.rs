use malscan::htaccess::parse;
use malscan::webshell::{looks_like_php, Policy};

#[test]
fn default_policy_scans_php_and_skips_other_files() {
    let p = Policy::new(&[]);
    assert!(p.should_scan("/w/index.php", b""));
    assert!(p.should_scan("/w/page.PHTML", b""));
    assert!(!p.should_scan("/w/app.js", b"var x = 1;"));
    assert!(!p.should_scan("/w/notes.txt", b"plain notes"));
    assert!(!p.should_scan("/w/Makefile", b"all: build"));
}

#[test]
fn htaccess_files_are_always_scanned() {
    let p = Policy::new(&[]);
    assert!(p.should_scan("/w/.htaccess", b""));
}

#[test]
fn php_content_is_scanned_whatever_the_extension() {
    let p = Policy::new(&[]);
    assert!(p.should_scan("/w/readme.txt", b"<?php echo 1; ?>"));
    assert!(p.should_scan("/w/image.jpg", b"GIF89a <?= $x ?>"));
}

#[test]
fn handler_mapping_brings_extension_into_scope() {
    let cfg = parse("AddHandler application/x-httpd-php .js\n<Files jsws2.php>\n");
    let p = Policy::new(&[cfg]);
    assert!(p.should_scan("/w/app.js", b"var x = 1;"));
    assert!(p.should_scan("/w/APP.JS", b"var x = 1;"));
    assert_eq!(p.handler_for("js"), Some("application/x-httpd-php".to_string()));
    assert!(p.has_disguised("js"));
    assert_eq!(p.allowed_files, vec!["jsws2.php".to_string()]);
    assert_eq!(
        p.htaccess_hits,
        vec![
            "htaccess:php_handler_disguise(.js)".to_string(),
            "htaccess:allowed_php_file(jsws2.php)".to_string(),
        ]
    );
}

#[test]
fn allowed_file_is_scanned() {
    let cfg = parse("<Files Secret.DAT>\n");
    let p = Policy::new(&[cfg]);
    assert!(p.should_scan("/w/secret.dat", b"nothing"));
}

#[test]
fn extra_extensions_are_normalized() {
    let p = Policy::new(&[]).with_extra_extensions(&[" .TXT ".to_string(), "".to_string(), "js".to_string()]);
    assert!(p.should_scan("/w/notes.txt", b"plain"));
    assert!(p.should_scan("/w/app.js", b"plain"));
    assert!(p.extensions.contains(&"txt".to_string()));
    assert!(p.extensions.contains(&"php".to_string()));
}

#[test]
fn merge_adds_configuration() {
    let mut p = Policy::new(&[]);
    let cfg = parse("<FilesMatch \"(asp|aspx)\">\n");
    p.merge(&cfg);
    assert!(p.should_scan("/w/x.aspx", b""));
    assert!(!p.should_scan("/w/x.jsp", b""));
}

#[test]
fn php_looking_content() {
    assert!(looks_like_php(b"<?= 1 ?>"));
    assert!(looks_like_php(b"<% x %>"));
    assert!(looks_like_php(b"hello <? echo"));
    assert!(looks_like_php(b"xx <?PHP"));
    assert!(!looks_like_php(b"abcd"));
    assert!(!looks_like_php(b"hello world"));
}
