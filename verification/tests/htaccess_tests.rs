use malscan::htaccess::{default_extension_list, extract_extensions_from_pattern, is_htaccess_file, parse};

#[test]
fn readme_htaccess_scenario() {
    let content = "<FilesMatch \"(?i).*(shtml|php|phar|phtml|pht).*\"> ... </FilesMatch>\n<Files jsws2.php> Allow from all </Files>\nAddHandler application/x-httpd-php .js\n";
    let cfg = parse(content);
    assert_eq!(
        cfg.handler_extensions,
        vec![("js".to_string(), "application/x-httpd-php".to_string())]
    );
    assert_eq!(
        cfg.regex_extensions,
        vec!["shtml", "php", "phar", "phtml", "pht"]
            .into_iter()
            .map(String::from)
            .collect::<Vec<_>>()
    );
    assert_eq!(cfg.allowed_files, vec!["jsws2.php".to_string()]);
    assert_eq!(
        cfg.hits,
        vec![
            "htaccess:allowed_php_file(jsws2.php)".to_string(),
            "htaccess:php_handler_disguise(.js)".to_string(),
        ]
    );
}

#[test]
fn ssi_handler_gives_both_findings() {
    let cfg = parse("AddHandler server-parsed .shtml\n");
    assert_eq!(cfg.handler_extensions, vec![("shtml".to_string(), "server-parsed".to_string())]);
    assert_eq!(
        cfg.hits,
        vec![
            "htaccess:php_handler_disguise(.shtml)".to_string(),
            "htaccess:ssi_handler_disguise(.shtml)".to_string(),
        ]
    );
}

#[test]
fn comments_and_blank_lines_are_ignored() {
    let cfg = parse("# AddHandler application/x-httpd-php .js\n\n   \n");
    assert!(cfg.handler_extensions.is_empty());
    assert!(cfg.hits.is_empty());
    assert!(cfg.allowed_files.is_empty());
    assert!(cfg.regex_extensions.is_empty());
}

#[test]
fn non_php_handler_is_ignored() {
    let cfg = parse("AddHandler cgi-script .cgi\n");
    assert!(cfg.handler_extensions.is_empty());
    assert!(cfg.hits.is_empty());
}

#[test]
fn handler_extension_is_lowercased_and_last_handler_wins() {
    let cfg = parse("AddHandler application/x-httpd-php .JS\naddhandler lsphp .js\n");
    assert_eq!(cfg.handler_extensions, vec![("js".to_string(), "lsphp".to_string())]);
    assert_eq!(cfg.hits, vec!["htaccess:php_handler_disguise(.js)".to_string()]);
}

#[test]
fn files_block_with_non_php_name_gives_no_finding() {
    let cfg = parse("<Files \"robots.txt\">\n");
    assert_eq!(cfg.allowed_files, vec!["robots.txt".to_string()]);
    assert!(cfg.hits.is_empty());
}

#[test]
fn pattern_extensions() {
    assert_eq!(
        extract_extensions_from_pattern("\\.(PHP|phtml|php)$"),
        vec!["php".to_string(), "phtml".to_string()]
    );
    assert_eq!(
        extract_extensions_from_pattern("(abcdefghijk|js)"),
        vec!["js".to_string()]
    );
    assert!(extract_extensions_from_pattern("no groups here").is_empty());
}

#[test]
fn htaccess_file_names() {
    assert!(is_htaccess_file("/var/www/.htaccess"));
    assert!(is_htaccess_file("/var/www/.HTACCESS"));
    assert!(is_htaccess_file("/var/www/site.htaccess"));
    assert!(!is_htaccess_file("/var/www/htaccess.txt"));
    assert!(!is_htaccess_file("/var/www/index.php"));
}

#[test]
fn default_extensions_are_listed() {
    let exts = default_extension_list();
    assert_eq!(
        exts,
        vec!["shtml", "php", "phar", "phtml", "pht", "php3", "php4", "php5", "php7", "phtm", "inc"]
            .into_iter()
            .map(String::from)
            .collect::<Vec<_>>()
    );
}
