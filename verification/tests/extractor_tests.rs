use malscan::extractor::{
    detect_file_type, examine, extract_iocs, extract_printable_strings, md5_hex, sha256_hex, Extractor,
};

#[test]
fn known_digests() {
    assert_eq!(md5_hex(b""), "d41d8cd98f00b204e9800998ecf8427e");
    assert_eq!(md5_hex(b"abc"), "900150983cd24fb0d6963f7d28e17f72");
    assert_eq!(
        sha256_hex(b""),
        "e3b0c44298fc1c149afbf4c8996fb92427ae41e4649b934ca495991b7852b855"
    );
    assert_eq!(
        sha256_hex(b"abc"),
        "ba7816bf8f01cfea414140de5dae2223b00361a396177a9cb410ff61f20015ad"
    );
}

#[test]
fn file_types() {
    assert_eq!(detect_file_type(b"MZ\x90\x00", "/a/x.bin"), ("pe".to_string(), "application/x-dos-executable".to_string()));
    assert_eq!(detect_file_type(b"\x7fELF\x02", "/a/x"), ("elf".to_string(), "application/x-elf".to_string()));
    assert_eq!(detect_file_type(b"<?PHP echo 1;", "/a/x.txt"), ("php".to_string(), "application/x-php".to_string()));
    assert_eq!(detect_file_type(b"<?= 1 ?>", "/a/x.txt"), ("php".to_string(), "application/x-php".to_string()));
    assert_eq!(detect_file_type(b"hello", "/a/x.PHTML"), ("php".to_string(), "application/x-php".to_string()));
    assert_eq!(detect_file_type(b"#!/bin/sh", "/a/run"), ("script".to_string(), "text/x-shellscript".to_string()));
    assert_eq!(detect_file_type(b"hello", "/a/x.txt"), ("text".to_string(), "text/plain".to_string()));
}

#[test]
fn printable_strings_are_runs_of_six() {
    let data = b"hello world\x00\x01abc\x00longer_string\x00hello world";
    assert_eq!(
        extract_printable_strings(data),
        vec!["hello world".to_string(), "longer_string".to_string()]
    );
    assert!(extract_printable_strings(b"short\x00tiny").is_empty());
}

#[test]
fn printable_strings_are_capped() {
    let mut data = Vec::new();
    for i in 0..600u32 {
        data.extend_from_slice(format!("string{:04}", i).as_bytes());
        data.push(0);
    }
    let out = extract_printable_strings(&data);
    assert_eq!(out.len(), 500);
    assert_eq!(out[0], "string0000");
    assert_eq!(out[499], "string0499");
}

#[test]
fn iocs_found_and_loopback_dropped() {
    let iocs = extract_iocs("see http://evil.example/x?a=1 and 10.0.0.5, 127.0.0.1, 0.1.2.3");
    assert_eq!(iocs.urls, vec!["http://evil.example/x?a=1".to_string()]);
    assert_eq!(iocs.ips, vec!["10.0.0.5".to_string()]);
}

#[test]
fn no_iocs_in_plain_text() {
    let iocs = extract_iocs("nothing here");
    assert!(iocs.urls.is_empty());
    assert!(iocs.ips.is_empty());
}

#[test]
fn examined_bytes_are_capped() {
    assert_eq!(examine(b"abcdef", 4), b"abcd".to_vec());
    assert_eq!(examine(b"abc", 4), b"abc".to_vec());
}

#[test]
fn extractor_default_limit() {
    assert_eq!(Extractor::new(0).max_bytes, 52428800);
    assert_eq!(Extractor::new(10).max_bytes, 10);
}

#[test]
fn extract_features_of_php_file() {
    let e = Extractor::new(0);
    let data = b"<?php echo 'hello world'; ?>";
    let f = e.extract("/w/index.php", data.len() as u64, data);
    assert_eq!(f.path, "/w/index.php");
    assert_eq!(f.size, data.len() as u64);
    assert_eq!(f.file_type, "php");
    assert_eq!(f.mime_hint, "application/x-php");
    assert_eq!(f.md5.len(), 32);
    assert_eq!(f.sha256, sha256_hex(data));
    assert_eq!(f.strings, vec!["<?php echo 'hello world'; ?>".to_string()]);
    assert!(f.signature_hits.is_empty());
    assert!(f.errors.is_empty());
}

#[test]
fn extract_hashes_only_the_examined_bytes() {
    let e = Extractor::new(3);
    let f = e.extract("/w/a.txt", 6, b"abcdef");
    assert_eq!(f.md5, md5_hex(b"abc"));
    assert_eq!(f.size, 6);
}

#[test]
fn invalid_bytes_break_printable_runs() {
    assert_eq!(
        extract_printable_strings(b"\xffabcdefg\xfehijklmn"),
        vec!["abcdefg".to_string(), "hijklmn".to_string()]
    );
}
