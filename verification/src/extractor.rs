//! The static features of a file's bytes: digests, file type, printable strings
//! and indicators of compromise.
use vstd::prelude::*;
use crate::htaccess::{append_unique};
use crate::matching::{regex_all_matches, regex_find_all};
use crate::model::{FeaturesModel, FileFeatures, Iocs};
use crate::paths::{ext_name, ext_name_of};
use crate::text::{
    append_unique_seq, byte_prefix, chars_of, concat3, copy_str, decode_lossy, join_seq, join_strings,
    lossy_utf8, str_eq, str_starts_with, string_of, slice_chars, to_lower, unicode_lower, views,
};

verus! {

/// The MD5 digest `md5::Md5::digest` computes for the bytes.
pub uninterp spec fn md5_of(data: Seq<u8>) -> Seq<u8>;

/// The SHA-256 digest `sha2::Sha256::digest` computes for the bytes.
pub uninterp spec fn sha256_of(data: Seq<u8>) -> Seq<u8>;

/// Calls `Md5::digest` (crate `md-5`); the 16 bytes it returns are named `md5_of` of the input.
#[verifier::external_body]
fn md5_digest(data: &[u8]) -> (r: Vec<u8>)
    ensures
        r@ == md5_of(data@),
        r@.len() == 16,
{
    <md5::Md5 as md5::Digest>::digest(data).to_vec()
}

/// Calls `Sha256::digest` (crate `sha2`); the 32 bytes it returns are named `sha256_of` of the input.
#[verifier::external_body]
fn sha256_digest(data: &[u8]) -> (r: Vec<u8>)
    ensures
        r@ == sha256_of(data@),
        r@.len() == 32,
{
    <sha2::Sha256 as sha2::Digest>::digest(data).to_vec()
}

pub open spec fn hex_digit(d: int) -> char {
    if d < 10 {
        (('0' as int) + d) as char
    } else {
        (('a' as int) + d - 10) as char
    }
}

/// Two lowercase hexadecimal digits per byte (`format!("{:x}", digest)`).
pub open spec fn hex_lower(b: Seq<u8>) -> Seq<char>
    decreases b.len(),
{
    if b.len() == 0 {
        Seq::empty()
    } else {
        hex_lower(b.drop_last()).push(hex_digit(b.last() as int / 16)).push(
            hex_digit(b.last() as int % 16),
        )
    }
}

fn hex_digit_exec(d: u8) -> (c: char)
    requires
        d < 16,
    ensures
        c == hex_digit(d as int),
{
    if d < 10 {
        (48 + d) as char
    } else {
        (87 + d) as char
    }
}

pub fn hex_string(b: &Vec<u8>) -> (r: String)
    ensures
        r@ == hex_lower(b@),
        r@.len() == 2 * b@.len(),
{
    let mut out = String::new();
    let mut i: usize = 0;
    while i < b.len()
        invariant
            i <= b@.len(),
            out@ == hex_lower(b@.take(i as int)),
            out@.len() == 2 * i,
        decreases b@.len() - i,
    {
        let x = b[i];
        out.push(hex_digit_exec(x / 16));
        out.push(hex_digit_exec(x % 16));
        assert(b@.take(i + 1).drop_last() =~= b@.take(i as int));
        i = i + 1;
    }
    assert(b@.take(b@.len() as int) =~= b@);
    out
}

/// The lowercase hexadecimal MD5 digest of the bytes.
pub fn md5_hex(data: &[u8]) -> (r: String)
    ensures
        r@ == hex_lower(md5_of(data@)),
        r@.len() == 32,
{
    hex_string(&md5_digest(data))
}

/// The lowercase hexadecimal SHA-256 digest of the bytes.
pub fn sha256_hex(data: &[u8]) -> (r: String)
    ensures
        r@ == hex_lower(sha256_of(data@)),
        r@.len() == 64,
{
    hex_string(&sha256_digest(data))
}

/// The file type and MIME hint of a file: Windows and ELF executables by their
/// magic bytes, PHP by its opening tag or its extension, scripts by `#!`, text otherwise.
pub open spec fn file_type_of(data: Seq<u8>, path: Seq<char>) -> (Seq<char>, Seq<char>) {
    let n = if data.len() < 512 {
        data.len() as int
    } else {
        512
    };
    file_type_with(data, unicode_lower(lossy_utf8(data.subrange(0, n))), unicode_lower(ext_name(path)))
}

/// The file type and MIME hint from the bytes, their first 512 decoded and
/// lowercased, and the lowercased extension: PE and ELF by their magic bytes, then
/// PHP by its opening tag or extension, then scripts by `#!`, else text.
pub open spec fn file_type_with(data: Seq<u8>, prefix: Seq<char>, ext: Seq<char>) -> (Seq<char>, Seq<char>) {
    if data.len() >= 2 && data[0] == 0x4D && data[1] == 0x5A {
        ("pe"@, "application/x-dos-executable"@)
    } else if data.len() >= 4 && data[0] == 0x7F && data[1] == 0x45 && data[2] == 0x4C && data[3]
        == 0x46 {
        ("elf"@, "application/x-elf"@)
    } else if "<?php"@.is_prefix_of(prefix) || "<?="@.is_prefix_of(prefix) {
        ("php"@, "application/x-php"@)
    } else if ext == "php"@ || ext == "phtml"@ {
        ("php"@, "application/x-php"@)
    } else if data.len() >= 2 && data[0] == 0x23 && data[1] == 0x21 {
        ("script"@, "text/x-shellscript"@)
    } else {
        ("text"@, "text/plain"@)
    }
}

pub fn detect_file_type(data: &[u8], path: &str) -> (r: (String, String))
    ensures
        (r.0@, r.1@) == file_type_of(data@, path@),
{
    let n: usize = if data.len() < 512 {
        data.len()
    } else {
        512
    };
    let prefix = to_lower(decode_lossy(byte_prefix(data, n).as_slice()).as_str());
    let ext = to_lower(ext_name_of(path).as_str());
    file_type_from(data, prefix.as_str(), ext.as_str())
}

/// The file type and MIME hint from what was read of a file (see [`file_type_with`]).
pub fn file_type_from(data: &[u8], prefix_lower: &str, ext_lower: &str) -> (r: (String, String))
    ensures
        (r.0@, r.1@) == file_type_with(data@, prefix_lower@, ext_lower@),
{
    if data.len() >= 2 && data[0] == 0x4D && data[1] == 0x5A {
        return (copy_str("pe"), copy_str("application/x-dos-executable"));
    }
    if data.len() >= 4 && data[0] == 0x7F && data[1] == 0x45 && data[2] == 0x4C && data[3] == 0x46 {
        return (copy_str("elf"), copy_str("application/x-elf"));
    }
    if str_starts_with(prefix_lower, "<?php") || str_starts_with(prefix_lower, "<?=") {
        return (copy_str("php"), copy_str("application/x-php"));
    }
    if str_eq(ext_lower, "php") || str_eq(ext_lower, "phtml") {
        return (copy_str("php"), copy_str("application/x-php"));
    }
    if data.len() >= 2 && data[0] == 0x23 && data[1] == 0x21 {
        return (copy_str("script"), copy_str("text/x-shellscript"));
    }
    (copy_str("text"), copy_str("text/plain"))
}

/// A printable ASCII character, space to tilde.
pub open spec fn printable(c: char) -> bool {
    0x20 <= c as u32 <= 0x7E
}

pub open spec fn printable_end(s: Seq<char>, i: int) -> int
    decreases s.len() - i,
{
    if 0 <= i < s.len() && printable(s[i]) {
        printable_end(s, i + 1)
    } else {
        i
    }
}

proof fn lemma_printable_end(s: Seq<char>, i: int)
    requires
        0 <= i <= s.len(),
    ensures
        i <= printable_end(s, i) <= s.len(),
        i < s.len() && printable(s[i]) ==> printable_end(s, i) > i,
    decreases s.len() - i,
{
    if i < s.len() && printable(s[i]) {
        lemma_printable_end(s, i + 1);
    }
}

/// The maximal runs of at least six printable characters from index `i` on: the
/// successive matches of `[\x20-\x7e]{6,}`.
pub open spec fn printable_runs(s: Seq<char>, i: int) -> Seq<Seq<char>>
    decreases s.len() - i,
{
    if i < 0 || i >= s.len() {
        Seq::empty()
    } else if !printable(s[i]) {
        printable_runs(s, i + 1)
    } else {
        let e = printable_end(s, i);
        if e <= i || e > s.len() {
            Seq::empty()
        } else if e - i >= 6 {
            seq![s.subrange(i, e)] + printable_runs(s, e)
        } else {
            printable_runs(s, e)
        }
    }
}

/// `acc` extended by the strings of `xs` not yet in it, until it holds `cap` of them.
pub open spec fn cap_unique(acc: Seq<Seq<char>>, xs: Seq<Seq<char>>, cap: int) -> Seq<Seq<char>>
    decreases xs.len(),
{
    if acc.len() >= cap || xs.len() == 0 {
        acc
    } else {
        cap_unique(append_unique_seq(acc, xs[0]), xs.drop_first(), cap)
    }
}

/// The printable strings of a file: the distinct runs of its decoded text, in
/// order, at most 500.
pub open spec fn printable_strings_spec(data: Seq<u8>) -> Seq<Seq<char>> {
    cap_unique(Seq::empty(), printable_runs(lossy_utf8(data), 0), 500)
}

pub fn extract_printable_strings(data: &[u8]) -> (r: Vec<String>)
    ensures
        views(r@) == printable_strings_spec(data@),
        r@.len() <= 500,
{
    let text = decode_lossy(data);
    let s = chars_of(text.as_str());
    let mut out: Vec<String> = Vec::new();
    let mut i: usize = 0;
    assert(views(out@) =~= Seq::<Seq<char>>::empty());
    while i < s.len() && out.len() < 500
        invariant
            i <= s@.len(),
            s@ == lossy_utf8(data@),
            out@.len() <= 500,
            cap_unique(views(out@), printable_runs(s@, i as int), 500) == printable_strings_spec(
                data@,
            ),
        decreases s@.len() - i,
    {
        let c = s[i];
        let cu = c as u32;
        if !(0x20 <= cu && cu <= 0x7E) {
            i = i + 1;
        } else {
            let mut e = i;
            while e < s.len() && 0x20 <= (s[e] as u32) && (s[e] as u32) <= 0x7E
                invariant
                    i <= e <= s@.len(),
                    out@.len() < 500,
                    printable_end(s@, e as int) == printable_end(s@, i as int),
                decreases s@.len() - e,
            {
                e = e + 1;
            }
            proof {
                lemma_printable_end(s@, i as int);
            }
            if e - i >= 6 {
                let run = string_of(&slice_chars(&s, i, e));
                let ghost before = views(out@);
                let ghost old_len = out@.len();
                proof {
                    let rest = printable_runs(s@, e as int);
                    assert((seq![run@] + rest)[0] == run@);
                    assert((seq![run@] + rest).drop_first() =~= rest);
                }
                append_unique(&mut out, run);
                assert(views(out@).len() == out@.len());
                assert(before.len() == old_len);
            }
            i = e;
        }
    }
    proof {
        if i >= s@.len() {
            assert(printable_runs(s@, i as int) =~= Seq::<Seq<char>>::empty());
        }
    }
    out
}

/// The web-address pattern.
pub open spec fn url_pattern() -> Seq<char> {
    r#"(?i)https?://[^\s<>"'{}|\\^`\[\]]+"#@
}

/// The IPv4-address pattern.
pub open spec fn ip_pattern() -> Seq<char> {
    r"\b(?:(?:25[0-5]|2[0-4]\d|[01]?\d?\d)\.){3}(?:25[0-5]|2[0-4]\d|[01]?\d?\d)\b"@
}

pub open spec fn found_or_none(r: Option<Seq<Seq<char>>>) -> Seq<Seq<char>> {
    match r {
        Some(v) => v,
        None => Seq::empty(),
    }
}

/// An address worth reporting: neither loopback `127.0.0.1` nor in `0.0.0.0/8`.
pub open spec fn reportable_ip(ip: Seq<char>) -> bool {
    ip != "127.0.0.1"@ && !"0."@.is_prefix_of(ip)
}

/// The indicators found in a text: every web address, and every reportable IPv4 address.
pub open spec fn iocs_spec(text: Seq<char>) -> (Seq<Seq<char>>, Seq<Seq<char>>) {
    (
        found_or_none(regex_all_matches(url_pattern(), text)),
        found_or_none(regex_all_matches(ip_pattern(), text)).filter(|ip: Seq<char>| reportable_ip(ip)),
    )
}

/// The addresses worth reporting, in order: all but the loopback address and those
/// in `0.0.0.0/8`.
pub fn reportable_ips(found: &Vec<String>) -> (r: Vec<String>)
    ensures
        views(r@) == views(found@).filter(|ip: Seq<char>| reportable_ip(ip)),
{
    let ghost all = views(found@);
    let mut ips: Vec<String> = Vec::new();
    let mut i: usize = 0;
    while i < found.len()
        invariant
            i <= found@.len(),
            all == views(found@),
            views(ips@) == all.take(i as int).filter(|ip: Seq<char>| reportable_ip(ip)),
        decreases found@.len() - i,
    {
        let ip = &found[i];
        proof {
            reveal(Seq::filter);
            assert(all.take(i + 1).drop_last() =~= all.take(i as int));
            assert(all.take(i + 1).last() == ip@);
        }
        if !str_eq(ip.as_str(), "127.0.0.1") && !str_starts_with(ip.as_str(), "0.") {
            let ghost before = views(ips@);
            ips.push(ip.clone());
            assert(views(ips@) =~= before.push(ip@));
        }
        i = i + 1;
    }
    assert(all.take(found@.len() as int) =~= all);
    ips
}

pub fn extract_iocs(text: &str) -> (r: Iocs)
    ensures
        (views(r.urls@), views(r.ips@)) == iocs_spec(text@),
{
    let urls = match regex_find_all(r#"(?i)https?://[^\s<>"'{}|\\^`\[\]]+"#, text) {
        Some(v) => v,
        None => {
            let v: Vec<String> = Vec::new();
            assert(views(v@) =~= Seq::<Seq<char>>::empty());
            v
        },
    };
    let found = match regex_find_all(
        r"\b(?:(?:25[0-5]|2[0-4]\d|[01]?\d?\d)\.){3}(?:25[0-5]|2[0-4]\d|[01]?\d?\d)\b",
        text,
    ) {
        Some(v) => v,
        None => {
            let v: Vec<String> = Vec::new();
            assert(views(v@) =~= Seq::<Seq<char>>::empty());
            v
        },
    };
    let ips = reportable_ips(&found);
    Iocs { urls, ips }
}

/// Reads the static features of files.
pub struct Extractor {
    /// How many leading bytes of a file are examined; always positive.
    pub max_bytes: u64,
}

/// The leading bytes of a file that are examined.
pub open spec fn examined(data: Seq<u8>, max_bytes: u64) -> Seq<u8> {
    if data.len() > max_bytes {
        data.subrange(0, max_bytes as int)
    } else {
        data
    }
}

/// The text the indicators are sought in: the printable strings joined by newlines,
/// then, for fewer than 1 MiB of examined bytes, a newline and the decoded bytes.
pub open spec fn ioc_text(strings: Seq<Seq<char>>, data: Seq<u8>) -> Seq<char> {
    if data.len() < 1048576 {
        join_seq(strings, "\n"@) + "\n"@ + lossy_utf8(data)
    } else {
        join_seq(strings, "\n"@)
    }
}

/// The features of a file at `path` of `size` bytes whose content is `data`.
pub open spec fn features_of(path: Seq<char>, size: u64, data: Seq<u8>, max_bytes: u64) -> FeaturesModel {
    let d = examined(data, max_bytes);
    let strings = printable_strings_spec(d);
    let (urls, ips) = iocs_spec(ioc_text(strings, d));
    FeaturesModel {
        path,
        size,
        md5: hex_lower(md5_of(d)),
        sha256: hex_lower(sha256_of(d)),
        file_type: file_type_of(d, path).0,
        mime_hint: file_type_of(d, path).1,
        strings,
        urls,
        ips,
        signature_hits: Seq::empty(),
        disguised_ext: Seq::empty(),
        handler_name: Seq::empty(),
        allowed_by_htaccess: false,
        errors: Seq::empty(),
    }
}

impl Extractor {
    /// An extractor; a limit of zero means 50 MiB.
    pub fn new(max_bytes: u64) -> (e: Extractor)
        ensures
            e.max_bytes == (if max_bytes == 0 { 52428800 } else { max_bytes }),
    {
        Extractor { max_bytes: if max_bytes == 0 { 52428800 } else { max_bytes } }
    }

    /// The features of the file at `path` (already made absolute), whose size is
    /// `size` and whose bytes are `data`.
    pub fn extract(&self, path: &str, size: u64, data: &[u8]) -> (f: FileFeatures)
        ensures
            f@ == features_of(path@, size, data@, self.max_bytes),
    {
        let d = examine(data, self.max_bytes);
        let md5 = md5_hex(d.as_slice());
        let sha256 = sha256_hex(d.as_slice());
        let (file_type, mime_hint) = detect_file_type(d.as_slice(), path);
        let strings = extract_printable_strings(d.as_slice());
        let joined = join_strings(&strings, "\n");
        let combined = if d.len() < 1048576 {
            let text = decode_lossy(d.as_slice());
            concat3(joined.as_str(), "\n", text.as_str())
        } else {
            joined
        };
        let iocs = extract_iocs(combined.as_str());
        let f = FileFeatures {
            path: copy_str(path),
            size,
            md5,
            sha256,
            file_type,
            mime_hint,
            strings,
            iocs,
            signature_hits: Vec::new(),
            disguised_ext: String::new(),
            handler_name: String::new(),
            allowed_by_htaccess: false,
            errors: Vec::new(),
        };
        assert(f@ =~= features_of(path@, size, data@, self.max_bytes));
        f
    }
}

/// The examined leading bytes of `data`.
pub fn examine(data: &[u8], max_bytes: u64) -> (r: Vec<u8>)
    ensures
        r@ == examined(data@, max_bytes),
{
    let n: usize = if data.len() as u64 > max_bytes {
        max_bytes as usize
    } else {
        data.len()
    };
    let r = byte_prefix(data, n);
    assert(n as int == data@.len() ==> r@ =~= data@);
    r
}

/// The MD5 and SHA-256 hexadecimal digests always have 32 and 64 characters.
pub proof fn law_digest_lengths(path: Seq<char>, size: u64, data: Seq<u8>, max_bytes: u64)
    requires
        md5_of(examined(data, max_bytes)).len() == 16,
        sha256_of(examined(data, max_bytes)).len() == 32,
    ensures
        features_of(path, size, data, max_bytes).md5.len() == 32,
        features_of(path, size, data, max_bytes).sha256.len() == 64,
{
    lemma_hex_len(md5_of(examined(data, max_bytes)));
    lemma_hex_len(sha256_of(examined(data, max_bytes)));
}

pub proof fn lemma_hex_len(b: Seq<u8>)
    ensures
        hex_lower(b).len() == 2 * b.len(),
    decreases b.len(),
{
    if b.len() > 0 {
        lemma_hex_len(b.drop_last());
    }
}

/// No two printable strings are equal, there are at most 500, and each is a run of
/// at least six printable characters.
pub proof fn law_printable_strings(data: Seq<u8>)
    ensures
        printable_strings_spec(data).no_duplicates(),
        printable_strings_spec(data).len() <= 500,
        forall|i: int|
            0 <= i < printable_strings_spec(data).len() ==> (#[trigger] printable_strings_spec(
                data,
            )[i]).len() >= 6,
{
    let s = lossy_utf8(data);
    lemma_runs_long(s, 0);
    lemma_cap_unique(Seq::empty(), printable_runs(s, 0), 500);
}

proof fn lemma_runs_long(s: Seq<char>, i: int)
    ensures
        forall|k: int|
            0 <= k < printable_runs(s, i).len() ==> (#[trigger] printable_runs(s, i)[k]).len() >= 6,
    decreases s.len() - i,
{
    if 0 <= i < s.len() {
        if !printable(s[i]) {
            lemma_runs_long(s, i + 1);
            assert(printable_runs(s, i) == printable_runs(s, i + 1));
        } else {
            lemma_printable_end(s, i);
            let e = printable_end(s, i);
            lemma_runs_long(s, e);
            if e > i && e - i >= 6 {
                let r = printable_runs(s, i);
                assert(r == seq![s.subrange(i, e)] + printable_runs(s, e));
                assert(r[0].len() == e - i);
                assert forall|k: int| 0 <= k < r.len() implies (#[trigger] r[k]).len() >= 6 by {
                    if k > 0 {
                        assert(r[k] == printable_runs(s, e)[k - 1]);
                    }
                }
            } else {
                assert(printable_runs(s, i) == printable_runs(s, e));
            }
        }
    } else {
        assert(printable_runs(s, i).len() == 0);
    }
}

proof fn lemma_cap_unique(acc: Seq<Seq<char>>, xs: Seq<Seq<char>>, cap: int)
    requires
        acc.no_duplicates(),
        acc.len() <= cap,
        forall|k: int| 0 <= k < acc.len() ==> (#[trigger] acc[k]).len() >= 6,
        forall|k: int| 0 <= k < xs.len() ==> (#[trigger] xs[k]).len() >= 6,
    ensures
        cap_unique(acc, xs, cap).no_duplicates(),
        cap_unique(acc, xs, cap).len() <= cap,
        forall|k: int|
            0 <= k < cap_unique(acc, xs, cap).len() ==> (#[trigger] cap_unique(acc, xs, cap)[k]).len()
                >= 6,
    decreases xs.len(),
{
    if acc.len() < cap && xs.len() > 0 {
        crate::webshell::lemma_append_unique_no_dup(acc, xs[0]);
        let a = append_unique_seq(acc, xs[0]);
        assert forall|k: int| 0 <= k < a.len() implies (#[trigger] a[k]).len() >= 6 by {
            if k == acc.len() {
                assert(a[k] == xs[0]);
            }
        }
        assert forall|k: int| 0 <= k < xs.drop_first().len() implies (
        #[trigger] xs.drop_first()[k]).len() >= 6 by {
            assert(xs.drop_first()[k] == xs[k + 1]);
        }
        lemma_cap_unique(a, xs.drop_first(), cap);
    }
}

/// No reported IPv4 address is the loopback address or lies in `0.0.0.0/8`.
pub proof fn law_ips_reportable(text: Seq<char>)
    ensures
        forall|i: int|
            0 <= i < iocs_spec(text).1.len() ==> reportable_ip(#[trigger] iocs_spec(text).1[i]),
{
    let all = found_or_none(regex_all_matches(ip_pattern(), text));
    assert forall|i: int| 0 <= i < iocs_spec(text).1.len() implies reportable_ip(
        #[trigger] iocs_spec(text).1[i],
    ) by {
        let f = all.filter(|ip: Seq<char>| reportable_ip(ip));
        assert(f.contains(f[i]));
        broadcast use vstd::seq_lib::group_filter_ensures;
    }
}

/// The web addresses reported are the matches, in order, of
/// `(?i)https?://[^\s<>"'{}|\\^`\[\]]+` (`http://` or `https://` in any case, then
/// everything up to whitespace or one of `<>"'{}|\^`[]`), and the IPv4 addresses
/// those of the dotted-quad expression with `0`–`255` parts, minus loopback and `0.x`.
pub proof fn law_indicator_expressions(text: Seq<char>)
    ensures
        iocs_spec(text).0 == found_or_none(
            regex_all_matches(r#"(?i)https?://[^\s<>"'{}|\\^`\[\]]+"#@, text),
        ),
        iocs_spec(text).1 == found_or_none(
            regex_all_matches(
                r"\b(?:(?:25[0-5]|2[0-4]\d|[01]?\d?\d)\.){3}(?:25[0-5]|2[0-4]\d|[01]?\d?\d)\b"@,
                text,
            ),
        ).filter(|ip: Seq<char>| ip != "127.0.0.1"@ && !"0."@.is_prefix_of(ip)),
{
    let f1 = |ip: Seq<char>| reportable_ip(ip);
    let f2 = |ip: Seq<char>| ip != "127.0.0.1"@ && !"0."@.is_prefix_of(ip);
    assert(f1 =~= f2);
}

} // verus!
