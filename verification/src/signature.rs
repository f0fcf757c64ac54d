//! The PHP webshell signatures: which dangerous calls, input sources and
//! obfuscation chains a file's text shows.
use vstd::prelude::*;
use crate::htaccess::{append_all_unique, append_unique, is_htaccess_file, is_htaccess_path, parse, parse_model, lemma_append_all_unique_one};
use crate::matching::{is_match, pattern_matches};
use crate::model::{FeaturesModel, FileFeatures};
use crate::text::{
    append_unique_seq, byte_prefix, concat2, copy_str, contains_seq, decode_lossy, join_seq, join_strings, lossy_utf8, str_contains,
    str_eq, str_starts_with, to_lower, unicode_lower, views,
};

verus! {

/// The named signatures: `(name, regular expression)`.
pub open spec fn php_patterns() -> Seq<(Seq<char>, Seq<char>)> {
    seq![
        ("eval_sink"@, r"(?i)\beval\s*\("@),
        ("assert_sink"@, r"(?i)\bassert\s*\("@),
        ("system_sink"@, r"(?i)\bsystem\s*\("@),
        ("exec_sink"@, r"(?i)\bexec\s*\("@),
        ("shell_exec_sink"@, r"(?i)\bshell_exec\s*\("@),
        ("passthru_sink"@, r"(?i)\bpassthru\s*\("@),
        ("base64_decode"@, r"(?i)\bbase64_decode\s*\("@),
        ("gzinflate"@, r"(?i)\bgzinflate\s*\("@),
        ("obfuscated_eval"@, r"(?i)\beval\s*\(\s*(?:gzinflate|gzuncompress|str_rot13|base64_decode|convert_uudecode)\s*\("@),
        ("known_china_chopper"@, r"(?i)@eval\s*\(\s*\$_(?:POST|REQUEST)"@),
        ("create_function_sink"@, r"(?i)\bcreate_function\s*\("@),
        ("preg_replace_e_modifier"@, r#"(?i)preg_replace\s*\(\s*['"][^'"]*\/[a-z]*e[a-z]*['"]"#@),
        ("call_user_func_sink"@, r"(?i)\bcall_user_func(_array)?\s*\("@),
        ("extract_superglobal"@, r"(?i)\bextract\s*\(\s*\$_(?:GET|POST|REQUEST|COOKIE)"@),
        ("phpinfo_disclosure"@, r"(?i)\bphpinfo\s*\("@),
    ]
}

fn php_pattern(i: usize) -> (r: (&'static str, &'static str))
    requires
        i < 15,
    ensures
        r.0@ == php_patterns()[i as int].0,
        r.1@ == php_patterns()[i as int].1,
{
    if i == 0 {
        ("eval_sink", r"(?i)\beval\s*\(")
    } else if i == 1 {
        ("assert_sink", r"(?i)\bassert\s*\(")
    } else if i == 2 {
        ("system_sink", r"(?i)\bsystem\s*\(")
    } else if i == 3 {
        ("exec_sink", r"(?i)\bexec\s*\(")
    } else if i == 4 {
        ("shell_exec_sink", r"(?i)\bshell_exec\s*\(")
    } else if i == 5 {
        ("passthru_sink", r"(?i)\bpassthru\s*\(")
    } else if i == 6 {
        ("base64_decode", r"(?i)\bbase64_decode\s*\(")
    } else if i == 7 {
        ("gzinflate", r"(?i)\bgzinflate\s*\(")
    } else if i == 8 {
        (
            "obfuscated_eval",
            r"(?i)\beval\s*\(\s*(?:gzinflate|gzuncompress|str_rot13|base64_decode|convert_uudecode)\s*\(",
        )
    } else if i == 9 {
        ("known_china_chopper", r"(?i)@eval\s*\(\s*\$_(?:POST|REQUEST)")
    } else if i == 10 {
        ("create_function_sink", r"(?i)\bcreate_function\s*\(")
    } else if i == 11 {
        ("preg_replace_e_modifier", r#"(?i)preg_replace\s*\(\s*['"][^'"]*\/[a-z]*e[a-z]*['"]"#)
    } else if i == 12 {
        ("call_user_func_sink", r"(?i)\bcall_user_func(_array)?\s*\(")
    } else if i == 13 {
        ("extract_superglobal", r"(?i)\bextract\s*\(\s*\$_(?:GET|POST|REQUEST|COOKIE)")
    } else {
        ("phpinfo_disclosure", r"(?i)\bphpinfo\s*\(")
    }
}

/// User input flowing into a dangerous call.
pub open spec fn input_to_sink_patterns() -> Seq<Seq<char>> {
    seq![
        r"(?is)\$_(?:GET|POST|REQUEST|COOKIE).{0,200}?\beval\s*\("@,
        r"(?is)\$_(?:GET|POST|REQUEST|COOKIE).{0,200}?\b(system|exec|shell_exec|passthru|popen|proc_open|assert)\s*\("@,
        r"(?is)@eval\s*\(\s*\$_(?:POST|REQUEST|GET)"@,
    ]
}

fn input_to_sink_pattern(i: usize) -> (r: &'static str)
    requires
        i < 3,
    ensures
        r@ == input_to_sink_patterns()[i as int],
{
    if i == 0 {
        r"(?is)\$_(?:GET|POST|REQUEST|COOKIE).{0,200}?\beval\s*\("
    } else if i == 1 {
        r"(?is)\$_(?:GET|POST|REQUEST|COOKIE).{0,200}?\b(system|exec|shell_exec|passthru|popen|proc_open|assert)\s*\("
    } else {
        r"(?is)@eval\s*\(\s*\$_(?:POST|REQUEST|GET)"
    }
}

/// Obfuscated evaluation chains, named `obf_eval_chain_0` to `obf_eval_chain_2`.
pub open spec fn obf_chain_patterns() -> Seq<(Seq<char>, Seq<char>)> {
    seq![
        ("obf_eval_chain_0"@, r"(?is)eval\s*\(\s*(?:base64_decode|gzinflate|gzuncompress|str_rot13|convert_uudecode|hex2bin|strrev)\s*\("@),
        ("obf_eval_chain_1"@, r"(?is)(?:base64_decode|gzinflate|gzuncompress|str_rot13|convert_uudecode|hex2bin)\s*\([^;]{0,200}eval\s*\("@),
        ("obf_eval_chain_2"@, r"(?is)assert\s*\(\s*\$\w+\s*\("@),
    ]
}

fn obf_chain_pattern(i: usize) -> (r: (&'static str, &'static str))
    requires
        i < 3,
    ensures
        r.0@ == obf_chain_patterns()[i as int].0,
        r.1@ == obf_chain_patterns()[i as int].1,
{
    if i == 0 {
        (
            "obf_eval_chain_0",
            r"(?is)eval\s*\(\s*(?:base64_decode|gzinflate|gzuncompress|str_rot13|convert_uudecode|hex2bin|strrev)\s*\(",
        )
    } else if i == 1 {
        (
            "obf_eval_chain_1",
            r"(?is)(?:base64_decode|gzinflate|gzuncompress|str_rot13|convert_uudecode|hex2bin)\s*\([^;]{0,200}eval\s*\(",
        )
    } else {
        ("obf_eval_chain_2", r"(?is)assert\s*\(\s*\$\w+\s*\(")
    }
}

/// Any superglobal read.
pub open spec fn input_source_pattern() -> Seq<char> {
    r"(?i)\$_(?:GET|POST|REQUEST|COOKIE|SERVER)\s*(?:\[[^\]]+\])?"@
}

/// `php:name` for each entry of `t` whose expression matches `text`, in order.
pub open spec fn table_hits(t: Seq<(Seq<char>, Seq<char>)>, text: Seq<char>) -> Seq<Seq<char>>
    decreases t.len(),
{
    if t.len() == 0 {
        Seq::empty()
    } else {
        let rest = table_hits(t.drop_last(), text);
        if pattern_matches(t.last().1, text) {
            rest.push("php:"@ + t.last().0)
        } else {
            rest
        }
    }
}

/// Some user-input-to-sink expression matches `text`.
pub open spec fn input_reaches_sink(text: Seq<char>) -> bool {
    exists|k: int| 0 <= k < 3 && pattern_matches(#[trigger] input_to_sink_patterns()[k], text)
}

/// The findings in order of discovery, before duplicates are dropped.
pub open spec fn php_findings(text: Seq<char>) -> Seq<Seq<char>> {
    let a = table_hits(php_patterns(), text);
    let b = if pattern_matches(input_source_pattern(), text) {
        a.push("php:superglobal_input"@)
    } else {
        a
    };
    let c = if input_reaches_sink(text) {
        b.push("php:eval_input"@)
    } else {
        b
    };
    c + table_hits(obf_chain_patterns(), text)
}

/// The text the signatures look at: `combined` unless it is empty, else the raw
/// bytes decoded.
pub open spec fn php_text(raw: Seq<u8>, combined: Seq<char>) -> Seq<char> {
    if combined.len() == 0 {
        lossy_utf8(raw)
    } else {
        combined
    }
}

/// The PHP findings of a text, each once, in order of discovery.
pub open spec fn scan_php_spec(raw: Seq<u8>, combined: Seq<char>) -> Seq<Seq<char>> {
    append_all_unique(Seq::empty(), php_findings(php_text(raw, combined)))
}

/// Whether each entry's expression matches the text, in table order.
pub open spec fn matches_of(t: Seq<(Seq<char>, Seq<char>)>, text: Seq<char>) -> Seq<bool> {
    t.map_values(|p: (Seq<char>, Seq<char>)| pattern_matches(p.1, text))
}

/// `php:name` for each entry of `t` marked in `ms`, in order.
pub open spec fn chosen(t: Seq<(Seq<char>, Seq<char>)>, ms: Seq<bool>) -> Seq<Seq<char>>
    decreases t.len(),
{
    if t.len() == 0 || ms.len() == 0 {
        Seq::empty()
    } else {
        let rest = chosen(t.drop_last(), ms.drop_last());
        if ms.last() {
            rest.push("php:"@ + t.last().0)
        } else {
            rest
        }
    }
}

proof fn lemma_chosen_matches(t: Seq<(Seq<char>, Seq<char>)>, text: Seq<char>)
    ensures
        chosen(t, matches_of(t, text)) == table_hits(t, text),
    decreases t.len(),
{
    if t.len() > 0 {
        assert(matches_of(t, text).drop_last() =~= matches_of(t.drop_last(), text));
        assert(matches_of(t, text).last() == pattern_matches(t.last().1, text));
        lemma_chosen_matches(t.drop_last(), text);
    }
}

/// The findings, before duplicates are dropped, that the match results give:
/// `ms[i]` says whether signature `i` matched, `source` whether a superglobal is
/// read, `to_sink` whether input reaches a dangerous call, and `cs[i]` whether
/// obfuscated chain `i` matched.
pub open spec fn findings_of_matches(ms: Seq<bool>, source: bool, to_sink: bool, cs: Seq<bool>) -> Seq<
    Seq<char>,
> {
    let a = chosen(php_patterns(), ms);
    let b = if source {
        a.push("php:superglobal_input"@)
    } else {
        a
    };
    let c = if to_sink {
        b.push("php:eval_input"@)
    } else {
        b
    };
    c + chosen(obf_chain_patterns(), cs)
}

/// Adds `php:name` for each table entry marked in `ms`.
fn add_chosen(hits: &mut Vec<String>, ms: &Vec<bool>, obf: bool, Ghost(start): Ghost<Seq<Seq<char>>>)
    requires
        views(old(hits)@) == append_all_unique(Seq::empty(), start),
        ms@.len() == (if obf { 3int } else { 15int }),
    ensures
        views(final(hits)@) == append_all_unique(
            Seq::empty(),
            start + chosen(if obf { obf_chain_patterns() } else { php_patterns() }, ms@),
        ),
{
    let ghost t = if obf {
        obf_chain_patterns()
    } else {
        php_patterns()
    };
    let n: usize = ms.len();
    assert(t.len() == n);
    let mut i: usize = 0;
    assert(t.take(0) =~= Seq::<(Seq<char>, Seq<char>)>::empty());
    assert(start + Seq::<Seq<char>>::empty() =~= start);
    while i < n
        invariant
            i <= n,
            t.len() == n,
            ms@.len() == n,
            t == (if obf { obf_chain_patterns() } else { php_patterns() }),
            views(hits@) == append_all_unique(
                Seq::empty(),
                start + chosen(t.take(i as int), ms@.take(i as int)),
            ),
        decreases n - i,
    {
        let (name, _) = if obf {
            obf_chain_pattern(i)
        } else {
            php_pattern(i)
        };
        assert(t.take(i + 1).drop_last() =~= t.take(i as int));
        assert(t.take(i + 1).last() == t[i as int]);
        assert(ms@.take(i + 1).drop_last() =~= ms@.take(i as int));
        assert(ms@.take(i + 1).last() == ms@[i as int]);
        if ms[i] {
            let key = concat2("php:", name);
            let ghost prev = start + chosen(t.take(i as int), ms@.take(i as int));
            append_unique(hits, key);
            proof {
                lemma_append_all_unique_one(Seq::empty(), prev, key@);
                assert(start + chosen(t.take(i + 1), ms@.take(i + 1)) =~= prev.push(key@));
            }
        } else {
            assert(start + chosen(t.take(i + 1), ms@.take(i + 1)) =~= start + chosen(
                t.take(i as int),
                ms@.take(i as int),
            ));
        }
        i = i + 1;
    }
    assert(t.take(n as int) =~= t);
    assert(ms@.take(n as int) =~= ms@);
}

/// The PHP findings, each once, in order of discovery, that the match results give
/// (see [`findings_of_matches`]).
pub fn findings_from_matches(ms: &Vec<bool>, source: bool, to_sink: bool, cs: &Vec<bool>) -> (hits: Vec<
    String,
>)
    requires
        ms@.len() == 15,
        cs@.len() == 3,
    ensures
        views(hits@) == append_all_unique(Seq::empty(), findings_of_matches(ms@, source, to_sink, cs@)),
{
    let mut hits: Vec<String> = Vec::new();
    assert(views(hits@) =~= append_all_unique(Seq::empty(), Seq::empty()));
    add_chosen(&mut hits, ms, false, Ghost(Seq::empty()));
    let ghost a = chosen(php_patterns(), ms@);
    assert(Seq::<Seq<char>>::empty() + a =~= a);
    if source {
        append_unique(&mut hits, copy_str("php:superglobal_input"));
        proof {
            lemma_append_all_unique_one(Seq::empty(), a, "php:superglobal_input"@);
        }
    }
    let ghost b = if source {
        a.push("php:superglobal_input"@)
    } else {
        a
    };
    if to_sink {
        append_unique(&mut hits, copy_str("php:eval_input"));
        proof {
            lemma_append_all_unique_one(Seq::empty(), b, "php:eval_input"@);
        }
    }
    let ghost c = if to_sink {
        b.push("php:eval_input"@)
    } else {
        b
    };
    add_chosen(&mut hits, cs, true, Ghost(c));
    hits
}

/// Whether each entry's expression matches the text.
fn table_matches(text: &str, obf: bool) -> (ms: Vec<bool>)
    ensures
        ms@ == matches_of(if obf { obf_chain_patterns() } else { php_patterns() }, text@),
{
    let ghost t = if obf {
        obf_chain_patterns()
    } else {
        php_patterns()
    };
    let n: usize = if obf {
        3
    } else {
        15
    };
    assert(t.len() == n);
    let mut ms: Vec<bool> = Vec::new();
    let mut i: usize = 0;
    while i < n
        invariant
            i <= n,
            t.len() == n,
            t == (if obf { obf_chain_patterns() } else { php_patterns() }),
            ms@ == matches_of(t, text@).take(i as int),
        decreases n - i,
    {
        let (_, pattern) = if obf {
            obf_chain_pattern(i)
        } else {
            php_pattern(i)
        };
        let m = is_match(pattern, text);
        ms.push(m);
        assert(ms@ =~= matches_of(t, text@).take(i + 1));
        i = i + 1;
    }
    assert(matches_of(t, text@).take(n as int) =~= matches_of(t, text@));
    ms
}

/// The PHP findings of a file: `combined` is the text to examine, or empty to
/// examine the raw bytes.
pub fn scan_php(raw: &[u8], combined: &str) -> (hits: Vec<String>)
    ensures
        views(hits@) == scan_php_spec(raw@, combined@),
{
    let content = if combined.is_empty() {
        decode_lossy(raw)
    } else {
        combined.to_owned()
    };
    let ghost text = content@;
    let ms = table_matches(content.as_str(), false);
    let source = is_match(r"(?i)\$_(?:GET|POST|REQUEST|COOKIE|SERVER)\s*(?:\[[^\]]+\])?", content.as_str());
    let mut k: usize = 0;
    let mut found = false;
    while k < 3
        invariant
            k <= 3,
            found == exists|j: int| 0 <= j < k && pattern_matches(#[trigger] input_to_sink_patterns()[j], text),
            text == content@,
        decreases 3 - k,
    {
        if !found {
            if is_match(input_to_sink_pattern(k), content.as_str()) {
                found = true;
            }
        }
        k = k + 1;
    }
    let cs = table_matches(content.as_str(), true);
    proof {
        lemma_chosen_matches(php_patterns(), text);
        lemma_chosen_matches(obf_chain_patterns(), text);
    }
    findings_from_matches(&ms, source, found, &cs)
}

/// Whether the bytes start like PHP: among the first 512 bytes, decoded and
/// lowercased, the text starts with `<?php` or `<?=`, or holds `<?php`.
pub open spec fn is_php_content_spec(data: Seq<u8>) -> bool {
    if data.len() < 5 {
        false
    } else {
        let n = if data.len() < 512 {
            data.len() as int
        } else {
            512
        };
        let prefix = unicode_lower(lossy_utf8(data.subrange(0, n)));
        "<?php"@.is_prefix_of(prefix) || "<?="@.is_prefix_of(prefix) || contains_seq(
            prefix,
            "<?php"@,
        )
    }
}

pub fn is_php_content(data: &[u8]) -> (b: bool)
    ensures
        b == is_php_content_spec(data@),
{
    if data.len() < 5 {
        return false;
    }
    let n: usize = if data.len() < 512 {
        data.len()
    } else {
        512
    };
    let prefix = byte_prefix(data, n);
    let text = to_lower(decode_lossy(prefix.as_slice()).as_str());
    str_starts_with(text.as_str(), "<?php") || str_starts_with(text.as_str(), "<?=")
        || str_contains(text.as_str(), "<?php")
}

/// The markers that betray webshell code in any file.
pub open spec fn webshell_indicators() -> Seq<Seq<char>> {
    seq![
        "eval("@,
        "shell_exec("@,
        "system("@,
        "base64_decode("@,
        "$_post"@,
        "$_get"@,
        "$_request"@,
        "create_function("@,
        "extract($_"@,
        "call_user_func("@,
    ]
}

fn webshell_indicator(i: usize) -> (r: &'static str)
    requires
        i < 10,
    ensures
        r@ == webshell_indicators()[i as int],
{
    if i == 0 {
        "eval("
    } else if i == 1 {
        "shell_exec("
    } else if i == 2 {
        "system("
    } else if i == 3 {
        "base64_decode("
    } else if i == 4 {
        "$_post"
    } else if i == 5 {
        "$_get"
    } else if i == 6 {
        "$_request"
    } else if i == 7 {
        "create_function("
    } else if i == 8 {
        "extract($_"
    } else {
        "call_user_func("
    }
}

/// The lowercased text holds one of the markers.
pub open spec fn has_webshell_indicators_spec(text: Seq<char>) -> bool {
    exists|i: int|
        0 <= i < 10 && contains_seq(unicode_lower(text), #[trigger] webshell_indicators()[i])
}

pub fn has_webshell_indicators(text: &str) -> (b: bool)
    ensures
        b == has_webshell_indicators_spec(text@),
{
    let lower = to_lower(text);
    let mut i: usize = 0;
    while i < 10
        invariant
            i <= 10,
            lower@ == unicode_lower(text@),
            forall|j: int| 0 <= j < i ==> !contains_seq(lower@, #[trigger] webshell_indicators()[j]),
        decreases 10 - i,
    {
        if str_contains(lower.as_str(), webshell_indicator(i)) {
            return true;
        }
        i = i + 1;
    }
    false
}

/// The text of a file the signatures examine: its printable strings joined by
/// newlines, or, where it has none and is not empty, its bytes decoded.
pub open spec fn combined_text(f: FeaturesModel, raw: Seq<u8>) -> Seq<char> {
    if f.strings.len() == 0 && raw.len() > 0 {
        lossy_utf8(raw)
    } else {
        join_seq(f.strings, "\n"@)
    }
}

/// The findings for a file: those of its `.htaccess` reading for a `.htaccess`
/// file; the PHP findings for PHP, for a webshell, for content that starts like
/// PHP or for text with a webshell marker; none otherwise.
pub open spec fn scan_webshell_spec(f: FeaturesModel, raw: Seq<u8>) -> Seq<Seq<char>> {
    let text = combined_text(f, raw);
    if is_htaccess_path(f.path) {
        parse_model(text).hits
    } else if f.file_type == "php"@ || f.file_type == "webshell"@ || is_php_content_spec(raw)
        || has_webshell_indicators_spec(text) {
        scan_php_spec(raw, text)
    } else {
        Seq::empty()
    }
}

pub fn scan_webshell(features: &FileFeatures, raw: &[u8]) -> (hits: Vec<String>)
    ensures
        views(hits@) == scan_webshell_spec(features@, raw@),
{
    let combined = if features.strings.len() == 0 && raw.len() > 0 {
        decode_lossy(raw)
    } else {
        join_strings(&features.strings, "\n")
    };
    if is_htaccess_file(features.path.as_str()) {
        return parse(combined.as_str()).hits;
    }
    if str_eq(features.file_type.as_str(), "php") || str_eq(features.file_type.as_str(), "webshell")
        || is_php_content(raw) || has_webshell_indicators(combined.as_str()) {
        return scan_php(raw, combined.as_str());
    }
    Vec::new()
}

// ---------------------------------------------------------------------------
// The order of the findings.
/// `php:name` for each entry of a table, in order.
pub open spec fn table_names(t: Seq<(Seq<char>, Seq<char>)>) -> Seq<Seq<char>> {
    t.map_values(|p: (Seq<char>, Seq<char>)| "php:"@ + p.0)
}

/// Every finding `scan_php` can report, in the order it looks for them.
pub open spec fn finding_names() -> Seq<Seq<char>> {
    table_names(php_patterns()) + seq!["php:superglobal_input"@, "php:eval_input"@] + table_names(
        obf_chain_patterns(),
    )
}

/// `idx` shows `r` as entries of `names` taken in order: `r[k]` is `names[idx[k]]`
/// and the positions increase.
pub open spec fn picks(r: Seq<Seq<char>>, names: Seq<Seq<char>>, idx: Seq<int>) -> bool {
    &&& idx.len() == r.len()
    &&& forall|k: int| 0 <= k < r.len() ==> 0 <= #[trigger] idx[k] < names.len() && r[k] == names[idx[k]]
    &&& forall|k1: int, k2: int| 0 <= k1 < k2 < r.len() ==> #[trigger] idx[k1] < #[trigger] idx[k2]
}

/// `r` lists entries of `names`, in the order they stand there.
pub open spec fn in_table_order(r: Seq<Seq<char>>, names: Seq<Seq<char>>) -> bool {
    exists|idx: Seq<int>| picks(r, names, idx)
}

pub open spec fn shifted(idx: Seq<int>, d: int) -> Seq<int> {
    idx.map_values(|v: int| v + d)
}

proof fn lemma_picks_concat(
    a: Seq<Seq<char>>,
    na: Seq<Seq<char>>,
    ia: Seq<int>,
    b: Seq<Seq<char>>,
    nb: Seq<Seq<char>>,
    ib: Seq<int>,
)
    requires
        picks(a, na, ia),
        picks(b, nb, ib),
    ensures
        picks(a + b, na + nb, ia + shifted(ib, na.len() as int)),
{
    let r = a + b;
    let n = na + nb;
    let idx = ia + shifted(ib, na.len() as int);
    assert forall|k: int| 0 <= k < r.len() implies 0 <= #[trigger] idx[k] < n.len() && r[k] == n[idx[k]] by {
        if k >= a.len() {
            assert(idx[k] == ib[k - a.len()] + na.len());
            assert(r[k] == b[k - a.len()]);
        }
    }
    assert forall|k1: int, k2: int| 0 <= k1 < k2 < r.len() implies #[trigger] idx[k1] < #[trigger] idx[k2] by {
        if k1 >= a.len() {
            assert(idx[k1] == ib[k1 - a.len()] + na.len());
        }
        if k2 >= a.len() {
            assert(idx[k2] == ib[k2 - a.len()] + na.len());
        }
        if k1 < a.len() && k2 >= a.len() {
            assert(idx[k1] < na.len());
        }
    }
}

proof fn lemma_table_hits_order(t: Seq<(Seq<char>, Seq<char>)>, text: Seq<char>) -> (idx: Seq<int>)
    ensures
        picks(table_hits(t, text), table_names(t), idx),
    decreases t.len(),
{
    if t.len() == 0 {
        Seq::empty()
    } else {
        let i0 = lemma_table_hits_order(t.drop_last(), text);
        let rest = table_hits(t.drop_last(), text);
        let names = table_names(t);
        assert(table_names(t.drop_last()) =~= names.drop_last());
        assert(names[t.len() - 1] == "php:"@ + t.last().0);
        if pattern_matches(t.last().1, text) {
            let idx = i0.push(t.len() - 1);
            let r = rest.push("php:"@ + t.last().0);
            assert forall|k: int| 0 <= k < r.len() implies 0 <= #[trigger] idx[k] < names.len() && r[k]
                == names[idx[k]] by {
                if k < rest.len() {
                    assert(idx[k] == i0[k]);
                    assert(names.drop_last()[i0[k]] == names[i0[k]]);
                }
            }
            assert forall|k1: int, k2: int| 0 <= k1 < k2 < r.len() implies #[trigger] idx[k1] < #[trigger] idx[k2] by {
                assert(idx[k1] == i0[k1]);
                if k2 < rest.len() {
                    assert(idx[k2] == i0[k2]);
                }
            }
            idx
        } else {
            assert forall|k: int| 0 <= k < rest.len() implies 0 <= #[trigger] i0[k] < names.len() && rest[k]
                == names[i0[k]] by {
                assert(names.drop_last()[i0[k]] == names[i0[k]]);
            }
            i0
        }
    }
}

proof fn lemma_optional_order(cond: bool, x: Seq<char>) -> (idx: Seq<int>)
    ensures
        picks(if cond { seq![x] } else { Seq::empty() }, seq![x], idx),
{
    if cond {
        seq![0int]
    } else {
        Seq::empty()
    }
}

proof fn lemma_append_all_unique_order(acc: Seq<Seq<char>>, xs: Seq<Seq<char>>) -> (idx: Seq<int>)
    ensures
        append_all_unique(acc, xs).len() >= acc.len(),
        append_all_unique(acc, xs).take(acc.len() as int) == acc,
        picks(append_all_unique(acc, xs).skip(acc.len() as int), xs, idx),
    decreases xs.len(),
{
    let r = append_all_unique(acc, xs);
    if xs.len() == 0 {
        assert(r.take(acc.len() as int) =~= acc);
        assert(r.skip(acc.len() as int) =~= Seq::<Seq<char>>::empty());
        Seq::empty()
    } else {
        let acc1 = append_unique_seq(acc, xs[0]);
        let i1 = lemma_append_all_unique_order(acc1, xs.drop_first());
        let s1 = r.skip(acc1.len() as int);
        if acc.contains(xs[0]) {
            let idx = shifted(i1, 1);
            assert(r.skip(acc.len() as int) == s1);
            assert forall|k: int| 0 <= k < s1.len() implies 0 <= #[trigger] idx[k] < xs.len() && s1[k]
                == xs[idx[k]] by {
                assert(idx[k] == i1[k] + 1);
                assert(xs.drop_first()[i1[k]] == xs[i1[k] + 1]);
            }
            assert forall|k1: int, k2: int| 0 <= k1 < k2 < s1.len() implies #[trigger] idx[k1] < #[trigger] idx[k2] by {
                assert(idx[k1] == i1[k1] + 1);
                assert(idx[k2] == i1[k2] + 1);
            }
            idx
        } else {
            assert(acc1 == acc.push(xs[0]));
            assert(r.take(acc1.len() as int) == acc1);
            assert(r.take(acc.len() as int) =~= acc) by {
                assert forall|k: int| 0 <= k < acc.len() implies r.take(acc.len() as int)[k] == acc[k] by {
                    assert(r.take(acc1.len() as int)[k] == acc1[k]);
                }
            }
            let s0 = r.skip(acc.len() as int);
            assert(s0 =~= seq![xs[0]] + s1) by {
                assert(s0[0] == r.take(acc1.len() as int)[acc.len() as int]);
            }
            let idx = seq![0int] + shifted(i1, 1);
            assert forall|k: int| 0 <= k < s0.len() implies 0 <= #[trigger] idx[k] < xs.len() && s0[k]
                == xs[idx[k]] by {
                if k > 0 {
                    assert(idx[k] == i1[k - 1] + 1);
                    assert(xs.drop_first()[i1[k - 1]] == xs[i1[k - 1] + 1]);
                    assert(s0[k] == s1[k - 1]);
                }
            }
            assert forall|k1: int, k2: int| 0 <= k1 < k2 < s0.len() implies #[trigger] idx[k1] < #[trigger] idx[k2] by {
                assert(idx[k2] == i1[k2 - 1] + 1);
                if k1 > 0 {
                    assert(idx[k1] == i1[k1 - 1] + 1);
                }
            }
            idx
        }
    }
}

/// `scan_php` reports each finding at most once, and in the order it looks for them
/// (the fifteen signatures, then `superglobal_input`, `eval_input` and the three
/// obfuscated chains). Where `combined` is not empty, the raw bytes play no part.
pub proof fn law_php_findings_ordered(raw: Seq<u8>, combined: Seq<char>, raw2: Seq<u8>)
    ensures
        scan_php_spec(raw, combined).no_duplicates(),
        in_table_order(scan_php_spec(raw, combined), finding_names()),
        combined.len() > 0 ==> scan_php_spec(raw, combined) == scan_php_spec(raw2, combined),
{
    let text = php_text(raw, combined);
    let a = table_hits(php_patterns(), text);
    let ia = lemma_table_hits_order(php_patterns(), text);
    let sg = pattern_matches(input_source_pattern(), text);
    let ei = input_reaches_sink(text);
    let isg = lemma_optional_order(sg, "php:superglobal_input"@);
    let iei = lemma_optional_order(ei, "php:eval_input"@);
    let o = table_hits(obf_chain_patterns(), text);
    let io = lemma_table_hits_order(obf_chain_patterns(), text);
    let osg: Seq<Seq<char>> = if sg { seq!["php:superglobal_input"@] } else { Seq::empty() };
    let oei: Seq<Seq<char>> = if ei { seq!["php:eval_input"@] } else { Seq::empty() };
    lemma_picks_concat(a, table_names(php_patterns()), ia, osg, seq!["php:superglobal_input"@], isg);
    let i1 = ia + shifted(isg, table_names(php_patterns()).len() as int);
    let n1 = table_names(php_patterns()) + seq!["php:superglobal_input"@];
    lemma_picks_concat(a + osg, n1, i1, oei, seq!["php:eval_input"@], iei);
    let i2 = i1 + shifted(iei, n1.len() as int);
    let n2 = n1 + seq!["php:eval_input"@];
    lemma_picks_concat(a + osg + oei, n2, i2, o, table_names(obf_chain_patterns()), io);
    let i3 = i2 + shifted(io, n2.len() as int);
    let findings = php_findings(text);
    assert(findings =~= a + osg + oei + o) by {
        if sg {
            assert(a.push("php:superglobal_input"@) =~= a + osg);
        } else {
            assert(a =~= a + osg);
        }
        if ei {
            assert((a + osg).push("php:eval_input"@) =~= a + osg + oei);
        } else {
            assert(a + osg =~= a + osg + oei);
        }
    }
    assert(n2 + table_names(obf_chain_patterns()) =~= finding_names());
    assert(picks(findings, finding_names(), i3));
    let iu = lemma_append_all_unique_order(Seq::empty(), findings);
    let r = scan_php_spec(raw, combined);
    assert(r.skip(0) =~= r);
    let idx = iu.map_values(|v: int| i3[v]);
    assert forall|k: int| 0 <= k < r.len() implies 0 <= #[trigger] idx[k] < finding_names().len() && r[k]
        == finding_names()[idx[k]] by {
        assert(r.skip(0)[k] == r[k]);
        assert(0 <= iu[k] < findings.len());
    }
    assert forall|k1: int, k2: int| 0 <= k1 < k2 < r.len() implies #[trigger] idx[k1] < #[trigger] idx[k2] by {
        assert(iu[k1] < iu[k2]);
        assert(0 <= iu[k1] < findings.len());
        assert(0 <= iu[k2] < findings.len());
    }
    assert(picks(r, finding_names(), idx));
    crate::webshell::lemma_append_all_unique_no_dup(Seq::empty(), findings);
}


// ---------------------------------------------------------------------------
// Which finding comes from which expression.
/// The position in [`finding_names`] of a finding, told by its length, its last
/// character and its sixth character (-1 for none).
pub open spec fn finding_mark(x: Seq<char>) -> int {
    if x.len() < 6 {
        -1
    } else if x.len() == 13 && x.last() == 'k' && x[5] == 'v' {
        0
    } else if x.len() == 15 && x.last() == 'k' && x[5] == 's' {
        1
    } else if x.len() == 15 && x.last() == 'k' && x[5] == 'y' {
        2
    } else if x.len() == 13 && x.last() == 'k' && x[5] == 'x' {
        3
    } else if x.len() == 19 && x.last() == 'k' && x[5] == 'h' {
        4
    } else if x.len() == 17 && x.last() == 'k' && x[5] == 'a' {
        5
    } else if x.len() == 17 && x.last() == 'e' && x[5] == 'a' {
        6
    } else if x.len() == 13 && x.last() == 'e' && x[5] == 'z' {
        7
    } else if x.len() == 19 && x.last() == 'l' && x[5] == 'b' {
        8
    } else if x.len() == 23 && x.last() == 'r' && x[5] == 'n' {
        9
    } else if x.len() == 24 && x.last() == 'k' && x[5] == 'r' {
        10
    } else if x.len() == 27 && x.last() == 'r' && x[5] == 'r' {
        11
    } else if x.len() == 23 && x.last() == 'k' && x[5] == 'a' {
        12
    } else if x.len() == 23 && x.last() == 'l' && x[5] == 'x' {
        13
    } else if x.len() == 22 && x.last() == 'e' && x[5] == 'h' {
        14
    } else if x.len() == 21 && x.last() == 't' && x[5] == 'u' {
        15
    } else if x.len() == 14 && x.last() == 't' && x[5] == 'v' {
        16
    } else if x.len() == 20 && x.last() == '0' && x[5] == 'b' {
        17
    } else if x.len() == 20 && x.last() == '1' && x[5] == 'b' {
        18
    } else if x.len() == 20 && x.last() == '2' && x[5] == 'b' {
        19
    } else {
        -1
    }
}

proof fn lemma_finding_marks()
    ensures
        forall|i: int| 0 <= i < 15 ==> finding_mark(#[trigger] ("php:"@ + php_patterns()[i].0)) == i,
        forall|i: int| 0 <= i < 3 ==> finding_mark(#[trigger] ("php:"@ + obf_chain_patterns()[i].0)) == 17 + i,
        finding_mark("php:"@ + "superglobal_input"@) == 15,
        finding_mark("php:"@ + "eval_input"@) == 16,
        finding_mark("php:superglobal_input"@) == 15,
        finding_mark("php:eval_input"@) == 16,
{
    reveal_strlit("php:superglobal_input");
    reveal_strlit("php:eval_input");
    reveal_strlit("php:");
    reveal_strlit("eval_sink");
    reveal_strlit("assert_sink");
    reveal_strlit("system_sink");
    reveal_strlit("exec_sink");
    reveal_strlit("shell_exec_sink");
    reveal_strlit("passthru_sink");
    reveal_strlit("base64_decode");
    reveal_strlit("gzinflate");
    reveal_strlit("obfuscated_eval");
    reveal_strlit("known_china_chopper");
    reveal_strlit("create_function_sink");
    reveal_strlit("preg_replace_e_modifier");
    reveal_strlit("call_user_func_sink");
    reveal_strlit("extract_superglobal");
    reveal_strlit("phpinfo_disclosure");
    reveal_strlit("superglobal_input");
    reveal_strlit("eval_input");
    reveal_strlit("obf_eval_chain_0");
    reveal_strlit("obf_eval_chain_1");
    reveal_strlit("obf_eval_chain_2");
    assert forall|i: int| 0 <= i < 15 implies finding_mark(#[trigger] ("php:"@ + php_patterns()[i].0)) == i by {
        if i == 0 {
            assert(php_patterns()[0].0 == "eval_sink"@);
        } else if i == 1 {
            assert(php_patterns()[1].0 == "assert_sink"@);
        } else if i == 2 {
            assert(php_patterns()[2].0 == "system_sink"@);
        } else if i == 3 {
            assert(php_patterns()[3].0 == "exec_sink"@);
        } else if i == 4 {
            assert(php_patterns()[4].0 == "shell_exec_sink"@);
        } else if i == 5 {
            assert(php_patterns()[5].0 == "passthru_sink"@);
        } else if i == 6 {
            assert(php_patterns()[6].0 == "base64_decode"@);
        } else if i == 7 {
            assert(php_patterns()[7].0 == "gzinflate"@);
        } else if i == 8 {
            assert(php_patterns()[8].0 == "obfuscated_eval"@);
        } else if i == 9 {
            assert(php_patterns()[9].0 == "known_china_chopper"@);
        } else if i == 10 {
            assert(php_patterns()[10].0 == "create_function_sink"@);
        } else if i == 11 {
            assert(php_patterns()[11].0 == "preg_replace_e_modifier"@);
        } else if i == 12 {
            assert(php_patterns()[12].0 == "call_user_func_sink"@);
        } else if i == 13 {
            assert(php_patterns()[13].0 == "extract_superglobal"@);
        } else if i == 14 {
            assert(php_patterns()[14].0 == "phpinfo_disclosure"@);
        }
    }
    assert forall|i: int| 0 <= i < 3 implies finding_mark(#[trigger] ("php:"@ + obf_chain_patterns()[i].0)) == 17 + i by {
        if i == 0 {
            assert(obf_chain_patterns()[0].0 == "obf_eval_chain_0"@);
        } else if i == 1 {
            assert(obf_chain_patterns()[1].0 == "obf_eval_chain_1"@);
        } else if i == 2 {
            assert(obf_chain_patterns()[2].0 == "obf_eval_chain_2"@);
        }
    }
}

proof fn lemma_table_hits_has(t: Seq<(Seq<char>, Seq<char>)>, text: Seq<char>, y: Seq<char>)
    ensures
        table_hits(t, text).contains(y) <==> exists|i: int|
            0 <= i < t.len() && pattern_matches(#[trigger] t[i].1, text) && "php:"@ + t[i].0 == y,
    decreases t.len(),
{
    if t.len() > 0 {
        lemma_table_hits_has(t.drop_last(), text, y);
        let rest = table_hits(t.drop_last(), text);
        if exists|i: int| 0 <= i < t.len() && pattern_matches(#[trigger] t[i].1, text) && "php:"@ + t[i].0 == y {
            let i = choose|i: int| 0 <= i < t.len() && pattern_matches(#[trigger] t[i].1, text) && "php:"@ + t[i].0 == y;
            if i < t.len() - 1 {
                assert(t.drop_last()[i] == t[i]);
                let k = choose|k: int| 0 <= k < rest.len() && rest[k] == y;
                if pattern_matches(t.last().1, text) {
                    assert(rest.push("php:"@ + t.last().0)[k] == y);
                }
            } else {
                assert(rest.push("php:"@ + t.last().0)[rest.len() as int] == y);
            }
        }
        if table_hits(t, text).contains(y) {
            if pattern_matches(t.last().1, text) && y == "php:"@ + t.last().0 {
                assert(pattern_matches(t[t.len() - 1].1, text));
            } else {
                let r = table_hits(t, text);
                let k = choose|k: int| 0 <= k < r.len() && r[k] == y;
                if pattern_matches(t.last().1, text) {
                    assert(k < rest.len());
                    assert(rest[k] == y);
                }
                assert(rest.contains(y));
                let i = choose|i: int|
                    0 <= i < t.drop_last().len() && pattern_matches(#[trigger] t.drop_last()[i].1, text)
                        && "php:"@ + t.drop_last()[i].0 == y;
                assert(t.drop_last()[i] == t[i]);
            }
        }
    }
}

proof fn lemma_findings_has(text: Seq<char>, y: Seq<char>)
    ensures
        php_findings(text).contains(y) <==> (table_hits(php_patterns(), text).contains(y) || (pattern_matches(
            input_source_pattern(),
            text,
        ) && y == "php:superglobal_input"@) || (input_reaches_sink(text) && y == "php:eval_input"@)
            || table_hits(obf_chain_patterns(), text).contains(y)),
{
    let a = table_hits(php_patterns(), text);
    let b = if pattern_matches(input_source_pattern(), text) {
        a.push("php:superglobal_input"@)
    } else {
        a
    };
    let c = if input_reaches_sink(text) {
        b.push("php:eval_input"@)
    } else {
        b
    };
    let o = table_hits(obf_chain_patterns(), text);
    assert(php_findings(text) == c + o);
    if (c + o).contains(y) {
        let k = choose|k: int| 0 <= k < (c + o).len() && (c + o)[k] == y;
        if k >= c.len() {
            assert(o[k - c.len()] == y);
        } else if k >= b.len() {
        } else if k >= a.len() {
        } else {
            assert(a[k] == y);
        }
    }
    if a.contains(y) {
        let k = choose|k: int| 0 <= k < a.len() && a[k] == y;
        assert(b[k] == y);
        assert(c[k] == y);
        assert((c + o)[k] == y);
    }
    if pattern_matches(input_source_pattern(), text) && y == "php:superglobal_input"@ {
        assert(c[a.len() as int] == y);
        assert((c + o)[a.len() as int] == y);
    }
    if input_reaches_sink(text) && y == "php:eval_input"@ {
        assert(c[b.len() as int] == y);
        assert((c + o)[b.len() as int] == y);
    }
    if o.contains(y) {
        let k = choose|k: int| 0 <= k < o.len() && o[k] == y;
        assert((c + o)[c.len() + k] == y);
    }
}

proof fn lemma_scan_has(raw: Seq<u8>, combined: Seq<char>, y: Seq<char>)
    ensures
        scan_php_spec(raw, combined).contains(y) <==> php_findings(php_text(raw, combined)).contains(y),
{
    let xs = php_findings(php_text(raw, combined));
    if scan_php_spec(raw, combined).contains(y) {
        crate::webshell::lemma_append_all_unique_from(Seq::empty(), xs, y);
    }
    if xs.contains(y) {
        crate::webshell::lemma_append_all_unique_no_dup(Seq::empty(), xs);
        let k = choose|k: int| 0 <= k < xs.len() && xs[k] == y;
    }
}

proof fn lemma_signature_found(raw: Seq<u8>, combined: Seq<char>, k: int)
    requires
        0 <= k < 15,
    ensures
        scan_php_spec(raw, combined).contains("php:"@ + php_patterns()[k].0) <==> pattern_matches(
            php_patterns()[k].1,
            php_text(raw, combined),
        ),
{
    let text = php_text(raw, combined);
    let y = "php:"@ + php_patterns()[k].0;
    lemma_finding_marks();
    lemma_scan_has(raw, combined, y);
    lemma_findings_has(text, y);
    lemma_table_hits_has(php_patterns(), text, y);
    lemma_table_hits_has(obf_chain_patterns(), text, y);
    assert(finding_mark(y) == k);
    if table_hits(php_patterns(), text).contains(y) {
        let i = choose|i: int|
            0 <= i < php_patterns().len() && pattern_matches(#[trigger] php_patterns()[i].1, text) && "php:"@
                + php_patterns()[i].0 == y;
        assert(finding_mark("php:"@ + php_patterns()[i].0) == i);
    }
    if table_hits(obf_chain_patterns(), text).contains(y) {
        let i = choose|i: int|
            0 <= i < obf_chain_patterns().len() && pattern_matches(#[trigger] obf_chain_patterns()[i].1, text)
                && "php:"@ + obf_chain_patterns()[i].0 == y;
        assert(finding_mark("php:"@ + obf_chain_patterns()[i].0) == 17 + i);
    }
    if php_findings(text).contains(y) {
        if y == "php:superglobal_input"@ || y == "php:eval_input"@ {
            assert(false);
        }
    }
    if pattern_matches(php_patterns()[k].1, text) {
        assert(pattern_matches(php_patterns()[k].1, text) && "php:"@ + php_patterns()[k].0 == y);
    }
}

proof fn lemma_chain_found(raw: Seq<u8>, combined: Seq<char>, k: int)
    requires
        0 <= k < 3,
    ensures
        scan_php_spec(raw, combined).contains("php:"@ + obf_chain_patterns()[k].0) <==> pattern_matches(
            obf_chain_patterns()[k].1,
            php_text(raw, combined),
        ),
{
    let text = php_text(raw, combined);
    let y = "php:"@ + obf_chain_patterns()[k].0;
    lemma_finding_marks();
    lemma_scan_has(raw, combined, y);
    lemma_findings_has(text, y);
    lemma_table_hits_has(php_patterns(), text, y);
    lemma_table_hits_has(obf_chain_patterns(), text, y);
    assert(finding_mark(y) == 17 + k);
    if table_hits(php_patterns(), text).contains(y) {
        let i = choose|i: int|
            0 <= i < php_patterns().len() && pattern_matches(#[trigger] php_patterns()[i].1, text) && "php:"@
                + php_patterns()[i].0 == y;
        assert(finding_mark("php:"@ + php_patterns()[i].0) == i);
    }
    if table_hits(obf_chain_patterns(), text).contains(y) {
        let i = choose|i: int|
            0 <= i < obf_chain_patterns().len() && pattern_matches(#[trigger] obf_chain_patterns()[i].1, text)
                && "php:"@ + obf_chain_patterns()[i].0 == y;
        assert(finding_mark("php:"@ + obf_chain_patterns()[i].0) == 17 + i);
    }
    if php_findings(text).contains(y) {
        if y == "php:superglobal_input"@ || y == "php:eval_input"@ {
            assert(false);
        }
    }
    if pattern_matches(obf_chain_patterns()[k].1, text) {
        assert(pattern_matches(obf_chain_patterns()[k].1, text) && "php:"@ + obf_chain_patterns()[k].0 == y);
    }
}

proof fn lemma_input_found(raw: Seq<u8>, combined: Seq<char>)
    ensures
        scan_php_spec(raw, combined).contains("php:"@ + "superglobal_input"@) <==> pattern_matches(
            input_source_pattern(),
            php_text(raw, combined),
        ),
        scan_php_spec(raw, combined).contains("php:"@ + "eval_input"@) <==> input_reaches_sink(
            php_text(raw, combined),
        ),
{
    let text = php_text(raw, combined);
    lemma_finding_marks();
    reveal_strlit("php:");
    reveal_strlit("superglobal_input");
    reveal_strlit("eval_input");
    reveal_strlit("php:superglobal_input");
    reveal_strlit("php:eval_input");
    let ys = seq!["php:"@ + "superglobal_input"@, "php:"@ + "eval_input"@];
    assert(ys[0] =~= "php:superglobal_input"@);
    assert(ys[1] =~= "php:eval_input"@);
    assert forall|m: int| 0 <= m < 2 implies (#[trigger] scan_php_spec(raw, combined).contains(ys[m])) == (
        if m == 0 {
            pattern_matches(input_source_pattern(), text)
        } else {
            input_reaches_sink(text)
        }) by {
        let y = ys[m];
        lemma_scan_has(raw, combined, y);
        lemma_findings_has(text, y);
        lemma_table_hits_has(php_patterns(), text, y);
        lemma_table_hits_has(obf_chain_patterns(), text, y);
        if table_hits(php_patterns(), text).contains(y) {
            let i = choose|i: int|
                0 <= i < php_patterns().len() && pattern_matches(#[trigger] php_patterns()[i].1, text) && "php:"@
                    + php_patterns()[i].0 == y;
            assert(finding_mark("php:"@ + php_patterns()[i].0) == i);
        }
        if table_hits(obf_chain_patterns(), text).contains(y) {
            let i = choose|i: int|
                0 <= i < obf_chain_patterns().len() && pattern_matches(#[trigger] obf_chain_patterns()[i].1, text)
                    && "php:"@ + obf_chain_patterns()[i].0 == y;
            assert(finding_mark("php:"@ + obf_chain_patterns()[i].0) == 17 + i);
        }
        assert(ys[0] != ys[1]);
    }
    assert(scan_php_spec(raw, combined).contains(ys[0]) == pattern_matches(input_source_pattern(), text));
    assert(scan_php_spec(raw, combined).contains(ys[1]) == input_reaches_sink(text));
}

/// `scan_php` reports `php:NAME` exactly when NAME's expression below matches the
/// text it examines (`combined`, or the raw bytes decoded where `combined` is empty);
/// `php:eval_input` exactly when one of the three input-to-call expressions does.
pub proof fn law_findings_follow_expressions(raw: Seq<u8>, combined: Seq<char>)
    ensures
        scan_php_spec(raw, combined).contains("php:"@ + "eval_sink"@) <==> pattern_matches(r"(?i)\beval\s*\("@, (if combined.len() == 0 { lossy_utf8(raw) } else { combined })),
        scan_php_spec(raw, combined).contains("php:"@ + "assert_sink"@) <==> pattern_matches(r"(?i)\bassert\s*\("@, (if combined.len() == 0 { lossy_utf8(raw) } else { combined })),
        scan_php_spec(raw, combined).contains("php:"@ + "system_sink"@) <==> pattern_matches(r"(?i)\bsystem\s*\("@, (if combined.len() == 0 { lossy_utf8(raw) } else { combined })),
        scan_php_spec(raw, combined).contains("php:"@ + "exec_sink"@) <==> pattern_matches(r"(?i)\bexec\s*\("@, (if combined.len() == 0 { lossy_utf8(raw) } else { combined })),
        scan_php_spec(raw, combined).contains("php:"@ + "shell_exec_sink"@) <==> pattern_matches(r"(?i)\bshell_exec\s*\("@, (if combined.len() == 0 { lossy_utf8(raw) } else { combined })),
        scan_php_spec(raw, combined).contains("php:"@ + "passthru_sink"@) <==> pattern_matches(r"(?i)\bpassthru\s*\("@, (if combined.len() == 0 { lossy_utf8(raw) } else { combined })),
        scan_php_spec(raw, combined).contains("php:"@ + "base64_decode"@) <==> pattern_matches(r"(?i)\bbase64_decode\s*\("@, (if combined.len() == 0 { lossy_utf8(raw) } else { combined })),
        scan_php_spec(raw, combined).contains("php:"@ + "gzinflate"@) <==> pattern_matches(r"(?i)\bgzinflate\s*\("@, (if combined.len() == 0 { lossy_utf8(raw) } else { combined })),
        scan_php_spec(raw, combined).contains("php:"@ + "obfuscated_eval"@) <==> pattern_matches(r"(?i)\beval\s*\(\s*(?:gzinflate|gzuncompress|str_rot13|base64_decode|convert_uudecode)\s*\("@, (if combined.len() == 0 { lossy_utf8(raw) } else { combined })),
        scan_php_spec(raw, combined).contains("php:"@ + "known_china_chopper"@) <==> pattern_matches(r"(?i)@eval\s*\(\s*\$_(?:POST|REQUEST)"@, (if combined.len() == 0 { lossy_utf8(raw) } else { combined })),
        scan_php_spec(raw, combined).contains("php:"@ + "create_function_sink"@) <==> pattern_matches(r"(?i)\bcreate_function\s*\("@, (if combined.len() == 0 { lossy_utf8(raw) } else { combined })),
        scan_php_spec(raw, combined).contains("php:"@ + "preg_replace_e_modifier"@) <==> pattern_matches(r#"(?i)preg_replace\s*\(\s*['"][^'"]*\/[a-z]*e[a-z]*['"]"#@, (if combined.len() == 0 { lossy_utf8(raw) } else { combined })),
        scan_php_spec(raw, combined).contains("php:"@ + "call_user_func_sink"@) <==> pattern_matches(r"(?i)\bcall_user_func(_array)?\s*\("@, (if combined.len() == 0 { lossy_utf8(raw) } else { combined })),
        scan_php_spec(raw, combined).contains("php:"@ + "extract_superglobal"@) <==> pattern_matches(r"(?i)\bextract\s*\(\s*\$_(?:GET|POST|REQUEST|COOKIE)"@, (if combined.len() == 0 { lossy_utf8(raw) } else { combined })),
        scan_php_spec(raw, combined).contains("php:"@ + "phpinfo_disclosure"@) <==> pattern_matches(r"(?i)\bphpinfo\s*\("@, (if combined.len() == 0 { lossy_utf8(raw) } else { combined })),
        scan_php_spec(raw, combined).contains("php:"@ + "superglobal_input"@) <==> pattern_matches(r"(?i)\$_(?:GET|POST|REQUEST|COOKIE|SERVER)\s*(?:\[[^\]]+\])?"@, (if combined.len() == 0 { lossy_utf8(raw) } else { combined })),
        scan_php_spec(raw, combined).contains("php:"@ + "eval_input"@) <==> (pattern_matches(r"(?is)\$_(?:GET|POST|REQUEST|COOKIE).{0,200}?\beval\s*\("@, (if combined.len() == 0 { lossy_utf8(raw) } else { combined })) || pattern_matches(r"(?is)\$_(?:GET|POST|REQUEST|COOKIE).{0,200}?\b(system|exec|shell_exec|passthru|popen|proc_open|assert)\s*\("@, (if combined.len() == 0 { lossy_utf8(raw) } else { combined })) || pattern_matches(r"(?is)@eval\s*\(\s*\$_(?:POST|REQUEST|GET)"@, (if combined.len() == 0 { lossy_utf8(raw) } else { combined }))),
        scan_php_spec(raw, combined).contains("php:"@ + "obf_eval_chain_0"@) <==> pattern_matches(r"(?is)eval\s*\(\s*(?:base64_decode|gzinflate|gzuncompress|str_rot13|convert_uudecode|hex2bin|strrev)\s*\("@, (if combined.len() == 0 { lossy_utf8(raw) } else { combined })),
        scan_php_spec(raw, combined).contains("php:"@ + "obf_eval_chain_1"@) <==> pattern_matches(r"(?is)(?:base64_decode|gzinflate|gzuncompress|str_rot13|convert_uudecode|hex2bin)\s*\([^;]{0,200}eval\s*\("@, (if combined.len() == 0 { lossy_utf8(raw) } else { combined })),
        scan_php_spec(raw, combined).contains("php:"@ + "obf_eval_chain_2"@) <==> pattern_matches(r"(?is)assert\s*\(\s*\$\w+\s*\("@, (if combined.len() == 0 { lossy_utf8(raw) } else { combined })),
{
    lemma_signature_found(raw, combined, 0);
    lemma_signature_found(raw, combined, 1);
    lemma_signature_found(raw, combined, 2);
    lemma_signature_found(raw, combined, 3);
    lemma_signature_found(raw, combined, 4);
    lemma_signature_found(raw, combined, 5);
    lemma_signature_found(raw, combined, 6);
    lemma_signature_found(raw, combined, 7);
    lemma_signature_found(raw, combined, 8);
    lemma_signature_found(raw, combined, 9);
    lemma_signature_found(raw, combined, 10);
    lemma_signature_found(raw, combined, 11);
    lemma_signature_found(raw, combined, 12);
    lemma_signature_found(raw, combined, 13);
    lemma_signature_found(raw, combined, 14);
    lemma_chain_found(raw, combined, 0);
    lemma_chain_found(raw, combined, 1);
    lemma_chain_found(raw, combined, 2);
    lemma_input_found(raw, combined);
    let text = php_text(raw, combined);
    assert(input_reaches_sink(text) <==> (pattern_matches(input_to_sink_patterns()[0], text) || pattern_matches(input_to_sink_patterns()[1], text) || pattern_matches(input_to_sink_patterns()[2], text)));
}

} // verus!
