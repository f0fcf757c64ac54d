//! The heuristic score: a weight for every finding, a bonus for what the
//! `.htaccess` files and the file type reveal, capped at 100.
use vstd::prelude::*;
use crate::model::{AIMode, FeaturesModel, FileFeatures, HeuristicModel, HeuristicResult};
use crate::text::{chars_of, concat2, contains_chars, contains_seq, decimal, decimal_string, str_eq, str_starts_with, views};

verus! {

/// Scores the features of a file and decides whether to ask the AI service.
pub struct Scorer {
    /// The score from which `Auto` mode asks the AI service; always positive.
    pub threshold: i32,
    pub ai_mode: AIMode,
}

impl Scorer {
    /// A scorer; a threshold of zero or below means 40.
    pub fn new(threshold: i32, ai_mode: AIMode) -> (s: Scorer)
        ensures
            s.threshold == (if threshold <= 0 { 40 } else { threshold }),
            s.ai_mode == ai_mode,
    {
        Scorer { threshold: if threshold <= 0 { 40 } else { threshold }, ai_mode }
    }
}

/// The weighted finding prefixes.
pub open spec fn weight_table() -> Seq<(Seq<char>, int)> {
    seq![
        ("htaccess:php_handler_disguise"@, 50),
        ("htaccess:allowed_php_file"@, 55),
        ("php:eval_input"@, 45),
        ("php:known_china_chopper"@, 60),
        ("php:known_wso"@, 55),
        ("php:obfuscated_eval"@, 50),
        ("php:obf_eval_chain"@, 50),
        ("php:eval_sink"@, 35),
        ("php:system_sink"@, 40),
        ("php:shell_exec_sink"@, 40),
        ("php:preg_replace_e_modifier"@, 45),
        ("php:create_function_sink"@, 40),
        ("php:extract_superglobal"@, 35),
        ("php:superglobal_input"@, 15),
        ("php:base64_decode"@, 20),
    ]
}

/// The weight of the first entry of `t` that is a prefix of `hit`.
pub open spec fn table_weight(hit: Seq<char>, t: Seq<(Seq<char>, int)>) -> Option<int>
    decreases t.len(),
{
    if t.len() == 0 {
        None
    } else if t[0].0.is_prefix_of(hit) {
        Some(t[0].1)
    } else {
        table_weight(hit, t.drop_first())
    }
}

/// The weight of a finding: that of its prefix in the table; 20 for another
/// `php:` finding; 5 for anything else.
pub open spec fn hit_weight(hit: Seq<char>) -> int {
    match table_weight(hit, weight_table()) {
        Some(w) => w,
        None => if "php:"@.is_prefix_of(hit) {
            20
        } else {
            5
        },
    }
}

fn table_entry(i: usize) -> (r: (&'static str, u64))
    requires
        i < 15,
    ensures
        r.0@ == weight_table()[i as int].0,
        r.1 as int == weight_table()[i as int].1,
{
    if i == 0 {
        ("htaccess:php_handler_disguise", 50)
    } else if i == 1 {
        ("htaccess:allowed_php_file", 55)
    } else if i == 2 {
        ("php:eval_input", 45)
    } else if i == 3 {
        ("php:known_china_chopper", 60)
    } else if i == 4 {
        ("php:known_wso", 55)
    } else if i == 5 {
        ("php:obfuscated_eval", 50)
    } else if i == 6 {
        ("php:obf_eval_chain", 50)
    } else if i == 7 {
        ("php:eval_sink", 35)
    } else if i == 8 {
        ("php:system_sink", 40)
    } else if i == 9 {
        ("php:shell_exec_sink", 40)
    } else if i == 10 {
        ("php:preg_replace_e_modifier", 45)
    } else if i == 11 {
        ("php:create_function_sink", 40)
    } else if i == 12 {
        ("php:extract_superglobal", 35)
    } else if i == 13 {
        ("php:superglobal_input", 15)
    } else {
        ("php:base64_decode", 20)
    }
}

/// The weight of a finding.
pub fn weight_for_hit(hit: &str) -> (w: u64)
    ensures
        w as int == hit_weight(hit@),
        1 <= w <= 60,
{
    let mut i: usize = 0;
    assert(weight_table().len() == 15);
    assert(weight_table().skip(0) =~= weight_table());
    while i < 15
        invariant
            i <= 15,
            weight_table().len() == 15,
            table_weight(hit@, weight_table().skip(i as int)) == table_weight(hit@, weight_table()),
        decreases 15 - i,
    {
        let (prefix, weight) = table_entry(i);
        let ghost t = weight_table().skip(i as int);
        assert(t[0] == weight_table()[i as int]);
        assert(t.drop_first() =~= weight_table().skip(i + 1));
        if str_starts_with(hit, prefix) {
            return weight;
        }
        i = i + 1;
    }
    assert(weight_table().skip(15) =~= Seq::<(Seq<char>, int)>::empty());
    if str_starts_with(hit, "php:") {
        20
    } else {
        5
    }
}

/// The sum of the weights of the findings.
pub open spec fn hits_total(hits: Seq<Seq<char>>) -> int
    decreases hits.len(),
{
    if hits.len() == 0 {
        0
    } else {
        hits_total(hits.drop_last()) + hit_weight(hits.last())
    }
}

/// The reason written for a finding: `[+w] finding`.
pub open spec fn hit_reason(hit: Seq<char>) -> Seq<char> {
    "[+"@ + decimal(hit_weight(hit) as nat) + "] "@ + hit
}

/// Some finding reports user input (`eval_input` or `superglobal_input`) and some
/// finding reports a dangerous call (`eval_sink`, `system_sink`, `shell_exec_sink`
/// or `exec_sink`).
pub open spec fn has_input_and_sink(hits: Seq<Seq<char>>) -> bool {
    (exists|i: int|
        0 <= i < hits.len() && (contains_seq(hits[i], "eval_input"@) || contains_seq(
            hits[i],
            "superglobal_input"@,
        ))) && (exists|i: int|
        0 <= i < hits.len() && (contains_seq(hits[i], "eval_sink"@) || contains_seq(
            hits[i],
            "system_sink"@,
        ) || contains_seq(hits[i], "shell_exec_sink"@) || contains_seq(hits[i], "exec_sink"@)))
}

/// The bonus for a file that a `<Files>` block names.
pub open spec fn allowed_bonus(f: FeaturesModel) -> int {
    if f.allowed_by_htaccess {
        25
    } else {
        0
    }
}

/// The bonus for a file whose extension a handler maps to PHP.
pub open spec fn disguise_bonus(f: FeaturesModel) -> int {
    if f.disguised_ext.len() > 0 {
        30
    } else {
        0
    }
}

/// The bonus for a webshell whose findings show input reaching a dangerous call.
pub open spec fn sink_bonus(f: FeaturesModel) -> int {
    if f.file_type == "webshell"@ && has_input_and_sink(f.signature_hits) {
        15
    } else {
        0
    }
}

/// The uncapped score of the features.
pub open spec fn raw_score(f: FeaturesModel) -> int {
    hits_total(f.signature_hits) + allowed_bonus(f) + disguise_bonus(f) + sink_bonus(f)
}

/// The reasons listed for the features, one per finding then one per bonus.
pub open spec fn score_reasons(f: FeaturesModel) -> Seq<Seq<char>> {
    let r1 = f.signature_hits.map_values(|h: Seq<char>| hit_reason(h));
    let r2 = if f.allowed_by_htaccess {
        r1.push("[+25] htaccess_whitelisted_file"@)
    } else {
        r1
    };
    let r3 = if f.disguised_ext.len() > 0 {
        r2.push("[+30] disguised_extension(."@ + f.disguised_ext + ")"@)
    } else {
        r2
    };
    if sink_bonus(f) > 0 {
        r3.push("[+15] webshell_input_to_sink"@)
    } else {
        r3
    }
}

pub open spec fn min100(x: int) -> int {
    if x > 100 {
        100
    } else {
        x
    }
}

/// Whether a scorer asks the AI service about a score.
pub open spec fn escalates(mode: AIMode, threshold: int, score: int) -> bool {
    match mode {
        AIMode::Always => true,
        AIMode::Off => false,
        AIMode::Auto => score >= threshold || score >= 70,
    }
}

/// What [`Scorer::score`] returns for the features.
pub open spec fn score_model(threshold: int, mode: AIMode, f: FeaturesModel) -> HeuristicModel {
    let s = min100(raw_score(f));
    HeuristicModel { score: s, reasons: score_reasons(f), escalate_to_ai: escalates(mode, threshold, s) }
}

proof fn lemma_hits_total_nonneg(hits: Seq<Seq<char>>)
    ensures
        hits_total(hits) >= 0,
    decreases hits.len(),
{
    if hits.len() > 0 {
        lemma_hits_total_nonneg(hits.drop_last());
        lemma_weight_bounds(hits.last());
    }
}

proof fn lemma_table_weight_bounds(hit: Seq<char>, t: Seq<(Seq<char>, int)>)
    requires
        forall|i: int| 0 <= i < t.len() ==> 1 <= #[trigger] t[i].1 <= 60,
    ensures
        table_weight(hit, t) matches Some(w) ==> 1 <= w <= 60,
    decreases t.len(),
{
    if t.len() > 0 && !t[0].0.is_prefix_of(hit) {
        lemma_table_weight_bounds(hit, t.drop_first());
    }
}

proof fn lemma_weight_bounds(hit: Seq<char>)
    ensures
        1 <= hit_weight(hit) <= 60,
{
    lemma_table_weight_bounds(hit, weight_table());
}

fn reason_for(hit: &str, w: u64) -> (r: String)
    requires
        w as int == hit_weight(hit@),
    ensures
        r@ == hit_reason(hit@),
{
    let d = decimal_string(w);
    let a = concat2("[+", d.as_str());
    let b = concat2(a.as_str(), "] ");
    concat2(b.as_str(), hit)
}

/// Whether the findings show user input and a dangerous call.
pub fn has_php_input_sink(hits: &Vec<String>) -> (b: bool)
    ensures
        b == has_input_and_sink(views(hits@)),
{
    let p1 = chars_of("eval_input");
    let p2 = chars_of("superglobal_input");
    let s1 = chars_of("eval_sink");
    let s2 = chars_of("system_sink");
    let s3 = chars_of("shell_exec_sink");
    let s4 = chars_of("exec_sink");
    let mut has_input = false;
    let mut has_sink = false;
    let mut i: usize = 0;
    while i < hits.len()
        invariant
            i <= hits@.len(),
            p1@ == "eval_input"@,
            p2@ == "superglobal_input"@,
            s1@ == "eval_sink"@,
            s2@ == "system_sink"@,
            s3@ == "shell_exec_sink"@,
            s4@ == "exec_sink"@,
            has_input == exists|j: int|
                0 <= j < i && (contains_seq(hits@[j]@, p1@) || contains_seq(hits@[j]@, p2@)),
            has_sink == exists|j: int|
                0 <= j < i && (contains_seq(hits@[j]@, s1@) || contains_seq(hits@[j]@, s2@)
                    || contains_seq(hits@[j]@, s3@) || contains_seq(hits@[j]@, s4@)),
        decreases hits@.len() - i,
    {
        let h = chars_of(hits[i].as_str());
        if contains_chars(&h, &p1) || contains_chars(&h, &p2) {
            has_input = true;
        }
        if contains_chars(&h, &s1) || contains_chars(&h, &s2) || contains_chars(&h, &s3)
            || contains_chars(&h, &s4) {
            has_sink = true;
        }
        i = i + 1;
    }
    let r = has_input && has_sink;
    proof {
        let v = views(hits@);
        assert(r == has_input_and_sink(v)) by {
            if has_input_and_sink(v) {
                let a = choose|j: int|
                    0 <= j < v.len() && (contains_seq(v[j], "eval_input"@) || contains_seq(
                        v[j],
                        "superglobal_input"@,
                    ));
                let b = choose|j: int|
                    0 <= j < v.len() && (contains_seq(v[j], "eval_sink"@) || contains_seq(
                        v[j],
                        "system_sink"@,
                    ) || contains_seq(v[j], "shell_exec_sink"@) || contains_seq(
                        v[j],
                        "exec_sink"@,
                    ));
                assert(hits@[a]@ == v[a]);
                assert(hits@[b]@ == v[b]);
            }
            if r {
                let a = choose|j: int|
                    0 <= j < i && (contains_seq(hits@[j]@, p1@) || contains_seq(hits@[j]@, p2@));
                let b = choose|j: int|
                    0 <= j < i && (contains_seq(hits@[j]@, s1@) || contains_seq(hits@[j]@, s2@)
                        || contains_seq(hits@[j]@, s3@) || contains_seq(hits@[j]@, s4@));
                assert(v[a] == hits@[a]@);
                assert(v[b] == hits@[b]@);
            }
        }
    }
    r
}

impl Scorer {
    /// Scores the features of a file.
    pub fn score(&self, features: &FileFeatures) -> (r: HeuristicResult)
        ensures
            r@ == score_model(self.threshold as int, self.ai_mode, features@),
            0 <= r@.score <= 100,
    {
        let ghost f = features@;
        let ghost hits = f.signature_hits;
        let mut reasons: Vec<String> = Vec::new();
        let mut total: u64 = 0;
        let mut i: usize = 0;
        while i < features.signature_hits.len()
            invariant
                i <= features.signature_hits@.len(),
                f == features@,
                hits == views(features.signature_hits@),
                total as int == min100(hits_total(hits.take(i as int))),
                views(reasons@) == hits.take(i as int).map_values(|h: Seq<char>| hit_reason(h)),
            decreases features.signature_hits@.len() - i,
        {
            let hit = &features.signature_hits[i];
            let w = weight_for_hit(hit.as_str());
            proof {
                lemma_hits_total_nonneg(hits.take(i as int));
                assert(hits.take(i + 1).drop_last() =~= hits.take(i as int));
                assert(hits.take(i + 1).last() == hit@);
            }
            total = if total + w > 100 {
                100
            } else {
                total + w
            };
            let ghost before = views(reasons@);
            let reason = reason_for(hit.as_str(), w);
            reasons.push(reason);
            proof {
                assert(hits[i as int] == hit@);
                assert(views(reasons@) =~= before.push(reason@));
                assert(hits.take(i + 1).map_values(|h: Seq<char>| hit_reason(h)) =~= hits.take(
                    i as int,
                ).map_values(|h: Seq<char>| hit_reason(h)).push(hit_reason(hit@)));
            }
            i = i + 1;
        }
        assert(hits.take(hits.len() as int) =~= hits);
        proof {
            lemma_hits_total_nonneg(hits);
        }
        if features.allowed_by_htaccess {
            total = if total + 25 > 100 {
                100
            } else {
                total + 25
            };
            reasons.push(copy_str_lit("[+25] htaccess_whitelisted_file"));
        }
        if !features.disguised_ext.as_str().is_empty() {
            total = if total + 30 > 100 {
                100
            } else {
                total + 30
            };
            let a = concat2("[+30] disguised_extension(.", features.disguised_ext.as_str());
            reasons.push(concat2(a.as_str(), ")"));
        }
        if str_eq(features.file_type.as_str(), "webshell") && has_php_input_sink(
            &features.signature_hits,
        ) {
            total = if total + 15 > 100 {
                100
            } else {
                total + 15
            };
            reasons.push(copy_str_lit("[+15] webshell_input_to_sink"));
        }
        assert(total as int == min100(raw_score(f)));
        let score = total as i32;
        let escalate = match self.ai_mode {
            AIMode::Always => true,
            AIMode::Off => false,
            AIMode::Auto => score >= self.threshold || score >= 70,
        };
        let r = HeuristicResult { score, reasons, escalate_to_ai: escalate };
        assert(r@.reasons =~= score_reasons(f));
        r
    }
}

fn copy_str_lit(s: &str) -> (r: String)
    ensures
        r@ == s@,
{
    s.to_owned()
}

/// The score never exceeds 100, and at 70 and above `Auto` mode always asks the
/// AI service; `Always` always asks and `Off` never does.
pub proof fn law_score_capped_and_escalation(threshold: int, mode: AIMode, f: FeaturesModel)
    ensures
        0 <= score_model(threshold, mode, f).score <= 100,
        mode == AIMode::Always ==> score_model(threshold, mode, f).escalate_to_ai,
        mode == AIMode::Off ==> !score_model(threshold, mode, f).escalate_to_ai,
        mode == AIMode::Auto && score_model(threshold, mode, f).score >= 70 ==> score_model(
            threshold,
            mode,
            f,
        ).escalate_to_ai,
{
    lemma_hits_total_nonneg(f.signature_hits);
}

/// Every finding adds at least one point (up to the cap): more findings never lower
/// the score.
pub proof fn law_more_hits_never_lower(hits: Seq<Seq<char>>, extra: Seq<char>)
    ensures
        hits_total(hits.push(extra)) > hits_total(hits),
{
    assert(hits.push(extra).drop_last() =~= hits);
    lemma_weight_bounds(extra);
}


/// The entry of the weight table told apart by the characters at positions 4 and 11
/// of its prefix (-1 for none): these two characters differ between any two entries.
pub open spec fn entry_by_marks(c4: char, c11: char) -> int {
    if c4 == 'c' && c11 == 'p' {
        0
    } else if c4 == 'c' && c11 == 'l' {
        1
    } else if c4 == 'e' && c11 == 'p' {
        2
    } else if c4 == 'k' && c11 == 'h' {
        3
    } else if c4 == 'k' && c11 == 's' {
        4
    } else if c4 == 'o' && c11 == 't' {
        5
    } else if c4 == 'o' && c11 == 'l' {
        6
    } else if c4 == 'e' && c11 == 'n' {
        7
    } else if c4 == 's' && c11 == 's' {
        8
    } else if c4 == 's' && c11 == 'x' {
        9
    } else if c4 == 'p' && c11 == 'p' {
        10
    } else if c4 == 'c' && c11 == 'f' {
        11
    } else if c4 == 'e' && c11 == '_' {
        12
    } else if c4 == 's' && c11 == 'o' {
        13
    } else if c4 == 'b' && c11 == 'd' {
        14
    } else {
        -1
    }
}

proof fn lemma_entry_marks(i: int)
    requires
        0 <= i < 15,
    ensures
        weight_table()[i].0.len() > 11,
        entry_by_marks(weight_table()[i].0[4], weight_table()[i].0[11]) == i,
{
    reveal_strlit("htaccess:php_handler_disguise");
    reveal_strlit("htaccess:allowed_php_file");
    reveal_strlit("php:eval_input");
    reveal_strlit("php:known_china_chopper");
    reveal_strlit("php:known_wso");
    reveal_strlit("php:obfuscated_eval");
    reveal_strlit("php:obf_eval_chain");
    reveal_strlit("php:eval_sink");
    reveal_strlit("php:system_sink");
    reveal_strlit("php:shell_exec_sink");
    reveal_strlit("php:preg_replace_e_modifier");
    reveal_strlit("php:create_function_sink");
    reveal_strlit("php:extract_superglobal");
    reveal_strlit("php:superglobal_input");
    reveal_strlit("php:base64_decode");
    if i == 0 {
        assert(weight_table()[0].0 == "htaccess:php_handler_disguise"@);
    } else if i == 1 {
        assert(weight_table()[1].0 == "htaccess:allowed_php_file"@);
    } else if i == 2 {
        assert(weight_table()[2].0 == "php:eval_input"@);
    } else if i == 3 {
        assert(weight_table()[3].0 == "php:known_china_chopper"@);
    } else if i == 4 {
        assert(weight_table()[4].0 == "php:known_wso"@);
    } else if i == 5 {
        assert(weight_table()[5].0 == "php:obfuscated_eval"@);
    } else if i == 6 {
        assert(weight_table()[6].0 == "php:obf_eval_chain"@);
    } else if i == 7 {
        assert(weight_table()[7].0 == "php:eval_sink"@);
    } else if i == 8 {
        assert(weight_table()[8].0 == "php:system_sink"@);
    } else if i == 9 {
        assert(weight_table()[9].0 == "php:shell_exec_sink"@);
    } else if i == 10 {
        assert(weight_table()[10].0 == "php:preg_replace_e_modifier"@);
    } else if i == 11 {
        assert(weight_table()[11].0 == "php:create_function_sink"@);
    } else if i == 12 {
        assert(weight_table()[12].0 == "php:extract_superglobal"@);
    } else if i == 13 {
        assert(weight_table()[13].0 == "php:superglobal_input"@);
    } else if i == 14 {
        assert(weight_table()[14].0 == "php:base64_decode"@);
    }
}

proof fn lemma_table_weight_found(hit: Seq<char>, t: Seq<(Seq<char>, int)>)
    ensures
        match table_weight(hit, t) {
            Some(w) => exists|m: int| 0 <= m < t.len() && #[trigger] t[m].0.is_prefix_of(hit) && t[m].1 == w,
            None => forall|m: int| 0 <= m < t.len() ==> !(#[trigger] t[m].0.is_prefix_of(hit)),
        },
    decreases t.len(),
{
    if t.len() > 0 {
        lemma_table_weight_found(hit, t.drop_first());
        if !t[0].0.is_prefix_of(hit) {
            match table_weight(hit, t.drop_first()) {
                Some(w) => {
                    let m = choose|m: int|
                        0 <= m < t.drop_first().len() && #[trigger] t.drop_first()[m].0.is_prefix_of(hit)
                            && t.drop_first()[m].1 == w;
                    assert(t[m + 1] == t.drop_first()[m]);
                },
                None => {
                    assert forall|m: int| 0 <= m < t.len() implies !(#[trigger] t[m].0.is_prefix_of(hit)) by {
                        if m > 0 {
                            assert(t[m] == t.drop_first()[m - 1]);
                        }
                    }
                },
            }
        }
    }
}

/// A finding's weight is that of any table entry it starts with: no finding starts
/// with two entries, so the order in which the table is searched does not matter.
pub proof fn law_weight_order_free(hit: Seq<char>, i: int)
    requires
        0 <= i < weight_table().len(),
        weight_table()[i].0.is_prefix_of(hit),
    ensures
        hit_weight(hit) == weight_table()[i].1,
{
    let t = weight_table();
    lemma_table_weight_found(hit, t);
    lemma_entry_marks(i);
    match table_weight(hit, t) {
        Some(w) => {
            let m = choose|m: int| 0 <= m < t.len() && #[trigger] t[m].0.is_prefix_of(hit) && t[m].1 == w;
            lemma_entry_marks(m);
            assert(t[m].0[4] == hit[4] && t[i].0[4] == hit[4]);
            assert(t[m].0[11] == hit[11] && t[i].0[11] == hit[11]);
        },
        None => {
            assert(!t[i].0.is_prefix_of(hit));
        },
    }
}

/// `a` is `b` with some entries left out (in order, anywhere).
pub open spec fn is_subseq(a: Seq<Seq<char>>, b: Seq<Seq<char>>) -> bool
    decreases b.len(),
{
    if a.len() == 0 {
        true
    } else if b.len() == 0 {
        false
    } else if a.last() == b.last() {
        is_subseq(a.drop_last(), b.drop_last())
    } else {
        is_subseq(a, b.drop_last())
    }
}

proof fn lemma_subseq_total(a: Seq<Seq<char>>, b: Seq<Seq<char>>)
    requires
        is_subseq(a, b),
    ensures
        hits_total(a) <= hits_total(b),
    decreases b.len(),
{
    if a.len() == 0 {
        lemma_hits_total_nonneg(b);
    } else if a.last() == b.last() {
        lemma_subseq_total(a.drop_last(), b.drop_last());
    } else {
        lemma_subseq_total(a, b.drop_last());
        lemma_weight_bounds(b.last());
    }
}

proof fn lemma_subseq_has(a: Seq<Seq<char>>, b: Seq<Seq<char>>, i: int)
    requires
        is_subseq(a, b),
        0 <= i < a.len(),
    ensures
        exists|j: int| 0 <= j < b.len() && b[j] == a[i],
    decreases b.len(),
{
    if a.last() == b.last() {
        if i == a.len() - 1 {
            assert(b[b.len() - 1] == a[i]);
        } else {
            lemma_subseq_has(a.drop_last(), b.drop_last(), i);
            let j = choose|j: int| 0 <= j < b.drop_last().len() && b.drop_last()[j] == a.drop_last()[i];
            assert(b[j] == a[i]);
        }
    } else {
        lemma_subseq_has(a, b.drop_last(), i);
        let j = choose|j: int| 0 <= j < b.drop_last().len() && b.drop_last()[j] == a[i];
        assert(b[j] == a[i]);
    }
}

/// More findings, or the `<Files>` flag, never lower the score: where `g` has every
/// finding of `f` (in order, with others between) and is flagged wherever `f` is,
/// and agrees with `f` otherwise, its score is at least that of `f`.
pub proof fn law_more_findings_never_lower(threshold: int, mode: AIMode, f: FeaturesModel, g: FeaturesModel)
    requires
        g == (FeaturesModel {
            signature_hits: g.signature_hits,
            allowed_by_htaccess: g.allowed_by_htaccess,
            ..f
        }),
        is_subseq(f.signature_hits, g.signature_hits),
        f.allowed_by_htaccess ==> g.allowed_by_htaccess,
    ensures
        score_model(threshold, mode, f).score <= score_model(threshold, mode, g).score,
{
    lemma_subseq_total(f.signature_hits, g.signature_hits);
    let a = f.signature_hits;
    let b = g.signature_hits;
    if has_input_and_sink(a) {
        let i = choose|i: int|
            0 <= i < a.len() && (contains_seq(a[i], "eval_input"@) || contains_seq(a[i], "superglobal_input"@));
        let k = choose|k: int|
            0 <= k < a.len() && (contains_seq(a[k], "eval_sink"@) || contains_seq(a[k], "system_sink"@)
                || contains_seq(a[k], "shell_exec_sink"@) || contains_seq(a[k], "exec_sink"@));
        lemma_subseq_has(a, b, i);
        lemma_subseq_has(a, b, k);
        let ji = choose|j: int| 0 <= j < b.len() && b[j] == a[i];
        let jk = choose|j: int| 0 <= j < b.len() && b[j] == a[k];
        assert(has_input_and_sink(b)) by {
            assert(0 <= ji < b.len() && (contains_seq(b[ji], "eval_input"@) || contains_seq(b[ji], "superglobal_input"@)));
            assert(0 <= jk < b.len() && (contains_seq(b[jk], "eval_sink"@) || contains_seq(b[jk], "system_sink"@)
                || contains_seq(b[jk], "shell_exec_sink"@) || contains_seq(b[jk], "exec_sink"@)));
        }
    }
    assert(raw_score(f) <= raw_score(g));
}

/// The score is the sum of the findings' weights, plus 25 for a file a `<Files>`
/// block names, plus 30 for a disguised extension, plus 15 for a webshell where
/// some finding reports input (`eval_input`, `superglobal_input`) and some finding
/// a dangerous call (`eval_sink`, `system_sink`, `shell_exec_sink`, `exec_sink`),
/// capped at 100; and that last bonus is listed as the final reason.
pub proof fn law_score_sum(threshold: int, mode: AIMode, f: FeaturesModel)
    ensures
        ({
            let h = f.signature_hits;
            let input = exists|i: int|
                0 <= i < h.len() && (contains_seq(h[i], "eval_input"@) || contains_seq(
                    h[i],
                    "superglobal_input"@,
                ));
            let sink = exists|j: int|
                0 <= j < h.len() && (contains_seq(h[j], "eval_sink"@) || contains_seq(
                    h[j],
                    "system_sink"@,
                ) || contains_seq(h[j], "shell_exec_sink"@) || contains_seq(h[j], "exec_sink"@));
            let bonus = (if f.allowed_by_htaccess {
                25int
            } else {
                0int
            }) + (if f.disguised_ext.len() > 0 {
                30int
            } else {
                0int
            }) + (if f.file_type == "webshell"@ && input && sink {
                15int
            } else {
                0int
            });
            let total = hits_total(h) + bonus;
            &&& score_model(threshold, mode, f).score == (if total > 100 {
                100
            } else {
                total
            })
            &&& (f.file_type == "webshell"@ && input && sink) ==> score_model(threshold, mode, f).reasons.last()
                == "[+15] webshell_input_to_sink"@
        }),
{
}


/// The weight of a finding that starts with one of the weighted prefixes is that
/// prefix's weight, whichever other characters follow.
pub proof fn law_prefix_weights(hit: Seq<char>)
    ensures
        "htaccess:php_handler_disguise"@.is_prefix_of(hit) ==> hit_weight(hit) == 50,
        "htaccess:allowed_php_file"@.is_prefix_of(hit) ==> hit_weight(hit) == 55,
        "php:eval_input"@.is_prefix_of(hit) ==> hit_weight(hit) == 45,
        "php:known_china_chopper"@.is_prefix_of(hit) ==> hit_weight(hit) == 60,
        "php:known_wso"@.is_prefix_of(hit) ==> hit_weight(hit) == 55,
        "php:obfuscated_eval"@.is_prefix_of(hit) ==> hit_weight(hit) == 50,
        "php:obf_eval_chain"@.is_prefix_of(hit) ==> hit_weight(hit) == 50,
        "php:eval_sink"@.is_prefix_of(hit) ==> hit_weight(hit) == 35,
        "php:system_sink"@.is_prefix_of(hit) ==> hit_weight(hit) == 40,
        "php:shell_exec_sink"@.is_prefix_of(hit) ==> hit_weight(hit) == 40,
        "php:preg_replace_e_modifier"@.is_prefix_of(hit) ==> hit_weight(hit) == 45,
        "php:create_function_sink"@.is_prefix_of(hit) ==> hit_weight(hit) == 40,
        "php:extract_superglobal"@.is_prefix_of(hit) ==> hit_weight(hit) == 35,
        "php:superglobal_input"@.is_prefix_of(hit) ==> hit_weight(hit) == 15,
        "php:base64_decode"@.is_prefix_of(hit) ==> hit_weight(hit) == 20,
{
    if "htaccess:php_handler_disguise"@.is_prefix_of(hit) {
        assert(weight_table()[0].0 == "htaccess:php_handler_disguise"@);
        law_weight_order_free(hit, 0);
    }
    if "htaccess:allowed_php_file"@.is_prefix_of(hit) {
        assert(weight_table()[1].0 == "htaccess:allowed_php_file"@);
        law_weight_order_free(hit, 1);
    }
    if "php:eval_input"@.is_prefix_of(hit) {
        assert(weight_table()[2].0 == "php:eval_input"@);
        law_weight_order_free(hit, 2);
    }
    if "php:known_china_chopper"@.is_prefix_of(hit) {
        assert(weight_table()[3].0 == "php:known_china_chopper"@);
        law_weight_order_free(hit, 3);
    }
    if "php:known_wso"@.is_prefix_of(hit) {
        assert(weight_table()[4].0 == "php:known_wso"@);
        law_weight_order_free(hit, 4);
    }
    if "php:obfuscated_eval"@.is_prefix_of(hit) {
        assert(weight_table()[5].0 == "php:obfuscated_eval"@);
        law_weight_order_free(hit, 5);
    }
    if "php:obf_eval_chain"@.is_prefix_of(hit) {
        assert(weight_table()[6].0 == "php:obf_eval_chain"@);
        law_weight_order_free(hit, 6);
    }
    if "php:eval_sink"@.is_prefix_of(hit) {
        assert(weight_table()[7].0 == "php:eval_sink"@);
        law_weight_order_free(hit, 7);
    }
    if "php:system_sink"@.is_prefix_of(hit) {
        assert(weight_table()[8].0 == "php:system_sink"@);
        law_weight_order_free(hit, 8);
    }
    if "php:shell_exec_sink"@.is_prefix_of(hit) {
        assert(weight_table()[9].0 == "php:shell_exec_sink"@);
        law_weight_order_free(hit, 9);
    }
    if "php:preg_replace_e_modifier"@.is_prefix_of(hit) {
        assert(weight_table()[10].0 == "php:preg_replace_e_modifier"@);
        law_weight_order_free(hit, 10);
    }
    if "php:create_function_sink"@.is_prefix_of(hit) {
        assert(weight_table()[11].0 == "php:create_function_sink"@);
        law_weight_order_free(hit, 11);
    }
    if "php:extract_superglobal"@.is_prefix_of(hit) {
        assert(weight_table()[12].0 == "php:extract_superglobal"@);
        law_weight_order_free(hit, 12);
    }
    if "php:superglobal_input"@.is_prefix_of(hit) {
        assert(weight_table()[13].0 == "php:superglobal_input"@);
        law_weight_order_free(hit, 13);
    }
    if "php:base64_decode"@.is_prefix_of(hit) {
        assert(weight_table()[14].0 == "php:base64_decode"@);
        law_weight_order_free(hit, 14);
    }
}

/// A finding with none of the weighted prefixes weighs 20 when it starts with
/// `php:`, else 5.
pub proof fn law_other_weights(hit: Seq<char>)
    requires
        !"htaccess:php_handler_disguise"@.is_prefix_of(hit),
        !"htaccess:allowed_php_file"@.is_prefix_of(hit),
        !"php:eval_input"@.is_prefix_of(hit),
        !"php:known_china_chopper"@.is_prefix_of(hit),
        !"php:known_wso"@.is_prefix_of(hit),
        !"php:obfuscated_eval"@.is_prefix_of(hit),
        !"php:obf_eval_chain"@.is_prefix_of(hit),
        !"php:eval_sink"@.is_prefix_of(hit),
        !"php:system_sink"@.is_prefix_of(hit),
        !"php:shell_exec_sink"@.is_prefix_of(hit),
        !"php:preg_replace_e_modifier"@.is_prefix_of(hit),
        !"php:create_function_sink"@.is_prefix_of(hit),
        !"php:extract_superglobal"@.is_prefix_of(hit),
        !"php:superglobal_input"@.is_prefix_of(hit),
        !"php:base64_decode"@.is_prefix_of(hit),
    ensures
        hit_weight(hit) == (if "php:"@.is_prefix_of(hit) {
            20int
        } else {
            5int
        }),
{
    lemma_table_weight_found(hit, weight_table());
    if table_weight(hit, weight_table()) is Some {
        let m = choose|m: int|
            0 <= m < weight_table().len() && #[trigger] weight_table()[m].0.is_prefix_of(hit)
                && weight_table()[m].1 == table_weight(hit, weight_table())->Some_0;
        if m == 0 {
            assert(weight_table()[0].0 == "htaccess:php_handler_disguise"@);
        } else if m == 1 {
            assert(weight_table()[1].0 == "htaccess:allowed_php_file"@);
        } else if m == 2 {
            assert(weight_table()[2].0 == "php:eval_input"@);
        } else if m == 3 {
            assert(weight_table()[3].0 == "php:known_china_chopper"@);
        } else if m == 4 {
            assert(weight_table()[4].0 == "php:known_wso"@);
        } else if m == 5 {
            assert(weight_table()[5].0 == "php:obfuscated_eval"@);
        } else if m == 6 {
            assert(weight_table()[6].0 == "php:obf_eval_chain"@);
        } else if m == 7 {
            assert(weight_table()[7].0 == "php:eval_sink"@);
        } else if m == 8 {
            assert(weight_table()[8].0 == "php:system_sink"@);
        } else if m == 9 {
            assert(weight_table()[9].0 == "php:shell_exec_sink"@);
        } else if m == 10 {
            assert(weight_table()[10].0 == "php:preg_replace_e_modifier"@);
        } else if m == 11 {
            assert(weight_table()[11].0 == "php:create_function_sink"@);
        } else if m == 12 {
            assert(weight_table()[12].0 == "php:extract_superglobal"@);
        } else if m == 13 {
            assert(weight_table()[13].0 == "php:superglobal_input"@);
        } else if m == 14 {
            assert(weight_table()[14].0 == "php:base64_decode"@);
        }
    }
}

/// With `Auto`, the AI service is asked once the score reaches the scorer's
/// threshold or 70.
pub proof fn law_auto_threshold(threshold: int, f: FeaturesModel)
    ensures
        score_model(threshold, AIMode::Auto, f).escalate_to_ai == (score_model(threshold, AIMode::Auto, f).score
            >= threshold || score_model(threshold, AIMode::Auto, f).score >= 70),
{
}

} // verus!
