//! The scan of a tree of files: the policy its `.htaccess` files give, the files
//! in scope, one scan per distinct content, and the results per file.
use vstd::prelude::*;
use crate::extractor::{examine, examined, features_of, hex_lower, sha256_hex, sha256_of, Extractor};
use crate::heuristics::{score_model, Scorer};
use crate::htaccess::{
    is_htaccess_file, is_htaccess_path, key_index, parse, parse_model, split_char, split_chars,
    vec_views, Config, ConfigModel,
};
use crate::model::{
    blank_features, AIMode, AIModel, AIVerdict, FeaturesModel, FileFeatures, HeuristicModel,
    HeuristicResult, ResultModel, ScanResult,
};
use crate::paths::{base_name, base_name_of, ext_name, ext_name_of};
use crate::signature::{scan_webshell, scan_webshell_spec};
use crate::text::{
    chars_of, concat2, concat3, contains_chars, copy_str, copy_strings, decode_strict, find_from,
    lemma_leftmost_from, lemma_seq_lt_irreflexive, lemma_seq_lt_transitive, leftmost_from,
    occurs_at, occurs_at_exec, seq_lt, str_eq, str_less, strict_utf8, to_lower, unicode_lower, views,
};
use crate::webshell::{
    add_extra, config_models, initial_model, looks_like_php, looks_like_php_spec, merge_all,
    should_scan_spec, Policy, PolicyModel,
};

verus! {

// ---------------------------------------------------------------------------
// Exclusion patterns.
/// Whether the `*`-separated parts of a pattern are found in `text` one after the
/// other, each at its leftmost occurrence from where the previous one ended, the
/// first part (when `first` holds) at the very start. Empty parts are skipped; the
/// last part need not reach the end of the text.
pub open spec fn parts_match(parts: Seq<Seq<char>>, text: Seq<char>, pos: int, first: bool) -> bool
    decreases parts.len(),
{
    if parts.len() == 0 {
        true
    } else {
        let p = parts[0];
        if p.len() == 0 {
            parts_match(parts.drop_first(), text, pos, false)
        } else if first && !p.is_prefix_of(text) {
            false
        } else {
            match leftmost_from(text, p, pos) {
                Some(i) => parts_match(parts.drop_first(), text, i + p.len(), false),
                None => false,
            }
        }
    }
}

/// Whether an exclusion pattern matches: a pattern with `*` by its parts, any
/// other pattern by equality.
pub open spec fn glob_spec(pattern: Seq<char>, text: Seq<char>) -> bool {
    if pattern.contains('*') {
        parts_match(split_char(pattern, '*'), text, 0, true)
    } else {
        pattern == text
    }
}

pub fn glob_match(pattern: &str, text: &str) -> (b: bool)
    ensures
        b == glob_spec(pattern@, text@),
{
    let pc = chars_of(pattern);
    let tc = chars_of(text);
    let mut has_star = false;
    let mut k: usize = 0;
    while k < pc.len()
        invariant
            k <= pc@.len(),
            has_star == exists|j: int| 0 <= j < k && pc@[j] == '*',
        decreases pc@.len() - k,
    {
        if pc[k] == '*' {
            has_star = true;
        }
        k = k + 1;
    }
    assert(has_star == pattern@.contains('*'));
    if !has_star {
        return str_eq(pattern, text);
    }
    let tl = tc.len();
    let parts = split_chars(&pc, '*');
    let ghost ps = vec_views(parts@);
    let mut pos: usize = 0;
    let mut i: usize = 0;
    assert(ps.skip(0) =~= ps);
    while i < parts.len()
        invariant
            i <= parts@.len(),
            ps == vec_views(parts@),
            ps == split_char(pc@, '*'),
            tc@ == text@,
            tl == tc@.len(),
            pc@ == pattern@,
            pattern@.contains('*'),
            pos <= tc@.len(),
            parts_match(ps.skip(i as int), tc@, pos as int, i == 0) == parts_match(
                ps,
                tc@,
                0,
                true,
            ),
        decreases parts@.len() - i,
    {
        let part = &parts[i];
        let ghost rest = ps.skip(i as int);
        assert(rest[0] == part@);
        assert(rest.drop_first() =~= ps.skip(i + 1));
        if part.len() == 0 {
            i = i + 1;
            continue;
        }
        if i == 0 && !occurs_at_exec(&tc, part, 0) {
            proof {
                if part@.is_prefix_of(tc@) {
                    assert(tc@.subrange(0, part@.len() as int) =~= part@);
                }
            }
            return false;
        }
        proof {
            if i == 0 {
                assert(tc@.subrange(0, part@.len() as int) == part@);
            }
        }
        match find_from(&tc, part, pos) {
            Some(idx) => {
                proof {
                    lemma_leftmost_from(tc@, part@, pos as int, Some(idx as int));
                }
                pos = idx + part.len();
            },
            None => {
                proof {
                    lemma_leftmost_from(tc@, part@, pos as int, None);
                }
                return false;
            },
        }
        i = i + 1;
    }
    assert(ps.skip(parts@.len() as int) =~= Seq::<Seq<char>>::empty());
    true
}


/// A glob without `*` matches exactly the text equal to it; `*` matches every text.
pub proof fn law_glob_literal_and_star(pattern: Seq<char>, text: Seq<char>)
    ensures
        !pattern.contains('*') ==> (glob_spec(pattern, text) <==> pattern == text),
        glob_spec("*"@, text),
{
    reveal_strlit("*");
    let star = "*"@;
    assert(star[0] == '*');
    assert(star.drop_last() =~= Seq::<char>::empty());
    let (d0, c0) = crate::htaccess::split_acc(star.drop_last(), '*');
    assert(d0 =~= Seq::<Seq<char>>::empty());
    let parts = split_char(star, '*');
    assert(parts =~= seq![Seq::<char>::empty(), Seq::<char>::empty()]);
    assert(parts.drop_first().drop_first() =~= Seq::<Seq<char>>::empty());
    assert(star.contains('*'));
    assert(parts_match(parts.drop_first().drop_first(), text, 0, false));
    assert(parts_match(parts.drop_first(), text, 0, false));
    assert(parts_match(parts, text, 0, true));
}

// ---------------------------------------------------------------------------
// The scanner.
/// Scans trees of files for webshells.
pub struct Scanner {
    pub ai_mode: AIMode,
    pub threshold: i32,
    /// How many leading bytes of a file decide its scope and its duplicates.
    pub max_bytes: u64,
    pub workers: usize,
    pub exclude_patterns: Vec<String>,
    pub extra_extensions: Vec<String>,
    pub extractor: Extractor,
    pub scorer: Scorer,
    /// The key for the AI service (empty: not configured).
    pub api_key: String,
    pub policy: Policy,
}

impl Scanner {
    /// A scanner; zero workers means four, a threshold of zero or below means 40.
    pub fn new(
        ai_mode: AIMode,
        threshold: i32,
        max_bytes: u64,
        workers: usize,
        excludes: Vec<String>,
        extra_exts: Vec<String>,
        api_key: String,
    ) -> (s: Scanner)
        ensures
            s.ai_mode == ai_mode,
            s.threshold == threshold,
            s.max_bytes == max_bytes,
            s.workers == (if workers == 0 { 4 } else { workers }),
            views(s.exclude_patterns@) == views(excludes@),
            views(s.extra_extensions@) == views(extra_exts@),
            s.extractor.max_bytes == (if max_bytes == 0 { 52428800 } else { max_bytes }),
            s.scorer.threshold == (if threshold <= 0 { 40 } else { threshold }),
            s.scorer.ai_mode == ai_mode,
            s.api_key@ == api_key@,
            s.policy@ == (PolicyModel {
                exts: add_extra(merge_all(initial_model(), Seq::empty()).exts, views(extra_exts@)),
                ..merge_all(initial_model(), Seq::empty())
            }),
    {
        let none: Vec<Config> = Vec::new();
        let base = Policy::new(none.as_slice());
        assert(config_models(none@) =~= Seq::<ConfigModel>::empty());
        let policy = base.with_extra_extensions(extra_exts.as_slice());
        let extra = copy_strings(&extra_exts);
        Scanner {
            ai_mode,
            threshold,
            max_bytes,
            workers: if workers == 0 {
                4
            } else {
                workers
            },
            exclude_patterns: excludes,
            extra_extensions: extra,
            extractor: Extractor::new(max_bytes),
            scorer: Scorer::new(threshold, ai_mode),
            api_key,
            policy,
        }
    }
}

/// A path is excluded when some pattern matches its final component or the whole path.
pub open spec fn excluded_by(patterns: Seq<Seq<char>>, path: Seq<char>) -> bool {
    exists|i: int|
        0 <= i < patterns.len() && (glob_spec(#[trigger] patterns[i], base_name(path)) || glob_spec(
            patterns[i],
            path,
        ))
}

impl Scanner {
    pub fn is_excluded(&self, path: &str) -> (b: bool)
        ensures
            b == excluded_by(views(self.exclude_patterns@), path@),
    {
        let base = base_name_of(path);
        let mut i: usize = 0;
        while i < self.exclude_patterns.len()
            invariant
                i <= self.exclude_patterns@.len(),
                base@ == base_name(path@),
                forall|j: int|
                    0 <= j < i ==> !(glob_spec(
                        #[trigger] views(self.exclude_patterns@)[j],
                        base_name(path@),
                    ) || glob_spec(views(self.exclude_patterns@)[j], path@)),
            decreases self.exclude_patterns@.len() - i,
        {
            let pat = self.exclude_patterns[i].as_str();
            if glob_match(pat, base.as_str()) || glob_match(pat, path) {
                assert(views(self.exclude_patterns@)[i as int] == pat@);
                return true;
            }
            i = i + 1;
        }
        false
    }
}

impl Scanner {
    /// Whether a file met while walking a directory tree is kept: it is not excluded
    /// and does not lie in a report directory (`/.malscan/`).
    pub fn keeps_walked(&self, path: &str) -> (b: bool)
        ensures
            b == (!excluded_by(views(self.exclude_patterns@), path@) && !crate::text::contains_seq(
                path@,
                "/.malscan/"@,
            )),
    {
        !self.is_excluded(path) && !crate::text::str_contains(path, "/.malscan/")
    }
}

/// The features of a file once the policy and its content are taken into account:
/// a `.htaccess` file is typed so; a file whose extension a handler maps to PHP is a
/// disguised webshell; a file a `<Files>` block names is marked allowed; PHP, and
/// any content that looks like PHP, is a webshell.
pub open spec fn context_model(f: FeaturesModel, path: Seq<char>, raw: Seq<u8>, p: PolicyModel) -> FeaturesModel {
    if is_htaccess_path(path) {
        FeaturesModel { file_type: "htaccess"@, mime_hint: "application/apache-htaccess"@, ..f }
    } else {
        let ext = unicode_lower(ext_name(path));
        let base = unicode_lower(base_name(path));
        let k = key_index(p.disguised, ext);
        if k >= 0 {
            let handler = p.disguised[k].1;
            FeaturesModel {
                file_type: "webshell"@,
                mime_hint: "disguised/"@ + ext + " (handler: "@ + handler + ")"@,
                disguised_ext: ext,
                handler_name: handler,
                ..f
            }
        } else {
            let f1 = if p.allowed.contains(base) {
                FeaturesModel { allowed_by_htaccess: true, ..f }
            } else {
                f
            };
            if f1.file_type == "php"@ || looks_like_php_spec(raw) {
                FeaturesModel { file_type: "webshell"@, ..f1 }
            } else {
                f1
            }
        }
    }
}

pub fn apply_webshell_context(features: &mut FileFeatures, path: &str, raw: &[u8], policy: &Policy)
    ensures
        final(features)@ == context_model(old(features)@, path@, raw@, policy@),
{
    if is_htaccess_file(path) {
        features.file_type = copy_str("htaccess");
        features.mime_hint = copy_str("application/apache-htaccess");
        return;
    }
    let ext = to_lower(ext_name_of(path).as_str());
    let base = to_lower(base_name_of(path).as_str());
    match policy.handler_for(ext.as_str()) {
        Some(handler) => {
            features.file_type = copy_str("webshell");
            let a = concat3("disguised/", ext.as_str(), " (handler: ");
            features.mime_hint = concat3(a.as_str(), handler.as_str(), ")");
            features.disguised_ext = ext;
            features.handler_name = handler;
            return;
        },
        None => {},
    }
    let mut i: usize = 0;
    let mut allowed = false;
    while i < policy.allowed_files.len()
        invariant
            i <= policy.allowed_files@.len(),
            allowed == exists|j: int| 0 <= j < i && policy@.allowed[j] == base@,
        decreases policy.allowed_files@.len() - i,
    {
        assert(policy@.allowed[i as int] == policy.allowed_files@[i as int]@);
        if policy.allowed_files[i] == base {
            allowed = true;
        }
        i = i + 1;
    }
    if allowed {
        features.allowed_by_htaccess = true;
    }
    if str_eq(features.file_type.as_str(), "php") || looks_like_php(raw) {
        features.file_type = copy_str("webshell");
    }
}


// ---------------------------------------------------------------------------
// Scanning a tree.
/// A file of the tree, as read: its path (absolute) and its bytes, or the message
/// of the error that reading it gave.
pub struct FileInput {
    pub path: String,
    pub content: Result<Vec<u8>, String>,
}

/// The content of a [`FileInput`].
#[verifier::ext_equal]
pub struct InputModel {
    pub path: Seq<char>,
    pub content: Result<Seq<u8>, Seq<char>>,
}

impl View for FileInput {
    type V = InputModel;

    open spec fn view(&self) -> InputModel {
        InputModel {
            path: self.path@,
            content: match self.content {
                Ok(d) => Ok(d@),
                Err(e) => Err(e@),
            },
        }
    }
}

pub open spec fn input_models(fs: Seq<FileInput>) -> Seq<InputModel> {
    fs.map_values(|f: FileInput| f@)
}

/// The configurations of the `.htaccess` files among `fs` that were read as UTF-8 text, in order.
pub open spec fn htaccess_configs(fs: Seq<InputModel>) -> Seq<ConfigModel>
    decreases fs.len(),
{
    if fs.len() == 0 {
        Seq::empty()
    } else {
        let rest = htaccess_configs(fs.drop_last());
        let f = fs.last();
        match f.content {
            Ok(d) => if is_htaccess_path(f.path) && strict_utf8(d) is Some {
                rest.push(parse_model(strict_utf8(d)->Some_0))
            } else {
                rest
            },
            Err(_) => rest,
        }
    }
}

/// The policy a tree gives: its `.htaccess` configurations in order, then the extra extensions.
pub open spec fn scan_policy(extra: Seq<Seq<char>>, fs: Seq<InputModel>) -> PolicyModel {
    let p = merge_all(initial_model(), htaccess_configs(fs));
    PolicyModel { exts: add_extra(p.exts, extra), ..p }
}

/// A file is in scope: a `.htaccess` file, or a file read whose examined bytes the policy scans.
pub open spec fn in_scope(p: PolicyModel, max_bytes: u64, f: InputModel) -> bool {
    is_htaccess_path(f.path) || match f.content {
        Ok(d) => should_scan_spec(p, f.path, examined(d, max_bytes)),
        Err(_) => false,
    }
}

/// The files in scope, in order.
pub open spec fn targets_of(p: PolicyModel, max_bytes: u64, fs: Seq<InputModel>) -> Seq<InputModel>
    decreases fs.len(),
{
    if fs.len() == 0 {
        Seq::empty()
    } else {
        let r = targets_of(p, max_bytes, fs.drop_last());
        if in_scope(p, max_bytes, fs.last()) {
            r.push(fs.last())
        } else {
            r
        }
    }
}

/// What identifies the content of a file: the SHA-256 digest of its examined bytes,
/// or `err:` and its path where it could not be read.
pub open spec fn content_hash(max_bytes: u64, f: InputModel) -> Seq<char> {
    match f.content {
        Ok(d) => hex_lower(sha256_of(examined(d, max_bytes))),
        Err(_) => "err:"@ + f.path,
    }
}

/// The settings of a scanner that a scan of one file depends on.
pub struct ScanSettings {
    pub max_bytes: u64,
    pub extractor_max: u64,
    pub threshold: int,
    pub mode: AIMode,
}

pub open spec fn settings_of(s: &Scanner) -> ScanSettings {
    ScanSettings {
        max_bytes: s.max_bytes,
        extractor_max: s.extractor.max_bytes,
        threshold: s.scorer.threshold as int,
        mode: s.scorer.ai_mode,
    }
}

/// The result of scanning one file, before any AI answer: for a file that could not
/// be read, its path and the error; otherwise its features, the policy's view of it,
/// its findings, and their score.
pub open spec fn scan_file_model(c: ScanSettings, p: PolicyModel, f: InputModel) -> ResultModel {
    match f.content {
        Err(e) => ResultModel {
            features: blank_features(f.path, 0, seq!["read failed: "@ + e]),
            heuristic: HeuristicModel { score: 0, reasons: Seq::empty(), escalate_to_ai: false },
            ai: None,
        },
        Ok(d) => {
            let raw = examined(d, c.max_bytes);
            let f0 = features_of(f.path, d.len() as u64, d, c.extractor_max);
            let f1 = context_model(f0, f.path, raw, p);
            let f2 = FeaturesModel { signature_hits: scan_webshell_spec(f1, raw), ..f1 };
            ResultModel { features: f2, heuristic: score_model(c.threshold, c.mode, f2), ai: None }
        },
    }
}

/// The same result reported for another path.
pub open spec fn with_path(r: ResultModel, path: Seq<char>) -> ResultModel {
    ResultModel { features: FeaturesModel { path, ..r.features }, ..r }
}

/// The scan of a tree up to the point where AI answers are wanted: the files in
/// scope, the content hash of each, one representative per distinct hash (the first
/// file with it), and the result of scanning each representative.
pub struct ScanPlan {
    /// The paths of the files in scope, in order.
    pub targets: Vec<String>,
    /// The content hash of each file in scope.
    pub hashes: Vec<String>,
    /// The indices (into `targets`) of the representatives, in increasing order.
    pub reps: Vec<usize>,
    /// For each file in scope, the index (into `reps`) of its representative.
    pub target_rep: Vec<usize>,
    /// The result of each representative.
    pub results: Vec<ScanResult>,
}

impl ScanPlan {
    /// Each file in scope has a representative with the same hash, no earlier file has
    /// a representative's hash, and the representatives are in increasing order
    /// (see [`dedup_wf`]).
    pub open spec fn wf(&self) -> bool {
        &&& self.targets@.len() == self.hashes@.len()
        &&& self.reps@.len() == self.results@.len()
        &&& dedup_wf(views(self.hashes@), self.reps@, self.target_rep@)
    }

    /// The results of the files in scope: each that of its representative, reported
    /// for its own path.
    pub fn finish(&self) -> (r: Vec<ScanResult>)
        requires
            self.wf(),
        ensures
            r@.len() == self.targets@.len(),
            forall|t: int|
                0 <= t < r@.len() ==> (#[trigger] r@[t])@ == with_path(
                    self.results@[self.target_rep@[t] as int]@,
                    self.targets@[t]@,
                ),
    {
        let mut out: Vec<ScanResult> = Vec::new();
        let mut t: usize = 0;
        while t < self.targets.len()
            invariant
                self.wf(),
                t <= self.targets@.len(),
                out@.len() == t,
                forall|u: int|
                    0 <= u < t ==> (#[trigger] out@[u])@ == with_path(
                        self.results@[self.target_rep@[u] as int]@,
                        self.targets@[u]@,
                    ),
            decreases self.targets@.len() - t,
        {
            let k = self.target_rep[t];
            let r = self.results[k].clone_with_path(self.targets[t].clone());
            out.push(r);
            t = t + 1;
        }
        out
    }

    /// Records the AI answer for representative `k`.
    pub fn set_ai_verdict(&mut self, k: usize, verdict: AIVerdict)
        requires
            old(self).wf(),
            k < old(self).results@.len(),
        ensures
            final(self).wf(),
            final(self).targets@ == old(self).targets@,
            final(self).hashes@ == old(self).hashes@,
            final(self).reps@ == old(self).reps@,
            final(self).target_rep@ == old(self).target_rep@,
            final(self).results@.len() == old(self).results@.len(),
            final(self).results@[k as int]@ == (ResultModel {
                ai: Some(verdict@),
                ..old(self).results@[k as int]@
            }),
            forall|j: int|
                0 <= j < final(self).results@.len() && j != k ==> final(self).results@[j]
                    == old(self).results@[j],
    {
        let mut r = self.results[k].copy();
        r.ai_verdict = Some(verdict);
        self.results.set(k, r);
    }
}

impl Scanner {
    /// Whether the AI service is to be asked about a result: its score asked for it
    /// and the mode is not `Off`.
    pub fn wants_ai(&self, r: &ScanResult) -> (b: bool)
        ensures
            b == (r.heuristic.escalate_to_ai && self.ai_mode != AIMode::Off),
    {
        r.heuristic.escalate_to_ai && self.ai_mode != AIMode::Off
    }

    /// The content hash of a file.
    pub fn file_hash(&self, f: &FileInput) -> (h: String)
        ensures
            h@ == content_hash(self.max_bytes, f@),
    {
        match &f.content {
            Ok(d) => sha256_hex(examine(d.as_slice(), self.max_bytes).as_slice()),
            Err(_) => concat2("err:", f.path.as_str()),
        }
    }

    /// Scans one file with the given policy.
    pub fn scan_file(&self, f: &FileInput, policy: &Policy) -> (r: ScanResult)
        ensures
            r@ == scan_file_model(settings_of(self), policy@, f@),
    {
        match &f.content {
            Err(e) => {
                let msg = concat2("read failed: ", e.as_str());
                let features = FileFeatures::with_error(f.path.clone(), 0, msg);
                ScanResult { features, heuristic: HeuristicResult::empty(), ai_verdict: None }
            },
            Ok(d) => {
                let raw = examine(d.as_slice(), self.max_bytes);
                let mut features = self.extractor.extract(f.path.as_str(), d.len() as u64, d.as_slice());
                apply_webshell_context(&mut features, f.path.as_str(), raw.as_slice(), policy);
                let hits = scan_webshell(&features, raw.as_slice());
                features.signature_hits = hits;
                let heuristic = self.scorer.score(&features);
                ScanResult { features, heuristic, ai_verdict: None }
            },
        }
    }
}


/// The representatives of the hashes `hs` so far: `reps` indexes the first occurrence
/// of each distinct hash, in increasing order, and `tr` maps each index to its
/// representative.
pub open spec fn dedup_wf(hs: Seq<Seq<char>>, reps: Seq<usize>, tr: Seq<usize>) -> bool {
    &&& tr.len() == hs.len()
    &&& forall|k: int| 0 <= k < reps.len() ==> #[trigger] reps[k] < hs.len()
    &&& forall|k1: int, k2: int| 0 <= k1 < k2 < reps.len() ==> reps[k1] < reps[k2]
    &&& forall|t: int|
        0 <= t < hs.len() ==> #[trigger] tr[t] < reps.len() && hs[reps[tr[t] as int] as int] == hs[t]
    &&& forall|k: int, j: int|
        0 <= k < reps.len() && 0 <= j < reps[k] ==> #[trigger] hs[j] != #[trigger] hs[reps[k] as int]
}

/// Looks for a representative with hash `h`.
fn find_rep(hashes: &Vec<String>, reps: &Vec<usize>, h: &String) -> (r: Option<usize>)
    requires
        forall|k: int| 0 <= k < reps@.len() ==> #[trigger] reps@[k] < hashes@.len(),
    ensures
        match r {
            Some(k) => k < reps@.len() && hashes@[reps@[k as int] as int]@ == h@,
            None => forall|k: int|
                0 <= k < reps@.len() ==> (#[trigger] hashes@[reps@[k] as int])@ != h@,
        },
{
    let mut k: usize = 0;
    while k < reps.len()
        invariant
            k <= reps@.len(),
            forall|q: int| 0 <= q < reps@.len() ==> #[trigger] reps@[q] < hashes@.len(),
            forall|q: int| 0 <= q < k ==> (#[trigger] hashes@[reps@[q] as int])@ != h@,
        decreases reps@.len() - k,
    {
        if hashes[reps[k]] == *h {
            return Some(k);
        }
        k = k + 1;
    }
    None
}

/// Appends hash `h`, making it a representative unless an earlier one has it.
fn add_hash(hashes: &mut Vec<String>, reps: &mut Vec<usize>, tr: &mut Vec<usize>, h: String)
    requires
        dedup_wf(views(old(hashes)@), old(reps)@, old(tr)@),
    ensures
        dedup_wf(views(final(hashes)@), final(reps)@, final(tr)@),
        views(final(hashes)@) == views(old(hashes)@).push(h@),
{
    let ghost hs = views(hashes@);
    proof {
        assert forall|k: int| 0 <= k < reps@.len() implies #[trigger] reps@[k] < hashes@.len() by {
            assert(reps@[k] < hs.len());
        }
    }
    let found = find_rep(hashes, reps, &h);
    let n = hashes.len();
    match found {
        Some(k) => {
            tr.push(k);
        },
        None => {
            proof {
                assert forall|u: int| 0 <= u < hs.len() implies hs[u] != h@ by {
                    let q = tr@[u] as int;
                    assert(hs[reps@[q] as int] == hs[u]);
                    assert(hashes@[reps@[q] as int]@ == hs[reps@[q] as int]);
                }
            }
            reps.push(n);
            tr.push(reps.len() - 1);
        },
    }
    hashes.push(h);
    let ghost hs2 = views(hashes@);
    assert(hs2 =~= hs.push(h@));
    proof {
        match found {
            Some(k) => {
                assert(hs[reps@[k as int] as int] == h@);
            },
            None => {},
        }
    }
}

pub open spec fn empty_plan(p: ScanPlan) -> bool {
    p.targets@.len() == 0 && p.hashes@.len() == 0 && p.reps@.len() == 0 && p.target_rep@.len()
        == 0 && p.results@.len() == 0
}

/// The settings of a scanner other than its policy are the same.
pub open spec fn same_settings(a: &Scanner, b: &Scanner) -> bool {
    &&& a.ai_mode == b.ai_mode
    &&& a.threshold == b.threshold
    &&& a.max_bytes == b.max_bytes
    &&& a.workers == b.workers
    &&& a.exclude_patterns@ == b.exclude_patterns@
    &&& a.extra_extensions@ == b.extra_extensions@
    &&& a.extractor.max_bytes == b.extractor.max_bytes
    &&& a.scorer.threshold == b.scorer.threshold
    &&& a.scorer.ai_mode == b.scorer.ai_mode
    &&& a.api_key@ == b.api_key@
}

/// What [`Scanner::scan`] plans for the files of a tree: the policy is that of the
/// tree; the files in scope, their hashes and the results of the representatives are
/// those the specifications give.
pub open spec fn plan_matches(plan: ScanPlan, c: ScanSettings, p: PolicyModel, fs: Seq<InputModel>) -> bool {
    let ts = targets_of(p, c.max_bytes, fs);
    &&& plan.wf()
    &&& plan.targets@.len() == ts.len()
    &&& forall|t: int| 0 <= t < ts.len() ==> (#[trigger] plan.targets@[t])@ == ts[t].path
    &&& forall|t: int|
        0 <= t < ts.len() ==> (#[trigger] plan.hashes@[t])@ == content_hash(c.max_bytes, ts[t])
    &&& forall|k: int|
        0 <= k < plan.results@.len() ==> (#[trigger] plan.results@[k])@ == scan_file_model(
            c,
            p,
            ts[plan.reps@[k] as int],
        )
}

impl Scanner {
    /// Plans the scan of the files of a tree: builds the policy from its `.htaccess`
    /// files (when there are files at all), picks the files in scope, groups them by
    /// content, and scans the first file of each group.
    pub fn scan(&mut self, files: &[FileInput]) -> (plan: ScanPlan)
        ensures
            same_settings(final(self), old(self)),
            files@.len() == 0 ==> final(self).policy@ == old(self).policy@ && empty_plan(plan),
            files@.len() > 0 ==> final(self).policy@ == scan_policy(
                views(old(self).extra_extensions@),
                input_models(files@),
            ),
            files@.len() > 0 ==> plan_matches(
                plan,
                settings_of(old(self)),
                final(self).policy@,
                input_models(files@),
            ),
    {
        if files.len() == 0 {
            return ScanPlan {
                targets: Vec::new(),
                hashes: Vec::new(),
                reps: Vec::new(),
                target_rep: Vec::new(),
                results: Vec::new(),
            };
        }
        let ghost fs = input_models(files@);
        // The policy of the tree.
        let mut configs: Vec<Config> = Vec::new();
        let mut i: usize = 0;
        while i < files.len()
            invariant
                i <= files@.len(),
                fs == input_models(files@),
                crate::webshell::config_models(configs@) == htaccess_configs(fs.take(i as int)),
            decreases files@.len() - i,
        {
            let f = &files[i];
            assert(fs.take(i + 1).drop_last() =~= fs.take(i as int));
            assert(fs.take(i + 1).last() == f@);
            let ghost before = configs@;
            if is_htaccess_file(f.path.as_str()) {
                match &f.content {
                    Ok(d) => {
                        match decode_strict(d.as_slice()) {
                            Some(text) => {
                                configs.push(parse(text.as_str()));
                                assert(crate::webshell::config_models(configs@) =~= crate::webshell::config_models(before).push(configs@.last()@));
                            },
                            None => {},
                        }
                    },
                    Err(_) => {},
                }
            }
            i = i + 1;
        }
        assert(fs.take(files@.len() as int) =~= fs);
        let policy = Policy::new(configs.as_slice()).with_extra_extensions(
            self.extra_extensions.as_slice(),
        );
        self.policy = policy;
        let ghost p = self.policy@;
        // The files in scope.
        let mut tix: Vec<usize> = Vec::new();
        let mut j: usize = 0;
        while j < files.len()
            invariant
                j <= files@.len(),
                fs == input_models(files@),
                p == self.policy@,
                tix@.len() == targets_of(p, self.max_bytes, fs.take(j as int)).len(),
                forall|t: int|
                    0 <= t < tix@.len() ==> #[trigger] tix@[t] < j && fs[tix@[t] as int] == targets_of(
                        p,
                        self.max_bytes,
                        fs.take(j as int),
                    )[t],
            decreases files@.len() - j,
        {
            let f = &files[j];
            assert(fs.take(j + 1).drop_last() =~= fs.take(j as int));
            assert(fs.take(j + 1).last() == f@);
            let keep = if is_htaccess_file(f.path.as_str()) {
                true
            } else {
                match &f.content {
                    Ok(d) => {
                        let raw = examine(d.as_slice(), self.max_bytes);
                        self.policy.should_scan(f.path.as_str(), raw.as_slice())
                    },
                    Err(_) => false,
                }
            };
            assert(keep == in_scope(p, self.max_bytes, f@));
            if keep {
                tix.push(j);
            }
            j = j + 1;
        }
        assert(fs.take(files@.len() as int) =~= fs);
        let ghost ts = targets_of(p, self.max_bytes, fs);
        // Hashes and representatives.
        let mut targets: Vec<String> = Vec::new();
        let mut hashes: Vec<String> = Vec::new();
        let mut reps: Vec<usize> = Vec::new();
        let mut target_rep: Vec<usize> = Vec::new();
        let mut t: usize = 0;
        while t < tix.len()
            invariant
                t <= tix@.len(),
                tix@.len() == ts.len(),
                forall|u: int|
                    0 <= u < tix@.len() ==> #[trigger] tix@[u] < files@.len() && fs[tix@[u] as int]
                        == ts[u],
                fs == input_models(files@),
                targets@.len() == t,
                hashes@.len() == t,
                forall|u: int| 0 <= u < t ==> (#[trigger] targets@[u])@ == ts[u].path,
                forall|u: int|
                    0 <= u < t ==> (#[trigger] hashes@[u])@ == content_hash(self.max_bytes, ts[u]),
                dedup_wf(views(hashes@), reps@, target_rep@),
            decreases tix@.len() - t,
        {
            let f = &files[tix[t]];
            let h = self.file_hash(f);
            let ghost old_hashes = hashes@;
            add_hash(&mut hashes, &mut reps, &mut target_rep, h);
            targets.push(f.path.clone());
            proof {
                assert forall|u: int| 0 <= u < t + 1 implies (#[trigger] hashes@[u])@ == content_hash(
                    self.max_bytes,
                    ts[u],
                ) by {
                    if u < t {
                        assert(views(hashes@)[u] == views(old_hashes)[u]);
                    } else {
                        assert(views(hashes@)[u] == hashes@[u]@);
                    }
                }
            }
            t = t + 1;
        }
        // The representatives' results.
        let mut results: Vec<ScanResult> = Vec::new();
        let mut k: usize = 0;
        while k < reps.len()
            invariant
                k <= reps@.len(),
                forall|q: int| 0 <= q < reps@.len() ==> #[trigger] reps@[q] < tix@.len(),
                tix@.len() == ts.len(),
                forall|u: int|
                    0 <= u < tix@.len() ==> #[trigger] tix@[u] < files@.len() && fs[tix@[u] as int]
                        == ts[u],
                fs == input_models(files@),
                p == self.policy@,
                results@.len() == k,
                forall|q: int|
                    0 <= q < k ==> (#[trigger] results@[q])@ == scan_file_model(
                        settings_of(self),
                        p,
                        ts[reps@[q] as int],
                    ),
            decreases reps@.len() - k,
        {
            let f = &files[tix[reps[k]]];
            let r = self.scan_file(f, &self.policy);
            results.push(r);
            k = k + 1;
        }
        ScanPlan { targets, hashes, reps, target_rep, results }
    }
}


/// Files with the same content hash share one representative, so their results differ
/// in nothing but the path; and a representative stands for itself.
pub proof fn law_same_hash_same_result(hs: Seq<Seq<char>>, reps: Seq<usize>, tr: Seq<usize>, t1: int, t2: int)
    requires
        dedup_wf(hs, reps, tr),
        0 <= t1 < hs.len(),
        0 <= t2 < hs.len(),
        hs[t1] == hs[t2],
    ensures
        tr[t1] == tr[t2],
        forall|k: int| 0 <= k < reps.len() ==> tr[#[trigger] reps[k] as int] == k,
{
    let k1 = tr[t1] as int;
    let k2 = tr[t2] as int;
    if k1 < k2 {
        assert(reps[k1] < reps[k2]);
        assert(hs[reps[k1] as int] != hs[reps[k2] as int]);
    } else if k2 < k1 {
        assert(reps[k2] < reps[k1]);
        assert(hs[reps[k2] as int] != hs[reps[k1] as int]);
    }
    assert forall|k: int| 0 <= k < reps.len() implies tr[#[trigger] reps[k] as int] == k by {
        let t = reps[k] as int;
        let k3 = tr[t] as int;
        if k3 < k {
            assert(reps[k3] < reps[k]);
            assert(hs[reps[k3] as int] != hs[reps[k] as int]);
        } else if k < k3 {
            assert(reps[k] < reps[k3]);
            assert(hs[reps[k] as int] != hs[reps[k3] as int]);
            assert(hs[reps[k3] as int] == hs[t]);
        }
    }
}

// ---------------------------------------------------------------------------
// Order of the results.
/// Results in ascending order of their paths.
pub open spec fn sorted_by_path(rs: Seq<ScanResult>) -> bool {
    forall|i: int, j: int|
        0 <= i < j < rs.len() ==> !seq_lt(#[trigger] rs[j].features.path@, #[trigger] rs[i].features.path@)
}

#[verifier::spinoff_prover]
proof fn lemma_insert_sorted(s: Seq<ScanResult>, i: int, j: int, x: ScanResult)
    requires
        0 <= j <= i <= s.len(),
        sorted_by_path(s.take(i)),
        forall|k: int| 0 <= k < j ==> !seq_lt(x.features.path@, #[trigger] s[k].features.path@),
        j < i ==> seq_lt(x.features.path@, s[j].features.path@),
    ensures
        sorted_by_path(s.insert(j, x).take(i + 1)),
{
    let t = s.insert(j, x).take(i + 1);
    assert forall|p: int, q: int| 0 <= p < q < t.len() implies !seq_lt(
        #[trigger] t[q].features.path@,
        #[trigger] t[p].features.path@,
    ) by {
        let old_q = if q > j { q - 1 } else { q };
        let old_p = if p > j { p - 1 } else { p };
        if p != j && q != j {
            assert(t[q] == s.take(i)[old_q]);
            assert(t[p] == s.take(i)[old_p]);
        } else if q == j {
            assert(t[p] == s[p]);
        } else {
            // p == j < q: t[q] is s[q - 1], at or after s[j] in the sorted prefix.
            assert(t[q] == s[q - 1]);
            assert(t[p] == x);
            let a = s[q - 1].features.path@;
            let b = s[j].features.path@;
            let c = x.features.path@;
            if seq_lt(a, c) {
                lemma_seq_lt_transitive(a, c, b);
                if q - 1 == j {
                    lemma_seq_lt_irreflexive(b);
                } else {
                    assert(s.take(i)[j] == s[j]);
                    assert(s.take(i)[q - 1] == s[q - 1]);
                }
            }
        }
    }
}

/// The results with path `p`, in order.
pub open spec fn results_at(rs: Seq<ScanResult>, p: Seq<char>) -> Seq<ScanResult>
    decreases rs.len(),
{
    if rs.len() == 0 {
        Seq::empty()
    } else {
        let r = results_at(rs.drop_last(), p);
        if rs.last().features.path@ == p {
            r.push(rs.last())
        } else {
            r
        }
    }
}

proof fn lemma_with_path_concat(a: Seq<ScanResult>, b: Seq<ScanResult>, p: Seq<char>)
    ensures
        results_at(a + b, p) == results_at(a, p) + results_at(b, p),
    decreases b.len(),
{
    if b.len() == 0 {
        assert(a + b =~= a);
        assert(results_at(a, p) + results_at(b, p) =~= results_at(a, p));
    } else {
        assert((a + b).drop_last() =~= a + b.drop_last());
        assert((a + b).last() == b.last());
        lemma_with_path_concat(a, b.drop_last(), p);
        if b.last().features.path@ == p {
            assert(results_at(a, p) + results_at(b.drop_last(), p).push(b.last()) =~= (results_at(a, p)
                + results_at(b.drop_last(), p)).push(b.last()));
        }
    }
}

proof fn lemma_with_path_none(b: Seq<ScanResult>, p: Seq<char>)
    requires
        forall|k: int| 0 <= k < b.len() ==> (#[trigger] b[k]).features.path@ != p,
    ensures
        results_at(b, p) == Seq::<ScanResult>::empty(),
    decreases b.len(),
{
    if b.len() > 0 {
        assert forall|k: int| 0 <= k < b.drop_last().len() implies (#[trigger] b.drop_last()[k]).features.path@
            != p by {
            assert(b.drop_last()[k] == b[k]);
        }
        lemma_with_path_none(b.drop_last(), p);
    }
}

/// Inserting `x` into a sorted list before the first entry it sorts before keeps,
/// for every path, the entries with that path in the order they would have after
/// appending `x`.
proof fn lemma_insert_stable(s: Seq<ScanResult>, j: int, x: ScanResult, p: Seq<char>)
    requires
        sorted_by_path(s),
        0 <= j <= s.len(),
        j < s.len() ==> seq_lt(x.features.path@, s[j].features.path@),
    ensures
        results_at(s.take(j) + seq![x] + s.subrange(j, s.len() as int), p) == results_at(s.push(x), p),
{
    let a = s.take(j);
    let b = s.subrange(j, s.len() as int);
    assert(s =~= a + b);
    assert(s.push(x).drop_last() =~= s);
    lemma_with_path_concat(a + seq![x], b, p);
    lemma_with_path_concat(a, seq![x], p);
    lemma_with_path_concat(a, b, p);
    assert(seq![x].drop_last() =~= Seq::<ScanResult>::empty());
    assert(seq![x].last() == x);
    assert(results_at(Seq::<ScanResult>::empty(), p) == Seq::<ScanResult>::empty());
    assert(results_at(seq![x], p) == if x.features.path@ == p {
        Seq::<ScanResult>::empty().push(x)
    } else {
        Seq::<ScanResult>::empty()
    });
    assert(results_at(s.push(x), p) == if x.features.path@ == p {
        results_at(s, p).push(x)
    } else {
        results_at(s, p)
    });
    if x.features.path@ == p {
        assert forall|k: int| 0 <= k < b.len() implies (#[trigger] b[k]).features.path@ != p by {
            assert(b[k] == s[j + k]);
            if b[k].features.path@ == p {
                if k == 0 {
                    lemma_seq_lt_irreflexive(p);
                } else {
                    assert(!seq_lt(s[j + k].features.path@, s[j].features.path@));
                }
            }
        }
        lemma_with_path_none(b, p);
        assert(results_at(b, p) + Seq::<ScanResult>::empty() =~= results_at(b, p));
        assert(results_at(a, p) + results_at(seq![x], p) + results_at(b, p) =~= results_at(a, p).push(x));
    } else {
        assert(results_at(a, p) + results_at(seq![x], p) =~= results_at(a, p));
    }
}

/// Sorts the results by path, in ascending order.
pub fn sort_results(results: &mut Vec<ScanResult>)
    ensures
        final(results)@.to_multiset() == old(results)@.to_multiset(),
        sorted_by_path(final(results)@),
        forall|p: Seq<char>| #[trigger] results_at(final(results)@, p) == results_at(old(results)@, p),
{
    broadcast use vstd::seq_lib::group_to_multiset_ensures;
    let n = results.len();
    let mut i: usize = 0;
    assert(results@.take(0) =~= Seq::<ScanResult>::empty());
    while i < n
        invariant
            i <= n,
            results@.len() == n,
            results@.to_multiset() == old(results)@.to_multiset(),
            sorted_by_path(results@.take(i as int)),
            old(results)@.len() == n,
            results@.skip(i as int) == old(results)@.skip(i as int),
            forall|p: Seq<char>| #[trigger] results_at(results@.take(i as int), p) == results_at(
                old(results)@.take(i as int),
                p,
            ),
        decreases n - i,
    {
        let ghost before = results@;
        assert(before[i as int] == before.skip(i as int)[0]);
        assert(old(results)@[i as int] == old(results)@.skip(i as int)[0]);
        let x = results.remove(i);
        let ghost rest = results@;
        assert(rest.take(i as int) =~= before.take(i as int));
        let mut j: usize = 0;
        while j < i && !str_less(x.features.path.as_str(), results[j].features.path.as_str())
            invariant
                j <= i < n,
                results@ == rest,
                rest.len() == n - 1,
                forall|k: int| 0 <= k < j ==> !seq_lt(x.features.path@, #[trigger] rest[k].features.path@),
            decreases i - j,
        {
            j = j + 1;
        }
        proof {
            lemma_insert_sorted(rest, i as int, j as int, x);
        }
        results.insert(j, x);
        proof {
            let pre = before.take(i as int);
            assert(x == old(results)@[i as int]);
            assert(results@.take(i + 1) =~= pre.take(j as int) + seq![x] + pre.subrange(
                j as int,
                pre.len() as int,
            ));
            assert(old(results)@.take(i + 1) =~= old(results)@.take(i as int).push(x));
            assert forall|p: Seq<char>| #[trigger] results_at(results@.take(i + 1), p) == results_at(
                old(results)@.take(i + 1),
                p,
            ) by {
                if (j as int) < (i as int) {
                    assert(pre[j as int] == rest[j as int]);
                }
                lemma_insert_stable(pre, j as int, x, p);
                assert(results_at(pre, p) == results_at(old(results)@.take(i as int), p));
                assert(pre.push(x).drop_last() =~= pre);
                assert(old(results)@.take(i as int).push(x).drop_last() =~= old(results)@.take(i as int));
                assert(results_at(pre.push(x), p) == results_at(old(results)@.take(i as int).push(x), p));
            }
            assert(results@.skip(i + 1) =~= old(results)@.skip(i + 1)) by {
                assert forall|k: int| 0 <= k < results@.skip(i + 1).len() implies #[trigger] results@.skip(i + 1)[k]
                    == old(results)@.skip(i + 1)[k] by {
                    assert(results@[i + 1 + k] == rest[i + k]);
                    assert(rest[i + k] == before[i + 1 + k]);
                    assert(before.skip(i as int)[k + 1] == old(results)@.skip(i as int)[k + 1]);
                }
            }
        }
        proof {
            broadcast use vstd::multiset::group_multiset_axioms;
            vstd::seq_lib::to_multiset_remove(before, i as int);
            vstd::seq_lib::to_multiset_insert(rest, j as int, x);
            vstd::seq_lib::to_multiset_contains(before, x);
            assert(before.to_multiset().count(x) > 0);
            assert(results@.to_multiset() =~= before.to_multiset());
        }
        i = i + 1;
    }
    assert(results@.take(n as int) =~= results@);
    assert(old(results)@.take(n as int) =~= old(results)@);
}

/// A file named in a `<Files>` block is flagged as whitelisted, and its score takes
/// the 25-point bonus: the file's own name, lowercased, is looked up, whatever
/// directories the path runs through; only a handler mapping of its extension
/// (which makes it a disguised file instead) or its being a `.htaccess` file
/// comes first.
pub proof fn law_whitelisted_file_flagged(c: ScanSettings, p: PolicyModel, f: InputModel)
    requires
        f.content is Ok,
        !is_htaccess_path(f.path),
        forall|i: int| 0 <= i < p.disguised.len() ==> p.disguised[i].0 != unicode_lower(ext_name(f.path)),
        p.allowed.contains(unicode_lower(base_name(f.path))),
    ensures
        scan_file_model(c, p, f).features.allowed_by_htaccess,
        scan_file_model(c, p, f).heuristic.reasons.contains("[+25] htaccess_whitelisted_file"@),
{
    crate::htaccess::lemma_key_index_from(p.disguised, unicode_lower(ext_name(f.path)), 0);
    let r = scan_file_model(c, p, f);
    let f2 = r.features;
    assert(f2.allowed_by_htaccess);
    let r1 = f2.signature_hits.map_values(|h: Seq<char>| crate::heuristics::hit_reason(h));
    let r2 = r1.push("[+25] htaccess_whitelisted_file"@);
    assert(r2[r1.len() as int] == "[+25] htaccess_whitelisted_file"@);
    let reasons = crate::heuristics::score_reasons(f2);
    assert(reasons[r1.len() as int] == "[+25] htaccess_whitelisted_file"@);
}

} // verus!
