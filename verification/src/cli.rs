//! The command line: its commands and arguments, and the decisions a scan command
//! takes from them before any file is read.
use vstd::prelude::*;
use crate::htaccess::{split_char, split_chars, vec_views};
use crate::model::AIMode;
use crate::text::{chars_of, copy_str, string_of, trim_chars, trim_seq, views};

verus! {

/// The parsed command line.
pub struct Cli {
    pub command: Commands,
}

/// The commands: scan a path, or print the version.
pub enum Commands {
    Scan(ScanArgs),
    Version,
}

/// The arguments of `scan`.
pub struct ScanArgs {
    pub path: String,
    pub recursive: bool,
    pub no_recursive: bool,
    pub ai_mode: String,
    pub format: String,
    pub threshold: i32,
    pub max_bytes: u64,
    pub workers: usize,
    pub output: Option<String>,
    pub quiet: bool,
    pub exclude: Option<String>,
    pub ext: Option<String>,
    pub api_key: Option<String>,
}

/// The non-empty trimmed items of a comma-separated list.
pub open spec fn list_items(s: Seq<char>) -> Seq<Seq<char>> {
    split_char(s, ',').map_values(|p: Seq<char>| trim_seq(p)).filter(|p: Seq<char>| p.len() > 0)
}

proof fn lemma_filter_push_nonempty(s: Seq<Seq<char>>, x: Seq<char>)
    ensures
        s.push(x).filter(|p: Seq<char>| p.len() > 0) == if x.len() > 0 {
            s.filter(|p: Seq<char>| p.len() > 0).push(x)
        } else {
            s.filter(|p: Seq<char>| p.len() > 0)
        },
{
    reveal(Seq::filter);
    assert(s.push(x).drop_last() =~= s);
}

/// The items of a comma-separated list, each trimmed; empty items are dropped.
pub fn split_list(s: &str) -> (r: Vec<String>)
    ensures
        views(r@) == list_items(s@),
{
    let cs = chars_of(s);
    let parts = split_chars(&cs, ',');
    let ghost trimmed = vec_views(parts@).map_values(|p: Seq<char>| trim_seq(p));
    let mut out: Vec<String> = Vec::new();
    let mut i: usize = 0;
    assert(views(out@) =~= Seq::<Seq<char>>::empty());
    while i < parts.len()
        invariant
            i <= parts@.len(),
            trimmed == vec_views(parts@).map_values(|p: Seq<char>| trim_seq(p)),
            vec_views(parts@) == split_char(s@, ','),
            views(out@) == trimmed.take(i as int).filter(|p: Seq<char>| p.len() > 0),
        decreases parts@.len() - i,
    {
        let t = trim_chars(&parts[i]);
        proof {
            assert(trimmed.take(i + 1) =~= trimmed.take(i as int).push(t@));
            lemma_filter_push_nonempty(trimmed.take(i as int), t@);
        }
        if t.len() > 0 {
            let ghost before = views(out@);
            out.push(string_of(&t));
            assert(views(out@) =~= before.push(t@));
        }
        i = i + 1;
    }
    assert(trimmed.take(parts@.len() as int) =~= trimmed);
    out
}

/// The items of an optional list (none when it is absent).
pub open spec fn optional_items(s: Option<String>) -> Seq<Seq<char>> {
    match s {
        Some(t) => list_items(t@),
        None => Seq::empty(),
    }
}

fn optional_list(s: &Option<String>) -> (r: Vec<String>)
    ensures
        views(r@) == optional_items(*s),
{
    match s {
        Some(t) => split_list(t.as_str()),
        None => {
            let v: Vec<String> = Vec::new();
            assert(views(v@) =~= Seq::<Seq<char>>::empty());
            v
        },
    }
}

impl ScanArgs {
    /// Directories are walked recursively unless `--no-recursive` is given.
    pub fn walk_recursively(&self) -> (b: bool)
        ensures
            b == (self.recursive && !self.no_recursive),
    {
        self.recursive && !self.no_recursive
    }

    /// The exclusion patterns of `--exclude`.
    pub fn exclude_list(&self) -> (r: Vec<String>)
        ensures
            views(r@) == optional_items(self.exclude),
    {
        optional_list(&self.exclude)
    }

    /// The extra extensions of `--ext`.
    pub fn ext_list(&self) -> (r: Vec<String>)
        ensures
            views(r@) == optional_items(self.ext),
    {
        optional_list(&self.ext)
    }
}

/// The key for the AI service: the one given with `--api-key` unless it is missing
/// or empty, else the one the environment gives.
pub fn choose_api_key(given: &Option<String>, from_env: &str) -> (k: String)
    ensures
        k@ == (match given {
            Some(g) => if g@.len() > 0 {
                g@
            } else {
                from_env@
            },
            None => from_env@,
        }),
{
    match given {
        Some(g) => {
            if !g.as_str().is_empty() {
                return copy_str(g.as_str());
            }
        },
        None => {},
    }
    copy_str(from_env)
}

/// The AI mode a scan runs with: `Off` when the service is wanted but no key is configured.
pub open spec fn effective_mode(mode: AIMode, key: Seq<char>) -> AIMode {
    if mode != AIMode::Off && key.len() == 0 {
        AIMode::Off
    } else {
        mode
    }
}

pub fn effective_ai_mode(mode: AIMode, key: &str) -> (m: AIMode)
    ensures
        m == effective_mode(mode, key@),
{
    if mode != AIMode::Off && key.is_empty() {
        AIMode::Off
    } else {
        mode
    }
}

/// Whether to warn that the AI service is wanted but no key is configured.
pub fn warn_missing_key(mode: AIMode, key: &str) -> (b: bool)
    ensures
        b == (mode != AIMode::Off && key@.len() == 0),
{
    mode != AIMode::Off && key.is_empty()
}

/// Without a key the AI service is never asked.
pub proof fn law_no_key_no_ai(mode: AIMode)
    ensures
        effective_mode(mode, Seq::empty()) == AIMode::Off,
{
}

} // verus!
