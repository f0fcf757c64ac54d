//! Reading Apache `.htaccess` files: which extensions a handler maps to PHP (or
//! server-side includes), which extensions a `<FilesMatch>` pattern lists, and which
//! file names a `<Files>` block names.
//!
//! The three directives are recognised as the case-insensitive patterns
//! `AddHandler\s+(\S+)\s+\.([A-Za-z0-9]+)`, `<FilesMatch\s+"([^"]+)"` and
//! `<Files\s+([^>\s]+)`, searched for anywhere in a trimmed line. Case-insensitive
//! matching follows Unicode simple case folding, under which `s` also matches `ſ`
//! (U+017F) and `k` also matches the Kelvin sign (U+212A).
use vstd::prelude::*;
use crate::paths::{base_name, base_name_of};
use crate::text::{
    append_unique_seq, chars_of, concat3, contains_seq, copy_str, has_view, is_space, is_ws,
    slice_chars, str_contains, str_ends_with, str_eq, string_of, to_lower, trim_chars, trim_seq,
    unicode_lower, views, contains_string,
};

verus! {

/// The extensions scanned as PHP whatever the `.htaccess` files say.
pub open spec fn default_extensions() -> Seq<Seq<char>> {
    seq![
        "shtml"@,
        "php"@,
        "phar"@,
        "phtml"@,
        "pht"@,
        "php3"@,
        "php4"@,
        "php5"@,
        "php7"@,
        "phtm"@,
        "inc"@,
    ]
}

/// The default extensions, in order.
pub fn default_extension_list() -> (r: Vec<String>)
    ensures
        views(r@) == default_extensions(),
{
    let mut v: Vec<String> = Vec::new();
    v.push(copy_str("shtml"));
    v.push(copy_str("php"));
    v.push(copy_str("phar"));
    v.push(copy_str("phtml"));
    v.push(copy_str("pht"));
    v.push(copy_str("php3"));
    v.push(copy_str("php4"));
    v.push(copy_str("php5"));
    v.push(copy_str("php7"));
    v.push(copy_str("phtm"));
    v.push(copy_str("inc"));
    assert(views(v@) =~= default_extensions());
    v
}

/// What one `.htaccess` file says.
pub struct Config {
    /// Extension (lowercase, without the dot) mapped to the handler that runs it;
    /// each extension occurs once.
    pub handler_extensions: Vec<(String, String)>,
    /// Extensions listed in `<FilesMatch>` patterns, each once, in order of first mention.
    pub regex_extensions: Vec<String>,
    /// File names named by `<Files>` blocks, in order.
    pub allowed_files: Vec<String>,
    /// Findings, each once, in order of first finding.
    pub hits: Vec<String>,
}

/// The content of a [`Config`].
pub struct ConfigModel {
    pub handlers: Seq<(Seq<char>, Seq<char>)>,
    pub regex_exts: Seq<Seq<char>>,
    pub allowed: Seq<Seq<char>>,
    pub hits: Seq<Seq<char>>,
}

pub open spec fn pair_views(v: Seq<(String, String)>) -> Seq<(Seq<char>, Seq<char>)> {
    v.map_values(|p: (String, String)| (p.0@, p.1@))
}

impl View for Config {
    type V = ConfigModel;

    open spec fn view(&self) -> ConfigModel {
        ConfigModel {
            handlers: pair_views(self.handler_extensions@),
            regex_exts: views(self.regex_extensions@),
            allowed: views(self.allowed_files@),
            hits: views(self.hits@),
        }
    }
}

pub open spec fn empty_model() -> ConfigModel {
    ConfigModel {
        handlers: Seq::empty(),
        regex_exts: Seq::empty(),
        allowed: Seq::empty(),
        hits: Seq::empty(),
    }
}

impl Config {
    /// An empty configuration (`Config::default()`).
    pub fn new() -> (r: Config)
        ensures
            r@ == empty_model(),
    {
        let r = Config {
            handler_extensions: Vec::new(),
            regex_extensions: Vec::new(),
            allowed_files: Vec::new(),
            hits: Vec::new(),
        };
        assert(r@.handlers =~= Seq::empty());
        assert(r@.regex_exts =~= Seq::empty());
        assert(r@.allowed =~= Seq::empty());
        assert(r@.hits =~= Seq::empty());
        r
    }
}

// ---------------------------------------------------------------------------
// Pairs keyed by their first component (a map that keeps insertion order).
/// Index of the first pair at or after `i` whose key is `k`, or `-1`.
pub open spec fn key_index_from(m: Seq<(Seq<char>, Seq<char>)>, k: Seq<char>, i: int) -> int
    decreases m.len() - i,
{
    if i < 0 || i >= m.len() {
        -1
    } else if m[i].0 == k {
        i
    } else {
        key_index_from(m, k, i + 1)
    }
}

pub open spec fn key_index(m: Seq<(Seq<char>, Seq<char>)>, k: Seq<char>) -> int {
    key_index_from(m, k, 0)
}

/// `m` with `k` mapped to `v`: the value replaced where `k` is present, else a new pair at the end.
pub open spec fn upsert(m: Seq<(Seq<char>, Seq<char>)>, k: Seq<char>, v: Seq<char>) -> Seq<
    (Seq<char>, Seq<char>),
> {
    let i = key_index(m, k);
    if i >= 0 {
        m.update(i, (k, v))
    } else {
        m.push((k, v))
    }
}

/// No two pairs share a key.
pub open spec fn keys_distinct(m: Seq<(Seq<char>, Seq<char>)>) -> bool {
    forall|i: int, j: int| 0 <= i < j < m.len() ==> m[i].0 != m[j].0
}

/// The pairs as a map from key to value.
pub open spec fn as_map(m: Seq<(Seq<char>, Seq<char>)>) -> Map<Seq<char>, Seq<char>>
    decreases m.len(),
{
    if m.len() == 0 {
        Map::empty()
    } else {
        as_map(m.drop_last()).insert(m.last().0, m.last().1)
    }
}

pub proof fn lemma_key_index_from(m: Seq<(Seq<char>, Seq<char>)>, k: Seq<char>, i: int)
    requires
        0 <= i,
    ensures
        -1 <= key_index_from(m, k, i) < m.len(),
        key_index_from(m, k, i) >= 0 ==> key_index_from(m, k, i) >= i && m[key_index_from(
            m,
            k,
            i,
        )].0 == k,
        key_index_from(m, k, i) == -1 ==> forall|j: int| i <= j < m.len() ==> m[j].0 != k,
        key_index_from(m, k, i) >= 0 ==> forall|j: int|
            i <= j < key_index_from(m, k, i) ==> m[j].0 != k,
    decreases m.len() - i,
{
    if i < m.len() && m[i].0 != k {
        lemma_key_index_from(m, k, i + 1);
    }
}

pub proof fn lemma_upsert_distinct(m: Seq<(Seq<char>, Seq<char>)>, k: Seq<char>, v: Seq<char>)
    requires
        keys_distinct(m),
    ensures
        keys_distinct(upsert(m, k, v)),
        exists|i: int| 0 <= i < upsert(m, k, v).len() && upsert(m, k, v)[i] == (k, v),
{
    lemma_key_index_from(m, k, 0);
    let r = upsert(m, k, v);
    if key_index(m, k) >= 0 {
        assert(r[key_index(m, k)] == (k, v));
    } else {
        assert(r[m.len() as int] == (k, v));
    }
}

/// Sets `k` to `v` in a list of pairs (`HashMap::insert`).
pub fn upsert_pair(m: &mut Vec<(String, String)>, k: String, v: String)
    ensures
        pair_views(final(m)@) == upsert(pair_views(old(m)@), k@, v@),
{
    let ghost pm = pair_views(old(m)@);
    let mut i: usize = 0;
    while i < m.len()
        invariant
            i <= m@.len(),
            m@ == old(m)@,
            pm == pair_views(m@),
            key_index_from(pm, k@, i as int) == key_index(pm, k@),
        decreases m@.len() - i,
    {
        if str_eq(m[i].0.as_str(), k.as_str()) {
            proof {
                lemma_key_index_from(pm, k@, i as int);
            }
            m.set(i, (k, v));
            assert(pair_views(m@) =~= upsert(pm, k@, v@));
            return;
        }
        i = i + 1;
    }
    proof {
        lemma_key_index_from(pm, k@, i as int);
    }
    m.push((k, v));
    assert(pair_views(m@) =~= upsert(pm, k@, v@));
}

/// Appends `s` unless a string with the same content is already there.
pub fn append_unique(v: &mut Vec<String>, s: String)
    ensures
        views(final(v)@) == append_unique_seq(views(old(v)@), s@),
{
    proof {
        if views(old(v)@).contains(s@) {
            let j = choose|j: int| 0 <= j < views(old(v)@).len() && views(old(v)@)[j] == s@;
            assert(has_view(old(v)@, s@));
        }
        if has_view(old(v)@, s@) {
            let j = choose|j: int| 0 <= j < old(v)@.len() && old(v)@[j]@ == s@;
            assert(views(old(v)@)[j] == s@);
        }
    }
    if !contains_string(v, s.as_str()) {
        v.push(s);
        assert(views(v@) =~= views(old(v)@).push(s@));
    }
}

// ---------------------------------------------------------------------------
// Character classes of the directive patterns.
pub enum CharClass {
    /// `\s`
    Space,
    /// `\S`
    NonSpace,
    /// `[A-Za-z0-9]` under case-insensitive matching
    ExtChar,
    /// `[^"]`
    NotQuote,
    /// `[^>\s]`
    NameChar,
    /// `[a-z0-9|]`
    GroupChar,
}

pub open spec fn in_class(c: char, k: CharClass) -> bool {
    let u = c as u32;
    match k {
        CharClass::Space => is_ws(c),
        CharClass::NonSpace => !is_ws(c),
        CharClass::ExtChar => (0x30 <= u <= 0x39) || (0x41 <= u <= 0x5A) || (0x61 <= u <= 0x7A)
            || u == 0x17F || u == 0x212A,
        CharClass::NotQuote => c != '"',
        CharClass::NameChar => c != '>' && !is_ws(c),
        CharClass::GroupChar => (0x30 <= u <= 0x39) || (0x61 <= u <= 0x7A) || c == '|',
    }
}

fn class_has(c: char, k: &CharClass) -> (b: bool)
    ensures
        b == in_class(c, *k),
{
    let u = c as u32;
    match k {
        CharClass::Space => is_space(c),
        CharClass::NonSpace => !is_space(c),
        CharClass::ExtChar => (0x30 <= u && u <= 0x39) || (0x41 <= u && u <= 0x5A) || (0x61 <= u
            && u <= 0x7A) || u == 0x17F || u == 0x212A,
        CharClass::NotQuote => c != '"',
        CharClass::NameChar => c != '>' && !is_space(c),
        CharClass::GroupChar => (0x30 <= u && u <= 0x39) || (0x61 <= u && u <= 0x7A) || c == '|',
    }
}

/// End of the longest run of class-`k` characters starting at `i`.
pub open spec fn run_end(s: Seq<char>, i: int, k: CharClass) -> int
    decreases s.len() - i,
{
    if 0 <= i < s.len() && in_class(s[i], k) {
        run_end(s, i + 1, k)
    } else {
        i
    }
}

pub proof fn lemma_run_end(s: Seq<char>, i: int, k: CharClass)
    requires
        0 <= i <= s.len(),
    ensures
        i <= run_end(s, i, k) <= s.len(),
        forall|t: int| i <= t < run_end(s, i, k) ==> in_class(#[trigger] s[t], k),
        run_end(s, i, k) < s.len() ==> !in_class(s[run_end(s, i, k)], k),
    decreases s.len() - i,
{
    if i < s.len() && in_class(s[i], k) {
        lemma_run_end(s, i + 1, k);
    }
}

fn run_end_exec(s: &Vec<char>, i: usize, k: &CharClass) -> (r: usize)
    requires
        i <= s@.len(),
    ensures
        r == run_end(s@, i as int, *k),
        i <= r <= s@.len(),
{
    let mut j = i;
    while j < s.len() && class_has(s[j], k)
        invariant
            i <= j <= s@.len(),
            run_end(s@, j as int, *k) == run_end(s@, i as int, *k),
        decreases s@.len() - j,
    {
        j = j + 1;
    }
    j
}

// ---------------------------------------------------------------------------
// Case-insensitive literals.
/// `c` matches the pattern character `p` under simple case folding (`p` lowercase).
pub open spec fn fold_eq(c: char, p: char) -> bool {
    let cu = c as u32;
    let pu = p as u32;
    cu == pu || (0x61 <= pu <= 0x7A && cu + 32 == pu) || (pu == 0x73 && cu == 0x17F) || (pu == 0x6B
        && cu == 0x212A)
}

fn fold_eq_exec(c: char, p: char) -> (b: bool)
    ensures
        b == fold_eq(c, p),
{
    let cu = c as u32;
    let pu = p as u32;
    cu == pu || (0x61 <= pu && pu <= 0x7A && cu + 32 == pu) || (pu == 0x73 && cu == 0x17F) || (pu
        == 0x6B && cu == 0x212A)
}

/// The literal `p` matches case-insensitively at index `i` of `s`.
pub open spec fn fold_occurs_at(s: Seq<char>, p: Seq<char>, i: int) -> bool {
    0 <= i && i + p.len() <= s.len() && forall|t: int| 0 <= t < p.len() ==> fold_eq(s[i + t], p[t])
}

/// The literal `p` matches case-insensitively somewhere in `s`.
pub open spec fn fold_contains(s: Seq<char>, p: Seq<char>) -> bool {
    exists|i: int| fold_occurs_at(s, p, i)
}

fn fold_occurs_at_exec(s: &Vec<char>, p: &Vec<char>, i: usize) -> (b: bool)
    ensures
        b == fold_occurs_at(s@, p@, i as int),
{
    if p.len() > s.len() || i > s.len() - p.len() {
        return false;
    }
    let sl = s.len();
    let mut t: usize = 0;
    while t < p.len()
        invariant
            t <= p@.len(),
            sl == s@.len(),
            i + p@.len() <= s@.len(),
            forall|q: int| 0 <= q < t ==> fold_eq(s@[i + q], p@[q]),
        decreases p@.len() - t,
    {
        if !fold_eq_exec(s[i + t], p[t]) {
            return false;
        }
        t = t + 1;
    }
    true
}

fn fold_contains_exec(s: &Vec<char>, p: &Vec<char>) -> (b: bool)
    ensures
        b == fold_contains(s@, p@),
{
    let mut i: usize = 0;
    loop
        invariant
            i <= s@.len(),
            forall|j: int| 0 <= j < i ==> !fold_occurs_at(s@, p@, j),
        decreases s@.len() - i,
    {
        if fold_occurs_at_exec(s, p, i) {
            return true;
        }
        if i == s.len() {
            assert forall|j: int| !fold_occurs_at(s@, p@, j) by {
                if j > s@.len() {
                }
            }
            return false;
        }
        i = i + 1;
    }
}

/// The handler names PHP or server-side includes: `(?i)(?:php|lsphp|server-parsed)`.
pub open spec fn is_php_handler(h: Seq<char>) -> bool {
    fold_contains(h, "php"@) || fold_contains(h, "lsphp"@) || fold_contains(h, "server-parsed"@)
}

fn php_handler_exec(h: &Vec<char>) -> (b: bool)
    ensures
        b == is_php_handler(h@),
{
    let a = chars_of("php");
    let b = chars_of("lsphp");
    let c = chars_of("server-parsed");
    fold_contains_exec(h, &a) || fold_contains_exec(h, &b) || fold_contains_exec(h, &c)
}

// ---------------------------------------------------------------------------
// The three directives.
pub enum Directive {
    AddHandler,
    FilesMatch,
    Files,
}

pub open spec fn keyword(d: Directive) -> Seq<char> {
    match d {
        Directive::AddHandler => "addhandler"@,
        Directive::FilesMatch => "<filesmatch"@,
        Directive::Files => "<files"@,
    }
}

/// The spans captured by a directive that matches starting at index `i` of `s`:
/// `(a, b, c, d)`, the first group being `s[a..b]` and the second `s[c..d]`
/// (equal to the first for directives with one group).
pub open spec fn match_at(s: Seq<char>, i: int, d: Directive) -> Option<(int, int, int, int)> {
    if !fold_occurs_at(s, keyword(d), i) {
        None
    } else {
        let j = i + keyword(d).len();
        let w = run_end(s, j, CharClass::Space);
        if w == j {
            None
        } else {
            match d {
                Directive::AddHandler => {
                    let he = run_end(s, w, CharClass::NonSpace);
                    let w2 = run_end(s, he, CharClass::Space);
                    if he == w || w2 == he || w2 >= s.len() || s[w2] != '.' {
                        None
                    } else {
                        let ee = run_end(s, w2 + 1, CharClass::ExtChar);
                        if ee == w2 + 1 {
                            None
                        } else {
                            Some((w, he, w2 + 1, ee))
                        }
                    }
                },
                Directive::FilesMatch => {
                    if w >= s.len() || s[w] != '"' {
                        None
                    } else {
                        let e = run_end(s, w + 1, CharClass::NotQuote);
                        if e == w + 1 || e >= s.len() || s[e] != '"' {
                            None
                        } else {
                            Some((w + 1, e, w + 1, e))
                        }
                    }
                },
                Directive::Files => {
                    let e = run_end(s, w, CharClass::NameChar);
                    if e == w {
                        None
                    } else {
                        Some((w, e, w, e))
                    }
                },
            }
        }
    }
}

/// The leftmost match of a directive at or after index `i`.
pub open spec fn first_match(s: Seq<char>, i: int, d: Directive) -> Option<(int, int, int, int)>
    decreases s.len() + 1 - i,
{
    if i < 0 || i > s.len() {
        None
    } else {
        match match_at(s, i, d) {
            Some(m) => Some(m),
            None => first_match(s, i + 1, d),
        }
    }
}

pub proof fn lemma_match_bounds(s: Seq<char>, i: int, d: Directive)
    ensures
        match_at(s, i, d) matches Some((a, b, c, e)) ==> 0 <= a < b <= s.len() && 0 <= c < e
            <= s.len(),
{
    if fold_occurs_at(s, keyword(d), i) {
        let j = i + keyword(d).len();
        lemma_run_end(s, j, CharClass::Space);
        let w = run_end(s, j, CharClass::Space);
        lemma_run_end(s, w, CharClass::NonSpace);
        lemma_run_end(s, w, CharClass::NameChar);
        let he = run_end(s, w, CharClass::NonSpace);
        lemma_run_end(s, he, CharClass::Space);
        let w2 = run_end(s, he, CharClass::Space);
        if w2 < s.len() {
            lemma_run_end(s, w2 + 1, CharClass::ExtChar);
        }
        if w < s.len() {
            lemma_run_end(s, w + 1, CharClass::NotQuote);
        }
    }
}

pub proof fn lemma_first_match_bounds(s: Seq<char>, i: int, d: Directive)
    ensures
        first_match(s, i, d) matches Some((a, b, c, e)) ==> 0 <= a < b <= s.len() && 0 <= c < e
            <= s.len(),
    decreases s.len() + 1 - i,
{
    if 0 <= i <= s.len() {
        lemma_match_bounds(s, i, d);
        lemma_first_match_bounds(s, i + 1, d);
    }
}

fn keyword_exec(d: &Directive) -> (r: Vec<char>)
    ensures
        r@ == keyword(*d),
{
    match d {
        Directive::AddHandler => chars_of("addhandler"),
        Directive::FilesMatch => chars_of("<filesmatch"),
        Directive::Files => chars_of("<files"),
    }
}

fn match_at_exec(s: &Vec<char>, i: usize, d: &Directive) -> (r: Option<(usize, usize, usize, usize)>)
    requires
        i <= s@.len(),
    ensures
        match r {
            Some((a, b, c, e)) => match_at(s@, i as int, *d) == Some(
                (a as int, b as int, c as int, e as int),
            ),
            None => match_at(s@, i as int, *d) is None,
        },
{
    let kw = keyword_exec(d);
    let sl = s.len();
    if !fold_occurs_at_exec(s, &kw, i) {
        return None;
    }
    assert(i + kw@.len() <= sl);
    let j = i + kw.len();
    let w = run_end_exec(s, j, &CharClass::Space);
    if w == j {
        return None;
    }
    match d {
        Directive::AddHandler => {
            let he = run_end_exec(s, w, &CharClass::NonSpace);
            let w2 = run_end_exec(s, he, &CharClass::Space);
            if he == w || w2 == he || w2 >= s.len() || s[w2] != '.' {
                return None;
            }
            let ee = run_end_exec(s, w2 + 1, &CharClass::ExtChar);
            if ee == w2 + 1 {
                None
            } else {
                Some((w, he, w2 + 1, ee))
            }
        },
        Directive::FilesMatch => {
            if w >= s.len() || s[w] != '"' {
                return None;
            }
            let e = run_end_exec(s, w + 1, &CharClass::NotQuote);
            if e == w + 1 || e >= s.len() || s[e] != '"' {
                None
            } else {
                Some((w + 1, e, w + 1, e))
            }
        },
        Directive::Files => {
            let e = run_end_exec(s, w, &CharClass::NameChar);
            if e == w {
                None
            } else {
                Some((w, e, w, e))
            }
        },
    }
}

fn first_match_exec(s: &Vec<char>, d: &Directive) -> (r: Option<(usize, usize, usize, usize)>)
    ensures
        match r {
            Some((a, b, c, e)) => first_match(s@, 0, *d) == Some(
                (a as int, b as int, c as int, e as int),
            ),
            None => first_match(s@, 0, *d) is None,
        },
{
    let mut i: usize = 0;
    loop
        invariant
            i <= s@.len(),
            first_match(s@, i as int, *d) == first_match(s@, 0, *d),
        decreases s@.len() - i,
    {
        match match_at_exec(s, i, d) {
            Some(m) => {
                return Some(m);
            },
            None => {},
        }
        if i == s.len() {
            assert(first_match(s@, i + 1, *d) is None);
            return None;
        }
        i = i + 1;
    }
}

// ---------------------------------------------------------------------------
// Splitting.
/// The pieces of `s` already closed by a separator, and the piece still open.
pub open spec fn split_acc(s: Seq<char>, sep: char) -> (Seq<Seq<char>>, Seq<char>)
    decreases s.len(),
{
    if s.len() == 0 {
        (Seq::empty(), Seq::empty())
    } else {
        let (done, cur) = split_acc(s.drop_last(), sep);
        if s.last() == sep {
            (done.push(cur), Seq::empty())
        } else {
            (done, cur.push(s.last()))
        }
    }
}

/// `s` split at every `sep` (`str::split`).
pub open spec fn split_char(s: Seq<char>, sep: char) -> Seq<Seq<char>> {
    let (done, cur) = split_acc(s, sep);
    done.push(cur)
}

pub open spec fn vec_views(v: Seq<Vec<char>>) -> Seq<Seq<char>> {
    v.map_values(|x: Vec<char>| x@)
}

/// `str::split` at a single character.
pub fn split_chars(s: &Vec<char>, sep: char) -> (r: Vec<Vec<char>>)
    ensures
        vec_views(r@) == split_char(s@, sep),
{
    let mut done: Vec<Vec<char>> = Vec::new();
    let mut cur: Vec<char> = Vec::new();
    let mut i: usize = 0;
    while i < s.len()
        invariant
            i <= s@.len(),
            (vec_views(done@), cur@) == split_acc(s@.take(i as int), sep),
        decreases s@.len() - i,
    {
        let c = s[i];
        assert(s@.take(i + 1).drop_last() =~= s@.take(i as int));
        if c == sep {
            let piece = cur;
            done.push(piece);
            cur = Vec::new();
            assert(vec_views(done@) =~= vec_views(done@.drop_last()).push(piece@));
        } else {
            cur.push(c);
        }
        i = i + 1;
    }
    assert(s@.take(s@.len() as int) =~= s@);
    let ghost d0 = done@;
    done.push(cur);
    assert(vec_views(done@) =~= vec_views(d0).push(cur@));
    done
}

// ---------------------------------------------------------------------------
// `<FilesMatch>` patterns.
/// End of a parenthesised group `([a-z0-9|]+)` opening at `p`, if one does.
pub open spec fn group_at(s: Seq<char>, p: int) -> Option<int> {
    if 0 <= p < s.len() && s[p] == '(' {
        let e = run_end(s, p + 1, CharClass::GroupChar);
        if e > p + 1 && e < s.len() && s[e] == ')' {
            Some(e)
        } else {
            None
        }
    } else {
        None
    }
}

/// The contents of the successive non-overlapping groups of `s` from index `p` on.
pub open spec fn groups_from(s: Seq<char>, p: int) -> Seq<Seq<char>>
    decreases s.len() - p,
{
    if p < 0 || p >= s.len() {
        Seq::empty()
    } else {
        match group_at(s, p) {
            Some(e) => if e >= p {
                seq![s.subrange(p + 1, e)] + groups_from(s, e + 1)
            } else {
                Seq::empty()
            },
            None => groups_from(s, p + 1),
        }
    }
}

/// The candidate extensions of one group: its `|`-separated parts, trimmed, kept
/// when they have one to ten characters.
pub open spec fn group_parts(g: Seq<char>) -> Seq<Seq<char>> {
    split_char(g, '|').map_values(|p: Seq<char>| trim_seq(p)).filter(
        |p: Seq<char>| 0 < p.len() <= 10,
    )
}

/// `acc` extended by each of `xs` in turn, skipping those already present.
pub open spec fn append_all_unique(acc: Seq<Seq<char>>, xs: Seq<Seq<char>>) -> Seq<Seq<char>>
    decreases xs.len(),
{
    if xs.len() == 0 {
        acc
    } else {
        append_all_unique(append_unique_seq(acc, xs[0]), xs.drop_first())
    }
}

/// The candidates of the groups, in order.
pub open spec fn all_group_parts(gs: Seq<Seq<char>>) -> Seq<Seq<char>>
    decreases gs.len(),
{
    if gs.len() == 0 {
        Seq::empty()
    } else {
        group_parts(gs[0]) + all_group_parts(gs.drop_first())
    }
}

/// The extensions a `<FilesMatch>` pattern lists: every part of every `(a|b|...)`
/// group of the lowercased pattern, each once, in order of first mention.
pub open spec fn pattern_extensions(pattern: Seq<char>) -> Seq<Seq<char>> {
    append_all_unique(Seq::empty(), all_group_parts(groups_from(unicode_lower(pattern), 0)))
}

pub proof fn lemma_append_all_unique_split(acc: Seq<Seq<char>>, xs: Seq<Seq<char>>, ys: Seq<Seq<char>>)
    ensures
        append_all_unique(acc, xs + ys) == append_all_unique(append_all_unique(acc, xs), ys),
    decreases xs.len(),
{
    if xs.len() == 0 {
        assert(xs + ys =~= ys);
    } else {
        assert((xs + ys).drop_first() =~= xs.drop_first() + ys);
        lemma_append_all_unique_split(append_unique_seq(acc, xs[0]), xs.drop_first(), ys);
    }
}

pub proof fn lemma_append_all_unique_one(acc: Seq<Seq<char>>, xs: Seq<Seq<char>>, x: Seq<char>)
    ensures
        append_all_unique(acc, xs.push(x)) == append_unique_seq(append_all_unique(acc, xs), x),
{
    lemma_append_all_unique_split(acc, xs, seq![x]);
    assert(xs.push(x) =~= xs + seq![x]);
    let b = append_all_unique(acc, xs);
    assert(seq![x].drop_first() =~= Seq::<Seq<char>>::empty());
    assert(append_all_unique(b, seq![x]) == append_all_unique(append_unique_seq(b, x), seq![x].drop_first()));
}

proof fn lemma_filter_push(s: Seq<Seq<char>>, x: Seq<char>)
    ensures
        s.push(x).filter(|p: Seq<char>| 0 < p.len() <= 10) == if 0 < x.len() <= 10 {
            s.filter(|p: Seq<char>| 0 < p.len() <= 10).push(x)
        } else {
            s.filter(|p: Seq<char>| 0 < p.len() <= 10)
        },
{
    reveal(Seq::filter);
    assert(s.push(x).drop_last() =~= s);
}

/// Adds the candidate extensions of one group to `out`.
fn add_group_parts(out: &mut Vec<String>, g: &Vec<char>)
    ensures
        views(final(out)@) == append_all_unique(views(old(out)@), group_parts(g@)),
{
    let parts = split_chars(g, '|');
    let ghost trimmed = vec_views(parts@).map_values(|p: Seq<char>| trim_seq(p));
    let mut i: usize = 0;
    while i < parts.len()
        invariant
            i <= parts@.len(),
            trimmed == vec_views(parts@).map_values(|p: Seq<char>| trim_seq(p)),
            vec_views(parts@) == split_char(g@, '|'),
            views(out@) == append_all_unique(
                views(old(out)@),
                trimmed.take(i as int).filter(|p: Seq<char>| 0 < p.len() <= 10),
            ),
        decreases parts@.len() - i,
    {
        let t = trim_chars(&parts[i]);
        proof {
            assert(trimmed.take(i + 1) =~= trimmed.take(i as int).push(t@));
            lemma_filter_push(trimmed.take(i as int), t@);
        }
        if t.len() > 0 && t.len() <= 10 {
            let s = string_of(&t);
            append_unique(out, s);
            proof {
                let f = trimmed.take(i as int).filter(|p: Seq<char>| 0 < p.len() <= 10);
                lemma_append_all_unique_one(views(old(out)@), f, t@);
            }
        }
        i = i + 1;
    }
    assert(trimmed.take(parts@.len() as int) =~= trimmed);
}

proof fn lemma_groups_from_step(s: Seq<char>, p: int)
    requires
        0 <= p < s.len(),
    ensures
        group_at(s, p) matches Some(e) ==> p < e < s.len(),
{
    if s[p] == '(' {
        lemma_run_end(s, p + 1, CharClass::GroupChar);
    }
}

/// The extensions a `<FilesMatch>` pattern lists (the pattern is lowercased first).
pub fn extract_extensions_from_pattern(pattern: &str) -> (r: Vec<String>)
    ensures
        views(r@) == pattern_extensions(pattern@),
{
    let lower = to_lower(pattern);
    let s = chars_of(lower.as_str());
    let mut out: Vec<String> = Vec::new();
    let mut p: usize = 0;
    let ghost total = all_group_parts(groups_from(s@, 0));
    let ghost mut done: Seq<Seq<char>> = Seq::empty();
    while p < s.len()
        invariant
            p <= s@.len(),
            all_group_parts(groups_from(s@, 0)) == done + all_group_parts(groups_from(s@, p as int)),
            views(out@) == append_all_unique(Seq::empty(), done),
        decreases s@.len() - p,
    {
        proof {
            lemma_groups_from_step(s@, p as int);
        }
        let mut next = p + 1;
        if s[p] == '(' {
            let e = run_end_exec(&s, p + 1, &CharClass::GroupChar);
            if e > p + 1 && e < s.len() && s[e] == ')' {
                let g = slice_chars(&s, p + 1, e);
                let ghost before = views(out@);
                add_group_parts(&mut out, &g);
                proof {
                    let rest = groups_from(s@, e + 1);
                    assert(groups_from(s@, p as int) == seq![g@] + rest);
                    assert((seq![g@] + rest).drop_first() =~= rest);
                    assert(all_group_parts(seq![g@] + rest) == group_parts(g@) + all_group_parts(
                        rest,
                    ));
                    lemma_append_all_unique_split(Seq::empty(), done, group_parts(g@));
                    done = done + group_parts(g@);
                    assert(all_group_parts(groups_from(s@, 0)) == done + all_group_parts(rest)) by {
                        assert(done + all_group_parts(rest) =~= (done.subrange(
                            0,
                            done.len() - group_parts(g@).len(),
                        )) + (group_parts(g@) + all_group_parts(rest)));
                    }
                }
                next = e + 1;
            }
        }
        p = next;
    }
    assert(groups_from(s@, p as int) =~= Seq::<Seq<char>>::empty());
    assert(all_group_parts(Seq::<Seq<char>>::empty()) =~= Seq::<Seq<char>>::empty());
    assert(done + Seq::<Seq<char>>::empty() =~= done);
    out
}

// ---------------------------------------------------------------------------
// Lines.
/// `s` without every leading and trailing occurrence of `c` (`str::trim_matches`).
pub open spec fn strip_char(s: Seq<char>, c: char) -> Seq<char> {
    let a = lead_count(s, c, 0);
    if a >= s.len() {
        Seq::empty()
    } else {
        s.subrange(a, tail_start(s, c, s.len() as int))
    }
}

pub open spec fn lead_count(s: Seq<char>, c: char, i: int) -> int
    decreases s.len() - i,
{
    if 0 <= i < s.len() && s[i] == c {
        lead_count(s, c, i + 1)
    } else {
        i
    }
}

pub open spec fn tail_start(s: Seq<char>, c: char, j: int) -> int
    decreases j,
{
    if 0 < j <= s.len() && s[j - 1] == c {
        tail_start(s, c, j - 1)
    } else {
        j
    }
}

proof fn lemma_lead_count(s: Seq<char>, c: char, i: int)
    requires
        0 <= i <= s.len(),
    ensures
        i <= lead_count(s, c, i) <= s.len(),
        forall|k: int| i <= k < lead_count(s, c, i) ==> #[trigger] s[k] == c,
        lead_count(s, c, i) < s.len() ==> s[lead_count(s, c, i)] != c,
    decreases s.len() - i,
{
    if i < s.len() && s[i] == c {
        lemma_lead_count(s, c, i + 1);
    }
}

proof fn lemma_tail_start(s: Seq<char>, c: char, j: int)
    requires
        0 <= j <= s.len(),
    ensures
        0 <= tail_start(s, c, j) <= j,
        forall|k: int| tail_start(s, c, j) <= k < j ==> #[trigger] s[k] == c,
        tail_start(s, c, j) > 0 ==> s[tail_start(s, c, j) - 1] != c,
    decreases j,
{
    if j > 0 && s[j - 1] == c {
        lemma_tail_start(s, c, j - 1);
    }
}

fn strip_char_exec(s: &Vec<char>, c: char) -> (r: Vec<char>)
    ensures
        r@ == strip_char(s@, c),
{
    let mut a: usize = 0;
    while a < s.len() && s[a] == c
        invariant
            a <= s@.len(),
            lead_count(s@, c, a as int) == lead_count(s@, c, 0),
        decreases s@.len() - a,
    {
        a = a + 1;
    }
    if a >= s.len() {
        return Vec::new();
    }
    let mut b: usize = s.len();
    while b > 0 && s[b - 1] == c
        invariant
            b <= s@.len(),
            tail_start(s@, c, b as int) == tail_start(s@, c, s@.len() as int),
        decreases b,
    {
        b = b - 1;
    }
    proof {
        lemma_lead_count(s@, c, 0);
        lemma_tail_start(s@, c, s@.len() as int);
        if b <= a {
            assert(s@[a as int] == c);
        }
    }
    slice_chars(s, a, b)
}

pub open spec fn php_hit(ext: Seq<char>) -> Seq<char> {
    "htaccess:php_handler_disguise(."@ + ext + ")"@
}

pub open spec fn ssi_hit(ext: Seq<char>) -> Seq<char> {
    "htaccess:ssi_handler_disguise(."@ + ext + ")"@
}

pub open spec fn allowed_hit(name: Seq<char>) -> Seq<char> {
    "htaccess:allowed_php_file("@ + name + ")"@
}

pub open spec fn with_handler(m: ConfigModel, ext: Seq<char>, handler: Seq<char>, hit: Seq<char>) -> ConfigModel {
    ConfigModel {
        handlers: upsert(m.handlers, ext, handler),
        hits: append_unique_seq(m.hits, hit),
        ..m
    }
}

/// The effect of an `AddHandler` directive on a trimmed line.
pub open spec fn handler_step(m: ConfigModel, t: Seq<char>) -> ConfigModel {
    match first_match(t, 0, Directive::AddHandler) {
        None => m,
        Some((a, b, c, e)) => {
            let handler = t.subrange(a, b);
            let ext = unicode_lower(t.subrange(c, e));
            let m1 = if is_php_handler(handler) {
                with_handler(m, ext, handler, php_hit(ext))
            } else {
                m
            };
            if contains_seq(unicode_lower(handler), "server-parsed"@) {
                with_handler(m1, ext, handler, ssi_hit(ext))
            } else {
                m1
            }
        },
    }
}

/// The effect of a `<FilesMatch>` directive on a trimmed line.
pub open spec fn files_match_step(m: ConfigModel, t: Seq<char>) -> ConfigModel {
    match first_match(t, 0, Directive::FilesMatch) {
        None => m,
        Some((a, b, c, e)) => ConfigModel {
            regex_exts: append_all_unique(m.regex_exts, pattern_extensions(t.subrange(a, b))),
            ..m
        },
    }
}

/// The name a `<Files>` directive gives, without surrounding quotes.
pub open spec fn files_name(raw: Seq<char>) -> Seq<char> {
    strip_char(strip_char(raw, '"'), '\'')
}

/// A `<Files>` name that refers to PHP.
pub open spec fn names_php(name: Seq<char>) -> bool {
    contains_seq(unicode_lower(name), ".php"@) || ".phtml"@.is_suffix_of(unicode_lower(name))
}

/// The effect of a `<Files>` directive on a trimmed line.
pub open spec fn files_step(m: ConfigModel, t: Seq<char>) -> ConfigModel {
    match first_match(t, 0, Directive::Files) {
        None => m,
        Some((a, b, c, e)) => {
            let name = files_name(t.subrange(a, b));
            ConfigModel {
                allowed: m.allowed.push(name),
                hits: if names_php(name) {
                    append_unique_seq(m.hits, allowed_hit(name))
                } else {
                    m.hits
                },
                ..m
            }
        },
    }
}

/// The effect of one line of a `.htaccess` file: blank lines and `#` comments
/// change nothing; otherwise each of the three directives applies in turn.
pub open spec fn line_step(m: ConfigModel, line: Seq<char>) -> ConfigModel {
    let t = trim_seq(line);
    if t.len() == 0 || t[0] == '#' {
        m
    } else {
        files_step(files_match_step(handler_step(m, t), t), t)
    }
}

/// The configuration after the given lines.
pub open spec fn lines_model(m: ConfigModel, lines: Seq<Seq<char>>) -> ConfigModel
    decreases lines.len(),
{
    if lines.len() == 0 {
        m
    } else {
        lines_model(line_step(m, lines[0]), lines.drop_first())
    }
}

/// What a `.htaccess` file says. The file is read line by line (split at `\n`;
/// each line is trimmed, so a `\r` before the `\n` does not matter).
pub open spec fn parse_model(content: Seq<char>) -> ConfigModel {
    lines_model(empty_model(), split_char(content, '\n'))
}

/// Builds `prefix + middle + ")"`.
fn hit_string(prefix: &str, middle: &str) -> (r: String)
    ensures
        r@ == prefix@ + middle@ + ")"@,
{
    concat3(prefix, middle, ")")
}

fn apply_handler(cfg: &mut Config, t: &Vec<char>)
    ensures
        final(cfg)@ == handler_step(old(cfg)@, t@),
{
    match first_match_exec(t, &Directive::AddHandler) {
        None => {},
        Some((a, b, c, e)) => {
            proof {
                lemma_first_match_bounds(t@, 0, Directive::AddHandler);
            }
            let handler_chars = slice_chars(t, a, b);
            let handler = string_of(&handler_chars);
            let ext_chars = slice_chars(t, c, e);
            let ext_raw = string_of(&ext_chars);
            let ext = to_lower(ext_raw.as_str());
            let ghost m0 = cfg@;
            if php_handler_exec(&handler_chars) {
                upsert_pair(&mut cfg.handler_extensions, ext.clone(), handler.clone());
                append_unique(&mut cfg.hits, hit_string("htaccess:php_handler_disguise(.", ext.as_str()));
            }
            let ghost m1 = cfg@;
            assert(m1 == (if is_php_handler(handler@) {
                with_handler(m0, ext@, handler@, php_hit(ext@))
            } else {
                m0
            }));
            let lh = to_lower(handler.as_str());
            if str_contains(lh.as_str(), "server-parsed") {
                upsert_pair(&mut cfg.handler_extensions, ext.clone(), handler.clone());
                append_unique(&mut cfg.hits, hit_string("htaccess:ssi_handler_disguise(.", ext.as_str()));
            }
        },
    }
}

fn apply_files_match(cfg: &mut Config, t: &Vec<char>)
    ensures
        final(cfg)@ == files_match_step(old(cfg)@, t@),
{
    match first_match_exec(t, &Directive::FilesMatch) {
        None => {},
        Some((a, b, c, e)) => {
            proof {
                lemma_first_match_bounds(t@, 0, Directive::FilesMatch);
            }
            let pat = string_of(&slice_chars(t, a, b));
            let exts = extract_extensions_from_pattern(pat.as_str());
            let mut i: usize = 0;
            let ghost start = views(cfg.regex_extensions@);
            while i < exts.len()
                invariant
                    i <= exts@.len(),
                    cfg.handler_extensions@ == old(cfg).handler_extensions@,
                    cfg.allowed_files@ == old(cfg).allowed_files@,
                    cfg.hits@ == old(cfg).hits@,
                    start == views(old(cfg).regex_extensions@),
                    views(cfg.regex_extensions@) == append_all_unique(
                        start,
                        views(exts@).take(i as int),
                    ),
                decreases exts@.len() - i,
            {
                let ghost before = views(cfg.regex_extensions@);
                append_unique(&mut cfg.regex_extensions, exts[i].clone());
                proof {
                    lemma_append_all_unique_one(start, views(exts@).take(i as int), exts@[i as int]@);
                    assert(views(exts@).take(i + 1) =~= views(exts@).take(i as int).push(exts@[i as int]@));
                }
                i = i + 1;
            }
            assert(views(exts@).take(exts@.len() as int) =~= views(exts@));
        },
    }
}

fn apply_files(cfg: &mut Config, t: &Vec<char>)
    ensures
        final(cfg)@ == files_step(old(cfg)@, t@),
{
    match first_match_exec(t, &Directive::Files) {
        None => {},
        Some((a, b, c, e)) => {
            proof {
                lemma_first_match_bounds(t@, 0, Directive::Files);
            }
            let raw = slice_chars(t, a, b);
            let n1 = strip_char_exec(&raw, '"');
            let n2 = strip_char_exec(&n1, '\'');
            let name = string_of(&n2);
            let ghost before = views(cfg.allowed_files@);
            cfg.allowed_files.push(name.clone());
            assert(views(cfg.allowed_files@) =~= before.push(name@));
            let lower = to_lower(name.as_str());
            if str_contains(lower.as_str(), ".php") || str_ends_with(lower.as_str(), ".phtml") {
                append_unique(&mut cfg.hits, hit_string("htaccess:allowed_php_file(", name.as_str()));
            }
        },
    }
}

fn apply_line(cfg: &mut Config, line: &Vec<char>)
    ensures
        final(cfg)@ == line_step(old(cfg)@, line@),
{
    let t = trim_chars(line);
    if t.len() == 0 || t[0] == '#' {
        return;
    }
    apply_handler(cfg, &t);
    apply_files_match(cfg, &t);
    apply_files(cfg, &t);
}

/// Reads a `.htaccess` file.
pub fn parse(content: &str) -> (cfg: Config)
    ensures
        cfg@ == parse_model(content@),
{
    let cs = chars_of(content);
    let lines = split_chars(&cs, '\n');
    let mut cfg = Config::new();
    let mut i: usize = 0;
    assert(vec_views(lines@).skip(0) =~= vec_views(lines@));
    while i < lines.len()
        invariant
            i <= lines@.len(),
            vec_views(lines@) == split_char(content@, '\n'),
            lines_model(cfg@, vec_views(lines@).skip(i as int)) == parse_model(content@),
        decreases lines@.len() - i,
    {
        let ghost rest = vec_views(lines@).skip(i as int);
        apply_line(&mut cfg, &lines[i]);
        assert(rest.drop_first() =~= vec_views(lines@).skip(i + 1));
        i = i + 1;
    }
    assert(vec_views(lines@).skip(lines@.len() as int) =~= Seq::<Seq<char>>::empty());
    cfg
}

/// Whether the path names a `.htaccess` file: its final component, lowercased,
/// is `.htaccess` or ends with it.
pub open spec fn is_htaccess_path(path: Seq<char>) -> bool {
    htaccess_name(unicode_lower(base_name(path)))
}

/// A lowercased file name is `.htaccess` or ends with it.
pub open spec fn htaccess_name(base: Seq<char>) -> bool {
    base == ".htaccess"@ || ".htaccess"@.is_suffix_of(base)
}

/// Whether a lowercased file name names a `.htaccess` file.
pub fn names_htaccess(base_lower: &str) -> (b: bool)
    ensures
        b == htaccess_name(base_lower@),
{
    str_eq(base_lower, ".htaccess") || str_ends_with(base_lower, ".htaccess")
}

pub fn is_htaccess_file(path: &str) -> (b: bool)
    ensures
        b == is_htaccess_path(path@),
{
    let base = to_lower(base_name_of(path).as_str());
    names_htaccess(base.as_str())
}

// ---------------------------------------------------------------------------
// Lines that change nothing.
/// A line that the parser skips: no line break in it, and blank or a `#` comment
/// once trimmed.
pub open spec fn ignored_line(l: Seq<char>) -> bool {
    &&& !l.contains('\n')
    &&& (trim_seq(l).len() == 0 || trim_seq(l)[0] == '#')
}

proof fn lemma_split_acc_join(x: Seq<char>, y: Seq<char>, sep: char)
    ensures
        split_acc(x + seq![sep] + y, sep) == (split_char(x, sep) + split_acc(y, sep).0, split_acc(y, sep).1),
    decreases y.len(),
{
    let s = x + seq![sep] + y;
    if y.len() == 0 {
        assert(s.drop_last() =~= x);
        assert(split_char(x, sep) + Seq::<Seq<char>>::empty() =~= split_char(x, sep));
    } else {
        assert(s.drop_last() =~= x + seq![sep] + y.drop_last());
        assert(s.last() == y.last());
        lemma_split_acc_join(x, y.drop_last(), sep);
        let (d, c) = split_acc(y.drop_last(), sep);
        if y.last() == sep {
            assert((split_char(x, sep) + d).push(c) =~= split_char(x, sep) + d.push(c));
        }
    }
}

proof fn lemma_split_join(x: Seq<char>, y: Seq<char>, sep: char)
    ensures
        split_char(x + seq![sep] + y, sep) == split_char(x, sep) + split_char(y, sep),
{
    lemma_split_acc_join(x, y, sep);
    let (d, c) = split_acc(y, sep);
    assert((split_char(x, sep) + d).push(c) =~= split_char(x, sep) + d.push(c));
}

proof fn lemma_split_single(l: Seq<char>, sep: char)
    requires
        !l.contains(sep),
    ensures
        split_acc(l, sep) == (Seq::<Seq<char>>::empty(), l),
        split_char(l, sep) == seq![l],
    decreases l.len(),
{
    if l.len() > 0 {
        assert(!l.drop_last().contains(sep)) by {
            if l.drop_last().contains(sep) {
                let k = choose|k: int| 0 <= k < l.drop_last().len() && l.drop_last()[k] == sep;
                assert(l[k] == sep);
            }
        }
        lemma_split_single(l.drop_last(), sep);
        assert(l.last() != sep) by {
            assert(l[l.len() - 1] == l.last());
        }
        assert(l.drop_last().push(l.last()) =~= l);
    }
    assert(Seq::<Seq<char>>::empty().push(l) =~= seq![l]);
}

proof fn lemma_lines_concat(m: ConfigModel, a: Seq<Seq<char>>, b: Seq<Seq<char>>)
    ensures
        lines_model(m, a + b) == lines_model(lines_model(m, a), b),
    decreases a.len(),
{
    if a.len() == 0 {
        assert(a + b =~= b);
    } else {
        assert((a + b).drop_first() =~= a.drop_first() + b);
        assert((a + b)[0] == a[0]);
        lemma_lines_concat(line_step(m, a[0]), a.drop_first(), b);
    }
}

/// Blank lines and `#` comments change nothing: inserting one at the start, between
/// two lines, or at the end of a file gives the same configuration.
pub proof fn law_ignored_lines_change_nothing(x: Seq<char>, l: Seq<char>, y: Seq<char>)
    requires
        ignored_line(l),
    ensures
        parse_model(l + seq!['\n'] + y) == parse_model(y),
        parse_model(x + seq!['\n'] + l + seq!['\n'] + y) == parse_model(x + seq!['\n'] + y),
        parse_model(x + seq!['\n'] + l) == parse_model(x),
{
    let e = empty_model();
    lemma_split_single(l, '\n');
    assert(line_step(e, l) == e);
    let ly = l + seq!['\n'] + y;
    lemma_split_join(l, y, '\n');
    assert((seq![l] + split_char(y, '\n')).drop_first() =~= split_char(y, '\n'));
    assert((seq![l] + split_char(y, '\n'))[0] == l);
    lemma_split_join(x, ly, '\n');
    assert(x + seq!['\n'] + l + seq!['\n'] + y =~= x + seq!['\n'] + ly);
    lemma_split_join(x, y, '\n');
    let xs = split_char(x, '\n');
    let mx = lines_model(e, xs);
    lemma_lines_concat(e, xs, split_char(ly, '\n'));
    lemma_lines_concat(e, xs, split_char(y, '\n'));
    assert(line_step(mx, l) == mx);
    assert(lines_model(mx, seq![l] + split_char(y, '\n')) == lines_model(mx, split_char(y, '\n')));
    lemma_split_join(x, l, '\n');
    lemma_lines_concat(e, xs, seq![l]);
    assert(seq![l].drop_first() =~= Seq::<Seq<char>>::empty());
    assert(lines_model(mx, seq![l]) == lines_model(line_step(mx, l), Seq::<Seq<char>>::empty()));
}

/// A trimmed line that the parser skips: blank, or a `#` comment.
pub open spec fn skipped_line(l: Seq<char>) -> bool {
    trim_seq(l).len() == 0 || trim_seq(l)[0] == '#'
}

/// The lines that are not skipped, in order.
pub open spec fn kept_lines(ls: Seq<Seq<char>>) -> Seq<Seq<char>>
    decreases ls.len(),
{
    if ls.len() == 0 {
        Seq::empty()
    } else if skipped_line(ls[0]) {
        kept_lines(ls.drop_first())
    } else {
        seq![ls[0]] + kept_lines(ls.drop_first())
    }
}

proof fn lemma_lines_kept(m: ConfigModel, ls: Seq<Seq<char>>)
    ensures
        lines_model(m, ls) == lines_model(m, kept_lines(ls)),
    decreases ls.len(),
{
    if ls.len() > 0 {
        if skipped_line(ls[0]) {
            lemma_lines_kept(m, ls.drop_first());
        } else {
            let m1 = line_step(m, ls[0]);
            lemma_lines_kept(m1, ls.drop_first());
            let k = seq![ls[0]] + kept_lines(ls.drop_first());
            assert(k[0] == ls[0]);
            assert(k.drop_first() =~= kept_lines(ls.drop_first()));
        }
    }
}

/// Blank lines and `#` comments change nothing: two files whose lines are the same
/// once such lines are left out, however many are inserted or removed and wherever,
/// give the same configuration.
pub proof fn law_skipped_lines_change_nothing(c1: Seq<char>, c2: Seq<char>)
    requires
        kept_lines(split_char(c1, '\n')) == kept_lines(split_char(c2, '\n')),
    ensures
        parse_model(c1) == parse_model(c2),
{
    lemma_lines_kept(empty_model(), split_char(c1, '\n'));
    lemma_lines_kept(empty_model(), split_char(c2, '\n'));
}

// ---------------------------------------------------------------------------
// Groups of a `<FilesMatch>` pattern.
/// A character of a `(a|b|...)` group: an ASCII digit, a lowercase ASCII letter, or `|`.
pub open spec fn group_char(c: char) -> bool {
    let u = c as u32;
    (0x30 <= u && u <= 0x39) || (0x61 <= u && u <= 0x7A) || c == '|'
}

/// `s[p]` opens a group that `s[e]` closes, with only group characters between.
pub open spec fn group_spans(s: Seq<char>, p: int, e: int) -> bool {
    &&& 0 <= p
    &&& p + 1 < e < s.len()
    &&& s[p] == '('
    &&& s[e] == ')'
    &&& forall|k: int| p + 1 <= k < e ==> group_char(#[trigger] s[k])
}

proof fn lemma_group_at_span(s: Seq<char>, p: int, e: int)
    requires
        group_spans(s, p, e),
    ensures
        group_at(s, p) == Some(e),
{
    lemma_run_end(s, p + 1, CharClass::GroupChar);
    let r = run_end(s, p + 1, CharClass::GroupChar);
    if r < e {
        assert(group_char(s[r]));
    }
    if r > e {
        assert(in_class(s[e], CharClass::GroupChar));
        assert(!in_class(')', CharClass::GroupChar));
    }
}

proof fn lemma_groups_reach(s: Seq<char>, q: int, p: int, e: int)
    requires
        0 <= q <= p,
        group_spans(s, p, e),
    ensures
        groups_from(s, q).contains(s.subrange(p + 1, e)),
    decreases p - q,
{
    let g = s.subrange(p + 1, e);
    if q == p {
        lemma_group_at_span(s, p, e);
        assert((seq![g] + groups_from(s, e + 1))[0] == g);
    } else {
        lemma_groups_from_step(s, q);
        match group_at(s, q) {
            Some(e2) => {
                lemma_run_end(s, q + 1, CharClass::GroupChar);
                if p <= e2 {
                    if p < e2 {
                        assert(in_class(s[p], CharClass::GroupChar));
                    }
                    assert(false);
                }
                lemma_groups_reach(s, e2 + 1, p, e);
                let rest = groups_from(s, e2 + 1);
                let k = choose|k: int| 0 <= k < rest.len() && rest[k] == g;
                assert((seq![s.subrange(q + 1, e2)] + rest)[k + 1] == g);
            },
            None => {
                lemma_groups_reach(s, q + 1, p, e);
            },
        }
    }
}

proof fn lemma_all_group_parts_has(gs: Seq<Seq<char>>, i: int, x: Seq<char>)
    requires
        0 <= i < gs.len(),
        group_parts(gs[i]).contains(x),
    ensures
        all_group_parts(gs).contains(x),
    decreases gs.len(),
{
    let here = group_parts(gs[0]);
    let rest = all_group_parts(gs.drop_first());
    if i == 0 {
        let k = choose|k: int| 0 <= k < here.len() && here[k] == x;
        assert((here + rest)[k] == x);
    } else {
        assert(gs.drop_first()[i - 1] == gs[i]);
        lemma_all_group_parts_has(gs.drop_first(), i - 1, x);
        let k = choose|k: int| 0 <= k < rest.len() && rest[k] == x;
        assert((here + rest)[here.len() + k] == x);
    }
}

proof fn lemma_split_keeps_chars(s: Seq<char>, sep: char)
    requires
        forall|j: int| 0 <= j < s.len() ==> group_char(#[trigger] s[j]),
    ensures
        forall|k: int, t: int|
            0 <= k < split_acc(s, sep).0.len() && 0 <= t < split_acc(s, sep).0[k].len() ==> group_char(
                #[trigger] split_acc(s, sep).0[k][t],
            ),
        forall|t: int| 0 <= t < split_acc(s, sep).1.len() ==> group_char(#[trigger] split_acc(s, sep).1[t]),
    decreases s.len(),
{
    if s.len() > 0 {
        assert forall|j: int| 0 <= j < s.drop_last().len() implies group_char(#[trigger] s.drop_last()[j]) by {
            assert(s.drop_last()[j] == s[j]);
        }
        lemma_split_keeps_chars(s.drop_last(), sep);
        assert(group_char(s[s.len() - 1]));
        let (d0, c0) = split_acc(s.drop_last(), sep);
        if s.last() == sep {
            assert(split_acc(s, sep) == (d0.push(c0), Seq::<char>::empty()));
            assert forall|k: int, t: int|
                0 <= k < d0.push(c0).len() && 0 <= t < d0.push(c0)[k].len() implies group_char(
                #[trigger] d0.push(c0)[k][t],
            ) by {
                if k < d0.len() {
                    assert(d0.push(c0)[k] == d0[k]);
                } else {
                    assert(d0.push(c0)[k] == c0);
                }
            }
        } else {
            assert(split_acc(s, sep) == (d0, c0.push(s.last())));
            assert forall|t: int| 0 <= t < c0.push(s.last()).len() implies group_char(
                #[trigger] c0.push(s.last())[t],
            ) by {
                if t < c0.len() {
                    assert(c0.push(s.last())[t] == c0[t]);
                }
            }
        }
    }
}

proof fn lemma_trim_plain(x: Seq<char>)
    requires
        forall|t: int| 0 <= t < x.len() ==> group_char(#[trigger] x[t]),
    ensures
        trim_seq(x) == x,
{
    if x.len() > 0 {
        assert(group_char(x[0]));
        assert(group_char(x[x.len() - 1]));
        assert(crate::text::skip_ws(x, 0) == 0);
        assert(crate::text::back_ws(x, x.len() as int) == x.len());
        assert(x.subrange(0, x.len() as int) =~= x);
    }
}

proof fn lemma_group_part(g: Seq<char>, x: Seq<char>)
    requires
        forall|j: int| 0 <= j < g.len() ==> group_char(#[trigger] g[j]),
        split_char(g, '|').contains(x),
        0 < x.len() <= 10,
    ensures
        group_parts(g).contains(x),
{
    broadcast use vstd::seq_lib::group_filter_ensures;
    lemma_split_keeps_chars(g, '|');
    let pieces = split_char(g, '|');
    let (d, c) = split_acc(g, '|');
    let i = choose|i: int| 0 <= i < pieces.len() && pieces[i] == x;
    assert forall|t: int| 0 <= t < x.len() implies group_char(#[trigger] x[t]) by {
        if i < d.len() {
            assert(pieces[i] == d[i]);
            assert(group_char(d[i][t]));
        } else {
            assert(pieces[i] == c);
            assert(group_char(c[t]));
        }
    }
    lemma_trim_plain(x);
    let trimmed = pieces.map_values(|p: Seq<char>| trim_seq(p));
    assert(trimmed[i] == x);
    trimmed.lemma_filter_contains(|p: Seq<char>| 0 < p.len() <= 10, i);
}

/// Every `|`-separated part of one to ten characters of a group of the lowercased
/// `<FilesMatch>` pattern, a group being `(`, one or more ASCII digits, lowercase
/// ASCII letters or `|`, and `)`, is among the extensions the pattern lists.
pub proof fn law_group_parts_listed(pattern: Seq<char>, p: int, e: int, x: Seq<char>)
    requires
        group_spans(unicode_lower(pattern), p, e),
        split_char(unicode_lower(pattern).subrange(p + 1, e), '|').contains(x),
        0 < x.len() <= 10,
    ensures
        pattern_extensions(pattern).contains(x),
{
    let s = unicode_lower(pattern);
    let g = s.subrange(p + 1, e);
    lemma_groups_reach(s, 0, p, e);
    assert forall|j: int| 0 <= j < g.len() implies group_char(#[trigger] g[j]) by {
        assert(g[j] == s[p + 1 + j]);
    }
    lemma_group_part(g, x);
    let gs = groups_from(s, 0);
    let i = choose|i: int| 0 <= i < gs.len() && gs[i] == g;
    lemma_all_group_parts_has(gs, i, x);
    let xs = all_group_parts(gs);
    let k = choose|k: int| 0 <= k < xs.len() && xs[k] == x;
    crate::webshell::lemma_append_all_unique_no_dup(Seq::empty(), xs);
}

} // verus!
