//! Which files are worth scanning for webshells: the PHP extensions, whatever the
//! `.htaccess` files of the tree add to them, and any content that looks like PHP.
use vstd::prelude::*;
use crate::htaccess::{
    Config, ConfigModel, append_all_unique, append_unique, default_extension_list,
    default_extensions, is_htaccess_file, key_index, key_index_from, is_htaccess_path, keys_distinct, lemma_append_all_unique_one,
    lead_count, pair_views, upsert, upsert_pair,
};
use crate::paths::{base_name, base_name_of, extension, path_extension};
use crate::text::{
    append_unique_seq, chars_of, contains_seq, contains_string, decode_lossy, has_view, lossy_utf8,
    slice_chars, str_contains, str_eq, string_of, to_lower, trim_chars, trim_seq, unicode_lower,
    views,
};

verus! {

/// The scan scope built from the defaults and the `.htaccess` files of a tree.
pub struct Policy {
    /// Extensions (lowercase, without the dot) scanned as PHP; each once.
    pub extensions: Vec<String>,
    /// Extensions a handler maps to PHP, with the handler; each extension once.
    pub disguised_ext: Vec<(String, String)>,
    /// File names (lowercase) that a `<Files>` block names; each once.
    pub allowed_files: Vec<String>,
    /// The findings of the `.htaccess` files, each once, in order of first finding.
    pub htaccess_hits: Vec<String>,
}

/// The content of a [`Policy`].
pub struct PolicyModel {
    pub exts: Seq<Seq<char>>,
    pub disguised: Seq<(Seq<char>, Seq<char>)>,
    pub allowed: Seq<Seq<char>>,
    pub hits: Seq<Seq<char>>,
}

impl View for Policy {
    type V = PolicyModel;

    open spec fn view(&self) -> PolicyModel {
        PolicyModel {
            exts: views(self.extensions@),
            disguised: pair_views(self.disguised_ext@),
            allowed: views(self.allowed_files@),
            hits: views(self.htaccess_hits@),
        }
    }
}

/// The extensions and the disguised-extension table after the handler pairs `hs`.
pub open spec fn add_handlers(
    exts: Seq<Seq<char>>,
    dis: Seq<(Seq<char>, Seq<char>)>,
    hs: Seq<(Seq<char>, Seq<char>)>,
) -> (Seq<Seq<char>>, Seq<(Seq<char>, Seq<char>)>)
    decreases hs.len(),
{
    if hs.len() == 0 {
        (exts, dis)
    } else {
        add_handlers(
            append_unique_seq(exts, hs[0].0),
            upsert(dis, hs[0].0, hs[0].1),
            hs.drop_first(),
        )
    }
}

/// The names lowercased.
pub open spec fn lowered(names: Seq<Seq<char>>) -> Seq<Seq<char>> {
    names.map_values(|n: Seq<char>| unicode_lower(n))
}

/// A policy after taking in one `.htaccess` configuration.
pub open spec fn merge_model(p: PolicyModel, c: ConfigModel) -> PolicyModel {
    let exts1 = append_all_unique(p.exts, c.regex_exts);
    let (exts2, dis) = add_handlers(exts1, p.disguised, c.handlers);
    PolicyModel {
        exts: exts2,
        disguised: dis,
        allowed: append_all_unique(p.allowed, lowered(c.allowed)),
        hits: append_all_unique(p.hits, c.hits),
    }
}

/// A policy after taking in the configurations in order.
pub open spec fn merge_all(p: PolicyModel, cs: Seq<ConfigModel>) -> PolicyModel
    decreases cs.len(),
{
    if cs.len() == 0 {
        p
    } else {
        merge_all(merge_model(p, cs[0]), cs.drop_first())
    }
}

pub open spec fn initial_model() -> PolicyModel {
    PolicyModel {
        exts: append_all_unique(Seq::empty(), default_extensions()),
        disguised: Seq::empty(),
        allowed: Seq::empty(),
        hits: Seq::empty(),
    }
}

pub open spec fn config_models(cs: Seq<Config>) -> Seq<ConfigModel> {
    cs.map_values(|c: Config| c@)
}

/// An extension as `--ext` gives it: trimmed, without leading dots, lowercased.
pub open spec fn normalize_extension(e: Seq<char>) -> Seq<char> {
    let t = trim_seq(e);
    unicode_lower(t.subrange(lead_count(t, '.', 0), t.len() as int))
}

/// `exts` after adding the normalized non-empty extensions of `extra`.
pub open spec fn add_extra(exts: Seq<Seq<char>>, extra: Seq<Seq<char>>) -> Seq<Seq<char>>
    decreases extra.len(),
{
    if extra.len() == 0 {
        exts
    } else {
        let e = normalize_extension(extra[0]);
        add_extra(
            if e.len() > 0 {
                append_unique_seq(exts, e)
            } else {
                exts
            },
            extra.drop_first(),
        )
    }
}

/// Whether the content looks like PHP: among its first 4096 bytes, decoded and
/// lowercased, stands `<?php`, `<?=`, `<? ` or `<%`. Fewer than five bytes never do.
pub open spec fn looks_like_php_spec(content: Seq<u8>) -> bool {
    if content.len() < 5 {
        false
    } else {
        let n = if content.len() < 4096 {
            content.len() as int
        } else {
            4096
        };
        php_marked(unicode_lower(lossy_utf8(content.subrange(0, n))))
    }
}

/// A lowercased text holds `<?php`, `<?=`, `<? ` or `<%`.
pub open spec fn php_marked(text: Seq<char>) -> bool {
    contains_seq(text, "<?php"@) || contains_seq(text, "<?="@) || contains_seq(text, "<? "@)
        || contains_seq(text, "<%"@)
}

/// Whether a lowercased text holds a PHP opening marker.
pub fn has_php_marker(lowered: &str) -> (b: bool)
    ensures
        b == php_marked(lowered@),
{
    str_contains(lowered, "<?php") || str_contains(lowered, "<?=") || str_contains(lowered, "<? ")
        || str_contains(lowered, "<%")
}

/// The decision of `should_scan` once the path and content are read: whether the
/// path names a `.htaccess` file, its file name and extension lowercased, and
/// whether the content looks like PHP.
pub open spec fn scan_decision(
    p: PolicyModel,
    htaccess: bool,
    base: Seq<char>,
    ext: Option<Seq<char>>,
    php_like: bool,
) -> bool {
    if htaccess {
        true
    } else if p.allowed.contains(base) {
        true
    } else if (match ext {
        Some(e) => p.exts.contains(e) || exists|i: int| 0 <= i < p.disguised.len() && p.disguised[i].0 == e,
        None => false,
    }) {
        true
    } else {
        php_like
    }
}

/// The extension of a path, lowercased.
pub open spec fn lower_ext(path: Seq<char>) -> Option<Seq<char>> {
    match path_extension(path) {
        Some(e) => Some(unicode_lower(e)),
        None => None,
    }
}

/// The decision of `should_scan` on a path and the content read from it.
pub open spec fn should_scan_spec(p: PolicyModel, path: Seq<char>, content: Seq<u8>) -> bool {
    scan_decision(
        p,
        is_htaccess_path(path),
        unicode_lower(base_name(path)),
        lower_ext(path),
        looks_like_php_spec(content),
    )
}

/// No extension, file name or finding occurs twice, and no extension has two handlers.
pub open spec fn model_wf(p: PolicyModel) -> bool {
    &&& p.exts.no_duplicates()
    &&& p.allowed.no_duplicates()
    &&& p.hits.no_duplicates()
    &&& keys_distinct(p.disguised)
}

pub proof fn lemma_append_unique_no_dup(v: Seq<Seq<char>>, s: Seq<char>)
    requires
        v.no_duplicates(),
    ensures
        append_unique_seq(v, s).no_duplicates(),
        append_unique_seq(v, s).contains(s),
        forall|x: Seq<char>| v.contains(x) ==> #[trigger] append_unique_seq(v, s).contains(x),
{
    if !v.contains(s) {
        let r = v.push(s);
        assert(r[v.len() as int] == s);
        assert forall|x: Seq<char>| v.contains(x) implies #[trigger] r.contains(x) by {
            let i = choose|i: int| 0 <= i < v.len() && v[i] == x;
            assert(r[i] == x);
        }
    }
}

pub proof fn lemma_append_all_unique_no_dup(v: Seq<Seq<char>>, xs: Seq<Seq<char>>)
    requires
        v.no_duplicates(),
    ensures
        append_all_unique(v, xs).no_duplicates(),
        forall|x: Seq<char>| v.contains(x) ==> #[trigger] append_all_unique(v, xs).contains(x),
        forall|i: int| 0 <= i < xs.len() ==> append_all_unique(v, xs).contains(#[trigger] xs[i]),
    decreases xs.len(),
{
    if xs.len() > 0 {
        lemma_append_unique_no_dup(v, xs[0]);
        let v1 = append_unique_seq(v, xs[0]);
        lemma_append_all_unique_no_dup(v1, xs.drop_first());
        assert forall|i: int| 0 <= i < xs.len() implies append_all_unique(v, xs).contains(
            #[trigger] xs[i],
        ) by {
            if i > 0 {
                assert(xs.drop_first()[i - 1] == xs[i]);
            }
        }
    }
}

pub proof fn lemma_add_handlers_wf(
    exts: Seq<Seq<char>>,
    dis: Seq<(Seq<char>, Seq<char>)>,
    hs: Seq<(Seq<char>, Seq<char>)>,
)
    requires
        exts.no_duplicates(),
        keys_distinct(dis),
    ensures
        add_handlers(exts, dis, hs).0.no_duplicates(),
        keys_distinct(add_handlers(exts, dis, hs).1),
        forall|x: Seq<char>| exts.contains(x) ==> #[trigger] add_handlers(exts, dis, hs).0.contains(
            x,
        ),
    decreases hs.len(),
{
    if hs.len() > 0 {
        lemma_append_unique_no_dup(exts, hs[0].0);
        crate::htaccess::lemma_upsert_distinct(dis, hs[0].0, hs[0].1);
        lemma_add_handlers_wf(
            append_unique_seq(exts, hs[0].0),
            upsert(dis, hs[0].0, hs[0].1),
            hs.drop_first(),
        );
    }
}

pub proof fn lemma_merge_wf(p: PolicyModel, c: ConfigModel)
    requires
        model_wf(p),
    ensures
        model_wf(merge_model(p, c)),
        forall|x: Seq<char>| p.exts.contains(x) ==> #[trigger] merge_model(p, c).exts.contains(x),
{
    lemma_append_all_unique_no_dup(p.exts, c.regex_exts);
    lemma_add_handlers_wf(append_all_unique(p.exts, c.regex_exts), p.disguised, c.handlers);
    lemma_append_all_unique_no_dup(p.allowed, lowered(c.allowed));
    lemma_append_all_unique_no_dup(p.hits, c.hits);
}

pub proof fn lemma_merge_all_wf(p: PolicyModel, cs: Seq<ConfigModel>)
    requires
        model_wf(p),
    ensures
        model_wf(merge_all(p, cs)),
        forall|x: Seq<char>| p.exts.contains(x) ==> #[trigger] merge_all(p, cs).exts.contains(x),
    decreases cs.len(),
{
    if cs.len() > 0 {
        lemma_merge_wf(p, cs[0]);
        lemma_merge_all_wf(merge_model(p, cs[0]), cs.drop_first());
    }
}

impl Policy {
    /// The policy built from the defaults and the given `.htaccess` configurations, in order.
    pub fn new(configs: &[Config]) -> (p: Policy)
        ensures
            p@ == merge_all(initial_model(), config_models(configs@)),
    {
        let mut p = Policy {
            extensions: Vec::new(),
            disguised_ext: Vec::new(),
            allowed_files: Vec::new(),
            htaccess_hits: Vec::new(),
        };
        let defaults = default_extension_list();
        let mut i: usize = 0;
        assert(views(p.extensions@) =~= Seq::<Seq<char>>::empty());
        while i < defaults.len()
            invariant
                i <= defaults@.len(),
                views(defaults@) == default_extensions(),
                views(p.extensions@) == append_all_unique(
                    Seq::empty(),
                    views(defaults@).take(i as int),
                ),
                p.disguised_ext@.len() == 0,
                p.allowed_files@.len() == 0,
                p.htaccess_hits@.len() == 0,
            decreases defaults@.len() - i,
        {
            append_unique(&mut p.extensions, defaults[i].clone());
            proof {
                lemma_append_all_unique_one(
                    Seq::empty(),
                    views(defaults@).take(i as int),
                    defaults@[i as int]@,
                );
                assert(views(defaults@).take(i + 1) =~= views(defaults@).take(i as int).push(
                    defaults@[i as int]@,
                ));
            }
            i = i + 1;
        }
        assert(views(defaults@).take(defaults@.len() as int) =~= views(defaults@));
        assert(p@.disguised =~= Seq::<(Seq<char>, Seq<char>)>::empty());
        assert(p@.allowed =~= Seq::<Seq<char>>::empty());
        assert(p@.hits =~= Seq::<Seq<char>>::empty());
        assert(p@ == initial_model());
        let mut k: usize = 0;
        assert(config_models(configs@).skip(0) =~= config_models(configs@));
        while k < configs.len()
            invariant
                k <= configs@.len(),
                merge_all(p@, config_models(configs@).skip(k as int)) == merge_all(
                    initial_model(),
                    config_models(configs@),
                ),
            decreases configs@.len() - k,
        {
            p.merge(&configs[k]);
            assert(config_models(configs@).skip(k as int).drop_first() =~= config_models(
                configs@,
            ).skip(k + 1));
            k = k + 1;
        }
        assert(config_models(configs@).skip(configs@.len() as int) =~= Seq::<ConfigModel>::empty());
        p
    }

    /// The policy with the given extensions added, each trimmed, stripped of leading
    /// dots and lowercased; empty ones are skipped.
    pub fn with_extra_extensions(self, exts: &[String]) -> (p: Policy)
        ensures
            p@ == (PolicyModel { exts: add_extra(self@.exts, views(exts@)), ..self@ }),
    {
        let mut s = self;
        let mut i: usize = 0;
        assert(views(exts@).skip(0) =~= views(exts@));
        while i < exts.len()
            invariant
                i <= exts@.len(),
                s.disguised_ext@ == self.disguised_ext@,
                s.allowed_files@ == self.allowed_files@,
                s.htaccess_hits@ == self.htaccess_hits@,
                add_extra(views(s.extensions@), views(exts@).skip(i as int)) == add_extra(
                    self@.exts,
                    views(exts@),
                ),
            decreases exts@.len() - i,
        {
            let e = normalize_extension_exec(exts[i].as_str());
            if !e.as_str().is_empty() {
                append_unique(&mut s.extensions, e);
            }
            assert(views(exts@).skip(i as int).drop_first() =~= views(exts@).skip(i + 1));
            i = i + 1;
        }
        assert(views(exts@).skip(exts@.len() as int) =~= Seq::<Seq<char>>::empty());
        s
    }

    /// Takes in one `.htaccess` configuration.
    pub fn merge(&mut self, cfg: &Config)
        ensures
            final(self)@ == merge_model(old(self)@, cfg@),
    {
        let mut i: usize = 0;
        let ghost p0 = self@;
        while i < cfg.regex_extensions.len()
            invariant
                i <= cfg.regex_extensions@.len(),
                self.disguised_ext@ == old(self).disguised_ext@,
                self.allowed_files@ == old(self).allowed_files@,
                self.htaccess_hits@ == old(self).htaccess_hits@,
                p0 == old(self)@,
                views(self.extensions@) == append_all_unique(
                    p0.exts,
                    views(cfg.regex_extensions@).take(i as int),
                ),
            decreases cfg.regex_extensions@.len() - i,
        {
            append_unique(&mut self.extensions, cfg.regex_extensions[i].clone());
            proof {
                lemma_append_all_unique_one(
                    p0.exts,
                    views(cfg.regex_extensions@).take(i as int),
                    cfg.regex_extensions@[i as int]@,
                );
                assert(views(cfg.regex_extensions@).take(i + 1) =~= views(
                    cfg.regex_extensions@,
                ).take(i as int).push(cfg.regex_extensions@[i as int]@));
            }
            i = i + 1;
        }
        assert(views(cfg.regex_extensions@).take(cfg.regex_extensions@.len() as int) =~= views(
            cfg.regex_extensions@,
        ));
        let mut j: usize = 0;
        let ghost hs = pair_views(cfg.handler_extensions@);
        assert(hs.skip(0) =~= hs);
        while j < cfg.handler_extensions.len()
            invariant
                j <= cfg.handler_extensions@.len(),
                hs == pair_views(cfg.handler_extensions@),
                self.allowed_files@ == old(self).allowed_files@,
                self.htaccess_hits@ == old(self).htaccess_hits@,
                p0 == old(self)@,
                add_handlers(views(self.extensions@), pair_views(self.disguised_ext@), hs.skip(j as int))
                    == add_handlers(append_all_unique(p0.exts, views(cfg.regex_extensions@)), p0.disguised, hs),
            decreases cfg.handler_extensions@.len() - j,
        {
            let ext = cfg.handler_extensions[j].0.clone();
            let handler = cfg.handler_extensions[j].1.clone();
            append_unique(&mut self.extensions, ext.clone());
            upsert_pair(&mut self.disguised_ext, ext, handler);
            assert(hs.skip(j as int).drop_first() =~= hs.skip(j + 1));
            j = j + 1;
        }
        assert(hs.skip(hs.len() as int) =~= Seq::<(Seq<char>, Seq<char>)>::empty());
        let mut k: usize = 0;
        while k < cfg.allowed_files.len()
            invariant
                k <= cfg.allowed_files@.len(),
                self.htaccess_hits@ == old(self).htaccess_hits@,
                p0 == old(self)@,
                views(self.allowed_files@) == append_all_unique(
                    p0.allowed,
                    lowered(views(cfg.allowed_files@)).take(k as int),
                ),
                (views(self.extensions@), pair_views(self.disguised_ext@)) == add_handlers(
                    append_all_unique(p0.exts, views(cfg.regex_extensions@)),
                    p0.disguised,
                    hs,
                ),
                hs == pair_views(cfg.handler_extensions@),
            decreases cfg.allowed_files@.len() - k,
        {
            let name = to_lower(cfg.allowed_files[k].as_str());
            append_unique(&mut self.allowed_files, name);
            proof {
                let l = lowered(views(cfg.allowed_files@));
                lemma_append_all_unique_one(p0.allowed, l.take(k as int), l[k as int]);
                assert(l.take(k + 1) =~= l.take(k as int).push(l[k as int]));
            }
            k = k + 1;
        }
        assert(lowered(views(cfg.allowed_files@)).take(cfg.allowed_files@.len() as int) =~= lowered(
            views(cfg.allowed_files@),
        ));
        let mut h: usize = 0;
        while h < cfg.hits.len()
            invariant
                h <= cfg.hits@.len(),
                p0 == old(self)@,
                views(self.htaccess_hits@) == append_all_unique(
                    p0.hits,
                    views(cfg.hits@).take(h as int),
                ),
                views(self.allowed_files@) == append_all_unique(
                    p0.allowed,
                    lowered(views(cfg.allowed_files@)),
                ),
                (views(self.extensions@), pair_views(self.disguised_ext@)) == add_handlers(
                    append_all_unique(p0.exts, views(cfg.regex_extensions@)),
                    p0.disguised,
                    hs,
                ),
                hs == pair_views(cfg.handler_extensions@),
            decreases cfg.hits@.len() - h,
        {
            append_unique(&mut self.htaccess_hits, cfg.hits[h].clone());
            proof {
                lemma_append_all_unique_one(
                    p0.hits,
                    views(cfg.hits@).take(h as int),
                    cfg.hits@[h as int]@,
                );
                assert(views(cfg.hits@).take(h + 1) =~= views(cfg.hits@).take(h as int).push(
                    cfg.hits@[h as int]@,
                ));
            }
            h = h + 1;
        }
        assert(views(cfg.hits@).take(cfg.hits@.len() as int) =~= views(cfg.hits@));
    }

    /// Whether a file is in scope: `.htaccess` files, files a `<Files>` block names,
    /// files whose lowercased extension is scanned or disguised, and content that
    /// looks like PHP.
    /// The scan decision on what was read of a file (see [`scan_decision`]).
    pub fn decide_scan(&self, htaccess: bool, base_lower: &str, ext_lower: Option<&str>, php_like: bool) -> (b: bool)
        ensures
            b == scan_decision(
                self@,
                htaccess,
                base_lower@,
                match ext_lower {
                    Some(e) => Some(e@),
                    None => None,
                },
                php_like,
            ),
    {
        if htaccess {
            return true;
        }
        proof {
            lemma_has_view_contains(self.allowed_files@, base_lower@);
        }
        if contains_string(&self.allowed_files, base_lower) {
            return true;
        }
        match ext_lower {
            Some(e) => {
                proof {
                    lemma_has_view_contains(self.extensions@, e@);
                }
                if contains_string(&self.extensions, e) || self.has_disguised(e) {
                    return true;
                }
            },
            None => {},
        }
        php_like
    }

    pub fn should_scan(&self, path: &str, content: &[u8]) -> (b: bool)
        ensures
            b == should_scan_spec(self@, path@, content@),
    {
        let base = to_lower(base_name_of(path).as_str());
        if is_htaccess_file(path) {
            return true;
        }
        if contains_string(&self.allowed_files, base.as_str()) {
            proof {
                lemma_has_view_contains(self.allowed_files@, base@);
            }
            return true;
        }
        proof {
            lemma_has_view_contains(self.allowed_files@, base@);
        }
        match extension(path) {
            Some(e) => {
                let el = to_lower(e.as_str());
                proof {
                    lemma_has_view_contains(self.extensions@, el@);
                }
                if contains_string(&self.extensions, el.as_str()) || self.has_disguised(
                    el.as_str(),
                ) {
                    return true;
                }
            },
            None => {},
        }
        looks_like_php(content)
    }

    /// Whether a handler maps `ext` to PHP.
    pub fn has_disguised(&self, ext: &str) -> (b: bool)
        ensures
            b == exists|i: int| 0 <= i < self@.disguised.len() && self@.disguised[i].0 == ext@,
    {
        let mut i: usize = 0;
        while i < self.disguised_ext.len()
            invariant
                i <= self.disguised_ext@.len(),
                forall|j: int| 0 <= j < i ==> self@.disguised[j].0 != ext@,
            decreases self.disguised_ext@.len() - i,
        {
            if str_eq(self.disguised_ext[i].0.as_str(), ext) {
                assert(self@.disguised[i as int].0 == ext@);
                return true;
            }
            i = i + 1;
        }
        false
    }

    /// The handler that a `.htaccess` file maps `ext` to, if any.
    pub fn handler_for(&self, ext: &str) -> (r: Option<String>)
        ensures
            match r {
                Some(h) => key_index(self@.disguised, ext@) >= 0 && self@.disguised[key_index(
                    self@.disguised,
                    ext@,
                )].1 == h@,
                None => key_index(self@.disguised, ext@) < 0,
            },
    {
        let ghost d = self@.disguised;
        let mut i: usize = 0;
        while i < self.disguised_ext.len()
            invariant
                i <= self.disguised_ext@.len(),
                d == self@.disguised,
                key_index_from(d, ext@, i as int) == key_index(d, ext@),
            decreases self.disguised_ext@.len() - i,
        {
            if str_eq(self.disguised_ext[i].0.as_str(), ext) {
                let h = self.disguised_ext[i].1.clone();
                return Some(h);
            }
            i = i + 1;
        }
        None
    }
}

pub proof fn lemma_has_view_contains(v: Seq<String>, s: Seq<char>)
    ensures
        has_view(v, s) == views(v).contains(s),
{
    if has_view(v, s) {
        let i = choose|i: int| 0 <= i < v.len() && v[i]@ == s;
        assert(views(v)[i] == s);
    }
    if views(v).contains(s) {
        let i = choose|i: int| 0 <= i < views(v).len() && views(v)[i] == s;
        assert(v[i]@ == s);
    }
}

fn normalize_extension_exec(e: &str) -> (r: String)
    ensures
        r@ == normalize_extension(e@),
{
    let cs = chars_of(e);
    let t = trim_chars(&cs);
    let mut a: usize = 0;
    while a < t.len() && t[a] == '.'
        invariant
            a <= t@.len(),
            lead_count(t@, '.', a as int) == lead_count(t@, '.', 0),
        decreases t@.len() - a,
    {
        a = a + 1;
    }
    let rest = slice_chars(&t, a, t.len());
    to_lower(string_of(&rest).as_str())
}

/// Whether the content looks like PHP (see [`looks_like_php_spec`]).
pub fn looks_like_php(content: &[u8]) -> (b: bool)
    ensures
        b == looks_like_php_spec(content@),
{
    if content.len() < 5 {
        return false;
    }
    let n: usize = if content.len() < 4096 {
        content.len()
    } else {
        4096
    };
    let mut prefix: Vec<u8> = Vec::new();
    let mut i: usize = 0;
    while i < n
        invariant
            i <= n <= content@.len(),
            prefix@ == content@.subrange(0, i as int),
        decreases n - i,
    {
        prefix.push(content[i]);
        i = i + 1;
    }
    let text = to_lower(decode_lossy(prefix.as_slice()).as_str());
    has_php_marker(text.as_str())
}

/// Every policy built by [`Policy::new`] scans the default extensions, and holds
/// no extension, file name or finding twice.
pub proof fn law_defaults_always_scanned(cs: Seq<ConfigModel>)
    ensures
        model_wf(merge_all(initial_model(), cs)),
        forall|i: int|
            0 <= i < default_extensions().len() ==> merge_all(initial_model(), cs).exts.contains(
                #[trigger] default_extensions()[i],
            ),
{
    lemma_append_all_unique_no_dup(Seq::empty(), default_extensions());
    assert(initial_model().disguised.len() == 0);
    assert(model_wf(initial_model()));
    lemma_merge_all_wf(initial_model(), cs);
}

/// Adding extensions never removes one: every extension scanned before is scanned after.
pub proof fn law_extra_extensions_only_add(exts: Seq<Seq<char>>, extra: Seq<Seq<char>>)
    requires
        exts.no_duplicates(),
    ensures
        add_extra(exts, extra).no_duplicates(),
        forall|x: Seq<char>| exts.contains(x) ==> #[trigger] add_extra(exts, extra).contains(x),
    decreases extra.len(),
{
    if extra.len() > 0 {
        let e = normalize_extension(extra[0]);
        if e.len() > 0 {
            lemma_append_unique_no_dup(exts, e);
            law_extra_extensions_only_add(append_unique_seq(exts, e), extra.drop_first());
        } else {
            law_extra_extensions_only_add(exts, extra.drop_first());
        }
    }
}

/// `.htaccess` files are always in scope, whatever the policy and content.
pub proof fn law_htaccess_always_scanned(p: PolicyModel, path: Seq<char>, content: Seq<u8>)
    requires
        is_htaccess_path(path),
    ensures
        should_scan_spec(p, path, content),
{
}

/// Content that looks like PHP is always in scope, whatever its path.
pub proof fn law_php_content_always_scanned(p: PolicyModel, path: Seq<char>, content: Seq<u8>)
    requires
        looks_like_php_spec(content),
    ensures
        should_scan_spec(p, path, content),
{
}

proof fn lemma_add_handlers_contains(
    exts: Seq<Seq<char>>,
    dis: Seq<(Seq<char>, Seq<char>)>,
    hs: Seq<(Seq<char>, Seq<char>)>,
)
    requires
        exts.no_duplicates(),
        keys_distinct(dis),
    ensures
        forall|i: int| 0 <= i < hs.len() ==> add_handlers(exts, dis, hs).0.contains(#[trigger] hs[i].0),
    decreases hs.len(),
{
    if hs.len() > 0 {
        let e1 = append_unique_seq(exts, hs[0].0);
        let d1 = upsert(dis, hs[0].0, hs[0].1);
        lemma_append_unique_no_dup(exts, hs[0].0);
        crate::htaccess::lemma_upsert_distinct(dis, hs[0].0, hs[0].1);
        lemma_add_handlers_contains(e1, d1, hs.drop_first());
        lemma_add_handlers_wf(e1, d1, hs.drop_first());
        assert(add_handlers(exts, dis, hs) == add_handlers(e1, d1, hs.drop_first()));
        assert(e1.contains(hs[0].0));
        assert forall|i: int| 0 <= i < hs.len() implies add_handlers(exts, dis, hs).0.contains(
            #[trigger] hs[i].0,
        ) by {
            if i > 0 {
                assert(hs.drop_first()[i - 1] == hs[i]);
            }
        }
    }
}

proof fn lemma_merge_all_keeps_config_exts(p: PolicyModel, cs: Seq<ConfigModel>, k: int, x: Seq<char>)
    requires
        model_wf(p),
        0 <= k < cs.len(),
        cs[k].regex_exts.contains(x) || exists|i: int|
            0 <= i < cs[k].handlers.len() && #[trigger] cs[k].handlers[i].0 == x,
    ensures
        merge_all(p, cs).exts.contains(x),
    decreases cs.len(),
{
    lemma_merge_wf(p, cs[0]);
    if k == 0 {
        let c = cs[0];
        let e1 = append_all_unique(p.exts, c.regex_exts);
        lemma_append_all_unique_no_dup(p.exts, c.regex_exts);
        lemma_add_handlers_contains(e1, p.disguised, c.handlers);
        lemma_add_handlers_wf(e1, p.disguised, c.handlers);
        if c.regex_exts.contains(x) {
            let j = choose|j: int| 0 <= j < c.regex_exts.len() && c.regex_exts[j] == x;
            assert(e1.contains(c.regex_exts[j]));
        }
        lemma_merge_all_wf(merge_model(p, cs[0]), cs.drop_first());
    } else {
        assert(cs.drop_first()[k - 1] == cs[k]);
        lemma_merge_all_keeps_config_exts(merge_model(p, cs[0]), cs.drop_first(), k - 1, x);
    }
}

/// An extension that an `.htaccess` file maps to a handler, or names in a
/// `<FilesMatch>` pattern, is in scope: a file with it is scanned whatever it holds.
pub proof fn law_htaccess_extensions_scanned(
    cs: Seq<ConfigModel>,
    k: int,
    path: Seq<char>,
    content: Seq<u8>,
)
    requires
        0 <= k < cs.len(),
        path_extension(path) is Some,
        cs[k].regex_exts.contains(unicode_lower(path_extension(path)->Some_0)) || exists|i: int|
            0 <= i < cs[k].handlers.len() && #[trigger] cs[k].handlers[i].0 == unicode_lower(
                path_extension(path)->Some_0,
            ),
    ensures
        should_scan_spec(merge_all(initial_model(), cs), path, content),
{
    lemma_append_all_unique_no_dup(Seq::empty(), default_extensions());
    assert(model_wf(initial_model()));
    lemma_merge_all_keeps_config_exts(
        initial_model(),
        cs,
        k,
        unicode_lower(path_extension(path)->Some_0),
    );
}

pub proof fn lemma_append_all_unique_from(v: Seq<Seq<char>>, xs: Seq<Seq<char>>, x: Seq<char>)
    requires
        append_all_unique(v, xs).contains(x),
    ensures
        v.contains(x) || xs.contains(x),
    decreases xs.len(),
{
    if xs.len() > 0 {
        let v1 = append_unique_seq(v, xs[0]);
        lemma_append_all_unique_from(v1, xs.drop_first(), x);
        if v1.contains(x) && !v.contains(x) {
            let i = choose|i: int| 0 <= i < v1.len() && v1[i] == x;
            assert(x == xs[0]);
            assert(xs.contains(xs[0]));
        }
        if xs.drop_first().contains(x) {
            let i = choose|i: int| 0 <= i < xs.drop_first().len() && xs.drop_first()[i] == x;
            assert(xs[i + 1] == x);
        }
    }
}

/// Without `.htaccess` configuration, a file that is no `.htaccess` file, has no
/// default extension and does not look like PHP is skipped.
pub proof fn law_other_files_skipped(path: Seq<char>, content: Seq<u8>)
    requires
        !is_htaccess_path(path),
        match path_extension(path) {
            Some(e) => !default_extensions().contains(unicode_lower(e)),
            None => true,
        },
        !looks_like_php_spec(content),
    ensures
        !should_scan_spec(merge_all(initial_model(), Seq::empty()), path, content),
{
    let p = initial_model();
    assert(merge_all(p, Seq::empty()) == p);
    match path_extension(path) {
        Some(e) => {
            if p.exts.contains(unicode_lower(e)) {
                lemma_append_all_unique_from(Seq::empty(), default_extensions(), unicode_lower(e));
            }
        },
        None => {},
    }
}

proof fn lemma_merge_all_allowed_grows(p: PolicyModel, cs: Seq<ConfigModel>)
    requires
        model_wf(p),
    ensures
        forall|x: Seq<char>| p.allowed.contains(x) ==> #[trigger] merge_all(p, cs).allowed.contains(x),
    decreases cs.len(),
{
    if cs.len() > 0 {
        lemma_merge_wf(p, cs[0]);
        lemma_append_all_unique_no_dup(p.allowed, lowered(cs[0].allowed));
        let q = merge_model(p, cs[0]);
        lemma_merge_all_allowed_grows(q, cs.drop_first());
        assert(merge_all(p, cs) == merge_all(q, cs.drop_first()));
        assert forall|x: Seq<char>| p.allowed.contains(x) implies #[trigger] merge_all(
            p,
            cs,
        ).allowed.contains(x) by {
            assert(q.allowed.contains(x));
        }
    }
}

proof fn lemma_merge_all_keeps_allowed(p: PolicyModel, cs: Seq<ConfigModel>, k: int, x: Seq<char>)
    requires
        model_wf(p),
        0 <= k < cs.len(),
        lowered(cs[k].allowed).contains(x),
    ensures
        merge_all(p, cs).allowed.contains(x),
    decreases cs.len(),
{
    lemma_merge_wf(p, cs[0]);
    if k == 0 {
        lemma_append_all_unique_no_dup(p.allowed, lowered(cs[0].allowed));
        let j = choose|j: int| 0 <= j < lowered(cs[0].allowed).len() && lowered(cs[0].allowed)[j] == x;
        assert(append_all_unique(p.allowed, lowered(cs[0].allowed)).contains(lowered(cs[0].allowed)[j]));
        let q = merge_model(p, cs[0]);
        assert(q.allowed.contains(x));
        lemma_merge_all_allowed_grows(q, cs.drop_first());
        assert(merge_all(p, cs) == merge_all(q, cs.drop_first()));
        assert(merge_all(q, cs.drop_first()).allowed.contains(x));
    } else {
        assert(cs.drop_first()[k - 1] == cs[k]);
        lemma_merge_all_keeps_allowed(merge_model(p, cs[0]), cs.drop_first(), k - 1, x);
    }
}

/// A file that a `<Files>` block names is in scope, whatever it holds.
pub proof fn law_allowed_files_scanned(cs: Seq<ConfigModel>, k: int, path: Seq<char>, content: Seq<u8>)
    requires
        0 <= k < cs.len(),
        lowered(cs[k].allowed).contains(unicode_lower(base_name(path))),
    ensures
        should_scan_spec(merge_all(initial_model(), cs), path, content),
{
    lemma_append_all_unique_no_dup(Seq::empty(), default_extensions());
    assert(model_wf(initial_model()));
    lemma_merge_all_keeps_allowed(initial_model(), cs, k, unicode_lower(base_name(path)));
}


/// Whatever the `.htaccess` files say, the policy scans `shtml`, `php`, `phar`,
/// `phtml`, `pht`, `php3`, `php4`, `php5`, `php7`, `phtm` and `inc`.
pub proof fn law_default_extension_names(cs: Seq<ConfigModel>)
    ensures
        merge_all(initial_model(), cs).exts.contains("shtml"@),
        merge_all(initial_model(), cs).exts.contains("php"@),
        merge_all(initial_model(), cs).exts.contains("phar"@),
        merge_all(initial_model(), cs).exts.contains("phtml"@),
        merge_all(initial_model(), cs).exts.contains("pht"@),
        merge_all(initial_model(), cs).exts.contains("php3"@),
        merge_all(initial_model(), cs).exts.contains("php4"@),
        merge_all(initial_model(), cs).exts.contains("php5"@),
        merge_all(initial_model(), cs).exts.contains("php7"@),
        merge_all(initial_model(), cs).exts.contains("phtm"@),
        merge_all(initial_model(), cs).exts.contains("inc"@),
{
    law_defaults_always_scanned(cs);
    assert(default_extensions()[0] == "shtml"@);
    assert(default_extensions()[1] == "php"@);
    assert(default_extensions()[2] == "phar"@);
    assert(default_extensions()[3] == "phtml"@);
    assert(default_extensions()[4] == "pht"@);
    assert(default_extensions()[5] == "php3"@);
    assert(default_extensions()[6] == "php4"@);
    assert(default_extensions()[7] == "php5"@);
    assert(default_extensions()[8] == "php7"@);
    assert(default_extensions()[9] == "phtm"@);
    assert(default_extensions()[10] == "inc"@);
}

} // verus!
