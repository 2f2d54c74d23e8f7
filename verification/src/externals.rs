//! External (CDN-loaded) modules: which packages are external, their global
//! variable names and the script tags that load them.
use vstd::prelude::*;
use crate::text::{
    chars_of, join, owned, replace_all, replace_all_exec, starts_with, starts_with_exec, str_is,
    string_of,
};

verus! {

/// External module configuration for CDN loading.
#[derive(Debug, Clone)]
pub struct ExternalModule {
    /// Package name (e.g., "react", "@mui/material")
    pub package: String,
    /// Global variable name (e.g., "React", "MaterialUI")
    pub global: String,
    /// Optional CDN URL for HTML injection
    pub cdn_url: Option<String>,
}

pub open spec fn opt_view(o: Option<String>) -> Option<Seq<char>> {
    match o {
        Some(s) => Some(s@),
        None => None,
    }
}

pub open spec fn opt_str_view(o: Option<&str>) -> Option<Seq<char>> {
    match o {
        Some(s) => Some(s@),
        None => None,
    }
}

impl ExternalModule {
    /// Create a new external module configuration
    pub fn new(package: &str, global: &str, cdn_url: Option<&str>) -> (r: Self)
        ensures
            r.package@ == package@,
            r.global@ == global@,
            opt_view(r.cdn_url) == opt_str_view(cdn_url),
    {
        let cdn = match cdn_url {
            Some(u) => Some(owned(u)),
            None => None,
        };
        ExternalModule { package: owned(package), global: owned(global), cdn_url: cdn }
    }
}

/// Default external modules for React applications: React, ReactDOM and
/// Material UI, each loaded from the UMD build its project documents for use
/// from a CDN (globals `React`, `ReactDOM`, `MaterialUI`), and Apollo Client,
/// mapped to its `Apollo` global. Apollo Client publishes no UMD build, so it
/// has no CDN URL: its script must come from the page. Other packages are
/// bundled.
pub fn default_react_externals() -> (r: Vec<ExternalModule>)
    ensures
        r.len() == 4,
        r[0].package@ == "react"@ && r[0].global@ == "React"@
            && opt_view(r[0].cdn_url) == Some("https://unpkg.com/react@18/umd/react.production.min.js"@),
        r[1].package@ == "react-dom"@ && r[1].global@ == "ReactDOM"@
            && opt_view(r[1].cdn_url) == Some("https://unpkg.com/react-dom@18/umd/react-dom.production.min.js"@),
        r[2].package@ == "@mui/material"@ && r[2].global@ == "MaterialUI"@
            && opt_view(r[2].cdn_url) == Some("https://unpkg.com/@mui/material@5/umd/material-ui.production.min.js"@),
        r[3].package@ == "@apollo/client"@ && r[3].global@ == "Apollo"@
            && r[3].cdn_url is None,
{
    let mut v: Vec<ExternalModule> = Vec::new();
    v.push(ExternalModule::new("react", "React", Some("https://unpkg.com/react@18/umd/react.production.min.js")));
    v.push(ExternalModule::new("react-dom", "ReactDOM", Some("https://unpkg.com/react-dom@18/umd/react-dom.production.min.js")));
    v.push(ExternalModule::new("@mui/material", "MaterialUI", Some("https://unpkg.com/@mui/material@5/umd/material-ui.production.min.js")));
    v.push(ExternalModule::new("@apollo/client", "Apollo", None));
    v
}

/// The prefix of `s` before its `k`-th occurrence of `c` (all of `s` when it holds
/// fewer than `k` of them); `k` counts from 1.
pub open spec fn prefix_before_nth(s: Seq<char>, c: char, k: nat) -> Seq<char>
    decreases s.len(),
{
    if s.len() == 0 {
        s
    } else if s[0] == c && k <= 1 {
        seq![]
    } else if s[0] == c {
        seq![c] + prefix_before_nth(s.skip(1), c, (k - 1) as nat)
    } else {
        seq![s[0]] + prefix_before_nth(s.skip(1), c, k)
    }
}

/// The package a module specifier names: its first path segment, or its first two
/// for a scoped (`@scope/name`) specifier.
pub open spec fn base_module(s: Seq<char>) -> Seq<char> {
    prefix_before_nth(s, '/', if starts_with(s, seq!['@']) { 2 } else { 1 })
}

/// Get the base module name from a specifier (handles deep imports)
pub fn get_base_module(specifier: &str) -> (r: String)
    ensures
        r@ == base_module(specifier@),
{
    let s = chars_of(specifier);
    let k: usize = if s.len() > 0 && s[0] == '@' { 2 } else { 1 };
    proof {
        let at: Seq<char> = seq!['@'];
        if s.len() > 0 {
            assert(starts_with(s@, at) == (s@[0] == '@')) by {
                if s@[0] == '@' {
                    assert(s@.subrange(0, 1) =~= at);
                } else {
                    assert(s@.subrange(0, 1)[0] != at[0]);
                }
            }
        }
    }
    let mut out: Vec<char> = Vec::new();
    let mut i: usize = 0;
    let mut left: usize = k;
    assert(s@.skip(0) =~= s@);
    while i < s.len()
        invariant
            i <= s.len(),
            1 <= left <= k <= 2,
            s@ == specifier@,
            base_module(s@) == prefix_before_nth(s@, '/', k as nat),
            out@ + prefix_before_nth(s@.skip(i as int), '/', left as nat)
                == prefix_before_nth(s@, '/', k as nat),
        decreases s.len() - i,
    {
        let ghost rest = s@.skip(i as int);
        assert(rest.skip(1) =~= s@.skip(i + 1));
        assert(rest[0] == s@[i as int]);
        if s[i] == '/' {
            if left <= 1 {
                assert(prefix_before_nth(rest, '/', left as nat) == Seq::<char>::empty());
                assert(out@ + Seq::<char>::empty() =~= out@);
                return string_of(&out);
            }
            out.push('/');
            left = left - 1;
        } else {
            out.push(s[i]);
        }
        i = i + 1;
        assert(out@ + prefix_before_nth(s@.skip(i as int), '/', left as nat)
            =~= prefix_before_nth(s@, '/', k as nat));
    }
    assert(s@.skip(i as int) =~= Seq::<char>::empty());
    assert(out@ + Seq::<char>::empty() =~= out@);
    string_of(&out)
}

} // verus!

verus! {

/// The global that the last of `externals` naming package `key` maps it to.
pub open spec fn global_for(externals: Seq<ExternalModule>, key: Seq<char>) -> Option<Seq<char>>
    decreases externals.len(),
{
    if externals.len() == 0 {
        None
    } else if externals.last().package@ == key {
        Some(externals.last().global@)
    } else {
        global_for(externals.drop_last(), key)
    }
}

/// The CDN URLs of `externals`, in order, skipping those without one.
pub open spec fn cdn_urls_of(externals: Seq<ExternalModule>) -> Seq<Seq<char>>
    decreases externals.len(),
{
    if externals.len() == 0 {
        seq![]
    } else {
        match externals.last().cdn_url {
            Some(u) => cdn_urls_of(externals.drop_last()).push(u@),
            None => cdn_urls_of(externals.drop_last()),
        }
    }
}

pub open spec fn lookup_last(keys: Seq<String>, values: Seq<String>, key: Seq<char>) -> Option<Seq<char>>
    decreases keys.len(),
{
    if keys.len() == 0 || values.len() != keys.len() {
        None
    } else if keys.last()@ == key {
        Some(values.last()@)
    } else {
        lookup_last(keys.drop_last(), values.drop_last(), key)
    }
}

pub open spec fn views(v: Seq<String>) -> Seq<Seq<char>> {
    v.map_values(|s: String| s@)
}

/// A map for external module lookups: package name to global variable name,
/// plus the CDN URLs in order.
#[derive(Debug)]
pub struct ExternalsMap {
    packages: Vec<String>,
    globals: Vec<String>,
    cdn_urls: Vec<String>,
}

impl ExternalsMap {
    /// The global variable a package maps to, if any.
    pub closed spec fn global_of(&self, package: Seq<char>) -> Option<Seq<char>> {
        lookup_last(self.packages@, self.globals@, package)
    }

    /// The CDN URLs, in order.
    pub closed spec fn urls(&self) -> Seq<Seq<char>> {
        views(self.cdn_urls@)
    }

    /// Create from a list of external modules; a later entry for a package
    /// overrides an earlier one.
    pub fn from_externals(externals: &[ExternalModule]) -> (m: Self)
        ensures
            forall|k: Seq<char>| #[trigger] m.global_of(k) == global_for(externals@, k),
            m.urls() == cdn_urls_of(externals@),
            m.wf(),
    {
        let mut m = ExternalsMap { packages: Vec::new(), globals: Vec::new(), cdn_urls: Vec::new() };
        let mut i: usize = 0;
        while i < externals.len()
            invariant
                i <= externals.len(),
                m.packages@.len() == m.globals@.len(),
                forall|k: Seq<char>| #[trigger] lookup_last(m.packages@, m.globals@, k)
                    == global_for(externals@.take(i as int), k),
                views(m.cdn_urls@) == cdn_urls_of(externals@.take(i as int)),
            decreases externals.len() - i,
        {
            let ext = &externals[i];
            let ghost old_p = m.packages@;
            let ghost old_g = m.globals@;
            m.packages.push(owned(ext.package.as_str()));
            m.globals.push(owned(ext.global.as_str()));
            match &ext.cdn_url {
                Some(u) => m.cdn_urls.push(owned(u.as_str())),
                None => {},
            }
            i = i + 1;
            assert(externals@.take(i as int).drop_last() =~= externals@.take(i - 1));
            assert(m.packages@.drop_last() =~= old_p);
            assert(m.globals@.drop_last() =~= old_g);
            assert forall|k: Seq<char>| #[trigger] lookup_last(m.packages@, m.globals@, k)
                == global_for(externals@.take(i as int), k) by {
                assert(externals@.take(i as int).last() == externals@[i - 1]);
                assert(lookup_last(old_p, old_g, k) == global_for(externals@.take(i - 1), k));
            }
            assert(views(m.cdn_urls@) =~= cdn_urls_of(externals@.take(i as int)));
        }
        assert(externals@.take(i as int) =~= externals@);
        m
    }
}

} // verus!

verus! {

impl ExternalsMap {
    fn lookup(&self, key: &String) -> (r: Option<String>)
        requires
            self.packages@.len() == self.globals@.len(),
        ensures
            opt_view(r) == self.global_of(key@),
    {
        let mut i = self.packages.len();
        assert(self.packages@.take(i as int) =~= self.packages@);
        assert(self.globals@.take(i as int) =~= self.globals@);
        while i > 0
            invariant
                i <= self.packages@.len() == self.globals@.len(),
                lookup_last(self.packages@, self.globals@, key@)
                    == lookup_last(self.packages@.take(i as int), self.globals@.take(i as int), key@),
            decreases i,
        {
            let ghost pk = self.packages@.take(i as int);
            let ghost gv = self.globals@.take(i as int);
            assert(pk.drop_last() =~= self.packages@.take(i - 1));
            assert(gv.drop_last() =~= self.globals@.take(i - 1));
            if self.packages[i - 1] == *key {
                return Some(owned(self.globals[i - 1].as_str()));
            }
            i = i - 1;
        }
        None
    }

    /// The number of package entries and of globals agree.
    pub closed spec fn wf(&self) -> bool {
        self.packages@.len() == self.globals@.len()
    }

    /// Check if a package is external: whether the package that `specifier`
    /// names has a global.
    pub fn is_external(&self, specifier: &str) -> (b: bool)
        requires
            self.wf(),
        ensures
            b == self.global_of(base_module(specifier@)) is Some,
    {
        let base = get_base_module(specifier);
        self.lookup(&base).is_some()
    }

    /// Get the global name for an external package.
    pub fn get_global(&self, specifier: &str) -> (r: Option<String>)
        requires
            self.wf(),
        ensures
            opt_view(r) == self.global_of(base_module(specifier@)),
    {
        let base = get_base_module(specifier);
        self.lookup(&base)
    }

    /// Get CDN script tags for HTML injection.
    pub fn get_cdn_scripts(&self) -> (r: String)
        ensures
            r@ == cdn_scripts_html(self.urls()),
    {
        if self.cdn_urls.len() == 0 {
            return String::new();
        }
        let mut out = String::new();
        out.append("<!-- External dependencies from CDN -->\n    ");
        let mut i: usize = 0;
        while i < self.cdn_urls.len()
            invariant
                i <= self.cdn_urls@.len(),
                self.cdn_urls@.len() > 0,
                i == 0 ==> out@ == "<!-- External dependencies from CDN -->\n    "@,
                i > 0 ==> out@ == "<!-- External dependencies from CDN -->\n    "@
                    + join(script_tags(views(self.cdn_urls@.take(i as int))), "\n    "@),
            decreases self.cdn_urls@.len() - i,
        {
            let ghost prev = out@;
            if i > 0 {
                out.append("\n    ");
            }
            out.append("<script crossorigin src=\"");
            out.append(self.cdn_urls[i].as_str());
            out.append("\"></script>");
            proof {
                let us = views(self.cdn_urls@.take(i + 1));
                assert(us.drop_last() =~= views(self.cdn_urls@.take(i as int)));
                assert(script_tags(us).drop_last() =~= script_tags(us.drop_last()));
                assert(script_tags(us).last() == script_tag(self.cdn_urls@[i as int]@));
                if i == 0 {
                    assert(script_tags(us).len() == 1);
                }
            }
            i = i + 1;
        }
        assert(self.cdn_urls@.take(i as int) =~= self.cdn_urls@);
        out
    }
}

pub open spec fn script_tag(url: Seq<char>) -> Seq<char> {
    "<script crossorigin src=\""@ + url + "\"></script>"@
}

pub open spec fn script_tags(urls: Seq<Seq<char>>) -> Seq<Seq<char>> {
    urls.map_values(|u: Seq<char>| script_tag(u))
}

/// The HTML that loads the CDN URLs: empty when there are none, otherwise a
/// comment followed by one script tag per URL.
pub open spec fn cdn_scripts_html(urls: Seq<Seq<char>>) -> Seq<char> {
    if urls.len() == 0 {
        seq![]
    } else {
        "<!-- External dependencies from CDN -->\n    "@ + join(script_tags(urls), "\n    "@)
    }
}

/// A module specifier is external (a package) unless it is relative (`.`),
/// absolute (`/`) or a path alias (`@/`).
pub open spec fn is_external_spec(s: Seq<char>) -> bool {
    !starts_with(s, "."@) && !starts_with(s, "/"@) && !starts_with(s, "@/"@)
}

/// Check if a module specifier refers to an external (node_modules) package
pub fn is_external_module(specifier: &str) -> (b: bool)
    ensures
        b == is_external_spec(specifier@),
{
    let s = chars_of(specifier);
    let dot = chars_of(".");
    let slash = chars_of("/");
    let alias = chars_of("@/");
    !starts_with_exec(s.as_slice(), dot.as_slice()) && !starts_with_exec(s.as_slice(), slash.as_slice())
        && !starts_with_exec(s.as_slice(), alias.as_slice())
}

} // verus!

verus! {

/// The uppercase mapping of a character (what `char::to_uppercase` yields).
pub uninterp spec fn char_uppercase(c: char) -> Seq<char>;

/// The characters that std's `char::to_uppercase` yields for `c`.
#[verifier::external_body]
fn uppercase_of(c: char) -> (r: Vec<char>)
    ensures
        r@ == char_uppercase(c),
{
    c.to_uppercase().collect()
}

/// Globals of well-known packages.
pub open spec fn known_global(base: Seq<char>) -> Option<Seq<char>> {
    if base == "react"@ {
        Some("React"@)
    } else if base == "react-dom"@ {
        Some("ReactDOM"@)
    } else if base == "react-router-dom"@ {
        Some("ReactRouterDOM"@)
    } else if base == "@mui/material"@ || base == "@mui/styles"@ || base == "@mui/system"@ {
        Some("MaterialUI"@)
    } else if base == "@mui/icons-material"@ {
        Some("MaterialIcons"@)
    } else if base == "@apollo/client"@ {
        Some("Apollo"@)
    } else if base == "@tanstack/react-query"@ {
        Some("ReactQuery"@)
    } else if base == "xstate"@ {
        Some("XState"@)
    } else if base == "@xstate/react"@ {
        Some("XStateReact"@)
    } else if base == "zustand"@ {
        Some("Zustand"@)
    } else if base == "date-fns"@ {
        Some("dateFns"@)
    } else if base == "zod"@ {
        Some("Zod"@)
    } else {
        None
    }
}

/// The global derived from a package name: `@` dropped, `/` and `-` turned into
/// `_`, first character uppercased.
pub open spec fn derived_global(base: Seq<char>) -> Seq<char> {
    let clean = replace_all(replace_all(replace_all(base, "@"@, seq![]), "/"@, "_"@), "-"@, "_"@);
    if clean.len() == 0 {
        clean
    } else {
        char_uppercase(clean[0]) + clean.skip(1)
    }
}

pub open spec fn global_name(specifier: Seq<char>) -> Seq<char> {
    let base = base_module(specifier);
    match known_global(base) {
        Some(g) => g,
        None => derived_global(base),
    }
}

fn known_global_exec(base: &str) -> (r: Option<&'static str>)
    ensures
        match r {
            Some(g) => known_global(base@) == Some(g@),
            None => known_global(base@) is None,
        },
{
    if str_is(base, "react") {
        Some("React")
    } else if str_is(base, "react-dom") {
        Some("ReactDOM")
    } else if str_is(base, "react-router-dom") {
        Some("ReactRouterDOM")
    } else if str_is(base, "@mui/material") || str_is(base, "@mui/styles") || str_is(base, "@mui/system") {
        Some("MaterialUI")
    } else if str_is(base, "@mui/icons-material") {
        Some("MaterialIcons")
    } else if str_is(base, "@apollo/client") {
        Some("Apollo")
    } else if str_is(base, "@tanstack/react-query") {
        Some("ReactQuery")
    } else if str_is(base, "xstate") {
        Some("XState")
    } else if str_is(base, "@xstate/react") {
        Some("XStateReact")
    } else if str_is(base, "zustand") {
        Some("Zustand")
    } else if str_is(base, "date-fns") {
        Some("dateFns")
    } else if str_is(base, "zod") {
        Some("Zod")
    } else {
        None
    }
}

/// Get the global variable name for an external module
pub fn get_global_name(specifier: &str) -> (r: String)
    ensures
        r@ == global_name(specifier@),
{
    let base = get_base_module(specifier);
    match known_global_exec(base.as_str()) {
        Some(g) => owned(g),
        None => {
            let b = chars_of(base.as_str());
            let at = chars_of("@");
            let sl = chars_of("/");
            let da = chars_of("-");
            let us = chars_of("_");
            let empty: Vec<char> = Vec::new();
            proof {
                reveal_strlit("@");
                reveal_strlit("/");
                reveal_strlit("-");
                assert(empty@ =~= Seq::<char>::empty());
            }
            let c1 = replace_all_exec(b.as_slice(), at.as_slice(), empty.as_slice());
            let c2 = replace_all_exec(c1.as_slice(), sl.as_slice(), us.as_slice());
            let clean = replace_all_exec(c2.as_slice(), da.as_slice(), us.as_slice());
            if clean.len() == 0 {
                return string_of(&clean);
            }
            let mut out = uppercase_of(clean[0]);
            let mut i: usize = 1;
            while i < clean.len()
                invariant
                    1 <= i <= clean@.len(),
                    out@ == char_uppercase(clean@[0]) + clean@.subrange(1, i as int),
                decreases clean@.len() - i,
            {
                out.push(clean[i]);
                i = i + 1;
                assert(out@ =~= char_uppercase(clean@[0]) + clean@.subrange(1, i as int));
            }
            assert(clean@.subrange(1, i as int) =~= clean@.skip(1));
            string_of(&out)
        }
    }
}

} // verus!

verus! {

/// How many times `c` occurs in `s`.
pub open spec fn count_char(s: Seq<char>, c: char) -> nat
    decreases s.len(),
{
    if s.len() == 0 {
        0
    } else {
        count_char(s.skip(1), c) + if s[0] == c {
            1nat
        } else {
            0nat
        }
    }
}

proof fn lemma_prefix_count(s: Seq<char>, c: char, k: nat)
    requires
        k >= 1,
    ensures
        count_char(prefix_before_nth(s, c, k), c) < k,
    decreases s.len(),
{
    if s.len() > 0 {
        let p = prefix_before_nth(s, c, k);
        if s[0] == c && k <= 1 {
        } else if s[0] == c {
            lemma_prefix_count(s.skip(1), c, (k - 1) as nat);
            let q = prefix_before_nth(s.skip(1), c, (k - 1) as nat);
            assert(p == seq![c] + q);
            assert((seq![c] + q).skip(1) =~= q);
        } else {
            lemma_prefix_count(s.skip(1), c, k);
            let q = prefix_before_nth(s.skip(1), c, k);
            assert(p == seq![s[0]] + q);
            assert((seq![s[0]] + q).skip(1) =~= q);
        }
    }
}

proof fn lemma_prefix_of_few(t: Seq<char>, c: char, k: nat)
    requires
        count_char(t, c) < k,
    ensures
        prefix_before_nth(t, c, k) == t,
    decreases t.len(),
{
    if t.len() > 0 {
        if t[0] == c {
            lemma_prefix_of_few(t.skip(1), c, (k - 1) as nat);
        } else {
            lemma_prefix_of_few(t.skip(1), c, k);
        }
        assert(seq![t[0]] + t.skip(1) =~= t);
    }
}

/// The package of a package is itself: taking the base module twice gives
/// the same as once.
pub proof fn law_base_module_idempotent(s: Seq<char>)
    ensures
        base_module(base_module(s)) == base_module(s),
{
    let at: Seq<char> = seq!['@'];
    let k: nat = if starts_with(s, at) { 2 } else { 1 };
    let b = base_module(s);
    lemma_prefix_count(s, '/', k);
    if s.len() > 0 {
        if s[0] == '@' {
            assert(s.subrange(0, 1) =~= at);
            assert(b[0] == '@');
            assert(b.subrange(0, 1) =~= at);
        } else {
            assert(s.subrange(0, 1)[0] != at[0]);
            if b.len() > 0 {
                assert(b[0] == s[0]);
                assert(b.subrange(0, 1)[0] != at[0]);
            }
        }
    }
    let kb: nat = if starts_with(b, at) { 2 } else { 1 };
    assert(kb == k);
    lemma_prefix_of_few(b, '/', k);
}

/// A deep import maps to the global of its package.
pub proof fn law_deep_import_global(s: Seq<char>)
    ensures
        global_name(s) == global_name(base_module(s)),
{
    law_base_module_idempotent(s);
}

} // verus!

verus! {

/// A character that may stand in a JavaScript identifier as far as package
/// names go: not `@`, `/` or `-`.
pub open spec fn identifier_safe(c: char) -> bool {
    c != '@' && c != '/' && c != '-'
}

/// The global derived for a package with no known global is a JavaScript
/// identifier as far as package names go: it is the uppercase mapping of a
/// first character followed by the rest, and neither that first character nor
/// any other is `@`, `/` or `-`.
pub proof fn law_derived_global_is_identifier(specifier: Seq<char>)
    requires
        known_global(base_module(specifier)) is None,
    ensures
        global_name(specifier).len() == 0 || exists|c: char, rest: Seq<char>|
            #![trigger char_uppercase(c), rest.len()]
            global_name(specifier) == char_uppercase(c) + rest && identifier_safe(c)
                && forall|i: int| 0 <= i < rest.len() ==> identifier_safe(#[trigger] rest[i]),
{
    reveal_strlit("@");
    reveal_strlit("/");
    reveal_strlit("-");
    reveal_strlit("_");
    assert("@"@ =~= seq!['@']);
    assert("/"@ =~= seq!['/']);
    assert("-"@ =~= seq!['-']);
    assert("_"@ =~= seq!['_']);
    let base = base_module(specifier);
    let e = Seq::<char>::empty();
    let u = seq!['_'];
    crate::text::lemma_replace_one_char(base, '@', e);
    let c1 = crate::text::map_char(base, '@', e);
    crate::text::lemma_replace_one_char(c1, '/', u);
    let c2 = crate::text::map_char(c1, '/', u);
    crate::text::lemma_replace_one_char(c2, '-', u);
    let clean = crate::text::map_char(c2, '-', u);
    assert(replace_all(replace_all(replace_all(base, "@"@, seq![]), "/"@, "_"@), "-"@, "_"@) == clean);
    assert forall|i: int| 0 <= i < clean.len() implies identifier_safe(#[trigger] clean[i]) by {
        let x = clean[i];
        assert(clean.contains(x));
        crate::text::lemma_map_char_chars(c2, '-', u, x);
        if c2.contains(x) {
            crate::text::lemma_map_char_chars(c1, '/', u, x);
            if c1.contains(x) {
                crate::text::lemma_map_char_chars(base, '@', e, x);
            }
        }
    }
    if clean.len() > 0 {
        let rest = clean.skip(1);
        assert(identifier_safe(clean[0]));
        assert forall|i: int| 0 <= i < rest.len() implies identifier_safe(#[trigger] rest[i]) by {
            assert(rest[i] == clean[i + 1]);
        }
        assert(global_name(specifier) == char_uppercase(clean[0]) + rest);
    }
}

} // verus!
