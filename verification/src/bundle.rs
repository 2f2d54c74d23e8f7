//! Assembling the bundle: content hashes, module ordering, the module-system
//! runtime and the generated index.html.
use vstd::prelude::*;
use vstd::std_specs::hash::DefaultHasherAdditionalSpecFns;
use vstd::string::StringSliceAdditionalSpecFns;
use std::collections::hash_map::DefaultHasher;
use std::hash::Hasher;
use crate::externals::{default_react_externals, ExternalModule};
use crate::text::{owned, string_of};

verus! {

/// Lowercase hexadecimal digit of `d` (`d < 16`).
pub open spec fn hex_digit(d: int) -> char {
    if d < 10 {
        (('0' as int) + d) as char
    } else {
        (('a' as int) + d - 10) as char
    }
}

/// `n` in lowercase hexadecimal without leading zeros (what `{:x}` prints).
pub open spec fn hex_lower(n: nat) -> Seq<char>
    decreases n,
{
    if n < 16 {
        seq![hex_digit(n as int)]
    } else {
        hex_lower(n / 16).push(hex_digit((n % 16) as int))
    }
}

/// `16` to the power `k`.
pub open spec fn pow16(k: nat) -> nat
    decreases k,
{
    if k == 0 {
        1
    } else {
        16 * pow16((k - 1) as nat)
    }
}

/// A lowercase hexadecimal digit.
pub open spec fn is_hex_digit(c: char) -> bool {
    ('0' <= c <= '9') || ('a' <= c <= 'f')
}

proof fn lemma_hex_lower_form(n: nat, k: nat)
    requires
        k >= 1,
        n < pow16(k),
    ensures
        1 <= hex_lower(n).len() <= k,
        forall|i: int| 0 <= i < hex_lower(n).len() ==> is_hex_digit(#[trigger] hex_lower(n)[i]),
        n > 0 ==> hex_lower(n)[0] != '0',
    decreases n,
{
    if n >= 16 {
        assert(k >= 2) by {
            if k == 1 {
                assert(pow16(1) == 16) by {
                    reveal_with_fuel(pow16, 2);
                }
            }
        }
        let k1 = (k - 1) as nat;
        assert(pow16(k) == 16 * pow16(k1));
        assert(n / 16 < pow16(k1)) by (nonlinear_arith)
            requires
                n < 16 * pow16(k1),
        ;
        assert(n / 16 > 0);
        lemma_hex_lower_form(n / 16, k1);
        let h = hex_lower(n);
        let d = (n % 16) as int;
        assert(h == hex_lower(n / 16).push(hex_digit(d)));
        assert(is_hex_digit(hex_digit(d)));
        assert forall|i: int| 0 <= i < h.len() implies is_hex_digit(#[trigger] h[i]) by {
            if i < h.len() - 1 {
                assert(h[i] == hex_lower(n / 16)[i]);
            }
        }
        assert(h[0] == hex_lower(n / 16)[0]);
    }
}

/// What `generate_hash` gives is always 1 to 16 lowercase hexadecimal
/// digits with no leading zero (beyond a lone `0`), as `{:x}` prints a `u64`.
pub proof fn law_hash_text_form(n: u64)
    ensures
        1 <= hex_lower(n as nat).len() <= 16,
        forall|i: int| 0 <= i < hex_lower(n as nat).len() ==> is_hex_digit(#[trigger] hex_lower(n as nat)[i]),
        n > 0 ==> hex_lower(n as nat)[0] != '0',
{
    assert(pow16(16) == 0x1_0000_0000_0000_0000) by {
        reveal_with_fuel(pow16, 17);
    }
    lemma_hex_lower_form(n as nat, 16);
}

fn hex_digit_exec(d: u64) -> (c: char)
    requires
        d < 16,
    ensures
        c == hex_digit(d as int),
{
    if d < 10 {
        (48u64 + d) as u8 as char
    } else {
        (97u64 + d - 10) as u8 as char
    }
}

/// Lowercase hexadecimal rendering of a `u64`.
pub fn to_hex_lower(n: u64) -> (s: String)
    ensures
        s@ == hex_lower(n as nat),
{
    let mut digits: Vec<char> = Vec::new();
    let mut m = n;
    // digits holds the low-order digits of n, most significant first
    while m >= 16
        invariant
            hex_lower(n as nat) == hex_lower(m as nat) + digits@,
        decreases m,
    {
        let d = m % 16;
        let c = hex_digit_exec(d);
        digits.insert(0, c);
        let ghost old_m = m;
        m = m / 16;
        assert(hex_lower(old_m as nat) == hex_lower(m as nat).push(c));
        assert(hex_lower(m as nat).push(c) + digits@.drop_first() =~= hex_lower(m as nat) + digits@);
    }
    digits.insert(0, hex_digit_exec(m));
    assert(hex_lower(m as nat) =~= seq![hex_digit(m as int)]);
    string_of(&digits)
}

/// The hash std's `DefaultHasher` computes for a string: its UTF-8 bytes
/// followed by the terminator byte 0xff (how `str` feeds a hasher).
pub open spec fn str_hash(s: &str) -> u64 {
    DefaultHasher::spec_finish(seq![s.spec_bytes(), seq![0xffu8]])
}

/// Generate content hash for cache busting: the lowercase hex of the
/// `DefaultHasher` hash of the content.
pub fn generate_hash(content: &str) -> (h: String)
    ensures
        h@ == hex_lower(str_hash(content) as nat),
{
    let mut hasher = DefaultHasher::new();
    hasher.write(content.as_bytes());
    let terminator: Vec<u8> = vec![0xffu8];
    hasher.write(terminator.as_slice());
    let v = hasher.finish();
    assert(terminator@ =~= seq![0xffu8]);
    assert(hasher@ =~~= seq![content.spec_bytes(), seq![0xffu8]]);
    to_hex_lower(v)
}

} // verus!

verus! {

/// Configuration for web bundling. Paths are held as strings.
pub struct WebBundleConfig {
    /// Project root directory
    pub project_root: String,
    /// Source directory (usually src/)
    pub src_dir: String,
    /// Output directory (usually dist/)
    pub out_dir: String,
    /// Path to index.html template
    pub index_html: String,
    /// Entry point (usually src/main.tsx or src/index.tsx)
    pub entry_point: String,
    /// Public directory for static assets
    pub public_dir: Option<String>,
    /// Base path for assets (e.g., "/" or "/app/")
    pub base_path: String,
    /// Whether to minify output
    pub minify: bool,
    /// External modules to load from CDN (not bundled)
    pub externals: Vec<ExternalModule>,
    /// Whether to bundle non-external node_modules
    pub bundle_node_modules: bool,
}

impl Default for WebBundleConfig {
    /// Empty paths, base path `/`, no minification, the default React externals,
    /// node_modules not bundled.
    fn default() -> (c: Self)
        ensures
            c.project_root@ == Seq::<char>::empty(),
            c.src_dir@ == Seq::<char>::empty(),
            c.out_dir@ == Seq::<char>::empty(),
            c.index_html@ == Seq::<char>::empty(),
            c.entry_point@ == Seq::<char>::empty(),
            c.public_dir is None,
            c.base_path@ == "/"@,
            !c.minify,
            c.externals.len() == 4,
            !c.bundle_node_modules,
    {
        WebBundleConfig {
            project_root: String::new(),
            src_dir: String::new(),
            out_dir: String::new(),
            index_html: String::new(),
            entry_point: String::new(),
            public_dir: None,
            base_path: owned("/"),
            minify: false,
            externals: default_react_externals(),
            bundle_node_modules: false,
        }
    }
}

} // verus!

verus! {

use crate::graph::{Module, ModuleView, module_views};
use crate::transform::{transformed, transform_module_code};
use crate::resolution::string_set;
use crate::text::{lines, string_views, vec_views};

/// The module-system runtime every bundle starts with: a module registry,
/// CommonJS/ESM interop helpers and a `__require` that tolerates cycles.
pub open spec fn bundle_runtime() -> Seq<char> {
    r#"(function() {
  'use strict';
  var __modules = {};
  var __exports = {};
  var __loading = {}; // Track modules currently being loaded (for circular deps)

  // Helper to mark a module as ESM
  function __markESM(exports) {
    if (typeof Symbol !== 'undefined' && Symbol.toStringTag) {
      Object.defineProperty(exports, Symbol.toStringTag, { value: 'Module' });
    }
    Object.defineProperty(exports, '__esModule', { value: true });
    return exports;
  }

  // Convert ESM to CommonJS-compatible (handles default export)
  function __toCommonJS(mod) {
    return mod && mod.__esModule ? mod : { default: mod, ...mod };
  }

  // Convert CommonJS to ESM-compatible (handles default export)
  function __toESM(mod) {
    if (mod && mod.__esModule) return mod;
    var result = {};
    if (mod != null) {
      for (var k in mod) {
        if (Object.prototype.hasOwnProperty.call(mod, k)) {
          result[k] = mod[k];
        }
      }
    }
    result.default = mod;
    return result;
  }

  function __require(id) {
    // Return cached exports if already loaded
    if (__exports[id]) return __exports[id];

    // Handle circular dependencies - return partial exports
    if (__loading[id]) {
      console.debug('[Bundle] Circular dependency detected: ' + id);
      return __exports[id] || {};
    }

    if (!__modules[id]) {
      console.warn('[Bundle] Module not found: ' + id);
      return {};
    }

    // Mark as loading (for circular dep detection)
    __loading[id] = true;

    // Create module object with empty exports
    var module = { exports: {} };
    __exports[id] = module.exports;

    // Execute module
    try {
      __modules[id](module, module.exports, __require, __toESM, __toCommonJS);
      __exports[id] = module.exports;
    } finally {
      delete __loading[id];
    }

    return __exports[id];
  }

"#@
}

/// The lines of `code`, each indented by four spaces and ended by a newline.
pub open spec fn indented(ls: Seq<Seq<char>>) -> Seq<char>
    decreases ls.len(),
{
    if ls.len() == 0 {
        seq![]
    } else {
        indented(ls.drop_last()) + "    "@ + ls.last() + "\n"@
    }
}

/// A module's entry in the bundle: its code wrapped in a registry function,
/// marked as ESM unless it is CommonJS.
pub open spec fn module_block(path: Seq<char>, is_commonjs: bool, code: Seq<char>) -> Seq<char> {
    "  __modules['"@ + path + "'] = function(module, exports, require, __toESM, __toCommonJS) {\n"@
        + (if !is_commonjs {
        "    __markESM(exports);\n"@
    } else {
        seq![]
    }) + indented(lines(code)) + "  };\n\n"@
}

pub open spec fn module_blocks(ms: Seq<ModuleView>, order: Seq<int>, codes: Seq<Seq<char>>) -> Seq<char>
    decreases order.len(),
{
    if order.len() == 0 {
        seq![]
    } else {
        module_blocks(ms, order.drop_last(), codes) + module_block(
            ms[order.last()].path,
            ms[order.last()].is_commonjs,
            codes[order.len() - 1],
        )
    }
}

/// The bundle of the modules taken in `order`, with `codes` their transformed
/// code: the runtime, one block per module, then the last module is required.
pub open spec fn bundle_text(ms: Seq<ModuleView>, order: Seq<int>, codes: Seq<Seq<char>>) -> Seq<char> {
    bundle_runtime() + module_blocks(ms, order, codes) + (if order.len() > 0 {
        "  __require('"@ + ms[order.last()].path + "');\n"@
    } else {
        seq![]
    }) + "})();\n"@
}

/// The paths of the modules taken in `order`.
pub open spec fn ordered_paths(ms: Seq<ModuleView>, order: Seq<int>) -> Seq<Seq<char>> {
    Seq::new(order.len(), |i: int| ms[order[i]].path)
}

fn indented_exec(out: &mut String, code: &str)
    ensures
        final(out)@ == old(out)@ + indented(lines(code@)),
{
    let cs = crate::text::chars_of(code);
    let ls = crate::text::lines_exec(cs.as_slice());
    let ghost lv = ls@.map_values(|l: Vec<char>| l@);
    let ghost o0 = out@;
    let mut i: usize = 0;
    assert(lv.take(0) =~= Seq::<Seq<char>>::empty());
    assert(o0 + indented(lv.take(0)) =~= o0);
    while i < ls.len()
        invariant
            i <= ls@.len(),
            lv == ls@.map_values(|l: Vec<char>| l@),
            lv == lines(code@),
            o0 == old(out)@,
            out@ == o0 + indented(lv.take(i as int)),
        decreases ls@.len() - i,
    {
        assert(lv.take(i + 1).drop_last() =~= lv.take(i as int));
        assert(lv.take(i + 1).last() == ls@[i as int]@);
        out.append("    ");
        out.append(string_of(&ls[i]).as_str());
        out.append("\n");
        assert(out@ =~= o0 + indented(lv.take(i + 1)));
        i = i + 1;
    }
    assert(lv.take(ls@.len() as int) =~= lv);
}

/// Create the bundle by concatenating the modules taken in `order`, each
/// transformed (see `transform_module_code`) against the set of their paths,
/// relative imports resolved from the module's own directory.
pub fn create_bundle<F: Fn(String) -> Option<String>>(
    modules: &Vec<Module>,
    order: &Vec<usize>,
    _base_path: &str,
    canonical: &F,
) -> (r: String)
    requires
        forall|a: int| 0 <= a < order@.len() ==> (#[trigger] order@[a]) < modules@.len(),
        forall|a: String| call_requires(*canonical, (a,)),
    ensures
        ({
            let ms = module_views(modules@);
            let ord = crate::graph::usize_views(order@);
            exists|codes: Seq<Seq<char>>|
                #![trigger bundle_text(ms, ord, codes)]
                codes.len() == ord.len() && (forall|i: int|
                    0 <= i < ord.len() ==> transformed(
                        ms[ord[i]].compiled,
                        crate::paths::std_path_parent(ms[ord[i]].path),
                        string_set_of(ordered_paths(ms, ord)),
                        *canonical,
                        #[trigger] codes[i],
                    )) && r@ == bundle_text(ms, ord, codes)
        }),
{
    let ghost ms = module_views(modules@);
    let ghost ord = crate::graph::usize_views(order@);
    // Build a map of all module paths for resolution
    let mut paths: Vec<String> = Vec::new();
    let mut i: usize = 0;
    while i < order.len()
        invariant
            i <= order@.len(),
            ms == module_views(modules@),
            ord == crate::graph::usize_views(order@),
            forall|a: int| 0 <= a < order@.len() ==> (#[trigger] order@[a]) < modules@.len(),
            string_views(paths@) =~= ordered_paths(ms, ord).take(i as int),
        decreases order@.len() - i,
    {
        let ghost p0 = string_views(paths@);
        assert(ms[ord[i as int]] == modules@[order@[i as int] as int]@);
        paths.push(owned(modules[order[i]].path.as_str()));
        assert(string_views(paths@) =~= p0.push(ms[ord[i as int]].path));
        i = i + 1;
    }
    assert(ordered_paths(ms, ord).take(order@.len() as int) =~= ordered_paths(ms, ord));
    proof {
        lemma_string_set_of(paths@);
    }
    let mut bundle = owned(
        r#"(function() {
  'use strict';
  var __modules = {};
  var __exports = {};
  var __loading = {}; // Track modules currently being loaded (for circular deps)

  // Helper to mark a module as ESM
  function __markESM(exports) {
    if (typeof Symbol !== 'undefined' && Symbol.toStringTag) {
      Object.defineProperty(exports, Symbol.toStringTag, { value: 'Module' });
    }
    Object.defineProperty(exports, '__esModule', { value: true });
    return exports;
  }

  // Convert ESM to CommonJS-compatible (handles default export)
  function __toCommonJS(mod) {
    return mod && mod.__esModule ? mod : { default: mod, ...mod };
  }

  // Convert CommonJS to ESM-compatible (handles default export)
  function __toESM(mod) {
    if (mod && mod.__esModule) return mod;
    var result = {};
    if (mod != null) {
      for (var k in mod) {
        if (Object.prototype.hasOwnProperty.call(mod, k)) {
          result[k] = mod[k];
        }
      }
    }
    result.default = mod;
    return result;
  }

  function __require(id) {
    // Return cached exports if already loaded
    if (__exports[id]) return __exports[id];

    // Handle circular dependencies - return partial exports
    if (__loading[id]) {
      console.debug('[Bundle] Circular dependency detected: ' + id);
      return __exports[id] || {};
    }

    if (!__modules[id]) {
      console.warn('[Bundle] Module not found: ' + id);
      return {};
    }

    // Mark as loading (for circular dep detection)
    __loading[id] = true;

    // Create module object with empty exports
    var module = { exports: {} };
    __exports[id] = module.exports;

    // Execute module
    try {
      __modules[id](module, module.exports, __require, __toESM, __toCommonJS);
      __exports[id] = module.exports;
    } finally {
      delete __loading[id];
    }

    return __exports[id];
  }

"#,
    );
    let ghost mut codes: Seq<Seq<char>> = seq![];
    let mut i: usize = 0;
    assert(ord.take(0) =~= Seq::<int>::empty());
    assert(bundle_runtime() + module_blocks(ms, ord.take(0), codes) =~= bundle_runtime());
    while i < order.len()
        invariant
            i <= order@.len(),
            ms == module_views(modules@),
            ord == crate::graph::usize_views(order@),
            forall|a: int| 0 <= a < order@.len() ==> (#[trigger] order@[a]) < modules@.len(),
            forall|a: String| call_requires(*canonical, (a,)),
            string_set(paths@) == string_set_of(ordered_paths(ms, ord)),
            codes.len() == i,
            forall|j: int|
                0 <= j < i ==> transformed(
                    ms[ord[j]].compiled,
                    crate::paths::std_path_parent(ms[ord[j]].path),
                    string_set_of(ordered_paths(ms, ord)),
                    *canonical,
                    #[trigger] codes[j],
                ),
            bundle@ == bundle_runtime() + module_blocks(ms, ord.take(i as int), codes),
        decreases order@.len() - i,
    {
        let m = &modules[order[i]];
        assert(ms[ord[i as int]] == m@);
        let ghost b0 = bundle@;
        bundle.append("  __modules['");
        bundle.append(m.path.as_str());
        bundle.append("'] = function(module, exports, require, __toESM, __toCommonJS) {\n");
        if !m.is_commonjs {
            bundle.append("    __markESM(exports);\n");
        }
        let code = transform_module_code(m.compiled.as_str(), Some(m.path.as_str()), &paths, canonical);
        indented_exec(&mut bundle, code.as_str());
        bundle.append("  };\n\n");
        let ghost c0 = codes;
        proof {
            codes = codes.push(code@);
            assert(codes.drop_last() =~= c0);
            assert(ord.take(i + 1).drop_last() =~= ord.take(i as int));
            assert(ord.take(i + 1).last() == ord[i as int]);
            lemma_module_blocks_frame(ms, ord.take(i as int), c0, codes);
            assert(bundle@ =~= bundle_runtime() + module_blocks(ms, ord.take(i + 1), codes));
        }
        i = i + 1;
    }
    assert(ord.take(order@.len() as int) =~= ord);
    if order.len() > 0 {
        let last = &modules[order[order.len() - 1]];
        assert(ms[ord.last()] == last@);
        bundle.append("  __require('");
        bundle.append(last.path.as_str());
        bundle.append("');\n");
    }
    bundle.append("})();\n");
    proof {
        assert(bundle@ == bundle_text(ms, ord, codes));
    }
    bundle
}

/// Blocks built from a prefix of the codes do not change when codes are added.
proof fn lemma_module_blocks_frame(ms: Seq<ModuleView>, order: Seq<int>, codes: Seq<Seq<char>>, more: Seq<Seq<char>>)
    requires
        codes.len() >= order.len(),
        more.len() >= codes.len(),
        forall|j: int| 0 <= j < codes.len() ==> more[j] == codes[j],
    ensures
        module_blocks(ms, order, codes) == module_blocks(ms, order, more),
    decreases order.len(),
{
    if order.len() > 0 {
        lemma_module_blocks_frame(ms, order.drop_last(), codes, more);
    }
}

/// The set of the texts in `v`.
pub open spec fn string_set_of(v: Seq<Seq<char>>) -> Set<Seq<char>> {
    Set::new(|s: Seq<char>| v.contains(s))
}

proof fn lemma_string_set_of(v: Seq<String>)
    ensures
        string_set(v) == string_set_of(string_views(v)),
{
    assert forall|s: Seq<char>| string_set(v).contains(s) <==> string_set_of(string_views(v)).contains(s) by {
        if string_set(v).contains(s) {
            let j = choose|j: int| 0 <= j < v.len() && #[trigger] v[j]@ == s;
            assert(string_views(v)[j] == s);
        }
        if string_set_of(string_views(v)).contains(s) {
            let j = choose|j: int| 0 <= j < string_views(v).len() && string_views(v)[j] == s;
            assert(v[j]@ == s);
        }
    }
    assert(string_set(v) =~= string_set_of(string_views(v)));
}

} // verus!

verus! {

use crate::text::replace_all;

/// The page used when the project has no index.html.
pub open spec fn default_index_template() -> Seq<char> {
    r#"<!DOCTYPE html>
<html lang="en">
<head>
    <meta charset="UTF-8" />
    <meta name="viewport" content="width=device-width, initial-scale=1.0" />
    <title>App</title>
    <!-- CSS_PLACEHOLDER -->
</head>
<body>
    <div id="root"></div>
    <!-- SCRIPT_PLACEHOLDER -->
</body>
</html>"#@
}

/// The script tags of the page: the CDN scripts, then the bundle.
pub open spec fn script_tag(cdn_scripts: Seq<char>, base_path: Seq<char>, bundle_filename: Seq<char>) -> Seq<char> {
    let tag = "<script src=\""@ + base_path + bundle_filename + "\"></script>"@;
    if cdn_scripts.len() == 0 {
        tag
    } else {
        cdn_scripts + "\n    "@ + tag
    }
}

/// The generated index.html: the template with its CSS placeholder replaced
/// by the stylesheet tags, and its script placeholder (and Vite's entry
/// script tags) replaced by the script tags.
pub open spec fn index_html(
    template: Seq<char>,
    bundle_filename: Seq<char>,
    css_tags: Seq<char>,
    base_path: Seq<char>,
    cdn_scripts: Seq<char>,
) -> Seq<char> {
    let tag = script_tag(cdn_scripts, base_path, bundle_filename);
    replace_all(
        replace_all(
            replace_all(replace_all(template, "<!-- CSS_PLACEHOLDER -->"@, css_tags), "<!-- SCRIPT_PLACEHOLDER -->"@, tag),
            "<script type=\"module\" src=\"/src/main.tsx\"></script>"@,
            tag,
        ),
        "<script type=\"module\" src=\"./src/main.tsx\"></script>"@,
        tag,
    )
}

fn replace_lit(s: &String, pat: &str, rep: &str) -> (r: String)
    requires
        pat@.len() > 0,
    ensures
        r@ == replace_all(s@, pat@, rep@),
{
    let a = crate::text::chars_of(s.as_str());
    let p = crate::text::chars_of(pat);
    let q = crate::text::chars_of(rep);
    string_of(&crate::text::replace_all_exec(a.as_slice(), p.as_slice(), q.as_slice()))
}

/// Generate index.html with proper script and style tags, from the project's
/// template when there is one.
pub fn render_index_html(
    template: Option<&str>,
    bundle_filename: &str,
    css_tags: &str,
    base_path: &str,
    cdn_scripts: &str,
) -> (r: String)
    ensures
        r@ == index_html(
            match template {
                Some(t) => t@,
                None => default_index_template(),
            },
            bundle_filename@,
            css_tags@,
            base_path@,
            cdn_scripts@,
        ),
{
    let t = match template {
        Some(t) => owned(t),
        None => owned(
            r#"<!DOCTYPE html>
<html lang="en">
<head>
    <meta charset="UTF-8" />
    <meta name="viewport" content="width=device-width, initial-scale=1.0" />
    <title>App</title>
    <!-- CSS_PLACEHOLDER -->
</head>
<body>
    <div id="root"></div>
    <!-- SCRIPT_PLACEHOLDER -->
</body>
</html>"#,
        ),
    };
    let mut tag = owned("<script src=\"");
    tag.append(base_path);
    tag.append(bundle_filename);
    tag.append("\"></script>");
    let script = if cdn_scripts.is_empty() {
        tag
    } else {
        let mut s = owned(cdn_scripts);
        s.append("\n    ");
        s.append(tag.as_str());
        s
    };
    proof {
        reveal_strlit("<!-- CSS_PLACEHOLDER -->");
        reveal_strlit("<!-- SCRIPT_PLACEHOLDER -->");
        reveal_strlit("<script type=\"module\" src=\"/src/main.tsx\"></script>");
        reveal_strlit("<script type=\"module\" src=\"./src/main.tsx\"></script>");
        assert(cdn_scripts@.len() == 0 ==> cdn_scripts@ =~= Seq::<char>::empty());
    }
    let h1 = replace_lit(&t, "<!-- CSS_PLACEHOLDER -->", css_tags);
    let h2 = replace_lit(&h1, "<!-- SCRIPT_PLACEHOLDER -->", script.as_str());
    let h3 = replace_lit(&h2, "<script type=\"module\" src=\"/src/main.tsx\"></script>", script.as_str());
    replace_lit(&h3, "<script type=\"module\" src=\"./src/main.tsx\"></script>", script.as_str())
}

/// The first eight characters of a content hash, for file names.
pub open spec fn short_hash(hash: Seq<char>) -> Seq<char> {
    hash.take(8)
}

/// `hash` starts with eight ASCII characters (a hex digest of that length).
pub open spec fn hash_prefix_ok(hash: Seq<char>) -> bool {
    hash.len() >= 8 && forall|i: int| 0 <= i < 8 ==> (hash[i] as u32) < 128
}

/// `index-<hash prefix>.js`.
pub fn bundle_file_name(hash: &str) -> (r: String)
    requires
        hash_prefix_ok(hash@),
    ensures
        r@ == "index-"@ + short_hash(hash@) + ".js"@,
{
    let hc = crate::text::chars_of(hash);
    let prefix = crate::text::sub_chars(&hc, 0, 8);
    assert(prefix@ =~= short_hash(hash@));
    let mut r = owned("index-");
    r.append(string_of(&prefix).as_str());
    r.append(".js");
    r
}

/// `<stem>-<hash prefix>.css`.
pub fn hashed_css_name(stem: &str, hash: &str) -> (r: String)
    requires
        hash_prefix_ok(hash@),
    ensures
        r@ == stem@ + "-"@ + short_hash(hash@) + ".css"@,
{
    let hc = crate::text::chars_of(hash);
    let prefix = crate::text::sub_chars(&hc, 0, 8);
    assert(prefix@ =~= short_hash(hash@));
    let mut r = owned(stem);
    r.append("-");
    r.append(string_of(&prefix).as_str());
    r.append(".css");
    r
}

pub open spec fn css_link(base_path: Seq<char>, name: Seq<char>) -> Seq<char> {
    "<link rel=\"stylesheet\" href=\""@ + base_path + name + "\" />"@
}

/// The stylesheet tags for the CSS files with the given file names, joined
/// by a newline and indentation.
pub fn css_link_tags(base_path: &str, names: &Vec<String>) -> (r: String)
    ensures
        r@ == crate::text::join(
            Seq::new(names@.len(), |i: int| css_link(base_path@, names@[i]@)),
            "\n    "@,
        ),
{
    let mut tags: Vec<String> = Vec::new();
    let mut i: usize = 0;
    while i < names.len()
        invariant
            i <= names@.len(),
            string_views(tags@) =~= Seq::new(i as nat, |j: int| css_link(base_path@, names@[j]@)),
        decreases names@.len() - i,
    {
        let mut t = owned("<link rel=\"stylesheet\" href=\"");
        t.append(base_path);
        t.append(names[i].as_str());
        t.append("\" />");
        let ghost t0 = string_views(tags@);
        tags.push(t);
        assert(string_views(tags@) =~= t0.push(css_link(base_path@, names@[i as int]@)));
        i = i + 1;
    }
    crate::text::join_exec(&tags, "\n    ")
}

} // verus!
