//! What the project builds decide: the build mode of a project, the names
//! and links of workspace packages, which files are copied, and the wrapper
//! script of a command-line tool.
use vstd::prelude::*;
use crate::text::{starts_with, chars_of, string_of, owned, replace_all, split_char};
use crate::paths::std_path_extension;

verus! {

/// How stage 3 of a project build compiles the project.
#[derive(Debug, PartialEq, Eq, Structural)]
pub enum BuildMode {
    /// A web application built by Vite.
    WebVite,
    /// A web application bundled by the OXC bundler from `src/main.tsx`
    /// (`main_tsx`) or `src/index.tsx`.
    WebOxc { main_tsx: bool },
    /// A command-line tool compiled from TypeScript.
    TypeScript,
    /// A command-line tool whose JavaScript sources are copied.
    JavaScript,
}

/// A web application has an index.html and a `src/main.tsx` or
/// `src/index.tsx`; it is bundled by Vite when asked, by OXC otherwise. Any
/// other project is compiled when it has a tsconfig.json, copied otherwise.
pub open spec fn build_mode_spec(
    has_index_html: bool,
    has_main_tsx: bool,
    has_index_tsx: bool,
    has_tsconfig: bool,
    use_vite: bool,
) -> BuildMode {
    if has_index_html && (has_main_tsx || has_index_tsx) {
        if use_vite {
            BuildMode::WebVite
        } else {
            BuildMode::WebOxc { main_tsx: has_main_tsx }
        }
    } else if has_tsconfig {
        BuildMode::TypeScript
    } else {
        BuildMode::JavaScript
    }
}

/// Detect how a project is built (see `build_mode_spec`).
pub fn build_mode(
    has_index_html: bool,
    has_main_tsx: bool,
    has_index_tsx: bool,
    has_tsconfig: bool,
    use_vite: bool,
) -> (m: BuildMode)
    ensures
        m == build_mode_spec(has_index_html, has_main_tsx, has_index_tsx, has_tsconfig, use_vite),
{
    let is_web_app = has_index_html && (has_main_tsx || has_index_tsx);
    if is_web_app {
        if use_vite {
            BuildMode::WebVite
        } else {
            BuildMode::WebOxc { main_tsx: has_main_tsx }
        }
    } else if has_tsconfig {
        BuildMode::TypeScript
    } else {
        BuildMode::JavaScript
    }
}

/// The kind named in the build banner.
pub fn project_kind(has_tsconfig: bool) -> (r: &'static str)
    ensures
        r@ == if has_tsconfig {
            "TypeScript"@
        } else {
            "JavaScript"@
        },
{
    if has_tsconfig {
        "TypeScript"
    } else {
        "JavaScript"
    }
}

/// The directory name a workspace package is built in: its name without `@`
/// and with `/` written `-`.
pub open spec fn workspace_safe_name(name: Seq<char>) -> Seq<char> {
    replace_all(replace_all(name, seq!['@'], seq![]), seq!['/'], seq!['-'])
}

pub fn workspace_safe_name_exec(name: &str) -> (r: String)
    ensures
        r@ == workspace_safe_name(name@),
{
    let cs = chars_of(name);
    let at = vec!['@'];
    let slash = vec!['/'];
    let dash = vec!['-'];
    let none: Vec<char> = Vec::new();
    assert(at@ =~= seq!['@']);
    assert(slash@ =~= seq!['/']);
    assert(dash@ =~= seq!['-']);
    assert(none@ =~= Seq::<char>::empty());
    let a = crate::text::replace_all_exec(cs.as_slice(), at.as_slice(), none.as_slice());
    let b = crate::text::replace_all_exec(a.as_slice(), slash.as_slice(), dash.as_slice());
    string_of(&b)
}

/// Where a workspace dependency is linked under node_modules: for a scoped
/// name `@scope/rest`, the scope directory and `rest` inside it; otherwise
/// the name itself.
pub open spec fn link_target(name: Seq<char>) -> (Option<Seq<char>>, Seq<char>) {
    match crate::text::find_from(name, seq!['/'], 0) {
        Some(p) if starts_with(name, seq!['@']) => (Some(name.take(p)), name.skip(p + 1)),
        _ => (None, name),
    }
}

pub fn link_target_exec(name: &str) -> (r: (Option<String>, String))
    ensures
        (crate::externals::opt_view(r.0), r.1@) == link_target(name@),
{
    let cs = chars_of(name);
    let at = vec!['@'];
    let slash = vec!['/'];
    assert(at@ =~= seq!['@']);
    assert(slash@ =~= seq!['/']);
    let n = cs.len();
    if crate::text::starts_with_exec(cs.as_slice(), at.as_slice()) {
        if let Some(p) = crate::text::find_from_exec(cs.as_slice(), slash.as_slice(), 0) {
            proof {
                crate::text::lemma_find_from_some(cs@, slash@, 0);
                assert(crate::text::occurs_at(cs@, slash@, p as int));
                assert(slash@.len() == 1);
                assert(p + 1 <= cs@.len());
            }
            let scope = crate::text::sub_chars(&cs, 0, p);
            let rest = crate::text::sub_chars(&cs, p + 1, n);
            assert(scope@ =~= cs@.take(p as int));
            assert(rest@ =~= cs@.skip(p + 1));
            return (Some(string_of(&scope)), string_of(&rest));
        }
    }
    (None, owned(name))
}

/// The sibling directory a workspace dependency is copied to for tsconfig
/// project references: the last `/`-separated part of its name.
pub open spec fn sibling_name(name: Seq<char>) -> Seq<char> {
    split_char(name, '/').last()
}

pub fn sibling_name_exec(name: &str) -> (r: String)
    ensures
        r@ == sibling_name(name@),
{
    let cs = chars_of(name);
    let parts = crate::text::split_char_exec(cs.as_slice(), '/');
    proof {
        crate::text::lemma_split_char_nonempty(name@, '/');
    }
    assert(crate::text::vec_views(parts@).last() == parts@[parts@.len() - 1]@);
    string_of(&parts[parts.len() - 1])
}

/// The launcher of a command-line tool: runs the entry point with node.
pub open spec fn wrapper_script(node_bin: Seq<char>, cli_path: Seq<char>) -> Seq<char> {
    "#!/usr/bin/env bash\nexec "@ + node_bin + " "@ + cli_path + " \"$@\"\n"@
}

pub fn wrapper_script_exec(node_bin: &str, cli_path: &str) -> (r: String)
    ensures
        r@ == wrapper_script(node_bin@, cli_path@),
{
    let mut r = owned("#!/usr/bin/env bash\nexec ");
    r.append(node_bin);
    r.append(" ");
    r.append(cli_path);
    r.append(" \"$@\"\n");
    r
}

/// Whether a JavaScript-mode build copies the file: `.js`, `.mjs`, `.cjs`
/// or `.json`.
pub open spec fn is_js_source(ext: Option<Seq<char>>) -> bool {
    match ext {
        Some(e) => e == "js"@ || e == "mjs"@ || e == "cjs"@ || e == "json"@,
        None => false,
    }
}

pub fn is_js_source_file(path: &str) -> (b: bool)
    ensures
        b == is_js_source(std_path_extension(path@)),
{
    match crate::paths::path_extension(path) {
        Some(e) => crate::text::str_is(e.as_str(), "js") || crate::text::str_is(e.as_str(), "mjs")
            || crate::text::str_is(e.as_str(), "cjs") || crate::text::str_is(e.as_str(), "json"),
        None => false,
    }
}

/// Whether the web bundler copies the file as a stylesheet.
pub fn is_css_file(path: &str) -> (b: bool)
    ensures
        b == (std_path_extension(path@) == Some("css"@)),
{
    match crate::paths::path_extension(path) {
        Some(e) => crate::text::str_is(e.as_str(), "css"),
        None => false,
    }
}

/// Directory entries a project copy leaves out.
pub fn is_skipped_copy_entry(name: &str) -> (b: bool)
    ensures
        b == (name@ == "node_modules"@ || name@ == "dist"@ || name@ == ".git"@ || name@ == ".turbo"@),
{
    crate::text::str_is(name, "node_modules") || crate::text::str_is(name, "dist") || crate::text::str_is(
        name,
        ".git",
    ) || crate::text::str_is(name, ".turbo")
}

/// Entries a workspace package copy leaves out: build artifacts and hidden
/// files.
pub fn is_skipped_workspace_entry(name: &str) -> (b: bool)
    ensures
        b == (name@ == "node_modules"@ || name@ == "dist"@ || name@ == ".git"@ || name@ == ".turbo"@
            || name@ == "coverage"@ || starts_with(name@, seq!['.'])),
{
    let cs = chars_of(name);
    let dot = vec!['.'];
    assert(dot@ =~= seq!['.']);
    crate::text::str_is(name, "node_modules") || crate::text::str_is(name, "dist") || crate::text::str_is(
        name,
        ".git",
    ) || crate::text::str_is(name, ".turbo") || crate::text::str_is(name, "coverage")
        || crate::text::starts_with_exec(cs.as_slice(), dot.as_slice())
}

/// The files a library build copies next to dist/ when present.
pub fn library_extra_files() -> (r: Vec<&'static str>)
    ensures
        r@.len() == 3,
        r@[0]@ == "README.md"@,
        r@[1]@ == "tsconfig.json"@,
        r@[2]@ == "tsconfig.build.json"@,
{
    vec!["README.md", "tsconfig.json", "tsconfig.build.json"]
}

} // verus!

verus! {

/// A package.json path pointed at the sources instead of dist/: `./dist/`
/// becomes `./src/`, `.js` becomes `.ts`, then `.d.ts` becomes `.ts`.
pub open spec fn dist_to_src(p: Seq<char>) -> Seq<char> {
    replace_all(replace_all(replace_all(p, "./dist/"@, "./src/"@), ".js"@, ".ts"@), ".d.ts"@, ".ts"@)
}

fn replace_text(s: &String, pat: &str, rep: &str) -> (r: String)
    requires
        pat@.len() > 0,
    ensures
        r@ == replace_all(s@, pat@, rep@),
{
    let a = chars_of(s.as_str());
    let p = chars_of(pat);
    let q = chars_of(rep);
    string_of(&crate::text::replace_all_exec(a.as_slice(), p.as_slice(), q.as_slice()))
}

/// See `dist_to_src`.
pub fn dist_to_src_exec(p: &str) -> (r: String)
    ensures
        r@ == dist_to_src(p@),
{
    proof {
        reveal_strlit("./dist/");
        reveal_strlit(".js");
        reveal_strlit(".d.ts");
    }
    let a = replace_text(&owned(p), "./dist/", "./src/");
    let b = replace_text(&a, ".js", ".ts");
    replace_text(&b, ".d.ts", ".ts")
}

/// The source-pointing value of a string in package.json `exports`: rewritten
/// when it names something under `./dist/`, `None` when it stays.
pub fn export_target_for_source(s: &str) -> (r: Option<String>)
    ensures
        match r {
            Some(t) => crate::text::contains_seq(s@, "./dist/"@) && t@ == dist_to_src(s@),
            None => !crate::text::contains_seq(s@, "./dist/"@),
        },
{
    let cs = chars_of(s);
    let d = chars_of("./dist/");
    let found = crate::text::find_from_exec(cs.as_slice(), d.as_slice(), 0);
    proof {
        crate::text::lemma_find_from_some(cs@, d@, 0);
        if let Some(x) = crate::text::find_from(cs@, d@, 0) {
            assert(crate::text::occurs_at(cs@, d@, x));
        }
    }
    if found.is_some() {
        Some(dist_to_src_exec(s))
    } else {
        None
    }
}

} // verus!

verus! {

/// Whether the TypeScript build compiles the file: `.ts`, `.tsx`, `.js` or
/// `.jsx`.
pub fn is_compile_source(path: &str) -> (b: bool)
    ensures
        b == match std_path_extension(path@) {
            Some(e) => e == "ts"@ || e == "tsx"@ || e == "js"@ || e == "jsx"@,
            None => false,
        },
{
    match crate::paths::path_extension(path) {
        Some(e) => crate::text::str_is(e.as_str(), "ts") || crate::text::str_is(e.as_str(), "tsx")
            || crate::text::str_is(e.as_str(), "js") || crate::text::str_is(e.as_str(), "jsx"),
        None => false,
    }
}

} // verus!
