//! Reading a module's imports, exports and module system out of its source,
//! and resolving its local imports with `oxc_resolver`.
use vstd::prelude::*;
use oxc_resolver::{ResolveOptions, Resolver};
use crate::patterns::{Pattern, regex_group_matches, regex_is_match, regex_compiles};
use crate::text::{starts_with, contains_seq, string_views, chars_of, string_of, owned};
use crate::module_items::opt_views;
use crate::paths::std_path_parent;

verus! {

/// The options a module resolver is made with.
pub struct ResolverOptions {
    /// Extensions tried, in order, on a path without one.
    pub extensions: Vec<String>,
    /// `package.json` fields read for a package's entry point, in order.
    pub main_fields: Vec<String>,
    /// Conditions matched in a package's `exports`.
    pub condition_names: Vec<String>,
    /// `package.json` fields read for aliases.
    pub alias_fields: Vec<Vec<String>>,
}

/// An `oxc_resolver` resolver with its file-system cache, held whole: its
/// type `ResolverGeneric<C: Cache>` has no declaration here.
#[verifier::external_body]
pub struct ResolverHandle {
    resolver: Resolver,
}

impl ResolverHandle {
    /// A resolver (`Resolver::new`) with the given extensions, main fields,
    /// condition names and alias fields, the other options at their defaults.
    /// `Resolver::new` asserts (in debug builds) that every non-empty
    /// extension starts with a dot.
    #[verifier::external_body]
    pub(crate) fn new(options: &ResolverOptions) -> ResolverHandle
        requires
            extensions_dotted(options.extensions@),
    {
        ResolverHandle {
            resolver: Resolver::new(ResolveOptions {
                extensions: options.extensions.clone(),
                main_fields: options.main_fields.clone(),
                condition_names: options.condition_names.clone(),
                alias_fields: options.alias_fields.clone(),
                ..Default::default()
            }),
        }
    }

    /// `Resolver::resolve` of `spec` from `dir`: the full path of what it
    /// finds. Nothing is stated of the result: it depends on the file system.
    #[verifier::external_body]
    pub(crate) fn resolve(&self, dir: &str, spec: &str) -> Option<String> {
        self.resolver.resolve(dir, spec).ok().map(|r| r.full_path().to_string_lossy().to_string())
    }
}

/// Every non-empty extension starts with a dot.
pub open spec fn extensions_dotted(exts: Seq<String>) -> bool {
    forall|i: int| 0 <= i < exts.len() && (#[trigger] exts[i])@.len() > 0 ==> exts[i]@[0] == '.'
}

/// A module resolver together with the options it was made with.
pub struct ModuleResolver {
    pub options: ResolverOptions,
    pub handle: ResolverHandle,
}

impl ModuleResolver {
    /// A resolver made with `options`.
    pub fn new(options: ResolverOptions) -> (r: ModuleResolver)
        requires
            extensions_dotted(options.extensions@),
        ensures
            r.options == options,
    {
        let handle = ResolverHandle::new(&options);
        ModuleResolver { options, handle }
    }

    /// What the resolver finds for `spec` imported from directory `dir`.
    pub fn resolve(&self, dir: &str, spec: &str) -> Option<String> {
        self.handle.resolve(dir, spec)
    }
}

/// The extensions the module graph's resolver tries, in order.
pub open spec fn graph_extensions() -> Seq<Seq<char>> {
    seq![".tsx"@, ".ts"@, ".jsx"@, ".js"@, ".mjs"@, ".cjs"@, ".json"@]
}

/// The resolver the module graph is built with, configured for
/// TypeScript/React projects: the extensions of `graph_extensions`, the
/// `module` then `main` entry fields, the `import`, `module` and `default`
/// conditions, and `browser` aliases.
pub fn module_resolver() -> (r: ModuleResolver)
    ensures
        string_views(r.options.extensions@) == graph_extensions(),
        string_views(r.options.main_fields@) == seq!["module"@, "main"@],
        string_views(r.options.condition_names@) == seq!["import"@, "module"@, "default"@],
        r.options.alias_fields@.len() == 1,
        string_views(r.options.alias_fields@[0]@) == seq!["browser"@],
{
    let extensions = vec![
        owned(".tsx"),
        owned(".ts"),
        owned(".jsx"),
        owned(".js"),
        owned(".mjs"),
        owned(".cjs"),
        owned(".json"),
    ];
    let main_fields = vec![owned("module"), owned("main")];
    let condition_names = vec![owned("import"), owned("module"), owned("default")];
    let alias_fields = vec![vec![owned("browser")]];
    proof {
        reveal_strlit(".tsx");
        reveal_strlit(".ts");
        reveal_strlit(".jsx");
        reveal_strlit(".js");
        reveal_strlit(".mjs");
        reveal_strlit(".cjs");
        reveal_strlit(".json");
        assert(string_views(extensions@) =~= graph_extensions());
        assert forall|i: int| 0 <= i < extensions@.len() && (#[trigger] extensions@[i])@.len() > 0
            implies extensions@[i]@[0] == '.' by {
            assert(extensions@[i]@ == graph_extensions()[i]);
        }
        assert(string_views(main_fields@) =~= seq!["module"@, "main"@]);
        assert(string_views(condition_names@) =~= seq!["import"@, "module"@, "default"@]);
        assert(string_views(alias_fields@[0]@) =~= seq!["browser"@]);
    }
    ModuleResolver::new(ResolverOptions { extensions, main_fields, condition_names, alias_fields })
}

pub open spec fn import_pattern() -> Seq<char> {
    "(?:import|export)\\s+(?:[\\s\\S]*?from\\s+)?['\"]([^'\"]+)['\"]"@
}

pub open spec fn require_pattern() -> Seq<char> {
    "require\\s*\\(\\s*['\"]([^'\"]+)['\"]\\s*\\)"@
}

pub open spec fn module_exports_pattern() -> Seq<char> {
    "module\\.exports\\s*[=.]"@
}

pub open spec fn exports_dot_pattern() -> Seq<char> {
    "exports\\.(\\w+)\\s*="@
}

pub open spec fn export_default_pattern() -> Seq<char> {
    "export\\s+default\\s+"@
}

pub open spec fn export_named_pattern() -> Seq<char> {
    "export\\s+(?:const|let|var|function|class|async\\s+function)\\s+(\\w+)"@
}

pub open spec fn export_list_pattern() -> Seq<char> {
    "export\\s*\\{([^}]+)\\}"@
}

/// The present values, in order.
pub open spec fn somes(v: Seq<Option<Seq<char>>>) -> Seq<Seq<char>>
    decreases v.len(),
{
    if v.len() == 0 {
        seq![]
    } else {
        match v.last() {
            Some(s) => somes(v.drop_last()).push(s),
            None => somes(v.drop_last()),
        }
    }
}

pub open spec fn is_relative_spec(s: Seq<char>) -> bool {
    starts_with(s, seq!['.']) || starts_with(s, seq!['/'])
}

/// The specifiers that start with `.` or `/`, in order.
pub open spec fn relative_specs(v: Seq<Seq<char>>) -> Seq<Seq<char>>
    decreases v.len(),
{
    if v.len() == 0 {
        seq![]
    } else if is_relative_spec(v.last()) {
        relative_specs(v.drop_last()).push(v.last())
    } else {
        relative_specs(v.drop_last())
    }
}

/// The local specifiers of a module, in the order they are resolved: those of
/// `import`/`export ... from` statements, then those of `require(...)` calls.
pub open spec fn import_specifiers(src: Seq<char>) -> Seq<Seq<char>> {
    relative_specs(somes(regex_group_matches(import_pattern(), src, 1)))
        + relative_specs(somes(regex_group_matches(require_pattern(), src, 1)))
}

pub open spec fn as_sep() -> Seq<char> {
    seq![' ', 'a', 's', ' ']
}

pub open spec fn type_prefix() -> Seq<char> {
    seq!['t', 'y', 'p', 'e', ' ']
}

/// The exported names of one item of an export list: `a` gives `a`, `a as b`
/// gives `b`; empty items and `type` items give none.
pub open spec fn list_item_export(item: Seq<char>) -> Seq<Seq<char>> {
    let t = crate::text::trim(item);
    if t.len() == 0 || starts_with(t, type_prefix()) {
        seq![]
    } else {
        match crate::text::find_from(t, as_sep(), 0) {
            Some(p) => seq![crate::text::trim(t.skip(p + 4))],
            None => seq![t],
        }
    }
}

pub open spec fn list_exports(items: Seq<Seq<char>>) -> Seq<Seq<char>>
    decreases items.len(),
{
    if items.len() == 0 {
        seq![]
    } else {
        list_exports(items.drop_last()) + list_item_export(items.last())
    }
}

pub open spec fn export_lists(lists: Seq<Seq<char>>) -> Seq<Seq<char>>
    decreases lists.len(),
{
    if lists.len() == 0 {
        seq![]
    } else {
        export_lists(lists.drop_last()) + list_exports(crate::text::split_char(lists.last(), ','))
    }
}

/// The exported names found in a module's source: `exports.x =` names, then
/// `default` for an `export default`, then declared exports, then the names
/// of export lists.
pub open spec fn module_exports_of(src: Seq<char>) -> Seq<Seq<char>> {
    somes(regex_group_matches(exports_dot_pattern(), src, 1))
        + (if regex_is_match(export_default_pattern(), src) {
        seq![seq!['d', 'e', 'f', 'a', 'u', 'l', 't']]
    } else {
        seq![]
    }) + somes(regex_group_matches(export_named_pattern(), src, 1))
        + export_lists(somes(regex_group_matches(export_list_pattern(), src, 1)))
}

/// A module is CommonJS when it assigns `module.exports` or an `exports.x`.
pub open spec fn module_is_commonjs(src: Seq<char>) -> bool {
    regex_is_match(module_exports_pattern(), src) || regex_group_matches(exports_dot_pattern(), src, 1).len() > 0
}

pub open spec fn node_modules_text() -> Seq<char> {
    seq!['n', 'o', 'd', 'e', '_', 'm', 'o', 'd', 'u', 'l', 'e', 's']
}

/// The resolved paths kept as imports: those found, outside `node_modules`.
pub open spec fn kept_imports(outcomes: Seq<Option<Seq<char>>>) -> Seq<Seq<char>>
    decreases outcomes.len(),
{
    if outcomes.len() == 0 {
        seq![]
    } else {
        match outcomes.last() {
            Some(p) => if contains_seq(p, node_modules_text()) {
                kept_imports(outcomes.drop_last())
            } else {
                kept_imports(outcomes.drop_last()).push(p)
            },
            None => kept_imports(outcomes.drop_last()),
        }
    }
}

/// The directory local specifiers are resolved from: the module's parent
/// directory, or `.` when it has none.
pub open spec fn import_dir(mod_path: Seq<char>) -> Seq<char> {
    match std_path_parent(mod_path) {
        Some(p) => p,
        None => "."@,
    }
}

/// `out` is a possible answer of `resolve` asked for `spec` from `dir`.
pub open spec fn resolve_ok<F: Fn(String, String) -> Option<String>>(
    resolve: F,
    dir: Seq<char>,
    spec: Seq<char>,
    out: Option<Seq<char>>,
) -> bool {
    exists|a: String, b: String, o: Option<String>|
        #![trigger call_ensures(resolve, (a, b), o)]
        a@ == dir && b@ == spec && call_ensures(resolve, (a, b), o) && crate::externals::opt_view(o) == out
}

/// `outcomes` are answers of `resolve` for each of `specs`, in order, all
/// asked from `dir`.
pub open spec fn resolutions_ok<F: Fn(String, String) -> Option<String>>(
    resolve: F,
    dir: Seq<char>,
    specs: Seq<Seq<char>>,
    outcomes: Seq<Option<Seq<char>>>,
) -> bool {
    &&& outcomes.len() == specs.len()
    &&& forall|k: int| 0 <= k < specs.len() ==> resolve_ok(resolve, dir, specs[k], #[trigger] outcomes[k])
}

pub open spec fn all_patterns_compile() -> bool {
    &&& regex_compiles(import_pattern())
    &&& regex_compiles(require_pattern())
    &&& regex_compiles(module_exports_pattern())
    &&& regex_compiles(exports_dot_pattern())
    &&& regex_compiles(export_default_pattern())
    &&& regex_compiles(export_named_pattern())
    &&& regex_compiles(export_list_pattern())
}

/// Result of analyzing a module's imports, exports, and module system
pub struct ModuleAnalysis {
    /// Import dependencies (resolved paths)
    pub imports: Vec<String>,
    /// Exported names
    pub exports: Vec<String>,
    /// Whether this module uses CommonJS (module.exports or exports.X)
    pub is_commonjs: bool,
}

} // verus!

verus! {

fn somes_exec(v: Vec<Option<String>>) -> (r: Vec<String>)
    ensures
        string_views(r@) == somes(opt_views(v@)),
{
    let ghost ov = opt_views(v@);
    let mut out: Vec<String> = Vec::new();
    let mut i: usize = 0;
    assert(ov.take(0) =~= Seq::<Option<Seq<char>>>::empty());
    while i < v.len()
        invariant
            i <= v@.len(),
            ov == opt_views(v@),
            string_views(out@) == somes(ov.take(i as int)),
        decreases v@.len() - i,
    {
        assert(ov.take(i + 1).drop_last() =~= ov.take(i as int));
        assert(ov.take(i + 1).last() == crate::externals::opt_view(v@[i as int]));
        match &v[i] {
            Some(s) => {
                let ghost o0 = string_views(out@);
                out.push(owned(s.as_str()));
                assert(string_views(out@) =~= o0.push(s@));
            },
            None => {},
        }
        i = i + 1;
    }
    assert(ov.take(v@.len() as int) =~= ov);
    out
}

fn relative_filter(v: &Vec<String>) -> (r: Vec<String>)
    ensures
        string_views(r@) == relative_specs(string_views(v@)),
{
    let ghost sv = string_views(v@);
    let dot = vec!['.'];
    let slash = vec!['/'];
    assert(dot@ =~= seq!['.']);
    assert(slash@ =~= seq!['/']);
    let mut out: Vec<String> = Vec::new();
    let mut i: usize = 0;
    assert(sv.take(0) =~= Seq::<Seq<char>>::empty());
    while i < v.len()
        invariant
            i <= v@.len(),
            sv == string_views(v@),
            dot@ == seq!['.'],
            slash@ == seq!['/'],
            string_views(out@) == relative_specs(sv.take(i as int)),
        decreases v@.len() - i,
    {
        assert(sv.take(i + 1).drop_last() =~= sv.take(i as int));
        assert(sv.take(i + 1).last() == v@[i as int]@);
        let cs = chars_of(v[i].as_str());
        if crate::text::starts_with_exec(cs.as_slice(), dot.as_slice())
            || crate::text::starts_with_exec(cs.as_slice(), slash.as_slice()) {
            let ghost o0 = string_views(out@);
            out.push(owned(v[i].as_str()));
            assert(string_views(out@) =~= o0.push(v@[i as int]@));
        }
        i = i + 1;
    }
    assert(sv.take(v@.len() as int) =~= sv);
    out
}

fn list_item_export_exec(item: &Vec<char>, out: &mut Vec<String>)
    ensures
        string_views(final(out)@) == string_views(old(out)@) + list_item_export(item@),
{
    let t = crate::text::trim_exec(item.as_slice());
    let tp = vec!['t', 'y', 'p', 'e', ' '];
    let asp = vec![' ', 'a', 's', ' '];
    assert(tp@ =~= type_prefix());
    assert(asp@ =~= as_sep());
    let ghost o0 = string_views(out@);
    if t.len() == 0 || crate::text::starts_with_exec(t.as_slice(), tp.as_slice()) {
        assert(o0 + Seq::<Seq<char>>::empty() =~= o0);
        return;
    }
    match crate::text::find_from_exec(t.as_slice(), asp.as_slice(), 0) {
        Some(p) => {
            proof {
                crate::text::lemma_find_from_some(t@, asp@, 0);
            }
            let rest = crate::text::sub_chars(&t, p + 4, t.len());
            assert(rest@ =~= t@.skip(p + 4));
            let name = crate::text::trim_exec(rest.as_slice());
            out.push(string_of(&name));
            assert(string_views(out@) =~= o0 + seq![crate::text::trim(t@.skip(p + 4))]);
        },
        None => {
            out.push(string_of(&t));
            assert(string_views(out@) =~= o0 + seq![t@]);
        },
    }
}

fn export_lists_exec(lists: &Vec<String>, out: &mut Vec<String>)
    ensures
        string_views(final(out)@) == string_views(old(out)@) + export_lists(string_views(lists@)),
{
    let ghost lv = string_views(lists@);
    let ghost o0 = string_views(out@);
    let mut i: usize = 0;
    assert(lv.take(0) =~= Seq::<Seq<char>>::empty());
    assert(o0 + export_lists(lv.take(0)) =~= o0);
    while i < lists.len()
        invariant
            i <= lists@.len(),
            lv == string_views(lists@),
            o0 == string_views(old(out)@),
            string_views(out@) == o0 + export_lists(lv.take(i as int)),
        decreases lists@.len() - i,
    {
        assert(lv.take(i + 1).drop_last() =~= lv.take(i as int));
        assert(lv.take(i + 1).last() == lists@[i as int]@);
        let cs = chars_of(lists[i].as_str());
        let items = crate::text::split_char_exec(cs.as_slice(), ',');
        let ghost iv = crate::text::vec_views(items@);
        let ghost mid = string_views(out@);
        let mut j: usize = 0;
        assert(iv.take(0) =~= Seq::<Seq<char>>::empty());
        assert(mid + list_exports(iv.take(0)) =~= mid);
        while j < items.len()
            invariant
                j <= items@.len(),
                iv == crate::text::vec_views(items@),
                string_views(out@) == mid + list_exports(iv.take(j as int)),
            decreases items@.len() - j,
        {
            assert(iv.take(j + 1).drop_last() =~= iv.take(j as int));
            assert(iv.take(j + 1).last() == items@[j as int]@);
            list_item_export_exec(&items[j], out);
            proof {
                assert(mid + list_exports(iv.take(j + 1)) =~= mid + list_exports(iv.take(j as int))
                    + list_item_export(items@[j as int]@));
            }
            j = j + 1;
        }
        assert(iv.take(items@.len() as int) =~= iv);
        proof {
            assert(o0 + export_lists(lv.take(i + 1)) =~= o0 + export_lists(lv.take(i as int))
                + list_exports(crate::text::split_char(lists@[i as int]@, ',')));
        }
        i = i + 1;
    }
    assert(lv.take(lists@.len() as int) =~= lv);
}

/// Extract imports, exports, and detect module system from source code.
/// Local specifiers are resolved with `resolver` from the module's directory;
/// what it finds depends on the file system, so the imports are stated for
/// whatever it found: the found paths outside `node_modules`, in order.
pub fn analyze_module(source: &str, mod_path: &str, resolver: &ModuleResolver) -> (r: Result<ModuleAnalysis, String>)
    ensures
        r is Ok <==> all_patterns_compile(),
        r matches Ok(a) ==> {
            &&& string_views(a.exports@) == module_exports_of(source@)
            &&& a.is_commonjs == module_is_commonjs(source@)
            &&& exists|outcomes: Seq<Option<Seq<char>>>|
                outcomes.len() == import_specifiers(source@).len()
                    && #[trigger] kept_imports(outcomes) == string_views(a.imports@)
        },
{
    let resolve = |d: String, s: String| -> (o: Option<String>) { resolver.resolve(d.as_str(), s.as_str()) };
    analyze_module_with(source, mod_path, &resolve)
}

/// Extract imports, exports, and detect module system from source code,
/// resolving local specifiers with `resolve`: each specifier of
/// `import_specifiers`, in order, is asked from `import_dir(mod_path)`, and
/// the imports are the found paths outside `node_modules`, in order.
pub fn analyze_module_with<F: Fn(String, String) -> Option<String>>(
    source: &str,
    mod_path: &str,
    resolve: &F,
) -> (r: Result<ModuleAnalysis, String>)
    requires
        forall|a: String, b: String| call_requires(*resolve, (a, b)),
    ensures
        r is Ok <==> all_patterns_compile(),
        r matches Ok(a) ==> {
            &&& string_views(a.exports@) == module_exports_of(source@)
            &&& a.is_commonjs == module_is_commonjs(source@)
            &&& exists|outcomes: Seq<Option<Seq<char>>>|
                #[trigger] resolutions_ok(*resolve, import_dir(mod_path@), import_specifiers(source@), outcomes)
                    && kept_imports(outcomes) == string_views(a.imports@)
        },
{
    let import_re = Pattern::new("(?:import|export)\\s+(?:[\\s\\S]*?from\\s+)?['\"]([^'\"]+)['\"]");
    let require_re = Pattern::new("require\\s*\\(\\s*['\"]([^'\"]+)['\"]\\s*\\)");
    let module_exports_re = Pattern::new("module\\.exports\\s*[=.]");
    let exports_dot_re = Pattern::new("exports\\.(\\w+)\\s*=");
    let export_default_re = Pattern::new("export\\s+default\\s+");
    let export_named_re = Pattern::new("export\\s+(?:const|let|var|function|class|async\\s+function)\\s+(\\w+)");
    let export_list_re = Pattern::new("export\\s*\\{([^}]+)\\}");
    let (import_re, require_re, module_exports_re, exports_dot_re, export_default_re, export_named_re, export_list_re) =
        match (import_re, require_re, module_exports_re, exports_dot_re, export_default_re, export_named_re, export_list_re) {
        (Some(a), Some(b), Some(c), Some(d), Some(e), Some(f), Some(g)) => (a, b, c, d, e, f, g),
        _ => {
            return Err(owned("invalid module analysis pattern"));
        },
    };
    let parent_dir = match crate::paths::path_parent(mod_path) {
        Some(p) => p,
        None => owned("."),
    };
    let ghost dir = import_dir(mod_path@);
    assert(parent_dir@ == dir);
    // Extract imports
    let import_specs = relative_filter(&somes_exec(import_re.group_matches(source, 1)));
    let require_specs = relative_filter(&somes_exec(require_re.group_matches(source, 1)));
    let mut specs = import_specs;
    let mut tail = require_specs;
    let ghost sa = string_views(specs@);
    let ghost sb = string_views(tail@);
    specs.append(&mut tail);
    assert(string_views(specs@) =~= sa + sb);
    let ghost sv = string_views(specs@);
    let nm = vec!['n', 'o', 'd', 'e', '_', 'm', 'o', 'd', 'u', 'l', 'e', 's'];
    assert(nm@ =~= node_modules_text());
    let mut imports: Vec<String> = Vec::new();
    let ghost mut outcomes: Seq<Option<Seq<char>>> = seq![];
    let mut i: usize = 0;
    while i < specs.len()
        invariant
            i <= specs@.len(),
            sv == string_views(specs@),
            nm@ == node_modules_text(),
            outcomes.len() == i,
            kept_imports(outcomes) == string_views(imports@),
            parent_dir@ == dir,
            forall|a: String, b: String| call_requires(*resolve, (a, b)),
            forall|k: int| 0 <= k < i ==> resolve_ok(*resolve, dir, sv[k], #[trigger] outcomes[k]),
        decreases specs@.len() - i,
    {
        let d = owned(parent_dir.as_str());
        let sp = owned(specs[i].as_str());
        let ghost gd = d;
        let ghost gs = sp;
        let res = resolve(d, sp);
        let ghost o0 = outcomes;
        proof {
            assert(resolve_ok(*resolve, dir, sv[i as int], crate::externals::opt_view(res))) by {
                assert(call_ensures(*resolve, (gd, gs), res));
            }
            outcomes = outcomes.push(crate::externals::opt_view(res));
            assert(outcomes.drop_last() =~= o0);
            assert forall|k: int| 0 <= k < i + 1 implies resolve_ok(*resolve, dir, sv[k], #[trigger] outcomes[k]) by {
                if k < i {
                    assert(outcomes[k] == o0[k]);
                }
            }
        }
        match res {
            Some(p) => {
                let pc = chars_of(p.as_str());
                let found = crate::text::find_from_exec(pc.as_slice(), nm.as_slice(), 0);
                proof {
                    crate::text::lemma_find_from_some(pc@, nm@, 0);
                    if let Some(x) = crate::text::find_from(pc@, nm@, 0) {
                        assert(crate::text::occurs_at(pc@, nm@, x));
                    }
                }
                if found.is_none() {
                    let ghost m0 = string_views(imports@);
                    imports.push(p);
                    assert(string_views(imports@) =~= m0.push(pc@));
                }
            },
            None => {},
        }
        i = i + 1;
    }
    // Detect CommonJS
    let cjs_names = exports_dot_re.group_matches(source, 1);
    let is_commonjs = module_exports_re.is_match(source) || cjs_names.len() > 0;
    let ghost cjs_view = opt_views(cjs_names@);
    let mut exports = somes_exec(cjs_names);
    // Extract ESM exports
    if export_default_re.is_match(source) {
        let ghost e0 = string_views(exports@);
        exports.push(owned("default"));
        proof {
            reveal_strlit("default");
            assert("default"@ =~= seq!['d', 'e', 'f', 'a', 'u', 'l', 't']);
        }
        assert(string_views(exports@) =~= e0 + seq![seq!['d', 'e', 'f', 'a', 'u', 'l', 't']]);
    } else {
        assert(string_views(exports@) =~= string_views(exports@) + Seq::<Seq<char>>::empty());
    }
    let ghost e1 = string_views(exports@);
    let mut named = somes_exec(export_named_re.group_matches(source, 1));
    let ghost nv = string_views(named@);
    exports.append(&mut named);
    assert(string_views(exports@) =~= e1 + nv);
    let lists = somes_exec(export_list_re.group_matches(source, 1));
    export_lists_exec(&lists, &mut exports);
    assert(cjs_view.len() == cjs_names@.len());
    assert(resolutions_ok(*resolve, import_dir(mod_path@), import_specifiers(source@), outcomes));
    Ok(ModuleAnalysis { imports, exports, is_commonjs })
}

} // verus!
