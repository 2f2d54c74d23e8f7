//! The ESM to CommonJS transform of one module: each top-level import or export
//! statement is replaced by code for the bundle's module system, then Vite's
//! `import.meta` accesses are rewritten.
use vstd::prelude::*;
use crate::externals::{get_global_name, global_name, is_external_module, is_external_spec};
use crate::module_items::{
    DefaultKind, DefaultKindView, ExportBinding, ExportBindingView, ImportBinding, ImportBindingView,
    export_binding_views, binding_views,
};
use crate::text::{join, join_exec, owned, string_views};

verus! {

/// The local name of the last default binding.
pub open spec fn last_default(bs: Seq<ImportBindingView>) -> Option<Seq<char>>
    decreases bs.len(),
{
    if bs.len() == 0 {
        None
    } else {
        match bs.last() {
            ImportBindingView::Default(l) => Some(l),
            _ => last_default(bs.drop_last()),
        }
    }
}

/// The local name of the last namespace binding.
pub open spec fn last_namespace(bs: Seq<ImportBindingView>) -> Option<Seq<char>>
    decreases bs.len(),
{
    if bs.len() == 0 {
        None
    } else {
        match bs.last() {
            ImportBindingView::Namespace(l) => Some(l),
            _ => last_namespace(bs.drop_last()),
        }
    }
}

/// The named bindings, in order, as (local, imported) pairs.
pub open spec fn named_pairs(bs: Seq<ImportBindingView>) -> Seq<(Seq<char>, Seq<char>)>
    decreases bs.len(),
{
    if bs.len() == 0 {
        seq![]
    } else {
        match bs.last() {
            ImportBindingView::Named { local, imported } => named_pairs(bs.drop_last()).push((local, imported)),
            _ => named_pairs(bs.drop_last()),
        }
    }
}

/// One entry of a destructuring pattern: `local`, or `imported: local` when they differ.
pub open spec fn destructure_item(p: (Seq<char>, Seq<char>)) -> Seq<char> {
    if p.0 == p.1 {
        p.0
    } else {
        p.1 + ": "@ + p.0
    }
}

pub open spec fn destructure_list(named: Seq<(Seq<char>, Seq<char>)>) -> Seq<char> {
    join(named.map_values(|p: (Seq<char>, Seq<char>)| destructure_item(p)), ", "@)
}

/// The statements binding an external package's global for a default import
/// and named imports.
pub open spec fn external_import_parts(
    g: Seq<char>,
    def: Option<Seq<char>>,
    named: Seq<(Seq<char>, Seq<char>)>,
) -> Seq<Seq<char>> {
    let holder = "var __"@ + g + " = window."@ + g + " || {};"@;
    let p1 = match def {
        Some(d) => seq![holder, "var "@ + d + " = __"@ + g + ".default || __"@ + g + ";"@],
        None => seq![],
    };
    if named.len() == 0 {
        p1
    } else {
        p1 + (if def is None { seq![holder] } else { seq![] })
            + seq!["var { "@ + destructure_list(named) + " } = __"@ + g + ";"@]
    }
}

/// The statements requiring a local module into temporary `t` and binding a
/// default import and named imports from it.
pub open spec fn local_import_parts(
    t: Seq<char>,
    resolved: Seq<char>,
    def: Option<Seq<char>>,
    named: Seq<(Seq<char>, Seq<char>)>,
) -> Seq<Seq<char>> {
    let p0 = seq!["var "@ + t + " = require('"@ + resolved + "');"@];
    let p1 = match def {
        Some(d) => p0.push("var "@ + d + " = "@ + t + ".default || "@ + t + ";"@),
        None => p0,
    };
    if named.len() == 0 {
        p1
    } else {
        p1.push("var { "@ + destructure_list(named) + " } = "@ + t + ";"@)
    }
}

/// `_` for each character of `r` that is `/`, `.`, `-` or `@`.
pub open spec fn sanitize(r: Seq<char>) -> Seq<char> {
    r.map_values(|c: char| if c == '/' || c == '.' || c == '-' || c == '@' { '_' } else { c })
}

/// The temporary variable that holds a required local module.
pub open spec fn temp_var(resolved: Seq<char>) -> Seq<char> {
    "__mod_"@ + sanitize(resolved)
}

/// What an import with no bindings becomes.
pub open spec fn side_effect_text(spec: Seq<char>) -> Seq<char> {
    if is_external_spec(spec) {
        "/* external side-effect import */"@
    } else {
        "require('"@ + spec + "');"@
    }
}

/// What an import declaration becomes: nothing for a type-only import; a
/// `require` (local) or a comment (external) for a side-effect import; a
/// namespace import binds the whole module; otherwise the default and named
/// bindings are read from the package's global (external) or from the required
/// module (local, by its resolved path).
pub open spec fn import_text(
    spec: Seq<char>,
    is_type: bool,
    bindings: Option<Seq<ImportBindingView>>,
    resolved: Seq<char>,
) -> Seq<char> {
    if is_type {
        seq![]
    } else if bindings is None || bindings->0.len() == 0 {
        side_effect_text(spec)
    } else {
        let bs = bindings->0;
        let def = last_default(bs);
        let ns = last_namespace(bs);
        let named = named_pairs(bs);
        if is_external_spec(spec) {
            let g = global_name(spec);
            match ns {
                Some(n) => "var "@ + n + " = window."@ + g + " || {};"@,
                None => join(external_import_parts(g, def, named), " "@),
            }
        } else {
            match ns {
                Some(n) => "var "@ + n + " = require('"@ + resolved + "');"@,
                None => join(local_import_parts(temp_var(resolved), resolved, def, named), " "@),
            }
        }
    }
}

/// What `export * from 'm'` / `export * as name from 'm'` becomes.
pub open spec fn export_all_text(spec: Seq<char>, exported: Option<Seq<char>>, resolved: Seq<char>) -> Seq<char> {
    match exported {
        Some(name) => if is_external_spec(spec) {
            "module.exports."@ + name + " = window."@ + global_name(spec) + " || {};"@
        } else {
            "module.exports."@ + name + " = require('"@ + resolved + "');"@
        },
        None => if is_external_spec(spec) {
            "Object.assign(module.exports, window."@ + global_name(spec) + " || {});"@
        } else {
            "Object.assign(module.exports, require('"@ + resolved + "'));"@
        },
    }
}

/// What `export default <decl>` becomes, given the declaration's source text.
pub open spec fn default_text(decl: Seq<char>, kind: DefaultKindView) -> Seq<char> {
    match kind {
        DefaultKindView::Function(Some(n)) => decl + " module.exports.default = "@ + n + ";"@,
        DefaultKindView::Class(Some(n)) => decl + " module.exports.default = "@ + n + ";"@,
        _ => "module.exports.default = "@ + decl + ";"@,
    }
}

/// `export { a as b } from 'm'`: read each name from the module inside a function.
pub open spec fn reexport_text(spec: Seq<char>, specifiers: Seq<ExportBindingView>, resolved: Seq<char>) -> Seq<char> {
    let src = if is_external_spec(spec) {
        "window."@ + global_name(spec) + " || {}"@
    } else {
        "require('"@ + resolved + "')"@
    };
    "(function() { var __reexport = "@ + src + "; "@
        + join(specifiers.map_values(|b: ExportBindingView| "module.exports."@ + b.exported + " = __reexport."@ + b.local), "; "@)
        + " })();"@
}

/// `export { a as b }`: one assignment per specifier.
pub open spec fn export_list_text(specifiers: Seq<ExportBindingView>) -> Seq<char> {
    join(specifiers.map_values(|b: ExportBindingView| "module.exports."@ + b.exported + " = "@ + b.local + ";"@), " "@)
}

/// The names among the declared bindings that are plain identifiers.
pub open spec fn ident_names(names: Seq<Option<Seq<char>>>) -> Seq<Seq<char>>
    decreases names.len(),
{
    if names.len() == 0 {
        seq![]
    } else {
        match names.last() {
            Some(n) => ident_names(names.drop_last()).push(n),
            None => ident_names(names.drop_last()),
        }
    }
}

/// `export <declaration>`: the declaration, then an assignment per declared name.
pub open spec fn decl_export_text(decl: Seq<char>, names: Seq<Option<Seq<char>>>) -> Seq<char> {
    let ns = ident_names(names);
    if ns.len() == 0 {
        decl
    } else {
        decl + " "@ + join(ns.map_values(|n: Seq<char>| "module.exports."@ + n + " = "@ + n + ";"@), " "@)
    }
}

} // verus!

verus! {

pub open spec fn opt_binding_views(b: Option<Vec<ImportBinding>>) -> Option<Seq<ImportBindingView>> {
    match b {
        Some(v) => Some(binding_views(v@)),
        None => None,
    }
}

} // verus!

verus! {

fn sanitize_exec(r: &str) -> (out: String)
    ensures
        out@ == sanitize(r@),
{
    let cs = crate::text::chars_of(r);
    let mut v: Vec<char> = Vec::new();
    let mut i: usize = 0;
    while i < cs.len()
        invariant
            i <= cs@.len(),
            cs@ == r@,
            v@ == sanitize(cs@.take(i as int)),
        decreases cs@.len() - i,
    {
        let c = cs[i];
        if c == '/' || c == '.' || c == '-' || c == '@' {
            v.push('_');
        } else {
            v.push(c);
        }
        i = i + 1;
        assert(v@ =~= sanitize(cs@.take(i as int)));
    }
    assert(cs@.take(i as int) =~= cs@);
    crate::text::string_of(&v)
}

fn destructure_exec(named: &Vec<(String, String)>) -> (r: String)
    ensures
        r@ == destructure_list(pair_views(named@)),
{
    let mut items: Vec<String> = Vec::new();
    let mut i: usize = 0;
    while i < named.len()
        invariant
            i <= named@.len(),
            items@.len() == i,
            forall|j: int| 0 <= j < i ==> #[trigger] items@[j]@ == destructure_item(pair_views(named@)[j]),
        decreases named@.len() - i,
    {
        let (local, imported) = (&named[i].0, &named[i].1);
        if *local == *imported {
            items.push(owned(local.as_str()));
        } else {
            let mut t = owned(imported.as_str());
            t.append(": ");
            t.append(local.as_str());
            items.push(t);
        }
        i = i + 1;
    }
    let r = join_exec(&items, ", ");
    assert(string_views(items@) =~= pair_views(named@).map_values(|p: (Seq<char>, Seq<char>)| destructure_item(p)));
    r
}

pub open spec fn pair_views(v: Seq<(String, String)>) -> Seq<(Seq<char>, Seq<char>)> {
    v.map_values(|p: (String, String)| (p.0@, p.1@))
}

/// The last default binding, the last namespace binding and the named bindings.
fn split_bindings(bs: &Vec<ImportBinding>) -> (r: (Option<String>, Option<String>, Vec<(String, String)>))
    ensures
        crate::externals::opt_view(r.0) == last_default(binding_views(bs@)),
        crate::externals::opt_view(r.1) == last_namespace(binding_views(bs@)),
        pair_views(r.2@) == named_pairs(binding_views(bs@)),
{
    let mut def: Option<String> = None;
    let mut ns: Option<String> = None;
    let mut named: Vec<(String, String)> = Vec::new();
    let mut i: usize = 0;
    while i < bs.len()
        invariant
            i <= bs@.len(),
            crate::externals::opt_view(def) == last_default(binding_views(bs@.take(i as int))),
            crate::externals::opt_view(ns) == last_namespace(binding_views(bs@.take(i as int))),
            pair_views(named@) == named_pairs(binding_views(bs@.take(i as int))),
        decreases bs@.len() - i,
    {
        proof {
            let cur = binding_views(bs@.take(i + 1));
            assert(cur.drop_last() =~= binding_views(bs@.take(i as int)));
            assert(cur.last() == bs@[i as int]@);
        }
        match &bs[i] {
            ImportBinding::Default(l) => {
                def = Some(owned(l.as_str()));
            },
            ImportBinding::Namespace(l) => {
                ns = Some(owned(l.as_str()));
            },
            ImportBinding::Named { local, imported } => {
                named.push((owned(local.as_str()), owned(imported.as_str())));
                assert(pair_views(named@) =~= named_pairs(binding_views(bs@.take(i + 1))));
            },
        }
        i = i + 1;
    }
    assert(bs@.take(i as int) =~= bs@);
    (def, ns, named)
}

fn holder_exec(g: &str) -> (r: String)
    ensures
        r@ == "var __"@ + g@ + " = window."@ + g@ + " || {};"@,
{
    let mut t = owned("var __");
    t.append(g);
    t.append(" = window.");
    t.append(g);
    t.append(" || {};");
    t
}

/// What an import declaration becomes (see `import_text`).
pub fn transform_import_declaration(
    spec: &str,
    is_type: bool,
    bindings: &Option<Vec<ImportBinding>>,
    resolved: &str,
) -> (r: String)
    ensures
        r@ == import_text(spec@, is_type, opt_binding_views(*bindings), resolved@),
{
    if is_type {
        return String::new();
    }
    let bs = match bindings {
        Some(bs) if bs.len() > 0 => bs,
        _ => {
            if is_external_module(spec) {
                return owned("/* external side-effect import */");
            } else {
                let mut t = owned("require('");
                t.append(spec);
                t.append("');");
                return t;
            }
        },
    };
    let (def, ns, named) = split_bindings(bs);
    let ghost named_v = named_pairs(binding_views(bs@));
    if is_external_module(spec) {
        let g = get_global_name(spec);
        if let Some(n) = ns {
            let mut t = owned("var ");
            t.append(n.as_str());
            t.append(" = window.");
            t.append(g.as_str());
            t.append(" || {};");
            return t;
        }
        let mut parts: Vec<String> = Vec::new();
        if let Some(d) = &def {
            parts.push(holder_exec(g.as_str()));
            let mut t = owned("var ");
            t.append(d.as_str());
            t.append(" = __");
            t.append(g.as_str());
            t.append(".default || __");
            t.append(g.as_str());
            t.append(";");
            parts.push(t);
        }
        let ghost p1 = string_views(parts@);
        if named.len() > 0 {
            if def.is_none() {
                parts.push(holder_exec(g.as_str()));
            }
            let list = destructure_exec(&named);
            let mut t = owned("var { ");
            t.append(list.as_str());
            t.append(" } = __");
            t.append(g.as_str());
            t.append(";");
            parts.push(t);
        }
        proof {
            let dv = crate::externals::opt_view(def);
            assert(string_views(parts@) =~= external_import_parts(g@, dv, named_v));
        }
        join_exec(&parts, " ")
    } else {
        if let Some(n) = ns {
            let mut t = owned("var ");
            t.append(n.as_str());
            t.append(" = require('");
            t.append(resolved);
            t.append("');");
            return t;
        }
        let tv = {
            let mut t = owned("__mod_");
            let s = sanitize_exec(resolved);
            t.append(s.as_str());
            t
        };
        let mut parts: Vec<String> = Vec::new();
        let mut t0 = owned("var ");
        t0.append(tv.as_str());
        t0.append(" = require('");
        t0.append(resolved);
        t0.append("');");
        parts.push(t0);
        if let Some(d) = &def {
            let mut t = owned("var ");
            t.append(d.as_str());
            t.append(" = ");
            t.append(tv.as_str());
            t.append(".default || ");
            t.append(tv.as_str());
            t.append(";");
            parts.push(t);
        }
        if named.len() > 0 {
            let list = destructure_exec(&named);
            let mut t = owned("var { ");
            t.append(list.as_str());
            t.append(" } = ");
            t.append(tv.as_str());
            t.append(";");
            parts.push(t);
        }
        proof {
            let dv = crate::externals::opt_view(def);
            assert(string_views(parts@) =~= local_import_parts(temp_var(resolved@), resolved@, dv, named_v));
        }
        join_exec(&parts, " ")
    }
}

} // verus!

verus! {

/// What an `export * from` declaration becomes (see `export_all_text`).
pub fn export_all_replacement(spec: &str, exported: &Option<String>, resolved: &str) -> (r: String)
    ensures
        r@ == export_all_text(spec@, crate::externals::opt_view(*exported), resolved@),
{
    match exported {
        Some(name) => {
            let mut t = owned("module.exports.");
            t.append(name.as_str());
            if is_external_module(spec) {
                let g = get_global_name(spec);
                t.append(" = window.");
                t.append(g.as_str());
                t.append(" || {};");
            } else {
                t.append(" = require('");
                t.append(resolved);
                t.append("');");
            }
            t
        },
        None => {
            if is_external_module(spec) {
                let g = get_global_name(spec);
                let mut t = owned("Object.assign(module.exports, window.");
                t.append(g.as_str());
                t.append(" || {});");
                t
            } else {
                let mut t = owned("Object.assign(module.exports, require('");
                t.append(resolved);
                t.append("'));");
                t
            }
        },
    }
}

/// What an `export default` declaration becomes (see `default_text`).
pub fn transform_export_default(decl: &str, kind: &DefaultKind) -> (r: String)
    ensures
        r@ == default_text(decl@, kind@),
{
    let name = match kind {
        DefaultKind::Function(Some(n)) => Some(n),
        DefaultKind::Class(Some(n)) => Some(n),
        _ => None,
    };
    match name {
        Some(n) => {
            let mut t = owned(decl);
            t.append(" module.exports.default = ");
            t.append(n.as_str());
            t.append(";");
            t
        },
        None => {
            let mut t = owned("module.exports.default = ");
            t.append(decl);
            t.append(";");
            t
        },
    }
}

/// What `export { .. } from 'm'` becomes (see `reexport_text`).
pub fn reexport_replacement(spec: &str, specifiers: &Vec<ExportBinding>, resolved: &str) -> (r: String)
    ensures
        r@ == reexport_text(spec@, export_binding_views(specifiers@), resolved@),
{
    let mut src = String::new();
    if is_external_module(spec) {
        let g = get_global_name(spec);
        src.append("window.");
        src.append(g.as_str());
        src.append(" || {}");
    } else {
        src.append("require('");
        src.append(resolved);
        src.append("')");
    }
    let mut items: Vec<String> = Vec::new();
    let mut i: usize = 0;
    while i < specifiers.len()
        invariant
            i <= specifiers@.len(),
            items@.len() == i,
            forall|j: int| 0 <= j < i ==> #[trigger] items@[j]@ == "module.exports."@
                + specifiers@[j].exported@ + " = __reexport."@ + specifiers@[j].local@,
        decreases specifiers@.len() - i,
    {
        let mut t = owned("module.exports.");
        t.append(specifiers[i].exported.as_str());
        t.append(" = __reexport.");
        t.append(specifiers[i].local.as_str());
        items.push(t);
        i = i + 1;
    }
    let list = join_exec(&items, "; ");
    assert(string_views(items@) =~= export_binding_views(specifiers@).map_values(
        |b: ExportBindingView| "module.exports."@ + b.exported + " = __reexport."@ + b.local));
    let mut t = owned("(function() { var __reexport = ");
    t.append(src.as_str());
    t.append("; ");
    t.append(list.as_str());
    t.append(" })();");
    assert(src@ == if is_external_spec(spec@) {
        "window."@ + global_name(spec@) + " || {}"@
    } else {
        "require('"@ + resolved@ + "')"@
    });
    t
}

/// What `export { a as b }` becomes (see `export_list_text`).
pub fn export_list_replacement(specifiers: &Vec<ExportBinding>) -> (r: String)
    ensures
        r@ == export_list_text(export_binding_views(specifiers@)),
{
    let mut items: Vec<String> = Vec::new();
    let mut i: usize = 0;
    while i < specifiers.len()
        invariant
            i <= specifiers@.len(),
            items@.len() == i,
            forall|j: int| 0 <= j < i ==> #[trigger] items@[j]@ == "module.exports."@
                + specifiers@[j].exported@ + " = "@ + specifiers@[j].local@ + ";"@,
        decreases specifiers@.len() - i,
    {
        let mut t = owned("module.exports.");
        t.append(specifiers[i].exported.as_str());
        t.append(" = ");
        t.append(specifiers[i].local.as_str());
        t.append(";");
        items.push(t);
        i = i + 1;
    }
    assert(string_views(items@) =~= export_binding_views(specifiers@).map_values(
        |b: ExportBindingView| "module.exports."@ + b.exported + " = "@ + b.local + ";"@));
    join_exec(&items, " ")
}

/// What `export <declaration>` becomes (see `decl_export_text`).
pub fn decl_export_replacement(decl: &str, names: &Vec<Option<String>>) -> (r: String)
    ensures
        r@ == decl_export_text(decl@, crate::module_items::opt_views(names@)),
{
    let mut ids: Vec<String> = Vec::new();
    let mut i: usize = 0;
    while i < names.len()
        invariant
            i <= names@.len(),
            string_views(ids@) == ident_names(crate::module_items::opt_views(names@.take(i as int))),
        decreases names@.len() - i,
    {
        proof {
            let cur = crate::module_items::opt_views(names@.take(i + 1));
            assert(cur.drop_last() =~= crate::module_items::opt_views(names@.take(i as int)));
        }
        match &names[i] {
            Some(n) => {
                ids.push(owned(n.as_str()));
                assert(string_views(ids@) =~= ident_names(crate::module_items::opt_views(names@.take(i + 1))));
            },
            None => {},
        }
        i = i + 1;
    }
    assert(names@.take(i as int) =~= names@);
    if ids.len() == 0 {
        return owned(decl);
    }
    let mut items: Vec<String> = Vec::new();
    let mut k: usize = 0;
    while k < ids.len()
        invariant
            k <= ids@.len(),
            items@.len() == k,
            forall|j: int| 0 <= j < k ==> #[trigger] items@[j]@ == "module.exports."@ + ids@[j]@ + " = "@
                + ids@[j]@ + ";"@,
        decreases ids@.len() - k,
    {
        let mut t = owned("module.exports.");
        t.append(ids[k].as_str());
        t.append(" = ");
        t.append(ids[k].as_str());
        t.append(";");
        items.push(t);
        k = k + 1;
    }
    assert(string_views(items@) =~= string_views(ids@).map_values(
        |n: Seq<char>| "module.exports."@ + n + " = "@ + n + ";"@));
    let list = join_exec(&items, " ");
    let mut t = owned(decl);
    t.append(" ");
    t.append(list.as_str());
    t
}

} // verus!

verus! {

/// Bytes in the UTF-8 encoding of `c`.
pub open spec fn utf8_width(c: char) -> int {
    if (c as u32) < 0x80 {
        1
    } else if (c as u32) < 0x800 {
        2
    } else if (c as u32) < 0x10000 {
        3
    } else {
        4
    }
}

/// The index of the character that starts at byte offset `b` of the UTF-8
/// encoding of `s` (`s.len()` for the end), if `b` is a character boundary.
pub open spec fn char_at_byte(s: Seq<char>, b: int) -> Option<int>
    decreases s.len(),
{
    if b == 0 {
        Some(0)
    } else if b < 0 || s.len() == 0 {
        None
    } else {
        match char_at_byte(s.skip(1), b - utf8_width(s[0])) {
            Some(i) => Some(i + 1),
            None => None,
        }
    }
}

/// The character span of byte span `[start, end)`, when both ends are character
/// boundaries in order.
pub open spec fn char_span(code: Seq<char>, start: usize, end: usize) -> Option<(int, int)> {
    match (char_at_byte(code, start as int), char_at_byte(code, end as int)) {
        (Some(a), Some(b)) => if a <= b {
            Some((a, b))
        } else {
            None
        },
        _ => None,
    }
}

pub open spec fn shift(o: Option<int>, i: int) -> Option<int> {
    match o {
        Some(k) => Some(k + i),
        None => None,
    }
}

fn utf8_width_exec(c: char) -> (w: usize)
    ensures
        w == utf8_width(c),
{
    let u = c as u32;
    if u < 0x80 {
        1
    } else if u < 0x800 {
        2
    } else if u < 0x10000 {
        3
    } else {
        4
    }
}

/// The character index at byte offset `b`, if `b` is a character boundary.
pub fn char_index(cs: &[char], b: usize) -> (r: Option<usize>)
    ensures
        match r {
            Some(i) => char_at_byte(cs@, b as int) == Some(i as int),
            None => char_at_byte(cs@, b as int) is None,
        },
{
    let mut i: usize = 0;
    let mut rem: usize = b;
    assert(cs@.skip(0) =~= cs@);
    while rem > 0
        invariant
            i <= cs@.len(),
            char_at_byte(cs@, b as int) == shift(char_at_byte(cs@.skip(i as int), rem as int), i as int),
        decreases rem,
    {
        if i >= cs.len() {
            return None;
        }
        let w = utf8_width_exec(cs[i]);
        let ghost rest = cs@.skip(i as int);
        assert(rest.skip(1) =~= cs@.skip(i + 1));
        assert(rest[0] == cs@[i as int]);
        if w > rem {
            assert(char_at_byte(rest.skip(1), rem - w) is None);
            return None;
        }
        rem = rem - w;
        i = i + 1;
    }
    Some(i)
}

/// The specifier of an item that is resolved to a module path.
pub open spec fn resolved_specifier(item: crate::module_items::TopItemView) -> Option<Seq<char>> {
    match item {
        crate::module_items::TopItemView::Import { source, .. } => Some(source),
        crate::module_items::TopItemView::ExportAll { source, .. } => Some(source),
        crate::module_items::TopItemView::ExportNamed { is_type, source, specifiers, .. } =>
            if !is_type && source is Some && specifiers.len() > 0 { source } else { None },
        _ => None,
    }
}

/// What an `export { .. }` / `export <declaration>` becomes; `None` when the
/// declaration's span is not a character span of the code.
pub open spec fn named_text(
    code: Seq<char>,
    is_type: bool,
    source: Option<Seq<char>>,
    specifiers: Seq<ExportBindingView>,
    declaration: Option<crate::module_items::ExportedDeclView>,
    resolved: Seq<char>,
) -> Option<Seq<char>> {
    if is_type {
        Some(seq![])
    } else {
        match source {
            Some(spec) => if specifiers.len() == 0 {
                Some(seq![])
            } else {
                Some(reexport_text(spec, specifiers, resolved))
            },
            None => match declaration {
                Some(d) => match char_span(code, d.start, d.end) {
                    Some((a, b)) => Some(decl_export_text(code.subrange(a, b), d.names)),
                    None => None,
                },
                None => if specifiers.len() > 0 {
                    Some(export_list_text(specifiers))
                } else {
                    Some(seq![])
                },
            },
        }
    }
}

/// The edit for one top-level statement: its character span and replacement.
pub open spec fn item_edit(
    code: Seq<char>,
    item: crate::module_items::TopItemView,
    resolved: Seq<char>,
) -> Option<(int, int, Seq<char>)> {
    match item {
        crate::module_items::TopItemView::Import { start, end, source, is_type, bindings } =>
            match char_span(code, start, end) {
                Some((a, b)) => Some((a, b, import_text(source, is_type, bindings, resolved))),
                None => None,
            },
        crate::module_items::TopItemView::ExportAll { start, end, source, exported } =>
            match char_span(code, start, end) {
                Some((a, b)) => Some((a, b, export_all_text(source, exported, resolved))),
                None => None,
            },
        crate::module_items::TopItemView::ExportDefault { start, end, decl_start, decl_end, kind } =>
            match (char_span(code, start, end), char_span(code, decl_start, decl_end)) {
                (Some((a, b)), Some((c, d))) => Some((a, b, default_text(code.subrange(c, d), kind))),
                _ => None,
            },
        crate::module_items::TopItemView::ExportNamed { start, end, is_type, source, specifiers, declaration } =>
            match char_span(code, start, end) {
                Some((a, b)) => match named_text(code, is_type, source, specifiers, declaration, resolved) {
                    Some(t) => Some((a, b, t)),
                    None => None,
                },
                None => None,
            },
        crate::module_items::TopItemView::Other => None,
    }
}

pub open spec fn item_edits(
    code: Seq<char>,
    items: Seq<crate::module_items::TopItemView>,
    rs: Seq<Seq<char>>,
) -> Seq<Option<(int, int, Seq<char>)>> {
    Seq::new(items.len(), |k: int| item_edit(code, items[k], rs[k]))
}

/// One edit applied to `s`, when its span lies within `s`.
pub open spec fn apply_one(s: Seq<char>, e: Option<(int, int, Seq<char>)>) -> Seq<char> {
    match e {
        Some((a, b, r)) => if 0 <= a <= b <= s.len() {
            s.take(a) + r + s.skip(b)
        } else {
            s
        },
        None => s,
    }
}

/// The edits applied from the last statement to the first, so that earlier
/// spans still address unchanged text.
pub open spec fn apply_edits(s: Seq<char>, es: Seq<Option<(int, int, Seq<char>)>>) -> Seq<char>
    decreases es.len(),
{
    if es.len() == 0 {
        s
    } else {
        apply_edits(apply_one(s, es.last()), es.drop_last())
    }
}

} // verus!

verus! {

/// The pattern of Vite's `import.meta.env.NAME` accesses.
pub open spec fn env_var_pattern() -> Seq<char> {
    "import\\.meta\\.env\\.(\\w+)"@
}

/// Vite's `import.meta` accesses rewritten for the browser: the build flags
/// become constants, other `import.meta.env.NAME` read `window.ENV`, the whole
/// `import.meta.env` is `window.ENV`, and `import.meta.url` is the page URL.
pub open spec fn rewrite_import_meta(s: Seq<char>) -> Seq<char> {
    let s1 = crate::text::replace_all(s, "import.meta.env.DEV"@, "false"@);
    let s2 = crate::text::replace_all(s1, "import.meta.env.PROD"@, "true"@);
    let s3 = crate::text::replace_all(s2, "import.meta.env.SSR"@, "false"@);
    let s4 = crate::text::replace_all(s3, "import.meta.env.BASE_URL"@, "'/'"@);
    let s5 = crate::text::replace_all(s4, "import.meta.env.MODE"@, "'production'"@);
    let s6 = if crate::patterns::regex_compiles(env_var_pattern()) {
        crate::patterns::regex_replace_all(env_var_pattern(), s5, "(window.ENV && window.ENV.${1})"@)
    } else {
        s5
    };
    let s7 = crate::text::replace_all(s6, "import.meta.env"@, "(window.ENV || {})"@);
    crate::text::replace_all(s7, "import.meta.url"@, "window.location.href"@)
}

fn replace_lit(s: Vec<char>, p: &str, r: &str) -> (out: Vec<char>)
    requires
        p@.len() > 0,
    ensures
        out@ == crate::text::replace_all(s@, p@, r@),
{
    let pc = crate::text::chars_of(p);
    let rc = crate::text::chars_of(r);
    crate::text::replace_all_exec(s.as_slice(), pc.as_slice(), rc.as_slice())
}

/// Rewrites Vite's `import.meta` accesses (see `rewrite_import_meta`).
pub fn rewrite_import_meta_exec(s: &str) -> (out: String)
    ensures
        out@ == rewrite_import_meta(s@),
{
    proof {
        reveal_strlit("import.meta.env.DEV");
        reveal_strlit("import.meta.env.PROD");
        reveal_strlit("import.meta.env.SSR");
        reveal_strlit("import.meta.env.BASE_URL");
        reveal_strlit("import.meta.env.MODE");
        reveal_strlit("import.meta.env");
        reveal_strlit("import.meta.url");
    }
    let c0 = crate::text::chars_of(s);
    let c1 = replace_lit(c0, "import.meta.env.DEV", "false");
    let c2 = replace_lit(c1, "import.meta.env.PROD", "true");
    let c3 = replace_lit(c2, "import.meta.env.SSR", "false");
    let c4 = replace_lit(c3, "import.meta.env.BASE_URL", "'/'");
    let c5 = replace_lit(c4, "import.meta.env.MODE", "'production'");
    let s5 = crate::text::string_of(&c5);
    let s6 = match crate::patterns::Pattern::new("import\\.meta\\.env\\.(\\w+)") {
        Some(p) => p.replace_all(s5.as_str(), "(window.ENV && window.ENV.${1})"),
        None => s5,
    };
    let c6 = crate::text::chars_of(s6.as_str());
    let c7 = replace_lit(c6, "import.meta.env", "(window.ENV || {})");
    let c8 = replace_lit(c7, "import.meta.url", "window.location.href");
    crate::text::string_of(&c8)
}

pub open spec fn edit_view(e: Option<(usize, usize, String)>) -> Option<(int, int, Seq<char>)> {
    match e {
        Some((a, b, r)) => Some((a as int, b as int, r@)),
        None => None,
    }
}

fn slice_string(cs: &Vec<char>, a: usize, b: usize) -> (r: String)
    requires
        a <= b <= cs@.len(),
    ensures
        r@ == cs@.subrange(a as int, b as int),
{
    let mut v: Vec<char> = Vec::new();
    let mut i = a;
    while i < b
        invariant
            a <= i <= b <= cs@.len(),
            v@ == cs@.subrange(a as int, i as int),
        decreases b - i,
    {
        v.push(cs[i]);
        i = i + 1;
        assert(v@ =~= cs@.subrange(a as int, i as int));
    }
    crate::text::string_of(&v)
}

fn char_span_exec(cs: &Vec<char>, start: usize, end: usize) -> (r: Option<(usize, usize)>)
    ensures
        match r {
            Some((a, b)) => char_span(cs@, start, end) == Some((a as int, b as int)) && b <= cs@.len(),
            None => char_span(cs@, start, end) is None,
        },
{
    match (char_index(cs.as_slice(), start), char_index(cs.as_slice(), end)) {
        (Some(a), Some(b)) => {
            proof {
                lemma_char_at_byte_bound(cs@, end as int);
            }
            if a <= b {
                Some((a, b))
            } else {
                None
            }
        },
        _ => None,
    }
}

proof fn lemma_char_at_byte_bound(s: Seq<char>, b: int)
    ensures
        char_at_byte(s, b) matches Some(i) ==> 0 <= i <= s.len(),
    decreases s.len(),
{
    if b != 0 && b >= 0 && s.len() > 0 {
        lemma_char_at_byte_bound(s.skip(1), b - utf8_width(s[0]));
    }
}

/// The replacement of an `export { .. }` or `export <declaration>`
/// statement (see `named_text`): type-only exports vanish, re-exports read
/// the resolved module, declarations are kept and their names exported.
pub fn transform_export_named(
    cs: &Vec<char>,
    is_type: bool,
    source: &Option<String>,
    specifiers: &Vec<ExportBinding>,
    declaration: &Option<crate::module_items::ExportedDecl>,
    resolved: &str,
) -> (r: Option<String>)
    ensures
        match r {
            Some(t) => named_text(
                cs@,
                is_type,
                crate::externals::opt_view(*source),
                crate::module_items::export_binding_views(specifiers@),
                match declaration {
                    Some(d) => Some(d@),
                    None => None,
                },
                resolved@,
            ) == Some(t@),
            None => named_text(
                cs@,
                is_type,
                crate::externals::opt_view(*source),
                crate::module_items::export_binding_views(specifiers@),
                match declaration {
                    Some(d) => Some(d@),
                    None => None,
                },
                resolved@,
            ) is None,
        },
{
    if is_type {
        return Some(String::new());
    }
    match source {
        Some(spec) => {
            if specifiers.len() == 0 {
                Some(String::new())
            } else {
                Some(reexport_replacement(spec.as_str(), specifiers, resolved))
            }
        },
        None => match declaration {
            Some(d) => match char_span_exec(cs, d.start, d.end) {
                Some((c, e)) => {
                    let decl = slice_string(cs, c, e);
                    Some(decl_export_replacement(decl.as_str(), &d.names))
                },
                None => None,
            },
            None => {
                if specifiers.len() > 0 {
                    Some(export_list_replacement(specifiers))
                } else {
                    Some(String::new())
                }
            },
        },
    }
}

/// The edit for one top-level statement (see `item_edit`).
pub fn edit_for(cs: &Vec<char>, item: &crate::module_items::TopItem, resolved: &str) -> (r: Option<(usize, usize, String)>)
    ensures
        edit_view(r) == item_edit(cs@, item@, resolved@),
{
    match item {
        crate::module_items::TopItem::Import { start, end, source, is_type, bindings } => {
            match char_span_exec(cs, *start, *end) {
                Some((a, b)) => Some((a, b, transform_import_declaration(source.as_str(), *is_type, bindings, resolved))),
                None => None,
            }
        },
        crate::module_items::TopItem::ExportAll { start, end, source, exported } => {
            match char_span_exec(cs, *start, *end) {
                Some((a, b)) => Some((a, b, export_all_replacement(source.as_str(), exported, resolved))),
                None => None,
            }
        },
        crate::module_items::TopItem::ExportDefault { start, end, decl_start, decl_end, kind } => {
            match (char_span_exec(cs, *start, *end), char_span_exec(cs, *decl_start, *decl_end)) {
                (Some((a, b)), Some((c, d))) => {
                    let decl = slice_string(cs, c, d);
                    Some((a, b, transform_export_default(decl.as_str(), kind)))
                },
                _ => None,
            }
        },
        crate::module_items::TopItem::ExportNamed { start, end, is_type, source, specifiers, declaration } => {
            match char_span_exec(cs, *start, *end) {
                Some((a, b)) => match transform_export_named(cs, *is_type, source, specifiers, declaration, resolved) {
                    Some(t) => Some((a, b, t)),
                    None => None,
                },
                None => None,
            }
        },
        crate::module_items::TopItem::Other => None,
    }
}

} // verus!

verus! {

fn apply_one_exec(s: Vec<char>, e: &Option<(usize, usize, String)>) -> (out: Vec<char>)
    ensures
        out@ == apply_one(s@, edit_view(*e)),
{
    match e {
        Some((a, b, r)) => {
            if *a <= *b && *b <= s.len() {
                let rc = crate::text::chars_of(r.as_str());
                let mut out: Vec<char> = Vec::new();
                let mut i: usize = 0;
                while i < *a
                    invariant
                        i <= *a <= *b <= s@.len(),
                        out@ == s@.take(i as int),
                    decreases *a - i,
                {
                    out.push(s[i]);
                    i = i + 1;
                    assert(out@ =~= s@.take(i as int));
                }
                out.extend_from_slice(rc.as_slice());
                let mut j: usize = *b;
                while j < s.len()
                    invariant
                        *b <= j <= s@.len(),
                        out@ == s@.take(*a as int) + r@ + s@.subrange(*b as int, j as int),
                    decreases s@.len() - j,
                {
                    out.push(s[j]);
                    j = j + 1;
                    assert(out@ =~= s@.take(*a as int) + r@ + s@.subrange(*b as int, j as int));
                }
                assert(s@.subrange(*b as int, j as int) =~= s@.skip(*b as int));
                out
            } else {
                s
            }
        },
        None => s,
    }
}

pub open spec fn edit_views(es: Seq<Option<(usize, usize, String)>>) -> Seq<Option<(int, int, Seq<char>)>> {
    es.map_values(|e: Option<(usize, usize, String)>| edit_view(e))
}

fn apply_edits_exec(s: Vec<char>, es: &Vec<Option<(usize, usize, String)>>) -> (out: Vec<char>)
    ensures
        out@ == apply_edits(s@, edit_views(es@)),
{
    let mut cur = s;
    let mut k = es.len();
    assert(edit_views(es@).take(k as int) =~= edit_views(es@));
    while k > 0
        invariant
            k <= es@.len(),
            apply_edits(s@, edit_views(es@)) == apply_edits(cur@, edit_views(es@).take(k as int)),
        decreases k,
    {
        let ghost pre = edit_views(es@).take(k as int);
        assert(pre.drop_last() =~= edit_views(es@).take(k - 1));
        assert(pre.last() == edit_view(es@[k - 1]));
        cur = apply_one_exec(cur, &es[k - 1]);
        k = k - 1;
    }
    assert(edit_views(es@).take(0) =~= Seq::<Option<(int, int, Seq<char>)>>::empty());
    cur
}

/// The transformed module: every edit applied, then `import.meta` rewritten.
pub open spec fn transform_spec(
    code: Seq<char>,
    items: Seq<crate::module_items::TopItemView>,
    rs: Seq<Seq<char>>,
) -> Seq<char> {
    rewrite_import_meta(apply_edits(code, item_edits(code, items, rs)))
}

/// `rs` holds, for each statement that names a module to resolve, a resolution
/// of that specifier that `canon` allows.
pub open spec fn resolutions_ok<F: Fn(String) -> Option<String>>(
    items: Seq<crate::module_items::TopItemView>,
    rs: Seq<Seq<char>>,
    dir: Option<Seq<char>>,
    known: Set<Seq<char>>,
    canon: F,
) -> bool {
    &&& rs.len() == items.len()
    &&& forall|k: int| 0 <= k < items.len() ==> match resolved_specifier(#[trigger] items[k]) {
        Some(sp) => crate::resolution::resolution_ok(sp, dir, known, canon, rs[k]),
        None => true,
    }
}

/// Transform the parsed statements of a module into code for the bundle's
/// module system: each import/export statement is replaced by its CommonJS
/// form (module specifiers resolved against the registered modules `known`
/// from directory `current_dir`, with `canonical` giving canonical paths), then
/// `import.meta` accesses are rewritten.
pub fn transform_items<F: Fn(String) -> Option<String>>(
    code: &str,
    items: &Vec<crate::module_items::TopItem>,
    current_dir: Option<&str>,
    known: &Vec<String>,
    canonical: &F,
) -> (r: String)
    requires
        forall|a: String| call_requires(*canonical, (a,)),
    ensures
        exists|rs: Seq<Seq<char>>|
            #![trigger transform_spec(code@, crate::module_items::item_views(items@), rs)]
            resolutions_ok(
                crate::module_items::item_views(items@),
                rs,
                crate::resolution::opt_str(current_dir),
                crate::resolution::string_set(known@),
                *canonical,
            ) && r@ == transform_spec(code@, crate::module_items::item_views(items@), rs),
{
    let cs = crate::text::chars_of(code);
    let ghost iv = crate::module_items::item_views(items@);
    let ghost dir = crate::resolution::opt_str(current_dir);
    let ghost kn = crate::resolution::string_set(known@);
    let ghost mut rs: Seq<Seq<char>> = seq![];
    let mut es: Vec<Option<(usize, usize, String)>> = Vec::new();
    let mut k: usize = 0;
    while k < items.len()
        invariant
            k <= items@.len(),
            cs@ == code@,
            iv == crate::module_items::item_views(items@),
            dir == crate::resolution::opt_str(current_dir),
            kn == crate::resolution::string_set(known@),
            forall|a: String| call_requires(*canonical, (a,)),
            rs.len() == k,
            es@.len() == k,
            forall|j: int| 0 <= j < k ==> match resolved_specifier(#[trigger] iv[j]) {
                Some(sp) => crate::resolution::resolution_ok(sp, dir, kn, *canonical, rs[j]),
                None => true,
            },
            forall|j: int| 0 <= j < k ==> #[trigger] edit_view(es@[j]) == item_edit(code@, iv[j], rs[j]),
        decreases items@.len() - k,
    {
        let item = &items[k];
        let spec: Option<&String> = match item {
            crate::module_items::TopItem::Import { source, .. } => Some(source),
            crate::module_items::TopItem::ExportAll { source, .. } => Some(source),
            crate::module_items::TopItem::ExportNamed { is_type, source, specifiers, .. } => {
                if !*is_type && specifiers.len() > 0 {
                    match source {
                        Some(s) => Some(s),
                        None => None,
                    }
                } else {
                    None
                }
            },
            _ => None,
        };
        let resolved = match spec {
            Some(sp) => crate::resolution::resolve_module_path(sp.as_str(), current_dir, known, canonical),
            None => String::new(),
        };
        proof {
            assert(iv[k as int] == item@);
            match resolved_specifier(item@) {
                Some(sp) => {
                    assert(spec is Some && spec->0@ == sp);
                },
                None => {},
            }
        }
        let e = edit_for(&cs, item, resolved.as_str());
        proof {
            rs = rs.push(resolved@);
        }
        es.push(e);
        k = k + 1;
    }
    let applied = apply_edits_exec(cs, &es);
    proof {
        assert(edit_views(es@) =~= item_edits(code@, iv, rs));
    }
    let s = crate::text::string_of(&applied);
    let out = rewrite_import_meta_exec(s.as_str());
    proof {
        assert(resolutions_ok(iv, rs, dir, kn, *canonical));
        assert(out@ == transform_spec(code@, iv, rs));
    }
    out
}

/// The directory a module's relative imports are resolved from.
pub open spec fn module_dir(current_module_path: Option<&str>) -> Option<Seq<char>> {
    match current_module_path {
        Some(p) => crate::paths::std_path_parent(p@),
        None => None,
    }
}

/// `r` is the transformed module code: `code` itself when oxc reports parse
/// errors, otherwise the transform of its statements for some resolutions of
/// their specifiers that `canon` allows.
pub open spec fn transformed<F: Fn(String) -> Option<String>>(
    code: Seq<char>,
    dir: Option<Seq<char>>,
    known: Set<Seq<char>>,
    canon: F,
    r: Seq<char>,
) -> bool {
    match crate::module_items::oxc_top_items(code) {
        None => r == code,
        Some(items) => exists|rs: Seq<Seq<char>>|
            #![trigger transform_spec(code, items, rs)]
            resolutions_ok(items, rs, dir, known, canon) && r == transform_spec(code, items, rs),
    }
}

/// Transform module code to work with the bundle's module system: the code is
/// parsed with oxc and its statements transformed (see `transform_items`); when
/// the parser reports errors the code is returned unchanged. Relative imports
/// are resolved from the directory of `current_module_path` when it is given.
pub fn transform_module_code<F: Fn(String) -> Option<String>>(
    code: &str,
    current_module_path: Option<&str>,
    known: &Vec<String>,
    canonical: &F,
) -> (r: String)
    requires
        forall|a: String| call_requires(*canonical, (a,)),
    ensures
        transformed(code@, module_dir(current_module_path), crate::resolution::string_set(known@), *canonical, r@),
{
    let parsed = crate::module_items::parse_top_items(code);
    let items = match parsed {
        Some(items) => items,
        None => {
            return owned(code);
        },
    };
    assert(crate::module_items::oxc_top_items(code@) == Some(crate::module_items::item_views(items@)));
    let dir = match current_module_path {
        Some(p) => crate::paths::path_parent(p),
        None => None,
    };
    let dir_ref: Option<&str> = match &dir {
        Some(d) => Some(d.as_str()),
        None => None,
    };
    let r = transform_items(code, &items, dir_ref, known, canonical);
    proof {
        let iv = crate::module_items::item_views(items@);
        let d = module_dir(current_module_path);
        assert(crate::resolution::opt_str(dir_ref) == d);
        let kn = crate::resolution::string_set(known@);
        let rs = choose|rs: Seq<Seq<char>>|
            #![trigger transform_spec(code@, iv, rs)]
            resolutions_ok(iv, rs, crate::resolution::opt_str(dir_ref), kn, *canonical)
                && r@ == transform_spec(code@, iv, rs);
        assert(resolutions_ok(iv, rs, d, kn, *canonical) && r@ == transform_spec(code@, iv, rs));
        let items2 = crate::module_items::oxc_top_items(code@)->0;
        assert(items2 == iv);
        assert(transform_spec(code@, items2, rs) == transform_spec(code@, iv, rs));
        assert(resolutions_ok(items2, rs, d, kn, *canonical));
        assert(transformed(code@, d, kn, *canonical, r@));
    }
    r
}

} // verus!

verus! {

/// The text after Vite's build flags (`DEV`, `PROD`, `SSR`, `BASE_URL`,
/// `MODE`) have been replaced by constants.
pub open spec fn vite_flags_replaced(s: Seq<char>) -> Seq<char> {
    let s1 = crate::text::replace_all(s, "import.meta.env.DEV"@, "false"@);
    let s2 = crate::text::replace_all(s1, "import.meta.env.PROD"@, "true"@);
    let s3 = crate::text::replace_all(s2, "import.meta.env.SSR"@, "false"@);
    let s4 = crate::text::replace_all(s3, "import.meta.env.BASE_URL"@, "'/'"@);
    crate::text::replace_all(s4, "import.meta.env.MODE"@, "'production'"@)
}

/// The text after the remaining `import.meta.env` and `import.meta.url`
/// accesses have been replaced.
pub open spec fn vite_rest_replaced(s: Seq<char>) -> Seq<char> {
    let s7 = crate::text::replace_all(s, "import.meta.env"@, "(window.ENV || {})"@);
    crate::text::replace_all(s7, "import.meta.url"@, "window.location.href"@)
}

/// A replacement template reads capture group 1 as a member of `window.ENV`:
/// its only `$` reference is `${1}`, written right after `window.ENV.`.
pub open spec fn reads_window_env(tmpl: Seq<char>) -> bool {
    exists|pre: Seq<char>, post: Seq<char>|
        #![trigger pre + "${1}"@ + post]
        tmpl == pre + "${1}"@ + post && crate::text::ends_with(pre, "window.ENV."@)
            && !crate::text::contains_seq(pre, "$"@) && !crate::text::contains_seq(post, "$"@)
}

/// Vite environment accesses `import.meta.env.NAME` (other than the build
/// flags) are rewritten to read `window.ENV.NAME`: after the build flags are
/// replaced, every match of `import.meta.env.(\w+)` is replaced by a template
/// that reads the captured NAME from `window.ENV`.
pub proof fn law_env_access_reads_window_env(s: Seq<char>)
    requires
        crate::patterns::regex_compiles(env_var_pattern()),
    ensures
        exists|tmpl: Seq<char>|
            #![trigger crate::patterns::regex_replace_all(env_var_pattern(), vite_flags_replaced(s), tmpl)]
            reads_window_env(tmpl) && rewrite_import_meta(s) == vite_rest_replaced(
                crate::patterns::regex_replace_all(env_var_pattern(), vite_flags_replaced(s), tmpl),
            ),
{
    reveal_strlit("(window.ENV && window.ENV.${1})");
    reveal_strlit("(window.ENV && window.ENV.");
    reveal_strlit("${1}");
    reveal_strlit(")");
    reveal_strlit("window.ENV.");
    reveal_strlit("$");
    let tmpl = "(window.ENV && window.ENV.${1})"@;
    let pre = "(window.ENV && window.ENV."@;
    let post = ")"@;
    assert(tmpl =~= pre + "${1}"@ + post);
    assert(pre.subrange(pre.len() - 11, pre.len() as int) =~= "window.ENV."@);
    assert(!crate::text::contains_seq(pre, "$"@)) by {
        if crate::text::contains_seq(pre, "$"@) {
            let i = choose|i: int| crate::text::occurs_at(pre, "$"@, i);
            assert(pre.subrange(i, i + 1)[0] == pre[i]);
        }
    }
    assert(!crate::text::contains_seq(post, "$"@)) by {
        if crate::text::contains_seq(post, "$"@) {
            let i = choose|i: int| crate::text::occurs_at(post, "$"@, i);
            assert(post.subrange(i, i + 1)[0] == post[i]);
        }
    }
    assert(reads_window_env(tmpl));
    assert(rewrite_import_meta(s) == vite_rest_replaced(
        crate::patterns::regex_replace_all(env_var_pattern(), vite_flags_replaced(s), tmpl),
    ));
}

} // verus!
