//! Compilation options and stub TypeScript declaration (.d.ts) generation.
use vstd::prelude::*;
use crate::text::{
    chars_eq, chars_of, find_from, find_from_exec, join, join_exec, lines, lines_exec, starts_with,
    starts_with_exec, string_of, string_views, trim, trim_exec,
};

verus! {

/// ES version targets.
#[derive(Debug, Clone, Copy, PartialEq, Eq, Structural)]
pub enum EsTarget {
    Es5,
    Es2015,
    Es2016,
    Es2017,
    Es2018,
    Es2019,
    Es2020,
    Es2021,
    Es2022,
    EsNext,
}

impl Default for EsTarget {
    /// ES2020.
    fn default() -> (t: Self)
        ensures
            t == EsTarget::Es2020,
    {
        EsTarget::Es2020
    }
}

/// Options for TypeScript compilation.
#[derive(Debug, Clone, Copy)]
pub struct CompileOptions {
    /// Target ES version (default: ES2020)
    pub target: EsTarget,
    /// Enable JSX transformation
    pub jsx: bool,
    /// Use React automatic runtime (React 17+)
    pub jsx_automatic_runtime: bool,
    /// Generate source maps
    pub source_maps: bool,
    /// Module format (ESM)
    pub module: bool,
}

impl Default for CompileOptions {
    /// ES2020 and every flag off.
    fn default() -> (o: Self)
        ensures
            o.target == EsTarget::Es2020,
            !o.jsx && !o.jsx_automatic_runtime && !o.source_maps && !o.module,
    {
        CompileOptions {
            target: EsTarget::Es2020,
            jsx: false,
            jsx_automatic_runtime: false,
            source_maps: false,
            module: false,
        }
    }
}

/// Result of compiling a TypeScript file.
pub struct CompileResult {
    /// Generated JavaScript code
    pub code: String,
    /// Source map (if enabled)
    pub source_map: Option<String>,
}

/// The message of `compile_file`.
pub open spec fn native_unavailable_message() -> Seq<char> {
    "Native SWC compilation not yet available. Use --use-tsc flag for TypeScript compilation.\nNative compilation will be enabled once SWC version compatibility is resolved."@
}

/// Compile a single TypeScript/TSX file to JavaScript: native compilation is not
/// available, so this always fails, telling the caller to use tsc.
pub fn compile_file(source: &str, filename: &str, options: &CompileOptions) -> (r: Result<CompileResult, String>)
    ensures
        r matches Err(e) && e@ == native_unavailable_message(),
{
    Err(crate::text::owned(
        "Native SWC compilation not yet available. Use --use-tsc flag for TypeScript compilation.\nNative compilation will be enabled once SWC version compatibility is resolved.",
    ))
}

/// Directory entries skipped when copying sources or generating declarations:
/// hidden entries, node_modules, test and spec files, `__tests__`.
pub open spec fn skipped_entry(name: Seq<char>) -> bool {
    ||| starts_with(name, "."@)
    ||| name == "node_modules"@
    ||| crate::text::ends_with(name, ".test.ts"@)
    ||| crate::text::ends_with(name, ".test.tsx"@)
    ||| crate::text::ends_with(name, ".spec.ts"@)
    ||| crate::text::ends_with(name, ".spec.tsx"@)
    ||| name == "__tests__"@
}

/// Whether a directory entry is skipped (see `skipped_entry`).
pub fn is_skipped_entry(name: &str) -> (b: bool)
    ensures
        b == skipped_entry(name@),
{
    let n = chars_of(name);
    let dot = chars_of(".");
    starts_with_exec(n.as_slice(), dot.as_slice()) || crate::text::str_is(name, "node_modules")
        || crate::text::ends_with_exec(n.as_slice(), chars_of(".test.ts").as_slice())
        || crate::text::ends_with_exec(n.as_slice(), chars_of(".test.tsx").as_slice())
        || crate::text::ends_with_exec(n.as_slice(), chars_of(".spec.ts").as_slice())
        || crate::text::ends_with_exec(n.as_slice(), chars_of(".spec.tsx").as_slice())
        || crate::text::str_is(name, "__tests__")
}

/// The declaration a source line contributes, if any: type and interface
/// exports and re-exports pass through; `export const` becomes a declared
/// constant (with its annotated type, or `any`); an exported function becomes a
/// declared function taking and returning `any`.
pub open spec fn decl_line(line: Seq<char>) -> Option<Seq<char>> {
    let t = trim(line);
    if starts_with(t, "export type "@) || starts_with(t, "export interface "@) {
        Some(line)
    } else if starts_with(t, "export const "@) {
        match find_from(t, ":"@, 0) {
            Some(c) => match find_from(t, "="@, c + 1) {
                Some(e) => if 13 <= c {
                    Some("export declare const "@ + trim(t.subrange(13, c)) + ": "@ + trim(t.subrange(c + 1, e)) + ";"@)
                } else {
                    None
                },
                None => None,
            },
            None => match find_from(t, "="@, 0) {
                Some(e) => if 13 <= e {
                    Some("export declare const "@ + trim(t.subrange(13, e)) + ": any;"@)
                } else {
                    None
                },
                None => None,
            },
        }
    } else if starts_with(t, "export function "@) || starts_with(t, "export async function "@) {
        let fs: int = if starts_with(t, "export async"@) { 22 } else { 16 };
        match find_from(t, "("@, 0) {
            Some(p) => if fs <= p {
                Some("export declare function "@ + trim(t.subrange(fs, p)) + "(...args: any[]): any;"@)
            } else {
                None
            },
            None => None,
        }
    } else if starts_with(t, "export {"@) || starts_with(t, "export * from"@) {
        Some(line)
    } else {
        None
    }
}

/// The declarations of the lines, in order.
pub open spec fn decl_lines(ls: Seq<Seq<char>>) -> Seq<Seq<char>>
    decreases ls.len(),
{
    if ls.len() == 0 {
        seq![]
    } else {
        match decl_line(ls.last()) {
            Some(d) => decl_lines(ls.drop_last()).push(d),
            None => decl_lines(ls.drop_last()),
        }
    }
}

/// The stub declaration file for a source: its declarations one per line, or
/// `export {};` when there are none.
pub open spec fn declaration_file(source: Seq<char>) -> Seq<char> {
    let ds = decl_lines(lines(source));
    if ds.len() == 0 {
        "export {};\n"@
    } else {
        join(ds, "\n"@) + "\n"@
    }
}

} // verus!

verus! {


proof fn lemma_find_bound(s: Seq<char>, p: Seq<char>, from: int)
    requires
        0 <= from,
    ensures
        find_from(s, p, from) matches Some(i) ==> from <= i && i + p.len() <= s.len(),
{
    crate::text::lemma_find_from_some(s, p, from);
}

fn decl_line_exec(line: &Vec<char>) -> (r: Option<String>)
    ensures
        match r {
            Some(d) => decl_line(line@) == Some(d@),
            None => decl_line(line@) is None,
        },
{
    proof {
        reveal_strlit(":");
        reveal_strlit("=");
        reveal_strlit("(");
    }
    let t = trim_exec(line.as_slice());
    let ts = t.as_slice();
    if starts_with_exec(ts, chars_of("export type ").as_slice())
        || starts_with_exec(ts, chars_of("export interface ").as_slice()) {
        return Some(string_of(line));
    }
    if starts_with_exec(ts, chars_of("export const ").as_slice()) {
        let colon = chars_of(":");
        let eq = chars_of("=");
        proof {
            lemma_find_bound(t@, ":"@, 0);
        }
        match find_from_exec(ts, colon.as_slice(), 0) {
            Some(c) => {
                assert(":"@.len() == 1);
                assert(c < t.len());
                proof {
                    lemma_find_bound(t@, "="@, c + 1);
                }
                match find_from_exec(ts, eq.as_slice(), c + 1) {
                    Some(e) => {
                        if 13 <= c {
                            let name = trim_exec(crate::text::sub_chars(&t, 13, c).as_slice());
                            let ty = trim_exec(crate::text::sub_chars(&t, c + 1, e).as_slice());
                            let mut s = crate::text::owned("export declare const ");
                            s.append(string_of(&name).as_str());
                            s.append(": ");
                            s.append(string_of(&ty).as_str());
                            s.append(";");
                            return Some(s);
                        }
                        return None;
                    },
                    None => {
                        return None;
                    },
                }
            },
            None => {
                proof {
                    lemma_find_bound(t@, "="@, 0);
                }
                match find_from_exec(ts, eq.as_slice(), 0) {
                    Some(e) => {
                        if 13 <= e {
                            let name = trim_exec(crate::text::sub_chars(&t, 13, e).as_slice());
                            let mut s = crate::text::owned("export declare const ");
                            s.append(string_of(&name).as_str());
                            s.append(": any;");
                            return Some(s);
                        }
                        return None;
                    },
                    None => {
                        return None;
                    },
                }
            },
        }
    }
    if starts_with_exec(ts, chars_of("export function ").as_slice())
        || starts_with_exec(ts, chars_of("export async function ").as_slice()) {
        let fs: usize = if starts_with_exec(ts, chars_of("export async").as_slice()) { 22 } else { 16 };
        proof {
            lemma_find_bound(t@, "("@, 0);
        }
        match find_from_exec(ts, chars_of("(").as_slice(), 0) {
            Some(p) => {
                if fs <= p {
                    let name = trim_exec(crate::text::sub_chars(&t, fs, p).as_slice());
                    let mut s = crate::text::owned("export declare function ");
                    s.append(string_of(&name).as_str());
                    s.append("(...args: any[]): any;");
                    return Some(s);
                }
                return None;
            },
            None => {
                return None;
            },
        }
    }
    if starts_with_exec(ts, chars_of("export {").as_slice())
        || starts_with_exec(ts, chars_of("export * from").as_slice()) {
        return Some(string_of(line));
    }
    None
}

/// Extract exports and generate basic declaration content (see `declaration_file`).
pub fn extract_exports_for_declaration(source: &str) -> (r: String)
    ensures
        r@ == declaration_file(source@),
{
    let cs = chars_of(source);
    let ls = lines_exec(cs.as_slice());
    let ghost lv = ls@.map_values(|l: Vec<char>| l@);
    let mut ds: Vec<String> = Vec::new();
    let mut i: usize = 0;
    while i < ls.len()
        invariant
            i <= ls@.len(),
            lv == ls@.map_values(|l: Vec<char>| l@),
            string_views(ds@) == decl_lines(lv.take(i as int)),
        decreases ls@.len() - i,
    {
        proof {
            assert(lv.take(i + 1).drop_last() =~= lv.take(i as int));
            assert(lv.take(i + 1).last() == ls@[i as int]@);
        }
        match decl_line_exec(&ls[i]) {
            Some(d) => {
                ds.push(d);
                assert(string_views(ds@) =~= decl_lines(lv.take(i + 1)));
            },
            None => {},
        }
        i = i + 1;
    }
    assert(lv.take(i as int) =~= lv);
    if ds.len() == 0 {
        crate::text::owned("export {};\n")
    } else {
        let mut s = join_exec(&ds, "\n");
        s.append("\n");
        s
    }
}

} // verus!

verus! {

/// What a directory walk does with an entry.
#[derive(Debug, PartialEq, Eq, Structural)]
pub enum EntryAction {
    /// Leave it out.
    Skip,
    /// Walk into the directory.
    Descend,
    /// Copy the file as it is.
    Copy,
    /// Write a declaration file generated from the source.
    Generate,
}

/// Declaration generation: skipped entries are left out, directories walked,
/// `.d.ts` files copied, `.ts`/`.tsx` sources given a generated declaration.
pub open spec fn declaration_action(name: Seq<char>, is_dir: bool, is_file: bool, ext: Seq<char>) -> EntryAction {
    if skipped_entry(name) {
        EntryAction::Skip
    } else if is_dir {
        EntryAction::Descend
    } else if is_file {
        if crate::text::ends_with(name, ".d.ts"@) {
            EntryAction::Copy
        } else if ext == "ts"@ || ext == "tsx"@ {
            EntryAction::Generate
        } else {
            EntryAction::Skip
        }
    } else {
        EntryAction::Skip
    }
}

/// What declaration generation does with a directory entry (see
/// `declaration_action`); `ext` is the file's extension, empty when it has none.
pub fn declaration_entry_action(name: &str, is_dir: bool, is_file: bool, ext: &str) -> (a: EntryAction)
    ensures
        a == declaration_action(name@, is_dir, is_file, ext@),
{
    if is_skipped_entry(name) {
        EntryAction::Skip
    } else if is_dir {
        EntryAction::Descend
    } else if is_file {
        let n = chars_of(name);
        if crate::text::ends_with_exec(n.as_slice(), chars_of(".d.ts").as_slice()) {
            EntryAction::Copy
        } else if crate::text::str_is(ext, "ts") || crate::text::str_is(ext, "tsx") {
            EntryAction::Generate
        } else {
            EntryAction::Skip
        }
    } else {
        EntryAction::Skip
    }
}

/// Copying a TypeScript project: skipped entries are left out, directories
/// walked, sources, scripts, JSON and CSS copied.
pub open spec fn ts_copy_action(name: Seq<char>, is_dir: bool, is_file: bool, ext: Seq<char>) -> EntryAction {
    if skipped_entry(name) {
        EntryAction::Skip
    } else if is_dir {
        EntryAction::Descend
    } else if is_file && (ext == "ts"@ || ext == "tsx"@ || ext == "js"@ || ext == "jsx"@ || ext == "json"@
        || ext == "css"@) {
        EntryAction::Copy
    } else {
        EntryAction::Skip
    }
}

/// What copying a TypeScript project does with a directory entry (see
/// `ts_copy_action`).
pub fn ts_copy_entry_action(name: &str, is_dir: bool, is_file: bool, ext: &str) -> (a: EntryAction)
    ensures
        a == ts_copy_action(name@, is_dir, is_file, ext@),
{
    if is_skipped_entry(name) {
        EntryAction::Skip
    } else if is_dir {
        EntryAction::Descend
    } else if is_file && (crate::text::str_is(ext, "ts") || crate::text::str_is(ext, "tsx") || crate::text::str_is(
        ext,
        "js",
    ) || crate::text::str_is(ext, "jsx") || crate::text::str_is(ext, "json") || crate::text::str_is(ext, "css")) {
        EntryAction::Copy
    } else {
        EntryAction::Skip
    }
}

} // verus!

verus! {

proof fn lemma_trim_padded(x: Seq<char>)
    requires
        x.len() > 0,
        !crate::text::is_ws(x[0]),
        !crate::text::is_ws(x.last()),
    ensures
        trim(seq![' '] + x + seq![' ']) == x,
{
    let s = seq![' '] + x + seq![' '];
    assert(crate::text::is_ws(' '));
    crate::text::lemma_trim_start_skip(s, 1);
    assert(s.skip(1) =~= x + seq![' ']);
    let y = x + seq![' '];
    assert(y[0] == x[0]);
    assert(crate::text::trim_start(y) == y);
    crate::text::lemma_trim_end_take(y, x.len() as int);
    assert(y.take(x.len() as int) =~= x);
    assert(x.last() == x[x.len() - 1]);
}

/// An exported constant with an annotated type keeps that type in its
/// declaration: the line `export const NAME: TYPE = VALUE` (NAME without `:`,
/// TYPE without `=`, both without surrounding whitespace, VALUE ending in a
/// non-whitespace character) declares `export declare const NAME: TYPE;`.
pub proof fn law_const_declaration_keeps_type(name: Seq<char>, ty: Seq<char>, value: Seq<char>)
    requires
        name.len() > 0,
        !crate::text::is_ws(name[0]),
        !crate::text::is_ws(name.last()),
        forall|i: int| 0 <= i < name.len() ==> #[trigger] name[i] != ':',
        ty.len() > 0,
        !crate::text::is_ws(ty[0]),
        !crate::text::is_ws(ty.last()),
        forall|i: int| 0 <= i < ty.len() ==> #[trigger] ty[i] != '=',
        value.len() > 0,
        !crate::text::is_ws(value.last()),
    ensures
        decl_line("export const "@ + name + ": "@ + ty + " = "@ + value) == Some(
            "export declare const "@ + name + ": "@ + ty + ";"@,
        ),
{
    reveal_strlit("export const ");
    reveal_strlit(": ");
    reveal_strlit(" = ");
    reveal_strlit("export type ");
    reveal_strlit("export interface ");
    reveal_strlit(":");
    reveal_strlit("=");
    let ec = "export const "@;
    let line = ec + name + ": "@ + ty + " = "@ + value;
    let n = name.len() as int;
    let c = 13 + n;
    let e = c + 2 + ty.len() + 1;
    assert(line[0] == 'e');
    assert(line.last() == value.last());
    crate::text::lemma_trim_unchanged(line);
    let t = trim(line);
    assert(t == line);
    assert(!starts_with(t, "export type "@)) by {
        if starts_with(t, "export type "@) {
            assert(t.subrange(0, 12)[7] == t[7]);
            assert(t[7] == 'c');
        }
    }
    assert(!starts_with(t, "export interface "@)) by {
        if starts_with(t, "export interface "@) {
            assert(t.subrange(0, 17)[7] == t[7]);
            assert(t[7] == 'c');
        }
    }
    assert(t.subrange(0, 13) =~= "export const "@);
    assert(starts_with(t, "export const "@));
    // the first `:` follows the name
    assert(t.subrange(c, c + 1) =~= ":"@);
    assert forall|j: int| 0 <= j < c implies !crate::text::occurs_at(t, ":"@, j) by {
        if crate::text::occurs_at(t, ":"@, j) {
            assert(t.subrange(j, j + 1)[0] == t[j]);
            if j >= 13 {
                assert(t[j] == name[j - 13]);
            }
        }
    }
    crate::text::lemma_find_from_at(t, ":"@, 0, c);
    // the first `=` after it follows the type
    assert(t.subrange(e, e + 1) =~= "="@);
    assert forall|j: int| c + 1 <= j < e implies !crate::text::occurs_at(t, "="@, j) by {
        if crate::text::occurs_at(t, "="@, j) {
            assert(t.subrange(j, j + 1)[0] == t[j]);
            if c + 2 <= j < c + 2 + ty.len() {
                assert(t[j] == ty[j - c - 2]);
            }
        }
    }
    crate::text::lemma_find_from_at(t, "="@, c + 1, e);
    assert(t.subrange(13, c) =~= name);
    crate::text::lemma_trim_unchanged(name);
    assert(t.subrange(c + 1, e) =~= seq![' '] + ty + seq![' ']);
    lemma_trim_padded(ty);
}

} // verus!

verus! {

/// An exported function is declared by name, taking and returning `any`: the
/// line `export function NAME(REST` (NAME without `(` and without surrounding
/// whitespace, the line ending in a non-whitespace character) declares
/// `export declare function NAME(...args: any[]): any;`.
pub proof fn law_function_declaration(name: Seq<char>, rest: Seq<char>)
    requires
        name.len() > 0,
        !crate::text::is_ws(name[0]),
        !crate::text::is_ws(name.last()),
        forall|i: int| 0 <= i < name.len() ==> #[trigger] name[i] != '(',
        rest.len() > 0,
        !crate::text::is_ws(rest.last()),
    ensures
        decl_line("export function "@ + name + "("@ + rest) == Some(
            "export declare function "@ + name + "(...args: any[]): any;"@,
        ),
{
    reveal_strlit("export function ");
    reveal_strlit("(");
    reveal_strlit("export type ");
    reveal_strlit("export interface ");
    reveal_strlit("export const ");
    reveal_strlit("export async function ");
    reveal_strlit("export async");
    let line = "export function "@ + name + "("@ + rest;
    let p = 16 + name.len() as int;
    assert(line[0] == 'e');
    assert(line.last() == rest.last());
    crate::text::lemma_trim_unchanged(line);
    let t = trim(line);
    assert(t[7] == 'f');
    assert(!starts_with(t, "export type "@)) by {
        if starts_with(t, "export type "@) {
            assert(t.subrange(0, 12)[7] == t[7]);
        }
    }
    assert(!starts_with(t, "export interface "@)) by {
        if starts_with(t, "export interface "@) {
            assert(t.subrange(0, 17)[7] == t[7]);
        }
    }
    assert(!starts_with(t, "export const "@)) by {
        if starts_with(t, "export const "@) {
            assert(t.subrange(0, 13)[7] == t[7]);
        }
    }
    assert(!starts_with(t, "export async"@)) by {
        if starts_with(t, "export async"@) {
            assert(t.subrange(0, 12)[7] == t[7]);
        }
    }
    assert(t.subrange(0, 16) =~= "export function "@);
    assert(starts_with(t, "export function "@));
    assert(t.subrange(p, p + 1) =~= "("@);
    assert forall|j: int| 0 <= j < p implies !crate::text::occurs_at(t, "("@, j) by {
        if crate::text::occurs_at(t, "("@, j) {
            assert(t.subrange(j, j + 1)[0] == t[j]);
            if j >= 16 {
                assert(t[j] == name[j - 16]);
            }
        }
    }
    crate::text::lemma_find_from_at(t, "("@, 0, p);
    assert(t.subrange(16, p) =~= name);
    crate::text::lemma_trim_unchanged(name);
}

/// An exported constant without a type annotation is declared as `any`: the
/// line `export const NAME = VALUE` (NAME without `:` or `=` and without
/// surrounding whitespace, VALUE without `:` and ending in a non-whitespace
/// character) declares `export declare const NAME: any;`.
pub proof fn law_untyped_const_declaration(name: Seq<char>, value: Seq<char>)
    requires
        name.len() > 0,
        !crate::text::is_ws(name[0]),
        !crate::text::is_ws(name.last()),
        forall|i: int| 0 <= i < name.len() ==> #[trigger] name[i] != ':' && name[i] != '=',
        value.len() > 0,
        !crate::text::is_ws(value.last()),
        forall|i: int| 0 <= i < value.len() ==> #[trigger] value[i] != ':',
    ensures
        decl_line("export const "@ + name + " = "@ + value) == Some("export declare const "@ + name + ": any;"@),
{
    reveal_strlit("export const ");
    reveal_strlit(" = ");
    reveal_strlit("export type ");
    reveal_strlit("export interface ");
    reveal_strlit(":");
    reveal_strlit("=");
    let line = "export const "@ + name + " = "@ + value;
    let n = name.len() as int;
    let e = 13 + n + 1;
    assert(line[0] == 'e');
    assert(line.last() == value.last());
    crate::text::lemma_trim_unchanged(line);
    let t = trim(line);
    assert(t[7] == 'c');
    assert(!starts_with(t, "export type "@)) by {
        if starts_with(t, "export type "@) {
            assert(t.subrange(0, 12)[7] == t[7]);
        }
    }
    assert(!starts_with(t, "export interface "@)) by {
        if starts_with(t, "export interface "@) {
            assert(t.subrange(0, 17)[7] == t[7]);
        }
    }
    assert(t.subrange(0, 13) =~= "export const "@);
    assert forall|j: int| 0 <= j implies !crate::text::occurs_at(t, ":"@, j) by {
        if crate::text::occurs_at(t, ":"@, j) {
            assert(t.subrange(j, j + 1)[0] == t[j]);
            if 13 <= j < 13 + n {
                assert(t[j] == name[j - 13]);
            } else if j >= 13 + n + 3 {
                assert(t[j] == value[j - 13 - n - 3]);
            }
        }
    }
    crate::text::lemma_find_from_none(t, ":"@, 0);
    assert(t.subrange(e, e + 1) =~= "="@);
    assert forall|j: int| 0 <= j < e implies !crate::text::occurs_at(t, "="@, j) by {
        if crate::text::occurs_at(t, "="@, j) {
            assert(t.subrange(j, j + 1)[0] == t[j]);
            if 13 <= j < 13 + n {
                assert(t[j] == name[j - 13]);
            }
        }
    }
    crate::text::lemma_find_from_at(t, "="@, 0, e);
    assert(t.subrange(13, e) =~= name + seq![' ']);
    crate::text::lemma_trim_end_take(name + seq![' '], n);
    assert((name + seq![' ']).take(n) =~= name);
    assert((name + seq![' '])[0] == name[0]);
    assert(crate::text::trim_start(name + seq![' ']) == name + seq![' ']);
    crate::text::lemma_trim_unchanged(name);
    assert(crate::text::is_ws(' '));
}

} // verus!
