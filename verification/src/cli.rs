//! Command-line arguments of the tool, with paths held as strings.
use vstd::prelude::*;
use crate::paths::{path_join, std_path_join};
use crate::text::{chars_of, find_from, find_from_exec, occurs_at, owned, string_of};

verus! {

/// The parsed command line.
#[derive(Debug)]
pub struct Cli {
    pub command: Commands,
}

/// The subcommands.
#[derive(Debug)]
pub enum Commands {
    /// Resolve dependencies and generate deps.nix
    Resolve(ResolveArgs),
    /// Build node_modules from fetched tarballs
    Build(BuildArgs),
    /// Build a complete TypeScript project (node_modules + tsc + wrapper)
    BuildProject(BuildProjectArgs),
    /// Regenerate deps.nix and Cargo.nix for web projects
    Regen(RegenArgs),
    /// Update Cargo.lock for web-server
    CargoUpdate(CargoUpdateArgs),
    /// Build a TypeScript library (runs tsdown to produce dist/)
    BuildLibrary(BuildLibraryArgs),
    /// [Legacy] Link @pleme libraries into node_modules
    Link(LinkArgs),
    /// [Legacy] Build @pleme libraries
    BuildLibraries(BuildLibrariesArgs),
    /// [Legacy] Build node_modules from manifest
    BuildNodeModules(BuildNodeModulesArgs),
}

#[derive(Debug)]
pub struct ResolveArgs {
    /// Path to project root (containing package.json)
    pub project: String,
    /// Output path for deps.nix
    pub output: Option<String>,
    /// Include devDependencies
    pub include_dev: bool,
    /// npm registry URL
    pub registry: String,
    /// Target platform (linux, darwin)
    pub platform: String,
}

#[derive(Debug)]
pub struct BuildArgs {
    /// Path to manifest JSON file
    pub manifest: String,
    /// Output directory for node_modules
    pub output: String,
    /// Path to Node.js binary (for running postinstall scripts)
    pub node_bin: String,
}

/// Workspace source for building from source
#[derive(Debug)]
pub struct WorkspaceSrc {
    pub name: String,
    pub manifest: String,
    pub src: String,
}

#[derive(Debug)]
pub struct BuildProjectArgs {
    pub manifest: String,
    pub project: String,
    pub output: String,
    pub node_bin: String,
    pub cli_entry: Option<String>,
    pub bin_name: Option<String>,
    pub parent_tsconfig: Option<String>,
    /// Pre-built workspace dependencies: (name, path)
    pub workspace_dep: Vec<(String, String)>,
    pub workspace_src: Vec<WorkspaceSrc>,
    pub use_vite: bool,
}

#[derive(Debug)]
pub struct RegenArgs {
    pub project_root: String,
    pub crate2nix: String,
}

#[derive(Debug)]
pub struct CargoUpdateArgs {
    pub project_root: String,
    pub cargo: String,
}

#[derive(Debug)]
pub struct BuildLibraryArgs {
    pub manifest: String,
    pub src: String,
    pub output: String,
    pub node_bin: String,
}

#[derive(Debug)]
pub struct LinkArgs {
    pub libraries_dir: String,
    pub node_modules: String,
}

#[derive(Debug)]
pub struct BuildLibrariesArgs {
    pub libraries_dir: String,
    pub node_bin: String,
}

#[derive(Debug)]
pub struct BuildNodeModulesArgs {
    pub manifest: String,
    pub output: String,
    pub node_bin: String,
}

/// The error for a malformed `name=path` argument.
pub open spec fn workspace_dep_error(s: Seq<char>) -> Seq<char> {
    "Invalid workspace-dep format: '"@ + s + "'. Expected 'name=path'"@
}

/// The error for a malformed `name=manifest=srcPath` argument.
pub open spec fn workspace_src_error(s: Seq<char>) -> Seq<char> {
    "Invalid workspace-src format: '"@ + s + "'. Expected 'name=manifest=srcPath'"@
}

/// Parse workspace dependency argument "name=path": split at the first `=`.
pub fn parse_workspace_dep(s: &str) -> (r: Result<(String, String), String>)
    ensures
        match find_from(s@, "="@, 0) {
            Some(i) => r matches Ok((n, p)) && n@ == s@.take(i) && p@ == s@.skip(i + 1),
            None => r matches Err(e) && e@ == workspace_dep_error(s@),
        },
{
    let cs = chars_of(s);
    let eq = chars_of("=");
    proof {
        reveal_strlit("=");
        crate::text::lemma_find_from_some(s@, "="@, 0);
    }
    match find_from_exec(cs.as_slice(), eq.as_slice(), 0) {
        Some(i) => {
            assert(occurs_at(s@, "="@, i as int));
            assert("="@.len() == 1);
            assert(i < cs.len());
            let name = prefix(&cs, i);
            let path = suffix(&cs, i + 1);
            Ok((name, path))
        },
        None => {
            let mut e = owned("Invalid workspace-dep format: '");
            e.append(s);
            e.append("'. Expected 'name=path'");
            Err(e)
        },
    }
}

fn prefix(cs: &Vec<char>, i: usize) -> (r: String)
    requires
        i <= cs@.len(),
    ensures
        r@ == cs@.take(i as int),
{
    let mut v: Vec<char> = Vec::new();
    let mut k: usize = 0;
    while k < i
        invariant
            k <= i <= cs@.len(),
            v@ == cs@.take(k as int),
        decreases i - k,
    {
        v.push(cs[k]);
        k = k + 1;
        assert(v@ =~= cs@.take(k as int));
    }
    string_of(&v)
}

fn suffix(cs: &Vec<char>, i: usize) -> (r: String)
    requires
        i <= cs@.len(),
    ensures
        r@ == cs@.skip(i as int),
{
    let mut v: Vec<char> = Vec::new();
    let mut k: usize = i;
    while k < cs.len()
        invariant
            i <= k <= cs@.len(),
            v@ == cs@.subrange(i as int, k as int),
        decreases cs@.len() - k,
    {
        v.push(cs[k]);
        k = k + 1;
        assert(v@ =~= cs@.subrange(i as int, k as int));
    }
    assert(cs@.subrange(i as int, k as int) =~= cs@.skip(i as int));
    string_of(&v)
}

fn middle(cs: &Vec<char>, i: usize, j: usize) -> (r: String)
    requires
        i <= j <= cs@.len(),
    ensures
        r@ == cs@.subrange(i as int, j as int),
{
    let mut v: Vec<char> = Vec::new();
    let mut k: usize = i;
    while k < j
        invariant
            i <= k <= j <= cs@.len(),
            v@ == cs@.subrange(i as int, k as int),
        decreases j - k,
    {
        v.push(cs[k]);
        k = k + 1;
        assert(v@ =~= cs@.subrange(i as int, k as int));
    }
    string_of(&v)
}

/// Parse workspace source argument "name=manifest=srcPath": split at the first
/// two `=`; the source path keeps any further `=`.
pub fn parse_workspace_src(s: &str) -> (r: Result<WorkspaceSrc, String>)
    ensures
        match find_from(s@, "="@, 0) {
            Some(i) => match find_from(s@, "="@, i + 1) {
                Some(j) => r matches Ok(w) && w.name@ == s@.take(i) && w.manifest@ == s@.subrange(i + 1, j)
                    && w.src@ == s@.skip(j + 1),
                None => r matches Err(e) && e@ == workspace_src_error(s@),
            },
            None => r matches Err(e) && e@ == workspace_src_error(s@),
        },
{
    let cs = chars_of(s);
    let eq = chars_of("=");
    proof {
        reveal_strlit("=");
        crate::text::lemma_find_from_some(s@, "="@, 0);
    }
    let mut e = owned("Invalid workspace-src format: '");
    e.append(s);
    e.append("'. Expected 'name=manifest=srcPath'");
    match find_from_exec(cs.as_slice(), eq.as_slice(), 0) {
        Some(i) => {
            assert(occurs_at(s@, "="@, i as int));
            assert("="@.len() == 1);
            assert(i < cs.len());
            proof {
                crate::text::lemma_find_from_some(s@, "="@, i + 1);
            }
            match find_from_exec(cs.as_slice(), eq.as_slice(), i + 1) {
                Some(j) => {
                    assert(occurs_at(s@, "="@, j as int));
                    assert(j < cs.len());
                    Ok(WorkspaceSrc { name: prefix(&cs, i), manifest: middle(&cs, i + 1, j), src: suffix(&cs, j + 1) })
                },
                None => Err(e),
            }
        },
        None => Err(e),
    }
}

/// The resolve run that the regen command makes: the project's dependencies,
/// devDependencies included, from the public npm registry for Linux, written
/// to `deps.nix` in the project root.
pub fn regen_resolve_args(args: &RegenArgs) -> (r: ResolveArgs)
    ensures
        r.project@ == args.project_root@,
        r.output matches Some(o) && o@ == std_path_join(args.project_root@, "deps.nix"@),
        r.include_dev,
        r.registry@ == "https://registry.npmjs.org"@,
        r.platform@ == "linux"@,
{
    ResolveArgs {
        project: owned(args.project_root.as_str()),
        output: Some(path_join(args.project_root.as_str(), "deps.nix")),
        include_dev: true,
        registry: owned("https://registry.npmjs.org"),
        platform: owned("linux"),
    }
}

} // verus!
