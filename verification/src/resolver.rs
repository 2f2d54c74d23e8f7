//! npm registry resolution: the resolver's state, each of its steps, and the
//! deps.nix lockfile it writes. Fetching from the registry is left to the
//! caller, which hands the fetched metadata back.
use vstd::prelude::*;
use crate::text::{starts_with, chars_of, string_of, owned};
use crate::types::{NpmAlias, NpmVersionInfo};

verus! {

pub open spec fn npm_prefix() -> Seq<char> {
    seq!['n', 'p', 'm', ':']
}

/// Index of the last `c` in `s`.
pub open spec fn last_index_of(s: Seq<char>, c: char) -> Option<int>
    decreases s.len(),
{
    if s.len() == 0 {
        None
    } else if s.last() == c {
        Some(s.len() - 1)
    } else {
        last_index_of(s.drop_last(), c)
    }
}

/// The package and constraint an `npm:` alias names: split at the last `@`
/// that is not the first character, `*` when there is none.
pub open spec fn npm_alias_parts(c: Seq<char>) -> Option<(Seq<char>, Seq<char>)> {
    if !starts_with(c, npm_prefix()) {
        None
    } else {
        let rest = c.skip(4);
        match last_index_of(rest, '@') {
            Some(p) if p > 0 => Some((rest.take(p), rest.skip(p + 1))),
            _ => Some((rest, seq!['*'])),
        }
    }
}

proof fn lemma_last_index_bounds(s: Seq<char>, c: char)
    ensures
        last_index_of(s, c) matches Some(p) ==> 0 <= p < s.len() && s[p] == c
            && forall|j: int| p < j < s.len() ==> s[j] != c,
        last_index_of(s, c) is None ==> forall|j: int| 0 <= j < s.len() ==> s[j] != c,
    decreases s.len(),
{
    if s.len() > 0 && s.last() != c {
        lemma_last_index_bounds(s.drop_last(), c);
        assert(forall|j: int| 0 <= j < s.len() - 1 ==> s.drop_last()[j] == s[j]);
    }
}

fn last_index_exec(s: &Vec<char>, c: char) -> (r: Option<usize>)
    ensures
        match r {
            Some(p) => last_index_of(s@, c) == Some(p as int),
            None => last_index_of(s@, c) is None,
        },
{
    let mut i = s.len();
    assert(s@.take(s@.len() as int) =~= s@);
    while i > 0
        invariant
            i <= s@.len(),
            last_index_of(s@, c) == last_index_of(s@.take(i as int), c),
        decreases i,
    {
        let ghost t = s@.take(i as int);
        assert(t.drop_last() =~= s@.take(i - 1));
        if s[i - 1] == c {
            return Some(i - 1);
        }
        i = i - 1;
    }
    None
}

/// Parse npm alias: "npm:package@version".
pub fn parse_npm_alias(constraint: &str) -> (r: Option<NpmAlias>)
    ensures
        match r {
            Some(a) => npm_alias_parts(constraint@) == Some((a.target_package@, a.target_constraint@)),
            None => npm_alias_parts(constraint@) is None,
        },
{
    let cs = chars_of(constraint);
    let pre = vec!['n', 'p', 'm', ':'];
    assert(pre@ =~= npm_prefix());
    if !crate::text::starts_with_exec(cs.as_slice(), pre.as_slice()) {
        return None;
    }
    let rest = crate::text::sub_chars(&cs, 4, cs.len());
    assert(rest@ =~= cs@.skip(4));
    match last_index_exec(&rest, '@') {
        Some(p) => {
            if p > 0 {
                proof {
                    lemma_last_index_bounds(rest@, '@');
                }
                let package = crate::text::sub_chars(&rest, 0, p);
                let version = crate::text::sub_chars(&rest, p + 1, rest.len());
                assert(package@ =~= rest@.take(p as int));
                assert(version@ =~= rest@.skip(p + 1));
                return Some(NpmAlias { target_package: string_of(&package), target_constraint: string_of(&version) });
            }
        },
        None => {},
    }
    proof {
        reveal_strlit("*");
    }
    Some(NpmAlias { target_package: string_of(&rest), target_constraint: owned("*") })
}

/// An alias written as `npm:` + package + `@` + version, where the package is
/// not empty and has no `@` past its first character and the version has none,
/// is read back as that package and version.
pub proof fn law_npm_alias_round_trip(package: Seq<char>, version: Seq<char>)
    requires
        package.len() > 0,
        forall|j: int| 1 <= j < package.len() ==> package[j] != '@',
        forall|j: int| 0 <= j < version.len() ==> version[j] != '@',
    ensures
        npm_alias_parts(npm_prefix() + package + seq!['@'] + version) == Some((package, version)),
{
    let c = npm_prefix() + package + seq!['@'] + version;
    let rest = c.skip(4);
    assert(rest =~= package + seq!['@'] + version);
    assert(c.subrange(0, 4) =~= npm_prefix());
    lemma_last_index_bounds(rest, '@');
    let p = package.len() as int;
    assert(rest[p] == '@');
    match last_index_of(rest, '@') {
        Some(q) => {
            if q < p {
                assert(rest[p] != '@');
            }
            if q > p {
                assert(rest[q] == version[q - p - 1]);
            }
            assert(q == p);
            assert(rest.take(p) =~= package);
            assert(rest.skip(p + 1) =~= version);
        },
        None => {
            assert(rest[p] != '@');
        },
    }
}

pub open spec fn blocked_os(platform: Seq<char>) -> Seq<char> {
    seq!['!'] + platform
}

/// Whether a version's `os` list allows `platform`: not listed as blocked
/// (`!platform`), and, for a non-empty list, `platform` or some blocked entry
/// is listed.
pub open spec fn platform_compatible(os: Option<Seq<Seq<char>>>, platform: Seq<char>) -> bool {
    match os {
        None => true,
        Some(list) => {
            &&& !list.contains(blocked_os(platform))
            &&& (list.len() == 0 || exists|i: int|
                0 <= i < list.len() && (list[i] == platform || starts_with(#[trigger] list[i], seq!['!'])))
        },
    }
}

/// Check platform compatibility
pub fn is_platform_compatible(info: &NpmVersionInfo, platform: &str) -> (b: bool)
    ensures
        b == platform_compatible(info@.os, platform@),
{
    match &info.os {
        None => true,
        Some(list) => {
            let ghost lv = crate::text::string_views(list@);
            assert(info@.os == Some(lv));
            let pc = chars_of(platform);
            let mut blocked: Vec<char> = vec!['!'];
            blocked.extend_from_slice(pc.as_slice());
            assert(blocked@ =~= blocked_os(platform@));
            let bang = vec!['!'];
            assert(bang@ =~= seq!['!']);
            let mut i: usize = 0;
            let mut any_ok = false;
            while i < list.len()
                invariant
                    i <= list@.len(),
                    lv == crate::text::string_views(list@),
                    info@.os == Some(lv),
                    blocked@ == blocked_os(platform@),
                    pc@ == platform@,
                    bang@ == seq!['!'],
                    forall|j: int| 0 <= j < i ==> lv[j] != blocked_os(platform@),
                    any_ok == exists|j: int|
                        0 <= j < i && (lv[j] == platform@ || starts_with(#[trigger] lv[j], seq!['!'])),
                decreases list@.len() - i,
            {
                let os = chars_of(list[i].as_str());
                assert(lv[i as int] == os@);
                if crate::text::chars_eq(os.as_slice(), blocked.as_slice()) {
                    assert(lv.contains(blocked_os(platform@)));
                    assert(!platform_compatible(Some(lv), platform@));
                    return false;
                }
                if crate::text::chars_eq(os.as_slice(), pc.as_slice())
                    || crate::text::starts_with_exec(os.as_slice(), bang.as_slice()) {
                    any_ok = true;
                }
                i = i + 1;
            }
            assert(lv.len() == list@.len());
            list.len() == 0 || any_ok
        },
    }
}

} // verus!

verus! {

use std::collections::VecDeque;
use crate::types::{
    NpmPackageMetadata, NpmPackageMetadataView, ResolvedPackage, ResolvedPackageView,
    WorkspacePackageRef, WorkspacePackageRefView,
};

/// Resolution context/state. The registry client stays with the caller, which
/// fetches what `next_batch` asks for and hands it to `record_fetch_results`.
pub struct ResolutionContext {
    /// Registry URL
    pub registry: String,
    /// Target platform
    pub platform: String,
    /// Cache of fetched package metadata, by package name
    pub metadata_cache: Vec<(String, NpmPackageMetadata)>,
    /// Resolved packages: "name@version" -> ResolvedPackage
    pub resolved: Vec<(String, ResolvedPackage)>,
    /// Queue of packages to resolve: (name, version_constraint, is_optional)
    pub queue: VecDeque<(String, String, bool)>,
    /// Root dependencies (direct dependencies from package.json)
    pub root_deps: Vec<String>,
    /// Queue keys (`name@constraint`) of the direct dependencies of package.json
    pub root_requests: Vec<String>,
    /// Packages that failed to resolve: (name, constraint, error)
    pub failed: Vec<(String, String, String)>,
    /// Already queued "name@constraint" keys (to avoid duplicates)
    pub queued: Vec<String>,
    /// Workspace packages detected from file: dependencies
    pub workspace_packages: Vec<WorkspacePackageRef>,
}

/// The resolver's state as values.
pub struct ResolverState {
    pub registry: Seq<char>,
    pub platform: Seq<char>,
    pub cache: Seq<(Seq<char>, NpmPackageMetadataView)>,
    pub resolved: Seq<(Seq<char>, ResolvedPackageView)>,
    pub queue: Seq<(Seq<char>, Seq<char>, bool)>,
    pub root_deps: Seq<Seq<char>>,
    pub root_requests: Seq<Seq<char>>,
    pub failed: Seq<(Seq<char>, Seq<char>, Seq<char>)>,
    pub queued: Seq<Seq<char>>,
    pub workspace: Seq<WorkspacePackageRefView>,
}

pub open spec fn queue_view(q: Seq<(String, String, bool)>) -> Seq<(Seq<char>, Seq<char>, bool)> {
    q.map_values(|t: (String, String, bool)| (t.0@, t.1@, t.2))
}

pub open spec fn triple_views(v: Seq<(String, String, String)>) -> Seq<(Seq<char>, Seq<char>, Seq<char>)> {
    v.map_values(|t: (String, String, String)| (t.0@, t.1@, t.2@))
}

pub open spec fn cache_view(v: Seq<(String, NpmPackageMetadata)>) -> Seq<(Seq<char>, NpmPackageMetadataView)> {
    v.map_values(|e: (String, NpmPackageMetadata)| (e.0@, e.1@))
}

pub open spec fn resolved_view(v: Seq<(String, ResolvedPackage)>) -> Seq<(Seq<char>, ResolvedPackageView)> {
    v.map_values(|e: (String, ResolvedPackage)| (e.0@, e.1@))
}

pub open spec fn workspace_view(v: Seq<WorkspacePackageRef>) -> Seq<WorkspacePackageRefView> {
    v.map_values(|w: WorkspacePackageRef| w@)
}

impl View for ResolutionContext {
    type V = ResolverState;

    open spec fn view(&self) -> ResolverState {
        ResolverState {
            registry: self.registry@,
            platform: self.platform@,
            cache: cache_view(self.metadata_cache@),
            resolved: resolved_view(self.resolved@),
            queue: queue_view(self.queue@),
            root_deps: crate::text::string_views(self.root_deps@),
            root_requests: crate::text::string_views(self.root_requests@),
            failed: triple_views(self.failed@),
            queued: crate::text::string_views(self.queued@),
            workspace: workspace_view(self.workspace_packages@),
        }
    }
}

pub open spec fn cache_keys(c: Seq<(Seq<char>, NpmPackageMetadataView)>) -> Seq<Seq<char>> {
    c.map_values(|e: (Seq<char>, NpmPackageMetadataView)| e.0)
}

pub open spec fn resolved_keys(r: Seq<(Seq<char>, ResolvedPackageView)>) -> Seq<Seq<char>> {
    r.map_values(|e: (Seq<char>, ResolvedPackageView)| e.0)
}

/// What the resolver keeps true: no key twice among the queued keys, the
/// cached packages and the resolved packages (they stand for sets and maps).
pub open spec fn state_wf(st: ResolverState) -> bool {
    &&& st.queued.no_duplicates()
    &&& cache_keys(st.cache).no_duplicates()
    &&& resolved_keys(st.resolved).no_duplicates()
}

/// The queue key of a dependency: `name@constraint`.
pub open spec fn dep_key(name: Seq<char>, c: Seq<char>) -> Seq<char> {
    name + seq!['@'] + c
}

/// Constraints naming local packages: `workspace:`, `file:` and `link:`.
pub open spec fn is_local_spec(c: Seq<char>) -> bool {
    ||| starts_with(c, seq!['w', 'o', 'r', 'k', 's', 'p', 'a', 'c', 'e', ':'])
    ||| starts_with(c, seq!['f', 'i', 'l', 'e', ':'])
    ||| starts_with(c, seq!['l', 'i', 'n', 'k', ':'])
}

/// Queue a dependency: local ones are skipped; otherwise its key is returned,
/// and it is queued unless the key was queued before.
pub open spec fn queue_dep(st: ResolverState, name: Seq<char>, c: Seq<char>, opt: bool) -> (ResolverState, Option<Seq<char>>) {
    if is_local_spec(c) {
        (st, None)
    } else if st.queued.contains(dep_key(name, c)) {
        (st, Some(dep_key(name, c)))
    } else {
        (
            ResolverState {
                queue: st.queue.push((name, c, opt)),
                queued: st.queued.push(dep_key(name, c)),
                ..st
            },
            Some(dep_key(name, c)),
        )
    }
}

pub fn is_local_spec_exec(c: &Vec<char>) -> (b: bool)
    ensures
        b == is_local_spec(c@),
{
    let w = vec!['w', 'o', 'r', 'k', 's', 'p', 'a', 'c', 'e', ':'];
    let f = vec!['f', 'i', 'l', 'e', ':'];
    let l = vec!['l', 'i', 'n', 'k', ':'];
    assert(w@ =~= seq!['w', 'o', 'r', 'k', 's', 'p', 'a', 'c', 'e', ':']);
    assert(f@ =~= seq!['f', 'i', 'l', 'e', ':']);
    assert(l@ =~= seq!['l', 'i', 'n', 'k', ':']);
    crate::text::starts_with_exec(c.as_slice(), w.as_slice()) || crate::text::starts_with_exec(
        c.as_slice(),
        f.as_slice(),
    ) || crate::text::starts_with_exec(c.as_slice(), l.as_slice())
}

/// `name@constraint`.
pub fn dep_key_exec(name: &str, c: &str) -> (r: String)
    ensures
        r@ == dep_key(name@, c@),
{
    let mut s = owned(name);
    s.append("@");
    s.append(c);
    proof {
        reveal_strlit("@");
    }
    s
}

/// Whether `v` holds `s`.
pub fn has_string(v: &Vec<String>, s: &str) -> (b: bool)
    ensures
        b == crate::text::string_views(v@).contains(s@),
{
    let ghost sv = crate::text::string_views(v@);
    let sc = chars_of(s);
    let mut i: usize = 0;
    while i < v.len()
        invariant
            i <= v@.len(),
            sv == crate::text::string_views(v@),
            sc@ == s@,
            forall|j: int| 0 <= j < i ==> sv[j] != s@,
        decreases v@.len() - i,
    {
        let e = chars_of(v[i].as_str());
        assert(sv[i as int] == e@);
        if crate::text::chars_eq(e.as_slice(), sc.as_slice()) {
            assert(sv[i as int] == s@);
            return true;
        }
        i = i + 1;
    }
    false
}

impl ResolutionContext {
    /// An empty resolution state for `registry` and `platform`.
    pub fn new(registry: String, platform: String) -> (ctx: Self)
        ensures
            ctx@.registry == registry@,
            ctx@.platform == platform@,
            ctx@.cache.len() == 0,
            ctx@.resolved.len() == 0,
            ctx@.queue.len() == 0,
            ctx@.root_deps.len() == 0,
            ctx@.root_requests.len() == 0,
            ctx@.failed.len() == 0,
            ctx@.queued.len() == 0,
            ctx@.workspace.len() == 0,
            state_wf(ctx@),
    {
        let ctx = ResolutionContext {
            registry,
            platform,
            metadata_cache: Vec::new(),
            resolved: Vec::new(),
            queue: VecDeque::new(),
            root_deps: Vec::new(),
            root_requests: Vec::new(),
            failed: Vec::new(),
            queued: Vec::new(),
            workspace_packages: Vec::new(),
        };
        assert(cache_keys(ctx@.cache) =~= Seq::<Seq<char>>::empty());
        assert(resolved_keys(ctx@.resolved) =~= Seq::<Seq<char>>::empty());
        ctx
    }
}

/// Queue a dependency for resolution
pub fn queue_dependency(ctx: &mut ResolutionContext, name: &str, constraint: &str, is_optional: bool) -> (r: Option<String>)
    ensures
        (final(ctx)@, crate::externals::opt_view(r)) == queue_dep(old(ctx)@, name@, constraint@, is_optional),
        state_wf(old(ctx)@) ==> state_wf(final(ctx)@),
{
    let cc = chars_of(constraint);
    if is_local_spec_exec(&cc) {
        return None;
    }
    let key = dep_key_exec(name, constraint);
    if !has_string(&ctx.queued, key.as_str()) {
        let ghost q0 = ctx.queue@;
        let ghost k0 = ctx.queued@;
        ctx.queue.push_back((owned(name), owned(constraint), is_optional));
        ctx.queued.push(owned(key.as_str()));
        assert(queue_view(ctx.queue@) =~= queue_view(q0).push((name@, constraint@, is_optional)));
        assert(crate::text::string_views(ctx.queued@) =~= crate::text::string_views(k0).push(key@));
    }
    Some(key)
}

} // verus!

verus! {

use crate::versions::{
    version_req_source, semver_version_parses, semver_matches, semver_less, parse_version_req,
    parse_semver, constraint_matches, version_greater,
};
use crate::types::{NpmVersionInfoView, pair_views};

/// Whether some resolved package named `name` has a version that the
/// requirement `c` (as `parse_version_req` reads it) matches.
pub open spec fn satisfied(st: ResolverState, name: Seq<char>, c: Seq<char>) -> bool {
    match version_req_source(c) {
        None => false,
        Some(req) => exists|i: int|
            0 <= i < st.resolved.len() && #[trigger] st.resolved[i].1.pname == name
                && semver_version_parses(st.resolved[i].1.version)
                && semver_matches(req, st.resolved[i].1.version),
    }
}

/// Check if a version constraint is already satisfied
pub fn is_satisfied(ctx: &ResolutionContext, name: &str, constraint: &str) -> (b: bool)
    ensures
        b == satisfied(ctx@, name@, constraint@),
{
    let req = match parse_version_req(constraint) {
        Some(r) => r,
        None => {
            return false;
        },
    };
    let ghost rv = ctx@.resolved;
    let nc = chars_of(name);
    let mut i: usize = 0;
    while i < ctx.resolved.len()
        invariant
            i <= ctx.resolved@.len(),
            rv == ctx@.resolved,
            nc@ == name@,
            version_req_source(constraint@) == Some(req@),
            forall|j: int|
                0 <= j < i ==> !(#[trigger] rv[j].1.pname == name@ && semver_version_parses(rv[j].1.version)
                    && semver_matches(req@, rv[j].1.version)),
        decreases ctx.resolved@.len() - i,
    {
        let pkg = &ctx.resolved[i].1;
        assert(rv[i as int].1 == pkg@);
        let pn = chars_of(pkg.pname.as_str());
        if crate::text::chars_eq(pn.as_slice(), nc.as_slice()) {
            if let Some(v) = parse_semver(pkg.version.as_str()) {
                if constraint_matches(&req, &v) {
                    assert(rv[i as int].1.pname == name@);
                    assert(rv[i as int].1.version == v@);
                    return true;
                }
            }
        }
        i = i + 1;
    }
    false
}

/// Index of the first entry whose key is `k`.
pub open spec fn first_key_index<V>(entries: Seq<(Seq<char>, V)>, k: Seq<char>) -> Option<int>
    decreases entries.len(),
{
    if entries.len() == 0 {
        None
    } else {
        match first_key_index(entries.drop_last(), k) {
            Some(i) => Some(i),
            None => if entries.last().0 == k {
                Some(entries.len() - 1)
            } else {
                None
            },
        }
    }
}

pub proof fn lemma_first_key_index<V>(entries: Seq<(Seq<char>, V)>, k: Seq<char>)
    ensures
        first_key_index(entries, k) matches Some(i) ==> 0 <= i < entries.len() && entries[i].0 == k
            && forall|j: int| 0 <= j < i ==> entries[j].0 != k,
        first_key_index(entries, k) is None ==> forall|j: int| 0 <= j < entries.len() ==> entries[j].0 != k,
    decreases entries.len(),
{
    if entries.len() > 0 {
        lemma_first_key_index(entries.drop_last(), k);
        assert(forall|j: int| 0 <= j < entries.len() - 1 ==> entries.drop_last()[j] == entries[j]);
    }
}

/// The value stored under `k`, by the first entry with that key.
pub open spec fn lookup<V>(entries: Seq<(Seq<char>, V)>, k: Seq<char>) -> Option<V> {
    match first_key_index(entries, k) {
        Some(i) => Some(entries[i].1),
        None => None,
    }
}

/// Position of the first pair keyed `k` in a list of string pairs.
pub fn find_pair(v: &Vec<(String, String)>, k: &str) -> (r: Option<usize>)
    ensures
        match r {
            Some(i) => first_key_index(pair_views(v@), k@) == Some(i as int),
            None => first_key_index(pair_views(v@), k@) is None,
        },
{
    let ghost pv = pair_views(v@);
    let kc = chars_of(k);
    let mut i: usize = 0;
    proof {
        lemma_first_key_index(pv, k@);
    }
    while i < v.len()
        invariant
            i <= v@.len(),
            pv == pair_views(v@),
            kc@ == k@,
            forall|j: int| 0 <= j < i ==> pv[j].0 != k@,
            first_key_index(pv, k@) matches Some(x) ==> 0 <= x < pv.len() && pv[x].0 == k@
                && forall|j: int| 0 <= j < x ==> pv[j].0 != k@,
            first_key_index(pv, k@) is None ==> forall|j: int| 0 <= j < pv.len() ==> pv[j].0 != k@,
        decreases v@.len() - i,
    {
        let e = chars_of(v[i].0.as_str());
        assert(pv[i as int].0 == e@);
        if crate::text::chars_eq(e.as_slice(), kc.as_slice()) {
            return Some(i);
        }
        i = i + 1;
    }
    None
}

/// The index among `versions` of the best match for `req`: scanning in order,
/// a version that parses and matches replaces the best so far when it is
/// greater.
pub open spec fn best_match(versions: Seq<(Seq<char>, NpmVersionInfoView)>, req: Seq<char>, n: int) -> Option<int>
    decreases n,
{
    if n <= 0 {
        None
    } else {
        let b = best_match(versions, req, n - 1);
        let v = versions[n - 1].0;
        if semver_version_parses(v) && semver_matches(req, v) {
            match b {
                None => Some(n - 1),
                Some(bi) => if semver_less(versions[bi].0, v) {
                    Some(n - 1)
                } else {
                    b
                },
            }
        } else {
            b
        }
    }
}

pub open spec fn latest_tag() -> Seq<char> {
    seq!['l', 'a', 't', 'e', 's', 't']
}

/// The version `resolve_version` picks, as an index into `m.versions`: for
/// `latest` or `*` the `latest` dist-tag if there is one, else an explicit
/// dist-tag named by the constraint, else the best semver match.
pub open spec fn resolve_version_index(m: NpmPackageMetadataView, c: Seq<char>) -> Option<int> {
    if (c == latest_tag() || c == seq!['*']) && lookup(m.dist_tags, latest_tag()) is Some {
        first_key_index(m.versions, lookup(m.dist_tags, latest_tag())->0)
    } else if lookup(m.dist_tags, c) is Some {
        first_key_index(m.versions, lookup(m.dist_tags, c)->0)
    } else {
        match version_req_source(c) {
            None => None,
            Some(req) => best_match(m.versions, req, m.versions.len() as int),
        }
    }
}

/// The version index for `v` in a list of versions.
fn find_version(versions: &Vec<(String, NpmVersionInfo)>, k: &str) -> (r: Option<usize>)
    ensures
        match r {
            Some(i) => first_key_index(crate::types::version_entry_views(versions@), k@) == Some(i as int),
            None => first_key_index(crate::types::version_entry_views(versions@), k@) is None,
        },
{
    let ghost pv = crate::types::version_entry_views(versions@);
    let kc = chars_of(k);
    let mut i: usize = 0;
    proof {
        lemma_first_key_index(pv, k@);
    }
    while i < versions.len()
        invariant
            i <= versions@.len(),
            pv == crate::types::version_entry_views(versions@),
            kc@ == k@,
            forall|j: int| 0 <= j < i ==> pv[j].0 != k@,
            first_key_index(pv, k@) matches Some(x) ==> 0 <= x < pv.len() && pv[x].0 == k@
                && forall|j: int| 0 <= j < x ==> pv[j].0 != k@,
            first_key_index(pv, k@) is None ==> forall|j: int| 0 <= j < pv.len() ==> pv[j].0 != k@,
        decreases versions@.len() - i,
    {
        let e = chars_of(versions[i].0.as_str());
        assert(pv[i as int].0 == e@);
        if crate::text::chars_eq(e.as_slice(), kc.as_slice()) {
            return Some(i);
        }
        i = i + 1;
    }
    None
}

/// Resolve best matching version: the index of the chosen version in
/// `metadata.versions`. On the semver path the pick matches the requirement
/// and no matching version orders above it.
pub fn resolve_version(metadata: &NpmPackageMetadata, constraint: &str) -> (r: Option<usize>)
    ensures
        match r {
            Some(i) => resolve_version_index(metadata@, constraint@) == Some(i as int),
            None => resolve_version_index(metadata@, constraint@) is None,
        },
        r matches Some(i) ==> i < metadata.versions@.len(),
        ({
            let m = metadata@;
            let c = constraint@;
            !((c == latest_tag() || c == seq!['*']) && lookup(m.dist_tags, latest_tag()) is Some)
                && lookup(m.dist_tags, c) is None && version_req_source(c) is Some ==> {
                let req = version_req_source(c)->0;
                &&& r matches Some(i) ==> semver_version_parses(m.versions[i as int].0)
                    && semver_matches(req, m.versions[i as int].0)
                    && forall|j: int|
                        0 <= j < m.versions.len() && semver_version_parses(m.versions[j].0)
                            && semver_matches(req, m.versions[j].0)
                            ==> !semver_less(m.versions[i as int].0, #[trigger] m.versions[j].0)
                &&& r is None ==> forall|j: int|
                    0 <= j < m.versions.len() ==> !(semver_version_parses(#[trigger] m.versions[j].0)
                        && semver_matches(req, m.versions[j].0))
            }
        }),
{
    let ghost m = metadata@;
    let ghost tv = m.dist_tags;
    proof {
        lemma_first_key_index(tv, latest_tag());
        lemma_first_key_index(tv, constraint@);
        lemma_first_key_index(m.versions, constraint@);
        reveal_strlit("latest");
        reveal_strlit("*");
        assert("latest"@ =~= latest_tag());
    }
    let cc = chars_of(constraint);
    let lt = vec!['l', 'a', 't', 'e', 's', 't'];
    let star = vec!['*'];
    assert(lt@ =~= latest_tag());
    assert(star@ =~= seq!['*']);
    if crate::text::chars_eq(cc.as_slice(), lt.as_slice()) || crate::text::chars_eq(cc.as_slice(), star.as_slice()) {
        if let Some(ti) = find_pair(&metadata.dist_tags, "latest") {
            assert(tv[ti as int].1 == metadata.dist_tags@[ti as int].1@);
            let r = find_version(&metadata.versions, metadata.dist_tags[ti].1.as_str());
            proof {
                lemma_first_key_index(m.versions, tv[ti as int].1);
            }
            return r;
        }
    }
    if let Some(ti) = find_pair(&metadata.dist_tags, constraint) {
        assert(tv[ti as int].1 == metadata.dist_tags@[ti as int].1@);
        let r = find_version(&metadata.versions, metadata.dist_tags[ti].1.as_str());
        proof {
            lemma_first_key_index(m.versions, tv[ti as int].1);
        }
        return r;
    }
    let req = match parse_version_req(constraint) {
        Some(q) => q,
        None => {
            return None;
        },
    };
    let ghost vs = m.versions;
    let mut best: Option<(usize, crate::versions::SemVersion)> = None;
    let mut i: usize = 0;
    while i < metadata.versions.len()
        invariant
            i <= metadata.versions@.len(),
            m == metadata@,
            vs == m.versions,
            vs.len() == metadata.versions@.len(),
            version_req_source(constraint@) == Some(req@),
            match best {
                None => best_match(vs, req@, i as int) is None,
                Some((bi, bv)) => best_match(vs, req@, i as int) == Some(bi as int) && bv@ == vs[bi as int].0,
            },
            best matches Some((bi, bv)) ==> bi < i && semver_version_parses(vs[bi as int].0)
                && semver_matches(req@, vs[bi as int].0) && !semver_less(bv@, bv@),
            forall|j: int|
                0 <= j < i && semver_version_parses(vs[j].0) && semver_matches(req@, vs[j].0)
                    ==> (best matches Some((bi, bv)) && !semver_less(bv@, #[trigger] vs[j].0)),
        decreases metadata.versions@.len() - i,
    {
        assert(vs[i as int].0 == metadata.versions@[i as int].0@);
        if let Some(v) = parse_semver(metadata.versions[i].0.as_str()) {
            if constraint_matches(&req, &v) {
                let replace = match &best {
                    None => true,
                    Some((_, bv)) => version_greater(&v, bv),
                };
                if replace {
                    best = Some((i, v));
                }
            }
        }
        i = i + 1;
    }
    match best {
        Some((bi, _)) => Some(bi),
        None => None,
    }
}

} // verus!

verus! {

/// Where a local dependency lives: what follows `file:` or `link:`; `*` for
/// `workspace:`.
pub open spec fn local_relative_path(v: Seq<char>) -> Seq<char> {
    if starts_with(v, seq!['f', 'i', 'l', 'e', ':']) {
        v.skip(5)
    } else if starts_with(v, seq!['l', 'i', 'n', 'k', ':']) {
        v.skip(5)
    } else {
        seq!['*']
    }
}

/// One entry of package.json `dependencies`: a local one is recorded as a
/// workspace package; any other is queued (and its key marked queued),
/// noted as a root request, and counted.
pub open spec fn root_dep_step(st: ResolverState, name: Seq<char>, v: Seq<char>) -> (ResolverState, nat) {
    if is_local_spec(v) {
        (
            ResolverState {
                workspace: st.workspace.push(
                    WorkspacePackageRefView { name: name, relative_path: local_relative_path(v) },
                ),
                ..st
            },
            0,
        )
    } else {
        (
            ResolverState {
                queue: st.queue.push((name, v, false)),
                queued: if st.queued.contains(dep_key(name, v)) {
                    st.queued
                } else {
                    st.queued.push(dep_key(name, v))
                },
                root_requests: st.root_requests.push(dep_key(name, v)),
                ..st
            },
            1,
        )
    }
}

/// One entry of `devDependencies`: local ones and already queued keys are
/// skipped; any other is queued, noted as a root request, and counted.
pub open spec fn dev_dep_step(st: ResolverState, name: Seq<char>, v: Seq<char>) -> (ResolverState, nat) {
    if is_local_spec(v) || st.queued.contains(dep_key(name, v)) {
        (st, 0)
    } else {
        (
            ResolverState {
                queue: st.queue.push((name, v, false)),
                queued: st.queued.push(dep_key(name, v)),
                root_requests: st.root_requests.push(dep_key(name, v)),
                ..st
            },
            1,
        )
    }
}

pub open spec fn root_deps_fold(st: ResolverState, deps: Seq<(Seq<char>, Seq<char>)>, dev: bool) -> (ResolverState, nat)
    decreases deps.len(),
{
    if deps.len() == 0 {
        (st, 0)
    } else {
        let (s1, n1) = root_deps_fold(st, deps.drop_last(), dev);
        let (s2, n2) = if dev {
            dev_dep_step(s1, deps.last().0, deps.last().1)
        } else {
            root_dep_step(s1, deps.last().0, deps.last().1)
        };
        (s2, n1 + n2)
    }
}

/// The state after queueing the direct dependencies (and, when asked, the
/// dev dependencies) of package.json, and how many were queued.
pub open spec fn queue_roots(
    st: ResolverState,
    deps: Seq<(Seq<char>, Seq<char>)>,
    dev_deps: Seq<(Seq<char>, Seq<char>)>,
    include_dev: bool,
) -> (ResolverState, nat) {
    let (a, n) = root_deps_fold(st, deps, false);
    if include_dev {
        let (b, m) = root_deps_fold(a, dev_deps, true);
        (b, n + m)
    } else {
        (a, n)
    }
}

fn root_dep_exec(ctx: &mut ResolutionContext, name: &str, v: &str, dev: bool) -> (r: usize)
    ensures
        (final(ctx)@, r as nat) == if dev {
            dev_dep_step(old(ctx)@, name@, v@)
        } else {
            root_dep_step(old(ctx)@, name@, v@)
        },
        state_wf(old(ctx)@) ==> state_wf(final(ctx)@),
        r <= 1,
{
    let vc = chars_of(v);
    if is_local_spec_exec(&vc) {
        if dev {
            return 0;
        }
        let file = vec!['f', 'i', 'l', 'e', ':'];
        let link = vec!['l', 'i', 'n', 'k', ':'];
        assert(file@ =~= seq!['f', 'i', 'l', 'e', ':']);
        assert(link@ =~= seq!['l', 'i', 'n', 'k', ':']);
        let rel = if crate::text::starts_with_exec(vc.as_slice(), file.as_slice())
            || crate::text::starts_with_exec(vc.as_slice(), link.as_slice()) {
            let t = crate::text::sub_chars(&vc, 5, vc.len());
            assert(t@ =~= vc@.skip(5));
            string_of(&t)
        } else {
            proof {
                reveal_strlit("*");
                assert("*"@ =~= seq!['*']);
            }
            owned("*")
        };
        assert(rel@ == local_relative_path(v@));
        let ghost w0 = ctx.workspace_packages@;
        ctx.workspace_packages.push(WorkspacePackageRef { name: owned(name), relative_path: rel });
        assert(workspace_view(ctx.workspace_packages@) =~= workspace_view(w0).push(
            WorkspacePackageRefView { name: name@, relative_path: local_relative_path(v@) },
        ));
        return 0;
    }
    let key = dep_key_exec(name, v);
    let seen = has_string(&ctx.queued, key.as_str());
    if dev && seen {
        return 0;
    }
    let ghost q0 = ctx.queue@;
    ctx.queue.push_back((owned(name), owned(v), false));
    assert(queue_view(ctx.queue@) =~= queue_view(q0).push((name@, v@, false)));
    let ghost r0 = ctx.root_requests@;
    ctx.root_requests.push(owned(key.as_str()));
    assert(crate::text::string_views(ctx.root_requests@) =~= crate::text::string_views(r0).push(
        dep_key(name@, v@),
    ));
    if !seen {
        let ghost k0 = ctx.queued@;
        ctx.queued.push(key);
        assert(crate::text::string_views(ctx.queued@) =~= crate::text::string_views(k0).push(
            dep_key(name@, v@),
        ));
    }
    1
}

fn root_deps_exec(ctx: &mut ResolutionContext, deps: &Vec<(String, String)>, dev: bool) -> (r: usize)
    ensures
        (final(ctx)@, r as nat) == root_deps_fold(old(ctx)@, pair_views(deps@), dev),
        state_wf(old(ctx)@) ==> state_wf(final(ctx)@),
        r <= deps@.len(),
{
    let ghost pv = pair_views(deps@);
    let mut count: usize = 0;
    let mut i: usize = 0;
    assert(pv.take(0) =~= Seq::<(Seq<char>, Seq<char>)>::empty());
    while i < deps.len()
        invariant
            i <= deps@.len(),
            pv == pair_views(deps@),
            count <= i,
            (ctx@, count as nat) == root_deps_fold(old(ctx)@, pv.take(i as int), dev),
            state_wf(old(ctx)@) ==> state_wf(ctx@),
        decreases deps@.len() - i,
    {
        assert(pv.take(i + 1).drop_last() =~= pv.take(i as int));
        assert(pv.take(i + 1).last() == (deps@[i as int].0@, deps@[i as int].1@));
        let n = root_dep_exec(ctx, deps[i].0.as_str(), deps[i].1.as_str(), dev);
        count = count + n;
        i = i + 1;
    }
    assert(pv.take(deps@.len() as int) =~= pv);
    count
}

/// Queue the direct dependencies of package.json (and the dev dependencies
/// when `include_dev`), recording local ones as workspace packages; returns
/// how many were queued.
pub fn queue_root_dependencies(
    ctx: &mut ResolutionContext,
    deps: &Vec<(String, String)>,
    dev_deps: &Vec<(String, String)>,
    include_dev: bool,
) -> (r: usize)
    requires
        deps@.len() + dev_deps@.len() <= usize::MAX,
    ensures
        (final(ctx)@, r as nat) == queue_roots(old(ctx)@, pair_views(deps@), pair_views(dev_deps@), include_dev),
        state_wf(old(ctx)@) ==> state_wf(final(ctx)@),
{
    let n = root_deps_exec(ctx, deps, false);
    if include_dev {
        let m = root_deps_exec(ctx, dev_deps, true);
        n + m
    } else {
        n
    }
}

} // verus!

verus! {

/// Maximum number of concurrent metadata fetches
pub const MAX_CONCURRENT_FETCHES: usize = 32;

/// A queued dependency taken into a batch: (name, constraint, is_optional,
/// package whose metadata it needs).
pub type BatchItem = (String, String, bool, String);

/// What one round of the resolver works on, and the packages whose metadata
/// must be fetched for it.
pub struct Batch {
    pub items: Vec<BatchItem>,
    pub to_fetch: Vec<String>,
}

pub open spec fn item_views(v: Seq<BatchItem>) -> Seq<(Seq<char>, Seq<char>, bool, Seq<char>)> {
    v.map_values(|t: BatchItem| (t.0@, t.1@, t.2, t.3@))
}

/// The name, constraint and registry package a queued dependency stands for:
/// an `npm:` alias names another package and constraint.
pub open spec fn alias_target(name: Seq<char>, c: Seq<char>) -> (Seq<char>, Seq<char>, Seq<char>) {
    match npm_alias_parts(c) {
        Some((p, v)) => (name, v, p),
        None => (name, c, name),
    }
}

/// Taking a batch off the queue `q`: satisfied entries are dropped; the others
/// join the batch, and their package joins the fetch list unless its metadata
/// is cached or already listed; once the list reaches the limit, taking stops.
/// Gives the rest of the queue, the batch and the fetch list.
pub open spec fn take_batch(
    st: ResolverState,
    q: Seq<(Seq<char>, Seq<char>, bool)>,
    items: Seq<(Seq<char>, Seq<char>, bool, Seq<char>)>,
    fetch: Seq<Seq<char>>,
) -> (Seq<(Seq<char>, Seq<char>, bool)>, Seq<(Seq<char>, Seq<char>, bool, Seq<char>)>, Seq<Seq<char>>)
    decreases q.len(),
{
    if q.len() == 0 {
        (q, items, fetch)
    } else {
        let (name, c, opt) = q[0];
        let (an, ac, t) = alias_target(name, c);
        if satisfied(st, an, ac) {
            take_batch(st, q.skip(1), items, fetch)
        } else {
            let fetch2 = if !cache_keys(st.cache).contains(t) && !fetch.contains(t) {
                fetch.push(t)
            } else {
                fetch
            };
            let items2 = items.push((name, c, opt, t));
            if fetch2.len() >= MAX_CONCURRENT_FETCHES {
                (q.skip(1), items2, fetch2)
            } else {
                take_batch(st, q.skip(1), items2, fetch2)
            }
        }
    }
}

/// Position of the cached metadata of `name`.
pub fn cache_index(ctx: &ResolutionContext, name: &str) -> (r: Option<usize>)
    ensures
        match r {
            Some(i) => first_key_index(ctx@.cache, name@) == Some(i as int),
            None => first_key_index(ctx@.cache, name@) is None,
        },
        r matches Some(i) ==> i < ctx.metadata_cache@.len(),
{
    let ghost cv = ctx@.cache;
    let nc = chars_of(name);
    let mut i: usize = 0;
    proof {
        lemma_first_key_index(cv, name@);
    }
    while i < ctx.metadata_cache.len()
        invariant
            i <= ctx.metadata_cache@.len(),
            cv == ctx@.cache,
            cv.len() == ctx.metadata_cache@.len(),
            nc@ == name@,
            forall|j: int| 0 <= j < i ==> cv[j].0 != name@,
            first_key_index(cv, name@) matches Some(x) ==> 0 <= x < cv.len() && cv[x].0 == name@
                && forall|j: int| 0 <= j < x ==> cv[j].0 != name@,
            first_key_index(cv, name@) is None ==> forall|j: int| 0 <= j < cv.len() ==> cv[j].0 != name@,
        decreases ctx.metadata_cache@.len() - i,
    {
        let e = chars_of(ctx.metadata_cache[i].0.as_str());
        assert(cv[i as int].0 == e@);
        if crate::text::chars_eq(e.as_slice(), nc.as_slice()) {
            return Some(i);
        }
        i = i + 1;
    }
    None
}

proof fn lemma_cache_keys_contains(c: Seq<(Seq<char>, NpmPackageMetadataView)>, k: Seq<char>)
    ensures
        cache_keys(c).contains(k) <==> first_key_index(c, k) is Some,
{
    lemma_first_key_index(c, k);
    if let Some(i) = first_key_index(c, k) {
        assert(cache_keys(c)[i] == k);
    }
    if cache_keys(c).contains(k) {
        let j = choose|j: int| 0 <= j < cache_keys(c).len() && cache_keys(c)[j] == k;
        assert(c[j].0 == k);
    }
}

fn alias_target_exec(name: &String, c: &String) -> (r: (String, String, String))
    ensures
        (r.0@, r.1@, r.2@) == alias_target(name@, c@),
{
    match parse_npm_alias(c.as_str()) {
        Some(a) => (owned(name.as_str()), a.target_constraint, a.target_package),
        None => (owned(name.as_str()), owned(c.as_str()), owned(name.as_str())),
    }
}

/// Take the next batch off the queue (see `take_batch`); nothing else of the
/// state changes.
pub fn next_batch(ctx: &mut ResolutionContext) -> (b: Batch)
    ensures
        ({
            let (rest, items, fetch) = take_batch(old(ctx)@, old(ctx)@.queue, seq![], seq![]);
            &&& final(ctx)@ == (ResolverState { queue: rest, ..old(ctx)@ })
            &&& item_views(b.items@) == items
            &&& crate::text::string_views(b.to_fetch@) == fetch
        }),
{
    let ghost st0 = ctx@;
    let ghost goal = take_batch(st0, st0.queue, seq![], seq![]);
    let mut items: Vec<BatchItem> = Vec::new();
    let mut fetch: Vec<String> = Vec::new();
    assert(item_views(items@) =~= Seq::<(Seq<char>, Seq<char>, bool, Seq<char>)>::empty());
    assert(crate::text::string_views(fetch@) =~= Seq::<Seq<char>>::empty());
    loop
        invariant_except_break
            take_batch(st0, ctx@.queue, item_views(items@), crate::text::string_views(fetch@)) == goal,
        invariant
            ctx@ == (ResolverState { queue: ctx@.queue, ..st0 }),
        ensures
            ctx@ == (ResolverState { queue: goal.0, ..st0 }),
            item_views(items@) == goal.1,
            crate::text::string_views(fetch@) == goal.2,
        decreases ctx@.queue.len(),
    {
        let ghost q = ctx@.queue;
        let ghost iv = item_views(items@);
        let ghost fv = crate::text::string_views(fetch@);
        let front = ctx.queue.pop_front();
        match front {
            None => {
                assert(q.len() == 0);
                break;
            },
            Some(entry) => {
                let (name, c, opt) = entry;
                assert(q[0] == (name@, c@, opt));
                assert(ctx@.queue =~= q.skip(1));
                let (an, ac, t) = alias_target_exec(&name, &c);
                if is_satisfied(ctx, an.as_str(), ac.as_str()) {
                    continue;
                }
                let cached = cache_index(ctx, t.as_str()).is_some();
                proof {
                    lemma_cache_keys_contains(st0.cache, t@);
                }
                if !cached && !has_string(&fetch, t.as_str()) {
                    let ghost f0 = fetch@;
                    fetch.push(owned(t.as_str()));
                    assert(crate::text::string_views(fetch@) =~= crate::text::string_views(f0).push(t@));
                }
                let ghost i0 = items@;
                items.push((name, c, opt, t));
                assert(item_views(items@) =~= item_views(i0).push((q[0].0, q[0].1, q[0].2, t@)));
                if fetch.len() >= MAX_CONCURRENT_FETCHES {
                    break;
                }
            },
        }
    }
    Batch { items, to_fetch: fetch }
}

} // verus!

verus! {

/// The failures a failed fetch of `name` records: one per non-optional batch
/// item that needed that package.
pub open spec fn failures_for(
    items: Seq<(Seq<char>, Seq<char>, bool, Seq<char>)>,
    name: Seq<char>,
    e: Seq<char>,
) -> Seq<(Seq<char>, Seq<char>, Seq<char>)>
    decreases items.len(),
{
    if items.len() == 0 {
        seq![]
    } else {
        let rest = failures_for(items.drop_last(), name, e);
        let it = items.last();
        if it.3 == name && !it.2 {
            rest.push((it.0, it.1, e))
        } else {
            rest
        }
    }
}

/// `HashMap::insert` on the cache: the entry under `k` is replaced, or added.
pub open spec fn cache_insert(
    c: Seq<(Seq<char>, NpmPackageMetadataView)>,
    k: Seq<char>,
    m: NpmPackageMetadataView,
) -> Seq<(Seq<char>, NpmPackageMetadataView)> {
    match first_key_index(c, k) {
        Some(i) => c.update(i, (k, m)),
        None => c.push((k, m)),
    }
}

pub open spec fn fetch_view(r: Result<NpmPackageMetadata, String>) -> Result<NpmPackageMetadataView, Seq<char>> {
    match r {
        Ok(m) => Ok(m@),
        Err(e) => Err(e@),
    }
}

pub open spec fn fetch_views(v: Seq<(String, Result<NpmPackageMetadata, String>)>) -> Seq<(Seq<char>, Result<NpmPackageMetadataView, Seq<char>>)> {
    v.map_values(|p: (String, Result<NpmPackageMetadata, String>)| (p.0@, fetch_view(p.1)))
}

/// The state after the fetch results, in order: fetched metadata is cached;
/// a failed fetch is recorded against the batch items that needed it.
pub open spec fn record_fetches(
    st: ResolverState,
    items: Seq<(Seq<char>, Seq<char>, bool, Seq<char>)>,
    results: Seq<(Seq<char>, Result<NpmPackageMetadataView, Seq<char>>)>,
) -> ResolverState
    decreases results.len(),
{
    if results.len() == 0 {
        st
    } else {
        let s1 = record_fetches(st, items, results.drop_last());
        let (name, res) = results.last();
        match res {
            Ok(m) => ResolverState { cache: cache_insert(s1.cache, name, m), ..s1 },
            Err(e) => ResolverState { failed: s1.failed + failures_for(items, name, e), ..s1 },
        }
    }
}

fn record_failures(ctx: &mut ResolutionContext, items: &Vec<BatchItem>, name: &str, e: &str)
    ensures
        final(ctx)@ == (ResolverState {
            failed: old(ctx)@.failed + failures_for(item_views(items@), name@, e@),
            ..old(ctx)@
        }),
{
    let ghost iv = item_views(items@);
    let ghost f0 = ctx@.failed;
    let nc = chars_of(name);
    let mut i: usize = 0;
    assert(iv.take(0) =~= Seq::<(Seq<char>, Seq<char>, bool, Seq<char>)>::empty());
    assert(f0 + failures_for(iv.take(0), name@, e@) =~= f0);
    while i < items.len()
        invariant
            i <= items@.len(),
            iv == item_views(items@),
            nc@ == name@,
            ctx@ == (ResolverState { failed: f0 + failures_for(iv.take(i as int), name@, e@), ..old(ctx)@ }),
            f0 == old(ctx)@.failed,
        decreases items@.len() - i,
    {
        let it = &items[i];
        assert(iv.take(i + 1).drop_last() =~= iv.take(i as int));
        assert(iv.take(i + 1).last() == (it.0@, it.1@, it.2, it.3@));
        let tc = chars_of(it.3.as_str());
        if crate::text::chars_eq(tc.as_slice(), nc.as_slice()) && !it.2 {
            let ghost fl = ctx.failed@;
            ctx.failed.push((owned(it.0.as_str()), owned(it.1.as_str()), owned(e)));
            assert(triple_views(ctx.failed@) =~= triple_views(fl).push((it.0@, it.1@, e@)));
            assert(f0 + failures_for(iv.take(i + 1), name@, e@) =~= (f0 + failures_for(iv.take(i as int), name@, e@)).push((it.0@, it.1@, e@)));
        }
        i = i + 1;
    }
    assert(iv.take(items@.len() as int) =~= iv);
}

/// Store fetched metadata in the cache, and record failed fetches against the
/// batch items that needed them.
pub fn record_fetch_results(
    ctx: &mut ResolutionContext,
    items: &Vec<BatchItem>,
    results: Vec<(String, Result<NpmPackageMetadata, String>)>,
)
    ensures
        final(ctx)@ == record_fetches(old(ctx)@, item_views(items@), fetch_views(results@)),
        state_wf(old(ctx)@) ==> state_wf(final(ctx)@),
{
    let ghost all = fetch_views(results@);
    let ghost iv = item_views(items@);
    let mut results = results;
    let mut done: usize = 0;
    let ghost total = all.len();
    assert(total == results.len());
    assert(all.take(0) =~= Seq::<(Seq<char>, Result<NpmPackageMetadataView, Seq<char>>)>::empty());
    while results.len() > 0
        invariant
            done + results@.len() == total,
            total == all.len(),
            total <= usize::MAX,
            fetch_views(results@) == all.skip(done as int),
            iv == item_views(items@),
            ctx@ == record_fetches(old(ctx)@, iv, all.take(done as int)),
            state_wf(old(ctx)@) ==> state_wf(ctx@),
        decreases results@.len(),
    {
        let ghost rv = fetch_views(results@);
        let ghost old_res = results@;
        let (name, res) = results.remove(0);
        assert(results@ =~= old_res.skip(1));
        assert(fetch_views(results@) =~= rv.skip(1));
        assert(fetch_views(results@) =~= all.skip(done + 1));
        assert(all.take(done + 1).drop_last() =~= all.take(done as int));
        assert(all.take(done + 1).last() == rv[0]);
        assert(rv[0] == (name@, fetch_view(res)));
        match res {
            Ok(m) => {
                let ghost mv = m@;
                let ghost c0 = ctx@.cache;
                proof {
                    lemma_first_key_index(c0, name@);
                }
                match cache_index(ctx, name.as_str()) {
                    Some(i) => {
                        ctx.metadata_cache.set(i, (name, m));
                        assert(cache_view(ctx.metadata_cache@) =~= c0.update(i as int, (rv[0].0, mv)));
                        assert(cache_keys(ctx@.cache) =~= cache_keys(c0));
                    },
                    None => {
                        ctx.metadata_cache.push((name, m));
                        assert(cache_view(ctx.metadata_cache@) =~= c0.push((rv[0].0, mv)));
                        assert(cache_keys(ctx@.cache) =~= cache_keys(c0).push(rv[0].0));
                        assert(!cache_keys(c0).contains(rv[0].0)) by {
                            if cache_keys(c0).contains(rv[0].0) {
                                let j = choose|j: int| 0 <= j < cache_keys(c0).len() && cache_keys(c0)[j] == rv[0].0;
                                assert(c0[j].0 == rv[0].0);
                            }
                        }
                    },
                }
            },
            Err(e) => {
                record_failures(ctx, items, name.as_str(), e.as_str());
            },
        }
        done = done + 1;
    }
    assert(all.take(done as int) =~= all);
}

} // verus!

verus! {

use crate::types::NpmDistView;

/// The integrity a resolved package records: the registry's `integrity`, else
/// `sha1-` and its `shasum`, else empty.
pub open spec fn integrity_of(d: NpmDistView) -> Seq<char> {
    match d.integrity {
        Some(i) => i,
        None => match d.shasum {
            Some(s) => seq!['s', 'h', 'a', '1', '-'] + s,
            None => seq![],
        },
    }
}

/// Queue each dependency in order (see `queue_dep`); gives the keys of those
/// that were not local.
pub open spec fn queue_deps(st: ResolverState, deps: Seq<(Seq<char>, Seq<char>)>, opt: bool) -> (ResolverState, Seq<Seq<char>>)
    decreases deps.len(),
{
    if deps.len() == 0 {
        (st, seq![])
    } else {
        let (s1, ks) = queue_deps(st, deps.drop_last(), opt);
        let (s2, k) = queue_dep(s1, deps.last().0, deps.last().1, opt);
        (
            s2,
            match k {
                Some(x) => ks.push(x),
                None => ks,
            },
        )
    }
}

pub open spec fn no_version_message(c: Seq<char>) -> Seq<char> {
    "No version satisfies constraint "@ + c
}

/// One batch item, with the metadata cached: pick its version; skip it when
/// none fits (recording a failure unless optional) or when the platform is
/// not supported. When the item is a direct dependency of package.json (its
/// queue key is a root request), note `name@version` as a root dependency
/// unless noted already. Skip it when that exact version is resolved already;
/// otherwise queue its dependencies, optional and peer dependencies, and
/// record it. The count says whether a package was resolved.
pub open spec fn process_item(st: ResolverState, item: (Seq<char>, Seq<char>, bool, Seq<char>)) -> (ResolverState, nat) {
    let (name, c, opt, t) = item;
    let (an, ac, _unused) = alias_target(name, c);
    match lookup(st.cache, t) {
        None => (st, 0),
        Some(m) => match resolve_version_index(m, ac) {
            None => (
                if !opt {
                    ResolverState { failed: st.failed.push((name, c, no_version_message(ac))), ..st }
                } else {
                    st
                },
                0,
            ),
            Some(vi) => {
                let info = m.versions[vi].1;
                let key = dep_key(an, info.version);
                let s0 = root_noted(st, dep_key(name, c), key);
                if !platform_compatible(info.os, st.platform) {
                    (st, 0)
                } else if resolved_keys(st.resolved).contains(key) {
                    (s0, 0)
                } else {
                    let (s1, k1) = queue_deps(s0, info.dependencies, false);
                    let (s2, k2) = queue_deps(s1, info.optional_dependencies, true);
                    let (s4, _k3) = queue_deps(s2, info.peer_dependencies, true);
                    let pkg = ResolvedPackageView {
                        pname: an,
                        version: info.version,
                        url: info.dist.tarball,
                        integrity: integrity_of(info.dist),
                        dependencies: k1 + k2,
                        has_bin: if info.has_bin {
                            Some(true)
                        } else {
                            None
                        },
                    };
                    (ResolverState { resolved: s4.resolved.push((key, pkg)), ..s4 }, 1)
                }
            },
        },
    }
}

/// The state with `key` noted as a root dependency when `request` is the
/// queue key of a direct dependency and `key` is not noted yet.
pub open spec fn root_noted(st: ResolverState, request: Seq<char>, key: Seq<char>) -> ResolverState {
    if st.root_requests.contains(request) && !st.root_deps.contains(key) {
        ResolverState { root_deps: st.root_deps.push(key), ..st }
    } else {
        st
    }
}

pub open spec fn process_items(st: ResolverState, items: Seq<(Seq<char>, Seq<char>, bool, Seq<char>)>) -> (ResolverState, nat)
    decreases items.len(),
{
    if items.len() == 0 {
        (st, 0)
    } else {
        let (s1, n1) = process_items(st, items.drop_last());
        let (s2, n2) = process_item(s1, items.last());
        (s2, n1 + n2)
    }
}

/// Queueing dependencies touches only the queue and the queued keys.
proof fn lemma_queue_deps_frame(st: ResolverState, deps: Seq<(Seq<char>, Seq<char>)>, opt: bool)
    ensures
        ({
            let s = queue_deps(st, deps, opt).0;
            &&& s.resolved == st.resolved
            &&& s.root_deps == st.root_deps
            &&& s.root_requests == st.root_requests
            &&& s.cache == st.cache
            &&& s.failed == st.failed
            &&& s.platform == st.platform
            &&& s.registry == st.registry
            &&& s.workspace == st.workspace
        }),
    decreases deps.len(),
{
    if deps.len() > 0 {
        lemma_queue_deps_frame(st, deps.drop_last(), opt);
    }
}

fn clone_pairs(v: &Vec<(String, String)>) -> (r: Vec<(String, String)>)
    ensures
        pair_views(r@) == pair_views(v@),
{
    let mut r: Vec<(String, String)> = Vec::new();
    let mut i: usize = 0;
    while i < v.len()
        invariant
            i <= v@.len(),
            pair_views(r@) =~= pair_views(v@).take(i as int),
        decreases v@.len() - i,
    {
        let ghost r0 = r@;
        r.push((owned(v[i].0.as_str()), owned(v[i].1.as_str())));
        assert(pair_views(r@) =~= pair_views(r0).push((v@[i as int].0@, v@[i as int].1@)));
        i = i + 1;
    }
    assert(pair_views(v@).take(v@.len() as int) =~= pair_views(v@));
    r
}

fn integrity_exec(d: &crate::types::NpmDist) -> (r: String)
    ensures
        r@ == integrity_of(d@),
{
    match &d.integrity {
        Some(i) => owned(i.as_str()),
        None => match &d.shasum {
            Some(s) => {
                proof {
                    reveal_strlit("sha1-");
                    assert("sha1-"@ =~= seq!['s', 'h', 'a', '1', '-']);
                }
                crate::text::concat_str("sha1-", s.as_str())
            },
            None => String::new(),
        },
    }
}

fn queue_deps_exec(ctx: &mut ResolutionContext, deps: &Vec<(String, String)>, opt: bool, keys: &mut Vec<String>)
    ensures
        ({
            let (s, ks) = queue_deps(old(ctx)@, pair_views(deps@), opt);
            &&& final(ctx)@ == s
            &&& crate::text::string_views(final(keys)@) == crate::text::string_views(old(keys)@) + ks
        }),
        state_wf(old(ctx)@) ==> state_wf(final(ctx)@),
{
    let ghost pv = pair_views(deps@);
    let ghost k0 = crate::text::string_views(keys@);
    let mut i: usize = 0;
    assert(pv.take(0) =~= Seq::<(Seq<char>, Seq<char>)>::empty());
    assert(k0 + Seq::<Seq<char>>::empty() =~= k0);
    while i < deps.len()
        invariant
            i <= deps@.len(),
            pv == pair_views(deps@),
            ctx@ == queue_deps(old(ctx)@, pv.take(i as int), opt).0,
            crate::text::string_views(keys@) == k0 + queue_deps(old(ctx)@, pv.take(i as int), opt).1,
            k0 == crate::text::string_views(old(keys)@),
            state_wf(old(ctx)@) ==> state_wf(ctx@),
        decreases deps@.len() - i,
    {
        assert(pv.take(i + 1).drop_last() =~= pv.take(i as int));
        assert(pv.take(i + 1).last() == (deps@[i as int].0@, deps@[i as int].1@));
        let ghost kv = crate::text::string_views(keys@);
        let k = queue_dependency(ctx, deps[i].0.as_str(), deps[i].1.as_str(), opt);
        match k {
            Some(x) => {
                let ghost xv = x@;
                keys.push(x);
                assert(crate::text::string_views(keys@) =~= kv.push(xv));
            },
            None => {},
        }
        i = i + 1;
    }
    assert(pv.take(deps@.len() as int) =~= pv);
}

/// Position of the resolved package keyed `key`, if any.
fn resolved_has(ctx: &ResolutionContext, key: &str) -> (b: bool)
    ensures
        b == resolved_keys(ctx@.resolved).contains(key@),
{
    let ghost rv = ctx@.resolved;
    let kc = chars_of(key);
    let mut i: usize = 0;
    while i < ctx.resolved.len()
        invariant
            i <= ctx.resolved@.len(),
            rv == ctx@.resolved,
            rv.len() == ctx.resolved@.len(),
            kc@ == key@,
            forall|j: int| 0 <= j < i ==> rv[j].0 != key@,
        decreases ctx.resolved@.len() - i,
    {
        let e = chars_of(ctx.resolved[i].0.as_str());
        assert(rv[i as int].0 == e@);
        if crate::text::chars_eq(e.as_slice(), kc.as_slice()) {
            assert(resolved_keys(rv)[i as int] == key@);
            return true;
        }
        i = i + 1;
    }
    proof {
        if resolved_keys(rv).contains(key@) {
            let j = choose|j: int| 0 <= j < resolved_keys(rv).len() && resolved_keys(rv)[j] == key@;
            assert(rv[j].0 == key@);
        }
    }
    false
}

fn process_item_exec(ctx: &mut ResolutionContext, item: &BatchItem) -> (r: usize)
    ensures
        (final(ctx)@, r as nat) == process_item(old(ctx)@, (item.0@, item.1@, item.2, item.3@)),
        state_wf(old(ctx)@) ==> state_wf(final(ctx)@),
        r <= 1,
{
    let (an, ac, _unused) = alias_target_exec(&item.0, &item.1);
    let ci = match cache_index(ctx, item.3.as_str()) {
        Some(i) => i,
        None => {
            return 0;
        },
    };
    let ghost m = ctx@.cache[ci as int].1;
    assert(m == ctx.metadata_cache@[ci as int].1@);
    let vi = match resolve_version(&ctx.metadata_cache[ci].1, ac.as_str()) {
        Some(v) => v,
        None => {
            if !item.2 {
                let msg = crate::text::concat_str("No version satisfies constraint ", ac.as_str());
                let ghost fl = ctx.failed@;
                ctx.failed.push((owned(item.0.as_str()), owned(item.1.as_str()), msg));
                assert(triple_views(ctx.failed@) =~= triple_views(fl).push(
                    (item.0@, item.1@, no_version_message(ac@)),
                ));
            }
            return 0;
        },
    };
    let info = &ctx.metadata_cache[ci].1.versions[vi].1;
    assert(m.versions[vi as int].1 == info@);
    let version = owned(info.version.as_str());
    let key = dep_key_exec(an.as_str(), version.as_str());
    if !is_platform_compatible(info, ctx.platform.as_str()) {
        return 0;
    }
    let integrity = integrity_exec(&info.dist);
    let url = owned(info.dist.tarball.as_str());
    let has_bin = info.has_bin;
    let deps = clone_pairs(&info.dependencies);
    let optional = clone_pairs(&info.optional_dependencies);
    let peers = clone_pairs(&info.peer_dependencies);
    let ghost iv = info@;
    let request = dep_key_exec(item.0.as_str(), item.1.as_str());
    if has_string(&ctx.root_requests, request.as_str()) && !has_string(&ctx.root_deps, key.as_str()) {
        let ghost r0 = ctx.root_deps@;
        ctx.root_deps.push(owned(key.as_str()));
        assert(crate::text::string_views(ctx.root_deps@) =~= crate::text::string_views(r0).push(key@));
    }
    let ghost s0 = ctx@;
    assert(s0 == root_noted(old(ctx)@, dep_key(item.0@, item.1@), key@));
    if resolved_has(ctx, key.as_str()) {
        return 0;
    }
    let mut dep_keys: Vec<String> = Vec::new();
    assert(crate::text::string_views(dep_keys@) =~= Seq::<Seq<char>>::empty());
    queue_deps_exec(ctx, &deps, false, &mut dep_keys);
    queue_deps_exec(ctx, &optional, true, &mut dep_keys);
    let mut peer_keys: Vec<String> = Vec::new();
    queue_deps_exec(ctx, &peers, true, &mut peer_keys);
    assert(crate::text::string_views(dep_keys@) =~= Seq::<Seq<char>>::empty()
        + queue_deps(s0, iv.dependencies, false).1
        + queue_deps(queue_deps(s0, iv.dependencies, false).0, iv.optional_dependencies, true).1);
    let pkg = ResolvedPackage {
        pname: an,
        version,
        url,
        integrity,
        dependencies: dep_keys,
        has_bin: if has_bin {
            Some(true)
        } else {
            None
        },
    };
    let ghost pv = pkg@;
    let ghost rs0 = ctx.resolved@;
    proof {
        let s1 = queue_deps(s0, iv.dependencies, false).0;
        let s2 = queue_deps(s1, iv.optional_dependencies, true).0;
        lemma_queue_deps_frame(s0, iv.dependencies, false);
        lemma_queue_deps_frame(s1, iv.optional_dependencies, true);
        lemma_queue_deps_frame(s2, iv.peer_dependencies, true);
    }
    ctx.resolved.push((key, pkg));
    assert(resolved_view(ctx.resolved@) =~= resolved_view(rs0).push((key@, pv)));
    assert(resolved_keys(ctx@.resolved) =~= resolved_keys(resolved_view(rs0)).push(key@));
    1
}

/// Process a batch with the cached metadata, item by item (see
/// `process_item`); returns how many packages were resolved.
pub fn process_batch(ctx: &mut ResolutionContext, items: &Vec<BatchItem>) -> (r: usize)
    ensures
        (final(ctx)@, r as nat) == process_items(old(ctx)@, item_views(items@)),
        state_wf(old(ctx)@) ==> state_wf(final(ctx)@),
{
    let ghost iv = item_views(items@);
    let mut count: usize = 0;
    let mut i: usize = 0;
    assert(iv.take(0) =~= Seq::<(Seq<char>, Seq<char>, bool, Seq<char>)>::empty());
    while i < items.len()
        invariant
            i <= items@.len(),
            iv == item_views(items@),
            count <= i,
            (ctx@, count as nat) == process_items(old(ctx)@, iv.take(i as int)),
            state_wf(old(ctx)@) ==> state_wf(ctx@),
        decreases items@.len() - i,
    {
        assert(iv.take(i + 1).drop_last() =~= iv.take(i as int));
        assert(iv.take(i + 1).last() == (items@[i as int].0@, items@[i as int].1@, items@[i as int].2, items@[i as int].3@));
        let n = process_item_exec(ctx, &items[i]);
        count = count + n;
        i = i + 1;
    }
    assert(iv.take(items@.len() as int) =~= iv);
    count
}

} // verus!

verus! {

/// A dependency key split back into name and constraint at its first `@`
/// (past a leading scope `@`); `*` when there is none.
pub open spec fn split_dep_key(k: Seq<char>) -> (Seq<char>, Seq<char>) {
    if k.len() > 0 && k[0] == '@' {
        match crate::text::find_from(k.skip(1), seq!['@'], 0) {
            Some(a) => (k.take(a + 1), k.skip(a + 2)),
            None => (k, seq!['*']),
        }
    } else {
        match crate::text::find_from(k, seq!['@'], 0) {
            Some(a) => (k.take(a), k.skip(a + 1)),
            None => (k, seq!['*']),
        }
    }
}

pub open spec fn pkg_matches(p: ResolvedPackageView, n: Seq<char>, c: Seq<char>) -> bool {
    &&& p.pname == n
    &&& version_req_source(c) is Some
    &&& semver_version_parses(p.version)
    &&& semver_matches(version_req_source(c)->0, p.version)
}

/// The first resolved package named `n` whose version satisfies `c`.
pub open spec fn matching_index(rs: Seq<(Seq<char>, ResolvedPackageView)>, n: Seq<char>, c: Seq<char>) -> Option<int>
    decreases rs.len(),
{
    if rs.len() == 0 {
        None
    } else {
        match matching_index(rs.drop_last(), n, c) {
            Some(i) => Some(i),
            None => if pkg_matches(rs.last().1, n, c) {
                Some(rs.len() - 1)
            } else {
                None
            },
        }
    }
}

proof fn lemma_matching_index(rs: Seq<(Seq<char>, ResolvedPackageView)>, n: Seq<char>, c: Seq<char>)
    ensures
        matching_index(rs, n, c) matches Some(i) ==> 0 <= i < rs.len() && pkg_matches(rs[i].1, n, c)
            && forall|j: int| 0 <= j < i ==> !pkg_matches(rs[j].1, n, c),
        matching_index(rs, n, c) is None ==> forall|j: int| 0 <= j < rs.len() ==> !pkg_matches(rs[j].1, n, c),
    decreases rs.len(),
{
    if rs.len() > 0 {
        lemma_matching_index(rs.drop_last(), n, c);
        assert(forall|j: int| 0 <= j < rs.len() - 1 ==> rs.drop_last()[j] == rs[j]);
    }
}

/// A dependency key rewritten to the resolved version that satisfies it
/// (`name@version`), or kept when none does.
pub open spec fn resolved_dep_key(rs: Seq<(Seq<char>, ResolvedPackageView)>, k: Seq<char>) -> Seq<char> {
    let (n, c) = split_dep_key(k);
    match matching_index(rs, n, c) {
        Some(i) => dep_key(n, rs[i].1.version),
        None => k,
    }
}

pub open spec fn finalized_entry(rs: Seq<(Seq<char>, ResolvedPackageView)>, e: (Seq<char>, ResolvedPackageView)) -> (Seq<char>, ResolvedPackageView) {
    (e.0, ResolvedPackageView {
        dependencies: e.1.dependencies.map_values(|d: Seq<char>| resolved_dep_key(rs, d)),
        ..e.1
    })
}

/// Every resolved package with its dependency keys rewritten to resolved
/// versions.
pub open spec fn finalized(st: ResolverState) -> ResolverState {
    ResolverState {
        resolved: st.resolved.map_values(|e: (Seq<char>, ResolvedPackageView)| finalized_entry(st.resolved, e)),
        ..st
    }
}

pub fn split_dep_key_exec(k: &String) -> (r: (String, String))
    ensures
        (r.0@, r.1@) == split_dep_key(k@),
{
    let kc = chars_of(k.as_str());
    let at = vec!['@'];
    assert(at@ =~= seq!['@']);
    proof {
        reveal_strlit("*");
        assert("*"@ =~= seq!['*']);
    }
    if kc.len() > 0 && kc[0] == '@' {
        let rest = crate::text::sub_chars(&kc, 1, kc.len());
        assert(rest@ =~= kc@.skip(1));
        match crate::text::find_from_exec(rest.as_slice(), at.as_slice(), 0) {
            Some(a) => {
                proof {
                    crate::text::lemma_find_from_some(rest@, at@, 0);
                }
                let n = crate::text::sub_chars(&kc, 0, a + 1);
                let c = crate::text::sub_chars(&kc, a + 2, kc.len());
                assert(n@ =~= kc@.take(a + 1));
                assert(c@ =~= kc@.skip(a + 2));
                (string_of(&n), string_of(&c))
            },
            None => (owned(k.as_str()), owned("*")),
        }
    } else {
        match crate::text::find_from_exec(kc.as_slice(), at.as_slice(), 0) {
            Some(a) => {
                proof {
                    crate::text::lemma_find_from_some(kc@, at@, 0);
                }
                let n = crate::text::sub_chars(&kc, 0, a);
                let c = crate::text::sub_chars(&kc, a + 1, kc.len());
                assert(n@ =~= kc@.take(a as int));
                assert(c@ =~= kc@.skip(a + 1));
                (string_of(&n), string_of(&c))
            },
            None => (owned(k.as_str()), owned("*")),
        }
    }
}

fn resolved_dep_key_exec(rs: &Vec<(String, ResolvedPackage)>, k: &String) -> (r: String)
    ensures
        r@ == resolved_dep_key(resolved_view(rs@), k@),
{
    let ghost rv = resolved_view(rs@);
    let (n, c) = split_dep_key_exec(k);
    let ghost kv = k@;
    proof {
        lemma_matching_index(rv, n@, c@);
    }
    let req = match parse_version_req(c.as_str()) {
        Some(q) => q,
        None => {
            return owned(k.as_str());
        },
    };
    let nc = chars_of(n.as_str());
    let mut i: usize = 0;
    while i < rs.len()
        invariant
            i <= rs@.len(),
            rv == resolved_view(rs@),
            rv.len() == rs@.len(),
            nc@ == n@,
            kv == k@,
            split_dep_key(kv) == (n@, c@),
            version_req_source(c@) == Some(req@),
            forall|j: int| 0 <= j < i ==> !pkg_matches(rv[j].1, n@, c@),
            matching_index(rv, n@, c@) matches Some(x) ==> 0 <= x < rv.len() && pkg_matches(rv[x].1, n@, c@)
                && forall|j: int| 0 <= j < x ==> !pkg_matches(rv[j].1, n@, c@),
            matching_index(rv, n@, c@) is None ==> forall|j: int| 0 <= j < rv.len() ==> !pkg_matches(rv[j].1, n@, c@),
        decreases rs@.len() - i,
    {
        let p = &rs[i].1;
        assert(rv[i as int].1 == p@);
        let pn = chars_of(p.pname.as_str());
        if crate::text::chars_eq(pn.as_slice(), nc.as_slice()) {
            if let Some(v) = parse_semver(p.version.as_str()) {
                if constraint_matches(&req, &v) {
                    assert(pkg_matches(rv[i as int].1, n@, c@));
                    proof {
                        match matching_index(rv, n@, c@) {
                            Some(x) => {
                                if x > i {
                                    assert(!pkg_matches(rv[i as int].1, n@, c@));
                                }
                                assert(x == i);
                            },
                            None => {
                                assert(!pkg_matches(rv[i as int].1, n@, c@));
                            },
                        }
                        assert(split_dep_key(k@) == (n@, c@));
                        assert(resolved_dep_key(rv, k@) == dep_key(n@, p.version@));
                    }
                    return dep_key_exec(n.as_str(), p.version.as_str());
                }
            }
        }
        i = i + 1;
    }
    owned(k.as_str())
}

/// Update dependency keys from constraints to resolved versions
/// (`jsonfile@^6.0.1` becomes `jsonfile@6.2.0`); a key that no resolved
/// package satisfies is kept.
pub fn finalize_dependencies(ctx: &mut ResolutionContext)
    ensures
        final(ctx)@ == finalized(old(ctx)@),
        state_wf(old(ctx)@) ==> state_wf(final(ctx)@),
{
    let ghost rv = ctx@.resolved;
    let mut out: Vec<(String, ResolvedPackage)> = Vec::new();
    let mut i: usize = 0;
    while i < ctx.resolved.len()
        invariant
            i <= ctx.resolved@.len(),
            ctx@ == old(ctx)@,
            rv == ctx@.resolved,
            rv.len() == ctx.resolved@.len(),
            resolved_view(out@) =~= rv.take(i as int).map_values(
                |e: (Seq<char>, ResolvedPackageView)| finalized_entry(rv, e),
            ),
        decreases ctx.resolved@.len() - i,
    {
        let (key, p) = (&ctx.resolved[i].0, &ctx.resolved[i].1);
        assert(rv[i as int] == (key@, p@));
        let mut deps: Vec<String> = Vec::new();
        let mut j: usize = 0;
        while j < p.dependencies.len()
            invariant
                j <= p.dependencies@.len(),
                rv == resolved_view(ctx.resolved@),
                crate::text::string_views(deps@) =~= crate::text::string_views(p.dependencies@).take(j as int).map_values(
                    |d: Seq<char>| resolved_dep_key(rv, d),
                ),
            decreases p.dependencies@.len() - j,
        {
            let d = resolved_dep_key_exec(&ctx.resolved, &p.dependencies[j]);
            let ghost d0 = deps@;
            deps.push(d);
            assert(crate::text::string_views(deps@) =~= crate::text::string_views(d0).push(
                resolved_dep_key(rv, p.dependencies@[j as int]@),
            ));
            j = j + 1;
        }
        assert(crate::text::string_views(p.dependencies@).take(p.dependencies@.len() as int)
            =~= crate::text::string_views(p.dependencies@));
        let np = ResolvedPackage {
            pname: owned(p.pname.as_str()),
            version: owned(p.version.as_str()),
            url: owned(p.url.as_str()),
            integrity: owned(p.integrity.as_str()),
            dependencies: deps,
            has_bin: p.has_bin,
        };
        let ghost o0 = out@;
        out.push((owned(key.as_str()), np));
        assert(resolved_view(out@) =~= resolved_view(o0).push(finalized_entry(rv, rv[i as int])));
        i = i + 1;
    }
    assert(rv.take(rv.len() as int) =~= rv);
    ctx.resolved = out;
    proof {
        assert(resolved_keys(ctx@.resolved) =~= resolved_keys(rv));
    }
}

} // verus!

verus! {

use crate::text::{nix_escaped, join, decimal, escape_nix_string, join_exec, string_views};
use crate::sorting::{stable_sorted, stable_sort_indices, index_view};

pub open spec fn quoted(s: Seq<char>) -> Seq<char> {
    "\""@ + s + "\""@
}

/// The `dependencies = [ ... ];` line of a package entry (empty without
/// dependencies).
pub open spec fn deps_list_text(deps: Seq<Seq<char>>) -> Seq<char> {
    if deps.len() == 0 {
        seq![]
    } else {
        "\n      dependencies = [ "@ + join(deps.map_values(|d: Seq<char>| quoted(d)), " "@) + " ];"@
    }
}

pub open spec fn bin_text(has_bin: Option<bool>) -> Seq<char> {
    if has_bin == Some(true) {
        "\n      hasBin = true;"@
    } else {
        seq![]
    }
}

/// One attribute of the `packages` set of deps.nix.
pub open spec fn package_entry(key: Seq<char>, p: ResolvedPackageView) -> Seq<char> {
    "    \""@ + key + "\" = {\n      pname = \""@ + nix_escaped(p.pname) + "\";\n      version = \""@
        + p.version + "\";\n      url = \""@ + nix_escaped(p.url) + "\";\n      integrity = \""@
        + nix_escaped(p.integrity) + "\";"@ + deps_list_text(p.dependencies) + bin_text(p.has_bin)
        + "\n    };"@
}

pub open spec fn root_line(d: Seq<char>) -> Seq<char> {
    "    "@ + quoted(d)
}

pub open spec fn workspace_entry(w: WorkspacePackageRefView) -> Seq<char> {
    "    { name = \""@ + nix_escaped(w.name) + "\"; path = \""@ + nix_escaped(w.relative_path) + "\"; }"@
}

pub open spec fn workspace_section(entries: Seq<Seq<char>>) -> Seq<char> {
    if entries.len() == 0 {
        seq![]
    } else {
        "\n\n  # Workspace packages (local file: dependencies)\n  # These are built from source by pleme-linker build-project\n  workspacePackages = [\n"@
            + join(entries, "\n"@) + "\n  ];"@
    }
}

pub open spec fn nix_header() -> Seq<char> {
    "# Generated by pleme-linker resolve\n# DO NOT EDIT - regenerate with: pleme-linker resolve --project .\n#\n# This file IS the lockfile. It contains:\n# - All resolved packages with exact versions\n# - Tarball URLs and integrity hashes (from npm registry)\n# - Dependency relationships\n# - Workspace packages (local file: dependencies)\n#\n# Nix uses fetchurl to download each package (cached in Attic),\n# then pleme-linker build assembles node_modules.\n{\n  # Metadata\n  generatedAt = \""@
}

pub open spec fn workspace_names(ws: Seq<WorkspacePackageRefView>) -> Seq<Seq<char>> {
    ws.map_values(|w: WorkspacePackageRefView| w.name)
}

/// deps.nix for the state, with the packages, root dependencies and
/// workspace packages taken in the orders `pi`, `ri` and `wi`.
pub open spec fn deps_nix_text(st: ResolverState, ts: Seq<char>, pi: Seq<int>, ri: Seq<int>, wi: Seq<int>) -> Seq<char> {
    let packages = Seq::new(pi.len(), |a: int| package_entry(st.resolved[pi[a]].0, st.resolved[pi[a]].1));
    let roots = Seq::new(ri.len(), |a: int| root_line(st.root_deps[ri[a]]));
    let wss = Seq::new(wi.len(), |a: int| workspace_entry(st.workspace[wi[a]]));
    nix_header() + ts + "\";\n  resolverVersion = \"0.3.0\";\n  packageCount = "@ + decimal(st.resolved.len())
        + ";\n\n  # Root dependencies (direct deps from package.json)\n  rootDependencies = [\n"@ + join(roots, "\n"@)
        + "\n  ];\n\n  # All resolved packages\n  packages = {\n"@ + join(packages, "\n\n"@) + "\n  };"@
        + workspace_section(wss) + "\n}\n"@
}

/// The lockfile text for `st` generated at `ts`: packages sorted by key, root
/// dependencies sorted, workspace packages sorted by name (stably).
pub open spec fn deps_nix(st: ResolverState, ts: Seq<char>, text: Seq<char>) -> bool {
    exists|pi: Seq<int>, ri: Seq<int>, wi: Seq<int>|
        #![trigger deps_nix_text(st, ts, pi, ri, wi)]
        stable_sorted(resolved_keys(st.resolved), pi) && stable_sorted(st.root_deps, ri)
            && stable_sorted(workspace_names(st.workspace), wi) && text == deps_nix_text(st, ts, pi, ri, wi)
}

fn quoted_exec(s: &str) -> (r: String)
    ensures
        r@ == quoted(s@),
{
    let mut r = owned("\"");
    r.append(s);
    r.append("\"");
    r
}

fn package_entry_exec(key: &String, p: &ResolvedPackage) -> (r: String)
    ensures
        r@ == package_entry(key@, p@),
{
    let mut deps_str = String::new();
    if p.dependencies.len() > 0 {
        let mut qs: Vec<String> = Vec::new();
        let mut i: usize = 0;
        while i < p.dependencies.len()
            invariant
                i <= p.dependencies@.len(),
                string_views(qs@) =~= string_views(p.dependencies@).take(i as int).map_values(
                    |d: Seq<char>| quoted(d),
                ),
            decreases p.dependencies@.len() - i,
        {
            let ghost q0 = qs@;
            qs.push(quoted_exec(p.dependencies[i].as_str()));
            assert(string_views(qs@) =~= string_views(q0).push(quoted(p.dependencies@[i as int]@)));
            i = i + 1;
        }
        assert(string_views(p.dependencies@).take(p.dependencies@.len() as int) =~= string_views(p.dependencies@));
        deps_str.append("\n      dependencies = [ ");
        let joined = join_exec(&qs, " ");
        deps_str.append(joined.as_str());
        deps_str.append(" ];");
    }
    let mut r = owned("    \"");
    r.append(key.as_str());
    r.append("\" = {\n      pname = \"");
    r.append(escape_nix_string(p.pname.as_str()).as_str());
    r.append("\";\n      version = \"");
    r.append(p.version.as_str());
    r.append("\";\n      url = \"");
    r.append(escape_nix_string(p.url.as_str()).as_str());
    r.append("\";\n      integrity = \"");
    r.append(escape_nix_string(p.integrity.as_str()).as_str());
    r.append("\";");
    r.append(deps_str.as_str());
    if p.has_bin == Some(true) {
        r.append("\n      hasBin = true;");
    }
    r.append("\n    };");
    proof {
        assert(Seq::<char>::empty() + "\n      dependencies = [ "@ =~= "\n      dependencies = [ "@);
    }
    r
}

/// deps.nix content for the state, generated at `timestamp` (see `deps_nix`).
pub fn render_deps_nix(ctx: &ResolutionContext, timestamp: &str) -> (r: String)
    ensures
        deps_nix(ctx@, timestamp@, r@),
{
    let ghost st = ctx@;
    // Sort packages for deterministic output
    let mut pkeys: Vec<Vec<char>> = Vec::new();
    let mut i: usize = 0;
    while i < ctx.resolved.len()
        invariant
            i <= ctx.resolved@.len(),
            st == ctx@,
            crate::text::vec_views(pkeys@) =~= resolved_keys(st.resolved).take(i as int),
        decreases ctx.resolved@.len() - i,
    {
        let ghost k0 = pkeys@;
        pkeys.push(chars_of(ctx.resolved[i].0.as_str()));
        assert(crate::text::vec_views(pkeys@) =~= crate::text::vec_views(k0).push(ctx.resolved@[i as int].0@));
        i = i + 1;
    }
    assert(resolved_keys(st.resolved).take(st.resolved.len() as int) =~= resolved_keys(st.resolved));
    let porder = stable_sort_indices(&pkeys);
    // Sort root deps
    let mut rkeys: Vec<Vec<char>> = Vec::new();
    let mut i: usize = 0;
    while i < ctx.root_deps.len()
        invariant
            i <= ctx.root_deps@.len(),
            st == ctx@,
            crate::text::vec_views(rkeys@) =~= st.root_deps.take(i as int),
        decreases ctx.root_deps@.len() - i,
    {
        let ghost k0 = rkeys@;
        rkeys.push(chars_of(ctx.root_deps[i].as_str()));
        assert(crate::text::vec_views(rkeys@) =~= crate::text::vec_views(k0).push(ctx.root_deps@[i as int]@));
        i = i + 1;
    }
    assert(st.root_deps.take(st.root_deps.len() as int) =~= st.root_deps);
    let rorder = stable_sort_indices(&rkeys);
    // Sort workspace packages
    let mut wkeys: Vec<Vec<char>> = Vec::new();
    let mut i: usize = 0;
    while i < ctx.workspace_packages.len()
        invariant
            i <= ctx.workspace_packages@.len(),
            st == ctx@,
            crate::text::vec_views(wkeys@) =~= workspace_names(st.workspace).take(i as int),
        decreases ctx.workspace_packages@.len() - i,
    {
        let ghost k0 = wkeys@;
        wkeys.push(chars_of(ctx.workspace_packages[i].name.as_str()));
        assert(crate::text::vec_views(wkeys@) =~= crate::text::vec_views(k0).push(
            ctx.workspace_packages@[i as int].name@,
        ));
        i = i + 1;
    }
    assert(workspace_names(st.workspace).take(st.workspace.len() as int) =~= workspace_names(st.workspace));
    let worder = stable_sort_indices(&wkeys);
    let ghost pi = index_view(porder@);
    let ghost ri = index_view(rorder@);
    let ghost wi = index_view(worder@);
    // Generate package entries
    let mut entries: Vec<String> = Vec::new();
    let mut a: usize = 0;
    while a < porder.len()
        invariant
            a <= porder@.len(),
            st == ctx@,
            pi == index_view(porder@),
            stable_sorted(resolved_keys(st.resolved), pi),
            string_views(entries@) =~= Seq::new(
                a as nat,
                |x: int| package_entry(st.resolved[pi[x]].0, st.resolved[pi[x]].1),
            ),
        decreases porder@.len() - a,
    {
        let j = porder[a];
        assert(pi[a as int] == j);
        assert(0 <= pi[a as int] < resolved_keys(st.resolved).len());
        assert(st.resolved[j as int] == (ctx.resolved@[j as int].0@, ctx.resolved@[j as int].1@));
        let e = package_entry_exec(&ctx.resolved[j].0, &ctx.resolved[j].1);
        let ghost e0 = entries@;
        entries.push(e);
        assert(string_views(entries@) =~= string_views(e0).push(package_entry(st.resolved[pi[a as int]].0, st.resolved[pi[a as int]].1)));
        a = a + 1;
    }
    let mut roots: Vec<String> = Vec::new();
    let mut a: usize = 0;
    while a < rorder.len()
        invariant
            a <= rorder@.len(),
            st == ctx@,
            ri == index_view(rorder@),
            stable_sorted(st.root_deps, ri),
            string_views(roots@) =~= Seq::new(a as nat, |x: int| root_line(st.root_deps[ri[x]])),
        decreases rorder@.len() - a,
    {
        let j = rorder[a];
        assert(ri[a as int] == j);
        assert(0 <= ri[a as int] < st.root_deps.len());
        assert(st.root_deps[j as int] == ctx.root_deps@[j as int]@);
        let q = quoted_exec(ctx.root_deps[j].as_str());
        let mut line = owned("    ");
        line.append(q.as_str());
        let ghost r0 = roots@;
        roots.push(line);
        assert(string_views(roots@) =~= string_views(r0).push(root_line(st.root_deps[ri[a as int]])));
        a = a + 1;
    }
    let mut wss: Vec<String> = Vec::new();
    let mut a: usize = 0;
    while a < worder.len()
        invariant
            a <= worder@.len(),
            st == ctx@,
            wi == index_view(worder@),
            stable_sorted(workspace_names(st.workspace), wi),
            string_views(wss@) =~= Seq::new(a as nat, |x: int| workspace_entry(st.workspace[wi[x]])),
        decreases worder@.len() - a,
    {
        let j = worder[a];
        assert(wi[a as int] == j);
        assert(0 <= wi[a as int] < workspace_names(st.workspace).len());
        let w = &ctx.workspace_packages[j];
        assert(st.workspace[j as int] == w@);
        let mut line = owned("    { name = \"");
        line.append(escape_nix_string(w.name.as_str()).as_str());
        line.append("\"; path = \"");
        line.append(escape_nix_string(w.relative_path.as_str()).as_str());
        line.append("\"; }");
        let ghost w0 = wss@;
        wss.push(line);
        assert(string_views(wss@) =~= string_views(w0).push(workspace_entry(st.workspace[wi[a as int]])));
        a = a + 1;
    }
    let mut ws_section = String::new();
    if wss.len() > 0 {
        ws_section.append(
            "\n\n  # Workspace packages (local file: dependencies)\n  # These are built from source by pleme-linker build-project\n  workspacePackages = [\n",
        );
        ws_section.append(join_exec(&wss, "\n").as_str());
        ws_section.append("\n  ];");
        proof {
            let h = "\n\n  # Workspace packages (local file: dependencies)\n  # These are built from source by pleme-linker build-project\n  workspacePackages = [\n"@;
            assert(Seq::<char>::empty() + h =~= h);
        }
    }
    let mut out = owned(
        "# Generated by pleme-linker resolve\n# DO NOT EDIT - regenerate with: pleme-linker resolve --project .\n#\n# This file IS the lockfile. It contains:\n# - All resolved packages with exact versions\n# - Tarball URLs and integrity hashes (from npm registry)\n# - Dependency relationships\n# - Workspace packages (local file: dependencies)\n#\n# Nix uses fetchurl to download each package (cached in Attic),\n# then pleme-linker build assembles node_modules.\n{\n  # Metadata\n  generatedAt = \"",
    );
    out.append(timestamp);
    out.append("\";\n  resolverVersion = \"0.3.0\";\n  packageCount = ");
    out.append(crate::text::decimal_exec(ctx.resolved.len()).as_str());
    out.append(";\n\n  # Root dependencies (direct deps from package.json)\n  rootDependencies = [\n");
    out.append(join_exec(&roots, "\n").as_str());
    out.append("\n  ];\n\n  # All resolved packages\n  packages = {\n");
    out.append(join_exec(&entries, "\n\n").as_str());
    out.append("\n  };");
    out.append(ws_section.as_str());
    out.append("\n}\n");
    proof {
        assert(string_views(entries@) =~= Seq::new(pi.len(), |x: int| package_entry(st.resolved[pi[x]].0, st.resolved[pi[x]].1)));
        assert(string_views(roots@) =~= Seq::new(ri.len(), |x: int| root_line(st.root_deps[ri[x]])));
        assert(string_views(wss@) =~= Seq::new(wi.len(), |x: int| workspace_entry(st.workspace[wi[x]])));
        assert(out@ == deps_nix_text(st, timestamp@, pi, ri, wi));
    }
    out
}

} // verus!

verus! {

/// The time since the Unix epoch by the system clock (`SystemTime::now`,
/// then `duration_since(UNIX_EPOCH)`), as whole seconds and nanoseconds past
/// them; `None` when the clock reads earlier than the epoch. The reading is
/// the clock's: only that the nanoseconds are below one second is stated.
#[verifier::external_body]
fn system_time_now() -> (r: Option<(u64, u32)>)
    ensures
        r matches Some((_s, n)) ==> n < 1_000_000_000,
{
    std::time::SystemTime::now().duration_since(std::time::UNIX_EPOCH).ok().map(|d| (d.as_secs(), d.subsec_nanos()))
}

/// What `chrono::DateTime::from_timestamp(secs, nanos)` formatted with
/// `%Y-%m-%dT%H:%M:%SZ` gives; `None` when chrono finds the time out of range.
pub uninterp spec fn chrono_utc_text(secs: int, nanos: int) -> Option<Seq<char>>;

/// The last second whose year has four digits (9999-12-31T23:59:59Z).
pub open spec fn last_four_digit_year_second() -> int {
    253402300799
}

/// A UTC timestamp of the form `YYYY-MM-DDTHH:MM:SSZ`.
pub open spec fn timestamp_form(t: Seq<char>) -> bool {
    &&& t.len() == 20
    &&& t[4] == '-' && t[7] == '-' && t[10] == 'T' && t[13] == ':' && t[16] == ':' && t[19] == 'Z'
    &&& forall|i: int|
        0 <= i < 19 && i != 4 && i != 7 && i != 10 && i != 13 && i != 16 ==> '0' <= #[trigger] t[i] <= '9'
}

/// The UTC time `secs` seconds and `nanos` nanoseconds after the Unix epoch,
/// formatted `%Y-%m-%dT%H:%M:%SZ` (`DateTime::from_timestamp`, then
/// `format`). Chrono documents `None` only for an out-of-range time or an
/// invalid nanosecond count, and `%Y` as the year zero-padded to four digits,
/// so from the epoch through the year 9999 the text is a `timestamp_form`.
#[verifier::external_body]
fn utc_text(secs: i64, nanos: u32) -> (r: Option<String>)
    ensures
        crate::externals::opt_view(r) == chrono_utc_text(secs as int, nanos as int),
        r is None ==> !(0 <= secs <= last_four_digit_year_second() && nanos < 1_000_000_000),
        r matches Some(t) ==> (secs <= last_four_digit_year_second() && secs >= 0 ==> timestamp_form(t@)),
{
    chrono::DateTime::from_timestamp(secs, nanos).map(|dt| dt.format("%Y-%m-%dT%H:%M:%SZ").to_string())
}

/// `ts` is how the clock can read, formatted: chrono's text for some time
/// from the epoch on, of the form `YYYY-MM-DDTHH:MM:SSZ` through the year 9999.
pub open spec fn clock_text(ts: Seq<char>) -> bool {
    exists|secs: int, nanos: int|
        0 <= secs <= i64::MAX && 0 <= nanos < 1_000_000_000 && #[trigger] chrono_utc_text(secs, nanos) == Some(ts)
            && (secs <= last_four_digit_year_second() ==> timestamp_form(ts))
}

/// Generate deps.nix content, stamped with the current UTC time. Fails when
/// the system clock reads before the Unix epoch or past what chrono can hold.
pub fn generate_deps_nix(ctx: &ResolutionContext) -> (r: Result<String, String>)
    ensures
        r matches Ok(t) ==> exists|ts: Seq<char>| #[trigger] clock_text(ts) && deps_nix(ctx@, ts, t@),
{
    let (secs, nanos) = match system_time_now() {
        Some(t) => t,
        None => {
            return Err(owned("system time before Unix epoch"));
        },
    };
    if secs > 9223372036854775807u64 {
        return Err(owned("system time out of range"));
    }
    let s = secs as i64;
    match utc_text(s, nanos) {
        Some(timestamp) => {
            let text = render_deps_nix(ctx, timestamp.as_str());
            assert(clock_text(timestamp@));
            Ok(text)
        },
        None => Err(owned("system time out of range")),
    }
}

/// The registry URL of a package's metadata: the registry, `/`, and the name,
/// with `/` written `%2f` in scoped names.
pub open spec fn metadata_url(registry: Seq<char>, name: Seq<char>) -> Seq<char> {
    if starts_with(name, seq!['@']) {
        registry + seq!['/'] + crate::text::replace_all(name, seq!['/'], seq!['%', '2', 'f'])
    } else {
        registry + seq!['/'] + name
    }
}

/// The URL `fetch_single_metadata` requests for `name`.
pub fn metadata_url_exec(registry: &str, name: &str) -> (r: String)
    ensures
        r@ == metadata_url(registry@, name@),
{
    let nc = chars_of(name);
    let at = vec!['@'];
    let slash = vec!['/'];
    let enc = vec!['%', '2', 'f'];
    assert(at@ =~= seq!['@']);
    assert(slash@ =~= seq!['/']);
    assert(enc@ =~= seq!['%', '2', 'f']);
    let mut r = owned(registry);
    r.append("/");
    proof {
        reveal_strlit("/");
        assert("/"@ =~= seq!['/']);
    }
    if crate::text::starts_with_exec(nc.as_slice(), at.as_slice()) {
        let e = crate::text::replace_all_exec(nc.as_slice(), slash.as_slice(), enc.as_slice());
        r.append(string_of(&e).as_str());
    } else {
        r.append(name);
    }
    r
}

} // verus!

verus! {

/// Only direct dependencies become root dependencies: processing an item
/// leaves the root requests as they are, and adds a root dependency only when
/// the item's queue key is a root request, one key at a time.
pub proof fn law_root_dependencies_are_direct(st: ResolverState, item: (Seq<char>, Seq<char>, bool, Seq<char>))
    ensures
        ({
            let s = process_item(st, item).0;
            &&& s.root_requests == st.root_requests
            &&& s.root_deps == st.root_deps || (st.root_requests.contains(dep_key(item.0, item.1))
                && s.root_deps == st.root_deps.push(s.root_deps.last()))
        }),
{
    let (name, c, opt, t) = item;
    let (an, ac, _u) = alias_target(name, c);
    match lookup(st.cache, t) {
        None => {},
        Some(m) => match resolve_version_index(m, ac) {
            None => {},
            Some(vi) => {
                let info = m.versions[vi].1;
                let key = dep_key(an, info.version);
                let s0 = root_noted(st, dep_key(name, c), key);
                if platform_compatible(info.os, st.platform) && !resolved_keys(st.resolved).contains(key) {
                    let s1 = queue_deps(s0, info.dependencies, false).0;
                    let s2 = queue_deps(s1, info.optional_dependencies, true).0;
                    lemma_queue_deps_frame(s0, info.dependencies, false);
                    lemma_queue_deps_frame(s1, info.optional_dependencies, true);
                    lemma_queue_deps_frame(s2, info.peer_dependencies, true);
                }
            },
        },
    }
}

/// A direct dependency that resolves is noted as a root dependency: when the
/// item's queue key is a root request, its metadata is cached, a version fits
/// and the platform is supported, `name@version` is among the root
/// dependencies afterwards.
pub proof fn law_direct_dependency_noted(st: ResolverState, item: (Seq<char>, Seq<char>, bool, Seq<char>))
    requires
        st.root_requests.contains(dep_key(item.0, item.1)),
        lookup(st.cache, item.3) is Some,
        resolve_version_index(lookup(st.cache, item.3)->0, alias_target(item.0, item.1).1) is Some,
        ({
            let m = lookup(st.cache, item.3)->0;
            let vi = resolve_version_index(m, alias_target(item.0, item.1).1)->0;
            platform_compatible(m.versions[vi].1.os, st.platform)
        }),
    ensures
        ({
            let m = lookup(st.cache, item.3)->0;
            let vi = resolve_version_index(m, alias_target(item.0, item.1).1)->0;
            process_item(st, item).0.root_deps.contains(dep_key(alias_target(item.0, item.1).0, m.versions[vi].1.version))
        }),
{
    let (name, c, opt, t) = item;
    let (an, ac, _u) = alias_target(name, c);
    let m = lookup(st.cache, t)->0;
    let vi = resolve_version_index(m, ac)->0;
    let info = m.versions[vi].1;
    let key = dep_key(an, info.version);
    let s0 = root_noted(st, dep_key(name, c), key);
    assert(s0.root_deps.contains(key)) by {
        if !st.root_deps.contains(key) {
            assert(s0.root_deps.last() == key);
        }
    }
    if !resolved_keys(st.resolved).contains(key) {
        let s1 = queue_deps(s0, info.dependencies, false).0;
        let s2 = queue_deps(s1, info.optional_dependencies, true).0;
        lemma_queue_deps_frame(s0, info.dependencies, false);
        lemma_queue_deps_frame(s1, info.optional_dependencies, true);
        lemma_queue_deps_frame(s2, info.peer_dependencies, true);
    }
}

/// Queueing the same dependency twice queues it once: the second call changes
/// nothing and gives the same key.
pub proof fn law_queue_dependency_once(st: ResolverState, name: Seq<char>, c: Seq<char>, o1: bool, o2: bool)
    ensures
        ({
            let (s1, k1) = queue_dep(st, name, c, o1);
            let (s2, k2) = queue_dep(s1, name, c, o2);
            s2 == s1 && k2 == k1
        }),
{
    let (s1, k1) = queue_dep(st, name, c, o1);
    if !is_local_spec(c) && !st.queued.contains(dep_key(name, c)) {
        assert(s1.queued[s1.queued.len() - 1] == dep_key(name, c));
    }
}

/// A local dependency (`workspace:`, `file:`, `link:`) is never queued.
pub proof fn law_local_dependency_not_queued(st: ResolverState, name: Seq<char>, c: Seq<char>, o: bool)
    requires
        is_local_spec(c),
    ensures
        queue_dep(st, name, c, o) == (st, Option::<Seq<char>>::None),
{
}

} // verus!

verus! {

proof fn lemma_take_batch_fetch(
    st: ResolverState,
    q: Seq<(Seq<char>, Seq<char>, bool)>,
    items: Seq<(Seq<char>, Seq<char>, bool, Seq<char>)>,
    fetch: Seq<Seq<char>>,
)
    requires
        fetch.len() < MAX_CONCURRENT_FETCHES,
        fetch.no_duplicates(),
        forall|i: int| 0 <= i < fetch.len() ==> !cache_keys(st.cache).contains(#[trigger] fetch[i]),
    ensures
        ({
            let f = take_batch(st, q, items, fetch).2;
            &&& f.len() <= MAX_CONCURRENT_FETCHES
            &&& f.no_duplicates()
            &&& forall|i: int| 0 <= i < f.len() ==> !cache_keys(st.cache).contains(#[trigger] f[i])
        }),
    decreases q.len(),
{
    if q.len() > 0 {
        let (name, c, opt) = q[0];
        let (an, ac, t) = alias_target(name, c);
        if satisfied(st, an, ac) {
            lemma_take_batch_fetch(st, q.skip(1), items, fetch);
        } else {
            let fetch2 = if !cache_keys(st.cache).contains(t) && !fetch.contains(t) {
                fetch.push(t)
            } else {
                fetch
            };
            let items2 = items.push((name, c, opt, t));
            if fetch2.len() < MAX_CONCURRENT_FETCHES {
                lemma_take_batch_fetch(st, q.skip(1), items2, fetch2);
            }
        }
    }
}

/// A batch asks for at most `MAX_CONCURRENT_FETCHES` packages, each once,
/// none of them cached.
pub proof fn law_batch_fetch_bounded(st: ResolverState)
    ensures
        ({
            let f = take_batch(st, st.queue, seq![], seq![]).2;
            &&& f.len() <= MAX_CONCURRENT_FETCHES
            &&& f.no_duplicates()
            &&& forall|i: int| 0 <= i < f.len() ==> !cache_keys(st.cache).contains(#[trigger] f[i])
        }),
{
    lemma_take_batch_fetch(st, st.queue, seq![], seq![]);
}

} // verus!

verus! {

/// Same state, same timestamp, same deps.nix: the text does not depend on
/// the order the resolver met the packages in beyond what the state holds.
pub proof fn law_deps_nix_deterministic(st: ResolverState, ts: Seq<char>, t1: Seq<char>, t2: Seq<char>)
    requires
        deps_nix(st, ts, t1),
        deps_nix(st, ts, t2),
    ensures
        t1 == t2,
{
    let (p1, r1, w1) = choose|pi: Seq<int>, ri: Seq<int>, wi: Seq<int>|
        #![trigger deps_nix_text(st, ts, pi, ri, wi)]
        stable_sorted(resolved_keys(st.resolved), pi) && stable_sorted(st.root_deps, ri)
            && stable_sorted(workspace_names(st.workspace), wi) && t1 == deps_nix_text(st, ts, pi, ri, wi);
    let (p2, r2, w2) = choose|pi: Seq<int>, ri: Seq<int>, wi: Seq<int>|
        #![trigger deps_nix_text(st, ts, pi, ri, wi)]
        stable_sorted(resolved_keys(st.resolved), pi) && stable_sorted(st.root_deps, ri)
            && stable_sorted(workspace_names(st.workspace), wi) && t2 == deps_nix_text(st, ts, pi, ri, wi);
    crate::sorting::lemma_stable_sorted_unique(resolved_keys(st.resolved), p1, p2);
    crate::sorting::lemma_stable_sorted_unique(st.root_deps, r1, r2);
    crate::sorting::lemma_stable_sorted_unique(workspace_names(st.workspace), w1, w2);
}

} // verus!

verus! {

/// deps.nix depends on the resolver's state only as maps and sets: two states
/// whose resolved packages, root dependencies and workspace packages hold
/// the same entries (keys distinct, in whatever order they were added) give
/// the same text for the same timestamp.
pub proof fn law_deps_nix_map_determined(s1: ResolverState, s2: ResolverState, ts: Seq<char>, t1: Seq<char>, t2: Seq<char>)
    requires
        deps_nix(s1, ts, t1),
        deps_nix(s2, ts, t2),
        resolved_keys(s1.resolved).no_duplicates(),
        resolved_keys(s2.resolved).no_duplicates(),
        forall|x: (Seq<char>, ResolvedPackageView)| s1.resolved.contains(x) <==> s2.resolved.contains(x),
        s1.root_deps.no_duplicates(),
        s2.root_deps.no_duplicates(),
        forall|x: Seq<char>| s1.root_deps.contains(x) <==> s2.root_deps.contains(x),
        workspace_names(s1.workspace).no_duplicates(),
        workspace_names(s2.workspace).no_duplicates(),
        forall|x: WorkspacePackageRefView| s1.workspace.contains(x) <==> s2.workspace.contains(x),
    ensures
        t1 == t2,
{
    let (p1, r1, w1) = choose|pi: Seq<int>, ri: Seq<int>, wi: Seq<int>|
        #![trigger deps_nix_text(s1, ts, pi, ri, wi)]
        stable_sorted(resolved_keys(s1.resolved), pi) && stable_sorted(s1.root_deps, ri)
            && stable_sorted(workspace_names(s1.workspace), wi) && t1 == deps_nix_text(s1, ts, pi, ri, wi);
    let (p2, r2, w2) = choose|pi: Seq<int>, ri: Seq<int>, wi: Seq<int>|
        #![trigger deps_nix_text(s2, ts, pi, ri, wi)]
        stable_sorted(resolved_keys(s2.resolved), pi) && stable_sorted(s2.root_deps, ri)
            && stable_sorted(workspace_names(s2.workspace), wi) && t2 == deps_nix_text(s2, ts, pi, ri, wi);
    let kr = |e: (Seq<char>, ResolvedPackageView)| e.0;
    let ki = |x: Seq<char>| x;
    let kw = |w: WorkspacePackageRefView| w.name;
    assert(crate::sorting::keyed(s1.resolved, resolved_keys(s1.resolved), kr));
    assert(crate::sorting::keyed(s2.resolved, resolved_keys(s2.resolved), kr));
    assert(crate::sorting::keyed(s1.root_deps, s1.root_deps, ki));
    assert(crate::sorting::keyed(s2.root_deps, s2.root_deps, ki));
    assert(crate::sorting::keyed(s1.workspace, workspace_names(s1.workspace), kw));
    assert(crate::sorting::keyed(s2.workspace, workspace_names(s2.workspace), kw));
    crate::sorting::lemma_sorted_same_items(s1.resolved, resolved_keys(s1.resolved), p1, s2.resolved, resolved_keys(s2.resolved), p2, kr);
    crate::sorting::lemma_sorted_same_items(s1.root_deps, s1.root_deps, r1, s2.root_deps, s2.root_deps, r2, ki);
    crate::sorting::lemma_sorted_same_items(s1.workspace, workspace_names(s1.workspace), w1, s2.workspace, workspace_names(s2.workspace), w2, kw);
    let o1 = crate::sorting::in_order(s1.resolved, p1);
    let o2 = crate::sorting::in_order(s2.resolved, p2);
    assert(s1.resolved.len() == p1.len() && s2.resolved.len() == p2.len());
    assert(o1.len() == o2.len());
    assert(Seq::new(p1.len(), |a: int| package_entry(s1.resolved[p1[a]].0, s1.resolved[p1[a]].1))
        =~= Seq::new(p2.len(), |a: int| package_entry(s2.resolved[p2[a]].0, s2.resolved[p2[a]].1))) by {
        assert forall|a: int| 0 <= a < p1.len() implies s1.resolved[p1[a]] == s2.resolved[p2[a]] by {
            assert(o1[a] == o2[a]);
        }
    }
    let q1 = crate::sorting::in_order(s1.root_deps, r1);
    let q2 = crate::sorting::in_order(s2.root_deps, r2);
    assert(Seq::new(r1.len(), |a: int| root_line(s1.root_deps[r1[a]]))
        =~= Seq::new(r2.len(), |a: int| root_line(s2.root_deps[r2[a]]))) by {
        assert(q1.len() == q2.len());
        assert forall|a: int| 0 <= a < r1.len() implies s1.root_deps[r1[a]] == s2.root_deps[r2[a]] by {
            assert(q1[a] == q2[a]);
        }
    }
    let v1 = crate::sorting::in_order(s1.workspace, w1);
    let v2 = crate::sorting::in_order(s2.workspace, w2);
    assert(Seq::new(w1.len(), |a: int| workspace_entry(s1.workspace[w1[a]]))
        =~= Seq::new(w2.len(), |a: int| workspace_entry(s2.workspace[w2[a]]))) by {
        assert(v1.len() == v2.len());
        assert forall|a: int| 0 <= a < w1.len() implies s1.workspace[w1[a]] == s2.workspace[w2[a]] by {
            assert(v1[a] == v2[a]);
        }
    }
}

/// After the rewrite, each dependency key is either the one recorded, when
/// no resolved package satisfies it, or `name@version` of the first resolved
/// package of that name whose version satisfies its constraint; the resolved
/// keys themselves do not change.
pub proof fn law_finalized_dependency(st: ResolverState, i: int, j: int)
    requires
        0 <= i < st.resolved.len(),
        0 <= j < st.resolved[i].1.dependencies.len(),
    ensures
        ({
            let d = st.resolved[i].1.dependencies[j];
            let f = finalized(st).resolved[i].1.dependencies[j];
            let (n, c) = split_dep_key(d);
            &&& finalized(st).resolved[i].0 == st.resolved[i].0
            &&& (f == d && forall|x: int| 0 <= x < st.resolved.len() ==> !pkg_matches(st.resolved[x].1, n, c))
                || exists|x: int|
                0 <= x < st.resolved.len() && pkg_matches(st.resolved[x].1, n, c)
                    && f == dep_key(n, #[trigger] st.resolved[x].1.version)
        }),
{
    let d = st.resolved[i].1.dependencies[j];
    let (n, c) = split_dep_key(d);
    lemma_matching_index(st.resolved, n, c);
    if let Some(x) = matching_index(st.resolved, n, c) {
        assert(pkg_matches(st.resolved[x].1, n, c));
    }
}

} // verus!

verus! {

/// A package is recorded with the binaries its chosen version declares: when
/// processing an item resolves a package, the recorded entry is that
/// version's `name@version` with its name, version and tarball URL, and
/// `has_bin` is `Some(true)` exactly when the version's metadata declares
/// binaries (`None` otherwise).
pub proof fn law_resolved_package_has_bin(st: ResolverState, item: (Seq<char>, Seq<char>, bool, Seq<char>))
    requires
        process_item(st, item).1 == 1,
    ensures
        ({
            let m = lookup(st.cache, item.3)->0;
            let (an, ac, _u) = alias_target(item.0, item.1);
            let info = m.versions[resolve_version_index(m, ac)->0].1;
            let s = process_item(st, item).0;
            &&& s.resolved.len() == st.resolved.len() + 1
            &&& s.resolved.last().0 == dep_key(an, info.version)
            &&& s.resolved.last().1.has_bin == (if info.has_bin { Some(true) } else { None })
            &&& s.resolved.last().1.pname == an
            &&& s.resolved.last().1.version == info.version
            &&& s.resolved.last().1.url == info.dist.tarball
        }),
{
    let (name, c, opt, t) = item;
    let (an, ac, _u) = alias_target(name, c);
    let m = lookup(st.cache, t)->0;
    let vi = resolve_version_index(m, ac)->0;
    let info = m.versions[vi].1;
    let key = dep_key(an, info.version);
    let s0 = root_noted(st, dep_key(name, c), key);
    let s1 = queue_deps(s0, info.dependencies, false).0;
    let s2 = queue_deps(s1, info.optional_dependencies, true).0;
    lemma_queue_deps_frame(s0, info.dependencies, false);
    lemma_queue_deps_frame(s1, info.optional_dependencies, true);
    lemma_queue_deps_frame(s2, info.peer_dependencies, true);
}

} // verus!
