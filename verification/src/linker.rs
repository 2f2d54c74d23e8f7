//! Laying out node_modules from a build manifest: store names, which version
//! of each package is hoisted to the root, which dependencies need nested
//! links, and the launchers of package binaries.
use vstd::prelude::*;
use crate::text::{starts_with, chars_of, string_of, owned, string_views, replace_all};
use crate::types::{BuildManifestEntry};
use crate::resolver::{dep_key, split_dep_key, dep_key_exec};
use crate::cli::{BuildArgs, BuildNodeModulesArgs};

verus! {

/// The directory of a package in the `.pnpm` store: its name with `/` as
/// `+`, `@`, and its version.
pub open spec fn store_name(pname: Seq<char>, version: Seq<char>) -> Seq<char> {
    replace_all(pname, seq!['/'], seq!['+']) + seq!['@'] + version
}

pub fn store_name_exec(pname: &str, version: &str) -> (r: String)
    ensures
        r@ == store_name(pname@, version@),
{
    let cs = chars_of(pname);
    let slash = vec!['/'];
    let plus = vec!['+'];
    assert(slash@ =~= seq!['/']);
    assert(plus@ =~= seq!['+']);
    let replaced = crate::text::replace_all_exec(cs.as_slice(), slash.as_slice(), plus.as_slice());
    let mut r = string_of(&replaced);
    r.append("@");
    r.append(version);
    proof {
        reveal_strlit("@");
        assert("@"@ =~= seq!['@']);
    }
    r
}

/// The manifest entry's key, `pname@version`.
pub open spec fn entry_key(e: BuildManifestEntry) -> Seq<char> {
    dep_key(e.pname@, e.version@)
}

pub open spec fn entry_keys(ps: Seq<BuildManifestEntry>) -> Seq<Seq<char>> {
    ps.map_values(|e: BuildManifestEntry| entry_key(e))
}

/// The hoisted choice for each package name, as `(name, key)` pairs with one
/// pair per name (a map); `insert` replaces a name's pair or adds one.
pub open spec fn assoc_insert(m: Seq<(Seq<char>, Seq<char>)>, k: Seq<char>, v: Seq<char>) -> Seq<(Seq<char>, Seq<char>)> {
    match crate::resolver::first_key_index(m, k) {
        Some(i) => m.update(i, (k, v)),
        None => m.push((k, v)),
    }
}

/// First pass: each root dependency that was extracted is hoisted for its
/// name (a later one for the same name wins).
pub open spec fn hoist_roots(m: Seq<(Seq<char>, Seq<char>)>, roots: Seq<Seq<char>>, keys: Seq<Seq<char>>) -> Seq<(Seq<char>, Seq<char>)>
    decreases roots.len(),
{
    if roots.len() == 0 {
        m
    } else {
        let m1 = hoist_roots(m, roots.drop_last(), keys);
        let r = roots.last();
        if keys.contains(r) {
            assoc_insert(m1, split_dep_key(r).0, r)
        } else {
            m1
        }
    }
}

/// Second pass: a package whose name is not hoisted yet is hoisted.
pub open spec fn hoist_packages(m: Seq<(Seq<char>, Seq<char>)>, ps: Seq<BuildManifestEntry>) -> Seq<(Seq<char>, Seq<char>)>
    decreases ps.len(),
{
    if ps.len() == 0 {
        m
    } else {
        let m1 = hoist_packages(m, ps.drop_last());
        let e = ps.last();
        if crate::resolver::first_key_index(m1, e.pname@) is Some {
            m1
        } else {
            m1.push((e.pname@, entry_key(e)))
        }
    }
}

/// The packages linked at the root of node_modules: root dependencies
/// first, then for every other name the first package listed.
pub open spec fn hoisting(ps: Seq<BuildManifestEntry>, roots: Seq<Seq<char>>) -> Seq<(Seq<char>, Seq<char>)> {
    hoist_packages(hoist_roots(seq![], roots, entry_keys(ps)), ps)
}

pub open spec fn assoc_keys(m: Seq<(Seq<char>, Seq<char>)>) -> Seq<Seq<char>> {
    m.map_values(|p: (Seq<char>, Seq<char>)| p.0)
}

fn lookup_pair(m: &Vec<(String, String)>, k: &str) -> (r: Option<usize>)
    ensures
        match r {
            Some(i) => crate::resolver::first_key_index(crate::types::pair_views(m@), k@) == Some(i as int),
            None => crate::resolver::first_key_index(crate::types::pair_views(m@), k@) is None,
        },
        r matches Some(i) ==> i < m@.len(),
{
    proof {
        crate::resolver::lemma_first_key_index(crate::types::pair_views(m@), k@);
    }
    crate::resolver::find_pair(m, k)
}

fn assoc_insert_exec(m: &mut Vec<(String, String)>, k: String, v: String)
    ensures
        crate::types::pair_views(final(m)@) == assoc_insert(crate::types::pair_views(old(m)@), k@, v@),
{
    let ghost pv = crate::types::pair_views(m@);
    match lookup_pair(m, k.as_str()) {
        Some(i) => {
            let ghost kv = (k@, v@);
            m.set(i, (k, v));
            assert(crate::types::pair_views(m@) =~= pv.update(i as int, kv));
        },
        None => {
            let ghost kv = (k@, v@);
            m.push((k, v));
            assert(crate::types::pair_views(m@) =~= pv.push(kv));
        },
    }
}

/// Which package version is linked at the root for each name (see
/// `hoisting`), as `(name, key)` pairs.
pub fn hoist_plan(packages: &Vec<BuildManifestEntry>, root_dependencies: &Vec<String>) -> (r: Vec<(String, String)>)
    ensures
        crate::types::pair_views(r@) == hoisting(packages@, string_views(root_dependencies@)),
{
    let ghost keys = entry_keys(packages@);
    let mut extracted: Vec<String> = Vec::new();
    let mut i: usize = 0;
    while i < packages.len()
        invariant
            i <= packages@.len(),
            keys == entry_keys(packages@),
            string_views(extracted@) =~= keys.take(i as int),
        decreases packages@.len() - i,
    {
        let ghost e0 = string_views(extracted@);
        extracted.push(dep_key_exec(packages[i].pname.as_str(), packages[i].version.as_str()));
        assert(string_views(extracted@) =~= e0.push(keys[i as int]));
        i = i + 1;
    }
    assert(keys.take(packages@.len() as int) =~= keys);
    let ghost rv = string_views(root_dependencies@);
    let mut hoisted: Vec<(String, String)> = Vec::new();
    let mut j: usize = 0;
    assert(rv.take(0) =~= Seq::<Seq<char>>::empty());
    assert(crate::types::pair_views(hoisted@) =~= Seq::<(Seq<char>, Seq<char>)>::empty());
    while j < root_dependencies.len()
        invariant
            j <= root_dependencies@.len(),
            rv == string_views(root_dependencies@),
            string_views(extracted@) == keys,
            crate::types::pair_views(hoisted@) == hoist_roots(seq![], rv.take(j as int), keys),
        decreases root_dependencies@.len() - j,
    {
        assert(rv.take(j + 1).drop_last() =~= rv.take(j as int));
        assert(rv.take(j + 1).last() == root_dependencies@[j as int]@);
        let r = &root_dependencies[j];
        if crate::resolver::has_string(&extracted, r.as_str()) {
            let (pname, _version) = crate::resolver::split_dep_key_exec(r);
            assoc_insert_exec(&mut hoisted, pname, owned(r.as_str()));
        }
        j = j + 1;
    }
    assert(rv.take(root_dependencies@.len() as int) =~= rv);
    let ghost h0 = crate::types::pair_views(hoisted@);
    let mut i: usize = 0;
    assert(packages@.take(0) =~= Seq::<BuildManifestEntry>::empty());
    while i < packages.len()
        invariant
            i <= packages@.len(),
            crate::types::pair_views(hoisted@) == hoist_packages(h0, packages@.take(i as int)),
        decreases packages@.len() - i,
    {
        assert(packages@.take(i + 1).drop_last() =~= packages@.take(i as int));
        assert(packages@.take(i + 1).last() == packages@[i as int]);
        let e = &packages[i];
        if lookup_pair(&hoisted, e.pname.as_str()).is_none() {
            let ghost hv = crate::types::pair_views(hoisted@);
            let key = dep_key_exec(e.pname.as_str(), e.version.as_str());
            hoisted.push((owned(e.pname.as_str()), key));
            assert(crate::types::pair_views(hoisted@) =~= hv.push((e.pname@, entry_key(*e))));
        }
        i = i + 1;
    }
    assert(packages@.take(packages@.len() as int) =~= packages@);
    hoisted
}

/// Inserting keeps one pair per name.
proof fn lemma_assoc_insert_unique(m: Seq<(Seq<char>, Seq<char>)>, k: Seq<char>, v: Seq<char>)
    requires
        assoc_keys(m).no_duplicates(),
    ensures
        assoc_keys(assoc_insert(m, k, v)).no_duplicates(),
        assoc_keys(assoc_insert(m, k, v)).contains(k),
{
    crate::resolver::lemma_first_key_index(m, k);
    match crate::resolver::first_key_index(m, k) {
        Some(i) => {
            assert(assoc_keys(m.update(i, (k, v))) =~= assoc_keys(m));
            assert(assoc_keys(m.update(i, (k, v)))[i] == k);
        },
        None => {
            assert(assoc_keys(m.push((k, v))) =~= assoc_keys(m).push(k));
            assert(assoc_keys(m.push((k, v)))[m.len() as int] == k);
        },
    }
}

proof fn lemma_hoist_roots_unique(roots: Seq<Seq<char>>, keys: Seq<Seq<char>>)
    ensures
        assoc_keys(hoist_roots(seq![], roots, keys)).no_duplicates(),
    decreases roots.len(),
{
    if roots.len() == 0 {
        assert(assoc_keys(Seq::<(Seq<char>, Seq<char>)>::empty()) =~= Seq::<Seq<char>>::empty());
    } else {
        lemma_hoist_roots_unique(roots.drop_last(), keys);
        let m1 = hoist_roots(seq![], roots.drop_last(), keys);
        if keys.contains(roots.last()) {
            lemma_assoc_insert_unique(m1, split_dep_key(roots.last()).0, roots.last());
        }
    }
}

proof fn lemma_hoist_packages_unique(m: Seq<(Seq<char>, Seq<char>)>, ps: Seq<BuildManifestEntry>)
    requires
        assoc_keys(m).no_duplicates(),
    ensures
        assoc_keys(hoist_packages(m, ps)).no_duplicates(),
        forall|k: Seq<char>| assoc_keys(m).contains(k) ==> #[trigger] assoc_keys(hoist_packages(m, ps)).contains(k),
        forall|j: int| 0 <= j < ps.len() ==> assoc_keys(hoist_packages(m, ps)).contains(#[trigger] ps[j].pname@),
    decreases ps.len(),
{
    if ps.len() > 0 {
        lemma_hoist_packages_unique(m, ps.drop_last());
        let m1 = hoist_packages(m, ps.drop_last());
        let m2 = hoist_packages(m, ps);
        let e = ps.last();
        crate::resolver::lemma_first_key_index(m1, e.pname@);
        if crate::resolver::first_key_index(m1, e.pname@) is None {
            assert(m2 == m1.push((e.pname@, entry_key(e))));
            assert(assoc_keys(m2) =~= assoc_keys(m1).push(e.pname@));
            assert(!assoc_keys(m1).contains(e.pname@)) by {
                if assoc_keys(m1).contains(e.pname@) {
                    let x = choose|x: int| 0 <= x < assoc_keys(m1).len() && assoc_keys(m1)[x] == e.pname@;
                    assert(m1[x].0 == e.pname@);
                }
            }
            assert(assoc_keys(m2)[m1.len() as int] == e.pname@);
        } else {
            assert(m2 == m1);
            let x = crate::resolver::first_key_index(m1, e.pname@)->0;
            assert(assoc_keys(m1)[x] == e.pname@);
        }
        assert forall|k: Seq<char>| assoc_keys(m1).contains(k) implies #[trigger] assoc_keys(m2).contains(k) by {
            let x = choose|x: int| 0 <= x < assoc_keys(m1).len() && assoc_keys(m1)[x] == k;
            assert(assoc_keys(m2)[x] == k);
        }
        assert forall|k: Seq<char>| assoc_keys(m).contains(k) implies #[trigger] assoc_keys(m2).contains(k) by {
            assert(assoc_keys(m1).contains(k));
        }
        assert forall|j: int| 0 <= j < ps.len() implies assoc_keys(m2).contains(#[trigger] ps[j].pname@) by {
            if j < ps.len() - 1 {
                assert(ps.drop_last()[j] == ps[j]);
                assert(assoc_keys(m1).contains(ps.drop_last()[j].pname@));
            }
        }
    }
}

/// Every package name of the manifest is linked at the root exactly once.
pub proof fn law_each_name_hoisted_once(ps: Seq<BuildManifestEntry>, roots: Seq<Seq<char>>)
    ensures
        assoc_keys(hoisting(ps, roots)).no_duplicates(),
        forall|j: int| 0 <= j < ps.len() ==> assoc_keys(hoisting(ps, roots)).contains(#[trigger] ps[j].pname@),
{
    lemma_hoist_roots_unique(roots, entry_keys(ps));
    lemma_hoist_packages_unique(hoist_roots(seq![], roots, entry_keys(ps)), ps);
}

/// A dependency of a package that needs its own nested link: the hoisted
/// version of its name is another one, and the exact version was extracted.
/// Gives `(package key, dependency name, dependency key)` in manifest order.
pub open spec fn nested_for(
    hoisted: Seq<(Seq<char>, Seq<char>)>,
    keys: Seq<Seq<char>>,
    pkg: Seq<char>,
    deps: Seq<Seq<char>>,
) -> Seq<(Seq<char>, Seq<char>, Seq<char>)>
    decreases deps.len(),
{
    if deps.len() == 0 {
        seq![]
    } else {
        let rest = nested_for(hoisted, keys, pkg, deps.drop_last());
        let d = deps.last();
        let name = split_dep_key(d).0;
        if crate::resolver::lookup(hoisted, name) == Some(d) || !keys.contains(d) {
            rest
        } else {
            rest.push((pkg, name, d))
        }
    }
}

pub open spec fn nested_links_spec(
    hoisted: Seq<(Seq<char>, Seq<char>)>,
    keys: Seq<Seq<char>>,
    ps: Seq<BuildManifestEntry>,
) -> Seq<(Seq<char>, Seq<char>, Seq<char>)>
    decreases ps.len(),
{
    if ps.len() == 0 {
        seq![]
    } else {
        nested_links_spec(hoisted, keys, ps.drop_last()) + nested_for(
            hoisted,
            keys,
            entry_key(ps.last()),
            string_views(ps.last().dependencies@),
        )
    }
}

/// The nested dependency links to create (see `nested_links_spec`), given
/// the hoisting.
pub fn nested_links(packages: &Vec<BuildManifestEntry>, hoisted: &Vec<(String, String)>) -> (r: Vec<(String, String, String)>)
    ensures
        crate::resolver::triple_views(r@) == nested_links_spec(crate::types::pair_views(hoisted@), entry_keys(packages@), packages@),
{
    let ghost hv = crate::types::pair_views(hoisted@);
    let ghost keys = entry_keys(packages@);
    let mut extracted: Vec<String> = Vec::new();
    let mut i: usize = 0;
    while i < packages.len()
        invariant
            i <= packages@.len(),
            keys == entry_keys(packages@),
            string_views(extracted@) =~= keys.take(i as int),
        decreases packages@.len() - i,
    {
        let ghost e0 = string_views(extracted@);
        extracted.push(dep_key_exec(packages[i].pname.as_str(), packages[i].version.as_str()));
        assert(string_views(extracted@) =~= e0.push(keys[i as int]));
        i = i + 1;
    }
    assert(keys.take(packages@.len() as int) =~= keys);
    let mut out: Vec<(String, String, String)> = Vec::new();
    let mut i: usize = 0;
    assert(packages@.take(0) =~= Seq::<BuildManifestEntry>::empty());
    while i < packages.len()
        invariant
            i <= packages@.len(),
            hv == crate::types::pair_views(hoisted@),
            keys == entry_keys(packages@),
            string_views(extracted@) == keys,
            crate::resolver::triple_views(out@) == nested_links_spec(hv, keys, packages@.take(i as int)),
        decreases packages@.len() - i,
    {
        let e = &packages[i];
        assert(packages@.take(i + 1).drop_last() =~= packages@.take(i as int));
        assert(packages@.take(i + 1).last() == *e);
        let pkg_key = dep_key_exec(e.pname.as_str(), e.version.as_str());
        let ghost dv = string_views(e.dependencies@);
        let ghost o0 = crate::resolver::triple_views(out@);
        let mut k: usize = 0;
        assert(dv.take(0) =~= Seq::<Seq<char>>::empty());
        assert(o0 + nested_for(hv, keys, pkg_key@, dv.take(0)) =~= o0);
        while k < e.dependencies.len()
            invariant
                k <= e.dependencies@.len(),
                dv == string_views(e.dependencies@),
                hv == crate::types::pair_views(hoisted@),
                string_views(extracted@) == keys,
                crate::resolver::triple_views(out@) == o0 + nested_for(hv, keys, pkg_key@, dv.take(k as int)),
            decreases e.dependencies@.len() - k,
        {
            assert(dv.take(k + 1).drop_last() =~= dv.take(k as int));
            assert(dv.take(k + 1).last() == e.dependencies@[k as int]@);
            let d = &e.dependencies[k];
            let (name, _version) = crate::resolver::split_dep_key_exec(d);
            proof {
                crate::resolver::lemma_first_key_index(hv, name@);
            }
            let same = match lookup_pair(hoisted, name.as_str()) {
                Some(h) => {
                    assert(hv[h as int].1 == hoisted@[h as int].1@);
                    crate::text::str_is(hoisted[h].1.as_str(), d.as_str())
                },
                None => false,
            };
            if !same && crate::resolver::has_string(&extracted, d.as_str()) {
                let ghost ov = crate::resolver::triple_views(out@);
                out.push((owned(pkg_key.as_str()), name, owned(d.as_str())));
                assert(crate::resolver::triple_views(out@) =~= ov.push((pkg_key@, split_dep_key(d@).0, d@)));
            }
            k = k + 1;
        }
        assert(dv.take(e.dependencies@.len() as int) =~= dv);
        assert(pkg_key@ == entry_key(packages@[i as int]));
        i = i + 1;
    }
    assert(packages@.take(packages@.len() as int) =~= packages@);
    out
}

/// `p` without its leading `./` runs (`trim_start_matches("./")`).
pub open spec fn strip_dot_slash(p: Seq<char>) -> Seq<char>
    decreases p.len(),
{
    if starts_with(p, seq!['.', '/']) {
        strip_dot_slash(p.skip(2))
    } else {
        p
    }
}

pub fn strip_dot_slash_exec(p: &str) -> (r: String)
    ensures
        r@ == strip_dot_slash(p@),
{
    let cs = chars_of(p);
    let ds = vec!['.', '/'];
    assert(ds@ =~= seq!['.', '/']);
    let mut i: usize = 0;
    assert(cs@.skip(0) =~= cs@);
    while i < cs.len() && cs.len() - i >= 2 && cs[i] == '.' && cs[i + 1] == '/'
        invariant
            i <= cs@.len(),
            strip_dot_slash(p@) == strip_dot_slash(cs@.skip(i as int)),
            cs@ == p@,
        decreases cs@.len() - i,
    {
        let ghost s = cs@.skip(i as int);
        assert(s.subrange(0, 2) =~= seq!['.', '/']);
        assert(s.skip(2) =~= cs@.skip(i + 2));
        i = i + 2;
    }
    let rest = crate::text::sub_chars(&cs, i, cs.len());
    assert(rest@ =~= cs@.skip(i as int));
    proof {
        let s = cs@.skip(i as int);
        if starts_with(s, seq!['.', '/']) {
            assert(s[0] == cs@[i as int] && s[1] == cs@[i + 1]);
        }
    }
    string_of(&rest)
}

/// The launcher written for a package binary.
pub open spec fn bin_wrapper(node_bin: Seq<char>, target: Seq<char>) -> Seq<char> {
    "#!/bin/sh\nexec "@ + node_bin + " "@ + target + " \"$@\"\n"@
}

pub fn bin_wrapper_exec(node_bin: &str, target: &str) -> (r: String)
    ensures
        r@ == bin_wrapper(node_bin@, target@),
{
    let mut r = owned("#!/bin/sh\nexec ");
    r.append(node_bin);
    r.append(" ");
    r.append(target);
    r.append(" \"$@\"\n");
    r
}

/// Parse dependency spec like "@scope/name@version" or "name@version"
pub fn parse_dep_spec(spec: &str) -> (r: (String, String))
    ensures
        (r.0@, r.1@) == split_dep_key(spec@),
{
    let s = owned(spec);
    crate::resolver::split_dep_key_exec(&s)
}

/// The build a legacy build-node-modules command runs: the same manifest,
/// output and Node.js binary.
pub fn run_build_node_modules(args: BuildNodeModulesArgs) -> (r: BuildArgs)
    ensures
        r.manifest@ == args.manifest@,
        r.output@ == args.output@,
        r.node_bin@ == args.node_bin@,
{
    BuildArgs { manifest: args.manifest, output: args.output, node_bin: args.node_bin }
}

} // verus!

verus! {

use crate::resolver::{first_key_index, lookup, lemma_first_key_index};

proof fn lemma_fki_update(m: Seq<(Seq<char>, Seq<char>)>, i: int, x: (Seq<char>, Seq<char>), k: Seq<char>)
    requires
        0 <= i < m.len(),
        m[i].0 == x.0,
    ensures
        first_key_index(m.update(i, x), k) == first_key_index(m, k),
    decreases m.len(),
{
    if i == m.len() - 1 {
        assert(m.update(i, x).drop_last() =~= m.drop_last());
    } else {
        assert(m.update(i, x).drop_last() =~= m.drop_last().update(i, x));
        lemma_fki_update(m.drop_last(), i, x, k);
    }
}

proof fn lemma_lookup_insert(m: Seq<(Seq<char>, Seq<char>)>, k: Seq<char>, v: Seq<char>, k2: Seq<char>)
    ensures
        lookup(assoc_insert(m, k, v), k2) == if k2 == k {
            Some(v)
        } else {
            lookup(m, k2)
        },
{
    lemma_first_key_index(m, k);
    lemma_first_key_index(m, k2);
    match first_key_index(m, k) {
        Some(i) => {
            lemma_fki_update(m, i, (k, v), k2);
            if k2 != k {
                if let Some(j) = first_key_index(m, k2) {
                    assert(j != i);
                }
            }
        },
        None => {
            assert(m.push((k, v)).drop_last() =~= m);
        },
    }
}

proof fn lemma_lookup_push_kept(m: Seq<(Seq<char>, Seq<char>)>, x: (Seq<char>, Seq<char>), k: Seq<char>)
    requires
        lookup(m, k) is Some,
    ensures
        lookup(m.push(x), k) == lookup(m, k),
{
    assert(m.push(x).drop_last() =~= m);
    lemma_first_key_index(m, k);
}

/// What the root pass leaves hoisted: each name maps to an extracted root
/// dependency of that name.
pub open spec fn roots_hoisted_ok(m: Seq<(Seq<char>, Seq<char>)>, roots: Seq<Seq<char>>, keys: Seq<Seq<char>>, k: Seq<char>) -> bool {
    match lookup(m, k) {
        Some(v) => roots.contains(v) && keys.contains(v) && split_dep_key(v).0 == k,
        None => true,
    }
}

proof fn lemma_hoist_roots_values(roots: Seq<Seq<char>>, keys: Seq<Seq<char>>, k: Seq<char>)
    ensures
        roots_hoisted_ok(hoist_roots(seq![], roots, keys), roots, keys, k),
        forall|j: int|
            0 <= j < roots.len() && keys.contains(roots[j]) && split_dep_key(roots[j]).0 == k
                ==> lookup(hoist_roots(seq![], roots, keys), k) is Some,
    decreases roots.len(),
{
    if roots.len() > 0 {
        let pre = roots.drop_last();
        lemma_hoist_roots_values(pre, keys, k);
        let m1 = hoist_roots(seq![], pre, keys);
        let r = roots.last();
        if keys.contains(r) {
            lemma_lookup_insert(m1, split_dep_key(r).0, r, k);
        }
        if let Some(v) = lookup(hoist_roots(seq![], roots, keys), k) {
            if lookup(m1, k) == Some(v) {
                let x = choose|x: int| 0 <= x < pre.len() && pre[x] == v;
                assert(roots[x] == v);
            } else {
                assert(roots[roots.len() - 1] == v);
            }
        }
        assert forall|j: int|
            0 <= j < roots.len() && keys.contains(roots[j]) && split_dep_key(roots[j]).0 == k implies lookup(
            hoist_roots(seq![], roots, keys),
            k,
        ) is Some by {
            if j < roots.len() - 1 {
                assert(pre[j] == roots[j]);
            }
        }
    } else {
        lemma_first_key_index(Seq::<(Seq<char>, Seq<char>)>::empty(), k);
    }
}

proof fn lemma_hoist_packages_keeps(m: Seq<(Seq<char>, Seq<char>)>, ps: Seq<BuildManifestEntry>, k: Seq<char>)
    requires
        lookup(m, k) is Some,
    ensures
        lookup(hoist_packages(m, ps), k) == lookup(m, k),
    decreases ps.len(),
{
    if ps.len() > 0 {
        lemma_hoist_packages_keeps(m, ps.drop_last(), k);
        let m1 = hoist_packages(m, ps.drop_last());
        let e = ps.last();
        if first_key_index(m1, e.pname@) is None {
            lemma_lookup_push_kept(m1, (e.pname@, entry_key(e)), k);
        }
    }
}

/// Root dependencies have priority: when a root dependency was extracted,
/// the version linked at the root for its name is an extracted root
/// dependency of that name.
pub proof fn law_root_dependencies_win(ps: Seq<BuildManifestEntry>, roots: Seq<Seq<char>>, j: int)
    requires
        0 <= j < roots.len(),
        entry_keys(ps).contains(roots[j]),
    ensures
        ({
            let name = split_dep_key(roots[j]).0;
            let h = lookup(hoisting(ps, roots), name);
            h is Some && roots.contains(h->0) && entry_keys(ps).contains(h->0)
                && split_dep_key(h->0).0 == name
        }),
{
    let keys = entry_keys(ps);
    let name = split_dep_key(roots[j]).0;
    lemma_hoist_roots_values(roots, keys, name);
    let m = hoist_roots(seq![], roots, keys);
    lemma_hoist_packages_keeps(m, ps, name);
}

} // verus!
