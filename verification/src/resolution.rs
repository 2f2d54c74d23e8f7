//! Resolving the module specifiers of a module to the paths of the modules
//! that the bundle registers.
use vstd::prelude::*;
use crate::externals::{is_external_module, is_external_spec, opt_view};
use crate::paths::{path_file_name, path_join, std_path_file_name, std_path_join};
use crate::text::{chars_of, concat_str, ends_with, ends_with_exec, owned};

verus! {

/// The extensions that mark a specifier as already naming a file.
pub open spec fn recognized_exts() -> Seq<Seq<char>> {
    seq![".ts"@, ".tsx"@, ".js"@, ".jsx"@, ".mjs"@, ".cjs"@, ".json"@, ".css"@, ".scss"@, ".less"@]
}

/// The extensions tried, in order, on a specifier without one.
pub open spec fn tried_exts() -> Seq<Seq<char>> {
    seq![".tsx"@, ".ts"@, ".jsx"@, ".js"@, ".mjs"@, ".cjs"@, ".json"@]
}

/// The extensions tried, in order, for an `index` file in a directory.
pub open spec fn index_exts() -> Seq<Seq<char>> {
    seq![".tsx"@, ".ts"@, ".jsx"@, ".js"@]
}

/// The file name of `spec` ends with a recognized extension.
pub open spec fn has_known_ext(spec: Seq<char>) -> bool {
    match std_path_file_name(spec) {
        Some(f) => exists|k: int| 0 <= k < recognized_exts().len() && ends_with(f, #[trigger] recognized_exts()[k]),
        None => false,
    }
}

/// The paths tried, in order, for a local specifier imported from directory `dir`:
/// the joined path with each tried extension (or as is when it already has one),
/// the joined path as is, then `index` files inside it.
pub open spec fn candidates(spec: Seq<char>, dir: Seq<char>) -> Seq<Seq<char>> {
    let base = std_path_join(dir, spec);
    let has = has_known_ext(spec);
    tried_exts().map_values(|e: Seq<char>| if has { base } else { base + e })
        + seq![base]
        + index_exts().map_values(|e: Seq<char>| base + "/index"@ + e)
}

/// The first registered module among the probed candidates: for each candidate
/// in turn, its canonical form if that is registered, else the candidate itself
/// if registered. When every candidate was probed without a hit, `fallback`.
/// `None` when the probes stop before a hit.
pub open spec fn first_hit(
    cands: Seq<Seq<char>>,
    probes: Seq<Option<Seq<char>>>,
    known: Set<Seq<char>>,
    fallback: Seq<char>,
    k: int,
) -> Option<Seq<char>>
    decreases probes.len() - k,
{
    if k < 0 || k >= probes.len() {
        if probes.len() == cands.len() {
            Some(fallback)
        } else {
            None
        }
    } else if probes[k] is Some && known.contains(probes[k]->0) {
        Some(probes[k]->0)
    } else if known.contains(cands[k]) {
        Some(cands[k])
    } else {
        first_hit(cands, probes, known, fallback, k + 1)
    }
}

/// `out` is a possible result of calling `canon` on a string holding `arg`.
pub open spec fn probe_ok<F: Fn(String) -> Option<String>>(canon: F, arg: Seq<char>, out: Option<Seq<char>>) -> bool {
    exists|a: String, o: Option<String>|
        #![trigger call_ensures(canon, (a,), o)]
        a@ == arg && call_ensures(canon, (a,), o) && opt_view(o) == out
}

/// `probes` are results of calling `canon` on the first candidates, in order.
pub open spec fn probes_ok<F: Fn(String) -> Option<String>>(
    canon: F,
    cands: Seq<Seq<char>>,
    probes: Seq<Option<Seq<char>>>,
) -> bool {
    &&& probes.len() <= cands.len()
    &&& forall|k: int| 0 <= k < probes.len() ==> probe_ok(canon, cands[k], #[trigger] probes[k])
}

/// `r` is what resolving specifier `spec` from directory `dir` against the
/// registered modules `known` may give, for some answers of `canon`: an external
/// specifier, or any specifier without a directory, stays as it is; otherwise the
/// first registered candidate, or `spec` itself when none is registered.
pub open spec fn resolution_ok<F: Fn(String) -> Option<String>>(
    spec: Seq<char>,
    dir: Option<Seq<char>>,
    known: Set<Seq<char>>,
    canon: F,
    r: Seq<char>,
) -> bool {
    if is_external_spec(spec) || dir is None {
        r == spec
    } else {
        exists|probes: Seq<Option<Seq<char>>>|
            #![trigger first_hit(candidates(spec, dir->0), probes, known, spec, 0)]
            probes_ok(canon, candidates(spec, dir->0), probes)
                && first_hit(candidates(spec, dir->0), probes, known, spec, 0) == Some(r)
    }
}

/// The set of the strings in `v`.
pub open spec fn string_set(v: Seq<String>) -> Set<Seq<char>> {
    Set::new(|s: Seq<char>| exists|j: int| 0 <= j < v.len() && #[trigger] v[j]@ == s)
}

/// Whether `v` holds a string equal to `s`.
pub fn contains_str(v: &Vec<String>, s: &String) -> (b: bool)
    ensures
        b == string_set(v@).contains(s@),
{
    let mut j: usize = 0;
    while j < v.len()
        invariant
            j <= v@.len(),
            forall|k: int| 0 <= k < j ==> #[trigger] v@[k]@ != s@,
        decreases v@.len() - j,
    {
        if v[j] == *s {
            assert(v@[j as int]@ == s@);
            return true;
        }
        j = j + 1;
    }
    false
}

fn has_known_ext_exec(spec: &str) -> (b: bool)
    ensures
        b == has_known_ext(spec@),
{
    match path_file_name(spec) {
        None => false,
        Some(f) => {
            let exts: Vec<&str> = vec![".ts", ".tsx", ".js", ".jsx", ".mjs", ".cjs", ".json", ".css", ".scss", ".less"];
            let fc = chars_of(f.as_str());
            let mut k: usize = 0;
            while k < exts.len()
                invariant
                    k <= exts@.len() == 10,
                    fc@ == f@,
                    std_path_file_name(spec@) == Some(f@),
                    forall|j: int| 0 <= j < 10 ==> #[trigger] exts@[j]@ == recognized_exts()[j],
                    forall|j: int| 0 <= j < k ==> !ends_with(f@, #[trigger] recognized_exts()[j]),
                decreases 10 - k,
            {
                let e = chars_of(exts[k]);
                if ends_with_exec(fc.as_slice(), e.as_slice()) {
                    assert(ends_with(f@, recognized_exts()[k as int]));
                    assert(std_path_file_name(spec@) == Some(f@));
                    return true;
                }
                k = k + 1;
            }
            false
        },
    }
}

/// The candidate paths for a local specifier, in the order they are tried.
pub fn candidate_paths(spec: &str, dir: &str) -> (v: Vec<String>)
    ensures
        v@.len() == 12,
        forall|k: int| 0 <= k < 12 ==> #[trigger] v@[k]@ == candidates(spec@, dir@)[k],
{
    let base = path_join(dir, spec);
    let has = has_known_ext_exec(spec);
    let exts: Vec<&str> = vec![".tsx", ".ts", ".jsx", ".js", ".mjs", ".cjs", ".json"];
    let idx: Vec<&str> = vec![".tsx", ".ts", ".jsx", ".js"];
    let ghost cs = candidates(spec@, dir@);
    let mut v: Vec<String> = Vec::new();
    let mut k: usize = 0;
    while k < exts.len()
        invariant
            k <= exts@.len() == 7,
            base@ == std_path_join(dir@, spec@),
            has == has_known_ext(spec@),
            cs == candidates(spec@, dir@),
            forall|j: int| 0 <= j < 7 ==> #[trigger] exts@[j]@ == tried_exts()[j],
            v@.len() == k,
            forall|j: int| 0 <= j < k ==> #[trigger] v@[j]@ == cs[j],
        decreases 7 - k,
    {
        if has {
            v.push(owned(base.as_str()));
        } else {
            v.push(concat_str(base.as_str(), exts[k]));
        }
        k = k + 1;
    }
    v.push(owned(base.as_str()));
    let mut k: usize = 0;
    while k < idx.len()
        invariant
            k <= idx@.len() == 4,
            base@ == std_path_join(dir@, spec@),
            cs == candidates(spec@, dir@),
            forall|j: int| 0 <= j < 4 ==> #[trigger] idx@[j]@ == index_exts()[j],
            v@.len() == 8 + k,
            forall|j: int| 0 <= j < 8 + k ==> #[trigger] v@[j]@ == cs[j],
        decreases 4 - k,
    {
        let with_index = concat_str(base.as_str(), "/index");
        v.push(concat_str(with_index.as_str(), idx[k]));
        k = k + 1;
    }
    v
}

/// Resolve a module specifier to the path of a registered module: external
/// specifiers, and any specifier when there is no current directory, stay as they
/// are; otherwise each candidate path is tried in order, first by the canonical
/// form `canonical` gives for it, then as written, and the first that is
/// registered in `known` is returned; the specifier itself when none is.
pub fn resolve_module_path<F: Fn(String) -> Option<String>>(
    specifier: &str,
    current_dir: Option<&str>,
    known: &Vec<String>,
    canonical: &F,
) -> (r: String)
    requires
        forall|a: String| call_requires(*canonical, (a,)),
    ensures
        resolution_ok(specifier@, opt_str(current_dir), string_set(known@), *canonical, r@),
{
    if is_external_module(specifier) {
        return owned(specifier);
    }
    let dir = match current_dir {
        Some(d) => d,
        None => {
            return owned(specifier);
        },
    };
    let cands = candidate_paths(specifier, dir);
    let ghost cs = candidates(specifier@, dir@);
    let ghost kn = string_set(known@);
    let ghost mut probes: Seq<Option<Seq<char>>> = seq![];
    let mut k: usize = 0;
    while k < cands.len()
        invariant
            k <= cands@.len() == 12,
            forall|j: int| 0 <= j < 12 ==> #[trigger] cands@[j]@ == cs[j],
            cs == candidates(specifier@, dir@),
            cs.len() == 12,
            !is_external_spec(specifier@),
            opt_str(current_dir) == Some(dir@),
            kn == string_set(known@),
            forall|a: String| call_requires(*canonical, (a,)),
            probes.len() == k,
            probes_ok(*canonical, cs, probes),
            forall|j: int| 0 <= j < k ==> !(probes[j] is Some && kn.contains(#[trigger] probes[j]->0))
                && !kn.contains(cs[j]),
        decreases 12 - k,
    {
        let arg = owned(cands[k].as_str());
        let ghost garg = arg;
        let out = canonical(arg);
        let ghost o = opt_view(out);
        proof {
            assert(probe_ok(*canonical, cs[k as int], o)) by {
                assert(call_ensures(*canonical, (garg,), out));
            }
            let np = probes.push(o);
            assert forall|j: int| 0 <= j < np.len() implies probe_ok(*canonical, cs[j], #[trigger] np[j]) by {
                if j < probes.len() {
                    assert(np[j] == probes[j]);
                }
            }
            probes = np;
        }
        match out {
            Some(n) => {
                if contains_str(known, &n) {
                    proof {
                        lemma_first_hit_at(cs, probes, kn, specifier@, k as int);
                        assert(first_hit(candidates(specifier@, dir@), probes, string_set(known@), specifier@, 0)
                            == Some(n@));
                    }
                    return n;
                }
            },
            None => {},
        }
        if contains_str(known, &cands[k]) {
            proof {
                lemma_first_hit_at(cs, probes, kn, specifier@, k as int);
                assert(first_hit(candidates(specifier@, dir@), probes, string_set(known@), specifier@, 0)
                    == Some(cands@[k as int]@));
            }
            return owned(cands[k].as_str());
        }
        k = k + 1;
    }
    proof {
        lemma_first_hit_at(cs, probes, kn, specifier@, 12);
        assert(first_hit(candidates(specifier@, dir@), probes, string_set(known@), specifier@, 0)
            == Some(specifier@));
    }
    owned(specifier)
}

pub open spec fn opt_str(o: Option<&str>) -> Option<Seq<char>> {
    match o {
        Some(s) => Some(s@),
        None => None,
    }
}

/// When the probes before `k` have no hit, searching from 0 is searching from `k`.
proof fn lemma_first_hit_at(
    cs: Seq<Seq<char>>,
    probes: Seq<Option<Seq<char>>>,
    kn: Set<Seq<char>>,
    fallback: Seq<char>,
    k: int,
)
    requires
        0 <= k <= probes.len(),
        forall|j: int| 0 <= j < k ==> !(probes[j] is Some && kn.contains(#[trigger] probes[j]->0))
            && !kn.contains(cs[j]),
    ensures
        first_hit(cs, probes, kn, fallback, 0) == first_hit(cs, probes, kn, fallback, k),
    decreases k,
{
    if k > 0 {
        lemma_first_hit_shift(cs, probes, kn, fallback, 0, k);
    }
}

proof fn lemma_first_hit_shift(
    cs: Seq<Seq<char>>,
    probes: Seq<Option<Seq<char>>>,
    kn: Set<Seq<char>>,
    fallback: Seq<char>,
    i: int,
    k: int,
)
    requires
        0 <= i <= k <= probes.len(),
        forall|j: int| 0 <= j < k ==> !(probes[j] is Some && kn.contains(#[trigger] probes[j]->0))
            && !kn.contains(cs[j]),
    ensures
        first_hit(cs, probes, kn, fallback, i) == first_hit(cs, probes, kn, fallback, k),
    decreases k - i,
{
    if i < k {
        assert(!(probes[i] is Some && kn.contains(probes[i]->0)) && !kn.contains(cs[i]));
        lemma_first_hit_shift(cs, probes, kn, fallback, i + 1, k);
    }
}

} // verus!
