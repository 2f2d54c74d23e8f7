//! The module graph of a web application: which modules to load next, what a
//! loaded module adds, and the order in which modules are bundled.
use vstd::prelude::*;
use crate::text::{string_views, contains_seq, chars_of, owned};
use crate::analysis::{ModuleAnalysis, node_modules_text};

verus! {

/// Module in the dependency graph
pub struct Module {
    /// Absolute path to the module
    pub path: String,
    /// Source code as read from disk
    pub source: String,
    /// Compiled JavaScript
    pub compiled: String,
    /// Dependencies (paths to other modules)
    pub dependencies: Vec<String>,
    /// Exports provided by this module
    pub exports: Vec<String>,
    /// Whether this module uses CommonJS syntax
    pub is_commonjs: bool,
}

pub struct ModuleView {
    pub path: Seq<char>,
    pub source: Seq<char>,
    pub compiled: Seq<char>,
    pub dependencies: Seq<Seq<char>>,
    pub exports: Seq<Seq<char>>,
    pub is_commonjs: bool,
}

impl View for Module {
    type V = ModuleView;

    open spec fn view(&self) -> ModuleView {
        ModuleView {
            path: self.path@,
            source: self.source@,
            compiled: self.compiled@,
            dependencies: string_views(self.dependencies@),
            exports: string_views(self.exports@),
            is_commonjs: self.is_commonjs,
        }
    }
}

pub open spec fn module_views(v: Seq<Module>) -> Seq<ModuleView> {
    v.map_values(|m: Module| m@)
}

/// The state of a module graph being built: paths still to visit (the last
/// one first), paths seen, and the modules loaded.
pub struct ModuleGraphBuilder {
    queue: Vec<String>,
    visited: Vec<String>,
    modules: Vec<Module>,
}

pub struct GraphState {
    pub queue: Seq<Seq<char>>,
    pub visited: Seq<Seq<char>>,
    pub modules: Seq<ModuleView>,
}

impl View for ModuleGraphBuilder {
    type V = GraphState;

    closed spec fn view(&self) -> GraphState {
        GraphState {
            queue: string_views(self.queue@),
            visited: string_views(self.visited@),
            modules: module_views(self.modules@),
        }
    }
}

/// The next module to load: paths are taken off the end of the queue; one
/// seen before is dropped, a new one is marked seen, and it is loaded unless
/// it lies in `node_modules`.
pub open spec fn next_step(g: GraphState) -> (GraphState, Option<Seq<char>>)
    decreases g.queue.len(),
{
    if g.queue.len() == 0 {
        (g, None)
    } else {
        let p = g.queue.last();
        let g1 = GraphState { queue: g.queue.drop_last(), ..g };
        if g.visited.contains(p) {
            next_step(g1)
        } else {
            let g2 = GraphState { visited: g1.visited.push(p), ..g1 };
            if contains_seq(p, node_modules_text()) {
                next_step(g2)
            } else {
                (g2, Some(p))
            }
        }
    }
}

/// The dependencies of a loaded module that have not been seen, in order.
pub open spec fn unseen(deps: Seq<Seq<char>>, visited: Seq<Seq<char>>) -> Seq<Seq<char>>
    decreases deps.len(),
{
    if deps.len() == 0 {
        seq![]
    } else if visited.contains(deps.last()) {
        unseen(deps.drop_last(), visited)
    } else {
        unseen(deps.drop_last(), visited).push(deps.last())
    }
}

/// A loaded module: its unseen dependencies are queued and it is recorded.
pub open spec fn add_step(g: GraphState, m: ModuleView) -> GraphState {
    GraphState { queue: g.queue + unseen(m.dependencies, g.visited), modules: g.modules.push(m), ..g }
}

impl ModuleGraphBuilder {
    /// A graph that starts from `entry`.
    pub fn new(entry: &str) -> (g: Self)
        ensures
            g@ == (GraphState { queue: seq![entry@], visited: seq![], modules: seq![] }),
    {
        let g = ModuleGraphBuilder { queue: vec![owned(entry)], visited: Vec::new(), modules: Vec::new() };
        assert(g@.queue =~= seq![entry@]);
        assert(g@.visited =~= Seq::<Seq<char>>::empty());
        assert(g@.modules =~= Seq::<ModuleView>::empty());
        g
    }

    /// The modules loaded so far.
    pub open spec fn loaded(&self) -> Seq<ModuleView> {
        self@.modules
    }

    /// The next module to load, if any (see `next_step`).
    pub fn next_module(&mut self) -> (r: Option<String>)
        ensures
            (final(self)@, crate::externals::opt_view(r)) == next_step(old(self)@),
    {
        let ghost goal = next_step(self@);
        let nm = vec!['n', 'o', 'd', 'e', '_', 'm', 'o', 'd', 'u', 'l', 'e', 's'];
        assert(nm@ =~= node_modules_text());
        loop
            invariant
                next_step(self@) == goal,
                goal == next_step(old(self)@),
                nm@ == node_modules_text(),
            decreases self@.queue.len(),
        {
            let ghost g0 = self@;
            let p = match self.queue.pop() {
                Some(p) => p,
                None => {
                    assert(g0.queue.len() == 0);
                    return None;
                },
            };
            assert(string_views(self.queue@) =~= g0.queue.drop_last());
            assert(g0.queue.last() == p@);
            if crate::resolver::has_string(&self.visited, p.as_str()) {
                continue;
            }
            let ghost v0 = self.visited@;
            self.visited.push(owned(p.as_str()));
            assert(string_views(self.visited@) =~= string_views(v0).push(p@));
            let pc = chars_of(p.as_str());
            let found = crate::text::find_from_exec(pc.as_slice(), nm.as_slice(), 0);
            proof {
                crate::text::lemma_find_from_some(pc@, nm@, 0);
                if let Some(x) = crate::text::find_from(pc@, nm@, 0) {
                    assert(crate::text::occurs_at(pc@, nm@, x));
                }
            }
            if found.is_none() {
                assert(self@ == (GraphState { visited: g0.visited.push(p@), queue: g0.queue.drop_last(), ..g0 }));
                return Some(p);
            }
        }
    }

    /// Record a loaded module (see `add_step`).
    pub fn add_module(&mut self, path: String, source: String, compiled: String, analysis: ModuleAnalysis)
        ensures
            final(self)@ == add_step(
                old(self)@,
                ModuleView {
                    path: path@,
                    source: source@,
                    compiled: compiled@,
                    dependencies: string_views(analysis.imports@),
                    exports: string_views(analysis.exports@),
                    is_commonjs: analysis.is_commonjs,
                },
            ),
    {
        let ghost q0 = self@.queue;
        let ghost dv = string_views(analysis.imports@);
        let mut i: usize = 0;
        assert(dv.take(0) =~= Seq::<Seq<char>>::empty());
        assert(q0 + unseen(dv.take(0), self@.visited) =~= q0);
        while i < analysis.imports.len()
            invariant
                i <= analysis.imports@.len(),
                dv == string_views(analysis.imports@),
                self@.visited == old(self)@.visited,
                self@.modules == old(self)@.modules,
                q0 == old(self)@.queue,
                self@.queue == q0 + unseen(dv.take(i as int), self@.visited),
            decreases analysis.imports@.len() - i,
        {
            assert(dv.take(i + 1).drop_last() =~= dv.take(i as int));
            assert(dv.take(i + 1).last() == analysis.imports@[i as int]@);
            let dep = &analysis.imports[i];
            if !crate::resolver::has_string(&self.visited, dep.as_str()) {
                let ghost qv = self@.queue;
                self.queue.push(owned(dep.as_str()));
                assert(self@.queue =~= qv.push(dep@));
            }
            i = i + 1;
        }
        assert(dv.take(analysis.imports@.len() as int) =~= dv);
        let m = Module {
            path,
            source,
            compiled,
            dependencies: analysis.imports,
            exports: analysis.exports,
            is_commonjs: analysis.is_commonjs,
        };
        let ghost mv = m@;
        let ghost m0 = self.modules@;
        self.modules.push(m);
        assert(module_views(self.modules@) =~= module_views(m0).push(mv));
    }

    /// The loaded modules, in load order.
    pub fn into_modules(self) -> (r: Vec<Module>)
        ensures
            module_views(r@) == self@.modules,
    {
        self.modules
    }
}

} // verus!

verus! {

/// Index of the first module at path `p`.
pub open spec fn module_index(paths: Seq<Seq<char>>, p: Seq<char>) -> Option<int>
    decreases paths.len(),
{
    if paths.len() == 0 {
        None
    } else {
        match module_index(paths.drop_last(), p) {
            Some(i) => Some(i),
            None => if paths.last() == p {
                Some(paths.len() - 1)
            } else {
                None
            },
        }
    }
}

proof fn lemma_module_index(paths: Seq<Seq<char>>, p: Seq<char>)
    ensures
        module_index(paths, p) matches Some(i) ==> 0 <= i < paths.len() && paths[i] == p,
    decreases paths.len(),
{
    if paths.len() > 0 {
        lemma_module_index(paths.drop_last(), p);
    }
}

/// The dependencies that are modules of the graph, as module indices.
pub open spec fn present_deps(paths: Seq<Seq<char>>, deps: Seq<Seq<char>>) -> Seq<int>
    decreases deps.len(),
{
    if deps.len() == 0 {
        seq![]
    } else {
        match module_index(paths, deps.last()) {
            Some(j) => present_deps(paths, deps.drop_last()).push(j),
            None => present_deps(paths, deps.drop_last()),
        }
    }
}

pub open spec fn module_paths(ms: Seq<ModuleView>) -> Seq<Seq<char>> {
    ms.map_values(|m: ModuleView| m.path)
}

/// For each module, the indices of the modules it depends on.
pub open spec fn dep_graph(ms: Seq<ModuleView>) -> Seq<Seq<int>> {
    Seq::new(ms.len(), |i: int| present_deps(module_paths(ms), ms[i].dependencies))
}

pub open spec fn edges_in_range(adj: Seq<Seq<int>>) -> bool {
    forall|i: int, k: int| 0 <= i < adj.len() && 0 <= k < adj[i].len() ==> 0 <= #[trigger] adj[i][k] < adj.len()
}

/// `rank` decreases along every dependency: the graph has no cycle.
pub open spec fn ranked(adj: Seq<Seq<int>>, rank: Seq<int>) -> bool {
    &&& rank.len() == adj.len()
    &&& forall|i: int, k: int|
        0 <= i < adj.len() && 0 <= k < adj[i].len() ==> #[trigger] rank[adj[i][k]] < rank[i]
}

/// Every module in `order` comes after all of its dependencies.
pub open spec fn deps_first(adj: Seq<Seq<int>>, order: Seq<int>) -> bool {
    forall|p: int, k: int|
        0 <= p < order.len() && 0 <= k < adj[order[p]].len() ==> order.take(p).contains(#[trigger] adj[order[p]][k])
}

/// `path` follows dependencies: each module in it depends on the next.
pub open spec fn is_dep_path(adj: Seq<Seq<int>>, path: Seq<int>) -> bool {
    &&& path.len() >= 1
    &&& forall|m: int| 0 <= m < path.len() - 1 ==> adj[path[m]].contains(#[trigger] path[m + 1])
}

/// Module `y` can be reached from module `x` by following dependencies
/// (every module reaches itself).
pub open spec fn reaches(adj: Seq<Seq<int>>, x: int, y: int) -> bool {
    exists|path: Seq<int>| #[trigger] is_dep_path(adj, path) && path[0] == x && path.last() == y
}

/// For every dependency `a -> b` where `b` does not lead back to `a` (the two
/// lie on no common cycle), `b` comes before `a` in `order`.
pub open spec fn deps_first_off_cycles(adj: Seq<Seq<int>>, order: Seq<int>) -> bool {
    forall|p: int, k: int|
        0 <= p < order.len() && 0 <= k < adj[order[p]].len() && !reaches(adj, adj[order[p]][k], order[p])
            ==> order.take(p).contains(#[trigger] adj[order[p]][k])
}

proof fn lemma_reaches_self(adj: Seq<Seq<int>>, x: int)
    ensures
        reaches(adj, x, x),
{
    let path = seq![x];
    assert(is_dep_path(adj, path));
}

proof fn lemma_reaches_step(adj: Seq<Seq<int>>, x: int, i: int, j: int)
    requires
        reaches(adj, x, i),
        adj[i].contains(j),
    ensures
        reaches(adj, x, j),
{
    let path = choose|path: Seq<int>| #[trigger] is_dep_path(adj, path) && path[0] == x && path.last() == i;
    let q = path.push(j);
    assert forall|m: int| 0 <= m < q.len() - 1 implies adj[q[m]].contains(#[trigger] q[m + 1]) by {
        if m < path.len() - 1 {
            assert(q[m] == path[m] && q[m + 1] == path[m + 1]);
        } else {
            assert(q[m] == i && q[m + 1] == j);
        }
    }
    assert(is_dep_path(adj, q));
}

/// Every module appears in `order` exactly once.
pub open spec fn is_module_order(n: int, order: Seq<int>) -> bool {
    &&& order.no_duplicates()
    &&& forall|a: int| 0 <= a < order.len() ==> 0 <= #[trigger] order[a] < n
    &&& forall|x: int| 0 <= x < n ==> order.contains(x)
}

pub open spec fn unmarked(s: Seq<bool>) -> nat
    decreases s.len(),
{
    if s.len() == 0 {
        0
    } else {
        unmarked(s.drop_last()) + if s.last() {
            0nat
        } else {
            1nat
        }
    }
}

proof fn lemma_unmarked_mark(s: Seq<bool>, i: int)
    requires
        0 <= i < s.len(),
        !s[i],
    ensures
        unmarked(s.update(i, true)) + 1 == unmarked(s),
    decreases s.len(),
{
    if i == s.len() - 1 {
        assert(s.update(i, true).drop_last() =~= s.drop_last());
    } else {
        assert(s.update(i, true).drop_last() =~= s.drop_last().update(i, true));
        lemma_unmarked_mark(s.drop_last(), i);
    }
}

pub open spec fn usize_views(v: Seq<usize>) -> Seq<int> {
    v.map_values(|x: usize| x as int)
}

pub open spec fn adj_views(v: Seq<Vec<usize>>) -> Seq<Seq<int>> {
    v.map_values(|l: Vec<usize>| usize_views(l@))
}

/// The bookkeeping of the depth-first walk: `visited` marks exactly what
/// `sorted` holds, once each; no module is both visited and on the path.
pub open spec fn walk_ok(n: int, visited: Seq<bool>, temp: Seq<bool>, sorted: Seq<int>) -> bool {
    &&& visited.len() == n
    &&& temp.len() == n
    &&& sorted.no_duplicates()
    &&& forall|a: int| 0 <= a < sorted.len() ==> 0 <= #[trigger] sorted[a] < n
    &&& forall|x: int| 0 <= x < n ==> (visited[x] <==> sorted.contains(x))
    &&& forall|x: int| 0 <= x < n ==> !(#[trigger] visited[x] && temp[x])
}

fn visit(
    i: usize,
    adj: &Vec<Vec<usize>>,
    visited: &mut Vec<bool>,
    temp: &mut Vec<bool>,
    sorted: &mut Vec<usize>,
    Ghost(rank): Ghost<Seq<int>>,
)
    requires
        i < adj@.len(),
        edges_in_range(adj_views(adj@)),
        walk_ok(adj@.len() as int, old(visited)@, old(temp)@, usize_views(old(sorted)@)),
        ranked(adj_views(adj@), rank) ==> deps_first(adj_views(adj@), usize_views(old(sorted)@)),
        ranked(adj_views(adj@), rank) ==> forall|x: int|
            0 <= x < adj@.len() && #[trigger] old(temp)@[x] ==> rank[x] > rank[i as int],
        forall|x: int| 0 <= x < adj@.len() && #[trigger] old(temp)@[x] ==> reaches(adj_views(adj@), x, i as int),
        deps_first_off_cycles(adj_views(adj@), usize_views(old(sorted)@)),
    ensures
        walk_ok(adj@.len() as int, final(visited)@, final(temp)@, usize_views(final(sorted)@)),
        final(temp)@ == old(temp)@,
        usize_views(final(sorted)@).take(old(sorted)@.len() as int) == usize_views(old(sorted)@),
        final(sorted)@.len() >= old(sorted)@.len(),
        forall|x: int| 0 <= x < adj@.len() && old(visited)@[x] ==> #[trigger] final(visited)@[x],
        forall|x: int| 0 <= x < adj@.len() && old(temp)@[x] && !old(visited)@[x] ==> !#[trigger] final(visited)@[x],
        !old(temp)@[i as int] ==> final(visited)@[i as int],
        ranked(adj_views(adj@), rank) ==> deps_first(adj_views(adj@), usize_views(final(sorted)@)),
        deps_first_off_cycles(adj_views(adj@), usize_views(final(sorted)@)),
    decreases unmarked(old(temp)@),
{
    let ghost av = adj_views(adj@);
    let ghost n = adj@.len() as int;
    if visited[i] {
        return;
    }
    if temp[i] {
        // Circular dependency - this is okay for ES modules
        return;
    }
    let ghost t0 = temp@;
    let ghost v0 = visited@;
    let ghost s0 = usize_views(sorted@);
    proof {
        lemma_unmarked_mark(t0, i as int);
    }
    temp.set(i, true);
    let ghost t1 = temp@;
    let mut k: usize = 0;
    while k < adj[i].len()
        invariant
            i < adj@.len(),
            n == adj@.len(),
            av == adj_views(adj@),
            edges_in_range(av),
            !v0[i as int],
            !t0[i as int],
            t1 == t0.update(i as int, true),
            t0.len() == n,
            temp@ == t1,
            unmarked(t1) + 1 == unmarked(t0),
            t0 == old(temp)@,
            v0 == old(visited)@,
            s0 == usize_views(old(sorted)@),
            walk_ok(n, visited@, temp@, usize_views(sorted@)),
            usize_views(sorted@).take(s0.len() as int) == s0,
            sorted@.len() >= s0.len(),
            forall|x: int| 0 <= x < n && v0[x] ==> #[trigger] visited@[x],
            forall|x: int| 0 <= x < n && t0[x] && !v0[x] ==> !#[trigger] visited@[x],
            !visited@[i as int],
            ranked(av, rank) ==> deps_first(av, usize_views(sorted@)),
            ranked(av, rank) ==> forall|kk: int| 0 <= kk < k ==> #[trigger] visited@[av[i as int][kk]],
            ranked(av, rank) ==> forall|x: int| 0 <= x < n && #[trigger] t0[x] ==> rank[x] > rank[i as int],
            forall|x: int| 0 <= x < n && #[trigger] t0[x] ==> reaches(av, x, i as int),
            deps_first_off_cycles(av, usize_views(sorted@)),
            forall|kk: int| 0 <= kk < k ==> #[trigger] visited@[av[i as int][kk]] || reaches(av, av[i as int][kk], i as int),
            k <= adj@[i as int]@.len(),
        decreases adj@[i as int]@.len() - k,
    {
        let j = adj[i][k];
        proof {
            assert(av[i as int] == usize_views(adj@[i as int]@));
            assert(av[i as int][k as int] == j as int);
        }
        let ghost vb = visited@;
        let ghost sb = usize_views(sorted@);
        proof {
            assert(av[i as int].contains(j as int));
            assert forall|x: int| 0 <= x < n && #[trigger] t1[x] implies reaches(av, x, j as int) by {
                if x == i {
                    lemma_reaches_self(av, i as int);
                } else {
                    assert(t0[x]);
                }
                lemma_reaches_step(av, x, i as int, j as int);
            }
            if ranked(av, rank) {
                assert(rank[av[i as int][k as int]] < rank[i as int]);
                assert forall|x: int| 0 <= x < n && #[trigger] t1[x] implies rank[x] > rank[j as int] by {
                    if x != i {
                        assert(t0[x]);
                    }
                }
            }
        }
        visit(j, adj, visited, temp, sorted, Ghost(rank));
        proof {
            assert forall|x: int| 0 <= x < n && v0[x] implies #[trigger] visited@[x] by {
                assert(vb[x]);
            }
            assert forall|x: int| 0 <= x < n && t0[x] && !v0[x] implies !#[trigger] visited@[x] by {
                assert(t1[x]);
                assert(!vb[x]);
            }
            assert(t1[i as int]);
            assert(!visited@[i as int]);
            assert forall|kk: int| 0 <= kk < k + 1 implies #[trigger] visited@[av[i as int][kk]]
                || reaches(av, av[i as int][kk], i as int) by {
                if kk < k {
                    if vb[av[i as int][kk]] {
                        assert(0 <= av[i as int][kk] < n);
                    }
                } else if !visited@[j as int] {
                    assert(t1[j as int]);
                    if j == i {
                        lemma_reaches_self(av, i as int);
                    } else {
                        assert(t0[j as int]);
                    }
                }
            }
            assert(usize_views(sorted@).take(s0.len() as int) =~= sb.take(s0.len() as int));
            if ranked(av, rank) {
                assert(rank[av[i as int][k as int]] < rank[i as int]);
                if t1[j as int] {
                    if j != i {
                        assert(t0[j as int]);
                    }
                }
                assert forall|kk: int| 0 <= kk < k + 1 implies #[trigger] visited@[av[i as int][kk]] by {
                    if kk < k {
                        assert(vb[av[i as int][kk]]);
                    }
                }
            }
        }
        k = k + 1;
    }
    let ghost sp = usize_views(sorted@);
    visited.set(i, true);
    temp.set(i, false);
    sorted.push(i);
    proof {
        let s2 = usize_views(sorted@);
        assert(s2 =~= sp.push(i as int));
        assert(temp@ =~= t0);
        assert(!sp.contains(i as int));
        assert(s2.take(s0.len() as int) =~= sp.take(s0.len() as int));
        assert forall|x: int| 0 <= x < n implies (visited@[x] <==> s2.contains(x)) by {
            if x != i {
                if s2.contains(x) {
                    let a = choose|a: int| 0 <= a < s2.len() && s2[a] == x;
                    if a < sp.len() {
                        assert(sp[a] == x);
                    }
                }
                if sp.contains(x) {
                    let a = choose|a: int| 0 <= a < sp.len() && sp[a] == x;
                    assert(s2[a] == x);
                }
            } else {
                assert(s2[sp.len() as int] == i);
            }
        }
        assert forall|x: int| 0 <= x < n && t0[x] && !v0[x] implies !#[trigger] visited@[x] by {
            if x == i {
                assert(!t0[i as int]);
            }
        }
        assert forall|p: int, kk: int|
            0 <= p < s2.len() && 0 <= kk < av[s2[p]].len() && !reaches(av, av[s2[p]][kk], s2[p])
                implies s2.take(p).contains(#[trigger] av[s2[p]][kk]) by {
            if p < sp.len() {
                assert(s2.take(p) =~= sp.take(p));
                assert(s2[p] == sp[p]);
            } else {
                assert(s2[p] == i);
                assert(s2.take(p) =~= sp);
                let y = av[i as int][kk];
                assert(visited@[y] || reaches(av, y, i as int));
                assert(0 <= y < n);
                if y == i {
                    lemma_reaches_self(av, i as int);
                }
            }
        }
        if ranked(av, rank) {
            assert forall|p: int, kk: int|
                0 <= p < s2.len() && 0 <= kk < av[s2[p]].len() implies s2.take(p).contains(
                #[trigger] av[s2[p]][kk],
            ) by {
                if p < sp.len() {
                    assert(s2.take(p) =~= sp.take(p));
                    assert(s2[p] == sp[p]);
                } else {
                    assert(s2[p] == i);
                    assert(s2.take(p) =~= sp);
                    let y = av[i as int][kk];
                    assert(visited@[y]);
                    assert(0 <= y < n);
                }
            }
        }
    }
}

fn module_index_exec(modules: &Vec<Module>, p: &String) -> (r: Option<usize>)
    ensures
        match r {
            Some(i) => module_index(module_paths(module_views(modules@)), p@) == Some(i as int),
            None => module_index(module_paths(module_views(modules@)), p@) is None,
        },
{
    let ghost ps = module_paths(module_views(modules@));
    let pc = chars_of(p.as_str());
    let mut i: usize = 0;
    assert(ps.take(0) =~= Seq::<Seq<char>>::empty());
    while i < modules.len()
        invariant
            i <= modules@.len(),
            ps == module_paths(module_views(modules@)),
            ps.len() == modules@.len(),
            pc@ == p@,
            module_index(ps.take(i as int), p@) is None,
        decreases modules@.len() - i,
    {
        assert(ps.take(i + 1).drop_last() =~= ps.take(i as int));
        assert(ps[i as int] == modules@[i as int].path@);
        let e = chars_of(modules[i].path.as_str());
        if crate::text::chars_eq(e.as_slice(), pc.as_slice()) {
            proof {
                lemma_module_index_prefix(ps, p@, i as int + 1);
            }
            return Some(i);
        }
        i = i + 1;
    }
    assert(ps.take(modules@.len() as int) =~= ps);
    None
}

/// A first match in a prefix is the first match overall.
proof fn lemma_module_index_prefix(ps: Seq<Seq<char>>, p: Seq<char>, m: int)
    requires
        0 <= m <= ps.len(),
        module_index(ps.take(m), p) is Some,
    ensures
        module_index(ps, p) == module_index(ps.take(m), p),
    decreases ps.len() - m,
{
    if m < ps.len() {
        assert(ps.take(m + 1).drop_last() =~= ps.take(m));
        lemma_module_index_prefix(ps, p, m + 1);
    } else {
        assert(ps.take(m) =~= ps);
    }
}

fn dep_indices(modules: &Vec<Module>) -> (adj: Vec<Vec<usize>>)
    ensures
        adj_views(adj@) == dep_graph(module_views(modules@)),
        edges_in_range(adj_views(adj@)),
{
    let ghost mv = module_views(modules@);
    let ghost ps = module_paths(mv);
    let mut adj: Vec<Vec<usize>> = Vec::new();
    let mut i: usize = 0;
    while i < modules.len()
        invariant
            i <= modules@.len(),
            mv == module_views(modules@),
            ps == module_paths(mv),
            ps.len() == modules@.len(),
            adj@.len() == i,
            forall|a: int| 0 <= a < i ==> #[trigger] usize_views(adj@[a]@) == present_deps(ps, mv[a].dependencies),
            forall|a: int, k: int| 0 <= a < i && 0 <= k < adj@[a]@.len() ==> #[trigger] adj@[a]@[k] < modules@.len(),
        decreases modules@.len() - i,
    {
        let deps = &modules[i].dependencies;
        let ghost dv = string_views(deps@);
        assert(mv[i as int].dependencies == dv);
        let mut row: Vec<usize> = Vec::new();
        let mut k: usize = 0;
        assert(dv.take(0) =~= Seq::<Seq<char>>::empty());
        while k < deps.len()
            invariant
                k <= deps@.len(),
                dv == string_views(deps@),
                ps == module_paths(module_views(modules@)),
                ps.len() == modules@.len(),
                usize_views(row@) == present_deps(ps, dv.take(k as int)),
                forall|x: int| 0 <= x < row@.len() ==> #[trigger] row@[x] < modules@.len(),
            decreases deps@.len() - k,
        {
            assert(dv.take(k + 1).drop_last() =~= dv.take(k as int));
            assert(dv.take(k + 1).last() == deps@[k as int]@);
            match module_index_exec(modules, &deps[k]) {
                Some(j) => {
                    proof {
                        lemma_module_index(ps, deps@[k as int]@);
                    }
                    let ghost r0 = usize_views(row@);
                    row.push(j);
                    assert(usize_views(row@) =~= r0.push(j as int));
                },
                None => {},
            }
            k = k + 1;
        }
        assert(dv.take(deps@.len() as int) =~= dv);
        adj.push(row);
        i = i + 1;
    }
    proof {
        assert(adj_views(adj@) =~= dep_graph(mv));
        assert forall|a: int, k: int| 0 <= a < adj_views(adj@).len() && 0 <= k < adj_views(adj@)[a].len()
            implies 0 <= #[trigger] adj_views(adj@)[a][k] < adj_views(adj@).len() by {
            assert(adj_views(adj@)[a] == usize_views(adj@[a]@));
            assert(adj@[a]@[k] < modules@.len());
        }
    }
    adj
}

/// Topologically sort modules (dependencies before dependents), as indices
/// into `modules`: every module once; each module comes after every
/// dependency that does not lead back to it, so after all its dependencies
/// when the graph has no cycle (a cycle is cut where the walk meets it again,
/// as ES modules allow).
pub fn topological_sort(modules: &Vec<Module>) -> (r: Vec<usize>)
    ensures
        is_module_order(modules@.len() as int, usize_views(r@)),
        deps_first_off_cycles(dep_graph(module_views(modules@)), usize_views(r@)),
        forall|rank: Seq<int>|
            ranked(dep_graph(module_views(modules@)), rank) ==> deps_first(
                dep_graph(module_views(modules@)),
                usize_views(r@),
            ),
{
    let adj = dep_indices(modules);
    let ghost av = adj_views(adj@);
    let ghost rank = choose|rank: Seq<int>| ranked(av, rank);
    let n = modules.len();
    let mut visited: Vec<bool> = Vec::new();
    let mut temp: Vec<bool> = Vec::new();
    let mut x: usize = 0;
    while x < n
        invariant
            x <= n,
            n == modules@.len(),
            visited@.len() == x,
            temp@.len() == x,
            forall|y: int| 0 <= y < x ==> !(#[trigger] visited@[y]),
            forall|y: int| 0 <= y < x ==> !(#[trigger] temp@[y]),
        decreases n - x,
    {
        visited.push(false);
        temp.push(false);
        x = x + 1;
    }
    let mut sorted: Vec<usize> = Vec::new();
    let mut i: usize = 0;
    assert(av.len() == adj@.len());
    assert(dep_graph(module_views(modules@)).len() == modules@.len());
    assert(adj@.len() == n);
    assert(usize_views(sorted@) =~= Seq::<int>::empty());
    while i < n
        invariant
            i <= n,
            n == adj@.len(),
            av == adj_views(adj@),
            edges_in_range(av),
            walk_ok(n as int, visited@, temp@, usize_views(sorted@)),
            forall|y: int| 0 <= y < n ==> !(#[trigger] temp@[y]),
            forall|y: int| 0 <= y < i ==> #[trigger] visited@[y],
            ranked(av, rank) ==> deps_first(av, usize_views(sorted@)),
            deps_first_off_cycles(av, usize_views(sorted@)),
        decreases n - i,
    {
        let ghost vb = visited@;
        visit(i, &adj, &mut visited, &mut temp, &mut sorted, Ghost(rank));
        proof {
            assert forall|y: int| 0 <= y < i + 1 implies #[trigger] visited@[y] by {
                if y < i {
                    assert(vb[y]);
                }
            }
        }
        i = i + 1;
    }
    proof {
        let sv = usize_views(sorted@);
        assert forall|y: int| 0 <= y < n implies sv.contains(y) by {
            assert(visited@[y]);
        }
        assert forall|rk: Seq<int>| ranked(av, rk) implies deps_first(av, sv) by {
            assert(ranked(av, rank));
        }
    }
    sorted
}

} // verus!

verus! {

/// Some loaded module has path `p`.
pub open spec fn is_loaded(ms: Seq<ModuleView>, p: Seq<char>) -> bool {
    exists|i: int| 0 <= i < ms.len() && (#[trigger] ms[i]).path == p
}

/// What building the graph keeps true, with `pending` the path handed out by
/// the last `next_module` and not yet added: every dependency of a loaded
/// module has been seen or is queued, and every seen path is loaded, lies in
/// `node_modules`, or is the pending one.
pub open spec fn closure_inv(g: GraphState, pending: Option<Seq<char>>) -> bool {
    &&& forall|i: int, k: int|
        0 <= i < g.modules.len() && 0 <= k < g.modules[i].dependencies.len() ==> g.visited.contains(
            #[trigger] g.modules[i].dependencies[k],
        ) || g.queue.contains(g.modules[i].dependencies[k])
    &&& forall|j: int|
        0 <= j < g.visited.len() ==> is_loaded(g.modules, #[trigger] g.visited[j]) || contains_seq(
            g.visited[j],
            node_modules_text(),
        ) || pending == Some(g.visited[j])
}

proof fn lemma_unseen_covers(deps: Seq<Seq<char>>, visited: Seq<Seq<char>>, k: int)
    requires
        0 <= k < deps.len(),
    ensures
        visited.contains(deps[k]) || unseen(deps, visited).contains(deps[k]),
    decreases deps.len(),
{
    if k < deps.len() - 1 {
        lemma_unseen_covers(deps.drop_last(), visited, k);
        assert(deps.drop_last()[k] == deps[k]);
        let u = unseen(deps.drop_last(), visited);
        if u.contains(deps[k]) {
            let a = choose|a: int| 0 <= a < u.len() && u[a] == deps[k];
            if !visited.contains(deps.last()) {
                assert(unseen(deps, visited)[a] == deps[k]);
            }
        }
    } else if !visited.contains(deps[k]) {
        let u = unseen(deps, visited);
        assert(u.last() == deps[k]);
        assert(u[u.len() - 1] == deps[k]);
    }
}

proof fn lemma_next_step_inv(g: GraphState)
    requires
        closure_inv(g, None),
    ensures
        closure_inv(next_step(g).0, next_step(g).1),
    decreases g.queue.len(),
{
    if g.queue.len() > 0 {
        let p = g.queue.last();
        let g1 = GraphState { queue: g.queue.drop_last(), ..g };
        let g2 = GraphState { visited: g1.visited.push(p), ..g1 };
        assert forall|i: int, k: int|
            0 <= i < g.modules.len() && 0 <= k < g.modules[i].dependencies.len() implies g2.visited.contains(
            #[trigger] g.modules[i].dependencies[k],
        ) || g2.queue.contains(g.modules[i].dependencies[k]) by {
            let d = g.modules[i].dependencies[k];
            if d == p {
                assert(g2.visited[g2.visited.len() - 1] == p);
            } else if g.visited.contains(d) {
                let a = choose|a: int| 0 <= a < g.visited.len() && g.visited[a] == d;
                assert(g2.visited[a] == d);
            } else {
                let a = choose|a: int| 0 <= a < g.queue.len() && g.queue[a] == d;
                assert(g2.queue[a] == d);
            }
        }
        if g.visited.contains(p) {
            assert forall|i: int, k: int|
                0 <= i < g.modules.len() && 0 <= k < g.modules[i].dependencies.len() implies g1.visited.contains(
                #[trigger] g.modules[i].dependencies[k],
            ) || g1.queue.contains(g.modules[i].dependencies[k]) by {
                let d = g.modules[i].dependencies[k];
                if !g.visited.contains(d) {
                    assert(g2.visited.contains(d) || g2.queue.contains(d));
                    if g2.visited.contains(d) {
                        let a = choose|a: int| 0 <= a < g2.visited.len() && g2.visited[a] == d;
                        assert(a == g.visited.len());
                    }
                }
            }
            lemma_next_step_inv(g1);
        } else {
            assert forall|j: int| 0 <= j < g2.visited.len() implies is_loaded(g2.modules, #[trigger] g2.visited[j])
                || contains_seq(g2.visited[j], node_modules_text()) || (if contains_seq(p, node_modules_text()) {
                None::<Seq<char>>
            } else {
                Some(p)
            }) == Some(g2.visited[j]) by {
                if j < g.visited.len() {
                    assert(g2.visited[j] == g.visited[j]);
                }
            }
            if contains_seq(p, node_modules_text()) {
                lemma_next_step_inv(g2);
            }
        }
    }
}

proof fn lemma_add_step_inv(g: GraphState, m: ModuleView)
    requires
        closure_inv(g, Some(m.path)),
    ensures
        closure_inv(add_step(g, m), None),
{
    let g3 = add_step(g, m);
    let u = unseen(m.dependencies, g.visited);
    assert(g3.modules[g.modules.len() as int] == m);
    assert forall|i: int, k: int|
        0 <= i < g3.modules.len() && 0 <= k < g3.modules[i].dependencies.len() implies g3.visited.contains(
        #[trigger] g3.modules[i].dependencies[k],
    ) || g3.queue.contains(g3.modules[i].dependencies[k]) by {
        let d = g3.modules[i].dependencies[k];
        if i < g.modules.len() {
            assert(g3.modules[i] == g.modules[i]);
            if !g.visited.contains(d) {
                assert(g.queue.contains(d));
                let a = choose|a: int| 0 <= a < g.queue.len() && g.queue[a] == d;
                assert(g3.queue[a] == d);
            }
        } else {
            lemma_unseen_covers(m.dependencies, g.visited, k);
            if !g.visited.contains(d) {
                let a = choose|a: int| 0 <= a < u.len() && u[a] == d;
                assert(g3.queue[g.queue.len() + a] == d);
            }
        }
    }
    assert forall|j: int| 0 <= j < g3.visited.len() implies is_loaded(g3.modules, #[trigger] g3.visited[j])
        || contains_seq(g3.visited[j], node_modules_text()) || None::<Seq<char>> == Some(g3.visited[j]) by {
        let v = g.visited[j];
        if is_loaded(g.modules, v) {
            let i = choose|i: int| 0 <= i < g.modules.len() && (#[trigger] g.modules[i]).path == v;
            assert(g3.modules[i] == g.modules[i]);
        } else if v == m.path {
            assert(g3.modules[g.modules.len() as int].path == v);
        }
    }
}

/// The module graph is closed under dependencies: starting from a new
/// builder, after any run of `next_module` calls, each followed (when it gives
/// a path) by `add_module` of that path, once `next_module` gives `None` every
/// dependency of every loaded module is itself loaded or lies in
/// `node_modules`. Stated over the steps: a new builder meets the invariant,
/// `next_module` and `add_module` keep it, and at the end it gives closure.
pub proof fn law_graph_closed_under_dependencies(g: GraphState, entry: Seq<char>, m: ModuleView)
    ensures
        closure_inv(GraphState { queue: seq![entry], visited: seq![], modules: seq![] }, None),
        closure_inv(g, None) ==> closure_inv(next_step(g).0, next_step(g).1),
        closure_inv(g, Some(m.path)) ==> closure_inv(add_step(g, m), None),
        closure_inv(g, None) && next_step(g).1 is None ==> forall|i: int, k: int|
            0 <= i < g.modules.len() && 0 <= k < g.modules[i].dependencies.len() ==> is_loaded(
                g.modules,
                #[trigger] g.modules[i].dependencies[k],
            ) || contains_seq(g.modules[i].dependencies[k], node_modules_text()),
{
    if closure_inv(g, None) {
        lemma_next_step_inv(g);
    }
    if closure_inv(g, Some(m.path)) {
        lemma_add_step_inv(g, m);
    }
    if closure_inv(g, None) && next_step(g).1 is None {
        lemma_next_step_none(g);
    }
}

/// When `next_module` finds nothing, every dependency of a loaded module is
/// loaded or lies in `node_modules`.
proof fn lemma_next_step_none(g: GraphState)
    requires
        closure_inv(g, None),
        next_step(g).1 is None,
    ensures
        forall|i: int, k: int|
            0 <= i < g.modules.len() && 0 <= k < g.modules[i].dependencies.len() ==> is_loaded(
                g.modules,
                #[trigger] g.modules[i].dependencies[k],
            ) || contains_seq(g.modules[i].dependencies[k], node_modules_text()),
    decreases g.queue.len(),
{
    if g.queue.len() == 0 {
        assert forall|i: int, k: int|
            0 <= i < g.modules.len() && 0 <= k < g.modules[i].dependencies.len() implies is_loaded(
            g.modules,
            #[trigger] g.modules[i].dependencies[k],
        ) || contains_seq(g.modules[i].dependencies[k], node_modules_text()) by {
            let d = g.modules[i].dependencies[k];
            assert(g.visited.contains(d));
            let a = choose|a: int| 0 <= a < g.visited.len() && g.visited[a] == d;
            assert(is_loaded(g.modules, g.visited[a]) || contains_seq(g.visited[a], node_modules_text()));
        }
    } else {
        let p = g.queue.last();
        let g1 = GraphState { queue: g.queue.drop_last(), ..g };
        let g2 = GraphState { visited: g1.visited.push(p), ..g1 };
        let gn = if g.visited.contains(p) { g1 } else { g2 };
        assert(!g.visited.contains(p) ==> contains_seq(p, node_modules_text()));
        assert(closure_inv(gn, None)) by {
            assert forall|i: int, k: int|
                0 <= i < gn.modules.len() && 0 <= k < gn.modules[i].dependencies.len() implies gn.visited.contains(
                #[trigger] gn.modules[i].dependencies[k],
            ) || gn.queue.contains(gn.modules[i].dependencies[k]) by {
                let d = g.modules[i].dependencies[k];
                if d == p {
                    if !g.visited.contains(p) {
                        assert(g2.visited[g2.visited.len() - 1] == p);
                    }
                } else if g.visited.contains(d) {
                    let a = choose|a: int| 0 <= a < g.visited.len() && g.visited[a] == d;
                    assert(gn.visited[a] == d);
                } else {
                    let a = choose|a: int| 0 <= a < g.queue.len() && g.queue[a] == d;
                    assert(gn.queue[a] == d);
                }
            }
            assert forall|j: int| 0 <= j < gn.visited.len() implies is_loaded(gn.modules, #[trigger] gn.visited[j])
                || contains_seq(gn.visited[j], node_modules_text()) || None::<Seq<char>> == Some(gn.visited[j]) by {
                if j < g.visited.len() {
                    assert(gn.visited[j] == g.visited[j]);
                }
            }
        }
        lemma_next_step_none(gn);
    }
}

} // verus!
