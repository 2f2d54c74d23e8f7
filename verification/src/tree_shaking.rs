//! Tracking which exports of which modules are used (for tree shaking).
use vstd::prelude::*;
use crate::text::owned;

verus! {

/// The strings held by `v`, as a set of character sequences.
pub open spec fn name_set(v: Seq<String>) -> Set<Seq<char>> {
    Set::new(|s: Seq<char>| exists|j: int| 0 <= j < v.len() && #[trigger] v[j]@ == s)
}

#[derive(Debug)]
struct UsedEntry {
    path: String,
    names: Vec<String>,
}

/// First index at or after `i` whose path is `p`.
spec fn find_path(paths: Seq<UsedEntry>, p: Seq<char>, i: int) -> Option<int>
    decreases paths.len() - i,
{
    if i < 0 || i >= paths.len() {
        None
    } else if paths[i].path@ == p {
        Some(i)
    } else {
        find_path(paths, p, i + 1)
    }
}

/// Track which exports are used across the module graph, per module path.
/// The name `*` means every export of the module is used.
#[derive(Debug)]
pub struct UsedExportsTracker {
    entries: Vec<UsedEntry>,
}

impl UsedExportsTracker {
    /// The used export names of a module, if it has an entry.
    pub closed spec fn entry(&self, p: Seq<char>) -> Option<Set<Seq<char>>> {
        match find_path(self.entries@, p, 0) {
            Some(i) => Some(name_set(self.entries@[i].names@)),
            None => None,
        }
    }
}

impl View for UsedExportsTracker {
    type V = Map<Seq<char>, Set<Seq<char>>>;

    closed spec fn view(&self) -> Map<Seq<char>, Set<Seq<char>>> {
        Map::new(|p: Seq<char>| self.entry(p) is Some, |p: Seq<char>| self.entry(p)->0)
    }
}

/// The used names recorded for `p` (empty when there are none).
pub open spec fn used_names(m: Map<Seq<char>, Set<Seq<char>>>, p: Seq<char>) -> Set<Seq<char>> {
    if m.contains_key(p) {
        m[p]
    } else {
        Set::empty()
    }
}

/// Whether export `n` of module `p` counts as used: `*` marks every export,
/// and a used `default` export keeps every export of the module.
pub open spec fn export_is_used(m: Map<Seq<char>, Set<Seq<char>>>, p: Seq<char>, n: Seq<char>) -> bool {
    m.contains_key(p) && (m[p].contains("*"@) || m[p].contains(n) || m[p].contains("default"@))
}

proof fn lemma_find_path_bounds(paths: Seq<UsedEntry>, p: Seq<char>, i: int)
    requires
        0 <= i,
    ensures
        find_path(paths, p, i) matches Some(j) ==> i <= j < paths.len() && paths[j].path@ == p
            && forall|k: int| i <= k < j ==> paths[k].path@ != p,
        find_path(paths, p, i) is None ==> forall|k: int|
            i <= k < paths.len() && 0 <= k ==> paths[k].path@ != p,
    decreases paths.len() - i,
{
    if i < 0 || i >= paths.len() {
    } else if paths[i].path@ == p {
    } else {
        lemma_find_path_bounds(paths, p, i + 1);
    }
}

proof fn lemma_find_path_same(a: Seq<UsedEntry>, b: Seq<UsedEntry>, p: Seq<char>, i: int)
    requires
        0 <= i,
        forall|k: int| i <= k < a.len() ==> (#[trigger] a[k].path@ == p) == (k < b.len() && b[k].path@ == p),
        forall|k: int| i <= k < b.len() ==> (#[trigger] b[k].path@ == p) == (k < a.len() && a[k].path@ == p),
    ensures
        find_path(a, p, i) == find_path(b, p, i),
    decreases (if a.len() > b.len() { a.len() } else { b.len() }) - i,
{
    if i >= a.len() && i >= b.len() {
    } else if i < a.len() && a[i].path@ == p {
    } else if i < b.len() && b[i].path@ == p {
    } else {
        lemma_find_path_same(a, b, p, i + 1);
    }
}

fn contains_string(list: &Vec<String>, n: &String) -> (b: bool)
    ensures
        b == name_set(list@).contains(n@),
{
    let mut j: usize = 0;
    while j < list.len()
        invariant
            j <= list@.len(),
            forall|k: int| 0 <= k < j ==> #[trigger] list@[k]@ != n@,
        decreases list@.len() - j,
    {
        if list[j] == *n {
            assert(list@[j as int]@ == n@);
            return true;
        }
        j = j + 1;
    }
    false
}

impl UsedExportsTracker {
    pub fn new() -> (t: Self)
        ensures
            t@ == Map::<Seq<char>, Set<Seq<char>>>::empty(),
            t@ == after_marks(seq![]),
    {
        let t = UsedExportsTracker { entries: Vec::new() };
        assert(t@ =~= Map::<Seq<char>, Set<Seq<char>>>::empty());
        t
    }

    fn index_of(&self, p: &String) -> (r: Option<usize>)
        ensures
            match r {
                Some(i) => find_path(self.entries@, p@, 0) == Some(i as int),
                None => find_path(self.entries@, p@, 0) is None,
            },
    {
        let mut i: usize = 0;
        while i < self.entries.len()
            invariant
                i <= self.entries@.len(),
                find_path(self.entries@, p@, 0) == find_path(self.entries@, p@, i as int),
            decreases self.entries@.len() - i,
        {
            if self.entries[i].path == *p {
                return Some(i);
            }
            i = i + 1;
        }
        None
    }

    /// Mark an export as used
    pub fn mark_used(&mut self, mod_path: &str, export_name: &str)
        ensures
            final(self)@ == old(self)@.insert(
                mod_path@,
                used_names(old(self)@, mod_path@).insert(export_name@),
            ),
            final(self)@ == after_mark(old(self)@, mod_path@, export_name@),
    {
        let p = owned(mod_path);
        let n = owned(export_name);
        let ghost old_entries = self.entries@;
        let ghost old_view = self@;
        match self.index_of(&p) {
            Some(i) => {
                proof {
                    lemma_find_path_bounds(old_entries, p@, 0);
                }
                let mut list: Vec<String> = Vec::new();
                let ghost old_list = self.entries@[i as int].names@;
                let mut j: usize = 0;
                while j < self.entries[i].names.len()
                    invariant
                        i < self.entries@.len(),
                        self.entries@ == old_entries,
                        old_list == self.entries@[i as int].names@,
                        j <= old_list.len(),
                        list@.len() == j,
                        forall|k: int| 0 <= k < j ==> #[trigger] list@[k]@ == old_list[k]@,
                    decreases old_list.len() - j,
                {
                    list.push(owned(self.entries[i].names[j].as_str()));
                    j = j + 1;
                }
                assert(name_set(list@) =~= name_set(old_list)) by {
                    assert forall|s: Seq<char>| name_set(old_list).contains(s)
                        implies name_set(list@).contains(s) by {
                        let k = choose|k: int| 0 <= k < old_list.len() && #[trigger] old_list[k]@ == s;
                        assert(list@[k]@ == old_list[k]@);
                    }
                    assert forall|s: Seq<char>| name_set(list@).contains(s)
                        implies name_set(old_list).contains(s) by {
                        let k = choose|k: int| 0 <= k < list@.len() && #[trigger] list@[k]@ == s;
                        assert(list@[k]@ == old_list[k]@);
                    }
                }
                let ghost copied = list@;
                let present = contains_string(&list, &n);
                if !present {
                    list.push(n);
                }
                proof {
                    assert(name_set(list@) =~= name_set(copied).insert(export_name@)) by {
                        if !present {
                            assert(list@[list@.len() - 1]@ == export_name@);
                            assert forall|s: Seq<char>| name_set(copied).contains(s)
                                implies name_set(list@).contains(s) by {
                                let k = choose|k: int| 0 <= k < copied.len() && #[trigger] copied[k]@ == s;
                                assert(list@[k] == copied[k]);
                            }
                            assert forall|s: Seq<char>| name_set(list@).contains(s)
                                implies name_set(copied).insert(export_name@).contains(s) by {
                                let k = choose|k: int| 0 <= k < list@.len() && #[trigger] list@[k]@ == s;
                                if k < copied.len() {
                                    assert(copied[k] == list@[k]);
                                }
                            }
                        }
                    }
                }
                let entry = UsedEntry { path: p, names: list };
                self.entries.set(i, entry);
                proof {
                    let ne = self.entries@;
                    assert forall|q: Seq<char>| q != mod_path@ implies #[trigger] self.entry(q) == old(self).entry(q) by {
                        lemma_find_path_same(ne, old_entries, q, 0);
                        lemma_find_path_bounds(old_entries, q, 0);
                    }
                    lemma_find_path_same(ne, old_entries, mod_path@, 0);
                    assert(old_view.contains_key(mod_path@));
                    assert(self@ =~= old_view.insert(mod_path@, used_names(old_view, mod_path@).insert(export_name@)));
                }
            },
            None => {
                let mut list: Vec<String> = Vec::new();
                list.push(n);
                self.entries.push(UsedEntry { path: p, names: list });
                proof {
                    lemma_find_path_bounds(old_entries, mod_path@, 0);
                    let ne = self.entries@;
                    assert forall|q: Seq<char>| q != mod_path@ implies #[trigger] self.entry(q) == old(self).entry(q) by {
                        lemma_find_path_same(ne, old_entries, q, 0);
                        lemma_find_path_bounds(old_entries, q, 0);
                    }
                    lemma_find_path_bounds(ne, mod_path@, 0);
                    assert(ne[old_entries.len() as int].path@ == mod_path@);
                    assert(forall|k: int| 0 <= k < old_entries.len() ==> ne[k] == old_entries[k]);
                    assert(find_path(ne, mod_path@, 0) == Some(old_entries.len() as int));
                    assert(name_set(list@) =~= Set::<Seq<char>>::empty().insert(export_name@)) by {
                        assert(list@[0]@ == export_name@);
                    }
                    assert(!old_view.contains_key(mod_path@));
                    assert(self@ =~= old_view.insert(mod_path@, used_names(old_view, mod_path@).insert(export_name@)));
                }
            },
        }
    }

    /// Mark all exports as used (for `import *` or `export *`)
    pub fn mark_all_used(&mut self, mod_path: &str)
        ensures
            final(self)@ == old(self)@.insert(
                mod_path@,
                used_names(old(self)@, mod_path@).insert("*"@),
            ),
            final(self)@ == after_mark(old(self)@, mod_path@, "*"@),
    {
        self.mark_used(mod_path, "*");
    }

    /// Check if an export is used
    pub fn is_used(&self, mod_path: &str, export_name: &str) -> (b: bool)
        ensures
            b == export_is_used(self@, mod_path@, export_name@),
    {
        let p = owned(mod_path);
        match self.index_of(&p) {
            Some(i) => {
                proof {
                    lemma_find_path_bounds(self.entries@, p@, 0);
                    assert(self@.contains_key(p@));
                }
                let names = &self.entries[i].names;
                let star = owned("*");
                let dflt = owned("default");
                let n = owned(export_name);
                contains_string(names, &star) || contains_string(names, &n)
                    || contains_string(names, &dflt)
            },
            None => false,
        }
    }

    /// Check if any exports are used from a module
    pub fn has_any_used(&self, mod_path: &str) -> (b: bool)
        ensures
            b == (self@.contains_key(mod_path@) && !self@[mod_path@].is_empty()),
    {
        let p = owned(mod_path);
        match self.index_of(&p) {
            Some(i) => {
                proof {
                    lemma_find_path_bounds(self.entries@, p@, 0);
                    assert(self@.contains_key(p@));
                    let v = self.entries@[i as int].names@;
                    if v.len() > 0 {
                        assert(name_set(v).contains(v[0]@));
                    } else {
                        assert(name_set(v) =~= Set::empty());
                    }
                }
                self.entries[i].names.len() > 0
            },
            None => false,
        }
    }
}

} // verus!

verus! {

/// The used exports after `mark_used(p, n)`.
pub open spec fn after_mark(m: Map<Seq<char>, Set<Seq<char>>>, p: Seq<char>, n: Seq<char>) -> Map<Seq<char>, Set<Seq<char>>> {
    m.insert(p, used_names(m, p).insert(n))
}

/// An export that has been marked used is used.
pub proof fn law_marked_export_is_used(m: Map<Seq<char>, Set<Seq<char>>>, p: Seq<char>, n: Seq<char>)
    ensures
        export_is_used(after_mark(m, p, n), p, n),
{
}

/// After every export of a module is marked used (`*`), each of its exports
/// is used.
pub proof fn law_mark_all_used_covers_every_export(m: Map<Seq<char>, Set<Seq<char>>>, p: Seq<char>, n: Seq<char>)
    ensures
        export_is_used(after_mark(m, p, "*"@), p, n),
{
}

/// A used `default` export keeps every export of its module.
pub proof fn law_default_keeps_every_export(m: Map<Seq<char>, Set<Seq<char>>>, p: Seq<char>, n: Seq<char>)
    requires
        m.contains_key(p),
        m[p].contains("default"@),
    ensures
        export_is_used(m, p, n),
{
}

/// Marking an export of one module leaves every other module as it was.
pub proof fn law_marking_is_local(
    m: Map<Seq<char>, Set<Seq<char>>>,
    p: Seq<char>,
    n: Seq<char>,
    q: Seq<char>,
    x: Seq<char>,
)
    requires
        p != q,
    ensures
        export_is_used(after_mark(m, p, n), q, x) == export_is_used(m, q, x),
{
}

/// Marking never makes a used export unused.
pub proof fn law_marking_keeps_used(
    m: Map<Seq<char>, Set<Seq<char>>>,
    p: Seq<char>,
    n: Seq<char>,
    q: Seq<char>,
    x: Seq<char>,
)
    requires
        export_is_used(m, q, x),
    ensures
        export_is_used(after_mark(m, p, n), q, x),
{
}

/// A module with a marked export has some export used.
pub proof fn law_marked_module_has_use(m: Map<Seq<char>, Set<Seq<char>>>, p: Seq<char>, n: Seq<char>)
    ensures
        after_mark(m, p, n).contains_key(p),
        !after_mark(m, p, n)[p].is_empty(),
{
    assert(after_mark(m, p, n)[p].contains(n));
}

/// Nothing of a module with no marks is used.
pub proof fn law_unmarked_module_is_unused(m: Map<Seq<char>, Set<Seq<char>>>, p: Seq<char>, n: Seq<char>)
    requires
        !m.contains_key(p),
    ensures
        !export_is_used(m, p, n),
{
}

} // verus!

verus! {

/// The used exports after a new tracker receives `calls` in order, each call
/// `(p, n)` being `mark_used(p, n)` (`mark_all_used(p)` is `(p, "*")`).
pub open spec fn after_marks(calls: Seq<(Seq<char>, Seq<char>)>) -> Map<Seq<char>, Set<Seq<char>>>
    decreases calls.len(),
{
    if calls.len() == 0 {
        Map::empty()
    } else {
        after_mark(after_marks(calls.drop_last()), calls.last().0, calls.last().1)
    }
}

/// Some call marked export `n` of module `p`.
pub open spec fn marked_by(calls: Seq<(Seq<char>, Seq<char>)>, p: Seq<char>, n: Seq<char>) -> bool {
    exists|i: int| 0 <= i < calls.len() && #[trigger] calls[i] == (p, n)
}

/// Some call named module `p`.
pub open spec fn touched_by(calls: Seq<(Seq<char>, Seq<char>)>, p: Seq<char>) -> bool {
    exists|i: int| 0 <= i < calls.len() && (#[trigger] calls[i]).0 == p
}

proof fn lemma_after_marks(calls: Seq<(Seq<char>, Seq<char>)>, p: Seq<char>, x: Seq<char>)
    ensures
        after_marks(calls).contains_key(p) == touched_by(calls, p),
        touched_by(calls, p) ==> (after_marks(calls)[p].contains(x) == marked_by(calls, p, x)),
    decreases calls.len(),
{
    if calls.len() > 0 {
        let init = calls.drop_last();
        let last = calls.last();
        lemma_after_marks(init, p, x);
        let n = calls.len() - 1;
        assert(calls[n] == last);
        assert forall|i: int| 0 <= i < init.len() implies calls[i] == #[trigger] init[i] by {}
        if touched_by(init, p) {
            let i = choose|i: int| 0 <= i < init.len() && (#[trigger] init[i]).0 == p;
            assert(calls[i] == init[i]);
        }
        if marked_by(init, p, x) {
            let i = choose|i: int| 0 <= i < init.len() && #[trigger] init[i] == (p, x);
            assert(calls[i] == init[i]);
        }
        if touched_by(calls, p) && last.0 != p {
            let i = choose|i: int| 0 <= i < calls.len() && (#[trigger] calls[i]).0 == p;
            assert(init[i] == calls[i]);
        }
        if marked_by(calls, p, x) && last != (p, x) {
            let i = choose|i: int| 0 <= i < calls.len() && #[trigger] calls[i] == (p, x);
            assert(init[i] == calls[i]);
        }
    }
}

/// Over any sequence of marks on a new tracker: an export counts as used
/// exactly when some call marked it, `*` or `default` of its module; and a
/// module has some export used exactly when some call named it.
pub proof fn law_tracker_calls(calls: Seq<(Seq<char>, Seq<char>)>, p: Seq<char>, n: Seq<char>)
    ensures
        export_is_used(after_marks(calls), p, n) == (marked_by(calls, p, n) || marked_by(calls, p, "*"@)
            || marked_by(calls, p, "default"@)),
        (after_marks(calls).contains_key(p) && !after_marks(calls)[p].is_empty()) == touched_by(calls, p),
{
    lemma_after_marks(calls, p, n);
    lemma_after_marks(calls, p, "*"@);
    lemma_after_marks(calls, p, "default"@);
    let m = after_marks(calls);
    if touched_by(calls, p) {
        let i = choose|i: int| 0 <= i < calls.len() && (#[trigger] calls[i]).0 == p;
        lemma_after_marks(calls, p, calls[i].1);
        assert(calls[i] == (p, calls[i].1));
        assert(m[p].contains(calls[i].1));
    }
    if marked_by(calls, p, n) || marked_by(calls, p, "*"@) || marked_by(calls, p, "default"@) {
        assert(touched_by(calls, p)) by {
            if marked_by(calls, p, n) {
                let i = choose|i: int| 0 <= i < calls.len() && #[trigger] calls[i] == (p, n);
                assert(calls[i].0 == p);
            } else if marked_by(calls, p, "*"@) {
                let i = choose|i: int| 0 <= i < calls.len() && #[trigger] calls[i] == (p, "*"@);
                assert(calls[i].0 == p);
            } else {
                let i = choose|i: int| 0 <= i < calls.len() && #[trigger] calls[i] == (p, "default"@);
                assert(calls[i].0 == p);
            }
        }
    }
}

} // verus!
