//! Path operations of std, on paths held as strings.
use vstd::prelude::*;

verus! {

/// What `Path::join` gives for `base` joined with `rel` on Unix, as text: an
/// absolute `rel` replaces `base`; otherwise `rel` is appended, after a `/`
/// unless `base` is empty or already ends in one.
pub open spec fn std_path_join(base: Seq<char>, rel: Seq<char>) -> Seq<char> {
    if rel.len() > 0 && rel[0] == '/' {
        rel
    } else if base.len() == 0 || base.last() == '/' {
        base + rel
    } else {
        base + seq!['/'] + rel
    }
}

/// What `Path::file_name` gives for `p`, as text.
pub uninterp spec fn std_path_file_name(p: Seq<char>) -> Option<Seq<char>>;

/// What `Path::parent` gives for `p`, as text.
pub uninterp spec fn std_path_parent(p: Seq<char>) -> Option<Seq<char>>;

/// What `Path::extension` gives for `p`, as text.
pub uninterp spec fn std_path_extension(p: Seq<char>) -> Option<Seq<char>>;

/// The extension of `p` by std's `Path::extension`.
#[verifier::external_body]
pub(crate) fn path_extension(p: &str) -> (r: Option<String>)
    ensures
        match r {
            Some(f) => std_path_extension(p@) == Some(f@),
            None => std_path_extension(p@) is None,
        },
{
    std::path::Path::new(p).extension().map(|f| f.to_string_lossy().to_string())
}

/// `base` joined with `rel` as std's `Path::join` does on Unix (see
/// `std_path_join`).
pub fn path_join(base: &str, rel: &str) -> (r: String)
    ensures
        r@ == std_path_join(base@, rel@),
{
    let b = crate::text::chars_of(base);
    let r = crate::text::chars_of(rel);
    if r.len() > 0 && r[0] == '/' {
        return crate::text::owned(rel);
    }
    let mut out = crate::text::owned(base);
    if b.len() > 0 && b[b.len() - 1] != '/' {
        crate::text::push_char(&mut out, '/');
    }
    let ghost o0 = out@;
    out.append(rel);
    assert(out@ == o0 + rel@);
    out
}

/// The final component of `p` by std's `Path::file_name`.
#[verifier::external_body]
pub(crate) fn path_file_name(p: &str) -> (r: Option<String>)
    ensures
        match r {
            Some(f) => std_path_file_name(p@) == Some(f@),
            None => std_path_file_name(p@) is None,
        },
{
    std::path::Path::new(p).file_name().map(|f| f.to_string_lossy().to_string())
}

/// The parent of `p` by std's `Path::parent`.
#[verifier::external_body]
pub(crate) fn path_parent(p: &str) -> (r: Option<String>)
    ensures
        match r {
            Some(f) => std_path_parent(p@) == Some(f@),
            None => std_path_parent(p@) is None,
        },
{
    std::path::Path::new(p).parent().map(|f| f.to_string_lossy().to_string())
}

} // verus!

verus! {

/// A component of a Unix path (as `Path::components` yields them).
#[derive(Debug)]
pub enum PathComp {
    Root,
    Cur,
    Parent,
    Normal(Vec<char>),
}

pub enum PathCompView {
    Root,
    Cur,
    Parent,
    Normal(Seq<char>),
}

impl View for PathComp {
    type V = PathCompView;

    open spec fn view(&self) -> PathCompView {
        match self {
            PathComp::Root => PathCompView::Root,
            PathComp::Cur => PathCompView::Cur,
            PathComp::Parent => PathCompView::Parent,
            PathComp::Normal(v) => PathCompView::Normal(v@),
        }
    }
}

pub open spec fn comp_views(v: Seq<PathComp>) -> Seq<PathCompView> {
    v.map_values(|c: PathComp| c@)
}

/// The components named by the segments between slashes: empty and `.`
/// segments name none, `..` the parent.
pub open spec fn segment_comps(segs: Seq<Seq<char>>) -> Seq<PathCompView>
    decreases segs.len(),
{
    if segs.len() == 0 {
        seq![]
    } else {
        let rest = segment_comps(segs.drop_last());
        let s = segs.last();
        if s.len() == 0 || s == seq!['.'] {
            rest
        } else if s == seq!['.', '.'] {
            rest.push(PathCompView::Parent)
        } else {
            rest.push(PathCompView::Normal(s))
        }
    }
}

/// The components of a Unix path: a root for a leading `/`, the current
/// directory for a leading `.` segment, then one per other non-empty segment
/// that is not `.` (repeated and trailing slashes are ignored).
pub open spec fn path_components(p: Seq<char>) -> Seq<PathCompView> {
    let segs = crate::text::split_char(p, '/');
    if p.len() > 0 && p[0] == '/' {
        seq![PathCompView::Root] + segment_comps(segs.skip(1))
    } else if segs[0] == seq!['.'] {
        seq![PathCompView::Cur] + segment_comps(segs.skip(1))
    } else {
        segment_comps(segs)
    }
}

/// The text a component is pushed as.
pub open spec fn comp_text(c: PathCompView) -> Seq<char> {
    match c {
        PathCompView::Root => seq!['/'],
        PathCompView::Cur => seq!['.'],
        PathCompView::Parent => seq!['.', '.'],
        PathCompView::Normal(s) => s,
    }
}

/// `PathBuf::push` of one component onto a path: a root replaces the path,
/// otherwise the component is appended, after a `/` unless the path is empty or
/// already ends in one.
pub open spec fn push_comp(buf: Seq<char>, c: PathCompView) -> Seq<char> {
    if c is Root {
        seq!['/']
    } else if buf.len() == 0 {
        comp_text(c)
    } else if buf.last() == '/' {
        buf + comp_text(c)
    } else {
        buf + seq!['/'] + comp_text(c)
    }
}

pub open spec fn push_all(buf: Seq<char>, cs: Seq<PathCompView>) -> Seq<char>
    decreases cs.len(),
{
    if cs.len() == 0 {
        buf
    } else {
        push_comp(push_all(buf, cs.drop_last()), cs.last())
    }
}

/// Length of the longest common prefix of `a` and `b`.
pub open spec fn common_prefix_len(a: Seq<PathCompView>, b: Seq<PathCompView>, k: int) -> int
    decreases a.len() - k,
{
    if 0 <= k && k < a.len() && k < b.len() && a[k] == b[k] {
        common_prefix_len(a, b, k + 1)
    } else {
        k
    }
}

pub open spec fn parents_for(cs: Seq<PathCompView>) -> Seq<PathCompView>
    decreases cs.len(),
{
    if cs.len() == 0 {
        seq![]
    } else if cs.last() is Normal {
        parents_for(cs.drop_last()).push(PathCompView::Parent)
    } else {
        parents_for(cs.drop_last())
    }
}

/// The relative path from `base` to `target`: past their common components,
/// one `..` for each remaining plain component of `base`, then the remaining
/// components of `target`; `.` when that is empty.
pub open spec fn relative_path(target: Seq<char>, base: Seq<char>) -> Seq<char> {
    let t = path_components(target);
    let b = path_components(base);
    let k = common_prefix_len(t, b, 0);
    let r = push_all(seq![], parents_for(b.skip(k)) + t.skip(k));
    if r.len() == 0 {
        seq!['.']
    } else {
        r
    }
}

} // verus!

verus! {

fn is_dot(s: &Vec<char>) -> (b: bool)
    ensures
        b == (s@ == seq!['.']),
{
    if s.len() == 1 && s[0] == '.' {
        assert(s@ =~= seq!['.']);
        true
    } else {
        false
    }
}

fn is_dotdot(s: &Vec<char>) -> (b: bool)
    ensures
        b == (s@ == seq!['.', '.']),
{
    if s.len() == 2 && s[0] == '.' && s[1] == '.' {
        assert(s@ =~= seq!['.', '.']);
        true
    } else {
        false
    }
}

/// The components of a Unix path (see `path_components`).
pub fn components_of(p: &str) -> (r: Vec<PathComp>)
    ensures
        comp_views(r@) == path_components(p@),
{
    let cs = crate::text::chars_of(p);
    let segs = crate::text::split_char_exec(cs.as_slice(), '/');
    proof {
        crate::text::lemma_split_char_nonempty(p@, '/');
    }
    let mut out: Vec<PathComp> = Vec::new();
    let start: usize;
    if cs.len() > 0 && cs[0] == '/' {
        out.push(PathComp::Root);
        start = 1;
    } else if is_dot(&segs[0]) {
        out.push(PathComp::Cur);
        start = 1;
    } else {
        start = 0;
    }
    let ghost head = comp_views(out@);
    let ghost sv = crate::text::vec_views(segs@);
    let mut i = start;
    assert(sv.skip(start as int).take(0) =~= Seq::<Seq<char>>::empty());
    while i < segs.len()
        invariant
            start <= i <= segs@.len(),
            sv == crate::text::vec_views(segs@),
            comp_views(out@) == head + segment_comps(sv.skip(start as int).take(i - start)),
        decreases segs@.len() - i,
    {
        proof {
            let pre = sv.skip(start as int).take(i + 1 - start);
            assert(pre.drop_last() =~= sv.skip(start as int).take(i - start));
            assert(pre.last() == segs@[i as int]@);
        }
        let ghost before = comp_views(out@);
        let s = &segs[i];
        if s.len() == 0 || is_dot(s) {
        } else if is_dotdot(s) {
            out.push(PathComp::Parent);
            assert(comp_views(out@) =~= before.push(PathCompView::Parent));
        } else {
            let mut copy: Vec<char> = Vec::new();
            copy.extend_from_slice(s.as_slice());
            assert(copy@ =~= s@);
            out.push(PathComp::Normal(copy));
            assert(comp_views(out@) =~= before.push(PathCompView::Normal(s@)));
        }
        i = i + 1;
        assert(comp_views(out@) =~= head + segment_comps(sv.skip(start as int).take(i - start)));
    }
    assert(sv.skip(start as int).take(i - start) =~= sv.skip(start as int));
    assert(sv.skip(0) =~= sv);
    out
}

fn comp_eq(a: &PathComp, b: &PathComp) -> (r: bool)
    ensures
        r == (a@ == b@),
{
    match (a, b) {
        (PathComp::Root, PathComp::Root) => true,
        (PathComp::Cur, PathComp::Cur) => true,
        (PathComp::Parent, PathComp::Parent) => true,
        (PathComp::Normal(x), PathComp::Normal(y)) => crate::text::chars_eq(x.as_slice(), y.as_slice()),
        _ => false,
    }
}

fn push_comp_exec(buf: &mut Vec<char>, c: &PathComp)
    ensures
        final(buf)@ == push_comp(old(buf)@, c@),
{
    let text: Vec<char> = match c {
        PathComp::Root => {
            buf.clear();
            buf.push('/');
            assert(buf@ =~= seq!['/']);
            return;
        },
        PathComp::Cur => vec!['.'],
        PathComp::Parent => vec!['.', '.'],
        PathComp::Normal(v) => {
            let mut t: Vec<char> = Vec::new();
            t.extend_from_slice(v.as_slice());
            t
        },
    };
    assert(text@ =~= comp_text(c@));
    if buf.len() == 0 {
        buf.extend_from_slice(text.as_slice());
        assert(buf@ =~= comp_text(c@));
    } else if buf[buf.len() - 1] == '/' {
        buf.extend_from_slice(text.as_slice());
    } else {
        buf.push('/');
        buf.extend_from_slice(text.as_slice());
    }
}

/// Compute relative path from `base` to `target` (see `relative_path`): the
/// path you'd need to write in `base` to reach `target`. Paths are compared as
/// given; callers canonicalize them first.
pub fn diff_paths(target: &str, base: &str) -> (r: Option<String>)
    ensures
        r matches Some(p) && p@ == relative_path(target@, base@),
{
    let t = components_of(target);
    let b = components_of(base);
    let ghost tv = comp_views(t@);
    let ghost bv = comp_views(b@);
    let mut k: usize = 0;
    while k < t.len() && k < b.len() && comp_eq(&t[k], &b[k])
        invariant
            k <= t@.len(),
            k <= b@.len(),
            tv == comp_views(t@),
            bv == comp_views(b@),
            common_prefix_len(tv, bv, 0) == common_prefix_len(tv, bv, k as int),
        decreases t@.len() - k,
    {
        k = k + 1;
    }
    let ghost rest = parents_for(bv.skip(k as int)) + tv.skip(k as int);
    let mut buf: Vec<char> = Vec::new();
    let ghost mut pushed: Seq<PathCompView> = seq![];
    let mut j = k;
    assert(bv.skip(k as int).take(0) =~= Seq::<PathCompView>::empty());
    while j < b.len()
        invariant
            k <= j <= b@.len(),
            bv == comp_views(b@),
            pushed == parents_for(bv.skip(k as int).take(j - k)),
            buf@ == push_all(seq![], pushed),
        decreases b@.len() - j,
    {
        proof {
            let pre = bv.skip(k as int).take(j + 1 - k);
            assert(pre.drop_last() =~= bv.skip(k as int).take(j - k));
            assert(pre.last() == b@[j as int]@);
        }
        if let PathComp::Normal(_) = &b[j] {
            let parent = PathComp::Parent;
            push_comp_exec(&mut buf, &parent);
            proof {
                assert(pushed.push(PathCompView::Parent).drop_last() =~= pushed);
                pushed = pushed.push(PathCompView::Parent);
            }
        }
        j = j + 1;
    }
    assert(bv.skip(k as int).take(j - k) =~= bv.skip(k as int));
    let ghost parents = pushed;
    let mut i = k;
    assert(tv.skip(k as int).take(0) =~= Seq::<PathCompView>::empty());
    assert(parents + tv.skip(k as int).take(0) =~= parents);
    while i < t.len()
        invariant
            k <= i <= t@.len(),
            tv == comp_views(t@),
            buf@ == push_all(seq![], parents + tv.skip(k as int).take(i - k)),
        decreases t@.len() - i,
    {
        proof {
            let pre = parents + tv.skip(k as int).take(i + 1 - k);
            assert(pre.drop_last() =~= parents + tv.skip(k as int).take(i - k));
            assert(pre.last() == t@[i as int]@);
        }
        push_comp_exec(&mut buf, &t[i]);
        i = i + 1;
    }
    assert(tv.skip(k as int).take(i - k) =~= tv.skip(k as int));
    proof {
        if k < t@.len() && k < b@.len() {
            assert(tv[k as int] == t@[k as int]@);
            assert(bv[k as int] == b@[k as int]@);
        }
        assert(common_prefix_len(tv, bv, k as int) == k);
        reveal_strlit(".");
    }
    if buf.len() == 0 {
        Some(crate::text::owned("."))
    } else {
        Some(crate::text::string_of(&buf))
    }
}

} // verus!

verus! {

proof fn lemma_common_prefix_self(a: Seq<PathCompView>, k: int)
    requires
        0 <= k <= a.len(),
    ensures
        common_prefix_len(a, a, k) == a.len(),
    decreases a.len() - k,
{
    if k < a.len() {
        lemma_common_prefix_self(a, k + 1);
    }
}

/// The relative path from a path to itself is `.`.
pub proof fn law_relative_path_to_self(p: Seq<char>)
    ensures
        relative_path(p, p) == seq!['.'],
{
    let c = path_components(p);
    lemma_common_prefix_self(c, 0);
    assert(c.skip(c.len() as int) =~= Seq::<PathCompView>::empty());
    assert(parents_for(Seq::<PathCompView>::empty()) + Seq::<PathCompView>::empty() =~= Seq::<PathCompView>::empty());
}

/// A component that can follow the root: `..` or a plain name that is not
/// empty and not `.`.
pub open spec fn inner_comp(c: PathCompView) -> bool {
    match c {
        PathCompView::Parent => true,
        PathCompView::Normal(s) => s.len() > 0 && s != seq!['.'],
        _ => false,
    }
}

proof fn lemma_segment_comps_inner(segs: Seq<Seq<char>>)
    ensures
        forall|i: int| 0 <= i < segment_comps(segs).len() ==> inner_comp(#[trigger] segment_comps(segs)[i]),
    decreases segs.len(),
{
    if segs.len() > 0 {
        lemma_segment_comps_inner(segs.drop_last());
        let rest = segment_comps(segs.drop_last());
        let r = segment_comps(segs);
        assert forall|i: int| 0 <= i < r.len() implies inner_comp(#[trigger] r[i]) by {
            if i < rest.len() {
                assert(r[i] == rest[i]);
            }
        }
    }
}

proof fn lemma_parents_for_normal(cs: Seq<PathCompView>)
    requires
        forall|i: int| 0 <= i < cs.len() ==> (#[trigger] cs[i]) is Normal,
    ensures
        parents_for(cs).len() == cs.len(),
        forall|i: int| 0 <= i < parents_for(cs).len() ==> (#[trigger] parents_for(cs)[i]) is Parent,
    decreases cs.len(),
{
    if cs.len() > 0 {
        lemma_parents_for_normal(cs.drop_last());
    }
}

proof fn lemma_push_all_not_dot(cs: Seq<PathCompView>)
    requires
        cs.len() > 0,
        forall|i: int| 0 <= i < cs.len() ==> inner_comp(#[trigger] cs[i]),
    ensures
        push_all(seq![], cs).len() > 0,
        push_all(seq![], cs) != seq!['.'],
    decreases cs.len(),
{
    let c = cs.last();
    assert(inner_comp(cs[cs.len() - 1]));
    if cs.len() == 1 {
        assert(cs.drop_last() =~= Seq::<PathCompView>::empty());
        if c is Parent {
            assert(push_all(seq![], cs) =~= seq!['.', '.']);
        }
    } else {
        lemma_push_all_not_dot(cs.drop_last());
        let buf = push_all(seq![], cs.drop_last());
        assert(comp_text(c).len() > 0);
        assert(push_all(seq![], cs).len() >= 2);
    }
}

proof fn lemma_common_prefix_props(a: Seq<PathCompView>, b: Seq<PathCompView>, j: int)
    requires
        0 <= j <= a.len(),
        j <= b.len(),
        forall|i: int| 0 <= i < j ==> a[i] == b[i],
    ensures
        ({
            let k = common_prefix_len(a, b, j);
            &&& j <= k <= a.len()
            &&& k <= b.len()
            &&& forall|i: int| 0 <= i < k ==> a[i] == b[i]
            &&& (k < a.len() && k < b.len() ==> a[k] != b[k])
        }),
    decreases a.len() - j,
{
    if j < a.len() && j < b.len() && a[j] == b[j] {
        lemma_common_prefix_props(a, b, j + 1);
    }
}

/// Between absolute paths, where the base has no `..` component, the
/// relative path is `.` exactly when both name the same components.
pub proof fn law_relative_path_dot_iff_same(target: Seq<char>, base: Seq<char>)
    requires
        target.len() > 0 && target[0] == '/',
        base.len() > 0 && base[0] == '/',
        forall|i: int| 0 <= i < path_components(base).len() ==> !(#[trigger] path_components(base)[i] is Parent),
    ensures
        relative_path(target, base) == seq!['.'] <==> path_components(target) == path_components(base),
{
    let t = path_components(target);
    let b = path_components(base);
    let st = segment_comps(crate::text::split_char(target, '/').skip(1));
    let sb = segment_comps(crate::text::split_char(base, '/').skip(1));
    lemma_segment_comps_inner(crate::text::split_char(target, '/').skip(1));
    lemma_segment_comps_inner(crate::text::split_char(base, '/').skip(1));
    assert(t == seq![PathCompView::Root] + st);
    assert(b == seq![PathCompView::Root] + sb);
    assert(forall|i: int| 1 <= i < t.len() ==> inner_comp(#[trigger] t[i])) by {
        assert forall|i: int| 1 <= i < t.len() implies inner_comp(#[trigger] t[i]) by {
            assert(t[i] == st[i - 1]);
        }
    }
    assert(forall|i: int| 1 <= i < b.len() ==> (#[trigger] b[i]) is Normal) by {
        assert forall|i: int| 1 <= i < b.len() implies (#[trigger] b[i]) is Normal by {
            assert(b[i] == sb[i - 1]);
            assert(inner_comp(sb[i - 1]));
            assert(!(b[i] is Parent));
        }
    }
    assert(t[0] == b[0]);
    assert(common_prefix_len(t, b, 0) == common_prefix_len(t, b, 1));
    lemma_common_prefix_props(t, b, 1);
    let k = common_prefix_len(t, b, 0);
    let bs = b.skip(k);
    let ts = t.skip(k);
    lemma_parents_for_normal(bs);
    let rest = parents_for(bs) + ts;
    if t == b {
        lemma_common_prefix_self(t, 0);
        assert(bs =~= Seq::<PathCompView>::empty());
        assert(ts =~= Seq::<PathCompView>::empty());
        assert(rest =~= Seq::<PathCompView>::empty());
    } else {
        assert(rest.len() > 0) by {
            if k == b.len() && k == t.len() {
                assert(t =~= b);
            }
        }
        assert forall|i: int| 0 <= i < rest.len() implies inner_comp(#[trigger] rest[i]) by {
            if i < parents_for(bs).len() {
                assert(parents_for(bs)[i] is Parent);
            } else {
                assert(rest[i] == t[k + i - parents_for(bs).len()]);
            }
        }
        lemma_push_all_not_dot(rest);
    }
}

} // verus!

verus! {

proof fn lemma_split_concat(x: Seq<char>, y: Seq<char>)
    ensures
        crate::text::split_char(x + seq!['/'] + y, '/') == crate::text::split_char(x, '/') + crate::text::split_char(y, '/'),
    decreases y.len(),
{
    let s = x + seq!['/'] + y;
    if y.len() == 0 {
        assert(s.drop_last() =~= x);
        assert(s == x + seq!['/']);
    } else {
        lemma_split_concat(x, y.drop_last());
        crate::text::lemma_split_char_nonempty(y.drop_last(), '/');
        crate::text::lemma_split_char_nonempty(x, '/');
        assert(s.drop_last() =~= x + seq!['/'] + y.drop_last());
        assert(s.last() == y.last());
        let sx = crate::text::split_char(x, '/');
        let sy0 = crate::text::split_char(y.drop_last(), '/');
        let rest = sx + sy0;
        if y.last() != '/' {
            assert(rest.update(rest.len() - 1, rest.last().push(y.last()))
                =~= sx + sy0.update(sy0.len() - 1, sy0.last().push(y.last())));
        } else {
            assert(rest.push(seq![]) =~= sx + sy0.push(seq![]));
        }
    }
}

proof fn lemma_split_no_sep(s: Seq<char>)
    requires
        forall|i: int| 0 <= i < s.len() ==> s[i] != '/',
    ensures
        crate::text::split_char(s, '/') == seq![s],
    decreases s.len(),
{
    if s.len() > 0 {
        lemma_split_no_sep(s.drop_last());
        assert(s.last() == s[s.len() - 1]);
        assert(s.drop_last().push(s.last()) =~= s);
        assert(seq![s.drop_last()].update(0, s.drop_last().push(s.last())) =~= seq![s]);
    } else {
        assert(s =~= Seq::<char>::empty());
    }
}

proof fn lemma_segment_comps_concat(p: Seq<Seq<char>>, q: Seq<Seq<char>>)
    ensures
        segment_comps(p + q) == segment_comps(p) + segment_comps(q),
    decreases q.len(),
{
    if q.len() == 0 {
        assert(p + q =~= p);
        assert(segment_comps(p) + segment_comps(q) =~= segment_comps(p));
    } else {
        lemma_segment_comps_concat(p, q.drop_last());
        assert((p + q).drop_last() =~= p + q.drop_last());
        assert((p + q).last() == q.last());
        let a = segment_comps(p);
        let b = segment_comps(q.drop_last());
        assert((a + b).push(PathCompView::Parent) =~= a + b.push(PathCompView::Parent));
        assert((a + b).push(PathCompView::Normal(q.last())) =~= a + b.push(PathCompView::Normal(q.last())));
    }
}

/// A component after the root as `segment_comps` makes them: `..`, or a name
/// that is not empty, not `.` or `..`, and holds no `/`.
pub open spec fn plain_comp(c: PathCompView) -> bool {
    match c {
        PathCompView::Parent => true,
        PathCompView::Normal(s) => s.len() > 0 && s != seq!['.'] && s != seq!['.', '.']
            && forall|i: int| 0 <= i < s.len() ==> s[i] != '/',
        _ => false,
    }
}

proof fn lemma_split_segments_no_sep(s: Seq<char>)
    ensures
        forall|j: int, i: int|
            0 <= j < crate::text::split_char(s, '/').len() && 0 <= i < crate::text::split_char(s, '/')[j].len()
                ==> #[trigger] crate::text::split_char(s, '/')[j][i] != '/',
    decreases s.len(),
{
    if s.len() > 0 {
        lemma_split_segments_no_sep(s.drop_last());
        crate::text::lemma_split_char_nonempty(s.drop_last(), '/');
        let rest = crate::text::split_char(s.drop_last(), '/');
        let r = crate::text::split_char(s, '/');
        assert forall|j: int, i: int| 0 <= j < r.len() && 0 <= i < r[j].len() implies #[trigger] r[j][i] != '/' by {
            if s.last() == '/' {
                if j < rest.len() {
                    assert(r[j] == rest[j]);
                }
            } else {
                if j < rest.len() - 1 {
                    assert(r[j] == rest[j]);
                } else {
                    assert(r[j] == rest.last().push(s.last()));
                    if i < rest.last().len() {
                        assert(r[j][i] == rest[rest.len() - 1][i]);
                    }
                }
            }
        }
    }
}

proof fn lemma_segment_comps_plain(segs: Seq<Seq<char>>)
    requires
        forall|j: int, i: int| 0 <= j < segs.len() && 0 <= i < segs[j].len() ==> #[trigger] segs[j][i] != '/',
    ensures
        forall|i: int| 0 <= i < segment_comps(segs).len() ==> plain_comp(#[trigger] segment_comps(segs)[i]),
    decreases segs.len(),
{
    if segs.len() > 0 {
        let d = segs.drop_last();
        assert forall|j: int, i: int| 0 <= j < d.len() && 0 <= i < d[j].len() implies #[trigger] d[j][i] != '/' by {
            assert(d[j] == segs[j]);
        }
        lemma_segment_comps_plain(d);
        let rest = segment_comps(d);
        let r = segment_comps(segs);
        let l = segs.last();
        assert forall|i: int| 0 <= i < l.len() implies l[i] != '/' by {
            assert(l == segs[segs.len() - 1]);
            assert(segs[segs.len() - 1][i] != '/');
        }
        assert forall|i: int| 0 <= i < r.len() implies plain_comp(#[trigger] r[i]) by {
            if i < rest.len() {
                assert(r[i] == rest[i]);
            }
        }
    }
}

/// The components of an absolute path after the root are plain.
proof fn lemma_absolute_components(p: Seq<char>)
    requires
        p.len() > 0 && p[0] == '/',
    ensures
        path_components(p) == seq![PathCompView::Root] + segment_comps(crate::text::split_char(p, '/').skip(1)),
        forall|i: int| 1 <= i < path_components(p).len() ==> plain_comp(#[trigger] path_components(p)[i]),
{
    let sp = crate::text::split_char(p, '/');
    lemma_split_segments_no_sep(p);
    crate::text::lemma_split_char_nonempty(p, '/');
    let segs = sp.skip(1);
    assert forall|j: int, i: int| 0 <= j < segs.len() && 0 <= i < segs[j].len() implies #[trigger] segs[j][i] != '/' by {
        assert(segs[j] == sp[j + 1]);
        assert(sp[j + 1][i] != '/');
    }
    lemma_segment_comps_plain(segs);
    let c = path_components(p);
    assert forall|i: int| 1 <= i < c.len() implies plain_comp(#[trigger] c[i]) by {
        assert(c[i] == segment_comps(segs)[i - 1]);
    }
}

/// Lexical normalization: `.` is dropped and `..` removes the name before it.
pub open spec fn normalize(cs: Seq<PathCompView>) -> Seq<PathCompView>
    decreases cs.len(),
{
    if cs.len() == 0 {
        seq![]
    } else {
        let n = normalize(cs.drop_last());
        let c = cs.last();
        if c is Parent && n.len() > 0 && n.last() is Normal {
            n.drop_last()
        } else if c is Cur {
            n
        } else {
            n.push(c)
        }
    }
}

proof fn lemma_comp_text_plain(c: PathCompView)
    requires
        plain_comp(c),
    ensures
        comp_text(c).len() > 0,
        forall|i: int| 0 <= i < comp_text(c).len() ==> comp_text(c)[i] != '/',
{
}

proof fn lemma_push_all_split(cs: Seq<PathCompView>)
    requires
        cs.len() > 0,
        forall|i: int| 0 <= i < cs.len() ==> plain_comp(#[trigger] cs[i]),
    ensures
        crate::text::split_char(push_all(seq![], cs), '/') == cs.map_values(|c: PathCompView| comp_text(c)),
        push_all(seq![], cs).len() > 0,
        push_all(seq![], cs)[0] != '/',
        push_all(seq![], cs).last() != '/',
    decreases cs.len(),
{
    let c = cs.last();
    assert(plain_comp(cs[cs.len() - 1]));
    lemma_comp_text_plain(c);
    let t = comp_text(c);
    lemma_split_no_sep(t);
    if cs.len() == 1 {
        assert(cs.drop_last() =~= Seq::<PathCompView>::empty());
        assert(push_all(seq![], cs) == t);
        assert(cs.map_values(|c: PathCompView| comp_text(c)) =~= seq![t]);
    } else {
        let d = cs.drop_last();
        assert forall|i: int| 0 <= i < d.len() implies plain_comp(#[trigger] d[i]) by {
            assert(d[i] == cs[i]);
        }
        lemma_push_all_split(d);
        let buf = push_all(seq![], d);
        assert(push_all(seq![], cs) == buf + seq!['/'] + t);
        lemma_split_concat(buf, t);
        assert(d.map_values(|c: PathCompView| comp_text(c)).push(t) =~= cs.map_values(|c: PathCompView| comp_text(c)));
        assert((buf + seq!['/'] + t)[0] == buf[0]);
        assert((buf + seq!['/'] + t).last() == t.last());
    }
}

proof fn lemma_segment_comps_texts(cs: Seq<PathCompView>)
    requires
        forall|i: int| 0 <= i < cs.len() ==> plain_comp(#[trigger] cs[i]),
    ensures
        segment_comps(cs.map_values(|c: PathCompView| comp_text(c))) == cs,
    decreases cs.len(),
{
    if cs.len() > 0 {
        let d = cs.drop_last();
        assert forall|i: int| 0 <= i < d.len() implies plain_comp(#[trigger] d[i]) by {
            assert(d[i] == cs[i]);
        }
        lemma_segment_comps_texts(d);
        let ts = cs.map_values(|c: PathCompView| comp_text(c));
        assert(ts.drop_last() =~= d.map_values(|c: PathCompView| comp_text(c)));
        assert(plain_comp(cs[cs.len() - 1]));
        assert(ts.last() == comp_text(cs.last()));
        assert(d.push(cs.last()) =~= cs);
    }
}

proof fn lemma_join_components(x: Seq<char>, y: Seq<char>)
    requires
        x.len() == 0 || x[0] == '/',
    ensures
        path_components(x + seq!['/'] + y) == seq![PathCompView::Root] + segment_comps(crate::text::split_char(x, '/').skip(1))
            + segment_comps(crate::text::split_char(y, '/')),
{
    let p = x + seq!['/'] + y;
    assert(p[0] == '/') by {
        if x.len() > 0 {
            assert(p[0] == x[0]);
        }
    }
    lemma_split_concat(x, y);
    crate::text::lemma_split_char_nonempty(x, '/');
    let sx = crate::text::split_char(x, '/');
    let sy = crate::text::split_char(y, '/');
    assert((sx + sy).skip(1) =~= sx.skip(1) + sy);
    lemma_segment_comps_concat(sx.skip(1), sy);
}

proof fn lemma_normalize_names(z: Seq<PathCompView>, ns: Seq<PathCompView>)
    requires
        forall|i: int| 0 <= i < ns.len() ==> (#[trigger] ns[i]) is Normal,
    ensures
        normalize(z + ns) == normalize(z) + ns,
    decreases ns.len(),
{
    if ns.len() == 0 {
        assert(z + ns =~= z);
        assert(normalize(z) + ns =~= normalize(z));
    } else {
        let d = ns.drop_last();
        assert forall|i: int| 0 <= i < d.len() implies (#[trigger] d[i]) is Normal by {
            assert(d[i] == ns[i]);
        }
        lemma_normalize_names(z, d);
        assert((z + ns).drop_last() =~= z + d);
        assert((z + ns).last() == ns.last());
        assert(ns[ns.len() - 1] is Normal);
        assert((normalize(z) + d).push(ns.last()) =~= normalize(z) + ns);
    }
}

proof fn lemma_normalize_rooted(ys: Seq<PathCompView>)
    requires
        forall|i: int| 0 <= i < ys.len() ==> (#[trigger] ys[i]) is Normal || ys[i] is Root,
    ensures
        normalize(ys) == ys,
    decreases ys.len(),
{
    if ys.len() > 0 {
        let d = ys.drop_last();
        assert forall|i: int| 0 <= i < d.len() implies (#[trigger] d[i]) is Normal || d[i] is Root by {
            assert(d[i] == ys[i]);
        }
        lemma_normalize_rooted(d);
        assert(ys[ys.len() - 1] is Normal || ys[ys.len() - 1] is Root);
        assert(d.push(ys.last()) =~= ys);
    }
}

/// `j` copies of `..`.
pub open spec fn parents(j: nat) -> Seq<PathCompView> {
    Seq::new(j, |i: int| PathCompView::Parent)
}

proof fn lemma_normalize_pops(y: Seq<PathCompView>, bs: Seq<PathCompView>, j: nat)
    requires
        forall|i: int| 0 <= i < bs.len() ==> (#[trigger] bs[i]) is Normal,
        j <= bs.len(),
    ensures
        normalize(y + bs + parents(j)) == normalize(y) + bs.take(bs.len() - j),
    decreases j,
{
    if j == 0 {
        lemma_normalize_names(y, bs);
        assert(y + bs + parents(0) =~= y + bs);
        assert(bs.take(bs.len() as int) =~= bs);
    } else {
        let j1 = (j - 1) as nat;
        lemma_normalize_pops(y, bs, j1);
        let s = y + bs + parents(j);
        assert(s.drop_last() =~= y + bs + parents(j1));
        assert(s.last() == PathCompView::Parent);
        let n = normalize(y) + bs.take(bs.len() - j1);
        assert(n.last() == bs[bs.len() - j1 - 1]);
        assert(n.drop_last() =~= normalize(y) + bs.take(bs.len() - j));
    }
}

/// Joining the relative path from `base` to `target` onto `base` leads back to
/// `target`: for absolute paths without `..` components, the components of
/// `base` joined with `relative_path(target, base)`, normalized (`.` dropped,
/// `..` removing the name before it), are those of `target`.
pub proof fn law_relative_path_joins_back(target: Seq<char>, base: Seq<char>)
    requires
        target.len() > 0 && target[0] == '/',
        base.len() > 0 && base[0] == '/',
        forall|i: int| 0 <= i < path_components(base).len() ==> !(#[trigger] path_components(base)[i] is Parent),
        forall|i: int| 0 <= i < path_components(target).len() ==> !(#[trigger] path_components(target)[i] is Parent),
    ensures
        normalize(path_components(std_path_join(base, relative_path(target, base)))) == path_components(target),
{
    let t = path_components(target);
    let b = path_components(base);
    lemma_absolute_components(target);
    lemma_absolute_components(base);
    assert(t[0] == PathCompView::Root && b[0] == PathCompView::Root);
    assert(common_prefix_len(t, b, 0) == common_prefix_len(t, b, 1));
    lemma_common_prefix_props(t, b, 1);
    let k = common_prefix_len(t, b, 0);
    let bs = b.skip(k);
    let ts = t.skip(k);
    assert forall|i: int| 0 <= i < bs.len() implies (#[trigger] bs[i]) is Normal by {
        assert(bs[i] == b[k + i]);
        assert(plain_comp(b[k + i]));
    }
    assert forall|i: int| 0 <= i < ts.len() implies (#[trigger] ts[i]) is Normal by {
        assert(ts[i] == t[k + i]);
        assert(plain_comp(t[k + i]));
    }
    lemma_parents_for_normal(bs);
    let m = bs.len();
    assert(parents_for(bs) =~= parents(m));
    let rest = parents(m) + ts;
    let r = push_all(seq![], rest);
    let rel = relative_path(target, base);
    assert(rel == if r.len() == 0 { seq!['.'] } else { r });
    // `base` is `x + "/" + tail`, where `tail` is empty when `base` ends in `/`.
    let x = if base.last() == '/' { base.drop_last() } else { base };
    let sb = segment_comps(crate::text::split_char(base, '/').skip(1));
    let sx = segment_comps(crate::text::split_char(x, '/').skip(1));
    assert(sx == sb) by {
        if base.last() == '/' {
            assert(base =~= x + seq!['/'] + Seq::<char>::empty());
            if x.len() > 0 {
                assert(x[0] == base[0]);
            }
            lemma_join_components(x, Seq::<char>::empty());
            assert(crate::text::split_char(Seq::<char>::empty(), '/') == seq![Seq::<char>::empty()]);
            reveal_with_fuel(segment_comps, 2);
            assert(segment_comps(seq![Seq::<char>::empty()]) =~= Seq::<PathCompView>::empty());
            assert(b == seq![PathCompView::Root] + sb);
            assert(seq![PathCompView::Root] + sx + Seq::<PathCompView>::empty() =~= seq![PathCompView::Root] + sx);
            assert(sx =~= (seq![PathCompView::Root] + sx).skip(1));
            assert(sb =~= (seq![PathCompView::Root] + sb).skip(1));
        }
    }
    assert(x.len() == 0 || x[0] == '/');
    assert(b == seq![PathCompView::Root] + sx);
    assert(b.take(k) + bs =~= b);
    assert(t.take(k) =~= b.take(k));
    assert(t.take(k) + ts =~= t);
    assert forall|i: int| 0 <= i < b.take(k).len() implies (#[trigger] b.take(k)[i]) is Normal || b.take(k)[i] is Root by {
        if i > 0 {
            assert(plain_comp(b[i]));
        }
    }
    lemma_normalize_rooted(b.take(k));
    if rest.len() == 0 {
        assert(bs.len() == 0 && ts.len() == 0);
        assert(t =~= b);
        let joined = std_path_join(base, seq!['.']);
        assert(joined == x + seq!['/'] + seq!['.']);
        lemma_join_components(x, seq!['.']);
        lemma_split_no_sep(seq!['.']);
        reveal_with_fuel(segment_comps, 2);
        assert(segment_comps(seq![seq!['.']]) =~= Seq::<PathCompView>::empty());
        assert(path_components(joined) =~= b);
        lemma_normalize_rooted(b);
    } else {
        assert forall|i: int| 0 <= i < rest.len() implies plain_comp(#[trigger] rest[i]) by {
            if i >= m {
                assert(rest[i] == t[k + i - m]);
                assert(plain_comp(t[k + i - m]));
            }
        }
        lemma_push_all_split(rest);
        let joined = std_path_join(base, r);
        assert(joined == x + seq!['/'] + r);
        lemma_join_components(x, r);
        lemma_segment_comps_texts(rest);
        assert(path_components(joined) =~= b.take(k) + bs + parents(m) + ts);
        lemma_normalize_names(b.take(k) + bs + parents(m), ts);
        lemma_normalize_pops(b.take(k), bs, m);
        assert(bs.take(0) =~= Seq::<PathCompView>::empty());
        assert(b.take(k) + Seq::<PathCompView>::empty() =~= b.take(k));
    }
}

} // verus!
