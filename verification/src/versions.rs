//! Semantic versions and version requirements (the `semver` crate), and the
//! npm requirement syntax that is rewritten into what `semver` reads.
use vstd::prelude::*;
use semver::{Version, VersionReq};
use std::cmp::Ordering;

verus! {

#[verifier::external_type_specification]
#[verifier::external_body]
pub struct ExVersion(Version);

#[verifier::external_type_specification]
#[verifier::external_body]
pub struct ExVersionReq(VersionReq);

/// Whether `Version::parse` accepts `text`.
pub uninterp spec fn semver_version_parses(text: Seq<char>) -> bool;

/// Whether `VersionReq::parse` accepts `text`.
pub uninterp spec fn semver_req_parses(text: Seq<char>) -> bool;

/// Whether the requirement parsed from `req` matches the version parsed from `ver`
/// (`VersionReq::matches`).
pub uninterp spec fn semver_matches(req: Seq<char>, ver: Seq<char>) -> bool;

/// Whether the version parsed from `a` orders before the one parsed from `b`
/// (`Ord` for `Version`: major, minor, patch, then pre-release and build).
pub uninterp spec fn semver_less(a: Seq<char>, b: Seq<char>) -> bool;

/// A parsed semantic version together with the text it was parsed from.
pub struct SemVersion {
    text: String,
    version: Version,
}

impl View for SemVersion {
    type V = Seq<char>;

    closed spec fn view(&self) -> Seq<char> {
        self.text@
    }
}

/// A parsed version requirement together with the text it was parsed from.
pub struct VersionConstraint {
    text: String,
    req: VersionReq,
}

impl View for VersionConstraint {
    type V = Seq<char>;

    closed spec fn view(&self) -> Seq<char> {
        self.text@
    }
}

/// `Version::parse`: `None` where the crate rejects the text. A version never
/// orders before itself (`Ord` is a total order).
#[verifier::external_body]
pub(crate) fn parse_semver(text: &str) -> (r: Option<SemVersion>)
    ensures
        r is Some <==> semver_version_parses(text@),
        r matches Some(v) ==> v@ == text@ && !semver_less(text@, text@),
{
    match Version::parse(text) {
        Ok(version) => Some(SemVersion { text: text.to_string(), version }),
        Err(_) => None,
    }
}

/// `VersionReq::parse`: `None` where the crate rejects the text.
#[verifier::external_body]
pub(crate) fn parse_semver_req(text: &str) -> (r: Option<VersionConstraint>)
    ensures
        r is Some <==> semver_req_parses(text@),
        r matches Some(c) ==> c@ == text@,
{
    match VersionReq::parse(text) {
        Ok(req) => Some(VersionConstraint { text: text.to_string(), req }),
        Err(_) => None,
    }
}

/// `VersionReq::matches`.
#[verifier::external_body]
pub(crate) fn constraint_matches(c: &VersionConstraint, v: &SemVersion) -> (r: bool)
    ensures
        r == semver_matches(c@, v@),
{
    c.req.matches(&v.version)
}

/// `Ord::cmp` on two versions. The order is total: `Less` and `Greater` are
/// each other's mirror, and it is transitive.
#[verifier::external_body]
pub(crate) fn semver_order(a: &SemVersion, b: &SemVersion) -> (r: Ordering)
    ensures
        (r == Ordering::Less) == semver_less(a@, b@),
        (r == Ordering::Greater) == semver_less(b@, a@),
        r == Ordering::Less ==> forall|c: Seq<char>|
            semver_version_parses(c) && #[trigger] semver_less(b@, c) ==> semver_less(a@, c),
        r == Ordering::Greater ==> forall|c: Seq<char>|
            semver_version_parses(c) && #[trigger] semver_less(a@, c) ==> semver_less(b@, c),
{
    a.version.cmp(&b.version)
}

} // verus!

verus! {

/// Whether `a` orders after `b`; what orders after `a` then orders after `b`.
pub fn version_greater(a: &SemVersion, b: &SemVersion) -> (r: bool)
    ensures
        r == semver_less(b@, a@),
        r ==> forall|c: Seq<char>|
            semver_version_parses(c) && #[trigger] semver_less(a@, c) ==> semver_less(b@, c),
{
    match semver_order(a, b) {
        Ordering::Greater => true,
        _ => false,
    }
}

} // verus!

verus! {

/// Lexicographic order of two character sequences: the order of `str`, whose
/// UTF-8 bytes order as the characters' scalar values do.
pub open spec fn lex_less(a: Seq<char>, b: Seq<char>) -> bool
    decreases a.len(),
{
    if a.len() == 0 {
        b.len() > 0
    } else if b.len() == 0 {
        false
    } else if a[0] != b[0] {
        a[0] < b[0]
    } else {
        lex_less(a.skip(1), b.skip(1))
    }
}

/// The string order is asymmetric.
pub proof fn lemma_lex_less_asymmetric(a: Seq<char>, b: Seq<char>)
    ensures
        lex_less(a, b) ==> !lex_less(b, a),
    decreases a.len(),
{
    if a.len() > 0 && b.len() > 0 && a[0] == b[0] {
        lemma_lex_less_asymmetric(a.skip(1), b.skip(1));
    }
}

/// Whether `x` orders before `y` as strings.
pub fn str_less_chars(x: &Vec<char>, y: &Vec<char>) -> (r: bool)
    ensures
        r == lex_less(x@, y@),
{
    let mut i: usize = 0;
    assert(x@.skip(0) =~= x@);
    assert(y@.skip(0) =~= y@);
    while i < x.len() && i < y.len() && x[i] == y[i]
        invariant
            i <= x@.len(),
            i <= y@.len(),
            lex_less(x@, y@) == lex_less(x@.skip(i as int), y@.skip(i as int)),
        decreases x@.len() - i,
    {
        proof {
            let xs = x@.skip(i as int);
            let ys = y@.skip(i as int);
            assert(xs.skip(1) =~= x@.skip(i + 1));
            assert(ys.skip(1) =~= y@.skip(i + 1));
        }
        i = i + 1;
    }
    proof {
        let xs = x@.skip(i as int);
        let ys = y@.skip(i as int);
        if i < x@.len() && i < y@.len() {
            assert(xs[0] == x@[i as int]);
            assert(ys[0] == y@[i as int]);
        }
    }
    if i == x.len() {
        i < y.len()
    } else if i == y.len() {
        false
    } else {
        x[i] < y[i]
    }
}

/// Whether `a` orders before `b` as strings.
pub fn str_less(a: &str, b: &str) -> (r: bool)
    ensures
        r == lex_less(a@, b@),
{
    let x = crate::text::chars_of(a);
    let y = crate::text::chars_of(b);
    str_less_chars(&x, &y)
}

/// The order `compare_versions` uses: semantic-version order when both parse,
/// string order otherwise.
pub open spec fn version_text_less(a: Seq<char>, b: Seq<char>) -> bool {
    if semver_version_parses(a) && semver_version_parses(b) {
        semver_less(a, b)
    } else {
        lex_less(a, b)
    }
}

/// Compare two version strings: by semantic version when both parse, else as
/// strings.
pub fn compare_versions(a: &str, b: &str) -> (r: Ordering)
    ensures
        (r == Ordering::Less) == version_text_less(a@, b@),
        (r == Ordering::Greater) == version_text_less(b@, a@),
{
    match (parse_semver(a), parse_semver(b)) {
        (Some(va), Some(vb)) => semver_order(&va, &vb),
        _ => {
            proof {
                lemma_lex_less_asymmetric(a@, b@);
            }
            if str_less(a, b) {
                Ordering::Less
            } else if str_less(b, a) {
                Ordering::Greater
            } else {
                Ordering::Equal
            }
        },
    }
}

} // verus!

verus! {

/// `s` with every leading `c` removed (`str::trim_start_matches(c)`).
pub open spec fn strip_leading(s: Seq<char>, c: char) -> Seq<char>
    decreases s.len(),
{
    if s.len() > 0 && s[0] == c {
        strip_leading(s.skip(1), c)
    } else {
        s
    }
}

pub open spec fn is_digit(c: char) -> bool {
    '0' <= c && c <= '9'
}

/// The requirement text after the npm clean-up: surrounding whitespace, then a
/// leading `v` and `=` run are dropped; `.x`, `.X` and `.*` are removed; of an
/// `||` alternative only the first branch (trimmed) is kept.
pub open spec fn cleaned_constraint(c: Seq<char>) -> Seq<char> {
    let t = strip_leading(strip_leading(crate::text::trim(c), 'v'), '=');
    let u = crate::text::replace_all(
        crate::text::replace_all(
            crate::text::replace_all(t, seq!['.', 'x'], seq![]),
            seq!['.', 'X'],
            seq![],
        ),
        seq!['.', '*'],
        seq![],
    );
    match crate::text::find_from(u, seq!['|', '|'], 0) {
        Some(p) => crate::text::trim(u.take(p)),
        None => u,
    }
}

/// The `semver` text for an npm hyphen range `lower - upper` (exactly one
/// ` - `, both sides starting with a digit): `>=lower, <=upper`.
pub open spec fn hyphen_range_text(s: Seq<char>) -> Option<Seq<char>> {
    let sep = seq![' ', '-', ' '];
    match crate::text::find_from(s, sep, 0) {
        None => None,
        Some(p) => {
            let lower = crate::text::trim(s.take(p));
            let upper = crate::text::trim(s.skip(p + 3));
            if crate::text::find_from(s, sep, p + 3) is Some {
                None
            } else if lower.len() > 0 && upper.len() > 0 && is_digit(lower[0]) && is_digit(upper[0]) {
                Some(seq!['>', '='] + lower + seq![',', ' ', '<', '='] + upper)
            } else {
                None
            }
        },
    }
}

/// The maximal runs of non-whitespace characters (`str::split_whitespace`).
pub open spec fn words(s: Seq<char>) -> Seq<Seq<char>>
    decreases s.len(),
{
    if s.len() == 0 {
        seq![]
    } else {
        let rest = words(s.drop_last());
        let c = s.last();
        if crate::text::is_ws(c) {
            rest
        } else if s.len() >= 2 && !crate::text::is_ws(s[s.len() - 2]) {
            rest.update(rest.len() - 1, rest.last().push(c))
        } else {
            rest.push(seq![c])
        }
    }
}

/// One word of a space-separated range as a `semver` comparator: kept when it
/// starts with an operator, `=` put before a bare version, `None` otherwise.
pub open spec fn space_part(w: Seq<char>) -> Option<Seq<char>> {
    if crate::text::starts_with(w, seq!['>', '=']) || crate::text::starts_with(w, seq!['<', '='])
        || crate::text::starts_with(w, seq!['>']) || crate::text::starts_with(w, seq!['<'])
        || crate::text::starts_with(w, seq!['^']) || crate::text::starts_with(w, seq!['~']) {
        Some(w)
    } else if w.len() > 0 && is_digit(w[0]) {
        Some(seq!['='] + w)
    } else {
        None
    }
}

/// The `semver` text for a space-separated npm range of at least two words,
/// each a comparator: the comparators joined with `, `.
pub open spec fn space_range_text(s: Seq<char>) -> Option<Seq<char>> {
    let ws = words(s);
    if ws.len() < 2 || exists|i: int| 0 <= i < ws.len() && (#[trigger] space_part(ws[i])) is None {
        None
    } else {
        Some(crate::text::join(Seq::new(ws.len(), |i: int| space_part(ws[i])->0), seq![',', ' ']))
    }
}

/// The text whose `semver` parse `parse_version_req` returns: the hyphen form
/// if it parses, else the space-separated form if it parses, else the cleaned
/// text if it parses.
pub open spec fn version_req_source(c: Seq<char>) -> Option<Seq<char>> {
    let cl = cleaned_constraint(c);
    let h = hyphen_range_text(cl);
    let sp = space_range_text(cl);
    if h is Some && semver_req_parses(h->0) {
        h
    } else if sp is Some && semver_req_parses(sp->0) {
        sp
    } else if semver_req_parses(cl) {
        Some(cl)
    } else {
        None
    }
}

proof fn lemma_strip_leading_skip(s: Seq<char>, c: char, i: int)
    requires
        0 <= i <= s.len(),
        forall|j: int| 0 <= j < i ==> s[j] == c,
    ensures
        strip_leading(s, c) == strip_leading(s.skip(i), c),
    decreases i,
{
    if i > 0 {
        assert(s.skip(1).skip(i - 1) =~= s.skip(i));
        lemma_strip_leading_skip(s.skip(1), c, i - 1);
    } else {
        assert(s.skip(0) =~= s);
    }
}

fn strip_leading_exec(s: &Vec<char>, c: char) -> (r: Vec<char>)
    ensures
        r@ == strip_leading(s@, c),
{
    let mut i: usize = 0;
    while i < s.len() && s[i] == c
        invariant
            i <= s@.len(),
            forall|j: int| 0 <= j < i ==> s@[j] == c,
        decreases s@.len() - i,
    {
        i = i + 1;
    }
    proof {
        lemma_strip_leading_skip(s@, c, i as int);
        assert(s@.subrange(i as int, s@.len() as int) =~= s@.skip(i as int));
    }
    crate::text::sub_chars(s, i, s.len())
}

fn clean_constraint(c: &str) -> (r: Vec<char>)
    ensures
        r@ == cleaned_constraint(c@),
{
    let cs = crate::text::chars_of(c);
    let t0 = crate::text::trim_exec(cs.as_slice());
    let t1 = strip_leading_exec(&t0, 'v');
    let t = strip_leading_exec(&t1, '=');
    let px = vec!['.', 'x'];
    let pu = vec!['.', 'X'];
    let ps = vec!['.', '*'];
    let none: Vec<char> = Vec::new();
    let u1 = crate::text::replace_all_exec(t.as_slice(), px.as_slice(), none.as_slice());
    let u2 = crate::text::replace_all_exec(u1.as_slice(), pu.as_slice(), none.as_slice());
    let u = crate::text::replace_all_exec(u2.as_slice(), ps.as_slice(), none.as_slice());
    assert(px@ =~= seq!['.', 'x']);
    assert(pu@ =~= seq!['.', 'X']);
    assert(ps@ =~= seq!['.', '*']);
    assert(none@ =~= Seq::<char>::empty());
    let bars = vec!['|', '|'];
    assert(bars@ =~= seq!['|', '|']);
    match crate::text::find_from_exec(u.as_slice(), bars.as_slice(), 0) {
        Some(p) => {
            proof {
                crate::text::lemma_find_from_some(u@, bars@, 0);
            }
            let head = crate::text::sub_chars(&u, 0, p);
            assert(head@ =~= u@.take(p as int));
            crate::text::trim_exec(head.as_slice())
        },
        None => u,
    }
}

/// Parse npm hyphen range: "1.2.3 - 2.3.4" -> ">=1.2.3, <=2.3.4".
pub fn parse_hyphen_range(constraint: &str) -> (r: Option<VersionConstraint>)
    ensures
        r is Some <==> (hyphen_range_text(constraint@) is Some
            && semver_req_parses(hyphen_range_text(constraint@)->0)),
        r matches Some(c) ==> hyphen_range_text(constraint@) == Some(c@),
{
    let cs = crate::text::chars_of(constraint);
    let sep = vec![' ', '-', ' '];
    assert(sep@ =~= seq![' ', '-', ' ']);
    let p = match crate::text::find_from_exec(cs.as_slice(), sep.as_slice(), 0) {
        Some(p) => p,
        None => {
            return None;
        },
    };
    proof {
        crate::text::lemma_find_from_some(cs@, sep@, 0);
    }
    if crate::text::find_from_exec(cs.as_slice(), sep.as_slice(), p + 3).is_some() {
        return None;
    }
    let head = crate::text::sub_chars(&cs, 0, p);
    let tail = crate::text::sub_chars(&cs, p + 3, cs.len());
    assert(head@ =~= cs@.take(p as int));
    assert(tail@ =~= cs@.skip(p + 3));
    let lower = crate::text::trim_exec(head.as_slice());
    let upper = crate::text::trim_exec(tail.as_slice());
    if lower.len() > 0 && upper.len() > 0 && '0' <= lower[0] && lower[0] <= '9' && '0' <= upper[0]
        && upper[0] <= '9' {
        let mut t: Vec<char> = vec!['>', '='];
        t.extend_from_slice(lower.as_slice());
        t.push(',');
        t.push(' ');
        t.push('<');
        t.push('=');
        t.extend_from_slice(upper.as_slice());
        assert(t@ =~= seq!['>', '='] + lower@ + seq![',', ' ', '<', '='] + upper@);
        let text = crate::text::string_of(&t);
        parse_semver_req(text.as_str())
    } else {
        None
    }
}

} // verus!

verus! {

/// The words of `s` (see `words`).
pub fn words_exec(s: &Vec<char>) -> (r: Vec<Vec<char>>)
    ensures
        crate::text::vec_views(r@) == words(s@),
{
    let mut done: Vec<Vec<char>> = Vec::new();
    let mut cur: Vec<char> = Vec::new();
    let mut i: usize = 0;
    assert(s@.take(0) =~= Seq::<char>::empty());
    while i < s.len()
        invariant
            i <= s@.len(),
            words(s@.take(i as int)) == if cur@.len() > 0 {
                crate::text::vec_views(done@).push(cur@)
            } else {
                crate::text::vec_views(done@)
            },
            (cur@.len() > 0) == (i > 0 && !crate::text::is_ws(s@[i - 1])),
        decreases s@.len() - i,
    {
        let c = s[i];
        let ghost pre = s@.take(i + 1);
        assert(pre.drop_last() =~= s@.take(i as int));
        assert(pre.last() == c);
        if i > 0 {
            assert(pre[i - 1] == s@[i - 1]);
        }
        let ghost old_done = crate::text::vec_views(done@);
        let ghost old_cur = cur@;
        if crate::text::is_ws_exec(c) {
            if cur.len() > 0 {
                let w = cur;
                cur = Vec::new();
                done.push(w);
                assert(crate::text::vec_views(done@) =~= old_done.push(old_cur));
            }
        } else {
            let had = cur.len() > 0;
            cur.push(c);
            assert(crate::text::vec_views(done@) == old_done);
            proof {
                if had {
                    assert(old_done.push(old_cur).update(old_done.len() as int, old_cur.push(c))
                        =~= old_done.push(cur@));
                } else {
                    assert(cur@ =~= seq![c]);
                }
            }
        }
        i = i + 1;
    }
    assert(s@.take(s@.len() as int) =~= s@);
    if cur.len() > 0 {
        let ghost old_done = crate::text::vec_views(done@);
        let ghost old_cur = cur@;
        done.push(cur);
        assert(crate::text::vec_views(done@) =~= old_done.push(old_cur));
    }
    done
}

fn space_part_exec(w: &Vec<char>) -> (r: Option<String>)
    ensures
        match r {
            Some(t) => space_part(w@) == Some(t@),
            None => space_part(w@) is None,
        },
{
    let ge = vec!['>', '='];
    let le = vec!['<', '='];
    let gt = vec!['>'];
    let lt = vec!['<'];
    let caret = vec!['^'];
    let tilde = vec!['~'];
    assert(ge@ =~= seq!['>', '=']);
    assert(le@ =~= seq!['<', '=']);
    assert(gt@ =~= seq!['>']);
    assert(lt@ =~= seq!['<']);
    assert(caret@ =~= seq!['^']);
    assert(tilde@ =~= seq!['~']);
    let ws = w.as_slice();
    if crate::text::starts_with_exec(ws, ge.as_slice()) || crate::text::starts_with_exec(ws, le.as_slice())
        || crate::text::starts_with_exec(ws, gt.as_slice()) || crate::text::starts_with_exec(ws, lt.as_slice())
        || crate::text::starts_with_exec(ws, caret.as_slice()) || crate::text::starts_with_exec(
        ws,
        tilde.as_slice(),
    ) {
        Some(crate::text::string_of(w))
    } else if w.len() > 0 && '0' <= w[0] && w[0] <= '9' {
        let mut t: Vec<char> = vec!['='];
        t.extend_from_slice(ws);
        assert(t@ =~= seq!['='] + w@);
        Some(crate::text::string_of(&t))
    } else {
        None
    }
}

/// Parse space-separated constraints: ">=1.0.0 <2.0.0" -> ">=1.0.0, <2.0.0".
pub fn parse_space_separated_range(constraint: &str) -> (r: Option<VersionConstraint>)
    ensures
        r is Some <==> (space_range_text(constraint@) is Some
            && semver_req_parses(space_range_text(constraint@)->0)),
        r matches Some(c) ==> space_range_text(constraint@) == Some(c@),
{
    let cs = crate::text::chars_of(constraint);
    let ws = words_exec(&cs);
    let ghost wv = crate::text::vec_views(ws@);
    assert(wv.len() == ws@.len());
    if ws.len() < 2 {
        return None;
    }
    let mut parts: Vec<String> = Vec::new();
    let mut i: usize = 0;
    while i < ws.len()
        invariant
            i <= ws@.len(),
            wv == crate::text::vec_views(ws@),
            wv == words(cs@),
            cs@ == constraint@,
            forall|j: int| 0 <= j < i ==> (#[trigger] space_part(wv[j])) is Some,
            crate::text::string_views(parts@) =~= Seq::new(i as nat, |j: int| space_part(wv[j])->0),
        decreases ws@.len() - i,
    {
        assert(wv[i as int] == ws@[i as int]@);
        match space_part_exec(&ws[i]) {
            Some(t) => {
                let ghost old_views = crate::text::string_views(parts@);
                let ghost tv = t@;
                parts.push(t);
                assert(crate::text::string_views(parts@) =~= old_views.push(tv));
                assert(crate::text::string_views(parts@) =~= Seq::new(
                    (i + 1) as nat,
                    |j: int| space_part(wv[j])->0,
                ));
            },
            None => {
                assert(space_part(wv[i as int]) is None);
                assert(cs@ == constraint@);
                assert(exists|j: int| 0 <= j < wv.len() && (#[trigger] space_part(wv[j])) is None);
                return None;
            },
        }
        i = i + 1;
    }
    proof {
        assert(!(exists|j: int| 0 <= j < wv.len() && (#[trigger] space_part(wv[j])) is None));
    }
    let joined = crate::text::join_exec(&parts, ", ");
    proof {
        reveal_strlit(", ");
        assert(", "@ =~= seq![',', ' ']);
    }
    parse_semver_req(joined.as_str())
}

/// Parse version requirement, handling npm-specific formats: the cleaned text
/// as a hyphen range, as a space-separated range, or as it stands, whichever
/// `semver` accepts first.
pub fn parse_version_req(constraint: &str) -> (r: Option<VersionConstraint>)
    ensures
        r is Some <==> version_req_source(constraint@) is Some,
        r matches Some(c) ==> version_req_source(constraint@) == Some(c@),
{
    let cleaned_chars = clean_constraint(constraint);
    let cleaned = crate::text::string_of(&cleaned_chars);
    if let Some(r) = parse_hyphen_range(cleaned.as_str()) {
        return Some(r);
    }
    if let Some(r) = parse_space_separated_range(cleaned.as_str()) {
        return Some(r);
    }
    parse_semver_req(cleaned.as_str())
}

} // verus!

verus! {

/// A hyphen range `lo - hi` is inclusive at both ends: between two version
/// texts (starting with a digit, without whitespace) it reads as the
/// requirement `>=lo, <=hi`, which `hi` itself meets as well as `lo`.
pub proof fn law_hyphen_range_inclusive(lo: Seq<char>, hi: Seq<char>)
    requires
        lo.len() > 0,
        hi.len() > 0,
        is_digit(lo[0]),
        is_digit(hi[0]),
        forall|i: int| 0 <= i < lo.len() ==> !crate::text::is_ws(#[trigger] lo[i]),
        forall|i: int| 0 <= i < hi.len() ==> !crate::text::is_ws(#[trigger] hi[i]),
    ensures
        hyphen_range_text(lo + seq![' ', '-', ' '] + hi) == Some(
            seq!['>', '='] + lo + seq![',', ' '] + seq!['<', '='] + hi,
        ),
{
    let sep = seq![' ', '-', ' '];
    let s = lo + sep + hi;
    let p = lo.len() as int;
    assert(s.subrange(p, p + 3) =~= sep);
    assert forall|j: int| 0 <= j < p implies !crate::text::occurs_at(s, sep, j) by {
        if crate::text::occurs_at(s, sep, j) {
            assert(s.subrange(j, j + 3)[0] == s[j]);
            assert(s[j] == lo[j]);
        }
    }
    crate::text::lemma_find_from_at(s, sep, 0, p);
    assert forall|j: int| p + 3 <= j implies !crate::text::occurs_at(s, sep, j) by {
        if crate::text::occurs_at(s, sep, j) {
            assert(s.subrange(j, j + 3)[0] == s[j]);
            assert(s[j] == hi[j - p - 3]);
        }
    }
    crate::text::lemma_find_from_none(s, sep, p + 3);
    assert(s.take(p) =~= lo);
    assert(s.skip(p + 3) =~= hi);
    crate::text::lemma_trim_unchanged(lo);
    crate::text::lemma_trim_unchanged(hi);
    assert(seq!['>', '='] + lo + seq![',', ' ', '<', '='] + hi =~= seq!['>', '='] + lo + seq![',', ' '] + seq!['<', '='] + hi);
}

} // verus!
