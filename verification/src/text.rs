//! Character-sequence helpers shared by the rest of the library.
use vstd::prelude::*;

verus! {

/// Appends one character to a `String` (std's `String::push`).
#[verifier::external_body]
pub(crate) fn push_char(s: &mut String, c: char)
    ensures
        final(s)@ == old(s)@.push(c),
{
    s.push(c);
}

/// The characters of a string slice, in order.
pub fn chars_of(s: &str) -> (v: Vec<char>)
    ensures
        v@ == s@,
{
    let mut v: Vec<char> = Vec::new();
    for c in it: s.chars()
        invariant
            v@ == it.seq().take(it.index()),
            it.seq() == s@,
    {
        v.push(c);
    }
    v
}

/// A `String` holding the given characters.
pub fn string_of(v: &Vec<char>) -> (s: String)
    ensures
        s@ == v@,
{
    let mut s = String::new();
    let mut i: usize = 0;
    while i < v.len()
        invariant
            i <= v.len(),
            s@ == v@.take(i as int),
        decreases v.len() - i,
    {
        push_char(&mut s, v[i]);
        i = i + 1;
        assert(s@ =~= v@.take(i as int));
    }
    assert(v@.take(v.len() as int) =~= v@);
    s
}

} // verus!

verus! {

/// `p` occurs in `s` at position `i`.
pub open spec fn occurs_at(s: Seq<char>, p: Seq<char>, i: int) -> bool {
    0 <= i && i + p.len() <= s.len() && s.subrange(i, i + p.len()) == p
}

pub open spec fn starts_with(s: Seq<char>, p: Seq<char>) -> bool {
    occurs_at(s, p, 0)
}

pub open spec fn ends_with(s: Seq<char>, p: Seq<char>) -> bool {
    occurs_at(s, p, s.len() - p.len())
}

pub open spec fn contains_seq(s: Seq<char>, p: Seq<char>) -> bool {
    exists|i: int| occurs_at(s, p, i)
}

/// Index of the first occurrence of `p` in `s` at or after `from`, if any.
pub open spec fn find_from(s: Seq<char>, p: Seq<char>, from: int) -> Option<int>
    decreases s.len() + 1 - from,
{
    if from < 0 || from + p.len() > s.len() {
        None
    } else if occurs_at(s, p, from) {
        Some(from)
    } else {
        find_from(s, p, from + 1)
    }
}

/// Every non-overlapping occurrence of `p`, scanning left to right, replaced by `r`
/// (what `str::replace` does for a non-empty pattern).
pub open spec fn replace_all(s: Seq<char>, p: Seq<char>, r: Seq<char>) -> Seq<char>
    decreases s.len(),
{
    if p.len() == 0 || s.len() < p.len() {
        s
    } else if starts_with(s, p) {
        r + replace_all(s.skip(p.len() as int), p, r)
    } else {
        seq![s[0]] + replace_all(s.skip(1), p, r)
    }
}

/// The characters that `char::is_whitespace` accepts (Unicode White_Space).
pub open spec fn is_ws(c: char) -> bool {
    ||| ('\u{9}' <= c && c <= '\u{d}')
    ||| c == ' '
    ||| c == '\u{85}'
    ||| c == '\u{a0}'
    ||| c == '\u{1680}'
    ||| ('\u{2000}' <= c && c <= '\u{200a}')
    ||| c == '\u{2028}'
    ||| c == '\u{2029}'
    ||| c == '\u{202f}'
    ||| c == '\u{205f}'
    ||| c == '\u{3000}'
}

pub open spec fn trim_start(s: Seq<char>) -> Seq<char>
    decreases s.len(),
{
    if s.len() > 0 && is_ws(s[0]) {
        trim_start(s.skip(1))
    } else {
        s
    }
}

pub open spec fn trim_end(s: Seq<char>) -> Seq<char>
    decreases s.len(),
{
    if s.len() > 0 && is_ws(s.last()) {
        trim_end(s.drop_last())
    } else {
        s
    }
}

/// What `str::trim` leaves of `s`.
pub open spec fn trim(s: Seq<char>) -> Seq<char> {
    trim_end(trim_start(s))
}

/// The pieces of `s` between occurrences of `c` (what `str::split(c)` yields).
pub open spec fn split_char(s: Seq<char>, c: char) -> Seq<Seq<char>>
    decreases s.len(),
{
    if s.len() == 0 {
        seq![seq![]]
    } else {
        let rest = split_char(s.drop_last(), c);
        if s.last() == c {
            rest.push(seq![])
        } else {
            rest.update(rest.len() - 1, rest.last().push(s.last()))
        }
    }
}

/// Joins `parts` with `sep` between consecutive parts.
pub open spec fn join(parts: Seq<Seq<char>>, sep: Seq<char>) -> Seq<char>
    decreases parts.len(),
{
    if parts.len() == 0 {
        seq![]
    } else if parts.len() == 1 {
        parts[0]
    } else {
        join(parts.drop_last(), sep) + sep + parts.last()
    }
}

pub proof fn lemma_split_char_nonempty(s: Seq<char>, c: char)
    ensures
        split_char(s, c).len() >= 1,
    decreases s.len(),
{
    if s.len() > 0 {
        lemma_split_char_nonempty(s.drop_last(), c);
    }
}

/// The characters of `v` from `a` up to `b`.
pub fn sub_chars(v: &Vec<char>, a: usize, b: usize) -> (r: Vec<char>)
    requires
        a <= b <= v@.len(),
    ensures
        r@ == v@.subrange(a as int, b as int),
{
    let mut r: Vec<char> = Vec::new();
    let mut i = a;
    while i < b
        invariant
            a <= i <= b <= v@.len(),
            r@ == v@.subrange(a as int, i as int),
        decreases b - i,
    {
        r.push(v[i]);
        i = i + 1;
        assert(r@ =~= v@.subrange(a as int, i as int));
    }
    r
}

/// Whether `p` occurs in `s` at position `i`.
pub fn occurs_at_exec(s: &[char], p: &[char], i: usize) -> (b: bool)
    ensures
        b == occurs_at(s@, p@, i as int),
{
    if i > s.len() || p.len() > s.len() - i {
        return false;
    }
    let mut k: usize = 0;
    while k < p.len()
        invariant
            i + p.len() <= s.len(),
            k <= p.len(),
            forall|j: int| 0 <= j < k ==> s@[i + j] == p@[j],
        decreases p.len() - k,
    {
        if s[i + k] != p[k] {
            assert(s@.subrange(i as int, i + p.len())[k as int] != p@[k as int]);
            return false;
        }
        k = k + 1;
    }
    assert(s@.subrange(i as int, i + p.len()) =~= p@);
    true
}

pub fn starts_with_exec(s: &[char], p: &[char]) -> (b: bool)
    ensures
        b == starts_with(s@, p@),
{
    occurs_at_exec(s, p, 0)
}

pub fn ends_with_exec(s: &[char], p: &[char]) -> (b: bool)
    ensures
        b == ends_with(s@, p@),
{
    if p.len() > s.len() {
        false
    } else {
        occurs_at_exec(s, p, s.len() - p.len())
    }
}

/// First occurrence of `p` in `s` at or after `from`.
pub fn find_from_exec(s: &[char], p: &[char], from: usize) -> (r: Option<usize>)
    ensures
        r matches Some(i) ==> find_from(s@, p@, from as int) == Some(i as int),
        r is None ==> find_from(s@, p@, from as int) is None,
{
    let mut i = from;
    while i <= s.len()
        invariant
            from <= i,
            find_from(s@, p@, from as int) == find_from(s@, p@, i as int),
        decreases s.len() + 1 - i,
    {
        if p.len() > s.len() - i {
            return None;
        }
        proof {
            if i == s.len() {
                assert(s@.subrange(i as int, i as int) =~= p@);
            }
        }
        if occurs_at_exec(s, p, i) {
            return Some(i);
        }
        i = i + 1;
    }
    None
}

pub proof fn lemma_find_from_some(s: Seq<char>, p: Seq<char>, from: int)
    requires
        0 <= from,
    ensures
        find_from(s, p, from) matches Some(i) ==> from <= i && occurs_at(s, p, i)
            && forall|j: int| from <= j < i ==> !occurs_at(s, p, j),
        find_from(s, p, from) is None ==> forall|j: int| j >= from ==> !occurs_at(s, p, j),
    decreases s.len() + 1 - from,
{
    if from < 0 || from + p.len() > s.len() {
    } else if occurs_at(s, p, from) {
    } else {
        lemma_find_from_some(s, p, from + 1);
    }
}

/// `s` with every occurrence of `p` replaced by `r`.
pub fn replace_all_exec(s: &[char], p: &[char], r: &[char]) -> (out: Vec<char>)
    requires
        p@.len() > 0,
    ensures
        out@ == replace_all(s@, p@, r@),
{
    let mut out: Vec<char> = Vec::new();
    let mut i: usize = 0;
    assert(s@.skip(0) =~= s@);
    while i < s.len()
        invariant
            i <= s.len(),
            p@.len() > 0,
            out@ + replace_all(s@.skip(i as int), p@, r@) == replace_all(s@, p@, r@),
        decreases s.len() - i,
    {
        let ghost rest = s@.skip(i as int);
        if occurs_at_exec(s, p, i) {
            assert(rest.subrange(0, p@.len() as int) =~= s@.subrange(i as int, i + p@.len()));
            assert(rest.skip(p@.len() as int) =~= s@.skip(i + p@.len()));
            out.extend_from_slice(r);
            i = i + p.len();
        } else {
            proof {
                if p@.len() <= rest.len() {
                    assert(rest.subrange(0, p@.len() as int) =~= s@.subrange(i as int, i + p@.len()));
                }
            }
            assert(rest.skip(1) =~= s@.skip(i + 1));
            out.push(s[i]);
            i = i + 1;
        }
        assert(out@ + replace_all(s@.skip(i as int), p@, r@) =~= replace_all(s@, p@, r@));
    }
    assert(s@.skip(i as int) =~= seq![]);
    assert(out@ + replace_all(s@.skip(i as int), p@, r@) =~= out@);
    out
}

pub fn is_ws_exec(c: char) -> (b: bool)
    ensures
        b == is_ws(c),
{
    ('\u{9}' <= c && c <= '\u{d}') || c == ' ' || c == '\u{85}' || c == '\u{a0}'
        || c == '\u{1680}' || ('\u{2000}' <= c && c <= '\u{200a}') || c == '\u{2028}'
        || c == '\u{2029}' || c == '\u{202f}' || c == '\u{205f}' || c == '\u{3000}'
}

pub proof fn lemma_trim_start_skip(s: Seq<char>, i: int)
    requires
        0 <= i <= s.len(),
        forall|j: int| 0 <= j < i ==> is_ws(s[j]),
    ensures
        trim_start(s) == trim_start(s.skip(i)),
    decreases i,
{
    if i > 0 {
        assert(s.skip(1).skip(i - 1) =~= s.skip(i));
        lemma_trim_start_skip(s.skip(1), i - 1);
    } else {
        assert(s.skip(0) =~= s);
    }
}

pub proof fn lemma_trim_end_take(s: Seq<char>, i: int)
    requires
        0 <= i <= s.len(),
        forall|j: int| i <= j < s.len() ==> is_ws(s[j]),
    ensures
        trim_end(s) == trim_end(s.take(i)),
    decreases s.len() - i,
{
    if i < s.len() {
        assert(s.drop_last().take(i) =~= s.take(i));
        lemma_trim_end_take(s.drop_last(), i);
    } else {
        assert(s.take(i) =~= s);
    }
}

/// `s` without leading and trailing whitespace.
pub fn trim_exec(s: &[char]) -> (out: Vec<char>)
    ensures
        out@ == trim(s@),
{
    let mut a: usize = 0;
    while a < s.len() && is_ws_exec(s[a])
        invariant
            a <= s.len(),
            forall|j: int| 0 <= j < a ==> is_ws(s@[j]),
        decreases s.len() - a,
    {
        a = a + 1;
    }
    proof {
        lemma_trim_start_skip(s@, a as int);
    }
    let mut b: usize = s.len();
    while b > a && is_ws_exec(s[b - 1])
        invariant
            a <= b <= s.len(),
            forall|j: int| b <= j < s.len() ==> is_ws(s@[j]),
        decreases b,
    {
        b = b - 1;
    }
    let ghost t = s@.skip(a as int);
    proof {
        assert(!(a < s.len() && is_ws(s@[a as int])));
        assert(t.len() == 0 || !is_ws(t[0]));
        assert(trim_start(t) == t);
        assert forall|j: int| (b - a) <= j < t.len() implies is_ws(t[j]) by {
            assert(t[j] == s@[a + j]);
        }
        lemma_trim_end_take(t, (b - a) as int);
    }
    let mut out: Vec<char> = Vec::new();
    let mut k = a;
    while k < b
        invariant
            a <= k <= b <= s.len(),
            out@ == s@.subrange(a as int, k as int),
        decreases b - k,
    {
        out.push(s[k]);
        k = k + 1;
        assert(out@ =~= s@.subrange(a as int, k as int));
    }
    proof {
        assert(t.take((b - a) as int) =~= s@.subrange(a as int, b as int));
        let u = t.take((b - a) as int);
        if u.len() > 0 {
            assert(!is_ws(u.last()));
        }
        assert(trim_end(u) == u);
    }
    out
}

} // verus!

verus! {

/// Whether two character slices hold the same characters.
pub fn chars_eq(a: &[char], b: &[char]) -> (r: bool)
    ensures
        r == (a@ == b@),
{
    if a.len() != b.len() {
        return false;
    }
    let mut i: usize = 0;
    while i < a.len()
        invariant
            a.len() == b.len(),
            i <= a.len(),
            forall|j: int| 0 <= j < i ==> a@[j] == b@[j],
        decreases a.len() - i,
    {
        if a[i] != b[i] {
            return false;
        }
        i = i + 1;
    }
    assert(a@ =~= b@);
    true
}

/// Whether a string equals a literal.
pub fn str_is(s: &str, lit: &str) -> (r: bool)
    ensures
        r == (s@ == lit@),
{
    let a = chars_of(s);
    let b = chars_of(lit);
    chars_eq(a.as_slice(), b.as_slice())
}

/// Copy of a string slice as a `String`.
pub fn owned(s: &str) -> (r: String)
    ensures
        r@ == s@,
{
    s.to_owned()
}

/// `a` followed by `b`.
pub fn concat_str(a: &str, b: &str) -> (r: String)
    ensures
        r@ == a@ + b@,
{
    let mut s = a.to_owned();
    s.append(b);
    s
}

} // verus!

verus! {

pub open spec fn string_views(v: Seq<String>) -> Seq<Seq<char>> {
    v.map_values(|s: String| s@)
}

/// The strings of `parts` joined with `sep` between consecutive ones.
pub fn join_exec(parts: &Vec<String>, sep: &str) -> (r: String)
    ensures
        r@ == join(string_views(parts@), sep@),
{
    let mut out = String::new();
    let mut i: usize = 0;
    while i < parts.len()
        invariant
            i <= parts@.len(),
            out@ == join(string_views(parts@.take(i as int)), sep@),
        decreases parts@.len() - i,
    {
        let ghost prev = parts@.take(i as int);
        if i > 0 {
            out.append(sep);
        }
        out.append(parts[i].as_str());
        i = i + 1;
        proof {
            let cur = parts@.take(i as int);
            assert(string_views(cur).drop_last() =~= string_views(prev));
            assert(string_views(cur).last() == parts@[i - 1]@);
            if i == 1 {
                assert(string_views(cur).len() == 1);
                assert(out@ =~= parts@[0]@);
            }
        }
    }
    assert(parts@.take(i as int) =~= parts@);
    out
}

} // verus!

verus! {

/// A line without the `\r` of a `\r\n` ending.
pub open spec fn strip_cr(l: Seq<char>) -> Seq<char> {
    if l.len() > 0 && l.last() == '\r' {
        l.drop_last()
    } else {
        l
    }
}

/// The lines of `s` (what `str::lines` yields): split at `\n`, each line that
/// ended in `\n` loses a trailing `\r`, and no empty line follows a final `\n`.
pub open spec fn lines(s: Seq<char>) -> Seq<Seq<char>> {
    let parts = split_char(s, '\n');
    let body = parts.drop_last().map_values(|l: Seq<char>| strip_cr(l));
    if parts.last().len() == 0 {
        body
    } else {
        body.push(parts.last())
    }
}

/// The lines of `s` (see `lines`).
pub fn lines_exec(s: &[char]) -> (r: Vec<Vec<char>>)
    ensures
        r@.map_values(|l: Vec<char>| l@) == lines(s@),
{
    let mut done: Vec<Vec<char>> = Vec::new();
    let mut cur: Vec<char> = Vec::new();
    let mut i: usize = 0;
    proof {
        assert(s@.take(0) =~= Seq::<char>::empty());
    }
    while i < s.len()
        invariant
            i <= s@.len(),
            split_char(s@.take(i as int), '\n') == done@.map_values(|l: Vec<char>| l@).push(cur@),
        decreases s@.len() - i,
    {
        proof {
            assert(s@.take(i + 1).drop_last() =~= s@.take(i as int));
            assert(s@.take(i + 1).last() == s@[i as int]);
        }
        if s[i] == '\n' {
            let mut line: Vec<char> = Vec::new();
            std::mem::swap(&mut line, &mut cur);
            done.push(line);
            assert(done@.map_values(|l: Vec<char>| l@).push(cur@) =~= split_char(s@.take(i + 1), '\n'));
        } else {
            let ghost before = done@.map_values(|l: Vec<char>| l@).push(cur@);
            cur.push(s[i]);
            assert(done@.map_values(|l: Vec<char>| l@).push(cur@) =~= before.update(before.len() - 1, before.last().push(s@[i as int])));
        }
        i = i + 1;
    }
    assert(s@.take(i as int) =~= s@);
    let ghost parts = split_char(s@, '\n');
    let mut out: Vec<Vec<char>> = Vec::new();
    let mut k: usize = 0;
    while k < done.len()
        invariant
            k <= done@.len(),
            parts == done@.map_values(|l: Vec<char>| l@).push(cur@),
            out@.map_values(|l: Vec<char>| l@) == parts.drop_last().take(k as int).map_values(|l: Seq<char>| strip_cr(l)),
        decreases done@.len() - k,
    {
        let l = &done[k];
        let mut c: Vec<char> = Vec::new();
        let n = if l.len() > 0 && l[l.len() - 1] == '\r' { l.len() - 1 } else { l.len() };
        let mut j: usize = 0;
        while j < n
            invariant
                j <= n <= l@.len(),
                c@ == l@.take(j as int),
            decreases n - j,
        {
            c.push(l[j]);
            j = j + 1;
            assert(c@ =~= l@.take(j as int));
        }
        proof {
            assert(parts.drop_last() =~= done@.map_values(|l: Vec<char>| l@));
            assert(parts.drop_last()[k as int] == l@);
            if l@.len() > 0 && l@.last() == '\r' {
                assert(c@ =~= l@.drop_last());
            } else {
                assert(c@ =~= l@);
            }
        }
        assert(c@ == strip_cr(parts.drop_last()[k as int]));
        let ghost prev_out = out@.map_values(|l: Vec<char>| l@);
        out.push(c);
        k = k + 1;
        assert(out@.map_values(|l: Vec<char>| l@) =~= prev_out.push(strip_cr(parts.drop_last()[k - 1])));
        assert(out@.map_values(|l: Vec<char>| l@) =~= parts.drop_last().take(k as int).map_values(|l: Seq<char>| strip_cr(l)));
    }
    assert(parts.drop_last().take(k as int) =~= parts.drop_last());
    if cur.len() > 0 {
        out.push(cur);
        assert(out@.map_values(|l: Vec<char>| l@) =~= lines(s@));
    } else {
        assert(out@.map_values(|l: Vec<char>| l@) =~= lines(s@));
    }
    out
}

} // verus!

verus! {

/// A string escaped for a Nix string literal: backslashes doubled, then quotes
/// and dollar signs preceded by a backslash.
pub open spec fn nix_escaped(s: Seq<char>) -> Seq<char> {
    replace_all(replace_all(replace_all(s, "\\"@, "\\\\"@), "\""@, "\\\""@), "$"@, "\\$"@)
}

/// Each character `a` of `s` replaced by `r`, the others kept.
pub open spec fn map_char(s: Seq<char>, a: char, r: Seq<char>) -> Seq<char>
    decreases s.len(),
{
    if s.len() == 0 {
        s
    } else {
        (if s[0] == a { r } else { seq![s[0]] }) + map_char(s.skip(1), a, r)
    }
}

/// The characters a Nix string literal needs escaped.
pub open spec fn nix_special(c: char) -> bool {
    c == '\\' || c == '"' || c == '$'
}

/// `s` with a backslash before each backslash, quote and dollar sign.
pub open spec fn nix_escape_chars(s: Seq<char>) -> Seq<char>
    decreases s.len(),
{
    if s.len() == 0 {
        s
    } else {
        (if nix_special(s[0]) { seq!['\\', s[0]] } else { seq![s[0]] }) + nix_escape_chars(s.skip(1))
    }
}

/// Reading a Nix string literal's body: a backslash and the character after
/// it stand for that character; other characters stand for themselves.
pub open spec fn nix_unescaped(t: Seq<char>) -> Seq<char>
    decreases t.len(),
{
    if t.len() == 0 {
        t
    } else if t[0] == '\\' && t.len() >= 2 {
        seq![t[1]] + nix_unescaped(t.skip(2))
    } else {
        seq![t[0]] + nix_unescaped(t.skip(1))
    }
}

/// How many characters of `s` need escaping.
pub open spec fn nix_special_count(s: Seq<char>) -> nat
    decreases s.len(),
{
    if s.len() == 0 {
        0
    } else {
        (if nix_special(s[0]) { 1nat } else { 0nat }) + nix_special_count(s.skip(1))
    }
}

pub proof fn lemma_replace_one_char(s: Seq<char>, a: char, r: Seq<char>)
    ensures
        replace_all(s, seq![a], r) == map_char(s, a, r),
    decreases s.len(),
{
    if s.len() > 0 {
        lemma_replace_one_char(s.skip(1), a, r);
        if s[0] == a {
            assert(s.subrange(0, 1) =~= seq![a]);
        } else {
            assert(!starts_with(s, seq![a])) by {
                if starts_with(s, seq![a]) {
                    assert(s.subrange(0, 1)[0] == s[0]);
                }
            }
        }
    }
}

proof fn lemma_map_char_concat(x: Seq<char>, y: Seq<char>, a: char, r: Seq<char>)
    ensures
        map_char(x + y, a, r) == map_char(x, a, r) + map_char(y, a, r),
    decreases x.len(),
{
    if x.len() == 0 {
        assert(x + y =~= y);
        assert(map_char(x, a, r) + map_char(y, a, r) =~= map_char(y, a, r));
    } else {
        lemma_map_char_concat(x.skip(1), y, a, r);
        assert((x + y).skip(1) =~= x.skip(1) + y);
        assert((x + y)[0] == x[0]);
    }
}

proof fn lemma_nix_escaped_chars(s: Seq<char>)
    ensures
        map_char(map_char(map_char(s, '\\', seq!['\\', '\\']), '"', seq!['\\', '"']), '$', seq!['\\', '$'])
            == nix_escape_chars(s),
    decreases s.len(),
{
    if s.len() > 0 {
        lemma_nix_escaped_chars(s.skip(1));
        let c = s[0];
        let h1 = if c == '\\' { seq!['\\', '\\'] } else { seq![c] };
        let t1 = map_char(s.skip(1), '\\', seq!['\\', '\\']);
        lemma_map_char_concat(h1, t1, '"', seq!['\\', '"']);
        let h2 = map_char(h1, '"', seq!['\\', '"']);
        let t2 = map_char(t1, '"', seq!['\\', '"']);
        lemma_map_char_concat(h2, t2, '$', seq!['\\', '$']);
        let h3 = map_char(h2, '$', seq!['\\', '$']);
        let e = if nix_special(c) { seq!['\\', c] } else { seq![c] };
        reveal_with_fuel(map_char, 3);
        if c == '\\' {
            assert(h2 =~= seq!['\\', '\\']);
        } else {
            assert(h2 =~= (if c == '"' { seq!['\\', '"'] } else { seq![c] }));
        }
        assert(h3 =~= e);
    }
}

proof fn lemma_nix_unescape_chars(s: Seq<char>)
    ensures
        nix_unescaped(nix_escape_chars(s)) == s,
        nix_escape_chars(s).len() == s.len() + nix_special_count(s),
    decreases s.len(),
{
    if s.len() > 0 {
        lemma_nix_unescape_chars(s.skip(1));
        let t = nix_escape_chars(s);
        let rest = nix_escape_chars(s.skip(1));
        if nix_special(s[0]) {
            assert(t =~= seq!['\\', s[0]] + rest);
            assert(t.skip(2) =~= rest);
        } else {
            assert(t =~= seq![s[0]] + rest);
            assert(t.skip(1) =~= rest);
        }
        assert(seq![s[0]] + s.skip(1) =~= s);
    }
}

/// Escaping for Nix can be undone: reading the escaped text back gives the
/// original string, and the escaped text is longer by one backslash for each
/// backslash, quote and dollar sign.
pub proof fn law_nix_escape_round_trip(s: Seq<char>)
    ensures
        nix_unescaped(nix_escaped(s)) == s,
        nix_escaped(s).len() == s.len() + nix_special_count(s),
{
    reveal_strlit("\\");
    reveal_strlit("\\\\");
    reveal_strlit("\"");
    reveal_strlit("\\\"");
    reveal_strlit("$");
    reveal_strlit("\\$");
    assert("\\"@ =~= seq!['\\']);
    assert("\\\\"@ =~= seq!['\\', '\\']);
    assert("\""@ =~= seq!['"']);
    assert("\\\""@ =~= seq!['\\', '"']);
    assert("$"@ =~= seq!['$']);
    assert("\\$"@ =~= seq!['\\', '$']);
    let s1 = map_char(s, '\\', seq!['\\', '\\']);
    let s2 = map_char(s1, '"', seq!['\\', '"']);
    lemma_replace_one_char(s, '\\', seq!['\\', '\\']);
    lemma_replace_one_char(s1, '"', seq!['\\', '"']);
    lemma_replace_one_char(s2, '$', seq!['\\', '$']);
    lemma_nix_escaped_chars(s);
    lemma_nix_unescape_chars(s);
}

/// Escape a string for Nix
pub fn escape_nix_string(s: &str) -> (r: String)
    ensures
        r@ == nix_escaped(s@),
{
    proof {
        reveal_strlit("\\");
        reveal_strlit("\"");
        reveal_strlit("$");
    }
    let c0 = chars_of(s);
    let c1 = replace_all_exec(c0.as_slice(), chars_of("\\").as_slice(), chars_of("\\\\").as_slice());
    let c2 = replace_all_exec(c1.as_slice(), chars_of("\"").as_slice(), chars_of("\\\"").as_slice());
    let c3 = replace_all_exec(c2.as_slice(), chars_of("$").as_slice(), chars_of("\\$").as_slice());
    string_of(&c3)
}

} // verus!

verus! {

pub open spec fn vec_views(v: Seq<Vec<char>>) -> Seq<Seq<char>> {
    v.map_values(|l: Vec<char>| l@)
}

/// The pieces of `s` between occurrences of `c` (see `split_char`).
pub fn split_char_exec(s: &[char], c: char) -> (r: Vec<Vec<char>>)
    ensures
        vec_views(r@) == split_char(s@, c),
{
    let mut done: Vec<Vec<char>> = Vec::new();
    let mut cur: Vec<char> = Vec::new();
    let mut i: usize = 0;
    proof {
        assert(s@.take(0) =~= Seq::<char>::empty());
    }
    while i < s.len()
        invariant
            i <= s@.len(),
            split_char(s@.take(i as int), c) == vec_views(done@).push(cur@),
        decreases s@.len() - i,
    {
        proof {
            assert(s@.take(i + 1).drop_last() =~= s@.take(i as int));
            assert(s@.take(i + 1).last() == s@[i as int]);
        }
        if s[i] == c {
            let mut piece: Vec<char> = Vec::new();
            std::mem::swap(&mut piece, &mut cur);
            done.push(piece);
            assert(vec_views(done@).push(cur@) =~= split_char(s@.take(i + 1), c));
        } else {
            let ghost before = vec_views(done@).push(cur@);
            cur.push(s[i]);
            assert(vec_views(done@).push(cur@) =~= before.update(before.len() - 1, before.last().push(s@[i as int])));
        }
        i = i + 1;
    }
    assert(s@.take(i as int) =~= s@);
    done.push(cur);
    assert(vec_views(done@) =~= split_char(s@, c));
    done
}

} // verus!

verus! {

/// `n` in decimal without leading zeros.
pub open spec fn decimal(n: nat) -> Seq<char>
    decreases n,
{
    if n < 10 {
        seq![((('0' as int) + n) as char)]
    } else {
        decimal(n / 10).push(((('0' as int) + (n % 10)) as char))
    }
}

fn decimal_digit(d: usize) -> (c: char)
    requires
        d < 10,
    ensures
        c == ((('0' as int) + d) as char),
{
    (48u8 + d as u8) as char
}

/// Decimal rendering of a `usize`.
pub fn decimal_exec(n: usize) -> (s: String)
    ensures
        s@ == decimal(n as nat),
{
    let mut digits: Vec<char> = Vec::new();
    let mut m = n;
    while m >= 10
        invariant
            decimal(n as nat) == decimal(m as nat) + digits@,
        decreases m,
    {
        let c = decimal_digit(m % 10);
        digits.insert(0, c);
        let ghost old_m = m;
        m = m / 10;
        assert(decimal(old_m as nat) == decimal(m as nat).push(c));
        assert(decimal(m as nat).push(c) + digits@.drop_first() =~= decimal(m as nat) + digits@);
    }
    digits.insert(0, decimal_digit(m));
    assert(decimal(m as nat) =~= seq![((('0' as int) + m) as char)]);
    string_of(&digits)
}

} // verus!

verus! {

/// A string whose first and last characters are not whitespace is its own trim.
pub proof fn lemma_trim_unchanged(s: Seq<char>)
    requires
        s.len() > 0,
        !is_ws(s[0]),
        !is_ws(s.last()),
    ensures
        trim(s) == s,
{
}

/// The first occurrence of `p` at or after `from` is at `i` when it occurs
/// there and nowhere between.
pub proof fn lemma_find_from_at(s: Seq<char>, p: Seq<char>, from: int, i: int)
    requires
        0 <= from <= i,
        occurs_at(s, p, i),
        forall|j: int| from <= j < i ==> !occurs_at(s, p, j),
    ensures
        find_from(s, p, from) == Some(i),
    decreases i - from,
{
    if from < i {
        lemma_find_from_at(s, p, from + 1, i);
    }
}

/// `p` occurs nowhere at or after `from`.
pub proof fn lemma_find_from_none(s: Seq<char>, p: Seq<char>, from: int)
    requires
        0 <= from,
        forall|j: int| from <= j ==> !occurs_at(s, p, j),
    ensures
        find_from(s, p, from) is None,
    decreases s.len() + 1 - from,
{
    if from + p.len() <= s.len() {
        lemma_find_from_none(s, p, from + 1);
    }
}

/// Each character of `map_char(s, a, r)` is a character of `s` other than
/// `a`, or a character of `r`.
pub proof fn lemma_map_char_chars(s: Seq<char>, a: char, r: Seq<char>, x: char)
    requires
        map_char(s, a, r).contains(x),
    ensures
        (s.contains(x) && x != a) || r.contains(x),
    decreases s.len(),
{
    if s.len() > 0 {
        let h = if s[0] == a { r } else { seq![s[0]] };
        let t = map_char(s.skip(1), a, r);
        let m = map_char(s, a, r);
        assert(m == h + t);
        let k = choose|k: int| 0 <= k < m.len() && m[k] == x;
        if k < h.len() {
            assert(h[k] == x);
            if s[0] != a {
                assert(s[0] == x);
            }
        } else {
            assert(t[k - h.len()] == x);
            lemma_map_char_chars(s.skip(1), a, r, x);
            if s.skip(1).contains(x) && x != a {
                let j = choose|j: int| 0 <= j < s.skip(1).len() && s.skip(1)[j] == x;
                assert(s[j + 1] == x);
            }
        }
    }
}

} // verus!
