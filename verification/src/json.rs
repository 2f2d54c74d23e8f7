//! JSON documents (package.json) as values of the library, read and written
//! with `serde_json`, and the edits the tool makes to them.
use vstd::prelude::*;
use serde_json::{Number, Value};
use crate::project::dist_to_src;
use crate::sorting::sorts_by_name;
use crate::text::{contains_seq, owned};
use crate::types::pair_views;

verus! {

/// A JSON value. Numbers are held as their JSON text; object members keep
/// the order `serde_json` gives them.
#[derive(Debug)]
pub enum JsonValue {
    Null,
    Bool(bool),
    Number(String),
    Text(String),
    Array(Vec<JsonValue>),
    Object(Vec<(String, JsonValue)>),
}

pub enum JsonValueView {
    Null,
    Bool(bool),
    Number(Seq<char>),
    Text(Seq<char>),
    Array(Seq<JsonValueView>),
    Object(Seq<(Seq<char>, JsonValueView)>),
}

pub open spec fn json_view(v: JsonValue) -> JsonValueView
    decreases v,
{
    match v {
        JsonValue::Null => JsonValueView::Null,
        JsonValue::Bool(b) => JsonValueView::Bool(b),
        JsonValue::Number(n) => JsonValueView::Number(n@),
        JsonValue::Text(s) => JsonValueView::Text(s@),
        JsonValue::Array(a) => JsonValueView::Array(json_views(a@)),
        JsonValue::Object(o) => JsonValueView::Object(member_views(o@)),
    }
}

pub open spec fn json_views(s: Seq<JsonValue>) -> Seq<JsonValueView>
    decreases s,
{
    if s.len() == 0 {
        seq![]
    } else {
        json_views(s.drop_last()).push(json_view(s.last()))
    }
}

pub open spec fn member_views(s: Seq<(String, JsonValue)>) -> Seq<(Seq<char>, JsonValueView)>
    decreases s,
{
    if s.len() == 0 {
        seq![]
    } else {
        member_views(s.drop_last()).push((s.last().0@, json_view(s.last().1)))
    }
}

impl View for JsonValue {
    type V = JsonValueView;

    open spec fn view(&self) -> JsonValueView {
        json_view(*self)
    }
}

#[verifier::external_type_specification]
#[verifier::external_body]
pub struct ExSerdeJsonValue(Value);

pub open spec fn opt_json_view(o: Option<JsonValue>) -> Option<JsonValueView> {
    match o {
        Some(v) => Some(v@),
        None => None,
    }
}

/// The value `serde_json::from_str` reads from `text`, as a `JsonValue`;
/// `None` when it reports an error.
pub uninterp spec fn json_parse(text: Seq<char>) -> Option<JsonValueView>;

/// The text `serde_json::to_string_pretty` writes for `v`; `None` when a
/// number's text is not a JSON number or the writer reports an error.
pub uninterp spec fn json_pretty(v: JsonValueView) -> Option<Seq<char>>;

/// Parses `text` with `serde_json::from_str` into a `serde_json::Value` and
/// converts it member for member; `None` on a parse error.
#[verifier::external_body]
fn parse_json(text: &str) -> (r: Option<JsonValue>)
    ensures
        opt_json_view(r) == json_parse(text@),
{
    serde_json::from_str::<Value>(text).ok().map(|v| json_of(&v))
}

/// One `serde_json::Value`, told apart by its variant, as a `JsonValue`.
#[verifier::external_body]
fn json_of(v: &Value) -> JsonValue {
    match v {
        Value::Null => JsonValue::Null,
        Value::Bool(b) => JsonValue::Bool(*b),
        Value::Number(n) => JsonValue::Number(n.to_string()),
        Value::String(s) => JsonValue::Text(s.clone()),
        Value::Array(a) => JsonValue::Array(a.iter().map(json_of).collect()),
        Value::Object(o) => JsonValue::Object(o.iter().map(|(k, x)| (k.clone(), json_of(x))).collect()),
    }
}

/// Converts `v` to a `serde_json::Value` and writes it with
/// `serde_json::to_string_pretty`; `None` when a number's text does not
/// parse as a `serde_json::Number` or the writer reports an error.
#[verifier::external_body]
fn to_string_pretty(v: &JsonValue) -> (r: Option<String>)
    ensures
        crate::externals::opt_view(r) == json_pretty(v@),
{
    value_of(v).and_then(|x| serde_json::to_string_pretty(&x).ok())
}

/// One `JsonValue` as a `serde_json::Value`, told apart by its variant.
#[verifier::external_body]
fn value_of(v: &JsonValue) -> Option<Value> {
    match v {
        JsonValue::Null => Some(Value::Null),
        JsonValue::Bool(b) => Some(Value::Bool(*b)),
        JsonValue::Number(n) => n.parse::<Number>().ok().map(Value::Number),
        JsonValue::Text(s) => Some(Value::String(s.clone())),
        JsonValue::Array(a) => a.iter().map(value_of).collect::<Option<Vec<_>>>().map(Value::Array),
        JsonValue::Object(o) => o.iter().map(|(k, x)| value_of(x).map(|y| (k.clone(), y))).collect::<Option<serde_json::Map<_, _>>>().map(Value::Object),
    }
}

/// An export target pointed at the sources: a string holding `./dist/` is
/// rewritten (see `dist_to_src`), objects are rewritten member by member,
/// anything else is kept.
pub open spec fn exports_to_source(v: JsonValueView) -> JsonValueView
    decreases v,
{
    match v {
        JsonValueView::Text(s) => if contains_seq(s, "./dist/"@) {
            JsonValueView::Text(dist_to_src(s))
        } else {
            v
        },
        JsonValueView::Object(ms) => JsonValueView::Object(exports_members_to_source(ms)),
        _ => v,
    }
}

pub open spec fn exports_members_to_source(ms: Seq<(Seq<char>, JsonValueView)>) -> Seq<(Seq<char>, JsonValueView)>
    decreases ms,
{
    if ms.len() == 0 {
        seq![]
    } else {
        exports_members_to_source(ms.drop_last()).push((ms.last().0, exports_to_source(ms.last().1)))
    }
}

/// The entry-point fields a package names files by.
pub open spec fn is_entry_field(k: Seq<char>) -> bool {
    k == "main"@ || k == "module"@ || k == "types"@
}

/// One member of package.json pointed at the sources: a string `main`,
/// `module` or `types` is rewritten (see `dist_to_src`), `exports` is
/// rewritten (see `exports_to_source`), other members are kept.
pub open spec fn member_to_source(m: (Seq<char>, JsonValueView)) -> (Seq<char>, JsonValueView) {
    if is_entry_field(m.0) && m.1 is Text {
        (m.0, JsonValueView::Text(dist_to_src(m.1->Text_0)))
    } else if m.0 == "exports"@ {
        (m.0, exports_to_source(m.1))
    } else {
        m
    }
}

/// A package.json document pointed at the sources instead of `dist/`: the
/// members of an object are rewritten (see `member_to_source`); any other
/// document is kept.
pub open spec fn pointed_to_source(v: JsonValueView) -> JsonValueView {
    match v {
        JsonValueView::Object(ms) => JsonValueView::Object(ms.map_values(|m: (Seq<char>, JsonValueView)| member_to_source(m))),
        _ => v,
    }
}

pub open spec fn json_error_message() -> Seq<char> {
    "package.json is not valid JSON"@
}

pub open spec fn json_write_error_message() -> Seq<char> {
    "package.json could not be written as JSON"@
}

proof fn lemma_member_views(s: Seq<(String, JsonValue)>)
    ensures
        member_views(s).len() == s.len(),
        forall|i: int| 0 <= i < s.len() ==> #[trigger] member_views(s)[i] == (s[i].0@, json_view(s[i].1)),
    decreases s.len(),
{
    if s.len() > 0 {
        lemma_member_views(s.drop_last());
        assert forall|i: int| 0 <= i < s.len() implies #[trigger] member_views(s)[i] == (s[i].0@, json_view(s[i].1)) by {
            if i < s.len() - 1 {
                assert(s.drop_last()[i] == s[i]);
            }
        }
    }
}

proof fn lemma_exports_members(ms: Seq<(Seq<char>, JsonValueView)>)
    ensures
        exports_members_to_source(ms).len() == ms.len(),
        forall|i: int| 0 <= i < ms.len() ==> #[trigger] exports_members_to_source(ms)[i] == (ms[i].0, exports_to_source(ms[i].1)),
    decreases ms.len(),
{
    if ms.len() > 0 {
        lemma_exports_members(ms.drop_last());
        assert forall|i: int| 0 <= i < ms.len() implies #[trigger] exports_members_to_source(ms)[i] == (ms[i].0, exports_to_source(ms[i].1)) by {
            if i < ms.len() - 1 {
                assert(ms.drop_last()[i] == ms[i]);
            }
        }
    }
}

fn exports_to_source_exec(v: JsonValue) -> (r: JsonValue)
    ensures
        r@ == exports_to_source(v@),
    decreases v,
{
    match v {
        JsonValue::Text(s) => {
            proof {
                reveal_strlit("./dist/");
            }
            match crate::project::export_target_for_source(s.as_str()) {
                Some(t) => JsonValue::Text(t),
                None => JsonValue::Text(s),
            }
        },
        JsonValue::Object(ms) => {
            let ghost orig = ms@;
            let ghost ov = ms;
            proof {
                lemma_member_views(orig);
                lemma_exports_members(member_views(orig));
            }
            let mut ms = ms;
            let mut out: Vec<(String, JsonValue)> = Vec::new();
            while ms.len() > 0
                invariant
                    ms@.len() <= orig.len(),
                    ms@ == orig.take(ms@.len() as int),
                    v == JsonValue::Object(ov),
                    ov@ == orig,
                    out@.len() + ms@.len() == orig.len(),
                    forall|j: int| 0 <= j < out@.len() ==> (#[trigger] out@[j]).0@ == orig[ms@.len() + j].0@
                        && out@[j].1@ == exports_to_source(json_view(orig[ms@.len() + j].1)),
                decreases ms@.len(),
            {
                let ghost k = ms@.len() as int;
                let ghost o0 = out@;
                let (name, x) = ms.pop().unwrap();
                assert(orig[k - 1] == (name, x));
                assert(decreases_to!(v => x)) by {
                    assert(v->Object_0 == ov);
                    assert(decreases_to!(v => v->Object_0));
                    assert(decreases_to!(ov => ov@));
                    assert(decreases_to!(ov@ => ov@[k - 1]));
                    assert(decreases_to!(ov@[k - 1] => ov@[k - 1].1));
                };
                let y = exports_to_source_exec(x);
                out.insert(0, (name, y));
                assert(ms@ =~= orig.take(ms@.len() as int));
                assert forall|j: int| 0 <= j < out@.len() implies (#[trigger] out@[j]).0@ == orig[ms@.len() + j].0@
                    && out@[j].1@ == exports_to_source(json_view(orig[ms@.len() + j].1)) by {
                    if j > 0 {
                        assert(out@[j] == o0[j - 1]);
                    }
                }
            }
            proof {
                lemma_member_views(out@);
                assert(member_views(out@) =~= exports_members_to_source(member_views(orig)));
            }
            JsonValue::Object(out)
        },
        _ => v,
    }
}

fn member_to_source_exec(name: String, x: JsonValue) -> (r: (String, JsonValue))
    ensures
        (r.0@, r.1@) == member_to_source((name@, x@)),
{
    let entry = crate::text::str_is(name.as_str(), "main") || crate::text::str_is(name.as_str(), "module")
        || crate::text::str_is(name.as_str(), "types");
    match x {
        JsonValue::Text(t) => {
            if entry {
                let u = crate::project::dist_to_src_exec(t.as_str());
                return (name, JsonValue::Text(u));
            }
            if crate::text::str_is(name.as_str(), "exports") {
                let y = exports_to_source_exec(JsonValue::Text(t));
                return (name, y);
            }
            (name, JsonValue::Text(t))
        },
        _ => {
            if crate::text::str_is(name.as_str(), "exports") {
                let y = exports_to_source_exec(x);
                (name, y)
            } else {
                (name, x)
            }
        },
    }
}

fn pointed_to_source_exec(v: JsonValue) -> (r: JsonValue)
    ensures
        r@ == pointed_to_source(v@),
{
    match v {
        JsonValue::Object(ms) => {
            let ghost orig = ms@;
            proof {
                lemma_member_views(orig);
            }
            let mut ms = ms;
            let mut out: Vec<(String, JsonValue)> = Vec::new();
            while ms.len() > 0
                invariant
                    ms@.len() <= orig.len(),
                    ms@ == orig.take(ms@.len() as int),
                    out@.len() + ms@.len() == orig.len(),
                    forall|j: int| 0 <= j < out@.len() ==> ((#[trigger] out@[j]).0@, out@[j].1@) == member_to_source(
                        (orig[ms@.len() + j].0@, json_view(orig[ms@.len() + j].1)),
                    ),
                decreases ms@.len(),
            {
                let ghost k = ms@.len() as int;
                let ghost o0 = out@;
                let (name, x) = ms.pop().unwrap();
                assert(orig[k - 1] == (name, x));
                let m = member_to_source_exec(name, x);
                out.insert(0, m);
                assert(ms@ =~= orig.take(ms@.len() as int));
                assert forall|j: int| 0 <= j < out@.len() implies ((#[trigger] out@[j]).0@, out@[j].1@) == member_to_source(
                    (orig[ms@.len() + j].0@, json_view(orig[ms@.len() + j].1)),
                ) by {
                    if j > 0 {
                        assert(out@[j] == o0[j - 1]);
                    }
                }
            }
            proof {
                lemma_member_views(out@);
                assert(member_views(out@) =~= member_views(orig).map_values(
                    |m: (Seq<char>, JsonValueView)| member_to_source(m),
                ));
            }
            JsonValue::Object(out)
        },
        _ => v,
    }
}

/// Modify package.json content to point to source files instead of dist:
/// the document is read, pointed at the sources (see `pointed_to_source`)
/// and written back pretty-printed.
pub fn modify_package_json_content(content: &str) -> (r: Result<String, String>)
    ensures
        match json_parse(content@) {
            None => r matches Err(e) && e@ == json_error_message(),
            Some(v) => match json_pretty(pointed_to_source(v)) {
                Some(t) => r matches Ok(o) && o@ == t,
                None => r matches Err(e) && e@ == json_write_error_message(),
            },
        },
{
    let pkg = match parse_json(content) {
        Some(p) => p,
        None => {
            return Err(owned("package.json is not valid JSON"));
        },
    };
    let pointed = pointed_to_source_exec(pkg);
    match to_string_pretty(&pointed) {
        Some(t) => Ok(t),
        None => Err(owned("package.json could not be written as JSON")),
    }
}

/// The value of the first member of `ms` named `k`.
pub open spec fn member_value(ms: Seq<(Seq<char>, JsonValueView)>, k: Seq<char>) -> Option<JsonValueView>
    decreases ms.len(),
{
    if ms.len() == 0 {
        None
    } else if ms[0].0 == k {
        Some(ms[0].1)
    } else {
        member_value(ms.skip(1), k)
    }
}

/// A dependency's version: its string, or `*` when it is not a string.
pub open spec fn version_text(v: JsonValueView) -> Seq<char> {
    match v {
        JsonValueView::Text(s) => s,
        _ => "*"@,
    }
}

/// The `(name, version)` entries of the object `field` of a package.json
/// document, in document order; none when the document is not an object or
/// `field` is missing or not an object.
pub open spec fn dependency_entries_of(v: JsonValueView, field: Seq<char>) -> Seq<(Seq<char>, Seq<char>)> {
    match v {
        JsonValueView::Object(ms) => match member_value(ms, field) {
            Some(JsonValueView::Object(ds)) => ds.map_values(|d: (Seq<char>, JsonValueView)| (d.0, version_text(d.1))),
            _ => seq![],
        },
        _ => seq![],
    }
}

fn member_value_exec<'a>(ms: &'a Vec<(String, JsonValue)>, k: &str) -> (r: Option<&'a JsonValue>)
    ensures
        match r {
            Some(x) => member_value(member_views(ms@), k@) == Some(x@),
            None => member_value(member_views(ms@), k@) is None,
        },
{
    let ghost mv = member_views(ms@);
    proof {
        lemma_member_views(ms@);
    }
    let mut i: usize = 0;
    assert(mv.skip(0) =~= mv);
    while i < ms.len()
        invariant
            i <= ms@.len(),
            mv == member_views(ms@),
            forall|j: int| 0 <= j < ms@.len() ==> #[trigger] mv[j] == (ms@[j].0@, json_view(ms@[j].1)),
            mv.len() == ms@.len(),
            member_value(mv, k@) == member_value(mv.skip(i as int), k@),
        decreases ms@.len() - i,
    {
        assert(mv.skip(i as int)[0] == mv[i as int]);
        assert(mv[i as int] == (ms@[i as int].0@, json_view(ms@[i as int].1)));
        if crate::text::str_is(ms[i].0.as_str(), k) {
            return Some(&ms[i].1);
        }
        assert(mv.skip(i as int).skip(1) =~= mv.skip(i + 1));
        i = i + 1;
    }
    assert(mv.skip(i as int).len() == 0);
    None
}

/// The dependencies named in the object `field` of package.json text, as
/// `(name, version)` pairs (a version that is not a string reads as `*`),
/// sorted by name; `None` when the text is not JSON.
pub fn root_dependency_entries(package_json: &str, field: &str) -> (r: Option<Vec<(String, String)>>)
    ensures
        match json_parse(package_json@) {
            None => r is None,
            Some(v) => r matches Some(e) && sorts_by_name(dependency_entries_of(v, field@), pair_views(e@)),
        },
{
    let doc = match parse_json(package_json) {
        Some(d) => d,
        None => {
            return None;
        },
    };
    let mut entries: Vec<(String, String)> = Vec::new();
    let ghost mut expected: Seq<(Seq<char>, Seq<char>)> = seq![];
    match &doc {
        JsonValue::Object(ms) => {
            match member_value_exec(ms, field) {
                Some(JsonValue::Object(ds)) => {
                    proof {
                        lemma_member_views(ds@);
                        reveal_strlit("*");
                        assert("*"@ =~= seq!['*']);
                    }
                    let ghost dv = member_views(ds@);
                    let mut i: usize = 0;
                    while i < ds.len()
                        invariant
                            i <= ds@.len(),
                            dv == member_views(ds@),
                            forall|j: int| 0 <= j < ds@.len() ==> #[trigger] dv[j] == (ds@[j].0@, json_view(ds@[j].1)),
                            "*"@ == seq!['*'],
                            dv.len() == ds@.len(),
                            pair_views(entries@) =~= dv.take(i as int).map_values(
                                |d: (Seq<char>, JsonValueView)| (d.0, version_text(d.1)),
                            ),
                        decreases ds@.len() - i,
                    {
                        let ghost e0 = pair_views(entries@);
                        assert(dv[i as int] == (ds@[i as int].0@, json_view(ds@[i as int].1)));
                        let version = match &ds[i].1 {
                            JsonValue::Text(s) => owned(s.as_str()),
                            _ => owned("*"),
                        };
                        assert(version@ == version_text(json_view(ds@[i as int].1)));
                        entries.push((owned(ds[i].0.as_str()), version));
                        assert(pair_views(entries@) =~= e0.push((dv[i as int].0, version_text(dv[i as int].1))));
                        assert(dv.take(i + 1) =~= dv.take(i as int).push(dv[i as int]));
                        i = i + 1;
                    }
                    assert(dv.take(ds@.len() as int) =~= dv);
                    assert(pair_views(entries@) =~= dependency_entries_of(doc@, field@));
                },
                _ => {
                    assert(pair_views(entries@) =~= dependency_entries_of(doc@, field@));
                },
            }
        },
        _ => {
            assert(pair_views(entries@) =~= dependency_entries_of(doc@, field@));
        },
    }
    assert(pair_views(entries@) == dependency_entries_of(doc@, field@));
    Some(crate::sorting::sort_pairs_by_name(&entries))
}

/// The members of an object whose values are strings, as `(name, string)`.
pub open spec fn string_members(ms: Seq<(Seq<char>, JsonValueView)>) -> Seq<(Seq<char>, Seq<char>)>
    decreases ms.len(),
{
    if ms.len() == 0 {
        seq![]
    } else {
        let rest = string_members(ms.drop_last());
        match ms.last().1 {
            JsonValueView::Text(p) => rest.push((ms.last().0, p)),
            _ => rest,
        }
    }
}

/// The command a package's `bin` field gives when it is a single path: the
/// last `/`-separated segment of the package name.
pub open spec fn bin_command_name(pname: Seq<char>) -> Seq<char> {
    crate::text::split_char(pname, '/').last()
}

/// The `(command, path)` entries of a package.json `bin` field: a string names
/// one command called after the package; an object names one per member
/// whose value is a string. None when the text is not JSON, is not an
/// object, or has no such `bin`.
pub open spec fn bin_entries_of(doc: Option<JsonValueView>, pname: Seq<char>) -> Seq<(Seq<char>, Seq<char>)> {
    match doc {
        Some(JsonValueView::Object(ms)) => match member_value(ms, "bin"@) {
            Some(JsonValueView::Text(p)) => seq![(bin_command_name(pname), p)],
            Some(JsonValueView::Object(bs)) => string_members(bs),
            _ => seq![],
        },
        _ => seq![],
    }
}

/// The executables a package declares in its package.json text (see
/// `bin_entries_of`), in document order.
pub fn bin_entries(package_json: &str, pname: &str) -> (r: Vec<(String, String)>)
    ensures
        pair_views(r@) == bin_entries_of(json_parse(package_json@), pname@),
{
    let doc = parse_json(package_json);
    let mut out: Vec<(String, String)> = Vec::new();
    proof {
        reveal_strlit("bin");
    }
    match &doc {
        Some(JsonValue::Object(ms)) => {
            match member_value_exec(ms, "bin") {
                Some(JsonValue::Text(p)) => {
                    let segs = crate::text::split_char_exec(crate::text::chars_of(pname).as_slice(), '/');
                    proof {
                        crate::text::lemma_split_char_nonempty(pname@, '/');
                    }
                    let last = crate::text::string_of(&segs[segs.len() - 1]);
                    out.push((last, owned(p.as_str())));
                    assert(pair_views(out@) =~= seq![(bin_command_name(pname@), p@)]);
                },
                Some(JsonValue::Object(bs)) => {
                    proof {
                        lemma_member_views(bs@);
                    }
                    let ghost bv = member_views(bs@);
                    let mut i: usize = 0;
                    assert(pair_views(out@) =~= string_members(bv.take(0)));
                    while i < bs.len()
                        invariant
                            i <= bs@.len(),
                            bv == member_views(bs@),
                            bv.len() == bs@.len(),
                            forall|j: int| 0 <= j < bs@.len() ==> #[trigger] bv[j] == (bs@[j].0@, json_view(bs@[j].1)),
                            pair_views(out@) == string_members(bv.take(i as int)),
                        decreases bs@.len() - i,
                    {
                        assert(bv.take(i + 1).drop_last() =~= bv.take(i as int));
                        assert(bv.take(i + 1).last() == bv[i as int]);
                        match &bs[i].1 {
                            JsonValue::Text(p) => {
                                let ghost o0 = pair_views(out@);
                                out.push((owned(bs[i].0.as_str()), owned(p.as_str())));
                                assert(pair_views(out@) =~= o0.push((bv[i as int].0, p@)));
                            },
                            _ => {},
                        }
                        i = i + 1;
                    }
                    assert(bv.take(bs@.len() as int) =~= bv);
                },
                _ => {},
            }
        },
        _ => {},
    }
    out
}

} // verus!
