//! The plan decoder and encoder.
//!
//! A plan document is a JSON (or YAML, turned into JSON) array of step
//! objects. Each step holds exactly one method key (`GET`, `POST`, `PUT`,
//! `DELETE`) whose value is the URL, and optional `title`, `dump`,
//! `headers`, `json`, `asserts` and `exports` fields; an assertion is a
//! single-key object whose key names the kind. Any unknown assertion kind
//! or ill-typed field is a decode error. Decoding and re-encoding are
//! exact inverses: see `lemma_plan_round_trip`.

use vstd::prelude::*;
use crate::json::{jfield_views, jview, jviews, JView, JsonValue};
use crate::model::{
    Assert, AssertView, Header, HttpMethod, MethodView, RequestConfig, RequestConfigView,
    TestItem, TestItemView,
};
use crate::strutil::str_eq;

verus! {

/// The last field of a ghost object named `k`: a later duplicate key wins.
pub open spec fn vobj_get(fields: Seq<(Seq<char>, JView)>, k: Seq<char>) -> Option<JView>
    decreases fields.len(),
{
    if fields.len() == 0 {
        None
    } else if fields.last().0 == k {
        Some(fields.last().1)
    } else {
        vobj_get(fields.drop_last(), k)
    }
}

pub open spec fn is_method_key(k: Seq<char>) -> bool {
    k == "GET"@ || k == "POST"@ || k == "PUT"@ || k == "DELETE"@
}

/// How many fields from `i` on carry a method key.
pub open spec fn method_count(fields: Seq<(Seq<char>, JView)>, i: int) -> int
    decreases fields.len() - i,
{
    if i < 0 || i >= fields.len() {
        0
    } else {
        (if is_method_key(fields[i].0) {
            1int
        } else {
            0int
        }) + method_count(fields, i + 1)
    }
}

/// The first field from `i` on that carries a method key.
pub open spec fn first_method_field(fields: Seq<(Seq<char>, JView)>, i: int) -> Option<
    (Seq<char>, JView),
>
    decreases fields.len() - i,
{
    if i < 0 || i >= fields.len() {
        None
    } else if is_method_key(fields[i].0) {
        Some(fields[i])
    } else {
        first_method_field(fields, i + 1)
    }
}

/// The method a field denotes, when its value is a string URL.
pub open spec fn method_of_field(k: Seq<char>, v: JView) -> Option<MethodView> {
    match v {
        JView::Str(u) => if k == "GET"@ {
            Some(MethodView::GET(u))
        } else if k == "POST"@ {
            Some(MethodView::POST(u))
        } else if k == "PUT"@ {
            Some(MethodView::PUT(u))
        } else if k == "DELETE"@ {
            Some(MethodView::DELETE(u))
        } else {
            None
        },
        _ => None,
    }
}

/// An optional string field: absent or null is `None`, a string is
/// `Some`, anything else is a decode error (outer `None`).
pub open spec fn text_field(fields: Seq<(Seq<char>, JView)>, k: Seq<char>) -> Option<
    Option<Seq<char>>,
> {
    match vobj_get(fields, k) {
        None => Some(None),
        Some(JView::Null) => Some(None),
        Some(JView::Str(t)) => Some(Some(t)),
        Some(_) => None,
    }
}

/// An optional boolean field, in the same manner.
pub open spec fn bool_field(fields: Seq<(Seq<char>, JView)>, k: Seq<char>) -> Option<Option<bool>> {
    match vobj_get(fields, k) {
        None => Some(None),
        Some(JView::Null) => Some(None),
        Some(JView::Bool(b)) => Some(Some(b)),
        Some(_) => None,
    }
}

/// The header pairs of a headers object from `i` on: every value must be
/// a string.
pub open spec fn headers_of(
    hf: Seq<(Seq<char>, JView)>,
    i: int,
    acc: Seq<(Seq<char>, Seq<char>)>,
) -> Option<Seq<(Seq<char>, Seq<char>)>>
    decreases hf.len() - i,
{
    if i < 0 {
        None
    } else if i >= hf.len() {
        Some(acc)
    } else {
        match hf[i].1 {
            JView::Str(v) => headers_of(hf, i + 1, acc.push((hf[i].0, v))),
            _ => None,
        }
    }
}

/// The assertion a kind key and its argument denote; an unknown kind is a
/// decode error.
pub open spec fn assert_of(k: Seq<char>, arg: Seq<char>) -> Option<AssertView> {
    if k == "ok"@ { Some(AssertView::IsOk(arg)) }
    else if k == "array"@ { Some(AssertView::IsArray(arg)) }
    else if k == "empty"@ { Some(AssertView::IsEmpty(arg)) }
    else if k == "string"@ { Some(AssertView::IsString(arg)) }
    else if k == "number"@ { Some(AssertView::IsNumber(arg)) }
    else if k == "boolean"@ { Some(AssertView::IsBoolean(arg)) }
    else if k == "null"@ { Some(AssertView::IsNull(arg)) }
    else if k == "exists"@ { Some(AssertView::Exists(arg)) }
    else if k == "date"@ { Some(AssertView::IsDate(arg)) }
    else if k == "notEmpty"@ { Some(AssertView::NotEmpty(arg)) }
    else { None }
}

/// The assertions of an asserts array from `i` on: each element must be a
/// single-key object whose key is a known kind and whose value is the
/// argument string.
pub open spec fn asserts_of(items: Seq<JView>, i: int, acc: Seq<AssertView>) -> Option<
    Seq<AssertView>,
>
    decreases items.len() - i,
{
    if i < 0 {
        None
    } else if i >= items.len() {
        Some(acc)
    } else {
        match items[i] {
            JView::Obj(f) => if f.len() == 1 {
                match f[0].1 {
                    JView::Str(arg) => match assert_of(f[0].0, arg) {
                        Some(a) => asserts_of(items, i + 1, acc.push(a)),
                        None => None,
                    },
                    _ => None,
                }
            } else {
                None
            },
            _ => None,
        }
    }
}

/// The export pairs of an exports object from `i` on: every value must be
/// a string path.
pub open spec fn exports_of(
    ef: Seq<(Seq<char>, JView)>,
    i: int,
    acc: Seq<(Seq<char>, Seq<char>)>,
) -> Option<Seq<(Seq<char>, Seq<char>)>>
    decreases ef.len() - i,
{
    if i < 0 {
        None
    } else if i >= ef.len() {
        Some(acc)
    } else {
        match ef[i].1 {
            JView::Str(v) => exports_of(ef, i + 1, acc.push((ef[i].0, v))),
            _ => None,
        }
    }
}

/// The step a JSON object denotes, if every field is well-formed and
/// exactly one method key is present.
pub open spec fn item_of_json(j: JView) -> Option<TestItemView> {
    match j {
        JView::Obj(fields) => if method_count(fields, 0) != 1 {
            None
        } else {
            match first_method_field(fields, 0) {
                None => None,
                Some(mf) => match method_of_field(mf.0, mf.1) {
                    None => None,
                    Some(m) => match text_field(fields, "title"@) {
                        None => None,
                        Some(title) => match bool_field(fields, "dump"@) {
                            None => None,
                            Some(dump) => match headers_field(fields) {
                                None => None,
                                Some(headers) => match asserts_field(fields) {
                                    None => None,
                                    Some(asserts) => match exports_field(fields) {
                                        None => None,
                                        Some(exports) => Some(
                                            TestItemView {
                                                title,
                                                dump,
                                                request: RequestConfigView {
                                                    method: m,
                                                    headers,
                                                    json: json_field(fields),
                                                },
                                                asserts,
                                                exports,
                                            },
                                        ),
                                    },
                                },
                            },
                        },
                    },
                },
            }
        },
        _ => None,
    }
}

pub open spec fn headers_field(fields: Seq<(Seq<char>, JView)>) -> Option<
    Option<Seq<(Seq<char>, Seq<char>)>>,
> {
    match vobj_get(fields, "headers"@) {
        None => Some(None),
        Some(JView::Null) => Some(None),
        Some(JView::Obj(hf)) => match headers_of(hf, 0, Seq::empty()) {
            Some(h) => Some(Some(h)),
            None => None,
        },
        Some(_) => None,
    }
}

/// The request body, if any: a `json` field holding null (or absent)
/// means no body; any JSON value is taken as it stands.
pub open spec fn json_field(fields: Seq<(Seq<char>, JView)>) -> Option<JView> {
    match vobj_get(fields, "json"@) {
        None => None,
        Some(JView::Null) => None,
        Some(v) => Some(v),
    }
}

pub open spec fn asserts_field(fields: Seq<(Seq<char>, JView)>) -> Option<
    Option<Seq<AssertView>>,
> {
    match vobj_get(fields, "asserts"@) {
        None => Some(None),
        Some(JView::Null) => Some(None),
        Some(JView::Arr(items)) => match asserts_of(items, 0, Seq::empty()) {
            Some(a) => Some(Some(a)),
            None => None,
        },
        Some(_) => None,
    }
}

pub open spec fn exports_field(fields: Seq<(Seq<char>, JView)>) -> Option<
    Option<Seq<(Seq<char>, Seq<char>)>>,
> {
    match vobj_get(fields, "exports"@) {
        None => Some(None),
        Some(JView::Null) => Some(None),
        Some(JView::Obj(ef)) => match exports_of(ef, 0, Seq::empty()) {
            Some(e) => Some(Some(e)),
            None => None,
        },
        Some(_) => None,
    }
}

/// The steps of a plan array from `i` on.
pub open spec fn items_of(s: Seq<JView>, i: int, acc: Seq<TestItemView>) -> Option<
    Seq<TestItemView>,
>
    decreases s.len() - i,
{
    if i < 0 {
        None
    } else if i >= s.len() {
        Some(acc)
    } else {
        match item_of_json(s[i]) {
            Some(it) => items_of(s, i + 1, acc.push(it)),
            None => None,
        }
    }
}

/// The plan a JSON document denotes: an array of step objects.
pub open spec fn plan_of_json(j: JView) -> Option<Seq<TestItemView>> {
    match j {
        JView::Arr(items) => items_of(items, 0, Seq::empty()),
        _ => None,
    }
}

// ---------------------------------------------------------------------------
// Encoding
// ---------------------------------------------------------------------------

pub open spec fn json_of_assert(a: AssertView) -> JView {
    match a {
        AssertView::IsOk(s) => JView::Obj(seq![("ok"@, JView::Str(s))]),
        AssertView::IsArray(s) => JView::Obj(seq![("array"@, JView::Str(s))]),
        AssertView::IsEmpty(s) => JView::Obj(seq![("empty"@, JView::Str(s))]),
        AssertView::IsString(s) => JView::Obj(seq![("string"@, JView::Str(s))]),
        AssertView::IsNumber(s) => JView::Obj(seq![("number"@, JView::Str(s))]),
        AssertView::IsBoolean(s) => JView::Obj(seq![("boolean"@, JView::Str(s))]),
        AssertView::IsNull(s) => JView::Obj(seq![("null"@, JView::Str(s))]),
        AssertView::Exists(s) => JView::Obj(seq![("exists"@, JView::Str(s))]),
        AssertView::IsDate(s) => JView::Obj(seq![("date"@, JView::Str(s))]),
        AssertView::NotEmpty(s) => JView::Obj(seq![("notEmpty"@, JView::Str(s))]),
    }
}

/// The JSON object a step encodes to: its method key first, then each
/// optional field, absent ones as null.
pub open spec fn json_of_item(it: TestItemView) -> JView {
    JView::Obj(
        seq![
            (it.request.method.name_of(), JView::Str(it.request.method.url_of())),
            ("title"@, match it.title {
                Some(t) => JView::Str(t),
                None => JView::Null,
            }),
            ("dump"@, match it.dump {
                Some(b) => JView::Bool(b),
                None => JView::Null,
            }),
            ("headers"@, match it.request.headers {
                Some(hs) => JView::Obj(
                    hs.map(|i: int, h: (Seq<char>, Seq<char>)| (h.0, JView::Str(h.1))),
                ),
                None => JView::Null,
            }),
            ("json"@, match it.request.json {
                Some(v) => v,
                None => JView::Null,
            }),
            ("asserts"@, match it.asserts {
                Some(av) => JView::Arr(av.map(|i: int, a: AssertView| json_of_assert(a))),
                None => JView::Null,
            }),
            ("exports"@, match it.exports {
                Some(ev) => JView::Obj(
                    ev.map(|i: int, e: (Seq<char>, Seq<char>)| (e.0, JView::Str(e.1))),
                ),
                None => JView::Null,
            }),
        ],
    )
}

/// The JSON array a whole plan encodes to.
pub open spec fn json_of_plan(p: Seq<TestItemView>) -> JView {
    JView::Arr(p.map(|i: int, it: TestItemView| json_of_item(it)))
}

// ---------------------------------------------------------------------------
// The round-trip law
// ---------------------------------------------------------------------------

proof fn reveal_keys()
    ensures
        "GET"@ != "title"@ && "GET"@ != "dump"@ && "GET"@ != "headers"@ && "GET"@ != "json"@
            && "GET"@ != "asserts"@ && "GET"@ != "exports"@,
        "POST"@ != "title"@ && "POST"@ != "dump"@ && "POST"@ != "headers"@ && "POST"@ != "json"@
            && "POST"@ != "asserts"@ && "POST"@ != "exports"@,
        "PUT"@ != "title"@ && "PUT"@ != "dump"@ && "PUT"@ != "headers"@ && "PUT"@ != "json"@
            && "PUT"@ != "asserts"@ && "PUT"@ != "exports"@,
        "DELETE"@ != "title"@ && "DELETE"@ != "dump"@ && "DELETE"@ != "headers"@ && "DELETE"@
            != "json"@ && "DELETE"@ != "asserts"@ && "DELETE"@ != "exports"@,
        !is_method_key("title"@) && !is_method_key("dump"@) && !is_method_key("headers"@)
            && !is_method_key("json"@) && !is_method_key("asserts"@) && !is_method_key(
            "exports"@,
        ),
        "title"@ != "dump"@ && "title"@ != "headers"@ && "title"@ != "json"@ && "title"@
            != "asserts"@ && "title"@ != "exports"@,
        "dump"@ != "headers"@ && "dump"@ != "json"@ && "dump"@ != "asserts"@ && "dump"@
            != "exports"@,
        "headers"@ != "json"@ && "headers"@ != "asserts"@ && "headers"@ != "exports"@,
        "json"@ != "asserts"@ && "json"@ != "exports"@,
        "asserts"@ != "exports"@,
        "GET"@ != "POST"@ && "GET"@ != "PUT"@ && "GET"@ != "DELETE"@ && "POST"@ != "PUT"@
            && "POST"@ != "DELETE"@ && "PUT"@ != "DELETE"@,
        is_method_key("GET"@) && is_method_key("POST"@) && is_method_key("PUT"@) && is_method_key(
            "DELETE"@,
        ),
{
    reveal_strlit("GET");
    reveal_strlit("POST");
    reveal_strlit("PUT");
    reveal_strlit("DELETE");
    reveal_strlit("title");
    reveal_strlit("dump");
    reveal_strlit("headers");
    reveal_strlit("json");
    reveal_strlit("asserts");
    reveal_strlit("exports");
    assert("GET"@.len() == 3 && "GET"@[0] == 'G');
    assert("POST"@.len() == 4 && "POST"@[0] == 'P');
    assert("PUT"@.len() == 3 && "PUT"@[0] == 'P' && "PUT"@[1] == 'U');
    assert("GET"@[1] == 'E');
    assert("DELETE"@.len() == 6 && "DELETE"@[0] == 'D');
    assert("title"@.len() == 5 && "title"@[0] == 't');
    assert("dump"@.len() == 4 && "dump"@[0] == 'd');
    assert("headers"@.len() == 7 && "headers"@[0] == 'h');
    assert("json"@.len() == 4 && "json"@[0] == 'j');
    assert("asserts"@.len() == 7 && "asserts"@[0] == 'a');
    assert("exports"@.len() == 7 && "exports"@[0] == 'e');
}

proof fn lemma_headers_round(hs: Seq<(Seq<char>, Seq<char>)>, i: int, acc: Seq<(Seq<char>, Seq<char>)>)
    requires
        0 <= i <= hs.len(),
    ensures
        headers_of(hs.map(|k: int, h: (Seq<char>, Seq<char>)| (h.0, JView::Str(h.1))), i, acc)
            == Some(acc + hs.skip(i)),
    decreases hs.len() - i,
{
    let hf = hs.map(|k: int, h: (Seq<char>, Seq<char>)| (h.0, JView::Str(h.1)));
    if i == hs.len() {
        assert(acc + hs.skip(i) =~= acc);
    } else {
        assert(hf[i] == (hs[i].0, JView::Str(hs[i].1)));
        lemma_headers_round(hs, i + 1, acc.push((hs[i].0, hs[i].1)));
        assert(acc.push((hs[i].0, hs[i].1)) =~= acc.push(hs[i]));
        assert(acc.push(hs[i]) + hs.skip(i + 1) =~= acc + hs.skip(i));
    }
}

proof fn lemma_exports_round(es: Seq<(Seq<char>, Seq<char>)>, i: int, acc: Seq<(Seq<char>, Seq<char>)>)
    requires
        0 <= i <= es.len(),
    ensures
        exports_of(es.map(|k: int, e: (Seq<char>, Seq<char>)| (e.0, JView::Str(e.1))), i, acc)
            == Some(acc + es.skip(i)),
    decreases es.len() - i,
{
    let ef = es.map(|k: int, e: (Seq<char>, Seq<char>)| (e.0, JView::Str(e.1)));
    if i == es.len() {
        assert(acc + es.skip(i) =~= acc);
    } else {
        assert(ef[i] == (es[i].0, JView::Str(es[i].1)));
        lemma_exports_round(es, i + 1, acc.push((es[i].0, es[i].1)));
        assert(acc.push((es[i].0, es[i].1)) =~= acc.push(es[i]));
        assert(acc.push(es[i]) + es.skip(i + 1) =~= acc + es.skip(i));
    }
}

proof fn lemma_assert_round(a: AssertView)
    ensures
        json_of_assert(a) matches JView::Obj(f) && f.len() == 1 && f[0].1 is Str && assert_of(
            f[0].0,
            f[0].1->Str_0,
        ) == Some(a),
{
    reveal_strlit("ok");
    reveal_strlit("array");
    reveal_strlit("empty");
    reveal_strlit("string");
    reveal_strlit("number");
    reveal_strlit("boolean");
    reveal_strlit("null");
    reveal_strlit("exists");
    reveal_strlit("date");
    reveal_strlit("notEmpty");
    assert("ok"@.len() == 2);
    assert("array"@.len() == 5 && "array"@[0] == 'a');
    assert("empty"@.len() == 5 && "empty"@[0] == 'e');
    assert("string"@.len() == 6 && "string"@[0] == 's');
    assert("number"@.len() == 6 && "number"@[0] == 'n');
    assert("boolean"@.len() == 7 && "boolean"@[0] == 'b');
    assert("null"@.len() == 4 && "null"@[0] == 'n');
    assert("exists"@.len() == 6 && "exists"@[0] == 'e');
    assert("date"@.len() == 4 && "date"@[0] == 'd');
    assert("notEmpty"@.len() == 8);
}

proof fn lemma_asserts_round(av: Seq<AssertView>, i: int, acc: Seq<AssertView>)
    requires
        0 <= i <= av.len(),
    ensures
        asserts_of(av.map(|k: int, a: AssertView| json_of_assert(a)), i, acc) == Some(
            acc + av.skip(i),
        ),
    decreases av.len() - i,
{
    let items = av.map(|k: int, a: AssertView| json_of_assert(a));
    if i == av.len() {
        assert(acc + av.skip(i) =~= acc);
    } else {
        assert(items[i] == json_of_assert(av[i]));
        lemma_assert_round(av[i]);
        lemma_asserts_round(av, i + 1, acc.push(av[i]));
        assert(acc.push(av[i]) + av.skip(i + 1) =~= acc + av.skip(i));
    }
}

/// A step model is canonical when its body is not the JSON value `null`
/// itself: the decoder reads a null `json` field as "no body", so no
/// decoded step ever carries `Some(JView::Null)` there.
pub open spec fn item_canonical(it: TestItemView) -> bool {
    it.request.json != Some(JView::Null)
}

pub open spec fn plan_canonical(p: Seq<TestItemView>) -> bool {
    forall|i: int| 0 <= i < p.len() ==> item_canonical(#[trigger] p[i])
}

/// One encoded step decodes back to itself.
proof fn lemma_item_round_trip(it: TestItemView)
    requires
        item_canonical(it),
    ensures
        item_of_json(json_of_item(it)) == Some(it),
{
    reveal_keys();
    reveal_with_fuel(vobj_get, 8);
    reveal_with_fuel(method_count, 8);
    let fields = json_of_item(it)->Obj_0;
    let mkey = it.request.method.name_of();
    assert(is_method_key(mkey));
    assert(method_count(fields, 0) == 1);
    assert(first_method_field(fields, 0) == Some(fields[0]));
    assert(method_of_field(fields[0].0, fields[0].1) == Some(it.request.method));
    assert(vobj_get(fields, "title"@) == Some(fields[1].1)) by {
        assert(fields.drop_last().drop_last().drop_last().drop_last().drop_last().last()
            == fields[1]);
    }
    assert(vobj_get(fields, "dump"@) == Some(fields[2].1)) by {
        assert(fields.drop_last().drop_last().drop_last().drop_last().last() == fields[2]);
    }
    assert(vobj_get(fields, "headers"@) == Some(fields[3].1)) by {
        assert(fields.drop_last().drop_last().drop_last().last() == fields[3]);
    }
    assert(vobj_get(fields, "json"@) == Some(fields[4].1)) by {
        assert(fields.drop_last().drop_last().last() == fields[4]);
    }
    assert(vobj_get(fields, "asserts"@) == Some(fields[5].1)) by {
        assert(fields.drop_last().last() == fields[5]);
    }
    assert(vobj_get(fields, "exports"@) == Some(fields[6].1));
    match it.request.headers {
        Some(hs) => {
            lemma_headers_round(hs, 0, Seq::empty());
            assert(Seq::empty() + hs.skip(0) =~= hs);
        },
        None => {},
    }
    match it.asserts {
        Some(av) => {
            lemma_asserts_round(av, 0, Seq::empty());
            assert(Seq::empty() + av.skip(0) =~= av);
        },
        None => {},
    }
    match it.exports {
        Some(es) => {
            lemma_exports_round(es, 0, Seq::empty());
            assert(Seq::empty() + es.skip(0) =~= es);
        },
        None => {},
    }
    assert(item_of_json(json_of_item(it)) == Some(
        TestItemView {
            title: it.title,
            dump: it.dump,
            request: RequestConfigView {
                method: it.request.method,
                headers: it.request.headers,
                json: it.request.json,
            },
            asserts: it.asserts,
            exports: it.exports,
        },
    ));
}

proof fn lemma_items_round(p: Seq<TestItemView>, i: int, acc: Seq<TestItemView>)
    requires
        0 <= i <= p.len(),
        plan_canonical(p),
    ensures
        items_of(p.map(|k: int, it: TestItemView| json_of_item(it)), i, acc) == Some(
            acc + p.skip(i),
        ),
    decreases p.len() - i,
{
    let items = p.map(|k: int, it: TestItemView| json_of_item(it));
    if i == p.len() {
        assert(acc + p.skip(i) =~= acc);
    } else {
        assert(items[i] == json_of_item(p[i]));
        lemma_item_round_trip(p[i]);
        lemma_items_round(p, i + 1, acc.push(p[i]));
        assert(acc.push(p[i]) + p.skip(i + 1) =~= acc + p.skip(i));
    }
}

/// Law: decoding a plan document, re-encoding it to JSON and decoding
/// again yields an equal plan — encoding and decoding are exact inverses
/// for every canonical plan (and every decoded plan is canonical, see
/// `lemma_decoded_plan_canonical`).
pub proof fn lemma_plan_round_trip(p: Seq<TestItemView>)
    requires
        plan_canonical(p),
    ensures
        plan_of_json(json_of_plan(p)) == Some(p),
{
    lemma_items_round(p, 0, Seq::empty());
    assert(Seq::empty() + p.skip(0) =~= p);
}

proof fn lemma_items_of_canonical(s: Seq<JView>, i: int, acc: Seq<TestItemView>, p: Seq<TestItemView>)
    requires
        0 <= i,
        items_of(s, i, acc) == Some(p),
        forall|k: int| 0 <= k < acc.len() ==> item_canonical(#[trigger] acc[k]),
    ensures
        plan_canonical(p),
    decreases s.len() - i,
{
    if i >= s.len() {
    } else {
        match item_of_json(s[i]) {
            Some(it) => {
                assert(item_canonical(it));
                lemma_items_of_canonical(s, i + 1, acc.push(it), p);
            },
            None => {},
        }
    }
}

/// Every plan that decoding produces is canonical, so the round-trip law
/// applies to it.
pub proof fn lemma_decoded_plan_canonical(j: JView, p: Seq<TestItemView>)
    requires
        plan_of_json(j) == Some(p),
    ensures
        plan_canonical(p),
{
    match j {
        JView::Arr(items) => {
            lemma_items_of_canonical(items, 0, Seq::empty(), p);
        },
        _ => {},
    }
}

// ---------------------------------------------------------------------------
// Executable decoding
// ---------------------------------------------------------------------------

proof fn lemma_vobj_get_view(fields: Seq<(String, JsonValue)>, k: Seq<char>)
    ensures
        vobj_get(jfield_views(fields), k) == match crate::paths::obj_get(fields, k) {
            Some(v) => Some(jview(v)),
            None => None::<JView>,
        },
    decreases fields.len(),
{
    if fields.len() == 0 {
    } else {
        assert(jfield_views(fields).last() == (fields.last().0@, jview(fields.last().1)));
        assert(jfield_views(fields).drop_last() =~= jfield_views(fields.drop_last()));
        lemma_vobj_get_view(fields.drop_last(), k);
    }
}

/// The last field named `k`, with its ghost meaning tied to `vobj_get`.
fn get_field<'a>(fields: &'a Vec<(String, JsonValue)>, k: &str) -> (r: Option<&'a JsonValue>)
    ensures
        match r {
            Some(v) => vobj_get(jfield_views(fields@), k@) == Some(jview(*v)),
            None => vobj_get(jfield_views(fields@), k@) is None,
        },
{
    proof {
        lemma_vobj_get_view(fields@, k@);
    }
    crate::paths::obj_get_exec(fields, k)
}

fn is_method_key_exec(k: &str) -> (r: bool)
    ensures
        r == is_method_key(k@),
{
    str_eq(k, "GET") || str_eq(k, "POST") || str_eq(k, "PUT") || str_eq(k, "DELETE")
}

fn err_text(msg: &str) -> (r: String)
    ensures
        true,
{
    msg.to_owned()
}

/// Decodes one step object.
#[verifier::rlimit(100)]
#[verifier::loop_isolation(false)]
pub fn decode_item(v: &JsonValue) -> (r: Result<TestItem, String>)
    ensures
        match r {
            Ok(it) => item_of_json(jview(*v)) == Some(it.view()),
            Err(_) => item_of_json(jview(*v)) is None,
        },
{
    let fields = match v {
        JsonValue::Obj(fields) => fields,
        _ => {
            return Err(err_text("plan step is not an object"));
        },
    };
    let ghost vf = jfield_views(fields@);
    let mut count: usize = 0;
    let mut midx: usize = 0;
    let mut i: usize = 0;
    while i < fields.len()
        invariant
            i <= fields@.len(),
            vf == jfield_views(fields@),
            count as int == method_count(vf, 0) - method_count(vf, i as int),
            count > 0 ==> midx < i && first_method_field(vf, 0) == Some(vf[midx as int])
                && is_method_key(vf[midx as int].0),
            count == 0 ==> first_method_field(vf, 0) == first_method_field(vf, i as int),
            count <= i,
        decreases fields@.len() - i,
    {
        proof {
            assert(vf[i as int] == (fields@[i as int].0@, jview(fields@[i as int].1)));
        }
        if is_method_key_exec(fields[i].0.as_str()) {
            if count == 0 {
                midx = i;
            }
            count = count + 1;
        }
        i = i + 1;
    }
    proof {
        assert(method_count(vf, fields@.len() as int) == 0);
    }
    if count != 1 {
        return Err(err_text("plan step must carry exactly one method"));
    }
    proof {
        assert(vf[midx as int] == (fields@[midx as int].0@, jview(fields@[midx as int].1)));
    }
    let mkey = &fields[midx].0;
    let url = match &fields[midx].1 {
        JsonValue::Str(u) => u.clone(),
        _ => {
            return Err(err_text("method value must be a URL string"));
        },
    };
    let method = if str_eq(mkey.as_str(), "GET") {
        HttpMethod::GET(url)
    } else if str_eq(mkey.as_str(), "POST") {
        HttpMethod::POST(url)
    } else if str_eq(mkey.as_str(), "PUT") {
        HttpMethod::PUT(url)
    } else {
        HttpMethod::DELETE(url)
    };
    let title = match get_field(fields, "title") {
        None => None,
        Some(JsonValue::Null) => None,
        Some(JsonValue::Str(t)) => Some(t.clone()),
        Some(_) => {
            return Err(err_text("title must be a string"));
        },
    };
    let dump = match get_field(fields, "dump") {
        None => None,
        Some(JsonValue::Null) => None,
        Some(JsonValue::Bool(b)) => Some(*b),
        Some(_) => {
            return Err(err_text("dump must be a boolean"));
        },
    };
    let headers = match get_field(fields, "headers") {
        None => None,
        Some(JsonValue::Null) => None,
        Some(JsonValue::Obj(hf)) => {
            let mut out: Vec<Header> = Vec::new();
            proof {
                assert(crate::model::header_views(out@) =~= Seq::<(Seq<char>, Seq<char>)>::empty());
            }
            let mut j: usize = 0;
            while j < hf.len()
                invariant
                    j <= hf@.len(),
                    headers_of(jfield_views(hf@), 0, Seq::empty()) == headers_of(
                        jfield_views(hf@),
                        j as int,
                        crate::model::header_views(out@),
                    ),
                decreases hf@.len() - j,
            {
                proof {
                    assert(jfield_views(hf@)[j as int] == (hf@[j as int].0@, jview(
                        hf@[j as int].1,
                    )));
                }
                match &hf[j].1 {
                    JsonValue::Str(s) => {
                        let ghost before = crate::model::header_views(out@);
                        out.push(Header { name: hf[j].0.clone(), value: s.clone() });
                        proof {
                            assert(crate::model::header_views(out@) =~= before.push(
                                (hf@[j as int].0@, s@),
                            ));
                        }
                    },
                    _ => {
                        return Err(err_text("header values must be strings"));
                    },
                }
                j = j + 1;
            }
            Some(out)
        },
        Some(_) => {
            return Err(err_text("headers must be an object"));
        },
    };
    let json = match get_field(fields, "json") {
        None => None,
        Some(JsonValue::Null) => None,
        Some(other) => Some(crate::json::clone_json(other)),
    };
    let asserts = match get_field(fields, "asserts") {
        None => None,
        Some(JsonValue::Null) => None,
        Some(JsonValue::Arr(items)) => {
            let mut out: Vec<Assert> = Vec::new();
            proof {
                assert(crate::model::assert_views(out@) =~= Seq::<AssertView>::empty());
            }
            let mut j: usize = 0;
            while j < items.len()
                invariant
                    j <= items@.len(),
                    asserts_of(jviews(items@), 0, Seq::empty()) == asserts_of(
                        jviews(items@),
                        j as int,
                        crate::model::assert_views(out@),
                    ),
                decreases items@.len() - j,
            {
                proof {
                    assert(jviews(items@)[j as int] == jview(items@[j as int]));
                }
                let f = match &items[j] {
                    JsonValue::Obj(f) => f,
                    _ => {
                        return Err(err_text("an assertion must be an object"));
                    },
                };
                if f.len() != 1 {
                    return Err(err_text("an assertion must have exactly one kind"));
                }
                proof {
                    assert(jfield_views(f@)[0] == (f@[0].0@, jview(f@[0].1)));
                }
                let arg = match &f[0].1 {
                    JsonValue::Str(arg) => arg.clone(),
                    _ => {
                        return Err(err_text("an assertion argument must be a string"));
                    },
                };
                let kind = f[0].0.as_str();
                let a = if str_eq(kind, "ok") {
                    Assert::IsOk(arg)
                } else if str_eq(kind, "array") {
                    Assert::IsArray(arg)
                } else if str_eq(kind, "empty") {
                    Assert::IsEmpty(arg)
                } else if str_eq(kind, "string") {
                    Assert::IsString(arg)
                } else if str_eq(kind, "number") {
                    Assert::IsNumber(arg)
                } else if str_eq(kind, "boolean") {
                    Assert::IsBoolean(arg)
                } else if str_eq(kind, "null") {
                    Assert::IsNull(arg)
                } else if str_eq(kind, "exists") {
                    Assert::Exists(arg)
                } else if str_eq(kind, "date") {
                    Assert::IsDate(arg)
                } else if str_eq(kind, "notEmpty") {
                    Assert::NotEmpty(arg)
                } else {
                    return Err(err_text("unknown assertion kind"));
                };
                let ghost before = crate::model::assert_views(out@);
                let ghost av = a.view();
                out.push(a);
                proof {
                    assert(crate::model::assert_views(out@) =~= before.push(av));
                }
                j = j + 1;
            }
            Some(out)
        },
        Some(_) => {
            return Err(err_text("asserts must be an array"));
        },
    };
    let exports = match get_field(fields, "exports") {
        None => None,
        Some(JsonValue::Null) => None,
        Some(JsonValue::Obj(ef)) => {
            let mut out: Vec<(String, String)> = Vec::new();
            proof {
                assert(crate::model::export_views(out@) =~= Seq::<(Seq<char>, Seq<char>)>::empty());
            }
            let mut j: usize = 0;
            while j < ef.len()
                invariant
                    j <= ef@.len(),
                    exports_of(jfield_views(ef@), 0, Seq::empty()) == exports_of(
                        jfield_views(ef@),
                        j as int,
                        crate::model::export_views(out@),
                    ),
                decreases ef@.len() - j,
            {
                proof {
                    assert(jfield_views(ef@)[j as int] == (ef@[j as int].0@, jview(
                        ef@[j as int].1,
                    )));
                }
                match &ef[j].1 {
                    JsonValue::Str(s) => {
                        let ghost before = crate::model::export_views(out@);
                        out.push((ef[j].0.clone(), s.clone()));
                        proof {
                            assert(crate::model::export_views(out@) =~= before.push(
                                (ef@[j as int].0@, s@),
                            ));
                        }
                    },
                    _ => {
                        return Err(err_text("export paths must be strings"));
                    },
                }
                j = j + 1;
            }
            Some(out)
        },
        Some(_) => {
            return Err(err_text("exports must be an object"));
        },
    };
    Ok(
        TestItem {
            title,
            dump,
            request: RequestConfig { http_method: method, headers, json },
            asserts,
            exports,
        },
    )
}

/// Decodes a whole plan from its JSON value: an array of step objects.
#[verifier::loop_isolation(false)]
pub fn decode_plan(v: &JsonValue) -> (r: Result<Vec<TestItem>, String>)
    ensures
        match r {
            Ok(items) => plan_of_json(jview(*v)) == Some(crate::model::item_views(items@)),
            Err(_) => plan_of_json(jview(*v)) is None,
        },
{
    let items = match v {
        JsonValue::Arr(items) => items,
        _ => {
            return Err(err_text("a plan must be an array of steps"));
        },
    };
    let mut out: Vec<TestItem> = Vec::new();
    proof {
        assert(crate::model::item_views(out@) =~= Seq::<TestItemView>::empty());
    }
    let mut i: usize = 0;
    while i < items.len()
        invariant
            i <= items@.len(),
            items_of(jviews(items@), 0, Seq::empty()) == items_of(
                jviews(items@),
                i as int,
                crate::model::item_views(out@),
            ),
        decreases items@.len() - i,
    {
        proof {
            assert(jviews(items@)[i as int] == jview(items@[i as int]));
        }
        match decode_item(&items[i]) {
            Ok(it) => {
                let ghost before = crate::model::item_views(out@);
                let ghost iv = it.view();
                out.push(it);
                proof {
                    assert(crate::model::item_views(out@) =~= before.push(iv));
                }
            },
            Err(e) => {
                return Err(e);
            },
        }
        i = i + 1;
    }
    Ok(out)
}

/// The plan a JSON document text denotes.
pub open spec fn plan_of_text(t: Seq<char>) -> Option<Seq<TestItemView>> {
    match crate::jsonparse::json_parse_text(t) {
        Some(j) => plan_of_json(j),
        None => None,
    }
}

/// Decodes a plan from YAML text: the document is read as YAML, rewritten
/// as JSON, and decoded like a JSON plan.
pub fn decode_plan_yaml(text: &str) -> (r: Result<Vec<TestItem>, String>)
    ensures
        match r {
            Ok(items) => {
                &&& crate::wrappers::yaml_as_json(text@) is Some
                &&& plan_of_text(crate::wrappers::yaml_as_json(text@).unwrap()) == Some(
                    crate::model::item_views(items@),
                )
            },
            Err(_) => {
                ||| crate::wrappers::yaml_as_json(text@) is None
                ||| plan_of_text(crate::wrappers::yaml_as_json(text@).unwrap()) is None
            },
        },
{
    match crate::wrappers::yaml_to_json_text(text) {
        Ok(jtext) => match crate::jsonparse::parse_json(jtext.as_str()) {
            Some(v) => decode_plan(&v),
            None => Err(err_text("plan document is not well-formed JSON")),
        },
        Err(e) => Err(e),
    }
}

/// Decodes a plan from JSON text: a parse failure or a malformed plan is
/// a `ParseError` carried as its message.
pub fn decode_plan_json(text: &str) -> (r: Result<Vec<TestItem>, String>)
    ensures
        match r {
            Ok(items) => {
                &&& crate::jsonparse::json_parse_text(text@) is Some
                &&& plan_of_json(crate::jsonparse::json_parse_text(text@).unwrap()) == Some(
                    crate::model::item_views(items@),
                )
            },
            Err(_) => {
                ||| crate::jsonparse::json_parse_text(text@) is None
                ||| plan_of_json(crate::jsonparse::json_parse_text(text@).unwrap()) is None
            },
        },
{
    match crate::jsonparse::parse_json(text) {
        Some(v) => decode_plan(&v),
        None => Err(err_text("plan document is not well-formed JSON")),
    }
}

// ---------------------------------------------------------------------------
// Executable encoding
// ---------------------------------------------------------------------------

fn single_field_obj(kind: &str, arg: &String) -> (r: JsonValue)
    ensures
        jview(r) == JView::Obj(seq![(kind@, JView::Str(arg@))]),
{
    let mut f: Vec<(String, JsonValue)> = Vec::new();
    f.push((kind.to_owned(), JsonValue::Str(arg.clone())));
    proof {
        assert(jfield_views(f@) =~= seq![(kind@, JView::Str(arg@))]);
    }
    JsonValue::Obj(f)
}

fn encode_assert(a: &Assert) -> (r: JsonValue)
    ensures
        jview(r) == json_of_assert(a.view()),
{
    match a {
        Assert::IsOk(s) => single_field_obj("ok", s),
        Assert::IsArray(s) => single_field_obj("array", s),
        Assert::IsEmpty(s) => single_field_obj("empty", s),
        Assert::IsString(s) => single_field_obj("string", s),
        Assert::IsNumber(s) => single_field_obj("number", s),
        Assert::IsBoolean(s) => single_field_obj("boolean", s),
        Assert::IsNull(s) => single_field_obj("null", s),
        Assert::Exists(s) => single_field_obj("exists", s),
        Assert::IsDate(s) => single_field_obj("date", s),
        Assert::NotEmpty(s) => single_field_obj("notEmpty", s),
    }
}

/// Encodes one step back to its JSON object.
#[verifier::rlimit(100)]
#[verifier::loop_isolation(false)]
pub fn encode_item(it: &TestItem) -> (r: JsonValue)
    ensures
        jview(r) == json_of_item(it.view()),
{
    let mut fields: Vec<(String, JsonValue)> = Vec::new();
    let mname = it.request.http_method.name();
    let url = it.request.http_method.url().clone();
    fields.push((mname.to_owned(), JsonValue::Str(url)));
    let title_v = match &it.title {
        Some(t) => JsonValue::Str(t.clone()),
        None => JsonValue::Null,
    };
    fields.push(("title".to_owned(), title_v));
    let dump_v = match it.dump {
        Some(b) => JsonValue::Bool(b),
        None => JsonValue::Null,
    };
    fields.push(("dump".to_owned(), dump_v));
    let headers_v = match &it.request.headers {
        Some(hs) => {
            let mut hv: Vec<(String, JsonValue)> = Vec::new();
            let mut i: usize = 0;
            while i < hs.len()
                invariant
                    i <= hs@.len(),
                    jfield_views(hv@).len() == i,
                    forall|k: int|
                        0 <= k < i ==> jfield_views(hv@)[k] == (hs@[k].name@, JView::Str(
                            hs@[k].value@,
                        )),
                decreases hs@.len() - i,
            {
                let ghost before = jfield_views(hv@);
                hv.push((hs[i].name.clone(), JsonValue::Str(hs[i].value.clone())));
                proof {
                    assert(jfield_views(hv@) =~= before.push(
                        (hs@[i as int].name@, JView::Str(hs@[i as int].value@)),
                    ));
                }
                i = i + 1;
            }
            proof {
                assert(jfield_views(hv@) =~= crate::model::header_views(hs@).map(
                    |i: int, h: (Seq<char>, Seq<char>)| (h.0, JView::Str(h.1)),
                ));
            }
            JsonValue::Obj(hv)
        },
        None => JsonValue::Null,
    };
    fields.push(("headers".to_owned(), headers_v));
    let json_v = match &it.request.json {
        Some(v) => crate::json::clone_json(v),
        None => JsonValue::Null,
    };
    fields.push(("json".to_owned(), json_v));
    let asserts_v = match &it.asserts {
        Some(av) => {
            let mut avv: Vec<JsonValue> = Vec::new();
            let mut i: usize = 0;
            while i < av.len()
                invariant
                    i <= av@.len(),
                    jviews(avv@).len() == i,
                    forall|k: int|
                        0 <= k < i ==> jviews(avv@)[k] == json_of_assert(av@[k].view()),
                decreases av@.len() - i,
            {
                let ghost before = jviews(avv@);
                let enc = encode_assert(&av[i]);
                let ghost ev2 = jview(enc);
                avv.push(enc);
                proof {
                    assert(jviews(avv@) =~= before.push(ev2));
                }
                i = i + 1;
            }
            proof {
                assert(jviews(avv@) =~= crate::model::assert_views(av@).map(
                    |i: int, a: AssertView| json_of_assert(a),
                ));
            }
            JsonValue::Arr(avv)
        },
        None => JsonValue::Null,
    };
    fields.push(("asserts".to_owned(), asserts_v));
    let exports_v = match &it.exports {
        Some(ev) => {
            let mut evv: Vec<(String, JsonValue)> = Vec::new();
            let mut i: usize = 0;
            while i < ev.len()
                invariant
                    i <= ev@.len(),
                    jfield_views(evv@).len() == i,
                    forall|k: int|
                        0 <= k < i ==> jfield_views(evv@)[k] == (ev@[k].0@, JView::Str(ev@[k].1@)),
                decreases ev@.len() - i,
            {
                let ghost before = jfield_views(evv@);
                evv.push((ev[i].0.clone(), JsonValue::Str(ev[i].1.clone())));
                proof {
                    assert(jfield_views(evv@) =~= before.push(
                        (ev@[i as int].0@, JView::Str(ev@[i as int].1@)),
                    ));
                }
                i = i + 1;
            }
            proof {
                assert(jfield_views(evv@) =~= crate::model::export_views(ev@).map(
                    |i: int, e: (Seq<char>, Seq<char>)| (e.0, JView::Str(e.1)),
                ));
            }
            JsonValue::Obj(evv)
        },
        None => JsonValue::Null,
    };
    fields.push(("exports".to_owned(), exports_v));
    proof {
        assert(jfield_views(fields@) =~= json_of_item(it.view())->Obj_0);
    }
    JsonValue::Obj(fields)
}

/// Encodes a whole plan back to its JSON array.
#[verifier::loop_isolation(false)]
pub fn encode_plan(items: &Vec<TestItem>) -> (r: JsonValue)
    ensures
        jview(r) == json_of_plan(crate::model::item_views(items@)),
{
    let mut out: Vec<JsonValue> = Vec::new();
    proof {
        assert(jviews(out@) =~= Seq::<JView>::empty());
    }
    let mut i: usize = 0;
    while i < items.len()
        invariant
            i <= items@.len(),
            jviews(out@).len() == i,
            forall|k: int| 0 <= k < i ==> jviews(out@)[k] == json_of_item(items@[k].view()),
        decreases items@.len() - i,
    {
        let ghost before = jviews(out@);
        let enc = encode_item(&items[i]);
        let ghost ev2 = jview(enc);
        out.push(enc);
        proof {
            assert(jviews(out@) =~= before.push(ev2));
        }
        i = i + 1;
    }
    proof {
        assert(jviews(out@) =~= crate::model::item_views(items@).map(
            |i: int, it: TestItemView| json_of_item(it),
        ));
    }
    JsonValue::Arr(out)
}

/// The compact JSON text a plan re-encodes to.
pub fn plan_to_json_text(items: &Vec<TestItem>) -> (r: String)
    ensures
        r@ == crate::json::json_text_v(json_of_plan(crate::model::item_views(items@))),
{
    crate::json::json_to_string(&encode_plan(items))
}

} // verus!
