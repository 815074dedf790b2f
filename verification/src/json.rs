//! The engine's JSON value model and its canonical compact serialization.
//!
//! JSON numbers that fit in `i64` are held as integers; any other number
//! keeps its literal text (`NumText`), so no value is lost and the engine
//! never computes with non-integral numbers.

use vstd::prelude::*;
use crate::strutil::{chars_to_string, push_char, str_chars};

verus! {

pub enum JsonValue {
    Null,
    Bool(bool),
    Int(i64),
    NumText(String),
    Str(String),
    Arr(Vec<JsonValue>),
    Obj(Vec<(String, JsonValue)>),
}

/// The ghost form of a JSON value: strings as character sequences,
/// integers unbounded. Contracts that need to spell out a JSON shape are
/// stated over this form.
#[verifier::ext_equal]
pub enum JView {
    Null,
    Bool(bool),
    Int(int),
    NumText(Seq<char>),
    Str(Seq<char>),
    Arr(Seq<JView>),
    Obj(Seq<(Seq<char>, JView)>),
}

/// The ghost forms of a sequence of JSON values.
pub open spec fn jviews(s: Seq<JsonValue>) -> Seq<JView>
    decreases s,
{
    Seq::new(
        s.len(),
        |i: int|
            if 0 <= i < s.len() {
                jview(s[i])
            } else {
                JView::Null
            },
    )
}

/// The ghost forms of an object's fields.
pub open spec fn jfield_views(s: Seq<(String, JsonValue)>) -> Seq<(Seq<char>, JView)>
    decreases s,
{
    Seq::new(
        s.len(),
        |i: int|
            if 0 <= i < s.len() {
                (s[i].0@, jview(s[i].1))
            } else {
                (Seq::empty(), JView::Null)
            },
    )
}

/// The ghost form of a JSON value.
pub open spec fn jview(v: JsonValue) -> JView
    decreases v,
{
    match v {
        JsonValue::Null => JView::Null,
        JsonValue::Bool(b) => JView::Bool(b),
        JsonValue::Int(i) => JView::Int(i as int),
        JsonValue::NumText(s) => JView::NumText(s@),
        JsonValue::Str(s) => JView::Str(s@),
        JsonValue::Arr(items) => JView::Arr(jviews(items@)),
        JsonValue::Obj(fields) => JView::Obj(jfield_views(fields@)),
    }
}

/// A copy of `v` with the same ghost form.
pub fn clone_json(v: &JsonValue) -> (r: JsonValue)
    ensures
        jview(r) == jview(*v),
    decreases *v, 0int,
{
    match v {
        JsonValue::Null => JsonValue::Null,
        JsonValue::Bool(b) => JsonValue::Bool(*b),
        JsonValue::Int(i) => JsonValue::Int(*i),
        JsonValue::NumText(s) => JsonValue::NumText(s.clone()),
        JsonValue::Str(s) => JsonValue::Str(s.clone()),
        JsonValue::Arr(items) => {
            let mut out: Vec<JsonValue> = Vec::new();
            clone_arr_into(items, 0, &mut out);
            proof {
                assert(items@.skip(0) =~= items@);
                assert(jviews(out@) =~= jviews(items@));
            }
            JsonValue::Arr(out)
        },
        JsonValue::Obj(fields) => {
            let mut out: Vec<(String, JsonValue)> = Vec::new();
            clone_obj_into(fields, 0, &mut out);
            proof {
                assert(fields@.skip(0) =~= fields@);
                assert(jfield_views(out@) =~= jfield_views(fields@));
            }
            JsonValue::Obj(out)
        },
    }
}

proof fn lemma_jviews_cons(x: JsonValue, rest: Seq<JsonValue>)
    ensures
        jviews(seq![x] + rest) == seq![jview(x)] + jviews(rest),
{
    assert forall|k: int| 0 <= k < rest.len() + 1 implies jviews(seq![x] + rest)[k] == (seq![
        jview(x),
    ] + jviews(rest))[k] by {
        if k == 0 {
            assert((seq![x] + rest)[0] == x);
        } else {
            assert((seq![x] + rest)[k] == rest[k - 1]);
        }
    };
    assert(jviews(seq![x] + rest) =~= seq![jview(x)] + jviews(rest));
}

proof fn lemma_jfield_views_cons(x: (String, JsonValue), rest: Seq<(String, JsonValue)>)
    ensures
        jfield_views(seq![x] + rest) == seq![(x.0@, jview(x.1))] + jfield_views(rest),
{
    assert forall|k: int| 0 <= k < rest.len() + 1 implies jfield_views(seq![x] + rest)[k] == (seq![
        (x.0@, jview(x.1)),
    ] + jfield_views(rest))[k] by {
        if k == 0 {
            assert((seq![x] + rest)[0] == x);
        } else {
            assert((seq![x] + rest)[k] == rest[k - 1]);
        }
    };
    assert(jfield_views(seq![x] + rest) =~= seq![(x.0@, jview(x.1))] + jfield_views(rest));
}

fn clone_arr_into(items: &Vec<JsonValue>, from: usize, out: &mut Vec<JsonValue>)
    requires
        from <= items@.len(),
    ensures
        jviews(final(out)@) == jviews(old(out)@) + jviews(items@.skip(from as int)),
    decreases items, items@.len() - from,
{
    if from == items.len() {
        proof {
            assert(items@.skip(from as int) =~= Seq::<JsonValue>::empty());
            assert(jviews(Seq::<JsonValue>::empty()) =~= Seq::<JView>::empty());
            assert(jviews(out@) =~= jviews(out@) + jviews(items@.skip(from as int)));
        }
        return;
    }
    let c = clone_json(&items[from]);
    let ghost cv = jview(c);
    out.push(c);
    proof {
        assert(jviews(out@) =~= jviews(old(out)@).push(cv));
    }
    clone_arr_into(items, from + 1, out);
    proof {
        assert(items@.skip(from as int) =~= seq![items@[from as int]] + items@.skip(
            from as int + 1,
        ));
        lemma_jviews_cons(items@[from as int], items@.skip(from as int + 1));
        assert(jviews(final(out)@) =~= jviews(old(out)@) + jviews(items@.skip(from as int)));
    }
}

fn clone_obj_into(
    fields: &Vec<(String, JsonValue)>,
    from: usize,
    out: &mut Vec<(String, JsonValue)>,
)
    requires
        from <= fields@.len(),
    ensures
        jfield_views(final(out)@) == jfield_views(old(out)@) + jfield_views(
            fields@.skip(from as int),
        ),
    decreases fields, fields@.len() - from,
{
    if from == fields.len() {
        proof {
            assert(fields@.skip(from as int) =~= Seq::<(String, JsonValue)>::empty());
            assert(jfield_views(Seq::<(String, JsonValue)>::empty()) =~= Seq::<(
                Seq<char>,
                JView,
            )>::empty());
            assert(jfield_views(out@) =~= jfield_views(out@) + jfield_views(
                fields@.skip(from as int),
            ));
        }
        return;
    }
    let k2 = fields[from].0.clone();
    let c = clone_json(&fields[from].1);
    let ghost cv = (k2@, jview(c));
    out.push((k2, c));
    proof {
        assert(jfield_views(out@) =~= jfield_views(old(out)@).push(cv));
    }
    clone_obj_into(fields, from + 1, out);
    proof {
        assert(fields@.skip(from as int) =~= seq![fields@[from as int]] + fields@.skip(
            from as int + 1,
        ));
        lemma_jfield_views_cons(fields@[from as int], fields@.skip(from as int + 1));
        assert(jfield_views(final(out)@) =~= jfield_views(old(out)@) + jfield_views(
            fields@.skip(from as int),
        ));
    }
}

/// The decimal digit character for `d` (0 to 9).
pub open spec fn digit_char(d: int) -> char {
    if d == 0 { '0' }
    else if d == 1 { '1' }
    else if d == 2 { '2' }
    else if d == 3 { '3' }
    else if d == 4 { '4' }
    else if d == 5 { '5' }
    else if d == 6 { '6' }
    else if d == 7 { '7' }
    else if d == 8 { '8' }
    else { '9' }
}

/// The lowercase hexadecimal digit character for `d` (0 to 15).
pub open spec fn hex_char(d: int) -> char {
    if d == 10 { 'a' }
    else if d == 11 { 'b' }
    else if d == 12 { 'c' }
    else if d == 13 { 'd' }
    else if d == 14 { 'e' }
    else if d == 15 { 'f' }
    else { digit_char(d) }
}

/// Decimal text of a non-negative integer, without sign.
pub open spec fn nat_text(n: int) -> Seq<char>
    decreases n,
{
    if n < 10 {
        seq![digit_char(n)]
    } else {
        nat_text(n / 10) + seq![digit_char(n % 10)]
    }
}

/// Decimal text of an integer, with a leading minus sign when negative.
pub open spec fn int_text(i: int) -> Seq<char> {
    if i < 0 {
        seq!['-'] + nat_text(-i)
    } else {
        nat_text(i)
    }
}

/// The JSON escape of one character inside a string literal.
pub open spec fn escape_char(c: char) -> Seq<char> {
    if c == '"' { seq!['\\', '"'] }
    else if c == '\\' { seq!['\\', '\\'] }
    else if c == '\n' { seq!['\\', 'n'] }
    else if c == '\r' { seq!['\\', 'r'] }
    else if c == '\t' { seq!['\\', 't'] }
    else if c == '\u{8}' { seq!['\\', 'b'] }
    else if c == '\u{c}' { seq!['\\', 'f'] }
    else if (c as u32) < 32 {
        seq!['\\', 'u', '0', '0', hex_char((c as u32) as int / 16), hex_char((c as u32) as int % 16)]
    } else {
        seq![c]
    }
}

/// The body of a JSON string literal: every character escaped, from `from` on.
pub open spec fn escape_text(s: Seq<char>, from: int) -> Seq<char>
    decreases s.len() - from,
{
    if from < 0 || from >= s.len() {
        Seq::empty()
    } else {
        escape_char(s[from]) + escape_text(s, from + 1)
    }
}

/// A JSON string literal: quotes around the escaped contents.
pub open spec fn quoted_text(s: Seq<char>) -> Seq<char> {
    seq!['"'] + escape_text(s, 0) + seq!['"']
}

/// Compact JSON text of a value, by its ghost form: no whitespace, fields
/// in stored order.
pub open spec fn json_text_v(v: JView) -> Seq<char>
    decreases v, 0int,
{
    match v {
        JView::Null => seq!['n', 'u', 'l', 'l'],
        JView::Bool(b) => if b {
            seq!['t', 'r', 'u', 'e']
        } else {
            seq!['f', 'a', 'l', 's', 'e']
        },
        JView::Int(i) => int_text(i),
        JView::NumText(s) => s,
        JView::Str(s) => quoted_text(s),
        JView::Arr(items) => seq!['['] + arr_text(items, 0) + seq![']'],
        JView::Obj(fields) => seq!['{'] + obj_text(fields, 0) + seq!['}'],
    }
}

/// Compact JSON text of a value.
pub open spec fn json_text(v: JsonValue) -> Seq<char> {
    json_text_v(jview(v))
}

/// Comma-separated compact texts of the array elements from `from` on.
pub open spec fn arr_text(items: Seq<JView>, from: int) -> Seq<char>
    decreases items, items.len() - from,
{
    if from < 0 || from >= items.len() {
        Seq::empty()
    } else if from == items.len() - 1 {
        json_text_v(items[from])
    } else {
        json_text_v(items[from]) + seq![','] + arr_text(items, from + 1)
    }
}

/// Comma-separated `"key":value` texts of the object fields from `from` on.
pub open spec fn obj_text(fields: Seq<(Seq<char>, JView)>, from: int) -> Seq<char>
    decreases fields, fields.len() - from,
{
    if from < 0 || from >= fields.len() {
        Seq::empty()
    } else if from == fields.len() - 1 {
        quoted_text(fields[from].0) + seq![':'] + json_text_v(fields[from].1)
    } else {
        quoted_text(fields[from].0) + seq![':'] + json_text_v(fields[from].1) + seq![',']
            + obj_text(fields, from + 1)
    }
}

/// How a JSON value substitutes into a template: a string contributes its
/// bare contents, any other value its compact JSON text.
pub open spec fn render_text(v: JsonValue) -> Seq<char> {
    match jview(v) {
        JView::Str(s) => s,
        _ => json_text(v),
    }
}

fn digit_char_exec(d: u64) -> (c: char)
    requires
        d < 10,
    ensures
        c == digit_char(d as int),
{
    if d == 0 { '0' }
    else if d == 1 { '1' }
    else if d == 2 { '2' }
    else if d == 3 { '3' }
    else if d == 4 { '4' }
    else if d == 5 { '5' }
    else if d == 6 { '6' }
    else if d == 7 { '7' }
    else if d == 8 { '8' }
    else { '9' }
}

fn hex_char_exec(d: u32) -> (c: char)
    requires
        d < 16,
    ensures
        c == hex_char(d as int),
{
    if d == 10 { 'a' }
    else if d == 11 { 'b' }
    else if d == 12 { 'c' }
    else if d == 13 { 'd' }
    else if d == 14 { 'e' }
    else if d == 15 { 'f' }
    else { digit_char_exec(d as u64) }
}

pub(crate) fn write_nat(n: u64, out: &mut Vec<char>)
    ensures
        final(out)@ == old(out)@ + nat_text(n as int),
    decreases n,
{
    if n < 10 {
        out.push(digit_char_exec(n));
    } else {
        write_nat(n / 10, out);
        out.push(digit_char_exec(n % 10));
        proof {
            assert(final(out)@ =~= old(out)@ + nat_text(n as int));
        }
    }
}

fn write_int(i: i64, out: &mut Vec<char>)
    ensures
        final(out)@ == old(out)@ + int_text(i as int),
{
    if i < 0 {
        out.push('-');
        let m: u64 = ((-(i + 1)) as u64) + 1;
        write_nat(m, out);
        proof {
            assert(m as int == -(i as int));
            assert(final(out)@ =~= old(out)@ + int_text(i as int));
        }
    } else {
        write_nat(i as u64, out);
    }
}

fn write_escaped(s: &Vec<char>, from: usize, out: &mut Vec<char>)
    requires
        from <= s@.len(),
    ensures
        final(out)@ == old(out)@ + escape_text(s@, from as int),
    decreases s@.len() - from,
{
    if from == s.len() {
        proof {
            assert(final(out)@ =~= old(out)@ + escape_text(s@, from as int));
        }
        return;
    }
    let c = s[from];
    if c == '"' {
        out.push('\\');
        out.push('"');
    } else if c == '\\' {
        out.push('\\');
        out.push('\\');
    } else if c == '\n' {
        out.push('\\');
        out.push('n');
    } else if c == '\r' {
        out.push('\\');
        out.push('r');
    } else if c == '\t' {
        out.push('\\');
        out.push('t');
    } else if c == '\u{8}' {
        out.push('\\');
        out.push('b');
    } else if c == '\u{c}' {
        out.push('\\');
        out.push('f');
    } else if (c as u32) < 32 {
        out.push('\\');
        out.push('u');
        out.push('0');
        out.push('0');
        out.push(hex_char_exec((c as u32) / 16));
        out.push(hex_char_exec((c as u32) % 16));
    } else {
        out.push(c);
    }
    proof {
        assert(out@ =~= old(out)@ + escape_char(s@[from as int]));
    }
    write_escaped(s, from + 1, out);
    proof {
        assert(final(out)@ =~= old(out)@ + escape_text(s@, from as int));
    }
}

fn write_string_literal(s: &String, out: &mut Vec<char>)
    ensures
        final(out)@ == old(out)@ + quoted_text(s@),
{
    let cs = str_chars(s.as_str());
    out.push('"');
    write_escaped(&cs, 0, out);
    out.push('"');
    proof {
        assert(final(out)@ =~= old(out)@ + quoted_text(s@));
    }
}

/// Writes the compact JSON text of `v` onto `out`.
fn write_json(v: &JsonValue, out: &mut Vec<char>)
    ensures
        final(out)@ == old(out)@ + json_text(*v),
    decreases *v, 0int,
{
    match v {
        JsonValue::Null => {
            out.push('n');
            out.push('u');
            out.push('l');
            out.push('l');
            proof {
                assert(final(out)@ =~= old(out)@ + json_text(*v));
            }
        },
        JsonValue::Bool(b) => {
            if *b {
                out.push('t');
                out.push('r');
                out.push('u');
                out.push('e');
            } else {
                out.push('f');
                out.push('a');
                out.push('l');
                out.push('s');
                out.push('e');
            }
            proof {
                assert(final(out)@ =~= old(out)@ + json_text(*v));
            }
        },
        JsonValue::Int(i) => {
            write_int(*i, out);
        },
        JsonValue::NumText(s) => {
            let cs = str_chars(s.as_str());
            let mut i: usize = 0;
            while i < cs.len()
                invariant
                    i <= cs@.len(),
                    out@ == old(out)@ + cs@.take(i as int),
                decreases cs@.len() - i,
            {
                out.push(cs[i]);
                i = i + 1;
                proof {
                    assert(out@ =~= old(out)@ + cs@.take(i as int));
                }
            }
            proof {
                assert(cs@.take(cs@.len() as int) =~= cs@);
                assert(final(out)@ =~= old(out)@ + json_text(*v));
            }
        },
        JsonValue::Str(s) => {
            write_string_literal(s, out);
        },
        JsonValue::Arr(items) => {
            out.push('[');
            write_arr(items, 0, out);
            out.push(']');
            proof {
                assert(final(out)@ =~= old(out)@ + json_text(*v));
            }
        },
        JsonValue::Obj(fields) => {
            out.push('{');
            write_obj(fields, 0, out);
            out.push('}');
            proof {
                assert(final(out)@ =~= old(out)@ + json_text(*v));
            }
        },
    }
}

fn write_arr(items: &Vec<JsonValue>, from: usize, out: &mut Vec<char>)
    requires
        from <= items@.len(),
    ensures
        final(out)@ == old(out)@ + arr_text(jviews(items@), from as int),
    decreases items, items@.len() - from,
{
    proof {
        assert(jviews(items@).len() == items@.len());
    }
    if from == items.len() {
        proof {
            assert(final(out)@ =~= old(out)@ + arr_text(jviews(items@), from as int));
        }
        return;
    }
    proof {
        assert(jviews(items@)[from as int] == jview(items@[from as int]));
    }
    write_json(&items[from], out);
    if from + 1 < items.len() {
        out.push(',');
        write_arr(items, from + 1, out);
    }
    proof {
        assert(final(out)@ =~= old(out)@ + arr_text(jviews(items@), from as int));
    }
}

fn write_obj(fields: &Vec<(String, JsonValue)>, from: usize, out: &mut Vec<char>)
    requires
        from <= fields@.len(),
    ensures
        final(out)@ == old(out)@ + obj_text(jfield_views(fields@), from as int),
    decreases fields, fields@.len() - from,
{
    proof {
        assert(jfield_views(fields@).len() == fields@.len());
    }
    if from == fields.len() {
        proof {
            assert(final(out)@ =~= old(out)@ + obj_text(jfield_views(fields@), from as int));
        }
        return;
    }
    proof {
        assert(jfield_views(fields@)[from as int] == (fields@[from as int].0@, jview(
            fields@[from as int].1,
        )));
    }
    write_string_literal(&fields[from].0, out);
    out.push(':');
    write_json(&fields[from].1, out);
    if from + 1 < fields.len() {
        out.push(',');
        write_obj(fields, from + 1, out);
    }
    proof {
        assert(final(out)@ =~= old(out)@ + obj_text(jfield_views(fields@), from as int));
    }
}

/// The compact JSON text of a value, as a `String`.
pub fn json_to_string(v: &JsonValue) -> (r: String)
    ensures
        r@ == json_text(*v),
{
    let mut out: Vec<char> = Vec::new();
    write_json(v, &mut out);
    chars_to_string(&out)
}

/// The substitution text of a value: bare contents for a string, compact
/// JSON text for everything else.
pub fn render_value(v: &JsonValue) -> (r: String)
    ensures
        r@ == render_text(*v),
{
    match v {
        JsonValue::Str(s) => s.clone(),
        _ => json_to_string(v),
    }
}

} // verus!
