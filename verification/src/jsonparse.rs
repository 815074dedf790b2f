//! A parser for JSON text, producing the engine's JSON value model.
//!
//! The grammar is JSON with two narrowings that keep the engine exact:
//! string escapes `\uXXXX` are accepted only in the form `\u00XX` for
//! control characters (the only form the engine's own serializer emits),
//! and a number with more than eighteen significant integer digits that
//! also carries a fraction or exponent keeps its literal text. Integers
//! that fit in `i64` become `Int`; every other number keeps its literal
//! text as `NumText`.

use vstd::prelude::*;
use crate::json::{jview, JView, JsonValue};
use crate::paths::{digit_run, digits_val, is_ascii_ws, is_digit};

verus! {

/// The control character with code `v` (0 to 31).
pub open spec fn ctrl_char(v: int) -> char {
    if v == 0 { '\u{0}' }
    else if v == 1 { '\u{1}' }
    else if v == 2 { '\u{2}' }
    else if v == 3 { '\u{3}' }
    else if v == 4 { '\u{4}' }
    else if v == 5 { '\u{5}' }
    else if v == 6 { '\u{6}' }
    else if v == 7 { '\u{7}' }
    else if v == 8 { '\u{8}' }
    else if v == 9 { '\u{9}' }
    else if v == 10 { '\u{a}' }
    else if v == 11 { '\u{b}' }
    else if v == 12 { '\u{c}' }
    else if v == 13 { '\u{d}' }
    else if v == 14 { '\u{e}' }
    else if v == 15 { '\u{f}' }
    else if v == 16 { '\u{10}' }
    else if v == 17 { '\u{11}' }
    else if v == 18 { '\u{12}' }
    else if v == 19 { '\u{13}' }
    else if v == 20 { '\u{14}' }
    else if v == 21 { '\u{15}' }
    else if v == 22 { '\u{16}' }
    else if v == 23 { '\u{17}' }
    else if v == 24 { '\u{18}' }
    else if v == 25 { '\u{19}' }
    else if v == 26 { '\u{1a}' }
    else if v == 27 { '\u{1b}' }
    else if v == 28 { '\u{1c}' }
    else if v == 29 { '\u{1d}' }
    else if v == 30 { '\u{1e}' }
    else { '\u{1f}' }
}

/// The value of a hexadecimal digit character, or -1.
pub open spec fn hex_val(c: char) -> int {
    if is_digit(c) {
        crate::paths::digit_val(c)
    } else if c == 'a' || c == 'A' { 10 }
    else if c == 'b' || c == 'B' { 11 }
    else if c == 'c' || c == 'C' { 12 }
    else if c == 'd' || c == 'D' { 13 }
    else if c == 'e' || c == 'E' { 14 }
    else if c == 'f' || c == 'F' { 15 }
    else { -1 }
}

/// The contents of a JSON string literal read from `i` (after the opening
/// quote), with the position just past the closing quote. A raw control
/// character, a bad escape, or a `\u` escape not of the form `\u00XX`
/// with `XX` below 32 fails.
pub open spec fn parse_str_body(s: Seq<char>, i: int) -> Option<(Seq<char>, int)>
    decreases s.len() - i,
{
    if i < 0 || i >= s.len() {
        None
    } else if s[i] == '"' {
        Some((Seq::empty(), i + 1))
    } else if s[i] == '\\' {
        if i + 1 < s.len() {
            if s[i + 1] == 'u' {
                if i + 5 < s.len() && s[i + 2] == '0' && s[i + 3] == '0' && 0 <= 16 * hex_val(
                    s[i + 4],
                ) + hex_val(s[i + 5]) < 32 && hex_val(s[i + 4]) >= 0 && hex_val(s[i + 5]) >= 0 {
                    match parse_str_body(s, i + 6) {
                        Some(rest) => Some(
                            (seq![ctrl_char(16 * hex_val(s[i + 4]) + hex_val(s[i + 5]))] + rest.0,
                            rest.1),
                        ),
                        None => None,
                    }
                } else {
                    None
                }
            } else {
                match crate::expr::escape_of(s[i + 1]) {
                    Some(ec) => match parse_str_body(s, i + 2) {
                        Some(rest) => Some((seq![ec] + rest.0, rest.1)),
                        None => None,
                    },
                    None => None,
                }
            }
        } else {
            None
        }
    } else if (s[i] as u32) < 32 {
        None
    } else {
        match parse_str_body(s, i + 1) {
            Some(rest) => Some((seq![s[i]] + rest.0, rest.1)),
            None => None,
        }
    }
}

/// The number starting at `i` (at its first character, sign included) and
/// the position after it: an integer in 64-bit range becomes `Int`, any
/// other well-formed number keeps its text.
pub open spec fn parse_num_at(s: Seq<char>, i: int) -> Option<(JView, int)> {
    let neg = 0 <= i < s.len() && s[i] == '-';
    let ds: int = if neg {
        i + 1
    } else {
        i
    };
    let d1 = digit_run(s, ds);
    if i < 0 || d1 < 1 || ds + d1 > s.len() {
        None
    } else if s[ds] == '0' && d1 > 1 {
        None
    } else {
        let e1 = ds + d1;
        let frac = e1 < s.len() && s[e1] == '.';
        let df = digit_run(s, e1 + 1);
        if frac && (df < 1 || e1 + 1 + df > s.len()) {
            None
        } else {
            let e2: int = if frac {
                e1 + 1 + df
            } else {
                e1
            };
            let ex = e2 < s.len() && (s[e2] == 'e' || s[e2] == 'E');
            let es: int = if ex && e2 + 1 < s.len() && (s[e2 + 1] == '+' || s[e2 + 1] == '-') {
                e2 + 2
            } else {
                e2 + 1
            };
            let de = digit_run(s, es);
            if ex && (de < 1 || es + de > s.len()) {
                None
            } else {
                let end: int = if ex {
                    es + de
                } else {
                    e2
                };
                if !frac && !ex {
                    let mag = digits_val(s.subrange(ds, ds + d1), 0, 0);
                    if neg && mag <= 9223372036854775808 {
                        Some((JView::Int(-mag), end))
                    } else if !neg && mag <= 9223372036854775807 {
                        Some((JView::Int(mag), end))
                    } else {
                        Some((JView::NumText(s.subrange(i, end)), end))
                    }
                } else {
                    Some((JView::NumText(s.subrange(i, end)), end))
                }
            }
        }
    }
}

/// The JSON value starting at or after `i` (leading whitespace skipped)
/// and the position after it.
pub open spec fn parse_value_at(s: Seq<char>, i: int) -> Option<(JView, int)>
    decreases s.len() - i, 0int,
{
    if i < 0 || i >= s.len() {
        None
    } else if is_ascii_ws(s[i]) {
        parse_value_at(s, i + 1)
    } else if s[i] == 'n' {
        if i + 4 <= s.len() && s[i + 1] == 'u' && s[i + 2] == 'l' && s[i + 3] == 'l' {
            Some((JView::Null, i + 4))
        } else {
            None
        }
    } else if s[i] == 't' {
        if i + 4 <= s.len() && s[i + 1] == 'r' && s[i + 2] == 'u' && s[i + 3] == 'e' {
            Some((JView::Bool(true), i + 4))
        } else {
            None
        }
    } else if s[i] == 'f' {
        if i + 5 <= s.len() && s[i + 1] == 'a' && s[i + 2] == 'l' && s[i + 3] == 's' && s[i + 4]
            == 'e' {
            Some((JView::Bool(false), i + 5))
        } else {
            None
        }
    } else if s[i] == '"' {
        match parse_str_body(s, i + 1) {
            Some(lit) => if i < lit.1 && lit.1 <= s.len() {
                Some((JView::Str(lit.0), lit.1))
            } else {
                None
            },
            None => None,
        }
    } else if s[i] == '[' {
        match parse_arr_at(s, i + 1) {
            Some(ae) => Some((JView::Arr(ae.0), ae.1)),
            None => None,
        }
    } else if s[i] == '{' {
        match parse_obj_at(s, i + 1) {
            Some(oe) => Some((JView::Obj(oe.0), oe.1)),
            None => None,
        }
    } else if s[i] == '-' || is_digit(s[i]) {
        parse_num_at(s, i)
    } else {
        None
    }
}

/// The elements of an array, read from just after its `[`.
pub open spec fn parse_arr_at(s: Seq<char>, i: int) -> Option<(Seq<JView>, int)>
    decreases s.len() - i, 1int,
{
    if i < 0 || i >= s.len() {
        None
    } else if is_ascii_ws(s[i]) {
        parse_arr_at(s, i + 1)
    } else if s[i] == ']' {
        Some((Seq::empty(), i + 1))
    } else {
        match parse_value_at(s, i) {
            Some(vj) => if i < vj.1 <= s.len() {
                parse_arr_rest(s, vj.1, seq![vj.0])
            } else {
                None
            },
            None => None,
        }
    }
}

/// The remaining elements of an array, read from after a complete element.
pub open spec fn parse_arr_rest(s: Seq<char>, j: int, acc: Seq<JView>) -> Option<
    (Seq<JView>, int),
>
    decreases s.len() - j, 1int,
{
    if j < 0 || j >= s.len() {
        None
    } else if is_ascii_ws(s[j]) {
        parse_arr_rest(s, j + 1, acc)
    } else if s[j] == ']' {
        Some((acc, j + 1))
    } else if s[j] == ',' {
        match parse_value_at(s, j + 1) {
            Some(vj) => if j < vj.1 <= s.len() {
                parse_arr_rest(s, vj.1, acc.push(vj.0))
            } else {
                None
            },
            None => None,
        }
    } else {
        None
    }
}

/// The fields of an object, read from just after its `{`.
pub open spec fn parse_obj_at(s: Seq<char>, i: int) -> Option<(Seq<(Seq<char>, JView)>, int)>
    decreases s.len() - i, 1int,
{
    if i < 0 || i >= s.len() {
        None
    } else if is_ascii_ws(s[i]) {
        parse_obj_at(s, i + 1)
    } else if s[i] == '}' {
        Some((Seq::empty(), i + 1))
    } else if s[i] == '"' {
        match parse_str_body(s, i + 1) {
            Some(lit) => if i < lit.1 <= s.len() {
                parse_member_colon(s, lit.1, lit.0, Seq::empty())
            } else {
                None
            },
            None => None,
        }
    } else {
        None
    }
}

/// After a field's key: skips whitespace, expects `:`, reads the value,
/// and goes on with the rest of the object.
pub open spec fn parse_member_colon(
    s: Seq<char>,
    j: int,
    key: Seq<char>,
    acc: Seq<(Seq<char>, JView)>,
) -> Option<(Seq<(Seq<char>, JView)>, int)>
    decreases s.len() - j, 1int,
{
    if j < 0 || j >= s.len() {
        None
    } else if is_ascii_ws(s[j]) {
        parse_member_colon(s, j + 1, key, acc)
    } else if s[j] == ':' {
        match parse_value_at(s, j + 1) {
            Some(vj) => if j < vj.1 <= s.len() {
                parse_obj_rest(s, vj.1, acc.push((key, vj.0)))
            } else {
                None
            },
            None => None,
        }
    } else {
        None
    }
}

/// The remaining fields of an object, read from after a complete field.
pub open spec fn parse_obj_rest(s: Seq<char>, j: int, acc: Seq<(Seq<char>, JView)>) -> Option<
    (Seq<(Seq<char>, JView)>, int),
>
    decreases s.len() - j, 0int,
{
    if j < 0 || j >= s.len() {
        None
    } else if is_ascii_ws(s[j]) {
        parse_obj_rest(s, j + 1, acc)
    } else if s[j] == '}' {
        Some((acc, j + 1))
    } else if s[j] == ',' {
        parse_obj_member(s, j + 1, acc)
    } else {
        None
    }
}

/// One more `"key": value` field of an object, after a comma.
pub open spec fn parse_obj_member(s: Seq<char>, m: int, acc: Seq<(Seq<char>, JView)>) -> Option<
    (Seq<(Seq<char>, JView)>, int),
>
    decreases s.len() - m, 1int,
{
    if m < 0 || m >= s.len() {
        None
    } else if is_ascii_ws(s[m]) {
        parse_obj_member(s, m + 1, acc)
    } else if s[m] == '"' {
        match parse_str_body(s, m + 1) {
            Some(lit) => if m < lit.1 <= s.len() {
                parse_member_colon(s, lit.1, lit.0, acc)
            } else {
                None
            },
            None => None,
        }
    } else {
        None
    }
}

/// Whether only whitespace remains from `j` on.
pub open spec fn only_ws(s: Seq<char>, j: int) -> bool
    decreases s.len() - j,
{
    if j < 0 || j >= s.len() {
        true
    } else {
        is_ascii_ws(s[j]) && only_ws(s, j + 1)
    }
}

/// The value that a whole JSON document denotes, if it is well-formed with
/// nothing but whitespace after it.
pub open spec fn json_parse_text(s: Seq<char>) -> Option<JView> {
    match parse_value_at(s, 0) {
        Some(vj) => if only_ws(s, vj.1) {
            Some(vj.0)
        } else {
            None
        },
        None => None,
    }
}

// ---------------------------------------------------------------------------
// Executable parser
// ---------------------------------------------------------------------------

fn ctrl_char_exec(v: u32) -> (c: char)
    requires
        v < 32,
    ensures
        c == ctrl_char(v as int),
{
    if v == 0 { '\u{0}' }
    else if v == 1 { '\u{1}' }
    else if v == 2 { '\u{2}' }
    else if v == 3 { '\u{3}' }
    else if v == 4 { '\u{4}' }
    else if v == 5 { '\u{5}' }
    else if v == 6 { '\u{6}' }
    else if v == 7 { '\u{7}' }
    else if v == 8 { '\u{8}' }
    else if v == 9 { '\u{9}' }
    else if v == 10 { '\u{a}' }
    else if v == 11 { '\u{b}' }
    else if v == 12 { '\u{c}' }
    else if v == 13 { '\u{d}' }
    else if v == 14 { '\u{e}' }
    else if v == 15 { '\u{f}' }
    else if v == 16 { '\u{10}' }
    else if v == 17 { '\u{11}' }
    else if v == 18 { '\u{12}' }
    else if v == 19 { '\u{13}' }
    else if v == 20 { '\u{14}' }
    else if v == 21 { '\u{15}' }
    else if v == 22 { '\u{16}' }
    else if v == 23 { '\u{17}' }
    else if v == 24 { '\u{18}' }
    else if v == 25 { '\u{19}' }
    else if v == 26 { '\u{1a}' }
    else if v == 27 { '\u{1b}' }
    else if v == 28 { '\u{1c}' }
    else if v == 29 { '\u{1d}' }
    else if v == 30 { '\u{1e}' }
    else { '\u{1f}' }
}

fn hex_val_exec(c: char) -> (r: i32)
    ensures
        r as int == hex_val(c),
{
    if crate::paths::is_digit_exec(c) {
        crate::paths::digit_val_exec(c) as i32
    } else if c == 'a' || c == 'A' { 10 }
    else if c == 'b' || c == 'B' { 11 }
    else if c == 'c' || c == 'C' { 12 }
    else if c == 'd' || c == 'D' { 13 }
    else if c == 'e' || c == 'E' { 14 }
    else if c == 'f' || c == 'F' { 15 }
    else { -1 }
}

#[verifier::rlimit(100)]
fn parse_str_body_exec(s: &Vec<char>, i: usize) -> (r: Option<(Vec<char>, usize)>)
    requires
        i <= s@.len(),
    ensures
        match r {
            Some(ce) => parse_str_body(s@, i as int) == Some((ce.0@, ce.1 as int)) && i < ce.1
                <= s@.len(),
            None => parse_str_body(s@, i as int) is None,
        },
    decreases s@.len() - i,
{
    if i >= s.len() {
        return None;
    }
    let c = s[i];
    if c == '"' {
        let v: Vec<char> = Vec::new();
        proof {
            assert(v@ =~= Seq::<char>::empty());
        }
        return Some((v, i + 1));
    }
    if c == '\\' {
        if i + 1 >= s.len() {
            return None;
        }
        if s[i + 1] == 'u' {
            if s.len() - i > 5 && s[i + 2] == '0' && s[i + 3] == '0' {
                let h1 = hex_val_exec(s[i + 4]);
                let h2 = hex_val_exec(s[i + 5]);
                if h1 >= 0 && h2 >= 0 && 16 * h1 + h2 < 32 {
                    match parse_str_body_exec(s, i + 6) {
                        Some((rest, end)) => {
                            let ec = ctrl_char_exec((16 * h1 + h2) as u32);
                            let mut v: Vec<char> = Vec::new();
                            v.push(ec);
                            crate::strutil::append_chars(&mut v, &rest);
                            proof {
                                assert(v@ =~= seq![ec] + rest@);
                            }
                            Some((v, end))
                        },
                        None => None,
                    }
                } else {
                    None
                }
            } else {
                None
            }
        } else {
            match crate::expr::escape_of_exec(s[i + 1]) {
                Some(ec) => match parse_str_body_exec(s, i + 2) {
                    Some((rest, end)) => {
                        let mut v: Vec<char> = Vec::new();
                        v.push(ec);
                        crate::strutil::append_chars(&mut v, &rest);
                        proof {
                            assert(v@ =~= seq![ec] + rest@);
                        }
                        Some((v, end))
                    },
                    None => None,
                },
                None => None,
            }
        }
    } else if (c as u32) < 32 {
        None
    } else {
        match parse_str_body_exec(s, i + 1) {
            Some((rest, end)) => {
                let mut v: Vec<char> = Vec::new();
                v.push(c);
                crate::strutil::append_chars(&mut v, &rest);
                proof {
                    assert(v@ =~= seq![c] + rest@);
                }
                Some((v, end))
            },
            None => None,
        }
    }
}

/// The magnitude of a digit range when it does not exceed `2^63`.
fn digits_capped(s: &Vec<char>, a: usize, b: usize) -> (r: Option<u64>)
    requires
        a <= b <= s@.len(),
        forall|k: int| a <= k < b ==> is_digit(#[trigger] s@[k]),
    ensures
        match r {
            Some(m) => m as int == digits_val(s@.subrange(a as int, b as int), 0, 0) && m
                <= 9223372036854775808u64,
            None => digits_val(s@.subrange(a as int, b as int), 0, 0) > 9223372036854775808,
        },
{
    let ghost t = s@.subrange(a as int, b as int);
    let mut i: usize = a;
    let mut acc: u128 = 0;
    while i < b
        invariant
            a <= i <= b <= s@.len(),
            forall|k: int| a <= k < b ==> is_digit(#[trigger] s@[k]),
            acc <= 9223372036854775808u128,
            t == s@.subrange(a as int, b as int),
            digits_val(t, 0, 0) == digits_val(t, i as int - a as int, acc as int),
        decreases b - i,
    {
        let d = crate::paths::digit_val_exec(s[i]);
        acc = acc * 10 + (d as u128);
        i = i + 1;
        proof {
            assert(t[i as int - 1 - a as int] == s@[i as int - 1]);
        }
        if acc > 9223372036854775808u128 {
            proof {
                assert forall|k: int| i as int - a as int <= k < t.len() implies is_digit(
                    t[k],
                ) by {
                    assert(t[k] == s@[k + a as int]);
                };
                lemma_all_digits_tail(t, i as int - a as int);
                crate::paths::lemma_digits_val_lower(t, i as int - a as int, acc as int);
            }
            return None;
        }
    }
    proof {
        assert(digits_val(t, b as int - a as int, acc as int) == acc as int);
    }
    Some(acc as u64)
}

proof fn lemma_all_digits_tail(s: Seq<char>, i: int)
    requires
        0 <= i,
        forall|k: int| i <= k < s.len() ==> is_digit(#[trigger] s[k]),
    ensures
        crate::paths::all_digits(s, i),
    decreases s.len() - i,
{
    if i < s.len() {
        lemma_all_digits_tail(s, i + 1);
    }
}

#[verifier::rlimit(100)]
fn parse_num_exec(s: &Vec<char>, i: usize) -> (r: Option<(JsonValue, usize)>)
    requires
        i < s@.len(),
    ensures
        match r {
            Some(ve) => parse_num_at(s@, i as int) == Some((jview(ve.0), ve.1 as int)) && i < ve.1
                <= s@.len(),
            None => parse_num_at(s@, i as int) is None,
        },
{
    let n = s.len();
    let neg = s[i] == '-';
    let ds: usize = if neg {
        i + 1
    } else {
        i
    };
    if ds >= s.len() {
        return None;
    }
    let d1 = crate::paths::digit_run_exec(s, ds);
    if d1 < 1 {
        return None;
    }
    if s[ds] == '0' && d1 > 1 {
        return None;
    }
    let e1 = ds + d1;
    let frac = e1 < s.len() && s[e1] == '.';
    let df: usize = if e1 < s.len() {
        crate::paths::digit_run_exec(s, e1 + 1)
    } else {
        0
    };
    if frac && df < 1 {
        return None;
    }
    let e2: usize = if frac {
        e1 + 1 + df
    } else {
        e1
    };
    let ex = e2 < s.len() && (s[e2] == 'e' || s[e2] == 'E');
    let end: usize;
    if ex {
        let es: usize = if e2 + 1 < s.len() && (s[e2 + 1] == '+' || s[e2 + 1] == '-') {
            e2 + 2
        } else {
            e2 + 1
        };
        let de = crate::paths::digit_run_exec(s, es);
        if de < 1 {
            return None;
        }
        end = es + de;
    } else {
        end = e2;
    }
    if !frac && !ex {
        proof {
            crate::paths::lemma_digit_run_digits(s@, ds as int, d1 as int);
        }
        match digits_capped(s, ds, e1) {
            Some(m) => {
                if neg {
                    let v: i64 = if m == 9223372036854775808u64 {
                        i64::MIN
                    } else {
                        -(m as i64)
                    };
                    Some((JsonValue::Int(v), end))
                } else {
                    if m <= 9223372036854775807u64 {
                        Some((JsonValue::Int(m as i64), end))
                    } else {
                        let txt = crate::strutil::copy_range(s, i, end);
                        Some((JsonValue::NumText(crate::strutil::chars_to_string(&txt)), end))
                    }
                }
            },
            None => {
                let txt = crate::strutil::copy_range(s, i, end);
                Some((JsonValue::NumText(crate::strutil::chars_to_string(&txt)), end))
            },
        }
    } else {
        let txt = crate::strutil::copy_range(s, i, end);
        Some((JsonValue::NumText(crate::strutil::chars_to_string(&txt)), end))
    }
}

#[verifier::rlimit(100)]
fn parse_value_exec(s: &Vec<char>, i: usize) -> (r: Option<(JsonValue, usize)>)
    requires
        i <= s@.len(),
    ensures
        match r {
            Some(ve) => parse_value_at(s@, i as int) == Some((jview(ve.0), ve.1 as int)) && i
                < ve.1 <= s@.len(),
            None => parse_value_at(s@, i as int) is None,
        },
    decreases s@.len() - i, 0int,
{
    if i >= s.len() {
        return None;
    }
    let c = s[i];
    if crate::paths::is_ascii_ws_exec(c) {
        return parse_value_exec(s, i + 1);
    }
    if c == 'n' {
        if s.len() - i >= 4 && s[i + 1] == 'u' && s[i + 2] == 'l' && s[i + 3] == 'l' {
            return Some((JsonValue::Null, i + 4));
        }
        return None;
    }
    if c == 't' {
        if s.len() - i >= 4 && s[i + 1] == 'r' && s[i + 2] == 'u' && s[i + 3] == 'e' {
            return Some((JsonValue::Bool(true), i + 4));
        }
        return None;
    }
    if c == 'f' {
        if s.len() - i >= 5 && s[i + 1] == 'a' && s[i + 2] == 'l' && s[i + 3] == 's' && s[i + 4]
            == 'e' {
            return Some((JsonValue::Bool(false), i + 5));
        }
        return None;
    }
    if c == '"' {
        return match parse_str_body_exec(s, i + 1) {
            Some((content, end)) => Some(
                (JsonValue::Str(crate::strutil::chars_to_string(&content)), end),
            ),
            None => None,
        };
    }
    if c == '[' {
        return match parse_arr_exec(s, i + 1) {
            Some((items, end)) => Some((JsonValue::Arr(items), end)),
            None => None,
        };
    }
    if c == '{' {
        return match parse_obj_exec(s, i + 1) {
            Some((fields, end)) => Some((JsonValue::Obj(fields), end)),
            None => None,
        };
    }
    if c == '-' || crate::paths::is_digit_exec(c) {
        return parse_num_exec(s, i);
    }
    None
}

fn parse_arr_exec(s: &Vec<char>, i: usize) -> (r: Option<(Vec<JsonValue>, usize)>)
    requires
        i <= s@.len(),
    ensures
        match r {
            Some(ve) => parse_arr_at(s@, i as int) == Some((crate::json::jviews(ve.0@), ve.1 as int))
                && i < ve.1 <= s@.len(),
            None => parse_arr_at(s@, i as int) is None,
        },
    decreases s@.len() - i, 1int,
{
    if i >= s.len() {
        return None;
    }
    let c = s[i];
    if crate::paths::is_ascii_ws_exec(c) {
        return parse_arr_exec(s, i + 1);
    }
    if c == ']' {
        let v: Vec<JsonValue> = Vec::new();
        proof {
            assert(crate::json::jviews(v@) =~= Seq::<JView>::empty());
        }
        return Some((v, i + 1));
    }
    match parse_value_exec(s, i) {
        Some((v, j)) => {
            let mut acc: Vec<JsonValue> = Vec::new();
            let ghost vv = jview(v);
            acc.push(v);
            proof {
                assert(crate::json::jviews(acc@) =~= seq![vv]);
            }
            parse_arr_rest_exec(s, j, acc)
        },
        None => None,
    }
}

fn parse_arr_rest_exec(s: &Vec<char>, j: usize, acc: Vec<JsonValue>) -> (r: Option<
    (Vec<JsonValue>, usize),
>)
    requires
        j <= s@.len(),
    ensures
        match r {
            Some(ve) => parse_arr_rest(s@, j as int, crate::json::jviews(acc@)) == Some(
                (crate::json::jviews(ve.0@), ve.1 as int),
            ) && j < ve.1 <= s@.len(),
            None => parse_arr_rest(s@, j as int, crate::json::jviews(acc@)) is None,
        },
    decreases s@.len() - j, 1int,
{
    if j >= s.len() {
        return None;
    }
    let c = s[j];
    if crate::paths::is_ascii_ws_exec(c) {
        return parse_arr_rest_exec(s, j + 1, acc);
    }
    if c == ']' {
        return Some((acc, j + 1));
    }
    if c == ',' {
        return match parse_value_exec(s, j + 1) {
            Some((v, k)) => {
                let mut acc2 = acc;
                let ghost before = crate::json::jviews(acc2@);
                let ghost vv = jview(v);
                acc2.push(v);
                proof {
                    assert(crate::json::jviews(acc2@) =~= before.push(vv));
                }
                parse_arr_rest_exec(s, k, acc2)
            },
            None => None,
        };
    }
    None
}

fn parse_obj_exec(s: &Vec<char>, i: usize) -> (r: Option<(Vec<(String, JsonValue)>, usize)>)
    requires
        i <= s@.len(),
    ensures
        match r {
            Some(ve) => parse_obj_at(s@, i as int) == Some(
                (crate::json::jfield_views(ve.0@), ve.1 as int),
            ) && i < ve.1 <= s@.len(),
            None => parse_obj_at(s@, i as int) is None,
        },
    decreases s@.len() - i, 1int,
{
    if i >= s.len() {
        return None;
    }
    let c = s[i];
    if crate::paths::is_ascii_ws_exec(c) {
        return parse_obj_exec(s, i + 1);
    }
    if c == '}' {
        let v: Vec<(String, JsonValue)> = Vec::new();
        proof {
            assert(crate::json::jfield_views(v@) =~= Seq::<(Seq<char>, JView)>::empty());
        }
        return Some((v, i + 1));
    }
    if c == '"' {
        return match parse_str_body_exec(s, i + 1) {
            Some((content, end)) => {
                let key = crate::strutil::chars_to_string(&content);
                let acc: Vec<(String, JsonValue)> = Vec::new();
                proof {
                    assert(crate::json::jfield_views(acc@) =~= Seq::<(Seq<char>, JView)>::empty());
                }
                parse_member_colon_exec(s, end, key, acc)
            },
            None => None,
        };
    }
    None
}

fn parse_member_colon_exec(s: &Vec<char>, j: usize, key: String, acc: Vec<(String, JsonValue)>)
    -> (r: Option<(Vec<(String, JsonValue)>, usize)>)
    requires
        j <= s@.len(),
    ensures
        match r {
            Some(ve) => parse_member_colon(s@, j as int, key@, crate::json::jfield_views(acc@))
                == Some((crate::json::jfield_views(ve.0@), ve.1 as int)) && j < ve.1 <= s@.len(),
            None => parse_member_colon(s@, j as int, key@, crate::json::jfield_views(acc@))
                is None,
        },
    decreases s@.len() - j, 1int,
{
    if j >= s.len() {
        return None;
    }
    let c = s[j];
    if crate::paths::is_ascii_ws_exec(c) {
        return parse_member_colon_exec(s, j + 1, key, acc);
    }
    if c == ':' {
        return match parse_value_exec(s, j + 1) {
            Some((v, k)) => {
                let mut acc2 = acc;
                let ghost before = crate::json::jfield_views(acc2@);
                let ghost entry = (key@, jview(v));
                acc2.push((key, v));
                proof {
                    assert(crate::json::jfield_views(acc2@) =~= before.push(entry));
                }
                parse_obj_rest_exec(s, k, acc2)
            },
            None => None,
        };
    }
    None
}

fn parse_obj_rest_exec(s: &Vec<char>, j: usize, acc: Vec<(String, JsonValue)>) -> (r: Option<
    (Vec<(String, JsonValue)>, usize),
>)
    requires
        j <= s@.len(),
    ensures
        match r {
            Some(ve) => parse_obj_rest(s@, j as int, crate::json::jfield_views(acc@)) == Some(
                (crate::json::jfield_views(ve.0@), ve.1 as int),
            ) && j < ve.1 <= s@.len(),
            None => parse_obj_rest(s@, j as int, crate::json::jfield_views(acc@)) is None,
        },
    decreases s@.len() - j, 0int,
{
    if j >= s.len() {
        return None;
    }
    let c = s[j];
    if crate::paths::is_ascii_ws_exec(c) {
        return parse_obj_rest_exec(s, j + 1, acc);
    }
    if c == '}' {
        return Some((acc, j + 1));
    }
    if c == ',' {
        return parse_obj_member_exec(s, j + 1, acc);
    }
    None
}

fn parse_obj_member_exec(s: &Vec<char>, m: usize, acc: Vec<(String, JsonValue)>) -> (r: Option<
    (Vec<(String, JsonValue)>, usize),
>)
    requires
        m <= s@.len(),
    ensures
        match r {
            Some(ve) => parse_obj_member(s@, m as int, crate::json::jfield_views(acc@)) == Some(
                (crate::json::jfield_views(ve.0@), ve.1 as int),
            ) && m < ve.1 <= s@.len(),
            None => parse_obj_member(s@, m as int, crate::json::jfield_views(acc@)) is None,
        },
    decreases s@.len() - m, 1int,
{
    if m >= s.len() {
        return None;
    }
    let c = s[m];
    if crate::paths::is_ascii_ws_exec(c) {
        return parse_obj_member_exec(s, m + 1, acc);
    }
    if c == '"' {
        return match parse_str_body_exec(s, m + 1) {
            Some((content, end)) => {
                let key = crate::strutil::chars_to_string(&content);
                parse_member_colon_exec(s, end, key, acc)
            },
            None => None,
        };
    }
    None
}

fn only_ws_exec(s: &Vec<char>, j: usize) -> (r: bool)
    requires
        j <= s@.len(),
    ensures
        r == only_ws(s@, j as int),
    decreases s@.len() - j,
{
    if j >= s.len() {
        true
    } else if !crate::paths::is_ascii_ws_exec(s[j]) {
        false
    } else {
        only_ws_exec(s, j + 1)
    }
}

/// Parses a whole JSON document; `None` when the text is not well-formed
/// JSON (within the narrowings described above).
pub fn parse_json(text: &str) -> (r: Option<JsonValue>)
    ensures
        match r {
            Some(v) => json_parse_text(text@) == Some(jview(v)),
            None => json_parse_text(text@) is None,
        },
{
    let s = crate::strutil::str_chars(text);
    match parse_value_exec(&s, 0) {
        Some((v, end)) => {
            if only_ws_exec(&s, end) {
                Some(v)
            } else {
                None
            }
        },
        None => None,
    }
}

} // verus!
