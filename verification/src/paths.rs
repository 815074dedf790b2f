//! Response-path handling: finding `$.resp` tokens in an expression,
//! step references like `[-1]`, and the JSONPath subset the engine uses
//! to select into the request/response context.
//!
//! A path is `$` followed by `.name` and `[index]` segments. A name runs
//! to the next `.` or `[`; an index is up to nine decimal digits.

use vstd::prelude::*;
use crate::json::JsonValue;
use crate::strutil::{chars_to_string, copy_range, str_chars};

verus! {

pub open spec fn is_ascii_ws(c: char) -> bool {
    c == ' ' || c == '\t' || c == '\n' || c == '\r' || c == '\u{b}' || c == '\u{c}'
}

/// Length of the maximal run of non-whitespace characters starting at `i`.
pub open spec fn nonws_run(s: Seq<char>, i: int) -> int
    decreases s.len() - i,
{
    if i < 0 || i >= s.len() || is_ascii_ws(s[i]) {
        0
    } else {
        1 + nonws_run(s, i + 1)
    }
}

/// Whether `t` begins with `$.resp`.
pub open spec fn is_resp_token(t: Seq<char>) -> bool {
    t.len() >= 6 && t[0] == '$' && t[1] == '.' && t[2] == 'r' && t[3] == 'e' && t[4] == 's' && t[5]
        == 'p'
}

/// The whitespace-separated tokens of `s` from `i` on that begin with
/// `$.resp`, in text order.
pub open spec fn resp_tokens(s: Seq<char>, i: int) -> Seq<Seq<char>>
    decreases s.len() - i,
{
    if i < 0 || i >= s.len() {
        Seq::empty()
    } else if is_ascii_ws(s[i]) {
        resp_tokens(s, i + 1)
    } else {
        let n = nonws_run(s, i);
        if 1 <= n && i + n <= s.len() {
            let t = s.subrange(i, i + n);
            (if is_resp_token(t) {
                seq![t]
            } else {
                Seq::empty()
            }) + resp_tokens(s, i + n)
        } else {
            resp_tokens(s, i + 1)
        }
    }
}

pub(crate) fn is_ascii_ws_exec(c: char) -> (r: bool)
    ensures
        r == is_ascii_ws(c),
{
    c == ' ' || c == '\t' || c == '\n' || c == '\r' || c == '\u{b}' || c == '\u{c}'
}

fn nonws_run_exec(s: &Vec<char>, i: usize) -> (n: usize)
    requires
        i <= s@.len(),
    ensures
        n as int == nonws_run(s@, i as int),
        i + n <= s@.len(),
        i < s@.len() && !is_ascii_ws(s@[i as int]) ==> n >= 1,
    decreases s@.len() - i,
{
    if i >= s.len() {
        0
    } else if is_ascii_ws_exec(s[i]) {
        0
    } else {
        let rest = nonws_run_exec(s, i + 1);
        1 + rest
    }
}

/// The whitespace-separated tokens of the expression that begin with
/// `$.resp`: the response paths that substitution must resolve.
pub fn find_all_jsonpaths(input: &str) -> (r: Vec<String>)
    ensures
        r.deep_view() == resp_tokens(input@, 0),
{
    let s = str_chars(input);
    let mut r: Vec<String> = Vec::new();
    let mut i: usize = 0;
    while i < s.len()
        invariant
            i <= s@.len(),
            s@ == input@,
            r.deep_view() + resp_tokens(s@, i as int) == resp_tokens(s@, 0),
        decreases s@.len() - i,
    {
        let ghost before = r.deep_view();
        if is_ascii_ws_exec(s[i]) {
            i = i + 1;
        } else {
            let n = nonws_run_exec(&s, i);
            let tok = copy_range(&s, i, i + n);
            if tok.len() >= 6 && tok[0] == '$' && tok[1] == '.' && tok[2] == 'r' && tok[3] == 'e'
                && tok[4] == 's' && tok[5] == 'p' {
                r.push(chars_to_string(&tok));
                proof {
                    assert(r.deep_view() =~= before.push(s@.subrange(i as int, i as int + n)));
                }
            }
            i = i + n;
        }
        proof {
            assert(r.deep_view() + resp_tokens(s@, i as int) =~= resp_tokens(s@, 0));
        }
    }
    proof {
        assert(r.deep_view() =~= r.deep_view() + resp_tokens(s@, s@.len() as int));
    }
    r
}

/// All whitespace-separated tokens of `s` from `i` on, in text order.
pub open spec fn ws_tokens(s: Seq<char>, i: int) -> Seq<Seq<char>>
    decreases s.len() - i,
{
    if i < 0 || i >= s.len() {
        Seq::empty()
    } else if is_ascii_ws(s[i]) {
        ws_tokens(s, i + 1)
    } else {
        let n = nonws_run(s, i);
        if 1 <= n && i + n <= s.len() {
            seq![s.subrange(i, i + n)] + ws_tokens(s, i + n)
        } else {
            ws_tokens(s, i + 1)
        }
    }
}

/// Splits a text into its whitespace-separated tokens.
pub fn split_tokens(input: &str) -> (r: Vec<String>)
    ensures
        r.deep_view() == ws_tokens(input@, 0),
{
    let s = str_chars(input);
    let mut r: Vec<String> = Vec::new();
    let mut i: usize = 0;
    while i < s.len()
        invariant
            i <= s@.len(),
            s@ == input@,
            r.deep_view() + ws_tokens(s@, i as int) == ws_tokens(s@, 0),
        decreases s@.len() - i,
    {
        let ghost before = r.deep_view();
        if is_ascii_ws_exec(s[i]) {
            i = i + 1;
        } else {
            let n = nonws_run_exec(&s, i);
            let tok = copy_range(&s, i, i + n);
            r.push(chars_to_string(&tok));
            proof {
                assert(r.deep_view() =~= before.push(s@.subrange(i as int, i as int + n)));
            }
            i = i + n;
        }
        proof {
            assert(r.deep_view() + ws_tokens(s@, i as int) =~= ws_tokens(s@, 0));
        }
    }
    proof {
        assert(r.deep_view() =~= r.deep_view() + ws_tokens(s@, s@.len() as int));
    }
    r
}

/// The first position of `c` at or after `from`, if any.
pub open spec fn idx_of(s: Seq<char>, c: char, from: int) -> Option<int>
    decreases s.len() - from,
{
    if from < 0 || from >= s.len() {
        None
    } else if s[from] == c {
        Some(from)
    } else {
        idx_of(s, c, from + 1)
    }
}

fn idx_of_exec(s: &Vec<char>, c: char, from: usize) -> (r: Option<usize>)
    requires
        from <= s@.len(),
    ensures
        match r {
            Some(j) => idx_of(s@, c, from as int) == Some(j as int) && from <= j < s@.len(),
            None => idx_of(s@, c, from as int) is None,
        },
    decreases s@.len() - from,
{
    if from >= s.len() {
        None
    } else if s[from] == c {
        Some(from)
    } else {
        idx_of_exec(s, c, from + 1)
    }
}

pub open spec fn digit_val(c: char) -> int {
    if c == '0' { 0 }
    else if c == '1' { 1 }
    else if c == '2' { 2 }
    else if c == '3' { 3 }
    else if c == '4' { 4 }
    else if c == '5' { 5 }
    else if c == '6' { 6 }
    else if c == '7' { 7 }
    else if c == '8' { 8 }
    else if c == '9' { 9 }
    else { -1 }
}

pub open spec fn is_digit(c: char) -> bool {
    digit_val(c) >= 0
}

/// Whether every character of `s` from `i` on is a decimal digit.
pub open spec fn all_digits(s: Seq<char>, i: int) -> bool
    decreases s.len() - i,
{
    if i < 0 || i >= s.len() {
        true
    } else {
        is_digit(s[i]) && all_digits(s, i + 1)
    }
}

/// The value of the digits of `s` from `i` on, folded onto `acc`.
pub open spec fn digits_val(s: Seq<char>, i: int, acc: int) -> int
    decreases s.len() - i,
{
    if i < 0 || i >= s.len() {
        acc
    } else {
        digits_val(s, i + 1, acc * 10 + digit_val(s[i]))
    }
}

pub(crate) proof fn lemma_digits_val_lower(s: Seq<char>, i: int, acc: int)
    requires
        0 <= acc,
        all_digits(s, i),
    ensures
        digits_val(s, i, acc) >= acc,
    decreases s.len() - i,
{
    if 0 <= i < s.len() {
        lemma_digits_val_lower(s, i + 1, acc * 10 + digit_val(s[i]));
    }
}

/// The signed 32-bit integer that `s` denotes, in the manner of Rust's
/// `str::parse::<i32>`: an optional sign, then one or more digits; `None`
/// on any other shape or when the value leaves the `i32` range.
pub open spec fn parse_i32_text(s: Seq<char>) -> Option<int> {
    let neg = s.len() > 0 && s[0] == '-';
    let signed = s.len() > 0 && (s[0] == '-' || s[0] == '+');
    let start: int = if signed { 1 } else { 0 };
    if s.len() <= start || !all_digits(s, start) {
        None
    } else {
        let mag = digits_val(s, start, 0);
        let v = if neg { -mag } else { mag };
        if -2147483648 <= v <= 2147483647 {
            Some(v)
        } else {
            None
        }
    }
}

pub(crate) fn is_digit_exec(c: char) -> (r: bool)
    ensures
        r == is_digit(c),
{
    let u = c as u32;
    ('0' as u32) <= u && u <= ('9' as u32)
}

pub(crate) fn digit_val_exec(c: char) -> (d: u64)
    requires
        is_digit(c),
    ensures
        d as int == digit_val(c),
{
    (c as u32 - '0' as u32) as u64
}

/// Parses the characters of `s` from `a` (inclusive) to `b` (exclusive) as
/// an `i32`.
fn parse_i32_range(s: &Vec<char>, a: usize, b: usize) -> (r: Option<i32>)
    requires
        a <= b <= s@.len(),
    ensures
        match r {
            Some(v) => parse_i32_text(s@.subrange(a as int, b as int)) == Some(v as int),
            None => parse_i32_text(s@.subrange(a as int, b as int)) is None,
        },
{
    let ghost t = s@.subrange(a as int, b as int);
    if a == b {
        return None;
    }
    let neg = s[a] == '-';
    let signed = s[a] == '-' || s[a] == '+';
    let start: usize = if signed { a + 1 } else { a };
    if start == b {
        return None;
    }
    let mut i: usize = start;
    let mut acc: u64 = 0;
    proof {
        assert(t.len() == b - a);
        assert(t[0] == s@[a as int]);
    }
    while i < b
        invariant
            start <= i <= b <= s@.len(),
            start < b,
            a <= start,
            start as int - a as int == (if signed { 1int } else { 0int }),
            acc <= 2147483648,
            forall|j: int| start <= j < i ==> is_digit(#[trigger] s@[j]),
            all_digits(t, start as int - a as int) ==> digits_val(t, start as int - a as int, 0)
                == digits_val(t, i as int - a as int, acc as int),
            t == s@.subrange(a as int, b as int),
            neg == (s@[a as int] == '-'),
            signed == (s@[a as int] == '-' || s@[a as int] == '+'),
        decreases b - i,
    {
        proof {
            assert(t[0] == s@[a as int]);
        }
        if !is_digit_exec(s[i]) {
            proof {
                assert(t[i as int - a as int] == s@[i as int]);
                assert(!all_digits(t, i as int - a as int));
                lemma_not_all_digits(t, start as int - a as int, i as int - a as int);
            }
            return None;
        }
        let d = digit_val_exec(s[i]);
        acc = acc * 10 + d;
        i = i + 1;
        proof {
            assert(t[i as int - 1 - a as int] == s@[i as int - 1]);
        }
        if acc > 2147483648 {
            proof {
                if all_digits(t, start as int - a as int) {
                    lemma_all_digits_suffix(t, start as int - a as int, i as int - a as int);
                    lemma_digits_val_lower(t, i as int - a as int, acc as int);
                }
            }
            return None;
        }
    }
    proof {
        assert(all_digits(t, b as int - a as int));
        assert forall|k: int| start as int - a as int <= k < b as int - a as int implies is_digit(
            t[k],
        ) by {
            assert(t[k] == s@[k + a as int]);
        };
        lemma_all_digits_from(t, start as int - a as int, b as int - a as int);
        assert(digits_val(t, b as int - a as int, acc as int) == acc as int);
        assert(t[0] == s@[a as int]);
    }
    if neg {
        let v: i64 = -(acc as i64);
        proof {
            assert(parse_i32_text(t) == Some(v as int));
        }
        Some(v as i32)
    } else {
        if acc > 2147483647 {
            return None;
        }
        proof {
            assert(parse_i32_text(t) == Some(acc as int));
        }
        Some(acc as i32)
    }
}

proof fn lemma_all_digits_suffix(s: Seq<char>, i: int, j: int)
    requires
        0 <= i <= j,
        all_digits(s, i),
    ensures
        all_digits(s, j),
    decreases j - i,
{
    if i < j {
        lemma_all_digits_suffix(s, i + 1, j);
    }
}

proof fn lemma_not_all_digits(s: Seq<char>, i: int, j: int)
    requires
        0 <= i <= j,
        !all_digits(s, j),
    ensures
        !all_digits(s, i),
    decreases j - i,
{
    if i < j {
        lemma_not_all_digits(s, i + 1, j);
    }
}

proof fn lemma_all_digits_from(s: Seq<char>, i: int, j: int)
    requires
        0 <= i <= j,
        forall|k: int| i <= k < j ==> is_digit(#[trigger] s[k]),
        all_digits(s, j),
    ensures
        all_digits(s, i),
    decreases j - i,
{
    if i < j {
        lemma_all_digits_from(s, i + 1, j);
    }
}

/// The step that a bracketed reference like `[2]` or `[-1]` denotes: a
/// non-negative index is absolute, a negative one counts back from
/// `cur`. `None` when there is no well-formed bracketed integer or the
/// target would fall before the first step — a malformed or out-of-range
/// reference fails here, at decode time, and can never panic.
pub open spec fn step_ref(s: Seq<char>, cur: u32) -> Option<u32> {
    match idx_of(s, '[', 0) {
        None => None,
        Some(a) => match idx_of(s, ']', a + 1) {
            None => None,
            Some(b) => match parse_i32_text(s.subrange(a + 1, b)) {
                None => None,
                Some(n) => if n < 0 {
                    if cur + n >= 0 {
                        Some((cur + n) as u32)
                    } else {
                        None
                    }
                } else {
                    Some(n as u32)
                },
            },
        },
    }
}

/// Resolves a bracketed step reference against the current step index.
pub fn get_var_step(input: &str, current_step: u32) -> (r: Option<u32>)
    ensures
        r == step_ref(input@, current_step),
{
    let s = str_chars(input);
    let n = s.len();
    let a = match idx_of_exec(&s, '[', 0) {
        None => {
            return None;
        },
        Some(a) => a,
    };
    proof {
        assert(a < n);
    }
    let b = match idx_of_exec(&s, ']', a + 1) {
        None => {
            return None;
        },
        Some(b) => b,
    };
    match parse_i32_range(&s, a + 1, b) {
        None => None,
        Some(n) => {
            if n < 0 {
                let target: i64 = current_step as i64 + n as i64;
                if target >= 0 {
                    Some(target as u32)
                } else {
                    None
                }
            } else {
                Some(n as u32)
            }
        },
    }
}

/// One segment of a JSONPath: a field name or an array index.
pub enum PathSeg {
    Name(String),
    Index(usize),
}

/// The ghost form of a path segment.
pub enum SegView {
    Name(Seq<char>),
    Index(int),
}

impl PathSeg {
    pub open spec fn view(&self) -> SegView {
        match self {
            PathSeg::Name(n) => SegView::Name(n@),
            PathSeg::Index(k) => SegView::Index(*k as int),
        }
    }
}

pub open spec fn segs_view(v: Seq<PathSeg>) -> Seq<SegView> {
    v.map(|i: int, p: PathSeg| p.view())
}

/// Length of the maximal run of name characters (anything but `.` or `[`)
/// starting at `i`.
pub open spec fn name_run(s: Seq<char>, i: int) -> int
    decreases s.len() - i,
{
    if i < 0 || i >= s.len() || s[i] == '.' || s[i] == '[' {
        0
    } else {
        1 + name_run(s, i + 1)
    }
}

/// Length of the maximal run of digits starting at `i`.
pub open spec fn digit_run(s: Seq<char>, i: int) -> int
    decreases s.len() - i,
{
    if i < 0 || i >= s.len() || !is_digit(s[i]) {
        0
    } else {
        1 + digit_run(s, i + 1)
    }
}

/// The segments of a path from `i` on: `.name` and `[index]` until the end
/// of the text, or `None` at the first malformed segment.
pub open spec fn segs_from(s: Seq<char>, i: int) -> Option<Seq<SegView>>
    decreases s.len() - i,
{
    if i < 0 {
        None
    } else if i >= s.len() {
        Some(Seq::empty())
    } else if s[i] == '.' {
        let n = name_run(s, i + 1);
        if 1 <= n && i + 1 + n <= s.len() {
            match segs_from(s, i + 1 + n) {
                None => None,
                Some(rest) => Some(seq![SegView::Name(s.subrange(i + 1, i + 1 + n))] + rest),
            }
        } else {
            None
        }
    } else if s[i] == '[' {
        let d = digit_run(s, i + 1);
        if 1 <= d <= 9 && i + 1 + d < s.len() && s[i + 1 + d] == ']' {
            match segs_from(s, i + 1 + d + 1) {
                None => None,
                Some(rest) => Some(
                    seq![SegView::Index(digits_val(s.subrange(i + 1, i + 1 + d), 0, 0))] + rest,
                ),
            }
        } else {
            None
        }
    } else {
        None
    }
}

/// The parsed form of a whole path: `$` followed by its segments.
pub open spec fn path_parse(s: Seq<char>) -> Option<Seq<SegView>> {
    if s.len() >= 1 && s[0] == '$' {
        segs_from(s, 1)
    } else {
        None
    }
}

fn name_run_exec(s: &Vec<char>, i: usize) -> (n: usize)
    requires
        i <= s@.len(),
    ensures
        n as int == name_run(s@, i as int),
        i + n <= s@.len(),
    decreases s@.len() - i,
{
    if i >= s.len() {
        0
    } else if s[i] == '.' || s[i] == '[' {
        0
    } else {
        let rest = name_run_exec(s, i + 1);
        1 + rest
    }
}

pub(crate) fn digit_run_exec(s: &Vec<char>, i: usize) -> (n: usize)
    requires
        i <= s@.len(),
    ensures
        n as int == digit_run(s@, i as int),
        i + n <= s@.len(),
        i < s@.len() && is_digit(s@[i as int]) ==> n >= 1,
    decreases s@.len() - i,
{
    if i >= s.len() {
        0
    } else if !is_digit_exec(s[i]) {
        0
    } else {
        let rest = digit_run_exec(s, i + 1);
        1 + rest
    }
}

fn digits_to_usize(s: &Vec<char>, a: usize, b: usize) -> (r: usize)
    requires
        a <= b <= s@.len(),
        b - a <= 9,
        forall|k: int| a <= k < b ==> is_digit(#[trigger] s@[k]),
    ensures
        r as int == digits_val(s@.subrange(a as int, b as int), 0, 0),
        r < 1000000000,
{
    let ghost t = s@.subrange(a as int, b as int);
    let mut i: usize = a;
    let mut acc: u64 = 0;
    while i < b
        invariant
            a <= i <= b <= s@.len(),
            b - a <= 9,
            forall|k: int| a <= k < b ==> is_digit(#[trigger] s@[k]),
            acc < 1000000000,
            acc < pow10((i - a) as nat),
            t == s@.subrange(a as int, b as int),
            digits_val(t, 0, 0) == digits_val(t, i as int - a as int, acc as int),
        decreases b - i,
    {
        let d = digit_val_exec(s[i]);
        proof {
            lemma_pow10_values();
            let k = (i + 1 - a) as nat;
            assert(pow10(k) == 10 * pow10((k - 1) as nat));
        }
        acc = acc * 10 + d;
        i = i + 1;
        proof {
            assert(t[i as int - 1 - a as int] == s@[i as int - 1]);
        }
    }
    proof {
        assert(digits_val(t, b as int - a as int, acc as int) == acc as int);
    }
    acc as usize
}

/// The first ten powers of ten, spelled out for the solver.
proof fn lemma_pow10_values()
    ensures
        pow10(0) == 1,
        pow10(1) == 10,
        pow10(2) == 100,
        pow10(3) == 1000,
        pow10(4) == 10000,
        pow10(5) == 100000,
        pow10(6) == 1000000,
        pow10(7) == 10000000,
        pow10(8) == 100000000,
        pow10(9) == 1000000000,
{
    assert(pow10(0) == 1);
    assert(pow10(1) == 10);
    assert(pow10(2) == 100);
    assert(pow10(3) == 1000);
    assert(pow10(4) == 10000);
    assert(pow10(5) == 100000);
    assert(pow10(6) == 1000000);
    assert(pow10(7) == 10000000);
    assert(pow10(8) == 100000000);
    assert(pow10(9) == 1000000000);
}

pub open spec fn pow10(n: nat) -> int
    decreases n,
{
    if n == 0 {
        1
    } else {
        10 * pow10((n - 1) as nat)
    }
}

/// Parses a whole path text into its segments; `None` on any malformed
/// segment.
pub fn parse_path(path: &str) -> (r: Option<Vec<PathSeg>>)
    ensures
        match r {
            Some(v) => path_parse(path@) == Some(segs_view(v@)),
            None => path_parse(path@) is None,
        },
{
    let s = str_chars(path);
    if s.len() == 0 || s[0] != '$' {
        return None;
    }
    let mut segs: Vec<PathSeg> = Vec::new();
    let mut i: usize = 1;
    while i < s.len()
        invariant
            1 <= i <= s@.len(),
            s@ == path@,
            s@.len() >= 1 && s@[0] == '$',
            match segs_from(s@, i as int) {
                None => path_parse(s@) is None,
                Some(rest) => path_parse(s@) == Some(segs_view(segs@) + rest),
            },
        decreases s@.len() - i,
    {
        let ghost before = segs_view(segs@);
        if s[i] == '.' {
            let n = name_run_exec(&s, i + 1);
            if n == 0 {
                return None;
            }
            let name_chars = copy_range(&s, i + 1, i + 1 + n);
            segs.push(PathSeg::Name(chars_to_string(&name_chars)));
            proof {
                assert(segs_view(segs@) =~= before.push(
                    SegView::Name(s@.subrange(i as int + 1, i as int + 1 + n)),
                ));
            }
            i = i + 1 + n;
        } else if s[i] == '[' {
            let d = digit_run_exec(&s, i + 1);
            if d == 0 || d > 9 {
                return None;
            }
            if i + 1 + d >= s.len() || s[i + 1 + d] != ']' {
                return None;
            }
            proof {
                assert(forall|k: int|
                    i as int + 1 <= k < i as int + 1 + d ==> is_digit(#[trigger] s@[k])) by {
                    lemma_digit_run_digits(s@, i as int + 1, d as int);
                }
            }
            let v = digits_to_usize(&s, i + 1, i + 1 + d);
            segs.push(PathSeg::Index(v));
            proof {
                assert(segs_view(segs@) =~= before.push(
                    SegView::Index(
                        digits_val(s@.subrange(i as int + 1, i as int + 1 + d), 0, 0),
                    ),
                ));
            }
            i = i + 1 + d + 1;
        } else {
            return None;
        }
        proof {
            match segs_from(s@, i as int) {
                None => {},
                Some(rest) => {
                    assert(segs_view(segs@) + rest =~= path_parse(s@).unwrap());
                },
            }
        }
    }
    proof {
        assert(segs_from(s@, s@.len() as int) == Some(Seq::<SegView>::empty()));
        assert(segs_view(segs@) + Seq::<SegView>::empty() =~= segs_view(segs@));
    }
    Some(segs)
}

pub(crate) proof fn lemma_digit_run_digits(s: Seq<char>, i: int, d: int)
    requires
        0 <= i,
        d == digit_run(s, i),
    ensures
        forall|k: int| i <= k < i + d ==> is_digit(#[trigger] s[k]),
    decreases d,
{
    if d > 0 {
        lemma_digit_run_digits(s, i + 1, d - 1);
    }
}

/// The last field of an object named `k`, mirroring a JSON map in which a
/// later duplicate key overwrites an earlier one.
pub open spec fn obj_get(fields: Seq<(String, JsonValue)>, k: Seq<char>) -> Option<JsonValue>
    decreases fields.len(),
{
    if fields.len() == 0 {
        None
    } else if fields.last().0@ == k {
        Some(fields.last().1)
    } else {
        obj_get(fields.drop_last(), k)
    }
}

pub(crate) fn obj_get_exec<'a>(fields: &'a Vec<(String, JsonValue)>, k: &str) -> (r: Option<&'a JsonValue>)
    ensures
        match r {
            Some(v) => obj_get(fields@, k@) == Some(*v),
            None => obj_get(fields@, k@) is None,
        },
{
    let mut i: usize = fields.len();
    proof {
        assert(fields@.take(i as int) =~= fields@);
    }
    while i > 0
        invariant
            i <= fields@.len(),
            obj_get(fields@, k@) == obj_get(fields@.take(i as int), k@),
        decreases i,
    {
        i = i - 1;
        let ghost pre = fields@.take(i as int + 1);
        proof {
            assert(pre.drop_last() =~= fields@.take(i as int));
            assert(pre.last() == fields@[i as int]);
        }
        if crate::strutil::str_eq(fields[i].0.as_str(), k) {
            return Some(&fields[i].1);
        }
    }
    proof {
        assert(fields@.take(0) =~= Seq::<(String, JsonValue)>::empty());
    }
    None
}

/// The value that the segments from `i` on select inside `v`, if any: a
/// name selects the matching object field, an index the array element.
pub open spec fn path_get(v: JsonValue, segs: Seq<SegView>, i: int) -> Option<JsonValue>
    decreases segs.len() - i,
{
    if i < 0 {
        None
    } else if i >= segs.len() {
        Some(v)
    } else {
        match segs[i] {
            SegView::Name(n) => match v {
                JsonValue::Obj(fields) => match obj_get(fields@, n) {
                    Some(child) => path_get(child, segs, i + 1),
                    None => None,
                },
                _ => None,
            },
            SegView::Index(k) => match v {
                JsonValue::Arr(items) => if 0 <= k < items@.len() {
                    path_get(items@[k], segs, i + 1)
                } else {
                    None
                },
                _ => None,
            },
        }
    }
}

fn path_get_exec<'a>(v: &'a JsonValue, segs: &Vec<PathSeg>, i: usize) -> (r: Option<
    &'a JsonValue,
>)
    requires
        i <= segs@.len(),
    ensures
        match r {
            Some(x) => path_get(*v, segs_view(segs@), i as int) == Some(*x),
            None => path_get(*v, segs_view(segs@), i as int) is None,
        },
    decreases segs@.len() - i,
{
    if i == segs.len() {
        return Some(v);
    }
    match &segs[i] {
        PathSeg::Name(n) => match v {
            JsonValue::Obj(fields) => match obj_get_exec(fields, n.as_str()) {
                Some(child) => path_get_exec(child, segs, i + 1),
                None => None,
            },
            _ => None,
        },
        PathSeg::Index(k) => match v {
            JsonValue::Arr(items) => {
                if *k < items.len() {
                    path_get_exec(&items[*k], segs, i + 1)
                } else {
                    None
                }
            },
            _ => None,
        },
    }
}

/// What selecting `path` inside `v` yields: `Err` when the path text is
/// malformed, `Ok(None)` when it is well-formed but selects nothing,
/// `Ok(Some(value))` otherwise.
pub open spec fn select_spec(v: JsonValue, path: Seq<char>) -> Result<Option<JsonValue>, ()> {
    match path_parse(path) {
        None => Err(()),
        Some(segs) => Ok(path_get(v, segs, 0)),
    }
}

/// Selects the first value at `path` inside `v`.
pub fn select_first<'a>(v: &'a JsonValue, path: &str) -> (r: Result<Option<&'a JsonValue>, ()>)
    ensures
        match r {
            Err(()) => select_spec(*v, path@) is Err,
            Ok(None) => select_spec(*v, path@) == Ok::<Option<JsonValue>, ()>(None),
            Ok(Some(x)) => select_spec(*v, path@) == Ok::<Option<JsonValue>, ()>(Some(*x)),
        },
{
    match parse_path(path) {
        None => Err(()),
        Some(segs) => match path_get_exec(v, &segs, 0) {
            Some(x) => Ok(Some(x)),
            None => Ok(None),
        },
    }
}

} // verus!
