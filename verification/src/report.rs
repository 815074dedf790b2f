//! The diagnostic reporter: renders an assertion failure as a boxed,
//! source-located report that shows the label, the expression with the
//! offending fragment underlined, and the advice.

use vstd::prelude::*;
use crate::model::AssertionError;
use crate::strutil::{append_str_chars, chars_to_string};

verus! {

/// `n` copies of `c`.
pub open spec fn repeat_char(c: char, n: int) -> Seq<char>
    decreases n,
{
    if n <= 0 {
        Seq::empty()
    } else {
        repeat_char(c, n - 1).push(c)
    }
}

/// The text re-flowed to the reporter's fixed width: a break is inserted
/// whenever a line reaches 80 columns.
pub open spec fn wrap80(s: Seq<char>, i: int, col: int) -> Seq<char>
    decreases s.len() - i,
{
    if i < 0 || i >= s.len() {
        Seq::empty()
    } else if s[i] == '\n' {
        seq!['\n'] + wrap80(s, i + 1, 0)
    } else if col >= 80 {
        seq!['\n', s[i]] + wrap80(s, i + 1, 1)
    } else {
        seq![s[i]] + wrap80(s, i + 1, col + 1)
    }
}

/// The rendered report: a header, the label, the source text with the
/// span underlined by carets, and the advice when there is one.
pub open spec fn report_text(
    advice: Option<Seq<char>>,
    label: Seq<char>,
    text: Seq<char>,
    start: int,
    len: int,
) -> Seq<char> {
    "  x request assertion failed\n   ,-["@ + label + "]\n   | "@ + text + "\n   : "@
        + repeat_char(' ', start) + repeat_char('^', len) + " this jsonpath here\n   `----\n"@
        + (match advice {
        Some(a) => "  help: "@ + a + "\n"@,
        None => Seq::empty(),
    })
}

/// The ghost form of an assertion error.
pub open spec fn err_view(e: AssertionError) -> (Option<Seq<char>>, Seq<char>, Seq<char>, int, int) {
    (
        match e.advice {
            Some(a) => Some(a@),
            None => None,
        },
        e.src_label@,
        e.src_text@,
        e.span_start as int,
        e.span_len as int,
    )
}

fn push_repeat(out: &mut Vec<char>, c: char, n: usize)
    ensures
        final(out)@ == old(out)@ + repeat_char(c, n as int),
{
    let mut i: usize = 0;
    while i < n
        invariant
            i <= n,
            out@ == old(out)@ + repeat_char(c, i as int),
        decreases n - i,
    {
        out.push(c);
        i = i + 1;
    }
}

fn wrap80_rec(s: &Vec<char>, i: usize, col: usize, out: &mut Vec<char>)
    requires
        i <= s@.len(),
    ensures
        final(out)@ == old(out)@ + wrap80(s@, i as int, col as int),
    decreases s@.len() - i,
{
    if i >= s.len() {
        proof {
            assert(final(out)@ =~= old(out)@ + wrap80(s@, i as int, col as int));
        }
        return;
    }
    let c = s[i];
    if c == '\n' {
        out.push('\n');
        wrap80_rec(s, i + 1, 0, out);
    } else if col >= 80 {
        out.push('\n');
        out.push(c);
        wrap80_rec(s, i + 1, 1, out);
    } else {
        out.push(c);
        wrap80_rec(s, i + 1, col + 1, out);
    }
    proof {
        assert(final(out)@ =~= old(out)@ + wrap80(s@, i as int, col as int));
    }
}

/// Renders one assertion error as its boxed report, re-flowed to the
/// reporter's fixed 80-column width.
pub fn report_error(e: &AssertionError) -> (r: String)
    ensures
        r@ == wrap80(report_text(
            match e.advice {
                Some(a) => Some(a@),
                None => None,
            },
            e.src_label@,
            e.src_text@,
            e.span_start as int,
            e.span_len as int,
        ), 0, 0),
{
    let mut out: Vec<char> = Vec::new();
    append_str_chars(&mut out, "  x request assertion failed\n   ,-[");
    append_str_chars(&mut out, e.src_label.as_str());
    append_str_chars(&mut out, "]\n   | ");
    append_str_chars(&mut out, e.src_text.as_str());
    append_str_chars(&mut out, "\n   : ");
    push_repeat(&mut out, ' ', e.span_start);
    push_repeat(&mut out, '^', e.span_len);
    append_str_chars(&mut out, " this jsonpath here\n   `----\n");
    match &e.advice {
        Some(a) => {
            append_str_chars(&mut out, "  help: ");
            append_str_chars(&mut out, a.as_str());
            append_str_chars(&mut out, "\n");
        },
        None => {},
    }
    proof {
        assert(out@ =~= report_text(
            match e.advice {
                Some(a) => Some(a@),
                None => None,
            },
            e.src_label@,
            e.src_text@,
            e.span_start as int,
            e.span_len as int,
        ));
    }
    let mut wrapped: Vec<char> = Vec::new();
    wrap80_rec(&out, 0, 0, &mut wrapped);
    chars_to_string(&wrapped)
}

} // verus!
