//! The expression sub-language of `ok` assertions.
//!
//! After substitution the remaining text is a small arithmetic/logical
//! expression: integer, string and boolean literals, the binary operators
//! `== != < <= > >= && || + - * /`, unary `!` and `-`, and parentheses.
//! Arithmetic is 64-bit and checked: overflow and division by zero make
//! the whole evaluation fail rather than wrap or panic.

use vstd::prelude::*;
use crate::paths::{digit_run, digits_val, is_ascii_ws, is_digit};
use crate::scan::word_run;
use crate::strutil::str_eq;

verus! {

pub enum Token {
    Int(i64),
    StrLit(String),
    BoolLit(bool),
    LParen,
    RParen,
    Bang,
    EqEq,
    Ne,
    Lt,
    Le,
    Gt,
    Ge,
    AndAnd,
    OrOr,
    Plus,
    Minus,
    Star,
    Slash,
}

/// The ghost form of a token.
pub enum TokView {
    Int(int),
    StrLit(Seq<char>),
    BoolLit(bool),
    LParen,
    RParen,
    Bang,
    EqEq,
    Ne,
    Lt,
    Le,
    Gt,
    Ge,
    AndAnd,
    OrOr,
    Plus,
    Minus,
    Star,
    Slash,
}

impl Token {
    pub open spec fn view(&self) -> TokView {
        match self {
            Token::Int(v) => TokView::Int(*v as int),
            Token::StrLit(s) => TokView::StrLit(s@),
            Token::BoolLit(b) => TokView::BoolLit(*b),
            Token::LParen => TokView::LParen,
            Token::RParen => TokView::RParen,
            Token::Bang => TokView::Bang,
            Token::EqEq => TokView::EqEq,
            Token::Ne => TokView::Ne,
            Token::Lt => TokView::Lt,
            Token::Le => TokView::Le,
            Token::Gt => TokView::Gt,
            Token::Ge => TokView::Ge,
            Token::AndAnd => TokView::AndAnd,
            Token::OrOr => TokView::OrOr,
            Token::Plus => TokView::Plus,
            Token::Minus => TokView::Minus,
            Token::Star => TokView::Star,
            Token::Slash => TokView::Slash,
        }
    }
}

pub open spec fn tokens_view(v: Seq<Token>) -> Seq<TokView> {
    v.map(|i: int, t: Token| t.view())
}

/// The simple escapes accepted inside a string literal.
pub open spec fn escape_of(c: char) -> Option<char> {
    if c == '"' { Some('"') }
    else if c == '\\' { Some('\\') }
    else if c == '/' { Some('/') }
    else if c == 'n' { Some('\n') }
    else if c == 'r' { Some('\r') }
    else if c == 't' { Some('\t') }
    else if c == 'b' { Some('\u{8}') }
    else if c == 'f' { Some('\u{c}') }
    else { None }
}

/// The contents of a string literal read from `i` (after the opening
/// quote), with the position just past the closing quote.
pub open spec fn lex_str_lit(s: Seq<char>, i: int) -> Option<(Seq<char>, int)>
    decreases s.len() - i,
{
    if i < 0 || i >= s.len() {
        None
    } else if s[i] == '"' {
        Some((Seq::empty(), i + 1))
    } else if s[i] == '\\' {
        if i + 1 < s.len() {
            match escape_of(s[i + 1]) {
                Some(ec) => match lex_str_lit(s, i + 2) {
                    Some(rest) => Some((seq![ec] + rest.0, rest.1)),
                    None => None,
                },
                None => None,
            }
        } else {
            None
        }
    } else {
        match lex_str_lit(s, i + 1) {
            Some(rest) => Some((seq![s[i]] + rest.0, rest.1)),
            None => None,
        }
    }
}

/// The token sequence of the text from `i` on, or `None` at the first
/// character that fits no token.
pub open spec fn lex_from(s: Seq<char>, i: int) -> Option<Seq<TokView>>
    decreases s.len() - i,
{
    if i < 0 {
        None
    } else if i >= s.len() {
        Some(Seq::empty())
    } else if is_ascii_ws(s[i]) {
        lex_from(s, i + 1)
    } else if s[i] == '(' {
        lex_cons(TokView::LParen, lex_from(s, i + 1))
    } else if s[i] == ')' {
        lex_cons(TokView::RParen, lex_from(s, i + 1))
    } else if s[i] == '+' {
        lex_cons(TokView::Plus, lex_from(s, i + 1))
    } else if s[i] == '-' {
        lex_cons(TokView::Minus, lex_from(s, i + 1))
    } else if s[i] == '*' {
        lex_cons(TokView::Star, lex_from(s, i + 1))
    } else if s[i] == '/' {
        lex_cons(TokView::Slash, lex_from(s, i + 1))
    } else if s[i] == '!' {
        if i + 1 < s.len() && s[i + 1] == '=' {
            lex_cons(TokView::Ne, lex_from(s, i + 2))
        } else {
            lex_cons(TokView::Bang, lex_from(s, i + 1))
        }
    } else if s[i] == '=' {
        if i + 1 < s.len() && s[i + 1] == '=' {
            lex_cons(TokView::EqEq, lex_from(s, i + 2))
        } else {
            None
        }
    } else if s[i] == '<' {
        if i + 1 < s.len() && s[i + 1] == '=' {
            lex_cons(TokView::Le, lex_from(s, i + 2))
        } else {
            lex_cons(TokView::Lt, lex_from(s, i + 1))
        }
    } else if s[i] == '>' {
        if i + 1 < s.len() && s[i + 1] == '=' {
            lex_cons(TokView::Ge, lex_from(s, i + 2))
        } else {
            lex_cons(TokView::Gt, lex_from(s, i + 1))
        }
    } else if s[i] == '&' {
        if i + 1 < s.len() && s[i + 1] == '&' {
            lex_cons(TokView::AndAnd, lex_from(s, i + 2))
        } else {
            None
        }
    } else if s[i] == '|' {
        if i + 1 < s.len() && s[i + 1] == '|' {
            lex_cons(TokView::OrOr, lex_from(s, i + 2))
        } else {
            None
        }
    } else if s[i] == '"' {
        match lex_str_lit(s, i + 1) {
            Some(lit) => if i < lit.1 && lit.1 <= s.len() {
                lex_cons(TokView::StrLit(lit.0), lex_from(s, lit.1))
            } else {
                None
            },
            None => None,
        }
    } else if is_digit(s[i]) {
        let d = digit_run(s, i);
        if 1 <= d <= 18 && i + d <= s.len() {
            lex_cons(TokView::Int(digits_val(s.subrange(i, i + d), 0, 0)), lex_from(s, i + d))
        } else {
            None
        }
    } else {
        let w = word_run(s, i);
        if w == 4 && i + 4 <= s.len() && s[i] == 't' && s[i + 1] == 'r' && s[i + 2] == 'u' && s[i
            + 3] == 'e' {
            lex_cons(TokView::BoolLit(true), lex_from(s, i + 4))
        } else if w == 5 && i + 5 <= s.len() && s[i] == 'f' && s[i + 1] == 'a' && s[i + 2] == 'l'
            && s[i + 3] == 's' && s[i + 4] == 'e' {
            lex_cons(TokView::BoolLit(false), lex_from(s, i + 5))
        } else {
            None
        }
    }
}

pub open spec fn lex_cons(t: TokView, rest: Option<Seq<TokView>>) -> Option<Seq<TokView>> {
    match rest {
        Some(r) => Some(seq![t] + r),
        None => None,
    }
}

/// An expression of the sub-language.
pub enum Expr {
    Int(i64),
    StrLit(String),
    BoolLit(bool),
    Not(Box<Expr>),
    Neg(Box<Expr>),
    Bin(BinOp, Box<Expr>, Box<Expr>),
}

#[derive(Clone, Copy, PartialEq, Eq, Structural)]
pub enum BinOp {
    Eq,
    Ne,
    Lt,
    Le,
    Gt,
    Ge,
    And,
    Or,
    Add,
    Sub,
    Mul,
    Div,
}

/// The ghost form of an expression.
pub enum ExprView {
    Int(int),
    StrLit(Seq<char>),
    BoolLit(bool),
    Not(Box<ExprView>),
    Neg(Box<ExprView>),
    Bin(BinOp, Box<ExprView>, Box<ExprView>),
}

impl Expr {
    pub open spec fn view(&self) -> ExprView
        decreases self,
    {
        match self {
            Expr::Int(v) => ExprView::Int(*v as int),
            Expr::StrLit(s) => ExprView::StrLit(s@),
            Expr::BoolLit(b) => ExprView::BoolLit(*b),
            Expr::Not(e) => ExprView::Not(Box::new(e.view())),
            Expr::Neg(e) => ExprView::Neg(Box::new(e.view())),
            Expr::Bin(op, l, r) => ExprView::Bin(*op, Box::new(l.view()), Box::new(r.view())),
        }
    }
}

/// A value of the sub-language.
pub enum Val {
    Int(i64),
    Str(String),
    Bool(bool),
}

/// The ghost form of a value.
pub enum ValView {
    Int(int),
    Str(Seq<char>),
    Bool(bool),
}

impl Val {
    pub open spec fn view(&self) -> ValView {
        match self {
            Val::Int(v) => ValView::Int(*v as int),
            Val::Str(s) => ValView::Str(s@),
            Val::Bool(b) => ValView::Bool(*b),
        }
    }
}

pub open spec fn abs_int(x: int) -> int {
    if x >= 0 {
        x
    } else {
        -x
    }
}

/// Truncated division, as Rust's integer `/` computes it.
pub open spec fn tdiv(x: int, y: int) -> int {
    if (x < 0) == (y < 0) {
        abs_int(x) / abs_int(y)
    } else {
        -(abs_int(x) / abs_int(y))
    }
}

pub open spec fn in_i64(x: int) -> bool {
    -9223372036854775808 <= x <= 9223372036854775807
}

/// Equality between values: values of different kinds are unequal rather
/// than an error.
pub open spec fn val_eq(a: ValView, b: ValView) -> bool {
    match (a, b) {
        (ValView::Int(x), ValView::Int(y)) => x == y,
        (ValView::Str(x), ValView::Str(y)) => x == y,
        (ValView::Bool(x), ValView::Bool(y)) => x == y,
        _ => false,
    }
}

/// What a binary operation yields on two evaluated operands (`&&` and `||`
/// are handled before evaluation of the right side and do not come here).
pub open spec fn bin_val(op: BinOp, a: ValView, b: ValView) -> Option<ValView> {
    match op {
        BinOp::Eq => Some(ValView::Bool(val_eq(a, b))),
        BinOp::Ne => Some(ValView::Bool(!val_eq(a, b))),
        BinOp::Lt => match (a, b) {
            (ValView::Int(x), ValView::Int(y)) => Some(ValView::Bool(x < y)),
            _ => None,
        },
        BinOp::Le => match (a, b) {
            (ValView::Int(x), ValView::Int(y)) => Some(ValView::Bool(x <= y)),
            _ => None,
        },
        BinOp::Gt => match (a, b) {
            (ValView::Int(x), ValView::Int(y)) => Some(ValView::Bool(x > y)),
            _ => None,
        },
        BinOp::Ge => match (a, b) {
            (ValView::Int(x), ValView::Int(y)) => Some(ValView::Bool(x >= y)),
            _ => None,
        },
        BinOp::Add => match (a, b) {
            (ValView::Int(x), ValView::Int(y)) => if in_i64(x + y) {
                Some(ValView::Int(x + y))
            } else {
                None
            },
            (ValView::Str(x), ValView::Str(y)) => Some(ValView::Str(x + y)),
            _ => None,
        },
        BinOp::Sub => match (a, b) {
            (ValView::Int(x), ValView::Int(y)) => if in_i64(x - y) {
                Some(ValView::Int(x - y))
            } else {
                None
            },
            _ => None,
        },
        BinOp::Mul => match (a, b) {
            (ValView::Int(x), ValView::Int(y)) => if in_i64(x * y) {
                Some(ValView::Int(x * y))
            } else {
                None
            },
            _ => None,
        },
        BinOp::Div => match (a, b) {
            (ValView::Int(x), ValView::Int(y)) => if y != 0 && in_i64(tdiv(x, y)) {
                Some(ValView::Int(tdiv(x, y)))
            } else {
                None
            },
            _ => None,
        },
        _ => None,
    }
}

/// The value of an expression; `None` on any type error, overflow or
/// division by zero. `&&` and `||` short-circuit on their left side.
pub open spec fn eval_view(e: ExprView) -> Option<ValView>
    decreases e,
{
    match e {
        ExprView::Int(v) => Some(ValView::Int(v)),
        ExprView::StrLit(s) => Some(ValView::Str(s)),
        ExprView::BoolLit(b) => Some(ValView::Bool(b)),
        ExprView::Not(inner) => match eval_view(*inner) {
            Some(ValView::Bool(b)) => Some(ValView::Bool(!b)),
            _ => None,
        },
        ExprView::Neg(inner) => match eval_view(*inner) {
            Some(ValView::Int(x)) => if in_i64(-x) {
                Some(ValView::Int(-x))
            } else {
                None
            },
            _ => None,
        },
        ExprView::Bin(op, l, r) => if op == BinOp::And {
            match eval_view(*l) {
                Some(ValView::Bool(false)) => Some(ValView::Bool(false)),
                Some(ValView::Bool(true)) => match eval_view(*r) {
                    Some(ValView::Bool(b)) => Some(ValView::Bool(b)),
                    _ => None,
                },
                _ => None,
            }
        } else if op == BinOp::Or {
            match eval_view(*l) {
                Some(ValView::Bool(true)) => Some(ValView::Bool(true)),
                Some(ValView::Bool(false)) => match eval_view(*r) {
                    Some(ValView::Bool(b)) => Some(ValView::Bool(b)),
                    _ => None,
                },
                _ => None,
            }
        } else {
            match (eval_view(*l), eval_view(*r)) {
                (Some(a), Some(b)) => bin_val(op, a, b),
                _ => None,
            }
        },
    }
}

// ---------------------------------------------------------------------------
// Parser specification: a recursive-descent reading of the grammar
//   or    := and (|| and)*
//   and   := cmp (&& cmp)*
//   cmp   := add ((== | != | < | <= | > | >=) add)*
//   add   := mul ((+ | -) mul)*
//   mul   := unary ((* | /) unary)*
//   unary := (! | -) unary | atom
//   atom  := literal | ( or )
// ---------------------------------------------------------------------------

pub open spec fn cmp_op_of(t: TokView) -> Option<BinOp> {
    match t {
        TokView::EqEq => Some(BinOp::Eq),
        TokView::Ne => Some(BinOp::Ne),
        TokView::Lt => Some(BinOp::Lt),
        TokView::Le => Some(BinOp::Le),
        TokView::Gt => Some(BinOp::Gt),
        TokView::Ge => Some(BinOp::Ge),
        _ => None,
    }
}

pub open spec fn add_op_of(t: TokView) -> Option<BinOp> {
    match t {
        TokView::Plus => Some(BinOp::Add),
        TokView::Minus => Some(BinOp::Sub),
        _ => None,
    }
}

pub open spec fn mul_op_of(t: TokView) -> Option<BinOp> {
    match t {
        TokView::Star => Some(BinOp::Mul),
        TokView::Slash => Some(BinOp::Div),
        _ => None,
    }
}

pub open spec fn parse_or(ts: Seq<TokView>, i: int) -> Option<(ExprView, int)>
    decreases ts.len() - i, 10int,
{
    match parse_and(ts, i) {
        None => None,
        Some(ej) => if i < ej.1 <= ts.len() {
            parse_or_tail(ts, ej.0, ej.1)
        } else {
            None
        },
    }
}

pub open spec fn parse_or_tail(ts: Seq<TokView>, e: ExprView, j: int) -> Option<(ExprView, int)>
    decreases ts.len() - j, 11int,
{
    if 0 <= j < ts.len() && ts[j] is OrOr {
        match parse_and(ts, j + 1) {
            None => None,
            Some(ej2) => if j < ej2.1 <= ts.len() {
                parse_or_tail(ts, ExprView::Bin(BinOp::Or, Box::new(e), Box::new(ej2.0)), ej2.1)
            } else {
                None
            },
        }
    } else {
        Some((e, j))
    }
}

pub open spec fn parse_and(ts: Seq<TokView>, i: int) -> Option<(ExprView, int)>
    decreases ts.len() - i, 8int,
{
    match parse_cmp(ts, i) {
        None => None,
        Some(ej) => if i < ej.1 <= ts.len() {
            parse_and_tail(ts, ej.0, ej.1)
        } else {
            None
        },
    }
}

pub open spec fn parse_and_tail(ts: Seq<TokView>, e: ExprView, j: int) -> Option<(ExprView, int)>
    decreases ts.len() - j, 9int,
{
    if 0 <= j < ts.len() && ts[j] is AndAnd {
        match parse_cmp(ts, j + 1) {
            None => None,
            Some(ej2) => if j < ej2.1 <= ts.len() {
                parse_and_tail(ts, ExprView::Bin(BinOp::And, Box::new(e), Box::new(ej2.0)), ej2.1)
            } else {
                None
            },
        }
    } else {
        Some((e, j))
    }
}

pub open spec fn parse_cmp(ts: Seq<TokView>, i: int) -> Option<(ExprView, int)>
    decreases ts.len() - i, 6int,
{
    match parse_add(ts, i) {
        None => None,
        Some(ej) => if i < ej.1 <= ts.len() {
            parse_cmp_tail(ts, ej.0, ej.1)
        } else {
            None
        },
    }
}

pub open spec fn parse_cmp_tail(ts: Seq<TokView>, e: ExprView, j: int) -> Option<(ExprView, int)>
    decreases ts.len() - j, 7int,
{
    if 0 <= j < ts.len() && cmp_op_of(ts[j]) is Some {
        match parse_add(ts, j + 1) {
            None => None,
            Some(ej2) => if j < ej2.1 <= ts.len() {
                parse_cmp_tail(
                    ts,
                    ExprView::Bin(cmp_op_of(ts[j]).unwrap(), Box::new(e), Box::new(ej2.0)),
                    ej2.1,
                )
            } else {
                None
            },
        }
    } else {
        Some((e, j))
    }
}

pub open spec fn parse_add(ts: Seq<TokView>, i: int) -> Option<(ExprView, int)>
    decreases ts.len() - i, 4int,
{
    match parse_mul(ts, i) {
        None => None,
        Some(ej) => if i < ej.1 <= ts.len() {
            parse_add_tail(ts, ej.0, ej.1)
        } else {
            None
        },
    }
}

pub open spec fn parse_add_tail(ts: Seq<TokView>, e: ExprView, j: int) -> Option<(ExprView, int)>
    decreases ts.len() - j, 5int,
{
    if 0 <= j < ts.len() && add_op_of(ts[j]) is Some {
        match parse_mul(ts, j + 1) {
            None => None,
            Some(ej2) => if j < ej2.1 <= ts.len() {
                parse_add_tail(
                    ts,
                    ExprView::Bin(add_op_of(ts[j]).unwrap(), Box::new(e), Box::new(ej2.0)),
                    ej2.1,
                )
            } else {
                None
            },
        }
    } else {
        Some((e, j))
    }
}

pub open spec fn parse_mul(ts: Seq<TokView>, i: int) -> Option<(ExprView, int)>
    decreases ts.len() - i, 2int,
{
    match parse_unary(ts, i) {
        None => None,
        Some(ej) => if i < ej.1 <= ts.len() {
            parse_mul_tail(ts, ej.0, ej.1)
        } else {
            None
        },
    }
}

pub open spec fn parse_mul_tail(ts: Seq<TokView>, e: ExprView, j: int) -> Option<(ExprView, int)>
    decreases ts.len() - j, 3int,
{
    if 0 <= j < ts.len() && mul_op_of(ts[j]) is Some {
        match parse_unary(ts, j + 1) {
            None => None,
            Some(ej2) => if j < ej2.1 <= ts.len() {
                parse_mul_tail(
                    ts,
                    ExprView::Bin(mul_op_of(ts[j]).unwrap(), Box::new(e), Box::new(ej2.0)),
                    ej2.1,
                )
            } else {
                None
            },
        }
    } else {
        Some((e, j))
    }
}

pub open spec fn parse_unary(ts: Seq<TokView>, i: int) -> Option<(ExprView, int)>
    decreases ts.len() - i, 1int,
{
    if 0 <= i < ts.len() && ts[i] is Bang {
        match parse_unary(ts, i + 1) {
            None => None,
            Some(ej) => if i < ej.1 <= ts.len() {
                Some((ExprView::Not(Box::new(ej.0)), ej.1))
            } else {
                None
            },
        }
    } else if 0 <= i < ts.len() && ts[i] is Minus {
        match parse_unary(ts, i + 1) {
            None => None,
            Some(ej) => if i < ej.1 <= ts.len() {
                Some((ExprView::Neg(Box::new(ej.0)), ej.1))
            } else {
                None
            },
        }
    } else {
        parse_atom(ts, i)
    }
}

pub open spec fn parse_atom(ts: Seq<TokView>, i: int) -> Option<(ExprView, int)>
    decreases ts.len() - i, 0int,
{
    if 0 <= i < ts.len() {
        match ts[i] {
            TokView::Int(v) => Some((ExprView::Int(v), i + 1)),
            TokView::StrLit(s) => Some((ExprView::StrLit(s), i + 1)),
            TokView::BoolLit(b) => Some((ExprView::BoolLit(b), i + 1)),
            TokView::LParen => match parse_or(ts, i + 1) {
                None => None,
                Some(ej) => if i < ej.1 && ej.1 < ts.len() && ts[ej.1] is RParen {
                    Some((ej.0, ej.1 + 1))
                } else {
                    None
                },
            },
            _ => None,
        }
    } else {
        None
    }
}

/// The value of a whole expression text: lexed, parsed to the end, then
/// evaluated.
pub open spec fn eval_expr_text(s: Seq<char>) -> Option<ValView> {
    match lex_from(s, 0) {
        None => None,
        Some(ts) => match parse_or(ts, 0) {
            None => None,
            Some(ej) => if ej.1 == ts.len() {
                eval_view(ej.0)
            } else {
                None
            },
        },
    }
}

// ---------------------------------------------------------------------------
// Executable lexer
// ---------------------------------------------------------------------------

pub(crate) fn escape_of_exec(c: char) -> (r: Option<char>)
    ensures
        r == escape_of(c),
{
    if c == '"' { Some('"') }
    else if c == '\\' { Some('\\') }
    else if c == '/' { Some('/') }
    else if c == 'n' { Some('\n') }
    else if c == 'r' { Some('\r') }
    else if c == 't' { Some('\t') }
    else if c == 'b' { Some('\u{8}') }
    else if c == 'f' { Some('\u{c}') }
    else { None }
}

fn lex_str_exec(s: &Vec<char>, i: usize) -> (r: Option<(Vec<char>, usize)>)
    requires
        i <= s@.len(),
    ensures
        match r {
            Some(ce) => lex_str_lit(s@, i as int) == Some((ce.0@, ce.1 as int)) && i < ce.1
                <= s@.len(),
            None => lex_str_lit(s@, i as int) is None,
        },
    decreases s@.len() - i,
{
    if i >= s.len() {
        return None;
    }
    let c = s[i];
    if c == '"' {
        let v: Vec<char> = Vec::new();
        proof {
            assert(v@ =~= Seq::<char>::empty());
        }
        Some((v, i + 1))
    } else if c == '\\' {
        if i + 1 < s.len() {
            match escape_of_exec(s[i + 1]) {
                Some(ec) => match lex_str_exec(s, i + 2) {
                    Some((rest, end)) => {
                        let mut v: Vec<char> = Vec::new();
                        v.push(ec);
                        crate::strutil::append_chars(&mut v, &rest);
                        proof {
                            assert(v@ =~= seq![ec] + rest@);
                        }
                        Some((v, end))
                    },
                    None => None,
                },
                None => None,
            }
        } else {
            None
        }
    } else {
        match lex_str_exec(s, i + 1) {
            Some((rest, end)) => {
                let mut v: Vec<char> = Vec::new();
                v.push(c);
                crate::strutil::append_chars(&mut v, &rest);
                proof {
                    assert(v@ =~= seq![c] + rest@);
                }
                Some((v, end))
            },
            None => None,
        }
    }
}

/// The first nineteen powers of ten, spelled out for the solver.
proof fn lemma_pow10_values_18()
    ensures
        crate::paths::pow10(0) == 1,
        crate::paths::pow10(9) == 1000000000,
        crate::paths::pow10(18) == 1000000000000000000,
        forall|n: nat| n <= 18 ==> #[trigger] crate::paths::pow10(n) <= 1000000000000000000,
{
    assert(crate::paths::pow10(0) == 1);
    assert(crate::paths::pow10(1) == 10);
    assert(crate::paths::pow10(2) == 100);
    assert(crate::paths::pow10(3) == 1000);
    assert(crate::paths::pow10(4) == 10000);
    assert(crate::paths::pow10(5) == 100000);
    assert(crate::paths::pow10(6) == 1000000);
    assert(crate::paths::pow10(7) == 10000000);
    assert(crate::paths::pow10(8) == 100000000);
    assert(crate::paths::pow10(9) == 1000000000);
    assert(crate::paths::pow10(10) == 10000000000);
    assert(crate::paths::pow10(11) == 100000000000);
    assert(crate::paths::pow10(12) == 1000000000000);
    assert(crate::paths::pow10(13) == 10000000000000);
    assert(crate::paths::pow10(14) == 100000000000000);
    assert(crate::paths::pow10(15) == 1000000000000000);
    assert(crate::paths::pow10(16) == 10000000000000000);
    assert(crate::paths::pow10(17) == 100000000000000000);
    assert(crate::paths::pow10(18) == 1000000000000000000);
    assert forall|n: nat| n <= 18 implies #[trigger] crate::paths::pow10(n)
        <= 1000000000000000000 by {
        assert(n == 0 || n == 1 || n == 2 || n == 3 || n == 4 || n == 5 || n == 6 || n == 7 || n
            == 8 || n == 9 || n == 10 || n == 11 || n == 12 || n == 13 || n == 14 || n == 15 || n
            == 16 || n == 17 || n == 18);
    }
}

fn digits_to_i64(s: &Vec<char>, a: usize, b: usize) -> (r: i64)
    requires
        a <= b <= s@.len(),
        b - a <= 18,
        forall|k: int| a <= k < b ==> is_digit(#[trigger] s@[k]),
    ensures
        r as int == digits_val(s@.subrange(a as int, b as int), 0, 0),
        0 <= r,
{
    let ghost t = s@.subrange(a as int, b as int);
    let mut i: usize = a;
    let mut acc: u64 = 0;
    while i < b
        invariant
            a <= i <= b <= s@.len(),
            b - a <= 18,
            forall|k: int| a <= k < b ==> is_digit(#[trigger] s@[k]),
            acc < 1000000000000000000,
            acc < crate::paths::pow10((i - a) as nat),
            t == s@.subrange(a as int, b as int),
            digits_val(t, 0, 0) == digits_val(t, i as int - a as int, acc as int),
        decreases b - i,
    {
        let d = crate::paths::digit_val_exec(s[i]);
        proof {
            lemma_pow10_values_18();
            let k = (i + 1 - a) as nat;
            assert(crate::paths::pow10(k) == 10 * crate::paths::pow10((k - 1) as nat));
        }
        acc = acc * 10 + d;
        i = i + 1;
        proof {
            assert(t[i as int - 1 - a as int] == s@[i as int - 1]);
        }
    }
    proof {
        assert(digits_val(t, b as int - a as int, acc as int) == acc as int);
    }
    acc as i64
}

#[verifier::rlimit(100)]
fn lex_exec(s: &Vec<char>, i: usize, out: &mut Vec<Token>) -> (ok: bool)
    requires
        i <= s@.len(),
    ensures
        ok == (lex_from(s@, i as int) is Some),
        ok ==> tokens_view(final(out)@) == tokens_view(old(out)@) + lex_from(
            s@,
            i as int,
        ).unwrap(),
    decreases s@.len() - i,
{
    if i >= s.len() {
        proof {
            assert(tokens_view(out@) =~= tokens_view(out@) + lex_from(s@, i as int).unwrap());
        }
        return true;
    }
    let c = s[i];
    if crate::paths::is_ascii_ws_exec(c) {
        return lex_exec(s, i + 1, out);
    }
    if c == '(' || c == ')' || c == '+' || c == '-' || c == '*' || c == '/' {
        let t = if c == '(' { Token::LParen } else if c == ')' { Token::RParen } else if c == '+' {
            Token::Plus
        } else if c == '-' { Token::Minus } else if c == '*' { Token::Star } else { Token::Slash };
        let ghost tv = t.view();
        out.push(t);
        proof {
            assert(tokens_view(out@) =~= tokens_view(old(out)@).push(tv));
        }
        let ok = lex_exec(s, i + 1, out);
        proof {
            if ok {
                assert(tokens_view(final(out)@) =~= tokens_view(old(out)@) + lex_from(
                    s@,
                    i as int,
                ).unwrap());
            }
        }
        return ok;
    }
    if c == '!' || c == '<' || c == '>' {
        let two = i + 1 < s.len() && s[i + 1] == '=';
        let t = if c == '!' {
            if two { Token::Ne } else { Token::Bang }
        } else if c == '<' {
            if two { Token::Le } else { Token::Lt }
        } else {
            if two { Token::Ge } else { Token::Gt }
        };
        let next = if two { i + 2 } else { i + 1 };
        let ghost tv = t.view();
        out.push(t);
        proof {
            assert(tokens_view(out@) =~= tokens_view(old(out)@).push(tv));
        }
        let ok = lex_exec(s, next, out);
        proof {
            if ok {
                assert(tokens_view(final(out)@) =~= tokens_view(old(out)@) + lex_from(
                    s@,
                    i as int,
                ).unwrap());
            }
        }
        return ok;
    }
    if c == '=' || c == '&' || c == '|' {
        if !(i + 1 < s.len() && s[i + 1] == c) {
            return false;
        }
        let t = if c == '=' { Token::EqEq } else if c == '&' { Token::AndAnd } else { Token::OrOr };
        let ghost tv = t.view();
        out.push(t);
        proof {
            assert(tokens_view(out@) =~= tokens_view(old(out)@).push(tv));
        }
        let ok = lex_exec(s, i + 2, out);
        proof {
            if ok {
                assert(tokens_view(final(out)@) =~= tokens_view(old(out)@) + lex_from(
                    s@,
                    i as int,
                ).unwrap());
            }
        }
        return ok;
    }
    if c == '"' {
        match lex_str_exec(s, i + 1) {
            None => {
                return false;
            },
            Some((content, end)) => {
                let t = Token::StrLit(crate::strutil::chars_to_string(&content));
                let ghost tv = t.view();
                out.push(t);
                proof {
                    assert(tokens_view(out@) =~= tokens_view(old(out)@).push(tv));
                }
                let ok = lex_exec(s, end, out);
                proof {
                    if ok {
                        assert(tokens_view(final(out)@) =~= tokens_view(old(out)@) + lex_from(
                            s@,
                            i as int,
                        ).unwrap());
                    }
                }
                return ok;
            },
        }
    }
    if crate::paths::is_digit_exec(c) {
        let d = crate::paths::digit_run_exec(s, i);
        if d > 18 {
            return false;
        }
        proof {
            crate::paths::lemma_digit_run_digits(s@, i as int, d as int);
        }
        let v = digits_to_i64(s, i, i + d);
        let t = Token::Int(v);
        let ghost tv = t.view();
        out.push(t);
        proof {
            assert(tokens_view(out@) =~= tokens_view(old(out)@).push(tv));
        }
        let ok = lex_exec(s, i + d, out);
        proof {
            if ok {
                assert(tokens_view(final(out)@) =~= tokens_view(old(out)@) + lex_from(
                    s@,
                    i as int,
                ).unwrap());
            }
        }
        return ok;
    }
    let w = crate::scan::word_run_exec(s, i);
    if w == 4 && s[i] == 't' && s[i + 1] == 'r' && s[i + 2] == 'u' && s[i + 3] == 'e' {
        let t = Token::BoolLit(true);
        let ghost tv = t.view();
        out.push(t);
        proof {
            assert(tokens_view(out@) =~= tokens_view(old(out)@).push(tv));
        }
        let ok = lex_exec(s, i + 4, out);
        proof {
            if ok {
                assert(tokens_view(final(out)@) =~= tokens_view(old(out)@) + lex_from(
                    s@,
                    i as int,
                ).unwrap());
            }
        }
        return ok;
    }
    if w == 5 && s[i] == 'f' && s[i + 1] == 'a' && s[i + 2] == 'l' && s[i + 3] == 's' && s[i + 4]
        == 'e' {
        let t = Token::BoolLit(false);
        let ghost tv = t.view();
        out.push(t);
        proof {
            assert(tokens_view(out@) =~= tokens_view(old(out)@).push(tv));
        }
        let ok = lex_exec(s, i + 5, out);
        proof {
            if ok {
                assert(tokens_view(final(out)@) =~= tokens_view(old(out)@) + lex_from(
                    s@,
                    i as int,
                ).unwrap());
            }
        }
        return ok;
    }
    false
}

// ---------------------------------------------------------------------------
// Executable parser
// ---------------------------------------------------------------------------

fn cmp_op_exec(t: &Token) -> (r: Option<BinOp>)
    ensures
        r == cmp_op_of(t.view()),
{
    match t {
        Token::EqEq => Some(BinOp::Eq),
        Token::Ne => Some(BinOp::Ne),
        Token::Lt => Some(BinOp::Lt),
        Token::Le => Some(BinOp::Le),
        Token::Gt => Some(BinOp::Gt),
        Token::Ge => Some(BinOp::Ge),
        _ => None,
    }
}

fn add_op_exec(t: &Token) -> (r: Option<BinOp>)
    ensures
        r == add_op_of(t.view()),
{
    match t {
        Token::Plus => Some(BinOp::Add),
        Token::Minus => Some(BinOp::Sub),
        _ => None,
    }
}

fn mul_op_exec(t: &Token) -> (r: Option<BinOp>)
    ensures
        r == mul_op_of(t.view()),
{
    match t {
        Token::Star => Some(BinOp::Mul),
        Token::Slash => Some(BinOp::Div),
        _ => None,
    }
}

fn parse_or_exec(toks: &Vec<Token>, i: usize) -> (r: Option<(Expr, usize)>)
    requires
        i <= toks@.len(),
    ensures
        match r {
            Some(ej) => parse_or(tokens_view(toks@), i as int) == Some(
                (ej.0.view(), ej.1 as int),
            ) && i < ej.1 <= toks@.len(),
            None => parse_or(tokens_view(toks@), i as int) is None,
        },
    decreases toks@.len() - i, 10int,
{
    match parse_and_exec(toks, i) {
        None => None,
        Some((e, j)) => parse_or_tail_exec(toks, e, j),
    }
}

fn parse_or_tail_exec(toks: &Vec<Token>, e: Expr, j: usize) -> (r: Option<(Expr, usize)>)
    requires
        j <= toks@.len(),
    ensures
        match r {
            Some(ej) => parse_or_tail(tokens_view(toks@), e.view(), j as int) == Some(
                (ej.0.view(), ej.1 as int),
            ) && j <= ej.1 <= toks@.len(),
            None => parse_or_tail(tokens_view(toks@), e.view(), j as int) is None,
        },
    decreases toks@.len() - j, 11int,
{
    proof {
        assert(tokens_view(toks@).len() == toks@.len());
    }
    let more = j < toks.len() && (match &toks[j] {
        Token::OrOr => true,
        _ => false,
    });
    proof {
        if j < toks@.len() {
            assert(tokens_view(toks@)[j as int] == toks@[j as int].view());
        }
    }
    if more {
        match parse_and_exec(toks, j + 1) {
            None => None,
            Some((e2, k)) => parse_or_tail_exec(
                toks,
                Expr::Bin(BinOp::Or, Box::new(e), Box::new(e2)),
                k,
            ),
        }
    } else {
        Some((e, j))
    }
}

fn parse_and_exec(toks: &Vec<Token>, i: usize) -> (r: Option<(Expr, usize)>)
    requires
        i <= toks@.len(),
    ensures
        match r {
            Some(ej) => parse_and(tokens_view(toks@), i as int) == Some(
                (ej.0.view(), ej.1 as int),
            ) && i < ej.1 <= toks@.len(),
            None => parse_and(tokens_view(toks@), i as int) is None,
        },
    decreases toks@.len() - i, 8int,
{
    match parse_cmp_exec(toks, i) {
        None => None,
        Some((e, j)) => parse_and_tail_exec(toks, e, j),
    }
}

fn parse_and_tail_exec(toks: &Vec<Token>, e: Expr, j: usize) -> (r: Option<(Expr, usize)>)
    requires
        j <= toks@.len(),
    ensures
        match r {
            Some(ej) => parse_and_tail(tokens_view(toks@), e.view(), j as int) == Some(
                (ej.0.view(), ej.1 as int),
            ) && j <= ej.1 <= toks@.len(),
            None => parse_and_tail(tokens_view(toks@), e.view(), j as int) is None,
        },
    decreases toks@.len() - j, 9int,
{
    proof {
        assert(tokens_view(toks@).len() == toks@.len());
    }
    let more = j < toks.len() && (match &toks[j] {
        Token::AndAnd => true,
        _ => false,
    });
    proof {
        if j < toks@.len() {
            assert(tokens_view(toks@)[j as int] == toks@[j as int].view());
        }
    }
    if more {
        match parse_cmp_exec(toks, j + 1) {
            None => None,
            Some((e2, k)) => parse_and_tail_exec(
                toks,
                Expr::Bin(BinOp::And, Box::new(e), Box::new(e2)),
                k,
            ),
        }
    } else {
        Some((e, j))
    }
}

fn parse_cmp_exec(toks: &Vec<Token>, i: usize) -> (r: Option<(Expr, usize)>)
    requires
        i <= toks@.len(),
    ensures
        match r {
            Some(ej) => parse_cmp(tokens_view(toks@), i as int) == Some(
                (ej.0.view(), ej.1 as int),
            ) && i < ej.1 <= toks@.len(),
            None => parse_cmp(tokens_view(toks@), i as int) is None,
        },
    decreases toks@.len() - i, 6int,
{
    match parse_add_exec(toks, i) {
        None => None,
        Some((e, j)) => parse_cmp_tail_exec(toks, e, j),
    }
}

fn parse_cmp_tail_exec(toks: &Vec<Token>, e: Expr, j: usize) -> (r: Option<(Expr, usize)>)
    requires
        j <= toks@.len(),
    ensures
        match r {
            Some(ej) => parse_cmp_tail(tokens_view(toks@), e.view(), j as int) == Some(
                (ej.0.view(), ej.1 as int),
            ) && j <= ej.1 <= toks@.len(),
            None => parse_cmp_tail(tokens_view(toks@), e.view(), j as int) is None,
        },
    decreases toks@.len() - j, 7int,
{
    proof {
        assert(tokens_view(toks@).len() == toks@.len());
    }
    let op = if j < toks.len() {
        cmp_op_exec(&toks[j])
    } else {
        None
    };
    proof {
        if j < toks@.len() {
            assert(tokens_view(toks@)[j as int] == toks@[j as int].view());
        }
    }
    match op {
        Some(bop) => match parse_add_exec(toks, j + 1) {
            None => None,
            Some((e2, k)) => parse_cmp_tail_exec(
                toks,
                Expr::Bin(bop, Box::new(e), Box::new(e2)),
                k,
            ),
        },
        None => Some((e, j)),
    }
}

fn parse_add_exec(toks: &Vec<Token>, i: usize) -> (r: Option<(Expr, usize)>)
    requires
        i <= toks@.len(),
    ensures
        match r {
            Some(ej) => parse_add(tokens_view(toks@), i as int) == Some(
                (ej.0.view(), ej.1 as int),
            ) && i < ej.1 <= toks@.len(),
            None => parse_add(tokens_view(toks@), i as int) is None,
        },
    decreases toks@.len() - i, 4int,
{
    match parse_mul_exec(toks, i) {
        None => None,
        Some((e, j)) => parse_add_tail_exec(toks, e, j),
    }
}

fn parse_add_tail_exec(toks: &Vec<Token>, e: Expr, j: usize) -> (r: Option<(Expr, usize)>)
    requires
        j <= toks@.len(),
    ensures
        match r {
            Some(ej) => parse_add_tail(tokens_view(toks@), e.view(), j as int) == Some(
                (ej.0.view(), ej.1 as int),
            ) && j <= ej.1 <= toks@.len(),
            None => parse_add_tail(tokens_view(toks@), e.view(), j as int) is None,
        },
    decreases toks@.len() - j, 5int,
{
    proof {
        assert(tokens_view(toks@).len() == toks@.len());
    }
    let op = if j < toks.len() {
        add_op_exec(&toks[j])
    } else {
        None
    };
    proof {
        if j < toks@.len() {
            assert(tokens_view(toks@)[j as int] == toks@[j as int].view());
        }
    }
    match op {
        Some(bop) => match parse_mul_exec(toks, j + 1) {
            None => None,
            Some((e2, k)) => parse_add_tail_exec(
                toks,
                Expr::Bin(bop, Box::new(e), Box::new(e2)),
                k,
            ),
        },
        None => Some((e, j)),
    }
}

fn parse_mul_exec(toks: &Vec<Token>, i: usize) -> (r: Option<(Expr, usize)>)
    requires
        i <= toks@.len(),
    ensures
        match r {
            Some(ej) => parse_mul(tokens_view(toks@), i as int) == Some(
                (ej.0.view(), ej.1 as int),
            ) && i < ej.1 <= toks@.len(),
            None => parse_mul(tokens_view(toks@), i as int) is None,
        },
    decreases toks@.len() - i, 2int,
{
    match parse_unary_exec(toks, i) {
        None => None,
        Some((e, j)) => parse_mul_tail_exec(toks, e, j),
    }
}

fn parse_mul_tail_exec(toks: &Vec<Token>, e: Expr, j: usize) -> (r: Option<(Expr, usize)>)
    requires
        j <= toks@.len(),
    ensures
        match r {
            Some(ej) => parse_mul_tail(tokens_view(toks@), e.view(), j as int) == Some(
                (ej.0.view(), ej.1 as int),
            ) && j <= ej.1 <= toks@.len(),
            None => parse_mul_tail(tokens_view(toks@), e.view(), j as int) is None,
        },
    decreases toks@.len() - j, 3int,
{
    proof {
        assert(tokens_view(toks@).len() == toks@.len());
    }
    let op = if j < toks.len() {
        mul_op_exec(&toks[j])
    } else {
        None
    };
    proof {
        if j < toks@.len() {
            assert(tokens_view(toks@)[j as int] == toks@[j as int].view());
        }
    }
    match op {
        Some(bop) => match parse_unary_exec(toks, j + 1) {
            None => None,
            Some((e2, k)) => parse_mul_tail_exec(
                toks,
                Expr::Bin(bop, Box::new(e), Box::new(e2)),
                k,
            ),
        },
        None => Some((e, j)),
    }
}

fn parse_unary_exec(toks: &Vec<Token>, i: usize) -> (r: Option<(Expr, usize)>)
    requires
        i <= toks@.len(),
    ensures
        match r {
            Some(ej) => parse_unary(tokens_view(toks@), i as int) == Some(
                (ej.0.view(), ej.1 as int),
            ) && i < ej.1 <= toks@.len(),
            None => parse_unary(tokens_view(toks@), i as int) is None,
        },
    decreases toks@.len() - i, 1int,
{
    proof {
        assert(tokens_view(toks@).len() == toks@.len());
        if i < toks@.len() {
            assert(tokens_view(toks@)[i as int] == toks@[i as int].view());
        }
    }
    if i < toks.len() {
        let kind: u8 = match &toks[i] {
            Token::Bang => 1,
            Token::Minus => 2,
            _ => 0,
        };
        if kind == 1 {
            return match parse_unary_exec(toks, i + 1) {
                None => None,
                Some((e, j)) => Some((Expr::Not(Box::new(e)), j)),
            };
        }
        if kind == 2 {
            return match parse_unary_exec(toks, i + 1) {
                None => None,
                Some((e, j)) => Some((Expr::Neg(Box::new(e)), j)),
            };
        }
    }
    parse_atom_exec(toks, i)
}

fn parse_atom_exec(toks: &Vec<Token>, i: usize) -> (r: Option<(Expr, usize)>)
    requires
        i <= toks@.len(),
    ensures
        match r {
            Some(ej) => parse_atom(tokens_view(toks@), i as int) == Some(
                (ej.0.view(), ej.1 as int),
            ) && i < ej.1 <= toks@.len(),
            None => parse_atom(tokens_view(toks@), i as int) is None,
        },
    decreases toks@.len() - i, 0int,
{
    proof {
        assert(tokens_view(toks@).len() == toks@.len());
        if i < toks@.len() {
            assert(tokens_view(toks@)[i as int] == toks@[i as int].view());
        }
    }
    if i >= toks.len() {
        return None;
    }
    match &toks[i] {
        Token::Int(v) => Some((Expr::Int(*v), i + 1)),
        Token::StrLit(s) => Some((Expr::StrLit(s.clone()), i + 1)),
        Token::BoolLit(b) => Some((Expr::BoolLit(*b), i + 1)),
        Token::LParen => match parse_or_exec(toks, i + 1) {
            None => None,
            Some((e, j)) => {
                proof {
                    if j < toks@.len() {
                        assert(tokens_view(toks@)[j as int] == toks@[j as int].view());
                    }
                }
                if j < toks.len() {
                    let closing = match &toks[j] {
                        Token::RParen => true,
                        _ => false,
                    };
                    if closing {
                        Some((e, j + 1))
                    } else {
                        None
                    }
                } else {
                    None
                }
            },
        },
        _ => None,
    }
}

// ---------------------------------------------------------------------------
// Executable evaluator
// ---------------------------------------------------------------------------

fn val_eq_exec(a: &Val, b: &Val) -> (r: bool)
    ensures
        r == val_eq(a.view(), b.view()),
{
    match (a, b) {
        (Val::Int(x), Val::Int(y)) => *x == *y,
        (Val::Str(x), Val::Str(y)) => str_eq(x.as_str(), y.as_str()),
        (Val::Bool(x), Val::Bool(y)) => *x == *y,
        _ => false,
    }
}

fn abs_u64_of(x: i64) -> (m: u64)
    ensures
        m as int == abs_int(x as int),
{
    if x >= 0 {
        x as u64
    } else {
        ((-(x + 1)) as u64) + 1
    }
}

proof fn lemma_mul_range(x: int, y: int)
    by (nonlinear_arith)
    requires
        -9223372036854775808 <= x <= 9223372036854775807,
        -9223372036854775808 <= y <= 9223372036854775807,
    ensures
        -85070591730234615865843651857942052864 <= x * y
            <= 85070591730234615865843651857942052864,
{
}

fn bin_val_exec(op: BinOp, a: Val, b: Val) -> (r: Option<Val>)
    ensures
        match r {
            Some(v) => bin_val(op, a.view(), b.view()) == Some(v.view()),
            None => bin_val(op, a.view(), b.view()) is None,
        },
{
    match op {
        BinOp::Eq => {
            let e = val_eq_exec(&a, &b);
            Some(Val::Bool(e))
        },
        BinOp::Ne => {
            let e = val_eq_exec(&a, &b);
            Some(Val::Bool(!e))
        },
        BinOp::Lt => match (a, b) {
            (Val::Int(x), Val::Int(y)) => Some(Val::Bool(x < y)),
            _ => None,
        },
        BinOp::Le => match (a, b) {
            (Val::Int(x), Val::Int(y)) => Some(Val::Bool(x <= y)),
            _ => None,
        },
        BinOp::Gt => match (a, b) {
            (Val::Int(x), Val::Int(y)) => Some(Val::Bool(x > y)),
            _ => None,
        },
        BinOp::Ge => match (a, b) {
            (Val::Int(x), Val::Int(y)) => Some(Val::Bool(x >= y)),
            _ => None,
        },
        BinOp::Add => match (a, b) {
            (Val::Int(x), Val::Int(y)) => {
                let sum: i128 = x as i128 + y as i128;
                if sum >= -9223372036854775808i128 && sum <= 9223372036854775807i128 {
                    Some(Val::Int(sum as i64))
                } else {
                    None
                }
            },
            (Val::Str(x), Val::Str(y)) => {
                let joined = x.concat(y.as_str());
                Some(Val::Str(joined))
            },
            _ => None,
        },
        BinOp::Sub => match (a, b) {
            (Val::Int(x), Val::Int(y)) => {
                let diff: i128 = x as i128 - y as i128;
                if diff >= -9223372036854775808i128 && diff <= 9223372036854775807i128 {
                    Some(Val::Int(diff as i64))
                } else {
                    None
                }
            },
            _ => None,
        },
        BinOp::Mul => match (a, b) {
            (Val::Int(x), Val::Int(y)) => {
                proof {
                    lemma_mul_range(x as int, y as int);
                }
                let prod: i128 = (x as i128) * (y as i128);
                if prod >= -9223372036854775808i128 && prod <= 9223372036854775807i128 {
                    Some(Val::Int(prod as i64))
                } else {
                    None
                }
            },
            _ => None,
        },
        BinOp::Div => match (a, b) {
            (Val::Int(x), Val::Int(y)) => {
                if y == 0 {
                    return None;
                }
                let mx = abs_u64_of(x);
                let my = abs_u64_of(y);
                let q = mx / my;
                let neg_res = (x < 0) != (y < 0);
                if neg_res {
                    if q == 9223372036854775808u64 {
                        Some(Val::Int(i64::MIN))
                    } else {
                        Some(Val::Int(-(q as i64)))
                    }
                } else {
                    if q > 9223372036854775807u64 {
                        None
                    } else {
                        Some(Val::Int(q as i64))
                    }
                }
            },
            _ => None,
        },
        BinOp::And => None,
        BinOp::Or => None,
    }
}

fn eval_exec(e: &Expr) -> (r: Option<Val>)
    ensures
        match r {
            Some(v) => eval_view(e.view()) == Some(v.view()),
            None => eval_view(e.view()) is None,
        },
    decreases *e,
{
    match e {
        Expr::Int(x) => Some(Val::Int(*x)),
        Expr::StrLit(s) => Some(Val::Str(s.clone())),
        Expr::BoolLit(b) => Some(Val::Bool(*b)),
        Expr::Not(inner) => match eval_exec(inner) {
            Some(Val::Bool(b)) => Some(Val::Bool(!b)),
            _ => None,
        },
        Expr::Neg(inner) => match eval_exec(inner) {
            Some(Val::Int(x)) => {
                if x == i64::MIN {
                    None
                } else {
                    Some(Val::Int(-x))
                }
            },
            _ => None,
        },
        Expr::Bin(op, l, r2) => {
            if *op == BinOp::And {
                match eval_exec(l) {
                    Some(Val::Bool(false)) => Some(Val::Bool(false)),
                    Some(Val::Bool(true)) => match eval_exec(r2) {
                        Some(Val::Bool(b)) => Some(Val::Bool(b)),
                        _ => None,
                    },
                    _ => None,
                }
            } else if *op == BinOp::Or {
                match eval_exec(l) {
                    Some(Val::Bool(true)) => Some(Val::Bool(true)),
                    Some(Val::Bool(false)) => match eval_exec(r2) {
                        Some(Val::Bool(b)) => Some(Val::Bool(b)),
                        _ => None,
                    },
                    _ => None,
                }
            } else {
                match (eval_exec(l), eval_exec(r2)) {
                    (Some(a), Some(b)) => bin_val_exec(*op, a, b),
                    _ => None,
                }
            }
        },
    }
}

/// Evaluates a normalized assertion expression to a boolean: `Some` when
/// the text lexes, parses and evaluates to a boolean, `None` otherwise.
pub fn parse_expression(expr: &str) -> (r: Option<bool>)
    ensures
        match eval_expr_text(expr@) {
            Some(v) => match v {
                ValView::Bool(b) => r == Some(b),
                _ => r is None,
            },
            None => r is None,
        },
{
    let s = crate::strutil::str_chars(expr);
    let mut toks: Vec<Token> = Vec::new();
    let ok = lex_exec(&s, 0, &mut toks);
    if !ok {
        return None;
    }
    proof {
        assert(tokens_view(toks@) =~= Seq::<TokView>::empty() + lex_from(s@, 0).unwrap());
        assert(tokens_view(toks@) == lex_from(s@, 0).unwrap());
    }
    match parse_or_exec(&toks, 0) {
        None => None,
        Some((e, j)) => {
            if j != toks.len() {
                proof {
                    assert(tokens_view(toks@).len() == toks@.len());
                }
                None
            } else {
                proof {
                    assert(tokens_view(toks@).len() == toks@.len());
                }
                match eval_exec(&e) {
                    Some(Val::Bool(b)) => Some(b),
                    _ => None,
                }
            }
        },
    }
}

} // verus!
