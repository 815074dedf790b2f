//! The assertion evaluator.
//!
//! `ok` assertions are interpolated (variables, environment, response
//! paths) and then evaluated in the expression sub-language; the typed
//! assertions select one value by JSONPath and check its JSON type or
//! emptiness; `date` parses the selected string against a format. Every
//! assertion yields exactly one of: `true`, `false`, or an assertion
//! error with advice and a source span.

use vstd::prelude::*;
use vstd::string::StringExecFns;
use crate::json::{json_text, json_to_string, jview, JsonValue, JView};
use crate::model::{Assert, AssertView, AssertionError};
use crate::paths::{resp_tokens, select_spec, select_first, split_tokens, ws_tokens};
use crate::report::report_text;
use crate::scan::{interpolate_env, interpolate_vars, miss_msgs, missing_env, missing_vars,
    subst_env, subst_vars};
use crate::strmap::StrMap;
use crate::strutil::{
    append_str_chars, chars_to_string, find_sub, find_sub_in, join_with, replace_all,
    replace_all_chars, str_chars,
};
use crate::wrappers::{date_parse_result, datetime_parse_result, parse_date, parse_datetime};

verus! {

/// The ghost form of an assertion error.
pub struct ErrView {
    pub advice: Option<Seq<char>>,
    pub label: Seq<char>,
    pub text: Seq<char>,
    pub start: int,
    pub len: int,
}

pub open spec fn aev(e: AssertionError) -> ErrView {
    ErrView {
        advice: match e.advice {
            Some(a) => Some(a@),
            None => None,
        },
        label: e.src_label@,
        text: e.src_text@,
        start: e.span_start as int,
        len: e.span_len as int,
    }
}

/// The string contents of a JSON value, empty for anything but a string.
pub open spec fn str_content(v: JsonValue) -> Seq<char> {
    match jview(v) {
        JView::Str(s) => s,
        _ => Seq::empty(),
    }
}

pub open spec fn arr_contents(items: Seq<JsonValue>) -> Seq<Seq<char>> {
    items.map(|i: int, v: JsonValue| str_content(v))
}

/// Whether a path selects into the response headers.
pub open spec fn is_headers_path(p: Seq<char>) -> bool {
    p.len() >= "$.resp.headers"@.len() && p.subrange(0, "$.resp.headers"@.len() as int)
        == "$.resp.headers"@
}

/// What a selected value substitutes as inside an expression: a header
/// multi-value array joins its string elements with commas, anything else
/// is compact JSON text.
pub open spec fn path_subst_text(p: Seq<char>, v: JsonValue) -> Seq<char> {
    if is_headers_path(p) && v is Arr {
        join_with(arr_contents(v->Arr_0@), seq![','], 0)
    } else {
        json_text(v)
    }
}

/// Substitutes the response paths `ps` from `k` on into `e`, or stops at
/// the first path that fails to resolve.
pub open spec fn subst_paths(
    e: Seq<char>,
    orig: Seq<char>,
    file: Seq<char>,
    ctx: JsonValue,
    ps: Seq<Seq<char>>,
    k: int,
) -> Result<Seq<char>, ErrView>
    decreases ps.len() - k,
{
    if k < 0 || k >= ps.len() {
        Ok(e)
    } else {
        let p = ps[k];
        match select_spec(ctx, p) {
            Err(()) => Err(
                ErrView {
                    advice: Some("could not resolve jsonpaths to any real value in the json object"@),
                    label: file,
                    text: e,
                    start: 0,
                    len: 4,
                },
            ),
            Ok(None) => Err(
                ErrView {
                    advice: Some(
                        "The given json path "@ + p + " could not be located in the json body"@,
                    ),
                    label: file,
                    text: orig,
                    start: match find_sub(orig, p, 0) {
                        Some(i) => i,
                        None => 0,
                    },
                    len: p.len() as int,
                },
            ),
            Ok(Some(v)) => subst_paths(
                replace_all(e, p, path_subst_text(p, v), 0),
                orig,
                file,
                ctx,
                ps,
                k + 1,
            ),
        }
    }
}

/// What evaluating an `ok` expression yields: the boolean and the
/// normalized expression on success, or the first assertion error on an
/// unresolved variable, an unresolved path, or an expression that does
/// not evaluate to a boolean.
pub open spec fn expr_pipeline(
    expr: Seq<char>,
    file: Seq<char>,
    ctx: JsonValue,
    vars: Map<Seq<char>, JsonValue>,
    env: Map<Seq<char>, String>,
) -> Result<(bool, Seq<char>), ErrView> {
    let missing = missing_vars(expr, vars, 0);
    if missing.len() > 0 {
        Err(
            ErrView {
                advice: Some(
                    missing[0] + ": could not resolve output variable path to any real value"@,
                ),
                label: file,
                text: missing[0],
                start: 0,
                len: missing[0].len() as int,
            },
        )
    } else {
        let e2 = subst_env(subst_vars(expr, vars, 0), env, 0);
        match subst_paths(e2, expr, file, ctx, resp_tokens(expr, 0), 0) {
            Err(ev) => Err(ev),
            Ok(e3) => match crate::expr::eval_expr_text(e3) {
                Some(v) => match v {
                    crate::expr::ValView::Bool(b) => Ok((b, e3)),
                    _ => Err(
                        ErrView {
                            advice: Some("Comparison expression could not be evaluated: "@ + e3),
                            label: file,
                            text: e3,
                            start: 0,
                            len: 4,
                        },
                    ),
                },
                None => Err(
                    ErrView {
                        advice: Some("Comparison expression could not be evaluated: "@ + e3),
                        label: file,
                        text: e3,
                        start: 0,
                        len: 4,
                    },
                ),
            },
        }
    }
}

/// The unresolved environment references an `ok` expression reports: none
/// when an unresolved variable already stopped the pipeline, else the
/// references still unbound after variable substitution.
pub open spec fn expr_env_misses(
    expr: Seq<char>,
    vars: Map<Seq<char>, JsonValue>,
    env: Map<Seq<char>, String>,
) -> Seq<Seq<char>> {
    if missing_vars(expr, vars, 0).len() > 0 {
        Seq::empty()
    } else {
        missing_env(subst_vars(expr, vars, 0), env, 0)
    }
}

/// The kind of a typed assertion.
#[derive(Clone, Copy, PartialEq, Eq, Structural)]
pub enum ValueKind {
    Array,
    Empty,
    NotEmpty,
    Str,
    Num,
    Bool,
    Null,
    Exists,
    Date,
}

/// What a typed assertion yields on the value its path selects.
pub open spec fn typed_check(kind: ValueKind, v: JsonValue, fmt: Seq<char>) -> Result<
    bool,
    Seq<char>,
> {
    match jview(v) {
        JView::Arr(items) => if kind == ValueKind::Empty {
            Ok(items.len() == 0)
        } else if kind == ValueKind::NotEmpty {
            Ok(items.len() != 0)
        } else {
            Ok(kind == ValueKind::Array)
        },
        JView::Str(s) => if kind == ValueKind::Date {
            match datetime_parse_result(s, fmt) {
                None => Ok(true),
                Some(e1) => match date_parse_result(s, fmt) {
                    None => Ok(true),
                    Some(_) => Err("Error parsing date: "@ + e1),
                },
            }
        } else if kind == ValueKind::Empty {
            Ok(s.len() == 0)
        } else if kind == ValueKind::NotEmpty {
            Ok(s.len() != 0)
        } else {
            Ok(kind == ValueKind::Str)
        },
        JView::Int(_) => Ok(kind == ValueKind::Num),
        JView::NumText(_) => Ok(kind == ValueKind::Num),
        JView::Bool(_) => Ok(kind == ValueKind::Bool),
        JView::Null => Ok(kind == ValueKind::Null),
        JView::Obj(_) => Ok(false),
    }
}

/// What a typed assertion yields: date assertions first split their
/// argument into a path and a format; the path must select a value; the
/// check is then a pure function of the selected value.
pub open spec fn value_pipeline(
    kind: ValueKind,
    expr: Seq<char>,
    file: Seq<char>,
    ctx: JsonValue,
    should_log: bool,
) -> Result<(bool, Seq<char>), ErrView> {
    let toks = ws_tokens(expr, 0);
    if kind == ValueKind::Date && toks.len() < 2 {
        Err(
            ErrView {
                advice: Some("date format is required"@),
                label: file,
                text: expr,
                start: 0,
                len: 4,
            },
        )
    } else {
        let path = if kind == ValueKind::Date {
            toks[0]
        } else {
            expr
        };
        let fmt = if kind == ValueKind::Date {
            join_with(toks, " "@, 1)
        } else {
            Seq::empty()
        };
        match select_spec(ctx, path) {
            Err(()) => Err(
                ErrView {
                    advice: Some("could not resolve jsonpaths to any real variables"@),
                    label: file,
                    text: expr,
                    start: 0,
                    len: 4,
                },
            ),
            Ok(None) => Err(
                ErrView {
                    advice: Some(
                        "The given json path could not be located in the context"@ + (
                        if should_log {
                            "Add the 'dump: true' to the test step, to print out the requests and responses which can be refered to via jsonpath"@
                        } else {
                            Seq::empty()
                        }),
                    ),
                    label: file,
                    text: expr,
                    start: 0,
                    len: expr.len() as int,
                },
            ),
            Ok(Some(v)) => if kind == ValueKind::Exists {
                Ok((true, expr))
            } else {
                match typed_check(kind, v, fmt) {
                    Ok(b) => Ok((b, expr)),
                    Err(advice) => Err(
                        ErrView {
                            advice: Some(advice),
                            label: file,
                            text: expr,
                            start: 0,
                            len: expr.len() as int,
                        },
                    ),
                }
            },
        }
    }
}

// ---------------------------------------------------------------------------
// Executable evaluation
// ---------------------------------------------------------------------------

fn make_err(advice: String, file: &str, text: String, start: usize, len: usize) -> (r:
    AssertionError)
    ensures
        aev(r) == (ErrView {
            advice: Some(advice@),
            label: file@,
            text: text@,
            start: start as int,
            len: len as int,
        }),
{
    AssertionError {
        advice: Some(advice),
        src_label: file.to_owned(),
        src_text: text,
        span_start: start,
        span_len: len,
    }
}

fn join_contents_rec(items: &Vec<JsonValue>, i: usize, out: &mut Vec<char>)
    requires
        i <= items@.len(),
    ensures
        final(out)@ == old(out)@ + join_with(arr_contents(items@), seq![','], i as int),
    decreases items@.len() - i,
{
    if i >= items.len() {
        proof {
            assert(final(out)@ =~= old(out)@ + join_with(arr_contents(items@), seq![','], i as int));
        }
        return;
    }
    proof {
        assert(arr_contents(items@)[i as int] == str_content(items@[i as int]));
    }
    match &items[i] {
        JsonValue::Str(s) => {
            append_str_chars(out, s.as_str());
        },
        _ => {},
    }
    if i + 1 < items.len() {
        out.push(',');
        join_contents_rec(items, i + 1, out);
    }
    proof {
        assert(final(out)@ =~= old(out)@ + join_with(arr_contents(items@), seq![','], i as int));
    }
}

fn is_headers_path_exec(p: &str) -> (r: bool)
    ensures
        r == is_headers_path(p@),
{
    let pc = str_chars(p);
    let lit = str_chars("$.resp.headers");
    if pc.len() < lit.len() {
        return false;
    }
    let mut k: usize = 0;
    while k < lit.len()
        invariant
            lit@.len() <= pc@.len(),
            k <= lit@.len(),
            pc@ == p@,
            lit@ == "$.resp.headers"@,
            forall|j: int| 0 <= j < k ==> pc@[j] == lit@[j],
        decreases lit@.len() - k,
    {
        if pc[k] != lit[k] {
            proof {
                assert(p@.subrange(0, lit@.len() as int)[k as int] == p@[k as int]);
            }
            return false;
        }
        k = k + 1;
    }
    proof {
        assert(p@.subrange(0, lit@.len() as int) =~= lit@);
    }
    true
}

/// The substitution text for a selected value.
fn path_subst_string(p: &str, v: &JsonValue) -> (r: String)
    ensures
        r@ == path_subst_text(p@, *v),
{
    let headers = is_headers_path_exec(p);
    match v {
        JsonValue::Arr(items) => {
            if headers {
                let mut out: Vec<char> = Vec::new();
                join_contents_rec(items, 0, &mut out);
                chars_to_string(&out)
            } else {
                json_to_string(v)
            }
        },
        _ => json_to_string(v),
    }
}

/// Evaluates an `ok` assertion: interpolation, then the expression
/// sub-language; the result is the boolean and the normalized expression.
#[verifier::loop_isolation(false)]
pub fn evaluate_expressions(
    file: &str,
    original_expr: &str,
    object: &JsonValue,
    outputs: &StrMap<JsonValue>,
    env: &StrMap<String>,
) -> (r: (Result<(bool, String), AssertionError>, Vec<String>))
    ensures
        match r.0 {
            Ok(be) => expr_pipeline(original_expr@, file@, *object, outputs@, env@) == Ok::<
                (bool, Seq<char>),
                ErrView,
            >((be.0, be.1@)),
            Err(e) => expr_pipeline(original_expr@, file@, *object, outputs@, env@) == Err::<
                (bool, Seq<char>),
                ErrView,
            >(aev(e)),
        },
        r.1.deep_view() == expr_env_misses(original_expr@, outputs@, env@),
{
    let (e1, missing) = interpolate_vars(original_expr, outputs);
    if missing.len() > 0 {
        proof {
            assert(missing.deep_view()[0] == missing@[0]@);
        }
        let tok = missing[0].clone();
        let tok_len = tok.as_str().unicode_len();
        let advice = tok.clone().concat(
            ": could not resolve output variable path to any real value",
        );
        let none: Vec<String> = Vec::new();
        proof {
            assert(none.deep_view() =~= Seq::<Seq<char>>::empty());
        }
        return (Err(make_err(advice, file, tok, 0, tok_len)), none);
    }
    let (e2, env_missing) = interpolate_env(e1.as_str(), env);
    let paths = find_all_jsonpaths_local(original_expr);
    let ghost ptoks = resp_tokens(original_expr@, 0);
    let mut e = e2;
    let mut k: usize = 0;
    while k < paths.len()
        invariant
            k <= paths@.len(),
            paths.deep_view() == ptoks,
            subst_paths(e@, original_expr@, file@, *object, ptoks, k as int) == subst_paths(
                subst_env(subst_vars(original_expr@, outputs@, 0), env@, 0),
                original_expr@,
                file@,
                *object,
                ptoks,
                0,
            ),
        decreases paths@.len() - k,
    {
        proof {
            assert(paths.deep_view()[k as int] == paths@[k as int]@);
        }
        let p = &paths[k];
        match select_first(object, p.as_str()) {
            Err(()) => {
                let advice = "could not resolve jsonpaths to any real value in the json object"
                    .to_owned();
                return (Err(make_err(advice, file, e, 0, 4)), env_missing);
            },
            Ok(None) => {
                let advice = "The given json path ".to_owned().concat(p.as_str()).concat(
                    " could not be located in the json body",
                );
                let oc = str_chars(original_expr);
                let pc = str_chars(p.as_str());
                let start = match find_sub_in(&oc, &pc, 0) {
                    Some(i) => i,
                    None => 0,
                };
                let plen = p.as_str().unicode_len();
                return (
                    Err(make_err(advice, file, original_expr.to_owned(), start, plen)),
                    env_missing,
                );
            },
            Ok(Some(v)) => {
                let rep = path_subst_string(p.as_str(), v);
                let ec = str_chars(e.as_str());
                let pc = str_chars(p.as_str());
                let rc = str_chars(rep.as_str());
                let replaced = replace_all_chars(&ec, &pc, &rc);
                e = chars_to_string(&replaced);
            },
        }
        k = k + 1;
    }
    match crate::expr::parse_expression(e.as_str()) {
        Some(b) => (Ok((b, e)), env_missing),
        None => {
            let advice = "Comparison expression could not be evaluated: ".to_owned().concat(
                e.as_str(),
            );
            (Err(make_err(advice, file, e, 0, 4)), env_missing)
        },
    }
}

fn find_all_jsonpaths_local(input: &str) -> (r: Vec<String>)
    ensures
        r.deep_view() == resp_tokens(input@, 0),
{
    crate::paths::find_all_jsonpaths(input)
}

fn join_tokens_rec(toks: &Vec<String>, i: usize, out: &mut Vec<char>)
    requires
        i <= toks@.len(),
    ensures
        final(out)@ == old(out)@ + join_with(toks.deep_view(), " "@, i as int),
    decreases toks@.len() - i,
{
    if i >= toks.len() {
        proof {
            assert(final(out)@ =~= old(out)@ + join_with(toks.deep_view(), " "@, i as int));
        }
        return;
    }
    proof {
        assert(toks.deep_view()[i as int] == toks@[i as int]@);
    }
    append_str_chars(out, toks[i].as_str());
    if i + 1 < toks.len() {
        append_str_chars(out, " ");
        join_tokens_rec(toks, i + 1, out);
    }
    proof {
        assert(final(out)@ =~= old(out)@ + join_with(toks.deep_view(), " "@, i as int));
    }
}

/// Evaluates a typed assertion against the step context.
pub fn evaluate_value(
    kind: ValueKind,
    expr: &str,
    file: &str,
    object: &JsonValue,
    should_log: bool,
) -> (r: Result<(bool, String), AssertionError>)
    ensures
        match r {
            Ok(be) => value_pipeline(kind, expr@, file@, *object, should_log) == Ok::<
                (bool, Seq<char>),
                ErrView,
            >((be.0, be.1@)),
            Err(e) => value_pipeline(kind, expr@, file@, *object, should_log) == Err::<
                (bool, Seq<char>),
                ErrView,
            >(aev(e)),
        },
{
    let toks = split_tokens(expr);
    if kind == ValueKind::Date && toks.len() < 2 {
        let advice = "date format is required".to_owned();
        return Err(make_err(advice, file, expr.to_owned(), 0, 4));
    }
    let path: String = if kind == ValueKind::Date {
        proof {
            assert(toks.deep_view()[0] == toks@[0]@);
        }
        toks[0].clone()
    } else {
        expr.to_owned()
    };
    let fmt: String = if kind == ValueKind::Date {
        let mut out: Vec<char> = Vec::new();
        join_tokens_rec(&toks, 1, &mut out);
        chars_to_string(&out)
    } else {
        String::new()
    };
    match select_first(object, path.as_str()) {
        Err(()) => {
            let advice = "could not resolve jsonpaths to any real variables".to_owned();
            Err(make_err(advice, file, expr.to_owned(), 0, 4))
        },
        Ok(None) => {
            let advice = if should_log {
                "The given json path could not be located in the context".to_owned().concat(
                    "Add the 'dump: true' to the test step, to print out the requests and responses which can be refered to via jsonpath",
                )
            } else {
                "The given json path could not be located in the context".to_owned()
            };
            let elen = expr.unicode_len();
            Err(make_err(advice, file, expr.to_owned(), 0, elen))
        },
        Ok(Some(v)) => {
            if kind == ValueKind::Exists {
                return Ok((true, expr.to_owned()));
            }
            match v {
                JsonValue::Arr(items) => {
                    if kind == ValueKind::Empty {
                        Ok((items.len() == 0, expr.to_owned()))
                    } else if kind == ValueKind::NotEmpty {
                        Ok((items.len() != 0, expr.to_owned()))
                    } else {
                        Ok((kind == ValueKind::Array, expr.to_owned()))
                    }
                },
                JsonValue::Str(s) => {
                    if kind == ValueKind::Date {
                        match parse_datetime(s.as_str(), fmt.as_str()) {
                            Ok(()) => Ok((true, expr.to_owned())),
                            Err(e1) => match parse_date(s.as_str(), fmt.as_str()) {
                                Ok(()) => Ok((true, expr.to_owned())),
                                Err(_) => {
                                    let advice = "Error parsing date: ".to_owned().concat(
                                        e1.as_str(),
                                    );
                                    let elen = expr.unicode_len();
                                    Err(make_err(advice, file, expr.to_owned(), 0, elen))
                                },
                            },
                        }
                    } else if kind == ValueKind::Empty {
                        Ok((s.as_str().unicode_len() == 0, expr.to_owned()))
                    } else if kind == ValueKind::NotEmpty {
                        Ok((s.as_str().unicode_len() != 0, expr.to_owned()))
                    } else {
                        Ok((kind == ValueKind::Str, expr.to_owned()))
                    }
                },
                JsonValue::Int(_) => Ok((kind == ValueKind::Num, expr.to_owned())),
                JsonValue::NumText(_) => Ok((kind == ValueKind::Num, expr.to_owned())),
                JsonValue::Bool(_) => Ok((kind == ValueKind::Bool, expr.to_owned())),
                JsonValue::Null => Ok((kind == ValueKind::Null, expr.to_owned())),
                JsonValue::Obj(_) => Ok((false, expr.to_owned())),
            }
        },
    }
}

// ---------------------------------------------------------------------------
// Running a step's assertion list
// ---------------------------------------------------------------------------

/// What one assertion yields.
pub open spec fn outcome_of(
    a: AssertView,
    file: Seq<char>,
    ctx: JsonValue,
    vars: Map<Seq<char>, JsonValue>,
    env: Map<Seq<char>, String>,
    should_log: bool,
) -> Result<(bool, Seq<char>), ErrView> {
    match a {
        AssertView::IsOk(e) => expr_pipeline(e, file, ctx, vars, env),
        AssertView::IsArray(e) => value_pipeline(ValueKind::Array, e, file, ctx, should_log),
        AssertView::IsEmpty(e) => value_pipeline(ValueKind::Empty, e, file, ctx, should_log),
        AssertView::IsString(e) => value_pipeline(ValueKind::Str, e, file, ctx, should_log),
        AssertView::IsNumber(e) => value_pipeline(ValueKind::Num, e, file, ctx, should_log),
        AssertView::IsBoolean(e) => value_pipeline(ValueKind::Bool, e, file, ctx, should_log),
        AssertView::IsNull(e) => value_pipeline(ValueKind::Null, e, file, ctx, should_log),
        AssertView::Exists(e) => value_pipeline(ValueKind::Exists, e, file, ctx, should_log),
        AssertView::IsDate(e) => value_pipeline(ValueKind::Date, e, file, ctx, should_log),
        AssertView::NotEmpty(e) => value_pipeline(ValueKind::NotEmpty, e, file, ctx, should_log),
    }
}

/// The ten-column kind tag that the log lines carry.
pub open spec fn prefix10(a: AssertView) -> Seq<char> {
    match a {
        AssertView::IsOk(_) => "OK        "@,
        AssertView::IsArray(_) => "ARRAY     "@,
        AssertView::IsEmpty(_) => "EMPTY     "@,
        AssertView::IsString(_) => "STRING    "@,
        AssertView::IsNumber(_) => "NUMBER    "@,
        AssertView::IsBoolean(_) => "BOOLEAN   "@,
        AssertView::IsNull(_) => "NULL      "@,
        AssertView::Exists(_) => "EXISTS    "@,
        AssertView::IsDate(_) => "DATE      "@,
        AssertView::NotEmpty(_) => "NOT EMPTY "@,
    }
}

pub open spec fn arg_of(a: AssertView) -> Seq<char> {
    match a {
        AssertView::IsOk(e) => e,
        AssertView::IsArray(e) => e,
        AssertView::IsEmpty(e) => e,
        AssertView::IsString(e) => e,
        AssertView::IsNumber(e) => e,
        AssertView::IsBoolean(e) => e,
        AssertView::IsNull(e) => e,
        AssertView::Exists(e) => e,
        AssertView::IsDate(e) => e,
        AssertView::NotEmpty(e) => e,
    }
}

/// The line (or boxed report) one assertion adds to the step log.
pub open spec fn log_line(
    prefix: Seq<char>,
    arg: Seq<char>,
    oc: Result<(bool, Seq<char>), ErrView>,
) -> Seq<char> {
    match oc {
        Ok(be) => (if be.0 {
            "\u{2705} "@
        } else {
            "\u{274c} "@
        }) + prefix + "  \u{2b95}   "@ + arg + " \n"@,
        Err(ev) => crate::report::wrap80(
            report_text(ev.advice, ev.label, ev.text, ev.start, ev.len),
            0,
            0,
        ),
    }
}

/// The log lines an assertion's unresolved environment references add
/// before its outcome line: one per reference, for `ok` assertions.
pub open spec fn env_miss_lines(
    a: AssertView,
    vars: Map<Seq<char>, JsonValue>,
    env: Map<Seq<char>, String>,
) -> Seq<char> {
    match a {
        AssertView::IsOk(e) => miss_msgs(
            "Error getting environment variable "@,
            ": environment variable not found"@,
            expr_env_misses(e, vars, env),
            0,
        ),
        _ => Seq::empty(),
    }
}

/// The lines the assertions from `i` on add to the step log.
pub open spec fn log_lines(
    asserts: Seq<AssertView>,
    i: int,
    file: Seq<char>,
    ctx: JsonValue,
    vars: Map<Seq<char>, JsonValue>,
    env: Map<Seq<char>, String>,
    should_log: bool,
) -> Seq<char>
    decreases asserts.len() - i,
{
    if i < 0 || i >= asserts.len() {
        Seq::empty()
    } else {
        env_miss_lines(asserts[i], vars, env) + log_line(
            prefix10(asserts[i]),
            arg_of(asserts[i]),
            outcome_of(asserts[i], file, ctx, vars, env, should_log),
        ) + log_lines(asserts, i + 1, file, ctx, vars, env, should_log)
    }
}

/// Whether a recorded entry is the given outcome: a success keeps its
/// boolean, a failure keeps its full assertion error.
pub open spec fn entry_matches(
    e: Result<bool, AssertionError>,
    oc: Result<(bool, Seq<char>), ErrView>,
) -> bool {
    match e {
        Ok(b) => oc matches Ok(p) && p.0 == b,
        Err(ae) => oc matches Err(ev) && aev(ae) == ev,
    }
}

fn record_outcome(
    oc: Result<(bool, String), AssertionError>,
    prefix: &str,
    arg: &str,
    Ghost(spec_oc): Ghost<Result<(bool, Seq<char>), ErrView>>,
    step_log: &mut String,
    results: &mut Vec<Result<bool, AssertionError>>,
)
    requires
        match oc {
            Ok(be) => spec_oc matches Ok(p) && p.0 == be.0 && p.1 == be.1@,
            Err(ref ae) => spec_oc matches Err(ev) && aev(*ae) == ev,
        },
    ensures
        final(results)@.len() == old(results)@.len() + 1,
        forall|k: int| 0 <= k < old(results)@.len() ==> final(results)@[k] == old(results)@[k],
        entry_matches(final(results)@.last(), spec_oc),
        final(step_log)@ == old(step_log)@ + log_line(prefix@, arg@, spec_oc),
{
    match oc {
        Ok((b, _e)) => {
            let mut line: Vec<char> = Vec::new();
            if b {
                append_str_chars(&mut line, "\u{2705} ");
            } else {
                append_str_chars(&mut line, "\u{274c} ");
            }
            append_str_chars(&mut line, prefix);
            append_str_chars(&mut line, "  \u{2b95}   ");
            append_str_chars(&mut line, arg);
            append_str_chars(&mut line, " \n");
            let line_s = chars_to_string(&line);
            step_log.append(line_s.as_str());
            results.push(Ok(b));
        },
        Err(ae) => {
            let rep = crate::report::report_error(&ae);
            step_log.append(rep.as_str());
            results.push(Err(ae));
        },
    }
}

/// Evaluates a step's assertions in order against the frozen context.
/// Every assertion contributes exactly one entry — `true`, `false`, or an
/// assertion error — and one log line or boxed report.
#[verifier::rlimit(100)]
#[verifier::spinoff_prover]
#[verifier::loop_isolation(false)]
pub fn check_assertions(
    asserts: &Vec<Assert>,
    file: &str,
    object: &JsonValue,
    outputs: &StrMap<JsonValue>,
    env: &StrMap<String>,
    should_log: bool,
    step_log: &mut String,
) -> (r: Vec<Result<bool, AssertionError>>)
    ensures
        r@.len() == asserts@.len(),
        forall|i: int|
            0 <= i < asserts@.len() ==> entry_matches(
                r@[i],
                outcome_of(
                    (#[trigger] asserts@[i]).view(),
                    file@,
                    *object,
                    outputs@,
                    env@,
                    should_log,
                ),
            ),
        final(step_log)@ == old(step_log)@ + log_lines(
            crate::model::assert_views(asserts@),
            0,
            file@,
            *object,
            outputs@,
            env@,
            should_log,
        ),
{
    let ghost views = crate::model::assert_views(asserts@);
    let mut results: Vec<Result<bool, AssertionError>> = Vec::new();
    let mut i: usize = 0;
    while i < asserts.len()
        invariant
            i <= asserts@.len(),
            results@.len() == i,
            forall|k: int|
                0 <= k < i ==> entry_matches(
                    results@[k],
                    outcome_of(
                        (#[trigger] asserts@[k]).view(),
                        file@,
                        *object,
                        outputs@,
                        env@,
                        should_log,
                    ),
                ),
            step_log@ + log_lines(views, i as int, file@, *object, outputs@, env@, should_log)
                == old(step_log)@ + log_lines(views, 0, file@, *object, outputs@, env@, should_log),
        decreases asserts@.len() - i,
    {
        proof {
            assert(views[i as int] == asserts@[i as int].view());
        }
        match &asserts[i] {
            Assert::IsOk(e) => {
                let (oc, env_miss) = evaluate_expressions(file, e.as_str(), object, outputs, env);
                crate::scan::append_miss_msgs(
                    "Error getting environment variable ",
                    ": environment variable not found",
                    &env_miss,
                    0,
                    step_log,
                );
                record_outcome(
                    oc,
                    "OK        ",
                    e.as_str(),
                    Ghost(outcome_of(views[i as int], file@, *object, outputs@, env@, should_log)),
                    step_log,
                    &mut results,
                );
            },
            Assert::IsArray(e) => {
                let oc = evaluate_value(ValueKind::Array, e.as_str(), file, object, should_log);
                record_outcome(
                    oc,
                    "ARRAY     ",
                    e.as_str(),
                    Ghost(outcome_of(views[i as int], file@, *object, outputs@, env@, should_log)),
                    step_log,
                    &mut results,
                );
            },
            Assert::IsEmpty(e) => {
                let oc = evaluate_value(ValueKind::Empty, e.as_str(), file, object, should_log);
                record_outcome(
                    oc,
                    "EMPTY     ",
                    e.as_str(),
                    Ghost(outcome_of(views[i as int], file@, *object, outputs@, env@, should_log)),
                    step_log,
                    &mut results,
                );
            },
            Assert::IsString(e) => {
                let oc = evaluate_value(ValueKind::Str, e.as_str(), file, object, should_log);
                record_outcome(
                    oc,
                    "STRING    ",
                    e.as_str(),
                    Ghost(outcome_of(views[i as int], file@, *object, outputs@, env@, should_log)),
                    step_log,
                    &mut results,
                );
            },
            Assert::IsNumber(e) => {
                let oc = evaluate_value(ValueKind::Num, e.as_str(), file, object, should_log);
                record_outcome(
                    oc,
                    "NUMBER    ",
                    e.as_str(),
                    Ghost(outcome_of(views[i as int], file@, *object, outputs@, env@, should_log)),
                    step_log,
                    &mut results,
                );
            },
            Assert::IsBoolean(e) => {
                let oc = evaluate_value(ValueKind::Bool, e.as_str(), file, object, should_log);
                record_outcome(
                    oc,
                    "BOOLEAN   ",
                    e.as_str(),
                    Ghost(outcome_of(views[i as int], file@, *object, outputs@, env@, should_log)),
                    step_log,
                    &mut results,
                );
            },
            Assert::IsNull(e) => {
                let oc = evaluate_value(ValueKind::Null, e.as_str(), file, object, should_log);
                record_outcome(
                    oc,
                    "NULL      ",
                    e.as_str(),
                    Ghost(outcome_of(views[i as int], file@, *object, outputs@, env@, should_log)),
                    step_log,
                    &mut results,
                );
            },
            Assert::Exists(e) => {
                let oc = evaluate_value(ValueKind::Exists, e.as_str(), file, object, should_log);
                record_outcome(
                    oc,
                    "EXISTS    ",
                    e.as_str(),
                    Ghost(outcome_of(views[i as int], file@, *object, outputs@, env@, should_log)),
                    step_log,
                    &mut results,
                );
            },
            Assert::IsDate(e) => {
                let oc = evaluate_value(ValueKind::Date, e.as_str(), file, object, should_log);
                record_outcome(
                    oc,
                    "DATE      ",
                    e.as_str(),
                    Ghost(outcome_of(views[i as int], file@, *object, outputs@, env@, should_log)),
                    step_log,
                    &mut results,
                );
            },
            Assert::NotEmpty(e) => {
                let oc = evaluate_value(ValueKind::NotEmpty, e.as_str(), file, object, should_log);
                record_outcome(
                    oc,
                    "NOT EMPTY ",
                    e.as_str(),
                    Ghost(outcome_of(views[i as int], file@, *object, outputs@, env@, should_log)),
                    step_log,
                    &mut results,
                );
            },
        }
        i = i + 1;
        proof {
            assert(step_log@ + log_lines(views, i as int, file@, *object, outputs@, env@, should_log)
                =~= old(step_log)@ + log_lines(
                views,
                0,
                file@,
                *object,
                outputs@,
                env@,
                should_log,
            ));
        }
    }
    proof {
        assert(final(step_log)@ =~= final(step_log)@ + log_lines(
            views,
            views.len() as int,
            file@,
            *object,
            outputs@,
            env@,
            should_log,
        ));
    }
    results
}

} // verus!
