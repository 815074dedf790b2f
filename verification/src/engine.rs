//! The orchestrator: drives a plan step by step.
//!
//! The runner owns the run-scoped variable map. For each step it prepares
//! one request (interpolating the URL, headers and body against the
//! variables committed by earlier steps and the environment snapshot);
//! the caller performs the transport and hands back either a response or
//! a transport failure; the runner then evaluates the assertions, commits
//! the step's exports, and appends exactly one result record. Exports
//! commit only here, at the step boundary, so a step's own interpolation
//! never sees its own exports, and every later step does.

use vstd::prelude::*;
use vstd::string::StringExecFns;
use crate::assert_eval::{check_assertions, entry_matches, log_lines, outcome_of};
use crate::json::{json_text, json_text_v, json_to_string, jview, jviews, jfield_views, JView,
    JsonValue};
use crate::jsonparse::{json_parse_text, parse_json};
use crate::model::{
    Assert, AssertView, ConfigVariable, Header, HttpMethod, MethodView, RequestAndResponse,
    RequestConfig, RequestResult, ResponseObject, TestContext, TestItem, TestItemView,
    context_view, ReqRespView, RequestConfigView, ResponseView,
};
use crate::paths::{select_first, select_spec};
use crate::scan::{append_miss_msgs, interpolate_env, interpolate_vars, miss_msgs,
    missing_env, missing_vars, subst_env, subst_vars};
use crate::strmap::StrMap;
use crate::strutil::{append_str_chars, chars_to_string, str_chars};

verus! {

/// Both interpolation passes, in their fixed order: variables, then the
/// environment.
pub open spec fn subst2(
    t: Seq<char>,
    vars: Map<Seq<char>, JsonValue>,
    env: Map<Seq<char>, String>,
) -> Seq<char> {
    subst_env(subst_vars(t, vars, 0), env, 0)
}

/// Replaces variable and then environment placeholders in a template.
pub fn format_url(t: &str, vars: &StrMap<JsonValue>, env: &StrMap<String>) -> (r: String)
    ensures
        r@ == subst2(t@, vars@, env@),
{
    let (e1, _m1) = interpolate_vars(t, vars);
    let (e2, _m2) = interpolate_env(e1.as_str(), env);
    e2
}

/// The interpolation log of one template: a line per unresolved variable,
/// then a line per unresolved environment reference.
pub open spec fn interp_log(
    var_prefix: Seq<char>,
    t: Seq<char>,
    vars: Map<Seq<char>, JsonValue>,
    env: Map<Seq<char>, String>,
) -> Seq<char> {
    miss_msgs(var_prefix, ""@, missing_vars(t, vars, 0), 0) + miss_msgs(
        "Error getting environment variable "@,
        ": environment variable not found"@,
        missing_env(subst_vars(t, vars, 0), env, 0),
        0,
    )
}

/// Interpolates a template and appends the missing-placeholder log lines.
fn interp2_logged(
    t: &str,
    var_prefix: &'static str,
    vars: &StrMap<JsonValue>,
    env: &StrMap<String>,
    log: &mut String,
) -> (r: String)
    ensures
        r@ == subst2(t@, vars@, env@),
        final(log)@ == old(log)@ + interp_log(var_prefix@, t@, vars@, env@),
{
    let (e1, m1) = interpolate_vars(t, vars);
    let (e2, m2) = interpolate_env(e1.as_str(), env);
    append_miss_msgs(var_prefix, "", &m1, 0, log);
    append_miss_msgs(
        "Error getting environment variable ",
        ": environment variable not found",
        &m2,
        0,
        log,
    );
    proof {
        assert(final(log)@ =~= old(log)@ + interp_log(var_prefix@, t@, vars@, env@));
    }
    e2
}

/// The debug rendering of a method/URL pair, as the request line shows it.
pub open spec fn dbg_method(m: MethodView) -> Seq<char> {
    m.name_of() + "(\""@ + m.url_of() + "\")"@
}

/// The first line of a step's log: the method, the plan label and the
/// step label (its title, or its index when untitled).
pub open spec fn request_line(
    m: MethodView,
    plan: Option<Seq<char>>,
    title: Option<Seq<char>>,
    index: int,
) -> Seq<char> {
    dbg_method(m) + " \u{2b05} "@ + (match plan {
        Some(p) => p,
        None => "_plan"@,
    }) + "/"@ + (match title {
        Some(t) => t,
        None => crate::json::nat_text(index),
    }) + "\n"@
}

/// What the runner hands the caller for one step.
pub struct PreparedRequest {
    pub method_name: String,
    pub url: String,
    pub headers: Vec<Header>,
    pub body: Option<JsonValue>,
}

/// The three shapes a step preparation can take.
pub enum StepPrep {
    /// Every step has run.
    Finished,
    /// The step's body no longer parses as JSON after interpolation: no
    /// request can be sent; the caller records the message as the step's
    /// error and the run continues with the next step.
    BodyFailed(String),
    /// The next request to send.
    Request(PreparedRequest),
}

/// The header list a prepared request carries: the run marker first, the
/// collection marker when one was supplied, then each declared header
/// with its value interpolated.
pub open spec fn prep_headers(
    declared: Option<Seq<(Seq<char>, Seq<char>)>>,
    col_id: Option<Seq<char>>,
    vars: Map<Seq<char>, JsonValue>,
    env: Map<Seq<char>, String>,
) -> Seq<(Seq<char>, Seq<char>)> {
    seq![("X-Testkit-Run"@, "true"@)] + (match col_id {
        Some(c) => seq![("X-Testkit-Collection-ID"@, c)],
        None => Seq::empty(),
    }) + (match declared {
        Some(hs) => hs.map(|i: int, h: (Seq<char>, Seq<char>)| (h.0, subst2(h.1, vars, env))),
        None => Seq::empty(),
    })
}

/// The interpolation log of the declared headers from `i` on.
pub open spec fn headers_log(
    declared: Seq<(Seq<char>, Seq<char>)>,
    i: int,
    vars: Map<Seq<char>, JsonValue>,
    env: Map<Seq<char>, String>,
) -> Seq<char>
    decreases declared.len() - i,
{
    if i < 0 || i >= declared.len() {
        Seq::empty()
    } else {
        interp_log("Error getting local/export variable: "@, declared[i].1, vars, env)
            + headers_log(declared, i + 1, vars, env)
    }
}

/// The body after interpolation, reparsed: `None` when the step has no
/// body, `Some(None)` when the interpolated text no longer parses,
/// `Some(Some(view))` otherwise.
pub open spec fn body_outcome(
    body: Option<JView>,
    vars: Map<Seq<char>, JsonValue>,
    env: Map<Seq<char>, String>,
) -> Option<Option<JView>> {
    match body {
        None => None,
        Some(b) => Some(json_parse_text(subst2(json_text_v(b), vars, env))),
    }
}

/// The log the body interpolation adds.
pub open spec fn body_log(
    body: Option<JView>,
    vars: Map<Seq<char>, JsonValue>,
    env: Map<Seq<char>, String>,
) -> Seq<char> {
    match body {
        None => Seq::empty(),
        Some(b) => interp_log("Error getting local variable: "@, json_text_v(b), vars, env),
    }
}

/// The whole pending log of a prepared step: the request line, then a
/// line per unresolved placeholder in the URL, the headers and the body.
pub open spec fn prep_log(
    it: TestItemView,
    plan: Option<Seq<char>>,
    index: int,
    vars: Map<Seq<char>, JsonValue>,
    env: Map<Seq<char>, String>,
) -> Seq<char> {
    request_line(it.request.method, plan, it.title, index) + interp_log(
        "Export not found: "@,
        it.request.method.url_of(),
        vars,
        env,
    ) + (match it.request.headers {
        Some(hs) => headers_log(hs, 0, vars, env),
        None => Seq::empty(),
    }) + body_log(it.request.json, vars, env)
}

/// What a well-prepared request promises.
pub open spec fn prep_request_ok(
    pr: PreparedRequest,
    it: TestItemView,
    col: Option<Seq<char>>,
    vars: Map<Seq<char>, JsonValue>,
    env: Map<Seq<char>, String>,
) -> bool {
    &&& pr.method_name@ == it.request.method.name_of()
    &&& pr.url@ == subst2(it.request.method.url_of(), vars, env)
    &&& crate::model::header_views(pr.headers@) == prep_headers(it.request.headers, col, vars, env)
}

fn clone_opt_string(s: &Option<String>) -> (r: Option<String>)
    ensures
        r == *s,
{
    match s {
        Some(t) => Some(t.clone()),
        None => None,
    }
}

fn clone_method(m: &HttpMethod) -> (r: HttpMethod)
    ensures
        r.view() == m.view(),
{
    match m {
        HttpMethod::GET(u) => HttpMethod::GET(u.clone()),
        HttpMethod::POST(u) => HttpMethod::POST(u.clone()),
        HttpMethod::DELETE(u) => HttpMethod::DELETE(u.clone()),
        HttpMethod::PUT(u) => HttpMethod::PUT(u.clone()),
    }
}

fn clone_headers(hs: &Vec<Header>) -> (r: Vec<Header>)
    ensures
        crate::model::header_views(r@) == crate::model::header_views(hs@),
{
    let mut out: Vec<Header> = Vec::new();
    let mut i: usize = 0;
    while i < hs.len()
        invariant
            i <= hs@.len(),
            crate::model::header_views(out@) =~= crate::model::header_views(hs@).take(i as int),
        decreases hs@.len() - i,
    {
        proof {
            assert(crate::model::header_views(hs@)[i as int] == (hs@[i as int].name@, hs@[
                i as int].value@));
        }
        let ghost before = crate::model::header_views(out@);
        out.push(Header { name: hs[i].name.clone(), value: hs[i].value.clone() });
        proof {
            assert(crate::model::header_views(out@) =~= before.push(
                (hs@[i as int].name@, hs@[i as int].value@),
            ));
        }
        i = i + 1;
        proof {
            assert(crate::model::header_views(out@) =~= crate::model::header_views(hs@).take(
                i as int,
            ));
        }
    }
    proof {
        assert(crate::model::header_views(hs@).take(hs@.len() as int)
            =~= crate::model::header_views(hs@));
        assert(crate::model::header_views(out@) =~= crate::model::header_views(hs@));
    }
    out
}

/// The recorded request configuration: the step's own, with the
/// collection marker appended to its headers when one was supplied.
pub open spec fn recorded_req(rc: RequestConfigView, col_id: Option<Seq<char>>)
    -> RequestConfigView {
    match col_id {
        None => rc,
        Some(c) => RequestConfigView {
            method: rc.method,
            headers: Some(
                (match rc.headers {
                    Some(hs) => hs,
                    None => Seq::empty(),
                }) + seq![("X-Testkit-Collection-ID"@, c)],
            ),
            json: rc.json,
        },
    }
}

/// The ghost form of a response header multi-map.
pub open spec fn resp_header_views(hs: Seq<(String, Vec<String>)>) -> Seq<
    (Seq<char>, Seq<Seq<char>>),
> {
    hs.map(|i: int, h: (String, Vec<String>)| (h.0@, h.1.deep_view()))
}

/// The JSON form of the response header multi-map.
pub open spec fn headers_json_view(hs: Seq<(Seq<char>, Seq<Seq<char>>)>) -> JView {
    JView::Obj(
        hs.map(
            |i: int, h: (Seq<char>, Seq<Seq<char>>)| (
                h.0,
                JView::Arr(h.1.map(|j: int, v: Seq<char>| JView::Str(v))),
            ),
        ),
    )
}

/// The parsed response body: the empty object when the raw text is not
/// well-formed JSON.
pub open spec fn body_json_view(raw: Seq<char>) -> JView {
    match json_parse_text(raw) {
        Some(j) => j,
        None => JView::Obj(Seq::empty()),
    }
}

/// All values of a header joined without separator.
pub open spec fn concat_all(vals: Seq<Seq<char>>, i: int) -> Seq<char>
    decreases vals.len() - i,
{
    if i < 0 || i >= vals.len() {
        Seq::empty()
    } else {
        vals[i] + concat_all(vals, i + 1)
    }
}

/// Whether two characters are equal up to ASCII case.
pub open spec fn ci_eq_char(a: char, b: char) -> bool {
    (a as u32) == (b as u32) || (('A' as u32) <= (a as u32) <= ('Z' as u32) && (b as u32) == (
    a as u32) + 32) || (('A' as u32) <= (b as u32) <= ('Z' as u32) && (a as u32) == (b as u32)
        + 32)
}

/// Whether two names are equal up to ASCII case, as header names compare.
pub open spec fn ci_eq(a: Seq<char>, b: Seq<char>) -> bool {
    a.len() == b.len() && forall|i: int| 0 <= i < a.len() ==> ci_eq_char(a[i], #[trigger] b[i])
}

/// The first response header whose name matches up to ASCII case, as
/// transports normalize header names.
pub open spec fn hlookup(hs: Seq<(Seq<char>, Seq<Seq<char>>)>, name: Seq<char>) -> Option<
    Seq<Seq<char>>,
>
    decreases hs.len(),
{
    if hs.len() == 0 {
        None
    } else if ci_eq(hs[0].0, name) {
        Some(hs[0].1)
    } else {
        hlookup(hs.drop_first(), name)
    }
}

pub open spec fn has_prefix(s: Seq<char>, p: Seq<char>) -> bool {
    s.len() >= p.len() && s.subrange(0, p.len() as int) == p
}

/// The variable map after committing the exports from `i` on: a
/// `$.res.header.` export stores the joined header values, a
/// `$.res.status.` export stores the status code, any other export runs
/// its JSONPath over the context and stores the first selected value; an
/// export that resolves to nothing changes nothing.
pub open spec fn exports_apply(
    es: Seq<(Seq<char>, Seq<char>)>,
    i: int,
    m: Map<Seq<char>, JView>,
    ctxv: JsonValue,
    hs: Seq<(Seq<char>, Seq<Seq<char>>)>,
    status: int,
) -> Map<Seq<char>, JView>
    decreases es.len() - i,
{
    if i < 0 || i >= es.len() {
        m
    } else {
        let m2 = if has_prefix(es[i].1, "$.res.header."@) {
            match hlookup(hs, es[i].1.skip("$.res.header."@.len() as int)) {
                Some(vals) => m.insert(es[i].0, JView::Str(concat_all(vals, 0))),
                None => m,
            }
        } else if has_prefix(es[i].1, "$.res.status."@) {
            m.insert(es[i].0, JView::Int(status))
        } else {
            match select_spec(ctxv, es[i].1) {
                Ok(Some(v)) => m.insert(es[i].0, jview(v)),
                _ => m,
            }
        };
        exports_apply(es, i + 1, m2, ctxv, hs, status)
    }
}

/// The log lines the exports add: one per export whose path text is
/// malformed, and one per well-formed export path that selects no value.
/// Neither failure touches the variable map or the step's outcome.
pub open spec fn exports_log(es: Seq<(Seq<char>, Seq<char>)>, i: int, ctxv: JsonValue) -> Seq<char>
    decreases es.len() - i,
{
    if i < 0 || i >= es.len() {
        Seq::empty()
    } else {
        (if !has_prefix(es[i].1, "$.res.header."@) && !has_prefix(es[i].1, "$.res.status."@) {
            match select_spec(ctxv, es[i].1) {
                Err(()) => "Error getting export value: the export path could not be evaluated\n"@,
                Ok(None) => "Error getting export value: the export path selected no value\n"@,
                Ok(Some(_)) => Seq::empty(),
            }
        } else {
            Seq::empty()
        }) + exports_log(es, i + 1, ctxv)
    }
}

/// The deep view of a variable map: every stored value by its ghost form.
pub open spec fn deep_vars(m: Map<Seq<char>, JsonValue>) -> Map<Seq<char>, JView> {
    m.map_values(|v: JsonValue| jview(v))
}

proof fn lemma_deep_vars_insert(m: Map<Seq<char>, JsonValue>, k: Seq<char>, v: JsonValue)
    ensures
        deep_vars(m.insert(k, v)) == deep_vars(m).insert(k, jview(v)),
{
    assert(deep_vars(m.insert(k, v)) =~= deep_vars(m).insert(k, jview(v)));
}

/// The variable map a run starts with: each caller-supplied variable as a
/// string, later entries overwriting earlier ones.
pub open spec fn init_vars(lv: Seq<ConfigVariable>, i: int, m: Map<Seq<char>, JView>) -> Map<
    Seq<char>,
    JView,
>
    decreases lv.len() - i,
{
    if i < 0 || i >= lv.len() {
        m
    } else {
        init_vars(lv, i + 1, m.insert(lv[i].variable_name@, JView::Str(lv[i].variable_value@)))
    }
}

/// The frame a step transition never touches.
pub open spec fn same_frame(a: PlanRunner, b: PlanRunner) -> bool {
    &&& b.items@ == a.items@
    &&& b.env@ == a.env@
    &&& b.col_id == a.col_id
    &&& b.ctx == a.ctx
}

/// The runner for one plan: steps run strictly in document order; the
/// variable map changes only when a step's result is recorded, so a
/// step's exports are visible to every later step and never to its own
/// interpolation.
pub struct PlanRunner {
    pub ctx: TestContext,
    pub items: Vec<TestItem>,
    pub col_id: Option<String>,
    pub vars: StrMap<JsonValue>,
    pub env: StrMap<String>,
    pub results: Vec<RequestResult>,
    pub pending_log: String,
}

impl PlanRunner {
    /// The index of the next step to run.
    pub open spec fn at(&self) -> int {
        self.results@.len() as int
    }

    pub open spec fn done(&self) -> bool {
        self.results@.len() >= self.items@.len()
    }

    pub open spec fn wf(&self) -> bool {
        self.results@.len() <= self.items@.len()
    }

    /// A runner at the first step, with the caller's starting variables.
    pub fn new(
        ctx: TestContext,
        items: Vec<TestItem>,
        col_id: Option<String>,
        local_vars: Option<Vec<ConfigVariable>>,
        env: StrMap<String>,
    ) -> (r: Self)
        ensures
            r.wf(),
            r.results@.len() == 0,
            r.items@ == items@,
            deep_vars(r.vars@) == init_vars(
                match local_vars {
                    Some(lv) => lv@,
                    None => Seq::empty(),
                },
                0,
                Map::empty(),
            ),
            r.env@ == env@,
            r.col_id == col_id,
            r.ctx == ctx,
            r.pending_log@ == Seq::<char>::empty(),
    {
        let mut vars: StrMap<JsonValue> = StrMap::new();
        proof {
            assert(deep_vars(vars@) =~= Map::<Seq<char>, JView>::empty());
        }
        match local_vars {
            Some(lv) => {
                let mut i: usize = 0;
                while i < lv.len()
                    invariant
                        i <= lv@.len(),
                        init_vars(lv@, 0, Map::empty()) == init_vars(
                            lv@,
                            i as int,
                            deep_vars(vars@),
                        ),
                    decreases lv@.len() - i,
                {
                    let ghost before = vars@;
                    let name = lv[i].variable_name.clone();
                    let value = lv[i].variable_value.clone();
                    vars.insert(name, JsonValue::Str(value));
                    proof {
                        lemma_deep_vars_insert(
                            before,
                            lv@[i as int].variable_name@,
                            JsonValue::Str(lv@[i as int].variable_value),
                        );
                    }
                    i = i + 1;
                }
                PlanRunner {
                    ctx,
                    items,
                    col_id,
                    vars,
                    env,
                    results: Vec::new(),
                    pending_log: String::new(),
                }
            },
            None => PlanRunner {
                ctx,
                items,
                col_id,
                vars,
                env,
                results: Vec::new(),
                pending_log: String::new(),
            },
        }
    }

    /// Prepares the next step's request. Only the variables of steps
    /// before this one are visible; the variable map is left unchanged.
    #[verifier::rlimit(100)]
    #[verifier::loop_isolation(false)]
    pub fn prepare_step(&mut self) -> (r: StepPrep)
        requires
            old(self).wf(),
        ensures
            same_frame(*old(self), *final(self)),
            final(self).results@ == old(self).results@,
            final(self).vars@ == old(self).vars@,
            final(self).wf(),
            old(self).done() ==> r is Finished && *final(self) == *old(self),
            !old(self).done() ==> {
                let it = old(self).items@[old(self).at()].view();
                let vars = old(self).vars@;
                let env = old(self).env@;
                let col = match old(self).col_id {
                    Some(c) => Some(c@),
                    None => None,
                };
                &&& final(self).pending_log@ == prep_log(
                    it,
                    match old(self).ctx.plan {
                        Some(p) => Some(p@),
                        None => None,
                    },
                    old(self).at(),
                    vars,
                    env,
                )
                &&& match body_outcome(it.request.json, vars, env) {
                    Some(None) => r matches StepPrep::BodyFailed(bm) && bm@
                        == "step body is not valid JSON after interpolation"@,
                    None => r matches StepPrep::Request(pr) && prep_request_ok(
                        pr,
                        it,
                        col,
                        vars,
                        env,
                    ) && pr.body is None,
                    Some(Some(bv)) => r matches StepPrep::Request(pr) && prep_request_ok(
                        pr,
                        it,
                        col,
                        vars,
                        env,
                    ) && (pr.body matches Some(b) && jview(b) == bv),
                }
            },
    {
        if self.results.len() >= self.items.len() {
            return StepPrep::Finished;
        }
        let i = self.results.len();
        let ghost it = self.items@[i as int].view();
        let mname = self.items[i].request.http_method.name();
        let murl = self.items[i].request.http_method.url().clone();
        let mut log = String::new();
        log.append(mname);
        log.append("(\"");
        log.append(murl.as_str());
        log.append("\")");
        log.append(" \u{2b05} ");
        match &self.ctx.plan {
            Some(p) => log.append(p.as_str()),
            None => log.append("_plan"),
        }
        log.append("/");
        match &self.items[i].title {
            Some(t) => log.append(t.as_str()),
            None => {
                let mut digits: Vec<char> = Vec::new();
                crate::json::write_nat(i as u64, &mut digits);
                let ds = chars_to_string(&digits);
                log.append(ds.as_str());
            },
        }
        log.append("\n");
        proof {
            assert(log@ =~= request_line(
                it.request.method,
                match self.ctx.plan {
                    Some(p) => Some(p@),
                    None => None,
                },
                it.title,
                i as int,
            ));
        }
        let url = interp2_logged(
            murl.as_str(),
            "Export not found: ",
            &self.vars,
            &self.env,
            &mut log,
        );
        let ghost rline = log@;
        let mut headers: Vec<Header> = Vec::new();
        headers.push(Header { name: "X-Testkit-Run".to_owned(), value: "true".to_owned() });
        match &self.col_id {
            Some(c) => {
                headers.push(
                    Header { name: "X-Testkit-Collection-ID".to_owned(), value: c.clone() },
                );
            },
            None => {},
        }
        let ghost base_hdrs = crate::model::header_views(headers@);
        proof {
            assert(base_hdrs =~= seq![("X-Testkit-Run"@, "true"@)] + (match self.col_id {
                Some(c) => seq![("X-Testkit-Collection-ID"@, c@)],
                None => Seq::<(Seq<char>, Seq<char>)>::empty(),
            }));
        }
        match &self.items[i].request.headers {
            Some(hs) => {
                let ghost hviews = crate::model::header_views(hs@);
                let mut j: usize = 0;
                while j < hs.len()
                    invariant
                        j <= hs@.len(),
                        hviews == crate::model::header_views(hs@),
                        crate::model::header_views(headers@) =~= base_hdrs + hviews.take(
                            j as int,
                        ).map(
                            |k: int, h: (Seq<char>, Seq<char>)| (
                                h.0,
                                subst2(h.1, self.vars@, self.env@),
                            ),
                        ),
                        log@ + headers_log(hviews, j as int, self.vars@, self.env@) == rline
                            + headers_log(hviews, 0, self.vars@, self.env@),
                    decreases hs@.len() - j,
                {
                    proof {
                        assert(hviews[j as int] == (hs@[j as int].name@, hs@[j as int].value@));
                    }
                    let hv = interp2_logged(
                        hs[j].value.as_str(),
                        "Error getting local/export variable: ",
                        &self.vars,
                        &self.env,
                        &mut log,
                    );
                    let ghost beforeh = crate::model::header_views(headers@);
                    headers.push(Header { name: hs[j].name.clone(), value: hv });
                    proof {
                        assert(crate::model::header_views(headers@) =~= beforeh.push(
                            (hs@[j as int].name@, hv@),
                        ));
                    }
                    j = j + 1;
                    proof {
                        assert(crate::model::header_views(headers@) =~= base_hdrs + hviews.take(
                            j as int,
                        ).map(
                            |k: int, h: (Seq<char>, Seq<char>)| (
                                h.0,
                                subst2(h.1, self.vars@, self.env@),
                            ),
                        ));
                    }
                }
                proof {
                    assert(hviews.take(hviews.len() as int) =~= hviews);
                    assert(hviews.take(hviews.len() as int).map(
                        |k: int, h: (Seq<char>, Seq<char>)| (
                            h.0,
                            subst2(h.1, self.vars@, self.env@),
                        ),
                    ) =~= hviews.map(
                        |k: int, h: (Seq<char>, Seq<char>)| (
                            h.0,
                            subst2(h.1, self.vars@, self.env@),
                        ),
                    ));
                }
            },
            None => {},
        }
        proof {
            assert(crate::model::header_views(headers@) == prep_headers(
                it.request.headers,
                match self.col_id {
                    Some(c) => Some(c@),
                    None => None,
                },
                self.vars@,
                self.env@,
            ));
        }
        let body: Option<JsonValue>;
        match &self.items[i].request.json {
            Some(b) => {
                let btext = json_to_string(b);
                let bsub = interp2_logged(
                    btext.as_str(),
                    "Error getting local variable: ",
                    &self.vars,
                    &self.env,
                    &mut log,
                );
                match parse_json(bsub.as_str()) {
                    Some(v) => {
                        body = Some(v);
                    },
                    None => {
                        self.pending_log = log;
                        proof {
                            assert(final(self).pending_log@ =~= prep_log(
                                it,
                                match old(self).ctx.plan {
                                    Some(p) => Some(p@),
                                    None => None,
                                },
                                old(self).at(),
                                old(self).vars@,
                                old(self).env@,
                            ));
                        }
                        return StepPrep::BodyFailed(
                            "step body is not valid JSON after interpolation".to_owned(),
                        );
                    },
                }
            },
            None => {
                body = None;
            },
        }
        self.pending_log = log;
        proof {
            assert(final(self).pending_log@ =~= prep_log(
                it,
                match old(self).ctx.plan {
                    Some(p) => Some(p@),
                    None => None,
                },
                old(self).at(),
                old(self).vars@,
                old(self).env@,
            ));
        }
        StepPrep::Request(
            PreparedRequest { method_name: mname.to_owned(), url, headers, body },
        )
    }
}


// ---------------------------------------------------------------------------
// Recording step outcomes
// ---------------------------------------------------------------------------

/// The ghost form of the record a transport failure leaves: no assertion
/// outcomes, the default request/response, the error on the record.
pub open spec fn default_rr_view() -> ReqRespView {
    ReqRespView {
        req: RequestConfigView { method: MethodView::GET("<UNSET>"@), headers: None, json: None },
        resp: ResponseView {
            status: 0,
            headers: JView::Null,
            json: JView::Null,
            raw: Seq::empty(),
        },
    }
}

/// A step's assertions, empty when it declares none.
pub open spec fn assert_list(o: Option<Seq<AssertView>>) -> Seq<AssertView> {
    match o {
        Some(a) => a,
        None => Seq::empty(),
    }
}

/// A step's exports, empty when it declares none.
pub open spec fn export_list(o: Option<Seq<(Seq<char>, Seq<char>)>>) -> Seq<(Seq<char>, Seq<char>)> {
    match o {
        Some(e) => e,
        None => Seq::empty(),
    }
}

/// The context dump a step emits when its `dump` flag is set.
pub open spec fn dump_part(dump: Option<bool>, ctxv: JsonValue) -> Seq<char> {
    if dump == Some(true) {
        "\u{1f4a1} DUMP jsonpath request response context:\n "@ + json_text(ctxv) + "\n"@
    } else {
        Seq::empty()
    }
}

fn strs_to_json_arr(vals: &Vec<String>) -> (r: JsonValue)
    ensures
        jview(r) == JView::Arr(vals.deep_view().map(|j: int, v: Seq<char>| JView::Str(v))),
{
    let mut out: Vec<JsonValue> = Vec::new();
    let mut i: usize = 0;
    while i < vals.len()
        invariant
            i <= vals@.len(),
            jviews(out@) =~= vals.deep_view().take(i as int).map(
                |j: int, v: Seq<char>| JView::Str(v),
            ),
        decreases vals@.len() - i,
    {
        proof {
            assert(vals.deep_view()[i as int] == vals@[i as int]@);
        }
        let ghost before = jviews(out@);
        out.push(JsonValue::Str(vals[i].clone()));
        proof {
            assert(jviews(out@) =~= before.push(JView::Str(vals@[i as int]@)));
            assert(jviews(out@) =~= vals.deep_view().take(i as int + 1).map(
                |j: int, v: Seq<char>| JView::Str(v),
            ));
        }
        i = i + 1;
    }
    proof {
        assert(vals.deep_view().take(vals@.len() as int) =~= vals.deep_view());
        assert(jviews(out@) =~= vals.deep_view().map(|j: int, v: Seq<char>| JView::Str(v)));
    }
    JsonValue::Arr(out)
}

fn build_headers_json(hs: &Vec<(String, Vec<String>)>) -> (r: JsonValue)
    ensures
        jview(r) == headers_json_view(resp_header_views(hs@)),
{
    let mut out: Vec<(String, JsonValue)> = Vec::new();
    let mut i: usize = 0;
    while i < hs.len()
        invariant
            i <= hs@.len(),
            jfield_views(out@) =~= resp_header_views(hs@).take(i as int).map(
                |k: int, h: (Seq<char>, Seq<Seq<char>>)| (
                    h.0,
                    JView::Arr(h.1.map(|j: int, v: Seq<char>| JView::Str(v))),
                ),
            ),
        decreases hs@.len() - i,
    {
        proof {
            assert(resp_header_views(hs@)[i as int] == (hs@[i as int].0@, hs@[
                i as int].1.deep_view()));
        }
        let arr = strs_to_json_arr(&hs[i].1);
        let ghost before = jfield_views(out@);
        let ghost av = jview(arr);
        out.push((hs[i].0.clone(), arr));
        proof {
            assert(jfield_views(out@) =~= before.push((hs@[i as int].0@, av)));
            assert(jfield_views(out@) =~= resp_header_views(hs@).take(i as int + 1).map(
                |k: int, h: (Seq<char>, Seq<Seq<char>>)| (
                    h.0,
                    JView::Arr(h.1.map(|j: int, v: Seq<char>| JView::Str(v))),
                ),
            ));
        }
        i = i + 1;
    }
    proof {
        assert(resp_header_views(hs@).take(hs@.len() as int) =~= resp_header_views(hs@));
        assert(jfield_views(out@) =~= resp_header_views(hs@).map(
            |k: int, h: (Seq<char>, Seq<Seq<char>>)| (
                h.0,
                JView::Arr(h.1.map(|j: int, v: Seq<char>| JView::Str(v))),
            ),
        ));
    }
    JsonValue::Obj(out)
}

/// The recorded request: the step's own configuration, with the
/// collection marker header appended when one was supplied.
fn recorded_request(rc: &RequestConfig, col: &Option<String>) -> (r: RequestConfig)
    ensures
        r.view() == recorded_req(
            rc.view(),
            match col {
                Some(c) => Some(c@),
                None => None,
            },
        ),
{
    let method = clone_method(&rc.http_method);
    let json = match &rc.json {
        Some(b) => Some(crate::json::clone_json(b)),
        None => None,
    };
    match col {
        None => {
            let headers = match &rc.headers {
                Some(hs) => Some(clone_headers(hs)),
                None => None,
            };
            RequestConfig { http_method: method, headers, json }
        },
        Some(c) => {
            let mut hs2 = match &rc.headers {
                Some(hs) => clone_headers(hs),
                None => Vec::new(),
            };
            let ghost before = crate::model::header_views(hs2@);
            hs2.push(Header { name: "X-Testkit-Collection-ID".to_owned(), value: c.clone() });
            proof {
                assert(crate::model::header_views(hs2@) =~= before.push(
                    ("X-Testkit-Collection-ID"@, c@),
                ));
                assert(crate::model::header_views(hs2@) =~= (match rc.view().headers {
                    Some(hsv) => hsv,
                    None => Seq::<(Seq<char>, Seq<char>)>::empty(),
                }) + seq![("X-Testkit-Collection-ID"@, c@)]);
            }
            RequestConfig { http_method: method, headers: Some(hs2), json }
        },
    }
}

/// The JSON context `{req, resp}` of a completed step.
#[verifier::rlimit(100)]
pub fn build_context(rr: &RequestAndResponse) -> (r: JsonValue)
    ensures
        jview(r) == context_view(rr.view()),
{
    let mut req_fields: Vec<(String, JsonValue)> = Vec::new();
    let mname = rr.req.http_method.name();
    let murl = rr.req.http_method.url().clone();
    req_fields.push((mname.to_owned(), JsonValue::Str(murl)));
    let headers_v = match &rr.req.headers {
        Some(hs) => {
            let mut hv: Vec<(String, JsonValue)> = Vec::new();
            let mut i: usize = 0;
            while i < hs.len()
                invariant
                    i <= hs@.len(),
                    jfield_views(hv@) =~= crate::model::header_views(hs@).take(i as int).map(
                        |k: int, h: (Seq<char>, Seq<char>)| (h.0, JView::Str(h.1)),
                    ),
                decreases hs@.len() - i,
            {
                proof {
                    assert(crate::model::header_views(hs@)[i as int] == (hs@[i as int].name@, hs@[
                        i as int].value@));
                }
                let ghost before = jfield_views(hv@);
                hv.push((hs[i].name.clone(), JsonValue::Str(hs[i].value.clone())));
                proof {
                    assert(jfield_views(hv@) =~= before.push(
                        (hs@[i as int].name@, JView::Str(hs@[i as int].value@)),
                    ));
                    assert(jfield_views(hv@) =~= crate::model::header_views(hs@).take(
                        i as int + 1,
                    ).map(|k: int, h: (Seq<char>, Seq<char>)| (h.0, JView::Str(h.1))));
                }
                i = i + 1;
            }
            proof {
                assert(crate::model::header_views(hs@).take(hs@.len() as int)
                    =~= crate::model::header_views(hs@));
                assert(jfield_views(hv@) =~= crate::model::header_views(hs@).map(
                    |k: int, h: (Seq<char>, Seq<char>)| (h.0, JView::Str(h.1)),
                ));
            }
            JsonValue::Obj(hv)
        },
        None => JsonValue::Null,
    };
    req_fields.push(("headers".to_owned(), headers_v));
    let json_v = match &rr.req.json {
        Some(b) => crate::json::clone_json(b),
        None => JsonValue::Null,
    };
    req_fields.push(("json".to_owned(), json_v));
    proof {
        assert(jfield_views(req_fields@) =~= crate::model::req_json_view(rr.req.view())->Obj_0);
    }
    let mut resp_fields: Vec<(String, JsonValue)> = Vec::new();
    resp_fields.push(("status".to_owned(), JsonValue::Int(rr.resp.status as i64)));
    resp_fields.push(("headers".to_owned(), crate::json::clone_json(&rr.resp.headers)));
    resp_fields.push(("json".to_owned(), crate::json::clone_json(&rr.resp.json)));
    resp_fields.push(("raw".to_owned(), JsonValue::Str(rr.resp.raw.clone())));
    proof {
        assert(jfield_views(resp_fields@) =~= crate::model::resp_json_view(rr.resp.view())->Obj_0);
    }
    let mut ctx_fields: Vec<(String, JsonValue)> = Vec::new();
    ctx_fields.push(("req".to_owned(), JsonValue::Obj(req_fields)));
    ctx_fields.push(("resp".to_owned(), JsonValue::Obj(resp_fields)));
    proof {
        assert(jfield_views(ctx_fields@) =~= context_view(rr.view())->Obj_0);
    }
    JsonValue::Obj(ctx_fields)
}

fn join_all(vals: &Vec<String>, i: usize, out: &mut Vec<char>)
    requires
        i <= vals@.len(),
    ensures
        final(out)@ == old(out)@ + concat_all(vals.deep_view(), i as int),
    decreases vals@.len() - i,
{
    if i >= vals.len() {
        proof {
            assert(final(out)@ =~= old(out)@ + concat_all(vals.deep_view(), i as int));
        }
        return;
    }
    proof {
        assert(vals.deep_view()[i as int] == vals@[i as int]@);
    }
    append_str_chars(out, vals[i].as_str());
    join_all(vals, i + 1, out);
    proof {
        assert(final(out)@ =~= old(out)@ + concat_all(vals.deep_view(), i as int));
    }
}

fn ci_eq_char_exec(a: char, b: char) -> (r: bool)
    ensures
        r == ci_eq_char(a, b),
{
    let ua = a as u32;
    let ub = b as u32;
    ua == ub || (('A' as u32) <= ua && ua <= ('Z' as u32) && ub == ua + 32) || (('A' as u32) <= ub
        && ub <= ('Z' as u32) && ua == ub + 32)
}

fn ci_eq_str(a: &str, b: &str) -> (r: bool)
    ensures
        r == ci_eq(a@, b@),
{
    let ac = str_chars(a);
    let bc = str_chars(b);
    if ac.len() != bc.len() {
        return false;
    }
    let n = ac.len();
    let mut i: usize = 0;
    while i < n
        invariant
            n == ac@.len(),
            ac@.len() == bc@.len(),
            i <= n,
            ac@ == a@,
            bc@ == b@,
            forall|j: int| 0 <= j < i ==> ci_eq_char(a@[j], #[trigger] b@[j]),
        decreases n - i,
    {
        if !ci_eq_char_exec(ac[i], bc[i]) {
            return false;
        }
        i = i + 1;
    }
    true
}

fn find_header<'a>(hs: &'a Vec<(String, Vec<String>)>, name: &str) -> (r: Option<&'a Vec<String>>)
    ensures
        match r {
            Some(v) => hlookup(resp_header_views(hs@), name@) == Some(v.deep_view()),
            None => hlookup(resp_header_views(hs@), name@) is None,
        },
{
    let ghost views = resp_header_views(hs@);
    proof {
        assert(views.skip(0) =~= views);
    }
    let mut i: usize = 0;
    while i < hs.len()
        invariant
            i <= hs@.len(),
            views == resp_header_views(hs@),
            hlookup(views, name@) == hlookup(views.skip(i as int), name@),
        decreases hs@.len() - i,
    {
        proof {
            assert(views[i as int] == (hs@[i as int].0@, hs@[i as int].1.deep_view()));
            assert(views.skip(i as int)[0] == views[i as int]);
            assert(views.skip(i as int).drop_first() =~= views.skip(i as int + 1));
        }
        if ci_eq_str(hs[i].0.as_str(), name) {
            return Some(&hs[i].1);
        }
        i = i + 1;
    }
    proof {
        assert(views.skip(views.len() as int) =~= Seq::<(Seq<char>, Seq<Seq<char>>)>::empty());
    }
    None
}

fn has_prefix_str(s: &str, p: &str) -> (r: bool)
    ensures
        r == has_prefix(s@, p@),
{
    let sc = str_chars(s);
    let pc = str_chars(p);
    if sc.len() < pc.len() {
        return false;
    }
    let n = sc.len();
    let mut k: usize = 0;
    while k < pc.len()
        invariant
            n == sc@.len(),
            pc@.len() <= sc@.len(),
            k <= pc@.len(),
            sc@ == s@,
            pc@ == p@,
            forall|j: int| 0 <= j < k ==> sc@[j] == pc@[j],
        decreases pc@.len() - k,
    {
        if sc[k] != pc[k] {
            proof {
                assert(s@.subrange(0, p@.len() as int)[k as int] == s@[k as int]);
            }
            return false;
        }
        k = k + 1;
    }
    proof {
        assert(s@.subrange(0, p@.len() as int) =~= p@);
    }
    true
}

impl PlanRunner {
    /// Records a transport failure: the step gets its one result, with
    /// the error on the record, no assertion outcomes and the default
    /// request/response; the variable map does not change and the plan
    /// goes on with the next step.
    pub fn record_transport_error(&mut self, msg: String)
        requires
            old(self).wf(),
            !old(self).done(),
        ensures
            same_frame(*old(self), *final(self)),
            final(self).wf(),
            final(self).vars@ == old(self).vars@,
            final(self).pending_log@ == Seq::<char>::empty(),
            final(self).results@.len() == old(self).results@.len() + 1,
            forall|k: int|
                0 <= k < old(self).results@.len() ==> final(self).results@[k] == old(
                    self,
                ).results@[k],
            ({
                let rr = final(self).results@.last();
                &&& rr.step_name == old(self).items@[old(self).at()].title
                &&& rr.step_index == old(self).at() as u32
                &&& error_rel(
                    old(self).pending_log@,
                    old(self).vars@,
                    final(self).vars@,
                    rr,
                    "Error sending request: "@ + msg@,
                )
            }),
    {
        let i = self.results.len();
        let title = clone_opt_string(&self.items[i].title);
        let mut log = self.pending_log.clone();
        self.pending_log = String::new();
        log.append("Error sending request: ");
        log.append(msg.as_str());
        log.append("\n");
        let mut err = "Error sending request: ".to_owned();
        err.append(msg.as_str());
        proof {
            assert(log@ =~= old(self).pending_log@ + ("Error sending request: "@ + msg@)
                + "\n"@);
        }
        let rr = RequestResult {
            step_name: title,
            step_index: i as u32,
            assert_results: Vec::new(),
            request: RequestAndResponse::default(),
            step_log: log,
            step_error: Some(err),
        };
        self.results.push(rr);
    }

    /// Records a step that failed before its request could be sent (its
    /// body no longer parses after interpolation): the step gets its one
    /// result with the message as its error, no assertion outcomes and
    /// the default request/response; the variable map does not change and
    /// the plan goes on with the next step.
    pub fn record_step_failure(&mut self, msg: String)
        requires
            old(self).wf(),
            !old(self).done(),
        ensures
            same_frame(*old(self), *final(self)),
            final(self).wf(),
            final(self).vars@ == old(self).vars@,
            final(self).pending_log@ == Seq::<char>::empty(),
            final(self).results@.len() == old(self).results@.len() + 1,
            forall|k: int|
                0 <= k < old(self).results@.len() ==> final(self).results@[k] == old(
                    self,
                ).results@[k],
            ({
                let rr = final(self).results@.last();
                &&& rr.step_name == old(self).items@[old(self).at()].title
                &&& rr.step_index == old(self).at() as u32
                &&& error_rel(
                    old(self).pending_log@,
                    old(self).vars@,
                    final(self).vars@,
                    rr,
                    msg@,
                )
            }),
    {
        let i = self.results.len();
        let title = clone_opt_string(&self.items[i].title);
        let mut log = self.pending_log.clone();
        self.pending_log = String::new();
        log.append(msg.as_str());
        log.append("\n");
        let rr = RequestResult {
            step_name: title,
            step_index: i as u32,
            assert_results: Vec::new(),
            request: RequestAndResponse::default(),
            step_log: log,
            step_error: Some(msg),
        };
        self.results.push(rr);
    }

    /// Every step has run: the result sequence, one record per step.
    pub fn finish(self) -> (r: Vec<RequestResult>)
        requires
            self.wf(),
            self.done(),
        ensures
            r@ == self.results@,
            r@.len() == self.items@.len(),
    {
        self.results
    }
}


/// Freezes one step's request/response record and its JSON context.
fn freeze_step(
    rc: &RequestConfig,
    col: &Option<String>,
    status: u16,
    resp_headers: &Vec<(String, Vec<String>)>,
    raw_body: String,
) -> (r: (RequestAndResponse, JsonValue))
    ensures
        r.0.view() == (ReqRespView {
            req: recorded_req(
                rc.view(),
                match col {
                    Some(c) => Some(c@),
                    None => None,
                },
            ),
            resp: ResponseView {
                status: status as int,
                headers: headers_json_view(resp_header_views(resp_headers@)),
                json: body_json_view(raw_body@),
                raw: raw_body@,
            },
        }),
        jview(r.1) == context_view(r.0.view()),
{
    let json_body = match parse_json(raw_body.as_str()) {
        Some(v) => v,
        None => {
            let empty_obj: Vec<(String, JsonValue)> = Vec::new();
            proof {
                assert(jfield_views(empty_obj@) =~= Seq::<(Seq<char>, JView)>::empty());
            }
            JsonValue::Obj(empty_obj)
        },
    };
    let headers_json = build_headers_json(resp_headers);
    let req_rec = recorded_request(rc, col);
    let assert_object = RequestAndResponse {
        req: req_rec,
        resp: ResponseObject { status, headers: headers_json, json: json_body, raw: raw_body },
    };
    let ctx = build_context(&assert_object);
    (assert_object, ctx)
}

/// Commits one step's exports into the variable map, logging a line for
/// each export whose path text is malformed.
#[verifier::rlimit(100)]
#[verifier::loop_isolation(false)]
fn apply_exports(
    vars: &mut StrMap<JsonValue>,
    log: &mut String,
    exports_ref: &Vec<(String, String)>,
    ctx: &JsonValue,
    resp_headers: &Vec<(String, Vec<String>)>,
    status: u16,
)
    ensures
        deep_vars(final(vars)@) == exports_apply(
            crate::model::export_views(exports_ref@),
            0,
            deep_vars(old(vars)@),
            *ctx,
            resp_header_views(resp_headers@),
            status as int,
        ),
        final(log)@ == old(log)@ + exports_log(crate::model::export_views(exports_ref@), 0, *ctx),
{
    let ghost es = crate::model::export_views(exports_ref@);
    let ghost deep0 = deep_vars(old(vars)@);
    let hdr_prefix = "$.res.header.";
    let status_prefix = "$.res.status.";
    let mut k: usize = 0;
    while k < exports_ref.len()
        invariant
            k <= exports_ref@.len(),
            es == crate::model::export_views(exports_ref@),
            exports_apply(es, 0, deep0, *ctx, resp_header_views(resp_headers@), status as int)
                == exports_apply(
                es,
                k as int,
                deep_vars(vars@),
                *ctx,
                resp_header_views(resp_headers@),
                status as int,
            ),
            log@ + exports_log(es, k as int, *ctx) == old(log)@ + exports_log(es, 0, *ctx),
        decreases exports_ref@.len() - k,
    {
        proof {
            assert(es[k as int] == (exports_ref@[k as int].0@, exports_ref@[k as int].1@));
        }
        let value = &exports_ref[k].1;
        if has_prefix_str(value.as_str(), hdr_prefix) {
            let vc = str_chars(value.as_str());
            let lit = str_chars(hdr_prefix);
            let namec = crate::strutil::copy_range(&vc, lit.len(), vc.len());
            let hname = chars_to_string(&namec);
            proof {
                assert(hname@ =~= exports_ref@[k as int].1@.skip("$.res.header."@.len() as int));
            }
            match find_header(resp_headers, hname.as_str()) {
                Some(vals) => {
                    let mut joined: Vec<char> = Vec::new();
                    join_all(vals, 0, &mut joined);
                    let js = chars_to_string(&joined);
                    let ghost before = vars@;
                    let ghost jv2 = JView::Str(js@);
                    vars.insert(exports_ref[k].0.clone(), JsonValue::Str(js));
                    proof {
                        assert(deep_vars(vars@) =~= deep_vars(before).insert(
                            exports_ref@[k as int].0@,
                            jv2,
                        ));
                    }
                },
                None => {},
            }
        } else if has_prefix_str(value.as_str(), status_prefix) {
            let ghost before = vars@;
            vars.insert(exports_ref[k].0.clone(), JsonValue::Int(status as i64));
            proof {
                lemma_deep_vars_insert(
                    before,
                    exports_ref@[k as int].0@,
                    JsonValue::Int(status as i64),
                );
            }
        } else {
            match select_first(ctx, value.as_str()) {
                Ok(Some(v)) => {
                    let cv = crate::json::clone_json(v);
                    let ghost before = vars@;
                    let ghost cvv = jview(cv);
                    vars.insert(exports_ref[k].0.clone(), cv);
                    proof {
                        assert(deep_vars(vars@) =~= deep_vars(before).insert(
                            exports_ref@[k as int].0@,
                            cvv,
                        ));
                    }
                },
                Ok(None) => {
                    log.append(
                        "Error getting export value: the export path selected no value\n",
                    );
                },
                Err(()) => {
                    log.append(
                        "Error getting export value: the export path could not be evaluated\n",
                    );
                },
            }
        }
        k = k + 1;
        proof {
            assert(log@ + exports_log(es, k as int, *ctx) =~= old(log)@ + exports_log(
                es,
                0,
                *ctx,
            ));
        }
    }
    proof {
        assert(exports_log(es, es.len() as int, *ctx) =~= Seq::<char>::empty());
        assert(final(log)@ =~= old(log)@ + exports_log(es, 0, *ctx));
    }
}

impl PlanRunner {
    /// Records a completed response: freezes the `{req, resp}` context,
    /// evaluates the assertions against it, commits the step's exports at
    /// this boundary (visible to every later step, never to this step's
    /// own interpolation), and appends the step's one record. Returns the
    /// frozen context the assertions ran over.
    #[verifier::rlimit(100)]
    #[verifier::spinoff_prover]
    #[verifier::loop_isolation(false)]
    pub fn record_response(
        &mut self,
        status: u16,
        resp_headers: Vec<(String, Vec<String>)>,
        raw_body: String,
    ) -> (ctx_json: JsonValue)
        requires
            old(self).wf(),
            !old(self).done(),
        ensures
            same_frame(*old(self), *final(self)),
            final(self).wf(),
            final(self).pending_log@ == Seq::<char>::empty(),
            final(self).results@.len() == old(self).results@.len() + 1,
            forall|k: int|
                0 <= k < old(self).results@.len() ==> final(self).results@[k] == old(
                    self,
                ).results@[k],
            jview(ctx_json) == context_view(
                ReqRespView {
                    req: recorded_req(
                        old(self).items@[old(self).at()].view().request,
                        match old(self).col_id {
                            Some(c) => Some(c@),
                            None => None,
                        },
                    ),
                    resp: ResponseView {
                        status: status as int,
                        headers: headers_json_view(resp_header_views(resp_headers@)),
                        json: body_json_view(raw_body@),
                        raw: raw_body@,
                    },
                },
            ),
            ({
                let it = old(self).items@[old(self).at()].view();
                let rr = final(self).results@.last();
                &&& rr.step_name == old(self).items@[old(self).at()].title
                &&& rr.step_index == old(self).at() as u32
                &&& rr.step_error is None
                &&& rr.request.view() == ReqRespView {
                    req: recorded_req(
                        it.request,
                        match old(self).col_id {
                            Some(c) => Some(c@),
                            None => None,
                        },
                    ),
                    resp: ResponseView {
                        status: status as int,
                        headers: headers_json_view(resp_header_views(resp_headers@)),
                        json: body_json_view(raw_body@),
                        raw: raw_body@,
                    },
                }
                &&& rr.assert_results@.len() == assert_list(it.asserts).len()
                &&& forall|k: int|
                    0 <= k < assert_list(it.asserts).len() ==> entry_matches(
                        #[trigger] rr.assert_results@[k],
                        outcome_of(
                            assert_list(it.asserts)[k],
                            old(self).ctx.file@,
                            ctx_json,
                            old(self).vars@,
                            old(self).env@,
                            old(self).ctx.should_log,
                        ),
                    )
                &&& rr.step_log@ == old(self).pending_log@ + dump_part(it.dump, ctx_json)
                    + crate::assert_eval::log_lines(
                    assert_list(it.asserts),
                    0,
                    old(self).ctx.file@,
                    ctx_json,
                    old(self).vars@,
                    old(self).env@,
                    old(self).ctx.should_log,
                ) + exports_log(export_list(it.exports), 0, ctx_json)
            }),
            deep_vars(final(self).vars@) == exports_apply(
                export_list(old(self).items@[old(self).at()].view().exports),
                0,
                deep_vars(old(self).vars@),
                ctx_json,
                resp_header_views(resp_headers@),
                status as int,
            ),
    {
        let i = self.results.len();
        let ghost it = self.items@[i as int].view();
        let title = clone_opt_string(&self.items[i].title);
        let (assert_object, ctx) = freeze_step(
            &self.items[i].request,
            &self.col_id,
            status,
            &resp_headers,
            raw_body,
        );
        let mut log = self.pending_log.clone();
        self.pending_log = String::new();
        let dump_flag = match self.items[i].dump {
            Some(b) => b,
            None => false,
        };
        if dump_flag {
            log.append("\u{1f4a1} DUMP jsonpath request response context:\n ");
            let ctext = json_to_string(&ctx);
            log.append(ctext.as_str());
            log.append("\n");
        }
        let empty_asserts: Vec<Assert> = Vec::new();
        let asserts_ref = match &self.items[i].asserts {
            Some(a) => a,
            None => &empty_asserts,
        };
        proof {
            assert(crate::model::assert_views(asserts_ref@) =~= assert_list(it.asserts));
        }
        let file = self.ctx.file.clone();
        let should_log = self.ctx.should_log;
        let assert_results = check_assertions(
            asserts_ref,
            file.as_str(),
            &ctx,
            &self.vars,
            &self.env,
            should_log,
            &mut log,
        );
        let empty_exports: Vec<(String, String)> = Vec::new();
        let exports_ref = match &self.items[i].exports {
            Some(e) => e,
            None => &empty_exports,
        };
        proof {
            assert(crate::model::export_views(exports_ref@) =~= export_list(it.exports));
        }
        apply_exports(&mut self.vars, &mut log, exports_ref, &ctx, &resp_headers, status);
        let rr = RequestResult {
            step_name: title,
            step_index: i as u32,
            assert_results,
            request: assert_object,
            step_log: log,
            step_error: None,
        };
        self.results.push(rr);
        ctx
    }
}


/// What the transport produced for one step, as a recorded run replays it.
pub enum StepOutcome {
    /// A completed response: status, headers (multi-valued), raw body.
    Response { status: u16, headers: Vec<(String, Vec<String>)>, body: String },
    /// The request could not be sent.
    TransportFail(String),
}

/// The ghost form of the record a completed response leaves.
pub open spec fn step_rr_view(
    it: TestItemView,
    col: Option<Seq<char>>,
    status: u16,
    hviews: Seq<(Seq<char>, Seq<Seq<char>>)>,
    body: Seq<char>,
) -> ReqRespView {
    ReqRespView {
        req: recorded_req(it.request, col),
        resp: ResponseView {
            status: status as int,
            headers: headers_json_view(hviews),
            json: body_json_view(body),
            raw: body,
        },
    }
}

/// How a step that never completed a response relates to its record: the
/// full message is the step's error and its one log line, nothing was
/// asserted or exported, and the request/response stays the default.
pub open spec fn error_rel(
    pend: Seq<char>,
    vars_in: Map<Seq<char>, JsonValue>,
    vars_out: Map<Seq<char>, JsonValue>,
    rr: RequestResult,
    full_msg: Seq<char>,
) -> bool {
    &&& rr.step_error matches Some(m2) && m2@ == full_msg
    &&& rr.step_log@ == pend + full_msg + "
"@
    &&& rr.assert_results@.len() == 0
    &&& rr.request.view() == default_rr_view()
    &&& vars_out == vars_in
}

/// How a transport failure's record relates to its step.
pub open spec fn transport_rel(
    pend: Seq<char>,
    vars_in: Map<Seq<char>, JsonValue>,
    vars_out: Map<Seq<char>, JsonValue>,
    rr: RequestResult,
    msg: Seq<char>,
) -> bool {
    error_rel(pend, vars_in, vars_out, rr, "Error sending request: "@ + msg)
}

/// How one step of a recorded run relates its record and the variable map
/// after it to the step, the outcome handed to it (`None` when the
/// transcript is exhausted, which counts as a transport failure), and the
/// variable map before it. A step whose body no longer parses after
/// interpolation records that message as its error and changes nothing
/// else. On a response, the record carries the frozen context, one
/// assertion outcome per assertion as `outcome_of` fixes it, the exact
/// step log, and the exports commit by `exports_apply`.
#[verifier::opaque]
pub open spec fn step_rel_oc(
    it: TestItemView,
    oc: Option<StepOutcome>,
    file: Seq<char>,
    planlbl: Option<Seq<char>>,
    should_log: bool,
    col: Option<Seq<char>>,
    env: Map<Seq<char>, String>,
    k: int,
    vars_in: Map<Seq<char>, JsonValue>,
    vars_out: Map<Seq<char>, JsonValue>,
    rr: RequestResult,
) -> bool {
    let pend = prep_log(it, planlbl, k, vars_in, env);
    &&& (match rr.step_name {
        Some(t) => Some(t@),
        None => None,
    }) == it.title
    &&& rr.step_index == k as u32
    &&& if body_outcome(it.request.json, vars_in, env) == Some(None::<JView>) {
        error_rel(
            pend,
            vars_in,
            vars_out,
            rr,
            "step body is not valid JSON after interpolation"@,
        )
    } else {
        match oc {
            Some(o) => match o {
            StepOutcome::Response { status, headers, body } => exists|ctxv: JsonValue|
                {
                    &&& #[trigger] jview(ctxv) == context_view(
                        step_rr_view(it, col, status, resp_header_views(headers@), body@),
                    )
                    &&& rr.request.view() == step_rr_view(
                        it,
                        col,
                        status,
                        resp_header_views(headers@),
                        body@,
                    )
                    &&& rr.step_error is None
                    &&& rr.assert_results@.len() == assert_list(it.asserts).len()
                    &&& forall|j: int|
                        0 <= j < assert_list(it.asserts).len() ==> entry_matches(
                            #[trigger] rr.assert_results@[j],
                            outcome_of(
                                assert_list(it.asserts)[j],
                                file,
                                ctxv,
                                vars_in,
                                env,
                                should_log,
                            ),
                        )
                    &&& rr.step_log@ == pend + dump_part(it.dump, ctxv) + log_lines(
                        assert_list(it.asserts),
                        0,
                        file,
                        ctxv,
                        vars_in,
                        env,
                        should_log,
                    ) + exports_log(export_list(it.exports), 0, ctxv)
                    &&& deep_vars(vars_out) == exports_apply(
                        export_list(it.exports),
                        0,
                        deep_vars(vars_in),
                        ctxv,
                        resp_header_views(headers@),
                        status as int,
                    )
                },
                StepOutcome::TransportFail(m) => transport_rel(pend, vars_in, vars_out, rr, m@),
            },
            None => transport_rel(
                pend,
                vars_in,
                vars_out,
                rr,
                "no recorded outcome for this step"@,
            ),
        }
    }
}

/// `step_rel_oc` with the outcome the transcript holds for step `k`.
pub open spec fn step_rel(
    it: TestItemView,
    ts: Seq<StepOutcome>,
    file: Seq<char>,
    planlbl: Option<Seq<char>>,
    should_log: bool,
    col: Option<Seq<char>>,
    env: Map<Seq<char>, String>,
    k: int,
    vars_in: Map<Seq<char>, JsonValue>,
    vars_out: Map<Seq<char>, JsonValue>,
    rr: RequestResult,
) -> bool {
    step_rel_oc(
        it,
        if 0 <= k < ts.len() {
            Some(ts[k])
        } else {
            None
        },
        file,
        planlbl,
        should_log,
        col,
        env,
        k,
        vars_in,
        vars_out,
        rr,
    )
}

/// The first `k` steps of a recorded run, with the variable map
/// snapshots threaded between them: `vmaps[0]` is the starting map,
/// `vmaps[j+1]` the map after step `j`, and every step's record satisfies
/// `step_rel`.
pub open spec fn run_chain(
    plan: Seq<TestItemView>,
    ts: Seq<StepOutcome>,
    file: Seq<char>,
    planlbl: Option<Seq<char>>,
    should_log: bool,
    col: Option<Seq<char>>,
    env: Map<Seq<char>, String>,
    k: int,
    vmaps: Seq<Map<Seq<char>, JsonValue>>,
    results: Seq<RequestResult>,
) -> bool {
    &&& 0 <= k <= plan.len()
    &&& vmaps.len() == k + 1
    &&& results.len() == k
    &&& forall|j: int|
        0 <= j < k ==> step_rel(
            plan[j],
            ts,
            file,
            planlbl,
            should_log,
            col,
            env,
            j,
            #[trigger] vmaps[j],
            vmaps[j + 1],
            results[j],
        )
}

/// A completed recorded run: the whole decoded plan ran, step by step
/// from the caller's starting variables, and produced exactly these
/// records.
pub open spec fn recorded_run(
    source: Seq<char>,
    yaml: bool,
    file: Seq<char>,
    planlbl: Option<Seq<char>>,
    should_log: bool,
    col: Option<Seq<char>>,
    env: Map<Seq<char>, String>,
    lv: Seq<ConfigVariable>,
    ts: Seq<StepOutcome>,
    results: Seq<RequestResult>,
) -> bool {
    exists|vmaps: Seq<Map<Seq<char>, JsonValue>>|
        {
            &&& vmaps.len() > 0
            &&& deep_vars(vmaps[0]) == init_vars(lv, 0, Map::empty())
            &&& #[trigger] run_chain(
                doc_plan(source, yaml).unwrap(),
                ts,
                file,
                planlbl,
                should_log,
                col,
                env,
                doc_plan(source, yaml).unwrap().len() as int,
                vmaps,
                results,
            )
        }
}

/// Extending a chained run by one related step.
proof fn lemma_run_chain_push(
    plan: Seq<TestItemView>,
    ts: Seq<StepOutcome>,
    file: Seq<char>,
    planlbl: Option<Seq<char>>,
    should_log: bool,
    col: Option<Seq<char>>,
    env: Map<Seq<char>, String>,
    k: int,
    old_vmaps: Seq<Map<Seq<char>, JsonValue>>,
    vars_new: Map<Seq<char>, JsonValue>,
    results_prev: Seq<RequestResult>,
    results: Seq<RequestResult>,
    rr: RequestResult,
)
    requires
        run_chain(plan, ts, file, planlbl, should_log, col, env, k, old_vmaps, results_prev),
        k + 1 <= plan.len(),
        results == results_prev.push(rr),
        step_rel(
            plan[k],
            ts,
            file,
            planlbl,
            should_log,
            col,
            env,
            k,
            old_vmaps.last(),
            vars_new,
            rr,
        ),
    ensures
        run_chain(
            plan,
            ts,
            file,
            planlbl,
            should_log,
            col,
            env,
            k + 1,
            old_vmaps.push(vars_new),
            results,
        ),
{
    let vmaps = old_vmaps.push(vars_new);
    assert forall|j: int|
        0 <= j < k + 1 implies step_rel(
        plan[j],
        ts,
        file,
        planlbl,
        should_log,
        col,
        env,
        j,
        #[trigger] vmaps[j],
        vmaps[j + 1],
        results[j],
    ) by {
        if j < k {
            assert(vmaps[j] == old_vmaps[j]);
            assert(vmaps[j + 1] == old_vmaps[j + 1]);
            assert(results[j] == results_prev[j]);
            assert(step_rel(
                plan[j],
                ts,
                file,
                planlbl,
                should_log,
                col,
                env,
                j,
                old_vmaps[j],
                old_vmaps[j + 1],
                results_prev[j],
            ));
        } else {
            assert(vmaps[j] == old_vmaps.last());
            assert(vmaps[j + 1] == vars_new);
            assert(results[j] == rr);
        }
    };
}

/// The ghost form of an optional text./// The ghost form of an optional text.
pub open spec fn opt_text(o: Option<String>) -> Option<Seq<char>> {
    match o {
        Some(t) => Some(t@),
        None => None,
    }
}

/// The caller-supplied starting variables, empty when none were given.
pub open spec fn lv_list(o: Option<Vec<ConfigVariable>>) -> Seq<ConfigVariable> {
    match o {
        Some(lv) => lv@,
        None => Seq::empty(),
    }
}

/// The plan a document text denotes, in either format.
pub open spec fn doc_plan(source: Seq<char>, yaml: bool) -> Option<Seq<TestItemView>> {
    if yaml {
        match crate::wrappers::yaml_as_json(source) {
            Some(t) => crate::decode::plan_of_text(t),
            None => None,
        }
    } else {
        crate::decode::plan_of_text(source)
    }
}

impl PlanRunner {
    /// Runs one prepared step to completion with the given transport
    /// outcome (`None` when the transcript is exhausted): records its one
    /// result and commits its exports, as `step_rel_oc` fixes.
    #[verifier::rlimit(100)]
    #[verifier::spinoff_prover]
    fn run_step(&mut self, oc: Option<StepOutcome>)
        requires
            old(self).wf(),
            !old(self).done(),
            old(self).pending_log@ == prep_log(
                old(self).items@[old(self).at()].view(),
                opt_text(old(self).ctx.plan),
                old(self).at(),
                old(self).vars@,
                old(self).env@,
            ),
            body_outcome(
                old(self).items@[old(self).at()].view().request.json,
                old(self).vars@,
                old(self).env@,
            ) != Some(None::<JView>),
        ensures
            same_frame(*old(self), *final(self)),
            final(self).wf(),
            final(self).results@.len() == old(self).results@.len() + 1,
            forall|j: int|
                0 <= j < old(self).results@.len() ==> final(self).results@[j] == old(
                    self,
                ).results@[j],
            step_rel_oc(
                old(self).items@[old(self).at()].view(),
                oc,
                old(self).ctx.file@,
                opt_text(old(self).ctx.plan),
                old(self).ctx.should_log,
                opt_text(old(self).col_id),
                old(self).env@,
                old(self).at(),
                old(self).vars@,
                final(self).vars@,
                final(self).results@.last(),
            ),
    {
        proof {
            reveal(step_rel_oc);
        }
        let ghost it = self.items@[self.results@.len() as int].view();
        let ghost vars_prev = self.vars@;
        match oc {
            Some(StepOutcome::Response { status, headers, body }) => {
                let ghost hv = resp_header_views(headers@);
                let ghost bodyv = body@;
                let ctxv = self.record_response(status, headers, body);
                proof {
                    assert(jview(ctxv) == context_view(
                        step_rr_view(it, opt_text(self.col_id), status, hv, bodyv),
                    ));
                }
            },
            Some(StepOutcome::TransportFail(m)) => {
                let ghost mv = m@;
                self.record_transport_error(m);
                proof {
                    assert(transport_rel(
                        prep_log(it, opt_text(self.ctx.plan), old(self).at(), vars_prev, self.env@),
                        vars_prev,
                        self.vars@,
                        self.results@.last(),
                        mv,
                    ));
                }
            },
            None => {
                self.record_transport_error("no recorded outcome for this step".to_owned());
                proof {
                    assert(transport_rel(
                        prep_log(it, opt_text(self.ctx.plan), old(self).at(), vars_prev, self.env@),
                        vars_prev,
                        self.vars@,
                        self.results@.last(),
                        "no recorded outcome for this step"@,
                    ));
                }
            },
        }
    }
}

/// Decodes and runs a whole plan against recorded transport outcomes, in
/// document order: one outcome slot is consumed per step (a missing one
/// counts as a transport failure; a step that fails before dispatch
/// discards its slot), every step leaves exactly one record related to
/// the plan, the outcome and the variable maps by `run_chain`, and
/// exports commit between the steps. No step-level failure stops the
/// run — an `Err` comes from a decode failure alone.
#[verifier::rlimit(100)]
#[verifier::spinoff_prover]
pub fn run_plan_recorded(
    ctx: TestContext,
    source: &str,
    yaml: bool,
    col_id: Option<String>,
    local_vars: Option<Vec<ConfigVariable>>,
    env: StrMap<String>,
    transcript: Vec<StepOutcome>,
) -> (r: Result<Vec<RequestResult>, String>)
    ensures
        doc_plan(source@, yaml) is None ==> r is Err,
        r matches Ok(results) ==> (doc_plan(source@, yaml) is Some && results@.len() == doc_plan(
            source@,
            yaml,
        ).unwrap().len() && recorded_run(
            source@,
            yaml,
            ctx.file@,
            opt_text(ctx.plan),
            ctx.should_log,
            opt_text(col_id),
            env@,
            lv_list(local_vars),
            transcript@,
            results@,
        )),
        r is Err ==> doc_plan(source@, yaml) is None,
        doc_plan(source@, yaml) == Some(Seq::<TestItemView>::empty()) ==> (r matches Ok(results)
            && results@.len() == 0),
{
    let ghost ts = transcript@;
    let ghost file0 = ctx.file@;
    let ghost planlbl = opt_text(ctx.plan);
    let ghost sl0 = ctx.should_log;
    let ghost colv = opt_text(col_id);
    let ghost env0 = env@;
    let ghost ctx0 = ctx;
    let ghost col0 = col_id;
    let items = if yaml {
        match crate::decode::decode_plan_yaml(source) {
            Ok(items) => items,
            Err(e) => {
                return Err(e);
            },
        }
    } else {
        match crate::decode::decode_plan_json(source) {
            Ok(items) => items,
            Err(e) => {
                return Err(e);
            },
        }
    };
    let ghost items0 = items@;
    let ghost plan = crate::model::item_views(items@);
    let mut runner = PlanRunner::new(ctx, items, col_id, local_vars, env);
    let ghost vars0 = runner.vars@;
    let ghost mut vmaps: Seq<Map<Seq<char>, JsonValue>> = seq![vars0];
    let mut rest = transcript;
    proof {
        assert(ts.skip(0) =~= ts);
        assert(run_chain(plan, ts, file0, planlbl, sl0, colv, env0, 0, vmaps, runner.results@));
    }
    loop
        invariant
            runner.wf(),
            runner.items@ == items0,
            crate::model::item_views(items0) == plan,
            runner.items@.len() == plan.len(),
            doc_plan(source@, yaml) == Some(plan),
            runner.ctx == ctx0,
            runner.col_id == col0,
            ctx0 == ctx,
            col0 == col_id,
            runner.env@ == env0,
            ts == transcript@,
            file0 == ctx.file@,
            planlbl == opt_text(ctx.plan),
            sl0 == ctx.should_log,
            colv == opt_text(col_id),
            env0 == env@,
            deep_vars(vars0) == init_vars(lv_list(local_vars), 0, Map::empty()),
            runner.results@.len() < ts.len() ==> rest@ == ts.skip(runner.results@.len() as int),
            runner.results@.len() >= ts.len() ==> rest@.len() == 0,
            vmaps.len() == runner.results@.len() + 1,
            vmaps[0] == vars0,
            vmaps.last() == runner.vars@,
            run_chain(
                plan,
                ts,
                file0,
                planlbl,
                sl0,
                colv,
                env0,
                runner.results@.len() as int,
                vmaps,
                runner.results@,
            ),
        ensures
            runner.wf(),
            runner.done(),
            runner.items@.len() == plan.len(),
            vmaps.len() == runner.results@.len() + 1,
            vmaps[0] == vars0,
            run_chain(
                plan,
                ts,
                file0,
                planlbl,
                sl0,
                colv,
                env0,
                runner.results@.len() as int,
                vmaps,
                runner.results@,
            ),
        decreases runner.items@.len() - runner.results@.len() + 1,
    {
        if runner.results.len() >= runner.items.len() {
            break;
        }
        let ghost k = runner.results@.len() as int;
        proof {
            assert(plan[k] == items0[k].view());
        }
        // one transcript slot per step; a step that fails before dispatch
        // discards its slot
        let oc: Option<StepOutcome> = if rest.len() == 0 {
            proof {
                assert(k >= ts.len());
            }
            None
        } else {
            proof {
                assert(k < ts.len());
            }
            let x = rest.remove(0);
            proof {
                assert(x == ts.skip(k)[0]);
                assert(x == ts[k]);
                if k + 1 < ts.len() {
                    assert(rest@ =~= ts.skip(k + 1));
                } else {
                    assert(rest@.len() == 0);
                }
            }
            Some(x)
        };
        let ghost oc_spec: Option<StepOutcome> = if 0 <= k < ts.len() {
            Some(ts[k])
        } else {
            None
        };
        proof {
            assert(oc == oc_spec);
        }
        match runner.prepare_step() {
            StepPrep::Finished => {
                break;
            },
            StepPrep::BodyFailed(m) => {
                let ghost vars_prev = runner.vars@;
                let ghost results_prev = runner.results@;
                let ghost pre = runner;
                runner.record_step_failure(m);
                proof {
                    reveal(step_rel_oc);
                    assert(pre.items@[pre.at()].view() == plan[k]);
                    assert(body_outcome(plan[k].request.json, vars_prev, env0) == Some(
                        None::<JView>,
                    ));
                    assert(step_rel(
                        plan[k],
                        ts,
                        file0,
                        planlbl,
                        sl0,
                        colv,
                        env0,
                        k,
                        vars_prev,
                        runner.vars@,
                        runner.results@.last(),
                    ));
                    assert(runner.results@ =~= results_prev.push(runner.results@.last()));
                    lemma_run_chain_push(
                        plan,
                        ts,
                        file0,
                        planlbl,
                        sl0,
                        colv,
                        env0,
                        k,
                        vmaps,
                        runner.vars@,
                        results_prev,
                        runner.results@,
                        runner.results@.last(),
                    );
                    vmaps = vmaps.push(runner.vars@);
                }
            },
            StepPrep::Request(_pr) => {
                let ghost vars_prev = runner.vars@;
                let ghost results_prev = runner.results@;
                let ghost pre = runner;
                runner.run_step(oc);
                proof {
                    assert(pre.items@[pre.at()].view() == plan[k]);
                    assert(step_rel(
                        plan[k],
                        ts,
                        file0,
                        planlbl,
                        sl0,
                        colv,
                        env0,
                        k,
                        vars_prev,
                        runner.vars@,
                        runner.results@.last(),
                    ));
                    assert(runner.results@ =~= results_prev.push(runner.results@.last()));
                    lemma_run_chain_push(
                        plan,
                        ts,
                        file0,
                        planlbl,
                        sl0,
                        colv,
                        env0,
                        k,
                        vmaps,
                        runner.vars@,
                        results_prev,
                        runner.results@,
                        runner.results@.last(),
                    );
                    vmaps = vmaps.push(runner.vars@);
                }
            },
        }
    }
    proof {
        assert(recorded_run(
            source@,
            yaml,
            ctx.file@,
            opt_text(ctx.plan),
            ctx.should_log,
            opt_text(col_id),
            env@,
            lv_list(local_vars),
            transcript@,
            runner.results@,
        )) by {
            assert(doc_plan(source@, yaml).unwrap() == plan);
            assert(run_chain(
                doc_plan(source@, yaml).unwrap(),
                transcript@,
                ctx.file@,
                opt_text(ctx.plan),
                ctx.should_log,
                opt_text(col_id),
                env@,
                doc_plan(source@, yaml).unwrap().len() as int,
                vmaps,
                runner.results@,
            ));
            assert(deep_vars(vmaps[0]) == init_vars(lv_list(local_vars), 0, Map::empty()));
            assert(vmaps.len() > 0);
        }
    }
    Ok(runner.finish())
}


// ---------------------------------------------------------------------------
// Result serialization
// ---------------------------------------------------------------------------

/// The JSON form of one assertion outcome: a success tagged `Ok`, a
/// failure tagged `Err` carrying its advice.
pub open spec fn entry_json_view(e: Result<bool, crate::model::AssertionError>) -> JView {
    match e {
        Ok(b) => JView::Obj(seq![("Ok"@, JView::Bool(b))]),
        Err(ae) => JView::Obj(
            seq![
                ("Err"@, JView::Obj(
                    seq![
                        ("advice"@, match ae.advice {
                            Some(a) => JView::Str(a@),
                            None => JView::Null,
                        }),
                    ],
                )),
            ],
        ),
    }
}

/// The JSON form of one step record, under its stable field names.
pub open spec fn result_json_view(r: RequestResult) -> JView {
    JView::Obj(
        seq![
            ("stepName"@, match r.step_name {
                Some(t) => JView::Str(t@),
                None => JView::Null,
            }),
            ("stepIndex"@, JView::Int(r.step_index as int)),
            ("assertResults"@, JView::Arr(
                r.assert_results@.map(
                    |i: int, e: Result<bool, crate::model::AssertionError>| entry_json_view(e),
                ),
            )),
            ("request"@, context_view(r.request.view())),
            ("stepLog"@, JView::Str(r.step_log@)),
            ("stepError"@, match r.step_error {
                Some(t) => JView::Str(t@),
                None => JView::Null,
            }),
        ],
    )
}

fn entry_to_json(e: &Result<bool, crate::model::AssertionError>) -> (r: JsonValue)
    ensures
        jview(r) == entry_json_view(*e),
{
    match e {
        Ok(b) => {
            let mut f: Vec<(String, JsonValue)> = Vec::new();
            f.push(("Ok".to_owned(), JsonValue::Bool(*b)));
            proof {
                assert(jfield_views(f@) =~= seq![("Ok"@, JView::Bool(*b))]);
            }
            JsonValue::Obj(f)
        },
        Err(ae) => {
            let advice_v = match &ae.advice {
                Some(a) => JsonValue::Str(a.clone()),
                None => JsonValue::Null,
            };
            let mut inner: Vec<(String, JsonValue)> = Vec::new();
            inner.push(("advice".to_owned(), advice_v));
            proof {
                assert(jfield_views(inner@) =~= seq![("advice"@, match ae.advice {
                    Some(a) => JView::Str(a@),
                    None => JView::Null,
                })]);
            }
            let obj = JsonValue::Obj(inner);
            let ghost ov = jview(obj);
            let mut f: Vec<(String, JsonValue)> = Vec::new();
            f.push(("Err".to_owned(), obj));
            proof {
                assert(jfield_views(f@) =~= seq![("Err"@, ov)]);
            }
            JsonValue::Obj(f)
        },
    }
}

/// The JSON form of one step record, with the stable field names
/// `stepName`, `stepIndex`, `assertResults`, `request`, `stepLog` and
/// `stepError`.
#[verifier::rlimit(100)]
#[verifier::loop_isolation(false)]
pub fn result_to_json(r: &RequestResult) -> (v: JsonValue)
    ensures
        jview(v) == result_json_view(*r),
{
    let name_v = match &r.step_name {
        Some(t) => JsonValue::Str(t.clone()),
        None => JsonValue::Null,
    };
    let mut entries: Vec<JsonValue> = Vec::new();
    proof {
        assert(jviews(entries@) =~= Seq::<JView>::empty());
    }
    let mut i: usize = 0;
    while i < r.assert_results.len()
        invariant
            i <= r.assert_results@.len(),
            jviews(entries@).len() == i,
            forall|k: int|
                0 <= k < i ==> jviews(entries@)[k] == entry_json_view(r.assert_results@[k]),
        decreases r.assert_results@.len() - i,
    {
        let ghost before = jviews(entries@);
        let e = entry_to_json(&r.assert_results[i]);
        let ghost ev = jview(e);
        entries.push(e);
        proof {
            assert(jviews(entries@) =~= before.push(ev));
        }
        i = i + 1;
    }
    proof {
        assert(jviews(entries@) =~= r.assert_results@.map(
            |k: int, e: Result<bool, crate::model::AssertionError>| entry_json_view(e),
        ));
    }
    let err_v = match &r.step_error {
        Some(t) => JsonValue::Str(t.clone()),
        None => JsonValue::Null,
    };
    let mut f: Vec<(String, JsonValue)> = Vec::new();
    f.push(("stepName".to_owned(), name_v));
    f.push(("stepIndex".to_owned(), JsonValue::Int(r.step_index as i64)));
    f.push(("assertResults".to_owned(), JsonValue::Arr(entries)));
    f.push(("request".to_owned(), build_context(&r.request)));
    f.push(("stepLog".to_owned(), JsonValue::Str(r.step_log.clone())));
    f.push(("stepError".to_owned(), err_v));
    proof {
        assert(jfield_views(f@) =~= result_json_view(*r)->Obj_0);
    }
    JsonValue::Obj(f)
}

/// The compact JSON text of a whole result sequence.
#[verifier::loop_isolation(false)]
pub fn results_to_json_text(rs: &Vec<RequestResult>) -> (t: String)
    ensures
        t@ == json_text_v(
            JView::Arr(rs@.map(|i: int, r: RequestResult| result_json_view(r))),
        ),
{
    let mut arr: Vec<JsonValue> = Vec::new();
    proof {
        assert(jviews(arr@) =~= Seq::<JView>::empty());
    }
    let mut i: usize = 0;
    while i < rs.len()
        invariant
            i <= rs@.len(),
            jviews(arr@).len() == i,
            forall|k: int| 0 <= k < i ==> jviews(arr@)[k] == result_json_view(rs@[k]),
        decreases rs@.len() - i,
    {
        let ghost before = jviews(arr@);
        let v = result_to_json(&rs[i]);
        let ghost vv = jview(v);
        arr.push(v);
        proof {
            assert(jviews(arr@) =~= before.push(vv));
        }
        i = i + 1;
    }
    proof {
        assert(jviews(arr@) =~= rs@.map(|k: int, r: RequestResult| result_json_view(r)));
    }
    json_to_string(&JsonValue::Arr(arr))
}

} // verus!
