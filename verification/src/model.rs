//! The plan model: the typed, in-memory form of a plan document, and the
//! records a run produces.

use vstd::prelude::*;
use crate::json::{jview, JView, JsonValue};

verus! {

/// One HTTP method paired with its target URL.
pub enum HttpMethod {
    GET(String),
    POST(String),
    DELETE(String),
    PUT(String),
}

/// The ghost form of a method/URL pair.
pub enum MethodView {
    GET(Seq<char>),
    POST(Seq<char>),
    DELETE(Seq<char>),
    PUT(Seq<char>),
}

impl HttpMethod {
    pub open spec fn view(&self) -> MethodView {
        match self {
            HttpMethod::GET(u) => MethodView::GET(u@),
            HttpMethod::POST(u) => MethodView::POST(u@),
            HttpMethod::DELETE(u) => MethodView::DELETE(u@),
            HttpMethod::PUT(u) => MethodView::PUT(u@),
        }
    }

    /// The target URL, whatever the method.
    pub open spec fn url_view(&self) -> Seq<char> {
        match self {
            HttpMethod::GET(u) => u@,
            HttpMethod::POST(u) => u@,
            HttpMethod::DELETE(u) => u@,
            HttpMethod::PUT(u) => u@,
        }
    }

    pub fn url(&self) -> (r: &String)
        ensures
            r@ == self.url_view(),
    {
        match self {
            HttpMethod::GET(u) => u,
            HttpMethod::POST(u) => u,
            HttpMethod::DELETE(u) => u,
            HttpMethod::PUT(u) => u,
        }
    }

    /// The uppercase name of the method.
    pub open spec fn name_view(&self) -> Seq<char> {
        match self {
            HttpMethod::GET(_) => "GET"@,
            HttpMethod::POST(_) => "POST"@,
            HttpMethod::DELETE(_) => "DELETE"@,
            HttpMethod::PUT(_) => "PUT"@,
        }
    }

    pub fn name(&self) -> (r: &'static str)
        ensures
            r@ == self.name_view(),
    {
        match self {
            HttpMethod::GET(_) => "GET",
            HttpMethod::POST(_) => "POST",
            HttpMethod::DELETE(_) => "DELETE",
            HttpMethod::PUT(_) => "PUT",
        }
    }
}

impl Default for HttpMethod {
    /// The placeholder method used before a step is configured.
    fn default() -> (r: Self)
        ensures
            r.view() == MethodView::GET("<UNSET>"@),
    {
        HttpMethod::GET("<UNSET>".to_owned())
    }
}

/// One request header.
pub struct Header {
    pub name: String,
    pub value: String,
}

impl Header {
    pub open spec fn view(&self) -> (Seq<char>, Seq<char>) {
        (self.name@, self.value@)
    }
}

pub open spec fn header_views(hs: Seq<Header>) -> Seq<(Seq<char>, Seq<char>)> {
    hs.map(|i: int, h: Header| h.view())
}

/// The request half of a step.
pub struct RequestConfig {
    pub http_method: HttpMethod,
    pub headers: Option<Vec<Header>>,
    pub json: Option<JsonValue>,
}

/// The ghost form of a request configuration.
pub struct RequestConfigView {
    pub method: MethodView,
    pub headers: Option<Seq<(Seq<char>, Seq<char>)>>,
    pub json: Option<JView>,
}

impl RequestConfig {
    pub open spec fn view(&self) -> RequestConfigView {
        RequestConfigView {
            method: self.http_method.view(),
            headers: match &self.headers {
                Some(hs) => Some(header_views(hs@)),
                None => None,
            },
            json: match &self.json {
                Some(v) => Some(jview(*v)),
                None => None,
            },
        }
    }
}

impl Default for RequestConfig {
    /// An unconfigured request: placeholder method, no headers, no body.
    fn default() -> (r: Self)
        ensures
            r.view().method == MethodView::GET("<UNSET>"@),
            r.view().headers is None,
            r.view().json is None,
    {
        RequestConfig { http_method: HttpMethod::default(), headers: None, json: None }
    }
}

/// One assertion: a kind and its argument text (a path, an expression, or
/// for `date` a path and a format).
pub enum Assert {
    IsOk(String),
    IsArray(String),
    IsEmpty(String),
    IsString(String),
    IsNumber(String),
    IsBoolean(String),
    IsNull(String),
    Exists(String),
    IsDate(String),
    NotEmpty(String),
}

/// The ghost form of an assertion.
pub enum AssertView {
    IsOk(Seq<char>),
    IsArray(Seq<char>),
    IsEmpty(Seq<char>),
    IsString(Seq<char>),
    IsNumber(Seq<char>),
    IsBoolean(Seq<char>),
    IsNull(Seq<char>),
    Exists(Seq<char>),
    IsDate(Seq<char>),
    NotEmpty(Seq<char>),
}

impl Assert {
    pub open spec fn view(&self) -> AssertView {
        match self {
            Assert::IsOk(s) => AssertView::IsOk(s@),
            Assert::IsArray(s) => AssertView::IsArray(s@),
            Assert::IsEmpty(s) => AssertView::IsEmpty(s@),
            Assert::IsString(s) => AssertView::IsString(s@),
            Assert::IsNumber(s) => AssertView::IsNumber(s@),
            Assert::IsBoolean(s) => AssertView::IsBoolean(s@),
            Assert::IsNull(s) => AssertView::IsNull(s@),
            Assert::Exists(s) => AssertView::Exists(s@),
            Assert::IsDate(s) => AssertView::IsDate(s@),
            Assert::NotEmpty(s) => AssertView::NotEmpty(s@),
        }
    }
}

pub open spec fn assert_views(v: Seq<Assert>) -> Seq<AssertView> {
    v.map(|i: int, a: Assert| a.view())
}

/// One step of a plan.
pub struct TestItem {
    pub title: Option<String>,
    pub dump: Option<bool>,
    pub request: RequestConfig,
    pub asserts: Option<Vec<Assert>>,
    pub exports: Option<Vec<(String, String)>>,
}

/// The ghost form of a step.
pub struct TestItemView {
    pub title: Option<Seq<char>>,
    pub dump: Option<bool>,
    pub request: RequestConfigView,
    pub asserts: Option<Seq<AssertView>>,
    pub exports: Option<Seq<(Seq<char>, Seq<char>)>>,
}

pub open spec fn export_views(v: Seq<(String, String)>) -> Seq<(Seq<char>, Seq<char>)> {
    v.map(|i: int, e: (String, String)| (e.0@, e.1@))
}

impl TestItem {
    pub open spec fn view(&self) -> TestItemView {
        TestItemView {
            title: match &self.title {
                Some(t) => Some(t@),
                None => None,
            },
            dump: self.dump,
            request: self.request.view(),
            asserts: match &self.asserts {
                Some(v) => Some(assert_views(v@)),
                None => None,
            },
            exports: match &self.exports {
                Some(v) => Some(export_views(v@)),
                None => None,
            },
        }
    }
}

pub open spec fn item_views(v: Seq<TestItem>) -> Seq<TestItemView> {
    v.map(|i: int, t: TestItem| t.view())
}

/// A caller-supplied starting variable.
pub struct ConfigVariable {
    pub variable_name: String,
    pub variable_value: String,
}

/// Run-scoped identification and logging switches.
pub struct TestContext {
    pub plan: Option<String>,
    pub step: Option<String>,
    pub step_index: u32,
    pub path: String,
    pub file: String,
    pub file_source: String,
    pub should_log: bool,
}

impl Default for TestContext {
    /// An anonymous context with logging off.
    fn default() -> (r: Self)
        ensures
            r.plan is None,
            r.step is None,
            r.step_index == 0,
            r.path@ == Seq::<char>::empty(),
            r.file@ == Seq::<char>::empty(),
            r.file_source@ == Seq::<char>::empty(),
            !r.should_log,
    {
        TestContext {
            plan: None,
            step: None,
            step_index: 0,
            path: String::new(),
            file: String::new(),
            file_source: String::new(),
            should_log: false,
        }
    }
}

/// A failed or unevaluable assertion: the advice for the user, the source
/// label and text, and the span of the offending fragment within that
/// text (character offset and length).
pub struct AssertionError {
    pub advice: Option<String>,
    pub src_label: String,
    pub src_text: String,
    pub span_start: usize,
    pub span_len: usize,
}

/// What came back for one step's request.
pub struct ResponseObject {
    pub status: u16,
    pub headers: JsonValue,
    pub json: JsonValue,
    pub raw: String,
}

/// The ghost form of a response.
pub struct ResponseView {
    pub status: int,
    pub headers: JView,
    pub json: JView,
    pub raw: Seq<char>,
}

impl ResponseObject {
    pub open spec fn view(&self) -> ResponseView {
        ResponseView {
            status: self.status as int,
            headers: jview(self.headers),
            json: jview(self.json),
            raw: self.raw@,
        }
    }
}

impl Default for ResponseObject {
    /// The empty response recorded before (or instead of) a real one.
    fn default() -> (r: Self)
        ensures
            r.view().status == 0,
            r.view().headers == JView::Null,
            r.view().json == JView::Null,
            r.view().raw == Seq::<char>::empty(),
    {
        ResponseObject {
            status: 0,
            headers: JsonValue::Null,
            json: JsonValue::Null,
            raw: String::new(),
        }
    }
}

/// The full request/response context of a completed step.
pub struct RequestAndResponse {
    pub req: RequestConfig,
    pub resp: ResponseObject,
}

/// The ghost form of a request/response context.
pub struct ReqRespView {
    pub req: RequestConfigView,
    pub resp: ResponseView,
}

impl RequestAndResponse {
    pub open spec fn view(&self) -> ReqRespView {
        ReqRespView { req: self.req.view(), resp: self.resp.view() }
    }
}

impl Default for RequestAndResponse {
    /// An unconfigured request with the empty response.
    fn default() -> (r: Self)
        ensures
            r.view().req.method == MethodView::GET("<UNSET>"@),
            r.view().req.headers is None,
            r.view().req.json is None,
            r.view().resp.status == 0,
            r.view().resp.headers == JView::Null,
            r.view().resp.json == JView::Null,
            r.view().resp.raw == Seq::<char>::empty(),
    {
        RequestAndResponse { req: RequestConfig::default(), resp: ResponseObject::default() }
    }
}

/// The record a run appends for one step.
pub struct RequestResult {
    pub step_name: Option<String>,
    pub step_index: u32,
    pub assert_results: Vec<Result<bool, AssertionError>>,
    pub request: RequestAndResponse,
    pub step_log: String,
    pub step_error: Option<String>,
}

/// The command line: an optional subcommand and a log level.
pub struct Cli {
    pub command: Option<Commands>,
    pub log_level: String,
}

/// The subcommands the tool accepts.
pub enum Commands {
    Test { file: String },
    App {},
}

// ---------------------------------------------------------------------------
// The JSON shape of the request/response context that selectors run over.
// ---------------------------------------------------------------------------

/// The JSON form of a request configuration, as the context shows it: the
/// method name as a key holding the URL, then the headers and body.
pub open spec fn req_json_view(rc: RequestConfigView) -> JView {
    JView::Obj(
        seq![
            (rc.method.name_of(), JView::Str(rc.method.url_of())),
            ("headers"@, match rc.headers {
                Some(hs) => JView::Obj(
                    hs.map(|i: int, h: (Seq<char>, Seq<char>)| (h.0, JView::Str(h.1))),
                ),
                None => JView::Null,
            }),
            ("json"@, match rc.json {
                Some(v) => v,
                None => JView::Null,
            }),
        ],
    )
}

impl MethodView {
    pub open spec fn name_of(self) -> Seq<char> {
        match self {
            MethodView::GET(_) => "GET"@,
            MethodView::POST(_) => "POST"@,
            MethodView::DELETE(_) => "DELETE"@,
            MethodView::PUT(_) => "PUT"@,
        }
    }

    pub open spec fn url_of(self) -> Seq<char> {
        match self {
            MethodView::GET(u) => u,
            MethodView::POST(u) => u,
            MethodView::DELETE(u) => u,
            MethodView::PUT(u) => u,
        }
    }
}

/// The JSON form of a response, as the context shows it.
pub open spec fn resp_json_view(rv: ResponseView) -> JView {
    JView::Obj(
        seq![
            ("status"@, JView::Int(rv.status)),
            ("headers"@, rv.headers),
            ("json"@, rv.json),
            ("raw"@, JView::Str(rv.raw)),
        ],
    )
}

/// The JSON context `{req, resp}` that JSONPath selectors run over.
pub open spec fn context_view(rr: ReqRespView) -> JView {
    JView::Obj(
        seq![("req"@, req_json_view(rr.req)), ("resp"@, resp_json_view(rr.resp))],
    )
}

} // verus!
