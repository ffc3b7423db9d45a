//! Handler resolution and the request pipeline: an ordered chain of
//! parameter extractors, an optional body extractor, the handler invocation
//! and the response conversion, run as one normalized state machine.

use vstd::prelude::*;
use crate::decl::ApiType;
use crate::derive::{decl_ok, derives_to, api_body_info};
use crate::error::ApiError;
use crate::schema::{ApiBodyInfo, ApiBodyType};
use crate::text::{eq_ignore_ascii_case, spec_eq_ignore_ascii_case};

verus! {

/// The HTTP method a route answers to.
#[derive(Debug, Clone, Copy, PartialEq, Eq, Hash, Structural)]
pub enum Method {
    /// A request without a body.
    Get,
    /// A request that carries a body.
    Post,
    /// Anything else: never matched by a route.
    Unknown,
}

impl Method {
    /// Classify a method name: anything but GET and POST is unknown and is
    /// never matched by a route.
    pub fn from_name(name: &str) -> (r: Method)
        ensures
            name@ == "GET"@ ==> r == Method::Get,
            name@ == "POST"@ ==> r == Method::Post,
            name@ != "GET"@ && name@ != "POST"@ ==> r == Method::Unknown,
    {
        proof {
            reveal_strlit("GET");
            reveal_strlit("POST");
            assert("GET"@.len() != "POST"@.len());
        }
        if crate::text::str_eq(name, "GET") {
            Method::Get
        } else if crate::text::str_eq(name, "POST") {
            Method::Post
        } else {
            Method::Unknown
        }
    }
}

/// An incoming request, as the transport hands it over: plain values only.
#[derive(Debug)]
pub struct ApiRequest {
    /// The request's method.
    pub method: Method,
    /// The request's path.
    pub path: String,
    /// The request's headers, in order of arrival.
    pub headers: Vec<(String, String)>,
    /// The request's body, already gathered into bytes.
    pub body: Vec<u8>,
}

/// A parameter extractor: reads request metadata, never the body, and yields
/// a value or an error. Extractors run strictly in declared order; the first
/// failure short-circuits the pipeline.
pub trait RequestParam where Self: Sized {
    /// What the extractor reports when it cannot produce its value.
    type Error;

    /// Produce the value from the request's metadata.
    fn request_param(req: &ApiRequest) -> Result<Self, Self::Error>;
}

/// Reify an extractor's outcome as an optional value: this adapter never
/// errors; a failed inner extraction becomes an absent value.
pub fn reify_optional<T, E>(inner: Result<T, E>) -> (r: Result<Option<T>, E>)
    ensures
        r is Ok,
        inner matches Ok(v) ==> r == Ok::<Option<T>, E>(Some(v)),
        inner is Err ==> r == Ok::<Option<T>, E>(None),
{
    match inner {
        Ok(v) => Ok(Some(v)),
        Err(_) => Ok(None),
    }
}

/// Reify an extractor's outcome as a value: this adapter never fails the
/// pipeline; the inner outcome is handed to the handler as it is.
pub fn reify_result<T, E>(inner: Result<T, E>) -> (r: Result<Result<T, E>, E>)
    ensures
        r matches Ok(x) && x == inner,
{
    Ok(inner)
}

impl<T: RequestParam> RequestParam for Option<T> {
    type Error = <T as RequestParam>::Error;

    fn request_param(req: &ApiRequest) -> Result<Self, Self::Error> {
        reify_optional(T::request_param(req))
    }
}

impl<T: RequestParam> RequestParam for Result<T, <T as RequestParam>::Error> {
    type Error = <T as RequestParam>::Error;

    fn request_param(req: &ApiRequest) -> Result<Self, Self::Error> {
        reify_result(T::request_param(req))
    }
}

/// The normalized form of a registered handler: how many parameter
/// extractors run before the optional body extractor, which method the route
/// therefore expects, and the derived request and response schemas.
#[derive(Debug)]
pub struct ResolvedHandler {
    /// The method the route answers to: a body extractor means a post.
    pub method: Method,
    /// How many parameter extractors run, in declared order.
    pub n_params: usize,
    /// Whether a body extractor consumes the body after the parameters.
    pub has_body: bool,
    /// The schema of the expected request body.
    pub request_type: ApiBodyInfo,
    /// The schema of the response body.
    pub response_type: ApiBodyInfo,
}

/// Resolve a handler that consumes a body: the route expects a post, and
/// both schemas are derived now, at registration.
pub fn resolve_handler_with_body(n_params: usize, request: &ApiType, response: &ApiType) -> (r:
    Result<ResolvedHandler, crate::decl::DeriveError>)
    ensures
        r is Ok <==> (decl_ok(*request) && decl_ok(*response)),
        r matches Ok(h) ==> {
            &&& h.method == Method::Post
            &&& h.n_params == n_params
            &&& h.has_body
            &&& derives_to(*request, h.request_type)
            &&& derives_to(*response, h.response_type)
        },
{
    let request_type = match api_body_info(request) {
        Ok(s) => s,
        Err(e) => {
            return Err(e);
        },
    };
    let response_type = match api_body_info(response) {
        Ok(s) => s,
        Err(e) => {
            return Err(e);
        },
    };
    Ok(
        ResolvedHandler {
            method: Method::Post,
            n_params,
            has_body: true,
            request_type,
            response_type,
        },
    )
}

/// Resolve a handler without a body extractor: the route expects a get and
/// no request body.
pub fn resolve_handler_without_body(n_params: usize, response: &ApiType) -> (r: Result<
    ResolvedHandler,
    crate::decl::DeriveError,
>)
    ensures
        r is Ok <==> decl_ok(*response),
        r matches Ok(h) ==> {
            &&& h.method == Method::Get
            &&& h.n_params == n_params
            &&& !h.has_body
            &&& h.request_type.description@ == "No request body is expected"@
            &&& h.request_type.ty is Null
            &&& derives_to(*response, h.response_type)
        },
{
    let response_type = match api_body_info(response) {
        Ok(s) => s,
        Err(e) => {
            return Err(e);
        },
    };
    Ok(
        ResolvedHandler {
            method: Method::Get,
            n_params,
            has_body: false,
            request_type: ApiBodyInfo {
                description: String::from_str("No request body is expected"),
                ty: ApiBodyType::Null,
            },
            response_type,
        },
    )
}

/// The response handed back to the transport on success.
#[derive(Debug, PartialEq, Eq)]
pub struct ApiResponse {
    /// The response's content type.
    pub content_type: String,
    /// The response's body bytes.
    pub body: Vec<u8>,
}

/// What a handler invocation came back with, after collapsing optional and
/// fallible returns.
#[derive(Debug)]
pub enum HandlerOutcome {
    /// The handler produced a value, already encoded to bytes.
    Success(Vec<u8>),
    /// The handler produced an absent optional: becomes a not-found error.
    Absent,
    /// The handler failed; the error is already classified.
    Failure(ApiError),
}

/// Where the pipeline of a matched route stands. Each waiting state names
/// the one outside step to perform next; `Done` is terminal: no transition
/// leaves it, so whatever follows a failure never runs.
#[derive(Debug)]
pub enum PipelineState {
    /// Waiting for the parameter extractor with this index to run.
    AwaitParam(usize),
    /// Waiting for the body extractor to consume the body.
    AwaitBody,
    /// Waiting for the handler function itself to run.
    AwaitHandler,
    /// The pipeline has finished with a response or an error.
    Done(Result<ApiResponse, ApiError>),
}

/// The state a matched route's pipeline starts in.
pub open spec fn spec_pipeline_start(h: ResolvedHandler) -> PipelineState {
    if h.n_params > 0 {
        PipelineState::AwaitParam(0)
    } else if h.has_body {
        PipelineState::AwaitBody
    } else {
        PipelineState::AwaitHandler
    }
}

/// Start the pipeline of a matched route.
pub fn pipeline_start(h: &ResolvedHandler) -> (r: PipelineState)
    ensures
        r == spec_pipeline_start(*h),
{
    if h.n_params > 0 {
        PipelineState::AwaitParam(0)
    } else if h.has_body {
        PipelineState::AwaitBody
    } else {
        PipelineState::AwaitHandler
    }
}

/// The state after parameter extractor `i` reports its result: a failure
/// finishes the pipeline at once with that error; success hands control to
/// the next extractor, the body extractor, or the handler.
pub open spec fn spec_on_param_result(
    h: ResolvedHandler,
    i: usize,
    r: Result<(), ApiError>,
) -> PipelineState {
    match r {
        Err(e) => PipelineState::Done(Err(e)),
        Ok(_) => if i + 1 < h.n_params {
            PipelineState::AwaitParam((i + 1) as usize)
        } else if h.has_body {
            PipelineState::AwaitBody
        } else {
            PipelineState::AwaitHandler
        },
    }
}

/// Advance the pipeline with a parameter extractor's result.
pub fn on_param_result(h: &ResolvedHandler, st: PipelineState, r: Result<(), ApiError>) -> (next:
    PipelineState)
    requires
        st matches PipelineState::AwaitParam(i) && i < h.n_params,
    ensures
        st matches PipelineState::AwaitParam(i) && next == spec_on_param_result(*h, i, r),
{
    let i = match st {
        PipelineState::AwaitParam(i) => i,
        _ => 0,
    };
    match r {
        Err(e) => PipelineState::Done(Err(e)),
        Ok(_) => {
            if i + 1 < h.n_params {
                PipelineState::AwaitParam(i + 1)
            } else if h.has_body {
                PipelineState::AwaitBody
            } else {
                PipelineState::AwaitHandler
            }
        },
    }
}

/// Advance the pipeline with the body extractor's result: a failure finishes
/// the pipeline with that error, success hands control to the handler.
pub fn on_body_result(h: &ResolvedHandler, st: PipelineState, r: Result<(), ApiError>) -> (next:
    PipelineState)
    requires
        h.has_body,
        st is AwaitBody,
    ensures
        r matches Err(e) ==> next == PipelineState::Done(Err::<ApiResponse, ApiError>(e)),
        r is Ok ==> next is AwaitHandler,
{
    match r {
        Err(e) => PipelineState::Done(Err(e)),
        Ok(_) => PipelineState::AwaitHandler,
    }
}

/// Finish the pipeline with the handler's outcome: a value becomes a JSON
/// response, an absent optional becomes the fixed not-found error, a failure
/// carries its classified error out.
pub fn on_handler_result(h: &ResolvedHandler, st: PipelineState, outcome: HandlerOutcome) -> (next:
    PipelineState)
    requires
        st is AwaitHandler,
    ensures
        next is Done,
        outcome matches HandlerOutcome::Success(body) ==> (next matches PipelineState::Done(res)
            && res matches Ok(resp) && resp.content_type@ == "application/json"@ && resp.body@
            == body@),
        outcome is Absent ==> (next matches PipelineState::Done(res) && res matches Err(e)
            && e.code == 404 && e.internal_message@ == "Not found"@ && e.external_message@
            == "Not found"@ && e.value is None),
        outcome matches HandlerOutcome::Failure(e) ==> next == PipelineState::Done(
            Err::<ApiResponse, ApiError>(e),
        ),
{
    match outcome {
        HandlerOutcome::Success(body) => PipelineState::Done(
            Ok(ApiResponse { content_type: String::from_str("application/json"), body }),
        ),
        HandlerOutcome::Absent => PipelineState::Done(Err(ApiError::path_not_found())),
        HandlerOutcome::Failure(e) => PipelineState::Done(Err(e)),
    }
}

/// The pipeline short-circuits on the first failure: when any parameter
/// extractor fails, the very next state is terminal with that error, so no
/// later extractor, no body read and no handler invocation is ever awaited.
pub proof fn lemma_pipeline_short_circuit(h: ResolvedHandler, i: usize, e: ApiError)
    ensures
        spec_on_param_result(h, i, Err(e)) == PipelineState::Done(Err::<ApiResponse, ApiError>(e)),
        !(spec_on_param_result(h, i, Err(e)) is AwaitParam),
        !(spec_on_param_result(h, i, Err(e)) is AwaitBody),
        !(spec_on_param_result(h, i, Err(e)) is AwaitHandler),
{
}

/// The value a header of the given name carries, if any; header names match
/// case-insensitively, and the first occurrence wins.
pub open spec fn spec_header_value(headers: Seq<(String, String)>, name: Seq<char>) -> Option<
    Seq<char>,
>
    decreases headers.len(),
{
    if headers.len() == 0 {
        None
    } else if spec_eq_ignore_ascii_case(headers[0].0@, name) {
        Some(headers[0].1@)
    } else {
        spec_header_value(headers.drop_first(), name)
    }
}

/// Find a header's value by name, case-insensitively.
pub fn header_value<'a>(headers: &'a Vec<(String, String)>, name: &str) -> (r: Option<&'a String>)
    ensures
        (r matches Some(v) && spec_header_value(headers@, name@) matches Some(s) && v@ == s) || (r
            is None && spec_header_value(headers@, name@) is None),
{
    let mut i: usize = 0;
    proof {
        assert(headers@.subrange(0, headers@.len() as int) =~= headers@);
    }
    while i < headers.len()
        invariant
            0 <= i <= headers@.len(),
            spec_header_value(headers@, name@) == spec_header_value(
                headers@.subrange(i as int, headers@.len() as int),
                name@,
            ),
        decreases headers@.len() - i,
    {
        let ghost rest = headers@.subrange(i as int, headers@.len() as int);
        proof {
            assert(rest[0] == headers@[i as int]);
            assert(rest.drop_first() =~= headers@.subrange(i + 1 as int, headers@.len() as int));
        }
        if eq_ignore_ascii_case(headers[i].0.as_str(), name) {
            return Some(&headers[i].1);
        }
        i = i + 1;
    }
    None
}

/// Does the request carry the JSON content type? Body-bearing routes require
/// it; anything else is refused with code 415 before the body is read.
pub open spec fn spec_content_type_is_json(headers: Seq<(String, String)>) -> bool {
    spec_header_value(headers, "content-type"@) matches Some(v) && spec_eq_ignore_ascii_case(
        v,
        "application/json"@,
    )
}

/// Check the content type of a body-bearing request: wrong or missing
/// content types are refused with code 415, never reaching the body.
pub fn check_content_type(headers: &Vec<(String, String)>) -> (r: Result<(), ApiError>)
    ensures
        r is Ok <==> spec_content_type_is_json(headers@),
        r matches Err(e) ==> {
            &&& e.code == 415
            &&& e.internal_message@ == "Content-Type must be application/json"@
            &&& e.external_message@ == "Content-Type must be application/json"@
            &&& e.value is None
        },
{
    let found = header_value(headers, "content-type");
    match found {
        Some(v) => {
            if eq_ignore_ascii_case(v.as_str(), "application/json") {
                Ok(())
            } else {
                Err(content_type_not_json_err())
            }
        },
        None => Err(content_type_not_json_err()),
    }
}

/// The fixed error for a body that is not declared as JSON.
fn content_type_not_json_err() -> (r: ApiError)
    ensures
        r.code == 415,
        r.internal_message@ == "Content-Type must be application/json"@,
        r.external_message@ == "Content-Type must be application/json"@,
        r.value is None,
{
    ApiError {
        code: 415,
        internal_message: String::from_str("Content-Type must be application/json"),
        external_message: String::from_str("Content-Type must be application/json"),
        value: None,
    }
}

/// A cap on how many body bytes may stream in: the count runs across reads
/// and fails as soon as the configured maximum is exceeded, mid-stream, so
/// the producer can be stopped early.
#[derive(Debug, PartialEq, Eq)]
pub struct Capped {
    /// The configured maximum.
    pub limit: usize,
    /// How many bytes have streamed in so far; never above the limit.
    pub bytes_read: usize,
}

impl Capped {
    /// A fresh cap: nothing read yet.
    pub fn new(limit: usize) -> (r: Capped)
        ensures
            r.limit == limit,
            r.bytes_read == 0,
    {
        Capped { limit, bytes_read: 0 }
    }

    /// Count one read of `n` bytes: succeeds exactly as long as the total
    /// stays within the limit, and fails the moment it would not.
    pub fn note_read(&mut self, n: usize) -> (r: Result<(), ApiError>)
        ensures
            final(self).limit == old(self).limit,
            r is Ok <==> old(self).bytes_read + n <= old(self).limit,
            r is Ok ==> final(self).bytes_read == old(self).bytes_read + n,
            r is Err ==> final(self).bytes_read == old(self).bytes_read,
            r matches Err(e) ==> {
                &&& e.code == 400
                &&& e.internal_message@ == "Size limit exceeded"@
                &&& e.external_message@ == "Size limit exceeded"@
                &&& e.value is None
            },
    {
        if n <= self.limit && self.bytes_read <= self.limit - n {
            self.bytes_read = self.bytes_read + n;
            Ok(())
        } else {
            Err(
                ApiError {
                    code: 400,
                    internal_message: String::from_str("Size limit exceeded"),
                    external_message: String::from_str("Size limit exceeded"),
                    value: None,
                },
            )
        }
    }
}

/// A body extractor that hands the raw bytes through unchanged.
#[derive(Debug, PartialEq, Eq)]
pub struct FromBinary(pub Vec<u8>);

impl FromBinary {
    /// Take the gathered body bytes as they are.
    pub fn handler_body(body: Vec<u8>) -> (r: FromBinary)
        ensures
            r.0@ == body@,
    {
        FromBinary(body)
    }

    /// Unwrap to the bytes.
    pub fn into_body(self) -> (r: Vec<u8>)
        ensures
            r@ == self.0@,
    {
        self.0
    }

    /// The schema of a binary body: an opaque string.
    pub fn api_body_info() -> (r: ApiBodyInfo)
        ensures
            r.description@ == "Binary data"@,
            r.ty is String,
    {
        ApiBodyInfo { description: String::from_str("Binary data"), ty: ApiBodyType::String }
    }
}

/// A typed body, decoded from JSON.
#[derive(Debug, PartialEq, Eq)]
pub struct Json<T> {
    /// The decoded value.
    pub json: T,
}

/// A raw binary body.
#[derive(Debug, PartialEq, Eq)]
pub struct Binary {
    /// The bytes as provided in the request.
    pub bytes: Vec<u8>,
}

impl Binary {
    /// Take the request body as it is.
    pub fn get_body(body: Vec<u8>) -> (r: Binary)
        ensures
            r.bytes@ == body@,
    {
        Binary { bytes: body }
    }
}

} // verus!
