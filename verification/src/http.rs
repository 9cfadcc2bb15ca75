//! The transport-free part of the read client: what to ask for next, and what a
//! response means. The caller sends the requests and sleeps the waits.

use crate::text::{is_prefix, starts_with};
use vstd::prelude::*;

verus! {

/// The method of a request.
#[derive(Clone, Copy, Debug, PartialEq, Eq, Structural)]
pub enum Method {
    Get,
    Post,
    Put,
    Patch,
    Delete,
}

/// One value of a request's body.
#[derive(Debug, PartialEq, Eq)]
pub enum Param {
    Text(String),
    Number(u64),
    Texts(Vec<String>),
    Missing,
}

pub enum ParamView {
    Text(Seq<char>),
    Number(u64),
    Texts(Seq<Seq<char>>),
    Missing,
}

impl DeepView for Param {
    type V = ParamView;

    open spec fn deep_view(&self) -> ParamView {
        match self {
            Param::Text(t) => ParamView::Text(t@),
            Param::Number(n) => ParamView::Number(*n),
            Param::Texts(ts) => ParamView::Texts(ts.deep_view()),
            Param::Missing => ParamView::Missing,
        }
    }
}

/// How the body of a request is written.
#[derive(Clone, Copy, Debug, PartialEq, Eq, Structural)]
pub enum Encoding {
    Empty,
    /// The body is one JSON object.
    Json,
    /// The body is a JSON list that holds one object.
    JsonList,
    Form,
    /// A GraphQL query of the given kind, the body being its variables.
    Query(Query),
}

/// The GraphQL queries that the read client makes.
#[derive(Clone, Copy, Debug, PartialEq, Eq, Structural)]
pub enum Query {
    Usernames,
    TeamMembers,
    BranchProtections,
}

/// The credential that a request carries.
#[derive(Debug, PartialEq, Eq)]
pub enum Authorization {
    /// The value of the authorization header.
    Header(String),
    /// A name and a password for basic authentication.
    Basic { username: String, password: String },
}

pub enum AuthorizationView {
    Header(Seq<char>),
    Basic { username: Seq<char>, password: Seq<char> },
}

impl DeepView for Authorization {
    type V = AuthorizationView;

    open spec fn deep_view(&self) -> AuthorizationView {
        match self {
            Authorization::Header(value) => AuthorizationView::Header(value@),
            Authorization::Basic { username, password } => AuthorizationView::Basic {
                username: username@,
                password: password@,
            },
        }
    }
}

/// A request for the caller to send.
#[derive(Debug, PartialEq, Eq)]
pub struct Request {
    pub method: Method,
    pub url: String,
    pub authorization: Authorization,
    pub encoding: Encoding,
    pub body: Vec<(String, Param)>,
}

pub struct RequestView {
    pub method: Method,
    pub url: Seq<char>,
    pub authorization: AuthorizationView,
    pub encoding: Encoding,
    pub body: Seq<(Seq<char>, ParamView)>,
}

impl DeepView for Request {
    type V = RequestView;

    open spec fn deep_view(&self) -> RequestView {
        RequestView {
            method: self.method,
            url: self.url@,
            authorization: self.authorization.deep_view(),
            encoding: self.encoding,
            body: self.body.deep_view(),
        }
    }
}

/// The address that a request goes to: `url` itself where it is a full
/// address, else `url` under `base`.
pub open spec fn absolute(base: Seq<char>, url: Seq<char>) -> Seq<char> {
    if is_prefix("https://"@, url) {
        url
    } else {
        base + url
    }
}

/// The address that a request for `url` goes to.
pub fn absolute_url(base: &str, url: &str) -> (r: String)
    ensures
        r@ == absolute(base@, url@),
{
    if starts_with(url, "https://") {
        String::from_str(url)
    } else {
        let mut r = String::from_str(base);
        r.append(url);
        r
    }
}

/// Two texts one after the other.
pub fn concat(a: &str, b: &str) -> (r: String)
    ensures
        r@ == a@ + b@,
{
    let mut r = String::from_str(a);
    r.append(b);
    r
}

/// What a response to a lookup means.
#[derive(Debug, PartialEq, Eq)]
pub enum Lookup {
    /// The entity exists; this is the body that describes it.
    Found(String),
    /// The entity does not exist. This is an answer, not an error.
    Absent,
    /// The request failed: the status and the body of the response.
    Failed { status: u16, body: String },
}

pub enum LookupView {
    Found(Seq<char>),
    Absent,
    Failed { status: u16, body: Seq<char> },
}

impl DeepView for Lookup {
    type V = LookupView;

    open spec fn deep_view(&self) -> LookupView {
        match self {
            Lookup::Found(body) => LookupView::Found(body@),
            Lookup::Absent => LookupView::Absent,
            Lookup::Failed { status, body } => LookupView::Failed { status: *status, body: body@ },
        }
    }
}

/// What a response means for a lookup: status 200 is a find, 404 an absence,
/// and anything else a failure that carries the status and the body.
pub open spec fn lookup_of(status: u16, body: Seq<char>) -> LookupView {
    if status == 200 {
        LookupView::Found(body)
    } else if status == 404 {
        LookupView::Absent
    } else {
        LookupView::Failed { status, body }
    }
}

/// Reads the response to a lookup.
pub fn send_option(status: u16, body: String) -> (r: Lookup)
    ensures
        r.deep_view() == lookup_of(status, body@),
{
    if status == 200 {
        Lookup::Found(body)
    } else if status == 404 {
        Lookup::Absent
    } else {
        Lookup::Failed { status, body }
    }
}

/// Whether a status is one of success.
pub open spec fn is_success(status: u16) -> bool {
    200 <= status < 300
}

/// A failure with what the response said: why it is one, the status, and the
/// body.
#[derive(Debug, PartialEq, Eq)]
pub struct Failure {
    pub error: HttpError,
    pub status: u16,
    pub body: String,
}

pub struct FailureView {
    pub error: HttpError,
    pub status: u16,
    pub body: Seq<char>,
}

impl DeepView for Failure {
    type V = FailureView;

    open spec fn deep_view(&self) -> FailureView {
        FailureView { error: self.error, status: self.status, body: self.body@ }
    }
}

/// Reads a response that must have succeeded: its body comes back where the
/// status is one of success, else a failure with the status and the body.
pub fn error_for_status(status: u16, body: String) -> (r: Result<String, Failure>)
    ensures
        match r {
            Ok(text) => is_success(status) && text@ == body@,
            Err(failure) => !is_success(status) && failure.deep_view() == (FailureView {
                error: HttpError::UnexpectedStatus(status),
                status,
                body: body@,
            }),
        },
{
    if 200 <= status && status < 300 {
        Ok(body)
    } else {
        Err(Failure { error: HttpError::UnexpectedStatus(status), status, body })
    }
}

/// The wait that a rate-limited response asks for.
#[derive(Clone, Copy, Debug, PartialEq, Eq, Structural)]
pub enum RetryAfter {
    /// The response carries no wait.
    Missing,
    /// The response carries a wait that cannot be read.
    Unreadable,
    /// The wait in milliseconds.
    Millis(u64),
}

/// Why a request failed for good.
#[derive(Clone, Copy, Debug, PartialEq, Eq, Structural)]
pub enum HttpError {
    BadRequest,
    InvalidAuthToken,
    InsufficientPermissions,
    /// A rate-limited response without its wait.
    NoRetryAfter,
    /// A rate-limited response whose wait cannot be read.
    UnreadableRetryAfter,
    UnexpectedStatus(u16),
}

/// What to do after a response.
#[derive(Clone, Copy, Debug, PartialEq, Eq, Structural)]
pub enum Step {
    /// The response answers the request.
    Found,
    /// There is no such thing. This is an answer, not an error.
    Absent,
    /// Sleep this long, then send the same request again.
    Retry { millis: u64 },
    /// Give up.
    Failed(HttpError),
}

/// What a response to a rate-limited endpoint asks of the client. A response
/// with status 429 is never an error where it tells its wait: the client waits
/// and sends the request again, however often this happens.
pub open spec fn step_after(status: u16, retry_after: RetryAfter) -> Step {
    if status == 200 {
        Step::Found
    } else if status == 400 {
        Step::Failed(HttpError::BadRequest)
    } else if status == 401 {
        Step::Failed(HttpError::InvalidAuthToken)
    } else if status == 403 {
        Step::Failed(HttpError::InsufficientPermissions)
    } else if status == 404 {
        Step::Absent
    } else if status == 429 {
        match retry_after {
            RetryAfter::Millis(millis) => Step::Retry { millis },
            RetryAfter::Missing => Step::Failed(HttpError::NoRetryAfter),
            RetryAfter::Unreadable => Step::Failed(HttpError::UnreadableRetryAfter),
        }
    } else {
        Step::Failed(HttpError::UnexpectedStatus(status))
    }
}

/// Decides what to do after a response of a rate-limited endpoint, by its
/// status and its wait.
pub fn retry_step(status: u16, retry_after: RetryAfter) -> (step: Step)
    ensures
        step == step_after(status, retry_after),
{
    if status == 200 {
        Step::Found
    } else if status == 400 {
        Step::Failed(HttpError::BadRequest)
    } else if status == 401 {
        Step::Failed(HttpError::InvalidAuthToken)
    } else if status == 403 {
        Step::Failed(HttpError::InsufficientPermissions)
    } else if status == 404 {
        Step::Absent
    } else if status == 429 {
        match retry_after {
            RetryAfter::Millis(millis) => Step::Retry { millis },
            RetryAfter::Missing => Step::Failed(HttpError::NoRetryAfter),
            RetryAfter::Unreadable => Step::Failed(HttpError::UnreadableRetryAfter),
        }
    } else {
        Step::Failed(HttpError::UnexpectedStatus(status))
    }
}

/// What a response of a rate-limited endpoint comes to.
#[derive(Debug, PartialEq, Eq)]
pub enum Answer {
    /// The response answers the request; this is its body.
    Found(String),
    /// There is no such thing. This is an answer, not an error.
    Absent,
    /// Sleep this long, then send the same request again.
    Retry { millis: u64 },
    /// Give up: the failure carries the status and the body.
    Failed(Failure),
}

pub enum AnswerView {
    Found(Seq<char>),
    Absent,
    Retry { millis: u64 },
    Failed(FailureView),
}

impl DeepView for Answer {
    type V = AnswerView;

    open spec fn deep_view(&self) -> AnswerView {
        match self {
            Answer::Found(body) => AnswerView::Found(body@),
            Answer::Absent => AnswerView::Absent,
            Answer::Retry { millis } => AnswerView::Retry { millis: *millis },
            Answer::Failed(failure) => AnswerView::Failed(failure.deep_view()),
        }
    }
}

/// What a response of a rate-limited endpoint comes to: the step that its
/// status and wait ask for, with the body where the response answers the
/// request and with status and body where it fails.
pub open spec fn answer_after(status: u16, retry_after: RetryAfter, body: Seq<char>) -> AnswerView {
    match step_after(status, retry_after) {
        Step::Found => AnswerView::Found(body),
        Step::Absent => AnswerView::Absent,
        Step::Retry { millis } => AnswerView::Retry { millis },
        Step::Failed(error) => AnswerView::Failed(FailureView { error, status, body }),
    }
}

/// Decides what to do after a response of a rate-limited endpoint.
pub fn with_rate_limiting(status: u16, retry_after: RetryAfter, body: String) -> (answer: Answer)
    ensures
        answer.deep_view() == answer_after(status, retry_after, body@),
{
    match retry_step(status, retry_after) {
        Step::Found => Answer::Found(body),
        Step::Absent => Answer::Absent,
        Step::Retry { millis } => Answer::Retry { millis },
        Step::Failed(error) => Answer::Failed(Failure { error, status, body }),
    }
}

/// What a response to a request for a page asks of the client: a response
/// with status 429 that tells its wait is never an error, the client waits and
/// sends the request again; any other status that is not one of success ends
/// the walk.
pub open spec fn paged_step_after(status: u16, retry_after: RetryAfter) -> Step {
    if status == 429 {
        step_after(status, retry_after)
    } else if is_success(status) {
        Step::Found
    } else {
        Step::Failed(HttpError::UnexpectedStatus(status))
    }
}

/// Decides what to do after a response to a request for a page.
pub fn paged_step(status: u16, retry_after: RetryAfter) -> (step: Step)
    ensures
        step == paged_step_after(status, retry_after),
{
    if status == 429 {
        retry_step(status, retry_after)
    } else if 200 <= status && status < 300 {
        Step::Found
    } else {
        Step::Failed(HttpError::UnexpectedStatus(status))
    }
}

/// A response as far as the retry policy reads it.
#[derive(Clone, Copy, Debug, PartialEq, Eq, Structural)]
pub struct Response {
    pub status: u16,
    pub retry_after: RetryAfter,
}

/// How an exchange with a rate-limited endpoint went.
pub struct Exchange {
    /// How often the request was sent.
    pub requests: nat,
    /// The sum of the waits that were slept, in milliseconds.
    pub waited: nat,
    /// How it ended; a retry where the responses ran out before an answer.
    pub end: Step,
}

/// The exchange in which the server answers with `responses[from..]`, one
/// response for each sending of the request, after `requests` sendings and
/// `waited` milliseconds of sleep.
pub open spec fn exchange_from(responses: Seq<Response>, from: nat, requests: nat, waited: nat) -> Exchange
    decreases responses.len() - from,
{
    if from >= responses.len() {
        Exchange { requests, waited, end: Step::Retry { millis: 0 } }
    } else {
        match step_after(responses[from as int].status, responses[from as int].retry_after) {
            Step::Retry { millis } => exchange_from(
                responses,
                from + 1,
                requests + 1,
                waited + millis as nat,
            ),
            end => Exchange { requests: requests + 1, waited, end },
        }
    }
}

/// The sum of the waits of the first `n` responses.
pub open spec fn waits_upto(responses: Seq<Response>, n: nat) -> nat
    decreases n,
{
    if n == 0 {
        0
    } else {
        waits_upto(responses, (n - 1) as nat) + (match responses[n - 1].retry_after {
            RetryAfter::Millis(millis) => millis as nat,
            _ => 0,
        })
    }
}

/// Rate-limit compliance. Where the server limits the first `k` sendings,
/// telling a wait each time, and then answers with status 200, the client
/// sends the request `k + 1` times, sleeps every wait in full before the next
/// sending, and ends with the answer.
pub proof fn lemma_rate_limit_compliance(responses: Seq<Response>, k: nat)
    requires
        k < responses.len(),
        forall|i: int|
            0 <= i < k ==> (#[trigger] responses[i]).status == 429 && responses[i].retry_after
                is Millis,
        responses[k as int].status == 200,
    ensures
        exchange_from(responses, 0, 0, 0) == (Exchange {
            requests: k + 1,
            waited: waits_upto(responses, k),
            end: Step::Found,
        }),
{
    lemma_exchange(responses, k, 0);
}

proof fn lemma_exchange(responses: Seq<Response>, k: nat, from: nat)
    requires
        from <= k < responses.len(),
        forall|i: int|
            0 <= i < k ==> (#[trigger] responses[i]).status == 429 && responses[i].retry_after
                is Millis,
        responses[k as int].status == 200,
    ensures
        exchange_from(responses, from, from, waits_upto(responses, from)) == (Exchange {
            requests: k + 1,
            waited: waits_upto(responses, k),
            end: Step::Found,
        }),
    decreases k - from,
{
    if from < k {
        assert(responses[from as int].status == 429);
        lemma_exchange(responses, k, from + 1);
    }
}

/// A wait of a rate-limited response is the wait that the client is told to
/// sleep before it sends the request again.
pub proof fn lemma_retry_waits_in_full(millis: u64)
    ensures
        step_after(429, RetryAfter::Millis(millis)) == (Step::Retry { millis }),
{
}

/// A response without a limit ends the exchange: a wait is asked for after
/// status 429 alone.
pub proof fn lemma_only_limits_retry(status: u16, retry_after: RetryAfter)
    ensures
        step_after(status, retry_after) is Retry <==> status == 429 && retry_after is Millis,
{
}

} // verus!
