//! The tracking-service side of the protocol: the records exchanged with the
//! service, the endpoint URLs, request building with the day-derived
//! idempotency key, and the classification of responses.

use crate::dates::{daily_id_text, daily_request_id, LocalDate};
use crate::parse::Measurement;
use crate::settings::Settings;
use vstd::prelude::*;

verus! {

/// The outbound record for one new data point. The value keeps the literal
/// text it was written as.
pub struct DatapointRequest {
    pub value: Measurement,
    pub comment: Option<String>,
    pub timestamp: Option<i64>,
    pub daystamp: Option<String>,
    pub request_id: Option<String>,
    pub auth_token: String,
}

/// The mathematical content of a submission request.
pub struct DatapointRequestModel {
    pub value: Seq<char>,
    pub comment: Option<Seq<char>>,
    pub timestamp: Option<i64>,
    pub daystamp: Option<Seq<char>>,
    pub request_id: Option<Seq<char>>,
    pub auth_token: Seq<char>,
}

impl View for DatapointRequest {
    type V = DatapointRequestModel;

    open spec fn view(&self) -> DatapointRequestModel {
        DatapointRequestModel {
            value: self.value@,
            comment: match self.comment {
                Option::Some(ref c) => Option::Some(c@),
                Option::None => Option::None,
            },
            timestamp: self.timestamp,
            daystamp: match self.daystamp {
                Option::Some(ref c) => Option::Some(c@),
                Option::None => Option::None,
            },
            request_id: match self.request_id {
                Option::Some(ref c) => Option::Some(c@),
                Option::None => Option::None,
            },
            auth_token: self.auth_token@,
        }
    }
}

/// The service's confirmation record for one stored data point; the echoed
/// value arrives as its decimal text.
pub struct Datapoint {
    pub id: String,
    pub timestamp: i64,
    pub daystamp: String,
    pub value: String,
    pub comment: Option<String>,
    pub updated_at: i64,
    pub request_id: Option<String>,
}

/// A snapshot of the goal's aggregate state.
pub struct Goal {
    pub slug: String,
    pub graph_url: String,
    pub safe_buf: i64,
}

/// The mathematical content of a goal snapshot.
pub struct GoalModel {
    pub slug: Seq<char>,
    pub graph_url: Seq<char>,
    pub safe_buf: i64,
}

impl View for Goal {
    type V = GoalModel;

    open spec fn view(&self) -> GoalModel {
        GoalModel { slug: self.slug@, graph_url: self.graph_url@, safe_buf: self.safe_buf }
    }
}

/// The query for the goal read: just the credential.
pub struct GoalRequest {
    pub auth_token: String,
}

/// Why a submission failed.
pub enum SubmitError {
    /// The POST itself did not go through.
    PostFailed,
    /// A response arrived with a non-success status; the payload is its
    /// status line.
    BadStatus(String),
    /// The response body was not a valid confirmation record.
    BadBody,
}

impl View for SubmitError {
    type V = Seq<char>;

    /// The human-readable description a failure reply embeds.
    open spec fn view(&self) -> Seq<char> {
        match self {
            SubmitError::PostFailed => "Failed to POST to Beeminder"@,
            SubmitError::BadStatus(t) => "Failed to POST to Beeminder. Returned: "@ + t@,
            SubmitError::BadBody => "Failed to deserialize response"@,
        }
    }
}

/// Why a goal read failed.
pub enum FetchError {
    /// The GET itself did not go through.
    GetFailed,
    /// A response arrived with a non-success status; the payload is its
    /// status line.
    BadStatus(String),
    /// The response body was not a valid goal snapshot.
    BadBody,
}

impl View for FetchError {
    type V = Seq<char>;

    /// The human-readable description a failure reply embeds.
    open spec fn view(&self) -> Seq<char> {
        match self {
            FetchError::GetFailed => "Failed to GET Beeminder"@,
            FetchError::BadStatus(t) => "Failed to GET Beeminder. Returned: "@ + t@,
            FetchError::BadBody => "Failed to deserialize response"@,
        }
    }
}

/// The description text of a submission failure.
pub fn submit_error_message(e: &SubmitError) -> (r: String)
    ensures
        r@ == e@,
{
    match e {
        SubmitError::PostFailed => String::from_str("Failed to POST to Beeminder"),
        SubmitError::BadStatus(t) => {
            let mut s = String::from_str("Failed to POST to Beeminder. Returned: ");
            s.append(t.as_str());
            s
        },
        SubmitError::BadBody => String::from_str("Failed to deserialize response"),
    }
}

/// The description text of a goal-read failure.
pub fn fetch_error_message(e: &FetchError) -> (r: String)
    ensures
        r@ == e@,
{
    match e {
        FetchError::GetFailed => String::from_str("Failed to GET Beeminder"),
        FetchError::BadStatus(t) => {
            let mut s = String::from_str("Failed to GET Beeminder. Returned: ");
            s.append(t.as_str());
            s
        },
        FetchError::BadBody => String::from_str("Failed to deserialize response"),
    }
}

/// Where new data points are POSTed for this account and goal.
pub open spec fn datapoint_url_text(s: Settings) -> Seq<char> {
    "https://www.beeminder.com/api/v1/users/"@ + s.beeminder_username@ + "/goals/"@
        + s.beeminder_goal@ + "/datapoints.json"@
}

pub fn datapoint_url(s: &Settings) -> (r: String)
    ensures
        r@ == datapoint_url_text(*s),
{
    let mut u = String::from_str("https://www.beeminder.com/api/v1/users/");
    u.append(s.beeminder_username.as_str());
    u.append("/goals/");
    u.append(s.beeminder_goal.as_str());
    u.append("/datapoints.json");
    proof {
        assert(u@ =~= datapoint_url_text(*s));
    }
    u
}

/// Where the goal snapshot is read from.
pub open spec fn goal_url_text(s: Settings) -> Seq<char> {
    "https://www.beeminder.com/api/v1/users/"@ + s.beeminder_username@ + "/goals/"@
        + s.beeminder_goal@ + ".json"@
}

pub fn goal_url(s: &Settings) -> (r: String)
    ensures
        r@ == goal_url_text(*s),
{
    let mut u = String::from_str("https://www.beeminder.com/api/v1/users/");
    u.append(s.beeminder_username.as_str());
    u.append("/goals/");
    u.append(s.beeminder_goal.as_str());
    u.append(".json");
    proof {
        assert(u@ =~= goal_url_text(*s));
    }
    u
}

/// The service's success criterion: a 2xx-class status.
pub fn status_is_success(status: u16) -> (r: bool)
    ensures
        r == (200 <= status < 300),
{
    200 <= status && status < 300
}

/// Interpret a submission response: only a success status with a parseable
/// body confirms the data point; a bad status reports its status line, a
/// success status with an unreadable body reports the body.
pub fn classify_post_response(status: u16, status_text: String, body: Option<Datapoint>) -> (r:
    Result<Datapoint, SubmitError>)
    ensures
        !(200 <= status < 300) ==> (r matches Err(e) && e == SubmitError::BadStatus(status_text)),
        (200 <= status < 300) && body is Some ==> (r matches Ok(p) && p == body->Some_0),
        (200 <= status < 300) && body is None ==> (r matches Err(e) && e == SubmitError::BadBody),
{
    if !status_is_success(status) {
        Err(SubmitError::BadStatus(status_text))
    } else {
        match body {
            Option::Some(p) => Ok(p),
            Option::None => Err(SubmitError::BadBody),
        }
    }
}

/// Interpret a goal-read response, by the same criterion.
pub fn classify_get_response(status: u16, status_text: String, body: Option<Goal>) -> (r: Result<
    Goal,
    FetchError,
>)
    ensures
        !(200 <= status < 300) ==> (r matches Err(e) && e == FetchError::BadStatus(status_text)),
        (200 <= status < 300) && body is Some ==> (r matches Ok(g) && g == body->Some_0),
        (200 <= status < 300) && body is None ==> (r matches Err(e) && e == FetchError::BadBody),
{
    if !status_is_success(status) {
        Err(FetchError::BadStatus(status_text))
    } else {
        match body {
            Option::Some(g) => Ok(g),
            Option::None => Err(FetchError::BadBody),
        }
    }
}

/// A fresh submission request: the measured value, the given day's
/// idempotency key, the account credential, and nothing else.
pub fn build_datapoint_request(settings: &Settings, value: Measurement, date: &LocalDate) -> (r:
    DatapointRequest)
    requires
        date.wf(),
    ensures
        r@.value == value@,
        r@.comment is None,
        r@.timestamp is None,
        r@.daystamp is None,
        r@.request_id == Option::Some(daily_id_text(*date)),
        r@.auth_token == settings.beeminder_auth_token@,
{
    DatapointRequest {
        value,
        comment: Option::None,
        timestamp: Option::None,
        daystamp: Option::None,
        request_id: Option::Some(daily_request_id(date)),
        auth_token: settings.beeminder_auth_token.clone(),
    }
}

/// The goal query for this account.
pub fn build_goal_request(settings: &Settings) -> (r: GoalRequest)
    ensures
        r.auth_token@ == settings.beeminder_auth_token@,
{
    GoalRequest { auth_token: settings.beeminder_auth_token.clone() }
}

} // verus!
