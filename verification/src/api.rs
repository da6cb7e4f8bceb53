//! Herdr's socket API, one request per connection: the ids that requests
//! carry, which reply line answers a request, and what a failed request
//! reports.
use vstd::prelude::*;
use vstd::string::StringExecFns;

use crate::text::{chars_of, contains, digits, digits_of, has_infix, join2, join3, same_text, string_of};

verus! {

#[derive(Debug)]
pub struct ApiError(pub String);

impl ApiError {
    pub fn message(&self) -> (out: String)
        ensures
            out@ == self.0@,
    {
        self.0.clone()
    }
}

/// A client of the socket at `socket_path`.
#[derive(Debug, Clone)]
pub struct ApiClient {
    pub socket_path: String,
}

impl ApiClient {
    pub fn new(socket_path: String) -> (c: ApiClient)
        ensures
            c.socket_path == socket_path,
    {
        ApiClient { socket_path }
    }

    /// `"api connect timeout: {socket}"`.
    pub fn connect_timeout_error(&self) -> (e: ApiError)
        ensures
            e.0@ == "api connect timeout: "@ + self.socket_path@,
    {
        ApiError(join2("api connect timeout: ", self.socket_path.as_str()))
    }

    /// `"could not connect to Herdr socket {socket}: {error}"`.
    pub fn connect_error(&self, error: &str) -> (e: ApiError)
        ensures
            e.0@ == "could not connect to Herdr socket "@ + self.socket_path@ + ": "@ + error@,
    {
        let head = join2("could not connect to Herdr socket ", self.socket_path.as_str());
        ApiError(join3(head.as_str(), ": ", error))
    }
}

/// The id of the request numbered `n`.
pub open spec fn request_id_text(n: u64) -> Seq<char> {
    "herdr_desktop_switcher_"@ + digits(n as nat)
}

pub fn request_id(n: u64) -> (out: String)
    ensures
        out@ == request_id_text(n),
{
    let d = digits_of(n);
    let number = string_of(d.as_slice());
    join2("herdr_desktop_switcher_", number.as_str())
}

/// A failure while the request `method` was under way: `"{what} {method}
/// {stage}: {error}"`, as in `could not send ping request: broken pipe`.
pub fn stage_error(what: &str, method: &str, stage: &str, error: &str) -> (e: ApiError)
    ensures
        e.0@ == what@ + " "@ + method@ + " "@ + stage@ + ": "@ + error@,
{
    let head = join3(what, " ", method);
    let middle = join3(head.as_str(), " ", stage);
    ApiError(join3(middle.as_str(), ": ", error))
}

/// `"api timeout: {method}"`.
pub fn timeout_error(method: &str) -> (e: ApiError)
    ensures
        e.0@ == "api timeout: "@ + method@,
{
    ApiError(join2("api timeout: ", method))
}

/// `"api closed before response: {method}"`.
pub fn closed_error(method: &str) -> (e: ApiError)
    ensures
        e.0@ == "api closed before response: "@ + method@,
{
    ApiError(join2("api closed before response: ", method))
}

/// What a JSON object holds under a key: nothing, a string, or another value.
#[derive(Debug)]
pub enum JsonText {
    Missing,
    Text(String),
    Other,
}

pub enum JsonTextView {
    Missing,
    Text(Seq<char>),
    Other,
}

impl View for JsonText {
    type V = JsonTextView;

    open spec fn view(&self) -> JsonTextView {
        match self {
            JsonText::Missing => JsonTextView::Missing,
            JsonText::Text(s) => JsonTextView::Text(s@),
            JsonText::Other => JsonTextView::Other,
        }
    }
}

/// The `error` member of a reply: its `message` and `code`, and the member
/// as compact JSON text.
#[derive(Debug)]
pub struct ReplyError {
    pub message: JsonText,
    pub code: JsonText,
    pub raw: String,
}

/// What the request logic reads of one reply line: its `id`, and its
/// `error` member if it has one.
#[derive(Debug)]
pub struct Reply {
    pub id: JsonText,
    pub error: Option<ReplyError>,
}

pub struct ReplyFacts {
    pub id: JsonTextView,
    pub error: Option<(JsonTextView, JsonTextView, Seq<char>)>,
}

impl View for Reply {
    type V = ReplyFacts;

    open spec fn view(&self) -> ReplyFacts {
        ReplyFacts {
            id: self.id@,
            error: match self.error {
                Some(e) => Some((e.message@, e.code@, e.raw@)),
                None => None,
            },
        }
    }
}

pub open spec fn reply_view(r: Option<Reply>) -> Option<ReplyFacts> {
    match r {
        Some(reply) => Some(reply@),
        None => None,
    }
}

/// What `serde_json` reads of a reply line: `None` when the line is not
/// JSON.
pub uninterp spec fn json_reply(line: Seq<char>) -> Option<ReplyFacts>;

/// Reads a reply line with `serde_json::from_str::<serde_json::Value>`, and
/// takes `id`, `error`, `error.message` and `error.code` with
/// `Value::get`, telling strings from other values, and the error member's
/// text with `Value::to_string`.
///
/// Trusted: the result is the named reading `json_reply(line)`; nothing more
/// is claimed of it. `get` on a value that is not an object gives `None`, so
/// nothing here panics.
#[verifier::external_body]
fn read_reply(line: &str) -> (r: Option<Reply>)
    ensures
        reply_view(r) == json_reply(line@),
{
    let text = |v: Option<&serde_json::Value>| match v {
        None => JsonText::Missing,
        Some(serde_json::Value::String(s)) => JsonText::Text(s.to_owned()),
        Some(_) => JsonText::Other,
    };
    let v: serde_json::Value = serde_json::from_str(line).ok()?;
    let error = v.get("error").map(
        |e| ReplyError { message: text(e.get("message")), code: text(e.get("code")), raw: e.to_string() },
    );
    Some(Reply { id: text(v.get("id")), error })
}

/// The text a failed request reports: the error's `message`, or its `code`
/// when it has no message, if that is a string; otherwise the error member
/// itself.
pub open spec fn error_text(e: (JsonTextView, JsonTextView, Seq<char>)) -> Seq<char> {
    let first = match e.0 {
        JsonTextView::Missing => e.1,
        _ => e.0,
    };
    match first {
        JsonTextView::Text(t) => t,
        _ => e.2,
    }
}

/// What one reply line means for the request `id` of `method`.
#[derive(Debug)]
pub enum ReplyStep {
    /// Not a reply to this request (not JSON, or another id): read on.
    Skip,
    /// The request failed.
    Failed(ApiError),
    /// The request was answered.
    Answered,
}

pub open spec fn reply_step_is(
    method: Seq<char>,
    id: Seq<char>,
    facts: Option<ReplyFacts>,
    step: ReplyStep,
) -> bool {
    match facts {
        None => step is Skip,
        Some(f) => if f.id != JsonTextView::Text(id) {
            step is Skip
        } else {
            match f.error {
                Some(e) => step matches ReplyStep::Failed(err) && err.0@ == method + ": "@
                    + error_text(e),
                None => step is Answered,
            }
        },
    }
}

fn text_of(t: &JsonText) -> (r: Option<&String>)
    ensures
        match t@ {
            JsonTextView::Text(s) => r matches Some(x) && x@ == s,
            _ => r is None,
        },
{
    match t {
        JsonText::Text(s) => Some(s),
        _ => None,
    }
}

/// What the reply `reply` (as read from a line) means for the request `id`
/// of `method`.
pub fn reply_outcome(method: &str, id: &str, reply: &Option<Reply>) -> (step: ReplyStep)
    ensures
        reply_step_is(method@, id@, reply_view(*reply), step),
{
    let r = match reply {
        None => {
            return ReplyStep::Skip;
        },
        Some(r) => r,
    };
    match text_of(&r.id) {
        Some(s) => {
            if !same_text(s.as_str(), id) {
                return ReplyStep::Skip;
            }
        },
        None => {
            return ReplyStep::Skip;
        },
    }
    match &r.error {
        None => ReplyStep::Answered,
        Some(e) => {
            let first = match e.message {
                JsonText::Missing => &e.code,
                _ => &e.message,
            };
            let text = match text_of(first) {
                Some(t) => t.clone(),
                None => e.raw.clone(),
            };
            ReplyStep::Failed(ApiError(join3(method, ": ", text.as_str())))
        },
    }
}

/// What the reply line `line` means for the request `id` of `method`.
pub fn reply_step(method: &str, id: &str, line: &str) -> (step: ReplyStep)
    ensures
        reply_step_is(method@, id@, json_reply(line@), step),
{
    let reply = read_reply(line);
    reply_outcome(method, id, &reply)
}

/// A popup that is already open is closed instead of opened again.
pub fn popup_already_open(error: &ApiError) -> (r: bool)
    ensures
        r == has_infix(error.0@, "popup already open"@),
{
    let hay = chars_of(error.0.as_str());
    let needle = chars_of("popup already open");
    contains(hay.as_slice(), needle.as_slice())
}

} // verus!
