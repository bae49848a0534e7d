//! OpenCode's HTTP interface: the requests that are made of it, and what its
//! answers mean.

use vstd::prelude::*;
use vstd::string::*;

use crate::keyed::KeyMap;
use crate::text::{
    chars_of, concat2, concat3, concat4, concat5, contains_text, decimal, ends_with,
    law_parts_are_seen, starts_with, string_of, strip_prefix, the_char, trim_end_by, trim_end_char,
};
use crate::types::{state_name, state_of_status, SessionState};

verus! {

// ---------------------------------------------------------------------------
// Data
// ---------------------------------------------------------------------------

/// Unix times in milliseconds.
#[derive(Clone, Copy, Debug, PartialEq, Eq, Structural)]
pub struct OcTime {
    pub created: u64,
    pub updated: u64,
}

/// A session as OpenCode lists it.
#[derive(Clone, Debug)]
pub struct OcSession {
    pub id: String,
    pub slug: String,
    pub project_id: String,
    pub directory: String,
    pub parent_id: Option<String>,
    pub title: String,
    pub version: String,
    pub time: OcTime,
}

/// The seconds between two times in milliseconds; none where the first is later.
pub open spec fn secs_since(then_ms: u64, now_ms: u64) -> u64 {
    if now_ms > then_ms {
        ((now_ms - then_ms) / 1000) as u64
    } else {
        0
    }
}

impl OcSession {
    /// The age of the session in seconds at a time in milliseconds.
    pub fn uptime_secs(&self, now_ms: u64) -> (r: u64)
        ensures
            r == secs_since(self.time.created, now_ms),
    {
        if now_ms > self.time.created {
            (now_ms - self.time.created) / 1000
        } else {
            0
        }
    }
}

/// The status of a session.
#[derive(Clone, Debug)]
pub struct OcSessionStatus {
    pub status: Option<String>,
}

/// An event of OpenCode.
#[derive(Clone, Debug)]
pub struct OcEvent {
    pub event_type: String,
    pub data: String,
}

/// What an event on a status tells.
#[derive(Clone, Debug)]
pub struct OcSessionStatusEvent {
    pub session_id: Option<String>,
    pub status: Option<String>,
}

impl OcEvent {
    /// An event from the stream; one without a type is a message.
    pub fn received(event: String, data: String) -> (r: OcEvent)
        ensures
            r.data == data,
            r.event_type@ == (if event@.len() == 0 {
                "message"@
            } else {
                event@
            }),
    {
        let event_type = if chars_of(event.as_str()).len() == 0 {
            "message".to_string()
        } else {
            event
        };
        OcEvent { event_type, data }
    }
}

// ---------------------------------------------------------------------------
// Requests
// ---------------------------------------------------------------------------

/// What is done with a resource.
#[derive(Clone, Copy, Debug, PartialEq, Eq, Structural)]
pub enum Method {
    Get,
    Post,
    Patch,
}

/// The word for a method.
pub open spec fn method_word(m: Method) -> Seq<char> {
    match m {
        Method::Get => "GET"@,
        Method::Post => "POST"@,
        Method::Patch => "PATCH"@,
    }
}

impl Method {
    /// The word for the method.
    pub fn word(&self) -> (r: &'static str)
        ensures
            r@ == method_word(*self),
    {
        match self {
            Method::Get => "GET",
            Method::Post => "POST",
            Method::Patch => "PATCH",
        }
    }
}

/// A request to OpenCode.
#[derive(Debug)]
pub struct ApiRequest {
    pub method: Method,
    pub url: String,
    /// The path as it is called in reports.
    pub path: String,
    /// The JSON that is sent along.
    pub body: Option<String>,
}

/// A request as values.
#[verifier::ext_equal]
pub struct RequestView {
    pub method: Method,
    pub url: Seq<char>,
    pub path: Seq<char>,
    pub body: Option<Seq<char>>,
}

impl View for ApiRequest {
    type V = RequestView;

    open spec fn view(&self) -> RequestView {
        RequestView {
            method: self.method,
            url: self.url@,
            path: self.path@,
            body: crate::text::opt_text(self.body),
        }
    }
}

/// A request for a path below a base address.
pub open spec fn request_of(
    base: Seq<char>,
    method: Method,
    path: Seq<char>,
    body: Option<Seq<char>>,
) -> RequestView {
    RequestView { method, url: base + path, path, body }
}

/// The hexadecimal digit of a number below sixteen, in lower case.
pub open spec fn hex_digit(d: int) -> char {
    if d < 10 {
        (48 + d) as char
    } else {
        (87 + d) as char
    }
}

/// A character as it stands in a JSON string.
pub open spec fn json_char(c: char) -> Seq<char> {
    if c == '"' {
        seq!['\\', '"']
    } else if c == '\\' {
        seq!['\\', '\\']
    } else if c as u32 == 8 {
        seq!['\\', 'b']
    } else if c as u32 == 9 {
        seq!['\\', 't']
    } else if c as u32 == 10 {
        seq!['\\', 'n']
    } else if c as u32 == 12 {
        seq!['\\', 'f']
    } else if c as u32 == 13 {
        seq!['\\', 'r']
    } else if (c as u32) < 32 {
        seq!['\\', 'u', '0', '0', hex_digit(c as int / 16), hex_digit(c as int % 16)]
    } else {
        seq![c]
    }
}

/// A text as it stands between the quotes of a JSON string.
pub open spec fn json_chars(s: Seq<char>) -> Seq<char>
    decreases s.len(),
{
    if s.len() == 0 {
        Seq::empty()
    } else {
        json_chars(s.drop_last()) + json_char(s.last())
    }
}

/// A text as a JSON string.
pub open spec fn json_string(s: Seq<char>) -> Seq<char> {
    seq!['"'] + json_chars(s) + seq!['"']
}

/// A text as a JSON string, by `serde_json::to_string`: in quotes, with escapes
/// for quotes, backslashes and control characters, and everything else as it is.
#[verifier::external_body]
fn json_text(text: &str) -> (r: String)
    ensures
        r@ == json_string(text@),
{
    serde_json::to_string(text).unwrap_or_default()
}

/// The words for a status code, as `http::StatusCode` (named by reqwest) writes
/// it.
pub uninterp spec fn status_words(code: u16) -> Seq<char>;

/// The words for a status code, by `reqwest::StatusCode`: they are named, and
/// begin with its number and a space. Its reason phrase follows.
#[verifier::external_body]
fn status_text(code: u16) -> (r: String)
    requires
        100 <= code < 1000,
    ensures
        r@ == status_words(code),
        decimal(code as nat).push(' ').is_prefix_of(r@),
{
    reqwest::StatusCode::from_u16(code).map(|status| status.to_string()).unwrap_or_default()
}

/// The JSON of a message to a session.
pub open spec fn message_json(text: Seq<char>) -> Seq<char> {
    "{\"parts\":[{\"text\":"@ + json_string(text) + ",\"type\":\"text\"}]}"@
}

/// The JSON by which the daemon approves what a session asks for.
pub open spec fn allow_json() -> Seq<char> {
    "{\"permission\":[{\"action\":\"allow\"}]}"@
}

/// The JSON by which the daemon approves what a session asks for.
pub fn allow_patch() -> (r: &'static str)
    ensures
        r@ == allow_json(),
{
    "{\"permission\":[{\"action\":\"allow\"}]}"
}

/// The path of a session.
pub open spec fn session_path(id: Seq<char>) -> Seq<char> {
    "/session/"@ + id
}

/// The base address without slashes at its end.
pub open spec fn base_of(url: Seq<char>) -> Seq<char> {
    trim_end_by(url, the_char('/'))
}

/// An OpenCode instance at a base address.
#[derive(Clone, Debug)]
pub struct OcClient {
    pub base_url: String,
}

impl OcClient {
    /// The instance at an address, slashes at whose end do not matter.
    pub fn new(base_url: &str) -> (r: OcClient)
        ensures
            r.base_url@ == base_of(base_url@),
    {
        let chars = chars_of(base_url);
        OcClient { base_url: string_of(&trim_end_char(&chars, '/')) }
    }

    /// A request for a path.
    fn request(&self, method: Method, path: String, body: Option<String>) -> (r: ApiRequest)
        ensures
            r@ == request_of(self.base_url@, method, path@, crate::text::opt_text(body)),
    {
        ApiRequest { method, url: concat2(self.base_url.as_str(), path.as_str()), path, body }
    }

    /// The request for all sessions.
    pub fn list_sessions(&self) -> (r: ApiRequest)
        ensures
            r@ == request_of(self.base_url@, Method::Get, "/session"@, None),
    {
        self.request(Method::Get, "/session".to_string(), None)
    }

    /// The request for the statuses of sessions.
    pub fn get_session_statuses(&self) -> (r: ApiRequest)
        ensures
            r@ == request_of(self.base_url@, Method::Get, "/session/status"@, None),
    {
        self.request(Method::Get, "/session/status".to_string(), None)
    }

    /// The request for one session.
    pub fn get_session(&self, session_id: &str) -> (r: ApiRequest)
        ensures
            r@ == request_of(self.base_url@, Method::Get, session_path(session_id@), None),
    {
        self.request(Method::Get, concat2("/session/", session_id), None)
    }

    /// The request that sends a message to a session.
    pub fn send_message(&self, session_id: &str, text: &str) -> (r: ApiRequest)
        ensures
            r@ == request_of(
                self.base_url@,
                Method::Post,
                session_path(session_id@) + "/message"@,
                Some(message_json(text@)),
            ),
    {
        let quoted = json_text(text);
        let body = concat3("{\"parts\":[{\"text\":", quoted.as_str(), ",\"type\":\"text\"}]}");
        self.request(Method::Post, concat3("/session/", session_id, "/message"), Some(body))
    }

    /// The request that aborts what a session does.
    pub fn abort_session(&self, session_id: &str) -> (r: ApiRequest)
        ensures
            r@ == request_of(
                self.base_url@,
                Method::Post,
                session_path(session_id@) + "/abort"@,
                None,
            ),
    {
        self.request(Method::Post, concat3("/session/", session_id, "/abort"), None)
    }

    /// The request that changes a session by a JSON patch.
    pub fn update_session(&self, session_id: &str, patch: &str) -> (r: ApiRequest)
        ensures
            r@ == request_of(
                self.base_url@,
                Method::Patch,
                session_path(session_id@),
                Some(patch@),
            ),
    {
        self.request(Method::Patch, concat2("/session/", session_id), Some(patch.to_string()))
    }

    /// The request for the stream of events.
    pub fn subscribe_events(&self) -> (r: ApiRequest)
        ensures
            r@ == request_of(self.base_url@, Method::Get, "/event"@, None),
    {
        self.request(Method::Get, "/event".to_string(), None)
    }

    /// The state of a session by the statuses of sessions. A session without a
    /// status is idle: OpenCode only lists those that are at work.
    pub fn session_state_from_status(
        session_id: &str,
        statuses: &KeyMap<OcSessionStatus>,
    ) -> (r: SessionState)
        ensures
            r == state_in(statuses@, session_id@),
    {
        match statuses.get(session_id) {
            Some(s) => match &s.status {
                Some(text) => SessionState::from_oc_str(text.as_str()),
                None => SessionState::Idle,
            },
            None => SessionState::Idle,
        }
    }
}

/// The state of a session by the statuses of sessions.
pub open spec fn state_in(
    statuses: Map<Seq<char>, OcSessionStatus>,
    id: Seq<char>,
) -> SessionState {
    if statuses.contains_key(id) {
        match statuses[id].status {
            Some(text) => state_of_status(text@),
            None => SessionState::Idle,
        }
    } else {
        SessionState::Idle
    }
}

// ---------------------------------------------------------------------------
// Answers
// ---------------------------------------------------------------------------

/// How a request ended.
pub enum ApiReply {
    /// It could not be sent.
    NotSent,
    /// It was answered with a status code and a text.
    Answered { code: u16, body: String },
}

/// The error in words for a request that was refused with a status; the answer to
/// a refused change is part of it.
pub open spec fn refusal_of(
    method: Method,
    path: Seq<char>,
    status: Seq<char>,
    body: Seq<char>,
) -> Seq<char> {
    let report = method_word(method) + " "@ + path + " returned "@ + status;
    if method == Method::Patch {
        report + ": "@ + body
    } else {
        report
    }
}

/// The error in words for a request that was refused with a status.
pub fn refusal(request: &ApiRequest, status: &str, body: &str) -> (r: String)
    ensures
        r@ == refusal_of(request.method, request.path@, status@, body@),
{
    let report = concat5(request.method.word(), " ", request.path.as_str(), " returned ", status);
    match request.method {
        Method::Patch => concat3(report.as_str(), ": ", body),
        _ => report,
    }
}

/// What became of a request: the text of its answer, or the error in words. Only
/// codes from 200 to 299 are successes.
pub open spec fn reply_result(
    method: Method,
    url: Seq<char>,
    path: Seq<char>,
    reply: ApiReply,
) -> Result<Seq<char>, Seq<char>> {
    match reply {
        ApiReply::NotSent => Err(method_word(method) + " "@ + url + " failed"@),
        ApiReply::Answered { code, body } => if 200 <= code < 300 {
            Ok(body@)
        } else {
            Err(refusal_of(method, path, status_words(code), body@))
        },
    }
}

/// What became of a request.
pub fn reply_outcome(request: &ApiRequest, reply: ApiReply) -> (r: Result<String, String>)
    requires
        reply matches ApiReply::Answered { code, .. } ==> 100 <= code < 1000,
    ensures
        crate::ssh::manager::text_result(r) == reply_result(
            request.method,
            request.url@,
            request.path@,
            reply,
        ),
{
    match reply {
        ApiReply::NotSent => Err(
            concat4(request.method.word(), " ", request.url.as_str(), " failed"),
        ),
        ApiReply::Answered { code, body } => {
            if 200 <= code && code < 300 {
                Ok(body)
            } else {
                Err(refusal(request, status_text(code).as_str(), body.as_str()))
            }
        },
    }
}

/// What is shown of a session when an instance is looked at.
#[derive(Debug)]
pub struct SessionSummary {
    pub id: String,
    pub title: String,
    pub directory: String,
    pub state: String,
    pub uptime_secs: u64,
}

/// What is shown of sessions when an instance is looked at.
pub fn debug_query(
    sessions: &Vec<OcSession>,
    statuses: &KeyMap<OcSessionStatus>,
    now_ms: u64,
) -> (r: Vec<SessionSummary>)
    ensures
        r@.len() == sessions@.len(),
        forall|k: int|
            0 <= k < r@.len() ==> {
                &&& (#[trigger] r@[k]).id == sessions@[k].id
                &&& r@[k].title == sessions@[k].title
                &&& r@[k].directory == sessions@[k].directory
                &&& r@[k].state@ == state_name(state_in(statuses@, sessions@[k].id@))
                &&& r@[k].uptime_secs == secs_since(sessions@[k].time.created, now_ms)
            },
{
    let mut out: Vec<SessionSummary> = Vec::new();
    for i in 0..sessions.len()
        invariant
            out@.len() == i,
            forall|k: int|
                0 <= k < i ==> {
                    &&& (#[trigger] out@[k]).id == sessions@[k].id
                    &&& out@[k].title == sessions@[k].title
                    &&& out@[k].directory == sessions@[k].directory
                    &&& out@[k].state@ == state_name(state_in(statuses@, sessions@[k].id@))
                    &&& out@[k].uptime_secs == secs_since(sessions@[k].time.created, now_ms)
                },
    {
        let s = &sessions[i];
        let state = OcClient::session_state_from_status(s.id.as_str(), statuses);
        out.push(
            SessionSummary {
                id: s.id.clone(),
                title: s.title.clone(),
                directory: s.directory.clone(),
                state: state.name().to_string(),
                uptime_secs: s.uptime_secs(now_ms),
            },
        );
    }
    out
}

/// The base address ends in no slash, and making it again changes nothing.
pub proof fn law_base_has_no_slash(url: Seq<char>)
    ensures
        base_of(url).len() > 0 ==> base_of(url).last() != '/',
        base_of(base_of(url)) == base_of(url),
    decreases url.len(),
{
    if url.len() > 0 && url.last() == '/' {
        law_base_has_no_slash(url.drop_last());
    }
}

/// A request goes to a path of the server.
pub proof fn law_request_goes_to_its_path(
    base: Seq<char>,
    method: Method,
    path: Seq<char>,
    body: Option<Seq<char>>,
)
    ensures
        ({
            let r = request_of(base, method, path, body);
            &&& r.method == method
            &&& r.url.take(base.len() as int) == base
            &&& r.url.skip(base.len() as int) == path
            &&& r.path == path
            &&& r.body == body
        }),
{
    let url = base + path;
    assert(url.take(base.len() as int) =~= base);
    assert(url.skip(base.len() as int) =~= path);
}

/// A session is in the state that the server's text for its ID is read as; one of
/// which the server says nothing is idle.
pub proof fn law_silent_server_means_idle(
    statuses: Map<Seq<char>, OcSessionStatus>,
    id: Seq<char>,
)
    ensures
        !statuses.contains_key(id) ==> state_in(statuses, id) == SessionState::Idle,
        statuses.contains_key(id) && statuses[id].status is None ==> state_in(statuses, id)
            == SessionState::Idle,
        statuses.contains_key(id) && statuses[id].status is Some ==> state_in(statuses, id)
            == state_of_status(statuses[id].status->0@),
{
}

/// A reply is good if and only if it came with a code from 200 to 299, and then it
/// is the body.
pub proof fn law_reply_is_good_by_its_code(
    method: Method,
    url: Seq<char>,
    path: Seq<char>,
    reply: ApiReply,
)
    ensures
        match reply {
            ApiReply::NotSent => reply_result(method, url, path, reply) is Err,
            ApiReply::Answered { code, body } => {
                &&& 200 <= code <= 299 ==> reply_result(method, url, path, reply) == Ok::<
                    Seq<char>,
                    Seq<char>,
                >(body@)
                &&& code < 200 || code > 299 ==> reply_result(method, url, path, reply) is Err
            },
        },
{
}

/// An error says what was asked for: the address where nothing could be sent, else
/// the path and the status; where a patch was refused, the body follows.
pub proof fn law_refusal_says_what_was_refused(
    method: Method,
    url: Seq<char>,
    path: Seq<char>,
    code: u16,
    body: String,
)
    requires
        code < 200 || code > 299,
    ensures
        reply_result(method, url, path, ApiReply::NotSent)->Err_0 == method_word(method) + " "@
            + url + " failed"@,
        method != Method::Patch ==> reply_result(
            method,
            url,
            path,
            ApiReply::Answered { code, body },
        )->Err_0 == method_word(method) + " "@ + path + " returned "@ + status_words(code),
        method == Method::Patch ==> reply_result(
            method,
            url,
            path,
            ApiReply::Answered { code, body },
        )->Err_0 == method_word(method) + " "@ + path + " returned "@ + status_words(code) + ": "@
            + body@,
{
}

/// The three methods go by their names.
pub proof fn law_methods_by_name(m: Method)
    ensures
        m == Method::Get ==> method_word(m) == "GET"@,
        m == Method::Post ==> method_word(m) == "POST"@,
        m == Method::Patch ==> method_word(m) == "PATCH"@,
{
}

/// The seconds since a time are whole ones, and none where the time is to come.
pub proof fn law_whole_seconds_since(then_ms: u64, now_ms: u64)
    ensures
        now_ms <= then_ms ==> secs_since(then_ms, now_ms) == 0,
        now_ms >= then_ms ==> secs_since(then_ms, now_ms) * 1000 <= now_ms - then_ms < (secs_since(
            then_ms,
            now_ms,
        ) + 1) * 1000,
{
}

/// A message carries its text as one part.
pub proof fn law_message_carries_its_text(text: Seq<char>)
    ensures
        starts_with(message_json(text), "{\"parts\":[{\"text\":"@),
        ends_with(message_json(text), ",\"type\":\"text\"}]}"@),
        contains_text(message_json(text), json_string(text)),
        message_json(text).len() == "{\"parts\":[{\"text\":"@.len() + json_string(text).len()
            + ",\"type\":\"text\"}]}"@.len(),
{
    let head = "{\"parts\":[{\"text\":"@;
    let tail = ",\"type\":\"text\"}]}"@;
    law_parts_are_seen(head, head, json_string(text) + tail);
    assert(head + json_string(text) + tail =~= head + (json_string(text) + tail));
    law_parts_are_seen(head + json_string(text), tail, Seq::empty());
    law_parts_are_seen(head, json_string(text), tail);
}

/// The path of a session ends in its ID.
pub proof fn law_session_path_names_the_session(id: Seq<char>)
    ensures
        session_path(id) == "/session/"@ + id,
        strip_prefix(session_path(id), "/session/"@) == Some(id),
{
    law_parts_are_seen(Seq::empty(), "/session/"@, id);
}

/// In JSON a text stands between quotes; quotes, backslashes and control characters
/// are escaped, and all other characters stand for themselves.
pub proof fn law_json_escapes(a: Seq<char>, c: char, b: Seq<char>)
    ensures
        json_chars(Seq::empty()).len() == 0,
        json_chars(a + b) == json_chars(a) + json_chars(b),
        json_string(a) == seq!['"'] + json_chars(a) + seq!['"'],
        c != '"' && c != '\\' && c as u32 >= 32 ==> json_chars(seq![c]) == seq![c],
        c == '"' || c == '\\' ==> json_chars(seq![c]) == seq!['\\', c],
        (c as u32) < 32 ==> json_chars(seq![c])[0] == '\\',
        json_chars(seq!['\n']) == seq!['\\', 'n'],
        json_chars(seq!['\t']) == seq!['\\', 't'],
        json_chars(seq!['\r']) == seq!['\\', 'r'],
    decreases b.len(),
{
    assert(seq![c].drop_last() =~= Seq::<char>::empty());
    assert(json_chars(seq![c].drop_last()) =~= Seq::<char>::empty());
    assert(json_chars(seq![c]) =~= json_char(c));
    lemma_json_of_one('\n');
    lemma_json_of_one('\t');
    lemma_json_of_one('\r');
    if b.len() == 0 {
        assert(a + b =~= a);
        assert(json_chars(a + b) =~= json_chars(a) + json_chars(b));
    } else {
        law_json_escapes(a, c, b.drop_last());
        assert((a + b).drop_last() =~= a + b.drop_last());
        assert((a + b).last() == b.last());
        assert(json_chars(a + b) =~= json_chars(a) + json_chars(b));
    }
}

proof fn lemma_json_of_one(c: char)
    ensures
        json_chars(seq![c]) == json_char(c),
{
    assert(seq![c].drop_last() =~= Seq::<char>::empty());
    assert(json_chars(seq![c].drop_last()) =~= Seq::<char>::empty());
    assert(json_chars(seq![c]) =~= json_char(c));
}

/// Other control characters are spelled out by four hexadecimal digits in lower
/// case.
pub proof fn law_json_spells_out_controls(d: int)
    ensures
        0 <= d < 10 ==> hex_digit(d) == (48 + d) as char,
        10 <= d < 16 ==> hex_digit(d) == (87 + d) as char,
        json_chars(seq!['\u{1f}']) == seq!['\\', 'u', '0', '0', '1', 'f'],
        json_chars(seq!['\u{1}']) == seq!['\\', 'u', '0', '0', '0', '1'],
{
    lemma_json_of_one('\u{1f}');
    lemma_json_of_one('\u{1}');
}

} // verus!
