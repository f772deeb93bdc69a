//! The OpenAI-compatible ingress: who a request is from, where it is routed, and
//! how a serving process's messages become a response.
//!
//! A process's first message is its status. A streaming request then gets one
//! ready-made chunk per message; any other gets exactly one body.

use vstd::arithmetic::power::pow;
use vstd::prelude::*;
use vstd::string::*;
use vstd::utf8::encode_utf8;

use crate::format::{dec, hex, lemma_hex_injective, push_hex};
use crate::json::{
    array1, from_text, get_str, json_body, json_text, json_value, member, member_of, natural,
    read_body, str_member, string, to_text, tree, Object, Tree,
};
use crate::replay::opt_text;
use crate::serving::error::{error_body, error_tree};
use crate::serving::laws::{
    at, law_an_error_reads_back, lemma_choice_keys, lemma_message_keys, nth,
};
use crate::serving::streaming::{obj, ChunkMeta};
use crate::text::{cat2, chars_of, lossy, same, starts_at, string_of, tail};

verus! {

/// The program that serves chat requests, by its full name.
pub const CHAT_INFERLET: &'static str = "chat-completions@0.1.0";

/// How long a process may be silent before a keepalive chunk is sent, in
/// seconds: under the tightest client's budget.
pub const KEEPALIVE_SECONDS: u64 = 15;

// ---------------------------------------------------------------------------
// Hashing
// ---------------------------------------------------------------------------

/// The BLAKE3 digest of bytes.
pub uninterp spec fn blake3_digest(bytes: Seq<u8>) -> Seq<u8>;

/// `blake3::hash`: the 32 bytes of the digest, which depend on the input alone.
#[verifier::external_body]
fn blake3_hash(bytes: &[u8]) -> (r: [u8; 32])
    ensures
        r@ == blake3_digest(bytes@),
{
    *blake3::hash(bytes).as_bytes()
}

/// The number that eight bytes spell, least significant first.
pub open spec fn little_endian(b: Seq<u8>, n: int) -> int
    decreases n,
{
    if n <= 0 {
        0
    } else {
        little_endian(b.skip(1), n - 1) * 256 + b[0]
    }
}

/// A session's routing key.
pub open spec fn session_key(session: Seq<char>) -> int {
    little_endian(blake3_digest(encode_utf8(session)), 8)
}

fn key_of(session: &str) -> (r: u64)
    ensures
        r == session_key(session@),
{
    let d = blake3_hash(session.as_bytes());
    let ghost b = d@;
    let mut r: u64 = 0;
    let mut i: usize = 8;
    proof {
        assert(little_endian(b.skip(8), 0) == 0);
    }
    while i > 0
        invariant
            i <= 8,
            b == d@,
            b.len() == 32,
            r == little_endian(b.skip(i as int), 8 - i),
            i == 8 ==> r == 0,
            i == 7 ==> r < 0x100,
            i == 6 ==> r < 0x1_0000,
            i == 5 ==> r < 0x100_0000,
            i == 4 ==> r < 0x1_0000_0000,
            i == 3 ==> r < 0x100_0000_0000,
            i == 2 ==> r < 0x1_0000_0000_0000,
            i == 1 ==> r < 0x100_0000_0000_0000,
        decreases i,
    {
        proof {
            assert(b.skip(i - 1).skip(1) =~= b.skip(i as int));
            assert(b.skip(i - 1)[0] == b[i - 1]);
        }
        r = r * 256 + d[i - 1] as u64;
        i -= 1;
    }
    proof {
        assert(b.skip(0) =~= b);
    }
    r
}

// ---------------------------------------------------------------------------
// Headers
// ---------------------------------------------------------------------------

/// A request header: its lower-case name, and its value where that is readable
/// text.
pub struct Header {
    pub name: String,
    pub text: Option<String>,
}

/// What headers hold.
pub open spec fn headers_view(h: Seq<Header>) -> Seq<(Seq<char>, Option<Seq<char>>)> {
    h.map_values(|x: Header| (x.name@, opt_text(x.text)))
}

/// The first header of a name, as its readable text; `None` where there is no
/// such header.
pub open spec fn header_of(h: Seq<(Seq<char>, Option<Seq<char>>)>, name: Seq<char>) -> Option<
    Option<Seq<char>>,
>
    decreases h.len(),
{
    if h.len() == 0 {
        None
    } else if h[0].0 == name {
        Some(h[0].1)
    } else {
        header_of(h.skip(1), name)
    }
}

/// The readable text of the first header of a name.
pub open spec fn header_text(h: Seq<(Seq<char>, Option<Seq<char>>)>, name: Seq<char>) -> Option<
    Seq<char>,
> {
    match header_of(h, name) {
        Some(t) => t,
        None => None,
    }
}

fn find_header(headers: &[Header], name: &str) -> (r: Option<usize>)
    ensures
        match r {
            Some(i) => i < headers@.len() && header_of(headers_view(headers@), name@) == Some(
                opt_text(headers@[i as int].text),
            ),
            None => header_of(headers_view(headers@), name@) is None,
        },
{
    let ghost h = headers_view(headers@);
    let mut i: usize = 0;
    proof {
        assert(h.skip(0) =~= h);
    }
    while i < headers.len()
        invariant
            i <= headers@.len(),
            h == headers_view(headers@),
            header_of(h, name@) == header_of(h.skip(i as int), name@),
        decreases headers.len() - i,
    {
        proof {
            assert(h.skip(i as int)[0] == h[i as int]);
            assert(h.skip(i as int).skip(1) =~= h.skip(i + 1));
        }
        if same(headers[i].name.as_str(), name) {
            return Some(i);
        }
        i += 1;
    }
    None
}

fn get_header<'a>(headers: &'a [Header], name: &str) -> (r: Option<&'a str>)
    ensures
        match r {
            Some(s) => header_text(headers_view(headers@), name@) == Some(s@),
            None => header_text(headers_view(headers@), name@) is None,
        },
{
    match find_header(headers, name) {
        Some(i) => match &headers[i].text {
            Some(s) => Some(s.as_str()),
            None => None,
        },
        None => None,
    }
}

// ---------------------------------------------------------------------------
// Identity
// ---------------------------------------------------------------------------

/// Where a request's identity comes from.
pub enum IdentitySource {
    /// The trust edge set it: it is read from the request's own headers.
    Edge,
    /// It is derived from the bearer token: this identity, with the tracing
    /// headers that the request has carried through.
    Bearer { identity: String, forwarded_for: bool, request_id: bool },
}

/// The token of a bearer authorization.
pub open spec fn bearer_of(authorization: Option<Seq<char>>) -> Option<Seq<char>> {
    match authorization {
        Some(v) => if v.len() > 7 && v.take(7) == "Bearer "@ {
            Some(v.skip(7))
        } else {
            None
        },
        None => None,
    }
}

/// The identity of a token: keyed by a digest prefix, so that keys are told
/// apart without keeping the secret.
pub open spec fn token_identity(token: Seq<char>) -> Seq<char> {
    let d = blake3_digest(encode_utf8(token));
    "default/key-"@ + hex(d[0] as nat, 2) + hex(d[1] as nat, 2) + hex(d[2] as nat, 2) + hex(
        d[3] as nat,
        2,
    )
}

fn identity_of(token: &str) -> (r: String)
    ensures
        r@ == token_identity(token@),
{
    let d = blake3_hash(token.as_bytes());
    let mut r = "default/key-".to_owned();
    push_hex(&mut r, d[0] as u64, 2);
    push_hex(&mut r, d[1] as u64, 2);
    push_hex(&mut r, d[2] as u64, 2);
    push_hex(&mut r, d[3] as u64, 2);
    r
}

/// Where a request's identity comes from: the edge header where it is set,
/// otherwise the bearer token. The token is not verified here: that is the
/// edge's concern.
pub fn extract_identity(headers: &[Header]) -> (r: Result<IdentitySource, String>)
    ensures
        ({
            let h = headers_view(headers@);
            let edge = header_of(h, "x-pie-identity"@) is Some;
            let token = bearer_of(header_text(h, "authorization"@));
            match r {
                Ok(IdentitySource::Edge) => edge,
                Ok(IdentitySource::Bearer { identity, forwarded_for, request_id }) => !edge
                    && token is Some && identity@ == token_identity(token->0) && forwarded_for == (
                header_of(h, "x-forwarded-for"@) is Some) && request_id == (header_of(
                    h,
                    "x-request-id"@,
                ) is Some),
                Err(e) => !edge && token is None && e@
                    == "missing Authorization: Bearer or x-pie-identity"@,
            }
        }),
        r matches Ok(IdentitySource::Edge) <==> exists|i: int|
            0 <= i < headers@.len() && (#[trigger] headers@[i]).name@ == "x-pie-identity"@,
        r matches Ok(IdentitySource::Bearer { identity, .. }) ==> exists|i: int, t: Seq<char>|
            0 <= i < headers@.len() && (#[trigger] headers@[i]).name@ == "authorization"@
                && opt_text(headers@[i].text) == Some("Bearer "@ + t) && t.len() > 0 && identity@
                == #[trigger] token_identity(t),
{
    proof {
        lemma_header_is_there(headers@, "x-pie-identity"@);
        lemma_header_is_there(headers@, "authorization"@);
    }
    if find_header(headers, "x-pie-identity").is_some() {
        return Ok(IdentitySource::Edge);
    }
    match get_header(headers, "authorization") {
        Some(v) => {
            let s = chars_of(v);
            let scheme = chars_of("Bearer ");
            proof {
                reveal_strlit("Bearer ");
                if s@.len() >= 7 {
                    assert(s@.subrange(0, 7) =~= s@.take(7));
                }
            }
            if s.len() > 7 && starts_at(s.as_slice(), scheme.as_slice(), 0) {
                let token = string_of(tail(s.as_slice(), 7).as_slice());
                proof {
                    law_a_bearer_token_stands_behind_its_word(v@, token@);
                }
                return Ok(
                    IdentitySource::Bearer {
                        identity: identity_of(token.as_str()),
                        forwarded_for: find_header(headers, "x-forwarded-for").is_some(),
                        request_id: find_header(headers, "x-request-id").is_some(),
                    },
                );
            }
        },
        None => {},
    }
    Err("missing Authorization: Bearer or x-pie-identity".to_owned())
}

// ---------------------------------------------------------------------------
// Affinity
// ---------------------------------------------------------------------------

/// A header's text, where it is readable and not empty.
pub open spec fn header_name(h: Seq<(Seq<char>, Option<Seq<char>>)>, name: Seq<char>) -> Option<
    Seq<char>,
> {
    match header_text(h, name) {
        Some(s) => if s.len() > 0 {
            Some(s)
        } else {
            None
        },
        None => None,
    }
}

/// The session of a request's headers: the first of these that names one. An
/// empty value is ignored.
pub open spec fn session_header(h: Seq<(Seq<char>, Option<Seq<char>>)>) -> Option<Seq<char>> {
    match header_name(h, "x-session-affinity"@) {
        Some(s) => Some(s),
        None => match header_name(h, "x-session-id"@) {
            Some(s) => Some(s),
            None => header_name(h, "session_id"@),
        },
    }
}

/// The session that a request names: by its headers, or in its body.
pub open spec fn session_of(h: Seq<(Seq<char>, Option<Seq<char>>)>, body: Tree) -> Option<Seq<char>> {
    match session_header(h) {
        Some(s) => Some(s),
        None => body_session(body),
    }
}

/// The session that a body names.
pub open spec fn body_session(body: Tree) -> Option<Seq<char>> {
    match str_member(body, "prompt_cache_key"@) {
        Some(s) => if s.len() > 0 {
            Some(s)
        } else {
            None
        },
        None => None,
    }
}

fn named_header<'a>(headers: &'a [Header], name: &str) -> (r: Option<&'a str>)
    ensures
        match r {
            Some(s) => header_name(headers_view(headers@), name@) == Some(s@),
            None => header_name(headers_view(headers@), name@) is None,
        },
{
    match get_header(headers, name) {
        Some(s) => if s.is_empty() {
            None
        } else {
            Some(s)
        },
        None => None,
    }
}

/// The routing key of a request's session, so that the turns of a session land
/// where its state is; none without a session, which spreads the load.
pub fn extract_affinity_key(headers: &[Header], body: &serde_json::Value) -> (r: Option<u64>)
    ensures
        match r {
            Some(k) => session_of(headers_view(headers@), tree(*body)) is Some && k == session_key(
                session_of(headers_view(headers@), tree(*body))->0,
            ),
            None => session_of(headers_view(headers@), tree(*body)) is None,
        },
{
    let named = match named_header(headers, "x-session-affinity") {
        Some(s) => Some(s),
        None => match named_header(headers, "x-session-id") {
            Some(s) => Some(s),
            None => named_header(headers, "session_id"),
        },
    };
    if let Some(s) = named {
        return Some(key_of(s));
    }
    match get_str(body, "prompt_cache_key") {
        Some(s) => if s.is_empty() {
            None
        } else {
            Some(key_of(s))
        },
        None => None,
    }
}

// ---------------------------------------------------------------------------
// Admission
// ---------------------------------------------------------------------------

/// An answer in one piece: a status and a JSON body.
pub struct Answer {
    pub status: u16,
    pub body: String,
}

/// What an answer holds.
pub open spec fn answer_is(a: Answer, status: u16, body: Seq<char>) -> bool {
    a.status == status && a.body@ == body
}

/// An error answer's body.
pub open spec fn error_json(message: Seq<char>, error_type: Seq<char>) -> Seq<char> {
    json_text(error_tree(error_type, message))
}

fn error_answer(status: u16, message: &str, error_type: &str) -> (r: Answer)
    ensures
        answer_is(r, status, error_json(message@, error_type@)),
{
    let v = error_body(error_type, message);
    Answer { status, body: to_text(&v) }
}

/// How an accepted request is launched.
pub struct Admission {
    /// The body, which the program reads as it was sent.
    pub input: String,
    pub stream: bool,
    /// The session's routing key; none spreads the load.
    pub affinity: Option<u64>,
}

/// The identity failed: the answer.
pub fn refuse_identity(message: &str) -> (r: Answer)
    ensures
        answer_is(r, 401, error_json(message@, "authentication_error"@)),
{
    error_answer(401, message, "authentication_error")
}

/// No worker took the request: the answer.
pub fn refuse_admission(message: &str) -> (r: Answer)
    ensures
        answer_is(r, 503, error_json("admission: "@ + message@, "server_error"@)),
{
    let m = cat2("admission: ", message);
    error_answer(503, m.as_str(), "server_error")
}

/// Whether a parsed body asks to stream.
pub open spec fn wants_stream(body: Tree) -> bool {
    match member_of(body, "stream"@) {
        Some(Tree::Bool(b)) => b,
        _ => false,
    }
}

/// How a request of a parsed body is launched, with its text as the input, or the
/// answer to one that is refused without a launch.
pub fn accept_value(headers: &[Header], body: Result<serde_json::Value, String>, input: String) -> (r:
    Result<Admission, Answer>)
    ensures
        match body {
            Ok(v) => if tree(v) is Obj {
                r is Ok && r->Ok_0.input == input && r->Ok_0.stream == wants_stream(tree(v)) && (
                match r->Ok_0.affinity {
                    Some(k) => session_of(headers_view(headers@), tree(v)) is Some && k
                        == session_key(session_of(headers_view(headers@), tree(v))->0),
                    None => session_of(headers_view(headers@), tree(v)) is None,
                })
            } else {
                r is Err && answer_is(
                    r->Err_0,
                    400,
                    error_json("request body must be a JSON object"@, "invalid_request_error"@),
                )
            },
            Err(e) => r is Err && answer_is(
                r->Err_0,
                400,
                error_json("invalid JSON: "@ + e@, "invalid_request_error"@),
            ),
        },
{
    match body {
        Ok(v) => {
            if v.is_object() {
                let stream = match crate::json::get_bool(&v, "stream") {
                    Some(b) => b,
                    None => false,
                };
                Ok(Admission { input, stream, affinity: extract_affinity_key(headers, &v) })
            } else {
                Err(
                    error_answer(
                        400,
                        "request body must be a JSON object",
                        "invalid_request_error",
                    ),
                )
            }
        },
        Err(e) => {
            let m = cat2("invalid JSON: ", e.as_str());
            Err(error_answer(400, m.as_str(), "invalid_request_error"))
        },
    }
}

/// How a request is launched, or the answer to one that is refused without a
/// launch. The program gets the body verbatim.
pub fn chat_completions(headers: &[Header], body: &[u8]) -> (r: Result<Admission, Answer>)
    ensures
        match json_body(body@) {
            Ok(t) => if t is Obj {
                r is Ok && encode_utf8(r->Ok_0.input@) == body@ && r->Ok_0.stream == wants_stream(
                    t,
                ) && (match r->Ok_0.affinity {
                    Some(k) => session_of(headers_view(headers@), t) is Some && k == session_key(
                        session_of(headers_view(headers@), t)->0,
                    ),
                    None => session_of(headers_view(headers@), t) is None,
                })
            } else {
                r is Err && answer_is(
                    r->Err_0,
                    400,
                    error_json("request body must be a JSON object"@, "invalid_request_error"@),
                )
            },
            Err(e) => r is Err && answer_is(
                r->Err_0,
                400,
                error_json("invalid JSON: "@ + e, "invalid_request_error"@),
            ),
        },
{
    accept_value(headers, read_body(body), lossy(body))
}

/// The answer to a liveness probe.
pub fn health() -> (r: &'static str)
    ensures
        r@ == "ok"@,
{
    "ok"
}

/// The models listing: one opaque name that the server echoes.
pub fn models() -> (v: serde_json::Value)
    ensures
        tree(v) == Tree::Obj(
            obj().insert("object"@, Tree::Str("list"@)).insert(
                "data"@,
                Tree::Arr(
                    seq![
                        Tree::Obj(
                            obj().insert("id"@, Tree::Str("pie"@)).insert(
                                "object"@,
                                Tree::Str("model"@),
                            ).insert("created"@, Tree::Int(0)).insert(
                                "owned_by"@,
                                Tree::Str("pie"@),
                            ),
                        ),
                    ],
                ),
            ),
        ),
{
    let mut m = Object::new();
    m.put("id", string("pie"));
    m.put("object", string("model"));
    m.put("created", natural(0));
    m.put("owned_by", string("pie"));
    let mut o = Object::new();
    o.put("object", string("list"));
    o.put("data", array1(m.build()));
    o.build()
}

// ---------------------------------------------------------------------------
// Messages of a process
// ---------------------------------------------------------------------------

/// What arrives from a process.
pub enum Arrival {
    /// The acknowledgement of the launch, or a failure.
    Response { ok: bool, result: String },
    /// An event of the process by its name.
    ProcessEvent { event: String, value: String },
    File,
    /// The clean end of the turn.
    Eos,
    /// The channel closed.
    Closed,
}

/// A meaningful message of a process.
pub enum Msg {
    /// What the process sent.
    Payload(String),
    /// A failed launch or an error of the process: a genuine fault.
    Fault(String),
    /// The clean end of the turn.
    Eos,
    /// The channel closed without one.
    Aborted,
}

/// The message that an arrival is; none for acknowledgements, files and what a
/// process prints, which are not wire data.
pub fn classify(a: Arrival) -> (r: Option<Msg>)
    ensures
        match a {
            Arrival::Response { ok, result } => if ok {
                r is None
            } else {
                r == Some(Msg::Fault(result))
            },
            Arrival::ProcessEvent { event, value } => if event@ == "message"@ {
                r == Some(Msg::Payload(value))
            } else if event@ == "error"@ {
                r == Some(Msg::Fault(value))
            } else {
                r is None
            },
            Arrival::File => r is None,
            Arrival::Eos => r == Some(Msg::Eos),
            Arrival::Closed => r == Some(Msg::Aborted),
        },
{
    match a {
        Arrival::Response { ok, result } => if ok {
            None
        } else {
            Some(Msg::Fault(result))
        },
        Arrival::ProcessEvent { event, value } => {
            if same(event.as_str(), "message") {
                Some(Msg::Payload(value))
            } else if same(event.as_str(), "error") {
                Some(Msg::Fault(value))
            } else {
                None
            }
        },
        Arrival::File => None,
        Arrival::Eos => Some(Msg::Eos),
        Arrival::Closed => Some(Msg::Aborted),
    }
}

/// The status of a first message: an object with a status from 100 up to 999.
pub open spec fn status_of(payload: Seq<char>) -> Option<int> {
    match json_value(payload) {
        Some(t) => match member_of(t, "status"@) {
            Some(Tree::Int(n)) => if 100 <= n <= 999 {
                Some(n)
            } else {
                None
            },
            _ => None,
        },
        None => None,
    }
}

/// The status of a first message.
pub fn parse_status(payload: &str) -> (r: Option<u16>)
    ensures
        match r {
            Some(s) => status_of(payload@) == Some(s as int),
            None => status_of(payload@) is None,
        },
{
    match from_text(payload) {
        Some(v) => match member(&v, "status") {
            Some(m) => match m.as_u64() {
                Some(n) => if n >= 100 && n <= 999 {
                    Some(n as u16)
                } else {
                    None
                },
                None => None,
            },
            None => None,
        },
        None => None,
    }
}

/// The error of a process that broke the contract.
pub const BAD_STATUS: &'static str = "inferlet broke the envelope contract (bad status header)";

fn server_error(message: &str) -> (r: Answer)
    ensures
        answer_is(r, 500, error_json(message@, "server_error"@)),
{
    error_answer(500, message, "server_error")
}

// ---------------------------------------------------------------------------
// Responses in one piece
// ---------------------------------------------------------------------------

/// Where a response in one piece stands: before its status, or before its body.
#[derive(Clone, Copy, Debug, PartialEq, Eq, Structural)]
pub enum Unary {
    Head,
    Body(u16),
}

/// What follows a message of a response in one piece.
pub enum UnaryStep {
    Wait(Unary),
    Respond(Answer),
}

/// What follows a message of a response in one piece: the status comes first,
/// then exactly one body; anything else is a server fault.
pub fn unary_step(at: Unary, msg: Msg) -> (r: UnaryStep)
    ensures
        match at {
            Unary::Head => match msg {
                Msg::Payload(p) => match status_of(p@) {
                    Some(s) => r == UnaryStep::Wait(Unary::Body(s as u16)),
                    None => r is Respond && answer_is(
                        r->Respond_0,
                        500,
                        error_json(BAD_STATUS@, "server_error"@),
                    ),
                },
                Msg::Fault(e) => r is Respond && answer_is(
                    r->Respond_0,
                    500,
                    error_json(e@, "server_error"@),
                ),
                _ => r is Respond && answer_is(
                    r->Respond_0,
                    500,
                    error_json("inferlet ended without a response"@, "server_error"@),
                ),
            },
            Unary::Body(s) => match msg {
                Msg::Payload(p) => r is Respond && answer_is(r->Respond_0, s, p@),
                Msg::Fault(e) => r is Respond && answer_is(
                    r->Respond_0,
                    500,
                    error_json(e@, "server_error"@),
                ),
                _ => r is Respond && answer_is(
                    r->Respond_0,
                    500,
                    error_json("inferlet ended without a response body"@, "server_error"@),
                ),
            },
        },
        r is Wait <==> at is Head && msg is Payload && status_of(msg->Payload_0@) is Some,
        r matches UnaryStep::Respond(a) ==> a.status == 500 || (at is Body && msg is Payload),
{
    match at {
        Unary::Head => match msg {
            Msg::Payload(p) => match parse_status(p.as_str()) {
                Some(s) => UnaryStep::Wait(Unary::Body(s)),
                None => UnaryStep::Respond(server_error(BAD_STATUS)),
            },
            Msg::Fault(e) => UnaryStep::Respond(server_error(e.as_str())),
            _ => UnaryStep::Respond(server_error("inferlet ended without a response")),
        },
        Unary::Body(s) => match msg {
            Msg::Payload(p) => UnaryStep::Respond(Answer { status: s, body: p }),
            Msg::Fault(e) => UnaryStep::Respond(server_error(e.as_str())),
            _ => UnaryStep::Respond(server_error("inferlet ended without a response body")),
        },
    }
}

// ---------------------------------------------------------------------------
// Streams
// ---------------------------------------------------------------------------

/// What the chunks of a stream repeat: id, model and time.
pub type ChunkIdentity = (Seq<char>, Seq<char>, int);

/// What an identity holds.
pub open spec fn identity_view(m: Option<(String, String, i64)>) -> Option<ChunkIdentity> {
    match m {
        Some(x) => Some((x.0@, x.1@, x.2 as int)),
        None => None,
    }
}

/// The identity that a chunk carries: one needs an id and a model.
pub open spec fn identity_in(payload: Seq<char>) -> Option<ChunkIdentity> {
    match json_value(payload) {
        Some(t) => match (str_member(t, "id"@), str_member(t, "model"@)) {
            (Some(id), Some(model)) => Some(
                (
                    id,
                    model,
                    match member_of(t, "created"@) {
                        Some(Tree::Int(n)) => if i64::MIN <= n <= i64::MAX {
                            n
                        } else {
                            0
                        },
                        _ => 0,
                    },
                ),
            ),
            _ => None,
        },
        None => None,
    }
}

/// The identity of a stream behind a payload: the first one stays.
pub open spec fn noted(m: Option<ChunkIdentity>, payload: Seq<char>) -> Option<ChunkIdentity> {
    match m {
        Some(x) => Some(x),
        None => identity_in(payload),
    }
}

/// Remembers a stream's identity from the first payload that carries one.
pub fn note_chunk_meta(meta: &mut Option<(String, String, i64)>, payload: &str)
    ensures
        identity_view(*final(meta)) == noted(identity_view(*old(meta)), payload@),
{
    if meta.is_some() {
        return ;
    }
    match from_text(payload) {
        Some(v) => match get_str(&v, "id") {
            Some(id) => match get_str(&v, "model") {
                Some(model) => {
                    let created = match member(&v, "created") {
                        Some(c) => match c.as_i64() {
                            Some(n) => n,
                            None => 0,
                        },
                        None => 0,
                    };
                    *meta = Some((id.to_owned(), model.to_owned(), created));
                },
                None => {},
            },
            None => {},
        },
        None => {},
    }
}

/// A keepalive chunk: an empty delta under the stream's identity, or under a
/// placeholder before there is one. Clients' watchdogs count parsed chunks, so a
/// comment would not do.
pub open spec fn keepalive_of(m: Option<ChunkIdentity>) -> Seq<char> {
    let i = match m {
        Some(x) => x,
        None => ("chatcmpl-keepalive"@, "pie"@, 0),
    };
    let choice = obj().insert("index"@, Tree::Int(0)).insert("delta"@, Tree::Obj(obj())).insert(
        "logprobs"@,
        Tree::Null,
    ).insert("finish_reason"@, Tree::Null);
    json_text(
        Tree::Obj(
            obj().insert("id"@, Tree::Str(i.0)).insert(
                "object"@,
                Tree::Str("chat.completion.chunk"@),
            ).insert("created"@, Tree::Int(i.2)).insert("model"@, Tree::Str(i.1)).insert(
                "choices"@,
                Tree::Arr(seq![Tree::Obj(choice)]),
            ),
        ),
    )
}

/// A keepalive chunk.
pub fn keepalive_chunk(meta: &Option<(String, String, i64)>) -> (r: String)
    ensures
        r@ == keepalive_of(identity_view(*meta)),
{
    let m = match meta {
        Some(x) => ChunkMeta { id: x.0.clone(), model: x.1.clone(), created: x.2 },
        None => ChunkMeta { id: "chatcmpl-keepalive".to_owned(), model: "pie".to_owned(), created: 0 },
    };
    let v = m.keepalive();
    to_text(&v)
}

/// Where a streaming response stands.
pub enum StreamState {
    /// Before its status.
    Head,
    /// Rejected before it began: before the error body.
    Rejected(u16),
    /// Chunks are on the wire.
    Streaming(Option<(String, String, i64)>),
    End,
}

/// What a stream waits for: a message, or the keepalive interval to pass.
pub enum StreamInput {
    Message(Msg),
    Silence,
}

/// One event of a stream; a named one is an error.
pub struct Frame {
    pub error: bool,
    pub data: String,
}

/// What follows an input of a streaming response.
pub enum StreamStep {
    /// Nothing to send yet.
    Wait(StreamState),
    /// Not a stream after all.
    Respond(Answer),
    /// Send an event and go on.
    Emit(Frame, StreamState),
    /// Nothing more.
    Finished,
}

/// An event, and where the stream stands behind it.
pub open spec fn emits(r: StreamStep, error: bool, data: Seq<char>, end: bool) -> bool {
    r matches StreamStep::Emit(f, s) && f.error == error && f.data@ == data && (s is End) == end
        && (!end ==> s is Streaming)
}

/// What follows an input of a streaming response. A status that is no success
/// makes it an answer in one piece; once chunks are on the wire, a fault is an
/// error event, and only a clean end is announced as done.
pub fn stream_step(at: StreamState, input: StreamInput) -> (r: StreamStep)
    ensures
        match (at, input) {
            (StreamState::Head, StreamInput::Message(Msg::Payload(p))) => match status_of(p@) {
                Some(s) => if 200 <= s < 300 {
                    r == StreamStep::Wait(StreamState::Streaming(None))
                } else {
                    r == StreamStep::Wait(StreamState::Rejected(s as u16))
                },
                None => r is Respond && answer_is(
                    r->Respond_0,
                    500,
                    error_json(BAD_STATUS@, "server_error"@),
                ),
            },
            (StreamState::Head, StreamInput::Message(Msg::Fault(e))) => r is Respond && answer_is(
                r->Respond_0,
                500,
                error_json(e@, "server_error"@),
            ),
            (StreamState::Head, StreamInput::Message(_)) => r is Respond && answer_is(
                r->Respond_0,
                500,
                error_json("inferlet ended before responding"@, "server_error"@),
            ),
            (StreamState::Rejected(s), StreamInput::Message(Msg::Payload(p))) => r is Respond
                && answer_is(r->Respond_0, s, p@),
            (StreamState::Rejected(s), StreamInput::Message(_)) => r is Respond && answer_is(
                r->Respond_0,
                s,
                error_json("request rejected"@, "invalid_request_error"@),
            ),
            (StreamState::Streaming(m), StreamInput::Message(Msg::Payload(p))) => emits(
                r,
                false,
                p@,
                false,
            ) && identity_view(r->Emit_1->Streaming_0) == noted(identity_view(m), p@),
            (StreamState::Streaming(m), StreamInput::Message(Msg::Eos)) => emits(
                r,
                false,
                "[DONE]"@,
                true,
            ),
            (StreamState::Streaming(m), StreamInput::Message(Msg::Fault(e))) => emits(
                r,
                true,
                e@,
                true,
            ),
            (StreamState::Streaming(m), StreamInput::Message(Msg::Aborted)) => emits(
                r,
                true,
                "stream aborted"@,
                true,
            ),
            (StreamState::Streaming(m), StreamInput::Silence) => emits(
                r,
                false,
                keepalive_of(identity_view(m)),
                false,
            ) && r->Emit_1 == at,
            (StreamState::End, _) => r is Finished,
            (_, StreamInput::Silence) => r == StreamStep::Wait(at),
        },
        r is Finished <==> at is End,
        r is Emit <==> at is Streaming,
        r matches StreamStep::Emit(f, next) ==> (f.error <==> (input matches StreamInput::Message(m)
            && (m is Fault || m is Aborted))) && (next is End <==> (input matches StreamInput::Message(
            m,
        ) && !(m is Payload))),
        r is Respond ==> input is Message && (at is Head || at is Rejected),
        r matches StreamStep::Wait(next) ==> next is Head || next is Rejected || next is Streaming,
{
    match at {
        StreamState::Head => match input {
            StreamInput::Message(msg) => match msg {
                Msg::Payload(p) => match parse_status(p.as_str()) {
                    Some(s) => if s >= 200 && s < 300 {
                        StreamStep::Wait(StreamState::Streaming(None))
                    } else {
                        StreamStep::Wait(StreamState::Rejected(s))
                    },
                    None => StreamStep::Respond(server_error(BAD_STATUS)),
                },
                Msg::Fault(e) => StreamStep::Respond(server_error(e.as_str())),
                _ => StreamStep::Respond(server_error("inferlet ended before responding")),
            },
            StreamInput::Silence => StreamStep::Wait(StreamState::Head),
        },
        StreamState::Rejected(s) => match input {
            StreamInput::Message(msg) => match msg {
                Msg::Payload(p) => StreamStep::Respond(Answer { status: s, body: p }),
                _ => StreamStep::Respond(
                    error_answer(s, "request rejected", "invalid_request_error"),
                ),
            },
            StreamInput::Silence => StreamStep::Wait(StreamState::Rejected(s)),
        },
        StreamState::Streaming(m) => match input {
            StreamInput::Message(msg) => match msg {
                Msg::Payload(p) => {
                    let mut meta = m;
                    note_chunk_meta(&mut meta, p.as_str());
                    StreamStep::Emit(
                        Frame { error: false, data: p },
                        StreamState::Streaming(meta),
                    )
                },
                Msg::Eos => StreamStep::Emit(
                    Frame { error: false, data: "[DONE]".to_owned() },
                    StreamState::End,
                ),
                Msg::Fault(e) => StreamStep::Emit(Frame { error: true, data: e }, StreamState::End),
                Msg::Aborted => StreamStep::Emit(
                    Frame { error: true, data: "stream aborted".to_owned() },
                    StreamState::End,
                ),
            },
            StreamInput::Silence => {
                let ka = keepalive_chunk(&m);
                StreamStep::Emit(Frame { error: false, data: ka }, StreamState::Streaming(m))
            },
        },
        StreamState::End => StreamStep::Finished,
    }
}

// ---------------------------------------------------------------------------
// Laws
// ---------------------------------------------------------------------------

/// The identity of a stream behind payloads.
pub open spec fn noted_all(m: Option<ChunkIdentity>, payloads: Seq<Seq<char>>) -> Option<ChunkIdentity>
    decreases payloads.len(),
{
    if payloads.len() == 0 {
        m
    } else {
        noted(noted_all(m, payloads.drop_last()), payloads.last())
    }
}

/// A stream has one identity: once a chunk carried one, no later chunk changes
/// it, so every keepalive repeats the same.
pub proof fn law_the_first_identity_stays(m: ChunkIdentity, payloads: Seq<Seq<char>>)
    ensures
        noted_all(Some(m), payloads) == Some(m),
        keepalive_of(noted_all(Some(m), payloads)) == keepalive_of(Some(m)),
    decreases payloads.len(),
{
    if payloads.len() > 0 {
        law_the_first_identity_stays(m, payloads.drop_last());
    }
}

/// A header beats the body: what a body names does not move the routing key of a
/// request whose headers name a session.
pub proof fn law_headers_beat_the_body(
    h: Seq<(Seq<char>, Option<Seq<char>>)>,
    a: Tree,
    b: Tree,
)
    requires
        session_header(h) is Some,
    ensures
        session_of(h, a) == session_of(h, b),
        session_of(h, a) is Some,
{
}

// ---------------------------------------------------------------------------
// What a request and a message say
// ---------------------------------------------------------------------------

/// A key is its bytes with the least significant first: each further byte counts
/// 256 times what the one before it counts.
pub proof fn law_a_key_counts_its_bytes(b: Seq<u8>, n: nat)
    requires
        n < b.len(),
    ensures
        little_endian(b, 0) == 0,
        little_endian(b, n as int + 1) == little_endian(b, n as int) + b[n as int] * pow(256, n),
        0 <= little_endian(b, n as int) < pow(256, n),
    decreases n,
{
    reveal(pow);
    if n > 0 {
        law_a_key_counts_its_bytes(b.skip(1), (n - 1) as nat);
        let low = pow(256, (n - 1) as nat);
        let x = b[n as int] as int;
        assert(b.skip(1)[n - 1] == b[n as int]);
        assert(little_endian(b, n as int + 1) == little_endian(b.skip(1), n as int) * 256 + b[0]);
        assert((x * low) * 256 == x * (256 * low)) by (nonlinear_arith);
    } else {
        assert(little_endian(b.skip(1), 0) == 0);
        assert(little_endian(b, 1) == little_endian(b.skip(1), 0) * 256 + b[0]);
    }
}

/// The first header of a name is the one that counts; without one there is none.
pub proof fn law_the_first_header_counts(
    h: Seq<(Seq<char>, Option<Seq<char>>)>,
    name: Seq<char>,
    i: int,
)
    ensures
        0 <= i < h.len() && h[i].0 == name && (forall|k: int| 0 <= k < i ==> (#[trigger] h[k]).0 != name)
            ==> header_of(h, name) == Some(h[i].1) && header_text(h, name) == h[i].1,
        (forall|k: int| 0 <= k < h.len() ==> (#[trigger] h[k]).0 != name) ==> header_of(h, name) is None
            && header_text(h, name) is None,
    decreases h.len(),
{
    if h.len() > 0 && h[0].0 != name {
        law_the_first_header_counts(h.skip(1), name, i - 1);
        let t = h.skip(1);
        if 0 <= i < h.len() && h[i].0 == name && (forall|k: int|
            0 <= k < i ==> (#[trigger] h[k]).0 != name) {
            assert(i > 0);
            assert(t[i - 1] == h[i]);
            assert forall|k: int| 0 <= k < i - 1 implies (#[trigger] t[k]).0 != name by {
                assert(t[k] == h[k + 1]);
            }
        }
        if forall|k: int| 0 <= k < h.len() ==> (#[trigger] h[k]).0 != name {
            assert forall|k: int| 0 <= k < t.len() implies (#[trigger] t[k]).0 != name by {
                assert(t[k] == h[k + 1]);
            }
        }
    }
}

/// A bearer authorization is the word, a space and a token that is not empty,
/// and the token is what stands behind them.
pub proof fn law_a_bearer_token_stands_behind_its_word(v: Seq<char>, token: Seq<char>)
    ensures
        bearer_of(None) is None,
        bearer_of(Some(v)) == Some(token) <==> v == "Bearer "@ + token && token.len() > 0,
{
    reveal_strlit("Bearer ");
    assert("Bearer "@.len() == 7);
    if v == "Bearer "@ + token {
        assert(v.take(7) =~= "Bearer "@);
        assert(v.skip(7) =~= token);
    }
    if bearer_of(Some(v)) == Some(token) {
        assert(v =~= v.take(7) + v.skip(7));
    }
}

/// Two tokens have one identity exactly where the first four bytes of their
/// digests are the same.
pub proof fn law_an_identity_is_four_bytes_of_the_digest(a: Seq<char>, b: Seq<char>)
    ensures
        token_identity(a) == token_identity(b) <==> forall|i: int|
            0 <= i < 4 ==> #[trigger] blake3_digest(encode_utf8(a))[i] == blake3_digest(
                encode_utf8(b),
            )[i],
        token_identity(a).len() == "default/key-"@.len() + 8,
        token_identity(a).take("default/key-"@.len() as int) == "default/key-"@,
{
    let d = blake3_digest(encode_utf8(a));
    let e = blake3_digest(encode_utf8(b));
    let head = "default/key-"@;
    let n = head.len() as int;
    reveal_with_fuel(hex, 3);
    reveal_with_fuel(pow, 3);
    assert(pow(16, 2) == 256);
    let x = token_identity(a);
    let y = token_identity(b);
    assert(x.take(n) =~= head);
    if x == y {
        assert forall|i: int| 0 <= i < 4 implies #[trigger] d[i] == e[i] by {
            let p = n + 2 * i;
            assert(x.subrange(p, p + 2) =~= hex(d[i] as nat, 2));
            assert(y.subrange(p, p + 2) =~= hex(e[i] as nat, 2));
            lemma_hex_injective(d[i] as nat, e[i] as nat, 2);
        }
    }
    if forall|i: int| 0 <= i < 4 ==> #[trigger] d[i] == e[i] {
        assert(d[0] == e[0] && d[1] == e[1] && d[2] == e[2] && d[3] == e[3]);
    }
}

/// A request's session is the first of these that is there and not empty: its
/// affinity, its session id, its plain session id, its prompt cache key.
pub proof fn law_sessions_are_named_in_order(h: Seq<(Seq<char>, Option<Seq<char>>)>, body: Tree)
    ensures
        ({
            let affinity = header_text(h, "x-session-affinity"@);
            let id = header_text(h, "x-session-id"@);
            let plain = header_text(h, "session_id"@);
            let cached = member_of(body, "prompt_cache_key"@);
            let blank = |t: Option<Seq<char>>| t is None || t->0.len() == 0;
            &&& !blank(affinity) ==> session_of(h, body) == affinity
            &&& blank(affinity) && !blank(id) ==> session_of(h, body) == id
            &&& blank(affinity) && blank(id) && !blank(plain) ==> session_of(h, body) == plain
            &&& blank(affinity) && blank(id) && blank(plain) ==> (match cached {
                Some(Tree::Str(s)) => if s.len() > 0 {
                    session_of(h, body) == Some(s)
                } else {
                    session_of(h, body) is None
                },
                _ => session_of(h, body) is None,
            })
        }),
{
}

/// A body streams exactly where its flag is there and true.
pub proof fn law_only_a_true_flag_streams(body: Tree)
    ensures
        wants_stream(body) <==> member_of(body, "stream"@) == Some(Tree::Bool(true)),
{
}

/// A message is a status exactly where it is an object with a whole number of
/// three digits under that name.
pub proof fn law_a_status_has_three_digits(payload: Seq<char>, n: int)
    ensures
        status_of(payload) == Some(n) <==> (json_value(payload) matches Some(t) && member_of(
            t,
            "status"@,
        ) == Some(Tree::Int(n)) && dec(n as nat).len() == 3 && n >= 0),
{
    reveal_with_fuel(dec, 4);
    if n >= 1000 {
        assert(n / 10 >= 100);
        assert((n / 10) / 10 >= 10);
        let m = (((n as nat) / 10) / 10) / 10;
        lemma_dec_has_digits(m);
        assert(dec(n as nat).len() == dec(m).len() + 3);
    }
}

proof fn lemma_dec_has_digits(n: nat)
    ensures
        dec(n).len() >= 1,
{
}

/// A chunk names its stream exactly where it has a string id and a string model;
/// a time that is absent or no 64-bit number is 0.
pub proof fn law_a_chunk_names_its_stream(payload: Seq<char>)
    ensures
        match identity_in(payload) {
            Some(i) => json_value(payload) matches Some(t) && member_of(t, "id"@) == Some(
                Tree::Str(i.0),
            ) && member_of(t, "model"@) == Some(Tree::Str(i.1)) && (member_of(t, "created"@) == Some(
                Tree::Int(i.2),
            ) || i.2 == 0) && ((member_of(t, "created"@) matches Some(Tree::Int(n)) && i64::MIN <= n
                <= i64::MAX) ==> member_of(t, "created"@) == Some(Tree::Int(i.2))),
            None => json_value(payload) matches Some(t) ==> !(member_of(t, "id"@) is Some
                && member_of(t, "id"@)->0 is Str && member_of(t, "model"@) is Some && member_of(
                t,
                "model"@,
            )->0 is Str),
        },
{
}

/// A keepalive is a chunk of its stream that says nothing: its id, model and time
/// are the stream's, its one choice has an empty delta and no end.
pub proof fn law_a_keepalive_says_nothing(m: Option<ChunkIdentity>) -> (t: Tree)
    ensures
        keepalive_of(m) == json_text(t),
        m matches Some(i) ==> at(t, "id"@) == Tree::Str(i.0) && at(t, "model"@) == Tree::Str(i.1) && at(
            t,
            "created"@,
        ) == Tree::Int(i.2),
        m is None ==> at(t, "id"@) == Tree::Str("chatcmpl-keepalive"@) && at(t, "model"@) == Tree::Str(
            "pie"@,
        ) && at(t, "created"@) == Tree::Int(0),
        at(t, "object"@) == Tree::Str("chat.completion.chunk"@),
        at(t, "choices"@) is Arr && at(t, "choices"@)->Arr_0.len() == 1,
        ({
            let c = nth(at(t, "choices"@), 0);
            &&& at(c, "index"@) == Tree::Int(0)
            &&& at(c, "delta"@) == Tree::Obj(Map::empty())
            &&& at(c, "finish_reason"@) is Null
        }),
{
    let i = match m {
        Some(x) => x,
        None => ("chatcmpl-keepalive"@, "pie"@, 0),
    };
    let choice = obj().insert("index"@, Tree::Int(0)).insert("delta"@, Tree::Obj(obj())).insert(
        "logprobs"@,
        Tree::Null,
    ).insert("finish_reason"@, Tree::Null);
    lemma_message_keys();
    lemma_choice_keys();
    Tree::Obj(
        obj().insert("id"@, Tree::Str(i.0)).insert(
            "object"@,
            Tree::Str("chat.completion.chunk"@),
        ).insert("created"@, Tree::Int(i.2)).insert("model"@, Tree::Str(i.1)).insert(
            "choices"@,
            Tree::Arr(seq![Tree::Obj(choice)]),
        ),
    )
}

/// A header is found exactly where there is one of that name.
proof fn lemma_header_is_there(h: Seq<Header>, name: Seq<char>)
    ensures
        match header_of(headers_view(h), name) {
            Some(t) => exists|i: int|
                0 <= i < h.len() && (#[trigger] h[i]).name@ == name && opt_text(h[i].text) == t,
            None => forall|i: int| 0 <= i < h.len() ==> (#[trigger] h[i]).name@ != name,
        },
    decreases h.len(),
{
    let v = headers_view(h);
    if h.len() > 0 {
        assert(v[0] == (h[0].name@, opt_text(h[0].text)));
        if h[0].name@ != name {
            assert(v.skip(1) =~= headers_view(h.skip(1)));
            lemma_header_is_there(h.skip(1), name);
            let t = h.skip(1);
            match header_of(v, name) {
                Some(x) => {
                    let i = choose|i: int|
                        0 <= i < t.len() && (#[trigger] t[i]).name@ == name && opt_text(t[i].text) == x;
                    assert(h[i + 1] == t[i]);
                },
                None => {
                    assert forall|i: int| 0 <= i < h.len() implies (#[trigger] h[i]).name@ != name by {
                        if i > 0 {
                            assert(t[i - 1] == h[i]);
                        }
                    }
                },
            }
        }
    }
}

proof fn lemma_keys_alike(a: Seq<u8>, b: Seq<u8>, n: int)
    requires
        0 <= n <= a.len(),
        n <= b.len(),
    ensures
        little_endian(a, n) == little_endian(b, n) <==> forall|i: int| 0 <= i < n ==> a[i] == b[i],
    decreases n,
{
    if n > 0 {
        lemma_keys_alike(a.skip(1), b.skip(1), n - 1);
        let x = little_endian(a.skip(1), n - 1);
        let y = little_endian(b.skip(1), n - 1);
        if little_endian(a, n) == little_endian(b, n) {
            assert(x * 256 + a[0] == y * 256 + b[0]);
            assert(x == y && a[0] == b[0]);
            assert forall|i: int| 0 <= i < n implies a[i] == b[i] by {
                if i > 0 {
                    assert(a.skip(1)[i - 1] == b.skip(1)[i - 1]);
                }
            }
        }
        if forall|i: int| 0 <= i < n ==> a[i] == b[i] {
            assert forall|i: int| 0 <= i < n - 1 implies a.skip(1)[i] == b.skip(1)[i] by {
                assert(a[i + 1] == b[i + 1]);
            }
            assert(a[0] == b[0]);
        }
    }
}

/// Two sessions have one key exactly where the first eight bytes of their digests
/// are the same.
pub proof fn law_a_key_is_eight_bytes_of_the_digest(a: Seq<char>, b: Seq<char>)
    requires
        blake3_digest(encode_utf8(a)).len() >= 8,
        blake3_digest(encode_utf8(b)).len() >= 8,
    ensures
        session_key(a) == session_key(b) <==> forall|i: int|
            0 <= i < 8 ==> blake3_digest(encode_utf8(a))[i] == blake3_digest(encode_utf8(b))[i],
{
    lemma_keys_alike(blake3_digest(encode_utf8(a)), blake3_digest(encode_utf8(b)), 8);
}

/// An error answer's body has its message and its type under their names.
pub proof fn law_an_error_answer_reads_back(message: Seq<char>, error_type: Seq<char>) -> (t: Tree)
    ensures
        error_json(message, error_type) == json_text(t),
        at(at(t, "error"@), "message"@) == Tree::Str(message),
        at(at(t, "error"@), "type"@) == Tree::Str(error_type),
{
    law_an_error_reads_back(error_type, message);
    error_tree(error_type, message)
}

/// An answer is its status and its body, both; an event is an error or not, and its
/// data, and ends the stream or goes on.
pub proof fn law_an_answer_is_both_its_parts(a: Answer, status: u16, body: Seq<char>, r: StreamStep, error: bool, end: bool)
    ensures
        answer_is(a, status, body) <==> a.status == status && body == a.body@,
        emits(r, error, body, end) ==> r is Emit && r->Emit_0.error == error && r->Emit_0.data@ == body
            && (end <==> r->Emit_1 is End) && (!end <==> r->Emit_1 is Streaming),
{
}

} // verus!
