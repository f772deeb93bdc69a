//! Error bodies, and the request check that decides between a client's fault
//! and the server's.

use vstd::prelude::*;
use vstd::string::*;

use crate::format::{dec, dec_of};
use crate::json::{null, string, tree, Object, Tree};
use crate::serving::streaming::obj;
use crate::serving::types::ChatCompletionRequest;

verus! {

pub const INVALID_REQUEST_ERROR: &'static str = "invalid_request_error";

pub const SERVER_ERROR: &'static str = "server_error";

/// An error body; `param` and `code` are explicit nulls.
pub open spec fn error_tree(error_type: Seq<char>, message: Seq<char>) -> Tree {
    Tree::Obj(
        obj().insert(
            "error"@,
            Tree::Obj(
                obj().insert("message"@, Tree::Str(message)).insert(
                    "type"@,
                    Tree::Str(error_type),
                ).insert("param"@, Tree::Null).insert("code"@, Tree::Null),
            ),
        ),
    )
}

/// An error body.
pub fn error_body(error_type: &str, message: &str) -> (v: serde_json::Value)
    ensures
        tree(v) == error_tree(error_type@, message@),
{
    let mut e = Object::new();
    e.put("message", string(message));
    e.put("type", string(error_type));
    e.put("param", null());
    e.put("code", null());
    let mut o = Object::new();
    o.put("error", e.build());
    o.build()
}

/// The wording of a context overflow, which clients classify by.
pub open spec fn overflow_text(max: int, requested: int) -> Seq<char> {
    "This model's maximum context length is "@ + dec(max as nat)
        + " tokens. However, your messages resulted in "@ + dec(requested as nat)
        + " tokens. Please reduce the length of the messages."@
}

/// The body of a prompt that can never fit. Its wording makes clients compact
/// instead of failing; `param` and `code` are set, as clients read them.
pub fn context_overflow_body(max_context_tokens: usize, requested_tokens: usize) -> (v:
    serde_json::Value)
    ensures
        tree(v) == Tree::Obj(
            obj().insert(
                "error"@,
                Tree::Obj(
                    obj().insert(
                        "message"@,
                        Tree::Str(overflow_text(max_context_tokens as int, requested_tokens as int)),
                    ).insert("type"@, Tree::Str(INVALID_REQUEST_ERROR@)).insert(
                        "param"@,
                        Tree::Str("messages"@),
                    ).insert("code"@, Tree::Str("context_length_exceeded"@)),
                ),
            ),
        ),
{
    let mut m = "This model's maximum context length is ".to_owned();
    m.append(dec_of(max_context_tokens as u64).as_str());
    m.append(" tokens. However, your messages resulted in ");
    m.append(dec_of(requested_tokens as u64).as_str());
    m.append(" tokens. Please reduce the length of the messages.");
    let mut e = Object::new();
    e.put("message", string(m.as_str()));
    e.put("type", string(INVALID_REQUEST_ERROR));
    e.put("param", string("messages"));
    e.put("code", string("context_length_exceeded"));
    let mut o = Object::new();
    o.put("error", e.build());
    o.build()
}

/// What is wrong with a parsed request; `None` where it can be served.
pub fn check_request(req: &ChatCompletionRequest) -> (r: Option<&'static str>)
    ensures
        req.messages@.len() == 0 ==> r is Some && r->0@ == "`messages` must be a non-empty array"@,
        req.messages@.len() > 0 ==> r is None,
{
    if req.messages.len() == 0 {
        Some("`messages` must be a non-empty array")
    } else {
        None
    }
}

/// An overflow's wording names the limit first and what was asked for behind it.
pub proof fn law_an_overflow_names_limit_and_request(max: nat, requested: nat)
    ensures
        ({
            let t = overflow_text(max as int, requested as int);
            let a = "This model's maximum context length is "@.len() as int;
            let b = a + dec(max).len() + " tokens. However, your messages resulted in "@.len();
            &&& t.subrange(a, a + dec(max).len()) == dec(max)
            &&& t.subrange(b, b + dec(requested).len()) == dec(requested)
        }),
{
    let t = overflow_text(max as int, requested as int);
    let a = "This model's maximum context length is "@.len() as int;
    let b = a + dec(max).len() + " tokens. However, your messages resulted in "@.len();
    assert(t.subrange(a, a + dec(max).len()) =~= dec(max));
    assert(t.subrange(b, b + dec(requested).len()) =~= dec(requested));
}

} // verus!
