//! Chunk construction for the chat-completions stream: JSON bodies and their
//! event-stream frames.
//!
//! Every content-bearing turn ends with a chunk that carries a finish reason.
//! The first delta of a tool call carries its id and name, so a call is one
//! delta. A usage chunk has no choices.

use vstd::prelude::*;
use vstd::string::*;

use crate::json::{
    array, array1, integer, json_text, natural, null, string, string_or_null, to_text, tree,
    trees, Object, Tree,
};
use crate::text::cat3;

verus! {

/// What every chunk of a stream repeats.
pub struct ChunkMeta {
    pub id: String,
    pub model: String,
    pub created: i64,
}

/// No member.
pub open spec fn obj() -> Map<Seq<char>, Tree> {
    Map::empty()
}

/// A chunk with one choice.
pub open spec fn chunk_tree(m: ChunkMeta, delta: Tree, finish: Option<Seq<char>>) -> Tree {
    let choice = obj().insert("index"@, Tree::Int(0)).insert("delta"@, delta).insert(
        "logprobs"@,
        Tree::Null,
    ).insert(
        "finish_reason"@,
        match finish {
            Some(reason) => Tree::Str(reason),
            None => Tree::Null,
        },
    );
    Tree::Obj(
        obj().insert("id"@, Tree::Str(m.id@)).insert(
            "object"@,
            Tree::Str("chat.completion.chunk"@),
        ).insert("created"@, Tree::Int(m.created as int)).insert("model"@, Tree::Str(m.model@)).insert(
            "choices"@,
            Tree::Arr(seq![Tree::Obj(choice)]),
        ),
    )
}

/// A function call by name and arguments.
pub open spec fn function_tree(name: Seq<char>, args: Seq<char>) -> Tree {
    Tree::Obj(obj().insert("name"@, Tree::Str(name)).insert("arguments"@, Tree::Str(args)))
}

/// A usage report.
pub open spec fn usage_tree(prompt: int, completion: int, cached: int) -> Tree {
    Tree::Obj(
        obj().insert("prompt_tokens"@, Tree::Int(prompt)).insert(
            "completion_tokens"@,
            Tree::Int(completion),
        ).insert("total_tokens"@, Tree::Int(prompt + completion)).insert(
            "prompt_tokens_details"@,
            Tree::Obj(obj().insert("cached_tokens"@, Tree::Int(cached))),
        ),
    )
}

fn function_value(name: &str, args: &str) -> (v: serde_json::Value)
    ensures
        tree(v) == function_tree(name@, args@),
{
    let mut f = Object::new();
    f.put("name", string(name));
    f.put("arguments", string(args));
    f.build()
}

/// A usage report. Reuse of kept state is told as cached prompt tokens.
pub fn usage_object(prompt: u32, completion: u32, cached: u32) -> (v: serde_json::Value)
    requires
        prompt + completion <= u32::MAX,
    ensures
        tree(v) == usage_tree(prompt as int, completion as int, cached as int),
{
    let mut d = Object::new();
    d.put("cached_tokens", natural(cached as u64));
    let mut o = Object::new();
    o.put("prompt_tokens", natural(prompt as u64));
    o.put("completion_tokens", natural(completion as u64));
    o.put("total_tokens", natural((prompt + completion) as u64));
    o.put("prompt_tokens_details", d.build());
    o.build()
}

/// A tool call by id, name and arguments.
pub type CallOut = (Seq<char>, Seq<char>, Seq<char>);

/// What calls hold.
pub open spec fn triples(calls: Seq<(String, String, String)>) -> Seq<CallOut> {
    calls.map_values(|c: (String, String, String)| (c.0@, c.1@, c.2@))
}

/// One tool call of a finished turn.
pub open spec fn call_tree(c: CallOut) -> Tree {
    Tree::Obj(
        obj().insert("id"@, Tree::Str(c.0)).insert("type"@, Tree::Str("function"@)).insert(
            "function"@,
            function_tree(c.1, c.2),
        ),
    )
}

/// The calls of a finished turn.
pub open spec fn calls_tree(calls: Seq<CallOut>) -> Seq<Tree> {
    calls.map_values(|c: CallOut| call_tree(c))
}

/// A whole completion. Content and calls are null, not absent, where there are
/// none.
pub open spec fn completion_tree(
    m: ChunkMeta,
    content: Seq<char>,
    calls: Seq<CallOut>,
    finish: Seq<char>,
    usage: Tree,
) -> Tree {
    let message = obj().insert("role"@, Tree::Str("assistant"@)).insert(
        "content"@,
        if content.len() == 0 {
            Tree::Null
        } else {
            Tree::Str(content)
        },
    ).insert(
        "tool_calls"@,
        if calls.len() == 0 {
            Tree::Null
        } else {
            Tree::Arr(calls_tree(calls))
        },
    );
    let choice = obj().insert("index"@, Tree::Int(0)).insert("message"@, Tree::Obj(message)).insert(
        "logprobs"@,
        Tree::Null,
    ).insert("finish_reason"@, Tree::Str(finish));
    Tree::Obj(
        obj().insert("id"@, Tree::Str(m.id@)).insert("object"@, Tree::Str("chat.completion"@)).insert(
            "created"@,
            Tree::Int(m.created as int),
        ).insert("model"@, Tree::Str(m.model@)).insert(
            "choices"@,
            Tree::Arr(seq![Tree::Obj(choice)]),
        ).insert("usage"@, usage),
    )
}

/// The chunk that announces the assistant.
pub open spec fn role_tree(m: ChunkMeta) -> Tree {
    chunk_tree(
        m,
        Tree::Obj(
            obj().insert("role"@, Tree::Str("assistant"@)).insert("content"@, Tree::Str(""@)),
        ),
        None,
    )
}

/// A chunk with a piece of content.
pub open spec fn content_tree(m: ChunkMeta, text: Seq<char>) -> Tree {
    chunk_tree(m, Tree::Obj(obj().insert("content"@, Tree::Str(text))), None)
}

/// A chunk with one complete tool call.
pub open spec fn call_delta_tree(
    m: ChunkMeta,
    index: int,
    id: Seq<char>,
    name: Seq<char>,
    args: Seq<char>,
) -> Tree {
    let call = Tree::Obj(
        obj().insert("index"@, Tree::Int(index)).insert("id"@, Tree::Str(id)).insert(
            "type"@,
            Tree::Str("function"@),
        ).insert("function"@, function_tree(name, args)),
    );
    chunk_tree(m, Tree::Obj(obj().insert("tool_calls"@, Tree::Arr(seq![call]))), None)
}

/// The chunk that ends a turn's content.
pub open spec fn finish_tree(m: ChunkMeta, reason: Seq<char>) -> Tree {
    chunk_tree(m, Tree::Obj(obj()), Some(reason))
}

/// The usage chunk, without choices.
pub open spec fn usage_chunk_tree(m: ChunkMeta, prompt: int, completion: int, cached: int) -> Tree {
    Tree::Obj(
        obj().insert("id"@, Tree::Str(m.id@)).insert(
            "object"@,
            Tree::Str("chat.completion.chunk"@),
        ).insert("created"@, Tree::Int(m.created as int)).insert("model"@, Tree::Str(m.model@)).insert(
            "choices"@,
            Tree::Arr(Seq::empty()),
        ).insert("usage"@, usage_tree(prompt, completion, cached)),
    )
}

impl ChunkMeta {
    fn chunk(&self, delta: serde_json::Value, finish_reason: Option<&str>) -> (v: serde_json::Value)
        ensures
            tree(v) == chunk_tree(
                *self,
                tree(delta),
                match finish_reason {
                    Some(reason) => Some(reason@),
                    None => None,
                },
            ),
    {
        let mut c = Object::new();
        c.put("index", natural(0));
        c.put("delta", delta);
        c.put("logprobs", null());
        c.put("finish_reason", string_or_null(finish_reason));
        let mut o = Object::new();
        o.put("id", string(self.id.as_str()));
        o.put("object", string("chat.completion.chunk"));
        o.put("created", integer(self.created));
        o.put("model", string(self.model.as_str()));
        o.put("choices", array1(c.build()));
        o.build()
    }

    /// The first chunk of every stream: announces the assistant.
    pub fn role_chunk(&self) -> (v: serde_json::Value)
        ensures
            tree(v) == role_tree(*self),
    {
        let mut d = Object::new();
        d.put("role", string("assistant"));
        d.put("content", string(""));
        self.chunk(d.build(), None)
    }

    /// An empty delta, for clients whose watchdog counts chunks.
    pub fn keepalive(&self) -> (v: serde_json::Value)
        ensures
            tree(v) == chunk_tree(*self, Tree::Obj(obj()), None),
    {
        self.chunk(Object::new().build(), None)
    }

    /// A piece of content.
    pub fn content_delta(&self, text: &str) -> (v: serde_json::Value)
        ensures
            tree(v) == content_tree(*self, text@),
    {
        let mut d = Object::new();
        d.put("content", string(text));
        self.chunk(d.build(), None)
    }

    /// One complete tool call in a single delta.
    pub fn tool_call_delta(&self, index: usize, call_id: &str, name: &str, args: &str) -> (v:
        serde_json::Value)
        ensures
            tree(v) == call_delta_tree(*self, index as int, call_id@, name@, args@),
    {
        let mut c = Object::new();
        c.put("index", natural(index as u64));
        c.put("id", string(call_id));
        c.put("type", string("function"));
        c.put("function", function_value(name, args));
        let mut d = Object::new();
        d.put("tool_calls", array1(c.build()));
        self.chunk(d.build(), None)
    }

    /// The last chunk of a turn's content: an empty delta and the reason.
    pub fn finish_chunk(&self, finish_reason: &str) -> (v: serde_json::Value)
        ensures
            tree(v) == finish_tree(*self, finish_reason@),
    {
        self.chunk(Object::new().build(), Some(finish_reason))
    }

    /// The usage chunk, without choices.
    pub fn usage_chunk(&self, prompt: u32, completion: u32, cached: u32) -> (v: serde_json::Value)
        requires
            prompt + completion <= u32::MAX,
        ensures
            tree(v) == usage_chunk_tree(*self, prompt as int, completion as int, cached as int),
    {
        let none: Vec<serde_json::Value> = Vec::new();
        proof {
            assert(trees(none@) =~= Seq::empty());
        }
        let mut o = Object::new();
        o.put("id", string(self.id.as_str()));
        o.put("object", string("chat.completion.chunk"));
        o.put("created", integer(self.created));
        o.put("model", string(self.model.as_str()));
        o.put("choices", array(none));
        o.put("usage", usage_object(prompt, completion, cached));
        o.build()
    }

    /// The body of a non-streaming completion.
    pub fn completion_response(
        &self,
        content: &str,
        tool_calls: &[(String, String, String)],
        finish_reason: &str,
        prompt: u32,
        completion: u32,
        cached: u32,
    ) -> (v: serde_json::Value)
        requires
            prompt + completion <= u32::MAX,
        ensures
            tree(v) == completion_tree(
                *self,
                content@,
                triples(tool_calls@),
                finish_reason@,
                usage_tree(prompt as int, completion as int, cached as int),
            ),
    {
        let mut calls: Vec<serde_json::Value> = Vec::new();
        let mut i: usize = 0;
        while i < tool_calls.len()
            invariant
                i <= tool_calls@.len(),
                calls@.len() == i,
                forall|j: int|
                    0 <= j < i ==> tree(#[trigger] calls@[j]) == call_tree(triples(tool_calls@)[j]),
            decreases tool_calls.len() - i,
        {
            let mut c = Object::new();
            c.put("id", string(tool_calls[i].0.as_str()));
            c.put("type", string("function"));
            c.put(
                "function",
                function_value(tool_calls[i].1.as_str(), tool_calls[i].2.as_str()),
            );
            calls.push(c.build());
            i += 1;
        }
        proof {
            assert(trees(calls@) =~= calls_tree(triples(tool_calls@)));
        }
        let mut m = Object::new();
        m.put("role", string("assistant"));
        m.put(
            "content",
            if content.is_empty() {
                null()
            } else {
                string(content)
            },
        );
        m.put(
            "tool_calls",
            if tool_calls.len() == 0 {
                null()
            } else {
                array(calls)
            },
        );
        let mut c = Object::new();
        c.put("index", natural(0));
        c.put("message", m.build());
        c.put("logprobs", null());
        c.put("finish_reason", string(finish_reason));
        let mut o = Object::new();
        o.put("id", string(self.id.as_str()));
        o.put("object", string("chat.completion"));
        o.put("created", integer(self.created));
        o.put("model", string(self.model.as_str()));
        o.put("choices", array1(c.build()));
        o.put("usage", usage_object(prompt, completion, cached));
        o.build()
    }
}

/// A body as one event-stream frame.
pub fn sse_frame(v: &serde_json::Value) -> (r: String)
    ensures
        r@ == "data: "@ + json_text(tree(*v)) + "\n\n"@,
{
    let text = to_text(v);
    cat3("data: ", text.as_str(), "\n\n")
}

/// The end of a stream.
pub fn sse_done() -> (r: String)
    ensures
        r@ == "data: [DONE]\n\n"@,
{
    "data: [DONE]\n\n".to_owned()
}

/// A comment that keeps a stream alive.
pub fn sse_ping() -> (r: String)
    ensures
        r@ == ": ping\n\n"@,
{
    ": ping\n\n".to_owned()
}

} // verus!
