//! Event-stream frames of the chat-completions stream. Keepalives are empty
//! deltas, which clients count; comments never reach them.

use vstd::prelude::*;
use vstd::string::*;

use crate::json::{json_text, Tree};
use crate::serving::streaming::{
    call_delta_tree, chunk_tree, content_tree, finish_tree, obj, role_tree, sse_done, sse_frame,
    usage_chunk_tree,
};

pub use crate::serving::streaming::usage_object;

verus! {

/// What every chunk of a stream repeats.
pub struct ChunkMeta {
    pub id: String,
    pub model: String,
    pub created: i64,
}

/// The frame of a body.
pub open spec fn frame(t: Tree) -> Seq<char> {
    "data: "@ + json_text(t) + "\n\n"@
}

impl ChunkMeta {
    /// The same, as the bodies repeat it.
    pub open spec fn bare(self) -> crate::serving::streaming::ChunkMeta {
        crate::serving::streaming::ChunkMeta {
            id: self.id,
            model: self.model,
            created: self.created,
        }
    }

    fn bodies(&self) -> (r: crate::serving::streaming::ChunkMeta)
        ensures
            r == self.bare(),
    {
        crate::serving::streaming::ChunkMeta {
            id: self.id.clone(),
            model: self.model.clone(),
            created: self.created,
        }
    }

    /// The first frame of every stream: announces the assistant.
    pub fn role_chunk(&self) -> (r: String)
        ensures
            r@ == frame(role_tree(self.bare())),
    {
        sse_frame(&self.bodies().role_chunk())
    }

    /// An empty delta, which resets the client's watchdog.
    pub fn keepalive(&self) -> (r: String)
        ensures
            r@ == frame(chunk_tree(self.bare(), Tree::Obj(obj()), None)),
    {
        sse_frame(&self.bodies().keepalive())
    }

    /// A piece of content.
    pub fn content_delta(&self, text: &str) -> (r: String)
        ensures
            r@ == frame(content_tree(self.bare(), text@)),
    {
        sse_frame(&self.bodies().content_delta(text))
    }

    /// One complete tool call in a single delta.
    pub fn tool_call_delta(&self, index: usize, call_id: &str, name: &str, args: &str) -> (r: String)
        ensures
            r@ == frame(call_delta_tree(self.bare(), index as int, call_id@, name@, args@)),
    {
        sse_frame(&self.bodies().tool_call_delta(index, call_id, name, args))
    }

    /// The last chunk of a turn's content: an empty delta and the reason.
    pub fn finish_chunk(&self, finish_reason: &str) -> (r: String)
        ensures
            r@ == frame(finish_tree(self.bare(), finish_reason@)),
    {
        sse_frame(&self.bodies().finish_chunk(finish_reason))
    }

    /// The usage chunk, without choices.
    pub fn usage_chunk(&self, prompt: u32, completion: u32, cached: u32) -> (r: String)
        requires
            prompt + completion <= u32::MAX,
        ensures
            r@ == frame(
                usage_chunk_tree(self.bare(), prompt as int, completion as int, cached as int),
            ),
    {
        sse_frame(&self.bodies().usage_chunk(prompt, completion, cached))
    }

    /// The end of the stream.
    pub fn done() -> (r: String)
        ensures
            r@ == "data: [DONE]\n\n"@,
    {
        sse_done()
    }
}

} // verus!
