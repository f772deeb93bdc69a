//! Rollouts and scoring: independent completions of a prompt, teacher-forced
//! scoring of a fixed target, and a decode benchmark.

use vstd::prelude::*;
use vstd::string::*;

use crate::json::{json_text, natural, to_text, Object, Tree};
use crate::serving::streaming::obj;
use crate::text::cat3;

verus! {

/// The token limit of a completion where none is given.
pub fn d_max_tokens() -> (r: usize)
    ensures
        r == 32,
{
    32
}

/// The number of completions where none is given.
pub fn d_n() -> (r: usize)
    ensures
        r == 4,
{
    4
}

/// The number of decoded tokens of a benchmark where none is given.
pub fn default_decode_tokens() -> (r: usize)
    ensures
        r == 128,
{
    128
}

/// The brackets of a rollout's output.
pub const ROLLOUT_BEGIN: &'static str = "<<<ROLLOUT_JSON>>>";

pub const ROLLOUT_END: &'static str = "<<<ROLLOUT_END>>>";

/// The brackets of a score's output.
pub const SCORE_BEGIN: &'static str = "<<<ADAPTER_SCORE_JSON>>>";

pub const SCORE_END: &'static str = "<<<ADAPTER_SCORE_END>>>";

/// Output in its brackets.
pub fn framed(begin: &str, json: &str, end: &str) -> (r: String)
    ensures
        r@ == begin@ + json@ + end@,
{
    cat3(begin, json, end)
}

/// A prompt split at its last token: what is prefilled, and the token that
/// predicts the first one behind the prompt.
pub struct Anchor {
    pub split: usize,
    pub tail: u32,
}

/// Splits a prompt at its last token; an empty prompt has none.
pub fn anchor(prompt_ids: &[u32]) -> (r: Result<Anchor, &'static str>)
    ensures
        match r {
            Ok(a) => prompt_ids@.len() > 0 && a.split == prompt_ids@.len() - 1 && a.tail
                == prompt_ids@.last(),
            Err(e) => prompt_ids@.len() == 0 && e@ == "empty prompt"@,
        },
{
    if prompt_ids.len() == 0 {
        return Err("empty prompt");
    }
    let split = prompt_ids.len() - 1;
    Ok(Anchor { split, tail: prompt_ids[split] })
}

/// Splits a prompt that is scored against a target, which may not be empty
/// either.
pub fn score_anchor(prompt_ids: &[u32], target: &[u32]) -> (r: Result<Anchor, &'static str>)
    ensures
        match r {
            Ok(a) => prompt_ids@.len() > 0 && target@.len() > 0 && a.split == prompt_ids@.len() - 1
                && a.tail == prompt_ids@.last(),
            Err(e) => if prompt_ids@.len() == 0 {
                e@ == "empty prompt"@
            } else {
                target@.len() == 0 && e@ == "empty target"@
            },
        },
{
    match anchor(prompt_ids) {
        Ok(a) => if target.len() == 0 {
            Err("empty target")
        } else {
            Ok(a)
        },
        Err(e) => Err(e),
    }
}

/// The inputs of teacher forcing: each target token is scored behind the one
/// before it, the first behind the prompt's last.
pub fn forced_inputs(tail: u32, target: &[u32]) -> (r: Vec<u32>)
    ensures
        r@.len() == target@.len(),
        forall|i: int|
            0 <= i < r@.len() ==> #[trigger] r@[i] == (if i == 0 {
                tail
            } else {
                target@[i - 1]
            }),
{
    let mut r: Vec<u32> = Vec::new();
    let mut pending: u32 = tail;
    let mut i: usize = 0;
    while i < target.len()
        invariant
            i <= target@.len(),
            r@.len() == i,
            pending == (if i == 0 {
                tail
            } else {
                target@[i - 1]
            }),
            forall|j: int|
                0 <= j < i ==> #[trigger] r@[j] == (if j == 0 {
                    tail
                } else {
                    target@[j - 1]
                }),
        decreases target.len() - i,
    {
        r.push(pending);
        pending = target[i];
        i += 1;
    }
    r
}

/// Where a token stands among the ids of a distribution: its first place.
pub fn token_place(ids: &[u32], t: u32) -> (r: Option<usize>)
    ensures
        match r {
            Some(i) => i < ids@.len() && ids@[i as int] == t && forall|j: int|
                0 <= j < i ==> ids@[j] != t,
            None => !ids@.contains(t),
        },
{
    let mut i: usize = 0;
    while i < ids.len()
        invariant
            i <= ids@.len(),
            forall|j: int| 0 <= j < i ==> ids@[j] != t,
        decreases ids.len() - i,
    {
        if ids[i] == t {
            return Some(i);
        }
        i += 1;
    }
    None
}

/// The mask of a completion: every token is the model's.
pub fn env_mask(n: usize) -> (r: Vec<u32>)
    ensures
        r@ == Seq::new(n as nat, |i: int| 1u32),
{
    let mut r: Vec<u32> = Vec::new();
    let mut i: usize = 0;
    while i < n
        invariant
            i <= n,
            r@ == Seq::new(i as nat, |k: int| 1u32),
        decreases n - i,
    {
        r.push(1);
        i += 1;
        proof {
            assert(r@ =~= Seq::new(i as nat, |k: int| 1u32));
        }
    }
    r
}

/// The report of a decode benchmark.
pub fn bench_report(prefill: usize, requested: usize, generated: usize) -> (r: String)
    ensures
        r@ == json_text(
            Tree::Obj(
                obj().insert("prefill_tokens"@, Tree::Int(prefill as int)).insert(
                    "decode_tokens_requested"@,
                    Tree::Int(requested as int),
                ).insert("decode_tokens_generated"@, Tree::Int(generated as int)),
            ),
        ),
{
    let mut o = Object::new();
    o.put("prefill_tokens", natural(prefill as u64));
    o.put("decode_tokens_requested", natural(requested as u64));
    o.put("decode_tokens_generated", natural(generated as u64));
    let v = o.build();
    to_text(&v)
}

} // verus!
