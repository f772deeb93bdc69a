//! Building a prompt: the plan of a request's conversation, the rendered tokens
//! split at the cue, and the cut candidates of the history.

use vstd::prelude::*;
use vstd::string::*;

use crate::chat::apc::BOUNDARY_STRIDE;
use crate::json::{member_of, natural, tree, Object, Tree};
use crate::serving::error::{error_body, error_tree, INVALID_REQUEST_ERROR, SERVER_ERROR};
use crate::serving::filter::{clean_message, sanitize_messages};
use crate::serving::render::{ops_view, plan, plan_render, ErrorView, OpView, RenderOp};
use crate::serving::streaming::obj;
use crate::serving::types::{
    envelopes, messages_view, thinking, tools_view, ChatCompletionRequest, MessageView,
};
use crate::text::chars_of;

verus! {

/// The token limit of a request that names none.
pub const DEFAULT_MAX_TOKENS: usize = 4096;

// ---------------------------------------------------------------------------
// Ids
// ---------------------------------------------------------------------------

/// An ASCII letter or digit.
pub open spec fn ascii_alphanumeric(c: char) -> bool {
    ('0' <= c <= '9') || ('A' <= c <= 'Z') || ('a' <= c <= 'z')
}

/// Whether a character is an ASCII letter or digit.
pub fn is_ascii_alphanumeric(c: char) -> (r: bool)
    ensures
        r == ascii_alphanumeric(c),
{
    (c >= '0' && c <= '9') || (c >= 'A' && c <= 'Z') || (c >= 'a' && c <= 'z')
}

/// The ASCII letters and digits of a text, at most `most` of them.
pub open spec fn alphanumerics(s: Seq<char>, most: nat) -> Seq<char>
    decreases s.len(),
{
    if s.len() == 0 {
        Seq::empty()
    } else {
        let front = alphanumerics(s.drop_last(), most);
        if ascii_alphanumeric(s.last()) && front.len() < most {
            front.push(s.last())
        } else {
            front
        }
    }
}

/// The ASCII letters and digits of an instance id, at most twelve.
pub fn instance_fragment(instance_id: &str) -> (r: String)
    ensures
        r@ == alphanumerics(instance_id@, 12),
{
    let s = chars_of(instance_id);
    let mut out = String::new();
    let mut count: usize = 0;
    let mut i: usize = 0;
    proof {
        assert(s@.take(0) =~= Seq::<char>::empty());
        assert(out@ =~= alphanumerics(s@.take(0), 12));
    }
    while i < s.len()
        invariant
            i <= s@.len(),
            count == out@.len(),
            count <= 12,
            out@ == alphanumerics(s@.take(i as int), 12),
        decreases s.len() - i,
    {
        proof {
            assert(s@.take(i + 1).drop_last() =~= s@.take(i as int));
        }
        if is_ascii_alphanumeric(s[i]) && count < 12 {
            out.push(s[i]);
            count += 1;
        }
        i += 1;
    }
    proof {
        assert(s@.take(i as int) =~= s@);
    }
    out
}

/// What makes the ids of a request its own: the fragment of its instance id, or
/// a stand-in where that has no letter or digit.
pub open spec fn unique_fragment(instance_id: Seq<char>) -> Seq<char> {
    let f = alphanumerics(instance_id, 12);
    if f.len() == 0 {
        "local"@
    } else {
        f
    }
}

/// What makes the ids of a request its own.
pub fn uniq_fragment(instance_id: &str) -> (r: String)
    ensures
        r@ == unique_fragment(instance_id@),
{
    let f = instance_fragment(instance_id);
    if f.as_str().is_empty() {
        "local".to_owned()
    } else {
        f
    }
}

// ---------------------------------------------------------------------------
// Envelopes
// ---------------------------------------------------------------------------

/// The message that announces a status.
pub open spec fn status_tree(status: u16) -> Tree {
    Tree::Obj(obj().insert("status"@, Tree::Int(status as int)))
}

/// The message that announces a status.
pub fn status_message(status: u16) -> (v: serde_json::Value)
    ensures
        tree(v) == status_tree(status),
{
    let mut o = Object::new();
    o.put("status", natural(status as u64));
    o.build()
}

/// A rejection before any streaming: the status, then one error body.
pub fn reject(status: u16, error_type: &str, message: &str) -> (r: (serde_json::Value, serde_json::Value))
    ensures
        tree(r.0) == status_tree(status),
        tree(r.1) == error_tree(error_type@, message@),
{
    (status_message(status), error_body(error_type, message))
}

/// Why a prompt was not built.
pub enum BuildError {
    /// The client's fault: a misplaced system message, an unsupported role.
    Invalid(String),
    /// The host's or the template's fault.
    Fault(String),
}

/// The rejection of a failed build. What a fault says stays in the log.
pub fn reject_build(e: &BuildError) -> (r: (serde_json::Value, serde_json::Value))
    ensures
        match *e {
            BuildError::Invalid(m) => tree(r.0) == status_tree(400) && tree(r.1) == error_tree(
                INVALID_REQUEST_ERROR@,
                m@,
            ),
            BuildError::Fault(_) => tree(r.0) == status_tree(500) && tree(r.1) == error_tree(
                SERVER_ERROR@,
                "internal error while rendering the prompt"@,
            ),
        },
{
    match e {
        BuildError::Invalid(m) => reject(400, INVALID_REQUEST_ERROR, m.as_str()),
        BuildError::Fault(_) => reject(
            500,
            SERVER_ERROR,
            "internal error while rendering the prompt",
        ),
    }
}

// ---------------------------------------------------------------------------
// Stop tokens
// ---------------------------------------------------------------------------

/// The stop tokens with the turn-start marker, where that is one token: a
/// looping model starts the next turn instead of stopping.
pub fn with_turn_start(stop_ids: Vec<u32>, turn_start: &[u32]) -> (r: Vec<u32>)
    ensures
        r@ == (if turn_start@.len() == 1 && !stop_ids@.contains(turn_start@[0]) {
            stop_ids@.push(turn_start@[0])
        } else {
            stop_ids@
        }),
{
    let mut stops = stop_ids;
    if turn_start.len() == 1 {
        let t = turn_start[0];
        if !has_token(stops.as_slice(), t) {
            stops.push(t);
        }
    }
    stops
}

/// Whether a token is among those.
pub fn has_token(v: &[u32], t: u32) -> (r: bool)
    ensures
        r == v@.contains(t),
{
    let mut i: usize = 0;
    while i < v.len()
        invariant
            i <= v@.len(),
            forall|j: int| 0 <= j < i ==> v@[j] != t,
        decreases v.len() - i,
    {
        if v[i] == t {
            return true;
        }
        i += 1;
    }
    false
}

// ---------------------------------------------------------------------------
// The plan
// ---------------------------------------------------------------------------

/// The messages of a request, cleaned of special-token strings.
pub open spec fn clean_all(m: Seq<MessageView>, specials: Seq<String>) -> Seq<MessageView> {
    Seq::new(m.len(), |i: int| clean_message(m[i], specials))
}

/// The wording of a planning error.
pub open spec fn plan_error_text(e: ErrorView) -> Seq<char> {
    match e {
        ErrorView::UnsupportedRole(role) => "unsupported message role: "@ + role,
        ErrorView::MisplacedSystem => "system message only supported as the first message"@,
    }
}

/// Cleans a request's messages and plans the rendering of its conversation.
pub fn plan_prompt(req: &mut ChatCompletionRequest, specials: &[String]) -> (r: Result<
    Vec<RenderOp>,
    BuildError,
>)
    ensures
        messages_view(final(req).messages@) == clean_all(
            messages_view(old(req).messages@),
            specials@,
        ),
        *final(req) == (ChatCompletionRequest { messages: final(req).messages, ..*old(req) }),
        ({
            let p = plan(
                clean_all(messages_view(old(req).messages@), specials@),
                envelopes(tools_view(old(req).tools@)),
                Map::empty(),
                thinking(*old(req)) == Some(true),
            );
            match r {
                Ok(ops) => p == Ok::<Seq<OpView>, ErrorView>(ops_view(ops@)),
                Err(BuildError::Invalid(m)) => p is Err && m@ == plan_error_text(p->Err_0),
                Err(BuildError::Fault(_)) => false,
            }
        }),
{
    let ghost before = messages_view(req.messages@);
    sanitize_messages(&mut req.messages, specials);
    proof {
        assert(messages_view(req.messages@) =~= clean_all(before, specials@));
    }
    match plan_render(req) {
        Ok(ops) => Ok(ops),
        Err(e) => Err(BuildError::Invalid(e.message())),
    }
}

/// The place of a plan's trailing cue. The history in front of it is what gets
/// addressed; the cue is scaffolding.
pub fn split_cue(ops: &[RenderOp]) -> (r: Result<usize, BuildError>)
    ensures
        match r {
            Ok(at) => at as int == ops@.len() - 1 && ops@.last() is Cue,
            Err(BuildError::Fault(m)) => (ops@.len() == 0 || !(ops@.last() is Cue)) && m@
                == "render plan did not end with a cue"@,
            Err(BuildError::Invalid(_)) => false,
        },
{
    if ops.len() > 0 {
        match &ops[ops.len() - 1] {
            RenderOp::Cue(_) => {
                return Ok(ops.len() - 1);
            },
            _ => {},
        }
    }
    Err(BuildError::Fault("render plan did not end with a cue".to_owned()))
}

/// A plan always ends with a cue, so that splitting one never fails.
pub proof fn law_a_plan_ends_with_its_cue(
    m: Seq<MessageView>,
    schemas: Seq<Seq<char>>,
    names: Map<Seq<char>, Seq<char>>,
    think: bool,
)
    ensures
        plan(m, schemas, names, think) matches Ok(ops) ==> ops.len() > 0 && ops.last()
            == OpView::Cue(think),
{
}

// ---------------------------------------------------------------------------
// Boundaries
// ---------------------------------------------------------------------------

/// The stride points strictly between `before` and `after`.
pub open spec fn strides(before: int, after: int) -> Seq<u32> {
    let first = before / 256 + 1;
    let behind = (after + 255) / 256;
    Seq::new(
        if behind > first {
            (behind - first) as nat
        } else {
            0
        },
        |i: int| (256 * (first + i)) as u32,
    )
}

/// The boundaries with those of one more unit, which runs from `before` to
/// `after`: the stride points inside it, and its end.
pub open spec fn add_unit(bounds: Seq<u32>, before: int, after: int) -> Seq<u32> {
    let b = bounds + strides(before, after);
    if b.len() > 0 && b.last() == after {
        b
    } else {
        b.push(after as u32)
    }
}

/// The tokens of the first `n` units.
pub open spec fn tokens_of(units: Seq<Seq<u32>>, n: int) -> Seq<u32>
    decreases n,
{
    if n <= 0 {
        Seq::empty()
    } else {
        tokens_of(units, n - 1) + units[n - 1]
    }
}

/// The boundaries of the first `n` units.
pub open spec fn bounds_of(units: Seq<Seq<u32>>, n: int) -> Seq<u32>
    decreases n,
{
    if n <= 0 {
        Seq::empty()
    } else {
        add_unit(
            bounds_of(units, n - 1),
            tokens_of(units, n - 1).len() as int,
            tokens_of(units, n).len() as int,
        )
    }
}

/// The contents of rendered units.
pub open spec fn units_view(v: Seq<Vec<u32>>) -> Seq<Seq<u32>> {
    v.map_values(|x: Vec<u32>| x@)
}

fn push_unit(bounds: &mut Vec<u32>, before: u32, after: u32)
    requires
        before <= after <= u32::MAX - 256,
    ensures
        final(bounds)@ == add_unit(old(bounds)@, before as int, after as int),
{
    let ghost start = bounds@;
    let first: u32 = before / BOUNDARY_STRIDE + 1;
    let mut k: u32 = first;
    proof {
        assert(start + Seq::<u32>::empty() =~= start);
        assert(strides(before as int, 256 * first as int) =~= Seq::<u32>::empty());
    }
    while k * BOUNDARY_STRIDE < after
        invariant
            before <= after <= u32::MAX - 256,
            first == before / 256 + 1,
            first <= k,
            k * 256 <= after + 255 || k == first,
            bounds@ == start + Seq::new((k - first) as nat, |i: int| (256 * (first + i)) as u32),
        decreases after + 256 - k * 256,
    {
        bounds.push(k * BOUNDARY_STRIDE);
        k += 1;
        proof {
            assert(bounds@ =~= start + Seq::new(
                (k - first) as nat,
                |i: int| (256 * (first + i)) as u32,
            ));
        }
    }
    proof {
        assert(bounds@ =~= start + strides(before as int, after as int));
    }
    let n = bounds.len();
    if n == 0 || bounds[n - 1] != after {
        bounds.push(after);
    }
}

/// A rendered prompt, split where the prefix cache can address it.
pub struct Prompt {
    /// The history, then the cue.
    pub tokens: Vec<u32>,
    /// Where the history ends.
    pub history_len: u32,
    /// Ascending cut candidates within the history.
    pub boundaries: Vec<u32>,
}

/// The tokens of rendered units in order, and their boundaries: each unit's end,
/// and stride points inside the long ones.
pub fn render_history(units: &[Vec<u32>]) -> (r: (Vec<u32>, Vec<u32>))
    requires
        tokens_of(units_view(units@), units@.len() as int).len() <= u32::MAX - 256,
    ensures
        r.0@ == tokens_of(units_view(units@), units@.len() as int),
        r.1@ == bounds_of(units_view(units@), units@.len() as int),
{
    let ghost view = units_view(units@);
    let mut out: Vec<u32> = Vec::new();
    let mut bounds: Vec<u32> = Vec::new();
    let mut i: usize = 0;
    while i < units.len()
        invariant
            i <= units@.len(),
            view == units_view(units@),
            tokens_of(view, units@.len() as int).len() <= u32::MAX - 256,
            out@ == tokens_of(view, i as int),
            bounds@ == bounds_of(view, i as int),
        decreases units.len() - i,
    {
        proof {
            lemma_tokens_grow(view, i as int, units@.len() as int);
            lemma_tokens_grow(view, i + 1, units@.len() as int);
            assert(view[i as int] == units@[i as int]@);
        }
        let before = out.len() as u32;
        out.extend_from_slice(units[i].as_slice());
        proof {
            assert(out@ =~= tokens_of(view, i + 1));
        }
        let after = out.len() as u32;
        push_unit(&mut bounds, before, after);
        i += 1;
    }
    (out, bounds)
}

proof fn lemma_tokens_grow(units: Seq<Seq<u32>>, i: int, n: int)
    requires
        i <= n,
    ensures
        tokens_of(units, i).len() <= tokens_of(units, n).len(),
    decreases n - i,
{
    if i < n {
        lemma_tokens_grow(units, i, n - 1);
    }
}

/// The prompt of a rendered history and its rendered cue.
pub fn build_prompt(history: &[Vec<u32>], cue: &[u32]) -> (r: Prompt)
    requires
        tokens_of(units_view(history@), history@.len() as int).len() <= u32::MAX - 256,
    ensures
        ({
            let h = tokens_of(units_view(history@), history@.len() as int);
            &&& r.tokens@ == h + cue@
            &&& r.history_len == h.len()
            &&& r.boundaries@ == bounds_of(units_view(history@), history@.len() as int)
        }),
{
    let (mut tokens, boundaries) = render_history(history);
    let history_len = tokens.len() as u32;
    tokens.extend_from_slice(cue);
    proof {
        assert(tokens@ =~= tokens_of(units_view(history@), history@.len() as int) + cue@);
    }
    Prompt { tokens, history_len, boundaries }
}

/// Boundaries ascend, none comes twice, none lies past the tokens, and the last
/// is the whole of them: each is a literal prefix of the render.
pub proof fn law_boundaries_ascend(units: Seq<Seq<u32>>, n: int)
    requires
        0 <= n,
        tokens_of(units, n).len() <= u32::MAX - 256,
    ensures
        forall|i: int, j: int|
            0 <= i < j < bounds_of(units, n).len() ==> bounds_of(units, n)[i] < bounds_of(
                units,
                n,
            )[j],
        forall|i: int|
            0 <= i < bounds_of(units, n).len() ==> #[trigger] bounds_of(units, n)[i]
                <= tokens_of(units, n).len(),
        n > 0 ==> bounds_of(units, n).len() > 0 && bounds_of(units, n).last() == tokens_of(
            units,
            n,
        ).len(),
    decreases n,
{
    if n > 0 {
        lemma_tokens_grow(units, n - 1, n);
        law_boundaries_ascend(units, n - 1);
        let front = bounds_of(units, n - 1);
        let before = tokens_of(units, n - 1).len() as int;
        let after = tokens_of(units, n).len() as int;
        let s = strides(before, after);
        let b = front + s;
        assert forall|i: int| 0 <= i < s.len() implies before < #[trigger] s[i] < after by {}
        assert forall|i: int, j: int| 0 <= i < j < s.len() implies s[i] < s[j] by {}
        assert forall|i: int| 0 <= i < b.len() implies #[trigger] b[i] <= after by {
            if i < front.len() {
                assert(b[i] == front[i]);
            } else {
                assert(b[i] == s[i - front.len()]);
            }
        }
        assert forall|i: int, j: int| 0 <= i < j < b.len() implies b[i] < b[j] by {
            if j < front.len() {
                assert(b[i] == front[i] && b[j] == front[j]);
            } else if i < front.len() {
                assert(b[i] == front[i]);
                assert(b[j] == s[j - front.len()]);
            } else {
                assert(b[i] == s[i - front.len()]);
                assert(b[j] == s[j - front.len()]);
            }
        }
        if !(b.len() > 0 && b.last() == after) {
            let all = b.push(after as u32);
            assert forall|i: int| 0 <= i < b.len() implies #[trigger] b[i] < after by {
                if b[i] == after {
                    if i < b.len() - 1 {
                        assert(b[i] < b[b.len() - 1]);
                    }
                }
            }
        }
    }
}

/// A request's fragment is the letters and digits of its instance id, from the
/// start and at most twelve, and a stand-in only where it has none.
pub proof fn law_a_fragment_is_letters_and_digits(s: Seq<char>, c: char, most: nat, i: int)
    ensures
        alphanumerics(Seq::empty(), most).len() == 0,
        alphanumerics(s, most).len() <= most,
        0 <= i < alphanumerics(s, most).len() ==> ascii_alphanumeric(alphanumerics(s, most)[i]),
        ascii_alphanumeric(c) && alphanumerics(s, most).len() < most ==> alphanumerics(s.push(c), most)
            == alphanumerics(s, most).push(c),
        !ascii_alphanumeric(c) || alphanumerics(s, most).len() == most ==> alphanumerics(
            s.push(c),
            most,
        ) == alphanumerics(s, most),
        ascii_alphanumeric(c) <==> ('a' <= c && c <= 'z') || ('A' <= c && c <= 'Z') || ('0' <= c && c
            <= '9'),
        alphanumerics(s, 12).len() > 0 ==> unique_fragment(s) == alphanumerics(s, 12),
        alphanumerics(s, 12).len() == 0 ==> unique_fragment(s) == "local"@,
    decreases s.len(),
{
    assert(s.push(c).drop_last() =~= s);
    if s.len() > 0 {
        law_a_fragment_is_letters_and_digits(s.drop_last(), c, most, i);
    }
}

/// The stride points of a unit are the multiples of 256 strictly inside it, in
/// ascending order.
pub proof fn law_stride_points_are_the_multiples_inside(before: int, after: int, x: int, i: int)
    requires
        0 <= before <= after <= u32::MAX - 256,
    ensures
        before < x < after && x % 256 == 0 ==> strides(before, after).contains(x as u32),
        0 <= i < strides(before, after).len() ==> before < strides(before, after)[i] < after
            && strides(before, after)[i] as int % 256 == 0,
        0 <= i && i + 1 < strides(before, after).len() ==> strides(before, after)[i + 1] == strides(
            before,
            after,
        )[i] + 256,
{
    let s = strides(before, after);
    let first = before / 256 + 1;
    let behind = (after + 255) / 256;
    if before < x < after && x % 256 == 0 {
        let k = x / 256 - first;
        assert(x == 256 * (x / 256));
        assert(s[k] == x);
    }
}

proof fn lemma_bounds_stay(units: Seq<Seq<u32>>, n: int, x: u32)
    requires
        n > 0,
        bounds_of(units, n - 1).contains(x),
    ensures
        bounds_of(units, n).contains(x),
{
    let front = bounds_of(units, n - 1);
    let k = choose|k: int| 0 <= k < front.len() && front[k] == x;
    assert(bounds_of(units, n)[k] == x);
}

/// Every unit ends at a boundary, and so does every stride of 256 tokens.
pub proof fn law_units_and_strides_end_at_boundaries(units: Seq<Seq<u32>>, n: int, k: int, x: int)
    requires
        0 < k <= n <= units.len(),
        tokens_of(units, n).len() <= u32::MAX - 256,
    ensures
        bounds_of(units, n).contains(tokens_of(units, k).len() as u32),
        0 < x <= tokens_of(units, n).len() && x % 256 == 0 ==> bounds_of(units, n).contains(x as u32),
    decreases n,
{
    law_boundaries_ascend(units, n);
    lemma_tokens_grow(units, n - 1, n);
    let all = bounds_of(units, n);
    let before = tokens_of(units, n - 1).len() as int;
    let after = tokens_of(units, n).len() as int;
    assert(all[all.len() - 1] == after);
    if k < n {
        law_units_and_strides_end_at_boundaries(units, n - 1, k, x);
        lemma_bounds_stay(units, n, tokens_of(units, k).len() as u32);
    } else if n > 1 {
        law_units_and_strides_end_at_boundaries(units, n - 1, n - 1, x);
    }
    if 0 < x <= after && x % 256 == 0 {
        if x <= before {
            lemma_bounds_stay(units, n, x as u32);
        } else if x < after {
            law_stride_points_are_the_multiples_inside(before, after, x, 0);
            let s = strides(before, after);
            let j = choose|j: int| 0 <= j < s.len() && s[j] == x as u32;
            assert(all[bounds_of(units, n - 1).len() + j] == x as u32);
        }
    }
}

/// The tokens of units are theirs, one unit behind the other.
pub proof fn law_units_follow_one_another(units: Seq<Seq<u32>>, n: int)
    requires
        0 <= n < units.len(),
    ensures
        tokens_of(units, 0).len() == 0,
        tokens_of(units, n + 1) == tokens_of(units, n) + units[n],
{
}

/// A status is announced as a number under its name, and a planning error names
/// the role that it is about.
pub proof fn law_a_status_is_announced(status: u16, role: Seq<char>)
    ensures
        member_of(status_tree(status), "status"@) == Some(Tree::Int(status as int)),
        plan_error_text(ErrorView::UnsupportedRole(role)).skip(
            plan_error_text(ErrorView::UnsupportedRole(role)).len() - role.len(),
        ) == role,
{
    let t = plan_error_text(ErrorView::UnsupportedRole(role));
    assert(t.skip(t.len() - role.len()) =~= role);
}

} // verus!
