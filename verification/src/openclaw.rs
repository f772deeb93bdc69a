//! The streaming chat inferlet for OpenClaw: history replay, incremental replay
//! of a resumed session, and the turn that emits one JSON event per line.

use vstd::prelude::*;
use vstd::string::*;
use vstd::utf8::encode_utf8;

use crate::chat::turn::Flow;
use crate::format::{dec, dec_of, lemma_dec_injective};
use crate::json::{json_text, natural, string, string_or_null, to_text, tree, Object, Tree};
use crate::replay::{
    call_pieces, lemma_leaves_ends, lemma_leaves_step, lemma_pieces, led_by, leaves, opt_text,
    outcome_view, pieces_by, pieces_in, replay_view, unsupported, uttered, Piece, Replay, ReplayOp,
    ReplayView,
};
use crate::serving::laws::at;
use crate::serving::render::{lemma_roles, pairs_view};
use crate::serving::streaming::{obj, CallOut};
use crate::serving::types::{copy_texts, texts};
use crate::text::{
    cat2, chars_of, find, first_at, law_a_search_finds_the_first_place, lemma_find_from, none_from,
    same, search, slice_of, starts_at, string_of, trim, trimmed,
};

verus! {

// ---------------------------------------------------------------------------
// Input
// ---------------------------------------------------------------------------

/// The token limit where none is given.
pub fn default_max_tokens() -> (r: usize)
    ensures
        r == 4096,
{
    4096
}

/// A message.
pub struct Message {
    pub role: String,
    pub content: Option<String>,
    /// Calls as pairs of name and arguments.
    pub tool_calls: Option<Vec<(String, String)>>,
}

/// A tool.
pub struct ToolSpec {
    pub name: String,
    pub description: String,
    pub parameters: serde_json::Value,
}

/// What a message holds.
pub struct MessageView {
    pub role: Seq<char>,
    pub content: Option<Seq<char>>,
    pub calls: Seq<(Seq<char>, Seq<char>)>,
}

impl View for Message {
    type V = MessageView;

    open spec fn view(&self) -> MessageView {
        MessageView {
            role: self.role@,
            content: opt_text(self.content),
            calls: match self.tool_calls {
                Some(c) => pairs_view(c@),
                None => Seq::empty(),
            },
        }
    }
}

/// What messages hold.
pub open spec fn messages_view(m: Seq<Message>) -> Seq<MessageView> {
    m.map_values(|x: Message| x@)
}

/// The schema of a tool.
pub open spec fn schema_text(t: ToolSpec) -> Seq<char> {
    json_text(
        Tree::Obj(
            obj().insert("name"@, Tree::Str(t.name@)).insert(
                "description"@,
                Tree::Str(t.description@),
            ).insert("parameters"@, tree(t.parameters)),
        ),
    )
}

/// The schemas of tools, in order.
pub fn tool_schemas(tools: &[ToolSpec]) -> (r: Vec<String>)
    ensures
        texts(r@) == tools@.map_values(|t: ToolSpec| schema_text(t)),
{
    let mut out: Vec<String> = Vec::new();
    let mut i: usize = 0;
    while i < tools.len()
        invariant
            i <= tools@.len(),
            out@.len() == i,
            forall|j: int| 0 <= j < i ==> (#[trigger] out@[j])@ == schema_text(tools@[j]),
        decreases tools.len() - i,
    {
        let mut o = Object::new();
        o.put("name", string(tools[i].name.as_str()));
        o.put("description", string(tools[i].description.as_str()));
        o.put("parameters", tools[i].parameters.clone());
        let v = o.build();
        out.push(to_text(&v));
        i += 1;
    }
    proof {
        assert(texts(out@) =~= tools@.map_values(|t: ToolSpec| schema_text(t)));
    }
    out
}

// ---------------------------------------------------------------------------
// Replay
// ---------------------------------------------------------------------------

/// A message's text, empty where it has none.
pub open spec fn content_of(m: MessageView) -> Seq<char> {
    match m.content {
        Some(s) => s,
        None => Seq::empty(),
    }
}

fn content_text(m: &Message) -> (r: String)
    ensures
        r@ == content_of(m@),
{
    match &m.content {
        Some(s) => s.clone(),
        None => String::new(),
    }
}

/// An assistant turn.
pub open spec fn assistant_turn(m: MessageView) -> ReplayView {
    if m.calls.len() == 0 {
        ReplayView::Assistant(content_of(m))
    } else {
        ReplayView::AssistantWithToolCalls { content: m.content, calls: m.calls }
    }
}

fn copy_pairs(v: &Vec<(String, String)>) -> (r: Vec<(String, String)>)
    ensures
        pairs_view(r@) == pairs_view(v@),
{
    let mut r: Vec<(String, String)> = Vec::new();
    let mut k: usize = 0;
    while k < v.len()
        invariant
            k <= v@.len(),
            r@.len() == k,
            forall|j: int|
                0 <= j < k ==> (#[trigger] r@[j]).0@ == v@[j].0@ && r@[j].1@ == v@[j].1@,
        decreases v.len() - k,
    {
        r.push((v[k].0.clone(), v[k].1.clone()));
        k += 1;
    }
    proof {
        assert(pairs_view(r@) =~= pairs_view(v@));
    }
    r
}

fn assistant_op(m: &Message) -> (r: ReplayOp)
    ensures
        r@ == assistant_turn(m@),
{
    match &m.tool_calls {
        Some(c) => {
            proof {
                assert(pairs_view(c@).len() == c@.len());
            }
            if c.len() > 0 {
                let content = match &m.content {
                    Some(s) => Some(s.clone()),
                    None => None,
                };
                return ReplayOp::AssistantWithToolCalls { content, calls: copy_pairs(c) };
            }
        },
        None => {},
    }
    ReplayOp::Assistant(content_text(m))
}

/// The end of the run of tool messages from `i` on.
pub open spec fn run_end(m: Seq<MessageView>, i: int) -> int
    decreases m.len() - i,
{
    if 0 <= i < m.len() && m[i].role == "tool"@ {
        run_end(m, i + 1)
    } else {
        i
    }
}

/// The results from `a` up to `b`, their tools unnamed.
pub open spec fn results(m: Seq<MessageView>, a: int, b: int) -> Seq<(Seq<char>, Seq<char>)> {
    Seq::new((b - a) as nat, |k: int| (Seq::<char>::empty(), content_of(m[a + k])))
}

/// The turns of the messages from `i` on.
pub open spec fn turns(m: Seq<MessageView>, i: int) -> Replay
    decreases m.len() - i,
    via turns_decreases
{
    if i < 0 || i >= m.len() {
        Ok(Seq::empty())
    } else if m[i].role == "system"@ {
        led_by(ReplayView::System(content_of(m[i])), turns(m, i + 1))
    } else if m[i].role == "user"@ {
        led_by(ReplayView::User(content_of(m[i])), turns(m, i + 1))
    } else if m[i].role == "assistant"@ {
        led_by(assistant_turn(m[i]), turns(m, i + 1))
    } else if m[i].role == "tool"@ {
        led_by(ReplayView::AnswerBatch(results(m, i, run_end(m, i))), turns(m, run_end(m, i)))
    } else {
        Err(unsupported(m[i].role))
    }
}

#[via_fn]
proof fn turns_decreases(m: Seq<MessageView>, i: int) {
    if 0 <= i < m.len() && m[i].role == "tool"@ {
        lemma_run(m, i + 1);
    }
}

proof fn lemma_run(m: Seq<MessageView>, i: int)
    requires
        0 <= i <= m.len(),
    ensures
        i <= run_end(m, i) <= m.len(),
    decreases m.len() - i,
{
    if i < m.len() && m[i].role == "tool"@ {
        lemma_run(m, i + 1);
    }
}

fn take_run(messages: &[Message], from: usize) -> (r: (Vec<(String, String)>, usize))
    requires
        from < messages@.len(),
        messages@[from as int]@.role == "tool"@,
    ensures
        from < r.1 <= messages@.len(),
        r.1 == run_end(messages_view(messages@), from as int),
        pairs_view(r.0@) == results(messages_view(messages@), from as int, r.1 as int),
{
    let ghost m = messages_view(messages@);
    let mut found: Vec<(String, String)> = Vec::new();
    let mut k: usize = from;
    let mut open: bool = true;
    while k < messages.len() && open
        invariant
            m == messages_view(messages@),
            from <= k <= messages@.len(),
            run_end(m, from as int) == run_end(m, k as int),
            !open ==> run_end(m, k as int) == k,
            found@.len() == k - from,
            forall|j: int|
                0 <= j < k - from ==> (#[trigger] found@[j]).0@ == Seq::<char>::empty()
                    && found@[j].1@ == content_of(m[from + j]),
        decreases messages.len() - k + (if open { 1int } else { 0int }),
    {
        proof {
            assert(m[k as int] == messages@[k as int]@);
        }
        if same(messages[k].role.as_str(), "tool") {
            found.push((String::new(), content_text(&messages[k])));
            k += 1;
        } else {
            open = false;
        }
    }
    proof {
        assert(m[from as int] == messages@[from as int]@);
        assert(run_end(m, from as int) == run_end(m, from + 1));
        lemma_run(m, from + 1);
        assert(pairs_view(found@) =~= results(m, from as int, k as int));
    }
    (found, k)
}

fn replay_from(messages: &[Message], start: usize) -> (r: Result<Vec<ReplayOp>, String>)
    requires
        start <= messages@.len(),
    ensures
        outcome_view(r) == turns(messages_view(messages@), start as int),
{
    let ghost m = messages_view(messages@);
    let ghost all = turns(m, start as int);
    let mut ops: Vec<ReplayOp> = Vec::new();
    let mut i: usize = start;
    proof {
        lemma_leaves_ends(all, Seq::empty());
        assert(replay_view(ops@) =~= Seq::empty());
    }
    while i < messages.len()
        invariant
            i <= messages@.len(),
            m == messages_view(messages@),
            all == turns(m, start as int),
            leaves(all, replay_view(ops@), turns(m, i as int)),
        decreases messages.len() - i,
    {
        let msg = &messages[i];
        let ghost before = replay_view(ops@);
        proof {
            assert(m[i as int] == msg@);
        }
        let role = msg.role.as_str();
        if same(role, "system") {
            ops.push(ReplayOp::System(content_text(msg)));
            i += 1;
        } else if same(role, "user") {
            ops.push(ReplayOp::User(content_text(msg)));
            i += 1;
        } else if same(role, "assistant") {
            ops.push(assistant_op(msg));
            i += 1;
        } else if same(role, "tool") {
            let (found, k) = take_run(messages, i);
            ops.push(ReplayOp::AnswerBatch(found));
            i = k;
        } else {
            return Err(cat2("unsupported message role: ", role));
        }
        proof {
            let op = ops@.last()@;
            assert(replay_view(ops@) =~= before.push(op));
            lemma_leaves_step(all, before, op, turns(m, i as int));
        }
    }
    proof {
        lemma_leaves_ends(all, replay_view(ops@));
    }
    Ok(ops)
}

/// The turns of a whole history. The tool schemas are folded into a leading
/// system message, or stand in front of everything.
pub open spec fn history(m: Seq<MessageView>, schemas: Seq<Seq<char>>) -> Replay {
    if schemas.len() == 0 {
        turns(m, 0)
    } else if m.len() > 0 && m[0].role == "system"@ {
        led_by(
            ReplayView::EquipAfterSystem { system: m[0].content, tools: schemas },
            turns(m, 1),
        )
    } else {
        led_by(ReplayView::Equip(schemas), turns(m, 0))
    }
}

/// The turns of a whole history.
pub fn replay_history(messages: &[Message], schemas: &[String]) -> (r: Result<
    Vec<ReplayOp>,
    String,
>)
    ensures
        outcome_view(r) == history(messages_view(messages@), texts(schemas@)),
{
    let ghost m = messages_view(messages@);
    if schemas.len() == 0 {
        return replay_from(messages, 0);
    }
    proof {
        assert(texts(schemas@).len() > 0);
        if messages@.len() > 0 {
            assert(m[0] == messages@[0]@);
        }
    }
    let tools = copy_texts(schemas);
    let (head, start): (ReplayOp, usize) = if messages.len() > 0 && same(
        messages[0].role.as_str(),
        "system",
    ) {
        let system = match &messages[0].content {
            Some(s) => Some(s.clone()),
            None => None,
        };
        (ReplayOp::EquipAfterSystem { system, tools }, 1)
    } else {
        (ReplayOp::Equip(tools), 0)
    };
    let ghost first = head@;
    match replay_from(messages, start) {
        Ok(rest) => {
            let ghost behind = replay_view(rest@);
            let mut ops: Vec<ReplayOp> = Vec::new();
            ops.push(head);
            let mut rest = rest;
            ops.append(&mut rest);
            proof {
                assert(replay_view(ops@) =~= seq![first] + behind);
            }
            Ok(ops)
        },
        Err(e) => Err(e),
    }
}

/// The turns that the new messages from `i` on add to a resumed context. Consecutive
/// tool results are one batch; a role that is in the context already, or unknown,
/// adds none.
pub open spec fn added_turns(m: Seq<MessageView>, i: int) -> Seq<ReplayView>
    decreases m.len() - i,
    via added_turns_decreases
{
    if i < 0 || i >= m.len() {
        Seq::empty()
    } else if m[i].role == "user"@ {
        seq![ReplayView::User(content_of(m[i]))] + added_turns(m, i + 1)
    } else if m[i].role == "assistant"@ {
        seq![assistant_turn(m[i])] + added_turns(m, i + 1)
    } else if m[i].role == "tool"@ {
        seq![ReplayView::AnswerBatch(results(m, i, run_end(m, i)))] + added_turns(m, run_end(m, i))
    } else {
        added_turns(m, i + 1)
    }
}

#[via_fn]
proof fn added_turns_decreases(m: Seq<MessageView>, i: int) {
    if 0 <= i < m.len() && m[i].role == "tool"@ {
        lemma_run(m, i + 1);
    }
}

/// The turns that new messages add to a resumed context: system prompt and tools
/// are in it already.
pub fn replay_incremental(new_messages: &[Message]) -> (r: Vec<ReplayOp>)
    ensures
        replay_view(r@) == added_turns(messages_view(new_messages@), 0),
{
    let ghost m = messages_view(new_messages@);
    let mut ops: Vec<ReplayOp> = Vec::new();
    let mut i: usize = 0;
    proof {
        assert(replay_view(ops@) + added_turns(m, 0) =~= added_turns(m, 0));
    }
    while i < new_messages.len()
        invariant
            i <= new_messages@.len(),
            m == messages_view(new_messages@),
            added_turns(m, 0) == replay_view(ops@) + added_turns(m, i as int),
        decreases new_messages.len() - i,
    {
        let msg = &new_messages[i];
        let ghost before = replay_view(ops@);
        let ghost at = i as int;
        proof {
            assert(m[i as int] == msg@);
        }
        let role = msg.role.as_str();
        let op: Option<ReplayOp> = if same(role, "user") {
            i += 1;
            Some(ReplayOp::User(content_text(msg)))
        } else if same(role, "assistant") {
            i += 1;
            Some(assistant_op(msg))
        } else if same(role, "tool") {
            let (found, k) = take_run(new_messages, i);
            i = k;
            Some(ReplayOp::AnswerBatch(found))
        } else {
            i += 1;
            None
        };
        match op {
            Some(o) => {
                let ghost v = o@;
                ops.push(o);
                proof {
                    assert(replay_view(ops@) =~= before.push(v));
                    assert(added_turns(m, at) == seq![v] + added_turns(m, i as int));
                    assert(before + (seq![v] + added_turns(m, i as int)) =~= before.push(v)
                        + added_turns(m, i as int));
                }
            },
            None => {},
        }
    }
    proof {
        assert(replay_view(ops@) + Seq::<ReplayView>::empty() =~= replay_view(ops@));
    }
    ops
}

/// New messages are replayed onto a resumed context as the full replay has them:
/// where it can be replayed and holds no system message.
pub proof fn law_new_messages_replay_as_in_full(m: Seq<MessageView>, i: int)
    requires
        0 <= i <= m.len(),
        turns(m, i) is Ok,
        forall|k: int| i <= k < m.len() ==> (#[trigger] m[k]).role != "system"@,
    ensures
        turns(m, i) == Ok::<Seq<ReplayView>, Seq<char>>(added_turns(m, i)),
    decreases m.len() - i,
{
    if i < m.len() {
        assert(m[i].role != "system"@);
        if m[i].role == "user"@ || m[i].role == "assistant"@ {
            law_new_messages_replay_as_in_full(m, i + 1);
        } else if m[i].role == "tool"@ {
            lemma_run(m, i + 1);
            law_new_messages_replay_as_in_full(m, run_end(m, i));
        }
    }
}

/// Where the new messages of a resumed session start; `None` where there is
/// nothing to resume. A snapshot that is gone is a full replay.
pub fn resume_at(session: bool, resume_from: usize, messages: usize) -> (r: Option<usize>)
    ensures
        match r {
            Some(i) => session && resume_from > 0 && i == (if resume_from < messages {
                resume_from
            } else {
                messages
            }),
            None => !session || resume_from == 0,
        },
{
    if session && resume_from > 0 {
        if resume_from < messages {
            Some(resume_from)
        } else {
            Some(messages)
        }
    } else {
        None
    }
}

// ---------------------------------------------------------------------------
// Stop strings
// ---------------------------------------------------------------------------

/// `stop` ends `text`.
pub open spec fn ends(text: Seq<char>, stop: Seq<char>) -> bool {
    stop.len() <= text.len() && text.skip(text.len() - stop.len()) == stop
}

/// The first of the stop strings from `i` on that ends the text.
pub open spec fn first_stop(text: Seq<char>, stops: Seq<Seq<char>>, i: int) -> Option<int>
    decreases stops.len() - i,
{
    if i < 0 || i >= stops.len() {
        None
    } else if ends(text, stops[i]) {
        Some(i)
    } else {
        first_stop(text, stops, i + 1)
    }
}

fn find_stop(text: &[char], stops: &[String]) -> (r: Option<usize>)
    ensures
        match r {
            Some(i) => i < stops@.len() && first_stop(text@, texts(stops@), 0) == Some(i as int)
                && ends(text@, stops@[i as int]@),
            None => first_stop(text@, texts(stops@), 0) is None,
        },
{
    let ghost all = texts(stops@);
    let mut i: usize = 0;
    while i < stops.len()
        invariant
            i <= stops@.len(),
            all == texts(stops@),
            first_stop(text@, all, 0) == first_stop(text@, all, i as int),
        decreases stops.len() - i,
    {
        let pat = chars_of(stops[i].as_str());
        proof {
            assert(all[i as int] == pat@);
        }
        if pat.len() <= text.len() {
            let at: usize = text.len() - pat.len();
            proof {
                assert(text@.subrange(at as int, at + pat@.len()) =~= text@.skip(at as int));
            }
            if starts_at(text, pat.as_slice(), at) {
                return Some(i);
            }
        }
        i += 1;
    }
    None
}

/// A text without the first stop string that ends it.
pub open spec fn without_stop(text: Seq<char>, stops: Seq<Seq<char>>) -> Seq<char> {
    match first_stop(text, stops, 0) {
        Some(i) => text.take(text.len() - stops[i].len()),
        None => text,
    }
}

/// A text without the first stop string that ends it.
pub fn trim_trailing_stop(text: &str, stops: &[String]) -> (r: String)
    ensures
        r@ == without_stop(text@, texts(stops@)),
{
    let s = chars_of(text);
    match find_stop(s.as_slice(), stops) {
        Some(i) => {
            let pat = chars_of(stops[i].as_str());
            proof {
                assert(texts(stops@)[i as int] == pat@);
            }
            let kept = slice_of(s.as_slice(), 0, s.len() - pat.len());
            proof {
                assert(kept@ =~= s@.take(s@.len() - pat@.len()));
            }
            string_of(kept.as_slice())
        },
        None => text.to_owned(),
    }
}

/// The bytes of the longest of the first `n` stop strings.
pub open spec fn longest(stops: Seq<Seq<char>>, n: int) -> int
    decreases n,
{
    if n <= 0 {
        0
    } else {
        let size = encode_utf8(stops[n - 1]).len() as int;
        if size > longest(stops, n - 1) {
            size
        } else {
            longest(stops, n - 1)
        }
    }
}

/// How many of the last tokens are decoded to look for a stop string: at least
/// eight, and one for each two bytes of the longest.
pub open spec fn tail_size(stops: Seq<Seq<char>>, generated: int) -> int {
    let half = longest(stops, stops.len() as int) / 2;
    let wanted = if half < 8 {
        8
    } else {
        half
    };
    if wanted < generated {
        wanted
    } else {
        generated
    }
}

/// How many of the last tokens are decoded to look for a stop string.
pub fn stop_tail(stops: &[String], generated: usize) -> (r: usize)
    ensures
        r == tail_size(texts(stops@), generated as int),
        r <= generated,
{
    let ghost all = texts(stops@);
    let mut most: usize = 0;
    let mut i: usize = 0;
    while i < stops.len()
        invariant
            i <= stops@.len(),
            all == texts(stops@),
            most == longest(all, i as int),
        decreases stops.len() - i,
    {
        let size = stops[i].as_str().as_bytes().len();
        proof {
            assert(all[i as int] == stops@[i as int]@);
        }
        if size > most {
            most = size;
        }
        i += 1;
    }
    let half = most / 2;
    let wanted: usize = if half < 8 {
        8
    } else {
        half
    };
    if wanted < generated {
        wanted
    } else {
        generated
    }
}

// ---------------------------------------------------------------------------
// The turn
// ---------------------------------------------------------------------------

/// A tool call.
pub struct ToolCallOut {
    pub id: String,
    pub name: String,
    pub arguments: String,
}

/// What calls hold.
pub open spec fn calls_view(c: Seq<ToolCallOut>) -> Seq<CallOut> {
    c.map_values(|x: ToolCallOut| (x.id@, x.name@, x.arguments@))
}

/// What the text decoder made of a token.
pub enum TextEvent {
    Delta(String),
    /// The whole text of the turn.
    Done(String),
    Quiet,
}

/// What a text event holds.
pub enum TextView {
    Delta(Seq<char>),
    Done(Seq<char>),
    Quiet,
}

impl View for TextEvent {
    type V = TextView;

    open spec fn view(&self) -> TextView {
        match *self {
            TextEvent::Delta(s) => TextView::Delta(s@),
            TextEvent::Done(s) => TextView::Done(s@),
            TextEvent::Quiet => TextView::Quiet,
        }
    }
}

/// What a turn has done so far.
#[verifier::ext_equal]
pub struct ClawView {
    pub generated: Seq<u32>,
    pub text: Seq<char>,
    pub calls: Seq<CallOut>,
    /// Whether the model or a stop string ended the turn.
    pub stopped: bool,
    /// The events emitted.
    pub events: Seq<Tree>,
}

/// A turn that has not begun.
pub open spec fn fresh_claw() -> ClawView {
    ClawView {
        generated: Seq::empty(),
        text: Seq::empty(),
        calls: Seq::empty(),
        stopped: false,
        events: Seq::empty(),
    }
}

/// The event of more text.
pub open spec fn delta_tree(s: Seq<char>) -> Tree {
    Tree::Obj(obj().insert("type"@, Tree::Str("text_delta"@)).insert("delta"@, Tree::Str(s)))
}

/// The id of call number `n`.
pub open spec fn claw_call_id(n: nat) -> Seq<char> {
    "call_"@ + dec(n)
}

/// The event of a call.
pub open spec fn call_tree(id: Seq<char>, name: Seq<char>, args: Seq<char>) -> Tree {
    Tree::Obj(
        obj().insert("type"@, Tree::Str("tool_call"@)).insert("id"@, Tree::Str(id)).insert(
            "name"@,
            Tree::Str(name),
        ).insert("arguments"@, Tree::Str(args)),
    )
}

/// A turn behind one token, and whether it goes on: its text first, then its
/// call, then the stop tokens.
pub open spec fn tokened(
    v: ClawView,
    t: u32,
    text: TextView,
    call: Option<(Seq<char>, Seq<char>)>,
    stop: bool,
) -> (ClawView, Flow) {
    let a = ClawView { generated: v.generated.push(t), ..v };
    let b = match text {
        TextView::Delta(s) => ClawView {
            text: a.text + s,
            events: a.events.push(delta_tree(s)),
            ..a
        },
        TextView::Done(s) => ClawView { text: s, stopped: true, ..a },
        TextView::Quiet => a,
    };
    let c = match call {
        Some(x) => {
            let id = claw_call_id(b.calls.len());
            ClawView {
                calls: b.calls.push((id, x.0, x.1)),
                events: b.events.push(call_tree(id, x.0, x.1)),
                ..b
            }
        },
        None => b,
    };
    if stop {
        (ClawView { stopped: true, ..c }, Flow::Break)
    } else {
        (c, Flow::Continue)
    }
}

/// A turn behind a step, and whether it goes on: a stop string that ends the
/// decoded tail stops it, and so does the token limit. A tail that does not
/// decode is passed over.
pub open spec fn stepped(
    v: ClawView,
    stops: Seq<Seq<char>>,
    tail: Option<Seq<char>>,
    max_tokens: usize,
) -> (ClawView, Flow) {
    let hit = match tail {
        Some(s) => first_stop(s, stops, 0) is Some,
        None => false,
    };
    if hit {
        (ClawView { stopped: true, ..v }, Flow::Break)
    } else if v.generated.len() >= max_tokens {
        (v, Flow::Break)
    } else {
        (v, Flow::Continue)
    }
}

/// Why a turn finished.
pub open spec fn stop_reason_of(v: ClawView) -> Seq<char> {
    if v.calls.len() > 0 {
        "tool_calls"@
    } else if v.stopped {
        "stop"@
    } else {
        "length"@
    }
}

/// The text of a finished turn: without a trailing stop string; with calls, what
/// stands in front of the first one, trimmed.
pub open spec fn final_text_of(v: ClawView, stops: Seq<Seq<char>>) -> Seq<char> {
    if v.calls.len() == 0 {
        without_stop(v.text, stops)
    } else {
        match find(v.text, "<tool_call>"@) {
            Some(i) => trim(v.text.take(i)),
            None => trim(v.text),
        }
    }
}

/// The last event of a turn.
pub open spec fn done_tree(
    v: ClawView,
    prompt_tokens: int,
    session_id: Option<Seq<char>>,
    messages: int,
) -> Tree {
    Tree::Obj(
        obj().insert("type"@, Tree::Str("done"@)).insert(
            "stop_reason"@,
            Tree::Str(stop_reason_of(v)),
        ).insert("prompt_tokens"@, Tree::Int(prompt_tokens)).insert(
            "generated_tokens"@,
            Tree::Int(v.generated.len() as int),
        ).insert(
            "session_id"@,
            match session_id {
                Some(s) => Tree::Str(s),
                None => Tree::Null,
            },
        ).insert("turn_message_count"@, Tree::Int(messages)),
    )
}

/// The state of a turn.
pub struct ClawTurn {
    generated: Vec<u32>,
    text: String,
    calls: Vec<ToolCallOut>,
    stopped: bool,
    events: Vec<serde_json::Value>,
}

impl View for ClawTurn {
    type V = ClawView;

    closed spec fn view(&self) -> ClawView {
        ClawView {
            generated: self.generated@,
            text: self.text@,
            calls: calls_view(self.calls@),
            stopped: self.stopped,
            events: self.events@.map_values(|x: serde_json::Value| tree(x)),
        }
    }
}

impl ClawTurn {
    /// A turn that has not begun.
    pub fn new() -> (r: ClawTurn)
        ensures
            r@ == fresh_claw(),
    {
        let r = ClawTurn {
            generated: Vec::new(),
            text: String::new(),
            calls: Vec::new(),
            stopped: false,
            events: Vec::new(),
        };
        proof {
            assert(r@ =~= fresh_claw());
        }
        r
    }

    fn push_call(&mut self, name: String, arguments: String)
        ensures
            final(self)@ == ({
                let id = claw_call_id(old(self)@.calls.len());
                ClawView {
                    calls: old(self)@.calls.push((id, name@, arguments@)),
                    events: old(self)@.events.push(call_tree(id, name@, arguments@)),
                    ..old(self)@
                }
            }),
    {
        let n = self.calls.len();
        let id = cat2("call_", dec_of(n as u64).as_str());
        let mut o = Object::new();
        o.put("type", string("tool_call"));
        o.put("id", string(id.as_str()));
        o.put("name", string(name.as_str()));
        o.put("arguments", string(arguments.as_str()));
        self.events.push(o.build());
        let ghost seen = self.calls@;
        let ghost x = (id@, name@, arguments@);
        self.calls.push(ToolCallOut { id, name, arguments });
        proof {
            assert(calls_view(self.calls@) =~= calls_view(seen).push(x));
            assert(self@ =~= ClawView {
                calls: old(self)@.calls.push(x),
                events: old(self)@.events.push(call_tree(x.0, x.1, x.2)),
                ..old(self)@
            });
        }
    }

    fn take_text(&mut self, text: TextEvent)
        ensures
            final(self)@ == (match text@ {
                TextView::Delta(s) => ClawView {
                    text: old(self)@.text + s,
                    events: old(self)@.events.push(delta_tree(s)),
                    ..old(self)@
                },
                TextView::Done(s) => ClawView { text: s, stopped: true, ..old(self)@ },
                TextView::Quiet => old(self)@,
            }),
    {
        match text {
            TextEvent::Delta(s) => {
                self.text.append(s.as_str());
                let mut o = Object::new();
                o.put("type", string("text_delta"));
                o.put("delta", string(s.as_str()));
                self.events.push(o.build());
                proof {
                    assert(self@ =~= ClawView {
                        text: old(self)@.text + s@,
                        events: old(self)@.events.push(delta_tree(s@)),
                        ..old(self)@
                    });
                }
            },
            TextEvent::Done(s) => {
                self.text = s;
                self.stopped = true;
                proof {
                    assert(self@ =~= ClawView { text: s@, stopped: true, ..old(self)@ });
                }
            },
            TextEvent::Quiet => {},
        }
    }

    /// Handles one token: what the text decoder made of it, the call it
    /// completed, and whether it is a stop token.
    pub fn on_token(&mut self, t: u32, text: TextEvent, call: Option<(String, String)>, stop: bool) -> (r:
        Flow)
        ensures
            (final(self)@, r) == tokened(
                old(self)@,
                t,
                text@,
                match call {
                    Some(c) => Some((c.0@, c.1@)),
                    None => None,
                },
                stop,
            ),
    {
        self.generated.push(t);
        proof {
            assert(self@ =~= ClawView { generated: old(self)@.generated.push(t), ..old(self)@ });
        }
        self.take_text(text);
        match call {
            Some((name, arguments)) => {
                self.push_call(name, arguments);
            },
            None => {},
        }
        if stop {
            let ghost before = self@;
            self.stopped = true;
            proof {
                assert(self@ =~= ClawView { stopped: true, ..before });
            }
            return Flow::Break;
        }
        Flow::Continue
    }

    /// Handles the end of a step, with the decoded tail where stop strings are
    /// given and it decodes.
    pub fn after_step(&mut self, stops: &[String], tail: Option<&str>, max_tokens: usize) -> (r: Flow)
        ensures
            (final(self)@, r) == stepped(
                old(self)@,
                texts(stops@),
                match tail {
                    Some(s) => Some(s@),
                    None => None,
                },
                max_tokens,
            ),
    {
        match tail {
            Some(s) => {
                if find_stop(chars_of(s).as_slice(), stops).is_some() {
                    self.stopped = true;
                    proof {
                        assert(self@ =~= ClawView { stopped: true, ..old(self)@ });
                    }
                    return Flow::Break;
                }
            },
            None => {},
        }
        if self.generated.len() >= max_tokens {
            Flow::Break
        } else {
            Flow::Continue
        }
    }

    /// Why the turn finished.
    pub fn stop_reason(&self) -> (r: &'static str)
        ensures
            r@ == stop_reason_of(self@),
    {
        if self.calls.len() > 0 {
            "tool_calls"
        } else if self.stopped {
            "stop"
        } else {
            "length"
        }
    }

    /// The text of the finished turn.
    pub fn final_text(&self, stops: &[String]) -> (r: String)
        ensures
            r@ == final_text_of(self@, texts(stops@)),
    {
        if self.calls.len() == 0 {
            return trim_trailing_stop(self.text.as_str(), stops);
        }
        let s = chars_of(self.text.as_str());
        let tag = chars_of("<tool_call>");
        match search(s.as_slice(), tag.as_slice(), 0) {
            Some(i) => {
                proof {
                    lemma_find_from(s@, tag@, 0);
                }
                let front = slice_of(s.as_slice(), 0, i);
                proof {
                    assert(front@ =~= s@.take(i as int));
                }
                string_of(trimmed(front.as_slice()).as_slice())
            },
            None => string_of(trimmed(s.as_slice()).as_slice()),
        }
    }

    /// The last event of the turn.
    pub fn done_event(&self, prompt_tokens: usize, session_id: Option<&str>, messages: usize) -> (v:
        serde_json::Value)
        ensures
            tree(v) == done_tree(
                self@,
                prompt_tokens as int,
                match session_id {
                    Some(s) => Some(s@),
                    None => None,
                },
                messages as int,
            ),
    {
        let mut o = Object::new();
        o.put("type", string("done"));
        o.put("stop_reason", string(self.stop_reason()));
        o.put("prompt_tokens", natural(prompt_tokens as u64));
        o.put("generated_tokens", natural(self.generated.len() as u64));
        o.put("session_id", string_or_null(session_id));
        o.put("turn_message_count", natural(messages as u64));
        o.build()
    }

    /// The events emitted since the last call, which are then forgotten.
    pub fn take_events(&mut self) -> (r: Vec<serde_json::Value>)
        ensures
            r@.map_values(|x: serde_json::Value| tree(x)) == old(self)@.events,
            final(self)@ == (ClawView { events: Seq::empty(), ..old(self)@ }),
    {
        let mut out: Vec<serde_json::Value> = Vec::new();
        out.append(&mut self.events);
        proof {
            assert(out@ =~= old(self).events@);
            assert(self@ =~= ClawView { events: Seq::empty(), ..old(self)@ });
        }
        out
    }

    /// The last `n` tokens.
    pub fn last_tokens(&self, n: usize) -> (r: &[u32])
        requires
            n <= self@.generated.len(),
        ensures
            r@ == self@.generated.skip(self@.generated.len() - n),
    {
        let r = vstd::slice::slice_subrange(
            self.generated.as_slice(),
            self.generated.len() - n,
            self.generated.len(),
        );
        proof {
            assert(r@ =~= self.generated@.skip(self.generated@.len() - n));
        }
        r
    }

    /// How many tokens were generated.
    pub fn count(&self) -> (r: usize)
        ensures
            r == self@.generated.len(),
    {
        self.generated.len()
    }

    /// The calls of the turn.
    pub fn into_calls(self) -> (r: Vec<ToolCallOut>)
        ensures
            calls_view(r@) == self@.calls,
    {
        self.calls
    }
}

// ---------------------------------------------------------------------------
// What is kept and told
// ---------------------------------------------------------------------------

/// What a message adds to the conversation.
pub open spec fn message_pieces(m: MessageView) -> Seq<Piece> {
    let text = match m.content {
        Some(s) => s,
        None => Seq::empty(),
    };
    if m.role == "system"@ {
        uttered(text, Piece::System(text))
    } else if m.role == "user"@ {
        seq![Piece::User(text)]
    } else if m.role == "assistant"@ {
        uttered(text, Piece::Assistant(text)) + call_pieces(m.calls)
    } else {
        seq![Piece::Result(text)]
    }
}

/// What the messages from `a` up to `b` add.
pub open spec fn messages_pieces(m: Seq<MessageView>, a: int, b: int) -> Seq<Piece>
    decreases b - a,
{
    if a >= b {
        Seq::empty()
    } else {
        message_pieces(m[a]) + messages_pieces(m, a + 1, b)
    }
}

/// Whether a role is one that can be replayed.
pub open spec fn known(role: Seq<char>) -> bool {
    role == "system"@ || role == "user"@ || role == "assistant"@ || role == "tool"@
}

proof fn lemma_pieces_split(m: Seq<MessageView>, a: int, k: int, b: int)
    requires
        a <= k <= b,
    ensures
        messages_pieces(m, a, b) == messages_pieces(m, a, k) + messages_pieces(m, k, b),
    decreases k - a,
{
    if a < k {
        lemma_pieces_split(m, a + 1, k, b);
        let x = message_pieces(m[a]);
        let y = messages_pieces(m, a + 1, k);
        let z = messages_pieces(m, k, b);
        assert(x + (y + z) =~= (x + y) + z);
    } else {
        assert(Seq::<Piece>::empty() + messages_pieces(m, k, b) =~= messages_pieces(m, k, b));
    }
}

proof fn lemma_run_is_tools(m: Seq<MessageView>, i: int)
    requires
        0 <= i <= m.len(),
    ensures
        i <= run_end(m, i) <= m.len(),
        forall|j: int| i <= j < run_end(m, i) ==> (#[trigger] m[j]).role == "tool"@,
        run_end(m, i) < m.len() ==> m[run_end(m, i)].role != "tool"@,
    decreases m.len() - i,
{
    if i < m.len() && m[i].role == "tool"@ {
        lemma_run_is_tools(m, i + 1);
    }
}

proof fn lemma_results(m: Seq<MessageView>, a: int, b: int)
    requires
        0 <= a <= b <= m.len(),
        forall|j: int| a <= j < b ==> (#[trigger] m[j]).role == "tool"@,
    ensures
        messages_pieces(m, a, b) == pieces_in(ReplayView::AnswerBatch(results(m, a, b))),
    decreases b - a,
{
    lemma_roles();
    let all = pieces_in(ReplayView::AnswerBatch(results(m, a, b)));
    if a < b {
        lemma_results(m, a + 1, b);
        let rest = pieces_in(ReplayView::AnswerBatch(results(m, a + 1, b)));
        assert(all =~= message_pieces(m[a]) + rest);
    } else {
        assert(all =~= Seq::<Piece>::empty());
    }
}

proof fn lemma_messages_replayed(m: Seq<MessageView>, i: int)
    requires
        0 <= i <= m.len(),
    ensures
        turns(m, i) is Ok <==> forall|j: int| i <= j < m.len() ==> known((#[trigger] m[j]).role),
        turns(m, i) is Ok ==> pieces_by(turns(m, i)->Ok_0) == messages_pieces(m, i, m.len() as int),
    decreases m.len() - i,
{
    lemma_roles();
    let n = m.len() as int;
    if i < n {
        if m[i].role == "tool"@ {
            let e = run_end(m, i);
            lemma_run_is_tools(m, i);
            lemma_run_is_tools(m, i + 1);
            lemma_messages_replayed(m, e);
            assert forall|j: int| i <= j < e implies known((#[trigger] m[j]).role) by {}
            if turns(m, e) is Ok {
                lemma_results(m, i, e);
                lemma_pieces_split(m, i, e, n);
                lemma_pieces(ReplayView::AnswerBatch(results(m, i, e)), turns(m, e)->Ok_0);
            }
        } else if known(m[i].role) {
            let op = if m[i].role == "user"@ {
                ReplayView::User(content_of(m[i]))
            } else if m[i].role == "assistant"@ {
                assistant_turn(m[i])
            } else {
                ReplayView::System(content_of(m[i]))
            };
            lemma_messages_replayed(m, i + 1);
            if turns(m, i + 1) is Ok {
                lemma_pieces(op, turns(m, i + 1)->Ok_0);
                assert(pieces_in(op) =~= message_pieces(m[i]));
            }
        }
    }
}

/// Every message of a history is replayed, once and in its order: nothing that
/// was said, called or answered is lost. A history replays exactly where every
/// role in it is known, and the tool schemas stand in its first turn.
pub proof fn law_every_message_is_replayed(m: Seq<MessageView>, i: int, schemas: Seq<Seq<char>>)
    requires
        0 <= i <= m.len(),
    ensures
        turns(m, i) is Ok <==> forall|j: int| i <= j < m.len() ==> known((#[trigger] m[j]).role),
        turns(m, i) is Ok ==> pieces_by(turns(m, i)->Ok_0) == messages_pieces(m, i, m.len() as int),
        history(m, schemas) is Ok <==> forall|j: int|
            0 <= j < m.len() ==> known((#[trigger] m[j]).role),
        history(m, schemas) is Ok ==> pieces_by(history(m, schemas)->Ok_0) == messages_pieces(
            m,
            0,
            m.len() as int,
        ),
        history(m, schemas) is Ok && schemas.len() > 0 ==> ({
            let ops = history(m, schemas)->Ok_0;
            ops.len() > 0 && (ops[0] == ReplayView::Equip(schemas) || (ops[0] is EquipAfterSystem
                && ops[0]->tools == schemas))
        }),
{
    lemma_roles();
    lemma_messages_replayed(m, i);
    lemma_messages_replayed(m, 0);
    if schemas.len() > 0 && m.len() > 0 && m[0].role == "system"@ {
        lemma_messages_replayed(m, 1);
        assert forall|j: int| 1 <= j < m.len() implies (known((#[trigger] m[j]).role) || !(history(
            m,
            schemas,
        ) is Ok)) by {}
        if history(m, schemas) is Ok {
            let op = ReplayView::EquipAfterSystem { system: m[0].content, tools: schemas };
            lemma_pieces(op, turns(m, 1)->Ok_0);
            assert(pieces_in(op) =~= message_pieces(m[0]));
        }
    } else if schemas.len() > 0 && turns(m, 0) is Ok {
        lemma_pieces(ReplayView::Equip(schemas), turns(m, 0)->Ok_0);
        assert(pieces_in(ReplayView::Equip(schemas)) + pieces_by(turns(m, 0)->Ok_0) =~= pieces_by(
            turns(m, 0)->Ok_0,
        ));
    }
}

/// The text of a message is whole; one without is empty.
pub proof fn law_a_message_without_content_is_empty(m: MessageView, s: Seq<char>)
    ensures
        m.content == Some(s) ==> content_of(m) == s,
        m.content is None ==> content_of(m).len() == 0,
{
}

proof fn lemma_first_stop(text: Seq<char>, stops: Seq<Seq<char>>, i: int)
    requires
        0 <= i,
    ensures
        match first_stop(text, stops, i) {
            Some(k) => i <= k < stops.len() && ends(text, stops[k]) && forall|j: int|
                i <= j < k ==> !ends(text, #[trigger] stops[j]),
            None => forall|j: int| i <= j < stops.len() ==> !ends(text, #[trigger] stops[j]),
        },
    decreases stops.len() - i,
{
    if i < stops.len() && !ends(text, stops[i]) {
        lemma_first_stop(text, stops, i + 1);
    }
}

/// A text loses the first stop string that ends it, and nothing else: what is
/// left, with that stop string behind it, is the text again.
pub proof fn law_only_the_stop_is_trimmed(text: Seq<char>, stops: Seq<Seq<char>>, k: int)
    ensures
        (forall|j: int| 0 <= j < stops.len() ==> !ends(text, #[trigger] stops[j])) ==> without_stop(
            text,
            stops,
        ) == text,
        0 <= k < stops.len() && ends(text, stops[k]) && (forall|j: int|
            0 <= j < k ==> !ends(text, #[trigger] stops[j])) ==> without_stop(text, stops) + stops[k]
            == text,
{
    lemma_first_stop(text, stops, 0);
    if let Some(i) = first_stop(text, stops, 0) {
        assert(text =~= text.take(text.len() - stops[i].len()) + text.skip(
            text.len() - stops[i].len(),
        ));
        assert(ends(text, stops[i]));
    }
}

/// A text ends with a stop string exactly where something stands in front of it.
pub proof fn law_a_text_ends_with_its_stop(text: Seq<char>, stop: Seq<char>, lead: Seq<char>)
    ensures
        ends(lead + stop, stop),
        ends(text, stop) ==> text == text.take(text.len() - stop.len()) + stop,
{
    assert((lead + stop).skip((lead + stop).len() - stop.len()) =~= stop);
    if ends(text, stop) {
        assert(text =~= text.take(text.len() - stop.len()) + text.skip(text.len() - stop.len()));
    }
}

/// The longest stop string is as long as one of them and no shorter than any, and
/// the tail that is looked at has a token for each two bytes of it: at least
/// eight, and no more than there are.
pub proof fn law_the_tail_spans_every_stop(stops: Seq<Seq<char>>, n: int, k: int, generated: int)
    requires
        0 <= k < n <= stops.len(),
        generated >= 0,
    ensures
        encode_utf8(stops[k]).len() <= longest(stops, n),
        exists|j: int| 0 <= j < n && longest(stops, n) == encode_utf8(#[trigger] stops[j]).len(),
        ({
            let t = tail_size(stops, generated);
            &&& t <= generated
            &&& t == generated || (t >= 8 && 2 * t + 1 >= longest(stops, stops.len() as int))
            &&& t <= 8 || 2 * t <= longest(stops, stops.len() as int)
        }),
    decreases n,
{
    let size = encode_utf8(stops[n - 1]).len() as int;
    if k < n - 1 {
        law_the_tail_spans_every_stop(stops, n - 1, k, generated);
    } else if n > 1 {
        law_the_tail_spans_every_stop(stops, n - 1, n - 2, generated);
    } else {
        assert(longest(stops, 0) == 0);
    }
    if n == 1 {
        assert(longest(stops, 0) == 0);
    }
    if size > longest(stops, n - 1) || n == 1 {
        assert(longest(stops, n) == encode_utf8(stops[n - 1]).len());
    } else {
        let j = choose|j: int|
            0 <= j < n - 1 && longest(stops, n - 1) == encode_utf8(#[trigger] stops[j]).len();
        assert(longest(stops, n) == encode_utf8(stops[j]).len());
    }
}

/// The text that events tell.
pub open spec fn told(events: Seq<Tree>) -> Seq<char>
    decreases events.len(),
{
    if events.len() == 0 {
        Seq::empty()
    } else {
        told(events.drop_last()) + (if at(events.last(), "type"@) == Tree::Str("text_delta"@) {
            match at(events.last(), "delta"@) {
                Tree::Str(s) => s,
                _ => Seq::empty(),
            }
        } else {
            Seq::empty()
        })
    }
}

/// The calls that events tell, by id, name and arguments.
pub open spec fn told_calls(events: Seq<Tree>) -> Seq<(Tree, Tree, Tree)>
    decreases events.len(),
{
    if events.len() == 0 {
        Seq::empty()
    } else if at(events.last(), "type"@) == Tree::Str("tool_call"@) {
        told_calls(events.drop_last()).push(
            (
                at(events.last(), "id"@),
                at(events.last(), "name"@),
                at(events.last(), "arguments"@),
            ),
        )
    } else {
        told_calls(events.drop_last())
    }
}

proof fn lemma_event_keys()
    ensures
        "type"@ != "delta"@ && "type"@ != "id"@ && "type"@ != "name"@ && "type"@ != "arguments"@,
        "id"@ != "name"@ && "id"@ != "arguments"@ && "name"@ != "arguments"@,
        "text_delta"@ != "tool_call"@ && "text_delta"@ != "done"@ && "tool_call"@ != "done"@,
        "description"@ != "name"@ && "description"@ != "parameters"@ && "name"@ != "parameters"@,
        "type"@ != "stop_reason"@ && "type"@ != "prompt_tokens"@ && "type"@ != "generated_tokens"@
            && "type"@ != "session_id"@ && "type"@ != "turn_message_count"@,
        "stop_reason"@ != "prompt_tokens"@ && "stop_reason"@ != "generated_tokens"@ && "stop_reason"@
            != "session_id"@ && "stop_reason"@ != "turn_message_count"@,
        "prompt_tokens"@ != "generated_tokens"@ && "prompt_tokens"@ != "session_id"@
            && "prompt_tokens"@ != "turn_message_count"@,
        "generated_tokens"@ != "session_id"@ && "generated_tokens"@ != "turn_message_count"@,
        "session_id"@ != "turn_message_count"@,
        "tool_calls"@ != "stop"@ && "tool_calls"@ != "length"@ && "stop"@ != "length"@,
{
    reveal_strlit("type");
    reveal_strlit("delta");
    reveal_strlit("id");
    reveal_strlit("name");
    reveal_strlit("arguments");
    reveal_strlit("text_delta");
    reveal_strlit("tool_call");
    reveal_strlit("done");
    reveal_strlit("description");
    reveal_strlit("parameters");
    reveal_strlit("stop_reason");
    reveal_strlit("prompt_tokens");
    reveal_strlit("generated_tokens");
    reveal_strlit("session_id");
    reveal_strlit("turn_message_count");
    reveal_strlit("tool_calls");
    reveal_strlit("stop");
    reveal_strlit("length");
    assert("type"@[0] == 't' && "name"@[0] == 'n' && "type"@.len() == 4 && "name"@.len() == 4);
    assert("delta"@.len() == 5 && "id"@.len() == 2 && "arguments"@.len() == 9);
    assert("text_delta"@.len() == 10 && "tool_call"@.len() == 9 && "done"@.len() == 4);
    assert("description"@.len() == 11 && "parameters"@.len() == 10);
    assert("stop_reason"@.len() == 11 && "prompt_tokens"@.len() == 13);
    assert("generated_tokens"@.len() == 16 && "session_id"@.len() == 10);
    assert("turn_message_count"@.len() == 18);
    assert("tool_calls"@.len() == 10 && "stop"@.len() == 4 && "length"@.len() == 6);
}

/// What a turn is told of a token, it keeps and tells: the token is counted, more
/// text stands behind the text and is told, a call is told under the next id, and
/// a stop token ends the turn.
pub proof fn law_a_token_is_kept_and_told(
    v: ClawView,
    t: u32,
    text: TextView,
    call: Option<(Seq<char>, Seq<char>)>,
    stop: bool,
)
    ensures
        ({
            let w = tokened(v, t, text, call, stop).0;
            let flow = tokened(v, t, text, call, stop).1;
            &&& w.generated == v.generated.push(t)
            &&& flow == (if stop {
                Flow::Break
            } else {
                Flow::Continue
            })
            &&& w.stopped <==> v.stopped || stop || text is Done
            &&& match text {
                TextView::Delta(s) => w.text == v.text + s && told(w.events) == told(v.events) + s,
                TextView::Done(s) => w.text == s && told(w.events) == told(v.events),
                TextView::Quiet => w.text == v.text && told(w.events) == told(v.events),
            }
            &&& match call {
                Some(c) => w.calls == v.calls.push((claw_call_id(v.calls.len()), c.0, c.1))
                    && told_calls(w.events) == told_calls(v.events).push(
                    (
                        Tree::Str(claw_call_id(v.calls.len())),
                        Tree::Str(c.0),
                        Tree::Str(c.1),
                    ),
                ),
                None => w.calls == v.calls && told_calls(w.events) == told_calls(v.events),
            }
        }),
{
    lemma_event_keys();
    let e0 = v.events;
    let e1 = match text {
        TextView::Delta(s) => {
            let e = e0.push(delta_tree(s));
            assert(e.drop_last() =~= e0);
            assert(at(delta_tree(s), "type"@) == Tree::Str("text_delta"@));
            assert(at(delta_tree(s), "delta"@) == Tree::Str(s));
            assert(told(e) == told(e0) + s);
            assert(told_calls(e) == told_calls(e0));
            e
        },
        _ => e0,
    };
    if let Some(c) = call {
        let x = call_tree(claw_call_id(v.calls.len()), c.0, c.1);
        let e2 = e1.push(x);
        assert(e2.drop_last() =~= e1);
        assert(at(x, "type"@) == Tree::Str("tool_call"@));
        assert(at(x, "id"@) == Tree::Str(claw_call_id(v.calls.len())));
        assert(at(x, "name"@) == Tree::Str(c.0) && at(x, "arguments"@) == Tree::Str(c.1));
        assert(told(e2) == told(e1) + Seq::<char>::empty());
        assert(told(e1) + Seq::<char>::empty() =~= told(e1));
    }
}

/// The ids of two calls of a turn differ.
pub proof fn law_call_ids_differ(a: nat, b: nat)
    requires
        a != b,
    ensures
        claw_call_id(a) != claw_call_id(b),
{
    if claw_call_id(a) == claw_call_id(b) {
        let n = "call_"@.len() as int;
        assert(claw_call_id(a).skip(n) =~= dec(a));
        assert(claw_call_id(b).skip(n) =~= dec(b));
        lemma_dec_injective(a, b);
    }
}

/// A step ends the turn where a stop string ends its decoded tail, and then it has
/// stopped, or where it has as many tokens as it may; otherwise it goes on. What
/// was said is as before.
pub proof fn law_a_step_ends_at_a_stop_or_a_limit(
    v: ClawView,
    stops: Seq<Seq<char>>,
    tail: Option<Seq<char>>,
    max_tokens: usize,
)
    ensures
        ({
            let w = stepped(v, stops, tail, max_tokens).0;
            let flow = stepped(v, stops, tail, max_tokens).1;
            let hit = tail is Some && exists|k: int|
                0 <= k < stops.len() && ends(tail->0, #[trigger] stops[k]);
            &&& flow == Flow::Break <==> hit || v.generated.len() >= max_tokens
            &&& w.stopped <==> v.stopped || hit
            &&& w.text == v.text && w.calls == v.calls && w.events == v.events && w.generated
                == v.generated
        }),
{
    if let Some(s) = tail {
        lemma_first_stop(s, stops, 0);
        if first_stop(s, stops, 0) is Some {
            assert(ends(s, stops[first_stop(s, stops, 0)->0]));
        }
    }
}

/// A turn finished for its calls where it has any, else for its stop, else for
/// its length; its text is what stands in front of the first call's tag, and
/// without calls the whole text without its stop string. The last event says so.
pub proof fn law_a_turn_says_why_it_finished(
    v: ClawView,
    stops: Seq<Seq<char>>,
    p: int,
    prompt_tokens: int,
    session: Option<Seq<char>>,
    messages: int,
)
    ensures
        stop_reason_of(v) == "tool_calls"@ <==> v.calls.len() > 0,
        stop_reason_of(v) == "stop"@ <==> v.calls.len() == 0 && v.stopped,
        stop_reason_of(v) == "length"@ <==> v.calls.len() == 0 && !v.stopped,
        v.calls.len() == 0 ==> final_text_of(v, stops) == without_stop(v.text, stops),
        v.calls.len() > 0 && first_at(v.text, "<tool_call>"@, 0, p) ==> final_text_of(v, stops) == trim(
            v.text.take(p),
        ),
        v.calls.len() > 0 && none_from(v.text, "<tool_call>"@, 0) ==> final_text_of(v, stops) == trim(
            v.text,
        ),
        ({
            let t = done_tree(v, prompt_tokens, session, messages);
            &&& at(t, "type"@) == Tree::Str("done"@)
            &&& at(t, "stop_reason"@) == Tree::Str(stop_reason_of(v))
            &&& at(t, "prompt_tokens"@) == Tree::Int(prompt_tokens)
            &&& at(t, "generated_tokens"@) == Tree::Int(v.generated.len() as int)
            &&& at(t, "turn_message_count"@) == Tree::Int(messages)
            &&& session matches Some(s) ==> at(t, "session_id"@) == Tree::Str(s)
            &&& session is None ==> at(t, "session_id"@) is Null
        }),
{
    lemma_event_keys();
    law_a_search_finds_the_first_place(v.text, "<tool_call>"@, 0, p);
}

/// A tool's schema has its name, its description and its parameters.
pub proof fn law_a_schema_names_its_tool(spec: ToolSpec) -> (t: Tree)
    ensures
        schema_text(spec) == json_text(t),
        at(t, "name"@) == Tree::Str(spec.name@),
        at(t, "description"@) == Tree::Str(spec.description@),
        at(t, "parameters"@) == tree(spec.parameters),
{
    lemma_event_keys();
    Tree::Obj(
        obj().insert("name"@, Tree::Str(spec.name@)).insert(
            "description"@,
            Tree::Str(spec.description@),
        ).insert("parameters"@, tree(spec.parameters)),
    )
}

} // verus!
