//! Rendering plans of the resuming handler.

use vstd::prelude::*;
use vstd::string::*;

use crate::replay::{
    lemma_leaves_ends, lemma_leaves_step, led_by, leaves, outcome_view, replay_view, unsupported,
    Replay, ReplayOp, ReplayView,
};
use crate::serving::render::{pairs_view, tool_run};
use crate::serving::session::last_assistant;
use crate::serving::types::{
    calls_view, copy_texts, message_text, messages_view, texts, ChatMessage, MessageView, ToolCallIn,
};
use crate::text::{cat2, chars_of, same, string_of, trim_end, trimmed_end};

pub use crate::serving::filter::sanitize_messages;

verus! {

/// A user turn's text. The soft switch is on every user turn, not only the
/// last: a turn must replay identically once it is history.
pub open spec fn user_text(text: Seq<char>, no_think: bool) -> Seq<char> {
    if no_think {
        trim_end(text) + " /no_think"@
    } else {
        text
    }
}

/// A user turn's text.
pub fn decorate(text: &str, no_think: bool) -> (r: String)
    ensures
        r@ == user_text(text@, no_think),
{
    if no_think {
        let t = string_of(trimmed_end(chars_of(text).as_slice()).as_slice());
        cat2(t.as_str(), " /no_think")
    } else {
        text.to_owned()
    }
}

/// Some text, none for an empty one.
pub open spec fn non_empty(s: Seq<char>) -> Option<Seq<char>> {
    if s.len() == 0 {
        None
    } else {
        Some(s)
    }
}

/// An assistant turn.
pub open spec fn assistant_turn(m: MessageView) -> ReplayView {
    if m.calls.len() == 0 {
        ReplayView::Assistant(message_text(m))
    } else {
        ReplayView::AssistantWithToolCalls {
            content: non_empty(message_text(m)),
            calls: Seq::new(m.calls.len(), |k: int| (m.calls[k].name, m.calls[k].arguments)),
        }
    }
}

/// The tool results from `a` up to `b`, their tools unnamed.
pub open spec fn unnamed(m: Seq<MessageView>, a: int, b: int) -> Seq<(Seq<char>, Seq<char>)> {
    Seq::new((b - a) as nat, |k: int| (Seq::<char>::empty(), message_text(m[a + k])))
}

/// The turns of the messages from `i` on.
pub open spec fn turns(m: Seq<MessageView>, i: int, no_think: bool) -> Replay
    decreases m.len() - i,
    via turns_decreases
{
    if i < 0 || i >= m.len() {
        Ok(Seq::empty())
    } else if m[i].role == "system"@ || m[i].role == "developer"@ {
        led_by(ReplayView::System(message_text(m[i])), turns(m, i + 1, no_think))
    } else if m[i].role == "user"@ {
        led_by(
            ReplayView::User(user_text(message_text(m[i]), no_think)),
            turns(m, i + 1, no_think),
        )
    } else if m[i].role == "assistant"@ {
        led_by(assistant_turn(m[i]), turns(m, i + 1, no_think))
    } else if m[i].role == "tool"@ {
        let end = tool_run(m, i);
        led_by(ReplayView::AnswerBatch(unnamed(m, i, end)), turns(m, end, no_think))
    } else {
        Err(unsupported(m[i].role))
    }
}

#[via_fn]
proof fn turns_decreases(m: Seq<MessageView>, i: int, no_think: bool) {
    if 0 <= i < m.len() && m[i].role == "tool"@ {
        lemma_run(m, i + 1);
    }
}

proof fn lemma_run(m: Seq<MessageView>, i: int)
    requires
        0 <= i <= m.len(),
    ensures
        i <= tool_run(m, i) <= m.len(),
    decreases m.len() - i,
{
    if i < m.len() && m[i].role == "tool"@ {
        lemma_run(m, i + 1);
    }
}

fn take_run(messages: &[ChatMessage], from: usize) -> (r: (Vec<(String, String)>, usize))
    requires
        from < messages@.len(),
        messages@[from as int]@.role == "tool"@,
    ensures
        from < r.1 <= messages@.len(),
        r.1 == tool_run(messages_view(messages@), from as int),
        pairs_view(r.0@) == unnamed(messages_view(messages@), from as int, r.1 as int),
{
    let ghost m = messages_view(messages@);
    let mut results: Vec<(String, String)> = Vec::new();
    let mut k: usize = from;
    let mut open: bool = true;
    while k < messages.len() && open
        invariant
            m == messages_view(messages@),
            from <= k <= messages@.len(),
            tool_run(m, from as int) == tool_run(m, k as int),
            !open ==> tool_run(m, k as int) == k,
            results@.len() == k - from,
            forall|j: int|
                0 <= j < k - from ==> (#[trigger] results@[j]).0@ == Seq::<char>::empty()
                    && results@[j].1@ == message_text(m[from + j]),
        decreases messages.len() - k + (if open { 1int } else { 0int }),
    {
        proof {
            assert(m[k as int] == messages@[k as int]@);
        }
        if same(messages[k].role.as_str(), "tool") {
            results.push((String::new(), messages[k].text()));
            k += 1;
        } else {
            open = false;
        }
    }
    proof {
        assert(m[from as int] == messages@[from as int]@);
        assert(tool_run(m, from as int) == tool_run(m, from + 1));
        lemma_run(m, from + 1);
        assert(pairs_view(results@) =~= unnamed(m, from as int, k as int));
    }
    (results, k)
}

/// Name and arguments of each call.
pub fn call_pairs(calls: &[ToolCallIn]) -> (r: Vec<(String, String)>)
    ensures
        pairs_view(r@) == Seq::new(
            calls@.len(),
            |k: int| (calls_view(calls@)[k].name, calls_view(calls@)[k].arguments),
        ),
{
    let mut r: Vec<(String, String)> = Vec::new();
    let mut k: usize = 0;
    while k < calls.len()
        invariant
            k <= calls@.len(),
            r@.len() == k,
            forall|j: int|
                0 <= j < k ==> (#[trigger] r@[j]).0@ == calls_view(calls@)[j].name && r@[j].1@
                    == calls_view(calls@)[j].arguments,
        decreases calls.len() - k,
    {
        r.push((calls[k].function.name.clone(), calls[k].function.arguments.clone()));
        proof {
            assert(calls_view(calls@)[k as int] == calls@[k as int]@);
        }
        k += 1;
    }
    proof {
        assert(pairs_view(r@) =~= Seq::new(
            calls@.len(),
            |k: int| (calls_view(calls@)[k].name, calls_view(calls@)[k].arguments),
        ));
    }
    r
}

fn assistant_op(msg: &ChatMessage) -> (r: ReplayOp)
    ensures
        r@ == assistant_turn(msg@),
{
    let calls = msg.calls();
    proof {
        assert(calls_view(calls@).len() == calls@.len());
    }
    if calls.len() == 0 {
        return ReplayOp::Assistant(msg.text());
    }
    let pairs = call_pairs(calls);
    let text = msg.text();
    let content = if text.as_str().is_empty() {
        None
    } else {
        Some(text)
    };
    proof {
        assert(pairs_view(pairs@) =~= Seq::new(
            msg@.calls.len(),
            |k: int| (msg@.calls[k].name, msg@.calls[k].arguments),
        ));
    }
    ReplayOp::AssistantWithToolCalls { content, calls: pairs }
}

/// The turns of a run of messages; also those behind a resume point, where no
/// leading system message is left.
pub fn render_messages(messages: &[ChatMessage], no_think: bool) -> (r: Result<
    Vec<ReplayOp>,
    String,
>)
    ensures
        outcome_view(r) == turns(messages_view(messages@), 0, no_think),
{
    render_from(messages, 0, no_think)
}

fn render_from(messages: &[ChatMessage], start: usize, no_think: bool) -> (r: Result<
    Vec<ReplayOp>,
    String,
>)
    requires
        start <= messages@.len(),
    ensures
        outcome_view(r) == turns(messages_view(messages@), start as int, no_think),
{
    let ghost m = messages_view(messages@);
    let ghost whole = turns(m, start as int, no_think);
    let mut ops: Vec<ReplayOp> = Vec::new();
    let mut i: usize = start;
    proof {
        lemma_leaves_ends(whole, Seq::empty());
        assert(replay_view(ops@) =~= Seq::empty());
    }
    while i < messages.len()
        invariant
            i <= messages@.len(),
            m == messages_view(messages@),
            whole == turns(m, start as int, no_think),
            leaves(whole, replay_view(ops@), turns(m, i as int, no_think)),
        decreases messages.len() - i,
    {
        let msg = &messages[i];
        let ghost before = replay_view(ops@);
        proof {
            assert(m[i as int] == msg@);
        }
        let role = msg.role.as_str();
        if same(role, "system") || same(role, "developer") {
            ops.push(ReplayOp::System(msg.text()));
            i += 1;
        } else if same(role, "user") {
            let text = msg.text();
            ops.push(ReplayOp::User(decorate(text.as_str(), no_think)));
            i += 1;
        } else if same(role, "assistant") {
            ops.push(assistant_op(msg));
            i += 1;
        } else if same(role, "tool") {
            let (results, k) = take_run(messages, i);
            ops.push(ReplayOp::AnswerBatch(results));
            i = k;
        } else {
            return Err(cat2("unsupported message role: ", role));
        }
        proof {
            let op = ops@.last()@;
            assert(replay_view(ops@) =~= before.push(op));
            lemma_leaves_step(whole, before, op, turns(m, i as int, no_think));
        }
    }
    proof {
        lemma_leaves_ends(whole, replay_view(ops@));
    }
    Ok(ops)
}

/// The turns of a whole conversation: a leading system message is folded into
/// one turn with the tool schemas.
pub open spec fn full_turns(
    m: Seq<MessageView>,
    schemas: Seq<Seq<char>>,
    no_think: bool,
) -> Replay {
    if schemas.len() == 0 {
        turns(m, 0, no_think)
    } else if m.len() > 0 && m[0].role == "system"@ {
        led_by(
            ReplayView::EquipAfterSystem { system: non_empty(message_text(m[0])), tools: schemas },
            turns(m, 1, no_think),
        )
    } else {
        led_by(ReplayView::Equip(schemas), turns(m, 0, no_think))
    }
}

/// The turns of a whole conversation.
pub fn render_full(messages: &[ChatMessage], tool_schemas: &[String], no_think: bool) -> (r: Result<
    Vec<ReplayOp>,
    String,
>)
    ensures
        outcome_view(r) == full_turns(messages_view(messages@), texts(tool_schemas@), no_think),
{
    let ghost m = messages_view(messages@);
    if tool_schemas.len() == 0 {
        return render_messages(messages, no_think);
    }
    let tools = copy_texts(tool_schemas);
    proof {
        assert(texts(tool_schemas@).len() > 0);
        if messages@.len() > 0 {
            assert(m[0] == messages@[0]@);
        }
    }
    let (head, start): (ReplayOp, usize) = if messages.len() > 0 && same(
        messages[0].role.as_str(),
        "system",
    ) {
        let text = messages[0].text();
        let system = if text.as_str().is_empty() {
            None
        } else {
            Some(text)
        };
        (ReplayOp::EquipAfterSystem { system, tools }, 1)
    } else {
        (ReplayOp::Equip(tools), 0)
    };
    let ghost first = head@;
    match render_from(messages, start, no_think) {
        Ok(rest) => {
            let mut ops: Vec<ReplayOp> = Vec::new();
            let ghost behind = replay_view(rest@);
            ops.push(head);
            let mut rest = rest;
            ops.append(&mut rest);
            proof {
                assert(replay_view(ops@) =~= seq![first] + behind);
            }
            Ok(ops)
        },
        Err(e) => Err(e),
    }
}

/// A suffix renders as it does in the whole: the turns behind a resume point
/// are those that the full rendering has there, so that a resumed context is the
/// rebuilt one.
pub proof fn law_a_resumed_suffix_renders_as_in_full(
    m: Seq<MessageView>,
    split: int,
    no_think: bool,
)
    requires
        0 <= split <= m.len(),
    ensures
        turns(m.skip(split), 0, no_think) == turns(m, split, no_think),
{
    lemma_suffix(m, split, 0, no_think);
}

proof fn lemma_suffix(m: Seq<MessageView>, split: int, i: int, no_think: bool)
    requires
        0 <= split <= m.len(),
        0 <= i <= m.len() - split,
    ensures
        turns(m.skip(split), i, no_think) == turns(m, split + i, no_think),
    decreases m.len() - split - i,
{
    let s = m.skip(split);
    if i < s.len() {
        assert(s[i] == m[split + i]);
        if s[i].role == "tool"@ {
            lemma_suffix_run(m, split, i);
            lemma_run(s, i + 1);
            assert(tool_run(s, i) == tool_run(s, i + 1));
            let end = tool_run(s, i);
            lemma_suffix(m, split, end, no_think);
            assert(unnamed(s, i, end) =~= unnamed(m, split + i, split + end));
        }
        lemma_suffix(m, split, i + 1, no_think);
    }
}

proof fn lemma_suffix_run(m: Seq<MessageView>, split: int, i: int)
    requires
        0 <= split <= m.len(),
        0 <= i <= m.len() - split,
    ensures
        tool_run(m, split + i) == split + tool_run(m.skip(split), i),
    decreases m.len() - split - i,
{
    if i < m.len() - split {
        assert(m.skip(split)[i] == m[split + i]);
        if m[split + i].role == "tool"@ {
            lemma_suffix_run(m, split, i + 1);
        }
    }
}

proof fn lemma_cut(m: Seq<MessageView>, split: int, i: int, no_think: bool)
    requires
        0 <= i <= split <= m.len(),
        split == 0 || m[split - 1].role != "tool"@,
    ensures
        match turns(m, i, no_think) {
            Ok(w) => turns(m.take(split), i, no_think) is Ok && turns(m, split, no_think) is Ok && w
                == turns(m.take(split), i, no_think)->Ok_0 + turns(m, split, no_think)->Ok_0,
            Err(e) => true,
        },
    decreases split - i,
{
    let t = m.take(split);
    if i < split {
        assert(t[i] == m[i]);
        lemma_cut(m, split, i + 1, no_think);
        if m[i].role == "tool"@ {
            lemma_run_inside(m, split, i);
            lemma_run(t, i + 1);
            assert(tool_run(m, i) == tool_run(m, i + 1));
            let end = tool_run(m, i);
            lemma_cut(m, split, end, no_think);
            assert(unnamed(m, i, end) =~= unnamed(t, i, end));
        }
        if let Ok(w) = turns(m, i, no_think) {
            let op = w[0];
            let rest = w.skip(1);
            assert(w =~= seq![op] + rest);
            if let (Ok(a), Ok(b)) = (turns(t, i, no_think), turns(m, split, no_think)) {
                assert(a + b =~= w);
            }
        }
    } else if let Ok(w) = turns(m, split, no_think) {
        assert(Seq::<ReplayView>::empty() + w =~= w);
    }
}

proof fn lemma_run_inside(m: Seq<MessageView>, split: int, i: int)
    requires
        0 <= i < split <= m.len(),
        m[split - 1].role != "tool"@,
    ensures
        tool_run(m.take(split), i) == tool_run(m, i),
        tool_run(m, i) < split,
    decreases split - i,
{
    assert(m.take(split)[i] == m[i]);
    if m[i].role == "tool"@ {
        lemma_run_inside(m, split, i + 1);
    }
}

/// A resumed context is the rebuilt one: where a conversation renders, the turns
/// in front of its resume point followed by those of the suffix are its turns.
pub proof fn law_a_resumed_context_is_the_rebuilt_one(
    m: Seq<MessageView>,
    split: int,
    no_think: bool,
)
    requires
        0 < split <= m.len(),
        last_assistant(m, m.len() as int) == Some(split - 1),
        turns(m, 0, no_think) is Ok,
    ensures
        turns(m.take(split), 0, no_think) is Ok,
        turns(m.skip(split), 0, no_think) is Ok,
        turns(m, 0, no_think)->Ok_0 == turns(m.take(split), 0, no_think)->Ok_0 + turns(
            m.skip(split),
            0,
            no_think,
        )->Ok_0,
{
    lemma_last_is_assistant(m, m.len() as int);
    reveal_strlit("assistant");
    reveal_strlit("tool");
    assert("assistant"@.len() != "tool"@.len());
    lemma_cut(m, split, 0, no_think);
    law_a_resumed_suffix_renders_as_in_full(m, split, no_think);
}

proof fn lemma_last_is_assistant(m: Seq<MessageView>, n: int)
    requires
        0 <= n <= m.len(),
    ensures
        last_assistant(m, n) matches Some(i) ==> 0 <= i < n && m[i].role == "assistant"@,
    decreases n,
{
    if n > 0 && m[n - 1].role != "assistant"@ {
        lemma_last_is_assistant(m, n - 1);
    }
}

} // verus!
