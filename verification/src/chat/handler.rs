//! The resuming chat-completions handler: a turn's setup, where its context
//! comes from, what it streams and answers, and what it is saved under.

use vstd::prelude::*;
use vstd::string::*;

use crate::canon::{items_view, CanonItem, CanonView};
use crate::chat::coder_xml::{functions_from, parse_coder_xml_calls};
use crate::chat::prompt::DEFAULT_MAX_TOKENS;
use crate::chat::render::{full_turns, render_full, render_messages, turns};
use crate::chat::session::snapshot_name;
use crate::chat::turn::{
    added, called_all, calls_view, finish_of, stopped, unplaced, Flow, RulesView, ToolCallOut,
    TurnState, TurnView,
};
use crate::format::{dec, dec_of};
use crate::json::tree;
use crate::replay::{outcome_view, ReplayOp};
use crate::serving::error::{error_body, error_tree};
use crate::serving::salvage::{calls_found, fenced_from};
use crate::serving::session::{
    assistant_items, call_item, canon, canon_messages, chat_address, last_assistant,
    law_the_save_address_is_the_echo_address, split_resume_point,
};
use crate::serving::streaming::{
    completion_tree, triples, usage_tree, CallOut,
};
use crate::serving::types::{
    envelopes, message_text, messages_view, texts, thinking, tool_schema_envelopes, tools_view,
    CallView, ChatCompletionRequest, ChatMessage, MessageView, StopField,
};
use crate::text::{
    cat2, cat3, chars_of, contains, holds, remove_all, string_of, trim, trimmed, without,
};

pub use crate::serving::salvage::parse_fenced_tool_calls;

verus! {

/// The most tokens of one prefill pass. A longer one would outlive the engine's
/// timeout on slow drivers; each chunk's end is a keepalive point.
pub const PREFILL_CHUNK: usize = 1024;

// ---------------------------------------------------------------------------
// Setup
// ---------------------------------------------------------------------------

/// What a turn needs of its request, without the sampling temperatures.
pub struct TurnSetup {
    pub messages: Vec<ChatMessage>,
    pub tool_schemas: Vec<String>,
    pub max_tokens: usize,
    pub no_think: bool,
    pub stop_strings: Vec<String>,
    pub include_usage: bool,
}

/// The setup of a parsed request, and whether it streams.
pub fn parse_setup(request: ChatCompletionRequest) -> (r: Result<(TurnSetup, bool), String>)
    ensures
        match r {
            Ok((s, stream)) => {
                &&& request.messages@.len() > 0
                &&& stream == request.stream
                &&& s.messages == request.messages
                &&& texts(s.tool_schemas@) == envelopes(tools_view(request.tools@))
                &&& s.max_tokens == (match request.max_tokens {
                    Some(n) => n,
                    None => match request.max_completion_tokens {
                        Some(n) => n,
                        None => DEFAULT_MAX_TOKENS,
                    },
                })
                &&& s.no_think == (thinking(request) == Some(false))
                &&& texts(s.stop_strings@) == (match request.stop {
                    None => Seq::empty(),
                    Some(StopField::One(x)) => seq![x@],
                    Some(StopField::Many(v)) => texts(v@),
                })
                &&& s.include_usage == request.stream_options.include_usage
            },
            Err(m) => request.messages@.len() == 0 && m@
                == "`messages` must be a non-empty array"@,
        },
{
    if request.messages.len() == 0 {
        return Err("`messages` must be a non-empty array".to_owned());
    }
    let tool_schemas = tool_schema_envelopes(request.tools.as_slice());
    let max_tokens = request.effective_max_tokens(DEFAULT_MAX_TOKENS);
    let no_think = request.no_think();
    let stop_strings = request.stop_strings();
    let include_usage = request.include_usage();
    let stream = request.stream;
    Ok(
        (
            TurnSetup {
                messages: request.messages,
                tool_schemas,
                max_tokens,
                no_think,
                stop_strings,
                include_usage,
            },
            stream,
        ),
    )
}

// ---------------------------------------------------------------------------
// The context
// ---------------------------------------------------------------------------

/// Where a turn may resume: behind its last assistant message, under the name
/// that the previous request saved its context as.
pub struct ResumePoint {
    pub split: usize,
    pub name: String,
}

/// The snapshot name of the first `n` messages.
pub open spec fn name_of(m: Seq<MessageView>, n: int, schemas: Seq<Seq<char>>, no_think: bool) -> Seq<
    char,
> {
    "qwenchat/"@ + chat_address(schemas, no_think, canon(m, n))
}

/// The snapshot name of a turn's first `split` messages.
pub fn snapshot_of(setup: &TurnSetup, split: usize) -> (r: String)
    requires
        split <= setup.messages@.len(),
    ensures
        r@ == name_of(
            messages_view(setup.messages@),
            split as int,
            texts(setup.tool_schemas@),
            setup.no_think,
        ),
{
    let ghost m = messages_view(setup.messages@);
    let head = vstd::slice::slice_subrange(setup.messages.as_slice(), 0, split);
    let items = canon_messages(head);
    proof {
        assert(messages_view(head@) =~= m.take(split as int));
        lemma_canon_of_front(m, split as int, split as int);
    }
    snapshot_name(setup.tool_schemas.as_slice(), setup.no_think, items.as_slice())
}

/// Where a turn may resume; none on the first turn.
pub fn resume_point(setup: &TurnSetup) -> (r: Option<ResumePoint>)
    ensures
        ({
            let m = messages_view(setup.messages@);
            match r {
                Some(p) => 0 < p.split <= m.len() && last_assistant(m, m.len() as int) == Some(
                    p.split - 1,
                ) && p.name@ == name_of(
                    m,
                    p.split as int,
                    texts(setup.tool_schemas@),
                    setup.no_think,
                ),
                None => last_assistant(m, m.len() as int) is None,
            }
        }),
{
    match split_resume_point(setup.messages.as_slice()) {
        Some(split) => Some(ResumePoint { split, name: snapshot_of(setup, split) }),
        None => None,
    }
}

proof fn lemma_canon_of_front(m: Seq<MessageView>, split: int, n: int)
    requires
        0 <= n <= split <= m.len(),
    ensures
        canon(m.take(split), n) == canon(m, n),
    decreases n,
{
    if n > 0 {
        lemma_canon_of_front(m, split, n - 1);
        assert(m.take(split)[n - 1] == m[n - 1]);
    }
}

/// The turns to prefill: those behind the resume point on a hit, all of them
/// otherwise.
pub fn context_turns(setup: &TurnSetup, resumed: Option<usize>) -> (r: Result<
    Vec<ReplayOp>,
    String,
>)
    requires
        resumed matches Some(split) ==> split <= setup.messages@.len(),
    ensures
        outcome_view(r) == (match resumed {
            Some(split) => turns(
                messages_view(setup.messages@).skip(split as int),
                0,
                setup.no_think,
            ),
            None => full_turns(
                messages_view(setup.messages@),
                texts(setup.tool_schemas@),
                setup.no_think,
            ),
        }),
{
    match resumed {
        Some(split) => {
            let rest = vstd::slice::slice_subrange(
                setup.messages.as_slice(),
                split,
                setup.messages.len(),
            );
            proof {
                assert(messages_view(rest@) =~= messages_view(setup.messages@).skip(split as int));
            }
            render_messages(rest, setup.no_think)
        },
        None => render_full(
            setup.messages.as_slice(),
            setup.tool_schemas.as_slice(),
            setup.no_think,
        ),
    }
}

/// How looking for a snapshot went.
pub enum Lookup {
    First,
    Hit { name: String, cached: u32 },
    Miss { name: String, error: String },
}

/// A lookup in words, for the log.
pub fn lookup_text(l: &Lookup) -> (r: String)
    ensures
        r@ == (match *l {
            Lookup::First => "first turn (no resume point)"@,
            Lookup::Hit { name, cached } => "resume hit "@ + name@ + " (cached "@ + dec(
                cached as nat,
            ) + ")"@,
            Lookup::Miss { name, error } => "resume miss "@ + name@ + ": "@ + error@,
        }),
{
    match l {
        Lookup::First => "first turn (no resume point)".to_owned(),
        Lookup::Hit { name, cached } => {
            let mut r = cat3("resume hit ", name.as_str(), " (cached ");
            r.append(dec_of(*cached as u64).as_str());
            r.append(")");
            r
        },
        Lookup::Miss { name, error } => {
            let mut r = cat3("resume miss ", name.as_str(), ": ");
            r.append(error.as_str());
            r
        },
    }
}

// ---------------------------------------------------------------------------
// Saving
// ---------------------------------------------------------------------------

/// The calls of a turn as a follow-up echoes them.
pub open spec fn echoed(calls: Seq<CallOut>) -> Seq<CallView> {
    calls.map_values(|c: CallOut| CallView { id: c.0, name: c.1, arguments: c.2 })
}

/// The items that a follow-up request arrives with: the incoming messages and
/// the produced turn.
pub open spec fn saved_items(m: Seq<MessageView>, content: Seq<char>, calls: Seq<CallOut>) -> Seq<
    CanonView,
> {
    canon(m, m.len() as int) + assistant_items(content, echoed(calls))
}

/// The name that a turn is saved under.
pub open spec fn saved_name(
    m: Seq<MessageView>,
    schemas: Seq<Seq<char>>,
    no_think: bool,
    content: Seq<char>,
    calls: Seq<CallOut>,
) -> Seq<char> {
    "qwenchat/"@ + chat_address(schemas, no_think, saved_items(m, content, calls))
}

/// The name that a turn's context is saved under: the one that the next request
/// hashes to.
pub fn save_name(setup: &TurnSetup, content: &str, calls: &[ToolCallOut]) -> (r: String)
    ensures
        r@ == saved_name(
            messages_view(setup.messages@),
            texts(setup.tool_schemas@),
            setup.no_think,
            content@,
            calls_view(calls@),
        ),
{
    let ghost m = messages_view(setup.messages@);
    let ghost cv = echoed(calls_view(calls@));
    let mut items = canon_messages(setup.messages.as_slice());
    let ghost base = items_view(items@);
    let ghost head = if content@.len() == 0 {
        Seq::<CanonView>::empty()
    } else {
        seq![CanonView::Msg { role: "assistant"@, text: content@ }]
    };
    if !content.is_empty() {
        items.push(CanonItem::Msg { role: "assistant".to_owned(), text: content.to_owned() });
    }
    let mut k: usize = 0;
    proof {
        assert(items_view(items@) =~= base + head + Seq::new(0, |i: int| call_item(cv[i])));
    }
    while k < calls.len()
        invariant
            k <= calls@.len(),
            cv == echoed(calls_view(calls@)),
            items_view(items@) == base + head + Seq::new(k as nat, |i: int| call_item(cv[i])),
        decreases calls.len() - k,
    {
        let ghost before = items@;
        items.push(
            CanonItem::Call {
                id: calls[k].id.clone(),
                name: calls[k].name.clone(),
                args: calls[k].arguments.clone(),
            },
        );
        proof {
            assert(items@.last()@ == call_item(cv[k as int]));
            assert(items_view(items@) =~= items_view(before).push(call_item(cv[k as int])));
            assert(items_view(items@) =~= base + head + Seq::new(
                (k + 1) as nat,
                |i: int| call_item(cv[i]),
            ));
        }
        k += 1;
    }
    proof {
        assert(items_view(items@) =~= saved_items(m, content@, calls_view(calls@)));
    }
    snapshot_name(setup.tool_schemas.as_slice(), setup.no_think, items.as_slice())
}

/// How saving went.
pub enum Saved {
    FlushFailed(String),
    Kept { name: String, seq_len: u32 },
    Failed { name: String, error: String },
}

/// A save in words, for the log.
pub fn saved_text(s: &Saved) -> (r: String)
    ensures
        r@ == (match *s {
            Saved::FlushFailed(e) => "save flush failed: "@ + e@,
            Saved::Kept { name, seq_len } => "saved "@ + name@ + " (seq "@ + dec(seq_len as nat)
                + ")"@,
            Saved::Failed { name, error } => "save "@ + name@ + " failed: "@ + error@,
        }),
{
    match s {
        Saved::FlushFailed(e) => cat2("save flush failed: ", e.as_str()),
        Saved::Kept { name, seq_len } => {
            let mut r = cat3("saved ", name.as_str(), " (seq ");
            r.append(dec_of(*seq_len as u64).as_str());
            r.append(")");
            r
        },
        Saved::Failed { name, error } => {
            let mut r = cat3("save ", name.as_str(), " failed: ");
            r.append(error.as_str());
            r
        },
    }
}

/// What a turn is saved under is what the next request resumes from, where the
/// client echoes the turn's content and calls and appends anything but assistant
/// messages.
pub proof fn law_the_next_request_finds_the_snapshot(
    incoming: Seq<MessageView>,
    echo: MessageView,
    added: Seq<MessageView>,
    content: Seq<char>,
    calls: Seq<CallOut>,
    schemas: Seq<Seq<char>>,
    no_think: bool,
)
    requires
        echo.role == "assistant"@,
        message_text(echo) == content,
        echo.calls == echoed(calls),
        forall|i: int| 0 <= i < added.len() ==> (#[trigger] added[i]).role != "assistant"@,
    ensures
        ({
            let next = incoming.push(echo) + added;
            let split = incoming.len() as int + 1;
            &&& last_assistant(next, next.len() as int) == Some(split - 1)
            &&& name_of(next, split, schemas, no_think) == saved_name(
                incoming,
                schemas,
                no_think,
                content,
                calls,
            )
        }),
{
    law_the_save_address_is_the_echo_address(incoming, echo, added, schemas, no_think);
}

// ---------------------------------------------------------------------------
// The outcome
// ---------------------------------------------------------------------------

/// The content of a finished turn: what was visible; for a turn without text and
/// calls, the raw generation without its reasoning tags, or a placeholder.
pub open spec fn plain_content(visible: Seq<char>, calls: Seq<CallOut>, raw: Seq<char>) -> Seq<char> {
    if visible.len() > 0 || calls.len() > 0 {
        visible
    } else {
        let cleaned = trim(remove_all(remove_all(raw, "<think>"@), "</think>"@));
        if cleaned.len() == 0 {
            "…"@
        } else {
            cleaned
        }
    }
}

/// What running a turn came to.
pub struct TurnOutcome {
    pub visible_text: String,
    /// The raw generation, reasoning tags and all.
    pub raw_text: String,
    pub calls: Vec<ToolCallOut>,
    pub prompt_tokens: u32,
    pub n_generated: usize,
    pub hit_max: bool,
    /// Set where generation died; the turn then ends by length.
    pub gen_error: Option<String>,
}

impl TurnOutcome {
    /// Why the turn finished.
    pub fn finish_reason(&self) -> (r: &'static str)
        ensures
            r@ == finish_of(calls_view(self.calls@), self.hit_max, self.gen_error is Some),
    {
        proof {
            assert(calls_view(self.calls@).len() == self.calls@.len());
        }
        if self.calls.len() > 0 {
            "tool_calls"
        } else if self.hit_max || self.gen_error.is_some() {
            "length"
        } else {
            "stop"
        }
    }

    /// The one content of the turn, for the response and for the snapshot's
    /// address: clients echo the response, so the two must not differ.
    pub fn final_content(&self) -> (r: String)
        ensures
            r@ == plain_content(self.visible_text@, calls_view(self.calls@), self.raw_text@),
    {
        proof {
            assert(calls_view(self.calls@).len() == self.calls@.len());
        }
        if !self.visible_text.as_str().is_empty() || self.calls.len() > 0 {
            return self.visible_text.clone();
        }
        let raw = chars_of(self.raw_text.as_str());
        let a = without(raw.as_slice(), chars_of("<think>").as_slice());
        let b = without(a.as_slice(), chars_of("</think>").as_slice());
        let cleaned = trimmed(b.as_slice());
        if cleaned.len() == 0 {
            "…".to_owned()
        } else {
            string_of(cleaned.as_slice())
        }
    }
}

/// What a turn that generated its last token came to.
pub fn outcome_of(
    state: &TurnState,
    raw_text: String,
    prompt_tokens: u32,
    max_tokens: usize,
    gen_error: Option<String>,
) -> (r: TurnOutcome)
    ensures
        r.visible_text@ == state@.visible,
        r.raw_text == raw_text,
        calls_view(r.calls@) == state@.calls,
        r.prompt_tokens == prompt_tokens,
        r.n_generated == state@.generated.len(),
        r.hit_max == (state@.generated.len() >= max_tokens),
        r.gen_error == gen_error,
{
    let n_generated = state.count();
    TurnOutcome {
        visible_text: state.visible().to_owned(),
        raw_text,
        calls: state.copy_calls(),
        prompt_tokens,
        n_generated,
        hit_max: n_generated >= max_tokens,
        gen_error,
    }
}

/// An outcome's content is not empty unless it has calls: an empty text turn
/// would be retried.
pub proof fn law_an_outcome_delivers_something(
    visible: Seq<char>,
    calls: Seq<CallOut>,
    raw: Seq<char>,
)
    ensures
        calls.len() == 0 ==> plain_content(visible, calls, raw).len() > 0,
{
    reveal_strlit("…");
}

// ---------------------------------------------------------------------------
// The stream
// ---------------------------------------------------------------------------

/// A turn behind calls added as they come, repeated or not.
pub open spec fn added_all(r: RulesView, v: TurnView, calls: Seq<(Seq<char>, Seq<char>)>) -> TurnView
    decreases calls.len(),
{
    if calls.len() == 0 {
        v
    } else {
        added(r, added_all(r, v, calls.drop_last()), calls.last().0, calls.last().1)
    }
}

/// A turn behind the salvage of bare function blocks in its visible text, where
/// it has no call.
pub open spec fn salvaged_functions(
    r: RulesView,
    v: TurnView,
    has_tools: bool,
    schemas: Seq<Seq<char>>,
) -> TurnView {
    if v.calls.len() == 0 && has_tools && contains(v.visible, "<function="@) {
        added_all(r, v, functions_from(v.visible, 0, schemas))
    } else {
        v
    }
}

/// A streaming turn behind its salvage: fenced blocks first, and without any
/// call from these, bare function blocks.
pub open spec fn salvaged_stream(
    r: RulesView,
    v: TurnView,
    has_tools: bool,
    schemas: Seq<Seq<char>>,
) -> TurnView {
    let a = if v.calls.len() == 0 && has_tools {
        called_all(r, v, unplaced(fenced_from(v.visible, 0)))
    } else {
        v
    };
    salvaged_functions(r, a, has_tools, schemas)
}

fn add_found(state: &mut TurnState, found: Vec<(String, String)>)
    ensures
        final(state).rules() == old(state).rules(),
        final(state)@ == added_all(old(state).rules(), old(state)@, calls_found(found@)),
{
    let ghost all = calls_found(found@);
    let mut i: usize = 0;
    proof {
        assert(all.take(0) =~= Seq::<(Seq<char>, Seq<char>)>::empty());
    }
    while i < found.len()
        invariant
            i <= found@.len(),
            all == calls_found(found@),
            state.rules() == old(state).rules(),
            state@ == added_all(old(state).rules(), old(state)@, all.take(i as int)),
        decreases found.len() - i,
    {
        proof {
            assert(all.take(i + 1).drop_last() =~= all.take(i as int));
            assert(all.take(i + 1).last() == all[i as int]);
        }
        state.add_call(found[i].0.clone(), found[i].1.clone());
        i += 1;
    }
    proof {
        assert(all.take(i as int) =~= all);
    }
}

/// Adds the calls of bare function blocks, where the turn has no call.
pub fn salvage_functions(state: &mut TurnState, tool_schemas: &[String])
    ensures
        final(state).rules() == old(state).rules(),
        final(state)@ == salvaged_functions(
            old(state).rules(),
            old(state)@,
            tool_schemas@.len() > 0,
            texts(tool_schemas@),
        ),
{
    if !state.has_calls() && tool_schemas.len() > 0 {
        let text = chars_of(state.visible());
        if holds(text.as_slice(), chars_of("<function=").as_slice()) {
            let found = parse_coder_xml_calls(state.visible(), tool_schemas);
            proof {
                assert(tool_schemas@.map_values(|x: String| x@) =~= texts(tool_schemas@));
            }
            add_found(state, found);
        }
    }
}

/// Adds the calls that a streaming turn's decoder missed.
pub fn salvage_stream(state: &mut TurnState, tool_schemas: &[String])
    ensures
        final(state).rules() == old(state).rules(),
        final(state)@ == salvaged_stream(
            old(state).rules(),
            old(state)@,
            tool_schemas@.len() > 0,
            texts(tool_schemas@),
        ),
{
    if !state.has_calls() && tool_schemas.len() > 0 {
        state.salvage_fenced();
    }
    salvage_functions(state, tool_schemas);
}

/// Whether a streaming turn goes on behind a step: it ends at a stop string on
/// the visible tail, and at the token limit.
pub fn after_step(state: &TurnState, setup: &TurnSetup) -> (r: Flow)
    ensures
        r == (if stopped(texts(setup.stop_strings@), state@.visible) || state@.generated.len()
            >= setup.max_tokens {
            Flow::Break
        } else {
            Flow::Continue
        }),
{
    if crate::chat::turn::ends_with_stop(setup.stop_strings.as_slice(), state.visible()) {
        return Flow::Break;
    }
    if state.count() >= setup.max_tokens {
        return Flow::Break;
    }
    Flow::Continue
}

// ---------------------------------------------------------------------------
// The whole answer
// ---------------------------------------------------------------------------

/// The body of a turn that does not stream.
pub fn response_body(
    meta: &crate::serving::streaming::ChunkMeta,
    outcome: &TurnOutcome,
    cached_tokens: u32,
) -> (v: serde_json::Value)
    requires
        outcome.prompt_tokens + outcome.n_generated <= u32::MAX,
    ensures
        tree(v) == completion_tree(
            *meta,
            plain_content(outcome.visible_text@, calls_view(outcome.calls@), outcome.raw_text@),
            calls_view(outcome.calls@),
            finish_of(calls_view(outcome.calls@), outcome.hit_max, outcome.gen_error is Some),
            usage_tree(
                outcome.prompt_tokens as int,
                outcome.n_generated as int,
                cached_tokens as int,
            ),
        ),
{
    let content = outcome.final_content();
    let mut calls: Vec<(String, String, String)> = Vec::new();
    let mut i: usize = 0;
    while i < outcome.calls.len()
        invariant
            i <= outcome.calls@.len(),
            calls@.len() == i,
            forall|j: int|
                0 <= j < i ==> triples(calls@)[j] == #[trigger] calls_view(outcome.calls@)[j],
        decreases outcome.calls.len() - i,
    {
        let c = &outcome.calls[i];
        let ghost before = calls@;
        calls.push((c.id.clone(), c.name.clone(), c.arguments.clone()));
        proof {
            assert forall|j: int| 0 <= j < i + 1 implies triples(calls@)[j]
                == #[trigger] calls_view(outcome.calls@)[j] by {
                if j < i {
                    assert(triples(calls@)[j] == triples(before)[j]);
                }
            }
        }
        i += 1;
    }
    proof {
        assert(triples(calls@) =~= calls_view(outcome.calls@));
    }
    meta.completion_response(
        content.as_str(),
        calls.as_slice(),
        outcome.finish_reason(),
        outcome.prompt_tokens,
        outcome.n_generated as u32,
        cached_tokens,
    )
}

/// The body of an error answer.
pub fn error_response(error_type: &str, message: &str) -> (v: serde_json::Value)
    ensures
        tree(v) == error_tree(error_type@, message@),
{
    error_body(error_type, message)
}

} // verus!
