//! A turn of the resuming handler from its request to its last frame: what has
//! happened goes in, what is to be done next comes out.
//!
//! Once a stream has begun, whatever fails is shaped as a well-formed turn, for
//! a cut stream would be continued by the client. The context is saved before
//! the finish is sent, for the next request comes as soon as the stream closes,
//! and the snapshot that the turn resumed from goes only once the new one is
//! kept.

use vstd::prelude::*;
use vstd::string::*;

use crate::chat::coder_xml::functions_from;
use crate::chat::handler::{
    added_all, after_step, context_turns, error_response, name_of, outcome_of, plain_content, resume_point,
    response_body, salvage_functions, salvage_stream, salvaged_functions, salvaged_stream, save_name,
    saved_name, snapshot_of, TurnOutcome, TurnSetup, PREFILL_CHUNK,
};
use crate::chat::prompt::with_turn_start;
use crate::chat::render::{full_turns, sanitize_messages, turns};
use crate::chat::streaming::frame;
use crate::chat::turn::{
    added, call_id, called, called_all, calls_view, content_in, finish_of, flushed, fresh_turn,
    lemma_chunk_content, lemma_contents, said, showed, spoken, stopped, tokened, unplaced, Flow,
    RulesView, TextEvent, TextView, TurnState, TurnView,
};
use crate::json::{member_of, tree, Tree};
use crate::markup::{fed, finished};
use crate::replay::{replay_view, Replay, ReplayOp, ReplayView};
use crate::serving::error::error_tree;
use crate::serving::filter::clean_message;
use crate::serving::salvage::fenced_from;
use crate::serving::session::last_assistant;
use crate::serving::streaming::{
    call_delta_tree, chunk_tree, completion_tree, content_tree, finish_tree, obj, role_tree, sse_done, sse_frame,
    usage_chunk_tree, usage_tree, CallOut, ChunkMeta,
};
use crate::serving::types::{messages_view, texts, MessageView};
use crate::text::{cat2, trim_end};

verus! {

// ---------------------------------------------------------------------------
// Events and asks
// ---------------------------------------------------------------------------

/// Where a turn stands: what it waits for.
#[derive(Clone, Copy, Debug, PartialEq, Eq, Structural)]
pub enum Phase {
    Loading,
    Opening,
    Rendering,
    Creating,
    Filling,
    Cueing,
    Generating,
    Decoding,
    Saving,
    Deleting,
    Timing,
    Closed,
}

/// What has happened.
pub enum Event {
    /// The model is there, with the texts of its special tokens.
    Loaded(Vec<String>),
    /// The snapshot is open and holds so many tokens.
    Opened(u32),
    /// There is no such snapshot.
    Missed,
    Rendered(Vec<u32>),
    Created,
    Filled,
    /// What was asked for could not be done.
    Failed(String),
    /// The reply is cued: the prompt's length, the model's stop tokens, and the
    /// tokens of the turn-start marker.
    Cued { prompt_tokens: u32, stop_ids: Vec<u32>, turn_start: Vec<u32> },
    /// A sampled token, the call that it completed and the text that it made.
    Token { id: u32, call: Option<(String, String)>, text: TextEvent },
    /// The last step has no more tokens.
    StepEnd,
    /// There is no further step.
    Ended,
    /// Generation died.
    Died(String),
    /// The raw text of the generation.
    Decoded(String),
    /// Saving is over; whether the snapshot is kept.
    Saved(bool),
    Deleted,
    /// The time, in seconds.
    Clock(i64),
}

/// What is to be done next.
pub enum Ask {
    /// Load the model of that name.
    Load(String),
    /// Open the snapshot of that name.
    Open(String),
    /// Render these turns.
    Render(Vec<ReplayOp>),
    /// Create an empty context.
    Create,
    /// Prefill these tokens.
    Prefill(Vec<u32>),
    /// Cue the reply.
    Cue,
    /// Generate a step.
    Step,
    /// Tell of the step's next token, or of its end.
    Token,
    /// Decode these tokens.
    Decode(Vec<u32>),
    /// Seal the turn, and save the context under that name.
    Save(String),
    /// Delete the snapshot of that name.
    Delete(String),
    /// Tell the time.
    Clock,
    /// Close the stream.
    End,
    /// Answer with that status and body.
    Answer(u16, serde_json::Value),
}

/// What an event holds.
pub enum EventView {
    Loaded(Seq<String>),
    Opened(int),
    Missed,
    Rendered(Seq<u32>),
    Created,
    Filled,
    Failed(Seq<char>),
    Cued { prompt_tokens: int, stop_ids: Seq<u32>, turn_start: Seq<u32> },
    Token { id: u32, call: Option<(Seq<char>, Seq<char>)>, text: TextView },
    StepEnd,
    Ended,
    Died,
    Decoded(Seq<char>),
    Saved(bool),
    Deleted,
    Clock(i64),
}

/// What an ask holds.
pub enum AskView {
    Load(Seq<char>),
    Open(Seq<char>),
    Render(Seq<ReplayView>),
    Create,
    Prefill(Seq<u32>),
    Cue,
    Step,
    Token,
    Decode(Seq<u32>),
    Save(Seq<char>),
    Delete(Seq<char>),
    Clock,
    End,
    Answer(int, Tree),
}

impl View for Event {
    type V = EventView;

    open spec fn view(&self) -> EventView {
        match *self {
            Event::Loaded(s) => EventView::Loaded(s@),
            Event::Opened(n) => EventView::Opened(n as int),
            Event::Missed => EventView::Missed,
            Event::Rendered(t) => EventView::Rendered(t@),
            Event::Created => EventView::Created,
            Event::Filled => EventView::Filled,
            Event::Failed(e) => EventView::Failed(e@),
            Event::Cued { prompt_tokens, stop_ids, turn_start } => EventView::Cued {
                prompt_tokens: prompt_tokens as int,
                stop_ids: stop_ids@,
                turn_start: turn_start@,
            },
            Event::Token { id, call, text } => EventView::Token {
                id,
                call: match call {
                    Some(c) => Some((c.0@, c.1@)),
                    None => None,
                },
                text: text@,
            },
            Event::StepEnd => EventView::StepEnd,
            Event::Ended => EventView::Ended,
            Event::Died(_) => EventView::Died,
            Event::Decoded(s) => EventView::Decoded(s@),
            Event::Saved(kept) => EventView::Saved(kept),
            Event::Deleted => EventView::Deleted,
            Event::Clock(now) => EventView::Clock(now),
        }
    }
}

impl View for Ask {
    type V = AskView;

    open spec fn view(&self) -> AskView {
        match *self {
            Ask::Load(s) => AskView::Load(s@),
            Ask::Open(s) => AskView::Open(s@),
            Ask::Render(ops) => AskView::Render(replay_view(ops@)),
            Ask::Create => AskView::Create,
            Ask::Prefill(t) => AskView::Prefill(t@),
            Ask::Cue => AskView::Cue,
            Ask::Step => AskView::Step,
            Ask::Token => AskView::Token,
            Ask::Decode(t) => AskView::Decode(t@),
            Ask::Save(s) => AskView::Save(s@),
            Ask::Delete(s) => AskView::Delete(s@),
            Ask::Clock => AskView::Clock,
            Ask::End => AskView::End,
            Ask::Answer(status, body) => AskView::Answer(status as int, tree(body)),
        }
    }
}

/// An event answers what a phase waits for.
pub open spec fn fits(p: Phase, e: EventView) -> bool {
    match e {
        EventView::Loaded(_) => p == Phase::Loading,
        EventView::Opened(_) => p == Phase::Opening,
        EventView::Missed => p == Phase::Opening,
        EventView::Rendered(_) => p == Phase::Rendering,
        EventView::Created => p == Phase::Creating,
        EventView::Filled => p == Phase::Filling,
        EventView::Failed(_) => p == Phase::Loading || p == Phase::Rendering || p == Phase::Creating
            || p == Phase::Filling,
        EventView::Cued { .. } => p == Phase::Cueing,
        EventView::Token { .. } => p == Phase::Generating,
        EventView::StepEnd => p == Phase::Generating,
        EventView::Ended => p == Phase::Generating,
        EventView::Died => p == Phase::Generating,
        EventView::Decoded(_) => p == Phase::Decoding,
        EventView::Saved(_) => p == Phase::Saving,
        EventView::Deleted => p == Phase::Deleting,
        EventView::Clock(_) => p == Phase::Timing,
    }
}

// ---------------------------------------------------------------------------
// The model of a turn
// ---------------------------------------------------------------------------

/// What stays the same over a turn.
pub struct FixedView {
    pub schemas: Seq<Seq<char>>,
    pub max_tokens: int,
    pub no_think: bool,
    pub stop_strings: Seq<Seq<char>>,
    pub include_usage: bool,
}

/// What a turn came to.
#[verifier::ext_equal]
pub struct OutcomeView {
    pub visible: Seq<char>,
    pub raw: Seq<char>,
    pub calls: Seq<CallOut>,
    pub prompt: int,
    pub generated: int,
    pub hit_max: bool,
    pub failed: bool,
}

/// How a turn stands.
#[verifier::ext_equal]
pub struct DriveView {
    pub phase: Phase,
    pub messages: Seq<MessageView>,
    /// How many messages are behind the resume point.
    pub split: int,
    /// The snapshot that the turn resumes from, once it is open.
    pub name: Option<Seq<char>>,
    pub cached: int,
    /// The tokens to prefill, and how many of them are in.
    pub tokens: Seq<u32>,
    pub at: int,
    pub rules: RulesView,
    pub turn: TurnView,
    pub prompt: int,
    pub failed: bool,
    pub outcome: OutcomeView,
    /// The stream has its end mark.
    pub done: bool,
}

/// The content of an outcome.
pub open spec fn content_out(o: OutcomeView) -> Seq<char> {
    plain_content(o.visible, o.calls, o.raw)
}

/// Why an outcome finished.
pub open spec fn reason_out(o: OutcomeView) -> Seq<char> {
    finish_of(o.calls, o.hit_max, o.failed)
}

/// A turn that cannot go on: a stream ends as a turn cut short by length would,
/// and without one the answer is a fault of the server.
pub open spec fn dropped(f: FixedView, v: DriveView, message: Seq<char>) -> (DriveView, AskView) {
    ended(f, v, 500, "server_error"@, message)
}

/// A turn of a request that cannot be rendered: without a stream the answer is the
/// client's error, never a fault, which clients would retry.
pub open spec fn refused(f: FixedView, v: DriveView, message: Seq<char>) -> (DriveView, AskView) {
    ended(f, v, 400, "invalid_request_error"@, message)
}

/// A turn that ends before its reply: a stream as one cut short by length would,
/// for its status is out already, and another with an error of that status.
pub open spec fn ended(
    f: FixedView,
    v: DriveView,
    status: int,
    error_type: Seq<char>,
    message: Seq<char>,
) -> (DriveView, AskView) {
    if v.rules.streaming {
        let m = v.rules.meta;
        let a = said(v.rules, v.turn, content_tree(m, " "@));
        let b = said(v.rules, a, finish_tree(m, "length"@));
        let c = if f.include_usage {
            said(v.rules, b, usage_chunk_tree(m, 0, 0, 0))
        } else {
            b
        };
        (DriveView { phase: Phase::Closed, turn: c, done: true, ..v }, AskView::End)
    } else {
        (
            DriveView { phase: Phase::Closed, ..v },
            AskView::Answer(status, error_tree(error_type, message)),
        )
    }
}

/// A turn that has just begun: the assistant is announced first, before a prefill
/// that may take long.
pub open spec fn begun(f: FixedView, v: DriveView, model: Option<Seq<char>>) -> (DriveView, AskView) {
    let a = DriveView { turn: said(v.rules, v.turn, role_tree(v.rules.meta)), ..v };
    match model {
        Some(name) => (DriveView { phase: Phase::Loading, ..a }, AskView::Load(name)),
        None => dropped(f, a, "no models available"@),
    }
}

/// A turn whose context is rendered from these turns.
pub open spec fn rendering(f: FixedView, v: DriveView, ops: Replay) -> (DriveView, AskView) {
    match ops {
        Ok(o) => (DriveView { phase: Phase::Rendering, ..v }, AskView::Render(o)),
        Err(e) => refused(f, v, e),
    }
}

/// A turn whose context is rendered whole.
pub open spec fn rebuilt(f: FixedView, v: DriveView) -> (DriveView, AskView) {
    rendering(f, v, full_turns(v.messages, f.schemas, f.no_think))
}

/// A turn whose model is there: its messages lose the texts of special tokens,
/// and it resumes where a snapshot may be.
pub open spec fn loaded(f: FixedView, v: DriveView, specials: Seq<String>) -> (DriveView, AskView) {
    let m = Seq::new(v.messages.len(), |i: int| clean_message(v.messages[i], specials));
    let a = DriveView { messages: m, ..v };
    match last_assistant(m, m.len() as int) {
        Some(i) => (
            DriveView { phase: Phase::Opening, split: i + 1, ..a },
            AskView::Open(name_of(m, i + 1, f.schemas, f.no_think)),
        ),
        None => rebuilt(f, a),
    }
}

/// A turn whose snapshot is open: what is behind the resume point is rendered.
pub open spec fn resumed(f: FixedView, v: DriveView, cached: int) -> (DriveView, AskView) {
    rendering(
        f,
        DriveView {
            name: Some(name_of(v.messages, v.split, f.schemas, f.no_think)),
            cached,
            ..v
        },
        turns(v.messages.skip(v.split), 0, f.no_think),
    )
}

/// The end of the prefill pass that starts at `at`.
pub open spec fn pass_end(at: int, n: int) -> int {
    if at + PREFILL_CHUNK <= n {
        at + PREFILL_CHUNK
    } else {
        n
    }
}

/// A turn that prefills its next pass, or is cued behind the last.
pub open spec fn filling(v: DriveView) -> (DriveView, AskView) {
    let n = v.tokens.len() as int;
    if v.at < n {
        (
            DriveView { phase: Phase::Filling, ..v },
            AskView::Prefill(v.tokens.subrange(v.at, pass_end(v.at, n))),
        )
    } else {
        (DriveView { phase: Phase::Cueing, ..v }, AskView::Cue)
    }
}

/// A turn whose prompt is rendered: a resumed context is there, another is
/// created first.
pub open spec fn rendered(v: DriveView, tokens: Seq<u32>) -> (DriveView, AskView) {
    let a = DriveView { tokens, at: 0, ..v };
    if v.name is Some {
        filling(a)
    } else {
        (DriveView { phase: Phase::Creating, ..a }, AskView::Create)
    }
}

/// A turn behind a prefill pass: each keeps the client waiting.
pub open spec fn filled(v: DriveView) -> (DriveView, AskView) {
    filling(
        DriveView {
            at: pass_end(v.at, v.tokens.len() as int),
            turn: said(v.rules, v.turn, chunk_tree(v.rules.meta, Tree::Obj(obj()), None)),
            ..v
        },
    )
}

/// A turn that is cued. It also stops at the marker that starts a turn.
pub open spec fn cued(v: DriveView, prompt: int, stop_ids: Seq<u32>, turn_start: Seq<u32>) -> (
    DriveView,
    AskView,
) {
    let stops = if turn_start.len() == 1 && !stop_ids.contains(turn_start[0]) {
        stop_ids.push(turn_start[0])
    } else {
        stop_ids
    };
    (
        DriveView {
            phase: Phase::Generating,
            prompt,
            rules: RulesView { stop_ids: stops, ..v.rules },
            ..v
        },
        AskView::Step,
    )
}

/// A decoder's end of turn counts in a stream only.
pub open spec fn muted(streaming: bool, text: TextView) -> TextView {
    match text {
        TextView::Done => if streaming {
            TextView::Done
        } else {
            TextView::Quiet
        },
        _ => text,
    }
}

/// A turn that generated its last token: what the filter held back is shown, and
/// calls that the decoder missed are added. Without a stream, trailing white space
/// goes first.
pub open spec fn wound(f: FixedView, v: DriveView, failed: bool) -> (DriveView, AskView) {
    let a = flushed(v.rules, v.turn);
    let tools = f.schemas.len() > 0;
    let b = if v.rules.streaming {
        salvaged_stream(v.rules, a, tools, f.schemas)
    } else {
        salvaged_functions(
            v.rules,
            TurnView { visible: trim_end(a.visible), ..a },
            tools,
            f.schemas,
        )
    };
    (
        DriveView { phase: Phase::Decoding, turn: b, failed, ..v },
        AskView::Decode(b.generated),
    )
}

/// A turn behind a token.
pub open spec fn heard(
    f: FixedView,
    v: DriveView,
    id: u32,
    call: Option<(Seq<char>, Seq<char>)>,
    text: TextView,
) -> (DriveView, AskView) {
    let r = tokened(v.rules, v.turn, id, call, muted(v.rules.streaming, text));
    let a = DriveView { turn: r.0, ..v };
    match r.1 {
        Flow::Continue => (a, AskView::Token),
        Flow::Break => wound(f, a, false),
    }
}

/// A turn behind a step: it ends at the token limit, and a stream at a stop string
/// on the visible tail.
pub open spec fn stepped(f: FixedView, v: DriveView) -> (DriveView, AskView) {
    if v.turn.generated.len() >= f.max_tokens || (v.rules.streaming && stopped(
        f.stop_strings,
        v.turn.visible,
    )) {
        wound(f, v, false)
    } else {
        (v, AskView::Step)
    }
}

/// A turn whose raw text is known: one that showed and called nothing still
/// delivers content, and it is saved under what the client will echo.
pub open spec fn decoded(f: FixedView, v: DriveView, raw: Seq<char>) -> (DriveView, AskView) {
    let o = OutcomeView {
        visible: v.turn.visible,
        raw,
        calls: v.turn.calls,
        prompt: v.prompt,
        generated: v.turn.generated.len() as int,
        hit_max: v.turn.generated.len() >= f.max_tokens,
        failed: v.failed,
    };
    let turn = if !v.turn.emitted && o.calls.len() == 0 {
        said(v.rules, v.turn, content_tree(v.rules.meta, content_out(o)))
    } else {
        v.turn
    };
    (
        DriveView { phase: Phase::Saving, turn, outcome: o, ..v },
        AskView::Save(saved_name(v.messages, f.schemas, f.no_think, content_out(o), o.calls)),
    )
}

/// A turn's usage is told, and can be told only where it is counted.
pub open spec fn counted(f: FixedView, v: DriveView) -> bool {
    v.rules.streaming && !f.include_usage || v.outcome.prompt + v.outcome.generated <= u32::MAX
}

/// A turn that is over: a stream gets its finish, its usage where that is wanted,
/// and its end; another is answered once the time is known.
pub open spec fn closed(f: FixedView, v: DriveView) -> (DriveView, AskView) {
    let m = v.rules.meta;
    let o = v.outcome;
    if v.rules.streaming {
        let a = said(v.rules, v.turn, finish_tree(m, reason_out(o)));
        let b = if f.include_usage {
            said(v.rules, a, usage_chunk_tree(m, o.prompt, o.generated, v.cached))
        } else {
            a
        };
        (DriveView { phase: Phase::Closed, turn: b, done: true, ..v }, AskView::End)
    } else {
        (DriveView { phase: Phase::Timing, ..v }, AskView::Clock)
    }
}

/// A turn that is answered whole, as created now.
pub open spec fn answered(v: DriveView, now: i64) -> (DriveView, AskView) {
    let o = v.outcome;
    (
        DriveView { phase: Phase::Closed, ..v },
        AskView::Answer(
            200,
            completion_tree(
                ChunkMeta { created: now, ..v.rules.meta },
                content_out(o),
                o.calls,
                reason_out(o),
                usage_tree(o.prompt, o.generated, v.cached),
            ),
        ),
    )
}

/// A turn behind its save: the snapshot that it resumed from goes where the new
/// one is kept.
pub open spec fn saved(f: FixedView, v: DriveView, kept: bool) -> (DriveView, AskView) {
    match v.name {
        Some(old) => if kept {
            (DriveView { phase: Phase::Deleting, ..v }, AskView::Delete(old))
        } else {
            closed(f, v)
        },
        None => closed(f, v),
    }
}

/// A turn behind an event, and what it asks for.
pub open spec fn next(f: FixedView, v: DriveView, e: EventView) -> (DriveView, AskView) {
    match e {
        EventView::Loaded(specials) => loaded(f, v, specials),
        EventView::Opened(n) => resumed(f, v, n),
        EventView::Missed => rebuilt(f, v),
        EventView::Rendered(tokens) => rendered(v, tokens),
        EventView::Created => filling(v),
        EventView::Filled => filled(v),
        EventView::Failed(message) => dropped(f, v, message),
        EventView::Cued { prompt_tokens, stop_ids, turn_start } => cued(
            v,
            prompt_tokens,
            stop_ids,
            turn_start,
        ),
        EventView::Token { id, call, text } => heard(f, v, id, call, text),
        EventView::StepEnd => stepped(f, v),
        EventView::Ended => wound(f, v, false),
        EventView::Died => wound(f, v, true),
        EventView::Decoded(raw) => decoded(f, v, raw),
        EventView::Saved(kept) => saved(f, v, kept),
        EventView::Deleted => closed(f, v),
        EventView::Clock(now) => answered(v, now),
    }
}

// ---------------------------------------------------------------------------
// The turn
// ---------------------------------------------------------------------------

/// A turn under way.
pub struct Drive {
    setup: TurnSetup,
    meta: ChunkMeta,
    streaming: bool,
    phase: Phase,
    split: usize,
    name: Option<String>,
    cached: u32,
    tokens: Vec<u32>,
    at: usize,
    turn: TurnState,
    prompt: u32,
    gen_error: Option<String>,
    outcome: TurnOutcome,
    done: bool,
}

/// What a turn's setup fixes.
pub open spec fn fixed_of(s: TurnSetup) -> FixedView {
    FixedView {
        schemas: texts(s.tool_schemas@),
        max_tokens: s.max_tokens as int,
        no_think: s.no_think,
        stop_strings: texts(s.stop_strings@),
        include_usage: s.include_usage,
    }
}

/// What an outcome holds.
pub open spec fn outcome_out(o: TurnOutcome) -> OutcomeView {
    OutcomeView {
        visible: o.visible_text@,
        raw: o.raw_text@,
        calls: calls_view(o.calls@),
        prompt: o.prompt_tokens as int,
        generated: o.n_generated as int,
        hit_max: o.hit_max,
        failed: o.gen_error is Some,
    }
}

/// An outcome before there is any.
pub open spec fn no_outcome() -> OutcomeView {
    OutcomeView {
        visible: Seq::empty(),
        raw: Seq::empty(),
        calls: Seq::empty(),
        prompt: 0,
        generated: 0,
        hit_max: false,
        failed: false,
    }
}

/// A turn of a request before anything has happened.
pub open spec fn fresh_drive(messages: Seq<MessageView>, rules: RulesView) -> DriveView {
    DriveView {
        phase: Phase::Loading,
        messages,
        split: 0,
        name: None,
        cached: 0,
        tokens: Seq::empty(),
        at: 0,
        rules,
        turn: fresh_turn(),
        prompt: 0,
        failed: false,
        outcome: no_outcome(),
        done: false,
    }
}

impl View for Drive {
    type V = DriveView;

    closed spec fn view(&self) -> DriveView {
        DriveView {
            phase: self.phase,
            messages: messages_view(self.setup.messages@),
            split: self.split as int,
            name: match self.name {
                Some(n) => Some(n@),
                None => None,
            },
            cached: self.cached as int,
            tokens: self.tokens@,
            at: self.at as int,
            rules: self.turn.rules(),
            turn: self.turn@,
            prompt: self.prompt as int,
            failed: self.gen_error is Some,
            outcome: outcome_out(self.outcome),
            done: self.done,
        }
    }
}

impl Drive {
    /// What stays the same over the turn.
    pub closed spec fn fixed(&self) -> FixedView {
        fixed_of(self.setup)
    }

    /// The turn repeats what its rules say, and its places are within bounds.
    pub closed spec fn wf(&self) -> bool {
        &&& self.meta == self.turn.rules().meta
        &&& self.streaming == self.turn.rules().streaming
        &&& self.at <= self.tokens@.len()
        &&& self.split <= self.setup.messages@.len()
    }

    /// Begins a turn: what makes its ids its own, the model that serves it, and
    /// when it was created.
    pub fn begin(
        setup: TurnSetup,
        streaming: bool,
        uniq: String,
        model: Option<String>,
        created: i64,
    ) -> (r: (Drive, Ask))
        ensures
            r.0.wf(),
            r.0.fixed() == fixed_of(setup),
            ({
                let m = r.0@.rules.meta;
                &&& m.id@ == "chatcmpl-"@ + uniq@
                &&& m.created == created
                &&& m.model@ == (match model {
                    Some(n) => n@,
                    None => "unknown"@,
                })
                &&& (r.0@, r.1@) == begun(
                    fixed_of(setup),
                    fresh_drive(
                        messages_view(setup.messages@),
                        RulesView {
                            meta: m,
                            streaming,
                            uniq: uniq@,
                            stop_ids: Seq::empty(),
                            stop_strings: Seq::empty(),
                            markers: 2,
                        },
                    ),
                    match model {
                        Some(n) => Some(n@),
                        None => None,
                    },
                )
            }),
    {
        let shown = match &model {
            Some(n) => n.clone(),
            None => "unknown".to_owned(),
        };
        let meta = ChunkMeta { id: cat2("chatcmpl-", uniq.as_str()), model: shown, created };
        let own = ChunkMeta { id: meta.id.clone(), model: meta.model.clone(), created };
        let none: Vec<String> = Vec::new();
        proof {
            assert(texts(none@) =~= Seq::empty());
            assert(own == meta);
        }
        let turn = TurnState::watching(own, streaming, uniq, Vec::new(), none, 2);
        let outcome = TurnOutcome {
            visible_text: String::new(),
            raw_text: String::new(),
            calls: Vec::new(),
            prompt_tokens: 0,
            n_generated: 0,
            hit_max: false,
            gen_error: None,
        };
        let mut d = Drive {
            setup,
            meta,
            streaming,
            phase: Phase::Loading,
            split: 0,
            name: None,
            cached: 0,
            tokens: Vec::new(),
            at: 0,
            turn,
            prompt: 0,
            gen_error: None,
            outcome,
            done: false,
        };
        proof {
            assert(outcome_out(d.outcome) =~= no_outcome());
            assert(d.turn.rules().stop_ids =~= Seq::empty());
            assert(d@ =~= fresh_drive(messages_view(setup.messages@), d.turn.rules()));
        }
        d.turn.say_role();
        let ghost after = d@;
        proof {
            let v = fresh_drive(messages_view(setup.messages@), d.turn.rules());
            assert(after =~= DriveView { turn: said(v.rules, v.turn, role_tree(v.rules.meta)), ..v });
        }
        let ask = match model {
            Some(name) => Ask::Load(name),
            None => d.drop_turn("no models available"),
        };
        (d, ask)
    }

    fn drop_turn(&mut self, message: &str) -> (r: Ask)
        requires
            old(self).wf(),
        ensures
            final(self).wf(),
            final(self).fixed() == old(self).fixed(),
            (final(self)@, r@) == dropped(old(self).fixed(), old(self)@, message@),
    {
        self.end_turn(500, "server_error", message)
    }

    fn end_turn(&mut self, status: u16, error_type: &str, message: &str) -> (r: Ask)
        requires
            old(self).wf(),
        ensures
            final(self).wf(),
            final(self).fixed() == old(self).fixed(),
            (final(self)@, r@) == ended(
                old(self).fixed(),
                old(self)@,
                status as int,
                error_type@,
                message@,
            ),
    {
        let ghost after = ended(
            old(self).fixed(),
            old(self)@,
            status as int,
            error_type@,
            message@,
        ).0;
        self.phase = Phase::Closed;
        if self.streaming {
            self.turn.say_content(" ");
            self.turn.say_finish("length");
            if self.setup.include_usage {
                self.turn.say_usage(0, 0, 0);
            }
            self.done = true;
            proof {
                assert(self@ =~= after);
            }
            Ask::End
        } else {
            proof {
                assert(self@ =~= after);
            }
            Ask::Answer(status, error_response(error_type, message))
        }
    }

    fn render_turns(&mut self, split: Option<usize>) -> (r: Ask)
        requires
            old(self).wf(),
            split matches Some(n) ==> n <= old(self)@.messages.len(),
        ensures
            final(self).wf(),
            final(self).fixed() == old(self).fixed(),
            (final(self)@, r@) == rendering(
                old(self).fixed(),
                old(self)@,
                match split {
                    Some(n) => turns(
                        old(self)@.messages.skip(n as int),
                        0,
                        old(self).fixed().no_think,
                    ),
                    None => full_turns(
                        old(self)@.messages,
                        old(self).fixed().schemas,
                        old(self).fixed().no_think,
                    ),
                },
            ),
    {
        match context_turns(&self.setup, split) {
            Ok(ops) => {
                self.phase = Phase::Rendering;
                proof {
                    assert(self@ =~= DriveView { phase: Phase::Rendering, ..old(self)@ });
                }
                Ask::Render(ops)
            },
            Err(e) => self.end_turn(400, "invalid_request_error", e.as_str()),
        }
    }

    fn load(&mut self, specials: Vec<String>) -> (r: Ask)
        requires
            old(self).wf(),
        ensures
            final(self).wf(),
            final(self).fixed() == old(self).fixed(),
            (final(self)@, r@) == loaded(old(self).fixed(), old(self)@, specials@),
    {
        let ghost before = self.setup.messages@;
        sanitize_messages(&mut self.setup.messages, specials.as_slice());
        let ghost m = messages_view(self.setup.messages@);
        let ghost v = DriveView { messages: m, ..old(self)@ };
        proof {
            assert(m =~= Seq::new(
                old(self)@.messages.len(),
                |i: int| clean_message(old(self)@.messages[i], specials@),
            ));
            assert(self@ =~= v);
            assert(self.fixed() == old(self).fixed());
        }
        match resume_point(&self.setup) {
            Some(p) => {
                self.phase = Phase::Opening;
                self.split = p.split;
                proof {
                    assert(self@ =~= DriveView {
                        phase: Phase::Opening,
                        split: p.split as int,
                        ..v
                    });
                }
                Ask::Open(p.name)
            },
            None => self.render_turns(None),
        }
    }

    fn resume(&mut self, cached: u32) -> (r: Ask)
        requires
            old(self).wf(),
        ensures
            final(self).wf(),
            final(self).fixed() == old(self).fixed(),
            (final(self)@, r@) == resumed(old(self).fixed(), old(self)@, cached as int),
    {
        let name = self.resume_name();
        self.name = Some(name);
        self.cached = cached;
        proof {
            assert(self@ =~= DriveView {
                name: Some(
                    name_of(
                        old(self)@.messages,
                        old(self)@.split,
                        old(self).fixed().schemas,
                        old(self).fixed().no_think,
                    ),
                ),
                cached: cached as int,
                ..old(self)@
            });
        }
        let split = self.split;
        self.render_turns(Some(split))
    }

    fn resume_name(&self) -> (r: String)
        requires
            self.wf(),
        ensures
            r@ == name_of(
                self@.messages,
                self@.split,
                self.fixed().schemas,
                self.fixed().no_think,
            ),
    {
        snapshot_of(&self.setup, self.split)
    }

    fn fill(&mut self) -> (r: Ask)
        requires
            old(self).wf(),
        ensures
            final(self).wf(),
            final(self).fixed() == old(self).fixed(),
            (final(self)@, r@) == filling(old(self)@),
    {
        let n = self.tokens.len();
        if self.at < n {
            self.phase = Phase::Filling;
            let end = self.pass();
            let mut pass: Vec<u32> = Vec::new();
            pass.extend_from_slice(
                vstd::slice::slice_subrange(self.tokens.as_slice(), self.at, end),
            );
            proof {
                assert(pass@ =~= self.tokens@.subrange(self.at as int, end as int));
                assert(self@ =~= DriveView { phase: Phase::Filling, ..old(self)@ });
            }
            Ask::Prefill(pass)
        } else {
            self.phase = Phase::Cueing;
            proof {
                assert(self@ =~= DriveView { phase: Phase::Cueing, ..old(self)@ });
            }
            Ask::Cue
        }
    }

    fn begin_prefill(&mut self, tokens: Vec<u32>) -> (r: Ask)
        requires
            old(self).wf(),
        ensures
            final(self).wf(),
            final(self).fixed() == old(self).fixed(),
            (final(self)@, r@) == rendered(old(self)@, tokens@),
    {
        self.tokens = tokens;
        self.at = 0;
        proof {
            assert(self@ =~= DriveView { tokens: tokens@, at: 0, ..old(self)@ });
        }
        if self.name.is_some() {
            self.fill()
        } else {
            self.phase = Phase::Creating;
            proof {
                assert(self@ =~= rendered(old(self)@, tokens@).0);
            }
            Ask::Create
        }
    }

    fn go_on_filling(&mut self) -> (r: Ask)
        requires
            old(self).wf(),
        ensures
            final(self).wf(),
            final(self).fixed() == old(self).fixed(),
            (final(self)@, r@) == filled(old(self)@),
    {
        self.at = self.pass();
        self.turn.say_alive();
        proof {
            assert(self@ =~= DriveView {
                at: pass_end(old(self)@.at, old(self)@.tokens.len() as int),
                turn: said(
                    old(self)@.rules,
                    old(self)@.turn,
                    chunk_tree(old(self)@.rules.meta, Tree::Obj(obj()), None),
                ),
                ..old(self)@
            });
        }
        self.fill()
    }

    fn generate(&mut self, prompt_tokens: u32, stop_ids: Vec<u32>, turn_start: Vec<u32>) -> (r: Ask)
        requires
            old(self).wf(),
        ensures
            final(self).wf(),
            final(self).fixed() == old(self).fixed(),
            (final(self)@, r@) == cued(
                old(self)@,
                prompt_tokens as int,
                stop_ids@,
                turn_start@,
            ),
    {
        let stops = with_turn_start(stop_ids, turn_start.as_slice());
        self.prompt = prompt_tokens;
        self.turn.set_stops(stops);
        self.phase = Phase::Generating;
        proof {
            assert(self@ =~= cued(old(self)@, prompt_tokens as int, stop_ids@, turn_start@).0);
        }
        Ask::Step
    }

    fn pass(&self) -> (end: usize)
        requires
            self.wf(),
        ensures
            end == pass_end(self@.at, self@.tokens.len() as int),
            self@.at <= end <= self@.tokens.len(),
    {
        if self.tokens.len() - self.at >= PREFILL_CHUNK {
            self.at + PREFILL_CHUNK
        } else {
            self.tokens.len()
        }
    }

    fn wind(&mut self, gen_error: Option<String>) -> (r: Ask)
        requires
            old(self).wf(),
        ensures
            final(self).wf(),
            final(self).fixed() == old(self).fixed(),
            (final(self)@, r@) == wound(old(self).fixed(), old(self)@, gen_error is Some),
    {
        let ghost rules = self.turn.rules();
        self.gen_error = gen_error;
        self.phase = Phase::Decoding;
        self.turn.flush_tail();
        proof {
            assert(texts(self.setup.tool_schemas@).len() == self.setup.tool_schemas@.len());
        }
        if self.streaming {
            salvage_stream(&mut self.turn, self.setup.tool_schemas.as_slice());
        } else {
            self.turn.trim_visible();
            salvage_functions(&mut self.turn, self.setup.tool_schemas.as_slice());
        }
        let mut generated: Vec<u32> = Vec::new();
        generated.extend_from_slice(self.turn.tokens());
        proof {
            assert(generated@ =~= self.turn@.generated);
            assert(self@ =~= wound(old(self).fixed(), old(self)@, gen_error is Some).0);
        }
        Ask::Decode(generated)
    }

    fn hear(&mut self, id: u32, call: Option<(String, String)>, text: TextEvent) -> (r: Ask)
        requires
            old(self).wf(),
        ensures
            final(self).wf(),
            final(self).fixed() == old(self).fixed(),
            (final(self)@, r@) == heard(
                old(self).fixed(),
                old(self)@,
                id,
                match call {
                    Some(c) => Some((c.0@, c.1@)),
                    None => None,
                },
                text@,
            ),
    {
        let kept = match text {
            TextEvent::Done => if self.streaming {
                TextEvent::Done
            } else {
                TextEvent::Quiet
            },
            t => t,
        };
        match self.turn.on_token(id, call, kept) {
            Flow::Continue => {
                proof {
                    assert(self@ =~= DriveView { turn: self.turn@, ..old(self)@ });
                }
                Ask::Token
            },
            Flow::Break => {
                proof {
                    assert(self@ =~= DriveView { turn: self.turn@, ..old(self)@ });
                }
                self.wind(None)
            },
        }
    }

    fn end_step(&mut self) -> (r: Ask)
        requires
            old(self).wf(),
        ensures
            final(self).wf(),
            final(self).fixed() == old(self).fixed(),
            (final(self)@, r@) == stepped(old(self).fixed(), old(self)@),
    {
        let over = if self.streaming {
            after_step(&self.turn, &self.setup) == Flow::Break
        } else {
            self.turn.count() >= self.setup.max_tokens
        };
        if over {
            self.wind(None)
        } else {
            Ask::Step
        }
    }

    fn settle(&mut self, raw: String) -> (r: Ask)
        requires
            old(self).wf(),
        ensures
            final(self).wf(),
            final(self).fixed() == old(self).fixed(),
            (final(self)@, r@) == decoded(old(self).fixed(), old(self)@, raw@),
    {
        let gen_error = match &self.gen_error {
            Some(e) => Some(e.clone()),
            None => None,
        };
        self.outcome =
        outcome_of(&self.turn, raw, self.prompt, self.setup.max_tokens, gen_error);
        let ghost o = decoded(old(self).fixed(), old(self)@, raw@).0.outcome;
        proof {
            assert(outcome_out(self.outcome) =~= o);
            assert(calls_view(self.outcome.calls@).len() == self.outcome.calls@.len());
        }
        let content = self.outcome.final_content();
        if !self.turn.showed_text() && self.outcome.calls.len() == 0 {
            self.turn.say_content(content.as_str());
        }
        self.phase = Phase::Saving;
        let name = save_name(&self.setup, content.as_str(), self.outcome.calls.as_slice());
        proof {
            assert(self@ =~= decoded(old(self).fixed(), old(self)@, raw@).0);
        }
        Ask::Save(name)
    }

    fn replace(&mut self, kept: bool) -> (r: Ask)
        requires
            old(self).wf(),
            counted(old(self).fixed(), old(self)@),
        ensures
            final(self).wf(),
            final(self).fixed() == old(self).fixed(),
            (final(self)@, r@) == saved(old(self).fixed(), old(self)@, kept),
    {
        if kept {
            if let Some(old_name) = &self.name {
                let ask = Ask::Delete(old_name.clone());
                self.phase = Phase::Deleting;
                proof {
                    assert(self@ =~= DriveView { phase: Phase::Deleting, ..old(self)@ });
                }
                return ask;
            }
        }
        self.close()
    }

    fn close(&mut self) -> (r: Ask)
        requires
            old(self).wf(),
            counted(old(self).fixed(), old(self)@),
        ensures
            final(self).wf(),
            final(self).fixed() == old(self).fixed(),
            (final(self)@, r@) == closed(old(self).fixed(), old(self)@),
    {
        if self.streaming {
            self.phase = Phase::Closed;
            let reason = self.outcome.finish_reason();
            self.turn.say_finish(reason);
            if self.setup.include_usage {
                self.turn.say_usage(
                    self.outcome.prompt_tokens,
                    self.outcome.n_generated as u32,
                    self.cached,
                );
            }
            self.done = true;
            proof {
                assert(self@ =~= closed(old(self).fixed(), old(self)@).0);
            }
            Ask::End
        } else {
            self.phase = Phase::Timing;
            proof {
                assert(self@ =~= closed(old(self).fixed(), old(self)@).0);
            }
            Ask::Clock
        }
    }

    fn answer(&mut self, now: i64) -> (r: Ask)
        requires
            old(self).wf(),
            old(self)@.outcome.prompt + old(self)@.outcome.generated <= u32::MAX,
        ensures
            final(self).wf(),
            final(self).fixed() == old(self).fixed(),
            (final(self)@, r@) == answered(old(self)@, now),
    {
        self.phase = Phase::Closed;
        let meta = ChunkMeta {
            id: self.meta.id.clone(),
            model: self.meta.model.clone(),
            created: now,
        };
        proof {
            assert(meta == ChunkMeta { created: now, ..self.meta });
            assert(self@ =~= DriveView { phase: Phase::Closed, ..old(self)@ });
        }
        Ask::Answer(200, response_body(&meta, &self.outcome, self.cached))
    }

    /// Takes what has happened and answers what is to be done next.
    pub fn on(&mut self, event: Event) -> (r: Ask)
        requires
            old(self).wf(),
            fits(old(self)@.phase, event@),
            event is Saved || event is Deleted ==> counted(old(self).fixed(), old(self)@),
            event is Clock ==> old(self)@.outcome.prompt + old(self)@.outcome.generated
                <= u32::MAX,
        ensures
            final(self).wf(),
            final(self).fixed() == old(self).fixed(),
            (final(self)@, r@) == next(old(self).fixed(), old(self)@, event@),
    {
        match event {
            Event::Loaded(specials) => self.load(specials),
            Event::Opened(cached) => self.resume(cached),
            Event::Missed => self.render_turns(None),
            Event::Rendered(tokens) => self.begin_prefill(tokens),
            Event::Created => self.fill(),
            Event::Filled => self.go_on_filling(),
            Event::Failed(message) => self.drop_turn(message.as_str()),
            Event::Cued { prompt_tokens, stop_ids, turn_start } => self.generate(
                prompt_tokens,
                stop_ids,
                turn_start,
            ),
            Event::Token { id, call, text } => self.hear(id, call, text),
            Event::StepEnd => self.end_step(),
            Event::Ended => self.wind(None),
            Event::Died(e) => self.wind(Some(e)),
            Event::Decoded(raw) => self.settle(raw),
            Event::Saved(kept) => self.replace(kept),
            Event::Deleted => self.close(),
            Event::Clock(now) => self.answer(now),
        }
    }

    /// What the turn waits for.
    pub fn phase(&self) -> (r: Phase)
        ensures
            r == self@.phase,
    {
        self.phase
    }

    /// Whether the turn's usage, where it is told, can be counted in 32 bits.
    pub fn countable(&self) -> (r: bool)
        requires
            self.wf(),
        ensures
            r == counted(self.fixed(), self@),
    {
        let n = self.outcome.n_generated as u64;
        (self.streaming && !self.setup.include_usage) || (n <= u32::MAX as u64 && n
            + self.outcome.prompt_tokens as u64 <= u32::MAX as u64)
    }

    /// Frame number `i` of the stream, where it is there already.
    pub fn frame_at(&self, i: usize) -> (r: Option<String>)
        ensures
            match r {
                Some(s) => if i < self@.turn.sent.len() {
                    s@ == frame(self@.turn.sent[i as int])
                } else {
                    self@.done && i == self@.turn.sent.len() && s@ == "data: [DONE]\n\n"@
                },
                None => i > self@.turn.sent.len() || (i == self@.turn.sent.len() && !self@.done),
            },
    {
        let n = self.turn.sent_count();
        if i < n {
            Some(sse_frame(self.turn.sent_at(i)))
        } else if i == n && self.done {
            Some(sse_done())
        } else {
            None
        }
    }
}

// ---------------------------------------------------------------------------
// Laws
// ---------------------------------------------------------------------------

/// A message carries a finish reason.
pub open spec fn finish_in(t: Tree) -> bool {
    match member_of(t, "choices"@) {
        Some(Tree::Arr(c)) => c.len() == 1 && (match member_of(c[0], "finish_reason"@) {
            Some(Tree::Str(_)) => true,
            _ => false,
        }),
        _ => false,
    }
}

/// How many messages carry a finish reason.
pub open spec fn finishes(sent: Seq<Tree>) -> int
    decreases sent.len(),
{
    if sent.len() == 0 {
        0
    } else {
        finishes(sent.drop_last()) + (if finish_in(sent.last()) {
            1int
        } else {
            0
        })
    }
}

/// A stream under way: it began with the assistant's role, no finish is sent, and
/// what it told of content is its visible text.
pub open spec fn telling(r: RulesView, v: TurnView) -> bool {
    r.streaming ==> {
        &&& v.sent.len() > 0
        &&& v.sent[0] == role_tree(r.meta)
        &&& finishes(v.sent) == 0
        &&& spoken(v.sent) == v.visible
        &&& v.emitted == (v.visible.len() > 0)
    }
}

/// How a turn stands, whatever has happened. A stream has one finish and its end
/// mark where it is closed, and neither before; up to its save it has told what it
/// shows, and from then on the content that it is saved under. Without a stream
/// nothing is sent before the answer.
#[verifier::opaque]
pub open spec fn sound(v: DriveView) -> bool {
    let sent = v.turn.sent;
    if v.rules.streaming {
        &&& sent.len() > 0
        &&& sent[0] == role_tree(v.rules.meta)
        &&& v.phase != Phase::Timing
        &&& v.done == (v.phase == Phase::Closed)
        &&& finishes(sent) == (if v.phase == Phase::Closed {
            1int
        } else {
            0
        })
        &&& match v.phase {
            Phase::Saving | Phase::Deleting => spoken(sent) == content_out(v.outcome),
            Phase::Closed => true,
            _ => telling(v.rules, v.turn),
        }
    } else {
        sent.len() == 0 && !v.done
    }
}

proof fn lemma_said(r: RulesView, v: TurnView, t: Tree)
    ensures
        r.streaming ==> {
            let w = said(r, v, t);
            &&& spoken(w.sent) == spoken(v.sent) + content_in(t)
            &&& finishes(w.sent) == finishes(v.sent) + (if finish_in(t) {
                1int
            } else {
                0
            })
            &&& v.sent.len() > 0 ==> w.sent[0] == v.sent[0]
        },
{
    if r.streaming {
        assert(said(r, v, t).sent.drop_last() =~= v.sent);
    }
}

proof fn lemma_quiet(m: ChunkMeta, reason: Seq<char>, p: int, n: int, c: int)
    ensures
        content_in(role_tree(m)) == Seq::<char>::empty(),
        content_in(chunk_tree(m, Tree::Obj(obj()), None)) == Seq::<char>::empty(),
        content_in(finish_tree(m, reason)) == Seq::<char>::empty(),
        content_in(usage_chunk_tree(m, p, n, c)) == Seq::<char>::empty(),
        !finish_in(usage_chunk_tree(m, p, n, c)),
{
    reveal_strlit("");
    assert(""@ =~= Seq::<char>::empty());
    reveal_strlit("choices");
    reveal_strlit("usage");
    assert("choices"@.len() != "usage"@.len());
    lemma_chunk_content(
        m,
        Tree::Obj(obj().insert("role"@, Tree::Str("assistant"@)).insert("content"@, Tree::Str(""@))),
        None,
    );
    lemma_chunk_content(m, Tree::Obj(obj()), None);
    lemma_chunk_content(m, Tree::Obj(obj()), Some(reason));
}

proof fn lemma_telling_showed(r: RulesView, v: TurnView, text: Seq<char>)
    requires
        telling(r, v),
    ensures
        telling(r, showed(r, v, text)),
{
    lemma_contents(r, text, 0, text, text, text);
    lemma_said(r, v, content_tree(r.meta, text));
}

proof fn lemma_telling_added(r: RulesView, v: TurnView, name: Seq<char>, args: Seq<char>)
    requires
        telling(r, v),
    ensures
        telling(r, added(r, v, name, args)),
{
    let id = call_id(r.uniq, v.calls.len());
    let n = v.calls.len() as int;
    lemma_contents(r, name, n, id, name, args);
    lemma_said(r, v, call_delta_tree(r.meta, n, id, name, args));
    assert(spoken(v.sent) + Seq::<char>::empty() =~= spoken(v.sent));
}

proof fn lemma_telling_called_all(r: RulesView, v: TurnView, calls: Seq<(Seq<char>, Seq<char>)>)
    requires
        telling(r, v),
    ensures
        telling(r, called_all(r, v, calls)),
        telling(r, added_all(r, v, calls)),
    decreases calls.len(),
{
    if calls.len() > 0 {
        lemma_telling_called_all(r, v, calls.drop_last());
        lemma_telling_added(
            r,
            called_all(r, v, calls.drop_last()),
            calls.last().0,
            calls.last().1,
        );
        lemma_telling_added(r, added_all(r, v, calls.drop_last()), calls.last().0, calls.last().1);
    }
}

proof fn lemma_telling_tokened(
    r: RulesView,
    v: TurnView,
    t: u32,
    call: Option<(Seq<char>, Seq<char>)>,
    text: TextView,
)
    requires
        telling(r, v),
    ensures
        telling(r, tokened(r, v, t, call, text).0),
{
    let a = TurnView { generated: v.generated.push(t), ..v };
    if let Some(c) = call {
        lemma_telling_added(r, a, c.0, c.1);
    }
    let b = match call {
        Some(c) => called(r, a, c.0, c.1),
        None => a,
    };
    if let TextView::Delta(s) = text {
        let g = fed(b.filter, s, r.markers);
        lemma_telling_showed(r, TurnView { filter: g.0, ..b }, g.1);
    }
}

proof fn lemma_telling_wound(f: FixedView, v: DriveView, failed: bool)
    requires
        telling(v.rules, v.turn),
    ensures
        telling(v.rules, wound(f, v, failed).0.turn),
{
    let r = v.rules;
    if r.streaming {
        let g = finished(v.turn.filter);
        let a = flushed(r, v.turn);
        lemma_telling_showed(r, TurnView { filter: g.0, ..v.turn }, g.1);
        lemma_telling_called_all(r, a, unplaced(fenced_from(a.visible, 0)));
        let b = if a.calls.len() == 0 && f.schemas.len() > 0 {
            called_all(r, a, unplaced(fenced_from(a.visible, 0)))
        } else {
            a
        };
        lemma_telling_called_all(r, b, functions_from(b.visible, 0, f.schemas));
    }
}

proof fn lemma_silent_all(r: RulesView, v: TurnView, calls: Seq<(Seq<char>, Seq<char>)>)
    requires
        !r.streaming,
    ensures
        added_all(r, v, calls).sent == v.sent,
    decreases calls.len(),
{
    if calls.len() > 0 {
        lemma_silent_all(r, v, calls.drop_last());
    }
}

proof fn lemma_sound_ended(
    f: FixedView,
    v: DriveView,
    status: int,
    error_type: Seq<char>,
    message: Seq<char>,
)
    requires
        sound(v),
        v.phase != Phase::Closed,
    ensures
        sound(ended(f, v, status, error_type, message).0),
{
    reveal(sound);
    let m = v.rules.meta;
    if v.rules.streaming {
        let a = said(v.rules, v.turn, content_tree(m, " "@));
        let b = said(v.rules, a, finish_tree(m, "length"@));
        lemma_said(v.rules, v.turn, content_tree(m, " "@));
        lemma_said(v.rules, a, finish_tree(m, "length"@));
        lemma_said(v.rules, b, usage_chunk_tree(m, 0, 0, 0));
        lemma_quiet(m, "length"@, 0, 0, 0);
    }
}

proof fn lemma_sound_dropped(f: FixedView, v: DriveView, message: Seq<char>)
    requires
        sound(v),
        v.phase != Phase::Closed,
    ensures
        sound(dropped(f, v, message).0),
{
    lemma_sound_ended(f, v, 500, "server_error"@, message);
}

proof fn lemma_sound_closed(f: FixedView, v: DriveView)
    requires
        sound(v),
        v.phase == Phase::Saving || v.phase == Phase::Deleting,
    ensures
        sound(closed(f, v).0),
        v.rules.streaming ==> spoken(closed(f, v).0.turn.sent) == content_out(v.outcome),
{
    reveal(sound);
    let m = v.rules.meta;
    let o = v.outcome;
    let a = said(v.rules, v.turn, finish_tree(m, reason_out(o)));
    lemma_said(v.rules, v.turn, finish_tree(m, reason_out(o)));
    lemma_said(v.rules, a, usage_chunk_tree(m, o.prompt, o.generated, v.cached));
    lemma_quiet(m, reason_out(o), o.prompt, o.generated, v.cached);
    assert(spoken(v.turn.sent) + Seq::<char>::empty() =~= spoken(v.turn.sent));
    assert(spoken(a.sent) + Seq::<char>::empty() =~= spoken(a.sent));
}

/// A turn stands soundly from its beginning, over whatever happens. So a stream
/// always begins with the assistant's role; it ends, once it ends, with exactly one
/// finish and its end mark, also where loading, rendering or prefilling fails; and
/// its finish never comes before the save.
pub proof fn law_every_stream_is_well_formed(
    f: FixedView,
    v: DriveView,
    messages: Seq<MessageView>,
    rules: RulesView,
    model: Option<Seq<char>>,
    e: EventView,
)
    ensures
        sound(begun(f, fresh_drive(messages, rules), model).0),
        sound(v) && fits(v.phase, e) ==> sound(next(f, v, e).0),
{
    lemma_sound_begun(f, messages, rules, model);
    if sound(v) && fits(v.phase, e) {
        lemma_sound_next(f, v, e);
    }
}

proof fn lemma_sound_begun(
    f: FixedView,
    messages: Seq<MessageView>,
    rules: RulesView,
    model: Option<Seq<char>>,
)
    ensures
        sound(begun(f, fresh_drive(messages, rules), model).0),
{
    reveal(sound);
    let v = fresh_drive(messages, rules);
    let t = role_tree(rules.meta);
    lemma_said(rules, v.turn, t);
    lemma_quiet(rules.meta, ""@, 0, 0, 0);
    let a = DriveView { turn: said(rules, v.turn, t), ..v };
    assert(spoken(v.turn.sent) + Seq::<char>::empty() =~= v.turn.visible);
    assert(sound(a));
    lemma_sound_dropped(f, a, "no models available"@);
}

proof fn lemma_sound_next(f: FixedView, v: DriveView, e: EventView)
    requires
        sound(v),
        fits(v.phase, e),
    ensures
        sound(next(f, v, e).0),
{
    match e {
        EventView::Loaded(specials) => lemma_sound_loaded(f, v, specials),
        EventView::Opened(n) => lemma_sound_resumed(f, v, n),
        EventView::Missed => lemma_sound_rendering(
            f,
            v,
            full_turns(v.messages, f.schemas, f.no_think),
        ),
        EventView::Rendered(tokens) => lemma_sound_rendered(v, tokens),
        EventView::Created => lemma_sound_filling(v),
        EventView::Filled => lemma_sound_filled(v),
        EventView::Failed(message) => lemma_sound_dropped(f, v, message),
        EventView::Cued { prompt_tokens, stop_ids, turn_start } => lemma_sound_cued(
            v,
            prompt_tokens,
            stop_ids,
            turn_start,
        ),
        EventView::Token { id, call, text } => lemma_sound_heard(f, v, id, call, text),
        EventView::StepEnd => lemma_sound_wound(f, v, false),
        EventView::Ended => lemma_sound_wound(f, v, false),
        EventView::Died => lemma_sound_wound(f, v, true),
        EventView::Decoded(raw) => lemma_sound_decoded(f, v, raw),
        EventView::Saved(_) => lemma_sound_saved(f, v),
        EventView::Deleted => lemma_sound_closed(f, v),
        EventView::Clock(now) => lemma_sound_answered(v, now),
    }
}

proof fn lemma_sound_answered(v: DriveView, now: i64)
    requires
        sound(v),
        v.phase == Phase::Timing,
    ensures
        sound(answered(v, now).0),
{
    reveal(sound);
}

proof fn lemma_sound_loaded(f: FixedView, v: DriveView, specials: Seq<String>)
    requires
        sound(v),
        v.phase == Phase::Loading,
    ensures
        sound(loaded(f, v, specials).0),
{
    reveal(sound);
    let m = Seq::new(v.messages.len(), |i: int| clean_message(v.messages[i], specials));
    let a = DriveView { messages: m, ..v };
    lemma_sound_rendering(f, a, full_turns(m, f.schemas, f.no_think));
}

proof fn lemma_sound_resumed(f: FixedView, v: DriveView, cached: int)
    requires
        sound(v),
        v.phase == Phase::Opening,
    ensures
        sound(resumed(f, v, cached).0),
{
    reveal(sound);
    let a = DriveView {
        name: Some(name_of(v.messages, v.split, f.schemas, f.no_think)),
        cached,
        ..v
    };
    lemma_sound_rendering(f, a, turns(v.messages.skip(v.split), 0, f.no_think));
}

proof fn lemma_sound_filling(v: DriveView)
    requires
        sound(v),
        v.phase == Phase::Rendering || v.phase == Phase::Creating || v.phase == Phase::Filling,
    ensures
        sound(filling(v).0),
{
    reveal(sound);
}

proof fn lemma_sound_rendered(v: DriveView, tokens: Seq<u32>)
    requires
        sound(v),
        v.phase == Phase::Rendering,
    ensures
        sound(rendered(v, tokens).0),
{
    reveal(sound);
    lemma_sound_filling(DriveView { tokens, at: 0, ..v });
}

proof fn lemma_sound_filled(v: DriveView)
    requires
        sound(v),
        v.phase == Phase::Filling,
    ensures
        sound(filled(v).0),
{
    reveal(sound);
    let t = chunk_tree(v.rules.meta, Tree::Obj(obj()), None);
    lemma_said(v.rules, v.turn, t);
    lemma_quiet(v.rules.meta, ""@, 0, 0, 0);
    assert(spoken(v.turn.sent) + Seq::<char>::empty() =~= spoken(v.turn.sent));
    lemma_sound_filling(
        DriveView {
            at: pass_end(v.at, v.tokens.len() as int),
            turn: said(v.rules, v.turn, t),
            ..v
        },
    );
}

proof fn lemma_sound_cued(v: DriveView, prompt: int, stop_ids: Seq<u32>, turn_start: Seq<u32>)
    requires
        sound(v),
        v.phase == Phase::Cueing,
    ensures
        sound(cued(v, prompt, stop_ids, turn_start).0),
{
    reveal(sound);
}

proof fn lemma_sound_saved(f: FixedView, v: DriveView)
    requires
        sound(v),
        v.phase == Phase::Saving,
    ensures
        sound(saved(f, v, true).0),
        sound(saved(f, v, false).0),
{
    reveal(sound);
    lemma_sound_closed(f, v);
}

proof fn lemma_sound_rendering(f: FixedView, v: DriveView, ops: Replay)
    requires
        sound(v),
        v.phase == Phase::Loading || v.phase == Phase::Opening,
    ensures
        sound(rendering(f, v, ops).0),
{
    reveal(sound);
    if let Err(e) = ops {
        lemma_sound_ended(f, v, 400, "invalid_request_error"@, e);
    }
}

proof fn lemma_sound_heard(
    f: FixedView,
    v: DriveView,
    id: u32,
    call: Option<(Seq<char>, Seq<char>)>,
    text: TextView,
)
    requires
        sound(v),
        v.phase == Phase::Generating,
    ensures
        sound(heard(f, v, id, call, text).0),
{
    reveal(sound);
    let kept = muted(v.rules.streaming, text);
    let r = tokened(v.rules, v.turn, id, call, kept);
    lemma_telling_tokened(v.rules, v.turn, id, call, kept);
    let a = DriveView { turn: r.0, ..v };
    lemma_telling_wound(f, a, false);
    lemma_sound_wound(f, a, false);
}

proof fn lemma_sound_decoded(f: FixedView, v: DriveView, raw: Seq<char>)
    requires
        sound(v),
        v.phase == Phase::Decoding,
    ensures
        sound(decoded(f, v, raw).0),
{
    reveal(sound);
    let w = decoded(f, v, raw).0;
    let t = content_tree(v.rules.meta, content_out(w.outcome));
    lemma_contents(v.rules, content_out(w.outcome), 0, raw, raw, raw);
    lemma_said(v.rules, v.turn, t);
    assert(Seq::<char>::empty() + content_out(w.outcome) =~= content_out(w.outcome));
    if v.rules.streaming && v.turn.visible.len() == 0 {
        assert(v.turn.visible =~= Seq::<char>::empty());
    }
}

proof fn lemma_sound_wound(f: FixedView, v: DriveView, failed: bool)
    requires
        sound(v),
        v.phase == Phase::Generating,
    ensures
        sound(wound(f, v, failed).0),
{
    reveal(sound);
    lemma_telling_wound(f, v, failed);
    if !v.rules.streaming {
        let a = flushed(v.rules, v.turn);
        let b = TurnView { visible: trim_end(a.visible), ..a };
        lemma_silent_all(v.rules, b, functions_from(b.visible, 0, f.schemas));
    }
}

/// What the client was told of content over the whole stream is what the turn is
/// saved under: the save is asked for under that content, and behind it only the
/// finish and the usage are sent, which tell none. So a client that echoes its
/// stream finds the snapshot.
pub proof fn law_a_turn_is_saved_under_what_was_told(f: FixedView, v: DriveView, raw: Seq<char>)
    requires
        sound(v),
        v.phase == Phase::Decoding,
        v.rules.streaming,
    ensures
        ({
            let (w, ask) = decoded(f, v, raw);
            let told = spoken(w.turn.sent);
            &&& ask == AskView::Save(saved_name(v.messages, f.schemas, f.no_think, told, w.turn.calls))
            &&& spoken(closed(f, w).0.turn.sent) == told
        }),
{
    reveal(sound);
    lemma_sound_next(f, v, EventView::Decoded(raw));
    lemma_sound_closed(f, decoded(f, v, raw).0);
}

/// A phase waits for what was asked.
pub open spec fn waits_for(p: Phase, ask: AskView) -> bool {
    match ask {
        AskView::Load(_) => p == Phase::Loading,
        AskView::Open(_) => p == Phase::Opening,
        AskView::Render(_) => p == Phase::Rendering,
        AskView::Create => p == Phase::Creating,
        AskView::Prefill(_) => p == Phase::Filling,
        AskView::Cue => p == Phase::Cueing,
        AskView::Step => p == Phase::Generating,
        AskView::Token => p == Phase::Generating,
        AskView::Decode(_) => p == Phase::Decoding,
        AskView::Save(_) => p == Phase::Saving,
        AskView::Delete(_) => p == Phase::Deleting,
        AskView::Clock => p == Phase::Timing,
        AskView::End => p == Phase::Closed,
        AskView::Answer(_, _) => p == Phase::Closed,
    }
}

/// A turn always waits for what it asked for last, and is closed exactly where it
/// ends its stream or gives its answer.
pub proof fn law_a_turn_waits_for_what_it_asked(
    f: FixedView,
    v: DriveView,
    messages: Seq<MessageView>,
    rules: RulesView,
    model: Option<Seq<char>>,
    e: EventView,
)
    ensures
        ({
            let (w, ask) = begun(f, fresh_drive(messages, rules), model);
            waits_for(w.phase, ask)
        }),
        fits(v.phase, e) ==> ({
            let (w, ask) = next(f, v, e);
            waits_for(w.phase, ask)
        }),
{
}

/// The snapshot that a turn resumed from is deleted only where the new one is
/// kept: a retry of the request can still find it.
pub proof fn law_only_a_kept_save_deletes(f: FixedView, v: DriveView, e: EventView)
    requires
        fits(v.phase, e),
    ensures
        next(f, v, e).1 is Delete ==> e == EventView::Saved(true) && v.name == Some(
            next(f, v, e).1->Delete_0,
        ),
{
}

/// The passes of a prefill are the prompt's tokens, in order and each once: a pass
/// starts where the one before it ended, and the reply is cued behind the last.
pub proof fn law_the_passes_cover_the_prompt(v: DriveView)
    requires
        0 <= v.at <= v.tokens.len(),
    ensures
        ({
            let (w, ask) = filling(v);
            let end = pass_end(v.at, v.tokens.len() as int);
            &&& v.at < v.tokens.len() ==> ask == AskView::Prefill(v.tokens.subrange(v.at, end))
                && v.at < end <= v.tokens.len() && filled(w).0.at == end
            &&& v.at == v.tokens.len() ==> ask == AskView::Cue
        }),
{
}

/// A fault is answered only where something failed that the client did not send:
/// no model, or what was asked for could not be done. A request that cannot be
/// rendered is the client's error.
pub proof fn law_faults_are_the_servers_own(f: FixedView, v: DriveView, e: EventView)
    requires
        fits(v.phase, e),
    ensures
        match next(f, v, e).1 {
            AskView::Answer(status, _) => match e {
                EventView::Failed(_) => status == 500,
                EventView::Clock(_) => status == 200,
                _ => status == 400,
            },
            _ => true,
        },
{
}

/// A turn resumes from the snapshot of everything up to the last reply, its
/// messages cleaned of special tokens first; where it is found only what is behind
/// that is rendered, and where there is none, or it is gone, all is.
pub proof fn law_a_turn_resumes_behind_the_last_reply(
    f: FixedView,
    v: DriveView,
    specials: Seq<String>,
    cached: int,
    i: int,
)
    ensures
        ({
            let w = next(f, v, EventView::Loaded(specials)).0;
            let ask = next(f, v, EventView::Loaded(specials)).1;
            &&& w.messages.len() == v.messages.len()
            &&& 0 <= i < v.messages.len() ==> w.messages[i] == clean_message(v.messages[i], specials)
            &&& match last_assistant(w.messages, w.messages.len() as int) {
                Some(k) => ask == AskView::Open(name_of(w.messages, k + 1, f.schemas, f.no_think))
                    && w.split == k + 1,
                None => match full_turns(w.messages, f.schemas, f.no_think) {
                    Ok(ops) => ask == AskView::Render(ops),
                    Err(e) => !v.rules.streaming ==> ask == AskView::Answer(
                        400,
                        error_tree("invalid_request_error"@, e),
                    ),
                },
            }
        }),
        match turns(v.messages.skip(v.split), 0, f.no_think) {
            Ok(ops) => next(f, v, EventView::Opened(cached)).1 == AskView::Render(ops) && next(
                f,
                v,
                EventView::Opened(cached),
            ).0.cached == cached && next(f, v, EventView::Opened(cached)).0.name == Some(
                name_of(v.messages, v.split, f.schemas, f.no_think),
            ),
            Err(e) => true,
        },
        match full_turns(v.messages, f.schemas, f.no_think) {
            Ok(ops) => next(f, v, EventView::Missed).1 == AskView::Render(ops) && next(
                f,
                v,
                EventView::Missed,
            ).0.cached == v.cached && next(f, v, EventView::Missed).0.name == v.name,
            Err(e) => true,
        },
{
}

/// A cued turn stops at every stop token it was given and, where the marker that
/// starts a turn is one token, at that one, and at no other.
pub proof fn law_a_cued_turn_knows_its_stops(
    f: FixedView,
    v: DriveView,
    prompt: int,
    stop_ids: Seq<u32>,
    turn_start: Seq<u32>,
    t: u32,
)
    ensures
        ({
            let w = next(
                f,
                v,
                EventView::Cued { prompt_tokens: prompt, stop_ids, turn_start },
            ).0;
            &&& w.prompt == prompt
            &&& w.rules.stop_ids.contains(t) <==> stop_ids.contains(t) || (turn_start.len() == 1
                && turn_start[0] == t)
        }),
{
    let all = stop_ids.push(turn_start[0]);
    if stop_ids.contains(t) {
        let k = choose|k: int| 0 <= k < stop_ids.len() && stop_ids[k] == t;
        assert(all[k] == t);
    }
    assert(all[stop_ids.len() as int] == turn_start[0]);
    if all.contains(t) && !stop_ids.contains(t) {
        let k = choose|k: int| 0 <= k < all.len() && all[k] == t;
        assert(k == stop_ids.len()) by {
            if k < stop_ids.len() {
                assert(stop_ids[k] == t);
            }
        }
    }
}

/// A turn goes on behind a step exactly while it has fewer tokens than it may and,
/// in a stream, shows no stop string at its end.
pub proof fn law_a_step_ends_at_a_limit_or_a_stop(f: FixedView, v: DriveView)
    ensures
        next(f, v, EventView::StepEnd).1 is Step <==> v.turn.generated.len() < f.max_tokens && !(
        v.rules.streaming && stopped(f.stop_strings, v.turn.visible)),
        next(f, v, EventView::StepEnd).1 is Step ==> next(f, v, EventView::StepEnd).0 == v,
        !(next(f, v, EventView::StepEnd).1 is Step) ==> next(f, v, EventView::StepEnd) == next(
            f,
            v,
            EventView::Ended,
        ),
{
}

/// The outcome of a turn is what it did: its text, calls and tokens, its raw
/// generation, and whether it met its limit or failed.
pub proof fn law_an_outcome_is_what_the_turn_did(f: FixedView, v: DriveView, raw: Seq<char>)
    ensures
        ({
            let w = next(f, v, EventView::Decoded(raw)).0;
            let o = w.outcome;
            &&& o.visible == v.turn.visible
            &&& o.raw == raw
            &&& o.calls == v.turn.calls
            &&& o.prompt == v.prompt
            &&& o.generated == v.turn.generated.len()
            &&& o.hit_max <==> v.turn.generated.len() >= f.max_tokens
            &&& o.failed == v.failed
            &&& w.turn.calls == v.turn.calls && w.turn.visible == v.turn.visible
            &&& v.rules.streaming && !v.turn.emitted && v.turn.calls.len() == 0 ==> w.turn.sent
                == v.turn.sent.push(content_tree(v.rules.meta, content_out(o)))
            &&& v.turn.emitted || v.turn.calls.len() > 0 || !v.rules.streaming ==> w.turn.sent
                == v.turn.sent
        }),
        next(f, v, EventView::Died).0.failed,
        !next(f, v, EventView::Ended).0.failed,
        next(f, v, EventView::Ended).1 == AskView::Decode(next(f, v, EventView::Ended).0.turn.generated),
{
}

/// A turn that is over tells why it finished: a stream in its last chunk, with its
/// tokens behind it where they are wanted; another in one answer that has its
/// content, its calls and its tokens, as created now.
pub proof fn law_a_finished_turn_is_answered(f: FixedView, v: DriveView, now: i64)
    ensures
        ({
            let w = next(f, v, EventView::Deleted).0;
            let o = v.outcome;
            let last = finish_tree(v.rules.meta, finish_of(o.calls, o.hit_max, o.failed));
            &&& v.rules.streaming && f.include_usage ==> w.turn.sent == v.turn.sent.push(last).push(
                usage_chunk_tree(v.rules.meta, o.prompt, o.generated, v.cached),
            ) && w.done
            &&& v.rules.streaming && !f.include_usage ==> w.turn.sent == v.turn.sent.push(last) && w.done
            &&& v.rules.streaming ==> next(f, v, EventView::Deleted).1 is End
            &&& !v.rules.streaming ==> w.turn == v.turn && next(f, v, EventView::Deleted).1 is Clock
        }),
        ({
            let o = v.outcome;
            let meta = ChunkMeta { created: now, ..v.rules.meta };
            next(f, v, EventView::Clock(now)).1 == AskView::Answer(
                200,
                completion_tree(
                    meta,
                    plain_content(o.visible, o.calls, o.raw),
                    o.calls,
                    finish_of(o.calls, o.hit_max, o.failed),
                    usage_tree(o.prompt, o.generated, v.cached),
                ),
            )
        }),
        v.name is None ==> next(f, v, EventView::Saved(true)) == next(f, v, EventView::Deleted),
        next(f, v, EventView::Saved(false)) == next(f, v, EventView::Deleted),
{
}

/// A turn that fails tells its client so: a stream ends as one cut short by length,
/// with a blank content so that it is not empty; another is answered with the
/// message as a fault of the server's.
pub proof fn law_a_failed_turn_is_told(f: FixedView, v: DriveView, message: Seq<char>)
    ensures
        ({
            let w = next(f, v, EventView::Failed(message)).0;
            let ask = next(f, v, EventView::Failed(message)).1;
            let m = v.rules.meta;
            let cut = v.turn.sent.push(content_tree(m, " "@)).push(finish_tree(m, "length"@));
            &&& w.phase == Phase::Closed
            &&& !v.rules.streaming ==> ask == AskView::Answer(500, error_tree("server_error"@, message))
                && w.turn == v.turn
            &&& v.rules.streaming ==> ask is End && w.done
            &&& v.rules.streaming && !f.include_usage ==> w.turn.sent == cut
            &&& v.rules.streaming && f.include_usage ==> w.turn.sent == cut.push(
                usage_chunk_tree(m, 0, 0, 0),
            )
        }),
{
}

/// A turn announces the assistant first and then asks for its model; without a
/// model it fails.
pub proof fn law_a_turn_announces_the_assistant(f: FixedView, v: DriveView, name: Seq<char>)
    ensures
        begun(f, v, Some(name)).1 == AskView::Load(name),
        v.rules.streaming ==> begun(f, v, Some(name)).0.turn.sent == v.turn.sent.push(
            role_tree(v.rules.meta),
        ),
        !v.rules.streaming ==> begun(f, v, None).1 == AskView::Answer(
            500,
            error_tree("server_error"@, "no models available"@),
        ),
{
}

/// A pass takes no more tokens than a chunk, and as many as there are left up to
/// that; a new context is created before its first pass, a resumed one is there.
pub proof fn law_a_pass_is_a_chunk(v: DriveView, tokens: Seq<u32>, at: int, n: int)
    requires
        0 <= at < n,
    ensures
        at < pass_end(at, n) <= n,
        pass_end(at, n) - at <= PREFILL_CHUNK,
        pass_end(at, n) == n || pass_end(at, n) - at == PREFILL_CHUNK,
        v.name is None ==> rendered(v, tokens).1 is Create,
        v.name is Some && tokens.len() > 0 ==> rendered(v, tokens).1 == AskView::Prefill(
            tokens.subrange(0, pass_end(0, tokens.len() as int)),
        ),
        rendered(v, tokens).0.tokens == tokens && rendered(v, tokens).0.at == 0,
        v.rules.streaming ==> filled(v).0.turn.sent == v.turn.sent.push(
            chunk_tree(v.rules.meta, Tree::Obj(Map::empty()), None),
        ),
{
}

/// What a turn keeps of its request are its own schemas, limit, switch, stop
/// strings and wish for usage.
pub proof fn law_a_turn_keeps_its_request(s: TurnSetup, i: int)
    ensures
        ({
            let f = fixed_of(s);
            &&& f.schemas.len() == s.tool_schemas@.len()
            &&& 0 <= i < f.schemas.len() ==> f.schemas[i] == s.tool_schemas@[i]@
            &&& f.max_tokens == s.max_tokens
            &&& f.no_think == s.no_think
            &&& f.stop_strings.len() == s.stop_strings@.len()
            &&& 0 <= i < f.stop_strings.len() ==> f.stop_strings[i] == s.stop_strings@[i]@
            &&& f.include_usage == s.include_usage
        }),
{
}

/// A turn that ends shows what its filter held back; in a stream that is all, and
/// in one piece the white space at its end goes. Its tokens stay, and its calls are
/// what it had and what is salvaged.
pub proof fn law_an_ended_turn_shows_what_was_held(f: FixedView, v: DriveView)
    ensures
        ({
            let w = next(f, v, EventView::Ended).0;
            let shown = v.turn.visible + finished(v.turn.filter).1;
            let tools = f.schemas.len() > 0;
            let a = flushed(v.rules, v.turn);
            &&& a.visible == shown
            &&& v.rules.streaming ==> w.turn == salvaged_stream(v.rules, a, tools, f.schemas)
            &&& !v.rules.streaming ==> w.turn == salvaged_functions(
                v.rules,
                TurnView { visible: trim_end(shown), ..a },
                tools,
                f.schemas,
            )
        }),
{
    let t = finished(v.turn.filter).1;
    if t.len() == 0 {
        assert(v.turn.visible + t =~= v.turn.visible);
    }
}

/// A token goes to the turn as it came, but that the decoder's end of a turn counts
/// in a stream only; a turn that it ends is ended as any other.
pub proof fn law_a_token_is_heard(
    f: FixedView,
    v: DriveView,
    id: u32,
    call: Option<(Seq<char>, Seq<char>)>,
    text: TextView,
)
    ensures
        ({
            let taken = if text is Done && !v.rules.streaming {
                TextView::Quiet
            } else {
                text
            };
            let r = tokened(v.rules, v.turn, id, call, taken);
            let e = EventView::Token { id, call, text };
            &&& r.1 == Flow::Continue ==> next(f, v, e).1 is Token && next(f, v, e).0 == (DriveView {
                turn: r.0,
                ..v
            })
            &&& r.1 == Flow::Break ==> next(f, v, e) == next(
                f,
                DriveView { turn: r.0, ..v },
                EventView::Ended,
            )
        }),
{
}

} // verus!
