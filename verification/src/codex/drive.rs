//! A Responses turn from its request to its last frame: what has happened goes
//! in, what is to be done next comes out.
//!
//! A stream is announced first, and whatever fails behind that is told as a
//! failed response. The context is saved before the response is completed, for
//! the next request comes as soon as that lands.

use vstd::prelude::*;
use vstd::string::*;

use crate::chat::handler::{lookup_text, saved_text, Lookup, Saved, PREFILL_CHUNK};
use crate::chat::prompt::has_token;
use crate::chat::turn::{Flow, TextEvent, TextView};
use crate::codex::handler::{
    announces, call_outputs, closed, complete, done_items, error_response, event_view, fail, fresh_stream,
    law_a_turn_stays_steady, law_both_paths_answer_alike, law_every_item_is_announced, output_view, resume_point, save_name,
    steady, tokened, whole, whole_output, Ending, EventView, ItemEvent, ItemView, StreamTurn,
    StreamView, TurnSetup,
};
use crate::codex::replay::{full_items, item_turns, render_full, render_items};
use crate::codex::session::{canons, last_produced, name_of, turn_items};
use crate::codex::types::{
    InputItem, InputTokensDetails, OutputTokensDetails, ResponseResource, ResponseStatus, Usage,
};
use crate::format::dec;
use crate::json::{tree, Tree};
use crate::replay::{opt_text, replay_view, ReplayOp, ReplayView};
use crate::serving::error::error_tree;
use crate::serving::types::texts;
use crate::text::{cat2, cat3};

verus! {

// ---------------------------------------------------------------------------
// Events, asks and frames
// ---------------------------------------------------------------------------

/// Where a turn stands: what it waits for.
#[derive(Clone, Copy, Debug, PartialEq, Eq, Structural)]
pub enum Phase {
    Loading,
    Opening,
    Rendering,
    Creating,
    Filling,
    Cueing,
    Generating,
    Saving,
    Deleting,
    Timing,
    Closed,
}

/// What has happened.
pub enum Event {
    Loaded,
    /// The snapshot is open and holds so many tokens.
    Opened(u32),
    /// There is no such snapshot, and why.
    Missed(String),
    Rendered(Vec<u32>),
    Created,
    Filled,
    /// What was asked for could not be done.
    Failed(String),
    /// The reply is cued: the prompt's length and the model's stop tokens.
    Cued { prompt_tokens: u32, stop_ids: Vec<u32> },
    /// A sampled token, the call that it completed and the text that it made.
    Token { id: u32, call: Option<(String, String)>, text: TextEvent },
    /// The last step has no more tokens.
    StepEnd,
    /// There is no further step.
    Ended,
    /// The context is saved and holds so many tokens.
    Kept(u32),
    /// The sealed turn could not be flushed.
    Unflushed(String),
    /// The context could not be saved.
    Unsaved(String),
    Deleted,
    /// The time, in seconds.
    Clock(i64),
}

/// What is to be done next.
pub enum Ask {
    /// Load the model of that name.
    Load(String),
    /// Open the snapshot of that name.
    Open(String),
    /// Render these turns.
    Render(Vec<ReplayOp>),
    /// Create an empty context.
    Create,
    /// Prefill these tokens.
    Prefill(Vec<u32>),
    /// Cue the reply.
    Cue,
    /// Generate a step.
    Step,
    /// Tell of the step's next token, or of its end.
    Token,
    /// Seal the turn, and save the context under that name.
    Save(String),
    /// Delete the snapshot of that name.
    Delete(String),
    /// Tell the time.
    Clock,
    /// Close the stream.
    End,
    /// Answer with the response.
    Respond(ResponseResource),
    /// Answer with a fault of the server.
    Fault(serde_json::Value),
}

/// One event of a stream.
pub enum Frame {
    Created(ResponseResource),
    InProgress(ResponseResource),
    Item(ItemEvent),
    Failed(ResponseResource),
    Completed(ResponseResource),
    Done,
}

/// What an event holds.
pub enum HappenedView {
    Loaded,
    Opened(int),
    Missed(Seq<char>),
    Rendered(Seq<u32>),
    Created,
    Filled,
    Failed(Seq<char>),
    Cued { prompt_tokens: int, stop_ids: Seq<u32> },
    Token { id: u32, call: Option<(Seq<char>, Seq<char>)>, text: TextView },
    StepEnd,
    Ended,
    Kept(int),
    Unflushed(Seq<char>),
    Unsaved(Seq<char>),
    Deleted,
    Clock(i64),
}

impl View for Event {
    type V = HappenedView;

    open spec fn view(&self) -> HappenedView {
        match *self {
            Event::Loaded => HappenedView::Loaded,
            Event::Opened(n) => HappenedView::Opened(n as int),
            Event::Missed(e) => HappenedView::Missed(e@),
            Event::Rendered(t) => HappenedView::Rendered(t@),
            Event::Created => HappenedView::Created,
            Event::Filled => HappenedView::Filled,
            Event::Failed(e) => HappenedView::Failed(e@),
            Event::Cued { prompt_tokens, stop_ids } => HappenedView::Cued {
                prompt_tokens: prompt_tokens as int,
                stop_ids: stop_ids@,
            },
            Event::Token { id, call, text } => HappenedView::Token {
                id,
                call: match call {
                    Some(c) => Some((c.0@, c.1@)),
                    None => None,
                },
                text: text@,
            },
            Event::StepEnd => HappenedView::StepEnd,
            Event::Ended => HappenedView::Ended,
            Event::Kept(n) => HappenedView::Kept(n as int),
            Event::Unflushed(e) => HappenedView::Unflushed(e@),
            Event::Unsaved(e) => HappenedView::Unsaved(e@),
            Event::Deleted => HappenedView::Deleted,
            Event::Clock(t) => HappenedView::Clock(t),
        }
    }
}

/// What an error holds.
#[verifier::ext_equal]
pub struct ErrorView {
    pub error_type: Seq<char>,
    pub code: Option<Seq<char>>,
    pub message: Seq<char>,
    pub param: Option<Seq<char>>,
}

/// What a response holds.
#[verifier::ext_equal]
pub struct ResourceView {
    pub id: Seq<char>,
    pub object: Seq<char>,
    pub model: Seq<char>,
    pub created_at: i64,
    pub completed_at: Option<i64>,
    pub status: ResponseStatus,
    pub reason: Option<Seq<char>>,
    pub output: Seq<ItemView>,
    pub error: Option<ErrorView>,
    pub usage: Option<Usage>,
    pub debug: Option<Seq<char>>,
}

/// What a response holds.
pub open spec fn resource_view(r: ResponseResource) -> ResourceView {
    ResourceView {
        id: r.id@,
        object: r.object@,
        model: r.model@,
        created_at: r.created_at,
        completed_at: r.completed_at,
        status: r.status,
        reason: match r.incomplete_details {
            Some(d) => Some(d.reason@),
            None => None,
        },
        output: output_view(r.output@),
        error: match r.error {
            Some(e) => Some(
                ErrorView {
                    error_type: e.error_type@,
                    code: opt_text(e.code),
                    message: e.message@,
                    param: opt_text(e.param),
                },
            ),
            None => None,
        },
        usage: r.usage,
        debug: opt_text(r.debug),
    }
}

/// What a frame holds.
pub enum FrameView {
    Created(ResourceView),
    InProgress(ResourceView),
    Item(EventView),
    Failed(ResourceView),
    Completed(ResourceView),
    Done,
}

/// What a frame holds.
pub open spec fn frame_view(f: Frame) -> FrameView {
    match f {
        Frame::Created(r) => FrameView::Created(resource_view(r)),
        Frame::InProgress(r) => FrameView::InProgress(resource_view(r)),
        Frame::Item(e) => FrameView::Item(event_view(e)),
        Frame::Failed(r) => FrameView::Failed(resource_view(r)),
        Frame::Completed(r) => FrameView::Completed(resource_view(r)),
        Frame::Done => FrameView::Done,
    }
}

/// What frames hold.
pub open spec fn frames_view(v: Seq<Frame>) -> Seq<FrameView> {
    v.map_values(|f: Frame| frame_view(f))
}

/// What an ask holds.
pub enum AskView {
    Load(Seq<char>),
    Open(Seq<char>),
    Render(Seq<ReplayView>),
    Create,
    Prefill(Seq<u32>),
    Cue,
    Step,
    Token,
    Save(Seq<char>),
    Delete(Seq<char>),
    Clock,
    End,
    Respond(ResourceView),
    Fault(Tree),
}

impl View for Ask {
    type V = AskView;

    open spec fn view(&self) -> AskView {
        match *self {
            Ask::Load(s) => AskView::Load(s@),
            Ask::Open(s) => AskView::Open(s@),
            Ask::Render(ops) => AskView::Render(replay_view(ops@)),
            Ask::Create => AskView::Create,
            Ask::Prefill(t) => AskView::Prefill(t@),
            Ask::Cue => AskView::Cue,
            Ask::Step => AskView::Step,
            Ask::Token => AskView::Token,
            Ask::Save(s) => AskView::Save(s@),
            Ask::Delete(s) => AskView::Delete(s@),
            Ask::Clock => AskView::Clock,
            Ask::End => AskView::End,
            Ask::Respond(r) => AskView::Respond(resource_view(r)),
            Ask::Fault(v) => AskView::Fault(tree(v)),
        }
    }
}

/// An event answers what a phase waits for.
pub open spec fn fits(p: Phase, e: HappenedView) -> bool {
    match e {
        HappenedView::Loaded => p == Phase::Loading,
        HappenedView::Opened(_) => p == Phase::Opening,
        HappenedView::Missed(_) => p == Phase::Opening,
        HappenedView::Rendered(_) => p == Phase::Rendering,
        HappenedView::Created => p == Phase::Creating,
        HappenedView::Filled => p == Phase::Filling,
        HappenedView::Failed(_) => p == Phase::Loading || p == Phase::Rendering || p
            == Phase::Creating || p == Phase::Filling || p == Phase::Generating,
        HappenedView::Cued { .. } => p == Phase::Cueing,
        HappenedView::Token { .. } => p == Phase::Generating,
        HappenedView::StepEnd => p == Phase::Generating,
        HappenedView::Ended => p == Phase::Generating,
        HappenedView::Kept(_) => p == Phase::Saving,
        HappenedView::Unflushed(_) => p == Phase::Saving,
        HappenedView::Unsaved(_) => p == Phase::Saving,
        HappenedView::Deleted => p == Phase::Deleting,
        HappenedView::Clock(_) => p == Phase::Timing,
    }
}

// ---------------------------------------------------------------------------
// The model of a turn
// ---------------------------------------------------------------------------

/// What stays the same over a turn.
pub struct FixedView {
    pub scope: Seq<char>,
    pub instructions: Option<Seq<char>>,
    pub items: Seq<InputItem>,
    pub schemas: Seq<Seq<char>>,
    pub max_tokens: usize,
    pub streaming: bool,
    pub uniq: Seq<char>,
    pub model: Seq<char>,
    pub created: i64,
}

/// How a turn stands.
#[verifier::ext_equal]
pub struct DriveView {
    pub phase: Phase,
    /// How many items are behind the resume point.
    pub split: int,
    /// The snapshot that the turn resumes from, once it is open.
    pub name: Option<Seq<char>>,
    pub cached: int,
    /// The tokens to prefill, and how many of them are in.
    pub tokens: Seq<u32>,
    pub at: int,
    pub stops: Seq<u32>,
    pub turn: StreamView,
    pub prompt: int,
    /// The name that the turn is saved under.
    pub target: Seq<char>,
    /// How looking for a snapshot and saving one went, in words.
    pub looked: Seq<char>,
    pub kept: Seq<char>,
    pub frames: Seq<FrameView>,
}

/// The response of a turn under way.
pub open spec fn under_way(f: FixedView) -> ResourceView {
    ResourceView {
        id: "resp_"@ + f.uniq,
        object: "response"@,
        model: f.model,
        created_at: f.created,
        completed_at: None,
        status: ResponseStatus::InProgress,
        reason: None,
        output: Seq::empty(),
        error: None,
        usage: None,
        debug: None,
    }
}

/// Sends a frame, where the turn streams.
pub open spec fn said(f: FixedView, v: DriveView, x: FrameView) -> DriveView {
    if f.streaming {
        DriveView { frames: v.frames.push(x), ..v }
    } else {
        v
    }
}

/// Sends what the turn has to tell of its items.
pub open spec fn told(f: FixedView, v: DriveView) -> DriveView {
    DriveView {
        turn: StreamView { events: Seq::empty(), ..v.turn },
        frames: if f.streaming {
            v.frames + v.turn.events.map_values(|e: EventView| FrameView::Item(e))
        } else {
            v.frames
        },
        ..v
    }
}

/// The response of a turn that failed.
pub open spec fn failed_of(f: FixedView, code: Seq<char>, message: Seq<char>) -> ResourceView {
    ResourceView {
        status: ResponseStatus::Failed,
        error: Some(
            ErrorView {
                error_type: "server_error"@,
                code: Some(code),
                message,
                param: None,
            },
        ),
        ..under_way(f)
    }
}

/// A turn that cannot go on: a stream ends with a failed response, and without one
/// the answer is a fault.
pub open spec fn dropped(f: FixedView, v: DriveView, code: Seq<char>, message: Seq<char>) -> (
    DriveView,
    AskView,
) {
    if f.streaming {
        let r = FrameView::Failed(failed_of(f, code, message));
        let a = said(f, said(f, v, r), FrameView::Done);
        (DriveView { phase: Phase::Closed, ..a }, AskView::End)
    } else {
        (
            DriveView { phase: Phase::Closed, ..v },
            AskView::Fault(error_tree("server_error"@, message)),
        )
    }
}

/// The code of what fails in a phase.
pub open spec fn failure_code(p: Phase) -> Seq<char> {
    match p {
        Phase::Loading => "model_load_failed"@,
        Phase::Filling => "prefill_failed"@,
        Phase::Generating => "generation_failed"@,
        _ => "context_build_failed"@,
    }
}

/// A turn that has just begun.
pub open spec fn begun(f: FixedView, v: DriveView, model: Option<Seq<char>>) -> (DriveView, AskView) {
    let r = under_way(f);
    let a = said(f, said(f, v, FrameView::Created(r)), FrameView::InProgress(r));
    match model {
        Some(name) => (DriveView { phase: Phase::Loading, ..a }, AskView::Load(name)),
        None => dropped(f, a, "model_load_failed"@, "no models available"@),
    }
}

/// The snapshot name of the first `n` items.
pub open spec fn snapshot_at(f: FixedView, n: int) -> Seq<char> {
    name_of(f.scope, f.instructions, f.schemas, canons(f.items, n))
}

/// A turn whose context is rendered whole.
pub open spec fn rebuilt(f: FixedView, v: DriveView, looked: Seq<char>) -> (DriveView, AskView) {
    (
        DriveView { phase: Phase::Rendering, looked, ..v },
        AskView::Render(full_items(f.instructions, f.items, f.schemas)),
    )
}

/// A turn whose model is there: it resumes where a snapshot may be.
pub open spec fn loaded(f: FixedView, v: DriveView) -> (DriveView, AskView) {
    match last_produced(f.items, f.items.len() as int) {
        Some(i) => (
            DriveView { phase: Phase::Opening, split: i + 1, target: snapshot_at(f, i + 1), ..v },
            AskView::Open(snapshot_at(f, i + 1)),
        ),
        None => rebuilt(f, v, "first turn (no resume point)"@),
    }
}

/// A turn whose snapshot is open: what is behind the resume point is rendered.
pub open spec fn resumed(f: FixedView, v: DriveView, cached: int) -> (DriveView, AskView) {
    (
        DriveView {
            phase: Phase::Rendering,
            name: Some(v.target),
            cached,
            looked: "resume hit "@ + v.target + " (cached "@ + dec(cached as nat) + ")"@,
            ..v
        },
        AskView::Render(item_turns(f.items.skip(v.split), 0)),
    )
}

/// The end of the prefill pass that starts at `at`.
pub open spec fn pass_end(at: int, n: int) -> int {
    if at + PREFILL_CHUNK <= n {
        at + PREFILL_CHUNK
    } else {
        n
    }
}

/// A turn that prefills its next pass, or is cued behind the last.
pub open spec fn filling(v: DriveView) -> (DriveView, AskView) {
    let n = v.tokens.len() as int;
    if v.at < n {
        (
            DriveView { phase: Phase::Filling, ..v },
            AskView::Prefill(v.tokens.subrange(v.at, pass_end(v.at, n))),
        )
    } else {
        (DriveView { phase: Phase::Cueing, ..v }, AskView::Cue)
    }
}

/// A turn whose prompt is rendered: a resumed context is there, another is
/// created first.
pub open spec fn rendered(v: DriveView, tokens: Seq<u32>) -> (DriveView, AskView) {
    let a = DriveView { tokens, at: 0, ..v };
    if v.name is Some {
        filling(a)
    } else {
        (DriveView { phase: Phase::Creating, ..a }, AskView::Create)
    }
}

/// A turn behind a prefill pass: each resets the client's idle timer.
pub open spec fn filled(f: FixedView, v: DriveView) -> (DriveView, AskView) {
    filling(
        said(
            f,
            DriveView { at: pass_end(v.at, v.tokens.len() as int), ..v },
            FrameView::InProgress(under_way(f)),
        ),
    )
}

/// A turn that generated its last token: its items are closed, and it is saved
/// under what the client will send back.
pub open spec fn wound(f: FixedView, v: DriveView) -> (DriveView, AskView) {
    let t = closed(f.uniq, v.turn, f.max_tokens);
    let target = name_of(
        f.scope,
        f.instructions,
        f.schemas,
        canons(f.items, f.items.len() as int) + turn_items(t.visible, t.calls),
    );
    (
        told(f, DriveView { phase: Phase::Saving, turn: t, target, ..v }),
        AskView::Save(target),
    )
}

/// A turn behind a token.
pub open spec fn heard(
    f: FixedView,
    v: DriveView,
    id: u32,
    call: Option<(Seq<char>, Seq<char>)>,
    text: TextView,
) -> (DriveView, AskView) {
    let r = tokened(f.uniq, v.turn, call, v.stops.contains(id), text);
    let a = told(f, DriveView { turn: r.0, ..v });
    match r.1 {
        Flow::Continue => (a, AskView::Token),
        Flow::Break => wound(f, a),
    }
}

/// The response of a finished turn.
pub open spec fn response_of(f: FixedView, v: DriveView, now: i64) -> ResourceView {
    let hit_max = v.turn.generated >= f.max_tokens;
    ResourceView {
        created_at: if f.streaming {
            f.created
        } else {
            now
        },
        completed_at: Some(now),
        status: if hit_max {
            ResponseStatus::Incomplete
        } else {
            ResponseStatus::Completed
        },
        reason: if hit_max {
            Some("max_output_tokens"@)
        } else {
            None
        },
        output: if f.streaming {
            v.turn.output
        } else {
            whole(f.uniq, v.turn.visible, v.turn.calls, hit_max)
        },
        usage: Some(
            Usage {
                input_tokens: v.prompt as u32,
                input_tokens_details: InputTokensDetails { cached_tokens: v.cached as u32 },
                output_tokens: v.turn.generated as u32,
                output_tokens_details: OutputTokensDetails { reasoning_tokens: 0 },
                total_tokens: (v.prompt + v.turn.generated) as u32,
            },
        ),
        debug: Some(v.looked + "; "@ + v.kept),
        ..under_way(f)
    }
}

/// A turn that is over.
pub open spec fn finished_at(f: FixedView, v: DriveView, now: i64) -> (DriveView, AskView) {
    let r = response_of(f, v, now);
    let a = said(f, said(f, v, FrameView::Completed(r)), FrameView::Done);
    (
        DriveView { phase: Phase::Closed, ..a },
        if f.streaming {
            AskView::End
        } else {
            AskView::Respond(r)
        },
    )
}

/// A turn behind an event, and what it asks for.
pub open spec fn next(f: FixedView, v: DriveView, e: HappenedView) -> (DriveView, AskView) {
    match e {
        HappenedView::Loaded => loaded(f, v),
        HappenedView::Opened(n) => resumed(f, v, n),
        HappenedView::Missed(x) => rebuilt(f, v, "resume miss "@ + v.target + ": "@ + x),
        HappenedView::Rendered(tokens) => rendered(v, tokens),
        HappenedView::Created => filling(v),
        HappenedView::Filled => filled(f, v),
        HappenedView::Failed(message) => dropped(f, v, failure_code(v.phase), message),
        HappenedView::Cued { prompt_tokens, stop_ids } => (
            DriveView {
                phase: Phase::Generating,
                prompt: prompt_tokens,
                stops: stop_ids,
                ..v
            },
            AskView::Step,
        ),
        HappenedView::Token { id, call, text } => heard(f, v, id, call, text),
        HappenedView::StepEnd => (v, AskView::Step),
        HappenedView::Ended => wound(f, v),
        HappenedView::Kept(n) => {
            let a = DriveView {
                kept: "saved "@ + v.target + " (seq "@ + dec(n as nat) + ")"@,
                ..v
            };
            match v.name {
                Some(old) => (DriveView { phase: Phase::Deleting, ..a }, AskView::Delete(old)),
                None => (DriveView { phase: Phase::Timing, ..a }, AskView::Clock),
            }
        },
        HappenedView::Unflushed(x) => (
            DriveView { phase: Phase::Timing, kept: "save flush failed: "@ + x, ..v },
            AskView::Clock,
        ),
        HappenedView::Unsaved(x) => (
            DriveView { phase: Phase::Timing, kept: "save "@ + v.target + " failed: "@ + x, ..v },
            AskView::Clock,
        ),
        HappenedView::Deleted => (DriveView { phase: Phase::Timing, ..v }, AskView::Clock),
        HappenedView::Clock(now) => finished_at(f, v, now),
    }
}

// ---------------------------------------------------------------------------
// The turn
// ---------------------------------------------------------------------------

/// A turn under way.
pub struct Drive {
    setup: TurnSetup,
    streaming: bool,
    uniq: String,
    model: String,
    created: i64,
    phase: Phase,
    split: usize,
    name: Option<String>,
    cached: u32,
    tokens: Vec<u32>,
    at: usize,
    stops: Vec<u32>,
    turn: StreamTurn,
    prompt: u32,
    target: String,
    looked: String,
    kept: String,
    frames: Vec<Frame>,
}

/// What a turn of a request keeps.
pub open spec fn fixed_of(
    s: TurnSetup,
    streaming: bool,
    uniq: Seq<char>,
    model: Option<Seq<char>>,
    created: i64,
) -> FixedView {
    FixedView {
        scope: s.cache_scope@,
        instructions: opt_text(s.instructions),
        items: s.items@,
        schemas: texts(s.tool_schemas@),
        max_tokens: s.max_tokens,
        streaming,
        uniq,
        model: match model {
            Some(n) => n,
            None => "unknown"@,
        },
        created,
    }
}

/// A turn before anything has happened.
pub open spec fn fresh_drive() -> DriveView {
    DriveView {
        phase: Phase::Loading,
        split: 0,
        name: None,
        cached: 0,
        tokens: Seq::empty(),
        at: 0,
        stops: Seq::empty(),
        turn: fresh_stream(),
        prompt: 0,
        target: Seq::empty(),
        looked: Seq::empty(),
        kept: Seq::empty(),
        frames: Seq::empty(),
    }
}

impl View for Drive {
    type V = DriveView;

    closed spec fn view(&self) -> DriveView {
        DriveView {
            phase: self.phase,
            split: self.split as int,
            name: opt_text(self.name),
            cached: self.cached as int,
            tokens: self.tokens@,
            at: self.at as int,
            stops: self.stops@,
            turn: self.turn@,
            prompt: self.prompt as int,
            target: self.target@,
            looked: self.looked@,
            kept: self.kept@,
            frames: frames_view(self.frames@),
        }
    }
}

/// The items of a turn stand as its phase has them: before the save the message is
/// open exactly where text was shown, and from then on the output is that of the
/// text and the calls.
pub open spec fn items_stand(f: FixedView, v: DriveView) -> bool {
    match v.phase {
        Phase::Saving | Phase::Deleting | Phase::Timing => v.turn.output == whole(
            f.uniq,
            v.turn.visible,
            v.turn.calls,
            v.turn.generated >= f.max_tokens,
        ),
        Phase::Closed => true,
        _ => steady(f.uniq, v.turn),
    }
}

impl Drive {
    /// What stays the same over the turn.
    pub closed spec fn fixed(&self) -> FixedView {
        FixedView {
            scope: self.setup.cache_scope@,
            instructions: opt_text(self.setup.instructions),
            items: self.setup.items@,
            schemas: texts(self.setup.tool_schemas@),
            max_tokens: self.setup.max_tokens,
            streaming: self.streaming,
            uniq: self.uniq@,
            model: self.model@,
            created: self.created,
        }
    }

    /// The turn's ids are its own, its places are within bounds, and its items
    /// stand as its phase has them.
    pub closed spec fn wf(&self) -> bool {
        &&& self.turn.uniq() == self.uniq@
        &&& self.at <= self.tokens@.len()
        &&& self.split <= self.setup.items@.len()
        &&& items_stand(self.fixed(), self@)
    }

    fn response(&self, created_at: i64) -> (r: ResponseResource)
        ensures
            resource_view(r) == (ResourceView { created_at, ..under_way(self.fixed()) }),
            r.incomplete_details is None,
            r.error is None,
    {
        let r = ResponseResource::new(
            cat2("resp_", self.uniq.as_str()),
            self.model.clone(),
            created_at,
        );
        proof {
            assert(output_view(r.output@) =~= Seq::empty());
        }
        r
    }

    fn say(&mut self, x: Frame)
        ensures
            final(self).fixed() == old(self).fixed(),
            final(self)@ == said(old(self).fixed(), old(self)@, frame_view(x)),
            old(self).wf() ==> final(self).wf(),
    {
        if self.streaming {
            let ghost before = self.frames@;
            self.frames.push(x);
            proof {
                assert(frames_view(self.frames@) =~= frames_view(before).push(frame_view(x)));
            }
        }
        proof {
            assert(self@ =~= said(old(self).fixed(), old(self)@, frame_view(x)));
        }
    }

    fn tell(&mut self)
        ensures
            final(self).fixed() == old(self).fixed(),
            final(self)@ == told(old(self).fixed(), old(self)@),
            old(self).wf() ==> final(self).wf(),
    {
        let events = self.turn.take_events();
        let ghost all = old(self)@.turn.events;
        let ghost base = frames_view(self.frames@);
        if self.streaming {
            let mut i: usize = 0;
            let ghost kept = *self;
            proof {
                assert(base + all.take(0).map_values(|e: EventView| FrameView::Item(e)) =~= base);
            }
            for e in it: events.into_iter()
                invariant
                    it.seq() == events@,
                    all == events@.map_values(|e: ItemEvent| event_view(e)),
                    *self == (Drive { frames: self.frames, ..kept }),
                    frames_view(self.frames@) == base + all.take(it.index()).map_values(
                        |e: EventView| FrameView::Item(e),
                    ),
            {
                let ghost before = self.frames@;
                let ghost k = it.index();
                self.frames.push(Frame::Item(e));
                proof {
                    assert(all[k] == event_view(e));
                    assert(frames_view(self.frames@) =~= frames_view(before).push(
                        FrameView::Item(all[k]),
                    ));
                    assert(base + all.take(k + 1).map_values(|e: EventView| FrameView::Item(e))
                        =~= (base + all.take(k).map_values(
                        |e: EventView| FrameView::Item(e),
                    )).push(FrameView::Item(all[k])));
                }
            }
            proof {
                assert(all.take(all.len() as int) =~= all);
            }
        }
        proof {
            assert(self@ =~= told(old(self).fixed(), old(self)@));
        }
    }

    fn drop_turn(&mut self, code: &str, message: String) -> (r: Ask)
        requires
            old(self).wf(),
        ensures
            final(self).wf(),
            final(self).fixed() == old(self).fixed(),
            (final(self)@, r@) == dropped(old(self).fixed(), old(self)@, code@, message@),
    {
        if self.streaming {
            let bare = self.response(self.created);
            let ghost text = message@;
            let r = fail(bare, code, message);
            proof {
                assert(resource_view(r) =~= failed_of(self.fixed(), code@, text));
            }
            self.say(Frame::Failed(r));
            self.say(Frame::Done);
            self.phase = Phase::Closed;
            proof {
                assert(self@ =~= dropped(old(self).fixed(), old(self)@, code@, text).0);
            }
            Ask::End
        } else {
            self.phase = Phase::Closed;
            proof {
                assert(self@ =~= dropped(old(self).fixed(), old(self)@, code@, message@).0);
            }
            Ask::Fault(error_response("server_error", message.as_str()))
        }
    }

    /// Begins a turn: what makes its ids its own, the model that serves it, and
    /// when it was created.
    pub fn begin(
        setup: TurnSetup,
        streaming: bool,
        uniq: String,
        model: Option<String>,
        created: i64,
    ) -> (r: (Drive, Ask))
        ensures
            r.0.wf(),
            r.0.fixed() == fixed_of(setup, streaming, uniq@, opt_text(model), created),
            (r.0@, r.1@) == begun(r.0.fixed(), fresh_drive(), opt_text(model)),
    {
        let shown = match &model {
            Some(n) => n.clone(),
            None => "unknown".to_owned(),
        };
        let turn = StreamTurn::new(uniq.clone());
        let mut d = Drive {
            setup,
            streaming,
            uniq,
            model: shown,
            created,
            phase: Phase::Loading,
            split: 0,
            name: None,
            cached: 0,
            tokens: Vec::new(),
            at: 0,
            stops: Vec::new(),
            turn,
            prompt: 0,
            target: String::new(),
            looked: String::new(),
            kept: String::new(),
            frames: Vec::new(),
        };
        proof {
            assert(d@ =~= fresh_drive());
            assert(call_outputs(d.uniq@, Seq::empty(), 0) =~= Seq::<ItemView>::empty());
            assert(steady(d.uniq@, fresh_stream()));
        }
        let first = d.response(created);
        let second = d.response(created);
        d.say(Frame::Created(first));
        d.say(Frame::InProgress(second));
        let ask = match model {
            Some(name) => {
                proof {
                    assert(d@ =~= begun(d.fixed(), fresh_drive(), Some(name@)).0);
                }
                Ask::Load(name)
            },
            None => d.drop_turn("model_load_failed", "no models available".to_owned()),
        };
        (d, ask)
    }

    fn rebuild(&mut self, looked: String) -> (r: Ask)
        requires
            old(self).wf(),
            old(self)@.phase == Phase::Loading || old(self)@.phase == Phase::Opening,
        ensures
            final(self).wf(),
            final(self).fixed() == old(self).fixed(),
            (final(self)@, r@) == rebuilt(old(self).fixed(), old(self)@, looked@),
    {
        let instructions = match &self.setup.instructions {
            Some(s) => Some(s.as_str()),
            None => None,
        };
        let ops = render_full(
            instructions,
            self.setup.items.as_slice(),
            self.setup.tool_schemas.as_slice(),
        );
        self.phase = Phase::Rendering;
        self.looked = looked;
        proof {
            assert(self@ =~= rebuilt(old(self).fixed(), old(self)@, looked@).0);
        }
        Ask::Render(ops)
    }

    fn load(&mut self) -> (r: Ask)
        requires
            old(self).wf(),
            old(self)@.phase == Phase::Loading,
        ensures
            final(self).wf(),
            final(self).fixed() == old(self).fixed(),
            (final(self)@, r@) == loaded(old(self).fixed(), old(self)@),
    {
        match resume_point(&self.setup) {
            Some((split, name)) => {
                self.phase = Phase::Opening;
                self.split = split;
                self.target = name.clone();
                proof {
                    assert(self@ =~= loaded(old(self).fixed(), old(self)@).0);
                }
                Ask::Open(name)
            },
            None => self.rebuild(lookup_text(&Lookup::First)),
        }
    }

    fn resume(&mut self, cached: u32) -> (r: Ask)
        requires
            old(self).wf(),
            old(self)@.phase == Phase::Opening,
        ensures
            final(self).wf(),
            final(self).fixed() == old(self).fixed(),
            (final(self)@, r@) == resumed(old(self).fixed(), old(self)@, cached as int),
    {
        let found = Lookup::Hit { name: self.target.clone(), cached };
        self.looked = lookup_text(&found);
        self.name = Some(self.target.clone());
        self.cached = cached;
        self.phase = Phase::Rendering;
        let rest = vstd::slice::slice_subrange(
            self.setup.items.as_slice(),
            self.split,
            self.setup.items.len(),
        );
        proof {
            assert(rest@ =~= self.setup.items@.skip(self.split as int));
        }
        let ops = render_items(rest);
        proof {
            assert(self@ =~= resumed(old(self).fixed(), old(self)@, cached as int).0);
        }
        Ask::Render(ops)
    }

    fn pass(&self) -> (end: usize)
        requires
            self.wf(),
        ensures
            end == pass_end(self@.at, self@.tokens.len() as int),
            self@.at <= end <= self@.tokens.len(),
    {
        if self.tokens.len() - self.at >= PREFILL_CHUNK {
            self.at + PREFILL_CHUNK
        } else {
            self.tokens.len()
        }
    }

    fn fill(&mut self) -> (r: Ask)
        requires
            old(self).wf(),
            old(self)@.phase == Phase::Rendering || old(self)@.phase == Phase::Creating || old(
                self,
            )@.phase == Phase::Filling,
        ensures
            final(self).wf(),
            final(self).fixed() == old(self).fixed(),
            (final(self)@, r@) == filling(old(self)@),
    {
        if self.at < self.tokens.len() {
            let end = self.pass();
            let mut pass: Vec<u32> = Vec::new();
            pass.extend_from_slice(
                vstd::slice::slice_subrange(self.tokens.as_slice(), self.at, end),
            );
            self.phase = Phase::Filling;
            proof {
                assert(pass@ =~= self.tokens@.subrange(self.at as int, end as int));
                assert(self@ =~= DriveView { phase: Phase::Filling, ..old(self)@ });
            }
            Ask::Prefill(pass)
        } else {
            self.phase = Phase::Cueing;
            proof {
                assert(self@ =~= DriveView { phase: Phase::Cueing, ..old(self)@ });
            }
            Ask::Cue
        }
    }

    fn wind(&mut self) -> (r: Ask)
        requires
            old(self).wf(),
            old(self)@.phase == Phase::Generating,
            old(self)@.turn.next + 2 <= u32::MAX,
        ensures
            final(self).wf(),
            final(self).fixed() == old(self).fixed(),
            (final(self)@, r@) == wound(old(self).fixed(), old(self)@),
    {
        proof {
            law_both_paths_answer_alike(self.uniq@, self.turn@, self.setup.max_tokens);
        }
        self.turn.close(self.setup.max_tokens);
        let name = save_name(&self.setup, self.turn.visible(), self.turn.calls());
        self.target = name.clone();
        self.phase = Phase::Saving;
        let ghost t = closed(self.uniq@, old(self)@.turn, self.setup.max_tokens);
        proof {
            lemma_closing_keeps_the_count(self.uniq@, old(self)@.turn, self.setup.max_tokens);
            assert(self@ =~= DriveView {
                phase: Phase::Saving,
                turn: t,
                target: name@,
                ..old(self)@
            });
        }
        self.tell();
        Ask::Save(name)
    }

    fn hear(&mut self, id: u32, call: Option<(String, String)>, text: TextEvent) -> (r: Ask)
        requires
            old(self).wf(),
            old(self)@.phase == Phase::Generating,
            old(self)@.turn.next + 4 <= u32::MAX,
            old(self)@.turn.generated < usize::MAX,
        ensures
            final(self).wf(),
            final(self).fixed() == old(self).fixed(),
            (final(self)@, r@) == heard(
                old(self).fixed(),
                old(self)@,
                id,
                match call {
                    Some(c) => Some((c.0@, c.1@)),
                    None => None,
                },
                text@,
            ),
    {
        let stop = has_token(self.stops.as_slice(), id);
        let ghost made = match call {
            Some(ref c) => Some((c.0@, c.1@)),
            None => None,
        };
        proof {
            law_a_turn_stays_steady(self.uniq@, self.turn@, made, stop, text@);
        }
        let flow = self.turn.on_token(call, stop, text);
        proof {
            assert(self@ =~= DriveView { turn: self.turn@, ..old(self)@ });
        }
        self.tell();
        match flow {
            Flow::Continue => Ask::Token,
            Flow::Break => self.wind(),
        }
    }

    fn finish(&mut self, now: i64) -> (r: Ask)
        requires
            old(self).wf(),
            old(self)@.phase == Phase::Timing,
            old(self)@.prompt + old(self)@.turn.generated <= u32::MAX,
        ensures
            final(self).wf(),
            final(self).fixed() == old(self).fixed(),
            (final(self)@, r@) == finished_at(old(self).fixed(), old(self)@, now),
    {
        let n = self.turn.count();
        let output = whole_output(
            self.uniq.as_str(),
            self.turn.visible(),
            self.turn.calls(),
            n >= self.setup.max_tokens,
        );
        let created = if self.streaming {
            self.created
        } else {
            now
        };
        let debug = cat3(self.looked.as_str(), "; ", self.kept.as_str());
        let ending = Ending {
            max_tokens: self.setup.max_tokens,
            prompt_tokens: self.prompt,
            cached_tokens: self.cached,
            completed_at: now,
            debug,
        };
        let r = complete(self.response(created), output, n, ending);
        proof {
            assert(resource_view(r) =~= response_of(old(self).fixed(), old(self)@, now));
        }
        if self.streaming {
            self.say(Frame::Completed(r));
            self.say(Frame::Done);
            self.phase = Phase::Closed;
            proof {
                assert(self@ =~= finished_at(old(self).fixed(), old(self)@, now).0);
            }
            Ask::End
        } else {
            self.phase = Phase::Closed;
            proof {
                assert(self@ =~= finished_at(old(self).fixed(), old(self)@, now).0);
            }
            Ask::Respond(r)
        }
    }

    /// Takes what has happened and answers what is to be done next.
    pub fn on(&mut self, event: Event) -> (r: Ask)
        requires
            old(self).wf(),
            fits(old(self)@.phase, event@),
            event is Token ==> old(self)@.turn.next + 4 <= u32::MAX && old(self)@.turn.generated
                < usize::MAX,
            event is Ended ==> old(self)@.turn.next + 2 <= u32::MAX,
            event is Clock ==> old(self)@.prompt + old(self)@.turn.generated <= u32::MAX,
        ensures
            final(self).wf(),
            final(self).fixed() == old(self).fixed(),
            (final(self)@, r@) == next(old(self).fixed(), old(self)@, event@),
    {
        match event {
            Event::Loaded => self.load(),
            Event::Opened(cached) => self.resume(cached),
            Event::Missed(error) => {
                let found = Lookup::Miss { name: self.target.clone(), error };
                let looked = lookup_text(&found);
                self.rebuild(looked)
            },
            Event::Rendered(tokens) => {
                self.tokens = tokens;
                self.at = 0;
                proof {
                    assert(self@ =~= DriveView { tokens: tokens@, at: 0, ..old(self)@ });
                }
                if self.name.is_some() {
                    self.fill()
                } else {
                    self.phase = Phase::Creating;
                    proof {
                        assert(self@ =~= rendered(old(self)@, tokens@).0);
                    }
                    Ask::Create
                }
            },
            Event::Created => self.fill(),
            Event::Filled => {
                self.at = self.pass();
                proof {
                    assert(self@ =~= DriveView {
                        at: pass_end(old(self)@.at, old(self)@.tokens.len() as int),
                        ..old(self)@
                    });
                }
                let r = self.response(self.created);
                self.say(Frame::InProgress(r));
                self.fill()
            },
            Event::Failed(message) => {
                let code = match self.phase {
                    Phase::Loading => "model_load_failed",
                    Phase::Filling => "prefill_failed",
                    Phase::Generating => "generation_failed",
                    _ => "context_build_failed",
                };
                self.drop_turn(code, message)
            },
            Event::Cued { prompt_tokens, stop_ids } => {
                self.phase = Phase::Generating;
                self.prompt = prompt_tokens;
                self.stops = stop_ids;
                proof {
                    assert(self@ =~= next(old(self).fixed(), old(self)@, event@).0);
                }
                Ask::Step
            },
            Event::Token { id, call, text } => self.hear(id, call, text),
            Event::StepEnd => Ask::Step,
            Event::Ended => self.wind(),
            Event::Kept(seq_len) => {
                self.kept = saved_text(&Saved::Kept { name: self.target.clone(), seq_len });
                match &self.name {
                    Some(old_name) => {
                        let ask = Ask::Delete(old_name.clone());
                        self.phase = Phase::Deleting;
                        proof {
                            assert(self@ =~= next(old(self).fixed(), old(self)@, event@).0);
                        }
                        ask
                    },
                    None => {
                        self.phase = Phase::Timing;
                        proof {
                            assert(self@ =~= next(old(self).fixed(), old(self)@, event@).0);
                        }
                        Ask::Clock
                    },
                }
            },
            Event::Unflushed(error) => {
                self.kept = saved_text(&Saved::FlushFailed(error));
                self.phase = Phase::Timing;
                proof {
                    assert(self@ =~= next(old(self).fixed(), old(self)@, event@).0);
                }
                Ask::Clock
            },
            Event::Unsaved(error) => {
                self.kept = saved_text(&Saved::Failed { name: self.target.clone(), error });
                self.phase = Phase::Timing;
                proof {
                    assert(self@ =~= next(old(self).fixed(), old(self)@, event@).0);
                }
                Ask::Clock
            },
            Event::Deleted => {
                self.phase = Phase::Timing;
                proof {
                    assert(self@ =~= next(old(self).fixed(), old(self)@, event@).0);
                }
                Ask::Clock
            },
            Event::Clock(now) => self.finish(now),
        }
    }

    /// What the turn waits for.
    pub fn phase(&self) -> (r: Phase)
        ensures
            r == self@.phase,
    {
        self.phase
    }

    /// Whether another token can be taken and the usage be counted in 32 bits.
    pub fn countable(&self) -> (r: bool)
        ensures
            r == (self@.turn.next + 4 <= u32::MAX && self@.turn.generated < u32::MAX && self@.prompt
                + self@.turn.generated <= u32::MAX),
    {
        let n = self.turn.count() as u64;
        self.turn.has_places(4) && n < u32::MAX as u64 && n + self.prompt as u64 <= u32::MAX as u64
    }

    /// Frame number `i` of the stream, where it is there already.
    pub fn frame_at(&self, i: usize) -> (r: Option<&Frame>)
        ensures
            match r {
                Some(x) => i < self@.frames.len() && frame_view(*x) == self@.frames[i as int],
                None => i >= self@.frames.len(),
            },
    {
        if i < self.frames.len() {
            Some(&self.frames[i])
        } else {
            None
        }
    }
}

proof fn lemma_closing_keeps_the_count(uniq: Seq<char>, v: StreamView, max_tokens: usize)
    ensures
        closed(uniq, v, max_tokens).generated == v.generated,
{
}

// ---------------------------------------------------------------------------
// Laws
// ---------------------------------------------------------------------------

/// A frame ends its response: failed or completed.
pub open spec fn ends(x: FrameView) -> bool {
    x is Failed || x is Completed
}

/// How many frames end the response, and how many the stream.
pub open spec fn endings(s: Seq<FrameView>) -> (int, int)
    decreases s.len(),
{
    if s.len() == 0 {
        (0, 0)
    } else {
        let (a, b) = endings(s.drop_last());
        (
            if ends(s.last()) {
                a + 1
            } else {
                a
            },
            if s.last() is Done {
                b + 1
            } else {
                b
            },
        )
    }
}

/// The items that frames call done, in order.
pub open spec fn done_in(s: Seq<FrameView>) -> Seq<ItemView>
    decreases s.len(),
{
    if s.len() == 0 {
        Seq::empty()
    } else {
        match s.last() {
            FrameView::Item(EventView::ItemDone(_, item)) => done_in(s.drop_last()).push(item),
            _ => done_in(s.drop_last()),
        }
    }
}

/// How a stream stands, whatever has happened: it began with the response created
/// and in progress; every item of the output was announced as done; and where it is
/// closed, the response ended exactly once, the frame behind that is the last, and
/// before it is closed neither has come.
pub open spec fn sound(f: FixedView, v: DriveView) -> bool {
    if f.streaming {
        let n = v.frames.len() as int;
        &&& n >= 2
        &&& v.frames[0] == FrameView::Created(under_way(f))
        &&& v.frames[1] == FrameView::InProgress(under_way(f))
        &&& done_in(v.frames) == v.turn.output
        &&& v.turn.events.len() == 0
        &&& endings(v.frames) == (if v.phase == Phase::Closed {
            (1int, 1int)
        } else {
            (0int, 0int)
        })
        &&& v.phase == Phase::Closed ==> ends(v.frames[n - 2]) && v.frames[n - 1] is Done
    } else {
        v.frames.len() == 0
    }
}

proof fn lemma_pushed(s: Seq<FrameView>, x: FrameView)
    ensures
        endings(s.push(x)) == (
            if ends(x) {
                endings(s).0 + 1
            } else {
                endings(s).0
            },
            if x is Done {
                endings(s).1 + 1
            } else {
                endings(s).1
            },
        ),
        done_in(s.push(x)) == (match x {
            FrameView::Item(EventView::ItemDone(_, item)) => done_in(s).push(item),
            _ => done_in(s),
        }),
{
    assert(s.push(x).drop_last() =~= s);
}

proof fn lemma_items_appended(s: Seq<FrameView>, events: Seq<EventView>)
    ensures
        ({
            let t = s + events.map_values(|e: EventView| FrameView::Item(e));
            &&& endings(t) == endings(s)
            &&& done_in(t) == done_in(s) + done_items(events)
        }),
    decreases events.len(),
{
    let g = |e: EventView| FrameView::Item(e);
    if events.len() == 0 {
        assert(s + events.map_values(g) =~= s);
        assert(done_in(s) + done_items(events) =~= done_in(s));
    } else {
        let front = events.drop_last();
        lemma_items_appended(s, front);
        let t = s + front.map_values(g);
        let x = FrameView::Item(events.last());
        assert(s + events.map_values(g) =~= t.push(x));
        lemma_pushed(t, x);
        assert(done_in(s) + done_items(front).push(match events.last() {
            EventView::ItemDone(_, item) => item,
            _ => arbitrary(),
        }) =~= (done_in(s) + done_items(front)).push(match events.last() {
            EventView::ItemDone(_, item) => item,
            _ => arbitrary(),
        }));
    }
}

proof fn lemma_told(f: FixedView, v: DriveView, t: StreamView)
    requires
        sound(f, v),
        v.phase != Phase::Closed,
        announces(v.turn, t),
    ensures
        sound(f, told(f, DriveView { turn: t, ..v })),
{
    if f.streaming {
        lemma_items_appended(v.frames, t.events);
        let d = choose|d: Seq<ItemView>|
            t.output == v.turn.output + d && done_items(t.events) == #[trigger] (done_items(
                v.turn.events,
            ) + d);
        assert(v.turn.events =~= Seq::<EventView>::empty());
        assert(done_items(v.turn.events) + d =~= d);
    }
}

proof fn lemma_ended(f: FixedView, v: DriveView, x: FrameView)
    requires
        sound(f, v),
        v.phase != Phase::Closed,
        ends(x),
    ensures
        sound(
            f,
            DriveView { phase: Phase::Closed, ..said(f, said(f, v, x), FrameView::Done) },
        ),
{
    lemma_pushed(v.frames, x);
    lemma_pushed(v.frames.push(x), FrameView::Done);
}

proof fn lemma_sound_wound(f: FixedView, v: DriveView)
    requires
        sound(f, v),
        v.phase == Phase::Generating,
    ensures
        sound(f, wound(f, v).0),
{
    let t = closed(f.uniq, v.turn, f.max_tokens);
    law_every_item_is_announced(f.uniq, v.turn, None, true, TextView::Quiet, f.max_tokens);
    lemma_told(f, v, t);
    let (w, ask) = wound(f, v);
    let plain = told(f, DriveView { turn: t, ..v });
    assert(w.frames == plain.frames && w.turn == plain.turn);
}

/// A stream stands soundly from its beginning, over whatever happens: so it always
/// announces itself first, tells of every item as done, ends its response exactly
/// once, also where something fails, and never completes it before the save.
pub proof fn law_every_stream_is_well_formed(
    f: FixedView,
    v: DriveView,
    model: Option<Seq<char>>,
    e: HappenedView,
)
    ensures
        sound(f, begun(f, fresh_drive(), model).0),
        sound(f, v) && fits(v.phase, e) ==> sound(f, next(f, v, e).0),
{
    lemma_sound_begun(f, model);
    if sound(f, v) && fits(v.phase, e) {
        lemma_sound_next(f, v, e);
    }
}

proof fn lemma_sound_begun(f: FixedView, model: Option<Seq<char>>)
    ensures
        sound(f, begun(f, fresh_drive(), model).0),
{
    let v = fresh_drive();
    let r = under_way(f);
    lemma_pushed(v.frames, FrameView::Created(r));
    lemma_pushed(v.frames.push(FrameView::Created(r)), FrameView::InProgress(r));
    let a = said(f, said(f, v, FrameView::Created(r)), FrameView::InProgress(r));
    assert(sound(f, a));
    let x = failed_of(f, "model_load_failed"@, "no models available"@);
    lemma_ended(f, a, FrameView::Failed(x));
}

proof fn lemma_sound_next(f: FixedView, v: DriveView, e: HappenedView)
    requires
        sound(f, v),
        fits(v.phase, e),
    ensures
        sound(f, next(f, v, e).0),
{
    match e {
        HappenedView::Filled => {
            lemma_pushed(v.frames, FrameView::InProgress(under_way(f)));
        },
        HappenedView::Failed(message) => {
            let x = failed_of(f, failure_code(v.phase), message);
            lemma_ended(f, v, FrameView::Failed(x));
        },
        HappenedView::Token { id, call, text } => {
            let stop = v.stops.contains(id);
            let r = tokened(f.uniq, v.turn, call, stop, text);
            law_every_item_is_announced(f.uniq, v.turn, call, stop, text, f.max_tokens);
            lemma_told(f, v, r.0);
            let a = told(f, DriveView { turn: r.0, ..v });
            lemma_sound_wound(f, a);
        },
        HappenedView::Ended => {
            lemma_sound_wound(f, v);
        },
        HappenedView::Clock(now) => {
            lemma_ended(f, v, FrameView::Completed(response_of(f, v, now)));
        },
        _ => {},
    }
}

/// A phase waits for what was asked.
pub open spec fn waits_for(p: Phase, ask: AskView) -> bool {
    match ask {
        AskView::Load(_) => p == Phase::Loading,
        AskView::Open(_) => p == Phase::Opening,
        AskView::Render(_) => p == Phase::Rendering,
        AskView::Create => p == Phase::Creating,
        AskView::Prefill(_) => p == Phase::Filling,
        AskView::Cue => p == Phase::Cueing,
        AskView::Step => p == Phase::Generating,
        AskView::Token => p == Phase::Generating,
        AskView::Save(_) => p == Phase::Saving,
        AskView::Delete(_) => p == Phase::Deleting,
        AskView::Clock => p == Phase::Timing,
        AskView::End => p == Phase::Closed,
        AskView::Respond(_) => p == Phase::Closed,
        AskView::Fault(_) => p == Phase::Closed,
    }
}

/// A turn always waits for what it asked for last, and is closed exactly where it
/// ends its stream or gives its answer.
pub proof fn law_a_turn_waits_for_what_it_asked(
    f: FixedView,
    v: DriveView,
    model: Option<Seq<char>>,
    e: HappenedView,
)
    ensures
        ({
            let (w, ask) = begun(f, fresh_drive(), model);
            waits_for(w.phase, ask)
        }),
        fits(v.phase, e) ==> ({
            let (w, ask) = next(f, v, e);
            waits_for(w.phase, ask)
        }),
{
}

/// The snapshot that a turn resumed from is deleted only where the new one is
/// kept: a retry of the request can still find it.
pub proof fn law_only_a_kept_save_deletes(f: FixedView, v: DriveView, e: HappenedView)
    requires
        fits(v.phase, e),
    ensures
        next(f, v, e).1 is Delete ==> e is Kept && v.name == Some(next(f, v, e).1->Delete_0),
{
}

/// The passes of a prefill are the prompt's tokens, in order and each once: a pass
/// starts where the one before it ended, and the reply is cued behind the last.
pub proof fn law_the_passes_cover_the_prompt(f: FixedView, v: DriveView)
    requires
        0 <= v.at <= v.tokens.len(),
    ensures
        ({
            let (w, ask) = filling(v);
            let end = pass_end(v.at, v.tokens.len() as int);
            &&& v.at < v.tokens.len() ==> ask == AskView::Prefill(v.tokens.subrange(v.at, end))
                && v.at < end <= v.tokens.len() && filled(f, w).0.at == end
            &&& v.at == v.tokens.len() ==> ask == AskView::Cue
        }),
{
}

} // verus!
