//! The state of one turn, driven token by token.
//!
//! For each token, in this order: a completed tool call is announced, a stop
//! token ends the turn, decoded text passes the filter and is announced as
//! content, and a stop string at the end of the visible text ends the turn. A
//! turn with calls goes on until the model stops by itself.

use vstd::prelude::*;
use vstd::string::*;

use crate::chat::prompt::has_token;
use crate::format::{dec, dec_of, lemma_dec_injective};
use crate::json::{member_of, str_member, tree, Tree};
use crate::markup::{fed, finished, fresh_filter, FilterView, MarkupFilter};
use crate::serving::filter::{
    answer_after_reasoning, answer_of, cut_leading_reasoning, cut_reasoning,
};
use crate::serving::salvage::{
    blocks_from, calls_found, fenced_from, fenced_view, parse_fenced_tool_calls,
    parse_hermes_tool_calls, FencedView,
};
use crate::serving::streaming::{
    call_delta_tree, chunk_tree, completion_tree, content_tree, finish_tree, obj, role_tree, triples,
    usage_chunk_tree, usage_tree, CallOut, ChunkMeta,
};
use crate::serving::types::texts;
use crate::text::{cat2, chars_of, contains, holds, same, starts_at, string_of, trim_end, trimmed_end};

verus! {

/// A tool call of the turn.
pub struct ToolCallOut {
    pub id: String,
    pub name: String,
    pub arguments: String,
}

/// What the text decoder made of a token.
pub enum TextEvent {
    /// More text, its markup not yet filtered.
    Delta(String),
    /// The turn is over.
    Done,
    /// Nothing to show, or a decoder that is confused: that must not end a
    /// stream.
    Quiet,
}

/// Whether the turn goes on.
#[derive(Clone, Copy, Debug, PartialEq, Eq, Structural)]
pub enum Flow {
    Continue,
    Break,
}

/// What stays the same over a turn.
pub struct RulesView {
    pub meta: ChunkMeta,
    pub streaming: bool,
    pub uniq: Seq<char>,
    pub stop_ids: Seq<u32>,
    pub stop_strings: Seq<Seq<char>>,
    /// How many of the filter's markers are watched in content.
    pub markers: int,
}

/// What a turn has done so far.
#[verifier::ext_equal]
pub struct TurnView {
    pub generated: Seq<u32>,
    pub visible: Seq<char>,
    pub calls: Seq<CallOut>,
    pub emitted: bool,
    pub filter: FilterView,
    /// The messages sent.
    pub sent: Seq<Tree>,
}

// ---------------------------------------------------------------------------
// Steps
// ---------------------------------------------------------------------------

/// A turn that has not begun.
pub open spec fn fresh_turn() -> TurnView {
    TurnView {
        generated: Seq::empty(),
        visible: Seq::empty(),
        calls: Seq::empty(),
        emitted: false,
        filter: fresh_filter(),
        sent: Seq::empty(),
    }
}

/// Sends a message, where the turn streams.
pub open spec fn said(r: RulesView, v: TurnView, t: Tree) -> TurnView {
    TurnView {
        sent: if r.streaming {
            v.sent.push(t)
        } else {
            v.sent
        },
        ..v
    }
}

/// Shows text: nothing happens for an empty one.
pub open spec fn showed(r: RulesView, v: TurnView, text: Seq<char>) -> TurnView {
    if text.len() == 0 {
        v
    } else {
        TurnView {
            emitted: true,
            visible: v.visible + text,
            ..said(r, v, content_tree(r.meta, text))
        }
    }
}

/// A call of that name with those arguments is there already.
pub open spec fn has_call(calls: Seq<CallOut>, name: Seq<char>, args: Seq<char>) -> bool {
    exists|i: int| 0 <= i < calls.len() && (#[trigger] calls[i]).1 == name && calls[i].2 == args
}

/// The id of the turn's call number `n`.
pub open spec fn call_id(uniq: Seq<char>, n: nat) -> Seq<char> {
    "call_"@ + uniq + "_"@ + dec(n)
}

/// Registers a call and announces it in one delta.
pub open spec fn added(r: RulesView, v: TurnView, name: Seq<char>, args: Seq<char>) -> TurnView {
    let id = call_id(r.uniq, v.calls.len());
    let n = v.calls.len() as int;
    TurnView {
        calls: v.calls.push((id, name, args)),
        ..said(r, v, call_delta_tree(r.meta, n, id, name, args))
    }
}

/// Registers a call, unless it is there already: looping models emit the same
/// call several times.
pub open spec fn called(r: RulesView, v: TurnView, name: Seq<char>, args: Seq<char>) -> TurnView {
    if has_call(v.calls, name, args) {
        v
    } else {
        added(r, v, name, args)
    }
}

/// Feeds decoded text through the filter and shows what comes out.
pub open spec fn heard(r: RulesView, v: TurnView, delta: Seq<char>) -> TurnView {
    let f = fed(v.filter, delta, r.markers);
    showed(r, TurnView { filter: f.0, ..v }, f.1)
}

/// Some stop string ends the text.
pub open spec fn stopped(stops: Seq<Seq<char>>, text: Seq<char>) -> bool {
    exists|i: int|
        0 <= i < stops.len() && (#[trigger] stops[i]).len() <= text.len() && text.skip(
            text.len() - stops[i].len(),
        ) == stops[i]
}

/// What a text event holds.
pub enum TextView {
    Delta(Seq<char>),
    Done,
    Quiet,
}

impl View for TextEvent {
    type V = TextView;

    open spec fn view(&self) -> TextView {
        match *self {
            TextEvent::Delta(s) => TextView::Delta(s@),
            TextEvent::Done => TextView::Done,
            TextEvent::Quiet => TextView::Quiet,
        }
    }
}

/// A turn behind one token, and whether it goes on.
pub open spec fn tokened(
    r: RulesView,
    v: TurnView,
    t: u32,
    call: Option<(Seq<char>, Seq<char>)>,
    text: TextView,
) -> (TurnView, Flow) {
    let a = TurnView { generated: v.generated.push(t), ..v };
    let b = match call {
        Some(c) => called(r, a, c.0, c.1),
        None => a,
    };
    if r.stop_ids.contains(t) {
        (b, Flow::Break)
    } else {
        match text {
            TextView::Done => (b, Flow::Break),
            TextView::Delta(s) => {
                let c = heard(r, b, s);
                (
                    c,
                    if stopped(r.stop_strings, c.visible) {
                        Flow::Break
                    } else {
                        Flow::Continue
                    },
                )
            },
            TextView::Quiet => (
                b,
                if stopped(r.stop_strings, b.visible) {
                    Flow::Break
                } else {
                    Flow::Continue
                },
            ),
        }
    }
}

/// A turn at the end of generation: what the filter held back is shown.
pub open spec fn flushed(r: RulesView, v: TurnView) -> TurnView {
    let f = finished(v.filter);
    showed(r, TurnView { filter: f.0, ..v }, f.1)
}

/// A turn behind several calls.
pub open spec fn called_all(r: RulesView, v: TurnView, calls: Seq<(Seq<char>, Seq<char>)>) -> TurnView
    decreases calls.len(),
{
    if calls.len() == 0 {
        v
    } else {
        called(r, called_all(r, v, calls.drop_last()), calls.last().0, calls.last().1)
    }
}

/// The calls of fences, without their places.
pub open spec fn unplaced(f: Seq<FencedView>) -> Seq<(Seq<char>, Seq<char>)> {
    f.map_values(|c: FencedView| (c.1, c.2))
}

/// A turn behind the salvage of calls that the decoder missed: those of fenced
/// blocks in the visible text, and only without any, those of tool-call blocks
/// in the raw generation.
pub open spec fn salvaged(r: RulesView, v: TurnView, has_tools: bool, raw: Seq<char>) -> TurnView {
    if !has_tools || v.calls.len() > 0 {
        v
    } else {
        let a = called_all(r, v, unplaced(fenced_from(v.visible, 0)));
        if a.calls.len() == 0 && contains(raw, "<tool_call>"@) {
            called_all(r, a, blocks_from(raw, 0))
        } else {
            a
        }
    }
}

/// Why a turn finished.
pub open spec fn finish_of(calls: Seq<CallOut>, hit_max: bool, gen_error: bool) -> Seq<char> {
    if calls.len() > 0 {
        "tool_calls"@
    } else if hit_max || gen_error {
        "length"@
    } else {
        "stop"@
    }
}

/// The content of a finished turn: what was visible; for a turn without text
/// and calls, what the generation says behind its reasoning, or a placeholder.
pub open spec fn content_of(visible: Seq<char>, calls: Seq<CallOut>, raw: Seq<char>) -> Seq<char> {
    if visible.len() > 0 || calls.len() > 0 {
        visible
    } else {
        match answer_of(raw) {
            Some(s) => s,
            None => "…"@,
        }
    }
}

// ---------------------------------------------------------------------------
// The state
// ---------------------------------------------------------------------------

/// The state of one turn.
pub struct TurnState {
    pub meta: ChunkMeta,
    streaming: bool,
    uniq: String,
    stop_ids: Vec<u32>,
    stop_strings: Vec<String>,
    markers: usize,
    filter: MarkupFilter,
    pub generated: Vec<u32>,
    pub visible_text: String,
    pub calls: Vec<ToolCallOut>,
    pub emitted_visible: bool,
    sent: Vec<serde_json::Value>,
}

/// What calls hold.
pub open spec fn calls_view(c: Seq<ToolCallOut>) -> Seq<CallOut> {
    c.map_values(|x: ToolCallOut| (x.id@, x.name@, x.arguments@))
}

impl View for TurnState {
    type V = TurnView;

    closed spec fn view(&self) -> TurnView {
        TurnView {
            generated: self.generated@,
            visible: self.visible_text@,
            calls: calls_view(self.calls@),
            emitted: self.emitted_visible,
            filter: self.filter@,
            sent: self.sent@.map_values(|x: serde_json::Value| tree(x)),
        }
    }
}

/// Whether a stop string ends the text.
pub fn ends_with_stop(stops: &[String], text: &str) -> (r: bool)
    ensures
        r == stopped(texts(stops@), text@),
{
    let s = chars_of(text);
    let mut i: usize = 0;
    while i < stops.len()
        invariant
            i <= stops@.len(),
            s@ == text@,
            forall|j: int|
                0 <= j < i ==> !((#[trigger] texts(stops@)[j]).len() <= text@.len() && text@.skip(
                    text@.len() - texts(stops@)[j].len(),
                ) == texts(stops@)[j]),
        decreases stops.len() - i,
    {
        let pat = chars_of(stops[i].as_str());
        let ghost stop = texts(stops@)[i as int];
        if pat.len() <= s.len() {
            let at: usize = s.len() - pat.len();
            proof {
                assert(s@.subrange(at as int, at + pat@.len()) =~= s@.skip(at as int));
            }
            if starts_at(s.as_slice(), pat.as_slice(), at) {
                proof {
                    assert(texts(stops@)[i as int] == pat@);
                }
                return true;
            }
        }
        i += 1;
    }
    false
}

impl TurnState {
    /// What stays the same over the turn.
    pub closed spec fn rules(&self) -> RulesView {
        RulesView {
            meta: self.meta,
            streaming: self.streaming,
            uniq: self.uniq@,
            stop_ids: self.stop_ids@,
            stop_strings: texts(self.stop_strings@),
            markers: self.markers as int,
        }
    }

    /// A turn that watches openers and closers in content.
    pub fn new(
        meta: ChunkMeta,
        streaming: bool,
        uniq: String,
        stop_ids: Vec<u32>,
        stop_strings: Vec<String>,
    ) -> (r: TurnState)
        ensures
            r@ == fresh_turn(),
            r.rules() == (RulesView {
                meta,
                streaming,
                uniq: uniq@,
                stop_ids: stop_ids@,
                stop_strings: texts(stop_strings@),
                markers: 4,
            }),
    {
        TurnState::watching(meta, streaming, uniq, stop_ids, stop_strings, 4)
    }

    /// A turn that watches the first `markers` markers in content.
    pub fn watching(
        meta: ChunkMeta,
        streaming: bool,
        uniq: String,
        stop_ids: Vec<u32>,
        stop_strings: Vec<String>,
        markers: usize,
    ) -> (r: TurnState)
        ensures
            r@ == fresh_turn(),
            r.rules() == (RulesView {
                meta,
                streaming,
                uniq: uniq@,
                stop_ids: stop_ids@,
                stop_strings: texts(stop_strings@),
                markers: markers as int,
            }),
    {
        let r = TurnState {
            meta,
            streaming,
            uniq,
            stop_ids,
            stop_strings,
            markers,
            filter: MarkupFilter::new(),
            generated: Vec::new(),
            visible_text: String::new(),
            calls: Vec::new(),
            emitted_visible: false,
            sent: Vec::new(),
        };
        proof {
            assert(r@ =~= fresh_turn());
        }
        r
    }

    /// Whether the turn has a call.
    pub fn has_calls(&self) -> (r: bool)
        ensures
            r == (self@.calls.len() > 0),
    {
        self.calls.len() > 0
    }

    /// The text shown so far.
    pub fn visible(&self) -> (r: &str)
        ensures
            r@ == self@.visible,
    {
        self.visible_text.as_str()
    }

    /// How many tokens were generated.
    pub fn count(&self) -> (r: usize)
        ensures
            r == self@.generated.len(),
    {
        self.generated.len()
    }

    /// Drops trailing white space of the visible text, where nothing is sent yet.
    pub fn trim_visible(&mut self)
        ensures
            final(self).rules() == old(self).rules(),
            final(self)@ == (TurnView { visible: trim_end(old(self)@.visible), ..old(self)@ }),
    {
        let text = chars_of(self.visible_text.as_str());
        self.visible_text = string_of(trimmed_end(text.as_slice()).as_slice());
        proof {
            assert(self@ =~= TurnView { visible: trim_end(old(self)@.visible), ..old(self)@ });
        }
    }

    /// The turn's tokens, visible text and calls.
    pub fn into_parts(self) -> (r: (Vec<u32>, String, Vec<ToolCallOut>))
        ensures
            r.0@ == self@.generated,
            r.1@ == self@.visible,
            calls_view(r.2@) == self@.calls,
    {
        (self.generated, self.visible_text, self.calls)
    }

    /// Sends a message, where the turn streams.
    pub fn emit(&mut self, chunk: serde_json::Value)
        ensures
            final(self).rules() == old(self).rules(),
            final(self)@ == said(old(self).rules(), old(self)@, tree(chunk)),
    {
        if self.streaming {
            self.sent.push(chunk);
        }
        proof {
            assert(self@ =~= said(old(self).rules(), old(self)@, tree(chunk)));
        }
    }

    /// The messages sent since the last call, which are then forgotten.
    pub fn take_sent(&mut self) -> (r: Vec<serde_json::Value>)
        ensures
            r@.map_values(|x: serde_json::Value| tree(x)) == old(self)@.sent,
            final(self).rules() == old(self).rules(),
            final(self)@ == (TurnView { sent: Seq::empty(), ..old(self)@ }),
    {
        let mut out: Vec<serde_json::Value> = Vec::new();
        out.append(&mut self.sent);
        proof {
            assert(out@ =~= old(self).sent@);
            assert(self@ =~= TurnView { sent: Seq::empty(), ..old(self)@ });
        }
        out
    }

    /// Sets the tokens that end the turn.
    pub fn set_stops(&mut self, stop_ids: Vec<u32>)
        ensures
            final(self)@ == old(self)@,
            final(self).rules() == (RulesView { stop_ids: stop_ids@, ..old(self).rules() }),
    {
        self.stop_ids = stop_ids;
        proof {
            assert(self@ =~= old(self)@);
        }
    }

    /// Announces the assistant.
    pub fn say_role(&mut self)
        ensures
            final(self).rules() == old(self).rules(),
            final(self)@ == said(old(self).rules(), old(self)@, role_tree(old(self).rules().meta)),
    {
        let chunk = self.meta.role_chunk();
        self.emit(chunk);
    }

    /// Sends an empty delta, which keeps the client waiting.
    pub fn say_alive(&mut self)
        ensures
            final(self).rules() == old(self).rules(),
            final(self)@ == said(
                old(self).rules(),
                old(self)@,
                chunk_tree(old(self).rules().meta, Tree::Obj(obj()), None),
            ),
    {
        let chunk = self.meta.keepalive();
        self.emit(chunk);
    }

    /// Sends content that is no part of the visible text.
    pub fn say_content(&mut self, text: &str)
        ensures
            final(self).rules() == old(self).rules(),
            final(self)@ == said(
                old(self).rules(),
                old(self)@,
                content_tree(old(self).rules().meta, text@),
            ),
    {
        let chunk = self.meta.content_delta(text);
        self.emit(chunk);
    }

    /// Sends why the turn finished.
    pub fn say_finish(&mut self, reason: &str)
        ensures
            final(self).rules() == old(self).rules(),
            final(self)@ == said(
                old(self).rules(),
                old(self)@,
                finish_tree(old(self).rules().meta, reason@),
            ),
    {
        let chunk = self.meta.finish_chunk(reason);
        self.emit(chunk);
    }

    /// Sends the usage.
    pub fn say_usage(&mut self, prompt: u32, completion: u32, cached: u32)
        requires
            prompt + completion <= u32::MAX,
        ensures
            final(self).rules() == old(self).rules(),
            final(self)@ == said(
                old(self).rules(),
                old(self)@,
                usage_chunk_tree(
                    old(self).rules().meta,
                    prompt as int,
                    completion as int,
                    cached as int,
                ),
            ),
    {
        let chunk = self.meta.usage_chunk(prompt, completion, cached);
        self.emit(chunk);
    }

    /// How many messages the turn holds.
    pub fn sent_count(&self) -> (r: usize)
        ensures
            r == self@.sent.len(),
    {
        self.sent.len()
    }

    /// One of the messages that the turn holds.
    pub fn sent_at(&self, i: usize) -> (r: &serde_json::Value)
        requires
            i < self@.sent.len(),
        ensures
            tree(*r) == self@.sent[i as int],
    {
        &self.sent[i]
    }

    /// The tokens generated so far.
    pub fn tokens(&self) -> (r: &[u32])
        ensures
            r@ == self@.generated,
    {
        self.generated.as_slice()
    }

    /// Whether text was shown.
    pub fn showed_text(&self) -> (r: bool)
        ensures
            r == self@.emitted,
    {
        self.emitted_visible
    }

    /// A copy of the turn's calls.
    pub fn copy_calls(&self) -> (r: Vec<ToolCallOut>)
        ensures
            calls_view(r@) == self@.calls,
    {
        let mut out: Vec<ToolCallOut> = Vec::new();
        let mut i: usize = 0;
        while i < self.calls.len()
            invariant
                i <= self.calls@.len(),
                out@.len() == i,
                forall|j: int|
                    0 <= j < i ==> calls_view(out@)[j] == #[trigger] calls_view(self.calls@)[j],
            decreases self.calls.len() - i,
        {
            let ghost before = out@;
            out.push(
                ToolCallOut {
                    id: self.calls[i].id.clone(),
                    name: self.calls[i].name.clone(),
                    arguments: self.calls[i].arguments.clone(),
                },
            );
            proof {
                assert forall|j: int| 0 <= j < i + 1 implies calls_view(out@)[j]
                    == #[trigger] calls_view(self.calls@)[j] by {
                    if j < i {
                        assert(calls_view(out@)[j] == calls_view(before)[j]);
                    }
                }
            }
            i += 1;
        }
        proof {
            assert(calls_view(out@) =~= calls_view(self.calls@));
        }
        out
    }

    fn show(&mut self, text: String)
        ensures
            final(self).rules() == old(self).rules(),
            final(self)@ == showed(old(self).rules(), old(self)@, text@),
    {
        if !text.as_str().is_empty() {
            let chunk = self.meta.content_delta(text.as_str());
            self.emit(chunk);
            self.emitted_visible = true;
            self.visible_text.append(text.as_str());
            proof {
                assert(self@ =~= showed(old(self).rules(), old(self)@, text@));
            }
        }
    }

    /// Registers a completed call and announces it, unless the turn has it
    /// already.
    pub fn push_call(&mut self, name: String, arguments: String)
        ensures
            final(self).rules() == old(self).rules(),
            final(self)@ == called(old(self).rules(), old(self)@, name@, arguments@),
    {
        let ghost seen = calls_view(self.calls@);
        let mut i: usize = 0;
        while i < self.calls.len()
            invariant
                i <= self.calls@.len(),
                *self == *old(self),
                seen == calls_view(self.calls@),
                forall|j: int|
                    0 <= j < i ==> !((#[trigger] seen[j]).1 == name@ && seen[j].2 == arguments@),
            decreases self.calls.len() - i,
        {
            if same(self.calls[i].name.as_str(), name.as_str()) && same(
                self.calls[i].arguments.as_str(),
                arguments.as_str(),
            ) {
                proof {
                    assert(seen[i as int].1 == name@ && seen[i as int].2 == arguments@);
                }
                return ;
            }
            i += 1;
        }
        self.add_call(name, arguments);
    }

    /// Registers a call and announces it, whether or not the turn has it.
    pub fn add_call(&mut self, name: String, arguments: String)
        ensures
            final(self).rules() == old(self).rules(),
            final(self)@ == added(old(self).rules(), old(self)@, name@, arguments@),
    {
        let n = self.calls.len();
        let mut id = "call_".to_owned();
        id.append(self.uniq.as_str());
        id.append("_");
        id.append(dec_of(n as u64).as_str());
        proof {
            assert(id@ =~= call_id(self.uniq@, n as nat));
        }
        let chunk = self.meta.tool_call_delta(n, id.as_str(), name.as_str(), arguments.as_str());
        self.emit(chunk);
        let ghost nm = name@;
        let ghost ar = arguments@;
        let ghost idv = id@;
        let ghost before = self.calls@;
        self.calls.push(ToolCallOut { id, name, arguments });
        proof {
            assert(calls_view(self.calls@) =~= calls_view(before).push((idv, nm, ar)));
            assert(self@ =~= added(old(self).rules(), old(self)@, nm, ar));
        }
    }

    fn hear(&mut self, delta: &str)
        ensures
            final(self).rules() == old(self).rules(),
            final(self)@ == heard(old(self).rules(), old(self)@, delta@),
    {
        let text = self.filter.feed(delta, self.markers);
        proof {
            let f = fed(old(self)@.filter, delta@, old(self).rules().markers);
            assert(self@ =~= TurnView { filter: f.0, ..old(self)@ });
        }
        self.show(text);
    }

    /// Handles one sampled token, with the call that the tool decoder completed
    /// by it and what the text decoder made of it.
    pub fn on_token(&mut self, t: u32, call: Option<(String, String)>, text: TextEvent) -> (r: Flow)
        ensures
            final(self).rules() == old(self).rules(),
            (final(self)@, r) == tokened(
                old(self).rules(),
                old(self)@,
                t,
                match call {
                    Some(c) => Some((c.0@, c.1@)),
                    None => None,
                },
                text@,
            ),
    {
        self.generated.push(t);
        proof {
            assert(self@ =~= TurnView { generated: old(self)@.generated.push(t), ..old(self)@ });
        }
        match call {
            Some((name, args)) => {
                self.push_call(name, args);
            },
            None => {},
        }
        if has_token(self.stop_ids.as_slice(), t) {
            return Flow::Break;
        }
        match text {
            TextEvent::Delta(s) => {
                self.hear(s.as_str());
            },
            TextEvent::Done => {
                return Flow::Break;
            },
            TextEvent::Quiet => {},
        }
        if ends_with_stop(self.stop_strings.as_slice(), self.visible_text.as_str()) {
            return Flow::Break;
        }
        Flow::Continue
    }

    /// Shows what the filter held back, at the end of generation. Nothing is
    /// trimmed behind this: the visible text is what the client echoes.
    pub fn flush_tail(&mut self)
        ensures
            final(self).rules() == old(self).rules(),
            final(self)@ == flushed(old(self).rules(), old(self)@),
    {
        let text = self.filter.finish();
        proof {
            let f = finished(old(self)@.filter);
            assert(self@ =~= TurnView { filter: f.0, ..old(self)@ });
        }
        self.show(text);
    }

    fn push_found(&mut self, found: Vec<(String, String)>)
        ensures
            final(self).rules() == old(self).rules(),
            final(self)@ == called_all(old(self).rules(), old(self)@, calls_found(found@)),
    {
        let ghost all = calls_found(found@);
        let mut i: usize = 0;
        proof {
            assert(all.take(0) =~= Seq::<(Seq<char>, Seq<char>)>::empty());
        }
        while i < found.len()
            invariant
                i <= found@.len(),
                all == calls_found(found@),
                self.rules() == old(self).rules(),
                self@ == called_all(old(self).rules(), old(self)@, all.take(i as int)),
            decreases found.len() - i,
        {
            proof {
                assert(all.take(i + 1).drop_last() =~= all.take(i as int));
                assert(all.take(i + 1).last() == all[i as int]);
            }
            self.push_call(found[i].0.clone(), found[i].1.clone());
            i += 1;
        }
        proof {
            assert(all.take(i as int) =~= all);
        }
    }

    /// Adds the calls of fenced blocks in the visible text.
    pub fn salvage_fenced(&mut self)
        ensures
            final(self).rules() == old(self).rules(),
            final(self)@ == called_all(
                old(self).rules(),
                old(self)@,
                unplaced(fenced_from(old(self)@.visible, 0)),
            ),
    {
        let fenced = parse_fenced_tool_calls(self.visible_text.as_str());
        let mut found: Vec<(String, String)> = Vec::new();
        let mut i: usize = 0;
        while i < fenced.len()
            invariant
                i <= fenced@.len(),
                found@.len() == i,
                forall|j: int|
                    0 <= j < i ==> (#[trigger] found@[j]).0@ == fenced@[j].1@ && found@[j].1@
                        == fenced@[j].2@,
            decreases fenced.len() - i,
        {
            found.push((fenced[i].1.clone(), fenced[i].2.clone()));
            i += 1;
        }
        proof {
            assert(calls_found(found@) =~= unplaced(fenced_view(fenced@)));
        }
        self.push_found(found);
    }

    /// Adds the calls that the native decoder missed, where it found none.
    pub fn salvage(&mut self, has_tools: bool, raw_text: &str)
        ensures
            final(self).rules() == old(self).rules(),
            final(self)@ == salvaged(old(self).rules(), old(self)@, has_tools, raw_text@),
    {
        if !has_tools || self.calls.len() > 0 {
            return ;
        }
        self.salvage_fenced();
        if self.calls.len() == 0 {
            let raw = chars_of(raw_text);
            let tag = chars_of("<tool_call>");
            if holds(raw.as_slice(), tag.as_slice()) {
                let found = parse_hermes_tool_calls(raw_text);
                self.push_found(found);
            }
        }
    }

    /// Why the turn finished.
    pub fn finish_reason(&self, hit_max: bool, gen_error: bool) -> (r: &'static str)
        ensures
            r@ == finish_of(self@.calls, hit_max, gen_error),
    {
        if self.calls.len() > 0 {
            "tool_calls"
        } else if hit_max || gen_error {
            "length"
        } else {
            "stop"
        }
    }

    /// The one content of the finished turn. A turn without text and calls
    /// still delivers something.
    pub fn final_content(&self, raw_text: &str) -> (r: String)
        ensures
            r@ == content_of(self@.visible, self@.calls, raw_text@),
    {
        if !self.visible_text.as_str().is_empty() || self.calls.len() > 0 {
            return self.visible_text.clone();
        }
        match answer_after_reasoning(raw_text) {
            Some(s) => s.to_owned(),
            None => "…".to_owned(),
        }
    }
}

// ---------------------------------------------------------------------------
// Closing
// ---------------------------------------------------------------------------

/// How a generation ended.
pub struct Ending {
    pub max_tokens: usize,
    pub gen_error: bool,
    pub prompt_tokens: u32,
    pub cached_tokens: u32,
    pub include_usage: bool,
}

/// The reason that a turn finishes with.
pub open spec fn ending_reason(v: TurnView, e: Ending) -> Seq<char> {
    finish_of(v.calls, v.generated.len() >= e.max_tokens, e.gen_error)
}

/// A streaming turn behind its closing messages: content where none was shown
/// and there is no call, the finish chunk, and the usage where it is wanted.
pub open spec fn closed_stream(r: RulesView, v: TurnView, e: Ending, raw: Seq<char>) -> TurnView {
    let a = if !v.emitted && v.calls.len() == 0 {
        said(r, v, content_tree(r.meta, content_of(v.visible, v.calls, raw)))
    } else {
        v
    };
    let b = said(r, a, finish_tree(r.meta, ending_reason(v, e)));
    if e.include_usage {
        said(
            r,
            b,
            usage_chunk_tree(
                r.meta,
                e.prompt_tokens as int,
                v.generated.len() as int,
                e.cached_tokens as int,
            ),
        )
    } else {
        b
    }
}

impl TurnState {
    /// Sends the closing messages of a streaming turn.
    pub fn close_stream(&mut self, e: &Ending, raw_text: &str)
        requires
            e.prompt_tokens + old(self)@.generated.len() <= u32::MAX,
        ensures
            final(self).rules() == old(self).rules(),
            final(self)@ == closed_stream(old(self).rules(), old(self)@, *e, raw_text@),
    {
        let reason = self.finish_reason(self.generated.len() >= e.max_tokens, e.gen_error);
        if !self.emitted_visible && self.calls.len() == 0 {
            let fallback = self.final_content(raw_text);
            self.say_content(fallback.as_str());
        }
        self.say_finish(reason);
        if e.include_usage {
            self.say_usage(e.prompt_tokens, self.generated.len() as u32, e.cached_tokens);
        }
    }

    /// The body of a turn that does not stream. Nothing has been sent, so
    /// trailing white space and a reasoning preamble are still removable.
    pub fn close_whole(&mut self, e: &Ending, raw_text: &str) -> (v: serde_json::Value)
        requires
            e.prompt_tokens + old(self)@.generated.len() <= u32::MAX,
        ensures
            final(self).rules() == old(self).rules(),
            final(self)@ == (TurnView {
                visible: cut_reasoning(trim_end(old(self)@.visible)),
                ..old(self)@
            }),
            tree(v) == completion_tree(
                old(self).rules().meta,
                content_of(
                    cut_reasoning(trim_end(old(self)@.visible)),
                    old(self)@.calls,
                    raw_text@,
                ),
                old(self)@.calls,
                ending_reason(old(self)@, *e),
                usage_tree(
                    e.prompt_tokens as int,
                    old(self)@.generated.len() as int,
                    e.cached_tokens as int,
                ),
            ),
    {
        let text = chars_of(self.visible_text.as_str());
        let kept = string_of(trimmed_end(text.as_slice()).as_slice());
        self.visible_text = cut_leading_reasoning(kept.as_str()).to_owned();
        proof {
            assert(self@ =~= TurnView {
                visible: cut_reasoning(trim_end(old(self)@.visible)),
                ..old(self)@
            });
        }
        let content = self.final_content(raw_text);
        let mut calls: Vec<(String, String, String)> = Vec::new();
        let mut i: usize = 0;
        while i < self.calls.len()
            invariant
                i <= self.calls@.len(),
                calls@.len() == i,
                forall|j: int|
                    0 <= j < i ==> triples(calls@)[j] == #[trigger] calls_view(self.calls@)[j],
            decreases self.calls.len() - i,
        {
            let c = &self.calls[i];
            let ghost before = calls@;
            calls.push((c.id.clone(), c.name.clone(), c.arguments.clone()));
            proof {
                assert forall|j: int| 0 <= j < i + 1 implies triples(calls@)[j]
                    == #[trigger] calls_view(self.calls@)[j] by {
                    if j < i {
                        assert(triples(calls@)[j] == triples(before)[j]);
                    }
                }
            }
            i += 1;
        }
        proof {
            assert(triples(calls@) =~= calls_view(self.calls@));
        }
        let reason = self.finish_reason(self.generated.len() >= e.max_tokens, e.gen_error);
        self.meta.completion_response(
            content.as_str(),
            calls.as_slice(),
            reason,
            e.prompt_tokens,
            self.generated.len() as u32,
            e.cached_tokens,
        )
    }

    /// A one-line summary of a finished turn, for the log.
    pub fn summary(&self, e: &Ending, degraded: Option<&str>) -> (r: String)
        ensures
            r@ == "finish="@ + ending_reason(self@, *e) + " prompt="@ + dec(e.prompt_tokens as nat)
                + " cached="@ + dec(e.cached_tokens as nat) + " generated="@ + dec(
                self@.generated.len(),
            ) + " calls="@ + dec(self@.calls.len()) + match degraded {
                Some(m) => " degraded: "@ + m@,
                None => Seq::empty(),
            },
    {
        let reason = self.finish_reason(self.generated.len() >= e.max_tokens, e.gen_error);
        let mut r = "finish=".to_owned();
        r.append(reason);
        r.append(" prompt=");
        r.append(dec_of(e.prompt_tokens as u64).as_str());
        r.append(" cached=");
        r.append(dec_of(e.cached_tokens as u64).as_str());
        r.append(" generated=");
        r.append(dec_of(self.generated.len() as u64).as_str());
        r.append(" calls=");
        r.append(dec_of(self.calls.len() as u64).as_str());
        let ghost head = r@;
        match degraded {
            Some(m) => {
                let tail = cat2(" degraded: ", m);
                r.append(tail.as_str());
            },
            None => {
                proof {
                    assert(head + Seq::<char>::empty() =~= head);
                }
            },
        }
        r
    }
}

// ---------------------------------------------------------------------------
// Laws
// ---------------------------------------------------------------------------

/// The content that a message carries.
pub open spec fn content_in(t: Tree) -> Seq<char> {
    match member_of(t, "choices"@) {
        Some(Tree::Arr(c)) => if c.len() == 1 {
            match member_of(c[0], "delta"@) {
                Some(d) => match str_member(d, "content"@) {
                    Some(s) => s,
                    None => Seq::empty(),
                },
                None => Seq::empty(),
            }
        } else {
            Seq::empty()
        },
        _ => Seq::empty(),
    }
}

/// The content that messages carry together.
pub open spec fn spoken(sent: Seq<Tree>) -> Seq<char>
    decreases sent.len(),
{
    if sent.len() == 0 {
        Seq::empty()
    } else {
        spoken(sent.drop_last()) + content_in(sent.last())
    }
}

pub(crate) proof fn lemma_chunk_content(m: ChunkMeta, delta: Tree, finish: Option<Seq<char>>)
    ensures
        content_in(chunk_tree(m, delta, finish)) == (match str_member(delta, "content"@) {
            Some(s) => s,
            None => Seq::empty(),
        }),
{
    reveal_strlit("delta");
    reveal_strlit("logprobs");
    reveal_strlit("finish_reason");
    assert("delta"@.len() != "logprobs"@.len());
    assert("delta"@.len() != "finish_reason"@.len());
}

pub(crate) proof fn lemma_contents(r: RulesView, text: Seq<char>, n: int, id: Seq<char>, name: Seq<char>, args: Seq<
    char,
>)
    ensures
        content_in(content_tree(r.meta, text)) == text,
        content_in(call_delta_tree(r.meta, n, id, name, args)) == Seq::<char>::empty(),
{
    reveal_strlit("content");
    reveal_strlit("tool_calls");
    assert("content"@.len() != "tool_calls"@.len());
    lemma_chunk_content(r.meta, Tree::Obj(obj().insert("content"@, Tree::Str(text))), None);
    let call = Tree::Obj(
        obj().insert("index"@, Tree::Int(n)).insert("id"@, Tree::Str(id)).insert(
            "type"@,
            Tree::Str("function"@),
        ).insert("function"@, crate::serving::streaming::function_tree(name, args)),
    );
    lemma_chunk_content(
        r.meta,
        Tree::Obj(obj().insert("tool_calls"@, Tree::Arr(seq![call]))),
        None,
    );
}

/// From `a` to `b` a turn showed exactly the content it sent.
pub open spec fn shows_what_it_sends(r: RulesView, a: TurnView, b: TurnView) -> bool {
    r.streaming ==> exists|d: Seq<char>|
        b.visible == a.visible + d && spoken(b.sent) == #[trigger] (spoken(a.sent) + d)
}

proof fn lemma_shows_nothing(r: RulesView, a: TurnView, b: TurnView)
    requires
        a.visible == b.visible,
        spoken(a.sent) == spoken(b.sent),
    ensures
        shows_what_it_sends(r, a, b),
{
    let d = Seq::<char>::empty();
    assert(a.visible + d =~= b.visible);
    assert(spoken(a.sent) + d =~= spoken(b.sent));
}

proof fn lemma_shows_chain(r: RulesView, a: TurnView, b: TurnView, c: TurnView)
    requires
        shows_what_it_sends(r, a, b),
        shows_what_it_sends(r, b, c),
    ensures
        shows_what_it_sends(r, a, c),
{
    if r.streaming {
        let d = choose|d: Seq<char>|
            b.visible == a.visible + d && spoken(b.sent) == #[trigger] (spoken(a.sent) + d);
        let e = choose|e: Seq<char>|
            c.visible == b.visible + e && spoken(c.sent) == #[trigger] (spoken(b.sent) + e);
        assert(a.visible + d + e =~= a.visible + (d + e));
        assert(spoken(a.sent) + d + e =~= spoken(a.sent) + (d + e));
    }
}

proof fn lemma_showed(r: RulesView, v: TurnView, text: Seq<char>)
    ensures
        shows_what_it_sends(r, v, showed(r, v, text)),
{
    let w = showed(r, v, text);
    if text.len() == 0 {
        lemma_shows_nothing(r, v, w);
    } else if r.streaming {
        lemma_contents(r, text, 0, text, text, text);
        assert(w.sent.drop_last() =~= v.sent);
        assert(spoken(w.sent) == spoken(v.sent) + text);
    }
}

proof fn lemma_called(r: RulesView, v: TurnView, name: Seq<char>, args: Seq<char>)
    ensures
        shows_what_it_sends(r, v, called(r, v, name, args)),
        called(r, v, name, args).visible == v.visible,
{
    let w = called(r, v, name, args);
    if r.streaming && !has_call(v.calls, name, args) {
        let id = call_id(r.uniq, v.calls.len());
        lemma_contents(r, id, v.calls.len() as int, id, name, args);
        assert(w.sent.drop_last() =~= v.sent);
        assert(spoken(v.sent) + Seq::<char>::empty() =~= spoken(v.sent));
        lemma_shows_nothing(r, v, w);
    } else {
        lemma_shows_nothing(r, v, w);
    }
}

proof fn lemma_called_all(r: RulesView, v: TurnView, calls: Seq<(Seq<char>, Seq<char>)>)
    ensures
        shows_what_it_sends(r, v, called_all(r, v, calls)),
    decreases calls.len(),
{
    if calls.len() == 0 {
        lemma_shows_nothing(r, v, v);
    } else {
        let front = called_all(r, v, calls.drop_last());
        lemma_called_all(r, v, calls.drop_last());
        lemma_called(r, front, calls.last().0, calls.last().1);
        lemma_shows_chain(r, v, front, called_all(r, v, calls));
    }
}

/// A streaming turn's visible text is exactly the content it sent, over each
/// token, the flush and the salvage: what the client echoes next turn is what
/// the address of the turn is made of.
pub proof fn law_visible_text_is_what_was_sent(
    r: RulesView,
    v: TurnView,
    t: u32,
    call: Option<(Seq<char>, Seq<char>)>,
    text: TextView,
    has_tools: bool,
    raw: Seq<char>,
)
    ensures
        shows_what_it_sends(r, v, tokened(r, v, t, call, text).0),
        shows_what_it_sends(r, v, flushed(r, v)),
        shows_what_it_sends(r, v, salvaged(r, v, has_tools, raw)),
{
    let a = TurnView { generated: v.generated.push(t), ..v };
    lemma_shows_nothing(r, v, a);
    let b = match call {
        Some(c) => called(r, a, c.0, c.1),
        None => a,
    };
    match call {
        Some(c) => {
            lemma_called(r, a, c.0, c.1);
        },
        None => {
            lemma_shows_nothing(r, a, b);
        },
    }
    lemma_shows_chain(r, v, a, b);
    if let TextView::Delta(s) = text {
        let f = fed(b.filter, s, r.markers);
        let c = TurnView { filter: f.0, ..b };
        lemma_shows_nothing(r, b, c);
        lemma_showed(r, c, f.1);
        lemma_shows_chain(r, b, c, heard(r, b, s));
        lemma_shows_chain(r, v, b, heard(r, b, s));
    }
    let f = finished(v.filter);
    let c = TurnView { filter: f.0, ..v };
    lemma_shows_nothing(r, v, c);
    lemma_showed(r, c, f.1);
    lemma_shows_chain(r, v, c, flushed(r, v));
    lemma_shows_nothing(r, v, v);
    let s = called_all(r, v, unplaced(fenced_from(v.visible, 0)));
    lemma_called_all(r, v, unplaced(fenced_from(v.visible, 0)));
    lemma_called_all(r, s, blocks_from(raw, 0));
    lemma_shows_chain(r, v, s, called_all(r, s, blocks_from(raw, 0)));
}

/// A turn's calls are numbered in order, and none comes twice.
pub open spec fn calls_in_order(uniq: Seq<char>, calls: Seq<CallOut>) -> bool {
    &&& forall|i: int| 0 <= i < calls.len() ==> (#[trigger] calls[i]).0 == call_id(uniq, i as nat)
    &&& forall|i: int, j: int|
        0 <= i < j < calls.len() ==> !((#[trigger] calls[i]).1 == (#[trigger] calls[j]).1
            && calls[i].2 == calls[j].2)
}

proof fn lemma_in_order(r: RulesView, v: TurnView, name: Seq<char>, args: Seq<char>)
    requires
        calls_in_order(r.uniq, v.calls),
    ensures
        calls_in_order(r.uniq, called(r, v, name, args).calls),
{
    let w = called(r, v, name, args).calls;
    if !has_call(v.calls, name, args) {
        assert forall|i: int, j: int| 0 <= i < j < w.len() implies !((#[trigger] w[i]).1 == (
        #[trigger] w[j]).1 && w[i].2 == w[j].2) by {
            assert(w[i] == v.calls[i]);
            if j < v.calls.len() {
                assert(w[j] == v.calls[j]);
            }
        }
    }
}

proof fn lemma_all_in_order(r: RulesView, v: TurnView, calls: Seq<(Seq<char>, Seq<char>)>)
    requires
        calls_in_order(r.uniq, v.calls),
    ensures
        calls_in_order(r.uniq, called_all(r, v, calls).calls),
    decreases calls.len(),
{
    if calls.len() > 0 {
        lemma_all_in_order(r, v, calls.drop_last());
        lemma_in_order(
            r,
            called_all(r, v, calls.drop_last()),
            calls.last().0,
            calls.last().1,
        );
    }
}

/// Whatever a turn does, its calls stay numbered in order and none comes twice.
pub proof fn law_calls_stay_in_order(
    r: RulesView,
    v: TurnView,
    t: u32,
    call: Option<(Seq<char>, Seq<char>)>,
    text: TextView,
    has_tools: bool,
    raw: Seq<char>,
)
    requires
        calls_in_order(r.uniq, v.calls),
    ensures
        calls_in_order(r.uniq, tokened(r, v, t, call, text).0.calls),
        calls_in_order(r.uniq, flushed(r, v).calls),
        calls_in_order(r.uniq, salvaged(r, v, has_tools, raw).calls),
{
    let a = TurnView { generated: v.generated.push(t), ..v };
    if let Some(c) = call {
        lemma_in_order(r, a, c.0, c.1);
    }
    let s = called_all(r, v, unplaced(fenced_from(v.visible, 0)));
    lemma_all_in_order(r, v, unplaced(fenced_from(v.visible, 0)));
    lemma_all_in_order(r, s, blocks_from(raw, 0));
}

/// Two calls of one turn never share an id.
pub proof fn law_call_ids_differ(uniq: Seq<char>, i: nat, j: nat)
    requires
        i != j,
    ensures
        call_id(uniq, i) != call_id(uniq, j),
{
    let head = "call_"@ + uniq + "_"@;
    if call_id(uniq, i) == call_id(uniq, j) {
        assert(dec(i) =~= call_id(uniq, i).skip(head.len() as int));
        assert(dec(j) =~= call_id(uniq, j).skip(head.len() as int));
        lemma_dec_injective(i, j);
    }
}

/// A turn always delivers something: its content is not empty unless it has
/// calls.
pub proof fn law_a_turn_delivers_something(visible: Seq<char>, calls: Seq<CallOut>, raw: Seq<char>)
    ensures
        calls.len() == 0 ==> content_of(visible, calls, raw).len() > 0,
{
    reveal_strlit("…");
}

} // verus!
