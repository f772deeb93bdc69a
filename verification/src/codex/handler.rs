//! The handler of a Responses request: its setup, the streaming turn as a state
//! machine, the answer of a turn that does not stream, and the routes.

use vstd::prelude::*;
use vstd::string::*;

use crate::chat::prompt::{ascii_alphanumeric, is_ascii_alphanumeric};
use crate::chat::turn::{call_id, Flow, TextEvent, TextView};
use crate::codex::session::{
    canon_items, canons, last_produced, name_of, saved_items, snapshot_name, split_resume_point,
    turn_items,
};
use crate::codex::types::{
    envelopes, function_tool_envelopes, ContentPartAddedData, ContentPartDoneData,
    CreateResponseBody, ErrorPayload, IncompleteDetails, InputItem, InputTokensDetails, ItemStatus,
    OutputContentPart, OutputFunctionCall, OutputItem, OutputItemAddedData, OutputItemDoneData,
    OutputMessage, OutputTextDeltaData, OutputTextDoneData, OutputTokensDetails, ResponseResource,
    ResponseStatus, Role, Usage,
};
use crate::format::{dec, dec_of};
use crate::json::tree;
use crate::markup::{fed, finished, fresh_filter, FilterView, MarkupFilter};
use crate::replay::opt_text;
use crate::serving::error::{error_body, error_tree};
use crate::serving::streaming::{triples, CallOut};
use crate::serving::types::texts;
use crate::text::{
    cat2, cat3, chars_of, same, string_of, trim_end, trim_start, trimmed_end, white,
};

verus! {

/// The token limit of a request that names none.
pub const DEFAULT_MAX_TOKENS: usize = 4096;

// ---------------------------------------------------------------------------
// Setup
// ---------------------------------------------------------------------------

/// A character that a snapshot's scope may hold.
pub open spec fn scope_char(c: char) -> bool {
    ascii_alphanumeric(c) || c == '-'
}

/// The characters of a key that a scope may hold.
pub open spec fn scope_chars(s: Seq<char>) -> Seq<char> {
    s.filter(|c: char| scope_char(c))
}

/// The scope of a request's snapshots: what its session key may hold of a name,
/// or the common scope.
pub open spec fn scope_of(key: Option<Seq<char>>) -> Seq<char> {
    match key {
        Some(k) => if scope_chars(k).len() == 0 {
            "global"@
        } else {
            scope_chars(k)
        },
        None => "global"@,
    }
}

/// The scope of a request's snapshots.
pub fn cache_scope(key: Option<&str>) -> (r: String)
    ensures
        r@ == scope_of(
            match key {
                Some(k) => Some(k@),
                None => None,
            },
        ),
{
    match key {
        Some(k) => {
            let s = chars_of(k);
            let mut out = String::new();
            let mut i: usize = 0;
            proof {
                assert(s@.take(0).filter(|c: char| scope_char(c)) =~= Seq::<char>::empty()) by {
                    reveal(Seq::filter);
                }
            }
            while i < s.len()
                invariant
                    i <= s@.len(),
                    out@ == scope_chars(s@.take(i as int)),
                decreases s.len() - i,
            {
                proof {
                    assert(s@.take(i + 1).drop_last() =~= s@.take(i as int));
                    reveal(Seq::filter);
                }
                if is_ascii_alphanumeric(s[i]) || s[i] == '-' {
                    out.push(s[i]);
                }
                i += 1;
            }
            proof {
                assert(s@.take(i as int) =~= s@);
            }
            if out.as_str().is_empty() {
                "global".to_owned()
            } else {
                out
            }
        },
        None => "global".to_owned(),
    }
}

/// What a turn needs of its request, without the sampling temperatures.
pub struct TurnSetup {
    pub instructions: Option<String>,
    pub items: Vec<InputItem>,
    pub tool_schemas: Vec<String>,
    pub max_tokens: usize,
    pub cache_scope: String,
}

/// The setup of a parsed request, and whether it streams. Empty instructions are
/// none.
pub fn parse_setup(request: CreateResponseBody) -> (r: (TurnSetup, bool))
    ensures
        r.1 == request.stream,
        r.0.instructions == (match request.instructions {
            Some(s) => if s@.len() == 0 {
                None
            } else {
                Some(s)
            },
            None => None,
        }),
        r.0.items@ == request.input.items(),
        texts(r.0.tool_schemas@) == envelopes(request.tools@, request.tools@.len() as int),
        r.0.max_tokens == (match request.max_output_tokens {
            Some(n) => n,
            None => DEFAULT_MAX_TOKENS,
        }),
        r.0.cache_scope@ == scope_of(opt_text(request.prompt_cache_key)),
{
    let tool_schemas = function_tool_envelopes(request.tools.as_slice());
    let scope = match &request.prompt_cache_key {
        Some(k) => cache_scope(Some(k.as_str())),
        None => cache_scope(None),
    };
    let items = request.input.into_items();
    let instructions = match request.instructions {
        Some(s) => if s.as_str().is_empty() {
            None
        } else {
            Some(s)
        },
        None => None,
    };
    let max_tokens = match request.max_output_tokens {
        Some(n) => n,
        None => DEFAULT_MAX_TOKENS,
    };
    (
        TurnSetup { instructions, items, tool_schemas, max_tokens, cache_scope: scope },
        request.stream,
    )
}

/// Where a turn may resume: how many items are behind it, and the name that the
/// previous request saved its context as; none on the first turn.
pub fn resume_point(setup: &TurnSetup) -> (r: Option<(usize, String)>)
    ensures
        match r {
            Some((split, name)) => 0 < split <= setup.items@.len() && last_produced(
                setup.items@,
                setup.items@.len() as int,
            ) == Some(split - 1) && name@ == name_of(
                setup.cache_scope@,
                opt_text(setup.instructions),
                texts(setup.tool_schemas@),
                canons(setup.items@, split as int),
            ),
            None => last_produced(setup.items@, setup.items@.len() as int) is None,
        },
{
    match split_resume_point(setup.items.as_slice()) {
        Some(split) => {
            let items = canon_items(setup.items.as_slice(), split);
            let instructions = match &setup.instructions {
                Some(s) => Some(s.as_str()),
                None => None,
            };
            let name = snapshot_name(
                setup.cache_scope.as_str(),
                instructions,
                setup.tool_schemas.as_slice(),
                items.as_slice(),
            );
            Some((split, name))
        },
        None => None,
    }
}

/// The name that a turn's context is saved under.
pub fn save_name(setup: &TurnSetup, visible_text: &str, calls: &[(String, String, String)]) -> (r:
    String)
    ensures
        r@ == name_of(
            setup.cache_scope@,
            opt_text(setup.instructions),
            texts(setup.tool_schemas@),
            canons(setup.items@, setup.items@.len() as int) + turn_items(
                visible_text@,
                triples(calls@),
            ),
        ),
{
    let items = saved_items(setup.items.as_slice(), visible_text, calls);
    let instructions = match &setup.instructions {
        Some(s) => Some(s.as_str()),
        None => None,
    };
    snapshot_name(
        setup.cache_scope.as_str(),
        instructions,
        setup.tool_schemas.as_slice(),
        items.as_slice(),
    )
}

// ---------------------------------------------------------------------------
// Items and events
// ---------------------------------------------------------------------------

/// What a part holds: its text, and how many annotations.
pub type PartView = (Seq<char>, nat);

/// What a part holds.
pub open spec fn part_view(p: OutputContentPart) -> PartView {
    match p {
        OutputContentPart::OutputText { text, annotations } => (text@, annotations@.len()),
    }
}

/// What an output item holds.
pub enum ItemView {
    Message { id: Seq<char>, role: Role, status: ItemStatus, content: Seq<PartView> },
    Call {
        id: Seq<char>,
        call_id: Seq<char>,
        name: Seq<char>,
        arguments: Seq<char>,
        status: ItemStatus,
    },
}

/// What an output item holds.
pub open spec fn item_view(i: OutputItem) -> ItemView {
    match i {
        OutputItem::Message(m) => ItemView::Message {
            id: m.id@,
            role: m.role,
            status: m.status,
            content: m.content@.map_values(|p: OutputContentPart| part_view(p)),
        },
        OutputItem::FunctionCall(c) => ItemView::Call {
            id: c.id@,
            call_id: c.call_id@,
            name: c.name@,
            arguments: c.arguments@,
            status: c.status,
        },
    }
}

/// What output items hold.
pub open spec fn output_view(v: Seq<OutputItem>) -> Seq<ItemView> {
    v.map_values(|i: OutputItem| item_view(i))
}

/// An event of a turn's items.
pub enum ItemEvent {
    ItemAdded(OutputItemAddedData),
    ItemDone(OutputItemDoneData),
    PartAdded(ContentPartAddedData),
    PartDone(ContentPartDoneData),
    TextDelta(OutputTextDeltaData),
    TextDone(OutputTextDoneData),
}

/// What an event holds: the item's place in the output, and the payload; parts
/// and texts also the item's id and their place in it.
pub enum EventView {
    ItemAdded(int, ItemView),
    ItemDone(int, ItemView),
    PartAdded(Seq<char>, int, int, PartView),
    PartDone(Seq<char>, int, int, PartView),
    TextDelta(Seq<char>, int, int, Seq<char>),
    TextDone(Seq<char>, int, int, Seq<char>),
}

/// What an event holds.
pub open spec fn event_view(e: ItemEvent) -> EventView {
    match e {
        ItemEvent::ItemAdded(d) => EventView::ItemAdded(d.output_index as int, item_view(d.item)),
        ItemEvent::ItemDone(d) => EventView::ItemDone(d.output_index as int, item_view(d.item)),
        ItemEvent::PartAdded(d) => EventView::PartAdded(
            d.item_id@,
            d.output_index as int,
            d.content_index as int,
            part_view(d.part),
        ),
        ItemEvent::PartDone(d) => EventView::PartDone(
            d.item_id@,
            d.output_index as int,
            d.content_index as int,
            part_view(d.part),
        ),
        ItemEvent::TextDelta(d) => EventView::TextDelta(
            d.item_id@,
            d.output_index as int,
            d.content_index as int,
            d.delta@,
        ),
        ItemEvent::TextDone(d) => EventView::TextDone(
            d.item_id@,
            d.output_index as int,
            d.content_index as int,
            d.text@,
        ),
    }
}

impl ItemEvent {
    /// The type that the wire names an event by.
    pub fn event_type(&self) -> (r: &'static str)
        ensures
            r@ == (match *self {
                ItemEvent::ItemAdded(_) => "response.output_item.added"@,
                ItemEvent::ItemDone(_) => "response.output_item.done"@,
                ItemEvent::PartAdded(_) => "response.content_part.added"@,
                ItemEvent::PartDone(_) => "response.content_part.done"@,
                ItemEvent::TextDelta(_) => "response.output_text.delta"@,
                ItemEvent::TextDone(_) => "response.output_text.done"@,
            }),
    {
        match self {
            ItemEvent::ItemAdded(_) => "response.output_item.added",
            ItemEvent::ItemDone(_) => "response.output_item.done",
            ItemEvent::PartAdded(_) => "response.content_part.added",
            ItemEvent::PartDone(_) => "response.content_part.done",
            ItemEvent::TextDelta(_) => "response.output_text.delta",
            ItemEvent::TextDone(_) => "response.output_text.done",
        }
    }
}

fn text_part(text: &str) -> (r: OutputContentPart)
    ensures
        part_view(r) == (text@, 0nat),
{
    OutputContentPart::OutputText { text: text.to_owned(), annotations: Vec::new() }
}

/// A message with one text part, or none.
pub open spec fn message_item(id: Seq<char>, status: ItemStatus, text: Option<Seq<char>>) -> ItemView {
    ItemView::Message {
        id,
        role: Role::Assistant,
        status,
        content: match text {
            Some(t) => seq![(t, 0nat)],
            None => Seq::empty(),
        },
    }
}

fn make_message(id: &str, status: ItemStatus, text: Option<&str>) -> (r: OutputItem)
    ensures
        item_view(r) == message_item(
            id@,
            status,
            match text {
                Some(t) => Some(t@),
                None => None,
            },
        ),
{
    let mut content: Vec<OutputContentPart> = Vec::new();
    match text {
        Some(t) => {
            content.push(text_part(t));
            proof {
                assert(content@.map_values(|p: OutputContentPart| part_view(p)) =~= seq![
                    (t@, 0nat),
                ]);
            }
        },
        None => {
            proof {
                assert(content@.map_values(|p: OutputContentPart| part_view(p)) =~= Seq::empty());
            }
        },
    }
    OutputItem::Message(OutputMessage { id: id.to_owned(), role: Role::Assistant, status, content })
}

/// The id of the output item of call number `n`.
pub open spec fn item_id(uniq: Seq<char>, n: nat) -> Seq<char> {
    "fc_"@ + uniq + "_"@ + dec(n)
}

/// The output item of call number `n`.
pub open spec fn call_output(uniq: Seq<char>, n: nat, name: Seq<char>, args: Seq<char>) -> ItemView {
    ItemView::Call {
        id: item_id(uniq, n),
        call_id: call_id(uniq, n),
        name,
        arguments: args,
        status: ItemStatus::Completed,
    }
}

fn numbered_id(prefix: &str, uniq: &str, n: usize) -> (r: String)
    ensures
        r@ == prefix@ + uniq@ + "_"@ + dec(n as nat),
{
    let mut r = cat3(prefix, uniq, "_");
    r.append(dec_of(n as u64).as_str());
    r
}

fn make_call(uniq: &str, n: usize, name: &str, args: &str) -> (r: OutputItem)
    ensures
        item_view(r) == call_output(uniq@, n as nat, name@, args@),
{
    OutputItem::FunctionCall(
        OutputFunctionCall {
            id: numbered_id("fc_", uniq, n),
            call_id: numbered_id("call_", uniq, n),
            name: name.to_owned(),
            arguments: args.to_owned(),
            status: ItemStatus::Completed,
        },
    )
}

// ---------------------------------------------------------------------------
// The streaming turn
// ---------------------------------------------------------------------------

/// What a turn has done so far.
#[verifier::ext_equal]
pub struct StreamView {
    pub filter: FilterView,
    pub visible: Seq<char>,
    pub calls: Seq<CallOut>,
    pub output: Seq<ItemView>,
    /// Where the message stands in the output, once it is open.
    pub message: Option<int>,
    pub next: int,
    pub generated: int,
    /// The events sent.
    pub events: Seq<EventView>,
}

/// A turn that has not begun.
pub open spec fn fresh_stream() -> StreamView {
    StreamView {
        filter: fresh_filter(),
        visible: Seq::empty(),
        calls: Seq::empty(),
        output: Seq::empty(),
        message: None,
        next: 0,
        generated: 0,
        events: Seq::empty(),
    }
}

/// The id of a turn's message.
pub open spec fn message_id(uniq: Seq<char>) -> Seq<char> {
    "msg_"@ + uniq
}

/// A turn whose message is open: it is opened at its first visible text.
pub open spec fn opened(uniq: Seq<char>, v: StreamView) -> StreamView {
    match v.message {
        Some(_) => v,
        None => StreamView {
            message: Some(v.next),
            next: v.next + 1,
            events: v.events.push(
                EventView::ItemAdded(
                    v.next,
                    message_item(message_id(uniq), ItemStatus::InProgress, None),
                ),
            ).push(EventView::PartAdded(message_id(uniq), v.next, 0, (Seq::empty(), 0))),
            ..v
        },
    }
}

/// A turn behind shown text.
pub open spec fn showed(uniq: Seq<char>, v: StreamView, text: Seq<char>) -> StreamView {
    if text.len() == 0 {
        v
    } else {
        let o = opened(uniq, v);
        StreamView {
            visible: o.visible + text,
            events: o.events.push(
                EventView::TextDelta(message_id(uniq), o.message->0, 0, text),
            ),
            ..o
        }
    }
}

/// A turn behind a completed call: its item is added and done at once.
pub open spec fn called(uniq: Seq<char>, v: StreamView, name: Seq<char>, args: Seq<char>) -> StreamView {
    let n = v.calls.len();
    let item = call_output(uniq, n, name, args);
    StreamView {
        calls: v.calls.push((call_id(uniq, n), name, args)),
        output: v.output.push(item),
        next: v.next + 1,
        events: v.events.push(EventView::ItemAdded(v.next, item)).push(
            EventView::ItemDone(v.next, item),
        ),
        ..v
    }
}

/// A turn behind one token, and whether it goes on.
pub open spec fn tokened(
    uniq: Seq<char>,
    v: StreamView,
    call: Option<(Seq<char>, Seq<char>)>,
    stop: bool,
    text: TextView,
) -> (StreamView, Flow) {
    let a = StreamView { generated: v.generated + 1, ..v };
    let b = match call {
        Some(c) => called(uniq, a, c.0, c.1),
        None => a,
    };
    if stop {
        (b, Flow::Break)
    } else {
        match text {
            TextView::Delta(s) => {
                let f = fed(b.filter, s, 2);
                (showed(uniq, StreamView { filter: f.0, ..b }, f.1), Flow::Continue)
            },
            TextView::Done => (b, Flow::Break),
            TextView::Quiet => (b, Flow::Continue),
        }
    }
}

/// The status of a message: incomplete where the token limit was met.
pub open spec fn message_status(hit_max: bool) -> ItemStatus {
    if hit_max {
        ItemStatus::Incomplete
    } else {
        ItemStatus::Completed
    }
}

/// A turn behind its last token: what the filter held back is shown, trailing
/// white space dropped, and the message closed. A turn that produced nothing gets
/// an empty message, for a response has at least one item.
pub open spec fn closed(uniq: Seq<char>, v: StreamView, max_tokens: usize) -> StreamView {
    let f = finished(v.filter);
    let a = showed(uniq, StreamView { filter: f.0, ..v }, f.1);
    let b = StreamView { visible: trim_end(a.visible), ..a };
    let c = if b.message is None && b.calls.len() == 0 {
        opened(uniq, b)
    } else {
        b
    };
    match c.message {
        None => c,
        Some(at) => {
            let id = message_id(uniq);
            let item = message_item(id, message_status(v.generated >= max_tokens), Some(c.visible));
            StreamView {
                output: c.output.push(item),
                events: c.events.push(EventView::TextDone(id, at, 0, c.visible)).push(
                    EventView::PartDone(id, at, 0, (c.visible, 0)),
                ).push(EventView::ItemDone(at, item)),
                ..c
            }
        },
    }
}

/// The state of a streaming turn.
pub struct StreamTurn {
    uniq: String,
    filter: MarkupFilter,
    visible_text: String,
    calls: Vec<(String, String, String)>,
    output: Vec<OutputItem>,
    msg_index: Option<u32>,
    next_index: u32,
    n_generated: usize,
    events: Vec<ItemEvent>,
}

impl View for StreamTurn {
    type V = StreamView;

    closed spec fn view(&self) -> StreamView {
        StreamView {
            filter: self.filter@,
            visible: self.visible_text@,
            calls: triples(self.calls@),
            output: output_view(self.output@),
            message: match self.msg_index {
                Some(i) => Some(i as int),
                None => None,
            },
            next: self.next_index as int,
            generated: self.n_generated as int,
            events: self.events@.map_values(|e: ItemEvent| event_view(e)),
        }
    }
}

impl StreamTurn {
    /// What makes the turn's ids its own.
    pub closed spec fn uniq(&self) -> Seq<char> {
        self.uniq@
    }

    /// A turn that has not begun.
    pub fn new(uniq: String) -> (r: StreamTurn)
        ensures
            r.uniq() == uniq@,
            r@ == fresh_stream(),
    {
        let r = StreamTurn {
            uniq,
            filter: MarkupFilter::new(),
            visible_text: String::new(),
            calls: Vec::new(),
            output: Vec::new(),
            msg_index: None,
            next_index: 0,
            n_generated: 0,
            events: Vec::new(),
        };
        proof {
            assert(r@ =~= fresh_stream());
        }
        r
    }

    fn send(&mut self, e: ItemEvent)
        ensures
            final(self).uniq() == old(self).uniq(),
            final(self)@ == (StreamView {
                events: old(self)@.events.push(event_view(e)),
                ..old(self)@
            }),
    {
        self.events.push(e);
        proof {
            assert(self@ =~= StreamView {
                events: old(self)@.events.push(event_view(e)),
                ..old(self)@
            });
        }
    }

    fn open_message(&mut self) -> (r: u32)
        requires
            old(self)@.next < u32::MAX,
        ensures
            final(self).uniq() == old(self).uniq(),
            final(self)@ == opened(old(self).uniq(), old(self)@),
            final(self)@.message == Some(r as int),
    {
        match self.msg_index {
            Some(i) => i,
            None => {
                let idx = self.next_index;
                self.next_index = idx + 1;
                self.msg_index = Some(idx);
                let id = cat2("msg_", self.uniq.as_str());
                let item = make_message(id.as_str(), ItemStatus::InProgress, None);
                self.send(
                    ItemEvent::ItemAdded(OutputItemAddedData { output_index: idx, item }),
                );
                let part = text_part("");
                proof {
                    reveal_strlit("");
                    assert(""@ =~= Seq::<char>::empty());
                }
                self.send(
                    ItemEvent::PartAdded(
                        ContentPartAddedData {
                            item_id: id,
                            output_index: idx,
                            content_index: 0,
                            part,
                        },
                    ),
                );
                proof {
                    assert(self@ =~= opened(old(self).uniq(), old(self)@));
                }
                idx
            },
        }
    }

    fn show(&mut self, text: String)
        requires
            old(self)@.next < u32::MAX,
        ensures
            final(self).uniq() == old(self).uniq(),
            final(self)@ == showed(old(self).uniq(), old(self)@, text@),
    {
        if !text.as_str().is_empty() {
            let idx = self.open_message();
            self.visible_text.append(text.as_str());
            let item_id = cat2("msg_", self.uniq.as_str());
            let ghost said = text@;
            self.send(
                ItemEvent::TextDelta(
                    OutputTextDeltaData {
                        item_id,
                        output_index: idx,
                        content_index: 0,
                        delta: text,
                    },
                ),
            );
            proof {
                assert(self@ =~= showed(old(self).uniq(), old(self)@, said));
            }
        }
    }

    fn push_call(&mut self, name: String, args: String)
        requires
            old(self)@.next < u32::MAX,
        ensures
            final(self).uniq() == old(self).uniq(),
            final(self)@ == called(old(self).uniq(), old(self)@, name@, args@),
    {
        let n = self.calls.len();
        let idx = self.next_index;
        let ghost u = self.uniq@;
        let item = make_call(self.uniq.as_str(), n, name.as_str(), args.as_str());
        self.send(ItemEvent::ItemAdded(OutputItemAddedData { output_index: idx, item }));
        let item = make_call(self.uniq.as_str(), n, name.as_str(), args.as_str());
        self.send(ItemEvent::ItemDone(OutputItemDoneData { output_index: idx, item }));
        let item = make_call(self.uniq.as_str(), n, name.as_str(), args.as_str());
        let ghost out = self.output@;
        let ghost seen = self.calls@;
        self.output.push(item);
        self.next_index = idx + 1;
        let id = numbered_id("call_", self.uniq.as_str(), n);
        let ghost nm = name@;
        let ghost ar = args@;
        self.calls.push((id, name, args));
        proof {
            assert(triples(self.calls@) =~= triples(seen).push((call_id(u, n as nat), nm, ar)));
            assert(output_view(self.output@) =~= output_view(out).push(
                call_output(u, n as nat, nm, ar),
            ));
            assert(self@ =~= called(old(self).uniq(), old(self)@, nm, ar));
        }
    }

    /// Handles one token: the call it completed, whether it is a stop token, and
    /// what the text decoder made of it.
    pub fn on_token(&mut self, call: Option<(String, String)>, stop: bool, text: TextEvent) -> (r:
        Flow)
        requires
            old(self)@.next + 2 <= u32::MAX,
            old(self)@.generated < usize::MAX,
        ensures
            final(self).uniq() == old(self).uniq(),
            (final(self)@, r) == tokened(
                old(self).uniq(),
                old(self)@,
                match call {
                    Some(c) => Some((c.0@, c.1@)),
                    None => None,
                },
                stop,
                text@,
            ),
    {
        self.n_generated += 1;
        proof {
            assert(self@ =~= StreamView { generated: old(self)@.generated + 1, ..old(self)@ });
        }
        match call {
            Some((name, args)) => {
                self.push_call(name, args);
            },
            None => {},
        }
        if stop {
            return Flow::Break;
        }
        match text {
            TextEvent::Delta(s) => {
                let ghost before = self@;
                let shown = self.filter.feed(s.as_str(), 2);
                proof {
                    let f = fed(before.filter, s@, 2);
                    assert(self@ =~= StreamView { filter: f.0, ..before });
                }
                self.show(shown);
                Flow::Continue
            },
            TextEvent::Done => Flow::Break,
            TextEvent::Quiet => Flow::Continue,
        }
    }

    /// Closes the turn behind its last token.
    pub fn close(&mut self, max_tokens: usize)
        requires
            old(self)@.next + 2 <= u32::MAX,
        ensures
            final(self).uniq() == old(self).uniq(),
            final(self)@ == closed(old(self).uniq(), old(self)@, max_tokens),
    {
        let ghost u = self.uniq();
        let shown = self.filter.finish();
        proof {
            let f = finished(old(self)@.filter);
            assert(self@ =~= StreamView { filter: f.0, ..old(self)@ });
        }
        self.show(shown);
        let ghost a = self@;
        let text = chars_of(self.visible_text.as_str());
        self.visible_text = string_of(trimmed_end(text.as_slice()).as_slice());
        let ghost b = StreamView { visible: trim_end(a.visible), ..a };
        proof {
            assert(self@ =~= b);
        }
        if self.msg_index.is_none() && self.calls.len() == 0 {
            let _ = self.open_message();
        }
        let ghost c = self@;
        match self.msg_index {
            Some(idx) => {
                let status = if self.n_generated >= max_tokens {
                    ItemStatus::Incomplete
                } else {
                    ItemStatus::Completed
                };
                let id = cat2("msg_", self.uniq.as_str());
                self.send(
                    ItemEvent::TextDone(
                        OutputTextDoneData {
                            item_id: id.clone(),
                            output_index: idx,
                            content_index: 0,
                            text: self.visible_text.clone(),
                        },
                    ),
                );
                let part = text_part(self.visible_text.as_str());
                self.send(
                    ItemEvent::PartDone(
                        ContentPartDoneData {
                            item_id: id.clone(),
                            output_index: idx,
                            content_index: 0,
                            part,
                        },
                    ),
                );
                let item = make_message(id.as_str(), status, Some(self.visible_text.as_str()));
                self.send(ItemEvent::ItemDone(OutputItemDoneData { output_index: idx, item }));
                let item = make_message(id.as_str(), status, Some(self.visible_text.as_str()));
                let ghost out = self.output@;
                self.output.push(item);
                proof {
                    let it = message_item(
                        message_id(u),
                        message_status(c.generated >= max_tokens),
                        Some(c.visible),
                    );
                    assert(output_view(self.output@) =~= output_view(out).push(it));
                    assert(self@ =~= closed(u, old(self)@, max_tokens));
                }
            },
            None => {},
        }
    }

    /// The events sent since the last call, which are then forgotten.
    pub fn take_events(&mut self) -> (r: Vec<ItemEvent>)
        ensures
            r@.map_values(|e: ItemEvent| event_view(e)) == old(self)@.events,
            final(self).uniq() == old(self).uniq(),
            final(self)@ == (StreamView { events: Seq::empty(), ..old(self)@ }),
    {
        let mut out: Vec<ItemEvent> = Vec::new();
        out.append(&mut self.events);
        proof {
            assert(out@ =~= old(self).events@);
            assert(self@ =~= StreamView { events: Seq::empty(), ..old(self)@ });
        }
        out
    }

    /// The text shown so far.
    pub fn visible(&self) -> (r: &str)
        ensures
            r@ == self@.visible,
    {
        self.visible_text.as_str()
    }

    /// The calls so far, each by its id, name and arguments.
    pub fn calls(&self) -> (r: &[(String, String, String)])
        ensures
            triples(r@) == self@.calls,
    {
        self.calls.as_slice()
    }

    /// How many tokens were generated.
    pub fn count(&self) -> (r: usize)
        ensures
            r == self@.generated,
    {
        self.n_generated
    }

    /// Whether so many more items have a place in the output.
    pub fn has_places(&self, n: u32) -> (r: bool)
        ensures
            r == (self@.next + n <= u32::MAX),
    {
        self.next_index <= u32::MAX - n
    }

    /// The turn's visible text, calls, output and token count.
    pub fn into_parts(self) -> (r: (String, Vec<(String, String, String)>, Vec<OutputItem>, usize))
        ensures
            r.0@ == self@.visible,
            triples(r.1@) == self@.calls,
            output_view(r.2@) == self@.output,
            r.3 == self@.generated,
    {
        (self.visible_text, self.calls, self.output, self.n_generated)
    }
}

// ---------------------------------------------------------------------------
// Answers
// ---------------------------------------------------------------------------

/// How a turn ended.
pub struct Ending {
    pub max_tokens: usize,
    pub prompt_tokens: u32,
    pub cached_tokens: u32,
    pub completed_at: i64,
    /// What became of the snapshots.
    pub debug: String,
}

/// The response of a finished turn.
pub fn complete(response: ResponseResource, output: Vec<OutputItem>, n_generated: usize, e: Ending) -> (r:
    ResponseResource)
    requires
        e.prompt_tokens + n_generated <= u32::MAX,
    ensures
        r.id == response.id,
        r.object == response.object,
        r.created_at == response.created_at,
        r.model == response.model,
        r.error == response.error,
        r.completed_at == Some(e.completed_at),
        r.output == output,
        r.debug == Some(e.debug),
        n_generated >= e.max_tokens ==> r.status == ResponseStatus::Incomplete
            && r.incomplete_details is Some && r.incomplete_details->0.reason@
            == "max_output_tokens"@,
        n_generated < e.max_tokens ==> r.status == ResponseStatus::Completed
            && r.incomplete_details == response.incomplete_details,
        r.usage == Some(
            Usage {
                input_tokens: e.prompt_tokens,
                input_tokens_details: InputTokensDetails { cached_tokens: e.cached_tokens },
                output_tokens: n_generated as u32,
                output_tokens_details: OutputTokensDetails { reasoning_tokens: 0 },
                total_tokens: (e.prompt_tokens + n_generated) as u32,
            },
        ),
{
    let mut r = response;
    let hit_max = n_generated >= e.max_tokens;
    r.status = if hit_max {
        ResponseStatus::Incomplete
    } else {
        ResponseStatus::Completed
    };
    if hit_max {
        r.incomplete_details =
        Some(IncompleteDetails { reason: "max_output_tokens".to_owned() });
    }
    r.output = output;
    r.completed_at = Some(e.completed_at);
    r.usage =
    Some(
        Usage {
            input_tokens: e.prompt_tokens,
            input_tokens_details: InputTokensDetails { cached_tokens: e.cached_tokens },
            output_tokens: n_generated as u32,
            output_tokens_details: OutputTokensDetails { reasoning_tokens: 0 },
            total_tokens: e.prompt_tokens + n_generated as u32,
        },
    );
    r.debug = Some(e.debug);
    r
}

/// The response of a turn that failed once its stream had begun.
pub fn fail(response: ResponseResource, code: &str, message: String) -> (r: ResponseResource)
    ensures
        r.status == ResponseStatus::Failed,
        r.error is Some,
        r.error->0.error_type@ == "server_error"@,
        r.error->0.code is Some && r.error->0.code->0@ == code@,
        r.error->0.message == message,
        r.error->0.param is None,
        r == (ResponseResource { status: r.status, error: r.error, ..response }),
{
    let mut r = response;
    r.status = ResponseStatus::Failed;
    r.error =
    Some(
        ErrorPayload {
            error_type: "server_error".to_owned(),
            code: Some(code.to_owned()),
            message,
            param: None,
        },
    );
    r
}

/// The items of the first `n` calls.
pub open spec fn call_outputs(uniq: Seq<char>, calls: Seq<CallOut>, n: int) -> Seq<ItemView> {
    Seq::new(n as nat, |i: int| call_output(uniq, i as nat, calls[i].1, calls[i].2))
}

/// The output of a turn that does not stream: its calls, then its text where it
/// has any or nothing else.
pub open spec fn whole(uniq: Seq<char>, visible: Seq<char>, calls: Seq<CallOut>, hit_max: bool) -> Seq<
    ItemView,
> {
    let outputs = call_outputs(uniq, calls, calls.len() as int);
    if visible.len() > 0 || calls.len() == 0 {
        outputs.push(message_item(message_id(uniq), message_status(hit_max), Some(visible)))
    } else {
        outputs
    }
}

/// The output of a turn that does not stream.
pub fn whole_output(uniq: &str, visible: &str, calls: &[(String, String, String)], hit_max: bool) -> (r:
    Vec<OutputItem>)
    ensures
        output_view(r@) == whole(uniq@, visible@, triples(calls@), hit_max),
{
    let ghost cv = triples(calls@);
    let mut out: Vec<OutputItem> = Vec::new();
    let mut i: usize = 0;
    proof {
        assert(output_view(out@) =~= call_outputs(uniq@, cv, 0));
    }
    while i < calls.len()
        invariant
            i <= calls@.len(),
            cv == triples(calls@),
            output_view(out@) == call_outputs(uniq@, cv, i as int),
        decreases calls.len() - i,
    {
        let ghost before = out@;
        out.push(make_call(uniq, i, calls[i].1.as_str(), calls[i].2.as_str()));
        proof {
            assert(output_view(out@) =~= output_view(before).push(
                call_output(uniq@, i as nat, cv[i as int].1, cv[i as int].2),
            ));
            assert(output_view(out@) =~= call_outputs(uniq@, cv, i + 1));
        }
        i += 1;
    }
    if !visible.is_empty() || calls.len() == 0 {
        let status = if hit_max {
            ItemStatus::Incomplete
        } else {
            ItemStatus::Completed
        };
        let id = cat2("msg_", uniq);
        let ghost before = out@;
        out.push(make_message(id.as_str(), status, Some(visible)));
        proof {
            assert(output_view(out@) =~= output_view(before).push(
                message_item(message_id(uniq@), message_status(hit_max), Some(visible@)),
            ));
        }
    }
    out
}

/// The body of an error answer.
pub fn error_response(error_type: &str, message: &str) -> (v: serde_json::Value)
    ensures
        tree(v) == error_tree(error_type@, message@),
{
    error_body(error_type, message)
}

// ---------------------------------------------------------------------------
// Routes
// ---------------------------------------------------------------------------

/// A request's method, as far as the routes tell them apart.
#[derive(Clone, Copy, Debug, PartialEq, Eq, Structural)]
pub enum Verb {
    Get,
    Post,
    Options,
    Another,
}

/// Where a request goes.
#[derive(Clone, Copy, Debug, PartialEq, Eq, Structural)]
pub enum Route {
    /// Creating a response.
    Responses,
    /// What the server is.
    Info,
    /// A cross-origin preflight.
    Preflight,
    NotFound,
}

/// What the server says of itself.
pub const INFO: &'static str =
    "{\n  \"name\": \"Pie Codex Responses Server\",\n  \"version\": \"0.1.0\",\n  \"endpoints\": {\n    \"POST /responses\": \"Create a response (Codex wire_api = \\\"responses\\\")\"\n  }\n}\n";

/// Where a request goes.
pub open spec fn routed(verb: Verb, path: Seq<char>) -> Route {
    if verb == Verb::Post && (path == "/responses"@ || path == "/v1/responses"@) {
        Route::Responses
    } else if verb == Verb::Get && path == "/"@ {
        Route::Info
    } else if verb == Verb::Options {
        Route::Preflight
    } else {
        Route::NotFound
    }
}

/// Where a request goes.
pub fn route(verb: Verb, path: &str) -> (r: Route)
    ensures
        r == routed(verb, path@),
{
    if verb == Verb::Post && (same(path, "/responses") || same(path, "/v1/responses")) {
        Route::Responses
    } else if verb == Verb::Get && same(path, "/") {
        Route::Info
    } else if verb == Verb::Options {
        Route::Preflight
    } else {
        Route::NotFound
    }
}

// ---------------------------------------------------------------------------
// Laws
// ---------------------------------------------------------------------------

/// The items that events call done, in order.
pub open spec fn done_items(events: Seq<EventView>) -> Seq<ItemView>
    decreases events.len(),
{
    if events.len() == 0 {
        Seq::empty()
    } else {
        let front = done_items(events.drop_last());
        match events.last() {
            EventView::ItemDone(_, item) => front.push(item),
            _ => front,
        }
    }
}

/// From `a` to `b` every item of the output was announced as done.
pub open spec fn announces(a: StreamView, b: StreamView) -> bool {
    exists|d: Seq<ItemView>|
        b.output == a.output + d && done_items(b.events) == #[trigger] (done_items(a.events) + d)
}

proof fn lemma_announces_nothing(a: StreamView, b: StreamView)
    requires
        a.output == b.output,
        done_items(a.events) == done_items(b.events),
    ensures
        announces(a, b),
{
    let d = Seq::<ItemView>::empty();
    assert(a.output + d =~= b.output);
    assert(done_items(a.events) + d =~= done_items(b.events));
}

proof fn lemma_announces_chain(a: StreamView, b: StreamView, c: StreamView)
    requires
        announces(a, b),
        announces(b, c),
    ensures
        announces(a, c),
{
    let d = choose|d: Seq<ItemView>|
        b.output == a.output + d && done_items(b.events) == #[trigger] (done_items(a.events) + d);
    let e = choose|e: Seq<ItemView>|
        c.output == b.output + e && done_items(c.events) == #[trigger] (done_items(b.events) + e);
    assert(a.output + d + e =~= a.output + (d + e));
    assert(done_items(a.events) + d + e =~= done_items(a.events) + (d + e));
}

proof fn lemma_done_push(events: Seq<EventView>, e: EventView)
    ensures
        done_items(events.push(e)) == (match e {
            EventView::ItemDone(_, item) => done_items(events).push(item),
            _ => done_items(events),
        }),
{
    assert(events.push(e).drop_last() =~= events);
}

proof fn lemma_opened(uniq: Seq<char>, v: StreamView)
    ensures
        announces(v, opened(uniq, v)),
{
    if v.message is None {
        let a = EventView::ItemAdded(
            v.next,
            message_item(message_id(uniq), ItemStatus::InProgress, None),
        );
        let b = EventView::PartAdded(message_id(uniq), v.next, 0, (Seq::empty(), 0));
        lemma_done_push(v.events, a);
        lemma_done_push(v.events.push(a), b);
    }
    lemma_announces_nothing(v, opened(uniq, v));
}

proof fn lemma_showed(uniq: Seq<char>, v: StreamView, text: Seq<char>)
    ensures
        announces(v, showed(uniq, v, text)),
{
    if text.len() == 0 {
        lemma_announces_nothing(v, v);
    } else {
        let o = opened(uniq, v);
        lemma_opened(uniq, v);
        lemma_done_push(
            o.events,
            EventView::TextDelta(message_id(uniq), o.message->0, 0, text),
        );
        lemma_announces_nothing(o, showed(uniq, v, text));
        lemma_announces_chain(v, o, showed(uniq, v, text));
    }
}

/// Every item that a turn produces is announced as done, once and in order: the
/// client takes its items from these events.
pub proof fn law_every_item_is_announced(
    uniq: Seq<char>,
    v: StreamView,
    call: Option<(Seq<char>, Seq<char>)>,
    stop: bool,
    text: TextView,
    max_tokens: usize,
)
    ensures
        announces(v, tokened(uniq, v, call, stop, text).0),
        announces(v, closed(uniq, v, max_tokens)),
{
    let a = StreamView { generated: v.generated + 1, ..v };
    lemma_announces_nothing(v, a);
    let b = match call {
        Some(c) => called(uniq, a, c.0, c.1),
        None => a,
    };
    if let Some(c) = call {
        let item = call_output(uniq, a.calls.len(), c.0, c.1);
        lemma_done_push(a.events, EventView::ItemAdded(a.next, item));
        lemma_done_push(
            a.events.push(EventView::ItemAdded(a.next, item)),
            EventView::ItemDone(a.next, item),
        );
        let d = seq![item];
        assert(a.output + d =~= b.output);
        assert(done_items(a.events) + d =~= done_items(b.events));
        lemma_announces_chain(v, a, b);
    }
    if let TextView::Delta(s) = text {
        let f = fed(b.filter, s, 2);
        let c = StreamView { filter: f.0, ..b };
        lemma_announces_nothing(b, c);
        lemma_showed(uniq, c, f.1);
        lemma_announces_chain(v, b, c);
        lemma_announces_chain(v, c, showed(uniq, c, f.1));
    }
    let f = finished(v.filter);
    let w = StreamView { filter: f.0, ..v };
    let x = showed(uniq, w, f.1);
    let y = StreamView { visible: trim_end(x.visible), ..x };
    let z = if y.message is None && y.calls.len() == 0 {
        opened(uniq, y)
    } else {
        y
    };
    lemma_announces_nothing(v, w);
    lemma_showed(uniq, w, f.1);
    lemma_announces_chain(v, w, x);
    lemma_announces_nothing(x, y);
    lemma_announces_chain(v, x, y);
    lemma_announces_nothing(y, y);
    lemma_opened(uniq, y);
    lemma_announces_chain(v, y, z);
    if let Some(at) = z.message {
        let id = message_id(uniq);
        let item = message_item(id, message_status(v.generated >= max_tokens), Some(z.visible));
        let e1 = EventView::TextDone(id, at, 0, z.visible);
        let e2 = EventView::PartDone(id, at, 0, (z.visible, 0));
        lemma_done_push(z.events, e1);
        lemma_done_push(z.events.push(e1), e2);
        lemma_done_push(z.events.push(e1).push(e2), EventView::ItemDone(at, item));
        let d = seq![item];
        let last = closed(uniq, v, max_tokens);
        assert(z.output + d =~= last.output);
        assert(done_items(z.events) + d =~= done_items(last.events));
        lemma_announces_chain(v, z, last);
    }
}

/// The text that events add to the message.
pub open spec fn deltas(s: Seq<EventView>) -> Seq<char>
    decreases s.len(),
{
    if s.len() == 0 {
        Seq::empty()
    } else {
        match s.last() {
            EventView::TextDelta(_, _, _, text) => deltas(s.drop_last()) + text,
            _ => deltas(s.drop_last()),
        }
    }
}

proof fn lemma_deltas_push(s: Seq<EventView>, e: EventView)
    ensures
        deltas(s.push(e)) == (match e {
            EventView::TextDelta(_, _, _, text) => deltas(s) + text,
            _ => deltas(s),
        }),
{
    assert(s.push(e).drop_last() =~= s);
}

proof fn lemma_deltas_opened(uniq: Seq<char>, v: StreamView)
    ensures
        deltas(opened(uniq, v).events) == deltas(v.events),
{
    if v.message is None {
        let a = EventView::ItemAdded(
            v.next,
            message_item(message_id(uniq), ItemStatus::InProgress, None),
        );
        lemma_deltas_push(v.events, a);
        lemma_deltas_push(
            v.events.push(a),
            EventView::PartAdded(message_id(uniq), v.next, 0, (Seq::empty(), 0)),
        );
    }
}

proof fn lemma_deltas_showed(uniq: Seq<char>, v: StreamView, text: Seq<char>)
    ensures
        deltas(showed(uniq, v, text).events) == deltas(v.events) + text,
        showed(uniq, v, text).visible == v.visible + text,
{
    if text.len() == 0 {
        assert(deltas(v.events) + text =~= deltas(v.events));
        assert(v.visible + text =~= v.visible);
    } else {
        let o = opened(uniq, v);
        lemma_deltas_opened(uniq, v);
        lemma_deltas_push(o.events, EventView::TextDelta(message_id(uniq), o.message->0, 0, text));
    }
}

/// What a client puts together of the deltas is the visible text of the turn, token
/// by token; and the text that the closed message holds is that, without the white
/// space at its end. `before` is what was shown by events sent earlier.
pub proof fn law_a_message_is_its_deltas(
    uniq: Seq<char>,
    before: Seq<char>,
    v: StreamView,
    call: Option<(Seq<char>, Seq<char>)>,
    stop: bool,
    text: TextView,
    max_tokens: usize,
)
    requires
        v.visible == before + deltas(v.events),
    ensures
        ({
            let w = tokened(uniq, v, call, stop, text).0;
            w.visible == before + deltas(w.events)
        }),
        ({
            let c = closed(uniq, v, max_tokens);
            c.visible == trim_end(before + deltas(c.events))
        }),
{
    let a = StreamView { generated: v.generated + 1, ..v };
    let b = match call {
        Some(c) => called(uniq, a, c.0, c.1),
        None => a,
    };
    if let Some(c) = call {
        let item = call_output(uniq, a.calls.len(), c.0, c.1);
        lemma_deltas_push(a.events, EventView::ItemAdded(a.next, item));
        lemma_deltas_push(
            a.events.push(EventView::ItemAdded(a.next, item)),
            EventView::ItemDone(a.next, item),
        );
    }
    if let TextView::Delta(s) = text {
        let f = fed(b.filter, s, 2);
        lemma_deltas_showed(uniq, StreamView { filter: f.0, ..b }, f.1);
        assert(before + deltas(b.events) + f.1 =~= before + (deltas(b.events) + f.1));
    }
    let f = finished(v.filter);
    let w = StreamView { filter: f.0, ..v };
    let x = showed(uniq, w, f.1);
    lemma_deltas_showed(uniq, w, f.1);
    assert(before + deltas(v.events) + f.1 =~= before + (deltas(v.events) + f.1));
    let y = StreamView { visible: trim_end(x.visible), ..x };
    lemma_deltas_opened(uniq, y);
    let z = if y.message is None && y.calls.len() == 0 {
        opened(uniq, y)
    } else {
        y
    };
    if let Some(at) = z.message {
        let id = message_id(uniq);
        let item = message_item(id, message_status(v.generated >= max_tokens), Some(z.visible));
        let e1 = EventView::TextDone(id, at, 0, z.visible);
        let e2 = EventView::PartDone(id, at, 0, (z.visible, 0));
        lemma_deltas_push(z.events, e1);
        lemma_deltas_push(z.events.push(e1), e2);
        lemma_deltas_push(z.events.push(e1).push(e2), EventView::ItemDone(at, item));
    }
}

/// How a turn stands between its tokens: the output holds its calls, and the
/// message is open exactly where something other than white space was shown.
pub open spec fn steady(uniq: Seq<char>, v: StreamView) -> bool {
    &&& v.output == call_outputs(uniq, v.calls, v.calls.len() as int)
    &&& (v.message is Some) == (v.visible.len() > 0)
    &&& v.filter.emitted == (v.visible.len() > 0)
    &&& v.visible.len() > 0 ==> !white(v.visible[0])
}

proof fn lemma_trim_start_shows(s: Seq<char>)
    ensures
        trim_start(s).len() > 0 ==> !white(trim_start(s)[0]),
    decreases s.len(),
{
    if s.len() > 0 && white(s[0]) {
        lemma_trim_start_shows(s.skip(1));
    }
}

proof fn lemma_trim_end_keeps(s: Seq<char>)
    requires
        s.len() > 0,
        !white(s[0]),
    ensures
        trim_end(s).len() > 0,
    decreases s.len(),
{
    if white(s.last()) {
        assert(s.len() > 1);
        lemma_trim_end_keeps(s.drop_last());
    }
}

proof fn lemma_steady_shown(uniq: Seq<char>, v: StreamView, f: FilterView, text: Seq<char>)
    requires
        steady(uniq, v),
        f.emitted == (v.filter.emitted || text.len() > 0),
        !v.filter.emitted && text.len() > 0 ==> !white(text[0]),
    ensures
        steady(uniq, showed(uniq, StreamView { filter: f, ..v }, text)),
{
    let w = showed(uniq, StreamView { filter: f, ..v }, text);
    if text.len() > 0 {
        if v.visible.len() == 0 {
            assert(w.visible =~= text);
        } else {
            assert(w.visible[0] == v.visible[0]);
        }
    }
}

/// A turn stands so from the beginning, over every token.
pub proof fn law_a_turn_stays_steady(
    uniq: Seq<char>,
    v: StreamView,
    call: Option<(Seq<char>, Seq<char>)>,
    stop: bool,
    text: TextView,
)
    requires
        steady(uniq, v),
    ensures
        steady(uniq, fresh_stream()),
        steady(uniq, tokened(uniq, v, call, stop, text).0),
{
    assert(call_outputs(uniq, Seq::<CallOut>::empty(), 0) =~= Seq::<ItemView>::empty());
    let a = StreamView { generated: v.generated + 1, ..v };
    let b = match call {
        Some(c) => called(uniq, a, c.0, c.1),
        None => a,
    };
    if let Some(c) = call {
        assert(b.output =~= call_outputs(uniq, b.calls, b.calls.len() as int));
    }
    assert(steady(uniq, b));
    if let TextView::Delta(s) = text {
        let f = fed(b.filter, s, 2);
        let found = crate::markup::scan(b.filter.mode, b.filter.pending + s, 2).out;
        lemma_trim_start_shows(found);
        lemma_steady_shown(uniq, b, f.0, f.1);
    }
}

/// Streaming or not, a turn answers the same output, and never none: the output
/// of a closed stream is that of the same text and calls in one piece.
pub proof fn law_both_paths_answer_alike(uniq: Seq<char>, v: StreamView, max_tokens: usize)
    requires
        steady(uniq, v),
    ensures
        ({
            let c = closed(uniq, v, max_tokens);
            &&& c.output == whole(uniq, c.visible, c.calls, v.generated >= max_tokens)
            &&& c.output.len() > 0
        }),
{
    let f = finished(v.filter);
    lemma_trim_start_shows(v.filter.pending);
    lemma_steady_shown(uniq, v, f.0, f.1);
    let a = showed(uniq, StreamView { filter: f.0, ..v }, f.1);
    if a.visible.len() > 0 {
        lemma_trim_end_keeps(a.visible);
    } else {
        assert(trim_end(a.visible) =~= a.visible);
    }
    assert(a.calls == v.calls);
    assert(a.output == v.output);
}

} // verus!
