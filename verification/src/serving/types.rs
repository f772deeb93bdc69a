//! The chat-completions request and its normal forms.

use vstd::prelude::*;
use vstd::string::*;

use crate::json::{
    bool_member, get_bool, json_text, member_of, string, to_text, tree, Object, Tree,
};
use crate::serving::context_policy::ContextPolicy;
use crate::serving::salvage::{read_on, reader_at};
use crate::text::{
    before, chars_of, comes_before, join, law_parts_are_joined_in_order, lemma_before_total,
    lemma_before_trans, same, string_of,
};

verus! {

/// A chat-completions request, without the sampling temperatures that only the
/// sampler reads.
pub struct ChatCompletionRequest {
    /// Opt-in server-side context editing; absent, everything is attended to.
    pub pie_context_policy: Option<ContextPolicy>,
    pub model: Option<String>,
    pub messages: Vec<ChatMessage>,
    pub tools: Vec<ToolSpec>,
    pub max_tokens: Option<usize>,
    /// Newer alias of `max_tokens`.
    pub max_completion_tokens: Option<usize>,
    pub stream: bool,
    pub stream_options: StreamOptions,
    pub stop: Option<StopField>,
    pub chat_template_kwargs: Option<serde_json::Value>,
}

#[derive(Clone, Copy, Debug, PartialEq, Eq, Structural)]
pub struct StreamOptions {
    pub include_usage: bool,
}

impl Default for StreamOptions {
    fn default() -> (r: Self)
        ensures
            !r.include_usage,
    {
        StreamOptions { include_usage: false }
    }
}

pub enum StopField {
    One(String),
    Many(Vec<String>),
}

pub struct ChatMessage {
    pub role: String,
    /// String or list of parts; both normalise to a string.
    pub content: Option<MessageContent>,
    pub tool_calls: Option<Vec<ToolCallIn>>,
    /// Present on tool turns.
    pub tool_call_id: Option<String>,
    /// Echoed back by some clients; part of neither the rendered stream nor
    /// the address.
    pub reasoning_content: Option<String>,
}

pub enum MessageContent {
    Text(String),
    Parts(Vec<ContentPart>),
}

pub struct ContentPart {
    pub part_type: String,
    pub text: String,
}

pub struct ToolCallIn {
    pub id: String,
    pub function: ToolCallFunction,
}

pub struct ToolCallFunction {
    pub name: String,
    /// The arguments object, as JSON text.
    pub arguments: String,
}

pub struct ToolSpec {
    pub function: ToolSpecFunction,
}

pub struct ToolSpecFunction {
    pub name: String,
    pub description: String,
    /// An opaque JSON schema, passed through.
    pub parameters: serde_json::Value,
}

// ---------------------------------------------------------------------------
// Views
// ---------------------------------------------------------------------------

/// The contents of a tool call.
#[verifier::ext_equal]
pub struct CallView {
    pub id: Seq<char>,
    pub name: Seq<char>,
    pub arguments: Seq<char>,
}

impl View for ToolCallIn {
    type V = CallView;

    open spec fn view(&self) -> CallView {
        CallView { id: self.id@, name: self.function.name@, arguments: self.function.arguments@ }
    }
}

/// The contents of message content; a part is its type and its text.
pub enum ContentView {
    Text(Seq<char>),
    Parts(Seq<(Seq<char>, Seq<char>)>),
}

/// The contents of parts.
pub open spec fn parts_view(p: Seq<ContentPart>) -> Seq<(Seq<char>, Seq<char>)> {
    p.map_values(|x: ContentPart| (x.part_type@, x.text@))
}

impl View for MessageContent {
    type V = ContentView;

    open spec fn view(&self) -> ContentView {
        match *self {
            MessageContent::Text(s) => ContentView::Text(s@),
            MessageContent::Parts(p) => ContentView::Parts(parts_view(p@)),
        }
    }
}

/// An optional string's contents.
pub open spec fn opt_view(s: Option<String>) -> Option<Seq<char>> {
    match s {
        Some(x) => Some(x@),
        None => None,
    }
}

/// The contents of tool calls.
pub open spec fn calls_view(c: Seq<ToolCallIn>) -> Seq<CallView> {
    c.map_values(|x: ToolCallIn| x@)
}

/// The contents of a message. Absent and empty tool calls are alike.
pub struct MessageView {
    pub role: Seq<char>,
    pub content: Option<ContentView>,
    pub calls: Seq<CallView>,
    pub call_id: Option<Seq<char>>,
    pub reasoning: Option<Seq<char>>,
}

impl View for ChatMessage {
    type V = MessageView;

    open spec fn view(&self) -> MessageView {
        MessageView {
            role: self.role@,
            content: match self.content {
                Some(c) => Some(c@),
                None => None,
            },
            calls: match self.tool_calls {
                Some(c) => calls_view(c@),
                None => Seq::empty(),
            },
            call_id: opt_view(self.tool_call_id),
            reasoning: opt_view(self.reasoning_content),
        }
    }
}

/// The contents of messages.
pub open spec fn messages_view(m: Seq<ChatMessage>) -> Seq<MessageView> {
    m.map_values(|x: ChatMessage| x@)
}

// ---------------------------------------------------------------------------
// Text
// ---------------------------------------------------------------------------

/// The texts of the text parts, in order.
pub open spec fn text_parts(p: Seq<(Seq<char>, Seq<char>)>) -> Seq<Seq<char>>
    decreases p.len(),
{
    if p.len() == 0 {
        Seq::empty()
    } else if p.last().0 == "text"@ {
        text_parts(p.drop_last()).push(p.last().1)
    } else {
        text_parts(p.drop_last())
    }
}

/// The text of message content: itself, or its text parts joined by newlines.
pub open spec fn content_text(c: ContentView) -> Seq<char> {
    match c {
        ContentView::Text(s) => s,
        ContentView::Parts(p) => join(text_parts(p), "\n"@),
    }
}

/// The text of a message, empty where it has no content.
pub open spec fn message_text(m: MessageView) -> Seq<char> {
    match m.content {
        Some(c) => content_text(c),
        None => Seq::empty(),
    }
}

impl MessageContent {
    /// Flattens to text; several text parts are joined by newlines.
    pub fn as_text(&self) -> (r: String)
        ensures
            r@ == content_text(self@),
    {
        match self {
            MessageContent::Text(s) => s.clone(),
            MessageContent::Parts(parts) => {
                let ghost p = parts_view(parts@);
                let mut out = String::new();
                let mut some: bool = false;
                let mut i: usize = 0;
                proof {
                    assert(p.take(0) =~= Seq::empty());
                }
                while i < parts.len()
                    invariant
                        p == parts_view(parts@),
                        i <= parts@.len(),
                        out@ == join(text_parts(p.take(i as int)), "\n"@),
                        some == (text_parts(p.take(i as int)).len() > 0),
                    decreases parts.len() - i,
                {
                    proof {
                        assert(p.take(i + 1).drop_last() =~= p.take(i as int));
                    }
                    if same(parts[i].part_type.as_str(), "text") {
                        let ghost texts = text_parts(p.take(i as int));
                        proof {
                            assert(texts.push(parts@[i as int].text@).drop_last() =~= texts);
                        }
                        if some {
                            out.append("\n");
                        }
                        out.append(parts[i].text.as_str());
                        proof {
                            assert(texts.len() == 0 ==> out@ =~= parts@[i as int].text@);
                        }
                        some = true;
                    }
                    i += 1;
                }
                proof {
                    assert(p.take(i as int) =~= p);
                }
                out
            },
        }
    }
}

impl ChatMessage {
    /// The message's text, empty where it has no content.
    pub fn text(&self) -> (r: String)
        ensures
            r@ == message_text(self@),
    {
        match &self.content {
            Some(c) => c.as_text(),
            None => String::new(),
        }
    }

    /// The message's text, `None` where it is empty: an empty string renders
    /// like no content at all.
    pub fn text_opt(&self) -> (r: Option<String>)
        ensures
            match r {
                Some(s) => s@ == message_text(self@) && s@.len() > 0,
                None => message_text(self@).len() == 0,
            },
    {
        let s = self.text();
        if s.as_str().is_empty() {
            None
        } else {
            Some(s)
        }
    }

    /// The message's tool calls, none where the list is absent.
    pub fn calls(&self) -> (r: &[ToolCallIn])
        ensures
            calls_view(r@) == self@.calls,
    {
        match &self.tool_calls {
            Some(c) => c.as_slice(),
            None => {
                let none: &[ToolCallIn] = &[];
                proof {
                    assert(calls_view(none@) =~= Seq::empty());
                }
                none
            },
        }
    }
}

// ---------------------------------------------------------------------------
// The request
// ---------------------------------------------------------------------------

/// What the request asks of the thinking channel; none where it does not say.
pub open spec fn thinking(req: ChatCompletionRequest) -> Option<bool> {
    match req.chat_template_kwargs {
        Some(v) => bool_member(tree(v), "enable_thinking"@),
        None => None,
    }
}

/// The contents of a list of strings.
pub open spec fn texts(v: Seq<String>) -> Seq<Seq<char>> {
    v.map_values(|s: String| s@)
}

/// A copy of a list of strings.
pub fn copy_texts(v: &[String]) -> (r: Vec<String>)
    ensures
        texts(r@) == texts(v@),
{
    let mut r: Vec<String> = Vec::new();
    let mut i: usize = 0;
    while i < v.len()
        invariant
            i <= v@.len(),
            r@.len() == i,
            forall|j: int| 0 <= j < i ==> (#[trigger] r@[j])@ == v@[j]@,
        decreases v.len() - i,
    {
        r.push(v[i].clone());
        i += 1;
    }
    proof {
        assert(texts(r@) =~= texts(v@));
    }
    r
}

impl ChatCompletionRequest {
    /// The token limit: `max_tokens`, else its newer alias, else the default.
    pub fn effective_max_tokens(&self, default: usize) -> (r: usize)
        ensures
            r == (match self.max_tokens {
                Some(n) => n,
                None => match self.max_completion_tokens {
                    Some(n) => n,
                    None => default,
                },
            }),
    {
        match self.max_tokens {
            Some(n) => n,
            None => match self.max_completion_tokens {
                Some(n) => n,
                None => default,
            },
        }
    }

    /// Whether a usage chunk was asked for.
    pub fn include_usage(&self) -> (r: bool)
        ensures
            r == self.stream_options.include_usage,
    {
        self.stream_options.include_usage
    }

    fn enable_thinking(&self) -> (r: Option<bool>)
        ensures
            r == thinking(*self),
    {
        match &self.chat_template_kwargs {
            Some(v) => get_bool(v, "enable_thinking"),
            None => None,
        }
    }

    /// Whether the caller explicitly asked for the thinking channel. Absent is
    /// no.
    pub fn thinking_requested(&self) -> (r: bool)
        ensures
            r == (thinking(*self) == Some(true)),
    {
        match self.enable_thinking() {
            Some(b) => b,
            None => false,
        }
    }

    /// Whether the caller explicitly asked for the no-think channel.
    pub fn no_think(&self) -> (r: bool)
        ensures
            r == (thinking(*self) == Some(false)),
    {
        match self.enable_thinking() {
            Some(b) => !b,
            None => false,
        }
    }

    /// The stop strings.
    pub fn stop_strings(&self) -> (r: Vec<String>)
        ensures
            texts(r@) == (match self.stop {
                None => Seq::empty(),
                Some(StopField::One(s)) => seq![s@],
                Some(StopField::Many(v)) => texts(v@),
            }),
    {
        match &self.stop {
            None => {
                let r: Vec<String> = Vec::new();
                proof {
                    assert(texts(r@) =~= Seq::empty());
                }
                r
            },
            Some(StopField::One(s)) => {
                let mut r: Vec<String> = Vec::new();
                r.push(s.clone());
                proof {
                    assert(texts(r@) =~= seq![s@]);
                }
                r
            },
            Some(StopField::Many(v)) => copy_texts(v.as_slice()),
        }
    }
}

// ---------------------------------------------------------------------------
// Tool schemas
// ---------------------------------------------------------------------------

/// `s` from position `i` on, with a space behind every comma and colon that
/// stands outside a string literal.
pub open spec fn spaced_from(s: Seq<char>, i: int, in_string: bool, escaped: bool) -> Seq<char>
    decreases s.len() - i,
{
    if i < 0 || i >= s.len() {
        Seq::empty()
    } else {
        let c = s[i];
        (if !in_string && (c == ',' || c == ':') {
            seq![c, ' ']
        } else {
            seq![c]
        }) + spaced_from(
            s,
            i + 1,
            if in_string {
                escaped || c != '"'
            } else {
                c == '"'
            },
            in_string && !escaped && c == '\\',
        )
    }
}

/// JSON text with a space behind every separator.
pub open spec fn spaced(s: Seq<char>) -> Seq<char> {
    spaced_from(s, 0, false, false)
}

fn space_separators(s: &[char]) -> (r: Vec<char>)
    ensures
        r@ == spaced(s@),
{
    let mut out: Vec<char> = Vec::new();
    let mut in_string: bool = false;
    let mut escaped: bool = false;
    let mut i: usize = 0;
    proof {
        assert(out@ + spaced(s@) =~= spaced(s@));
    }
    while i < s.len()
        invariant
            i <= s@.len(),
            spaced(s@) == out@ + spaced_from(s@, i as int, in_string, escaped),
        decreases s.len() - i,
    {
        let c = s[i];
        let ghost before = out@;
        let ghost head = if !in_string && (c == ',' || c == ':') {
            seq![c, ' ']
        } else {
            seq![c]
        };
        out.push(c);
        if !in_string && (c == ',' || c == ':') {
            out.push(' ');
        }
        proof {
            assert(out@ =~= before + head);
        }
        let next_in = if in_string {
            escaped || c != '"'
        } else {
            c == '"'
        };
        escaped = in_string && !escaped && c == '\\';
        in_string = next_in;
        i += 1;
        proof {
            let rest = spaced_from(s@, i as int, in_string, escaped);
            assert(before + (head + rest) =~= out@ + rest);
        }
    }
    proof {
        assert(out@ + Seq::<char>::empty() =~= out@);
    }
    out
}

/// A value's text with the separators `", "` and `": "`, as the reference
/// chat templates write schemas. The same string goes into the prompt and the
/// snapshot address.
pub fn python_json(value: &serde_json::Value) -> (r: String)
    ensures
        r@ == spaced(json_text(tree(*value))),
{
    let text = to_text(value);
    let chars = chars_of(text.as_str());
    let out = space_separators(chars.as_slice());
    string_of(out.as_slice())
}

/// The contents of a tool.
pub struct ToolView {
    pub name: Seq<char>,
    pub description: Seq<char>,
    pub parameters: Tree,
}

impl View for ToolSpec {
    type V = ToolView;

    open spec fn view(&self) -> ToolView {
        ToolView {
            name: self.function.name@,
            description: self.function.description@,
            parameters: tree(self.function.parameters),
        }
    }
}

/// The contents of tools.
pub open spec fn tools_view(t: Seq<ToolSpec>) -> Seq<ToolView> {
    t.map_values(|x: ToolSpec| x@)
}

/// `s` with `x` put behind every tool whose name does not come after its own.
pub open spec fn insert_tool(s: Seq<ToolView>, x: ToolView) -> Seq<ToolView>
    decreases s.len(),
{
    if s.len() == 0 || !before(x.name, s.last().name) {
        s.push(x)
    } else {
        insert_tool(s.drop_last(), x).push(s.last())
    }
}

/// The tools by name; tools of one name keep their order.
pub open spec fn by_name(s: Seq<ToolView>) -> Seq<ToolView>
    decreases s.len(),
{
    if s.len() == 0 {
        s
    } else {
        insert_tool(by_name(s.drop_last()), s.last())
    }
}

/// The envelope of a tool.
pub open spec fn envelope(t: ToolView) -> Seq<char> {
    spaced(
        json_text(
            Tree::Obj(
                Map::<Seq<char>, Tree>::empty().insert("name"@, Tree::Str(t.name)).insert(
                    "description"@,
                    Tree::Str(t.description),
                ).insert("parameters"@, t.parameters),
            ),
        ),
    )
}

/// The envelopes of tools, by name.
pub open spec fn envelopes(tools: Seq<ToolView>) -> Seq<Seq<char>> {
    by_name(tools).map_values(|t: ToolView| envelope(t))
}

fn envelope_of(t: &ToolSpec) -> (r: String)
    ensures
        r@ == envelope(t@),
{
    let mut o = Object::new();
    o.put("name", string(t.function.name.as_str()));
    o.put("description", string(t.function.description.as_str()));
    o.put("parameters", t.function.parameters.clone());
    let v = o.build();
    python_json(&v)
}

proof fn lemma_insert_at(s: Seq<ToolView>, x: ToolView, p: int)
    requires
        0 <= p <= s.len(),
        p > 0 ==> !before(x.name, s[p - 1].name),
        forall|j: int| p <= j < s.len() ==> before(x.name, (#[trigger] s[j]).name),
    ensures
        insert_tool(s, x) == s.insert(p, x),
    decreases s.len(),
{
    if p == s.len() {
        assert(s.insert(p, x) =~= s.push(x));
    } else {
        lemma_insert_at(s.drop_last(), x, p);
        assert(s.drop_last().insert(p, x).push(s.last()) =~= s.insert(p, x));
    }
}

/// Canonical schema envelopes, `{name, description, parameters}` per tool, by
/// name. A client that reorders its tools between turns renders, and
/// addresses, the same strings.
pub fn tool_schema_envelopes(tools: &[ToolSpec]) -> (r: Vec<String>)
    ensures
        texts(r@) == envelopes(tools_view(tools@)),
{
    let ghost view = tools_view(tools@);
    let mut order: Vec<usize> = Vec::new();
    let ghost mut sorted: Seq<ToolView> = Seq::empty();
    let mut k: usize = 0;
    proof {
        assert(view.take(0) =~= Seq::empty());
    }
    while k < tools.len()
        invariant
            view == tools_view(tools@),
            k <= tools@.len(),
            sorted == by_name(view.take(k as int)),
            sorted.len() == order@.len(),
            order@.len() == k,
            forall|j: int| 0 <= j < k ==> (#[trigger] order@[j]) < tools@.len() && sorted[j]
                == view[order@[j] as int],
        decreases tools.len() - k,
    {
        let name = chars_of(tools[k].function.name.as_str());
        let mut p: usize = order.len();
        let mut stop: bool = false;
        while p > 0 && !stop
            invariant
                view == tools_view(tools@),
                k < tools@.len(),
                order@.len() == k,
                p <= k,
                name@ == view[k as int].name,
                sorted.len() == k,
                forall|j: int| 0 <= j < k ==> (#[trigger] order@[j]) < tools@.len() && sorted[j]
                    == view[order@[j] as int],
                forall|j: int| p <= j < k ==> before(name@, (#[trigger] sorted[j]).name),
                stop ==> p > 0 && !before(name@, sorted[p - 1].name),
            decreases p + (if stop { 0int } else { 1int }),
        {
            let other = chars_of(tools[order[p - 1]].function.name.as_str());
            proof {
                assert(order@[p - 1] < tools@.len());
            }
            if comes_before(name.as_slice(), other.as_slice()) {
                p -= 1;
            } else {
                stop = true;
            }
        }
        let ghost before_order = order@;
        order.insert(p, k);
        proof {
            let x = view[k as int];
            lemma_insert_at(sorted, x, p as int);
            assert(view.take(k + 1).drop_last() =~= view.take(k as int));
            let next = sorted.insert(p as int, x);
            assert forall|j: int| 0 <= j < k + 1 implies (#[trigger] order@[j]) < tools@.len()
                && next[j] == view[order@[j] as int] by {
                if j < p {
                    assert(order@[j] == before_order[j]);
                } else if j > p {
                    assert(order@[j] == before_order[j - 1]);
                }
            }
            sorted = next;
        }
        k += 1;
    }
    proof {
        assert(view.take(k as int) =~= view);
    }
    let mut out: Vec<String> = Vec::new();
    let mut i: usize = 0;
    while i < order.len()
        invariant
            view == tools_view(tools@),
            i <= order@.len(),
            sorted == by_name(view),
            sorted.len() == order@.len(),
            forall|j: int| 0 <= j < order@.len() ==> (#[trigger] order@[j]) < tools@.len()
                && sorted[j] == view[order@[j] as int],
            out@.len() == i,
            forall|j: int| 0 <= j < i ==> (#[trigger] out@[j])@ == envelope(sorted[j]),
        decreases order.len() - i,
    {
        proof {
            assert(order@[i as int] < tools@.len());
        }
        out.push(envelope_of(&tools[order[i]]));
        i += 1;
    }
    proof {
        assert(texts(out@) =~= envelopes(view));
    }
    out
}

// ---------------------------------------------------------------------------
// Order independence
// ---------------------------------------------------------------------------

/// No two tools have one name.
pub open spec fn distinct_names(s: Seq<ToolView>) -> bool {
    forall|i: int, j: int| 0 <= i < j < s.len() ==> s[i].name != s[j].name
}

/// Each tool's name comes before those behind it.
pub open spec fn ascending_names(s: Seq<ToolView>) -> bool {
    forall|i: int, j: int| 0 <= i < j < s.len() ==> before(s[i].name, s[j].name)
}

proof fn lemma_insert_sorted(s: Seq<ToolView>, x: ToolView)
    requires
        ascending_names(s),
        forall|i: int| 0 <= i < s.len() ==> (#[trigger] s[i]).name != x.name,
    ensures
        ascending_names(insert_tool(s, x)),
        forall|y: ToolView| #[trigger] insert_tool(s, x).contains(y) <==> (s.contains(y) || y == x),
        insert_tool(s, x).len() == s.len() + 1,
    decreases s.len(),
{
    let r = insert_tool(s, x);
    if s.len() == 0 || !before(x.name, s.last().name) {
        assert forall|i: int, j: int| 0 <= i < j < r.len() implies before(r[i].name, r[j].name) by {
            if j == s.len() {
                assert(x.name.take(0) =~= s.last().name.take(0));
                lemma_before_total(x.name, s.last().name, 0);
                assert(s.last() == s[s.len() - 1]);
                if i < s.len() - 1 {
                    assert(before(s[i].name, s[s.len() - 1].name));
                    lemma_before_trans(s[i].name, s.last().name, x.name, 0);
                }
            }
        }
        assert forall|y: ToolView| #[trigger] r.contains(y) <==> (s.contains(y) || y == x) by {
            if s.contains(y) {
                let i = choose|i: int| 0 <= i < s.len() && s[i] == y;
                assert(r[i] == y);
            }
            if y == x {
                assert(r[s.len() as int] == y);
            }
        }
    } else {
        let t = s.drop_last();
        assert forall|i: int| 0 <= i < t.len() implies (#[trigger] t[i]).name != x.name by {
            assert(s[i].name != x.name);
        }
        lemma_insert_sorted(t, x);
        let q = insert_tool(t, x);
        assert forall|i: int, j: int| 0 <= i < j < r.len() implies before(r[i].name, r[j].name) by {
            if j == q.len() {
                assert(q.contains(q[i]));
                if q[i] != x {
                    let k = choose|k: int| 0 <= k < t.len() && t[k] == q[i];
                    assert(before(s[k].name, s[s.len() - 1].name));
                }
            }
        }
        assert forall|y: ToolView| #[trigger] r.contains(y) <==> (s.contains(y) || y == x) by {
            if r.contains(y) {
                let i = choose|i: int| 0 <= i < r.len() && r[i] == y;
                if i < q.len() {
                    assert(q.contains(y));
                    if y != x {
                        let k = choose|k: int| 0 <= k < t.len() && t[k] == y;
                        assert(s[k] == y);
                    }
                } else {
                    assert(s[s.len() - 1] == y);
                }
            }
            if s.contains(y) {
                let i = choose|i: int| 0 <= i < s.len() && s[i] == y;
                if i < t.len() {
                    assert(t[i] == y);
                    assert(q.contains(y));
                    let k = choose|k: int| 0 <= k < q.len() && q[k] == y;
                    assert(r[k] == y);
                } else {
                    assert(r[q.len() as int] == y);
                }
            }
            if y == x {
                assert(q.contains(y));
                let k = choose|k: int| 0 <= k < q.len() && q[k] == y;
                assert(r[k] == y);
            }
        }
    }
}

proof fn lemma_by_name_sorts(s: Seq<ToolView>)
    requires
        distinct_names(s),
    ensures
        ascending_names(by_name(s)),
        forall|y: ToolView| #[trigger] by_name(s).contains(y) <==> s.contains(y),
        by_name(s).len() == s.len(),
    decreases s.len(),
{
    if s.len() > 0 {
        let t = s.drop_last();
        lemma_by_name_sorts(t);
        let q = by_name(t);
        assert forall|i: int| 0 <= i < q.len() implies (#[trigger] q[i]).name != s.last().name by {
            assert(q.contains(q[i]));
            let k = choose|k: int| 0 <= k < t.len() && t[k] == q[i];
            assert(s[k].name != s[s.len() - 1].name);
        }
        lemma_insert_sorted(q, s.last());
        assert forall|y: ToolView| #[trigger] by_name(s).contains(y) <==> s.contains(y) by {
            if s.contains(y) {
                let i = choose|i: int| 0 <= i < s.len() && s[i] == y;
                if i < t.len() {
                    assert(t[i] == y);
                    assert(t.contains(y));
                }
            }
            if t.contains(y) {
                let k = choose|k: int| 0 <= k < t.len() && t[k] == y;
                assert(s[k] == y);
            }
            if y == s.last() {
                assert(s[s.len() - 1] == y);
            }
        }
    }
}

proof fn lemma_ascending_unique(a: Seq<ToolView>, b: Seq<ToolView>)
    requires
        ascending_names(a),
        ascending_names(b),
        a.len() == b.len(),
        forall|y: ToolView| a.contains(y) <==> b.contains(y),
    ensures
        a == b,
    decreases a.len(),
{
    if a.len() > 0 {
        let x = a.last();
        let y = b.last();
        assert(a.contains(x)) by {
            assert(a[a.len() - 1] == x);
        }
        assert(b.contains(y)) by {
            assert(b[b.len() - 1] == y);
        }
        let i = choose|i: int| 0 <= i < b.len() && b[i] == x;
        let j = choose|j: int| 0 <= j < a.len() && a[j] == y;
        if i < b.len() - 1 && j < a.len() - 1 {
            assert(before(b[i].name, b[b.len() - 1].name));
            assert(before(a[j].name, a[a.len() - 1].name));
            assert(x.name.take(0) =~= y.name.take(0));
            lemma_before_total(x.name, y.name, 0);
        }
        assert(x == y);
        let s = a.drop_last();
        let t = b.drop_last();
        assert forall|z: ToolView| s.contains(z) <==> t.contains(z) by {
            if s.contains(z) {
                let k = choose|k: int| 0 <= k < s.len() && s[k] == z;
                assert(a[k] == z);
                assert(a.contains(z));
                let m = choose|m: int| 0 <= m < b.len() && b[m] == z;
                if m == b.len() - 1 {
                    assert(before(a[k].name, a[a.len() - 1].name));
                    assert(z.name.take(0) =~= z.name.take(0));
                    lemma_before_total(z.name, z.name, 0);
                }
                assert(t[m] == z);
            }
            if t.contains(z) {
                let k = choose|k: int| 0 <= k < t.len() && t[k] == z;
                assert(b[k] == z);
                assert(b.contains(z));
                let m = choose|m: int| 0 <= m < a.len() && a[m] == z;
                if m == a.len() - 1 {
                    assert(before(b[k].name, b[b.len() - 1].name));
                    assert(z.name.take(0) =~= z.name.take(0));
                    lemma_before_total(z.name, z.name, 0);
                }
                assert(s[m] == z);
            }
        }
        lemma_ascending_unique(s, t);
        assert(a =~= s.push(x));
        assert(b =~= t.push(y));
    }
}

/// The envelopes do not depend on the order in which tools are sent: two lists
/// of the same tools, each name once, have the same envelopes.
pub proof fn law_envelopes_ignore_tool_order(a: Seq<ToolView>, b: Seq<ToolView>)
    requires
        distinct_names(a),
        distinct_names(b),
        a.len() == b.len(),
        forall|y: ToolView| a.contains(y) <==> b.contains(y),
    ensures
        envelopes(a) == envelopes(b),
{
    lemma_by_name_sorts(a);
    lemma_by_name_sorts(b);
    lemma_ascending_unique(by_name(a), by_name(b));
}

/// A message's text is its text parts in order, each behind a line break but the
/// first; parts of another kind add nothing.
pub proof fn law_text_parts_are_lines(p: Seq<(Seq<char>, Seq<char>)>, x: (Seq<char>, Seq<char>))
    ensures
        x.0 != "text"@ ==> content_text(ContentView::Parts(p.push(x))) == content_text(
            ContentView::Parts(p),
        ),
        x.0 == "text"@ && text_parts(p).len() > 0 ==> content_text(ContentView::Parts(p.push(x)))
            == content_text(ContentView::Parts(p)) + seq!['\n'] + x.1,
        x.0 == "text"@ && text_parts(p).len() == 0 ==> content_text(ContentView::Parts(p.push(x)))
            == x.1,
        text_parts(Seq::empty()).len() == 0,
        text_parts(p.push(x)).len() == text_parts(p).len() + (if x.0 == "text"@ {
            1nat
        } else {
            0
        }),
{
    assert(p.push(x).drop_last() =~= p);
    if x.0 == "text"@ {
        reveal_strlit("\n");
        assert("\n"@ =~= seq!['\n']);
        lemma_join_push(text_parts(p), x.1, "\n"@);
    }
}

proof fn lemma_join_push(parts: Seq<Seq<char>>, x: Seq<char>, sep: Seq<char>)
    ensures
        parts.len() > 0 ==> join(parts.push(x), sep) == join(parts, sep) + sep + x,
        parts.len() == 0 ==> join(parts.push(x), sep) == x,
    decreases parts.len(),
{
    reveal_with_fuel(join, 2);
    if parts.len() == 0 {
        law_parts_are_joined_in_order(x, Seq::empty(), sep);
        assert(parts.push(x) =~= seq![x] + Seq::<Seq<char>>::empty());
    } else {
        let rest = parts.skip(1);
        lemma_join_push(rest, x, sep);
        law_parts_are_joined_in_order(parts[0], rest, sep);
        law_parts_are_joined_in_order(parts[0], rest.push(x), sep);
        assert(parts =~= seq![parts[0]] + rest);
        assert(parts.push(x) =~= seq![parts[0]] + rest.push(x));
        if rest.len() > 0 {
            assert(parts[0] + sep + (join(rest, sep) + sep + x) =~= parts[0] + sep + join(rest, sep)
                + sep + x);
        }
    }
}

proof fn lemma_spaced_push(s: Seq<char>, c: char, i: int)
    requires
        0 <= i <= s.len(),
    ensures
        ({
            let r = reader_at(s, 0, i);
            let e = reader_at(s, 0, s.len() as int);
            spaced_from(s.push(c), i, r.in_string, r.escaped) == spaced_from(
                s,
                i,
                r.in_string,
                r.escaped,
            ) + (if !e.in_string && (c == ',' || c == ':') {
                seq![c, ' ']
            } else {
                seq![c]
            })
        }),
    decreases s.len() - i,
{
    let r = reader_at(s, 0, i);
    let t = s.push(c);
    if i < s.len() {
        lemma_spaced_push(s, c, i + 1);
        let n = reader_at(s, 0, i + 1);
        assert(n == read_on(r, s[i]));
        lemma_reader_escapes(s, 0, i);
        assert(t[i] == s[i]);
        let own = if !r.in_string && (s[i] == ',' || s[i] == ':') {
            seq![s[i], ' ']
        } else {
            seq![s[i]]
        };
        let e = reader_at(s, 0, s.len() as int);
        let more = if !e.in_string && (c == ',' || c == ':') {
            seq![c, ' ']
        } else {
            seq![c]
        };
        assert(spaced_from(s, i, r.in_string, r.escaped) == own + spaced_from(
            s,
            i + 1,
            n.in_string,
            n.escaped,
        ));
        assert(spaced_from(t, i, r.in_string, r.escaped) == own + spaced_from(
            t,
            i + 1,
            n.in_string,
            n.escaped,
        ));
        assert(own + (spaced_from(s, i + 1, n.in_string, n.escaped) + more) =~= own + spaced_from(
            s,
            i + 1,
            n.in_string,
            n.escaped,
        ) + more);
    } else {
        assert(t[i] == c);
        reveal_with_fuel(spaced_from, 2);
        let more = if !r.in_string && (c == ',' || c == ':') {
            seq![c, ' ']
        } else {
            seq![c]
        };
        assert(more + Seq::<char>::empty() =~= more);
        assert(Seq::<char>::empty() + more =~= more);
    }
}

proof fn lemma_reader_escapes(s: Seq<char>, from: int, n: int)
    ensures
        reader_at(s, from, n).escaped ==> reader_at(s, from, n).in_string,
{
}

/// JSON text gains a space behind each comma and colon that stands in no string,
/// and is the same otherwise.
pub proof fn law_separators_gain_a_space(s: Seq<char>, c: char)
    ensures
        spaced(Seq::empty()).len() == 0,
        spaced(s.push(c)) == spaced(s) + (if (c == ',' || c == ':') && !reader_at(
            s,
            0,
            s.len() as int,
        ).in_string {
            seq![c, ' ']
        } else {
            seq![c]
        }),
{
    lemma_spaced_push(s, c, 0);
}

proof fn lemma_insert_keeps(s: Seq<ToolView>, x: ToolView)
    ensures
        insert_tool(s, x).to_multiset() == s.to_multiset().insert(x),
    decreases s.len(),
{
    broadcast use vstd::seq_lib::group_to_multiset_ensures;
    if s.len() == 0 || !before(x.name, s.last().name) {
    } else {
        lemma_insert_keeps(s.drop_last(), x);
        assert(s =~= s.drop_last().push(s.last()));
    }
}

/// Every tool is there once by name as it was before, whether names repeat or not,
/// and tools of different names stand in the order of the names.
pub proof fn law_tools_are_sorted_by_name(s: Seq<ToolView>)
    ensures
        by_name(s).to_multiset() == s.to_multiset(),
        distinct_names(s) ==> forall|i: int, j: int|
            0 <= i < j < by_name(s).len() ==> before(
                #[trigger] by_name(s)[i].name,
                #[trigger] by_name(s)[j].name,
            ),
        envelopes(s).len() == by_name(s).len(),
        forall|i: int|
            0 <= i < by_name(s).len() ==> #[trigger] envelopes(s)[i] == envelope(by_name(s)[i]),
    decreases s.len(),
{
    broadcast use vstd::seq_lib::group_to_multiset_ensures;
    if s.len() > 0 {
        law_tools_are_sorted_by_name(s.drop_last());
        lemma_insert_keeps(by_name(s.drop_last()), s.last());
        assert(s =~= s.drop_last().push(s.last()));
    }
    if distinct_names(s) {
        lemma_by_name_sorts(s);
    }
}

/// A tool's envelope is the spaced text of its name, description and parameters.
pub proof fn law_an_envelope_names_its_tool(t: ToolView) -> (v: Tree)
    ensures
        envelope(t) == spaced(json_text(v)),
        member_of(v, "name"@) == Some(Tree::Str(t.name)),
        member_of(v, "description"@) == Some(Tree::Str(t.description)),
        member_of(v, "parameters"@) == Some(t.parameters),
{
    lemma_envelope_keys();
    Tree::Obj(
        Map::<Seq<char>, Tree>::empty().insert("name"@, Tree::Str(t.name)).insert(
            "description"@,
            Tree::Str(t.description),
        ).insert("parameters"@, t.parameters),
    )
}

/// The keys of an envelope differ.
pub proof fn lemma_envelope_keys()
    ensures
        "name"@ != "description"@ && "name"@ != "parameters"@ && "description"@ != "parameters"@,
        "type"@ != "properties"@,
{
    reveal_strlit("name");
    reveal_strlit("description");
    reveal_strlit("parameters");
    reveal_strlit("type");
    reveal_strlit("properties");
    assert("name"@.len() == 4 && "description"@.len() == 11 && "parameters"@.len() == 10);
    assert("type"@.len() == 4 && "properties"@.len() == 10);
}

/// The thinking channel is what the template's arguments say of it, and is left
/// open where there are none or they do not say.
pub proof fn law_thinking_is_what_is_asked(req: ChatCompletionRequest)
    ensures
        req.chat_template_kwargs is None ==> thinking(req) is None,
        req.chat_template_kwargs matches Some(v) ==> match member_of(tree(v), "enable_thinking"@) {
            Some(Tree::Bool(b)) => thinking(req) == Some(b),
            _ => thinking(req) is None,
        },
{
}

} // verus!
