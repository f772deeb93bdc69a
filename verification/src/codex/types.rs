//! Requests, resources and events of the Responses protocol.

use vstd::prelude::*;
use vstd::string::*;

use crate::json::{
    get_str, json_text, member, member_of, str_member, string, to_text, tree, Object, Tree,
};
use crate::serving::streaming::obj;
use crate::serving::types::{lemma_envelope_keys, texts};
use crate::text::same;

verus! {

// ---------------------------------------------------------------------------
// Requests
// ---------------------------------------------------------------------------

/// The body of a request, without the sampling temperatures that only the
/// sampler reads.
pub struct CreateResponseBody {
    pub model: String,
    pub input: InputBody,
    pub stream: bool,
    pub max_output_tokens: Option<usize>,
    pub instructions: Option<String>,
    /// The client's session key, by which snapshots are grouped.
    pub prompt_cache_key: Option<String>,
    /// Tools of any type. Those that a chat template cannot render are skipped.
    pub tools: Vec<serde_json::Value>,
}

/// A bare string, which is one user message, or a list of items.
pub enum InputBody {
    Text(String),
    Items(Vec<LooseInputItem>),
}

/// An input item.
#[allow(inconsistent_fields)]
pub enum InputItem {
    Message(InputMessage),
    FunctionCall(InputFunctionCall),
    FunctionCallOutput(InputFunctionCallOutput),
    /// Echoed reasoning, which is not rendered.
    Reasoning { id: Option<String> },
    ItemReference { id: String },
    /// A type this server does not understand, which is skipped.
    Other,
}

/// An input item whose type may be left out, which makes it a message.
pub enum LooseInputItem {
    Tagged(InputItem),
    UntaggedMessage(InputMessage),
}

/// The item that a loose one is.
pub open spec fn tightened(v: LooseInputItem) -> InputItem {
    match v {
        LooseInputItem::Tagged(it) => it,
        LooseInputItem::UntaggedMessage(m) => InputItem::Message(m),
    }
}

impl vstd::std_specs::convert::FromSpecImpl<LooseInputItem> for InputItem {
    open spec fn obeys_from_spec() -> bool {
        true
    }

    open spec fn from_spec(v: LooseInputItem) -> InputItem {
        tightened(v)
    }
}

impl From<LooseInputItem> for InputItem {
    fn from(v: LooseInputItem) -> (r: InputItem) {
        match v {
            LooseInputItem::Tagged(it) => it,
            LooseInputItem::UntaggedMessage(m) => InputItem::Message(m),
        }
    }
}

impl InputBody {
    /// The items of an input.
    pub open spec fn items(self) -> Seq<InputItem> {
        match self {
            InputBody::Items(v) => v@.map_values(|x: LooseInputItem| tightened(x)),
            InputBody::Text(s) => seq![
                InputItem::Message(
                    InputMessage {
                        id: None,
                        role: Role::User,
                        content: MessageContent::Text(s),
                        status: None,
                    },
                ),
            ],
        }
    }

    /// The items of an input, a bare string as a single user message.
    pub fn into_items(self) -> (r: Vec<InputItem>)
        ensures
            r@ == self.items(),
    {
        match self {
            InputBody::Items(v) => {
                let ghost all = v@;
                let mut out: Vec<InputItem> = Vec::new();
                for x in it: v.into_iter()
                    invariant
                        it.seq() == all,
                        out@ == all.take(it.index()).map_values(
                            |x: LooseInputItem| tightened(x),
                        ),
                {
                    proof {
                        assert(all.take(it.index() + 1) =~= all.take(it.index()).push(x));
                    }
                    out.push(InputItem::from(x));
                    proof {
                        assert(out@ =~= all.take(it.index() + 1).map_values(
                            |x: LooseInputItem| tightened(x),
                        ));
                    }
                }
                proof {
                    assert(all.take(all.len() as int) =~= all);
                }
                out
            },
            InputBody::Text(s) => {
                let mut out: Vec<InputItem> = Vec::new();
                out.push(
                    InputItem::Message(
                        InputMessage {
                            id: None,
                            role: Role::User,
                            content: MessageContent::Text(s),
                            status: None,
                        },
                    ),
                );
                proof {
                    assert(out@ =~= (InputBody::Text(s)).items());
                }
                out
            },
        }
    }
}

/// A call of an earlier turn.
pub struct InputFunctionCall {
    pub id: Option<String>,
    pub call_id: String,
    pub name: String,
    pub arguments: String,
    pub status: Option<String>,
}

/// The result of a call.
pub struct InputFunctionCallOutput {
    pub call_id: String,
    pub output: FunctionCallOutputPayload,
}

/// A bare string, or a list of parts.
pub enum FunctionCallOutputPayload {
    Text(String),
    Parts(Vec<serde_json::Value>),
}

/// The texts of the first `n` parts.
pub open spec fn part_texts(parts: Seq<serde_json::Value>, n: int) -> Seq<char>
    decreases n,
{
    if n <= 0 {
        Seq::empty()
    } else {
        part_texts(parts, n - 1) + match str_member(tree(parts[n - 1]), "text"@) {
            Some(t) => t,
            None => Seq::empty(),
        }
    }
}

impl InputFunctionCallOutput {
    /// The text of a result.
    pub open spec fn said(self) -> Seq<char> {
        match self.output {
            FunctionCallOutputPayload::Text(s) => s@,
            FunctionCallOutputPayload::Parts(p) => part_texts(p@, p@.len() as int),
        }
    }

    /// The text of a result: that of its parts in order, parts without text left
    /// out.
    pub fn output_text(&self) -> (r: String)
        ensures
            r@ == self.said(),
    {
        match &self.output {
            FunctionCallOutputPayload::Text(s) => s.clone(),
            FunctionCallOutputPayload::Parts(parts) => {
                let mut out = String::new();
                let mut i: usize = 0;
                while i < parts.len()
                    invariant
                        i <= parts@.len(),
                        out@ == part_texts(parts@, i as int),
                    decreases parts.len() - i,
                {
                    match get_str(&parts[i], "text") {
                        Some(t) => {
                            out.append(t);
                        },
                        None => {
                            proof {
                                assert(out@ + Seq::<char>::empty() =~= out@);
                            }
                        },
                    }
                    i += 1;
                }
                out
            },
        }
    }
}

/// A message.
pub struct InputMessage {
    pub id: Option<String>,
    pub role: Role,
    pub content: MessageContent,
    pub status: Option<String>,
}

/// The text of a role.
pub open spec fn role_text(role: Role) -> Seq<char> {
    match role {
        Role::System => "system"@,
        Role::User => "user"@,
        Role::Assistant => "assistant"@,
        Role::Developer => "developer"@,
    }
}

impl InputMessage {
    /// Whether the assistant said it.
    pub fn is_assistant(&self) -> (r: bool)
        ensures
            r == (self.role == Role::Assistant),
    {
        self.role == Role::Assistant
    }

    /// The text of its role.
    pub fn role_str(&self) -> (r: &'static str)
        ensures
            r@ == role_text(self.role),
    {
        match self.role {
            Role::System => "system",
            Role::User => "user",
            Role::Assistant => "assistant",
            Role::Developer => "developer",
        }
    }
}

#[derive(Clone, Copy, Debug, PartialEq, Eq, Structural)]
pub enum Role {
    System,
    User,
    Assistant,
    Developer,
}

/// A string, or a list of parts.
pub enum MessageContent {
    Text(String),
    Parts(Vec<ContentPart>),
}

/// A part of a message. Parts that are no text are skipped.
pub enum ContentPart {
    InputText { text: String },
    OutputText { text: String, annotations: Vec<Annotation> },
    Other,
}

/// An annotation on output text.
pub struct Annotation {
    pub annotation_type: String,
}

/// The text of a part, none of another part.
pub open spec fn part_text(p: ContentPart) -> Seq<char> {
    match p {
        ContentPart::InputText { text } => text@,
        ContentPart::OutputText { text, annotations } => text@,
        ContentPart::Other => Seq::empty(),
    }
}

/// The text of the first `n` parts.
pub open spec fn parts_text(p: Seq<ContentPart>, n: int) -> Seq<char>
    decreases n,
{
    if n <= 0 {
        Seq::empty()
    } else {
        parts_text(p, n - 1) + part_text(p[n - 1])
    }
}

impl MessageContent {
    /// The text of a content.
    pub open spec fn said(self) -> Seq<char> {
        match self {
            MessageContent::Text(s) => s@,
            MessageContent::Parts(p) => parts_text(p@, p@.len() as int),
        }
    }

    /// The text of a content: that of its parts in order.
    pub fn as_text(&self) -> (r: String)
        ensures
            r@ == self.said(),
    {
        match self {
            MessageContent::Text(s) => s.clone(),
            MessageContent::Parts(parts) => {
                let mut out = String::new();
                let mut i: usize = 0;
                while i < parts.len()
                    invariant
                        i <= parts@.len(),
                        out@ == parts_text(parts@, i as int),
                    decreases parts.len() - i,
                {
                    match &parts[i] {
                        ContentPart::InputText { text } => {
                            out.append(text.as_str());
                        },
                        ContentPart::OutputText { text, annotations: _ } => {
                            out.append(text.as_str());
                        },
                        ContentPart::Other => {
                            proof {
                                assert(out@ + Seq::<char>::empty() =~= out@);
                            }
                        },
                    }
                    i += 1;
                }
                out
            },
        }
    }
}

// ---------------------------------------------------------------------------
// Tools
// ---------------------------------------------------------------------------

/// The schema of a tool that takes no parameter.
pub open spec fn no_parameters() -> Tree {
    Tree::Obj(
        obj().insert("type"@, Tree::Str("object"@)).insert("properties"@, Tree::Obj(obj())),
    )
}

/// The envelope of a tool: its name, description and parameters. A tool of
/// another type than a function, or without a name, has none.
pub open spec fn envelope(t: Tree) -> Option<Seq<char>> {
    let ty = match str_member(t, "type"@) {
        Some(s) => s,
        None => "function"@,
    };
    match str_member(t, "name"@) {
        Some(name) => if ty != "function"@ {
            None
        } else {
            Some(
                json_text(
                    Tree::Obj(
                        obj().insert("name"@, Tree::Str(name)).insert(
                            "description"@,
                            Tree::Str(
                                match str_member(t, "description"@) {
                                    Some(d) => d,
                                    None => ""@,
                                },
                            ),
                        ).insert(
                            "parameters"@,
                            match member_of(t, "parameters"@) {
                                Some(p) => p,
                                None => no_parameters(),
                            },
                        ),
                    ),
                ),
            )
        },
        None => None,
    }
}

/// The envelopes of the first `n` tools.
pub open spec fn envelopes(tools: Seq<serde_json::Value>, n: int) -> Seq<Seq<char>>
    decreases n,
{
    if n <= 0 {
        Seq::empty()
    } else {
        match envelope(tree(tools[n - 1])) {
            Some(e) => envelopes(tools, n - 1).push(e),
            None => envelopes(tools, n - 1),
        }
    }
}

fn tool_envelope(t: &serde_json::Value) -> (r: Option<String>)
    ensures
        match r {
            Some(e) => envelope(tree(*t)) == Some(e@),
            None => envelope(tree(*t)) is None,
        },
{
    let is_function = match get_str(t, "type") {
        Some(ty) => same(ty, "function"),
        None => true,
    };
    match get_str(t, "name") {
        Some(name) => {
            if !is_function {
                return None;
            }
            let mut o = Object::new();
            o.put("name", string(name));
            o.put(
                "description",
                match get_str(t, "description") {
                    Some(d) => string(d),
                    None => string(""),
                },
            );
            o.put(
                "parameters",
                match member(t, "parameters") {
                    Some(p) => p.clone(),
                    None => {
                        let mut e = Object::new();
                        e.put("type", string("object"));
                        e.put("properties", Object::new().build());
                        e.build()
                    },
                },
            );
            let v = o.build();
            Some(to_text(&v))
        },
        None => None,
    }
}

/// The envelopes of the function tools, in order; tools of other types are
/// skipped.
pub fn function_tool_envelopes(tools: &[serde_json::Value]) -> (r: Vec<String>)
    ensures
        texts(r@) == envelopes(tools@, tools@.len() as int),
{
    let mut out: Vec<String> = Vec::new();
    let mut i: usize = 0;
    proof {
        assert(texts(out@) =~= Seq::empty());
    }
    while i < tools.len()
        invariant
            i <= tools@.len(),
            texts(out@) == envelopes(tools@, i as int),
        decreases tools.len() - i,
    {
        let ghost before = out@;
        match tool_envelope(&tools[i]) {
            Some(e) => {
                out.push(e);
                proof {
                    assert(texts(out@) =~= texts(before).push(e@));
                }
            },
            None => {},
        }
        i += 1;
    }
    out
}

// ---------------------------------------------------------------------------
// Responses
// ---------------------------------------------------------------------------

/// The whole response.
pub struct ResponseResource {
    pub id: String,
    /// Always `response`.
    pub object: String,
    pub created_at: i64,
    pub completed_at: Option<i64>,
    pub status: ResponseStatus,
    pub incomplete_details: Option<IncompleteDetails>,
    pub model: String,
    pub output: Vec<OutputItem>,
    pub error: Option<ErrorPayload>,
    pub usage: Option<Usage>,
    /// What became of the snapshots, for whoever debugs the server.
    pub debug: Option<String>,
}

impl ResponseResource {
    /// A response in progress.
    pub fn new(id: String, model: String, created_at: i64) -> (r: ResponseResource)
        ensures
            r.id == id,
            r.object@ == "response"@,
            r.created_at == created_at,
            r.completed_at is None,
            r.status == ResponseStatus::InProgress,
            r.incomplete_details is None,
            r.model == model,
            r.output@.len() == 0,
            r.error is None,
            r.usage is None,
            r.debug is None,
    {
        ResponseResource {
            id,
            object: "response".to_owned(),
            created_at,
            completed_at: None,
            status: ResponseStatus::InProgress,
            incomplete_details: None,
            model,
            output: Vec::new(),
            error: None,
            usage: None,
            debug: None,
        }
    }
}

/// Why a response stopped early.
pub struct IncompleteDetails {
    pub reason: String,
}

#[derive(Clone, Copy, Debug, PartialEq, Eq, Structural)]
pub enum ResponseStatus {
    Queued,
    InProgress,
    Completed,
    Failed,
    Incomplete,
}

/// A produced item.
pub enum OutputItem {
    Message(OutputMessage),
    FunctionCall(OutputFunctionCall),
}

/// A produced call.
pub struct OutputFunctionCall {
    pub id: String,
    pub call_id: String,
    pub name: String,
    pub arguments: String,
    pub status: ItemStatus,
}

/// A produced message.
pub struct OutputMessage {
    pub id: String,
    pub role: Role,
    pub status: ItemStatus,
    pub content: Vec<OutputContentPart>,
}

/// A part of a produced message.
pub enum OutputContentPart {
    OutputText { text: String, annotations: Vec<Annotation> },
}

#[derive(Clone, Copy, Debug, PartialEq, Eq, Structural)]
pub enum ItemStatus {
    InProgress,
    Completed,
    Incomplete,
}

/// Token counts. The cached ones were restored instead of prefilled.
#[derive(Clone, Copy, Debug, PartialEq, Eq, Structural)]
pub struct Usage {
    pub input_tokens: u32,
    pub input_tokens_details: InputTokensDetails,
    pub output_tokens: u32,
    pub output_tokens_details: OutputTokensDetails,
    pub total_tokens: u32,
}

#[derive(Clone, Copy, Debug, PartialEq, Eq, Structural)]
pub struct InputTokensDetails {
    pub cached_tokens: u32,
}

#[derive(Clone, Copy, Debug, PartialEq, Eq, Structural)]
pub struct OutputTokensDetails {
    pub reasoning_tokens: u32,
}

/// An error.
pub struct ErrorPayload {
    pub error_type: String,
    pub code: Option<String>,
    pub message: String,
    pub param: Option<String>,
}

// ---------------------------------------------------------------------------
// Events
// ---------------------------------------------------------------------------

/// An event with its type and its place in the stream.
pub struct StreamingEvent<T> {
    pub event_type: String,
    pub sequence_number: u32,
    pub data: T,
}

/// The response was created.
pub struct ResponseCreatedData {
    pub response: ResponseResource,
}

/// The response is in progress; also the keepalive.
pub struct ResponseInProgressData {
    pub response: ResponseResource,
}

/// The response is complete.
pub struct ResponseCompletedData {
    pub response: ResponseResource,
}

/// An item was added.
pub struct OutputItemAddedData {
    pub output_index: u32,
    pub item: OutputItem,
}

/// An item is done.
pub struct OutputItemDoneData {
    pub output_index: u32,
    pub item: OutputItem,
}

/// A part of an item was added.
pub struct ContentPartAddedData {
    pub item_id: String,
    pub output_index: u32,
    pub content_index: u32,
    pub part: OutputContentPart,
}

/// A part of an item is done.
pub struct ContentPartDoneData {
    pub item_id: String,
    pub output_index: u32,
    pub content_index: u32,
    pub part: OutputContentPart,
}

/// More text.
pub struct OutputTextDeltaData {
    pub item_id: String,
    pub output_index: u32,
    pub content_index: u32,
    pub delta: String,
}

/// The text is done.
pub struct OutputTextDoneData {
    pub item_id: String,
    pub output_index: u32,
    pub content_index: u32,
    pub text: String,
}

/// A plain text is one message of the user's; items are themselves, a loose one
/// being a message.
pub proof fn law_an_input_is_its_items(b: InputBody, i: int)
    ensures
        b matches InputBody::Text(s) ==> b.items().len() == 1 && b.items()[0] is Message
            && b.items()[0]->Message_0.role == Role::User && b.items()[0]->Message_0.content.said()
            == s@,
        b matches InputBody::Items(v) ==> b.items().len() == v@.len() && (0 <= i < v@.len() ==> match v@[i] {
            LooseInputItem::Tagged(it) => b.items()[i] == it,
            LooseInputItem::UntaggedMessage(m) => b.items()[i] == InputItem::Message(m),
        }),
{
}

proof fn lemma_part_texts_prefix(a: Seq<serde_json::Value>, b: Seq<serde_json::Value>, n: int)
    requires
        n <= a.len(),
        n <= b.len(),
        forall|i: int| 0 <= i < n ==> a[i] == b[i],
    ensures
        part_texts(a, n) == part_texts(b, n),
    decreases n,
{
    if n > 0 {
        lemma_part_texts_prefix(a, b, n - 1);
    }
}

proof fn lemma_parts_text_prefix(a: Seq<ContentPart>, b: Seq<ContentPart>, n: int)
    requires
        n <= a.len(),
        n <= b.len(),
        forall|i: int| 0 <= i < n ==> a[i] == b[i],
    ensures
        parts_text(a, n) == parts_text(b, n),
    decreases n,
{
    if n > 0 {
        lemma_parts_text_prefix(a, b, n - 1);
    }
}

/// The text of a result or of a message is the texts of its parts, one behind the
/// other: a part with a text adds it, any other adds nothing.
pub proof fn law_parts_add_their_text(
    parts: Seq<serde_json::Value>,
    v: serde_json::Value,
    p: Seq<ContentPart>,
    x: ContentPart,
)
    ensures
        part_texts(Seq::empty(), 0).len() == 0,
        part_texts(parts.push(v), parts.len() as int + 1) == (match member_of(tree(v), "text"@) {
            Some(Tree::Str(s)) => part_texts(parts, parts.len() as int) + s,
            _ => part_texts(parts, parts.len() as int),
        }),
        parts_text(Seq::empty(), 0).len() == 0,
        parts_text(p.push(x), p.len() as int + 1) == (match x {
            ContentPart::InputText { text } => parts_text(p, p.len() as int) + text@,
            ContentPart::OutputText { text, annotations } => parts_text(p, p.len() as int) + text@,
            ContentPart::Other => parts_text(p, p.len() as int),
        }),
{
    lemma_part_texts_prefix(parts.push(v), parts, parts.len() as int);
    lemma_parts_text_prefix(p.push(x), p, p.len() as int);
    assert(part_texts(parts, parts.len() as int) + Seq::<char>::empty() =~= part_texts(
        parts,
        parts.len() as int,
    ));
    assert(parts_text(p, p.len() as int) + Seq::<char>::empty() =~= parts_text(p, p.len() as int));
}

/// Each role has a name of its own.
pub proof fn law_a_role_has_one_name(a: Role, b: Role)
    ensures
        role_text(a) == role_text(b) <==> a == b,
        role_text(Role::User) == "user"@ && role_text(Role::Assistant) == "assistant"@ && role_text(
            Role::System,
        ) == "system"@ && role_text(Role::Developer) == "developer"@,
{
    reveal_strlit("system");
    reveal_strlit("user");
    reveal_strlit("assistant");
    reveal_strlit("developer");
    assert("system"@.len() == 6 && "user"@.len() == 4 && "assistant"@.len() == 9
        && "developer"@.len() == 9);
    assert("assistant"@[0] != "developer"@[0]);
}

/// A tool has an envelope exactly where it is a function, or of no type, and has a
/// name. The envelope has the name, the description, empty where there is none,
/// and the parameters, an object without properties where there are none.
pub proof fn law_an_envelope_names_its_tool(t: Tree, name: Seq<char>) -> (v: Tree)
    ensures
        envelope(t) is Some <==> (str_member(t, "type"@) is None || str_member(t, "type"@) == Some(
            "function"@,
        )) && str_member(t, "name"@) is Some,
        envelope(t) is Some ==> envelope(t) == Some(json_text(v)) && str_member(v, "name"@)
            == str_member(t, "name"@) && str_member(v, "name"@) is Some,
        str_member(t, "description"@) is Some ==> str_member(v, "description"@) == str_member(
            t,
            "description"@,
        ),
        str_member(t, "description"@) is None ==> str_member(v, "description"@) == Some(""@),
        member_of(t, "parameters"@) is Some ==> member_of(v, "parameters"@) == member_of(
            t,
            "parameters"@,
        ),
        member_of(t, "parameters"@) is None ==> member_of(v, "parameters"@) is Some && str_member(
            member_of(v, "parameters"@)->0,
            "type"@,
        ) == Some("object"@) && member_of(member_of(v, "parameters"@)->0, "properties"@) == Some(
            Tree::Obj(Map::empty()),
        ),
{
    lemma_envelope_keys();
    Tree::Obj(
        obj().insert(
            "name"@,
            Tree::Str(
                match str_member(t, "name"@) {
                    Some(s) => s,
                    None => ""@,
                },
            ),
        ).insert(
            "description"@,
            Tree::Str(
                match str_member(t, "description"@) {
                    Some(d) => d,
                    None => ""@,
                },
            ),
        ).insert(
            "parameters"@,
            match member_of(t, "parameters"@) {
                Some(p) => p,
                None => no_parameters(),
            },
        ),
    )
}

proof fn lemma_envelopes_prefix(a: Seq<serde_json::Value>, b: Seq<serde_json::Value>, n: int)
    requires
        n <= a.len(),
        n <= b.len(),
        forall|i: int| 0 <= i < n ==> a[i] == b[i],
    ensures
        envelopes(a, n) == envelopes(b, n),
    decreases n,
{
    if n > 0 {
        lemma_envelopes_prefix(a, b, n - 1);
    }
}

/// The envelopes are those of the tools that have one, in order.
pub proof fn law_every_function_has_its_envelope(tools: Seq<serde_json::Value>, t: serde_json::Value)
    ensures
        envelopes(Seq::empty(), 0).len() == 0,
        envelopes(tools.push(t), tools.len() as int + 1) == (match envelope(tree(t)) {
            Some(e) => envelopes(tools, tools.len() as int).push(e),
            None => envelopes(tools, tools.len() as int),
        }),
{
    lemma_envelopes_prefix(tools.push(t), tools, tools.len() as int);
}

} // verus!
