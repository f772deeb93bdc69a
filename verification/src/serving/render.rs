//! The rendering plan: a chat message list as a sequence of template
//! operations, engine-free.

use vstd::prelude::*;
use vstd::string::*;

use crate::serving::types::{
    calls_view, envelopes, message_text, messages_view, opt_view, texts, thinking,
    tool_schema_envelopes, tools_view, CallView, ChatCompletionRequest, ChatMessage, MessageView,
    ToolCallIn,
};
use crate::text::{cat2, same};

verus! {

/// Where a replayed assistant turn sits, which decides whether the template
/// opens it with a reasoning block.
#[derive(Clone, Copy, Debug, PartialEq, Eq, Structural)]
pub struct TurnPos {
    /// After the conversation's last user query.
    pub after_query: bool,
    /// The final message before the generation cue.
    pub is_last: bool,
}

/// One template operation.
#[derive(Debug, PartialEq, Eq)]
pub enum RenderOp {
    /// The leading system message folded into one turn with the tool schemas.
    EquipAfterSystem { system: Option<String>, tools: Vec<String> },
    User(String),
    Assistant(String, TurnPos),
    /// `content` is `None` where the wire carried an empty or no string.
    AssistantWithToolCalls {
        content: Option<String>,
        calls: Vec<(String, String)>,
        pos: TurnPos,
    },
    /// Consecutive tool results as one turn, each with the name of the call it
    /// answers (empty for an unknown id).
    AnswerBatch(Vec<(String, String)>),
    /// The generation cue, always last, with the template's thinking switch.
    Cue(bool),
}

/// Why a conversation has no rendering plan.
#[derive(Debug, PartialEq, Eq)]
pub enum RenderError {
    UnsupportedRole(String),
    /// A system message anywhere but first.
    MisplacedSystem,
}

// ---------------------------------------------------------------------------
// Views
// ---------------------------------------------------------------------------

/// The contents of a [`RenderOp`].
pub enum OpView {
    EquipAfterSystem { system: Option<Seq<char>>, tools: Seq<Seq<char>> },
    User(Seq<char>),
    Assistant(Seq<char>, TurnPos),
    AssistantWithToolCalls {
        content: Option<Seq<char>>,
        calls: Seq<(Seq<char>, Seq<char>)>,
        pos: TurnPos,
    },
    AnswerBatch(Seq<(Seq<char>, Seq<char>)>),
    Cue(bool),
}

/// The contents of a list of string pairs.
pub open spec fn pairs_view(v: Seq<(String, String)>) -> Seq<(Seq<char>, Seq<char>)> {
    v.map_values(|p: (String, String)| (p.0@, p.1@))
}

impl View for RenderOp {
    type V = OpView;

    open spec fn view(&self) -> OpView {
        match *self {
            RenderOp::EquipAfterSystem { system, tools } => OpView::EquipAfterSystem {
                system: opt_view(system),
                tools: texts(tools@),
            },
            RenderOp::User(s) => OpView::User(s@),
            RenderOp::Assistant(s, p) => OpView::Assistant(s@, p),
            RenderOp::AssistantWithToolCalls { content, calls, pos } => {
                OpView::AssistantWithToolCalls {
                    content: opt_view(content),
                    calls: pairs_view(calls@),
                    pos,
                }
            },
            RenderOp::AnswerBatch(b) => OpView::AnswerBatch(pairs_view(b@)),
            RenderOp::Cue(t) => OpView::Cue(t),
        }
    }
}

/// The contents of a plan.
pub open spec fn ops_view(v: Seq<RenderOp>) -> Seq<OpView> {
    v.map_values(|o: RenderOp| o@)
}

/// The contents of a [`RenderError`].
pub enum ErrorView {
    UnsupportedRole(Seq<char>),
    MisplacedSystem,
}

impl View for RenderError {
    type V = ErrorView;

    open spec fn view(&self) -> ErrorView {
        match *self {
            RenderError::UnsupportedRole(r) => ErrorView::UnsupportedRole(r@),
            RenderError::MisplacedSystem => ErrorView::MisplacedSystem,
        }
    }
}

/// The contents of a planning result.
pub open spec fn result_view(r: Result<Vec<RenderOp>, RenderError>) -> Result<
    Seq<OpView>,
    ErrorView,
> {
    match r {
        Ok(ops) => Ok(ops_view(ops@)),
        Err(e) => Err(e@),
    }
}

impl RenderError {
    /// The wording of the error.
    pub fn message(&self) -> (r: String)
        ensures
            r@ == (match self@ {
                ErrorView::UnsupportedRole(role) => "unsupported message role: "@ + role,
                ErrorView::MisplacedSystem => "system message only supported as the first message"@,
            }),
    {
        match self {
            RenderError::UnsupportedRole(role) => cat2("unsupported message role: ", role.as_str()),
            RenderError::MisplacedSystem => "system message only supported as the first message".to_owned(),
        }
    }
}

// ---------------------------------------------------------------------------
// The plan
// ---------------------------------------------------------------------------

/// A system or developer message.
pub open spec fn is_system(m: MessageView) -> bool {
    m.role == "system"@ || m.role == "developer"@
}

/// The names of calls by id, with those of the first `n` of `calls` added, a
/// later one winning.
pub open spec fn add_calls(
    names: Map<Seq<char>, Seq<char>>,
    calls: Seq<CallView>,
    n: int,
) -> Map<Seq<char>, Seq<char>>
    decreases n,
{
    if n <= 0 {
        names
    } else {
        add_calls(names, calls, n - 1).insert(calls[n - 1].id, calls[n - 1].name)
    }
}

/// The names with every call of a message added.
pub open spec fn with_calls(names: Map<Seq<char>, Seq<char>>, m: MessageView) -> Map<
    Seq<char>,
    Seq<char>,
> {
    add_calls(names, m.calls, m.calls.len() as int)
}

/// The name of the call that a tool result answers, empty for an unknown id.
pub open spec fn answered(names: Map<Seq<char>, Seq<char>>, id: Option<Seq<char>>) -> Seq<char> {
    match id {
        Some(i) => if names.contains_key(i) {
            names[i]
        } else {
            Seq::empty()
        },
        None => Seq::empty(),
    }
}

/// The position of the last user message among the first `n`, -1 where there
/// is none.
pub open spec fn last_user(m: Seq<MessageView>, n: int) -> int
    decreases n,
{
    if n <= 0 {
        -1
    } else if m[n - 1].role == "user"@ {
        n - 1
    } else {
        last_user(m, n - 1)
    }
}

/// The end of the run of tool messages that starts at `i`.
pub open spec fn tool_run(m: Seq<MessageView>, i: int) -> int
    decreases m.len() - i,
{
    if 0 <= i < m.len() && m[i].role == "tool"@ {
        tool_run(m, i + 1)
    } else {
        i
    }
}

/// The tool results from `a` up to `b`, each with the name it answers.
pub open spec fn batch(
    m: Seq<MessageView>,
    a: int,
    b: int,
    names: Map<Seq<char>, Seq<char>>,
) -> Seq<(Seq<char>, Seq<char>)> {
    Seq::new(
        (b - a) as nat,
        |k: int| (answered(names, m[a + k].call_id), message_text(m[a + k])),
    )
}

/// The operation of an assistant message at `i`.
pub open spec fn assistant_op(m: Seq<MessageView>, i: int) -> OpView {
    let pos = TurnPos {
        after_query: i > last_user(m, m.len() as int),
        is_last: i + 1 == m.len(),
    };
    let text = message_text(m[i]);
    if m[i].calls.len() == 0 {
        OpView::Assistant(text, pos)
    } else {
        OpView::AssistantWithToolCalls {
            content: if text.len() == 0 {
                None
            } else {
                Some(text)
            },
            calls: Seq::new(
                m[i].calls.len(),
                |k: int| (m[i].calls[k].name, m[i].calls[k].arguments),
            ),
            pos,
        }
    }
}

/// `op` in front of a planned rest.
pub open spec fn then_ops(
    op: OpView,
    rest: Result<Seq<OpView>, ErrorView>,
) -> Result<Seq<OpView>, ErrorView> {
    match rest {
        Ok(ops) => Ok(seq![op] + ops),
        Err(e) => Err(e),
    }
}

/// The operations of the messages from `i` on, with the call names known.
pub open spec fn walk(
    m: Seq<MessageView>,
    i: int,
    names: Map<Seq<char>, Seq<char>>,
) -> Result<Seq<OpView>, ErrorView>
    decreases m.len() - i,
    via walk_decreases
{
    if i < 0 || i >= m.len() {
        Ok(Seq::empty())
    } else if is_system(m[i]) {
        Err(ErrorView::MisplacedSystem)
    } else if m[i].role == "user"@ {
        then_ops(OpView::User(message_text(m[i])), walk(m, i + 1, names))
    } else if m[i].role == "assistant"@ {
        then_ops(assistant_op(m, i), walk(m, i + 1, with_calls(names, m[i])))
    } else if m[i].role == "tool"@ {
        let end = tool_run(m, i);
        then_ops(OpView::AnswerBatch(batch(m, i, end, names)), walk(m, end, names))
    } else {
        Err(ErrorView::UnsupportedRole(m[i].role))
    }
}

#[via_fn]
proof fn walk_decreases(m: Seq<MessageView>, i: int, names: Map<Seq<char>, Seq<char>>) {
    if 0 <= i < m.len() && m[i].role == "tool"@ {
        lemma_tool_run(m, i + 1);
    }
}

pub(crate) proof fn lemma_tool_run(m: Seq<MessageView>, i: int)
    requires
        0 <= i <= m.len(),
    ensures
        i <= tool_run(m, i) <= m.len(),
    decreases m.len() - i,
{
    if i < m.len() && m[i].role == "tool"@ {
        lemma_tool_run(m, i + 1);
    }
}

/// The messages behind a leading system message.
pub open spec fn body(m: Seq<MessageView>) -> Seq<MessageView> {
    if m.len() > 0 && is_system(m[0]) {
        m.skip(1)
    } else {
        m
    }
}

/// The plan of a message list: a leading system message folded with the
/// schemas, then the turns, then the cue.
pub open spec fn plan(
    m: Seq<MessageView>,
    schemas: Seq<Seq<char>>,
    names: Map<Seq<char>, Seq<char>>,
    think: bool,
) -> Result<Seq<OpView>, ErrorView> {
    let lead = m.len() > 0 && is_system(m[0]);
    match walk(body(m), 0, names) {
        Ok(ops) => Ok(
            (if lead || schemas.len() > 0 {
                seq![
                    OpView::EquipAfterSystem {
                        system: if lead {
                            Some(message_text(m[0]))
                        } else {
                            None
                        },
                        tools: schemas,
                    },
                ]
            } else {
                Seq::empty()
            }) + ops + seq![OpView::Cue(think)],
        ),
        Err(e) => Err(e),
    }
}

/// The names of the calls of the first `n` messages, whatever their role.
pub open spec fn names_of(m: Seq<MessageView>, n: int) -> Map<Seq<char>, Seq<char>>
    decreases n,
{
    if n <= 0 {
        Map::empty()
    } else {
        with_calls(names_of(m, n - 1), m[n - 1])
    }
}

/// The plan of turns that do not start a conversation: a system message among them
/// is misplaced, wherever it stands.
pub open spec fn later_plan(m: Seq<MessageView>, names: Map<Seq<char>, Seq<char>>, think: bool) -> Result<
    Seq<OpView>,
    ErrorView,
> {
    match walk(m, 0, names) {
        Ok(ops) => Ok(ops + seq![OpView::Cue(think)]),
        Err(e) => Err(e),
    }
}

/// The plan of the messages from `split` on, with call names from those before
/// it. Only what starts the conversation may be a system message.
pub open spec fn suffix_plan(m: Seq<MessageView>, split: int, think: bool) -> Result<
    Seq<OpView>,
    ErrorView,
> {
    let s = if split <= m.len() {
        split
    } else {
        m.len() as int
    };
    if s > 0 {
        later_plan(m.skip(s), names_of(m, s), think)
    } else {
        plan(m, Seq::empty(), Map::empty(), think)
    }
}

// ---------------------------------------------------------------------------
// Call names
// ---------------------------------------------------------------------------

struct Names {
    entries: Vec<(String, String)>,
}

spec fn entries_map(e: Seq<(String, String)>) -> Map<Seq<char>, Seq<char>>
    decreases e.len(),
{
    if e.len() == 0 {
        Map::empty()
    } else {
        entries_map(e.drop_last()).insert(e.last().0@, e.last().1@)
    }
}

impl Names {
    spec fn map(&self) -> Map<Seq<char>, Seq<char>> {
        entries_map(self.entries@)
    }

    fn new() -> (r: Names)
        ensures
            r.map() == Map::<Seq<char>, Seq<char>>::empty(),
    {
        Names { entries: Vec::new() }
    }

    fn insert(&mut self, id: String, name: String)
        ensures
            final(self).map() == old(self).map().insert(id@, name@),
    {
        let ghost before = self.entries@;
        self.entries.push((id, name));
        proof {
            assert(self.entries@.drop_last() =~= before);
        }
    }

    fn add(&mut self, m: &ChatMessage)
        ensures
            final(self).map() == with_calls(old(self).map(), m@),
    {
        let calls = m.calls();
        let mut k: usize = 0;
        while k < calls.len()
            invariant
                k <= calls@.len(),
                calls_view(calls@) == m@.calls,
                self.map() == add_calls(old(self).map(), m@.calls, k as int),
            decreases calls.len() - k,
        {
            proof {
                assert(m@.calls[k as int] == calls@[k as int]@);
            }
            self.insert(calls[k].id.clone(), calls[k].function.name.clone());
            k += 1;
        }
    }

    fn answered(&self, id: &Option<String>) -> (r: String)
        ensures
            r@ == answered(self.map(), opt_view(*id)),
    {
        match id {
            Some(want) => {
                let mut k: usize = self.entries.len();
                proof {
                    assert(self.entries@.take(k as int) =~= self.entries@);
                }
                while k > 0
                    invariant
                        k <= self.entries@.len(),
                        opt_view(*id) == Some(want@),
                        answered(self.map(), Some(want@)) == answered(
                            entries_map(self.entries@.take(k as int)),
                            Some(want@),
                        ),
                    decreases k,
                {
                    proof {
                        assert(self.entries@.take(k as int).drop_last() =~= self.entries@.take(
                            k - 1,
                        ));
                    }
                    if same(self.entries[k - 1].0.as_str(), want.as_str()) {
                        return self.entries[k - 1].1.clone();
                    }
                    k -= 1;
                }
                String::new()
            },
            None => String::new(),
        }
    }
}

// ---------------------------------------------------------------------------
// Planning
// ---------------------------------------------------------------------------

fn call_pairs(calls: &[ToolCallIn]) -> (r: Vec<(String, String)>)
    ensures
        pairs_view(r@) == Seq::new(
            calls@.len(),
            |k: int| (calls@[k].function.name@, calls@[k].function.arguments@),
        ),
{
    let mut r: Vec<(String, String)> = Vec::new();
    let mut k: usize = 0;
    while k < calls.len()
        invariant
            k <= calls@.len(),
            r@.len() == k,
            forall|j: int|
                0 <= j < k ==> (#[trigger] r@[j]).0@ == calls@[j].function.name@ && r@[j].1@
                    == calls@[j].function.arguments@,
        decreases calls.len() - k,
    {
        r.push((calls[k].function.name.clone(), calls[k].function.arguments.clone()));
        k += 1;
    }
    proof {
        assert(pairs_view(r@) =~= Seq::new(
            calls@.len(),
            |k: int| (calls@[k].function.name@, calls@[k].function.arguments@),
        ));
    }
    r
}

fn find_last_user(m: &[ChatMessage], from: usize) -> (r: Option<usize>)
    requires
        from <= m@.len(),
    ensures
        ({
            let rest = messages_view(m@).skip(from as int);
            last_user(rest, rest.len() as int) == (match r {
                Some(i) => i as int,
                None => -1,
            })
        }),
{
    let ghost rest = messages_view(m@).skip(from as int);
    let mut n: usize = m.len() - from;
    while n > 0
        invariant
            from + n <= m.len(),
            rest == messages_view(m@).skip(from as int),
            last_user(rest, rest.len() as int) == last_user(rest, n as int),
        decreases n,
    {
        proof {
            assert(rest[n - 1] == m@[from + n - 1]@);
        }
        if same(m[from + n - 1].role.as_str(), "user") {
            return Some(n - 1);
        }
        n -= 1;
    }
    None
}

fn is_system_role(role: &str) -> (r: bool)
    ensures
        r == (role@ == "system"@ || role@ == "developer"@),
{
    same(role, "system") || same(role, "developer")
}

fn take_batch(messages: &[ChatMessage], from: usize, i: usize, names: &Names) -> (r: (
    Vec<(String, String)>,
    usize,
))
    requires
        from + i < messages@.len(),
        messages@[from + i].role@ == "tool"@,
    ensures
        ({
            let rest = messages_view(messages@).skip(from as int);
            &&& r.1 == tool_run(rest, i as int)
            &&& i < r.1 <= rest.len()
            &&& pairs_view(r.0@) == batch(rest, i as int, r.1 as int, names.map())
        }),
{
    let ghost rest = messages_view(messages@).skip(from as int);
    let n: usize = messages.len() - from;
    let mut results: Vec<(String, String)> = Vec::new();
    let mut k: usize = i;
    let mut open: bool = true;
    while k < n && open
        invariant
            from + n == messages.len(),
            i <= k <= n,
            rest == messages_view(messages@).skip(from as int),
            rest.len() == n,
            tool_run(rest, i as int) == tool_run(rest, k as int),
            !open ==> tool_run(rest, k as int) == k,
            results@.len() == k - i,
            forall|j: int|
                0 <= j < k - i ==> (#[trigger] results@[j]).0@ == answered(
                    names.map(),
                    rest[i + j].call_id,
                ) && results@[j].1@ == message_text(rest[i + j]),
        decreases n - k + (if open { 1int } else { 0int }),
    {
        let t = &messages[from + k];
        proof {
            assert(rest[k as int] == t@);
        }
        if same(t.role.as_str(), "tool") {
            results.push((names.answered(&t.tool_call_id), t.text()));
            k += 1;
        } else {
            open = false;
        }
    }
    proof {
        assert(rest[i as int] == messages@[from + i]@);
        assert(tool_run(rest, i as int) == tool_run(rest, i + 1));
        lemma_tool_run(rest, i + 1);
        assert(pairs_view(results@) =~= batch(rest, i as int, k as int, names.map()));
    }
    (results, k)
}

fn assistant_of(messages: &[ChatMessage], from: usize, i: usize, last_query: Option<usize>) -> (r:
    RenderOp)
    requires
        from + i < messages@.len(),
        ({
            let rest = messages_view(messages@).skip(from as int);
            last_user(rest, rest.len() as int) == (match last_query {
                Some(q) => q as int,
                None => -1,
            })
        }),
    ensures
        r@ == assistant_op(messages_view(messages@).skip(from as int), i as int),
{
    let ghost rest = messages_view(messages@).skip(from as int);
    let n: usize = messages.len() - from;
    let msg = &messages[from + i];
    let calls = msg.calls();
    proof {
        assert(rest[i as int] == msg@);
        assert(calls_view(calls@).len() == calls@.len());
    }
    let pos = TurnPos {
        after_query: match last_query {
            Some(q) => i > q,
            None => true,
        },
        is_last: i + 1 == n,
    };
    if calls.len() == 0 {
        RenderOp::Assistant(msg.text(), pos)
    } else {
        let pairs = call_pairs(calls);
        proof {
            let mv = msg@;
            assert(pairs_view(pairs@) =~= Seq::new(
                mv.calls.len(),
                |k: int| (mv.calls[k].name, mv.calls[k].arguments),
            )) by {
                assert forall|k: int| 0 <= k < mv.calls.len() implies pairs_view(pairs@)[k] == (
                    mv.calls[k].name,
                    mv.calls[k].arguments,
                ) by {
                    assert(mv.calls[k] == calls@[k]@);
                }
            }
        }
        RenderOp::AssistantWithToolCalls { content: msg.text_opt(), calls: pairs, pos }
    }
}

/// What is left of a walk: the operations found so far in front of the rest.
spec fn walked(
    whole: Result<Seq<OpView>, ErrorView>,
    found: Seq<OpView>,
    rest: Result<Seq<OpView>, ErrorView>,
) -> bool {
    match whole {
        Ok(w) => rest is Ok && w == found + rest->Ok_0,
        Err(e) => rest == Err::<Seq<OpView>, ErrorView>(e),
    }
}

proof fn lemma_walked_step(
    whole: Result<Seq<OpView>, ErrorView>,
    found: Seq<OpView>,
    op: OpView,
    rest: Result<Seq<OpView>, ErrorView>,
)
    requires
        walked(whole, found, then_ops(op, rest)),
    ensures
        walked(whole, found.push(op), rest),
{
    if let Ok(w) = rest {
        assert(found + (seq![op] + w) =~= found.push(op) + w);
    }
}

fn plan_turns(messages: &[ChatMessage], from: usize, seed: Names) -> (r: Result<
    Vec<RenderOp>,
    RenderError,
>)
    requires
        from <= messages@.len(),
    ensures
        result_view(r) == walk(messages_view(messages@).skip(from as int), 0, seed.map()),
{
    let ghost rest = messages_view(messages@).skip(from as int);
    let ghost whole = walk(rest, 0, seed.map());
    let mut names = seed;
    let mut ops: Vec<RenderOp> = Vec::new();
    let last_query = find_last_user(messages, from);
    let n: usize = messages.len() - from;
    let mut i: usize = 0;
    proof {
        assert(ops_view(ops@) =~= Seq::empty());
        if let Ok(w) = whole {
            assert(Seq::<OpView>::empty() + w =~= w);
        }
    }
    while i < n
        invariant
            from + n == messages.len(),
            i <= n,
            rest == messages_view(messages@).skip(from as int),
            rest.len() == n,
            whole == walk(rest, 0, seed.map()),
            last_user(rest, rest.len() as int) == (match last_query {
                Some(q) => q as int,
                None => -1,
            }),
            walked(whole, ops_view(ops@), walk(rest, i as int, names.map())),
        decreases n - i,
    {
        let msg = &messages[from + i];
        let ghost before = ops_view(ops@);
        proof {
            assert(rest[i as int] == msg@);
        }
        if is_system_role(msg.role.as_str()) {
            return Err(RenderError::MisplacedSystem);
        } else if same(msg.role.as_str(), "user") {
            ops.push(RenderOp::User(msg.text()));
            proof {
                let op = OpView::User(message_text(msg@));
                assert(ops_view(ops@) =~= before.push(op));
                lemma_walked_step(whole, before, op, walk(rest, i + 1, names.map()));
            }
            i += 1;
        } else if same(msg.role.as_str(), "assistant") {
            let op = assistant_of(messages, from, i, last_query);
            names.add(msg);
            ops.push(op);
            proof {
                assert(ops_view(ops@) =~= before.push(op@));
                lemma_walked_step(whole, before, op@, walk(rest, i + 1, names.map()));
            }
            i += 1;
        } else if same(msg.role.as_str(), "tool") {
            let (results, k) = take_batch(messages, from, i, &names);
            let ghost op = OpView::AnswerBatch(pairs_view(results@));
            ops.push(RenderOp::AnswerBatch(results));
            proof {
                assert(ops_view(ops@) =~= before.push(op));
                lemma_walked_step(whole, before, op, walk(rest, k as int, names.map()));
            }
            i = k;
        } else {
            return Err(RenderError::UnsupportedRole(msg.role.clone()));
        }
    }
    proof {
        assert(ops_view(ops@) + Seq::<OpView>::empty() =~= ops_view(ops@));
    }
    Ok(ops)
}

fn plan_from(
    messages: &[ChatMessage],
    tool_schemas: Vec<String>,
    seed: Names,
    think: bool,
) -> (r: Result<Vec<RenderOp>, RenderError>)
    ensures
        result_view(r) == plan(
            messages_view(messages@),
            texts(tool_schemas@),
            seed.map(),
            think,
        ),
{
    let ghost all = messages_view(messages@);
    let ghost schemas = texts(tool_schemas@);
    let lead = messages.len() > 0 && is_system_role(messages[0].role.as_str());
    proof {
        assert(schemas.len() == tool_schemas@.len());
        if messages@.len() > 0 {
            assert(all[0] == messages@[0]@);
        }
    }
    let from: usize = if lead {
        1
    } else {
        0
    };
    proof {
        assert(messages_view(messages@).skip(from as int) =~= body(all));
    }
    let mut turns = match plan_turns(messages, from, seed) {
        Ok(t) => t,
        Err(e) => {
            return Err(e);
        },
    };
    let ghost w = ops_view(turns@);
    let mut ops: Vec<RenderOp> = Vec::new();
    if lead || tool_schemas.len() > 0 {
        let system = if lead {
            Some(messages[0].text())
        } else {
            None
        };
        ops.push(RenderOp::EquipAfterSystem { system, tools: tool_schemas });
    }
    let ghost head = ops_view(ops@);
    proof {
        assert(head =~= (if lead || schemas.len() > 0 {
            seq![
                OpView::EquipAfterSystem {
                    system: if lead {
                        Some(message_text(all[0]))
                    } else {
                        None
                    },
                    tools: schemas,
                },
            ]
        } else {
            Seq::empty()
        }));
    }
    ops.append(&mut turns);
    ops.push(RenderOp::Cue(think));
    proof {
        assert(ops_view(ops@) =~= head + w + seq![OpView::Cue(think)]);
    }
    Ok(ops)
}

/// The plan of a request's whole conversation.
pub fn plan_render(req: &ChatCompletionRequest) -> (r: Result<Vec<RenderOp>, RenderError>)
    ensures
        result_view(r) == plan(
            messages_view(req.messages@),
            envelopes(tools_view(req.tools@)),
            Map::empty(),
            thinking(*req) == Some(true),
        ),
{
    plan_render_messages_with(
        req.messages.as_slice(),
        tool_schema_envelopes(req.tools.as_slice()),
        req.thinking_requested(),
    )
}

/// The plan of a message list with its schema envelopes, without thinking.
pub fn plan_render_messages(messages: &[ChatMessage], tool_schemas: Vec<String>) -> (r: Result<
    Vec<RenderOp>,
    RenderError,
>)
    ensures
        result_view(r) == plan(
            messages_view(messages@),
            texts(tool_schemas@),
            Map::empty(),
            false,
        ),
{
    plan_render_messages_with(messages, tool_schemas, false)
}

/// The plan of a message list with its schema envelopes.
pub fn plan_render_messages_with(
    messages: &[ChatMessage],
    tool_schemas: Vec<String>,
    thinking: bool,
) -> (r: Result<Vec<RenderOp>, RenderError>)
    ensures
        result_view(r) == plan(
            messages_view(messages@),
            texts(tool_schemas@),
            Map::empty(),
            thinking,
        ),
{
    plan_from(messages, tool_schemas, Names::new(), thinking)
}

/// The plan of the messages from `split` on, without thinking.
pub fn plan_render_suffix(messages: &[ChatMessage], split: usize) -> (r: Result<
    Vec<RenderOp>,
    RenderError,
>)
    ensures
        result_view(r) == suffix_plan(messages_view(messages@), split as int, false),
{
    plan_render_suffix_with(messages, split, false)
}

/// The plan of the messages from `split` on. A tool result in the suffix may
/// answer a call in the retained prefix, so call names are taken from it. A system
/// message is folded only where it starts the conversation; in a suffix behind its
/// beginning it is misplaced.
pub fn plan_render_suffix_with(messages: &[ChatMessage], split: usize, thinking: bool) -> (r: Result<
    Vec<RenderOp>,
    RenderError,
>)
    ensures
        result_view(r) == suffix_plan(messages_view(messages@), split as int, thinking),
{
    let ghost view = messages_view(messages@);
    let s: usize = if split <= messages.len() {
        split
    } else {
        messages.len()
    };
    let mut names = Names::new();
    let mut i: usize = 0;
    while i < s
        invariant
            i <= s <= messages@.len(),
            view == messages_view(messages@),
            names.map() == names_of(view, i as int),
        decreases s - i,
    {
        proof {
            assert(view[i as int] == messages@[i as int]@);
        }
        names.add(&messages[i]);
        i += 1;
    }
    if s == 0 {
        let none: Vec<String> = Vec::new();
        proof {
            assert(texts(none@) =~= Seq::empty());
        }
        return plan_render_messages_with(messages, none, thinking);
    }
    let mut ops = match plan_turns(messages, s, names) {
        Ok(t) => t,
        Err(e) => {
            return Err(e);
        },
    };
    let ghost w = ops_view(ops@);
    ops.push(RenderOp::Cue(thinking));
    proof {
        assert(ops_view(ops@) =~= w + seq![OpView::Cue(thinking)]);
    }
    Ok(ops)
}

// ---------------------------------------------------------------------------
// A suffix renders as it does in full
// ---------------------------------------------------------------------------

/// The call names known when a walk from `i` reaches `s`: those of the
/// assistant turns between.
pub open spec fn names_at(
    m: Seq<MessageView>,
    i: int,
    s: int,
    names: Map<Seq<char>, Seq<char>>,
) -> Map<Seq<char>, Seq<char>>
    decreases s - i,
{
    if i >= s {
        names
    } else if m[i].role == "assistant"@ {
        names_at(m, i + 1, s, with_calls(names, m[i]))
    } else {
        names_at(m, i + 1, s, names)
    }
}

/// How many messages the plan folds in front of the turns.
pub open spec fn folded(m: Seq<MessageView>) -> int {
    if m.len() > 0 && is_system(m[0]) {
        1
    } else {
        0
    }
}

/// The call names a full plan knows at `split`.
pub open spec fn planned_names(m: Seq<MessageView>, split: int) -> Map<Seq<char>, Seq<char>> {
    names_at(body(m), 0, split - folded(m), Map::empty())
}

/// A batch of tool results does not span `split`.
pub open spec fn splits_no_batch(m: Seq<MessageView>, split: int) -> bool {
    0 < split < m.len() ==> !(m[split - 1].role == "tool"@ && m[split].role == "tool"@)
}

pub(crate) proof fn lemma_roles()
    ensures
        "assistant"@ != "tool"@,
        "assistant"@ != "system"@,
        "assistant"@ != "developer"@,
        "assistant"@ != "user"@,
        "tool"@ != "system"@,
        "tool"@ != "developer"@,
        "tool"@ != "user"@,
        "user"@ != "system"@,
        "user"@ != "developer"@,
{
    reveal_strlit("assistant");
    reveal_strlit("tool");
    reveal_strlit("system");
    reveal_strlit("developer");
    reveal_strlit("user");
    assert("assistant"@.len() == 9 && "tool"@.len() == 4 && "system"@.len() == 6
        && "developer"@.len() == 9 && "user"@.len() == 4);
    assert("assistant"@[0] != "developer"@[0]);
    assert("tool"@[0] != "user"@[0]);
}

pub(crate) proof fn lemma_run_is_tools(m: Seq<MessageView>, i: int)
    requires
        0 <= i <= m.len(),
    ensures
        forall|j: int| i <= j < tool_run(m, i) ==> (#[trigger] m[j]).role == "tool"@,
    decreases m.len() - i,
{
    if i < m.len() && m[i].role == "tool"@ {
        lemma_run_is_tools(m, i + 1);
    }
}

proof fn lemma_names_through_tools(
    m: Seq<MessageView>,
    i: int,
    e: int,
    s: int,
    names: Map<Seq<char>, Seq<char>>,
)
    requires
        0 <= i <= e <= s,
        forall|j: int| i <= j < e ==> (#[trigger] m[j]).role == "tool"@,
    ensures
        names_at(m, i, s, names) == names_at(m, e, s, names),
    decreases e - i,
{
    lemma_roles();
    if i < e {
        assert(m[i].role == "tool"@);
        lemma_names_through_tools(m, i + 1, e, s, names);
    }
}

/// What a walk from `i` finds ends with what it finds from `s` on.
proof fn lemma_walk_tail(
    m: Seq<MessageView>,
    i: int,
    s: int,
    names: Map<Seq<char>, Seq<char>>,
)
    requires
        0 <= i <= s <= m.len(),
        i < s && s < m.len() ==> !(m[s - 1].role == "tool"@ && m[s].role == "tool"@),
        walk(m, i, names) is Ok,
    ensures
        ({
            let whole = walk(m, i, names)->Ok_0;
            let rest = walk(m, s, names_at(m, i, s, names));
            &&& rest is Ok
            &&& rest->Ok_0.len() <= whole.len()
            &&& whole.skip(whole.len() - rest->Ok_0.len()) == rest->Ok_0
        }),
    decreases s - i,
{
    lemma_roles();
    let whole = walk(m, i, names)->Ok_0;
    if i == s {
        assert(whole.skip(0) =~= whole);
    } else if m[i].role == "user"@ {
        lemma_walk_tail(m, i + 1, s, names);
        let inner = walk(m, i + 1, names)->Ok_0;
        let rest = walk(m, s, names_at(m, i, s, names))->Ok_0;
        assert(whole.skip(whole.len() - rest.len()) =~= inner.skip(inner.len() - rest.len()));
    } else if m[i].role == "assistant"@ {
        lemma_walk_tail(m, i + 1, s, with_calls(names, m[i]));
        let inner = walk(m, i + 1, with_calls(names, m[i]))->Ok_0;
        let rest = walk(m, s, names_at(m, i, s, names))->Ok_0;
        assert(whole.skip(whole.len() - rest.len()) =~= inner.skip(inner.len() - rest.len()));
    } else {
        let e = tool_run(m, i);
        lemma_tool_run(m, i + 1);
        lemma_run_is_tools(m, i);
        if s < e {
            assert(m[s].role == "tool"@);
            assert(m[s - 1].role == "tool"@);
        }
        lemma_names_through_tools(m, i, e, s, names);
        lemma_walk_tail(m, e, s, names);
        let inner = walk(m, e, names)->Ok_0;
        let rest = walk(m, s, names_at(m, i, s, names))->Ok_0;
        assert(whole.skip(whole.len() - rest.len()) =~= inner.skip(inner.len() - rest.len()));
    }
}

proof fn lemma_last_user_skip(m: Seq<MessageView>, s: int, n: int)
    requires
        0 <= s <= n <= m.len(),
    ensures
        last_user(m.skip(s), n - s) == (if last_user(m, n) >= s {
            last_user(m, n) - s
        } else {
            -1
        }),
        last_user(m, n) < n,
    decreases n,
{
    if n > s {
        assert(m.skip(s)[n - s - 1] == m[n - 1]);
        if m[n - 1].role != "user"@ {
            lemma_last_user_skip(m, s, n - 1);
        }
    } else {
        lemma_last_user_below(m, n);
    }
}

proof fn lemma_last_user_below(m: Seq<MessageView>, n: int)
    requires
        0 <= n <= m.len(),
    ensures
        -1 <= last_user(m, n) < n || last_user(m, n) == -1,
    decreases n,
{
    if n > 0 && m[n - 1].role != "user"@ {
        lemma_last_user_below(m, n - 1);
    }
}

proof fn lemma_tool_run_skip(m: Seq<MessageView>, s: int, j: int)
    requires
        0 <= s,
        0 <= j,
        s + j <= m.len(),
    ensures
        tool_run(m.skip(s), j) + s == tool_run(m, s + j),
    decreases m.len() - s - j,
{
    if s + j < m.len() {
        assert(m.skip(s)[j] == m[s + j]);
        if m[s + j].role == "tool"@ {
            lemma_tool_run_skip(m, s, j + 1);
        }
    }
}

/// A walk over a suffix finds what the walk over the whole finds there.
proof fn lemma_walk_skip(m: Seq<MessageView>, s: int, j: int, names: Map<Seq<char>, Seq<char>>)
    requires
        0 <= s,
        0 <= j,
        s + j <= m.len(),
    ensures
        walk(m.skip(s), j, names) == walk(m, s + j, names),
    decreases m.len() - s - j,
{
    lemma_roles();
    let t = m.skip(s);
    if s + j < m.len() {
        assert(t[j] == m[s + j]);
        if is_system(m[s + j]) {
        } else if m[s + j].role == "user"@ {
            lemma_walk_skip(m, s, j + 1, names);
        } else if m[s + j].role == "assistant"@ {
            lemma_walk_skip(m, s, j + 1, with_calls(names, m[s + j]));
            lemma_last_user_skip(m, s, m.len() as int);
            lemma_last_user_below(m, m.len() as int);
            assert(assistant_op(t, j) == assistant_op(m, s + j));
        } else if m[s + j].role == "tool"@ {
            let e = tool_run(t, j);
            lemma_tool_run_skip(m, s, j);
            lemma_tool_run(m, s + j + 1);
            assert(tool_run(m, s + j) == tool_run(m, s + j + 1));
            assert(batch(t, j, e, names) =~= batch(m, s + j, s + e, names));
            lemma_walk_skip(m, s, e, names);
        }
    }
}

/// Resuming renders the same operations as rendering in full: where a full
/// plan exists and `split` does not cut a batch of tool results, the plan of
/// the messages behind `split` is the tail of the full plan, as long as the
/// calls before `split` are named alike (which they are where only assistant
/// turns carry calls).
pub proof fn law_a_suffix_renders_as_in_full(
    m: Seq<MessageView>,
    schemas: Seq<Seq<char>>,
    split: int,
    think: bool,
)
    requires
        folded(m) <= split <= m.len(),
        splits_no_batch(m, split),
        names_of(m, split) == planned_names(m, split),
        plan(m, schemas, Map::empty(), think) is Ok,
    ensures
        ({
            let full = plan(m, schemas, Map::empty(), think)->Ok_0;
            let suffix = suffix_plan(m, split, think);
            &&& suffix is Ok
            &&& suffix->Ok_0.len() <= full.len()
            &&& full.skip(full.len() - suffix->Ok_0.len()) == suffix->Ok_0
        }),
{
    lemma_roles();
    let rest = body(m);
    let s = split - folded(m);
    let names = planned_names(m, split);
    assert(rest.skip(s) =~= m.skip(split));
    if s > 0 && s < rest.len() {
        assert(rest[s - 1] == m[split - 1]);
        assert(rest[s] == m[split]);
    }
    lemma_walk_tail(rest, 0, s, Map::empty());
    lemma_walk_skip(rest, s, 0, names);
    if split == 0 {
        assert(rest.skip(0) =~= m);
    }
    let full = plan(m, schemas, Map::empty(), think)->Ok_0;
    let whole = walk(rest, 0, Map::empty())->Ok_0;
    let part = walk(rest, s, names)->Ok_0;
    let cue = seq![OpView::Cue(think)];
    assert(suffix_plan(m, split, think)->Ok_0 =~= part + cue);
    assert(full.skip(full.len() - (part + cue).len()) =~= whole.skip(whole.len() - part.len())
        + cue);
}

/// The messages from `i` up to `n` are turns: none is a system message, and each
/// role is known.
pub open spec fn are_turns(m: Seq<MessageView>, i: int, n: int) -> bool {
    forall|k: int|
        i <= k < n ==> (#[trigger] m[k]).role == "user"@ || m[k].role == "assistant"@ || m[k].role
            == "tool"@
}

/// What a walk fails with does not depend on the call names it knows, nor on where
/// among the turns it starts.
proof fn lemma_walk_fails_alike(
    m: Seq<MessageView>,
    i: int,
    s: int,
    a: Map<Seq<char>, Seq<char>>,
    b: Map<Seq<char>, Seq<char>>,
)
    requires
        0 <= i <= s <= m.len(),
        are_turns(m, i, s),
    ensures
        match walk(m, i, a) {
            Ok(_) => walk(m, s, b) is Ok,
            Err(e) => walk(m, s, b) == Err::<Seq<OpView>, ErrorView>(e),
        },
    decreases m.len() - i, s - i,
{
    lemma_roles();
    if i < m.len() {
        let known = m[i].role == "user"@ || m[i].role == "assistant"@ || m[i].role == "tool"@;
        if i < s {
            assert(known);
        }
        if m[i].role == "tool"@ {
            let e = tool_run(m, i);
            lemma_tool_run(m, i + 1);
            lemma_run_is_tools(m, i);
            if e <= s {
                lemma_walk_fails_alike(m, e, s, a, b);
            } else {
                lemma_run_ends_alike(m, i, s);
                lemma_walk_fails_alike(m, e, e, a, b);
            }
        } else if !known {
        } else {
            let next = if m[i].role == "assistant"@ {
                with_calls(a, m[i])
            } else {
                a
            };
            if i < s {
                lemma_walk_fails_alike(m, i + 1, s, next, b);
            } else {
                let other = if m[i].role == "assistant"@ {
                    with_calls(b, m[i])
                } else {
                    b
                };
                lemma_walk_fails_alike(m, i + 1, i + 1, next, other);
            }
        }
    }
}

proof fn lemma_run_ends_alike(m: Seq<MessageView>, i: int, s: int)
    requires
        0 <= i <= s < tool_run(m, i),
        i <= m.len(),
    ensures
        tool_run(m, s) == tool_run(m, i),
        s < m.len(),
        m[s].role == "tool"@,
    decreases s - i,
{
    if i < s {
        lemma_run_ends_alike(m, i + 1, s);
    }
}

/// A suffix fails as the whole does: where the messages before `split` are turns,
/// the plan behind it is an error exactly where the full plan is one, and the same.
/// So a late system message is misplaced in either.
pub proof fn law_a_suffix_fails_as_in_full(
    m: Seq<MessageView>,
    schemas: Seq<Seq<char>>,
    split: int,
    think: bool,
)
    requires
        folded(m) <= split <= m.len(),
        are_turns(m, folded(m), split),
    ensures
        match plan(m, schemas, Map::empty(), think) {
            Ok(_) => suffix_plan(m, split, think) is Ok,
            Err(e) => suffix_plan(m, split, think) == Err::<Seq<OpView>, ErrorView>(e),
        },
{
    let rest = body(m);
    let s = split - folded(m);
    let names = names_of(m, split);
    assert(rest.skip(s) =~= m.skip(split));
    assert forall|k: int| 0 <= k < s implies (#[trigger] rest[k]).role == "user"@ || rest[k].role
        == "assistant"@ || rest[k].role == "tool"@ by {
        assert(rest[k] == m[k + folded(m)]);
    }
    lemma_walk_fails_alike(rest, 0, s, Map::empty(), names);
    lemma_walk_skip(rest, s, 0, names);
    if split == 0 {
        assert(rest.skip(0) =~= m);
    }
}

/// Every message before `n` that carries calls is an assistant turn.
pub open spec fn only_assistants_call(m: Seq<MessageView>, n: int) -> bool {
    forall|i: int|
        0 <= i < n && (#[trigger] m[i]).calls.len() > 0 ==> m[i].role == "assistant"@
}

pub(crate) proof fn lemma_names_at_end(
    m: Seq<MessageView>,
    i: int,
    s: int,
    names: Map<Seq<char>, Seq<char>>,
)
    requires
        0 <= i < s <= m.len(),
    ensures
        names_at(m, i, s, names) == (if m[s - 1].role == "assistant"@ {
            with_calls(names_at(m, i, s - 1, names), m[s - 1])
        } else {
            names_at(m, i, s - 1, names)
        }),
    decreases s - i,
{
    reveal_with_fuel(names_at, 2);
    if i < s - 1 {
        if m[i].role == "assistant"@ {
            lemma_names_at_end(m, i + 1, s, with_calls(names, m[i]));
        } else {
            lemma_names_at_end(m, i + 1, s, names);
        }
    }
}

/// Where only assistant turns carry calls, the calls before a split are named
/// alike in a full plan and in the plan of the suffix.
pub proof fn lemma_names_agree(m: Seq<MessageView>, split: int)
    requires
        folded(m) <= split <= m.len(),
        only_assistants_call(m, split),
    ensures
        names_of(m, split) == planned_names(m, split),
    decreases split,
{
    lemma_roles();
    if split == 0 {
    } else if split == folded(m) {
        assert(m[0].calls.len() == 0);
        reveal_with_fuel(names_of, 2);
    } else {
        lemma_names_agree(m, split - 1);
        let s = split - folded(m);
        assert(body(m)[s - 1] == m[split - 1]);
        lemma_names_at_end(body(m), 0, s, Map::empty());
        if m[split - 1].role != "assistant"@ {
            assert(m[split - 1].calls.len() == 0);
        }
    }
}

} // verus!
