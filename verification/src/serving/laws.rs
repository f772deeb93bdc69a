//! What the chat surface keeps of what it is given: a plan says what its messages
//! say, and what is sent reads back.

use vstd::arithmetic::power::pow;
use vstd::prelude::*;
use vstd::string::*;

use crate::serving::render::{
    add_calls, assistant_op, batch, body, is_system, last_user, lemma_names_at_end, lemma_roles,
    lemma_run_is_tools, lemma_tool_run, names_at, plan, tool_run, walk, with_calls, ErrorView, OpView,
    TurnPos,
};
use crate::json::{member_of, Tree};
use crate::fnv::fnv_hash;
use crate::format::{hex, hex_value, law_hex_reads_back};
use crate::serving::digest::{digest_text, OFFSET_A, OFFSET_B};
use crate::serving::error::error_tree;
use crate::serving::streaming::{
    call_delta_tree, chunk_tree, completion_tree, content_tree, finish_tree, role_tree,
    usage_chunk_tree, usage_tree, CallOut, ChunkMeta,
};
use crate::serving::types::{message_text, CallView, MessageView};

verus! {

// ---------------------------------------------------------------------------
// Plans
// ---------------------------------------------------------------------------

/// What a turn says: who, what, with which calls, in answer to the call of which
/// tool, and where it stands.
pub struct Said {
    pub role: Seq<char>,
    pub text: Seq<char>,
    pub calls: Seq<(Seq<char>, Seq<char>)>,
    pub answers: Seq<char>,
    pub pos: Option<TurnPos>,
}

/// What an operation says, one entry a turn.
pub open spec fn said_in(op: OpView) -> Seq<Said> {
    let none = Seq::<char>::empty();
    match op {
        OpView::User(s) => seq![
            Said { role: "user"@, text: s, calls: Seq::empty(), answers: none, pos: None },
        ],
        OpView::Assistant(s, p) => seq![
            Said { role: "assistant"@, text: s, calls: Seq::empty(), answers: none, pos: Some(p) },
        ],
        OpView::AssistantWithToolCalls { content, calls, pos } => seq![
            Said {
                role: "assistant"@,
                text: match content {
                    Some(s) => s,
                    None => none,
                },
                calls,
                answers: none,
                pos: Some(pos),
            },
        ],
        OpView::AnswerBatch(b) => Seq::new(
            b.len(),
            |k: int|
                Said {
                    role: "tool"@,
                    text: b[k].1,
                    calls: Seq::empty(),
                    answers: b[k].0,
                    pos: None,
                },
        ),
        _ => Seq::empty(),
    }
}

/// What a plan says, turn by turn.
pub open spec fn said_by(ops: Seq<OpView>) -> Seq<Said>
    decreases ops.len(),
{
    if ops.len() == 0 {
        Seq::empty()
    } else {
        said_in(ops[0]) + said_by(ops.skip(1))
    }
}

/// Call `c` of message `j` is an assistant's, of that id.
pub open spec fn call_at(m: Seq<MessageView>, j: int, c: int, id: Seq<char>) -> bool {
    0 <= c < m[j].calls.len() && m[j].role == "assistant"@ && m[j].calls[c].id == id
}

/// No assistant from `a` up to `b` makes a call of that id.
pub open spec fn uncalled(m: Seq<MessageView>, a: int, b: int, id: Seq<char>) -> bool {
    forall|j: int, c: int| a <= j < b ==> !#[trigger] call_at(m, j, c, id)
}

/// The last call of that id from `a` up to `b` is of the tool `name`.
pub open spec fn last_called(m: Seq<MessageView>, a: int, b: int, id: Seq<char>, name: Seq<char>) -> bool {
    exists|j: int, c: int|
        a <= j < b && #[trigger] call_at(m, j, c, id) && m[j].calls[c].name == name && (forall|
            j2: int,
            c2: int,
        |
            a <= j2 < b && (j2 > j || (j2 == j && c2 > c)) ==> !#[trigger] call_at(m, j2, c2, id))
}

/// A turn says what the message at `k` says. An assistant's calls are all there,
/// in order; a tool's answer stands under the name of the last call of its id, or
/// under none.
pub open spec fn says(s: Said, m: Seq<MessageView>, k: int) -> bool {
    &&& s.role == m[k].role
    &&& s.text == message_text(m[k])
    &&& m[k].role == "assistant"@ ==> {
        &&& s.calls.len() == m[k].calls.len()
        &&& forall|c: int|
            0 <= c < s.calls.len() ==> (#[trigger] s.calls[c]).0 == m[k].calls[c].name
                && s.calls[c].1 == m[k].calls[c].arguments
        &&& s.pos is Some
        &&& s.pos->0.after_query == (forall|j: int|
            k <= j < m.len() ==> (#[trigger] m[j]).role != "user"@)
        &&& s.pos->0.is_last == (k + 1 == m.len())
    }
    &&& m[k].role == "tool"@ ==> match m[k].call_id {
        Some(id) => if uncalled(m, 0, k, id) {
            s.answers.len() == 0
        } else {
            last_called(m, 0, k, id, s.answers)
        },
        None => s.answers.len() == 0,
    }
}

proof fn lemma_said_join(a: Seq<OpView>, b: Seq<OpView>)
    ensures
        said_by(a + b) == said_by(a) + said_by(b),
    decreases a.len(),
{
    if a.len() == 0 {
        assert(a + b =~= b);
        assert(said_by(a) + said_by(b) =~= said_by(b));
    } else {
        assert((a + b).skip(1) =~= a.skip(1) + b);
        lemma_said_join(a.skip(1), b);
        assert((a + b)[0] == a[0]);
        assert(said_in(a[0]) + (said_by(a.skip(1)) + said_by(b)) =~= (said_in(a[0]) + said_by(
            a.skip(1),
        )) + said_by(b));
    }
}

proof fn lemma_said_one(op: OpView, rest: Seq<OpView>)
    ensures
        said_by(seq![op] + rest) == said_in(op) + said_by(rest),
{
    let all = seq![op] + rest;
    assert(all.skip(1) =~= rest);
    assert(all[0] == op);
}

proof fn lemma_added(names: Map<Seq<char>, Seq<char>>, calls: Seq<CallView>, n: int, id: Seq<char>)
    requires
        0 <= n <= calls.len(),
    ensures
        ({
            let all = add_calls(names, calls, n);
            if forall|c: int| 0 <= c < n ==> (#[trigger] calls[c]).id != id {
                all.contains_key(id) == names.contains_key(id) && (names.contains_key(id) ==> all[id]
                    == names[id])
            } else {
                all.contains_key(id) && exists|c: int|
                    0 <= c < n && (#[trigger] calls[c]).id == id && calls[c].name == all[id]
                        && forall|d: int| c < d < n ==> (#[trigger] calls[d]).id != id
            }
        }),
    decreases n,
{
    if n > 0 {
        lemma_added(names, calls, n - 1, id);
        if calls[n - 1].id != id && !(forall|c: int|
            0 <= c < n ==> (#[trigger] calls[c]).id != id) {
            let all = add_calls(names, calls, n - 1);
            let c = choose|c: int|
                0 <= c < n - 1 && (#[trigger] calls[c]).id == id && calls[c].name == all[id]
                    && forall|d: int| c < d < n - 1 ==> (#[trigger] calls[d]).id != id;
            assert(calls[c].id == id);
        } else if calls[n - 1].id == id {
            assert(calls[n - 1].name == add_calls(names, calls, n)[id]);
        }
    }
}

proof fn lemma_known(m: Seq<MessageView>, s: int, id: Seq<char>)
    requires
        0 <= s <= m.len(),
    ensures
        ({
            let all = names_at(m, 0, s, Map::empty());
            if uncalled(m, 0, s, id) {
                !all.contains_key(id)
            } else {
                all.contains_key(id) && last_called(m, 0, s, id, all[id])
            }
        }),
    decreases s,
{
    if s > 0 {
        lemma_known(m, s - 1, id);
        lemma_names_at_end(m, 0, s, Map::empty());
        let before = names_at(m, 0, s - 1, Map::empty());
        let all = names_at(m, 0, s, Map::empty());
        let x = m[s - 1];
        if x.role == "assistant"@ {
            lemma_added(before, x.calls, x.calls.len() as int, id);
            if forall|c: int| 0 <= c < x.calls.len() ==> (#[trigger] x.calls[c]).id != id {
                assert forall|c: int| !#[trigger] call_at(m, s - 1, c, id) by {
                    if 0 <= c < x.calls.len() {
                        assert(x.calls[c].id != id);
                    }
                }
            } else {
                let c = choose|c: int|
                    0 <= c < x.calls.len() && (#[trigger] x.calls[c]).id == id && x.calls[c].name
                        == all[id] && forall|d: int|
                        c < d < x.calls.len() ==> (#[trigger] x.calls[d]).id != id;
                assert(call_at(m, s - 1, c, id));
                assert forall|j2: int, c2: int|
                    0 <= j2 < s && (j2 > s - 1 || (j2 == s - 1 && c2 > c)) implies !#[trigger] call_at(
                    m,
                    j2,
                    c2,
                    id,
                ) by {
                    if 0 <= c2 < x.calls.len() {
                        assert(x.calls[c2].id != id);
                    }
                }
                assert(last_called(m, 0, s, id, all[id]));
                assert(!uncalled(m, 0, s, id));
            }
        } else {
            assert forall|c: int| !#[trigger] call_at(m, s - 1, c, id) by {}
        }
        if uncalled(m, 0, s, id) {
            assert(uncalled(m, 0, s - 1, id));
        } else if forall|c: int| !#[trigger] call_at(m, s - 1, c, id) {
            if uncalled(m, 0, s - 1, id) {
                assert(uncalled(m, 0, s, id)) by {
                    assert forall|j: int, c: int| 0 <= j < s implies !#[trigger] call_at(m, j, c, id) by {
                        if j == s - 1 {
                            assert(!call_at(m, s - 1, c, id));
                        }
                    }
                }
            }
            let (j, c) = choose|j: int, c: int|
                0 <= j < s - 1 && #[trigger] call_at(m, j, c, id) && m[j].calls[c].name == before[id]
                    && (forall|j2: int, c2: int|
                    0 <= j2 < s - 1 && (j2 > j || (j2 == j && c2 > c)) ==> !#[trigger] call_at(
                        m,
                        j2,
                        c2,
                        id,
                    ));
            assert(call_at(m, j, c, id));
            assert(all[id] == before[id]);
            assert forall|j2: int, c2: int|
                0 <= j2 < s && (j2 > j || (j2 == j && c2 > c)) implies !#[trigger] call_at(
                m,
                j2,
                c2,
                id,
            ) by {
                if j2 == s - 1 {
                    assert(!call_at(m, s - 1, c2, id));
                }
            }
            assert(last_called(m, 0, s, id, all[id]));
        }
    }
}

proof fn lemma_last_user(m: Seq<MessageView>, n: int, k: int)
    requires
        0 <= k <= n <= m.len(),
    ensures
        k > last_user(m, n) <==> (forall|j: int| k <= j < n ==> (#[trigger] m[j]).role != "user"@),
    decreases n,
{
    if n > k {
        if m[n - 1].role == "user"@ {
            assert(m[n - 1].role == "user"@);
        } else {
            lemma_last_user(m, n - 1, k);
            assert((forall|j: int| k <= j < n ==> (#[trigger] m[j]).role != "user"@) <==> (forall|
                j: int,
            |
                k <= j < n - 1 ==> (#[trigger] m[j]).role != "user"@));
        }
    } else if n > 0 {
        lemma_last_user_is_before(m, n);
    }
}

proof fn lemma_last_user_is_before(m: Seq<MessageView>, n: int)
    requires
        0 <= n <= m.len(),
    ensures
        last_user(m, n) < n,
    decreases n,
{
    if n > 0 {
        lemma_last_user_is_before(m, n - 1);
    }
}

proof fn lemma_walk_says(m: Seq<MessageView>, i: int)
    requires
        0 <= i <= m.len(),
        walk(m, i, names_at(m, 0, i, Map::empty())) is Ok,
    ensures
        ({
            let said = said_by(walk(m, i, names_at(m, 0, i, Map::empty()))->Ok_0);
            &&& said.len() == m.len() - i
            &&& forall|k: int| i <= k < m.len() ==> says(#[trigger] said[k - i], m, k)
        }),
    decreases m.len() - i,
{
    lemma_roles();
    let names = names_at(m, 0, i, Map::empty());
    let ops = walk(m, i, names)->Ok_0;
    let said = said_by(ops);
    if i < m.len() {
        if m[i].role == "tool"@ {
            let e = tool_run(m, i);
            lemma_tool_run(m, i + 1);
            lemma_run_is_tools(m, i);
            lemma_names_run(m, i, e);
            let rest = walk(m, e, names)->Ok_0;
            let op = OpView::AnswerBatch(batch(m, i, e, names));
            lemma_walk_says(m, e);
            lemma_said_one(op, rest);
            assert(said == said_in(op) + said_by(rest));
            assert forall|k: int| i <= k < m.len() implies says(#[trigger] said[k - i], m, k) by {
                if k < e {
                    assert(said[k - i] == said_in(op)[k - i]);
                    lemma_names_run(m, i, k);
                    if let Some(id) = m[k].call_id {
                        lemma_known(m, k, id);
                    }
                } else {
                    assert(said[k - i] == said_by(rest)[k - e]);
                }
            }
        } else {
            let op = if m[i].role == "user"@ {
                OpView::User(message_text(m[i]))
            } else {
                assistant_op(m, i)
            };
            lemma_names_at_end(m, 0, i + 1, Map::empty());
            let rest = walk(m, i + 1, names_at(m, 0, i + 1, Map::empty()))->Ok_0;
            lemma_walk_says(m, i + 1);
            lemma_said_one(op, rest);
            lemma_last_user(m, m.len() as int, i);
            assert(said == said_in(op) + said_by(rest));
            if message_text(m[i]).len() == 0 {
                assert(message_text(m[i]) =~= Seq::<char>::empty());
            }
            assert(says(said_in(op)[0], m, i));
            assert forall|k: int| i <= k < m.len() implies says(#[trigger] said[k - i], m, k) by {
                if k > i {
                    assert(said[k - i] == said_by(rest)[k - (i + 1)]);
                }
            }
        }
    }
}

proof fn lemma_names_run(m: Seq<MessageView>, i: int, e: int)
    requires
        0 <= i <= e <= m.len(),
        forall|j: int| i <= j < e ==> (#[trigger] m[j]).role == "tool"@,
    ensures
        names_at(m, 0, e, Map::empty()) == names_at(m, 0, i, Map::empty()),
    decreases e - i,
{
    lemma_roles();
    if i < e {
        lemma_names_run(m, i, e - 1);
        lemma_names_at_end(m, 0, e, Map::empty());
    }
}

/// A plan says what its messages say, and nothing else: behind the system turn each
/// message is said once, in order, with its text, its calls and the tool it answers,
/// and nothing that was said is lost. The plan opens with the system message and the
/// tools, where there are any, and ends with the cue.
pub proof fn law_a_plan_says_what_its_messages_say(
    m: Seq<MessageView>,
    schemas: Seq<Seq<char>>,
    think: bool,
)
    requires
        plan(m, schemas, Map::empty(), think) is Ok,
    ensures
        ({
            let ops = plan(m, schemas, Map::empty(), think)->Ok_0;
            let lead = m.len() > 0 && (m[0].role == "system"@ || m[0].role == "developer"@);
            let rest = if lead {
                m.skip(1)
            } else {
                m
            };
            let said = said_by(ops);
            &&& said.len() == rest.len()
            &&& forall|k: int| 0 <= k < rest.len() ==> says(#[trigger] said[k], rest, k)
            &&& ops.len() > 0
            &&& ops.last() == OpView::Cue(think)
            &&& forall|i: int| 0 <= i < ops.len() - 1 ==> !((#[trigger] ops[i]) is Cue)
            &&& (ops[0] is EquipAfterSystem) == (lead || schemas.len() > 0)
            &&& forall|i: int| 0 < i < ops.len() ==> !((#[trigger] ops[i]) is EquipAfterSystem)
            &&& ops[0] is EquipAfterSystem ==> {
                &&& ops[0]->tools == schemas
                &&& ops[0]->system == (if lead {
                    Some(message_text(m[0]))
                } else {
                    None
                })
            }
        }),
{
    let ops = plan(m, schemas, Map::empty(), think)->Ok_0;
    let rest = body(m);
    let turns = walk(rest, 0, Map::empty())->Ok_0;
    lemma_walk_says(rest, 0);
    lemma_walk_is_turns(rest, 0, Map::empty());
    let cue = seq![OpView::Cue(think)];
    let lead = m.len() > 0 && is_system(m[0]);
    let head = if lead || schemas.len() > 0 {
        seq![ops[0]]
    } else {
        Seq::empty()
    };
    assert(ops =~= head + turns + cue);
    lemma_said_join(head + turns, cue);
    lemma_said_join(head, turns);
    reveal_with_fuel(said_by, 2);
    assert(said_by(cue) =~= Seq::<Said>::empty());
    assert(said_by(head) =~= Seq::<Said>::empty());
    assert(said_by(ops) =~= said_by(turns));
    assert forall|k: int| 0 <= k < rest.len() implies says(#[trigger] said_by(ops)[k], rest, k) by {
        assert(says(said_by(turns)[k - 0], rest, k));
    }
    assert forall|i: int| 0 <= i < turns.len() implies !((#[trigger] turns[i]) is Cue) && !(turns[i] is EquipAfterSystem) by {
    }
    assert forall|i: int| 0 <= i < ops.len() - 1 implies !((#[trigger] ops[i]) is Cue) by {
        if i >= head.len() {
            assert(ops[i] == turns[i - head.len()]);
        }
    }
    assert forall|i: int| 0 < i < ops.len() implies !((#[trigger] ops[i]) is EquipAfterSystem) by {
        if i < ops.len() - 1 {
            assert(ops[i] == turns[i - head.len()]);
        }
    }
    if head.len() == 0 && turns.len() > 0 {
        assert(ops[0] == turns[0]);
    }
}

proof fn lemma_walk_is_turns(m: Seq<MessageView>, i: int, names: Map<Seq<char>, Seq<char>>)
    requires
        0 <= i <= m.len(),
        walk(m, i, names) is Ok,
    ensures
        forall|k: int|
            0 <= k < walk(m, i, names)->Ok_0.len() ==> !((#[trigger] walk(m, i, names)->Ok_0[k]) is Cue)
                && !(walk(m, i, names)->Ok_0[k] is EquipAfterSystem),
    decreases m.len() - i,
{
    lemma_roles();
    if i < m.len() {
        if m[i].role == "user"@ {
            lemma_walk_is_turns(m, i + 1, names);
        } else if m[i].role == "assistant"@ {
            lemma_walk_is_turns(m, i + 1, with_calls(names, m[i]));
        } else {
            lemma_tool_run(m, i + 1);
            lemma_walk_is_turns(m, tool_run(m, i), names);
        }
    }
}

/// A run of tool results is one batch: no two batches follow each other, and none is
/// empty.
pub proof fn law_tool_results_are_merged(m: Seq<MessageView>, schemas: Seq<Seq<char>>, think: bool, i: int)
    requires
        plan(m, schemas, Map::empty(), think) is Ok,
    ensures
        ({
            let ops = plan(m, schemas, Map::empty(), think)->Ok_0;
            0 <= i < ops.len() && ops[i] is AnswerBatch ==> {
                &&& ops[i]->AnswerBatch_0.len() > 0
                &&& i + 1 < ops.len()
                &&& !(ops[i + 1] is AnswerBatch)
            }
        }),
{
    let ops = plan(m, schemas, Map::empty(), think)->Ok_0;
    let turns = walk(body(m), 0, Map::empty())->Ok_0;
    let h = ops.len() - turns.len() - 1;
    assert forall|k: int| 0 <= k < turns.len() implies ops[h + k] == #[trigger] turns[k] by {}
    if 0 <= i < ops.len() && ops[i] is AnswerBatch {
        assert(ops[i] == turns[i - h]);
        lemma_batches(body(m), 0, Map::empty(), i - h);
    }
}

proof fn lemma_batches(m: Seq<MessageView>, i: int, names: Map<Seq<char>, Seq<char>>, k: int)
    requires
        0 <= i <= m.len(),
        walk(m, i, names) is Ok,
        0 <= k < walk(m, i, names)->Ok_0.len(),
    ensures
        ({
            let ops = walk(m, i, names)->Ok_0;
            &&& ops[k] is AnswerBatch ==> ops[k]->AnswerBatch_0.len() > 0 && (k + 1 < ops.len()
                ==> !(ops[k + 1] is AnswerBatch))
            &&& ops[0] is AnswerBatch ==> m[i].role == "tool"@
        }),
    decreases m.len() - i,
{
    lemma_roles();
    if i < m.len() {
        let (next, known) = if m[i].role == "tool"@ {
            (tool_run(m, i), names)
        } else if m[i].role == "assistant"@ {
            (i + 1, with_calls(names, m[i]))
        } else {
            (i + 1, names)
        };
        lemma_tool_run(m, i + 1);
        let rest = walk(m, next, known)->Ok_0;
        let ops = walk(m, i, names)->Ok_0;
        assert(ops.skip(1) =~= rest);
        if k > 0 {
            lemma_batches(m, next, known, k - 1);
            assert(ops[k] == rest[k - 1]);
            if k + 1 < ops.len() {
                assert(ops[k + 1] == rest[k]);
            }
        } else if rest.len() > 0 {
            lemma_batches(m, next, known, 0);
            assert(ops[1] == rest[0]);
            if m[i].role == "tool"@ {
                lemma_run_ends(m, i);
            }
        }
    }
}

proof fn lemma_run_ends(m: Seq<MessageView>, i: int)
    requires
        0 <= i <= m.len(),
    ensures
        tool_run(m, i) < m.len() ==> m[tool_run(m, i)].role != "tool"@,
    decreases m.len() - i,
{
    if i < m.len() && m[i].role == "tool"@ {
        lemma_run_ends(m, i + 1);
    }
}

// ---------------------------------------------------------------------------
// What is sent
// ---------------------------------------------------------------------------

/// The member of a key, null where there is none.
pub open spec fn at(t: Tree, key: Seq<char>) -> Tree {
    match member_of(t, key) {
        Some(x) => x,
        None => Tree::Null,
    }
}

/// An element, null where there is none.
pub open spec fn nth(t: Tree, i: int) -> Tree {
    if t is Arr && 0 <= i < t->Arr_0.len() {
        t->Arr_0[i]
    } else {
        Tree::Null
    }
}

/// The one choice of a message.
pub open spec fn choice_of(t: Tree) -> Tree {
    nth(at(t, "choices"@), 0)
}

/// A message carries the identity of its stream.
pub open spec fn is_of(t: Tree, m: ChunkMeta, object: Seq<char>) -> bool {
    &&& at(t, "id"@) == Tree::Str(m.id@)
    &&& at(t, "object"@) == Tree::Str(object)
    &&& at(t, "created"@) == Tree::Int(m.created as int)
    &&& at(t, "model"@) == Tree::Str(m.model@)
}

/// A report of these counts: the total is their sum.
pub open spec fn counts(t: Tree, prompt: int, completion: int, cached: int) -> bool {
    &&& at(t, "prompt_tokens"@) == Tree::Int(prompt)
    &&& at(t, "completion_tokens"@) == Tree::Int(completion)
    &&& at(t, "total_tokens"@) is Int
    &&& at(t, "total_tokens"@)->Int_0 - prompt == completion
    &&& at(at(t, "prompt_tokens_details"@), "cached_tokens"@) == Tree::Int(cached)
}

/// A call by its id, tool and arguments.
pub open spec fn calls_for(t: Tree, id: Seq<char>, name: Seq<char>, args: Seq<char>) -> bool {
    &&& at(t, "id"@) == Tree::Str(id)
    &&& at(t, "type"@) == Tree::Str("function"@)
    &&& at(at(t, "function"@), "name"@) == Tree::Str(name)
    &&& at(at(t, "function"@), "arguments"@) == Tree::Str(args)
}

pub(crate) proof fn lemma_message_keys()
    ensures
        "created"@ != "choices"@,
        "model"@ != "usage"@,
        "id"@ != "object"@ && "id"@ != "created"@ && "id"@ != "model"@ && "id"@ != "choices"@
            && "id"@ != "usage"@,
        "object"@ != "created"@ && "object"@ != "model"@ && "object"@ != "choices"@ && "object"@
            != "usage"@,
        "created"@ != "model"@ && "created"@ != "usage"@,
        "model"@ != "choices"@ && "choices"@ != "usage"@,
{
    reveal_strlit("id");
    reveal_strlit("object");
    reveal_strlit("created");
    reveal_strlit("model");
    reveal_strlit("choices");
    reveal_strlit("usage");
    assert("id"@.len() == 2 && "object"@.len() == 6 && "created"@.len() == 7 && "model"@.len() == 5
        && "choices"@.len() == 7 && "usage"@.len() == 5);
    assert("created"@[1] != "choices"@[1]);
    assert("model"@[0] != "usage"@[0]);
}

pub(crate) proof fn lemma_choice_keys()
    ensures
        "index"@ != "delta"@ && "index"@ != "logprobs"@ && "index"@ != "finish_reason"@ && "index"@
            != "message"@,
        "delta"@ != "logprobs"@ && "delta"@ != "finish_reason"@,
        "logprobs"@ != "finish_reason"@ && "message"@ != "logprobs"@ && "message"@
            != "finish_reason"@,
        "role"@ != "content"@ && "role"@ != "tool_calls"@ && "content"@ != "tool_calls"@,
{
    reveal_strlit("index");
    reveal_strlit("delta");
    reveal_strlit("logprobs");
    reveal_strlit("finish_reason");
    reveal_strlit("message");
    reveal_strlit("role");
    reveal_strlit("content");
    reveal_strlit("tool_calls");
    assert("index"@.len() == 5 && "delta"@.len() == 5 && "logprobs"@.len() == 8
        && "finish_reason"@.len() == 13 && "message"@.len() == 7);
    assert("index"@[0] != "delta"@[0]);
    assert("role"@.len() == 4 && "content"@.len() == 7 && "tool_calls"@.len() == 10);
}

pub(crate) proof fn lemma_call_keys()
    ensures
        "index"@ != "id"@ && "index"@ != "type"@ && "index"@ != "function"@,
        "id"@ != "type"@ && "id"@ != "function"@ && "type"@ != "function"@,
        "name"@ != "arguments"@,
{
    reveal_strlit("index");
    reveal_strlit("id");
    reveal_strlit("type");
    reveal_strlit("function");
    reveal_strlit("name");
    reveal_strlit("arguments");
    assert("index"@.len() == 5 && "id"@.len() == 2 && "type"@.len() == 4 && "function"@.len() == 8
        && "name"@.len() == 4 && "arguments"@.len() == 9);
}

/// A delta can be read back from its chunk, which carries the stream's identity and
/// a finish reason only where it is given one.
pub proof fn law_a_chunk_reads_back(m: ChunkMeta, delta: Tree, finish: Option<Seq<char>>)
    ensures
        ({
            let t = chunk_tree(m, delta, finish);
            &&& is_of(t, m, "chat.completion.chunk"@)
            &&& at(t, "choices"@) is Arr && at(t, "choices"@)->Arr_0.len() == 1
            &&& at(choice_of(t), "index"@) == Tree::Int(0)
            &&& at(choice_of(t), "delta"@) == delta
            &&& member_of(choice_of(t), "finish_reason"@) == Some(
                match finish {
                    Some(r) => Tree::Str(r),
                    None => Tree::Null,
                },
            )
        }),
{
    lemma_message_keys();
    lemma_choice_keys();
}

/// What each chunk of a stream tells can be read back: the role, the content, a whole
/// call under its index, and why the turn finished.
pub proof fn law_what_is_sent_reads_back(
    m: ChunkMeta,
    text: Seq<char>,
    index: int,
    id: Seq<char>,
    name: Seq<char>,
    args: Seq<char>,
    reason: Seq<char>,
)
    ensures
        ({
            let t = role_tree(m);
            let d = at(choice_of(t), "delta"@);
            &&& is_of(t, m, "chat.completion.chunk"@)
            &&& at(d, "role"@) == Tree::Str("assistant"@)
            &&& member_of(choice_of(t), "finish_reason"@) == Some(Tree::Null)
        }),
        ({
            let t = content_tree(m, text);
            &&& is_of(t, m, "chat.completion.chunk"@)
            &&& at(at(choice_of(t), "delta"@), "content"@) == Tree::Str(text)
            &&& member_of(choice_of(t), "finish_reason"@) == Some(Tree::Null)
        }),
        ({
            let t = call_delta_tree(m, index, id, name, args);
            let calls = at(at(choice_of(t), "delta"@), "tool_calls"@);
            &&& is_of(t, m, "chat.completion.chunk"@)
            &&& calls is Arr && calls->Arr_0.len() == 1
            &&& at(nth(calls, 0), "index"@) == Tree::Int(index)
            &&& calls_for(nth(calls, 0), id, name, args)
            &&& member_of(choice_of(t), "finish_reason"@) == Some(Tree::Null)
        }),
        ({
            let t = finish_tree(m, reason);
            &&& is_of(t, m, "chat.completion.chunk"@)
            &&& at(choice_of(t), "delta"@) == Tree::Obj(Map::empty())
            &&& at(choice_of(t), "finish_reason"@) == Tree::Str(reason)
        }),
{
    lemma_message_keys();
    lemma_choice_keys();
    lemma_call_keys();
}

proof fn lemma_usage_keys()
    ensures
        "prompt_tokens"@ != "completion_tokens"@ && "prompt_tokens"@ != "total_tokens"@
            && "prompt_tokens"@ != "prompt_tokens_details"@,
        "completion_tokens"@ != "total_tokens"@ && "completion_tokens"@ != "prompt_tokens_details"@,
        "total_tokens"@ != "prompt_tokens_details"@,
{
    reveal_strlit("prompt_tokens");
    reveal_strlit("completion_tokens");
    reveal_strlit("total_tokens");
    reveal_strlit("prompt_tokens_details");
    assert("prompt_tokens"@.len() == 13 && "completion_tokens"@.len() == 17 && "total_tokens"@.len()
        == 12 && "prompt_tokens_details"@.len() == 21);
}

/// The counts of a turn can be read back from its usage chunk, which has no choice, and
/// their total is the sum of what was prompted and completed.
pub proof fn law_usage_reads_back(m: ChunkMeta, prompt: int, completion: int, cached: int)
    ensures
        counts(usage_tree(prompt, completion, cached), prompt, completion, cached),
        ({
            let t = usage_chunk_tree(m, prompt, completion, cached);
            &&& is_of(t, m, "chat.completion.chunk"@)
            &&& at(t, "choices"@) == Tree::Arr(Seq::empty())
            &&& counts(at(t, "usage"@), prompt, completion, cached)
        }),
{
    lemma_message_keys();
    lemma_usage_keys();
}

/// A whole answer can be read back: its content and every call, in order, each null
/// where there is none, why it finished, and its usage.
pub proof fn law_a_completion_reads_back(
    m: ChunkMeta,
    content: Seq<char>,
    calls: Seq<CallOut>,
    finish: Seq<char>,
    usage: Tree,
)
    ensures
        ({
            let t = completion_tree(m, content, calls, finish, usage);
            let x = at(choice_of(t), "message"@);
            &&& is_of(t, m, "chat.completion"@)
            &&& at(t, "choices"@) is Arr && at(t, "choices"@)->Arr_0.len() == 1
            &&& at(t, "usage"@) == usage
            &&& at(x, "role"@) == Tree::Str("assistant"@)
            &&& member_of(x, "content"@) == Some(
                if content.len() == 0 {
                    Tree::Null
                } else {
                    Tree::Str(content)
                },
            )
            &&& at(choice_of(t), "finish_reason"@) == Tree::Str(finish)
            &&& calls.len() == 0 ==> member_of(x, "tool_calls"@) == Some(Tree::Null)
            &&& calls.len() > 0 ==> at(x, "tool_calls"@) is Arr && at(x, "tool_calls"@)->Arr_0.len()
                == calls.len()
            &&& forall|i: int|
                0 <= i < calls.len() ==> calls_for(
                    #[trigger] nth(at(x, "tool_calls"@), i),
                    calls[i].0,
                    calls[i].1,
                    calls[i].2,
                )
        }),
{
    lemma_message_keys();
    lemma_choice_keys();
    lemma_call_keys();
}

/// An error's message and type can be read back from its body.
pub proof fn law_an_error_reads_back(error_type: Seq<char>, message: Seq<char>)
    ensures
        ({
            let e = at(error_tree(error_type, message), "error"@);
            &&& at(e, "message"@) == Tree::Str(message)
            &&& at(e, "type"@) == Tree::Str(error_type)
            &&& member_of(e, "param"@) == Some(Tree::Null)
            &&& member_of(e, "code"@) == Some(Tree::Null)
        }),
{
    reveal_strlit("message");
    reveal_strlit("type");
    reveal_strlit("param");
    reveal_strlit("code");
    assert("message"@.len() == 7 && "type"@.len() == 4 && "param"@.len() == 5 && "code"@.len() == 4);
    assert("type"@[0] != "code"@[0]);
}

/// Whether a message behind the lead can be planned.
pub open spec fn plannable(m: MessageView) -> bool {
    m.role == "user"@ || m.role == "assistant"@ || m.role == "tool"@
}

/// What is wrong with a message that cannot be planned.
pub open spec fn fault_of(m: MessageView) -> ErrorView {
    if m.role == "system"@ || m.role == "developer"@ {
        ErrorView::MisplacedSystem
    } else {
        ErrorView::UnsupportedRole(m.role)
    }
}

proof fn lemma_walk_stops(m: Seq<MessageView>, i: int, names: Map<Seq<char>, Seq<char>>)
    requires
        0 <= i <= m.len(),
    ensures
        walk(m, i, names) is Ok <==> forall|j: int| i <= j < m.len() ==> plannable(#[trigger] m[j]),
        walk(m, i, names) matches Err(e) ==> exists|j: int|
            i <= j < m.len() && !plannable(#[trigger] m[j]) && e == fault_of(m[j]) && forall|k: int|
                i <= k < j ==> plannable(#[trigger] m[k]),
    decreases m.len() - i,
{
    lemma_roles();
    if i < m.len() {
        let (n, t) = if m[i].role == "tool"@ {
            lemma_tool_run(m, i + 1);
            lemma_run_is_tools(m, i);
            (tool_run(m, i), names)
        } else if m[i].role == "assistant"@ {
            (i + 1, with_calls(names, m[i]))
        } else {
            (i + 1, names)
        };
        if plannable(m[i]) {
            lemma_walk_stops(m, n, t);
            assert forall|j: int| i <= j < n implies plannable(#[trigger] m[j]) by {}
            if walk(m, n, t) is Err {
                let j = choose|j: int|
                    n <= j < m.len() && !plannable(#[trigger] m[j]) && walk(m, n, t)->Err_0 == fault_of(
                        m[j],
                    ) && forall|k: int| n <= k < j ==> plannable(#[trigger] m[k]);
                assert(!plannable(m[j]));
            }
        } else {
            assert(!plannable(m[i]));
        }
    }
}

/// The messages behind a leading system message.
pub open spec fn behind_lead(m: Seq<MessageView>) -> Seq<MessageView> {
    if m.len() > 0 && (m[0].role == "system"@ || m[0].role == "developer"@) {
        m.skip(1)
    } else {
        m
    }
}

/// A plan is made exactly where every message behind the lead is a user's, an
/// assistant's or a tool's; otherwise it says what is wrong with the first that is
/// not: a system message that comes too late, or a role that is not known.
pub proof fn law_the_first_bad_message_stops_a_plan(
    m: Seq<MessageView>,
    schemas: Seq<Seq<char>>,
    names: Map<Seq<char>, Seq<char>>,
    think: bool,
)
    ensures
        plan(m, schemas, names, think) is Ok <==> forall|j: int|
            0 <= j < behind_lead(m).len() ==> plannable(#[trigger] behind_lead(m)[j]),
        plan(m, schemas, names, think) matches Err(e) ==> exists|j: int|
            0 <= j < behind_lead(m).len() && !plannable(#[trigger] behind_lead(m)[j]) && e == fault_of(
                behind_lead(m)[j],
            ) && forall|k: int| 0 <= k < j ==> plannable(#[trigger] behind_lead(m)[k]),
{
    assert(behind_lead(m) == body(m));
    lemma_walk_stops(body(m), 0, names);
}

/// A digest is 32 hexadecimal digits: 16 for each lane, the first lane first.
pub proof fn law_a_digest_spells_both_lanes(bytes: Seq<u8>)
    ensures
        digest_text(bytes).len() == 32,
        hex_value(digest_text(bytes).take(16)) == fnv_hash(bytes, OFFSET_A),
        hex_value(digest_text(bytes).skip(16)) == fnv_hash(bytes, OFFSET_B),
{
    let h = fnv_hash(bytes, OFFSET_A);
    let g = fnv_hash(bytes, OFFSET_B);
    reveal_with_fuel(pow, 17);
    assert(pow(16, 16) == 0x1_0000_0000_0000_0000);
    law_hex_reads_back(h as nat, 16);
    law_hex_reads_back(g as nat, 16);
    assert(digest_text(bytes).take(16) =~= hex(h as nat, 16));
    assert(digest_text(bytes).skip(16) =~= hex(g as nat, 16));
}

} // verus!
