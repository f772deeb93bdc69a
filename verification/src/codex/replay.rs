//! Rendering plans of item lists. Assistant calls arrive as items of their own
//! and tool results too; the template has text and calls in one turn and
//! consecutive results in one, so items are grouped again.

use vstd::prelude::*;
use vstd::string::*;

use crate::chat::render::{decorate, non_empty, user_text};
use crate::canon::CanonView;
use crate::codex::session::{
    canon_of, canons, last_produced, law_unrendered_items_do_not_move_the_address,
    lemma_canons_cat, produced,
};
use crate::codex::types::{role_text, InputItem, Role};
use crate::replay::{replay_view, ReplayOp, ReplayView};
use crate::serving::render::pairs_view;
use crate::serving::types::{copy_texts, texts};

verus! {

/// An item that is not rendered: one that has no canonical form.
pub open spec fn silent(item: InputItem) -> bool {
    canon_of(item) is None
}

/// The end of the run of calls from `i` on, silent items between them passed over.
pub open spec fn run_end(items: Seq<InputItem>, i: int) -> int
    decreases items.len() - i,
{
    if 0 <= i < items.len() && (items[i] is FunctionCall || silent(items[i])) {
        run_end(items, i + 1)
    } else {
        i
    }
}

/// The calls of the run from `i` on, by name and arguments.
pub open spec fn run_calls(items: Seq<InputItem>, i: int) -> Seq<(Seq<char>, Seq<char>)>
    decreases items.len() - i,
{
    if 0 <= i < items.len() {
        match items[i] {
            InputItem::FunctionCall(c) => seq![(c.name@, c.arguments@)] + run_calls(items, i + 1),
            _ => if silent(items[i]) {
                run_calls(items, i + 1)
            } else {
                Seq::empty()
            },
        }
    } else {
        Seq::empty()
    }
}

/// The end of the run of results from `i` on, silent items between them passed over.
pub open spec fn answers_end(items: Seq<InputItem>, i: int) -> int
    decreases items.len() - i,
{
    if 0 <= i < items.len() && (items[i] is FunctionCallOutput || silent(items[i])) {
        answers_end(items, i + 1)
    } else {
        i
    }
}

/// The results of the run from `i` on, their tools unnamed.
pub open spec fn answers(items: Seq<InputItem>, i: int) -> Seq<(Seq<char>, Seq<char>)>
    decreases items.len() - i,
{
    if 0 <= i < items.len() {
        match items[i] {
            InputItem::FunctionCallOutput(o) => seq![(Seq::<char>::empty(), o.said())] + answers(
                items,
                i + 1,
            ),
            _ => if silent(items[i]) {
                answers(items, i + 1)
            } else {
                Seq::empty()
            },
        }
    } else {
        Seq::empty()
    }
}

/// An assistant turn of a text and calls.
pub open spec fn spoken_turn(text: Seq<char>, calls: Seq<(Seq<char>, Seq<char>)>) -> ReplayView {
    if calls.len() == 0 {
        ReplayView::Assistant(text)
    } else {
        ReplayView::AssistantWithToolCalls { content: non_empty(text), calls }
    }
}

/// The turns of the items from `i` on.
pub open spec fn item_turns(items: Seq<InputItem>, i: int) -> Seq<ReplayView>
    decreases items.len() - i,
    via item_turns_decreases
{
    if i < 0 || i >= items.len() {
        Seq::empty()
    } else {
        match items[i] {
            InputItem::Message(m) => if m.role == Role::Assistant {
                seq![spoken_turn(m.content.said(), run_calls(items, i + 1))] + item_turns(
                    items,
                    run_end(items, i + 1),
                )
            } else if m.role == Role::User {
                seq![ReplayView::User(user_text(m.content.said(), true))] + item_turns(
                    items,
                    i + 1,
                )
            } else {
                seq![ReplayView::System(m.content.said())] + item_turns(items, i + 1)
            },
            InputItem::FunctionCall(c) => seq![
                ReplayView::AssistantWithToolCalls { content: None, calls: run_calls(items, i) },
            ] + item_turns(items, run_end(items, i)),
            InputItem::FunctionCallOutput(o) => seq![ReplayView::AnswerBatch(answers(items, i))]
                + item_turns(items, answers_end(items, i)),
            _ => item_turns(items, i + 1),
        }
    }
}

#[via_fn]
proof fn item_turns_decreases(items: Seq<InputItem>, i: int) {
    if 0 <= i < items.len() {
        lemma_runs(items, i + 1);
    }
}

pub(crate) proof fn lemma_runs(items: Seq<InputItem>, i: int)
    requires
        0 <= i <= items.len(),
    ensures
        i <= run_end(items, i) <= items.len(),
        i <= answers_end(items, i) <= items.len(),
    decreases items.len() - i,
{
    if i < items.len() {
        lemma_runs(items, i + 1);
    }
}

fn collect_calls(items: &[InputItem], from: usize) -> (r: (Vec<(String, String)>, usize))
    requires
        from <= items@.len(),
    ensures
        pairs_view(r.0@) == run_calls(items@, from as int),
        r.1 == run_end(items@, from as int),
        from <= r.1 <= items@.len(),
{
    let mut calls: Vec<(String, String)> = Vec::new();
    let mut i: usize = from;
    proof {
        assert(pairs_view(calls@) + run_calls(items@, i as int) =~= run_calls(items@, i as int));
    }
    while i < items.len()
        invariant
            from <= i <= items@.len(),
            run_end(items@, from as int) == run_end(items@, i as int),
            run_calls(items@, from as int) == pairs_view(calls@) + run_calls(items@, i as int),
        decreases items.len() - i,
    {
        let ghost before = pairs_view(calls@);
        match &items[i] {
            InputItem::FunctionCall(c) => {
                calls.push((c.name.clone(), c.arguments.clone()));
                i += 1;
                proof {
                    let x = (c.name@, c.arguments@);
                    assert(pairs_view(calls@) =~= before.push(x));
                    assert(before + (seq![x] + run_calls(items@, i as int)) =~= before.push(x)
                        + run_calls(items@, i as int));
                }
            },
            InputItem::Message(_) | InputItem::FunctionCallOutput(_) => {
                proof {
                    assert(before + Seq::<(Seq<char>, Seq<char>)>::empty() =~= before);
                }
                return (calls, i);
            },
            _ => {
                i += 1;
            },
        }
    }
    proof {
        assert(pairs_view(calls@) + Seq::<(Seq<char>, Seq<char>)>::empty() =~= pairs_view(calls@));
    }
    (calls, i)
}

fn collect_answers(items: &[InputItem], from: usize) -> (r: (Vec<(String, String)>, usize))
    requires
        from <= items@.len(),
    ensures
        pairs_view(r.0@) == answers(items@, from as int),
        r.1 == answers_end(items@, from as int),
        from <= r.1 <= items@.len(),
{
    let mut batch: Vec<(String, String)> = Vec::new();
    let mut i: usize = from;
    proof {
        assert(pairs_view(batch@) + answers(items@, i as int) =~= answers(items@, i as int));
    }
    while i < items.len()
        invariant
            from <= i <= items@.len(),
            answers_end(items@, from as int) == answers_end(items@, i as int),
            answers(items@, from as int) == pairs_view(batch@) + answers(items@, i as int),
        decreases items.len() - i,
    {
        let ghost before = pairs_view(batch@);
        match &items[i] {
            InputItem::FunctionCallOutput(o) => {
                let text = o.output_text();
                let ghost said = text@;
                batch.push((String::new(), text));
                i += 1;
                proof {
                    let x = (Seq::<char>::empty(), said);
                    assert(pairs_view(batch@) =~= before.push(x));
                    assert(before + (seq![x] + answers(items@, i as int)) =~= before.push(x)
                        + answers(items@, i as int));
                }
            },
            InputItem::Message(_) | InputItem::FunctionCall(_) => {
                proof {
                    assert(before + Seq::<(Seq<char>, Seq<char>)>::empty() =~= before);
                }
                return (batch, i);
            },
            _ => {
                i += 1;
            },
        }
    }
    proof {
        assert(pairs_view(batch@) + Seq::<(Seq<char>, Seq<char>)>::empty() =~= pairs_view(batch@));
    }
    (batch, i)
}

/// The turns of a run of items; also those behind a resume point.
pub fn render_items(items: &[InputItem]) -> (r: Vec<ReplayOp>)
    ensures
        replay_view(r@) == item_turns(items@, 0),
{
    let mut ops: Vec<ReplayOp> = Vec::new();
    let mut i: usize = 0;
    proof {
        assert(replay_view(ops@) + item_turns(items@, 0) =~= item_turns(items@, 0));
    }
    while i < items.len()
        invariant
            i <= items@.len(),
            item_turns(items@, 0) == replay_view(ops@) + item_turns(items@, i as int),
        decreases items.len() - i,
    {
        let ghost before = replay_view(ops@);
        let ghost at = i as int;
        proof {
            lemma_runs(items@, at + 1);
        }
        let op: Option<ReplayOp> = match &items[i] {
            InputItem::Message(m) => {
                let text = m.content.as_text();
                if m.is_assistant() {
                    let ghost said = text@;
                    let (calls, next) = collect_calls(items, i + 1);
                    let ghost found = pairs_view(calls@);
                    i = next;
                    if calls.len() == 0 {
                        proof {
                            assert(found.len() == 0);
                        }
                        Some(ReplayOp::Assistant(text))
                    } else {
                        proof {
                            assert(found.len() > 0);
                        }
                        let content = if text.as_str().is_empty() {
                            None
                        } else {
                            Some(text)
                        };
                        Some(ReplayOp::AssistantWithToolCalls { content, calls })
                    }
                } else {
                    i += 1;
                    match m.role {
                        Role::User => Some(ReplayOp::User(decorate(text.as_str(), true))),
                        _ => Some(ReplayOp::System(text)),
                    }
                }
            },
            InputItem::FunctionCall(_) => {
                let (calls, next) = collect_calls(items, i);
                i = next;
                Some(ReplayOp::AssistantWithToolCalls { content: None, calls })
            },
            InputItem::FunctionCallOutput(_) => {
                let (batch, next) = collect_answers(items, i);
                i = next;
                Some(ReplayOp::AnswerBatch(batch))
            },
            _ => {
                i += 1;
                None
            },
        };
        match op {
            Some(o) => {
                let ghost v = o@;
                ops.push(o);
                proof {
                    assert(replay_view(ops@) =~= before.push(v));
                    assert(item_turns(items@, at) == seq![v] + item_turns(items@, i as int));
                    assert(before + (seq![v] + item_turns(items@, i as int)) =~= before.push(v)
                        + item_turns(items@, i as int));
                }
            },
            None => {},
        }
    }
    proof {
        assert(replay_view(ops@) + Seq::<ReplayView>::empty() =~= replay_view(ops@));
    }
    ops
}

/// The turns of a whole conversation: instructions and tool schemas in front.
pub open spec fn full_items(
    instructions: Option<Seq<char>>,
    items: Seq<InputItem>,
    schemas: Seq<Seq<char>>,
) -> Seq<ReplayView> {
    (if schemas.len() > 0 {
        seq![ReplayView::EquipAfterSystem { system: instructions, tools: schemas }]
    } else {
        match instructions {
            Some(s) => seq![ReplayView::System(s)],
            None => Seq::empty(),
        }
    }) + item_turns(items, 0)
}

/// The turns of a whole conversation.
pub fn render_full(instructions: Option<&str>, items: &[InputItem], tool_schemas: &[String]) -> (r:
    Vec<ReplayOp>)
    ensures
        replay_view(r@) == full_items(
            match instructions {
                Some(s) => Some(s@),
                None => None,
            },
            items@,
            texts(tool_schemas@),
        ),
{
    let mut ops: Vec<ReplayOp> = Vec::new();
    proof {
        assert(texts(tool_schemas@).len() == tool_schemas@.len());
    }
    if tool_schemas.len() > 0 {
        let system = match instructions {
            Some(s) => Some(s.to_owned()),
            None => None,
        };
        ops.push(ReplayOp::EquipAfterSystem { system, tools: copy_texts(tool_schemas) });
    } else {
        match instructions {
            Some(s) => {
                ops.push(ReplayOp::System(s.to_owned()));
            },
            None => {},
        }
    }
    let ghost head = replay_view(ops@);
    let mut rest = render_items(items);
    let ghost tail = replay_view(rest@);
    ops.append(&mut rest);
    proof {
        assert(replay_view(ops@) =~= head + tail);
        assert(replay_view(ops@) =~= full_items(
            match instructions {
                Some(s) => Some(s@),
                None => None,
            },
            items@,
            texts(tool_schemas@),
        ));
    }
    ops
}

// ---------------------------------------------------------------------------
// Laws
// ---------------------------------------------------------------------------

proof fn lemma_shift(items: Seq<InputItem>, split: int, i: int)
    requires
        0 <= split,
        0 <= i,
        split + i <= items.len(),
    ensures
        run_end(items, split + i) == split + run_end(items.skip(split), i),
        run_calls(items, split + i) == run_calls(items.skip(split), i),
        answers_end(items, split + i) == split + answers_end(items.skip(split), i),
        answers(items, split + i) == answers(items.skip(split), i),
    decreases items.len() - split - i,
{
    if split + i < items.len() {
        assert(items.skip(split)[i] == items[split + i]);
        lemma_shift(items, split, i + 1);
    }
}

proof fn lemma_turns_shift(items: Seq<InputItem>, split: int, i: int)
    requires
        0 <= split,
        0 <= i,
        split + i <= items.len(),
    ensures
        item_turns(items, split + i) == item_turns(items.skip(split), i),
    decreases items.len() - split - i,
{
    let s = items.skip(split);
    if split + i < items.len() {
        assert(s[i] == items[split + i]);
        lemma_shift(items, split, i);
        lemma_shift(items, split, i + 1);
        lemma_runs(s, i + 1);
        match s[i] {
            InputItem::Message(m) => {
                if m.role == Role::Assistant {
                    lemma_turns_shift(items, split, run_end(s, i + 1));
                } else {
                    lemma_turns_shift(items, split, i + 1);
                }
            },
            InputItem::FunctionCall(c) => {
                lemma_turns_shift(items, split, run_end(s, i));
            },
            InputItem::FunctionCallOutput(o) => {
                lemma_turns_shift(items, split, answers_end(s, i));
            },
            _ => {
                lemma_turns_shift(items, split, i + 1);
            },
        }
    }
}

/// Silent items from `a` up to `b`.
spec fn all_silent(items: Seq<InputItem>, a: int, b: int) -> bool {
    forall|k: int| a <= k < b ==> silent(#[trigger] items[k])
}

proof fn lemma_silence_is_passed(items: Seq<InputItem>, a: int, b: int)
    requires
        0 <= a <= b <= items.len(),
        all_silent(items, a, b),
    ensures
        item_turns(items, a) == item_turns(items, b),
    decreases b - a,
{
    if a < b {
        assert(silent(items[a]));
        lemma_silence_is_passed(items, a + 1, b);
    }
}

/// Nothing at or behind `split` is a call.
spec fn no_call_behind(items: Seq<InputItem>, split: int) -> bool {
    forall|k: int| split <= k < items.len() ==> !((#[trigger] items[k]) is FunctionCall)
}

proof fn lemma_run_cut(items: Seq<InputItem>, split: int, i: int)
    requires
        0 <= i <= split <= items.len(),
        no_call_behind(items, split),
    ensures
        run_calls(items, i) == run_calls(items.take(split), i),
        run_end(items, i) < split ==> run_end(items.take(split), i) == run_end(items, i),
        run_end(items, i) >= split ==> run_end(items.take(split), i) == split && all_silent(
            items,
            split,
            run_end(items, i),
        ),
    decreases split - i,
{
    let t = items.take(split);
    if i < split {
        assert(t[i] == items[i]);
        lemma_run_cut(items, split, i + 1);
    } else {
        lemma_runs(items, i);
        lemma_run_behind(items, split, i);
    }
}

proof fn lemma_run_behind(items: Seq<InputItem>, split: int, i: int)
    requires
        0 <= split <= i <= items.len(),
        no_call_behind(items, split),
    ensures
        run_calls(items, i) == Seq::<(Seq<char>, Seq<char>)>::empty(),
        all_silent(items, i, run_end(items, i)),
    decreases items.len() - i,
{
    if i < items.len() && silent(items[i]) {
        lemma_run_behind(items, split, i + 1);
    }
}

proof fn lemma_answers_cut(items: Seq<InputItem>, split: int, i: int)
    requires
        0 <= i < split <= items.len(),
        produced(items[split - 1]),
    ensures
        answers(items, i) == answers(items.take(split), i),
        answers_end(items, i) == answers_end(items.take(split), i),
        answers_end(items, i) < split,
    decreases split - i,
{
    assert(items.take(split)[i] == items[i]);
    if i + 1 < split {
        lemma_answers_cut(items, split, i + 1);
    }
}

proof fn lemma_turns_cut(items: Seq<InputItem>, split: int, i: int)
    requires
        0 <= i <= split <= items.len(),
        split > 0,
        produced(items[split - 1]),
        no_call_behind(items, split),
    ensures
        item_turns(items, i) == item_turns(items.take(split), i) + item_turns(items, split),
    decreases split - i,
{
    let t = items.take(split);
    let tail = item_turns(items, split);
    assert(item_turns(t, split) =~= Seq::<ReplayView>::empty());
    assert(Seq::<ReplayView>::empty() + tail =~= tail);
    if i < split {
        assert(t[i] == items[i]);
        lemma_runs(items, i + 1);
        match items[i] {
            InputItem::Message(m) => {
                if m.role == Role::Assistant {
                    let e = run_end(items, i + 1);
                    lemma_run_cut(items, split, i + 1);
                    if e < split {
                        lemma_turns_cut(items, split, e);
                    } else {
                        lemma_silence_is_passed(items, split, e);
                    }
                    lemma_one_turn_in_front(
                        spoken_turn(m.content.said(), run_calls(items, i + 1)),
                        item_turns(t, run_end(t, i + 1)),
                        tail,
                    );
                } else {
                    lemma_turns_cut(items, split, i + 1);
                    lemma_one_turn_in_front(
                        item_turns(items, i)[0],
                        item_turns(t, i + 1),
                        tail,
                    );
                }
            },
            InputItem::FunctionCall(c) => {
                let e = run_end(items, i);
                lemma_run_cut(items, split, i);
                if e < split {
                    lemma_turns_cut(items, split, e);
                } else {
                    lemma_silence_is_passed(items, split, e);
                }
                lemma_one_turn_in_front(
                    item_turns(items, i)[0],
                    item_turns(t, run_end(t, i)),
                    tail,
                );
            },
            InputItem::FunctionCallOutput(o) => {
                lemma_answers_cut(items, split, i);
                lemma_turns_cut(items, split, answers_end(items, i));
                lemma_one_turn_in_front(
                    item_turns(items, i)[0],
                    item_turns(t, answers_end(t, i)),
                    tail,
                );
            },
            _ => {
                lemma_turns_cut(items, split, i + 1);
            },
        }
    }
}

proof fn lemma_one_turn_in_front(v: ReplayView, a: Seq<ReplayView>, b: Seq<ReplayView>)
    ensures
        seq![v] + (a + b) == (seq![v] + a) + b,
{
    assert(seq![v] + (a + b) =~= (seq![v] + a) + b);
}

proof fn lemma_none_behind(items: Seq<InputItem>, n: int, split: int)
    requires
        0 < split,
        0 <= n <= items.len(),
        last_produced(items, n) == Some(split - 1),
    ensures
        split <= n,
        produced(items[split - 1]),
        forall|k: int| split <= k < n ==> !produced(#[trigger] items[k]),
    decreases n,
{
    if !produced(items[n - 1]) {
        lemma_none_behind(items, n - 1, split);
    }
}

/// A resumed context is the rebuilt one: the turns in front of the resume point
/// followed by those of the suffix are the turns of the whole list.
pub proof fn law_a_resumed_context_is_the_rebuilt_one(items: Seq<InputItem>, split: int)
    requires
        0 < split <= items.len(),
        last_produced(items, items.len() as int) == Some(split - 1),
    ensures
        item_turns(items, 0) == item_turns(items.take(split), 0) + item_turns(
            items.skip(split),
            0,
        ),
{
    lemma_none_behind(items, items.len() as int, split);
    assert forall|k: int| split <= k < items.len() implies !((#[trigger] items[k]) is FunctionCall) by {
        assert(!produced(items[k]));
    }
    lemma_turns_cut(items, split, 0);
    lemma_turns_shift(items, split, 0);
}

/// The items from `i` on that have a canonical form.
pub open spec fn kept_from(items: Seq<InputItem>, i: int) -> Seq<InputItem>
    decreases items.len() - i,
{
    if i < 0 || i >= items.len() {
        Seq::empty()
    } else if silent(items[i]) {
        kept_from(items, i + 1)
    } else {
        seq![items[i]] + kept_from(items, i + 1)
    }
}

proof fn lemma_runs_kept(items: Seq<InputItem>, i: int)
    requires
        0 <= i <= items.len(),
    ensures
        ({
            let k = kept_from(items, i);
            &&& 0 <= run_end(k, 0) <= k.len()
            &&& run_calls(items, i) == run_calls(k, 0)
            &&& kept_from(items, run_end(items, i)) == k.skip(run_end(k, 0))
            &&& 0 <= answers_end(k, 0) <= k.len()
            &&& answers(items, i) == answers(k, 0)
            &&& kept_from(items, answers_end(items, i)) == k.skip(answers_end(k, 0))
        }),
    decreases items.len() - i,
{
    let k = kept_from(items, i);
    lemma_runs(k, 0);
    assert(k.skip(0) =~= k);
    if i < items.len() {
        lemma_runs_kept(items, i + 1);
        if !silent(items[i]) {
            let rest = kept_from(items, i + 1);
            assert(k.skip(1) =~= rest);
            lemma_shift(k, 1, 0);
            assert(k.skip(1 + run_end(rest, 0)) =~= rest.skip(run_end(rest, 0)));
            assert(k.skip(1 + answers_end(rest, 0)) =~= rest.skip(answers_end(rest, 0)));
            assert(k[0] == items[i]);
        }
    }
}

proof fn lemma_turns_kept(items: Seq<InputItem>, i: int)
    requires
        0 <= i <= items.len(),
    ensures
        item_turns(items, i) == item_turns(kept_from(items, i), 0),
    decreases items.len() - i,
{
    if i < items.len() {
        let k = kept_from(items, i);
        lemma_runs(items, i + 1);
        lemma_runs_kept(items, i);
        lemma_runs_kept(items, i + 1);
        if silent(items[i]) {
            lemma_turns_kept(items, i + 1);
        } else {
            let rest = kept_from(items, i + 1);
            assert(k[0] == items[i]);
            assert(k.skip(1) =~= rest);
            lemma_runs(rest, 0);
            lemma_runs(k, 0);
            lemma_shift(k, 1, 0);
            match items[i] {
                InputItem::Message(m) => {
                    if m.role == Role::Assistant {
                        let e = run_end(rest, 0);
                        lemma_turns_kept(items, run_end(items, i + 1));
                        lemma_turns_shift(k, 1 + e, 0);
                        assert(k.skip(1 + e) =~= rest.skip(e));
                    } else {
                        lemma_turns_kept(items, i + 1);
                        lemma_turns_shift(k, 1, 0);
                    }
                },
                InputItem::FunctionCall(c) => {
                    lemma_turns_kept(items, run_end(items, i));
                    lemma_turns_shift(k, run_end(k, 0), 0);
                },
                InputItem::FunctionCallOutput(o) => {
                    lemma_turns_kept(items, answers_end(items, i));
                    lemma_turns_shift(k, answers_end(k, 0), 0);
                },
                _ => {},
            }
        }
    }
}

proof fn lemma_canons_kept(items: Seq<InputItem>, i: int)
    requires
        0 <= i <= items.len(),
    ensures
        canons(items.skip(i), items.len() - i) == canons(
            kept_from(items, i),
            kept_from(items, i).len() as int,
        ),
        kept_from(items, i).len() == canons(items.skip(i), items.len() - i).len(),
        forall|j: int|
            0 <= j < kept_from(items, i).len() ==> canon_of(#[trigger] kept_from(items, i)[j])
                == Some(canons(items.skip(i), items.len() - i)[j]),
    decreases items.len() - i,
{
    if i < items.len() {
        lemma_canons_kept(items, i + 1);
        let one = seq![items[i]];
        let rest = items.skip(i + 1);
        let kept = kept_from(items, i + 1);
        assert(items.skip(i) =~= one + rest);
        lemma_canons_cat(one, rest, rest.len() as int);
        lemma_canons_cat(one, kept, kept.len() as int);
        assert(canons(one, 1) =~= match canon_of(items[i]) {
            Some(c) => seq![c],
            None => Seq::empty(),
        }) by {
            assert(canons(one, 0) =~= Seq::<CanonView>::empty());
        }
        let c = canons(rest, rest.len() as int);
        if silent(items[i]) {
            assert(canons(items.skip(i), items.len() - i) =~= c);
        } else {
            let x = canon_of(items[i])->0;
            assert(canons(items.skip(i), items.len() - i) =~= seq![x] + c);
            let k = kept_from(items, i);
            assert forall|j: int| 0 <= j < k.len() implies canon_of(#[trigger] k[j]) == Some(
                (seq![x] + c)[j],
            ) by {
                if j > 0 {
                    assert(k[j] == kept[j - 1]);
                }
            }
        }
    }
}

/// Two lists of items with the same canonical forms.
spec fn alike(a: Seq<InputItem>, b: Seq<InputItem>) -> bool {
    &&& a.len() == b.len()
    &&& forall|i: int|
        #![trigger a[i]]
        #![trigger b[i]]
        0 <= i < a.len() ==> canon_of(a[i]) is Some && canon_of(a[i]) == canon_of(b[i])
}

proof fn lemma_roles_told_apart(a: Role, b: Role)
    requires
        role_text(a) == role_text(b),
    ensures
        a == b,
{
    reveal_strlit("user");
    reveal_strlit("assistant");
    reveal_strlit("system");
    reveal_strlit("developer");
    assert("user"@.len() == 4 && "system"@.len() == 6 && "assistant"@.len() == 9
        && "developer"@.len() == 9);
    assert("assistant"@[0] != "developer"@[0]);
}

proof fn lemma_runs_alike(a: Seq<InputItem>, b: Seq<InputItem>, i: int)
    requires
        alike(a, b),
        0 <= i <= a.len(),
    ensures
        run_end(a, i) == run_end(b, i),
        run_calls(a, i) == run_calls(b, i),
        answers_end(a, i) == answers_end(b, i),
        answers(a, i) == answers(b, i),
    decreases a.len() - i,
{
    if i < a.len() {
        assert(canon_of(a[i]) == canon_of(b[i]));
        lemma_runs_alike(a, b, i + 1);
    }
}

proof fn lemma_turns_alike(a: Seq<InputItem>, b: Seq<InputItem>, i: int)
    requires
        alike(a, b),
        0 <= i <= a.len(),
    ensures
        item_turns(a, i) == item_turns(b, i),
    decreases a.len() - i,
{
    if i < a.len() {
        assert(canon_of(a[i]) is Some && canon_of(a[i]) == canon_of(b[i]));
        lemma_runs(a, i + 1);
        lemma_runs_alike(a, b, i);
        lemma_runs_alike(a, b, i + 1);
        match a[i] {
            InputItem::Message(m) => {
                lemma_roles_told_apart(m.role, b[i]->Message_0.role);
                if m.role == Role::Assistant {
                    lemma_turns_alike(a, b, run_end(a, i + 1));
                } else {
                    lemma_turns_alike(a, b, i + 1);
                }
            },
            InputItem::FunctionCall(c) => {
                lemma_turns_alike(a, b, run_end(a, i));
            },
            InputItem::FunctionCallOutput(o) => {
                lemma_turns_alike(a, b, answers_end(a, i));
            },
            _ => {},
        }
    }
}

/// What is rendered depends on the canonical forms alone, which an address is made
/// of: lists with the same canonical forms, and so with the same address, render
/// alike.
pub proof fn law_rendering_depends_on_canonical_forms(a: Seq<InputItem>, b: Seq<InputItem>)
    requires
        canons(a, a.len() as int) == canons(b, b.len() as int),
    ensures
        item_turns(a, 0) == item_turns(b, 0),
{
    lemma_canons_kept(a, 0);
    lemma_canons_kept(b, 0);
    assert(a.skip(0) =~= a);
    assert(b.skip(0) =~= b);
    let x = kept_from(a, 0);
    let y = kept_from(b, 0);
    assert(alike(x, y)) by {
        assert forall|i: int|
            #![trigger x[i]]
            #![trigger y[i]]
            0 <= i < x.len() implies canon_of(x[i]) is Some && canon_of(x[i]) == canon_of(y[i]) by {
            assert(canon_of(x[i]) == Some(canons(a, a.len() as int)[i]));
            assert(canon_of(y[i]) == Some(canons(b, b.len() as int)[i]));
        }
    }
    lemma_turns_alike(x, y, 0);
    lemma_turns_kept(a, 0);
    lemma_turns_kept(b, 0);
}

/// An item that has no canonical form does not change what is rendered, wherever it
/// stands.
pub proof fn law_silent_items_do_not_change_the_rendering(
    a: Seq<InputItem>,
    skipped: InputItem,
    b: Seq<InputItem>,
)
    requires
        canon_of(skipped) is None,
    ensures
        item_turns(a.push(skipped) + b, 0) == item_turns(a + b, 0),
{
    law_unrendered_items_do_not_move_the_address(a, skipped, b);
    law_rendering_depends_on_canonical_forms(a.push(skipped) + b, a + b);
}

} // verus!
