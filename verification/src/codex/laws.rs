//! What a Codex request becomes: every item is replayed, behind the instructions and
//! the tools.

use vstd::prelude::*;
use vstd::string::*;

use crate::chat::handler::PREFILL_CHUNK;
use crate::chat::prompt::ascii_alphanumeric;
use crate::chat::render::user_text;
use crate::chat::turn::{call_id, Flow, TextView};
use crate::codex::drive::{
    fixed_of, next, pass_end, rendered, response_of, AskView, DriveView, FixedView, FrameView,
    HappenedView, Phase,
};
use crate::codex::handler::{
    closed, item_id, message_id, opened, routed, scope_chars, scope_of, tokened, whole, EventView, ItemView,
    Route, StreamView, TurnSetup, Verb,
};
use crate::codex::replay::{
    answers, answers_end, full_items, item_turns, lemma_runs, run_calls, run_end, spoken_turn,
};
use crate::codex::session::{canons, last_produced, name_of, turn_items};
use crate::codex::types::{InputItem, ItemStatus, ResponseStatus, Role};
use crate::format::{dec, lemma_dec_injective};
use crate::json::Tree;
use crate::markup::{fed, finished};
use crate::replay::{call_pieces, lemma_pieces, pieces_by, pieces_in, uttered, Piece, ReplayView};
use crate::serving::laws::{at, law_an_error_reads_back};
use crate::serving::streaming::CallOut;
use crate::text::trim_end;

verus! {

/// What an item adds to the conversation. References, reasoning and items of an
/// unknown type add nothing.
pub open spec fn item_pieces(item: InputItem) -> Seq<Piece> {
    match item {
        InputItem::Message(m) => match m.role {
            Role::Assistant => uttered(m.content.said(), Piece::Assistant(m.content.said())),
            Role::User => seq![Piece::User(user_text(m.content.said(), true))],
            _ => uttered(m.content.said(), Piece::System(m.content.said())),
        },
        InputItem::FunctionCall(c) => seq![Piece::Call(c.name@, c.arguments@)],
        InputItem::FunctionCallOutput(o) => seq![Piece::Result(o.said())],
        _ => Seq::empty(),
    }
}

/// What the items from `a` up to `b` add.
pub open spec fn items_pieces(items: Seq<InputItem>, a: int, b: int) -> Seq<Piece>
    decreases b - a,
{
    if a >= b {
        Seq::empty()
    } else {
        item_pieces(items[a]) + items_pieces(items, a + 1, b)
    }
}

proof fn lemma_pieces_split(items: Seq<InputItem>, a: int, k: int, b: int)
    requires
        a <= k <= b,
    ensures
        items_pieces(items, a, b) == items_pieces(items, a, k) + items_pieces(items, k, b),
    decreases k - a,
{
    if a < k {
        lemma_pieces_split(items, a + 1, k, b);
        assert(item_pieces(items[a]) + (items_pieces(items, a + 1, k) + items_pieces(items, k, b))
            =~= (item_pieces(items[a]) + items_pieces(items, a + 1, k)) + items_pieces(items, k, b));
    } else {
        assert(Seq::<Piece>::empty() + items_pieces(items, k, b) =~= items_pieces(items, k, b));
    }
}

proof fn lemma_run_pieces(items: Seq<InputItem>, i: int)
    requires
        0 <= i <= items.len(),
    ensures
        items_pieces(items, i, run_end(items, i)) == call_pieces(run_calls(items, i)),
        items_pieces(items, i, answers_end(items, i)) == Seq::new(
            answers(items, i).len(),
            |k: int| Piece::Result(answers(items, i)[k].1),
        ),
    decreases items.len() - i,
{
    lemma_runs(items, i);
    if i < items.len() {
        lemma_run_pieces(items, i + 1);
        lemma_runs(items, i + 1);
    }
    if i < items.len() && run_end(items, i) > i {
        assert(call_pieces(run_calls(items, i)) =~= item_pieces(items[i]) + call_pieces(
            run_calls(items, i + 1),
        ));
    } else {
        assert(call_pieces(run_calls(items, i)) =~= Seq::<Piece>::empty());
    }
    let results = |s: Seq<(Seq<char>, Seq<char>)>| Seq::new(s.len(), |k: int| Piece::Result(s[k].1));
    if i < items.len() && answers_end(items, i) > i {
        assert(results(answers(items, i)) =~= item_pieces(items[i]) + results(answers(items, i + 1)));
    } else {
        assert(results(answers(items, i)) =~= Seq::<Piece>::empty());
    }
}

proof fn lemma_items_replayed(items: Seq<InputItem>, i: int)
    requires
        0 <= i <= items.len(),
    ensures
        pieces_by(item_turns(items, i)) == items_pieces(items, i, items.len() as int),
    decreases items.len() - i,
{
    let n = items.len() as int;
    if i < n {
        lemma_runs(items, i);
        lemma_runs(items, i + 1);
        match items[i] {
            InputItem::Message(m) => {
                if m.role == Role::Assistant {
                    let e = run_end(items, i + 1);
                    let text = m.content.said();
                    let op = spoken_turn(text, run_calls(items, i + 1));
                    lemma_items_replayed(items, e);
                    lemma_run_pieces(items, i + 1);
                    lemma_pieces(op, item_turns(items, e));
                    lemma_pieces_split(items, i + 1, e, n);
                    assert(pieces_in(op) =~= uttered(text, Piece::Assistant(text)) + call_pieces(
                        run_calls(items, i + 1),
                    ));
                    assert(pieces_by(item_turns(items, i)) =~= items_pieces(items, i, n));
                } else {
                    lemma_items_replayed(items, i + 1);
                    let op = if m.role == Role::User {
                        ReplayView::User(user_text(m.content.said(), true))
                    } else {
                        ReplayView::System(m.content.said())
                    };
                    lemma_pieces(op, item_turns(items, i + 1));
                }
            },
            InputItem::FunctionCall(c) => {
                let e = run_end(items, i);
                let op = ReplayView::AssistantWithToolCalls {
                    content: None,
                    calls: run_calls(items, i),
                };
                lemma_items_replayed(items, e);
                lemma_run_pieces(items, i);
                lemma_pieces(op, item_turns(items, e));
                lemma_pieces_split(items, i, e, n);
                assert(pieces_in(op) =~= call_pieces(run_calls(items, i)));
            },
            InputItem::FunctionCallOutput(o) => {
                let e = answers_end(items, i);
                let op = ReplayView::AnswerBatch(answers(items, i));
                lemma_items_replayed(items, e);
                lemma_run_pieces(items, i);
                lemma_pieces(op, item_turns(items, e));
                lemma_pieces_split(items, i, e, n);
            },
            _ => {
                lemma_items_replayed(items, i + 1);
                assert(items_pieces(items, i, n) =~= items_pieces(items, i + 1, n));
            },
        }
    }
}

/// Every item of a conversation is replayed, once and in its order: each message with
/// its text, each call with its tool and arguments, each result with its text.
pub proof fn law_every_item_is_replayed(items: Seq<InputItem>)
    ensures
        pieces_by(item_turns(items, 0)) == items_pieces(items, 0, items.len() as int),
{
    lemma_items_replayed(items, 0);
}

/// The instructions and the tools of a request open its rendering, whatever else it
/// has: with tools one turn holds the instructions and every schema, without tools the
/// instructions are a turn of their own. The items follow.
pub proof fn law_instructions_and_tools_lead(
    instructions: Option<Seq<char>>,
    items: Seq<InputItem>,
    schemas: Seq<Seq<char>>,
)
    ensures
        ({
            let ops = full_items(instructions, items, schemas);
            let rest = if instructions is Some || schemas.len() > 0 {
                ops.skip(1)
            } else {
                ops
            };
            &&& schemas.len() > 0 ==> ops.len() > 0 && ops[0] is EquipAfterSystem && ops[0]->tools
                == schemas && ops[0]->system == instructions
            &&& schemas.len() == 0 && instructions is Some ==> ops.len() > 0 && ops[0]
                == ReplayView::System(instructions->0)
            &&& pieces_by(rest) == items_pieces(items, 0, items.len() as int)
        }),
{
    law_every_item_is_replayed(items);
    let ops = full_items(instructions, items, schemas);
    if instructions is Some || schemas.len() > 0 {
        assert(ops.skip(1) =~= item_turns(items, 0));
    } else {
        assert(ops =~= item_turns(items, 0));
    }
}

/// Requests that differ in their instructions, or in their tools, are rendered
/// differently, where both say what they are.
pub proof fn law_instructions_change_the_rendering(
    a: Option<Seq<char>>,
    b: Option<Seq<char>>,
    items: Seq<InputItem>,
    s: Seq<Seq<char>>,
    t: Seq<Seq<char>>,
)
    requires
        a is Some && b is Some,
        a != b || s != t,
    ensures
        full_items(a, items, s) != full_items(b, items, t),
{
    law_instructions_and_tools_lead(a, items, s);
    law_instructions_and_tools_lead(b, items, t);
    if s.len() == 0 && t.len() == 0 {
        assert(s =~= t);
    }
}

/// Calls behind an assistant's text are one turn with it, and so are results that
/// follow each other: a turn with calls holds the next one too.
pub proof fn law_a_run_is_one_turn(items: Seq<InputItem>, i: int)
    requires
        0 <= i < items.len() - 1,
    ensures
        items[i] is Message && items[i]->Message_0.role == Role::Assistant
            && items[i + 1] is FunctionCall ==> {
            let op = item_turns(items, i)[0];
            &&& op is AssistantWithToolCalls
            &&& op->content == (if items[i]->Message_0.content.said().len() == 0 {
                None
            } else {
                Some(items[i]->Message_0.content.said())
            })
            &&& op->calls[0] == (
                items[i + 1]->FunctionCall_0.name@,
                items[i + 1]->FunctionCall_0.arguments@,
            )
        },
        items[i] is FunctionCall && items[i + 1] is FunctionCall ==> item_turns(
            items,
            i,
        )[0] is AssistantWithToolCalls && item_turns(items, i)[0]->calls.len() >= 2,
        items[i] is FunctionCallOutput && items[i + 1] is FunctionCallOutput ==> item_turns(
            items,
            i,
        )[0] is AnswerBatch && item_turns(items, i)[0]->AnswerBatch_0.len() >= 2,
{
    reveal_with_fuel(run_calls, 3);
    reveal_with_fuel(answers, 3);
}

// ---------------------------------------------------------------------------
// Turns
// ---------------------------------------------------------------------------

/// A scope holds letters, digits and hyphens only; a key made of these is its own
/// scope, and one that holds none of them, like no key, is of the common one.
pub proof fn law_a_scope_holds_letters_digits_and_hyphens(k: Seq<char>, i: int)
    ensures
        scope_of(None) == "global"@,
        0 <= i < scope_chars(k).len() ==> (ascii_alphanumeric(scope_chars(k)[i]) || scope_chars(k)[i]
            == '-') && k.contains(scope_chars(k)[i]),
        k.len() > 0 && (forall|j: int|
            0 <= j < k.len() ==> ascii_alphanumeric(#[trigger] k[j]) || k[j] == '-') ==> scope_of(Some(k))
            == k,
        (forall|j: int| 0 <= j < k.len() ==> !ascii_alphanumeric(#[trigger] k[j]) && k[j] != '-')
            ==> scope_of(Some(k)) == "global"@,
        scope_chars(k).len() > 0 ==> scope_of(Some(k)) == scope_chars(k),
{
    lemma_scope_chars(k);
    if forall|j: int| 0 <= j < k.len() ==> ascii_alphanumeric(#[trigger] k[j]) || k[j] == '-' {
        lemma_all_stay(k);
    }
    if forall|j: int| 0 <= j < k.len() ==> !ascii_alphanumeric(#[trigger] k[j]) && k[j] != '-' {
        if scope_chars(k).len() > 0 {
            let c = scope_chars(k)[0];
            let j = choose|j: int| 0 <= j < k.len() && k[j] == c;
            assert(!ascii_alphanumeric(k[j]));
        }
    }
}

proof fn lemma_scope_chars(k: Seq<char>)
    ensures
        forall|i: int|
            0 <= i < scope_chars(k).len() ==> (ascii_alphanumeric(#[trigger] scope_chars(k)[i])
                || scope_chars(k)[i] == '-') && k.contains(scope_chars(k)[i]),
    decreases k.len(),
{
    reveal(Seq::filter);
    if k.len() > 0 {
        let t = k.drop_last();
        lemma_scope_chars(t);
        assert forall|i: int| 0 <= i < scope_chars(k).len() implies (ascii_alphanumeric(
            #[trigger] scope_chars(k)[i],
        ) || scope_chars(k)[i] == '-') && k.contains(scope_chars(k)[i]) by {
            if i < scope_chars(t).len() {
                let c = scope_chars(t)[i];
                assert(scope_chars(k)[i] == c);
                let j = choose|j: int| 0 <= j < t.len() && t[j] == c;
                assert(k[j] == c);
            } else {
                assert(k[k.len() - 1] == k.last());
            }
        }
    }
}

proof fn lemma_all_stay(k: Seq<char>)
    requires
        forall|j: int| 0 <= j < k.len() ==> ascii_alphanumeric(#[trigger] k[j]) || k[j] == '-',
    ensures
        scope_chars(k) == k,
    decreases k.len(),
{
    reveal(Seq::filter);
    if k.len() > 0 {
        lemma_all_stay(k.drop_last());
        assert(ascii_alphanumeric(k[k.len() - 1]) || k[k.len() - 1] == '-');
        assert(k =~= k.drop_last().push(k.last()));
    } else {
        assert(scope_chars(k) =~= k);
    }
}

/// The ids of two calls of a turn differ, and so do those of their items.
pub proof fn law_ids_are_told_apart(uniq: Seq<char>, a: nat, b: nat)
    requires
        a != b,
    ensures
        item_id(uniq, a) != item_id(uniq, b),
        call_id(uniq, a) != call_id(uniq, b),
        item_id(uniq, a) != message_id(uniq),
{
    let f = "fc_"@ + uniq + "_"@;
    let c = "call_"@ + uniq + "_"@;
    if item_id(uniq, a) == item_id(uniq, b) {
        assert(item_id(uniq, a).skip(f.len() as int) =~= dec(a));
        assert(item_id(uniq, b).skip(f.len() as int) =~= dec(b));
        lemma_dec_injective(a, b);
    }
    if call_id(uniq, a) == call_id(uniq, b) {
        assert(call_id(uniq, a).skip(c.len() as int) =~= dec(a));
        assert(call_id(uniq, b).skip(c.len() as int) =~= dec(b));
        lemma_dec_injective(a, b);
    }
    reveal_strlit("fc_");
    reveal_strlit("msg_");
    assert(item_id(uniq, a)[0] == 'f');
    assert(message_id(uniq)[0] == 'm');
}

/// What a token brings, its turn keeps: the token is counted, a call is added
/// behind the others with an item of its own that names its tool and arguments,
/// and shown text stands behind the text. A stop token or the end of the text ends
/// the turn, and behind a stop token no text is taken.
pub proof fn law_a_token_is_kept(
    uniq: Seq<char>,
    v: StreamView,
    call: Option<(Seq<char>, Seq<char>)>,
    stop: bool,
    text: TextView,
)
    ensures
        ({
            let w = tokened(uniq, v, call, stop, text).0;
            let flow = tokened(uniq, v, call, stop, text).1;
            &&& w.generated == v.generated + 1
            &&& flow == Flow::Break <==> stop || text is Done
            &&& match call {
                Some(c) => w.calls == v.calls.push((call_id(uniq, v.calls.len()), c.0, c.1))
                    && w.output.len() == v.output.len() + 1 && match w.output.last() {
                    ItemView::Call { id, call_id: tied, name, arguments, status } => name == c.0
                        && arguments == c.1 && tied == call_id(uniq, v.calls.len()) && id == item_id(
                        uniq,
                        v.calls.len(),
                    ) && status == ItemStatus::Completed,
                    _ => false,
                },
                None => w.calls == v.calls && w.output == v.output,
            }
            &&& !stop && text is Delta ==> w.visible == v.visible + fed(v.filter, text->Delta_0, 2).1
                && w.filter == fed(v.filter, text->Delta_0, 2).0
            &&& stop || !(text is Delta) ==> w.visible == v.visible && w.filter == v.filter
        }),
{
    if !stop && text is Delta {
        let shown = fed(v.filter, text->Delta_0, 2).1;
        if shown.len() == 0 {
            assert(v.visible + shown =~= v.visible);
        }
    }
}

/// A closed turn says all that it showed and held back, without the white space at
/// its end. Its message is the last item, the assistant's, and incomplete exactly
/// where the turn has as many tokens as it may.
pub proof fn law_a_closed_turn_says_its_text(uniq: Seq<char>, v: StreamView, max_tokens: usize)
    ensures
        ({
            let c = closed(uniq, v, max_tokens);
            &&& c.visible == trim_end(v.visible + finished(v.filter).1)
            &&& c.calls == v.calls
            &&& c.generated == v.generated
            &&& v.calls.len() == 0 || v.message is Some || finished(v.filter).1.len() > 0
                ==> c.output.len() == v.output.len() + 1 && match c.output.last() {
                ItemView::Message { id, role, status, content } => id == message_id(uniq) && role
                    == Role::Assistant && content.len() == 1 && content[0].0 == c.visible && (status
                    == ItemStatus::Incomplete <==> v.generated >= max_tokens) && (status
                    == ItemStatus::Completed <==> v.generated < max_tokens),
                _ => false,
            }
            &&& v.calls.len() > 0 && v.message is None && finished(v.filter).1.len() == 0 ==> c.output
                == v.output
        }),
{
    let t = finished(v.filter).1;
    if t.len() == 0 {
        assert(v.visible + t =~= v.visible);
    }
}

/// The output of a turn that does not stream is its calls in order, each with its
/// ids, tool and arguments, and its message behind them where it says anything or
/// calls nothing.
pub proof fn law_an_output_is_calls_and_text(
    uniq: Seq<char>,
    visible: Seq<char>,
    calls: Seq<CallOut>,
    hit_max: bool,
    i: int,
)
    ensures
        ({
            let w = whole(uniq, visible, calls, hit_max);
            &&& visible.len() > 0 || calls.len() == 0 <==> w.len() == calls.len() + 1
            &&& visible.len() == 0 && calls.len() > 0 <==> w.len() == calls.len()
            &&& 0 <= i < calls.len() ==> match w[i] {
                ItemView::Call { id, call_id: tied, name, arguments, status } => id == item_id(
                    uniq,
                    i as nat,
                ) && tied == call_id(uniq, i as nat) && name == calls[i].1 && arguments == calls[i].2
                    && status == ItemStatus::Completed,
                _ => false,
            }
            &&& visible.len() > 0 || calls.len() == 0 ==> match w.last() {
                ItemView::Message { id, role, status, content } => id == message_id(uniq) && role
                    == Role::Assistant && content.len() == 1 && content[0].0 == visible && (status
                    == ItemStatus::Incomplete <==> hit_max),
                _ => false,
            }
        }),
{
}

/// A request is answered where it is posted to one of the two paths, told about the
/// server at the root, let through before a call from a browser, and not found
/// otherwise.
pub proof fn law_requests_go_to_their_routes(verb: Verb, path: Seq<char>)
    ensures
        routed(verb, path) == Route::Responses <==> verb == Verb::Post && (path == "/responses"@ || path
            == "/v1/responses"@),
        routed(verb, path) == Route::Info <==> verb == Verb::Get && path == "/"@,
        routed(verb, path) == Route::Preflight <==> verb == Verb::Options,
{
}

// ---------------------------------------------------------------------------
// Responses
// ---------------------------------------------------------------------------

/// The response of a finished turn is its own: its id, model and output, its tokens
/// as they were counted, and why it is incomplete exactly where it met its limit.
pub proof fn law_a_response_tells_its_turn(f: FixedView, v: DriveView, now: i64)
    requires
        0 <= v.prompt,
        0 <= v.cached,
        0 <= v.turn.generated,
        v.prompt + v.turn.generated <= u32::MAX,
        v.cached <= u32::MAX,
    ensures
        ({
            let r = response_of(f, v, now);
            let u = r.usage->0;
            &&& r.id == "resp_"@ + f.uniq
            &&& r.object == "response"@
            &&& r.model == f.model
            &&& r.completed_at == Some(now)
            &&& f.streaming ==> r.created_at == f.created && r.output == v.turn.output
            &&& r.usage is Some
            &&& u.input_tokens == v.prompt
            &&& u.input_tokens_details.cached_tokens == v.cached
            &&& u.output_tokens == v.turn.generated
            &&& u.total_tokens == u.input_tokens + u.output_tokens
            &&& r.status == ResponseStatus::Incomplete <==> v.turn.generated >= f.max_tokens
            &&& r.status == ResponseStatus::Completed <==> v.turn.generated < f.max_tokens
            &&& r.reason == Some("max_output_tokens"@) <==> r.status == ResponseStatus::Incomplete
            &&& r.reason is None <==> r.status == ResponseStatus::Completed
            &&& r.error is None
            &&& r.debug == Some(v.looked + "; "@ + v.kept)
        }),
{
}

/// A turn that is over is answered with its response: in a stream by a last frame
/// and its end, otherwise as it is.
pub proof fn law_a_finished_turn_is_answered(f: FixedView, v: DriveView, now: i64)
    ensures
        ({
            let w = next(f, v, HappenedView::Clock(now)).0;
            let ask = next(f, v, HappenedView::Clock(now)).1;
            &&& f.streaming ==> ask is End && w.frames == v.frames.push(
                FrameView::Completed(response_of(f, v, now)),
            ).push(FrameView::Done)
            &&& !f.streaming ==> ask == AskView::Respond(response_of(f, v, now)) && w.frames
                == v.frames
        }),
{
}

/// A failure is told with its message and what failed: in a stream by a failed
/// response and its end, otherwise by a fault of the server's.
pub proof fn law_a_failure_is_told(f: FixedView, v: DriveView, message: Seq<char>)
    ensures
        ({
            let w = next(f, v, HappenedView::Failed(message)).0;
            let ask = next(f, v, HappenedView::Failed(message)).1;
            &&& w.phase == Phase::Closed
            &&& f.streaming ==> ask is End && w.frames.len() == v.frames.len() + 2 && w.frames.last()
                is Done && match w.frames[w.frames.len() - 2] {
                FrameView::Failed(r) => r.status == ResponseStatus::Failed && r.id == "resp_"@ + f.uniq
                    && r.model == f.model && r.error is Some && r.error->0.message == message
                    && r.error->0.code == Some(
                    match v.phase {
                        Phase::Loading => "model_load_failed"@,
                        Phase::Filling => "prefill_failed"@,
                        Phase::Generating => "generation_failed"@,
                        _ => "context_build_failed"@,
                    },
                ) && r.error->0.error_type == "server_error"@,
                _ => false,
            }
            &&& !f.streaming ==> w.frames == v.frames && ask is Fault && at(
                at(ask->Fault_0, "error"@),
                "message"@,
            ) == Tree::Str(message) && at(at(ask->Fault_0, "error"@), "type"@) == Tree::Str(
                "server_error"@,
            )
        }),
{
    law_an_error_reads_back("server_error"@, message);
}

/// A turn resumes from the snapshot of everything up to the last thing that the
/// assistant produced; where it is found only what is behind that is rendered, and
/// where there is none, or it is gone, all is.
pub proof fn law_a_turn_resumes_behind_what_was_produced(f: FixedView, v: DriveView, cached: int, x: Seq<char>)
    ensures
        match last_produced(f.items, f.items.len() as int) {
            Some(i) => next(f, v, HappenedView::Loaded).1 == AskView::Open(
                name_of(f.scope, f.instructions, f.schemas, canons(f.items, i + 1)),
            ) && next(f, v, HappenedView::Loaded).0.split == i + 1 && next(
                f,
                v,
                HappenedView::Loaded,
            ).0.target == name_of(f.scope, f.instructions, f.schemas, canons(f.items, i + 1)),
            None => next(f, v, HappenedView::Loaded).1 == AskView::Render(
                full_items(f.instructions, f.items, f.schemas),
            ),
        },
        ({
            let w = next(f, v, HappenedView::Opened(cached)).0;
            &&& next(f, v, HappenedView::Opened(cached)).1 == AskView::Render(
                item_turns(f.items.skip(v.split), 0),
            )
            &&& w.name == Some(v.target)
            &&& w.cached == cached
        }),
        next(f, v, HappenedView::Missed(x)).1 == AskView::Render(
            full_items(f.instructions, f.items, f.schemas),
        ),
        next(f, v, HappenedView::Missed(x)).0.cached == v.cached,
        next(f, v, HappenedView::Missed(x)).0.name == v.name,
{
}

/// A turn is saved under the items that the next request will bring: those it was
/// asked with, and behind them what it told. What became of the save is in the
/// response's note.
pub proof fn law_a_turn_is_saved_under_what_was_told(f: FixedView, v: DriveView, n: int)
    ensures
        ({
            let w = next(f, v, HappenedView::Ended).0;
            &&& next(f, v, HappenedView::Ended).1 == AskView::Save(
                name_of(
                    f.scope,
                    f.instructions,
                    f.schemas,
                    canons(f.items, f.items.len() as int) + turn_items(w.turn.visible, w.turn.calls),
                ),
            )
            &&& next(f, v, HappenedView::Ended).1 == AskView::Save(w.target)
            &&& w.turn.visible == trim_end(v.turn.visible + finished(v.turn.filter).1)
            &&& w.turn.calls == v.turn.calls
        }),
        next(f, v, HappenedView::Kept(n)).0.kept == "saved "@ + v.target + " (seq "@ + dec(n as nat)
            + ")"@,
        v.name matches Some(old) ==> next(f, v, HappenedView::Kept(n)).1 == AskView::Delete(old),
        v.name is None ==> next(f, v, HappenedView::Kept(n)).1 is Clock,
{
    law_a_closed_turn_says_its_text(f.uniq, v.turn, f.max_tokens);
}

/// A pass takes no more tokens than a chunk, and as many as there are left up to
/// that; a new context is created before its first pass, a resumed one is there.
pub proof fn law_a_pass_is_a_chunk(v: DriveView, tokens: Seq<u32>, at: int, n: int)
    requires
        0 <= at < n,
    ensures
        at < pass_end(at, n) <= n,
        pass_end(at, n) - at <= PREFILL_CHUNK,
        pass_end(at, n) == n || pass_end(at, n) - at == PREFILL_CHUNK,
        v.name is None ==> rendered(v, tokens).1 is Create,
        v.name is Some && tokens.len() > 0 ==> rendered(v, tokens).1 == AskView::Prefill(
            tokens.subrange(0, pass_end(0, tokens.len() as int)),
        ),
        rendered(v, tokens).0.tokens == tokens && rendered(v, tokens).0.at == 0,
{
}

/// What a turn keeps of its request are its own scope, instructions, items, schemas
/// and limit.
pub proof fn law_a_turn_keeps_its_request(
    s: TurnSetup,
    streaming: bool,
    uniq: Seq<char>,
    model: Option<Seq<char>>,
    created: i64,
)
    ensures
        ({
            let f = fixed_of(s, streaming, uniq, model, created);
            &&& f.scope == s.cache_scope@
            &&& s.instructions matches Some(i) ==> f.instructions == Some(i@)
            &&& s.instructions is None ==> f.instructions is None
            &&& f.items == s.items@
            &&& f.schemas.len() == s.tool_schemas@.len()
            &&& forall|k: int|
                0 <= k < s.tool_schemas@.len() ==> #[trigger] f.schemas[k] == s.tool_schemas@[k]@
            &&& f.max_tokens == s.max_tokens
            &&& f.streaming == streaming && f.uniq == uniq && f.created == created
            &&& model matches Some(n) ==> f.model == n
            &&& model is None ==> f.model == "unknown"@
        }),
{
}

/// Every item has an index of its own: the next one is the number of calls and of
/// the message where it is open, before and behind each token. A call is told at the
/// index that was next, added and done at once.
pub proof fn law_items_are_numbered(
    uniq: Seq<char>,
    v: StreamView,
    call: Option<(Seq<char>, Seq<char>)>,
    stop: bool,
    text: TextView,
    max_tokens: usize,
)
    requires
        v.next == v.calls.len() + (if v.message is Some {
            1int
        } else {
            0
        }),
    ensures
        ({
            let w = tokened(uniq, v, call, stop, text).0;
            let c = closed(uniq, v, max_tokens);
            &&& w.next == w.calls.len() + (if w.message is Some {
                1int
            } else {
                0
            })
            &&& c.next == c.calls.len() + (if c.message is Some {
                1int
            } else {
                0
            })
            &&& v.message is Some ==> w.message == v.message && c.message == v.message
            &&& call is Some ==> w.events.len() >= v.events.len() + 2 && match (
                w.events[v.events.len() as int],
                w.events[v.events.len() as int + 1],
            ) {
                (EventView::ItemAdded(i, a), EventView::ItemDone(j, d)) => i == v.next && j == v.next
                    && a == d && d == w.output.last(),
                _ => false,
            }
        }),
{
}

/// A message is opened before its first text and closed behind its last, under its
/// own id and index: its item and its part are added empty, its text, its part and
/// its item are done with the whole text.
pub proof fn law_a_message_opens_and_closes(uniq: Seq<char>, v: StreamView, max_tokens: usize)
    requires
        v.message is Some,
    ensures
        ({
            let c = closed(uniq, v, max_tokens);
            let n = c.events.len() as int;
            let id = message_id(uniq);
            let i = v.message->0;
            &&& n >= 3
            &&& c.events[n - 3] == EventView::TextDone(id, i, 0, c.visible)
            &&& c.events[n - 2] == EventView::PartDone(id, i, 0, (c.visible, 0))
            &&& c.events[n - 1] == EventView::ItemDone(i, c.output.last())
        }),
        ({
            let w = StreamView { message: None, ..v };
            let o = opened(uniq, w);
            let n = w.events.len() as int;
            &&& o.message == Some(w.next)
            &&& o.events.len() == n + 2
            &&& match o.events[n] {
                EventView::ItemAdded(i, ItemView::Message { id, role, status, content }) => i == w.next
                    && id == message_id(uniq) && role == Role::Assistant && status
                    == ItemStatus::InProgress && content.len() == 0,
                _ => false,
            }
            &&& o.events[n + 1] == EventView::PartAdded(
                message_id(uniq),
                w.next,
                0,
                (Seq::empty(), 0),
            )
        }),
        opened(uniq, v) == v,
{
}

/// The ids of a turn hold what makes them its own: a fixed word, the turn's fragment
/// and, for a call, its number.
pub proof fn law_ids_hold_the_turn(uniq: Seq<char>, n: nat)
    ensures
        ({
            let t = "_"@ + dec(n);
            &&& item_id(uniq, n) == "fc_"@ + (uniq + t)
            &&& call_id(uniq, n) == "call_"@ + (uniq + t)
            &&& message_id(uniq) == "msg_"@ + uniq
        }),
{
    let t = "_"@ + dec(n);
    assert(item_id(uniq, n) =~= "fc_"@ + (uniq + t));
    assert(call_id(uniq, n) =~= "call_"@ + (uniq + t));
}

/// What a turn notes of its lookup: that there was nothing to resume, what it
/// resumed from and how much that held, or what it missed and why.
pub proof fn law_a_lookup_is_noted(f: FixedView, v: DriveView, cached: nat, x: Seq<char>, streaming: bool)
    ensures
        last_produced(f.items, f.items.len() as int) is None ==> next(f, v, HappenedView::Loaded).0.looked
            == "first turn (no resume point)"@,
        next(f, v, HappenedView::Opened(cached as int)).0.looked == "resume hit "@ + v.target
            + " (cached "@ + dec(cached) + ")"@,
        next(f, v, HappenedView::Missed(x)).0.looked == "resume miss "@ + v.target + ": "@ + x,
        next(f, v, HappenedView::Unsaved(x)).0.kept == "save "@ + v.target + " failed: "@ + x,
        next(f, v, HappenedView::Unflushed(x)).0.kept == "save flush failed: "@ + x,
        next(f, v, HappenedView::Unsaved(x)).1 is Clock && next(f, v, HappenedView::Unflushed(x)).1
            is Clock && next(f, v, HappenedView::Deleted).1 is Clock,
{
}

} // verus!
