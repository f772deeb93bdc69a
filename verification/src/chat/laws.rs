//! What a chat turn keeps of what it is given: every message is replayed, every new
//! call is registered and told, and a turn says why it finished.

use vstd::prelude::*;
use vstd::string::*;

use crate::chat::coder_xml::functions_from;
use crate::chat::render::{assistant_turn, full_turns, turns, unnamed, user_text};
use crate::chat::handler::{added_all, name_of, plain_content, salvaged_functions, salvaged_stream};
use crate::chat::streaming::frame;
use crate::chat::turn::{
    added, call_id, called, called_all, closed_stream, content_of, finish_of, flushed, salvaged, stopped,
    tokened, unplaced, Ending, Flow, RulesView, TextView, TurnView,
};
use crate::format::dec;
use crate::markup::{fed, finished};
use crate::replay::{lemma_pieces, pieces_by, pieces_in, uttered, Piece, ReplayView};
use crate::serving::filter::answer_of;
use crate::serving::laws::{at, calls_for, choice_of, law_what_is_sent_reads_back, nth};
use crate::serving::render::{lemma_roles, lemma_run_is_tools, lemma_tool_run, tool_run};
use crate::serving::salvage::{blocks_from, fenced_from};
use crate::serving::streaming::{content_tree, finish_tree, usage_chunk_tree, CallOut};
use crate::serving::session::{canon, chat_address};
use crate::serving::types::{message_text, MessageView};
use crate::json::{json_text, Tree};
use crate::text::{contains, law_trimming_the_end_drops_white_space, remove_all, trim, white};

verus! {

// ---------------------------------------------------------------------------
// Replay
// ---------------------------------------------------------------------------

/// What a message adds to the conversation.
pub open spec fn message_pieces(m: MessageView, no_think: bool) -> Seq<Piece> {
    let text = message_text(m);
    if m.role == "user"@ {
        seq![Piece::User(user_text(text, no_think))]
    } else if m.role == "assistant"@ {
        uttered(text, Piece::Assistant(text)) + Seq::new(
            m.calls.len(),
            |k: int| Piece::Call(m.calls[k].name, m.calls[k].arguments),
        )
    } else if m.role == "tool"@ {
        seq![Piece::Result(text)]
    } else {
        uttered(text, Piece::System(text))
    }
}

/// What the messages from `a` up to `b` add.
pub open spec fn messages_pieces(m: Seq<MessageView>, a: int, b: int, no_think: bool) -> Seq<Piece>
    decreases b - a,
{
    if a >= b {
        Seq::empty()
    } else {
        message_pieces(m[a], no_think) + messages_pieces(m, a + 1, b, no_think)
    }
}

proof fn lemma_pieces_split(m: Seq<MessageView>, a: int, k: int, b: int, no_think: bool)
    requires
        a <= k <= b,
    ensures
        messages_pieces(m, a, b, no_think) == messages_pieces(m, a, k, no_think)
            + messages_pieces(m, k, b, no_think),
    decreases k - a,
{
    if a < k {
        lemma_pieces_split(m, a + 1, k, b, no_think);
        let x = message_pieces(m[a], no_think);
        let y = messages_pieces(m, a + 1, k, no_think);
        let z = messages_pieces(m, k, b, no_think);
        assert(x + (y + z) =~= (x + y) + z);
    } else {
        assert(Seq::<Piece>::empty() + messages_pieces(m, k, b, no_think) =~= messages_pieces(
            m,
            k,
            b,
            no_think,
        ));
    }
}

proof fn lemma_results(m: Seq<MessageView>, a: int, b: int, no_think: bool)
    requires
        0 <= a <= b <= m.len(),
        forall|j: int| a <= j < b ==> (#[trigger] m[j]).role == "tool"@,
    ensures
        messages_pieces(m, a, b, no_think) == pieces_in(ReplayView::AnswerBatch(unnamed(m, a, b))),
    decreases b - a,
{
    lemma_roles();
    let all = pieces_in(ReplayView::AnswerBatch(unnamed(m, a, b)));
    if a < b {
        lemma_results(m, a + 1, b, no_think);
        let rest = pieces_in(ReplayView::AnswerBatch(unnamed(m, a + 1, b)));
        assert(all =~= message_pieces(m[a], no_think) + rest);
    } else {
        assert(all =~= Seq::<Piece>::empty());
    }
}

proof fn lemma_messages_replayed(m: Seq<MessageView>, i: int, no_think: bool)
    requires
        0 <= i <= m.len(),
        turns(m, i, no_think) is Ok,
    ensures
        pieces_by(turns(m, i, no_think)->Ok_0) == messages_pieces(
            m,
            i,
            m.len() as int,
            no_think,
        ),
    decreases m.len() - i,
{
    lemma_roles();
    let n = m.len() as int;
    if i < n {
        if m[i].role == "tool"@ {
            let e = tool_run(m, i);
            lemma_tool_run(m, i + 1);
            lemma_run_is_tools(m, i);
            lemma_messages_replayed(m, e, no_think);
            lemma_results(m, i, e, no_think);
            lemma_pieces_split(m, i, e, n, no_think);
            lemma_pieces(
                ReplayView::AnswerBatch(unnamed(m, i, e)),
                turns(m, e, no_think)->Ok_0,
            );
        } else {
            let text = message_text(m[i]);
            let op = if m[i].role == "user"@ {
                ReplayView::User(user_text(text, no_think))
            } else if m[i].role == "assistant"@ {
                assistant_turn(m[i])
            } else {
                ReplayView::System(text)
            };
            lemma_messages_replayed(m, i + 1, no_think);
            lemma_pieces(op, turns(m, i + 1, no_think)->Ok_0);
            assert(pieces_in(op) =~= message_pieces(m[i], no_think));
        }
    }
}

/// Every message of a conversation is replayed, once and in its order, whole or behind
/// a resume point: nothing that was said, called or answered is lost.
pub proof fn law_every_message_is_replayed(
    m: Seq<MessageView>,
    i: int,
    schemas: Seq<Seq<char>>,
    no_think: bool,
)
    requires
        0 <= i <= m.len(),
    ensures
        turns(m, i, no_think) is Ok ==> pieces_by(turns(m, i, no_think)->Ok_0) == messages_pieces(
            m,
            i,
            m.len() as int,
            no_think,
        ),
        full_turns(m, schemas, no_think) is Ok ==> pieces_by(full_turns(m, schemas, no_think)->Ok_0)
            == messages_pieces(m, 0, m.len() as int, no_think),
        full_turns(m, schemas, no_think) is Ok && schemas.len() > 0 ==> ({
            let ops = full_turns(m, schemas, no_think)->Ok_0;
            ops.len() > 0 && (ops[0] == ReplayView::Equip(schemas) || (ops[0] is EquipAfterSystem
                && ops[0]->tools == schemas))
        }),
{
    lemma_roles();
    if turns(m, i, no_think) is Ok {
        lemma_messages_replayed(m, i, no_think);
    }
    if full_turns(m, schemas, no_think) is Ok {
        let ops = full_turns(m, schemas, no_think)->Ok_0;
        if schemas.len() == 0 {
            lemma_messages_replayed(m, 0, no_think);
        } else if m.len() > 0 && m[0].role == "system"@ {
            let rest = turns(m, 1, no_think)->Ok_0;
            lemma_messages_replayed(m, 1, no_think);
            lemma_pieces(ops[0], rest);
            assert(ops =~= seq![ops[0]] + rest);
            assert(pieces_in(ops[0]) =~= message_pieces(m[0], no_think));
        } else {
            let rest = turns(m, 0, no_think)->Ok_0;
            lemma_messages_replayed(m, 0, no_think);
            lemma_pieces(ops[0], rest);
            assert(ops =~= seq![ops[0]] + rest);
            assert(pieces_by(ops) =~= pieces_by(rest));
        }
    }
}

/// A user's text is replayed as it was sent; with the soft switch, its trailing white
/// space alone gives way to the switch.
pub proof fn law_user_turns_carry_the_switch(text: Seq<char>)
    ensures
        user_text(text, false) == text,
        exists|n: int|
            0 <= n <= text.len() && user_text(text, true) == #[trigger] text.take(n) + " /no_think"@
                && (forall|k: int| n <= k < text.len() ==> white(#[trigger] text[k])) && (n > 0
                ==> !white(text[n - 1])),
{
    let n = law_trimming_the_end_drops_white_space(text);
    assert(user_text(text, true) == text.take(n) + " /no_think"@);
}

// ---------------------------------------------------------------------------
// Calls
// ---------------------------------------------------------------------------

/// A message tells of the call number `n`, whole.
pub open spec fn tells_call(t: Tree, n: int, c: CallOut) -> bool {
    let calls = at(at(choice_of(t), "delta"@), "tool_calls"@);
    &&& calls is Arr && calls->Arr_0.len() == 1
    &&& at(nth(calls, 0), "index"@) == Tree::Int(n)
    &&& calls_for(nth(calls, 0), c.0, c.1, c.2)
}

/// A turn has one call more, of that tool with those arguments, and a stream has told
/// of it; nothing else has changed.
pub open spec fn registers(r: RulesView, v: TurnView, w: TurnView, name: Seq<char>, args: Seq<char>) -> bool {
    let n = v.calls.len();
    &&& w.calls.len() == n + 1
    &&& w.calls.take(n as int) == v.calls
    &&& w.calls[n as int].1 == name
    &&& w.calls[n as int].2 == args
    &&& r.streaming ==> w.sent.len() == v.sent.len() + 1 && w.sent.take(v.sent.len() as int) == v.sent
        && tells_call(w.sent[v.sent.len() as int], n as int, w.calls[n as int])
    &&& !r.streaming ==> w.sent == v.sent
    &&& w.generated == v.generated && w.visible == v.visible && w.emitted == v.emitted && w.filter
        == v.filter
}

/// A completed call is registered and told of exactly where no call of the turn has
/// both its tool and its arguments; another call of the tool is no copy.
pub proof fn law_a_new_call_is_registered(r: RulesView, v: TurnView, name: Seq<char>, args: Seq<char>)
    ensures
        (forall|i: int| 0 <= i < v.calls.len() ==> (#[trigger] v.calls[i]).1 != name || v.calls[i].2
            != args) ==> registers(r, v, called(r, v, name, args), name, args),
        (exists|i: int| 0 <= i < v.calls.len() && (#[trigger] v.calls[i]).1 == name && v.calls[i].2
            == args) ==> called(r, v, name, args) == v,
        registers(r, v, added(r, v, name, args), name, args),
{
    let w = added(r, v, name, args);
    let id = call_id(r.uniq, v.calls.len());
    law_what_is_sent_reads_back(r.meta, name, v.calls.len() as int, id, name, args, name);
    assert(w.calls.take(v.calls.len() as int) =~= v.calls);
    if r.streaming {
        assert(w.sent.take(v.sent.len() as int) =~= v.sent);
    }
}

/// The call of that tool with those arguments is among the calls.
pub open spec fn among(calls: Seq<CallOut>, name: Seq<char>, args: Seq<char>) -> bool {
    exists|i: int| 0 <= i < calls.len() && (#[trigger] calls[i]).1 == name && calls[i].2 == args
}

/// A turn behind several calls has each of them, keeps those it had, and has no call
/// that it did not have and was not given.
pub proof fn law_every_call_is_there(
    r: RulesView,
    v: TurnView,
    calls: Seq<(Seq<char>, Seq<char>)>,
)
    ensures
        ({
            let w = called_all(r, v, calls);
            &&& v.calls.len() <= w.calls.len()
            &&& w.calls.take(v.calls.len() as int) == v.calls
            &&& forall|k: int|
                0 <= k < calls.len() ==> among(w.calls, (#[trigger] calls[k]).0, calls[k].1)
            &&& forall|i: int|
                v.calls.len() <= i < w.calls.len() ==> exists|k: int|
                    0 <= k < calls.len() && (#[trigger] calls[k]).0 == (#[trigger] w.calls[i]).1
                        && calls[k].1 == w.calls[i].2
        }),
        ({
            let w = added_all(r, v, calls);
            &&& w.calls.len() == v.calls.len() + calls.len()
            &&& w.calls.take(v.calls.len() as int) == v.calls
            &&& forall|k: int|
                0 <= k < calls.len() ==> (#[trigger] calls[k]).0 == w.calls[v.calls.len() + k].1
                    && calls[k].1 == w.calls[v.calls.len() + k].2
        }),
    decreases calls.len(),
{
    let n = v.calls.len() as int;
    if calls.len() == 0 {
        assert(v.calls.take(n) =~= v.calls);
    } else {
        let front = calls.drop_last();
        let x = calls.last();
        law_every_call_is_there(r, v, front);
        let a = called_all(r, v, front);
        let w = called_all(r, v, calls);
        law_a_new_call_is_registered(r, a, x.0, x.1);
        assert(w.calls.take(n) =~= a.calls.take(n));
        if among(a.calls, x.0, x.1) {
            assert(w == a);
        } else {
            assert(w.calls.take(a.calls.len() as int) == a.calls);
            assert(w.calls.len() == a.calls.len() + 1);
            assert(w.calls[a.calls.len() as int].1 == x.0);
        }
        assert forall|k: int| 0 <= k < calls.len() implies among(
            w.calls,
            (#[trigger] calls[k]).0,
            calls[k].1,
        ) by {
            if k < front.len() {
                assert(front[k] == calls[k]);
                let i = choose|i: int|
                    0 <= i < a.calls.len() && (#[trigger] a.calls[i]).1 == calls[k].0 && a.calls[i].2
                        == calls[k].1;
                assert(w.calls.take(a.calls.len() as int)[i] == w.calls[i]);
                assert(w.calls[i] == a.calls[i]);
            }
        }
        assert forall|i: int| n <= i < w.calls.len() implies exists|k: int|
            0 <= k < calls.len() && (#[trigger] calls[k]).0 == (#[trigger] w.calls[i]).1
                && calls[k].1 == w.calls[i].2 by {
            if i < a.calls.len() {
                assert(w.calls.take(a.calls.len() as int)[i] == w.calls[i]);
                assert(w.calls[i] == a.calls[i]);
                let k = choose|k: int|
                    0 <= k < front.len() && (#[trigger] front[k]).0 == a.calls[i].1 && front[k].1
                        == a.calls[i].2;
                assert(calls[k] == front[k]);
            } else {
                assert(calls[calls.len() - 1] == x);
            }
        }
        let b = added_all(r, v, front);
        let c = added_all(r, v, calls);
        law_a_new_call_is_registered(r, b, x.0, x.1);
        assert(c.calls.take(n) =~= b.calls.take(n));
        assert forall|k: int| 0 <= k < calls.len() implies (#[trigger] calls[k]).0 == c.calls[n + k].1
            && calls[k].1 == c.calls[n + k].2 by {
            if k < front.len() {
                assert(front[k] == calls[k]);
                assert(c.calls.take(b.calls.len() as int)[n + k] == c.calls[n + k]);
            }
        }
    }
}

// ---------------------------------------------------------------------------
// Tokens
// ---------------------------------------------------------------------------

/// `text` ends with `tail`.
pub open spec fn ends_with(text: Seq<char>, tail: Seq<char>) -> bool {
    exists|head: Seq<char>| text == #[trigger] (head + tail)
}

proof fn lemma_stopped(stops: Seq<Seq<char>>, text: Seq<char>)
    ensures
        stopped(stops, text) <==> exists|i: int| 0 <= i < stops.len() && ends_with(
            text,
            #[trigger] stops[i],
        ),
{
    if stopped(stops, text) {
        let i = choose|i: int|
            0 <= i < stops.len() && (#[trigger] stops[i]).len() <= text.len() && text.skip(
                text.len() - stops[i].len(),
            ) == stops[i];
        let head = text.take(text.len() - stops[i].len());
        assert(text =~= head + stops[i]);
        assert(ends_with(text, stops[i]));
    }
    assert forall|i: int| 0 <= i < stops.len() && ends_with(text, #[trigger] stops[i]) implies stopped(
        stops,
        text,
    ) by {
        let head = choose|head: Seq<char>| text == #[trigger] (head + stops[i]);
        assert(text.skip(text.len() - stops[i].len()) =~= stops[i]);
    }
}

/// What a token does: it is counted; its call is registered; the text of a stop token
/// is never shown, and that of another is shown as the filter gives it; and the turn
/// ends at a stop token, at the decoder's end, or where the visible text ends with a
/// stop string, and not otherwise.
pub proof fn law_a_token_is_taken(
    r: RulesView,
    v: TurnView,
    t: u32,
    call: Option<(Seq<char>, Seq<char>)>,
    text: TextView,
)
    ensures
        ({
            let (w, flow) = tokened(r, v, t, call, text);
            let stop = exists|k: int| 0 <= k < r.stop_ids.len() && r.stop_ids[k] == t;
            &&& w.generated == v.generated.push(t)
            &&& call is None ==> w.calls == v.calls
            &&& call matches Some(c) ==> among(w.calls, c.0, c.1) && w.calls.len() <= v.calls.len() + 1
            &&& stop || !(text is Delta) ==> w.visible == v.visible && w.filter == v.filter
            &&& !stop && text is Delta ==> w.visible == v.visible + fed(
                v.filter,
                text->Delta_0,
                r.markers,
            ).1 && w.filter == fed(v.filter, text->Delta_0, r.markers).0
            &&& flow == Flow::Break <==> stop || text is Done || exists|i: int|
                0 <= i < r.stop_strings.len() && ends_with(w.visible, #[trigger] r.stop_strings[i])
        }),
{
    let (w, flow) = tokened(r, v, t, call, text);
    let a = TurnView { generated: v.generated.push(t), ..v };
    if let Some(c) = call {
        law_a_new_call_is_registered(r, a, c.0, c.1);
        let b = called(r, a, c.0, c.1);
        if among(a.calls, c.0, c.1) {
            assert(b == a);
        } else {
            assert(b.calls[v.calls.len() as int].1 == c.0);
        }
    }
    lemma_stopped(r.stop_strings, w.visible);
    if !r.stop_ids.contains(t) && text is Delta {
        let f = fed(v.filter, text->Delta_0, r.markers);
        if f.1.len() == 0 {
            assert(v.visible + f.1 =~= v.visible);
        }
    }
}

/// At the end of generation what the filter held back is shown, and calls stay.
pub proof fn law_the_tail_is_shown(r: RulesView, v: TurnView)
    ensures
        flushed(r, v).visible == v.visible + finished(v.filter).1,
        flushed(r, v).calls == v.calls,
        flushed(r, v).generated == v.generated,
{
    if finished(v.filter).1.len() == 0 {
        assert(v.visible + finished(v.filter).1 =~= v.visible);
    }
}

/// Calls are salvaged only where there are tools and the decoder found none; text is
/// never changed by it.
pub proof fn law_salvage_is_a_last_resort(
    r: RulesView,
    v: TurnView,
    has_tools: bool,
    raw: Seq<char>,
    schemas: Seq<Seq<char>>,
)
    ensures
        !has_tools || v.calls.len() > 0 ==> salvaged(r, v, has_tools, raw) == v && salvaged_stream(
            r,
            v,
            has_tools,
            schemas,
        ) == v && salvaged_functions(r, v, has_tools, schemas) == v,
        salvaged(r, v, has_tools, raw).visible == v.visible,
        salvaged_stream(r, v, has_tools, schemas).visible == v.visible,
        salvaged_functions(r, v, has_tools, schemas).visible == v.visible,
{
    let f = crate::chat::turn::unplaced(crate::serving::salvage::fenced_from(v.visible, 0));
    let a = called_all(r, v, f);
    lemma_calls_show_nothing(r, v, f);
    lemma_calls_show_nothing(r, a, crate::serving::salvage::blocks_from(raw, 0));
    let g = crate::chat::coder_xml::functions_from(v.visible, 0, schemas);
    lemma_calls_show_nothing(r, v, g);
    lemma_calls_show_nothing(r, a, crate::chat::coder_xml::functions_from(a.visible, 0, schemas));
}

proof fn lemma_calls_show_nothing(r: RulesView, v: TurnView, calls: Seq<(Seq<char>, Seq<char>)>)
    ensures
        called_all(r, v, calls).visible == v.visible,
        added_all(r, v, calls).visible == v.visible,
    decreases calls.len(),
{
    if calls.len() > 0 {
        lemma_calls_show_nothing(r, v, calls.drop_last());
    }
}

/// Why a turn finished tells its end apart: calls first, then a limit or an error, and
/// only a turn that ended by itself has stopped.
pub proof fn law_a_turn_says_why_it_finished(calls: Seq<CallOut>, hit_max: bool, gen_error: bool)
    ensures
        finish_of(calls, hit_max, gen_error) == "tool_calls"@ <==> calls.len() > 0,
        finish_of(calls, hit_max, gen_error) == "stop"@ <==> calls.len() == 0 && !hit_max
            && !gen_error,
        finish_of(calls, hit_max, gen_error) == "length"@ <==> calls.len() == 0 && (hit_max
            || gen_error),
{
    reveal_strlit("tool_calls");
    reveal_strlit("stop");
    reveal_strlit("length");
    assert("tool_calls"@.len() == 10 && "stop"@.len() == 4 && "length"@.len() == 6);
}

/// What was visible is what the turn's content is, and a turn with calls needs none
/// else.
pub proof fn law_content_is_what_was_visible(visible: Seq<char>, calls: Seq<CallOut>, raw: Seq<char>)
    ensures
        visible.len() > 0 || calls.len() > 0 ==> content_of(visible, calls, raw) == visible
            && plain_content(visible, calls, raw) == visible,
        calls.len() == 0 ==> plain_content(visible, calls, raw).len() > 0,
{
    reveal_strlit("…");
}

/// A conversation replays exactly where every role in it is known; otherwise the
/// first unknown one is named.
pub proof fn law_only_unknown_roles_stop_a_replay(m: Seq<MessageView>, i: int, no_think: bool)
    requires
        0 <= i <= m.len(),
    ensures
        turns(m, i, no_think) is Ok <==> forall|j: int| i <= j < m.len() ==> known((#[trigger] m[j]).role),
        turns(m, i, no_think) matches Err(e) ==> exists|j: int|
            i <= j < m.len() && !known((#[trigger] m[j]).role) && e == "unsupported message role: "@
                + m[j].role && forall|k: int| i <= k < j ==> known((#[trigger] m[k]).role),
    decreases m.len() - i,
{
    lemma_roles();
    if i < m.len() {
        if m[i].role == "tool"@ {
            let e = tool_run(m, i);
            lemma_tool_run(m, i + 1);
            lemma_run_is_tools(m, i);
            law_only_unknown_roles_stop_a_replay(m, e, no_think);
            assert forall|j: int| i <= j < e implies known((#[trigger] m[j]).role) by {}
            if turns(m, e, no_think) is Err {
                let j = choose|j: int|
                    e <= j < m.len() && !known((#[trigger] m[j]).role) && turns(m, e, no_think)->Err_0
                        == "unsupported message role: "@ + m[j].role && forall|k: int|
                        e <= k < j ==> known((#[trigger] m[k]).role);
                assert(!known(m[j].role));
            }
        } else if known(m[i].role) {
            law_only_unknown_roles_stop_a_replay(m, i + 1, no_think);
            if turns(m, i + 1, no_think) is Err {
                let j = choose|j: int|
                    i + 1 <= j < m.len() && !known((#[trigger] m[j]).role) && turns(
                        m,
                        i + 1,
                        no_think,
                    )->Err_0 == "unsupported message role: "@ + m[j].role && forall|k: int|
                        i + 1 <= k < j ==> known((#[trigger] m[k]).role);
                assert(!known(m[j].role));
            }
        } else {
            assert(!known(m[i].role));
        }
    }
}

/// Whether a role is one that can be replayed.
pub open spec fn known(role: Seq<char>) -> bool {
    role == "system"@ || role == "developer"@ || role == "user"@ || role == "assistant"@ || role
        == "tool"@
}

/// A stream closes by telling why it finished: content first where none was shown
/// and nothing is called, the reason, and behind it, where they are wanted, the
/// tokens as they were counted.
pub proof fn law_a_stream_closes_with_its_reason(r: RulesView, v: TurnView, e: Ending, raw: Seq<char>)
    requires
        r.streaming,
    ensures
        ({
            let w = closed_stream(r, v, e, raw);
            let lead = if !v.emitted && v.calls.len() == 0 {
                v.sent.push(content_tree(r.meta, content_of(v.visible, v.calls, raw)))
            } else {
                v.sent
            };
            let told = lead.push(
                finish_tree(
                    r.meta,
                    finish_of(v.calls, v.generated.len() >= e.max_tokens, e.gen_error),
                ),
            );
            &&& !e.include_usage ==> w.sent == told
            &&& e.include_usage ==> w.sent == told.push(
                usage_chunk_tree(
                    r.meta,
                    e.prompt_tokens as int,
                    v.generated.len() as int,
                    e.cached_tokens as int,
                ),
            )
            &&& w.visible == v.visible && w.calls == v.calls && w.generated == v.generated
        }),
{
}

/// A text is stopped exactly where it is something with a stop string behind it.
pub proof fn law_a_text_stops_at_a_stop_string(stops: Seq<Seq<char>>, text: Seq<char>, lead: Seq<char>, i: int)
    ensures
        0 <= i < stops.len() && text == lead + stops[i] ==> stopped(stops, text),
        stopped(stops, text) ==> exists|k: int|
            0 <= k < stops.len() && text == text.take(text.len() - stops[k].len())
                + #[trigger] stops[k],
{
    if 0 <= i < stops.len() && text == lead + stops[i] {
        assert(text.skip(text.len() - stops[i].len()) =~= stops[i]);
    }
    if stopped(stops, text) {
        let k = choose|k: int|
            0 <= k < stops.len() && (#[trigger] stops[k]).len() <= text.len() && text.skip(
                text.len() - stops[k].len(),
            ) == stops[k];
        assert(text =~= text.take(text.len() - stops[k].len()) + text.skip(
            text.len() - stops[k].len(),
        ));
        assert(text == text.take(text.len() - stops[k].len()) + stops[k]);
    }
}

/// A frame is its body's text behind its field name, with a blank line behind it.
pub proof fn law_a_frame_holds_its_body(t: Tree)
    ensures
        frame(t).len() == json_text(t).len() + 8,
        frame(t).subrange(6, 6 + json_text(t).len() as int) == json_text(t),
        frame(t).take(6) == seq!['d', 'a', 't', 'a', ':', ' '],
        frame(t).skip(frame(t).len() - 2) == seq!['\n', '\n'],
{
    reveal_strlit("data: ");
    reveal_strlit("\n\n");
    assert(frame(t).subrange(6, 6 + json_text(t).len() as int) =~= json_text(t));
    assert(frame(t).take(6) =~= seq!['d', 'a', 't', 'a', ':', ' ']);
    assert(frame(t).skip(frame(t).len() - 2) =~= seq!['\n', '\n']);
}

/// With tools and without a call of its own a turn gets the calls that were missed:
/// every call of a fence in its text; without any of these, every call of a block in
/// its raw generation; and in a stream or in one piece, every bare function block.
pub proof fn law_salvage_finds_missed_calls(
    r: RulesView,
    v: TurnView,
    raw: Seq<char>,
    schemas: Seq<Seq<char>>,
    k: int,
)
    requires
        v.calls.len() == 0,
    ensures
        ({
            let f = fenced_from(v.visible, 0);
            let b = blocks_from(raw, 0);
            let g = functions_from(v.visible, 0, schemas);
            let s = salvaged(r, v, true, raw).calls;
            let t = salvaged_stream(r, v, true, schemas).calls;
            let w = salvaged_functions(r, v, true, schemas).calls;
            &&& 0 <= k < f.len() ==> among(s, f[k].1, f[k].2) && among(t, f[k].1, f[k].2)
            &&& f.len() == 0 && contains(raw, "<tool_call>"@) && 0 <= k < b.len() ==> among(
                s,
                b[k].0,
                b[k].1,
            )
            &&& f.len() == 0 && !contains(raw, "<tool_call>"@) ==> s.len() == 0
            &&& f.len() == 0 && contains(v.visible, "<function="@) ==> t == w
            &&& contains(v.visible, "<function="@) ==> w.len() == g.len()
            &&& contains(v.visible, "<function="@) && 0 <= k < g.len() ==> w[k].1 == g[k].0 && w[k].2
                == g[k].1
            &&& !contains(v.visible, "<function="@) ==> w.len() == 0
        }),
{
    let placed = fenced_from(v.visible, 0);
    let f = unplaced(placed);
    let a = called_all(r, v, f);
    law_every_call_is_there(r, v, f);
    let b = blocks_from(raw, 0);
    let g = functions_from(v.visible, 0, schemas);
    law_every_call_is_there(r, v, g);
    if 0 <= k < placed.len() {
        assert(f[k] == (placed[k].1, placed[k].2));
        assert(among(a.calls, f[k].0, f[k].1));
        assert(a.calls.len() > 0);
    }
    if f.len() == 0 {
        assert(a == v);
        law_every_call_is_there(r, a, b);
        if 0 <= k < b.len() {
            assert(among(called_all(r, a, b).calls, b[k].0, b[k].1));
        }
    }
    if 0 <= k < g.len() {
        assert(g[k].0 == added_all(r, v, g).calls[v.calls.len() + k].1);
    }
}

/// A turn that shows and calls nothing still says something: in one form the raw
/// generation without its reasoning tags, in the other what stands behind its
/// reasoning, and a placeholder where that is blank.
pub proof fn law_a_silent_turn_falls_back(raw: Seq<char>)
    ensures
        ({
            let none = Seq::<char>::empty();
            let calls = Seq::<CallOut>::empty();
            let bare = trim(remove_all(remove_all(raw, "<think>"@), "</think>"@));
            &&& bare.len() > 0 ==> plain_content(none, calls, raw) == bare
            &&& bare.len() == 0 ==> plain_content(none, calls, raw) == "…"@
            &&& answer_of(raw) matches Some(s) ==> content_of(none, calls, raw) == s
            &&& answer_of(raw) is None ==> content_of(none, calls, raw) == "…"@
        }),
{
}

/// A snapshot's name is the chat's own word and the address of what it is of, and a
/// call's id holds the turn's fragment and the call's number.
pub proof fn law_names_hold_what_they_are_of(
    m: Seq<MessageView>,
    n: int,
    schemas: Seq<Seq<char>>,
    no_think: bool,
    uniq: Seq<char>,
    k: nat,
)
    ensures
        name_of(m, n, schemas, no_think) == "qwenchat/"@ + chat_address(schemas, no_think, canon(m, n)),
        call_id(uniq, k) == "call_"@ + (uniq + ("_"@ + dec(k))),
{
    assert(call_id(uniq, k) =~= "call_"@ + (uniq + ("_"@ + dec(k))));
}

} // verus!
