//! The operations by which a conversation is rendered into a chat template's
//! tokens, one per turn.

use vstd::prelude::*;
use vstd::string::*;

use crate::serving::render::pairs_view;
use crate::serving::types::texts;

verus! {

/// One turn to render.
#[derive(Debug, PartialEq, Eq)]
pub enum ReplayOp {
    /// The tool schemas as a system turn of their own.
    Equip(Vec<String>),
    /// A system message folded into one turn with the tool schemas.
    EquipAfterSystem { system: Option<String>, tools: Vec<String> },
    System(String),
    User(String),
    Assistant(String),
    /// Calls as pairs of name and arguments.
    AssistantWithToolCalls { content: Option<String>, calls: Vec<(String, String)> },
    /// Consecutive tool results as one turn, as the model was trained on, each
    /// with the name of its tool, here unknown, and its text.
    AnswerBatch(Vec<(String, String)>),
}

/// What an operation holds.
pub enum ReplayView {
    Equip(Seq<Seq<char>>),
    EquipAfterSystem { system: Option<Seq<char>>, tools: Seq<Seq<char>> },
    System(Seq<char>),
    User(Seq<char>),
    Assistant(Seq<char>),
    AssistantWithToolCalls { content: Option<Seq<char>>, calls: Seq<(Seq<char>, Seq<char>)> },
    AnswerBatch(Seq<(Seq<char>, Seq<char>)>),
}

/// What an optional text holds.
pub open spec fn opt_text(s: Option<String>) -> Option<Seq<char>> {
    match s {
        Some(x) => Some(x@),
        None => None,
    }
}

impl View for ReplayOp {
    type V = ReplayView;

    open spec fn view(&self) -> ReplayView {
        match *self {
            ReplayOp::Equip(t) => ReplayView::Equip(texts(t@)),
            ReplayOp::EquipAfterSystem { system, tools } => ReplayView::EquipAfterSystem {
                system: opt_text(system),
                tools: texts(tools@),
            },
            ReplayOp::System(s) => ReplayView::System(s@),
            ReplayOp::User(s) => ReplayView::User(s@),
            ReplayOp::Assistant(s) => ReplayView::Assistant(s@),
            ReplayOp::AssistantWithToolCalls { content, calls } => {
                ReplayView::AssistantWithToolCalls {
                    content: opt_text(content),
                    calls: pairs_view(calls@),
                }
            },
            ReplayOp::AnswerBatch(b) => ReplayView::AnswerBatch(pairs_view(b@)),
        }
    }
}

/// What operations hold.
pub open spec fn replay_view(v: Seq<ReplayOp>) -> Seq<ReplayView> {
    v.map_values(|o: ReplayOp| o@)
}

/// Operations, or why there are none.
pub type Replay = Result<Seq<ReplayView>, Seq<char>>;

/// What a replay holds.
pub open spec fn outcome_view(r: Result<Vec<ReplayOp>, String>) -> Replay {
    match r {
        Ok(ops) => Ok(replay_view(ops@)),
        Err(e) => Err(e@),
    }
}

/// `op` in front of the rest.
pub open spec fn led_by(op: ReplayView, rest: Replay) -> Replay {
    match rest {
        Ok(ops) => Ok(seq![op] + ops),
        Err(e) => Err(e),
    }
}

/// What is left to do: the operations found so far stand in front of the rest.
pub open spec fn leaves(whole: Replay, found: Seq<ReplayView>, rest: Replay) -> bool {
    match whole {
        Ok(w) => rest is Ok && w == found + rest->Ok_0,
        Err(e) => rest == Err::<Seq<ReplayView>, Seq<char>>(e),
    }
}

/// A step of a replay moves one operation from the rest to what is found.
pub proof fn lemma_leaves_step(whole: Replay, found: Seq<ReplayView>, op: ReplayView, rest: Replay)
    requires
        leaves(whole, found, led_by(op, rest)),
    ensures
        leaves(whole, found.push(op), rest),
{
    if let Ok(w) = rest {
        assert(found + (seq![op] + w) =~= found.push(op) + w);
    }
}

/// A replay begins with nothing found, and ends with nothing left.
pub proof fn lemma_leaves_ends(whole: Replay, found: Seq<ReplayView>)
    ensures
        leaves(whole, Seq::empty(), whole),
        leaves(whole, found, Ok(Seq::empty())) ==> whole == Ok::<Seq<ReplayView>, Seq<char>>(found),
{
    if let Ok(w) = whole {
        assert(Seq::<ReplayView>::empty() + w =~= w);
    }
    assert(found + Seq::<ReplayView>::empty() =~= found);
}

/// The text of an unsupported role.
pub open spec fn unsupported(role: Seq<char>) -> Seq<char> {
    "unsupported message role: "@ + role
}

// ---------------------------------------------------------------------------
// What is replayed
// ---------------------------------------------------------------------------

/// What a conversation is made of, whatever turns it is grouped in.
pub enum Piece {
    System(Seq<char>),
    User(Seq<char>),
    Assistant(Seq<char>),
    /// A call by its tool and arguments.
    Call(Seq<char>, Seq<char>),
    /// A tool's result.
    Result(Seq<char>),
}

/// A piece, where its text is not empty.
pub open spec fn uttered(text: Seq<char>, piece: Piece) -> Seq<Piece> {
    if text.len() == 0 {
        Seq::empty()
    } else {
        seq![piece]
    }
}

/// Calls, piece by piece.
pub open spec fn call_pieces(calls: Seq<(Seq<char>, Seq<char>)>) -> Seq<Piece> {
    Seq::new(calls.len(), |k: int| Piece::Call(calls[k].0, calls[k].1))
}

/// What an operation replays.
pub open spec fn pieces_in(op: ReplayView) -> Seq<Piece> {
    match op {
        ReplayView::Equip(_) => Seq::empty(),
        ReplayView::EquipAfterSystem { system, .. } => match system {
            Some(s) => uttered(s, Piece::System(s)),
            None => Seq::empty(),
        },
        ReplayView::System(s) => uttered(s, Piece::System(s)),
        ReplayView::User(s) => seq![Piece::User(s)],
        ReplayView::Assistant(s) => uttered(s, Piece::Assistant(s)),
        ReplayView::AssistantWithToolCalls { content, calls } => (match content {
            Some(s) => uttered(s, Piece::Assistant(s)),
            None => Seq::empty(),
        }) + call_pieces(calls),
        ReplayView::AnswerBatch(b) => Seq::new(b.len(), |k: int| Piece::Result(b[k].1)),
    }
}

/// What operations replay, in order.
pub open spec fn pieces_by(ops: Seq<ReplayView>) -> Seq<Piece>
    decreases ops.len(),
{
    if ops.len() == 0 {
        Seq::empty()
    } else {
        pieces_in(ops[0]) + pieces_by(ops.skip(1))
    }
}

/// An operation's pieces stand in front of those behind it.
pub proof fn lemma_pieces(op: ReplayView, rest: Seq<ReplayView>)
    ensures
        pieces_by(seq![op] + rest) == pieces_in(op) + pieces_by(rest),
{
    let all = seq![op] + rest;
    assert(all.skip(1) =~= rest);
    assert(all[0] == op);
}

} // verus!
