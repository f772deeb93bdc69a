//! Forking and joining: whether a closed guideline forks and where, and how the
//! branches of a block come back into one context.
//!
//! A join keeps the first branch as its base and brings the others in, in plan
//! order. The textual join appends their tokens as they are. The faithful joins
//! lay each sibling out as it was decoded: positions that restart at the fork, and
//! rows that show the shared prefix and the sibling itself. The reduce stage then
//! starts at the position behind the longest branch and sees everything.

use vstd::prelude::*;
use vstd::string::*;
use vstd::utf8::encode_utf8;

use crate::masks::{ramp, rows_view, shows};
use crate::npr::branch::{
    all_bytes, all_tokens, extent, join_branches, lemma_extent, takeaway_refill, BranchResult, Joined,
    TAKEAWAY,
};
use crate::npr::plans::{parse_plans, plan_labels, texts};
use crate::npr::schedule::{
    admissible, admit_fork, adoptable, adopted_tail, causal, drain_tail, holes,
    law_causal_rows_show_the_past, law_hole_rows_isolate_a_sibling, minus, push_tokens,
    sibling_refill, JoinMode, Ledger, Limits, PCtx, Refill, Stats,
};

verus! {

// ---------------------------------------------------------------------------
// Forking
// ---------------------------------------------------------------------------

/// A fork: the labels of its branches, the slots of the prefix that they share,
/// the position behind it, and what was charged before the block.
pub struct Fork {
    pub labels: Vec<String>,
    pub fork_slots: u32,
    pub p_fork: u32,
    pub charged_before: usize,
}

/// Decides on the guideline that a segment closed, and counts the decision. A
/// block without plans, with too many, too deep or not affordable is decoded
/// sequentially.
pub fn plan_fork(
    limits: &Limits,
    ledger: &Ledger,
    stats: &mut Stats,
    segment: &str,
    depth: usize,
    at: &PCtx,
) -> (r: Option<Fork>)
    requires
        at.wf(),
        old(stats).parallel_blocks < u64::MAX,
        old(stats).sequential_fallbacks < u64::MAX,
        old(stats).branches_total + plan_labels(segment@).len() <= u64::MAX,
    ensures
        (r is Some) == admissible(
            *limits,
            *ledger,
            plan_labels(segment@).len(),
            depth,
            at.pos() as u32,
        ),
        r matches Some(f) ==> {
            &&& texts(f.labels@) == plan_labels(segment@)
            &&& f.fork_slots == at.seq_len + at.buffered
            &&& f.p_fork == at.pos()
            &&& f.charged_before == ledger.charged
            &&& *final(stats) == (Stats {
                parallel_blocks: (old(stats).parallel_blocks + 1) as u64,
                branches_total: (old(stats).branches_total + f.labels@.len()) as u64,
                max_depth_seen: if depth > old(stats).max_depth_seen {
                    depth
                } else {
                    old(stats).max_depth_seen
                },
                ..*old(stats)
            })
        },
        r is None ==> *final(stats) == (Stats {
            sequential_fallbacks: (old(stats).sequential_fallbacks + 1) as u64,
            ..*old(stats)
        }),
{
    let labels = parse_plans(segment);
    proof {
        assert(texts(labels@).len() == labels@.len());
    }
    let p_fork = at.next_pos();
    if admit_fork(limits, ledger, stats, labels.len(), depth, p_fork) {
        Some(Fork { labels, fork_slots: at.next_slot(), p_fork, charged_before: ledger.charged })
    } else {
        None
    }
}

// ---------------------------------------------------------------------------
// The model of a join
// ---------------------------------------------------------------------------

/// Where a join stands: what it waits for.
#[derive(Clone, Copy, Debug, PartialEq, Eq, Structural)]
pub enum Stage {
    Draining,
    Grafting,
    Tailing,
    Filling,
    Appending,
    Releasing,
    Heading,
    Cueing,
    Finished,
}

/// What has happened.
#[derive(Clone, Copy, Debug, PartialEq, Eq, Structural)]
pub enum JoinEvent {
    /// What was asked for is done.
    Done,
    /// The sibling's tokens are grafted, from that slot on.
    Grafted(u32),
    /// The graft was refused before anything landed.
    Refused,
}

/// What is to be done next.
pub enum JoinAsk {
    /// Take the base's buffered tokens, and fill them so.
    Drain(Refill),
    /// Graft so many of a sibling's tokens, from the fork on.
    Graft { sibling: usize, n: u32 },
    /// Fill a grafted sibling's buffered tokens.
    Tail { sibling: usize, refill: Refill },
    /// Fill a sibling's tokens.
    Fill { sibling: usize, refill: Refill },
    /// Append a sibling's tokens to the base's buffer.
    Append { sibling: usize },
    /// Release a sibling's context.
    Release { sibling: usize },
    /// Fill the opening of the reduce stage but for its last token.
    Head(Refill),
    /// Append these tokens to the base's buffer.
    Cue(Vec<u32>),
    /// Go on in the base.
    Finish,
}

/// What an ask holds; a refill by its positions and rows.
pub enum JoinAskView {
    Drain(Seq<u32>, Seq<Seq<u32>>),
    Graft(int, int),
    Tail(int, Seq<u32>, Seq<Seq<u32>>),
    Fill(int, Seq<u32>, Seq<Seq<u32>>),
    Append(int),
    Release(int),
    Head(Seq<u32>, Seq<Seq<u32>>),
    Cue(Seq<u32>),
    Finish,
}

impl View for JoinAsk {
    type V = JoinAskView;

    open spec fn view(&self) -> JoinAskView {
        match *self {
            JoinAsk::Drain(r) => JoinAskView::Drain(r.positions@, rows_view(r.rows@)),
            JoinAsk::Graft { sibling, n } => JoinAskView::Graft(sibling as int, n as int),
            JoinAsk::Tail { sibling, refill } => JoinAskView::Tail(
                sibling as int,
                refill.positions@,
                rows_view(refill.rows@),
            ),
            JoinAsk::Fill { sibling, refill } => JoinAskView::Fill(
                sibling as int,
                refill.positions@,
                rows_view(refill.rows@),
            ),
            JoinAsk::Append { sibling } => JoinAskView::Append(sibling as int),
            JoinAsk::Release { sibling } => JoinAskView::Release(sibling as int),
            JoinAsk::Head(r) => JoinAskView::Head(r.positions@, rows_view(r.rows@)),
            JoinAsk::Cue(t) => JoinAskView::Cue(t@),
            JoinAsk::Finish => JoinAskView::Finish,
        }
    }
}

/// What stays the same over a join: its mode, the fork, the branches, the slots
/// and buffered tokens of each branch's context, and the tokens that open the
/// reduce stage.
pub struct BlockView {
    pub mode: JoinMode,
    pub fork_slots: u32,
    pub p_fork: u32,
    pub branches: Seq<BranchResult>,
    pub contexts: Seq<(u32, u32)>,
    pub takeaway: Seq<u32>,
}

impl BlockView {
    /// The length of a branch.
    pub open spec fn len_of(self, i: int) -> int {
        self.branches[i].tokens@.len() as int
    }

    /// The resident tokens of a branch behind the fork.
    pub open spec fn resident(self, i: int) -> int {
        minus(self.contexts[i].0 as int, self.fork_slots as int)
    }

    /// A sibling can be grafted: what is resident and what is buffered of it make
    /// up its transcript.
    pub open spec fn graftable(self, i: int) -> bool {
        self.mode == JoinMode::Adopt && self.resident(i) + self.contexts[i].1 == self.len_of(i)
    }

    /// The length of the longest branch.
    pub open spec fn longest(self) -> int {
        extent(self.branches, self.branches.len() as int) as int
    }

    /// The length of the branches from `i` on.
    pub open spec fn rest(self, i: int) -> int
        decreases self.branches.len() - i,
    {
        if i < 0 || i >= self.branches.len() {
            0
        } else {
            self.len_of(i) + self.rest(i + 1)
        }
    }

    /// There are branches with their contexts; a faithful join has an opening of
    /// the reduce stage whose positions can be counted.
    pub open spec fn ready(self) -> bool {
        &&& 0 < self.branches.len() <= usize::MAX
        &&& self.contexts.len() == self.branches.len()
        &&& self.mode != JoinMode::Textual ==> self.takeaway.len() > 0 && self.p_fork
            + self.longest() + self.takeaway.len() <= u32::MAX
    }
}

/// How a join stands: the sibling it is at, the base's context, how many tokens
/// were grafted and how many siblings could not be.
#[derive(Clone, Copy, Debug, PartialEq, Eq, Structural)]
pub struct JoinState {
    pub stage: Stage,
    pub at: usize,
    pub base: PCtx,
    pub adopted: u64,
    pub fallbacks: u64,
}

/// The base with so many more resident tokens.
pub open spec fn grown(base: PCtx, n: int) -> PCtx {
    PCtx { seq_len: (base.seq_len + n) as u32, ..base }
}

/// The base with so many more buffered tokens.
pub open spec fn extended(base: PCtx, n: int) -> PCtx {
    PCtx { buffered: (base.buffered + n) as u32, ..base }
}

/// The base, its next token at a position.
pub open spec fn anchored(base: PCtx, p: int) -> PCtx {
    PCtx { delta: (p - (base.seq_len + base.buffered)) as i64, ..base }
}

/// A join that fills its sibling from the next slot on.
pub open spec fn filling(b: BlockView, v: JoinState) -> (JoinState, JoinAskView) {
    let n = b.len_of(v.at as int) as nat;
    (
        JoinState { stage: Stage::Filling, ..v },
        JoinAskView::Fill(
            v.at as int,
            ramp(b.p_fork as int, n),
            holes(b.fork_slots, v.base.seq_len, 0, n),
        ),
    )
}

/// A join that lets go of its sibling.
pub open spec fn releasing(v: JoinState) -> (JoinState, JoinAskView) {
    (JoinState { stage: Stage::Releasing, ..v }, JoinAskView::Release(v.at as int))
}

/// A join that cues the reduce stage: with its last token, or in the textual join
/// with all of them.
pub open spec fn cueing(b: BlockView, v: JoinState) -> (JoinState, JoinAskView) {
    (
        JoinState { stage: Stage::Cueing, ..v },
        JoinAskView::Cue(
            if b.mode == JoinMode::Textual {
                b.takeaway
            } else {
                b.takeaway.skip(b.takeaway.len() - 1)
            },
        ),
    )
}

/// A join at its next sibling, or at the reduce stage behind the last.
pub open spec fn onward(b: BlockView, v: JoinState) -> (JoinState, JoinAskView) {
    let i = v.at as int;
    if i >= b.branches.len() {
        if b.mode == JoinMode::Textual || b.takeaway.len() == 1 {
            cueing(b, v)
        } else {
            let n = (b.takeaway.len() - 1) as nat;
            (
                JoinState { stage: Stage::Heading, ..v },
                JoinAskView::Head(ramp(b.p_fork + b.longest(), n), causal(v.base.seq_len, n)),
            )
        }
    } else if b.mode == JoinMode::Textual {
        (JoinState { stage: Stage::Appending, ..v }, JoinAskView::Append(i))
    } else if b.graftable(i) {
        (JoinState { stage: Stage::Grafting, ..v }, JoinAskView::Graft(i, b.resident(i)))
    } else if b.mode == JoinMode::Adopt {
        filling(b, JoinState { fallbacks: (v.fallbacks + 1) as u64, ..v })
    } else {
        filling(b, v)
    }
}

/// A join that has just begun: the faithful joins first drain the base's buffer.
pub open spec fn begun(b: BlockView, base: PCtx) -> (JoinState, JoinAskView) {
    let v = JoinState { stage: Stage::Releasing, at: 1, base, adopted: 0, fallbacks: 0 };
    if b.mode != JoinMode::Textual && base.buffered > 0 {
        (
            JoinState { stage: Stage::Draining, ..v },
            JoinAskView::Drain(
                ramp(base.seq_len + base.delta, base.buffered as nat),
                causal(base.seq_len, base.buffered as nat),
            ),
        )
    } else {
        onward(b, v)
    }
}

/// A join whose sibling is grafted from `start` on: what is buffered of it is
/// filled behind that.
pub open spec fn grafted(b: BlockView, v: JoinState, start: u32) -> (JoinState, JoinAskView) {
    let i = v.at as int;
    let n = b.resident(i);
    let pending = b.contexts[i].1 as nat;
    let w = JoinState {
        base: PCtx { seq_len: (start + n) as u32, ..v.base },
        adopted: (v.adopted + n) as u64,
        ..v
    };
    if pending > 0 {
        (
            JoinState { stage: Stage::Tailing, ..w },
            JoinAskView::Tail(
                i,
                ramp(b.p_fork + n, pending),
                holes(b.fork_slots, start, n as u32, pending),
            ),
        )
    } else {
        releasing(w)
    }
}

/// A join behind an event, and what it asks for.
pub open spec fn next(b: BlockView, v: JoinState, e: JoinEvent) -> (JoinState, JoinAskView) {
    let i = v.at as int;
    match (v.stage, e) {
        (Stage::Grafting, JoinEvent::Grafted(start)) => grafted(b, v, start),
        (Stage::Grafting, _) => filling(b, JoinState { fallbacks: (v.fallbacks + 1) as u64, ..v }),
        (Stage::Draining, _) => onward(
            b,
            JoinState {
                base: PCtx { buffered: 0, ..grown(v.base, v.base.buffered as int) },
                ..v
            },
        ),
        (Stage::Tailing, _) => releasing(
            JoinState { base: grown(v.base, b.contexts[i].1 as int), ..v },
        ),
        (Stage::Filling, _) => releasing(JoinState { base: grown(v.base, b.len_of(i)), ..v }),
        (Stage::Appending, _) => releasing(JoinState { base: extended(v.base, b.len_of(i)), ..v }),
        (Stage::Releasing, _) => onward(b, JoinState { at: (v.at + 1) as usize, ..v }),
        (Stage::Heading, _) => cueing(
            b,
            JoinState { base: grown(v.base, b.takeaway.len() - 1), ..v },
        ),
        (Stage::Cueing, _) => (
            JoinState {
                stage: Stage::Finished,
                base: if b.mode == JoinMode::Textual {
                    extended(v.base, b.takeaway.len() as int)
                } else {
                    anchored(
                        extended(v.base, 1),
                        b.p_fork + b.longest() + b.takeaway.len(),
                    )
                },
                ..v
            },
            JoinAskView::Finish,
        ),
        (Stage::Finished, _) => (v, JoinAskView::Finish),
    }
}

/// A join stands soundly: the base holds the shared prefix, and what is still to
/// come has room behind it.
pub open spec fn sound(b: BlockView, v: JoinState) -> bool {
    let to_come = match v.stage {
        Stage::Draining => b.rest(v.at as int) + b.takeaway.len(),
        Stage::Grafting | Stage::Filling | Stage::Appending => b.rest(v.at as int)
            + b.takeaway.len(),
        Stage::Tailing => b.contexts[v.at as int].1 + b.rest(v.at + 1) + b.takeaway.len(),
        Stage::Releasing => b.rest(v.at + 1) + b.takeaway.len(),
        Stage::Heading => b.takeaway.len() as int,
        Stage::Cueing => if b.mode == JoinMode::Textual {
            b.takeaway.len() as int
        } else {
            1
        },
        Stage::Finished => 0,
    };
    &&& b.ready()
    &&& 1 <= v.at <= b.branches.len()
    &&& v.base.seq_len + v.base.buffered + to_come <= u32::MAX
    &&& b.fork_slots <= v.base.seq_len + v.base.buffered
    &&& v.adopted <= v.base.seq_len
    &&& v.fallbacks <= v.at
    &&& b.mode != JoinMode::Textual && v.stage != Stage::Draining && v.stage != Stage::Finished
        ==> v.base.buffered == 0
    &&& match v.stage {
        Stage::Draining => b.mode != JoinMode::Textual && v.base.wf() && v.at == 1 && v.fallbacks
            == 0,
        Stage::Grafting => v.at < b.branches.len() && b.graftable(v.at as int) && v.fallbacks < v.at,
        Stage::Tailing => v.at < b.branches.len() && b.graftable(v.at as int),
        Stage::Filling => v.at < b.branches.len() && b.mode != JoinMode::Textual,
        Stage::Appending => v.at < b.branches.len() && b.mode == JoinMode::Textual,
        Stage::Releasing => v.at < b.branches.len(),
        Stage::Heading => v.at == b.branches.len() && b.mode != JoinMode::Textual
            && b.takeaway.len() > 1,
        Stage::Cueing => v.at == b.branches.len(),
        Stage::Finished => v.at == b.branches.len(),
    }
}

/// What an event may be: a graft lands behind what the base holds.
pub open spec fn fits(v: JoinState, e: JoinEvent) -> bool {
    match v.stage {
        Stage::Grafting => match e {
            JoinEvent::Grafted(start) => start == v.base.seq_len,
            JoinEvent::Refused => true,
            JoinEvent::Done => false,
        },
        Stage::Finished => false,
        _ => e == JoinEvent::Done,
    }
}

// ---------------------------------------------------------------------------
// The join
// ---------------------------------------------------------------------------

/// A join under way.
pub struct Join {
    mode: JoinMode,
    fork_slots: u32,
    p_fork: u32,
    branches: Vec<BranchResult>,
    contexts: Vec<(u32, u32)>,
    takeaway: Vec<u32>,
    longest: usize,
    state: JoinState,
}

/// What a block of branches fixes.
pub open spec fn block_of(
    mode: JoinMode,
    fork: Fork,
    branches: Seq<BranchResult>,
    contexts: Seq<(u32, u32)>,
    takeaway: Seq<u32>,
) -> BlockView {
    BlockView {
        mode,
        fork_slots: fork.fork_slots,
        p_fork: fork.p_fork,
        branches,
        contexts,
        takeaway,
    }
}

impl View for Join {
    type V = JoinState;

    closed spec fn view(&self) -> JoinState {
        self.state
    }
}

impl Join {
    /// What stays the same over the join.
    pub closed spec fn block(&self) -> BlockView {
        BlockView {
            mode: self.mode,
            fork_slots: self.fork_slots,
            p_fork: self.p_fork,
            branches: self.branches@,
            contexts: self.contexts@,
            takeaway: self.takeaway@,
        }
    }

    /// The join stands soundly.
    pub closed spec fn wf(&self) -> bool {
        &&& sound(self.block(), self.state)
        &&& self.longest == self.block().longest()
    }

    /// Begins to join finished branches behind their fork, `base` being the first
    /// one's context and `contexts` the slots and buffered tokens of each.
    pub fn begin(
        mode: JoinMode,
        fork: &Fork,
        branches: Vec<BranchResult>,
        contexts: Vec<(u32, u32)>,
        takeaway: Vec<u32>,
        base: PCtx,
    ) -> (r: (Join, JoinAsk))
        requires
            base.wf(),
            block_of(mode, *fork, branches@, contexts@, takeaway@).ready(),
            fork.fork_slots <= base.seq_len + base.buffered,
            base.seq_len + base.buffered + block_of(
                mode,
                *fork,
                branches@,
                contexts@,
                takeaway@,
            ).rest(1) + takeaway@.len() <= u32::MAX,
        ensures
            r.0.wf(),
            r.0.block() == block_of(mode, *fork, branches@, contexts@, takeaway@),
            (r.0@, r.1@) == begun(r.0.block(), base),
    {
        let n = branches.len();
        let mut longest: usize = 0;
        let mut i: usize = 0;
        while i < n
            invariant
                i <= n == branches@.len(),
                longest == extent(branches@, i as int),
            decreases n - i,
        {
            proof {
                assert(branches@[i as int].tokens@.len() == branches@[i as int].tokens.len());
            }
            if branches[i].tokens.len() > longest {
                longest = branches[i].tokens.len();
            }
            i += 1;
        }
        let state = JoinState { stage: Stage::Releasing, at: 1, base, adopted: 0, fallbacks: 0 };
        let mut j = Join {
            mode,
            fork_slots: fork.fork_slots,
            p_fork: fork.p_fork,
            branches,
            contexts,
            takeaway,
            longest,
            state,
        };
        if mode != JoinMode::Textual && base.buffered > 0 {
            j.state.stage = Stage::Draining;
            let r = drain_tail(&base);
            (j, JoinAsk::Drain(r))
        } else {
            let ask = j.go_on();
            (j, ask)
        }
    }

    fn release(&mut self) -> (r: JoinAsk)
        requires
            sound(
                old(self).block(),
                JoinState { stage: Stage::Releasing, ..old(self)@ },
            ),
            old(self).longest == old(self).block().longest(),
        ensures
            final(self).wf(),
            final(self).block() == old(self).block(),
            (final(self)@, r@) == releasing(old(self)@),
    {
        self.state.stage = Stage::Releasing;
        JoinAsk::Release { sibling: self.state.at }
    }

    fn fill(&mut self) -> (r: JoinAsk)
        requires
            sound(old(self).block(), JoinState { stage: Stage::Filling, ..old(self)@ }),
            old(self).longest == old(self).block().longest(),
        ensures
            final(self).wf(),
            final(self).block() == old(self).block(),
            (final(self)@, r@) == filling(old(self).block(), old(self)@),
    {
        self.state.stage = Stage::Filling;
        let i = self.state.at;
        let n = self.branches[i].tokens.len();
        proof {
            let b = self.block();
            lemma_extent(b.branches, b.branches.len() as int, i as int);
            assert(b.len_of(i as int) == n);
        }
        let refill = sibling_refill(self.p_fork, self.fork_slots, self.state.base.seq_len, n);
        JoinAsk::Fill { sibling: i, refill }
    }

    fn cue(&mut self) -> (r: JoinAsk)
        requires
            sound(old(self).block(), JoinState { stage: Stage::Cueing, ..old(self)@ }),
            old(self).longest == old(self).block().longest(),
        ensures
            final(self).wf(),
            final(self).block() == old(self).block(),
            (final(self)@, r@) == cueing(old(self).block(), old(self)@),
    {
        self.state.stage = Stage::Cueing;
        let mut tokens: Vec<u32> = Vec::new();
        let from: usize = if self.mode == JoinMode::Textual {
            0
        } else {
            self.takeaway.len() - 1
        };
        push_tokens(
            &mut tokens,
            vstd::slice::slice_subrange(self.takeaway.as_slice(), from, self.takeaway.len()),
        );
        proof {
            let t = self.takeaway@;
            assert(tokens@ =~= t.subrange(from as int, t.len() as int));
            assert(t.subrange(0, t.len() as int) =~= t);
            assert(t.subrange(t.len() - 1, t.len() as int) =~= t.skip(t.len() - 1));
        }
        JoinAsk::Cue(tokens)
    }

    fn go_on(&mut self) -> (r: JoinAsk)
        requires
            old(self).block().ready(),
            1 <= old(self)@.at <= old(self).block().branches.len(),
            old(self)@.base.seq_len + old(self)@.base.buffered + old(self).block().rest(
                old(self)@.at as int,
            ) + old(self).block().takeaway.len() <= u32::MAX,
            old(self).block().fork_slots <= old(self)@.base.seq_len + old(self)@.base.buffered,
            old(self)@.adopted <= old(self)@.base.seq_len,
            old(self)@.fallbacks < old(self)@.at,
            old(self).block().mode != JoinMode::Textual ==> old(self)@.base.buffered == 0,
            old(self).longest == old(self).block().longest(),
        ensures
            final(self).wf(),
            final(self).block() == old(self).block(),
            (final(self)@, r@) == onward(old(self).block(), old(self)@),
    {
        let i = self.state.at;
        if i >= self.branches.len() {
            if self.mode == JoinMode::Textual || self.takeaway.len() == 1 {
                return self.cue();
            }
            self.state.stage = Stage::Heading;
            let (refill, _) = takeaway_refill(
                self.p_fork,
                self.longest as u32,
                self.state.base.seq_len,
                self.takeaway.len(),
            );
            return JoinAsk::Head(refill);
        }
        if self.mode == JoinMode::Textual {
            self.state.stage = Stage::Appending;
            return JoinAsk::Append { sibling: i };
        }
        let n = self.branches[i].tokens.len();
        proof {
            assert(self.block().len_of(i as int) == n);
        }
        if self.mode == JoinMode::Adopt {
            let (seq_len, pending) = self.contexts[i];
            match adoptable(seq_len, self.fork_slots, pending as usize, n) {
                Some(k) => {
                    self.state.stage = Stage::Grafting;
                    return JoinAsk::Graft { sibling: i, n: k };
                },
                None => {},
            }
            self.state.fallbacks = self.state.fallbacks + 1;
        }
        self.fill()
    }

    fn land(&mut self, start: u32) -> (r: JoinAsk)
        requires
            old(self).wf(),
            old(self)@.stage == Stage::Grafting,
            start == old(self)@.base.seq_len,
        ensures
            final(self).wf(),
            final(self).block() == old(self).block(),
            (final(self)@, r@) == grafted(old(self).block(), old(self)@, start),
    {
        let i = self.state.at;
        let (seq_len, pending) = self.contexts[i];
        let n = seq_len.saturating_sub(self.fork_slots);
        let ghost b = self.block();
        proof {
            lemma_extent(b.branches, b.branches.len() as int, i as int);
            assert(b.rest(i as int) == b.len_of(i as int) + b.rest(i + 1));
            lemma_rest(b, i + 1);
        }
        self.state.base.seq_len = start + n;
        self.state.adopted = self.state.adopted + n as u64;
        if pending > 0 {
            self.state.stage = Stage::Tailing;
            let refill = adopted_tail(self.p_fork, self.fork_slots, start, n, pending as usize);
            JoinAsk::Tail { sibling: i, refill }
        } else {
            self.release()
        }
    }

    /// Takes what has happened and answers what is to be done next.
    pub fn on(&mut self, event: JoinEvent) -> (r: JoinAsk)
        requires
            old(self).wf(),
            fits(old(self)@, event),
        ensures
            final(self).wf(),
            final(self).block() == old(self).block(),
            (final(self)@, r@) == next(old(self).block(), old(self)@, event),
    {
        let ghost b = self.block();
        let i = self.state.at;
        proof {
            lemma_rest(b, i as int);
            lemma_rest(b, i + 1);
            if i < b.branches.len() {
                assert(b.rest(i as int) == b.len_of(i as int) + b.rest(i + 1));
            }
        }
        match self.state.stage {
            Stage::Grafting => match event {
                JoinEvent::Grafted(start) => self.land(start),
                _ => {
                    self.state.fallbacks = self.state.fallbacks + 1;
                    self.fill()
                },
            },
            Stage::Draining => {
                self.state.base.seq_len = self.state.base.seq_len + self.state.base.buffered;
                self.state.base.buffered = 0;
                self.go_on()
            },
            Stage::Tailing => {
                self.state.base.seq_len = self.state.base.seq_len + self.contexts[i].1;
                self.release()
            },
            Stage::Filling => {
                proof {
                    assert(b.len_of(i as int) == self.branches@[i as int].tokens@.len());
                }
                let n = self.branches[i].tokens.len() as u32;
                self.state.base.seq_len = self.state.base.seq_len + n;
                self.release()
            },
            Stage::Appending => {
                proof {
                    assert(b.len_of(i as int) == self.branches@[i as int].tokens@.len());
                }
                let n = self.branches[i].tokens.len() as u32;
                self.state.base.buffered = self.state.base.buffered + n;
                self.release()
            },
            Stage::Releasing => {
                if i < self.branches.len() {
                    self.state.at = i + 1;
                }
                self.go_on()
            },
            Stage::Heading => {
                let n = (self.takeaway.len() - 1) as u32;
                self.state.base.seq_len = self.state.base.seq_len + n;
                self.cue()
            },
            Stage::Cueing => {
                if self.mode == JoinMode::Textual {
                    self.state.base.buffered = self.state.base.buffered
                        + self.takeaway.len() as u32;
                } else {
                    self.state.base.buffered = self.state.base.buffered + 1;
                    let end = self.p_fork + self.longest as u32 + self.takeaway.len() as u32;
                    self.state.base.set_next_pos(end);
                }
                self.state.stage = Stage::Finished;
                JoinAsk::Finish
            },
            Stage::Finished => JoinAsk::Finish,
        }
    }

    /// The joined block and its context; the grafts are counted.
    pub fn finish(self, stats: &mut Stats) -> (r: (Joined, PCtx))
        requires
            self.wf(),
            self@.stage == Stage::Finished,
            old(stats).tokens_adopted + self@.adopted <= u64::MAX,
            old(stats).adopt_fallbacks + self@.fallbacks <= u64::MAX,
        ensures
            r.0.tokens@ == all_tokens(
                self.block().branches,
                self.block().branches.len() as int,
            ) + self.block().takeaway,
            r.0.bytes@ == all_bytes(
                self.block().branches,
                self.block().branches.len() as int,
            ) + encode_utf8(TAKEAWAY@),
            r.0.terminal == exists|i: int|
                0 <= i < self.block().branches.len() && (
                #[trigger] self.block().branches[i]).terminal,
            r.0.max_extent == self.block().longest(),
            r.1 == self@.base,
            *final(stats) == (Stats {
                tokens_adopted: (old(stats).tokens_adopted + self@.adopted) as u64,
                adopt_fallbacks: (old(stats).adopt_fallbacks + self@.fallbacks) as u64,
                ..*old(stats)
            }),
    {
        stats.tokens_adopted = stats.tokens_adopted + self.state.adopted;
        stats.adopt_fallbacks = stats.adopt_fallbacks + self.state.fallbacks;
        let joined = join_branches(self.branches.as_slice(), self.takeaway.as_slice());
        (joined, self.state.base)
    }

    /// A sibling's tokens.
    pub fn tokens_of(&self, sibling: usize) -> (r: &[u32])
        requires
            sibling < self.block().branches.len(),
        ensures
            r@ == self.block().branches[sibling as int].tokens@,
    {
        self.branches[sibling].tokens.as_slice()
    }
}

pub(crate) proof fn lemma_rest(b: BlockView, i: int)
    ensures
        b.rest(i) >= 0,
    decreases b.branches.len() - i,
{
    if 0 <= i < b.branches.len() {
        lemma_rest(b, i + 1);
    }
}

// ---------------------------------------------------------------------------
// Laws
// ---------------------------------------------------------------------------

/// A join stays sound over whatever happens: nothing runs out of slots, and what
/// is grafted, refilled and refused is counted within bounds.
pub proof fn law_a_join_stays_sound(b: BlockView, v: JoinState, e: JoinEvent)
    requires
        sound(b, v),
        fits(v, e),
    ensures
        sound(b, next(b, v, e).0),
{
    lemma_rest(b, v.at as int);
    lemma_rest(b, v.at + 1);
    lemma_rest(b, v.at + 2);
    if v.at < b.branches.len() {
        assert(b.rest(v.at as int) == b.len_of(v.at as int) + b.rest(v.at + 1));
        if v.at + 1 < b.branches.len() {
            assert(b.rest(v.at + 1) == b.len_of(v.at + 1) + b.rest(v.at + 2));
        }
    }
}

/// In a faithful join every token of a sibling sees the prefix that the branches
/// share and its own branch up to itself, and nothing of the other branches,
/// whether the sibling is filled again or grafted with its tail filled.
pub proof fn law_a_join_isolates_its_siblings(b: BlockView, v: JoinState, e: JoinEvent, k: int, slot: int)
    requires
        sound(b, v),
        fits(v, e),
        0 <= slot,
    ensures
        ({
            let w = next(b, v, e).0;
            match next(b, v, e).1 {
                JoinAskView::Fill(i, _, rows) => 0 <= k < b.len_of(i) ==> (shows(rows[k], slot)
                    <==> slot < b.fork_slots || w.base.seq_len <= slot <= w.base.seq_len + k),
                JoinAskView::Tail(i, _, rows) => 0 <= k < b.contexts[i].1 ==> (shows(rows[k], slot)
                    <==> slot < b.fork_slots || v.base.seq_len <= slot <= w.base.seq_len + k),
                _ => true,
            }
        }),
{
    law_a_join_stays_sound(b, v, e);
    let w = next(b, v, e).0;
    match next(b, v, e).1 {
        JoinAskView::Fill(i, _, rows) => {
            lemma_extent(b.branches, b.branches.len() as int, i);
            if 0 <= k < b.len_of(i) {
                law_hole_rows_isolate_a_sibling(
                    b.fork_slots,
                    w.base.seq_len,
                    0,
                    b.len_of(i) as nat,
                    k,
                    slot,
                );
            }
        },
        JoinAskView::Tail(i, _, rows) => {
            lemma_extent(b.branches, b.branches.len() as int, i);
            lemma_rest(b, i + 1);
            assert(b.rest(i) == b.len_of(i) + b.rest(i + 1));
            if 0 <= k < b.contexts[i].1 {
                law_hole_rows_isolate_a_sibling(
                    b.fork_slots,
                    v.base.seq_len,
                    b.resident(i) as u32,
                    b.contexts[i].1 as nat,
                    k,
                    slot,
                );
            }
        },
        _ => {},
    }
}

/// The reduce stage of a faithful join starts at the position behind the longest
/// branch, its rows show everything before them, and the token behind its opening
/// goes on from there.
pub proof fn law_the_reduce_stage_follows_every_branch(
    b: BlockView,
    v: JoinState,
    i: int,
    k: int,
    slot: int,
)
    requires
        sound(b, v),
        b.mode != JoinMode::Textual,
        0 <= i < b.branches.len(),
        0 <= slot,
    ensures
        b.p_fork + b.len_of(i) <= b.p_fork + b.longest(),
        v.stage == Stage::Heading ==> (onward(b, v).1 is Head && onward(b, v).1->Head_0 == ramp(
            b.p_fork + b.longest(),
            (b.takeaway.len() - 1) as nat,
        )),
        v.stage == Stage::Heading && 0 <= k < b.takeaway.len() - 1 ==> (shows(
            onward(b, v).1->Head_1[k],
            slot,
        ) <==> slot <= v.base.seq_len + k),
        v.stage == Stage::Cueing ==> next(b, v, JoinEvent::Done).0.base.pos() == b.p_fork
            + b.longest() + b.takeaway.len(),
{
    lemma_extent(b.branches, b.branches.len() as int, i);
    if v.stage == Stage::Heading && 0 <= k < b.takeaway.len() - 1 {
        law_causal_rows_show_the_past(
            v.base.seq_len,
            (b.takeaway.len() - 1) as nat,
            k,
            slot,
        );
    }
}

/// A join counts what it takes: the base grows by the whole of each sibling,
/// filled, appended or grafted with what was buffered of it behind that; only what
/// is grafted counts as adopted, and only a graft that was refused, or could not be
/// made, as a fallback.
pub proof fn law_a_join_counts_what_it_takes(b: BlockView, v: JoinState, e: JoinEvent)
    requires
        sound(b, v),
        fits(v, e),
    ensures
        ({
            let w = next(b, v, e).0;
            let ask = next(b, v, e).1;
            let n = b.len_of(v.at as int);
            &&& v.stage == Stage::Filling ==> w.base.seq_len == v.base.seq_len + n && ask
                == JoinAskView::Release(v.at as int)
            &&& v.stage == Stage::Appending ==> w.base.buffered == v.base.buffered + n && ask
                == JoinAskView::Release(v.at as int)
            &&& v.stage == Stage::Grafting && e is Grafted ==> {
                &&& w.adopted == v.adopted + b.resident(v.at as int)
                &&& w.base.seq_len == v.base.seq_len + b.resident(v.at as int)
                &&& w.fallbacks == v.fallbacks
                &&& b.contexts[v.at as int].1 == 0 ==> w.base.seq_len == v.base.seq_len + n
                &&& b.contexts[v.at as int].1 > 0 ==> ask is Tail
                &&& b.contexts[v.at as int].1 == 0 ==> ask == JoinAskView::Release(v.at as int)
            }
            &&& v.stage == Stage::Tailing ==> w.base.seq_len == v.base.seq_len
                + b.contexts[v.at as int].1 && ask == JoinAskView::Release(v.at as int)
            &&& v.stage == Stage::Grafting && !(e is Grafted) ==> ask is Fill && w.fallbacks
                == v.fallbacks + 1 && w.adopted == v.adopted && w.base == v.base
            &&& v.stage == Stage::Heading ==> w.base.seq_len == v.base.seq_len + b.takeaway.len() - 1
            &&& v.stage == Stage::Draining ==> w.base.seq_len == v.base.seq_len + v.base.buffered
                && w.base.buffered == 0
            &&& v.stage != Stage::Grafting ==> w.adopted == v.adopted
            &&& v.stage == Stage::Releasing ==> w.at == v.at + 1
            &&& v.stage != Stage::Releasing ==> w.at == v.at
        }),
{
    lemma_rest(b, v.at as int);
    lemma_rest(b, v.at as int + 1);
}

/// The reduce stage gets its opening once and whole: in a faithful join all but the
/// last token ahead and the last as the cue, in the textual one all as the cue; a
/// faithful join goes on at the position behind the longest sibling and the opening.
pub proof fn law_the_opening_comes_once(b: BlockView, v: JoinState)
    requires
        sound(b, v),
    ensures
        begun(b, v.base).0.at == 1 && begun(b, v.base).0.adopted == 0 && begun(b, v.base).0.base
            == v.base,
        b.mode != JoinMode::Textual && v.base.buffered > 0 ==> begun(b, v.base).1 is Drain,
        ({
            let cue = cueing(b, v).1;
            &&& b.mode == JoinMode::Textual ==> cue == JoinAskView::Cue(b.takeaway)
            &&& b.mode != JoinMode::Textual ==> (cue matches JoinAskView::Cue(t) && t.len() == 1 && t[0]
                == b.takeaway.last())
            &&& v.at == b.branches.len() && b.mode != JoinMode::Textual && b.takeaway.len() > 1
                ==> (onward(b, v).1 matches JoinAskView::Head(positions, rows) && positions.len()
                == b.takeaway.len() - 1 && rows.len() == b.takeaway.len() - 1 && positions[0]
                == b.p_fork + b.longest())
            &&& v.stage == Stage::Cueing && b.mode != JoinMode::Textual ==> ({
                let w = next(b, v, JoinEvent::Done).0;
                w.base.seq_len + w.base.buffered + w.base.delta == b.p_fork + b.longest()
                    + b.takeaway.len()
            })
        }),
{
}

} // verus!
