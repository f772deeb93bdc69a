//! Native parallel reasoning: the fork/merge scheduler's decisions.
//!
//! The model decodes until it closes a guideline block; its plan entries fork
//! one branch each off the shared prefix; the branches decode concurrently and
//! are joined, and the reduce stage goes on behind the longest of them. What is
//! decided here is the token ledger, the admission of a fork, when a segment
//! or a branch ends, and the positions and masks that a join fills with.

use vstd::prelude::*;
use vstd::string::*;

use crate::masks::{
    gap_row, make_gap_row, make_prefix_row, make_ramp, prefix_row, ramp, rows_view, shows,
    lemma_gap_row, lemma_prefix_row,
};
use crate::text::{cat2, lossy, lossy_text, same};

verus! {

// ---------------------------------------------------------------------------
// Ledger
// ---------------------------------------------------------------------------

/// The token budget, what has been charged against it, and the position right
/// after the prompt.
#[derive(Clone, Copy, Debug, PartialEq, Eq, Structural)]
pub struct Ledger {
    pub budget: usize,
    pub charged: usize,
    pub prompt_end_pos: u32,
}

/// `a - b`, at least zero.
pub open spec fn minus(a: int, b: int) -> int {
    if a >= b {
        a - b
    } else {
        0
    }
}

/// The positions used since the prompt.
pub open spec fn used_positions(l: Ledger, next_pos: u32) -> int {
    minus(next_pos as int, l.prompt_end_pos as int)
}

impl Ledger {
    /// The budget that is left.
    pub fn remaining(&self) -> (r: usize)
        ensures
            r == minus(self.budget as int, self.charged as int),
    {
        self.budget.saturating_sub(self.charged)
    }

    /// Closes a parallel block: each of its tokens was charged `degree` times
    /// while the block was open and is charged once from now on.
    pub fn refund_join(&mut self, block_tokens: usize, degree: usize)
        ensures
            final(self).charged == minus(
                old(self).charged as int,
                block_tokens * minus(degree as int, 1),
            ),
            final(self).budget == old(self).budget,
            final(self).prompt_end_pos == old(self).prompt_end_pos,
    {
        let extra = degree.saturating_sub(1);
        let refund: usize = match block_tokens.checked_mul(extra) {
            Some(r) => r,
            None => usize::MAX,
        };
        self.charged = self.charged.saturating_sub(refund);
    }

    /// The positional budget is used up: siblings overlap positions, so this
    /// meters the longest path through the parallel structure.
    pub fn position_exhausted(&self, next_pos: u32) -> (r: bool)
        ensures
            r == (used_positions(*self, next_pos) + 128 >= self.budget),
    {
        next_pos.saturating_sub(self.prompt_end_pos) as u64 + 128 >= self.budget as u64
    }

    /// The positions that are left.
    pub fn position_remaining(&self, next_pos: u32) -> (r: usize)
        ensures
            r == minus(self.budget as int, used_positions(*self, next_pos)),
    {
        self.budget.saturating_sub(next_pos.saturating_sub(self.prompt_end_pos) as usize)
    }
}

/// A block of `tokens` tokens charged `degree` times each costs, once it is
/// joined, what the same tokens cost in sequence.
pub proof fn law_a_joined_block_costs_its_tokens(before: nat, tokens: nat, degree: nat)
    requires
        degree >= 1,
    ensures
        minus((before + tokens * degree) as int, tokens * minus(degree as int, 1)) == before + tokens,
{
    assert(tokens * degree - tokens * (degree - 1) == tokens) by (nonlinear_arith)
        requires
            degree >= 1,
    ;
    assert(tokens * (degree - 1) <= tokens * degree) by (nonlinear_arith);
}

/// What a run has done so far.
#[derive(Clone, Copy, Debug, PartialEq, Eq, Structural)]
pub struct Stats {
    pub parallel_blocks: u64,
    pub branches_total: u64,
    pub max_depth_seen: usize,
    pub sequential_fallbacks: u64,
    pub tokens_generated: u64,
    pub tokens_adopted: u64,
    pub adopt_fallbacks: u64,
}

impl Stats {
    /// Nothing done.
    pub fn new() -> (r: Stats)
        ensures
            r.parallel_blocks == 0,
            r.branches_total == 0,
            r.max_depth_seen == 0,
            r.sequential_fallbacks == 0,
            r.tokens_generated == 0,
            r.tokens_adopted == 0,
            r.adopt_fallbacks == 0,
    {
        Stats {
            parallel_blocks: 0,
            branches_total: 0,
            max_depth_seen: 0,
            sequential_fallbacks: 0,
            tokens_generated: 0,
            tokens_adopted: 0,
            adopt_fallbacks: 0,
        }
    }
}

// ---------------------------------------------------------------------------
// Join modes and admission
// ---------------------------------------------------------------------------

/// How branches are joined.
#[derive(Clone, Copy, Debug, PartialEq, Eq, Structural)]
pub enum JoinMode {
    /// Sibling state is grafted, with a refill where the graft is refused.
    Adopt,
    /// Sibling tokens are filled again at overlapped positions.
    Refill,
    /// Sibling tokens are appended in sequence.
    Textual,
}

/// The join mode a name stands for.
pub open spec fn join_mode_of(name: Seq<char>) -> Option<JoinMode> {
    if name == "adopt"@ {
        Some(JoinMode::Adopt)
    } else if name == "refill"@ {
        Some(JoinMode::Refill)
    } else if name == "textual"@ {
        Some(JoinMode::Textual)
    } else {
        None
    }
}

/// The join mode a name stands for; another name is an error that names it.
pub fn parse_join_mode(name: &str) -> (r: Result<JoinMode, String>)
    ensures
        match r {
            Ok(m) => join_mode_of(name@) == Some(m),
            Err(e) => join_mode_of(name@) is None && e@ == "unknown join_mode: "@ + name@,
        },
{
    proof {
        reveal_strlit("adopt");
        reveal_strlit("refill");
        reveal_strlit("textual");
    }
    if same(name, "adopt") {
        Ok(JoinMode::Adopt)
    } else if same(name, "refill") {
        Ok(JoinMode::Refill)
    } else if same(name, "textual") {
        Ok(JoinMode::Textual)
    } else {
        Err(cat2("unknown join_mode: ", name))
    }
}

/// The limits a fork is admitted under.
#[derive(Clone, Copy, Debug, PartialEq, Eq, Structural)]
pub struct Limits {
    pub max_plans: usize,
    pub max_depth: usize,
    pub min_fork_budget: usize,
    pub join_mode: JoinMode,
}

/// The deepest nesting a join mode allows: exact nested refills would need
/// per-token records, so only the textual join nests.
pub open spec fn depth_cap(limits: Limits) -> usize {
    match limits.join_mode {
        JoinMode::Textual => limits.max_depth,
        _ => 1,
    }
}

/// A guideline block forks: it has plans, not too many, not too deep, and the
/// positional budget can afford it.
pub open spec fn admissible(
    limits: Limits,
    ledger: Ledger,
    plans: nat,
    depth: usize,
    next_pos: u32,
) -> bool {
    &&& 0 < plans <= limits.max_plans
    &&& depth <= depth_cap(limits)
    &&& minus(ledger.budget as int, used_positions(ledger, next_pos)) >= limits.min_fork_budget
}

/// Decides whether a closed guideline block forks, and counts it: as a block
/// with its branches, or as a fallback to sequential decoding.
pub fn admit_fork(
    limits: &Limits,
    ledger: &Ledger,
    stats: &mut Stats,
    plans: usize,
    depth: usize,
    next_pos: u32,
) -> (forks: bool)
    requires
        old(stats).parallel_blocks < u64::MAX,
        old(stats).sequential_fallbacks < u64::MAX,
        old(stats).branches_total + plans <= u64::MAX,
    ensures
        forks == admissible(*limits, *ledger, plans as nat, depth, next_pos),
        forks ==> *final(stats) == (Stats {
            parallel_blocks: (old(stats).parallel_blocks + 1) as u64,
            branches_total: (old(stats).branches_total + plans) as u64,
            max_depth_seen: if depth > old(stats).max_depth_seen {
                depth
            } else {
                old(stats).max_depth_seen
            },
            ..*old(stats)
        }),
        !forks ==> *final(stats) == (Stats {
            sequential_fallbacks: (old(stats).sequential_fallbacks + 1) as u64,
            ..*old(stats)
        }),
{
    let affordable = ledger.position_remaining(next_pos) >= limits.min_fork_budget;
    let cap = match limits.join_mode {
        JoinMode::Textual => limits.max_depth,
        _ => 1,
    };
    if plans == 0 || plans > limits.max_plans || depth > cap || !affordable {
        stats.sequential_fallbacks = stats.sequential_fallbacks + 1;
        return false;
    }
    stats.parallel_blocks = stats.parallel_blocks + 1;
    stats.branches_total = stats.branches_total + plans as u64;
    if depth > stats.max_depth_seen {
        stats.max_depth_seen = depth;
    }
    true
}

/// Settles the ledger when a block of `degree` branches closes: what was
/// charged since `charged_before` is charged once per token from now on.
pub fn close_block(ledger: &mut Ledger, charged_before: usize, degree: usize)
    requires
        degree > 0,
    ensures
        final(ledger).charged == minus(
            old(ledger).charged as int,
            (minus(old(ledger).charged as int, charged_before as int) / degree as int) * (degree - 1),
        ),
        final(ledger).budget == old(ledger).budget,
        final(ledger).prompt_end_pos == old(ledger).prompt_end_pos,
{
    let block_charged = ledger.charged.saturating_sub(charged_before);
    ledger.refund_join(block_charged / degree, degree);
}

// ---------------------------------------------------------------------------
// Positions
// ---------------------------------------------------------------------------

/// A context whose position ids may be decoupled from its slots: a token that
/// enters slot `s` carries position `s + delta`.
#[derive(Clone, Copy, Debug, PartialEq, Eq, Structural)]
pub struct PCtx {
    pub seq_len: u32,
    pub buffered: u32,
    pub delta: i64,
}

impl PCtx {
    /// The slot counts fit and every slot up to the next has a position.
    pub open spec fn wf(self) -> bool {
        &&& self.seq_len + self.buffered <= u32::MAX
        &&& 0 <= self.seq_len + self.delta <= u32::MAX
        &&& 0 <= self.seq_len + self.buffered + self.delta <= u32::MAX
    }

    /// The position the next token carries.
    pub open spec fn pos(self) -> int {
        self.seq_len + self.buffered + self.delta
    }

    /// The slot the next token occupies.
    pub fn next_slot(&self) -> (r: u32)
        requires
            self.wf(),
        ensures
            r == self.seq_len + self.buffered,
    {
        self.seq_len + self.buffered
    }

    /// The position the next token carries.
    pub fn next_pos(&self) -> (r: u32)
        requires
            self.wf(),
        ensures
            r == self.pos(),
    {
        (self.next_slot() as i64 + self.delta) as u32
    }

    /// Re-anchors so that the next token carries position `p`.
    pub fn set_next_pos(&mut self, p: u32)
        requires
            old(self).seq_len + old(self).buffered <= u32::MAX,
        ensures
            final(self).pos() == p,
            final(self).seq_len == old(self).seq_len,
            final(self).buffered == old(self).buffered,
    {
        self.delta = p as i64 - (self.seq_len as i64 + self.buffered as i64);
    }
}

// ---------------------------------------------------------------------------
// Refills
// ---------------------------------------------------------------------------

/// The most tokens one refill pass takes.
pub const REFILL_CHUNK: usize = 512;

/// Tokens to fill again: the position of each and its mask row.
pub struct Refill {
    pub positions: Vec<u32>,
    pub rows: Vec<Vec<u32>>,
}

/// Slot-causal rows: row `i` sees every slot already filled and itself.
pub open spec fn causal(kv_before: u32, n: nat) -> Seq<Seq<u32>> {
    Seq::new(n, |i: int| prefix_row((kv_before + i + 1) as u32))
}

/// Rows that see the shared prefix and the sibling's own tokens, and nothing
/// between them: `done` of its tokens are already in.
pub open spec fn holes(fork_slots: u32, sib_start: u32, done: u32, n: nat) -> Seq<Seq<u32>> {
    Seq::new(
        n,
        |i: int| gap_row(fork_slots, (sib_start - fork_slots) as u32, (done + i + 1) as u32),
    )
}

/// Slot-causal mask rows for `n` tokens appended after `kv_before` slots.
pub fn causal_rows(kv_before: u32, n: usize) -> (r: Vec<Vec<u32>>)
    requires
        kv_before + n <= u32::MAX,
    ensures
        rows_view(r@) == causal(kv_before, n as nat),
{
    let mut r: Vec<Vec<u32>> = Vec::new();
    let mut i: usize = 0;
    while i < n
        invariant
            i <= n,
            kv_before + n <= u32::MAX,
            r@.len() == i,
            forall|j: int| 0 <= j < i ==> (#[trigger] r@[j])@ == prefix_row((kv_before + j + 1) as u32),
        decreases n - i,
    {
        r.push(make_prefix_row(kv_before + i as u32 + 1));
        i += 1;
    }
    proof {
        assert(rows_view(r@) =~= causal(kv_before, n as nat));
    }
    r
}

/// Mask rows that show the shared prefix and a sibling's own tokens.
pub fn hole_rows(fork_slots: u32, sib_start: u32, done: u32, n: usize) -> (r: Vec<Vec<u32>>)
    requires
        fork_slots <= sib_start,
        done + n <= u32::MAX,
    ensures
        rows_view(r@) == holes(fork_slots, sib_start, done, n as nat),
{
    let mut r: Vec<Vec<u32>> = Vec::new();
    let mut i: usize = 0;
    while i < n
        invariant
            i <= n,
            fork_slots <= sib_start,
            done + n <= u32::MAX,
            r@.len() == i,
            forall|j: int|
                0 <= j < i ==> (#[trigger] r@[j])@ == gap_row(
                    fork_slots,
                    (sib_start - fork_slots) as u32,
                    (done + j + 1) as u32,
                ),
        decreases n - i,
    {
        r.push(make_gap_row(fork_slots, sib_start - fork_slots, done + i as u32 + 1));
        i += 1;
    }
    proof {
        assert(rows_view(r@) =~= holes(fork_slots, sib_start, done, n as nat));
    }
    r
}

/// A causal row shows exactly the slots up to its own token's.
pub proof fn law_causal_rows_show_the_past(kv_before: u32, n: nat, i: int, slot: int)
    requires
        0 <= i < n,
        kv_before + n <= u32::MAX,
        0 <= slot,
    ensures
        shows(causal(kv_before, n)[i], slot) <==> slot <= kv_before + i,
{
    lemma_prefix_row((kv_before + i + 1) as u32, slot);
}

/// A sibling's row shows exactly the shared prefix and the sibling's own
/// tokens up to its own: no other branch is visible.
pub proof fn law_hole_rows_isolate_a_sibling(
    fork_slots: u32,
    sib_start: u32,
    done: u32,
    n: nat,
    i: int,
    slot: int,
)
    requires
        0 <= i < n,
        fork_slots <= sib_start,
        done + n <= u32::MAX,
        0 <= slot,
    ensures
        shows(holes(fork_slots, sib_start, done, n)[i], slot) <==> (slot < fork_slots || sib_start
            <= slot <= sib_start + done + i),
{
    lemma_gap_row(fork_slots, (sib_start - fork_slots) as u32, (done + i + 1) as u32, slot);
}

/// What drains a branch's pending tail: its own next positions, causally.
pub fn drain_tail(p: &PCtx) -> (r: Refill)
    requires
        p.wf(),
    ensures
        r.positions@ == ramp(p.seq_len + p.delta, p.buffered as nat),
        rows_view(r.rows@) == causal(p.seq_len, p.buffered as nat),
{
    let start = (p.seq_len as i64 + p.delta) as u32;
    Refill {
        positions: make_ramp(start, p.buffered as usize),
        rows: causal_rows(p.seq_len, p.buffered as usize),
    }
}

/// What fills a whole sibling into the base at `sib_start`: positions that
/// restart at the fork, visible to the shared prefix and itself.
pub fn sibling_refill(p_fork: u32, fork_slots: u32, sib_start: u32, n: usize) -> (r: Refill)
    requires
        fork_slots <= sib_start,
        p_fork + n <= u32::MAX,
    ensures
        r.positions@ == ramp(p_fork as int, n as nat),
        rows_view(r.rows@) == holes(fork_slots, sib_start, 0, n as nat),
{
    Refill { positions: make_ramp(p_fork, n), rows: hole_rows(fork_slots, sib_start, 0, n) }
}

/// How many of a sibling's tokens can be grafted: its resident tokens, where
/// they and its pending tail are its whole transcript.
pub fn adoptable(seq_len: u32, fork_slots: u32, pending: usize, transcript: usize) -> (r: Option<u32>)
    ensures
        match r {
            Some(n) => n == minus(seq_len as int, fork_slots as int) && n + pending == transcript,
            None => minus(seq_len as int, fork_slots as int) + pending != transcript,
        },
{
    let n = seq_len.saturating_sub(fork_slots);
    if n as u64 > transcript as u64 {
        return None;
    }
    if transcript - n as usize != pending {
        return None;
    }
    Some(n)
}

/// What fills the pending tail of a grafted sibling: positions behind its
/// `n_adopt` grafted tokens, visible to the prefix and the whole sibling.
pub fn adopted_tail(p_fork: u32, fork_slots: u32, dst_start: u32, n_adopt: u32, pending: usize) -> (r:
    Refill)
    requires
        fork_slots <= dst_start,
        p_fork + n_adopt + pending <= u32::MAX,
    ensures
        r.positions@ == ramp(p_fork + n_adopt, pending as nat),
        rows_view(r.rows@) == holes(fork_slots, dst_start, n_adopt, pending as nat),
{
    Refill {
        positions: make_ramp(p_fork + n_adopt, pending),
        rows: hole_rows(fork_slots, dst_start, n_adopt, pending),
    }
}

/// The chunk of a refill that starts at `off`: its end, at most
/// [`REFILL_CHUNK`] tokens on.
pub fn refill_chunk_end(off: usize, total: usize) -> (end: usize)
    requires
        off < total,
    ensures
        off < end <= total,
        end - off <= 512,
        end == total || end - off == 512,
{
    if total - off <= REFILL_CHUNK {
        total
    } else {
        off + REFILL_CHUNK
    }
}

// ---------------------------------------------------------------------------
// Segments
// ---------------------------------------------------------------------------

/// Why a segment ended.
#[derive(Clone, Copy, Debug, PartialEq, Eq, Structural)]
pub enum Stop {
    /// The model closed a guideline: a fork point.
    GuidelineEnd,
    /// The model closed a step: the branch is complete.
    StepEnd,
    /// End of turn.
    Eos,
    /// The budget is used up.
    Budget,
}

/// A segment under decoding.
pub struct Segment {
    pub tokens: Vec<u32>,
    pub bytes: Vec<u8>,
    /// The position the next token carries.
    pub cur_pos: u32,
}

/// What a segment is decoded under: how often each token is charged, whether a
/// closed step ends it, a cap on its tokens, and what the request has been
/// charged for before it.
#[derive(Clone, Copy, Debug, PartialEq, Eq, Structural)]
pub struct SegmentRules {
    pub degree: usize,
    pub watch_step: bool,
    pub token_cap: Option<usize>,
    pub inherited: usize,
    pub own_before: usize,
}

/// `</guideline>` in bytes.
pub open spec fn guideline_end() -> Seq<u8> {
    seq![60u8, 47u8, 103u8, 117u8, 105u8, 100u8, 101u8, 108u8, 105u8, 110u8, 101u8, 62u8]
}

/// `</step>` in bytes.
pub open spec fn step_end() -> Seq<u8> {
    seq![60u8, 47u8, 115u8, 116u8, 101u8, 112u8, 62u8]
}

/// `s` ends with `t`.
pub open spec fn ends_with(s: Seq<u8>, t: Seq<u8>) -> bool {
    s.len() >= t.len() && s.subrange(s.len() - t.len(), s.len() as int) == t
}

fn bytes_end_with(s: &[u8], t: &[u8]) -> (r: bool)
    ensures
        r == ends_with(s@, t@),
{
    if s.len() < t.len() {
        return false;
    }
    let off: usize = s.len() - t.len();
    let mut i: usize = 0;
    while i < t.len()
        invariant
            i <= t.len(),
            off + t.len() == s.len(),
            forall|j: int| 0 <= j < i ==> s@[off + j] == t@[j],
        decreases t.len() - i,
    {
        if s[off + i] != t[i] {
            proof {
                assert(s@.subrange(off as int, s@.len() as int)[i as int] == s@[off + i]);
            }
            return false;
        }
        i += 1;
    }
    proof {
        assert(s@.subrange(off as int, s@.len() as int) =~= t@);
    }
    true
}

/// What the request is charged before the next token: inherited tokens once,
/// its own tokens `degree` times.
pub open spec fn degree_charge(rules: SegmentRules, tokens: nat) -> int {
    rules.inherited + (rules.own_before + tokens) * rules.degree
}

/// The segment may not take another token: the positional budget, the charge
/// against the whole budget, or the token cap is used up.
pub open spec fn exhausted(rules: SegmentRules, ledger: Ledger, cur_pos: u32, tokens: nat) -> bool {
    ||| used_positions(ledger, cur_pos) + 128 >= ledger.budget
    ||| degree_charge(rules, tokens) + 128 >= ledger.budget
    ||| (rules.token_cap is Some && tokens >= rules.token_cap->0)
}

/// How a segment ends with the bytes it has: at a closed guideline, or at a
/// closed step where steps are watched.
pub open spec fn tag_stop(rules: SegmentRules, bytes: Seq<u8>) -> Option<Stop> {
    if ends_with(bytes, guideline_end()) {
        Some(Stop::GuidelineEnd)
    } else if rules.watch_step && ends_with(bytes, step_end()) {
        Some(Stop::StepEnd)
    } else {
        None
    }
}

impl Segment {
    /// An empty segment whose first token carries position `pos`.
    pub fn start(pos: u32) -> (r: Segment)
        ensures
            r.tokens@.len() == 0,
            r.bytes@.len() == 0,
            r.cur_pos == pos,
    {
        Segment { tokens: Vec::new(), bytes: Vec::new(), cur_pos: pos }
    }

    /// The segment's text: what its plans are read from.
    pub fn text(&self) -> (r: String)
        ensures
            r@ == lossy_text(self.bytes@),
    {
        lossy(self.bytes.as_slice())
    }

    /// Whether the segment stops on its budget before the next token.
    pub fn out_of_budget(&self, rules: &SegmentRules, ledger: &Ledger) -> (r: bool)
        ensures
            r == exhausted(*rules, *ledger, self.cur_pos, self.tokens@.len()),
    {
        if ledger.position_exhausted(self.cur_pos) {
            return true;
        }
        match rules.token_cap {
            Some(cap) => {
                if self.tokens.len() >= cap {
                    return true;
                }
            },
            None => {},
        }
        let budget = ledger.budget;
        // Whatever overflows is past any budget.
        let own: usize = match rules.own_before.checked_add(self.tokens.len()) {
            Some(n) => n,
            None => {
                if rules.degree == 0 {
                    return reaches(rules.inherited, budget);
                }
                proof {
                    let own = rules.own_before + self.tokens@.len();
                    assert(own * rules.degree >= own) by (nonlinear_arith)
                        requires
                            rules.degree >= 1,
                            own >= 0,
                    ;
                }
                return true;
            },
        };
        match own.checked_mul(rules.degree) {
            Some(product) => match rules.inherited.checked_add(product) {
                Some(total) => reaches(total, budget),
                None => true,
            },
            None => true,
        }
    }

    /// Takes a decoded token with its bytes: it is charged `degree` times, and
    /// the tag it closes, if any, ends the segment.
    pub fn take_token(
        &mut self,
        rules: &SegmentRules,
        ledger: &mut Ledger,
        stats: &mut Stats,
        token: u32,
        text: &[u8],
    ) -> (r: Option<Stop>)
        requires
            old(self).cur_pos < u32::MAX,
            old(ledger).charged + rules.degree <= usize::MAX,
            old(stats).tokens_generated < u64::MAX,
        ensures
            final(self).tokens@ == old(self).tokens@.push(token),
            final(self).bytes@ == old(self).bytes@ + text@,
            final(self).cur_pos == old(self).cur_pos + 1,
            *final(ledger) == (Ledger {
                charged: (old(ledger).charged + rules.degree) as usize,
                ..*old(ledger)
            }),
            *final(stats) == (Stats {
                tokens_generated: (old(stats).tokens_generated + 1) as u64,
                ..*old(stats)
            }),
            r == tag_stop(*rules, final(self).bytes@),
    {
        self.tokens.push(token);
        push_bytes(&mut self.bytes, text);
        self.cur_pos = self.cur_pos + 1;
        ledger.charged = ledger.charged + rules.degree;
        stats.tokens_generated = stats.tokens_generated + 1;
        let guideline: [u8; 12] = [60, 47, 103, 117, 105, 100, 101, 108, 105, 110, 101, 62];
        let step: [u8; 7] = [60, 47, 115, 116, 101, 112, 62];
        proof {
            assert(guideline@ =~= guideline_end());
            assert(step@ =~= step_end());
        }
        if bytes_end_with(self.bytes.as_slice(), &guideline) {
            return Some(Stop::GuidelineEnd);
        }
        if rules.watch_step && bytes_end_with(self.bytes.as_slice(), &step) {
            return Some(Stop::StepEnd);
        }
        None
    }
}

fn reaches(total: usize, budget: usize) -> (r: bool)
    ensures
        r == (total + 128 >= budget),
{
    match total.checked_add(128) {
        Some(n) => n >= budget,
        None => true,
    }
}

/// Appends `more` to `out`.
pub fn push_bytes(out: &mut Vec<u8>, more: &[u8])
    ensures
        final(out)@ == old(out)@ + more@,
{
    let mut i: usize = 0;
    proof {
        assert(out@ =~= old(out)@ + more@.take(0));
    }
    while i < more.len()
        invariant
            i <= more.len(),
            out@ == old(out)@ + more@.take(i as int),
        decreases more.len() - i,
    {
        proof {
            assert((old(out)@ + more@.take(i as int)).push(more@[i as int]) =~= old(out)@ + more@.take(
                i + 1,
            ));
        }
        out.push(more[i]);
        i += 1;
    }
    proof {
        assert(more@.take(i as int) =~= more@);
    }
}

/// Appends `more` to `out`.
pub fn push_tokens(out: &mut Vec<u32>, more: &[u32])
    ensures
        final(out)@ == old(out)@ + more@,
{
    let mut i: usize = 0;
    proof {
        assert(out@ =~= old(out)@ + more@.take(0));
    }
    while i < more.len()
        invariant
            i <= more.len(),
            out@ == old(out)@ + more@.take(i as int),
        decreases more.len() - i,
    {
        proof {
            assert((old(out)@ + more@.take(i as int)).push(more@[i as int]) =~= old(out)@ + more@.take(
                i + 1,
            ));
        }
        out.push(more[i]);
        i += 1;
    }
    proof {
        assert(more@.take(i as int) =~= more@);
    }
}

} // verus!
