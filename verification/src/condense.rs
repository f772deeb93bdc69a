//! Condensing a long context: masks that hide the stale middle in place, the
//! compact context that rebuilds it, and the schedules that compare the two.
//!
//! A condensed context keeps `sink` head tokens and a recent window. Masking
//! keeps every token at its original position; rebuilding re-positions what is
//! kept in a fresh context.

use vstd::prelude::*;
use vstd::string::*;

use crate::masks::{
    gap_row, lemma_gap_row, lemma_prefix_row, make_gap_row, make_prefix_row, make_ramp, prefix_row,
    ramp, rows_view, shows,
};
use crate::npr::schedule::minus;

verus! {

/// Turns kept attended when a replayed trajectory condenses.
pub fn default_keep_recent_turns() -> (r: u32)
    ensures
        r == 12,
{
    12
}

/// Positions probed.
pub fn default_num_queries() -> (r: u32)
    ensures
        r == 64,
{
    64
}

/// Turns of a run.
pub fn default_turns() -> (r: u32)
    ensures
        r == 120,
{
    120
}

/// Tokens a turn observes.
pub fn default_turn_tokens() -> (r: u32)
    ensures
        r == 300,
{
    300
}

/// Tokens a turn decodes.
pub fn default_decode_per_turn() -> (r: u32)
    ensures
        r == 8,
{
    8
}

/// The attended length that forces a condensation.
pub fn default_context_limit() -> (r: u32)
    ensures
        r == 8000,
{
    8000
}

/// Head tokens kept.
pub fn default_sink_size() -> (r: u32)
    ensures
        r == 64,
{
    64
}

/// Recent tokens kept.
pub fn default_keep_recent() -> (r: u32)
    ensures
        r == 2000,
{
    2000
}

/// The synthetic token at position `i`.
pub fn tok(i: u32) -> (r: u32)
    ensures
        r == 1000 + i % 30000,
{
    1000 + (i % 30000)
}

// ---------------------------------------------------------------------------
// Masks
// ---------------------------------------------------------------------------

/// The row over `seq_len` slots that shows the first `sink` and the last
/// `window`; all of them where nothing lies between.
pub open spec fn sink_window(seq_len: int, sink: int, window: int) -> Seq<u32> {
    if seq_len <= sink + window {
        prefix_row(seq_len as u32)
    } else {
        gap_row(sink as u32, (seq_len - sink - window) as u32, window as u32)
    }
}

/// A sink-and-window row shows exactly the sink and the window.
pub proof fn law_the_mask_keeps_sink_and_window(seq_len: u32, sink: u32, window: u32, slot: int)
    requires
        0 <= slot,
    ensures
        shows(sink_window(seq_len as int, sink as int, window as int), slot) <==> slot < seq_len && (
        slot < sink || slot >= seq_len - window),
{
    if seq_len <= sink + window {
        lemma_prefix_row(seq_len, slot);
    } else {
        lemma_gap_row(sink, (seq_len - sink - window) as u32, window, slot);
    }
}

/// The mask of a single-token pass over `seq_len` slots.
pub fn build_mask(seq_len: u32, sink: u32, window: u32) -> (r: Vec<u32>)
    ensures
        r@ == sink_window(seq_len as int, sink as int, window as int),
{
    if seq_len as u64 <= sink as u64 + window as u64 {
        make_prefix_row(seq_len)
    } else {
        make_gap_row(sink, seq_len - sink - window, window)
    }
}

/// The masks of a pass of `n` tokens behind `logical`: query `j` sees the
/// sink, the window behind `logical`, and the new tokens up to itself.
pub open spec fn prefill_masks(logical: int, n: nat, sink: int, window: int) -> Seq<Seq<u32>> {
    Seq::new(n, |j: int| sink_window(logical + j + 1, sink, window + j + 1))
}

/// Per-query masks for a pass of `tpt` tokens behind `logical`. The gap is the
/// same for every query; only the recent run grows.
pub fn build_prefill_masks(logical: u32, tpt: u32, sink: u32, window: u32) -> (r: Vec<Vec<u32>>)
    requires
        logical + tpt <= u32::MAX,
        window + tpt <= u32::MAX,
    ensures
        rows_view(r@) == prefill_masks(logical as int, tpt as nat, sink as int, window as int),
{
    let mut r: Vec<Vec<u32>> = Vec::new();
    let mut j: u32 = 0;
    while j < tpt
        invariant
            j <= tpt,
            logical + tpt <= u32::MAX,
            window + tpt <= u32::MAX,
            r@.len() == j,
            forall|i: int|
                0 <= i < j ==> (#[trigger] r@[i])@ == sink_window(
                    logical + i + 1,
                    sink as int,
                    window + i + 1,
                ),
        decreases tpt - j,
    {
        r.push(build_mask(logical + j + 1, sink, window + j + 1));
        j += 1;
    }
    proof {
        assert(rows_view(r@) =~= prefill_masks(
            logical as int,
            tpt as nat,
            sink as int,
            window as int,
        ));
    }
    r
}

/// The masks of a whole prefix: the query at `p` sees the sink and the last
/// `window` slots up to its own.
pub open spec fn sliding_masks(n: nat, sink: int, window: int) -> Seq<Seq<u32>> {
    Seq::new(n, |p: int| sink_window(p + 1, sink, window))
}

fn build_sliding_masks(n: u32, sink: u32, window: u32) -> (r: Vec<Vec<u32>>)
    ensures
        rows_view(r@) == sliding_masks(n as nat, sink as int, window as int),
{
    let mut r: Vec<Vec<u32>> = Vec::new();
    let mut p: u32 = 0;
    while p < n
        invariant
            p <= n,
            r@.len() == p,
            forall|i: int|
                0 <= i < p ==> (#[trigger] r@[i])@ == sink_window(i + 1, sink as int, window as int),
        decreases n - p,
    {
        r.push(build_mask(p + 1, sink, window));
        p += 1;
    }
    proof {
        assert(rows_view(r@) =~= sliding_masks(n as nat, sink as int, window as int));
    }
    r
}

// ---------------------------------------------------------------------------
// Compact contexts
// ---------------------------------------------------------------------------

/// The first `head` tokens followed by those from `from` up to `to`.
pub open spec fn compacted(ids: Seq<u32>, head: int, from: int, to: int) -> Seq<u32> {
    ids.take(head) + ids.subrange(from, to)
}

/// The compact context: the first `head` tokens and those from `from` up to
/// `to`.
pub fn compact_context(ids: &[u32], head: usize, from: usize, to: usize) -> (r: Vec<u32>)
    requires
        head <= ids@.len(),
        from <= to <= ids@.len(),
    ensures
        r@ == compacted(ids@, head as int, from as int, to as int),
{
    let mut r: Vec<u32> = Vec::new();
    let mut i: usize = 0;
    while i < head
        invariant
            i <= head <= ids@.len(),
            r@ == ids@.take(i as int),
        decreases head - i,
    {
        proof {
            assert(ids@.take(i + 1) =~= ids@.take(i as int).push(ids@[i as int]));
        }
        r.push(ids[i]);
        i += 1;
    }
    let mut k: usize = from;
    proof {
        assert(r@ =~= compacted(ids@, head as int, from as int, from as int));
    }
    while k < to
        invariant
            from <= k <= to <= ids@.len(),
            head <= ids@.len(),
            r@ == compacted(ids@, head as int, from as int, k as int),
        decreases to - k,
    {
        proof {
            assert(compacted(ids@, head as int, from as int, k + 1) =~= compacted(
                ids@,
                head as int,
                from as int,
                k as int,
            ).push(ids@[k as int]));
        }
        r.push(ids[k]);
        k += 1;
    }
    r
}

fn copy_range(ids: &[u32], from: usize, n: usize) -> (r: Vec<u32>)
    requires
        from + n <= ids@.len(),
    ensures
        r@ == ids@.subrange(from as int, from + n),
{
    assert(from + n <= ids.len());
    let r = compact_context(ids, 0, from, from + n);
    proof {
        assert(r@ =~= ids@.subrange(from as int, from + n));
    }
    r
}

/// The end of the prefill chunk that starts at `off`: at most 4096 tokens on.
pub fn prefill_chunk_end(off: usize, total: usize) -> (end: usize)
    requires
        off < total,
    ensures
        off < end <= total,
        end - off <= 4096,
        end == total || end - off == 4096,
{
    if total - off <= 4096 {
        total
    } else {
        off + 4096
    }
}

// ---------------------------------------------------------------------------
// Quality plans
// ---------------------------------------------------------------------------

/// Why a plan cannot be made.
#[derive(Clone, Copy, Debug, PartialEq, Eq, Structural)]
pub enum PlanError {
    WindowTooShort,
    HistoryTooShort,
    TooFewTurns,
    NothingOverflows,
}

/// The wording of a plan error.
pub open spec fn plan_error_text(e: PlanError) -> Seq<char> {
    match e {
        PlanError::WindowTooShort => "token_ids too short for sink+keep+num_queries"@,
        PlanError::HistoryTooShort => "token_ids too short for history_len + num_queries"@,
        PlanError::TooFewTurns => "trajectory has too few turns for keep_recent_turns"@,
        PlanError::NothingOverflows => "no turn overflows context_limit (trajectory fits — lower context_limit or capture a longer run)"@,
    }
}

impl PlanError {
    /// The wording of the error.
    pub fn message(&self) -> (r: &'static str)
        ensures
            r@ == plan_error_text(*self),
    {
        match self {
            PlanError::WindowTooShort => "token_ids too short for sink+keep+num_queries",
            PlanError::HistoryTooShort => "token_ids too short for history_len + num_queries",
            PlanError::TooFewTurns => "trajectory has too few turns for keep_recent_turns",
            PlanError::NothingOverflows => "no turn overflows context_limit (trajectory fits — lower context_limit or capture a longer run)",
        }
    }
}

/// In-window prediction: the probed positions and the tokens they predict,
/// the masks of the masked arm, and the compact context of the rebuilt arm
/// with the probed positions inside it.
pub struct WindowPlan {
    pub queries: Vec<u32>,
    pub gold: Vec<u32>,
    pub masks: Vec<Vec<u32>>,
    pub compact: Vec<u32>,
    pub rebuilt: Vec<u32>,
}

/// Plans the prediction of the last `num_queries` tokens of `ids` under full,
/// masked and rebuilt context.
pub fn quality_plan(ids: &[u32], sink: u32, keep: u32, num_queries: u32) -> (r: Result<
    WindowPlan,
    PlanError,
>)
    requires
        ids@.len() <= u32::MAX,
        ids@.len() >= sink + keep + num_queries + 2 ==> num_queries == 0 || num_queries < sink + keep,
    ensures
        match r {
            Err(e) => e == PlanError::WindowTooShort && ids@.len() < sink + keep + num_queries + 2,
            Ok(plan) => {
                let l = ids@.len() as int;
                let nq = num_queries as nat;
                &&& l >= sink + keep + num_queries + 2
                &&& plan.queries@ == ramp(l - 1 - num_queries, nq)
                &&& plan.gold@ == ids@.subrange(l - num_queries, l)
                &&& rows_view(plan.masks@) == sliding_masks(l as nat, sink as int, keep as int)
                &&& plan.compact@ == compacted(ids@, sink as int, l - keep, l)
                &&& plan.rebuilt@ == ramp(sink + keep - 1 - num_queries, nq)
            },
        },
{
    let l = ids.len() as u32;
    if (l as u64) < sink as u64 + keep as u64 + num_queries as u64 + 2 {
        return Err(PlanError::WindowTooShort);
    }
    let first: u32 = l - 1 - num_queries;
    let inside: u32 = if num_queries == 0 {
        0
    } else {
        sink + keep - 1 - num_queries
    };
    proof {
        if num_queries == 0 {
            assert(ramp(0, 0) =~= ramp(sink + keep - 1, 0));
        }
    }
    let compact = compact_context(ids, sink as usize, (l - keep) as usize, l as usize);
    Ok(
        WindowPlan {
            queries: make_ramp(first, num_queries as usize),
            gold: copy_range(ids, (l - num_queries) as usize, num_queries as usize),
            masks: build_sliding_masks(l, sink, keep),
            compact,
            rebuilt: make_ramp(inside, num_queries as usize),
        },
    )
}

/// A probed position inside the kept window stands, in the compact context,
/// at its rebuilt index: both arms predict from the same token.
pub proof fn law_a_rebuilt_query_reads_its_token(ids: Seq<u32>, sink: u32, keep: u32, p: int)
    requires
        ids.len() >= sink + keep,
        ids.len() - keep <= p < ids.len(),
    ensures
        compacted(ids, sink as int, ids.len() - keep, ids.len() as int)[sink + p - (ids.len() - keep)]
            == ids[p],
{
}

/// Future prediction behind a condensed history: the continuation that is fed,
/// the tokens it predicts, the masks of the masked arm and the compact history
/// of the rebuilt one.
pub struct FuturePlan {
    pub cont: Vec<u32>,
    pub gold: Vec<u32>,
    pub masks: Vec<Vec<u32>>,
    pub compact: Vec<u32>,
}

/// Plans the prediction of the `nq` tokens behind a history of `p` tokens.
pub fn future_plan(ids: &[u32], sink: u32, keep: u32, nq: u32, p: u32) -> (r: Result<
    FuturePlan,
    PlanError,
>)
    requires
        ids@.len() <= u32::MAX,
    ensures
        match r {
            Err(e) => e == PlanError::HistoryTooShort && (p < sink + keep + 2 || p + nq + 1
                > ids@.len()),
            Ok(plan) => {
                &&& p >= sink + keep + 2
                &&& p + nq + 1 <= ids@.len()
                &&& plan.cont@ == ids@.subrange(p as int, p + nq)
                &&& plan.gold@ == ids@.subrange(p + 1, p + nq + 1)
                &&& rows_view(plan.masks@) == prefill_masks(
                    p as int,
                    nq as nat,
                    sink as int,
                    keep as int,
                )
                &&& plan.compact@ == compacted(ids@, sink as int, p - keep, p as int)
            },
        },
{
    let l = ids.len() as u64;
    if (p as u64) < sink as u64 + keep as u64 + 2 || p as u64 + nq as u64 + 1 > l {
        return Err(PlanError::HistoryTooShort);
    }
    Ok(
        FuturePlan {
            cont: copy_range(ids, p as usize, nq as usize),
            gold: copy_range(ids, p as usize + 1, nq as usize),
            masks: build_prefill_masks(p, nq, sink, keep),
            compact: compact_context(ids, sink as usize, (p - keep) as usize, p as usize),
        },
    )
}

// ---------------------------------------------------------------------------
// Replayed trajectories
// ---------------------------------------------------------------------------

/// The longest history that is probed.
pub const MAX_HISTORY: u32 = 60000;

/// The most turns that are probed.
pub const MAX_PROBES: usize = 16;

/// Turn `t` can be probed: its history overflows the limit, stays within the
/// longest probed, has a turn to drop, and its continuation is recorded.
pub open spec fn probeable(
    starts: Seq<u32>,
    t: int,
    keep: u32,
    nq: u32,
    limit: u32,
    len: int,
) -> bool {
    &&& limit < starts[t] <= 60000
    &&& t > keep
    &&& starts[t] + nq + 1 <= len
}

/// The probeable turns among the first `n`, in order.
pub open spec fn candidates(
    starts: Seq<u32>,
    n: int,
    keep: u32,
    nq: u32,
    limit: u32,
    len: int,
) -> Seq<u32>
    decreases n,
{
    if n <= 0 {
        Seq::empty()
    } else {
        let before = candidates(starts, n - 1, keep, nq, limit, len);
        if probeable(starts, n - 1, keep, nq, limit, len) {
            before.push((n - 1) as u32)
        } else {
            before
        }
    }
}

/// How far apart the probed candidates are, so that at most 16 are probed.
pub open spec fn probe_stride(n: int) -> int {
    (n + 15) / 16
}

/// The turns of a trajectory that are probed: every so many of the probeable
/// ones, from the first.
pub fn probe_turns(starts: &[u32], keep: u32, nq: u32, limit: u32, len: usize) -> (r: Result<
    Vec<u32>,
    PlanError,
>)
    requires
        starts@.len() <= u32::MAX,
        len <= u32::MAX,
    ensures
        ({
            let c = candidates(starts@, starts@.len() as int, keep, nq, limit, len as int);
            let s = probe_stride(c.len() as int);
            match r {
                Err(e) => if starts@.len() < keep + 2 {
                    e == PlanError::TooFewTurns
                } else {
                    e == PlanError::NothingOverflows && c.len() == 0
                },
                Ok(p) => {
                    &&& starts@.len() >= keep + 2
                    &&& c.len() > 0
                    &&& p@.len() == (c.len() + s - 1) / s
                    &&& p@.len() <= 16
                    &&& forall|i: int| 0 <= i < p@.len() ==> #[trigger] p@[i] == c[i * s]
                },
            }
        }),
{
    if (starts.len() as u64) < keep as u64 + 2 {
        return Err(PlanError::TooFewTurns);
    }
    let mut cand: Vec<u32> = Vec::new();
    let mut t: u32 = 0;
    while t < starts.len() as u32
        invariant
            starts@.len() <= u32::MAX,
            len <= u32::MAX,
            t <= starts@.len(),
            cand@.len() <= t,
            cand@ == candidates(starts@, t as int, keep, nq, limit, len as int),
        decreases starts@.len() - t,
    {
        let p = starts[t as usize];
        if p > limit && p <= MAX_HISTORY && t > keep && p as u64 + nq as u64 + 1 <= len as u64 {
            cand.push(t);
        }
        t += 1;
    }
    if cand.len() == 0 {
        return Err(PlanError::NothingOverflows);
    }
    let n: usize = cand.len();
    let stride: usize = n / MAX_PROBES + (if n % MAX_PROBES == 0 {
        0usize
    } else {
        1usize
    });
    let ghost s = probe_stride(n as int);
    assert(stride == s);
    let mut probes: Vec<u32> = Vec::new();
    let mut at: usize = 0;
    loop
        invariant
            n == cand@.len(),
            0 < n <= u32::MAX,
            0 < stride <= n,
            stride == s,
            s == probe_stride(n as int),
            cand@ == candidates(starts@, starts@.len() as int, keep, nq, limit, len as int),
            starts@.len() >= keep + 2,
            at == probes@.len() * s,
            at < n,
            forall|i: int| 0 <= i < probes@.len() ==> #[trigger] probes@[i] == cand@[i * s],
        decreases n - at,
    {
        let ghost before = probes@;
        probes.push(cand[at]);
        proof {
            let k = probes@.len() as int;
            assert((k - 1) * s + s == k * s) by (nonlinear_arith);
            assert forall|i: int| 0 <= i < k implies #[trigger] probes@[i] == cand@[i * s] by {
                if i < k - 1 {
                    assert(before[i] == cand@[i * s]);
                }
            }
            if n - at <= stride {
                lemma_ceil(n as int, s, k);
                lemma_at_most_sixteen(n as int);
            }
        }
        if n - at <= stride {
            return Ok(probes);
        }
        at = at + stride;
    }
}

proof fn lemma_ceil(n: int, s: int, k: int)
    requires
        s > 0,
        k >= 1,
        (k - 1) * s < n <= k * s,
    ensures
        (n + s - 1) / s == k,
{
    assert((k - 1) * s + s == k * s) by (nonlinear_arith);
    vstd::arithmetic::div_mod::lemma_fundamental_div_mod_converse(
        n + s - 1,
        s,
        k,
        n + s - 1 - k * s,
    );
    assert(n + s - 1 == s * k + (n + s - 1 - k * s)) by (nonlinear_arith);
}

proof fn lemma_at_most_sixteen(n: int)
    requires
        n > 0,
    ensures
        (n + probe_stride(n) - 1) / probe_stride(n) <= 16,
{
    let s = probe_stride(n);
    assert(16 * s >= n);
    assert((n + s - 1) / s < 17) by (nonlinear_arith)
        requires
            16 * s >= n,
            s > 0,
            n + s - 1 < 17 * s,
    ;
}

/// One probe of a replayed trajectory: its history, the first kept recent
/// token, and how many tokens of the middle are dropped.
#[derive(Clone, Copy, Debug, PartialEq, Eq, Structural)]
pub struct Probe {
    pub turn: u32,
    pub history: u32,
    pub kept_start: u32,
    pub dropped: u32,
}

/// The probe of turn `t`: the task prefix and the last `keep` turns are kept.
pub fn probe_at(starts: &[u32], t: u32, keep: u32) -> (r: Probe)
    requires
        keep <= t < starts@.len(),
    ensures
        r.turn == t,
        r.history == starts@[t as int],
        r.kept_start == starts@[t - keep],
        r.dropped == minus(r.kept_start as int, starts@[0] as int),
{
    let kept_start = starts[(t - keep) as usize];
    Probe {
        turn: t,
        history: starts[t as usize],
        kept_start,
        dropped: kept_start.saturating_sub(starts[0]),
    }
}

/// The row over `end` slots with the turns between the prefix and the kept
/// ones hidden.
pub open spec fn turn_row(prefix_end: int, kept_start: int, end: int) -> Seq<u32> {
    if kept_start <= prefix_end {
        prefix_row(end as u32)
    } else {
        gap_row(prefix_end as u32, (kept_start - prefix_end) as u32, (end - kept_start) as u32)
    }
}

/// The masks of the continuation behind a probe's history.
pub fn turn_masks(prefix_end: u32, kept_start: u32, p: u32, nq: u32) -> (r: Vec<Vec<u32>>)
    requires
        kept_start <= p,
        p + nq <= u32::MAX,
    ensures
        rows_view(r@) == Seq::new(
            nq as nat,
            |j: int| turn_row(prefix_end as int, kept_start as int, p + j + 1),
        ),
{
    let mut r: Vec<Vec<u32>> = Vec::new();
    let mut j: u32 = 0;
    while j < nq
        invariant
            j <= nq,
            kept_start <= p,
            p + nq <= u32::MAX,
            r@.len() == j,
            forall|i: int|
                0 <= i < j ==> (#[trigger] r@[i])@ == turn_row(
                    prefix_end as int,
                    kept_start as int,
                    p + i + 1,
                ),
        decreases nq - j,
    {
        let end: u32 = p + j + 1;
        if kept_start <= prefix_end {
            r.push(make_prefix_row(end));
        } else {
            r.push(make_gap_row(prefix_end, kept_start - prefix_end, end - kept_start));
        }
        j += 1;
    }
    proof {
        assert(rows_view(r@) =~= Seq::new(
            nq as nat,
            |j: int| turn_row(prefix_end as int, kept_start as int, p + j + 1),
        ));
    }
    r
}

/// A turn row hides exactly the dropped middle.
pub proof fn law_a_turn_row_hides_the_dropped_middle(
    prefix_end: u32,
    kept_start: u32,
    end: u32,
    slot: int,
)
    requires
        kept_start <= end,
        0 <= slot,
    ensures
        shows(turn_row(prefix_end as int, kept_start as int, end as int), slot) <==> slot < end && !(
        prefix_end <= slot < kept_start),
{
    if kept_start <= prefix_end {
        lemma_prefix_row(end, slot);
    } else {
        lemma_gap_row(
            prefix_end,
            (kept_start - prefix_end) as u32,
            (end - kept_start) as u32,
            slot,
        );
    }
}

/// A probe of a replayed trajectory with what its arms are run on: the continuation
/// that is fed, the tokens it predicts, the masks of the masked arm and the compact
/// history of the rebuilt one.
pub struct ProbePlan {
    pub probe: Probe,
    pub cont: Vec<u32>,
    pub gold: Vec<u32>,
    pub masks: Vec<Vec<u32>>,
    pub compact: Vec<u32>,
}

/// A plan is that of the probe at turn `t`.
pub open spec fn plan_is(
    p: ProbePlan,
    ids: Seq<u32>,
    starts: Seq<u32>,
    t: u32,
    keep: u32,
    nq: u32,
) -> bool {
    let history = starts[t as int] as int;
    let kept = starts[t - keep] as int;
    &&& p.probe == (Probe {
        turn: t,
        history: history as u32,
        kept_start: kept as u32,
        dropped: (kept - starts[0]) as u32,
    })
    &&& p.cont@ == ids.subrange(history, history + nq)
    &&& p.gold@ == ids.subrange(history + 1, history + nq + 1)
    &&& rows_view(p.masks@) == Seq::new(
        nq as nat,
        |j: int| turn_row(starts[0] as int, kept, history + j + 1),
    )
    &&& p.compact@ == compacted(ids, starts[0] as int, kept, history)
}

proof fn lemma_candidates(
    starts: Seq<u32>,
    n: int,
    keep: u32,
    nq: u32,
    limit: u32,
    len: int,
    k: int,
)
    requires
        n <= starts.len() <= u32::MAX,
        0 <= k < candidates(starts, n, keep, nq, limit, len).len(),
    ensures
        ({
            let t = candidates(starts, n, keep, nq, limit, len)[k];
            t < n && probeable(starts, t as int, keep, nq, limit, len)
        }),
    decreases n,
{
    if n > 0 {
        let before = candidates(starts, n - 1, keep, nq, limit, len);
        if k < before.len() {
            lemma_candidates(starts, n - 1, keep, nq, limit, len, k);
        }
    }
}

/// The turn of probe number `i`, of the candidates `c`.
pub open spec fn probed(c: Seq<u32>, i: int) -> u32 {
    c[i * probe_stride(c.len() as int)]
}

/// The task prefix ends before the kept turns of every probe begin, and these begin
/// before its history ends.
pub open spec fn probes_in_order(starts: Seq<u32>, keep: u32, nq: u32, limit: u32, len: int) -> bool {
    let c = candidates(starts, starts.len() as int, keep, nq, limit, len);
    let s = probe_stride(c.len() as int);
    forall|i: int|
        0 <= i < (c.len() + s - 1) / s ==> starts[0] <= starts[#[trigger] probed(c, i) - keep]
            <= starts[probed(c, i) as int]
}

/// Plans the replay of a trajectory: its token stream, and where each of its turns
/// starts. What is probed has its turns in order.
pub fn replay_plan(ids: &[u32], starts: &[u32], keep: u32, nq: u32, limit: u32) -> (r: Result<
    Vec<ProbePlan>,
    PlanError,
>)
    requires
        starts@.len() <= u32::MAX,
        ids@.len() <= u32::MAX,
        starts@.len() >= keep + 2 ==> probes_in_order(starts@, keep, nq, limit, ids@.len() as int),
    ensures
        ({
            let c = candidates(
                starts@,
                starts@.len() as int,
                keep,
                nq,
                limit,
                ids@.len() as int,
            );
            let s = probe_stride(c.len() as int);
            match r {
                Err(e) => if starts@.len() < keep + 2 {
                    e == PlanError::TooFewTurns
                } else {
                    e == PlanError::NothingOverflows && c.len() == 0
                },
                Ok(p) => {
                    &&& starts@.len() >= keep + 2
                    &&& c.len() > 0
                    &&& p@.len() == (c.len() + s - 1) / s
                    &&& forall|i: int|
                        0 <= i < p@.len() ==> plan_is(
                            #[trigger] p@[i],
                            ids@,
                            starts@,
                            c[i * s],
                            keep,
                            nq,
                        )
                },
            }
        }),
{
    let probes = match probe_turns(starts, keep, nq, limit, ids.len()) {
        Ok(p) => p,
        Err(e) => {
            return Err(e);
        },
    };
    let ghost c = candidates(starts@, starts@.len() as int, keep, nq, limit, ids@.len() as int);
    let ghost s = probe_stride(c.len() as int);
    let mut out: Vec<ProbePlan> = Vec::new();
    let mut i: usize = 0;
    while i < probes.len()
        invariant
            i <= probes@.len(),
            starts@.len() <= u32::MAX,
            ids@.len() <= u32::MAX,
            starts@.len() >= keep + 2,
            c.len() > 0,
            c == candidates(starts@, starts@.len() as int, keep, nq, limit, ids@.len() as int),
            s == probe_stride(c.len() as int),
            probes@.len() == (c.len() + s - 1) / s,
            probes_in_order(starts@, keep, nq, limit, ids@.len() as int),
            forall|i: int| 0 <= i < probes@.len() ==> #[trigger] probes@[i] == c[i * s],
            out@.len() == i,
            forall|j: int|
                0 <= j < i ==> plan_is(#[trigger] out@[j], ids@, starts@, c[j * s], keep, nq),
        decreases probes.len() - i,
    {
        let t = probes[i];
        proof {
            lemma_stride_within(c.len() as int, i as int);
            assert(t == c[i * s]);
            lemma_candidates(
                starts@,
                starts@.len() as int,
                keep,
                nq,
                limit,
                ids@.len() as int,
                i * s,
            );
            assert(probed(c, i as int) == t);
        }
        let probe = probe_at(starts, t, keep);
        let history = probe.history as usize;
        let plan = ProbePlan {
            probe,
            cont: copy_range(ids, history, nq as usize),
            gold: copy_range(ids, history + 1, nq as usize),
            masks: turn_masks(starts[0], probe.kept_start, probe.history, nq),
            compact: compact_context(
                ids,
                starts[0] as usize,
                probe.kept_start as usize,
                history,
            ),
        };
        proof {
            assert(plan_is(plan, ids@, starts@, c[i * s], keep, nq));
        }
        out.push(plan);
        i += 1;
    }
    Ok(out)
}

proof fn lemma_stride_within(n: int, i: int)
    requires
        n > 0,
        0 <= i < (n + probe_stride(n) - 1) / probe_stride(n),
    ensures
        0 <= i * probe_stride(n) < n,
{
    let s = probe_stride(n);
    assert(s >= 1);
    let q = (n + s - 1) / s;
    assert(q * s <= n + s - 1) by (nonlinear_arith)
        requires
            q == (n + s - 1) / s,
            s >= 1,
            n > 0,
    ;
    assert(i * s <= (q - 1) * s) by (nonlinear_arith)
        requires
            0 <= i <= q - 1,
            s >= 1,
    ;
    assert((q - 1) * s == q * s - s) by (nonlinear_arith);
    assert(0 <= i * s) by (nonlinear_arith)
        requires
            0 <= i,
            s >= 1,
    ;
}

/// What a request is measured by: a replayed trajectory, the prediction behind a
/// condensed history, the prediction inside a window, or the compounding schedule.
#[derive(Clone, Copy, Debug, PartialEq, Eq, Structural)]
pub enum Mode {
    Replay,
    Future,
    Window,
    Schedule,
}

/// What a request is measured by: tokens with turns, tokens with a history, tokens
/// alone, or nothing.
pub fn pick_mode(tokens: usize, turns: usize, history_len: u32) -> (r: Mode)
    ensures
        r == (if tokens == 0 {
            Mode::Schedule
        } else if turns > 0 {
            Mode::Replay
        } else if history_len > 0 {
            Mode::Future
        } else {
            Mode::Window
        }),
{
    if tokens == 0 {
        Mode::Schedule
    } else if turns > 0 {
        Mode::Replay
    } else if history_len > 0 {
        Mode::Future
    } else {
        Mode::Window
    }
}

// ---------------------------------------------------------------------------
// The compounding schedule
// ---------------------------------------------------------------------------

/// One path of the schedule: every token it has seen, the recent span it
/// attends to, and how often it condensed.
#[derive(Clone, Copy, Debug, PartialEq, Eq, Structural)]
pub struct Path {
    pub logical: u32,
    pub window: u32,
    pub condensations: u32,
}

/// What a run is scheduled by.
#[derive(Clone, Copy, Debug, PartialEq, Eq, Structural)]
pub struct Schedule {
    pub turn_tokens: u32,
    pub decode_per_turn: u32,
    pub context_limit: u32,
    pub sink: u32,
    pub keep: u32,
}

/// A path behind one more turn: its tokens are seen and attended, and where
/// the attended span passes the limit it shrinks to `keep`.
pub open spec fn after_turn(p: Path, s: Schedule) -> Path {
    let seen = p.window + s.turn_tokens + s.decode_per_turn;
    let condenses = s.sink + seen > s.context_limit;
    Path {
        logical: (p.logical + s.turn_tokens + s.decode_per_turn) as u32,
        window: if condenses {
            s.keep
        } else {
            seen as u32
        },
        condensations: if condenses {
            (p.condensations + 1) as u32
        } else {
            p.condensations
        },
    }
}

impl Path {
    /// A path that has seen nothing.
    pub fn start() -> (r: Path)
        ensures
            r == (Path { logical: 0, window: 0, condensations: 0 }),
    {
        Path { logical: 0, window: 0, condensations: 0 }
    }

    /// The recent span that decode number `k` of a turn attends to: what was attended
    /// before the turn, its tokens, and those decoded so far.
    pub fn decode_window(&self, s: &Schedule, k: u32) -> (r: u32)
        requires
            self.window + s.turn_tokens + k <= u32::MAX,
        ensures
            r == self.window + s.turn_tokens + k,
    {
        self.window + s.turn_tokens + k
    }

    /// Ends a turn; answers whether it condensed.
    pub fn end_turn(&mut self, s: &Schedule) -> (condensed: bool)
        requires
            old(self).logical + s.turn_tokens + s.decode_per_turn <= u32::MAX,
            old(self).window + s.turn_tokens + s.decode_per_turn <= u32::MAX,
            old(self).condensations < u32::MAX,
        ensures
            *final(self) == after_turn(*old(self), *s),
            condensed == (s.sink + old(self).window + s.turn_tokens + s.decode_per_turn
                > s.context_limit),
    {
        self.logical = self.logical + s.turn_tokens + s.decode_per_turn;
        self.window = self.window + s.turn_tokens + s.decode_per_turn;
        if s.sink as u64 + self.window as u64 > s.context_limit as u64 {
            self.condensations = self.condensations + 1;
            self.window = s.keep;
            true
        } else {
            false
        }
    }
}

/// A path behind `n` turns.
pub open spec fn after_turns(p: Path, s: Schedule, n: nat) -> Path
    decreases n,
{
    if n == 0 {
        p
    } else {
        after_turn(after_turns(p, s, (n - 1) as nat), s)
    }
}

/// Masking and rebuilding keep the same attended span and condense at the same
/// turns: the two paths start alike, and where they agree before a turn they
/// agree behind it, whatever else they hold.
pub proof fn law_both_paths_condense_together(mask: Path, rebuild: Path, s: Schedule, n: nat)
    requires
        mask.window == rebuild.window,
        mask.condensations == rebuild.condensations,
    ensures
        after_turns(mask, s, n).window == after_turns(rebuild, s, n).window,
        after_turns(mask, s, n).condensations == after_turns(rebuild, s, n).condensations,
    decreases n,
{
    if n > 0 {
        law_both_paths_condense_together(mask, rebuild, s, (n - 1) as nat);
    }
}

/// The tokens a rebuilt context starts with: the sink, then the last `keep`
/// tokens before `pos`.
pub fn rebuilt_tokens(sink: u32, keep: u32, pos: u32) -> (r: Vec<u32>)
    requires
        keep <= pos,
    ensures
        r@.len() == sink + keep,
        forall|i: int| 0 <= i < sink ==> #[trigger] r@[i] == 1000 + i % 30000,
        forall|i: int|
            sink <= i < sink + keep ==> #[trigger] r@[i] == 1000 + (pos - keep + i - sink) % 30000,
{
    let mut r: Vec<u32> = Vec::new();
    let mut i: u32 = 0;
    while i < sink
        invariant
            i <= sink,
            r@.len() == i,
            forall|j: int| 0 <= j < i ==> #[trigger] r@[j] == 1000 + j % 30000,
        decreases sink - i,
    {
        r.push(tok(i));
        i += 1;
    }
    let mut k: u32 = 0;
    while k < keep
        invariant
            k <= keep <= pos,
            r@.len() == sink + k,
            forall|j: int| 0 <= j < sink ==> #[trigger] r@[j] == 1000 + j % 30000,
            forall|j: int|
                sink <= j < sink + k ==> #[trigger] r@[j] == 1000 + (pos - keep + j - sink) % 30000,
        decreases keep - k,
    {
        r.push(tok(pos - keep + k));
        k += 1;
    }
    r
}

/// How many of the first `n` positions of `a` and `b` agree.
pub open spec fn agreements(a: Seq<u32>, b: Seq<u32>, n: int) -> nat
    decreases n,
{
    if n <= 0 {
        0
    } else {
        agreements(a, b, n - 1) + (if a[n - 1] == b[n - 1] {
            1nat
        } else {
            0nat
        })
    }
}

/// How many decoded tokens of two paths agree, and of how many.
pub fn coherence(mask: &[u32], rebuild: &[u32]) -> (r: (usize, usize))
    ensures
        r.1 == if mask@.len() < rebuild@.len() {
            mask@.len()
        } else {
            rebuild@.len()
        },
        r.0 == agreements(mask@, rebuild@, r.1 as int),
{
    let n: usize = if mask.len() < rebuild.len() {
        mask.len()
    } else {
        rebuild.len()
    };
    let mut same: usize = 0;
    let mut i: usize = 0;
    while i < n
        invariant
            i <= n,
            n <= mask@.len(),
            n <= rebuild@.len(),
            same <= i,
            same == agreements(mask@, rebuild@, i as int),
        decreases n - i,
    {
        if mask[i] == rebuild[i] {
            same += 1;
        }
        i += 1;
    }
    (same, n)
}

proof fn lemma_candidates_are(
    starts: Seq<u32>,
    n: int,
    keep: u32,
    nq: u32,
    limit: u32,
    len: int,
)
    requires
        0 <= n <= starts.len() <= u32::MAX,
    ensures
        ({
            let c = candidates(starts, n, keep, nq, limit, len);
            &&& forall|t: int|
                0 <= t < n && #[trigger] probeable(starts, t, keep, nq, limit, len) ==> c.contains(
                    t as u32,
                )
            &&& forall|i: int|
                0 <= i < c.len() ==> (#[trigger] c[i]) < n && probeable(
                    starts,
                    c[i] as int,
                    keep,
                    nq,
                    limit,
                    len,
                )
            &&& forall|i: int, j: int| 0 <= i < j < c.len() ==> c[i] < c[j]
            &&& c.len() <= n
        }),
    decreases n,
{
    if n > 0 {
        lemma_candidates_are(starts, n - 1, keep, nq, limit, len);
        let before = candidates(starts, n - 1, keep, nq, limit, len);
        let c = candidates(starts, n, keep, nq, limit, len);
        assert forall|t: int|
            0 <= t < n && #[trigger] probeable(starts, t, keep, nq, limit, len) implies c.contains(
            t as u32,
        ) by {
            if t < n - 1 {
                let i = choose|i: int| 0 <= i < before.len() && before[i] == t as u32;
                assert(c[i] == t as u32);
            } else {
                assert(c[c.len() - 1] == t as u32);
            }
        }
    }
}

/// The probed turns are among those whose history passes the limit, is no longer
/// than can be probed, has a turn to drop and is recorded far enough on: every such
/// turn is a candidate, in order, and at most sixteen are probed, evenly apart.
pub proof fn law_probes_are_spread_over_the_candidates(
    starts: Seq<u32>,
    keep: u32,
    nq: u32,
    limit: u32,
    len: int,
    t: int,
    i: int,
)
    requires
        starts.len() <= u32::MAX,
        0 <= t < starts.len(),
    ensures
        ({
            let c = candidates(starts, starts.len() as int, keep, nq, limit, len);
            let s = probe_stride(c.len() as int);
            &&& c.contains(t as u32) <==> limit < starts[t] && starts[t] <= 60000 && keep < t && starts[t]
                + nq < len
            &&& forall|a: int, b: int| 0 <= a < b < c.len() ==> c[a] < c[b]
            &&& c.len() > 0 ==> s > 0 && 16 * s >= c.len() && 16 * (s - 1) < c.len()
            &&& 0 <= i && i * s < c.len() ==> probed(c, i) == c[i * s]
        }),
{
    lemma_candidates_are(starts, starts.len() as int, keep, nq, limit, len);
    let c = candidates(starts, starts.len() as int, keep, nq, limit, len);
    assert(probeable(starts, t, keep, nq, limit, len) <==> limit < starts[t] && starts[t] <= 60000 && keep
        < t && starts[t] + nq < len);
    if c.contains(t as u32) {
        let k = choose|k: int| 0 <= k < c.len() && c[k] == t as u32;
        assert(c[k] < starts.len());
        assert(probeable(starts, c[k] as int, keep, nq, limit, len));
    }
}

/// A probe asks for the tokens behind its history one at a time: what is to be
/// predicted is what is fed, one place on. Its compact context is the task prefix
/// and the kept turns, and its masks show these and what was fed.
pub proof fn law_a_probe_predicts_what_it_is_fed(
    p: ProbePlan,
    ids: Seq<u32>,
    starts: Seq<u32>,
    t: u32,
    keep: u32,
    nq: u32,
    j: int,
    slot: int,
)
    requires
        plan_is(p, ids, starts, t, keep, nq),
        keep <= t < starts.len(),
        starts[t as int] + nq + 1 <= ids.len(),
        starts[0] <= starts[t - keep] <= starts[t as int],
        starts[t as int] + nq + 1 <= u32::MAX,
        0 <= j < nq,
        0 <= slot,
    ensures
        p.cont@[j] == ids[starts[t as int] + j],
        p.gold@[j] == ids[starts[t as int] + j + 1],
        j + 1 < nq ==> p.gold@[j] == p.cont@[j + 1],
        p.probe.turn == t && p.probe.history == starts[t as int] && p.probe.kept_start == starts[t
            - keep],
        p.probe.dropped + starts[0] == p.probe.kept_start,
        p.compact@.len() + p.probe.dropped == p.probe.history,
        p.compact@.take(starts[0] as int) == ids.take(starts[0] as int),
        p.compact@.skip(starts[0] as int) == ids.subrange(
            starts[t - keep] as int,
            starts[t as int] as int,
        ),
        shows(rows_view(p.masks@)[j], slot) <==> slot <= starts[t as int] + j && !(starts[0] <= slot
            < starts[t - keep]),
{
    let history = starts[t as int];
    let kept = starts[t - keep];
    assert(p.compact@.take(starts[0] as int) =~= ids.take(starts[0] as int));
    assert(p.compact@.skip(starts[0] as int) =~= ids.subrange(kept as int, history as int));
    law_a_turn_row_hides_the_dropped_middle(starts[0], kept, (history + j + 1) as u32, slot);
}

/// A turn is seen and attended whole; where sink and window then pass the limit the
/// window shrinks to what is kept and one condensation is counted, and otherwise
/// the window has grown by the turn and nothing is counted.
pub proof fn law_a_turn_condenses_past_the_limit(p: Path, s: Schedule)
    requires
        p.logical + s.turn_tokens + s.decode_per_turn <= u32::MAX,
        p.window + s.turn_tokens + s.decode_per_turn <= u32::MAX,
        p.condensations < u32::MAX,
    ensures
        ({
            let q = after_turn(p, s);
            let grown = p.window + s.turn_tokens + s.decode_per_turn;
            &&& q.logical == p.logical + s.turn_tokens + s.decode_per_turn
            &&& q.condensations == p.condensations + 1 <==> grown + s.sink > s.context_limit
            &&& q.condensations == p.condensations <==> grown + s.sink <= s.context_limit
            &&& q.condensations == p.condensations ==> q.window == grown
            &&& q.condensations != p.condensations ==> q.window == s.keep
            &&& s.keep + s.sink <= s.context_limit ==> q.window + s.sink <= s.context_limit
        }),
        after_turns(p, s, 0) == p,
        after_turns(p, s, 1) == after_turn(p, s),
{
    reveal_with_fuel(after_turns, 2);
}

/// Agreements are counted one by one: as many as there are where two rows are the
/// same, and none where they differ everywhere.
pub proof fn law_agreements_are_counted(a: Seq<u32>, b: Seq<u32>, n: int)
    requires
        0 <= n <= a.len(),
        n <= b.len(),
    ensures
        agreements(a, b, n) <= n,
        (forall|i: int| 0 <= i < n ==> a[i] == b[i]) <==> agreements(a, b, n) == n,
        (forall|i: int| 0 <= i < n ==> a[i] != b[i]) <==> agreements(a, b, n) == 0,
        n < a.len() && n < b.len() ==> agreements(a, b, n + 1) == agreements(a, b, n) + (if a[n]
            == b[n] {
            1nat
        } else {
            0
        }),
    decreases n,
{
    if n > 0 {
        law_agreements_are_counted(a, b, n - 1);
    }
}

/// A pass behind a condensed context shows each query the sink, the window behind
/// what was there and the new tokens up to its own; over a whole prefix the window
/// slides with the query.
pub proof fn law_masks_show_sink_window_and_self(
    logical: u32,
    n: nat,
    sink: u32,
    window: u32,
    j: int,
    slot: int,
)
    requires
        0 <= j < n,
        logical + n <= u32::MAX,
        window + n <= u32::MAX,
        0 <= slot,
    ensures
        shows(prefill_masks(logical as int, n, sink as int, window as int)[j], slot) <==> slot <= logical
            + j && (slot < sink || slot >= logical - window),
        shows(sliding_masks(n, sink as int, window as int)[j], slot) <==> slot <= j && (slot < sink
            || slot > j - window),
{
    law_the_mask_keeps_sink_and_window(
        (logical + j + 1) as u32,
        sink,
        (window + j + 1) as u32,
        slot,
    );
    law_the_mask_keeps_sink_and_window((j + 1) as u32, sink, window, slot);
}

} // verus!
