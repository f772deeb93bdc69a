//! Opt-in context editing: which retained spans a request stops attending to.
//!
//! Nothing is masked unless the request asks for it, and only tool output ever
//! is: the system turn is the model's contract and a user turn is its task.

use vstd::prelude::*;

verus! {

/// What a rendered span is.
#[derive(Clone, Copy, Debug, PartialEq, Eq, Structural)]
pub enum SpanKind {
    /// The system turn with the tool schemas.
    System,
    User,
    Assistant,
    /// A merged batch of tool results.
    ToolOutput,
    /// The generation cue.
    Cue,
}

/// One rendered span, `[start, end)` in tokens.
#[derive(Clone, Copy, Debug, PartialEq, Eq, Structural)]
pub struct Span {
    pub kind: SpanKind,
    pub start: u32,
    pub end: u32,
}

/// The per-request opt-in.
#[derive(Clone, Copy, Debug, PartialEq, Eq, Structural)]
pub struct ContextPolicy {
    /// Keep the newest so many tool outputs attended; absent, none is masked.
    pub keep_recent_tool_outputs: Option<u32>,
    /// Never mask a shorter span.
    pub min_span_tokens: Option<u32>,
}

impl Default for ContextPolicy {
    fn default() -> (r: Self)
        ensures
            r.keep_recent_tool_outputs is None,
            r.min_span_tokens is None,
    {
        ContextPolicy { keep_recent_tool_outputs: None, min_span_tokens: None }
    }
}

impl ContextPolicy {
    /// Whether the policy masks nothing.
    pub fn is_noop(&self) -> (r: bool)
        ensures
            r == (self.keep_recent_tool_outputs is None),
    {
        self.keep_recent_tool_outputs.is_none()
    }
}

/// A span that may be masked: tool output that is retained whole.
pub open spec fn maskable(s: Span, retained_len: u32) -> bool {
    s.kind == SpanKind::ToolOutput && s.end <= retained_len
}

/// The maskable spans, in order.
pub open spec fn tool_spans(spans: Seq<Span>, retained_len: u32) -> Seq<Span> {
    spans.filter(|s: Span| maskable(s, retained_len))
}

/// The tokens of a span, none where it is turned round.
pub open spec fn span_len(s: Span) -> int {
    if s.end >= s.start {
        s.end - s.start
    } else {
        0
    }
}

/// The ranges of the spans that are long enough, in order.
pub open spec fn long_ranges(spans: Seq<Span>, floor: u32) -> Seq<(u32, u32)>
    decreases spans.len(),
{
    if spans.len() == 0 {
        Seq::empty()
    } else if span_len(spans.last()) >= floor {
        long_ranges(spans.drop_last(), floor).push((spans.last().start, spans.last().end))
    } else {
        long_ranges(spans.drop_last(), floor)
    }
}

/// The ranges a policy masks: of the maskable spans all but the newest `keep`,
/// those that are long enough.
pub open spec fn masked(spans: Seq<Span>, policy: ContextPolicy, retained_len: u32) -> Seq<
    (u32, u32),
> {
    match policy.keep_recent_tool_outputs {
        None => Seq::empty(),
        Some(keep) => {
            let tool = tool_spans(spans, retained_len);
            let n = if tool.len() >= keep {
                tool.len() - keep
            } else {
                0
            };
            long_ranges(
                tool.take(n),
                match policy.min_span_tokens {
                    Some(f) => f,
                    None => 0,
                },
            )
        },
    }
}

/// The token ranges to stop attending to, in order.
pub fn spans_to_mask(spans: &[Span], policy: &ContextPolicy, retained_len: u32) -> (r: Vec<
    (u32, u32),
>)
    ensures
        r@ == masked(spans@, *policy, retained_len),
{
    let keep = match policy.keep_recent_tool_outputs {
        Some(k) => k,
        None => {
            return Vec::new();
        },
    };
    let floor = match policy.min_span_tokens {
        Some(f) => f,
        None => 0,
    };
    let mut tool: Vec<Span> = Vec::new();
    let mut i: usize = 0;
    proof {
        reveal(Seq::filter);
        assert(spans@.take(0) =~= Seq::<Span>::empty());
    }
    while i < spans.len()
        invariant
            i <= spans@.len(),
            tool@ == tool_spans(spans@.take(i as int), retained_len),
        decreases spans.len() - i,
    {
        proof {
            reveal(Seq::filter);
            assert(spans@.take(i + 1).drop_last() =~= spans@.take(i as int));
        }
        let s = spans[i];
        if s.kind == SpanKind::ToolOutput && s.end <= retained_len {
            tool.push(s);
        }
        i += 1;
    }
    proof {
        assert(spans@.take(i as int) =~= spans@);
    }
    let n: usize = tool.len().saturating_sub(keep as usize);
    let mut out: Vec<(u32, u32)> = Vec::new();
    let mut k: usize = 0;
    proof {
        assert(tool@.take(0) =~= Seq::<Span>::empty());
    }
    while k < n
        invariant
            k <= n <= tool@.len(),
            out@ == long_ranges(tool@.take(k as int), floor),
        decreases n - k,
    {
        proof {
            assert(tool@.take(k + 1).drop_last() =~= tool@.take(k as int));
        }
        let s = tool[k];
        if s.end.saturating_sub(s.start) >= floor {
            out.push((s.start, s.end));
        }
        k += 1;
    }
    out
}

proof fn lemma_long_ranges(spans: Seq<Span>, floor: u32, i: int)
    requires
        0 <= i < long_ranges(spans, floor).len(),
    ensures
        exists|j: int|
            0 <= j < spans.len() && long_ranges(spans, floor)[i] == (
                (#[trigger] spans[j]).start,
                spans[j].end,
            ) && span_len(spans[j]) >= floor,
    decreases spans.len(),
{
    let s = spans.drop_last();
    let r = long_ranges(s, floor);
    if i < r.len() {
        lemma_long_ranges(s, floor, i);
        let j = choose|j: int|
            0 <= j < s.len() && r[i] == ((#[trigger] s[j]).start, s[j].end) && span_len(s[j])
                >= floor;
        assert(spans[j] == s[j]);
    } else {
        assert(spans[spans.len() - 1] == spans.last());
    }
}

/// Only tool output that is retained whole is ever masked, and never a span
/// shorter than the floor.
pub proof fn law_only_tool_output_is_masked(
    spans: Seq<Span>,
    policy: ContextPolicy,
    retained_len: u32,
    i: int,
)
    requires
        0 <= i < masked(spans, policy, retained_len).len(),
    ensures
        exists|j: int|
            0 <= j < spans.len() && #[trigger] maskable(spans[j], retained_len) && masked(
                spans,
                policy,
                retained_len,
            )[i] == (spans[j].start, spans[j].end) && (policy.min_span_tokens matches Some(f)
                ==> span_len(spans[j]) >= f),
{
    let keep = policy.keep_recent_tool_outputs->0;
    let tool = tool_spans(spans, retained_len);
    let n = if tool.len() >= keep {
        tool.len() - keep
    } else {
        0
    };
    let floor = match policy.min_span_tokens {
        Some(f) => f,
        None => 0,
    };
    let kept = tool.take(n);
    lemma_long_ranges(kept, floor, i);
    let j = choose|j: int|
        0 <= j < kept.len() && long_ranges(kept, floor)[i] == (
            (#[trigger] kept[j]).start,
            kept[j].end,
        ) && span_len(kept[j]) >= floor;
    let s = kept[j];
    assert(tool[j] == s);
    assert(tool.contains(s));
    spans.lemma_filter_contains_rev(|s: Span| maskable(s, retained_len), s);
    spans.lemma_filter_pred(|s: Span| maskable(s, retained_len), j);
    let k = choose|k: int| 0 <= k < spans.len() && spans[k] == s;
    assert(maskable(spans[k], retained_len));
}

/// Without a rule nothing is masked, and a rule that keeps as many tool outputs
/// as there are masks nothing either.
pub proof fn law_nothing_is_masked_unasked(
    spans: Seq<Span>,
    policy: ContextPolicy,
    retained_len: u32,
)
    requires
        policy.keep_recent_tool_outputs matches Some(k) ==> tool_spans(spans, retained_len).len()
            <= k,
    ensures
        masked(spans, policy, retained_len).len() == 0,
{
    if policy.keep_recent_tool_outputs is Some {
        assert(tool_spans(spans, retained_len).take(0) =~= Seq::<Span>::empty());
    }
}

proof fn lemma_filter_around(a: Seq<Span>, x: Span, b: Seq<Span>, retained_len: u32)
    ensures
        tool_spans(a + seq![x] + b, retained_len) == tool_spans(a, retained_len) + (if maskable(
            x,
            retained_len,
        ) {
            seq![x]
        } else {
            Seq::empty()
        }) + tool_spans(b, retained_len),
{
    let p = |s: Span| maskable(s, retained_len);
    Seq::<Span>::filter_distributes_over_add(a + seq![x], b, p);
    Seq::<Span>::filter_distributes_over_add(a, seq![x], p);
    reveal_with_fuel(Seq::filter, 2);
    assert(seq![x].drop_last() =~= Seq::<Span>::empty());
    let f = seq![x].filter(p);
    if p(x) {
        assert(f =~= seq![x]);
    } else {
        assert(f =~= Seq::<Span>::empty());
    }
}

proof fn lemma_long_range_is_kept(spans: Seq<Span>, floor: u32, i: int)
    requires
        0 <= i < spans.len(),
        span_len(spans[i]) >= floor,
    ensures
        long_ranges(spans, floor).contains((spans[i].start, spans[i].end)),
    decreases spans.len(),
{
    let s = spans.drop_last();
    let r = long_ranges(s, floor);
    let pair = (spans[i].start, spans[i].end);
    if i < s.len() {
        lemma_long_range_is_kept(s, floor, i);
        let j = choose|j: int| 0 <= j < r.len() && r[j] == pair;
        assert(long_ranges(spans, floor)[j] == pair);
    } else {
        assert(long_ranges(spans, floor).last() == pair);
        assert(long_ranges(spans, floor)[r.len() as int] == pair);
    }
}

/// Every tool output is masked that is retained whole, long enough, and older
/// than the newest ones that are kept.
pub proof fn law_old_tool_output_is_masked(
    before: Seq<Span>,
    s: Span,
    behind: Seq<Span>,
    policy: ContextPolicy,
    retained_len: u32,
)
    requires
        policy.keep_recent_tool_outputs is Some,
        s.kind == SpanKind::ToolOutput,
        s.start <= s.end <= retained_len,
        policy.min_span_tokens matches Some(f) ==> s.end - s.start >= f,
        tool_spans(behind, retained_len).len() >= policy.keep_recent_tool_outputs->0,
    ensures
        masked(before + seq![s] + behind, policy, retained_len).contains((s.start, s.end)),
{
    lemma_filter_around(before, s, behind, retained_len);
    let keep = policy.keep_recent_tool_outputs->0;
    let tool = tool_spans(before + seq![s] + behind, retained_len);
    let i = tool_spans(before, retained_len).len() as int;
    assert(tool[i] == s);
    let n = tool.len() - keep;
    assert(i < n);
    assert(tool.take(n)[i] == s);
    lemma_long_range_is_kept(
        tool.take(n),
        match policy.min_span_tokens {
            Some(f) => f,
            None => 0,
        },
        i,
    );
}

/// The newest tool outputs that are kept are not masked: each masked range is one
/// of a tool output with as many newer ones as are kept.
pub proof fn law_recent_tool_output_is_kept(
    spans: Seq<Span>,
    policy: ContextPolicy,
    retained_len: u32,
    i: int,
)
    requires
        0 <= i < masked(spans, policy, retained_len).len(),
    ensures
        policy.keep_recent_tool_outputs is Some,
        ({
            let tool = tool_spans(spans, retained_len);
            exists|j: int|
                0 <= j < tool.len() - policy.keep_recent_tool_outputs->0 && masked(
                    spans,
                    policy,
                    retained_len,
                )[i] == ((#[trigger] tool[j]).start, tool[j].end)
        }),
{
    let keep = policy.keep_recent_tool_outputs->0;
    let tool = tool_spans(spans, retained_len);
    let n = if tool.len() >= keep {
        tool.len() - keep
    } else {
        0
    };
    let f = match policy.min_span_tokens {
        Some(f) => f,
        None => 0,
    };
    lemma_long_ranges(tool.take(n), f, i);
    let j = choose|j: int|
        0 <= j < tool.take(n).len() && long_ranges(tool.take(n), f)[i] == (
            (#[trigger] tool.take(n)[j]).start,
            tool.take(n)[j].end,
        ) && span_len(tool.take(n)[j]) >= f;
    assert(tool[j] == tool.take(n)[j]);
}

} // verus!
