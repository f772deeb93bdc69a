//! The plan of one generation: whether a resume is sound, how large the page
//! pool is, which cells the prefill chunks and the decode steps write, and
//! which parked entry is retired afterwards.

use vstd::arithmetic::div_mod::{lemma_fundamental_div_mod, lemma_mod_multiples_basic};
use vstd::prelude::*;
use vstd::string::*;

use crate::chat::apc::Resume;
use crate::text::same;

verus! {

/// The pool never has fewer pages.
pub const POOL_FLOOR_PAGES: u32 = 8;

/// The step of the pool size where a power of two would take the admission
/// headroom.
pub const FINE_STEP_PAGES: u32 = 128;

// ---------------------------------------------------------------------------
// Whether to run
// ---------------------------------------------------------------------------

/// What a model's forward pass binds.
#[derive(Clone, Copy, Debug, PartialEq, Eq, Structural)]
pub enum ForwardKind {
    Attention,
    Hybrid,
    Recurrent,
}

/// How a generation begins.
#[derive(Clone, Copy, Debug, PartialEq, Eq, Structural)]
pub enum Begin {
    /// No token is wanted.
    Nothing,
    /// Prefill and decode, with a folded state beside the pages or without.
    Run { folded: bool },
    /// The model has no pages to bind the prompt to.
    NoPages,
}

/// The error of a model without pages.
pub const NO_PAGES: &'static str =
    "this model is recurrent-only; the serving inferlet has no KV-free path";

/// How a generation begins.
pub fn begin(max_tokens: usize, kind: ForwardKind) -> (r: Begin)
    ensures
        r == (if max_tokens == 0 {
            Begin::Nothing
        } else {
            match kind {
                ForwardKind::Attention => Begin::Run { folded: false },
                ForwardKind::Hybrid => Begin::Run { folded: true },
                ForwardKind::Recurrent => Begin::NoPages,
            }
        }),
{
    if max_tokens == 0 {
        return Begin::Nothing;
    }
    match kind {
        ForwardKind::Attention => Begin::Run { folded: false },
        ForwardKind::Hybrid => Begin::Run { folded: true },
        ForwardKind::Recurrent => Begin::NoPages,
    }
}

/// The tokens to prefill: the prompt, or one padding token for an empty one.
pub fn prompt_or_pad(prompt: &[u32]) -> (r: Vec<u32>)
    ensures
        r@ == (if prompt@.len() == 0 {
            seq![0u32]
        } else {
            prompt@
        }),
{
    let mut r: Vec<u32> = Vec::new();
    if prompt.len() == 0 {
        r.push(0);
        proof {
            assert(r@ =~= seq![0u32]);
        }
        return r;
    }
    r.extend_from_slice(prompt);
    proof {
        assert(r@ =~= prompt@);
    }
    r
}

// ---------------------------------------------------------------------------
// Resuming
// ---------------------------------------------------------------------------

/// A resume is sound for a prompt of `n` tokens: something is left to write,
/// the prefix ends at a page edge, and the parked set is exactly the prefix.
pub open spec fn fits(cached: u32, n: u32, page: u32, have: u32) -> bool {
    cached < n && cached as int % page as int == 0 && have as int * page as int == cached
}

/// Where a generation starts.
pub struct Start {
    /// Prompt tokens served from parked pages.
    pub cached: u32,
    /// The entry the turn resumed from.
    pub resumed: Option<String>,
    /// An entry that fails its own geometry, to be removed: it would fail every
    /// later lookup too.
    pub dropped: Option<String>,
}

/// Where a generation starts. A resume that does not fit is dropped and the
/// prompt built whole: that is slow, a wrong prefix is silent.
pub fn start(resume: Option<Resume>, n: u32, page: u32, have: u32) -> (r: Start)
    requires
        page > 0,
    ensures
        match resume {
            Some(p) => if fits(p.cached_tokens, n, page, have) {
                r.cached == p.cached_tokens && r.resumed == Some(p.address) && r.dropped is None
            } else {
                r.cached == 0 && r.resumed is None && r.dropped == Some(p.address)
            },
            None => r.cached == 0 && r.resumed is None && r.dropped is None,
        },
{
    match resume {
        Some(p) => {
            let c = p.cached_tokens;
            proof {
                assert(c as int % page as int == 0 ==> (have as int == c as int / page as int <==> have
                    as int * page as int == c)) by (nonlinear_arith)
                    requires
                        page > 0,
                ;
            }
            if c < n && c % page == 0 && have == c / page {
                Start { cached: c, resumed: Some(p.address), dropped: None }
            } else {
                Start { cached: 0, resumed: None, dropped: Some(p.address) }
            }
        },
        None => Start { cached: 0, resumed: None, dropped: None },
    }
}

// ---------------------------------------------------------------------------
// The pool
// ---------------------------------------------------------------------------

/// `a` over `b`, rounded up.
pub open spec fn over(a: int, b: int) -> int {
    (a + b - 1) / b
}

/// The least power of two times `p` that is at least `n`.
pub open spec fn doubled(n: int, p: int) -> int
    decreases
            (if n > p {
                n - p
            } else {
                0
            }),
{
    if p >= n || p <= 0 {
        p
    } else {
        doubled(n, 2 * p)
    }
}

/// The pages that a turn needs: prompt, generation and two cells of margin.
pub open spec fn needed_pages(n: u32, max_tokens: usize, page: u32) -> int {
    let need = over(n as int + max_tokens as int + 2, page as int);
    if need < POOL_FLOOR_PAGES {
        POOL_FLOOR_PAGES as int
    } else {
        need
    }
}

/// The pages below the pressure limit: all but six hundredths of the pool.
pub open spec fn band(pool_total: u32) -> int {
    pool_total as int - pool_total as int / 100 * 6
}

/// The pool's pages. The size reaches the traced program as a shape, so it is
/// rounded to a power of two; where that would pass the pressure limit it is
/// rounded to a fine step below that limit. It is never below the need, nor below
/// what a resumed set already has.
pub open spec fn pool_size(n: u32, max_tokens: usize, page: u32, pool_total: u32, have: u32) -> int {
    let need = needed_pages(n, max_tokens, page);
    let power = doubled(need, 1);
    let rounded = if pool_total > 0 && power > band(pool_total) {
        let fine = over(need, FINE_STEP_PAGES as int) * FINE_STEP_PAGES;
        let capped = if fine < band(pool_total) {
            fine
        } else {
            band(pool_total)
        };
        if capped < need {
            need
        } else {
            capped
        }
    } else {
        power
    };
    if rounded < have {
        have as int
    } else {
        rounded
    }
}

/// `a` over `b`, rounded up.
pub fn ceil_div(a: u32, b: u32) -> (r: u32)
    requires
        b > 0,
    ensures
        r == over(a as int, b as int),
{
    let q = a / b;
    proof {
        assert(over(a as int, b as int) == (if a as int % b as int == 0 {
            a as int / b as int
        } else {
            a as int / b as int + 1
        })) by {
            lemma_over(a as int, b as int);
        }
        assert(a as int % b as int != 0 ==> a as int / b as int <= a - 1) by (nonlinear_arith)
            requires
                b > 0,
                a >= 0,
        ;
    }
    if a % b == 0 {
        q
    } else {
        q + 1
    }
}

proof fn lemma_over(a: int, b: int)
    requires
        b > 0,
        a >= 0,
    ensures
        over(a, b) == (if a % b == 0 {
            a / b
        } else {
            a / b + 1
        }),
        over(a, b) * b >= a,
        a > 0 ==> (over(a, b) - 1) * b < a,
        over(a, b) >= 0,
{
    let q = a / b;
    let m = a % b;
    vstd::arithmetic::div_mod::lemma_fundamental_div_mod(a, b);
    assert(q * b == b * q) by (nonlinear_arith);
    if m == 0 {
        assert((a + b - 1) / b == q) by (nonlinear_arith)
            requires
                a == b * q,
                b > 0,
        ;
        assert((q - 1) * b == q * b - b) by (nonlinear_arith);
    } else {
        assert((a + b - 1) / b == q + 1) by (nonlinear_arith)
            requires
                a == b * q + m,
                0 < m < b,
                b > 0,
        ;
        assert((q + 1) * b == q * b + b) by (nonlinear_arith);
        assert(q + 1 - 1 == q);
    }
    assert(q >= 0) by (nonlinear_arith)
        requires
            q == a / b,
            a >= 0,
            b > 0,
    ;
}

fn power_from(n: u32) -> (r: u32)
    requires
        0 < n <= 0x8000_0000,
    ensures
        r == doubled(n as int, 1),
        n <= r <= 0x8000_0000,
{
    let mut p: u32 = 1;
    proof {
        vstd::arithmetic::power2::lemma2_to64();
        assert(vstd::arithmetic::power2::pow2(0) == 1);
    }
    while p < n
        invariant
            0 < p <= 0x8000_0000,
            n <= 0x8000_0000,
            doubled(n as int, 1) == doubled(n as int, p as int),
            is_power(p as int),
        decreases 0x8000_0000 - p,
    {
        proof {
            lemma_power_doubles(p as int);
        }
        p = p * 2;
    }
    p
}

/// A power of two up to the largest that fits in 32 bits.
spec fn is_power(p: int) -> bool {
    exists|k: nat| k <= 31 && #[trigger] vstd::arithmetic::power2::pow2(k) == p
}

proof fn lemma_power_doubles(p: int)
    requires
        is_power(p),
        p < 0x8000_0000,
    ensures
        is_power(2 * p),
        2 * p <= 0x8000_0000,
{
    let k = choose|k: nat| k <= 31 && #[trigger] vstd::arithmetic::power2::pow2(k) == p;
    vstd::arithmetic::power2::lemma2_to64();
    if k == 31 {
        assert(vstd::arithmetic::power2::pow2(31) == 0x8000_0000);
    }
    vstd::arithmetic::power2::lemma_pow2_unfold(k + 1);
    assert(vstd::arithmetic::power2::pow2(k + 1) == 2 * p);
    if k < 31 {
        vstd::arithmetic::power2::lemma_pow2_strictly_increases(k, 31);
        if k + 1 < 31 {
            vstd::arithmetic::power2::lemma_pow2_strictly_increases(k + 1, 31);
        }
    }
}

/// The pool's pages.
pub fn pool_pages(n: u32, max_tokens: usize, page: u32, pool_total: u32, have: u32) -> (r: u32)
    requires
        page > 0,
        n + max_tokens + 2 <= u32::MAX,
        needed_pages(n, max_tokens, page) <= 0x8000_0000,
    ensures
        r == pool_size(n, max_tokens, page, pool_total, have),
{
    let raw = ceil_div(n + max_tokens as u32 + 2, page);
    let need: u32 = if raw < POOL_FLOOR_PAGES {
        POOL_FLOOR_PAGES
    } else {
        raw
    };
    let power = power_from(need);
    let limit = pool_total - pool_total / 100 * 6;
    let rounded: u32 = if pool_total > 0 && power > limit {
        let steps = ceil_div(need, FINE_STEP_PAGES);
        proof {
            lemma_over(need as int, FINE_STEP_PAGES as int);
        }
        let fine = steps * FINE_STEP_PAGES;
        let capped: u32 = if fine < limit {
            fine
        } else {
            limit
        };
        if capped < need {
            need
        } else {
            capped
        }
    } else {
        power
    };
    if rounded < have {
        have
    } else {
        rounded
    }
}

// ---------------------------------------------------------------------------
// Cells
// ---------------------------------------------------------------------------

/// The page ids of the pool: those a resumed set has, then the granted ones.
pub fn pool_ids(have: u32, granted: &[u32]) -> (r: Vec<u32>)
    ensures
        r@ == Seq::new(have as nat, |i: int| i as u32) + granted@,
{
    let mut r: Vec<u32> = Vec::new();
    let mut i: u32 = 0;
    while i < have
        invariant
            i <= have,
            r@ == Seq::new(i as nat, |k: int| k as u32),
        decreases have - i,
    {
        r.push(i);
        i += 1;
        proof {
            assert(r@ =~= Seq::new(i as nat, |k: int| k as u32));
        }
    }
    r.extend_from_slice(granted);
    proof {
        assert(r@ =~= Seq::new(have as nat, |i: int| i as u32) + granted@);
    }
    r
}

/// The cell of a token position: a page of the pool and an offset in it.
pub open spec fn cell(pool: Seq<u32>, page: u32, at: int) -> (u32, u32) {
    (pool[at / page as int], (at % page as int) as u32)
}

/// The geometry of one forward pass over the tokens from `base` up to `end`.
pub struct Geometry {
    /// The token positions.
    pub positions: Vec<u32>,
    /// The page that each position is written to.
    pub slots: Vec<u32>,
    /// The offset in its page.
    pub offsets: Vec<u32>,
    /// How many tokens are held after the pass.
    pub kv_len: u32,
    /// How many pages these take.
    pub pages: u32,
    /// The first page that the pass may write.
    pub writable_from: u32,
}

/// What a pass over the tokens from `base` up to `end` writes and reads.
pub open spec fn covers(g: Geometry, pool: Seq<u32>, page: u32, base: u32, end: u32) -> bool {
    &&& g.positions@ == Seq::new((end - base) as nat, |i: int| (base + i) as u32)
    &&& g.slots@ == Seq::new((end - base) as nat, |i: int| cell(pool, page, base + i).0)
    &&& g.offsets@ == Seq::new((end - base) as nat, |i: int| cell(pool, page, base + i).1)
    &&& g.kv_len == end
    &&& g.pages == over(end as int, page as int)
}

fn geometry(pool: &[u32], page: u32, base: u32, end: u32, writable_from: u32) -> (r: Geometry)
    requires
        page > 0,
        base <= end <= pool@.len() * page as nat,
    ensures
        covers(r, pool@, page, base, end),
        r.writable_from == writable_from,
{
    let mut positions: Vec<u32> = Vec::new();
    let mut slots: Vec<u32> = Vec::new();
    let mut offsets: Vec<u32> = Vec::new();
    let mut c: u32 = base;
    while c < end
        invariant
            page > 0,
            base <= c <= end <= pool@.len() * page as nat,
            positions@ == Seq::new((c - base) as nat, |i: int| (base + i) as u32),
            slots@ == Seq::new((c - base) as nat, |i: int| cell(pool@, page, base + i).0),
            offsets@ == Seq::new((c - base) as nat, |i: int| cell(pool@, page, base + i).1),
        decreases end - c,
    {
        proof {
            let n = pool@.len() as int;
            assert(c as int / (page as int) < n) by (nonlinear_arith)
                requires
                    page > 0,
                    (c as int) < n * (page as int),
                    c >= 0,
            ;
        }
        positions.push(c);
        slots.push(pool[(c / page) as usize]);
        offsets.push(c % page);
        c += 1;
        proof {
            assert(positions@ =~= Seq::new((c - base) as nat, |i: int| (base + i) as u32));
            assert(slots@ =~= Seq::new((c - base) as nat, |i: int| cell(pool@, page, base + i).0));
            assert(offsets@ =~= Seq::new(
                (c - base) as nat,
                |i: int| cell(pool@, page, base + i).1,
            ));
        }
    }
    Geometry { positions, slots, offsets, kv_len: end, pages: ceil_div(end, page), writable_from }
}

/// The geometry of a prefill chunk. The span counts from the resume point; the
/// parked pages below it are read and never written.
pub fn prefill_chunk(span: (u32, u32), cached: u32, pool: &[u32], page: u32) -> (r: Geometry)
    requires
        page > 0,
        span.0 <= span.1,
        cached + span.1 <= u32::MAX,
        cached + span.1 <= pool@.len() * page as nat,
    ensures
        covers(r, pool@, page, (cached + span.0) as u32, (cached + span.1) as u32),
        r.writable_from as int == cached as int / page as int,
{
    geometry(pool, page, span.0 + cached, span.1 + cached, cached / page)
}

/// The geometry of the decode step that follows `held` tokens: it writes one
/// cell. All the decode steps of a turn share one bound, the page that the prompt
/// of `n` tokens ends in.
pub fn decode_step(n: u32, held: u32, pool: &[u32], page: u32) -> (r: Geometry)
    requires
        page > 0,
        held < u32::MAX,
        held < pool@.len() * page as nat,
    ensures
        covers(r, pool@, page, held, (held + 1) as u32),
        r.writable_from as int == n as int / page as int,
{
    geometry(pool, page, held, held + 1, n / page)
}

/// How many tokens are decoded behind the first one, which prefill delivers.
pub fn decode_budget(done: bool, max_tokens: usize) -> (r: usize)
    ensures
        r == (if done || max_tokens == 0 {
            0
        } else {
            max_tokens - 1
        }),
{
    if done || max_tokens == 0 {
        0
    } else {
        max_tokens - 1
    }
}

// ---------------------------------------------------------------------------
// Retiring
// ---------------------------------------------------------------------------

/// What a generation did, as opposed to what was planned.
pub struct Outcome {
    /// The first engine error. Tokens already delivered stand.
    pub error: Option<String>,
    /// Prompt tokens served from parked pages.
    pub cached_tokens: u32,
    /// Cuts parked for later turns.
    pub published: usize,
}

/// Some entry of `publish` has the address.
pub open spec fn republished(publish: Seq<(u32, String)>, address: Seq<char>) -> bool {
    exists|i: int| 0 <= i < publish.len() && (#[trigger] publish[i]).1@ == address
}

/// Whether the entry that a turn resumed from is removed: only where the turn
/// parked a replacement, and not where it parked under the same address, which
/// already replaced the entry.
pub fn retires(resumed: Option<&str>, publish: &[(u32, String)], published: usize) -> (r: bool)
    ensures
        r == match resumed {
            Some(a) => published > 0 && !republished(publish@, a@),
            None => false,
        },
{
    match resumed {
        Some(a) => {
            if published == 0 {
                return false;
            }
            let mut i: usize = 0;
            while i < publish.len()
                invariant
                    resumed == Some(a),
                    published > 0,
                    i <= publish@.len(),
                    forall|j: int| 0 <= j < i ==> (#[trigger] publish@[j]).1@ != a@,
                decreases publish.len() - i,
            {
                if same(publish[i].1.as_str(), a) {
                    proof {
                        assert(publish@[i as int].1@ == a@);
                    }
                    return false;
                }
                i += 1;
            }
            true
        },
        None => false,
    }
}

// ---------------------------------------------------------------------------
// Laws
// ---------------------------------------------------------------------------

proof fn lemma_doubled(n: int, p: int)
    requires
        p > 0,
    ensures
        doubled(n, p) >= n,
        doubled(n, p) >= p,
        n > p ==> doubled(n, p) < 2 * n,
    decreases
            (if n > p {
                n - p
            } else {
                0
            }),
{
    if p < n {
        lemma_doubled(n, 2 * p);
    }
}

proof fn lemma_doubled_fits(n: int, p: int)
    requires
        n <= 0x8000_0000,
        is_power(p),
        0 < p <= 0x8000_0000,
    ensures
        doubled(n, p) <= 0x8000_0000,
    decreases
            (if n > p {
                n - p
            } else {
                0
            }),
{
    if p < n {
        lemma_power_doubles(p);
        lemma_doubled_fits(n, 2 * p);
    }
}

/// A pool whose need can be rounded is counted in 32 bits.
pub(crate) proof fn lemma_pool_size_fits(
    n: u32,
    max_tokens: usize,
    page: u32,
    pool_total: u32,
    have: u32,
)
    requires
        page > 0,
        needed_pages(n, max_tokens, page) <= 0x8000_0000,
    ensures
        pool_size(n, max_tokens, page, pool_total, have) <= u32::MAX,
{
    let need = needed_pages(n, max_tokens, page);
    vstd::arithmetic::power2::lemma2_to64();
    assert(vstd::arithmetic::power2::pow2(0) == 1);
    assert(is_power(1));
    lemma_doubled_fits(need, 1);
}

/// What a turn tells as cached is less than its prompt, and is exactly the pages
/// that the resumed set holds: something is left to write, and a client that takes
/// the cached tokens off the prompt's never gets below zero.
pub proof fn law_a_resume_is_within_the_prompt(cached: u32, n: u32, page: u32, have: u32)
    requires
        page > 0,
        fits(cached, n, page, have),
    ensures
        cached < n,
        cached == have * page,
{
}

/// The pool holds the whole turn: prompt, generation and margin fit in its
/// pages, and so does what a resumed set already has.
pub proof fn law_the_pool_holds_the_turn(
    n: u32,
    max_tokens: usize,
    page: u32,
    pool_total: u32,
    have: u32,
)
    requires
        page > 0,
    ensures
        pool_size(n, max_tokens, page, pool_total, have) * page >= n + max_tokens + 2,
        pool_size(n, max_tokens, page, pool_total, have) >= have,
        pool_size(n, max_tokens, page, pool_total, have) >= POOL_FLOOR_PAGES,
{
    let total = n as int + max_tokens as int + 2;
    let need = needed_pages(n, max_tokens, page);
    let size = pool_size(n, max_tokens, page, pool_total, have);
    lemma_over(total, page as int);
    lemma_over(need, FINE_STEP_PAGES as int);
    lemma_doubled(need, 1);
    assert(size >= need);
    let exact = over(total, page as int);
    assert(size * page as int >= exact * page as int) by (nonlinear_arith)
        requires
            size >= exact,
            page > 0,
    ;
}

/// Rounding never takes the admission headroom: a pool passes the pressure limit
/// only where the turn needs more, or the resumed set already has more. And it
/// is less than twice the need.
pub proof fn law_rounding_leaves_the_headroom(
    n: u32,
    max_tokens: usize,
    page: u32,
    pool_total: u32,
    have: u32,
)
    requires
        page > 0,
        pool_total > 0,
    ensures
        ({
            let need = needed_pages(n, max_tokens, page);
            let size = pool_size(n, max_tokens, page, pool_total, have);
            &&& size > band(pool_total) ==> size == need || size == have
            &&& size < 2 * need || size == have
        }),
{
    let total = n as int + max_tokens as int + 2;
    let need = needed_pages(n, max_tokens, page);
    lemma_over(total, page as int);
    lemma_over(need, FINE_STEP_PAGES as int);
    lemma_doubled(need, 1);
    let size = pool_size(n, max_tokens, page, pool_total, have);
    let power = doubled(need, 1);
    if power > band(pool_total) {
        let fine = over(need, FINE_STEP_PAGES as int) * FINE_STEP_PAGES;
        assert(size <= power || size == have || size == need);
    }
}

/// No pass writes a page that a resumed turn shares: a position at or behind the
/// resume point lies in a page at or behind it.
pub proof fn law_shared_pages_are_never_written(cached: u32, page: u32, at: int)
    requires
        page > 0,
        at >= cached,
    ensures
        at / page as int >= cached as int / page as int,
{
    vstd::arithmetic::div_mod::lemma_div_is_ordered(cached as int, at, page as int);
}

/// Two positions never share a cell, where the pool's pages are different.
pub proof fn law_positions_have_cells_of_their_own(pool: Seq<u32>, page: u32, a: int, b: int)
    requires
        page > 0,
        forall|i: int, j: int| 0 <= i < j < pool.len() ==> pool[i] != pool[j],
        0 <= a < b < pool.len() * page as int,
    ensures
        cell(pool, page, a) != cell(pool, page, b),
{
    let p = page as int;
    let n = pool.len() as int;
    vstd::arithmetic::div_mod::lemma_fundamental_div_mod(a, p);
    vstd::arithmetic::div_mod::lemma_fundamental_div_mod(b, p);
    vstd::arithmetic::div_mod::lemma_div_is_ordered(a, b, p);
    assert(0 <= a / p) by (nonlinear_arith)
        requires
            a >= 0,
            p > 0,
    ;
    assert(b / p < n) by (nonlinear_arith)
        requires
            b < n * p,
            p > 0,
            b >= 0,
    ;
}

/// A quotient is rounded up: it is the least number of groups that hold all.
pub proof fn law_a_quotient_is_rounded_up(a: int, b: int)
    requires
        a >= 0,
        b > 0,
    ensures
        b * over(a, b) >= a,
        b * (over(a, b) - 1) < a || (a == 0 && over(a, b) == 0),
{
    lemma_fundamental_div_mod(a + b - 1, b);
    let q = over(a, b);
    assert(b * (q - 1) == b * q - b) by (nonlinear_arith);
    if a == 0 {
        assert((b - 1) / b == 0) by (nonlinear_arith)
            requires
                b > 0,
        ;
    }
}

/// A pool that may be rounded freely is the least doubling of a page that holds the
/// turn; the turn's pages hold its prompt, its generation and two cells more.
pub proof fn law_a_pool_is_the_least_doubling(n: int, p: int)
    requires
        p > 0,
    ensures
        doubled(n, p) >= n,
        doubled(n, p) >= p,
        doubled(n, p) == p || doubled(n, p) < 2 * n,
    decreases
            (if n > p {
                n - p
            } else {
                0
            }),
{
    if p < n {
        law_a_pool_is_the_least_doubling(n, 2 * p);
    }
}

/// A turn's pages hold every token that it may have, and no page too many above the
/// floor; the pressure limit leaves six pages of each hundred.
pub proof fn law_the_pages_hold_every_token(n: u32, max_tokens: usize, page: u32, pool_total: u32)
    requires
        page > 0,
    ensures
        needed_pages(n, max_tokens, page) * page >= n + max_tokens + 2,
        needed_pages(n, max_tokens, page) >= POOL_FLOOR_PAGES,
        needed_pages(n, max_tokens, page) > POOL_FLOOR_PAGES ==> (needed_pages(n, max_tokens, page) - 1)
            * page < n + max_tokens + 2,
        pool_total - band(pool_total) == 6 * (pool_total as int / 100),
        100 * (pool_total - band(pool_total)) <= 6 * pool_total,
{
    let a = n as int + max_tokens as int + 2;
    law_a_quotient_is_rounded_up(a, page as int);
    let q = over(a, page as int);
    let r = needed_pages(n, max_tokens, page);
    assert(page * q == q * page) by (nonlinear_arith);
    assert(page * (q - 1) == (q - 1) * page) by (nonlinear_arith);
    assert(r * page >= q * page) by (nonlinear_arith)
        requires
            r >= q,
            page > 0,
    ;
}

/// A resume is sound exactly where a token is left to write and the parked pages
/// are full of the prefix and nothing else.
pub proof fn law_a_resume_is_whole_pages(cached: u32, n: u32, page: u32, have: u32)
    requires
        page > 0,
    ensures
        fits(cached, n, page, have) <==> cached < n && have * page == cached,
{
    if have * page == cached {
        lemma_mod_multiples_basic(have as int, page as int);
    }
}

/// A pass writes each of its tokens at its own position, in the cell of the pool
/// that the position has, and reads everything up to its end.
pub proof fn law_a_geometry_names_its_cells(
    g: Geometry,
    pool: Seq<u32>,
    page: u32,
    base: u32,
    end: u32,
    i: int,
)
    requires
        covers(g, pool, page, base, end),
        page > 0,
        0 <= i < end - base,
    ensures
        g.positions@.len() == end - base && g.slots@.len() == end - base && g.offsets@.len() == end
            - base,
        g.positions@[i] == base + i,
        g.slots@[i] == pool[(base + i) / page as int],
        g.offsets@[i] as int == (base + i) % page as int,
        g.kv_len == end,
        g.pages * page >= end,
        (g.pages - 1) * page < end,
{
    law_a_quotient_is_rounded_up(end as int, page as int);
    let q = over(end as int, page as int);
    assert(page * q == q * page) by (nonlinear_arith);
    assert(page * (q - 1) == (q - 1) * page) by (nonlinear_arith);
    assert(0 <= (base + i) % page as int <= base + i) by (nonlinear_arith)
        requires
            page > 0,
            base + i >= 0,
    ;
}

/// A pool is never smaller than its turn's need or than what it came with. Without
/// pressure it is the doubling of a page that holds the need; under pressure it is a
/// whole number of fine steps, cut at the pressure limit, where that holds the need,
/// and the need itself otherwise.
pub proof fn law_a_pool_is_rounded_by_pressure(
    n: u32,
    max_tokens: usize,
    page: u32,
    pool_total: u32,
    have: u32,
)
    requires
        page > 0,
    ensures
        ({
            let need = needed_pages(n, max_tokens, page);
            let size = pool_size(n, max_tokens, page, pool_total, have);
            let free = pool_total == 0 || doubled(need, 1) <= band(pool_total);
            let steps = over(need, FINE_STEP_PAGES as int) * FINE_STEP_PAGES;
            &&& size >= need && size >= have
            &&& free && have <= doubled(need, 1) ==> size == doubled(need, 1)
            &&& !free && have <= need && steps < band(pool_total) ==> size == steps
            &&& !free && have <= need && steps >= band(pool_total) && band(pool_total) >= need ==> size
                == band(pool_total)
            &&& !free && have <= need && band(pool_total) < need ==> size == need
        }),
{
    let need = needed_pages(n, max_tokens, page);
    law_a_pool_is_the_least_doubling(need, 1);
    law_a_quotient_is_rounded_up(need, FINE_STEP_PAGES as int);
    let q = over(need, FINE_STEP_PAGES as int);
    assert(FINE_STEP_PAGES * q == q * FINE_STEP_PAGES) by (nonlinear_arith);
}

} // verus!
