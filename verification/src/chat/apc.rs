//! The prefix cache's cut ladder: which prefixes of a rendered history are
//! addressed, in which order they are looked up, and which are parked.
//!
//! Only the history is addressable. The cue behind it is never rendered again
//! once the turn is history, so state that covers it could never be found.

use vstd::arithmetic::div_mod::{lemma_fundamental_div_mod, lemma_mod_multiples_basic};
use vstd::prelude::*;
use vstd::string::*;

use crate::format::dec_of;
use crate::serving::digest::{addressed, prefix_addresses, token_address, TEMPLATE_MARKER};

verus! {

/// How many cuts are parked per turn. Parking takes a global lock, and the
/// deepest cut is the one that the next turn of a conversation resumes at.
pub const PUBLISH_MAX: usize = 1;

/// Cut candidates stand this many tokens apart, besides the edges of the
/// rendered units.
pub const BOUNDARY_STRIDE: u32 = 256;

// ---------------------------------------------------------------------------
// Cuts
// ---------------------------------------------------------------------------

/// A boundary of the history, brought down to a page edge.
pub open spec fn aligned(b: u32, page: u32) -> int {
    (b as int / page as int) * page as int
}

/// `c` is the cut of one of the boundaries within the history.
pub open spec fn is_cut(boundaries: Seq<u32>, page: u32, history_len: u32, c: u32) -> bool {
    page > 0 && c > 0 && exists|i: int|
        0 <= i < boundaries.len() && #[trigger] boundaries[i] <= history_len && aligned(
            boundaries[i],
            page,
        ) == c
}

/// In ascending order, nothing twice.
pub open spec fn ascending(s: Seq<u32>) -> bool {
    forall|i: int, j: int| 0 <= i < j < s.len() ==> s[i] < s[j]
}

/// Where `c` is or belongs in an ascending list.
fn place(v: &Vec<u32>, c: u32) -> (r: usize)
    requires
        ascending(v@),
    ensures
        r <= v@.len(),
        forall|i: int| 0 <= i < r ==> v@[i] < c,
        forall|i: int| r <= i < v@.len() ==> v@[i] >= c,
{
    let mut i: usize = v.len();
    while i > 0 && v[i - 1] >= c
        invariant
            i <= v@.len(),
            ascending(v@),
            forall|j: int| i <= j < v@.len() ==> v@[j] >= c,
        decreases i,
    {
        i -= 1;
    }
    i
}

/// The page-aligned cuts of the boundaries, ascending and nothing twice. A cut
/// is aligned down, for state short of a prefix only serves less of it; a
/// boundary past the history and an empty prefix are dropped.
pub fn aligned_cuts(boundaries: &[u32], page: u32, history_len: u32) -> (r: Vec<u32>)
    ensures
        ascending(r@),
        forall|c: u32|
            r@.contains(c) <==> #[trigger] is_cut(boundaries@, page, history_len, c),
{
    let mut cuts: Vec<u32> = Vec::new();
    if page == 0 {
        return cuts;
    }
    let mut k: usize = 0;
    while k < boundaries.len()
        invariant
            page > 0,
            k <= boundaries@.len(),
            ascending(cuts@),
            forall|c: u32|
                cuts@.contains(c) <==> #[trigger] is_cut(
                    boundaries@.take(k as int),
                    page,
                    history_len,
                    c,
                ),
        decreases boundaries.len() - k,
    {
        let b = boundaries[k];
        let ghost front = boundaries@.take(k as int);
        let ghost next = boundaries@.take(k + 1);
        let ghost before = cuts@;
        proof {
            assert(next =~= front.push(b));
            assert((b as int / page as int) * page as int <= b) by (nonlinear_arith)
                requires
                    page > 0,
            ;
            assert((b as int / page as int) * page as int >= 0) by (nonlinear_arith)
                requires
                    page > 0,
            ;
        }
        if b <= history_len {
            let c = (b / page) * page;
            if c > 0 {
                let at = place(&cuts, c);
                if at == cuts.len() || cuts[at] != c {
                    cuts.insert(at, c);
                    proof {
                        assert forall|x: u32| cuts@.contains(x) <==> before.contains(x) || x == c by {
                            if before.contains(x) {
                                let i = choose|i: int| 0 <= i < before.len() && before[i] == x;
                                if i < at {
                                    assert(cuts@[i] == x);
                                } else {
                                    assert(cuts@[i + 1] == x);
                                }
                            }
                            if x == c {
                                assert(cuts@[at as int] == c);
                            }
                            if cuts@.contains(x) && x != c {
                                let i = choose|i: int| 0 <= i < cuts@.len() && cuts@[i] == x;
                                if i < at {
                                    assert(before[i] == x);
                                } else {
                                    assert(before[i - 1] == x);
                                }
                            }
                        }
                    }
                } else {
                    proof {
                        assert(cuts@[at as int] == c);
                    }
                }
            }
        }
        proof {
            assert forall|c: u32|
                cuts@.contains(c) <==> #[trigger] is_cut(next, page, history_len, c) by {
                assert(before.contains(c) <==> is_cut(front, page, history_len, c));
                if is_cut(front, page, history_len, c) {
                    let i = choose|i: int|
                        0 <= i < front.len() && #[trigger] front[i] <= history_len && aligned(
                            front[i],
                            page,
                        ) == c;
                    assert(next[i] == front[i]);
                }
                if is_cut(next, page, history_len, c) {
                    let i = choose|i: int|
                        0 <= i < next.len() && #[trigger] next[i] <= history_len && aligned(
                            next[i],
                            page,
                        ) == c;
                    if i < k {
                        assert(front[i] == next[i]);
                    }
                }
                assert(next[k as int] == b);
            }
        }
        k += 1;
    }
    proof {
        assert(boundaries@.take(k as int) =~= boundaries@);
    }
    cuts
}

// ---------------------------------------------------------------------------
// Sampling
// ---------------------------------------------------------------------------

/// How many of `n` items a sample of at most `k` holds.
pub open spec fn sample_len(n: nat, k: nat) -> nat {
    if n <= k {
        n
    } else {
        k
    }
}

/// The place among `n` items of the sample's item `i`.
pub open spec fn sample_index(n: nat, k: nat, i: int) -> int {
    if n <= k {
        i
    } else if k == 1 {
        n - 1
    } else {
        i * (n - 1) / (k - 1)
    }
}

proof fn lemma_sample_index(n: nat, k: nat, i: int)
    requires
        0 <= i < sample_len(n, k),
    ensures
        0 <= sample_index(n, k, i) < n,
{
    if n > k && k > 1 {
        let a = i * (n - 1);
        let d = k - 1;
        assert(0 <= a / d <= n - 1) by (nonlinear_arith)
            requires
                a == i * (n - 1),
                d == k - 1,
                0 <= i <= d,
                d > 0,
                n > k,
        ;
    }
}

/// At most `k` of the items, evenly spaced.
pub fn sample<T: Clone>(items: &[T], k: usize) -> (r: Vec<T>)
    ensures
        r@.len() == sample_len(items@.len(), k as nat),
        forall|i: int|
            0 <= i < r@.len() ==> cloned(
                items@[sample_index(items@.len(), k as nat, i)],
                #[trigger] r@[i],
            ),
{
    let n = items.len();
    let count: usize = if n <= k {
        n
    } else {
        k
    };
    let mut out: Vec<T> = Vec::new();
    let mut i: usize = 0;
    while i < count
        invariant
            n == items@.len(),
            i <= count,
            count == sample_len(items@.len(), k as nat),
            out@.len() == i,
            forall|j: int|
                0 <= j < i ==> cloned(
                    items@[sample_index(items@.len(), k as nat, j)],
                    #[trigger] out@[j],
                ),
        decreases count - i,
    {
        proof {
            lemma_sample_index(n as nat, k as nat, i as int);
        }
        let at: usize = if n <= k {
            i
        } else if k == 1 {
            n - 1
        } else {
            proof {
                assert(0 <= i as int * (n - 1) <= u64::MAX as int * u64::MAX as int)
                    by (nonlinear_arith)
                    requires
                        0 <= i <= u64::MAX,
                        0 <= n - 1 <= u64::MAX,
                ;
            }
            ((i as u128) * ((n - 1) as u128) / ((k - 1) as u128)) as usize
        };
        out.push(items[at].clone());
        i += 1;
    }
    out
}

/// A sample of two or more keeps the first and the last item, and its items
/// stand in the items' order, none twice.
pub proof fn law_a_sample_keeps_both_ends(n: nat, k: nat, i: int, j: int)
    requires
        n > 0,
        k > 1,
        0 <= i < j < sample_len(n, k),
    ensures
        sample_index(n, k, 0) == 0,
        sample_index(n, k, sample_len(n, k) - 1) == n - 1,
        0 <= sample_index(n, k, i) < sample_index(n, k, j) < n,
{
    lemma_sample_index(n, k, i);
    lemma_sample_index(n, k, j);
    if n > k {
        let d = k - 1;
        let last = n - 1;
        assert(0 * last / d == 0) by (nonlinear_arith)
            requires
                d > 0,
        ;
        assert(d * last / d == last) by (nonlinear_arith)
            requires
                d > 0,
        ;
        let a = i * last;
        let b = j * last;
        assert(b >= a + d) by (nonlinear_arith)
            requires
                a == i * last,
                b == j * last,
                i + 1 <= j,
                last >= d,
                d > 0,
        ;
        assert(b / d >= a / d + 1) by (nonlinear_arith)
            requires
                b >= a + d,
                d > 0,
                a >= 0,
        ;
        assert(a >= 0) by (nonlinear_arith)
            requires
                a == i * last,
                i >= 0,
                last >= 0,
        ;
    }
}

/// A sample of one is the last item: the deepest cut.
pub proof fn law_a_single_sample_is_the_last(n: nat)
    requires
        n > 0,
    ensures
        sample_len(n, 1) == 1,
        sample_index(n, 1, 0) == n - 1,
{
}

// ---------------------------------------------------------------------------
// The ladder
// ---------------------------------------------------------------------------

/// A point to resume at: how many tokens of the render are held already, and
/// the address they are found under. The address is the handle by which the
/// turn that parks a deeper cut removes the entry it resumed from.
pub struct Resume {
    pub cached_tokens: u32,
    pub address: String,
}

/// What the index said of an address.
#[derive(Clone, Copy, Debug, PartialEq, Eq, Structural)]
pub enum Lookup {
    /// The prefix is parked there.
    Hit,
    /// Nothing is parked there.
    Miss,
    /// The index could not answer. A cache is an optimisation: this is a miss.
    Failed,
}

/// What to do next to find where a turn resumes.
pub enum Probe {
    /// Look this point up.
    Ask(Resume),
    /// Resume here.
    Hit(Resume),
    /// Nothing is parked: build the whole prompt.
    Cold,
}

/// The addressed cuts of one render, ascending.
pub struct Plan {
    cuts: Vec<(u32, String)>,
}

impl View for Plan {
    type V = Seq<(u32, Seq<char>)>;

    closed spec fn view(&self) -> Seq<(u32, Seq<char>)> {
        self.cuts@.map_values(|c: (u32, String)| (c.0, c.1@))
    }
}

/// The place of the first hit among `answers`.
pub open spec fn first_hit(answers: Seq<Lookup>) -> Option<int>
    decreases answers.len(),
{
    if answers.len() == 0 {
        None
    } else {
        match first_hit(answers.drop_last()) {
            Some(i) => Some(i),
            None => if answers.last() == Lookup::Hit {
                Some(answers.len() - 1)
            } else {
                None
            },
        }
    }
}

proof fn lemma_first_hit(answers: Seq<Lookup>)
    ensures
        first_hit(answers) matches Some(i) ==> 0 <= i < answers.len() && answers[i] == Lookup::Hit,
        first_hit(answers) is None ==> forall|i: int|
            0 <= i < answers.len() ==> answers[i] != Lookup::Hit,
    decreases answers.len(),
{
    if answers.len() > 0 {
        lemma_first_hit(answers.drop_last());
        let front = answers.drop_last();
        assert forall|i: int| first_hit(answers) is None && 0 <= i < answers.len() implies answers[i]
            != Lookup::Hit by {
            if i < front.len() {
                assert(front[i] == answers[i]);
            }
        }
    }
}

/// The point of the ladder that is looked up after `tried` misses: the longest
/// prefixes come first.
pub open spec fn rung(cuts: Seq<(u32, Seq<char>)>, tried: int) -> (u32, Seq<char>) {
    cuts[cuts.len() - 1 - tried]
}

/// What follows from the answers so far, given in the order of asking.
pub open spec fn probe_after(
    cuts: Seq<(u32, Seq<char>)>,
    answers: Seq<Lookup>,
    r: Probe,
) -> bool {
    match first_hit(answers) {
        Some(i) => r matches Probe::Hit(p) && (p.cached_tokens, p.address@) == rung(cuts, i),
        None => if answers.len() < cuts.len() {
            r matches Probe::Ask(p) && (p.cached_tokens, p.address@) == rung(
                cuts,
                answers.len() as int,
            )
        } else {
            r is Cold
        },
    }
}

impl Plan {
    /// Addresses every usable cut of the history. The boundaries are token
    /// counts into it.
    pub fn build(model_id: &str, history: &[u32], boundaries: &[u32], page: u32) -> (r: Plan)
        requires
            history@.len() <= u32::MAX,
        ensures
            forall|i: int, j: int| 0 <= i < j < r@.len() ==> r@[i].0 < r@[j].0,
            forall|c: u32|
                (exists|i: int| 0 <= i < r@.len() && (#[trigger] r@[i]).0 == c)
                    <==> #[trigger] is_cut(boundaries@, page, history@.len() as u32, c),
            forall|i: int|
                0 <= i < r@.len() ==> (#[trigger] r@[i]).0 <= history@.len() && r@[i].1
                    == token_address(
                    model_id@,
                    TEMPLATE_MARKER@,
                    history@.take(r@[i].0 as int),
                ),
    {
        let cuts = aligned_cuts(boundaries, page, history.len() as u32);
        let addresses = prefix_addresses(model_id, TEMPLATE_MARKER, history, cuts.as_slice());
        let r = Plan { cuts: addresses };
        proof {
            let len = history@.len() as u32;
            assert forall|i: int| 0 <= i < cuts@.len() implies (#[trigger] cuts@[i]) <= len by {
                assert(cuts@.contains(cuts@[i]));
                assert(is_cut(boundaries@, page, len, cuts@[i]));
                lemma_cut_is_inside(boundaries@, page, len, cuts@[i]);
            }
            lemma_all_addressed(cuts@, cuts@.len() as int, history@.len());
            assert(addressed(cuts@, cuts@.len() as int, history@.len()) =~= cuts@);
            assert forall|c: u32|
                (exists|i: int| 0 <= i < r@.len() && (#[trigger] r@[i]).0 == c)
                    <==> #[trigger] is_cut(boundaries@, page, len, c) by {
                assert(cuts@.contains(c) <==> is_cut(boundaries@, page, len, c));
                if cuts@.contains(c) {
                    let i = choose|i: int| 0 <= i < cuts@.len() && cuts@[i] == c;
                    assert(r@[i].0 == c);
                }
                if exists|i: int| 0 <= i < r@.len() && (#[trigger] r@[i]).0 == c {
                    let i = choose|i: int| 0 <= i < r@.len() && (#[trigger] r@[i]).0 == c;
                    assert(cuts@[i] == c);
                }
            }
        }
        r
    }

    /// Where the turn resumes, longest prefix first, by what the index answered
    /// so far. Every cut is tried.
    pub fn resume(&self, answers: &[Lookup]) -> (r: Probe)
        requires
            answers@.len() <= self@.len(),
        ensures
            probe_after(self@, answers@, r),
    {
        let n = self.cuts.len();
        let mut i: usize = 0;
        proof {
            assert(answers@.take(0) =~= Seq::<Lookup>::empty());
        }
        while i < answers.len()
            invariant
                i <= answers@.len() <= n,
                n == self.cuts@.len(),
                first_hit(answers@.take(i as int)) is None,
            decreases answers.len() - i,
        {
            proof {
                let next = answers@.take(i + 1);
                assert(next.drop_last() =~= answers@.take(i as int));
                assert(next.last() == answers@[i as int]);
            }
            if answers[i] == Lookup::Hit {
                let c = &self.cuts[n - 1 - i];
                proof {
                    lemma_first_hit_stays(answers@, i + 1);
                }
                return Probe::Hit(Resume { cached_tokens: c.0, address: c.1.clone() });
            }
            i += 1;
        }
        proof {
            assert(answers@.take(i as int) =~= answers@);
        }
        if i < n {
            let c = &self.cuts[n - 1 - i];
            Probe::Ask(Resume { cached_tokens: c.0, address: c.1.clone() })
        } else {
            Probe::Cold
        }
    }

    /// The cuts to park after prefill: evenly spaced over the ladder, at most
    /// [`PUBLISH_MAX`].
    pub fn publish_set(&self) -> (r: Vec<(u32, String)>)
        ensures
            r@.len() == sample_len(self@.len(), PUBLISH_MAX as nat),
            forall|i: int|
                0 <= i < r@.len() ==> ((#[trigger] r@[i]).0, r@[i].1@) == self@[sample_index(
                    self@.len(),
                    PUBLISH_MAX as nat,
                    i,
                )],
    {
        let mut numbers: Vec<usize> = Vec::new();
        let mut i: usize = 0;
        while i < self.cuts.len()
            invariant
                i <= self.cuts@.len(),
                numbers@.len() == i,
                forall|j: int| 0 <= j < i ==> numbers@[j] == j,
            decreases self.cuts.len() - i,
        {
            numbers.push(i);
            i += 1;
        }
        let picked = sample(numbers.as_slice(), PUBLISH_MAX);
        let mut r: Vec<(u32, String)> = Vec::new();
        let mut k: usize = 0;
        while k < picked.len()
            invariant
                k <= picked@.len(),
                numbers@.len() == self.cuts@.len(),
                forall|j: int| 0 <= j < numbers@.len() ==> numbers@[j] == j,
                picked@.len() == sample_len(numbers@.len(), PUBLISH_MAX as nat),
                forall|j: int|
                    0 <= j < picked@.len() ==> cloned(
                        numbers@[sample_index(numbers@.len(), PUBLISH_MAX as nat, j)],
                        #[trigger] picked@[j],
                    ),
                r@.len() == k,
                forall|j: int|
                    0 <= j < k ==> ((#[trigger] r@[j]).0, r@[j].1@) == self@[sample_index(
                        self@.len(),
                        PUBLISH_MAX as nat,
                        j,
                    )],
            decreases picked.len() - k,
        {
            proof {
                lemma_sample_index(numbers@.len(), PUBLISH_MAX as nat, k as int);
            }
            let c = &self.cuts[picked[k]];
            r.push((c.0, c.1.clone()));
            k += 1;
        }
        r
    }

    /// The number of addressed cuts.
    pub fn len(&self) -> (r: usize)
        ensures
            r == self@.len(),
    {
        self.cuts.len()
    }
}

proof fn lemma_first_hit_stays(answers: Seq<Lookup>, n: int)
    requires
        0 <= n <= answers.len(),
        first_hit(answers.take(n)) is Some,
    ensures
        first_hit(answers) == first_hit(answers.take(n)),
    decreases answers.len() - n,
{
    if n < answers.len() {
        assert(answers.take(n + 1).drop_last() =~= answers.take(n));
        lemma_first_hit_stays(answers, n + 1);
    } else {
        assert(answers.take(n) =~= answers);
    }
}

proof fn lemma_cut_is_inside(boundaries: Seq<u32>, page: u32, history_len: u32, c: u32)
    requires
        is_cut(boundaries, page, history_len, c),
    ensures
        c <= history_len,
        c as int % page as int == 0,
{
    let i = choose|i: int|
        0 <= i < boundaries.len() && #[trigger] boundaries[i] <= history_len && aligned(
            boundaries[i],
            page,
        ) == c;
    let b = boundaries[i];
    assert((b as int / page as int) * page as int <= b) by (nonlinear_arith)
        requires
            page > 0,
    ;
    assert(((b as int / page as int) * page as int) % page as int == 0) by (nonlinear_arith)
        requires
            page > 0,
    ;
}

proof fn lemma_all_addressed(cuts: Seq<u32>, n: int, len: nat)
    requires
        0 <= n <= cuts.len(),
        ascending(cuts),
        forall|i: int| 0 <= i < cuts.len() ==> cuts[i] <= len,
    ensures
        addressed(cuts, n, len) == cuts.take(n),
    decreases n,
{
    if n > 0 {
        lemma_all_addressed(cuts, n - 1, len);
        assert(cuts.take(n) =~= cuts.take(n - 1).push(cuts[n - 1]));
    } else {
        assert(cuts.take(0) =~= Seq::<u32>::empty());
    }
}

/// Every cut of a plan's boundaries is page-aligned, not empty and within the
/// history, so what is parked under it covers whole pages and no cue.
pub proof fn law_a_cut_covers_whole_pages(
    boundaries: Seq<u32>,
    page: u32,
    history_len: u32,
    c: u32,
)
    requires
        is_cut(boundaries, page, history_len, c),
    ensures
        0 < c <= history_len,
        c as int % page as int == 0,
{
    lemma_cut_is_inside(boundaries, page, history_len, c);
}

/// A turn resumes at the longest parked prefix: a hit is at least as long as any
/// other, everything longer than the next question has been asked before, and
/// only a ladder without any hit is cold.
pub proof fn law_longest_prefixes_are_tried_first(
    cuts: Seq<(u32, Seq<char>)>,
    answers: Seq<Lookup>,
    r: Probe,
)
    requires
        forall|i: int, j: int| 0 <= i < j < cuts.len() ==> cuts[i].0 < cuts[j].0,
        answers.len() <= cuts.len(),
        probe_after(cuts, answers, r),
    ensures
        r matches Probe::Hit(p) ==> forall|k: int|
            0 <= k < answers.len() && answers[k] == Lookup::Hit ==> #[trigger] rung(cuts, k).0
                <= p.cached_tokens,
        r matches Probe::Ask(p) ==> forall|k: int|
            0 <= k < answers.len() ==> #[trigger] rung(cuts, k).0 > p.cached_tokens,
        r is Cold <==> answers.len() == cuts.len() && forall|k: int|
            0 <= k < answers.len() ==> answers[k] != Lookup::Hit,
{
    lemma_first_hit(answers);
    if let Some(i) = first_hit(answers) {
        lemma_first_hit_is_least(answers);
    }
}

proof fn lemma_first_hit_is_least(answers: Seq<Lookup>)
    requires
        first_hit(answers) is Some,
    ensures
        forall|k: int|
            0 <= k < answers.len() && answers[k] == Lookup::Hit ==> k >= first_hit(answers)->0,
    decreases answers.len(),
{
    let front = answers.drop_last();
    lemma_first_hit(front);
    if first_hit(front) is Some {
        lemma_first_hit_is_least(front);
        lemma_first_hit(answers);
    }
    assert forall|k: int| 0 <= k < answers.len() && answers[k] == Lookup::Hit implies k
        >= first_hit(answers)->0 by {
        if k < front.len() {
            assert(front[k] == answers[k]);
        }
    }
}

// ---------------------------------------------------------------------------
// Parking
// ---------------------------------------------------------------------------

/// Why a cut is not parked.
#[derive(Clone, Copy, Debug, PartialEq, Eq, Structural)]
pub enum ParkRefusal {
    /// The cut is empty or ends inside a page.
    Unaligned { cut: u32, page: u32 },
    /// The working set has fewer pages than the cut.
    Short { pages: u32, have: u32 },
}

/// The text of a refusal.
pub open spec fn refusal_text(r: ParkRefusal) -> Seq<char> {
    match r {
        ParkRefusal::Unaligned { cut, page } => "refusing to publish an unaligned cut "@
            + crate::format::dec(cut as nat) + " (page "@ + crate::format::dec(page as nat) + ")"@,
        ParkRefusal::Short { pages, have } => "refusing to publish "@ + crate::format::dec(
            pages as nat,
        ) + " page(s) from a "@ + crate::format::dec(have as nat) + "-page set"@,
    }
}

impl ParkRefusal {
    /// The text of a refusal.
    pub fn message(&self) -> (r: String)
        ensures
            r@ == refusal_text(*self),
    {
        match self {
            ParkRefusal::Unaligned { cut, page } => {
                let mut r = String::new();
                r.append("refusing to publish an unaligned cut ");
                r.append(dec_of(*cut as u64).as_str());
                r.append(" (page ");
                r.append(dec_of(*page as u64).as_str());
                r.append(")");
                proof {
                    assert(r@ =~= refusal_text(*self));
                }
                r
            },
            ParkRefusal::Short { pages, have } => {
                let mut r = String::new();
                r.append("refusing to publish ");
                r.append(dec_of(*pages as u64).as_str());
                r.append(" page(s) from a ");
                r.append(dec_of(*have as u64).as_str());
                r.append("-page set");
                proof {
                    assert(r@ =~= refusal_text(*self));
                }
                r
            },
        }
    }
}

/// The number of pages to park for a cut, of a working set of `have` pages. A
/// slice is parked, not the working set: that also holds the cue and what is
/// about to be generated.
pub fn publish(cut: u32, page: u32, have: u32) -> (r: Result<u32, ParkRefusal>)
    ensures
        match r {
            Ok(pages) => page > 0 && cut > 0 && pages as int * page as int == cut && pages <= have,
            Err(ParkRefusal::Unaligned { cut: c, page: p }) => c == cut && p == page && (page == 0
                || cut == 0 || cut as int % page as int != 0),
            Err(ParkRefusal::Short { pages, have: h }) => page > 0 && cut > 0 && pages as int
                * page as int == cut && h == have && have < pages,
        },
{
    if page == 0 || cut == 0 || cut % page != 0 {
        return Err(ParkRefusal::Unaligned { cut, page });
    }
    let pages = cut / page;
    proof {
        assert((cut as int / page as int) * page as int == cut) by (nonlinear_arith)
            requires
                page > 0,
                cut as int % page as int == 0,
        ;
    }
    if have < pages {
        return Err(ParkRefusal::Short { pages, have });
    }
    Ok(pages)
}

/// A boundary is brought down to the last page edge at or before it.
pub proof fn law_a_boundary_comes_down_to_its_page(b: u32, page: u32)
    requires
        page > 0,
    ensures
        aligned(b, page) <= b < aligned(b, page) + page,
        aligned(b, page) % page as int == 0,
{
    let q = b as int / page as int;
    lemma_fundamental_div_mod(b as int, page as int);
    lemma_mod_multiples_basic(q, page as int);
    assert(q * page as int == page as int * q) by (nonlinear_arith);
}

/// A sample is spread evenly: item `i` of `k` stands as far along the items as it
/// stands along the sample, rounded down; a sample that may hold all holds all.
pub proof fn law_a_sample_is_spread_evenly(n: nat, k: nat, i: int)
    requires
        0 <= i < sample_len(n, k),
    ensures
        sample_len(n, k) <= n && sample_len(n, k) <= k,
        sample_len(n, k) == n || sample_len(n, k) == k,
        n <= k ==> sample_index(n, k, i) == i,
        n > k && k > 1 ==> (k - 1) * sample_index(n, k, i) <= i * (n - 1) < (k - 1) * (sample_index(
            n,
            k,
            i,
        ) + 1),
        n > k && k == 1 ==> sample_index(n, k, i) == n - 1,
{
    if n > k && k > 1 {
        let d = k - 1;
        let a = i * (n - 1);
        lemma_fundamental_div_mod(a, d);
        let q = a / d;
        assert(d * (q + 1) == d * q + d) by (nonlinear_arith);
    }
}

/// What is asked first is the longest prefix, and each question is for the next
/// shorter one; a hit is the prefix of the first answer that was one.
pub proof fn law_the_ladder_is_climbed_down(cuts: Seq<(u32, Seq<char>)>, answers: Seq<Lookup>, r: Probe)
    requires
        probe_after(cuts, answers, r),
        answers.len() <= cuts.len(),
    ensures
        cuts.len() > 0 ==> rung(cuts, 0) == cuts.last(),
        r matches Probe::Ask(p) ==> cuts.len() > answers.len() && (p.cached_tokens, p.address@)
            == cuts[cuts.len() - 1 - answers.len()],
        r matches Probe::Hit(p) ==> exists|k: int|
            0 <= k < answers.len() && #[trigger] answers[k] == Lookup::Hit && (
                p.cached_tokens,
                p.address@,
            ) == cuts[cuts.len() - 1 - k] && forall|j: int| 0 <= j < k ==> answers[j] != Lookup::Hit,
{
    lemma_first_hit(answers);
    if let Some(i) = first_hit(answers) {
        lemma_first_hit_is_least(answers);
        assert(answers[i] == Lookup::Hit);
    }
}

/// Every boundary of the history makes a cut at its page edge, but for those before
/// the first one, and there is no other cut.
pub proof fn law_every_boundary_makes_a_cut(
    boundaries: Seq<u32>,
    page: u32,
    history_len: u32,
    i: int,
    c: u32,
)
    requires
        page > 0,
    ensures
        0 <= i < boundaries.len() && boundaries[i] <= history_len && boundaries[i] >= page
            ==> aligned(boundaries[i], page) <= u32::MAX && is_cut(
            boundaries,
            page,
            history_len,
            aligned(boundaries[i], page) as u32,
        ),
        is_cut(boundaries, page, history_len, c) ==> exists|k: int|
            0 <= k < boundaries.len() && c <= #[trigger] boundaries[k] && boundaries[k] < c + page
                && boundaries[k] <= history_len,
{
    if 0 <= i < boundaries.len() && boundaries[i] <= history_len && boundaries[i] >= page {
        law_a_boundary_comes_down_to_its_page(boundaries[i], page);
    }
    if is_cut(boundaries, page, history_len, c) {
        let k = choose|k: int|
            0 <= k < boundaries.len() && #[trigger] boundaries[k] <= history_len && aligned(
                boundaries[k],
                page,
            ) == c;
        law_a_boundary_comes_down_to_its_page(boundaries[k], page);
    }
}

/// A refusal names the cut and the page that do not fit, or the pages that are
/// wanted and those that are there, in that order.
pub proof fn law_a_refusal_names_its_numbers(cut: u32, page: u32, pages: u32, have: u32)
    ensures
        ({
            let t = refusal_text(ParkRefusal::Unaligned { cut, page });
            let a = "refusing to publish an unaligned cut "@.len() as int;
            let b = a + crate::format::dec(cut as nat).len() + " (page "@.len();
            &&& t.subrange(a, a + crate::format::dec(cut as nat).len()) == crate::format::dec(cut as nat)
            &&& t.subrange(b, b + crate::format::dec(page as nat).len()) == crate::format::dec(
                page as nat,
            )
        }),
{
    let t = refusal_text(ParkRefusal::Unaligned { cut, page });
    let x = crate::format::dec(cut as nat);
    let y = crate::format::dec(page as nat);
    let a = "refusing to publish an unaligned cut "@.len() as int;
    let b = a + x.len() + " (page "@.len();
    assert(t.subrange(a, a + x.len()) =~= x);
    assert(t.subrange(b, b + y.len()) =~= y);
}

} // verus!
