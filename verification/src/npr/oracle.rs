//! The join oracle: the same tokens filled under layouts that must not change
//! what the model predicts behind them, and under some that must.

use vstd::prelude::*;
use vstd::string::*;

use crate::masks::{lemma_gap_row, lemma_prefix_row, make_ramp, ramp, rows_view, shows};
use crate::npr::schedule::{
    causal, causal_rows, hole_rows, holes, law_causal_rows_show_the_past,
    law_hole_rows_isolate_a_sibling, push_tokens,
};

verus! {

/// The sibling of the oracle.
pub const STEP_A: &'static str =
    "\nStep 1: the inner logarithm needs x - 2 > 0, so x > 2. Also log(x-2) < 2 means x < 102.";

/// What the oracle predicts behind.
pub const STEP_B: &'static str =
    "\nStep 2: the outer logarithm needs 2 - log(x - 2) > 0 and the denominator must be non-zero, so 2 - log(x-2) != 1.";

/// How many of a sibling's tokens make the short sibling.
pub fn short_len(n_a: usize) -> (r: usize)
    ensures
        r == (if n_a < 8 {
            n_a
        } else {
            8
        }),
{
    if n_a < 8 {
        n_a
    } else {
        8
    }
}

// ---------------------------------------------------------------------------
// Experiments
// ---------------------------------------------------------------------------

/// What is filled ahead of the tokens.
#[derive(Clone, Copy, Debug, PartialEq, Eq, Structural)]
pub enum Ahead {
    Nothing,
    Short,
    Whole,
}

/// One experiment: fill the tokens so, behind what is ahead; or graft some and fill
/// the rest as their tail.
pub enum Experiment {
    Fill { ahead: Ahead, positions: Option<Vec<u32>>, rows: Option<Vec<Vec<u32>>> },
    Graft { content: Vec<u32>, tail: Vec<u32> },
}

/// What an experiment holds.
pub enum ExperimentView {
    Fill(Ahead, Option<Seq<u32>>, Option<Seq<Seq<u32>>>),
    Graft(Seq<u32>, Seq<u32>),
}

impl View for Experiment {
    type V = ExperimentView;

    open spec fn view(&self) -> ExperimentView {
        match *self {
            Experiment::Fill { ahead, positions, rows } => ExperimentView::Fill(
                ahead,
                match positions {
                    Some(p) => Some(p@),
                    None => None,
                },
                match rows {
                    Some(r) => Some(rows_view(r@)),
                    None => None,
                },
            ),
            Experiment::Graft { content, tail } => ExperimentView::Graft(content@, tail@),
        }
    }
}

/// What the oracle is laid out by: the position and the slots of the fork, and the
/// lengths of the siblings and of the tokens.
pub struct Oracle {
    pub p_fork: u32,
    pub fork_slots: u32,
    pub n_a: u32,
    pub n_short: u32,
}

impl Oracle {
    /// The first slot behind what is ahead.
    pub open spec fn start(self, ahead: Ahead) -> int {
        self.fork_slots + match ahead {
            Ahead::Nothing => 0,
            Ahead::Short => self.n_short as int,
            Ahead::Whole => self.n_a as int,
        }
    }

    /// Every slot and position can be counted.
    pub open spec fn fits(self, n_b: nat) -> bool {
        &&& n_b > 0
        &&& self.p_fork + self.n_short + n_b <= u32::MAX
        &&& self.fork_slots + self.n_a + n_b <= u32::MAX
        &&& self.fork_slots + self.n_short + n_b <= u32::MAX
    }
}

/// The experiments, in order: the reference twice, explicit positions, causal rows,
/// causal rows in four runs, shifted positions, those behind a hidden short sibling,
/// the refill behind a short and a whole sibling, the graft, the graft of wrong
/// content, and the tokens behind a sibling that they see.
pub open spec fn plan(o: Oracle, b: Seq<u32>) -> Seq<ExperimentView> {
    let n = b.len();
    let natural = ramp(o.p_fork as int, n);
    let shifted = ramp(o.p_fork + o.n_short, n);
    let last = n - 1;
    seq![
        ExperimentView::Fill(Ahead::Nothing, None, None),
        ExperimentView::Fill(Ahead::Nothing, None, None),
        ExperimentView::Fill(Ahead::Nothing, Some(natural), None),
        ExperimentView::Fill(Ahead::Nothing, None, Some(causal(o.fork_slots, n))),
        ExperimentView::Fill(
            Ahead::Nothing,
            None,
            Some(holes(o.fork_slots, o.fork_slots, 0, n)),
        ),
        ExperimentView::Fill(Ahead::Nothing, Some(shifted), Some(causal(o.fork_slots, n))),
        ExperimentView::Fill(
            Ahead::Short,
            Some(shifted),
            Some(holes(o.fork_slots, (o.fork_slots + o.n_short) as u32, 0, n)),
        ),
        ExperimentView::Fill(
            Ahead::Short,
            Some(natural),
            Some(holes(o.fork_slots, (o.fork_slots + o.n_short) as u32, 0, n)),
        ),
        ExperimentView::Fill(
            Ahead::Whole,
            Some(natural),
            Some(holes(o.fork_slots, (o.fork_slots + o.n_a) as u32, 0, n)),
        ),
        ExperimentView::Graft(b.take(last), b.skip(last)),
        ExperimentView::Graft(b.take(last).reverse(), b.skip(last)),
        ExperimentView::Fill(Ahead::Whole, None, None),
    ]
}

/// What experiments hold.
pub open spec fn experiments_view(v: Seq<Experiment>) -> Seq<ExperimentView> {
    v.map_values(|x: Experiment| x@)
}

fn fill(ahead: Ahead, positions: Option<Vec<u32>>, rows: Option<Vec<Vec<u32>>>) -> (r: Experiment)
    ensures
        r@ == ExperimentView::Fill(
            ahead,
            match positions {
                Some(p) => Some(p@),
                None => None,
            },
            match rows {
                Some(r) => Some(rows_view(r@)),
                None => None,
            },
        ),
{
    Experiment::Fill { ahead, positions, rows }
}

/// The tokens in reverse.
fn reversed(v: &[u32]) -> (r: Vec<u32>)
    ensures
        r@ == v@.reverse(),
{
    let mut r: Vec<u32> = Vec::new();
    let mut i: usize = v.len();
    while i > 0
        invariant
            i <= v@.len(),
            r@.len() == v@.len() - i,
            forall|j: int| 0 <= j < r@.len() ==> r@[j] == v@[v@.len() - 1 - j],
        decreases i,
    {
        i -= 1;
        r.push(v[i]);
    }
    proof {
        assert(r@ =~= v@.reverse());
    }
    r
}

/// The experiments of the oracle on the tokens `b`.
pub fn experiments(o: &Oracle, b: &[u32]) -> (r: Vec<Experiment>)
    requires
        o.fits(b@.len()),
    ensures
        experiments_view(r@) == plan(*o, b@),
{
    let n = b.len();
    let slots = o.fork_slots;
    let short: u32 = slots + o.n_short;
    let whole: u32 = slots + o.n_a;
    let from: u32 = o.p_fork + o.n_short;
    let head = vstd::slice::slice_subrange(b, 0, n - 1);
    let last = vstd::slice::slice_subrange(b, n - 1, n);
    let mut content: Vec<u32> = Vec::new();
    push_tokens(&mut content, head);
    let mut tail: Vec<u32> = Vec::new();
    push_tokens(&mut tail, last);
    let mut tail2: Vec<u32> = Vec::new();
    push_tokens(&mut tail2, last);
    proof {
        assert(head@ =~= b@.take(n - 1));
        assert(content@ =~= b@.take(n - 1));
        assert(tail@ =~= b@.skip(n - 1));
        assert(tail2@ =~= b@.skip(n - 1));
    }
    let mut r: Vec<Experiment> = Vec::new();
    r.push(fill(Ahead::Nothing, None, None));
    r.push(fill(Ahead::Nothing, None, None));
    r.push(fill(Ahead::Nothing, Some(make_ramp(o.p_fork, n)), None));
    r.push(fill(Ahead::Nothing, None, Some(causal_rows(slots, n))));
    r.push(fill(Ahead::Nothing, None, Some(hole_rows(slots, slots, 0, n))));
    r.push(fill(Ahead::Nothing, Some(make_ramp(from, n)), Some(causal_rows(slots, n))));
    r.push(fill(Ahead::Short, Some(make_ramp(from, n)), Some(hole_rows(slots, short, 0, n))));
    r.push(fill(Ahead::Short, Some(make_ramp(o.p_fork, n)), Some(hole_rows(slots, short, 0, n))));
    r.push(fill(Ahead::Whole, Some(make_ramp(o.p_fork, n)), Some(hole_rows(slots, whole, 0, n))));
    r.push(Experiment::Graft { content, tail });
    r.push(Experiment::Graft { content: reversed(head), tail: tail2 });
    r.push(fill(Ahead::Whole, None, None));
    proof {
        assert(experiments_view(r@) =~= plan(*o, b@));
    }
    r
}

/// Two experiments to compare, by their places, under a name: whether they must
/// predict alike, or must not.
#[derive(Clone, Copy, Debug, PartialEq, Eq)]
pub struct Comparison {
    pub name: &'static str,
    pub left: usize,
    pub right: usize,
    pub alike: bool,
}

/// What a comparison holds.
pub open spec fn comparison_is(c: Comparison, name: Seq<char>, left: int, right: int, alike: bool) -> bool {
    c.name@ == name && c.left == left && c.right == right && c.alike == alike
}

/// The comparisons of the oracle, in order. All but the last two must be alike.
pub fn comparisons() -> (r: Vec<Comparison>)
    ensures
        r@.len() == 10,
        comparison_is(r@[0], "noise_floor"@, 0, 1, true),
        comparison_is(r@[1], "positions"@, 0, 2, true),
        comparison_is(r@[2], "mask"@, 0, 3, true),
        comparison_is(r@[3], "mask_4run"@, 0, 4, true),
        comparison_is(r@[4], "hole_natural"@, 5, 6, true),
        comparison_is(r@[5], "refill_short"@, 0, 7, true),
        comparison_is(r@[6], "refill"@, 0, 8, true),
        comparison_is(r@[7], "adopt"@, 0, 9, true),
        comparison_is(r@[8], "adopt_control"@, 0, 10, false),
        comparison_is(r@[9], "control"@, 0, 11, false),
{
    let mut r: Vec<Comparison> = Vec::new();
    r.push(Comparison { name: "noise_floor", left: 0, right: 1, alike: true });
    r.push(Comparison { name: "positions", left: 0, right: 2, alike: true });
    r.push(Comparison { name: "mask", left: 0, right: 3, alike: true });
    r.push(Comparison { name: "mask_4run", left: 0, right: 4, alike: true });
    r.push(Comparison { name: "hole_natural", left: 5, right: 6, alike: true });
    r.push(Comparison { name: "refill_short", left: 0, right: 7, alike: true });
    r.push(Comparison { name: "refill", left: 0, right: 8, alike: true });
    r.push(Comparison { name: "adopt", left: 0, right: 9, alike: true });
    r.push(Comparison { name: "adopt_control", left: 0, right: 10, alike: false });
    r.push(Comparison { name: "control", left: 0, right: 11, alike: false });
    r
}

/// Whether the oracle passes: `near[i]` tells that comparison `i` came out within
/// tolerance, `far[i]` that it came out beyond it.
pub fn passes(near: &[bool], far: &[bool]) -> (r: bool)
    requires
        near@.len() == 10,
        far@.len() == 10,
    ensures
        r == ((forall|i: int| 0 <= i < 8 ==> #[trigger] near@[i]) && far@[8] && far@[9]),
{
    let mut i: usize = 0;
    while i < 8
        invariant
            i <= 8,
            near@.len() == 10,
            forall|j: int| 0 <= j < i ==> #[trigger] near@[j],
        decreases 8 - i,
    {
        if !near[i] {
            return false;
        }
        i += 1;
    }
    far[8] && far[9]
}

/// A four-run row with an empty hole shows exactly what the causal row shows.
pub proof fn law_an_empty_hole_is_causal(fork_slots: u32, n: nat, i: int, slot: int)
    requires
        0 <= i < n,
        fork_slots + n <= u32::MAX,
        0 <= slot,
    ensures
        shows(holes(fork_slots, fork_slots, 0, n)[i], slot) <==> shows(
            causal(fork_slots, n)[i],
            slot,
        ),
{
    lemma_gap_row(fork_slots, 0, (i + 1) as u32, slot);
    lemma_prefix_row((fork_slots + i + 1) as u32, slot);
}

/// Whatever is hidden ahead, a refilled token sees the prefix and the tokens up to
/// itself: that is why these layouts must predict like the reference.
pub proof fn law_hidden_layouts_show_the_same_tokens(o: Oracle, b: Seq<u32>, k: int, slot: int)
    requires
        o.fits(b.len()),
        0 <= k < b.len(),
        0 <= slot,
    ensures
        forall|x: int|
            #![trigger plan(o, b)[x]]
            3 <= x < 9 ==> (match plan(o, b)[x] {
                ExperimentView::Fill(ahead, _, Some(rows)) => shows(rows[k], slot) <==> (slot
                    < o.fork_slots || o.start(ahead) <= slot <= o.start(ahead) + k),
                _ => false,
            }),
{
    let n = b.len();
    law_causal_rows_show_the_past(o.fork_slots, n, k, slot);
    law_hole_rows_isolate_a_sibling(o.fork_slots, o.fork_slots, 0, n, k, slot);
    law_hole_rows_isolate_a_sibling(
        o.fork_slots,
        (o.fork_slots + o.n_short) as u32,
        0,
        n,
        k,
        slot,
    );
    law_hole_rows_isolate_a_sibling(o.fork_slots, (o.fork_slots + o.n_a) as u32, 0, n, k, slot);
}

// ---------------------------------------------------------------------------
// Warming up
// ---------------------------------------------------------------------------

/// `v` is strictly ascending.
pub open spec fn ascending(v: Seq<usize>) -> bool {
    forall|i: int, j: int| 0 <= i < j < v.len() ==> v[i] < v[j]
}

fn insert_length(v: &mut Vec<usize>, n: usize)
    requires
        ascending(old(v)@),
        forall|i: int| 0 <= i < old(v)@.len() ==> #[trigger] old(v)@[i] > 0,
    ensures
        ascending(final(v)@),
        forall|i: int| 0 <= i < final(v)@.len() ==> #[trigger] final(v)@[i] > 0,
        forall|x: usize|
            final(v)@.contains(x) <==> (old(v)@.contains(x) || (x == n && n > 0)),
{
    if n == 0 {
        return ;
    }
    let mut i: usize = 0;
    while i < v.len() && v[i] < n
        invariant
            i <= v@.len(),
            v@ == old(v)@,
            forall|j: int| 0 <= j < i ==> #[trigger] v@[j] < n,
        decreases v.len() - i,
    {
        i += 1;
    }
    if i < v.len() && v[i] == n {
        proof {
            assert(v@.contains(n)) by {
                assert(v@[i as int] == n);
            }
        }
        return ;
    }
    let ghost before = v@;
    v.insert(i, n);
    proof {
        assert(v@[i as int] == n);
        assert forall|x: usize| v@.contains(x) <==> (before.contains(x) || x == n) by {
            if before.contains(x) {
                let j = choose|j: int| 0 <= j < before.len() && before[j] == x;
                if j < i {
                    assert(v@[j] == x);
                } else {
                    assert(v@[j + 1] == x);
                }
            }
            if v@.contains(x) && x != n {
                let j = choose|j: int| 0 <= j < v@.len() && v@[j] == x;
                if j < i {
                    assert(before[j] == x);
                } else {
                    assert(before[j - 1] == x);
                }
            }
        }
    }
}

/// The distinct fill lengths of the oracle, ascending and without zero: each
/// is run once before anything is measured.
pub fn warm_lengths(n_b: usize, n_a: usize, n_short: usize) -> (r: Vec<usize>)
    ensures
        ascending(r@),
        forall|x: usize|
            r@.contains(x) <==> (x > 0 && (x == n_b || x == n_a || x == n_short || x == n_b - 1 || x
                == 1)),
{
    let mut r: Vec<usize> = Vec::new();
    insert_length(&mut r, n_b);
    insert_length(&mut r, n_a);
    insert_length(&mut r, n_short);
    insert_length(&mut r, n_b.saturating_sub(1));
    insert_length(&mut r, 1);
    r
}

/// The tokens `b` over and over, `m` of them.
pub fn warm_fill(b: &[u32], m: usize) -> (r: Vec<u32>)
    requires
        b@.len() > 0,
    ensures
        r@ == Seq::new(m as nat, |i: int| b@[i % (b@.len() as int)]),
{
    let mut r: Vec<u32> = Vec::new();
    let mut i: usize = 0;
    while i < m
        invariant
            i <= m,
            b@.len() > 0,
            r@.len() == i,
            forall|j: int| 0 <= j < i ==> #[trigger] r@[j] == b@[j % (b@.len() as int)],
        decreases m - i,
    {
        r.push(b[i % b.len()]);
        i += 1;
    }
    proof {
        assert(r@ =~= Seq::new(m as nat, |i: int| b@[i % (b@.len() as int)]));
    }
    r
}

/// The experiments keep their tokens and change one thing at a time. The natural
/// positions go on from the fork, the shifted ones from behind the short sibling; a
/// sibling that is hidden is hidden from every row, which shows what is in front of
/// the fork and the tokens up to its own; a graft keeps the last token, and its
/// control has the others the other way round.
pub proof fn law_experiments_change_one_thing(o: Oracle, b: Seq<u32>, i: int, slot: int)
    requires
        o.fits(b.len()),
        0 <= i < b.len(),
        0 <= slot,
    ensures
        ({
            let p = plan(o, b);
            let alone = |k: int| match p[k] {
                ExperimentView::Fill(_, _, Some(rows)) => shows(rows[i], slot) <==> slot
                    <= o.fork_slots + i,
                _ => false,
            };
            let behind = |k: int, n: int| match p[k] {
                ExperimentView::Fill(_, _, Some(rows)) => shows(rows[i], slot) <==> slot < o.fork_slots
                    || (o.fork_slots + n <= slot && slot <= o.fork_slots + n + i),
                _ => false,
            };
            let placed = |k: int, at: int| match p[k] {
                ExperimentView::Fill(_, Some(positions), _) => positions.len() == b.len()
                    && positions[i] == at + i,
                _ => false,
            };
            &&& p.len() == 12
            &&& p[0] == p[1] && p[0] == ExperimentView::Fill(Ahead::Nothing, None, None)
            &&& placed(2, o.p_fork as int) && placed(7, o.p_fork as int) && placed(8, o.p_fork as int)
            &&& placed(5, o.p_fork + o.n_short) && placed(6, o.p_fork + o.n_short)
            &&& alone(3) && alone(4) && alone(5)
            &&& behind(6, o.n_short as int) && behind(7, o.n_short as int) && behind(8, o.n_a as int)
            &&& p[6] is Fill && p[6]->Fill_0 == Ahead::Short && p[7]->Fill_0 == Ahead::Short
                && p[8]->Fill_0 == Ahead::Whole && p[11]->Fill_0 == Ahead::Whole
            &&& match (p[9], p[10]) {
                (ExperimentView::Graft(c, t), ExperimentView::Graft(d, u)) => c + t == b && u == t
                    && t.len() == 1 && d.len() == c.len() && (i < c.len() ==> d[i] == c[c.len() - 1 - i]),
                _ => false,
            }
        }),
{
    let n = b.len();
    let last = n - 1;
    assert(b.take(last) + b.skip(last) =~= b);
    lemma_prefix_row((o.fork_slots + i + 1) as u32, slot);
    lemma_gap_row(o.fork_slots, 0, (i + 1) as u32, slot);
    lemma_gap_row(o.fork_slots, o.n_short as u32, (i + 1) as u32, slot);
    lemma_gap_row(o.fork_slots, o.n_a as u32, (i + 1) as u32, slot);
}

/// What is ahead moves the first slot by its own length, and a comparison is of two
/// experiments under a name.
pub proof fn law_what_is_ahead_moves_the_start(
    o: Oracle,
    c: Comparison,
    name: Seq<char>,
    left: int,
    right: int,
    alike: bool,
)
    ensures
        o.start(Ahead::Nothing) == o.fork_slots,
        o.start(Ahead::Short) == o.fork_slots + o.n_short,
        o.start(Ahead::Whole) == o.fork_slots + o.n_a,
        comparison_is(c, name, left, right, alike) ==> c.name@ == name && c.left == left && c.right
            == right && c.alike == alike,
{
}

} // verus!
