//! Attention-mask rows as binary run lengths: alternating runs of hidden and
//! visible slots, starting with a hidden run (which may be empty).

use vstd::prelude::*;

verus! {

/// Whether a row of run lengths shows `slot`, the first run being of class
/// `shown`.
pub open spec fn run_shows(row: Seq<u32>, slot: int, shown: bool) -> bool
    decreases row.len(),
{
    if row.len() == 0 {
        false
    } else if slot < row[0] {
        shown
    } else {
        run_shows(row.skip(1), slot - row[0], !shown)
    }
}

/// Whether a mask row shows `slot`.
pub open spec fn shows(row: Seq<u32>, slot: int) -> bool {
    run_shows(row, slot, false)
}

/// A two-run row: the first `a` slots.
pub open spec fn prefix_row(a: u32) -> Seq<u32> {
    seq![0u32, a]
}

/// A four-run row: `a` shown, `gap` hidden, `b` shown.
pub open spec fn gap_row(a: u32, gap: u32, b: u32) -> Seq<u32> {
    seq![0u32, a, gap, b]
}

/// A prefix row shows exactly the first `a` slots.
pub proof fn lemma_prefix_row(a: u32, slot: int)
    requires
        0 <= slot,
    ensures
        shows(prefix_row(a), slot) <==> slot < a,
{
    let row = prefix_row(a);
    reveal_with_fuel(run_shows, 4);
    assert(row.skip(1)[0] == a);
    assert(row.skip(1).skip(1).len() == 0);
}

/// A gap row shows its head, hides the gap, and shows the run behind it.
pub proof fn lemma_gap_row(a: u32, gap: u32, b: u32, slot: int)
    requires
        0 <= slot,
    ensures
        shows(gap_row(a, gap, b), slot) <==> (slot < a || a + gap <= slot < a + gap + b),
{
    let row = gap_row(a, gap, b);
    reveal_with_fuel(run_shows, 6);
    assert(row.skip(1)[0] == a);
    assert(row.skip(1).skip(1)[0] == gap);
    assert(row.skip(1).skip(1).skip(1)[0] == b);
    assert(row.skip(1).skip(1).skip(1).skip(1).len() == 0);
}

/// The contents of mask rows.
pub open spec fn rows_view(rows: Seq<Vec<u32>>) -> Seq<Seq<u32>> {
    rows.map_values(|r: Vec<u32>| r@)
}

/// The row of the first `a` slots.
pub fn make_prefix_row(a: u32) -> (r: Vec<u32>)
    ensures
        r@ == prefix_row(a),
{
    let mut r: Vec<u32> = Vec::new();
    r.push(0);
    r.push(a);
    proof {
        assert(r@ =~= prefix_row(a));
    }
    r
}

/// The row that shows `a` slots, hides `gap` and shows `b`.
pub fn make_gap_row(a: u32, gap: u32, b: u32) -> (r: Vec<u32>)
    ensures
        r@ == gap_row(a, gap, b),
{
    let mut r: Vec<u32> = Vec::new();
    r.push(0);
    r.push(a);
    r.push(gap);
    r.push(b);
    proof {
        assert(r@ =~= gap_row(a, gap, b));
    }
    r
}

/// The numbers from `start`, `n` of them.
pub open spec fn ramp(start: int, n: nat) -> Seq<u32> {
    Seq::new(n, |i: int| (start + i) as u32)
}

/// The numbers `start, start + 1, ...`, `n` of them.
pub fn make_ramp(start: u32, n: usize) -> (r: Vec<u32>)
    requires
        start + n <= u32::MAX,
    ensures
        r@ == ramp(start as int, n as nat),
{
    let mut r: Vec<u32> = Vec::new();
    let mut i: usize = 0;
    while i < n
        invariant
            i <= n,
            start + n <= u32::MAX,
            r@.len() == i,
            forall|j: int| 0 <= j < i ==> r@[j] == start + j,
        decreases n - i,
    {
        r.push(start + i as u32);
        i += 1;
    }
    proof {
        assert(r@ =~= ramp(start as int, n as nat));
    }
    r
}

} // verus!
