//! The cross-rank reductions and gathers of a traced model: each records one
//! collective and answers the value it makes.

use vstd::prelude::*;

verus! {

/// A traced tensor type: symbolic rows, a width and a dtype byte.
#[derive(Clone, Copy, Debug, PartialEq, Eq, Structural)]
pub struct TensorType {
    pub rows: u64,
    pub width: u64,
    pub dtype: u8,
}

/// A recorded collective, over value ids.
#[derive(Clone, Copy, Debug, PartialEq, Eq, Structural)]
pub enum Collective {
    AllReduce { buf: u32, buf_out: u32 },
    AllGather { x: u32, y: u32 },
    ReduceScatter { x: u32, y: u32 },
}

/// A value of the trace.
#[derive(Clone, Copy, Debug, PartialEq, Eq, Structural)]
pub struct Traced {
    pub id: u32,
    pub ty: TensorType,
}

/// The trace under construction: the type of each value, by id, and the
/// collectives in order, each with the value it reads.
pub struct Recorder {
    pub values: Vec<TensorType>,
    pub records: Vec<(Collective, u32)>,
}

impl Recorder {
    /// The value is one of the trace.
    pub open spec fn holds(self, v: Traced) -> bool {
        v.id < self.values@.len() && self.values@[v.id as int] == v.ty
    }

    /// There is an id for one more value.
    pub open spec fn has_room(self) -> bool {
        self.values@.len() < u32::MAX
    }

    /// `next` is the trace with one more value, of type `ty`, and one more
    /// record.
    pub open spec fn grows(self, next: Recorder, ty: TensorType, record: Collective, reads: u32) -> bool {
        &&& next.values@ == self.values@.push(ty)
        &&& next.records@ == self.records@.push((record, reads))
    }

    fn fresh(&mut self, ty: TensorType) -> (v: Traced)
        requires
            old(self).has_room(),
        ensures
            v == (Traced { id: old(self).values@.len() as u32, ty }),
            final(self).values@ == old(self).values@.push(ty),
            final(self).records@ == old(self).records@,
    {
        let id = self.values.len() as u32;
        self.values.push(ty);
        Traced { id, ty }
    }
}

/// Sums `buf` across ranks: a fresh value of the same type.
pub fn all_reduce(rec: &mut Recorder, buf: &Traced) -> (out: Traced)
    requires
        old(rec).holds(*buf),
        old(rec).has_room(),
    ensures
        out == (Traced { id: old(rec).values@.len() as u32, ty: buf.ty }),
        old(rec).grows(
            *final(rec),
            buf.ty,
            Collective::AllReduce { buf: buf.id, buf_out: out.id },
            buf.id,
        ),
        final(rec).holds(out),
        final(rec).holds(*buf),
{
    let out = rec.fresh(buf.ty);
    rec.records.push((Collective::AllReduce { buf: buf.id, buf_out: out.id }, buf.id));
    out
}

/// The type of a gather over `world` ranks.
pub open spec fn gathered(ty: TensorType, world: u32) -> TensorType {
    TensorType { width: (ty.width * world) as u64, ..ty }
}

/// The type of a scatter over `world` ranks.
pub open spec fn scattered(ty: TensorType, world: u32) -> TensorType {
    TensorType { width: (ty.width as int / world as int) as u64, ..ty }
}

/// Concatenates each rank's `width`-shard into the full tensor:
/// `[rows, width]` on every rank becomes `[rows, width * world]`.
///
/// One row only: the collective joins whole buffers rank-major, which is a
/// width concatenation only at one row; a wider value is refused at the fire.
pub fn all_gather(rec: &mut Recorder, x: &Traced, world: u32) -> (y: Traced)
    requires
        old(rec).holds(*x),
        old(rec).has_room(),
        x.ty.width * world <= u64::MAX,
    ensures
        y == (Traced { id: old(rec).values@.len() as u32, ty: gathered(x.ty, world) }),
        old(rec).grows(*final(rec), y.ty, Collective::AllGather { x: x.id, y: y.id }, x.id),
        final(rec).holds(y),
        final(rec).holds(*x),
{
    let y = rec.fresh(
        TensorType { rows: x.ty.rows, width: x.ty.width * (world as u64), dtype: x.ty.dtype },
    );
    rec.records.push((Collective::AllGather { x: x.id, y: y.id }, x.id));
    y
}

/// Sums across ranks, leaving each rank its `width`-shard of the result:
/// `[rows, width]` becomes `[rows, width / world]`.
///
/// One row only, as with [`all_gather`]. The width must split evenly.
pub fn reduce_scatter(rec: &mut Recorder, x: &Traced, world: u32) -> (y: Traced)
    requires
        old(rec).holds(*x),
        old(rec).has_room(),
        world > 0,
        x.ty.width as int % world as int == 0,
    ensures
        y == (Traced { id: old(rec).values@.len() as u32, ty: scattered(x.ty, world) }),
        old(rec).grows(*final(rec), y.ty, Collective::ReduceScatter { x: x.id, y: y.id }, x.id),
        final(rec).holds(y),
        final(rec).holds(*x),
{
    let y = rec.fresh(
        TensorType { rows: x.ty.rows, width: x.ty.width / (world as u64), dtype: x.ty.dtype },
    );
    rec.records.push((Collective::ReduceScatter { x: x.id, y: y.id }, x.id));
    y
}

/// Scattering what was gathered over as many ranks gives back the type.
pub proof fn law_scatter_undoes_gather(ty: TensorType, world: u32)
    requires
        world > 0,
        ty.width * world <= u64::MAX,
    ensures
        gathered(ty, world).width as int % world as int == 0,
        scattered(gathered(ty, world), world) == ty,
{
    vstd::arithmetic::div_mod::lemma_mod_multiples_basic(ty.width as int, world as int);
    vstd::arithmetic::div_mod::lemma_div_multiples_vanish(ty.width as int, world as int);
    assert(world * ty.width == ty.width * world) by (nonlinear_arith);
}

/// A gather multiplies the width and a scatter divides it: one rank changes
/// nothing, two gathers are one over the product of their ranks, and nothing but
/// the width changes.
pub proof fn law_gathers_multiply(ty: TensorType, a: u32, b: u32)
    requires
        a > 0,
        b > 0,
        a * b <= u32::MAX,
        ty.width * (a * b) <= u64::MAX,
    ensures
        gathered(ty, 1) == ty,
        scattered(ty, 1) == ty,
        gathered(gathered(ty, a), b) == gathered(ty, (a * b) as u32),
        scattered(ty, a).width * a <= ty.width < (scattered(ty, a).width + 1) * a,
        (TensorType { width: ty.width, ..gathered(ty, a) }) == ty,
        (TensorType { width: ty.width, ..scattered(ty, a) }) == ty,
{
    let w = ty.width as int;
    assert(w * a <= w * (a * b)) by (nonlinear_arith)
        requires
            b > 0,
            a > 0,
            w >= 0,
    ;
    assert((w * a) * b == w * (a * b)) by (nonlinear_arith);
    let q = w / a as int;
    assert(q * a <= w && w < (q + 1) * a) by (nonlinear_arith)
        requires
            q == w / a as int,
            a > 0,
            w >= 0,
    ;
    assert(w / 1 == w);
    assert(0 <= q <= w) by (nonlinear_arith)
        requires
            q == w / a as int,
            a > 0,
            w >= 0,
    ;
}

/// A trace that grows keeps every value and record that it had, and has one more of
/// each behind them.
pub proof fn law_a_trace_only_grows(
    a: Recorder,
    b: Recorder,
    ty: TensorType,
    record: Collective,
    reads: u32,
    v: Traced,
)
    requires
        a.grows(b, ty, record, reads),
        a.has_room(),
    ensures
        a.holds(v) ==> b.holds(v),
        b.holds(Traced { id: a.values@.len() as u32, ty }),
        b.values@.len() == a.values@.len() + 1,
        b.records@.len() == a.records@.len() + 1,
        b.records@.last() == (record, reads),
        b.records@.drop_last() == a.records@,
{
    assert(b.records@.drop_last() =~= a.records@);
}

} // verus!
