//! The streamed form of a fused region: one kernel run as a table of
//! dispatches, each over a grid of `(element blocks x lanes)`.
//!
//! The barrier between ops is a dispatch boundary. Every element-independent
//! op runs across the whole grid; a reduction runs as one dispatch per pair of
//! levels of its fixed tree; an op whose walk carries state keeps a single
//! threadgroup. A run of direct ops of one shape shares one loop, and a run of
//! puts shares one dispatch.

use vstd::prelude::*;
use vstd::string::*;

use crate::format::{
    dec, dec_of, fill, filled, lookup, push_dec, push_fill, push_upper_hex, upper_hex, Env,
};
use crate::metal::wide::{
    dtype_of, operand, resolve, wide_text, direct_wide, AliasTable, Dimension, Intrinsic, OpTag, OpView, Predicate, Slots,
    SlotsView, ValueType, wire_dtype,
};

verus! {

/// How one step of a streamed region is dispatched.
#[derive(Clone, Copy, Debug, PartialEq, Eq, Structural)]
pub enum StepKind {
    /// Element-independent: the whole grid, strided.
    Wide,
    /// A walk with state, or a fused threadgroup pattern: one threadgroup.
    Single,
    /// A sum, max or min: one dispatch per pair of levels of the 32-wide tree.
    Reduce,
    /// An argmax over f32: a partial pass over the grid, then a final pass
    /// over the partials in one threadgroup.
    Argmax,
}

/// The byte a kind is packed as.
pub open spec fn kind_code(kind: StepKind) -> u32 {
    match kind {
        StepKind::Wide => 0,
        StepKind::Single => 1,
        StepKind::Reduce => 2,
        StepKind::Argmax => 3,
    }
}

/// The kind a byte stands for.
pub open spec fn kind_of_code(code: int) -> Option<StepKind> {
    if code == 0 {
        Some(StepKind::Wide)
    } else if code == 1 {
        Some(StepKind::Single)
    } else if code == 2 {
        Some(StepKind::Reduce)
    } else if code == 3 {
        Some(StepKind::Argmax)
    } else {
        None
    }
}

/// A packed step: the low 24 bits of the node above the kind's byte.
pub open spec fn packed_step(node: u32, kind: StepKind) -> u32 {
    ((node as int % 0x1000000) * 256 + kind_code(kind) as int) as u32
}

/// Packs a step. The node's low 24 bits are kept.
pub fn streamed_step(node: u32, kind: StepKind) -> (step: u32)
    ensures
        step == packed_step(node, kind),
        step as int == (node as int % 0x1000000) * 256 + kind_code(kind) as int,
{
    let code: u32 = match kind {
        StepKind::Wide => 0,
        StepKind::Single => 1,
        StepKind::Reduce => 2,
        StepKind::Argmax => 3,
    };
    assert((node << 8) | code == (node % 0x1000000) * 256 + code) by (bit_vector)
        requires
            code < 4,
    ;
    (node << 8) | code
}

/// The op a packed step runs.
pub fn step_node(step: u32) -> (node: u32)
    ensures
        node as int == step as int / 256,
{
    assert(step >> 8 == step / 256) by (bit_vector);
    step >> 8
}

/// The kind a packed step is; `None` for a byte that no step carries.
pub fn step_kind(step: u32) -> (kind: Option<StepKind>)
    ensures
        kind == kind_of_code(step as int % 256),
{
    assert(step & 0xFF == step % 256) by (bit_vector);
    match step & 0xFF {
        0 => Some(StepKind::Wide),
        1 => Some(StepKind::Single),
        2 => Some(StepKind::Reduce),
        3 => Some(StepKind::Argmax),
        _ => None,
    }
}

/// Packing a step and taking it apart gives back its node and kind, for every
/// node of 24 bits.
pub proof fn law_step_round_trips(node: u32, kind: StepKind)
    requires
        node < 0x1000000,
    ensures
        packed_step(node, kind) as int / 256 == node as int,
        kind_of_code(packed_step(node, kind) as int % 256) == Some(kind),
{
}

/// Levels of a 32-wide reduction until one value is left.
pub open spec fn tree_levels(count: nat) -> nat
    decreases count,
{
    if count <= 1 {
        0
    } else {
        1 + tree_levels((count + 31) / 32)
    }
}

/// Levels of the tree over a row of `last` elements, at least one.
pub open spec fn levels(last: nat) -> nat {
    if tree_levels(last) == 0 {
        1
    } else {
        tree_levels(last)
    }
}

/// 32 to the power `n`.
pub open spec fn pow32(n: nat) -> nat
    decreases n,
{
    if n == 0 {
        1
    } else {
        32 * pow32((n - 1) as nat)
    }
}

/// The tree over a row of `last` elements reaches one value: `levels` folds of
/// 32 cover the row, and where there is more than one level, one fold fewer
/// does not.
pub proof fn law_levels_cover_the_row(last: nat)
    ensures
        last <= pow32(levels(last)),
        levels(last) > 1 ==> pow32((levels(last) - 1) as nat) < last,
{
    lemma_tree_levels(last);
    assert(pow32(1) == 32) by {
        reveal_with_fuel(pow32, 2);
    }
}

proof fn lemma_tree_levels(count: nat)
    ensures
        count <= pow32(tree_levels(count)),
        tree_levels(count) > 0 ==> pow32((tree_levels(count) - 1) as nat) < count,
    decreases count,
{
    if count > 1 {
        let next = (count + 31) / 32;
        lemma_tree_levels(next);
        let t = tree_levels(next);
        assert(tree_levels(count) == 1 + t);
        assert(pow32((1 + t) as nat) == 32 * pow32(t));
        if t > 0 {
            assert(pow32(t) == 32 * pow32((t - 1) as nat));
            assert(pow32((t - 1) as nat) < next);
            assert(32 * pow32((t - 1) as nat) <= 32 * (next - 1)) by (nonlinear_arith)
                requires
                    pow32((t - 1) as nat) < next,
            ;
        }
    }
}

/// Levels of the 32-wide reduction tree over a row of `last` elements, until
/// one value is left; at least one (a row of one element still writes its
/// result).
pub fn reduce_levels(last: u32) -> (r: u32)
    ensures
        r == levels(last as nat),
        1 <= r <= 32,
{
    let mut count: u32 = last;
    let mut n: u32 = 0;
    proof {
        lemma_levels_bound(last as nat);
    }
    while count > 1
        invariant
            tree_levels(last as nat) == n + tree_levels(count as nat),
            tree_levels(last as nat) <= 32,
        decreases count,
    {
        let next: u32 = count / 32 + (if count % 32 == 0 {
            0u32
        } else {
            1u32
        });
        assert(next == (count + 31) / 32);
        count = next;
        n = n + 1;
    }
    if n == 0 {
        1
    } else {
        n
    }
}

proof fn lemma_levels_bound(count: nat)
    requires
        count <= u32::MAX,
    ensures
        tree_levels(count) <= 32,
{
    reveal_with_fuel(tree_levels, 9);
}

/// The first level each reduce dispatch starts at: `0, 2, 4, ...` up to the
/// tree's depth.
pub fn reduce_dispatch_levels(last: u32) -> (r: Vec<u32>)
    ensures
        r@.len() == (levels(last as nat) + 1) / 2,
        forall|i: int| 0 <= i < r@.len() ==> r@[i] == 2 * i,
{
    let depth = reduce_levels(last);
    let mut r: Vec<u32> = Vec::new();
    let mut at: u32 = 0;
    while at < depth
        invariant
            depth == levels(last as nat),
            depth <= 32,
            at == 2 * r@.len(),
            at <= depth + 1,
            forall|i: int| 0 <= i < r@.len() ==> r@[i] == 2 * i,
        decreases depth + 1 - at,
    {
        r.push(at);
        at = at + 2;
    }
    r
}

/// How an op runs, from its tag, the pivot's predicate and the class of the
/// argmax operand.
pub open spec fn kind_of_op(tag: OpTag, pred: Predicate, argmax_over_f32: bool) -> StepKind {
    match tag {
        OpTag::ReduceSum | OpTag::ReduceMax | OpTag::ReduceMin => StepKind::Reduce,
        OpTag::ReduceArgmax => if argmax_over_f32 {
            StepKind::Argmax
        } else {
            StepKind::Single
        },
        OpTag::Cumsum | OpTag::Cumprod | OpTag::SortDesc | OpTag::TopK | OpTag::Matmul
        | OpTag::ScatterAdd | OpTag::ScatterSet => StepKind::Single,
        OpTag::PivotThreshold => if pred == Predicate::ProbGe {
            StepKind::Wide
        } else {
            StepKind::Single
        },
        _ => StepKind::Wide,
    }
}

/// How an op runs in the streamed form. Everything the runtime strides without
/// a barrier is `Wide`; the walks that carry state are `Single`; the fixed-tree
/// reductions and the f32 argmax have their own multi-dispatch shapes.
pub fn op_step_kind(tag: OpTag, pred: Predicate, argmax_over_f32: bool) -> (r: StepKind)
    ensures
        r == kind_of_op(tag, pred, argmax_over_f32),
{
    match tag {
        OpTag::ReduceSum | OpTag::ReduceMax | OpTag::ReduceMin => StepKind::Reduce,
        OpTag::ReduceArgmax => if argmax_over_f32 {
            StepKind::Argmax
        } else {
            StepKind::Single
        },
        OpTag::Cumsum | OpTag::Cumprod | OpTag::SortDesc | OpTag::TopK | OpTag::Matmul
        | OpTag::ScatterAdd | OpTag::ScatterSet => StepKind::Single,
        OpTag::PivotThreshold => match pred {
            Predicate::ProbGe => StepKind::Wide,
            _ => StepKind::Single,
        },
        _ => StepKind::Wide,
    }
}

// ---------------------------------------------------------------------------
// The stage
// ---------------------------------------------------------------------------

/// One op of a stage with the value its first result is, and whether its
/// result covers its first operand element for element.
pub struct StageOp {
    pub op: OpView,
    pub base: u32,
    pub covers: bool,
}

/// A region of a stage, with what the rest of the compiler has decided of it.
pub struct Stage {
    /// The region keeps the library ABI.
    pub library_valid: bool,
    /// Every intrinsic of the region can be bound by the lane record.
    pub intrinsics_bindable: bool,
    pub ops: Vec<StageOp>,
    pub value_types: Vec<ValueType>,
    /// The region's ops, in order.
    pub nodes: Vec<usize>,
    /// The values that leave the region.
    pub escapes: Vec<u32>,
    /// How many channels the stage uses.
    pub channel_count: u32,
}

/// What the shared emitters wrote for one op: the pointer expressions of its
/// operands, the gather of the intrinsic it reads, and the fused argmax over
/// the logits that feed it.
pub struct OpText {
    pub slots: Slots,
    pub gather: String,
    pub argmax: String,
}

/// The texts and limits every streamed kernel shares.
pub struct Runtime {
    pub template: String,
    pub preamble: String,
    pub region_threads: u32,
    pub threads_exceeded: u32,
}

/// Why a region has no streamed kernel.
#[derive(Clone, Copy, Debug, PartialEq, Eq, Structural)]
pub enum EmitError {
    LibraryRegionAbiInvalid,
    IntrinsicUnbindable,
    RegionNodeOutOfRange,
}

/// Whether `x` stands in `v`.
pub fn listed(v: &[u32], x: u32) -> (r: bool)
    ensures
        r == v@.contains(x),
{
    let mut i: usize = 0;
    while i < v.len()
        invariant
            i <= v.len(),
            forall|j: int| 0 <= j < i ==> v@[j] != x,
        decreases v.len() - i,
    {
        if v[i] == x {
            return true;
        }
        i += 1;
    }
    false
}

impl Stage {
    /// A reshape that only renames its operand: one operand, one result that
    /// stays inside the region and covers the operand.
    pub open spec fn is_view(self, node: int) -> bool {
        &&& 0 <= node < self.ops@.len()
        &&& self.ops@[node].op.tag == OpTag::Reshape
        &&& self.ops@[node].op.results == 1
        &&& self.ops@[node].op.args@.len() == 1
        &&& !self.escapes@.contains(self.ops@[node].base)
        &&& self.ops@[node].covers
    }

    /// The aliases that the first `k` ops of the region make.
    pub open spec fn aliases(self, k: int) -> Map<u32, u32>
        decreases k,
    {
        if k <= 0 {
            Map::empty()
        } else {
            let node = self.nodes@[k - 1] as int;
            let before = self.aliases(k - 1);
            if self.is_view(node) {
                before.insert(
                    self.ops@[node].base,
                    resolve(before, self.ops@[node].op.args@[0]),
                )
            } else {
                before
            }
        }
    }

    /// The aliases of the whole region.
    pub open spec fn alias(self) -> Map<u32, u32> {
        self.aliases(self.nodes@.len() as int)
    }

    /// How many of the first `n` operands of an op are `value`.
    pub open spec fn uses_in(self, node: int, n: int, value: u32) -> nat
        decreases n,
    {
        if n <= 0 {
            0
        } else {
            self.uses_in(node, n - 1, value) + (if resolve(
                self.alias(),
                self.ops@[node].op.args@[n - 1],
            ) == value {
                1nat
            } else {
                0nat
            })
        }
    }

    /// How many operands of the first `k` ops of the region are `value`, view
    /// reshapes left out.
    pub open spec fn uses(self, k: int, value: u32) -> nat
        decreases k,
    {
        if k <= 0 {
            0
        } else {
            let node = self.nodes@[k - 1] as int;
            self.uses(k - 1, value) + (if node < self.ops@.len() && !self.is_view(node) {
                self.uses_in(node, self.ops@[node].op.args@.len() as int, value)
            } else {
                0nat
            })
        }
    }

    /// An op that reads the logits into `value`.
    pub open spec fn reads_logits(self, node: int, value: u32) -> bool {
        &&& 0 <= node < self.ops@.len()
        &&& self.ops@[node].base == value
        &&& self.ops@[node].op.tag == OpTag::IntrinsicVal
        &&& (self.ops@[node].op.intr == Intrinsic::Logits || self.ops@[node].op.intr
            == Intrinsic::MtpLogits)
    }

    /// The first op of the region, from position `k` on, that reads the logits
    /// into `value`.
    pub open spec fn logits_producer(self, k: int, value: u32) -> Option<usize>
        decreases self.nodes@.len() - k,
    {
        if k < 0 || k >= self.nodes@.len() {
            None
        } else if self.reads_logits(self.nodes@[k] as int, value) {
            Some(self.nodes@[k])
        } else {
            self.logits_producer(k + 1, value)
        }
    }

    /// The logits gather that an argmax is fused with: the argmax is the only
    /// reader of logits that stay inside the region.
    pub open spec fn fused_with(self, node: int) -> Option<usize> {
        if 0 <= node < self.ops@.len() && self.ops@[node].op.tag == OpTag::ReduceArgmax
            && self.ops@[node].op.args@.len() == 1 {
            let value = resolve(self.alias(), self.ops@[node].op.args@[0]);
            if self.uses(self.nodes@.len() as int, value) == 1 && !self.escapes@.contains(value) {
                self.logits_producer(0, value)
            } else {
                None
            }
        } else {
            None
        }
    }

    /// A gather that a fused argmax of the first `k` ops took over.
    pub open spec fn elided_by(self, k: int, node: usize) -> bool
        decreases k,
    {
        k > 0 && (self.fused_with(self.nodes@[k - 1] as int) == Some(node) || self.elided_by(
            k - 1,
            node,
        ))
    }

    /// An op that emits nothing of its own.
    pub open spec fn skipped(self, node: usize) -> bool {
        self.elided_by(self.nodes@.len() as int, node) || self.is_view(node as int)
    }

    /// A region node that no step can carry.
    pub open spec fn out_of_range(self, node: usize) -> bool {
        node >= self.ops@.len() || (!self.skipped(node) && node > u32::MAX)
    }

    /// Whether an op is a view reshape.
    fn view_reshape(&self, node: usize) -> (r: bool)
        ensures
            r == self.is_view(node as int),
    {
        if node >= self.ops.len() {
            return false;
        }
        let o = &self.ops[node];
        let reshape = match o.op.tag {
            OpTag::Reshape => true,
            _ => false,
        };
        reshape && o.op.results == 1 && o.op.args.len() == 1 && !listed(
            self.escapes.as_slice(),
            o.base,
        ) && o.covers
    }

    /// The region's aliases: each view reshape's result stands for its operand.
    pub fn alias_table(&self) -> (r: AliasTable)
        ensures
            r@ == self.alias(),
    {
        let mut table = AliasTable::new();
        let mut k: usize = 0;
        while k < self.nodes.len()
            invariant
                k <= self.nodes@.len(),
                table@ == self.aliases(k as int),
            decreases self.nodes.len() - k,
        {
            let node = self.nodes[k];
            if self.view_reshape(node) {
                table.elide(self.ops[node].base, self.ops[node].op.args[0]);
            }
            k += 1;
        }
        table
    }

    /// Whether exactly one operand of the region is `value`.
    fn used_once(&self, alias: &AliasTable, value: u32) -> (r: bool)
        requires
            alias@ == self.alias(),
        ensures
            r == (self.uses(self.nodes@.len() as int, value) == 1),
    {
        let mut seen: bool = false;
        let mut k: usize = 0;
        while k < self.nodes.len()
            invariant
                k <= self.nodes@.len(),
                alias@ == self.alias(),
                self.uses(k as int, value) == (if seen {
                    1nat
                } else {
                    0nat
                }),
            decreases self.nodes.len() - k,
        {
            let node = self.nodes[k];
            if node < self.ops.len() && !self.view_reshape(node) {
                let args = &self.ops[node].op.args;
                let mut n: usize = 0;
                while n < args.len()
                    invariant
                        n <= args@.len(),
                        k < self.nodes@.len(),
                        node == self.nodes@[k as int],
                        node < self.ops@.len(),
                        !self.is_view(node as int),
                        *args == self.ops@[node as int].op.args,
                        alias@ == self.alias(),
                        self.uses(k as int, value) + self.uses_in(node as int, n as int, value) == (
                        if seen {
                            1nat
                        } else {
                            0nat
                        }),
                    decreases args.len() - n,
                {
                    if alias.resolve(args[n]) == value {
                        if seen {
                            proof {
                                self.lemma_uses_in_grow(node as int, n + 1, args@.len() as int, value);
                                self.lemma_uses_grow(k + 1, self.nodes@.len() as int, value);
                            }
                            return false;
                        }
                        seen = true;
                    }
                    n += 1;
                }
            }
            k += 1;
        }
        seen
    }

    proof fn lemma_uses_in_grow(self, node: int, a: int, b: int, value: u32)
        requires
            a <= b,
        ensures
            self.uses_in(node, a, value) <= self.uses_in(node, b, value),
        decreases b - a,
    {
        if a < b {
            self.lemma_uses_in_grow(node, a, b - 1, value);
        }
    }

    proof fn lemma_uses_grow(self, a: int, b: int, value: u32)
        requires
            0 <= a <= b,
        ensures
            self.uses(a, value) <= self.uses(b, value),
        decreases b - a,
    {
        if a < b {
            self.lemma_uses_grow(a, b - 1, value);
        }
    }

    fn find_producer(&self, value: u32) -> (r: Option<usize>)
        ensures
            r == self.logits_producer(0, value),
    {
        let mut k: usize = 0;
        while k < self.nodes.len()
            invariant
                k <= self.nodes@.len(),
                self.logits_producer(0, value) == self.logits_producer(k as int, value),
            decreases self.nodes.len() - k,
        {
            let node = self.nodes[k];
            if node < self.ops.len() && self.ops[node].base == value {
                match self.ops[node].op.tag {
                    OpTag::IntrinsicVal => match self.ops[node].op.intr {
                        Intrinsic::Logits | Intrinsic::MtpLogits => {
                            return Some(node);
                        },
                        _ => {},
                    },
                    _ => {},
                }
            }
            k += 1;
        }
        None
    }

    /// The logits gather that the argmax at `node` is fused with.
    pub fn fused_producer(&self, alias: &AliasTable, node: usize) -> (r: Option<usize>)
        requires
            alias@ == self.alias(),
        ensures
            r == self.fused_with(node as int),
    {
        if node >= self.ops.len() {
            return None;
        }
        match self.ops[node].op.tag {
            OpTag::ReduceArgmax => {},
            _ => {
                return None;
            },
        }
        if self.ops[node].op.args.len() != 1 {
            return None;
        }
        let value = alias.resolve(self.ops[node].op.args[0]);
        if !self.used_once(alias, value) || listed(self.escapes.as_slice(), value) {
            return None;
        }
        self.find_producer(value)
    }

    fn is_elided(&self, alias: &AliasTable, node: usize) -> (r: bool)
        requires
            alias@ == self.alias(),
        ensures
            r == self.elided_by(self.nodes@.len() as int, node),
    {
        let mut k: usize = self.nodes.len();
        while k > 0
            invariant
                k <= self.nodes@.len(),
                alias@ == self.alias(),
                self.elided_by(self.nodes@.len() as int, node) == self.elided_by(k as int, node),
            decreases k,
        {
            match self.fused_producer(alias, self.nodes[k - 1]) {
                Some(p) => {
                    if p == node {
                        return true;
                    }
                },
                None => {},
            }
            k -= 1;
        }
        false
    }
}

// ---------------------------------------------------------------------------
// What each op becomes
// ---------------------------------------------------------------------------

/// What an op becomes, before any grouping.
pub enum Body {
    /// A fused threadgroup pattern (the logits argmax).
    Single(String),
    /// A gather, strided over the grid.
    Gather(String),
    /// A direct element-independent op: declarations, then per-element code.
    /// Two ops whose results have one shape, unit dimensions dropped, share a
    /// loop. `remaps` says that it reads an operand at an index other than its
    /// own.
    Direct {
        pre: String,
        inner: String,
        len: Vec<Dimension>,
        reads: Vec<u32>,
        writes: u32,
        remaps: bool,
    },
    /// A generic op through the runtime, strided by the grid.
    Generic(String),
    /// A put through the runtime, with its flag.
    Put(String),
    /// A stateful walk on one threadgroup.
    Walk(String),
    Reduce(String),
    Argmax(String),
}

/// The contents of a [`Body`].
pub enum BodyView {
    Single(Seq<char>),
    Gather(Seq<char>),
    Direct {
        pre: Seq<char>,
        inner: Seq<char>,
        len: Seq<Dimension>,
        reads: Seq<u32>,
        writes: u32,
        remaps: bool,
    },
    Generic(Seq<char>),
    Put(Seq<char>),
    Walk(Seq<char>),
    Reduce(Seq<char>),
    Argmax(Seq<char>),
}

impl View for Body {
    type V = BodyView;

    open spec fn view(&self) -> BodyView {
        match *self {
            Body::Single(t) => BodyView::Single(t@),
            Body::Gather(t) => BodyView::Gather(t@),
            Body::Direct { pre, inner, len, reads, writes, remaps } => BodyView::Direct {
                pre: pre@,
                inner: inner@,
                len: len@,
                reads: reads@,
                writes,
                remaps,
            },
            Body::Generic(t) => BodyView::Generic(t@),
            Body::Put(t) => BodyView::Put(t@),
            Body::Walk(t) => BodyView::Walk(t@),
            Body::Reduce(t) => BodyView::Reduce(t@),
            Body::Argmax(t) => BodyView::Argmax(t@),
        }
    }
}

/// The runtime call of an op strided by the grid.
pub const CALL_PART: &'static str = "    ptir_m1_execute_part($tu, status, descriptors, lane_params + $N, $a, $b, $c, $o, $d, temporary, m4_gtid, m4_gthreads);\n";

/// The runtime call of a put strided by the grid, and the flag it sets.
pub const CALL_PUT: &'static str = "    ptir_m1_execute_part($tu, status, descriptors, lane_params + $N, $a, $b, $c, $o, $d, temporary, m4_gtid, m4_gthreads);\n    if (m4_gtid == 0) pending_flags[pending_index_$h] = 1;\n";

/// The runtime call of a walk on one threadgroup.
pub const CALL_WALK: &'static str = "    if (m4_group.x != 0) return;\n    ptir_m1_execute_mt($tu, status, descriptors, lane_params + $N, $a, $b, $c, $o, $d, temporary, m3_tid, m3_threads, m3_tgbuf);\n";

/// The call of a tree reduction.
pub const CALL_REDUCE: &'static str = "    m4_reduce_two_levels($tu, $a, $o, temporary, descriptors[lane_params[$N].a0], step.level, m4_group.x, m4_groups.x, m3_tid, m3_threads, m3_tgbuf);\n";

/// The two calls of an f32 argmax.
pub const CALL_ARGMAX: &'static str = "    if (step.level == 0u) m4_argmax_partial($a, temporary, descriptors[lane_params[$N].a0], m4_group.x, m4_groups.x, m3_tid, m3_threads, m3_tgbuf);\n    else { if (m4_group.x != 0) return; m4_argmax_final(temporary, $o, descriptors[lane_params[$N].a0], step.groups, m3_tid, m3_threads, m3_tgbuf); }\n";

/// What the placeholders of the call templates stand for.
pub open spec fn call_env(op: OpView, node: nat, s: SlotsView) -> Map<char, Seq<char>> {
    Map::<char, Seq<char>>::empty().insert('t', dec(op.code as nat)).insert('N', dec(node)).insert(
        'a',
        s.a0,
    ).insert('b', s.a1).insert('c', s.a2).insert('o', s.o0).insert('d', s.o1).insert(
        'h',
        dec(op.chan as nat),
    )
}

fn call_env_of(op: &OpView, node: usize, s: &Slots) -> (env: Env)
    ensures
        env@ == call_env(*op, node as nat, s@),
{
    let mut env = Env::new();
    env.bind('t', dec_of(op.code as u64).as_str());
    env.bind('N', dec_of(node as u64).as_str());
    env.bind('a', s.a0.as_str());
    env.bind('b', s.a1.as_str());
    env.bind('c', s.a2.as_str());
    env.bind('o', s.o0.as_str());
    env.bind('d', s.o1.as_str());
    env.bind('h', dec_of(op.chan as u64).as_str());
    env
}

/// An op's pointers, with a channel op led to its channel's cell and another
/// intrinsic to the logits.
pub open spec fn routed(op: OpView, s: SlotsView) -> SlotsView {
    match op.tag {
        OpTag::ChanTake | OpTag::ChanRead => SlotsView {
            a0: "current_"@ + dec(op.chan as nat),
            ..s
        },
        OpTag::ChanPut => SlotsView { o0: "pending_"@ + dec(op.chan as nat), ..s },
        OpTag::IntrinsicVal => SlotsView {
            a0: "reinterpret_cast<const device uchar*>(logits)"@,
            ..s
        },
        _ => s,
    }
}

fn routed_of(op: &OpView, s: &Slots) -> (r: Slots)
    ensures
        r@ == routed(*op, s@),
{
    let mut a0 = s.a0.clone();
    let mut o0 = s.o0.clone();
    match op.tag {
        OpTag::ChanTake | OpTag::ChanRead => {
            a0 = crate::format::numbered("current_", op.chan as u64);
        },
        OpTag::ChanPut => {
            o0 = crate::format::numbered("pending_", op.chan as u64);
        },
        OpTag::IntrinsicVal => {
            a0 = "reinterpret_cast<const device uchar*>(logits)".to_owned();
        },
        _ => {},
    }
    Slots { a0, a1: s.a1.clone(), a2: s.a2.clone(), o0, o1: s.o1.clone() }
}

/// The dimensions that are not the constant 1.
pub open spec fn shape_key(dims: Seq<Dimension>) -> Seq<Dimension> {
    dims.filter(|d: Dimension| d != Dimension::Static(1))
}

fn shape_key_of(dims: &[Dimension]) -> (r: Vec<Dimension>)
    ensures
        r@ == shape_key(dims@),
{
    let mut r: Vec<Dimension> = Vec::new();
    let mut i: usize = 0;
    proof {
        reveal(Seq::filter);
        assert(dims@.take(0) =~= Seq::<Dimension>::empty());
    }
    while i < dims.len()
        invariant
            i <= dims@.len(),
            r@ == shape_key(dims@.take(i as int)),
        decreases dims.len() - i,
    {
        proof {
            reveal(Seq::filter);
            assert(dims@.take(i + 1).drop_last() =~= dims@.take(i as int));
        }
        if dims[i] != Dimension::Static(1) {
            r.push(dims[i]);
        }
        i += 1;
    }
    proof {
        assert(dims@.take(i as int) =~= dims@);
    }
    r
}

/// The shape key of a value, empty for a value outside the stage.
pub open spec fn value_key(types: Seq<ValueType>, value: u32) -> Seq<Dimension> {
    if value < types.len() {
        shape_key(types[value as int].dims@)
    } else {
        Seq::empty()
    }
}

/// The operands of an op, aliases resolved.
pub open spec fn resolved_args(op: OpView, alias: Map<u32, u32>) -> Seq<u32> {
    Seq::new(op.args@.len(), |k: int| resolve(alias, op.args@[k]))
}

fn resolved_args_of(op: &OpView, alias: &AliasTable) -> (r: Vec<u32>)
    ensures
        r@ == resolved_args(*op, alias@),
{
    let mut r: Vec<u32> = Vec::new();
    let mut k: usize = 0;
    while k < op.args.len()
        invariant
            k <= op.args@.len(),
            r@.len() == k,
            forall|j: int| 0 <= j < k ==> r@[j] == resolve(alias@, op.args@[j]),
        decreases op.args.len() - k,
    {
        r.push(alias.resolve(op.args[k]));
        k += 1;
    }
    proof {
        assert(r@ =~= resolved_args(*op, alias@));
    }
    r
}

/// The operand of an argmax is f32.
pub open spec fn argmax_f32(op: OpView, alias: Map<u32, u32>, types: Seq<ValueType>) -> bool {
    match operand(op, alias, 0) {
        Some(v) => dtype_of(types, v) == Some(0u8),
        None => false,
    }
}

/// What an op of the region becomes, given the texts the shared emitters wrote
/// for it.
pub open spec fn body_of(stage: Stage, text: OpText, node: usize) -> BodyView {
    let o = stage.ops@[node as int];
    let op = o.op;
    let types = stage.value_types@;
    if stage.fused_with(node as int) is Some {
        BodyView::Single(text.argmax@)
    } else if op.tag == OpTag::IntrinsicVal && op.intr != Intrinsic::Other {
        BodyView::Gather(text.gather@)
    } else {
        let s = routed(op, text.slots@);
        let env = call_env(op, node as nat, s);
        match kind_of_op(op.tag, op.pred, argmax_f32(op, stage.alias(), types)) {
            StepKind::Wide => if op.tag == OpTag::ChanPut {
                BodyView::Put(fill(CALL_PUT@, env))
            } else {
                match wide_text(op, node as nat, o.base, s, types, stage.alias()) {
                    Some(w) => BodyView::Direct {
                        pre: w.0,
                        inner: w.1,
                        len: value_key(types, o.base),
                        reads: resolved_args(op, stage.alias()),
                        writes: o.base,
                        remaps: op.tag == OpTag::Broadcast,
                    },
                    None => BodyView::Generic(fill(CALL_PART@, env)),
                }
            },
            StepKind::Single => BodyView::Walk(fill(CALL_WALK@, env)),
            StepKind::Reduce => BodyView::Reduce(fill(CALL_REDUCE@, env)),
            StepKind::Argmax => BodyView::Argmax(fill(CALL_ARGMAX@, env)),
        }
    }
}

/// What an op of the region becomes.
pub fn plan_op(stage: &Stage, alias: &AliasTable, text: &OpText, node: usize) -> (r: Body)
    requires
        node < stage.ops@.len(),
        alias@ == stage.alias(),
    ensures
        r@ == body_of(*stage, *text, node),
{
    let o = &stage.ops[node];
    let op = &o.op;
    if stage.fused_producer(alias, node).is_some() {
        return Body::Single(text.argmax.clone());
    }
    match op.tag {
        OpTag::IntrinsicVal => match op.intr {
            Intrinsic::Other => {},
            _ => {
                return Body::Gather(text.gather.clone());
            },
        },
        _ => {},
    }
    let s = routed_of(op, &text.slots);
    let env = call_env_of(op, node, &s);
    let over_f32 = if op.args.len() > 0 {
        wire_dtype(stage.value_types.as_slice(), alias.resolve(op.args[0])) == Some(0u8)
    } else {
        false
    };
    match op_step_kind(op.tag, op.pred, over_f32) {
        StepKind::Wide => {
            match op.tag {
                OpTag::ChanPut => {
                    return Body::Put(filled(CALL_PUT, &env));
                },
                _ => {},
            }
            match direct_wide(op, node, o.base, &s, stage.value_types.as_slice(), alias) {
                Some((pre, inner)) => {
                    let len = if (o.base as usize) < stage.value_types.len() {
                        shape_key_of(stage.value_types[o.base as usize].dims.as_slice())
                    } else {
                        Vec::new()
                    };
                    let remaps = match op.tag {
                        OpTag::Broadcast => true,
                        _ => false,
                    };
                    Body::Direct {
                        pre,
                        inner,
                        len,
                        reads: resolved_args_of(op, alias),
                        writes: o.base,
                        remaps,
                    }
                },
                None => Body::Generic(filled(CALL_PART, &env)),
            }
        },
        StepKind::Single => Body::Walk(filled(CALL_WALK, &env)),
        StepKind::Reduce => Body::Reduce(filled(CALL_REDUCE, &env)),
        StepKind::Argmax => Body::Argmax(filled(CALL_ARGMAX, &env)),
    }
}

/// One op of the plan: its node and what it becomes.
pub struct Planned {
    pub node: u32,
    pub body: Body,
}

impl View for Planned {
    type V = (u32, BodyView);

    open spec fn view(&self) -> (u32, BodyView) {
        (self.node, self.body@)
    }
}

/// The contents of a plan.
pub open spec fn plan_view(p: Seq<Planned>) -> Seq<(u32, BodyView)> {
    p.map_values(|x: Planned| x@)
}

/// The plan of the first `k` ops of the region.
pub open spec fn plan_of(stage: Stage, texts: Seq<OpText>, k: int) -> Seq<(u32, BodyView)>
    decreases k,
{
    if k <= 0 {
        Seq::empty()
    } else {
        let node = stage.nodes@[k - 1];
        let before = plan_of(stage, texts, k - 1);
        if stage.skipped(node) {
            before
        } else {
            before.push((node as u32, body_of(stage, texts[node as int], node)))
        }
    }
}

/// The plan of a region, in order, with elided ops left out.
pub fn plan_region(stage: &Stage, texts: &[OpText]) -> (r: Result<Vec<Planned>, EmitError>)
    requires
        texts@.len() == stage.ops@.len(),
    ensures
        match r {
            Ok(p) => plan_view(p@) == plan_of(*stage, texts@, stage.nodes@.len() as int)
                && forall|k: int|
                0 <= k < stage.nodes@.len() ==> !stage.out_of_range(#[trigger] stage.nodes@[k]),
            Err(e) => e == EmitError::RegionNodeOutOfRange && exists|k: int|
                0 <= k < stage.nodes@.len() && stage.out_of_range(#[trigger] stage.nodes@[k]),
        },
{
    let alias = stage.alias_table();
    let mut planned: Vec<Planned> = Vec::new();
    let mut k: usize = 0;
    proof {
        assert(plan_view(planned@) =~= Seq::empty());
    }
    while k < stage.nodes.len()
        invariant
            k <= stage.nodes@.len(),
            texts@.len() == stage.ops@.len(),
            alias@ == stage.alias(),
            plan_view(planned@) == plan_of(*stage, texts@, k as int),
            forall|j: int| 0 <= j < k ==> !stage.out_of_range(#[trigger] stage.nodes@[j]),
        decreases stage.nodes.len() - k,
    {
        let node = stage.nodes[k];
        if node >= stage.ops.len() {
            proof {
                assert(stage.out_of_range(stage.nodes@[k as int]));
            }
            return Err(EmitError::RegionNodeOutOfRange);
        }
        if !(stage.is_elided(&alias, node) || stage.view_reshape(node)) {
            if node > 0xffff_ffff {
                proof {
                    assert(stage.out_of_range(stage.nodes@[k as int]));
                }
                return Err(EmitError::RegionNodeOutOfRange);
            }
            let body = plan_op(stage, &alias, &texts[node], node);
            let ghost before = planned@;
            planned.push(Planned { node: node as u32, body });
            proof {
                assert(plan_view(planned@) =~= plan_view(before).push((node as u32, body@)));
            }
        }
        k += 1;
    }
    Ok(planned)
}

// ---------------------------------------------------------------------------
// Grouping
// ---------------------------------------------------------------------------

/// The value a direct op writes.
pub open spec fn written(b: BodyView) -> Option<u32> {
    match b {
        BodyView::Direct { writes, .. } => Some(writes),
        _ => None,
    }
}

/// Some op of `p` from `at` up to `k` writes a value of `reads`.
pub open spec fn reads_written(
    p: Seq<(u32, BodyView)>,
    at: int,
    k: int,
    reads: Seq<u32>,
) -> bool {
    exists|j: int, m: int|
        at <= j < k && 0 <= m < reads.len() && #[trigger] written(p[j].1) == Some(
            #[trigger] reads[m],
        )
}

/// Op `k` shares the dispatch of the run that starts at `at`: a direct op of
/// the run's shape that does not read, at another index, what the run writes;
/// or a put behind puts.
pub open spec fn joins(p: Seq<(u32, BodyView)>, at: int, k: int) -> bool {
    match p[at].1 {
        BodyView::Direct { len, .. } => match p[k].1 {
            BodyView::Direct { len: other, reads, remaps, .. } => other == len && !(remaps
                && reads_written(p, at, k, reads)),
            _ => false,
        },
        BodyView::Put(_) => p[k].1 is Put,
        _ => false,
    }
}

/// The end of the run that starts at `at` and is known up to `k`.
pub open spec fn run_from(p: Seq<(u32, BodyView)>, at: int, k: int) -> int
    decreases p.len() - k,
{
    if k < p.len() && joins(p, at, k) {
        run_from(p, at, k + 1)
    } else {
        k
    }
}

/// The end of the run that starts at `at`.
pub open spec fn run_end(p: Seq<(u32, BodyView)>, at: int) -> int {
    run_from(p, at, at + 1)
}

proof fn lemma_run_from(p: Seq<(u32, BodyView)>, at: int, k: int)
    requires
        0 <= at < k <= p.len(),
    ensures
        k <= run_from(p, at, k) <= p.len(),
        forall|j: int| k <= j < run_from(p, at, k) ==> joins(p, at, j),
        run_from(p, at, k) < p.len() ==> !joins(p, at, run_from(p, at, k)),
    decreases p.len() - k,
{
    if k < p.len() && joins(p, at, k) {
        lemma_run_from(p, at, k + 1);
    }
}

/// A shared loop is safe and maximal: every op behind the first of a run joins
/// it, so a direct run has one shape and no member reads at another index what
/// an earlier member wrote; and the op behind the run does not join it.
pub proof fn law_runs_are_safe_and_maximal(p: Seq<(u32, BodyView)>, at: int)
    requires
        0 <= at < p.len(),
    ensures
        at < run_end(p, at) <= p.len(),
        forall|k: int| at < k < run_end(p, at) ==> joins(p, at, k),
        run_end(p, at) < p.len() ==> !joins(p, at, run_end(p, at)),
{
    lemma_run_from(p, at, at + 1);
}

/// The declarations an op adds in front of its loop.
pub open spec fn pre_of(b: BodyView) -> Seq<char> {
    match b {
        BodyView::Direct { pre, .. } => pre,
        _ => Seq::empty(),
    }
}

/// The code an op adds inside its dispatch.
pub open spec fn code_of(b: BodyView) -> Seq<char> {
    match b {
        BodyView::Direct { inner, .. } => inner,
        BodyView::Single(t) | BodyView::Gather(t) | BodyView::Generic(t) | BodyView::Put(t)
        | BodyView::Walk(t) | BodyView::Reduce(t) | BodyView::Argmax(t) => t,
    }
}

/// The declarations of the ops from `a` up to `b`.
pub open spec fn pres(p: Seq<(u32, BodyView)>, a: int, b: int) -> Seq<char>
    decreases b - a,
{
    if b <= a {
        Seq::empty()
    } else {
        pres(p, a, b - 1) + pre_of(p[b - 1].1)
    }
}

/// The code of the ops from `a` up to `b`.
pub open spec fn codes(p: Seq<(u32, BodyView)>, a: int, b: int) -> Seq<char>
    decreases b - a,
{
    if b <= a {
        Seq::empty()
    } else {
        codes(p, a, b - 1) + code_of(p[b - 1].1)
    }
}

/// The dispatch kind of a run that starts with `b`.
pub open spec fn run_kind(b: BodyView) -> StepKind {
    match b {
        BodyView::Single(_) | BodyView::Walk(_) => StepKind::Single,
        BodyView::Reduce(_) => StepKind::Reduce,
        BodyView::Argmax(_) => StepKind::Argmax,
        _ => StepKind::Wide,
    }
}

/// The kernel text of the run from `at` up to `end`: one case, which for a
/// direct run is one loop to the run's element count.
pub open spec fn case_text(p: Seq<(u32, BodyView)>, at: int, end: int) -> Seq<char> {
    let first = dec(p[at].0 as nat);
    if p[at].1 is Direct {
        "  case "@ + first + "u: {\n"@ + pres(p, at, end)
            + "    for (uint i = m4_gtid; i < m4_n_"@ + first + "; i += m4_gthreads) {\n"@ + codes(
            p,
            at,
            end,
        ) + "    }\n    return;\n  }\n"@
    } else {
        "  case "@ + first + "u: {\n"@ + codes(p, at, end) + "    return;\n  }\n"@
    }
}

/// The kernel text of the plan from `at` on.
pub open spec fn runs_text(p: Seq<(u32, BodyView)>, at: int) -> Seq<char>
    decreases p.len() - at,
    via runs_text_decreases
{
    if at < 0 || at >= p.len() {
        Seq::empty()
    } else {
        case_text(p, at, run_end(p, at)) + runs_text(p, run_end(p, at))
    }
}

#[via_fn]
proof fn runs_text_decreases(p: Seq<(u32, BodyView)>, at: int) {
    if 0 <= at < p.len() {
        lemma_run_from(p, at, at + 1);
    }
}

/// The dispatch table of the plan from `at` on: one step per run, carrying the
/// node of the run's first op.
pub open spec fn runs_steps(p: Seq<(u32, BodyView)>, at: int) -> Seq<u32>
    decreases p.len() - at,
    via runs_steps_decreases
{
    if at < 0 || at >= p.len() {
        Seq::empty()
    } else {
        seq![packed_step(p[at].0, run_kind(p[at].1))] + runs_steps(p, run_end(p, at))
    }
}

#[via_fn]
proof fn runs_steps_decreases(p: Seq<(u32, BodyView)>, at: int) {
    if 0 <= at < p.len() {
        lemma_run_from(p, at, at + 1);
    }
}

fn shares_read(produced: &[u32], reads: &[u32]) -> (r: bool)
    ensures
        r == exists|m: int| 0 <= m < reads@.len() && produced@.contains(#[trigger] reads@[m]),
{
    let mut m: usize = 0;
    while m < reads.len()
        invariant
            m <= reads@.len(),
            forall|j: int| 0 <= j < m ==> !produced@.contains(#[trigger] reads@[j]),
        decreases reads.len() - m,
    {
        if listed(produced, reads[m]) {
            return true;
        }
        m += 1;
    }
    false
}

fn same_dims(a: &[Dimension], b: &[Dimension]) -> (r: bool)
    ensures
        r == (a@ == b@),
{
    if a.len() != b.len() {
        return false;
    }
    let mut i: usize = 0;
    while i < a.len()
        invariant
            i <= a@.len(),
            a@.len() == b@.len(),
            forall|j: int| 0 <= j < i ==> a@[j] == b@[j],
        decreases a.len() - i,
    {
        if a[i] != b[i] {
            return false;
        }
        i += 1;
    }
    proof {
        assert(a@ =~= b@);
    }
    true
}

/// The end of the run that starts at `at`.
pub fn find_run_end(planned: &[Planned], at: usize) -> (end: usize)
    requires
        at < planned@.len(),
    ensures
        end == run_end(plan_view(planned@), at as int),
        at < end <= planned@.len(),
{
    let ghost p = plan_view(planned@);
    assert(at < planned.len());
    let mut end: usize = at + 1;
    match &planned[at].body {
        Body::Direct { len, writes, .. } => {
            let mut produced: Vec<u32> = Vec::new();
            produced.push(*writes);
            proof {
                assert(p[at as int].1 == planned@[at as int].body@);
            }
            while end < planned.len()
                invariant
                    p == plan_view(planned@),
                    at < end <= planned@.len(),
                    planned@[at as int].body is Direct,
                    *len == planned@[at as int].body->Direct_len,
                    p[at as int].1 == planned@[at as int].body@,
                    run_end(p, at as int) == run_from(p, at as int, end as int),
                    produced@.len() == end - at,
                    forall|j: int|
                        at <= j < end ==> #[trigger] written(p[j].1) == Some(produced@[j - at]),
                decreases planned.len() - end,
            {
                let ghost e = end as int;
                proof {
                    assert(p[e].1 == planned@[e].body@);
                }
                match &planned[end].body {
                    Body::Direct { len: other, reads, writes: w, remaps, .. } => {
                        let shared = shares_read(produced.as_slice(), reads.as_slice());
                        proof {
                            if shared {
                                let m = choose|m: int|
                                    0 <= m < reads@.len() && produced@.contains(#[trigger] reads@[m]);
                                let j = choose|j: int|
                                    0 <= j < produced@.len() && produced@[j] == reads@[m];
                                assert(written(p[j + at].1) == Some(reads@[m]));
                                assert(reads_written(p, at as int, e, reads@));
                            } else {
                                if reads_written(p, at as int, e, reads@) {
                                    let (j, m) = choose|j: int, m: int|
                                        at <= j < e && 0 <= m < reads@.len() && #[trigger] written(
                                            p[j].1,
                                        ) == Some(#[trigger] reads@[m]);
                                    assert(produced@[j - at] == reads@[m]);
                                    assert(produced@.contains(reads@[m]));
                                }
                            }
                        }
                        if !same_dims(other.as_slice(), len.as_slice()) || (*remaps && shared) {
                            proof {
                                assert(!joins(p, at as int, e));
                            }
                            return end;
                        }
                        proof {
                            assert(joins(p, at as int, e));
                        }
                        let ghost before = produced@;
                        produced.push(*w);
                        end += 1;
                        proof {
                            assert forall|j: int| at <= j < end implies #[trigger] written(p[j].1)
                                == Some(produced@[j - at]) by {
                                if j < e {
                                    assert(produced@[j - at] == before[j - at]);
                                }
                            }
                        }
                    },
                    _ => {
                        return end;
                    },
                }
            }
        },
        Body::Put(_) => {
            proof {
                assert(p[at as int].1 is Put);
            }
            while end < planned.len()
                invariant
                    p == plan_view(planned@),
                    at < end <= planned@.len(),
                    p[at as int].1 is Put,
                    run_end(p, at as int) == run_from(p, at as int, end as int),
                decreases planned.len() - end,
            {
                proof {
                    assert(p[end as int].1 == planned@[end as int].body@);
                }
                match &planned[end].body {
                    Body::Put(_) => {
                        end += 1;
                    },
                    _ => {
                        return end;
                    },
                }
            }
        },
        _ => {
            proof {
                assert(p[at as int].1 == planned@[at as int].body@);
                assert(!(p[at as int].1 is Direct) && !(p[at as int].1 is Put));
            }
        },
    }
    end
}

fn push_pres(out: &mut String, planned: &[Planned], at: usize, end: usize)
    requires
        at <= end <= planned@.len(),
    ensures
        final(out)@ == old(out)@ + pres(plan_view(planned@), at as int, end as int),
{
    let ghost p = plan_view(planned@);
    let mut k: usize = at;
    proof {
        assert(out@ + Seq::<char>::empty() =~= out@);
    }
    while k < end
        invariant
            p == plan_view(planned@),
            at <= k <= end <= planned@.len(),
            out@ == old(out)@ + pres(p, at as int, k as int),
        decreases end - k,
    {
        let ghost before = out@;
        proof {
            assert(p[k as int].1 == planned@[k as int].body@);
        }
        match &planned[k].body {
            Body::Direct { pre, .. } => {
                out.append(pre.as_str());
            },
            _ => {
                proof {
                    assert(before + Seq::<char>::empty() =~= before);
                }
            },
        }
        k += 1;
        proof {
            assert(old(out)@ + (pres(p, at as int, k - 1) + pre_of(p[k - 1].1)) =~= (old(out)@ + pres(
                p,
                at as int,
                k - 1,
            )) + pre_of(p[k - 1].1));
        }
    }
}

fn push_codes(out: &mut String, planned: &[Planned], at: usize, end: usize)
    requires
        at <= end <= planned@.len(),
    ensures
        final(out)@ == old(out)@ + codes(plan_view(planned@), at as int, end as int),
{
    let ghost p = plan_view(planned@);
    let mut k: usize = at;
    proof {
        assert(out@ + Seq::<char>::empty() =~= out@);
    }
    while k < end
        invariant
            p == plan_view(planned@),
            at <= k <= end <= planned@.len(),
            out@ == old(out)@ + codes(p, at as int, k as int),
        decreases end - k,
    {
        proof {
            assert(p[k as int].1 == planned@[k as int].body@);
        }
        match &planned[k].body {
            Body::Direct { inner, .. } => {
                out.append(inner.as_str());
            },
            Body::Single(t) | Body::Gather(t) | Body::Generic(t) | Body::Put(t) | Body::Walk(t)
            | Body::Reduce(t) | Body::Argmax(t) => {
                out.append(t.as_str());
            },
        }
        k += 1;
        proof {
            assert(old(out)@ + (codes(p, at as int, k - 1) + code_of(p[k - 1].1)) =~= (old(out)@
                + codes(p, at as int, k - 1)) + code_of(p[k - 1].1));
        }
    }
}

fn push_case(out: &mut String, planned: &[Planned], at: usize, end: usize)
    requires
        at < end <= planned@.len(),
    ensures
        final(out)@ == old(out)@ + case_text(plan_view(planned@), at as int, end as int),
{
    let ghost p = plan_view(planned@);
    proof {
        assert(p[at as int] == planned@[at as int]@);
    }
    let node = planned[at].node as u64;
    out.append("  case ");
    push_dec(out, node);
    out.append("u: {\n");
    let direct = match &planned[at].body {
        Body::Direct { .. } => true,
        _ => false,
    };
    if direct {
        push_pres(out, planned, at, end);
        out.append("    for (uint i = m4_gtid; i < m4_n_");
        push_dec(out, node);
        out.append("; i += m4_gthreads) {\n");
        push_codes(out, planned, at, end);
        out.append("    }\n    return;\n  }\n");
    } else {
        push_codes(out, planned, at, end);
        out.append("    return;\n  }\n");
    }
    proof {
        assert(out@ =~= old(out)@ + case_text(p, at as int, end as int));
    }
}

/// Appends the kernel text of a plan's runs and answers their dispatch table.
pub fn emit_runs(out: &mut String, planned: &[Planned]) -> (steps: Vec<u32>)
    ensures
        final(out)@ == old(out)@ + runs_text(plan_view(planned@), 0),
        steps@ == runs_steps(plan_view(planned@), 0),
{
    let ghost p = plan_view(planned@);
    let mut steps: Vec<u32> = Vec::new();
    let mut at: usize = 0;
    proof {
        assert(steps@ + runs_steps(p, 0) =~= runs_steps(p, 0));
    }
    while at < planned.len()
        invariant
            p == plan_view(planned@),
            at <= planned@.len(),
            old(out)@ + runs_text(p, 0) == out@ + runs_text(p, at as int),
            runs_steps(p, 0) == steps@ + runs_steps(p, at as int),
        decreases planned.len() - at,
    {
        let end = find_run_end(planned, at);
        let ghost before = out@;
        let ghost taken = steps@;
        push_case(out, planned, at, end);
        let kind = match &planned[at].body {
            Body::Single(_) | Body::Walk(_) => StepKind::Single,
            Body::Reduce(_) => StepKind::Reduce,
            Body::Argmax(_) => StepKind::Argmax,
            _ => StepKind::Wide,
        };
        steps.push(streamed_step(planned[at].node, kind));
        proof {
            assert(p[at as int] == planned@[at as int]@);
            assert(before + (case_text(p, at as int, end as int) + runs_text(p, end as int))
                =~= (before + case_text(p, at as int, end as int)) + runs_text(p, end as int));
            let s = packed_step(p[at as int].0, run_kind(p[at as int].1));
            assert(taken + (seq![s] + runs_steps(p, end as int)) =~= taken.push(s) + runs_steps(
                p,
                end as int,
            ));
        }
        at = end;
    }
    proof {
        assert(out@ + Seq::<char>::empty() =~= out@);
        assert(steps@ + Seq::<u32>::empty() =~= steps@);
    }
    steps
}

// ---------------------------------------------------------------------------
// The kernel
// ---------------------------------------------------------------------------

/// The step record the engine hands the kernel, one per dispatch.
pub const STEP_STRUCT: &'static str = "struct M4Step {\n  uint index;\n  uint level;\n  uint groups;\n  uint reserved;\n};\n";

/// The kernel's signature and lane set-up: `$F` is its name, `$T` the widest
/// threadgroup and `$X` the fault of a wider one.
pub const KERNEL_HEAD: &'static str = "kernel void $F(\n    const device uchar* lane_bytes [[buffer(0)]],\n    const device M1ValueDesc* all_descriptors [[buffer(1)]],\n    const device M1OpParams* params [[buffer(2)]],\n    const device uint* offsets [[buffer(3)]],\n    device uchar* all_scratch [[buffer(4)]],\n    const device M3GroupLayout* layout [[buffer(5)]],\n    const device uint* channel_bindings [[buffer(6)]],\n    device uchar* pending_flags [[buffer(7)]],\n    const device uint* lane_indices [[buffer(8)]],\n    const device M3RowMeta* all_row_meta [[buffer(9)]],\n    const device uint* row_indices [[buffer(10)]],\n    constant M4Step& step [[buffer(11)]],\n    uint2 m4_group [[threadgroup_position_in_grid]],\n    uint2 m4_groups [[threadgroups_per_grid]],\n    uint2 m4_tid [[thread_position_in_threadgroup]],\n    uint2 m4_threads [[threads_per_threadgroup]]) {\n  const uint m3_tid = m4_tid.x;\n  const uint m3_threads = m4_threads.x;\n  threadgroup M1ArgmaxCandidate m3_tgbuf[$T];\n  const uint dispatch_lane = m4_group.y;\n  if (dispatch_lane >= layout->lane_count) return;\n  const uint lane_index = lane_indices[dispatch_lane];\n  const device M3LaneHeader* header = reinterpret_cast<const device M3LaneHeader*>(lane_bytes);\n  const device M3LaneRecord* lanes = reinterpret_cast<const device M3LaneRecord*>(lane_bytes + sizeof(M3LaneHeader));\n  const device M3LaneChannelSlot* slots = reinterpret_cast<const device M3LaneChannelSlot*>(lane_bytes + sizeof(M3LaneHeader) + header->lane_count * sizeof(M3LaneRecord));\n  const M3LaneRecord lane = lanes[lane_index];\n  const M3RowMeta row_meta = all_row_meta[lane_index];\n  device M1Status* status = reinterpret_cast<device M1Status*>(lane.commit_slot);\n  if (status->state != 1) return;\n  if (m3_threads > $Tu) { if (m3_tid == 0 && m4_group.x == 0) m1_fault(status, $Xu); return; }\n  const device M1ValueDesc* descriptors = all_descriptors + dispatch_lane * layout->value_count;\n  const device M1OpParams* lane_params = params + dispatch_lane * layout->reserved2;\n  device uchar* scratch = all_scratch + dispatch_lane * layout->scratch_stride;\n  device uchar* temporary = scratch + layout->temporary_offset;\n  const device bfloat* logits = reinterpret_cast<const device bfloat*>(lane.logits_base);\n";

/// The set-up of one channel, `$C`. The cell is derived anew in every dispatch:
/// a put in an earlier step set the flag, and this step reads the cell it
/// points at.
pub const CHANNEL: &'static str = "  const uint dense_$C = channel_bindings[dispatch_lane * layout->reserved0 + $C];\n  const M3LaneChannelSlot channel_$C = slots[lane.channel_slot_offset + dense_$C];\n  const uint pending_index_$C = lane.channel_slot_offset + dense_$C;\n  const device uchar* current_$C = reinterpret_cast<const device uchar*>(pending_flags[pending_index_$C] != 0 ? channel_$C.pending_cell : channel_$C.committed_cell);\n  device uchar* pending_$C = reinterpret_cast<device uchar*>(channel_$C.pending_cell);\n";

/// The grid position, and the switch over the steps.
pub const SWITCH: &'static str = "  const uint m4_gtid = m4_group.x * m3_threads + m3_tid;\n  const uint m4_gthreads = m4_groups.x * m3_threads;\n  switch (step.index) {\n";

/// The end of the switch and of the kernel.
pub const KERNEL_END: &'static str = "  default: return;\n  }\n}\n";

/// What the placeholders of the kernel's head stand for.
pub open spec fn head_env(name: Seq<char>, threads: u32, exceeded: u32) -> Map<char, Seq<char>> {
    Map::<char, Seq<char>>::empty().insert('F', name).insert('T', dec(threads as nat)).insert(
        'X',
        "0x"@ + upper_hex(exceeded as nat),
    )
}

/// The set-up of the first `n` channels.
pub open spec fn channels_text(n: nat) -> Seq<char>
    decreases n,
{
    if n == 0 {
        Seq::empty()
    } else {
        channels_text((n - 1) as nat) + fill(
            CHANNEL@,
            Map::<char, Seq<char>>::empty().insert('C', dec((n - 1) as nat)),
        )
    }
}

/// The kernel of a plan.
pub open spec fn kernel_text(
    name: Seq<char>,
    rt: Runtime,
    channels: nat,
    p: Seq<(u32, BodyView)>,
) -> Seq<char> {
    rt.template@ + "\n"@ + rt.preamble@ + STEP_STRUCT@ + fill(
        KERNEL_HEAD@,
        head_env(name, rt.region_threads, rt.threads_exceeded),
    ) + channels_text(channels) + SWITCH@ + runs_text(p, 0) + KERNEL_END@
}

fn push_channels(out: &mut String, n: u32)
    ensures
        final(out)@ == old(out)@ + channels_text(n as nat),
{
    let mut c: u32 = 0;
    proof {
        assert(out@ + Seq::<char>::empty() =~= out@);
    }
    while c < n
        invariant
            c <= n,
            out@ == old(out)@ + channels_text(c as nat),
        decreases n - c,
    {
        let mut env = Env::new();
        env.bind('C', dec_of(c as u64).as_str());
        push_fill(out, CHANNEL, &env);
        c += 1;
        proof {
            assert(old(out)@ + (channels_text((c - 1) as nat) + fill(CHANNEL@, env@)) =~= (old(out)@
                + channels_text((c - 1) as nat)) + fill(CHANNEL@, env@));
        }
    }
}

/// One fused region as a streamed kernel, and its dispatch table.
///
/// A region that breaks the library ABI, an intrinsic that the lane record
/// cannot bind and a node outside the stage are refused, in that order.
pub fn emit_streamed_region(
    function_name: &str,
    stage: &Stage,
    texts: &[OpText],
    rt: &Runtime,
) -> (r: Result<(String, Vec<u32>), EmitError>)
    requires
        texts@.len() == stage.ops@.len(),
    ensures
        !stage.library_valid ==> r == Err::<(String, Vec<u32>), EmitError>(
            EmitError::LibraryRegionAbiInvalid,
        ),
        stage.library_valid && !stage.intrinsics_bindable ==> r == Err::<
            (String, Vec<u32>),
            EmitError,
        >(EmitError::IntrinsicUnbindable),
        stage.library_valid && stage.intrinsics_bindable ==> match r {
            Err(e) => e == EmitError::RegionNodeOutOfRange && exists|k: int|
                0 <= k < stage.nodes@.len() && stage.out_of_range(#[trigger] stage.nodes@[k]),
            Ok(out) => {
                let p = plan_of(*stage, texts@, stage.nodes@.len() as int);
                &&& forall|k: int|
                    0 <= k < stage.nodes@.len() ==> !stage.out_of_range(#[trigger] stage.nodes@[k])
                &&& out.0@ == kernel_text(function_name@, *rt, stage.channel_count as nat, p)
                &&& out.1@ == runs_steps(p, 0)
            },
        },
{
    if !stage.library_valid {
        return Err(EmitError::LibraryRegionAbiInvalid);
    }
    if !stage.intrinsics_bindable {
        return Err(EmitError::IntrinsicUnbindable);
    }
    let planned = match plan_region(stage, texts) {
        Ok(p) => p,
        Err(e) => {
            return Err(e);
        },
    };
    let mut source = String::new();
    source.append(rt.template.as_str());
    source.append("\n");
    source.append(rt.preamble.as_str());
    source.append(STEP_STRUCT);
    let mut fault = "0x".to_owned();
    push_upper_hex(&mut fault, rt.threads_exceeded);
    let mut env = Env::new();
    env.bind('F', function_name);
    env.bind('T', dec_of(rt.region_threads as u64).as_str());
    env.bind('X', fault.as_str());
    push_fill(&mut source, KERNEL_HEAD, &env);
    push_channels(&mut source, stage.channel_count);
    source.append(SWITCH);
    let steps = emit_runs(&mut source, planned.as_slice());
    source.append(KERNEL_END);
    proof {
        let p = plan_of(*stage, texts@, stage.nodes@.len() as int);
        assert(source@ =~= kernel_text(function_name@, *rt, stage.channel_count as nat, p));
    }
    Ok((source, steps))
}

/// Every step of a dispatch table carries, under one of the four kinds, the
/// node of a planned op.
pub proof fn law_steps_come_from_the_plan(p: Seq<(u32, BodyView)>, at: int, i: int)
    requires
        0 <= at,
        0 <= i < runs_steps(p, at).len(),
    ensures
        exists|k: int|
            at <= k < p.len() && runs_steps(p, at)[i] == packed_step(
                #[trigger] p[k].0,
                run_kind(p[k].1),
            ),
    decreases p.len() - at,
{
    if at < p.len() {
        let end = run_end(p, at);
        lemma_run_from(p, at, at + 1);
        if i == 0 {
            assert(runs_steps(p, at)[0] == packed_step(p[at].0, run_kind(p[at].1)));
        } else {
            assert(runs_steps(p, at)[i] == runs_steps(p, end)[i - 1]);
            law_steps_come_from_the_plan(p, end, i - 1);
            let k = choose|k: int|
                end <= k < p.len() && runs_steps(p, end)[i - 1] == packed_step(
                    #[trigger] p[k].0,
                    run_kind(p[k].1),
                );
            assert(runs_steps(p, at)[i] == packed_step(p[k].0, run_kind(p[k].1)));
        }
    }
}

// ---------------------------------------------------------------------------
// What the kernel holds
// ---------------------------------------------------------------------------

/// `t` stands in `s` at `j`.
pub open spec fn stands_at(s: Seq<char>, t: Seq<char>, j: int) -> bool {
    0 <= j && j + t.len() <= s.len() && s.subrange(j, j + t.len() as int) == t
}

proof fn lemma_stands_behind(a: Seq<char>, s: Seq<char>, b: Seq<char>, t: Seq<char>, j: int)
    requires
        stands_at(s, t, j),
    ensures
        stands_at(a + s + b, t, a.len() + j),
{
    let all = a + s + b;
    let k = a.len() + j;
    assert(all.subrange(k, k + t.len() as int) =~= s.subrange(j, j + t.len() as int));
}

proof fn lemma_code_stands(p: Seq<(u32, BodyView)>, a: int, b: int, i: int) -> (j: int)
    requires
        a <= i < b,
    ensures
        stands_at(codes(p, a, b), code_of(p[i].1), j),
    decreases b - a,
{
    let last = code_of(p[b - 1].1);
    let front = codes(p, a, b - 1);
    if i == b - 1 {
        assert(last.subrange(0, last.len() as int) =~= last);
        lemma_stands_behind(front, last, Seq::empty(), last, 0);
        assert(front + last + Seq::<char>::empty() =~= front + last);
        front.len() as int
    } else {
        let j = lemma_code_stands(p, a, b - 1, i);
        lemma_stands_behind(Seq::empty(), front, last, code_of(p[i].1), j);
        assert(Seq::<char>::empty() + front + last =~= front + last);
        j
    }
}

proof fn lemma_pre_stands(p: Seq<(u32, BodyView)>, a: int, b: int, i: int) -> (j: int)
    requires
        a <= i < b,
    ensures
        stands_at(pres(p, a, b), pre_of(p[i].1), j),
    decreases b - a,
{
    let last = pre_of(p[b - 1].1);
    let front = pres(p, a, b - 1);
    if i == b - 1 {
        assert(last.subrange(0, last.len() as int) =~= last);
        lemma_stands_behind(front, last, Seq::empty(), last, 0);
        assert(front + last + Seq::<char>::empty() =~= front + last);
        front.len() as int
    } else {
        let j = lemma_pre_stands(p, a, b - 1, i);
        lemma_stands_behind(Seq::empty(), front, last, pre_of(p[i].1), j);
        assert(Seq::<char>::empty() + front + last =~= front + last);
        j
    }
}

/// A run is one case under the node of its first op: it opens with that node, its
/// code is that of every op of the run in order, and it returns at its end. A
/// direct run declares what its ops need and loops, grid-strided, to the element
/// count of its first op.
pub proof fn law_a_case_holds_its_run(p: Seq<(u32, BodyView)>, at: int, end: int, i: int) -> (j: int)
    requires
        at <= i < end,
    ensures
        stands_at(case_text(p, at, end), code_of(p[i].1), j),
        stands_at(case_text(p, at, end), "  case "@ + dec(p[at].0 as nat) + "u: {\n"@, 0),
        p[at].1 is Direct ==> exists|k: int|
            #[trigger] stands_at(
                case_text(p, at, end),
                "    for (uint i = m4_gtid; i < m4_n_"@ + dec(p[at].0 as nat)
                    + "; i += m4_gthreads) {\n"@,
                k,
            ) && k < j,
        p[at].1 is Direct ==> exists|k: int|
            #[trigger] stands_at(case_text(p, at, end), pre_of(p[i].1), k) && k <= j,
{
    let first = dec(p[at].0 as nat);
    let head = "  case "@ + first + "u: {\n"@;
    let all = case_text(p, at, end);
    let body = codes(p, at, end);
    let j0 = lemma_code_stands(p, at, end, i);
    let t = code_of(p[i].1);
    assert(head.subrange(0, head.len() as int) =~= head);
    if p[at].1 is Direct {
        let loops = "    for (uint i = m4_gtid; i < m4_n_"@ + first + "; i += m4_gthreads) {\n"@;
        let tail = "    }\n    return;\n  }\n"@;
        let pre = pres(p, at, end);
        let lead = head + pre + loops;
        assert(all =~= lead + body + tail);
        lemma_stands_behind(lead, body, tail, t, j0);
        lemma_stands_behind(Seq::empty(), head, pre + loops + body + tail, head, 0);
        assert(all =~= Seq::<char>::empty() + head + (pre + loops + body + tail));
        assert(loops.subrange(0, loops.len() as int) =~= loops);
        lemma_stands_behind(head + pre, loops, body + tail, loops, 0);
        assert(all =~= head + pre + loops + (body + tail));
        let k0 = lemma_pre_stands(p, at, end, i);
        lemma_stands_behind(head, pre, loops + body + tail, pre_of(p[i].1), k0);
        assert(all =~= head + pre + (loops + body + tail));
        assert(loops.len() > 0) by {
            reveal_strlit("; i += m4_gthreads) {\n");
        }
        lead.len() + j0
    } else {
        let tail = "    return;\n  }\n"@;
        assert(all =~= head + body + tail);
        lemma_stands_behind(head, body, tail, t, j0);
        lemma_stands_behind(Seq::empty(), head, body + tail, head, 0);
        assert(all =~= Seq::<char>::empty() + head + (body + tail));
        head.len() + j0
    }
}

/// Every op of a plan is in its kernel's cases.
pub proof fn law_every_planned_op_is_in_the_kernel(p: Seq<(u32, BodyView)>, at: int, i: int) -> (j: int)
    requires
        0 <= at <= i < p.len(),
    ensures
        stands_at(runs_text(p, at), code_of(p[i].1), j),
    decreases p.len() - at,
{
    let end = run_end(p, at);
    lemma_run_from(p, at, at + 1);
    let case = case_text(p, at, end);
    let rest = runs_text(p, end);
    let t = code_of(p[i].1);
    assert(runs_text(p, at) == case + rest);
    if i < end {
        let j = law_a_case_holds_its_run(p, at, end, i);
        lemma_stands_behind(Seq::empty(), case, rest, t, j);
        assert(Seq::<char>::empty() + case + rest =~= case + rest);
        j
    } else {
        let j = law_every_planned_op_is_in_the_kernel(p, end, i);
        lemma_stands_behind(case, rest, Seq::empty(), t, j);
        assert(case + rest + Seq::<char>::empty() =~= case + rest);
        case.len() + j
    }
}

/// A kernel is its runtime, its head, the set-up of its channels and the switch
/// over its cases, in that order.
pub proof fn law_a_kernel_holds_its_parts(
    name: Seq<char>,
    rt: Runtime,
    channels: nat,
    p: Seq<(u32, BodyView)>,
) -> (at: (int, int, int))
    ensures
        ({
            let k = kernel_text(name, rt, channels, p);
            &&& stands_at(k, rt.template@, 0)
            &&& stands_at(
                k,
                fill(KERNEL_HEAD@, head_env(name, rt.region_threads, rt.threads_exceeded)),
                at.0,
            )
            &&& stands_at(k, channels_text(channels), at.1)
            &&& stands_at(k, runs_text(p, 0), at.2)
            &&& rt.template@.len() <= at.0 <= at.1 <= at.2
        }),
{
    let a = rt.template@;
    let b = "\n"@ + rt.preamble@ + STEP_STRUCT@;
    let c = fill(KERNEL_HEAD@, head_env(name, rt.region_threads, rt.threads_exceeded));
    let d = channels_text(channels);
    let e = SWITCH@;
    let f = runs_text(p, 0);
    let g = KERNEL_END@;
    let k = kernel_text(name, rt, channels, p);
    assert(k =~= Seq::<char>::empty() + a + (b + c + d + e + f + g));
    assert(a.subrange(0, a.len() as int) =~= a);
    lemma_stands_behind(Seq::empty(), a, b + c + d + e + f + g, a, 0);
    assert(k =~= (a + b) + c + (d + e + f + g));
    assert(c.subrange(0, c.len() as int) =~= c);
    lemma_stands_behind(a + b, c, d + e + f + g, c, 0);
    assert(k =~= (a + b + c) + d + (e + f + g));
    assert(d.subrange(0, d.len() as int) =~= d);
    lemma_stands_behind(a + b + c, d, e + f + g, d, 0);
    assert(k =~= (a + b + c + d + e) + f + g);
    assert(f.subrange(0, f.len() as int) =~= f);
    lemma_stands_behind(a + b + c + d + e, f, g, f, 0);
    ((a + b).len() as int, (a + b + c).len() as int, (a + b + c + d + e).len() as int)
}

/// Each channel is set up once, under its own number, and the head's placeholders
/// are the kernel's name, its threads and its status in hexadecimal.
pub proof fn law_every_channel_is_set_up(n: nat, name: Seq<char>, threads: u32, exceeded: u32)
    ensures
        channels_text(0).len() == 0,
        channels_text(n + 1) == channels_text(n) + fill(CHANNEL@, map!['C' => dec(n)]),
        lookup(head_env(name, threads, exceeded), 'F') == name,
        lookup(head_env(name, threads, exceeded), 'T') == dec(threads as nat),
        lookup(head_env(name, threads, exceeded), 'X') == "0x"@ + upper_hex(exceeded as nat),
{
    assert(map!['C' => dec(n)] =~= Map::<char, Seq<char>>::empty().insert('C', dec(n)));
}

/// What an op's call names: its tag's byte, its node, its pointers and its channel.
pub proof fn law_a_call_names_its_op(op: OpView, node: nat, s: SlotsView)
    ensures
        ({
            let env = call_env(op, node, s);
            &&& lookup(env, 't') == dec(op.code as nat)
            &&& lookup(env, 'N') == dec(node)
            &&& lookup(env, 'a') == s.a0 && lookup(env, 'b') == s.a1 && lookup(env, 'c') == s.a2
            &&& lookup(env, 'o') == s.o0 && lookup(env, 'd') == s.o1
            &&& lookup(env, 'h') == dec(op.chan as nat)
        }),
{
}

/// A take or a read starts at its channel's current cell, a put ends at its pending
/// one, an intrinsic starts at the logits; every other pointer is the op's own.
pub proof fn law_channel_ops_go_to_their_channel(op: OpView, s: SlotsView)
    ensures
        ({
            let r = routed(op, s);
            let takes = op.tag == OpTag::ChanTake || op.tag == OpTag::ChanRead;
            let reads = op.tag == OpTag::IntrinsicVal;
            &&& takes ==> r.a0 == "current_"@ + dec(op.chan as nat)
            &&& reads ==> r.a0 == "reinterpret_cast<const device uchar*>(logits)"@
            &&& !takes && !reads ==> r.a0 == s.a0
            &&& op.tag == OpTag::ChanPut ==> r.o0 == "pending_"@ + dec(op.chan as nat)
            &&& op.tag != OpTag::ChanPut ==> r.o0 == s.o0
            &&& r.a1 == s.a1 && r.a2 == s.a2 && r.o1 == s.o1
        }),
{
}

// ---------------------------------------------------------------------------
// What becomes of an op
// ---------------------------------------------------------------------------

/// Whether an op's walk carries state from one element to the next.
pub open spec fn carries_state(tag: OpTag) -> bool {
    tag == OpTag::Cumsum || tag == OpTag::Cumprod || tag == OpTag::SortDesc || tag == OpTag::TopK
        || tag == OpTag::Matmul || tag == OpTag::ScatterAdd || tag == OpTag::ScatterSet
}

/// An op runs as a tree where it reduces, as two passes where it is an argmax of
/// floats, on one threadgroup where its walk carries state, it is another argmax
/// or a pivot by anything but a probability, and over the grid otherwise.
pub proof fn law_ops_run_by_what_they_carry(tag: OpTag, pred: Predicate, floats: bool)
    ensures
        kind_of_op(tag, pred, floats) == StepKind::Reduce <==> tag == OpTag::ReduceSum || tag
            == OpTag::ReduceMax || tag == OpTag::ReduceMin,
        kind_of_op(tag, pred, floats) == StepKind::Argmax <==> tag == OpTag::ReduceArgmax && floats,
        kind_of_op(tag, pred, floats) == StepKind::Single <==> carries_state(tag) || (tag
            == OpTag::ReduceArgmax && !floats) || (tag == OpTag::PivotThreshold && pred
            != Predicate::ProbGe),
{
}

/// A view reshape's result stands for what its operand stands for; no other op
/// makes one value stand for another.
pub proof fn law_only_views_rename(stage: Stage, k: int, value: u32)
    requires
        0 <= k < stage.nodes@.len(),
    ensures
        ({
            let node = stage.nodes@[k] as int;
            let before = stage.aliases(k);
            let after = stage.aliases(k + 1);
            &&& !stage.is_view(node) ==> after == before
            &&& stage.is_view(node) ==> resolve(after, stage.ops@[node].base) == resolve(
                before,
                stage.ops@[node].op.args@[0],
            )
            &&& stage.is_view(node) && value != stage.ops@[node].base ==> resolve(after, value)
                == resolve(before, value)
        }),
        stage.aliases(0) == Map::<u32, u32>::empty(),
{
}

proof fn lemma_logits_producer(stage: Stage, k: int, value: u32)
    requires
        0 <= k,
    ensures
        match stage.logits_producer(k, value) {
            Some(n) => exists|i: int|
                k <= i < stage.nodes@.len() && #[trigger] stage.nodes@[i] == n && stage.reads_logits(
                    n as int,
                    value,
                ) && forall|j: int|
                    k <= j < i ==> !stage.reads_logits(#[trigger] stage.nodes@[j] as int, value),
            None => forall|i: int|
                k <= i < stage.nodes@.len() ==> !stage.reads_logits(
                    #[trigger] stage.nodes@[i] as int,
                    value,
                ),
        },
    decreases stage.nodes@.len() - k,
{
    if k < stage.nodes@.len() && !stage.reads_logits(stage.nodes@[k] as int, value) {
        lemma_logits_producer(stage, k + 1, value);
    }
}

/// An argmax takes over a gather exactly where its operand is read by it alone,
/// does not leave the region, and a gather of the region reads the logits into it.
pub proof fn law_only_private_logits_are_fused(stage: Stage, node: int)
    requires
        0 <= node < stage.ops@.len(),
        stage.ops@[node].op.tag == OpTag::ReduceArgmax,
        stage.ops@[node].op.args@.len() == 1,
    ensures
        ({
            let value = resolve(stage.alias(), stage.ops@[node].op.args@[0]);
            let private = stage.uses(stage.nodes@.len() as int, value) == 1
                && !stage.escapes@.contains(value);
            match stage.fused_with(node) {
                Some(n) => private && stage.nodes@.contains(n) && stage.reads_logits(n as int, value),
                None => private ==> forall|i: int|
                    0 <= i < stage.nodes@.len() ==> !stage.reads_logits(
                        #[trigger] stage.nodes@[i] as int,
                        value,
                    ),
            }
        }),
{
    let value = resolve(stage.alias(), stage.ops@[node].op.args@[0]);
    lemma_logits_producer(stage, 0, value);
}

/// An operand counts as a use once for each place it is read at, whatever name it
/// is read by, and not where a view only renames it.
pub proof fn law_uses_count_every_read(stage: Stage, k: int, n: int, node: int, value: u32)
    requires
        0 <= k < stage.nodes@.len(),
        0 <= node < stage.ops@.len(),
        0 <= n < stage.ops@[node].op.args@.len(),
    ensures
        stage.uses_in(node, n + 1, value) == stage.uses_in(node, n, value) + (if resolve(
            stage.alias(),
            stage.ops@[node].op.args@[n],
        ) == value {
            1nat
        } else {
            0
        }),
        stage.uses_in(node, 0, value) == 0,
        ({
            let x = stage.nodes@[k] as int;
            stage.uses(k + 1, value) == stage.uses(k, value) + (if x < stage.ops@.len()
                && !stage.is_view(x) {
                stage.uses_in(x, stage.ops@[x].op.args@.len() as int, value)
            } else {
                0
            })
        }),
        stage.uses(0, value) == 0,
{
}

proof fn lemma_elided_by(stage: Stage, k: int, node: usize)
    requires
        0 <= k <= stage.nodes@.len(),
    ensures
        stage.elided_by(k, node) <==> exists|i: int|
            0 <= i < k && stage.fused_with(#[trigger] stage.nodes@[i] as int) == Some(node),
    decreases k,
{
    if k > 0 {
        lemma_elided_by(stage, k - 1, node);
        if stage.fused_with(stage.nodes@[k - 1] as int) == Some(node) {
            assert(stage.fused_with(stage.nodes@[k - 1] as int) == Some(node));
        }
        if exists|i: int| 0 <= i < k && stage.fused_with(#[trigger] stage.nodes@[i] as int) == Some(node) {
            let i = choose|i: int|
                0 <= i < k && stage.fused_with(#[trigger] stage.nodes@[i] as int) == Some(node);
            if i < k - 1 {
                assert(stage.fused_with(stage.nodes@[i] as int) == Some(node));
            }
        }
    }
}

/// An op emits nothing exactly where it only renames its operand or an argmax of
/// the region took it over; every other is planned, in the region's order.
pub proof fn law_every_other_op_is_planned(stage: Stage, texts: Seq<OpText>, k: int)
    requires
        0 <= k < stage.nodes@.len(),
    ensures
        ({
            let node = stage.nodes@[k];
            let before = plan_of(stage, texts, k);
            let after = plan_of(stage, texts, k + 1);
            let skipped = stage.is_view(node as int) || exists|i: int|
                0 <= i < stage.nodes@.len() && stage.fused_with(#[trigger] stage.nodes@[i] as int)
                    == Some(node);
            &&& skipped ==> after == before
            &&& !skipped ==> after.len() == before.len() + 1 && after.drop_last() == before
                && after.last() == (node as u32, body_of(stage, texts[node as int], node))
        }),
        plan_of(stage, texts, 0).len() == 0,
{
    let node = stage.nodes@[k];
    lemma_elided_by(stage, stage.nodes@.len() as int, node);
    let before = plan_of(stage, texts, k);
    assert(before.push((node as u32, body_of(stage, texts[node as int], node))).drop_last()
        =~= before);
}

/// What an op becomes: a fused argmax and a gather are the texts written for them;
/// a put is its call; an op over the grid is its own lines where it has a direct
/// form, with its operands as what it reads and its result as what it writes, and
/// its call otherwise; a walk, a reduction and an argmax are their calls.
pub proof fn law_an_op_becomes_its_own_text(stage: Stage, text: OpText, node: usize)
    requires
        node < stage.ops@.len(),
    ensures
        ({
            let o = stage.ops@[node as int];
            let b = body_of(stage, text, node);
            let s = routed(o.op, text.slots@);
            let env = call_env(o.op, node as nat, s);
            let fused = stage.fused_with(node as int) is Some;
            let gathers = o.op.tag == OpTag::IntrinsicVal && o.op.intr != Intrinsic::Other;
            let k = kind_of_op(
                o.op.tag,
                o.op.pred,
                argmax_f32(o.op, stage.alias(), stage.value_types@),
            );
            let lines = wide_text(o.op, node as nat, o.base, s, stage.value_types@, stage.alias());
            let plain = !fused && !gathers;
            &&& fused ==> b == BodyView::Single(text.argmax@)
            &&& !fused && gathers ==> b == BodyView::Gather(text.gather@)
            &&& plain && k == StepKind::Single ==> b == BodyView::Walk(fill(CALL_WALK@, env))
            &&& plain && k == StepKind::Reduce ==> b == BodyView::Reduce(fill(CALL_REDUCE@, env))
            &&& plain && k == StepKind::Argmax ==> b == BodyView::Argmax(fill(CALL_ARGMAX@, env))
            &&& plain && o.op.tag == OpTag::ChanPut ==> b == BodyView::Put(fill(CALL_PUT@, env))
            &&& plain && k == StepKind::Wide && o.op.tag != OpTag::ChanPut && lines is None ==> b
                == BodyView::Generic(fill(CALL_PART@, env))
            &&& plain && k == StepKind::Wide && o.op.tag != OpTag::ChanPut && lines is Some ==> match b {
                BodyView::Direct { pre, inner, len, reads, writes, remaps } => Some((pre, inner))
                    == lines && writes == o.base && len == value_key(stage.value_types@, o.base)
                    && reads.len() == o.op.args@.len() && (forall|i: int|
                    0 <= i < reads.len() ==> #[trigger] reads[i] == resolve(
                        stage.alias(),
                        o.op.args@[i],
                    )) && (remaps <==> o.op.tag == OpTag::Broadcast),
                _ => false,
            }
        }),
{
}

/// A shape's key is its dimensions in order without the constant ones, so shapes
/// that differ in ones alone share a loop.
pub proof fn law_a_key_drops_only_ones(dims: Seq<Dimension>, d: Dimension)
    ensures
        shape_key(Seq::empty()).len() == 0,
        d == Dimension::Static(1) ==> shape_key(dims.push(d)) == shape_key(dims),
        d != Dimension::Static(1) ==> shape_key(dims.push(d)) == shape_key(dims).push(d),
{
    reveal(Seq::filter);
    assert(dims.push(d).drop_last() =~= dims);
}

/// A run is dispatched as its first op runs, and each step carries one run: the
/// first step is the first run's, and the others are those of the runs behind it.
pub proof fn law_each_run_is_one_step(p: Seq<(u32, BodyView)>, at: int)
    requires
        0 <= at < p.len(),
    ensures
        runs_steps(p, at)[0] == packed_step(p[at].0, run_kind(p[at].1)),
        runs_steps(p, at).skip(1) == runs_steps(p, run_end(p, at)),
        run_kind(p[at].1) == StepKind::Reduce <==> p[at].1 is Reduce,
        run_kind(p[at].1) == StepKind::Argmax <==> p[at].1 is Argmax,
        run_kind(p[at].1) == StepKind::Single <==> p[at].1 is Single || p[at].1 is Walk,
{
    let rest = runs_steps(p, run_end(p, at));
    assert(runs_steps(p, at).skip(1) =~= rest);
}

/// A node is out of range exactly where the stage has no op of it, or has one that
/// emits and a step cannot carry its number.
pub proof fn law_only_uncarried_nodes_are_out_of_range(stage: Stage, node: usize)
    ensures
        node >= stage.ops@.len() ==> stage.out_of_range(node),
        node < stage.ops@.len() && node <= u32::MAX ==> !stage.out_of_range(node),
        node < stage.ops@.len() && node > u32::MAX && !stage.skipped(node) ==> stage.out_of_range(node),
        node < stage.ops@.len() && stage.skipped(node) ==> !stage.out_of_range(node),
{
}

} // verus!
