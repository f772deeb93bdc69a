//! The per-element text of a streamed kernel's element-independent ops: the
//! runtime's own arithmetic, spelled with literal dtypes so every typed load
//! and store folds to one access and no tag is switched on per element.

use vstd::prelude::*;
use vstd::string::*;

use crate::format::{dec, dec_of, fill, filled, Env};
use crate::text::{cat2, cat3};

verus! {

/// The op tags the streamed form tells apart.
#[derive(Clone, Copy, Debug, PartialEq, Eq, Structural)]
pub enum OpTag {
    Exp,
    Log,
    Recip,
    Neg,
    Abs,
    Sign,
    Cast,
    Add,
    Sub,
    Mul,
    Div,
    MaxElem,
    MinElem,
    Rem,
    Gt,
    Ge,
    Eq,
    Ne,
    Lt,
    Le,
    And,
    Or,
    Not,
    Select,
    Const,
    Iota,
    Broadcast,
    Reshape,
    ChanTake,
    ChanRead,
    ChanPut,
    IntrinsicVal,
    ReduceSum,
    ReduceMax,
    ReduceMin,
    ReduceArgmax,
    Cumsum,
    Cumprod,
    SortDesc,
    TopK,
    Matmul,
    ScatterAdd,
    ScatterSet,
    PivotThreshold,
    /// Any other tag.
    Other,
}

/// Which predicate a pivot threshold tests.
#[derive(Clone, Copy, Debug, PartialEq, Eq, Structural)]
pub enum Predicate {
    ProbGe,
    CummassLe,
    Other,
}

/// Which value an intrinsic op reads.
#[derive(Clone, Copy, Debug, PartialEq, Eq, Structural)]
pub enum Intrinsic {
    Logits,
    MtpLogits,
    MtpDrafts,
    AttnScore,
    Other,
}

/// One op of a stage.
pub struct OpView {
    pub tag: OpTag,
    /// The tag's wire byte, the number the runtime switches on.
    pub code: u8,
    pub args: Vec<u32>,
    pub results: usize,
    pub intr: Intrinsic,
    pub pred: Predicate,
    pub chan: u32,
    pub lit_bits: u32,
    pub lit_dtype: u8,
}

/// One dimension of a value's symbolic shape.
#[derive(Clone, Copy, Debug, PartialEq, Eq, Structural)]
pub enum Dimension {
    Static(u64),
    Symbol(u32),
}

/// A value's symbolic type.
pub struct ValueType {
    /// The dtype's wire byte (0 is f32), `None` outside the four the wire has.
    pub dtype: Option<u8>,
    pub dims: Vec<Dimension>,
}

/// The pointer expressions an op's operands and results are reached by.
pub struct Slots {
    pub a0: String,
    pub a1: String,
    pub a2: String,
    pub o0: String,
    pub o1: String,
}

/// The texts of a [`Slots`].
#[verifier::ext_equal]
pub struct SlotsView {
    pub a0: Seq<char>,
    pub a1: Seq<char>,
    pub a2: Seq<char>,
    pub o0: Seq<char>,
    pub o1: Seq<char>,
}

impl View for Slots {
    type V = SlotsView;

    open spec fn view(&self) -> SlotsView {
        SlotsView { a0: self.a0@, a1: self.a1@, a2: self.a2@, o0: self.o0@, o1: self.o1@ }
    }
}

/// Values that stand for other values: what a view reshape makes of its result.
pub struct AliasTable {
    entries: Vec<(u32, u32)>,
}

/// The mapping that entries added in order make.
pub closed spec fn alias_map(entries: Seq<(u32, u32)>) -> Map<u32, u32>
    decreases entries.len(),
{
    if entries.len() == 0 {
        Map::empty()
    } else {
        alias_map(entries.drop_last()).insert(entries.last().0, entries.last().1)
    }
}

impl View for AliasTable {
    type V = Map<u32, u32>;

    closed spec fn view(&self) -> Map<u32, u32> {
        alias_map(self.entries@)
    }
}

/// The value that `value` stands for.
pub open spec fn resolve(alias: Map<u32, u32>, value: u32) -> u32 {
    if alias.contains_key(value) {
        alias[value]
    } else {
        value
    }
}

impl AliasTable {
    /// No value stands for another.
    pub fn new() -> (r: AliasTable)
        ensures
            r@ == Map::<u32, u32>::empty(),
    {
        AliasTable { entries: Vec::new() }
    }

    /// From now on `result` stands for what `source` stands for.
    pub fn elide(&mut self, result: u32, source: u32)
        ensures
            final(self)@ == old(self)@.insert(result, resolve(old(self)@, source)),
    {
        let target = self.resolve(source);
        let ghost before = self.entries@;
        self.entries.push((result, target));
        proof {
            assert(self.entries@.drop_last() =~= before);
        }
    }

    /// The value that `value` stands for.
    pub fn resolve(&self, value: u32) -> (r: u32)
        ensures
            r == resolve(self@, value),
    {
        let mut i: usize = self.entries.len();
        proof {
            assert(self.entries@.take(i as int) =~= self.entries@);
        }
        while i > 0
            invariant
                i <= self.entries@.len(),
                resolve(self@, value) == resolve(alias_map(self.entries@.take(i as int)), value),
            decreases i,
        {
            proof {
                assert(self.entries@.take(i as int).drop_last() =~= self.entries@.take(i - 1));
            }
            if self.entries[i - 1].0 == value {
                return self.entries[i - 1].1;
            }
            i -= 1;
        }
        value
    }
}

/// The wire byte of a value's dtype, none for a value outside the stage or a
/// dtype outside the wire's four.
pub open spec fn dtype_of(types: Seq<ValueType>, value: u32) -> Option<u8> {
    if value < types.len() {
        types[value as int].dtype
    } else {
        None
    }
}

/// The wire byte of a value's dtype.
pub fn wire_dtype(value_types: &[ValueType], value: u32) -> (r: Option<u8>)
    ensures
        r == dtype_of(value_types@, value),
{
    if (value as usize) < value_types.len() {
        value_types[value as usize].dtype
    } else {
        None
    }
}

/// Operand `k` of an op, with aliases resolved.
pub open spec fn operand(op: OpView, alias: Map<u32, u32>, k: int) -> Option<u32> {
    if k < op.args@.len() {
        Some(resolve(alias, op.args@[k]))
    } else {
        None
    }
}

/// The dtype of operand `k`.
pub open spec fn operand_dtype(
    op: OpView,
    alias: Map<u32, u32>,
    types: Seq<ValueType>,
    k: int,
) -> Option<u8> {
    match operand(op, alias, k) {
        Some(v) => dtype_of(types, v),
        None => None,
    }
}

fn operand_of(op: &OpView, alias: &AliasTable, k: usize) -> (r: Option<u32>)
    ensures
        r == operand(*op, alias@, k as int),
{
    if k < op.args.len() {
        Some(alias.resolve(op.args[k]))
    } else {
        None
    }
}

fn operand_dtype_of(op: &OpView, alias: &AliasTable, types: &[ValueType], k: usize) -> (r: Option<u8>)
    ensures
        r == operand_dtype(*op, alias@, types@, k as int),
{
    match operand_of(op, alias, k) {
        Some(v) => wire_dtype(types, v),
        None => None,
    }
}

// ---------------------------------------------------------------------------
// Text by dtype
// ---------------------------------------------------------------------------

/// The scalar type that arithmetic on dtype `d` runs in.
pub open spec fn scalar_name(d: u8) -> Seq<char> {
    if d == 0 {
        "float"@
    } else if d == 1 {
        "int"@
    } else {
        "uint"@
    }
}

/// The loader for arithmetic on dtype `d`.
pub open spec fn scalar_load(d: u8) -> Seq<char> {
    if d == 0 {
        "m1_load_f"@
    } else if d == 1 {
        "m1_load_i"@
    } else {
        "m1_load_u"@
    }
}

/// The storer for arithmetic on dtype `d`.
pub open spec fn scalar_store(d: u8) -> Seq<char> {
    if d == 0 {
        "m1_store_f"@
    } else if d == 1 {
        "m1_store_i"@
    } else {
        "m1_store_u"@
    }
}

/// The loader that yields a value of dtype `d`, bool where `d` is no number.
pub open spec fn typed_load(d: u8) -> Seq<char> {
    if d == 2 {
        "m1_load_u"@
    } else if d == 0 || d == 1 {
        scalar_load(d)
    } else {
        "m1_load_b"@
    }
}

/// The storer of a value of dtype `d`, bool where `d` is no number.
pub open spec fn typed_store(d: u8) -> Seq<char> {
    if d == 2 {
        "m1_store_u"@
    } else if d == 0 || d == 1 {
        scalar_store(d)
    } else {
        "m1_store_b"@
    }
}

fn scalar_name_of(d: u8) -> (r: &'static str)
    ensures
        r@ == scalar_name(d),
{
    if d == 0 {
        "float"
    } else if d == 1 {
        "int"
    } else {
        "uint"
    }
}

fn scalar_load_of(d: u8) -> (r: &'static str)
    ensures
        r@ == scalar_load(d),
{
    if d == 0 {
        "m1_load_f"
    } else if d == 1 {
        "m1_load_i"
    } else {
        "m1_load_u"
    }
}

fn scalar_store_of(d: u8) -> (r: &'static str)
    ensures
        r@ == scalar_store(d),
{
    if d == 0 {
        "m1_store_f"
    } else if d == 1 {
        "m1_store_i"
    } else {
        "m1_store_u"
    }
}

fn typed_load_of(d: u8) -> (r: &'static str)
    ensures
        r@ == typed_load(d),
{
    if d == 2 {
        "m1_load_u"
    } else if d == 0 || d == 1 {
        scalar_load_of(d)
    } else {
        "m1_load_b"
    }
}

fn typed_store_of(d: u8) -> (r: &'static str)
    ensures
        r@ == typed_store(d),
{
    if d == 2 {
        "m1_store_u"
    } else if d == 0 || d == 1 {
        scalar_store_of(d)
    } else {
        "m1_store_b"
    }
}

// ---------------------------------------------------------------------------
// Templates. In each, `$N` is the node, `$B` the result value, `$a $b $c` the
// operand pointers, `$o` the result pointer, `$p $q $r` the operand values,
// `$0 $1 $2 $9` the operand and result dtypes and `$l` the literal's bits.
// `$L $S` load and store the result's dtype, `$X $Y $T` load, store and name
// the first operand's arithmetic.
// ---------------------------------------------------------------------------

/// The expression of a float unary op.
pub open spec fn float_unary(tag: OpTag) -> Seq<char> {
    match tag {
        OpTag::Exp => "precise::exp(x_$N)"@,
        OpTag::Log => "precise::log(x_$N)"@,
        _ => "1.0f / x_$N"@,
    }
}

fn float_unary_of(tag: OpTag) -> (r: &'static str)
    ensures
        r@ == float_unary(tag),
{
    match tag {
        OpTag::Exp => "precise::exp(x_$N)",
        OpTag::Log => "precise::log(x_$N)",
        _ => "1.0f / x_$N",
    }
}

/// The line of a sign-like unary op on dtype `d`.
pub open spec fn sign_line(d: u8, tag: OpTag) -> Seq<char> {
    if d == 0 {
        match tag {
            OpTag::Neg => "        m1_store_f($o, i, -m1_load_f($a, i * sx_$N, 0u));\n"@,
            OpTag::Abs => "        m1_store_f($o, i, abs(m1_load_f($a, i * sx_$N, 0u)));\n"@,
            _ => "        { const float x_$N = m1_load_f($a, i * sx_$N, 0u); m1_store_f($o, i, x_$N > 0 ? 1.0f : (x_$N < 0 ? -1.0f : 0.0f)); }\n"@,
        }
    } else if d == 1 {
        match tag {
            OpTag::Neg => "        m1_store_i($o, i, int(0u - uint(m1_load_i($a, i * sx_$N, 1u))));\n"@,
            OpTag::Abs => "        { const int x_$N = m1_load_i($a, i * sx_$N, 1u); m1_store_i($o, i, x_$N == INT_MIN ? x_$N : abs(x_$N)); }\n"@,
            _ => "        { const int x_$N = m1_load_i($a, i * sx_$N, 1u); m1_store_i($o, i, x_$N > 0 ? 1 : (x_$N < 0 ? -1 : 0)); }\n"@,
        }
    } else {
        match tag {
            OpTag::Neg => "        m1_store_u($o, i, 0u - m1_load_u($a, i * sx_$N, 2u));\n"@,
            OpTag::Sign => "        m1_store_u($o, i, m1_load_u($a, i * sx_$N, 2u) != 0 ? 1u : 0u);\n"@,
            _ => "        m1_store_u($o, i, m1_load_u($a, i * sx_$N, 2u));\n"@,
        }
    }
}

fn sign_line_of(d: u8, tag: OpTag) -> (r: &'static str)
    ensures
        r@ == sign_line(d, tag),
{
    if d == 0 {
        match tag {
            OpTag::Neg => "        m1_store_f($o, i, -m1_load_f($a, i * sx_$N, 0u));\n",
            OpTag::Abs => "        m1_store_f($o, i, abs(m1_load_f($a, i * sx_$N, 0u)));\n",
            _ => "        { const float x_$N = m1_load_f($a, i * sx_$N, 0u); m1_store_f($o, i, x_$N > 0 ? 1.0f : (x_$N < 0 ? -1.0f : 0.0f)); }\n",
        }
    } else if d == 1 {
        match tag {
            OpTag::Neg => "        m1_store_i($o, i, int(0u - uint(m1_load_i($a, i * sx_$N, 1u))));\n",
            OpTag::Abs => "        { const int x_$N = m1_load_i($a, i * sx_$N, 1u); m1_store_i($o, i, x_$N == INT_MIN ? x_$N : abs(x_$N)); }\n",
            _ => "        { const int x_$N = m1_load_i($a, i * sx_$N, 1u); m1_store_i($o, i, x_$N > 0 ? 1 : (x_$N < 0 ? -1 : 0)); }\n",
        }
    } else {
        match tag {
            OpTag::Neg => "        m1_store_u($o, i, 0u - m1_load_u($a, i * sx_$N, 2u));\n",
            OpTag::Sign => "        m1_store_u($o, i, m1_load_u($a, i * sx_$N, 2u) != 0 ? 1u : 0u);\n",
            _ => "        m1_store_u($o, i, m1_load_u($a, i * sx_$N, 2u));\n",
        }
    }
}

/// The expression of a binary arithmetic op on dtype `d`. Signed addition,
/// subtraction and multiplication wrap; an integer division or remainder by
/// zero is zero.
pub open spec fn arith_expr(d: u8, tag: OpTag) -> Seq<char> {
    if d == 0 {
        match tag {
            OpTag::Add => "x_$N + y_$N"@,
            OpTag::Sub => "x_$N - y_$N"@,
            OpTag::Mul => "x_$N * y_$N"@,
            OpTag::Div => "x_$N / y_$N"@,
            OpTag::MaxElem => "m1_element_max(x_$N, y_$N)"@,
            OpTag::MinElem => "m1_element_min(x_$N, y_$N)"@,
            _ => "fmod(x_$N, y_$N)"@,
        }
    } else if d == 1 {
        match tag {
            OpTag::Add => "int(uint(x_$N) + uint(y_$N))"@,
            OpTag::Sub => "int(uint(x_$N) - uint(y_$N))"@,
            OpTag::Mul => "int(uint(x_$N) * uint(y_$N))"@,
            OpTag::Div => "(y_$N == 0 ? 0 : x_$N / y_$N)"@,
            OpTag::MaxElem => "max(x_$N, y_$N)"@,
            OpTag::MinElem => "min(x_$N, y_$N)"@,
            _ => "(y_$N == 0 ? 0 : x_$N % y_$N)"@,
        }
    } else {
        match tag {
            OpTag::Add => "x_$N + y_$N"@,
            OpTag::Sub => "x_$N - y_$N"@,
            OpTag::Mul => "x_$N * y_$N"@,
            OpTag::Div => "(y_$N == 0 ? 0 : x_$N / y_$N)"@,
            OpTag::MaxElem => "max(x_$N, y_$N)"@,
            OpTag::MinElem => "min(x_$N, y_$N)"@,
            _ => "(y_$N == 0 ? 0 : x_$N % y_$N)"@,
        }
    }
}

fn arith_expr_of(d: u8, tag: OpTag) -> (r: &'static str)
    ensures
        r@ == arith_expr(d, tag),
{
    if d == 0 {
        match tag {
            OpTag::Add => "x_$N + y_$N",
            OpTag::Sub => "x_$N - y_$N",
            OpTag::Mul => "x_$N * y_$N",
            OpTag::Div => "x_$N / y_$N",
            OpTag::MaxElem => "m1_element_max(x_$N, y_$N)",
            OpTag::MinElem => "m1_element_min(x_$N, y_$N)",
            _ => "fmod(x_$N, y_$N)",
        }
    } else if d == 1 {
        match tag {
            OpTag::Add => "int(uint(x_$N) + uint(y_$N))",
            OpTag::Sub => "int(uint(x_$N) - uint(y_$N))",
            OpTag::Mul => "int(uint(x_$N) * uint(y_$N))",
            OpTag::Div => "(y_$N == 0 ? 0 : x_$N / y_$N)",
            OpTag::MaxElem => "max(x_$N, y_$N)",
            OpTag::MinElem => "min(x_$N, y_$N)",
            _ => "(y_$N == 0 ? 0 : x_$N % y_$N)",
        }
    } else {
        match tag {
            OpTag::Add => "x_$N + y_$N",
            OpTag::Sub => "x_$N - y_$N",
            OpTag::Mul => "x_$N * y_$N",
            OpTag::Div => "(y_$N == 0 ? 0 : x_$N / y_$N)",
            OpTag::MaxElem => "max(x_$N, y_$N)",
            OpTag::MinElem => "min(x_$N, y_$N)",
            _ => "(y_$N == 0 ? 0 : x_$N % y_$N)",
        }
    }
}

/// The expression of a comparison.
pub open spec fn relation_expr(tag: OpTag) -> Seq<char> {
    match tag {
        OpTag::Gt => "x_$N > y_$N"@,
        OpTag::Ge => "x_$N >= y_$N"@,
        OpTag::Eq => "x_$N == y_$N"@,
        OpTag::Ne => "x_$N != y_$N"@,
        OpTag::Lt => "x_$N < y_$N"@,
        _ => "x_$N <= y_$N"@,
    }
}

fn relation_expr_of(tag: OpTag) -> (r: &'static str)
    ensures
        r@ == relation_expr(tag),
{
    match tag {
        OpTag::Gt => "x_$N > y_$N",
        OpTag::Ge => "x_$N >= y_$N",
        OpTag::Eq => "x_$N == y_$N",
        OpTag::Ne => "x_$N != y_$N",
        OpTag::Lt => "x_$N < y_$N",
        _ => "x_$N <= y_$N",
    }
}

/// The line that stores a literal.
pub open spec fn const_line(lit_dtype: u8, bits: u32) -> Seq<char> {
    if lit_dtype == 0 {
        "        m1_store_f($o, i, as_type<float>($lu));\n"@
    } else if lit_dtype == 1 {
        "        m1_store_i($o, i, int($lu));\n"@
    } else if lit_dtype == 2 {
        "        m1_store_u($o, i, $lu);\n"@
    } else if bits != 0 {
        "        m1_store_b($o, i, true);\n"@
    } else {
        "        m1_store_b($o, i, false);\n"@
    }
}

fn const_line_of(lit_dtype: u8, bits: u32) -> (r: &'static str)
    ensures
        r@ == const_line(lit_dtype, bits),
{
    if lit_dtype == 0 {
        "        m1_store_f($o, i, as_type<float>($lu));\n"
    } else if lit_dtype == 1 {
        "        m1_store_i($o, i, int($lu));\n"
    } else if lit_dtype == 2 {
        "        m1_store_u($o, i, $lu);\n"
    } else if bits != 0 {
        "        m1_store_b($o, i, true);\n"
    } else {
        "        m1_store_b($o, i, false);\n"
    }
}

/// What the step declares before its loop, by how its operands are strided.
pub enum Strides {
    /// No operand is strided.
    Zero,
    /// The first operand by `sx`.
    One,
    /// The first two by `sx` and `sy`.
    Two,
    /// A condition by `sc`, then two choices by `sx` and `sy`.
    Three,
    /// A broadcast source, read at 0 where it is a scalar.
    Mode,
}

/// The declarations of a step, as a template.
pub open spec fn strides_template(s: Strides) -> Seq<char> {
    match s {
        Strides::Zero => "    const uint m4_n_$N = descriptors[$B].len;\n"@,
        Strides::One => "    const uint m4_n_$N = descriptors[$B].len;\n    const uint sx_$N = descriptors[$p].len == 1u ? 0u : 1u;\n"@,
        Strides::Two => "    const uint m4_n_$N = descriptors[$B].len;\n    const uint sx_$N = descriptors[$p].len == 1u ? 0u : 1u;\n    const uint sy_$N = descriptors[$q].len == 1u ? 0u : 1u;\n"@,
        Strides::Three => "    const uint m4_n_$N = descriptors[$B].len;\n    const uint sc_$N = descriptors[$p].len == 1u ? 0u : 1u;\n    const uint sx_$N = descriptors[$q].len == 1u ? 0u : 1u;\n    const uint sy_$N = descriptors[$r].len == 1u ? 0u : 1u;\n"@,
        Strides::Mode => "    const uint m4_n_$N = descriptors[$B].len;\n    const uint bc_$N = descriptors[$p].len == 1u ? 0u : 2u;\n"@,
    }
}

fn strides_template_of(s: &Strides) -> (r: &'static str)
    ensures
        r@ == strides_template(*s),
{
    match s {
        Strides::Zero => "    const uint m4_n_$N = descriptors[$B].len;\n",
        Strides::One => "    const uint m4_n_$N = descriptors[$B].len;\n    const uint sx_$N = descriptors[$p].len == 1u ? 0u : 1u;\n",
        Strides::Two => "    const uint m4_n_$N = descriptors[$B].len;\n    const uint sx_$N = descriptors[$p].len == 1u ? 0u : 1u;\n    const uint sy_$N = descriptors[$q].len == 1u ? 0u : 1u;\n",
        Strides::Three => "    const uint m4_n_$N = descriptors[$B].len;\n    const uint sc_$N = descriptors[$p].len == 1u ? 0u : 1u;\n    const uint sx_$N = descriptors[$q].len == 1u ? 0u : 1u;\n    const uint sy_$N = descriptors[$r].len == 1u ? 0u : 1u;\n",
        Strides::Mode => "    const uint m4_n_$N = descriptors[$B].len;\n    const uint bc_$N = descriptors[$p].len == 1u ? 0u : 2u;\n",
    }
}

/// The strides and the per-element lines of an op, as a template, where its
/// tag and dtypes have a direct form.
pub open spec fn wide_template(
    tag: OpTag,
    d0: Option<u8>,
    d1: Option<u8>,
    d2: Option<u8>,
    dout: Option<u8>,
    lit_dtype: u8,
    lit_bits: u32,
) -> Option<(Strides, Seq<char>)> {
    match tag {
        OpTag::Exp | OpTag::Log | OpTag::Recip => if d0 is Some && dout is Some {
            Some(
                (
                    Strides::One,
                    "        const float x_$N = m1_load_f($a, i * sx_$N, $0u);\n        m1_store_f($o, i, "@
                        + float_unary(tag) + ");\n"@,
                ),
            )
        } else {
            None
        },
        OpTag::Neg | OpTag::Abs | OpTag::Sign => if d0 is Some && d0->0 != 3 {
            Some((Strides::One, sign_line(d0->0, tag)))
        } else {
            None
        },
        OpTag::Cast => if d0 is Some && dout is Some {
            Some((Strides::One, "        $S($o, i, $L($a, i * sx_$N, $0u));\n"@))
        } else {
            None
        },
        OpTag::Add | OpTag::Sub | OpTag::Mul | OpTag::Div | OpTag::MaxElem | OpTag::MinElem
        | OpTag::Rem => if d0 is Some && d1 is Some {
            Some(
                (
                    Strides::Two,
                    "        const $T x_$N = $X($a, i * sx_$N, $0u);\n        const $T y_$N = $X($b, i * sy_$N, $1u);\n        $Y($o, i, "@
                        + arith_expr(d0->0, tag) + ");\n"@,
                ),
            )
        } else {
            None
        },
        OpTag::Gt | OpTag::Ge | OpTag::Eq | OpTag::Ne | OpTag::Lt | OpTag::Le => if d0 is Some
            && d1 is Some {
            Some(
                (
                    Strides::Two,
                    "        const $T x_$N = $X($a, i * sx_$N, $0u);\n        const $T y_$N = $X($b, i * sy_$N, $1u);\n        m1_store_b($o, i, "@
                        + relation_expr(tag) + ");\n"@,
                ),
            )
        } else {
            None
        },
        OpTag::And => if d0 is Some && d1 is Some {
            Some(
                (
                    Strides::Two,
                    "        const bool x_$N = m1_load_b($a, i * sx_$N, $0u);\n        const bool y_$N = m1_load_b($b, i * sy_$N, $1u);\n        m1_store_b($o, i, x_$N && y_$N);\n"@,
                ),
            )
        } else {
            None
        },
        OpTag::Or => if d0 is Some && d1 is Some {
            Some(
                (
                    Strides::Two,
                    "        const bool x_$N = m1_load_b($a, i * sx_$N, $0u);\n        const bool y_$N = m1_load_b($b, i * sy_$N, $1u);\n        m1_store_b($o, i, x_$N || y_$N);\n"@,
                ),
            )
        } else {
            None
        },
        OpTag::Not => if d0 is Some {
            Some((Strides::One, "        m1_store_b($o, i, !m1_load_b($a, i * sx_$N, $0u));\n"@))
        } else {
            None
        },
        OpTag::Select => if d0 is Some && d1 is Some && d2 is Some && dout is Some {
            Some(
                (
                    Strides::Three,
                    "        const bool c_$N = m1_load_b($a, i * sc_$N, $0u);\n        $S($o, i, c_$N ? $L($b, i * sx_$N, $1u) : $L($c, i * sy_$N, $2u));\n"@,
                ),
            )
        } else {
            None
        },
        OpTag::Const => Some((Strides::Zero, const_line(lit_dtype, lit_bits))),
        OpTag::Iota => Some((Strides::Zero, "        m1_store_u($o, i, i);\n"@)),
        OpTag::Broadcast => if d0 is Some && dout is Some {
            Some(
                (
                    Strides::Mode,
                    "        uint x_$N = bc_$N == 0u ? 0u : i;\n        if (bc_$N == 2u) {\n          const M1ValueDesc bd0 = descriptors[$p];\n          const M1ValueDesc bo0 = descriptors[$B];\n          uint rem = i, source_index = 0;\n          uint source_stride[4] = {1, 1, 1, 1};\n          for (int dim = int(bo0.rank) - 2; dim >= 0; --dim)\n            source_stride[dim] = source_stride[dim + 1] * (uint(dim + 1) < bd0.rank ? bd0.dims[dim + 1] : 1u);\n          for (uint dim = 0; dim < bo0.rank; ++dim) {\n            uint stride = 1;\n            for (uint next = dim + 1; next < bo0.rank; ++next) stride *= bo0.dims[next];\n            const uint coordinate = rem / max(stride, 1u);\n            rem %= max(stride, 1u);\n            const uint source_dim = dim < bd0.rank ? bd0.dims[dim] : 1u;\n            if (source_dim != 1) source_index += coordinate * source_stride[dim];\n          }\n          x_$N = source_index;\n        }\n        $S($o, i, $L($a, x_$N, $0u));\n"@,
                ),
            )
        } else {
            None
        },
        OpTag::Reshape => if dout is Some {
            Some((Strides::Zero, "        $S($o, i, $L($a, i, $9u));\n"@))
        } else {
            None
        },
        OpTag::ChanTake | OpTag::ChanRead => if dout is Some && dout->0 != 3 {
            Some((Strides::Zero, "        $S($o, i, $L($a, i, $9u));\n"@))
        } else {
            None
        },
        _ => None,
    }
}

fn wide_template_of(
    tag: OpTag,
    d0: Option<u8>,
    d1: Option<u8>,
    d2: Option<u8>,
    dout: Option<u8>,
    lit_dtype: u8,
    lit_bits: u32,
) -> (r: Option<(Strides, String)>)
    ensures
        match r {
            Some(t) => wide_template(tag, d0, d1, d2, dout, lit_dtype, lit_bits) == Some((t.0, t.1@)),
            None => wide_template(tag, d0, d1, d2, dout, lit_dtype, lit_bits) is None,
        },
{
    match tag {
        OpTag::Exp | OpTag::Log | OpTag::Recip => match (d0, dout) {
            (Some(_), Some(_)) => Some(
                (
                    Strides::One,
                    cat3(
                        "        const float x_$N = m1_load_f($a, i * sx_$N, $0u);\n        m1_store_f($o, i, ",
                        float_unary_of(tag),
                        ");\n",
                    ),
                ),
            ),
            _ => None,
        },
        OpTag::Neg | OpTag::Abs | OpTag::Sign => match d0 {
            Some(d) => if d != 3 {
                Some((Strides::One, sign_line_of(d, tag).to_owned()))
            } else {
                None
            },
            None => None,
        },
        OpTag::Cast => match (d0, dout) {
            (Some(_), Some(_)) => Some(
                (Strides::One, "        $S($o, i, $L($a, i * sx_$N, $0u));\n".to_owned()),
            ),
            _ => None,
        },
        OpTag::Add | OpTag::Sub | OpTag::Mul | OpTag::Div | OpTag::MaxElem | OpTag::MinElem
        | OpTag::Rem => match (d0, d1) {
            (Some(d), Some(_)) => Some(
                (
                    Strides::Two,
                    cat3(
                        "        const $T x_$N = $X($a, i * sx_$N, $0u);\n        const $T y_$N = $X($b, i * sy_$N, $1u);\n        $Y($o, i, ",
                        arith_expr_of(d, tag),
                        ");\n",
                    ),
                ),
            ),
            _ => None,
        },
        OpTag::Gt | OpTag::Ge | OpTag::Eq | OpTag::Ne | OpTag::Lt | OpTag::Le => match (d0, d1) {
            (Some(_), Some(_)) => Some(
                (
                    Strides::Two,
                    cat3(
                        "        const $T x_$N = $X($a, i * sx_$N, $0u);\n        const $T y_$N = $X($b, i * sy_$N, $1u);\n        m1_store_b($o, i, ",
                        relation_expr_of(tag),
                        ");\n",
                    ),
                ),
            ),
            _ => None,
        },
        OpTag::And => match (d0, d1) {
            (Some(_), Some(_)) => Some(
                (
                    Strides::Two,
                    "        const bool x_$N = m1_load_b($a, i * sx_$N, $0u);\n        const bool y_$N = m1_load_b($b, i * sy_$N, $1u);\n        m1_store_b($o, i, x_$N && y_$N);\n".to_owned(),
                ),
            ),
            _ => None,
        },
        OpTag::Or => match (d0, d1) {
            (Some(_), Some(_)) => Some(
                (
                    Strides::Two,
                    "        const bool x_$N = m1_load_b($a, i * sx_$N, $0u);\n        const bool y_$N = m1_load_b($b, i * sy_$N, $1u);\n        m1_store_b($o, i, x_$N || y_$N);\n".to_owned(),
                ),
            ),
            _ => None,
        },
        OpTag::Not => match d0 {
            Some(_) => Some(
                (
                    Strides::One,
                    "        m1_store_b($o, i, !m1_load_b($a, i * sx_$N, $0u));\n".to_owned(),
                ),
            ),
            None => None,
        },
        OpTag::Select => match (d0, d1, d2, dout) {
            (Some(_), Some(_), Some(_), Some(_)) => Some(
                (
                    Strides::Three,
                    "        const bool c_$N = m1_load_b($a, i * sc_$N, $0u);\n        $S($o, i, c_$N ? $L($b, i * sx_$N, $1u) : $L($c, i * sy_$N, $2u));\n".to_owned(),
                ),
            ),
            _ => None,
        },
        OpTag::Const => Some((Strides::Zero, const_line_of(lit_dtype, lit_bits).to_owned())),
        OpTag::Iota => Some((Strides::Zero, "        m1_store_u($o, i, i);\n".to_owned())),
        OpTag::Broadcast => match (d0, dout) {
            (Some(_), Some(_)) => Some(
                (
                    Strides::Mode,
                    "        uint x_$N = bc_$N == 0u ? 0u : i;\n        if (bc_$N == 2u) {\n          const M1ValueDesc bd0 = descriptors[$p];\n          const M1ValueDesc bo0 = descriptors[$B];\n          uint rem = i, source_index = 0;\n          uint source_stride[4] = {1, 1, 1, 1};\n          for (int dim = int(bo0.rank) - 2; dim >= 0; --dim)\n            source_stride[dim] = source_stride[dim + 1] * (uint(dim + 1) < bd0.rank ? bd0.dims[dim + 1] : 1u);\n          for (uint dim = 0; dim < bo0.rank; ++dim) {\n            uint stride = 1;\n            for (uint next = dim + 1; next < bo0.rank; ++next) stride *= bo0.dims[next];\n            const uint coordinate = rem / max(stride, 1u);\n            rem %= max(stride, 1u);\n            const uint source_dim = dim < bd0.rank ? bd0.dims[dim] : 1u;\n            if (source_dim != 1) source_index += coordinate * source_stride[dim];\n          }\n          x_$N = source_index;\n        }\n        $S($o, i, $L($a, x_$N, $0u));\n".to_owned(),
                ),
            ),
            _ => None,
        },
        OpTag::Reshape => match dout {
            Some(_) => Some((Strides::Zero, "        $S($o, i, $L($a, i, $9u));\n".to_owned())),
            None => None,
        },
        OpTag::ChanTake | OpTag::ChanRead => match dout {
            Some(d) => if d != 3 {
                Some((Strides::Zero, "        $S($o, i, $L($a, i, $9u));\n".to_owned()))
            } else {
                None
            },
            None => None,
        },
        _ => None,
    }
}

// ---------------------------------------------------------------------------
// Filling
// ---------------------------------------------------------------------------

/// An optional number as text, nothing where it is absent.
pub open spec fn opt_dec(n: Option<u32>) -> Seq<char> {
    match n {
        Some(v) => dec(v as nat),
        None => ""@,
    }
}

/// An optional dtype byte as text.
pub open spec fn opt_byte(n: Option<u8>) -> Seq<char> {
    match n {
        Some(v) => dec(v as nat),
        None => ""@,
    }
}

fn opt_dec_of(n: Option<u32>) -> (r: String)
    ensures
        r@ == opt_dec(n),
{
    match n {
        Some(v) => dec_of(v as u64),
        None => "".to_owned(),
    }
}

fn opt_byte_of(n: Option<u8>) -> (r: String)
    ensures
        r@ == opt_byte(n),
{
    match n {
        Some(v) => dec_of(v as u64),
        None => "".to_owned(),
    }
}

/// The dtype byte, 3 (bool) where there is none.
pub open spec fn byte_or_bool(d: Option<u8>) -> u8 {
    match d {
        Some(v) => v,
        None => 3,
    }
}

fn byte_or_bool_of(d: Option<u8>) -> (r: u8)
    ensures
        r == byte_or_bool(d),
{
    match d {
        Some(v) => v,
        None => 3,
    }
}

/// What the placeholders of an op's templates stand for.
pub open spec fn wide_env(
    op: OpView,
    node: nat,
    base: u32,
    slots: SlotsView,
    types: Seq<ValueType>,
    alias: Map<u32, u32>,
) -> Map<char, Seq<char>> {
    let d0 = operand_dtype(op, alias, types, 0);
    let d1 = operand_dtype(op, alias, types, 1);
    let d2 = operand_dtype(op, alias, types, 2);
    let dout = dtype_of(types, base);
    Map::<char, Seq<char>>::empty().insert('N', dec(node)).insert('B', dec(base as nat)).insert(
        'a',
        slots.a0,
    ).insert('b', slots.a1).insert('c', slots.a2).insert('o', slots.o0).insert(
        'p',
        opt_dec(operand(op, alias, 0)),
    ).insert('q', opt_dec(operand(op, alias, 1))).insert('r', opt_dec(operand(op, alias, 2))).insert(
        '0',
        opt_byte(d0),
    ).insert('1', opt_byte(d1)).insert('2', opt_byte(d2)).insert('9', opt_byte(dout)).insert(
        'l',
        dec(op.lit_bits as nat),
    ).insert('L', typed_load(byte_or_bool(dout))).insert('S', typed_store(byte_or_bool(dout))).insert(
        'X',
        scalar_load(byte_or_bool(d0)),
    ).insert('Y', scalar_store(byte_or_bool(d0))).insert('T', scalar_name(byte_or_bool(d0)))
}

fn wide_env_of(
    op: &OpView,
    node: usize,
    base: u32,
    slots: &Slots,
    types: &[ValueType],
    alias: &AliasTable,
) -> (env: Env)
    ensures
        env@ == wide_env(*op, node as nat, base, slots@, types@, alias@),
{
    let d0 = operand_dtype_of(op, alias, types, 0);
    let d1 = operand_dtype_of(op, alias, types, 1);
    let d2 = operand_dtype_of(op, alias, types, 2);
    let dout = wire_dtype(types, base);
    let mut env = Env::new();
    env.bind('N', dec_of(node as u64).as_str());
    env.bind('B', dec_of(base as u64).as_str());
    env.bind('a', slots.a0.as_str());
    env.bind('b', slots.a1.as_str());
    env.bind('c', slots.a2.as_str());
    env.bind('o', slots.o0.as_str());
    env.bind('p', opt_dec_of(operand_of(op, alias, 0)).as_str());
    env.bind('q', opt_dec_of(operand_of(op, alias, 1)).as_str());
    env.bind('r', opt_dec_of(operand_of(op, alias, 2)).as_str());
    env.bind('0', opt_byte_of(d0).as_str());
    env.bind('1', opt_byte_of(d1).as_str());
    env.bind('2', opt_byte_of(d2).as_str());
    env.bind('9', opt_byte_of(dout).as_str());
    env.bind('l', dec_of(op.lit_bits as u64).as_str());
    env.bind('L', typed_load_of(byte_or_bool_of(dout)));
    env.bind('S', typed_store_of(byte_or_bool_of(dout)));
    env.bind('X', scalar_load_of(byte_or_bool_of(d0)));
    env.bind('Y', scalar_store_of(byte_or_bool_of(d0)));
    env.bind('T', scalar_name_of(byte_or_bool_of(d0)));
    env
}

/// The declarations and the guarded per-element code of an op that has a
/// direct form.
pub open spec fn wide_text(
    op: OpView,
    node: nat,
    base: u32,
    slots: SlotsView,
    types: Seq<ValueType>,
    alias: Map<u32, u32>,
) -> Option<(Seq<char>, Seq<char>)> {
    let env = wide_env(op, node, base, slots, types, alias);
    match wide_template(
        op.tag,
        operand_dtype(op, alias, types, 0),
        operand_dtype(op, alias, types, 1),
        operand_dtype(op, alias, types, 2),
        dtype_of(types, base),
        op.lit_dtype,
        op.lit_bits,
    ) {
        Some(t) => Some(
            (
                fill(strides_template(t.0), env),
                fill("      if (i < m4_n_$N) {\n"@ + t.1 + "      }\n"@, env),
            ),
        ),
        None => None,
    }
}

/// The declarations and the guarded per-element code of an op whose tag and
/// dtypes have a direct form; `None` sends it through the generic runtime call.
pub fn direct_wide(
    op: &OpView,
    node: usize,
    base: u32,
    slots: &Slots,
    value_types: &[ValueType],
    alias: &AliasTable,
) -> (r: Option<(String, String)>)
    ensures
        match r {
            Some(t) => wide_text(*op, node as nat, base, slots@, value_types@, alias@) == Some(
                (t.0@, t.1@),
            ),
            None => wide_text(*op, node as nat, base, slots@, value_types@, alias@) is None,
        },
{
    let d0 = operand_dtype_of(op, alias, value_types, 0);
    let d1 = operand_dtype_of(op, alias, value_types, 1);
    let d2 = operand_dtype_of(op, alias, value_types, 2);
    let dout = wire_dtype(value_types, base);
    match wide_template_of(op.tag, d0, d1, d2, dout, op.lit_dtype, op.lit_bits) {
        Some((strides, lines)) => {
            let env = wide_env_of(op, node, base, slots, value_types, alias);
            let inner = cat3("      if (i < m4_n_$N) {\n", lines.as_str(), "      }\n");
            Some((filled(strides_template_of(&strides), &env), filled(inner.as_str(), &env)))
        },
        None => None,
    }
}

/// The expression that points at a value in a lane's scratch.
pub fn value_ptr(value: u32) -> (r: String)
    ensures
        r@ == "scratch + offsets["@ + dec(value as nat) + "]"@,
{
    let d = dec_of(value as u64);
    let head = cat2("scratch + offsets[", d.as_str());
    cat2(head.as_str(), "]")
}

} // verus!
