//! K-quant matmuls on Metal: a stored weight is rows of 256-element
//! super-blocks, decoded inside the dot.
//!
//! A K-quant carries no second plane and no dtype to dispatch on. Each
//! scheme's super-block byte width is distinct, so a row's byte width over the
//! activation's contraction names the scheme. What is decided here is the
//! launch: the entry, the grid and the bound axes.

use vstd::prelude::*;
use vstd::string::*;

use crate::format::{dec, dec_of};
use crate::text::cat3;

verus! {

/// The shader file of the family.
pub const FILE: &'static str = "linear/kquant.metal";

/// Elements in one super-block, all five schemes.
pub const SUPER: u32 = 256;

/// Weight rows one simdgroup folds.
pub const ROWS_PER_WARP: u32 = 4;

/// Simdgroups a threadgroup launches.
pub const NUM_SIMD: u32 = 4;

/// Lanes of a simdgroup.
pub const LANES: u32 = 32;

/// The K-quant schemes.
#[derive(Clone, Copy, Debug, PartialEq, Eq, Structural)]
pub enum Scheme {
    Q2k,
    Q3k,
    Q4k,
    Q5k,
    Q6k,
}

/// Bytes of one super-block.
pub open spec fn block_bytes(s: Scheme) -> int {
    match s {
        Scheme::Q2k => 84,
        Scheme::Q3k => 110,
        Scheme::Q4k => 144,
        Scheme::Q5k => 176,
        Scheme::Q6k => 210,
    }
}

/// The scheme's name in an entry.
pub open spec fn tag_text(s: Scheme) -> Seq<char> {
    match s {
        Scheme::Q2k => "q2k"@,
        Scheme::Q3k => "q3k"@,
        Scheme::Q4k => "q4k"@,
        Scheme::Q5k => "q5k"@,
        Scheme::Q6k => "q6k"@,
    }
}

impl Scheme {
    /// The scheme's name in an entry.
    pub fn tag(&self) -> (r: &'static str)
        ensures
            r@ == tag_text(*self),
    {
        match self {
            Scheme::Q2k => "q2k",
            Scheme::Q3k => "q3k",
            Scheme::Q4k => "q4k",
            Scheme::Q5k => "q5k",
            Scheme::Q6k => "q6k",
        }
    }
}

/// Element classes of a tensor.
#[derive(Clone, Copy, Debug, PartialEq, Eq, Structural)]
pub enum Dtype {
    Bf16,
    F16,
    U8,
    Other,
}

/// A bound rectangle.
#[derive(Clone, Copy, Debug, PartialEq, Eq, Structural)]
pub struct Tensor {
    pub handle: u64,
    pub rows: u32,
    pub width: u32,
    pub dtype: Dtype,
}

/// Why a projection does not launch.
#[derive(Clone, Copy, Debug, PartialEq, Eq, Structural)]
pub enum Why {
    /// The activation's dtype has no entry.
    Dtype,
    /// A projection with a zero axis.
    ZeroAxis,
    /// The contraction is not a whole number of super-blocks.
    Contraction { k: u32 },
    /// The row's byte width names no scheme.
    Width { row_bytes: u32, k: u32 },
    /// The token count does not fit the grid.
    Tokens { m: u32 },
}

/// A refusal, with the op that made it.
pub struct Refusal {
    pub op: &'static str,
    pub why: Why,
}

/// The wording of a refusal. The dtype's own is the dispatcher's.
pub open spec fn why_text(why: Why) -> Option<Seq<char>> {
    match why {
        Why::Dtype => None,
        Why::ZeroAxis => Some("a projection with a zero axis"@),
        Why::Contraction { k } => Some(
            "K is "@ + dec(k as nat)
                + ", not a whole number of 256-element K-quant super-blocks"@,
        ),
        Why::Width { row_bytes, k } => Some(
            "a "@ + dec(row_bytes as nat)
                + "-byte weight row is none of the five K-quant widths over a "@ + dec(k as nat)
                + "-wide contraction ("@ + dec((k / 256) as nat) + " super-blocks)"@,
        ),
        Why::Tokens { m } => Some(dec(m as nat) + " tokens will not launch"@),
    }
}

impl Refusal {
    /// The wording of the refusal, `None` for a dtype.
    pub fn message(&self) -> (r: Option<String>)
        ensures
            match r {
                Some(s) => why_text(self.why) == Some(s@),
                None => why_text(self.why) is None,
            },
    {
        match self.why {
            Why::Dtype => None,
            Why::ZeroAxis => Some("a projection with a zero axis".to_owned()),
            Why::Contraction { k } => Some(
                cat3(
                    "K is ",
                    dec_of(k as u64).as_str(),
                    ", not a whole number of 256-element K-quant super-blocks",
                ),
            ),
            Why::Width { row_bytes, k } => {
                let mut s = "a ".to_owned();
                s.append(dec_of(row_bytes as u64).as_str());
                s.append("-byte weight row is none of the five K-quant widths over a ");
                s.append(dec_of(k as u64).as_str());
                s.append("-wide contraction (");
                s.append(dec_of((k / 256) as u64).as_str());
                s.append(" super-blocks)");
                Some(s)
            },
            Why::Tokens { m } => {
                let mut s = dec_of(m as u64);
                s.append(" tokens will not launch");
                Some(s)
            },
        }
    }
}

/// A row of `row_bytes` over a `k`-wide contraction is made of the scheme's
/// super-blocks.
pub open spec fn row_is(s: Scheme, k: u32, row_bytes: u32) -> bool {
    (k / 256) * block_bytes(s) == row_bytes as int
}

/// The scheme that a row's byte width names, narrowest first.
pub open spec fn scheme_of(k: u32, row_bytes: u32) -> Option<Scheme> {
    if row_is(Scheme::Q2k, k, row_bytes) {
        Some(Scheme::Q2k)
    } else if row_is(Scheme::Q3k, k, row_bytes) {
        Some(Scheme::Q3k)
    } else if row_is(Scheme::Q4k, k, row_bytes) {
        Some(Scheme::Q4k)
    } else if row_is(Scheme::Q5k, k, row_bytes) {
        Some(Scheme::Q5k)
    } else if row_is(Scheme::Q6k, k, row_bytes) {
        Some(Scheme::Q6k)
    } else {
        None
    }
}

/// A row of at least one super-block names its scheme unambiguously: a scheme
/// fits the row exactly where it is the one answered.
pub proof fn law_a_row_names_one_scheme(s: Scheme, k: u32, row_bytes: u32)
    requires
        k >= 256,
    ensures
        row_is(s, k, row_bytes) <==> scheme_of(k, row_bytes) == Some(s),
{
    let b = (k / 256) as int;
    assert(b >= 1);
    assert(b * 84 < b * 110 && b * 110 < b * 144 && b * 144 < b * 176 && b * 176 < b * 210)
        by (nonlinear_arith)
        requires
            b >= 1,
    ;
}

fn fits(blocks: u32, width: u32, row_bytes: u32) -> (r: bool)
    ensures
        r == (blocks * width == row_bytes as int),
{
    match blocks.checked_mul(width) {
        Some(n) => n == row_bytes,
        None => false,
    }
}

/// Which K-quant a weight row's byte width names, over a `k`-wide contraction.
pub fn scheme(op: &'static str, k: u32, row_bytes: u32) -> (r: Result<Scheme, Refusal>)
    ensures
        match r {
            Ok(s) => scheme_of(k, row_bytes) == Some(s),
            Err(e) => scheme_of(k, row_bytes) is None && e == (Refusal {
                op,
                why: Why::Width { row_bytes, k },
            }),
        },
{
    let blocks: u32 = k / SUPER;
    if fits(blocks, 84, row_bytes) {
        Ok(Scheme::Q2k)
    } else if fits(blocks, 110, row_bytes) {
        Ok(Scheme::Q3k)
    } else if fits(blocks, 144, row_bytes) {
        Ok(Scheme::Q4k)
    } else if fits(blocks, 176, row_bytes) {
        Ok(Scheme::Q5k)
    } else if fits(blocks, 210, row_bytes) {
        Ok(Scheme::Q6k)
    } else {
        Err(Refusal { op, why: Why::Width { row_bytes, k } })
    }
}

/// One launch: the entry in [`FILE`], the thread grid and its group, the bound
/// tensors and the two stated axes.
pub struct Launch {
    pub entry: String,
    pub lanes: [u32; 3],
    pub group: [u32; 3],
    pub act: Tensor,
    pub w: Tensor,
    pub y: Tensor,
    pub n: u32,
    pub k: u32,
}

/// An activation dtype's name in an entry.
pub open spec fn dtype_text(d: Dtype) -> Option<Seq<char>> {
    match d {
        Dtype::Bf16 => Some("bfloat16"@),
        Dtype::F16 => Some("float16"@),
        _ => None,
    }
}

/// The reason a projection is refused, in the order the reasons are looked at.
pub open spec fn refused(act: Tensor, w: Tensor, y: Tensor) -> Option<Why> {
    if dtype_text(act.dtype) is None {
        Some(Why::Dtype)
    } else if y.width == 0 || act.width == 0 {
        Some(Why::ZeroAxis)
    } else if act.width % 256 != 0 {
        Some(Why::Contraction { k: act.width })
    } else if scheme_of(act.width, w.width) is None {
        Some(Why::Width { row_bytes: w.width, k: act.width })
    } else if act.rows * 32 > u32::MAX {
        Some(Why::Tokens { m: act.rows })
    } else {
        None
    }
}

/// The launch of an accepted projection with rows.
pub open spec fn launch_is(l: Launch, act: Tensor, w: Tensor, y: Tensor) -> bool {
    &&& l.entry@ == "kquant_matmul_"@ + tag_text(scheme_of(act.width, w.width)->0) + "_"@
        + dtype_text(act.dtype)->0 + "_r_4"@
    &&& l.lanes@ == seq![(act.rows * 32) as u32, ((y.width + 3) / 4) as u32, 1u32]
    &&& l.group@ == seq![32u32, 4u32, 1u32]
    &&& l.act == act
    &&& l.w == w
    &&& l.y == y
    &&& l.n == y.width
    &&& l.k == act.width
}

fn kquant(op: &'static str, act: Tensor, w: Tensor, y: Tensor) -> (r: Result<Option<Launch>, Refusal>)
    ensures
        match r {
            Err(e) => refused(act, w, y) == Some(e.why) && e.op == op,
            Ok(None) => refused(act, w, y) is None && act.rows == 0,
            Ok(Some(l)) => refused(act, w, y) is None && act.rows > 0 && launch_is(l, act, w, y),
        },
{
    let t = match act.dtype {
        Dtype::Bf16 => "bfloat16",
        Dtype::F16 => "float16",
        _ => {
            return Err(Refusal { op, why: Why::Dtype });
        },
    };
    let m = act.rows;
    let n = y.width;
    let k = act.width;
    if n == 0 || k == 0 {
        return Err(Refusal { op, why: Why::ZeroAxis });
    }
    if k % SUPER != 0 {
        return Err(Refusal { op, why: Why::Contraction { k } });
    }
    let found = match scheme(op, k, w.width) {
        Ok(s) => s,
        Err(e) => {
            return Err(e);
        },
    };
    if m == 0 {
        return Ok(None);
    }
    let x = match m.checked_mul(LANES) {
        Some(x) => x,
        None => {
            return Err(Refusal { op, why: Why::Tokens { m } });
        },
    };
    let mut entry = "kquant_matmul_".to_owned();
    entry.append(found.tag());
    entry.append("_");
    entry.append(t);
    entry.append("_r_4");
    let rows: u32 = n / ROWS_PER_WARP + (if n % ROWS_PER_WARP == 0 {
        0u32
    } else {
        1u32
    });
    let l = Launch { entry, lanes: [x, rows, 1], group: [LANES, NUM_SIMD, 1], act, w, y, n, k };
    proof {
        assert(l.lanes@ =~= seq![(act.rows * 32) as u32, ((y.width + 3) / 4) as u32, 1u32]);
        assert(l.group@ =~= seq![32u32, 4u32, 1u32]);
    }
    Ok(Some(l))
}

/// The launch of `y = act x w^T` where `w` is a stored K-quant rectangle;
/// `None` where there are no rows to land.
pub fn matmul(act: Tensor, w: Tensor, y: Tensor) -> (r: Result<Option<Launch>, Refusal>)
    ensures
        match r {
            Err(e) => refused(act, w, y) == Some(e.why) && e.op@ == "linear.kquant.matmul"@,
            Ok(None) => refused(act, w, y) is None && act.rows == 0,
            Ok(Some(l)) => refused(act, w, y) is None && act.rows > 0 && launch_is(l, act, w, y),
        },
{
    kquant("linear.kquant.matmul", act, w, y)
}

/// The head's stored-block arm.
pub fn lm_head(act: Tensor, w: Tensor, y: Tensor) -> (r: Result<Option<Launch>, Refusal>)
    ensures
        match r {
            Err(e) => refused(act, w, y) == Some(e.why) && e.op@ == "linear.kquant.lm_head"@,
            Ok(None) => refused(act, w, y) is None && act.rows == 0,
            Ok(Some(l)) => refused(act, w, y) is None && act.rows > 0 && launch_is(l, act, w, y),
        },
{
    kquant("linear.kquant.lm_head", act, w, y)
}

/// The bits of a weight's own value.
pub open spec fn weight_bits(s: Scheme) -> int {
    match s {
        Scheme::Q2k => 2,
        Scheme::Q3k => 3,
        Scheme::Q4k => 4,
        Scheme::Q5k => 5,
        Scheme::Q6k => 6,
    }
}

/// The bytes of a super-block's scales: sixteen of a byte each or packed in twelve,
/// and one or two half-precision factors over them.
pub open spec fn scale_bytes(s: Scheme) -> int {
    match s {
        Scheme::Q2k => 16int + 4,
        Scheme::Q3k => 12int + 2,
        Scheme::Q4k => 12int + 4,
        Scheme::Q5k => 12int + 4,
        Scheme::Q6k => 16int + 2,
    }
}

/// A super-block is the bits of its 256 weights and its scales, and each scheme has
/// a name of its own.
pub proof fn law_a_super_block_holds_its_weights(s: Scheme, t: Scheme)
    ensures
        8 * block_bytes(s) == 256 * weight_bits(s) + 8 * scale_bytes(s),
        tag_text(s) == tag_text(t) <==> s == t,
        tag_text(s).len() == 3,
        tag_text(s)[1] as int == '0' as int + weight_bits(s),
{
    reveal_strlit("q2k");
    reveal_strlit("q3k");
    reveal_strlit("q4k");
    reveal_strlit("q5k");
    reveal_strlit("q6k");
    assert("q2k"@[1] == '2' && "q3k"@[1] == '3' && "q4k"@[1] == '4' && "q5k"@[1] == '5' && "q6k"@[1]
        == '6');
}

/// A row names a scheme exactly where it is made of that scheme's super-blocks.
pub proof fn law_a_row_is_its_super_blocks(k: u32, row_bytes: u32, s: Scheme)
    requires
        k >= 256,
    ensures
        scheme_of(k, row_bytes) == Some(s) <==> row_bytes as int == (k / 256) * block_bytes(s),
        scheme_of(k, row_bytes) is None <==> forall|t: Scheme|
            row_bytes as int != (k / 256) * #[trigger] block_bytes(t),
{
    let b = (k / 256) as int;
    assert(b >= 1);
    assert(b * 84 < b * 110 && b * 110 < b * 144 && b * 144 < b * 176 && b * 176 < b * 210)
        by (nonlinear_arith)
        requires
            b >= 1,
    ;
    assert(block_bytes(Scheme::Q2k) == 84 && block_bytes(Scheme::Q3k) == 110 && block_bytes(
        Scheme::Q4k,
    ) == 144 && block_bytes(Scheme::Q5k) == 176 && block_bytes(Scheme::Q6k) == 210);
}

/// A projection is accepted exactly where its activations are of a half-width
/// float, no axis is empty, its contraction is whole super-blocks, its weight rows
/// are of one of the schemes and its tokens fit a launch.
pub proof fn law_a_projection_is_accepted_whole(act: Tensor, w: Tensor, y: Tensor)
    ensures
        refused(act, w, y) is None <==> (act.dtype == Dtype::Bf16 || act.dtype == Dtype::F16)
            && y.width > 0 && act.width > 0 && act.width % 256 == 0 && scheme_of(
            act.width,
            w.width,
        ) is Some && act.rows * 32 <= u32::MAX,
        act.dtype != Dtype::Bf16 && act.dtype != Dtype::F16 <==> refused(act, w, y) == Some(Why::Dtype),
        refused(act, w, y) matches Some(Why::Contraction { k }) ==> k == act.width && k % 256 != 0,
        refused(act, w, y) matches Some(Why::Width { row_bytes, k }) ==> row_bytes == w.width && k
            == act.width && scheme_of(k, row_bytes) is None,
        refused(act, w, y) matches Some(Why::Tokens { m }) ==> m == act.rows && m * 32 > u32::MAX,
        refused(act, w, y) == Some(Why::ZeroAxis) ==> y.width == 0 || act.width == 0,
{
}

/// A launch has a lane of 32 threads for each token and a row of four for every
/// four outputs, the last one filled or not, and its entry names its scheme and its
/// activations.
pub proof fn law_a_launch_covers_the_output(l: Launch, act: Tensor, w: Tensor, y: Tensor)
    requires
        refused(act, w, y) is None,
        launch_is(l, act, w, y),
    ensures
        l.lanes@[0] == act.rows * l.group@[0],
        l.group@[0] == 32,
        4 * l.lanes@[1] >= y.width,
        y.width > 4 * (l.lanes@[1] - 1),
        l.k == act.width && l.n == y.width,
        l.act == act && l.w == w && l.y == y,
        act.dtype == Dtype::Bf16 ==> l.entry@ == "kquant_matmul_"@ + tag_text(
            scheme_of(act.width, w.width)->0,
        ) + "_"@ + "bfloat16"@ + "_r_4"@,
        act.dtype == Dtype::F16 ==> l.entry@ == "kquant_matmul_"@ + tag_text(
            scheme_of(act.width, w.width)->0,
        ) + "_"@ + "float16"@ + "_r_4"@,
{
}

/// A refusal names the numbers that it is about: a contraction that is no whole
/// number of blocks, a row's bytes and its contraction, or the tokens.
pub proof fn law_a_refusal_names_its_numbers(k: u32, row_bytes: u32, m: u32)
    ensures
        ({
            let c = why_text(Why::Contraction { k })->0;
            let w = why_text(Why::Width { row_bytes, k })->0;
            let t = why_text(Why::Tokens { m })->0;
            let a = "K is "@.len() as int;
            let b = "a "@.len() as int;
            let e = b + dec(row_bytes as nat).len()
                + "-byte weight row is none of the five K-quant widths over a "@.len();
            &&& c.subrange(a, a + dec(k as nat).len()) == dec(k as nat)
            &&& w.subrange(b, b + dec(row_bytes as nat).len()) == dec(row_bytes as nat)
            &&& w.subrange(e, e + dec(k as nat).len()) == dec(k as nat)
            &&& t.subrange(0, dec(m as nat).len() as int) == dec(m as nat)
        }),
        why_text(Why::Dtype) is None,
        why_text(Why::ZeroAxis) is Some,
{
    let c = why_text(Why::Contraction { k })->0;
    let w = why_text(Why::Width { row_bytes, k })->0;
    let t = why_text(Why::Tokens { m })->0;
    let a = "K is "@.len() as int;
    let b = "a "@.len() as int;
    let e = b + dec(row_bytes as nat).len()
        + "-byte weight row is none of the five K-quant widths over a "@.len();
    assert(c.subrange(a, a + dec(k as nat).len()) =~= dec(k as nat));
    assert(w.subrange(b, b + dec(row_bytes as nat).len()) =~= dec(row_bytes as nat));
    assert(w.subrange(e, e + dec(k as nat).len()) =~= dec(k as nat));
    assert(t.subrange(0, dec(m as nat).len() as int) =~= dec(m as nat));
}

} // verus!
