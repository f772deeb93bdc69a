//! What the text of a streamed kernel's ops computes.
//!
//! An element's lines are read as a program over what its operands hold: a
//! [`Term`] has a text and a value, so that the text that is emitted for an op
//! can be held against the number that the op is for.

use vstd::arithmetic::div_mod::{lemma_add_mod_noop, lemma_mul_mod_noop, lemma_sub_mod_noop};
use vstd::prelude::*;
use vstd::string::*;

use super::wide::{
    arith_expr, byte_or_bool, const_line, dtype_of, float_unary, operand, operand_dtype,
    relation_expr, resolve, scalar_load, scalar_name, scalar_store, sign_line, strides_template,
    typed_load, typed_store, wide_env, wide_template, wide_text, OpTag, OpView, SlotsView, Strides,
    ValueType,
};
use crate::format::{
    dec, fill, law_a_placeholder_is_filled, law_other_text_stays, law_pieces_are_filled_one_by_one,
    lookup,
};

verus! {

// ---------------------------------------------------------------------------
// Terms
// ---------------------------------------------------------------------------

/// How a cell is read or written: as one of the four dtypes, as the result's,
/// or as the arithmetic of the first operand.
pub enum Access {
    Float,
    Int,
    Uint,
    Bool,
    Result,
    First,
}

/// An infix operator.
pub enum Sign {
    Plus,
    Minus,
    Times,
    Over,
    Percent,
    Above,
    AtLeast,
    Equal,
    Unequal,
    Below,
    AtMost,
    Both,
    Either,
}

/// A function of the shading language or of the runtime.
pub enum Function {
    Exp,
    Log,
    Abs,
    Fmod,
    Max,
    Min,
    ElementMax,
    ElementMin,
}

/// A literal.
pub enum Number {
    Zero,
    One,
    MinusOne,
    ZeroUint,
    OneUint,
    ZeroFloat,
    OneFloat,
    MinusOneFloat,
    IntMin,
    True,
    False,
}

/// The dtype that a read names: that of its operand, that of the result, or a
/// literal one.
pub enum Named {
    Own,
    Result,
    Digit(int),
}

/// An expression of an element's lines.
pub enum Term {
    /// The local `x`, `y` or `c` of the node.
    Local(char),
    /// The element's index.
    Index,
    /// The op's literal bits.
    Bits,
    Number(Number),
    /// Operand `k`, at the index times the stride of that letter, or at the
    /// index itself.
    Read(Access, int, Option<char>, Named),
    Infix(Sign, Box<Term>, Box<Term>),
    Minus(Box<Term>),
    Bang(Box<Term>),
    ToInt(Box<Term>),
    ToUint(Box<Term>),
    AsFloat(Box<Term>),
    Call(Function, Box<Term>),
    Pair(Function, Box<Term>, Box<Term>),
    Choice(Box<Term>, Box<Term>, Box<Term>),
    Group(Box<Term>),
}

/// The lines of an element: locals that are read, then what is stored.
pub struct Program {
    pub locals: Seq<(char, Access, Term)>,
    pub store: Access,
    pub result: Term,
    /// Whether all stands on one line, in braces.
    pub braced: bool,
}

// ---------------------------------------------------------------------------
// Text
// ---------------------------------------------------------------------------

pub open spec fn loader(a: Access) -> Seq<char> {
    match a {
        Access::Float => seq!['m', '1', '_', 'l', 'o', 'a', 'd', '_', 'f'],
        Access::Int => seq!['m', '1', '_', 'l', 'o', 'a', 'd', '_', 'i'],
        Access::Uint => seq!['m', '1', '_', 'l', 'o', 'a', 'd', '_', 'u'],
        Access::Bool => seq!['m', '1', '_', 'l', 'o', 'a', 'd', '_', 'b'],
        Access::Result => seq!['$', 'L'],
        Access::First => seq!['$', 'X'],
    }
}

pub open spec fn storer(a: Access) -> Seq<char> {
    match a {
        Access::Float => seq!['m', '1', '_', 's', 't', 'o', 'r', 'e', '_', 'f'],
        Access::Int => seq!['m', '1', '_', 's', 't', 'o', 'r', 'e', '_', 'i'],
        Access::Uint => seq!['m', '1', '_', 's', 't', 'o', 'r', 'e', '_', 'u'],
        Access::Bool => seq!['m', '1', '_', 's', 't', 'o', 'r', 'e', '_', 'b'],
        Access::Result => seq!['$', 'S'],
        Access::First => seq!['$', 'Y'],
    }
}

pub open spec fn named(a: Access) -> Seq<char> {
    match a {
        Access::Float => seq!['f', 'l', 'o', 'a', 't'],
        Access::Int => seq!['i', 'n', 't'],
        Access::Uint => seq!['u', 'i', 'n', 't'],
        Access::Bool => seq!['b', 'o', 'o', 'l'],
        _ => seq!['$', 'T'],
    }
}

pub open spec fn symbol(s: Sign) -> Seq<char> {
    match s {
        Sign::Plus => seq![' ', '+', ' '],
        Sign::Minus => seq![' ', '-', ' '],
        Sign::Times => seq![' ', '*', ' '],
        Sign::Over => seq![' ', '/', ' '],
        Sign::Percent => seq![' ', '%', ' '],
        Sign::Above => seq![' ', '>', ' '],
        Sign::AtLeast => seq![' ', '>', '=', ' '],
        Sign::Equal => seq![' ', '=', '=', ' '],
        Sign::Unequal => seq![' ', '!', '=', ' '],
        Sign::Below => seq![' ', '<', ' '],
        Sign::AtMost => seq![' ', '<', '=', ' '],
        Sign::Both => seq![' ', '&', '&', ' '],
        Sign::Either => seq![' ', '|', '|', ' '],
    }
}

pub open spec fn called(f: Function) -> Seq<char> {
    match f {
        Function::Exp => seq!['p', 'r', 'e', 'c', 'i', 's', 'e', ':', ':', 'e', 'x', 'p'],
        Function::Log => seq!['p', 'r', 'e', 'c', 'i', 's', 'e', ':', ':', 'l', 'o', 'g'],
        Function::Abs => seq!['a', 'b', 's'],
        Function::Fmod => seq!['f', 'm', 'o', 'd'],
        Function::Max => seq!['m', 'a', 'x'],
        Function::Min => seq!['m', 'i', 'n'],
        Function::ElementMax => seq!['m', '1', '_', 'e', 'l', 'e', 'm', 'e', 'n', 't', '_', 'm', 'a', 'x'],
        Function::ElementMin => seq!['m', '1', '_', 'e', 'l', 'e', 'm', 'e', 'n', 't', '_', 'm', 'i', 'n'],
    }
}

pub open spec fn numeral(n: Number) -> Seq<char> {
    match n {
        Number::Zero => seq!['0'],
        Number::One => seq!['1'],
        Number::MinusOne => seq!['-', '1'],
        Number::ZeroUint => seq!['0', 'u'],
        Number::OneUint => seq!['1', 'u'],
        Number::ZeroFloat => seq!['0', '.', '0', 'f'],
        Number::OneFloat => seq!['1', '.', '0', 'f'],
        Number::MinusOneFloat => seq!['-', '1', '.', '0', 'f'],
        Number::IntMin => seq!['I', 'N', 'T', '_', 'M', 'I', 'N'],
        Number::True => seq!['t', 'r', 'u', 'e'],
        Number::False => seq!['f', 'a', 'l', 's', 'e'],
    }
}

/// The placeholder of operand `k`'s pointer.
pub open spec fn pointer_letter(k: int) -> char {
    if k == 0 {
        'a'
    } else if k == 1 {
        'b'
    } else {
        'c'
    }
}

/// The placeholder of the value that operand `k` is.
pub open spec fn value_letter(k: int) -> char {
    if k == 0 {
        'p'
    } else if k == 1 {
        'q'
    } else {
        'r'
    }
}

pub open spec fn digit(k: int) -> char {
    if k == 0 {
        '0'
    } else if k == 1 {
        '1'
    } else {
        '2'
    }
}

/// Where a read stands.
pub open spec fn place(by: Option<char>) -> Seq<char> {
    match by {
        Some(s) => seq!['i', ' ', '*', ' ', 's'] + seq![s] + seq!['_', '$', 'N'],
        None => seq!['i'],
    }
}

/// The dtype that a read of operand `k` names.
pub open spec fn dtype_text(n: Named, k: int) -> Seq<char> {
    match n {
        Named::Own => seq!['$', digit(k)],
        Named::Result => seq!['$', '9'],
        Named::Digit(d) => seq![digit(d)],
    }
}

/// The text of a term.
pub open spec fn print(t: Term) -> Seq<char>
    decreases t,
{
    match t {
        Term::Local(v) => seq![v, '_', '$', 'N'],
        Term::Index => seq!['i'],
        Term::Bits => seq!['$', 'l', 'u'],
        Term::Number(n) => numeral(n),
        Term::Read(how, k, by, n) => loader(how) + seq!['(', '$', pointer_letter(k), ',', ' ']
            + place(by) + seq![',', ' '] + dtype_text(n, k) + seq!['u', ')'],
        Term::Infix(s, a, b) => print(*a) + symbol(s) + print(*b),
        Term::Minus(a) => seq!['-'] + print(*a),
        Term::Bang(a) => seq!['!'] + print(*a),
        Term::ToInt(a) => seq!['i', 'n', 't', '('] + print(*a) + seq![')'],
        Term::ToUint(a) => seq!['u', 'i', 'n', 't', '('] + print(*a) + seq![')'],
        Term::AsFloat(a) => seq!['a', 's', '_', 't', 'y', 'p', 'e', '<', 'f', 'l', 'o', 'a', 't', '>', '('] + print(*a) + seq![')'],
        Term::Call(f, a) => called(f) + seq!['('] + print(*a) + seq![')'],
        Term::Pair(f, a, b) => called(f) + seq!['('] + print(*a) + seq![',', ' '] + print(*b)
            + seq![')'],
        Term::Choice(c, a, b) => print(*c) + seq![' ', '?', ' '] + print(*a) + seq![' ', ':', ' '] + print(*b),
        Term::Group(a) => seq!['('] + print(*a) + seq![')'],
    }
}

/// Whether a term's text can be an operand without brackets.
pub open spec fn tight(t: Term) -> bool {
    !(t is Infix) && !(t is Choice)
}

/// Whether a term's text can be read in only that way.
pub open spec fn legible(t: Term) -> bool
    decreases t,
{
    match t {
        Term::Infix(_, a, b) => tight(*a) && tight(*b) && legible(*a) && legible(*b),
        Term::Minus(a) => tight(*a) && legible(*a),
        Term::Bang(a) => tight(*a) && legible(*a),
        Term::ToInt(a) => legible(*a),
        Term::ToUint(a) => legible(*a),
        Term::AsFloat(a) => legible(*a),
        Term::Call(_, a) => legible(*a),
        Term::Pair(_, a, b) => legible(*a) && legible(*b),
        Term::Choice(c, a, b) => !(*c is Choice) && !(*a is Choice) && !(*b is Choice) && legible(*c)
            && legible(*a) && legible(*b),
        Term::Group(a) => legible(*a),
        _ => true,
    }
}

/// The text of a local's declaration.
pub open spec fn declared(l: (char, Access, Term)) -> Seq<char> {
    seq!['c', 'o', 'n', 's', 't', ' '] + named(l.1) + seq![' ', l.0, '_', '$', 'N', ' ', '=', ' '] + print(l.2) + seq![';']
}

/// The text of the store.
pub open spec fn stored(p: Program) -> Seq<char> {
    storer(p.store) + seq!['(', '$', 'o', ',', ' ', 'i', ',', ' '] + print(p.result) + seq![')', ';']
}

/// The text of a program.
pub open spec fn lines(p: Program) -> Seq<char> {
    let indent = seq![' ', ' ', ' ', ' ', ' ', ' ', ' ', ' '];
    if p.braced {
        indent + seq!['{', ' '] + declared(p.locals[0]) + seq![' '] + stored(p) + seq![' ', '}'] + seq!['\n']
    } else if p.locals.len() == 0 {
        indent + stored(p) + seq!['\n']
    } else if p.locals.len() == 1 {
        indent + declared(p.locals[0]) + seq!['\n'] + indent + stored(p) + seq!['\n']
    } else {
        indent + declared(p.locals[0]) + seq!['\n'] + indent + declared(p.locals[1]) + seq!['\n']
            + indent + stored(p) + seq!['\n']
    }
}

// ---------------------------------------------------------------------------
// Values
// ---------------------------------------------------------------------------

/// What the language leaves to the machine: the arithmetic of floats, division,
/// signed arithmetic that overflows, and what the cells hold.
pub struct Machine {
    pub float: spec_fn(Sign, int, int) -> int,
    pub opposite: spec_fn(int) -> int,
    pub signed: spec_fn(Sign, int, int) -> int,
    pub unsigned: spec_fn(Sign, int, int) -> int,
    pub function: spec_fn(Function, int, int) -> int,
    pub from_bits: spec_fn(int) -> int,
    /// The cell of an operand, read as a dtype: the dtype that it is read as,
    /// the operand, the index and the dtype that the read names.
    pub cell: spec_fn(int, int, int, int) -> int,
}

/// Where a program runs: the element, the op's literal, the operands' lengths
/// and the dtypes of the operands and of the result.
pub struct Place {
    pub machine: Machine,
    pub index: int,
    pub bits: int,
    pub len: spec_fn(int) -> int,
    pub dtype: spec_fn(int) -> int,
    pub result: int,
}

/// The stride of operand `k`: 0 for a scalar.
pub open spec fn stride(p: Place, k: int) -> int {
    if (p.len)(k) == 1 {
        0
    } else {
        1
    }
}

/// Which operand each stride letter is declared for.
pub open spec fn lane(s: Strides, letter: char) -> int {
    match s {
        Strides::Three => if letter == 'c' {
            0
        } else if letter == 'x' {
            1
        } else {
            2
        },
        _ => if letter == 'x' {
            0
        } else {
            1
        },
    }
}

/// The kind of number that a read as `a` gives: 0 float, 1 int, 2 uint, 3 bool.
pub open spec fn kind(a: Access, p: Place) -> int {
    match a {
        Access::Float => 0,
        Access::Int => 1,
        Access::Uint => 2,
        Access::Bool => 3,
        Access::Result => if 0 <= p.result <= 2 {
            p.result
        } else {
            3
        },
        Access::First => if 0 <= (p.dtype)(0) <= 1 {
            (p.dtype)(0)
        } else {
            2
        },
    }
}

/// 2 to the 32.
pub open spec fn span() -> int {
    0x1_0000_0000
}

/// The number that 32 bits hold as an unsigned one.
pub open spec fn unsigned(v: int) -> int {
    v % span()
}

/// The number that 32 bits hold as a signed one.
pub open spec fn signed(v: int) -> int {
    if v % span() >= 0x8000_0000 {
        v % span() - span()
    } else {
        v % span()
    }
}

/// `v` in the 32 bits of an integer kind.
pub open spec fn wrapped(kind: int, v: int) -> int {
    if kind == 1 {
        signed(v)
    } else {
        unsigned(v)
    }
}

/// Whether `v` is a number of that kind.
pub open spec fn fits(kind: int, v: int) -> bool {
    if kind == 0 {
        true
    } else if kind == 1 {
        -0x8000_0000 <= v < 0x8000_0000
    } else if kind == 2 {
        0 <= v < span()
    } else {
        v == 0 || v == 1
    }
}

pub open spec fn truth(b: bool) -> int {
    if b {
        1
    } else {
        0
    }
}

pub open spec fn worth(n: Number) -> int {
    match n {
        Number::Zero | Number::ZeroUint | Number::ZeroFloat | Number::False => 0,
        Number::One | Number::OneUint | Number::OneFloat | Number::True => 1,
        Number::MinusOne | Number::MinusOneFloat => -1,
        Number::IntMin => -0x8000_0000,
    }
}

/// What an operator gives on two numbers of a kind.
pub open spec fn combined(m: Machine, kind: int, s: Sign, a: int, b: int) -> int {
    match s {
        Sign::Above => truth(a > b),
        Sign::AtLeast => truth(a >= b),
        Sign::Equal => truth(a == b),
        Sign::Unequal => truth(a != b),
        Sign::Below => truth(a < b),
        Sign::AtMost => truth(a <= b),
        Sign::Both => truth(a != 0 && b != 0),
        Sign::Either => truth(a != 0 || b != 0),
        _ => if kind == 0 {
            (m.float)(s, a, b)
        } else if kind == 1 {
            (m.signed)(s, a, b)
        } else {
            match s {
                Sign::Plus => unsigned(a + b),
                Sign::Minus => unsigned(a - b),
                Sign::Times => unsigned(a * b),
                _ => (m.unsigned)(s, a, b),
            }
        },
    }
}

/// What a function gives on numbers of a kind.
pub open spec fn applied(m: Machine, kind: int, f: Function, a: int, b: int) -> int {
    match f {
        Function::Max => if a > b {
            a
        } else {
            b
        },
        Function::Min => if a < b {
            a
        } else {
            b
        },
        Function::Abs => if kind == 1 && a != -0x8000_0000 {
            if a < 0 {
                -a
            } else {
                a
            }
        } else {
            (m.function)(f, a, b)
        },
        _ => (m.function)(f, a, b),
    }
}

/// The locals' kinds and values.
pub struct Locals {
    pub kind: spec_fn(char) -> int,
    pub value: spec_fn(char) -> int,
}

/// The kind of number that a term gives.
pub open spec fn sort(t: Term, p: Place, l: Locals) -> int
    decreases t,
{
    match t {
        Term::Local(v) => (l.kind)(v),
        Term::Index | Term::Bits => 2,
        Term::Number(n) => match n {
            Number::Zero | Number::One | Number::MinusOne | Number::IntMin => 1,
            Number::ZeroUint | Number::OneUint => 2,
            Number::True | Number::False => 3,
            _ => 0,
        },
        Term::Read(how, _, _, _) => kind(how, p),
        Term::Infix(_, a, b) => if sort(*a, p, l) == 0 || sort(*b, p, l) == 0 {
            0
        } else if sort(*a, p, l) == 2 || sort(*b, p, l) == 2 {
            2
        } else {
            sort(*a, p, l)
        },
        Term::Minus(a) => sort(*a, p, l),
        Term::Bang(_) => 3,
        Term::ToInt(_) => 1,
        Term::ToUint(_) => 2,
        Term::AsFloat(_) => 0,
        Term::Call(_, a) => sort(*a, p, l),
        Term::Pair(_, a, _) => sort(*a, p, l),
        Term::Choice(_, a, b) => if sort(*a, p, l) == 0 || sort(*b, p, l) == 0 {
            0
        } else if sort(*a, p, l) == 2 || sort(*b, p, l) == 2 {
            2
        } else {
            sort(*a, p, l)
        },
        Term::Group(a) => sort(*a, p, l),
    }
}

/// What the cell of a read holds.
pub open spec fn seen(s: Strides, p: Place, how: Access, k: int, by: Option<char>, n: Named) -> int {
    (p.machine.cell)(
        kind(how, p),
        k,
        match by {
            Some(letter) => p.index * stride(p, lane(s, letter)),
            None => p.index,
        },
        match n {
            Named::Own => (p.dtype)(k),
            Named::Result => p.result,
            Named::Digit(d) => d,
        },
    )
}

/// The value of a term.
pub open spec fn value(t: Term, s: Strides, p: Place, l: Locals) -> int
    decreases t,
{
    match t {
        Term::Local(v) => (l.value)(v),
        Term::Index => p.index,
        Term::Bits => p.bits,
        Term::Number(n) => worth(n),
        Term::Read(how, k, by, n) => seen(s, p, how, k, by, n),
        Term::Infix(op, a, b) => combined(
            p.machine,
            sort(t, p, l),
            op,
            value(*a, s, p, l),
            value(*b, s, p, l),
        ),
        Term::Minus(a) => if sort(*a, p, l) == 0 {
            (p.machine.opposite)(value(*a, s, p, l))
        } else {
            combined(p.machine, sort(*a, p, l), Sign::Minus, 0, value(*a, s, p, l))
        },
        Term::Bang(a) => truth(value(*a, s, p, l) == 0),
        Term::ToInt(a) => signed(value(*a, s, p, l)),
        Term::ToUint(a) => unsigned(value(*a, s, p, l)),
        Term::AsFloat(a) => (p.machine.from_bits)(value(*a, s, p, l)),
        Term::Call(f, a) => applied(p.machine, sort(*a, p, l), f, value(*a, s, p, l), 0),
        Term::Pair(f, a, b) => applied(
            p.machine,
            sort(*a, p, l),
            f,
            value(*a, s, p, l),
            value(*b, s, p, l),
        ),
        Term::Choice(c, a, b) => if value(*c, s, p, l) != 0 {
            value(*a, s, p, l)
        } else {
            value(*b, s, p, l)
        },
        Term::Group(a) => value(*a, s, p, l),
    }
}

/// No local yet.
pub open spec fn unset() -> Locals {
    Locals { kind: |c: char| 0, value: |c: char| 0 }
}

/// The locals that a program's declarations make.
pub open spec fn locals_of(g: Program, s: Strides, p: Place) -> Locals {
    Locals {
        kind: |c: char|
            if g.locals.len() > 0 && g.locals[0].0 == c {
                kind(g.locals[0].1, p)
            } else {
                kind(g.locals[1].1, p)
            },
        value: |c: char|
            if g.locals.len() > 0 && g.locals[0].0 == c {
                value(g.locals[0].2, s, p, unset())
            } else {
                value(g.locals[1].2, s, p, unset())
            },
    }
}

/// Whether a program is one that the language reads as it is meant: each local
/// is declared once, with the type it is read as, and every term can be read in
/// only one way.
pub open spec fn sound(g: Program) -> bool {
    &&& g.locals.len() <= 2
    &&& g.braced ==> g.locals.len() == 1
    &&& g.locals.len() == 2 ==> g.locals[0].0 != g.locals[1].0
    &&& forall|j: int|
        0 <= j < g.locals.len() ==> match (#[trigger] g.locals[j]).2 {
            Term::Read(how, _, _, _) => how == g.locals[j].1,
            _ => false,
        }
    &&& legible(g.result)
}

/// What a program stores at its element.
pub open spec fn outcome(g: Program, s: Strides, p: Place) -> int {
    value(g.result, s, p, locals_of(g, s, p))
}

/// The kind of number that a program stores.
pub open spec fn outcome_kind(g: Program, p: Place) -> int {
    kind(g.store, p)
}

pub open spec fn x() -> Term {
    Term::Local('x')
}

pub open spec fn y() -> Term {
    Term::Local('y')
}

pub open spec fn infix(s: Sign, a: Term, b: Term) -> Term {
    Term::Infix(s, Box::new(a), Box::new(b))
}

pub open spec fn num(n: Number) -> Term {
    Term::Number(n)
}

/// `x op y` of a kind as the numbers have it: sums, differences and products of
/// integers keep their low 32 bits, a quotient or remainder by zero is zero.
pub open spec fn arith_meaning(m: Machine, k: int, tag: OpTag, a: int, b: int) -> int {
    match tag {
        OpTag::Add => if k == 0 {
            (m.float)(Sign::Plus, a, b)
        } else {
            wrapped(k, a + b)
        },
        OpTag::Sub => if k == 0 {
            (m.float)(Sign::Minus, a, b)
        } else {
            wrapped(k, a - b)
        },
        OpTag::Mul => if k == 0 {
            (m.float)(Sign::Times, a, b)
        } else {
            wrapped(k, a * b)
        },
        OpTag::Div => if k == 0 {
            (m.float)(Sign::Over, a, b)
        } else if b == 0 {
            0
        } else if k == 1 {
            (m.signed)(Sign::Over, a, b)
        } else {
            (m.unsigned)(Sign::Over, a, b)
        },
        OpTag::MaxElem => if k == 0 {
            (m.function)(Function::ElementMax, a, b)
        } else if a > b {
            a
        } else {
            b
        },
        OpTag::MinElem => if k == 0 {
            (m.function)(Function::ElementMin, a, b)
        } else if a < b {
            a
        } else {
            b
        },
        _ => if k == 0 {
            (m.function)(Function::Fmod, a, b)
        } else if b == 0 {
            0
        } else if k == 1 {
            (m.signed)(Sign::Percent, a, b)
        } else {
            (m.unsigned)(Sign::Percent, a, b)
        },
    }
}

/// Whether an op is one of the seven of arithmetic.
pub open spec fn arithmetic(tag: OpTag) -> bool {
    tag == OpTag::Add || tag == OpTag::Sub || tag == OpTag::Mul || tag == OpTag::Div || tag
        == OpTag::MaxElem || tag == OpTag::MinElem || tag == OpTag::Rem
}

/// The kind of the arithmetic on dtype `d`.
pub open spec fn scalar_kind(d: u8) -> int {
    if d == 0 {
        0
    } else if d == 1 {
        1
    } else {
        2
    }
}

/// The term that an arithmetic op's text spells.
pub open spec fn arith_term(k: int, tag: OpTag) -> Term {
    let plain = |s: Sign| infix(s, x(), y());
    let lifted = |s: Sign|
        Term::ToInt(
            Box::new(infix(s, Term::ToUint(Box::new(x())), Term::ToUint(Box::new(y())))),
        );
    let wrapping = |s: Sign|
        if k == 1 {
            lifted(s)
        } else {
            plain(s)
        };
    let guarded = |s: Sign|
        if k == 0 {
            plain(s)
        } else {
            Term::Group(
                Box::new(
                    Term::Choice(
                        Box::new(infix(Sign::Equal, y(), num(Number::Zero))),
                        Box::new(num(Number::Zero)),
                        Box::new(plain(s)),
                    ),
                ),
            )
        };
    let pair = |f: Function| Term::Pair(f, Box::new(x()), Box::new(y()));
    match tag {
        OpTag::Add => wrapping(Sign::Plus),
        OpTag::Sub => wrapping(Sign::Minus),
        OpTag::Mul => wrapping(Sign::Times),
        OpTag::Div => guarded(Sign::Over),
        OpTag::MaxElem => pair(if k == 0 { Function::ElementMax } else { Function::Max }),
        OpTag::MinElem => pair(if k == 0 { Function::ElementMin } else { Function::Min }),
        _ => if k == 0 {
            pair(Function::Fmod)
        } else {
            guarded(Sign::Percent)
        },
    }
}

proof fn lemma_wraps(a: int, b: int)
    ensures
        signed(unsigned(unsigned(a) + unsigned(b))) == signed(a + b),
        signed(unsigned(unsigned(a) - unsigned(b))) == signed(a - b),
        signed(unsigned(unsigned(a) * unsigned(b))) == signed(a * b),
{
    lemma_add_mod_noop(a, b, span());
    lemma_sub_mod_noop(a, b, span());
    lemma_mul_mod_noop(a, b, span());
}

/// The text of an arithmetic op, read as a term over `x` and `y`, has the op's
/// value on them, for every op, dtype and pair of numbers of that dtype.
pub proof fn law_arithmetic_is_computed(
    d: u8,
    tag: OpTag,
    s: Strides,
    p: Place,
    l: Locals,
) -> (t: Term)
    requires
        arithmetic(tag),
        (l.kind)('x') == scalar_kind(d),
        (l.kind)('y') == scalar_kind(d),
        fits(scalar_kind(d), (l.value)('x')),
        fits(scalar_kind(d), (l.value)('y')),
    ensures
        print(t) == arith_expr(d, tag),
        legible(t),
        sort(t, p, l) == scalar_kind(d),
        value(t, s, p, l) == arith_meaning(
            p.machine,
            scalar_kind(d),
            tag,
            (l.value)('x'),
            (l.value)('y'),
        ),
{
    reveal_with_fuel(print, 5);
    reveal_with_fuel(value, 5);
    reveal_with_fuel(sort, 5);
    reveal_with_fuel(legible, 5);
    lemma_wraps((l.value)('x'), (l.value)('y'));
    let k = scalar_kind(d);
    let t = arith_term(k, tag);
    lemma_arith_text(d, tag);
    t
}

#[verifier::spinoff_prover]
#[verifier::rlimit(40)]
proof fn lemma_arith_text(d: u8, tag: OpTag)
    requires
        arithmetic(tag),
    ensures
        print(arith_term(scalar_kind(d), tag)) == arith_expr(d, tag),
{
    reveal_with_fuel(print, 5);
    reveal_strlit("x_$N + y_$N");
    reveal_strlit("x_$N - y_$N");
    reveal_strlit("x_$N * y_$N");
    reveal_strlit("x_$N / y_$N");
    reveal_strlit("m1_element_max(x_$N, y_$N)");
    reveal_strlit("m1_element_min(x_$N, y_$N)");
    reveal_strlit("fmod(x_$N, y_$N)");
    reveal_strlit("int(uint(x_$N) + uint(y_$N))");
    reveal_strlit("int(uint(x_$N) - uint(y_$N))");
    reveal_strlit("int(uint(x_$N) * uint(y_$N))");
    reveal_strlit("(y_$N == 0 ? 0 : x_$N / y_$N)");
    reveal_strlit("(y_$N == 0 ? 0 : x_$N % y_$N)");
    reveal_strlit("max(x_$N, y_$N)");
    reveal_strlit("min(x_$N, y_$N)");
    assert(print(arith_term(scalar_kind(d), tag)) =~= arith_expr(d, tag));
}

/// The texts of two different arithmetic ops on one dtype differ.
#[verifier::spinoff_prover]
#[verifier::rlimit(40)]
pub proof fn law_arithmetic_ops_differ(d: u8, a: OpTag, b: OpTag)
    requires
        arithmetic(a),
        arithmetic(b),
        a != b,
    ensures
        arith_expr(d, a) != arith_expr(d, b),
{
    reveal_strlit("x_$N + y_$N");
    reveal_strlit("x_$N - y_$N");
    reveal_strlit("x_$N * y_$N");
    reveal_strlit("x_$N / y_$N");
    reveal_strlit("m1_element_max(x_$N, y_$N)");
    reveal_strlit("m1_element_min(x_$N, y_$N)");
    reveal_strlit("fmod(x_$N, y_$N)");
    reveal_strlit("int(uint(x_$N) + uint(y_$N))");
    reveal_strlit("int(uint(x_$N) - uint(y_$N))");
    reveal_strlit("int(uint(x_$N) * uint(y_$N))");
    reveal_strlit("(y_$N == 0 ? 0 : x_$N / y_$N)");
    reveal_strlit("(y_$N == 0 ? 0 : x_$N % y_$N)");
    reveal_strlit("max(x_$N, y_$N)");
    reveal_strlit("min(x_$N, y_$N)");
    let s = arith_expr(d, a);
    let t = arith_expr(d, b);
    if s == t {
        assert(s.len() == t.len());
        assert(s[0] == t[0]);
        assert(s[1] == t[1]);
        assert(s[5] == t[5]);
        assert(s[13] == t[13]);
        assert(s[12] == t[12]);
        assert(s[15] == t[15]);
        assert(s[22] == t[22]);
    }
}

/// Whether an op compares.
pub open spec fn relational(tag: OpTag) -> bool {
    tag == OpTag::Gt || tag == OpTag::Ge || tag == OpTag::Eq || tag == OpTag::Ne || tag
        == OpTag::Lt || tag == OpTag::Le
}

/// Whether a comparison holds.
pub open spec fn holds(tag: OpTag, a: int, b: int) -> bool {
    match tag {
        OpTag::Gt => b < a,
        OpTag::Ge => !(a < b),
        OpTag::Eq => a == b,
        OpTag::Ne => !(a == b),
        OpTag::Lt => a < b,
        _ => !(b < a),
    }
}

/// The sign of a comparison.
pub open spec fn relation_sign(tag: OpTag) -> Sign {
    match tag {
        OpTag::Gt => Sign::Above,
        OpTag::Ge => Sign::AtLeast,
        OpTag::Eq => Sign::Equal,
        OpTag::Ne => Sign::Unequal,
        OpTag::Lt => Sign::Below,
        _ => Sign::AtMost,
    }
}

/// The text of a comparison, read as a term over `x` and `y`, is true where the
/// comparison holds of them.
pub proof fn law_comparisons_are_computed(tag: OpTag, s: Strides, p: Place, l: Locals) -> (t: Term)
    requires
        relational(tag),
    ensures
        print(t) == relation_expr(tag),
        legible(t),
        value(t, s, p, l) == truth(holds(tag, (l.value)('x'), (l.value)('y'))),
{
    reveal_with_fuel(print, 3);
    reveal_with_fuel(value, 3);
    reveal_with_fuel(legible, 3);
    reveal_strlit("x_$N > y_$N");
    reveal_strlit("x_$N >= y_$N");
    reveal_strlit("x_$N == y_$N");
    reveal_strlit("x_$N != y_$N");
    reveal_strlit("x_$N < y_$N");
    reveal_strlit("x_$N <= y_$N");
    let t = infix(relation_sign(tag), x(), y());
    assert(print(t) =~= relation_expr(tag));
    t
}

/// The text of a float unary op, read as a term over `x`, is the op's function
/// of it; the reciprocal is one divided by it.
pub proof fn law_float_functions_are_computed(tag: OpTag, s: Strides, p: Place, l: Locals) -> (t: Term)
    requires
        tag == OpTag::Exp || tag == OpTag::Log || tag == OpTag::Recip,
        (l.kind)('x') == 0,
    ensures
        print(t) == float_unary(tag),
        legible(t),
        value(t, s, p, l) == match tag {
            OpTag::Exp => (p.machine.function)(Function::Exp, (l.value)('x'), 0),
            OpTag::Log => (p.machine.function)(Function::Log, (l.value)('x'), 0),
            _ => (p.machine.float)(Sign::Over, 1, (l.value)('x')),
        },
{
    reveal_with_fuel(print, 3);
    reveal_with_fuel(value, 3);
    reveal_with_fuel(sort, 3);
    reveal_with_fuel(legible, 3);
    reveal_strlit("precise::exp(x_$N)");
    reveal_strlit("precise::log(x_$N)");
    reveal_strlit("1.0f / x_$N");
    let t = match tag {
        OpTag::Exp => Term::Call(Function::Exp, Box::new(x())),
        OpTag::Log => Term::Call(Function::Log, Box::new(x())),
        _ => infix(Sign::Over, num(Number::OneFloat), x()),
    };
    assert(print(t) =~= float_unary(tag));
    t
}

/// The declaration of the stride that is called by `letter`, of operand `k`: 0
/// for a scalar, else 1.
pub open spec fn stride_line(letter: char, k: int) -> Seq<char> {
    seq![' ', ' ', ' ', ' ', 'c', 'o', 'n', 's', 't', ' ', 'u', 'i', 'n', 't', ' ', 's'] + seq![letter] + seq!['_', '$', 'N', ' ', '=', ' ', 'd', 'e', 's', 'c', 'r', 'i', 'p', 't', 'o', 'r', 's', '[', '$'] + seq![value_letter(k)]
        + seq![']', '.', 'l', 'e', 'n', ' ', '=', '=', ' ', '1', 'u', ' ', '?', ' ', '0', 'u', ' ', ':', ' ', '1', 'u', ';'] + seq!['\n']
}

/// The declaration of the element count, the result's length.
pub open spec fn count_line() -> Seq<char> {
    seq![' ', ' ', ' ', ' ', 'c', 'o', 'n', 's', 't', ' ', 'u', 'i', 'n', 't', ' ', 'm', '4', '_', 'n', '_', '$', 'N', ' ', '=', ' ', 'd', 'e', 's', 'c', 'r', 'i', 'p', 't', 'o', 'r', 's', '[', '$', 'B', ']', '.', 'l', 'e', 'n', ';'] + seq!['\n']
}

/// An op's declarations are its element count and, of each operand that it
/// strides over, the stride of that operand under the letter it is read by.
pub proof fn law_strides_are_of_their_operands()
    ensures
        strides_template(Strides::Zero) == count_line(),
        strides_template(Strides::One) == count_line() + stride_line('x', lane(Strides::One, 'x')),
        strides_template(Strides::Two) == count_line() + stride_line('x', lane(Strides::Two, 'x'))
            + stride_line('y', lane(Strides::Two, 'y')),
        strides_template(Strides::Three) == count_line() + stride_line('c', lane(Strides::Three, 'c'))
            + stride_line('x', lane(Strides::Three, 'x')) + stride_line(
            'y',
            lane(Strides::Three, 'y'),
        ),
{
    lemma_strides_short();
    lemma_strides_long();
}

#[verifier::spinoff_prover]
#[verifier::rlimit(40)]
proof fn lemma_strides_short()
    ensures
        strides_template(Strides::Zero) == count_line(),
        strides_template(Strides::One) == count_line() + stride_line('x', 0),
        strides_template(Strides::Two) == count_line() + stride_line('x', 0) + stride_line('y', 1),
{
    reveal_strlit("    const uint m4_n_$N = descriptors[$B].len;\n");
    reveal_strlit("    const uint m4_n_$N = descriptors[$B].len;\n    const uint sx_$N = descriptors[$p].len == 1u ? 0u : 1u;\n");
    reveal_strlit("    const uint m4_n_$N = descriptors[$B].len;\n    const uint sx_$N = descriptors[$p].len == 1u ? 0u : 1u;\n    const uint sy_$N = descriptors[$q].len == 1u ? 0u : 1u;\n");
    assert(strides_template(Strides::Zero) =~= count_line());
    assert(strides_template(Strides::One) =~= count_line() + stride_line('x', 0));
    assert(strides_template(Strides::Two) =~= count_line() + stride_line('x', 0) + stride_line('y', 1));
}

#[verifier::spinoff_prover]
#[verifier::rlimit(40)]
proof fn lemma_strides_long()
    ensures
        strides_template(Strides::Three) == count_line() + stride_line('c', 0) + stride_line('x', 1)
            + stride_line('y', 2),
{
    reveal_strlit("    const uint m4_n_$N = descriptors[$B].len;\n    const uint sc_$N = descriptors[$p].len == 1u ? 0u : 1u;\n    const uint sx_$N = descriptors[$q].len == 1u ? 0u : 1u;\n    const uint sy_$N = descriptors[$r].len == 1u ? 0u : 1u;\n");
    assert(strides_template(Strides::Three) =~= count_line() + stride_line('c', 0) + stride_line('x', 1)
        + stride_line('y', 2));
}

/// Operand `k`, read as `how` at its own stride.
pub open spec fn read(how: Access, k: int, letter: char, n: Named) -> Term {
    Term::Read(how, k, Some(letter), n)
}

/// What operand `k` holds for the element, read as kind `as_kind` under dtype
/// `d`: a scalar's one cell, else the element's own.
pub open spec fn held(p: Place, as_kind: int, k: int, d: int) -> int {
    (p.machine.cell)(
        as_kind,
        k,
        if (p.len)(k) == 1 {
            0
        } else {
            p.index
        },
        d,
    )
}

proof fn lemma_held(s: Strides, p: Place, how: Access, k: int, letter: char, n: Named)
    requires
        lane(s, letter) == k,
    ensures
        seen(s, p, how, k, Some(letter), n) == held(
            p,
            kind(how, p),
            k,
            match n {
                Named::Own => (p.dtype)(k),
                Named::Result => p.result,
                Named::Digit(d) => d,
            },
        ),
{
    assert(p.index * 0 == 0);
    assert(p.index * 1 == p.index);
}

/// Whether the numbers of a place are those of an op: each operand's cell is a
/// number of the kind it is read as.
pub open spec fn sane(p: Place) -> bool {
    forall|a: int, k: int, i: int, d: int| fits(a, #[trigger] (p.machine.cell)(a, k, i, d))
}

/// A float unary op stores its function of the first operand's element.
#[verifier::spinoff_prover]
#[verifier::rlimit(40)]
pub proof fn law_float_ops_store_their_value(
    tag: OpTag,
    d0: Option<u8>,
    d1: Option<u8>,
    d2: Option<u8>,
    dout: Option<u8>,
    lit_dtype: u8,
    lit_bits: u32,
    p: Place,
) -> (g: Program)
    requires
        tag == OpTag::Exp || tag == OpTag::Log || tag == OpTag::Recip,
        d0 is Some,
        dout is Some,
    ensures
        wide_template(tag, d0, d1, d2, dout, lit_dtype, lit_bits) == Some((Strides::One, lines(g))),
        sound(g),
        g.store is Float,
        ({
            let v = held(p, 0, 0, (p.dtype)(0));
            outcome(g, Strides::One, p) == match tag {
                OpTag::Exp => (p.machine.function)(Function::Exp, v, 0),
                OpTag::Log => (p.machine.function)(Function::Log, v, 0),
                _ => (p.machine.float)(Sign::Over, 1, v),
            }
        }),
{
    let r = read(Access::Float, 0, 'x', Named::Own);
    let g0 = Program {
        locals: seq![('x', Access::Float, r)],
        store: Access::Float,
        result: x(),
        braced: false,
    };
    let l = locals_of(g0, Strides::One, p);
    lemma_held(Strides::One, p, Access::Float, 0, 'x', Named::Own);
    reveal_with_fuel(value, 2);
    let t = law_float_functions_are_computed(tag, Strides::One, p, l);
    let g = Program { result: t, ..g0 };
    assert(locals_of(g, Strides::One, p) == l);
    reveal_strlit("        const float x_$N = m1_load_f($a, i * sx_$N, $0u);\n        m1_store_f($o, i, ");
    reveal_strlit(");\n");
    assert(print(r) =~= seq!['m', '1', '_', 'l', 'o', 'a', 'd', '_', 'f', '(', '$', 'a', ',', ' ', 'i', ' ', '*', ' ', 's', 'x', '_', '$', 'N', ',', ' ', '$', '0', 'u', ')']);
    let head = "        const float x_$N = m1_load_f($a, i * sx_$N, $0u);\n        m1_store_f($o, i, "@;
    assert(lines(g) =~= head + print(t) + ");\n"@);
    g
}

/// A program that reads `x` and `y` of the first two operands as `how`.
pub open spec fn over_two(how: Access, store: Access, result: Term) -> Program {
    Program {
        locals: seq![
            ('x', how, read(how, 0, 'x', Named::Own)),
            ('y', how, read(how, 1, 'y', Named::Own)),
        ],
        store,
        result,
        braced: false,
    }
}

proof fn lemma_over_two(how: Access, store: Access, t: Term, p: Place)
    requires
        legible(t),
    ensures
        sound(over_two(how, store, t)),
        ({
            let l = locals_of(over_two(how, store, t), Strides::Two, p);
            &&& l == locals_of(over_two(how, store, x()), Strides::Two, p)
            &&& (l.kind)('x') == kind(how, p)
            &&& (l.kind)('y') == kind(how, p)
            &&& (l.value)('x') == held(p, kind(how, p), 0, (p.dtype)(0))
            &&& (l.value)('y') == held(p, kind(how, p), 1, (p.dtype)(1))
        }),
{
    reveal_with_fuel(value, 2);
    lemma_held(Strides::Two, p, how, 0, 'x', Named::Own);
    lemma_held(Strides::Two, p, how, 1, 'y', Named::Own);
}

#[verifier::spinoff_prover]
#[verifier::rlimit(40)]
proof fn lemma_first_lines(t: Term)
    ensures
        "        const $T x_$N = $X($a, i * sx_$N, $0u);\n        const $T y_$N = $X($b, i * sy_$N, $1u);\n        $Y($o, i, "@
            + print(t) + ");\n"@ == lines(over_two(Access::First, Access::First, t)),
        "        const $T x_$N = $X($a, i * sx_$N, $0u);\n        const $T y_$N = $X($b, i * sy_$N, $1u);\n        m1_store_b($o, i, "@
            + print(t) + ");\n"@ == lines(over_two(Access::First, Access::Bool, t)),
{
    reveal_strlit("        const $T x_$N = $X($a, i * sx_$N, $0u);\n        const $T y_$N = $X($b, i * sy_$N, $1u);\n        $Y($o, i, ");
    reveal_strlit("        const $T x_$N = $X($a, i * sx_$N, $0u);\n        const $T y_$N = $X($b, i * sy_$N, $1u);\n        m1_store_b($o, i, ");
    reveal_strlit(");\n");
    assert(print(read(Access::First, 0, 'x', Named::Own)) =~= seq!['$', 'X', '(', '$', 'a', ',', ' ', 'i', ' ', '*', ' ', 's', 'x', '_', '$', 'N', ',', ' ', '$', '0', 'u', ')']);
    assert(print(read(Access::First, 1, 'y', Named::Own)) =~= seq!['$', 'X', '(', '$', 'b', ',', ' ', 'i', ' ', '*', ' ', 's', 'y', '_', '$', 'N', ',', ' ', '$', '1', 'u', ')']);
    let g = over_two(Access::First, Access::First, t);
    let b = over_two(Access::First, Access::Bool, t);
    assert(declared(g.locals[0]) =~= seq!['c', 'o', 'n', 's', 't', ' ', '$', 'T', ' ', 'x', '_', '$', 'N', ' ', '=', ' ', '$', 'X', '(', '$', 'a', ',', ' ', 'i', ' ', '*', ' ', 's', 'x', '_', '$', 'N', ',', ' ', '$', '0', 'u', ')', ';']);
    assert(declared(g.locals[1]) =~= seq!['c', 'o', 'n', 's', 't', ' ', '$', 'T', ' ', 'y', '_', '$', 'N', ' ', '=', ' ', '$', 'X', '(', '$', 'b', ',', ' ', 'i', ' ', '*', ' ', 's', 'y', '_', '$', 'N', ',', ' ', '$', '1', 'u', ')', ';']);
    assert("        const $T x_$N = $X($a, i * sx_$N, $0u);\n        const $T y_$N = $X($b, i * sy_$N, $1u);\n        $Y($o, i, "@
        + print(t) + ");\n"@ =~= lines(g));
    assert("        const $T x_$N = $X($a, i * sx_$N, $0u);\n        const $T y_$N = $X($b, i * sy_$N, $1u);\n        m1_store_b($o, i, "@
        + print(t) + ");\n"@ =~= lines(b));
}

/// An arithmetic op stores, in the arithmetic of its first operand's dtype, its
/// value on the elements of its two operands.
pub proof fn law_arithmetic_ops_store_their_value(
    tag: OpTag,
    d0: Option<u8>,
    d1: Option<u8>,
    d2: Option<u8>,
    dout: Option<u8>,
    lit_dtype: u8,
    lit_bits: u32,
    p: Place,
) -> (g: Program)
    requires
        arithmetic(tag),
        d0 is Some,
        d1 is Some,
        (p.dtype)(0) == d0->0,
        (p.dtype)(1) == d1->0,
        sane(p),
    ensures
        wide_template(tag, d0, d1, d2, dout, lit_dtype, lit_bits) == Some((Strides::Two, lines(g))),
        sound(g),
        outcome_kind(g, p) == scalar_kind(d0->0),
        outcome(g, Strides::Two, p) == arith_meaning(
            p.machine,
            scalar_kind(d0->0),
            tag,
            held(p, scalar_kind(d0->0), 0, d0->0 as int),
            held(p, scalar_kind(d0->0), 1, d1->0 as int),
        ),
{
    let l = locals_of(over_two(Access::First, Access::First, x()), Strides::Two, p);
    lemma_over_two(Access::First, Access::First, x(), p);
    let t = law_arithmetic_is_computed(d0->0, tag, Strides::Two, p, l);
    lemma_over_two(Access::First, Access::First, t, p);
    lemma_first_lines(t);
    over_two(Access::First, Access::First, t)
}

/// A comparison stores, as a bool, whether it holds of the elements of its two
/// operands, both read in the arithmetic of the first one's dtype.
pub proof fn law_comparisons_store_their_value(
    tag: OpTag,
    d0: Option<u8>,
    d1: Option<u8>,
    d2: Option<u8>,
    dout: Option<u8>,
    lit_dtype: u8,
    lit_bits: u32,
    p: Place,
) -> (g: Program)
    requires
        relational(tag),
        d0 is Some,
        d1 is Some,
        (p.dtype)(0) == d0->0,
        (p.dtype)(1) == d1->0,
    ensures
        wide_template(tag, d0, d1, d2, dout, lit_dtype, lit_bits) == Some((Strides::Two, lines(g))),
        sound(g),
        g.store is Bool,
        outcome(g, Strides::Two, p) == truth(
            holds(
                tag,
                held(p, scalar_kind(d0->0), 0, d0->0 as int),
                held(p, scalar_kind(d0->0), 1, d1->0 as int),
            ),
        ),
{
    let l = locals_of(over_two(Access::First, Access::Bool, x()), Strides::Two, p);
    lemma_over_two(Access::First, Access::Bool, x(), p);
    let t = law_comparisons_are_computed(tag, Strides::Two, p, l);
    lemma_over_two(Access::First, Access::Bool, t, p);
    lemma_first_lines(t);
    over_two(Access::First, Access::Bool, t)
}

/// A connective stores, as a bool, whether both or either of its operands'
/// elements are true.
pub proof fn law_connectives_store_their_value(
    tag: OpTag,
    d0: Option<u8>,
    d1: Option<u8>,
    d2: Option<u8>,
    dout: Option<u8>,
    lit_dtype: u8,
    lit_bits: u32,
    p: Place,
) -> (g: Program)
    requires
        tag == OpTag::And || tag == OpTag::Or,
        d0 is Some,
        d1 is Some,
        (p.dtype)(0) == d0->0,
        (p.dtype)(1) == d1->0,
    ensures
        wide_template(tag, d0, d1, d2, dout, lit_dtype, lit_bits) == Some((Strides::Two, lines(g))),
        sound(g),
        g.store is Bool,
        ({
            let a = held(p, 3, 0, d0->0 as int) != 0;
            let b = held(p, 3, 1, d1->0 as int) != 0;
            outcome(g, Strides::Two, p) == truth(
                if tag == OpTag::And {
                    a && b
                } else {
                    a || b
                },
            )
        }),
{
    let t = infix(
        if tag == OpTag::And {
            Sign::Both
        } else {
            Sign::Either
        },
        x(),
        y(),
    );
    reveal_with_fuel(value, 2);
    reveal_with_fuel(legible, 2);
    lemma_over_two(Access::Bool, Access::Bool, t, p);
    let g = over_two(Access::Bool, Access::Bool, t);
    lemma_both_lines();
    lemma_either_lines();
    g
}

#[verifier::spinoff_prover]
#[verifier::rlimit(40)]
proof fn lemma_both_lines()
    ensures
        lines(over_two(Access::Bool, Access::Bool, infix(Sign::Both, x(), y())))
            == "        const bool x_$N = m1_load_b($a, i * sx_$N, $0u);\n        const bool y_$N = m1_load_b($b, i * sy_$N, $1u);\n        m1_store_b($o, i, x_$N && y_$N);\n"@,
{
    reveal_strlit("        const bool x_$N = m1_load_b($a, i * sx_$N, $0u);\n        const bool y_$N = m1_load_b($b, i * sy_$N, $1u);\n        m1_store_b($o, i, x_$N && y_$N);\n");
    reveal_with_fuel(print, 2);
    let t = infix(Sign::Both, x(), y());
    let g = over_two(Access::Bool, Access::Bool, t);
    assert(print(t) =~= seq!['x', '_', '$', 'N', ' ', '&', '&', ' ', 'y', '_', '$', 'N']);
    assert(print(g.locals[0].2) =~= seq!['m', '1', '_', 'l', 'o', 'a', 'd', '_', 'b', '(', '$', 'a', ',', ' ', 'i', ' ', '*', ' ', 's', 'x', '_', '$', 'N', ',', ' ', '$', '0', 'u', ')']);
    assert(print(g.locals[1].2) =~= seq!['m', '1', '_', 'l', 'o', 'a', 'd', '_', 'b', '(', '$', 'b', ',', ' ', 'i', ' ', '*', ' ', 's', 'y', '_', '$', 'N', ',', ' ', '$', '1', 'u', ')']);
    assert(declared(g.locals[0]) =~= seq!['c', 'o', 'n', 's', 't', ' ', 'b', 'o', 'o', 'l', ' ', 'x', '_', '$', 'N', ' ', '=', ' ', 'm', '1', '_', 'l', 'o', 'a', 'd', '_', 'b', '(', '$', 'a', ',', ' ', 'i', ' ', '*', ' ', 's', 'x', '_', '$', 'N', ',', ' ', '$', '0', 'u', ')', ';']);
    assert(declared(g.locals[1]) =~= seq!['c', 'o', 'n', 's', 't', ' ', 'b', 'o', 'o', 'l', ' ', 'y', '_', '$', 'N', ' ', '=', ' ', 'm', '1', '_', 'l', 'o', 'a', 'd', '_', 'b', '(', '$', 'b', ',', ' ', 'i', ' ', '*', ' ', 's', 'y', '_', '$', 'N', ',', ' ', '$', '1', 'u', ')', ';']);
    assert(lines(g) =~= "        const bool x_$N = m1_load_b($a, i * sx_$N, $0u);\n        const bool y_$N = m1_load_b($b, i * sy_$N, $1u);\n        m1_store_b($o, i, x_$N && y_$N);\n"@);
}

#[verifier::spinoff_prover]
#[verifier::rlimit(40)]
proof fn lemma_either_lines()
    ensures
        lines(over_two(Access::Bool, Access::Bool, infix(Sign::Either, x(), y())))
            == "        const bool x_$N = m1_load_b($a, i * sx_$N, $0u);\n        const bool y_$N = m1_load_b($b, i * sy_$N, $1u);\n        m1_store_b($o, i, x_$N || y_$N);\n"@,
{
    reveal_strlit("        const bool x_$N = m1_load_b($a, i * sx_$N, $0u);\n        const bool y_$N = m1_load_b($b, i * sy_$N, $1u);\n        m1_store_b($o, i, x_$N || y_$N);\n");
    reveal_with_fuel(print, 2);
    let t = infix(Sign::Either, x(), y());
    let g = over_two(Access::Bool, Access::Bool, t);
    assert(print(t) =~= seq!['x', '_', '$', 'N', ' ', '|', '|', ' ', 'y', '_', '$', 'N']);
    assert(print(g.locals[0].2) =~= seq!['m', '1', '_', 'l', 'o', 'a', 'd', '_', 'b', '(', '$', 'a', ',', ' ', 'i', ' ', '*', ' ', 's', 'x', '_', '$', 'N', ',', ' ', '$', '0', 'u', ')']);
    assert(print(g.locals[1].2) =~= seq!['m', '1', '_', 'l', 'o', 'a', 'd', '_', 'b', '(', '$', 'b', ',', ' ', 'i', ' ', '*', ' ', 's', 'y', '_', '$', 'N', ',', ' ', '$', '1', 'u', ')']);
    assert(declared(g.locals[0]) =~= seq!['c', 'o', 'n', 's', 't', ' ', 'b', 'o', 'o', 'l', ' ', 'x', '_', '$', 'N', ' ', '=', ' ', 'm', '1', '_', 'l', 'o', 'a', 'd', '_', 'b', '(', '$', 'a', ',', ' ', 'i', ' ', '*', ' ', 's', 'x', '_', '$', 'N', ',', ' ', '$', '0', 'u', ')', ';']);
    assert(declared(g.locals[1]) =~= seq!['c', 'o', 'n', 's', 't', ' ', 'b', 'o', 'o', 'l', ' ', 'y', '_', '$', 'N', ' ', '=', ' ', 'm', '1', '_', 'l', 'o', 'a', 'd', '_', 'b', '(', '$', 'b', ',', ' ', 'i', ' ', '*', ' ', 's', 'y', '_', '$', 'N', ',', ' ', '$', '1', 'u', ')', ';']);
    assert(lines(g) =~= "        const bool x_$N = m1_load_b($a, i * sx_$N, $0u);\n        const bool y_$N = m1_load_b($b, i * sy_$N, $1u);\n        m1_store_b($o, i, x_$N || y_$N);\n"@);
}

/// A program of one line that only stores.
pub open spec fn storing(store: Access, result: Term) -> Program {
    Program { locals: Seq::empty(), store, result, braced: false }
}

/// An op on one cell stores what it is for: a cast and a reshape the element as
/// the result's dtype, a channel the same, a negation the other truth value, an
/// index itself, and a literal its bits as its dtype.
pub proof fn law_single_reads_store_their_value(
    tag: OpTag,
    d0: Option<u8>,
    d1: Option<u8>,
    d2: Option<u8>,
    dout: Option<u8>,
    lit_dtype: u8,
    lit_bits: u32,
    p: Place,
)
    requires
        p.bits == lit_bits,
        d0 is Some ==> (p.dtype)(0) == d0->0,
        dout is Some ==> p.result == dout->0,
    ensures
        tag == OpTag::Cast && d0 is Some && dout is Some ==> ({
            let g = storing(Access::Result, read(Access::Result, 0, 'x', Named::Own));
            &&& wide_template(tag, d0, d1, d2, dout, lit_dtype, lit_bits) == Some(
                (Strides::One, lines(g)),
            )
            &&& outcome(g, Strides::One, p) == held(p, outcome_kind(g, p), 0, d0->0 as int)
        }),
        tag == OpTag::Not && d0 is Some ==> ({
            let g = storing(
                Access::Bool,
                Term::Bang(Box::new(read(Access::Bool, 0, 'x', Named::Own))),
            );
            &&& wide_template(tag, d0, d1, d2, dout, lit_dtype, lit_bits) == Some(
                (Strides::One, lines(g)),
            )
            &&& outcome(g, Strides::One, p) == truth(held(p, 3, 0, d0->0 as int) == 0)
        }),
        (tag == OpTag::Reshape && dout is Some || (tag == OpTag::ChanTake || tag == OpTag::ChanRead)
            && dout is Some && dout->0 != 3) ==> ({
            let g = storing(Access::Result, Term::Read(Access::Result, 0, None, Named::Result));
            &&& wide_template(tag, d0, d1, d2, dout, lit_dtype, lit_bits) == Some(
                (Strides::Zero, lines(g)),
            )
            &&& outcome(g, Strides::Zero, p) == (p.machine.cell)(
                outcome_kind(g, p),
                0,
                p.index,
                dout->0 as int,
            )
        }),
        tag == OpTag::Iota ==> ({
            let g = storing(Access::Uint, Term::Index);
            &&& wide_template(tag, d0, d1, d2, dout, lit_dtype, lit_bits) == Some(
                (Strides::Zero, lines(g)),
            )
            &&& outcome(g, Strides::Zero, p) == p.index
        }),
{
    reveal_with_fuel(value, 3);
    lemma_held(Strides::One, p, Access::Result, 0, 'x', Named::Own);
    lemma_held(Strides::One, p, Access::Bool, 0, 'x', Named::Own);
    lemma_single_lines();
}

#[verifier::spinoff_prover]
#[verifier::rlimit(40)]
proof fn lemma_single_lines()
    ensures
        lines(storing(Access::Result, read(Access::Result, 0, 'x', Named::Own)))
            == "        $S($o, i, $L($a, i * sx_$N, $0u));\n"@,
        lines(storing(Access::Bool, Term::Bang(Box::new(read(Access::Bool, 0, 'x', Named::Own)))))
            == "        m1_store_b($o, i, !m1_load_b($a, i * sx_$N, $0u));\n"@,
        lines(storing(Access::Result, Term::Read(Access::Result, 0, None, Named::Result)))
            == "        $S($o, i, $L($a, i, $9u));\n"@,
        lines(storing(Access::Uint, Term::Index)) == "        m1_store_u($o, i, i);\n"@,
{
    reveal_with_fuel(print, 3);
    reveal_strlit("        $S($o, i, $L($a, i * sx_$N, $0u));\n");
    reveal_strlit("        m1_store_b($o, i, !m1_load_b($a, i * sx_$N, $0u));\n");
    reveal_strlit("        $S($o, i, $L($a, i, $9u));\n");
    reveal_strlit("        m1_store_u($o, i, i);\n");
    assert(lines(storing(Access::Result, read(Access::Result, 0, 'x', Named::Own)))
        =~= "        $S($o, i, $L($a, i * sx_$N, $0u));\n"@);
    assert(lines(storing(Access::Bool, Term::Bang(Box::new(read(Access::Bool, 0, 'x', Named::Own)))))
        =~= "        m1_store_b($o, i, !m1_load_b($a, i * sx_$N, $0u));\n"@);
    assert(lines(storing(Access::Result, Term::Read(Access::Result, 0, None, Named::Result)))
        =~= "        $S($o, i, $L($a, i, $9u));\n"@);
    assert(lines(storing(Access::Uint, Term::Index)) =~= "        m1_store_u($o, i, i);\n"@);
}

/// A literal is stored as its bits read as its dtype; a bool as whether any bit
/// is set.
#[verifier::spinoff_prover]
#[verifier::rlimit(40)]
pub proof fn law_literals_are_stored(
    d0: Option<u8>,
    d1: Option<u8>,
    d2: Option<u8>,
    dout: Option<u8>,
    lit_dtype: u8,
    lit_bits: u32,
    p: Place,
) -> (g: Program)
    requires
        p.bits == lit_bits,
    ensures
        wide_template(OpTag::Const, d0, d1, d2, dout, lit_dtype, lit_bits) == Some(
            (Strides::Zero, lines(g)),
        ),
        sound(g),
        outcome_kind(g, p) == if lit_dtype <= 2 {
            lit_dtype as int
        } else {
            3
        },
        outcome(g, Strides::Zero, p) == if lit_dtype == 0 {
            (p.machine.from_bits)(lit_bits as int)
        } else if lit_dtype == 1 {
            signed(lit_bits as int)
        } else if lit_dtype == 2 {
            lit_bits as int
        } else {
            truth(lit_bits != 0)
        },
{
    reveal_with_fuel(value, 2);
    reveal_with_fuel(legible, 2);
    reveal_with_fuel(print, 2);
    reveal_strlit("        m1_store_f($o, i, as_type<float>($lu));\n");
    reveal_strlit("        m1_store_i($o, i, int($lu));\n");
    reveal_strlit("        m1_store_u($o, i, $lu);\n");
    reveal_strlit("        m1_store_b($o, i, true);\n");
    reveal_strlit("        m1_store_b($o, i, false);\n");
    let g = if lit_dtype == 0 {
        storing(Access::Float, Term::AsFloat(Box::new(Term::Bits)))
    } else if lit_dtype == 1 {
        storing(Access::Int, Term::ToInt(Box::new(Term::Bits)))
    } else if lit_dtype == 2 {
        storing(Access::Uint, Term::Bits)
    } else if lit_bits != 0 {
        storing(Access::Bool, num(Number::True))
    } else {
        storing(Access::Bool, num(Number::False))
    };
    assert(lines(g) =~= const_line(lit_dtype, lit_bits));
    g
}

/// A select stores, as the result's dtype, the element of its second operand
/// where that of its first is true, else that of its third.
pub proof fn law_a_select_stores_its_choice(
    d0: Option<u8>,
    d1: Option<u8>,
    d2: Option<u8>,
    dout: Option<u8>,
    lit_dtype: u8,
    lit_bits: u32,
    p: Place,
) -> (g: Program)
    requires
        d0 is Some,
        d1 is Some,
        d2 is Some,
        dout is Some,
        (p.dtype)(0) == d0->0,
        (p.dtype)(1) == d1->0,
        (p.dtype)(2) == d2->0,
    ensures
        wide_template(OpTag::Select, d0, d1, d2, dout, lit_dtype, lit_bits) == Some(
            (Strides::Three, lines(g)),
        ),
        sound(g),
        g.store is Result,
        outcome(g, Strides::Three, p) == if held(p, 3, 0, d0->0 as int) != 0 {
            held(p, outcome_kind(g, p), 1, d1->0 as int)
        } else {
            held(p, outcome_kind(g, p), 2, d2->0 as int)
        },
{
    reveal_with_fuel(value, 3);
    reveal_with_fuel(legible, 3);
    lemma_held(Strides::Three, p, Access::Bool, 0, 'c', Named::Own);
    lemma_held(Strides::Three, p, Access::Result, 1, 'x', Named::Own);
    lemma_held(Strides::Three, p, Access::Result, 2, 'y', Named::Own);
    lemma_select_lines();
    select_program()
}

/// The program that a select's lines spell.
pub open spec fn select_program() -> Program {
    Program {
        locals: seq![('c', Access::Bool, read(Access::Bool, 0, 'c', Named::Own))],
        store: Access::Result,
        result: choice(
            Term::Local('c'),
            read(Access::Result, 1, 'x', Named::Own),
            read(Access::Result, 2, 'y', Named::Own),
        ),
        braced: false,
    }
}

#[verifier::spinoff_prover]
#[verifier::rlimit(60)]
proof fn lemma_select_lines()
    ensures
        lines(select_program()) == "        const bool c_$N = m1_load_b($a, i * sc_$N, $0u);\n        $S($o, i, c_$N ? $L($b, i * sx_$N, $1u) : $L($c, i * sy_$N, $2u));\n"@,
{
    let g = select_program();
    reveal_strlit("        const bool c_$N = m1_load_b($a, i * sc_$N, $0u);\n        $S($o, i, c_$N ? $L($b, i * sx_$N, $1u) : $L($c, i * sy_$N, $2u));\n");
    assert(print(g.locals[0].2) =~= seq!['m', '1', '_', 'l', 'o', 'a', 'd', '_', 'b', '(', '$', 'a', ',', ' ', 'i', ' ', '*', ' ', 's', 'c', '_', '$', 'N', ',', ' ', '$', '0', 'u', ')']);
    assert(print(*g.result->Choice_1) =~= seq!['$', 'L', '(', '$', 'b', ',', ' ', 'i', ' ', '*', ' ', 's', 'x', '_', '$', 'N', ',', ' ', '$', '1', 'u', ')']);
    assert(print(*g.result->Choice_2) =~= seq!['$', 'L', '(', '$', 'c', ',', ' ', 'i', ' ', '*', ' ', 's', 'y', '_', '$', 'N', ',', ' ', '$', '2', 'u', ')']);
    assert(print(g.result) =~= seq!['c', '_', '$', 'N', ' ', '?', ' ', '$', 'L', '(', '$', 'b', ',', ' ', 'i', ' ', '*', ' ', 's', 'x', '_', '$', 'N', ',', ' ', '$', '1', 'u', ')', ' ', ':', ' ', '$', 'L', '(', '$', 'c', ',', ' ', 'i', ' ', '*', ' ', 's', 'y', '_', '$', 'N', ',', ' ', '$', '2', 'u', ')']) by {
        reveal_with_fuel(print, 2);
    }
    assert(lines(g) =~= "        const bool c_$N = m1_load_b($a, i * sc_$N, $0u);\n        $S($o, i, c_$N ? $L($b, i * sx_$N, $1u) : $L($c, i * sy_$N, $2u));\n"@);
}

/// Whether an op is one of the three on a number's sign.
pub open spec fn signing(tag: OpTag) -> bool {
    tag == OpTag::Neg || tag == OpTag::Abs || tag == OpTag::Sign
}

/// What a sign op makes of a number of a kind: its opposite, its magnitude, or
/// 1, -1 or 0 by its sign. Integers keep their low 32 bits.
pub open spec fn sign_meaning(m: Machine, k: int, tag: OpTag, v: int) -> int {
    match tag {
        OpTag::Neg => if k == 0 {
            (m.opposite)(v)
        } else {
            wrapped(k, -v)
        },
        OpTag::Abs => if k == 0 {
            (m.function)(Function::Abs, v, 0)
        } else if v < 0 {
            wrapped(k, -v)
        } else {
            v
        },
        _ => if v > 0 {
            1
        } else if v < 0 {
            -1
        } else {
            0
        },
    }
}

pub open spec fn choice(c: Term, a: Term, b: Term) -> Term {
    Term::Choice(Box::new(c), Box::new(a), Box::new(b))
}

/// A program that reads `x` of the first operand and stores, on one line.
pub open spec fn over_one(how: Access, d: int, result: Term) -> Program {
    Program {
        locals: seq![('x', how, read(how, 0, 'x', Named::Digit(d)))],
        store: how,
        result,
        braced: true,
    }
}

/// The program that a sign op's line spells.
pub open spec fn sign_program(k: int, tag: OpTag) -> Program {
    let zero = num(Number::Zero);
    if k == 0 {
        let r = read(Access::Float, 0, 'x', Named::Digit(0));
        match tag {
            OpTag::Neg => storing(Access::Float, Term::Minus(Box::new(r))),
            OpTag::Abs => storing(Access::Float, Term::Call(Function::Abs, Box::new(r))),
            _ => over_one(
                Access::Float,
                0,
                choice(
                    infix(Sign::Above, x(), zero),
                    num(Number::OneFloat),
                    Term::Group(
                        Box::new(
                            choice(
                                infix(Sign::Below, x(), zero),
                                num(Number::MinusOneFloat),
                                num(Number::ZeroFloat),
                            ),
                        ),
                    ),
                ),
            ),
        }
    } else if k == 1 {
        let r = read(Access::Int, 0, 'x', Named::Digit(1));
        match tag {
            OpTag::Neg => storing(
                Access::Int,
                Term::ToInt(
                    Box::new(infix(Sign::Minus, num(Number::ZeroUint), Term::ToUint(Box::new(r)))),
                ),
            ),
            OpTag::Abs => over_one(
                Access::Int,
                1,
                choice(
                    infix(Sign::Equal, x(), num(Number::IntMin)),
                    x(),
                    Term::Call(Function::Abs, Box::new(x())),
                ),
            ),
            _ => over_one(
                Access::Int,
                1,
                choice(
                    infix(Sign::Above, x(), zero),
                    num(Number::One),
                    Term::Group(
                        Box::new(
                            choice(infix(Sign::Below, x(), zero), num(Number::MinusOne), zero),
                        ),
                    ),
                ),
            ),
        }
    } else {
        let r = read(Access::Uint, 0, 'x', Named::Digit(2));
        match tag {
            OpTag::Neg => storing(Access::Uint, infix(Sign::Minus, num(Number::ZeroUint), r)),
            OpTag::Abs => storing(Access::Uint, r),
            _ => storing(
                Access::Uint,
                choice(
                    infix(Sign::Unequal, r, zero),
                    num(Number::OneUint),
                    num(Number::ZeroUint),
                ),
            ),
        }
    }
}

/// A sign op stores its value on the element of its operand, read and stored in
/// the arithmetic of the operand's dtype.
pub proof fn law_sign_ops_store_their_value(
    tag: OpTag,
    d0: Option<u8>,
    d1: Option<u8>,
    d2: Option<u8>,
    dout: Option<u8>,
    lit_dtype: u8,
    lit_bits: u32,
    p: Place,
) -> (g: Program)
    requires
        signing(tag),
        d0 is Some,
        d0->0 <= 2,
        sane(p),
    ensures
        wide_template(tag, d0, d1, d2, dout, lit_dtype, lit_bits) == Some((Strides::One, lines(g))),
        sound(g),
        outcome_kind(g, p) == d0->0,
        outcome(g, Strides::One, p) == sign_meaning(
            p.machine,
            d0->0 as int,
            tag,
            held(p, d0->0 as int, 0, d0->0 as int),
        ),
{
    let d = d0->0;
    let k = d as int;
    let g = sign_program(k, tag);
    let v = held(p, k, 0, k);
    reveal_with_fuel(value, 6);
    reveal_with_fuel(sort, 6);
    reveal_with_fuel(legible, 6);
    lemma_held(Strides::One, p, Access::Float, 0, 'x', Named::Digit(0));
    lemma_held(Strides::One, p, Access::Int, 0, 'x', Named::Digit(1));
    lemma_held(Strides::One, p, Access::Uint, 0, 'x', Named::Digit(2));
    lemma_wraps(0, v);
    assert(fits(k, v));
    assert(unsigned(0) == 0);
    lemma_float_neg_line();
    lemma_float_abs_line();
    lemma_float_sign_line();
    lemma_int_neg_line();
    lemma_int_abs_line();
    lemma_int_sign_line();
    lemma_uint_neg_line();
    lemma_uint_sign_line();
    lemma_uint_abs_line();
    if d == 0 {
        assert(lines(g) == sign_line(d, tag));
    } else if d == 1 {
        assert(lines(g) == sign_line(d, tag));
    } else {
        assert(lines(g) == sign_line(d, tag));
    }
    g
}

proof fn lemma_float_neg_result()
    ensures
        print(sign_program(0, OpTag::Neg).result) == seq!['-', 'm', '1', '_', 'l', 'o', 'a', 'd', '_', 'f', '(', '$', 'a', ',', ' ', 'i', ' ', '*', ' ', 's', 'x', '_', '$', 'N', ',', ' ', '0', 'u', ')'],
{
    let t = sign_program(0, OpTag::Neg).result;
    assert(print(read(Access::Float, 0, 'x', Named::Digit(0))) =~= seq!['m', '1', '_', 'l', 'o', 'a', 'd', '_', 'f', '(', '$', 'a', ',', ' ', 'i', ' ', '*', ' ', 's', 'x', '_', '$', 'N', ',', ' ', '0', 'u', ')']);
    reveal_with_fuel(print, 4);
    assert(print(t) =~= seq!['-', 'm', '1', '_', 'l', 'o', 'a', 'd', '_', 'f', '(', '$', 'a', ',', ' ', 'i', ' ', '*', ' ', 's', 'x', '_', '$', 'N', ',', ' ', '0', 'u', ')']);
}

#[verifier::spinoff_prover]
#[verifier::rlimit(40)]
proof fn lemma_float_neg_line()
    ensures
        lines(sign_program(0, OpTag::Neg)) == "        m1_store_f($o, i, -m1_load_f($a, i * sx_$N, 0u));\n"@,
{
    lemma_float_neg_result();
    let g = sign_program(0, OpTag::Neg);
    reveal_strlit("        m1_store_f($o, i, -m1_load_f($a, i * sx_$N, 0u));\n");
    assert(lines(g) =~= "        m1_store_f($o, i, -m1_load_f($a, i * sx_$N, 0u));\n"@);
}

proof fn lemma_float_abs_result()
    ensures
        print(sign_program(0, OpTag::Abs).result) == seq!['a', 'b', 's', '(', 'm', '1', '_', 'l', 'o', 'a', 'd', '_', 'f', '(', '$', 'a', ',', ' ', 'i', ' ', '*', ' ', 's', 'x', '_', '$', 'N', ',', ' ', '0', 'u', ')', ')'],
{
    let t = sign_program(0, OpTag::Abs).result;
    assert(print(read(Access::Float, 0, 'x', Named::Digit(0))) =~= seq!['m', '1', '_', 'l', 'o', 'a', 'd', '_', 'f', '(', '$', 'a', ',', ' ', 'i', ' ', '*', ' ', 's', 'x', '_', '$', 'N', ',', ' ', '0', 'u', ')']);
    reveal_with_fuel(print, 4);
    assert(print(t) =~= seq!['a', 'b', 's', '(', 'm', '1', '_', 'l', 'o', 'a', 'd', '_', 'f', '(', '$', 'a', ',', ' ', 'i', ' ', '*', ' ', 's', 'x', '_', '$', 'N', ',', ' ', '0', 'u', ')', ')']);
}

#[verifier::spinoff_prover]
#[verifier::rlimit(40)]
proof fn lemma_float_abs_line()
    ensures
        lines(sign_program(0, OpTag::Abs)) == "        m1_store_f($o, i, abs(m1_load_f($a, i * sx_$N, 0u)));\n"@,
{
    lemma_float_abs_result();
    let g = sign_program(0, OpTag::Abs);
    reveal_strlit("        m1_store_f($o, i, abs(m1_load_f($a, i * sx_$N, 0u)));\n");
    assert(lines(g) =~= "        m1_store_f($o, i, abs(m1_load_f($a, i * sx_$N, 0u)));\n"@);
}

proof fn lemma_float_sign_result()
    ensures
        print(sign_program(0, OpTag::Sign).result) == seq!['x', '_', '$', 'N', ' ', '>', ' ', '0', ' ', '?', ' ', '1', '.', '0', 'f', ' ', ':', ' ', '(', 'x', '_', '$', 'N', ' ', '<', ' ', '0', ' ', '?', ' ', '-', '1', '.', '0', 'f', ' ', ':', ' ', '0', '.', '0', 'f', ')'],
{
    let t = sign_program(0, OpTag::Sign).result;
    assert(print(*t->Choice_0) =~= seq!['x', '_', '$', 'N', ' ', '>', ' ', '0']) by {
        reveal_with_fuel(print, 3);
    }
    assert(print(*t->Choice_2) =~= seq!['(', 'x', '_', '$', 'N', ' ', '<', ' ', '0', ' ', '?', ' ', '-', '1', '.', '0', 'f', ' ', ':', ' ', '0', '.', '0', 'f', ')']) by {
        reveal_with_fuel(print, 5);
    }
    reveal_with_fuel(print, 2);
    assert(print(t) =~= seq!['x', '_', '$', 'N', ' ', '>', ' ', '0', ' ', '?', ' ', '1', '.', '0', 'f', ' ', ':', ' ', '(', 'x', '_', '$', 'N', ' ', '<', ' ', '0', ' ', '?', ' ', '-', '1', '.', '0', 'f', ' ', ':', ' ', '0', '.', '0', 'f', ')']);
}

#[verifier::spinoff_prover]
#[verifier::rlimit(40)]
proof fn lemma_float_sign_line()
    ensures
        lines(sign_program(0, OpTag::Sign)) == "        { const float x_$N = m1_load_f($a, i * sx_$N, 0u); m1_store_f($o, i, x_$N > 0 ? 1.0f : (x_$N < 0 ? -1.0f : 0.0f)); }\n"@,
{
    lemma_float_sign_result();
    let g = sign_program(0, OpTag::Sign);
    assert(print(g.locals[0].2) =~= seq!['m', '1', '_', 'l', 'o', 'a', 'd', '_', 'f', '(', '$', 'a', ',', ' ', 'i', ' ', '*', ' ', 's', 'x', '_', '$', 'N', ',', ' ', '0', 'u', ')']);
    assert(declared(g.locals[0]) =~= seq!['c', 'o', 'n', 's', 't', ' ', 'f', 'l', 'o', 'a', 't', ' ', 'x', '_', '$', 'N', ' ', '=', ' ', 'm', '1', '_', 'l', 'o', 'a', 'd', '_', 'f', '(', '$', 'a', ',', ' ', 'i', ' ', '*', ' ', 's', 'x', '_', '$', 'N', ',', ' ', '0', 'u', ')', ';']);
    reveal_strlit("        { const float x_$N = m1_load_f($a, i * sx_$N, 0u); m1_store_f($o, i, x_$N > 0 ? 1.0f : (x_$N < 0 ? -1.0f : 0.0f)); }\n");
    assert(lines(g) =~= "        { const float x_$N = m1_load_f($a, i * sx_$N, 0u); m1_store_f($o, i, x_$N > 0 ? 1.0f : (x_$N < 0 ? -1.0f : 0.0f)); }\n"@);
}

proof fn lemma_int_neg_result()
    ensures
        print(sign_program(1, OpTag::Neg).result) == seq!['i', 'n', 't', '(', '0', 'u', ' ', '-', ' ', 'u', 'i', 'n', 't', '(', 'm', '1', '_', 'l', 'o', 'a', 'd', '_', 'i', '(', '$', 'a', ',', ' ', 'i', ' ', '*', ' ', 's', 'x', '_', '$', 'N', ',', ' ', '1', 'u', ')', ')', ')'],
{
    let t = sign_program(1, OpTag::Neg).result;
    assert(print(read(Access::Int, 0, 'x', Named::Digit(1))) =~= seq!['m', '1', '_', 'l', 'o', 'a', 'd', '_', 'i', '(', '$', 'a', ',', ' ', 'i', ' ', '*', ' ', 's', 'x', '_', '$', 'N', ',', ' ', '1', 'u', ')']);
    reveal_with_fuel(print, 4);
    assert(print(t) =~= seq!['i', 'n', 't', '(', '0', 'u', ' ', '-', ' ', 'u', 'i', 'n', 't', '(', 'm', '1', '_', 'l', 'o', 'a', 'd', '_', 'i', '(', '$', 'a', ',', ' ', 'i', ' ', '*', ' ', 's', 'x', '_', '$', 'N', ',', ' ', '1', 'u', ')', ')', ')']);
}

#[verifier::spinoff_prover]
#[verifier::rlimit(40)]
proof fn lemma_int_neg_line()
    ensures
        lines(sign_program(1, OpTag::Neg)) == "        m1_store_i($o, i, int(0u - uint(m1_load_i($a, i * sx_$N, 1u))));\n"@,
{
    lemma_int_neg_result();
    let g = sign_program(1, OpTag::Neg);
    reveal_strlit("        m1_store_i($o, i, int(0u - uint(m1_load_i($a, i * sx_$N, 1u))));\n");
    assert(lines(g) =~= "        m1_store_i($o, i, int(0u - uint(m1_load_i($a, i * sx_$N, 1u))));\n"@);
}

proof fn lemma_int_abs_result()
    ensures
        print(sign_program(1, OpTag::Abs).result) == seq!['x', '_', '$', 'N', ' ', '=', '=', ' ', 'I', 'N', 'T', '_', 'M', 'I', 'N', ' ', '?', ' ', 'x', '_', '$', 'N', ' ', ':', ' ', 'a', 'b', 's', '(', 'x', '_', '$', 'N', ')'],
{
    let t = sign_program(1, OpTag::Abs).result;
    reveal_with_fuel(print, 4);
    assert(print(t) =~= seq!['x', '_', '$', 'N', ' ', '=', '=', ' ', 'I', 'N', 'T', '_', 'M', 'I', 'N', ' ', '?', ' ', 'x', '_', '$', 'N', ' ', ':', ' ', 'a', 'b', 's', '(', 'x', '_', '$', 'N', ')']);
}

#[verifier::spinoff_prover]
#[verifier::rlimit(40)]
proof fn lemma_int_abs_line()
    ensures
        lines(sign_program(1, OpTag::Abs)) == "        { const int x_$N = m1_load_i($a, i * sx_$N, 1u); m1_store_i($o, i, x_$N == INT_MIN ? x_$N : abs(x_$N)); }\n"@,
{
    lemma_int_abs_result();
    let g = sign_program(1, OpTag::Abs);
    assert(print(g.locals[0].2) =~= seq!['m', '1', '_', 'l', 'o', 'a', 'd', '_', 'i', '(', '$', 'a', ',', ' ', 'i', ' ', '*', ' ', 's', 'x', '_', '$', 'N', ',', ' ', '1', 'u', ')']);
    assert(declared(g.locals[0]) =~= seq!['c', 'o', 'n', 's', 't', ' ', 'i', 'n', 't', ' ', 'x', '_', '$', 'N', ' ', '=', ' ', 'm', '1', '_', 'l', 'o', 'a', 'd', '_', 'i', '(', '$', 'a', ',', ' ', 'i', ' ', '*', ' ', 's', 'x', '_', '$', 'N', ',', ' ', '1', 'u', ')', ';']);
    reveal_strlit("        { const int x_$N = m1_load_i($a, i * sx_$N, 1u); m1_store_i($o, i, x_$N == INT_MIN ? x_$N : abs(x_$N)); }\n");
    assert(lines(g) =~= "        { const int x_$N = m1_load_i($a, i * sx_$N, 1u); m1_store_i($o, i, x_$N == INT_MIN ? x_$N : abs(x_$N)); }\n"@);
}

proof fn lemma_int_sign_result()
    ensures
        print(sign_program(1, OpTag::Sign).result) == seq!['x', '_', '$', 'N', ' ', '>', ' ', '0', ' ', '?', ' ', '1', ' ', ':', ' ', '(', 'x', '_', '$', 'N', ' ', '<', ' ', '0', ' ', '?', ' ', '-', '1', ' ', ':', ' ', '0', ')'],
{
    let t = sign_program(1, OpTag::Sign).result;
    assert(print(*t->Choice_0) =~= seq!['x', '_', '$', 'N', ' ', '>', ' ', '0']) by {
        reveal_with_fuel(print, 3);
    }
    assert(print(*t->Choice_2) =~= seq!['(', 'x', '_', '$', 'N', ' ', '<', ' ', '0', ' ', '?', ' ', '-', '1', ' ', ':', ' ', '0', ')']) by {
        reveal_with_fuel(print, 5);
    }
    reveal_with_fuel(print, 2);
    assert(print(t) =~= seq!['x', '_', '$', 'N', ' ', '>', ' ', '0', ' ', '?', ' ', '1', ' ', ':', ' ', '(', 'x', '_', '$', 'N', ' ', '<', ' ', '0', ' ', '?', ' ', '-', '1', ' ', ':', ' ', '0', ')']);
}

#[verifier::spinoff_prover]
#[verifier::rlimit(40)]
proof fn lemma_int_sign_line()
    ensures
        lines(sign_program(1, OpTag::Sign)) == "        { const int x_$N = m1_load_i($a, i * sx_$N, 1u); m1_store_i($o, i, x_$N > 0 ? 1 : (x_$N < 0 ? -1 : 0)); }\n"@,
{
    lemma_int_sign_result();
    let g = sign_program(1, OpTag::Sign);
    assert(print(g.locals[0].2) =~= seq!['m', '1', '_', 'l', 'o', 'a', 'd', '_', 'i', '(', '$', 'a', ',', ' ', 'i', ' ', '*', ' ', 's', 'x', '_', '$', 'N', ',', ' ', '1', 'u', ')']);
    assert(declared(g.locals[0]) =~= seq!['c', 'o', 'n', 's', 't', ' ', 'i', 'n', 't', ' ', 'x', '_', '$', 'N', ' ', '=', ' ', 'm', '1', '_', 'l', 'o', 'a', 'd', '_', 'i', '(', '$', 'a', ',', ' ', 'i', ' ', '*', ' ', 's', 'x', '_', '$', 'N', ',', ' ', '1', 'u', ')', ';']);
    reveal_strlit("        { const int x_$N = m1_load_i($a, i * sx_$N, 1u); m1_store_i($o, i, x_$N > 0 ? 1 : (x_$N < 0 ? -1 : 0)); }\n");
    assert(lines(g) =~= "        { const int x_$N = m1_load_i($a, i * sx_$N, 1u); m1_store_i($o, i, x_$N > 0 ? 1 : (x_$N < 0 ? -1 : 0)); }\n"@);
}

proof fn lemma_uint_neg_result()
    ensures
        print(sign_program(2, OpTag::Neg).result) == seq!['0', 'u', ' ', '-', ' ', 'm', '1', '_', 'l', 'o', 'a', 'd', '_', 'u', '(', '$', 'a', ',', ' ', 'i', ' ', '*', ' ', 's', 'x', '_', '$', 'N', ',', ' ', '2', 'u', ')'],
{
    let t = sign_program(2, OpTag::Neg).result;
    assert(print(read(Access::Uint, 0, 'x', Named::Digit(2))) =~= seq!['m', '1', '_', 'l', 'o', 'a', 'd', '_', 'u', '(', '$', 'a', ',', ' ', 'i', ' ', '*', ' ', 's', 'x', '_', '$', 'N', ',', ' ', '2', 'u', ')']);
    reveal_with_fuel(print, 4);
    assert(print(t) =~= seq!['0', 'u', ' ', '-', ' ', 'm', '1', '_', 'l', 'o', 'a', 'd', '_', 'u', '(', '$', 'a', ',', ' ', 'i', ' ', '*', ' ', 's', 'x', '_', '$', 'N', ',', ' ', '2', 'u', ')']);
}

#[verifier::spinoff_prover]
#[verifier::rlimit(40)]
proof fn lemma_uint_neg_line()
    ensures
        lines(sign_program(2, OpTag::Neg)) == "        m1_store_u($o, i, 0u - m1_load_u($a, i * sx_$N, 2u));\n"@,
{
    lemma_uint_neg_result();
    let g = sign_program(2, OpTag::Neg);
    reveal_strlit("        m1_store_u($o, i, 0u - m1_load_u($a, i * sx_$N, 2u));\n");
    assert(lines(g) =~= "        m1_store_u($o, i, 0u - m1_load_u($a, i * sx_$N, 2u));\n"@);
}

proof fn lemma_uint_sign_result()
    ensures
        print(sign_program(2, OpTag::Sign).result) == seq!['m', '1', '_', 'l', 'o', 'a', 'd', '_', 'u', '(', '$', 'a', ',', ' ', 'i', ' ', '*', ' ', 's', 'x', '_', '$', 'N', ',', ' ', '2', 'u', ')', ' ', '!', '=', ' ', '0', ' ', '?', ' ', '1', 'u', ' ', ':', ' ', '0', 'u'],
{
    let t = sign_program(2, OpTag::Sign).result;
    assert(print(read(Access::Uint, 0, 'x', Named::Digit(2))) =~= seq!['m', '1', '_', 'l', 'o', 'a', 'd', '_', 'u', '(', '$', 'a', ',', ' ', 'i', ' ', '*', ' ', 's', 'x', '_', '$', 'N', ',', ' ', '2', 'u', ')']);
    reveal_with_fuel(print, 4);
    assert(print(t) =~= seq!['m', '1', '_', 'l', 'o', 'a', 'd', '_', 'u', '(', '$', 'a', ',', ' ', 'i', ' ', '*', ' ', 's', 'x', '_', '$', 'N', ',', ' ', '2', 'u', ')', ' ', '!', '=', ' ', '0', ' ', '?', ' ', '1', 'u', ' ', ':', ' ', '0', 'u']);
}

#[verifier::spinoff_prover]
#[verifier::rlimit(40)]
proof fn lemma_uint_sign_line()
    ensures
        lines(sign_program(2, OpTag::Sign)) == "        m1_store_u($o, i, m1_load_u($a, i * sx_$N, 2u) != 0 ? 1u : 0u);\n"@,
{
    lemma_uint_sign_result();
    let g = sign_program(2, OpTag::Sign);
    reveal_strlit("        m1_store_u($o, i, m1_load_u($a, i * sx_$N, 2u) != 0 ? 1u : 0u);\n");
    assert(lines(g) =~= "        m1_store_u($o, i, m1_load_u($a, i * sx_$N, 2u) != 0 ? 1u : 0u);\n"@);
}

proof fn lemma_uint_abs_result()
    ensures
        print(sign_program(2, OpTag::Abs).result) == seq!['m', '1', '_', 'l', 'o', 'a', 'd', '_', 'u', '(', '$', 'a', ',', ' ', 'i', ' ', '*', ' ', 's', 'x', '_', '$', 'N', ',', ' ', '2', 'u', ')'],
{
    let t = sign_program(2, OpTag::Abs).result;
    assert(print(read(Access::Uint, 0, 'x', Named::Digit(2))) =~= seq!['m', '1', '_', 'l', 'o', 'a', 'd', '_', 'u', '(', '$', 'a', ',', ' ', 'i', ' ', '*', ' ', 's', 'x', '_', '$', 'N', ',', ' ', '2', 'u', ')']);
    reveal_with_fuel(print, 4);
    assert(print(t) =~= seq!['m', '1', '_', 'l', 'o', 'a', 'd', '_', 'u', '(', '$', 'a', ',', ' ', 'i', ' ', '*', ' ', 's', 'x', '_', '$', 'N', ',', ' ', '2', 'u', ')']);
}

#[verifier::spinoff_prover]
#[verifier::rlimit(40)]
proof fn lemma_uint_abs_line()
    ensures
        lines(sign_program(2, OpTag::Abs)) == "        m1_store_u($o, i, m1_load_u($a, i * sx_$N, 2u));\n"@,
{
    lemma_uint_abs_result();
    let g = sign_program(2, OpTag::Abs);
    reveal_strlit("        m1_store_u($o, i, m1_load_u($a, i * sx_$N, 2u));\n");
    assert(lines(g) =~= "        m1_store_u($o, i, m1_load_u($a, i * sx_$N, 2u));\n"@);
}

/// The access of a kind of number.
pub open spec fn access_of(k: int) -> Access {
    if k == 0 {
        Access::Float
    } else if k == 1 {
        Access::Int
    } else if k == 2 {
        Access::Uint
    } else {
        Access::Bool
    }
}

/// What a placeholder stands for is what the programs above take it for: each
/// operand's pointer, value and dtype are those of the value that the operand
/// resolves to, the result's are its own, and a load or store by dtype is the
/// one of that dtype.
pub proof fn law_placeholders_are_of_their_operands(
    op: OpView,
    node: nat,
    base: u32,
    slots: SlotsView,
    types: Seq<ValueType>,
    alias: Map<u32, u32>,
    p: Place,
    k: int,
)
    requires
        0 <= k < 3,
        forall|j: int|
            0 <= j < 3 && #[trigger] operand_dtype(op, alias, types, j) is Some ==> (p.dtype)(j)
                == operand_dtype(op, alias, types, j)->0,
        dtype_of(types, base) is Some ==> p.result == dtype_of(types, base)->0,
    ensures
        ({
            let env = wide_env(op, node, base, slots, types, alias);
            &&& lookup(env, pointer_letter(k)) == if k == 0 {
                slots.a0
            } else if k == 1 {
                slots.a1
            } else {
                slots.a2
            }
            &&& k < op.args@.len() ==> ({
                let v = if alias.contains_key(op.args@[k]) {
                    alias[op.args@[k]]
                } else {
                    op.args@[k]
                };
                &&& lookup(env, value_letter(k)) == dec(v as nat)
                &&& v < types.len() && types[v as int].dtype is Some ==> lookup(env, digit(k)) == dec(
                    types[v as int].dtype->0 as nat,
                ) && (p.dtype)(k) == types[v as int].dtype->0
            })
            &&& lookup(env, 'o') == slots.o0
            &&& lookup(env, 'N') == dec(node)
            &&& lookup(env, 'B') == dec(base as nat)
            &&& lookup(env, 'l') == dec(op.lit_bits as nat)
            &&& base < types.len() && types[base as int].dtype is Some ==> {
                &&& lookup(env, '9') == dec(types[base as int].dtype->0 as nat)
                &&& lookup(env, 'L') == loader(access_of(kind(Access::Result, p)))
                &&& lookup(env, 'S') == storer(access_of(kind(Access::Result, p)))
            }
            &&& operand_dtype(op, alias, types, 0) is Some ==> {
                &&& lookup(env, 'X') == loader(access_of(kind(Access::First, p)))
                &&& lookup(env, 'Y') == storer(access_of(kind(Access::First, p)))
                &&& lookup(env, 'T') == named(access_of(kind(Access::First, p)))
            }
        }),
{
    assert(operand_dtype(op, alias, types, k) is Some ==> (p.dtype)(k) == operand_dtype(
        op,
        alias,
        types,
        k,
    )->0);
    assert(operand_dtype(op, alias, types, 0) is Some ==> (p.dtype)(0) == operand_dtype(
        op,
        alias,
        types,
        0,
    )->0);
    lemma_access_names();
}

#[verifier::spinoff_prover]
#[verifier::rlimit(40)]
proof fn lemma_access_names()
    ensures
        scalar_name(0) == named(Access::Float),
        scalar_name(1) == named(Access::Int),
        forall|d: u8| d >= 2 ==> #[trigger] scalar_name(d) == named(Access::Uint),
        scalar_load(0) == loader(Access::Float),
        scalar_load(1) == loader(Access::Int),
        forall|d: u8| d >= 2 ==> #[trigger] scalar_load(d) == loader(Access::Uint),
        scalar_store(0) == storer(Access::Float),
        scalar_store(1) == storer(Access::Int),
        forall|d: u8| d >= 2 ==> #[trigger] scalar_store(d) == storer(Access::Uint),
        typed_load(0) == loader(Access::Float),
        typed_load(1) == loader(Access::Int),
        typed_load(2) == loader(Access::Uint),
        forall|d: u8| d >= 3 ==> #[trigger] typed_load(d) == loader(Access::Bool),
        typed_store(0) == storer(Access::Float),
        typed_store(1) == storer(Access::Int),
        typed_store(2) == storer(Access::Uint),
        forall|d: u8| d >= 3 ==> #[trigger] typed_store(d) == storer(Access::Bool),
{
    reveal_strlit("float");
    reveal_strlit("int");
    reveal_strlit("uint");
    reveal_strlit("m1_load_f");
    reveal_strlit("m1_load_i");
    reveal_strlit("m1_load_u");
    reveal_strlit("m1_load_b");
    reveal_strlit("m1_store_f");
    reveal_strlit("m1_store_i");
    reveal_strlit("m1_store_u");
    reveal_strlit("m1_store_b");
    assert("float"@ =~= named(Access::Float));
    assert("int"@ =~= named(Access::Int));
    assert("uint"@ =~= named(Access::Uint));
    assert("m1_load_f"@ =~= loader(Access::Float));
    assert("m1_load_i"@ =~= loader(Access::Int));
    assert("m1_load_u"@ =~= loader(Access::Uint));
    assert("m1_load_b"@ =~= loader(Access::Bool));
    assert("m1_store_f"@ =~= storer(Access::Float));
    assert("m1_store_i"@ =~= storer(Access::Int));
    assert("m1_store_u"@ =~= storer(Access::Uint));
    assert("m1_store_b"@ =~= storer(Access::Bool));
}

/// How many of an op's operands its direct form reads by dtype.
pub open spec fn typed_operands(tag: OpTag) -> int {
    if arithmetic(tag) || relational(tag) || tag == OpTag::And || tag == OpTag::Or {
        2
    } else if tag == OpTag::Select {
        3
    } else if signing(tag) || tag == OpTag::Exp || tag == OpTag::Log || tag == OpTag::Recip || tag
        == OpTag::Cast || tag == OpTag::Not || tag == OpTag::Broadcast {
        1
    } else {
        0
    }
}

/// An op with a direct form reads operands whose dtypes are all known, and an
/// op that reads none of its operands by dtype has one where its result's dtype
/// is known.
pub proof fn law_a_direct_form_knows_its_dtypes(
    tag: OpTag,
    d0: Option<u8>,
    d1: Option<u8>,
    d2: Option<u8>,
    dout: Option<u8>,
    lit_dtype: u8,
    lit_bits: u32,
)
    ensures
        ({
            let direct = wide_template(tag, d0, d1, d2, dout, lit_dtype, lit_bits) is Some;
            let n = typed_operands(tag);
            let known = (n > 0 ==> d0 is Some) && (n > 1 ==> d1 is Some) && (n > 2 ==> d2 is Some);
            &&& direct ==> known
            &&& n > 0 && known && dout is Some && !(signing(tag) && d0 == Some(3u8)) ==> direct
            &&& signing(tag) && d0 == Some(3u8) ==> !direct
            &&& n == 0 && direct ==> tag == OpTag::Const || tag == OpTag::Iota || dout is Some
        }),
{
}

/// An element's lines stand in a test that the element is one of the result's,
/// and are absent where the op has no direct form.
#[verifier::spinoff_prover]
#[verifier::rlimit(40)]
pub proof fn law_an_element_is_guarded(
    op: OpView,
    node: nat,
    base: u32,
    slots: SlotsView,
    types: Seq<ValueType>,
    alias: Map<u32, u32>,
)
    ensures
        ({
            let env = wide_env(op, node, base, slots, types, alias);
            let template = wide_template(
                op.tag,
                operand_dtype(op, alias, types, 0),
                operand_dtype(op, alias, types, 1),
                operand_dtype(op, alias, types, 2),
                dtype_of(types, base),
                op.lit_dtype,
                op.lit_bits,
            );
            match wide_text(op, node, base, slots, types, alias) {
                Some(t) => template is Some && t.0 == fill(strides_template((template->0).0), env)
                    && t.1 == seq![' ', ' ', ' ', ' ', ' ', ' ', 'i', 'f', ' ', '(', 'i', ' ', '<', ' ', 'm', '4', '_', 'n', '_'] + dec(node) + seq![')', ' ', '{'] + seq!['\n'] + fill(
                    (template->0).1 + (seq![' ', ' ', ' ', ' ', ' ', ' ', '}'] + seq!['\n']),
                    env,
                ),
                None => template is None,
            }
        }),
{
    let env = wide_env(op, node, base, slots, types, alias);
    let template = wide_template(
        op.tag,
        operand_dtype(op, alias, types, 0),
        operand_dtype(op, alias, types, 1),
        operand_dtype(op, alias, types, 2),
        dtype_of(types, base),
        op.lit_dtype,
        op.lit_bits,
    );
    reveal_strlit("      if (i < m4_n_$N) {\n");
    reveal_strlit("      }\n");
    if template is Some {
        let body = (template->0).1;
        let a = seq![' ', ' ', ' ', ' ', ' ', ' ', 'i', 'f', ' ', '(', 'i', ' ', '<', ' ', 'm', '4', '_', 'n', '_'];
        let b = seq![')', ' ', '{'] + seq!['\n'];
        let z = seq![' ', ' ', ' ', ' ', ' ', ' ', '}'] + seq!['\n'];
        assert("      }\n"@ =~= z);
        assert("      if (i < m4_n_$N) {\n"@ + body + "      }\n"@ =~= a + (seq!['$', 'N'] + (b + (body
            + z))));
        law_pieces_are_filled_one_by_one(a, seq!['$', 'N'] + (b + (body + z)), env);
        law_pieces_are_filled_one_by_one(seq!['$', 'N'], b + (body + z), env);
        law_pieces_are_filled_one_by_one(b, body + z, env);
        law_a_placeholder_is_filled('N', env);
        law_other_text_stays(a, env);
        law_other_text_stays(b, env);
        assert(fill(a + (seq!['$', 'N'] + (b + (body + z))), env) =~= a + dec(node) + seq![')', ' ', '{']
            + seq!['\n'] + fill(body + z, env));
    }
}

/// How a broadcast's source is read: at 0 where it is a scalar, else at the place
/// that its dimensions give.
pub open spec fn source_line() -> Seq<char> {
    seq![' ', ' ', ' ', ' ', 'c', 'o', 'n', 's', 't', ' ', 'u', 'i', 'n', 't', ' ', 'b', 'c', '_', '$', 'N', ' ', '=', ' ', 'd', 'e', 's', 'c', 'r', 'i', 'p', 't', 'o', 'r', 's', '[', '$', 'p', ']', '.', 'l', 'e', 'n', ' ', '=', '=', ' ', '1', 'u', ' ', '?', ' ', '0', 'u', ' ', ':', ' ', '2', 'u', ';'] + seq!['\n']
}

/// A broadcast of a scalar reads the operand's one cell for every element: its mode
/// is 0 there, the place starts at 0 in that mode, it is looked for in the other one
/// alone, and what is stored is the operand at that place.
pub proof fn law_a_broadcast_scalar_is_read_at_zero(
    d0: Option<u8>,
    d1: Option<u8>,
    d2: Option<u8>,
    dout: Option<u8>,
    lit_dtype: u8,
    lit_bits: u32,
) -> (body: Seq<char>)
    requires
        d0 is Some,
        dout is Some,
    ensures
        strides_template(Strides::Mode) == count_line() + source_line(),
        wide_template(OpTag::Broadcast, d0, d1, d2, dout, lit_dtype, lit_bits) == Some(
            (
                Strides::Mode,
                seq![' ', ' ', ' ', ' ', ' ', ' ', ' ', ' ', 'u', 'i', 'n', 't', ' ', 'x', '_', '$', 'N', ' ', '=', ' ', 'b', 'c', '_', '$', 'N', ' ', '=', '=', ' ', '0', 'u', ' ', '?', ' ', '0', 'u', ' ', ':', ' ', 'i', ';'] + seq!['\n']
                    + (seq![' ', ' ', ' ', ' ', ' ', ' ', ' ', ' ', 'i', 'f', ' ', '(', 'b', 'c', '_', '$', 'N', ' ', '=', '=', ' ', '2', 'u', ')', ' ', '{'] + seq!['\n']) + body + (seq![' ', ' ', ' ', ' ', ' ', ' ', ' ', ' ', ' ', ' ', 'x', '_', '$', 'N', ' ', '=', ' ', 's', 'o', 'u', 'r', 'c', 'e', '_', 'i', 'n', 'd', 'e', 'x', ';'] + seq!['\n'])
                    + (seq![' ', ' ', ' ', ' ', ' ', ' ', ' ', ' ', '}'] + seq!['\n']) + (seq![' ', ' ', ' ', ' ', ' ', ' ', ' ', ' ', '$', 'S', '(', '$', 'o', ',', ' ', 'i', ',', ' ', '$', 'L', '(', '$', 'a', ',', ' ', 'x', '_', '$', 'N', ',', ' ', '$', '0', 'u', ')', ')', ';'] + seq!['\n']),
            ),
        ),
{
    reveal_strlit("    const uint m4_n_$N = descriptors[$B].len;\n    const uint bc_$N = descriptors[$p].len == 1u ? 0u : 2u;\n");
    assert(strides_template(Strides::Mode) =~= count_line() + source_line());
    lemma_broadcast_ends()
}

#[verifier::spinoff_prover]
#[verifier::rlimit(60)]
proof fn lemma_broadcast_ends() -> (body: Seq<char>)
    ensures
        "        uint x_$N = bc_$N == 0u ? 0u : i;\n        if (bc_$N == 2u) {\n          const M1ValueDesc bd0 = descriptors[$p];\n          const M1ValueDesc bo0 = descriptors[$B];\n          uint rem = i, source_index = 0;\n          uint source_stride[4] = {1, 1, 1, 1};\n          for (int dim = int(bo0.rank) - 2; dim >= 0; --dim)\n            source_stride[dim] = source_stride[dim + 1] * (uint(dim + 1) < bd0.rank ? bd0.dims[dim + 1] : 1u);\n          for (uint dim = 0; dim < bo0.rank; ++dim) {\n            uint stride = 1;\n            for (uint next = dim + 1; next < bo0.rank; ++next) stride *= bo0.dims[next];\n            const uint coordinate = rem / max(stride, 1u);\n            rem %= max(stride, 1u);\n            const uint source_dim = dim < bd0.rank ? bd0.dims[dim] : 1u;\n            if (source_dim != 1) source_index += coordinate * source_stride[dim];\n          }\n          x_$N = source_index;\n        }\n        $S($o, i, $L($a, x_$N, $0u));\n"@
            == seq![' ', ' ', ' ', ' ', ' ', ' ', ' ', ' ', 'u', 'i', 'n', 't', ' ', 'x', '_', '$', 'N', ' ', '=', ' ', 'b', 'c', '_', '$', 'N', ' ', '=', '=', ' ', '0', 'u', ' ', '?', ' ', '0', 'u', ' ', ':', ' ', 'i', ';'] + seq!['\n']
                    + (seq![' ', ' ', ' ', ' ', ' ', ' ', ' ', ' ', 'i', 'f', ' ', '(', 'b', 'c', '_', '$', 'N', ' ', '=', '=', ' ', '2', 'u', ')', ' ', '{'] + seq!['\n']) + body + (seq![' ', ' ', ' ', ' ', ' ', ' ', ' ', ' ', ' ', ' ', 'x', '_', '$', 'N', ' ', '=', ' ', 's', 'o', 'u', 'r', 'c', 'e', '_', 'i', 'n', 'd', 'e', 'x', ';'] + seq!['\n'])
                    + (seq![' ', ' ', ' ', ' ', ' ', ' ', ' ', ' ', '}'] + seq!['\n']) + (seq![' ', ' ', ' ', ' ', ' ', ' ', ' ', ' ', '$', 'S', '(', '$', 'o', ',', ' ', 'i', ',', ' ', '$', 'L', '(', '$', 'a', ',', ' ', 'x', '_', '$', 'N', ',', ' ', '$', '0', 'u', ')', ')', ';'] + seq!['\n']),
{
    let all = "        uint x_$N = bc_$N == 0u ? 0u : i;\n        if (bc_$N == 2u) {\n          const M1ValueDesc bd0 = descriptors[$p];\n          const M1ValueDesc bo0 = descriptors[$B];\n          uint rem = i, source_index = 0;\n          uint source_stride[4] = {1, 1, 1, 1};\n          for (int dim = int(bo0.rank) - 2; dim >= 0; --dim)\n            source_stride[dim] = source_stride[dim + 1] * (uint(dim + 1) < bd0.rank ? bd0.dims[dim + 1] : 1u);\n          for (uint dim = 0; dim < bo0.rank; ++dim) {\n            uint stride = 1;\n            for (uint next = dim + 1; next < bo0.rank; ++next) stride *= bo0.dims[next];\n            const uint coordinate = rem / max(stride, 1u);\n            rem %= max(stride, 1u);\n            const uint source_dim = dim < bd0.rank ? bd0.dims[dim] : 1u;\n            if (source_dim != 1) source_index += coordinate * source_stride[dim];\n          }\n          x_$N = source_index;\n        }\n        $S($o, i, $L($a, x_$N, $0u));\n"@;
    reveal_strlit("        uint x_$N = bc_$N == 0u ? 0u : i;\n        if (bc_$N == 2u) {\n          const M1ValueDesc bd0 = descriptors[$p];\n          const M1ValueDesc bo0 = descriptors[$B];\n          uint rem = i, source_index = 0;\n          uint source_stride[4] = {1, 1, 1, 1};\n          for (int dim = int(bo0.rank) - 2; dim >= 0; --dim)\n            source_stride[dim] = source_stride[dim + 1] * (uint(dim + 1) < bd0.rank ? bd0.dims[dim + 1] : 1u);\n          for (uint dim = 0; dim < bo0.rank; ++dim) {\n            uint stride = 1;\n            for (uint next = dim + 1; next < bo0.rank; ++next) stride *= bo0.dims[next];\n            const uint coordinate = rem / max(stride, 1u);\n            rem %= max(stride, 1u);\n            const uint source_dim = dim < bd0.rank ? bd0.dims[dim] : 1u;\n            if (source_dim != 1) source_index += coordinate * source_stride[dim];\n          }\n          x_$N = source_index;\n        }\n        $S($o, i, $L($a, x_$N, $0u));\n");
    let a = seq![' ', ' ', ' ', ' ', ' ', ' ', ' ', ' ', 'u', 'i', 'n', 't', ' ', 'x', '_', '$', 'N', ' ', '=', ' ', 'b', 'c', '_', '$', 'N', ' ', '=', '=', ' ', '0', 'u', ' ', '?', ' ', '0', 'u', ' ', ':', ' ', 'i', ';'] + seq!['\n'];
    let b = seq![' ', ' ', ' ', ' ', ' ', ' ', ' ', ' ', 'i', 'f', ' ', '(', 'b', 'c', '_', '$', 'N', ' ', '=', '=', ' ', '2', 'u', ')', ' ', '{'] + seq!['\n'];
    let x = seq![' ', ' ', ' ', ' ', ' ', ' ', ' ', ' ', ' ', ' ', 'x', '_', '$', 'N', ' ', '=', ' ', 's', 'o', 'u', 'r', 'c', 'e', '_', 'i', 'n', 'd', 'e', 'x', ';'] + seq!['\n'];
    let y = seq![' ', ' ', ' ', ' ', ' ', ' ', ' ', ' ', '}'] + seq!['\n'];
    let z = seq![' ', ' ', ' ', ' ', ' ', ' ', ' ', ' ', '$', 'S', '(', '$', 'o', ',', ' ', 'i', ',', ' ', '$', 'L', '(', '$', 'a', ',', ' ', 'x', '_', '$', 'N', ',', ' ', '$', '0', 'u', ')', ')', ';'] + seq!['\n'];
    let n = (a.len() + b.len()) as int;
    let m = all.len() - (x.len() + y.len() + z.len());
    assert(n == 69 && m == 867 && all.len() == 946);
    let body = all.subrange(n, m);
    assert(all.take(n) =~= a + b);
    assert(all.skip(m) =~= x + y + z);
    assert(all =~= all.take(n) + body + all.skip(m));
    assert(a + b + body + (x + y + z) =~= a + b + body + x + y + z);
    body
}

} // verus!
