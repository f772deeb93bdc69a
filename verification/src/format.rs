//! Number formatting and template filling.

use vstd::prelude::*;
use vstd::string::*;

use crate::text::{cat2, chars_of};

verus! {

// ---------------------------------------------------------------------------
// Numbers
// ---------------------------------------------------------------------------

/// The character of a decimal digit.
pub open spec fn dec_digit(d: int) -> char {
    (0x30 + d) as char
}

/// `n` in decimal, without leading zeros.
pub open spec fn dec(n: nat) -> Seq<char>
    decreases n,
{
    if n < 10 {
        seq![dec_digit(n as int)]
    } else {
        dec(n / 10).push(dec_digit((n % 10) as int))
    }
}

/// Different numbers have different decimal texts.
pub proof fn lemma_dec_injective(a: nat, b: nat)
    requires
        dec(a) == dec(b),
    ensures
        a == b,
    decreases a,
{
    lemma_dec_len(a);
    lemma_dec_len(b);
    assert(dec(a).last() == dec_digit((a % 10) as int));
    assert(dec(b).last() == dec_digit((b % 10) as int));
    if a >= 10 && b >= 10 {
        assert(dec(a).drop_last() =~= dec(a / 10));
        assert(dec(b).drop_last() =~= dec(b / 10));
        lemma_dec_injective(a / 10, b / 10);
    } else if a >= 10 {
        lemma_dec_len(a / 10);
    } else if b >= 10 {
        lemma_dec_len(b / 10);
    }
}

proof fn lemma_dec_len(n: nat)
    ensures
        dec(n).len() >= 1,
        n < 10 ==> dec(n).len() == 1,
        n >= 10 ==> dec(n).len() == dec(n / 10).len() + 1,
    decreases n,
{
    if n >= 10 {
        lemma_dec_len(n / 10);
    }
}

/// The character of a lower-case hexadecimal digit.
pub open spec fn hex_digit(d: int) -> char {
    if d < 10 {
        (0x30 + d) as char
    } else {
        (0x57 + d) as char
    }
}

/// The low `width` hexadecimal digits of `n`, most significant first.
pub open spec fn hex(n: nat, width: nat) -> Seq<char>
    decreases width,
{
    if width == 0 {
        Seq::empty()
    } else {
        hex(n / 16, (width - 1) as nat).push(hex_digit((n % 16) as int))
    }
}

/// The character of an upper-case hexadecimal digit.
pub open spec fn upper_hex_digit(d: int) -> char {
    if d < 10 {
        (0x30 + d) as char
    } else {
        (0x37 + d) as char
    }
}

/// `n` in upper-case hexadecimal, without leading zeros.
pub open spec fn upper_hex(n: nat) -> Seq<char>
    decreases n,
{
    if n < 16 {
        seq![upper_hex_digit(n as int)]
    } else {
        upper_hex(n / 16).push(upper_hex_digit((n % 16) as int))
    }
}

/// Appends `n` in decimal.
pub fn push_dec(out: &mut String, n: u64)
    ensures
        final(out)@ == old(out)@ + dec(n as nat),
    decreases n,
{
    if n >= 10 {
        push_dec(out, n / 10);
    }
    let d: u8 = (n % 10) as u8;
    let c = (0x30 + d) as char;
    out.push(c);
    proof {
        if n >= 10 {
            assert(old(out)@ + dec((n / 10) as nat).push(c) =~= (old(out)@ + dec(
                (n / 10) as nat,
            )).push(c));
        } else {
            assert(old(out)@ + seq![c] =~= old(out)@.push(c));
        }
    }
}

/// `n` in decimal.
pub fn dec_of(n: u64) -> (r: String)
    ensures
        r@ == dec(n as nat),
{
    let mut r = String::new();
    push_dec(&mut r, n);
    proof {
        assert(Seq::<char>::empty() + dec(n as nat) =~= dec(n as nat));
    }
    r
}

/// Appends the low `width` hexadecimal digits of `n`.
pub fn push_hex(out: &mut String, n: u64, width: u32)
    ensures
        final(out)@ == old(out)@ + hex(n as nat, width as nat),
    decreases width,
{
    if width == 0 {
        proof {
            assert(old(out)@ + Seq::<char>::empty() =~= old(out)@);
        }
        return ;
    }
    push_hex(out, n / 16, width - 1);
    let d: u8 = (n % 16) as u8;
    let c = if d < 10 {
        (0x30 + d) as char
    } else {
        (0x57 + d) as char
    };
    out.push(c);
    proof {
        assert(old(out)@ + hex((n / 16) as nat, (width - 1) as nat).push(c) =~= (old(out)@ + hex(
            (n / 16) as nat,
            (width - 1) as nat,
        )).push(c));
    }
}

/// The sixteen hexadecimal digits of `n`, zero padded.
pub fn hex16_of(n: u64) -> (r: String)
    ensures
        r@ == hex(n as nat, 16),
{
    let mut r = String::new();
    push_hex(&mut r, n, 16);
    proof {
        assert(Seq::<char>::empty() + hex(n as nat, 16) =~= hex(n as nat, 16));
    }
    r
}

/// Appends `n` in upper-case hexadecimal.
pub fn push_upper_hex(out: &mut String, n: u32)
    ensures
        final(out)@ == old(out)@ + upper_hex(n as nat),
    decreases n,
{
    if n >= 16 {
        push_upper_hex(out, n / 16);
    }
    let d: u8 = (n % 16) as u8;
    let c = if d < 10 {
        (0x30 + d) as char
    } else {
        (0x37 + d) as char
    };
    out.push(c);
    proof {
        if n >= 16 {
            assert(old(out)@ + upper_hex((n / 16) as nat).push(c) =~= (old(out)@ + upper_hex(
                (n / 16) as nat,
            )).push(c));
        } else {
            assert(old(out)@ + seq![c] =~= old(out)@.push(c));
        }
    }
}

/// Two hexadecimal renderings of one width agree only on equal numbers.
pub proof fn lemma_hex_injective(a: nat, b: nat, width: nat)
    requires
        hex(a, width) == hex(b, width),
        a < vstd::arithmetic::power::pow(16, width),
        b < vstd::arithmetic::power::pow(16, width),
    ensures
        a == b,
    decreases width,
{
    reveal(vstd::arithmetic::power::pow);
    if width > 0 {
        let w = (width - 1) as nat;
        assert(hex(a, width).drop_last() =~= hex(a / 16, w));
        assert(hex(b, width).drop_last() =~= hex(b / 16, w));
        assert(hex(a, width).last() == hex(b, width).last());
        assert(hex(a, width).last() == hex_digit((a % 16) as int));
        assert(hex(b, width).last() == hex_digit((b % 16) as int));
        lemma_hex_injective(a / 16, b / 16, w);
    }
}

// ---------------------------------------------------------------------------
// Templates
// ---------------------------------------------------------------------------

/// What each placeholder of a template stands for.
pub struct Env {
    pairs: Vec<(char, String)>,
}

pub closed spec fn env_map(pairs: Seq<(char, String)>) -> Map<char, Seq<char>>
    decreases pairs.len(),
{
    if pairs.len() == 0 {
        Map::empty()
    } else {
        env_map(pairs.drop_last()).insert(pairs.last().0, pairs.last().1@)
    }
}

impl View for Env {
    type V = Map<char, Seq<char>>;

    closed spec fn view(&self) -> Map<char, Seq<char>> {
        env_map(self.pairs@)
    }
}

/// The text of placeholder `c`, empty where nothing is bound to it.
pub open spec fn lookup(env: Map<char, Seq<char>>, c: char) -> Seq<char> {
    if env.contains_key(c) {
        env[c]
    } else {
        Seq::empty()
    }
}

impl Env {
    /// No placeholder bound.
    pub fn new() -> (r: Env)
        ensures
            r@ == Map::<char, Seq<char>>::empty(),
    {
        Env { pairs: Vec::new() }
    }

    /// Binds placeholder `c` to `value`, over any earlier binding.
    pub fn bind(&mut self, c: char, value: &str)
        ensures
            final(self)@ == old(self)@.insert(c, value@),
    {
        let ghost before = self.pairs@;
        self.pairs.push((c, value.to_owned()));
        proof {
            assert(self.pairs@.drop_last() =~= before);
        }
    }

    /// The text bound to placeholder `c`.
    pub fn get(&self, c: char) -> (r: &str)
        ensures
            r@ == lookup(self@, c),
    {
        let mut i: usize = self.pairs.len();
        proof {
            assert(self.pairs@.take(i as int) =~= self.pairs@);
        }
        while i > 0
            invariant
                i <= self.pairs@.len(),
                lookup(self@, c) == lookup(env_map(self.pairs@.take(i as int)), c),
            decreases i,
        {
            proof {
                assert(self.pairs@.take(i as int).drop_last() =~= self.pairs@.take(i - 1));
            }
            if self.pairs[i - 1].0 == c {
                return self.pairs[i - 1].1.as_str();
            }
            i -= 1;
        }
        proof {
            reveal_strlit("");
            assert(""@ =~= Seq::<char>::empty());
        }
        ""
    }
}

/// `t` with each `$` and the character behind it replaced by what that
/// character stands for.
pub open spec fn fill(t: Seq<char>, env: Map<char, Seq<char>>) -> Seq<char> {
    fill_from(t, 0, env)
}

/// `fill` of the part of `t` from position `i` on.
pub open spec fn fill_from(t: Seq<char>, i: int, env: Map<char, Seq<char>>) -> Seq<char>
    decreases t.len() - i,
{
    if i < 0 || i >= t.len() {
        Seq::empty()
    } else if t[i] == '$' && i + 1 < t.len() {
        lookup(env, t[i + 1]) + fill_from(t, i + 2, env)
    } else {
        seq![t[i]] + fill_from(t, i + 1, env)
    }
}

proof fn lemma_fill_behind(a: Seq<char>, b: Seq<char>, j: int, env: Map<char, Seq<char>>)
    requires
        0 <= j,
    ensures
        fill_from(a + b, a.len() + j, env) == fill_from(b, j, env),
    decreases b.len() - j,
{
    if j < b.len() {
        assert((a + b)[a.len() + j] == b[j]);
        if b[j] == '$' && j + 1 < b.len() {
            assert((a + b)[a.len() + j + 1] == b[j + 1]);
            lemma_fill_behind(a, b, j + 2, env);
        } else {
            lemma_fill_behind(a, b, j + 1, env);
        }
    }
}

proof fn lemma_fill_through(a: Seq<char>, b: Seq<char>, i: int, env: Map<char, Seq<char>>)
    requires
        0 <= i <= a.len(),
        a.len() == 0 || a.last() != '$',
    ensures
        fill_from(a + b, i, env) == fill_from(a, i, env) + fill_from(b, 0, env),
    decreases a.len() - i,
{
    if i == a.len() {
        lemma_fill_behind(a, b, 0, env);
        assert(fill_from(a, i, env) + fill_from(b, 0, env) =~= fill_from(b, 0, env));
    } else {
        assert((a + b)[i] == a[i]);
        if a[i] == '$' {
            assert(i + 1 < a.len());
            assert((a + b)[i + 1] == a[i + 1]);
            lemma_fill_through(a, b, i + 2, env);
        } else {
            lemma_fill_through(a, b, i + 1, env);
        }
        assert(fill_from(a + b, i, env) =~= fill_from(a, i, env) + fill_from(b, 0, env));
    }
}

/// A template is filled piece by piece, as long as no piece ends within a
/// placeholder.
pub proof fn law_pieces_are_filled_one_by_one(a: Seq<char>, b: Seq<char>, env: Map<char, Seq<char>>)
    requires
        a.len() == 0 || a.last() != '$',
    ensures
        fill(a + b, env) == fill(a, env) + fill(b, env),
{
    lemma_fill_through(a, b, 0, env);
}

/// A placeholder alone is filled with what is bound to it.
pub proof fn law_a_placeholder_is_filled(c: char, env: Map<char, Seq<char>>)
    ensures
        env.contains_key(c) ==> fill(seq!['$', c], env) == env[c],
        !env.contains_key(c) ==> fill(seq!['$', c], env) == Seq::<char>::empty(),
{
    reveal_with_fuel(fill_from, 3);
    assert(lookup(env, c) + Seq::<char>::empty() =~= lookup(env, c));
}

/// A text that names no placeholder stays as it is.
pub proof fn law_other_text_stays(t: Seq<char>, env: Map<char, Seq<char>>)
    requires
        !t.contains('$'),
    ensures
        fill(t, env) == t,
{
    lemma_other_text(t, 0, env);
    assert(t.skip(0) =~= t);
}

proof fn lemma_other_text(t: Seq<char>, i: int, env: Map<char, Seq<char>>)
    requires
        0 <= i <= t.len(),
        !t.contains('$'),
    ensures
        fill_from(t, i, env) == t.skip(i),
    decreases t.len() - i,
{
    if i < t.len() {
        assert(t.contains(t[i]));
        lemma_other_text(t, i + 1, env);
        assert(t.skip(i) =~= seq![t[i]] + t.skip(i + 1));
    }
}

/// Appends `template` with its placeholders replaced.
pub fn push_fill(out: &mut String, template: &str, env: &Env)
    ensures
        final(out)@ == old(out)@ + fill(template@, env@),
{
    let t = chars_of(template);
    let mut i: usize = 0;
    while i < t.len()
        invariant
            i <= t.len(),
            t@ == template@,
            old(out)@ + fill(template@, env@) == out@ + fill_from(t@, i as int, env@),
        decreases t.len() - i,
    {
        let ghost before = out@;
        if t[i] == '$' && i + 1 < t.len() {
            let v = env.get(t[i + 1]);
            out.append(v);
            proof {
                assert(before + (v@ + fill_from(t@, i + 2, env@)) =~= (before + v@) + fill_from(
                    t@,
                    i + 2,
                    env@,
                ));
            }
            i += 2;
        } else {
            out.push(t[i]);
            proof {
                assert(before + (seq![t@[i as int]] + fill_from(t@, i + 1, env@)) =~= before.push(
                    t@[i as int],
                ) + fill_from(t@, i + 1, env@));
            }
            i += 1;
        }
    }
    proof {
        assert(out@ + Seq::<char>::empty() =~= out@);
    }
}

/// `template` with its placeholders replaced.
pub fn filled(template: &str, env: &Env) -> (r: String)
    ensures
        r@ == fill(template@, env@),
{
    let mut r = String::new();
    push_fill(&mut r, template, env);
    proof {
        assert(Seq::<char>::empty() + fill(template@, env@) =~= fill(template@, env@));
    }
    r
}

/// `prefix` followed by `n` in decimal.
pub fn numbered(prefix: &str, n: u64) -> (r: String)
    ensures
        r@ == prefix@ + dec(n as nat),
{
    let d = dec_of(n);
    cat2(prefix, d.as_str())
}

/// The number that a hexadecimal digit of either case stands for.
pub open spec fn nibble(c: char) -> int {
    if '0' <= c <= '9' {
        c as int - '0' as int
    } else if 'a' <= c <= 'f' {
        c as int - 'a' as int + 10
    } else {
        c as int - 'A' as int + 10
    }
}

/// The number that hexadecimal digits spell, most significant first.
pub open spec fn hex_value(s: Seq<char>) -> int
    decreases s.len(),
{
    if s.len() == 0 {
        0
    } else {
        hex_value(s.drop_last()) * 16 + nibble(s.last())
    }
}

/// A number reads back from its upper-case digits, which have no zero in front.
pub proof fn law_upper_hex_reads_back(n: nat)
    ensures
        hex_value(upper_hex(n)) == n,
        upper_hex(n).len() > 0,
        n > 0 ==> upper_hex(n)[0] != '0',
        forall|i: int|
            0 <= i < upper_hex(n).len() ==> !('a' <= #[trigger] upper_hex(n)[i] <= 'f'),
    decreases n,
{
    if n < 16 {
        assert(upper_hex(n).drop_last() =~= Seq::<char>::empty());
        assert(hex_value(Seq::<char>::empty()) == 0);
        assert(upper_hex(n).last() == upper_hex_digit(n as int));
    } else {
        law_upper_hex_reads_back(n / 16);
        assert(upper_hex(n).drop_last() =~= upper_hex(n / 16));
        assert(upper_hex(n).last() == upper_hex_digit((n % 16) as int));
        assert(upper_hex(n)[0] == upper_hex(n / 16)[0]);
        assert(n == (n / 16) * 16 + n % 16);
    }
}

/// A number that fits its width reads back from its lower-case digits, of which
/// there are as many as the width.
pub proof fn law_hex_reads_back(n: nat, width: nat)
    requires
        n < vstd::arithmetic::power::pow(16, width),
    ensures
        hex(n, width).len() == width,
        hex_value(hex(n, width)) == n,
        forall|i: int| 0 <= i < width ==> !('A' <= #[trigger] hex(n, width)[i] <= 'F'),
    decreases width,
{
    reveal(vstd::arithmetic::power::pow);
    if width > 0 {
        law_hex_reads_back(n / 16, (width - 1) as nat);
        assert(hex(n, width).drop_last() =~= hex(n / 16, (width - 1) as nat));
        assert(hex(n, width).last() == hex_digit((n % 16) as int));
        assert(n == (n / 16) * 16 + n % 16);
    }
}

/// The number that decimal digits spell, most significant first.
pub open spec fn dec_value(s: Seq<char>) -> int
    decreases s.len(),
{
    if s.len() == 0 {
        0
    } else {
        dec_value(s.drop_last()) * 10 + (s.last() as int - '0' as int)
    }
}

/// A number reads back from its decimal digits, which have no zero in front.
pub proof fn law_dec_reads_back(n: nat)
    ensures
        dec_value(dec(n)) == n,
        dec(n).len() > 0,
        n > 0 ==> dec(n)[0] != '0',
        forall|i: int| 0 <= i < dec(n).len() ==> '0' <= #[trigger] dec(n)[i] <= '9',
    decreases n,
{
    if n < 10 {
        assert(dec(n).drop_last() =~= Seq::<char>::empty());
        assert(dec_value(Seq::<char>::empty()) == 0);
        assert(dec(n).last() == dec_digit(n as int));
    } else {
        law_dec_reads_back(n / 10);
        assert(dec(n).drop_last() =~= dec(n / 10));
        assert(dec(n).last() == dec_digit((n % 10) as int));
        assert(dec(n)[0] == dec(n / 10)[0]);
        assert(n == (n / 10) * 10 + n % 10);
    }
}

} // verus!
