//! Content addresses over rendered token ids, for many prefixes of one render
//! in one pass.
//!
//! A name is a hash of the exact tokens that the kept state holds, so any
//! divergence of model, template, history or tools is a clean miss.

use vstd::prelude::*;
use vstd::string::*;
use vstd::utf8::encode_utf8;

use crate::canon::lemma_hex_len;
use crate::canon::{lemma_between, lemma_encoded_alike};
use crate::fnv::{fnv_hash, FNV_PRIME};
use crate::format::{hex, push_hex};

verus! {

/// Folded into every address: changed whenever the same messages could render
/// to other tokens.
pub const TEMPLATE_MARKER: &'static str = "opencode-session/qwen-chatml/v1";

/// The offset basis of the first lane.
pub const OFFSET_A: u64 = 0xcbf29ce484222325;

/// The offset basis of the second lane.
pub const OFFSET_B: u64 = 0x25232284e49cf2cb;

/// The bytes every address starts with. The separator stands in no UTF-8 text,
/// so no field can forge it.
pub open spec fn seed_bytes(model: Seq<char>, template: Seq<char>) -> Seq<u8> {
    encode_utf8(model) + seq![0xffu8] + encode_utf8(template) + seq![0xffu8]
}

/// A token id in little-endian bytes.
pub open spec fn token_bytes(t: u32) -> Seq<u8> {
    seq![
        (t % 256) as u8,
        ((t / 256) % 256) as u8,
        ((t / 65536) % 256) as u8,
        (t / 16777216) as u8,
    ]
}

/// The bytes of tokens.
pub open spec fn tokens_bytes(t: Seq<u32>) -> Seq<u8>
    decreases t.len(),
{
    if t.len() == 0 {
        Seq::empty()
    } else {
        tokens_bytes(t.drop_last()) + token_bytes(t.last())
    }
}

/// The 32 hexadecimal digits of both lanes over `bytes`.
pub open spec fn digest_text(bytes: Seq<u8>) -> Seq<char> {
    hex(fnv_hash(bytes, OFFSET_A) as nat, 16) + hex(fnv_hash(bytes, OFFSET_B) as nat, 16)
}

/// The address of `tokens` under a model and a template.
pub open spec fn token_address(model: Seq<char>, template: Seq<char>, tokens: Seq<u32>) -> Seq<
    char,
> {
    digest_text(seed_bytes(model, template) + tokens_bytes(tokens))
}

/// Two FNV-1a lanes over a token stream.
#[derive(Clone, Copy, Debug)]
pub struct TokenDigest {
    a: u64,
    b: u64,
}

impl TokenDigest {
    /// The digest has absorbed exactly these bytes.
    pub closed spec fn absorbed(self, bytes: Seq<u8>) -> bool {
        self.a == fnv_hash(bytes, OFFSET_A) && self.b == fnv_hash(bytes, OFFSET_B)
    }

    /// Seeds with the model and the template: two models never share an
    /// address, even for the same token ids.
    pub fn new(model_id: &str, template: &str) -> (r: TokenDigest)
        ensures
            r.absorbed(seed_bytes(model_id@, template@)),
    {
        let mut d = TokenDigest { a: OFFSET_A, b: OFFSET_B };
        let ghost empty = Seq::<u8>::empty();
        proof {
            assert(d.absorbed(empty));
        }
        d.write(model_id.as_bytes(), Ghost(empty));
        let sep: [u8; 1] = [0xff];
        let ghost s1 = empty + encode_utf8(model_id@);
        d.write(&sep, Ghost(s1));
        let ghost s2 = s1 + sep@;
        d.write(template.as_bytes(), Ghost(s2));
        let ghost s3 = s2 + encode_utf8(template@);
        d.write(&sep, Ghost(s3));
        proof {
            assert(s3 + sep@ =~= seed_bytes(model_id@, template@));
        }
        d
    }

    fn write(&mut self, bytes: &[u8], Ghost(before): Ghost<Seq<u8>>)
        requires
            old(self).absorbed(before),
        ensures
            final(self).absorbed(before + bytes@),
    {
        let mut i: usize = 0;
        proof {
            assert(before + bytes@.take(0) =~= before);
        }
        while i < bytes.len()
            invariant
                i <= bytes@.len(),
                self.absorbed(before + bytes@.take(i as int)),
            decreases bytes.len() - i,
        {
            proof {
                let next = before + bytes@.take(i + 1);
                assert(next.drop_last() =~= before + bytes@.take(i as int));
                assert(next.last() == bytes@[i as int]);
            }
            self.a = (self.a ^ (bytes[i] as u64)).wrapping_mul(FNV_PRIME);
            self.b = (self.b ^ (bytes[i] as u64)).wrapping_mul(FNV_PRIME);
            i += 1;
        }
        proof {
            assert(bytes@.take(i as int) =~= bytes@);
        }
    }

    /// Absorbs tokens: ids rather than text, since two id sequences can decode
    /// to one string.
    pub fn update(&mut self, tokens: &[u32])
        ensures
            forall|before: Seq<u8>| #[trigger]
                old(self).absorbed(before) ==> final(self).absorbed(before + tokens_bytes(tokens@)),
    {
        let ghost start = *self;
        let mut i: usize = 0;
        proof {
            assert(tokens@.take(0) =~= Seq::<u32>::empty());
            assert forall|before: Seq<u8>| #[trigger] start.absorbed(before) implies self.absorbed(
                before + tokens_bytes(tokens@.take(0)),
            ) by {
                assert(before + Seq::<u8>::empty() =~= before);
            }
        }
        while i < tokens.len()
            invariant
                i <= tokens@.len(),
                forall|before: Seq<u8>| #[trigger]
                    start.absorbed(before) ==> self.absorbed(
                        before + tokens_bytes(tokens@.take(i as int)),
                    ),
            decreases tokens.len() - i,
        {
            let t = tokens[i];
            let ghost mid = *self;
            self.absorb_token(t);
            proof {
                assert(tokens@.take(i + 1).drop_last() =~= tokens@.take(i as int));
                assert forall|before: Seq<u8>| #[trigger]
                    start.absorbed(before) implies self.absorbed(
                    before + tokens_bytes(tokens@.take(i + 1)),
                ) by {
                    let b = before + tokens_bytes(tokens@.take(i as int));
                    assert(mid.absorbed(b));
                    assert(b + token_bytes(t) =~= before + tokens_bytes(tokens@.take(i + 1)));
                }
            }
            i += 1;
        }
        proof {
            assert(tokens@.take(i as int) =~= tokens@);
        }
    }

    fn absorb_token(&mut self, t: u32)
        ensures
            forall|before: Seq<u8>| #[trigger]
                old(self).absorbed(before) ==> final(self).absorbed(before + token_bytes(t)),
    {
        let bytes: [u8; 4] = [
            (t % 256) as u8,
            ((t / 256) % 256) as u8,
            ((t / 65536) % 256) as u8,
            (t / 16777216) as u8,
        ];
        let ghost start = *self;
        proof {
            assert(bytes@ =~= token_bytes(t));
            assert(bytes@.take(0) =~= Seq::<u8>::empty());
            assert forall|before: Seq<u8>| #[trigger] start.absorbed(before) implies self.absorbed(
                before + bytes@.take(0),
            ) by {
                assert(before + bytes@.take(0) =~= before);
            }
        }
        let mut i: usize = 0;
        while i < 4
            invariant
                i <= 4,
                bytes@.len() == 4,
                forall|before: Seq<u8>| #[trigger]
                    start.absorbed(before) ==> self.absorbed(before + bytes@.take(i as int)),
            decreases 4 - i,
        {
            let ghost mid = *self;
            let byte = bytes[i];
            self.a = (self.a ^ (byte as u64)).wrapping_mul(FNV_PRIME);
            self.b = (self.b ^ (byte as u64)).wrapping_mul(FNV_PRIME);
            proof {
                assert forall|before: Seq<u8>| #[trigger]
                    start.absorbed(before) implies self.absorbed(before + bytes@.take(i + 1)) by {
                    let next = before + bytes@.take(i + 1);
                    assert(mid.absorbed(before + bytes@.take(i as int)));
                    assert(next.drop_last() =~= before + bytes@.take(i as int));
                    assert(next.last() == byte);
                }
            }
            i += 1;
        }
        proof {
            assert(bytes@.take(4) =~= bytes@);
        }
    }

    /// The address of everything absorbed so far.
    pub fn finish(&self) -> (r: String)
        ensures
            forall|bytes: Seq<u8>| #[trigger] self.absorbed(bytes) ==> r@ == digest_text(bytes),
            r@.len() == 32,
    {
        let mut r = String::new();
        push_hex(&mut r, self.a, 16);
        push_hex(&mut r, self.b, 16);
        proof {
            assert(r@ =~= hex(self.a as nat, 16) + hex(self.b as nat, 16));
            lemma_hex_len(self.a as nat, 16);
            lemma_hex_len(self.b as nat, 16);
        }
        r
    }
}

/// The boundaries among the first `n` that are addressed: each within the
/// tokens and not before the one addressed last.
pub open spec fn addressed(boundaries: Seq<u32>, n: int, len: nat) -> Seq<u32>
    decreases n,
{
    if n <= 0 {
        Seq::empty()
    } else {
        let done = addressed(boundaries, n - 1, len);
        let b = boundaries[n - 1];
        if b <= len && (done.len() == 0 || done.last() <= b) {
            done.push(b)
        } else {
            done
        }
    }
}

/// The address of every prefix that `boundaries` names, in one pass. A
/// boundary past the tokens is skipped rather than clamped, and so is one
/// before its predecessor.
pub fn prefix_addresses(model_id: &str, template: &str, tokens: &[u32], boundaries: &[u32]) -> (r:
    Vec<(u32, String)>)
    ensures
        ({
            let d = addressed(boundaries@, boundaries@.len() as int, tokens@.len());
            &&& r@.len() == d.len()
            &&& forall|i: int|
                0 <= i < r@.len() ==> (#[trigger] r@[i]).0 == d[i] && d[i] <= tokens@.len()
                    && r@[i].1@ == token_address(model_id@, template@, tokens@.take(d[i] as int))
        }),
{
    let ghost seed = seed_bytes(model_id@, template@);
    let mut out: Vec<(u32, String)> = Vec::new();
    let mut digest = TokenDigest::new(model_id, template);
    let mut pos: usize = 0;
    let mut k: usize = 0;
    proof {
        assert(tokens@.take(0) =~= Seq::<u32>::empty());
        assert(seed + Seq::<u8>::empty() =~= seed);
    }
    while k < boundaries.len()
        invariant
            k <= boundaries@.len(),
            pos <= tokens@.len(),
            seed == seed_bytes(model_id@, template@),
            digest.absorbed(seed + tokens_bytes(tokens@.take(pos as int))),
            ({
                let d = addressed(boundaries@, k as int, tokens@.len());
                &&& out@.len() == d.len()
                &&& pos == (if d.len() == 0 {
                    0
                } else {
                    d.last() as int
                })
                &&& forall|i: int|
                    0 <= i < out@.len() ==> (#[trigger] out@[i]).0 == d[i] && d[i] <= tokens@.len()
                        && out@[i].1@ == token_address(
                        model_id@,
                        template@,
                        tokens@.take(d[i] as int),
                    )
            }),
        decreases boundaries.len() - k,
    {
        let b = boundaries[k];
        let end = b as usize;
        let ghost d = addressed(boundaries@, k as int, tokens@.len());
        let ghost before = out@;
        if end <= tokens.len() && end >= pos {
            let part = vstd::slice::slice_subrange(tokens, pos, end);
            digest.update(part);
            proof {
                lemma_tokens_bytes_cat(tokens@.take(pos as int), part@);
                assert(tokens@.take(pos as int) + part@ =~= tokens@.take(end as int));
                assert(seed + tokens_bytes(tokens@.take(pos as int)) + tokens_bytes(part@)
                    =~= seed + tokens_bytes(tokens@.take(end as int)));
            }
            pos = end;
            out.push((b, digest.finish()));
            proof {
                let d2 = addressed(boundaries@, k + 1, tokens@.len());
                assert(d2 == d.push(b));
                assert forall|i: int| 0 <= i < out@.len() implies (#[trigger] out@[i]).0 == d2[i]
                    && d2[i] <= tokens@.len() && out@[i].1@ == token_address(
                    model_id@,
                    template@,
                    tokens@.take(d2[i] as int),
                ) by {
                    if i < d.len() {
                        assert(out@[i] == before[i]);
                        assert(d2[i] == d[i]);
                    }
                }
            }
        } else {
            proof {
                assert(addressed(boundaries@, k + 1, tokens@.len()) == d);
            }
        }
        k += 1;
    }
    out
}

proof fn lemma_tokens_bytes_cat(a: Seq<u32>, b: Seq<u32>)
    ensures
        tokens_bytes(a + b) == tokens_bytes(a) + tokens_bytes(b),
    decreases b.len(),
{
    if b.len() == 0 {
        assert(a + b =~= a);
        assert(tokens_bytes(a) + Seq::<u8>::empty() =~= tokens_bytes(a));
    } else {
        assert((a + b).drop_last() =~= a + b.drop_last());
        lemma_tokens_bytes_cat(a, b.drop_last());
        assert(tokens_bytes(a) + (tokens_bytes(b.drop_last()) + token_bytes(b.last())) =~= (
        tokens_bytes(a) + tokens_bytes(b.drop_last())) + token_bytes(b.last()));
    }
}

/// Absorbing tokens in two parts is absorbing them at once.
pub proof fn law_streaming_addresses_each_prefix_alone(
    model: Seq<char>,
    template: Seq<char>,
    a: Seq<u32>,
    b: Seq<u32>,
)
    ensures
        digest_text(seed_bytes(model, template) + tokens_bytes(a) + tokens_bytes(b))
            == token_address(model, template, a + b),
{
    lemma_tokens_bytes_cat(a, b);
    assert(seed_bytes(model, template) + tokens_bytes(a) + tokens_bytes(b) =~= seed_bytes(
        model,
        template,
    ) + tokens_bytes(a + b));
}

/// A token's bytes spell it, least significant first.
pub proof fn law_a_token_is_its_bytes(t: u32)
    ensures
        token_bytes(t).len() == 4,
        t == token_bytes(t)[0] + 256 * token_bytes(t)[1] + 65536 * token_bytes(t)[2] + 16777216
            * token_bytes(t)[3],
{
    let a = (t / 256) as int;
    let b = (t / 65536) as int;
    assert(t == 256 * a + t % 256);
    assert(a == 256 * (a / 256) + a % 256);
    assert(a / 256 == b);
    assert(b == 256 * (b / 256) + b % 256);
    assert(b / 256 == t / 16777216);
    assert(t / 16777216 < 256);
}

/// Two token sequences have the same bytes only where they are the same.
pub proof fn law_tokens_are_told_apart(a: Seq<u32>, b: Seq<u32>)
    requires
        tokens_bytes(a) == tokens_bytes(b),
    ensures
        a == b,
    decreases a.len(),
{
    lemma_tokens_len(a);
    lemma_tokens_len(b);
    if a.len() > 0 {
        let x = tokens_bytes(a);
        let n = x.len() - 4;
        law_a_token_is_its_bytes(a.last());
        law_a_token_is_its_bytes(b.last());
        assert(x.take(n) =~= tokens_bytes(a.drop_last()));
        assert(x.take(n) =~= tokens_bytes(b.drop_last()));
        assert(x.skip(n) =~= token_bytes(a.last()));
        assert(x.skip(n) =~= token_bytes(b.last()));
        law_tokens_are_told_apart(a.drop_last(), b.drop_last());
        assert(a =~= a.drop_last().push(a.last()));
        assert(b =~= b.drop_last().push(b.last()));
    } else {
        assert(a =~= b);
    }
}

proof fn lemma_tokens_len(t: Seq<u32>)
    ensures
        tokens_bytes(t).len() == 4 * t.len(),
    decreases t.len(),
{
    if t.len() > 0 {
        lemma_tokens_len(t.drop_last());
    }
}

/// The model and the template are both in what an address starts with: another
/// model or another template alone makes other bytes.
pub proof fn law_the_seed_covers_model_and_template(model: Seq<char>, template: Seq<char>, x: Seq<char>)
    ensures
        x != model ==> seed_bytes(x, template) != seed_bytes(model, template),
        x != template ==> seed_bytes(model, x) != seed_bytes(model, template),
{
    let e = seq![0xffu8];
    if x != model && seed_bytes(x, template) == seed_bytes(model, template) {
        let rest = e + encode_utf8(template) + e;
        assert(seed_bytes(x, template) =~= Seq::<u8>::empty() + encode_utf8(x) + rest);
        assert(seed_bytes(model, template) =~= Seq::<u8>::empty() + encode_utf8(model) + rest);
        lemma_between(Seq::empty(), encode_utf8(x), encode_utf8(model), rest);
        lemma_encoded_alike(x, model);
    }
    if x != template && seed_bytes(model, x) == seed_bytes(model, template) {
        let lead = encode_utf8(model) + e;
        assert(seed_bytes(model, x) =~= lead + encode_utf8(x) + e);
        assert(seed_bytes(model, template) =~= lead + encode_utf8(template) + e);
        lemma_between(lead, encode_utf8(x), encode_utf8(template), e);
        lemma_encoded_alike(x, template);
    }
}

/// What is addressed ascends and lies within the tokens, and of boundaries that
/// do both already every one is addressed.
pub proof fn law_addressed_boundaries_ascend(boundaries: Seq<u32>, n: int, len: nat)
    requires
        0 <= n <= boundaries.len(),
    ensures
        forall|i: int|
            0 <= i < addressed(boundaries, n, len).len() ==> #[trigger] addressed(
                boundaries,
                n,
                len,
            )[i] <= len && boundaries.contains(addressed(boundaries, n, len)[i]),
        forall|i: int, j: int|
            0 <= i <= j < addressed(boundaries, n, len).len() ==> #[trigger] addressed(
                boundaries,
                n,
                len,
            )[i] <= #[trigger] addressed(boundaries, n, len)[j],
        (forall|i: int| 0 <= i < n ==> #[trigger] boundaries[i] <= len) && (forall|i: int, j: int|
            0 <= i <= j < n ==> #[trigger] boundaries[i] <= #[trigger] boundaries[j]) ==> addressed(
            boundaries,
            n,
            len,
        ) == boundaries.take(n),
    decreases n,
{
    if n > 0 {
        law_addressed_boundaries_ascend(boundaries, n - 1, len);
        let done = addressed(boundaries, n - 1, len);
        let b = boundaries[n - 1];
        assert(boundaries.contains(b));
        if (forall|i: int| 0 <= i < n ==> #[trigger] boundaries[i] <= len) && (forall|i: int, j: int|
            0 <= i <= j < n ==> #[trigger] boundaries[i] <= #[trigger] boundaries[j]) {
            assert(done == boundaries.take(n - 1));
            if n > 1 {
                assert(done.last() == boundaries[n - 2]);
            }
            assert(boundaries.take(n) =~= boundaries.take(n - 1).push(b));
        }
    } else {
        assert(boundaries.take(0) =~= Seq::<u32>::empty());
    }
}

} // verus!
