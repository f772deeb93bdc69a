//! The structural tags of a trajectory: how each resolves against a
//! tokenizer's vocabulary, and how text with tags is encoded.

use vstd::prelude::*;
use vstd::string::*;
use vstd::utf8::encode_utf8;

use crate::npr::schedule::push_bytes;
use crate::text::{chars_of, find_from, lemma_find_from, occurs_at, search, slice_of, string_of};

verus! {

/// How many structural tags there are.
pub const TAG_COUNT: usize = 8;

/// The text of structural tag `k`.
pub open spec fn tag_text(k: int) -> Seq<char> {
    if k == 0 {
        "<guideline>"@
    } else if k == 1 {
        "</guideline>"@
    } else if k == 2 {
        "<plan>"@
    } else if k == 3 {
        "</plan>"@
    } else if k == 4 {
        "<step>"@
    } else if k == 5 {
        "</step>"@
    } else if k == 6 {
        "<takeaway>"@
    } else {
        "</takeaway>"@
    }
}

/// The text of structural tag `k`.
pub fn tag(k: usize) -> (r: &'static str)
    ensures
        r@ == tag_text(k as int),
{
    if k == 0 {
        "<guideline>"
    } else if k == 1 {
        "</guideline>"
    } else if k == 2 {
        "<plan>"
    } else if k == 3 {
        "</plan>"
    } else if k == 4 {
        "<step>"
    } else if k == 5 {
        "</step>"
    } else if k == 6 {
        "<takeaway>"
    } else {
        "</takeaway>"
    }
}

proof fn lemma_tags_have_text(k: int)
    ensures
        tag_text(k).len() > 0,
{
    reveal_strlit("<guideline>");
    reveal_strlit("</guideline>");
    reveal_strlit("<plan>");
    reveal_strlit("</plan>");
    reveal_strlit("<step>");
    reveal_strlit("</step>");
    reveal_strlit("<takeaway>");
    reveal_strlit("</takeaway>");
}

// ---------------------------------------------------------------------------
// The vocabulary
// ---------------------------------------------------------------------------

/// The contents of a list of byte strings.
pub open spec fn byte_texts(v: Seq<Vec<u8>>) -> Seq<Seq<u8>> {
    v.map_values(|b: Vec<u8>| b@)
}

/// How many pairs two parallel lists make.
pub open spec fn pairs(a: Seq<u32>, b: Seq<Seq<u8>>) -> int {
    if a.len() < b.len() {
        a.len() as int
    } else {
        b.len() as int
    }
}

/// The bytes that the last of the first `n` pairs with token `id` has.
pub open spec fn last_bytes(ids: Seq<u32>, seqs: Seq<Seq<u8>>, n: int, id: int) -> Option<Seq<u8>>
    decreases n,
{
    if n <= 0 {
        None
    } else if ids[n - 1] == id {
        Some(seqs[n - 1])
    } else {
        last_bytes(ids, seqs, n - 1, id)
    }
}

/// The token that the last of the first `n` pairs with these bytes has.
pub open spec fn last_id(ids: Seq<u32>, seqs: Seq<Seq<u8>>, n: int, bytes: Seq<u8>) -> Option<u32>
    decreases n,
{
    if n <= 0 {
        None
    } else if seqs[n - 1] == bytes {
        Some(ids[n - 1])
    } else {
        last_id(ids, seqs, n - 1, bytes)
    }
}

/// The bytes of a token: as a special token, else as an ordinary one, else
/// none.
pub open spec fn token_text(
    ids: Seq<u32>,
    seqs: Seq<Seq<u8>>,
    sids: Seq<u32>,
    sseqs: Seq<Seq<u8>>,
    id: int,
) -> Seq<u8> {
    match last_bytes(sids, sseqs, pairs(sids, sseqs), id) {
        Some(b) => b,
        None => match last_bytes(ids, seqs, pairs(ids, seqs), id) {
            Some(b) => b,
            None => Seq::empty(),
        },
    }
}

/// A tokenizer's vocabulary: the bytes of each token, ordinary and special,
/// and the token of each special byte string.
pub struct Vocab {
    table: Vec<Vec<u8>>,
    specials: Vec<(Vec<u8>, u32)>,
}

/// Every id is below `n`.
pub open spec fn ids_below(ids: Seq<u32>, n: int) -> bool {
    forall|i: int| 0 <= i < ids.len() ==> #[trigger] ids[i] < n
}

fn copy_bytes(b: &[u8]) -> (r: Vec<u8>)
    ensures
        r@ == b@,
{
    let mut r: Vec<u8> = Vec::new();
    push_bytes(&mut r, b);
    proof {
        assert(Seq::<u8>::empty() + b@ =~= b@);
    }
    r
}

fn max_id(ids: &[u32], start: u32) -> (r: u32)
    ensures
        r >= start,
        ids_below(ids@, r + 1),
        r == start || ids@.contains(r),
{
    let mut m: u32 = start;
    let mut i: usize = 0;
    while i < ids.len()
        invariant
            i <= ids.len(),
            m >= start,
            forall|j: int| 0 <= j < i ==> #[trigger] ids@[j] <= m,
            m == start || ids@.contains(m),
        decreases ids.len() - i,
    {
        if ids[i] > m {
            m = ids[i];
            proof {
                assert(ids@[i as int] == m);
            }
        }
        i += 1;
    }
    m
}

fn write_pairs(table: &mut Vec<Vec<u8>>, ids: &[u32], seqs: &[Vec<u8>])
    requires
        ids_below(ids@, old(table)@.len() as int),
    ensures
        final(table)@.len() == old(table)@.len(),
        forall|id: int|
            0 <= id < final(table)@.len() ==> (#[trigger] final(table)@[id])@ == (match last_bytes(
                ids@,
                byte_texts(seqs@),
                pairs(ids@, byte_texts(seqs@)),
                id,
            ) {
                Some(b) => b,
                None => old(table)@[id]@,
            }),
{
    let n: usize = if ids.len() < seqs.len() {
        ids.len()
    } else {
        seqs.len()
    };
    let ghost texts = byte_texts(seqs@);
    let mut k: usize = 0;
    while k < n
        invariant
            k <= n,
            n == pairs(ids@, texts),
            texts == byte_texts(seqs@),
            ids_below(ids@, old(table)@.len() as int),
            table@.len() == old(table)@.len(),
            forall|id: int|
                0 <= id < table@.len() ==> (#[trigger] table@[id])@ == (match last_bytes(
                    ids@,
                    texts,
                    k as int,
                    id,
                ) {
                    Some(b) => b,
                    None => old(table)@[id]@,
                }),
        decreases n - k,
    {
        let id = ids[k] as usize;
        let b = copy_bytes(seqs[k].as_slice());
        let ghost before = table@;
        table.set(id, b);
        proof {
            assert(texts[k as int] == seqs@[k as int]@);
            assert forall|i: int| 0 <= i < table@.len() implies (#[trigger] table@[i])@ == (
            match last_bytes(ids@, texts, k + 1, i) {
                Some(x) => x,
                None => old(table)@[i]@,
            }) by {
                if i != id {
                    assert(table@[i] == before[i]);
                }
            }
        }
        k += 1;
    }
}

impl Vocab {
    /// How many tokens the table covers.
    pub closed spec fn size(self) -> nat {
        self.table@.len()
    }

    /// The bytes of a token, none outside the table.
    pub closed spec fn bytes(self, id: int) -> Seq<u8> {
        if 0 <= id < self.table@.len() {
            self.table@[id]@
        } else {
            Seq::empty()
        }
    }

    /// The special token of a byte string.
    pub closed spec fn special(self, bytes: Seq<u8>) -> Option<u32> {
        last_id(
            Seq::new(self.specials@.len(), |i: int| self.specials@[i].1),
            Seq::new(self.specials@.len(), |i: int| self.specials@[i].0@),
            self.specials@.len() as int,
            bytes,
        )
    }

    /// The vocabulary of ordinary tokens `ids` with bytes `seqs` and special
    /// tokens `sids` with bytes `sseqs`; where two entries meet, a special one
    /// wins over an ordinary one and a later one over an earlier.
    pub fn new(ids: &[u32], seqs: &[Vec<u8>], sids: &[u32], sseqs: &[Vec<u8>]) -> (r: Vocab)
        requires
            ids_below(ids@, usize::MAX as int),
            ids_below(sids@, usize::MAX as int),
        ensures
            forall|id: int|
                #[trigger] r.bytes(id) == token_text(
                    ids@,
                    byte_texts(seqs@),
                    sids@,
                    byte_texts(sseqs@),
                    id,
                ),
            forall|b: Seq<u8>| #[trigger]
                r.special(b) == last_id(
                    sids@,
                    byte_texts(sseqs@),
                    pairs(sids@, byte_texts(sseqs@)),
                    b,
                ),
    {
        let top = max_id(sids, max_id(ids, 0));
        let size: usize = top as usize + 1;
        let mut table: Vec<Vec<u8>> = Vec::new();
        while table.len() < size
            invariant
                table@.len() <= size,
                forall|i: int| 0 <= i < table@.len() ==> (#[trigger] table@[i])@.len() == 0,
            decreases size - table.len(),
        {
            table.push(Vec::new());
        }
        let ghost empty_table = table@;
        write_pairs(&mut table, ids, seqs);
        let ghost ordinary = table@;
        write_pairs(&mut table, sids, sseqs);
        let mut specials: Vec<(Vec<u8>, u32)> = Vec::new();
        let n: usize = if sids.len() < sseqs.len() {
            sids.len()
        } else {
            sseqs.len()
        };
        let ghost st = byte_texts(sseqs@);
        let mut k: usize = 0;
        while k < n
            invariant
                k <= n,
                n == pairs(sids@, st),
                st == byte_texts(sseqs@),
                specials@.len() == k,
                forall|i: int|
                    0 <= i < k ==> (#[trigger] specials@[i]).1 == sids@[i] && specials@[i].0@
                        == st[i],
            decreases n - k,
        {
            specials.push((copy_bytes(sseqs[k].as_slice()), sids[k]));
            proof {
                assert(st[k as int] == sseqs@[k as int]@);
            }
            k += 1;
        }
        let r = Vocab { table, specials };
        proof {
            assert forall|id: int| #[trigger] r.bytes(id) == token_text(
                ids@,
                byte_texts(seqs@),
                sids@,
                st,
                id,
            ) by {
                if 0 <= id < r.table@.len() {
                    assert(ordinary[id]@ == (match last_bytes(
                        ids@,
                        byte_texts(seqs@),
                        pairs(ids@, byte_texts(seqs@)),
                        id,
                    ) {
                        Some(b) => b,
                        None => empty_table[id]@,
                    }));
                    assert(empty_table[id]@ =~= Seq::empty());
                } else {
                    lemma_outside(ids@, byte_texts(seqs@), pairs(ids@, byte_texts(seqs@)), id, size as int);
                    lemma_outside(sids@, st, pairs(sids@, st), id, size as int);
                }
            }
            assert forall|b: Seq<u8>| #[trigger] r.special(b) == last_id(
                sids@,
                st,
                pairs(sids@, st),
                b,
            ) by {
                lemma_last_id_agree(
                    Seq::new(r.specials@.len(), |i: int| r.specials@[i].1),
                    Seq::new(r.specials@.len(), |i: int| r.specials@[i].0@),
                    sids@,
                    st,
                    n as int,
                    b,
                );
            }
        }
        r
    }

    /// The bytes of a token; none for a token outside the vocabulary.
    pub fn bytes_of(&self, id: u32) -> (r: &[u8])
        ensures
            r@ == self.bytes(id as int),
    {
        if (id as usize) < self.table.len() {
            self.table[id as usize].as_slice()
        } else {
            &[]
        }
    }

    /// The special token of a tag, where it is one.
    pub fn special_id(&self, name: &str) -> (r: Option<u32>)
        ensures
            r == self.special(encode_utf8(name@)),
    {
        let want = name.as_bytes();
        let ghost ids = Seq::new(self.specials@.len(), |i: int| self.specials@[i].1);
        let ghost seqs = Seq::new(self.specials@.len(), |i: int| self.specials@[i].0@);
        let mut k: usize = self.specials.len();
        while k > 0
            invariant
                k <= self.specials@.len(),
                want@ == encode_utf8(name@),
                ids == Seq::new(self.specials@.len(), |i: int| self.specials@[i].1),
                seqs == Seq::new(self.specials@.len(), |i: int| self.specials@[i].0@),
                self.special(want@) == last_id(ids, seqs, k as int, want@),
            decreases k,
        {
            if same_bytes(self.specials[k - 1].0.as_slice(), want) {
                return Some(self.specials[k - 1].1);
            }
            k -= 1;
        }
        None
    }
}

fn same_bytes(a: &[u8], b: &[u8]) -> (r: bool)
    ensures
        r == (a@ == b@),
{
    if a.len() != b.len() {
        return false;
    }
    let mut i: usize = 0;
    while i < a.len()
        invariant
            i <= a.len(),
            a.len() == b.len(),
            forall|j: int| 0 <= j < i ==> a@[j] == b@[j],
        decreases a.len() - i,
    {
        if a[i] != b[i] {
            return false;
        }
        i += 1;
    }
    proof {
        assert(a@ =~= b@);
    }
    true
}

proof fn lemma_outside(ids: Seq<u32>, seqs: Seq<Seq<u8>>, n: int, id: int, size: int)
    requires
        n <= ids.len(),
        ids_below(ids, size),
        !(0 <= id < size),
    ensures
        last_bytes(ids, seqs, n, id) is None,
    decreases n,
{
    if n > 0 {
        assert(ids[n - 1] < size);
        lemma_outside(ids, seqs, n - 1, id, size);
    }
}

proof fn lemma_last_id_agree(
    a: Seq<u32>,
    x: Seq<Seq<u8>>,
    b: Seq<u32>,
    y: Seq<Seq<u8>>,
    n: int,
    bytes: Seq<u8>,
)
    requires
        n <= a.len(),
        forall|i: int| 0 <= i < n ==> #[trigger] a[i] == b[i],
        forall|i: int| 0 <= i < n ==> #[trigger] x[i] == y[i],
    ensures
        last_id(a, x, n, bytes) == last_id(b, y, n, bytes),
    decreases n,
{
    if n > 0 {
        assert(a[n - 1] == b[n - 1]);
        assert(x[n - 1] == y[n - 1]);
        lemma_last_id_agree(a, x, b, y, n - 1, bytes);
    }
}

// ---------------------------------------------------------------------------
// Encoding text with tags
// ---------------------------------------------------------------------------

/// One part of a text to encode: plain text for the tokenizer, or a token.
pub enum Piece {
    Encode(String),
    Token(u32),
}

/// The contents of a [`Piece`].
pub enum PieceView {
    Encode(Seq<char>),
    Token(u32),
}

impl View for Piece {
    type V = PieceView;

    open spec fn view(&self) -> PieceView {
        match *self {
            Piece::Encode(s) => PieceView::Encode(s@),
            Piece::Token(t) => PieceView::Token(t),
        }
    }
}

/// The contents of a list of pieces.
pub open spec fn pieces_view(v: Seq<Piece>) -> Seq<PieceView> {
    v.map_values(|p: Piece| p@)
}

/// The earliest of the first `k` tags in `s` from `from` on, and where it
/// stands.
pub open spec fn earliest(s: Seq<char>, from: int, k: int) -> Option<(int, int)>
    decreases k,
{
    if k <= 0 {
        None
    } else {
        let before = earliest(s, from, k - 1);
        match find_from(s, tag_text(k - 1), from) {
            None => before,
            Some(p) => match before {
                None => Some((p, k - 1)),
                Some(b) => if p < b.0 {
                    Some((p, k - 1))
                } else {
                    Some(b)
                },
            },
        }
    }
}

/// A tag as a piece: its special token, or its text where it has none.
pub open spec fn tag_piece(v: Vocab, k: int) -> PieceView {
    match v.special(encode_utf8(tag_text(k))) {
        Some(id) => PieceView::Token(id),
        None => PieceView::Encode(tag_text(k)),
    }
}

/// The pieces of `s` from `from` on: the text in front of the earliest tag,
/// the tag, and the pieces behind it.
pub open spec fn pieces_from(v: Vocab, s: Seq<char>, from: int) -> Seq<PieceView>
    decreases s.len() - from,
    via pieces_decreases
{
    if from < 0 || from >= s.len() {
        Seq::empty()
    } else {
        match earliest(s, from, 8) {
            None => seq![PieceView::Encode(s.skip(from))],
            Some(e) => (if e.0 > from {
                seq![PieceView::Encode(s.subrange(from, e.0))]
            } else {
                Seq::empty()
            }) + seq![tag_piece(v, e.1)] + pieces_from(v, s, e.0 + tag_text(e.1).len()),
        }
    }
}

#[via_fn]
proof fn pieces_decreases(v: Vocab, s: Seq<char>, from: int) {
    if 0 <= from < s.len() {
        lemma_earliest(s, from, 8);
        if let Some(e) = earliest(s, from, 8) {
            lemma_tags_have_text(e.1);
        }
    }
}

proof fn lemma_earliest(s: Seq<char>, from: int, k: int)
    requires
        0 <= from,
    ensures
        earliest(s, from, k) matches Some(e) ==> from <= e.0 && 0 <= e.1 < k && occurs_at(
            s,
            tag_text(e.1),
            e.0,
        ),
    decreases k,
{
    if k > 0 {
        lemma_earliest(s, from, k - 1);
        lemma_find_from(s, tag_text(k - 1), from);
    }
}

fn find_earliest(s: &[char], from: usize) -> (r: Option<(usize, usize)>)
    ensures
        match r {
            Some(e) => earliest(s@, from as int, 8) == Some((e.0 as int, e.1 as int)),
            None => earliest(s@, from as int, 8) is None,
        },
{
    let mut best: Option<(usize, usize)> = None;
    let mut k: usize = 0;
    while k < TAG_COUNT
        invariant
            k <= 8,
            match best {
                Some(e) => earliest(s@, from as int, k as int) == Some((e.0 as int, e.1 as int)),
                None => earliest(s@, from as int, k as int) is None,
            },
        decreases 8 - k,
    {
        let t = chars_of(tag(k));
        match search(s, t.as_slice(), from) {
            Some(p) => {
                match best {
                    None => {
                        best = Some((p, k));
                    },
                    Some(b) => {
                        if p < b.0 {
                            best = Some((p, k));
                        }
                    },
                }
            },
            None => {},
        }
        k += 1;
    }
    best
}

/// The parts a text with structural tags is encoded in. A tag that is a
/// registered special token is that token, since plain encoding cannot be
/// trusted to match it; any other tag is encoded like text.
pub fn encode_with_tags(vocab: &Vocab, text: &str) -> (r: Vec<Piece>)
    ensures
        pieces_view(r@) == pieces_from(*vocab, text@, 0),
{
    let s = chars_of(text);
    let mut out: Vec<Piece> = Vec::new();
    let mut at: usize = 0;
    proof {
        assert(pieces_view(out@) + pieces_from(*vocab, s@, 0) =~= pieces_from(*vocab, s@, 0));
    }
    while at < s.len()
        invariant
            s@ == text@,
            at <= s@.len(),
            pieces_from(*vocab, s@, 0) == pieces_view(out@) + pieces_from(*vocab, s@, at as int),
        decreases s.len() - at,
    {
        proof {
            lemma_earliest(s@, at as int, 8);
        }
        let ghost before = pieces_view(out@);
        match find_earliest(s.as_slice(), at) {
            None => {
                let rest = slice_of(s.as_slice(), at, s.len());
                let piece = string_of(rest.as_slice());
                proof {
                    assert(rest@ =~= s@.skip(at as int));
                }
                out.push(Piece::Encode(piece));
                proof {
                    assert(pieces_view(out@) =~= before + seq![PieceView::Encode(s@.skip(at as int))]);
                }
                return out;
            },
            Some((pos, k)) => {
                let name = tag(k);
                let size = chars_of(name).len();
                proof {
                    lemma_tags_have_text(k as int);
                }
                let ghost head = if pos > at {
                    seq![PieceView::Encode(s@.subrange(at as int, pos as int))]
                } else {
                    Seq::empty()
                };
                if pos > at {
                    let front = slice_of(s.as_slice(), at, pos);
                    out.push(Piece::Encode(string_of(front.as_slice())));
                }
                proof {
                    assert(pieces_view(out@) =~= before + head);
                }
                let ghost mid = pieces_view(out@);
                match vocab.special_id(name) {
                    Some(id) => out.push(Piece::Token(id)),
                    None => out.push(Piece::Encode(name.to_owned())),
                }
                proof {
                    assert(pieces_view(out@) =~= mid + seq![tag_piece(*vocab, k as int)]);
                    let rest = pieces_from(*vocab, s@, pos + size);
                    assert(before + (head + seq![tag_piece(*vocab, k as int)] + rest)
                        =~= pieces_view(out@) + rest);
                }
                at = pos + size;
            },
        }
    }
    proof {
        assert(pieces_view(out@) + Seq::<PieceView>::empty() =~= pieces_view(out@));
    }
    out
}

/// A piece stands for text `t`: it is `t` itself, or `t`'s special token.
pub open spec fn spells(v: Vocab, p: PieceView, t: Seq<char>) -> bool {
    match p {
        PieceView::Encode(s) => s == t,
        PieceView::Token(id) => v.special(encode_utf8(t)) == Some(id),
    }
}

/// The texts that the pieces from `from` on stand for.
pub open spec fn parts_from(s: Seq<char>, from: int) -> Seq<Seq<char>>
    decreases s.len() - from,
    via parts_decreases
{
    if from < 0 || from >= s.len() {
        Seq::empty()
    } else {
        match earliest(s, from, 8) {
            None => seq![s.skip(from)],
            Some(e) => (if e.0 > from {
                seq![s.subrange(from, e.0)]
            } else {
                Seq::empty()
            }) + seq![tag_text(e.1)] + parts_from(s, e.0 + tag_text(e.1).len()),
        }
    }
}

#[via_fn]
proof fn parts_decreases(s: Seq<char>, from: int) {
    if 0 <= from < s.len() {
        lemma_earliest(s, from, 8);
        if let Some(e) = earliest(s, from, 8) {
            lemma_tags_have_text(e.1);
        }
    }
}

/// The parts one after the other.
pub open spec fn glue(parts: Seq<Seq<char>>) -> Seq<char>
    decreases parts.len(),
{
    if parts.len() == 0 {
        Seq::empty()
    } else {
        parts[0] + glue(parts.skip(1))
    }
}

/// Encoding loses nothing: the pieces stand, one for one, for parts whose
/// concatenation is the text.
pub proof fn law_pieces_spell_the_text(v: Vocab, s: Seq<char>, from: int)
    requires
        0 <= from <= s.len(),
    ensures
        glue(parts_from(s, from)) == s.skip(from),
        pieces_from(v, s, from).len() == parts_from(s, from).len(),
        forall|i: int|
            0 <= i < parts_from(s, from).len() ==> spells(
                v,
                #[trigger] pieces_from(v, s, from)[i],
                parts_from(s, from)[i],
            ),
    decreases s.len() - from,
{
    reveal_with_fuel(glue, 4);
    if from >= s.len() {
        assert(s.skip(from) =~= Seq::empty());
    } else {
        lemma_earliest(s, from, 8);
        match earliest(s, from, 8) {
            None => {
                assert(seq![s.skip(from)].skip(1) =~= Seq::empty());
                assert(s.skip(from) + Seq::<char>::empty() =~= s.skip(from));
            },
            Some(e) => {
                lemma_tags_have_text(e.1);
                let next = e.0 + tag_text(e.1).len();
                law_pieces_spell_the_text(v, s, next);
                let rest = parts_from(s, next);
                let tail = seq![tag_text(e.1)] + rest;
                assert(tail.skip(1) =~= rest);
                assert(tag_text(e.1) + s.skip(next) =~= s.skip(e.0));
                assert(glue(tail) == s.skip(e.0));
                if e.0 > from {
                    let head = seq![s.subrange(from, e.0)];
                    assert(parts_from(s, from) =~= head + tail);
                    assert((head + tail).skip(1) =~= tail);
                    assert(s.subrange(from, e.0) + s.skip(e.0) =~= s.skip(from));
                } else {
                    assert(parts_from(s, from) =~= tail);
                }
                let p = pieces_from(v, s, from);
                let q = pieces_from(v, s, next);
                let h: int = if e.0 > from {
                    1
                } else {
                    0
                };
                assert forall|i: int| 0 <= i < parts_from(s, from).len() implies spells(
                    v,
                    #[trigger] p[i],
                    parts_from(s, from)[i],
                ) by {
                    if i > h {
                        assert(p[i] == q[i - h - 1]);
                        assert(parts_from(s, from)[i] == rest[i - h - 1]);
                    }
                }
            },
        }
    }
}

/// The tags are told apart, and each opening tag has its closing one behind it in
/// the list.
pub proof fn law_tags_are_told_apart(j: int, k: int)
    requires
        0 <= j < 8,
        0 <= k < 8,
    ensures
        tag_text(j) == tag_text(k) <==> j == k,
        k % 2 == 1 ==> tag_text(k) == seq!['<', '/'] + tag_text(k - 1).skip(1),
        k % 2 == 0 ==> tag_text(k)[0] == '<' && tag_text(k)[1] != '/',
{
    reveal_strlit("<guideline>");
    reveal_strlit("</guideline>");
    reveal_strlit("<plan>");
    reveal_strlit("</plan>");
    reveal_strlit("<step>");
    reveal_strlit("</step>");
    reveal_strlit("<takeaway>");
    reveal_strlit("</takeaway>");
    assert(tag_text(1) =~= seq!['<', '/'] + tag_text(0).skip(1));
    assert(tag_text(3) =~= seq!['<', '/'] + tag_text(2).skip(1));
    assert(tag_text(5) =~= seq!['<', '/'] + tag_text(4).skip(1));
    assert(tag_text(7) =~= seq!['<', '/'] + tag_text(6).skip(1));
    assert(tag_text(0)[1] == 'g' && tag_text(2)[1] == 'p' && tag_text(4)[1] == 's' && tag_text(6)[1]
        == 't');
    assert(tag_text(1)[1] == '/' && tag_text(3)[1] == '/' && tag_text(5)[1] == '/' && tag_text(7)[1]
        == '/');
    assert(tag_text(1)[2] == 'g' && tag_text(3)[2] == 'p' && tag_text(5)[2] == 's' && tag_text(7)[2]
        == 't');
}

proof fn lemma_last_bytes(ids: Seq<u32>, seqs: Seq<Seq<u8>>, n: int, id: int)
    requires
        0 <= n <= ids.len(),
        n <= seqs.len(),
    ensures
        match last_bytes(ids, seqs, n, id) {
            Some(b) => exists|i: int|
                0 <= i < n && #[trigger] ids[i] == id && seqs[i] == b && forall|j: int|
                    i < j < n ==> #[trigger] ids[j] != id,
            None => forall|i: int| 0 <= i < n ==> #[trigger] ids[i] != id,
        },
    decreases n,
{
    if n > 0 && ids[n - 1] != id {
        lemma_last_bytes(ids, seqs, n - 1, id);
    }
}

/// The bytes of a token are those of the last pair that has it, a special pair
/// before any ordinary one; a token without a pair has none.
pub proof fn law_a_token_has_its_last_bytes(
    ids: Seq<u32>,
    seqs: Seq<Seq<u8>>,
    sids: Seq<u32>,
    sseqs: Seq<Seq<u8>>,
    id: int,
    i: int,
)
    requires
        ids.len() == seqs.len(),
        sids.len() == sseqs.len(),
    ensures
        0 <= i < sids.len() && sids[i] == id && (forall|j: int|
            i < j < sids.len() ==> #[trigger] sids[j] != id) ==> token_text(ids, seqs, sids, sseqs, id)
            == sseqs[i],
        (forall|j: int| 0 <= j < sids.len() ==> #[trigger] sids[j] != id) && 0 <= i < ids.len() && ids[i]
            == id && (forall|j: int| i < j < ids.len() ==> #[trigger] ids[j] != id) ==> token_text(
            ids,
            seqs,
            sids,
            sseqs,
            id,
        ) == seqs[i],
        (forall|j: int| 0 <= j < sids.len() ==> #[trigger] sids[j] != id) && (forall|j: int|
            0 <= j < ids.len() ==> #[trigger] ids[j] != id) ==> token_text(
            ids,
            seqs,
            sids,
            sseqs,
            id,
        ).len() == 0,
{
    lemma_last_bytes(ids, seqs, ids.len() as int, id);
    lemma_last_bytes(sids, sseqs, sids.len() as int, id);
}

/// The token of bytes is that of the last pair that has them.
pub proof fn law_bytes_have_their_last_token(ids: Seq<u32>, seqs: Seq<Seq<u8>>, n: int, bytes: Seq<u8>)
    requires
        0 <= n <= ids.len(),
        n <= seqs.len(),
    ensures
        match last_id(ids, seqs, n, bytes) {
            Some(t) => exists|i: int|
                0 <= i < n && #[trigger] seqs[i] == bytes && ids[i] == t && forall|j: int|
                    i < j < n ==> #[trigger] seqs[j] != bytes,
            None => forall|i: int| 0 <= i < n ==> #[trigger] seqs[i] != bytes,
        },
    decreases n,
{
    if n > 0 && seqs[n - 1] != bytes {
        law_bytes_have_their_last_token(ids, seqs, n - 1, bytes);
    }
}

/// A tag is its special token where it has one, and its own text otherwise.
pub proof fn law_a_tag_is_one_token_where_it_can_be(v: Vocab, k: int, id: u32)
    ensures
        v.special(encode_utf8(tag_text(k))) == Some(id) <==> tag_piece(v, k) == PieceView::Token(id),
        v.special(encode_utf8(tag_text(k))) is None <==> tag_piece(v, k) == PieceView::Encode(
            tag_text(k),
        ),
{
}

} // verus!
