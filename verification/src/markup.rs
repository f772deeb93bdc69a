//! Streaming suppression of reasoning and tool-call markup.
//!
//! A raw decode stream holds `<think>...</think>` and
//! `<tool_call>...</tool_call>` blocks that are no content. A marker may
//! straddle chunks, so a tail that could still become one is held back until
//! it is decided.

use vstd::prelude::*;
use vstd::string::*;

use crate::text::{
    chars_of, find_from, lemma_find_from, occurs_at, search, slice_of, starts_at, string_of, tail,
    trim_start, trimmed_start, white,
};

verus! {

/// Where the stream stands: in content, or inside a block.
#[derive(Clone, Copy, Debug, PartialEq, Eq, Structural)]
pub enum Mode {
    Text,
    Think,
    Tool,
}

/// The markers: two openers, then their closers.
pub open spec fn marker(k: int) -> Seq<char> {
    if k == 0 {
        "<think>"@
    } else if k == 1 {
        "<tool_call>"@
    } else if k == 2 {
        "</think>"@
    } else {
        "</tool_call>"@
    }
}

/// Marker `k` matters in `mode`: in content the first `n`, in a block its
/// closer.
pub open spec fn watched(mode: Mode, k: int, n: int) -> bool {
    match mode {
        Mode::Text => 0 <= k < n,
        Mode::Think => k == 2,
        Mode::Tool => k == 3,
    }
}

/// The mode behind marker `k`. A closer in content is dropped and content goes
/// on.
pub open spec fn behind(mode: Mode, k: int) -> Mode {
    if mode == Mode::Text && k == 0 {
        Mode::Think
    } else if mode == Mode::Text && k == 1 {
        Mode::Tool
    } else {
        Mode::Text
    }
}

/// The first of the watched markers among the first `j`, and where it stands.
pub open spec fn first_of(mode: Mode, s: Seq<char>, n: int, j: int) -> Option<(int, int)>
    decreases j,
{
    if j <= 0 {
        None
    } else {
        let before = first_of(mode, s, n, j - 1);
        if watched(mode, j - 1, n) {
            match find_from(s, marker(j - 1), 0) {
                None => before,
                Some(p) => match before {
                    None => Some((p, j - 1)),
                    Some(b) => if p < b.0 {
                        Some((p, j - 1))
                    } else {
                        Some(b)
                    },
                },
            }
        } else {
            before
        }
    }
}

/// The first watched marker of `s`.
pub open spec fn first_marker(mode: Mode, s: Seq<char>, n: int) -> Option<(int, int)> {
    first_of(mode, s, n, 4)
}

/// The last `t` characters of `s` are the start, not the whole, of a watched
/// marker.
pub open spec fn could_grow(mode: Mode, s: Seq<char>, n: int, t: int) -> bool {
    &&& 0 < t <= s.len()
    &&& exists|k: int|
        0 <= k < 4 && #[trigger] watched(mode, k, n) && t < marker(k).len() && s.skip(s.len() - t)
            == marker(k).take(t)
}

/// The greatest length up to `t` of a tail that could grow into a marker.
pub open spec fn held_upto(mode: Mode, s: Seq<char>, n: int, t: int) -> int
    decreases t,
{
    if t <= 0 {
        0
    } else if could_grow(mode, s, n, t) {
        t
    } else {
        held_upto(mode, s, n, t - 1)
    }
}

/// The length of the longest tail that could grow into a watched marker.
pub open spec fn held(mode: Mode, s: Seq<char>, n: int) -> int {
    held_upto(mode, s, n, s.len() as int)
}

/// What scanning leaves: the mode, the held-back tail and the content found.
#[verifier::ext_equal]
pub struct Scan {
    pub mode: Mode,
    pub pending: Seq<char>,
    pub out: Seq<char>,
}

/// The part of `s` before `i` that is content.
pub open spec fn content(mode: Mode, s: Seq<char>, i: int) -> Seq<char> {
    if mode == Mode::Text {
        s.take(i)
    } else {
        Seq::empty()
    }
}

/// Scanning `p` from `mode`, with the first `n` markers watched in content:
/// what stands before the first watched marker is content or block, and the
/// scan goes on behind the marker; without one, all but the held-back tail is
/// settled.
pub open spec fn scan(mode: Mode, p: Seq<char>, n: int) -> Scan
    decreases p.len(),
    via scan_decreases
{
    match first_marker(mode, p, n) {
        Some(h) => {
            let rest = scan(behind(mode, h.1), p.skip(h.0 + marker(h.1).len()), n);
            Scan { mode: rest.mode, pending: rest.pending, out: content(mode, p, h.0) + rest.out }
        },
        None => {
            let cut = p.len() - held(mode, p, n);
            Scan { mode, pending: p.skip(cut), out: content(mode, p, cut) }
        },
    }
}

#[via_fn]
proof fn scan_decreases(mode: Mode, p: Seq<char>, n: int) {
    lemma_first_of(mode, p, n, 4);
    if let Some(h) = first_marker(mode, p, n) {
        lemma_markers(h.1);
    }
}

// ---------------------------------------------------------------------------
// Facts about the markers
// ---------------------------------------------------------------------------

proof fn lemma_markers(k: int)
    ensures
        7 <= marker(k).len() <= 12,
        marker(k)[0] == '<',
        forall|i: int| 1 <= i < marker(k).len() ==> marker(k)[i] != '<',
{
    reveal_strlit("<think>");
    reveal_strlit("<tool_call>");
    reveal_strlit("</think>");
    reveal_strlit("</tool_call>");
}

/// Two markers differ within the length of both.
proof fn lemma_markers_differ(a: int, b: int)
    requires
        0 <= a < 4,
        0 <= b < 4,
        a != b,
    ensures
        exists|i: int| 0 <= i < 7 && #[trigger] marker(a)[i] != marker(b)[i],
{
    reveal_strlit("<think>");
    reveal_strlit("<tool_call>");
    reveal_strlit("</think>");
    reveal_strlit("</tool_call>");
    if (a < 2) != (b < 2) {
        assert(marker(a)[1] != marker(b)[1]);
    } else if a < 2 {
        assert(marker(a)[2] != marker(b)[2]);
    } else {
        assert(marker(a)[3] != marker(b)[3]);
    }
}

proof fn lemma_first_of(mode: Mode, s: Seq<char>, n: int, j: int)
    requires
        0 <= j <= 4,
    ensures
        match first_of(mode, s, n, j) {
            Some(h) => {
                &&& 0 <= h.1 < j
                &&& watched(mode, h.1, n)
                &&& occurs_at(s, marker(h.1), h.0)
                &&& forall|k: int, i: int|
                    0 <= k < j && watched(mode, k, n) && i < h.0 ==> !occurs_at(s, marker(k), i)
            },
            None => forall|k: int, i: int|
                0 <= k < j && watched(mode, k, n) ==> !occurs_at(s, marker(k), i),
        },
    decreases j,
{
    if j > 0 {
        lemma_first_of(mode, s, n, j - 1);
        lemma_find_from(s, marker(j - 1), 0);
    }
}

/// At most one marker stands at a position.
proof fn lemma_one_marker(s: Seq<char>, a: int, b: int, i: int)
    requires
        0 <= a < 4,
        0 <= b < 4,
        occurs_at(s, marker(a), i),
        occurs_at(s, marker(b), i),
    ensures
        a == b,
{
    if a != b {
        lemma_markers(a);
        lemma_markers(b);
        lemma_markers_differ(a, b);
        let x = choose|x: int| 0 <= x < 7 && #[trigger] marker(a)[x] != marker(b)[x];
        assert(s.subrange(i, i + marker(a).len())[x] == s[i + x]);
        assert(s.subrange(i, i + marker(b).len())[x] == s[i + x]);
    }
}

/// The first marker is what stands at the least position where a watched one
/// stands.
proof fn lemma_first_is(mode: Mode, s: Seq<char>, n: int, i: int, k: int)
    requires
        0 <= k < 4,
        watched(mode, k, n),
        occurs_at(s, marker(k), i),
        forall|k2: int, j: int|
            0 <= k2 < 4 && watched(mode, k2, n) && j < i ==> !occurs_at(s, marker(k2), j),
    ensures
        first_marker(mode, s, n) == Some((i, k)),
{
    lemma_first_of(mode, s, n, 4);
    match first_marker(mode, s, n) {
        Some(h) => {
            assert(!(h.0 < i));
            assert(!(i < h.0));
            lemma_one_marker(s, h.1, k, i);
        },
        None => {
            assert(!occurs_at(s, marker(k), i));
        },
    }
}

proof fn lemma_occurs_left(p: Seq<char>, b: Seq<char>, m: Seq<char>, i: int)
    ensures
        occurs_at(p, m, i) ==> occurs_at(p + b, m, i),
        occurs_at(p + b, m, i) && i + m.len() <= p.len() ==> occurs_at(p, m, i),
{
    if 0 <= i && i + m.len() <= p.len() {
        assert((p + b).subrange(i, i + m.len()) =~= p.subrange(i, i + m.len()));
    }
}

proof fn lemma_occurs_right(q: Seq<char>, r: Seq<char>, m: Seq<char>, i: int)
    requires
        0 <= i,
    ensures
        occurs_at(r, m, i) <==> occurs_at(q + r, m, q.len() + i),
{
    if i + m.len() <= r.len() {
        assert((q + r).subrange(q.len() + i, q.len() + i + m.len()) =~= r.subrange(i, i + m.len()));
    }
}

/// The first marker of a text stays the first when more text follows.
proof fn lemma_hit_stays(mode: Mode, p: Seq<char>, b: Seq<char>, n: int, i: int, k: int)
    requires
        first_marker(mode, p, n) == Some((i, k)),
    ensures
        first_marker(mode, p + b, n) == Some((i, k)),
{
    lemma_first_of(mode, p, n, 4);
    lemma_occurs_left(p, b, marker(k), i);
    assert forall|k2: int, j: int| 0 <= k2 < 4 && watched(mode, k2, n) && j < i implies !occurs_at(
        p + b,
        marker(k2),
        j,
    ) by {
        if occurs_at(p + b, marker(k2), j) {
            lemma_occurs_left(p, b, marker(k2), j);
            lemma_markers(k2);
            lemma_markers(k);
            if j + marker(k2).len() > p.len() {
                // The marker at `i` would stand inside the one at `j`.
                assert(p.subrange(i, i + marker(k).len())[0] == p[i]);
                assert((p + b).subrange(j, j + marker(k2).len())[i - j] == (p + b)[i]);
                assert((p + b)[i] == p[i]);
            }
        }
    }
    lemma_first_is(mode, p + b, n, i, k);
}

proof fn lemma_held(mode: Mode, s: Seq<char>, n: int, t: int)
    requires
        0 <= t,
    ensures
        0 <= held_upto(mode, s, n, t) <= t,
        held_upto(mode, s, n, t) > 0 ==> could_grow(mode, s, n, held_upto(mode, s, n, t)),
        forall|u: int| held_upto(mode, s, n, t) < u <= t ==> !could_grow(mode, s, n, u),
    decreases t,
{
    if t > 0 && !could_grow(mode, s, n, t) {
        lemma_held(mode, s, n, t - 1);
    }
}

/// `held` is the greatest length that could grow.
proof fn lemma_held_is(mode: Mode, s: Seq<char>, n: int, u: int)
    requires
        0 <= u <= s.len(),
        u > 0 ==> could_grow(mode, s, n, u),
        forall|v: int| v > u ==> !could_grow(mode, s, n, v),
    ensures
        held(mode, s, n) == u,
{
    lemma_held(mode, s, n, s.len() as int);
}

/// Where `p` holds no marker, a marker of `p + b` starts in what `p` holds
/// back.
proof fn lemma_no_early_marker(mode: Mode, p: Seq<char>, b: Seq<char>, n: int, k: int, j: int)
    requires
        first_marker(mode, p, n) is None,
        0 <= k < 4,
        watched(mode, k, n),
        j < p.len() - held(mode, p, n),
    ensures
        !occurs_at(p + b, marker(k), j),
{
    lemma_first_of(mode, p, n, 4);
    lemma_held(mode, p, n, p.len() as int);
    if occurs_at(p + b, marker(k), j) {
        lemma_occurs_left(p, b, marker(k), j);
        let t = p.len() - j;
        assert(p.skip(p.len() - t) =~= marker(k).take(t)) by {
            assert forall|x: int| 0 <= x < t implies p.skip(j)[x] == marker(k).take(t)[x] by {
                assert((p + b).subrange(j, j + marker(k).len())[x] == (p + b)[j + x]);
            }
        }
        assert(could_grow(mode, p, n, t));
    }
}

/// A tail of `q + r` that could grow is a tail of `r`, where `q` is what was
/// settled of `p` and `r` starts with what `p` held back.
proof fn lemma_growth_is_right(mode: Mode, p: Seq<char>, b: Seq<char>, n: int, t: int)
    requires
        first_marker(mode, p, n) is None,
        could_grow(mode, p + b, n, t),
    ensures
        t <= held(mode, p, n) + b.len(),
{
    lemma_held(mode, p, n, p.len() as int);
    let s = p + b;
    let k = choose|k: int|
        0 <= k < 4 && #[trigger] watched(mode, k, n) && t < marker(k).len() && s.skip(s.len() - t)
            == marker(k).take(t);
    if t > held(mode, p, n) + b.len() {
        let u = t - b.len();
        assert(p.skip(p.len() - u) =~= marker(k).take(u)) by {
            assert forall|x: int| 0 <= x < u implies p.skip(p.len() - u)[x] == marker(k).take(u)[x] by {
                assert(s.skip(s.len() - t)[x] == marker(k).take(t)[x]);
            }
        }
        assert(could_grow(mode, p, n, u));
    }
}

proof fn lemma_growth_shift(mode: Mode, q: Seq<char>, r: Seq<char>, n: int, t: int)
    requires
        t <= r.len(),
    ensures
        could_grow(mode, q + r, n, t) <==> could_grow(mode, r, n, t),
{
    if 0 < t {
        assert((q + r).skip((q + r).len() - t) =~= r.skip(r.len() - t));
    }
}

/// What scanning in chunks gives is what scanning in one gives.
spec fn chunks_agree(mode: Mode, p: Seq<char>, b: Seq<char>, n: int) -> bool {
    let first = scan(mode, p, n);
    let second = scan(first.mode, first.pending + b, n);
    let whole = scan(mode, p + b, n);
    &&& whole.mode == second.mode
    &&& whole.pending == second.pending
    &&& whole.out == first.out + second.out
}

/// Where the second chunk completes a marker: behind what the first chunk had
/// settled.
proof fn lemma_marker_behind(mode: Mode, p: Seq<char>, b: Seq<char>, n: int, cut: int, h: (int, int))
    requires
        first_marker(mode, p, n) is None,
        cut == p.len() - held(mode, p, n),
        first_marker(mode, p.skip(cut) + b, n) == Some(h),
    ensures
        0 <= cut <= p.len(),
        0 <= h.0,
        h.0 + marker(h.1).len() <= (p.skip(cut) + b).len(),
        p + b == p.take(cut) + (p.skip(cut) + b),
        first_marker(mode, p + b, n) == Some((cut + h.0, h.1)),
{
    lemma_held(mode, p, n, p.len() as int);
    let q = p.take(cut);
    let r = p.skip(cut) + b;
    assert(p + b =~= q + r);
    lemma_first_of(mode, r, n, 4);
    lemma_markers(h.1);
    lemma_occurs_right(q, r, marker(h.1), h.0);
    assert forall|k: int, j: int|
        0 <= k < 4 && watched(mode, k, n) && j < q.len() + h.0 implies !occurs_at(
        q + r,
        marker(k),
        j,
    ) by {
        if j < cut {
            lemma_no_early_marker(mode, p, b, n, k, j);
        } else {
            lemma_occurs_right(q, r, marker(k), j - q.len());
        }
    }
    lemma_first_is(mode, q + r, n, q.len() + h.0, h.1);
}

/// No marker in the first chunk, one in what it leaves followed by the second.
proof fn lemma_chunks_meet(mode: Mode, p: Seq<char>, b: Seq<char>, n: int)
    requires
        first_marker(mode, p, n) is None,
        first_marker(mode, p.skip(p.len() - held(mode, p, n)) + b, n) is Some,
    ensures
        chunks_agree(mode, p, b, n),
{
    let cut = p.len() - held(mode, p, n);
    let r = p.skip(cut) + b;
    let h = first_marker(mode, r, n)->0;
    lemma_marker_behind(mode, p, b, n, cut, h);
    let size = marker(h.1).len();
    let rest = scan(behind(mode, h.1), r.skip(h.0 + size), n);
    assert((p + b).skip(cut + h.0 + size) =~= r.skip(h.0 + size));
    assert(content(mode, p + b, cut + h.0) =~= content(mode, p, cut) + content(mode, r, h.0));
    assert(content(mode, p, cut) + (content(mode, r, h.0) + rest.out) =~= (content(mode, p, cut)
        + content(mode, r, h.0)) + rest.out);
}

/// No marker in the first chunk, and none in what it leaves followed by the
/// second.
proof fn lemma_chunks_hold(mode: Mode, p: Seq<char>, b: Seq<char>, n: int)
    requires
        first_marker(mode, p, n) is None,
        first_marker(mode, p.skip(p.len() - held(mode, p, n)) + b, n) is None,
    ensures
        chunks_agree(mode, p, b, n),
{
    let keep = held(mode, p, n);
    lemma_held(mode, p, n, p.len() as int);
    let cut = p.len() - keep;
    let q = p.take(cut);
    let r = p.skip(cut) + b;
    assert(p + b =~= q + r);
    lemma_first_of(mode, r, n, 4);
    lemma_first_of(mode, q + r, n, 4);
    if let Some(h) = first_marker(mode, q + r, n) {
        if h.0 < cut {
            lemma_no_early_marker(mode, p, b, n, h.1, h.0);
        } else {
            lemma_occurs_right(q, r, marker(h.1), h.0 - q.len());
        }
    }
    let keep2 = held(mode, r, n);
    lemma_held(mode, r, n, r.len() as int);
    assert forall|v: int| v > keep2 implies !could_grow(mode, q + r, n, v) by {
        if could_grow(mode, q + r, n, v) {
            lemma_growth_is_right(mode, p, b, n, v);
            lemma_growth_shift(mode, q, r, n, v);
        }
    }
    lemma_growth_shift(mode, q, r, n, keep2);
    lemma_held_is(mode, q + r, n, keep2);
    assert((q + r).skip((q + r).len() - keep2) =~= r.skip(r.len() - keep2));
    assert(content(mode, q + r, (q + r).len() - keep2) =~= content(mode, p, cut) + content(
        mode,
        r,
        r.len() - keep2,
    ));
}

/// Scanning in two chunks is scanning them as one: the content found adds up,
/// and the scan ends in the same mode with the same tail held back.
pub proof fn law_chunks_scan_as_one(mode: Mode, p: Seq<char>, b: Seq<char>, n: int)
    ensures
        ({
            let first = scan(mode, p, n);
            let second = scan(first.mode, first.pending + b, n);
            let whole = scan(mode, p + b, n);
            &&& whole.mode == second.mode
            &&& whole.pending == second.pending
            &&& whole.out == first.out + second.out
        }),
    decreases p.len(),
{
    match first_marker(mode, p, n) {
        Some(h) => {
            lemma_first_of(mode, p, n, 4);
            lemma_markers(h.1);
            lemma_hit_stays(mode, p, b, n, h.0, h.1);
            let cut = h.0 + marker(h.1).len();
            law_chunks_scan_as_one(behind(mode, h.1), p.skip(cut), b, n);
            assert((p + b).skip(cut) =~= p.skip(cut) + b);
            assert(content(mode, p + b, h.0) =~= content(mode, p, h.0));
            let first = scan(mode, p, n);
            let second = scan(first.mode, first.pending + b, n);
            let inner = scan(behind(mode, h.1), p.skip(cut), n);
            assert(content(mode, p, h.0) + (inner.out + second.out) =~= (content(mode, p, h.0)
                + inner.out) + second.out);
        },
        None => {
            match first_marker(mode, p.skip(p.len() - held(mode, p, n)) + b, n) {
                Some(h) => {
                    lemma_chunks_meet(mode, p, b, n);
                },
                None => {
                    lemma_chunks_hold(mode, p, b, n);
                },
            }
        },
    }
}

// ---------------------------------------------------------------------------
// The filter
// ---------------------------------------------------------------------------

/// A filter's state: where it stands, what it holds back, and whether content
/// has been shown.
#[verifier::ext_equal]
pub struct FilterView {
    pub mode: Mode,
    pub pending: Seq<char>,
    pub emitted: bool,
}

/// A filter that has seen nothing.
pub open spec fn fresh_filter() -> FilterView {
    FilterView { mode: Mode::Text, pending: Seq::empty(), emitted: false }
}

/// What is shown of found content: leading white space is dropped until the
/// first other character.
pub open spec fn shown(emitted: bool, out: Seq<char>) -> Seq<char> {
    if emitted {
        out
    } else {
        trim_start(out)
    }
}

/// The filter behind a fed chunk, and the text it shows.
pub open spec fn fed(f: FilterView, delta: Seq<char>, n: int) -> (FilterView, Seq<char>) {
    let s = scan(f.mode, f.pending + delta, n);
    let v = shown(f.emitted, s.out);
    (
        FilterView { mode: s.mode, pending: s.pending, emitted: f.emitted || v.len() > 0 },
        v,
    )
}

/// The filter at the end of the stream, and the text it shows: what it held
/// back in content, nothing of a block that never closed.
pub open spec fn finished(f: FilterView) -> (FilterView, Seq<char>) {
    if f.mode == Mode::Text {
        let v = shown(f.emitted, f.pending);
        (
            FilterView {
                mode: Mode::Text,
                pending: Seq::empty(),
                emitted: f.emitted || v.len() > 0,
            },
            v,
        )
    } else {
        (f, Seq::empty())
    }
}

proof fn lemma_trim_start_cat(a: Seq<char>, b: Seq<char>)
    ensures
        trim_start(a).len() > 0 ==> trim_start(a + b) == trim_start(a) + b,
        trim_start(a).len() == 0 ==> trim_start(a + b) == trim_start(b),
    decreases a.len(),
{
    if a.len() == 0 {
        assert(a + b =~= b);
    } else if white(a[0]) {
        lemma_trim_start_cat(a.skip(1), b);
        assert((a + b).skip(1) =~= a.skip(1) + b);
        assert((a + b)[0] == a[0]);
    } else {
        assert((a + b)[0] == a[0]);
    }
}

/// How a stream is cut into chunks does not matter: feeding two chunks shows,
/// together, what feeding their concatenation shows, and leaves the filter
/// alike.
pub proof fn law_feeding_in_chunks_shows_the_same(
    f: FilterView,
    a: Seq<char>,
    b: Seq<char>,
    n: int,
)
    ensures
        fed(fed(f, a, n).0, b, n).0 == fed(f, a + b, n).0,
        fed(f, a, n).1 + fed(fed(f, a, n).0, b, n).1 == fed(f, a + b, n).1,
{
    law_chunks_scan_as_one(f.mode, f.pending + a, b, n);
    assert((f.pending + a) + b =~= f.pending + (a + b));
    let s1 = scan(f.mode, f.pending + a, n);
    let s2 = scan(s1.mode, s1.pending + b, n);
    if f.emitted {
    } else {
        lemma_trim_start_cat(s1.out, s2.out);
        if trim_start(s1.out).len() == 0 {
            assert(trim_start(s1.out) + trim_start(s2.out) =~= trim_start(s2.out));
        }
    }
}

/// Content without markers is shown whole, but for leading white space, once
/// the stream ends.
pub proof fn law_plain_text_is_shown_whole(s: Seq<char>, n: int)
    requires
        first_marker(Mode::Text, s, n) is None,
    ensures
        ({
            let f = fed(fresh_filter(), s, n);
            f.1 + finished(f.0).1 == trim_start(s)
        }),
{
    assert(fresh_filter().pending + s =~= s);
    lemma_held(Mode::Text, s, n, s.len() as int);
    let cut = s.len() - held(Mode::Text, s, n);
    assert(s =~= s.take(cut) + s.skip(cut));
    lemma_trim_start_cat(s.take(cut), s.skip(cut));
    if trim_start(s.take(cut)).len() == 0 {
        assert(trim_start(s.take(cut)) + trim_start(s.skip(cut)) =~= trim_start(s.skip(cut)));
    }
}

/// A closed block is suppressed whole: an opener, a body that its first closer
/// ends, and the closer show nothing, and content goes on behind them.
pub proof fn law_a_closed_block_is_suppressed(
    open: int,
    body: Seq<char>,
    rest: Seq<char>,
    n: int,
)
    requires
        0 <= open < 2,
        2 <= n <= 4,
        find_from(body + marker(open + 2), marker(open + 2), 0) == Some(body.len() as int),
    ensures
        scan(Mode::Text, marker(open) + body + marker(open + 2) + rest, n) == scan(
            Mode::Text,
            rest,
            n,
        ),
{
    let o = marker(open);
    let c = marker(open + 2);
    let s = o + body + c + rest;
    lemma_markers(open);
    lemma_markers(open + 2);
    assert(s.subrange(0, o.len() as int) =~= o);
    lemma_first_is(Mode::Text, s, n, 0, open);
    let t = body + c + rest;
    assert(s.skip(o.len() as int) =~= t);
    let inside = behind(Mode::Text, open);
    assert(t.subrange(body.len() as int, body.len() as int + c.len()) =~= c);
    assert forall|k: int, j: int|
        0 <= k < 4 && watched(inside, k, n) && j < body.len() implies !occurs_at(t, marker(k), j) by {
        if occurs_at(t, c, j) {
            lemma_find_from(body + c, c, 0);
            lemma_occurs_left(body + c, rest, c, j);
        }
    }
    lemma_first_is(inside, t, n, body.len() as int, open + 2);
    assert(t.skip(body.len() as int + c.len()) =~= rest);
    let r = scan(Mode::Text, rest, n);
    let mid = scan(inside, t, n);
    assert(mid.out =~= r.out);
    assert(scan(Mode::Text, s, n).out =~= r.out);
}

/// The marker `k` as text.
fn marker_text(k: usize) -> (r: &'static str)
    ensures
        r@ == marker(k as int),
{
    if k == 0 {
        "<think>"
    } else if k == 1 {
        "<tool_call>"
    } else if k == 2 {
        "</think>"
    } else {
        "</tool_call>"
    }
}

fn is_watched(mode: Mode, k: usize, n: usize) -> (r: bool)
    ensures
        r == watched(mode, k as int, n as int),
{
    match mode {
        Mode::Text => k < n,
        Mode::Think => k == 2,
        Mode::Tool => k == 3,
    }
}

fn find_marker(mode: Mode, s: &[char], n: usize) -> (r: Option<(usize, usize)>)
    ensures
        match r {
            Some(h) => first_marker(mode, s@, n as int) == Some((h.0 as int, h.1 as int)),
            None => first_marker(mode, s@, n as int) is None,
        },
{
    let mut best: Option<(usize, usize)> = None;
    let mut k: usize = 0;
    while k < 4
        invariant
            k <= 4,
            match best {
                Some(h) => first_of(mode, s@, n as int, k as int) == Some((h.0 as int, h.1 as int)),
                None => first_of(mode, s@, n as int, k as int) is None,
            },
        decreases 4 - k,
    {
        if is_watched(mode, k, n) {
            let m = chars_of(marker_text(k));
            match search(s, m.as_slice(), 0) {
                Some(p) => {
                    match best {
                        None => {
                            best = Some((p, k));
                        },
                        Some(b) => {
                            if p < b.0 {
                                best = Some((p, k));
                            }
                        },
                    }
                },
                None => {},
            }
        }
        k += 1;
    }
    best
}

fn can_grow(mode: Mode, s: &[char], n: usize, t: usize) -> (r: bool)
    requires
        t <= s.len(),
    ensures
        r == could_grow(mode, s@, n as int, t as int),
{
    if t == 0 {
        return false;
    }
    let end = tail(s, s.len() - t);
    let mut k: usize = 0;
    while k < 4
        invariant
            k <= 4,
            0 < t <= s@.len(),
            end@ == s@.skip(s@.len() - t),
            forall|j: int|
                0 <= j < k && #[trigger] watched(mode, j, n as int) ==> !(t < marker(j).len()
                    && s@.skip(s@.len() - t) == marker(j).take(t as int)),
        decreases 4 - k,
    {
        if is_watched(mode, k, n) {
            let m = chars_of(marker_text(k));
            if t < m.len() && starts_at(m.as_slice(), end.as_slice(), 0) {
                proof {
                    assert(m@.subrange(0, t as int) =~= marker(k as int).take(t as int));
                    assert(watched(mode, k as int, n as int));
                }
                return true;
            }
            proof {
                if t < m@.len() {
                    assert(m@.subrange(0, end@.len() as int) =~= marker(k as int).take(t as int));
                }
            }
        }
        k += 1;
    }
    false
}

/// The length of the longest tail of `s` that could grow into a watched
/// marker.
pub fn holdback(mode: Mode, s: &[char], n: usize) -> (r: usize)
    ensures
        r == held(mode, s@, n as int),
        r <= s@.len(),
{
    let mut t: usize = if s.len() < 12 {
        s.len()
    } else {
        12
    };
    proof {
        lemma_long_tails(mode, s@, n as int, s@.len() as int);
    }
    while t > 0
        invariant
            t <= s@.len(),
            held(mode, s@, n as int) == held_upto(mode, s@, n as int, t as int),
        decreases t,
    {
        if can_grow(mode, s, n, t) {
            return t;
        }
        t -= 1;
    }
    0
}

/// No tail longer than a marker could grow.
proof fn lemma_long_tails(mode: Mode, s: Seq<char>, n: int, t: int)
    requires
        0 <= t,
    ensures
        t >= 12 ==> held_upto(mode, s, n, t) == held_upto(mode, s, n, 12),
    decreases t,
{
    if t > 12 {
        if could_grow(mode, s, n, t) {
            let k = choose|k: int|
                0 <= k < 4 && #[trigger] watched(mode, k, n) && t < marker(k).len() && s.skip(
                    s.len() - t,
                ) == marker(k).take(t);
            lemma_markers(k);
        }
        lemma_long_tails(mode, s, n, t - 1);
    }
}

/// The streaming filter. The first `markers` markers are watched in content:
/// the two openers, or the closers too.
pub struct MarkupFilter {
    pending: Vec<char>,
    mode: Mode,
    emitted_any: bool,
}

impl View for MarkupFilter {
    type V = FilterView;

    closed spec fn view(&self) -> FilterView {
        FilterView { mode: self.mode, pending: self.pending@, emitted: self.emitted_any }
    }
}

impl MarkupFilter {
    /// A filter that has seen nothing.
    pub fn new() -> (r: MarkupFilter)
        ensures
            r@ == fresh_filter(),
    {
        let r = MarkupFilter { pending: Vec::new(), mode: Mode::Text, emitted_any: false };
        proof {
            assert(r@ =~= fresh_filter());
        }
        r
    }

    /// Feeds a decoded chunk; answers the text that it shows.
    pub fn feed(&mut self, delta: &str, n: usize) -> (r: String)
        ensures
            (final(self)@, r@) == fed(old(self)@, delta@, n as int),
    {
        let mut more = chars_of(delta);
        self.pending.append(&mut more);
        let mut out: Vec<char> = Vec::new();
        let ghost whole = scan(self.mode, self.pending@, n as int);
        let ghost emitted = self.emitted_any;
        proof {
            assert(out@ + whole.out =~= whole.out);
        }
        loop
            invariant_except_break
                self.emitted_any == emitted,
                whole.mode == scan(self.mode, self.pending@, n as int).mode,
                whole.pending == scan(self.mode, self.pending@, n as int).pending,
                whole.out == out@ + scan(self.mode, self.pending@, n as int).out,
            ensures
                self.emitted_any == emitted,
                self.mode == whole.mode,
                self.pending@ == whole.pending,
                out@ == whole.out,
            decreases self.pending@.len(),
        {
            let ghost before = out@;
            let ghost p = self.pending@;
            match find_marker(self.mode, self.pending.as_slice(), n) {
                Some((idx, k)) => {
                    proof {
                        lemma_first_of(self.mode, p, n as int, 4);
                        lemma_markers(k as int);
                    }
                    let size = chars_of(marker_text(k)).len();
                    assert(idx + size <= self.pending.len());
                    if self.mode == Mode::Text {
                        let mut front = slice_of(self.pending.as_slice(), 0, idx);
                        out.append(&mut front);
                    }
                    let ghost mode = self.mode;
                    self.mode = if self.mode == Mode::Text && k == 0 {
                        Mode::Think
                    } else if self.mode == Mode::Text && k == 1 {
                        Mode::Tool
                    } else {
                        Mode::Text
                    };
                    self.pending = tail(self.pending.as_slice(), idx + size);
                    proof {
                        let rest = scan(self.mode, self.pending@, n as int).out;
                        assert(p.subrange(0, idx as int) =~= p.take(idx as int));
                        assert(out@ =~= before + content(mode, p, idx as int));
                        assert(before + (content(mode, p, idx as int) + rest) =~= out@ + rest);
                    }
                },
                None => {
                    let keep = holdback(self.mode, self.pending.as_slice(), n);
                    let cut: usize = self.pending.len() - keep;
                    if self.mode == Mode::Text {
                        let mut front = slice_of(self.pending.as_slice(), 0, cut);
                        out.append(&mut front);
                    }
                    self.pending = tail(self.pending.as_slice(), cut);
                    proof {
                        assert(p.subrange(0, cut as int) =~= p.take(cut as int));
                        assert(out@ =~= before + content(self.mode, p, cut as int));
                    }
                    break;
                },
            }
        }
        let r = self.visible(out.as_slice());
        proof {
            assert(final(self)@ =~= fed(old(self)@, delta@, n as int).0);
        }
        r
    }

    /// Shows what is held back at the end of the stream.
    pub fn finish(&mut self) -> (r: String)
        ensures
            (final(self)@, r@) == finished(old(self)@),
    {
        if self.mode == Mode::Text {
            let out = tail(self.pending.as_slice(), 0);
            proof {
                assert(self.pending@.skip(0) =~= self.pending@);
            }
            self.pending = Vec::new();
            let r = self.visible(out.as_slice());
            proof {
                assert(final(self)@ =~= finished(old(self)@).0);
            }
            r
        } else {
            String::new()
        }
    }

    fn visible(&mut self, out: &[char]) -> (r: String)
        ensures
            r@ == shown(old(self).emitted_any, out@),
            final(self).emitted_any == (old(self).emitted_any || r@.len() > 0),
            final(self).mode == old(self).mode,
            final(self).pending == old(self).pending,
    {
        if self.emitted_any {
            return string_of(out);
        }
        let t = trimmed_start(out);
        if t.len() > 0 {
            self.emitted_any = true;
        }
        string_of(t.as_slice())
    }
}

/// Each opener has its closer, and a marker leads where it says: an opener in
/// content into its block, everything else into content.
pub proof fn law_markers_come_in_pairs()
    ensures
        marker(0) == "<think>"@ && marker(1) == "<tool_call>"@,
        marker(2) == seq!['<', '/'] + marker(0).skip(1),
        marker(3) == seq!['<', '/'] + marker(1).skip(1),
        behind(Mode::Text, 0) == Mode::Think,
        behind(Mode::Text, 1) == Mode::Tool,
        forall|m: Mode, k: int|
            m != Mode::Text || (k != 0 && k != 1) ==> #[trigger] behind(m, k) == Mode::Text,
        forall|k: int, n: int| #[trigger] watched(Mode::Think, k, n) <==> marker_closes(0, k),
        forall|k: int, n: int| #[trigger] watched(Mode::Tool, k, n) <==> marker_closes(1, k),
        forall|k: int, n: int| #[trigger] watched(Mode::Text, k, n) <==> 0 <= k < n,
{
    reveal_strlit("<think>");
    reveal_strlit("<tool_call>");
    reveal_strlit("</think>");
    reveal_strlit("</tool_call>");
    assert(marker(2) =~= seq!['<', '/'] + marker(0).skip(1));
    assert(marker(3) =~= seq!['<', '/'] + marker(1).skip(1));
}

/// Marker `k` is the closer of opener `open`.
pub open spec fn marker_closes(open: int, k: int) -> bool {
    k == open + 2
}

/// The first marker of a text is a watched one, where it stands, with no watched
/// one in front of it; there is none exactly where no watched one stands anywhere.
pub proof fn law_the_first_marker_is_found(mode: Mode, s: Seq<char>, n: int, k: int, p: int)
    requires
        n <= 4,
    ensures
        match first_marker(mode, s, n) {
            Some(h) => watched(mode, h.1, n) && occurs_at(s, marker(h.1), h.0) && (0 <= k < 4 && watched(
                mode,
                k,
                n,
            ) && p < h.0 ==> !occurs_at(s, marker(k), p)),
            None => 0 <= k < 4 && watched(mode, k, n) ==> !occurs_at(s, marker(k), p),
        },
{
    lemma_first_of(mode, s, n, 4);
}

/// What stands in front of the first marker is shown in content and suppressed in
/// a block, and the rest is read behind the marker in the mode it leads to.
pub proof fn law_a_text_is_read_marker_by_marker(mode: Mode, s: Seq<char>, n: int, p: int, k: int)
    requires
        first_marker(mode, s, n) == Some((p, k)),
    ensures
        ({
            let rest = scan(behind(mode, k), s.skip(p + marker(k).len()), n);
            let r = scan(mode, s, n);
            &&& r.mode == rest.mode
            &&& r.pending == rest.pending
            &&& mode == Mode::Text ==> r.out == s.take(p) + rest.out
            &&& mode != Mode::Text ==> r.out == rest.out
        }),
{
    let rest = scan(behind(mode, k), s.skip(p + marker(k).len()), n);
    assert(Seq::<char>::empty() + rest.out =~= rest.out);
}

/// Of a text without a marker only the longest tail that a marker can start with
/// is held back; in content everything in front of it is shown, in a block nothing
/// is, and a block that never closes shows nothing at the end either.
pub proof fn law_only_a_started_marker_is_held(mode: Mode, s: Seq<char>, n: int, t: int, emitted: bool)
    requires
        first_marker(mode, s, n) is None,
    ensures
        ({
            let r = scan(mode, s, n);
            let f = FilterView { mode: r.mode, pending: r.pending, emitted };
            &&& r.mode == mode
            &&& mode == Mode::Text ==> r.out + r.pending == s
            &&& mode != Mode::Text ==> r.out.len() == 0 && finished(f).1.len() == 0
            &&& r.pending.len() > 0 ==> could_grow(mode, s, n, r.pending.len() as int)
            &&& r.pending.len() < t <= s.len() ==> !could_grow(mode, s, n, t)
            &&& r.pending == s.skip(s.len() - r.pending.len())
        }),
{
    lemma_held(mode, s, n, s.len() as int);
    let cut = s.len() - held(mode, s, n);
    assert(s =~= s.take(cut) + s.skip(cut));
}

/// What is held back at the end of content is shown after all, and leading white
/// space never is.
pub proof fn law_the_end_shows_what_was_held(f: FilterView)
    ensures
        f.mode == Mode::Text && f.emitted ==> finished(f).1 == f.pending,
        f.mode == Mode::Text && !f.emitted ==> finished(f).1 == trim_start(f.pending),
        f.mode != Mode::Text ==> finished(f).1.len() == 0,
        f.mode == Mode::Text ==> finished(f).0.pending.len() == 0,
{
}

} // verus!
