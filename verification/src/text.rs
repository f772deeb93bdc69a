//! Character-level text operations: search, trimming, joining, number
//! formatting and template filling, all stated over `Seq<char>`.

use vstd::prelude::*;
use vstd::string::*;
use vstd::utf8::*;

verus! {

/// `String::push` appends one character to the end of the string.
pub assume_specification[ String::push ](s: &mut String, c: char)
    ensures
        final(s)@ == old(s)@.push(c),
;

/// The text of bytes, with a replacement character for each ill-formed sequence.
pub uninterp spec fn lossy_text(bytes: Seq<u8>) -> Seq<char>;

/// `String::from_utf8_lossy`: the text of bytes. UTF-8 is read as it stands.
#[verifier::external_body]
pub(crate) fn lossy(bytes: &[u8]) -> (r: String)
    ensures
        r@ == lossy_text(bytes@),
        valid_utf8(bytes@) ==> encode_utf8(r@) == bytes@,
{
    String::from_utf8_lossy(bytes).into_owned()
}

/// `String::from_utf8`: the text that bytes encode; none where they are not UTF-8.
#[verifier::external_body]
pub(crate) fn decoded(bytes: Vec<u8>) -> (r: Option<String>)
    ensures
        (r is Some) == valid_utf8(bytes@),
        r matches Some(s) ==> s@ == decode_utf8(bytes@),
{
    String::from_utf8(bytes).ok()
}

// ---------------------------------------------------------------------------
// Conversions and comparison
// ---------------------------------------------------------------------------

/// The characters of `s`, in order.
pub fn chars_of(s: &str) -> (r: Vec<char>)
    ensures
        r@ == s@,
{
    let mut r: Vec<char> = Vec::new();
    for c in it: s.chars()
        invariant
            it.seq() == s@,
            r@ == s@.take(it.index()),
    {
        proof {
            assert(s@.take(it.index() + 1) =~= s@.take(it.index()).push(s@[it.index()]));
        }
        r.push(c);
    }
    proof {
        assert(s@.take(s@.len() as int) =~= s@);
    }
    r
}

/// The string whose characters are `s`.
pub fn string_of(s: &[char]) -> (r: String)
    ensures
        r@ == s@,
{
    let mut r = String::new();
    let mut i: usize = 0;
    while i < s.len()
        invariant
            i <= s.len(),
            r@ == s@.take(i as int),
        decreases s.len() - i,
    {
        proof {
            assert(s@.take(i + 1) =~= s@.take(i as int).push(s@[i as int]));
        }
        r.push(s[i]);
        i += 1;
    }
    proof {
        assert(s@.take(i as int) =~= s@);
    }
    r
}

/// Whether two strings have the same characters.
pub fn same(a: &str, b: &str) -> (r: bool)
    ensures
        r == (a@ == b@),
{
    let x = a.as_bytes();
    let y = b.as_bytes();
    if x.len() != y.len() {
        return false;
    }
    let mut i: usize = 0;
    while i < x.len()
        invariant
            i <= x.len(),
            x.len() == y.len(),
            x@ == encode_utf8(a@),
            y@ == encode_utf8(b@),
            forall|j: int| 0 <= j < i ==> x@[j] == y@[j],
        decreases x.len() - i,
    {
        if x[i] != y[i] {
            return false;
        }
        i += 1;
    }
    proof {
        assert(x@ =~= y@);
        encode_utf8_decode_utf8(a@);
        encode_utf8_decode_utf8(b@);
    }
    true
}

/// The string made of `a` followed by `b`.
pub fn cat2(a: &str, b: &str) -> (r: String)
    ensures
        r@ == a@ + b@,
{
    let mut r = String::new();
    r.append(a);
    r.append(b);
    proof {
        assert(r@ =~= a@ + b@);
    }
    r
}

/// The string made of `a`, `b` and `c`.
pub fn cat3(a: &str, b: &str, c: &str) -> (r: String)
    ensures
        r@ == a@ + b@ + c@,
{
    let mut r = cat2(a, b);
    r.append(c);
    r
}

// ---------------------------------------------------------------------------
// Search
// ---------------------------------------------------------------------------

/// `pat` stands in `s` at position `i`.
pub open spec fn occurs_at(s: Seq<char>, pat: Seq<char>, i: int) -> bool {
    0 <= i && i + pat.len() <= s.len() && s.subrange(i, i + pat.len()) == pat
}

/// The first position at or after `from` where `pat` stands in `s`.
pub open spec fn find_from(s: Seq<char>, pat: Seq<char>, from: int) -> Option<int>
    decreases s.len() - from + 1,
{
    if from < 0 || from + pat.len() > s.len() {
        None
    } else if occurs_at(s, pat, from) {
        Some(from)
    } else {
        find_from(s, pat, from + 1)
    }
}

/// The first position where `pat` stands in `s`.
pub open spec fn find(s: Seq<char>, pat: Seq<char>) -> Option<int> {
    find_from(s, pat, 0)
}

/// `pat` stands somewhere in `s`.
pub open spec fn contains(s: Seq<char>, pat: Seq<char>) -> bool {
    find(s, pat) is Some
}

/// The last position below `end` where `pat` stands in `s`.
pub open spec fn rfind_below(s: Seq<char>, pat: Seq<char>, end: int) -> Option<int>
    decreases end,
{
    if end <= 0 {
        None
    } else if occurs_at(s, pat, end - 1) {
        Some(end - 1)
    } else {
        rfind_below(s, pat, end - 1)
    }
}

/// The last position where `pat` stands in `s`.
pub open spec fn rfind(s: Seq<char>, pat: Seq<char>) -> Option<int> {
    rfind_below(s, pat, s.len() as int + 1)
}

/// `p` is the first place at or behind `from` where `pat` stands in `s`.
pub open spec fn first_at(s: Seq<char>, pat: Seq<char>, from: int, p: int) -> bool {
    from <= p && occurs_at(s, pat, p) && forall|k: int| from <= k < p ==> !occurs_at(s, pat, k)
}

/// `pat` stands nowhere in `s` at or behind `from`.
pub open spec fn none_from(s: Seq<char>, pat: Seq<char>, from: int) -> bool {
    forall|k: int| from <= k ==> !occurs_at(s, pat, k)
}

/// A search finds the first place, and none only where there is none.
pub proof fn law_a_search_finds_the_first_place(s: Seq<char>, pat: Seq<char>, from: int, p: int)
    requires
        0 <= from,
    ensures
        first_at(s, pat, from, p) <==> find_from(s, pat, from) == Some(p),
        none_from(s, pat, from) <==> find_from(s, pat, from) is None,
{
    lemma_find_from(s, pat, from);
    if find_from(s, pat, from) is Some {
        assert(occurs_at(s, pat, find_from(s, pat, from)->0));
    }
}

/// A search from the end finds the last place, and none only where there is none.
pub proof fn law_a_search_from_the_end_finds_the_last_place(s: Seq<char>, pat: Seq<char>, p: int)
    ensures
        0 <= p && occurs_at(s, pat, p) && none_from(s, pat, p + 1) <==> rfind(s, pat) == Some(p),
        none_from(s, pat, 0) <==> rfind(s, pat) is None,
{
    lemma_rfind_below(s, pat, s.len() as int + 1);
    if rfind(s, pat) is Some {
        assert(occurs_at(s, pat, rfind(s, pat)->0));
    }
}

/// `find_from` answers the least matching position at or after `from`, and
/// answers none exactly where there is no such position.
pub proof fn lemma_find_from(s: Seq<char>, pat: Seq<char>, from: int)
    requires
        0 <= from,
    ensures
        match find_from(s, pat, from) {
            Some(i) => from <= i && occurs_at(s, pat, i) && forall|j: int|
                from <= j < i ==> !occurs_at(s, pat, j),
            None => forall|j: int| from <= j ==> !occurs_at(s, pat, j),
        },
    decreases s.len() - from + 1,
{
    if from + pat.len() > s.len() {
    } else if occurs_at(s, pat, from) {
    } else {
        lemma_find_from(s, pat, from + 1);
    }
}

/// `rfind_below` answers the greatest matching position below `end`.
pub proof fn lemma_rfind_below(s: Seq<char>, pat: Seq<char>, end: int)
    ensures
        match rfind_below(s, pat, end) {
            Some(i) => i < end && occurs_at(s, pat, i) && forall|j: int|
                i < j < end ==> !occurs_at(s, pat, j),
            None => forall|j: int| j < end ==> !occurs_at(s, pat, j),
        },
    decreases end,
{
    if end > 0 && !occurs_at(s, pat, end - 1) {
        lemma_rfind_below(s, pat, end - 1);
    }
}

/// Whether `pat` stands in `s` at `i`.
pub fn starts_at(s: &[char], pat: &[char], i: usize) -> (r: bool)
    ensures
        r == occurs_at(s@, pat@, i as int),
{
    if i > s.len() || pat.len() > s.len() - i {
        return false;
    }
    let mut k: usize = 0;
    while k < pat.len()
        invariant
            i <= s.len(),
            pat.len() <= s.len() - i,
            k <= pat.len(),
            forall|j: int| 0 <= j < k ==> s@[i + j] == pat@[j],
        decreases pat.len() - k,
    {
        if s[i + k] != pat[k] {
            proof {
                assert(s@.subrange(i as int, i + pat@.len())[k as int] == s@[i + k]);
            }
            return false;
        }
        k += 1;
    }
    proof {
        assert(s@.subrange(i as int, i + pat@.len()) =~= pat@);
    }
    true
}

/// The first position at or after `from` where `pat` stands in `s`.
pub fn search(s: &[char], pat: &[char], from: usize) -> (r: Option<usize>)
    ensures
        match r {
            Some(i) => find_from(s@, pat@, from as int) == Some(i as int),
            None => find_from(s@, pat@, from as int) is None,
        },
{
    let mut i: usize = from;
    while i <= s.len() && pat.len() <= s.len() - i
        invariant
            from <= i,
            find_from(s@, pat@, from as int) == find_from(s@, pat@, i as int),
        decreases s.len() - i + 1,
    {
        if starts_at(s, pat, i) {
            return Some(i);
        }
        proof {
            if i == s.len() {
                assert(s@.subrange(i as int, i as int) =~= pat@);
            }
        }
        i += 1;
    }
    None
}

/// The last position where `pat` stands in `s`.
pub fn rsearch(s: &[char], pat: &[char]) -> (r: Option<usize>)
    ensures
        match r {
            Some(i) => rfind(s@, pat@) == Some(i as int),
            None => rfind(s@, pat@) is None,
        },
{
    if starts_at(s, pat, s.len()) {
        return Some(s.len());
    }
    let mut end: usize = s.len();
    while end > 0
        invariant
            rfind(s@, pat@) == rfind_below(s@, pat@, end as int),
        decreases end,
    {
        if starts_at(s, pat, end - 1) {
            return Some(end - 1);
        }
        end -= 1;
    }
    None
}

/// Whether `pat` stands somewhere in `s`.
pub fn holds(s: &[char], pat: &[char]) -> (r: bool)
    ensures
        r == contains(s@, pat@),
{
    search(s, pat, 0).is_some()
}

/// The tail of a character slice from `from` on.
pub fn tail(s: &[char], from: usize) -> (r: Vec<char>)
    requires
        from <= s.len(),
    ensures
        r@ == s@.skip(from as int),
{
    slice_of(s, from, s.len())
}

/// The characters of `s` from `from` up to `to`.
pub fn slice_of(s: &[char], from: usize, to: usize) -> (r: Vec<char>)
    requires
        from <= to <= s.len(),
    ensures
        r@ == s@.subrange(from as int, to as int),
{
    let mut r: Vec<char> = Vec::new();
    let mut i: usize = from;
    while i < to
        invariant
            from <= i <= to <= s.len(),
            r@ == s@.subrange(from as int, i as int),
        decreases to - i,
    {
        proof {
            assert(s@.subrange(from as int, i + 1) =~= s@.subrange(from as int, i as int).push(
                s@[i as int],
            ));
        }
        r.push(s[i]);
        i += 1;
    }
    r
}

// ---------------------------------------------------------------------------
// White space
// ---------------------------------------------------------------------------

/// The Unicode White_Space property.
pub open spec fn white(c: char) -> bool {
    let u = c as u32;
    (0x9 <= u <= 0xd) || u == 0x20 || u == 0x85 || u == 0xa0 || u == 0x1680 || (0x2000 <= u
        <= 0x200a) || u == 0x2028 || u == 0x2029 || u == 0x202f || u == 0x205f || u == 0x3000
}

/// Whether a character has the Unicode White_Space property.
pub fn is_white(c: char) -> (r: bool)
    ensures
        r == white(c),
{
    let u: u32 = c as u32;
    (0x9 <= u && u <= 0xd) || u == 0x20 || u == 0x85 || u == 0xa0 || u == 0x1680 || (0x2000 <= u
        && u <= 0x200a) || u == 0x2028 || u == 0x2029 || u == 0x202f || u == 0x205f || u == 0x3000
}

/// `s` without its leading white space.
pub open spec fn trim_start(s: Seq<char>) -> Seq<char>
    decreases s.len(),
{
    if s.len() > 0 && white(s[0]) {
        trim_start(s.skip(1))
    } else {
        s
    }
}

/// `s` without its trailing white space.
pub open spec fn trim_end(s: Seq<char>) -> Seq<char>
    decreases s.len(),
{
    if s.len() > 0 && white(s.last()) {
        trim_end(s.drop_last())
    } else {
        s
    }
}

/// `s` without leading and trailing white space.
pub open spec fn trim(s: Seq<char>) -> Seq<char> {
    trim_end(trim_start(s))
}

/// The number of white-space characters at the front of `s` from `from` on,
/// as the position after them.
pub fn skip_white(s: &[char], from: usize) -> (r: usize)
    requires
        from <= s.len(),
    ensures
        from <= r <= s.len(),
        s@.skip(r as int) == trim_start(s@.skip(from as int)),
        forall|j: int| from <= j < r ==> white(#[trigger] s@[j]),
        r < s.len() ==> !white(s@[r as int]),
{
    let mut i: usize = from;
    while i < s.len() && is_white(s[i])
        invariant
            from <= i <= s.len(),
            trim_start(s@.skip(from as int)) == trim_start(s@.skip(i as int)),
            forall|j: int| from <= j < i ==> white(#[trigger] s@[j]),
        decreases s.len() - i,
    {
        proof {
            assert(s@.skip(i as int).skip(1) =~= s@.skip(i + 1));
            assert(s@.skip(i as int)[0] == s@[i as int]);
        }
        i += 1;
    }
    proof {
        if i < s.len() {
            assert(s@.skip(i as int)[0] == s@[i as int]);
        }
    }
    i
}

/// The end of `s[from..to]` with its trailing white space dropped.
pub fn drop_white(s: &[char], from: usize, to: usize) -> (r: usize)
    requires
        from <= to <= s.len(),
    ensures
        from <= r <= to,
        s@.subrange(from as int, r as int) == trim_end(s@.subrange(from as int, to as int)),
{
    let mut e: usize = to;
    while e > from && is_white(s[e - 1])
        invariant
            from <= e <= to <= s.len(),
            trim_end(s@.subrange(from as int, to as int)) == trim_end(
                s@.subrange(from as int, e as int),
            ),
        decreases e,
    {
        proof {
            assert(s@.subrange(from as int, e as int).drop_last() =~= s@.subrange(
                from as int,
                e - 1,
            ));
        }
        e -= 1;
    }
    e
}

/// `s` without its leading white space.
pub fn trimmed_start(s: &[char]) -> (r: Vec<char>)
    ensures
        r@ == trim_start(s@),
{
    let i = skip_white(s, 0);
    proof {
        assert(s@.skip(0) =~= s@);
    }
    tail(s, i)
}

/// `s` without its trailing white space.
pub fn trimmed_end(s: &[char]) -> (r: Vec<char>)
    ensures
        r@ == trim_end(s@),
{
    let e = drop_white(s, 0, s.len());
    proof {
        assert(s@.subrange(0, s@.len() as int) =~= s@);
    }
    slice_of(s, 0, e)
}

/// `s` without leading and trailing white space.
pub fn trimmed(s: &[char]) -> (r: Vec<char>)
    ensures
        r@ == trim(s@),
{
    let a = trimmed_start(s);
    trimmed_end(a.as_slice())
}

// ---------------------------------------------------------------------------
// Removing and joining
// ---------------------------------------------------------------------------

/// `s` with every occurrence of `pat` removed, found left to right without
/// overlap.
pub open spec fn remove_all(s: Seq<char>, pat: Seq<char>) -> Seq<char>
    decreases s.len(),
    via remove_all_decreases
{
    if pat.len() == 0 {
        s
    } else {
        match find(s, pat) {
            None => s,
            Some(i) => s.take(i) + remove_all(s.skip(i + pat.len()), pat),
        }
    }
}

#[via_fn]
proof fn remove_all_decreases(s: Seq<char>, pat: Seq<char>) {
    lemma_find_from(s, pat, 0);
}

/// `s` with every occurrence of `pat` removed.
pub fn without(s: &[char], pat: &[char]) -> (r: Vec<char>)
    ensures
        r@ == remove_all(s@, pat@),
{
    let mut out: Vec<char> = Vec::new();
    if pat.len() == 0 {
        return tail_all(s);
    }
    let mut at: usize = 0;
    proof {
        assert(s@.skip(0) =~= s@);
        assert(out@ + remove_all(s@, pat@) =~= remove_all(s@, pat@));
    }
    loop
        invariant
            pat.len() > 0,
            at <= s.len(),
            remove_all(s@, pat@) == out@ + remove_all(s@.skip(at as int), pat@),
        decreases s.len() - at,
    {
        let rest = tail(s, at);
        match search(rest.as_slice(), pat, 0) {
            None => {
                let mut more = rest;
                out.append(&mut more);
                return out;
            },
            Some(i) => {
                proof {
                    lemma_find_from(rest@, pat@, 0);
                    assert(rest@.skip(i + pat@.len()) =~= s@.skip(at + i + pat@.len()));
                }
                let mut kept = slice_of(rest.as_slice(), 0, i);
                proof {
                    assert(rest@.take(i as int) =~= kept@);
                    assert(out@ + (kept@ + remove_all(rest@.skip(i + pat@.len()), pat@)) =~= (out@
                        + kept@) + remove_all(rest@.skip(i + pat@.len()), pat@));
                }
                out.append(&mut kept);
                at = at + i + pat.len();
            },
        }
    }
}

/// A copy of `s`.
pub fn tail_all(s: &[char]) -> (r: Vec<char>)
    ensures
        r@ == s@,
{
    proof {
        assert(s@.skip(0) =~= s@);
    }
    tail(s, 0)
}

/// The parts in order with `sep` between neighbours.
pub open spec fn join(parts: Seq<Seq<char>>, sep: Seq<char>) -> Seq<char>
    decreases parts.len(),
{
    if parts.len() == 0 {
        Seq::empty()
    } else if parts.len() == 1 {
        parts[0]
    } else {
        join(parts.drop_last(), sep) + sep + parts.last()
    }
}

// ---------------------------------------------------------------------------
// Order
// ---------------------------------------------------------------------------

/// `a` comes before `b` when both are compared from position `i` on, character
/// by character, a text before its continuations.
pub open spec fn before_from(a: Seq<char>, b: Seq<char>, i: int) -> bool
    decreases b.len() - i,
{
    if i < 0 || i >= b.len() {
        false
    } else if i >= a.len() {
        true
    } else if a[i] != b[i] {
        a[i] < b[i]
    } else {
        before_from(a, b, i + 1)
    }
}

/// `a` comes before `b` in the order of strings.
pub open spec fn before(a: Seq<char>, b: Seq<char>) -> bool {
    before_from(a, b, 0)
}

/// Whether `a` comes before `b` in the order of strings.
pub fn comes_before(a: &[char], b: &[char]) -> (r: bool)
    ensures
        r == before(a@, b@),
{
    let mut i: usize = 0;
    while i < b.len()
        invariant
            i <= b@.len(),
            i <= a@.len(),
            before(a@, b@) == before_from(a@, b@, i as int),
        decreases b.len() - i,
    {
        if i >= a.len() {
            return true;
        }
        if a[i] != b[i] {
            return a[i] < b[i];
        }
        i += 1;
    }
    false
}

/// The order of strings is a strict order: of two different texts exactly one
/// comes first.
pub proof fn lemma_before_total(a: Seq<char>, b: Seq<char>, i: int)
    requires
        0 <= i <= a.len(),
        i <= b.len(),
        a.take(i) == b.take(i),
    ensures
        !(before_from(a, b, i) && before_from(b, a, i)),
        a != b ==> before_from(a, b, i) || before_from(b, a, i),
        a == b ==> !before_from(a, b, i),
    decreases a.len() - i,
{
    if i < a.len() && i < b.len() {
        if a[i] == b[i] {
            assert(a.take(i + 1) =~= b.take(i + 1)) by {
                assert forall|j: int| 0 <= j < i + 1 implies a[j] == b[j] by {
                    if j < i {
                        assert(a[j] == a.take(i)[j]);
                        assert(b[j] == b.take(i)[j]);
                    }
                }
            }
            lemma_before_total(a, b, i + 1);
        }
    } else if a.len() == b.len() {
        assert(a =~= b) by {
            assert forall|j: int| 0 <= j < a.len() implies a[j] == b[j] by {
                assert(a[j] == a.take(i)[j]);
                assert(b[j] == b.take(i)[j]);
            }
        }
    }
}

/// The order of strings is transitive.
pub proof fn lemma_before_trans(a: Seq<char>, b: Seq<char>, c: Seq<char>, i: int)
    requires
        0 <= i,
        before_from(a, b, i),
        before_from(b, c, i),
    ensures
        before_from(a, c, i),
    decreases c.len() - i,
{
    if i < c.len() && i < b.len() && i < a.len() && a[i] == b[i] && b[i] == c[i] {
        lemma_before_trans(a, b, c, i + 1);
    }
}

// ---------------------------------------------------------------------------
// Laws
// ---------------------------------------------------------------------------

/// Trimming the end drops white space and nothing else, and all of it: what is left is
/// a prefix, behind which all is white space, and it does not end with any.
pub proof fn law_trimming_the_end_drops_white_space(s: Seq<char>) -> (n: int)
    ensures
        0 <= n <= s.len(),
        trim_end(s) == s.take(n),
        forall|k: int| n <= k < s.len() ==> white(#[trigger] s[k]),
        n > 0 ==> !white(s[n - 1]),
    decreases s.len(),
{
    if s.len() > 0 && white(s.last()) {
        let n = law_trimming_the_end_drops_white_space(s.drop_last());
        assert(s.drop_last().take(n) =~= s.take(n));
        assert forall|k: int| n <= k < s.len() implies white(#[trigger] s[k]) by {
            if k < s.len() - 1 {
                assert(s.drop_last()[k] == s[k]);
            }
        }
        n
    } else {
        assert(s.take(s.len() as int) =~= s);
        s.len() as int
    }
}

/// Trimming the start drops white space and nothing else, and all of it.
pub proof fn law_trimming_the_start_drops_white_space(s: Seq<char>) -> (n: int)
    ensures
        0 <= n <= s.len(),
        trim_start(s) == s.skip(n),
        forall|k: int| 0 <= k < n ==> white(#[trigger] s[k]),
        n < s.len() ==> !white(s[n]),
    decreases s.len(),
{
    if s.len() > 0 && white(s[0]) {
        let n = law_trimming_the_start_drops_white_space(s.skip(1));
        assert(s.skip(1).skip(n) =~= s.skip(n + 1));
        assert forall|k: int| 0 <= k < n + 1 implies white(#[trigger] s[k]) by {
            if k > 0 {
                assert(s.skip(1)[k - 1] == s[k]);
            }
        }
        n + 1
    } else {
        assert(s.skip(0) =~= s);
        0
    }
}

/// White space in front of a text that starts with none is what trimming drops.
pub proof fn lemma_trim_start_over(w: Seq<char>, x: Seq<char>)
    requires
        forall|k: int| 0 <= k < w.len() ==> white(#[trigger] w[k]),
        x.len() > 0 ==> !white(x[0]),
    ensures
        trim_start(w + x) == x,
{
    let s = w + x;
    let n = law_trimming_the_start_drops_white_space(s);
    if n < w.len() {
        assert(s[n] == w[n]);
    } else if n > w.len() {
        assert(s[w.len() as int] == x[0]);
    }
    assert(s.skip(w.len() as int) =~= x);
}

/// Joined parts stand one behind the other with the separator between neighbours: the
/// first part, the separator and the join of the rest.
pub proof fn law_parts_are_joined_in_order(x: Seq<char>, rest: Seq<Seq<char>>, sep: Seq<char>)
    ensures
        join(seq![x], sep) == x,
        rest.len() > 0 ==> join(seq![x] + rest, sep) == x + sep + join(rest, sep),
    decreases rest.len(),
{
    let all = seq![x] + rest;
    if rest.len() > 0 {
        let front = rest.drop_last();
        law_parts_are_joined_in_order(x, front, sep);
        assert(all.drop_last() =~= seq![x] + front);
        assert(all.last() == rest.last());
        if front.len() == 0 {
            assert(seq![x] + front =~= seq![x]);
            assert(rest[0] == rest.last());
        } else {
            assert(x + sep + join(front, sep) + sep + rest.last() =~= x + sep + (join(front, sep)
                + sep + rest.last()));
        }
    }
}

/// Removing a pattern drops its occurrences, from left to right, and nothing else: a
/// text in front of the first one stays, and the one that stands first goes.
pub proof fn law_only_the_pattern_is_removed(a: Seq<char>, b: Seq<char>, pat: Seq<char>)
    requires
        pat.len() > 0,
        forall|k: int| 0 <= k < a.len() ==> !occurs_at(a + pat + b, pat, k),
    ensures
        remove_all(a + pat + b, pat) == a + remove_all(b, pat),
        (forall|k: int| 0 <= k ==> !occurs_at(b, pat, k)) ==> remove_all(b, pat) == b,
{
    let s = a + pat + b;
    lemma_find_from(s, pat, 0);
    assert(s.subrange(a.len() as int, (a.len() + pat.len()) as int) =~= pat);
    assert(occurs_at(s, pat, a.len() as int));
    assert(find(s, pat) == Some(a.len() as int));
    assert(s.take(a.len() as int) =~= a);
    assert(s.skip((a.len() + pat.len()) as int) =~= b);
    lemma_find_from(b, pat, 0);
}

/// Of two texts the one comes before the other that has the smaller character
/// where they first differ, or that the other goes on from.
pub proof fn law_the_first_difference_orders(a: Seq<char>, b: Seq<char>, i: int)
    requires
        0 <= i <= a.len(),
        i <= b.len(),
        a.take(i) == b.take(i),
    ensures
        i < a.len() && i < b.len() && a[i] < b[i] ==> before(a, b) && !before(b, a),
        i == a.len() && i < b.len() ==> before(a, b) && !before(b, a),
        i == a.len() && i == b.len() ==> !before(a, b),
{
    lemma_before_agreeing(a, b, 0, i);
    lemma_before_agreeing(b, a, 0, i);
}

proof fn lemma_before_agreeing(a: Seq<char>, b: Seq<char>, j: int, i: int)
    requires
        0 <= j <= i <= a.len(),
        i <= b.len(),
        a.take(i) == b.take(i),
    ensures
        before_from(a, b, j) == before_from(a, b, i),
    decreases i - j,
{
    if j < i {
        assert(a.take(i)[j] == a[j] && b.take(i)[j] == b[j]);
        lemma_before_agreeing(a, b, j + 1, i);
    }
}

/// White space is these characters and no other: tab to carriage return, the space,
/// the next line, the no-break and narrow spaces, the typographic spaces, the line
/// and paragraph separators and the ideographic space.
pub proof fn law_white_space_is_known(c: char)
    ensures
        white(c) <==> c == '\t' || c == '\n' || c == '\u{b}' || c == '\u{c}' || c == '\r' || c == ' ' || c
            == '\u{85}' || c == '\u{a0}' || c == '\u{1680}' || c == '\u{2000}' || c == '\u{2001}' || c
            == '\u{2002}' || c == '\u{2003}' || c == '\u{2004}' || c == '\u{2005}' || c == '\u{2006}'
            || c == '\u{2007}' || c == '\u{2008}' || c == '\u{2009}' || c == '\u{200a}' || c
            == '\u{2028}' || c == '\u{2029}' || c == '\u{202f}' || c == '\u{205f}' || c == '\u{3000}',
{
}

} // verus!
