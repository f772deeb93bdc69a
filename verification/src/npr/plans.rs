//! Reading a trajectory: the plan labels of a guideline block, the boxed
//! answer, and the address a prompt's snapshot is kept under.

use vstd::prelude::*;
use vstd::string::*;
use vstd::utf8::encode_utf8;

use crate::canon::{lemma_between, lemma_encoded_alike};
use crate::fnv::{fnv1a, fnv_hash, FNV_OFFSET};
use crate::format::{hex, hex16_of};
use crate::npr::schedule::push_bytes;
use crate::text::{
    cat2, chars_of, find_from, lemma_find_from, lemma_rfind_below, rfind, rsearch, search,
    skip_white, slice_of, string_of, trim_start,
};

verus! {

/// A decimal digit.
pub open spec fn is_digit(c: char) -> bool {
    '0' <= c && c <= '9'
}

/// How many characters from `i` on are digits or dots.
pub open spec fn label_len(s: Seq<char>, i: int) -> nat
    decreases s.len() - i,
{
    if 0 <= i < s.len() && (is_digit(s[i]) || s[i] == '.') {
        1 + label_len(s, i + 1)
    } else {
        0
    }
}

/// Digits and dots make a label: it starts and ends with a digit, and no two dots
/// stand side by side.
pub open spec fn is_label(s: Seq<char>) -> bool {
    &&& s.len() > 0
    &&& is_digit(s[0])
    &&& is_digit(s.last())
    &&& forall|i: int| 0 <= i < s.len() - 1 ==> !(#[trigger] s[i] == '.' && s[i + 1] == '.')
}

/// The label of a plan entry whose text is `s`: behind white space, numbers with
/// single dots between them, then, behind more white space, a colon.
pub open spec fn plan_label(s: Seq<char>) -> Option<Seq<char>> {
    let t = trim_start(s);
    let n = label_len(t, 0) as int;
    let after = trim_start(t.skip(n));
    if is_label(t.take(n)) && after.len() > 0 && after[0] == ':' {
        Some(t.take(n))
    } else {
        None
    }
}

/// The labels of the plan entries of `s` from `from` on, in order.
pub open spec fn labels_from(s: Seq<char>, from: int) -> Seq<Seq<char>>
    decreases s.len() - from,
    via labels_from_decreases
{
    match find_from(s, "<plan>"@, from) {
        None => Seq::empty(),
        Some(p) => {
            let rest = labels_from(s, p + "<plan>"@.len());
            match plan_label(s.skip(p + "<plan>"@.len())) {
                Some(l) => seq![l] + rest,
                None => rest,
            }
        },
    }
}

#[via_fn]
proof fn labels_from_decreases(s: Seq<char>, from: int) {
    reveal_strlit("<plan>");
    if from >= 0 {
        lemma_find_from(s, "<plan>"@, from);
    }
}

/// The plan labels of a segment: of its last guideline block, or of the whole
/// segment where no guideline opens.
pub open spec fn plan_labels(segment: Seq<char>) -> Seq<Seq<char>> {
    match rfind(segment, "<guideline>"@) {
        Some(start) => labels_from(segment.skip(start), 0),
        None => labels_from(segment, 0),
    }
}

/// The contents of a list of strings.
pub open spec fn texts(v: Seq<String>) -> Seq<Seq<char>> {
    v.map_values(|s: String| s@)
}

fn label_end(s: &[char], from: usize) -> (r: usize)
    requires
        from <= s.len(),
    ensures
        r == from + label_len(s@, from as int),
        r <= s.len(),
{
    let mut i: usize = from;
    while i < s.len() && ((s[i] >= '0' && s[i] <= '9') || s[i] == '.')
        invariant
            from <= i <= s.len(),
            from + label_len(s@, from as int) == i + label_len(s@, i as int),
        decreases s.len() - i,
    {
        i += 1;
    }
    i
}

proof fn lemma_label_len_skip(s: Seq<char>, k: int, i: int)
    requires
        0 <= k <= s.len(),
        0 <= i,
    ensures
        label_len(s.skip(k), i) == label_len(s, k + i),
    decreases s.len() - k - i,
{
    if k + i < s.len() {
        assert(s.skip(k)[i] == s[k + i]);
        lemma_label_len_skip(s, k, i + 1);
    }
}

fn makes_label(s: &[char], from: usize, to: usize) -> (r: bool)
    requires
        from <= to <= s.len(),
    ensures
        r == is_label(s@.subrange(from as int, to as int)),
{
    let ghost t = s@.subrange(from as int, to as int);
    if from == to {
        return false;
    }
    if !(s[from] >= '0' && s[from] <= '9' && s[to - 1] >= '0' && s[to - 1] <= '9') {
        return false;
    }
    let mut i: usize = from;
    while i < to - 1
        invariant
            from <= i < to <= s.len(),
            t == s@.subrange(from as int, to as int),
            forall|k: int| 0 <= k < i - from ==> !(#[trigger] t[k] == '.' && t[k + 1] == '.'),
        decreases to - i,
    {
        if s[i] == '.' && s[i + 1] == '.' {
            proof {
                assert(t[i - from] == '.' && t[i - from + 1] == '.');
            }
            return false;
        }
        i += 1;
    }
    true
}

fn read_label(s: &[char], from: usize) -> (r: Option<String>)
    requires
        from <= s.len(),
    ensures
        match r {
            Some(l) => plan_label(s@.skip(from as int)) == Some(l@),
            None => plan_label(s@.skip(from as int)) is None,
        },
{
    let a = skip_white(s, from);
    let b = label_end(s, a);
    let c = skip_white(s, b);
    proof {
        let t = s@.skip(a as int);
        lemma_label_len_skip(s@, a as int, 0);
        assert(t.skip(b - a) =~= s@.skip(b as int));
        assert(t.take(b - a) =~= s@.subrange(a as int, b as int));
        if c < s.len() {
            assert(s@.skip(c as int)[0] == s@[c as int]);
        }
    }
    if makes_label(s, a, b) && c < s.len() && s[c] == ':' {
        let label = slice_of(s, a, b);
        Some(string_of(label.as_slice()))
    } else {
        None
    }
}

fn read_labels(s: &[char]) -> (r: Vec<String>)
    ensures
        texts(r@) == labels_from(s@, 0),
{
    let tag = chars_of("<plan>");
    let mut out: Vec<String> = Vec::new();
    let mut at: usize = 0;
    proof {
        reveal_strlit("<plan>");
        assert(texts(out@) + labels_from(s@, 0) =~= labels_from(s@, 0));
    }
    loop
        invariant
            tag@ == "<plan>"@,
            tag@.len() == 6,
            at <= s.len(),
            labels_from(s@, 0) == texts(out@) + labels_from(s@, at as int),
        decreases s.len() - at,
    {
        match search(s, tag.as_slice(), at) {
            None => {
                proof {
                    assert(texts(out@) + Seq::<Seq<char>>::empty() =~= texts(out@));
                }
                return out;
            },
            Some(p) => {
                proof {
                    lemma_find_from(s@, tag@, at as int);
                }
                let ghost before = out@;
                let next: usize = p + tag.len();
                match read_label(s, next) {
                    Some(l) => {
                        out.push(l);
                        proof {
                            assert(texts(before) + (seq![l@] + labels_from(s@, next as int))
                                =~= texts(out@) + labels_from(s@, next as int));
                        }
                    },
                    None => {},
                }
                at = next;
            },
        }
    }
}

/// The plan labels of the last guideline block of a segment. Where the opening
/// tag is absent (the tokenizer's byte table may misrender it, and a model may
/// skip it) the whole segment is read.
pub fn parse_plans(segment: &str) -> (r: Vec<String>)
    ensures
        texts(r@) == plan_labels(segment@),
{
    let s = chars_of(segment);
    let open = chars_of("<guideline>");
    match rsearch(s.as_slice(), open.as_slice()) {
        Some(start) => {
            proof {
                lemma_rfind_below(s@, open@, s@.len() as int + 1);
            }
            let block = slice_of(s.as_slice(), start, s.len());
            read_labels(block.as_slice())
        },
        None => read_labels(s.as_slice()),
    }
}

// ---------------------------------------------------------------------------
// The boxed answer
// ---------------------------------------------------------------------------

/// The position from `i` on of the brace that closes `depth` open ones.
pub open spec fn closing(s: Seq<char>, i: int, depth: nat) -> Option<int>
    decreases s.len() - i,
{
    if i < 0 || i >= s.len() {
        None
    } else if s[i] == '{' {
        closing(s, i + 1, depth + 1)
    } else if s[i] == '}' {
        if depth <= 1 {
            Some(i)
        } else {
            closing(s, i + 1, (depth - 1) as nat)
        }
    } else {
        closing(s, i + 1, depth)
    }
}

/// The contents of the last `boxed{...}`, braces matched.
pub open spec fn boxed(text: Seq<char>) -> Option<Seq<char>> {
    match rfind(text, "boxed{"@) {
        None => None,
        Some(p) => match closing(text, p + "boxed{"@.len(), 1) {
            None => None,
            Some(e) => Some(text.subrange(p + "boxed{"@.len(), e)),
        },
    }
}

/// The contents of the last `\boxed{...}` of a trajectory; none where its
/// braces do not close.
pub fn extract_boxed(text: &str) -> (r: Option<String>)
    ensures
        match r {
            Some(b) => boxed(text@) == Some(b@),
            None => boxed(text@) is None,
        },
{
    let s = chars_of(text);
    let open = chars_of("boxed{");
    proof {
        reveal_strlit("boxed{");
        lemma_rfind_below(s@, open@, s@.len() as int + 1);
    }
    let start: usize = match rsearch(s.as_slice(), open.as_slice()) {
        None => {
            return None;
        },
        Some(p) => p + open.len(),
    };
    let mut depth: usize = 1;
    let mut i: usize = start;
    while i < s.len()
        invariant
            start <= i <= s@.len(),
            6 <= start,
            1 <= depth <= i - start + 1,
            closing(s@, start as int, 1) == closing(s@, i as int, depth as nat),
            s@ == text@,
            rfind(text@, "boxed{"@) == Some(start - 6),
            "boxed{"@.len() == 6,
        decreases s.len() - i,
    {
        let c = s[i];
        if c == '{' {
            depth = depth + 1;
        } else if c == '}' {
            if depth == 1 {
                let body = slice_of(s.as_slice(), start, i);
                return Some(string_of(body.as_slice()));
            }
            depth = depth - 1;
        }
        i += 1;
    }
    None
}

// ---------------------------------------------------------------------------
// The prompt's snapshot
// ---------------------------------------------------------------------------

/// FNV-1a of `bytes`, starting from `h`.
pub fn fnv64(h: u64, bytes: &[u8]) -> (r: u64)
    ensures
        r == fnv_hash(bytes@, h),
{
    fnv1a(bytes, h)
}

/// The bytes a prompt's address hashes: model, question and version, with
/// separators that no UTF-8 text holds.
pub open spec fn prompt_key(model: Seq<char>, question: Seq<char>, version: Seq<char>) -> Seq<u8> {
    encode_utf8(model) + seq![0xffu8] + encode_utf8(question) + seq![0xffu8] + encode_utf8(version)
}

/// The content address of the context behind a prompt: keyed on the model, the
/// exact question and the version, so that a change of any misses.
pub fn prompt_cache_name(model_name: &str, question: &str, version: &str) -> (r: String)
    ensures
        r@ == "npr-prompt/"@ + hex(
            fnv_hash(prompt_key(model_name@, question@, version@), FNV_OFFSET) as nat,
            16,
        ),
{
    let mut key: Vec<u8> = Vec::new();
    push_bytes(&mut key, model_name.as_bytes());
    key.push(0xff);
    push_bytes(&mut key, question.as_bytes());
    key.push(0xff);
    push_bytes(&mut key, version.as_bytes());
    proof {
        assert(key@ =~= prompt_key(model_name@, question@, version@));
    }
    let h = fnv64(FNV_OFFSET, key.as_slice());
    cat2("npr-prompt/", hex16_of(h).as_str())
}

/// The outcome of looking a prompt up and saving it, as the run reports it.
pub open spec fn save_state(saved: Option<Seq<char>>) -> Seq<char> {
    match saved {
        None => "miss_saved"@,
        Some(e) => if crate::text::occurs_at(e, "Snapshot name already exists:"@, 0) {
            "miss_exists"@
        } else {
            "miss_save_failed"@
        },
    }
}

/// How a save behind a missed lookup is reported, from its error: an existing
/// name is an identical snapshot, not a failure.
pub fn prompt_save_state(error: Option<&str>) -> (r: &'static str)
    ensures
        r@ == save_state(
            match error {
                Some(e) => Some(e@),
                None => None,
            },
        ),
{
    match error {
        None => "miss_saved",
        Some(e) => {
            let s = chars_of(e);
            let known = chars_of("Snapshot name already exists:");
            if crate::text::starts_at(s.as_slice(), known.as_slice(), 0) {
                "miss_exists"
            } else {
                "miss_save_failed"
            }
        },
    }
}

/// The model, the question and the version are all in what is hashed: a change of
/// any one of them alone makes other bytes.
pub proof fn law_a_prompt_key_covers_its_parts(
    model: Seq<char>,
    question: Seq<char>,
    version: Seq<char>,
    x: Seq<char>,
)
    ensures
        x != model ==> prompt_key(x, question, version) != prompt_key(model, question, version),
        x != question ==> prompt_key(model, x, version) != prompt_key(model, question, version),
        x != version ==> prompt_key(model, question, x) != prompt_key(model, question, version),
{
    let e = seq![0xffu8];
    let none = Seq::<u8>::empty();
    let (m, q, v, y) = (
        encode_utf8(model),
        encode_utf8(question),
        encode_utf8(version),
        encode_utf8(x),
    );
    let key = prompt_key(model, question, version);
    if x != model && prompt_key(x, question, version) == key {
        let rest = e + q + e + v;
        assert(prompt_key(x, question, version) =~= none + y + rest);
        assert(key =~= none + m + rest);
        lemma_between(none, y, m, rest);
        lemma_encoded_alike(x, model);
    }
    if x != question && prompt_key(model, x, version) == key {
        assert(prompt_key(model, x, version) =~= (m + e) + y + (e + v));
        assert(key =~= (m + e) + q + (e + v));
        lemma_between(m + e, y, q, e + v);
        lemma_encoded_alike(x, question);
    }
    if x != version && prompt_key(model, question, x) == key {
        let lead = m + e + q + e;
        assert(prompt_key(model, question, x) =~= lead + y + none);
        assert(key =~= lead + v + none);
        lemma_between(lead, y, v, none);
        lemma_encoded_alike(x, version);
    }
}

/// A save is reported as what it was: saved without an error, found where the error
/// says that the name is there, and failed with any other error.
pub proof fn law_a_save_is_reported(e: Seq<char>, name: Seq<char>)
    ensures
        save_state(None) == "miss_saved"@,
        save_state(Some("Snapshot name already exists:"@ + name)) == "miss_exists"@,
        !crate::text::occurs_at(e, "Snapshot name already exists:"@, 0) ==> save_state(Some(e))
            == "miss_save_failed"@,
{
    let head = "Snapshot name already exists:"@;
    assert((head + name).subrange(0, head.len() as int) =~= head);
}

} // verus!
