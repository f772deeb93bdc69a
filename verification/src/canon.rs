//! The neutral canonical form of a conversation, and its content address.
//!
//! An item can be made both from an incoming message and from generated
//! output, so the name a turn is saved under equals the name that the echoed
//! history hashes to.

use vstd::arithmetic::power::pow;
use vstd::prelude::*;
use vstd::string::*;
use vstd::utf8::{encode_utf8, encode_utf8_decode_utf8};

use crate::fnv::{fnv1a, fnv_hash, FNV_OFFSET};
use crate::format::{hex, hex_value, law_hex_reads_back, push_hex};
use crate::npr::schedule::push_bytes;
use crate::serving::types::texts;

verus! {

/// One conversation unit. Reasoning is deliberately absent: it is not
/// rendered, so it must not move the address.
#[derive(Debug)]
pub enum CanonItem {
    Msg { role: String, text: String },
    Call { id: String, name: String, args: String },
    CallOutput { id: String, text: String },
}

/// The contents of a [`CanonItem`].
pub enum CanonView {
    Msg { role: Seq<char>, text: Seq<char> },
    Call { id: Seq<char>, name: Seq<char>, args: Seq<char> },
    CallOutput { id: Seq<char>, text: Seq<char> },
}

impl View for CanonItem {
    type V = CanonView;

    open spec fn view(&self) -> CanonView {
        match *self {
            CanonItem::Msg { role, text } => CanonView::Msg { role: role@, text: text@ },
            CanonItem::Call { id, name, args } => CanonView::Call {
                id: id@,
                name: name@,
                args: args@,
            },
            CanonItem::CallOutput { id, text } => CanonView::CallOutput { id: id@, text: text@ },
        }
    }
}

/// The contents of a list of items.
pub open spec fn items_view(v: Seq<CanonItem>) -> Seq<CanonView> {
    v.map_values(|c: CanonItem| c@)
}

/// The bytes an item adds to an address: a tag, its fields with a zero byte
/// between them, and an end byte that no UTF-8 text holds.
pub open spec fn item_bytes(c: CanonView) -> Seq<u8> {
    match c {
        CanonView::Msg { role, text } => seq![1u8, 0x6du8, 0x73u8, 0x67u8, 0u8] + encode_utf8(role)
            + seq![0u8] + encode_utf8(text) + seq![0xffu8],
        CanonView::Call { id, name, args } => seq![2u8, 0x66u8, 0x63u8, 0u8] + encode_utf8(id)
            + seq![0u8] + encode_utf8(name) + seq![0u8] + encode_utf8(args) + seq![0xffu8],
        CanonView::CallOutput { id, text } => seq![3u8, 0x66u8, 0x63u8, 0x6fu8, 0u8] + encode_utf8(
            id,
        ) + seq![0u8] + encode_utf8(text) + seq![0xffu8],
    }
}

/// The bytes of the first `n` items.
pub open spec fn items_bytes(items: Seq<CanonView>, n: int) -> Seq<u8>
    decreases n,
{
    if n <= 0 {
        Seq::empty()
    } else {
        items_bytes(items, n - 1) + item_bytes(items[n - 1])
    }
}

/// The bytes of the first `n` schemas, each with its end byte.
pub open spec fn schemas_bytes(schemas: Seq<Seq<char>>, n: int) -> Seq<u8>
    decreases n,
{
    if n <= 0 {
        Seq::empty()
    } else {
        schemas_bytes(schemas, n - 1) + encode_utf8(schemas[n - 1]) + seq![0xfeu8]
    }
}

/// The bytes that an address hashes: a header, the tool schemas, the items.
pub open spec fn address_key(
    header: Seq<u8>,
    schemas: Seq<Seq<char>>,
    items: Seq<CanonView>,
) -> Seq<u8> {
    header + seq![0xfeu8] + schemas_bytes(schemas, schemas.len() as int) + items_bytes(
        items,
        items.len() as int,
    )
}

/// The 32 hexadecimal digits of two FNV-1a hashes, the second seeded by the
/// first.
pub open spec fn address_text(key: Seq<u8>) -> Seq<char> {
    let h = fnv_hash(key, FNV_OFFSET);
    hex(h as nat, 16) + hex(fnv_hash(key, h ^ 0x9e3779b97f4a7c15) as nat, 16)
}

/// Appends the bytes of an item.
pub fn push_canon(item: &CanonItem, out: &mut Vec<u8>)
    ensures
        final(out)@ == old(out)@ + item_bytes(item@),
{
    match item {
        CanonItem::Msg { role, text } => {
            push_bytes(out, &[1, 0x6d, 0x73, 0x67, 0]);
            push_bytes(out, role.as_str().as_bytes());
            out.push(0);
            push_bytes(out, text.as_str().as_bytes());
        },
        CanonItem::Call { id, name, args } => {
            push_bytes(out, &[2, 0x66, 0x63, 0]);
            push_bytes(out, id.as_str().as_bytes());
            out.push(0);
            push_bytes(out, name.as_str().as_bytes());
            out.push(0);
            push_bytes(out, args.as_str().as_bytes());
        },
        CanonItem::CallOutput { id, text } => {
            push_bytes(out, &[3, 0x66, 0x63, 0x6f, 0]);
            push_bytes(out, id.as_str().as_bytes());
            out.push(0);
            push_bytes(out, text.as_str().as_bytes());
        },
    }
    out.push(0xff);
    proof {
        assert(out@ =~= old(out)@ + item_bytes(item@));
    }
}

/// The address of a header, tool schemas and items.
pub fn address(header: &[u8], tool_schemas: &[String], items: &[CanonItem]) -> (r: String)
    ensures
        r@ == address_text(address_key(header@, texts(tool_schemas@), items_view(items@))),
        r@.len() == 32,
{
    let ghost schemas = texts(tool_schemas@);
    let ghost views = items_view(items@);
    let mut buf: Vec<u8> = Vec::new();
    push_bytes(&mut buf, header);
    buf.push(0xfe);
    let ghost head = header@ + seq![0xfeu8];
    let mut i: usize = 0;
    proof {
        assert(buf@ =~= head + schemas_bytes(schemas, 0));
    }
    while i < tool_schemas.len()
        invariant
            i <= tool_schemas@.len(),
            schemas == texts(tool_schemas@),
            buf@ == head + schemas_bytes(schemas, i as int),
        decreases tool_schemas.len() - i,
    {
        push_bytes(&mut buf, tool_schemas[i].as_str().as_bytes());
        buf.push(0xfe);
        proof {
            assert(buf@ =~= head + schemas_bytes(schemas, i + 1));
        }
        i += 1;
    }
    let ghost front = buf@;
    let mut k: usize = 0;
    proof {
        assert(buf@ =~= front + items_bytes(views, 0));
    }
    while k < items.len()
        invariant
            k <= items@.len(),
            views == items_view(items@),
            buf@ == front + items_bytes(views, k as int),
        decreases items.len() - k,
    {
        push_canon(&items[k], &mut buf);
        proof {
            assert(buf@ =~= front + items_bytes(views, k + 1));
        }
        k += 1;
    }
    let h = fnv1a(buf.as_slice(), FNV_OFFSET);
    let h2 = fnv1a(buf.as_slice(), h ^ 0x9e3779b97f4a7c15);
    let mut r = String::new();
    push_hex(&mut r, h, 16);
    push_hex(&mut r, h2, 16);
    proof {
        assert(buf@ =~= address_key(header@, schemas, views));
        assert(r@ =~= address_text(buf@));
        lemma_hex_len(h as nat, 16);
        lemma_hex_len(h2 as nat, 16);
    }
    r
}

/// A hexadecimal rendering has its width.
pub proof fn lemma_hex_len(n: nat, width: nat)
    ensures
        hex(n, width).len() == width,
    decreases width,
{
    if width > 0 {
        lemma_hex_len(n / 16, (width - 1) as nat);
    }
}

/// What stands between the same two ends is the same.
pub proof fn lemma_between(a: Seq<u8>, x: Seq<u8>, y: Seq<u8>, b: Seq<u8>)
    requires
        a + x + b == a + y + b,
    ensures
        x == y,
{
    let s = a + x + b;
    let t = a + y + b;
    assert(s.len() == a.len() + x.len() + b.len());
    assert(t.len() == a.len() + y.len() + b.len());
    assert(x.len() == y.len());
    assert(s.subrange(a.len() as int, (a.len() + x.len()) as int) =~= x);
    assert(t.subrange(a.len() as int, (a.len() + y.len()) as int) =~= y);
}

/// Two texts have the same bytes only where they are the same.
pub proof fn lemma_encoded_alike(s: Seq<char>, t: Seq<char>)
    requires
        encode_utf8(s) == encode_utf8(t),
    ensures
        s == t,
{
    encode_utf8_decode_utf8(s);
    encode_utf8_decode_utf8(t);
}

/// Every field of an item is in its bytes: two items that differ in one field
/// have different bytes, and so have two items of different kinds.
pub proof fn law_every_field_moves_the_bytes(
    a: Seq<char>,
    b: Seq<char>,
    c: Seq<char>,
    x: Seq<char>,
    y: Seq<char>,
)
    requires
        x != y,
    ensures
        item_bytes(CanonView::Msg { role: x, text: b }) != item_bytes(
            CanonView::Msg { role: y, text: b },
        ),
        item_bytes(CanonView::Msg { role: a, text: x }) != item_bytes(
            CanonView::Msg { role: a, text: y },
        ),
        item_bytes(CanonView::Call { id: x, name: b, args: c }) != item_bytes(
            CanonView::Call { id: y, name: b, args: c },
        ),
        item_bytes(CanonView::Call { id: a, name: x, args: c }) != item_bytes(
            CanonView::Call { id: a, name: y, args: c },
        ),
        item_bytes(CanonView::Call { id: a, name: b, args: x }) != item_bytes(
            CanonView::Call { id: a, name: b, args: y },
        ),
        item_bytes(CanonView::CallOutput { id: x, text: b }) != item_bytes(
            CanonView::CallOutput { id: y, text: b },
        ),
        item_bytes(CanonView::CallOutput { id: a, text: x }) != item_bytes(
            CanonView::CallOutput { id: a, text: y },
        ),
        item_bytes(CanonView::Msg { role: a, text: b }) != item_bytes(
            CanonView::CallOutput { id: x, text: y },
        ),
        item_bytes(CanonView::Msg { role: a, text: b }) != item_bytes(
            CanonView::Call { id: x, name: y, args: c },
        ),
        item_bytes(CanonView::CallOutput { id: a, text: b }) != item_bytes(
            CanonView::Call { id: x, name: y, args: c },
        ),
{
    let z = seq![0u8];
    let e = seq![0xffu8];
    let (ea, eb, ec) = (encode_utf8(a), encode_utf8(b), encode_utf8(c));
    let (ex, ey) = (encode_utf8(x), encode_utf8(y));
    let m = seq![1u8, 0x6du8, 0x73u8, 0x67u8, 0u8];
    let f = seq![2u8, 0x66u8, 0x63u8, 0u8];
    let o = seq![3u8, 0x66u8, 0x63u8, 0x6fu8, 0u8];
    if ex == ey {
        lemma_encoded_alike(x, y);
    }
    lemma_apart(m, ex, ey, z + eb + e);
    lemma_apart(m + ea + z, ex, ey, e);
    lemma_apart(f, ex, ey, z + eb + z + ec + e);
    lemma_apart(f + ea + z, ex, ey, z + ec + e);
    lemma_apart(f + ea + z + eb + z, ex, ey, e);
    lemma_apart(o, ex, ey, z + eb + e);
    lemma_apart(o + ea + z, ex, ey, e);
    assert(forall|p: Seq<u8>| #[trigger] (m + p + (z + eb + e)) =~= m + p + z + eb + e);
    assert(forall|p: Seq<u8>| #[trigger] (f + p + (z + eb + z + ec + e)) =~= f + p + z + eb + z + ec + e);
    assert(forall|p: Seq<u8>| #[trigger] (f + ea + z + p + (z + ec + e)) =~= f + ea + z + p + z + ec + e);
    assert(forall|p: Seq<u8>| #[trigger] (o + p + (z + eb + e)) =~= o + p + z + eb + e);
    assert(item_bytes(CanonView::Msg { role: a, text: b })[0] == 1);
    assert(item_bytes(CanonView::Call { id: x, name: y, args: c })[0] == 2);
    assert(item_bytes(CanonView::CallOutput { id: x, text: y })[0] == 3);
    assert(item_bytes(CanonView::CallOutput { id: a, text: b })[0] == 3);
}

proof fn lemma_apart(a: Seq<u8>, x: Seq<u8>, y: Seq<u8>, b: Seq<u8>)
    requires
        x != y,
    ensures
        a + x + b != a + y + b,
{
    if a + x + b == a + y + b {
        lemma_between(a, x, y, b);
    }
}

proof fn lemma_items_prefix(s: Seq<CanonView>, t: Seq<CanonView>, n: int)
    requires
        n <= s.len(),
        n <= t.len(),
        forall|i: int| 0 <= i < n ==> s[i] == t[i],
    ensures
        items_bytes(s, n) == items_bytes(t, n),
    decreases n,
{
    if n > 0 {
        lemma_items_prefix(s, t, n - 1);
    }
}

proof fn lemma_schemas_prefix(s: Seq<Seq<char>>, t: Seq<Seq<char>>, n: int)
    requires
        n <= s.len(),
        n <= t.len(),
        forall|i: int| 0 <= i < n ==> s[i] == t[i],
    ensures
        schemas_bytes(s, n) == schemas_bytes(t, n),
    decreases n,
{
    if n > 0 {
        lemma_schemas_prefix(s, t, n - 1);
    }
}

/// What is hashed grows with each further item by that item's bytes, and two
/// conversations whose last item or last schema alone differs, or whose header
/// does, are hashed from different bytes.
pub proof fn law_an_address_covers_header_schemas_and_items(
    header: Seq<u8>,
    other: Seq<u8>,
    schemas: Seq<Seq<char>>,
    s: Seq<char>,
    t: Seq<char>,
    items: Seq<CanonView>,
    x: CanonView,
    y: CanonView,
)
    ensures
        address_key(header, schemas, items.push(x)) == address_key(header, schemas, items)
            + item_bytes(x),
        item_bytes(x) != item_bytes(y) ==> address_key(header, schemas, items.push(x))
            != address_key(header, schemas, items.push(y)),
        s != t ==> address_key(header, schemas.push(s), items) != address_key(
            header,
            schemas.push(t),
            items,
        ),
        header != other ==> address_key(header, schemas, items) != address_key(other, schemas, items),
{
    let n = items.len() as int;
    let k = schemas.len() as int;
    let fe = seq![0xfeu8];
    lemma_items_prefix(items.push(x), items, n);
    lemma_items_prefix(items.push(y), items, n);
    lemma_schemas_prefix(schemas.push(s), schemas, k);
    lemma_schemas_prefix(schemas.push(t), schemas, k);
    let lead = header + fe + schemas_bytes(schemas, k);
    let told = items_bytes(items, n);
    assert(lead + (told + item_bytes(x)) =~= lead + told + item_bytes(x));
    assert(lead + (told + item_bytes(y)) =~= lead + told + item_bytes(y));
    if item_bytes(x) != item_bytes(y) {
        lemma_apart(lead + told, item_bytes(x), item_bytes(y), Seq::empty());
        assert(lead + told + item_bytes(x) + Seq::<u8>::empty() =~= lead + told + item_bytes(x));
        assert(lead + told + item_bytes(y) + Seq::<u8>::empty() =~= lead + told + item_bytes(y));
    }
    if s != t {
        if encode_utf8(s) == encode_utf8(t) {
            lemma_encoded_alike(s, t);
        }
        lemma_apart(lead, encode_utf8(s), encode_utf8(t), fe + told);
        assert(header + fe + (schemas_bytes(schemas, k) + encode_utf8(s) + fe) + told =~= lead
            + encode_utf8(s) + (fe + told));
        assert(header + fe + (schemas_bytes(schemas, k) + encode_utf8(t) + fe) + told =~= lead
            + encode_utf8(t) + (fe + told));
    }
    if header != other {
        let rest = fe + schemas_bytes(schemas, k) + told;
        lemma_apart(Seq::empty(), header, other, rest);
        assert(header + fe + schemas_bytes(schemas, k) + told =~= Seq::<u8>::empty() + header + rest);
        assert(other + fe + schemas_bytes(schemas, k) + told =~= Seq::<u8>::empty() + other + rest);
    }
}

/// An address is 32 hexadecimal digits: the first 16 spell the hash of the key, and
/// the last the hash that starts from it.
pub proof fn law_an_address_spells_two_hashes(key: Seq<u8>)
    ensures
        address_text(key).len() == 32,
        hex_value(address_text(key).take(16)) == fnv_hash(key, FNV_OFFSET),
        hex_value(address_text(key).skip(16)) == fnv_hash(
            key,
            fnv_hash(key, FNV_OFFSET) ^ 0x9e3779b97f4a7c15,
        ),
{
    let h = fnv_hash(key, FNV_OFFSET);
    let g = fnv_hash(key, h ^ 0x9e3779b97f4a7c15);
    reveal_with_fuel(pow, 17);
    assert(pow(16, 16) == 0x1_0000_0000_0000_0000);
    law_hex_reads_back(h as nat, 16);
    law_hex_reads_back(g as nat, 16);
    assert(address_text(key).take(16) =~= hex(h as nat, 16));
    assert(address_text(key).skip(16) =~= hex(g as nat, 16));
}

} // verus!
