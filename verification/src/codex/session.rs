//! Content addresses of item lists, and where a follow-up request can resume.
//!
//! After a turn its context is kept under a hash of the item list that a
//! follow-up would arrive with. The follow-up strips its trailing items, hashes
//! the rest, and on a hit pays only for what it stripped. A miss is always safe.

use vstd::prelude::*;
use vstd::string::*;
use vstd::utf8::encode_utf8;

use crate::canon::{
    address, address_key, address_text, item_bytes, items_view,
    law_an_address_covers_header_schemas_and_items, lemma_encoded_alike, CanonView,
};
use crate::codex::types::{role_text, InputItem, Role};
use crate::serving::streaming::CallOut;
use crate::serving::types::texts;
use crate::text::cat3;

pub use crate::canon::CanonItem;

verus! {

/// The canonical form of an item; none of one that is not rendered, which must
/// not move the address either.
pub open spec fn canon_of(item: InputItem) -> Option<CanonView> {
    match item {
        InputItem::Message(m) => Some(
            CanonView::Msg { role: role_text(m.role), text: m.content.said() },
        ),
        InputItem::FunctionCall(c) => Some(
            CanonView::Call { id: c.call_id@, name: c.name@, args: c.arguments@ },
        ),
        InputItem::FunctionCallOutput(o) => Some(
            CanonView::CallOutput { id: o.call_id@, text: o.said() },
        ),
        _ => None,
    }
}

/// The canonical form of an item.
pub fn canon(item: &InputItem) -> (r: Option<CanonItem>)
    ensures
        match r {
            Some(c) => canon_of(*item) == Some(c@),
            None => canon_of(*item) is None,
        },
{
    match item {
        InputItem::Message(m) => Some(
            CanonItem::Msg { role: m.role_str().to_owned(), text: m.content.as_text() },
        ),
        InputItem::FunctionCall(c) => Some(
            CanonItem::Call {
                id: c.call_id.clone(),
                name: c.name.clone(),
                args: c.arguments.clone(),
            },
        ),
        InputItem::FunctionCallOutput(o) => Some(
            CanonItem::CallOutput { id: o.call_id.clone(), text: o.output_text() },
        ),
        _ => None,
    }
}

/// The canonical forms of the first `n` items.
pub open spec fn canons(items: Seq<InputItem>, n: int) -> Seq<CanonView>
    decreases n,
{
    if n <= 0 {
        Seq::empty()
    } else {
        match canon_of(items[n - 1]) {
            Some(c) => canons(items, n - 1).push(c),
            None => canons(items, n - 1),
        }
    }
}

/// The canonical forms of the first `n` items.
pub fn canon_items(items: &[InputItem], n: usize) -> (r: Vec<CanonItem>)
    requires
        n <= items@.len(),
    ensures
        items_view(r@) == canons(items@, n as int),
{
    let mut out: Vec<CanonItem> = Vec::new();
    let mut i: usize = 0;
    proof {
        assert(items_view(out@) =~= Seq::empty());
    }
    while i < n
        invariant
            i <= n <= items@.len(),
            items_view(out@) == canons(items@, i as int),
        decreases n - i,
    {
        let ghost before = out@;
        match canon(&items[i]) {
            Some(c) => {
                out.push(c);
                proof {
                    assert(items_view(out@) =~= items_view(before).push(c@));
                }
            },
            None => {},
        }
        i += 1;
    }
    out
}

/// The bytes of the instructions.
pub open spec fn instruction_bytes(instructions: Option<Seq<char>>) -> Seq<u8> {
    match instructions {
        Some(s) => encode_utf8(s),
        None => Seq::empty(),
    }
}

/// The name of the snapshot of items.
pub open spec fn name_of(
    scope: Seq<char>,
    instructions: Option<Seq<char>>,
    schemas: Seq<Seq<char>>,
    items: Seq<CanonView>,
) -> Seq<char> {
    "codex/"@ + scope + "/"@ + address_text(
        address_key(instruction_bytes(instructions), schemas, items),
    )
}

/// The name of the snapshot of items. Instructions and schemas are rendered, so
/// a change of either moves it; the scope groups a conversation's snapshots.
pub fn snapshot_name(
    scope: &str,
    instructions: Option<&str>,
    tool_schemas: &[String],
    items: &[CanonItem],
) -> (r: String)
    ensures
        r@ == name_of(
            scope@,
            match instructions {
                Some(s) => Some(s@),
                None => None,
            },
            texts(tool_schemas@),
            items_view(items@),
        ),
{
    let a = match instructions {
        Some(s) => address(s.as_bytes(), tool_schemas, items),
        None => {
            let none: Vec<u8> = Vec::new();
            proof {
                assert(none@ =~= Seq::empty());
            }
            address(none.as_slice(), tool_schemas, items)
        },
    };
    let mut r = cat3("codex/", scope, "/");
    r.append(a.as_str());
    r
}

/// An item that the assistant produced.
pub open spec fn produced(item: InputItem) -> bool {
    match item {
        InputItem::FunctionCall(_) => true,
        InputItem::Message(m) => m.role == Role::Assistant,
        _ => false,
    }
}

/// The position of the last produced item among the first `n`.
pub open spec fn last_produced(items: Seq<InputItem>, n: int) -> Option<int>
    decreases n,
{
    if n <= 0 {
        None
    } else if produced(items[n - 1]) {
        Some(n - 1)
    } else {
        last_produced(items, n - 1)
    }
}

/// Where a follow-up can resume: behind the last item that the assistant
/// produced; `None` on the first turn.
pub fn split_resume_point(items: &[InputItem]) -> (r: Option<usize>)
    ensures
        match r {
            Some(i) => 0 < i <= items@.len() && last_produced(items@, items@.len() as int) == Some(
                i - 1,
            ),
            None => last_produced(items@, items@.len() as int) is None,
        },
{
    let mut n: usize = items.len();
    while n > 0
        invariant
            n <= items@.len(),
            last_produced(items@, items@.len() as int) == last_produced(items@, n as int),
        decreases n,
    {
        let hit = match &items[n - 1] {
            InputItem::FunctionCall(_) => true,
            InputItem::Message(m) => m.is_assistant(),
            _ => false,
        };
        if hit {
            return Some(n);
        }
        n -= 1;
    }
    None
}

/// The items of a produced turn: its text where it has any, then its calls.
pub open spec fn turn_items(text: Seq<char>, calls: Seq<CallOut>) -> Seq<CanonView> {
    (if text.len() == 0 {
        Seq::empty()
    } else {
        seq![CanonView::Msg { role: "assistant"@, text }]
    }) + calls.map_values(|c: CallOut| CanonView::Call { id: c.0, name: c.1, args: c.2 })
}

/// The items that the next request arrives with: those of this one, and the
/// produced turn.
pub fn saved_items(items: &[InputItem], text: &str, calls: &[(String, String, String)]) -> (r: Vec<
    CanonItem,
>)
    ensures
        items_view(r@) == canons(items@, items@.len() as int) + turn_items(
            text@,
            crate::serving::streaming::triples(calls@),
        ),
{
    let ghost cv = crate::serving::streaming::triples(calls@);
    let mut out = canon_items(items, items.len());
    let ghost base = items_view(out@);
    let ghost head = if text@.len() == 0 {
        Seq::<CanonView>::empty()
    } else {
        seq![CanonView::Msg { role: "assistant"@, text: text@ }]
    };
    if !text.is_empty() {
        out.push(CanonItem::Msg { role: "assistant".to_owned(), text: text.to_owned() });
    }
    let mut k: usize = 0;
    let ghost tail = cv.map_values(|c: CallOut| CanonView::Call { id: c.0, name: c.1, args: c.2 });
    proof {
        assert(items_view(out@) =~= base + head + tail.take(0));
    }
    while k < calls.len()
        invariant
            k <= calls@.len(),
            cv == crate::serving::streaming::triples(calls@),
            tail == cv.map_values(
                |c: CallOut| CanonView::Call { id: c.0, name: c.1, args: c.2 },
            ),
            items_view(out@) == base + head + tail.take(k as int),
        decreases calls.len() - k,
    {
        let ghost before = out@;
        out.push(
            CanonItem::Call {
                id: calls[k].0.clone(),
                name: calls[k].1.clone(),
                args: calls[k].2.clone(),
            },
        );
        proof {
            assert(out@.last()@ == tail[k as int]);
            assert(items_view(out@) =~= items_view(before).push(tail[k as int]));
            assert(items_view(out@) =~= base + head + tail.take(k + 1));
        }
        k += 1;
    }
    proof {
        assert(tail.take(k as int) =~= tail);
        assert(items_view(out@) =~= base + turn_items(text@, cv));
    }
    out
}

// ---------------------------------------------------------------------------
// Laws
// ---------------------------------------------------------------------------

pub(crate) proof fn lemma_canons_cat(a: Seq<InputItem>, b: Seq<InputItem>, n: int)
    requires
        0 <= n <= b.len(),
    ensures
        canons(a + b, a.len() + n) == canons(a, a.len() as int) + canons(b, n),
    decreases n,
{
    if n > 0 {
        lemma_canons_cat(a, b, n - 1);
        assert((a + b)[a.len() + n - 1] == b[n - 1]);
        if let Some(c) = canon_of(b[n - 1]) {
            assert(canons(a, a.len() as int) + canons(b, n - 1).push(c) =~= (canons(
                a,
                a.len() as int,
            ) + canons(b, n - 1)).push(c));
        }
    } else {
        lemma_canons_front(a, b, a.len() as int);
        assert(canons(a, a.len() as int) + Seq::<CanonView>::empty() =~= canons(
            a,
            a.len() as int,
        ));
    }
}

proof fn lemma_canons_front(a: Seq<InputItem>, b: Seq<InputItem>, n: int)
    requires
        0 <= n <= a.len(),
    ensures
        canons(a + b, n) == canons(a, n),
    decreases n,
{
    if n > 0 {
        lemma_canons_front(a, b, n - 1);
        assert((a + b)[n - 1] == a[n - 1]);
    }
}

proof fn lemma_last_in_front(front: Seq<InputItem>, added: Seq<InputItem>, n: int)
    requires
        front.len() > 0,
        produced(front.last()),
        forall|i: int| 0 <= i < added.len() ==> !produced(#[trigger] added[i]),
        front.len() <= n <= front.len() + added.len(),
    ensures
        last_produced(front + added, n) == Some(front.len() - 1),
    decreases n,
{
    if n > front.len() {
        assert((front + added)[n - 1] == added[n - 1 - front.len()]);
        lemma_last_in_front(front, added, n - 1);
    } else {
        assert((front + added)[n - 1] == front.last());
    }
}

/// What a turn is saved under is what the next request hashes to, where the
/// client echoes the produced items, text before calls, and appends items of its
/// own.
pub proof fn law_the_next_request_finds_the_snapshot(
    incoming: Seq<InputItem>,
    echo: Seq<InputItem>,
    added: Seq<InputItem>,
    text: Seq<char>,
    calls: Seq<CallOut>,
    scope: Seq<char>,
    instructions: Option<Seq<char>>,
    schemas: Seq<Seq<char>>,
)
    requires
        echo.len() > 0,
        produced(echo.last()),
        canons(echo, echo.len() as int) == turn_items(text, calls),
        forall|i: int| 0 <= i < added.len() ==> !produced(#[trigger] added[i]),
    ensures
        ({
            let next = incoming + echo + added;
            let split = incoming.len() + echo.len();
            &&& last_produced(next, next.len() as int) == Some(split - 1)
            &&& name_of(scope, instructions, schemas, canons(next, split as int)) == name_of(
                scope,
                instructions,
                schemas,
                canons(incoming, incoming.len() as int) + turn_items(text, calls),
            )
        }),
{
    let front = incoming + echo;
    assert(front.last() == echo.last());
    lemma_last_in_front(front, added, (front + added).len() as int);
    lemma_canons_front(front, added, front.len() as int);
    lemma_canons_cat(incoming, echo, echo.len() as int);
}

/// Items that are not rendered do not move the address.
pub proof fn law_unrendered_items_do_not_move_the_address(
    a: Seq<InputItem>,
    skipped: InputItem,
    b: Seq<InputItem>,
)
    requires
        canon_of(skipped) is None,
    ensures
        canons(a.push(skipped) + b, a.len() as int + 1 + b.len()) == canons(
            a + b,
            a.len() as int + b.len(),
        ),
{
    lemma_canons_cat(a.push(skipped), b, b.len() as int);
    lemma_canons_cat(a, b, b.len() as int);
    assert(a.push(skipped) =~= a + seq![skipped]);
    lemma_canons_cat(a, seq![skipped], 1);
    assert(canons(seq![skipped], 1) == canons(seq![skipped], 0));
    assert(canons(a, a.len() as int) + Seq::<CanonView>::empty() =~= canons(a, a.len() as int));
}

proof fn lemma_canons_prefix(a: Seq<InputItem>, b: Seq<InputItem>, n: int)
    requires
        n <= a.len(),
        n <= b.len(),
        forall|i: int| 0 <= i < n ==> a[i] == b[i],
    ensures
        canons(a, n) == canons(b, n),
    decreases n,
{
    if n > 0 {
        lemma_canons_prefix(a, b, n - 1);
    }
}

/// What an address is made of are the items in order: a message by its role and
/// text, a call by its id, name and arguments, a result by its call's id and text;
/// any other item adds nothing.
pub proof fn law_every_item_has_its_form(items: Seq<InputItem>, x: InputItem)
    ensures
        canons(Seq::empty(), 0).len() == 0,
        ({
            let all = canons(items.push(x), items.len() as int + 1);
            let known = canons(items, items.len() as int);
            match x {
                InputItem::Message(m) => all == known.push(
                    CanonView::Msg { role: role_text(m.role), text: m.content.said() },
                ),
                InputItem::FunctionCall(c) => all == known.push(
                    CanonView::Call { id: c.call_id@, name: c.name@, args: c.arguments@ },
                ),
                InputItem::FunctionCallOutput(o) => all == known.push(
                    CanonView::CallOutput { id: o.call_id@, text: o.said() },
                ),
                _ => all == known,
            }
        }),
{
    lemma_canons_prefix(items.push(x), items, items.len() as int);
}

/// A snapshot's name holds its scope, and what it hashes moves with the
/// instructions, with the last schema and with every further item.
pub proof fn law_a_name_covers_its_conversation(
    scope: Seq<char>,
    a: Seq<char>,
    b: Seq<char>,
    schemas: Seq<Seq<char>>,
    items: Seq<CanonView>,
    x: CanonView,
)
    ensures
        name_of(scope, Some(a), schemas, items) == "codex/"@ + scope + "/"@ + address_text(
            address_key(instruction_bytes(Some(a)), schemas, items),
        ),
        a != b ==> address_key(instruction_bytes(Some(a)), schemas, items) != address_key(
            instruction_bytes(Some(b)),
            schemas,
            items,
        ),
        a.len() > 0 ==> address_key(instruction_bytes(Some(a)), schemas, items) != address_key(
            instruction_bytes(None),
            schemas,
            items,
        ),
        a != b ==> address_key(instruction_bytes(None), schemas.push(a), items) != address_key(
            instruction_bytes(None),
            schemas.push(b),
            items,
        ),
        address_key(instruction_bytes(Some(a)), schemas, items.push(x)) == address_key(
            instruction_bytes(Some(a)),
            schemas,
            items,
        ) + item_bytes(x),
{
    if a != b && instruction_bytes(Some(a)) == instruction_bytes(Some(b)) {
        lemma_encoded_alike(a, b);
    }
    if a.len() > 0 && instruction_bytes(Some(a)) == instruction_bytes(None) {
        assert(encode_utf8(Seq::<char>::empty()) =~= Seq::<u8>::empty());
        lemma_encoded_alike(a, Seq::empty());
    }
    law_an_address_covers_header_schemas_and_items(
        instruction_bytes(Some(a)),
        instruction_bytes(Some(b)),
        schemas,
        a,
        b,
        items,
        x,
        x,
    );
    law_an_address_covers_header_schemas_and_items(
        instruction_bytes(Some(a)),
        instruction_bytes(None),
        schemas,
        a,
        b,
        items,
        x,
        x,
    );
    law_an_address_covers_header_schemas_and_items(
        instruction_bytes(None),
        instruction_bytes(None),
        schemas,
        a,
        b,
        items,
        x,
        x,
    );
}

/// The last produced item is a call or an assistant's message, and none stands
/// behind it; there is none only where no item is one.
pub proof fn law_the_last_produced_is_the_last(items: Seq<InputItem>, n: int)
    requires
        0 <= n <= items.len(),
    ensures
        match last_produced(items, n) {
            Some(i) => 0 <= i < n && (items[i] is FunctionCall || (items[i] is Message
                && items[i]->Message_0.role == Role::Assistant)) && forall|k: int|
                i < k < n ==> !produced(#[trigger] items[k]),
            None => forall|k: int| 0 <= k < n ==> !produced(#[trigger] items[k]),
        },
    decreases n,
{
    if n > 0 && !produced(items[n - 1]) {
        law_the_last_produced_is_the_last(items, n - 1);
    }
}

/// The items of a produced turn are its text, where it has any, as an assistant's
/// message, and behind it each call as it was told.
pub proof fn law_a_turn_is_text_and_calls(text: Seq<char>, calls: Seq<CallOut>, k: int)
    ensures
        ({
            let n = if text.len() > 0 {
                1int
            } else {
                0
            };
            &&& turn_items(text, calls).len() == n + calls.len()
            &&& n == 1 ==> turn_items(text, calls)[0] == CanonView::Msg {
                role: role_text(Role::Assistant),
                text,
            }
            &&& 0 <= k < calls.len() ==> turn_items(text, calls)[n + k] == CanonView::Call {
                id: calls[k].0,
                name: calls[k].1,
                args: calls[k].2,
            }
        }),
{
}

} // verus!
