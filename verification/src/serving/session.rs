//! Content addresses of chat conversations, and where a follow-up request can
//! resume.
//!
//! A stateless client sends the whole conversation every turn. A turn's state
//! is kept under a hash of the message list that a follow-up would arrive
//! with; the follow-up strips its trailing messages, hashes the rest, and on a
//! hit pays only for what it stripped. A miss is always safe.

use vstd::prelude::*;
use vstd::string::*;

use crate::canon::{
    address, address_key, address_text, item_bytes, items_view,
    law_an_address_covers_header_schemas_and_items, CanonView,
};
use crate::serving::types::{
    calls_view, message_text, messages_view, texts, CallView, ChatMessage, ContentView,
    MessageView,
};
use crate::text::same;

pub use crate::canon::CanonItem;

verus! {

/// The item of a tool call.
pub open spec fn call_item(c: CallView) -> CanonView {
    CanonView::Call { id: c.id, name: c.name, args: c.arguments }
}

/// The canonical items of an assistant turn: its text where it has any, then
/// its calls.
pub open spec fn assistant_items(text: Seq<char>, calls: Seq<CallView>) -> Seq<CanonView> {
    (if text.len() == 0 {
        Seq::empty()
    } else {
        seq![CanonView::Msg { role: "assistant"@, text }]
    }) + Seq::new(calls.len(), |i: int| call_item(calls[i]))
}

/// The canonical items of one message.
pub open spec fn canon_of(m: MessageView) -> Seq<CanonView> {
    if m.role == "tool"@ {
        seq![
            CanonView::CallOutput {
                id: match m.call_id {
                    Some(i) => i,
                    None => Seq::empty(),
                },
                text: message_text(m),
            },
        ]
    } else if m.role == "assistant"@ {
        assistant_items(message_text(m), m.calls)
    } else {
        seq![CanonView::Msg { role: m.role, text: message_text(m) }]
    }
}

/// The canonical items of the first `n` messages.
pub open spec fn canon(m: Seq<MessageView>, n: int) -> Seq<CanonView>
    decreases n,
{
    if n <= 0 {
        Seq::empty()
    } else {
        canon(m, n - 1) + canon_of(m[n - 1])
    }
}

fn push_message(out: &mut Vec<CanonItem>, m: &ChatMessage)
    ensures
        items_view(final(out)@) == items_view(old(out)@) + canon_of(m@),
{
    if same(m.role.as_str(), "tool") {
        let id = match &m.tool_call_id {
            Some(i) => i.clone(),
            None => String::new(),
        };
        let text = m.text();
        out.push(CanonItem::CallOutput { id, text });
    } else if same(m.role.as_str(), "assistant") {
        let text = m.text();
        let ghost t = text@;
        let ghost base = items_view(out@);
        if !text.as_str().is_empty() {
            out.push(CanonItem::Msg { role: "assistant".to_owned(), text });
        }
        let ghost head = if t.len() == 0 {
            Seq::<CanonView>::empty()
        } else {
            seq![CanonView::Msg { role: "assistant"@, text: t }]
        };
        let calls = m.calls();
        let ghost cv = m@.calls;
        let mut k: usize = 0;
        proof {
            assert(items_view(out@) =~= base + head + Seq::new(0, |i: int| call_item(cv[i])));
        }
        while k < calls.len()
            invariant
                k <= calls@.len(),
                cv == calls_view(calls@),
                items_view(out@) == base + head + Seq::new(k as nat, |i: int| call_item(cv[i])),
            decreases calls.len() - k,
        {
            let ghost before = out@;
            out.push(
                CanonItem::Call {
                    id: calls[k].id.clone(),
                    name: calls[k].function.name.clone(),
                    args: calls[k].function.arguments.clone(),
                },
            );
            proof {
                assert(cv[k as int] == calls@[k as int]@);
                assert(out@.last()@ == call_item(cv[k as int]));
                assert(items_view(out@) =~= items_view(before).push(call_item(cv[k as int])));
                assert(items_view(out@) =~= base + head + Seq::new(
                    (k + 1) as nat,
                    |i: int| call_item(cv[i]),
                ));
            }
            k += 1;
        }
        proof {
            assert(items_view(out@) =~= base + canon_of(m@));
        }
    } else {
        let text = m.text();
        out.push(CanonItem::Msg { role: m.role.clone(), text });
    }
    proof {
        assert(items_view(out@) =~= items_view(old(out)@) + canon_of(m@));
    }
}

/// The canonical items of a message list. An assistant turn expands to its
/// text, if it has any, and one item per call.
pub fn canon_messages(messages: &[ChatMessage]) -> (r: Vec<CanonItem>)
    ensures
        items_view(r@) == canon(messages_view(messages@), messages@.len() as int),
{
    let ghost view = messages_view(messages@);
    let mut out: Vec<CanonItem> = Vec::new();
    let mut i: usize = 0;
    proof {
        assert(items_view(out@) =~= Seq::empty());
    }
    while i < messages.len()
        invariant
            i <= messages@.len(),
            view == messages_view(messages@),
            items_view(out@) == canon(view, i as int),
        decreases messages.len() - i,
    {
        push_message(&mut out, &messages[i]);
        i += 1;
    }
    out
}

/// The one header byte of a chat address: the thinking channel.
pub open spec fn channel(no_think: bool) -> Seq<u8> {
    seq![if no_think { 1u8 } else { 0u8 }]
}

/// The address of a conversation.
pub open spec fn chat_address(
    schemas: Seq<Seq<char>>,
    no_think: bool,
    items: Seq<CanonView>,
) -> Seq<char> {
    address_text(address_key(channel(no_think), schemas, items))
}

/// The 32 hexadecimal digits that a conversation is kept under. Schemas and
/// the thinking channel are rendered, so a change of either moves the address.
pub fn snapshot_address(tool_schemas: &[String], no_think: bool, items: &[CanonItem]) -> (r: String)
    ensures
        r@ == chat_address(texts(tool_schemas@), no_think, items_view(items@)),
        r@.len() == 32,
{
    let flag: u8 = if no_think {
        1
    } else {
        0
    };
    let header: [u8; 1] = [flag];
    proof {
        assert(header@ =~= channel(no_think));
    }
    address(&header, tool_schemas, items)
}

/// The position of the last assistant turn among the first `n` messages.
pub open spec fn last_assistant(m: Seq<MessageView>, n: int) -> Option<int>
    decreases n,
{
    if n <= 0 {
        None
    } else if m[n - 1].role == "assistant"@ {
        Some(n - 1)
    } else {
        last_assistant(m, n - 1)
    }
}

/// Splits before the last assistant turn: what stands before it is rendered
/// history only, and the suffix begins with the turn the server produced.
/// `None` on a first turn.
pub fn split_retain_point(messages: &[ChatMessage]) -> (r: Option<usize>)
    ensures
        match r {
            Some(i) => last_assistant(messages_view(messages@), messages@.len() as int) == Some(
                i as int,
            ) && i < messages@.len(),
            None => last_assistant(messages_view(messages@), messages@.len() as int) is None,
        },
{
    let ghost view = messages_view(messages@);
    let mut n: usize = messages.len();
    while n > 0
        invariant
            n <= messages@.len(),
            view == messages_view(messages@),
            last_assistant(view, messages@.len() as int) == last_assistant(view, n as int),
        decreases n,
    {
        if same(messages[n - 1].role.as_str(), "assistant") {
            return Some(n - 1);
        }
        n -= 1;
    }
    None
}

/// Splits behind the last assistant turn: everything up to it can have been
/// kept by the previous request. `None` on a first turn.
pub fn split_resume_point(messages: &[ChatMessage]) -> (r: Option<usize>)
    ensures
        match r {
            Some(i) => last_assistant(messages_view(messages@), messages@.len() as int) == Some(
                i - 1,
            ) && 0 < i <= messages@.len(),
            None => last_assistant(messages_view(messages@), messages@.len() as int) is None,
        },
{
    match split_retain_point(messages) {
        Some(i) => {
            assert(i < messages.len());
            Some(i + 1)
        },
        None => None,
    }
}

// ---------------------------------------------------------------------------
// Laws
// ---------------------------------------------------------------------------

proof fn lemma_canon_cat(a: Seq<MessageView>, b: Seq<MessageView>, n: int)
    requires
        0 <= n <= a.len(),
    ensures
        canon(a + b, n) == canon(a, n),
    decreases n,
{
    if n > 0 {
        lemma_canon_cat(a, b, n - 1);
        assert((a + b)[n - 1] == a[n - 1]);
    }
}

/// Reasoning does not move the address: two messages that differ in it alone
/// have the same canonical items.
pub proof fn law_reasoning_does_not_move_the_address(
    m: MessageView,
    reasoning: Option<Seq<char>>,
)
    ensures
        canon_of(MessageView { reasoning, ..m }) == canon_of(m),
{
}

/// Content moves the address only by its text: a string and its parts, and
/// empty and absent content, are alike.
pub proof fn law_only_the_text_moves_the_address(m: MessageView, content: Option<ContentView>)
    requires
        message_text(MessageView { content, ..m }) == message_text(m),
    ensures
        canon_of(MessageView { content, ..m }) == canon_of(m),
{
}

/// What a turn is saved under is what its echo hashes to: the items of the
/// incoming messages followed by the items of the produced turn are the items
/// of the history that the client sends back, cut at its resume point.
pub proof fn law_the_save_address_is_the_echo_address(
    incoming: Seq<MessageView>,
    echo: MessageView,
    added: Seq<MessageView>,
    schemas: Seq<Seq<char>>,
    no_think: bool,
)
    requires
        echo.role == "assistant"@,
        forall|i: int| 0 <= i < added.len() ==> (#[trigger] added[i]).role != "assistant"@,
    ensures
        ({
            let next = incoming.push(echo) + added;
            let saved = canon(incoming, incoming.len() as int) + assistant_items(
                message_text(echo),
                echo.calls,
            );
            &&& last_assistant(next, next.len() as int) == Some(incoming.len() as int)
            &&& chat_address(schemas, no_think, saved) == chat_address(
                schemas,
                no_think,
                canon(next, incoming.len() as int + 1),
            )
        }),
{
    reveal_strlit("assistant");
    reveal_strlit("tool");
    assert("assistant"@.len() == 9 && "tool"@.len() == 4);
    let front = incoming.push(echo);
    let next = front + added;
    lemma_last_in_front(front, added, next.len() as int);
    lemma_canon_cat(front, added, incoming.len() as int + 1);
    assert(front =~= incoming + seq![echo]);
    lemma_canon_cat(incoming, seq![echo], incoming.len() as int);
    assert(front[incoming.len() as int] == echo);
}

proof fn lemma_last_in_front(front: Seq<MessageView>, added: Seq<MessageView>, n: int)
    requires
        front.len() > 0,
        front.last().role == "assistant"@,
        forall|i: int| 0 <= i < added.len() ==> (#[trigger] added[i]).role != "assistant"@,
        front.len() <= n <= front.len() + added.len(),
    ensures
        last_assistant(front + added, n) == Some(front.len() - 1),
    decreases n,
{
    if n > front.len() {
        assert((front + added)[n - 1] == added[n - 1 - front.len()]);
        lemma_last_in_front(front, added, n - 1);
    } else {
        assert((front + added)[n - 1] == front.last());
    }
}

/// The retained prefix round-trips: what was sent is addressed by what a
/// follow-up that echoes and appends keeps before its last assistant turn.
pub proof fn law_the_retained_prefix_round_trips(
    sent: Seq<MessageView>,
    echo: MessageView,
    added: Seq<MessageView>,
    schemas: Seq<Seq<char>>,
    no_think: bool,
)
    requires
        echo.role == "assistant"@,
        forall|i: int| 0 <= i < added.len() ==> (#[trigger] added[i]).role != "assistant"@,
    ensures
        ({
            let next = sent.push(echo) + added;
            &&& last_assistant(next, next.len() as int) == Some(sent.len() as int)
            &&& chat_address(schemas, no_think, canon(sent, sent.len() as int)) == chat_address(
                schemas,
                no_think,
                canon(next, sent.len() as int),
            )
        }),
{
    let front = sent.push(echo);
    lemma_last_in_front(front, added, front.len() as int + added.len());
    assert(front + added =~= sent + (seq![echo] + added));
    lemma_canon_cat(sent, seq![echo] + added, sent.len() as int);
}

/// The canonical items of a conversation are those of its messages in order: a
/// tool's result under its call's id, an assistant's text where it has any and
/// then each of its calls, and any other message's text under its role.
pub proof fn law_every_message_has_its_items(m: Seq<MessageView>, x: MessageView, k: int)
    ensures
        canon(m.push(x), m.len() as int + 1) == canon(m, m.len() as int) + canon_of(x),
        x.role == "tool"@ ==> canon_of(x).len() == 1 && canon_of(x)[0] is CallOutput
            && canon_of(x)[0]->CallOutput_text == message_text(x) && (x.call_id matches Some(i)
            ==> canon_of(x)[0]->CallOutput_id == i),
        x.role == "assistant"@ ==> ({
            let n = if message_text(x).len() > 0 {
                1int
            } else {
                0
            };
            &&& canon_of(x).len() == n + x.calls.len()
            &&& n == 1 ==> canon_of(x)[0] == CanonView::Msg {
                role: "assistant"@,
                text: message_text(x),
            }
            &&& 0 <= k < x.calls.len() ==> canon_of(x)[n + k] == CanonView::Call {
                id: x.calls[k].id,
                name: x.calls[k].name,
                args: x.calls[k].arguments,
            }
        }),
        x.role != "tool"@ && x.role != "assistant"@ ==> canon_of(x) == seq![
            CanonView::Msg { role: x.role, text: message_text(x) },
        ],
{
    reveal_strlit("tool");
    reveal_strlit("assistant");
    assert("tool"@.len() == 4 && "assistant"@.len() == 9);
    lemma_canon_prefix(m.push(x), m, m.len() as int);
}

proof fn lemma_canon_prefix(s: Seq<MessageView>, t: Seq<MessageView>, n: int)
    requires
        n <= s.len(),
        n <= t.len(),
        forall|i: int| 0 <= i < n ==> s[i] == t[i],
    ensures
        canon(s, n) == canon(t, n),
    decreases n,
{
    if n > 0 {
        lemma_canon_prefix(s, t, n - 1);
    }
}

/// The thinking channel moves what is hashed, and so does every further item.
pub proof fn law_the_channel_moves_the_key(schemas: Seq<Seq<char>>, items: Seq<CanonView>, x: CanonView)
    ensures
        address_key(channel(true), schemas, items) != address_key(channel(false), schemas, items),
        address_key(channel(true), schemas, items.push(x)) == address_key(
            channel(true),
            schemas,
            items,
        ) + item_bytes(x),
        chat_address(schemas, true, items) == address_text(
            address_key(channel(true), schemas, items),
        ),
        chat_address(schemas, false, items) == address_text(
            address_key(channel(false), schemas, items),
        ),
{
    assert(channel(true)[0] != channel(false)[0]);
    law_an_address_covers_header_schemas_and_items(
        channel(true),
        channel(false),
        schemas,
        Seq::empty(),
        Seq::empty(),
        items,
        x,
        x,
    );
}

/// The last assistant turn is one, and none stands behind it; there is none only
/// where no message is an assistant's.
pub proof fn law_the_last_assistant_is_the_last(m: Seq<MessageView>, n: int)
    requires
        0 <= n <= m.len(),
    ensures
        match last_assistant(m, n) {
            Some(i) => 0 <= i < n && m[i].role == "assistant"@ && forall|k: int|
                i < k < n ==> (#[trigger] m[k]).role != "assistant"@,
            None => forall|k: int| 0 <= k < n ==> (#[trigger] m[k]).role != "assistant"@,
        },
    decreases n,
{
    if n > 0 && m[n - 1].role != "assistant"@ {
        law_the_last_assistant_is_the_last(m, n - 1);
    }
}

} // verus!
