//! The visible-text filter, leading and trailing reasoning, and special-token
//! sanitization.

use vstd::prelude::*;
use vstd::string::*;
use vstd::utf8::{decode_utf8, valid_utf8};

use crate::markup::{fed, finished, fresh_filter, FilterView, MarkupFilter};
use crate::serving::types::{
    calls_view, messages_view, opt_view, parts_view, CallView, ChatMessage, ContentPart,
    texts, ContentView, MessageContent, MessageView, ToolCallFunction, ToolCallIn,
};
use crate::text::{
    chars_of, contains, decoded, find, first_at, holds, law_a_search_finds_the_first_place,
    law_a_search_from_the_end_finds_the_last_place, lemma_find_from, lemma_rfind_below, none_from,
    occurs_at, remove_all, rfind,
    rsearch, search, skip_white, slice_of, string_of, tail_all, trim, trim_start, without,
    drop_white,
};

verus! {

/// Suppresses reasoning and tool-call blocks in a stream, and drops closers
/// that close nothing: a model whose template opens the block in the prompt
/// emits only the closer, and the tag is no content.
pub struct VisibleFilter {
    inner: MarkupFilter,
}

impl View for VisibleFilter {
    type V = FilterView;

    closed spec fn view(&self) -> FilterView {
        self.inner@
    }
}

impl Default for VisibleFilter {
    fn default() -> (r: Self)
        ensures
            r@ == fresh_filter(),
    {
        VisibleFilter::new()
    }
}

impl VisibleFilter {
    /// A filter that has seen nothing.
    pub fn new() -> (r: VisibleFilter)
        ensures
            r@ == fresh_filter(),
    {
        VisibleFilter { inner: MarkupFilter::new() }
    }

    /// Feeds a decoded chunk; answers the newly visible text, which is empty
    /// while a partial marker is undecided.
    pub fn feed(&mut self, delta: &str) -> (r: String)
        ensures
            (final(self)@, r@) == fed(old(self)@, delta@, 4),
    {
        self.inner.feed(delta, 4)
    }

    /// Shows what is held back at the end of the stream.
    pub fn finish(&mut self) -> (r: String)
        ensures
            (final(self)@, r@) == finished(old(self)@),
    {
        self.inner.finish()
    }
}

/// A text without a reasoning preamble that is closed but never opened: behind
/// the first closer, where no opener stands before it.
pub open spec fn cut_reasoning(text: Seq<char>) -> Seq<char> {
    match find(text, "</think>"@) {
        None => text,
        Some(close) => match find(text, "<think>"@) {
            Some(open) => if open < close {
                text
            } else {
                trim_start(text.skip(close + "</think>"@.len()))
            },
            None => trim_start(text.skip(close + "</think>"@.len())),
        },
    }
}

/// Drops a leading reasoning preamble that the model closed but never opened.
/// Only the first closer counts, and only where no opener precedes it: past
/// that a closer is a literal the model wrote. Callable only where nothing has
/// been sent yet.
pub fn cut_leading_reasoning(text: &str) -> (r: &str)
    ensures
        r@ == cut_reasoning(text@),
{
    let s = chars_of(text);
    let closer = chars_of("</think>");
    let opener = chars_of("<think>");
    proof {
        lemma_find_from(s@, closer@, 0);
        reveal_strlit("</think>");
    }
    match search(s.as_slice(), closer.as_slice(), 0) {
        None => text,
        Some(close) => {
            let opened = match search(s.as_slice(), opener.as_slice(), 0) {
                Some(open) => open < close,
                None => false,
            };
            if opened {
                return text;
            }
            assert(close + closer.len() <= s.len());
            let from = skip_white(s.as_slice(), close + closer.len());
            let n = s.len();
            proof {
                assert(text@.subrange(from as int, n as int) =~= s@.skip(from as int));
            }
            text.substring_char(from, n)
        },
    }
}

/// Without a closer there is nothing to cut: the text stays as it is.
pub proof fn law_cutting_is_identity_without_a_closer(text: Seq<char>)
    requires
        !contains(text, "</think>"@),
    ensures
        cut_reasoning(text) == text,
{
}

/// What a raw generation says behind its reasoning: the text behind the last
/// closer, none where a block is still open in it or it is blank.
pub open spec fn answer_of(raw: Seq<char>) -> Option<Seq<char>> {
    let rest = match rfind(raw, "</think>"@) {
        Some(i) => raw.skip(i + "</think>"@.len()),
        None => raw,
    };
    let t = trim(rest);
    if contains(rest, "<think>"@) || t.len() == 0 {
        None
    } else {
        Some(t)
    }
}

/// What a raw generation says behind its reasoning, trimmed. An unterminated
/// block is no answer at all.
pub fn answer_after_reasoning(raw: &str) -> (r: Option<&str>)
    ensures
        match r {
            Some(s) => answer_of(raw@) == Some(s@),
            None => answer_of(raw@) is None,
        },
{
    let s = chars_of(raw);
    let closer = chars_of("</think>");
    let opener = chars_of("<think>");
    proof {
        lemma_rfind_below(s@, closer@, s@.len() as int + 1);
    }
    let start: usize = match rsearch(s.as_slice(), closer.as_slice()) {
        Some(i) => {
            assert(i + closer.len() <= s.len());
            i + closer.len()
        },
        None => 0,
    };
    let rest = slice_of(s.as_slice(), start, s.len());
    proof {
        assert(rest@ =~= s@.skip(start as int));
        assert(s@.skip(0) =~= s@);
    }
    if holds(rest.as_slice(), opener.as_slice()) {
        return None;
    }
    let from = skip_white(s.as_slice(), start);
    let to = drop_white(s.as_slice(), from, s.len());
    proof {
        assert(s@.subrange(from as int, s@.len() as int) =~= s@.skip(from as int));
    }
    if from == to {
        return None;
    }
    Some(raw.substring_char(from, to))
}

// ---------------------------------------------------------------------------
// Sanitization
// ---------------------------------------------------------------------------

/// The texts that byte strings encode, in order, but for those that are empty or
/// not UTF-8.
pub open spec fn written(v: Seq<Vec<u8>>) -> Seq<Seq<char>>
    decreases v.len(),
{
    if v.len() == 0 {
        Seq::empty()
    } else if v.last()@.len() > 0 && valid_utf8(v.last()@) {
        written(v.drop_last()).push(decode_utf8(v.last()@))
    } else {
        written(v.drop_last())
    }
}

/// The special-token strings of a tokenizer, of the bytes of its special tokens:
/// those that are text, and not empty.
pub fn special_strings(seqs: &[Vec<u8>]) -> (r: Vec<String>)
    ensures
        texts(r@) == written(seqs@),
{
    let mut r: Vec<String> = Vec::new();
    let mut i: usize = 0;
    proof {
        assert(texts(r@) =~= written(seqs@.take(0)));
    }
    while i < seqs.len()
        invariant
            i <= seqs@.len(),
            texts(r@) == written(seqs@.take(i as int)),
        decreases seqs.len() - i,
    {
        let ghost before = r@;
        let bytes = seqs[i].clone();
        proof {
            assert(bytes@ =~= seqs@[i as int]@);
            assert(seqs@.take(i + 1).drop_last() =~= seqs@.take(i as int));
        }
        if bytes.len() > 0 {
            match decoded(bytes) {
                Some(s) => {
                    r.push(s);
                    proof {
                        assert(texts(r@) =~= texts(before).push(s@));
                    }
                },
                None => {},
            }
        }
        i += 1;
    }
    proof {
        assert(seqs@.take(seqs@.len() as int) =~= seqs@);
    }
    r
}

/// `s` with each of the first `n` special strings removed, in order.
pub open spec fn clean(s: Seq<char>, specials: Seq<String>, n: int) -> Seq<char>
    decreases n,
{
    if n <= 0 {
        s
    } else {
        remove_all(clean(s, specials, n - 1), specials[n - 1]@)
    }
}

/// `s` with every special string removed, over and over: what stands around a
/// removed one may make another.
pub open spec fn cleaned(s: Seq<char>, specials: Seq<String>) -> Seq<char>
    decreases s.len(),
{
    let once = clean(s, specials, specials.len() as int);
    if once.len() < s.len() {
        cleaned(once, specials)
    } else {
        once
    }
}

/// No special string stands in `s`.
pub open spec fn free_of(s: Seq<char>, specials: Seq<String>) -> bool {
    forall|k: int|
        0 <= k < specials.len() && (#[trigger] specials[k])@.len() > 0 ==> !contains(
            s,
            specials[k]@,
        )
}

/// No special string stands in the content of a message, nor in the name or the
/// arguments of a call.
pub open spec fn message_free_of(m: MessageView, specials: Seq<String>) -> bool {
    &&& match m.content {
        Some(ContentView::Text(s)) => free_of(s, specials),
        Some(ContentView::Parts(p)) => forall|i: int|
            0 <= i < p.len() ==> free_of((#[trigger] p[i]).1, specials),
        None => true,
    }
    &&& forall|i: int|
        0 <= i < m.calls.len() ==> free_of((#[trigger] m.calls[i]).name, specials) && free_of(
            m.calls[i].arguments,
            specials,
        )
}

proof fn lemma_remove_all(s: Seq<char>, pat: Seq<char>)
    ensures
        remove_all(s, pat).len() <= s.len(),
        pat.len() > 0 && remove_all(s, pat).len() == s.len() ==> !contains(s, pat) && remove_all(
            s,
            pat,
        ) == s,
    decreases s.len(),
{
    if pat.len() > 0 {
        lemma_find_from(s, pat, 0);
        if let Some(i) = find(s, pat) {
            lemma_remove_all(s.skip(i + pat.len()), pat);
        }
    }
}

proof fn lemma_clean(s: Seq<char>, specials: Seq<String>, n: int)
    requires
        0 <= n <= specials.len(),
    ensures
        clean(s, specials, n).len() <= s.len(),
        clean(s, specials, n).len() == s.len() ==> clean(s, specials, n) == s && forall|k: int|
            0 <= k < n && (#[trigger] specials[k])@.len() > 0 ==> !contains(s, specials[k]@),
    decreases n,
{
    if n > 0 {
        lemma_clean(s, specials, n - 1);
        lemma_remove_all(clean(s, specials, n - 1), specials[n - 1]@);
    }
}

/// A cleaned text is free of special strings.
proof fn lemma_cleaned(s: Seq<char>, specials: Seq<String>)
    ensures
        free_of(cleaned(s, specials), specials),
    decreases s.len(),
{
    let once = clean(s, specials, specials.len() as int);
    lemma_clean(s, specials, specials.len() as int);
    if once.len() < s.len() {
        lemma_cleaned(once, specials);
    }
}

proof fn lemma_message_cleaned(m: MessageView, specials: Seq<String>)
    ensures
        message_free_of(clean_message(m, specials), specials),
{
    let c = clean_message(m, specials);
    match m.content {
        Some(ContentView::Text(s)) => lemma_cleaned(s, specials),
        Some(ContentView::Parts(p)) => {
            let q = c.content->Some_0->Parts_0;
            assert forall|i: int| 0 <= i < q.len() implies free_of((#[trigger] q[i]).1, specials) by {
                lemma_cleaned(p[i].1, specials);
            }
        },
        None => {},
    }
    assert forall|i: int| 0 <= i < c.calls.len() implies free_of(
        (#[trigger] c.calls[i]).name,
        specials,
    ) && free_of(c.calls[i].arguments, specials) by {
        lemma_cleaned(m.calls[i].name, specials);
        lemma_cleaned(m.calls[i].arguments, specials);
    }
}

/// Cleaned message content.
pub open spec fn clean_content(c: ContentView, specials: Seq<String>) -> ContentView {
    match c {
        ContentView::Text(s) => ContentView::Text(cleaned(s, specials)),
        ContentView::Parts(p) => ContentView::Parts(
            Seq::new(p.len(), |i: int| (p[i].0, cleaned(p[i].1, specials))),
        ),
    }
}

/// Cleaned tool calls: names and arguments, not ids.
pub open spec fn clean_calls(c: Seq<CallView>, specials: Seq<String>) -> Seq<CallView> {
    Seq::new(
        c.len(),
        |i: int|
            CallView {
                id: c[i].id,
                name: cleaned(c[i].name, specials),
                arguments: cleaned(c[i].arguments, specials),
            },
    )
}

/// A cleaned message: content, call names and call arguments.
pub open spec fn clean_message(m: MessageView, specials: Seq<String>) -> MessageView {
    MessageView {
        role: m.role,
        content: match m.content {
            Some(c) => Some(clean_content(c, specials)),
            None => None,
        },
        calls: clean_calls(m.calls, specials),
        call_id: m.call_id,
        reasoning: m.reasoning,
    }
}

fn clean_once(s: &[char], specials: &[String]) -> (r: Vec<char>)
    ensures
        r@ == clean(s@, specials@, specials@.len() as int),
{
    let mut cur = tail_all(s);
    let mut i: usize = 0;
    while i < specials.len()
        invariant
            i <= specials@.len(),
            cur@ == clean(s@, specials@, i as int),
        decreases specials.len() - i,
    {
        let pat = chars_of(specials[i].as_str());
        cur = without(cur.as_slice(), pat.as_slice());
        i += 1;
    }
    cur
}

fn clean_text(s: &str, specials: &[String]) -> (r: String)
    ensures
        r@ == cleaned(s@, specials@),
{
    let mut cur = chars_of(s);
    loop
        invariant
            cleaned(s@, specials@) == cleaned(cur@, specials@),
        decreases cur@.len(),
    {
        let once = clean_once(cur.as_slice(), specials);
        if once.len() >= cur.len() {
            return string_of(once.as_slice());
        }
        cur = once;
    }
}

fn clean_content_of(c: &MessageContent, specials: &[String]) -> (r: MessageContent)
    ensures
        r@ == clean_content(c@, specials@),
{
    match c {
        MessageContent::Text(s) => MessageContent::Text(clean_text(s.as_str(), specials)),
        MessageContent::Parts(p) => {
            let mut out: Vec<ContentPart> = Vec::new();
            let mut i: usize = 0;
            while i < p.len()
                invariant
                    i <= p@.len(),
                    out@.len() == i,
                    forall|j: int|
                        0 <= j < i ==> (#[trigger] out@[j]).part_type@ == p@[j].part_type@
                            && out@[j].text@ == cleaned(p@[j].text@, specials@),
                decreases p.len() - i,
            {
                out.push(
                    ContentPart {
                        part_type: p[i].part_type.clone(),
                        text: clean_text(p[i].text.as_str(), specials),
                    },
                );
                i += 1;
            }
            proof {
                let v = parts_view(p@);
                assert(parts_view(out@) =~= Seq::new(
                    v.len(),
                    |i: int| (v[i].0, cleaned(v[i].1, specials@)),
                ));
            }
            MessageContent::Parts(out)
        },
    }
}

fn clean_calls_of(c: &[ToolCallIn], specials: &[String]) -> (r: Vec<ToolCallIn>)
    ensures
        calls_view(r@) == clean_calls(calls_view(c@), specials@),
{
    let mut out: Vec<ToolCallIn> = Vec::new();
    let mut i: usize = 0;
    while i < c.len()
        invariant
            i <= c@.len(),
            out@.len() == i,
            forall|j: int|
                0 <= j < i ==> (#[trigger] out@[j])@ == (CallView {
                    id: c@[j].id@,
                    name: cleaned(c@[j].function.name@, specials@),
                    arguments: cleaned(c@[j].function.arguments@, specials@),
                }),
        decreases c.len() - i,
    {
        out.push(
            ToolCallIn {
                id: c[i].id.clone(),
                function: ToolCallFunction {
                    name: clean_text(c[i].function.name.as_str(), specials),
                    arguments: clean_text(c[i].function.arguments.as_str(), specials),
                },
            },
        );
        i += 1;
    }
    proof {
        assert(calls_view(out@) =~= clean_calls(calls_view(c@), specials@));
    }
    out
}

fn copy_opt(s: &Option<String>) -> (r: Option<String>)
    ensures
        opt_view(r) == opt_view(*s),
{
    match s {
        Some(x) => Some(x.clone()),
        None => None,
    }
}

fn clean_message_of(m: &ChatMessage, specials: &[String]) -> (r: ChatMessage)
    ensures
        r@ == clean_message(m@, specials@),
{
    let content = match &m.content {
        Some(c) => Some(clean_content_of(c, specials)),
        None => None,
    };
    let tool_calls = match &m.tool_calls {
        Some(c) => Some(clean_calls_of(c.as_slice(), specials)),
        None => None,
    };
    let r = ChatMessage {
        role: m.role.clone(),
        content,
        tool_calls,
        tool_call_id: copy_opt(&m.tool_call_id),
        reasoning_content: copy_opt(&m.reasoning_content),
    };
    proof {
        if m.tool_calls is None {
            assert(clean_calls(Seq::empty(), specials@) =~= Seq::empty());
        }
        assert(r@.calls =~= clean_message(m@, specials@).calls);
    }
    r
}

/// Strips special-token strings out of message content, call names and call
/// arguments: encoding maps such a literal back to the real token, so
/// replaying it would plant fake turn boundaries. Runs before both rendering
/// and addressing.
pub fn sanitize_messages(messages: &mut Vec<ChatMessage>, specials: &[String])
    ensures
        messages_view(final(messages)@) == Seq::new(
            old(messages)@.len(),
            |i: int| clean_message(old(messages)@[i]@, specials@),
        ),
        forall|i: int|
            0 <= i < final(messages)@.len() ==> message_free_of(
                (#[trigger] final(messages)@[i])@,
                specials@,
            ),
        specials@.len() == 0 ==> final(messages)@ == old(messages)@,
{
    proof {
        assert forall|m: MessageView| message_free_of(
            #[trigger] clean_message(m, specials@),
            specials@,
        ) by {
            lemma_message_cleaned(m, specials@);
        }
    }
    if specials.len() == 0 {
        proof {
            assert forall|i: int| 0 <= i < messages@.len() implies messages@[i]@ == clean_message(
                messages@[i]@,
                specials@,
            ) by {
                lemma_clean_with_nothing(messages@[i]@, specials@);
            }
            assert(messages_view(messages@) =~= Seq::new(
                messages@.len(),
                |i: int| clean_message(messages@[i]@, specials@),
            ));
        }
        return ;
    }
    let mut i: usize = 0;
    while i < messages.len()
        invariant
            i <= messages@.len(),
            messages@.len() == old(messages)@.len(),
            forall|m: MessageView|
                message_free_of(#[trigger] clean_message(m, specials@), specials@),
            forall|j: int|
                0 <= j < i ==> (#[trigger] messages@[j])@ == clean_message(
                    old(messages)@[j]@,
                    specials@,
                ),
            forall|j: int| i <= j < messages@.len() ==> messages@[j] == old(messages)@[j],
        decreases messages.len() - i,
    {
        let m = clean_message_of(&messages[i], specials);
        messages.set(i, m);
        i += 1;
    }
    proof {
        assert(messages_view(messages@) =~= Seq::new(
            old(messages)@.len(),
            |i: int| clean_message(old(messages)@[i]@, specials@),
        ));
    }
}

proof fn lemma_clean_with_nothing(m: MessageView, specials: Seq<String>)
    requires
        specials.len() == 0,
    ensures
        clean_message(m, specials) == m,
{
    assert(clean_calls(m.calls, specials) =~= m.calls);
    if let Some(ContentView::Parts(p)) = m.content {
        assert(Seq::new(p.len(), |i: int| (p[i].0, cleaned(p[i].1, specials))) =~= p);
    }
}

/// Leading reasoning is cut up to the first closer and the white space behind
/// it, where no block opens before it; any other text stays.
pub proof fn law_only_unopened_reasoning_is_cut(text: Seq<char>, close: int, open: int)
    ensures
        none_from(text, "</think>"@, 0) ==> cut_reasoning(text) == text,
        first_at(text, "</think>"@, 0, close) && (forall|k: int|
            0 <= k < close ==> !occurs_at(text, "<think>"@, k)) ==> cut_reasoning(text) == trim_start(
            text.skip(close + "</think>"@.len()),
        ),
        first_at(text, "</think>"@, 0, close) && 0 <= open < close && occurs_at(
            text,
            "<think>"@,
            open,
        ) ==> cut_reasoning(text) == text,
{
    law_a_search_finds_the_first_place(text, "</think>"@, 0, close);
    lemma_find_from(text, "<think>"@, 0);
}

/// An answer is what stands behind the last closer, without white space around
/// it; there is none where a block opens behind that closer or nothing is left.
pub proof fn law_an_answer_stands_behind_the_last_closer(raw: Seq<char>, close: int)
    ensures
        none_from(raw, "</think>"@, 0) && none_from(raw, "<think>"@, 0) && trim(raw).len() > 0
            ==> answer_of(raw) == Some(trim(raw)),
        none_from(raw, "</think>"@, 0) && (!none_from(raw, "<think>"@, 0) || trim(raw).len() == 0)
            ==> answer_of(raw) is None,
        0 <= close && occurs_at(raw, "</think>"@, close) && none_from(raw, "</think>"@, close + 1)
            ==> ({
            let rest = raw.skip(close + "</think>"@.len());
            &&& none_from(rest, "<think>"@, 0) && trim(rest).len() > 0 ==> answer_of(raw) == Some(
                trim(rest),
            )
            &&& !none_from(rest, "<think>"@, 0) || trim(rest).len() == 0 ==> answer_of(raw) is None
        }),
{
    law_a_search_from_the_end_finds_the_last_place(raw, "</think>"@, close);
    law_a_search_finds_the_first_place(raw, "<think>"@, 0, 0);
    law_a_search_finds_the_first_place(raw.skip(close + "</think>"@.len()), "<think>"@, 0, 0);
}

/// The special strings are the texts of the byte strings that have one, in
/// order: each that is UTF-8 and not empty adds its text.
pub proof fn law_readable_byte_strings_are_kept(v: Seq<Vec<u8>>, b: Vec<u8>)
    ensures
        written(Seq::empty()).len() == 0,
        b@.len() > 0 && valid_utf8(b@) ==> written(v.push(b)) == written(v).push(decode_utf8(b@)),
        b@.len() == 0 || !valid_utf8(b@) ==> written(v.push(b)) == written(v),
{
    assert(v.push(b).drop_last() =~= v);
}

proof fn lemma_clean_free(s: Seq<char>, specials: Seq<String>, n: int)
    requires
        free_of(s, specials),
        0 <= n <= specials.len(),
    ensures
        clean(s, specials, n) == s,
    decreases n,
{
    if n > 0 {
        lemma_clean_free(s, specials, n - 1);
        let pat = specials[n - 1]@;
        assert(pat.len() > 0 ==> !contains(s, pat));
    }
}

/// Cleaning leaves no special string in a text, and a text that holds none
/// stays as it is.
pub proof fn law_cleaning_takes_only_special_strings(s: Seq<char>, specials: Seq<String>)
    ensures
        free_of(cleaned(s, specials), specials),
        free_of(s, specials) ==> cleaned(s, specials) == s,
        cleaned(s, specials).len() <= s.len(),
{
    lemma_cleaned(s, specials);
    lemma_cleaned_len(s, specials);
    if free_of(s, specials) {
        lemma_clean_free(s, specials, specials.len() as int);
    }
}

proof fn lemma_cleaned_len(s: Seq<char>, specials: Seq<String>)
    ensures
        cleaned(s, specials).len() <= s.len(),
    decreases s.len(),
{
    let once = clean(s, specials, specials.len() as int);
    lemma_clean(s, specials, specials.len() as int);
    if once.len() < s.len() {
        lemma_cleaned_len(once, specials);
    }
}

/// Cleaning a message changes nothing but its texts: who speaks, what a call is
/// referred to by, what kind each part is and the reasoning stay, and a message
/// without a special string stays whole.
pub proof fn law_a_cleaned_message_keeps_its_shape(m: MessageView, specials: Seq<String>)
    ensures
        ({
            let c = clean_message(m, specials);
            &&& c.role == m.role && c.call_id == m.call_id && c.reasoning == m.reasoning
            &&& c.calls.len() == m.calls.len()
            &&& forall|i: int| 0 <= i < m.calls.len() ==> (#[trigger] c.calls[i]).id == m.calls[i].id
            &&& m.content is None <==> c.content is None
            &&& m.content matches Some(ContentView::Parts(p)) ==> c.content matches Some(
                ContentView::Parts(q),
            ) && q.len() == p.len() && forall|i: int|
                0 <= i < p.len() ==> (#[trigger] q[i]).0 == p[i].0
            &&& message_free_of(c, specials)
            &&& message_free_of(m, specials) ==> c == m
        }),
{
    lemma_message_cleaned(m, specials);
    let c = clean_message(m, specials);
    if message_free_of(m, specials) {
        match m.content {
            Some(ContentView::Text(s)) => {
                law_cleaning_takes_only_special_strings(s, specials);
            },
            Some(ContentView::Parts(p)) => {
                assert forall|i: int| 0 <= i < p.len() implies cleaned(p[i].1, specials)
                    == #[trigger] p[i].1 by {
                    law_cleaning_takes_only_special_strings(p[i].1, specials);
                }
                assert(c.content->0->Parts_0 =~= p);
            },
            None => {},
        }
        assert forall|i: int| 0 <= i < m.calls.len() implies #[trigger] c.calls[i] == m.calls[i] by {
            law_cleaning_takes_only_special_strings(m.calls[i].name, specials);
            law_cleaning_takes_only_special_strings(m.calls[i].arguments, specials);
        }
        assert(c.calls =~= m.calls);
    }
}

} // verus!
