//! What the parallel scheduler keeps: a branch is opened as its plan, plans and answers
//! are read as they are written, and no branch is lost in a join.

use vstd::prelude::*;
use vstd::string::*;
use vstd::utf8::{encode_utf8, is_ascii_chars, is_ascii_chars_encode_utf8};

use crate::npr::branch::{
    all_bytes, all_tokens, branch_step, extent, header_text, top_reason, BranchResult, BranchStep,
};
use crate::npr::join::{fits, next, sound, BlockView, JoinAskView, JoinEvent, JoinState, Stage};
use crate::npr::plans::{
    boxed, closing, is_digit, is_label, label_len, labels_from, plan_label, plan_labels,
};
use crate::npr::report::ends_a_guideline;
use crate::npr::schedule::{
    admissible, ends_with, exhausted, guideline_end, join_mode_of, step_end, tag_stop, JoinMode,
    Ledger, Limits, SegmentRules, Stop,
};
use crate::npr::vocab::{earliest, tag_text};
use crate::text::{
    law_trimming_the_end_drops_white_space, law_trimming_the_start_drops_white_space,
    lemma_find_from, lemma_rfind_below, lemma_trim_start_over, occurs_at, trim_start, white,
};

verus! {

// ---------------------------------------------------------------------------
// Branches
// ---------------------------------------------------------------------------

/// The header of a branch names its plan: between the opening of a step and a colon
/// stands the label, and nothing else. So branches of different plans start
/// differently.
pub proof fn law_a_header_names_its_plan(label: Seq<char>, other: Seq<char>)
    ensures
        header_text(label).len() == label.len() + 9,
        header_text(label).take(8) == "\n<step>\n"@,
        header_text(label).skip(8).drop_last() == label,
        header_text(label).last() == ':',
        label != other ==> header_text(label) != header_text(other),
{
    reveal_strlit("\n<step>\n");
    reveal_strlit(":");
    assert("\n<step>\n"@.len() == 8);
    assert(":"@.len() == 1 && ":"@[0] == ':');
    assert(header_text(label).take(8) =~= "\n<step>\n"@);
    assert(header_text(label).skip(8).drop_last() =~= label);
    assert(header_text(other).skip(8).drop_last() =~= other);
}

/// A branch is done where its step closed, forks where a guideline closed, and ends the
/// run otherwise; the run itself goes on only behind a guideline, and says why it ends.
pub proof fn law_a_stop_says_what_comes_next(a: Stop, b: Stop)
    ensures
        branch_step(a) == BranchStep::Done <==> a == Stop::StepEnd,
        branch_step(a) == BranchStep::Fork <==> a == Stop::GuidelineEnd,
        branch_step(a) == BranchStep::Terminal <==> a == Stop::Eos || a == Stop::Budget,
        top_reason(a) is None <==> a == Stop::GuidelineEnd,
        a != b ==> top_reason(a) != top_reason(b),
        a == Stop::Eos ==> top_reason(a) == Some("eos"@),
{
    reveal_strlit("step_end");
    reveal_strlit("eos");
    reveal_strlit("budget");
    assert("step_end"@.len() == 8 && "eos"@.len() == 3 && "budget"@.len() == 6);
}

/// No branch is lost in a join: behind the tokens of those before it stand its own,
/// whole; and the same of its bytes.
pub proof fn law_every_branch_is_joined(b: Seq<BranchResult>, n: int, i: int)
    requires
        0 <= i < n <= b.len(),
    ensures
        ({
            let a = all_tokens(b, i).len() as int;
            let t = b[i].tokens@;
            &&& all_tokens(b, 0).len() == 0
            &&& a + t.len() <= all_tokens(b, n).len()
            &&& all_tokens(b, n).subrange(a, (a + t.len()) as int) == t
            &&& all_tokens(b, i + 1).len() == a + t.len()
        }),
        ({
            let a = all_bytes(b, i).len() as int;
            let t = b[i].bytes@;
            &&& all_bytes(b, 0).len() == 0
            &&& a + t.len() <= all_bytes(b, n).len()
            &&& all_bytes(b, n).subrange(a, (a + t.len()) as int) == t
            &&& all_bytes(b, i + 1).len() == a + t.len()
        }),
    decreases n,
{
    let a = all_tokens(b, i).len() as int;
    let t = b[i].tokens@;
    let c = all_bytes(b, i).len() as int;
    let u = b[i].bytes@;
    if i < n - 1 {
        law_every_branch_is_joined(b, n - 1, i);
        assert(all_tokens(b, n).subrange(a, (a + t.len()) as int) =~= all_tokens(
            b,
            n - 1,
        ).subrange(a, (a + t.len()) as int));
        assert(all_bytes(b, n).subrange(c, (c + u.len()) as int) =~= all_bytes(b, n - 1).subrange(
            c,
            (c + u.len()) as int,
        ));
    } else {
        assert(all_tokens(b, n).subrange(a, (a + t.len()) as int) =~= t);
        assert(all_bytes(b, n).subrange(c, (c + u.len()) as int) =~= u);
    }
}

/// The extent of a block is the length of its longest branch: none is longer, and one
/// is as long.
pub proof fn law_the_extent_is_the_longest(b: Seq<BranchResult>, n: int)
    requires
        0 < n <= b.len(),
    ensures
        forall|i: int| 0 <= i < n ==> (#[trigger] b[i]).tokens@.len() <= extent(b, n),
        exists|i: int| 0 <= i < n && (#[trigger] b[i]).tokens@.len() == extent(b, n),
    decreases n,
{
    if n > 1 {
        law_the_extent_is_the_longest(b, n - 1);
        if b[n - 1].tokens@.len() <= extent(b, n - 1) {
            let i = choose|i: int|
                0 <= i < n - 1 && (#[trigger] b[i]).tokens@.len() == extent(b, n - 1);
            assert(b[i].tokens@.len() == extent(b, n));
        }
    } else {
        assert(extent(b, 0) == 0);
        assert(b[0].tokens@.len() == extent(b, 1));
    }
}

/// Siblings are brought in one after the other, in plan order: behind the release of
/// one comes the next, and behind the last the reduce stage, with the whole of its
/// opening.
pub proof fn law_siblings_come_in_plan_order(b: BlockView, v: JoinState)
    requires
        sound(b, v),
        v.stage == Stage::Releasing,
    ensures
        ({
            let (w, ask) = next(b, v, JoinEvent::Done);
            &&& w.at == v.at + 1
            &&& w.base == v.base
            &&& w.at < b.branches.len() ==> match ask {
                JoinAskView::Append(i) => i == w.at && b.mode == JoinMode::Textual,
                JoinAskView::Graft(i, n) => i == w.at && b.mode == JoinMode::Adopt,
                JoinAskView::Fill(i, p, rows) => i == w.at && b.mode != JoinMode::Textual && p.len()
                    == b.branches[i].tokens@.len() && rows.len() == p.len() && forall|k: int|
                    0 <= k < p.len() ==> #[trigger] p[k] == b.p_fork + k,
                _ => false,
            }
            &&& w.at == b.branches.len() ==> match ask {
                JoinAskView::Cue(t) => if b.mode == JoinMode::Textual {
                    t == b.takeaway
                } else {
                    b.takeaway.len() == 1 && t == b.takeaway
                },
                JoinAskView::Head(p, rows) => b.mode != JoinMode::Textual && p.len()
                    == b.takeaway.len() - 1 && forall|k: int|
                    0 <= k < p.len() ==> #[trigger] p[k] == b.p_fork + b.longest() + k,
                _ => false,
            }
        }),
{
    let (w, ask) = next(b, v, JoinEvent::Done);
    if w.at < b.branches.len() {
        crate::npr::branch::lemma_extent(b.branches, b.branches.len() as int, w.at as int);
    } else if b.takeaway.len() == 1 {
        assert(b.takeaway.skip(0) =~= b.takeaway);
    }
}

/// A sibling that is brought in is all there: the base grows by its tokens, whichever
/// way they come, and it is released next.
pub proof fn law_a_sibling_comes_whole(b: BlockView, v: JoinState, e: JoinEvent)
    requires
        sound(b, v),
        fits(v, e),
        v.stage == Stage::Filling || v.stage == Stage::Appending || v.stage == Stage::Tailing || (
        v.stage == Stage::Grafting && e is Grafted),
    ensures
        ({
            let (w, ask) = next(b, v, e);
            let grown = w.base.seq_len + w.base.buffered - v.base.seq_len - v.base.buffered;
            &&& w.at == v.at
            &&& v.stage == Stage::Filling || v.stage == Stage::Appending ==> ask
                == JoinAskView::Release(v.at as int) && grown
                == b.branches[v.at as int].tokens@.len()
            &&& v.stage == Stage::Tailing ==> ask == JoinAskView::Release(v.at as int) && grown
                == b.contexts[v.at as int].1
            &&& v.stage == Stage::Grafting ==> grown + b.contexts[v.at as int].1
                == b.branches[v.at as int].tokens@.len() && w.adopted == v.adopted + grown
            &&& v.stage == Stage::Grafting && b.contexts[v.at as int].1 == 0 ==> ask
                == JoinAskView::Release(v.at as int)
            &&& v.stage == Stage::Grafting && b.contexts[v.at as int].1 > 0 ==> ask is Tail
                && ask->Tail_0 == v.at && ask->Tail_1.len() == b.contexts[v.at as int].1
        }),
{
    crate::npr::join::law_a_join_stays_sound(b, v, e);
    crate::npr::join::lemma_rest(b, v.at + 1);
    assert(b.rest(v.at as int) == b.len_of(v.at as int) + b.rest(v.at + 1));
}

// ---------------------------------------------------------------------------
// Segments
// ---------------------------------------------------------------------------

proof fn lemma_tags_in_bytes()
    ensures
        guideline_end() == encode_utf8("</guideline>"@),
        step_end() == encode_utf8("</step>"@),
{
    reveal_strlit("</guideline>");
    reveal_strlit("</step>");
    let g = "</guideline>"@;
    let t = "</step>"@;
    assert(is_ascii_chars(g));
    assert(is_ascii_chars(t));
    is_ascii_chars_encode_utf8(g);
    is_ascii_chars_encode_utf8(t);
    assert(guideline_end() =~= encode_utf8(g));
    assert(step_end() =~= encode_utf8(t));
}

/// A segment stops exactly at a closing tag: behind a closed guideline whatever is
/// watched, behind a closed step where steps are watched.
pub proof fn law_a_segment_stops_at_its_tags(rules: SegmentRules, head: Seq<u8>, bytes: Seq<u8>)
    ensures
        tag_stop(rules, head + encode_utf8("</guideline>"@)) == Some(Stop::GuidelineEnd),
        rules.watch_step ==> tag_stop(rules, head + encode_utf8("</step>"@)) == Some(Stop::StepEnd),
        !rules.watch_step ==> tag_stop(rules, bytes) != Some(Stop::StepEnd),
        tag_stop(rules, bytes) == Some(Stop::StepEnd) ==> exists|h: Seq<u8>|
            bytes == #[trigger] (h + encode_utf8("</step>"@)),
        tag_stop(rules, bytes) is Some && tag_stop(rules, bytes)->0 != Stop::StepEnd ==> exists|
            h: Seq<u8>,
        |
            bytes == #[trigger] (h + encode_utf8("</guideline>"@)),
{
    lemma_tags_in_bytes();
    let g = guideline_end();
    let t = step_end();
    let a = head + g;
    assert(a.subrange(a.len() - g.len(), a.len() as int) =~= g);
    let b = head + t;
    assert(b.subrange(b.len() - t.len(), b.len() as int) =~= t);
    if ends_with(b, g) {
        let tail = b.subrange(b.len() - g.len(), b.len() as int);
        assert(tail[g.len() - 2] == b[b.len() - 2]);
        assert(b[b.len() - 2] == t[t.len() - 2]);
        assert(false);
    }
    if tag_stop(rules, bytes) is Some {
        let x = if tag_stop(rules, bytes)->0 == Stop::StepEnd {
            t
        } else {
            g
        };
        let h = bytes.take(bytes.len() - x.len());
        assert(bytes =~= h + x);
    }
}

/// A segment takes a token only where every limit leaves room: of the positions and of
/// the charge at least the margin is left, and the token cap is not reached; and where
/// they all leave room, it does.
pub proof fn law_a_segment_keeps_its_limits(rules: SegmentRules, l: Ledger, cur_pos: u32, tokens: nat)
    ensures
        !exhausted(rules, l, cur_pos, tokens) <==> {
            &&& 128 < l.budget
            &&& cur_pos <= l.prompt_end_pos || cur_pos - l.prompt_end_pos < l.budget - 128
            &&& rules.inherited + rules.own_before * rules.degree + tokens * rules.degree < l.budget - 128
            &&& rules.token_cap matches Some(cap) ==> tokens < cap
        },
{
    assert((rules.own_before + tokens) * rules.degree == rules.own_before * rules.degree + tokens
        * rules.degree) by (nonlinear_arith);
    assert(0 <= rules.own_before * rules.degree && 0 <= tokens * rules.degree) by (nonlinear_arith);
}

/// A guideline forks only into plans that the limits allow, and only where the
/// positions left can pay for it; the faithful joins do not nest. More plans, more
/// depth or more positions used never make a refused fork admissible.
pub proof fn law_forks_keep_the_limits(
    limits: Limits,
    l: Ledger,
    plans: nat,
    depth: usize,
    next_pos: u32,
)
    ensures
        admissible(limits, l, plans, depth, next_pos) ==> {
            &&& 1 <= plans <= limits.max_plans
            &&& limits.join_mode != JoinMode::Textual ==> depth <= 1
            &&& limits.join_mode == JoinMode::Textual ==> depth <= limits.max_depth
            &&& next_pos <= l.prompt_end_pos ==> limits.min_fork_budget <= l.budget
            &&& next_pos > l.prompt_end_pos && limits.min_fork_budget > 0 ==> next_pos - l.prompt_end_pos
                + limits.min_fork_budget <= l.budget
        },
        1 <= plans <= limits.max_plans && next_pos - l.prompt_end_pos + limits.min_fork_budget
            <= l.budget && limits.min_fork_budget <= l.budget && depth <= 1 && (limits.join_mode
            == JoinMode::Textual ==> depth <= limits.max_depth) ==> admissible(
            limits,
            l,
            plans,
            depth,
            next_pos,
        ),
        1 <= plans <= limits.max_plans && next_pos - l.prompt_end_pos + limits.min_fork_budget
            <= l.budget && limits.min_fork_budget <= l.budget && limits.join_mode
            == JoinMode::Textual && depth <= limits.max_depth ==> admissible(
            limits,
            l,
            plans,
            depth,
            next_pos,
        ),
{
}

/// A join mode is named by one name.
pub proof fn law_a_mode_has_one_name(a: Seq<char>, b: Seq<char>)
    ensures
        join_mode_of(a) is Some && join_mode_of(a) == join_mode_of(b) ==> a == b,
        a == "adopt"@ <==> join_mode_of(a) == Some(JoinMode::Adopt),
        a == "refill"@ <==> join_mode_of(a) == Some(JoinMode::Refill),
        a == "textual"@ <==> join_mode_of(a) == Some(JoinMode::Textual),
{
    reveal_strlit("adopt");
    reveal_strlit("refill");
    reveal_strlit("textual");
    assert("adopt"@.len() == 5 && "refill"@.len() == 6 && "textual"@.len() == 7);
}

// ---------------------------------------------------------------------------
// Plans and answers
// ---------------------------------------------------------------------------

/// All of `w` is white space.
pub open spec fn blank(w: Seq<char>) -> bool {
    forall|k: int| 0 <= k < w.len() ==> white(#[trigger] w[k])
}

/// Digits and dots.
pub open spec fn numeric(l: Seq<char>) -> bool {
    forall|k: int| 0 <= k < l.len() ==> is_digit(#[trigger] l[k]) || l[k] == '.'
}

proof fn lemma_label_len(t: Seq<char>, i: int, n: int)
    requires
        0 <= i <= n <= t.len(),
        forall|k: int| i <= k < n ==> is_digit(#[trigger] t[k]) || t[k] == '.',
        n < t.len() ==> !is_digit(t[n]) && t[n] != '.',
    ensures
        label_len(t, i) == n - i,
    decreases n - i,
{
    if i < n {
        lemma_label_len(t, i + 1, n);
    }
}

proof fn lemma_label_run(t: Seq<char>, i: int)
    requires
        0 <= i <= t.len(),
    ensures
        i + label_len(t, i) <= t.len(),
        forall|k: int| i <= k < i + label_len(t, i) ==> is_digit(#[trigger] t[k]) || t[k] == '.',
    decreases t.len() - i,
{
    if i < t.len() && (is_digit(t[i]) || t[i] == '.') {
        lemma_label_run(t, i + 1);
    }
}

/// A plan entry is read as it is written: numbers with single dots, with white space
/// around them, in front of a colon, are its label.
pub proof fn law_a_written_plan_is_read(w: Seq<char>, label: Seq<char>, x: Seq<char>, rest: Seq<char>)
    requires
        blank(w),
        blank(x),
        numeric(label),
        is_label(label),
    ensures
        plan_label(w + label + x + seq![':'] + rest) == Some(label),
{
    let s = w + label + x + seq![':'] + rest;
    let t = label + x + seq![':'] + rest;
    assert(s =~= w + t);
    assert(t[0] == label[0]);
    lemma_trim_start_over(w, t);
    let n = label.len() as int;
    assert forall|k: int| 0 <= k < n implies is_digit(#[trigger] t[k]) || t[k] == '.' by {
        assert(t[k] == label[k]);
    }
    if x.len() > 0 {
        assert(t[n] == x[0]);
        assert(white(x[0]));
    } else {
        assert(t[n] == ':');
    }
    lemma_label_len(t, 0, n);
    assert(t.take(n) =~= label);
    let after = seq![':'] + rest;
    assert(t.skip(n) =~= x + after);
    lemma_trim_start_over(x, after);
}

/// What is read as a plan's label is written so: a label with white space around it, in
/// front of a colon.
pub proof fn law_a_read_plan_is_written(s: Seq<char>)
    ensures
        plan_label(s) matches Some(label) ==> numeric(label) && is_label(label) && exists|
            w: Seq<char>,
            x: Seq<char>,
            rest: Seq<char>,
        |
            blank(w) && blank(x) && s == #[trigger] (w + label + x + seq![':'] + rest),
{
    if plan_label(s) is Some {
        let label = plan_label(s)->0;
        let a = law_trimming_the_start_drops_white_space(s);
        let t = trim_start(s);
        let n = label_len(t, 0) as int;
        lemma_label_run(t, 0);
        let u = t.skip(n);
        let b = law_trimming_the_start_drops_white_space(u);
        let after = trim_start(u);
        let w = s.take(a);
        let x = u.take(b);
        let rest = after.skip(1);
        assert(after =~= seq![':'] + rest);
        assert forall|k: int| 0 <= k < x.len() implies white(#[trigger] x[k]) by {
            assert(u[k] == x[k]);
        }
        assert forall|k: int| 0 <= k < label.len() implies is_digit(#[trigger] label[k]) || label[k]
            == '.' by {
            assert(t[k] == label[k]);
        }
        assert(t =~= label + u);
        assert(u =~= x + after);
        assert(s =~= w + t);
        assert(s =~= w + label + x + seq![':'] + rest);
    }
}

/// Every plan entry of a text is read, in order: the labels from a place on are that of
/// the next entry, where it has one, and those behind it.
pub proof fn law_plans_are_read_in_order(s: Seq<char>, from: int, p: int)
    requires
        0 <= from,
    ensures
        (forall|k: int| from <= k ==> !occurs_at(s, "<plan>"@, k)) ==> labels_from(s, from).len()
            == 0,
        from <= p && occurs_at(s, "<plan>"@, p) && (forall|k: int|
            from <= k < p ==> !occurs_at(s, "<plan>"@, k)) ==> labels_from(s, from) == (match plan_label(
            s.skip(p + 6),
        ) {
            Some(l) => seq![l],
            None => Seq::empty(),
        }) + labels_from(s, p + 6),
{
    reveal_strlit("<plan>");
    assert("<plan>"@.len() == 6);
    lemma_find_from(s, "<plan>"@, from);
    let rest = labels_from(s, p + 6);
    assert(Seq::<Seq<char>>::empty() + rest =~= rest);
}

/// A block's plans are those of its last guideline; a text without one is read whole.
pub proof fn law_plans_are_of_the_last_guideline(s: Seq<char>, p: int)
    ensures
        (forall|k: int| !occurs_at(s, "<guideline>"@, k)) ==> plan_labels(s) == labels_from(s, 0),
        0 <= p && occurs_at(s, "<guideline>"@, p) && (forall|k: int|
            p < k ==> !occurs_at(s, "<guideline>"@, k)) ==> plan_labels(s) == labels_from(
            s.skip(p),
            0,
        ),
{
    lemma_rfind_below(s, "<guideline>"@, s.len() as int + 1);
}

/// How many braces are open behind the first `n` characters.
pub open spec fn open_braces(s: Seq<char>, n: int) -> int
    decreases n,
{
    if n <= 0 {
        0
    } else {
        open_braces(s, n - 1) + (if s[n - 1] == '{' {
            1int
        } else if s[n - 1] == '}' {
            -1
        } else {
            0
        })
    }
}

proof fn lemma_closing(s: Seq<char>, i: int, depth: nat, from: int)
    requires
        0 <= from <= i <= s.len(),
        depth > 0,
        depth == 1 + open_braces(s, i) - open_braces(s, from),
        forall|k: int| from <= k <= i ==> open_braces(s, from) <= #[trigger] open_braces(s, k),
    ensures
        closing(s, i, depth) matches Some(e) ==> i <= e < s.len() && s[e] == '}' && open_braces(s, e)
            == open_braces(s, from) && forall|k: int|
            from <= k <= e ==> open_braces(s, from) <= #[trigger] open_braces(s, k),
        closing(s, i, depth) is None ==> forall|k: int|
            from <= k <= s.len() ==> open_braces(s, from) <= #[trigger] open_braces(s, k),
    decreases s.len() - i,
{
    if i < s.len() {
        let d = open_braces(s, i + 1) - open_braces(s, i);
        if s[i] == '{' {
            lemma_closing(s, i + 1, depth + 1, from);
        } else if s[i] == '}' {
            if depth > 1 {
                lemma_closing(s, i + 1, (depth - 1) as nat, from);
            }
        } else {
            lemma_closing(s, i + 1, depth, from);
        }
    }
}

/// An answer stands in the last box, up to the brace that closes it: inside it braces
/// are matched. None is read where there is no box or the last one never closes.
pub proof fn law_an_answer_stands_in_the_last_box(text: Seq<char>)
    ensures
        match boxed(text) {
            Some(a) => exists|p: int|
                #![trigger occurs_at(text, "boxed{"@, p)]
                occurs_at(text, "boxed{"@, p) && (forall|k: int|
                    p < k ==> !occurs_at(text, "boxed{"@, k)) && p + 6 + a.len() < text.len() && a
                    == text.subrange(p + 6, p + 6 + a.len()) && text[p + 6 + a.len()] == '}'
                    && open_braces(text, p + 6 + a.len()) == open_braces(text, p + 6) && forall|
                    k: int,
                |
                    p + 6 <= k <= p + 6 + a.len() ==> open_braces(text, p + 6)
                        <= #[trigger] open_braces(text, k),
            None => forall|p: int|
                (#[trigger] occurs_at(text, "boxed{"@, p)) && (forall|k: int|
                    p < k ==> !occurs_at(text, "boxed{"@, k)) ==> forall|k: int|
                    p + 6 <= k <= text.len() ==> open_braces(text, p + 6) <= #[trigger] open_braces(
                        text,
                        k,
                    ),
        },
{
    reveal_strlit("boxed{");
    assert("boxed{"@.len() == 6);
    let pat = "boxed{"@;
    lemma_rfind_below(text, pat, text.len() as int + 1);
    match crate::text::rfind(text, pat) {
        Some(p) => {
            assert(occurs_at(text, pat, p));
            lemma_closing(text, p + 6, 1, p + 6);
            if let Some(e) = closing(text, p + 6, 1) {
                assert(boxed(text) == Some(text.subrange(p + 6, e)));
            } else {
                assert forall|q: int|
                    (#[trigger] occurs_at(text, pat, q)) && (forall|k: int|
                        q < k ==> !occurs_at(text, pat, k)) implies q == p by {
                    if q < p {
                        assert(!occurs_at(text, pat, p));
                    }
                }
            }
        },
        None => {},
    }
}

/// An opening forks at once where it ends with a closed guideline, whatever white space
/// follows it.
pub proof fn law_an_opening_forks_behind_its_guideline(head: Seq<char>, w: Seq<char>, text: Seq<char>)
    requires
        blank(w),
    ensures
        ends_a_guideline(head + "</guideline>"@ + w),
        ends_a_guideline(text) ==> exists|h: Seq<char>, x: Seq<char>|
            blank(x) && text == #[trigger] (h + "</guideline>"@ + x),
{
    reveal_strlit("</guideline>");
    let g = "</guideline>"@;
    assert(g.len() == 12 && g[11] == '>');
    let s = head + g + w;
    let n = law_trimming_the_end_drops_white_space(s);
    let m = head.len() + 12;
    if n < m {
        assert(white(s[m - 1]));
        assert(s[m - 1] == g[11]);
    } else if n > m {
        assert(s[n - 1] == w[n - 1 - m]);
    }
    assert(s.take(n) =~= head + g);
    assert((head + g).skip(head.len() as int) =~= g);
    if ends_a_guideline(text) {
        let k = law_trimming_the_end_drops_white_space(text);
        let t = text.take(k);
        let h = t.take(k - 12);
        let x = text.skip(k);
        assert(t =~= h + t.skip(k - 12));
        assert forall|j: int| 0 <= j < x.len() implies white(#[trigger] x[j]) by {
            assert(white(text[k + j]));
        }
        assert(text =~= h + g + x);
    }
}

/// The earliest tag is found: one stands there, and none before it.
pub proof fn law_the_earliest_tag_is_found(s: Seq<char>, from: int, n: int)
    requires
        0 <= from,
        0 <= n <= 8,
    ensures
        match earliest(s, from, n) {
            Some(e) => from <= e.0 && 0 <= e.1 < n && occurs_at(s, tag_text(e.1), e.0) && forall|
                k: int,
                j: int,
            |
                0 <= k < n && from <= j < e.0 ==> !#[trigger] occurs_at(s, tag_text(k), j),
            None => forall|k: int, j: int|
                0 <= k < n && from <= j ==> !#[trigger] occurs_at(s, tag_text(k), j),
        },
    decreases n,
{
    if n > 0 {
        law_the_earliest_tag_is_found(s, from, n - 1);
        lemma_find_from(s, tag_text(n - 1), from);
    }
}

} // verus!
