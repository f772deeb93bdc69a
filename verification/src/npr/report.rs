//! The run's defaults, prompts and report.

use vstd::prelude::*;
use vstd::string::*;

use crate::format::{dec, dec_of};
use crate::json::{json_text, natural, string, string_or_null, to_text, Object, Tree};
use crate::npr::schedule::{Ledger, Stats};
use crate::serving::laws::at;
use crate::serving::streaming::obj;
use crate::text::{
    cat3, chars_of, law_trimming_the_end_drops_white_space, starts_at, trim_end, trimmed_end, white,
};

verus! {

/// The question where none is given.
pub fn default_question() -> (r: String)
    ensures
        r@ == "What is the domain of the function f(x) = (2 - x) / log(2 - log(x - 2)), where log is the base 10 logarithm function? Express your answer in interval notation."@,
{
    "What is the domain of the function f(x) = (2 - x) / log(2 - log(x - 2)), where log is the base 10 logarithm function? Express your answer in interval notation.".to_owned()
}

/// The token budget where none is given.
pub fn default_max_new_tokens() -> (r: usize)
    ensures
        r == 30000,
{
    30000
}

/// The most plans of a guideline where none is given.
pub fn default_max_plans() -> (r: usize)
    ensures
        r == 5,
{
    5
}

/// The deepest nesting where none is given.
pub fn default_max_depth() -> (r: usize)
    ensures
        r == 5,
{
    5
}

/// The least budget of a fork where none is given.
pub fn default_min_fork_budget() -> (r: usize)
    ensures
        r == 1024,
{
    1024
}

/// The join mode where none is given.
pub fn default_join_mode() -> (r: String)
    ensures
        r@ == "refill"@,
{
    "refill".to_owned()
}

/// The user turn: the question, then the format instruction.
pub fn user_turn(question: &str, instruction: &str) -> (r: String)
    ensures
        r@ == question@ + "\n\n"@ + instruction@,
{
    cat3(question, "\n\n", instruction)
}

/// A text whose trailing white space aside ends a guideline.
pub open spec fn ends_a_guideline(text: Seq<char>) -> bool {
    let t = trim_end(text);
    t.len() >= 12 && t.skip(t.len() - 12) == "</guideline>"@
}

/// Whether an injected primer ends a guideline, and so forks at once.
pub fn primer_forks(primer: &str) -> (r: bool)
    ensures
        r == ends_a_guideline(primer@),
{
    let t = trimmed_end(chars_of(primer).as_slice());
    let tag = chars_of("</guideline>");
    proof {
        reveal_strlit("</guideline>");
    }
    if t.len() < 12 {
        return false;
    }
    let at: usize = t.len() - 12;
    proof {
        assert(t@.subrange(at as int, at + 12) =~= t@.skip(at as int));
    }
    starts_at(t.as_slice(), tag.as_slice(), at)
}

/// The filler sentences up to number `n` of the oracle's prompt.
pub open spec fn padding(n: nat) -> Seq<char>
    decreases n,
{
    if n == 0 {
        Seq::empty()
    } else {
        padding((n - 1) as nat) + " Contextual note "@ + dec((n - 1) as nat)
            + ": the composition of logarithms constrains the domain through each layer, and every constraint must hold simultaneously."@
    }
}

/// The prompt of the join oracle, padded with filler sentences so that its fill
/// takes several passes.
pub fn oracle_prompt(pad: usize) -> (r: String)
    ensures
        r@ == "Solve: what is the domain of f(x) = 1/log(2 - log(x - 2))? Reason briefly."@ + padding(
            pad as nat,
        ),
{
    let mut r = "Solve: what is the domain of f(x) = 1/log(2 - log(x - 2))? Reason briefly.".to_owned();
    let ghost head = r@;
    let mut i: usize = 0;
    proof {
        assert(head + padding(0) =~= head);
    }
    while i < pad
        invariant
            i <= pad,
            r@ == head + padding(i as nat),
        decreases pad - i,
    {
        r.append(" Contextual note ");
        r.append(dec_of(i as u64).as_str());
        r.append(
            ": the composition of logarithms constrains the domain through each layer, and every constraint must hold simultaneously.",
        );
        i += 1;
        proof {
            assert(r@ =~= head + padding(i as nat));
        }
    }
    r
}

/// What a run reports besides its counts.
pub struct Run {
    pub answer: Option<String>,
    pub join_mode: String,
    pub join_ms: u64,
    pub prompt_cache: String,
    pub stop_reason: String,
    pub elapsed_ms: u64,
    pub trajectory: String,
}

/// A run's report.
pub open spec fn report_tree(r: Run, s: Stats, l: Ledger) -> Tree {
    Tree::Obj(
        obj().insert(
            "answer"@,
            match r.answer {
                Some(a) => Tree::Str(a@),
                None => Tree::Null,
            },
        ).insert("join_mode"@, Tree::Str(r.join_mode@)).insert(
            "parallel_blocks"@,
            Tree::Int(s.parallel_blocks as int),
        ).insert("branches_total"@, Tree::Int(s.branches_total as int)).insert(
            "max_depth"@,
            Tree::Int(s.max_depth_seen as int),
        ).insert("sequential_fallbacks"@, Tree::Int(s.sequential_fallbacks as int)).insert(
            "tokens_generated"@,
            Tree::Int(s.tokens_generated as int),
        ).insert("tokens_adopted"@, Tree::Int(s.tokens_adopted as int)).insert(
            "adopt_fallbacks"@,
            Tree::Int(s.adopt_fallbacks as int),
        ).insert("join_ms"@, Tree::Int(r.join_ms as int)).insert(
            "prompt_cache"@,
            Tree::Str(r.prompt_cache@),
        ).insert("stop_reason"@, Tree::Str(r.stop_reason@)).insert(
            "tokens_charged"@,
            Tree::Int(l.charged as int),
        ).insert("token_budget"@, Tree::Int(l.budget as int)).insert(
            "elapsed_ms"@,
            Tree::Int(r.elapsed_ms as int),
        ).insert("trajectory"@, Tree::Str(r.trajectory@)),
    )
}

/// A run's report.
pub fn report(r: &Run, s: &Stats, l: &Ledger) -> (text: String)
    ensures
        text@ == json_text(report_tree(*r, *s, *l)),
{
    let answer = match &r.answer {
        Some(a) => Some(a.as_str()),
        None => None,
    };
    let mut o = Object::new();
    o.put("answer", string_or_null(answer));
    o.put("join_mode", string(r.join_mode.as_str()));
    o.put("parallel_blocks", natural(s.parallel_blocks));
    o.put("branches_total", natural(s.branches_total));
    o.put("max_depth", natural(s.max_depth_seen as u64));
    o.put("sequential_fallbacks", natural(s.sequential_fallbacks));
    o.put("tokens_generated", natural(s.tokens_generated));
    o.put("tokens_adopted", natural(s.tokens_adopted));
    o.put("adopt_fallbacks", natural(s.adopt_fallbacks));
    o.put("join_ms", natural(r.join_ms));
    o.put("prompt_cache", string(r.prompt_cache.as_str()));
    o.put("stop_reason", string(r.stop_reason.as_str()));
    o.put("tokens_charged", natural(l.charged as u64));
    o.put("token_budget", natural(l.budget as u64));
    o.put("elapsed_ms", natural(r.elapsed_ms));
    o.put("trajectory", string(r.trajectory.as_str()));
    let v = o.build();
    to_text(&v)
}

/// A report has each of a run's numbers under its own name.
pub proof fn law_a_report_reads_back(r: Run, s: Stats, l: Ledger)
    ensures
        ({
            let t = report_tree(r, s, l);
            &&& r.answer matches Some(a) ==> at(t, "answer"@) == Tree::Str(a@)
            &&& r.answer is None ==> at(t, "answer"@) is Null
            &&& at(t, "join_mode"@) == Tree::Str(r.join_mode@)
            &&& at(t, "parallel_blocks"@) == Tree::Int(s.parallel_blocks as int)
            &&& at(t, "branches_total"@) == Tree::Int(s.branches_total as int)
            &&& at(t, "max_depth"@) == Tree::Int(s.max_depth_seen as int)
            &&& at(t, "sequential_fallbacks"@) == Tree::Int(s.sequential_fallbacks as int)
            &&& at(t, "tokens_generated"@) == Tree::Int(s.tokens_generated as int)
            &&& at(t, "tokens_adopted"@) == Tree::Int(s.tokens_adopted as int)
            &&& at(t, "adopt_fallbacks"@) == Tree::Int(s.adopt_fallbacks as int)
            &&& at(t, "join_ms"@) == Tree::Int(r.join_ms as int)
            &&& at(t, "prompt_cache"@) == Tree::Str(r.prompt_cache@)
            &&& at(t, "stop_reason"@) == Tree::Str(r.stop_reason@)
            &&& at(t, "tokens_charged"@) == Tree::Int(l.charged as int)
            &&& at(t, "token_budget"@) == Tree::Int(l.budget as int)
            &&& at(t, "elapsed_ms"@) == Tree::Int(r.elapsed_ms as int)
            &&& at(t, "trajectory"@) == Tree::Str(r.trajectory@)
        }),
{
    reveal_strlit("answer");
    reveal_strlit("join_mode");
    reveal_strlit("parallel_blocks");
    reveal_strlit("branches_total");
    reveal_strlit("max_depth");
    reveal_strlit("sequential_fallbacks");
    reveal_strlit("tokens_generated");
    reveal_strlit("tokens_adopted");
    reveal_strlit("adopt_fallbacks");
    reveal_strlit("join_ms");
    reveal_strlit("prompt_cache");
    reveal_strlit("stop_reason");
    reveal_strlit("tokens_charged");
    reveal_strlit("token_budget");
    reveal_strlit("elapsed_ms");
    reveal_strlit("trajectory");
    assert("answer"@.len() == 6 && "join_mode"@.len() == 9 && "parallel_blocks"@.len() == 15);
    assert("branches_total"@.len() == 14 && "max_depth"@.len() == 9);
    assert("sequential_fallbacks"@.len() == 20 && "tokens_generated"@.len() == 16);
    assert("tokens_adopted"@.len() == 14 && "adopt_fallbacks"@.len() == 15 && "join_ms"@.len() == 7);
    assert("prompt_cache"@.len() == 12 && "stop_reason"@.len() == 11);
    assert("tokens_charged"@.len() == 14 && "token_budget"@.len() == 12);
    assert("elapsed_ms"@.len() == 10 && "trajectory"@.len() == 10);
    assert("join_mode"@[0] == 'j' && "max_depth"@[0] == 'm');
    assert("parallel_blocks"@[0] == 'p' && "adopt_fallbacks"@[0] == 'a');
    assert("branches_total"@[0] == 'b' && "tokens_adopted"@[0] == 't' && "tokens_charged"@[0] == 't');
    assert("tokens_adopted"@[7] == 'a' && "tokens_charged"@[7] == 'c');
    assert("prompt_cache"@[0] == 'p' && "token_budget"@[0] == 't');
    assert("elapsed_ms"@[0] == 'e' && "trajectory"@[0] == 't');
}

/// A text ends a guideline exactly where its closing tag is the last thing in it
/// but white space.
pub proof fn law_a_guideline_ends_with_its_tag(text: Seq<char>) -> (n: int)
    ensures
        0 <= n <= text.len(),
        forall|i: int| n <= i < text.len() ==> white(#[trigger] text[i]),
        n > 0 ==> !white(text[n - 1]),
        ends_a_guideline(text) <==> n >= 12 && text.subrange(n - 12, n) == "</guideline>"@,
{
    let n = law_trimming_the_end_drops_white_space(text);
    let t = trim_end(text);
    assert(t =~= text.take(n));
    if n >= 12 {
        assert(t.skip(t.len() - 12) =~= text.subrange(n - 12, n));
    }
    n
}

/// The oracle's filler grows by one numbered note after another.
pub proof fn law_notes_are_numbered(n: nat)
    ensures
        padding(0).len() == 0,
        padding(n + 1).take(padding(n).len() as int) == padding(n),
        padding(n + 1).subrange(
            padding(n).len() as int,
            (padding(n) + " Contextual note "@ + dec(n)).len() as int,
        ) == " Contextual note "@ + dec(n),
{
    let head = " Contextual note "@ + dec(n);
    let p = padding(n + 1);
    let k = padding(n).len() as int;
    assert(p.take(k) =~= padding(n));
    assert(p.subrange(k, k + head.len()) =~= head);
}

} // verus!
