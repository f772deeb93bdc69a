use pie::autoresearch::{
    budget_of, is_degenerate, observation_in_body, replay_start, step_schema, task_prompt, truncate_observation, Agent,
    Step, Turn, ACTION_SCHEMA, FINISH_SCHEMA,
};
use pie::condense::{
    build_mask, build_prefill_masks, coherence, compact_context, future_plan, probe_at,
    pick_mode, probe_turns, quality_plan, rebuilt_tokens, replay_plan, tok, turn_masks, Mode, Path,
    PlanError, Schedule,
};
use pie::npr::branch::{
    join_branches, step_header, takeaway_refill, top_stop, Branch, BranchResult, BranchStep, TopStep,
    Trajectory,
};
use pie::npr::join::{plan_fork, Fork, Join, JoinAsk, JoinEvent, Stage};
use pie::npr::oracle::{
    comparisons, experiments, passes, short_len, warm_fill, warm_lengths, Ahead, Experiment, Oracle,
};
use pie::npr::plans::{
    extract_boxed, parse_plans, prompt_cache_name, prompt_save_state,
};
use pie::npr::report::{default_join_mode, oracle_prompt, primer_forks, report, user_turn, Run};
use pie::npr::schedule::{
    admit_fork, adoptable, adopted_tail, causal_rows, close_block, hole_rows, parse_join_mode,
    refill_chunk_end, sibling_refill, JoinMode, Ledger, Limits, PCtx, Segment, SegmentRules, Stats, Stop,
};
use pie::npr::vocab::{encode_with_tags, tag, Piece, Vocab};
use pie::chat::turn::Flow;
use pie::openclaw::{
    replay_history, replay_incremental, resume_at, stop_tail, tool_schemas, trim_trailing_stop,
    ClawTurn, Message, TextEvent, ToolSpec,
};
use pie::replay::ReplayOp;
use pie::rollout::{anchor, bench_report, env_mask, forced_inputs, framed, score_anchor, token_place};

fn message(role: &str, content: &str) -> Message {
    Message { role: role.to_string(), content: Some(content.to_string()), tool_calls: None }
}

#[test]
fn a_claw_history_is_replayed_in_order() {
    let ops = replay_history(
        &[
            message("system", "be brief"),
            message("user", "hi"),
            message("assistant", "hello"),
            message("tool", "42"),
        ],
        &[],
    )
    .unwrap();
    assert_eq!(ops.first(), Some(&ReplayOp::System("be brief".to_string())));
    assert_eq!(ops.get(1), Some(&ReplayOp::User("hi".to_string())));
    assert!(replay_history(&[message("oracle", "?")], &[]).is_err());
}

#[test]
fn new_claw_messages_batch_their_results() {
    let new = [
        message("system", "again"),
        message("tool", "a"),
        message("tool", "b"),
        message("user", "next"),
        message("tool", "c"),
    ];
    let pair = |s: &str| (String::new(), s.to_string());
    let expected = vec![
        ReplayOp::AnswerBatch(vec![pair("a"), pair("b")]),
        ReplayOp::User("next".to_string()),
        ReplayOp::AnswerBatch(vec![pair("c")]),
    ];
    assert_eq!(replay_incremental(&new), expected);
    assert_eq!(replay_history(&new[1..], &[]), Ok(expected));
}

#[test]
fn a_claw_turn_tells_its_events() {
    let mut turn = ClawTurn::new();
    let delta = TextEvent::Delta("Hi.<tool_call>".to_string());
    assert_eq!(turn.on_token(5, delta, None, false), Flow::Continue);
    let call = Some(("f".to_string(), "{}".to_string()));
    assert_eq!(turn.on_token(6, TextEvent::Quiet, call, false), Flow::Continue);
    let events = turn.take_events();
    assert_eq!(events[0]["type"], "text_delta");
    assert_eq!(events[0]["delta"], "Hi.<tool_call>");
    assert_eq!(events[1]["id"], "call_0");
    assert_eq!(turn.after_step(&[], Some("x"), 9), Flow::Continue);
    assert_eq!(turn.after_step(&["x".to_string()], Some("ax"), 9), Flow::Break);
    assert_eq!(turn.after_step(&[], None, 2), Flow::Break);
    assert_eq!(turn.on_token(7, TextEvent::Quiet, None, true), Flow::Break);
    assert_eq!(turn.count(), 3);
    assert_eq!(turn.last_tokens(2), [6, 7]);
    assert_eq!(turn.stop_reason(), "tool_calls");
    assert_eq!(turn.final_text(&[]), "Hi.");
    let done = turn.done_event(11, Some("s"), 4);
    assert_eq!(done["stop_reason"], "tool_calls");
    assert_eq!(done["prompt_tokens"], 11);
    assert_eq!(done["turn_message_count"], 4);
    let calls = turn.into_calls();
    assert_eq!((calls[0].name.as_str(), calls[0].arguments.as_str()), ("f", "{}"));
}

#[test]
fn observations_are_read_from_the_body() {
    assert_eq!(observation_in_body(br#"{"observation":"done"}"#), Ok("done".to_string()));
    let refused = observation_in_body(b"{oops").unwrap_err();
    assert!(refused.starts_with("parse response (5B): "), "{refused}");
    assert!(observation_in_body(b"").unwrap_err().starts_with("parse response (0B): EOF"));
}

#[test]
fn claw_schemas_and_stops() {
    let spec = ToolSpec {
        name: "f".to_string(),
        description: "d".to_string(),
        parameters: serde_json::Value::Null,
    };
    let schemas = tool_schemas(&[spec]);
    let v: serde_json::Value = serde_json::from_str(&schemas[0]).unwrap();
    assert_eq!(v["name"], "f");
    assert_eq!(v["description"], "d");
    assert!(v["parameters"].is_null());
    let stops = vec!["END".to_string()];
    assert_eq!(trim_trailing_stop("text END", &stops), "text ");
    assert_eq!(trim_trailing_stop("text", &stops), "text");
    assert!(stop_tail(&stops, 100) >= 3);
    assert_eq!(resume_at(false, 2, 3), None);
    assert_eq!(resume_at(true, 2, 3), Some(2));
}

#[test]
fn research_prompts_and_schemas() {
    assert_eq!(step_schema(100, 100), FINISH_SCHEMA);
    assert_eq!(step_schema(1, 100), ACTION_SCHEMA);
    assert!(serde_json::from_str::<serde_json::Value>(ACTION_SCHEMA).is_ok());
    assert!(serde_json::from_str::<serde_json::Value>(FINISH_SCHEMA).is_ok());
    assert_eq!(
        task_prompt("P"),
        "Here are your research instructions (program.md):\n\nP\n\nBegin your research."
    );
}

#[test]
fn degenerate_text_is_mostly_odd() {
    assert!(!is_degenerate("short"));
    assert!(!is_degenerate("a perfectly ordinary line"));
    assert!(is_degenerate("\u{e9}\u{e9}\u{e9}\u{e9}\u{e9}abcde"));
    // Two fifths exactly is not more than two fifths.
    assert!(!is_degenerate("\u{e9}\u{e9}\u{e9}\u{e9}abcdef"));
}

#[test]
fn observations_keep_both_ends() {
    assert_eq!(truncate_observation("short", 10), "short");
    assert_eq!(
        truncate_observation("0123456789", 4),
        "01\n\n... (6 chars truncated) ...\n\n89"
    );
}

#[test]
fn the_replay_keeps_the_most_recent_turns() {
    let turn = |n: usize| Turn { assistant_json: "x".repeat(n), observation: String::new() };
    let history = vec![turn(370), turn(370), turn(370)];
    assert_eq!(budget_of(28000, 1000), 19000);
    assert_eq!(budget_of(100, 1000), 0);
    assert_eq!(replay_start(&history, 250), 1);
    assert_eq!(replay_start(&history, 300), 0);
    assert_eq!(replay_start(&history, 99), 3);
}

#[test]
fn three_failures_in_a_row_end_the_research() {
    let mut agent = Agent::new();
    assert!(matches!(agent.on_answer("not json"), Step::AskShorter));
    assert_eq!(agent.failures_in_a_row(), 1);
    let answer = r#"{"thought":"look","action":"read_file","path":"a.py"}"#;
    assert!(matches!(agent.on_answer(answer), Step::Run(a)
        if a.action == "bash" && a.command == "cat -n a.py"));
    assert_eq!(agent.failures_in_a_row(), 0);
    assert!(matches!(agent.on_answer("not json"), Step::AskShorter));
    assert!(matches!(agent.on_answer("not json"), Step::AskShorter));
    assert!(matches!(agent.on_answer("not json"), Step::GiveUp));
    let v: serde_json::Value = serde_json::from_str(&agent.result()).unwrap();
    assert!(v.is_object());
    assert!(agent.turns().is_empty());
}

#[test]
fn rollouts_split_at_the_last_token() {
    let a = anchor(&[1, 2, 3]).ok().unwrap();
    assert_eq!((a.split, a.tail), (2, 3));
    assert_eq!(anchor(&[]).err(), Some("empty prompt"));
    assert_eq!(score_anchor(&[], &[1]).err(), Some("empty prompt"));
    assert_eq!(score_anchor(&[1], &[]).err(), Some("empty target"));
    assert_eq!(forced_inputs(9, &[4, 5, 6]), vec![9, 4, 5]);
    assert_eq!(token_place(&[3, 8, 8], 8), Some(1));
    assert_eq!(token_place(&[3, 8, 8], 7), None);
    assert_eq!(env_mask(3), vec![1, 1, 1]);
    assert_eq!(framed("<", "{}", ">"), "<{}>");
    let v: serde_json::Value = serde_json::from_str(&bench_report(5, 128, 64)).unwrap();
    assert_eq!(v["prefill_tokens"], 5);
    assert_eq!(v["decode_tokens_requested"], 128);
    assert_eq!(v["decode_tokens_generated"], 64);
}

#[test]
fn plans_and_answers_are_read() {
    let text = "<guideline>\n<plan>1: a</plan>\n<plan> 2.1 : b</plan><plan>x: no</plan></guideline>";
    assert_eq!(parse_plans(text), vec!["1".to_string(), "2.1".to_string()]);
    assert!(parse_plans("no plans").is_empty());
    for bad in ["<plan>1.: a", "<plan>1..2: a", "<plan>.1: a", "<plan>1 2: a", "<plan>: a"] {
        assert!(parse_plans(bad).is_empty());
    }
    assert_eq!(extract_boxed("\\boxed{1} so \\boxed{a{b}c}."), Some("a{b}c".to_string()));
    assert_eq!(extract_boxed("none"), None);
    let a = prompt_cache_name("m", "q", "v1");
    let b = prompt_cache_name("m", "q2", "v1");
    assert_ne!(a, b);
    assert_eq!(a, prompt_cache_name("m", "q", "v1"));
    assert_ne!(prompt_save_state(None), prompt_save_state(Some("disk full")));
}

#[test]
fn forks_are_taken_within_the_budget() {
    assert_eq!(parse_join_mode("textual").ok(), Some(JoinMode::Textual));
    assert_eq!(parse_join_mode("x").err().unwrap(), "unknown join_mode: x");
    let limits = Limits {
        max_plans: 2,
        max_depth: 3,
        min_fork_budget: 100,
        join_mode: JoinMode::Textual,
    };
    let ledger = Ledger { budget: 1000, charged: 0, prompt_end_pos: 10 };
    let mut stats = Stats::new();
    assert!(admit_fork(&limits, &ledger, &mut stats, 2, 3, 20));
    assert!(!admit_fork(&limits, &ledger, &mut stats, 3, 1, 20));
    assert!(!admit_fork(&limits, &ledger, &mut stats, 0, 1, 20));
    assert!(!admit_fork(&limits, &ledger, &mut stats, 1, 4, 20));
    assert!(!admit_fork(&limits, &ledger, &mut stats, 1, 1, 911));
    assert!(admit_fork(&limits, &ledger, &mut stats, 1, 1, 910));
    assert_eq!(stats.parallel_blocks, 2);
    assert_eq!(stats.branches_total, 3);
    assert_eq!(stats.sequential_fallbacks, 4);
    assert_eq!(stats.max_depth_seen, 3);
    let mut l = Ledger { budget: 1000, charged: 330, prompt_end_pos: 10 };
    close_block(&mut l, 30, 3);
    assert_eq!(l.charged, 130);
}

#[test]
fn a_segment_stops_at_its_tags_and_its_budget() {
    let rules = SegmentRules {
        degree: 2,
        watch_step: true,
        token_cap: Some(3),
        inherited: 0,
        own_before: 0,
    };
    let mut ledger = Ledger { budget: 1000, charged: 0, prompt_end_pos: 0 };
    let mut stats = Stats::new();
    let mut seg = Segment::start(5);
    assert!(!seg.out_of_budget(&rules, &ledger));
    assert_eq!(seg.take_token(&rules, &mut ledger, &mut stats, 1, b"x</st"), None);
    assert_eq!(seg.take_token(&rules, &mut ledger, &mut stats, 2, b"ep>"), Some(Stop::StepEnd));
    assert_eq!(
        seg.take_token(&rules, &mut ledger, &mut stats, 3, b"</guideline>"),
        Some(Stop::GuidelineEnd)
    );
    assert_eq!(ledger.charged, 6);
    assert_eq!(seg.cur_pos, 8);
    assert_eq!(stats.tokens_generated, 3);
    assert!(seg.out_of_budget(&rules, &ledger));
}

#[test]
fn siblings_are_refilled_behind_the_fork() {
    assert_eq!(causal_rows(4, 2), vec![vec![0, 5], vec![0, 6]]);
    assert_eq!(hole_rows(4, 7, 0, 2), vec![vec![0, 4, 3, 1], vec![0, 4, 3, 2]]);
    let r = sibling_refill(10, 4, 7, 2);
    assert_eq!(r.positions, vec![10, 11]);
    assert_eq!(r.rows, hole_rows(4, 7, 0, 2));
    assert_eq!(adoptable(10, 4, 2, 8), Some(6));
    assert_eq!(adoptable(10, 4, 2, 9), None);
    let tail = adopted_tail(10, 4, 7, 6, 1);
    assert_eq!(tail.positions, vec![16]);
    assert_eq!(tail.rows, vec![vec![0, 4, 3, 7]]);
    assert_eq!(refill_chunk_end(0, 1000), 512);
    assert_eq!(refill_chunk_end(512, 1000), 1000);
}

#[test]
fn branches_are_joined_in_plan_order() {
    let mut b = Branch::start("1", &[7]);
    assert_eq!(b.take_segment(&[8, 9], b"ab", Stop::GuidelineEnd), BranchStep::Fork);
    assert_eq!(b.take_segment(&[10], b"c", Stop::StepEnd), BranchStep::Done);
    assert_eq!(b.take_segment(&[], b"", Stop::Budget), BranchStep::Terminal);
    assert_eq!(b.tokens, vec![7, 8, 9, 10]);
    assert!(String::from_utf8(b.bytes).unwrap().starts_with(&step_header("1")));
    let one = BranchResult { tokens: vec![1, 2], bytes: b"x".to_vec(), terminal: false };
    let two = BranchResult { tokens: vec![3], bytes: b"y".to_vec(), terminal: true };
    let j = join_branches(&[one, two], &[50]);
    assert_eq!(j.tokens, vec![1, 2, 3, 50]);
    assert!(j.terminal);
    assert_eq!(j.max_extent, 2);
    let (refill, next) = takeaway_refill(10, 2, 30, 3);
    assert_eq!(refill.positions, vec![12, 13]);
    assert_eq!(refill.rows, causal_rows(30, 2));
    assert_eq!(next, 15);
    assert!(top_stop(Stop::GuidelineEnd).is_none());
    assert!(top_stop(Stop::Eos).is_some());
}

#[test]
fn the_oracle_lays_its_experiments_out() {
    let o = Oracle { p_fork: 10, fork_slots: 4, n_a: 6, n_short: 3 };
    let e = experiments(&o, &[7, 8]);
    assert_eq!(e.len(), 12);
    match &e[8] {
        Experiment::Fill { ahead, positions, rows } => {
            assert_eq!(*ahead, Ahead::Whole);
            assert_eq!(positions.as_deref(), Some(&[10, 11][..]));
            assert_eq!(rows.as_ref(), Some(&hole_rows(4, 10, 0, 2)));
        }
        Experiment::Graft { .. } => unreachable!(),
    }
    match &e[10] {
        Experiment::Graft { content, tail } => {
            assert_eq!(content, &vec![7]);
            assert_eq!(tail, &vec![8]);
        }
        Experiment::Fill { .. } => unreachable!(),
    }
    let c = comparisons();
    assert_eq!(c[4].name, "hole_natural");
    assert_eq!((c[4].left, c[4].right), (5, 6));
    assert!(c[7].alike && !c[8].alike);
    let near = [true, true, true, true, true, true, true, true, false, false];
    let far = [false, false, false, false, false, false, false, false, true, true];
    assert!(passes(&near, &far));
    assert!(!passes(&far, &near));
    assert!(!passes(&near, &near));
    assert_eq!(warm_lengths(4, 2, 4), vec![1, 2, 3, 4]);
    assert_eq!(warm_fill(&[1, 2, 3], 5), vec![1, 2, 3, 1, 2]);
    assert_eq!((short_len(3), short_len(30)), (3, 8));
}

fn branch(tokens: Vec<u32>, terminal: bool) -> BranchResult {
    BranchResult { tokens, bytes: b"b".to_vec(), terminal }
}

fn fork() -> Fork {
    Fork { labels: vec![], fork_slots: 4, p_fork: 10, charged_before: 0 }
}

#[test]
fn a_guideline_forks_where_it_can() {
    let limits =
        Limits { max_plans: 4, max_depth: 1, min_fork_budget: 10, join_mode: JoinMode::Refill };
    let ledger = Ledger { budget: 1000, charged: 7, prompt_end_pos: 0 };
    let at = PCtx { seq_len: 20, buffered: 2, delta: -5 };
    let mut stats = Stats::new();
    let text = "<guideline><plan>1: a</plan><plan>2: b</plan></guideline>";
    let f = plan_fork(&limits, &ledger, &mut stats, text, 1, &at).unwrap();
    assert_eq!(f.labels, vec!["1".to_string(), "2".to_string()]);
    assert_eq!((f.fork_slots, f.p_fork, f.charged_before), (22, 17, 7));
    assert!(plan_fork(&limits, &ledger, &mut stats, text, 2, &at).is_none());
    assert_eq!((stats.parallel_blocks, stats.sequential_fallbacks), (1, 1));
}

#[test]
fn a_refill_join_lays_siblings_out_behind_the_fork() {
    let branches = vec![branch(vec![1, 2, 3], false), branch(vec![5, 6], true)];
    let base = PCtx { seq_len: 6, buffered: 1, delta: 6 };
    let (mut j, ask) = Join::begin(
        JoinMode::Refill,
        &fork(),
        branches,
        vec![(6, 1), (5, 1)],
        vec![90, 91],
        base,
    );
    match ask {
        JoinAsk::Drain(r) => {
            assert_eq!(r.positions, vec![12]);
            assert_eq!(r.rows, causal_rows(6, 1));
        }
        _ => unreachable!(),
    }
    match j.on(JoinEvent::Done) {
        JoinAsk::Fill { sibling, refill } => {
            assert_eq!(sibling, 1);
            assert_eq!(j.tokens_of(1), [5, 6]);
            assert_eq!(refill.positions, vec![10, 11]);
            assert_eq!(refill.rows, hole_rows(4, 7, 0, 2));
        }
        _ => unreachable!(),
    }
    assert!(matches!(j.on(JoinEvent::Done), JoinAsk::Release { sibling: 1 }));
    match j.on(JoinEvent::Done) {
        JoinAsk::Head(r) => {
            assert_eq!(r.positions, vec![13]);
            assert_eq!(r.rows, causal_rows(9, 1));
        }
        _ => unreachable!(),
    }
    assert!(matches!(j.on(JoinEvent::Done), JoinAsk::Cue(t) if t == vec![91]));
    assert!(matches!(j.on(JoinEvent::Done), JoinAsk::Finish));
    let mut stats = Stats::new();
    let (joined, base) = j.finish(&mut stats);
    assert_eq!(joined.tokens, vec![1, 2, 3, 5, 6, 90, 91]);
    assert!(joined.terminal);
    assert_eq!((base.seq_len, base.buffered), (10, 1));
    assert_eq!(base.next_pos(), 15);
    assert_eq!(stats.tokens_adopted, 0);
}

#[test]
fn an_adopting_join_grafts_and_falls_back() {
    let branches =
        vec![branch(vec![1], false), branch(vec![5, 6], false), branch(vec![7], false), branch(vec![8], false)];
    let base = PCtx { seq_len: 5, buffered: 0, delta: 0 };
    let (mut j, ask) = Join::begin(
        JoinMode::Adopt,
        &fork(),
        branches,
        vec![(5, 0), (5, 1), (9, 0), (5, 0)],
        vec![90],
        base,
    );
    assert!(matches!(ask, JoinAsk::Graft { sibling: 1, n: 1 }));
    match j.on(JoinEvent::Grafted(5)) {
        JoinAsk::Tail { sibling, refill } => {
            assert_eq!(sibling, 1);
            assert_eq!(refill.positions, vec![11]);
            assert_eq!(refill.rows, hole_rows(4, 5, 1, 1));
        }
        _ => unreachable!(),
    }
    assert!(matches!(j.on(JoinEvent::Done), JoinAsk::Release { sibling: 1 }));
    // The resident tokens of the second are not its transcript.
    assert!(matches!(j.on(JoinEvent::Done), JoinAsk::Fill { sibling: 2, .. }));
    assert!(matches!(j.on(JoinEvent::Done), JoinAsk::Release { sibling: 2 }));
    assert!(matches!(j.on(JoinEvent::Done), JoinAsk::Graft { sibling: 3, n: 1 }));
    assert!(matches!(j.on(JoinEvent::Refused), JoinAsk::Fill { sibling: 3, .. }));
    assert!(matches!(j.on(JoinEvent::Done), JoinAsk::Release { sibling: 3 }));
    assert!(matches!(j.on(JoinEvent::Done), JoinAsk::Cue(t) if t == vec![90]));
    assert!(matches!(j.on(JoinEvent::Done), JoinAsk::Finish));
    let mut stats = Stats::new();
    let (_, base) = j.finish(&mut stats);
    assert_eq!((stats.tokens_adopted, stats.adopt_fallbacks), (1, 2));
    assert_eq!(base.next_pos(), 13);
}

#[test]
fn a_textual_join_appends() {
    let branches = vec![branch(vec![1], false), branch(vec![5, 6], false)];
    let base = PCtx { seq_len: 5, buffered: 1, delta: 0 };
    let (mut j, ask) = Join::begin(
        JoinMode::Textual,
        &fork(),
        branches,
        vec![(5, 1), (5, 1)],
        vec![90, 91],
        base,
    );
    assert!(matches!(ask, JoinAsk::Append { sibling: 1 }));
    assert!(matches!(j.on(JoinEvent::Done), JoinAsk::Release { sibling: 1 }));
    assert!(matches!(j.on(JoinEvent::Done), JoinAsk::Cue(t) if t == vec![90, 91]));
    assert!(matches!(j.on(JoinEvent::Done), JoinAsk::Finish));
    let (_, base) = j.finish(&mut Stats::new());
    assert_eq!(base, PCtx { seq_len: 5, buffered: 5, delta: 0 });
    assert_ne!(Stage::Finished, Stage::Cueing);
}

#[test]
fn a_trajectory_names_its_end() {
    let mut t = Trajectory::new();
    assert_eq!(t.take_primer("x</guideline> \n"), TopStep::Fork);
    assert_eq!(t.take_primer("plain"), TopStep::Decode);
    assert_eq!(t.take_segment(b"seg", Stop::GuidelineEnd), TopStep::Fork);
    let j = join_branches(&[branch(vec![1], true)], &[2]);
    assert_eq!(t.take_primer_join(&j), TopStep::Decode);
    assert_eq!(t.stop_reason, "unknown");
    assert_eq!(t.take_join(&j), TopStep::End);
    assert_eq!(t.stop_reason, "branch_terminal");
    assert_eq!(t.take_segment(b"", Stop::Budget), TopStep::End);
    assert_eq!(t.stop_reason, "budget");
    assert!(t.text().starts_with("x</guideline> \nplainseg"));
}

#[test]
fn bytes_that_are_no_text_are_replaced() {
    let mut segment = Segment::start(0);
    segment.bytes = vec![b'a', 0xff, b'b'];
    assert_eq!(segment.text(), "a\u{fffd}b");
    let mut made = Trajectory::new();
    made.take_segment("é".as_bytes(), Stop::GuidelineEnd);
    made.take_segment(&[0xc3], Stop::Eos);
    assert_eq!(made.text(), "é\u{fffd}");
}

#[test]
fn a_textual_join_asks_nothing_of_its_opening() {
    let branches = vec![branch(vec![1], false), branch(vec![5], false)];
    let base = PCtx { seq_len: 5, buffered: 0, delta: 0 };
    let far = Fork { labels: vec![], fork_slots: 4, p_fork: u32::MAX, charged_before: 0 };
    let (mut j, ask) =
        Join::begin(JoinMode::Textual, &far, branches, vec![(5, 0), (5, 0)], vec![], base);
    assert!(matches!(ask, JoinAsk::Append { sibling: 1 }));
    assert!(matches!(j.on(JoinEvent::Done), JoinAsk::Release { sibling: 1 }));
    assert!(matches!(j.on(JoinEvent::Done), JoinAsk::Cue(t) if t.is_empty()));
    assert!(matches!(j.on(JoinEvent::Done), JoinAsk::Finish));
    let (joined, base) = j.finish(&mut Stats::new());
    assert_eq!(joined.tokens, vec![1, 5]);
    assert_eq!(base, PCtx { seq_len: 5, buffered: 1, delta: 0 });
}

#[test]
fn tags_keep_their_tokens() {
    let vocab = Vocab::new(
        &[5, 6],
        &[b"<step>".to_vec(), b"a".to_vec()],
        &[9],
        &[b"</step>".to_vec()],
    );
    assert_eq!(vocab.bytes_of(6), b"a");
    assert_eq!(vocab.special_id("</step>"), Some(9));
    assert_eq!(tag(4), "<step>");
    let pieces = encode_with_tags(&vocab, "x<step>y</step>");
    let shown: Vec<String> = pieces
        .iter()
        .map(|p| match p {
            Piece::Encode(s) => format!("{:?}", s),
            Piece::Token(t) => format!("{}", t),
        })
        .collect();
    assert!(shown.contains(&"9".to_string()));
    assert_eq!(shown.first(), Some(&"\"x\"".to_string()));
}

#[test]
fn a_run_is_reported() {
    assert_eq!(default_join_mode(), "refill");
    assert!(user_turn("Q?", "I.").contains("Q?"));
    assert!(primer_forks("<guideline><plan>1: a</plan></guideline>"));
    assert!(oracle_prompt(2).len() > oracle_prompt(0).len());
    let run = Run {
        answer: Some("7".to_string()),
        join_mode: "adopt".to_string(),
        join_ms: 3,
        prompt_cache: "miss".to_string(),
        stop_reason: "eos".to_string(),
        elapsed_ms: 12,
        trajectory: "t".to_string(),
    };
    let ledger = Ledger { budget: 10, charged: 4, prompt_end_pos: 0 };
    let v: serde_json::Value =
        serde_json::from_str(&report(&run, &Stats::new(), &ledger)).unwrap();
    assert_eq!(v["answer"], "7");
    assert_eq!(v["join_mode"], "adopt");
    assert_eq!(v["parallel_blocks"], 0);
}

#[test]
fn condensed_masks_hide_the_middle() {
    assert_eq!(tok(0), 1000);
    assert_eq!(tok(30000), 1000);
    assert_eq!(build_mask(10, 2, 3), vec![0, 2, 5, 3]);
    assert_eq!(build_mask(4, 2, 3), vec![0, 4]);
    assert_eq!(build_prefill_masks(8, 2, 2, 3).len(), 2);
    assert_eq!(compact_context(&[0, 1, 2, 3, 4, 5], 2, 4, 6), vec![0, 1, 4, 5]);
    assert_eq!(turn_masks(2, 5, 7, 1), vec![vec![0, 2, 3, 3]]);
    assert_eq!(turn_masks(5, 5, 7, 1), vec![vec![0, 8]]);
    assert_eq!(rebuilt_tokens(2, 3, 100), vec![1000, 1001, 1097, 1098, 1099]);
}

#[test]
fn probes_are_planned() {
    let ids: Vec<u32> = (0..40).collect();
    let plan = quality_plan(&ids, 4, 8, 3).ok().unwrap();
    assert_eq!(plan.queries, vec![36, 37, 38]);
    assert_eq!(plan.gold, vec![37, 38, 39]);
    assert_eq!(plan.rebuilt, vec![8, 9, 10]);
    assert_eq!(plan.compact.len(), 12);
    // Each rebuilt query reads the token it reads in full.
    for i in 0..3 {
        assert_eq!(plan.compact[plan.rebuilt[i] as usize], ids[plan.queries[i] as usize]);
    }
    assert_eq!(quality_plan(&ids, 30, 8, 3).err(), Some(PlanError::WindowTooShort));
    assert_eq!(quality_plan(&ids, 1, 1, 39).err(), Some(PlanError::WindowTooShort));
    let future = future_plan(&ids, 4, 8, 3, 20).ok().unwrap();
    assert_eq!(future.cont, vec![20, 21, 22]);
    assert_eq!(future.gold, vec![21, 22, 23]);
    assert_eq!(future_plan(&ids, 4, 8, 3, 38).err(), Some(PlanError::HistoryTooShort));
    let starts = [2u32, 10, 20, 30];
    assert_eq!(probe_turns(&starts, 1, 2, 15, 40).ok(), Some(vec![2, 3]));
    assert_eq!(probe_turns(&starts, 1, 2, 35, 40).err(), Some(PlanError::NothingOverflows));
    let p = probe_at(&starts, 3, 1);
    assert_eq!((p.history, p.kept_start, p.dropped), (30, 20, 18));
    let replay = replay_plan(&ids, &starts, 1, 2, 15).ok().unwrap();
    assert_eq!(replay.len(), 2);
    assert_eq!(replay[1].probe, p);
    assert_eq!(replay[1].cont, vec![30, 31]);
    assert_eq!(replay[1].gold, vec![31, 32]);
    assert_eq!(replay[1].masks, vec![vec![0, 2, 18, 11], vec![0, 2, 18, 12]]);
    assert_eq!(replay[1].compact.len(), 12);
    assert_eq!(replay_plan(&ids, &starts, 3, 2, 15).err(), Some(PlanError::TooFewTurns));
    // Only the turns that are probed need stand in order.
    assert_eq!(replay_plan(&ids, &[9, 2], 1, 2, 15).err(), Some(PlanError::TooFewTurns));
    assert_eq!(
        replay_plan(&ids, &[9, 2, 1], 1, 2, 15).err(),
        Some(PlanError::NothingOverflows)
    );
    assert_eq!(replay_plan(&ids, &[2, 1, 20, 30], 1, 2, 25).ok().map(|p| p.len()), Some(1));
    assert_eq!(pick_mode(0, 3, 1), Mode::Schedule);
    assert_eq!(pick_mode(5, 3, 1), Mode::Replay);
    assert_eq!(pick_mode(5, 0, 1), Mode::Future);
    assert_eq!(pick_mode(5, 0, 0), Mode::Window);
    assert_eq!(
        PlanError::TooFewTurns.message(),
        "trajectory has too few turns for keep_recent_turns"
    );
}

#[test]
fn both_paths_condense_together() {
    let s = Schedule {
        turn_tokens: 40,
        decode_per_turn: 10,
        context_limit: 120,
        sink: 10,
        keep: 30,
    };
    let mut a = Path::start();
    assert_eq!((a.decode_window(&s, 0), a.decode_window(&s, 9)), (40, 49));
    let mut condensed: Vec<bool> = vec![];
    for _ in 0..4 {
        condensed.push(a.end_turn(&s));
    }
    assert_eq!(condensed, vec![false, false, true, false]);
    assert_eq!(a, Path { logical: 200, window: 80, condensations: 1 });
    assert_eq!(coherence(&[1, 2, 3], &[1, 9, 3]), (2, 3));
}
