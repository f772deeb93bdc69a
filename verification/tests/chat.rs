use pie::chat::apc::{
    aligned_cuts, publish, sample, Lookup, ParkRefusal, Plan, Probe, Resume, BOUNDARY_STRIDE,
    PUBLISH_MAX,
};
use pie::chat::coder_xml::{parse_coder_xml_calls, read_integer};
use pie::chat::engine::{
    begin, ceil_div, decode_budget, decode_step, pool_ids, pool_pages, prefill_chunk,
    prompt_or_pad, retires, start, Begin, ForwardKind,
};
use pie::chat::filter::VisibleFilter;
use pie::chat::handler::{
    after_step, context_turns, error_response, lookup_text, outcome_of, parse_fenced_tool_calls,
    parse_setup, response_body, salvage_functions, salvage_stream, saved_text, Lookup as Found, Saved,
    TurnOutcome, TurnSetup,
};
use pie::chat::prompt::{
    build_prompt, has_token, plan_prompt, reject, reject_build, render_history, split_cue,
    status_message, uniq_fragment, with_turn_start, BuildError,
};
use pie::chat::render::{render_full, render_messages};
use pie::chat::streaming::ChunkMeta as FrameMeta;
use pie::chat::turn::{Ending, Flow, TextEvent, ToolCallOut, TurnState};
use pie::replay::ReplayOp;
use pie::serving::render::RenderOp;
use pie::serving::streaming::ChunkMeta;
use pie::serving::types::{
    ChatCompletionRequest, ChatMessage, MessageContent, StreamOptions, ToolCallFunction, ToolCallIn,
};
use serde_json::Value;

fn json(text: &str) -> Value {
    serde_json::from_str(text).unwrap()
}

fn chat(role: &str, text: &str) -> ChatMessage {
    ChatMessage {
        role: role.to_string(),
        content: Some(MessageContent::Text(text.to_string())),
        tool_calls: None,
        tool_call_id: None,
        reasoning_content: None,
    }
}

fn calling(text: &str, name: &str, args: &str) -> ChatMessage {
    let mut m = chat("assistant", text);
    m.tool_calls = Some(vec![ToolCallIn {
        id: "c".to_string(),
        function: ToolCallFunction { name: name.to_string(), arguments: args.to_string() },
    }]);
    m
}

fn request(messages: Vec<ChatMessage>) -> ChatCompletionRequest {
    ChatCompletionRequest {
        pie_context_policy: None,
        model: None,
        messages,
        tools: vec![],
        max_tokens: None,
        max_completion_tokens: None,
        stream: true,
        stream_options: StreamOptions { include_usage: true },
        stop: None,
        chat_template_kwargs: None,
    }
}

// ─── Prefix cache ──────────────────────────────────────────────────────────

#[test]
fn cuts_align_down_and_run_ascending() {
    assert_eq!(aligned_cuts(&[7, 20, 33, 40], 16, 100), vec![16, 32]);
}

#[test]
fn an_aligned_history_tip_is_a_candidate() {
    assert_eq!(aligned_cuts(&[64], 16, 64), vec![64]);
    assert!(aligned_cuts(&[80], 16, 64).is_empty());
}

#[test]
fn a_zero_page_size_yields_no_candidates_rather_than_dividing_by_zero() {
    assert!(aligned_cuts(&[16, 32], 0, 100).is_empty());
}

#[test]
fn one_park_per_turn_is_the_deepest_cut() {
    let cuts: Vec<u32> = (1..=40).map(|i| i * 256).collect();
    let picked = sample(&cuts, PUBLISH_MAX);
    assert_eq!(picked.last(), cuts.last());
    assert!(picked.len() <= PUBLISH_MAX);
}

#[test]
fn the_sample_keeps_both_ends_when_it_has_room() {
    let cuts: Vec<u32> = (1..=40).map(|i| i * 256).collect();
    let picked = sample(&cuts, 8);
    assert_eq!(picked.len(), 8);
    assert_eq!(picked[0], cuts[0]);
    assert_eq!(picked[7], cuts[cuts.len() - 1]);
    assert!(picked.windows(2).all(|w| w[0] < w[1]));
}

#[test]
fn a_ladder_shorter_than_the_budget_is_published_whole() {
    assert_eq!(sample(&[16u32, 32, 48], 8), vec![16, 32, 48]);
    assert!(sample::<u32>(&[], PUBLISH_MAX).is_empty());
    assert!(sample::<u32>(&[], 8).is_empty());
}

#[test]
fn an_unsorted_ladder_is_sorted() {
    assert_eq!(aligned_cuts(&[48, 16, 47, 16], 16, 48), vec![16, 32, 48]);
}

#[test]
fn the_ladder_is_probed_longest_first() {
    let history: Vec<u32> = (0..64).collect();
    let plan = Plan::build("m", &history, &[16, 40, 64], 16);
    assert_eq!(plan.len(), 3);
    let first = match plan.resume(&[]) {
        Probe::Ask(r) => r,
        _ => panic!("a question is owed"),
    };
    assert_eq!(first.cached_tokens, 64);
    match plan.resume(&[Lookup::Miss]) {
        Probe::Ask(r) => assert_eq!(r.cached_tokens, 32),
        _ => panic!("a question is owed"),
    }
    match plan.resume(&[Lookup::Miss, Lookup::Hit]) {
        Probe::Hit(r) => {
            assert_eq!(r.cached_tokens, 32);
            assert_eq!(r.address.len(), 32);
            assert_ne!(r.address, first.address);
        }
        _ => panic!("a hit resumes"),
    }
    assert!(matches!(
        plan.resume(&[Lookup::Miss, Lookup::Failed, Lookup::Miss]),
        Probe::Cold
    ));
    let parked = plan.publish_set();
    assert_eq!(parked.len(), 1);
    assert_eq!(parked[0].0, 64);
    assert_eq!(parked[0].1, first.address);
}

#[test]
fn parking_refuses_partial_pages() {
    assert_eq!(publish(32, 16, 2), Ok(2));
    assert_eq!(publish(33, 16, 9), Err(ParkRefusal::Unaligned { cut: 33, page: 16 }));
    assert_eq!(publish(0, 16, 9), Err(ParkRefusal::Unaligned { cut: 0, page: 16 }));
    assert_eq!(publish(32, 0, 9), Err(ParkRefusal::Unaligned { cut: 32, page: 0 }));
    let short = publish(48, 16, 2).unwrap_err();
    assert_eq!(short, ParkRefusal::Short { pages: 3, have: 2 });
    assert_eq!(short.message(), "refusing to publish 3 page(s) from a 2-page set");
    assert_eq!(
        publish(33, 16, 9).unwrap_err().message(),
        "refusing to publish an unaligned cut 33 (page 16)"
    );
}

// ─── Coder XML ─────────────────────────────────────────────────────────────

#[test]
fn handler_fenced_tool_call_is_extracted() {
    let text = "Prose first.\n\n```json\n{\"name\": \"run_shell_command\", \"arguments\": {\"command\": \"ls\"}}\n```";
    let calls = parse_fenced_tool_calls(text);
    assert_eq!(calls.len(), 1);
    assert_eq!(calls[0].1, "run_shell_command");
    assert_eq!(&text[..calls[0].0], "Prose first.\n\n");
}

#[test]
fn handler_non_tool_fences_are_ignored() {
    let text = "```python\nprint('hi')\n```\n```json\n{\"foo\": 1}\n```";
    assert!(parse_fenced_tool_calls(text).is_empty());
}

#[test]
fn bare_function_block_is_salvaged_and_typed() {
    let schemas = vec![json(
        r#"{"name": "run_shell_command", "description": "d",
            "parameters": {"type": "object", "properties": {
                "command": {"type": "string"},
                "timeout": {"type": "integer"}}}}"#,
    )
    .to_string()];
    let text = "I'll create it.\n\n<function=run_shell_command>\n<parameter=command>\necho 'x' > /tmp/a.txt\n</parameter>\n<parameter=timeout>\n30\n</parameter>\n</function>\n</tool_call>";
    let calls = parse_coder_xml_calls(text, &schemas);
    assert_eq!(calls.len(), 1);
    assert_eq!(calls[0].0, "run_shell_command");
    let args: serde_json::Value = serde_json::from_str(&calls[0].1).unwrap();
    assert_eq!(args["command"], "echo 'x' > /tmp/a.txt");
    assert_eq!(args["timeout"], 30);
}

#[test]
fn a_repeated_parameter_keeps_its_last_value() {
    let text = "<function=f>\n<parameter=a>\n1\n</parameter>\n<parameter=b>\n2\n</parameter>\n<parameter=a>\n3\n</parameter>\n</function>";
    let calls = parse_coder_xml_calls(text, &[]);
    assert_eq!(calls.len(), 1);
    let args: serde_json::Value = serde_json::from_str(&calls[0].1).unwrap();
    assert_eq!(args, json(r#"{"a":"3","b":"2"}"#));
}

#[test]
fn no_function_block_yields_nothing() {
    assert!(parse_coder_xml_calls("plain text </tool_call>", &[]).is_empty());
}

#[test]
fn parameters_follow_their_declared_types() {
    let schemas = vec![
        "not json".to_string(),
        r#"{"name":"f","parameters":{"properties":{
            "i":{"type":"integer"},"n":{"type":"number"},"b":{"type":"boolean"},
            "o":{"type":"object"},"a":{"type":"array"},"s":{"type":"string"}}}}"#
            .to_string(),
    ];
    let call = |key: &str, val: &str| -> Value {
        let text =
            format!("<function=f><parameter={key}>{val}</parameter></function>");
        let calls = parse_coder_xml_calls(&text, &schemas);
        let args: Value = serde_json::from_str(&calls[0].1).unwrap();
        args[key].clone()
    };
    assert_eq!(call("i", " -7\n"), -7);
    assert_eq!(call("i", "7.5"), "7.5");
    assert_eq!(call("i", "9223372036854775808"), "9223372036854775808");
    assert_eq!(call("n", " 1.5 "), 1.5);
    assert_eq!(call("n", "2"), 2.0);
    assert_eq!(call("n", "inf"), "inf");
    assert_eq!(call("n", "x"), "x");
    assert_eq!(call("b", "true"), true);
    assert_eq!(call("b", "false\n"), false);
    assert_eq!(call("b", "yes"), "yes");
    assert_eq!(call("o", "{\"k\":[1]}"), json("{\"k\":[1]}"));
    assert_eq!(call("a", "[1, 2]"), json("[1,2]"));
    assert_eq!(call("a", "[1"), "[1");
    assert_eq!(call("s", "\n\n12\n\n"), "\n12\n");
    assert_eq!(call("unknown", "true"), "true");
}

#[test]
fn function_blocks_come_in_order_and_nameless_ones_are_left_out() {
    let text = "<function=a></function> <function= ></function><function=b>\
                <parameter=k>1</parameter><parameter=k>2</parameter></function><function=c>";
    let calls = parse_coder_xml_calls(text, &[]);
    assert_eq!(calls.len(), 2);
    assert_eq!(calls[0], ("a".to_string(), "{}".to_string()));
    assert_eq!(calls[1], ("b".to_string(), "{\"k\":\"2\"}".to_string()));
}

#[test]
fn integers_read_like_the_standard_library() {
    for text in [
        "0", "-0", "+5", "12", "-9223372036854775808", "9223372036854775807",
        "9223372036854775808", "-9223372036854775809", "", "-", "+", "1a", " 1", "--1", "007",
        "123456789012345678901234567890",
    ] {
        let chars: Vec<char> = text.chars().collect();
        assert_eq!(read_integer(&chars), text.parse::<i64>().ok(), "{text:?}");
    }
}

// ─── Engine ────────────────────────────────────────────────────────────────

#[test]
fn a_generation_begins_by_its_model() {
    assert_eq!(begin(0, ForwardKind::Attention), Begin::Nothing);
    assert_eq!(begin(1, ForwardKind::Attention), Begin::Run { folded: false });
    assert_eq!(begin(1, ForwardKind::Hybrid), Begin::Run { folded: true });
    assert_eq!(begin(1, ForwardKind::Recurrent), Begin::NoPages);
    assert_eq!(prompt_or_pad(&[]), vec![0]);
    assert_eq!(prompt_or_pad(&[5, 6]), vec![5, 6]);
}

fn at(cached: u32) -> Option<Resume> {
    Some(Resume { cached_tokens: cached, address: "a".to_string() })
}

#[test]
fn a_resume_that_does_not_fit_is_dropped() {
    let good = start(at(64), 100, 16, 4);
    assert_eq!((good.cached, good.resumed.as_deref(), good.dropped), (64, Some("a"), None));
    for (cached, n, have) in [(64, 64, 4), (65, 100, 4), (64, 100, 5), (64, 100, 3)] {
        let bad = start(at(cached), n, 16, have);
        assert_eq!((bad.cached, bad.resumed, bad.dropped.as_deref()), (0, None, Some("a")));
    }
    let cold = start(None, 100, 16, 0);
    assert_eq!((cold.cached, cold.resumed, cold.dropped), (0, None, None));
}

#[test]
fn the_pool_is_a_power_of_two_below_the_limit() {
    // 100 + 10 + 2 tokens are 7 pages of 16, which the floor lifts to 8.
    assert_eq!(pool_pages(100, 10, 16, 0, 0), 8);
    assert_eq!(pool_pages(1000, 100, 16, 2048, 0), 128);
    // 1,100 pages: the power of two would be the whole pool of 2,048.
    assert_eq!(pool_pages(1100 * 16 - 102, 100, 16, 2048, 0), 1152);
    // More than the limit leaves free is reserved as it is needed.
    assert_eq!(pool_pages(2000 * 16 - 102, 100, 16, 2048, 0), 2000);
    assert_eq!(pool_pages(100, 10, 16, 2048, 77), 77);
}

#[test]
fn cells_follow_the_page_table() {
    let pool = pool_ids(2, &[9, 7]);
    assert_eq!(pool, vec![0, 1, 9, 7]);
    let g = prefill_chunk((0, 3), 8, &pool, 4);
    assert_eq!(g.positions, vec![8, 9, 10]);
    assert_eq!(g.slots, vec![9, 9, 9]);
    assert_eq!(g.offsets, vec![0, 1, 2]);
    assert_eq!((g.kv_len, g.pages, g.writable_from), (11, 3, 2));
    let d = decode_step(9, 12, &pool, 4);
    assert_eq!((d.positions, d.slots, d.offsets), (vec![12], vec![7], vec![0]));
    assert_eq!((d.kv_len, d.pages, d.writable_from), (13, 4, 2));
    assert_eq!(ceil_div(13, 4), 4);
    assert_eq!(ceil_div(u32::MAX, u32::MAX), 1);
}

#[test]
fn the_first_token_is_paid_by_prefill() {
    assert_eq!(decode_budget(false, 5), 4);
    assert_eq!(decode_budget(true, 5), 0);
    assert_eq!(decode_budget(false, 0), 0);
}

#[test]
fn an_entry_is_retired_only_for_a_replacement() {
    let publish = vec![(64, "b".to_string())];
    assert!(retires(Some("a"), &publish, 1));
    assert!(!retires(Some("a"), &publish, 0));
    assert!(!retires(Some("b"), &publish, 1));
    assert!(!retires(None, &publish, 1));
}

// ─── Prompts ───────────────────────────────────────────────────────────────

#[test]
fn fragments_are_short_and_never_empty() {
    assert_eq!(uniq_fragment("ab-cd_12/XY!z0123456"), "abcd12XYz012");
    assert_eq!(uniq_fragment("--é--"), "local");
}

#[test]
fn envelopes_reject_with_a_status_first() {
    assert_eq!(status_message(200), json(r#"{"status": 200}"#));
    let (head, body) = reject(400, "invalid_request_error", "no");
    assert_eq!(head["status"], 400);
    assert_eq!(body["error"]["message"], "no");
    let (head, body) = reject_build(&BuildError::Fault("secret".to_string()));
    assert_eq!(head["status"], 500);
    assert_eq!(body["error"]["message"], "internal error while rendering the prompt");
    assert_eq!(body["error"]["type"], "server_error");
    let (head, body) = reject_build(&BuildError::Invalid("role".to_string()));
    assert_eq!(head["status"], 400);
    assert_eq!(body["error"]["message"], "role");
}

#[test]
fn the_turn_start_joins_the_stop_set_once() {
    assert_eq!(with_turn_start(vec![1, 2], &[3]), vec![1, 2, 3]);
    assert_eq!(with_turn_start(vec![1, 2], &[2]), vec![1, 2]);
    assert_eq!(with_turn_start(vec![1, 2], &[3, 4]), vec![1, 2]);
    assert!(has_token(&[1, 2], 2));
    assert!(!has_token(&[1, 2], 3));
}

#[test]
fn a_plan_is_cleaned_and_split_at_its_cue() {
    let mut r = request(vec![chat("system", "s"), chat("user", "a<|x|>b")]);
    let ops = plan_prompt(&mut r, &["<|x|>".to_string()]).ok().unwrap();
    assert_eq!(r.messages[1].text(), "ab");
    assert_eq!(ops.len(), 3);
    assert_eq!(split_cue(&ops).ok(), Some(2));
    assert!(split_cue(&ops[..2]).is_err());
    let mut bad = request(vec![chat("robot", "?")]);
    match plan_prompt(&mut bad, &[]) {
        Err(BuildError::Invalid(m)) => assert_eq!(m, "unsupported message role: robot"),
        _ => panic!("a robot has no turn"),
    }
    assert_eq!(ops[2], RenderOp::Cue(false));
}

#[test]
fn boundaries_are_unit_ends_and_stride_points() {
    let units = vec![vec![1u32; 10], vec![2; 600], vec![], vec![3; 158]];
    let (tokens, bounds) = render_history(&units);
    assert_eq!(tokens.len(), 768);
    assert_eq!(bounds, vec![10, 256, 512, 610, 768]);
    assert_eq!(BOUNDARY_STRIDE, 256);
    let p = build_prompt(&units, &[7, 8]);
    assert_eq!(p.history_len, 768);
    assert_eq!(p.tokens.len(), 770);
    assert_eq!(&p.tokens[768..], &[7, 8]);
    assert_eq!(p.boundaries, bounds);
}

// ─── Turns ─────────────────────────────────────────────────────────────────

fn meta() -> ChunkMeta {
    ChunkMeta { id: "chatcmpl-u".to_string(), model: "m".to_string(), created: 1 }
}

fn frames() -> FrameMeta {
    FrameMeta { id: "chatcmpl-u".to_string(), model: "m".to_string(), created: 1 }
}

fn turn(streaming: bool) -> TurnState {
    TurnState::new(meta(), streaming, "u".to_string(), vec![99], vec!["STOP".to_string()])
}

fn delta(s: &str) -> TextEvent {
    TextEvent::Delta(s.to_string())
}

#[test]
fn a_turn_streams_what_it_shows() {
    let mut t = turn(true);
    assert_eq!(t.on_token(1, None, delta("Hi <thi")), Flow::Continue);
    assert_eq!(t.on_token(2, None, delta("nk>secret</think>!")), Flow::Continue);
    let call = Some(("f".to_string(), "{}".to_string()));
    assert_eq!(t.on_token(3, call, TextEvent::Quiet), Flow::Continue);
    let again = Some(("f".to_string(), "{}".to_string()));
    assert_eq!(t.on_token(99, again, delta("never read")), Flow::Break);
    t.flush_tail();
    assert_eq!(t.visible_text, "Hi !");
    assert_eq!(t.generated, vec![1, 2, 3, 99]);
    assert_eq!(t.calls.len(), 1);
    assert_eq!(t.calls[0].id, "call_u_0");
    let sent = t.take_sent();
    let spoken: String = sent
        .iter()
        .filter_map(|v| v["choices"][0]["delta"]["content"].as_str())
        .collect();
    assert_eq!(spoken, "Hi !");
    assert_eq!(sent.len(), 3);
    assert!(t.take_sent().is_empty());
    assert_eq!(t.finish_reason(false, false), "tool_calls");
}

#[test]
fn stop_strings_end_a_turn_on_the_visible_tail() {
    let mut t = turn(false);
    assert_eq!(t.on_token(1, None, delta("a STO")), Flow::Continue);
    assert_eq!(t.on_token(2, None, delta("P")), Flow::Break);
    assert!(t.take_sent().is_empty());
    let mut d = turn(false);
    assert_eq!(d.on_token(1, None, TextEvent::Done), Flow::Break);
}

#[test]
fn missed_calls_are_salvaged() {
    let mut t = turn(true);
    t.on_token(1, None, delta("```json\n{\"name\":\"f\",\"arguments\":{\"a\":1}}\n```"));
    t.flush_tail();
    t.salvage(true, "");
    assert_eq!(t.calls[0].name, "f");
    assert_eq!(t.calls[0].arguments, "{\"a\":1}");

    let mut h = turn(true);
    h.salvage(false, "<tool_call>{\"name\":\"g\"}");
    assert!(h.calls.is_empty());
    h.salvage(true, "<tool_call>{\"name\":\"g\"}");
    assert_eq!(h.calls[0].name, "g");
    assert_eq!(h.calls[0].arguments, "{}");
}

fn ending(max_tokens: usize) -> Ending {
    Ending {
        max_tokens,
        gen_error: false,
        prompt_tokens: 7,
        cached_tokens: 4,
        include_usage: true,
    }
}

#[test]
fn an_empty_turn_still_delivers_content() {
    let mut t = turn(true);
    t.on_token(1, None, delta("<think>hm"));
    t.flush_tail();
    t.close_stream(&ending(9), "<think>hm</think> forty-two ");
    let sent = t.take_sent();
    assert_eq!(sent.len(), 3);
    assert_eq!(sent[0]["choices"][0]["delta"]["content"], "forty-two");
    assert_eq!(sent[1]["choices"][0]["finish_reason"], "stop");
    assert_eq!(sent[2]["usage"]["total_tokens"], 8);
    assert_eq!(turn(true).final_content("<think>x"), "…");
    assert_eq!(
        t.summary(&ending(1), Some("oops")),
        "finish=length prompt=7 cached=4 generated=1 calls=0 degraded: oops"
    );
}

#[test]
fn a_whole_answer_is_trimmed_and_cut() {
    let mut t = turn(false);
    t.on_token(1, None, delta("let me see\n</thin"));
    t.on_token(2, None, delta("k>The answer.  "));
    t.flush_tail();
    let v = t.close_whole(&ending(9), "");
    assert_eq!(v["choices"][0]["message"]["content"], "let me see\nThe answer.");
    assert_eq!(v["choices"][0]["finish_reason"], "stop");
    assert_eq!(v["usage"]["completion_tokens"], 2);
}

// ─── The resuming handler ──────────────────────────────────────────────────

#[test]
fn a_closer_that_closes_nothing_is_content_here() {
    let mut f = VisibleFilter::new();
    let mut out = f.feed("a</think>b<tool_call>x</tool_call>");
    out.push_str(&f.finish());
    assert_eq!(out, "a</think>b");
}

fn setup(messages: Vec<ChatMessage>) -> TurnSetup {
    TurnSetup {
        messages,
        tool_schemas: vec![],
        max_tokens: 3,
        no_think: true,
        stop_strings: vec!["END".to_string()],
        include_usage: true,
    }
}

#[test]
fn a_setup_is_read_from_its_request() {
    let (s, stream) = parse_setup(request(vec![chat("user", "hi")])).ok().unwrap();
    assert!(stream);
    assert!(s.include_usage);
    assert!(!s.no_think);
    assert_eq!(s.max_tokens, 4096);
    assert_eq!(
        parse_setup(request(vec![])).err().unwrap(),
        "`messages` must be a non-empty array"
    );
}

#[test]
fn user_turns_carry_the_switch_wherever_they_stand() {
    let m = vec![
        chat("developer", "d"),
        chat("user", "one \n"),
        calling("", "f", "{}"),
        chat("tool", "r1"),
        chat("tool", "r2"),
        chat("user", "two"),
    ];
    let ops = render_messages(&m, true).unwrap();
    assert_eq!(
        ops,
        vec![
            ReplayOp::System("d".to_string()),
            ReplayOp::User("one /no_think".to_string()),
            ReplayOp::AssistantWithToolCalls {
                content: None,
                calls: vec![("f".to_string(), "{}".to_string())]
            },
            ReplayOp::AnswerBatch(vec![
                (String::new(), "r1".to_string()),
                (String::new(), "r2".to_string())
            ]),
            ReplayOp::User("two /no_think".to_string()),
        ]
    );
    // What is behind a resume point renders as it does in the whole.
    let s = setup(m);
    let suffix = context_turns(&s, Some(3)).unwrap();
    assert_eq!(suffix, ops[3..]);
    assert_eq!(context_turns(&s, None).unwrap(), ops);
    assert_eq!(
        render_messages(&[chat("robot", "?")], false).unwrap_err(),
        "unsupported message role: robot"
    );
}

#[test]
fn schemas_fold_into_a_leading_system_message() {
    let schemas = vec!["{}".to_string()];
    let ops = render_full(&[chat("system", ""), chat("user", "u")], &schemas, false).unwrap();
    assert_eq!(
        ops[0],
        ReplayOp::EquipAfterSystem { system: None, tools: schemas.clone() }
    );
    assert_eq!(ops[1], ReplayOp::User("u".to_string()));
    let ops = render_full(&[chat("user", "u")], &schemas, false).unwrap();
    assert_eq!(ops[0], ReplayOp::Equip(schemas));
}

#[test]
fn a_stream_ends_at_a_stop_string_or_the_limit() {
    let s = setup(vec![chat("user", "u")]);
    let mut t = TurnState::watching(meta(), true, "u".to_string(), vec![], vec![], 2);
    t.on_token(1, None, delta("a"));
    assert_eq!(after_step(&t, &s), Flow::Continue);
    t.on_token(2, None, delta(" END"));
    assert_eq!(after_step(&t, &s), Flow::Break);
    let mut l = TurnState::watching(meta(), true, "u".to_string(), vec![], vec![], 2);
    for i in 0..3 {
        l.on_token(i, None, TextEvent::Quiet);
    }
    assert_eq!(after_step(&l, &s), Flow::Break);
}

#[test]
fn bare_function_blocks_are_salvaged_last() {
    let schemas = vec!["{\"name\":\"f\"}".to_string()];
    let mut t = TurnState::watching(meta(), true, "u".to_string(), vec![], vec![], 2);
    t.on_token(1, None, delta("<function=f></function><function=f></function>"));
    t.flush_tail();
    salvage_stream(&mut t, &[]);
    assert!(t.calls.is_empty());
    salvage_stream(&mut t, &schemas);
    assert_eq!(t.calls.len(), 2);
    assert_eq!(t.calls[1].id, "call_u_1");

    let mut w = TurnState::watching(meta(), false, "u".to_string(), vec![], vec![], 2);
    w.on_token(1, None, delta("```\n{\"name\":\"g\",\"arguments\":{}}\n```<function=f></function>"));
    w.trim_visible();
    salvage_functions(&mut w, &schemas);
    assert_eq!(w.calls[0].name, "f");
}

fn outcome(visible: &str, raw: &str, calls: usize) -> TurnOutcome {
    TurnOutcome {
        visible_text: visible.to_string(),
        raw_text: raw.to_string(),
        calls: (0..calls)
            .map(|i| ToolCallOut {
                id: format!("call_u_{i}"),
                name: "f".to_string(),
                arguments: "{}".to_string(),
            })
            .collect(),
        prompt_tokens: 5,
        n_generated: 2,
        hit_max: false,
        gen_error: None,
    }
}

#[test]
fn outcomes_always_have_content_or_calls() {
    assert_eq!(outcome("a", "x", 0).final_content(), "a");
    assert_eq!(outcome("", "<think> b </think>", 0).final_content(), "b");
    assert_eq!(outcome("", "<think></think>", 0).final_content(), "…");
    assert_eq!(outcome("", "x", 1).final_content(), "");
    assert_eq!(outcome("", "x", 1).finish_reason(), "tool_calls");
    let mut o = outcome("a", "x", 0);
    assert_eq!(o.finish_reason(), "stop");
    o.gen_error = Some("e".to_string());
    assert_eq!(o.finish_reason(), "length");
    let v = response_body(&meta(), &outcome("a", "x", 1), 3);
    assert_eq!(v["choices"][0]["message"]["content"], "a");
    assert_eq!(v["choices"][0]["message"]["tool_calls"][0]["id"], "call_u_0");
    assert_eq!(v["usage"]["prompt_tokens_details"]["cached_tokens"], 3);
    let t = TurnState::watching(meta(), false, "u".to_string(), vec![], vec![], 2);
    assert!(outcome_of(&t, String::new(), 1, 0, None).hit_max);
}

#[test]
fn saves_and_lookups_are_told() {
    assert_eq!(lookup_text(&Found::First), "first turn (no resume point)");
    assert_eq!(
        lookup_text(&Found::Hit { name: "n".to_string(), cached: 8 }),
        "resume hit n (cached 8)"
    );
    assert_eq!(
        lookup_text(&Found::Miss { name: "n".to_string(), error: "gone".to_string() }),
        "resume miss n: gone"
    );
    let kept = Saved::Kept { name: "n".to_string(), seq_len: 9 };
    assert_eq!(saved_text(&kept), "saved n (seq 9)");
    let failed = Saved::Failed { name: "n".to_string(), error: "full".to_string() };
    assert_eq!(saved_text(&failed), "save n failed: full");
    assert_eq!(saved_text(&Saved::FlushFailed("x".to_string())), "save flush failed: x");
    assert_eq!(error_response("server_error", "m")["error"]["message"], "m");
}
