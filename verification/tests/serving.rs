use pie::serving::context_policy::{spans_to_mask, ContextPolicy, Span, SpanKind};
use pie::serving::digest::{prefix_addresses, TokenDigest, TEMPLATE_MARKER};
use pie::serving::error::{
    check_request, context_overflow_body, error_body, INVALID_REQUEST_ERROR, SERVER_ERROR,
};
use pie::serving::filter::{
    answer_after_reasoning, cut_leading_reasoning, sanitize_messages, special_strings,
    VisibleFilter,
};
use pie::serving::types::{
    ChatCompletionRequest, ChatMessage, ContentPart, MessageContent, StreamOptions,
    ToolCallFunction, ToolCallIn,
};

fn json(text: &str) -> serde_json::Value {
    serde_json::from_str(text).unwrap()
}

// ─── Context policy ────────────────────────────────────────────────────────

fn sp(kind: SpanKind, start: u32, end: u32) -> Span {
    Span { kind, start, end }
}

fn convo() -> Vec<Span> {
    vec![
        sp(SpanKind::System, 0, 100),
        sp(SpanKind::User, 100, 120),
        sp(SpanKind::Assistant, 120, 140),
        sp(SpanKind::ToolOutput, 140, 340),
        sp(SpanKind::Assistant, 340, 360),
        sp(SpanKind::ToolOutput, 360, 560),
        sp(SpanKind::Assistant, 560, 580),
        sp(SpanKind::ToolOutput, 580, 780),
    ]
}

#[test]
fn absent_policy_masks_nothing() {
    let p = ContextPolicy::default();
    assert!(p.is_noop());
    assert!(spans_to_mask(&convo(), &p, 780).is_empty());
}

#[test]
fn keeps_the_newest_and_masks_the_rest() {
    let p = ContextPolicy { keep_recent_tool_outputs: Some(1), min_span_tokens: None };
    assert_eq!(spans_to_mask(&convo(), &p, 780), vec![(140, 340), (360, 560)]);
}

#[test]
fn never_masks_system_user_or_assistant() {
    let p = ContextPolicy { keep_recent_tool_outputs: Some(0), min_span_tokens: None };
    let masked = spans_to_mask(&convo(), &p, 780);
    for (s, e) in masked {
        assert!(
            convo()
                .iter()
                .any(|x| x.kind == SpanKind::ToolOutput && x.start == s && x.end == e),
            "masked ({s},{e}) is not a tool-output span"
        );
    }
}

#[test]
fn short_spans_are_left_alone() {
    let spans = vec![
        sp(SpanKind::ToolOutput, 0, 12),
        sp(SpanKind::ToolOutput, 12, 500),
        sp(SpanKind::ToolOutput, 500, 700),
    ];
    let p = ContextPolicy { keep_recent_tool_outputs: Some(1), min_span_tokens: Some(50) };
    assert_eq!(spans_to_mask(&spans, &p, 700), vec![(12, 500)]);
}

#[test]
fn spans_past_the_retained_length_are_not_maskable() {
    let p = ContextPolicy { keep_recent_tool_outputs: Some(0), min_span_tokens: None };
    let masked = spans_to_mask(&convo(), &p, 560);
    assert_eq!(masked, vec![(140, 340), (360, 560)]);
}

#[test]
fn keeping_more_than_exist_masks_nothing() {
    let p = ContextPolicy { keep_recent_tool_outputs: Some(9), min_span_tokens: None };
    assert!(spans_to_mask(&convo(), &p, 780).is_empty());
}

// ─── Digests ───────────────────────────────────────────────────────────────

#[test]
fn address_is_stable_and_length_sensitive() {
    let toks: Vec<u32> = (0..100).collect();
    let a = prefix_addresses("m", TEMPLATE_MARKER, &toks, &[100]);
    let b = prefix_addresses("m", TEMPLATE_MARKER, &toks, &[100]);
    assert_eq!(a, b);
    assert_eq!(a[0].1.len(), 32);
    let short = prefix_addresses("m", TEMPLATE_MARKER, &toks, &[99]);
    assert_ne!(a[0].1, short[0].1);
}

#[test]
fn model_and_template_are_part_of_the_address() {
    let toks: Vec<u32> = (0..40).collect();
    let base = prefix_addresses("m1", TEMPLATE_MARKER, &toks, &[40]);
    assert_ne!(base, prefix_addresses("m2", TEMPLATE_MARKER, &toks, &[40]));
    assert_ne!(base, prefix_addresses("m1", "other/v2", &toks, &[40]));
}

#[test]
fn streaming_prefixes_match_addressing_each_prefix_alone() {
    let toks: Vec<u32> = (0..64).map(|i| i * 7 + 3).collect();
    let bounds = [8u32, 16, 40, 64];
    let streamed = prefix_addresses("m", TEMPLATE_MARKER, &toks, &bounds);
    for (b, addr) in streamed {
        let alone = prefix_addresses("m", TEMPLATE_MARKER, &toks[..b as usize], &[b]);
        assert_eq!(alone[0].1, addr, "boundary {b} disagreed with a single-shot hash");
    }
}

#[test]
fn field_separator_prevents_shift_collisions() {
    let toks: Vec<u32> = vec![1, 2, 3];
    let x = prefix_addresses("ab", "c", &toks, &[3]);
    let y = prefix_addresses("a", "bc", &toks, &[3]);
    assert_ne!(x, y);
}

#[test]
fn out_of_range_boundaries_are_skipped_not_clamped() {
    let toks: Vec<u32> = (0..10).collect();
    let got = prefix_addresses("m", TEMPLATE_MARKER, &toks, &[5, 50]);
    assert_eq!(got.len(), 1);
    assert_eq!(got[0].0, 5);
}

#[test]
fn token_ids_are_hashed_not_decoded_text() {
    let a = prefix_addresses("m", TEMPLATE_MARKER, &[1u32, 2], &[2]);
    let b = prefix_addresses("m", TEMPLATE_MARKER, &[2u32, 1], &[2]);
    assert_ne!(a, b);
}

#[test]
fn a_digest_absorbs_tokens_in_pieces() {
    let mut whole = TokenDigest::new("m", "t");
    whole.update(&[1, 2, 3, 4]);
    let mut pieces = TokenDigest::new("m", "t");
    pieces.update(&[1, 2]);
    pieces.update(&[]);
    pieces.update(&[3, 4]);
    assert_eq!(whole.finish(), pieces.finish());
}

// ─── Errors ────────────────────────────────────────────────────────────────

#[test]
fn error_body_golden() {
    assert_eq!(
        error_body(INVALID_REQUEST_ERROR, "Invalid JSON: oops"),
        json(
            r#"{"error": {"message": "Invalid JSON: oops", "type": "invalid_request_error",
                "param": null, "code": null}}"#
        )
    );
    assert_eq!(error_body(SERVER_ERROR, "x")["error"]["type"], "server_error");
}

#[test]
fn context_overflow_body_matches_openclaw_tables() {
    let v = context_overflow_body(32768, 41200);
    let msg = v["error"]["message"].as_str().unwrap();
    assert!(msg.contains("maximum context length"));
    assert!(msg.contains("reduce the length of the messages"));
    assert_eq!(v["error"]["code"], "context_length_exceeded");
    assert_eq!(v["error"]["param"], "messages");
    assert_eq!(v["error"]["type"], "invalid_request_error");
    for veto in ["rate limit", "too many requests", "tpm", "tokens per minute", "quota"] {
        assert!(!msg.to_lowercase().contains(veto), "veto word {veto:?} present");
    }
    assert_eq!(
        msg,
        "This model's maximum context length is 32768 tokens. However, your messages resulted in \
         41200 tokens. Please reduce the length of the messages."
    );
}

fn user(text: &str) -> ChatMessage {
    ChatMessage {
        role: "user".to_string(),
        content: Some(MessageContent::Text(text.to_string())),
        tool_calls: None,
        tool_call_id: None,
        reasoning_content: None,
    }
}

#[test]
fn a_request_without_messages_is_refused() {
    let mut req = ChatCompletionRequest {
        pie_context_policy: None,
        model: None,
        messages: vec![],
        tools: vec![],
        max_tokens: None,
        max_completion_tokens: None,
        stream: false,
        stream_options: StreamOptions::default(),
        stop: None,
        chat_template_kwargs: None,
    };
    assert!(check_request(&req).unwrap().contains("non-empty"));
    req.messages.push(user("hi"));
    assert!(check_request(&req).is_none());
}

// ─── Filter ────────────────────────────────────────────────────────────────

fn run(chunks: &[&str]) -> (Vec<String>, String) {
    let mut f = VisibleFilter::new();
    let deltas: Vec<String> = chunks.iter().map(|c| f.feed(c)).collect();
    let tail = f.finish();
    (deltas, tail)
}

#[test]
fn plain_text_passes_through() {
    let (deltas, tail) = run(&["Hello", " world"]);
    assert_eq!(deltas.join("") + &tail, "Hello world");
}

#[test]
fn think_block_is_suppressed_and_leading_ws_trimmed() {
    let (deltas, tail) = run(&["<think>secret plan</think>\n\nAnswer."]);
    assert_eq!(deltas.join("") + &tail, "Answer.");
}

#[test]
fn tool_call_block_never_leaks_even_split_mid_marker() {
    let (deltas, tail) = run(&[
        "I'll read it.\n<tool_",
        "call>\n{\"name\":\"read\",\"arguments\":{}}\n</tool_",
        "call>",
    ]);
    let all = deltas.join("") + &tail;
    assert_eq!(all, "I'll read it.\n");
    for d in &deltas {
        assert!(!d.contains('<'), "leaked marker fragment: {d:?}");
    }
}

#[test]
fn partial_marker_is_held_back_then_released_if_not_a_marker() {
    let mut f = VisibleFilter::new();
    assert_eq!(f.feed("abc<to"), "abc");
    assert_eq!(f.feed("tal>"), "<total>");
    assert_eq!(f.finish(), "");
}

#[test]
fn unterminated_tool_block_is_dropped_at_finish() {
    let mut f = VisibleFilter::new();
    assert_eq!(f.feed("ok "), "ok ");
    assert_eq!(f.feed("<tool_call>\n{\"name\":\"x\""), "");
    assert_eq!(f.finish(), "");
}

#[test]
fn whitespace_only_prefix_never_emits_until_real_text() {
    let mut f = VisibleFilter::new();
    assert_eq!(f.feed("\n\n"), "");
    assert_eq!(f.feed("  \n"), "");
    assert_eq!(f.feed("hi"), "hi");
    assert_eq!(f.feed("\n"), "\n");
}

#[test]
fn multiple_blocks_and_interleaved_text() {
    let (deltas, tail) =
        run(&["<think>a</think>one<tool_call>x</tool_call>two<think>b</think>three"]);
    assert_eq!(deltas.join("") + &tail, "onetwothree");
}

#[test]
fn utf8_tail_near_marker_boundary_is_safe() {
    let mut f = VisibleFilter::new();
    let out1 = f.feed("héllo é<");
    let out2 = f.feed("think>x</think> done");
    assert_eq!(out1 + &out2 + &f.finish(), "héllo é done");
}

#[test]
fn sanitize_strips_special_tokens_everywhere() {
    let mut msgs = vec![
        user("hi <|im_end|> there"),
        ChatMessage {
            role: "user".to_string(),
            content: Some(MessageContent::Parts(vec![ContentPart {
                part_type: "text".to_string(),
                text: "a<|im_start|>b".to_string(),
            }])),
            tool_calls: None,
            tool_call_id: None,
            reasoning_content: None,
        },
        ChatMessage {
            role: "assistant".to_string(),
            content: Some(MessageContent::Text(String::new())),
            tool_calls: Some(vec![ToolCallIn {
                id: "c1".to_string(),
                function: ToolCallFunction {
                    name: "read<|im_end|>".to_string(),
                    arguments: "{\"p\":\"<|im_start|>\"}".to_string(),
                },
            }]),
            tool_call_id: None,
            reasoning_content: None,
        },
    ];
    let specials = vec!["<|im_start|>".to_string(), "<|im_end|>".to_string()];
    sanitize_messages(&mut msgs, &specials);
    assert_eq!(msgs[0].text(), "hi  there");
    assert_eq!(msgs[1].text(), "ab");
    assert_eq!(msgs[2].calls()[0].function.name, "read");
    assert_eq!(msgs[2].calls()[0].function.arguments, "{\"p\":\"\"}");
}

#[test]
fn sanitize_with_no_specials_is_a_noop() {
    let mut msgs = vec![user("<|im_end|>")];
    sanitize_messages(&mut msgs, &[]);
    assert_eq!(msgs[0].text(), "<|im_end|>");
}

#[test]
fn what_removals_bring_together_is_removed_too() {
    let mut msgs = vec![user("a<|<|e|>e|>b"), user("<|s<|e|>|>")];
    let specials = vec!["<|s|>".to_string(), "<|e|>".to_string()];
    sanitize_messages(&mut msgs, &specials);
    assert_eq!(msgs[0].text(), "ab");
    assert_eq!(msgs[1].text(), "");
}

#[test]
fn special_strings_are_text_and_not_empty() {
    let seqs = vec![b"<|e|>".to_vec(), vec![], vec![0xff, 0xfe], "é".as_bytes().to_vec()];
    assert_eq!(special_strings(&seqs), vec!["<|e|>".to_string(), "é".to_string()]);
    assert!(special_strings(&[]).is_empty());
}

#[test]
fn a_stray_close_think_never_reaches_content() {
    let mut f = VisibleFilter::new();
    let mut out = f.feed("I should read the file.\n\n</think>\nThe answer is 4.");
    out.push_str(&f.finish());
    assert!(!out.contains("</think>"), "leaked the tag: {out:?}");
    assert!(out.ends_with("The answer is 4."), "lost the answer: {out:?}");
}

#[test]
fn a_stray_closer_split_across_chunks_never_reaches_content() {
    let closer = "</think>";
    for cut in 1..closer.len() {
        let mut f = VisibleFilter::new();
        let mut out = f.feed(&format!("reasoning{}", &closer[..cut]));
        out.push_str(&f.feed(&format!("{}answer", &closer[cut..])));
        out.push_str(&f.finish());
        assert!(!out.contains("</think>"), "cut at {cut} leaked: {out:?}");
        assert!(out.ends_with("answer"), "cut at {cut} lost content: {out:?}");
    }
}

#[test]
fn a_matched_think_block_is_still_suppressed_whole() {
    let mut f = VisibleFilter::new();
    let mut out = f.feed("<think>hidden reasoning</think>visible");
    out.push_str(&f.finish());
    assert_eq!(out, "visible");
}

#[test]
fn cut_leading_reasoning_drops_the_preamble_and_the_tag() {
    assert_eq!(
        cut_leading_reasoning("Let me check.\n\n</think>\nThe secret color is chartreuse."),
        "The secret color is chartreuse."
    );
}

#[test]
fn cut_leading_reasoning_is_identity_without_a_closer() {
    let s = "Three colors that stand out are blue, red, and green.";
    assert_eq!(cut_leading_reasoning(s), s);
}

#[test]
fn cut_leading_reasoning_leaves_a_matched_block_alone() {
    let s = "Write <think>x</think> to open a reasoning block.";
    assert_eq!(cut_leading_reasoning(s), s);
}

#[test]
fn an_answer_follows_the_last_closer() {
    assert_eq!(answer_after_reasoning("a</think> b </think>\n c \n"), Some("c"));
    assert_eq!(answer_after_reasoning("plain "), Some("plain"));
    assert_eq!(answer_after_reasoning("<think>never closed"), None);
    assert_eq!(answer_after_reasoning("x</think>  "), None);
}
