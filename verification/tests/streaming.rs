use pie::chat::streaming::ChunkMeta as FrameMeta;
use pie::serving::streaming::{sse_done, sse_frame, sse_ping, usage_object, ChunkMeta};
use serde_json::Value;

fn json(text: &str) -> Value {
    serde_json::from_str(text).unwrap()
}

fn meta() -> ChunkMeta {
    ChunkMeta { id: "chatcmpl-x".to_string(), model: "m".to_string(), created: 1 }
}

fn frames() -> FrameMeta {
    FrameMeta { id: "chatcmpl-x".to_string(), model: "m".to_string(), created: 1 }
}

fn parse(frame: &str) -> Value {
    let payload = frame.strip_prefix("data: ").unwrap().trim_end();
    serde_json::from_str(payload).unwrap()
}

#[test]
fn role_chunk_golden() {
    assert_eq!(
        meta().role_chunk(),
        json(
            r#"{"id": "chatcmpl-x", "object": "chat.completion.chunk", "created": 1, "model": "m",
                "choices": [{"index": 0, "delta": {"role": "assistant", "content": ""},
                             "logprobs": null, "finish_reason": null}]}"#
        )
    );
}

#[test]
fn content_delta_golden_and_frame() {
    let v = meta().content_delta("Hello");
    assert_eq!(
        v,
        json(
            r#"{"id": "chatcmpl-x", "object": "chat.completion.chunk", "created": 1, "model": "m",
                "choices": [{"index": 0, "delta": {"content": "Hello"},
                             "logprobs": null, "finish_reason": null}]}"#
        )
    );
    assert!(v.get("usage").is_none());
    let frame = sse_frame(&v);
    assert!(frame.starts_with("data: {"));
    assert!(frame.ends_with("}\n\n"));
}

#[test]
fn tool_call_delta_golden() {
    assert_eq!(
        meta().tool_call_delta(0, "call_i_0", "read", "{\"filePath\":\"/x\"}"),
        json(
            r#"{"id": "chatcmpl-x", "object": "chat.completion.chunk", "created": 1, "model": "m",
                "choices": [{"index": 0,
                             "delta": {"tool_calls": [{
                                 "index": 0, "id": "call_i_0", "type": "function",
                                 "function": {"name": "read",
                                              "arguments": "{\"filePath\":\"/x\"}"}}]},
                             "logprobs": null, "finish_reason": null}]}"#
        )
    );
}

#[test]
fn finish_chunk_golden() {
    assert_eq!(
        meta().finish_chunk("tool_calls"),
        json(
            r#"{"id": "chatcmpl-x", "object": "chat.completion.chunk", "created": 1, "model": "m",
                "choices": [{"index": 0, "delta": {},
                             "logprobs": null, "finish_reason": "tool_calls"}]}"#
        )
    );
}

#[test]
fn usage_chunk_golden() {
    assert_eq!(
        meta().usage_chunk(100, 20, 80),
        json(
            r#"{"id": "chatcmpl-x", "object": "chat.completion.chunk", "created": 1, "model": "m",
                "choices": [],
                "usage": {"prompt_tokens": 100, "completion_tokens": 20, "total_tokens": 120,
                          "prompt_tokens_details": {"cached_tokens": 80}}}"#
        )
    );
}

#[test]
fn keepalive_is_empty_delta() {
    let v = meta().keepalive();
    assert_eq!(v["choices"][0]["delta"], json("{}"));
    assert_eq!(v["choices"][0]["finish_reason"], Value::Null);
}

fn v_with_calls(calls: &[(String, String, String)]) -> Value {
    meta().completion_response("ok", calls, "tool_calls", 10, 5, 0)
}

#[test]
fn completion_response_nulls_when_empty() {
    let v = meta().completion_response("", &[], "stop", 10, 0, 0);
    assert_eq!(v["object"], "chat.completion");
    assert_eq!(v["choices"][0]["message"]["content"], Value::Null);
    assert_eq!(v["choices"][0]["message"]["tool_calls"], Value::Null);

    let calls = [("call_1".to_string(), "read".to_string(), "{}".to_string())];
    let v = v_with_calls(&calls);
    assert_eq!(v["choices"][0]["message"]["tool_calls"][0]["id"], "call_1");
    assert_eq!(v["choices"][0]["finish_reason"], "tool_calls");
}

#[test]
fn sse_terminators() {
    assert_eq!(sse_done(), "data: [DONE]\n\n");
    assert_eq!(sse_ping(), ": ping\n\n");
}

#[test]
fn usage_adds_up() {
    let v = usage_object(7, 5, 3);
    assert_eq!(v["total_tokens"], 12);
    assert_eq!(v["prompt_tokens_details"]["cached_tokens"], 3);
}

#[test]
fn finish_chunk_carries_finish_reason() {
    let v = parse(&frames().finish_chunk("tool_calls"));
    assert_eq!(v["choices"][0]["finish_reason"], "tool_calls");
    assert_eq!(v["object"], "chat.completion.chunk");
}

#[test]
fn usage_chunk_has_empty_choices_and_cached_tokens() {
    let v = parse(&frames().usage_chunk(100, 20, 80));
    assert_eq!(v["choices"].as_array().unwrap().len(), 0);
    assert_eq!(v["usage"]["total_tokens"], 120);
    assert_eq!(v["usage"]["prompt_tokens_details"]["cached_tokens"], 80);
}

#[test]
fn tool_call_delta_is_atomic() {
    let v = parse(&frames().tool_call_delta(0, "call_i_0", "read_file", "{}"));
    let tc = &v["choices"][0]["delta"]["tool_calls"][0];
    assert_eq!(tc["id"], "call_i_0");
    assert_eq!(tc["function"]["name"], "read_file");
    assert_eq!(v["choices"][0]["finish_reason"], Value::Null);
}

#[test]
fn done_terminator() {
    assert_eq!(FrameMeta::done(), "data: [DONE]\n\n");
}

#[test]
fn frames_hold_the_bodies() {
    assert_eq!(parse(&frames().role_chunk()), meta().role_chunk());
    assert_eq!(parse(&frames().keepalive()), meta().keepalive());
    assert_eq!(parse(&frames().content_delta("a\n\"b\"")), meta().content_delta("a\n\"b\""));
}
