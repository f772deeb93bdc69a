use pie::chat::handler::{resume_point, save_name, TurnSetup};
use pie::chat::session::snapshot_name;
use pie::chat::turn::ToolCallOut;
use pie::serving::render::{
    plan_render, plan_render_messages, plan_render_suffix, RenderError, RenderOp, TurnPos,
};
use pie::serving::salvage::{parse_fenced_tool_calls, parse_hermes_tool_calls};
use pie::serving::session::{
    canon_messages, snapshot_address, split_resume_point, split_retain_point, CanonItem,
};
use pie::serving::types::{
    python_json, tool_schema_envelopes, ChatCompletionRequest, ChatMessage, ContentPart,
    MessageContent, StopField, StreamOptions, ToolCallFunction, ToolCallIn, ToolSpec,
    ToolSpecFunction,
};
use serde_json::Value;

fn json(text: &str) -> Value {
    serde_json::from_str(text).unwrap()
}

fn text_of(v: &Value) -> String {
    v.as_str().unwrap_or("").to_string()
}

fn message(v: &Value) -> ChatMessage {
    ChatMessage {
        role: text_of(&v["role"]),
        content: match &v["content"] {
            Value::String(s) => Some(MessageContent::Text(s.clone())),
            Value::Array(parts) => Some(MessageContent::Parts(
                parts
                    .iter()
                    .map(|p| ContentPart {
                        part_type: text_of(&p["type"]),
                        text: text_of(&p["text"]),
                    })
                    .collect(),
            )),
            _ => None,
        },
        tool_calls: v["tool_calls"].as_array().map(|calls| {
            calls
                .iter()
                .map(|c| ToolCallIn {
                    id: text_of(&c["id"]),
                    function: ToolCallFunction {
                        name: text_of(&c["function"]["name"]),
                        arguments: text_of(&c["function"]["arguments"]),
                    },
                })
                .collect()
        }),
        tool_call_id: v["tool_call_id"].as_str().map(|s| s.to_string()),
        reasoning_content: v["reasoning_content"].as_str().map(|s| s.to_string()),
    }
}

fn msgs(text: &str) -> Vec<ChatMessage> {
    json(text).as_array().unwrap().iter().map(message).collect()
}

fn req(text: &str) -> ChatCompletionRequest {
    let v = json(text);
    ChatCompletionRequest {
        pie_context_policy: None,
        model: v["model"].as_str().map(|s| s.to_string()),
        messages: v["messages"].as_array().unwrap().iter().map(message).collect(),
        tools: v["tools"]
            .as_array()
            .map(|tools| {
                tools
                    .iter()
                    .map(|t| ToolSpec {
                        function: ToolSpecFunction {
                            name: text_of(&t["function"]["name"]),
                            description: text_of(&t["function"]["description"]),
                            parameters: t["function"]["parameters"].clone(),
                        },
                    })
                    .collect()
            })
            .unwrap_or_default(),
        max_tokens: v["max_tokens"].as_u64().map(|n| n as usize),
        max_completion_tokens: v["max_completion_tokens"].as_u64().map(|n| n as usize),
        stream: v["stream"].as_bool().unwrap_or(false),
        stream_options: StreamOptions {
            include_usage: v["stream_options"]["include_usage"].as_bool().unwrap_or(false),
        },
        stop: match &v["stop"] {
            Value::String(s) => Some(StopField::One(s.clone())),
            Value::Array(a) => Some(StopField::Many(a.iter().map(text_of).collect())),
            _ => None,
        },
        chat_template_kwargs: match &v["chat_template_kwargs"] {
            Value::Null => None,
            k => Some(k.clone()),
        },
    }
}

// ─── Types ─────────────────────────────────────────────────────────────────

#[test]
fn parses_qwen_code_shaped_request() {
    let req = req(
        r#"{
            "model": "Qwen3.6-27B",
            "messages": [
                {"role": "system", "content": "You are Qwen Code."},
                {"role": "user", "content": [
                    {"type": "text", "text": "part one"},
                    {"type": "text", "text": "part two"}
                ]},
                {"role": "assistant", "content": null,
                 "reasoning_content": "hidden",
                 "tool_calls": [{"id": "call_abc", "type": "function",
                                 "function": {"name": "read_file",
                                              "arguments": "{\"file_path\":\"/x\"}"}}]},
                {"role": "tool", "tool_call_id": "call_abc",
                 "content": [{"type": "text", "text": "file body"}]}
            ],
            "max_tokens": 64000,
            "stream": true,
            "stream_options": {"include_usage": true},
            "tools": [{"type": "function", "function":
                       {"name": "read_file", "description": "d",
                        "parameters": {"type": "object"}}}],
            "chat_template_kwargs": {"enable_thinking": false},
            "some_future_field": {"ignored": true}
        }"#,
    );
    assert_eq!(req.messages.len(), 4);
    assert_eq!(req.messages[1].text(), "part one\npart two");
    assert_eq!(req.messages[2].calls()[0].function.name, "read_file");
    assert_eq!(req.messages[3].tool_call_id.as_deref(), Some("call_abc"));
    assert_eq!(req.effective_max_tokens(4096), 64000);
    assert!(req.stream);
    assert!(req.include_usage());
    assert!(req.no_think());
    assert_eq!(tool_schema_envelopes(&req.tools).len(), 1);
}

#[test]
fn minimal_request_gets_defaults() {
    let req = req(r#"{"messages":[{"role":"user","content":"hi"}]}"#);
    assert!(!req.stream);
    assert!(!req.include_usage());
    assert!(!req.no_think());
    assert_eq!(req.effective_max_tokens(4096), 4096);
    assert!(req.stop_strings().is_empty());
}

#[test]
fn opencode_empty_string_assistant_content_is_none() {
    let msg = message(&json(
        r#"{"role": "assistant", "content": "",
            "tool_calls": [{"id": "call_1", "type": "function",
                            "function": {"name": "read", "arguments": "{}"}}]}"#,
    ));
    assert_eq!(msg.text(), "");
    assert!(msg.text_opt().is_none());
    assert_eq!(msg.calls().len(), 1);
}

#[test]
fn tolerates_schema_noise_and_unknown_fields() {
    let req = req(
        r#"{"messages": [{"role": "user", "content": "hi"}],
            "tool_choice": "auto",
            "tools": [{"type": "function", "function": {
                "name": "bash", "description": "d",
                "parameters": {
                    "$schema": "https://json-schema.org/draft/2020-12/schema",
                    "type": "object",
                    "properties": {"timeout": {"type": "number",
                                               "maximum": 9007199254740991}}
                }}}]}"#,
    );
    let envs = tool_schema_envelopes(&req.tools);
    assert!(envs[0].contains("json-schema.org/draft/2020-12/schema"));
    assert!(envs[0].contains("9007199254740991"));
}

#[test]
fn tool_schema_envelopes_are_name_sorted() {
    let req = req(
        r#"{"messages": [{"role": "user", "content": "hi"}],
            "tools": [
                {"function": {"name": "write", "description": "", "parameters": {}}},
                {"function": {"name": "bash", "description": "", "parameters": {}}},
                {"function": {"name": "read", "description": "", "parameters": {}}}
            ]}"#,
    );
    let names: Vec<String> = tool_schema_envelopes(&req.tools)
        .iter()
        .map(|s| serde_json::from_str::<Value>(s).unwrap()["name"].as_str().unwrap().to_string())
        .collect();
    assert_eq!(names, ["bash", "read", "write"]);
}

#[test]
fn stop_fields_and_limits_are_read() {
    let one = req(r#"{"messages":[{"role":"user","content":"hi"}],"stop":"END",
                      "max_completion_tokens":7}"#);
    assert_eq!(one.stop_strings(), ["END"]);
    assert_eq!(one.effective_max_tokens(4096), 7);
    let many = req(r#"{"messages":[{"role":"user","content":"hi"}],"stop":["a","b"],
                       "chat_template_kwargs":{"enable_thinking":true}}"#);
    assert_eq!(many.stop_strings(), ["a", "b"]);
    assert!(many.thinking_requested());
    assert!(!many.no_think());
}

#[test]
fn python_text_has_spaces_behind_separators() {
    let v = json(r#"{"b":[1,2,{"c":"x,y:z"}],"a":null}"#);
    assert_eq!(python_json(&v), r#"{"a": null, "b": [1, 2, {"c": "x,y:z"}]}"#);
    assert_eq!(python_json(&json(r#""q\"a,b""#)), r#""q\"a,b""#);
}

// ─── Session ───────────────────────────────────────────────────────────────

#[test]
fn session_address_is_stable_and_reasoning_free() {
    let a = msgs(
        r#"[{"role": "system", "content": "sys"},
            {"role": "user", "content": "hi"},
            {"role": "assistant", "content": null, "reasoning_content": "thinking...",
             "tool_calls": [{"id": "call_1", "function": {"name": "f", "arguments": "{}"}}]}]"#,
    );
    let b = msgs(
        r#"[{"role": "system", "content": "sys"},
            {"role": "user", "content": [{"type": "text", "text": "hi"}]},
            {"role": "assistant", "content": "",
             "tool_calls": [{"id": "call_1", "function": {"name": "f", "arguments": "{}"}}]}]"#,
    );
    let absent = msgs(
        r#"[{"role": "system", "content": "sys"},
            {"role": "user", "content": [{"type": "text", "text": "hi"}]},
            {"role": "assistant",
             "tool_calls": [{"id": "call_1", "function": {"name": "f", "arguments": "{}"}}]}]"#,
    );
    let schemas = vec!["{\"name\":\"f\"}".to_string()];
    let name_a = snapshot_address(&schemas, true, &canon_messages(&a));
    let name_b = snapshot_address(&schemas, true, &canon_messages(&b));
    assert_eq!(name_a, name_b);
    assert_eq!(name_a.len(), 32);
    assert_ne!(name_a, snapshot_address(&schemas, false, &canon_messages(&a)));
    assert_ne!(name_a, snapshot_address(&[], true, &canon_messages(&a)));

    let name_a = snapshot_name(&schemas, true, &canon_messages(&a));
    let name_b = snapshot_name(&schemas, true, &canon_messages(&absent));
    assert_eq!(name_a, name_b);
    assert!(name_a.starts_with("qwenchat/"));
    assert_ne!(name_a, snapshot_name(&schemas, false, &canon_messages(&a)));
    assert_ne!(name_a, snapshot_name(&[], true, &canon_messages(&a)));
}

const NEXT: &str = r#"[{"role": "system", "content": "sys"},
    {"role": "user", "content": "hi"},
    {"role": "assistant", "content": "ok, checking", "reasoning_content": "…",
     "tool_calls": [{"id": "call_x_0",
                     "function": {"name": "read_file", "arguments": "{\"p\":1}"}}]},
    {"role": "tool", "tool_call_id": "call_x_0", "content": "body"}]"#;

const INCOMING: &str =
    r#"[{"role": "system", "content": "sys"}, {"role": "user", "content": "hi"}]"#;

#[test]
fn session_save_address_matches_echo_back() {
    let incoming = msgs(INCOMING);
    let mut canons = canon_messages(&incoming);
    canons.push(CanonItem::Msg {
        role: "assistant".to_string(),
        text: "ok, checking".to_string(),
    });
    canons.push(CanonItem::Call {
        id: "call_x_0".to_string(),
        name: "read_file".to_string(),
        args: "{\"p\":1}".to_string(),
    });
    let saved = snapshot_address(&[], true, &canons);
    let saved_as = snapshot_name(&[], true, &canons);

    let next = msgs(NEXT);
    let split = split_resume_point(&next).unwrap();
    assert_eq!(split, 3);
    let resumed = snapshot_address(&[], true, &canon_messages(&next[..split]));
    assert_eq!(saved, resumed);
    assert_eq!(saved_as, snapshot_name(&[], true, &canon_messages(&next[..split])));
}

fn setup(messages: Vec<ChatMessage>) -> TurnSetup {
    TurnSetup {
        messages,
        tool_schemas: vec![],
        max_tokens: 16,
        no_think: true,
        stop_strings: vec![],
        include_usage: false,
    }
}

#[test]
fn a_saved_turn_is_found_by_the_next_request() {
    let calls = [ToolCallOut {
        id: "call_x_0".to_string(),
        name: "read_file".to_string(),
        arguments: "{\"p\":1}".to_string(),
    }];
    let saved = save_name(&setup(msgs(INCOMING)), "ok, checking", &calls);
    let found = resume_point(&setup(msgs(NEXT))).unwrap();
    assert_eq!(found.split, 3);
    assert_eq!(found.name, saved);
    assert!(resume_point(&setup(msgs(INCOMING))).is_none());
}

#[test]
fn retain_point_excludes_the_assistant_turn_and_round_trips() {
    let sent = msgs(INCOMING);
    let saved = snapshot_address(&[], true, &canon_messages(&sent));
    let next = msgs(
        r#"[{"role": "system", "content": "sys"},
            {"role": "user", "content": "hi"},
            {"role": "assistant", "content": "ok, checking",
             "tool_calls": [{"id": "call_x_0",
                             "function": {"name": "read_file", "arguments": "{\"p\":1}"}}]},
            {"role": "tool", "tool_call_id": "call_x_0", "content": "body"}]"#,
    );
    let split = split_retain_point(&next).unwrap();
    assert_eq!(split, 2);
    assert_eq!(split_resume_point(&next).unwrap(), 3);
    let resumed = snapshot_address(&[], true, &canon_messages(&next[..split]));
    assert_eq!(saved, resumed);
    assert_eq!(next[split].role, "assistant");
}

#[test]
fn session_first_turn_has_no_resume_point() {
    let m = msgs(r#"[{"role": "system", "content": "s"}, {"role": "user", "content": "u"}]"#);
    assert!(split_resume_point(&m).is_none());
    assert!(split_retain_point(&m).is_none());
}

// ─── Rendering plans ───────────────────────────────────────────────────────

fn pair(a: &str, b: &str) -> (String, String) {
    (a.to_string(), b.to_string())
}

#[test]
fn tool_batch_recovers_names_and_merges_consecutive_results() {
    let r = req(
        r#"{"messages": [
                {"role": "system", "content": "sys"},
                {"role": "user", "content": "go"},
                {"role": "assistant", "content": "",
                 "tool_calls": [
                    {"id": "c1", "function": {"name": "read", "arguments": "{\"a\":1}"}},
                    {"id": "c2", "function": {"name": "grep", "arguments": "{\"b\":2}"}}]},
                {"role": "tool", "tool_call_id": "c2", "content": "out2"},
                {"role": "tool", "tool_call_id": "c1",
                 "content": [{"type": "text", "text": "out1"}]}
            ],
            "tools": [{"function": {"name": "read", "description": "", "parameters": {}}},
                      {"function": {"name": "grep", "description": "", "parameters": {}}}]}"#,
    );
    let ops = plan_render(&r).unwrap();
    assert_eq!(ops.len(), 5);
    match &ops[0] {
        RenderOp::EquipAfterSystem { system, tools } => {
            assert_eq!(system.as_deref(), Some("sys"));
            assert_eq!(tools.len(), 2);
            assert!(tools[0].contains("\"grep\""));
        }
        other => panic!("expected EquipAfterSystem, got {other:?}"),
    }
    assert_eq!(ops[1], RenderOp::User("go".to_string()));
    assert_eq!(
        ops[2],
        RenderOp::AssistantWithToolCalls {
            content: None,
            calls: vec![pair("read", "{\"a\":1}"), pair("grep", "{\"b\":2}")],
            pos: TurnPos { after_query: true, is_last: false },
        }
    );
    assert_eq!(
        ops[3],
        RenderOp::AnswerBatch(vec![pair("grep", "out2"), pair("read", "out1")])
    );
    assert_eq!(ops[4], RenderOp::Cue(false));
}

#[test]
fn suffix_plan_resolves_names_against_the_retained_prefix() {
    let r = req(
        r#"{"messages": [
                {"role": "system", "content": "sys"},
                {"role": "user", "content": "go"},
                {"role": "assistant", "content": "",
                 "tool_calls": [{"id": "c1",
                                 "function": {"name": "read", "arguments": "{}"}}]},
                {"role": "tool", "tool_call_id": "c1", "content": "out1"}
            ]}"#,
    );
    let split = split_resume_point(&r.messages).unwrap();
    assert_eq!(split, 3);
    let suffix = plan_render_suffix(&r.messages, split).unwrap();
    assert_eq!(
        suffix,
        vec![RenderOp::AnswerBatch(vec![pair("read", "out1")]), RenderOp::Cue(false)]
    );
    let naive = plan_render_messages(&r.messages[split..], vec![]).unwrap();
    assert_eq!(
        naive,
        vec![RenderOp::AnswerBatch(vec![pair("", "out1")]), RenderOp::Cue(false)]
    );
    let full = plan_render(&r).unwrap();
    assert_eq!(&full[full.len() - suffix.len()..], &suffix[..]);
}

#[test]
fn no_tools_no_system_yields_no_equip() {
    let r = req(r#"{"messages": [{"role": "user", "content": "hi"}]}"#);
    assert_eq!(
        plan_render(&r).unwrap(),
        vec![RenderOp::User("hi".to_string()), RenderOp::Cue(false)]
    );
}

#[test]
fn title_call_shape_system_without_tools() {
    let r = req(
        r#"{"messages": [
                {"role": "system", "content": "title prompt"},
                {"role": "user", "content": "Generate a title for this conversation:\n"},
                {"role": "user", "content": "\"say hello\""}
            ]}"#,
    );
    let ops = plan_render(&r).unwrap();
    assert_eq!(
        ops[0],
        RenderOp::EquipAfterSystem { system: Some("title prompt".to_string()), tools: vec![] }
    );
    assert_eq!(ops.len(), 4);
}

#[test]
fn reasoning_content_is_dropped() {
    let r = req(
        r#"{"messages": [
                {"role": "user", "content": "hi"},
                {"role": "assistant", "content": "answer",
                 "reasoning_content": "secret chain of thought"},
                {"role": "user", "content": "next"}
            ]}"#,
    );
    let ops = plan_render(&r).unwrap();
    assert_eq!(
        ops[1],
        RenderOp::Assistant(
            "answer".to_string(),
            TurnPos { after_query: false, is_last: false }
        )
    );
}

#[test]
fn the_cue_carries_the_requested_thinking_mode() {
    let r = req(r#"{"messages": [{"role": "user", "content": "hi"}]}"#);
    assert_eq!(plan_render(&r).unwrap().last(), Some(&RenderOp::Cue(false)));
    let r = req(
        r#"{"messages": [{"role": "user", "content": "hi"}],
            "chat_template_kwargs": {"enable_thinking": false}}"#,
    );
    assert_eq!(plan_render(&r).unwrap().last(), Some(&RenderOp::Cue(false)));
    let r = req(
        r#"{"messages": [{"role": "user", "content": "hi"}],
            "chat_template_kwargs": {"enable_thinking": true}}"#,
    );
    assert_eq!(plan_render(&r).unwrap().last(), Some(&RenderOp::Cue(true)));
}

#[test]
fn reasoning_header_marks_turns_after_the_last_user_query() {
    let r = req(
        r#"{"messages": [
            {"role": "user", "content": "one"},
            {"role": "assistant", "content": "answer"},
            {"role": "user", "content": "two"}
        ]}"#,
    );
    let ops = plan_render(&r).unwrap();
    assert!(matches!(&ops[1], RenderOp::Assistant(_, p) if !p.after_query));

    let r = req(
        r#"{"messages": [
            {"role": "user", "content": "go"},
            {"role": "assistant", "content": "a"},
            {"role": "tool", "tool_call_id": "x", "content": "r1"},
            {"role": "assistant", "content": "b"}
        ]}"#,
    );
    let ops = plan_render(&r).unwrap();
    let flags: Vec<bool> = ops
        .iter()
        .filter_map(|o| match o {
            RenderOp::Assistant(_, p) => Some(p.after_query),
            RenderOp::AssistantWithToolCalls { pos, .. } => Some(pos.after_query),
            _ => None,
        })
        .collect();
    assert_eq!(flags, vec![true, true], "both loop turns follow the query");

    let r = req(
        r#"{"messages": [
            {"role": "user", "content": "go"},
            {"role": "assistant", "content": "a"},
            {"role": "tool", "tool_call_id": "x", "content": "r1"},
            {"role": "user", "content": "again"}
        ]}"#,
    );
    let ops = plan_render(&r).unwrap();
    assert!(matches!(&ops[1], RenderOp::Assistant(_, p) if !p.after_query));
}

#[test]
fn misplaced_system_and_unknown_role_error() {
    let r = req(
        r#"{"messages": [
                {"role": "user", "content": "hi"},
                {"role": "system", "content": "late"}
            ]}"#,
    );
    assert_eq!(plan_render(&r), Err(RenderError::MisplacedSystem));
    assert_eq!(
        plan_render(&r).unwrap_err().message(),
        "system message only supported as the first message"
    );

    // A suffix fails as the whole does: its first message is not the first.
    assert_eq!(plan_render_suffix(&r.messages, 1), Err(RenderError::MisplacedSystem));
    assert_eq!(plan_render_suffix(&r.messages, 0), Err(RenderError::MisplacedSystem));

    let r = req(r#"{"messages": [{"role": "robot", "content": "?"}]}"#);
    assert_eq!(plan_render(&r), Err(RenderError::UnsupportedRole("robot".to_string())));
    assert_eq!(plan_render(&r).unwrap_err().message(), "unsupported message role: robot");
}

// ─── Salvage ───────────────────────────────────────────────────────────────

#[test]
fn salvage_fenced_tool_call_is_extracted() {
    let text = "Prose first.\n\n```json\n{\"name\": \"run_shell_command\", \"arguments\": {\"command\": \"ls\"}}\n```";
    let calls = parse_fenced_tool_calls(text);
    assert_eq!(calls.len(), 1);
    assert_eq!(calls[0].1, "run_shell_command");
    assert_eq!(&text[..calls[0].0], "Prose first.\n\n");
}

#[test]
fn salvage_non_tool_fences_are_ignored() {
    let text = "```python\nprint('hi')\n```\n```json\n{\"foo\": 1}\n```";
    assert!(parse_fenced_tool_calls(text).is_empty());
}

#[test]
fn unclosed_tool_call_block_is_salvaged() {
    let text = "<tool_call>\n{\"name\": \"run_shell_command\", \"arguments\": {\"command\": \"echo \\\"a}b\\\" > x.txt\"}}";
    let calls = parse_hermes_tool_calls(text);
    assert_eq!(calls.len(), 1);
    assert_eq!(calls[0].0, "run_shell_command");
    let args: serde_json::Value = serde_json::from_str(&calls[0].1).unwrap();
    assert_eq!(args["command"], "echo \"a}b\" > x.txt");
}

#[test]
fn closed_block_and_multiple_calls() {
    let text = "<tool_call>\n{\"name\":\"a\",\"arguments\":{}}\n</tool_call>\n<tool_call>\n{\"name\":\"b\",\"arguments\":{\"k\":1}}";
    let calls = parse_hermes_tool_calls(text);
    assert_eq!(calls.len(), 2);
    assert_eq!(calls[1].0, "b");
}

#[test]
fn garbage_json_is_skipped() {
    assert!(parse_hermes_tool_calls("<tool_call>\n{not json}").is_empty());
}

#[test]
fn fence_offsets_count_bytes() {
    let text = "é\n```\n{\"name\":\"a\",\"arguments\":{}}\n```";
    let calls = parse_fenced_tool_calls(text);
    assert_eq!(calls[0].0, 3);
    assert_eq!(calls[0].2, "{}");
}
