use pie::chat::turn::{Flow, TextEvent};
use pie::codex::handler::{
    cache_scope, complete, error_response, fail, parse_setup, resume_point, route, save_name,
    whole_output, Ending, ItemEvent, Route, StreamTurn, Verb, INFO,
};
use pie::codex::replay::{render_full, render_items};
use pie::codex::session::{canon, snapshot_name, split_resume_point, CanonItem};
use pie::codex::types::{
    function_tool_envelopes, ContentPart, CreateResponseBody, FunctionCallOutputPayload, InputBody,
    InputFunctionCall, InputFunctionCallOutput, InputItem, InputMessage, ItemStatus, LooseInputItem,
    MessageContent, OutputContentPart, OutputItem, ResponseResource, ResponseStatus, Role,
};
use pie::replay::ReplayOp;
use serde_json::Value;

fn json(text: &str) -> Value {
    serde_json::from_str(text).unwrap()
}

fn message(role: Role, text: &str) -> InputItem {
    InputItem::Message(InputMessage {
        id: None,
        role,
        content: MessageContent::Text(text.to_string()),
        status: None,
    })
}

fn call(id: &str, name: &str, args: &str) -> InputItem {
    InputItem::FunctionCall(InputFunctionCall {
        id: None,
        call_id: id.to_string(),
        name: name.to_string(),
        arguments: args.to_string(),
        status: None,
    })
}

fn output(id: &str, text: &str) -> InputItem {
    InputItem::FunctionCallOutput(InputFunctionCallOutput {
        call_id: id.to_string(),
        output: FunctionCallOutputPayload::Text(text.to_string()),
    })
}

fn body(items: Vec<InputItem>) -> CreateResponseBody {
    CreateResponseBody {
        model: String::new(),
        input: InputBody::Items(items.into_iter().map(LooseInputItem::Tagged).collect()),
        stream: true,
        max_output_tokens: None,
        instructions: Some("be brief".to_string()),
        prompt_cache_key: Some("se/ss-1".to_string()),
        tools: vec![],
    }
}

#[test]
fn function_tools_become_envelopes() {
    let tools = vec![
        json(r#"{"type":"function","name":"f","description":"d","parameters":{"type":"object"}}"#),
        json(r#"{"type":"custom","name":"g"}"#),
        json(r#"{"name":"h"}"#),
        json(r#"{"type":"function"}"#),
    ];
    let e = function_tool_envelopes(&tools);
    assert_eq!(e.len(), 2);
    assert_eq!(
        json(&e[0]),
        json(r#"{"name":"f","description":"d","parameters":{"type":"object"}}"#)
    );
    assert_eq!(
        json(&e[1]),
        json(r#"{"name":"h","description":"","parameters":{"type":"object","properties":{}}}"#)
    );
}

#[test]
fn inputs_are_strings_or_items() {
    let items = InputBody::Text("hi".to_string()).into_items();
    assert_eq!(items.len(), 1);
    assert!(matches!(&items[0], InputItem::Message(m)
        if m.role_str() == "user" && m.content.as_text() == "hi" && !m.is_assistant()));
    let loose = InputBody::Items(vec![
        LooseInputItem::Tagged(InputItem::Other),
        LooseInputItem::UntaggedMessage(InputMessage {
            id: None,
            role: Role::Assistant,
            content: MessageContent::Parts(vec![
                ContentPart::InputText { text: "a".to_string() },
                ContentPart::Other,
                ContentPart::OutputText { text: "b".to_string(), annotations: vec![] },
            ]),
            status: None,
        }),
    ])
    .into_items();
    assert!(matches!(&loose[0], InputItem::Other));
    assert!(matches!(&loose[1], InputItem::Message(m)
        if m.is_assistant() && m.content.as_text() == "ab"));
    let parts = InputFunctionCallOutput {
        call_id: "c".to_string(),
        output: FunctionCallOutputPayload::Parts(vec![
            json(r#"{"type":"output_text","text":"x"}"#),
            json(r#"{"type":"image"}"#),
            json(r#"{"text":"y"}"#),
        ]),
    };
    assert_eq!(parts.output_text(), "xy");
}

#[test]
fn setups_scope_and_default() {
    let (s, stream) = parse_setup(body(vec![message(Role::User, "hi")]));
    assert!(stream);
    assert_eq!(s.cache_scope, "sess-1");
    assert_eq!(s.max_tokens, 4096);
    assert_eq!(s.instructions.as_deref(), Some("be brief"));
    let mut b = body(vec![]);
    b.instructions = Some(String::new());
    b.prompt_cache_key = Some("/é/".to_string());
    b.max_output_tokens = Some(9);
    let (s, _) = parse_setup(b);
    assert_eq!(s.instructions, None);
    assert_eq!(s.cache_scope, "global");
    assert_eq!(s.max_tokens, 9);
    assert_eq!(cache_scope(None), "global");
}

#[test]
fn a_saved_turn_is_what_the_next_request_hashes_to() {
    let (first, _) = parse_setup(body(vec![message(Role::User, "hi")]));
    let calls = [("call_u_0".to_string(), "f".to_string(), "{}".to_string())];
    let saved = save_name(&first, "ok", &calls);
    assert!(saved.starts_with("codex/sess-1/"));
    assert_eq!(saved.len(), "codex/sess-1/".len() + 32);
    let (next, _) = parse_setup(body(vec![
        message(Role::User, "hi"),
        message(Role::Assistant, "ok"),
        InputItem::Reasoning { id: None },
        call("call_u_0", "f", "{}"),
        output("call_u_0", "done"),
    ]));
    let (split, name) = resume_point(&next).unwrap();
    assert_eq!(split, 4);
    assert_eq!(name, saved);
    assert!(resume_point(&first).is_none());
    assert_eq!(split_resume_point(&next.items), Some(4));
}

#[test]
fn addresses_move_with_what_is_rendered() {
    let items = [CanonItem::Msg { role: "user".to_string(), text: "hi".to_string() }];
    let a = snapshot_name("s", Some("i"), &[], &items);
    assert_eq!(a, snapshot_name("s", Some("i"), &[], &items));
    assert_ne!(a, snapshot_name("s", None, &[], &items));
    assert_ne!(a, snapshot_name("s", Some("i"), &["{}".to_string()], &items));
    assert_ne!(a, snapshot_name("s", Some("i"), &[], &[]));
    assert!(canon(&InputItem::Other).is_none());
    assert!(canon(&InputItem::ItemReference { id: "r".to_string() }).is_none());
    assert!(canon(&call("c", "f", "{}")).is_some());
}

#[test]
fn items_group_into_template_turns() {
    let items = vec![
        message(Role::Developer, "d"),
        message(Role::User, "go \n"),
        message(Role::Assistant, "ok"),
        InputItem::Reasoning { id: None },
        call("a", "f", "{}"),
        call("b", "g", "{}"),
        output("a", "1"),
        InputItem::Other,
        output("b", "2"),
        InputItem::ItemReference { id: "r".to_string() },
        call("c", "h", "{}"),
        message(Role::Assistant, "bye"),
    ];
    let pair = |a: &str, b: &str| (a.to_string(), b.to_string());
    let expected = vec![
        ReplayOp::System("d".to_string()),
        ReplayOp::User("go /no_think".to_string()),
        ReplayOp::AssistantWithToolCalls {
            content: Some("ok".to_string()),
            calls: vec![pair("f", "{}"), pair("g", "{}")],
        },
        ReplayOp::AnswerBatch(vec![pair("", "1"), pair("", "2")]),
        ReplayOp::AssistantWithToolCalls { content: None, calls: vec![pair("h", "{}")] },
        ReplayOp::Assistant("bye".to_string()),
    ];
    assert_eq!(render_items(&items), expected);
    // A resumed context is the rebuilt one.
    let mut resumed = render_items(&items[..6]);
    resumed.extend(render_items(&items[6..10]));
    assert_eq!(resumed, render_items(&items[..10]));
    let full = render_full(Some("i"), &items[..1], &[]);
    assert_eq!(full[0], ReplayOp::System("i".to_string()));
    let full = render_full(None, &items[..1], &["{}".to_string()]);
    assert_eq!(
        full[0],
        ReplayOp::EquipAfterSystem { system: None, tools: vec!["{}".to_string()] }
    );
    assert_eq!(render_full(None, &[], &[]).len(), 0);
}

#[test]
fn items_that_are_not_rendered_change_nothing() {
    let quiet = || InputItem::ItemReference { id: "r".to_string() };
    let plain = vec![
        message(Role::Assistant, "ok"),
        call("a", "f", "{}"),
        call("b", "g", "{}"),
        output("a", "1"),
        output("b", "2"),
    ];
    let noisy = vec![
        InputItem::Other,
        message(Role::Assistant, "ok"),
        quiet(),
        call("a", "f", "{}"),
        InputItem::Other,
        call("b", "g", "{}"),
        InputItem::Reasoning { id: None },
        output("a", "1"),
        quiet(),
        output("b", "2"),
        InputItem::Other,
    ];
    assert_eq!(render_items(&noisy), render_items(&plain));
    assert_eq!(render_items(&plain).len(), 2);
    let name = |items: &[InputItem]| {
        let kept: Vec<CanonItem> = items.iter().filter_map(canon).collect();
        snapshot_name("s", None, &[], &kept)
    };
    assert_eq!(name(&noisy), name(&plain));
}

fn delta(s: &str) -> TextEvent {
    TextEvent::Delta(s.to_string())
}

fn names(events: &[ItemEvent]) -> Vec<&'static str> {
    events.iter().map(|e| e.event_type()).collect()
}

#[test]
fn a_stream_opens_its_message_at_the_first_text() {
    let mut t = StreamTurn::new("u".to_string());
    assert_eq!(t.on_token(None, false, delta("<think>x</think>\n")), Flow::Continue);
    assert!(t.take_events().is_empty());
    let c = Some(("f".to_string(), "{}".to_string()));
    assert_eq!(t.on_token(c, false, TextEvent::Quiet), Flow::Continue);
    assert_eq!(t.on_token(None, false, delta("Hi ")), Flow::Continue);
    assert_eq!(t.on_token(None, true, delta("never")), Flow::Break);
    t.close(4);
    let events = t.take_events();
    assert_eq!(
        names(&events),
        vec![
            "response.output_item.added",
            "response.output_item.done",
            "response.output_item.added",
            "response.content_part.added",
            "response.output_text.delta",
            "response.output_text.done",
            "response.content_part.done",
            "response.output_item.done",
        ]
    );
    match &events[2] {
        ItemEvent::ItemAdded(d) => assert_eq!(d.output_index, 1),
        _ => panic!("the message is added"),
    }
    let (text, calls, out, n) = t.into_parts();
    assert_eq!((text.as_str(), calls.len(), out.len(), n), ("Hi", 1, 2, 4));
    match &out[1] {
        OutputItem::Message(m) => {
            assert_eq!(m.id, "msg_u");
            assert_eq!(m.status, ItemStatus::Incomplete);
            assert!(matches!(&m.content[0],
                OutputContentPart::OutputText { text, .. } if text == "Hi"));
        }
        _ => panic!("the message comes last"),
    }
    // One piece or streamed, the output is the same.
    let whole = whole_output("u", &text, &calls, true);
    assert_eq!(whole.len(), 2);
    match (&whole[0], &out[0]) {
        (OutputItem::FunctionCall(a), OutputItem::FunctionCall(b)) => {
            assert_eq!((a.id.as_str(), a.call_id.as_str()), ("fc_u_0", "call_u_0"));
            assert_eq!((&a.id, &a.call_id, &a.name), (&b.id, &b.call_id, &b.name));
        }
        _ => panic!("the call comes first"),
    }
}

#[test]
fn an_empty_turn_gets_an_empty_message() {
    let mut t = StreamTurn::new("u".to_string());
    assert_eq!(t.on_token(None, false, TextEvent::Done), Flow::Break);
    t.close(9);
    let events = t.take_events();
    assert_eq!(events.len(), 5);
    let (_, _, out, _) = t.into_parts();
    assert_eq!(out.len(), 1);
    assert_eq!(whole_output("u", "", &[], false).len(), 1);
}

fn ending(max_tokens: usize) -> Ending {
    Ending {
        max_tokens,
        prompt_tokens: 10,
        cached_tokens: 6,
        completed_at: 77,
        debug: "d".to_string(),
    }
}

#[test]
fn responses_complete_or_stay_incomplete() {
    let r = ResponseResource::new("resp_u".to_string(), "m".to_string(), 5);
    assert_eq!(r.object, "response");
    assert_eq!(r.status, ResponseStatus::InProgress);
    let done = complete(r, vec![], 3, ending(4));
    assert_eq!(done.status, ResponseStatus::Completed);
    assert!(done.incomplete_details.is_none());
    let u = done.usage.unwrap();
    assert_eq!((u.input_tokens, u.output_tokens, u.total_tokens), (10, 3, 13));
    assert_eq!(u.input_tokens_details.cached_tokens, 6);
    assert_eq!((done.created_at, done.completed_at), (5, Some(77)));
    let r = ResponseResource::new("resp_u".to_string(), "m".to_string(), 5);
    let cut = complete(r, vec![], 4, ending(4));
    assert_eq!(cut.status, ResponseStatus::Incomplete);
    assert_eq!(cut.incomplete_details.unwrap().reason, "max_output_tokens");
    let r = ResponseResource::new("resp_u".to_string(), "m".to_string(), 5);
    let failed = fail(r, "prefill_failed", "x".to_string());
    assert_eq!(failed.status, ResponseStatus::Failed);
    let e = failed.error.unwrap();
    assert_eq!((e.error_type.as_str(), e.code.as_deref()), ("server_error", Some("prefill_failed")));
    assert_eq!(error_response("not_found", "Endpoint not found")["error"]["code"], Value::Null);
}

#[test]
fn requests_are_routed() {
    assert_eq!(route(Verb::Post, "/responses"), Route::Responses);
    assert_eq!(route(Verb::Post, "/v1/responses"), Route::Responses);
    assert_eq!(route(Verb::Get, "/responses"), Route::NotFound);
    assert_eq!(route(Verb::Get, "/"), Route::Info);
    assert_eq!(route(Verb::Options, "/anything"), Route::Preflight);
    assert_eq!(route(Verb::Another, "/"), Route::NotFound);
    assert_eq!(json(INFO)["name"], "Pie Codex Responses Server");
}
