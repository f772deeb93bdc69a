use pie::gateway::{
    chat_completions, classify, extract_affinity_key, extract_identity, health, keepalive_chunk,
    models, note_chunk_meta, parse_status, refuse_admission, refuse_identity, stream_step,
    unary_step, Arrival, Header, IdentitySource, Msg, StreamInput, StreamState, StreamStep, Unary,
    UnaryStep, CHAT_INFERLET,
};
use serde_json::Value;

fn json(text: &str) -> Value {
    serde_json::from_str(text).unwrap()
}

fn header(name: &str, value: &str) -> Header {
    Header { name: name.to_string(), text: Some(value.to_string()) }
}

#[test]
fn keepalive_mirrors_stream_chunk_identity() {
    let mut meta = None;
    note_chunk_meta(
        &mut meta,
        r#"{"id":"chatcmpl-abc","object":"chat.completion.chunk","created":42,"model":"qwen3","choices":[{"index":0,"delta":{"role":"assistant","content":""},"logprobs":null,"finish_reason":null}]}"#,
    );
    let ka: Value = serde_json::from_str(&keepalive_chunk(&meta)).unwrap();
    assert_eq!(ka["id"], "chatcmpl-abc");
    assert_eq!(ka["model"], "qwen3");
    assert_eq!(ka["created"], 42);
    assert_eq!(ka["choices"][0]["delta"], json("{}"));
    assert_eq!(ka["choices"][0]["finish_reason"], Value::Null);

    note_chunk_meta(&mut meta, r#"{"id":"other","model":"m2","created":9}"#);
    assert_eq!(meta.as_ref().unwrap().0, "chatcmpl-abc");
}

#[test]
fn affinity_key_priority_and_stability() {
    let body_with_pck = json(r#"{"prompt_cache_key": "sess-1:0", "stream": true}"#);
    let empty_body = json(r#"{"stream": true}"#);
    assert_eq!(extract_affinity_key(&[], &empty_body), None);

    let k_body = extract_affinity_key(&[], &body_with_pck);
    assert!(k_body.is_some());
    assert_eq!(k_body, extract_affinity_key(&[], &body_with_pck));
    let other = json(r#"{"prompt_cache_key": "sess-2:0"}"#);
    assert_ne!(k_body, extract_affinity_key(&[], &other));

    let mut headers = vec![header("x-session-id", "ses_b")];
    let k_sid = extract_affinity_key(&headers, &body_with_pck);
    assert_ne!(k_sid, k_body);
    headers.push(header("x-session-affinity", "ses_a"));
    let k_aff = extract_affinity_key(&headers, &body_with_pck);
    assert_ne!(k_aff, k_sid);

    let empty_h = vec![header("x-session-id", "")];
    assert_eq!(extract_affinity_key(&empty_h, &empty_body), None);
}

#[test]
fn keepalive_placeholder_before_first_chunk() {
    let ka: Value = serde_json::from_str(&keepalive_chunk(&None)).unwrap();
    assert_eq!(ka["id"], "chatcmpl-keepalive");
    assert_eq!(ka["object"], "chat.completion.chunk");
    assert_eq!(ka["choices"][0]["delta"], json("{}"));
}

#[test]
fn the_routing_key_is_the_digest_little_endian() {
    let digest = blake3::hash(b"ses_a");
    let mut first = [0u8; 8];
    first.copy_from_slice(&digest.as_bytes()[..8]);
    let headers = vec![header("session_id", "ses_a")];
    assert_eq!(
        extract_affinity_key(&headers, &json("{}")),
        Some(u64::from_le_bytes(first))
    );
    // An unreadable header is passed over, and so is an empty one.
    let odd = vec![
        Header { name: "x-session-affinity".to_string(), text: None },
        header("session_id", "ses_a"),
    ];
    assert_eq!(extract_affinity_key(&odd, &json("{}")), Some(u64::from_le_bytes(first)));
    let empty = vec![header("x-session-affinity", ""), header("x-session-id", "ses_a")];
    let body = json(r#"{"prompt_cache_key": "sess-1:0"}"#);
    assert_eq!(extract_affinity_key(&empty, &body), Some(u64::from_le_bytes(first)));
    let none = vec![header("x-session-affinity", ""), header("session_id", "")];
    assert_eq!(extract_affinity_key(&none, &json("{}")), None);
    assert_eq!(
        extract_affinity_key(&none, &body),
        extract_affinity_key(&[], &body)
    );
}

#[test]
fn identities_come_from_the_edge_or_the_token() {
    let edge = vec![header("x-pie-identity", "t/u"), header("authorization", "Bearer k")];
    assert!(matches!(extract_identity(&edge), Ok(IdentitySource::Edge)));
    let bearer = vec![header("authorization", "Bearer secret"), header("x-request-id", "r")];
    match extract_identity(&bearer) {
        Ok(IdentitySource::Bearer { identity, forwarded_for, request_id }) => {
            let hex = blake3::hash(b"secret").to_hex();
            assert_eq!(identity, format!("default/key-{}", &hex.as_str()[..8]));
            assert!(!forwarded_for);
            assert!(request_id);
        }
        _ => panic!("a token is an identity"),
    }
    for headers in [
        vec![],
        vec![header("authorization", "Bearer ")],
        vec![header("authorization", "Basic x")],
        vec![Header { name: "authorization".to_string(), text: None }],
    ] {
        match extract_identity(&headers) {
            Err(e) => assert_eq!(e, "missing Authorization: Bearer or x-pie-identity"),
            _ => panic!("no identity"),
        }
    }
    let refused = refuse_identity("no");
    assert_eq!(refused.status, 401);
    assert_eq!(json(&refused.body)["error"]["type"], "authentication_error");
    let full = refuse_admission("cluster saturated");
    assert_eq!(full.status, 503);
    assert_eq!(json(&full.body)["error"]["message"], "admission: cluster saturated");
}

#[test]
fn bodies_are_inspected_without_a_launch() {
    let ok = chat_completions(&[], br#"{"stream": true, "prompt_cache_key": "k"}"#).ok().unwrap();
    assert_eq!(ok.input, r#"{"stream": true, "prompt_cache_key": "k"}"#);
    let text = "{\"a\" :  \"\u{e9}\"}\n";
    assert_eq!(chat_completions(&[], text.as_bytes()).ok().unwrap().input, text);
    assert!(chat_completions(&[], b"{\"a\": \"\xff\"}").is_err());
    assert!(ok.stream);
    assert!(ok.affinity.is_some());
    let plain = chat_completions(&[], br#"{"stream": "yes"}"#).ok().unwrap();
    assert!(!plain.stream);
    assert!(plain.affinity.is_none());
    let list = chat_completions(&[], b"[]").err().unwrap();
    assert_eq!(list.status, 400);
    assert_eq!(
        json(&list.body)["error"]["message"],
        "request body must be a JSON object"
    );
    let bad = chat_completions(&[], b"{nope").err().unwrap();
    assert_eq!(bad.status, 400);
    let message = json(&bad.body)["error"]["message"].as_str().unwrap().to_string();
    assert!(message.starts_with("invalid JSON: "), "{message}");
    assert!(message.len() > "invalid JSON: ".len());
}

#[test]
fn arrivals_are_classified() {
    let process = |event: &str| Arrival::ProcessEvent {
        event: event.to_string(),
        value: "v".to_string(),
    };
    assert!(matches!(classify(process("message")), Some(Msg::Payload(p)) if p == "v"));
    assert!(matches!(classify(process("error")), Some(Msg::Fault(p)) if p == "v"));
    assert!(classify(process("stdout")).is_none());
    assert!(classify(Arrival::File).is_none());
    assert!(classify(Arrival::Response { ok: true, result: String::new() }).is_none());
    assert!(matches!(
        classify(Arrival::Response { ok: false, result: "r".to_string() }),
        Some(Msg::Fault(r)) if r == "r"
    ));
    assert!(matches!(classify(Arrival::Eos), Some(Msg::Eos)));
    assert!(matches!(classify(Arrival::Closed), Some(Msg::Aborted)));
}

#[test]
fn statuses_are_in_range() {
    assert_eq!(parse_status(r#"{"status": 200}"#), Some(200));
    assert_eq!(parse_status(r#"{"status": 99}"#), None);
    assert_eq!(parse_status(r#"{"status": 1000}"#), None);
    assert_eq!(parse_status(r#"{"status": "200"}"#), None);
    assert_eq!(parse_status("nope"), None);
}

fn payload(s: &str) -> Msg {
    Msg::Payload(s.to_string())
}

#[test]
fn a_unary_turn_is_a_status_and_a_body() {
    let at = match unary_step(Unary::Head, payload(r#"{"status": 201}"#)) {
        UnaryStep::Wait(at) => at,
        _ => panic!("a body follows"),
    };
    match unary_step(at, payload("{}")) {
        UnaryStep::Respond(a) => assert_eq!((a.status, a.body.as_str()), (201, "{}")),
        _ => panic!("the body answers"),
    }
    for (at, msg, text) in [
        (Unary::Head, payload("x"), "inferlet broke the envelope contract (bad status header)"),
        (Unary::Head, Msg::Eos, "inferlet ended without a response"),
        (Unary::Head, Msg::Fault("f".to_string()), "f"),
        (Unary::Body(200), Msg::Aborted, "inferlet ended without a response body"),
        (Unary::Body(200), Msg::Fault("g".to_string()), "g"),
    ] {
        match unary_step(at, msg) {
            UnaryStep::Respond(a) => {
                assert_eq!(a.status, 500);
                assert_eq!(json(&a.body)["error"]["message"], text);
            }
            _ => panic!("a fault answers"),
        }
    }
}

fn feed(at: StreamState, msg: Msg) -> StreamStep {
    stream_step(at, StreamInput::Message(msg))
}

#[test]
fn a_stream_forwards_chunks_and_ends_clean() {
    let mut at = match feed(StreamState::Head, payload(r#"{"status": 200}"#)) {
        StreamStep::Wait(at) => at,
        _ => panic!("chunks follow"),
    };
    let chunk = r#"{"id":"chatcmpl-1","model":"m","created":3}"#;
    at = match feed(at, payload(chunk)) {
        StreamStep::Emit(f, at) => {
            assert!(!f.error);
            assert_eq!(f.data, chunk);
            at
        }
        _ => panic!("a chunk is forwarded"),
    };
    at = match stream_step(at, StreamInput::Silence) {
        StreamStep::Emit(f, at) => {
            assert_eq!(json(&f.data)["id"], "chatcmpl-1");
            at
        }
        _ => panic!("silence is bridged"),
    };
    at = match feed(at, Msg::Eos) {
        StreamStep::Emit(f, at) => {
            assert_eq!(f.data, "[DONE]");
            at
        }
        _ => panic!("the end is announced"),
    };
    assert!(matches!(feed(at, Msg::Eos), StreamStep::Finished));
}

#[test]
fn a_rejected_stream_is_a_json_error() {
    let at = match feed(StreamState::Head, payload(r#"{"status": 400}"#)) {
        StreamStep::Wait(at) => at,
        _ => panic!("an error body follows"),
    };
    match feed(at, payload("{\"error\":1}")) {
        StreamStep::Respond(a) => assert_eq!((a.status, a.body.as_str()), (400, "{\"error\":1}")),
        _ => panic!("the body answers"),
    }
    match feed(StreamState::Rejected(422), Msg::Eos) {
        StreamStep::Respond(a) => {
            assert_eq!(a.status, 422);
            assert_eq!(json(&a.body)["error"]["message"], "request rejected");
        }
        _ => panic!("a rejection answers"),
    }
    for (msg, data) in [
        (Msg::Fault("boom".to_string()), "boom"),
        (Msg::Aborted, "stream aborted"),
    ] {
        match feed(StreamState::Streaming(None), msg) {
            StreamStep::Emit(f, StreamState::End) => {
                assert!(f.error);
                assert_eq!(f.data, data);
            }
            _ => panic!("a fault is an event"),
        }
    }
    assert!(matches!(feed(StreamState::Head, Msg::Aborted), StreamStep::Respond(a) if a.status == 500));
    assert!(matches!(
        stream_step(StreamState::Head, StreamInput::Silence),
        StreamStep::Wait(StreamState::Head)
    ));
}

#[test]
fn probes_are_answered() {
    assert_eq!(health(), "ok");
    assert_eq!(
        models(),
        json(r#"{"object":"list","data":[{"id":"pie","object":"model","created":0,"owned_by":"pie"}]}"#)
    );
    let (name, version) = CHAT_INFERLET.split_once('@').unwrap();
    assert_eq!(name, "chat-completions");
    assert_eq!(version.split('.').count(), 3);
}
