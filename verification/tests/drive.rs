use pie::chat::drive::{Ask, Drive, Event, Phase};
use pie::chat::apc::Resume;
use pie::chat::engine::{ForwardKind, NO_PAGES};
use pie::chat::generate::{
    Ask as RunAsk, Event as RunEvent, Generation, Job, Phase as RunPhase,
};
use pie::chat::handler::TurnSetup;
use pie::chat::turn::{Flow, TextEvent};
use pie::codex::drive::{
    Ask as CodexAsk, Drive as CodexDrive, Event as CodexEvent, Frame, Phase as CodexPhase,
};
use pie::codex::handler::{ItemEvent, TurnSetup as CodexSetup};
use pie::codex::types::{
    InputItem, InputMessage, MessageContent as CodexContent, ResponseStatus, Role,
};
use pie::serving::types::{ChatMessage, MessageContent};
use serde_json::Value;

fn chat(role: &str, text: &str) -> ChatMessage {
    ChatMessage {
        role: role.to_string(),
        content: Some(MessageContent::Text(text.to_string())),
        tool_calls: None,
        tool_call_id: None,
        reasoning_content: None,
    }
}

fn setup(messages: Vec<ChatMessage>) -> TurnSetup {
    TurnSetup {
        messages,
        tool_schemas: vec![],
        max_tokens: 8,
        no_think: true,
        stop_strings: vec!["END".to_string()],
        include_usage: true,
    }
}

fn begin(streaming: bool, messages: Vec<ChatMessage>) -> (Drive, Ask) {
    Drive::begin(setup(messages), streaming, "u1".to_string(), Some("qwen".to_string()), 7)
}

fn frames(d: &Drive) -> Vec<String> {
    let mut out = vec![];
    let mut i = 0;
    while let Some(f) = d.frame_at(i) {
        out.push(f);
        i += 1;
    }
    out
}

fn body(frame: &str) -> Value {
    serde_json::from_str(frame.strip_prefix("data: ").unwrap().trim_end()).unwrap()
}

fn token(id: u32, text: &str) -> Event {
    Event::Token { id, call: None, text: TextEvent::Delta(text.to_string()) }
}

fn cued() -> Event {
    Event::Cued { prompt_tokens: 5, stop_ids: vec![2], turn_start: vec![1] }
}

fn to_generation(streaming: bool, messages: Vec<ChatMessage>) -> Drive {
    let (mut d, ask) = begin(streaming, messages);
    assert!(matches!(ask, Ask::Load(m) if m == "qwen"));
    assert!(matches!(d.on(Event::Loaded(vec![])), Ask::Render(_)));
    assert!(matches!(d.on(Event::Rendered((0..1500).collect())), Ask::Create));
    assert!(matches!(d.on(Event::Created), Ask::Prefill(p) if p.len() == 1024));
    assert!(matches!(d.on(Event::Filled), Ask::Prefill(p) if p == (1024..1500).collect::<Vec<u32>>()));
    assert!(matches!(d.on(Event::Filled), Ask::Cue));
    assert!(matches!(d.on(cued()), Ask::Step));
    d
}

#[test]
fn a_chat_stream_is_told_saved_and_closed() {
    let mut d = to_generation(true, vec![chat("user", "hi")]);
    assert!(matches!(d.on(token(10, "Hel")), Ask::Token));
    assert!(matches!(d.on(token(11, "lo")), Ask::Token));
    assert!(matches!(d.on(Event::StepEnd), Ask::Step));
    // The token that starts a turn stops it too.
    match d.on(token(1, "never shown")) {
        Ask::Decode(t) => assert_eq!(t, vec![10, 11, 1]),
        _ => unreachable!(),
    }
    let name = match d.on(Event::Decoded("Hello".to_string())) {
        Ask::Save(name) => name,
        _ => unreachable!(),
    };
    // Nothing is finished before the save.
    assert!(frames(&d).iter().all(|f| body(f)["choices"][0]["finish_reason"].is_null()));
    assert_eq!(d.phase(), Phase::Saving);
    assert!(d.countable());
    assert!(matches!(d.on(Event::Saved(true)), Ask::End));
    let all = frames(&d);
    assert_eq!(body(&all[0])["choices"][0]["delta"]["role"], "assistant");
    assert_eq!(all.last().unwrap(), "data: [DONE]\n\n");
    let n = all.len();
    assert_eq!(body(&all[n - 3])["choices"][0]["finish_reason"], "stop");
    assert_eq!(body(&all[n - 2])["usage"]["completion_tokens"], 3);
    let told: String = all[..n - 1]
        .iter()
        .map(|f| body(f)["choices"][0]["delta"]["content"].as_str().unwrap_or("").to_string())
        .collect();
    assert_eq!(told, "Hello");

    // The next request, which echoes the stream, asks for that snapshot.
    let (mut e, _) = begin(true, vec![chat("user", "hi"), chat("assistant", &told), chat("user", "on")]);
    match e.on(Event::Loaded(vec![])) {
        Ask::Open(open) => assert_eq!(open, name),
        _ => unreachable!(),
    }
    // A hit renders what is behind it, and a kept save deletes it.
    assert!(matches!(e.on(Event::Opened(9)), Ask::Render(ops) if ops.len() == 1));
    assert!(matches!(e.on(Event::Rendered(vec![3])), Ask::Prefill(_)));
    assert!(matches!(e.on(Event::Filled), Ask::Cue));
    assert!(matches!(e.on(cued()), Ask::Step));
    assert!(matches!(e.on(Event::Died("lost".to_string())), Ask::Decode(_)));
    assert!(matches!(e.on(Event::Decoded(String::new())), Ask::Save(_)));
    assert!(matches!(e.on(Event::Saved(true)), Ask::Delete(old) if old == name));
    assert!(matches!(e.on(Event::Deleted), Ask::End));
    let all = frames(&e);
    let n = all.len();
    // Nothing was shown: the placeholder is, and the turn ends by length.
    assert_eq!(body(&all[n - 4])["choices"][0]["delta"]["content"], "…");
    assert_eq!(body(&all[n - 3])["choices"][0]["finish_reason"], "length");
    assert_eq!(body(&all[n - 2])["usage"]["prompt_tokens_details"]["cached_tokens"], 9);
}

#[test]
fn a_chat_turn_that_fails_is_still_well_formed() {
    let (mut d, _) = begin(true, vec![chat("user", "hi")]);
    assert!(matches!(d.on(Event::Failed("no such model".to_string())), Ask::End));
    let all = frames(&d);
    assert_eq!(all.len(), 5);
    assert_eq!(body(&all[1])["choices"][0]["delta"]["content"], " ");
    assert_eq!(body(&all[2])["choices"][0]["finish_reason"], "length");
    assert_eq!(all[4], "data: [DONE]\n\n");

    let (d, ask) = Drive::begin(setup(vec![chat("user", "hi")]), true, "u".to_string(), None, 7);
    assert!(matches!(ask, Ask::End));
    assert_eq!(body(&frames(&d)[0])["model"], "unknown");

    let (mut d, _) = begin(false, vec![chat("user", "hi")]);
    match d.on(Event::Failed("no such model".to_string())) {
        Ask::Answer(500, v) => assert_eq!(v["error"]["message"], "no such model"),
        _ => unreachable!(),
    }
    assert!(frames(&d).is_empty());
    // A role that cannot be rendered is found once the model is there.
    let (mut d, _) = begin(false, vec![chat("robot", "hi")]);
    match d.on(Event::Loaded(vec![])) {
        Ask::Answer(400, v) => assert_eq!(v["error"]["type"], "invalid_request_error"),
        _ => unreachable!(),
    }
}

#[test]
fn a_whole_chat_turn_answers_once() {
    let mut d = to_generation(false, vec![chat("user", "hi")]);
    assert!(matches!(d.on(token(10, "Hello END ")), Ask::Token));
    // Stop strings and the decoder's end count in a stream only.
    assert!(matches!(d.on(Event::StepEnd), Ask::Step));
    let done = Event::Token { id: 11, call: None, text: TextEvent::Done };
    assert!(matches!(d.on(done), Ask::Token));
    assert!(matches!(d.on(Event::Ended), Ask::Decode(_)));
    assert!(matches!(d.on(Event::Decoded("x".to_string())), Ask::Save(_)));
    assert!(matches!(d.on(Event::Saved(false)), Ask::Clock));
    match d.on(Event::Clock(99)) {
        Ask::Answer(200, v) => {
            assert_eq!(v["id"], "chatcmpl-u1");
            assert_eq!(v["created"], 99);
            assert_eq!(v["choices"][0]["message"]["content"], "Hello END");
        }
        _ => unreachable!(),
    }
}

#[test]
fn a_chat_stream_stops_at_its_strings_and_limits() {
    let mut d = to_generation(true, vec![chat("user", "hi")]);
    assert!(matches!(d.on(token(10, "a END")), Ask::Token));
    assert!(matches!(d.on(Event::StepEnd), Ask::Decode(_)));
    let mut d = to_generation(true, vec![chat("user", "hi")]);
    for i in 0..8 {
        assert!(matches!(d.on(token(100 + i, "x")), Ask::Token));
    }
    assert!(matches!(d.on(Event::StepEnd), Ask::Decode(t) if t.len() == 8));
}

#[test]
fn special_tokens_leave_the_messages() {
    let (mut d, _) = begin(true, vec![chat("user", "<|im_start|>hi")]);
    match d.on(Event::Loaded(vec!["<|im_start|>".to_string()])) {
        Ask::Render(ops) => assert_eq!(format!("{:?}", ops), "[User(\"hi /no_think\")]"),
        _ => unreachable!(),
    }
}

fn item(role: Role, text: &str) -> InputItem {
    InputItem::Message(InputMessage {
        id: None,
        role,
        content: CodexContent::Text(text.to_string()),
        status: None,
    })
}

fn codex(streaming: bool, items: Vec<InputItem>) -> (CodexDrive, CodexAsk) {
    let setup = CodexSetup {
        instructions: None,
        items,
        tool_schemas: vec!["{}".to_string()],
        max_tokens: 4,
        cache_scope: "s".to_string(),
    };
    CodexDrive::begin(setup, streaming, "u1".to_string(), Some("qwen".to_string()), 7)
}

fn codex_to_generation(streaming: bool) -> CodexDrive {
    let (mut d, ask) = codex(streaming, vec![item(Role::User, "hi")]);
    assert!(matches!(ask, CodexAsk::Load(m) if m == "qwen"));
    assert!(matches!(d.on(CodexEvent::Loaded), CodexAsk::Render(_)));
    assert!(matches!(d.on(CodexEvent::Rendered(vec![1, 2])), CodexAsk::Create));
    assert!(matches!(d.on(CodexEvent::Created), CodexAsk::Prefill(_)));
    assert!(matches!(d.on(CodexEvent::Filled), CodexAsk::Cue));
    let cued = CodexEvent::Cued { prompt_tokens: 2, stop_ids: vec![9] };
    assert!(matches!(d.on(cued), CodexAsk::Step));
    d
}

fn codex_token(id: u32, text: &str, call: Option<(&str, &str)>) -> CodexEvent {
    CodexEvent::Token {
        id,
        call: call.map(|(n, a)| (n.to_string(), a.to_string())),
        text: TextEvent::Delta(text.to_string()),
    }
}

fn kinds(d: &CodexDrive) -> Vec<&'static str> {
    let mut out = vec![];
    let mut i = 0;
    while let Some(f) = d.frame_at(i) {
        out.push(match f {
            Frame::Created(_) => "created",
            Frame::InProgress(_) => "in_progress",
            Frame::Item(ItemEvent::ItemAdded(_)) => "added",
            Frame::Item(ItemEvent::ItemDone(_)) => "done",
            Frame::Item(_) => "part",
            Frame::Failed(_) => "failed",
            Frame::Completed(_) => "completed",
            Frame::Done => "end",
        });
        i += 1;
    }
    out
}

#[test]
fn a_codex_stream_is_told_saved_and_completed() {
    let mut d = codex_to_generation(true);
    assert!(matches!(d.on(codex_token(10, "Hi ", Some(("f", "{}")))), CodexAsk::Token));
    assert!(d.countable());
    let target = match d.on(codex_token(9, "", None)) {
        CodexAsk::Save(t) => t,
        _ => unreachable!(),
    };
    assert!(target.starts_with("codex/s/"));
    assert!(!kinds(&d).contains(&"completed"));
    assert!(matches!(d.on(CodexEvent::Kept(30)), CodexAsk::Clock));
    assert!(matches!(d.on(CodexEvent::Clock(12)), CodexAsk::End));
    assert_eq!(d.phase(), CodexPhase::Closed);
    let k = kinds(&d);
    assert_eq!(k[..3], ["created", "in_progress", "in_progress"]);
    assert_eq!(k.iter().filter(|x| **x == "done").count(), 2);
    assert_eq!(k[k.len() - 2..], ["completed", "end"]);
    match d.frame_at(k.len() - 2).unwrap() {
        Frame::Completed(r) => {
            assert_eq!(r.id, "resp_u1");
            assert_eq!(r.output.len(), 2);
            assert_eq!(r.created_at, 7);
            assert_eq!(r.completed_at, Some(12));
            assert_eq!(r.status, ResponseStatus::Completed);
            assert_eq!(
                r.debug.as_deref(),
                Some(format!("first turn (no resume point); saved {} (seq 30)", target).as_str())
            );
        }
        _ => unreachable!(),
    }
}

#[test]
fn a_codex_stream_that_fails_says_so() {
    let mut d = codex_to_generation(true);
    assert!(matches!(d.on(CodexEvent::Failed("lost".to_string())), CodexAsk::End));
    let k = kinds(&d);
    assert_eq!(k[k.len() - 2..], ["failed", "end"]);
    match d.frame_at(k.len() - 2).unwrap() {
        Frame::Failed(r) => {
            let e = r.error.as_ref().unwrap();
            assert_eq!(e.error_type, "server_error");
            assert_eq!(e.code.as_deref(), Some("generation_failed"));
            assert_eq!(e.message, "lost");
        }
        _ => unreachable!(),
    }
    let mut d = codex_to_generation(false);
    match d.on(CodexEvent::Failed("lost".to_string())) {
        CodexAsk::Fault(v) => assert_eq!(v["error"]["message"], "lost"),
        _ => unreachable!(),
    }
}

#[test]
fn a_codex_miss_rebuilds_and_a_hit_deletes() {
    let items = || vec![item(Role::User, "a"), item(Role::Assistant, "b"), item(Role::User, "c")];
    let (mut d, _) = codex(false, items());
    assert!(matches!(d.on(CodexEvent::Loaded), CodexAsk::Open(_)));
    assert!(matches!(d.on(CodexEvent::Missed("gone".to_string())), CodexAsk::Render(o) if o.len() == 4));
    let (mut d, _) = codex(false, items());
    let name = match d.on(CodexEvent::Loaded) {
        CodexAsk::Open(n) => n,
        _ => unreachable!(),
    };
    assert!(matches!(d.on(CodexEvent::Opened(6)), CodexAsk::Render(o) if o.len() == 1));
    assert!(matches!(d.on(CodexEvent::Rendered(vec![])), CodexAsk::Cue));
    let cued = CodexEvent::Cued { prompt_tokens: 8, stop_ids: vec![] };
    assert!(matches!(d.on(cued), CodexAsk::Step));
    assert!(matches!(d.on(CodexEvent::Ended), CodexAsk::Save(_)));
    assert!(matches!(d.on(CodexEvent::Kept(9)), CodexAsk::Delete(old) if old == name));
    assert!(matches!(d.on(CodexEvent::Deleted), CodexAsk::Clock));
    match d.on(CodexEvent::Clock(50)) {
        CodexAsk::Respond(r) => {
            assert_eq!(r.created_at, 50);
            assert_eq!(r.output.len(), 1);
            assert_eq!(r.usage.unwrap().input_tokens_details.cached_tokens, 6);
            assert!(r.debug.unwrap().starts_with("resume hit codex/s/"));
        }
        _ => unreachable!(),
    }
    assert!(kinds(&d).is_empty());
}

#[test]
fn a_codex_message_is_its_deltas() {
    let mut d = codex_to_generation(true);
    for (i, t) in [" He", "llo <thi", "nk>x</think>you ", "\n"].iter().enumerate() {
        assert!(matches!(d.on(codex_token(20 + i as u32, t, None)), CodexAsk::Token));
    }
    assert!(matches!(d.on(CodexEvent::Ended), CodexAsk::Save(_)));
    let mut told = String::new();
    let mut done = String::new();
    let mut i = 0;
    while let Some(f) = d.frame_at(i) {
        match f {
            Frame::Item(ItemEvent::TextDelta(x)) => told.push_str(&x.delta),
            Frame::Item(ItemEvent::TextDone(x)) => done.push_str(&x.text),
            _ => {}
        }
        i += 1;
    }
    assert_eq!(told, "Hello you \n");
    assert_eq!(done, "Hello you");
}

// ─── Generations ───────────────────────────────────────────────────────────

fn job(n: u32, max_tokens: usize, publish: Vec<(u32, String)>) -> Job {
    Job { prompt: (100..100 + n).collect(), max_tokens, page: 4, pool_total: 0, publish }
}

fn found(cached_tokens: u32) -> Option<Resume> {
    Some(Resume { cached_tokens, address: "old".to_string() })
}

#[test]
fn a_turn_is_counted_before_it_runs() {
    let kind = ForwardKind::Hybrid;
    assert!(job(13, 3, vec![]).countable(kind));
    assert!(job(1, 0xffff_fffc, vec![]).countable(kind));
    assert!(!job(1, 0xffff_fffd, vec![]).countable(kind));
    let mut whole = job(1, 0xffff_fffc, vec![]);
    whole.page = 1;
    assert!(!whole.countable(kind));
    assert!(whole.countable(ForwardKind::Recurrent));
    whole.max_tokens = 0x7fff_fffd;
    assert!(whole.countable(kind));
    whole.page = 0;
    assert!(!whole.countable(kind));
    whole.max_tokens = 0;
    assert!(whole.countable(kind));
}

#[test]
fn a_resumed_generation_parks_and_retires() {
    let publish = vec![(12, "new".to_string())];
    let (mut g, ask) = Generation::begin(job(13, 3, publish), ForwardKind::Hybrid, found(8), 2);
    assert!(matches!(ask, RunAsk::Reserve(6)));
    let ids = vec![20, 21, 22, 23, 24, 25];
    assert!(matches!(g.on(RunEvent::Reserved(ids)), RunAsk::Split(5)));
    match g.on(RunEvent::Split(vec![(0, 3), (3, 5)])) {
        RunAsk::Fire { tokens, geometry, folded } => {
            assert_eq!(tokens, vec![108, 109, 110]);
            assert_eq!(geometry.positions, vec![8, 9, 10]);
            assert_eq!(geometry.slots, vec![20, 20, 20]);
            assert_eq!((geometry.kv_len, geometry.pages, geometry.writable_from), (11, 3, 2));
            assert!(folded);
        }
        _ => unreachable!(),
    }
    assert!(matches!(g.on(RunEvent::Sampled(5)), RunAsk::Fire { tokens, .. } if tokens == [111, 112]));
    assert!(matches!(g.on(RunEvent::Sampled(6)), RunAsk::Tell(6)));
    match g.on(RunEvent::Told(Flow::Continue)) {
        RunAsk::Fire { tokens, geometry, .. } => {
            assert_eq!(tokens, vec![6]);
            assert_eq!((geometry.positions[0], geometry.slots[0]), (13, 21));
        }
        _ => unreachable!(),
    }
    assert!(matches!(g.on(RunEvent::Sampled(7)), RunAsk::Tell(7)));
    assert!(matches!(g.on(RunEvent::Told(Flow::Continue)), RunAsk::Fire { .. }));
    assert!(matches!(g.on(RunEvent::Sampled(8)), RunAsk::Tell(8)));
    // The third token was the last one wanted.
    assert!(matches!(g.on(RunEvent::Told(Flow::Continue)), RunAsk::Park(3, a) if a == "new"));
    assert!(matches!(g.on(RunEvent::Parked(true)), RunAsk::Remove(a) if a == "old"));
    assert_eq!(g.phase(), RunPhase::Retiring);
    assert!(matches!(g.on(RunEvent::Removed), RunAsk::End));
    let out = g.outcome();
    assert_eq!((out.error, out.cached_tokens, out.published), (None, 8, 1));
}

fn at_prefill(max_tokens: usize, publish: Vec<(u32, String)>) -> Generation {
    let (mut g, ask) = Generation::begin(job(9, max_tokens, publish), ForwardKind::Attention, None, 0);
    assert!(matches!(ask, RunAsk::Reserve(8)));
    assert!(matches!(g.on(RunEvent::Reserved((0..8).collect())), RunAsk::Split(9)));
    assert!(matches!(g.on(RunEvent::Split(vec![(0, 9)])), RunAsk::Fire { folded: false, .. }));
    g
}

#[test]
fn every_decode_pass_may_write_from_where_the_prompt_ends() {
    let mut g = at_prefill(9, vec![]);
    assert!(matches!(g.on(RunEvent::Sampled(1)), RunAsk::Tell(1)));
    // The prompt of nine tokens ends in its third page, and decoding leaves it.
    for position in 9..16 {
        match g.on(RunEvent::Told(Flow::Continue)) {
            RunAsk::Fire { geometry, .. } => {
                assert_eq!(geometry.positions, vec![position]);
                assert_eq!((geometry.slots[0], geometry.offsets[0]), (position / 4, position % 4));
                assert_eq!(geometry.kv_len, position + 1);
                assert_eq!(geometry.writable_from, 2);
            }
            _ => unreachable!(),
        }
        assert!(matches!(g.on(RunEvent::Sampled(2)), RunAsk::Tell(2)));
    }
}

#[test]
fn a_generation_that_fails_parks_only_what_was_written() {
    let cuts = || vec![(5, "odd".to_string()), (8, "new".to_string())];
    let mut g = at_prefill(4, cuts());
    assert!(matches!(g.on(RunEvent::Failed("lost".to_string())), RunAsk::End));
    let out = g.outcome();
    assert_eq!((out.error.as_deref(), out.published), (Some("lost"), 0));

    let mut g = at_prefill(4, cuts());
    assert!(matches!(g.on(RunEvent::Sampled(1)), RunAsk::Tell(1)));
    assert!(matches!(g.on(RunEvent::Told(Flow::Continue)), RunAsk::Fire { .. }));
    // The unaligned cut is passed over.
    assert!(matches!(g.on(RunEvent::Failed("died".to_string())), RunAsk::Park(2, a) if a == "new"));
    assert!(matches!(g.on(RunEvent::Parked(true)), RunAsk::End));
    let out = g.outcome();
    assert_eq!((out.error.as_deref(), out.published), (Some("died"), 1));

    let mut g = at_prefill(4, vec![]);
    assert!(matches!(g.on(RunEvent::Sampled(1)), RunAsk::Tell(1)));
    assert!(matches!(g.on(RunEvent::Told(Flow::Break)), RunAsk::End));
}

#[test]
fn a_generation_that_cannot_run_ends_at_once() {
    let (g, ask) = Generation::begin(job(3, 0, vec![]), ForwardKind::Attention, found(8), 2);
    assert!(matches!(ask, RunAsk::End));
    assert_eq!(g.outcome().error, None);
    let (g, ask) = Generation::begin(job(3, 5, vec![]), ForwardKind::Recurrent, None, 0);
    assert!(matches!(ask, RunAsk::End));
    assert_eq!(g.outcome().error.as_deref(), Some(NO_PAGES));
    // A parked set that is not exactly its prefix is removed, and the turn rebuilt.
    let (mut g, ask) = Generation::begin(job(13, 3, vec![]), ForwardKind::Attention, found(8), 3);
    assert!(matches!(ask, RunAsk::Remove(a) if a == "old"));
    assert_eq!(g.phase(), RunPhase::Dropping);
    assert!(matches!(g.on(RunEvent::Removed), RunAsk::Reserve(8)));
    let ids = (0..8).collect();
    assert!(matches!(g.on(RunEvent::Reserved(ids)), RunAsk::Split(13)));
    assert_eq!(g.outcome().cached_tokens, 0);
    // An empty prompt is one padding token.
    let (mut g, _) = Generation::begin(job(0, 1, vec![]), ForwardKind::Attention, None, 0);
    let ids = (0..8).collect();
    assert!(matches!(g.on(RunEvent::Reserved(ids)), RunAsk::Split(1)));
}
