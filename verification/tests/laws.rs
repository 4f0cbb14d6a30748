//! What holds of the library as a whole, on chosen values.

use ai_api_bridge::canonical::CanonicalEvent::{
    Completed, Created, Error, ReasoningDelta, TextDelta, ToolCallArgsDelta, ToolCallDone,
    ToolCallStart,
};
use ai_api_bridge::canonical::{CanonicalEvent, Message, ToolCall};
use ai_api_bridge::config::{
    default_database, default_listen, default_max_tokens_field, Config, ProbeSource, Provider,
    Route, RouteTarget, UsageKind, UsageWindow, WireName,
};
use ai_api_bridge::dict::Dict;
use ai_api_bridge::double::Double;
use ai_api_bridge::error::BridgeError;
use ai_api_bridge::failover::mark_degraded;
use ai_api_bridge::json::JsonValue;
use ai_api_bridge::probe::{probe_status, Outcome, ProbeReturn};
use ai_api_bridge::router::{is_usable, resolve, resolve_candidates};
use ai_api_bridge::server::{accept, Dialect};
use ai_api_bridge::store::ProviderStatus;
use ai_api_bridge::stream::StreamReader;
use ai_api_bridge::usage::UsageMeter;
use ai_api_bridge::watcher::update_status;
use ai_api_bridge::wire::anthropic::AnthropicEmitter;
use ai_api_bridge::wire::chat::{
    completion_to_events, find_matching_tool_call, normalize_tool_parents, ChatStreamParser,
};
use ai_api_bridge::wire::responses::ResponsesEmitter;
use ai_api_bridge::wire::schema::sanitize_parameters;
use ai_api_bridge::wire::{emit_all, SseFrame};

fn provider(base_url: &str) -> Provider {
    Provider {
        wire: WireName::OpenaiChat,
        base_url: base_url.into(),
        api_key: None,
        model_prefix: None,
        max_tokens_field: default_max_tokens_field(),
        extra_headers: Dict::new(),
        probe_script: None,
        probe_script_text: None,
        probe_source: ProbeSource::Path,
        probe_enabled: None,
        probe_interval_secs: None,
        quota_min: None,
        cost_windows: Vec::new(),
        model_prices: Dict::new(),
        usage: Vec::new(),
        models: Vec::new(),
    }
}

fn empty_config() -> Config {
    Config {
        listen: default_listen(),
        database: default_database(),
        default_provider: None,
        auth_token: None,
        cost_tracking: false,
        providers: Dict::new(),
        routes: Vec::new(),
        fallback_route: None,
    }
}

fn target(provider: &str, model: &str) -> RouteTarget {
    RouteTarget { provider: provider.into(), model: model.into() }
}

fn route(alias: &str, provider: &str, model: &str, fallback: Vec<RouteTarget>) -> Route {
    Route { alias: alias.into(), provider: provider.into(), model: model.into(), fallback }
}

fn double(x: f64) -> Double {
    let json = JsonValue::parse(&format!("{x:?}")).unwrap_or(JsonValue::Null);
    Double { bits: x.to_bits(), json }
}

fn value_of(d: &Double) -> f64 {
    f64::from_bits(d.bits)
}

fn json(text: &str) -> JsonValue {
    JsonValue::parse(text).unwrap()
}

/// The value at a path such as `content.0.text`.
fn at<'a>(v: &'a JsonValue, path: &str) -> Option<&'a JsonValue> {
    let mut here = v;
    for step in path.split('.') {
        here = match step.parse::<usize>() {
            Ok(i) => here.as_array()?.get(i)?,
            Err(_) => here.get(step)?,
        };
    }
    Some(here)
}

fn str_at<'a>(v: &'a JsonValue, path: &str) -> Option<&'a str> {
    at(v, path).and_then(|x| x.as_str())
}

fn u64_at(v: &JsonValue, path: &str) -> Option<u64> {
    at(v, path).and_then(|x| x.as_u64())
}

fn tool_result(call_id: &str) -> Message {
    Message::Tool { call_id: call_id.into(), output: "o".into() }
}

fn calling(ids: &[&str]) -> Message {
    let tool_calls = ids
        .iter()
        .map(|id| ToolCall { call_id: id.to_string(), name: "f".into(), arguments: "{}".into() })
        .collect();
    Message::Assistant { text: None, reasoning_content: None, tool_calls }
}

#[test]
fn parents_are_put_in_once() {
    let msgs = vec![
        tool_result("a"),
        Message::User("x".into()),
        tool_result("b"),
        calling(&["c", "d"]),
        tool_result("d"),
        tool_result("c"),
        tool_result("a"),
    ];
    let once = normalize_tool_parents(&msgs);
    let twice = normalize_tool_parents(&once);
    assert_eq!(once, twice);
    for (i, m) in once.iter().enumerate() {
        if let Message::Tool { call_id, .. } = m {
            let before: Vec<Message> = once[..i].to_vec();
            assert!(find_matching_tool_call(&before, call_id));
        }
    }
    let kept: Vec<&Message> = once.iter().filter(|m| msgs.contains(m)).collect();
    assert_eq!(kept, msgs.iter().collect::<Vec<_>>());
}

#[test]
fn sound_schemas_are_left_alone() {
    let text = r#"{"properties":{"p":{"items":{"type":"string"},"type":"array"}},"type":"object"}"#;
    assert_eq!(sanitize_parameters(&json(text)).to_text(), text);
    let mended = sanitize_parameters(&json(
        r#"{"type":null,"properties":{"p":{"type":null,"items":{"type":null}}}}"#,
    ));
    assert!(!mended.to_text().contains("null"));
    assert_eq!(str_at(&mended, "type"), Some("object"));
}

#[test]
fn chunks_end_only_in_errors() {
    let mut p = ChatStreamParser::new("r".into());
    let evs = p.on_chunk(&json(
        r#"{"model":"m","choices":[{"delta":{"content":"x"},"finish_reason":"stop"}],
            "usage":{"prompt_tokens":1}}"#,
    ));
    assert!(!evs.is_empty());
    assert!(evs.iter().all(|e| !matches!(e, CanonicalEvent::Error { .. } | Completed)));
    let evs = p.on_chunk(&json(r#"{"error":"down","choices":[{"delta":{"content":"x"}}]}"#));
    assert_eq!(evs.len(), 1);
    assert!(matches!(evs[0], CanonicalEvent::Error { .. }));
}

fn deltas() -> Vec<CanonicalEvent> {
    vec![
        Created { response_id: "r".into(), model: "m".into() },
        ReasoningDelta { text: "th".into() },
        ReasoningDelta { text: "ink".into() },
        TextDelta { text: "an".into() },
        TextDelta { text: "swer".into() },
        ToolCallStart { index: 0, call_id: "c".into(), name: "f".into() },
        ToolCallArgsDelta { index: 0, delta: "{\"a\"".into() },
        ToolCallArgsDelta { index: 0, delta: ":1}".into() },
        ToolCallArgsDelta { index: 9, delta: "lost".into() },
        Completed,
    ]
}

#[test]
fn texts_are_gathered_whole() {
    let events = deltas();
    let mut r = ResponsesEmitter::new();
    let out = emit_all(&mut r, &events);
    assert_eq!(out.taken, events.len());
    let resp = r.final_response();
    assert_eq!(str_at(&resp, "output.0.summary.0.text"), Some("think"));
    assert_eq!(str_at(&resp, "output.1.content.0.text"), Some("answer"));
    assert_eq!(str_at(&resp, "output.2.arguments"), Some("{\"a\":1}"));

    let mut a = AnthropicEmitter::new();
    emit_all(&mut a, &events);
    let msg = a.final_message();
    assert_eq!(str_at(&msg, "content.0.thinking"), Some("think"));
    assert_eq!(str_at(&msg, "content.1.text"), Some("answer"));
    assert_eq!(u64_at(&msg, "content.2.input.a"), Some(1));
}

#[test]
fn the_last_frame_carries_the_whole_response() {
    let mut r = ResponsesEmitter::new();
    let out = emit_all(&mut r, &deltas());
    let last = out.frames.last().unwrap();
    assert_eq!(last.event, "response.completed");
    assert_eq!(at(&last.data, "response").unwrap().to_text(), r.final_response().to_text());
}

#[test]
fn the_best_candidate_is_the_one_that_is_resolved() {
    let mut c = empty_config();
    for name in ["a", "b", "c"] {
        c.providers.insert(name, provider("u"));
    }
    c.routes.push(route("m", "a", "x", vec![target("b", "y"), target("c", "z")]));
    for down in ["", "a", "b", "ab"] {
        let mut status = Dict::new();
        for name in ["a", "b"] {
            let available = !down.contains(name);
            status.insert(name, ProviderStatus { available, ..Default::default() });
        }
        let best = resolve(&c, &status, "m").unwrap();
        let chain = resolve_candidates(&c, &status, &vec![], "m").unwrap();
        assert_eq!(chain.len(), 3);
        assert_eq!(best.provider_name, chain[0].provider_name);
        assert_eq!(best.upstream_model, chain[0].upstream_model);
    }
}

#[test]
fn accepted_requests_have_somebody_to_ask() {
    let mut c = empty_config();
    c.default_provider = Some("p".into());
    let body = json(r#"{"model":"m","messages":[]}"#);
    let nobody = accept(&c, Dialect::Chat, None, None, &body, &Dict::new(), &vec![]);
    assert!(nobody.is_err());
    c.providers.insert("p", provider("u"));
    let accepted =
        accept(&c, Dialect::Chat, None, None, &body, &Dict::new(), &vec!["p".to_string()])
            .unwrap();
    assert_eq!(accepted.candidates.len(), 1);
}

#[test]
fn a_good_probe_restores_a_provider() {
    let mut p = provider("u");
    p.quota_min = Some(double(2.0));
    let mut status = Dict::new();
    mark_degraded(&mut status, "p", &BridgeError::UpstreamUnreachable("x".into()));
    assert!(!is_usable(&p, status.get("p")));
    for (remaining, usable) in [(None, true), (Some(2.0), true), (Some(1.0), false)] {
        let ret = ProbeReturn {
            ok: true,
            remaining: remaining.map(double),
            used: None,
            limit: None,
            note: None,
        };
        let new = probe_status(&p, 5, Outcome::Returned(ret));
        update_status(&mut status, "p", new);
        assert_eq!(is_usable(&p, status.get("p")), usable);
    }
    assert!(is_usable(&p, None));
}

#[test]
fn forgetting_old_events_changes_no_window() {
    let day = 24 * 60 * 60;
    let month = UsageWindow {
        label: "30d".into(),
        window_secs: 30 * day as u64,
        limit: double(100.0),
    };
    let windows = vec![month];
    let mut m = UsageMeter::new();
    for d in 0..40 {
        assert!(m.record("p", UsageKind::Billing, double(1.0), d * day));
    }
    let now = 39 * day;
    assert!(m.events("p", UsageKind::Billing).len() < 40);
    assert!(m.windows_fit("p", UsageKind::Billing, &windows, now));
    let usage = &m.windows("p", UsageKind::Billing, &windows, now)[0];
    assert_eq!(usage.amounts.iter().map(value_of).sum::<f64>(), 30.0);
    assert!(0 <= usage.reset_in_secs && usage.reset_in_secs <= 30 * day);
    let times: Vec<i64> = m.events("p", UsageKind::Billing).iter().map(|e| e.ts).collect();
    assert!(times.windows(2).all(|w| w[0] <= w[1]));
}

const TAIL: &str = "data: {\"choices\":[],\"usage\":{\"prompt_tokens\":4,\"completion_tokens\":1},\"cost\":0.5}\n\n";

fn heard(track: bool, chunks: &[&str]) -> (Vec<CanonicalEvent>, StreamReader) {
    let mut reader = StreamReader::new("r".to_string(), track);
    let mut events = Vec::new();
    for c in chunks {
        events.extend(reader.on_bytes(c.as_bytes()));
    }
    events.extend(reader.finish());
    (events, reader)
}

#[test]
fn tracking_is_not_heard() {
    let open = "data: {\"model\":\"m\",\"choices\":[{\"delta\":{\"content\":\"x\"}}]}\n\n";
    let done = "data: [DONE]\n\n";
    for chunks in [vec![open, TAIL, done], vec![open, done, TAIL, done], vec![open], vec![]] {
        let (loud, counting) = heard(true, &chunks);
        let (quiet, untracked) = heard(false, &chunks);
        assert_eq!(loud, quiet);
        assert_eq!(loud.iter().filter(|e| matches!(e, Completed)).count(), 1);
        assert!(untracked.costs().is_empty());
        assert_eq!(untracked.tokens(), (None, None));
        if chunks.contains(&TAIL) {
            assert_eq!(counting.costs().len(), 1);
            assert_eq!(counting.tokens(), (Some(4), Some(1)));
        }
    }
}

#[test]
fn a_stream_starts_each_call_once() {
    let call = "data: {\"model\":\"m\",\"choices\":[{\"delta\":{\"tool_calls\":[{\"index\":0,\"id\":\"c\",\"function\":{\"name\":\"f\",\"arguments\":\"{}\"}}]}}]}\n\n";
    let (events, _) = heard(false, &[call, call, call]);
    let starts = events.iter().filter(|e| matches!(e, ToolCallStart { .. })).count();
    assert_eq!(starts, 1);
    assert_eq!(events.last(), Some(&Completed));
}

#[test]
fn pieces_come_to_the_same_answer() {
    let whole = vec![
        Created { response_id: "r".into(), model: "m".into() },
        ReasoningDelta { text: "think".into() },
        TextDelta { text: "answer".into() },
        ToolCallStart { index: 0, call_id: "c".into(), name: "f".into() },
        ToolCallArgsDelta { index: 0, delta: "{\"a\":1}".into() },
        Completed,
    ];
    let mut cut = AnthropicEmitter::new();
    emit_all(&mut cut, &deltas());
    let mut once = AnthropicEmitter::new();
    emit_all(&mut once, &whole);
    assert_eq!(cut.final_message().to_text(), once.final_message().to_text());

    let mut cut = ResponsesEmitter::new();
    let mut once = ResponsesEmitter::new();
    let mut pieces = deltas();
    pieces.truncate(8);
    for ev in &pieces {
        cut.on_event_with(ev, "id");
    }
    for ev in &whole[..5] {
        once.on_event_with(ev, "id");
    }
    cut.on_event_with(&Completed, "id");
    once.on_event_with(&Completed, "id");
    assert_eq!(cut.final_response().to_text(), once.final_response().to_text());
}

/// A turn in which text follows a call, and two calls are open at once.
fn tangled() -> Vec<CanonicalEvent> {
    vec![
        Created { response_id: "r".into(), model: "m".into() },
        ReasoningDelta { text: "hm".into() },
        TextDelta { text: "a".into() },
        ToolCallStart { index: 3, call_id: "c3".into(), name: "f".into() },
        ToolCallStart { index: 1, call_id: "c1".into(), name: "g".into() },
        TextDelta { text: "b".into() },
        ToolCallArgsDelta { index: 3, delta: "{}".into() },
        ToolCallDone { index: 3 },
        ToolCallArgsDelta { index: 3, delta: "lost".into() },
        ToolCallArgsDelta { index: 1, delta: "{}".into() },
        Completed,
    ]
}

/// The numbers that the frames of a name carry under a key.
fn numbers(frames: &[SseFrame], name: &str, key: &str) -> Vec<u64> {
    frames.iter().filter(|f| f.event == name).map(|f| u64_at(&f.data, key).unwrap()).collect()
}

/// Where the frames open and close their parts, and that pieces come in between.
fn check_parts(frames: &[SseFrame], open: &str, close: &str, key: &str, pieces: &[&str]) {
    let opened = numbers(frames, open, key);
    assert_eq!(opened, (0..opened.len() as u64).collect::<Vec<_>>());
    assert_eq!(numbers(frames, close, key).len(), opened.len());
    for n in opened {
        let place = |name: &str| {
            let found: Vec<usize> = (0..frames.len())
                .filter(|&i| frames[i].event == name && u64_at(&frames[i].data, key) == Some(n))
                .collect();
            assert_eq!(found.len(), 1);
            found[0]
        };
        let (from, to) = (place(open), place(close));
        assert!(from < to);
        for (i, f) in frames.iter().enumerate() {
            if pieces.contains(&f.event.as_str()) && u64_at(&f.data, key) == Some(n) {
                assert!(from < i && i < to);
            }
        }
    }
    for f in frames {
        assert_eq!(str_at(&f.data, "type"), Some(f.event.as_str()));
    }
}

#[test]
fn items_open_in_order_and_close_once() {
    let mut e = ResponsesEmitter::new();
    let mut frames = Vec::new();
    for ev in tangled() {
        frames.extend(e.on_event(&ev));
    }
    check_parts(
        &frames,
        "response.output_item.added",
        "response.output_item.done",
        "output_index",
        &[
            "response.reasoning_summary_text.delta",
            "response.output_text.delta",
            "response.function_call_arguments.delta",
        ],
    );
    let last = frames.last().unwrap();
    assert_eq!(last.event, "response.completed");
    let done: Vec<String> = frames
        .iter()
        .filter(|f| f.event == "response.output_item.done")
        .map(|f| at(&f.data, "item").unwrap().to_text())
        .collect();
    let output: Vec<String> = at(&last.data, "response.output")
        .unwrap()
        .as_array()
        .unwrap()
        .iter()
        .map(|item| item.to_text())
        .collect();
    assert_eq!(done.len(), 5);
    assert_eq!(output, done);
}

#[test]
fn blocks_open_in_order_and_close_once() {
    let mut e = AnthropicEmitter::new();
    let mut frames = Vec::new();
    for ev in tangled() {
        frames.extend(e.on_event(&ev));
    }
    check_parts(
        &frames,
        "content_block_start",
        "content_block_stop",
        "index",
        &["content_block_delta"],
    );
    let end = frames.len() - 2;
    assert!(frames.iter().rposition(|f| f.event == "content_block_stop").unwrap() < end);
}

#[test]
fn messages_begin_and_end_once() {
    let plain = vec![
        Created { response_id: "r".into(), model: "m".into() },
        TextDelta { text: "a".into() },
        Completed,
    ];
    for (events, reason) in [(tangled(), "tool_use"), (plain, "end_turn")] {
        let mut e = AnthropicEmitter::new();
        let mut frames = Vec::new();
        for ev in events {
            frames.extend(e.on_event(&ev));
        }
        let places = |name: &str| -> Vec<usize> {
            (0..frames.len()).filter(|&i| frames[i].event == name).collect()
        };
        assert_eq!(places("message_start"), vec![0]);
        assert_eq!(places("message_delta"), vec![frames.len() - 2]);
        assert_eq!(places("message_stop"), vec![frames.len() - 1]);
        assert_eq!(str_at(&frames[frames.len() - 2].data, "delta.stop_reason"), Some(reason));
    }
}

#[test]
fn chunks_are_read_in_order() {
    let mut p = ChatStreamParser::new("r".to_string());
    let failed = json(r#"{"error": {"message": "busy", "code": 503}}"#);
    let busy = vec![Error { message: "busy".into(), status: 503 }];
    assert_eq!(p.on_chunk(&failed), busy);
    let first = json(r#"{"model": "m", "choices": [{"delta": {"content": "x"}}]}"#);
    assert_eq!(
        p.on_chunk(&first),
        vec![
            Created { response_id: "r".into(), model: "m".into() },
            TextDelta { text: "x".into() },
        ]
    );
    assert_eq!(p.on_chunk(&failed), busy);
    let call = json(
        r#"{"model": "other", "choices": [{"delta": {"tool_calls": [
            {"index": 2, "id": "c", "function": {"name": "f", "arguments": "{"}},
            {"index": 2, "function": {"arguments": "}"}}
        ]}, "finish_reason": "tool_calls"}]}"#,
    );
    assert_eq!(
        p.on_chunk(&call),
        vec![
            ToolCallStart { index: 2, call_id: "c".into(), name: "f".into() },
            ToolCallArgsDelta { index: 2, delta: "{".into() },
            ToolCallArgsDelta { index: 2, delta: "}".into() },
            ToolCallDone { index: 2 },
        ]
    );
    assert!(p.on_chunk(&call).iter().all(|e| !matches!(e, ToolCallStart { .. } | Created { .. })));
}

#[test]
fn whole_answers_and_streams_agree() {
    let resp = json(
        r#"{"model": "m", "choices": [{"message": {
            "reasoning_content": "hm", "content": "x", "tool_calls": [
                {"id": "a", "function": {"name": "f", "arguments": "{}"}},
                {"id": "b", "function": {"name": "g", "arguments": ""}}
            ]}}], "usage": {"prompt_tokens": 1, "completion_tokens": 2}}"#,
    );
    let chunk = json(
        r#"{"model": "m", "choices": [{"delta": {
            "reasoning_content": "hm", "content": "x", "tool_calls": [
                {"index": 0, "id": "a", "function": {"name": "f", "arguments": "{}"}},
                {"index": 1, "id": "b", "function": {"name": "g", "arguments": ""}}
            ]}, "finish_reason": "stop"}], "usage": {"prompt_tokens": 1, "completion_tokens": 2}}"#,
    );
    let whole = completion_to_events(&resp, "r");
    let mut stream = ChatStreamParser::new("r".to_string()).on_chunk(&chunk);
    stream.push(Completed);
    assert_eq!(whole.len(), stream.len());
    assert_eq!(whole.len(), 10);
    let no_done = |evs: &[CanonicalEvent]| -> Vec<String> {
        evs.iter()
            .filter(|e| !matches!(e, ToolCallDone { .. }))
            .map(|e| format!("{e:?}"))
            .collect()
    };
    assert_eq!(no_done(&whole), no_done(&stream));
    let sorted = |evs: &[CanonicalEvent]| -> Vec<String> {
        let mut all: Vec<String> = evs.iter().map(|e| format!("{e:?}")).collect();
        all.sort();
        all
    };
    assert_eq!(sorted(&whole), sorted(&stream));
    assert_ne!(whole, stream);
}
