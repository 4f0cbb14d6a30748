//! The Responses format: requests in, response frames out.

use ai_api_bridge::canonical::CanonicalEvent::{
    Completed, Created, Error, ReasoningDelta, TextDelta, ToolCallArgsDelta, ToolCallDone,
    ToolCallStart, Usage,
};
use ai_api_bridge::canonical::{CanonicalEvent, Message, ReasoningEffort, ToolChoice};
use ai_api_bridge::error::BridgeError;
use ai_api_bridge::json::JsonValue;
use ai_api_bridge::wire::responses::{parse_request, ResponsesEmitter};
use ai_api_bridge::wire::SseFrame;

fn json(text: &str) -> JsonValue {
    JsonValue::parse(text).unwrap()
}

/// The value at a path such as `content.0.text`.
fn at<'a>(v: &'a JsonValue, path: &str) -> Option<&'a JsonValue> {
    let mut here = v;
    for step in path.split('.') {
        here = match step.parse::<usize>() {
            Ok(i) => here.as_array()?.get(i)?,
            Err(_) => here.get(step)?,
        };
    }
    Some(here)
}

fn str_at<'a>(v: &'a JsonValue, path: &str) -> Option<&'a str> {
    at(v, path).and_then(|x| x.as_str())
}

fn u64_at(v: &JsonValue, path: &str) -> Option<u64> {
    at(v, path).and_then(|x| x.as_u64())
}

fn event_names(frames: &[SseFrame]) -> Vec<String> {
    frames.iter().map(|f| f.event.clone()).collect()
}

fn emit(e: &mut ResponsesEmitter, events: Vec<CanonicalEvent>) -> Vec<SseFrame> {
    let mut f = Vec::new();
    for ev in events {
        assert!(e.has_space());
        f.extend(e.on_event(&ev));
    }
    f
}

fn created() -> CanonicalEvent {
    Created { response_id: "r".into(), model: "m".into() }
}

#[test]
fn parses_instructions_and_string_input() {
    let body = json(
        r#"{
            "model": "gpt-5.5",
            "instructions": "be terse",
            "input": "hello",
            "stream": true
        }"#,
    );
    let req = parse_request(&body).unwrap();
    assert_eq!(req.model, "gpt-5.5");
    assert_eq!(req.system.as_deref(), Some("be terse"));
    assert_eq!(req.messages, vec![Message::User("hello".into())]);
    assert!(req.stream);
}

#[test]
fn parses_array_input_with_tool_roundtrip() {
    let body = json(
        r#"{
            "model": "gpt-5.5",
            "input": [
                {"type": "message", "role": "user",
                 "content": [{"type": "input_text", "text": "weather?"}]},
                {"type": "function_call", "call_id": "c1", "name": "get_weather",
                 "arguments": "{\"city\":\"SF\"}"},
                {"type": "function_call_output", "call_id": "c1", "output": "sunny"}
            ],
            "tools": [{"type": "function", "name": "get_weather",
                       "description": "w", "parameters": {"type": "object"}}],
            "tool_choice": "auto"
        }"#,
    );
    let req = parse_request(&body).unwrap();
    assert_eq!(req.messages.len(), 3);
    assert_eq!(req.messages[0], Message::User("weather?".into()));
    match &req.messages[1] {
        Message::Assistant { tool_calls, .. } => {
            assert_eq!(tool_calls[0].name, "get_weather");
            assert_eq!(tool_calls[0].call_id, "c1");
        }
        other => panic!("expected assistant tool call, got {other:?}"),
    }
    assert_eq!(
        req.messages[2],
        Message::Tool { call_id: "c1".into(), output: "sunny".into() }
    );
    assert_eq!(req.tools.len(), 1);
    assert_eq!(req.tools[0].name, "get_weather");
    assert_eq!(req.tool_choice, ToolChoice::Auto);
}

#[test]
fn parses_reasoning_effort_and_max_tokens() {
    let body = json(
        r#"{
            "model": "gpt-5.5",
            "input": "hi",
            "reasoning": {"effort": "xhigh"},
            "max_output_tokens": 2048
        }"#,
    );
    let req = parse_request(&body).unwrap();
    assert_eq!(req.reasoning_effort, Some(ReasoningEffort::XHigh));
    assert_eq!(req.max_output_tokens, Some(2048));
}

#[test]
fn rejects_missing_model() {
    let err = parse_request(&json(r#"{"input": "x"}"#)).unwrap_err();
    assert!(matches!(err, BridgeError::BadRequest(_)));
}

#[test]
fn reasoning_preamble_and_tool_call_merge_into_one_assistant() {
    // One turn in three items: what it thought, what it said, and its call.
    let body = json(
        r#"{
            "model": "gpt-5.5",
            "input": [
                {"type": "message", "role": "user", "content": [{"type": "input_text", "text": "do it"}]},
                {"type": "reasoning", "summary": [{"type": "summary_text", "text": "I will run ls"}]},
                {"type": "message", "role": "assistant", "content": [{"type": "output_text", "text": "Let me check."}]},
                {"type": "function_call", "call_id": "c1", "name": "exec", "arguments": "{}"},
                {"type": "function_call_output", "call_id": "c1", "output": "ok"}
            ]
        }"#,
    );
    let req = parse_request(&body).unwrap();
    let assistants: Vec<_> = req
        .messages
        .iter()
        .filter_map(|m| match m {
            Message::Assistant { text, reasoning_content, tool_calls } => {
                Some((text, reasoning_content, tool_calls))
            }
            _ => None,
        })
        .collect();
    assert_eq!(
        assistants.len(),
        1,
        "reasoning + preamble + tool_call must be ONE assistant, got {}",
        assistants.len()
    );
    let (text, reasoning_content, tool_calls) = assistants[0];
    assert_eq!(tool_calls.len(), 1, "the tool call must be on the assistant");
    assert_eq!(text.as_deref(), Some("Let me check."));
    assert_eq!(
        reasoning_content.as_deref(),
        Some("I will run ls"),
        "reasoning_content must be on the tool-call assistant"
    );
}

#[test]
fn reasoning_then_function_call_carries_reasoning() {
    let body = json(
        r#"{
            "model": "gpt-5.5",
            "input": [
                {"type": "message", "role": "user", "content": [{"type": "input_text", "text": "go"}]},
                {"type": "reasoning", "summary": [{"type": "summary_text", "text": "step one"}]},
                {"type": "function_call", "call_id": "c1", "name": "exec", "arguments": "{}"},
                {"type": "function_call_output", "call_id": "c1", "output": "ok"}
            ]
        }"#,
    );
    let req = parse_request(&body).unwrap();
    let a = req
        .messages
        .iter()
        .find_map(|m| match m {
            Message::Assistant { reasoning_content, tool_calls, .. } => {
                Some((reasoning_content, tool_calls))
            }
            _ => None,
        })
        .expect("assistant");
    assert_eq!(a.1.len(), 1);
    assert_eq!(a.0.as_deref(), Some("step one"));
}

#[test]
fn orphaned_output_parses_to_bare_tool() {
    // The parent is only put in when the request goes upstream.
    let body = json(
        r#"{
            "model": "gpt-5.5",
            "input": [
                {"type": "message", "role": "user", "content": [{"type": "input_text", "text": "go"}]},
                {"type": "function_call_output", "call_id": "c1", "output": "ok"},
                {"type": "message", "role": "user", "content": [{"type": "input_text", "text": "next"}]}
            ]
        }"#,
    );
    let req = parse_request(&body).unwrap();
    assert_eq!(
        req.messages,
        vec![
            Message::User("go".into()),
            Message::Tool { call_id: "c1".into(), output: "ok".into() },
            Message::User("next".into()),
        ],
        "orphaned output should parse to a bare tool, got {:?}",
        req.messages
    );
}

#[test]
fn merges_consecutive_function_calls_into_one_assistant() {
    let body = json(
        r#"{
            "model": "gpt-5.5",
            "input": [
                {"type": "message", "role": "user", "content": [{"type": "input_text", "text": "do two things"}]},
                {"type": "function_call", "call_id": "c1", "name": "read", "arguments": "{\"path\":\"a\"}"},
                {"type": "function_call", "call_id": "c2", "name": "read", "arguments": "{\"path\":\"b\"}"},
                {"type": "function_call_output", "call_id": "c1", "output": "content a"},
                {"type": "function_call_output", "call_id": "c2", "output": "content b"},
                {"type": "message", "role": "user", "content": [{"type": "input_text", "text": "next"}]}
            ]
        }"#,
    );
    let req = parse_request(&body).unwrap();
    assert_eq!(
        req.messages.len(),
        5,
        "expected [user, assistant(c1,c2), tool(c1), tool(c2), user], got {:?}",
        req.messages
    );
    match &req.messages[1] {
        Message::Assistant { tool_calls, .. } => {
            assert_eq!(tool_calls.len(), 2, "both c1 and c2 must be on the same assistant");
            assert_eq!(tool_calls[0].call_id, "c1");
            assert_eq!(tool_calls[1].call_id, "c2");
            assert_eq!(tool_calls[0].arguments, r#"{"path":"a"}"#);
            assert_eq!(tool_calls[1].arguments, r#"{"path":"b"}"#);
        }
        other => panic!("expected assistant, got {other:?}"),
    }
    assert_eq!(
        req.messages[2],
        Message::Tool { call_id: "c1".into(), output: "content a".into() }
    );
    assert_eq!(
        req.messages[3],
        Message::Tool { call_id: "c2".into(), output: "content b".into() }
    );
    assert_eq!(req.messages[4], Message::User("next".into()));
}

#[test]
fn emits_message_sequence_for_text() {
    let mut e = ResponsesEmitter::new();
    let frames = emit(
        &mut e,
        vec![
            created(),
            TextDelta { text: "Hi".into() },
            Usage {
                input_tokens: 10,
                output_tokens: 5,
                total_tokens: 15,
                cached_input_tokens: 7,
                reasoning_tokens: 3,
            },
            Completed,
        ],
    );
    let names = event_names(&frames);
    assert_eq!(names.first().unwrap(), "response.created");
    assert!(names.contains(&"response.output_item.added".to_string()));
    assert!(names.contains(&"response.content_part.added".to_string()));
    assert!(names.contains(&"response.output_text.delta".to_string()));
    assert_eq!(names.last().unwrap(), "response.completed");
    let delta = frames.iter().find(|f| f.event == "response.output_text.delta").unwrap();
    assert_eq!(str_at(&delta.data, "delta"), Some("Hi"));
    let completed = frames.last().unwrap();
    assert_eq!(u64_at(&completed.data, "response.usage.total_tokens"), Some(15));
    assert_eq!(
        u64_at(&completed.data, "response.usage.input_tokens_details.cached_tokens"),
        Some(7)
    );
    assert_eq!(
        u64_at(&completed.data, "response.usage.output_tokens_details.reasoning_tokens"),
        Some(3)
    );
    assert_eq!(str_at(&completed.data, "response.output.0.content.0.text"), Some("Hi"));
}

#[test]
fn emits_function_call_sequence() {
    let mut e = ResponsesEmitter::new();
    let frames = emit(
        &mut e,
        vec![
            created(),
            ToolCallStart { index: 0, call_id: "c1".into(), name: "f".into() },
            ToolCallArgsDelta { index: 0, delta: "{}".into() },
            ToolCallDone { index: 0 },
            Completed,
        ],
    );
    let names = event_names(&frames);
    assert!(names.contains(&"response.function_call_arguments.delta".to_string()));
    assert!(names.contains(&"response.function_call_arguments.done".to_string()));
    let done =
        frames.iter().find(|f| f.event == "response.function_call_arguments.done").unwrap();
    assert_eq!(str_at(&done.data, "arguments"), Some("{}"));
    let completed = frames.last().unwrap();
    assert_eq!(str_at(&completed.data, "response.output.0.type"), Some("function_call"));
    assert_eq!(str_at(&completed.data, "response.output.0.name"), Some("f"));
}

#[test]
fn final_response_available_after_completed() {
    let mut e = ResponsesEmitter::new();
    emit(&mut e, vec![created(), TextDelta { text: "ok".into() }, Completed]);
    let resp = e.final_response();
    assert_eq!(str_at(&resp, "status"), Some("completed"));
    assert_eq!(str_at(&resp, "output.0.content.0.text"), Some("ok"));
}

#[test]
fn frames_carry_increasing_sequence_numbers() {
    let mut e = ResponsesEmitter::new();
    let frames = emit(&mut e, vec![created(), TextDelta { text: "hi".into() }, Completed]);
    let seqs: Vec<u64> =
        frames.iter().map(|f| u64_at(&f.data, "sequence_number").unwrap()).collect();
    assert!(!seqs.is_empty());
    for (i, s) in seqs.iter().enumerate() {
        assert_eq!(*s, i as u64, "sequence numbers must be 0,1,2,... in order");
    }
}

#[test]
fn items_are_closed_in_the_places_where_they_were_opened() {
    let mut e = ResponsesEmitter::new();
    let frames = emit(
        &mut e,
        vec![
            created(),
            ReasoningDelta { text: "a".into() },
            TextDelta { text: "b".into() },
            ToolCallStart { index: 3, call_id: "c".into(), name: "f".into() },
            Completed,
        ],
    );
    let places = |name: &str| -> Vec<u64> {
        frames
            .iter()
            .filter(|f| f.event == name)
            .map(|f| u64_at(&f.data, "output_index").unwrap())
            .collect()
    };
    assert_eq!(places("response.output_item.added"), vec![0, 1, 2]);
    assert_eq!(places("response.output_item.done"), vec![0, 1, 2]);
    assert_eq!(at(&e.final_response(), "output").unwrap().as_array().unwrap().len(), 3);
}

#[test]
fn items_are_named_with_random_identifiers() {
    let mut ids = Vec::new();
    for _ in 0..2 {
        let mut e = ResponsesEmitter::new();
        emit(&mut e, vec![created(), TextDelta { text: "x".into() }, Completed]);
        let resp = e.final_response();
        ids.push(str_at(&resp, "output.0.id").unwrap().to_string());
    }
    assert!(ids[0].starts_with("msg_"));
    assert_eq!(ids[0].len(), "msg_".len() + 32);
    assert_ne!(ids[0], ids[1]);
}

#[test]
fn an_upstream_error_fails_the_response() {
    let mut e = ResponsesEmitter::new();
    let frames = emit(&mut e, vec![created(), Error { message: "boom".into(), status: 503 }]);
    let last = frames.last().unwrap();
    assert_eq!(last.event, "response.failed");
    assert!(last.data.to_text().contains("boom"));
}

#[test]
fn a_call_without_an_identifier_gets_one() {
    let mut e = ResponsesEmitter::new();
    let nameless = ToolCallStart { index: 0, call_id: "".into(), name: "f".into() };
    let given = ToolCallStart { index: 1, call_id: "c1".into(), name: "g".into() };
    let frames = emit(&mut e, vec![created(), nameless, given, Completed]);
    let last = frames.last().unwrap();
    let id = str_at(&last.data, "response.output.0.call_id").unwrap();
    assert!(id.starts_with("fc_"), "{id}");
    assert_eq!(str_at(&last.data, "response.output.0.id"), Some(id));
    assert_eq!(str_at(&frames[1].data, "item.call_id"), Some(id));
    assert_eq!(str_at(&last.data, "response.output.1.call_id"), Some("c1"));
}

#[test]
fn the_summary_is_done_before_its_item() {
    let mut e = ResponsesEmitter::new();
    let hm = ReasoningDelta { text: "hm".into() };
    let ah = ReasoningDelta { text: ", ah".into() };
    let frames = emit(&mut e, vec![created(), hm, ah, Completed]);
    assert_eq!(
        event_names(&frames),
        vec![
            "response.created",
            "response.output_item.added",
            "response.reasoning_summary_text.delta",
            "response.reasoning_summary_text.delta",
            "response.reasoning_summary_text.done",
            "response.output_item.done",
            "response.completed",
        ]
    );
    let done = &frames[4].data;
    assert_eq!(str_at(done, "type"), Some("response.reasoning_summary_text.done"));
    assert_eq!(str_at(done, "text"), Some("hm, ah"));
    assert_eq!(u64_at(done, "summary_index"), Some(0));
    assert_eq!(u64_at(done, "output_index"), Some(0));
    assert_eq!(str_at(done, "item_id"), str_at(&frames[1].data, "item.id"));
}
