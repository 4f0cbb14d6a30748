//! The Messages format: requests in, message frames out.

use ai_api_bridge::canonical::CanonicalEvent::{
    Completed, Created, Error, ReasoningDelta, TextDelta, ToolCallArgsDelta, ToolCallDone,
    ToolCallStart, Usage,
};
use ai_api_bridge::canonical::{CanonicalEvent, Message, ToolChoice};
use ai_api_bridge::error::BridgeError;
use ai_api_bridge::json::JsonValue;
use ai_api_bridge::wire::anthropic::{parse_request, AnthropicEmitter};
use ai_api_bridge::wire::SseFrame;

fn json(text: &str) -> JsonValue {
    JsonValue::parse(text).unwrap()
}

/// The value at a path such as `content.0.text`.
fn at<'a>(v: &'a JsonValue, path: &str) -> Option<&'a JsonValue> {
    let mut here = v;
    for step in path.split('.') {
        here = match step.parse::<usize>() {
            Ok(i) => here.as_array()?.get(i)?,
            Err(_) => here.get(step)?,
        };
    }
    Some(here)
}

fn str_at<'a>(v: &'a JsonValue, path: &str) -> Option<&'a str> {
    at(v, path).and_then(|x| x.as_str())
}

fn u64_at(v: &JsonValue, path: &str) -> Option<u64> {
    at(v, path).and_then(|x| x.as_u64())
}

fn names(frames: &[SseFrame]) -> Vec<String> {
    frames.iter().map(|f| f.event.clone()).collect()
}

fn emit(e: &mut AnthropicEmitter, events: Vec<CanonicalEvent>) -> Vec<SseFrame> {
    let mut f = Vec::new();
    for ev in events {
        assert!(e.has_space());
        f.extend(e.on_event(&ev));
    }
    f
}

fn created() -> CanonicalEvent {
    Created { response_id: "msg_1".into(), model: "m".into() }
}

#[test]
fn parses_system_tools_and_user_text() {
    let body = json(
        r#"{
            "model": "model-x",
            "max_tokens": 256,
            "system": "be terse",
            "messages": [{"role": "user", "content": "hello"}],
            "tools": [{"name": "get_weather", "description": "w", "input_schema": {"type": "object"}}],
            "tool_choice": {"type": "auto"},
            "stream": true
        }"#,
    );
    let req = parse_request(&body).unwrap();
    assert_eq!(req.model, "model-x");
    assert_eq!(req.system.as_deref(), Some("be terse"));
    assert_eq!(req.messages, vec![Message::User("hello".into())]);
    assert_eq!(req.max_output_tokens, Some(256));
    assert_eq!(req.tools.len(), 1);
    assert_eq!(req.tools[0].name, "get_weather");
    assert_eq!(req.tool_choice, ToolChoice::Auto);
    assert!(req.stream);
}

#[test]
fn parses_assistant_thinking_tool_use_and_tool_result() {
    let body = json(
        r#"{
            "model": "model-x",
            "messages": [
                {"role": "user", "content": "weather?"},
                {"role": "assistant", "content": [
                    {"type": "thinking", "thinking": "let me check", "signature": "s"},
                    {"type": "text", "text": "Checking."},
                    {"type": "tool_use", "id": "tu_1", "name": "get_weather", "input": {"city": "SF"}}
                ]},
                {"role": "user", "content": [
                    {"type": "tool_result", "tool_use_id": "tu_1", "content": "sunny"}
                ]}
            ]
        }"#,
    );
    let req = parse_request(&body).unwrap();
    assert_eq!(req.messages.len(), 3);
    assert_eq!(req.messages[0], Message::User("weather?".into()));
    match &req.messages[1] {
        Message::Assistant { text, reasoning_content, tool_calls } => {
            assert_eq!(text.as_deref(), Some("Checking."));
            assert_eq!(reasoning_content.as_deref(), Some("let me check"));
            assert_eq!(tool_calls.len(), 1);
            assert_eq!(tool_calls[0].call_id, "tu_1");
            assert_eq!(tool_calls[0].name, "get_weather");
            assert!(tool_calls[0].arguments.contains("\"city\""));
        }
        other => panic!("expected assistant, got {other:?}"),
    }
    assert_eq!(
        req.messages[2],
        Message::Tool { call_id: "tu_1".into(), output: "sunny".into() }
    );
}

#[test]
fn tool_choice_any_and_tool() {
    let any = parse_request(&json(
        r#"{"model": "m", "messages": [], "tool_choice": {"type": "any"}}"#,
    ))
    .unwrap();
    assert_eq!(any.tool_choice, ToolChoice::Required);
    let pick = parse_request(&json(
        r#"{"model": "m", "messages": [], "tool_choice": {"type": "tool", "name": "f"}}"#,
    ))
    .unwrap();
    assert_eq!(pick.tool_choice, ToolChoice::Function("f".into()));
}

#[test]
fn assistant_with_only_thinking_gets_empty_text() {
    let body = json(
        r#"{"model": "m", "messages": [
            {"role": "assistant", "content": [{"type": "thinking", "thinking": "hmm", "signature": "s"}]}
        ]}"#,
    );
    let req = parse_request(&body).unwrap();
    match &req.messages[0] {
        Message::Assistant { text, reasoning_content, tool_calls } => {
            assert_eq!(text.as_deref(), Some(""));
            assert_eq!(reasoning_content.as_deref(), Some("hmm"));
            assert!(tool_calls.is_empty());
        }
        other => panic!("expected assistant, got {other:?}"),
    }
}

#[test]
fn a_request_without_a_model_is_refused() {
    match parse_request(&json("{}")) {
        Err(e) => {
            assert!(matches!(e, BridgeError::BadRequest(_)));
            assert_eq!(e.http_status(), 400);
        }
        Ok(_) => panic!("expected an error"),
    }
}

#[test]
fn emits_text_message_sequence() {
    let mut e = AnthropicEmitter::new();
    let f = emit(
        &mut e,
        vec![
            created(),
            TextDelta { text: "Hi".into() },
            Usage {
                input_tokens: 3,
                output_tokens: 1,
                total_tokens: 4,
                cached_input_tokens: 2,
                reasoning_tokens: 0,
            },
            Completed,
        ],
    );
    let n = names(&f);
    assert_eq!(n.first().unwrap(), "message_start");
    assert!(n.contains(&"content_block_start".to_string()));
    assert!(n.contains(&"content_block_delta".to_string()));
    assert!(n.contains(&"content_block_stop".to_string()));
    assert_eq!(n[n.len() - 2], "message_delta");
    assert_eq!(n.last().unwrap(), "message_stop");
    let delta =
        f.iter().find(|fr| str_at(&fr.data, "delta.type") == Some("text_delta")).unwrap();
    assert_eq!(str_at(&delta.data, "delta.text"), Some("Hi"));
    let md = f.iter().find(|fr| fr.event == "message_delta").unwrap();
    assert_eq!(str_at(&md.data, "delta.stop_reason"), Some("end_turn"));
    assert_eq!(u64_at(&md.data, "usage.output_tokens"), Some(1));
    // The input count leaves out what came from the cache (3 - 2 = 1).
    assert_eq!(u64_at(&md.data, "usage.input_tokens"), Some(1));
    assert_eq!(u64_at(&md.data, "usage.cache_read_input_tokens"), Some(2));
}

#[test]
fn emits_tool_use_sequence() {
    let mut e = AnthropicEmitter::new();
    let f = emit(
        &mut e,
        vec![
            created(),
            ToolCallStart { index: 0, call_id: "tu_1".into(), name: "f".into() },
            ToolCallArgsDelta { index: 0, delta: "{\"a\":1}".into() },
            ToolCallDone { index: 0 },
            Completed,
        ],
    );
    let start =
        f.iter().find(|fr| str_at(&fr.data, "content_block.type") == Some("tool_use")).unwrap();
    assert_eq!(str_at(&start.data, "content_block.id"), Some("tu_1"));
    assert_eq!(str_at(&start.data, "content_block.name"), Some("f"));
    let jd =
        f.iter().find(|fr| str_at(&fr.data, "delta.type") == Some("input_json_delta")).unwrap();
    assert_eq!(str_at(&jd.data, "delta.partial_json"), Some("{\"a\":1}"));
    let md = f.iter().find(|fr| fr.event == "message_delta").unwrap();
    assert_eq!(str_at(&md.data, "delta.stop_reason"), Some("tool_use"));
}

#[test]
fn final_message_assembles_blocks() {
    let mut e = AnthropicEmitter::new();
    emit(
        &mut e,
        vec![
            created(),
            ReasoningDelta { text: "think".into() },
            TextDelta { text: "answer".into() },
            ToolCallStart { index: 0, call_id: "tu_1".into(), name: "f".into() },
            ToolCallArgsDelta { index: 0, delta: "{}".into() },
            ToolCallDone { index: 0 },
            Usage {
                input_tokens: 5,
                output_tokens: 2,
                total_tokens: 7,
                cached_input_tokens: 2,
                reasoning_tokens: 0,
            },
            Completed,
        ],
    );
    let msg = e.final_message();
    assert_eq!(str_at(&msg, "type"), Some("message"));
    assert_eq!(str_at(&msg, "role"), Some("assistant"));
    assert_eq!(str_at(&msg, "content.0.type"), Some("thinking"));
    assert_eq!(str_at(&msg, "content.0.thinking"), Some("think"));
    assert_eq!(str_at(&msg, "content.1.type"), Some("text"));
    assert_eq!(str_at(&msg, "content.1.text"), Some("answer"));
    assert_eq!(str_at(&msg, "content.2.type"), Some("tool_use"));
    assert_eq!(str_at(&msg, "content.2.name"), Some("f"));
    assert_eq!(str_at(&msg, "stop_reason"), Some("tool_use"));
    // What came from the cache is counted apart (5 - 2 = 3).
    assert_eq!(u64_at(&msg, "usage.input_tokens"), Some(3));
    assert_eq!(u64_at(&msg, "usage.cache_read_input_tokens"), Some(2));
}

#[test]
fn blocks_take_the_next_free_places() {
    let mut e = AnthropicEmitter::new();
    let f = emit(
        &mut e,
        vec![
            created(),
            ReasoningDelta { text: "a".into() },
            TextDelta { text: "b".into() },
            ToolCallStart { index: 7, call_id: "c".into(), name: "f".into() },
            Completed,
        ],
    );
    let opened: Vec<u64> = f
        .iter()
        .filter(|fr| fr.event == "content_block_start")
        .map(|fr| u64_at(&fr.data, "index").unwrap())
        .collect();
    let closed: Vec<u64> = f
        .iter()
        .filter(|fr| fr.event == "content_block_stop")
        .map(|fr| u64_at(&fr.data, "index").unwrap())
        .collect();
    assert_eq!(opened, vec![0, 1, 2]);
    assert_eq!(closed, vec![0, 1, 2]);
}

#[test]
fn an_upstream_error_becomes_an_error_frame() {
    let mut e = AnthropicEmitter::new();
    let f = emit(&mut e, vec![created(), Error { message: "boom".into(), status: 500 }]);
    assert_eq!(f.last().unwrap().event, "error");
    assert_eq!(str_at(&f.last().unwrap().data, "error.message"), Some("boom"));
}

#[test]
fn arguments_that_are_no_json_become_an_empty_input() {
    let mut e = AnthropicEmitter::new();
    emit(
        &mut e,
        vec![
            created(),
            ToolCallStart { index: 0, call_id: "c".into(), name: "f".into() },
            ToolCallArgsDelta { index: 0, delta: "{oops".into() },
            ToolCallDone { index: 0 },
            Completed,
        ],
    );
    let msg = e.final_message();
    assert_eq!(at(&msg, "content.0.input").unwrap().to_text(), "{}");
}
