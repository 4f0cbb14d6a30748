//! Splitting an upstream byte stream into server-sent events.

use ai_api_bridge::sse::{parse_event_block, SseDecoder, SseItem};

#[test]
fn splits_events_across_chunks() {
    let mut d = SseDecoder::default();
    let mut items = d.push("data: {\"a\":1}\n\ndata: {\"b\"");
    items.extend(d.push(":2}\n\n"));
    assert_eq!(
        items,
        vec![
            SseItem::Data("{\"a\":1}".into()),
            SseItem::Data("{\"b\":2}".into()),
        ]
    );
}

#[test]
fn recognizes_done_and_crlf() {
    let mut d = SseDecoder::default();
    let items = d.push("data: [DONE]\r\n\r\n");
    assert_eq!(items, vec![SseItem::Done]);
}

#[test]
fn ignores_comment_and_event_lines() {
    let mut d = SseDecoder::default();
    let items = d.push(": ping\nevent: foo\ndata: {\"x\":true}\n\n");
    assert_eq!(items, vec![SseItem::Data("{\"x\":true}".into())]);
}

#[test]
fn a_character_cut_in_two_is_put_together() {
    let bytes = "data: caf\u{e9}\n\n".as_bytes();
    for cut in 0..bytes.len() {
        let mut d = SseDecoder::default();
        let mut items = d.push_bytes(&bytes[..cut]);
        items.extend(d.push_bytes(&bytes[cut..]));
        assert_eq!(items, vec![SseItem::Data("caf\u{e9}".into())]);
    }
}

#[test]
fn bytes_that_are_no_text_are_replaced() {
    let mut d = SseDecoder::default();
    let items = d.push_bytes(b"data: a\xffb\n\n");
    assert_eq!(items, vec![SseItem::Data("a\u{fffd}b".into())]);
}

#[test]
fn an_unfinished_block_is_kept_back() {
    let mut d = SseDecoder::default();
    assert_eq!(d.push("data: x\n"), vec![]);
    assert_eq!(d.push("\n"), vec![SseItem::Data("x".into())]);
    assert_eq!(d.push("\n\n"), vec![]);
}

#[test]
fn a_block_without_data_is_no_item() {
    assert_eq!(parse_event_block("event: foo"), None);
    assert_eq!(parse_event_block(""), None);
    assert_eq!(parse_event_block("data: [DONE]"), Some(SseItem::Done));
    assert_eq!(parse_event_block("data:x"), Some(SseItem::Data("x".into())));
}

#[test]
fn data_is_heard_as_sent() {
    for text in ["x", " {\"a\": \"é€😀\"} ", "data: y", ": z"] {
        let mut d = SseDecoder::default();
        let items = d.push(&format!("data: {text}\n\n"));
        assert_eq!(items, vec![SseItem::Data(text.to_string())]);
    }
    assert_eq!(SseDecoder::default().push("data:  [DONE] \n\n"), vec![SseItem::Done]);
}
