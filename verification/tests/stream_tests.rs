use refract_protocol::ir::{ContentPart, StopReason, Usage};
use refract_protocol::json::Json;
use refract_protocol::stream::{PartKind, SseFrame, SseParser, StreamAggregator, StreamEvent};
use refract_protocol::error::ErrorKind;

fn usage(input: u64, output: u64) -> Usage {
    Usage { input_tokens: input, output_tokens: output, cached_input_tokens: 0, cache_write_tokens: 0, reasoning_tokens: 0 }
}

#[test]
fn sse_frame_renders_event_and_data() {
    let frame = SseFrame::named("message_start", r#"{"type":"message_start"}"#);
    assert_eq!(frame.render(), "event: message_start\ndata: {\"type\":\"message_start\"}\n\n");
}

#[test]
fn sse_frame_prefixes_every_line_of_multiline_data() {
    let frame = SseFrame::data("line1\nline2");
    assert_eq!(frame.render(), "data: line1\ndata: line2\n\n");
}

#[test]
fn rendered_frame_parses_back() {
    let frame = SseFrame::named("delta", "a\nb");
    let mut p = SseParser::new();
    let frames = p.feed(&frame.render());
    assert_eq!(frames, vec![frame]);
}

#[test]
fn parser_handles_frame_split_across_chunks() {
    let mut p = SseParser::new();
    assert!(p.feed("data: {\"a\":").is_empty());
    assert!(p.feed("1}").is_empty());
    let frames = p.feed("\n\n");
    assert_eq!(frames.len(), 1);
    assert_eq!(frames[0].data, r#"{"a":1}"#);
}

#[test]
fn parser_accepts_utf8_codepoint_split_across_byte_chunks() {
    let mut parser = SseParser::new();
    let bytes = "data: 你好\n\n".as_bytes();
    let split = bytes.windows(2).position(|w| w[0] & 0b1100_0000 == 0b1100_0000).expect("multibyte character") + 1;
    assert!(parser.feed_bytes(&bytes[..split]).unwrap().is_empty());
    let frames = parser.feed_bytes(&bytes[split..]).unwrap();
    assert_eq!(frames.len(), 1);
    assert_eq!(frames[0].data, "你好");
}

#[test]
fn parser_rejects_invalid_utf8_when_a_line_completes() {
    let mut parser = SseParser::new();
    let error = parser.feed_bytes(b"data: \xff\n\n").expect_err("invalid UTF-8 must not be lossily forwarded");
    assert_eq!(error.kind, ErrorKind::UpstreamError);
    assert!(error.message.contains("invalid UTF-8"));
}

#[test]
fn parser_reads_event_names() {
    let mut p = SseParser::new();
    let frames = p.feed("event: content_block_delta\ndata: {\"x\":1}\n\n");
    assert_eq!(frames.len(), 1);
    assert_eq!(frames[0].event.as_deref(), Some("content_block_delta"));
}

#[test]
fn parser_handles_crlf_and_comments() {
    let mut p = SseParser::new();
    let frames = p.feed(": keep-alive\r\ndata: {\"ok\":true}\r\n\r\n");
    assert_eq!(frames.len(), 1);
    assert_eq!(frames[0].data, r#"{"ok":true}"#);
}

#[test]
fn parser_joins_multiple_data_lines() {
    let mut p = SseParser::new();
    let frames = p.feed("data: part1\ndata: part2\n\n");
    assert_eq!(frames[0].data, "part1\npart2");
}

#[test]
fn parser_emits_multiple_frames_from_one_chunk() {
    let mut p = SseParser::new();
    let frames = p.feed("data: a\n\ndata: b\n\ndata: c\n\n");
    assert_eq!(frames.len(), 3);
    assert_eq!(frames[2].data, "c");
}

#[test]
fn parser_ignores_unknown_fields_and_keeps_colons_in_values() {
    let mut p = SseParser::new();
    let frames = p.feed("id: 7\nretry: 10\ndata:a:b\n\n");
    assert_eq!(frames, vec![SseFrame::data("a:b")]);
}

#[test]
fn parser_finish_flushes_trailing_frame_without_blank_line() {
    let mut p = SseParser::new();
    assert!(p.feed("data: {\"last\":true}").is_empty());
    let frame = p.finish().expect("trailing frame");
    assert_eq!(frame.data, r#"{"last":true}"#);
    assert_eq!(p.finish(), None);
}

#[test]
fn parser_finish_bytes_rejects_invalid_tail() {
    let mut p = SseParser::new();
    assert!(p.feed_bytes(b"data: \xe4").unwrap().is_empty());
    let err = p.finish_bytes().expect_err("truncated character");
    assert_eq!(err.kind, ErrorKind::UpstreamError);
}

#[test]
fn aggregator_rebuilds_text_from_deltas() {
    let mut agg = StreamAggregator::new();
    agg.absorb(&StreamEvent::Start { id: "resp_1".into(), model: "gpt-4o".into(), usage: None });
    agg.absorb(&StreamEvent::ContentStart { index: 0, kind: PartKind::Text });
    agg.absorb(&StreamEvent::TextDelta { index: 0, text: "Hello".into() });
    agg.absorb(&StreamEvent::TextDelta { index: 0, text: ", world".into() });
    agg.absorb(&StreamEvent::ContentStop { index: 0 });
    agg.absorb(&StreamEvent::Stop { reason: StopReason::Stop, stop_sequence: None });
    assert_eq!(agg.id, "resp_1");
    assert_eq!(agg.stop_reason, Some(StopReason::Stop));
    assert_eq!(agg.into_content(), vec![ContentPart::text("Hello, world")]);
}

#[test]
fn aggregator_rebuilds_tool_call_from_fragments() {
    let mut agg = StreamAggregator::new();
    agg.absorb(&StreamEvent::ToolCallStart { index: 0, id: "call_1".into(), name: "get_weather".into(), signature: None });
    for frag in [r#"{"ci"#, r#"ty":"To"#, r#"kyo"}"#] {
        agg.absorb(&StreamEvent::ToolCallArgsDelta { index: 0, fragment: frag.into() });
    }
    let content = agg.into_content();
    assert_eq!(
        content,
        vec![ContentPart::ToolUse {
            id: "call_1".into(),
            name: "get_weather".into(),
            input: Json::parse(r#"{"city": "Tokyo"}"#).unwrap(),
            signature: None,
        }]
    );
}

#[test]
fn aggregator_keeps_truncated_tool_args_as_string() {
    let mut agg = StreamAggregator::new();
    agg.absorb(&StreamEvent::ToolCallStart { index: 0, id: "c".into(), name: "f".into(), signature: None });
    agg.absorb(&StreamEvent::ToolCallArgsDelta { index: 0, fragment: r#"{"partial":"#.into() });
    let content = agg.into_content();
    match &content[0] {
        ContentPart::ToolUse { input, .. } => assert!(input.as_str().is_some(), "expected raw string fallback, got {input:?}"),
        other => panic!("unexpected {other:?}"),
    }
}

#[test]
fn aggregator_blank_tool_args_become_empty_object() {
    let mut agg = StreamAggregator::new();
    agg.absorb(&StreamEvent::ToolCallStart { index: 0, id: "c".into(), name: "f".into(), signature: None });
    match &agg.into_content()[0] {
        ContentPart::ToolUse { input, .. } => assert_eq!(input, &Json::empty_object()),
        other => panic!("unexpected {other:?}"),
    }
}

#[test]
fn aggregator_takes_max_not_sum_of_usage() {
    let mut agg = StreamAggregator::new();
    agg.absorb(&StreamEvent::Start { id: "m".into(), model: "sonnet".into(), usage: Some(usage(100, 1)) });
    agg.absorb(&StreamEvent::Usage(usage(100, 57)));
    assert_eq!(agg.usage.input_tokens, 100);
    assert_eq!(agg.usage.output_tokens, 57);
}

#[test]
fn aggregator_tolerates_missing_content_start() {
    let mut agg = StreamAggregator::new();
    agg.absorb(&StreamEvent::TextDelta { index: 0, text: "bare".into() });
    assert_eq!(agg.into_content(), vec![ContentPart::text("bare")]);
}

#[test]
fn aggregator_preserves_thinking_signature() {
    let mut agg = StreamAggregator::new();
    agg.absorb(&StreamEvent::ContentStart { index: 0, kind: PartKind::Thinking });
    agg.absorb(&StreamEvent::ThinkingDelta { index: 0, text: "hmm".into() });
    agg.absorb(&StreamEvent::ThinkingSignature { index: 0, signature: "sig_xyz".into() });
    assert_eq!(agg.into_content(), vec![ContentPart::Thinking { text: "hmm".into(), signature: Some("sig_xyz".into()) }]);
}

#[test]
fn aggregator_handles_sparse_block_indices() {
    let mut agg = StreamAggregator::new();
    agg.absorb(&StreamEvent::TextDelta { index: 2, text: "third".into() });
    assert_eq!(agg.into_content(), vec![ContentPart::text("third")]);
}

#[test]
fn aggregator_orders_by_index_and_keeps_reasoning_before_text() {
    let mut agg = StreamAggregator::new();
    agg.absorb(&StreamEvent::TextDelta { index: 1, text: "later".into() });
    agg.absorb(&StreamEvent::ThinkingDelta { index: 0, text: "think".into() });
    agg.absorb(&StreamEvent::TextDelta { index: 0, text: "answer".into() });
    agg.absorb(&StreamEvent::RefusalDelta { index: 3, text: "no".into() });
    assert_eq!(
        agg.into_content(),
        vec![
            ContentPart::Thinking { text: "think".into(), signature: None },
            ContentPart::text("answer"),
            ContentPart::text("later"),
            ContentPart::Refusal { text: "no".into() },
        ]
    );
}

#[test]
fn terminal_events_are_flagged() {
    assert!(StreamEvent::Done.is_terminal());
    assert!(StreamEvent::Error { message: "x".into(), kind: "overloaded_error".into() }.is_terminal());
    assert!(!StreamEvent::Ping.is_terminal());
}

#[test]
fn event_index_is_reported_for_block_events_only() {
    assert_eq!(StreamEvent::ContentStop { index: 4 }.index(), Some(4));
    assert_eq!(StreamEvent::TextDelta { index: 2, text: "a".into() }.index(), Some(2));
    assert_eq!(StreamEvent::Done.index(), None);
}
