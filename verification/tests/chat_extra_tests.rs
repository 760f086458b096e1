use refract_protocol::codec::chat::ChatStreamDecoder;
use refract_protocol::ir::Usage;
use refract_protocol::ir::StopReason;
use refract_protocol::stream::{SseFrame, StreamEvent};

fn decode_all(chunks: &[&str]) -> Vec<StreamEvent> {
    let mut d = ChatStreamDecoder::new();
    let mut out = Vec::new();
    for c in chunks {
        out.extend(d.decode(&SseFrame::data(c)));
    }
    out.extend(d.finish());
    out
}

#[test]
fn stream_declares_argumentless_and_name_late_tool_calls() {
    let events = decode_all(&[
        r#"{"choices":[{"index":0,"delta":{"tool_calls":[{"index":0,"id":"x","function":{"arguments":"{}"}}]}}]}"#,
        r#"{"choices":[{"index":0,"delta":{"tool_calls":[{"index":0,"function":{"name":"late"}}]}}]}"#,
        r#"{"choices":[{"index":0,"delta":{"tool_calls":[{"index":1,"id":"y","function":{"name":"noargs"}}]}}]}"#,
    ]);
    assert_eq!(
        events,
        vec![
            StreamEvent::Start { id: "".into(), model: "".into(), usage: None },
            StreamEvent::ToolCallStart { index: 1, id: "x".into(), name: "late".into(), signature: None },
            StreamEvent::ToolCallArgsDelta { index: 1, fragment: "{}".into() },
            StreamEvent::ToolCallStart { index: 2, id: "y".into(), name: "noargs".into(), signature: None },
            StreamEvent::Done,
        ]
    );
}

#[test]
fn stream_finish_adds_done_only_once() {
    let events = decode_all(&[r#"{"choices":[{"index":0,"delta":{"content":"a"}}]}"#]);
    assert_eq!(events.last(), Some(&StreamEvent::Done));
    let twice = decode_all(&[r#"{"choices":[]}"#, "[DONE]"]);
    assert_eq!(twice.iter().filter(|e| **e == StreamEvent::Done).count(), 1);
}

#[test]
fn stream_skips_blank_and_non_json_frames() {
    let mut d = ChatStreamDecoder::new();
    assert!(d.decode(&SseFrame::data("  ")).is_empty());
    assert!(d.decode(&SseFrame::data("keep-alive")).is_empty());
}

