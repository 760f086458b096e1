use refract_protocol::codec::gemini::{
    decode_part, is_synthetic_call_id, parse_error_body, stop_reason_from_gemini, stop_reason_to_gemini,
    GeminiStreamDecoder,
};
use refract_protocol::error::ErrorKind;
use refract_protocol::ir::{ContentPart, MediaSource, StopReason};
use refract_protocol::json::Json;
use refract_protocol::stream::{SseFrame, StreamEvent};

fn j(text: &str) -> Json {
    Json::parse(text).expect("test JSON")
}

fn drive_decoder(chunks: &[&str]) -> Vec<StreamEvent> {
    let mut dec = GeminiStreamDecoder::new();
    let mut events = Vec::new();
    for chunk in chunks {
        events.extend(dec.decode(&SseFrame::data(chunk)));
    }
    events.extend(dec.finish());
    events
}

#[test]
fn error_body_without_status_maps_by_code() {
    let by_code = parse_error_body(&j(r#"{"error": {"code": 404}}"#)).unwrap();
    assert_eq!(by_code.kind, ErrorKind::NotFound);
    assert!(parse_error_body(&j(r#"{"candidates": []}"#)).is_none());
}

#[test]
fn synthetic_ids_are_recognised() {
    assert!(is_synthetic_call_id("f", "f"));
    assert!(is_synthetic_call_id("f#12", "f"));
    assert!(!is_synthetic_call_id("f#", "f"));
    assert!(!is_synthetic_call_id("f#1a", "f"));
    assert!(!is_synthetic_call_id("call_1", "f"));
}

#[test]
fn parts_decode_by_kind_and_mime() {
    assert_eq!(decode_part(&j(r#"{"text":"hi"}"#), 0), Some(ContentPart::text("hi")));
    assert_eq!(
        decode_part(&j(r#"{"inlineData":{"mimeType":"audio/mp3","data":"AAA"}}"#), 0),
        Some(ContentPart::Audio { source: MediaSource::Base64("AAA".into()), format: Some("mp3".into()) })
    );
    assert_eq!(
        decode_part(&j(r#"{"file_data":{"mime_type":"image/png","file_uri":"gs://x"}}"#), 0),
        Some(ContentPart::Image { source: MediaSource::FileId("gs://x".into()), mime: Some("image/png".into()), detail: None })
    );
    assert_eq!(
        decode_part(&j(r#"{"functionCall":{"name":"f","args":{"a":1}}}"#), 3),
        Some(ContentPart::ToolUse { id: "f#3".into(), name: "f".into(), input: j(r#"{"a":1}"#), signature: None })
    );
    assert_eq!(
        decode_part(&j(r#"{"functionResponse":{"name":"f","response":{"error":"bad"}}}"#), 1),
        Some(ContentPart::ToolResult {
            id: "f#1".into(),
            name: Some("f".into()),
            content: vec![ContentPart::text(r#"{"error":"bad"}"#)],
            is_error: true,
        })
    );
    assert_eq!(
        decode_part(&j(r#"{"executableCode":{"code":"1"}}"#), 0),
        Some(ContentPart::Opaque { protocol: "gemini".into(), value: j(r#"{"executableCode":{"code":"1"}}"#) })
    );
    assert_eq!(decode_part(&j(r#""bare""#), 0), None);
}

#[test]
fn stream_decoder_generates_an_id_when_absent() {
    let events = drive_decoder(&[r#"{"candidates":[{"content":{"parts":[{"text":"x"}]}}]}"#]);
    match &events[0] {
        StreamEvent::Start { id, .. } => assert!(id.starts_with("gemini-") && id.len() > 7),
        other => panic!("unexpected {other:?}"),
    }
}

#[test]
fn stop_reasons_encode_to_gemini_names() {
    assert_eq!(stop_reason_to_gemini(StopReason::Stop), "STOP");
    assert_eq!(stop_reason_to_gemini(StopReason::ToolUse), "STOP");
    assert_eq!(stop_reason_to_gemini(StopReason::MaxTokens), "MAX_TOKENS");
    assert_eq!(stop_reason_to_gemini(StopReason::ContentFilter), "SAFETY");
    assert_eq!(stop_reason_from_gemini("MAX_TOKENS"), StopReason::MaxTokens);
}
