use refract_protocol::codec::gemini::GeminiCodec;
use refract_protocol::codec::messages::MessagesCodec;
use refract_protocol::codec::responses::{ResponsesCodec, ResponsesStreamEncoder};
use refract_protocol::codec::{CodecSet, StreamDecoderOf, StreamEncoderOf};
use refract_protocol::error::{ErrorKind, Protocol};
use refract_protocol::ir::{Message, ReasoningConfig, Role, StopReason, UnifiedRequest, Usage};
use refract_protocol::json::{Json, JsonNumber};
use refract_protocol::stream::{PartKind, SseFrame, SseParser, StreamAggregator, StreamEvent};
use refract_protocol::ir::{ContentPart, MediaSource};
use refract_protocol::codec::Codec;
use refract_protocol::{ProtocolCodec, RequestCodec, StreamCodec, StreamDecoder};

fn js(s: &str) -> Json {
    Json::parse(s).unwrap()
}

#[test]
fn gemini_restores_its_own_unknown_fields_but_never_the_model() {
    let raw = js(r#"{"contents":[{"role":"user","parts":[{"text":"hi"}]}],"labels":{"team":"search"}}"#);
    let mut ir = GeminiCodec.decode_request(&raw).unwrap();
    assert_eq!(ir.extension("gemini.labels"), Some(&js(r#"{"team":"search"}"#)));
    ir.set_extension("gemini.model".to_string(), js(r#""sneaky""#));
    let out = GeminiCodec.encode_request(&ir);
    assert_eq!(out.get("labels"), Some(&js(r#"{"team":"search"}"#)));
    assert!(out.get("model").is_none());
}

#[test]
fn usage_is_empty_only_when_every_count_is_zero() {
    assert!(Usage::default().is_empty());
    let cached = Usage { cached_input_tokens: 5, ..Usage::default() };
    assert!(!cached.is_empty());
    let counted = Usage { input_tokens: 10, output_tokens: 5, ..Usage::default() };
    assert!(!counted.is_empty());
}

#[test]
fn high_effort_budget_fits_the_largest_ceiling() {
    let cfg = ReasoningConfig { effort: Some("high".into()), budget_tokens: None, include_thoughts: None };
    assert_eq!(cfg.budget_or_from_effort(Some(u32::MAX)), Some(3_435_973_836));
    let mut ir = UnifiedRequest::new("m", vec![Message::text(Role::User, "hi")]);
    ir.max_output_tokens = Some(u32::MAX);
    ir.reasoning = Some(cfg);
    let out = MessagesCodec.encode_request(&ir);
    assert_eq!(out.get("thinking").and_then(|t| t.get("budget_tokens")), Some(&Json::uint(3_435_973_836)));
}

#[test]
fn temperature_within_epsilon_of_one_survives_thinking() {
    let mut ir = UnifiedRequest::new("m", vec![Message::text(Role::User, "hi")]);
    ir.max_output_tokens = Some(4096);
    ir.reasoning = Some(ReasoningConfig { effort: None, budget_tokens: Some(2048), include_thoughts: None });
    ir.sampling.temperature = Some(JsonNumber::Float("0.9999999999999998".to_string()));
    let out = MessagesCodec.encode_request(&ir);
    assert_eq!(out.get("temperature"), Some(&js("0.9999999999999998")));
    ir.sampling.temperature = Some(JsonNumber::Float("0.7".to_string()));
    let out = MessagesCodec.encode_request(&ir);
    assert!(out.get("temperature").is_none());
}

#[test]
fn sse_frames_do_not_depend_on_chunk_boundaries() {
    let text = "event: a\ndata: x\n\ndata: y\ndata: z\n\n";
    let mut whole = SseParser::new();
    let all = whole.feed(text);
    for cut in 0..=text.len() {
        if !text.is_char_boundary(cut) {
            continue;
        }
        let mut p = SseParser::new();
        let mut got = p.feed(&text[..cut]);
        got.extend(p.feed(&text[cut..]));
        assert_eq!(got, all, "split at {cut}");
        assert_eq!(p.finish(), None);
    }
    assert_eq!(all, vec![SseFrame::named("a", "x"), SseFrame::data("y\nz")]);
}

#[test]
fn responses_error_keeps_the_upstream_body() {
    let raw = js(r#"{"error":{"message":"slow down","type":"rate_limit_exceeded"}}"#);
    let err = ResponsesCodec.decode_response(&raw).unwrap_err();
    assert_eq!(err.kind, ErrorKind::RateLimited);
    assert_eq!(err.upstream_status, None);
    assert_eq!(err.upstream_body.as_deref(), Some(r#"{"message":"slow down","type":"rate_limit_exceeded"}"#));
}

#[test]
fn responses_sequence_numbers_run_from_zero_without_gaps() {
    let mut enc = ResponsesStreamEncoder::new();
    let mut frames = Vec::new();
    for ev in [
        StreamEvent::TextDelta { index: 0, text: "a".into() },
        StreamEvent::ToolCallStart { index: 1, id: "c".into(), name: "f".into(), signature: None },
        StreamEvent::ToolCallArgsDelta { index: 1, fragment: "{}".into() },
        StreamEvent::Stop { reason: StopReason::ToolUse, stop_sequence: None },
    ] {
        frames.extend(enc.encode(&ev));
    }
    frames.extend(enc.finish());
    for (k, f) in frames.iter().enumerate() {
        let p: serde_json::Value = serde_json::from_str(&f.data).unwrap();
        assert_eq!(p["sequence_number"], serde_json::Value::from(k as u64));
        assert_eq!(p["type"].as_str(), f.event.as_deref());
    }
}

#[test]
fn codec_hands_out_stream_components_of_its_protocol() {
    let set = CodecSet::builtin();
    let codec = set.for_protocol(Protocol::Messages);
    let mut dec = codec.stream_decoder();
    assert!(matches!(dec, StreamDecoderOf::Messages(_)));
    let events = dec.decode(&SseFrame::named(
        "content_block_delta",
        r#"{"type":"content_block_delta","index":0,"delta":{"type":"text_delta","text":"hi"}}"#,
    ));
    assert_eq!(events[0], StreamEvent::ContentStart { index: 0, kind: PartKind::Text });
    assert_eq!(dec.finish(), vec![StreamEvent::Done]);
    let mut enc = set.for_protocol(Protocol::Gemini).stream_encoder();
    assert!(matches!(enc, StreamEncoderOf::Gemini(_)));
    assert_eq!(enc.encode(&StreamEvent::Ping), vec![]);
    let last = enc.finish();
    assert_eq!(last.len(), 1);
}

#[test]
fn responses_deltas_follow_added_and_items_close_before_completed() {
    let mut enc = ResponsesStreamEncoder::new();
    let mut frames = Vec::new();
    for ev in [
        StreamEvent::TextDelta { index: 2, text: "a".into() },
        StreamEvent::ToolCallArgsDelta { index: 0, fragment: "{".into() },
        StreamEvent::ThinkingDelta { index: 1, text: "t".into() },
        StreamEvent::Done,
    ] {
        frames.extend(enc.encode(&ev));
    }
    let payloads: Vec<serde_json::Value> = frames.iter().map(|f| serde_json::from_str(&f.data).unwrap()).collect();
    let kind = |p: &serde_json::Value| p["type"].as_str().unwrap().to_string();
    let mut added: Vec<String> = Vec::new();
    let mut done: Vec<String> = Vec::new();
    for p in &payloads {
        let t = kind(p);
        if t == "response.output_item.added" {
            added.push(p["item"]["id"].as_str().unwrap().to_string());
        } else if t == "response.output_item.done" {
            done.push(p["item"]["id"].as_str().unwrap().to_string());
        } else if t.ends_with(".delta") {
            let id = p["item_id"].as_str().unwrap().to_string();
            assert!(added.contains(&id), "delta for {id} before its output_item.added");
        } else if t == "response.completed" {
            let mut a = added.clone();
            let mut d = done.clone();
            a.sort();
            d.sort();
            assert_eq!(a, d);
        }
    }
    assert_eq!(kind(payloads.last().unwrap()), "response.completed");
    assert_eq!(added.len(), 3);
}

#[test]
fn multiline_frame_renders_one_data_line_per_line() {
    assert_eq!(SseFrame::data("line1\nline2").render(), "data: line1\ndata: line2\n\n");
    assert_eq!(SseFrame::named("e", "").render(), "event: e\ndata: \n\n");
}

#[test]
fn aggregated_content_is_ordered_by_index_then_first_appearance() {
    let mut agg = StreamAggregator::new();
    for ev in [
        StreamEvent::TextDelta { index: 1, text: "b".into() },
        StreamEvent::ThinkingDelta { index: 1, text: "t".into() },
        StreamEvent::ContentStart { index: 3, kind: PartKind::Text },
        StreamEvent::ToolCallStart { index: 2, id: "c".into(), name: "f".into(), signature: None },
        StreamEvent::TextDelta { index: 0, text: "a".into() },
        StreamEvent::TextDelta { index: 1, text: "c".into() },
    ] {
        agg.absorb(&ev);
    }
    let content = agg.into_content();
    assert_eq!(
        content,
        vec![
            ContentPart::Text { text: "a".into() },
            ContentPart::Text { text: "bc".into() },
            ContentPart::Thinking { text: "t".into(), signature: None },
            ContentPart::ToolUse { id: "c".into(), name: "f".into(), input: js("{}"), signature: None },
        ]
    );
}

#[test]
fn data_uri_meta_and_payload_split_at_first_comma() {
    let (src, mime) = MediaSource::parse_data_uri("data:audio/wav;base64,UklG,extra");
    assert_eq!(src, MediaSource::Base64("UklG,extra".into()));
    assert_eq!(mime.as_deref(), Some("audio/wav"));
    let (src, mime) = MediaSource::parse_data_uri("data:;base64,QUJD");
    assert_eq!(src, MediaSource::Base64("QUJD".into()));
    assert_eq!(mime, None);
}

#[test]
fn aggregator_accessors_report_absorbed_fields() {
    let mut agg = StreamAggregator::new();
    agg.absorb(&StreamEvent::Start {
        id: "m".into(),
        model: "sonnet".into(),
        usage: Some(Usage { input_tokens: 100, output_tokens: 1, ..Usage::default() }),
    });
    agg.absorb(&StreamEvent::Usage(Usage { input_tokens: 100, output_tokens: 57, ..Usage::default() }));
    agg.absorb(&StreamEvent::Stop { reason: StopReason::Stop, stop_sequence: Some("END".into()) });
    assert_eq!(agg.id(), "m");
    assert_eq!(agg.model(), "sonnet");
    assert_eq!(agg.usage().input_tokens, 100);
    assert_eq!(agg.usage().output_tokens, 57);
    assert_eq!(agg.stop_reason(), Some(StopReason::Stop));
    assert_eq!(agg.stop_sequence(), Some("END"));
    assert_eq!(agg.usage, agg.usage());
}

#[test]
fn chat_and_gemini_decoders_take_parsed_chunks() {
    let mut chat = refract_protocol::codec::chat::ChatStreamDecoder::new();
    let ev = chat.chunk(&js(r#"{"id":"c1","model":"m","choices":[{"delta":{"content":"hi"}}]}"#));
    assert_eq!(ev[0], StreamEvent::Start { id: "c1".into(), model: "m".into(), usage: None });
    assert!(ev.contains(&StreamEvent::TextDelta { index: 0, text: "hi".into() }));
    let err = chat.chunk(&js(r#"{"error":{"message":"boom","type":"server_error"}}"#));
    assert_eq!(err, vec![StreamEvent::Error { message: "boom".into(), kind: "server_error".into() }]);

    let mut gem = refract_protocol::codec::gemini::GeminiStreamDecoder::new();
    let ev = gem.chunk(&js(r#"{"candidates":[{"content":{"parts":[{"text":"yo"}]}}]}"#), "abc");
    assert_eq!(ev[0], StreamEvent::Start { id: "gemini-abc".into(), model: String::new(), usage: None });
    assert!(gem.chunk(&js("[1,2]"), "abc").is_empty());
}

#[test]
fn generated_response_ids_are_prefixed_hex_uuids() {
    let mut enc = ResponsesStreamEncoder::new();
    let frames = enc.encode(&StreamEvent::TextDelta { index: 0, text: "a".into() });
    let p: serde_json::Value = serde_json::from_str(&frames[0].data).unwrap();
    let id = p["response"]["id"].as_str().unwrap();
    let hex = id.strip_prefix("resp_").unwrap();
    assert_eq!(hex.len(), 32);
    assert!(hex.chars().all(|c| c.is_ascii_hexdigit() && !c.is_ascii_uppercase()));
    assert_eq!(&hex[12..13], "4");
}

#[test]
fn sse_parser_fed_text_always_finishes_clean() {
    let mut p = SseParser::new();
    let mut frames = p.feed("data: a\n\ndata: é");
    assert_eq!(frames.len(), 1);
    frames.extend(p.finish());
    assert_eq!(frames.len(), 2);
    assert_eq!(frames[1].data, "é");
    assert_eq!(p.finish(), None);
}

#[test]
fn extensions_walk_names_in_sorted_order() {
    let mut ext = refract_protocol::ir::Extensions::new();
    ext.insert("gemini.labels".to_string(), js("1"));
    ext.insert("chat.audio".to_string(), js("2"));
    ext.insert("messages.metadata".to_string(), js("3"));
    ext.insert("chat.audio".to_string(), js("4"));
    assert_eq!(ext.len(), 3);
    let names: Vec<&str> = (0..ext.len()).map(|i| ext.entry(i).0).collect();
    assert_eq!(names, vec!["chat.audio", "gemini.labels", "messages.metadata"]);
    assert_eq!(ext.get("chat.audio"), Some(&js("4")));
}

fn protocols<C: ProtocolCodec>(set: &CodecSet<C>) -> Vec<Protocol> {
    [Protocol::Chat, Protocol::Responses, Protocol::Messages, Protocol::Gemini]
        .iter()
        .map(|p| ProtocolCodec::protocol(set.for_protocol(*p)))
        .collect()
}

#[test]
fn codec_set_holds_any_protocol_codec() {
    let set = CodecSet::builtin();
    assert_eq!(protocols(&set), vec![Protocol::Chat, Protocol::Responses, Protocol::Messages, Protocol::Gemini]);
    let codec: &Codec = set.for_protocol(Protocol::Chat);
    let ir = RequestCodec::decode_request(codec, &js(r#"{"model":"m","messages":[{"role":"user","content":"hi"}]}"#)).unwrap();
    assert_eq!(ir.model, "m");
    let mut dec = StreamCodec::stream_decoder(codec);
    assert_eq!(StreamDecoder::finish(&mut dec).unwrap(), vec![StreamEvent::Done]);
}
