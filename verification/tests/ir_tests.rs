use refract_protocol::ir::{
    ContentPart, MediaSource, Message, ReasoningConfig, Role, UnifiedRequest, UnifiedResponse, Usage,
};
use refract_protocol::json::Json;
use refract_protocol::error::Protocol;

fn cfg(effort: Option<&str>, budget: Option<u32>) -> ReasoningConfig {
    ReasoningConfig { effort: effort.map(|s| s.to_string()), budget_tokens: budget, include_thoughts: None }
}

fn usage(input: u64, output: u64) -> Usage {
    Usage { input_tokens: input, output_tokens: output, cached_input_tokens: 0, cache_write_tokens: 0, reasoning_tokens: 0 }
}

#[test]
fn data_uri_is_split_into_source_and_mime() {
    let (src, mime) = MediaSource::parse_data_uri("data:image/png;base64,iVBORw0KGgo=");
    assert_eq!(src, MediaSource::Base64("iVBORw0KGgo=".into()));
    assert_eq!(mime.as_deref(), Some("image/png"));
}

#[test]
fn plain_url_stays_a_url() {
    let (src, mime) = MediaSource::parse_data_uri("https://example.com/cat.png");
    assert_eq!(src, MediaSource::Url("https://example.com/cat.png".into()));
    assert_eq!(mime, None);
}

#[test]
fn non_base64_data_uri_is_not_treated_as_base64() {
    let (src, _) = MediaSource::parse_data_uri("data:text/plain,hello");
    assert!(matches!(src, MediaSource::Url(_)));
}

#[test]
fn base64_source_renders_back_to_data_uri() {
    let src = MediaSource::Base64("QUJD".into());
    assert_eq!(src.to_data_uri(Some("image/jpeg")), "data:image/jpeg;base64,QUJD");
    assert_eq!(src.to_data_uri(None), "data:application/octet-stream;base64,QUJD");
}

#[test]
fn text_source_renders_as_base64_data_uri() {
    let src = MediaSource::Text("ABC".into());
    assert_eq!(src.to_data_uri(None), "data:text/plain;base64,QUJD");
    assert_eq!(MediaSource::FileId("file-1".into()).to_data_uri(Some("x/y")), "file-1");
}

#[test]
fn data_uri_round_trip_keeps_source_and_mime() {
    let src = MediaSource::Base64("AAAA,BBBB".into());
    let uri = src.to_data_uri(Some("image/webp"));
    let (back, mime) = MediaSource::parse_data_uri(&uri);
    assert_eq!(back, src);
    assert_eq!(mime.as_deref(), Some("image/webp"));
}

#[test]
fn data_uri_without_mime_has_no_mime() {
    let (src, mime) = MediaSource::parse_data_uri("data:;base64,QQ==");
    assert_eq!(src, MediaSource::Base64("QQ==".into()));
    assert_eq!(mime, None);
}

#[test]
fn message_text_content_concatenates_text_parts_only() {
    let msg = Message::new(
        Role::User,
        vec![
            ContentPart::text("hello "),
            ContentPart::Image { source: MediaSource::Url("https://x/y.png".into()), mime: None, detail: None },
            ContentPart::text("world"),
        ],
    );
    assert_eq!(msg.text_content(), "hello world");
    assert!(!msg.is_plain_text());
}

#[test]
fn plain_text_detection_requires_nonempty_content() {
    assert!(Message::text(Role::User, "hi").is_plain_text());
    assert!(!Message::new(Role::User, vec![]).is_plain_text());
}

#[test]
fn system_text_joins_parts_with_newlines() {
    let mut req = UnifiedRequest::new("m", vec![]);
    req.system = vec![ContentPart::text("be terse"), ContentPart::text("be correct")];
    assert_eq!(req.system_text(), "be terse\nbe correct");
}

#[test]
fn effort_converts_to_budget_with_anthropic_minimum() {
    assert_eq!(cfg(Some("low"), None).budget_or_from_effort(Some(4_096)), Some(1_024));
    assert_eq!(cfg(Some("high"), None).budget_or_from_effort(Some(10_000)), Some(8_000));
}

#[test]
fn medium_effort_takes_half_and_defaults_to_32000() {
    assert_eq!(cfg(Some("medium"), None).budget_or_from_effort(None), Some(16_000));
    assert_eq!(cfg(Some("unknown"), None).budget_or_from_effort(None), None);
    assert_eq!(cfg(None, None).budget_or_from_effort(None), None);
}

#[test]
fn minimal_effort_means_no_thinking_budget() {
    assert_eq!(cfg(Some("minimal"), None).budget_or_from_effort(Some(8_000)), None);
}

#[test]
fn effort_budget_respects_max_output_ceiling() {
    let high = cfg(Some("high"), None);
    assert_eq!(high.budget_or_from_effort(Some(1_200)), Some(1_024));
    assert_eq!(high.budget_or_from_effort(Some(1_024)), None);
    assert_eq!(high.budget_or_from_effort(Some(512)), None);
}

#[test]
fn explicit_budget_wins_over_effort() {
    assert_eq!(cfg(Some("low"), Some(9_999)).budget_or_from_effort(Some(4_096)), Some(9_999));
}

#[test]
fn budget_converts_back_to_effort_tier() {
    assert_eq!(cfg(None, Some(1_000)).effort_or_from_budget(Some(10_000)), Some("low"));
    assert_eq!(cfg(None, Some(5_000)).effort_or_from_budget(Some(10_000)), Some("medium"));
    assert_eq!(cfg(None, Some(8_000)).effort_or_from_budget(Some(10_000)), Some("high"));
}

#[test]
fn effort_tier_boundaries_and_canonical_names() {
    assert_eq!(cfg(None, Some(6_500)).effort_or_from_budget(Some(10_000)), Some("high"));
    assert_eq!(cfg(None, Some(3_500)).effort_or_from_budget(Some(10_000)), Some("medium"));
    assert_eq!(cfg(None, Some(3_499)).effort_or_from_budget(Some(10_000)), Some("low"));
    assert_eq!(cfg(Some("none"), None).effort_or_from_budget(None), Some("minimal"));
    assert_eq!(cfg(Some("xhigh"), None).effort_or_from_budget(None), Some("medium"));
    assert_eq!(cfg(None, None).effort_or_from_budget(None), None);
}

#[test]
fn usage_totals_input_and_output() {
    let u = usage(10, 5);
    assert_eq!(u.total(), 15);
    assert!(!u.is_empty());
    assert!(Usage::zero().is_empty());
}

#[test]
fn billing_normalization_only_touches_anthropic_input() {
    let u = Usage { input_tokens: 10, output_tokens: 5, cached_input_tokens: 3, cache_write_tokens: 2, reasoning_tokens: 0 };
    assert_eq!(u.billing_normalized(Protocol::Messages).input_tokens, 15);
    assert_eq!(u.billing_normalized(Protocol::Chat), u);
    let big = Usage { input_tokens: u64::MAX, output_tokens: 0, cached_input_tokens: 3, cache_write_tokens: 0, reasoning_tokens: 0 };
    assert_eq!(big.billing_normalized(Protocol::Messages).input_tokens, u64::MAX);
}

#[test]
fn usage_merges_by_max_and_by_saturating_sum() {
    let mut a = Usage { input_tokens: 100, output_tokens: 1, cached_input_tokens: 0, cache_write_tokens: 0, reasoning_tokens: 7 };
    a.merge_max(&Usage { input_tokens: 50, output_tokens: 57, cached_input_tokens: 0, cache_write_tokens: 0, reasoning_tokens: 0 });
    assert_eq!((a.input_tokens, a.output_tokens, a.reasoning_tokens), (100, 57, 7));
    let mut b = usage(u64::MAX - 1, 2);
    b.merge_sum(&usage(5, 3));
    assert_eq!((b.input_tokens, b.output_tokens), (u64::MAX, 5));
}

#[test]
fn response_extracts_text_and_tool_uses() {
    let mut resp = UnifiedResponse::new("resp_1", "gpt-4o");
    resp.content = vec![
        ContentPart::text("calling tool"),
        ContentPart::ToolUse {
            signature: None,
            id: "call_1".into(),
            name: "get_weather".into(),
            input: Json::parse(r#"{"city": "Tokyo"}"#).unwrap(),
        },
    ];
    assert_eq!(resp.text(), "calling tool");
    let uses = resp.tool_uses();
    assert_eq!(uses.len(), 1);
    assert_eq!(uses[0].0, "call_1");
    assert_eq!(uses[0].1, "get_weather");
}

#[test]
fn extensions_are_namespaced_per_protocol() {
    let mut req = UnifiedRequest::new("m", vec![]);
    req.set_extension("gemini.safetySettings".into(), Json::parse(r#"[{"category": "X"}]"#).unwrap());
    req.set_extension("responses.previous_response_id".into(), Json::string("resp_9"));
    assert!(req.extension("gemini.safetySettings").is_some());
    assert!(req.extension("responses.previous_response_id").is_some());
    assert!(req.extension("chat.seed").is_none());
    req.set_extension("gemini.safetySettings".into(), Json::Null);
    assert_eq!(req.extension("gemini.safetySettings"), Some(&Json::Null));
    assert_eq!(req.extensions.len(), 2);
}

#[test]
fn tool_result_can_carry_images() {
    let part = ContentPart::ToolResult {
        name: None,
        id: "call_1".into(),
        content: vec![ContentPart::Image { source: MediaSource::Base64("AAA".into()), mime: Some("image/png".into()), detail: None }],
        is_error: false,
    };
    assert_eq!(part.duplicate(), part);
    assert_eq!(part.as_text(), None);
    assert_eq!(ContentPart::text("x").as_text(), Some("x"));
}
