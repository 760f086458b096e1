use refract_protocol::codec::messages::MessagesCodec;
use refract_protocol::codec::CodecSet;
use refract_protocol::error::Protocol;
use refract_protocol::ir::{ContentPart, Message, Role, UnifiedRequest};

#[test]
fn builtin_set_maps_every_protocol_to_its_own_codec() {
    let set = CodecSet::builtin();
    for protocol in [Protocol::Chat, Protocol::Responses, Protocol::Messages, Protocol::Gemini] {
        assert_eq!(set.for_protocol(protocol).protocol(), protocol);
    }
}

#[test]
fn thinking_signature_survives_ir_roundtrip() {
    // 这是硬性要求：Anthropic 多轮工具调用丢了 signature 会被上游拒绝。
    let part = ContentPart::Thinking {
        text: "let me think".into(),
        signature: Some("sig_abc123".into()),
    };
    let mut ir = UnifiedRequest::new("m", vec![Message::text(Role::User, "q")]);
    ir.max_output_tokens = Some(8);
    ir.messages.push(Message::new(Role::Assistant, vec![part.clone()]));
    let wire = MessagesCodec.encode_request(&ir);
    let back = MessagesCodec.decode_request(&wire).expect("decode");
    assert_eq!(back.messages[1].content[0], part);
}

