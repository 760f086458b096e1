//! Protocol codecs: each translates one wire protocol to and from the IR,
//! including its streaming form. [`CodecSet`] picks the codec of a protocol.
//!
//! Adding a protocol means implementing [`ProtocolCodec`] (with its request, response and
//! stream parts) for one more type; no existing codec changes.

pub mod chat;
pub mod gemini;
pub mod messages;
pub mod responses;

use vstd::prelude::*;
use crate::error::{GatewayError, GatewayErrorV, Protocol};
use crate::ir::{RequestV, ResponseV, UnifiedRequest, UnifiedResponse, uuid_hex};
use crate::json::{Json, JsonV};
use crate::codec::chat::{ChatCodec, spec_chat_decode_request, spec_chat_encode_request, spec_chat_decode_response,
    spec_chat_encode_response};
use crate::codec::gemini::{GeminiCodec, spec_gemini_decode_request, spec_gemini_encode_request, spec_gemini_decode_response,
    spec_gemini_encode_response};
use crate::codec::messages::{MessagesCodec, spec_messages_decode_request, spec_messages_encode_request,
    spec_messages_decode_response, spec_messages_encode_response};
use crate::codec::responses::{ResponsesCodec, spec_responses_decode_request, spec_responses_encode_request,
    spec_responses_decode_response, spec_responses_encode_response};
use crate::codec::chat::{ChatStreamDecoder, ChatStreamEncoder, ChatDecoderV, ChatEncoderV, spec_chat_decode, spec_chat_finish,
    spec_chat_encode, enc_wrap_up};
use crate::codec::responses::{ResponsesStreamDecoder, ResponsesStreamEncoder, RespDecoderV, spec_responses_decode,
    spec_responses_finish, spec_responses_encode, spec_responses_encode_finish, initial_resp_encoder};
use crate::codec::messages::{MessagesStreamDecoder, MessagesStreamEncoder, MsgDecoderV, spec_messages_decode,
    spec_messages_finish, spec_messages_encode, spec_messages_encode_finish, initial_encoder};
use crate::codec::gemini::{GeminiStreamDecoder, GeminiStreamEncoder, GeminiDecoderV, GeminiEncoderV, spec_gemini_decode,
    spec_gemini_finish, spec_gemini_encode, spec_gemini_encode_finish};
use crate::stream::{SseFrame, StreamEvent, StreamDecoder, StreamEncoder, evs, frs};

verus! {

/// The request a body of protocol `p` decodes to, or the text of its error.
pub open spec fn spec_decode_request(p: Protocol, raw: JsonV) -> Result<RequestV, Seq<char>> {
    match p {
        Protocol::Chat => spec_chat_decode_request(raw),
        Protocol::Responses => spec_responses_decode_request(raw),
        Protocol::Messages => spec_messages_decode_request(raw),
        Protocol::Gemini => spec_gemini_decode_request(raw),
    }
}

/// The body of protocol `p` for an IR request.
pub open spec fn spec_encode_request(p: Protocol, r: RequestV) -> JsonV {
    match p {
        Protocol::Chat => spec_chat_encode_request(r),
        Protocol::Responses => spec_responses_encode_request(r),
        Protocol::Messages => spec_messages_encode_request(r),
        Protocol::Gemini => spec_gemini_encode_request(r),
    }
}


/// The response a body of protocol `p` decodes to at time `now` (Gemini makes an id up from
/// `fresh` when the body has none), or the error it stands for.
pub open spec fn spec_decode_response(p: Protocol, raw: JsonV, fresh: Seq<char>, now: i64) -> Result<ResponseV, GatewayErrorV> {
    match p {
        Protocol::Chat => spec_chat_decode_response(raw, now),
        Protocol::Responses => spec_responses_decode_response(raw, now),
        Protocol::Messages => spec_messages_decode_response(raw, now),
        Protocol::Gemini => spec_gemini_decode_response(raw, fresh, now),
    }
}

/// The body of protocol `p` for an IR response.
pub open spec fn spec_encode_response(p: Protocol, r: ResponseV) -> JsonV {
    match p {
        Protocol::Chat => spec_chat_encode_response(r),
        Protocol::Responses => spec_responses_encode_response(r),
        Protocol::Messages => spec_messages_encode_response(r),
        Protocol::Gemini => spec_gemini_encode_response(r),
    }
}

/// The codec of one protocol.
pub enum Codec {
    Chat(ChatCodec),
    Responses(ResponsesCodec),
    Messages(MessagesCodec),
    Gemini(GeminiCodec),
}

impl Codec {
    /// The protocol a codec speaks.
    pub open spec fn speaks(self) -> Protocol {
        match self {
            Codec::Chat(_) => Protocol::Chat,
            Codec::Responses(_) => Protocol::Responses,
            Codec::Messages(_) => Protocol::Messages,
            Codec::Gemini(_) => Protocol::Gemini,
        }
    }

    /// The protocol this codec speaks.
    pub fn protocol(&self) -> (res: Protocol)
        ensures
            res == self.speaks(),
    {
        match self {
            Codec::Chat(c) => c.protocol(),
            Codec::Responses(c) => c.protocol(),
            Codec::Messages(c) => c.protocol(),
            Codec::Gemini(c) => c.protocol(),
        }
    }

    /// Decodes a request body of this codec's protocol.
    pub fn decode_request(&self, raw: &Json) -> (res: Result<UnifiedRequest, GatewayError>)
        ensures
            match res {
                Ok(r) => spec_decode_request(self.speaks(), raw@) == Ok::<RequestV, Seq<char>>(r@),
                Err(e) => spec_decode_request(self.speaks(), raw@) == Err::<RequestV, Seq<char>>(e.message@),
            },
    {
        match self {
            Codec::Chat(c) => c.decode_request(raw),
            Codec::Responses(c) => c.decode_request(raw),
            Codec::Messages(c) => c.decode_request(raw),
            Codec::Gemini(c) => c.decode_request(raw),
        }
    }

    /// Encodes an IR request as a body of this codec's protocol.
    pub fn encode_request(&self, ir: &UnifiedRequest) -> (res: Json)
        ensures
            res@ == spec_encode_request(self.speaks(), ir@),
    {
        match self {
            Codec::Chat(c) => c.encode_request(ir),
            Codec::Responses(c) => c.encode_request(ir),
            Codec::Messages(c) => c.encode_request(ir),
            Codec::Gemini(c) => c.encode_request(ir),
        }
    }

    /// Decodes a response body of this codec's protocol.
    pub fn decode_response(&self, raw: &Json) -> (res: Result<UnifiedResponse, GatewayError>)
        ensures
            exists|fresh: Seq<char>, now: i64| match res {
                Ok(r) => #[trigger] spec_decode_response(self.speaks(), raw@, fresh, now) == Ok::<ResponseV, GatewayErrorV>(r@),
                Err(e) => spec_decode_response(self.speaks(), raw@, fresh, now) == Err::<ResponseV, GatewayErrorV>(e@),
            },
    {
        match self {
            Codec::Chat(c) => {
                let r = c.decode_response(raw);
                assert(exists|fresh: Seq<char>, now: i64| match r {
                    Ok(x) => #[trigger] spec_decode_response(self.speaks(), raw@, fresh, now) == Ok::<ResponseV, GatewayErrorV>(x@),
                    Err(e) => spec_decode_response(self.speaks(), raw@, fresh, now) == Err::<ResponseV, GatewayErrorV>(e@),
                }) by {
                    let now = choose|now: i64| match r {
                        Ok(x) => #[trigger] spec_chat_decode_response(raw@, now) == Ok::<ResponseV, GatewayErrorV>(x@),
                        Err(e) => spec_chat_decode_response(raw@, now) == Err::<ResponseV, GatewayErrorV>(e@),
                    };
                    assert(spec_decode_response(self.speaks(), raw@, Seq::empty(), now) == spec_chat_decode_response(raw@, now));
                }
                r
            },
            Codec::Responses(c) => {
                let r = c.decode_response(raw);
                assert(exists|fresh: Seq<char>, now: i64| match r {
                    Ok(x) => #[trigger] spec_decode_response(self.speaks(), raw@, fresh, now) == Ok::<ResponseV, GatewayErrorV>(x@),
                    Err(e) => spec_decode_response(self.speaks(), raw@, fresh, now) == Err::<ResponseV, GatewayErrorV>(e@),
                }) by {
                    let now = choose|now: i64| match r {
                        Ok(x) => #[trigger] spec_responses_decode_response(raw@, now) == Ok::<ResponseV, GatewayErrorV>(x@),
                        Err(e) => spec_responses_decode_response(raw@, now) == Err::<ResponseV, GatewayErrorV>(e@),
                    };
                    assert(spec_decode_response(self.speaks(), raw@, Seq::empty(), now) == spec_responses_decode_response(raw@, now));
                }
                r
            },
            Codec::Messages(c) => {
                let r = c.decode_response(raw);
                assert(exists|fresh: Seq<char>, now: i64| match r {
                    Ok(x) => #[trigger] spec_decode_response(self.speaks(), raw@, fresh, now) == Ok::<ResponseV, GatewayErrorV>(x@),
                    Err(e) => spec_decode_response(self.speaks(), raw@, fresh, now) == Err::<ResponseV, GatewayErrorV>(e@),
                }) by {
                    let now = choose|now: i64| match r {
                        Ok(x) => #[trigger] spec_messages_decode_response(raw@, now) == Ok::<ResponseV, GatewayErrorV>(x@),
                        Err(e) => spec_messages_decode_response(raw@, now) == Err::<ResponseV, GatewayErrorV>(e@),
                    };
                    assert(spec_decode_response(self.speaks(), raw@, Seq::empty(), now) == spec_messages_decode_response(raw@, now));
                }
                r
            },
            Codec::Gemini(c) => {
                let r = c.decode_response(raw);
                assert(exists|fresh: Seq<char>, now: i64| match r {
                    Ok(x) => #[trigger] spec_decode_response(self.speaks(), raw@, fresh, now) == Ok::<ResponseV, GatewayErrorV>(x@),
                    Err(e) => spec_decode_response(self.speaks(), raw@, fresh, now) == Err::<ResponseV, GatewayErrorV>(e@),
                }) by {
                    let (fresh, now) = choose|fresh: Seq<char>, now: i64| match r {
                        Ok(x) => #[trigger] spec_gemini_decode_response(raw@, fresh, now) == Ok::<ResponseV, GatewayErrorV>(x@),
                        Err(e) => spec_gemini_decode_response(raw@, fresh, now) == Err::<ResponseV, GatewayErrorV>(e@),
                    };
                    assert(spec_decode_response(self.speaks(), raw@, fresh, now) == spec_gemini_decode_response(raw@, fresh, now));
                }
                r
            },
        }
    }

    /// Encodes an IR response as a body of this codec's protocol.
    pub fn encode_response(&self, ir: &UnifiedResponse) -> (res: Json)
        ensures
            res@ == spec_encode_response(self.speaks(), ir@),
    {
        match self {
            Codec::Chat(c) => c.encode_response(ir),
            Codec::Responses(c) => c.encode_response(ir),
            Codec::Messages(c) => c.encode_response(ir),
            Codec::Gemini(c) => c.encode_response(ir),
        }
    }
}

/// The stream decoder of one protocol.
pub enum StreamDecoderOf {
    Chat(ChatStreamDecoder),
    Responses(ResponsesStreamDecoder),
    Messages(MessagesStreamDecoder),
    Gemini(GeminiStreamDecoder),
}

impl StreamDecoderOf {
    /// The protocol whose stream this decoder reads.
    pub open spec fn speaks(self) -> Protocol {
        match self {
            StreamDecoderOf::Chat(_) => Protocol::Chat,
            StreamDecoderOf::Responses(_) => Protocol::Responses,
            StreamDecoderOf::Messages(_) => Protocol::Messages,
            StreamDecoderOf::Gemini(_) => Protocol::Gemini,
        }
    }

    /// Whether this decoder has seen nothing yet.
    pub open spec fn is_fresh(self) -> bool {
        match self {
            StreamDecoderOf::Chat(d) => d@ == (ChatDecoderV { started: false, done: false, tools: Seq::empty() }),
            StreamDecoderOf::Responses(d) => d@ == (RespDecoderV { opened: Seq::empty(), started: false, finished: false }),
            StreamDecoderOf::Messages(d) => d@ == (MsgDecoderV { started: Seq::empty(), done: false }),
            StreamDecoderOf::Gemini(d) => d@ == (GeminiDecoderV {
                started: false, index: 0, open: None, stopped: false, done: false, saw_tool_call: false, tool_index: 0 }),
        }
    }

    /// Decodes one frame with the decoder of its protocol.
    pub fn decode(&mut self, frame: &SseFrame) -> (res: Vec<StreamEvent>)
        ensures
            match (*old(self), *final(self)) {
                (StreamDecoderOf::Chat(a), StreamDecoderOf::Chat(b)) => (b@, evs(res@)) == spec_chat_decode(a@, frame.data@),
                (StreamDecoderOf::Responses(a), StreamDecoderOf::Responses(b)) => (b@, evs(res@)) == spec_responses_decode(a@, frame@),
                (StreamDecoderOf::Messages(a), StreamDecoderOf::Messages(b)) => (b@, evs(res@)) == spec_messages_decode(a@, frame@),
                (StreamDecoderOf::Gemini(a), StreamDecoderOf::Gemini(b)) =>
                    exists|fresh: Seq<char>| (b@, evs(res@)) == #[trigger] spec_gemini_decode(a@, frame.data@, fresh),
                _ => false,
            },
    {
        match self {
            StreamDecoderOf::Chat(d) => d.decode(frame),
            StreamDecoderOf::Responses(d) => d.decode(frame),
            StreamDecoderOf::Messages(d) => d.decode(frame),
            StreamDecoderOf::Gemini(d) => d.decode(frame),
        }
    }

    /// Ends the stream with the decoder of its protocol.
    pub fn finish(&mut self) -> (res: Vec<StreamEvent>)
        ensures
            match (*old(self), *final(self)) {
                (StreamDecoderOf::Chat(a), StreamDecoderOf::Chat(b)) => (b@, evs(res@)) == spec_chat_finish(a@),
                (StreamDecoderOf::Responses(a), StreamDecoderOf::Responses(b)) => (b@, evs(res@)) == spec_responses_finish(a@),
                (StreamDecoderOf::Messages(a), StreamDecoderOf::Messages(b)) => (b@, evs(res@)) == spec_messages_finish(a@),
                (StreamDecoderOf::Gemini(a), StreamDecoderOf::Gemini(b)) => (b@, evs(res@)) == spec_gemini_finish(a@),
                _ => false,
            },
    {
        match self {
            StreamDecoderOf::Chat(d) => d.finish(),
            StreamDecoderOf::Responses(d) => d.finish(),
            StreamDecoderOf::Messages(d) => d.finish(),
            StreamDecoderOf::Gemini(d) => d.finish(),
        }
    }
}

/// The stream encoder of one protocol.
pub enum StreamEncoderOf {
    Chat(ChatStreamEncoder),
    Responses(ResponsesStreamEncoder),
    Messages(MessagesStreamEncoder),
    Gemini(GeminiStreamEncoder),
}

impl StreamEncoderOf {
    /// The protocol whose stream this encoder writes.
    pub open spec fn speaks(self) -> Protocol {
        match self {
            StreamEncoderOf::Chat(_) => Protocol::Chat,
            StreamEncoderOf::Responses(_) => Protocol::Responses,
            StreamEncoderOf::Messages(_) => Protocol::Messages,
            StreamEncoderOf::Gemini(_) => Protocol::Gemini,
        }
    }

    /// Whether this encoder has seen nothing yet (a Chat encoder starts with a made-up id
    /// and the current time).
    pub open spec fn is_fresh(self) -> bool {
        match self {
            StreamEncoderOf::Chat(e) => exists|fresh: Seq<char>, now: i64| e@ == (ChatEncoderV {
                id: "chatcmpl-"@ + fresh,
                model: Seq::empty(),
                created: now,
                opened: false,
                finished: false,
                done: false,
                usage_sent: false,
                usage: crate::ir::Usage::zero_spec(),
                tool_slots: Seq::empty(),
            }),
            StreamEncoderOf::Responses(e) => e@ == initial_resp_encoder(),
            StreamEncoderOf::Messages(e) => e@ == initial_encoder(),
            StreamEncoderOf::Gemini(e) => e@ == (GeminiEncoderV { pending: None, finished: false, slots: Seq::empty() }),
        }
    }

    /// Encodes one event with the encoder of its protocol.
    pub fn encode(&mut self, event: &StreamEvent) -> (res: Vec<SseFrame>)
        ensures
            match (*old(self), *final(self)) {
                (StreamEncoderOf::Chat(a), StreamEncoderOf::Chat(b)) => (b@, frs(res@)) == spec_chat_encode(a@, event@),
                (StreamEncoderOf::Responses(a), StreamEncoderOf::Responses(b)) =>
                    exists|u: Seq<char>, now: i64| uuid_hex(u) && (b@, frs(res@)) == #[trigger] spec_responses_encode(a@, event@, "resp_"@ + u, now),
                (StreamEncoderOf::Messages(a), StreamEncoderOf::Messages(b)) =>
                    exists|u: Seq<char>, v: Seq<char>| uuid_hex(u) && uuid_hex(v) && (b@, frs(res@)) == #[trigger] spec_messages_encode(a@, event@, "msg_"@ + u, "toolu_"@ + v),
                (StreamEncoderOf::Gemini(a), StreamEncoderOf::Gemini(b)) => (b@, frs(res@)) == spec_gemini_encode(a@, event@),
                _ => false,
            },
    {
        match self {
            StreamEncoderOf::Chat(e) => e.encode(event),
            StreamEncoderOf::Responses(e) => e.encode(event),
            StreamEncoderOf::Messages(e) => e.encode(event),
            StreamEncoderOf::Gemini(e) => e.encode(event),
        }
    }

    /// Ends the stream with the encoder of its protocol.
    pub fn finish(&mut self) -> (res: Vec<SseFrame>)
        ensures
            match (*old(self), *final(self)) {
                (StreamEncoderOf::Chat(a), StreamEncoderOf::Chat(b)) => (b@, frs(res@)) == enc_wrap_up(a@),
                (StreamEncoderOf::Responses(a), StreamEncoderOf::Responses(b)) =>
                    exists|u: Seq<char>, now: i64| uuid_hex(u) && (b@, frs(res@)) == #[trigger] spec_responses_encode_finish(a@, "resp_"@ + u, now),
                (StreamEncoderOf::Messages(a), StreamEncoderOf::Messages(b)) =>
                    exists|u: Seq<char>| uuid_hex(u) && (b@, frs(res@)) == #[trigger] spec_messages_encode_finish(a@, "msg_"@ + u),
                (StreamEncoderOf::Gemini(a), StreamEncoderOf::Gemini(b)) => (b@, frs(res@)) == spec_gemini_encode_finish(a@),
                _ => false,
            },
    {
        match self {
            StreamEncoderOf::Chat(e) => e.finish(),
            StreamEncoderOf::Responses(e) => e.finish(),
            StreamEncoderOf::Messages(e) => e.finish(),
            StreamEncoderOf::Gemini(e) => e.finish(),
        }
    }
}

impl Codec {
    /// A fresh stream decoder of this codec's protocol (one per upstream connection).
    pub fn stream_decoder(&self) -> (res: StreamDecoderOf)
        ensures
            res.speaks() == self.speaks(),
            res.is_fresh(),
    {
        match self {
            Codec::Chat(_) => StreamDecoderOf::Chat(ChatStreamDecoder::new()),
            Codec::Responses(_) => StreamDecoderOf::Responses(ResponsesStreamDecoder::new()),
            Codec::Messages(_) => StreamDecoderOf::Messages(MessagesStreamDecoder::new()),
            Codec::Gemini(_) => StreamDecoderOf::Gemini(GeminiStreamDecoder::new()),
        }
    }

    /// A fresh stream encoder of this codec's protocol (one per client connection).
    pub fn stream_encoder(&self) -> (res: StreamEncoderOf)
        ensures
            res.speaks() == self.speaks(),
            res.is_fresh(),
    {
        match self {
            Codec::Chat(_) => StreamEncoderOf::Chat(ChatStreamEncoder::new()),
            Codec::Responses(_) => StreamEncoderOf::Responses(ResponsesStreamEncoder::new()),
            Codec::Messages(_) => StreamEncoderOf::Messages(MessagesStreamEncoder::new()),
            Codec::Gemini(_) => StreamEncoderOf::Gemini(GeminiStreamEncoder::new()),
        }
    }
}

/// Request codec: a wire request body to and from the IR.
pub trait RequestCodec {
    /// Reads a wire request; unknown fields go into the extensions under `"<protocol>."`.
    fn decode_request(&self, raw: &Json) -> Result<UnifiedRequest, GatewayError>;

    /// Writes the IR as a wire request, restoring this protocol's own extension fields.
    fn encode_request(&self, ir: &UnifiedRequest) -> Result<Json, GatewayError>;
}

/// Response codec: a wire response body to and from the IR.
pub trait ResponseCodec {
    /// Reads a wire response.
    fn decode_response(&self, raw: &Json) -> Result<UnifiedResponse, GatewayError>;

    /// Writes the IR as a wire response.
    fn encode_response(&self, ir: &UnifiedResponse) -> Result<Json, GatewayError>;
}

/// Stream codec: makes the stateful stream decoder and encoder of a protocol, one per stream.
pub trait StreamCodec {
    type Decoder: StreamDecoder;
    type Encoder: StreamEncoder;

    /// A fresh stream decoder.
    fn stream_decoder(&self) -> Self::Decoder;

    /// A fresh stream encoder.
    fn stream_encoder(&self) -> Self::Encoder;
}

/// A protocol's whole codec.
pub trait ProtocolCodec: RequestCodec + ResponseCodec + StreamCodec {
    /// The protocol the codec speaks.
    spec fn spoken(&self) -> Protocol;

    /// The protocol the codec speaks.
    fn protocol(&self) -> (res: Protocol)
        ensures
            res == self.spoken(),
    ;
}

impl RequestCodec for Codec {
    fn decode_request(&self, raw: &Json) -> (res: Result<UnifiedRequest, GatewayError>)
        ensures
            match res {
                Ok(r) => spec_decode_request(self.speaks(), raw@) == Ok::<RequestV, Seq<char>>(r@),
                Err(e) => spec_decode_request(self.speaks(), raw@) is Err,
            },
    {
        Codec::decode_request(self, raw)
    }

    fn encode_request(&self, ir: &UnifiedRequest) -> (res: Result<Json, GatewayError>) {
        Ok(Codec::encode_request(self, ir))
    }
}

impl ResponseCodec for Codec {
    fn decode_response(&self, raw: &Json) -> (res: Result<UnifiedResponse, GatewayError>) {
        Codec::decode_response(self, raw)
    }

    fn encode_response(&self, ir: &UnifiedResponse) -> (res: Result<Json, GatewayError>) {
        Ok(Codec::encode_response(self, ir))
    }
}

impl StreamDecoder for StreamDecoderOf {
    fn decode(&mut self, frame: &SseFrame) -> (res: Result<Vec<StreamEvent>, GatewayError>) {
        Ok(StreamDecoderOf::decode(self, frame))
    }

    fn finish(&mut self) -> (res: Result<Vec<StreamEvent>, GatewayError>) {
        Ok(StreamDecoderOf::finish(self))
    }
}

impl StreamEncoder for StreamEncoderOf {
    fn encode(&mut self, event: &StreamEvent) -> (res: Result<Vec<SseFrame>, GatewayError>) {
        Ok(StreamEncoderOf::encode(self, event))
    }

    fn finish(&mut self) -> (res: Result<Vec<SseFrame>, GatewayError>) {
        Ok(StreamEncoderOf::finish(self))
    }
}

impl StreamCodec for Codec {
    type Decoder = StreamDecoderOf;
    type Encoder = StreamEncoderOf;

    fn stream_decoder(&self) -> (res: StreamDecoderOf) {
        Codec::stream_decoder(self)
    }

    fn stream_encoder(&self) -> (res: StreamEncoderOf) {
        Codec::stream_encoder(self)
    }
}

impl ProtocolCodec for Codec {
    open spec fn spoken(&self) -> Protocol {
        self.speaks()
    }

    fn protocol(&self) -> (res: Protocol) {
        Codec::protocol(self)
    }
}

/// One codec per protocol. Built once at start-up; routing picks the codec of a protocol.
/// Any type that implements [`ProtocolCodec`] can fill the slots.
pub struct CodecSet<C: ProtocolCodec> {
    chat: C,
    responses: C,
    messages: C,
    gemini: C,
}

impl<C: ProtocolCodec> CodecSet<C> {
    /// Each slot holds a codec of its own protocol.
    #[verifier::type_invariant]
    spec fn slots_match(self) -> bool {
        &&& self.chat.spoken() == Protocol::Chat
        &&& self.responses.spoken() == Protocol::Responses
        &&& self.messages.spoken() == Protocol::Messages
        &&& self.gemini.spoken() == Protocol::Gemini
    }

    /// Registers one codec per protocol; each must speak the protocol of its slot.
    pub fn new(chat: C, responses: C, messages: C, gemini: C) -> (res: CodecSet<C>)
        requires
            chat.spoken() == Protocol::Chat,
            responses.spoken() == Protocol::Responses,
            messages.spoken() == Protocol::Messages,
            gemini.spoken() == Protocol::Gemini,
    {
        CodecSet { chat, responses, messages, gemini }
    }

    /// The codec of `protocol`.
    pub fn for_protocol(&self, protocol: Protocol) -> (res: &C)
        ensures
            res.spoken() == protocol,
    {
        proof {
            use_type_invariant(self);
        }
        match protocol {
            Protocol::Chat => &self.chat,
            Protocol::Responses => &self.responses,
            Protocol::Messages => &self.messages,
            Protocol::Gemini => &self.gemini,
        }
    }
}

impl CodecSet<Codec> {
    /// The built-in codecs.
    pub fn builtin() -> (res: CodecSet<Codec>) {
        CodecSet::new(Codec::Chat(ChatCodec), Codec::Responses(ResponsesCodec), Codec::Messages(MessagesCodec), Codec::Gemini(GeminiCodec))
    }
}

} // verus!
