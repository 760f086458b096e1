//! Protocol translation layer.
//!
//! Four wire protocols (OpenAI Chat, OpenAI Responses, Anthropic Messages and
//! Gemini) are translated through one unified intermediate representation,
//! together with their streaming events.
//!
//! The crate is a pure function layer: no storage, no network, no channel
//! configuration.

pub mod error;
pub mod json;
pub mod text;
pub mod ir;
pub mod stream;
pub mod codec;

pub use codec::{CodecSet, ProtocolCodec, RequestCodec, ResponseCodec, StreamCodec};
pub use ir::{
    ContentPart, Extensions, MediaSource, Message, ReasoningConfig, ResponseFormat, Role, Sampling,
    StopReason, ToolChoice, ToolDef, UnifiedRequest, UnifiedResponse, Usage,
};
pub use stream::{
    PartKind, SseFrame, SseParser, StreamAggregator, StreamDecoder, StreamEncoder, StreamEvent,
};
