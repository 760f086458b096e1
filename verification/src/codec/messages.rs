//! Anthropic Messages codec.
//!
//! Messages is the richest protocol: reasoning blocks with signatures, cache
//! markers, server tools. Its stream is strict (`message_start`, blocks,
//! `message_delta`, `message_stop`); the decoder tolerates relays that skip
//! the ceremony, the encoder always produces it.

use vstd::prelude::*;
use crate::error::{Protocol, ErrorKind, GatewayError, GatewayErrorV, plain_error};
use crate::ir::{StopReason, Usage, ov, random_uuid, random_uuid_hex, uuid_hex, ContentPart, MediaSource, PartV, SourceV, pv, lemma_parts_view,
    lemma_parts_view_push, Role, Message, MessageV, msgs, ToolDef, ToolV, tls, ToolChoice, ChoiceV, ReasoningConfig,
    ReasoningV, Extensions, ext_insert, lemma_ext_insert, lemma_member_get_append, RequestV, SamplingV, Sampling, UnifiedRequest, spec_parse_data_uri, all_text, text_of, effort_budget, ceiling_of, system_join, UnifiedResponse, ResponseV};
use crate::json::{Json, JsonNumber, JsonV, NumberV, opt_str, opt_u64, opt_get, opt_bool, str_or, non_empty, json_parse, json_render, opt_view,
    members_view, push_member, lemma_items_view, items_view, member_get, lemma_members_view};
use crate::codec::chat::{opt_owned, text_or_empty, push_json, collect_unknown, member_last, law_unknown_field_kept, texts_of, parse_stop, spec_as_number, as_number};
use crate::stream::{StreamEvent, EventV, SseFrame, FrameV, PartKind, evs, frs, push_event, push_frame};
use crate::text::{text_eq, owned, trim, trimmed, concat, remove_char, decimal, decimal_text, index_of, split_once, strip_prefix};
use crate::codec::gemini::{wrap_inc, ext_opt, lemma_ext_opt_other};

verus! {

/// Anthropic Messages codec.
pub struct MessagesCodec;

/// `stop_reason` in IR terms.
pub open spec fn spec_decode_stop_reason(raw: Seq<char>) -> StopReason {
    if raw == "end_turn"@ {
        StopReason::Stop
    } else if raw == "max_tokens"@ {
        StopReason::MaxTokens
    } else if raw == "stop_sequence"@ {
        StopReason::StopSequence
    } else if raw == "tool_use"@ {
        StopReason::ToolUse
    } else if raw == "refusal"@ {
        StopReason::Refusal
    } else if raw == "pause_turn"@ {
        StopReason::PauseTurn
    } else {
        StopReason::Other
    }
}

/// `stop_reason` in IR terms.
pub fn decode_stop_reason(raw: &str) -> (res: StopReason)
    ensures
        res == spec_decode_stop_reason(raw@),
{
    if text_eq(raw, "end_turn") {
        StopReason::Stop
    } else if text_eq(raw, "max_tokens") {
        StopReason::MaxTokens
    } else if text_eq(raw, "stop_sequence") {
        StopReason::StopSequence
    } else if text_eq(raw, "tool_use") {
        StopReason::ToolUse
    } else if text_eq(raw, "refusal") {
        StopReason::Refusal
    } else if text_eq(raw, "pause_turn") {
        StopReason::PauseTurn
    } else {
        StopReason::Other
    }
}

/// The `stop_reason` for an IR stop reason (content filtering is a refusal here).
pub open spec fn spec_encode_stop_reason(reason: StopReason) -> Seq<char> {
    match reason {
        StopReason::Stop => "end_turn"@,
        StopReason::MaxTokens => "max_tokens"@,
        StopReason::StopSequence => "stop_sequence"@,
        StopReason::ToolUse => "tool_use"@,
        StopReason::Refusal => "refusal"@,
        StopReason::PauseTurn => "pause_turn"@,
        StopReason::ContentFilter => "refusal"@,
        StopReason::Other => "end_turn"@,
    }
}

/// The `stop_reason` for an IR stop reason.
pub fn encode_stop_reason(reason: StopReason) -> (res: &'static str)
    ensures
        res@ == spec_encode_stop_reason(reason),
{
    match reason {
        StopReason::Stop => "end_turn",
        StopReason::MaxTokens => "max_tokens",
        StopReason::StopSequence => "stop_sequence",
        StopReason::ToolUse => "tool_use",
        StopReason::Refusal => "refusal",
        StopReason::PauseTurn => "pause_turn",
        StopReason::ContentFilter => "refusal",
        StopReason::Other => "end_turn",
    }
}

/// Decoding the `stop_reason` that a reason encodes to gives the reason back,
/// except for content filtering, which Messages reports as a refusal, and `Other`.
pub proof fn law_stop_reason_round_trip(reason: StopReason)
    requires
        reason != StopReason::ContentFilter,
        reason != StopReason::Other,
    ensures
        spec_decode_stop_reason(spec_encode_stop_reason(reason)) == reason,
{
    reveal_strlit("end_turn");
    reveal_strlit("max_tokens");
    reveal_strlit("stop_sequence");
    reveal_strlit("tool_use");
    reveal_strlit("refusal");
    reveal_strlit("pause_turn");
    assert("max_tokens"@.len() != "end_turn"@.len());
    assert("stop_sequence"@.len() != "end_turn"@.len() && "stop_sequence"@.len() != "max_tokens"@.len());
    assert("tool_use"@[0] != "end_turn"@[0] && "tool_use"@.len() != "max_tokens"@.len());
    assert("tool_use"@.len() != "stop_sequence"@.len());
    assert("refusal"@.len() != "end_turn"@.len() && "refusal"@.len() != "max_tokens"@.len());
    assert("refusal"@.len() != "stop_sequence"@.len() && "refusal"@.len() != "tool_use"@.len());
    assert("pause_turn"@.len() != "end_turn"@.len() && "pause_turn"@[0] != "max_tokens"@[0]);
    assert("pause_turn"@.len() != "stop_sequence"@.len() && "pause_turn"@.len() != "tool_use"@.len());
    assert("pause_turn"@.len() != "refusal"@.len());
}

/// A counter of the usage object, 0 when absent.
pub open spec fn count_of(raw: JsonV, key: Seq<char>) -> u64 {
    match opt_u64(raw.get(key)) {
        Some(n) => n,
        None => 0,
    }
}

pub(crate) fn count(raw: &Json, key: &str) -> (res: u64)
    ensures
        res == count_of(raw@, key@),
{
    match raw.get_u64(key) {
        Some(n) => n,
        None => 0,
    }
}

/// Anthropic usage in IR terms (reasoning is part of the output tokens here).
pub open spec fn spec_decode_usage(raw: JsonV) -> Usage {
    Usage {
        input_tokens: count_of(raw, "input_tokens"@),
        output_tokens: count_of(raw, "output_tokens"@),
        cached_input_tokens: count_of(raw, "cache_read_input_tokens"@),
        cache_write_tokens: count_of(raw, "cache_creation_input_tokens"@),
        reasoning_tokens: 0,
    }
}

/// Anthropic usage in IR terms.
pub fn decode_usage(raw: &Json) -> (res: Usage)
    ensures
        res == spec_decode_usage(raw@),
{
    Usage {
        input_tokens: count(raw, "input_tokens"),
        output_tokens: count(raw, "output_tokens"),
        cached_input_tokens: count(raw, "cache_read_input_tokens"),
        cache_write_tokens: count(raw, "cache_creation_input_tokens"),
        reasoning_tokens: 0,
    }
}

/// The block index of an event, clamped to `u32::MAX`; 0 when absent.
pub open spec fn spec_block_index(value: JsonV) -> u32 {
    match opt_u64(value.get("index"@)) {
        Some(n) => if n > u32::MAX as u64 { u32::MAX } else { n as u32 },
        None => 0,
    }
}

fn block_index(value: &Json) -> (res: u32)
    ensures
        res == spec_block_index(value@),
{
    match value.get_u64("index") {
        Some(n) => if n > u32::MAX as u64 { u32::MAX } else { n as u32 },
        None => 0,
    }
}

/// Model of [`MessagesStreamDecoder`].
pub struct MsgDecoderV {
    /// Blocks whose start was emitted.
    pub started: Seq<u32>,
    /// Whether `Done` was emitted.
    pub done: bool,
}

/// Emits the start of block `index` unless it was emitted before.
pub open spec fn ensure_started(started: Seq<u32>, index: u32, kind: PartKind) -> (Seq<u32>, Seq<EventV>) {
    if started.contains(index) {
        (started, Seq::empty())
    } else {
        (started.push(index), seq![EventV::ContentStart { index, kind }])
    }
}

/// The kind of a block from its `type`.
pub open spec fn block_kind(block: Option<JsonV>) -> PartKind {
    match opt_str(opt_get(block, "type"@)) {
        Some(t) => if t == "thinking"@ || t == "redacted_thinking"@ {
            PartKind::Thinking
        } else if t == "tool_use"@ || t == "server_tool_use"@ {
            PartKind::ToolUse
        } else {
            PartKind::Text
        },
        None => PartKind::Text,
    }
}

/// A text field of an optional object, empty when absent.
pub open spec fn text_at(v: Option<JsonV>, key: Seq<char>) -> Seq<char> {
    str_or(opt_str(opt_get(v, key)), Seq::empty())
}

/// `content_block_start`: the block starts, a tool block declares its call, initial text is emitted.
pub open spec fn block_start_events(st: MsgDecoderV, value: JsonV) -> (MsgDecoderV, Seq<EventV>) {
    let index = spec_block_index(value);
    let block = value.get("content_block"@);
    let kind = block_kind(block);
    let started = if st.started.contains(index) { st.started } else { st.started.push(index) };
    let o1 = seq![EventV::ContentStart { index, kind }];
    let o2 = if kind == PartKind::ToolUse {
        o1.push(EventV::ToolCallStart { index, id: text_at(block, "id"@), name: text_at(block, "name"@), signature: None })
    } else {
        o1
    };
    let o3 = match non_empty(opt_str(opt_get(block, "text"@))) {
        Some(t) => o2.push(EventV::TextDelta { index, text: t }),
        None => o2,
    };
    let o4 = match non_empty(opt_str(opt_get(block, "thinking"@))) {
        Some(t) => o3.push(EventV::ThinkingDelta { index, text: t }),
        None => o3,
    };
    (MsgDecoderV { started, ..st }, o4)
}

/// `content_block_delta`: the increment, preceded by the block's start when it was skipped.
pub open spec fn block_delta_events(st: MsgDecoderV, value: JsonV) -> (MsgDecoderV, Seq<EventV>) {
    let index = spec_block_index(value);
    let delta = value.get("delta"@);
    let dtype = text_at(delta, "type"@);
    if dtype == "text_delta"@ {
        let (s, pre) = ensure_started(st.started, index, PartKind::Text);
        (MsgDecoderV { started: s, ..st }, pre.push(EventV::TextDelta { index, text: text_at(delta, "text"@) }))
    } else if dtype == "thinking_delta"@ {
        let (s, pre) = ensure_started(st.started, index, PartKind::Thinking);
        (MsgDecoderV { started: s, ..st }, pre.push(EventV::ThinkingDelta { index, text: text_at(delta, "thinking"@) }))
    } else if dtype == "signature_delta"@ {
        let (s, pre) = ensure_started(st.started, index, PartKind::Thinking);
        (MsgDecoderV { started: s, ..st }, pre.push(EventV::ThinkingSignature { index, signature: text_at(delta, "signature"@) }))
    } else if dtype == "input_json_delta"@ {
        let (s, pre) = ensure_started(st.started, index, PartKind::ToolUse);
        (MsgDecoderV { started: s, ..st }, pre.push(EventV::ToolCallArgsDelta { index, fragment: text_at(delta, "partial_json"@) }))
    } else {
        (st, Seq::empty())
    }
}

/// `message_delta`: usage, then the stop reason when there is one.
pub open spec fn message_delta_events(value: JsonV) -> Seq<EventV> {
    let o1 = match value.get("usage"@) {
        Some(u) => seq![EventV::Usage(spec_decode_usage(u))],
        None => Seq::empty(),
    };
    let delta = value.get("delta"@);
    match opt_str(opt_get(delta, "stop_reason"@)) {
        Some(r) => o1.push(EventV::Stop { reason: spec_decode_stop_reason(r), stop_sequence: opt_str(opt_get(delta, "stop_sequence"@)) }),
        None => o1,
    }
}

/// Effect of one named event.
pub open spec fn spec_messages_event(st: MsgDecoderV, event: Seq<char>, value: JsonV) -> (MsgDecoderV, Seq<EventV>) {
    if event == "message_start"@ {
        let msg = value.get("message"@);
        (st, seq![EventV::Start {
            id: text_at(msg, "id"@),
            model: text_at(msg, "model"@),
            usage: match opt_get(msg, "usage"@) {
                Some(u) => Some(spec_decode_usage(u)),
                None => None,
            },
        }])
    } else if event == "content_block_start"@ {
        block_start_events(st, value)
    } else if event == "content_block_delta"@ {
        block_delta_events(st, value)
    } else if event == "content_block_stop"@ {
        (st, seq![EventV::ContentStop { index: spec_block_index(value) }])
    } else if event == "message_delta"@ {
        (st, message_delta_events(value))
    } else if event == "message_stop"@ {
        (MsgDecoderV { done: true, ..st }, seq![EventV::Done])
    } else if event == "ping"@ {
        (st, seq![EventV::Ping])
    } else if event == "error"@ {
        let err = value.get("error"@);
        (st, seq![EventV::Error {
            message: str_or(opt_str(opt_get(err, "message"@)), "upstream stream error"@),
            kind: str_or(opt_str(opt_get(err, "type"@)), "api_error"@),
        }])
    } else {
        (st, Seq::empty())
    }
}

/// Effect of one SSE frame: blank frames and frames that are not JSON are ignored,
/// `[DONE]` ends the stream once, and the event name falls back to the payload's `type`.
pub open spec fn spec_messages_decode(st: MsgDecoderV, frame: FrameV) -> (MsgDecoderV, Seq<EventV>) {
    let d = trimmed(frame.data);
    if d.len() == 0 {
        (st, Seq::empty())
    } else if d == "[DONE]"@ {
        if st.done {
            (st, Seq::empty())
        } else {
            (MsgDecoderV { done: true, ..st }, seq![EventV::Done])
        }
    } else {
        match json_parse(d) {
            None => (st, Seq::empty()),
            Some(value) => {
                let event = match frame.event {
                    Some(e) => e,
                    None => str_or(opt_str(value.get("type"@)), Seq::empty()),
                };
                spec_messages_event(st, event, value)
            },
        }
    }
}

/// Effect of the end of the stream: `Done` unless it was emitted.
pub open spec fn spec_messages_finish(st: MsgDecoderV) -> (MsgDecoderV, Seq<EventV>) {
    if st.done {
        (st, Seq::empty())
    } else {
        (MsgDecoderV { done: true, ..st }, seq![EventV::Done])
    }
}

fn contains_u32(v: &Vec<u32>, x: u32) -> (res: bool)
    ensures
        res == v@.contains(x),
{
    let mut i: usize = 0;
    while i < v.len()
        invariant
            i <= v.len(),
            forall|k: int| 0 <= k < i ==> v@[k] != x,
        decreases v.len() - i,
    {
        if v[i] == x {
            assert(v@[i as int] == x);
            return true;
        }
        i = i + 1;
    }
    false
}

pub(crate) fn text_field(v: Option<&Json>, key: &str) -> (res: String)
    ensures
        res@ == text_at(opt_view(v), key@),
{
    proof {
        reveal_strlit("");
        assert(""@ =~= Seq::<char>::empty());
    }
    let found = match v {
        Some(j) => j.get_str(key),
        None => None,
    };
    match found {
        Some(s) => owned(s),
        None => String::new(),
    }
}

pub(crate) fn str_field<'a>(v: Option<&'a Json>, key: &str) -> (res: Option<&'a str>)
    ensures
        match res {
            Some(s) => opt_str(opt_get(opt_view(v), key@)) == Some(s@),
            None => opt_str(opt_get(opt_view(v), key@)) is None,
        },
{
    match v {
        Some(j) => j.get_str(key),
        None => None,
    }
}

/// Stateful Messages stream decoder.
///
/// Dispatches on the event name; a delta whose block never started gets a
/// synthesized `ContentStart` first, so downstream always sees complete blocks.
pub struct MessagesStreamDecoder {
    started: Vec<u32>,
    done: bool,
}

impl View for MessagesStreamDecoder {
    type V = MsgDecoderV;

    closed spec fn view(&self) -> MsgDecoderV {
        MsgDecoderV { started: self.started@, done: self.done }
    }
}

impl MessagesStreamDecoder {
    /// A decoder before any frame.
    pub fn new() -> (res: MessagesStreamDecoder)
        ensures
            res@ == (MsgDecoderV { started: Seq::empty(), done: false }),
    {
        MessagesStreamDecoder { started: Vec::new(), done: false }
    }

    fn ensure_started(&mut self, out: &mut Vec<StreamEvent>, index: u32, kind: PartKind)
        ensures
            (final(self)@.started, evs(final(out)@)) == {
                let (s, pre) = ensure_started(old(self)@.started, index, kind);
                (s, evs(old(out)@) + pre)
            },
            final(self)@.done == old(self)@.done,
    {
        if contains_u32(&self.started, index) {
            assert(evs(out@) =~= evs(out@) + Seq::<EventV>::empty());
            return;
        }
        self.started.push(index);
        let ghost o = evs(out@);
        push_event(out, StreamEvent::ContentStart { index, kind });
        assert(evs(out@) =~= o + seq![EventV::ContentStart { index, kind }]);
    }

    fn block_start(&mut self, value: &Json) -> (res: Vec<StreamEvent>)
        ensures
            (final(self)@, evs(res@)) == block_start_events(old(self)@, value@),
    {
        let index = block_index(value);
        let block = value.get("content_block");
        let ty = str_field(block, "type");
        let kind = match ty {
            Some(t) => if text_eq(t, "thinking") || text_eq(t, "redacted_thinking") {
                PartKind::Thinking
            } else if text_eq(t, "tool_use") || text_eq(t, "server_tool_use") {
                PartKind::ToolUse
            } else {
                PartKind::Text
            },
            None => PartKind::Text,
        };
        if !contains_u32(&self.started, index) {
            self.started.push(index);
        }
        let mut out: Vec<StreamEvent> = Vec::new();
        push_event(&mut out, StreamEvent::ContentStart { index, kind });
        assert(evs(out@) =~= seq![EventV::ContentStart { index, kind }]);
        if kind == PartKind::ToolUse {
            push_event(&mut out, StreamEvent::ToolCallStart { index, id: text_field(block, "id"), name: text_field(block, "name"), signature: None });
        }
        if let Some(t) = str_field(block, "text") {
            if t.unicode_len() > 0 {
                push_event(&mut out, StreamEvent::TextDelta { index, text: owned(t) });
            }
        }
        if let Some(t) = str_field(block, "thinking") {
            if t.unicode_len() > 0 {
                push_event(&mut out, StreamEvent::ThinkingDelta { index, text: owned(t) });
            }
        }
        out
    }

    fn block_delta(&mut self, value: &Json) -> (res: Vec<StreamEvent>)
        ensures
            (final(self)@, evs(res@)) == block_delta_events(old(self)@, value@),
    {
        let index = block_index(value);
        let delta = value.get("delta");
        let dtype = text_field(delta, "type");
        let mut out: Vec<StreamEvent> = Vec::new();
        assert(evs(out@) =~= Seq::<EventV>::empty());
        if text_eq(dtype.as_str(), "text_delta") {
            self.ensure_started(&mut out, index, PartKind::Text);
            push_event(&mut out, StreamEvent::TextDelta { index, text: text_field(delta, "text") });
        } else if text_eq(dtype.as_str(), "thinking_delta") {
            self.ensure_started(&mut out, index, PartKind::Thinking);
            push_event(&mut out, StreamEvent::ThinkingDelta { index, text: text_field(delta, "thinking") });
        } else if text_eq(dtype.as_str(), "signature_delta") {
            self.ensure_started(&mut out, index, PartKind::Thinking);
            push_event(&mut out, StreamEvent::ThinkingSignature { index, signature: text_field(delta, "signature") });
        } else if text_eq(dtype.as_str(), "input_json_delta") {
            self.ensure_started(&mut out, index, PartKind::ToolUse);
            push_event(&mut out, StreamEvent::ToolCallArgsDelta { index, fragment: text_field(delta, "partial_json") });
        }
        out
    }

    fn message_delta(value: &Json) -> (res: Vec<StreamEvent>)
        ensures
            evs(res@) == message_delta_events(value@),
    {
        let mut out: Vec<StreamEvent> = Vec::new();
        assert(evs(out@) =~= Seq::<EventV>::empty());
        if let Some(u) = value.get("usage") {
            push_event(&mut out, StreamEvent::Usage(decode_usage(u)));
            assert(evs(out@) =~= seq![EventV::Usage(spec_decode_usage(u@))]);
        }
        let delta = value.get("delta");
        if let Some(r) = str_field(delta, "stop_reason") {
            let stop_sequence = match str_field(delta, "stop_sequence") {
                Some(s) => Some(owned(s)),
                None => None,
            };
            push_event(&mut out, StreamEvent::Stop { reason: decode_stop_reason(r), stop_sequence });
        }
        out
    }

    /// Decodes one event already parsed: its name (the SSE event, else the payload `type`)
    /// and its JSON payload.
    pub fn event(&mut self, event: &str, value: &Json) -> (res: Vec<StreamEvent>)
        ensures
            (final(self)@, evs(res@)) == spec_messages_event(old(self)@, event@, value@),
    {
        let mut out: Vec<StreamEvent> = Vec::new();
        assert(evs(out@) =~= Seq::<EventV>::empty());
        if text_eq(event, "message_start") {
            let msg = value.get("message");
            let usage = match msg {
                Some(m) => match m.get("usage") {
                    Some(u) => Some(decode_usage(u)),
                    None => None,
                },
                None => None,
            };
            push_event(&mut out, StreamEvent::Start { id: text_field(msg, "id"), model: text_field(msg, "model"), usage });
            assert(evs(out@) =~= seq![evs(out@)[0]]);
            out
        } else if text_eq(event, "content_block_start") {
            self.block_start(value)
        } else if text_eq(event, "content_block_delta") {
            self.block_delta(value)
        } else if text_eq(event, "content_block_stop") {
            push_event(&mut out, StreamEvent::ContentStop { index: block_index(value) });
            assert(evs(out@) =~= seq![evs(out@)[0]]);
            out
        } else if text_eq(event, "message_delta") {
            Self::message_delta(value)
        } else if text_eq(event, "message_stop") {
            self.done = true;
            push_event(&mut out, StreamEvent::Done);
            assert(evs(out@) =~= seq![EventV::Done]);
            out
        } else if text_eq(event, "ping") {
            push_event(&mut out, StreamEvent::Ping);
            assert(evs(out@) =~= seq![EventV::Ping]);
            out
        } else if text_eq(event, "error") {
            let err = value.get("error");
            let message = match str_field(err, "message") {
                Some(m) => owned(m),
                None => owned("upstream stream error"),
            };
            let kind = match str_field(err, "type") {
                Some(k) => owned(k),
                None => owned("api_error"),
            };
            push_event(&mut out, StreamEvent::Error { message, kind });
            assert(evs(out@) =~= seq![EventV::Error { message: message@, kind: kind@ }]);
            out
        } else {
            out
        }
    }

    /// Decodes one frame into zero or more events.
    pub fn decode(&mut self, frame: &SseFrame) -> (res: Vec<StreamEvent>)
        ensures
            (final(self)@, evs(res@)) == spec_messages_decode(old(self)@, frame@),
    {
        let mut out: Vec<StreamEvent> = Vec::new();
        assert(evs(out@) =~= Seq::<EventV>::empty());
        let data = trim(frame.data.as_str());
        if data.unicode_len() == 0 {
            return out;
        }
        if text_eq(data, "[DONE]") {
            if !self.done {
                self.done = true;
                push_event(&mut out, StreamEvent::Done);
                assert(evs(out@) =~= seq![EventV::Done]);
            }
            return out;
        }
        let value = match Json::parse(data) {
            Some(v) => v,
            None => return out,
        };
        proof {
            reveal_strlit("");
            assert(""@ =~= Seq::<char>::empty());
        }
        let event: &str = match &frame.event {
            Some(e) => e.as_str(),
            None => match value.get_str("type") {
                Some(t) => t,
                None => "",
            },
        };
        self.event(event, &value)
    }

    /// Ends the stream: `Done` unless it was already emitted.
    pub fn finish(&mut self) -> (res: Vec<StreamEvent>)
        ensures
            (final(self)@, evs(res@)) == spec_messages_finish(old(self)@),
    {
        let mut out: Vec<StreamEvent> = Vec::new();
        assert(evs(out@) =~= Seq::<EventV>::empty());
        if !self.done {
            self.done = true;
            push_event(&mut out, StreamEvent::Done);
            assert(evs(out@) =~= seq![EventV::Done]);
        }
        out
    }
}


// ---------------------------------------------------------------------------
// Stream encoding
// ---------------------------------------------------------------------------

/// A JSON number for a counter.
pub open spec fn num(n: u64) -> JsonV {
    JsonV::Number(NumberV::PosInt(n))
}

/// Anthropic usage: input and output always, the cache counters when non-zero.
pub open spec fn spec_encode_usage(u: Usage) -> JsonV {
    let m0 = seq![("input_tokens"@, num(u.input_tokens)), ("output_tokens"@, num(u.output_tokens))];
    let m1 = if u.cache_write_tokens > 0 { m0.push(("cache_creation_input_tokens"@, num(u.cache_write_tokens))) } else { m0 };
    let m2 = if u.cached_input_tokens > 0 { m1.push(("cache_read_input_tokens"@, num(u.cached_input_tokens))) } else { m1 };
    JsonV::Object(m2)
}

/// Anthropic usage as JSON.
pub fn encode_usage(u: &Usage) -> (res: Json)
    ensures
        res@ == spec_encode_usage(*u),
{
    let mut m: Vec<(String, Json)> = Vec::new();
    push_member(&mut m, "input_tokens", Json::uint(u.input_tokens));
    push_member(&mut m, "output_tokens", Json::uint(u.output_tokens));
    if u.cache_write_tokens > 0 {
        push_member(&mut m, "cache_creation_input_tokens", Json::uint(u.cache_write_tokens));
    }
    if u.cached_input_tokens > 0 {
        push_member(&mut m, "cache_read_input_tokens", Json::uint(u.cached_input_tokens));
    }
    proof {
        let m0 = seq![("input_tokens"@, num(u.input_tokens)), ("output_tokens"@, num(u.output_tokens))];
        assert(Seq::<(Seq<char>, JsonV)>::empty().push(("input_tokens"@, num(u.input_tokens))).push(("output_tokens"@, num(u.output_tokens))) =~= m0);
    }
    Json::object(m)
}

/// A named frame whose data is the compact rendering of `payload`.
pub open spec fn named(event: Seq<char>, payload: JsonV) -> FrameV {
    FrameV { event: Some(event), data: json_render(payload) }
}

pub(crate) fn named_frame(event: &str, payload: &Json) -> (res: SseFrame)
    ensures
        res@ == named(event@, payload@),
{
    let data = payload.render();
    SseFrame::named(event, data.as_str())
}

/// The `message_start` payload.
pub open spec fn message_start_payload(id: Seq<char>, model: Seq<char>, usage: Usage) -> JsonV {
    JsonV::Object(seq![
        ("type"@, JsonV::Str("message_start"@)),
        ("message"@, JsonV::Object(seq![
            ("id"@, JsonV::Str(id)),
            ("type"@, JsonV::Str("message"@)),
            ("role"@, JsonV::Str("assistant"@)),
            ("model"@, JsonV::Str(model)),
            ("content"@, JsonV::Array(Seq::empty())),
            ("stop_reason"@, JsonV::Null),
            ("stop_sequence"@, JsonV::Null),
            ("usage"@, spec_encode_usage(usage)),
        ])),
    ])
}

/// The `content_block_stop` payload.
pub open spec fn block_stop_payload(index: u32) -> JsonV {
    JsonV::Object(seq![("type"@, JsonV::Str("content_block_stop"@)), ("index"@, num(index as u64))])
}

/// The empty block that opens a block of `kind` (a refusal is a text block here).
pub open spec fn empty_block(kind: PartKind) -> JsonV {
    match kind {
        PartKind::Thinking => JsonV::Object(seq![
            ("type"@, JsonV::Str("thinking"@)),
            ("thinking"@, JsonV::Str(Seq::empty())),
            ("signature"@, JsonV::Str(Seq::empty())),
        ]),
        PartKind::ToolUse => tool_block(Seq::empty(), Seq::empty()),
        _ => JsonV::Object(seq![("type"@, JsonV::Str("text"@)), ("text"@, JsonV::Str(Seq::empty()))]),
    }
}

/// A tool block with its id and name and an empty input.
pub open spec fn tool_block(id: Seq<char>, name: Seq<char>) -> JsonV {
    JsonV::Object(seq![
        ("type"@, JsonV::Str("tool_use"@)),
        ("id"@, JsonV::Str(id)),
        ("name"@, JsonV::Str(name)),
        ("input"@, JsonV::Object(Seq::empty())),
    ])
}

/// The `content_block_start` payload.
pub open spec fn block_start_payload(index: u32, block: JsonV) -> JsonV {
    JsonV::Object(seq![
        ("type"@, JsonV::Str("content_block_start"@)),
        ("index"@, num(index as u64)),
        ("content_block"@, block),
    ])
}

/// The `content_block_delta` payload.
pub open spec fn block_delta_payload(index: u32, delta: JsonV) -> JsonV {
    JsonV::Object(seq![
        ("type"@, JsonV::Str("content_block_delta"@)),
        ("index"@, num(index as u64)),
        ("delta"@, delta),
    ])
}

/// A delta object: its type and one text field.
pub open spec fn delta_of(ty: Seq<char>, key: Seq<char>, text: Seq<char>) -> JsonV {
    JsonV::Object(seq![("type"@, JsonV::Str(ty)), (key, JsonV::Str(text))])
}

/// The `message_delta` payload.
pub open spec fn message_delta_payload(reason: StopReason, stop_sequence: Option<Seq<char>>, usage: Usage) -> JsonV {
    JsonV::Object(seq![
        ("type"@, JsonV::Str("message_delta"@)),
        ("delta"@, JsonV::Object(seq![
            ("stop_reason"@, JsonV::Str(spec_encode_stop_reason(reason))),
            ("stop_sequence"@, text_or_null(stop_sequence)),
        ])),
        ("usage"@, spec_encode_usage(usage)),
    ])
}

/// A text, or null when there is none.
pub open spec fn text_or_null(t: Option<Seq<char>>) -> JsonV {
    match t {
        Some(s) => JsonV::Str(s),
        None => JsonV::Null,
    }
}

/// A payload that only names its type.
pub open spec fn type_payload(ty: Seq<char>) -> JsonV {
    JsonV::Object(seq![("type"@, JsonV::Str(ty))])
}

/// The `error` payload.
pub open spec fn error_payload(kind: Seq<char>, message: Seq<char>) -> JsonV {
    JsonV::Object(seq![
        ("type"@, JsonV::Str("error"@)),
        ("error"@, JsonV::Object(seq![("type"@, JsonV::Str(kind)), ("message"@, JsonV::Str(message))])),
    ])
}

/// Model of [`MessagesStreamEncoder`].
pub struct MsgEncoderV {
    pub started: bool,
    pub id: Seq<char>,
    pub model: Seq<char>,
    pub input_usage: Usage,
    pub remap: Seq<(u32, u32)>,
    pub open: Option<(u32, PartKind)>,
    pub next_index: u32,
    pub usage: Usage,
    pub stop_reason: Option<StopReason>,
    pub stop_sequence: Option<Seq<char>>,
    pub finished: bool,
}

/// The encoder before any event.
pub open spec fn initial_encoder() -> MsgEncoderV {
    MsgEncoderV {
        started: false,
        id: Seq::empty(),
        model: Seq::empty(),
        input_usage: Usage::zero_spec(),
        remap: Seq::empty(),
        open: None,
        next_index: 0,
        usage: Usage::zero_spec(),
        stop_reason: None,
        stop_sequence: None,
        finished: false,
    }
}

/// Emits `message_start` once; a stream without id gets `fresh_id`.
pub open spec fn enc_ensure_started(st: MsgEncoderV, frames: Seq<FrameV>, fresh_id: Seq<char>) -> (MsgEncoderV, Seq<FrameV>) {
    if st.started {
        (st, frames)
    } else {
        let id = if st.id.len() == 0 { fresh_id } else { st.id };
        (MsgEncoderV { started: true, id, ..st },
         frames.push(named("message_start"@, message_start_payload(id, st.model, st.input_usage))))
    }
}

/// The first mapping of an IR block index.
pub open spec fn remap_find(remap: Seq<(u32, u32)>, ir: u32) -> Option<u32>
    decreases remap.len(),
{
    if remap.len() == 0 {
        None
    } else {
        match remap_find(remap.drop_last(), ir) {
            Some(m) => Some(m),
            None => if remap.last().0 == ir { Some(remap.last().1) } else { None },
        }
    }
}

/// The Messages index of an IR index; new IR indices are numbered in order of appearance.
pub open spec fn enc_anth_index(st: MsgEncoderV, ir: u32) -> (MsgEncoderV, u32) {
    match remap_find(st.remap, ir) {
        Some(m) => (st, m),
        None => (MsgEncoderV { remap: st.remap.push((ir, st.next_index)), next_index: wrap_inc(st.next_index), ..st }, st.next_index),
    }
}

/// Closes the open block.
pub open spec fn enc_close_open(st: MsgEncoderV, frames: Seq<FrameV>) -> (MsgEncoderV, Seq<FrameV>) {
    match st.open {
        Some((i, _)) => (MsgEncoderV { open: None, ..st }, frames.push(named("content_block_stop"@, block_stop_payload(i)))),
        None => (st, frames),
    }
}

/// Makes a block of `kind` the open one at the index of `ir`, closing another open block first.
pub open spec fn enc_open_block(st: MsgEncoderV, frames: Seq<FrameV>, ir: u32, kind: PartKind, fresh_id: Seq<char>) -> (MsgEncoderV, Seq<FrameV>, u32) {
    let (s1, f1) = enc_ensure_started(st, frames, fresh_id);
    let (s2, index) = enc_anth_index(s1, ir);
    if s2.open == Some((index, kind)) {
        (s2, f1, index)
    } else {
        let (s3, f2) = enc_close_open(s2, f1);
        (MsgEncoderV { open: Some((index, kind)), ..s3 },
         f2.push(named("content_block_start"@, block_start_payload(index, empty_block(kind)))), index)
    }
}

/// Opens a tool block with its id (or `fresh_tool` when it has none) and name.
pub open spec fn enc_open_tool_block(st: MsgEncoderV, frames: Seq<FrameV>, ir: u32, id: Seq<char>, name: Seq<char>,
    fresh_id: Seq<char>, fresh_tool: Seq<char>) -> (MsgEncoderV, Seq<FrameV>, u32) {
    let (s1, f1) = enc_ensure_started(st, frames, fresh_id);
    let (s2, index) = enc_anth_index(s1, ir);
    let (s3, f2) = enc_close_open(s2, f1);
    let id2 = if id.len() == 0 { fresh_tool } else { id };
    (MsgEncoderV { open: Some((index, PartKind::ToolUse)), ..s3 },
     f2.push(named("content_block_start"@, block_start_payload(index, tool_block(id2, name)))), index)
}

/// Ends the stream once: start if needed, close the block, `message_delta`, `message_stop`.
pub open spec fn enc_wrap_up(st: MsgEncoderV, frames: Seq<FrameV>, fresh_id: Seq<char>) -> (MsgEncoderV, Seq<FrameV>) {
    if st.finished {
        (st, frames)
    } else {
        let (s1, f1) = enc_ensure_started(MsgEncoderV { finished: true, ..st }, frames, fresh_id);
        let (s2, f2) = enc_close_open(s1, f1);
        let reason = match s2.stop_reason {
            Some(r) => r,
            None => StopReason::Stop,
        };
        (s2, f2.push(named("message_delta"@, message_delta_payload(reason, s2.stop_sequence, s2.usage)))
               .push(named("message_stop"@, type_payload("message_stop"@))))
    }
}

/// A delta frame after opening a block of `kind`.
pub open spec fn enc_delta(st: MsgEncoderV, ir: u32, kind: PartKind, delta: JsonV, fresh_id: Seq<char>) -> (MsgEncoderV, Seq<FrameV>) {
    let (s1, f1, idx) = enc_open_block(st, Seq::empty(), ir, kind, fresh_id);
    (s1, f1.push(named("content_block_delta"@, block_delta_payload(idx, delta))))
}

/// The larger of two counters.
pub open spec fn max_u64(a: u64, b: u64) -> u64 {
    if a >= b { a } else { b }
}

/// Effect of one IR event on the Messages stream encoder; nothing follows `message_stop` or an error.
pub open spec fn spec_messages_encode(st: MsgEncoderV, e: EventV, fresh_id: Seq<char>, fresh_tool: Seq<char>) -> (MsgEncoderV, Seq<FrameV>) {
    if st.finished {
        (st, Seq::empty())
    } else {
        match e {
            EventV::Start { id, model, usage } => {
                let s0 = if !st.started {
                    match usage {
                        Some(u) => MsgEncoderV { id, model, input_usage: u, usage: u, ..st },
                        None => MsgEncoderV { id, model, ..st },
                    }
                } else {
                    st
                };
                enc_ensure_started(s0, Seq::empty(), fresh_id)
            },
            EventV::ContentStart { index, kind } => if kind != PartKind::ToolUse {
                let (s1, f1, _) = enc_open_block(st, Seq::empty(), index, kind, fresh_id);
                (s1, f1)
            } else {
                (st, Seq::empty())
            },
            EventV::TextDelta { index, text } => enc_delta(st, index, PartKind::Text, delta_of("text_delta"@, "text"@, text), fresh_id),
            EventV::RefusalDelta { index, text } => enc_delta(st, index, PartKind::Refusal, delta_of("text_delta"@, "text"@, text), fresh_id),
            EventV::ThinkingDelta { index, text } => enc_delta(st, index, PartKind::Thinking, delta_of("thinking_delta"@, "thinking"@, text), fresh_id),
            EventV::ThinkingSignature { index, signature } => enc_delta(st, index, PartKind::Thinking, delta_of("signature_delta"@, "signature"@, signature), fresh_id),
            EventV::ToolCallStart { index, id, name, .. } => {
                let (s1, f1, _) = enc_open_tool_block(st, Seq::empty(), index, id, name, fresh_id, fresh_tool);
                (s1, f1)
            },
            EventV::ToolCallArgsDelta { index, fragment } => {
                let (s1, mapped) = enc_anth_index(st, index);
                let (s2, f1, idx) = if s1.open == Some((mapped, PartKind::ToolUse)) {
                    (s1, Seq::empty(), mapped)
                } else {
                    enc_open_tool_block(s1, Seq::empty(), index, Seq::empty(), Seq::empty(), fresh_id, fresh_tool)
                };
                (s2, f1.push(named("content_block_delta"@, block_delta_payload(idx, delta_of("input_json_delta"@, "partial_json"@, fragment)))))
            },
            EventV::ContentStop { index } => {
                let (s1, idx) = enc_anth_index(st, index);
                match s1.open {
                    Some((o, _)) => if o == idx { enc_close_open(s1, Seq::empty()) } else { (s1, Seq::empty()) },
                    None => (s1, Seq::empty()),
                }
            },
            EventV::Usage(u) => (MsgEncoderV {
                usage: Usage {
                    input_tokens: max_u64(st.usage.input_tokens, u.input_tokens),
                    output_tokens: max_u64(st.usage.output_tokens, u.output_tokens),
                    cached_input_tokens: max_u64(st.usage.cached_input_tokens, u.cached_input_tokens),
                    cache_write_tokens: max_u64(st.usage.cache_write_tokens, u.cache_write_tokens),
                    reasoning_tokens: st.usage.reasoning_tokens,
                },
                ..st
            }, Seq::empty()),
            EventV::Stop { reason, stop_sequence } => (MsgEncoderV {
                stop_reason: Some(reason),
                stop_sequence: match stop_sequence {
                    Some(s) => Some(s),
                    None => st.stop_sequence,
                },
                ..st
            }, Seq::empty()),
            EventV::Done => enc_wrap_up(st, Seq::empty(), fresh_id),
            EventV::Ping => (st, seq![named("ping"@, type_payload("ping"@))]),
            EventV::Error { message, kind } => (MsgEncoderV { finished: true, ..st }, seq![named("error"@, error_payload(kind, message))]),
        }
    }
}

/// Effect of the end of the input: the stream is wrapped up if it was not.
pub open spec fn spec_messages_encode_finish(st: MsgEncoderV, fresh_id: Seq<char>) -> (MsgEncoderV, Seq<FrameV>) {
    enc_wrap_up(st, Seq::empty(), fresh_id)
}

pub(crate) fn next_u32(i: u32) -> (res: u32)
    ensures
        res == wrap_inc(i),
{
    if i == u32::MAX { 0 } else { i + 1 }
}

pub(crate) fn usage_max(a: u64, b: u64) -> (res: u64)
    ensures
        res == max_u64(a, b),
{
    if a >= b { a } else { b }
}

pub(crate) fn str_json(s: &str) -> (res: Json)
    ensures
        res@ == JsonV::Str(s@),
{
    Json::string(s)
}

pub(crate) fn pair_object(k1: &str, v1: Json, k2: &str, v2: Json) -> (res: Json)
    ensures
        res@ == JsonV::Object(seq![(k1@, v1@), (k2@, v2@)]),
{
    let mut m: Vec<(String, Json)> = Vec::new();
    push_member(&mut m, k1, v1);
    push_member(&mut m, k2, v2);
    assert(members_view(m@) =~= seq![(k1@, v1@), (k2@, v2@)]);
    Json::object(m)
}

pub(crate) fn triple_object(k1: &str, v1: Json, k2: &str, v2: Json, k3: &str, v3: Json) -> (res: Json)
    ensures
        res@ == JsonV::Object(seq![(k1@, v1@), (k2@, v2@), (k3@, v3@)]),
{
    let mut m: Vec<(String, Json)> = Vec::new();
    push_member(&mut m, k1, v1);
    push_member(&mut m, k2, v2);
    push_member(&mut m, k3, v3);
    assert(members_view(m@) =~= seq![(k1@, v1@), (k2@, v2@), (k3@, v3@)]);
    Json::object(m)
}

fn type_only(ty: &str) -> (res: Json)
    ensures
        res@ == type_payload(ty@),
{
    let mut m: Vec<(String, Json)> = Vec::new();
    push_member(&mut m, "type", str_json(ty));
    assert(members_view(m@) =~= seq![("type"@, JsonV::Str(ty@))]);
    Json::object(m)
}

fn empty_text() -> (res: Json)
    ensures
        res@ == JsonV::Str(Seq::empty()),
{
    Json::Str(String::new())
}

fn message_start_json(id: &str, model: &str, usage: &Usage) -> (res: Json)
    ensures
        res@ == message_start_payload(id@, model@, *usage),
{
    let mut m: Vec<(String, Json)> = Vec::new();
    push_member(&mut m, "id", str_json(id));
    push_member(&mut m, "type", str_json("message"));
    push_member(&mut m, "role", str_json("assistant"));
    push_member(&mut m, "model", str_json(model));
    push_member(&mut m, "content", Json::Array(Vec::new()));
    push_member(&mut m, "stop_reason", Json::Null);
    push_member(&mut m, "stop_sequence", Json::Null);
    push_member(&mut m, "usage", encode_usage(usage));
    proof {
        lemma_items_view(Seq::<Json>::empty());
        assert(members_view(m@) =~= seq![
            ("id"@, JsonV::Str(id@)),
            ("type"@, JsonV::Str("message"@)),
            ("role"@, JsonV::Str("assistant"@)),
            ("model"@, JsonV::Str(model@)),
            ("content"@, JsonV::Array(Seq::empty())),
            ("stop_reason"@, JsonV::Null),
            ("stop_sequence"@, JsonV::Null),
            ("usage"@, spec_encode_usage(*usage)),
        ]);
    }
    pair_object("type", str_json("message_start"), "message", Json::object(m))
}

fn empty_block_json(kind: PartKind) -> (res: Json)
    ensures
        res@ == empty_block(kind),
{
    proof {
        reveal_strlit("");
        assert(""@ =~= Seq::<char>::empty());
    }
    match kind {
        PartKind::Thinking => triple_object("type", str_json("thinking"), "thinking", empty_text(), "signature", empty_text()),
        PartKind::ToolUse => tool_block_json("", ""),
        _ => pair_object("type", str_json("text"), "text", empty_text()),
    }
}

fn tool_block_json(id: &str, name: &str) -> (res: Json)
    ensures
        res@ == tool_block(id@, name@),
{
    let mut m: Vec<(String, Json)> = Vec::new();
    push_member(&mut m, "type", str_json("tool_use"));
    push_member(&mut m, "id", str_json(id));
    push_member(&mut m, "name", str_json(name));
    push_member(&mut m, "input", Json::empty_object());
    assert(members_view(m@) =~= seq![
        ("type"@, JsonV::Str("tool_use"@)),
        ("id"@, JsonV::Str(id@)),
        ("name"@, JsonV::Str(name@)),
        ("input"@, JsonV::Object(Seq::empty())),
    ]);
    Json::object(m)
}

/// Stateful Messages stream encoder.
///
/// Shapes any IR event stream into the strict Messages sequence, synthesizing
/// the ceremony a Chat upstream never sends and renumbering sparse IR block
/// indices into consecutive Messages indices.
pub struct MessagesStreamEncoder {
    started: bool,
    id: String,
    model: String,
    input_usage: Usage,
    remap: Vec<(u32, u32)>,
    open: Option<(u32, PartKind)>,
    next_index: u32,
    usage: Usage,
    stop_reason: Option<StopReason>,
    stop_sequence: Option<String>,
    finished: bool,
}

impl View for MessagesStreamEncoder {
    type V = MsgEncoderV;

    closed spec fn view(&self) -> MsgEncoderV {
        MsgEncoderV {
            started: self.started,
            id: self.id@,
            model: self.model@,
            input_usage: self.input_usage,
            remap: self.remap@,
            open: self.open,
            next_index: self.next_index,
            usage: self.usage,
            stop_reason: self.stop_reason,
            stop_sequence: ov(self.stop_sequence),
            finished: self.finished,
        }
    }
}

/// Once a prefix of the index map holds an IR index, the whole map gives its first mapping.
proof fn lemma_remap_find_prefix(remap: Seq<(u32, u32)>, ir: u32, i: int)
    requires
        0 <= i <= remap.len(),
        remap_find(remap.subrange(0, i), ir) is Some,
    ensures
        remap_find(remap, ir) == remap_find(remap.subrange(0, i), ir),
    decreases remap.len() - i,
{
    if i == remap.len() {
        assert(remap.subrange(0, i) =~= remap);
    } else {
        assert(remap.drop_last().subrange(0, i) =~= remap.subrange(0, i));
        lemma_remap_find_prefix(remap.drop_last(), ir, i);
    }
}

impl MessagesStreamEncoder {
    /// An encoder before any event.
    pub fn new() -> (res: MessagesStreamEncoder)
        ensures
            res@ == initial_encoder(),
    {
        MessagesStreamEncoder {
            started: false,
            id: String::new(),
            model: String::new(),
            input_usage: Usage::zero(),
            remap: Vec::new(),
            open: None,
            next_index: 0,
            usage: Usage::zero(),
            stop_reason: None,
            stop_sequence: None,
            finished: false,
        }
    }

    fn ensure_started(&mut self, frames: &mut Vec<SseFrame>, fresh_id: &str)
        ensures
            (final(self)@, frs(final(frames)@)) == enc_ensure_started(old(self)@, frs(old(frames)@), fresh_id@),
    {
        if self.started {
            return;
        }
        self.started = true;
        if self.id.as_str().unicode_len() == 0 {
            self.id = owned(fresh_id);
        }
        let payload = message_start_json(self.id.as_str(), self.model.as_str(), &self.input_usage);
        push_frame(frames, named_frame("message_start", &payload));
    }

    fn anth_index(&mut self, ir: u32) -> (res: u32)
        ensures
            (final(self)@, res) == enc_anth_index(old(self)@, ir),
    {
        let mut i: usize = 0;
        while i < self.remap.len()
            invariant
                i <= self.remap.len(),
                remap_find(self.remap@.subrange(0, i as int), ir) is None,
            decreases self.remap.len() - i,
        {
            assert(self.remap@.subrange(0, i + 1).drop_last() =~= self.remap@.subrange(0, i as int));
            let (from, to) = self.remap[i];
            if from == ir {
                proof {
                    lemma_remap_find_prefix(self.remap@, ir, i + 1);
                }
                return to;
            }
            i = i + 1;
        }
        assert(self.remap@.subrange(0, self.remap.len() as int) =~= self.remap@);
        let mapped = self.next_index;
        self.next_index = next_u32(self.next_index);
        self.remap.push((ir, mapped));
        mapped
    }

    fn close_open(&mut self, frames: &mut Vec<SseFrame>)
        ensures
            (final(self)@, frs(final(frames)@)) == enc_close_open(old(self)@, frs(old(frames)@)),
    {
        if let Some((index, _)) = self.open {
            self.open = None;
            let payload = pair_object("type", str_json("content_block_stop"), "index", Json::uint(index as u64));
            push_frame(frames, named_frame("content_block_stop", &payload));
        }
    }

    fn open_block(&mut self, ir: u32, kind: PartKind, frames: &mut Vec<SseFrame>, fresh_id: &str) -> (res: u32)
        ensures
            (final(self)@, frs(final(frames)@), res) == enc_open_block(old(self)@, frs(old(frames)@), ir, kind, fresh_id@),
    {
        self.ensure_started(frames, fresh_id);
        let index = self.anth_index(ir);
        if let Some((oi, ok)) = self.open {
            if oi == index && ok == kind {
                return index;
            }
        }
        self.close_open(frames);
        let block = empty_block_json(kind);
        let payload = triple_object("type", str_json("content_block_start"), "index", Json::uint(index as u64), "content_block", block);
        push_frame(frames, named_frame("content_block_start", &payload));
        self.open = Some((index, kind));
        index
    }

    fn open_tool_block(&mut self, ir: u32, id: &str, name: &str, frames: &mut Vec<SseFrame>, fresh_id: &str, fresh_tool: &str) -> (res: u32)
        ensures
            (final(self)@, frs(final(frames)@), res) == enc_open_tool_block(old(self)@, frs(old(frames)@), ir, id@, name@, fresh_id@, fresh_tool@),
    {
        self.ensure_started(frames, fresh_id);
        let index = self.anth_index(ir);
        self.close_open(frames);
        let id2: &str = if id.unicode_len() == 0 { fresh_tool } else { id };
        let block = tool_block_json(id2, name);
        let payload = triple_object("type", str_json("content_block_start"), "index", Json::uint(index as u64), "content_block", block);
        push_frame(frames, named_frame("content_block_start", &payload));
        self.open = Some((index, PartKind::ToolUse));
        index
    }

    fn wrap_up(&mut self, frames: &mut Vec<SseFrame>, fresh_id: &str)
        ensures
            (final(self)@, frs(final(frames)@)) == enc_wrap_up(old(self)@, frs(old(frames)@), fresh_id@),
    {
        if self.finished {
            return;
        }
        self.finished = true;
        self.ensure_started(frames, fresh_id);
        self.close_open(frames);
        let reason = match self.stop_reason {
            Some(r) => r,
            None => StopReason::Stop,
        };
        let seq_json = match &self.stop_sequence {
            Some(s) => str_json(s.as_str()),
            None => Json::Null,
        };
        let delta = pair_object("stop_reason", str_json(encode_stop_reason(reason)), "stop_sequence", seq_json);
        let payload = triple_object("type", str_json("message_delta"), "delta", delta, "usage", encode_usage(&self.usage));
        assert(seq_json@ == text_or_null(self@.stop_sequence));
        assert(payload@ == message_delta_payload(reason, self@.stop_sequence, self@.usage));
        push_frame(frames, named_frame("message_delta", &payload));
        push_frame(frames, named_frame("message_stop", &type_only("message_stop")));
    }

    fn delta(&mut self, ir: u32, kind: PartKind, delta: Json, fresh_id: &str) -> (res: Vec<SseFrame>)
        ensures
            (final(self)@, frs(res@)) == enc_delta(old(self)@, ir, kind, delta@, fresh_id@),
    {
        let mut frames: Vec<SseFrame> = Vec::new();
        assert(frs(frames@) =~= Seq::<FrameV>::empty());
        let idx = self.open_block(ir, kind, &mut frames, fresh_id);
        let payload = triple_object("type", str_json("content_block_delta"), "index", Json::uint(idx as u64), "delta", delta);
        push_frame(&mut frames, named_frame("content_block_delta", &payload));
        frames
    }

    /// Encodes one IR event, with the ids a stream or tool block without one gets.
    pub fn encode_with_ids(&mut self, event: &StreamEvent, fresh_id: &str, fresh_tool: &str) -> (res: Vec<SseFrame>)
        ensures
            (final(self)@, frs(res@)) == spec_messages_encode(old(self)@, event@, fresh_id@, fresh_tool@),
    {
        let mut frames: Vec<SseFrame> = Vec::new();
        assert(frs(frames@) =~= Seq::<FrameV>::empty());
        if self.finished {
            return frames;
        }
        match event {
            StreamEvent::Start { id, model, usage } => {
                if !self.started {
                    self.id = owned(id.as_str());
                    self.model = owned(model.as_str());
                    if let Some(u) = usage {
                        self.input_usage = *u;
                        self.usage = *u;
                    }
                }
                self.ensure_started(&mut frames, fresh_id);
                frames
            },
            StreamEvent::ContentStart { index, kind } => {
                if *kind != PartKind::ToolUse {
                    self.open_block(*index, *kind, &mut frames, fresh_id);
                }
                frames
            },
            StreamEvent::TextDelta { index, text } => {
                self.delta(*index, PartKind::Text, pair_object("type", str_json("text_delta"), "text", str_json(text.as_str())), fresh_id)
            },
            StreamEvent::RefusalDelta { index, text } => {
                self.delta(*index, PartKind::Refusal, pair_object("type", str_json("text_delta"), "text", str_json(text.as_str())), fresh_id)
            },
            StreamEvent::ThinkingDelta { index, text } => {
                self.delta(*index, PartKind::Thinking, pair_object("type", str_json("thinking_delta"), "thinking", str_json(text.as_str())), fresh_id)
            },
            StreamEvent::ThinkingSignature { index, signature } => {
                self.delta(*index, PartKind::Thinking, pair_object("type", str_json("signature_delta"), "signature", str_json(signature.as_str())), fresh_id)
            },
            StreamEvent::ToolCallStart { index, id, name, .. } => {
                self.open_tool_block(*index, id.as_str(), name.as_str(), &mut frames, fresh_id, fresh_tool);
                frames
            },
            StreamEvent::ToolCallArgsDelta { index, fragment } => {
                let mapped = self.anth_index(*index);
                let is_open = match self.open {
                    Some((o, k)) => o == mapped && k == PartKind::ToolUse,
                    None => false,
                };
                proof {
                    reveal_strlit("");
                    assert(""@ =~= Seq::<char>::empty());
                }
                let idx = if is_open {
                    mapped
                } else {
                    self.open_tool_block(*index, "", "", &mut frames, fresh_id, fresh_tool)
                };
                let delta = pair_object("type", str_json("input_json_delta"), "partial_json", str_json(fragment.as_str()));
                let payload = triple_object("type", str_json("content_block_delta"), "index", Json::uint(idx as u64), "delta", delta);
                push_frame(&mut frames, named_frame("content_block_delta", &payload));
                frames
            },
            StreamEvent::ContentStop { index } => {
                let idx = self.anth_index(*index);
                let is_open = match self.open {
                    Some((o, _)) => o == idx,
                    None => false,
                };
                if is_open {
                    self.close_open(&mut frames);
                }
                frames
            },
            StreamEvent::Usage(u) => {
                self.usage.input_tokens = usage_max(self.usage.input_tokens, u.input_tokens);
                self.usage.output_tokens = usage_max(self.usage.output_tokens, u.output_tokens);
                self.usage.cached_input_tokens = usage_max(self.usage.cached_input_tokens, u.cached_input_tokens);
                self.usage.cache_write_tokens = usage_max(self.usage.cache_write_tokens, u.cache_write_tokens);
                frames
            },
            StreamEvent::Stop { reason, stop_sequence } => {
                self.stop_reason = Some(*reason);
                if let Some(s) = stop_sequence {
                    self.stop_sequence = Some(owned(s.as_str()));
                }
                frames
            },
            StreamEvent::Done => {
                self.wrap_up(&mut frames, fresh_id);
                frames
            },
            StreamEvent::Ping => {
                push_frame(&mut frames, named_frame("ping", &type_only("ping")));
                assert(frs(frames@) =~= seq![named("ping"@, type_payload("ping"@))]);
                frames
            },
            StreamEvent::Error { message, kind } => {
                let err = pair_object("type", str_json(kind.as_str()), "message", str_json(message.as_str()));
                let payload = pair_object("type", str_json("error"), "error", err);
                push_frame(&mut frames, named_frame("error", &payload));
                assert(frs(frames@) =~= seq![named("error"@, error_payload(kind@, message@))]);
                self.finished = true;
                frames
            },
        }
    }

    /// Encodes one IR event; a stream without an id gets `msg_` and a random UUID without
    /// hyphens, a tool block without one `toolu_` and another.
    pub fn encode(&mut self, event: &StreamEvent) -> (res: Vec<SseFrame>)
        ensures
            exists|u: Seq<char>, v: Seq<char>| uuid_hex(u) && uuid_hex(v)
                && (final(self)@, frs(res@)) == #[trigger] spec_messages_encode(old(self)@, event@, "msg_"@ + u, "toolu_"@ + v),
    {
        let u = random_uuid_hex();
        let v = random_uuid_hex();
        let fresh_id = concat("msg_", u.as_str());
        let fresh_tool = concat("toolu_", v.as_str());
        self.encode_with_ids(event, fresh_id.as_str(), fresh_tool.as_str())
    }

    /// Ends the stream with the id a stream without one gets.
    pub fn finish_with_id(&mut self, fresh_id: &str) -> (res: Vec<SseFrame>)
        ensures
            (final(self)@, frs(res@)) == spec_messages_encode_finish(old(self)@, fresh_id@),
    {
        let mut frames: Vec<SseFrame> = Vec::new();
        assert(frs(frames@) =~= Seq::<FrameV>::empty());
        self.wrap_up(&mut frames, fresh_id);
        frames
    }

    /// Ends the stream: the closing frames unless the stream already ended.
    pub fn finish(&mut self) -> (res: Vec<SseFrame>)
        ensures
            exists|u: Seq<char>| uuid_hex(u) && (final(self)@, frs(res@)) == #[trigger] spec_messages_encode_finish(old(self)@, "msg_"@ + u),
    {
        let u = random_uuid_hex();
        let fresh_id = concat("msg_", u.as_str());
        self.finish_with_id(fresh_id.as_str())
    }
}


impl MessagesCodec {
    /// The protocol this codec speaks.
    pub fn protocol(&self) -> (res: Protocol)
        ensures
            res == Protocol::Messages,
    {
        Protocol::Messages
    }
}


// ---------------------------------------------------------------------------
// Request decoding
// ---------------------------------------------------------------------------

/// A member's value is below the object's members in the order that recursion descends by.
pub proof fn lemma_member_get_decreases(m: Seq<(Seq<char>, JsonV)>, key: Seq<char>)
    requires
        member_get(m, key) is Some,
    ensures
        decreases_to!(m => member_get(m, key)->Some_0),
    decreases m.len(),
{
    if m[0].0 == key {
        assert(decreases_to!(m => m[0]));
        assert(decreases_to!(m[0] => m[0].1));
    } else {
        lemma_member_get_decreases(m.drop_first(), key);
        assert(m.drop_first() == m.subrange(1, m.len() as int));
        assert(decreases_to!(m => m.subrange(1, m.len() as int)));
    }
}

/// Whether a value (an object, or an array holding one) carries a `cache_control` marker.
pub open spec fn spec_has_cache_control(v: JsonV) -> bool
    decreases v,
{
    match v {
        JsonV::Object(m) => member_get(m, "cache_control"@) is Some,
        JsonV::Array(items) => any_cache_control(items),
        _ => false,
    }
}

/// Whether some item carries a `cache_control` marker.
pub open spec fn any_cache_control(items: Seq<JsonV>) -> bool
    decreases items,
{
    if items.len() == 0 {
        false
    } else {
        any_cache_control(items.drop_last()) || spec_has_cache_control(items.last())
    }
}

fn has_cache_control(v: &Json) -> (res: bool)
    ensures
        res == spec_has_cache_control(v@),
    decreases v,
{
    match v {
        Json::Object(_) => v.get("cache_control").is_some(),
        Json::Array(items) => {
            proof {
                lemma_items_view(items@);
            }
            let ghost its = items_view(items@);
            let mut i: usize = 0;
            while i < items.len()
                invariant
                    i <= items.len(),
                    its == items_view(items@),
                    its.len() == items.len(),
                    forall|k: int| 0 <= k < items.len() ==> #[trigger] its[k] == items@[k]@,
                    *v == Json::Array(*items),
                    !any_cache_control(its.subrange(0, i as int)),
                decreases items.len() - i,
            {
                assert(its.subrange(0, i + 1).drop_last() =~= its.subrange(0, i as int));
                proof {
                    vstd::std_specs::vec::axiom_vec_index_decreases(*items, i as int);
                    assert(decreases_to!(*v => (*v)->Array_0));
                }
                if has_cache_control(&items[i]) {
                    proof {
                        lemma_any_prefix(its, i + 1);
                    }
                    return true;
                }
                i = i + 1;
            }
            assert(its.subrange(0, items.len() as int) =~= its);
            false
        },
        _ => false,
    }
}

proof fn lemma_any_prefix(items: Seq<JsonV>, n: int)
    requires
        0 <= n <= items.len(),
        any_cache_control(items.subrange(0, n)),
    ensures
        any_cache_control(items),
    decreases items.len() - n,
{
    if n < items.len() {
        assert(items.subrange(0, n + 1).drop_last() =~= items.subrange(0, n));
        lemma_any_prefix(items, n + 1);
    } else {
        assert(items.subrange(0, n) =~= items);
    }
}

/// The source of a media block and its MIME type, or the text of the error it is refused with.
pub open spec fn spec_decode_source(raw: Option<JsonV>) -> Result<(SourceV, Option<Seq<char>>), Seq<char>> {
    match raw {
        Some(JsonV::Object(m)) => {
            let src = JsonV::Object(m);
            let mime = opt_str(src.get("media_type"@));
            match opt_str(src.get("type"@)) {
                Some(t) => if t == "base64"@ {
                    match opt_str(src.get("data"@)) {
                        Some(d) => Ok((SourceV::Base64(d), mime)),
                        None => Err("base64 source requires a `data` field"@),
                    }
                } else if t == "url"@ {
                    match opt_str(src.get("url"@)) {
                        Some(u) => Ok((SourceV::Url(u), mime)),
                        None => Err("url source requires a `url` field"@),
                    }
                } else if t == "file"@ {
                    match opt_str(src.get("file_id"@)) {
                        Some(id) => Ok((SourceV::FileId(id), mime)),
                        None => Err("file source requires a `file_id` field"@),
                    }
                } else if t == "text"@ {
                    Ok((SourceV::Text(str_or(opt_str(src.get("data"@)), Seq::empty())), mime))
                } else {
                    Err("unsupported source type `"@ + t + "`"@)
                },
                None => Err("media `source` requires a `type` field"@),
            }
        },
        _ => Err("media block requires a `source` object"@),
    }
}

fn decode_source(raw: Option<&Json>) -> (res: Result<(MediaSource, Option<String>), String>)
    ensures
        spec_decode_source(opt_view(raw)) == match res {
            Ok((s, m)) => Ok((s@, ov(m))),
            Err(e) => Err(e@),
        },
{
    let src = match raw {
        Some(j) => j,
        None => return Err(owned("media block requires a `source` object")),
    };
    if !src.is_object() {
        return Err(owned("media block requires a `source` object"));
    }
    let mime = opt_owned(src.get_str("media_type"));
    match src.get_str("type") {
        Some(t) => if text_eq(t, "base64") {
            match src.get_str("data") {
                Some(d) => Ok((MediaSource::Base64(owned(d)), mime)),
                None => Err(owned("base64 source requires a `data` field")),
            }
        } else if text_eq(t, "url") {
            match src.get_str("url") {
                Some(u) => Ok((MediaSource::Url(owned(u)), mime)),
                None => Err(owned("url source requires a `url` field")),
            }
        } else if text_eq(t, "file") {
            match src.get_str("file_id") {
                Some(id) => Ok((MediaSource::FileId(owned(id)), mime)),
                None => Err(owned("file source requires a `file_id` field")),
            }
        } else if text_eq(t, "text") {
            Ok((MediaSource::Text(text_or_empty(src.get_str("data"))), mime))
        } else {
            Err(concat(concat("unsupported source type `", t).as_str(), "`"))
        },
        None => Err(owned("media `source` requires a `type` field")),
    }
}

/// A text field, empty when absent.
pub open spec fn text_or_empty_of(raw: JsonV, key: Seq<char>) -> Seq<char> {
    str_or(opt_str(raw.get(key)), Seq::empty())
}

/// A `tool_use` block as a part, or the text of the error it is refused with.
pub open spec fn spec_tool_use_block(raw: JsonV) -> Result<PartV, Seq<char>> {
    match opt_str(raw.get("id"@)) {
        None => Err("tool_use block requires `id`"@),
        Some(id) => match opt_str(raw.get("name"@)) {
            None => Err("tool_use block requires `name`"@),
            Some(name) => Ok(PartV::ToolUse {
                id,
                name,
                input: match raw.get("input"@) {
                    Some(i) => i,
                    None => JsonV::Object(Seq::empty()),
                },
                signature: None,
            }),
        },
    }
}

fn tool_use_block(raw: &Json) -> (res: Result<ContentPart, String>)
    ensures
        spec_tool_use_block(raw@) == match res {
            Ok(p) => Ok(p@),
            Err(e) => Err(e@),
        },
{
    let id = match raw.get_str("id") {
        Some(i) => owned(i),
        None => return Err(owned("tool_use block requires `id`")),
    };
    let name = match raw.get_str("name") {
        Some(n) => owned(n),
        None => return Err(owned("tool_use block requires `name`")),
    };
    let input = match raw.get("input") {
        Some(i) => i.duplicate(),
        None => Json::empty_object(),
    };
    Ok(ContentPart::ToolUse { id, name, input, signature: None })
}

/// One content block as a part, or the text of the error it is refused with.
///
/// A bare string is text; a block of a type this codec does not model is kept opaque.
pub open spec fn spec_decode_block(raw: JsonV) -> Result<PartV, Seq<char>>
    decreases raw, 1nat,
{
    match raw {
        JsonV::Str(s) => Ok(PartV::Text { text: s }),
        JsonV::Object(m) => {
            let kind = text_or_empty_of(raw, "type"@);
            if kind == "text"@ {
                Ok(PartV::Text { text: text_or_empty_of(raw, "text"@) })
            } else if kind == "image"@ {
                match spec_decode_source(raw.get("source"@)) {
                    Ok((source, mime)) => Ok(PartV::Image { source, mime, detail: None }),
                    Err(e) => Err(e),
                }
            } else if kind == "document"@ {
                match spec_decode_source(raw.get("source"@)) {
                    Ok((source, mime)) => Ok(PartV::File { source, mime, name: opt_str(raw.get("title"@)) }),
                    Err(e) => Err(e),
                }
            } else if kind == "thinking"@ {
                Ok(PartV::Thinking { text: text_or_empty_of(raw, "thinking"@), signature: opt_str(raw.get("signature"@)) })
            } else if kind == "redacted_thinking"@ {
                Ok(PartV::RedactedThinking { data: text_or_empty_of(raw, "data"@) })
            } else if kind == "tool_use"@ {
                spec_tool_use_block(raw)
            } else if kind == "tool_result"@ {
                spec_tool_result_block(raw)
            } else if kind.len() == 0 {
                Err("content block requires a `type` field"@)
            } else {
                Ok(PartV::Opaque { protocol: "messages"@, value: raw })
            }
        },
        _ => Err("content block must be an object"@),
    }
}

/// A `tool_result` block as a part, or the text of the error it (or a nested block) is refused with.
pub open spec fn spec_tool_result_block(raw: JsonV) -> Result<PartV, Seq<char>>
    decreases raw, 0nat,
{
    match raw {
        JsonV::Object(m) => match opt_str(raw.get("tool_use_id"@)) {
            None => Err("tool_result block requires `tool_use_id`"@),
            Some(id) => {
                let content = match member_get(m, "content"@) {
                    Some(JsonV::Str(s)) => Ok(seq![PartV::Text { text: s }]),
                    Some(JsonV::Array(items)) => {
                        proof {
                            lemma_member_get_decreases(m, "content"@);
                        }
                        spec_decode_blocks(items)
                    },
                    Some(JsonV::Null) => Ok(Seq::empty()),
                    None => Ok(Seq::empty()),
                    Some(other) => Ok(seq![PartV::Text { text: json_render(other) }]),
                };
                match content {
                    Ok(c) => Ok(PartV::ToolResult {
                        id,
                        name: None,
                        content: c,
                        is_error: match opt_bool(raw.get("is_error"@)) {
                            Some(b) => b,
                            None => false,
                        },
                    }),
                    Err(e) => Err(e),
                }
            },
        },
        _ => Err("content block must be an object"@),
    }
}

/// A run of content blocks as parts, or the text of the first block's error.
pub open spec fn spec_decode_blocks(items: Seq<JsonV>) -> Result<Seq<PartV>, Seq<char>>
    decreases items, 0nat,
{
    if items.len() == 0 {
        Ok(Seq::empty())
    } else {
        match spec_decode_blocks(items.drop_last()) {
            Err(e) => Err(e),
            Ok(prev) => match spec_decode_block(items.last()) {
                Err(e) => Err(e),
                Ok(p) => Ok(prev.push(p)),
            },
        }
    }
}

proof fn lemma_blocks_err(items: Seq<JsonV>, n: int)
    requires
        0 <= n <= items.len(),
        spec_decode_blocks(items.subrange(0, n)) is Err,
    ensures
        spec_decode_blocks(items) == spec_decode_blocks(items.subrange(0, n)),
    decreases items.len(),
{
    if n == items.len() {
        assert(items.subrange(0, n) =~= items);
    } else {
        assert(items.drop_last().subrange(0, n) =~= items.subrange(0, n));
        lemma_blocks_err(items.drop_last(), n);
    }
}

fn one_part(p: ContentPart) -> (res: Vec<ContentPart>)
    ensures
        pv(res) == seq![p@],
{
    let mut v: Vec<ContentPart> = Vec::new();
    v.push(p);
    proof {
        lemma_parts_view(v@);
        assert(pv(v) =~= seq![p@]);
    }
    v
}

fn tool_result_block(raw: &Json) -> (res: Result<ContentPart, String>)
    ensures
        spec_tool_result_block(raw@) == match res {
            Ok(p) => Ok(p@),
            Err(e) => Err(e@),
        },
    decreases raw@, 0nat,
{
    let members = match raw {
        Json::Object(m) => m,
        _ => return Err(owned("content block must be an object")),
    };
    let id = match raw.get_str("tool_use_id") {
        Some(i) => owned(i),
        None => return Err(owned("tool_result block requires `tool_use_id`")),
    };
    let content: Vec<ContentPart> = match raw.get("content") {
        Some(Json::Str(s)) => one_part(ContentPart::text(s.as_str())),
        Some(Json::Array(items)) => {
            proof {
                lemma_member_get_decreases(members_view(members@), "content"@);
                assert(decreases_to!(raw@ => items_view(items@)));
            }
            match decode_blocks(items) {
                Ok(c) => c,
                Err(e) => return Err(e),
            }
        },
        Some(Json::Null) => Vec::new(),
        None => Vec::new(),
        Some(other) => one_part(ContentPart::text(other.render().as_str())),
    };
    proof {
        lemma_parts_view(content@);
    }
    let is_error = match raw.get_bool("is_error") {
        Some(b) => b,
        None => false,
    };
    Ok(ContentPart::ToolResult { id, name: None, content, is_error })
}

fn decode_block(raw: &Json) -> (res: Result<ContentPart, String>)
    ensures
        spec_decode_block(raw@) == match res {
            Ok(p) => Ok(p@),
            Err(e) => Err(e@),
        },
    decreases raw@, 1nat,
{
    match raw {
        Json::Str(s) => return Ok(ContentPart::text(s.as_str())),
        Json::Object(_) => {},
        _ => return Err(owned("content block must be an object")),
    };
    let kind = match raw.get_str("type") {
        Some(k) => k,
        None => "",
    };
    proof {
        reveal_strlit("");
        reveal_strlit("text");
        reveal_strlit("image");
        reveal_strlit("document");
        reveal_strlit("thinking");
        reveal_strlit("redacted_thinking");
        reveal_strlit("tool_use");
        reveal_strlit("tool_result");
        assert(raw@ is Object);
        assert(text_or_empty_of(raw@, "type"@) == kind@);
    }
    if text_eq(kind, "text") {
        Ok(ContentPart::Text { text: text_or_empty(raw.get_str("text")) })
    } else if text_eq(kind, "image") {
        match decode_source(raw.get("source")) {
            Ok((source, mime)) => Ok(ContentPart::Image { source, mime, detail: None }),
            Err(e) => Err(e),
        }
    } else if text_eq(kind, "document") {
        match decode_source(raw.get("source")) {
            Ok((source, mime)) => Ok(ContentPart::File { source, mime, name: opt_owned(raw.get_str("title")) }),
            Err(e) => Err(e),
        }
    } else if text_eq(kind, "thinking") {
        Ok(ContentPart::Thinking { text: text_or_empty(raw.get_str("thinking")), signature: opt_owned(raw.get_str("signature")) })
    } else if text_eq(kind, "redacted_thinking") {
        Ok(ContentPart::RedactedThinking { data: text_or_empty(raw.get_str("data")) })
    } else if text_eq(kind, "tool_use") {
        tool_use_block(raw)
    } else if text_eq(kind, "tool_result") {
        tool_result_block(raw)
    } else if kind.unicode_len() == 0 {
        Err(owned("content block requires a `type` field"))
    } else {
        Ok(ContentPart::Opaque { protocol: owned("messages"), value: raw.duplicate() })
    }
}

fn decode_blocks(items: &Vec<Json>) -> (res: Result<Vec<ContentPart>, String>)
    ensures
        spec_decode_blocks(items_view(items@)) == match res {
            Ok(p) => Ok(pv(p)),
            Err(e) => Err(e@),
        },
    decreases items_view(items@), 0nat,
{
    proof {
        lemma_items_view(items@);
    }
    let ghost its = items_view(items@);
    let mut out: Vec<ContentPart> = Vec::new();
    proof {
        lemma_parts_view(out@);
        assert(its.subrange(0, 0) =~= Seq::<JsonV>::empty());
    }
    let mut i: usize = 0;
    while i < items.len()
        invariant
            i <= items.len(),
            its == items_view(items@),
            its.len() == items.len(),
            forall|k: int| 0 <= k < items.len() ==> #[trigger] its[k] == items@[k]@,
            spec_decode_blocks(its.subrange(0, i as int)) == Ok::<Seq<PartV>, Seq<char>>(pv(out)),
        decreases items.len() - i,
    {
        assert(its.subrange(0, i + 1).drop_last() =~= its.subrange(0, i as int));
        assert(its.subrange(0, i + 1).last() == its[i as int]);
        proof {
            assert(decreases_to!(its => its[i as int]));
        }
        match decode_block(&items[i]) {
            Err(e) => {
                proof {
                    lemma_blocks_err(its, i + 1);
                }
                return Err(e);
            },
            Ok(p) => {
                let ghost o = out@;
                out.push(p);
                proof {
                    lemma_parts_view_push(o, p);
                }
            },
        }
        i = i + 1;
    }
    assert(its.subrange(0, items.len() as int) =~= its);
    Ok(out)
}


/// `system`: a text (none when empty), an array of content blocks, or null.
pub open spec fn spec_decode_system(raw: JsonV) -> Result<Seq<PartV>, Seq<char>> {
    match raw {
        JsonV::Str(s) => if s.len() == 0 {
            Ok(Seq::empty())
        } else {
            Ok(seq![PartV::Text { text: s }])
        },
        JsonV::Array(items) => spec_decode_blocks(items),
        JsonV::Null => Ok(Seq::empty()),
        _ => Err("field `system` must be a string or an array of content blocks"@),
    }
}

fn decode_system(raw: &Json) -> (res: Result<Vec<ContentPart>, String>)
    ensures
        spec_decode_system(raw@) == match res {
            Ok(p) => Ok(pv(p)),
            Err(e) => Err(e@),
        },
{
    match raw {
        Json::Str(s) => if s.unicode_len() == 0 {
            let v: Vec<ContentPart> = Vec::new();
            proof {
                lemma_parts_view(v@);
            }
            Ok(v)
        } else {
            Ok(one_part(ContentPart::text(s.as_str())))
        },
        Json::Array(items) => decode_blocks(items),
        Json::Null => {
            let v: Vec<ContentPart> = Vec::new();
            proof {
                lemma_parts_view(v@);
            }
            Ok(v)
        },
        _ => Err(owned("field `system` must be a string or an array of content blocks")),
    }
}

/// `messages[` + `i` + `tail`.
pub open spec fn msg_text(i: nat, tail: Seq<char>) -> Seq<char> {
    "messages["@ + decimal(i) + tail
}

fn msg_error(i: usize, tail: &str) -> (res: String)
    ensures
        res@ == msg_text(i as nat, tail@),
{
    let head = concat("messages[", decimal_text(i as u64).as_str());
    concat(head.as_str(), tail)
}

/// Whether every part is a tool result.
pub open spec fn all_tool_results(parts: Seq<PartV>) -> bool {
    forall|k: int| 0 <= k < parts.len() ==> #[trigger] parts[k] is ToolResult
}

/// The role of a wire message.
pub open spec fn spec_message_role(raw: JsonV, i: nat) -> Result<Role, Seq<char>> {
    match opt_str(raw.get("role"@)) {
        Some(r) => if r == "user"@ {
            Ok(Role::User)
        } else if r == "assistant"@ {
            Ok(Role::Assistant)
        } else if r == "system"@ {
            Ok(Role::System)
        } else {
            Err(msg_text(i, "].role must be `user` or `assistant`, got `"@ + r + "`"@))
        },
        None => Err(msg_text(i, "].role is required"@)),
    }
}

/// The content of a wire message.
pub open spec fn spec_message_content(raw: JsonV, i: nat) -> Result<Seq<PartV>, Seq<char>> {
    match raw.get("content"@) {
        Some(JsonV::Str(s)) => Ok(seq![PartV::Text { text: s }]),
        Some(JsonV::Array(items)) => spec_decode_blocks(items),
        Some(JsonV::Null) => Ok(Seq::empty()),
        None => Ok(Seq::empty()),
        Some(_) => Err(msg_text(i, "].content must be a string or an array of content blocks"@)),
    }
}

/// Message `i` of the wire request, or the text of the error it is refused with.
///
/// A user message made only of tool results is a tool message.
pub open spec fn spec_decode_message(raw: JsonV, i: nat) -> Result<MessageV, Seq<char>> {
    match raw {
        JsonV::Object(_) => match spec_message_role(raw, i) {
            Err(e) => Err(e),
            Ok(role) => match spec_message_content(raw, i) {
                Err(e) => Err(e),
                Ok(c) => Ok(MessageV {
                    role: if role == Role::User && c.len() > 0 && all_tool_results(c) {
                        Role::Tool
                    } else {
                        role
                    },
                    content: c,
                    name: None,
                }),
            },
        },
        _ => Err(msg_text(i, "] must be an object"@)),
    }
}

fn message_role(raw: &Json, i: usize) -> (res: Result<Role, String>)
    ensures
        spec_message_role(raw@, i as nat) == match res {
            Ok(r) => Ok(r),
            Err(e) => Err(e@),
        },
{
    match raw.get_str("role") {
        Some(r) => if text_eq(r, "user") {
            Ok(Role::User)
        } else if text_eq(r, "assistant") {
            Ok(Role::Assistant)
        } else if text_eq(r, "system") {
            Ok(Role::System)
        } else {
            let tail = concat(concat("].role must be `user` or `assistant`, got `", r).as_str(), "`");
            Err(msg_error(i, tail.as_str()))
        },
        None => Err(msg_error(i, "].role is required")),
    }
}

fn message_content(raw: &Json, i: usize) -> (res: Result<Vec<ContentPart>, String>)
    ensures
        spec_message_content(raw@, i as nat) == match res {
            Ok(p) => Ok(pv(p)),
            Err(e) => Err(e@),
        },
{
    match raw.get("content") {
        Some(Json::Str(s)) => Ok(one_part(ContentPart::text(s.as_str()))),
        Some(Json::Array(items)) => decode_blocks(items),
        Some(Json::Null) | None => {
            let v: Vec<ContentPart> = Vec::new();
            proof {
                lemma_parts_view(v@);
            }
            Ok(v)
        },
        Some(_) => Err(msg_error(i, "].content must be a string or an array of content blocks")),
    }
}

fn only_tool_results(parts: &Vec<ContentPart>) -> (res: bool)
    ensures
        res == all_tool_results(pv(*parts)),
{
    proof {
        lemma_parts_view(parts@);
    }
    let mut i: usize = 0;
    while i < parts.len()
        invariant
            i <= parts.len(),
            pv(*parts).len() == parts.len(),
            forall|k: int| 0 <= k < parts.len() ==> #[trigger] pv(*parts)[k] == parts@[k]@,
            forall|k: int| 0 <= k < i ==> #[trigger] pv(*parts)[k] is ToolResult,
        decreases parts.len() - i,
    {
        match &parts[i] {
            ContentPart::ToolResult { .. } => {},
            _ => {
                assert(!(pv(*parts)[i as int] is ToolResult));
                return false;
            },
        }
        i = i + 1;
    }
    true
}

fn decode_message(raw: &Json, i: usize) -> (res: Result<Message, String>)
    ensures
        spec_decode_message(raw@, i as nat) == match res {
            Ok(m) => Ok(m@),
            Err(e) => Err(e@),
        },
{
    if !raw.is_object() {
        return Err(msg_error(i, "] must be an object"));
    }
    let role = match message_role(raw, i) {
        Ok(r) => r,
        Err(e) => return Err(e),
    };
    let content = match message_content(raw, i) {
        Ok(c) => c,
        Err(e) => return Err(e),
    };
    proof {
        lemma_parts_view(content@);
    }
    let role = if role == Role::User && content.len() > 0 && only_tool_results(&content) {
        Role::Tool
    } else {
        role
    };
    Ok(Message::new(role, content))
}

/// The wire messages in order, or the text of the first one's error.
pub open spec fn spec_decode_messages(items: Seq<JsonV>) -> Result<Seq<MessageV>, Seq<char>>
    decreases items.len(),
{
    if items.len() == 0 {
        Ok(Seq::empty())
    } else {
        match spec_decode_messages(items.drop_last()) {
            Err(e) => Err(e),
            Ok(prev) => match spec_decode_message(items.last(), (items.len() - 1) as nat) {
                Err(e) => Err(e),
                Ok(m) => Ok(prev.push(m)),
            },
        }
    }
}

proof fn lemma_messages_err(items: Seq<JsonV>, n: int)
    requires
        0 <= n <= items.len(),
        spec_decode_messages(items.subrange(0, n)) is Err,
    ensures
        spec_decode_messages(items) == spec_decode_messages(items.subrange(0, n)),
    decreases items.len(),
{
    if n == items.len() {
        assert(items.subrange(0, n) =~= items);
    } else {
        assert(items.drop_last().subrange(0, n) =~= items.subrange(0, n));
        lemma_messages_err(items.drop_last(), n);
    }
}

fn decode_messages(items: &Vec<Json>) -> (res: Result<Vec<Message>, String>)
    ensures
        spec_decode_messages(items_view(items@)) == match res {
            Ok(ms) => Ok(msgs(ms@)),
            Err(e) => Err(e@),
        },
{
    proof {
        lemma_items_view(items@);
    }
    let ghost its = items_view(items@);
    let mut out: Vec<Message> = Vec::new();
    assert(its.subrange(0, 0) =~= Seq::<JsonV>::empty());
    assert(msgs(out@) =~= Seq::<MessageV>::empty());
    let mut i: usize = 0;
    while i < items.len()
        invariant
            i <= items.len(),
            its == items_view(items@),
            its.len() == items.len(),
            forall|k: int| 0 <= k < items.len() ==> #[trigger] its[k] == items@[k]@,
            spec_decode_messages(its.subrange(0, i as int)) == Ok::<Seq<MessageV>, Seq<char>>(msgs(out@)),
        decreases items.len() - i,
    {
        assert(its.subrange(0, i + 1).drop_last() =~= its.subrange(0, i as int));
        assert(its.subrange(0, i + 1).last() == its[i as int]);
        match decode_message(&items[i], i) {
            Err(e) => {
                proof {
                    lemma_messages_err(its, i + 1);
                }
                return Err(e);
            },
            Ok(m) => {
                let ghost o = out@;
                out.push(m);
                assert(msgs(out@) =~= msgs(o).push(m@));
            },
        }
        i = i + 1;
    }
    assert(its.subrange(0, items.len() as int) =~= its);
    Ok(out)
}

/// `tools[]`: the function tools, their raw definitions, the server tools (those without an
/// input schema), and whether a function tool carries a cache marker; or the error of a
/// function tool without a name.
pub open spec fn spec_decode_tools(ts: Seq<JsonV>) -> Result<(Seq<ToolV>, Seq<JsonV>, Seq<JsonV>, bool), Seq<char>>
    decreases ts.len(),
{
    if ts.len() == 0 {
        Ok((Seq::empty(), Seq::empty(), Seq::empty(), false))
    } else {
        match spec_decode_tools(ts.drop_last()) {
            Err(e) => Err(e),
            Ok((tools, raws, servers, cc)) => {
                let t = ts.last();
                match t.get("input_schema"@) {
                    None => Ok((tools, raws, servers.push(t), cc)),
                    Some(schema) => match opt_str(t.get("name"@)) {
                        None => Err("each tool requires a `name`"@),
                        Some(name) => Ok((
                            tools.push(ToolV { name, description: opt_str(t.get("description"@)), parameters: schema, strict: None }),
                            raws.push(t),
                            servers,
                            cc || spec_has_cache_control(t),
                        )),
                    },
                }
            },
        }
    }
}

proof fn lemma_tools_err(ts: Seq<JsonV>, n: int)
    requires
        0 <= n <= ts.len(),
        spec_decode_tools(ts.subrange(0, n)) is Err,
    ensures
        spec_decode_tools(ts) == spec_decode_tools(ts.subrange(0, n)),
    decreases ts.len(),
{
    if n == ts.len() {
        assert(ts.subrange(0, n) =~= ts);
    } else {
        assert(ts.drop_last().subrange(0, n) =~= ts.subrange(0, n));
        lemma_tools_err(ts.drop_last(), n);
    }
}

fn decode_tools(ts: &Vec<Json>) -> (res: Result<(Vec<ToolDef>, Vec<Json>, Vec<Json>, bool), String>)
    ensures
        spec_decode_tools(items_view(ts@)) == match res {
            Ok((tools, raws, servers, cc)) => Ok((tls(tools@), items_view(raws@), items_view(servers@), cc)),
            Err(e) => Err(e@),
        },
{
    proof {
        lemma_items_view(ts@);
    }
    let ghost its = items_view(ts@);
    let mut tools: Vec<ToolDef> = Vec::new();
    let mut raws: Vec<Json> = Vec::new();
    let mut servers: Vec<Json> = Vec::new();
    let mut cc = false;
    proof {
        lemma_items_view(raws@);
        lemma_items_view(servers@);
        assert(its.subrange(0, 0) =~= Seq::<JsonV>::empty());
        assert(tls(tools@) =~= Seq::<ToolV>::empty());
        assert(items_view(raws@) =~= Seq::<JsonV>::empty());
        assert(items_view(servers@) =~= Seq::<JsonV>::empty());
    }
    let mut i: usize = 0;
    while i < ts.len()
        invariant
            i <= ts.len(),
            its == items_view(ts@),
            its.len() == ts.len(),
            forall|k: int| 0 <= k < ts.len() ==> #[trigger] its[k] == ts@[k]@,
            spec_decode_tools(its.subrange(0, i as int)) == Ok::<(Seq<ToolV>, Seq<JsonV>, Seq<JsonV>, bool), Seq<char>>(
                (tls(tools@), items_view(raws@), items_view(servers@), cc)),
        decreases ts.len() - i,
    {
        assert(its.subrange(0, i + 1).drop_last() =~= its.subrange(0, i as int));
        assert(its.subrange(0, i + 1).last() == its[i as int]);
        let t = &ts[i];
        match t.get("input_schema") {
            None => {
                push_json(&mut servers, t.duplicate());
            },
            Some(schema) => match t.get_str("name") {
                None => {
                    proof {
                        lemma_tools_err(its, i + 1);
                    }
                    return Err(owned("each tool requires a `name`"));
                },
                Some(name) => {
                    let tool = ToolDef { name: owned(name), description: opt_owned(t.get_str("description")), parameters: schema.duplicate(), strict: None };
                    let ghost o = tools@;
                    tools.push(tool);
                    assert(tls(tools@) =~= tls(o).push(tool@));
                    push_json(&mut raws, t.duplicate());
                    cc = cc || has_cache_control(t);
                },
            },
        }
        i = i + 1;
    }
    assert(its.subrange(0, ts.len() as int) =~= its);
    Ok((tools, raws, servers, cc))
}

/// `tool_choice` and the parallel-call permission it carries (`disable_parallel_tool_use` negated).
pub open spec fn spec_decode_tool_choice(raw: JsonV) -> (ChoiceV, Option<bool>) {
    let parallel = match opt_bool(raw.get("disable_parallel_tool_use"@)) {
        Some(d) => Some(!d),
        None => None,
    };
    let choice = match opt_str(raw.get("type"@)) {
        Some(t) => if t == "auto"@ {
            ChoiceV::Auto
        } else if t == "any"@ {
            ChoiceV::Required
        } else if t == "none"@ {
            ChoiceV::NoTool
        } else if t == "tool"@ {
            match opt_str(raw.get("name"@)) {
                Some(n) => ChoiceV::Tool(n),
                None => ChoiceV::Required,
            }
        } else {
            ChoiceV::Unspecified
        },
        None => ChoiceV::Unspecified,
    };
    (choice, parallel)
}

fn decode_tool_choice(raw: &Json) -> (res: (ToolChoice, Option<bool>))
    ensures
        (res.0@, res.1) == spec_decode_tool_choice(raw@),
{
    let parallel = match raw.get_bool("disable_parallel_tool_use") {
        Some(d) => Some(!d),
        None => None,
    };
    let choice = match raw.get_str("type") {
        Some(t) => if text_eq(t, "auto") {
            ToolChoice::Auto
        } else if text_eq(t, "any") {
            ToolChoice::Required
        } else if text_eq(t, "none") {
            ToolChoice::NoTool
        } else if text_eq(t, "tool") {
            match raw.get_str("name") {
                Some(n) => ToolChoice::Tool(owned(n)),
                None => ToolChoice::Required,
            }
        } else {
            ToolChoice::Unspecified
        },
        None => ToolChoice::Unspecified,
    };
    (choice, parallel)
}

/// `thinking`: enabled with an optional budget (truncated to 32 bits), or disabled.
pub open spec fn spec_decode_thinking(raw: JsonV) -> Option<ReasoningV> {
    match opt_str(raw.get("type"@)) {
        Some(t) => if t == "enabled"@ {
            Some(ReasoningV {
                effort: None,
                budget_tokens: match opt_u64(raw.get("budget_tokens"@)) {
                    Some(v) => Some(v as u32),
                    None => None,
                },
                include_thoughts: Some(true),
            })
        } else if t == "disabled"@ {
            Some(ReasoningV { effort: Some("none"@), budget_tokens: None, include_thoughts: Some(false) })
        } else {
            None
        },
        None => None,
    }
}

fn decode_thinking(raw: &Json) -> (res: Option<ReasoningConfig>)
    ensures
        match res {
            Some(r) => spec_decode_thinking(raw@) == Some(r@),
            None => spec_decode_thinking(raw@) is None,
        },
{
    match raw.get_str("type") {
        Some(t) => if text_eq(t, "enabled") {
            let budget = match raw.get_u64("budget_tokens") {
                Some(v) => Some(v as u32),
                None => None,
            };
            Some(ReasoningConfig { effort: None, budget_tokens: budget, include_thoughts: Some(true) })
        } else if text_eq(t, "disabled") {
            Some(ReasoningConfig { effort: Some(owned("none")), budget_tokens: None, include_thoughts: Some(false) })
        } else {
            None
        },
        None => None,
    }
}

/// The members of `metadata` other than `user_id`, in order.
pub open spec fn without_user_id(m: Seq<(Seq<char>, JsonV)>) -> Seq<(Seq<char>, JsonV)>
    decreases m.len(),
{
    if m.len() == 0 {
        Seq::empty()
    } else if m.last().0 == "user_id"@ {
        without_user_id(m.drop_last())
    } else {
        without_user_id(m.drop_last()).push(m.last())
    }
}

fn metadata_rest(members: &Vec<(String, Json)>) -> (res: Vec<(String, Json)>)
    ensures
        members_view(res@) == without_user_id(members_view(members@)),
{
    proof {
        lemma_members_view(members@);
    }
    let ghost ms = members_view(members@);
    let mut out: Vec<(String, Json)> = Vec::new();
    proof {
        lemma_members_view(out@);
        assert(ms.subrange(0, 0) =~= Seq::<(Seq<char>, JsonV)>::empty());
    }
    let mut i: usize = 0;
    while i < members.len()
        invariant
            i <= members.len(),
            ms == members_view(members@),
            ms.len() == members.len(),
            forall|k: int| 0 <= k < members.len() ==> #[trigger] ms[k] == (members@[k].0@, members@[k].1@),
            members_view(out@) == without_user_id(ms.subrange(0, i as int)),
        decreases members.len() - i,
    {
        assert(ms.subrange(0, i + 1).drop_last() =~= ms.subrange(0, i as int));
        assert(ms.subrange(0, i + 1).last() == ms[i as int]);
        if !text_eq(members[i].0.as_str(), "user_id") {
            push_member(&mut out, members[i].0.as_str(), members[i].1.duplicate());
        }
        i = i + 1;
    }
    assert(ms.subrange(0, members.len() as int) =~= ms);
    out
}

/// The top-level request fields this codec reads itself.
pub open spec fn messages_known_request_field(k: Seq<char>) -> bool {
    k == "model"@ || k == "max_tokens"@ || k == "stream"@ || k == "system"@ || k == "messages"@
        || k == "tools"@ || k == "tool_choice"@ || k == "thinking"@ || k == "temperature"@
        || k == "top_p"@ || k == "top_k"@ || k == "stop_sequences"@ || k == "metadata"@
}

fn is_known_request_field(k: &str) -> (res: bool)
    ensures
        res == messages_known_request_field(k@),
{
    text_eq(k, "model") || text_eq(k, "max_tokens") || text_eq(k, "stream") || text_eq(k, "system")
        || text_eq(k, "messages") || text_eq(k, "tools") || text_eq(k, "tool_choice") || text_eq(k, "thinking")
        || text_eq(k, "temperature") || text_eq(k, "top_p") || text_eq(k, "top_k")
        || text_eq(k, "stop_sequences") || text_eq(k, "metadata")
}

fn collect_unknown_request(members: &Vec<(String, Json)>, ext: &mut Extensions)
    ensures
        final(ext)@ == collect_unknown(members_view(members@), |k: Seq<char>| messages_known_request_field(k), "messages."@, old(ext)@),
{
    proof {
        lemma_members_view(members@);
    }
    let ghost ms = members_view(members@);
    let ghost known = |k: Seq<char>| messages_known_request_field(k);
    let mut i: usize = 0;
    while i < members.len()
        invariant
            i <= members.len(),
            ms.len() == members.len(),
            forall|k: int| 0 <= k < members.len() ==> #[trigger] ms[k] == (members@[k].0@, members@[k].1@),
            known == (|k: Seq<char>| messages_known_request_field(k)),
            ext@ == collect_unknown(ms.subrange(0, i as int), known, "messages."@, old(ext)@),
        decreases members.len() - i,
    {
        assert(ms.subrange(0, i + 1).drop_last() =~= ms.subrange(0, i as int));
        let (k, v) = &members[i];
        if !is_known_request_field(k.as_str()) {
            ext.insert(concat("messages.", k.as_str()), v.duplicate());
        }
        i = i + 1;
    }
    assert(ms.subrange(0, members.len() as int) =~= ms);
}


/// `max_tokens`, required: a non-negative integer, truncated to 32 bits.
pub open spec fn spec_max_tokens(v: Option<JsonV>) -> Result<u32, Seq<char>> {
    match v {
        Some(JsonV::Number(n)) => match JsonV::Number(n).as_u64() {
            Some(x) => Ok(x as u32),
            None => Err("field `max_tokens` must be a positive integer"@),
        },
        Some(_) => Err("field `max_tokens` must be a positive integer"@),
        None => Err("field `max_tokens` is required by the Anthropic Messages API"@),
    }
}

/// The extensions a decoded request carries, in the order they are stored: the raw system
/// prompt (only when it carries cache markers), the server tools, the raw function tools (only
/// when one carries a cache marker), the rest of `metadata`, and the unknown top-level fields.
pub open spec fn decoded_request_ext(raw: JsonV, servers: Seq<JsonV>, raws: Seq<JsonV>, cc: bool) -> Seq<(Seq<char>, JsonV)> {
    let e0: Seq<(Seq<char>, JsonV)> = Seq::empty();
    let e1 = match raw.get("system"@) {
        Some(s) => if spec_has_cache_control(s) { ext_insert(e0, "messages.system_raw"@, s) } else { e0 },
        None => e0,
    };
    let e2 = if servers.len() > 0 { ext_insert(e1, "messages.server_tools"@, JsonV::Array(servers)) } else { e1 };
    let e3 = if cc { ext_insert(e2, "messages.tools_raw"@, JsonV::Array(raws)) } else { e2 };
    let e4 = match raw.get("metadata"@) {
        Some(JsonV::Object(meta)) => if without_user_id(meta).len() > 0 {
            ext_insert(e3, "messages.metadata"@, JsonV::Object(without_user_id(meta)))
        } else {
            e3
        },
        _ => e3,
    };
    match raw {
        JsonV::Object(members) => collect_unknown(members, |k: Seq<char>| messages_known_request_field(k), "messages."@, e4),
        _ => e4,
    }
}

/// The request a Messages body decodes to, or the text of the error it is refused with.
pub open spec fn spec_messages_decode_request(raw: JsonV) -> Result<RequestV, Seq<char>> {
    match raw {
        JsonV::Object(_) => match non_empty(opt_str(raw.get("model"@))) {
            None => Err("field `model` is required"@),
            Some(model) => match spec_max_tokens(raw.get("max_tokens"@)) {
                Err(e) => Err(e),
                Ok(max_tokens) => match (match raw.get("system"@) {
                    Some(s) => spec_decode_system(s),
                    None => Ok(Seq::empty()),
                }) {
                    Err(e) => Err(e),
                    Ok(system) => match raw.get("messages"@) {
                        Some(JsonV::Array(items)) => match spec_decode_messages(items) {
                            Err(e) => Err(e),
                            Ok(messages) => match (match raw.get("tools"@) {
                                Some(JsonV::Array(ts)) => spec_decode_tools(ts),
                                _ => Ok((Seq::empty(), Seq::empty(), Seq::empty(), false)),
                            }) {
                                Err(e) => Err(e),
                                Ok((tools, raws, servers, cc)) => {
                                    let (tool_choice, parallel) = match raw.get("tool_choice"@) {
                                        Some(c) => spec_decode_tool_choice(c),
                                        None => (ChoiceV::Unspecified, None),
                                    };
                                    let stream = match opt_bool(raw.get("stream"@)) {
                                        Some(b) => b,
                                        None => false,
                                    };
                                    Ok(RequestV {
                                        model,
                                        system,
                                        messages,
                                        tools,
                                        tool_choice,
                                        parallel_tool_calls: parallel,
                                        sampling: SamplingV {
                                            temperature: spec_as_number(raw.get("temperature"@)),
                                            top_p: spec_as_number(raw.get("top_p"@)),
                                            top_k: match opt_u64(raw.get("top_k"@)) {
                                                Some(v) => Some(v as u32),
                                                None => None,
                                            },
                                            frequency_penalty: None,
                                            presence_penalty: None,
                                            stop: match raw.get("stop_sequences"@) {
                                                Some(JsonV::Array(a)) => texts_of(a),
                                                _ => Seq::empty(),
                                            },
                                            seed: None,
                                            candidate_count: None,
                                        },
                                        max_output_tokens: Some(max_tokens),
                                        stream,
                                        stream_include_usage: stream,
                                        reasoning: match raw.get("thinking"@) {
                                            Some(t) => spec_decode_thinking(t),
                                            None => None,
                                        },
                                        response_format: None,
                                        user: opt_str(opt_get(raw.get("metadata"@), "user_id"@)),
                                        extensions: decoded_request_ext(raw, servers, raws, cc),
                                    })
                                },
                            },
                        },
                        _ => Err("field `messages` must be an array"@),
                    },
                },
            },
        },
        _ => Err("request body must be a JSON object"@),
    }
}

fn max_tokens_of(v: Option<&Json>) -> (res: Result<u32, String>)
    ensures
        spec_max_tokens(opt_view(v)) == match res {
            Ok(n) => Ok(n),
            Err(e) => Err(e@),
        },
{
    match v {
        Some(j) => match j {
            Json::Number(_) => match j.as_u64() {
                Some(x) => Ok(x as u32),
                None => Err(owned("field `max_tokens` must be a positive integer")),
            },
            _ => Err(owned("field `max_tokens` must be a positive integer")),
        },
        None => Err(owned("field `max_tokens` is required by the Anthropic Messages API")),
    }
}

fn decoded_ext(raw: &Json, servers: Vec<Json>, raws: Vec<Json>, cc: bool) -> (res: Extensions)
    ensures
        res@ == decoded_request_ext(raw@, items_view(servers@), items_view(raws@), cc),
{
    proof {
        lemma_items_view(servers@);
    }
    let mut ext = Extensions::new();
    assert(ext@ =~= Seq::<(Seq<char>, JsonV)>::empty());
    if let Some(s) = raw.get("system") {
        if has_cache_control(s) {
            ext.insert(owned("messages.system_raw"), s.duplicate());
        }
    }
    if servers.len() > 0 {
        ext.insert(owned("messages.server_tools"), Json::Array(servers));
    }
    if cc {
        ext.insert(owned("messages.tools_raw"), Json::Array(raws));
    }
    if let Some(Json::Object(meta)) = raw.get("metadata") {
        let rest = metadata_rest(meta);
        proof {
            lemma_members_view(rest@);
        }
        if rest.len() > 0 {
            ext.insert(owned("messages.metadata"), Json::object(rest));
        }
    }
    if let Json::Object(members) = raw {
        collect_unknown_request(members, &mut ext);
    }
    ext
}

fn stop_sequences(raw: &Json) -> (res: Vec<String>)
    ensures
        res@.map_values(|s: String| s@) == match raw@.get("stop_sequences"@) {
            Some(JsonV::Array(a)) => texts_of(a),
            _ => Seq::empty(),
        },
{
    match raw.get("stop_sequences") {
        Some(v) => match v {
            Json::Array(_) => parse_stop(Some(v)),
            _ => {
                let out: Vec<String> = Vec::new();
                assert(out@.map_values(|s: String| s@) =~= Seq::<Seq<char>>::empty());
                out
            },
        },
        None => {
            let out: Vec<String> = Vec::new();
            assert(out@.map_values(|s: String| s@) =~= Seq::<Seq<char>>::empty());
            out
        },
    }
}

impl MessagesCodec {
    /// Decodes a Messages request body.
    pub fn decode_request(&self, raw: &Json) -> (res: Result<UnifiedRequest, GatewayError>)
        ensures
            match res {
                Ok(r) => spec_messages_decode_request(raw@) == Ok::<RequestV, Seq<char>>(r@),
                Err(e) => spec_messages_decode_request(raw@) == Err::<RequestV, Seq<char>>(e.message@)
                    && e.kind == ErrorKind::InvalidRequest && e.protocol.is_none() && e.upstream_status.is_none() && e.upstream_body.is_none(),
            },
    {
        if !raw.is_object() {
            return Err(GatewayError::invalid_request(owned("request body must be a JSON object")));
        }
        let model = match raw.get_str("model") {
            Some(m) => if m.unicode_len() > 0 {
                m
            } else {
                return Err(GatewayError::invalid_request(owned("field `model` is required")));
            },
            None => return Err(GatewayError::invalid_request(owned("field `model` is required"))),
        };
        let max_tokens = match max_tokens_of(raw.get("max_tokens")) {
            Ok(n) => n,
            Err(e) => return Err(GatewayError::invalid_request(e)),
        };
        let system = match raw.get("system") {
            Some(s) => match decode_system(s) {
                Ok(p) => p,
                Err(e) => return Err(GatewayError::invalid_request(e)),
            },
            None => {
                let v: Vec<ContentPart> = Vec::new();
                proof {
                    lemma_parts_view(v@);
                }
                v
            },
        };
        let messages = match raw.get("messages") {
            Some(Json::Array(items)) => match decode_messages(items) {
                Ok(ms) => ms,
                Err(e) => return Err(GatewayError::invalid_request(e)),
            },
            _ => return Err(GatewayError::invalid_request(owned("field `messages` must be an array"))),
        };
        let (tools, raws, servers, cc) = match raw.get("tools") {
            Some(Json::Array(ts)) => match decode_tools(ts) {
                Ok(t) => t,
                Err(e) => return Err(GatewayError::invalid_request(e)),
            },
            _ => {
                let raws: Vec<Json> = Vec::new();
                let servers: Vec<Json> = Vec::new();
                proof {
                    lemma_items_view(raws@);
                    lemma_items_view(servers@);
                    assert(items_view(raws@) =~= Seq::<JsonV>::empty());
                    assert(items_view(servers@) =~= Seq::<JsonV>::empty());
                }
                let tools: Vec<ToolDef> = Vec::new();
                assert(tls(tools@) =~= Seq::<ToolV>::empty());
                (tools, raws, servers, false)
            },
        };
        let (tool_choice, parallel) = match raw.get("tool_choice") {
            Some(c) => decode_tool_choice(c),
            None => (ToolChoice::Unspecified, None),
        };
        let stream = match raw.get_bool("stream") {
            Some(b) => b,
            None => false,
        };
        let top_k = match raw.get_u64("top_k") {
            Some(v) => Some(v as u32),
            None => None,
        };
        let sampling = Sampling {
            temperature: as_number(raw.get("temperature")),
            top_p: as_number(raw.get("top_p")),
            top_k,
            frequency_penalty: None,
            presence_penalty: None,
            stop: stop_sequences(raw),
            seed: None,
            candidate_count: None,
        };
        let reasoning = match raw.get("thinking") {
            Some(t) => decode_thinking(t),
            None => None,
        };
        let user = match raw.get("metadata") {
            Some(m) => opt_owned(m.get_str("user_id")),
            None => None,
        };
        let extensions = decoded_ext(raw, servers, raws, cc);
        let req = UnifiedRequest {
            model: owned(model),
            system,
            messages,
            tools,
            tool_choice,
            parallel_tool_calls: parallel,
            sampling,
            max_output_tokens: Some(max_tokens),
            stream,
            stream_include_usage: stream,
            reasoning,
            response_format: None,
            user,
            extensions,
        };
        proof {
            let spec = spec_messages_decode_request(raw@);
            assert(spec is Ok);
            let sr = spec->Ok_0;
            assert(sr.model == req.model@);
            assert(sr.system == req@.system);
            assert(sr.messages == req@.messages);
            assert(sr.tools == req@.tools);
            assert(sr.tool_choice == req@.tool_choice);
            assert(sr.sampling == req@.sampling);
            assert(sr.reasoning == req@.reasoning);
            assert(sr.user == req@.user);
            assert(sr.extensions == req@.extensions);
        }
        Ok(req)
    }
}


// ---------------------------------------------------------------------------
// Request encoding
// ---------------------------------------------------------------------------

/// A text member.
pub open spec fn sj(s: Seq<char>) -> JsonV {
    JsonV::Str(s)
}

/// An optional text, or a default.
pub open spec fn or_text(o: Option<Seq<char>>, d: Seq<char>) -> Seq<char> {
    match o {
        Some(s) => s,
        None => d,
    }
}

/// The `source` object of a URL: a base64 source when it is a base64 data URI.
pub open spec fn url_source_json(url: Seq<char>, mime: Option<Seq<char>>) -> JsonV {
    let parsed = spec_parse_data_uri(url);
    match parsed.0 {
        SourceV::Base64(data) => JsonV::Object(seq![
            ("type"@, sj("base64"@)),
            ("media_type"@, sj(or_text(if parsed.1 is Some { parsed.1 } else { mime }, "application/octet-stream"@))),
            ("data"@, sj(data)),
        ]),
        _ => JsonV::Object(seq![("type"@, sj("url"@)), ("url"@, sj(url))]),
    }
}

/// The Messages `source` object of a media source; a data URI becomes a base64 source.
pub open spec fn spec_encode_source(src: SourceV, mime: Option<Seq<char>>) -> JsonV {
    match src {
        SourceV::Base64(data) => JsonV::Object(seq![
            ("type"@, sj("base64"@)),
            ("media_type"@, sj(or_text(mime, "application/octet-stream"@))),
            ("data"@, sj(data)),
        ]),
        SourceV::Url(url) => url_source_json(url, mime),
        SourceV::FileId(id) => JsonV::Object(seq![("type"@, sj("file"@)), ("file_id"@, sj(id))]),
        SourceV::Text(t) => JsonV::Object(seq![
            ("type"@, sj("text"@)),
            ("media_type"@, sj(or_text(mime, "text/plain"@))),
            ("data"@, sj(t)),
        ]),
    }
}

fn or_default<'a>(o: Option<&'a str>, d: &'a str) -> (res: &'a str)
    ensures
        res@ == or_text(match o {
            Some(s) => Some(s@),
            None => None,
        }, d@),
{
    match o {
        Some(s) => s,
        None => d,
    }
}

fn as_opt_str(o: &Option<String>) -> (res: Option<&str>)
    ensures
        match res {
            Some(s) => ov(*o) == Some(s@),
            None => ov(*o) is None,
        },
{
    match o {
        Some(s) => Some(s.as_str()),
        None => None,
    }
}

fn encode_source(src: &MediaSource, mime: Option<&str>) -> (res: Json)
    ensures
        res@ == spec_encode_source(src@, match mime {
            Some(m) => Some(m@),
            None => None,
        }),
{
    let ghost mv = match mime {
        Some(m) => Some(m@),
        None => None,
    };
    match src {
        MediaSource::Base64(data) => {
            let r = triple_object(
                "type", str_json("base64"),
                "media_type", str_json(or_default(mime, "application/octet-stream")),
                "data", str_json(data.as_str()),
            );
            assert(r@ == spec_encode_source(src@, mv));
            r
        },
        MediaSource::Url(url) => {
            let (parsed, pm) = MediaSource::parse_data_uri(url.as_str());
            match parsed {
                MediaSource::Base64(data) => {
                    let m = match as_opt_str(&pm) {
                        Some(x) => Some(x),
                        None => mime,
                    };
                    let ghost pmv = if spec_parse_data_uri(url@).1 is Some { spec_parse_data_uri(url@).1 } else { mv };
                    assert(match m {
                        Some(x) => Some(x@),
                        None => None,
                    } == pmv);
                    let r = triple_object(
                        "type", str_json("base64"),
                        "media_type", str_json(or_default(m, "application/octet-stream")),
                        "data", str_json(data.as_str()),
                    );
                    assert(spec_parse_data_uri(url@).0 == SourceV::Base64(data@));
                    assert(r@ == JsonV::Object(seq![
                        ("type"@, sj("base64"@)),
                        ("media_type"@, sj(or_text(pmv, "application/octet-stream"@))),
                        ("data"@, sj(data@)),
                    ]));
                    assert(r@ == url_source_json(url@, mv));
                    r
                },
                _ => {
                    let r = pair_object("type", str_json("url"), "url", str_json(url.as_str()));
                    assert(!(spec_parse_data_uri(url@).0 is Base64));
                    assert(r@ == spec_encode_source(src@, mv));
                    r
                },
            }
        },
        MediaSource::FileId(id) => {
            let r = pair_object("type", str_json("file"), "file_id", str_json(id.as_str()));
            assert(r@ == spec_encode_source(src@, mv));
            r
        },
        MediaSource::Text(t) => {
            let r = triple_object(
                "type", str_json("text"),
                "media_type", str_json(or_default(mime, "text/plain")),
                "data", str_json(t.as_str()),
            );
            assert(r@ == spec_encode_source(src@, mv));
            r
        },
    }
}

/// Members followed by one more when `extra` holds a value.
pub open spec fn push_opt(m: Seq<(Seq<char>, JsonV)>, key: Seq<char>, extra: Option<JsonV>) -> Seq<(Seq<char>, JsonV)> {
    match extra {
        Some(v) => m.push((key, v)),
        None => m,
    }
}

/// A part as a Messages content block; `None` for a block of another protocol, which
/// Messages cannot carry.
pub open spec fn spec_encode_block(part: PartV) -> Option<JsonV>
    decreases part, 1nat,
{
    match part {
        PartV::Text { text } => Some(JsonV::Object(seq![("type"@, sj("text"@)), ("text"@, sj(text))])),
        PartV::Image { source, mime, .. } => Some(JsonV::Object(seq![("type"@, sj("image"@)), ("source"@, spec_encode_source(source, mime))])),
        PartV::File { source, mime, name } => Some(JsonV::Object(push_opt(
            seq![("type"@, sj("document"@)), ("source"@, spec_encode_source(source, mime))],
            "title"@,
            match name {
                Some(n) => Some(sj(n)),
                None => None,
            },
        ))),
        PartV::Audio { source, format } => Some(JsonV::Object(seq![("type"@, sj("document"@)), ("source"@, spec_encode_source(source, format))])),
        PartV::Thinking { text, signature } => Some(JsonV::Object(push_opt(
            seq![("type"@, sj("thinking"@)), ("thinking"@, sj(text))],
            "signature"@,
            match signature {
                Some(s) => Some(sj(s)),
                None => None,
            },
        ))),
        PartV::RedactedThinking { data } => Some(JsonV::Object(seq![("type"@, sj("redacted_thinking"@)), ("data"@, sj(data))])),
        PartV::ToolUse { id, name, input, .. } => Some(JsonV::Object(seq![
            ("type"@, sj("tool_use"@)),
            ("id"@, sj(id)),
            ("name"@, sj(name)),
            ("input"@, input),
        ])),
        PartV::ToolResult { id, content, is_error, .. } => Some(JsonV::Object(push_opt(
            seq![("type"@, sj("tool_result"@)), ("tool_use_id"@, sj(id)), ("content"@, spec_tool_result_json(content))],
            "is_error"@,
            if is_error { Some(JsonV::Bool(true)) } else { None },
        ))),
        PartV::Refusal { text } => Some(JsonV::Object(seq![("type"@, sj("text"@)), ("text"@, sj(text))])),
        PartV::Opaque { protocol, value } => if protocol == "messages"@ { Some(value) } else { None },
    }
}

/// The blocks of the parts that Messages can carry, in order.
pub open spec fn spec_encode_blocks(parts: Seq<PartV>) -> Seq<JsonV>
    decreases parts, 0nat,
{
    if parts.len() == 0 {
        Seq::empty()
    } else {
        let prev = spec_encode_blocks(parts.drop_last());
        match spec_encode_block(parts.last()) {
            Some(b) => prev.push(b),
            None => prev,
        }
    }
}

/// A tool result's content: empty text, the text when it is all text, else blocks.
pub open spec fn spec_tool_result_json(content: Seq<PartV>) -> JsonV
    decreases content, 1nat,
{
    if content.len() == 0 {
        JsonV::Str(Seq::empty())
    } else if all_text(content) {
        JsonV::Str(text_of(content))
    } else {
        JsonV::Array(spec_encode_blocks(content))
    }
}

fn all_text_parts(parts: &Vec<ContentPart>) -> (res: bool)
    ensures
        res == all_text(pv(*parts)),
{
    proof {
        lemma_parts_view(parts@);
    }
    let mut i: usize = 0;
    while i < parts.len()
        invariant
            i <= parts.len(),
            pv(*parts).len() == parts.len(),
            forall|k: int| 0 <= k < parts.len() ==> #[trigger] pv(*parts)[k] == parts@[k]@,
            forall|k: int| 0 <= k < i ==> #[trigger] pv(*parts)[k] is Text,
        decreases parts.len() - i,
    {
        match &parts[i] {
            ContentPart::Text { .. } => {},
            _ => {
                assert(!(pv(*parts)[i as int] is Text));
                return false;
            },
        }
        i = i + 1;
    }
    true
}

fn object_of(m: Vec<(String, Json)>) -> (res: Json)
    ensures
        res@ == JsonV::Object(members_view(m@)),
{
    Json::object(m)
}

fn encode_block(part: &ContentPart) -> (res: Option<Json>)
    ensures
        spec_encode_block(part@) == match res {
            Some(j) => Some(j@),
            None => None,
        },
    decreases part@, 1nat,
{
    match part {
        ContentPart::Text { text } => Some(pair_object("type", str_json("text"), "text", str_json(text.as_str()))),
        ContentPart::Image { source, mime, .. } => Some(pair_object("type", str_json("image"), "source", encode_source(source, as_opt_str(mime)))),
        ContentPart::File { source, mime, name } => {
            let mut m: Vec<(String, Json)> = Vec::new();
            push_member(&mut m, "type", str_json("document"));
            push_member(&mut m, "source", encode_source(source, as_opt_str(mime)));
            if let Some(n) = name {
                push_member(&mut m, "title", str_json(n.as_str()));
            }
            assert(members_view(m@) =~= push_opt(
                seq![("type"@, sj("document"@)), ("source"@, spec_encode_source(source@, ov(*mime)))],
                "title"@,
                match ov(*name) {
                    Some(n) => Some(sj(n)),
                    None => None,
                },
            ));
            Some(object_of(m))
        },
        ContentPart::Audio { source, format } => Some(pair_object("type", str_json("document"), "source", encode_source(source, as_opt_str(format)))),
        ContentPart::Thinking { text, signature } => {
            let mut m: Vec<(String, Json)> = Vec::new();
            push_member(&mut m, "type", str_json("thinking"));
            push_member(&mut m, "thinking", str_json(text.as_str()));
            if let Some(s) = signature {
                push_member(&mut m, "signature", str_json(s.as_str()));
            }
            assert(members_view(m@) =~= push_opt(
                seq![("type"@, sj("thinking"@)), ("thinking"@, sj(text@))],
                "signature"@,
                match ov(*signature) {
                    Some(s) => Some(sj(s)),
                    None => None,
                },
            ));
            Some(object_of(m))
        },
        ContentPart::RedactedThinking { data } => Some(pair_object("type", str_json("redacted_thinking"), "data", str_json(data.as_str()))),
        ContentPart::ToolUse { id, name, input, .. } => {
            let mut m: Vec<(String, Json)> = Vec::new();
            push_member(&mut m, "type", str_json("tool_use"));
            push_member(&mut m, "id", str_json(id.as_str()));
            push_member(&mut m, "name", str_json(name.as_str()));
            push_member(&mut m, "input", input.duplicate());
            assert(members_view(m@) =~= seq![("type"@, sj("tool_use"@)), ("id"@, sj(id@)), ("name"@, sj(name@)), ("input"@, input@)]);
            Some(object_of(m))
        },
        ContentPart::ToolResult { id, content, is_error, .. } => {
            proof {
                assert(decreases_to!(part@ => pv(*content)));
            }
            let c = tool_result_json(content);
            let mut m: Vec<(String, Json)> = Vec::new();
            push_member(&mut m, "type", str_json("tool_result"));
            push_member(&mut m, "tool_use_id", str_json(id.as_str()));
            push_member(&mut m, "content", c);
            if *is_error {
                push_member(&mut m, "is_error", Json::boolean(true));
            }
            assert(members_view(m@) =~= push_opt(
                seq![("type"@, sj("tool_result"@)), ("tool_use_id"@, sj(id@)), ("content"@, spec_tool_result_json(pv(*content)))],
                "is_error"@,
                if *is_error { Some(JsonV::Bool(true)) } else { None },
            ));
            Some(object_of(m))
        },
        ContentPart::Refusal { text } => Some(pair_object("type", str_json("text"), "text", str_json(text.as_str()))),
        ContentPart::Opaque { protocol, value } => if text_eq(protocol.as_str(), "messages") {
            Some(value.duplicate())
        } else {
            None
        },
    }
}

fn encode_blocks(parts: &Vec<ContentPart>) -> (res: Vec<Json>)
    ensures
        items_view(res@) == spec_encode_blocks(pv(*parts)),
    decreases pv(*parts), 0nat,
{
    proof {
        lemma_parts_view(parts@);
    }
    let ghost ps = pv(*parts);
    let mut out: Vec<Json> = Vec::new();
    proof {
        lemma_items_view(out@);
        assert(ps.subrange(0, 0) =~= Seq::<PartV>::empty());
    }
    let mut i: usize = 0;
    while i < parts.len()
        invariant
            i <= parts.len(),
            ps == pv(*parts),
            ps.len() == parts.len(),
            forall|k: int| 0 <= k < parts.len() ==> #[trigger] ps[k] == parts@[k]@,
            items_view(out@) == spec_encode_blocks(ps.subrange(0, i as int)),
        decreases parts.len() - i,
    {
        assert(ps.subrange(0, i + 1).drop_last() =~= ps.subrange(0, i as int));
        assert(ps.subrange(0, i + 1).last() == ps[i as int]);
        proof {
            assert(decreases_to!(ps => ps[i as int]));
        }
        if let Some(b) = encode_block(&parts[i]) {
            push_json(&mut out, b);
        }
        i = i + 1;
    }
    assert(ps.subrange(0, parts.len() as int) =~= ps);
    out
}

fn tool_result_json(content: &Vec<ContentPart>) -> (res: Json)
    ensures
        res@ == spec_tool_result_json(pv(*content)),
    decreases pv(*content), 1nat,
{
    proof {
        lemma_parts_view(content@);
        reveal_strlit("");
    }
    if content.len() == 0 {
        Json::Str(String::new())
    } else if all_text_parts(content) {
        Json::Str(crate::ir::concat_texts(content))
    } else {
        Json::Array(encode_blocks(content))
    }
}


/// A Messages turn: whether it is the model's, and its blocks.
pub open spec fn merge_messages(ms: Seq<MessageV>) -> Seq<(bool, Seq<JsonV>)>
    decreases ms.len(),
{
    if ms.len() == 0 {
        Seq::empty()
    } else {
        let acc = merge_messages(ms.drop_last());
        let m = ms.last();
        let a = m.role == Role::Assistant;
        let b = spec_encode_blocks(m.content);
        if b.len() == 0 {
            acc
        } else if acc.len() > 0 && acc.last().0 == a {
            acc.update(acc.len() - 1, (a, acc.last().1 + b))
        } else {
            acc.push((a, b))
        }
    }
}

/// The minimal user turn put before a conversation that starts with the model.
pub open spec fn placeholder_block() -> JsonV {
    JsonV::Object(seq![("type"@, sj("text"@)), ("text"@, sj("."@))])
}

/// Messages must start with a user turn: a placeholder one is put first when needed.
pub open spec fn with_leading_user(turns: Seq<(bool, Seq<JsonV>)>) -> Seq<(bool, Seq<JsonV>)> {
    if turns.len() > 0 && turns[0].0 {
        seq![(false, seq![placeholder_block()])] + turns
    } else {
        turns
    }
}

/// A turn as a wire message; a lone text block is sent as a bare text.
pub open spec fn turn_json(turn: (bool, Seq<JsonV>)) -> JsonV {
    let content = if turn.1.len() == 1 && opt_str(turn.1[0].get("type"@)) == Some("text"@) {
        match turn.1[0].get("text"@) {
            Some(t) => t,
            None => JsonV::Str(Seq::empty()),
        }
    } else {
        JsonV::Array(turn.1)
    };
    JsonV::Object(seq![("role"@, sj(if turn.0 { "assistant"@ } else { "user"@ })), ("content"@, content)])
}

/// The wire messages: tool results go into user turns, adjacent turns of one role are merged,
/// empty ones dropped, and the conversation starts with a user turn.
pub open spec fn spec_encode_messages(ms: Seq<MessageV>) -> Seq<JsonV> {
    with_leading_user(merge_messages(ms)).map_values(|t: (bool, Seq<JsonV>)| turn_json(t))
}

pub open spec fn turns_view(v: Seq<(bool, Vec<Json>)>) -> Seq<(bool, Seq<JsonV>)> {
    v.map_values(|t: (bool, Vec<Json>)| (t.0, items_view(t.1@)))
}

fn append_json(out: &mut Vec<Json>, more: Vec<Json>)
    ensures
        items_view(final(out)@) == items_view(old(out)@) + items_view(more@),
{
    let mut more = more;
    let ghost m0 = more@;
    out.append(&mut more);
    proof {
        lemma_items_view(old(out)@);
        lemma_items_view(m0);
        lemma_items_view(out@);
        assert(items_view(out@) =~= items_view(old(out)@) + items_view(m0));
    }
}

fn merge_turns(messages: &Vec<Message>) -> (res: Vec<(bool, Vec<Json>)>)
    ensures
        turns_view(res@) == merge_messages(msgs(messages@)),
{
    let ghost ms = msgs(messages@);
    let mut merged: Vec<(bool, Vec<Json>)> = Vec::new();
    assert(turns_view(merged@) =~= Seq::<(bool, Seq<JsonV>)>::empty());
    assert(ms.subrange(0, 0) =~= Seq::<MessageV>::empty());
    let mut i: usize = 0;
    while i < messages.len()
        invariant
            i <= messages.len(),
            ms == msgs(messages@),
            turns_view(merged@) == merge_messages(ms.subrange(0, i as int)),
        decreases messages.len() - i,
    {
        assert(ms.subrange(0, i + 1).drop_last() =~= ms.subrange(0, i as int));
        assert(ms.subrange(0, i + 1).last() == messages@[i as int]@);
        let m = &messages[i];
        let a = m.role == Role::Assistant;
        let blocks = encode_blocks(&m.content);
        proof {
            lemma_items_view(blocks@);
        }
        let ghost before = turns_view(merged@);
        if blocks.len() > 0 {
            let n = merged.len();
            if n > 0 && merged[n - 1].0 == a {
                let (pa, mut pb) = merged.pop().unwrap();
                let ghost pbv = items_view(pb@);
                append_json(&mut pb, blocks);
                merged.push((pa, pb));
                assert(turns_view(merged@) =~= before.update(before.len() - 1, (a, pbv + spec_encode_blocks(m@.content))));
            } else {
                merged.push((a, blocks));
                assert(turns_view(merged@) =~= before.push((a, spec_encode_blocks(m@.content))));
            }
        }
        i = i + 1;
    }
    assert(ms.subrange(0, messages.len() as int) =~= ms);
    merged
}

fn dup_items(v: &Vec<Json>) -> (res: Vec<Json>)
    ensures
        items_view(res@) == items_view(v@),
{
    proof {
        lemma_items_view(v@);
    }
    let mut out: Vec<Json> = Vec::new();
    proof {
        lemma_items_view(out@);
    }
    let mut i: usize = 0;
    while i < v.len()
        invariant
            i <= v.len(),
            items_view(v@).len() == v.len(),
            forall|k: int| 0 <= k < v.len() ==> #[trigger] items_view(v@)[k] == v@[k]@,
            items_view(out@) == items_view(v@).subrange(0, i as int),
        decreases v.len() - i,
    {
        push_json(&mut out, v[i].duplicate());
        assert(items_view(out@) =~= items_view(v@).subrange(0, i + 1));
        i = i + 1;
    }
    assert(items_view(v@).subrange(0, v.len() as int) =~= items_view(v@));
    out
}

fn turn_json_exec(a: bool, blocks: &Vec<Json>) -> (res: Json)
    ensures
        res@ == turn_json((a, items_view(blocks@))),
{
    proof {
        lemma_items_view(blocks@);
    }
    let role = str_json(if a { "assistant" } else { "user" });
    let lone_text = blocks.len() == 1 && match blocks[0].get_str("type") {
        Some(t) => text_eq(t, "text"),
        None => false,
    };
    let content = if lone_text {
        match blocks[0].get("text") {
            Some(t) => t.duplicate(),
            None => Json::Str(String::new()),
        }
    } else {
        Json::Array(dup_items(blocks))
    };
    proof {
        reveal_strlit("");
    }
    pair_object("role", role, "content", content)
}

fn encode_messages(messages: &Vec<Message>) -> (res: Vec<Json>)
    ensures
        items_view(res@) == spec_encode_messages(msgs(messages@)),
{
    let merged = merge_turns(messages);
    let ghost tv = turns_view(merged@);
    let ghost all = with_leading_user(tv);
    let mut out: Vec<Json> = Vec::new();
    proof {
        lemma_items_view(out@);
    }
    let lead = merged.len() > 0 && merged[0].0;
    if lead {
        let mut p: Vec<Json> = Vec::new();
        push_json(&mut p, pair_object("type", str_json("text"), "text", str_json(".")));
        push_json(&mut out, turn_json_exec(false, &p));
    }
    let ghost off: int = if lead { 1 } else { 0 };
    assert(all.len() == tv.len() + off);
    assert(items_view(out@) =~= all.subrange(0, off).map_values(|t: (bool, Seq<JsonV>)| turn_json(t)));
    let mut i: usize = 0;
    while i < merged.len()
        invariant
            i <= merged.len(),
            tv == turns_view(merged@),
            tv.len() == merged.len(),
            all == with_leading_user(tv),
            all.len() == tv.len() + off,
            off == (if lead { 1int } else { 0int }),
            lead == (tv.len() > 0 && tv[0].0),
            items_view(out@) == all.subrange(0, off + i).map_values(|t: (bool, Seq<JsonV>)| turn_json(t)),
        decreases merged.len() - i,
    {
        assert(all[off + i] == tv[i as int]);
        push_json(&mut out, turn_json_exec(merged[i].0, &merged[i].1));
        assert(items_view(out@) =~= all.subrange(0, off + i + 1).map_values(|t: (bool, Seq<JsonV>)| turn_json(t)));
        i = i + 1;
    }
    assert(all.subrange(0, off + merged.len()) =~= all);
    out
}


/// A function tool as Messages declares it (no `strict` flag).
pub open spec fn spec_encode_tool(t: ToolV) -> JsonV {
    JsonV::Object(push_opt(
        seq![("name"@, sj(t.name)), ("input_schema"@, t.parameters)],
        "description"@,
        match t.description {
            Some(d) => Some(sj(d)),
            None => None,
        },
    ))
}

fn encode_tool(t: &ToolDef) -> (res: Json)
    ensures
        res@ == spec_encode_tool(t@),
{
    let mut m: Vec<(String, Json)> = Vec::new();
    push_member(&mut m, "name", str_json(t.name.as_str()));
    push_member(&mut m, "input_schema", t.parameters.duplicate());
    if let Some(d) = &t.description {
        push_member(&mut m, "description", str_json(d.as_str()));
    }
    assert(members_view(m@) =~= push_opt(
        seq![("name"@, sj(t.name@)), ("input_schema"@, t.parameters@)],
        "description"@,
        match ov(t.description) {
            Some(d) => Some(sj(d)),
            None => None,
        },
    ));
    object_of(m)
}

/// `tool_choice`; a disallowed parallel call is sent as `disable_parallel_tool_use`, with
/// `auto` when no choice was made.
pub open spec fn spec_encode_tool_choice(c: ChoiceV, parallel: Option<bool>) -> Option<JsonV> {
    let base: Option<Seq<(Seq<char>, JsonV)>> = match c {
        ChoiceV::Unspecified => if parallel == Some(false) { Some(seq![("type"@, sj("auto"@))]) } else { None },
        ChoiceV::Auto => Some(seq![("type"@, sj("auto"@))]),
        ChoiceV::Required => Some(seq![("type"@, sj("any"@))]),
        ChoiceV::NoTool => Some(seq![("type"@, sj("none"@))]),
        ChoiceV::Tool(n) => Some(seq![("type"@, sj("tool"@)), ("name"@, sj(n))]),
    };
    match base {
        Some(m) => Some(JsonV::Object(if parallel == Some(false) { m.push(("disable_parallel_tool_use"@, JsonV::Bool(true))) } else { m })),
        None => None,
    }
}

fn encode_tool_choice(c: &ToolChoice, parallel: Option<bool>) -> (res: Option<Json>)
    ensures
        spec_encode_tool_choice(c@, parallel) == match res {
            Some(j) => Some(j@),
            None => None,
        },
{
    let mut m: Vec<(String, Json)> = Vec::new();
    match c {
        ToolChoice::Unspecified => {
            if parallel == Some(false) {
                push_member(&mut m, "type", str_json("auto"));
            } else {
                return None;
            }
        },
        ToolChoice::Auto => push_member(&mut m, "type", str_json("auto")),
        ToolChoice::Required => push_member(&mut m, "type", str_json("any")),
        ToolChoice::NoTool => push_member(&mut m, "type", str_json("none")),
        ToolChoice::Tool(n) => {
            push_member(&mut m, "type", str_json("tool"));
            push_member(&mut m, "name", str_json(n.as_str()));
        },
    }
    let ghost base = members_view(m@);
    if parallel == Some(false) {
        push_member(&mut m, "disable_parallel_tool_use", Json::boolean(true));
    }
    proof {
        let sb: Option<Seq<(Seq<char>, JsonV)>> = match c@ {
            ChoiceV::Unspecified => if parallel == Some(false) { Some(seq![("type"@, sj("auto"@))]) } else { None },
            ChoiceV::Auto => Some(seq![("type"@, sj("auto"@))]),
            ChoiceV::Required => Some(seq![("type"@, sj("any"@))]),
            ChoiceV::NoTool => Some(seq![("type"@, sj("none"@))]),
            ChoiceV::Tool(n) => Some(seq![("type"@, sj("tool"@)), ("name"@, sj(n))]),
        };
        assert(sb == Some(base));
    }
    Some(object_of(m))
}

/// The budget a thinking request asks for: the explicit one, else the one its effort stands
/// for under `max_tokens`, else (dynamic thinking) a fixed default of 8192.
pub open spec fn thinking_budget(r: ReasoningV, max_tokens: u32) -> Option<int> {
    let dynamic: Option<int> = if r.include_thoughts == Some(true) { Some(8192) } else { None };
    match r.budget_tokens {
        Some(b) => Some(b as int),
        None => match r.effort {
            Some(e) => match effort_budget(e, max_tokens as int) {
                Some(b) => Some(b),
                None => dynamic,
            },
            None => dynamic,
        },
    }
}

/// A budget kept within `[1024, ceiling]`.
pub open spec fn clamp_range(b: int, ceiling: int) -> int {
    if b < 1024 { 1024 } else if b > ceiling { ceiling } else { b }
}

/// `thinking` for a request with `max_tokens`: disabled when thoughts are off, when there is
/// no budget, or when `max_tokens` leaves no room for the minimum of 1024; else enabled with
/// the budget kept in `[1024, max_tokens - 1]`.
pub open spec fn spec_encode_thinking(r: ReasoningV, max_tokens: u32) -> JsonV {
    let disabled = JsonV::Object(seq![("type"@, sj("disabled"@))]);
    if r.include_thoughts == Some(false) {
        disabled
    } else {
        match thinking_budget(r, max_tokens) {
            None => disabled,
            Some(b) => {
                let ceiling: int = if max_tokens == 0 { 0 } else { max_tokens - 1 };
                if ceiling < 1024 {
                    disabled
                } else {
                    JsonV::Object(seq![("type"@, sj("enabled"@)), ("budget_tokens"@, num(clamp_range(b, ceiling) as u64))])
                }
            },
        }
    }
}

/// Whether thinking ends up enabled.
pub open spec fn thinking_on(r: RequestV, max_tokens: u32) -> bool {
    match r.reasoning {
        Some(rs) => opt_str(spec_encode_thinking(rs, max_tokens).get("type"@)) == Some("enabled"@),
        None => false,
    }
}

/// `max_tokens`: the requested limit, else 4096 (Messages requires one).
pub open spec fn max_tokens_for(r: RequestV) -> u32 {
    match r.max_output_tokens {
        Some(m) => m,
        None => 4096,
    }
}

fn encode_thinking(cfg: &ReasoningConfig, max_tokens: u32) -> (res: Json)
    ensures
        res@ == spec_encode_thinking(cfg@, max_tokens),
{
    if cfg.include_thoughts == Some(false) {
        return single_member("type", str_json("disabled"));
    }
    let budget = match cfg.budget_or_from_effort(Some(max_tokens)) {
        Some(b) => Some(b),
        None => if cfg.include_thoughts == Some(true) { Some(8192u32) } else { None },
    };
    let budget = match budget {
        Some(b) => b,
        None => return single_member("type", str_json("disabled")),
    };
    let ceiling = if max_tokens == 0 { 0 } else { max_tokens - 1 };
    if ceiling < 1024 {
        return single_member("type", str_json("disabled"));
    }
    let clamped = if budget < 1024 { 1024 } else if budget > ceiling { ceiling } else { budget };
    pair_object("type", str_json("enabled"), "budget_tokens", Json::uint(clamped as u64))
}

fn single_member(k: &str, v: Json) -> (res: Json)
    ensures
        res@ == JsonV::Object(seq![(k@, v@)]),
{
    let mut m: Vec<(String, Json)> = Vec::new();
    push_member(&mut m, k, v);
    assert(members_view(m@) =~= seq![(k@, v@)]);
    Json::object(m)
}

/// Whether a character is a decimal digit below `d`.
pub open spec fn char_below(c: char, d: char) -> bool {
    (c as u32) < (d as u32)
}

/// Whether a number reads as 1 within `f64::EPSILON` (the only such doubles are 1, the two
/// below it and the one above it, written as serde_json writes them).
pub open spec fn number_is_one(n: NumberV) -> bool {
    match n {
        NumberV::PosInt(v) => v == 1,
        NumberV::NegInt(v) => v == 1,
        NumberV::Float(t) => t == "1.0"@ || t == "0.9999999999999999"@ || t == "0.9999999999999998"@
            || t == "1.0000000000000002"@,
    }
}

/// Whether every character is `0`.
pub open spec fn all_zeros(s: Seq<char>) -> bool {
    forall|i: int| 0 <= i < s.len() ==> #[trigger] s[i] == '0'
}

/// Whether `0.` followed by the digits `f` is below 0.95.
pub open spec fn fraction_below_095(f: Seq<char>) -> bool {
    f.len() == 0 || char_below(f[0], '9') || (f[0] == '9' && (f.len() == 1 || char_below(f[1], '5')))
}

/// Whether a mantissa `d[.ddd]` is below 9.5.
pub open spec fn mantissa_below_95(m: Seq<char>) -> bool {
    m.len() > 0 && (char_below(m[0], '9') || (m[0] == '9' && (m.len() == 1 || (m.len() >= 3 && m[1] == '.' && char_below(m[2], '5')))))
}

/// Whether the decimal text of a number, in the form serde_json writes it (`[-]I.F` or
/// `[-]M.MMMe[-]X`), stands for a value below 0.95.
pub open spec fn float_text_below_095(t: Seq<char>) -> bool {
    if t.len() > 0 && t[0] == '-' {
        true
    } else {
        match index_of(t, 'e') {
            Some(i) => {
                let m = t.subrange(0, i);
                let x = t.subrange(i + 1, t.len() as int);
                if x.len() > 0 && x[0] == '-' {
                    if x == "-1"@ { mantissa_below_95(m) } else { true }
                } else {
                    false
                }
            },
            None => match index_of(t, '.') {
                Some(j) => all_zeros(t.subrange(0, j)) && fraction_below_095(t.subrange(j + 1, t.len() as int)),
                None => all_zeros(t),
            },
        }
    }
}

/// Whether a number is below 0.95.
pub open spec fn number_below_095(n: NumberV) -> bool {
    match n {
        NumberV::PosInt(v) => v == 0,
        NumberV::NegInt(v) => v < 0,
        NumberV::Float(t) => float_text_below_095(t),
    }
}

fn is_one(n: &JsonNumber) -> (res: bool)
    ensures
        res == number_is_one(n@),
{
    match n {
        JsonNumber::PosInt(v) => *v == 1,
        JsonNumber::NegInt(v) => *v == 1,
        JsonNumber::Float(t) => text_eq(t.as_str(), "1.0") || text_eq(t.as_str(), "0.9999999999999999")
            || text_eq(t.as_str(), "0.9999999999999998") || text_eq(t.as_str(), "1.0000000000000002"),
    }
}

fn zeros_only(s: &str) -> (res: bool)
    ensures
        res == all_zeros(s@),
{
    let n = s.unicode_len();
    let mut i: usize = 0;
    while i < n
        invariant
            n == s@.len(),
            i <= n,
            forall|k: int| 0 <= k < i ==> #[trigger] s@[k] == '0',
        decreases n - i,
    {
        if s.get_char(i) != '0' {
            return false;
        }
        i = i + 1;
    }
    true
}

fn below_char(c: char, d: char) -> (res: bool)
    ensures
        res == char_below(c, d),
{
    (c as u32) < (d as u32)
}

fn fraction_below(f: &str) -> (res: bool)
    ensures
        res == fraction_below_095(f@),
{
    let n = f.unicode_len();
    if n == 0 {
        return true;
    }
    let c0 = f.get_char(0);
    if below_char(c0, '9') {
        return true;
    }
    c0 == '9' && (n == 1 || below_char(f.get_char(1), '5'))
}

fn mantissa_below(m: &str) -> (res: bool)
    ensures
        res == mantissa_below_95(m@),
{
    let n = m.unicode_len();
    if n == 0 {
        return false;
    }
    let c0 = m.get_char(0);
    if below_char(c0, '9') {
        return true;
    }
    c0 == '9' && (n == 1 || (n >= 3 && m.get_char(1) == '.' && below_char(m.get_char(2), '5')))
}

fn float_below(t: &str) -> (res: bool)
    ensures
        res == float_text_below_095(t@),
{
    let n = t.unicode_len();
    if n > 0 && t.get_char(0) == '-' {
        return true;
    }
    match split_once(t, 'e') {
        Some((m, x)) => {
            if x.unicode_len() > 0 && x.get_char(0) == '-' {
                if text_eq(x, "-1") {
                    mantissa_below(m)
                } else {
                    true
                }
            } else {
                false
            }
        },
        None => match split_once(t, '.') {
            Some((ip, fp)) => zeros_only(ip) && fraction_below(fp),
            None => zeros_only(t),
        },
    }
}

fn below_095(n: &JsonNumber) -> (res: bool)
    ensures
        res == number_below_095(n@),
{
    match n {
        JsonNumber::PosInt(v) => *v == 0,
        JsonNumber::NegInt(v) => *v < 0,
        JsonNumber::Float(t) => float_below(t.as_str()),
    }
}


/// The fields restored from extensions that encoding a request has already consumed.
pub open spec fn consumed_field(f: Seq<char>) -> bool {
    f == "server_tools"@ || f == "metadata"@ || f == "system_raw"@ || f == "tools_raw"@
}

/// Restores this protocol's extensions as top-level fields; fields already written win, and
/// with `skip` the fields that request encoding consumed are not written back.
pub open spec fn msg_restore(ext: Seq<(Seq<char>, JsonV)>, body: Seq<(Seq<char>, JsonV)>, skip: bool) -> Seq<(Seq<char>, JsonV)>
    decreases ext.len(),
{
    if ext.len() == 0 {
        body
    } else {
        let prev = msg_restore(ext.drop_last(), body, skip);
        let (k, v) = ext.last();
        if k.len() >= 9 && k.subrange(0, 9) == "messages."@ {
            let f = k.subrange(9, k.len() as int);
            if (skip && consumed_field(f)) || member_get(prev, f) is Some {
                prev
            } else {
                ext_insert(prev, f, v)
            }
        } else {
            prev
        }
    }
}

/// What restoring extensions leaves under `f`: the body's own field wins; otherwise the first
/// extension `messages.<f>`, unless `f` is a consumed field and `skip` holds.
pub proof fn lemma_msg_restore_get(ext: Seq<(Seq<char>, JsonV)>, body: Seq<(Seq<char>, JsonV)>, skip: bool, f: Seq<char>)
    ensures
        member_get(msg_restore(ext, body, skip), f) == match member_get(body, f) {
            Some(x) => Some(x),
            None => if skip && consumed_field(f) { None } else { member_get(ext, "messages."@ + f) },
        },
    decreases ext.len(),
{
    reveal_strlit("messages.");
    if ext.len() > 0 {
        let e1 = ext.drop_last();
        lemma_msg_restore_get(e1, body, skip, f);
        let prev = msg_restore(e1, body, skip);
        let (k, v) = ext.last();
        assert(ext =~= e1.push((k, v)));
        let key = "messages."@ + f;
        lemma_member_get_append(e1, (k, v), key);
        assert(key.subrange(0, 9) =~= "messages."@);
        assert(key.subrange(9, key.len() as int) =~= f);
        if k.len() >= 9 && k.subrange(0, 9) == "messages."@ {
            let g = k.subrange(9, k.len() as int);
            assert(k == key <==> g == f) by {
                if g == f {
                    assert(k =~= "messages."@ + g);
                }
            }
            if (skip && consumed_field(g)) || member_get(prev, g) is Some {
            } else {
                lemma_ext_insert(prev, g, v);
            }
        } else {
            assert(k != key);
        }
    }
}

fn is_consumed_field(f: &str) -> (res: bool)
    ensures
        res == consumed_field(f@),
{
    text_eq(f, "server_tools") || text_eq(f, "metadata") || text_eq(f, "system_raw") || text_eq(f, "tools_raw")
}

fn restore_extensions(ext: &Extensions, body: &mut Extensions, skip: bool)
    ensures
        final(body)@ == msg_restore(ext@, old(body)@, skip),
{
    proof {
        reveal_strlit("messages.");
    }
    let n = ext.len();
    let ghost e = ext@;
    let mut i: usize = 0;
    assert(e.subrange(0, 0) =~= Seq::<(Seq<char>, JsonV)>::empty());
    while i < n
        invariant
            i <= n,
            n == e.len(),
            e == ext@,
            body@ == msg_restore(e.subrange(0, i as int), old(body)@, skip),
        decreases n - i,
    {
        proof {
            reveal_strlit("messages.");
        }
        assert(e.subrange(0, i + 1).drop_last() =~= e.subrange(0, i as int));
        let (k, v) = ext.entry(i);
        if let Some(f) = strip_prefix(k, "messages.") {
            if !((skip && is_consumed_field(f)) || body.get(f).is_some()) {
                body.insert(owned(f), v.duplicate());
            }
        }
        i = i + 1;
    }
    assert(e.subrange(0, n as int) =~= e);
}

/// `system`: one text when it is all text, else blocks.
pub open spec fn spec_system_json(system: Seq<PartV>) -> JsonV {
    if all_text(system) {
        JsonV::Str(system_join(system))
    } else {
        JsonV::Array(spec_encode_blocks(system))
    }
}

/// `tools[]`: the raw definitions kept for a pass-through, else the function tools; then the
/// server tools.
pub open spec fn messages_tools_json(r: RequestV) -> Option<Seq<JsonV>> {
    let base: Option<Seq<JsonV>> = match member_get(r.extensions, "messages.tools_raw"@) {
        Some(JsonV::Array(tr)) => Some(tr),
        _ => if r.tools.len() > 0 {
            Some(r.tools.map_values(|t: ToolV| spec_encode_tool(t)))
        } else {
            None
        },
    };
    match member_get(r.extensions, "messages.server_tools"@) {
        Some(JsonV::Array(server)) => Some(match base {
            Some(b) => b,
            None => Seq::empty(),
        } + server),
        _ => base,
    }
}

/// `metadata`: the kept custom fields, with `user_id` set from the user.
pub open spec fn metadata_json(r: RequestV) -> Option<JsonV> {
    let base: Seq<(Seq<char>, JsonV)> = match member_get(r.extensions, "messages.metadata"@) {
        Some(JsonV::Object(m)) => m,
        _ => Seq::empty(),
    };
    let m = match r.user {
        Some(u) => ext_insert(base, "user_id"@, sj(u)),
        None => base,
    };
    if m.len() > 0 {
        Some(JsonV::Object(m))
    } else {
        None
    }
}

/// The Messages request body for an IR request.
///
/// With thinking enabled, sampling parameters Messages refuses are left out: a temperature
/// other than 1, a `top_p` below 0.95, any `top_k`.
pub open spec fn spec_messages_encode_request(r: RequestV) -> JsonV {
    let max = max_tokens_for(r);
    let s = r.sampling;
    let on = thinking_on(r, max);
    let b0 = ext_insert(Seq::empty(), "model"@, sj(r.model));
    let b1 = ext_insert(b0, "max_tokens"@, num(max as u64));
    let b2 = if r.stream { ext_insert(b1, "stream"@, JsonV::Bool(true)) } else { b1 };
    let b3 = ext_opt(b2, "system"@, match member_get(r.extensions, "messages.system_raw"@) {
        Some(v) => Some(v),
        None => if r.system.len() > 0 { Some(spec_system_json(r.system)) } else { None },
    });
    let b4 = ext_insert(b3, "messages"@, JsonV::Array(spec_encode_messages(r.messages)));
    let b5 = ext_opt(b4, "tools"@, match messages_tools_json(r) {
        Some(t) => Some(JsonV::Array(t)),
        None => None,
    });
    let b6 = ext_opt(b5, "tool_choice"@, spec_encode_tool_choice(r.tool_choice, r.parallel_tool_calls));
    let b7 = ext_opt(b6, "temperature"@, match s.temperature {
        Some(t) => if on && !number_is_one(t) { None } else { Some(JsonV::Number(t)) },
        None => None,
    });
    let b8 = ext_opt(b7, "top_p"@, match s.top_p {
        Some(p) => if on && number_below_095(p) { None } else { Some(JsonV::Number(p)) },
        None => None,
    });
    let b9 = ext_opt(b8, "top_k"@, match s.top_k {
        Some(k) => if on { None } else { Some(num(k as u64)) },
        None => None,
    });
    let b10 = ext_opt(b9, "stop_sequences"@, if s.stop.len() > 0 {
        Some(JsonV::Array(s.stop.map_values(|t: Seq<char>| sj(t))))
    } else {
        None
    });
    let b11 = ext_opt(b10, "thinking"@, match r.reasoning {
        Some(rs) => Some(spec_encode_thinking(rs, max)),
        None => None,
    });
    let b12 = ext_opt(b11, "metadata"@, metadata_json(r));
    JsonV::Object(msg_restore(r.extensions, b12, true))
}

fn put_opt(body: &mut Extensions, key: &str, v: Option<Json>)
    ensures
        final(body)@ == ext_opt(old(body)@, key@, match v {
            Some(j) => Some(j@),
            None => None,
        }),
{
    if let Some(j) = v {
        body.insert(owned(key), j);
    }
}

fn system_json(ir: &UnifiedRequest) -> (res: Json)
    ensures
        res@ == spec_system_json(pv(ir.system)),
{
    if all_text_parts(&ir.system) {
        Json::Str(ir.system_text())
    } else {
        Json::Array(encode_blocks(&ir.system))
    }
}

fn tools_json(ir: &UnifiedRequest) -> (res: Option<Vec<Json>>)
    ensures
        match res {
            Some(v) => messages_tools_json(ir@) == Some(items_view(v@)),
            None => messages_tools_json(ir@) is None,
        },
{
    let mut base: Option<Vec<Json>> = match ir.extension("messages.tools_raw") {
        Some(Json::Array(tr)) => Some(dup_items(tr)),
        _ => if ir.tools.len() > 0 {
            let ghost ts = tls(ir.tools@);
            let mut out: Vec<Json> = Vec::new();
            proof {
                lemma_items_view(out@);
            }
            let mut i: usize = 0;
            while i < ir.tools.len()
                invariant
                    i <= ir.tools.len(),
                    ts == tls(ir.tools@),
                    items_view(out@) == ts.subrange(0, i as int).map_values(|t: ToolV| spec_encode_tool(t)),
                decreases ir.tools.len() - i,
            {
                push_json(&mut out, encode_tool(&ir.tools[i]));
                assert(items_view(out@) =~= ts.subrange(0, i + 1).map_values(|t: ToolV| spec_encode_tool(t)));
                i = i + 1;
            }
            assert(ts.subrange(0, ir.tools.len() as int) =~= ts);
            Some(out)
        } else {
            None
        },
    };
    match ir.extension("messages.server_tools") {
        Some(Json::Array(server)) => {
            let mut all = match base {
                Some(b) => b,
                None => {
                    let e: Vec<Json> = Vec::new();
                    proof {
                        lemma_items_view(e@);
                        assert(items_view(e@) =~= Seq::<JsonV>::empty());
                    }
                    e
                },
            };
            append_json(&mut all, dup_items(server));
            Some(all)
        },
        _ => base,
    }
}

fn metadata_exec(ir: &UnifiedRequest) -> (res: Option<Json>)
    ensures
        match res {
            Some(j) => metadata_json(ir@) == Some(j@),
            None => metadata_json(ir@) is None,
        },
{
    let mut m = match ir.extension("messages.metadata") {
        Some(Json::Object(meta)) => Extensions::from_entries(dup_members(meta)),
        _ => {
            let e = Extensions::new();
            assert(e@ =~= Seq::<(Seq<char>, JsonV)>::empty());
            e
        },
    };
    if let Some(u) = &ir.user {
        m.insert(owned("user_id"), str_json(u.as_str()));
    }
    if m.len() > 0 {
        Some(m.into_json())
    } else {
        None
    }
}

fn dup_members(v: &Vec<(String, Json)>) -> (res: Vec<(String, Json)>)
    ensures
        members_view(res@) == members_view(v@),
{
    proof {
        lemma_members_view(v@);
    }
    let mut out: Vec<(String, Json)> = Vec::new();
    proof {
        lemma_members_view(out@);
    }
    let mut i: usize = 0;
    while i < v.len()
        invariant
            i <= v.len(),
            members_view(v@).len() == v.len(),
            forall|k: int| 0 <= k < v.len() ==> #[trigger] members_view(v@)[k] == (v@[k].0@, v@[k].1@),
            members_view(out@) == members_view(v@).subrange(0, i as int),
        decreases v.len() - i,
    {
        push_member(&mut out, v[i].0.as_str(), v[i].1.duplicate());
        assert(members_view(out@) =~= members_view(v@).subrange(0, i + 1));
        i = i + 1;
    }
    assert(members_view(v@).subrange(0, v.len() as int) =~= members_view(v@));
    out
}

fn stop_json(stop: &Vec<String>) -> (res: Option<Json>)
    ensures
        match res {
            Some(j) => stop@.len() > 0 && j@ == JsonV::Array(stop@.map_values(|s: String| s@).map_values(|t: Seq<char>| sj(t))),
            None => stop@.len() == 0,
        },
{
    if stop.len() == 0 {
        return None;
    }
    let ghost sv = stop@.map_values(|s: String| s@);
    let mut a: Vec<Json> = Vec::new();
    proof {
        lemma_items_view(a@);
    }
    let mut i: usize = 0;
    while i < stop.len()
        invariant
            i <= stop.len(),
            sv == stop@.map_values(|s: String| s@),
            items_view(a@) == sv.subrange(0, i as int).map_values(|t: Seq<char>| sj(t)),
        decreases stop.len() - i,
    {
        push_json(&mut a, str_json(stop[i].as_str()));
        assert(items_view(a@) =~= sv.subrange(0, i + 1).map_values(|t: Seq<char>| sj(t)));
        i = i + 1;
    }
    assert(sv.subrange(0, stop.len() as int) =~= sv);
    Some(Json::Array(a))
}

impl MessagesCodec {
    /// Encodes an IR request as a Messages body.
    pub fn encode_request(&self, ir: &UnifiedRequest) -> (res: Json)
        ensures
            res@ == spec_messages_encode_request(ir@),
    {
        let max = match ir.max_output_tokens {
            Some(m) => m,
            None => 4096u32,
        };
        let mut body = Extensions::new();
        assert(body@ =~= Seq::<(Seq<char>, JsonV)>::empty());
        body.insert(owned("model"), str_json(ir.model.as_str()));
        body.insert(owned("max_tokens"), Json::uint(max as u64));
        if ir.stream {
            body.insert(owned("stream"), Json::boolean(true));
        }
        let system = match ir.extension("messages.system_raw") {
            Some(v) => Some(v.duplicate()),
            None => if ir.system.len() > 0 { Some(system_json(ir)) } else { None },
        };
        put_opt(&mut body, "system", system);
        body.insert(owned("messages"), Json::Array(encode_messages(&ir.messages)));
        put_opt(&mut body, "tools", match tools_json(ir) {
            Some(t) => Some(Json::Array(t)),
            None => None,
        });
        put_opt(&mut body, "tool_choice", encode_tool_choice(&ir.tool_choice, ir.parallel_tool_calls));
        let thinking = match &ir.reasoning {
            Some(r) => Some(encode_thinking(r, max)),
            None => None,
        };
        let on = match &thinking {
            Some(t) => match t.get_str("type") {
                Some(ty) => text_eq(ty, "enabled"),
                None => false,
            },
            None => false,
        };
        let s = &ir.sampling;
        put_opt(&mut body, "temperature", match &s.temperature {
            Some(t) => if on && !is_one(t) { None } else { Some(Json::Number(t.duplicate())) },
            None => None,
        });
        put_opt(&mut body, "top_p", match &s.top_p {
            Some(p) => if on && below_095(p) { None } else { Some(Json::Number(p.duplicate())) },
            None => None,
        });
        put_opt(&mut body, "top_k", match s.top_k {
            Some(k) => if on { None } else { Some(Json::uint(k as u64)) },
            None => None,
        });
        put_opt(&mut body, "stop_sequences", stop_json(&s.stop));
        put_opt(&mut body, "thinking", thinking);
        put_opt(&mut body, "metadata", metadata_exec(ir));
        restore_extensions(&ir.extensions, &mut body, true);
        body.into_json()
    }
}


// ---------------------------------------------------------------------------
// Responses
// ---------------------------------------------------------------------------

/// The error kind an Anthropic `error.type` stands for.
pub open spec fn spec_anthropic_error_kind(kind: Seq<char>) -> ErrorKind {
    if kind == "invalid_request_error"@ {
        ErrorKind::InvalidRequest
    } else if kind == "authentication_error"@ {
        ErrorKind::Unauthenticated
    } else if kind == "permission_error"@ {
        ErrorKind::PermissionDenied
    } else if kind == "not_found_error"@ {
        ErrorKind::NotFound
    } else if kind == "request_too_large"@ {
        ErrorKind::PayloadTooLarge
    } else if kind == "rate_limit_error"@ {
        ErrorKind::RateLimited
    } else if kind == "timeout_error"@ {
        ErrorKind::Timeout
    } else {
        ErrorKind::UpstreamError
    }
}

/// The gateway error for an Anthropic error type and message, tied to Messages.
pub fn error_from_anthropic_type(kind: &str, message: &str) -> (res: GatewayError)
    ensures
        res@ == (plain_error(spec_anthropic_error_kind(kind@), message@, Some(Protocol::Messages))),
        res.upstream_status.is_none() && res.upstream_body.is_none(),
{
    let k = if text_eq(kind, "invalid_request_error") {
        ErrorKind::InvalidRequest
    } else if text_eq(kind, "authentication_error") {
        ErrorKind::Unauthenticated
    } else if text_eq(kind, "permission_error") {
        ErrorKind::PermissionDenied
    } else if text_eq(kind, "not_found_error") {
        ErrorKind::NotFound
    } else if text_eq(kind, "request_too_large") {
        ErrorKind::PayloadTooLarge
    } else if text_eq(kind, "rate_limit_error") {
        ErrorKind::RateLimited
    } else if text_eq(kind, "timeout_error") {
        ErrorKind::Timeout
    } else {
        ErrorKind::UpstreamError
    };
    GatewayError::new(k, owned(message)).with_protocol(Protocol::Messages)
}

/// The gateway error an `{type: "error", error: {type, message}}` body stands for.
pub open spec fn spec_error_body(raw: JsonV) -> GatewayErrorV {
    let err = raw.get("error"@);
    plain_error(spec_anthropic_error_kind(str_or(opt_str(opt_get(err, "type"@)), Seq::empty())), str_or(opt_str(opt_get(err, "message"@)), "upstream returned an error without a message"@), Some(Protocol::Messages))
}

fn decode_error_body(raw: &Json) -> (res: GatewayError)
    ensures
        res@ == spec_error_body(raw@),
        res.upstream_status.is_none() && res.upstream_body.is_none(),
{
    let err = raw.get("error");
    let message = match err {
        Some(e) => match e.get_str("message") {
            Some(m) => m,
            None => "upstream returned an error without a message",
        },
        None => "upstream returned an error without a message",
    };
    let kind = match err {
        Some(e) => match e.get_str("type") {
            Some(t) => t,
            None => "",
        },
        None => "",
    };
    proof {
        reveal_strlit("");
        let ev = raw@.get("error"@);
        assert(message@ == str_or(opt_str(opt_get(ev, "message"@)), "upstream returned an error without a message"@));
        assert(kind@ == str_or(opt_str(opt_get(ev, "type"@)), Seq::empty()));
    }
    error_from_anthropic_type(kind, message)
}

/// The top-level response fields this codec reads itself.
pub open spec fn messages_known_response_field(k: Seq<char>) -> bool {
    k == "id"@ || k == "type"@ || k == "role"@ || k == "model"@ || k == "content"@
        || k == "stop_reason"@ || k == "stop_sequence"@ || k == "usage"@
}

fn is_known_response_field(k: &str) -> (res: bool)
    ensures
        res == messages_known_response_field(k@),
{
    text_eq(k, "id") || text_eq(k, "type") || text_eq(k, "role") || text_eq(k, "model") || text_eq(k, "content")
        || text_eq(k, "stop_reason") || text_eq(k, "stop_sequence") || text_eq(k, "usage")
}

fn collect_unknown_response(members: &Vec<(String, Json)>, ext: &mut Extensions)
    ensures
        final(ext)@ == collect_unknown(members_view(members@), |k: Seq<char>| messages_known_response_field(k), "messages."@, old(ext)@),
{
    proof {
        lemma_members_view(members@);
    }
    let ghost ms = members_view(members@);
    let ghost known = |k: Seq<char>| messages_known_response_field(k);
    let mut i: usize = 0;
    while i < members.len()
        invariant
            i <= members.len(),
            ms.len() == members.len(),
            forall|k: int| 0 <= k < members.len() ==> #[trigger] ms[k] == (members@[k].0@, members@[k].1@),
            known == (|k: Seq<char>| messages_known_response_field(k)),
            ext@ == collect_unknown(ms.subrange(0, i as int), known, "messages."@, old(ext)@),
        decreases members.len() - i,
    {
        assert(ms.subrange(0, i + 1).drop_last() =~= ms.subrange(0, i as int));
        let (k, v) = &members[i];
        if !is_known_response_field(k.as_str()) {
            ext.insert(concat("messages.", k.as_str()), v.duplicate());
        }
        i = i + 1;
    }
    assert(ms.subrange(0, members.len() as int) =~= ms);
}

/// The response a Messages body decodes to at time `now`, or the error it stands for.
pub open spec fn spec_messages_decode_response(raw: JsonV, now: i64) -> Result<ResponseV, GatewayErrorV> {
    match raw {
        JsonV::Object(members) => if opt_str(raw.get("type"@)) == Some("error"@) {
            Err(spec_error_body(raw))
        } else {
            match (match raw.get("content"@) {
                Some(JsonV::Array(items)) => spec_decode_blocks(items),
                _ => Ok(Seq::empty()),
            }) {
                Err(e) => Err(plain_error(ErrorKind::InvalidRequest, e, None)),
                Ok(content) => Ok(ResponseV {
                    id: text_or_empty_of(raw, "id"@),
                    model: text_or_empty_of(raw, "model"@),
                    created: now,
                    content,
                    stop_reason: match opt_str(raw.get("stop_reason"@)) {
                        Some(r) => Some(spec_decode_stop_reason(r)),
                        None => None,
                    },
                    stop_sequence: opt_str(raw.get("stop_sequence"@)),
                    usage: match raw.get("usage"@) {
                        Some(u) => spec_decode_usage(u),
                        None => Usage::zero_spec(),
                    },
                    extensions: collect_unknown(members, |k: Seq<char>| messages_known_response_field(k), "messages."@, Seq::empty()),
                }),
            }
        },
        _ => Err(plain_error(ErrorKind::InvalidRequest, "response body must be a JSON object"@, None)),
    }
}

/// A Messages `content` block list for the parts Messages can carry.
pub open spec fn spec_messages_encode_response(r: ResponseV) -> JsonV {
    let b = seq![
        ("id"@, sj(r.id)),
        ("type"@, sj("message"@)),
        ("role"@, sj("assistant"@)),
        ("model"@, sj(r.model)),
        ("content"@, JsonV::Array(spec_encode_blocks(r.content))),
        ("stop_reason"@, match r.stop_reason {
            Some(s) => sj(spec_encode_stop_reason(s)),
            None => JsonV::Null,
        }),
        ("stop_sequence"@, match r.stop_sequence {
            Some(s) => sj(s),
            None => JsonV::Null,
        }),
        ("usage"@, spec_encode_usage(r.usage)),
    ];
    JsonV::Object(msg_restore(r.extensions, b, false))
}

impl MessagesCodec {
    /// Decodes a Messages response body, stamping it with time `now`.
    pub fn decode_response_at(&self, raw: &Json, now: i64) -> (res: Result<UnifiedResponse, GatewayError>)
        ensures
            match res {
                Ok(r) => spec_messages_decode_response(raw@, now) == Ok::<ResponseV, GatewayErrorV>(r@),
                Err(e) => spec_messages_decode_response(raw@, now) == Err::<ResponseV, GatewayErrorV>(e@) && e.upstream_status.is_none() && e.upstream_body.is_none(),
            },
    {
        let members = match raw {
            Json::Object(m) => m,
            _ => return Err(GatewayError::invalid_request(owned("response body must be a JSON object"))),
        };
        if let Some(t) = raw.get_str("type") {
            if text_eq(t, "error") {
                return Err(decode_error_body(raw));
            }
        }
        let content = match raw.get("content") {
            Some(Json::Array(items)) => match decode_blocks(items) {
                Ok(c) => c,
                Err(e) => return Err(GatewayError::invalid_request(e)),
            },
            _ => {
                let v: Vec<ContentPart> = Vec::new();
                proof {
                    lemma_parts_view(v@);
                }
                v
            },
        };
        let stop_reason = match raw.get_str("stop_reason") {
            Some(r) => Some(decode_stop_reason(r)),
            None => None,
        };
        let usage = match raw.get("usage") {
            Some(u) => decode_usage(u),
            None => Usage::zero(),
        };
        let mut extensions = Extensions::new();
        assert(extensions@ =~= Seq::<(Seq<char>, JsonV)>::empty());
        collect_unknown_response(members, &mut extensions);
        let resp = UnifiedResponse {
            id: text_or_empty(raw.get_str("id")),
            model: text_or_empty(raw.get_str("model")),
            created: now,
            content,
            stop_reason,
            stop_sequence: opt_owned(raw.get_str("stop_sequence")),
            usage,
            extensions,
        };
        Ok(resp)
    }

    /// Decodes a Messages response body, stamped with the current time.
    pub fn decode_response(&self, raw: &Json) -> (res: Result<UnifiedResponse, GatewayError>)
        ensures
            exists|now: i64| match res {
                Ok(r) => #[trigger] spec_messages_decode_response(raw@, now) == Ok::<ResponseV, GatewayErrorV>(r@),
                Err(e) => spec_messages_decode_response(raw@, now) == Err::<ResponseV, GatewayErrorV>(e@),
            },
    {
        let now = crate::ir::now_unix_seconds();
        self.decode_response_at(raw, now)
    }

    /// Encodes an IR response as a Messages body.
    pub fn encode_response(&self, ir: &UnifiedResponse) -> (res: Json)
        ensures
            res@ == spec_messages_encode_response(ir@),
    {
        let mut m: Vec<(String, Json)> = Vec::new();
        push_member(&mut m, "id", str_json(ir.id.as_str()));
        push_member(&mut m, "type", str_json("message"));
        push_member(&mut m, "role", str_json("assistant"));
        push_member(&mut m, "model", str_json(ir.model.as_str()));
        push_member(&mut m, "content", Json::Array(encode_blocks(&ir.content)));
        push_member(&mut m, "stop_reason", match ir.stop_reason {
            Some(s) => str_json(encode_stop_reason(s)),
            None => Json::Null,
        });
        push_member(&mut m, "stop_sequence", match &ir.stop_sequence {
            Some(s) => str_json(s.as_str()),
            None => Json::Null,
        });
        push_member(&mut m, "usage", encode_usage(&ir.usage));
        let ghost r = ir@;
        assert(members_view(m@) =~= seq![
            ("id"@, sj(r.id)),
            ("type"@, sj("message"@)),
            ("role"@, sj("assistant"@)),
            ("model"@, sj(r.model)),
            ("content"@, JsonV::Array(spec_encode_blocks(r.content))),
            ("stop_reason"@, match r.stop_reason {
                Some(s) => sj(spec_encode_stop_reason(s)),
                None => JsonV::Null,
            }),
            ("stop_sequence"@, match r.stop_sequence {
                Some(s) => sj(s),
                None => JsonV::Null,
            }),
            ("usage"@, spec_encode_usage(r.usage)),
        ]);
        let mut body = Extensions::from_entries(m);
        restore_extensions(&ir.extensions, &mut body, false);
        body.into_json()
    }
}


// ---------------------------------------------------------------------------
// Laws
// ---------------------------------------------------------------------------

/// `thinking` when disabled.
pub open spec fn thinking_disabled_json() -> JsonV {
    JsonV::Object(seq![("type"@, sj("disabled"@))])
}

/// `thinking` when enabled with a budget.
pub open spec fn thinking_enabled_json(budget: u64) -> JsonV {
    JsonV::Object(seq![("type"@, sj("enabled"@)), ("budget_tokens"@, num(budget))])
}

/// Thinking sent to Messages always obeys its rule on budgets: either it is disabled, or its
/// budget satisfies `1024 <= budget_tokens < max_tokens`.
pub proof fn law_thinking_budget_in_range(r: ReasoningV, max_tokens: u32)
    ensures
        spec_encode_thinking(r, max_tokens) == thinking_disabled_json()
            || exists|b: u64| 1024 <= b < max_tokens && #[trigger] thinking_enabled_json(b) == spec_encode_thinking(r, max_tokens),
{
    if r.include_thoughts != Some(false) {
        if let Some(b) = thinking_budget(r, max_tokens) {
            let ceiling: int = if max_tokens == 0 { 0 } else { max_tokens - 1 };
            if ceiling >= 1024 {
                let c = clamp_range(b, ceiling) as u64;
                assert(thinking_enabled_json(c) == spec_encode_thinking(r, max_tokens));
            }
        }
    }
}

/// A reasoning block sent to Messages and read back keeps its text and its signature.
pub proof fn law_thinking_block_round_trip(text: Seq<char>, signature: Option<Seq<char>>)
    ensures
        spec_encode_block(PartV::Thinking { text, signature }) matches Some(b)
            && spec_decode_block(b) == Ok::<PartV, Seq<char>>(PartV::Thinking { text, signature }),
{
    reveal_with_fuel(member_get, 4);
    reveal_strlit("type");
    reveal_strlit("thinking");
    reveal_strlit("signature");
    reveal_strlit("text");
    reveal_strlit("image");
    reveal_strlit("document");
    reveal_strlit("redacted_thinking");
    reveal_strlit("tool_use");
    reveal_strlit("tool_result");
    let base = seq![("type"@, sj("thinking"@)), ("thinking"@, sj(text))];
    let m = push_opt(base, "signature"@, match signature {
        Some(s) => Some(sj(s)),
        None => None,
    });
    let b = JsonV::Object(m);
    assert(m[0] == ("type"@, sj("thinking"@)));
    assert(member_get(m, "type"@) == Some(sj("thinking"@)));
    let m1 = m.drop_first();
    let m2 = m1.drop_first();
    assert("type"@.len() != "thinking"@.len() && "type"@.len() != "signature"@.len() && "thinking"@.len() != "signature"@.len());
    assert("thinking"@ != "text"@ && "thinking"@ != "image"@ && "thinking"@[0] != "document"@[0]);
    assert(text_or_empty_of(JsonV::Object(m), "type"@) == "thinking"@);
    assert(m1[0] == ("thinking"@, sj(text)));
    assert(member_get(m, "thinking"@) == member_get(m1, "thinking"@));
    assert(member_get(m1, "thinking"@) == Some(sj(text)));
    assert(member_get(m, "signature"@) == member_get(m1, "signature"@));
    assert(member_get(m1, "signature"@) == member_get(m2, "signature"@));
    match signature {
        Some(s) => {
            assert(m2[0] == ("signature"@, sj(s)));
            assert(member_get(m2, "signature"@) == Some(sj(s)));
        },
        None => {
            assert(m2.len() == 0);
            assert(member_get(m2, "signature"@) is None);
        },
    }
}

/// A tool call sent to Messages and read back keeps its id, name and input (Messages carries
/// no signature on tool calls).
pub proof fn law_tool_use_block_round_trip(id: Seq<char>, name: Seq<char>, input: JsonV, signature: Option<Seq<char>>)
    ensures
        spec_encode_block(PartV::ToolUse { id, name, input, signature }) matches Some(b)
            && spec_decode_block(b) == Ok::<PartV, Seq<char>>(PartV::ToolUse { id, name, input, signature: None }),
{
    reveal_with_fuel(member_get, 5);
    reveal_strlit("type");
    reveal_strlit("id");
    reveal_strlit("name");
    reveal_strlit("input");
    reveal_strlit("text");
    reveal_strlit("image");
    reveal_strlit("document");
    reveal_strlit("thinking");
    reveal_strlit("redacted_thinking");
    reveal_strlit("tool_use");
    reveal_strlit("tool_result");
    let m = seq![("type"@, sj("tool_use"@)), ("id"@, sj(id)), ("name"@, sj(name)), ("input"@, input)];
    assert(member_get(m, "type"@) == Some(sj("tool_use"@)));
    let m1 = m.drop_first();
    let m2 = m1.drop_first();
    let m3 = m2.drop_first();
    assert("type"@.len() != "id"@.len() && "type"@.len() != "name"@.len() - 1 && "id"@.len() != "name"@.len());
    assert("type"@[0] != "name"@[0] && "type"@.len() != "input"@.len() && "id"@.len() != "input"@.len() && "name"@.len() != "input"@.len());
    assert("tool_use"@.len() != "text"@.len() && "tool_use"@.len() != "image"@.len() && "tool_use"@[0] != "document"@[0]);
    assert("tool_use"@[1] != "thinking"@[1] && "tool_use"@.len() != "redacted_thinking"@.len());
    assert(text_or_empty_of(JsonV::Object(m), "type"@) == "tool_use"@);
    assert(m1[0] == ("id"@, sj(id)));
    assert(m2[0] == ("name"@, sj(name)));
    assert(m3[0] == ("input"@, input));
    assert(member_get(m, "id"@) == member_get(m1, "id"@));
    assert(member_get(m1, "id"@) == Some(sj(id)));
    assert(member_get(m, "name"@) == member_get(m1, "name"@));
    assert(member_get(m1, "name"@) == member_get(m2, "name"@));
    assert(member_get(m2, "name"@) == Some(sj(name)));
    assert(member_get(m, "input"@) == member_get(m1, "input"@));
    assert(member_get(m1, "input"@) == member_get(m2, "input"@));
    assert(member_get(m2, "input"@) == member_get(m3, "input"@));
    assert(member_get(m3, "input"@) == Some(input));
}

/// A top-level request field that Messages does not read survives decoding: the request's
/// extensions hold it as `messages.<field>`, with the last value the body gave it.
pub proof fn law_unknown_request_field_kept(raw: JsonV, k: Seq<char>)
    requires
        raw matches JsonV::Object(m) && member_last(m, k) is Some,
        !messages_known_request_field(k),
    ensures
        spec_messages_decode_request(raw) matches Ok(r)
            ==> member_get(r.extensions, "messages."@ + k) == member_last(raw->Object_0, k),
{
    let m = raw->Object_0;
    let known = |f: Seq<char>| messages_known_request_field(f);
    assert forall|e: Seq<(Seq<char>, JsonV)>| #[trigger] member_get(collect_unknown(m, known, "messages."@, e), "messages."@ + k) == member_last(m, k) by {
        law_unknown_field_kept(m, known, "messages."@, e, k);
    }
}

/// A top-level field that Messages does not read comes back when the decoded request is
/// encoded for Messages again, with the value the body gave it last (the fields that encoding
/// consumes from extensions excepted).
pub proof fn law_unknown_request_field_round_trip(raw: JsonV, k: Seq<char>)
    requires
        raw matches JsonV::Object(m) && member_last(m, k) is Some,
        !messages_known_request_field(k),
        !consumed_field(k),
    ensures
        spec_messages_decode_request(raw) matches Ok(r)
            ==> spec_messages_encode_request(r).get(k) == member_last(raw->Object_0, k),
{
    law_unknown_request_field_kept(raw, k);
    if spec_messages_decode_request(raw) is Ok {
        let r = spec_messages_decode_request(raw)->Ok_0;
        let max = max_tokens_for(r);
        let s = r.sampling;
        let on = thinking_on(r, max);
        let b0 = ext_insert(Seq::empty(), "model"@, sj(r.model));
        let b1 = ext_insert(b0, "max_tokens"@, num(max as u64));
        let b2 = if r.stream { ext_insert(b1, "stream"@, JsonV::Bool(true)) } else { b1 };
        let b3 = ext_opt(b2, "system"@, match member_get(r.extensions, "messages.system_raw"@) {
            Some(v) => Some(v),
            None => if r.system.len() > 0 { Some(spec_system_json(r.system)) } else { None },
        });
        let b4 = ext_insert(b3, "messages"@, JsonV::Array(spec_encode_messages(r.messages)));
        let b5 = ext_opt(b4, "tools"@, match messages_tools_json(r) {
            Some(t) => Some(JsonV::Array(t)),
            None => None,
        });
        let b6 = ext_opt(b5, "tool_choice"@, spec_encode_tool_choice(r.tool_choice, r.parallel_tool_calls));
        let b7 = ext_opt(b6, "temperature"@, match s.temperature {
            Some(t) => if on && !number_is_one(t) { None } else { Some(JsonV::Number(t)) },
            None => None,
        });
        let b8 = ext_opt(b7, "top_p"@, match s.top_p {
            Some(p) => if on && number_below_095(p) { None } else { Some(JsonV::Number(p)) },
            None => None,
        });
        let b9 = ext_opt(b8, "top_k"@, match s.top_k {
            Some(t) => if on { None } else { Some(num(t as u64)) },
            None => None,
        });
        let b10 = ext_opt(b9, "stop_sequences"@, if s.stop.len() > 0 {
            Some(JsonV::Array(s.stop.map_values(|t: Seq<char>| sj(t))))
        } else {
            None
        });
        let b11 = ext_opt(b10, "thinking"@, match r.reasoning {
            Some(rs) => Some(spec_encode_thinking(rs, max)),
            None => None,
        });
        let b12 = ext_opt(b11, "metadata"@, metadata_json(r));
        assert(spec_messages_encode_request(r) == JsonV::Object(msg_restore(r.extensions, b12, true)));
        lemma_ext_insert(Seq::empty(), "model"@, sj(r.model));
        lemma_ext_insert(b0, "max_tokens"@, num(max as u64));
        lemma_ext_insert(b1, "stream"@, JsonV::Bool(true));
        lemma_ext_opt_other(b2, "system"@, k);
        lemma_ext_insert(b3, "messages"@, JsonV::Array(spec_encode_messages(r.messages)));
        lemma_ext_opt_other(b4, "tools"@, k);
        lemma_ext_opt_other(b5, "tool_choice"@, k);
        lemma_ext_opt_other(b6, "temperature"@, k);
        lemma_ext_opt_other(b7, "top_p"@, k);
        lemma_ext_opt_other(b8, "top_k"@, k);
        lemma_ext_opt_other(b9, "stop_sequences"@, k);
        lemma_ext_opt_other(b10, "thinking"@, k);
        lemma_ext_opt_other(b11, "metadata"@, k);
        assert(member_get(Seq::<(Seq<char>, JsonV)>::empty(), k) is None);
        assert(member_get(b0, k) is None);
        assert(member_get(b1, k) is None);
        assert(member_get(b2, k) is None);
        assert(member_get(b3, k) is None);
        assert(member_get(b4, k) is None);
        assert(member_get(b5, k) is None);
        assert(member_get(b8, k) is None);
        assert(member_get(b11, k) is None);
        assert(member_get(b12, k) is None);
        lemma_msg_restore_get(r.extensions, b12, true, k);
    }
}

/// A Messages stream ends exactly once: `Done`, an error event or `finish` end it, and an
/// ended encoder emits nothing more and stays as it is, whatever comes after.
pub proof fn law_stream_ends_once(st: MsgEncoderV, e: EventV, fresh_id: Seq<char>, fresh_tool: Seq<char>)
    ensures
        (e is Done || e is Error) ==> spec_messages_encode(st, e, fresh_id, fresh_tool).0.finished,
        spec_messages_encode_finish(st, fresh_id).0.finished,
        st.finished ==> spec_messages_encode(st, e, fresh_id, fresh_tool) == (st, Seq::<FrameV>::empty()),
        st.finished ==> spec_messages_encode_finish(st, fresh_id) == (st, Seq::<FrameV>::empty()),
{
}

/// Turns that alternate between user and model, none of them empty.
pub open spec fn alternating_turns(t: Seq<(bool, Seq<JsonV>)>) -> bool {
    &&& forall|i: int| 0 <= i < t.len() ==> (#[trigger] t[i]).1.len() > 0
    &&& forall|i: int| 0 <= i < t.len() - 1 ==> (#[trigger] t[i]).0 != t[i + 1].0
}

proof fn lemma_merge_alternates(ms: Seq<MessageV>)
    ensures
        alternating_turns(merge_messages(ms)),
    decreases ms.len(),
{
    if ms.len() > 0 {
        lemma_merge_alternates(ms.drop_last());
        let acc = merge_messages(ms.drop_last());
        let m = ms.last();
        let a = m.role == Role::Assistant;
        let b = spec_encode_blocks(m.content);
        if b.len() == 0 {
        } else if acc.len() > 0 && acc.last().0 == a {
            let r = acc.update(acc.len() - 1, (a, acc.last().1 + b));
            assert forall|i: int| 0 <= i < r.len() - 1 implies (#[trigger] r[i]).0 != r[i + 1].0 by {
                assert(r[i].0 == acc[i].0 && r[i + 1].0 == acc[i + 1].0);
            }
        } else {
            let r = acc.push((a, b));
            assert forall|i: int| 0 <= i < r.len() - 1 implies (#[trigger] r[i]).0 != r[i + 1].0 by {
                if i < acc.len() - 1 {
                    assert(r[i] == acc[i] && r[i + 1] == acc[i + 1]);
                } else {
                    assert(r[i] == acc.last());
                }
            }
            assert forall|i: int| 0 <= i < r.len() implies (#[trigger] r[i]).1.len() > 0 by {
                if i < acc.len() {
                    assert(r[i] == acc[i]);
                }
            }
        }
    }
}

/// The conversation Messages receives is well formed: it starts with a user turn, user and
/// model turns alternate (tool results travel in user turns, adjacent turns of one role are
/// merged), no turn is empty, each wire message is that turn's role and content (a bare text,
/// or a non-empty array of blocks), and `max_tokens` is always present: the requested limit,
/// else 4096.
pub proof fn law_conversation_well_formed(r: RequestV)
    ensures
        ({
            let t = with_leading_user(merge_messages(r.messages));
            &&& alternating_turns(t)
            &&& t.len() > 0 ==> !t[0].0
            &&& spec_encode_messages(r.messages).len() == t.len()
            &&& forall|i: int| 0 <= i < t.len() ==> #[trigger] spec_encode_messages(r.messages)[i] == turn_json(t[i])
        }),
        spec_messages_encode_request(r).get("max_tokens"@) == Some(num(max_tokens_for(r) as u64)),
        spec_messages_encode_request(r).get("messages"@) == Some(JsonV::Array(spec_encode_messages(r.messages))),
{
    let turns = merge_messages(r.messages);
    lemma_merge_alternates(r.messages);
    let t = with_leading_user(turns);
    if turns.len() > 0 && turns[0].0 {
        let first = seq![(false, seq![placeholder_block()])];
        assert forall|i: int| 0 <= i < t.len() implies (#[trigger] t[i]).1.len() > 0 by {
            if i > 0 {
                assert(t[i] == turns[i - 1]);
            }
        }
        assert forall|i: int| 0 <= i < t.len() - 1 implies (#[trigger] t[i]).0 != t[i + 1].0 by {
            if i > 0 {
                assert(t[i] == turns[i - 1] && t[i + 1] == turns[i]);
            } else {
                assert(t[1] == turns[0]);
            }
        }
    }
    reveal_strlit("model");
    reveal_strlit("max_tokens");
    reveal_strlit("stream");
    reveal_strlit("system");
    reveal_strlit("messages");
    reveal_strlit("tools");
    reveal_strlit("tool_choice");
    reveal_strlit("temperature");
    reveal_strlit("top_p");
    reveal_strlit("top_k");
    reveal_strlit("stop_sequences");
    reveal_strlit("thinking");
    reveal_strlit("metadata");
    let max = max_tokens_for(r);
    let s = r.sampling;
    let on = thinking_on(r, max);
    let mt = "max_tokens"@;
    let msg = "messages"@;
    let b0 = ext_insert(Seq::empty(), "model"@, sj(r.model));
    let b1 = ext_insert(b0, "max_tokens"@, num(max as u64));
    let b2 = if r.stream { ext_insert(b1, "stream"@, JsonV::Bool(true)) } else { b1 };
    let b3 = ext_opt(b2, "system"@, match member_get(r.extensions, "messages.system_raw"@) {
        Some(v) => Some(v),
        None => if r.system.len() > 0 { Some(spec_system_json(r.system)) } else { None },
    });
    let b4 = ext_insert(b3, "messages"@, JsonV::Array(spec_encode_messages(r.messages)));
    let b5 = ext_opt(b4, "tools"@, match messages_tools_json(r) {
        Some(x) => Some(JsonV::Array(x)),
        None => None,
    });
    let b6 = ext_opt(b5, "tool_choice"@, spec_encode_tool_choice(r.tool_choice, r.parallel_tool_calls));
    let b7 = ext_opt(b6, "temperature"@, match s.temperature {
        Some(x) => if on && !number_is_one(x) { None } else { Some(JsonV::Number(x)) },
        None => None,
    });
    let b8 = ext_opt(b7, "top_p"@, match s.top_p {
        Some(x) => if on && number_below_095(x) { None } else { Some(JsonV::Number(x)) },
        None => None,
    });
    let b9 = ext_opt(b8, "top_k"@, match s.top_k {
        Some(x) => if on { None } else { Some(num(x as u64)) },
        None => None,
    });
    let b10 = ext_opt(b9, "stop_sequences"@, if s.stop.len() > 0 {
        Some(JsonV::Array(s.stop.map_values(|x: Seq<char>| sj(x))))
    } else {
        None
    });
    let b11 = ext_opt(b10, "thinking"@, match r.reasoning {
        Some(rs) => Some(spec_encode_thinking(rs, max)),
        None => None,
    });
    let b12 = ext_opt(b11, "metadata"@, metadata_json(r));
    assert(spec_messages_encode_request(r) == JsonV::Object(msg_restore(r.extensions, b12, true)));
    assert(mt.len() != "model"@.len() && mt.len() != "stream"@.len() && mt.len() != "system"@.len());
    assert(mt.len() != "messages"@.len() && mt.len() != "tools"@.len() && mt.len() != "tool_choice"@.len());
    assert(mt.len() != "temperature"@.len() && mt.len() != "top_p"@.len() && mt.len() != "top_k"@.len());
    assert(mt.len() != "stop_sequences"@.len() && mt.len() != "thinking"@.len() && mt.len() != "metadata"@.len());
    assert(msg.len() != "model"@.len() && msg.len() != "stream"@.len() && msg.len() != "system"@.len());
    assert(msg.len() != "tools"@.len() && msg.len() != "tool_choice"@.len() && msg.len() != "temperature"@.len());
    assert(msg.len() != "top_p"@.len() && msg.len() != "top_k"@.len() && msg.len() != "stop_sequences"@.len());
    assert(msg[0] != "thinking"@[0] && msg[2] != "metadata"@[2]);
    lemma_ext_insert(Seq::empty(), "model"@, sj(r.model));
    lemma_ext_insert(b0, "max_tokens"@, num(max as u64));
    lemma_ext_insert(b1, "stream"@, JsonV::Bool(true));
    assert(member_get(b2, mt) == Some(num(max as u64)));
    lemma_ext_opt_other(b2, "system"@, mt);
    assert(member_get(b3, mt) == Some(num(max as u64)));
    lemma_ext_insert(b3, "messages"@, JsonV::Array(spec_encode_messages(r.messages)));
    assert(member_get(b4, mt) == Some(num(max as u64)));
    assert(member_get(b4, msg) == Some(JsonV::Array(spec_encode_messages(r.messages))));
    lemma_ext_opt_other(b4, "tools"@, mt);
    lemma_ext_opt_other(b5, "tool_choice"@, mt);
    lemma_ext_opt_other(b6, "temperature"@, mt);
    lemma_ext_opt_other(b7, "top_p"@, mt);
    lemma_ext_opt_other(b8, "top_k"@, mt);
    lemma_ext_opt_other(b9, "stop_sequences"@, mt);
    lemma_ext_opt_other(b10, "thinking"@, mt);
    lemma_ext_opt_other(b11, "metadata"@, mt);
    lemma_ext_opt_other(b4, "tools"@, msg);
    lemma_ext_opt_other(b5, "tool_choice"@, msg);
    lemma_ext_opt_other(b6, "temperature"@, msg);
    lemma_ext_opt_other(b7, "top_p"@, msg);
    lemma_ext_opt_other(b8, "top_k"@, msg);
    lemma_ext_opt_other(b9, "stop_sequences"@, msg);
    lemma_ext_opt_other(b10, "thinking"@, msg);
    lemma_ext_opt_other(b11, "metadata"@, msg);
    assert(member_get(b8, mt) == Some(num(max as u64)));
    assert(member_get(b12, mt) == Some(num(max as u64)));
    assert(member_get(b8, msg) == Some(JsonV::Array(spec_encode_messages(r.messages))));
    assert(member_get(b12, msg) == Some(JsonV::Array(spec_encode_messages(r.messages))));
    lemma_msg_restore_get(r.extensions, b12, true, mt);
    lemma_msg_restore_get(r.extensions, b12, true, msg);
}


// ---------------------------------------------------------------------------
// Shape of the wire messages' content.

/// A block whose `type` is `text` carries its text as a string.
pub open spec fn text_block_ok(b: JsonV) -> bool {
    opt_str(b.get("type"@)) == Some("text"@) ==> (b.get("text"@) matches Some(JsonV::Str(_)))
}

/// A string, or a non-empty array.
pub open spec fn content_ok(c: JsonV) -> bool {
    c is Str || (c matches JsonV::Array(a) && a.len() > 0)
}

/// No part is a Messages block passed through as it came.
pub open spec fn no_messages_passthrough(ms: Seq<MessageV>) -> bool {
    forall|i: int, j: int| 0 <= i < ms.len() && 0 <= j < ms[i].content.len()
        ==> !(#[trigger] ms[i].content[j] matches PartV::Opaque { protocol, .. } && protocol == "messages"@)
}

proof fn lemma_type_is_not_text()
    ensures
        "type"@ != "text"@,
{
    reveal_strlit("type");
    reveal_strlit("text");
    assert("type"@[1] != "text"@[1]);
}

/// A block whose first member is `type`: when its type is `text`, its second member is a
/// string under `text`; then it meets [`text_block_ok`].
proof fn lemma_typed_block_ok(m: Seq<(Seq<char>, JsonV)>, t: Seq<char>, is_text: bool)
    requires
        m.len() >= 2,
        m[0] == ("type"@, JsonV::Str(t)),
        is_text ==> (t == "text"@ && m[1].0 == "text"@ && m[1].1 is Str),
        !is_text ==> t != "text"@,
    ensures
        text_block_ok(JsonV::Object(m)),
{
    lemma_type_is_not_text();
    assert(member_get(m, "type"@) == Some(m[0].1));
    if is_text {
        let d = m.drop_first();
        assert(d[0] == m[1]);
        assert(member_get(d, "text"@) == Some(d[0].1));
        assert(member_get(m, "text"@) == member_get(d, "text"@));
    }
}

proof fn lemma_block_text_ok(part: PartV)
    requires
        !(part matches PartV::Opaque { protocol, .. } && protocol == "messages"@),
    ensures
        spec_encode_block(part) matches Some(b) ==> text_block_ok(b),
{
    reveal_strlit("text");
    reveal_strlit("image");
    reveal_strlit("document");
    reveal_strlit("thinking");
    reveal_strlit("redacted_thinking");
    reveal_strlit("tool_use");
    reveal_strlit("tool_result");
    assert("image"@[0] != "text"@[0]);
    assert("document"@[0] != "text"@[0]);
    assert("thinking"@[1] != "text"@[1]);
    assert("redacted_thinking"@[0] != "text"@[0]);
    assert("tool_use"@[1] != "text"@[1]);
    assert("tool_result"@[1] != "text"@[1]);
    match part {
        PartV::Text { text } => lemma_typed_block_ok(seq![("type"@, sj("text"@)), ("text"@, sj(text))], "text"@, true),
        PartV::Refusal { text } => lemma_typed_block_ok(seq![("type"@, sj("text"@)), ("text"@, sj(text))], "text"@, true),
        PartV::Image { source, mime, .. } => lemma_typed_block_ok(
            seq![("type"@, sj("image"@)), ("source"@, spec_encode_source(source, mime))], "image"@, false),
        PartV::File { source, mime, name } => lemma_typed_block_ok(push_opt(
            seq![("type"@, sj("document"@)), ("source"@, spec_encode_source(source, mime))],
            "title"@,
            match name {
                Some(n) => Some(sj(n)),
                None => None,
            },
        ), "document"@, false),
        PartV::Audio { source, format } => lemma_typed_block_ok(
            seq![("type"@, sj("document"@)), ("source"@, spec_encode_source(source, format))], "document"@, false),
        PartV::Thinking { text, signature } => lemma_typed_block_ok(push_opt(
            seq![("type"@, sj("thinking"@)), ("thinking"@, sj(text))],
            "signature"@,
            match signature {
                Some(s) => Some(sj(s)),
                None => None,
            },
        ), "thinking"@, false),
        PartV::RedactedThinking { data } => lemma_typed_block_ok(
            seq![("type"@, sj("redacted_thinking"@)), ("data"@, sj(data))], "redacted_thinking"@, false),
        PartV::ToolUse { id, name, input, .. } => lemma_typed_block_ok(seq![
            ("type"@, sj("tool_use"@)),
            ("id"@, sj(id)),
            ("name"@, sj(name)),
            ("input"@, input),
        ], "tool_use"@, false),
        PartV::ToolResult { id, content, is_error, .. } => lemma_typed_block_ok(push_opt(
            seq![("type"@, sj("tool_result"@)), ("tool_use_id"@, sj(id)), ("content"@, spec_tool_result_json(content))],
            "is_error"@,
            if is_error { Some(JsonV::Bool(true)) } else { None },
        ), "tool_result"@, false),
        PartV::Opaque { .. } => {},
    }
}

proof fn lemma_blocks_text_ok(parts: Seq<PartV>)
    requires
        forall|j: int| 0 <= j < parts.len() ==> !(#[trigger] parts[j] matches PartV::Opaque { protocol, .. } && protocol == "messages"@),
    ensures
        forall|j: int| 0 <= j < spec_encode_blocks(parts).len() ==> text_block_ok(#[trigger] spec_encode_blocks(parts)[j]),
    decreases parts.len(),
{
    if parts.len() > 0 {
        let d = parts.drop_last();
        assert forall|j: int| 0 <= j < d.len() implies !(#[trigger] d[j] matches PartV::Opaque { protocol, .. } && protocol == "messages"@) by {
            assert(d[j] == parts[j]);
        }
        lemma_blocks_text_ok(d);
        assert(parts.last() == parts[parts.len() - 1]);
        lemma_block_text_ok(parts.last());
        let prev = spec_encode_blocks(d);
        let r = spec_encode_blocks(parts);
        assert forall|j: int| 0 <= j < r.len() implies text_block_ok(#[trigger] r[j]) by {
            if j < prev.len() {
                assert(r[j] == prev[j]);
            }
        }
    }
}

proof fn lemma_merge_text_ok(ms: Seq<MessageV>)
    requires
        no_messages_passthrough(ms),
    ensures
        forall|i: int, j: int| 0 <= i < merge_messages(ms).len() && 0 <= j < merge_messages(ms)[i].1.len()
            ==> text_block_ok(#[trigger] merge_messages(ms)[i].1[j]),
    decreases ms.len(),
{
    if ms.len() > 0 {
        let d = ms.drop_last();
        assert forall|i: int, j: int| 0 <= i < d.len() && 0 <= j < d[i].content.len()
            implies !(#[trigger] d[i].content[j] matches PartV::Opaque { protocol, .. } && protocol == "messages"@) by {
            assert(d[i] == ms[i]);
        }
        lemma_merge_text_ok(d);
        let m = ms.last();
        assert(m == ms[ms.len() - 1]);
        assert forall|j: int| 0 <= j < m.content.len() implies !(#[trigger] m.content[j] matches PartV::Opaque { protocol, .. } && protocol == "messages"@) by {
            assert(ms[ms.len() - 1].content[j] == m.content[j]);
        }
        lemma_blocks_text_ok(m.content);
        let acc = merge_messages(d);
        let a = m.role == Role::Assistant;
        let b = spec_encode_blocks(m.content);
        let r = merge_messages(ms);
        if b.len() == 0 {
        } else if acc.len() > 0 && acc.last().0 == a {
            assert forall|i: int, j: int| 0 <= i < r.len() && 0 <= j < r[i].1.len() implies text_block_ok(#[trigger] r[i].1[j]) by {
                if i < acc.len() - 1 {
                    assert(r[i] == acc[i]);
                } else {
                    let x = acc.last().1;
                    assert(r[i].1 == x + b);
                    if j < x.len() {
                        assert((x + b)[j] == x[j]);
                        assert(acc[acc.len() - 1].1[j] == x[j]);
                    } else {
                        assert((x + b)[j] == b[j - x.len()]);
                    }
                }
            }
        } else {
            assert forall|i: int, j: int| 0 <= i < r.len() && 0 <= j < r[i].1.len() implies text_block_ok(#[trigger] r[i].1[j]) by {
                if i < acc.len() {
                    assert(r[i] == acc[i]);
                }
            }
        }
    }
}

/// Every wire message's content is a string or a non-empty array of blocks, for any request
/// without Messages blocks passed through as they came (a lone pass-through block typed `text`
/// sends its `text` value as it is, whatever it holds).
pub proof fn law_message_contents(r: RequestV)
    requires
        no_messages_passthrough(r.messages),
    ensures
        forall|i: int| 0 <= i < spec_encode_messages(r.messages).len()
            ==> ((#[trigger] spec_encode_messages(r.messages)[i]).get("content"@) matches Some(c) && content_ok(c)),
{
    reveal_strlit("role");
    reveal_strlit("content");
    reveal_strlit("type");
    reveal_strlit("text");
    law_conversation_well_formed(r);
    lemma_merge_text_ok(r.messages);
    let turns = merge_messages(r.messages);
    let t = with_leading_user(turns);
    assert forall|i: int, j: int| 0 <= i < t.len() && 0 <= j < t[i].1.len() implies text_block_ok(#[trigger] t[i].1[j]) by {
        if turns.len() > 0 && turns[0].0 {
            if i > 0 {
                assert(t[i] == turns[i - 1]);
            } else {
                assert(t[0].1 == seq![placeholder_block()]);
                assert(j == 0);
                let pb = seq![("type"@, sj("text"@)), ("text"@, sj("."@))];
                lemma_typed_block_ok(pb, "text"@, true);
            }
        }
    }
    assert forall|i: int| 0 <= i < spec_encode_messages(r.messages).len()
        implies ((#[trigger] spec_encode_messages(r.messages)[i]).get("content"@) matches Some(c) && content_ok(c)) by {
        let turn = t[i];
        assert(spec_encode_messages(r.messages)[i] == turn_json(turn));
        assert(turn.1.len() > 0);
        let m = seq![("role"@, sj(if turn.0 { "assistant"@ } else { "user"@ })), ("content"@, JsonV::Null)];
        assert("role"@[0] != "content"@[0]);
        let msg = turn_json(turn);
        let mm = msg->Object_0;
        assert(mm.drop_first()[0] == mm[1]);
        assert(member_get(mm.drop_first(), "content"@) == Some(mm[1].1));
        if turn.1.len() == 1 && opt_str(turn.1[0].get("type"@)) == Some("text"@) {
            assert(text_block_ok(t[i].1[0]));
        }
    }
}


// ---------------------------------------------------------------------------
// Stop reasons and stop sequences through the stream.

proof fn lemma_message_delta_name()
    ensures
        "message_delta"@ != "message_start"@,
        "message_delta"@ != "content_block_start"@,
        "message_delta"@ != "content_block_delta"@,
        "message_delta"@ != "content_block_stop"@,
{
    reveal_strlit("message_delta");
    reveal_strlit("message_start");
    reveal_strlit("content_block_start");
    reveal_strlit("content_block_delta");
    reveal_strlit("content_block_stop");
    assert("message_delta"@[8] != "message_start"@[8]);
    assert("message_delta"@[0] != "content_block_start"@[0]);
    assert("message_delta"@[0] != "content_block_delta"@[0]);
    assert("message_delta"@[0] != "content_block_stop"@[0]);
}

/// A `message_delta` whose delta names a stop reason yields, as its last event, the `Stop` for
/// that reason carrying the delta's stop sequence when it is text (and none otherwise); the
/// usage, when given, comes before it, and the decoder's state does not change.
pub proof fn law_message_delta_stop(st: MsgDecoderV, value: JsonV, d: JsonV, r: Seq<char>)
    requires
        value.get("delta"@) == Some(d),
        d.get("stop_reason"@) == Some(JsonV::Str(r)),
    ensures
        spec_messages_event(st, "message_delta"@, value).0 == st,
        spec_messages_event(st, "message_delta"@, value).1.len() == (if value.get("usage"@) is Some { 2int } else { 1int }),
        spec_messages_event(st, "message_delta"@, value).1.last() == (EventV::Stop {
            reason: spec_decode_stop_reason(r),
            stop_sequence: match d.get("stop_sequence"@) {
                Some(JsonV::Str(x)) => Some(x),
                _ => None,
            },
        }),
{
    lemma_message_delta_name();
}


/// `frames` holds a `message_delta` whose delta names stop reason `r` and stop sequence `s`.
pub open spec fn message_delta_carries(frames: Seq<FrameV>, r: StopReason, s: Seq<char>) -> bool {
    exists|i: int, p: JsonV| #![trigger frames[i], named("message_delta"@, p)]
        0 <= i < frames.len() && frames[i] == named("message_delta"@, p)
        && (p.get("delta"@) matches Some(d)
            && d.get("stop_reason"@) == Some(JsonV::Str(spec_encode_stop_reason(r)))
            && d.get("stop_sequence"@) == Some(JsonV::Str(s)))
}

proof fn lemma_wrap_up_carries(st: MsgEncoderV, fresh_id: Seq<char>, r: StopReason, s: Seq<char>)
    requires
        !st.finished,
        st.stop_reason == Some(r),
        st.stop_sequence == Some(s),
    ensures
        message_delta_carries(enc_wrap_up(st, Seq::empty(), fresh_id).1, r, s),
{
    reveal_strlit("type");
    reveal_strlit("delta");
    reveal_strlit("stop_reason");
    reveal_strlit("stop_sequence");
    assert("type"@.len() != "delta"@.len());
    assert("stop_reason"@.len() != "stop_sequence"@.len());
    let (s1, f1) = enc_ensure_started(MsgEncoderV { finished: true, ..st }, Seq::empty(), fresh_id);
    let (s2, f2) = enc_close_open(s1, f1);
    let p = message_delta_payload(r, s2.stop_sequence, s2.usage);
    let frames = enc_wrap_up(st, Seq::empty(), fresh_id).1;
    let i = f2.len() as int;
    assert(frames[i] == named("message_delta"@, p));
    assert(s2.stop_sequence == Some(s));
    assert(s2.stop_reason == Some(r));
    let dm = seq![
        ("stop_reason"@, JsonV::Str(spec_encode_stop_reason(r))),
        ("stop_sequence"@, text_or_null(s2.stop_sequence)),
    ];
    let pm = seq![
        ("type"@, JsonV::Str("message_delta"@)),
        ("delta"@, JsonV::Object(dm)),
        ("usage"@, spec_encode_usage(s2.usage)),
    ];
    assert(p == JsonV::Object(pm));
    assert(pm.drop_first()[0] == pm[1]);
    assert(member_get(pm.drop_first(), "delta"@) == Some(JsonV::Object(dm)));
    assert(p.get("delta"@) == Some(JsonV::Object(dm)));
    assert(dm.drop_first()[0] == dm[1]);
    assert(member_get(dm.drop_first(), "stop_sequence"@) == Some(JsonV::Str(s)));
    assert(JsonV::Object(dm).get("stop_sequence"@) == Some(JsonV::Str(s)));
    assert(JsonV::Object(dm).get("stop_reason"@) == Some(JsonV::Str(spec_encode_stop_reason(r))));
}

/// A `Stop` event's stop reason and stop sequence reach the client: the encoder keeps them
/// through every later event that is not itself a `Stop`, and ending the stream, by `Done` or
/// by `finish`, sends a `message_delta` whose delta carries that reason and that sequence.
pub proof fn law_stop_sequence_sent(st: MsgEncoderV, r: StopReason, s: Seq<char>, fresh_id: Seq<char>, fresh_tool: Seq<char>)
    requires
        !st.finished,
    ensures
        spec_messages_encode(st, EventV::Stop { reason: r, stop_sequence: Some(s) }, fresh_id, fresh_tool).0.stop_reason == Some(r),
        spec_messages_encode(st, EventV::Stop { reason: r, stop_sequence: Some(s) }, fresh_id, fresh_tool).0.stop_sequence == Some(s),
        message_delta_carries(spec_messages_encode(
            spec_messages_encode(st, EventV::Stop { reason: r, stop_sequence: Some(s) }, fresh_id, fresh_tool).0,
            EventV::Done, fresh_id, fresh_tool).1, r, s),
        message_delta_carries(spec_messages_encode_finish(
            spec_messages_encode(st, EventV::Stop { reason: r, stop_sequence: Some(s) }, fresh_id, fresh_tool).0, fresh_id).1, r, s),
{
    let s1 = spec_messages_encode(st, EventV::Stop { reason: r, stop_sequence: Some(s) }, fresh_id, fresh_tool).0;
    lemma_wrap_up_carries(s1, fresh_id, r, s);
}

/// Events other than `Stop` leave the stop reason and stop sequence the encoder holds.
#[verifier::spinoff_prover]
pub proof fn law_stop_kept(st: MsgEncoderV, e: EventV, fresh_id: Seq<char>, fresh_tool: Seq<char>)
    requires
        !(e is Stop),
    ensures
        spec_messages_encode(st, e, fresh_id, fresh_tool).0.stop_reason == st.stop_reason,
        spec_messages_encode(st, e, fresh_id, fresh_tool).0.stop_sequence == st.stop_sequence,
{
    if !st.finished {
        match e {
            EventV::Start { id, model, usage } => {},
            EventV::ContentStart { index, kind } => {},
            EventV::TextDelta { index, text } => {},
            EventV::RefusalDelta { index, text } => {},
            EventV::ThinkingDelta { index, text } => {},
            EventV::ThinkingSignature { index, signature } => {},
            EventV::ToolCallStart { index, id, name, .. } => {},
            EventV::ToolCallArgsDelta { index, fragment } => {
                let (s1, mapped) = enc_anth_index(st, index);
                assert(s1.stop_sequence == st.stop_sequence && s1.stop_reason == st.stop_reason);
            },
            EventV::ContentStop { index } => {},
            _ => {},
        }
    }
}


/// Usage written in Anthropic form reads back as the same usage: input, output, cache-read
/// and cache-write counts (Anthropic has no reasoning count).
pub proof fn law_messages_usage_round_trip(u: Usage)
    ensures
        spec_decode_usage(spec_encode_usage(u)) == (Usage { reasoning_tokens: 0, ..u }),
{
    reveal_strlit("input_tokens");
    reveal_strlit("output_tokens");
    reveal_strlit("cache_creation_input_tokens");
    reveal_strlit("cache_read_input_tokens");
    assert("input_tokens"@.len() == 12);
    assert("output_tokens"@.len() == 13);
    assert("cache_creation_input_tokens"@.len() == 27);
    assert("cache_read_input_tokens"@.len() == 23);
    reveal_with_fuel(member_get, 5);
}


/// Without reasoning, the Messages request body carries the request's sampling parameters
/// under their Anthropic names: `temperature`, `top_p` and `top_k` hold exactly the request's
/// temperature, top-p and top-k whenever it sets them.
pub proof fn law_messages_sampling_encoded(r: RequestV)
    requires
        r.reasoning is None,
    ensures
        r.sampling.temperature matches Some(t) ==> spec_messages_encode_request(r).get("temperature"@) == Some(JsonV::Number(t)),
        r.sampling.top_p matches Some(t) ==> spec_messages_encode_request(r).get("top_p"@) == Some(JsonV::Number(t)),
        r.sampling.top_k matches Some(k) ==> spec_messages_encode_request(r).get("top_k"@) == Some(num(k as u64)),
{
    reveal_strlit("temperature");
    reveal_strlit("top_p");
    reveal_strlit("top_k");
    reveal_strlit("stop_sequences");
    reveal_strlit("thinking");
    reveal_strlit("metadata");
    assert("temperature"@.len() == 11);
    assert("top_p"@.len() == 5);
    assert("top_k"@.len() == 5);
    assert("stop_sequences"@.len() == 14);
    assert("thinking"@.len() == 8);
    assert("metadata"@.len() == 8);
    assert("top_p"@[4] != "top_k"@[4]);
    assert("thinking"@[0] != "metadata"@[0]);
    let max = max_tokens_for(r);
    let s = r.sampling;
    let on = thinking_on(r, max);
    assert(!on);
    let b0 = ext_insert(Seq::empty(), "model"@, sj(r.model));
    let b1 = ext_insert(b0, "max_tokens"@, num(max as u64));
    let b2 = if r.stream { ext_insert(b1, "stream"@, JsonV::Bool(true)) } else { b1 };
    let b3 = ext_opt(b2, "system"@, match member_get(r.extensions, "messages.system_raw"@) {
        Some(v) => Some(v),
        None => if r.system.len() > 0 { Some(spec_system_json(r.system)) } else { None },
    });
    let b4 = ext_insert(b3, "messages"@, JsonV::Array(spec_encode_messages(r.messages)));
    let b5 = ext_opt(b4, "tools"@, match messages_tools_json(r) {
        Some(t) => Some(JsonV::Array(t)),
        None => None,
    });
    let b6 = ext_opt(b5, "tool_choice"@, spec_encode_tool_choice(r.tool_choice, r.parallel_tool_calls));
    let b7 = ext_opt(b6, "temperature"@, match s.temperature {
        Some(t) => if on && !number_is_one(t) { None } else { Some(JsonV::Number(t)) },
        None => None,
    });
    let b8 = ext_opt(b7, "top_p"@, match s.top_p {
        Some(p) => if on && number_below_095(p) { None } else { Some(JsonV::Number(p)) },
        None => None,
    });
    let b9 = ext_opt(b8, "top_k"@, match s.top_k {
        Some(k) => if on { None } else { Some(num(k as u64)) },
        None => None,
    });
    let b10 = ext_opt(b9, "stop_sequences"@, if s.stop.len() > 0 {
        Some(JsonV::Array(s.stop.map_values(|t: Seq<char>| sj(t))))
    } else {
        None
    });
    let b11 = ext_opt(b10, "thinking"@, match r.reasoning {
        Some(rs) => Some(spec_encode_thinking(rs, max)),
        None => None,
    });
    let b12 = ext_opt(b11, "metadata"@, metadata_json(r));
    assert(spec_messages_encode_request(r) == JsonV::Object(msg_restore(r.extensions, b12, true)));
    let ks = seq!["temperature"@, "top_p"@, "top_k"@];
    assert forall|i: int| 0 <= i < 3 implies member_get(b12, #[trigger] ks[i]) == member_get(b9, ks[i]) by {
        let k = ks[i];
        lemma_ext_opt_other(b9, "stop_sequences"@, k);
        lemma_ext_opt_other(b10, "thinking"@, k);
        lemma_ext_opt_other(b11, "metadata"@, k);
    }
    assert(ks[0] == "temperature"@ && ks[1] == "top_p"@ && ks[2] == "top_k"@);
    lemma_ext_opt_other(b7, "top_p"@, "temperature"@);
    lemma_ext_opt_other(b8, "top_k"@, "temperature"@);
    lemma_ext_opt_other(b8, "top_k"@, "top_p"@);
    if let Some(t) = s.temperature {
        lemma_ext_insert(b6, "temperature"@, JsonV::Number(t));
    }
    if let Some(t) = s.top_p {
        lemma_ext_insert(b7, "top_p"@, JsonV::Number(t));
    }
    if let Some(k) = s.top_k {
        lemma_ext_insert(b8, "top_k"@, num(k as u64));
    }
    lemma_msg_restore_get(r.extensions, b12, true, "temperature"@);
    lemma_msg_restore_get(r.extensions, b12, true, "top_p"@);
    lemma_msg_restore_get(r.extensions, b12, true, "top_k"@);
}


/// A decoded Messages request takes its sampling parameters from the body: a number under
/// `temperature` or `top_p` becomes the request's temperature or top-p.
pub proof fn law_messages_sampling_decoded(raw: JsonV)
    ensures
        spec_messages_decode_request(raw) matches Ok(r) ==> {
            &&& (raw.get("temperature"@) matches Some(JsonV::Number(t)) ==> r.sampling.temperature == Some(t))
            &&& (raw.get("top_p"@) matches Some(JsonV::Number(t)) ==> r.sampling.top_p == Some(t))
        },
{
}


/// A `message_start` yields one `Start` with the message's id and model (empty when absent)
/// and, when it gives usage, that usage; the decoder's state does not change.
pub proof fn law_message_start(st: MsgDecoderV, value: JsonV, m: JsonV)
    requires
        value.get("message"@) == Some(m),
    ensures
        spec_messages_event(st, "message_start"@, value) == (st, seq![EventV::Start {
            id: match m.get("id"@) { Some(JsonV::Str(i)) => i, _ => Seq::empty() },
            model: match m.get("model"@) { Some(JsonV::Str(x)) => x, _ => Seq::empty() },
            usage: match m.get("usage"@) { Some(u) => Some(spec_decode_usage(u)), None => None },
        }]),
{
}


/// A decoded Messages response takes its id, model, stop sequence, stop reason and usage from
/// the body's fields of those names.
pub proof fn law_messages_response_fields(raw: JsonV, now: i64)
    ensures
        spec_messages_decode_response(raw, now) matches Ok(r) ==> {
            &&& (raw.get("id"@) matches Some(JsonV::Str(i)) ==> r.id == i)
            &&& (raw.get("model"@) matches Some(JsonV::Str(m)) ==> r.model == m)
            &&& (raw.get("stop_sequence"@) matches Some(JsonV::Str(s)) ==> r.stop_sequence == Some(s))
            &&& (raw.get("stop_reason"@) matches Some(JsonV::Str(x)) ==> r.stop_reason == Some(spec_decode_stop_reason(x)))
            &&& (raw.get("usage"@) matches Some(u) ==> r.usage == spec_decode_usage(u))
            &&& r.created == now
        },
{
}


/// A response written as a Messages body reads back with the same id, model, stop sequence
/// and usage (Anthropic has no reasoning count), stamped with the reading time.
pub proof fn law_messages_response_round_trip(r: ResponseV, now: i64)
    ensures
        spec_messages_decode_response(spec_messages_encode_response(r), now) matches Ok(d) ==> {
            &&& d.id == r.id
            &&& d.model == r.model
            &&& d.stop_sequence == r.stop_sequence
            &&& d.usage == (Usage { reasoning_tokens: 0, ..r.usage })
            &&& d.created == now
        },
{
    reveal_strlit("id");
    reveal_strlit("type");
    reveal_strlit("role");
    reveal_strlit("model");
    reveal_strlit("content");
    reveal_strlit("stop_reason");
    reveal_strlit("stop_sequence");
    reveal_strlit("usage");
    reveal_strlit("message");
    reveal_strlit("error");
    assert("id"@.len() == 2);
    assert("type"@.len() == 4);
    assert("role"@.len() == 4);
    assert("model"@.len() == 5);
    assert("content"@.len() == 7);
    assert("stop_reason"@.len() == 11);
    assert("stop_sequence"@.len() == 13);
    assert("usage"@.len() == 5);
    assert("message"@.len() == 7);
    assert("error"@.len() == 5);
    assert("type"@[0] != "role"@[0]);
    assert("model"@[0] != "usage"@[0]);
    let b = seq![
        ("id"@, sj(r.id)),
        ("type"@, sj("message"@)),
        ("role"@, sj("assistant"@)),
        ("model"@, sj(r.model)),
        ("content"@, JsonV::Array(spec_encode_blocks(r.content))),
        ("stop_reason"@, match r.stop_reason {
            Some(s) => sj(spec_encode_stop_reason(s)),
            None => JsonV::Null,
        }),
        ("stop_sequence"@, match r.stop_sequence {
            Some(s) => sj(s),
            None => JsonV::Null,
        }),
        ("usage"@, spec_encode_usage(r.usage)),
    ];
    reveal_with_fuel(member_get, 9);
    assert(member_get(b, "id"@) == Some(sj(r.id)));
    assert(member_get(b, "type"@) == Some(sj("message"@)));
    assert(member_get(b, "model"@) == Some(sj(r.model)));
    assert(member_get(b, "stop_sequence"@) == Some(b[6].1));
    assert(member_get(b, "usage"@) == Some(spec_encode_usage(r.usage)));
    lemma_msg_restore_get(r.extensions, b, false, "id"@);
    lemma_msg_restore_get(r.extensions, b, false, "type"@);
    lemma_msg_restore_get(r.extensions, b, false, "model"@);
    lemma_msg_restore_get(r.extensions, b, false, "stop_sequence"@);
    lemma_msg_restore_get(r.extensions, b, false, "usage"@);
    law_messages_usage_round_trip(r.usage);
    assert(spec_messages_encode_response(r) == JsonV::Object(msg_restore(r.extensions, b, false)));
}

} // verus!
