//! Google Gemini codec.
//!
//! Gemini accepts both camelCase and snake_case field names; tool calls may
//! lack ids (a `name#index` id is made up for them); streaming chunks are
//! complete responses without ceremony or sentinel.

use vstd::prelude::*;
use crate::error::{ErrorKind, GatewayError, GatewayErrorV, plain_error, Protocol, openai_type_of};
use crate::ir::{ContentPart, MediaSource, PartV, SourceV, StopReason, Usage, ov, random_uuid, uuid_text, pv, lemma_parts_view,
    lemma_parts_view_push, Message, MessageV, Role, msgs, ToolDef, ToolV, tls, ToolChoice, ChoiceV, Sampling, SamplingV,
    ResponseFormat, FormatV, ReasoningConfig, ReasoningV, UnifiedRequest, RequestV, Extensions, ext_insert, base64_of_text,
    base64_encode_text, lemma_ext_insert, lemma_member_get_append, text_of, concat_texts, effort_budget, ceiling_of, UnifiedResponse, ResponseV, usage_max, dup_opt};
use crate::codec::chat::{spec_as_number, spec_as_i64, texts_of, as_number, as_i64, parse_stop, collect_unknown, member_last, law_unknown_field_kept};
use crate::json::{Json, JsonV, JsonNumber, NumberV, json_parse, json_render, opt_str, opt_u64, opt_bool, str_or, non_empty, opt_view, member_get, opt_get,
    items_view, lemma_items_view, members_view, lemma_members_view, push_member};
use crate::stream::{StreamEvent, EventV, PartKind, SseFrame, FrameV, evs, frs, push_event, push_frame};
use crate::codec::chat::data_frame;
use crate::text::{text_eq, owned, trim, trimmed, concat, starts_with, strip_prefix, split_once, index_of, decimal, decimal_text, all_digits, is_all_digits};

verus! {

/// Google Gemini codec.
pub struct GeminiCodec;

/// Field `camel` of `v`, else field `snake`.
pub open spec fn field_of(v: JsonV, camel: Seq<char>, snake: Seq<char>) -> Option<JsonV> {
    match v.get(camel) {
        Some(x) => Some(x),
        None => v.get(snake),
    }
}

/// The non-empty text of an optional value.
pub open spec fn spec_non_empty_str(v: Option<JsonV>) -> Option<Seq<char>> {
    non_empty(opt_str(v))
}

fn non_empty_str(v: Option<&Json>) -> (res: Option<String>)
    ensures
        ov(res) == spec_non_empty_str(opt_view(v)),
{
    match v {
        Some(j) => match j.as_str() {
            Some(s) => if s.unicode_len() > 0 { Some(owned(s)) } else { None },
            None => None,
        },
        None => None,
    }
}

/// The id of a tool call or result: its own when present, else `name#index`.
pub open spec fn spec_fallback_call_id(id: Option<JsonV>, name: Seq<char>, index: usize) -> Seq<char> {
    match spec_non_empty_str(id) {
        Some(i) => i,
        None => name + seq!['#'] + decimal(index as nat),
    }
}

fn fallback_call_id(id: Option<&Json>, name: &str, index: usize) -> (res: String)
    ensures
        res@ == spec_fallback_call_id(opt_view(id), name@, index),
{
    match non_empty_str(id) {
        Some(i) => i,
        None => {
            proof {
                reveal_strlit("#");
            }
            let mut out = concat(name, "#");
            let d = decimal_text(index as u64);
            out.append(d.as_str());
            out
        },
    }
}

/// Whether `id` is one made up by [`spec_fallback_call_id`]: `name` or `name#digits`.
pub open spec fn spec_is_synthetic_call_id(id: Seq<char>, name: Seq<char>) -> bool {
    id == name || (name.len() + 1 < id.len() && id.subrange(0, name.len() as int) == name
        && id[name.len() as int] == '#' && all_digits(id.subrange(name.len() as int + 1, id.len() as int)))
}

/// Whether `id` is one made up by [`fallback_call_id`]; such ids are not sent back to Gemini.
pub fn is_synthetic_call_id(id: &str, name: &str) -> (res: bool)
    ensures
        res == spec_is_synthetic_call_id(id@, name@),
{
    if text_eq(id, name) {
        return true;
    }
    proof {
        reveal_strlit("#");
    }
    match strip_prefix(id, name) {
        Some(rest) => match strip_prefix(rest, "#") {
            Some(digits) => {
                assert(rest@[0] == id@[name@.len() as int]);
                assert(rest@.subrange(0, 1)[0] == rest@[0]);
                assert("#"@[0] == '#');
                assert(id@[name@.len() as int] == '#');
                assert(id@.subrange(name@.len() as int + 1, id@.len() as int) =~= digits@);
                assert(id@.subrange(0, name@.len() as int) == name@);
                let r = digits.unicode_len() > 0 && is_all_digits(digits);
                assert(r == spec_is_synthetic_call_id(id@, name@));
                r
            },
            None => {
                proof {
                    if rest@.len() == 0 {
                        assert(id@ =~= id@.subrange(0, name@.len() as int));
                    } else {
                        assert(rest@.subrange(0, 1) =~= seq![rest@[0]]);
                        assert("#"@ =~= seq!['#']);
                        assert(rest@[0] == id@[name@.len() as int]);
                    }
                }
                assert(!spec_is_synthetic_call_id(id@, name@));
                false
            },
        },
        None => false,
    }
}

/// The second `/`-separated piece of a MIME type (`audio/mp3` gives `mp3`).
pub open spec fn mime_subtype(kind: Seq<char>) -> Option<Seq<char>> {
    match index_of(kind, '/') {
        Some(i) => {
            let rest = kind.subrange(i + 1, kind.len() as int);
            Some(match index_of(rest, '/') {
                Some(j) => rest.subrange(0, j),
                None => rest,
            })
        },
        None => None,
    }
}

/// The content part for inline or remote media, chosen by MIME prefix.
pub open spec fn spec_media_part(source: SourceV, mime: Option<Seq<char>>) -> PartV {
    let kind = str_or(mime, Seq::empty());
    if kind.len() >= 6 && kind.subrange(0, 6) == "image/"@ {
        PartV::Image { source, mime, detail: None }
    } else if kind.len() >= 6 && kind.subrange(0, 6) == "audio/"@ {
        PartV::Audio { source, format: mime_subtype(kind) }
    } else {
        PartV::File { source, mime, name: None }
    }
}

fn media_part(source: MediaSource, mime: Option<String>) -> (res: ContentPart)
    ensures
        res@ == spec_media_part(source@, ov(mime)),
{
    proof {
        reveal_strlit("image/");
        reveal_strlit("audio/");
    }
    let is_image;
    let is_audio;
    let mut audio_format: Option<String> = None;
    {
        let kind: &str = match &mime {
            Some(m) => m.as_str(),
            None => "",
        };
        proof {
            reveal_strlit("");
        }
        is_image = starts_with(kind, "image/");
        is_audio = starts_with(kind, "audio/");
        if let Some((_, rest)) = split_once(kind, '/') {
            let sub = match split_once(rest, '/') {
                Some((a, _)) => a,
                None => rest,
            };
            audio_format = Some(owned(sub));
        }
    }
    if is_image {
        ContentPart::Image { source, mime, detail: None }
    } else if is_audio {
        ContentPart::Audio { source, format: audio_format }
    } else {
        ContentPart::File { source, mime, name: None }
    }
}

/// Gemini `finishReason` in IR terms; the safety-type reasons are all a content filter.
pub open spec fn spec_stop_reason_from_gemini(raw: Seq<char>) -> StopReason {
    if raw == "STOP"@ {
        StopReason::Stop
    } else if raw == "MAX_TOKENS"@ {
        StopReason::MaxTokens
    } else if raw == "SAFETY"@ || raw == "RECITATION"@ || raw == "BLOCKLIST"@ || raw == "PROHIBITED_CONTENT"@ || raw == "SPII"@ {
        StopReason::ContentFilter
    } else {
        StopReason::Other
    }
}

/// Gemini `finishReason` in IR terms.
pub fn stop_reason_from_gemini(raw: &str) -> (res: StopReason)
    ensures
        res == spec_stop_reason_from_gemini(raw@),
{
    if text_eq(raw, "STOP") {
        StopReason::Stop
    } else if text_eq(raw, "MAX_TOKENS") {
        StopReason::MaxTokens
    } else if text_eq(raw, "SAFETY") || text_eq(raw, "RECITATION") || text_eq(raw, "BLOCKLIST")
        || text_eq(raw, "PROHIBITED_CONTENT") || text_eq(raw, "SPII") {
        StopReason::ContentFilter
    } else {
        StopReason::Other
    }
}

/// The Gemini `finishReason` for an IR stop reason.
pub open spec fn spec_stop_reason_to_gemini(reason: StopReason) -> Seq<char> {
    match reason {
        StopReason::Stop | StopReason::ToolUse | StopReason::StopSequence => "STOP"@,
        StopReason::MaxTokens => "MAX_TOKENS"@,
        StopReason::ContentFilter => "SAFETY"@,
        _ => "OTHER"@,
    }
}

/// The Gemini `finishReason` for an IR stop reason (a tool-call turn is a `STOP`).
pub fn stop_reason_to_gemini(reason: StopReason) -> (res: &'static str)
    ensures
        res@ == spec_stop_reason_to_gemini(reason),
{
    match reason {
        StopReason::Stop | StopReason::ToolUse | StopReason::StopSequence => "STOP",
        StopReason::MaxTokens => "MAX_TOKENS",
        StopReason::ContentFilter => "SAFETY",
        _ => "OTHER",
    }
}

/// Unsigned field `camel`/`snake` of `v`, 0 when absent.
pub open spec fn count_of(v: JsonV, camel: Seq<char>, snake: Seq<char>) -> u64 {
    match opt_u64(field_of(v, camel, snake)) {
        Some(n) => n,
        None => 0,
    }
}

fn count(v: &Json, camel: &str, snake: &str) -> (res: u64)
    ensures
        res == count_of(v@, camel@, snake@),
{
    match v.field(camel, snake) {
        Some(x) => match x.as_u64() {
            Some(n) => n,
            None => 0,
        },
        None => 0,
    }
}

/// Usage of `usageMetadata`; the IR output count includes reasoning, Gemini's does not.
pub open spec fn spec_parse_usage(raw: Option<JsonV>) -> Usage {
    match raw {
        Some(v) => if v.is_object() {
            let reasoning = count_of(v, "thoughtsTokenCount"@, "thoughts_token_count"@);
            Usage {
                input_tokens: count_of(v, "promptTokenCount"@, "prompt_token_count"@),
                output_tokens: crate::ir::wrap_add(count_of(v, "candidatesTokenCount"@, "candidates_token_count"@), reasoning),
                cached_input_tokens: count_of(v, "cachedContentTokenCount"@, "cached_content_token_count"@),
                cache_write_tokens: 0,
                reasoning_tokens: reasoning,
            }
        } else {
            Usage::zero_spec()
        },
        None => Usage::zero_spec(),
    }
}

fn parse_usage(raw: Option<&Json>) -> (res: Usage)
    ensures
        res == spec_parse_usage(opt_view(raw)),
{
    match raw {
        Some(v) => if v.is_object() {
            let reasoning = count(v, "thoughtsTokenCount", "thoughts_token_count");
            Usage {
                input_tokens: count(v, "promptTokenCount", "prompt_token_count"),
                output_tokens: crate::ir::wrap_add_exec(count(v, "candidatesTokenCount", "candidates_token_count"), reasoning),
                cached_input_tokens: count(v, "cachedContentTokenCount", "cached_content_token_count"),
                cache_write_tokens: 0,
                reasoning_tokens: reasoning,
            }
        } else {
            Usage::zero()
        },
        None => Usage::zero(),
    }
}

/// The content part of one Gemini `part`; unknown parts are kept as opaque Gemini blocks.
pub open spec fn spec_decode_part(part: JsonV, tool_index: usize) -> Option<PartV> {
    if !part.is_object() {
        None
    } else if opt_str(part.get("text"@)) is Some {
        let text = opt_str(part.get("text"@)).unwrap();
        if opt_bool(part.get("thought"@)) == Some(true) {
            Some(PartV::Thinking { text, signature: spec_non_empty_str(field_of(part, "thoughtSignature"@, "thought_signature"@)) })
        } else {
            Some(PartV::Text { text })
        }
    } else if field_of(part, "inlineData"@, "inline_data"@) matches Some(inline) && inline.is_object() {
        let inline = field_of(part, "inlineData"@, "inline_data"@).unwrap();
        let mime = spec_non_empty_str(field_of(inline, "mimeType"@, "mime_type"@));
        let data = str_or(opt_str(inline.get("data"@)), Seq::empty());
        Some(spec_media_part(SourceV::Base64(data), mime))
    } else if field_of(part, "fileData"@, "file_data"@) matches Some(file) && file.is_object() {
        let file = field_of(part, "fileData"@, "file_data"@).unwrap();
        let mime = spec_non_empty_str(field_of(file, "mimeType"@, "mime_type"@));
        let uri = str_or(opt_str(field_of(file, "fileUri"@, "file_uri"@)), Seq::empty());
        Some(spec_media_part(SourceV::FileId(uri), mime))
    } else if field_of(part, "functionCall"@, "function_call"@) matches Some(call) && call.is_object() {
        let call = field_of(part, "functionCall"@, "function_call"@).unwrap();
        let name = str_or(opt_str(call.get("name"@)), Seq::empty());
        Some(PartV::ToolUse {
            id: spec_fallback_call_id(call.get("id"@), name, tool_index),
            name,
            input: match call.get("args"@) {
                Some(a) => a,
                None => JsonV::Object(Seq::empty()),
            },
            signature: spec_non_empty_str(field_of(part, "thoughtSignature"@, "thought_signature"@)),
        })
    } else if field_of(part, "functionResponse"@, "function_response"@) matches Some(resp) && resp.is_object() {
        let resp = field_of(part, "functionResponse"@, "function_response"@).unwrap();
        let name = str_or(opt_str(resp.get("name"@)), Seq::empty());
        let payload = match resp.get("response"@) {
            Some(p) => p,
            None => JsonV::Object(Seq::empty()),
        };
        Some(PartV::ToolResult {
            id: spec_fallback_call_id(resp.get("id"@), name, tool_index),
            name: if name.len() > 0 { Some(name) } else { None },
            content: seq![PartV::Text { text: match payload { JsonV::Str(s) => s, other => json_render(other) } }],
            is_error: payload.get("error"@) is Some,
        })
    } else {
        Some(PartV::Opaque { protocol: "gemini"@, value: part })
    }
}

fn object_field<'a>(v: &'a Json, camel: &str, snake: &str) -> (res: Option<&'a Json>)
    ensures
        match res {
            Some(x) => field_of(v@, camel@, snake@) == Some(x@) && x@.is_object(),
            None => !(field_of(v@, camel@, snake@) matches Some(y) && y.is_object()),
        },
{
    match v.field(camel, snake) {
        Some(x) => if x.is_object() { Some(x) } else { None },
        None => None,
    }
}

/// The content part of one Gemini `part`.
pub fn decode_part(part: &Json, tool_index: usize) -> (res: Option<ContentPart>)
    ensures
        match res {
            Some(p) => spec_decode_part(part@, tool_index) == Some(p@),
            None => spec_decode_part(part@, tool_index) is None,
        },
{
    if !part.is_object() {
        return None;
    }
    if let Some(text) = part.get_str("text") {
        if part.get_bool("thought") == Some(true) {
            return Some(ContentPart::Thinking {
                text: owned(text),
                signature: non_empty_str(part.field("thoughtSignature", "thought_signature")),
            });
        }
        return Some(ContentPart::Text { text: owned(text) });
    }
    if let Some(inline) = object_field(part, "inlineData", "inline_data") {
        let mime = non_empty_str(inline.field("mimeType", "mime_type"));
        let data = match inline.get_str("data") {
            Some(d) => owned(d),
            None => String::new(),
        };
        return Some(media_part(MediaSource::Base64(data), mime));
    }
    if let Some(file) = object_field(part, "fileData", "file_data") {
        let mime = non_empty_str(file.field("mimeType", "mime_type"));
        let uri = match file.field("fileUri", "file_uri") {
            Some(u) => match u.as_str() {
                Some(u) => owned(u),
                None => String::new(),
            },
            None => String::new(),
        };
        return Some(media_part(MediaSource::FileId(uri), mime));
    }
    if let Some(call) = object_field(part, "functionCall", "function_call") {
        let name = match call.get_str("name") {
            Some(n) => owned(n),
            None => String::new(),
        };
        let input = match call.get("args") {
            Some(a) => a.duplicate(),
            None => Json::empty_object(),
        };
        return Some(ContentPart::ToolUse {
            id: fallback_call_id(call.get("id"), name.as_str(), tool_index),
            name,
            input,
            signature: non_empty_str(part.field("thoughtSignature", "thought_signature")),
        });
    }
    if let Some(resp) = object_field(part, "functionResponse", "function_response") {
        let name = match resp.get_str("name") {
            Some(n) => owned(n),
            None => String::new(),
        };
        let payload = match resp.get("response") {
            Some(p) => p.duplicate(),
            None => Json::empty_object(),
        };
        let text = match &payload {
            Json::Str(s) => owned(s.as_str()),
            other => other.render(),
        };
        let is_error = payload.get("error").is_some();
        let id = fallback_call_id(resp.get("id"), name.as_str(), tool_index);
        let name_opt = if name.as_str().unicode_len() > 0 { Some(name) } else { None };
        let mut content: Vec<ContentPart> = Vec::new();
        content.push(ContentPart::Text { text });
        proof {
            crate::ir::lemma_parts_view(content@);
            assert(crate::ir::pv(content) =~= seq![PartV::Text { text: text@ }]);
        }
        return Some(ContentPart::ToolResult { id, name: name_opt, content, is_error });
    }
    Some(ContentPart::Opaque { protocol: owned("gemini"), value: part.duplicate() })
}

/// The error kind of a Gemini error body: by canonical `status`, else by HTTP `code`.
pub open spec fn spec_error_kind(status: Seq<char>, code: Option<u64>) -> ErrorKind {
    if status == "INVALID_ARGUMENT"@ || status == "FAILED_PRECONDITION"@ || status == "OUT_OF_RANGE"@ {
        ErrorKind::InvalidRequest
    } else if status == "UNAUTHENTICATED"@ {
        ErrorKind::Unauthenticated
    } else if status == "PERMISSION_DENIED"@ {
        ErrorKind::PermissionDenied
    } else if status == "NOT_FOUND"@ {
        ErrorKind::NotFound
    } else if status == "RESOURCE_EXHAUSTED"@ {
        ErrorKind::RateLimited
    } else if status == "UNAVAILABLE"@ {
        ErrorKind::NoAvailableChannel
    } else if status == "DEADLINE_EXCEEDED"@ {
        ErrorKind::Timeout
    } else {
        match code {
            Some(400) => ErrorKind::InvalidRequest,
            Some(401) => ErrorKind::Unauthenticated,
            Some(403) => ErrorKind::PermissionDenied,
            Some(404) => ErrorKind::NotFound,
            Some(429) => ErrorKind::RateLimited,
            Some(503) => ErrorKind::NoAvailableChannel,
            Some(504) => ErrorKind::Timeout,
            _ => ErrorKind::UpstreamError,
        }
    }
}

fn error_kind(status: &str, code: Option<u64>) -> (res: ErrorKind)
    ensures
        res == spec_error_kind(status@, code),
{
    if text_eq(status, "INVALID_ARGUMENT") || text_eq(status, "FAILED_PRECONDITION") || text_eq(status, "OUT_OF_RANGE") {
        ErrorKind::InvalidRequest
    } else if text_eq(status, "UNAUTHENTICATED") {
        ErrorKind::Unauthenticated
    } else if text_eq(status, "PERMISSION_DENIED") {
        ErrorKind::PermissionDenied
    } else if text_eq(status, "NOT_FOUND") {
        ErrorKind::NotFound
    } else if text_eq(status, "RESOURCE_EXHAUSTED") {
        ErrorKind::RateLimited
    } else if text_eq(status, "UNAVAILABLE") {
        ErrorKind::NoAvailableChannel
    } else if text_eq(status, "DEADLINE_EXCEEDED") {
        ErrorKind::Timeout
    } else {
        match code {
            Some(400) => ErrorKind::InvalidRequest,
            Some(401) => ErrorKind::Unauthenticated,
            Some(403) => ErrorKind::PermissionDenied,
            Some(404) => ErrorKind::NotFound,
            Some(429) => ErrorKind::RateLimited,
            Some(503) => ErrorKind::NoAvailableChannel,
            Some(504) => ErrorKind::Timeout,
            _ => ErrorKind::UpstreamError,
        }
    }
}

/// Whether a value is a Gemini error body `{error: {...}}`.
pub open spec fn is_error_body(raw: JsonV) -> bool {
    raw.get("error"@) matches Some(e) && e.is_object()
}

/// The `error` object of an error body.
pub open spec fn error_object(raw: JsonV) -> JsonV {
    raw.get("error"@).unwrap()
}

/// The message of a Gemini error body.
pub open spec fn error_message(raw: JsonV) -> Seq<char> {
    str_or(opt_str(error_object(raw).get("message"@)), "upstream returned an error without a message"@)
}

/// The kind of a Gemini error body.
pub open spec fn error_body_kind(raw: JsonV) -> ErrorKind {
    spec_error_kind(str_or(opt_str(error_object(raw).get("status"@)), Seq::empty()), opt_u64(error_object(raw).get("code"@)))
}

/// The gateway error for a Gemini error body `{error:{code, message, status}}`; `None` for other values.
pub fn parse_error_body(raw: &Json) -> (res: Option<GatewayError>)
    ensures
        match res {
            Some(e) => is_error_body(raw@) && e.kind == error_body_kind(raw@) && e.message@ == error_message(raw@)
                && e.protocol == Some(Protocol::Gemini) && match opt_u64(error_object(raw@).get("code"@)) {
                    Some(c) => e.upstream_status == Some(if c <= 0xffff { c as u16 } else { 502u16 })
                        && (e.upstream_body matches Some(body) && body@ == json_render(raw@)),
                    None => e.upstream_status is None && e.upstream_body is None,
                },
            None => !is_error_body(raw@),
        },
{
    let err = match raw.get("error") {
        Some(e) => if e.is_object() { e } else { return None },
        None => return None,
    };
    let message = match err.get_str("message") {
        Some(m) => owned(m),
        None => owned("upstream returned an error without a message"),
    };
    let status: &str = match err.get_str("status") {
        Some(s) => s,
        None => "",
    };
    proof {
        reveal_strlit("");
    }
    let code = err.get_u64("code");
    let kind = error_kind(status, code);
    let error = GatewayError::new(kind, message).with_protocol(Protocol::Gemini);
    match code {
        Some(c) => {
            let st: u16 = if c <= 0xffff { c as u16 } else { 502 };
            let body = raw.render();
            let e2 = error.with_upstream(st, body);
            assert(e2.upstream_body matches Some(b2) && b2@ == json_render(raw@));
            assert(st == (if c <= 0xffff { c as u16 } else { 502u16 }));
            assert(error_object(raw@) == err@);
            assert(opt_u64(error_object(raw@).get("code"@)) == Some(c));
            assert(str_or(opt_str(error_object(raw@).get("status"@)), Seq::empty()) == status@);
            Some(e2)
        },
        None => Some(error),
    }
}

/// The first candidate of a response, when it is an object.
pub open spec fn spec_first_candidate(v: JsonV) -> Option<JsonV> {
    match v.get("candidates"@) {
        Some(JsonV::Array(a)) => if a.len() > 0 && a[0].is_object() { Some(a[0]) } else { None },
        _ => None,
    }
}

fn first_candidate(v: &Json) -> (res: Option<&Json>)
    ensures
        opt_view(res) == spec_first_candidate(v@),
{
    match v.get("candidates") {
        Some(c) => match c {
            Json::Array(_) => match c.first() {
                Some(x) => if x.is_object() { Some(x) } else { None },
                None => None,
            },
            _ => None,
        },
        None => None,
    }
}

/// Model of the Gemini stream decoder.
pub struct GeminiDecoderV {
    pub started: bool,
    /// Current block index.
    pub index: u32,
    /// Kind of the open block.
    pub open: Option<PartKind>,
    pub stopped: bool,
    pub done: bool,
    /// A tool call was seen in this turn.
    pub saw_tool_call: bool,
    /// Tool blocks seen, for made-up call ids.
    pub tool_index: usize,
}

pub open spec fn wrap_inc(i: u32) -> u32 {
    if i == u32::MAX { 0 } else { (i + 1) as u32 }
}

/// Switches to a block of `kind`, closing the open one when the kind changes
/// (a tool call always gets a new block); gives the block index.
pub open spec fn spec_switch(st: GeminiDecoderV, kind: PartKind, out: Seq<EventV>) -> (GeminiDecoderV, Seq<EventV>, u32) {
    match st.open {
        Some(cur) => if cur == kind && kind != PartKind::ToolUse {
            (st, out, st.index)
        } else {
            let i = wrap_inc(st.index);
            (GeminiDecoderV { index: i, open: Some(kind), ..st },
             out.push(EventV::ContentStop { index: st.index }).push(EventV::ContentStart { index: i, kind }), i)
        },
        None => (GeminiDecoderV { open: Some(kind), ..st }, out.push(EventV::ContentStart { index: st.index, kind }), st.index),
    }
}

pub open spec fn sat_inc_usize(i: usize) -> usize {
    if i == usize::MAX { i } else { (i + 1) as usize }
}

/// Effect of one streamed part.
pub open spec fn spec_part_step(st: GeminiDecoderV, out: Seq<EventV>, part: JsonV) -> (GeminiDecoderV, Seq<EventV>) {
    match spec_decode_part(part, st.tool_index) {
        Some(PartV::Text { text }) => {
            let (s1, o1, i) = spec_switch(st, PartKind::Text, out);
            (s1, o1.push(EventV::TextDelta { index: i, text }))
        },
        Some(PartV::Thinking { text, signature }) => {
            let (s1, o1, i) = spec_switch(st, PartKind::Thinking, out);
            let o2 = o1.push(EventV::ThinkingDelta { index: i, text });
            (s1, match signature {
                Some(sig) => o2.push(EventV::ThinkingSignature { index: i, signature: sig }),
                None => o2,
            })
        },
        Some(PartV::ToolUse { id, name, input, signature }) => {
            let s0 = GeminiDecoderV { tool_index: sat_inc_usize(st.tool_index), ..st };
            let (s1, o1, i) = spec_switch(s0, PartKind::ToolUse, out);
            (GeminiDecoderV { open: None, index: wrap_inc(s1.index), saw_tool_call: true, ..s1 },
             o1.push(EventV::ToolCallStart { index: i, id, name, signature })
               .push(EventV::ToolCallArgsDelta { index: i, fragment: json_render(input) })
               .push(EventV::ContentStop { index: i }))
        },
        _ => (st, out),
    }
}

/// Effect of the streamed parts, in order.
pub open spec fn spec_parts_steps(st: GeminiDecoderV, out: Seq<EventV>, parts: Seq<JsonV>) -> (GeminiDecoderV, Seq<EventV>)
    decreases parts.len(),
{
    if parts.len() == 0 {
        (st, out)
    } else {
        let (s, o) = spec_parts_steps(st, out, parts.drop_last());
        spec_part_step(s, o, parts.last())
    }
}

/// The `parts` array of a candidate's `content` object.
pub open spec fn candidate_parts(cand: Option<JsonV>) -> Seq<JsonV> {
    match cand {
        Some(c) => match c.get("content"@) {
            Some(content) => if content.is_object() {
                match content.get("parts"@) {
                    Some(JsonV::Array(a)) => a,
                    _ => Seq::empty(),
                }
            } else {
                Seq::empty()
            },
            None => Seq::empty(),
        },
        None => Seq::empty(),
    }
}

/// Effect of one SSE frame on the Gemini stream decoder; `fresh` is the random
/// part of the response id used when the chunk names none.
pub open spec fn spec_gemini_decode(st: GeminiDecoderV, data: Seq<char>, fresh: Seq<char>) -> (GeminiDecoderV, Seq<EventV>) {
    let d = trimmed(data);
    if d.len() == 0 || d == "[DONE]"@ {
        (st, Seq::empty())
    } else {
        match json_parse(d) {
            None => (st, Seq::empty()),
            Some(v) => spec_gemini_value(st, v, fresh),
        }
    }
}

/// Effect of one parsed chunk: an error body becomes an `Error` event, a value that is not
/// an object is ignored.
pub open spec fn spec_gemini_value(st: GeminiDecoderV, v: JsonV, fresh: Seq<char>) -> (GeminiDecoderV, Seq<EventV>) {
    if is_error_body(v) {
        (st, seq![EventV::Error { message: error_message(v), kind: openai_type_of(error_body_kind(v)) }])
    } else if !v.is_object() {
        (st, Seq::empty())
    } else {
        spec_chunk(st, v, fresh)
    }
}

/// The `Start` event for the first chunk `v`.
pub open spec fn start_events(st: GeminiDecoderV, v: JsonV, fresh: Seq<char>) -> Seq<EventV> {
    if !st.started {
        seq![EventV::Start {
            id: match spec_non_empty_str(field_of(v, "responseId"@, "response_id"@)) {
                Some(i) => i,
                None => "gemini-"@ + fresh,
            },
            model: str_or(spec_non_empty_str(field_of(v, "modelVersion"@, "model_version"@)), Seq::empty()),
            usage: None,
        }]
    } else {
        Seq::empty()
    }
}

/// The finish reason of a candidate.
pub open spec fn candidate_finish(cand: Option<JsonV>) -> Option<Seq<char>> {
    match cand {
        Some(c) => opt_str(field_of(c, "finishReason"@, "finish_reason"@)),
        None => None,
    }
}

/// Effect of a finish reason: closes the open block and emits `Stop` once
/// (a `STOP` turn that called tools is a tool-use stop).
pub open spec fn spec_finish_step(s1: GeminiDecoderV, o2: Seq<EventV>, finish: Option<Seq<char>>) -> (GeminiDecoderV, Seq<EventV>) {
    if finish is Some && !s1.stopped {
        let o3 = if s1.open is Some { o2.push(EventV::ContentStop { index: s1.index }) } else { o2 };
        let mapped = spec_stop_reason_from_gemini(finish.unwrap());
        let reason = if mapped == StopReason::Stop && s1.saw_tool_call { StopReason::ToolUse } else { mapped };
        (GeminiDecoderV { stopped: true, open: None, ..s1 }, o3.push(EventV::Stop { reason, stop_sequence: None }))
    } else {
        (s1, o2)
    }
}

/// Effect of one response chunk (an object that is not an error body).
pub open spec fn spec_chunk(st: GeminiDecoderV, v: JsonV, fresh: Seq<char>) -> (GeminiDecoderV, Seq<EventV>) {
    let s0 = GeminiDecoderV { started: true, ..st };
    let cand = spec_first_candidate(v);
    let (s1, o1) = spec_parts_steps(s0, start_events(st, v, fresh), candidate_parts(cand));
    let o2 = match field_of(v, "usageMetadata"@, "usage_metadata"@) {
        Some(u) => o1.push(EventV::Usage(spec_parse_usage(Some(u)))),
        None => o1,
    };
    spec_finish_step(s1, o2, candidate_finish(cand))
}

/// Effect of the end of the stream: the open block is closed and `Done` emitted once.
pub open spec fn spec_gemini_finish(st: GeminiDecoderV) -> (GeminiDecoderV, Seq<EventV>) {
    let o1: Seq<EventV> = if st.open is Some { seq![EventV::ContentStop { index: st.index }] } else { Seq::empty() };
    if st.done {
        (GeminiDecoderV { open: None, ..st }, o1)
    } else {
        (GeminiDecoderV { open: None, done: true, ..st }, o1.push(EventV::Done))
    }
}

/// Stateful Gemini stream decoder: synthesises `Start`, assigns block indices by
/// kind continuity, and supplies `Done` at the end (Gemini has no sentinel).
pub struct GeminiStreamDecoder {
    started: bool,
    index: u32,
    open: Option<PartKind>,
    stopped: bool,
    done: bool,
    saw_tool_call: bool,
    tool_index: usize,
}

impl View for GeminiStreamDecoder {
    type V = GeminiDecoderV;

    closed spec fn view(&self) -> GeminiDecoderV {
        GeminiDecoderV {
            started: self.started,
            index: self.index,
            open: self.open,
            stopped: self.stopped,
            done: self.done,
            saw_tool_call: self.saw_tool_call,
            tool_index: self.tool_index,
        }
    }
}

impl GeminiStreamDecoder {
    /// A decoder that has seen nothing.
    pub fn new() -> (res: GeminiStreamDecoder)
        ensures
            res@ == (GeminiDecoderV { started: false, index: 0, open: None, stopped: false, done: false, saw_tool_call: false, tool_index: 0 }),
    {
        GeminiStreamDecoder { started: false, index: 0, open: None, stopped: false, done: false, saw_tool_call: false, tool_index: 0 }
    }

    fn switch(&mut self, kind: PartKind, out: &mut Vec<StreamEvent>) -> (res: u32)
        ensures
            (final(self)@, evs(final(out)@), res) == spec_switch(old(self)@, kind, evs(old(out)@)),
    {
        match self.open {
            Some(cur) => if cur == kind && kind != PartKind::ToolUse {
                self.index
            } else {
                push_event(out, StreamEvent::ContentStop { index: self.index });
                self.index = self.index.wrapping_add(1);
                self.open = Some(kind);
                push_event(out, StreamEvent::ContentStart { index: self.index, kind });
                self.index
            },
            None => {
                self.open = Some(kind);
                push_event(out, StreamEvent::ContentStart { index: self.index, kind });
                self.index
            },
        }
    }

    fn part_step(&mut self, out: &mut Vec<StreamEvent>, part: &Json)
        ensures
            (final(self)@, evs(final(out)@)) == spec_part_step(old(self)@, evs(old(out)@), part@),
    {
        match decode_part(part, self.tool_index) {
            Some(ContentPart::Text { text }) => {
                let i = self.switch(PartKind::Text, out);
                push_event(out, StreamEvent::TextDelta { index: i, text });
            },
            Some(ContentPart::Thinking { text, signature }) => {
                let i = self.switch(PartKind::Thinking, out);
                push_event(out, StreamEvent::ThinkingDelta { index: i, text });
                if let Some(sig) = signature {
                    push_event(out, StreamEvent::ThinkingSignature { index: i, signature: sig });
                }
            },
            Some(ContentPart::ToolUse { id, name, input, signature }) => {
                self.tool_index = if self.tool_index == usize::MAX { self.tool_index } else { self.tool_index + 1 };
                let i = self.switch(PartKind::ToolUse, out);
                push_event(out, StreamEvent::ToolCallStart { index: i, id, name, signature });
                push_event(out, StreamEvent::ToolCallArgsDelta { index: i, fragment: input.render() });
                push_event(out, StreamEvent::ContentStop { index: i });
                self.open = None;
                self.index = self.index.wrapping_add(1);
                self.saw_tool_call = true;
            },
            _ => {},
        }
    }

    /// Decodes one frame; `fresh` is the random text used for the response id when the chunk names none.
    pub fn decode_with_id(&mut self, frame: &SseFrame, fresh: &str) -> (res: Vec<StreamEvent>)
        ensures
            (final(self)@, evs(res@)) == spec_gemini_decode(old(self)@, frame.data@, fresh@),
    {
        let mut out: Vec<StreamEvent> = Vec::new();
        assert(evs(out@) =~= Seq::<EventV>::empty());
        let data = trim(frame.data.as_str());
        if data.unicode_len() == 0 || text_eq(data, "[DONE]") {
            return out;
        }
        let value = match Json::parse(data) {
            Some(v) => v,
            None => return out,
        };
        self.chunk(&value, fresh)
    }

    /// Decodes one parsed chunk; `fresh` is the random text used for the response id when the
    /// chunk names none.
    pub fn chunk(&mut self, value: &Json, fresh: &str) -> (res: Vec<StreamEvent>)
        ensures
            (final(self)@, evs(res@)) == spec_gemini_value(old(self)@, value@, fresh@),
    {
        let mut out: Vec<StreamEvent> = Vec::new();
        assert(evs(out@) =~= Seq::<EventV>::empty());
        if let Some(err) = parse_error_body(value) {
            let kind = owned(err.kind.openai_type());
            push_event(&mut out, StreamEvent::Error { message: err.message, kind });
            assert(evs(out@) =~= seq![EventV::Error { message: error_message(value@), kind: openai_type_of(error_body_kind(value@)) }]);
            return out;
        }
        if !value.is_object() {
            return out;
        }
        self.chunk_body(&mut out, value, fresh);
        out
    }

    fn chunk_body(&mut self, out: &mut Vec<StreamEvent>, value: &Json, fresh: &str)
        requires
            evs(old(out)@).len() == 0,
        ensures
            (final(self)@, evs(final(out)@)) == spec_chunk(old(self)@, value@, fresh@),
    {
        if !self.started {
            let id = match non_empty_str(value.field("responseId", "response_id")) {
                Some(i) => i,
                None => concat("gemini-", fresh),
            };
            let model = match non_empty_str(value.field("modelVersion", "model_version")) {
                Some(m) => m,
                None => String::new(),
            };
            push_event(out, StreamEvent::Start { id, model, usage: None });
        }
        assert(evs(out@) =~= start_events(old(self)@, value@, fresh@));
        self.started = true;
        let cand = first_candidate(value);
        let parts: Option<&Vec<Json>> = match cand {
            Some(c) => match c.get("content") {
                Some(content) => if content.is_object() {
                    match content.get("parts") {
                        Some(Json::Array(a)) => Some(a),
                        _ => None,
                    }
                } else {
                    None
                },
                None => None,
            },
            None => None,
        };
        if let Some(parts) = parts {
            proof {
                crate::json::lemma_items_view(parts@);
            }
            let ghost ps = crate::json::items_view(parts@);
            let ghost s0 = self@;
            let ghost o0 = evs(out@);
            let mut i: usize = 0;
            while i < parts.len()
                invariant
                    i <= parts.len(),
                    ps.len() == parts.len(),
                    forall|k: int| 0 <= k < parts.len() ==> #[trigger] ps[k] == parts@[k]@,
                    (self@, evs(out@)) == spec_parts_steps(s0, o0, ps.subrange(0, i as int)),
                decreases parts.len() - i,
            {
                assert(ps.subrange(0, i + 1).drop_last() =~= ps.subrange(0, i as int));
                self.part_step(out, &parts[i]);
                i = i + 1;
            }
            assert(ps.subrange(0, parts.len() as int) =~= ps);
            assert(ps == candidate_parts(spec_first_candidate(value@)));
        } else {
            assert(candidate_parts(spec_first_candidate(value@)) =~= Seq::<JsonV>::empty());
        }
        if let Some(u) = value.field("usageMetadata", "usage_metadata") {
            push_event(out, StreamEvent::Usage(parse_usage(Some(u))));
        }
        let finish: Option<&str> = match cand {
            Some(c) => match c.field("finishReason", "finish_reason") {
                Some(f) => f.as_str(),
                None => None,
            },
            None => None,
        };
        self.finish_step(out, finish);
    }

    fn finish_step(&mut self, out: &mut Vec<StreamEvent>, finish: Option<&str>)
        ensures
            (final(self)@, evs(final(out)@)) == spec_finish_step(old(self)@, evs(old(out)@), match finish {
                Some(f) => Some(f@),
                None => None,
            }),
    {
        if let Some(f) = finish {
            if !self.stopped {
                self.stopped = true;
                if self.open.is_some() {
                    push_event(out, StreamEvent::ContentStop { index: self.index });
                    self.open = None;
                }
                let mapped = stop_reason_from_gemini(f);
                let reason = if mapped == StopReason::Stop && self.saw_tool_call { StopReason::ToolUse } else { mapped };
                push_event(out, StreamEvent::Stop { reason, stop_sequence: None });
            }
        }
    }

    /// Decodes one frame; a chunk that names no response id gets `gemini-` and a random UUID.
    pub fn decode(&mut self, frame: &SseFrame) -> (res: Vec<StreamEvent>)
        ensures
            exists|fresh: Seq<char>| (old(self)@.started || uuid_text(fresh))
                && (final(self)@, evs(res@)) == #[trigger] spec_gemini_decode(old(self)@, frame.data@, fresh),
    {
        let fresh = if self.started { String::new() } else { random_uuid() };
        self.decode_with_id(frame, fresh.as_str())
    }

    /// Ends the stream: closes the open block and emits `Done` once.
    pub fn finish(&mut self) -> (res: Vec<StreamEvent>)
        ensures
            (final(self)@, evs(res@)) == spec_gemini_finish(old(self)@),
    {
        let mut out: Vec<StreamEvent> = Vec::new();
        assert(evs(out@) =~= Seq::<EventV>::empty());
        if self.open.is_some() {
            self.open = None;
            push_event(&mut out, StreamEvent::ContentStop { index: self.index });
        }
        if !self.done {
            self.done = true;
            push_event(&mut out, StreamEvent::Done);
        }
        out
    }
}


// ---------------------------------------------------------------------------
// Request decoding
// ---------------------------------------------------------------------------

/// Whether a part is a tool call or a tool result (these are numbered for fallback ids).
pub open spec fn is_tool_part(p: JsonV) -> bool {
    p is Object && (field_of(p, "functionCall"@, "function_call"@) is Some || field_of(p, "functionResponse"@, "function_response"@) is Some)
}

/// The parts of a run of raw parts, and how many tool parts it holds.
pub open spec fn decode_parts_from(items: Seq<JsonV>) -> (Seq<PartV>, nat)
    decreases items.len(),
{
    if items.len() == 0 {
        (Seq::empty(), 0)
    } else {
        let (ps, n) = decode_parts_from(items.drop_last());
        let p = items.last();
        let n2 = if is_tool_part(p) { n + 1 } else { n };
        match spec_decode_part(p, n as usize) {
            Some(x) => (ps.push(x), n2),
            None => (ps, n2),
        }
    }
}

proof fn lemma_decode_parts_count(items: Seq<JsonV>)
    ensures
        decode_parts_from(items).1 <= items.len(),
    decreases items.len(),
{
    if items.len() > 0 {
        lemma_decode_parts_count(items.drop_last());
    }
}

/// The parts of a `parts` field.
pub open spec fn spec_decode_parts(v: Option<JsonV>) -> Seq<PartV> {
    match v {
        Some(JsonV::Array(a)) => decode_parts_from(a).0,
        _ => Seq::empty(),
    }
}

/// The parts of a `parts` field.
pub fn decode_parts(v: Option<&Json>) -> (res: Vec<ContentPart>)
    ensures
        pv(res) == spec_decode_parts(opt_view(v)),
{
    let mut out: Vec<ContentPart> = Vec::new();
    proof {
        lemma_parts_view(out@);
    }
    let items = match v {
        Some(Json::Array(a)) => a,
        _ => return out,
    };
    proof {
        lemma_items_view(items@);
    }
    let ghost its = items_view(items@);
    let mut n: usize = 0;
    let mut i: usize = 0;
    while i < items.len()
        invariant
            i <= items.len(),
            its == items_view(items@),
            its.len() == items.len(),
            forall|k: int| 0 <= k < items.len() ==> #[trigger] its[k] == items@[k]@,
            (pv(out), n as nat) == decode_parts_from(its.subrange(0, i as int)),
            n <= i,
        decreases items.len() - i,
    {
        assert(its.subrange(0, i + 1).drop_last() =~= its.subrange(0, i as int));
        let p = &items[i];
        let is_tool = match p {
            Json::Object(_) => p.field("functionCall", "function_call").is_some() || p.field("functionResponse", "function_response").is_some(),
            _ => false,
        };
        let index = n;
        if is_tool {
            n = n + 1;
        }
        if let Some(x) = decode_part(p, index) {
            proof {
                lemma_parts_view_push(out@, x);
            }
            out.push(x);
        }
        i = i + 1;
    }
    assert(its.subrange(0, items.len() as int) =~= its);
    out
}

/// The role of a content entry; a user entry made only of tool results is a tool message.
pub open spec fn entry_role(entry: JsonV, parts: Seq<PartV>) -> Role {
    let r = match opt_str(entry.get("role"@)) {
        Some(s) => if s == "model"@ { Role::Assistant } else if s == "function"@ { Role::Tool } else { Role::User },
        None => Role::User,
    };
    if r == Role::User && parts.len() > 0 && forall|i: int| 0 <= i < parts.len() ==> #[trigger] parts[i] is ToolResult {
        Role::Tool
    } else {
        r
    }
}

/// The messages of `contents`, or the error for an entry that is not an object.
pub open spec fn gemini_contents(items: Seq<JsonV>) -> Result<Seq<MessageV>, Seq<char>>
    decreases items.len(),
{
    if items.len() == 0 {
        Ok(Seq::empty())
    } else {
        match gemini_contents(items.drop_last()) {
            Err(e) => Err(e),
            Ok(ms) => {
                let entry = items.last();
                if entry is Object {
                    let parts = spec_decode_parts(entry.get("parts"@));
                    Ok(ms.push(MessageV { role: entry_role(entry, parts), content: parts, name: None }))
                } else {
                    Err("each item in `contents` must be an object"@)
                }
            },
        }
    }
}

proof fn lemma_contents_err(items: Seq<JsonV>, i: int)
    requires
        0 <= i <= items.len(),
        gemini_contents(items.subrange(0, i)) is Err,
    ensures
        gemini_contents(items) == gemini_contents(items.subrange(0, i)),
    decreases items.len() - i,
{
    if i == items.len() {
        assert(items.subrange(0, i) =~= items);
    } else {
        assert(items.drop_last().subrange(0, i) =~= items.subrange(0, i));
        lemma_contents_err(items.drop_last(), i);
    }
}

fn all_tool_results(parts: &Vec<ContentPart>) -> (res: bool)
    ensures
        res == forall|i: int| 0 <= i < pv(*parts).len() ==> #[trigger] pv(*parts)[i] is ToolResult,
{
    proof {
        lemma_parts_view(parts@);
    }
    let mut i: usize = 0;
    while i < parts.len()
        invariant
            i <= parts.len(),
            pv(*parts).len() == parts.len(),
            forall|k: int| 0 <= k < parts.len() ==> #[trigger] pv(*parts)[k] == parts@[k]@,
            forall|k: int| 0 <= k < i ==> #[trigger] pv(*parts)[k] is ToolResult,
        decreases parts.len() - i,
    {
        match &parts[i] {
            ContentPart::ToolResult { .. } => {},
            _ => {
                assert(!(pv(*parts)[i as int] is ToolResult));
                return false;
            },
        }
        i = i + 1;
    }
    true
}

fn decode_contents(items: &Vec<Json>) -> (res: Result<Vec<Message>, String>)
    ensures
        match res {
            Ok(ms) => gemini_contents(items_view(items@)) == Ok::<Seq<MessageV>, Seq<char>>(msgs(ms@)),
            Err(e) => gemini_contents(items_view(items@)) == Err::<Seq<MessageV>, Seq<char>>(e@),
        },
{
    proof {
        lemma_items_view(items@);
    }
    let ghost its = items_view(items@);
    let mut out: Vec<Message> = Vec::new();
    assert(msgs(out@) =~= Seq::<MessageV>::empty());
    let mut i: usize = 0;
    while i < items.len()
        invariant
            i <= items.len(),
            its == items_view(items@),
            its.len() == items.len(),
            forall|k: int| 0 <= k < items.len() ==> #[trigger] its[k] == items@[k]@,
            gemini_contents(its.subrange(0, i as int)) == Ok::<Seq<MessageV>, Seq<char>>(msgs(out@)),
        decreases items.len() - i,
    {
        assert(its.subrange(0, i + 1).drop_last() =~= its.subrange(0, i as int));
        let entry = &items[i];
        match entry {
            Json::Object(_) => {},
            _ => {
                proof {
                    assert(gemini_contents(its.subrange(0, i + 1)) is Err);
                    lemma_contents_err(its, i + 1);
                }
                return Err(owned("each item in `contents` must be an object"));
            },
        }
        let parts = decode_parts(entry.get("parts"));
        let role = match entry.get_str("role") {
            Some(r) => if text_eq(r, "model") { Role::Assistant } else if text_eq(r, "function") { Role::Tool } else { Role::User },
            None => Role::User,
        };
        let role = if role == Role::User && parts.len() > 0 && all_tool_results(&parts) { Role::Tool } else { role };
        proof {
            lemma_parts_view(parts@);
        }
        let m = Message { role, content: parts, name: None };
        let ghost o = out@;
        out.push(m);
        assert(msgs(out@) =~= msgs(o).push(m@));
        i = i + 1;
    }
    assert(its.subrange(0, items.len() as int) =~= its);
    Ok(out)
}

/// Parameters of a declaration that has none.
pub open spec fn object_schema() -> JsonV {
    JsonV::Object(seq![("type"@, JsonV::Str("object"@))])
}

/// The function declarations of one tool entry, added to `ts`.
pub open spec fn decls_fold(ts: Seq<ToolV>, decls: Seq<JsonV>) -> Result<Seq<ToolV>, Seq<char>>
    decreases decls.len(),
{
    if decls.len() == 0 {
        Ok(ts)
    } else {
        match decls_fold(ts, decls.drop_last()) {
            Err(e) => Err(e),
            Ok(acc) => {
                let d = decls.last();
                if d is Object {
                    match opt_str(d.get("name"@)) {
                        None => Err("each functionDeclaration requires a `name`"@),
                        Some(name) => Ok(acc.push(ToolV {
                            name,
                            description: spec_non_empty_str(d.get("description"@)),
                            parameters: match d.get("parameters"@) {
                                Some(p) => p,
                                None => object_schema(),
                            },
                            strict: None,
                        })),
                    }
                } else {
                    Ok(acc)
                }
            },
        }
    }
}

proof fn lemma_decls_err(ts: Seq<ToolV>, decls: Seq<JsonV>, i: int)
    requires
        0 <= i <= decls.len(),
        decls_fold(ts, decls.subrange(0, i)) is Err,
    ensures
        decls_fold(ts, decls) == decls_fold(ts, decls.subrange(0, i)),
    decreases decls.len() - i,
{
    if i == decls.len() {
        assert(decls.subrange(0, i) =~= decls);
    } else {
        assert(decls.drop_last().subrange(0, i) =~= decls.subrange(0, i));
        lemma_decls_err(ts, decls.drop_last(), i);
    }
}

/// Whether a tool member holds the function declarations.
pub open spec fn is_decls_key(k: Seq<char>) -> bool {
    k == "functionDeclarations"@ || k == "function_declarations"@
}

/// The built-in tools of a tool entry: every member but the function declarations.
pub open spec fn tool_builtins(members: Seq<(Seq<char>, JsonV)>) -> Seq<(Seq<char>, JsonV)>
    decreases members.len(),
{
    if members.len() == 0 {
        Seq::empty()
    } else {
        let prev = tool_builtins(members.drop_last());
        if is_decls_key(members.last().0) { prev } else { prev.push(members.last()) }
    }
}

/// The declared functions and the built-in tools of `tools[]`, or the error for a nameless declaration.
pub open spec fn gemini_tools(tools: Seq<JsonV>) -> Result<(Seq<ToolV>, Seq<JsonV>), Seq<char>>
    decreases tools.len(),
{
    if tools.len() == 0 {
        Ok((Seq::empty(), Seq::empty()))
    } else {
        match gemini_tools(tools.drop_last()) {
            Err(e) => Err(e),
            Ok((ts, extra)) => match tools.last() {
                JsonV::Object(members) => {
                    let t2 = match field_of(tools.last(), "functionDeclarations"@, "function_declarations"@) {
                        Some(JsonV::Array(decls)) => decls_fold(ts, decls),
                        _ => Ok(ts),
                    };
                    match t2 {
                        Err(e) => Err(e),
                        Ok(t3) => {
                            let b = tool_builtins(members);
                            Ok((t3, if b.len() > 0 { extra.push(JsonV::Object(b)) } else { extra }))
                        },
                    }
                },
                _ => Ok((ts, extra)),
            },
        }
    }
}

proof fn lemma_tools_err(tools: Seq<JsonV>, i: int)
    requires
        0 <= i <= tools.len(),
        gemini_tools(tools.subrange(0, i)) is Err,
    ensures
        gemini_tools(tools) == gemini_tools(tools.subrange(0, i)),
    decreases tools.len() - i,
{
    if i == tools.len() {
        assert(tools.subrange(0, i) =~= tools);
    } else {
        assert(tools.drop_last().subrange(0, i) =~= tools.subrange(0, i));
        lemma_tools_err(tools.drop_last(), i);
    }
}

fn object_schema_exec() -> (res: Json)
    ensures
        res@ == object_schema(),
{
    let mut m: Vec<(String, Json)> = Vec::new();
    push_member(&mut m, "type", Json::string("object"));
    assert(members_view(m@) =~= seq![("type"@, JsonV::Str("object"@))]);
    Json::object(m)
}

fn decode_decls(tools: &mut Vec<ToolDef>, decls: &Vec<Json>) -> (res: Result<(), String>)
    ensures
        match res {
            Ok(()) => decls_fold(tls(old(tools)@), items_view(decls@)) == Ok::<Seq<ToolV>, Seq<char>>(tls(final(tools)@)),
            Err(e) => decls_fold(tls(old(tools)@), items_view(decls@)) == Err::<Seq<ToolV>, Seq<char>>(e@),
        },
{
    proof {
        lemma_items_view(decls@);
    }
    let ghost ds = items_view(decls@);
    let ghost t0 = tls(tools@);
    let mut i: usize = 0;
    assert(ds.subrange(0, 0) =~= Seq::<JsonV>::empty());
    while i < decls.len()
        invariant
            i <= decls.len(),
            ds == items_view(decls@),
            ds.len() == decls.len(),
            forall|k: int| 0 <= k < decls.len() ==> #[trigger] ds[k] == decls@[k]@,
            t0 == tls(old(tools)@),
            decls_fold(t0, ds.subrange(0, i as int)) == Ok::<Seq<ToolV>, Seq<char>>(tls(tools@)),
        decreases decls.len() - i,
    {
        assert(ds.subrange(0, i + 1).drop_last() =~= ds.subrange(0, i as int));
        let d = &decls[i];
        if d.is_object() {
            let name = match d.get_str("name") {
                Some(n) => n,
                None => {
                    proof {
                        assert(decls_fold(t0, ds.subrange(0, i + 1)) is Err);
                        lemma_decls_err(t0, ds, i + 1);
                    }
                    return Err(owned("each functionDeclaration requires a `name`"));
                },
            };
            let parameters = match d.get("parameters") {
                Some(p) => p.duplicate(),
                None => object_schema_exec(),
            };
            let tool = ToolDef { name: owned(name), description: non_empty_str(d.get("description")), parameters, strict: None };
            let ghost before = tools@;
            tools.push(tool);
            assert(tls(tools@) =~= tls(before).push(tool@));
        }
        i = i + 1;
    }
    assert(ds.subrange(0, decls.len() as int) =~= ds);
    Ok(())
}

fn builtins_of(members: &Vec<(String, Json)>) -> (res: Vec<(String, Json)>)
    ensures
        members_view(res@) == tool_builtins(members_view(members@)),
{
    proof {
        lemma_members_view(members@);
    }
    let ghost ms = members_view(members@);
    let mut out: Vec<(String, Json)> = Vec::new();
    let mut i: usize = 0;
    proof {
        lemma_members_view(out@);
    }
    while i < members.len()
        invariant
            i <= members.len(),
            ms == members_view(members@),
            ms.len() == members.len(),
            forall|k: int| 0 <= k < members.len() ==> #[trigger] ms[k] == (members@[k].0@, members@[k].1@),
            members_view(out@) == tool_builtins(ms.subrange(0, i as int)),
        decreases members.len() - i,
    {
        assert(ms.subrange(0, i + 1).drop_last() =~= ms.subrange(0, i as int));
        let (k, v) = &members[i];
        if !(text_eq(k.as_str(), "functionDeclarations") || text_eq(k.as_str(), "function_declarations")) {
            push_member(&mut out, k.as_str(), v.duplicate());
        }
        i = i + 1;
    }
    assert(ms.subrange(0, members.len() as int) =~= ms);
    out
}

fn decode_tools(ts: &Vec<Json>) -> (res: Result<(Vec<ToolDef>, Vec<Json>), String>)
    ensures
        match res {
            Ok((tools, extra)) => gemini_tools(items_view(ts@)) == Ok::<(Seq<ToolV>, Seq<JsonV>), Seq<char>>((tls(tools@), items_view(extra@))),
            Err(e) => gemini_tools(items_view(ts@)) == Err::<(Seq<ToolV>, Seq<JsonV>), Seq<char>>(e@),
        },
{
    proof {
        lemma_items_view(ts@);
    }
    let ghost its = items_view(ts@);
    let mut tools: Vec<ToolDef> = Vec::new();
    let mut extra: Vec<Json> = Vec::new();
    proof {
        lemma_items_view(extra@);
        assert(tls(tools@) =~= Seq::<ToolV>::empty());
        assert(items_view(extra@) =~= Seq::<JsonV>::empty());
    }
    let mut i: usize = 0;
    while i < ts.len()
        invariant
            i <= ts.len(),
            its == items_view(ts@),
            its.len() == ts.len(),
            forall|k: int| 0 <= k < ts.len() ==> #[trigger] its[k] == ts@[k]@,
            gemini_tools(its.subrange(0, i as int)) == Ok::<(Seq<ToolV>, Seq<JsonV>), Seq<char>>((tls(tools@), items_view(extra@))),
        decreases ts.len() - i,
    {
        assert(its.subrange(0, i + 1).drop_last() =~= its.subrange(0, i as int));
        let t = &ts[i];
        if let Json::Object(members) = t {
            match t.field("functionDeclarations", "function_declarations") {
                Some(Json::Array(decls)) => {
                    match decode_decls(&mut tools, decls) {
                        Ok(()) => {},
                        Err(e) => {
                            proof {
                                assert(gemini_tools(its.subrange(0, i + 1)) is Err);
                                lemma_tools_err(its, i + 1);
                            }
                            return Err(e);
                        },
                    }
                },
                _ => {},
            }
            let b = builtins_of(members);
            if b.len() > 0 {
                let ghost e0 = extra@;
                extra.push(Json::object(b));
                proof {
                    assert(extra@.drop_last() =~= e0);
                    lemma_members_view(b@);
                }
            } else {
                proof {
                    lemma_members_view(b@);
                }
            }
        }
        i = i + 1;
    }
    assert(its.subrange(0, ts.len() as int) =~= its);
    Ok((tools, extra))
}


/// An object-valued field (camelCase, else snake_case).
pub open spec fn object_at(v: JsonV, camel: Seq<char>, snake: Seq<char>) -> Option<JsonV> {
    match field_of(v, camel, snake) {
        Some(x) => if x is Object { Some(x) } else { None },
        None => None,
    }
}

/// The function-calling configuration of a request.
pub open spec fn calling_config(raw: JsonV) -> Option<JsonV> {
    match object_at(raw, "toolConfig"@, "tool_config"@) {
        Some(cfg) => object_at(cfg, "functionCallingConfig"@, "function_calling_config"@),
        None => None,
    }
}

/// `functionCallingConfig.mode` in IR terms: `ANY` with exactly one allowed name forces that tool.
pub open spec fn spec_gemini_tool_choice(raw: JsonV) -> ChoiceV {
    match calling_config(raw) {
        None => ChoiceV::Unspecified,
        Some(fc) => {
            let single = match field_of(fc, "allowedFunctionNames"@, "allowed_function_names"@) {
                Some(JsonV::Array(a)) => if a.len() == 1 { a[0].as_str() } else { None },
                _ => None,
            };
            match opt_str(fc.get("mode"@)) {
                Some(m) => if m == "AUTO"@ {
                    ChoiceV::Auto
                } else if m == "ANY"@ {
                    match single {
                        Some(n) => ChoiceV::Tool(n),
                        None => ChoiceV::Required,
                    }
                } else if m == "NONE"@ {
                    ChoiceV::NoTool
                } else {
                    ChoiceV::Unspecified
                },
                None => ChoiceV::Unspecified,
            }
        },
    }
}

/// The allowed function names kept as an extension: those of `ANY` with several names.
pub open spec fn allowed_names_ext(raw: JsonV) -> Option<JsonV> {
    match calling_config(raw) {
        Some(fc) => if spec_gemini_tool_choice(raw) == ChoiceV::Required {
            field_of(fc, "allowedFunctionNames"@, "allowed_function_names"@)
        } else {
            None
        },
        None => None,
    }
}

fn object_at_exec<'a>(v: &'a Json, camel: &str, snake: &str) -> (res: Option<&'a Json>)
    ensures
        opt_view(res) == object_at(v@, camel@, snake@),
{
    match v.field(camel, snake) {
        Some(x) => if x.is_object() { Some(x) } else { None },
        None => None,
    }
}

fn gemini_tool_choice<'a>(raw: &'a Json) -> (res: (ToolChoice, Option<&'a Json>))
    ensures
        res.0@ == spec_gemini_tool_choice(raw@),
        opt_view(res.1) == allowed_names_ext(raw@),
{
    let fc = match object_at_exec(raw, "toolConfig", "tool_config") {
        Some(cfg) => object_at_exec(cfg, "functionCallingConfig", "function_calling_config"),
        None => None,
    };
    let fc = match fc {
        Some(f) => f,
        None => return (ToolChoice::Unspecified, None),
    };
    let allowed = fc.field("allowedFunctionNames", "allowed_function_names");
    let single: Option<&str> = match allowed {
        Some(Json::Array(a)) => {
            proof {
                lemma_items_view(a@);
            }
            if a.len() == 1 {
                a[0].as_str()
            } else {
                None
            }
        },
        _ => None,
    };
    let choice = match fc.get_str("mode") {
        Some(m) => if text_eq(m, "AUTO") {
            ToolChoice::Auto
        } else if text_eq(m, "ANY") {
            match single {
                Some(n) => ToolChoice::Tool(owned(n)),
                None => ToolChoice::Required,
            }
        } else if text_eq(m, "NONE") {
            ToolChoice::NoTool
        } else {
            ToolChoice::Unspecified
        },
        None => ToolChoice::Unspecified,
    };
    let required = match choice {
        ToolChoice::Required => true,
        _ => false,
    };
    (choice, if required { allowed } else { None })
}

/// A `u32` field, truncated as a cast would.
pub open spec fn u32_of(g: JsonV, camel: Seq<char>, snake: Seq<char>) -> Option<u32> {
    match opt_u64(field_of(g, camel, snake)) {
        Some(v) => Some(v as u32),
        None => None,
    }
}

fn u32_of_exec(g: &Json, camel: &str, snake: &str) -> (res: Option<u32>)
    ensures
        res == u32_of(g@, camel@, snake@),
{
    let v = match g.field(camel, snake) {
        Some(x) => x.as_u64(),
        None => None,
    };
    match v {
        Some(n) => Some(n as u32),
        None => None,
    }
}

/// The sampling parameters of `generationConfig`.
pub open spec fn gen_sampling(g: JsonV) -> SamplingV {
    SamplingV {
        temperature: spec_as_number(g.get("temperature"@)),
        top_p: spec_as_number(field_of(g, "topP"@, "top_p"@)),
        top_k: u32_of(g, "topK"@, "top_k"@),
        frequency_penalty: None,
        presence_penalty: None,
        stop: match field_of(g, "stopSequences"@, "stop_sequences"@) {
            Some(JsonV::Array(a)) => texts_of(a),
            _ => Seq::empty(),
        },
        seed: spec_as_i64(g.get("seed"@)),
        candidate_count: u32_of(g, "candidateCount"@, "candidate_count"@),
    }
}

fn gen_sampling_exec(g: &Json) -> (res: Sampling)
    ensures
        res@ == gen_sampling(g@),
{
    let stops = g.field("stopSequences", "stop_sequences");
    let stop = match stops {
        Some(Json::Array(_)) => parse_stop(stops),
        _ => {
            let v: Vec<String> = Vec::new();
            assert(v@.map_values(|s: String| s@) =~= Seq::<Seq<char>>::empty());
            v
        },
    };
    Sampling {
        temperature: as_number(g.get("temperature")),
        top_p: as_number(g.field("topP", "top_p")),
        top_k: u32_of_exec(g, "topK", "top_k"),
        frequency_penalty: None,
        presence_penalty: None,
        stop,
        seed: as_i64(g.get("seed")),
        candidate_count: u32_of_exec(g, "candidateCount", "candidate_count"),
    }
}

/// `responseMimeType` and `responseSchema` in IR terms, and the MIME type kept
/// as an extension when it is no JSON or text constraint.
pub open spec fn gen_format(g: JsonV) -> (Option<FormatV>, Option<Seq<char>>) {
    match opt_str(field_of(g, "responseMimeType"@, "response_mime_type"@)) {
        Some(m) => if m == "application/json"@ {
            match field_of(g, "responseSchema"@, "response_schema"@) {
                Some(schema) => (Some(FormatV::JsonSchema { name: "response"@, schema, strict: true }), None),
                None => (Some(FormatV::JsonObject), None),
            }
        } else if m == "text/plain"@ {
            (Some(FormatV::Text), None)
        } else {
            (None, Some(m))
        },
        None => (None, None),
    }
}

fn gen_format_exec(g: &Json) -> (res: (Option<ResponseFormat>, Option<String>))
    ensures
        (match res.0 {
            Some(f) => Some(f@),
            None => None,
        }, ov(res.1)) == gen_format(g@),
{
    let mime = match g.field("responseMimeType", "response_mime_type") {
        Some(x) => x.as_str(),
        None => None,
    };
    match mime {
        Some(m) => if text_eq(m, "application/json") {
            match g.field("responseSchema", "response_schema") {
                Some(schema) => (Some(ResponseFormat::JsonSchema { name: owned("response"), schema: schema.duplicate(), strict: true }), None),
                None => (Some(ResponseFormat::JsonObject), None),
            }
        } else if text_eq(m, "text/plain") {
            (Some(ResponseFormat::Text), None)
        } else {
            (None, Some(owned(m)))
        },
        None => (None, None),
    }
}

/// `thinkingConfig` in IR terms (a budget of -1 means dynamic thinking and is no budget),
/// and whether it asks for dynamic thinking.
pub open spec fn gen_reasoning(g: JsonV) -> (Option<ReasoningV>, bool) {
    match object_at(g, "thinkingConfig"@, "thinking_config"@) {
        None => (None, false),
        Some(tc) => {
            let raw_budget = spec_as_i64(field_of(tc, "thinkingBudget"@, "thinking_budget"@));
            let budget = match raw_budget {
                Some(v) => if 0 <= v <= u32::MAX as i64 { Some(v as u32) } else { None },
                None => None,
            };
            let show_thoughts = opt_bool(field_of(tc, "includeThoughts"@, "include_thoughts"@));
            (if budget is Some || show_thoughts is Some {
                Some(ReasoningV { effort: None, budget_tokens: budget, include_thoughts: show_thoughts })
            } else {
                None
            }, raw_budget == Some(-1i64))
        },
    }
}

fn gen_reasoning_exec(g: &Json) -> (res: (Option<ReasoningConfig>, bool))
    ensures
        (match res.0 {
            Some(r) => Some(r@),
            None => None,
        }, res.1) == gen_reasoning(g@),
{
    let tc = match object_at_exec(g, "thinkingConfig", "thinking_config") {
        Some(t) => t,
        None => return (None, false),
    };
    let raw_budget = as_i64(tc.field("thinkingBudget", "thinking_budget"));
    let budget = match raw_budget {
        Some(v) => if 0 <= v && v <= 0xffff_ffff { Some(v as u32) } else { None },
        None => None,
    };
    let show_thoughts = match tc.field("includeThoughts", "include_thoughts") {
        Some(x) => x.as_bool(),
        None => None,
    };
    let reasoning = if budget.is_some() || show_thoughts.is_some() {
        Some(ReasoningConfig { effort: None, budget_tokens: budget, include_thoughts: show_thoughts })
    } else {
        None
    };
    (reasoning, raw_budget == Some(-1i64))
}

/// The `generationConfig` fields the IR models.
pub open spec fn known_gen_field(k: Seq<char>) -> bool {
    ||| k == "temperature"@
    ||| k == "topP"@
    ||| k == "top_p"@
    ||| k == "topK"@
    ||| k == "top_k"@
    ||| k == "maxOutputTokens"@
    ||| k == "max_output_tokens"@
    ||| k == "stopSequences"@
    ||| k == "stop_sequences"@
    ||| k == "candidateCount"@
    ||| k == "candidate_count"@
    ||| k == "seed"@
    ||| k == "responseMimeType"@
    ||| k == "response_mime_type"@
    ||| k == "responseSchema"@
    ||| k == "response_schema"@
    ||| k == "thinkingConfig"@
    ||| k == "thinking_config"@
}

fn is_known_gen_field(k: &str) -> (res: bool)
    ensures
        res == known_gen_field(k@),
{
    text_eq(k, "temperature") || text_eq(k, "topP") || text_eq(k, "top_p") || text_eq(k, "topK") || text_eq(k, "top_k")
        || text_eq(k, "maxOutputTokens") || text_eq(k, "max_output_tokens") || text_eq(k, "stopSequences")
        || text_eq(k, "stop_sequences") || text_eq(k, "candidateCount") || text_eq(k, "candidate_count")
        || text_eq(k, "seed") || text_eq(k, "responseMimeType") || text_eq(k, "response_mime_type")
        || text_eq(k, "responseSchema") || text_eq(k, "response_schema") || text_eq(k, "thinkingConfig")
        || text_eq(k, "thinking_config")
}

/// The members of `generationConfig` the IR does not model, in order.
pub open spec fn unknown_gen(members: Seq<(Seq<char>, JsonV)>) -> Seq<(Seq<char>, JsonV)>
    decreases members.len(),
{
    if members.len() == 0 {
        Seq::empty()
    } else {
        let prev = unknown_gen(members.drop_last());
        if known_gen_field(members.last().0) { prev } else { prev.push(members.last()) }
    }
}

fn unknown_gen_exec(members: &Vec<(String, Json)>) -> (res: Vec<(String, Json)>)
    ensures
        members_view(res@) == unknown_gen(members_view(members@)),
{
    proof {
        lemma_members_view(members@);
    }
    let ghost ms = members_view(members@);
    let mut out: Vec<(String, Json)> = Vec::new();
    proof {
        lemma_members_view(out@);
    }
    let mut i: usize = 0;
    while i < members.len()
        invariant
            i <= members.len(),
            ms == members_view(members@),
            ms.len() == members.len(),
            forall|k: int| 0 <= k < members.len() ==> #[trigger] ms[k] == (members@[k].0@, members@[k].1@),
            members_view(out@) == unknown_gen(ms.subrange(0, i as int)),
        decreases members.len() - i,
    {
        assert(ms.subrange(0, i + 1).drop_last() =~= ms.subrange(0, i as int));
        let (k, v) = &members[i];
        if !is_known_gen_field(k.as_str()) {
            push_member(&mut out, k.as_str(), v.duplicate());
        }
        i = i + 1;
    }
    assert(ms.subrange(0, members.len() as int) =~= ms);
    out
}

/// The top-level request fields the IR models.
pub open spec fn known_gemini_field(k: Seq<char>) -> bool {
    ||| k == "model"@
    ||| k == "contents"@
    ||| k == "systemInstruction"@
    ||| k == "system_instruction"@
    ||| k == "tools"@
    ||| k == "toolConfig"@
    ||| k == "tool_config"@
    ||| k == "generationConfig"@
    ||| k == "generation_config"@
    ||| k == "safetySettings"@
    ||| k == "safety_settings"@
    ||| k == "cachedContent"@
    ||| k == "cached_content"@
}

fn is_known_gemini_field(k: &str) -> (res: bool)
    ensures
        res == known_gemini_field(k@),
{
    text_eq(k, "model") || text_eq(k, "contents") || text_eq(k, "systemInstruction") || text_eq(k, "system_instruction")
        || text_eq(k, "tools") || text_eq(k, "toolConfig") || text_eq(k, "tool_config") || text_eq(k, "generationConfig")
        || text_eq(k, "generation_config") || text_eq(k, "safetySettings") || text_eq(k, "safety_settings")
        || text_eq(k, "cachedContent") || text_eq(k, "cached_content")
}

/// Stores `v` under `key` when there is one.
pub open spec fn ext_opt(ext: Seq<(Seq<char>, JsonV)>, key: Seq<char>, v: Option<JsonV>) -> Seq<(Seq<char>, JsonV)> {
    match v {
        Some(x) => ext_insert(ext, key, x),
        None => ext,
    }
}

/// Storing an optional value under `key` leaves every other key as it was.
pub proof fn lemma_ext_opt_other(m: Seq<(Seq<char>, JsonV)>, key: Seq<char>, k: Seq<char>)
    requires
        k != key,
    ensures
        forall|v: Option<JsonV>| #[trigger] member_get(ext_opt(m, key, v), k) == member_get(m, k),
{
    assert forall|v: Option<JsonV>| #[trigger] member_get(ext_opt(m, key, v), k) == member_get(m, k) by {
        if let Some(x) = v {
            lemma_ext_insert(m, key, x);
        }
    }
}

/// The extensions a decoded request carries, in the order they are stored: built-in tools,
/// allowed names, an unmodelled MIME type, dynamic thinking, unknown generation fields,
/// safety settings, cached content, then the unknown top-level fields.
pub open spec fn gemini_ext(raw: JsonV, extra: Seq<JsonV>) -> Seq<(Seq<char>, JsonV)> {
    let e1 = ext_opt(Seq::empty(), "gemini.builtinTools"@, if extra.len() > 0 { Some(JsonV::Array(extra)) } else { None });
    let e2 = ext_opt(e1, "gemini.allowedFunctionNames"@, allowed_names_ext(raw));
    let g = object_at(raw, "generationConfig"@, "generation_config"@);
    let e3 = match g {
        Some(g) => {
            let a = ext_opt(e2, "gemini.responseMimeType"@, match gen_format(g).1 {
                Some(m) => Some(JsonV::Str(m)),
                None => None,
            });
            let b = ext_opt(a, "gemini.dynamicThinking"@, if gen_reasoning(g).1 { Some(JsonV::Bool(true)) } else { None });
            let u = unknown_gen(g->Object_0);
            ext_opt(b, "gemini.generationConfig"@, if u.len() > 0 { Some(JsonV::Object(u)) } else { None })
        },
        None => e2,
    };
    let e4 = ext_opt(e3, "gemini.safetySettings"@, field_of(raw, "safetySettings"@, "safety_settings"@));
    let e5 = ext_opt(e4, "gemini.cachedContent"@, field_of(raw, "cachedContent"@, "cached_content"@));
    collect_unknown(raw->Object_0, |k: Seq<char>| known_gemini_field(k), "gemini."@, e5)
}

/// The system instruction: a text, or the parts of an object.
pub open spec fn gemini_system(raw: JsonV) -> Seq<PartV> {
    match field_of(raw, "systemInstruction"@, "system_instruction"@) {
        Some(JsonV::Str(s)) => seq![PartV::Text { text: s }],
        Some(JsonV::Object(_)) => spec_decode_parts(field_of(raw, "systemInstruction"@, "system_instruction"@)->Some_0.get("parts"@)),
        _ => Seq::empty(),
    }
}

/// The request a Gemini body decodes to, or the text of the error it is refused with.
/// The model is usually in the URL (empty here); streaming is set by the route; usage always streams.
pub open spec fn spec_gemini_decode_request(raw: JsonV) -> Result<RequestV, Seq<char>> {
    match raw {
        JsonV::Object(_) => match raw.get("contents"@) {
            None => Err("missing required field `contents`"@),
            Some(JsonV::Array(items)) => match gemini_contents(items) {
                Err(e) => Err(e),
                Ok(messages) => match (match raw.get("tools"@) {
                    Some(JsonV::Array(ts)) => gemini_tools(ts),
                    _ => Ok((Seq::empty(), Seq::empty())),
                }) {
                    Err(e) => Err(e),
                    Ok((tools, extra)) => {
                        let g = object_at(raw, "generationConfig"@, "generation_config"@);
                        Ok(RequestV {
                            model: str_or(spec_non_empty_str(raw.get("model"@)), Seq::empty()),
                            system: gemini_system(raw),
                            messages,
                            tools,
                            tool_choice: spec_gemini_tool_choice(raw),
                            parallel_tool_calls: None,
                            sampling: match g {
                                Some(g) => gen_sampling(g),
                                None => Sampling::empty_spec(),
                            },
                            max_output_tokens: match g {
                                Some(g) => u32_of(g, "maxOutputTokens"@, "max_output_tokens"@),
                                None => None,
                            },
                            stream: false,
                            stream_include_usage: true,
                            reasoning: match g {
                                Some(g) => gen_reasoning(g).0,
                                None => None,
                            },
                            response_format: match g {
                                Some(g) => gen_format(g).0,
                                None => None,
                            },
                            user: None,
                            extensions: gemini_ext(raw, extra),
                        })
                    },
                },
            },
            Some(_) => Err("field `contents` must be an array of Content objects"@),
        },
        _ => Err("request body must be a JSON object"@),
    }
}

fn collect_unknown_gemini(members: &Vec<(String, Json)>, ext: &mut Extensions)
    ensures
        final(ext)@ == collect_unknown(members_view(members@), |k: Seq<char>| known_gemini_field(k), "gemini."@, old(ext)@),
{
    proof {
        lemma_members_view(members@);
    }
    let ghost ms = members_view(members@);
    let ghost known = |k: Seq<char>| known_gemini_field(k);
    let mut i: usize = 0;
    while i < members.len()
        invariant
            i <= members.len(),
            ms.len() == members.len(),
            forall|k: int| 0 <= k < members.len() ==> #[trigger] ms[k] == (members@[k].0@, members@[k].1@),
            known == (|k: Seq<char>| known_gemini_field(k)),
            ext@ == collect_unknown(ms.subrange(0, i as int), known, "gemini."@, old(ext)@),
        decreases members.len() - i,
    {
        assert(ms.subrange(0, i + 1).drop_last() =~= ms.subrange(0, i as int));
        let (k, v) = &members[i];
        if !is_known_gemini_field(k.as_str()) {
            ext.insert(concat("gemini.", k.as_str()), v.duplicate());
        }
        i = i + 1;
    }
    assert(ms.subrange(0, members.len() as int) =~= ms);
}

fn gemini_system_exec(raw: &Json) -> (res: Vec<ContentPart>)
    ensures
        pv(res) == gemini_system(raw@),
{
    match raw.field("systemInstruction", "system_instruction") {
        Some(Json::Str(s)) => {
            let mut v: Vec<ContentPart> = Vec::new();
            let p = ContentPart::Text { text: owned(s.as_str()) };
            proof {
                lemma_parts_view(v@);
                lemma_parts_view_push(v@, p);
            }
            v.push(p);
            assert(pv(v) =~= seq![p@]);
            v
        },
        Some(sys) => match sys {
            Json::Object(_) => decode_parts(sys.get("parts")),
            _ => {
                let v: Vec<ContentPart> = Vec::new();
                proof {
                    lemma_parts_view(v@);
                }
                v
            },
        },
        None => {
            let v: Vec<ContentPart> = Vec::new();
            proof {
                lemma_parts_view(v@);
            }
            v
        },
    }
}

impl GeminiCodec {
    /// Decodes a Gemini `generateContent` request body.
    #[verifier::rlimit(40)]
    pub fn decode_request(&self, raw: &Json) -> (res: Result<UnifiedRequest, GatewayError>)
        ensures
            match res {
                Ok(r) => spec_gemini_decode_request(raw@) == Ok::<RequestV, Seq<char>>(r@),
                Err(e) => spec_gemini_decode_request(raw@) == Err::<RequestV, Seq<char>>(e.message@)
                    && e.kind == ErrorKind::InvalidRequest && e.protocol.is_none() && e.upstream_status.is_none() && e.upstream_body.is_none(),
            },
    {
        let members = match raw {
            Json::Object(m) => m,
            _ => return Err(GatewayError::invalid_request(owned("request body must be a JSON object"))),
        };
        let items = match raw.get("contents") {
            None => return Err(GatewayError::invalid_request(owned("missing required field `contents`"))),
            Some(Json::Array(a)) => a,
            Some(_) => return Err(GatewayError::invalid_request(owned("field `contents` must be an array of Content objects"))),
        };
        let messages = match decode_contents(items) {
            Ok(ms) => ms,
            Err(e) => return Err(GatewayError::invalid_request(e)),
        };
        let (tools, extra) = match raw.get("tools") {
            Some(Json::Array(ts)) => match decode_tools(ts) {
                Ok(pair) => pair,
                Err(e) => return Err(GatewayError::invalid_request(e)),
            },
            _ => {
                let e: Vec<Json> = Vec::new();
                let t: Vec<ToolDef> = Vec::new();
                proof {
                    lemma_items_view(e@);
                    assert(items_view(e@) =~= Seq::<JsonV>::empty());
                    assert(tls(t@) =~= Seq::<ToolV>::empty());
                }
                (t, e)
            },
        };
        proof {
            lemma_items_view(extra@);
        }
        let (tool_choice, allowed) = gemini_tool_choice(raw);
        let mut extensions = Extensions::new();
        assert(extensions@ =~= Seq::<(Seq<char>, JsonV)>::empty());
        if extra.len() > 0 {
            extensions.insert(owned("gemini.builtinTools"), Json::Array(extra));
        }
        if let Some(names) = allowed {
            extensions.insert(owned("gemini.allowedFunctionNames"), names.duplicate());
        }
        let gen = object_at_exec(raw, "generationConfig", "generation_config");
        let (sampling, max_output_tokens, reasoning, response_format) = match gen {
            Some(g) => {
                let (format, odd_mime) = gen_format_exec(g);
                if let Some(m) = odd_mime {
                    extensions.insert(owned("gemini.responseMimeType"), Json::Str(m));
                }
                let (reasoning, dynamic) = gen_reasoning_exec(g);
                if dynamic {
                    extensions.insert(owned("gemini.dynamicThinking"), Json::boolean(true));
                }
                let unknown = match g {
                    Json::Object(gm) => unknown_gen_exec(gm),
                    _ => Vec::new(),
                };
                proof {
                    lemma_members_view(unknown@);
                }
                if unknown.len() > 0 {
                    extensions.insert(owned("gemini.generationConfig"), Json::object(unknown));
                }
                (gen_sampling_exec(g), u32_of_exec(g, "maxOutputTokens", "max_output_tokens"), reasoning, format)
            },
            None => (Sampling::new(), None, None, None),
        };
        if let Some(safety) = raw.field("safetySettings", "safety_settings") {
            extensions.insert(owned("gemini.safetySettings"), safety.duplicate());
        }
        if let Some(cached) = raw.field("cachedContent", "cached_content") {
            extensions.insert(owned("gemini.cachedContent"), cached.duplicate());
        }
        collect_unknown_gemini(members, &mut extensions);
        let model = match non_empty_str(raw.get("model")) {
            Some(m) => m,
            None => String::new(),
        };
        let req = UnifiedRequest {
            model,
            system: gemini_system_exec(raw),
            messages,
            tools,
            tool_choice,
            parallel_tool_calls: None,
            sampling,
            max_output_tokens,
            stream: false,
            stream_include_usage: true,
            reasoning,
            response_format,
            user: None,
            extensions,
        };
        proof {
            let sr = spec_gemini_decode_request(raw@)->Ok_0;
            assert(sr.model == req@.model);
            assert(sr.system == req@.system);
            assert(sr.messages == req@.messages);
            assert(sr.tools == req@.tools);
            assert(sr.tool_choice == req@.tool_choice);
            assert(sr.sampling == req@.sampling);
            assert(sr.max_output_tokens == req@.max_output_tokens);
            assert(sr.reasoning == req@.reasoning);
            assert(sr.response_format == req@.response_format);
            assert(sr.extensions == req@.extensions);
        }
        Ok(req)
    }
}


// ---------------------------------------------------------------------------
// Request encoding
// ---------------------------------------------------------------------------

/// The MIME type Gemini needs for a media part (audio keeps only a format, `audio/` is put back).
pub open spec fn spec_part_mime(part: PartV) -> Option<Seq<char>> {
    match part {
        PartV::Image { mime, .. } => mime,
        PartV::File { mime, .. } => mime,
        PartV::Audio { format, .. } => match format {
            Some(f) => Some("audio/"@ + f),
            None => None,
        },
        _ => None,
    }
}

/// The MIME type, or a default.
pub open spec fn mime_or(m: Option<Seq<char>>, d: Seq<char>) -> Seq<char> {
    match m {
        Some(x) => x,
        None => d,
    }
}

/// The Gemini part of a media source.
pub open spec fn media_json(source: SourceV, mime: Option<Seq<char>>) -> JsonV {
    match source {
        SourceV::Base64(d) => JsonV::Object(seq![("inlineData"@, JsonV::Object(seq![
            ("mimeType"@, JsonV::Str(mime_or(mime, "application/octet-stream"@))),
            ("data"@, JsonV::Str(d)),
        ]))]),
        SourceV::Text(t) => JsonV::Object(seq![("inlineData"@, JsonV::Object(seq![
            ("mimeType"@, JsonV::Str(mime_or(mime, "text/plain"@))),
            ("data"@, JsonV::Str(base64_of_text(t))),
        ]))]),
        SourceV::FileId(u) => JsonV::Object(seq![("fileData"@, JsonV::Object(seq![
            ("mimeType"@, JsonV::Str(mime_or(mime, "application/octet-stream"@))),
            ("fileUri"@, JsonV::Str(u)),
        ]))]),
        SourceV::Url(u) => JsonV::Object(seq![("fileData"@, JsonV::Object(seq![
            ("mimeType"@, JsonV::Str(mime_or(mime, "application/octet-stream"@))),
            ("fileUri"@, JsonV::Str(u)),
        ]))]),
    }
}

/// The name a call id maps to in the conversation (the last call with that id wins).
pub open spec fn name_lookup(pairs: Seq<(Seq<char>, Seq<char>)>, id: Seq<char>) -> Option<Seq<char>>
    decreases pairs.len(),
{
    if pairs.len() == 0 {
        None
    } else if pairs.last().0 == id {
        Some(pairs.last().1)
    } else {
        name_lookup(pairs.drop_last(), id)
    }
}

/// The `id` member, unless the id is empty or one made up on decoding.
pub open spec fn id_members(id: Seq<char>, name: Seq<char>) -> Seq<(Seq<char>, JsonV)> {
    if id.len() > 0 && !spec_is_synthetic_call_id(id, name) { seq![("id"@, JsonV::Str(id))] } else { Seq::empty() }
}

/// The object Gemini requires as a function response: the result when it is a JSON object, else the text wrapped.
pub open spec fn response_payload(text: Seq<char>, is_error: bool) -> JsonV {
    match json_parse(text) {
        Some(v) if v is Object => v,
        _ => if is_error {
            JsonV::Object(seq![("error"@, JsonV::Str(text))])
        } else {
            JsonV::Object(seq![("output"@, JsonV::Str(text))])
        },
    }
}

/// The Gemini part of an IR part; reasoning without text, refusals and other protocols' blocks have none.
pub open spec fn spec_encode_part(part: PartV, names: Seq<(Seq<char>, Seq<char>)>) -> Option<JsonV> {
    match part {
        PartV::Text { text } => Some(JsonV::Object(seq![("text"@, JsonV::Str(text))])),
        PartV::Thinking { text, signature } => {
            let m = seq![("text"@, JsonV::Str(text)), ("thought"@, JsonV::Bool(true))];
            Some(JsonV::Object(match signature {
                Some(sig) => m.push(("thoughtSignature"@, JsonV::Str(sig))),
                None => m,
            }))
        },
        PartV::Image { source, .. } => Some(media_json(source, spec_part_mime(part))),
        PartV::Audio { source, .. } => Some(media_json(source, spec_part_mime(part))),
        PartV::File { source, .. } => Some(media_json(source, spec_part_mime(part))),
        PartV::ToolUse { id, name, input, signature } => {
            let call = id_members(id, name) + seq![("name"@, JsonV::Str(name)), ("args"@, input)];
            let m = seq![("functionCall"@, JsonV::Object(call))];
            Some(JsonV::Object(match signature {
                Some(sig) => m.push(("thoughtSignature"@, JsonV::Str(sig))),
                None => m,
            }))
        },
        PartV::ToolResult { id, name, content, is_error } => {
            let text = text_of(content);
            let resolved = match name {
                Some(n) => n,
                None => match name_lookup(names, id) {
                    Some(n) => n,
                    None => id,
                },
            };
            let resp = id_members(id, resolved) + seq![("name"@, JsonV::Str(resolved)), ("response"@, response_payload(text, is_error))];
            Some(JsonV::Object(seq![("functionResponse"@, JsonV::Object(resp))]))
        },
        PartV::Opaque { protocol, value } => if protocol == "gemini"@ { Some(value) } else { None },
        _ => None,
    }
}

fn part_mime(part: &ContentPart) -> (res: Option<String>)
    ensures
        ov(res) == spec_part_mime(part@),
{
    match part {
        ContentPart::Image { mime, .. } => match mime {
            Some(m) => Some(owned(m.as_str())),
            None => None,
        },
        ContentPart::File { mime, .. } => match mime {
            Some(m) => Some(owned(m.as_str())),
            None => None,
        },
        ContentPart::Audio { format, .. } => match format {
            Some(f) => Some(concat("audio/", f.as_str())),
            None => None,
        },
        _ => None,
    }
}

fn str_json(s: &str) -> (res: Json)
    ensures
        res@ == JsonV::Str(s@),
{
    Json::string(s)
}

fn single_object(k: &str, v: Json) -> (res: Json)
    ensures
        res@ == JsonV::Object(seq![(k@, v@)]),
{
    let mut m: Vec<(String, Json)> = Vec::new();
    push_member(&mut m, k, v);
    assert(members_view(m@) =~= seq![(k@, v@)]);
    Json::object(m)
}

fn pair_object(k1: &str, v1: Json, k2: &str, v2: Json) -> (res: Json)
    ensures
        res@ == JsonV::Object(seq![(k1@, v1@), (k2@, v2@)]),
{
    let mut m: Vec<(String, Json)> = Vec::new();
    push_member(&mut m, k1, v1);
    push_member(&mut m, k2, v2);
    assert(members_view(m@) =~= seq![(k1@, v1@), (k2@, v2@)]);
    Json::object(m)
}

fn media_json_exec(source: &MediaSource, mime: Option<String>) -> (res: Json)
    ensures
        res@ == media_json(source@, ov(mime)),
{
    match source {
        MediaSource::Base64(d) => {
            let m = match mime {
                Some(m) => m,
                None => owned("application/octet-stream"),
            };
            single_object("inlineData", pair_object("mimeType", Json::Str(m), "data", str_json(d.as_str())))
        },
        MediaSource::Text(t) => {
            let m = match mime {
                Some(m) => m,
                None => owned("text/plain"),
            };
            single_object("inlineData", pair_object("mimeType", Json::Str(m), "data", Json::Str(base64_encode_text(t.as_str()))))
        },
        MediaSource::FileId(u) => {
            let m = match mime {
                Some(m) => m,
                None => owned("application/octet-stream"),
            };
            single_object("fileData", pair_object("mimeType", Json::Str(m), "fileUri", str_json(u.as_str())))
        },
        MediaSource::Url(u) => {
            let m = match mime {
                Some(m) => m,
                None => owned("application/octet-stream"),
            };
            single_object("fileData", pair_object("mimeType", Json::Str(m), "fileUri", str_json(u.as_str())))
        },
    }
}

/// The model of the call-id to name pairs.
pub open spec fn pairs_view(v: Seq<(&str, &str)>) -> Seq<(Seq<char>, Seq<char>)> {
    v.map_values(|p: (&str, &str)| (p.0@, p.1@))
}

fn name_lookup_exec<'a>(pairs: &Vec<(&'a str, &'a str)>, id: &str) -> (res: Option<&'a str>)
    ensures
        match res {
            Some(n) => name_lookup(pairs_view(pairs@), id@) == Some(n@),
            None => name_lookup(pairs_view(pairs@), id@) is None,
        },
{
    let ghost ps = pairs_view(pairs@);
    let mut i: usize = pairs.len();
    assert(ps.subrange(0, i as int) =~= ps);
    while i > 0
        invariant
            i <= pairs.len(),
            ps == pairs_view(pairs@),
            ps.len() == pairs.len(),
            name_lookup(ps, id@) == name_lookup(ps.subrange(0, i as int), id@),
        decreases i,
    {
        assert(ps.subrange(0, i as int).drop_last() =~= ps.subrange(0, i - 1));
        let (k, n) = pairs[i - 1];
        if text_eq(k, id) {
            return Some(n);
        }
        i = i - 1;
    }
    None
}

fn id_members_exec(m: &mut Vec<(String, Json)>, id: &str, name: &str)
    ensures
        members_view(final(m)@) == members_view(old(m)@) + id_members(id@, name@),
{
    if id.unicode_len() > 0 && !is_synthetic_call_id(id, name) {
        push_member(m, "id", str_json(id));
        assert(members_view(m@) =~= members_view(old(m)@) + id_members(id@, name@));
    } else {
        assert(members_view(m@) =~= members_view(old(m)@) + id_members(id@, name@));
    }
}

/// The Gemini part of an IR part.
pub fn encode_part(part: &ContentPart, names: &Vec<(&str, &str)>) -> (res: Option<Json>)
    ensures
        match res {
            Some(j) => spec_encode_part(part@, pairs_view(names@)) == Some(j@),
            None => spec_encode_part(part@, pairs_view(names@)) is None,
        },
{
    match part {
        ContentPart::Text { text } => Some(single_object("text", str_json(text.as_str()))),
        ContentPart::Thinking { text, signature } => {
            let mut m: Vec<(String, Json)> = Vec::new();
            push_member(&mut m, "text", str_json(text.as_str()));
            push_member(&mut m, "thought", Json::boolean(true));
            if let Some(sig) = signature {
                push_member(&mut m, "thoughtSignature", str_json(sig.as_str()));
            }
            proof {
                let base = seq![("text"@, JsonV::Str(text@)), ("thought"@, JsonV::Bool(true))];
                assert(Seq::<(Seq<char>, JsonV)>::empty().push(("text"@, JsonV::Str(text@))).push(("thought"@, JsonV::Bool(true))) =~= base);
            }
            Some(Json::object(m))
        },
        ContentPart::Image { source, .. } => Some(media_json_exec(source, part_mime(part))),
        ContentPart::Audio { source, .. } => Some(media_json_exec(source, part_mime(part))),
        ContentPart::File { source, .. } => Some(media_json_exec(source, part_mime(part))),
        ContentPart::ToolUse { id, name, input, signature } => {
            let mut call: Vec<(String, Json)> = Vec::new();
            proof {
                lemma_members_view(call@);
            }
            id_members_exec(&mut call, id.as_str(), name.as_str());
            push_member(&mut call, "name", str_json(name.as_str()));
            push_member(&mut call, "args", input.duplicate());
            assert(members_view(call@) =~= id_members(id@, name@) + seq![("name"@, JsonV::Str(name@)), ("args"@, input@)]);
            let mut m: Vec<(String, Json)> = Vec::new();
            push_member(&mut m, "functionCall", Json::object(call));
            if let Some(sig) = signature {
                push_member(&mut m, "thoughtSignature", str_json(sig.as_str()));
            }
            Some(Json::object(m))
        },
        ContentPart::ToolResult { id, name, content, is_error } => {
            let text = concat_texts(content);
            let resolved: &str = match name {
                Some(n) => n.as_str(),
                None => match name_lookup_exec(names, id.as_str()) {
                    Some(n) => n,
                    None => id.as_str(),
                },
            };
            let payload = match Json::parse(text.as_str()) {
                Some(v) => if v.is_object() {
                    v
                } else if *is_error {
                    single_object("error", Json::Str(text))
                } else {
                    single_object("output", Json::Str(text))
                },
                None => if *is_error {
                    single_object("error", Json::Str(text))
                } else {
                    single_object("output", Json::Str(text))
                },
            };
            let mut resp: Vec<(String, Json)> = Vec::new();
            proof {
                lemma_members_view(resp@);
            }
            id_members_exec(&mut resp, id.as_str(), resolved);
            push_member(&mut resp, "name", str_json(resolved));
            push_member(&mut resp, "response", payload);
            assert(members_view(resp@) =~= id_members(id@, resolved@) + seq![("name"@, JsonV::Str(resolved@)), ("response"@, payload@)]);
            Some(single_object("functionResponse", Json::object(resp)))
        },
        ContentPart::Opaque { protocol, value } => if text_eq(protocol.as_str(), "gemini") {
            Some(value.duplicate())
        } else {
            None
        },
        _ => None,
    }
}


/// The (id, name) pairs of the tool calls among `parts`, in order.
pub open spec fn part_tool_pairs(parts: Seq<PartV>) -> Seq<(Seq<char>, Seq<char>)>
    decreases parts.len(),
{
    if parts.len() == 0 {
        Seq::empty()
    } else {
        let prev = part_tool_pairs(parts.drop_last());
        match parts.last() {
            PartV::ToolUse { id, name, .. } => prev.push((id, name)),
            _ => prev,
        }
    }
}

/// The (id, name) pairs of the tool calls of a conversation, in order.
pub open spec fn msg_tool_pairs(ms: Seq<MessageV>) -> Seq<(Seq<char>, Seq<char>)>
    decreases ms.len(),
{
    if ms.len() == 0 {
        Seq::empty()
    } else {
        msg_tool_pairs(ms.drop_last()) + part_tool_pairs(ms.last().content)
    }
}

/// The Gemini parts of a run of IR parts, skipping those Gemini cannot express.
pub open spec fn encode_parts_spec(parts: Seq<PartV>, names: Seq<(Seq<char>, Seq<char>)>) -> Seq<JsonV>
    decreases parts.len(),
{
    if parts.len() == 0 {
        Seq::empty()
    } else {
        let prev = encode_parts_spec(parts.drop_last(), names);
        match spec_encode_part(parts.last(), names) {
            Some(j) => prev.push(j),
            None => prev,
        }
    }
}

/// The Gemini role of an IR role (tool results belong to user turns).
pub open spec fn gemini_role(r: Role) -> Seq<char> {
    if r == Role::Assistant { "model"@ } else { "user"@ }
}

/// The turns of a conversation: system messages and turns with nothing to send are left out,
/// consecutive turns of one role are merged (Gemini requires alternation).
pub open spec fn content_groups(ms: Seq<MessageV>, names: Seq<(Seq<char>, Seq<char>)>) -> Seq<(Seq<char>, Seq<JsonV>)>
    decreases ms.len(),
{
    if ms.len() == 0 {
        Seq::empty()
    } else {
        let prev = content_groups(ms.drop_last(), names);
        let m = ms.last();
        let ps = encode_parts_spec(m.content, names);
        if m.role == Role::System || ps.len() == 0 {
            prev
        } else {
            let r = gemini_role(m.role);
            if prev.len() > 0 && prev.last().0 == r {
                prev.update(prev.len() - 1, (r, prev.last().1 + ps))
            } else {
                prev.push((r, ps))
            }
        }
    }
}

/// One turn as JSON.
pub open spec fn group_json(g: (Seq<char>, Seq<JsonV>)) -> JsonV {
    JsonV::Object(seq![("role"@, JsonV::Str(g.0)), ("parts"@, JsonV::Array(g.1))])
}

/// The parts of the system messages left in the conversation, in order.
pub open spec fn system_msg_parts(ms: Seq<MessageV>, names: Seq<(Seq<char>, Seq<char>)>) -> Seq<JsonV>
    decreases ms.len(),
{
    if ms.len() == 0 {
        Seq::empty()
    } else {
        system_msg_parts(ms.drop_last(), names)
            + if ms.last().role == Role::System { encode_parts_spec(ms.last().content, names) } else { Seq::empty() }
    }
}

/// A function declaration.
pub open spec fn decl_json(t: ToolV) -> JsonV {
    let m = seq![("name"@, JsonV::Str(t.name))];
    let m2 = match t.description {
        Some(d) => m.push(("description"@, JsonV::Str(d))),
        None => m,
    };
    JsonV::Object(m2.push(("parameters"@, t.parameters)))
}

/// The declarations of a run of tools.
pub open spec fn decls_json(ts: Seq<ToolV>) -> Seq<JsonV>
    decreases ts.len(),
{
    if ts.len() == 0 { Seq::empty() } else { decls_json(ts.drop_last()).push(decl_json(ts.last())) }
}

/// `tools[]`: one entry with every declaration, then the kept built-in tools.
pub open spec fn tools_json(r: RequestV) -> Seq<JsonV> {
    (if r.tools.len() > 0 {
        seq![JsonV::Object(seq![("functionDeclarations"@, JsonV::Array(decls_json(r.tools)))])]
    } else {
        Seq::empty()
    }) + match member_get(r.extensions, "gemini.builtinTools"@) {
        Some(JsonV::Array(b)) => b,
        _ => Seq::empty(),
    }
}

/// `functionCallingConfig` for a tool choice.
pub open spec fn calling_config_json(r: RequestV) -> Option<JsonV> {
    match r.tool_choice {
        ChoiceV::Unspecified => None,
        ChoiceV::Auto => Some(JsonV::Object(seq![("mode"@, JsonV::Str("AUTO"@))])),
        ChoiceV::NoTool => Some(JsonV::Object(seq![("mode"@, JsonV::Str("NONE"@))])),
        ChoiceV::Required => Some(JsonV::Object(seq![("mode"@, JsonV::Str("ANY"@))] + match member_get(r.extensions, "gemini.allowedFunctionNames"@) {
            Some(n) => seq![("allowedFunctionNames"@, n)],
            None => Seq::empty(),
        })),
        ChoiceV::Tool(name) => Some(JsonV::Object(seq![
            ("mode"@, JsonV::Str("ANY"@)),
            ("allowedFunctionNames"@, JsonV::Array(seq![JsonV::Str(name)])),
        ])),
    }
}

/// Stores every member of `members` in order, each replacing an earlier one of its name.
pub open spec fn insert_all(m: Seq<(Seq<char>, JsonV)>, members: Seq<(Seq<char>, JsonV)>) -> Seq<(Seq<char>, JsonV)>
    decreases members.len(),
{
    if members.len() == 0 {
        m
    } else {
        let prev = insert_all(m, members.drop_last());
        ext_insert(prev, members.last().0, members.last().1)
    }
}

/// The budget a reasoning configuration asks for (see [`ReasoningConfig::budget_or_from_effort`]).
pub open spec fn budget_of(rs: ReasoningV, max_output: Option<u32>) -> Option<u32> {
    match rs.budget_tokens {
        Some(b) => Some(b),
        None => match rs.effort {
            None => None,
            Some(e) => match effort_budget(e, ceiling_of(max_output)) {
                Some(b) => Some(b as u32),
                None => None,
            },
        },
    }
}

/// Whether the request asks for dynamic thinking.
pub open spec fn dynamic_thinking(r: RequestV) -> bool {
    member_get(r.extensions, "gemini.dynamicThinking"@) == Some(JsonV::Bool(true))
}

/// The members of `thinkingConfig`.
pub open spec fn thinking_members(r: RequestV, rs: ReasoningV) -> Seq<(Seq<char>, JsonV)> {
    let b = if dynamic_thinking(r) {
        seq![("thinkingBudget"@, JsonV::Number(NumberV::NegInt(-1i64)))]
    } else {
        match budget_of(rs, r.max_output_tokens) {
            Some(b) => seq![("thinkingBudget"@, JsonV::Number(NumberV::PosInt(b as u64)))],
            None => Seq::empty(),
        }
    };
    b + match rs.include_thoughts {
        Some(x) => seq![("includeThoughts"@, JsonV::Bool(x))],
        None => Seq::empty(),
    }
}

/// A JSON number for a signed value.
pub open spec fn int_json(n: i64) -> JsonV {
    if n >= 0 { JsonV::Number(NumberV::PosInt(n as u64)) } else { JsonV::Number(NumberV::NegInt(n)) }
}

/// The unknown `generationConfig` fields kept from decoding.
pub open spec fn gen_base(r: RequestV) -> Seq<(Seq<char>, JsonV)> {
    match member_get(r.extensions, "gemini.generationConfig"@) {
        Some(JsonV::Object(extra)) => insert_all(Seq::empty(), extra),
        _ => Seq::empty(),
    }
}

/// The sampling parameters and the token limit, stored over `g0`.
pub open spec fn gen_sampling_members(g0: Seq<(Seq<char>, JsonV)>, r: RequestV) -> Seq<(Seq<char>, JsonV)> {
    let s = r.sampling;
    let g1 = ext_opt(g0, "temperature"@, match s.temperature { Some(t) => Some(JsonV::Number(t)), None => None });
    let g2 = ext_opt(g1, "topP"@, match s.top_p { Some(t) => Some(JsonV::Number(t)), None => None });
    let g3 = ext_opt(g2, "topK"@, match s.top_k { Some(k) => Some(JsonV::Number(NumberV::PosInt(k as u64))), None => None });
    let g4 = ext_opt(g3, "seed"@, match s.seed { Some(x) => Some(int_json(x)), None => None });
    let g5 = ext_opt(g4, "candidateCount"@, match s.candidate_count { Some(n) => Some(JsonV::Number(NumberV::PosInt(n as u64))), None => None });
    let g6 = ext_opt(g5, "stopSequences"@, if s.stop.len() > 0 { Some(JsonV::Array(s.stop.map_values(|t: Seq<char>| JsonV::Str(t)))) } else { None });
    ext_opt(g6, "maxOutputTokens"@, match r.max_output_tokens { Some(m) => Some(JsonV::Number(NumberV::PosInt(m as u64))), None => None })
}

/// The response format, stored over `g7` (a kept MIME type when there is none).
pub open spec fn gen_format_members(g7: Seq<(Seq<char>, JsonV)>, r: RequestV) -> Seq<(Seq<char>, JsonV)> {
    match r.response_format {
        Some(FormatV::JsonObject) => ext_insert(g7, "responseMimeType"@, JsonV::Str("application/json"@)),
        Some(FormatV::JsonSchema { schema, .. }) => ext_insert(ext_insert(g7, "responseMimeType"@, JsonV::Str("application/json"@)), "responseSchema"@, schema),
        Some(FormatV::Text) => ext_insert(g7, "responseMimeType"@, JsonV::Str("text/plain"@)),
        None => ext_opt(g7, "responseMimeType"@, member_get(r.extensions, "gemini.responseMimeType"@)),
    }
}

/// The thinking configuration, stored over `g8` when it has any member.
pub open spec fn gen_thinking_members(g8: Seq<(Seq<char>, JsonV)>, r: RequestV) -> Seq<(Seq<char>, JsonV)> {
    match r.reasoning {
        Some(rs) => {
            let tc = thinking_members(r, rs);
            if tc.len() > 0 { ext_insert(g8, "thinkingConfig"@, JsonV::Object(tc)) } else { g8 }
        },
        None => g8,
    }
}

/// The members of `generationConfig`: the kept unknown fields, then the sampling parameters,
/// the token limit, the response format and the thinking configuration.
pub open spec fn gen_members(r: RequestV) -> Seq<(Seq<char>, JsonV)> {
    gen_thinking_members(gen_format_members(gen_sampling_members(gen_base(r), r), r), r)
}

/// The extension fields that request encoding consumes itself (or that never belong in a
/// body): the model, built-in tools, allowed names, the MIME type, dynamic thinking and the
/// unknown generation fields.
pub open spec fn gemini_consumed(f: Seq<char>) -> bool {
    f == "model"@ || f == "builtinTools"@ || f == "allowedFunctionNames"@ || f == "responseMimeType"@
        || f == "dynamicThinking"@ || f == "generationConfig"@
}

fn is_gemini_consumed(f: &str) -> (res: bool)
    ensures
        res == gemini_consumed(f@),
{
    text_eq(f, "model") || text_eq(f, "builtinTools") || text_eq(f, "allowedFunctionNames")
        || text_eq(f, "responseMimeType") || text_eq(f, "dynamicThinking") || text_eq(f, "generationConfig")
}

/// Restores this protocol's extensions as top-level fields: fields the body already holds win,
/// and the consumed fields are not written back.
pub open spec fn gemini_restore(ext: Seq<(Seq<char>, JsonV)>, body: Seq<(Seq<char>, JsonV)>) -> Seq<(Seq<char>, JsonV)>
    decreases ext.len(),
{
    if ext.len() == 0 {
        body
    } else {
        let prev = gemini_restore(ext.drop_last(), body);
        let (k, v) = ext.last();
        if k.len() >= 7 && k.subrange(0, 7) == "gemini."@ {
            let f = k.subrange(7, k.len() as int);
            if f.len() == 0 || gemini_consumed(f) || member_get(prev, f) is Some {
                prev
            } else {
                ext_insert(prev, f, v)
            }
        } else {
            prev
        }
    }
}

/// What restoring extensions leaves under `f`: the body's own field wins; otherwise the first
/// extension `gemini.<f>`, unless `f` is empty or consumed.
pub proof fn lemma_gemini_restore_get(ext: Seq<(Seq<char>, JsonV)>, body: Seq<(Seq<char>, JsonV)>, f: Seq<char>)
    ensures
        member_get(gemini_restore(ext, body), f) == match member_get(body, f) {
            Some(x) => Some(x),
            None => if f.len() == 0 || gemini_consumed(f) { None } else { member_get(ext, "gemini."@ + f) },
        },
    decreases ext.len(),
{
    reveal_strlit("gemini.");
    if ext.len() > 0 {
        let e1 = ext.drop_last();
        lemma_gemini_restore_get(e1, body, f);
        let prev = gemini_restore(e1, body);
        let (k, v) = ext.last();
        assert(ext =~= e1.push((k, v)));
        let key = "gemini."@ + f;
        lemma_member_get_append(e1, (k, v), key);
        assert(key.subrange(0, 7) =~= "gemini."@);
        assert(key.subrange(7, key.len() as int) =~= f);
        if k.len() >= 7 && k.subrange(0, 7) == "gemini."@ {
            let g = k.subrange(7, k.len() as int);
            assert(k == key <==> g == f) by {
                if g == f {
                    assert(k =~= "gemini."@ + g);
                }
            }
            if g.len() == 0 || gemini_consumed(g) || member_get(prev, g) is Some {
            } else {
                lemma_ext_insert(prev, g, v);
            }
        } else {
            assert(k != key);
        }
    }
}

fn restore_gemini_extensions(ext: &Extensions, body: &mut Extensions)
    ensures
        final(body)@ == gemini_restore(ext@, old(body)@),
{
    proof {
        reveal_strlit("gemini.");
    }
    let n = ext.len();
    let ghost e = ext@;
    let mut i: usize = 0;
    assert(e.subrange(0, 0) =~= Seq::<(Seq<char>, JsonV)>::empty());
    while i < n
        invariant
            i <= n,
            n == e.len(),
            e == ext@,
            body@ == gemini_restore(e.subrange(0, i as int), old(body)@),
        decreases n - i,
    {
        proof {
            reveal_strlit("gemini.");
        }
        assert(e.subrange(0, i + 1).drop_last() =~= e.subrange(0, i as int));
        let (k, v) = ext.entry(i);
        if let Some(f) = strip_prefix(k, "gemini.") {
            if !(f.unicode_len() == 0 || is_gemini_consumed(f) || body.get(f).is_some()) {
                body.insert(owned(f), v.duplicate());
            }
        }
        i = i + 1;
    }
    assert(e.subrange(0, n as int) =~= e);
}

/// The body members computed from the IR, before extensions are restored.
pub open spec fn gemini_body(r: RequestV) -> Seq<(Seq<char>, JsonV)> {
    let names = msg_tool_pairs(r.messages);
    let groups = content_groups(r.messages, names);
    let sys = encode_parts_spec(r.system, names) + system_msg_parts(r.messages, names);
    let tools = tools_json(r);
    let gen = gen_members(r);
    let o1 = ext_insert(Seq::empty(), "contents"@, JsonV::Array(groups.map_values(|g: (Seq<char>, Seq<JsonV>)| group_json(g))));
    let o2 = ext_opt(o1, "systemInstruction"@, if sys.len() > 0 { Some(JsonV::Object(seq![("parts"@, JsonV::Array(sys))])) } else { None });
    let o3 = ext_opt(o2, "tools"@, if tools.len() > 0 { Some(JsonV::Array(tools)) } else { None });
    let o4 = ext_opt(o3, "toolConfig"@, match calling_config_json(r) {
        Some(fc) => Some(JsonV::Object(seq![("functionCallingConfig"@, fc)])),
        None => None,
    });
    let o5 = ext_opt(o4, "generationConfig"@, if gen.len() > 0 { Some(JsonV::Object(gen)) } else { None });
    let o6 = ext_opt(o5, "safetySettings"@, member_get(r.extensions, "gemini.safetySettings"@));
    let o7 = ext_opt(o6, "cachedContent"@, member_get(r.extensions, "gemini.cachedContent"@));
    o7
}

/// The Gemini request body for an IR request: the fields computed from the IR, then this
/// protocol's extension fields that the body does not hold (the model is never written: it
/// belongs to the URL).
pub open spec fn spec_gemini_encode_request(r: RequestV) -> JsonV {
    JsonV::Object(gemini_restore(r.extensions, gemini_body(r)))
}


fn tool_pairs<'a>(messages: &'a Vec<Message>) -> (res: Vec<(&'a str, &'a str)>)
    ensures
        pairs_view(res@) == msg_tool_pairs(msgs(messages@)),
{
    let ghost ms = msgs(messages@);
    let mut out: Vec<(&str, &str)> = Vec::new();
    assert(pairs_view(out@) =~= Seq::<(Seq<char>, Seq<char>)>::empty());
    let mut i: usize = 0;
    assert(ms.subrange(0, 0) =~= Seq::<MessageV>::empty());
    while i < messages.len()
        invariant
            i <= messages.len(),
            ms == msgs(messages@),
            pairs_view(out@) == msg_tool_pairs(ms.subrange(0, i as int)),
        decreases messages.len() - i,
    {
        assert(ms.subrange(0, i + 1).drop_last() =~= ms.subrange(0, i as int));
        let content = &messages[i].content;
        proof {
            lemma_parts_view(content@);
        }
        let ghost o0 = pairs_view(out@);
        let ghost ps = pv(*content);
        let mut j: usize = 0;
        assert(ps.subrange(0, 0) =~= Seq::<PartV>::empty());
        assert(pairs_view(out@) =~= o0 + part_tool_pairs(ps.subrange(0, 0)));
        while j < content.len()
            invariant
                j <= content.len(),
                ps == pv(*content),
                ps.len() == content.len(),
                forall|k: int| 0 <= k < content.len() ==> #[trigger] ps[k] == content@[k]@,
                pairs_view(out@) == o0 + part_tool_pairs(ps.subrange(0, j as int)),
            decreases content.len() - j,
        {
            assert(ps.subrange(0, j + 1).drop_last() =~= ps.subrange(0, j as int));
            match &content[j] {
                ContentPart::ToolUse { id, name, .. } => {
                    let ghost before = out@;
                    out.push((id.as_str(), name.as_str()));
                    assert(pairs_view(out@) =~= pairs_view(before).push((id@, name@)));
                },
                _ => {},
            }
            j = j + 1;
        }
        assert(ps.subrange(0, content.len() as int) =~= ps);
        assert(ms[i as int].content == ps);
        i = i + 1;
    }
    assert(ms.subrange(0, messages.len() as int) =~= ms);
    out
}

fn encode_parts(parts: &Vec<ContentPart>, names: &Vec<(&str, &str)>) -> (res: Vec<Json>)
    ensures
        items_view(res@) == encode_parts_spec(pv(*parts), pairs_view(names@)),
{
    proof {
        lemma_parts_view(parts@);
    }
    let ghost ps = pv(*parts);
    let mut out: Vec<Json> = Vec::new();
    proof {
        lemma_items_view(out@);
        assert(ps.subrange(0, 0) =~= Seq::<PartV>::empty());
    }
    let mut i: usize = 0;
    while i < parts.len()
        invariant
            i <= parts.len(),
            ps == pv(*parts),
            ps.len() == parts.len(),
            forall|k: int| 0 <= k < parts.len() ==> #[trigger] ps[k] == parts@[k]@,
            items_view(out@) == encode_parts_spec(ps.subrange(0, i as int), pairs_view(names@)),
        decreases parts.len() - i,
    {
        assert(ps.subrange(0, i + 1).drop_last() =~= ps.subrange(0, i as int));
        if let Some(j) = encode_part(&parts[i], names) {
            let ghost before = out@;
            out.push(j);
            assert(out@.drop_last() =~= before);
        }
        i = i + 1;
    }
    assert(ps.subrange(0, parts.len() as int) =~= ps);
    out
}

spec fn groups_view(g: Seq<(&'static str, Vec<Json>)>) -> Seq<(Seq<char>, Seq<JsonV>)> {
    g.map_values(|e: (&'static str, Vec<Json>)| (e.0@, items_view(e.1@)))
}

proof fn lemma_items_view_append(a: Seq<Json>, b: Seq<Json>)
    ensures
        items_view(a + b) == items_view(a) + items_view(b),
{
    lemma_items_view(a);
    lemma_items_view(b);
    lemma_items_view(a + b);
    assert(items_view(a + b) =~= items_view(a) + items_view(b));
}

fn contents_json(messages: &Vec<Message>, names: &Vec<(&str, &str)>) -> (res: Vec<Json>)
    ensures
        items_view(res@) == content_groups(msgs(messages@), pairs_view(names@)).map_values(|g: (Seq<char>, Seq<JsonV>)| group_json(g)),
{
    let ghost ms = msgs(messages@);
    let ghost nv = pairs_view(names@);
    let mut groups: Vec<(&'static str, Vec<Json>)> = Vec::new();
    assert(groups_view(groups@) =~= Seq::<(Seq<char>, Seq<JsonV>)>::empty());
    assert(ms.subrange(0, 0) =~= Seq::<MessageV>::empty());
    let mut i: usize = 0;
    while i < messages.len()
        invariant
            i <= messages.len(),
            ms == msgs(messages@),
            nv == pairs_view(names@),
            groups_view(groups@) == content_groups(ms.subrange(0, i as int), nv),
        decreases messages.len() - i,
    {
        assert(ms.subrange(0, i + 1).drop_last() =~= ms.subrange(0, i as int));
        let msg = &messages[i];
        if msg.role != Role::System {
            let mut ps = encode_parts(&msg.content, names);
            proof {
                lemma_items_view(ps@);
            }
            if ps.len() > 0 {
                let r: &'static str = if msg.role == Role::Assistant { "model" } else { "user" };
                let n = groups.len();
                let same = n > 0 && text_eq(groups[n - 1].0, r);
                if same {
                    let ghost g0 = groups@;
                    let (r0, mut prev) = groups.pop().unwrap();
                    let ghost p0 = prev@;
                    let ghost q0 = ps@;
                    prev.append(&mut ps);
                    proof {
                        lemma_items_view_append(p0, q0);
                    }
                    groups.push((r0, prev));
                    assert(groups_view(groups@) =~= groups_view(g0).update(n - 1, (r@, groups_view(g0)[n - 1].1 + items_view(q0))));
                } else {
                    let ghost g0 = groups@;
                    let ghost q0 = ps@;
                    groups.push((r, ps));
                    assert(groups_view(groups@) =~= groups_view(g0).push((r@, items_view(q0))));
                }
            }
        }
        i = i + 1;
    }
    assert(ms.subrange(0, messages.len() as int) =~= ms);
    let ghost gv = groups_view(groups@);
    let mut out: Vec<Json> = Vec::new();
    proof {
        lemma_items_view(out@);
    }
    let mut k: usize = 0;
    while k < groups.len()
        invariant
            k <= groups.len(),
            gv == groups_view(groups@),
            items_view(out@) == gv.subrange(0, k as int).map_values(|g: (Seq<char>, Seq<JsonV>)| group_json(g)),
        decreases groups.len() - k,
    {
        let (r, ps) = &groups[k];
        let mut copy: Vec<Json> = Vec::new();
        proof {
            lemma_items_view(ps@);
            lemma_items_view(copy@);
        }
        let mut j: usize = 0;
        while j < ps.len()
            invariant
                j <= ps.len(),
                items_view(copy@) == items_view(ps@).subrange(0, j as int),
                items_view(ps@).len() == ps.len(),
                forall|t: int| 0 <= t < ps.len() ==> #[trigger] items_view(ps@)[t] == ps@[t]@,
            decreases ps.len() - j,
        {
            let ghost c0 = copy@;
            copy.push(ps[j].duplicate());
            proof {
                assert(copy@.drop_last() =~= c0);
                assert(items_view(copy@) =~= items_view(ps@).subrange(0, j + 1));
            }
            j = j + 1;
        }
        assert(items_view(ps@).subrange(0, ps.len() as int) =~= items_view(ps@));
        let entry = pair_object("role", str_json(r), "parts", Json::Array(copy));
        let ghost o0 = out@;
        out.push(entry);
        proof {
            assert(out@.drop_last() =~= o0);
            assert(gv[k as int] == (r@, items_view(ps@)));
            assert(items_view(out@) =~= gv.subrange(0, k + 1).map_values(|g: (Seq<char>, Seq<JsonV>)| group_json(g)));
        }
        k = k + 1;
    }
    assert(gv.subrange(0, groups.len() as int) =~= gv);
    out
}

fn system_json(ir: &UnifiedRequest, names: &Vec<(&str, &str)>) -> (res: Vec<Json>)
    ensures
        items_view(res@) == encode_parts_spec(pv(ir.system), pairs_view(names@)) + system_msg_parts(msgs(ir.messages@), pairs_view(names@)),
{
    let mut out = encode_parts(&ir.system, names);
    let ghost base = items_view(out@);
    let ghost ms = msgs(ir.messages@);
    let ghost nv = pairs_view(names@);
    let mut i: usize = 0;
    assert(ms.subrange(0, 0) =~= Seq::<MessageV>::empty());
    assert(items_view(out@) =~= base + system_msg_parts(ms.subrange(0, 0), nv));
    while i < ir.messages.len()
        invariant
            i <= ir.messages.len(),
            ms == msgs(ir.messages@),
            nv == pairs_view(names@),
            items_view(out@) == base + system_msg_parts(ms.subrange(0, i as int), nv),
        decreases ir.messages.len() - i,
    {
        assert(ms.subrange(0, i + 1).drop_last() =~= ms.subrange(0, i as int));
        let msg = &ir.messages[i];
        if msg.role == Role::System {
            let mut more = encode_parts(&msg.content, names);
            let ghost o0 = out@;
            let ghost m0 = more@;
            out.append(&mut more);
            proof {
                lemma_items_view_append(o0, m0);
            }
        }
        assert(items_view(out@) =~= base + system_msg_parts(ms.subrange(0, i + 1), nv));
        i = i + 1;
    }
    assert(ms.subrange(0, ir.messages.len() as int) =~= ms);
    out
}

fn decl_json_exec(t: &ToolDef) -> (res: Json)
    ensures
        res@ == decl_json(t@),
{
    let mut m: Vec<(String, Json)> = Vec::new();
    push_member(&mut m, "name", str_json(t.name.as_str()));
    if let Some(d) = &t.description {
        push_member(&mut m, "description", str_json(d.as_str()));
    }
    push_member(&mut m, "parameters", t.parameters.duplicate());
    proof {
        assert(Seq::<(Seq<char>, JsonV)>::empty().push(("name"@, JsonV::Str(t.name@))) =~= seq![("name"@, JsonV::Str(t.name@))]);
    }
    Json::object(m)
}

fn tools_json_exec(ir: &UnifiedRequest) -> (res: Vec<Json>)
    ensures
        items_view(res@) == tools_json(ir@),
{
    let mut out: Vec<Json> = Vec::new();
    proof {
        lemma_items_view(out@);
    }
    if ir.tools.len() > 0 {
        let mut decls: Vec<Json> = Vec::new();
        proof {
            lemma_items_view(decls@);
        }
        let ghost ts = tls(ir.tools@);
        let mut i: usize = 0;
        assert(ts.subrange(0, 0) =~= Seq::<ToolV>::empty());
        while i < ir.tools.len()
            invariant
                i <= ir.tools.len(),
                ts == tls(ir.tools@),
                items_view(decls@) == decls_json(ts.subrange(0, i as int)),
            decreases ir.tools.len() - i,
        {
            assert(ts.subrange(0, i + 1).drop_last() =~= ts.subrange(0, i as int));
            let ghost d0 = decls@;
            decls.push(decl_json_exec(&ir.tools[i]));
            assert(decls@.drop_last() =~= d0);
            i = i + 1;
        }
        assert(ts.subrange(0, ir.tools.len() as int) =~= ts);
        out.push(single_object("functionDeclarations", Json::Array(decls)));
        proof {
            lemma_items_view(out@);
            assert(items_view(out@) =~= seq![JsonV::Object(seq![("functionDeclarations"@, JsonV::Array(decls_json(ir@.tools)))])]);
        }
    } else {
        assert(items_view(out@) =~= Seq::<JsonV>::empty());
    }
    let ghost head = items_view(out@);
    match ir.extension("gemini.builtinTools") {
        Some(Json::Array(b)) => {
            proof {
                lemma_items_view(b@);
            }
            let mut j: usize = 0;
            while j < b.len()
                invariant
                    j <= b.len(),
                    items_view(b@).len() == b.len(),
                    forall|t: int| 0 <= t < b.len() ==> #[trigger] items_view(b@)[t] == b@[t]@,
                    items_view(out@) == head + items_view(b@).subrange(0, j as int),
                decreases b.len() - j,
            {
                let ghost o0 = out@;
                out.push(b[j].duplicate());
                assert(out@.drop_last() =~= o0);
                assert(items_view(out@) =~= head + items_view(b@).subrange(0, j + 1));
                j = j + 1;
            }
            assert(items_view(b@).subrange(0, b.len() as int) =~= items_view(b@));
        },
        _ => {
            assert(items_view(out@) =~= head + Seq::<JsonV>::empty());
        },
    }
    out
}

fn calling_config_exec(ir: &UnifiedRequest) -> (res: Option<Json>)
    ensures
        opt_view(match res {
            Some(j) => Some(&j),
            None => None,
        }) == calling_config_json(ir@),
{
    match &ir.tool_choice {
        ToolChoice::Unspecified => None,
        ToolChoice::Auto => Some(single_object("mode", str_json("AUTO"))),
        ToolChoice::NoTool => Some(single_object("mode", str_json("NONE"))),
        ToolChoice::Required => {
            let mut m: Vec<(String, Json)> = Vec::new();
            push_member(&mut m, "mode", str_json("ANY"));
            if let Some(n) = ir.extension("gemini.allowedFunctionNames") {
                push_member(&mut m, "allowedFunctionNames", n.duplicate());
            }
            proof {
                assert(Seq::<(Seq<char>, JsonV)>::empty().push(("mode"@, JsonV::Str("ANY"@))) =~= seq![("mode"@, JsonV::Str("ANY"@))]);
                assert(seq![("mode"@, JsonV::Str("ANY"@))] + Seq::<(Seq<char>, JsonV)>::empty() =~= seq![("mode"@, JsonV::Str("ANY"@))]);
                assert(members_view(m@) =~= calling_config_json(ir@)->Some_0->Object_0);
            }
            Some(Json::object(m))
        },
        ToolChoice::Tool(name) => {
            let mut names: Vec<Json> = Vec::new();
            names.push(str_json(name.as_str()));
            proof {
                lemma_items_view(names@);
                assert(items_view(names@) =~= seq![JsonV::Str(name@)]);
            }
            Some(pair_object("mode", str_json("ANY"), "allowedFunctionNames", Json::Array(names)))
        },
    }
}

fn insert_opt(ext: &mut Extensions, key: &str, v: Option<Json>)
    ensures
        final(ext)@ == ext_opt(old(ext)@, key@, match v {
            Some(j) => Some(j@),
            None => None,
        }),
{
    if let Some(j) = v {
        ext.insert(owned(key), j);
    }
}

fn int_json_exec(n: i64) -> (res: Json)
    ensures
        res@ == int_json(n),
{
    if n >= 0 { Json::uint(n as u64) } else { Json::Number(JsonNumber::NegInt(n)) }
}

fn gen_base_exec(ir: &UnifiedRequest) -> (res: Extensions)
    ensures
        res@ == gen_base(ir@),
{
    let mut g = Extensions::new();
    assert(g@ =~= Seq::<(Seq<char>, JsonV)>::empty());
    if let Some(Json::Object(extra)) = ir.extension("gemini.generationConfig") {
        proof {
            lemma_members_view(extra@);
        }
        let ghost es = members_view(extra@);
        let mut i: usize = 0;
        assert(es.subrange(0, 0) =~= Seq::<(Seq<char>, JsonV)>::empty());
        while i < extra.len()
            invariant
                i <= extra.len(),
                es == members_view(extra@),
                es.len() == extra.len(),
                forall|k: int| 0 <= k < extra.len() ==> #[trigger] es[k] == (extra@[k].0@, extra@[k].1@),
                g@ == insert_all(Seq::empty(), es.subrange(0, i as int)),
            decreases extra.len() - i,
        {
            assert(es.subrange(0, i + 1).drop_last() =~= es.subrange(0, i as int));
            let (k, v) = &extra[i];
            g.insert(owned(k.as_str()), v.duplicate());
            i = i + 1;
        }
        assert(es.subrange(0, extra.len() as int) =~= es);
    }
    g
}

fn stops_json(stop: &Vec<String>) -> (res: Json)
    ensures
        res@ == JsonV::Array(stop@.map_values(|t: String| t@).map_values(|t: Seq<char>| JsonV::Str(t))),
{
    let mut stops: Vec<Json> = Vec::new();
    proof {
        lemma_items_view(stops@);
    }
    let ghost sv = stop@.map_values(|t: String| t@);
    let mut i: usize = 0;
    while i < stop.len()
        invariant
            i <= stop.len(),
            sv == stop@.map_values(|t: String| t@),
            items_view(stops@) == sv.subrange(0, i as int).map_values(|t: Seq<char>| JsonV::Str(t)),
        decreases stop.len() - i,
    {
        let ghost s0 = stops@;
        stops.push(str_json(stop[i].as_str()));
        assert(stops@.drop_last() =~= s0);
        assert(items_view(stops@) =~= sv.subrange(0, i + 1).map_values(|t: Seq<char>| JsonV::Str(t)));
        i = i + 1;
    }
    assert(sv.subrange(0, stop.len() as int) =~= sv);
    Json::Array(stops)
}

fn put_sampling(g: &mut Extensions, ir: &UnifiedRequest)
    ensures
        final(g)@ == gen_sampling_members(old(g)@, ir@),
{
    let s = &ir.sampling;
    insert_opt(g, "temperature", match &s.temperature {
        Some(t) => Some(Json::Number(t.duplicate())),
        None => None,
    });
    insert_opt(g, "topP", match &s.top_p {
        Some(t) => Some(Json::Number(t.duplicate())),
        None => None,
    });
    insert_opt(g, "topK", match s.top_k {
        Some(k) => Some(Json::uint(k as u64)),
        None => None,
    });
    insert_opt(g, "seed", match s.seed {
        Some(x) => Some(int_json_exec(x)),
        None => None,
    });
    insert_opt(g, "candidateCount", match s.candidate_count {
        Some(n) => Some(Json::uint(n as u64)),
        None => None,
    });
    insert_opt(g, "stopSequences", if s.stop.len() > 0 { Some(stops_json(&s.stop)) } else { None });
    insert_opt(g, "maxOutputTokens", match ir.max_output_tokens {
        Some(m) => Some(Json::uint(m as u64)),
        None => None,
    });
}

fn put_format(g: &mut Extensions, ir: &UnifiedRequest)
    ensures
        final(g)@ == gen_format_members(old(g)@, ir@),
{
    match &ir.response_format {
        Some(ResponseFormat::JsonObject) => {
            g.insert(owned("responseMimeType"), str_json("application/json"));
        },
        Some(ResponseFormat::JsonSchema { schema, .. }) => {
            g.insert(owned("responseMimeType"), str_json("application/json"));
            g.insert(owned("responseSchema"), schema.duplicate());
        },
        Some(ResponseFormat::Text) => {
            g.insert(owned("responseMimeType"), str_json("text/plain"));
        },
        None => {
            insert_opt(g, "responseMimeType", match ir.extension("gemini.responseMimeType") {
                Some(m) => Some(m.duplicate()),
                None => None,
            });
        },
    }
}

fn put_thinking(g: &mut Extensions, ir: &UnifiedRequest)
    ensures
        final(g)@ == gen_thinking_members(old(g)@, ir@),
{
    if let Some(r) = &ir.reasoning {
        let mut tc: Vec<(String, Json)> = Vec::new();
        proof {
            lemma_members_view(tc@);
        }
        let dynamic = match ir.extension("gemini.dynamicThinking") {
            Some(Json::Bool(b)) => *b,
            _ => false,
        };
        if dynamic {
            push_member(&mut tc, "thinkingBudget", Json::Number(JsonNumber::NegInt(-1)));
        } else if let Some(b) = r.budget_or_from_effort(ir.max_output_tokens) {
            push_member(&mut tc, "thinkingBudget", Json::uint(b as u64));
        }
        if let Some(x) = r.include_thoughts {
            push_member(&mut tc, "includeThoughts", Json::boolean(x));
        }
        proof {
            assert(members_view(tc@) =~= thinking_members(ir@, r@));
            lemma_members_view(tc@);
        }
        if tc.len() > 0 {
            g.insert(owned("thinkingConfig"), Json::object(tc));
        }
    }
}

fn gen_members_exec(ir: &UnifiedRequest) -> (res: Extensions)
    ensures
        res@ == gen_members(ir@),
{
    let mut g = gen_base_exec(ir);
    put_sampling(&mut g, ir);
    put_format(&mut g, ir);
    put_thinking(&mut g, ir);
    g
}

impl GeminiCodec {
    /// Encodes an IR request as a Gemini `generateContent` body.
    pub fn encode_request(&self, ir: &UnifiedRequest) -> (res: Json)
        ensures
            res@ == spec_gemini_encode_request(ir@),
    {
        let names = tool_pairs(&ir.messages);
        let groups = contents_json(&ir.messages, &names);
        let sys = system_json(ir, &names);
        let tools = tools_json_exec(ir);
        let gen = gen_members_exec(ir);
        proof {
            lemma_items_view(sys@);
            lemma_items_view(tools@);
        }
        let mut out = Extensions::new();
        assert(out@ =~= Seq::<(Seq<char>, JsonV)>::empty());
        out.insert(owned("contents"), Json::Array(groups));
        insert_opt(&mut out, "systemInstruction", if sys.len() > 0 { Some(single_object("parts", Json::Array(sys))) } else { None });
        insert_opt(&mut out, "tools", if tools.len() > 0 { Some(Json::Array(tools)) } else { None });
        insert_opt(&mut out, "toolConfig", match calling_config_exec(ir) {
            Some(fc) => Some(single_object("functionCallingConfig", fc)),
            None => None,
        });
        let has_gen = gen.len() > 0;
        let gen_json = gen.into_json();
        insert_opt(&mut out, "generationConfig", if has_gen { Some(gen_json) } else { None });
        insert_opt(&mut out, "safetySettings", match ir.extension("gemini.safetySettings") {
            Some(v) => Some(v.duplicate()),
            None => None,
        });
        insert_opt(&mut out, "cachedContent", match ir.extension("gemini.cachedContent") {
            Some(v) => Some(v.duplicate()),
            None => None,
        });
        restore_gemini_extensions(&ir.extensions, &mut out);
        out.into_json()
    }
}


impl GeminiCodec {
    /// The protocol this codec speaks.
    pub fn protocol(&self) -> (res: Protocol)
        ensures
            res == Protocol::Gemini,
    {
        Protocol::Gemini
    }
}


// ---------------------------------------------------------------------------
// Responses
// ---------------------------------------------------------------------------

/// `usageMetadata`: output without reasoning as `candidatesTokenCount`, the all-in total, and
/// the cache and reasoning counts when non-zero.
pub open spec fn spec_encode_usage(u: Usage) -> JsonV {
    let m0 = seq![
        ("promptTokenCount"@, JsonV::Number(NumberV::PosInt(u.input_tokens))),
        ("candidatesTokenCount"@, JsonV::Number(NumberV::PosInt(if u.output_tokens >= u.reasoning_tokens { (u.output_tokens - u.reasoning_tokens) as u64 } else { 0 }))),
        ("totalTokenCount"@, JsonV::Number(NumberV::PosInt(crate::ir::wrap_add(u.input_tokens, u.output_tokens)))),
    ];
    let m1 = if u.cached_input_tokens > 0 { m0.push(("cachedContentTokenCount"@, JsonV::Number(NumberV::PosInt(u.cached_input_tokens)))) } else { m0 };
    let m2 = if u.reasoning_tokens > 0 { m1.push(("thoughtsTokenCount"@, JsonV::Number(NumberV::PosInt(u.reasoning_tokens)))) } else { m1 };
    JsonV::Object(m2)
}

pub fn encode_usage(u: &Usage) -> (res: Json)
    ensures
        res@ == spec_encode_usage(*u),
{
    let mut m: Vec<(String, Json)> = Vec::new();
    push_member(&mut m, "promptTokenCount", Json::uint(u.input_tokens));
    push_member(&mut m, "candidatesTokenCount", Json::uint(if u.output_tokens >= u.reasoning_tokens { u.output_tokens - u.reasoning_tokens } else { 0 }));
    push_member(&mut m, "totalTokenCount", Json::uint(crate::ir::wrap_add_exec(u.input_tokens, u.output_tokens)));
    if u.cached_input_tokens > 0 {
        push_member(&mut m, "cachedContentTokenCount", Json::uint(u.cached_input_tokens));
    }
    if u.reasoning_tokens > 0 {
        push_member(&mut m, "thoughtsTokenCount", Json::uint(u.reasoning_tokens));
    }
    assert(members_view(m@) =~= spec_encode_usage(*u)->Object_0);
    Json::object(m)
}

/// Whether some part is a tool call.
pub open spec fn any_tool_use(parts: Seq<PartV>) -> bool {
    exists|k: int| 0 <= k < parts.len() && #[trigger] parts[k] is ToolUse
}

/// The content object of the first candidate, when it is an object.
pub open spec fn candidate_content(cand: Option<JsonV>) -> Option<JsonV> {
    match cand {
        Some(c) => match c.get("content"@) {
            Some(JsonV::Object(m)) => Some(JsonV::Object(m)),
            _ => None,
        },
        None => None,
    }
}

/// The raw `finishReason` of the first candidate.
pub open spec fn raw_finish(cand: Option<JsonV>) -> Option<Seq<char>> {
    match cand {
        Some(c) => opt_str(field_of(c, "finishReason"@, "finish_reason"@)),
        None => None,
    }
}

/// A candidate-level field kept under `gemini.` + `key`.
pub open spec fn keep_candidate_field(ext: Seq<(Seq<char>, JsonV)>, cand: Option<JsonV>, camel: Seq<char>, snake: Seq<char>) -> Seq<(Seq<char>, JsonV)> {
    match cand {
        Some(c) => match field_of(c, camel, snake) {
            Some(v) => ext_insert(ext, "gemini."@ + camel, v),
            None => ext,
        },
        None => ext,
    }
}

/// The extensions of a decoded response: the raw finish reason, the safety ratings and
/// citations of the first candidate, the other candidates, and the prompt feedback.
pub open spec fn decoded_response_ext(raw: JsonV) -> Seq<(Seq<char>, JsonV)> {
    let cand = spec_first_candidate(raw);
    let e0: Seq<(Seq<char>, JsonV)> = Seq::empty();
    let e1 = match raw_finish(cand) {
        Some(f) => ext_insert(e0, "gemini.finishReason"@, JsonV::Str(f)),
        None => e0,
    };
    let e2 = keep_candidate_field(e1, cand, "safetyRatings"@, "safety_ratings"@);
    let e3 = keep_candidate_field(e2, cand, "citationMetadata"@, "citation_metadata"@);
    let e4 = match raw.get("candidates"@) {
        Some(JsonV::Array(all)) => if all.len() > 1 {
            ext_insert(e3, "gemini.extraCandidates"@, JsonV::Array(all.subrange(1, all.len() as int)))
        } else {
            e3
        },
        _ => e3,
    };
    match field_of(raw, "promptFeedback"@, "prompt_feedback"@) {
        Some(f) => ext_insert(e4, "gemini.promptFeedback"@, f),
        None => e4,
    }
}

/// The stop reason of a decoded response: the mapped finish reason (a stop with tool calls is
/// a tool-use stop), else a content filter when the prompt was blocked.
pub open spec fn decoded_stop(raw: JsonV, content: Seq<PartV>) -> Option<StopReason> {
    let s0 = match raw_finish(spec_first_candidate(raw)) {
        Some(f) => {
            let mapped = spec_stop_reason_from_gemini(f);
            Some(if mapped == StopReason::Stop && any_tool_use(content) { StopReason::ToolUse } else { mapped })
        },
        None => None,
    };
    match field_of(raw, "promptFeedback"@, "prompt_feedback"@) {
        Some(f) => if s0 is None && f is Object && field_of(f, "blockReason"@, "block_reason"@) is Some {
            Some(StopReason::ContentFilter)
        } else {
            s0
        },
        None => s0,
    }
}

/// The response a Gemini body decodes to: `fresh_id` makes the id when the body has none,
/// `now` is the creation time.
pub open spec fn spec_gemini_decode_response(raw: JsonV, fresh_id: Seq<char>, now: i64) -> Result<ResponseV, GatewayErrorV> {
    match raw {
        JsonV::Object(_) => if is_error_body(raw) {
            Err(GatewayErrorV {
                kind: error_body_kind(raw),
                message: error_message(raw),
                protocol: Some(Protocol::Gemini),
                upstream_status: match opt_u64(error_object(raw).get("code"@)) {
                    Some(c) => Some(if c <= 0xffff { c as u16 } else { 502u16 }),
                    None => None,
                },
                upstream_body: match opt_u64(error_object(raw).get("code"@)) {
                    Some(_) => Some(json_render(raw)),
                    None => None,
                },
            })
        } else {
            let content = spec_decode_parts(opt_get(candidate_content(spec_first_candidate(raw)), "parts"@));
            Ok(ResponseV {
                id: match spec_non_empty_str(field_of(raw, "responseId"@, "response_id"@)) {
                    Some(i) => i,
                    None => "gemini-"@ + fresh_id,
                },
                model: str_or(spec_non_empty_str(field_of(raw, "modelVersion"@, "model_version"@)), Seq::empty()),
                created: now,
                content,
                stop_reason: decoded_stop(raw, content),
                stop_sequence: None,
                usage: spec_parse_usage(field_of(raw, "usageMetadata"@, "usage_metadata"@)),
                extensions: decoded_response_ext(raw),
            })
        },
        _ => Err(plain_error(ErrorKind::InvalidRequest, "response body must be a JSON object"@, None)),
    }
}

/// The upstream status and body an error body records: both when it has a numeric code.
pub open spec fn error_upstream(raw: JsonV, status: Option<u16>, body: Option<Seq<char>>) -> bool {
    match opt_u64(error_object(raw).get("code"@)) {
        Some(c) => status == Some(if c <= 0xffff { c as u16 } else { 502u16 }) && body == Some(json_render(raw)),
        None => status is None && body is None,
    }
}

fn has_tool_use(parts: &Vec<ContentPart>) -> (res: bool)
    ensures
        res == any_tool_use(pv(*parts)),
{
    proof {
        lemma_parts_view(parts@);
    }
    let mut i: usize = 0;
    while i < parts.len()
        invariant
            i <= parts.len(),
            pv(*parts).len() == parts.len(),
            forall|k: int| 0 <= k < parts.len() ==> #[trigger] pv(*parts)[k] == parts@[k]@,
            forall|k: int| 0 <= k < i ==> !(#[trigger] pv(*parts)[k] is ToolUse),
        decreases parts.len() - i,
    {
        if let ContentPart::ToolUse { .. } = &parts[i] {
            assert(pv(*parts)[i as int] is ToolUse);
            return true;
        }
        i = i + 1;
    }
    false
}

fn keep_candidate_field_exec(ext: &mut Extensions, cand: Option<&Json>, camel: &str, snake: &str)
    ensures
        final(ext)@ == keep_candidate_field(old(ext)@, opt_view(cand), camel@, snake@),
{
    if let Some(c) = cand {
        if let Some(v) = c.field(camel, snake) {
            ext.insert(concat("gemini.", camel), v.duplicate());
        }
    }
}

fn tail_items(all: &Vec<Json>) -> (res: Vec<Json>)
    requires
        all.len() > 1,
    ensures
        items_view(res@) == items_view(all@).subrange(1, all.len() as int),
{
    proof {
        lemma_items_view(all@);
    }
    let mut out: Vec<Json> = Vec::new();
    proof {
        lemma_items_view(out@);
    }
    let mut i: usize = 1;
    while i < all.len()
        invariant
            1 <= i <= all.len(),
            items_view(all@).len() == all.len(),
            forall|k: int| 0 <= k < all.len() ==> #[trigger] items_view(all@)[k] == all@[k]@,
            items_view(out@) == items_view(all@).subrange(1, i as int),
        decreases all.len() - i,
    {
        crate::codec::chat::push_json(&mut out, all[i].duplicate());
        assert(items_view(out@) =~= items_view(all@).subrange(1, i + 1));
        i = i + 1;
    }
    out
}

fn decoded_response_ext_exec(raw: &Json) -> (res: Extensions)
    ensures
        res@ == decoded_response_ext(raw@),
{
    let cand = first_candidate(raw);
    let ghost cv = spec_first_candidate(raw@);
    let mut ext = Extensions::new();
    assert(ext@ =~= Seq::<(Seq<char>, JsonV)>::empty());
    let finish = match cand {
        Some(c) => match c.field("finishReason", "finish_reason") {
            Some(f) => f.as_str(),
            None => None,
        },
        None => None,
    };
    assert(match finish {
        Some(f) => raw_finish(cv) == Some(f@),
        None => raw_finish(cv) is None,
    });
    if let Some(f) = finish {
        ext.insert(owned("gemini.finishReason"), str_json(f));
    }
    keep_candidate_field_exec(&mut ext, cand, "safetyRatings", "safety_ratings");
    keep_candidate_field_exec(&mut ext, cand, "citationMetadata", "citation_metadata");
    match raw.get("candidates") {
        Some(Json::Array(all)) => {
            proof {
                lemma_items_view(all@);
            }
            if all.len() > 1 {
                ext.insert(owned("gemini.extraCandidates"), Json::Array(tail_items(all)));
            }
        },
        _ => {},
    }
    if let Some(f) = raw.field("promptFeedback", "prompt_feedback") {
        ext.insert(owned("gemini.promptFeedback"), f.duplicate());
    }
    ext
}

fn decoded_stop_exec(raw: &Json, content: &Vec<ContentPart>) -> (res: Option<StopReason>)
    ensures
        res == decoded_stop(raw@, pv(*content)),
{
    let cand = first_candidate(raw);
    let finish = match cand {
        Some(c) => match c.field("finishReason", "finish_reason") {
            Some(f) => f.as_str(),
            None => None,
        },
        None => None,
    };
    let s0 = match finish {
        Some(f) => {
            let mapped = stop_reason_from_gemini(f);
            Some(if mapped == StopReason::Stop && has_tool_use(content) { StopReason::ToolUse } else { mapped })
        },
        None => None,
    };
    match raw.field("promptFeedback", "prompt_feedback") {
        Some(f) => if s0.is_none() && f.is_object() && f.field("blockReason", "block_reason").is_some() {
            Some(StopReason::ContentFilter)
        } else {
            s0
        },
        None => s0,
    }
}

impl GeminiCodec {
    /// Decodes a Gemini response body; `fresh_id` makes the id when the body has none and
    /// `now` is the creation time.
    pub fn decode_response_with(&self, raw: &Json, fresh_id: &str, now: i64) -> (res: Result<UnifiedResponse, GatewayError>)
        ensures
            match res {
                Ok(r) => spec_gemini_decode_response(raw@, fresh_id@, now) == Ok::<ResponseV, GatewayErrorV>(r@),
                Err(e) => spec_gemini_decode_response(raw@, fresh_id@, now) == Err::<ResponseV, GatewayErrorV>(e@)
                    && (raw@ is Object ==> error_upstream(raw@, e.upstream_status, ov(e.upstream_body)))
                    && (!(raw@ is Object) ==> e.upstream_status.is_none() && e.upstream_body.is_none()),
            },
    {
        if !raw.is_object() {
            return Err(GatewayError::invalid_request(owned("response body must be a JSON object")));
        }
        if let Some(e) = parse_error_body(raw) {
            return Err(e);
        }
        let cand = first_candidate(raw);
        let content = match cand {
            Some(c) => match c.get("content") {
                Some(co) => if co.is_object() { decode_parts(co.get("parts")) } else { decode_parts(None) },
                None => decode_parts(None),
            },
            None => decode_parts(None),
        };
        let id = match non_empty_str(raw.field("responseId", "response_id")) {
            Some(i) => i,
            None => concat("gemini-", fresh_id),
        };
        let model = match non_empty_str(raw.field("modelVersion", "model_version")) {
            Some(m) => m,
            None => String::new(),
        };
        let stop_reason = decoded_stop_exec(raw, &content);
        let usage = parse_usage(raw.field("usageMetadata", "usage_metadata"));
        let extensions = decoded_response_ext_exec(raw);
        Ok(UnifiedResponse { id, model, created: now, content, stop_reason, stop_sequence: None, usage, extensions })
    }

    /// Decodes a Gemini response body, making up a `gemini-<uuid>` id when it has none and
    /// stamping it with the current time.
    pub fn decode_response(&self, raw: &Json) -> (res: Result<UnifiedResponse, GatewayError>)
        ensures
            exists|fresh: Seq<char>, now: i64| uuid_text(fresh) && match res {
                Ok(r) => #[trigger] spec_gemini_decode_response(raw@, fresh, now) == Ok::<ResponseV, GatewayErrorV>(r@),
                Err(e) => spec_gemini_decode_response(raw@, fresh, now) == Err::<ResponseV, GatewayErrorV>(e@),
            },
    {
        let fresh = random_uuid();
        let now = crate::ir::now_unix_seconds();
        self.decode_response_with(raw, fresh.as_str(), now)
    }
}

/// The first candidate of an encoded response.
pub open spec fn encoded_candidate(r: ResponseV) -> JsonV {
    let no_names: Seq<(Seq<char>, Seq<char>)> = Seq::empty();
    let content = JsonV::Object(seq![("parts"@, JsonV::Array(encode_parts_spec(r.content, no_names))), ("role"@, JsonV::Str("model"@))]);
    let finish: Option<Seq<char>> = match member_get(r.extensions, "gemini.finishReason"@) {
        Some(JsonV::Str(f)) => Some(f),
        _ => match r.stop_reason {
            Some(s) => Some(spec_stop_reason_to_gemini(s)),
            None => None,
        },
    };
    let c0 = seq![("content"@, content)];
    let c1 = match finish {
        Some(f) => c0.push(("finishReason"@, JsonV::Str(f))),
        None => c0,
    };
    let c2 = c1.push(("index"@, JsonV::Number(NumberV::PosInt(0))));
    let c3 = match member_get(r.extensions, "gemini.safetyRatings"@) {
        Some(v) => c2.push(("safetyRatings"@, v)),
        None => c2,
    };
    let c4 = match member_get(r.extensions, "gemini.citationMetadata"@) {
        Some(v) => c3.push(("citationMetadata"@, v)),
        None => c3,
    };
    JsonV::Object(c4)
}

/// The Gemini body for an IR response: the first candidate rebuilt (the raw finish reason
/// preferred), the other candidates, usage, model, id and prompt feedback restored.
pub open spec fn spec_gemini_encode_response(r: ResponseV) -> JsonV {
    let candidates = seq![encoded_candidate(r)] + match member_get(r.extensions, "gemini.extraCandidates"@) {
        Some(JsonV::Array(extra)) => extra,
        _ => Seq::empty(),
    };
    let o0 = seq![("candidates"@, JsonV::Array(candidates)), ("usageMetadata"@, spec_encode_usage(r.usage))];
    let o1 = if r.model.len() > 0 { o0.push(("modelVersion"@, JsonV::Str(r.model))) } else { o0 };
    let o2 = o1.push(("responseId"@, JsonV::Str(r.id)));
    let o3 = match member_get(r.extensions, "gemini.promptFeedback"@) {
        Some(f) => o2.push(("promptFeedback"@, f)),
        None => o2,
    };
    JsonV::Object(o3)
}

fn encoded_candidate_exec(ir: &UnifiedResponse) -> (res: Json)
    ensures
        res@ == encoded_candidate(ir@),
{
    let names: Vec<(&str, &str)> = Vec::new();
    assert(pairs_view(names@) =~= Seq::<(Seq<char>, Seq<char>)>::empty());
    let parts = encode_parts(&ir.content, &names);
    let content = pair_object("parts", Json::Array(parts), "role", str_json("model"));
    let mut c: Vec<(String, Json)> = Vec::new();
    push_member(&mut c, "content", content);
    let finish: Option<&str> = match ir.extensions.get("gemini.finishReason") {
        Some(Json::Str(f)) => Some(f.as_str()),
        _ => match ir.stop_reason {
            Some(s) => Some(stop_reason_to_gemini(s)),
            None => None,
        },
    };
    if let Some(f) = finish {
        push_member(&mut c, "finishReason", str_json(f));
    }
    push_member(&mut c, "index", Json::uint(0));
    if let Some(v) = ir.extensions.get("gemini.safetyRatings") {
        push_member(&mut c, "safetyRatings", v.duplicate());
    }
    if let Some(v) = ir.extensions.get("gemini.citationMetadata") {
        push_member(&mut c, "citationMetadata", v.duplicate());
    }
    assert(members_view(c@) =~= encoded_candidate(ir@)->Object_0);
    Json::object(c)
}

impl GeminiCodec {
    /// Encodes an IR response as a Gemini body.
    pub fn encode_response(&self, ir: &UnifiedResponse) -> (res: Json)
        ensures
            res@ == spec_gemini_encode_response(ir@),
    {
        let mut candidates: Vec<Json> = Vec::new();
        proof {
            lemma_items_view(candidates@);
        }
        crate::codec::chat::push_json(&mut candidates, encoded_candidate_exec(ir));
        let ghost head = items_view(candidates@);
        match ir.extensions.get("gemini.extraCandidates") {
            Some(Json::Array(extra)) => {
                proof {
                    lemma_items_view(extra@);
                }
                let mut j: usize = 0;
                while j < extra.len()
                    invariant
                        j <= extra.len(),
                        items_view(extra@).len() == extra.len(),
                        forall|t: int| 0 <= t < extra.len() ==> #[trigger] items_view(extra@)[t] == extra@[t]@,
                        items_view(candidates@) == head + items_view(extra@).subrange(0, j as int),
                    decreases extra.len() - j,
                {
                    crate::codec::chat::push_json(&mut candidates, extra[j].duplicate());
                    assert(items_view(candidates@) =~= head + items_view(extra@).subrange(0, j + 1));
                    j = j + 1;
                }
                assert(items_view(extra@).subrange(0, extra.len() as int) =~= items_view(extra@));
            },
            _ => {
                assert(items_view(candidates@) =~= head + Seq::<JsonV>::empty());
            },
        }
        let mut o: Vec<(String, Json)> = Vec::new();
        push_member(&mut o, "candidates", Json::Array(candidates));
        push_member(&mut o, "usageMetadata", encode_usage(&ir.usage));
        if ir.model.as_str().unicode_len() > 0 {
            push_member(&mut o, "modelVersion", str_json(ir.model.as_str()));
        }
        push_member(&mut o, "responseId", str_json(ir.id.as_str()));
        if let Some(f) = ir.extensions.get("gemini.promptFeedback") {
            push_member(&mut o, "promptFeedback", f.duplicate());
        }
        assert(members_view(o@) =~= spec_gemini_encode_response(ir@)->Object_0);
        Json::object(o)
    }
}


// ---------------------------------------------------------------------------
// Stream encoding
// ---------------------------------------------------------------------------

/// Model of a buffered tool call.
pub struct ToolBufV {
    pub id: Seq<char>,
    pub name: Seq<char>,
    pub args: Seq<char>,
    pub signature: Option<Seq<char>>,
}

/// Model of [`GeminiStreamEncoder`].
pub struct GeminiEncoderV {
    /// Usage waiting for the last frame.
    pub pending: Option<Usage>,
    /// Whether the frame with the finish reason was sent.
    pub finished: bool,
    /// Buffered tool calls by block index.
    pub slots: Seq<Option<ToolBufV>>,
}

/// The slots grown with empty ones so that `index` is one.
pub open spec fn grow_slots(slots: Seq<Option<ToolBufV>>, index: u32) -> Seq<Option<ToolBufV>> {
    if slots.len() > index {
        slots
    } else {
        slots + Seq::new((index + 1 - slots.len()) as nat, |i: int| None::<ToolBufV>)
    }
}

/// A complete Gemini chunk holding `parts`.
pub open spec fn gem_chunk(parts: Seq<JsonV>) -> JsonV {
    JsonV::Object(seq![("candidates"@, JsonV::Array(seq![JsonV::Object(seq![
        ("content"@, JsonV::Object(seq![("parts"@, JsonV::Array(parts)), ("role"@, JsonV::Str("model"@))])),
        ("index"@, JsonV::Number(NumberV::PosInt(0))),
    ])]))])
}

/// A data frame holding one part.
pub open spec fn part_frame(part: JsonV) -> FrameV {
    data_frame(gem_chunk(seq![part]))
}

/// Pending usage merged field by field (maximum) with `u`.
pub open spec fn merged_usage(pending: Option<Usage>, u: Usage) -> Option<Usage> {
    Some(usage_max(match pending {
        Some(p) => p,
        None => Usage::zero_spec(),
    }, u))
}

/// The arguments of a buffered call: the parsed JSON, else (blank or truncated text) `{}`.
pub open spec fn flushed_args(args: Seq<char>) -> JsonV {
    if trimmed(args).len() == 0 {
        JsonV::Object(Seq::empty())
    } else {
        match json_parse(args) {
            Some(v) => v,
            None => JsonV::Object(Seq::empty()),
        }
    }
}

/// The `functionCall` part of a buffered call; a made-up id is not sent.
pub open spec fn call_part(b: ToolBufV) -> JsonV {
    let c0: Seq<(Seq<char>, JsonV)> = if b.id.len() > 0 && !spec_is_synthetic_call_id(b.id, b.name) {
        seq![("id"@, JsonV::Str(b.id))]
    } else {
        Seq::empty()
    };
    let call = c0.push(("name"@, JsonV::Str(b.name))).push(("args"@, flushed_args(b.args)));
    let p0 = seq![("functionCall"@, JsonV::Object(call))];
    JsonV::Object(match b.signature {
        Some(s) => p0.push(("thoughtSignature"@, JsonV::Str(s))),
        None => p0,
    })
}

/// Flushes the call buffered at `index`, if any, as one frame.
pub open spec fn gem_flush(st: GeminiEncoderV, index: u32) -> (GeminiEncoderV, Seq<FrameV>) {
    let slots = grow_slots(st.slots, index);
    match slots[index as int] {
        Some(b) => (GeminiEncoderV { slots: slots.update(index as int, None), ..st }, seq![part_frame(call_part(b))]),
        None => (GeminiEncoderV { slots, ..st }, Seq::empty()),
    }
}

/// The closing chunk: the finish reason, and the pending usage when there is some.
pub open spec fn stop_chunk(reason: StopReason, pending: Option<Usage>) -> JsonV {
    let cand = JsonV::Object(seq![
        ("content"@, JsonV::Object(seq![("parts"@, JsonV::Array(Seq::empty())), ("role"@, JsonV::Str("model"@))])),
        ("finishReason"@, JsonV::Str(spec_stop_reason_to_gemini(reason))),
        ("index"@, JsonV::Number(NumberV::PosInt(0))),
    ]);
    let c0 = seq![("candidates"@, JsonV::Array(seq![cand]))];
    JsonV::Object(match pending {
        Some(u) => c0.push(("usageMetadata"@, spec_encode_usage(u))),
        None => c0,
    })
}

/// A chunk carrying only usage.
pub open spec fn usage_chunk(u: Usage) -> JsonV {
    JsonV::Object(seq![
        ("candidates"@, JsonV::Array(seq![JsonV::Object(seq![
            ("content"@, JsonV::Object(seq![("parts"@, JsonV::Array(Seq::empty())), ("role"@, JsonV::Str("model"@))])),
            ("index"@, JsonV::Number(NumberV::PosInt(0))),
        ])])),
        ("usageMetadata"@, spec_encode_usage(u)),
    ])
}

/// An error as Gemini reports it.
pub open spec fn error_chunk(message: Seq<char>, kind: Seq<char>) -> JsonV {
    JsonV::Object(seq![("error"@, JsonV::Object(seq![
        ("code"@, JsonV::Number(NumberV::PosInt(500))),
        ("message"@, JsonV::Str(message)),
        ("status"@, JsonV::Str(kind)),
    ]))])
}

/// The frames for one event and the encoder after it. Gemini streams have no ceremony:
/// text and reasoning go out as parts, tool calls are buffered until their block stops,
/// usage waits for the closing frame.
pub open spec fn spec_gemini_encode(st: GeminiEncoderV, e: EventV) -> (GeminiEncoderV, Seq<FrameV>) {
    match e {
        EventV::TextDelta { text, .. } => (st, seq![part_frame(JsonV::Object(seq![("text"@, JsonV::Str(text))]))]),
        EventV::ThinkingDelta { text, .. } => (st, seq![part_frame(JsonV::Object(seq![("text"@, JsonV::Str(text)), ("thought"@, JsonV::Bool(true))]))]),
        EventV::ThinkingSignature { signature, .. } => (st, seq![part_frame(JsonV::Object(seq![
            ("text"@, JsonV::Str(Seq::empty())),
            ("thought"@, JsonV::Bool(true)),
            ("thoughtSignature"@, JsonV::Str(signature)),
        ]))]),
        EventV::RefusalDelta { text, .. } => (st, seq![part_frame(JsonV::Object(seq![("text"@, JsonV::Str(text))]))]),
        EventV::ToolCallStart { index, id, name, signature } => (GeminiEncoderV {
            slots: grow_slots(st.slots, index).update(index as int, Some(ToolBufV { id, name, args: Seq::empty(), signature })),
            ..st
        }, Seq::empty()),
        EventV::ToolCallArgsDelta { index, fragment } => {
            let slots = grow_slots(st.slots, index);
            let b = match slots[index as int] {
                Some(b) => b,
                None => ToolBufV { id: Seq::empty(), name: Seq::empty(), args: Seq::empty(), signature: None },
            };
            (GeminiEncoderV { slots: slots.update(index as int, Some(ToolBufV { args: b.args + fragment, ..b })), ..st }, Seq::empty())
        },
        EventV::ContentStop { index } => gem_flush(st, index),
        EventV::Usage(u) => (GeminiEncoderV { pending: merged_usage(st.pending, u), ..st }, Seq::empty()),
        EventV::Stop { reason, .. } => (GeminiEncoderV { pending: None, finished: true, ..st }, seq![data_frame(stop_chunk(reason, st.pending))]),
        EventV::Error { message, kind } => (st, seq![data_frame(error_chunk(message, kind))]),
        EventV::Start { usage, .. } => match usage {
            Some(u) => (GeminiEncoderV { pending: merged_usage(st.pending, u), ..st }, Seq::empty()),
            None => (st, Seq::empty()),
        },
        _ => (st, Seq::empty()),
    }
}

/// Flushes the buffered calls at indexes `i..n`, in order.
pub open spec fn flush_range(st: GeminiEncoderV, i: u32, n: u32) -> (GeminiEncoderV, Seq<FrameV>)
    decreases n - i,
{
    if i >= n {
        (st, Seq::empty())
    } else {
        let (s1, f1) = gem_flush(st, i);
        let (s2, f2) = flush_range(s1, (i + 1) as u32, n);
        (s2, f1 + f2)
    }
}

/// The frames that end the stream: the calls still buffered, then the closing frame when no
/// stop was sent, else a usage frame when usage arrived after the stop.
pub open spec fn spec_gemini_encode_finish(st: GeminiEncoderV) -> (GeminiEncoderV, Seq<FrameV>) {
    let (s1, f1) = flush_range(st, 0, st.slots.len() as u32);
    if !s1.finished {
        (GeminiEncoderV { pending: None, finished: true, ..s1 }, f1.push(data_frame(stop_chunk(StopReason::Stop, s1.pending))))
    } else {
        match s1.pending {
            Some(u) => (GeminiEncoderV { pending: None, ..s1 }, f1.push(data_frame(usage_chunk(u)))),
            None => (s1, f1),
        }
    }
}

struct ToolCallBuf {
    id: String,
    name: String,
    args: String,
    signature: Option<String>,
}

impl View for ToolCallBuf {
    type V = ToolBufV;

    closed spec fn view(&self) -> ToolBufV {
        ToolBufV { id: self.id@, name: self.name@, args: self.args@, signature: ov(self.signature) }
    }
}

spec fn buf_opt(o: Option<ToolCallBuf>) -> Option<ToolBufV> {
    match o {
        Some(b) => Some(b@),
        None => None,
    }
}

/// Gemini stream encoder.
pub struct GeminiStreamEncoder {
    pending_usage: Option<Usage>,
    finished: bool,
    tool_calls: Vec<Option<ToolCallBuf>>,
}

impl View for GeminiStreamEncoder {
    type V = GeminiEncoderV;

    closed spec fn view(&self) -> GeminiEncoderV {
        GeminiEncoderV {
            pending: self.pending_usage,
            finished: self.finished,
            slots: self.tool_calls@.map_values(|o: Option<ToolCallBuf>| buf_opt(o)),
        }
    }
}

fn gem_chunk_exec(parts: Vec<Json>) -> (res: Json)
    ensures
        res@ == gem_chunk(items_view(parts@)),
{
    let content = pair_object("parts", Json::Array(parts), "role", str_json("model"));
    let cand = pair_object("content", content, "index", Json::uint(0));
    let mut cs: Vec<Json> = Vec::new();
    crate::codec::chat::push_json(&mut cs, cand);
    proof {
        lemma_items_view(Seq::<Json>::empty());
    }
    assert(items_view(cs@) =~= seq![cand@]);
    single_object("candidates", Json::Array(cs))
}

fn part_frame_exec(part: Json) -> (res: SseFrame)
    ensures
        res@ == part_frame(part@),
{
    let mut ps: Vec<Json> = Vec::new();
    crate::codec::chat::push_json(&mut ps, part);
    assert(items_view(ps@) =~= seq![part@]);
    let c = gem_chunk_exec(ps);
    crate::codec::chat::data_frame_exec(&c)
}

fn stop_frame_exec(reason: StopReason, pending: Option<Usage>) -> (res: SseFrame)
    ensures
        res@ == data_frame(stop_chunk(reason, pending)),
{
    let empty: Vec<Json> = Vec::new();
    proof {
        lemma_items_view(empty@);
    }
    let content = pair_object("parts", Json::Array(empty), "role", str_json("model"));
    let mut c: Vec<(String, Json)> = Vec::new();
    push_member(&mut c, "content", content);
    push_member(&mut c, "finishReason", str_json(stop_reason_to_gemini(reason)));
    push_member(&mut c, "index", Json::uint(0));
    assert(members_view(c@) =~= seq![
        ("content"@, JsonV::Object(seq![("parts"@, JsonV::Array(Seq::empty())), ("role"@, JsonV::Str("model"@))])),
        ("finishReason"@, JsonV::Str(spec_stop_reason_to_gemini(reason))),
        ("index"@, JsonV::Number(NumberV::PosInt(0))),
    ]);
    let cand = Json::object(c);
    let mut cs: Vec<Json> = Vec::new();
    proof {
        lemma_items_view(cs@);
    }
    crate::codec::chat::push_json(&mut cs, cand);
    assert(items_view(cs@) =~= seq![cand@]);
    let mut top: Vec<(String, Json)> = Vec::new();
    push_member(&mut top, "candidates", Json::Array(cs));
    if let Some(u) = pending {
        push_member(&mut top, "usageMetadata", encode_usage(&u));
    }
    assert(members_view(top@) =~= stop_chunk(reason, pending)->Object_0);
    crate::codec::chat::data_frame_exec(&Json::object(top))
}

fn usage_frame_exec(u: &Usage) -> (res: SseFrame)
    ensures
        res@ == data_frame(usage_chunk(*u)),
{
    let empty: Vec<Json> = Vec::new();
    proof {
        lemma_items_view(empty@);
    }
    let content = pair_object("parts", Json::Array(empty), "role", str_json("model"));
    let cand = pair_object("content", content, "index", Json::uint(0));
    let mut cs: Vec<Json> = Vec::new();
    crate::codec::chat::push_json(&mut cs, cand);
    assert(items_view(cs@) =~= seq![cand@]);
    let top = pair_object("candidates", Json::Array(cs), "usageMetadata", encode_usage(u));
    crate::codec::chat::data_frame_exec(&top)
}

fn call_part_exec(b: &ToolCallBuf) -> (res: Json)
    ensures
        res@ == call_part(b@),
{
    let args = if trim(b.args.as_str()).unicode_len() == 0 {
        Json::empty_object()
    } else {
        match Json::parse(b.args.as_str()) {
            Some(v) => v,
            None => Json::empty_object(),
        }
    };
    let mut call: Vec<(String, Json)> = Vec::new();
    if b.id.as_str().unicode_len() > 0 && !is_synthetic_call_id(b.id.as_str(), b.name.as_str()) {
        push_member(&mut call, "id", str_json(b.id.as_str()));
    }
    push_member(&mut call, "name", str_json(b.name.as_str()));
    push_member(&mut call, "args", args);
    let ghost cv = call_part(b@)->Object_0[0].1->Object_0;
    assert(members_view(call@) =~= cv);
    let mut part: Vec<(String, Json)> = Vec::new();
    push_member(&mut part, "functionCall", Json::object(call));
    if let Some(s) = &b.signature {
        push_member(&mut part, "thoughtSignature", str_json(s.as_str()));
    }
    assert(members_view(part@) =~= call_part(b@)->Object_0);
    Json::object(part)
}

impl GeminiStreamEncoder {
    /// An encoder at the start of a stream.
    pub fn new() -> (res: GeminiStreamEncoder)
        ensures
            res@ == (GeminiEncoderV { pending: None, finished: false, slots: Seq::empty() }),
    {
        let e = GeminiStreamEncoder { pending_usage: None, finished: false, tool_calls: Vec::new() };
        assert(e@.slots =~= Seq::<Option<ToolBufV>>::empty());
        e
    }

    fn grow(&mut self, index: u32)
        ensures
            final(self)@ == (GeminiEncoderV { slots: grow_slots(old(self)@.slots, index), ..old(self)@ }),
            final(self).tool_calls.len() > index,
    {
        let ghost s0 = self@.slots;
        while self.tool_calls.len() <= index as usize
            invariant
                self.pending_usage == old(self).pending_usage,
                self.finished == old(self).finished,
                s0 == old(self)@.slots,
                self.tool_calls.len() >= s0.len(),
                self@.slots.subrange(0, s0.len() as int) == s0,
                forall|k: int| s0.len() <= k < self.tool_calls.len() ==> #[trigger] self@.slots[k] is None,
                s0.len() <= index + 1 ==> self.tool_calls.len() <= index + 1,
                s0.len() > index ==> self.tool_calls@ == old(self).tool_calls@,
            decreases index as usize + 1 - self.tool_calls.len(),
        {
            let ghost before = self.tool_calls@;
            let ghost sb = self@.slots;
            self.tool_calls.push(None);
            assert(self.tool_calls@ == before.push(None));
            assert(self@.slots[self.tool_calls.len() - 1] is None);
            assert forall|k: int| s0.len() <= k < self.tool_calls.len() implies #[trigger] self@.slots[k] is None by {
                if k < self.tool_calls.len() - 1 {
                    assert(self.tool_calls@[k] == before[k]);
                    assert(self@.slots[k] == sb[k]);
                }
            }
            assert(self@.slots.subrange(0, s0.len() as int) =~= s0);
        }
        proof {
            if s0.len() > index {
                assert(self@.slots =~= s0);
            } else {
                assert(self@.slots =~= s0 + Seq::new((index + 1 - s0.len()) as nat, |i: int| None::<ToolBufV>));
            }
        }
    }

    fn flush(&mut self, index: u32) -> (res: Option<SseFrame>)
        ensures
            final(self)@ == gem_flush(old(self)@, index).0,
            gem_flush(old(self)@, index).1 == match res {
                Some(f) => seq![f@],
                None => Seq::<FrameV>::empty(),
            },
    {
        self.grow(index);
        let ghost g = self@;
        let taken = self.tool_calls.remove(index as usize);
        self.tool_calls.insert(index as usize, None);
        assert(self@.slots =~= g.slots.update(index as int, None));
        assert(buf_opt(taken) == g.slots[index as int]);
        let res = match &taken {
            Some(b) => Some(part_frame_exec(call_part_exec(b))),
            None => None,
        };
        proof {
            if taken is None {
                assert(self@.slots =~= g.slots);
            }
            assert(g == GeminiEncoderV { slots: grow_slots(old(self)@.slots, index), ..old(self)@ });
        }
        res
    }

    /// The frames for one event.
    pub fn encode(&mut self, event: &StreamEvent) -> (res: Vec<SseFrame>)
        ensures
            (final(self)@, frs(res@)) == spec_gemini_encode(old(self)@, event@),
    {
        let mut out: Vec<SseFrame> = Vec::new();
        assert(frs(out@) =~= Seq::<FrameV>::empty());
        match event {
            StreamEvent::TextDelta { text, .. } => {
                push_frame(&mut out, part_frame_exec(single_object("text", str_json(text.as_str()))));
            },
            StreamEvent::ThinkingDelta { text, .. } => {
                push_frame(&mut out, part_frame_exec(pair_object("text", str_json(text.as_str()), "thought", Json::boolean(true))));
            },
            StreamEvent::ThinkingSignature { signature, .. } => {
                let mut m: Vec<(String, Json)> = Vec::new();
                push_member(&mut m, "text", Json::Str(String::new()));
                push_member(&mut m, "thought", Json::boolean(true));
                push_member(&mut m, "thoughtSignature", str_json(signature.as_str()));
                assert(members_view(m@) =~= seq![("text"@, JsonV::Str(Seq::empty())), ("thought"@, JsonV::Bool(true)), ("thoughtSignature"@, JsonV::Str(signature@))]);
                push_frame(&mut out, part_frame_exec(Json::object(m)));
            },
            StreamEvent::RefusalDelta { text, .. } => {
                push_frame(&mut out, part_frame_exec(single_object("text", str_json(text.as_str()))));
            },
            StreamEvent::ToolCallStart { index, id, name, signature } => {
                self.grow(*index);
                let ghost g = self@;
                let mut slot = Some(ToolCallBuf { id: owned(id.as_str()), name: owned(name.as_str()), args: String::new(), signature: dup_opt(signature) });
                std::mem::swap(&mut slot, &mut self.tool_calls[*index as usize]);
                assert(self@.slots =~= g.slots.update(*index as int, Some(ToolBufV { id: id@, name: name@, args: Seq::empty(), signature: ov(*signature) })));
            },
            StreamEvent::ToolCallArgsDelta { index, fragment } => {
                self.grow(*index);
                let ghost g = self@;
                let mut slot: Option<ToolCallBuf> = None;
                std::mem::swap(&mut slot, &mut self.tool_calls[*index as usize]);
                let mut b = match slot {
                    Some(b) => b,
                    None => ToolCallBuf { id: String::new(), name: String::new(), args: String::new(), signature: None },
                };
                let ghost b0 = b@;
                b.args.append(fragment.as_str());
                let mut back = Some(b);
                std::mem::swap(&mut back, &mut self.tool_calls[*index as usize]);
                assert(self@.slots =~= g.slots.update(*index as int, Some(ToolBufV { args: b0.args + fragment@, ..b0 })));
            },
            StreamEvent::ContentStop { index } => {
                if let Some(f) = self.flush(*index) {
                    push_frame(&mut out, f);
                }
            },
            StreamEvent::Usage(u) => {
                let base = match self.pending_usage {
                    Some(p) => p,
                    None => Usage::zero(),
                };
                let mut m = base;
                m.merge_max(u);
                self.pending_usage = Some(m);
                assert(self@.slots =~= old(self)@.slots);
            },
            StreamEvent::Stop { reason, .. } => {
                self.finished = true;
                let pending = self.pending_usage;
                self.pending_usage = None;
                push_frame(&mut out, stop_frame_exec(*reason, pending));
                assert(self@.slots =~= old(self)@.slots);
            },
            StreamEvent::Error { message, kind } => {
                let inner = triple_object_g("code", Json::uint(500), "message", str_json(message.as_str()), "status", str_json(kind.as_str()));
                push_frame(&mut out, crate::codec::chat::data_frame_exec(&single_object("error", inner)));
            },
            StreamEvent::Start { usage, .. } => {
                if let Some(u) = usage {
                    let base = match self.pending_usage {
                        Some(p) => p,
                        None => Usage::zero(),
                    };
                    let mut m = base;
                    m.merge_max(u);
                    self.pending_usage = Some(m);
                    assert(self@.slots =~= old(self)@.slots);
                }
            },
            _ => {},
        }
        out
    }

    /// The frames that end the stream.
    pub fn finish(&mut self) -> (res: Vec<SseFrame>)
        ensures
            (final(self)@, frs(res@)) == spec_gemini_encode_finish(old(self)@),
    {
        let mut out: Vec<SseFrame> = Vec::new();
        assert(frs(out@) =~= Seq::<FrameV>::empty());
        let n = self.tool_calls.len() as u32;
        let ghost st0 = self@;
        assert(n == st0.slots.len() as u32);
        let mut i: u32 = 0;
        while i < n
            invariant
                i <= n,
                n == st0.slots.len() as u32,
                flush_range(st0, 0, n) == ({
                    let (s, f) = flush_range(self@, i, n);
                    (s, frs(out@) + f)
                }),
            decreases n - i,
        {
            let ghost before = self@;
            let ghost fb = frs(out@);
            if let Some(f) = self.flush(i) {
                push_frame(&mut out, f);
            }
            proof {
                let (s1, f1) = gem_flush(before, i);
                assert(s1 == self@);
                assert(frs(out@) == fb + f1);
                let (s2, f2) = flush_range(s1, (i + 1) as u32, n);
                assert(flush_range(before, i, n) == (s2, f1 + f2));
                assert(fb + (f1 + f2) =~= (fb + f1) + f2);
            }
            i = i + 1;
        }
        let ghost s1 = self@;
        if !self.finished {
            self.finished = true;
            let pending = self.pending_usage;
            self.pending_usage = None;
            push_frame(&mut out, stop_frame_exec(StopReason::Stop, pending));
            assert(self@.slots =~= s1.slots);
        } else if let Some(u) = self.pending_usage {
            self.pending_usage = None;
            push_frame(&mut out, usage_frame_exec(&u));
            assert(self@.slots =~= s1.slots);
        }
        out
    }
}

fn triple_object_g(k1: &str, v1: Json, k2: &str, v2: Json, k3: &str, v3: Json) -> (res: Json)
    ensures
        res@ == JsonV::Object(seq![(k1@, v1@), (k2@, v2@), (k3@, v3@)]),
{
    let mut m: Vec<(String, Json)> = Vec::new();
    push_member(&mut m, k1, v1);
    push_member(&mut m, k2, v2);
    push_member(&mut m, k3, v3);
    assert(members_view(m@) =~= seq![(k1@, v1@), (k2@, v2@), (k3@, v3@)]);
    Json::object(m)
}

/// A reasoning part sent to Gemini and read back keeps its text and its signature; a signature
/// survives whenever it is non-empty (Gemini treats an empty one as absent).
pub proof fn law_thinking_part_round_trip(text: Seq<char>, signature: Option<Seq<char>>, names: Seq<(Seq<char>, Seq<char>)>, tool_index: usize)
    requires
        signature matches Some(s) ==> s.len() > 0,
    ensures
        spec_encode_part(PartV::Thinking { text, signature }, names) matches Some(p)
            && spec_decode_part(p, tool_index) == Some(PartV::Thinking { text, signature }),
{
    reveal_with_fuel(member_get, 4);
    reveal_strlit("text");
    reveal_strlit("thought");
    reveal_strlit("thoughtSignature");
    reveal_strlit("thought_signature");
    let base = seq![("text"@, JsonV::Str(text)), ("thought"@, JsonV::Bool(true))];
    let m = match signature {
        Some(sig) => base.push(("thoughtSignature"@, JsonV::Str(sig))),
        None => base,
    };
    let p = JsonV::Object(m);
    assert(spec_encode_part(PartV::Thinking { text, signature }, names) == Some(p));
    let m1 = m.drop_first();
    let m2 = m1.drop_first();
    assert("text"@.len() != "thought"@.len() && "text"@.len() != "thoughtSignature"@.len() && "thought"@.len() != "thoughtSignature"@.len());
    assert(m[0] == ("text"@, JsonV::Str(text)));
    assert(p.get("text"@) == Some(JsonV::Str(text)));
    assert(m1[0] == ("thought"@, JsonV::Bool(true)));
    assert(p.get("thought"@) == member_get(m1, "thought"@));
    assert(p.get("thought"@) == Some(JsonV::Bool(true)));
    assert(p.get("thoughtSignature"@) == member_get(m1, "thoughtSignature"@));
    assert(member_get(m1, "thoughtSignature"@) == member_get(m2, "thoughtSignature"@));
    match signature {
        Some(sig) => {
            assert(m2[0] == ("thoughtSignature"@, JsonV::Str(sig)));
            assert(field_of(p, "thoughtSignature"@, "thought_signature"@) == Some(JsonV::Str(sig)));
        },
        None => {
            assert(m2.len() == 0);
            assert(p.get("thoughtSignature"@) is None);
            assert(member_get(m2, "thought_signature"@) is None);
            assert(p.get("thought_signature"@) == member_get(m2, "thought_signature"@)) by {
                assert("text"@.len() != "thought_signature"@.len());
                assert("thought"@.len() != "thought_signature"@.len());
            }
            assert(field_of(p, "thoughtSignature"@, "thought_signature"@) is None);
        },
    }
}

/// A top-level request field that Gemini does not read survives decoding: the request's
/// extensions hold it as `gemini.<field>`, with the last value the body gave it.
pub proof fn law_unknown_request_field_kept(raw: JsonV, k: Seq<char>)
    requires
        raw matches JsonV::Object(m) && member_last(m, k) is Some,
        !known_gemini_field(k),
    ensures
        spec_gemini_decode_request(raw) matches Ok(r)
            ==> member_get(r.extensions, "gemini."@ + k) == member_last(raw->Object_0, k),
{
    let m = raw->Object_0;
    let known = |f: Seq<char>| known_gemini_field(f);
    assert forall|e: Seq<(Seq<char>, JsonV)>| #[trigger] member_get(collect_unknown(m, known, "gemini."@, e), "gemini."@ + k) == member_last(m, k) by {
        law_unknown_field_kept(m, known, "gemini."@, e, k);
    }
}

proof fn lemma_flush_range_keeps(st: GeminiEncoderV, i: u32, n: u32)
    ensures
        flush_range(st, i, n).0.finished == st.finished,
        flush_range(st, i, n).0.pending == st.pending,
    decreases n - i,
{
    if i < n {
        lemma_flush_range_keeps(gem_flush(st, i).0, (i + 1) as u32, n);
    }
}

/// A Gemini stream carries its finish reason once: a `Stop` event sends it, and `finish` on a
/// stream that has not sent one ends with a `STOP` frame (with the pending usage); either way
/// the stream is then finished.
pub proof fn law_finish_reason_sent_once(st: GeminiEncoderV, reason: StopReason, stop_sequence: Option<Seq<char>>)
    ensures
        spec_gemini_encode(st, EventV::Stop { reason, stop_sequence }).0.finished,
        spec_gemini_encode_finish(st).0.finished,
        !st.finished ==> spec_gemini_encode_finish(st).1.len() > 0
            && spec_gemini_encode_finish(st).1.last() == data_frame(stop_chunk(StopReason::Stop, st.pending)),
{
    lemma_flush_range_keeps(st, 0, st.slots.len() as u32);
}

/// The safety settings and the cached content that a request carries in its extensions are
/// written back as Gemini's own top-level fields (and only from there).
pub proof fn law_safety_and_cache_restored(r: RequestV)
    ensures
        spec_gemini_encode_request(r).get("safetySettings"@) == member_get(r.extensions, "gemini.safetySettings"@),
        spec_gemini_encode_request(r).get("cachedContent"@) == member_get(r.extensions, "gemini.cachedContent"@),
{
    reveal_strlit("contents");
    reveal_strlit("systemInstruction");
    reveal_strlit("tools");
    reveal_strlit("toolConfig");
    reveal_strlit("generationConfig");
    reveal_strlit("safetySettings");
    reveal_strlit("cachedContent");
    let names = msg_tool_pairs(r.messages);
    let groups = content_groups(r.messages, names);
    let sys = encode_parts_spec(r.system, names) + system_msg_parts(r.messages, names);
    let tools = tools_json(r);
    let gen = gen_members(r);
    let o1 = ext_insert(Seq::empty(), "contents"@, JsonV::Array(groups.map_values(|g: (Seq<char>, Seq<JsonV>)| group_json(g))));
    let o2 = ext_opt(o1, "systemInstruction"@, if sys.len() > 0 { Some(JsonV::Object(seq![("parts"@, JsonV::Array(sys))])) } else { None });
    let o3 = ext_opt(o2, "tools"@, if tools.len() > 0 { Some(JsonV::Array(tools)) } else { None });
    let o4 = ext_opt(o3, "toolConfig"@, match calling_config_json(r) {
        Some(fc) => Some(JsonV::Object(seq![("functionCallingConfig"@, fc)])),
        None => None,
    });
    let o5 = ext_opt(o4, "generationConfig"@, if gen.len() > 0 { Some(JsonV::Object(gen)) } else { None });
    let o6 = ext_opt(o5, "safetySettings"@, member_get(r.extensions, "gemini.safetySettings"@));
    let o7 = ext_opt(o6, "cachedContent"@, member_get(r.extensions, "gemini.cachedContent"@));
    assert(gemini_body(r) == o7);
    let ss = "safetySettings"@;
    let cc = "cachedContent"@;
    assert(ss.len() != "contents"@.len() && ss.len() != "systemInstruction"@.len() && ss.len() != "tools"@.len());
    assert(ss.len() != "toolConfig"@.len() && ss.len() != "generationConfig"@.len() && ss.len() != cc.len());
    assert(cc.len() != "contents"@.len() && cc.len() != "systemInstruction"@.len() && cc.len() != "tools"@.len());
    assert(cc.len() != "toolConfig"@.len() && cc.len() != "generationConfig"@.len());
    lemma_ext_insert(Seq::empty(), "contents"@, JsonV::Array(groups.map_values(|g: (Seq<char>, Seq<JsonV>)| group_json(g))));
    assert(member_get(Seq::<(Seq<char>, JsonV)>::empty(), ss) is None);
    assert(member_get(Seq::<(Seq<char>, JsonV)>::empty(), cc) is None);
    lemma_ext_opt_other(o1, "systemInstruction"@, ss);
    lemma_ext_opt_other(o1, "systemInstruction"@, cc);
    lemma_ext_opt_other(o2, "tools"@, ss);
    lemma_ext_opt_other(o2, "tools"@, cc);
    lemma_ext_opt_other(o3, "toolConfig"@, ss);
    lemma_ext_opt_other(o3, "toolConfig"@, cc);
    lemma_ext_opt_other(o4, "generationConfig"@, ss);
    lemma_ext_opt_other(o4, "generationConfig"@, cc);
    assert(member_get(o5, ss) is None);
    assert(member_get(o5, cc) is None);
    lemma_ext_opt_other(o5, "safetySettings"@, cc);
    lemma_ext_opt_other(o6, "cachedContent"@, ss);
    match member_get(r.extensions, "gemini.safetySettings"@) {
        Some(v) => lemma_ext_insert(o5, ss, v),
        None => {},
    }
    match member_get(r.extensions, "gemini.cachedContent"@) {
        Some(v) => lemma_ext_insert(o6, cc, v),
        None => {},
    }
    lemma_gemini_restore_get(r.extensions, o7, ss);
    lemma_gemini_restore_get(r.extensions, o7, cc);
    assert("gemini."@ + ss =~= "gemini.safetySettings"@) by {
        reveal_strlit("gemini.");
        reveal_strlit("gemini.safetySettings");
    }
    assert("gemini."@ + cc =~= "gemini.cachedContent"@) by {
        reveal_strlit("gemini.");
        reveal_strlit("gemini.cachedContent");
    }
    assert(!gemini_consumed(ss) && !gemini_consumed(cc)) by {
        reveal_strlit("model");
        reveal_strlit("builtinTools");
        reveal_strlit("allowedFunctionNames");
        reveal_strlit("responseMimeType");
        reveal_strlit("dynamicThinking");
        assert(ss.len() != "model"@.len() && ss.len() != "builtinTools"@.len() && ss.len() != "allowedFunctionNames"@.len());
        assert(ss.len() != "responseMimeType"@.len() && ss.len() != "dynamicThinking"@.len() && ss.len() != "generationConfig"@.len());
        assert(cc.len() != "model"@.len() && cc.len() != "builtinTools"@.len() && cc.len() != "allowedFunctionNames"@.len());
        assert(cc.len() != "responseMimeType"@.len() && cc.len() != "dynamicThinking"@.len() && cc.len() != "generationConfig"@.len());
    }
}

/// The encoded body's members other than `contents`, `systemInstruction`, `tools`,
/// `toolConfig`, `generationConfig`, `safetySettings` and `cachedContent` come from extensions
/// alone.
proof fn lemma_gemini_body_lacks(r: RequestV, k: Seq<char>)
    requires
        k != "contents"@, k != "systemInstruction"@, k != "tools"@, k != "toolConfig"@,
        k != "generationConfig"@, k != "safetySettings"@, k != "cachedContent"@,
    ensures
        member_get(gemini_body(r), k) is None,
{
    let names = msg_tool_pairs(r.messages);
    let groups = content_groups(r.messages, names);
    let sys = encode_parts_spec(r.system, names) + system_msg_parts(r.messages, names);
    let tools = tools_json(r);
    let gen = gen_members(r);
    let o1 = ext_insert(Seq::empty(), "contents"@, JsonV::Array(groups.map_values(|g: (Seq<char>, Seq<JsonV>)| group_json(g))));
    let o2 = ext_opt(o1, "systemInstruction"@, if sys.len() > 0 { Some(JsonV::Object(seq![("parts"@, JsonV::Array(sys))])) } else { None });
    let o3 = ext_opt(o2, "tools"@, if tools.len() > 0 { Some(JsonV::Array(tools)) } else { None });
    let o4 = ext_opt(o3, "toolConfig"@, match calling_config_json(r) {
        Some(fc) => Some(JsonV::Object(seq![("functionCallingConfig"@, fc)])),
        None => None,
    });
    let o5 = ext_opt(o4, "generationConfig"@, if gen.len() > 0 { Some(JsonV::Object(gen)) } else { None });
    let o6 = ext_opt(o5, "safetySettings"@, member_get(r.extensions, "gemini.safetySettings"@));
    let o7 = ext_opt(o6, "cachedContent"@, member_get(r.extensions, "gemini.cachedContent"@));
    assert(gemini_body(r) == o7);
    lemma_ext_insert(Seq::empty(), "contents"@, JsonV::Array(groups.map_values(|g: (Seq<char>, Seq<JsonV>)| group_json(g))));
    assert(member_get(Seq::<(Seq<char>, JsonV)>::empty(), k) is None);
    assert(member_get(o1, k) is None);
    lemma_ext_opt_other(o1, "systemInstruction"@, k);
    lemma_ext_opt_other(o2, "tools"@, k);
    lemma_ext_opt_other(o3, "toolConfig"@, k);
    lemma_ext_opt_other(o4, "generationConfig"@, k);
    lemma_ext_opt_other(o5, "safetySettings"@, k);
    lemma_ext_opt_other(o6, "cachedContent"@, k);
    assert(member_get(o2, k) is None);
    assert(member_get(o4, k) is None);
    assert(member_get(o7, k) is None);
}

/// The model belongs in the URL: an encoded Gemini body never holds `model`, whatever the
/// request's model and extensions.
pub proof fn law_model_never_in_body(r: RequestV)
    ensures
        spec_gemini_encode_request(r).get("model"@) is None,
{
    reveal_strlit("model");
    reveal_strlit("contents");
    reveal_strlit("systemInstruction");
    reveal_strlit("tools");
    reveal_strlit("toolConfig");
    reveal_strlit("generationConfig");
    reveal_strlit("safetySettings");
    reveal_strlit("cachedContent");
    let k = "model"@;
    assert(k.len() != "contents"@.len() && k.len() != "systemInstruction"@.len() && k[0] != "tools"@[0]);
    assert(k.len() != "toolConfig"@.len() && k.len() != "generationConfig"@.len() && k.len() != "safetySettings"@.len());
    assert(k.len() != "cachedContent"@.len());
    lemma_gemini_body_lacks(r, k);
    lemma_gemini_restore_get(r.extensions, gemini_body(r), k);
}

/// A top-level field that Gemini does not read comes back when the decoded request is encoded
/// for Gemini again, with the value the body gave it last.
pub proof fn law_unknown_request_field_round_trip(raw: JsonV, k: Seq<char>)
    requires
        raw matches JsonV::Object(m) && member_last(m, k) is Some,
        !known_gemini_field(k),
        !gemini_consumed(k),
        k.len() > 0,
    ensures
        spec_gemini_decode_request(raw) matches Ok(r)
            ==> spec_gemini_encode_request(r).get(k) == member_last(raw->Object_0, k),
{
    law_unknown_request_field_kept(raw, k);
    if spec_gemini_decode_request(raw) is Ok {
        let r = spec_gemini_decode_request(raw)->Ok_0;
        lemma_gemini_body_lacks(r, k);
        lemma_gemini_restore_get(r.extensions, gemini_body(r), k);
    }
}


// ---------------------------------------------------------------------------
// Sampling parameters in the encoded request.

/// Field `k` of the body's `generationConfig`, if there is one.
pub open spec fn generation_field(body: JsonV, k: Seq<char>) -> Option<JsonV> {
    match body.get("generationConfig"@) {
        Some(g) => g.get(k),
        None => None,
    }
}

proof fn lemma_gen_key_names()
    ensures
        "temperature"@ != "topP"@, "temperature"@ != "topK"@, "temperature"@ != "seed"@,
        "temperature"@ != "candidateCount"@, "temperature"@ != "stopSequences"@, "temperature"@ != "maxOutputTokens"@,
        "topP"@ != "topK"@, "topP"@ != "seed"@, "topP"@ != "candidateCount"@, "topP"@ != "stopSequences"@,
        "topP"@ != "maxOutputTokens"@,
        "topK"@ != "seed"@, "topK"@ != "candidateCount"@, "topK"@ != "stopSequences"@, "topK"@ != "maxOutputTokens"@,
        "temperature"@ != "responseMimeType"@,
        "temperature"@ != "responseSchema"@,
        "temperature"@ != "thinkingConfig"@,
        "topP"@ != "responseMimeType"@,
        "topP"@ != "responseSchema"@,
        "topP"@ != "thinkingConfig"@,
        "topK"@ != "responseMimeType"@,
        "topK"@ != "responseSchema"@,
        "topK"@ != "thinkingConfig"@,
        "maxOutputTokens"@ != "responseMimeType"@,
        "maxOutputTokens"@ != "responseSchema"@,
        "maxOutputTokens"@ != "thinkingConfig"@,
        "generationConfig"@ != "safetySettings"@, "generationConfig"@ != "cachedContent"@,
        "generationConfig"@ != "contents"@, "generationConfig"@ != "systemInstruction"@,
        "generationConfig"@ != "tools"@, "generationConfig"@ != "toolConfig"@,
        gemini_consumed("generationConfig"@),
{
    reveal_strlit("temperature");
    reveal_strlit("topP");
    reveal_strlit("topK");
    reveal_strlit("seed");
    reveal_strlit("candidateCount");
    reveal_strlit("stopSequences");
    reveal_strlit("maxOutputTokens");
    reveal_strlit("responseMimeType");
    reveal_strlit("responseSchema");
    reveal_strlit("thinkingConfig");
    reveal_strlit("generationConfig");
    reveal_strlit("safetySettings");
    reveal_strlit("cachedContent");
    reveal_strlit("contents");
    reveal_strlit("systemInstruction");
    reveal_strlit("tools");
    reveal_strlit("toolConfig");
    assert("temperature"@.len() == 11);
    assert("topP"@.len() == 4);
    assert("topK"@.len() == 4);
    assert("seed"@.len() == 4);
    assert("candidateCount"@.len() == 14);
    assert("stopSequences"@.len() == 13);
    assert("maxOutputTokens"@.len() == 15);
    assert("responseMimeType"@.len() == 16);
    assert("responseSchema"@.len() == 14);
    assert("thinkingConfig"@.len() == 14);
    assert("generationConfig"@.len() == 16);
    assert("safetySettings"@.len() == 14);
    assert("cachedContent"@.len() == 13);
    assert("contents"@.len() == 8);
    assert("systemInstruction"@.len() == 17);
    assert("tools"@.len() == 5);
    assert("toolConfig"@.len() == 10);
    assert("topP"@[3] != "topK"@[3]);
    assert("topP"@[0] != "seed"@[0]);
    assert("topK"@[0] != "seed"@[0]);
    assert("maxOutputTokens"@[0] != "responseMimeType"@[0]);
    assert("generationConfig"@[0] != "responseMimeType"@[0]);
}

/// After the sampling parameters, only the MIME type, the schema and the thinking
/// configuration are stored, so every other name keeps its value.
proof fn lemma_gen_after_sampling(r: RequestV, k: Seq<char>)
    requires
        k != "responseMimeType"@,
        k != "responseSchema"@,
        k != "thinkingConfig"@,
    ensures
        member_get(gen_members(r), k) == member_get(gen_sampling_members(gen_base(r), r), k),
{
    let g7 = gen_sampling_members(gen_base(r), r);
    lemma_ext_opt_other(g7, "responseMimeType"@, k);
    lemma_ext_insert(g7, "responseMimeType"@, JsonV::Str("application/json"@));
    lemma_ext_insert(g7, "responseMimeType"@, JsonV::Str("text/plain"@));
    match r.response_format {
        Some(FormatV::JsonSchema { schema, .. }) => {
            lemma_ext_insert(ext_insert(g7, "responseMimeType"@, JsonV::Str("application/json"@)), "responseSchema"@, schema);
        },
        _ => {},
    }
    let g8 = gen_format_members(g7, r);
    match r.reasoning {
        Some(rs) => {
            let tc = thinking_members(r, rs);
            lemma_ext_insert(g8, "thinkingConfig"@, JsonV::Object(tc));
        },
        None => {},
    }
}

/// The body's `generationConfig` is exactly the generation members, present when there are any.
proof fn lemma_body_generation(r: RequestV)
    ensures
        spec_gemini_encode_request(r).get("generationConfig"@)
            == (if gen_members(r).len() > 0 { Some(JsonV::Object(gen_members(r))) } else { None }),
{
    lemma_gen_key_names();
    let names = msg_tool_pairs(r.messages);
    let groups = content_groups(r.messages, names);
    let sys = encode_parts_spec(r.system, names) + system_msg_parts(r.messages, names);
    let tools = tools_json(r);
    let gen = gen_members(r);
    let gc = "generationConfig"@;
    let o1 = ext_insert(Seq::empty(), "contents"@, JsonV::Array(groups.map_values(|g: (Seq<char>, Seq<JsonV>)| group_json(g))));
    lemma_ext_insert(Seq::empty(), "contents"@, JsonV::Array(groups.map_values(|g: (Seq<char>, Seq<JsonV>)| group_json(g))));
    assert(member_get(Seq::<(Seq<char>, JsonV)>::empty(), gc) is None);
    let o2 = ext_opt(o1, "systemInstruction"@, if sys.len() > 0 { Some(JsonV::Object(seq![("parts"@, JsonV::Array(sys))])) } else { None });
    lemma_ext_opt_other(o1, "systemInstruction"@, gc);
    let o3 = ext_opt(o2, "tools"@, if tools.len() > 0 { Some(JsonV::Array(tools)) } else { None });
    lemma_ext_opt_other(o2, "tools"@, gc);
    let o4 = ext_opt(o3, "toolConfig"@, match calling_config_json(r) {
        Some(fc) => Some(JsonV::Object(seq![("functionCallingConfig"@, fc)])),
        None => None,
    });
    lemma_ext_opt_other(o3, "toolConfig"@, gc);
    let o5 = ext_opt(o4, gc, if gen.len() > 0 { Some(JsonV::Object(gen)) } else { None });
    if gen.len() > 0 {
        lemma_ext_insert(o4, gc, JsonV::Object(gen));
    }
    let o6 = ext_opt(o5, "safetySettings"@, member_get(r.extensions, "gemini.safetySettings"@));
    lemma_ext_opt_other(o5, "safetySettings"@, gc);
    lemma_ext_opt_other(o6, "cachedContent"@, gc);
    assert(gemini_body(r) == ext_opt(o6, "cachedContent"@, member_get(r.extensions, "gemini.cachedContent"@)));
    lemma_gemini_restore_get(r.extensions, gemini_body(r), gc);
}

/// The encoded request's `generationConfig` carries the request's sampling parameters under
/// their Gemini names: `temperature`, `topP`, `topK` and `maxOutputTokens` hold exactly the
/// request's temperature, top-p, top-k and output limit whenever it sets them; a request without
/// top-p (and without kept generation fields) has no `topP`.
pub proof fn law_gemini_sampling_encoded(r: RequestV)
    ensures
        r.sampling.temperature matches Some(t) ==> generation_field(spec_gemini_encode_request(r), "temperature"@) == Some(JsonV::Number(t)),
        r.sampling.top_p matches Some(t) ==> generation_field(spec_gemini_encode_request(r), "topP"@) == Some(JsonV::Number(t)),
        r.sampling.top_k matches Some(k) ==> generation_field(spec_gemini_encode_request(r), "topK"@) == Some(JsonV::Number(NumberV::PosInt(k as u64))),
        r.max_output_tokens matches Some(m) ==> generation_field(spec_gemini_encode_request(r), "maxOutputTokens"@) == Some(JsonV::Number(NumberV::PosInt(m as u64))),
        r.sampling.top_p is None && member_get(r.extensions, "gemini.generationConfig"@) is None
            ==> generation_field(spec_gemini_encode_request(r), "topP"@) is None,
{
    lemma_gen_key_names();
    lemma_body_generation(r);
    let s = r.sampling;
    let g0 = gen_base(r);
    let g1 = ext_opt(g0, "temperature"@, match s.temperature { Some(t) => Some(JsonV::Number(t)), None => None });
    let g2 = ext_opt(g1, "topP"@, match s.top_p { Some(t) => Some(JsonV::Number(t)), None => None });
    let g3 = ext_opt(g2, "topK"@, match s.top_k { Some(k) => Some(JsonV::Number(NumberV::PosInt(k as u64))), None => None });
    let g4 = ext_opt(g3, "seed"@, match s.seed { Some(x) => Some(int_json(x)), None => None });
    let g5 = ext_opt(g4, "candidateCount"@, match s.candidate_count { Some(n) => Some(JsonV::Number(NumberV::PosInt(n as u64))), None => None });
    let g6 = ext_opt(g5, "stopSequences"@, if s.stop.len() > 0 { Some(JsonV::Array(s.stop.map_values(|t: Seq<char>| JsonV::Str(t)))) } else { None });
    let g7 = ext_opt(g6, "maxOutputTokens"@, match r.max_output_tokens { Some(m) => Some(JsonV::Number(NumberV::PosInt(m as u64))), None => None });
    assert(g7 == gen_sampling_members(g0, r));
    // each parameter survives the later stores
    lemma_ext_opt_other(g0, "temperature"@, "topP"@);
    lemma_ext_opt_other(g1, "topP"@, "temperature"@);
    lemma_ext_opt_other(g2, "topK"@, "temperature"@);
    lemma_ext_opt_other(g2, "topK"@, "topP"@);
    lemma_ext_opt_other(g3, "seed"@, "temperature"@);
    lemma_ext_opt_other(g3, "seed"@, "topP"@);
    lemma_ext_opt_other(g3, "seed"@, "topK"@);
    lemma_ext_opt_other(g4, "candidateCount"@, "temperature"@);
    lemma_ext_opt_other(g4, "candidateCount"@, "topP"@);
    lemma_ext_opt_other(g4, "candidateCount"@, "topK"@);
    lemma_ext_opt_other(g5, "stopSequences"@, "temperature"@);
    lemma_ext_opt_other(g5, "stopSequences"@, "topP"@);
    lemma_ext_opt_other(g5, "stopSequences"@, "topK"@);
    lemma_ext_opt_other(g6, "maxOutputTokens"@, "temperature"@);
    lemma_ext_opt_other(g6, "maxOutputTokens"@, "topP"@);
    lemma_ext_opt_other(g6, "maxOutputTokens"@, "topK"@);
    lemma_gen_after_sampling(r, "temperature"@);
    lemma_gen_after_sampling(r, "topP"@);
    lemma_gen_after_sampling(r, "topK"@);
    lemma_gen_after_sampling(r, "maxOutputTokens"@);
    if let Some(t) = s.temperature {
        lemma_ext_insert(g0, "temperature"@, JsonV::Number(t));
    }
    if let Some(t) = s.top_p {
        lemma_ext_insert(g1, "topP"@, JsonV::Number(t));
    }
    if let Some(k) = s.top_k {
        lemma_ext_insert(g2, "topK"@, JsonV::Number(NumberV::PosInt(k as u64)));
    }
    if let Some(m) = r.max_output_tokens {
        lemma_ext_insert(g6, "maxOutputTokens"@, JsonV::Number(NumberV::PosInt(m as u64)));
    }
    if s.top_p is None && member_get(r.extensions, "gemini.generationConfig"@) is None {
        assert(g0 == Seq::<(Seq<char>, JsonV)>::empty());
        assert(member_get(g0, "topP"@) is None);
    }
}


/// Usage written as `usageMetadata` reads back as the same usage: the prompt, cached-input and
/// reasoning counts exactly, and the output count whenever it includes the reasoning count
/// (Gemini reports output without reasoning).
pub proof fn law_gemini_usage_round_trip(u: Usage)
    ensures
        spec_parse_usage(Some(spec_encode_usage(u))).input_tokens == u.input_tokens,
        spec_parse_usage(Some(spec_encode_usage(u))).cached_input_tokens == u.cached_input_tokens,
        spec_parse_usage(Some(spec_encode_usage(u))).reasoning_tokens == u.reasoning_tokens,
        u.output_tokens >= u.reasoning_tokens ==> spec_parse_usage(Some(spec_encode_usage(u))).output_tokens == u.output_tokens,
{
    reveal_strlit("promptTokenCount");
    reveal_strlit("candidatesTokenCount");
    reveal_strlit("totalTokenCount");
    reveal_strlit("cachedContentTokenCount");
    reveal_strlit("thoughtsTokenCount");
    reveal_strlit("cached_content_token_count");
    reveal_strlit("thoughts_token_count");
    assert("promptTokenCount"@.len() == 16);
    assert("candidatesTokenCount"@.len() == 20);
    assert("totalTokenCount"@.len() == 15);
    assert("cachedContentTokenCount"@.len() == 23);
    assert("thoughtsTokenCount"@.len() == 18);
    assert("cached_content_token_count"@.len() == 26);
    assert("thoughts_token_count"@.len() == 20);
    assert("thoughts_token_count"@[0] != "candidatesTokenCount"@[0]);
    reveal_with_fuel(member_get, 6);
}


/// A response body whose candidate gives no finish reason but whose prompt feedback names a
/// block reason decodes to a content-filter stop; with no finish reason and no prompt
/// feedback, it has no stop reason.
pub proof fn law_gemini_blocked_prompt_stop(raw: JsonV, fresh_id: Seq<char>, now: i64)
    requires
        raw is Object,
        !is_error_body(raw),
        raw_finish(spec_first_candidate(raw)) is None,
    ensures
        (raw.get("promptFeedback"@) matches Some(f) && f is Object && f.get("blockReason"@) is Some)
            ==> (spec_gemini_decode_response(raw, fresh_id, now) matches Ok(r) && r.stop_reason == Some(StopReason::ContentFilter)),
        (raw.get("promptFeedback"@) is None && raw.get("prompt_feedback"@) is None)
            ==> (spec_gemini_decode_response(raw, fresh_id, now) matches Ok(r) && r.stop_reason is None),
{
}


/// A decoded Gemini request takes its sampling parameters from `generationConfig`: a number
/// under `temperature`, `topP` or `topK` (a non-negative integer for `topK`, and
/// `maxOutputTokens` likewise) becomes the request's temperature, top-p, top-k and output limit.
pub proof fn law_gemini_sampling_decoded(raw: JsonV, g: JsonV)
    requires
        raw.get("generationConfig"@) == Some(g),
        g is Object,
    ensures
        spec_gemini_decode_request(raw) matches Ok(r) ==> {
            &&& (g.get("temperature"@) matches Some(JsonV::Number(t)) ==> r.sampling.temperature == Some(t))
            &&& (g.get("topP"@) matches Some(JsonV::Number(t)) ==> r.sampling.top_p == Some(t))
            &&& (g.get("topK"@) matches Some(JsonV::Number(NumberV::PosInt(k))) ==> (k <= u32::MAX ==> r.sampling.top_k == Some(k as u32)))
            &&& (g.get("maxOutputTokens"@) matches Some(JsonV::Number(NumberV::PosInt(m)))
                ==> (m <= u32::MAX ==> r.max_output_tokens == Some(m as u32)))
        },
{
}


/// A stream chunk's `usageMetadata` reaches the consumer as a `Usage` event with that usage.
pub proof fn law_gemini_chunk_usage(st: GeminiDecoderV, v: JsonV, fresh: Seq<char>, u: JsonV)
    requires
        field_of(v, "usageMetadata"@, "usage_metadata"@) == Some(u),
    ensures
        spec_chunk(st, v, fresh).1.contains(EventV::Usage(spec_parse_usage(Some(u)))),
{
    let s0 = GeminiDecoderV { started: true, ..st };
    let cand = spec_first_candidate(v);
    let (s1, o1) = spec_parts_steps(s0, start_events(st, v, fresh), candidate_parts(cand));
    let e = EventV::Usage(spec_parse_usage(Some(u)));
    let o2 = o1.push(e);
    assert(o2[o1.len() as int] == e);
    let out = spec_finish_step(s1, o2, candidate_finish(cand)).1;
    if candidate_finish(cand) is Some && !s1.stopped {
        let o3 = if s1.open is Some { o2.push(EventV::ContentStop { index: s1.index }) } else { o2 };
        assert(o3[o1.len() as int] == e);
        assert(out[o1.len() as int] == e);
    } else {
        assert(out[o1.len() as int] == e);
    }
}

} // verus!
