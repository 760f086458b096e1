//! OpenAI Responses codec.
//!
//! Responses identifies output items by `output_index`, which the IR uses as
//! the block index. Its stream is the most ceremonious of the four: the
//! encoder produces the whole event sequence with a global `sequence_number`,
//! the decoder tolerates relays that skip the ceremony.

use vstd::prelude::*;
use crate::error::{Protocol, ErrorKind, GatewayError, GatewayErrorV, plain_error};
use crate::ir::{StopReason, Usage, wrap_add, wrap_add_exec, usage_max, ov, random_uuid, random_uuid_hex, uuid_hex, now_unix_seconds, ContentPart, MediaSource,
    PartV, SourceV, pv, lemma_parts_view, lemma_parts_view_push, spec_parse_data_uri, Role, Message, MessageV, msgs,
    duplicate_parts, dup_opt, ToolDef, ToolV, tls, ToolChoice, ChoiceV, ResponseFormat, FormatV, ReasoningConfig, ReasoningV,
    Extensions, ext_insert, lemma_ext_insert, RequestV, SamplingV, Sampling, UnifiedRequest, spec_to_data_uri, system_join,
    canonical_effort, budget_tier, UnifiedResponse, ResponseV, text_of};
use crate::json::{Json, JsonV, JsonNumber, NumberV, opt_str, opt_u64, opt_get, opt_bool, str_or, non_empty, json_parse, opt_view,
    lemma_items_view, lemma_members_view, member_get,
    items_view, members_view, push_member, json_render};
use crate::stream::{StreamEvent, EventV, SseFrame, FrameV, PartKind, evs, frs, push_event, push_frame};
use crate::text::{text_eq, owned, trim, trimmed, decimal, decimal_text, concat, remove_char, strip_prefix};
use crate::codec::gemini::{wrap_inc, ext_opt};
use crate::codec::messages::{count_of, count, text_at, text_field, str_field, named, named_frame, str_json, pair_object,
    triple_object, next_u32, text_or_empty_of, lemma_member_get_decreases};
use crate::codec::chat::{opt_owned, text_or_empty, default_parameters, collect_unknown, member_last, law_unknown_field_kept, keys_unique, lemma_ext_insert_unique, lemma_collect_unknown_unique, lemma_unique_last_is_first, spec_as_number, as_number, spec_as_i64,
    as_i64};

verus! {

/// OpenAI Responses codec.
pub struct ResponsesCodec;

/// A JSON integer as `u32`, when it fits.
pub open spec fn spec_as_u32(v: JsonV) -> Option<u32> {
    match v.as_u64() {
        Some(n) => if n <= u32::MAX as u64 { Some(n as u32) } else { None },
        None => None,
    }
}

/// The `output_index` of an event, 0 when absent or out of range.
pub open spec fn output_index(p: JsonV) -> u32 {
    match p.get("output_index"@) {
        Some(v) => match spec_as_u32(v) {
            Some(n) => n,
            None => 0,
        },
        None => 0,
    }
}

fn output_index_exec(p: &Json) -> (res: u32)
    ensures
        res == output_index(p@),
{
    match p.get("output_index") {
        Some(v) => match v.as_u64() {
            Some(n) => if n <= u32::MAX as u64 { n as u32 } else { 0 },
            None => 0,
        },
        None => 0,
    }
}

/// A counter nested one level down, 0 when absent.
pub open spec fn nested_count(raw: JsonV, outer: Seq<char>, key: Seq<char>) -> u64 {
    match opt_u64(opt_get(raw.get(outer), key)) {
        Some(n) => n,
        None => 0,
    }
}

fn nested(raw: &Json, outer: &str, key: &str) -> (res: u64)
    ensures
        res == nested_count(raw@, outer@, key@),
{
    let v = match raw.get(outer) {
        Some(o) => o.get_u64(key),
        None => None,
    };
    match v {
        Some(n) => n,
        None => 0,
    }
}

/// Responses usage in IR terms.
pub open spec fn spec_decode_usage(u: JsonV) -> Usage {
    Usage {
        input_tokens: count_of(u, "input_tokens"@),
        output_tokens: count_of(u, "output_tokens"@),
        cached_input_tokens: nested_count(u, "input_tokens_details"@, "cached_tokens"@),
        cache_write_tokens: nested_count(u, "input_tokens_details"@, "cache_write_tokens"@),
        reasoning_tokens: nested_count(u, "output_tokens_details"@, "reasoning_tokens"@),
    }
}

/// Responses usage in IR terms.
pub fn decode_usage(u: &Json) -> (res: Usage)
    ensures
        res == spec_decode_usage(u@),
{
    Usage {
        input_tokens: count(u, "input_tokens"),
        output_tokens: count(u, "output_tokens"),
        cached_input_tokens: nested(u, "input_tokens_details", "cached_tokens"),
        cache_write_tokens: nested(u, "input_tokens_details", "cache_write_tokens"),
        reasoning_tokens: nested(u, "output_tokens_details", "reasoning_tokens"),
    }
}

/// `status` and `incomplete_details.reason` in IR terms; a completed response
/// stops for a tool call first, then for a refusal.
pub open spec fn spec_map_status(status: Seq<char>, reason: Option<Seq<char>>, has_tool_call: bool, has_refusal: bool) -> StopReason {
    if status == "incomplete"@ {
        match reason {
            Some(r) => if r == "max_output_tokens"@ || r == "max_tokens"@ {
                StopReason::MaxTokens
            } else if r == "content_filter"@ {
                StopReason::ContentFilter
            } else {
                StopReason::Other
            },
            None => StopReason::Other,
        }
    } else if status == "failed"@ || status == "cancelled"@ || status == "queued"@ || status == "in_progress"@ {
        StopReason::Other
    } else if has_tool_call {
        StopReason::ToolUse
    } else if has_refusal {
        StopReason::Refusal
    } else {
        StopReason::Stop
    }
}

/// `status` and `incomplete_details.reason` in IR terms.
pub fn map_status(status: &str, reason: Option<&str>, has_tool_call: bool, has_refusal: bool) -> (res: StopReason)
    ensures
        res == spec_map_status(status@, match reason {
            Some(r) => Some(r@),
            None => None,
        }, has_tool_call, has_refusal),
{
    if text_eq(status, "incomplete") {
        match reason {
            Some(r) => if text_eq(r, "max_output_tokens") || text_eq(r, "max_tokens") {
                StopReason::MaxTokens
            } else if text_eq(r, "content_filter") {
                StopReason::ContentFilter
            } else {
                StopReason::Other
            },
            None => StopReason::Other,
        }
    } else if text_eq(status, "failed") || text_eq(status, "cancelled") || text_eq(status, "queued") || text_eq(status, "in_progress") {
        StopReason::Other
    } else if has_tool_call {
        StopReason::ToolUse
    } else if has_refusal {
        StopReason::Refusal
    } else {
        StopReason::Stop
    }
}

/// The `status` for an IR stop reason: truncations are incomplete, everything else completed.
pub open spec fn spec_status_str(reason: StopReason) -> Seq<char> {
    match reason {
        StopReason::MaxTokens => "incomplete"@,
        StopReason::ContentFilter => "incomplete"@,
        _ => "completed"@,
    }
}

/// The `status` for an IR stop reason.
pub fn status_str(reason: StopReason) -> (res: &'static str)
    ensures
        res@ == spec_status_str(reason),
{
    match reason {
        StopReason::MaxTokens => "incomplete",
        StopReason::ContentFilter => "incomplete",
        _ => "completed",
    }
}

/// The increment of a delta event (`delta`, or `text` when there is no `delta`).
pub open spec fn spec_delta_text(p: JsonV) -> Seq<char> {
    let v = match p.get("delta"@) {
        Some(d) => Some(d),
        None => p.get("text"@),
    };
    str_or(opt_str(v), Seq::empty())
}

fn delta_text(p: &Json) -> (res: String)
    ensures
        res@ == spec_delta_text(p@),
{
    proof {
        reveal_strlit("");
        assert(""@ =~= Seq::<char>::empty());
    }
    let v = match p.get("delta") {
        Some(d) => Some(d),
        None => p.get("text"),
    };
    let s = match v {
        Some(j) => j.as_str(),
        None => None,
    };
    match s {
        Some(t) => owned(t),
        None => String::new(),
    }
}

/// Model of [`ResponsesStreamDecoder`].
pub struct RespDecoderV {
    /// Block starts emitted, with the kind each was started as; the last entry of an index counts.
    pub opened: Seq<(u32, PartKind)>,
    /// Whether `Start` was emitted.
    pub started: bool,
    /// Whether `Done` or an error was emitted.
    pub finished: bool,
}

/// The kind block `index` was last started as.
pub open spec fn kind_at(opened: Seq<(u32, PartKind)>, index: u32) -> Option<PartKind>
    decreases opened.len(),
{
    if opened.len() == 0 {
        None
    } else if opened.last().0 == index {
        Some(opened.last().1)
    } else {
        kind_at(opened.drop_last(), index)
    }
}

/// Starts block `index` as `kind` unless it is already started as that kind.
pub open spec fn ensure_open(opened: Seq<(u32, PartKind)>, index: u32, kind: PartKind) -> (Seq<(u32, PartKind)>, Seq<EventV>) {
    if kind_at(opened, index) == Some(kind) {
        (opened, Seq::empty())
    } else {
        (opened.push((index, kind)), seq![EventV::ContentStart { index, kind }])
    }
}

/// An increment after making sure its block is started.
pub open spec fn open_then(st: RespDecoderV, index: u32, kind: PartKind, e: EventV) -> (RespDecoderV, Seq<EventV>) {
    let (o, pre) = ensure_open(st.opened, index, kind);
    (RespDecoderV { opened: o, ..st }, pre.push(e))
}

/// Whether an output item is a function call.
pub open spec fn is_function_call(item: JsonV) -> bool {
    opt_str(item.get("type"@)) == Some("function_call"@)
}

/// Whether an output item holds a refusal part.
pub open spec fn item_has_refusal(item: JsonV) -> bool {
    match item.get("content"@) {
        Some(JsonV::Array(parts)) => exists|j: int| 0 <= j < parts.len() && opt_str(#[trigger] parts[j].get("type"@)) == Some("refusal"@),
        _ => false,
    }
}

/// The output items of a final response object.
pub open spec fn output_items(resp: Option<JsonV>) -> Seq<JsonV> {
    match opt_get(resp, "output"@) {
        Some(JsonV::Array(a)) => a,
        _ => Seq::empty(),
    }
}

/// `response.completed` / `response.incomplete`: usage, the stop reason, then `Done` once.
pub open spec fn completed_events(st: RespDecoderV, event: Seq<char>, p: JsonV) -> (RespDecoderV, Seq<EventV>) {
    let resp = p.get("response"@);
    let o1 = match opt_get(resp, "usage"@) {
        Some(u) => if u is Null { Seq::empty() } else { seq![EventV::Usage(spec_decode_usage(u))] },
        None => Seq::empty(),
    };
    let status = str_or(opt_str(opt_get(resp, "status"@)), if event == "response.incomplete"@ { "incomplete"@ } else { "completed"@ });
    let items = output_items(resp);
    let reason = spec_map_status(
        status,
        opt_str(opt_get(opt_get(resp, "incomplete_details"@), "reason"@)),
        exists|i: int| 0 <= i < items.len() && is_function_call(#[trigger] items[i]),
        exists|i: int| 0 <= i < items.len() && item_has_refusal(#[trigger] items[i]),
    );
    let o2 = o1.push(EventV::Stop { reason, stop_sequence: None });
    if st.finished {
        (st, o2)
    } else {
        (RespDecoderV { finished: true, ..st }, o2.push(EventV::Done))
    }
}

/// The error object of a `response.failed` or `error` event.
pub open spec fn error_object(p: JsonV) -> JsonV {
    match opt_get(p.get("response"@), "error"@) {
        Some(e) => if e is Null { p } else { e },
        None => p,
    }
}

/// Effect of one named event.
pub open spec fn spec_responses_event(st: RespDecoderV, event: Seq<char>, p: JsonV) -> (RespDecoderV, Seq<EventV>) {
    let index = output_index(p);
    if event == "response.created"@ || event == "response.in_progress"@ {
        if st.started {
            (st, Seq::empty())
        } else {
            let resp = p.get("response"@);
            (RespDecoderV { started: true, ..st }, seq![EventV::Start {
                id: text_at(resp, "id"@),
                model: text_at(resp, "model"@),
                usage: match opt_get(resp, "usage"@) {
                    Some(u) => if u is Null { None } else { Some(spec_decode_usage(u)) },
                    None => None,
                },
            }])
        }
    } else if event == "response.output_item.added"@ {
        let item = p.get("item"@);
        let kind = text_at(item, "type"@);
        if kind == "function_call"@ {
            let id_field = match opt_get(item, "call_id"@) {
                Some(c) => Some(c),
                None => opt_get(item, "id"@),
            };
            open_then(st, index, PartKind::ToolUse, EventV::ToolCallStart {
                index,
                id: str_or(opt_str(id_field), Seq::empty()),
                name: text_at(item, "name"@),
                signature: None,
            })
        } else if kind == "reasoning"@ {
            let (o, pre) = ensure_open(st.opened, index, PartKind::Thinking);
            (RespDecoderV { opened: o, ..st }, pre)
        } else {
            (st, Seq::empty())
        }
    } else if event == "response.content_part.added"@ {
        let ty = text_at(p.get("part"@), "type"@);
        let kind = if ty == "refusal"@ {
            PartKind::Refusal
        } else if ty == "reasoning_text"@ || ty == "summary_text"@ {
            PartKind::Thinking
        } else {
            PartKind::Text
        };
        let (o, pre) = ensure_open(st.opened, index, kind);
        (RespDecoderV { opened: o, ..st }, pre)
    } else if event == "response.output_text.delta"@ {
        open_then(st, index, PartKind::Text, EventV::TextDelta { index, text: spec_delta_text(p) })
    } else if event == "response.refusal.delta"@ {
        open_then(st, index, PartKind::Refusal, EventV::RefusalDelta { index, text: spec_delta_text(p) })
    } else if event == "response.reasoning_summary_text.delta"@ || event == "response.reasoning_text.delta"@ {
        open_then(st, index, PartKind::Thinking, EventV::ThinkingDelta { index, text: spec_delta_text(p) })
    } else if event == "response.function_call_arguments.delta"@ {
        open_then(st, index, PartKind::ToolUse, EventV::ToolCallArgsDelta { index, fragment: spec_delta_text(p) })
    } else if event == "response.output_item.done"@ {
        match opt_str(opt_get(p.get("item"@), "encrypted_content"@)) {
            Some(sig) => {
                let (s1, o1) = open_then(st, index, PartKind::Thinking, EventV::ThinkingSignature { index, signature: sig });
                (s1, o1.push(EventV::ContentStop { index }))
            },
            None => (st, seq![EventV::ContentStop { index }]),
        }
    } else if event == "response.completed"@ || event == "response.incomplete"@ {
        completed_events(st, event, p)
    } else if event == "response.failed"@ || event == "error"@ {
        let err = error_object(p);
        let kind_field = match err.get("type"@) {
            Some(t) => Some(t),
            None => err.get("code"@),
        };
        (RespDecoderV { finished: true, ..st }, seq![EventV::Error {
            message: str_or(opt_str(err.get("message"@)), "upstream stream failed"@),
            kind: str_or(opt_str(kind_field), "upstream_error"@),
        }])
    } else {
        (st, Seq::empty())
    }
}

/// Effect of one SSE frame: `[DONE]` ends the stream once, blank frames and frames
/// that are not JSON are ignored, the event name falls back to the payload's `type`.
pub open spec fn spec_responses_decode(st: RespDecoderV, frame: FrameV) -> (RespDecoderV, Seq<EventV>) {
    let t = trimmed(frame.data);
    if t == "[DONE]"@ {
        if st.finished {
            (st, Seq::empty())
        } else {
            (RespDecoderV { finished: true, ..st }, seq![EventV::Done])
        }
    } else if t.len() == 0 {
        (st, Seq::empty())
    } else {
        match json_parse(frame.data) {
            None => (st, Seq::empty()),
            Some(p) => {
                let event = match frame.event {
                    Some(e) => e,
                    None => str_or(opt_str(p.get("type"@)), Seq::empty()),
                };
                spec_responses_event(st, event, p)
            },
        }
    }
}

/// Effect of the end of the stream: `Done` unless the stream already ended.
pub open spec fn spec_responses_finish(st: RespDecoderV) -> (RespDecoderV, Seq<EventV>) {
    if st.finished {
        (st, Seq::empty())
    } else {
        (RespDecoderV { finished: true, ..st }, seq![EventV::Done])
    }
}

fn any_function_call(items: &Vec<Json>) -> (res: bool)
    ensures
        res == exists|i: int| 0 <= i < items_view(items@).len() && is_function_call(#[trigger] items_view(items@)[i]),
{
    proof {
        lemma_items_view(items@);
    }
    let mut i: usize = 0;
    while i < items.len()
        invariant
            i <= items.len(),
            items_view(items@).len() == items.len(),
            forall|k: int| 0 <= k < items.len() ==> #[trigger] items_view(items@)[k] == items@[k]@,
            forall|k: int| 0 <= k < i ==> !is_function_call(#[trigger] items_view(items@)[k]),
        decreases items.len() - i,
    {
        let is_call = match items[i].get_str("type") {
            Some(t) => text_eq(t, "function_call"),
            None => false,
        };
        if is_call {
            assert(is_function_call(items_view(items@)[i as int]));
            return true;
        }
        i = i + 1;
    }
    false
}

fn has_refusal_part(item: &Json) -> (res: bool)
    ensures
        res == item_has_refusal(item@),
{
    match item.get("content") {
        Some(Json::Array(parts)) => {
            proof {
                lemma_items_view(parts@);
            }
            let ghost ps = items_view(parts@);
            assert(item@.get("content"@) == Some(JsonV::Array(ps)));
            let mut j: usize = 0;
            while j < parts.len()
                invariant
                    j <= parts.len(),
                    item@.get("content"@) == Some(JsonV::Array(ps)),
                    ps == items_view(parts@),
                    ps.len() == parts.len(),
                    forall|k: int| 0 <= k < parts.len() ==> #[trigger] ps[k] == parts@[k]@,
                    forall|k: int| 0 <= k < j ==> opt_str(#[trigger] ps[k].get("type"@)) != Some("refusal"@),
                decreases parts.len() - j,
            {
                let is_refusal = match parts[j].get_str("type") {
                    Some(t) => text_eq(t, "refusal"),
                    None => false,
                };
                if is_refusal {
                    assert(opt_str(ps[j as int].get("type"@)) == Some("refusal"@));
                    return true;
                }
                j = j + 1;
            }
            false
        },
        _ => false,
    }
}

fn any_refusal(items: &Vec<Json>) -> (res: bool)
    ensures
        res == exists|i: int| 0 <= i < items_view(items@).len() && item_has_refusal(#[trigger] items_view(items@)[i]),
{
    proof {
        lemma_items_view(items@);
    }
    let mut i: usize = 0;
    while i < items.len()
        invariant
            i <= items.len(),
            items_view(items@).len() == items.len(),
            forall|k: int| 0 <= k < items.len() ==> #[trigger] items_view(items@)[k] == items@[k]@,
            forall|k: int| 0 <= k < i ==> !item_has_refusal(#[trigger] items_view(items@)[k]),
        decreases items.len() - i,
    {
        if has_refusal_part(&items[i]) {
            assert(item_has_refusal(items_view(items@)[i as int]));
            return true;
        }
        i = i + 1;
    }
    false
}

/// Stateful Responses stream decoder.
///
/// Uses `output_index` as the block index and synthesizes the `ContentStart`
/// of a block whose ceremony a relay skipped.
pub struct ResponsesStreamDecoder {
    opened: Vec<(u32, PartKind)>,
    started: bool,
    finished: bool,
}

impl View for ResponsesStreamDecoder {
    type V = RespDecoderV;

    closed spec fn view(&self) -> RespDecoderV {
        RespDecoderV { opened: self.opened@, started: self.started, finished: self.finished }
    }
}

impl ResponsesStreamDecoder {
    /// A decoder before any frame.
    pub fn new() -> (res: ResponsesStreamDecoder)
        ensures
            res@ == (RespDecoderV { opened: Seq::empty(), started: false, finished: false }),
    {
        ResponsesStreamDecoder { opened: Vec::new(), started: false, finished: false }
    }

    fn kind_of(&self, index: u32) -> (res: Option<PartKind>)
        ensures
            res == kind_at(self@.opened, index),
    {
        let mut i: usize = self.opened.len();
        assert(self.opened@.subrange(0, i as int) =~= self.opened@);
        while i > 0
            invariant
                i <= self.opened.len(),
                kind_at(self.opened@, index) == kind_at(self.opened@.subrange(0, i as int), index),
            decreases i,
        {
            assert(self.opened@.subrange(0, i as int).drop_last() =~= self.opened@.subrange(0, i - 1));
            let (k, kind) = self.opened[i - 1];
            if k == index {
                return Some(kind);
            }
            i = i - 1;
        }
        None
    }

    fn ensure_open(&mut self, out: &mut Vec<StreamEvent>, index: u32, kind: PartKind)
        ensures
            (final(self)@.opened, evs(final(out)@)) == {
                let (o, pre) = ensure_open(old(self)@.opened, index, kind);
                (o, evs(old(out)@) + pre)
            },
            final(self)@.started == old(self)@.started,
            final(self)@.finished == old(self)@.finished,
    {
        proof {
            assert(self.opened@.subrange(0, self.opened.len() as int) =~= self.opened@);
        }
        if self.kind_of(index) == Some(kind) {
            assert(evs(out@) =~= evs(out@) + Seq::<EventV>::empty());
            return;
        }
        self.opened.push((index, kind));
        let ghost o = evs(out@);
        push_event(out, StreamEvent::ContentStart { index, kind });
        assert(evs(out@) =~= o + seq![EventV::ContentStart { index, kind }]);
    }

    fn open_then(&mut self, index: u32, kind: PartKind, e: StreamEvent) -> (res: Vec<StreamEvent>)
        ensures
            (final(self)@, evs(res@)) == open_then(old(self)@, index, kind, e@),
    {
        let mut out: Vec<StreamEvent> = Vec::new();
        assert(evs(out@) =~= Seq::<EventV>::empty());
        self.ensure_open(&mut out, index, kind);
        push_event(&mut out, e);
        out
    }

    fn completed(&mut self, event: &str, p: &Json) -> (res: Vec<StreamEvent>)
        ensures
            (final(self)@, evs(res@)) == completed_events(old(self)@, event@, p@),
    {
        let mut out: Vec<StreamEvent> = Vec::new();
        assert(evs(out@) =~= Seq::<EventV>::empty());
        let resp = p.get("response");
        let usage = match resp {
            Some(r) => r.get("usage"),
            None => None,
        };
        if let Some(u) = usage {
            if !u.is_null() {
                push_event(&mut out, StreamEvent::Usage(decode_usage(u)));
                assert(evs(out@) =~= seq![EventV::Usage(spec_decode_usage(u@))]);
            }
        }
        let fallback: &str = if text_eq(event, "response.incomplete") { "incomplete" } else { "completed" };
        let status: &str = match str_field(resp, "status") {
            Some(s) => s,
            None => fallback,
        };
        let empty: Vec<Json> = Vec::new();
        let items: &Vec<Json> = match resp {
            Some(r) => match r.get("output") {
                Some(Json::Array(a)) => a,
                _ => &empty,
            },
            None => &empty,
        };
        proof {
            lemma_items_view(empty@);
            assert(items_view(items@) == output_items(opt_view(resp)));
        }
        let details = match resp {
            Some(r) => r.get("incomplete_details"),
            None => None,
        };
        let reason = map_status(status, str_field(details, "reason"), any_function_call(items), any_refusal(items));
        push_event(&mut out, StreamEvent::Stop { reason, stop_sequence: None });
        if !self.finished {
            self.finished = true;
            push_event(&mut out, StreamEvent::Done);
        }
        out
    }

    /// Decodes one event already parsed: its name (the SSE event, else the payload `type`)
    /// and its JSON payload.
    pub fn event(&mut self, event: &str, p: &Json) -> (res: Vec<StreamEvent>)
        ensures
            (final(self)@, evs(res@)) == spec_responses_event(old(self)@, event@, p@),
    {
        let mut out: Vec<StreamEvent> = Vec::new();
        assert(evs(out@) =~= Seq::<EventV>::empty());
        let index = output_index_exec(p);
        if text_eq(event, "response.created") || text_eq(event, "response.in_progress") {
            if !self.started {
                self.started = true;
                let resp = p.get("response");
                let usage = match resp {
                    Some(r) => match r.get("usage") {
                        Some(u) => if u.is_null() { None } else { Some(decode_usage(u)) },
                        None => None,
                    },
                    None => None,
                };
                push_event(&mut out, StreamEvent::Start { id: text_field(resp, "id"), model: text_field(resp, "model"), usage });
                assert(evs(out@) =~= seq![evs(out@)[0]]);
            }
            out
        } else if text_eq(event, "response.output_item.added") {
            let item = p.get("item");
            let kind = text_field(item, "type");
            if text_eq(kind.as_str(), "function_call") {
                let id_field = match item {
                    Some(it) => match it.get("call_id") {
                        Some(c) => Some(c),
                        None => it.get("id"),
                    },
                    None => None,
                };
                let id = match id_field {
                    Some(v) => match v.as_str() {
                        Some(s) => owned(s),
                        None => String::new(),
                    },
                    None => String::new(),
                };
                proof {
                    reveal_strlit("");
                    assert(""@ =~= Seq::<char>::empty());
                }
                self.open_then(index, PartKind::ToolUse, StreamEvent::ToolCallStart { index, id, name: text_field(item, "name"), signature: None })
            } else if text_eq(kind.as_str(), "reasoning") {
                self.ensure_open(&mut out, index, PartKind::Thinking);
                assert(evs(out@) =~= ensure_open(old(self)@.opened, index, PartKind::Thinking).1);
                out
            } else {
                out
            }
        } else if text_eq(event, "response.content_part.added") {
            let ty = text_field(p.get("part"), "type");
            let kind = if text_eq(ty.as_str(), "refusal") {
                PartKind::Refusal
            } else if text_eq(ty.as_str(), "reasoning_text") || text_eq(ty.as_str(), "summary_text") {
                PartKind::Thinking
            } else {
                PartKind::Text
            };
            self.ensure_open(&mut out, index, kind);
            assert(evs(out@) =~= ensure_open(old(self)@.opened, index, kind).1);
            out
        } else if text_eq(event, "response.output_text.delta") {
            self.open_then(index, PartKind::Text, StreamEvent::TextDelta { index, text: delta_text(p) })
        } else if text_eq(event, "response.refusal.delta") {
            self.open_then(index, PartKind::Refusal, StreamEvent::RefusalDelta { index, text: delta_text(p) })
        } else if text_eq(event, "response.reasoning_summary_text.delta") || text_eq(event, "response.reasoning_text.delta") {
            self.open_then(index, PartKind::Thinking, StreamEvent::ThinkingDelta { index, text: delta_text(p) })
        } else if text_eq(event, "response.function_call_arguments.delta") {
            self.open_then(index, PartKind::ToolUse, StreamEvent::ToolCallArgsDelta { index, fragment: delta_text(p) })
        } else if text_eq(event, "response.output_item.done") {
            match str_field(p.get("item"), "encrypted_content") {
                Some(sig) => {
                    let mut o = self.open_then(index, PartKind::Thinking, StreamEvent::ThinkingSignature { index, signature: owned(sig) });
                    push_event(&mut o, StreamEvent::ContentStop { index });
                    o
                },
                None => {
                    push_event(&mut out, StreamEvent::ContentStop { index });
                    assert(evs(out@) =~= seq![EventV::ContentStop { index }]);
                    out
                },
            }
        } else if text_eq(event, "response.completed") || text_eq(event, "response.incomplete") {
            self.completed(event, p)
        } else if text_eq(event, "response.failed") || text_eq(event, "error") {
            let inner = match p.get("response") {
                Some(r) => r.get("error"),
                None => None,
            };
            let err: &Json = match inner {
                Some(e) => if e.is_null() { p } else { e },
                None => p,
            };
            let kind_field = match err.get("type") {
                Some(t) => Some(t),
                None => err.get("code"),
            };
            let message = match err.get_str("message") {
                Some(m) => owned(m),
                None => owned("upstream stream failed"),
            };
            let kind = match kind_field {
                Some(k) => match k.as_str() {
                    Some(s) => owned(s),
                    None => owned("upstream_error"),
                },
                None => owned("upstream_error"),
            };
            push_event(&mut out, StreamEvent::Error { message, kind });
            assert(evs(out@) =~= seq![EventV::Error { message: message@, kind: kind@ }]);
            self.finished = true;
            out
        } else {
            out
        }
    }

    /// Decodes one frame into zero or more events.
    pub fn decode(&mut self, frame: &SseFrame) -> (res: Vec<StreamEvent>)
        ensures
            (final(self)@, evs(res@)) == spec_responses_decode(old(self)@, frame@),
    {
        let mut out: Vec<StreamEvent> = Vec::new();
        assert(evs(out@) =~= Seq::<EventV>::empty());
        let t = trim(frame.data.as_str());
        if text_eq(t, "[DONE]") {
            if !self.finished {
                self.finished = true;
                push_event(&mut out, StreamEvent::Done);
                assert(evs(out@) =~= seq![EventV::Done]);
            }
            return out;
        }
        if t.unicode_len() == 0 {
            return out;
        }
        let p = match Json::parse(frame.data.as_str()) {
            Some(v) => v,
            None => return out,
        };
        proof {
            reveal_strlit("");
            assert(""@ =~= Seq::<char>::empty());
        }
        let event: &str = match &frame.event {
            Some(e) => e.as_str(),
            None => match p.get_str("type") {
                Some(t) => t,
                None => "",
            },
        };
        self.event(event, &p)
    }

    /// Ends the stream: `Done` unless the stream already ended.
    pub fn finish(&mut self) -> (res: Vec<StreamEvent>)
        ensures
            (final(self)@, evs(res@)) == spec_responses_finish(old(self)@),
    {
        let mut out: Vec<StreamEvent> = Vec::new();
        assert(evs(out@) =~= Seq::<EventV>::empty());
        if !self.finished {
            self.finished = true;
            push_event(&mut out, StreamEvent::Done);
            assert(evs(out@) =~= seq![EventV::Done]);
        }
        out
    }
}


// ---------------------------------------------------------------------------
// Stream encoding
// ---------------------------------------------------------------------------

/// A JSON number for a counter.
pub open spec fn num(n: u64) -> JsonV {
    JsonV::Number(NumberV::PosInt(n))
}

/// A JSON number for a signed value.
pub open spec fn int_json(n: i64) -> JsonV {
    if n >= 0 { JsonV::Number(NumberV::PosInt(n as u64)) } else { JsonV::Number(NumberV::NegInt(n)) }
}

fn int_json_exec(n: i64) -> (res: Json)
    ensures
        res@ == int_json(n),
{
    if n >= 0 { Json::uint(n as u64) } else { Json::Number(JsonNumber::NegInt(n)) }
}

/// Responses usage, with its detail objects and total (input plus output, wrapping).
pub open spec fn spec_encode_usage(u: Usage) -> JsonV {
    JsonV::Object(seq![
        ("input_tokens"@, num(u.input_tokens)),
        ("input_tokens_details"@, JsonV::Object(seq![
            ("cached_tokens"@, num(u.cached_input_tokens)),
            ("cache_write_tokens"@, num(u.cache_write_tokens)),
        ])),
        ("output_tokens"@, num(u.output_tokens)),
        ("output_tokens_details"@, JsonV::Object(seq![("reasoning_tokens"@, num(u.reasoning_tokens))])),
        ("total_tokens"@, num(wrap_add(u.input_tokens, u.output_tokens))),
    ])
}

/// Responses usage as JSON.
pub fn encode_usage(u: &Usage) -> (res: Json)
    ensures
        res@ == spec_encode_usage(*u),
{
    let mut m: Vec<(String, Json)> = Vec::new();
    push_member(&mut m, "input_tokens", Json::uint(u.input_tokens));
    push_member(&mut m, "input_tokens_details", pair_object("cached_tokens", Json::uint(u.cached_input_tokens), "cache_write_tokens", Json::uint(u.cache_write_tokens)));
    push_member(&mut m, "output_tokens", Json::uint(u.output_tokens));
    let mut d: Vec<(String, Json)> = Vec::new();
    push_member(&mut d, "reasoning_tokens", Json::uint(u.reasoning_tokens));
    assert(members_view(d@) =~= seq![("reasoning_tokens"@, num(u.reasoning_tokens))]);
    push_member(&mut m, "output_tokens_details", Json::object(d));
    push_member(&mut m, "total_tokens", Json::uint(wrap_add_exec(u.input_tokens, u.output_tokens)));
    assert(members_view(m@) =~= spec_encode_usage(*u)->Object_0);
    Json::object(m)
}

/// `incomplete_details` for the truncating stop reasons.
pub open spec fn incomplete_details(reason: Option<StopReason>) -> JsonV {
    match reason {
        Some(StopReason::MaxTokens) => JsonV::Object(seq![("reason"@, JsonV::Str("max_output_tokens"@))]),
        Some(StopReason::ContentFilter) => JsonV::Object(seq![("reason"@, JsonV::Str("content_filter"@))]),
        _ => JsonV::Null,
    }
}

fn reason_object(reason: &str) -> (res: Json)
    ensures
        res@ == JsonV::Object(seq![("reason"@, JsonV::Str(reason@))]),
{
    let mut m: Vec<(String, Json)> = Vec::new();
    push_member(&mut m, "reason", str_json(reason));
    assert(members_view(m@) =~= seq![("reason"@, JsonV::Str(reason@))]);
    Json::object(m)
}

fn incomplete_details_exec(reason: Option<StopReason>) -> (res: Json)
    ensures
        res@ == incomplete_details(reason),
{
    match reason {
        Some(StopReason::MaxTokens) => reason_object("max_output_tokens"),
        Some(StopReason::ContentFilter) => reason_object("content_filter"),
        _ => Json::Null,
    }
}

/// The finished items, in `output_index` order, skipping the slots never filled.
pub open spec fn flatten_items(items: Seq<Option<JsonV>>) -> Seq<JsonV>
    decreases items.len(),
{
    if items.len() == 0 {
        Seq::empty()
    } else {
        match items.last() {
            Some(i) => flatten_items(items.drop_last()).push(i),
            None => flatten_items(items.drop_last()),
        }
    }
}

/// The text of the `output_text` parts of a run of content parts.
pub open spec fn output_text_of_parts(parts: Seq<JsonV>) -> Seq<char>
    decreases parts.len(),
{
    if parts.len() == 0 {
        Seq::empty()
    } else {
        let p = parts.last();
        let t = if opt_str(p.get("type"@)) == Some("output_text"@) {
            match opt_str(p.get("text"@)) {
                Some(t) => t,
                None => Seq::empty(),
            }
        } else {
            Seq::empty()
        };
        output_text_of_parts(parts.drop_last()) + t
    }
}

/// The output text of one item: that of its parts when it is a message.
pub open spec fn output_text_of_item(item: JsonV) -> Seq<char> {
    if opt_str(item.get("type"@)) == Some("message"@) {
        match item.get("content"@) {
            Some(JsonV::Array(parts)) => output_text_of_parts(parts),
            _ => Seq::empty(),
        }
    } else {
        Seq::empty()
    }
}

/// The output text of a run of items.
pub open spec fn output_text(items: Seq<JsonV>) -> Seq<char>
    decreases items.len(),
{
    if items.len() == 0 {
        Seq::empty()
    } else {
        output_text(items.drop_last()) + output_text_of_item(items.last())
    }
}

/// Model of one item being streamed.
pub struct BlockV {
    pub output_index: u32,
    pub item_id: Seq<char>,
    pub kind: PartKind,
    pub announced: bool,
    pub text: Seq<char>,
    pub signature: Option<Seq<char>>,
    pub tool_id: Seq<char>,
    pub tool_name: Seq<char>,
    pub args: Seq<char>,
}

/// Model of [`ResponsesStreamEncoder`].
pub struct RespEncoderV {
    pub seq: u64,
    pub id: Seq<char>,
    pub model: Seq<char>,
    pub created: i64,
    pub started: bool,
    pub finished: bool,
    /// The items being streamed, by IR block index, in ascending index order.
    pub blocks: Seq<(u32, BlockV)>,
    pub next_output_index: u32,
    pub items: Seq<Option<JsonV>>,
    pub usage: Usage,
    pub stop_reason: Option<StopReason>,
}

/// The encoder before any event.
pub open spec fn initial_resp_encoder() -> RespEncoderV {
    RespEncoderV {
        seq: 0,
        id: Seq::empty(),
        model: Seq::empty(),
        created: 0,
        started: false,
        finished: false,
        blocks: Seq::empty(),
        next_output_index: 0,
        items: Seq::empty(),
        usage: Usage::zero_spec(),
        stop_reason: None,
    }
}

/// The response object as it stands: with items and usage only when `terminal`.
pub open spec fn snapshot(st: RespEncoderV, status: Seq<char>, terminal: bool) -> JsonV {
    let output = if terminal { flatten_items(st.items) } else { Seq::empty() };
    JsonV::Object(seq![
        ("id"@, JsonV::Str(st.id)),
        ("object"@, JsonV::Str("response"@)),
        ("created_at"@, int_json(st.created)),
        ("model"@, JsonV::Str(st.model)),
        ("status"@, JsonV::Str(status)),
        ("output"@, JsonV::Array(output)),
        ("output_text"@, JsonV::Str(output_text(output))),
        ("parallel_tool_calls"@, JsonV::Bool(true)),
        ("tool_choice"@, JsonV::Str("auto"@)),
        ("tools"@, JsonV::Array(Seq::empty())),
        ("error"@, JsonV::Null),
        ("incomplete_details"@, incomplete_details(st.stop_reason)),
        ("usage"@, if terminal { spec_encode_usage(st.usage) } else { JsonV::Null }),
    ])
}

/// `n + 1` modulo 2^64.
pub open spec fn wrap_inc64(n: u64) -> u64 {
    if n == u64::MAX { 0 } else { (n + 1) as u64 }
}

/// Emits an event frame: the payload members, then `type` and `sequence_number`.
pub open spec fn emit(st: RespEncoderV, frames: Seq<FrameV>, event: Seq<char>, members: Seq<(Seq<char>, JsonV)>) -> (RespEncoderV, Seq<FrameV>) {
    (RespEncoderV { seq: wrap_inc64(st.seq), ..st },
     frames.push(named(event, JsonV::Object(members + seq![("type"@, JsonV::Str(event)), ("sequence_number"@, num(st.seq))]))))
}


/// Position of block `k` among the open blocks, -1 when it is not open.
pub open spec fn block_pos(bs: Seq<(u32, BlockV)>, k: u32) -> int
    decreases bs.len(),
{
    if bs.len() == 0 {
        -1
    } else if bs.last().0 == k {
        bs.len() - 1
    } else {
        block_pos(bs.drop_last(), k)
    }
}

/// Block `k`, when it is open.
pub open spec fn block_get(bs: Seq<(u32, BlockV)>, k: u32) -> Option<BlockV> {
    let p = block_pos(bs, k);
    if 0 <= p < bs.len() { Some(bs[p].1) } else { None }
}

/// Where block `k` goes among the open blocks, which are in ascending index order.
pub open spec fn insert_pos(bs: Seq<(u32, BlockV)>, k: u32) -> int
    decreases bs.len(),
{
    if bs.len() == 0 {
        0
    } else if bs.last().0 < k {
        bs.len() as int
    } else {
        insert_pos(bs.drop_last(), k)
    }
}

proof fn lemma_block_pos(bs: Seq<(u32, BlockV)>, k: u32)
    ensures
        -1 <= block_pos(bs, k) < bs.len(),
        block_pos(bs, k) >= 0 ==> bs[block_pos(bs, k)].0 == k,
        0 <= insert_pos(bs, k) <= bs.len(),
    decreases bs.len(),
{
    if bs.len() > 0 {
        lemma_block_pos(bs.drop_last(), k);
    }
}

/// Replaces open block `k` by `b`.
pub open spec fn block_put(bs: Seq<(u32, BlockV)>, k: u32, b: BlockV) -> Seq<(u32, BlockV)> {
    bs.update(block_pos(bs, k), (k, b))
}

/// The prefix of the item id of a block kind.
pub open spec fn id_prefix(kind: PartKind) -> Seq<char> {
    match kind {
        PartKind::ToolUse => "fc"@,
        PartKind::Thinking => "rs"@,
        _ => "msg"@,
    }
}

/// A new item of `kind` at the next output index.
pub open spec fn new_block(st: RespEncoderV, kind: PartKind) -> BlockV {
    BlockV {
        output_index: st.next_output_index,
        item_id: id_prefix(kind) + "_"@ + st.id + "_"@ + decimal(st.next_output_index as nat),
        kind,
        announced: false,
        text: Seq::empty(),
        signature: None,
        tool_id: Seq::empty(),
        tool_name: Seq::empty(),
        args: Seq::empty(),
    }
}

/// Emits `response.created` and `response.in_progress` once; a stream without id
/// gets `fresh_id`, one without creation time gets `now`.
pub open spec fn r_ensure_started(st: RespEncoderV, frames: Seq<FrameV>, fresh_id: Seq<char>, now: i64) -> (RespEncoderV, Seq<FrameV>) {
    if st.started {
        (st, frames)
    } else {
        let s1 = RespEncoderV {
            started: true,
            id: if st.id.len() == 0 { fresh_id } else { st.id },
            created: if st.created == 0 { now } else { st.created },
            ..st
        };
        let snap = snapshot(s1, "in_progress"@, false);
        let (s2, f2) = emit(s1, frames, "response.created"@, seq![("response"@, snap)]);
        emit(s2, f2, "response.in_progress"@, seq![("response"@, snap)])
    }
}

/// The item announced when a block is declared.
pub open spec fn announced_item(b: BlockV) -> JsonV {
    match b.kind {
        PartKind::ToolUse => JsonV::Object(seq![
            ("type"@, JsonV::Str("function_call"@)),
            ("id"@, JsonV::Str(b.item_id)),
            ("call_id"@, JsonV::Str(b.tool_id)),
            ("name"@, JsonV::Str(b.tool_name)),
            ("arguments"@, JsonV::Str(Seq::empty())),
            ("status"@, JsonV::Str("in_progress"@)),
        ]),
        PartKind::Thinking => JsonV::Object(seq![
            ("type"@, JsonV::Str("reasoning"@)),
            ("id"@, JsonV::Str(b.item_id)),
            ("summary"@, JsonV::Array(Seq::empty())),
        ]),
        _ => JsonV::Object(seq![
            ("type"@, JsonV::Str("message"@)),
            ("id"@, JsonV::Str(b.item_id)),
            ("status"@, JsonV::Str("in_progress"@)),
            ("role"@, JsonV::Str("assistant"@)),
            ("content"@, JsonV::Array(Seq::empty())),
        ]),
    }
}

/// A message content part with its text.
pub open spec fn message_part(kind: PartKind, text: Seq<char>) -> JsonV {
    if kind == PartKind::Refusal {
        JsonV::Object(seq![("type"@, JsonV::Str("refusal"@)), ("refusal"@, JsonV::Str(text))])
    } else {
        JsonV::Object(seq![("type"@, JsonV::Str("output_text"@)), ("text"@, JsonV::Str(text)), ("annotations"@, JsonV::Array(Seq::empty()))])
    }
}

/// A reasoning summary part.
pub open spec fn summary_part(text: Seq<char>) -> JsonV {
    JsonV::Object(seq![("type"@, JsonV::Str("summary_text"@)), ("text"@, JsonV::Str(text))])
}

/// The members that place an event in an item: its id, output index and the given part index.
pub open spec fn item_members(b: BlockV, key: Seq<char>) -> Seq<(Seq<char>, JsonV)> {
    seq![("item_id"@, JsonV::Str(b.item_id)), ("output_index"@, num(b.output_index as u64)), (key, num(0))]
}

/// Declares block `k` once: `output_item.added`, then the part it starts with.
pub open spec fn r_announce(st: RespEncoderV, frames: Seq<FrameV>, k: u32) -> (RespEncoderV, Seq<FrameV>) {
    match block_get(st.blocks, k) {
        None => (st, frames),
        Some(b) => if b.announced {
            (st, frames)
        } else {
            let s1 = RespEncoderV { blocks: block_put(st.blocks, k, BlockV { announced: true, ..b }), ..st };
            let (s2, f2) = emit(s1, frames, "response.output_item.added"@,
                seq![("output_index"@, num(b.output_index as u64)), ("item"@, announced_item(b))]);
            match b.kind {
                PartKind::Thinking => emit(s2, f2, "response.reasoning_summary_part.added"@,
                    item_members(b, "summary_index"@).push(("part"@, summary_part(Seq::empty())))),
                PartKind::ToolUse => (s2, f2),
                _ => emit(s2, f2, "response.content_part.added"@,
                    item_members(b, "content_index"@).push(("part"@, message_part(b.kind, Seq::empty())))),
            }
        },
    }
}

/// The finished item of a block.
pub open spec fn finished_item(b: BlockV) -> JsonV {
    match b.kind {
        PartKind::ToolUse => JsonV::Object(seq![
            ("type"@, JsonV::Str("function_call"@)),
            ("id"@, JsonV::Str(b.item_id)),
            ("call_id"@, JsonV::Str(b.tool_id)),
            ("name"@, JsonV::Str(b.tool_name)),
            ("arguments"@, JsonV::Str(b.args)),
            ("status"@, JsonV::Str("completed"@)),
        ]),
        PartKind::Thinking => {
            let m = seq![
                ("type"@, JsonV::Str("reasoning"@)),
                ("id"@, JsonV::Str(b.item_id)),
                ("summary"@, JsonV::Array(seq![summary_part(b.text)])),
            ];
            JsonV::Object(match b.signature {
                Some(sig) => m.push(("encrypted_content"@, JsonV::Str(sig))),
                None => m,
            })
        },
        _ => JsonV::Object(seq![
            ("type"@, JsonV::Str("message"@)),
            ("id"@, JsonV::Str(b.item_id)),
            ("status"@, JsonV::Str("completed"@)),
            ("role"@, JsonV::Str("assistant"@)),
            ("content"@, JsonV::Array(seq![message_part(b.kind, b.text)])),
        ]),
    }
}

/// The finished items with `item` stored at slot `i` (slots in between stay empty).
pub open spec fn items_set(items: Seq<Option<JsonV>>, i: u32, item: JsonV) -> Seq<Option<JsonV>> {
    let padded = if items.len() <= i { items + Seq::new((i + 1 - items.len()) as nat, |_j: int| None::<JsonV>) } else { items };
    padded.update(i as int, Some(item))
}

/// The `.done` events of a block's content, before `output_item.done`.
pub open spec fn r_content_done(st: RespEncoderV, frames: Seq<FrameV>, b: BlockV) -> (RespEncoderV, Seq<FrameV>) {
    match b.kind {
        PartKind::ToolUse => emit(st, frames, "response.function_call_arguments.done"@, seq![
            ("item_id"@, JsonV::Str(b.item_id)),
            ("output_index"@, num(b.output_index as u64)),
            ("name"@, JsonV::Str(b.tool_name)),
            ("arguments"@, JsonV::Str(b.args)),
        ]),
        PartKind::Thinking => {
            let (s1, f1) = emit(st, frames, "response.reasoning_summary_text.done"@,
                item_members(b, "summary_index"@).push(("text"@, JsonV::Str(b.text))));
            emit(s1, f1, "response.reasoning_summary_part.done"@,
                item_members(b, "summary_index"@).push(("part"@, summary_part(b.text))))
        },
        PartKind::Refusal => {
            let (s1, f1) = emit(st, frames, "response.refusal.done"@,
                item_members(b, "content_index"@).push(("refusal"@, JsonV::Str(b.text))));
            emit(s1, f1, "response.content_part.done"@,
                item_members(b, "content_index"@).push(("part"@, message_part(b.kind, b.text))))
        },
        PartKind::Text => {
            let (s1, f1) = emit(st, frames, "response.output_text.done"@,
                item_members(b, "content_index"@).push(("text"@, JsonV::Str(b.text))).push(("logprobs"@, JsonV::Array(Seq::empty()))));
            emit(s1, f1, "response.content_part.done"@,
                item_members(b, "content_index"@).push(("part"@, message_part(b.kind, b.text))))
        },
    }
}

/// Finishes a block that was taken out: its `.done` events, `output_item.done`, and the stored item.
pub open spec fn r_finish_block(st: RespEncoderV, frames: Seq<FrameV>, b: BlockV) -> (RespEncoderV, Seq<FrameV>) {
    let (s1, f1) = r_content_done(st, frames, b);
    let item = finished_item(b);
    let (s2, f2) = emit(s1, f1, "response.output_item.done"@, seq![("output_index"@, num(b.output_index as u64)), ("item"@, item)]);
    (RespEncoderV { items: items_set(s2.items, b.output_index, item), ..s2 }, f2)
}

/// Closes block `k` if it is open, announcing it first when it never was.
pub open spec fn r_close_block(st: RespEncoderV, frames: Seq<FrameV>, k: u32) -> (RespEncoderV, Seq<FrameV>) {
    match block_get(st.blocks, k) {
        None => (st, frames),
        Some(_) => {
            let (s1, f1) = r_announce(st, frames, k);
            match block_get(s1.blocks, k) {
                Some(b) => r_finish_block(RespEncoderV { blocks: s1.blocks.remove(block_pos(s1.blocks, k)), ..s1 }, f1, b),
                None => (s1, f1),
            }
        },
    }
}

/// Closes the blocks `keys`, in order.
pub open spec fn r_close_keys(st: RespEncoderV, frames: Seq<FrameV>, keys: Seq<u32>) -> (RespEncoderV, Seq<FrameV>)
    decreases keys.len(),
{
    if keys.len() == 0 {
        (st, frames)
    } else {
        let (s1, f1) = r_close_block(st, frames, keys[0]);
        r_close_keys(s1, f1, keys.subrange(1, keys.len() as int))
    }
}

/// The indices of the open blocks, in order.
pub open spec fn block_keys(bs: Seq<(u32, BlockV)>) -> Seq<u32> {
    bs.map_values(|e: (u32, BlockV)| e.0)
}

/// Opens block `k` as `kind` (closing a block of another kind there first);
/// blocks other than tool calls are announced at once.
pub open spec fn r_ensure_block(st: RespEncoderV, frames: Seq<FrameV>, k: u32, kind: PartKind, fresh_id: Seq<char>, now: i64) -> (RespEncoderV, Seq<FrameV>) {
    let (s1, f1) = r_ensure_started(st, frames, fresh_id, now);
    match block_get(s1.blocks, k) {
        Some(b) => if b.kind == kind {
            (s1, f1)
        } else {
            let (s2, f2) = r_close_block(s1, f1, k);
            r_create_block(s2, f2, k, kind)
        },
        None => r_create_block(s1, f1, k, kind),
    }
}

/// Adds a new block `k` of `kind` in index order; blocks other than tool calls are announced at once.
pub open spec fn r_create_block(st: RespEncoderV, frames: Seq<FrameV>, k: u32, kind: PartKind) -> (RespEncoderV, Seq<FrameV>) {
    let b = new_block(st, kind);
    let s1 = RespEncoderV {
        next_output_index: wrap_inc(st.next_output_index),
        blocks: st.blocks.insert(insert_pos(st.blocks, k), (k, b)),
        ..st
    };
    if kind != PartKind::ToolUse { r_announce(s1, frames, k) } else { (s1, frames) }
}

/// Ends the stream once: start if needed, close every block, then the final response event.
pub open spec fn r_terminate(st: RespEncoderV, frames: Seq<FrameV>, fresh_id: Seq<char>, now: i64) -> (RespEncoderV, Seq<FrameV>) {
    if st.finished {
        (st, frames)
    } else {
        let (s1, f1) = r_ensure_started(st, frames, fresh_id, now);
        let (s2, f2) = r_close_keys(s1, f1, block_keys(s1.blocks));
        let s3 = RespEncoderV { finished: true, ..s2 };
        let reason = match s3.stop_reason {
            Some(r) => r,
            None => StopReason::Stop,
        };
        let status = spec_status_str(reason);
        let event = if status == "incomplete"@ { "response.incomplete"@ } else { "response.completed"@ };
        emit(s3, f2, event, seq![("response"@, snapshot(s3, status, true))])
    }
}

/// A text-like increment: the block is opened, its text grows, and the delta event is emitted.
pub open spec fn r_text_delta(st: RespEncoderV, k: u32, kind: PartKind, text: Seq<char>, fresh_id: Seq<char>, now: i64) -> (RespEncoderV, Seq<FrameV>) {
    let (s1, f1) = r_ensure_block(st, Seq::empty(), k, kind, fresh_id, now);
    match block_get(s1.blocks, k) {
        None => (s1, f1),
        Some(b) => {
            let s2 = RespEncoderV { blocks: block_put(s1.blocks, k, BlockV { text: b.text + text, ..b }), ..s1 };
            match kind {
                PartKind::Thinking => emit(s2, f1, "response.reasoning_summary_text.delta"@,
                    item_members(b, "summary_index"@).push(("delta"@, JsonV::Str(text)))),
                PartKind::Refusal => emit(s2, f1, "response.refusal.delta"@,
                    item_members(b, "content_index"@).push(("delta"@, JsonV::Str(text)))),
                _ => emit(s2, f1, "response.output_text.delta"@,
                    item_members(b, "content_index"@).push(("delta"@, JsonV::Str(text))).push(("logprobs"@, JsonV::Array(Seq::empty())))),
            }
        },
    }
}

/// Effect of one IR event on the Responses stream encoder; nothing follows the final event or an error.
pub open spec fn spec_responses_encode(st: RespEncoderV, e: EventV, fresh_id: Seq<char>, now: i64) -> (RespEncoderV, Seq<FrameV>) {
    if st.finished {
        (st, Seq::empty())
    } else {
        match e {
            EventV::Start { id, model, usage } => {
                let s1 = RespEncoderV {
                    id: if id.len() > 0 { id } else { st.id },
                    model: if model.len() > 0 { model } else { st.model },
                    usage: match usage {
                        Some(u) => usage_max(st.usage, u),
                        None => st.usage,
                    },
                    ..st
                };
                r_ensure_started(s1, Seq::empty(), fresh_id, now)
            },
            EventV::ContentStart { index, kind } => r_ensure_block(st, Seq::empty(), index, kind, fresh_id, now),
            EventV::TextDelta { index, text } => r_text_delta(st, index, PartKind::Text, text, fresh_id, now),
            EventV::RefusalDelta { index, text } => r_text_delta(st, index, PartKind::Refusal, text, fresh_id, now),
            EventV::ThinkingDelta { index, text } => r_text_delta(st, index, PartKind::Thinking, text, fresh_id, now),
            EventV::ThinkingSignature { index, signature } => {
                let (s1, f1) = r_ensure_block(st, Seq::empty(), index, PartKind::Thinking, fresh_id, now);
                match block_get(s1.blocks, index) {
                    Some(b) => (RespEncoderV { blocks: block_put(s1.blocks, index, BlockV { signature: Some(signature), ..b }), ..s1 }, f1),
                    None => (s1, f1),
                }
            },
            EventV::ToolCallStart { index, id, name, .. } => {
                let (s1, f1) = r_ensure_block(st, Seq::empty(), index, PartKind::ToolUse, fresh_id, now);
                let s2 = match block_get(s1.blocks, index) {
                    Some(b) => RespEncoderV {
                        blocks: block_put(s1.blocks, index, BlockV {
                            tool_id: if id.len() > 0 { id } else { b.tool_id },
                            tool_name: if name.len() > 0 { name } else { b.tool_name },
                            ..b
                        }),
                        ..s1
                    },
                    None => s1,
                };
                r_announce(s2, f1, index)
            },
            EventV::ToolCallArgsDelta { index, fragment } => {
                let (s1, f1) = r_ensure_block(st, Seq::empty(), index, PartKind::ToolUse, fresh_id, now);
                let (s2, f2) = r_announce(s1, f1, index);
                match block_get(s2.blocks, index) {
                    None => (s2, f2),
                    Some(b) => {
                        let s3 = RespEncoderV { blocks: block_put(s2.blocks, index, BlockV { args: b.args + fragment, ..b }), ..s2 };
                        emit(s3, f2, "response.function_call_arguments.delta"@, seq![
                            ("item_id"@, JsonV::Str(b.item_id)),
                            ("output_index"@, num(b.output_index as u64)),
                            ("delta"@, JsonV::Str(fragment)),
                        ])
                    },
                }
            },
            EventV::ContentStop { index } => r_close_block(st, Seq::empty(), index),
            EventV::Usage(u) => (RespEncoderV { usage: usage_max(st.usage, u), ..st }, Seq::empty()),
            EventV::Stop { reason, .. } => (RespEncoderV { stop_reason: Some(reason), ..st }, Seq::empty()),
            EventV::Done => r_terminate(st, Seq::empty(), fresh_id, now),
            EventV::Error { message, kind } => {
                let (s1, f1) = r_ensure_started(st, Seq::empty(), fresh_id, now);
                let (s2, f2) = emit(s1, f1, "error"@, seq![
                    ("code"@, JsonV::Str(kind)),
                    ("message"@, JsonV::Str(message)),
                    ("param"@, JsonV::Null),
                ]);
                (RespEncoderV { finished: true, ..s2 }, f2)
            },
            EventV::Ping => (st, Seq::empty()),
        }
    }
}

/// Effect of the end of the input: a started stream that did not end is ended.
pub open spec fn spec_responses_encode_finish(st: RespEncoderV, fresh_id: Seq<char>, now: i64) -> (RespEncoderV, Seq<FrameV>) {
    if !st.finished && st.started {
        r_terminate(st, Seq::empty(), fresh_id, now)
    } else {
        (st, Seq::empty())
    }
}


/// One item being streamed.
struct OpenBlock {
    output_index: u32,
    item_id: String,
    kind: PartKind,
    announced: bool,
    text: String,
    signature: Option<String>,
    tool_id: String,
    tool_name: String,
    args: String,
}

impl View for OpenBlock {
    type V = BlockV;

    closed spec fn view(&self) -> BlockV {
        BlockV {
            output_index: self.output_index,
            item_id: self.item_id@,
            kind: self.kind,
            announced: self.announced,
            text: self.text@,
            signature: ov(self.signature),
            tool_id: self.tool_id@,
            tool_name: self.tool_name@,
            args: self.args@,
        }
    }
}

impl OpenBlock {
    fn duplicate(&self) -> (res: OpenBlock)
        ensures
            res@ == self@,
    {
        OpenBlock {
            output_index: self.output_index,
            item_id: owned(self.item_id.as_str()),
            kind: self.kind,
            announced: self.announced,
            text: owned(self.text.as_str()),
            signature: match &self.signature {
                Some(s) => Some(owned(s.as_str())),
                None => None,
            },
            tool_id: owned(self.tool_id.as_str()),
            tool_name: owned(self.tool_name.as_str()),
            args: owned(self.args.as_str()),
        }
    }
}

spec fn bview(s: Seq<(u32, OpenBlock)>) -> Seq<(u32, BlockV)> {
    s.map_values(|e: (u32, OpenBlock)| (e.0, e.1@))
}

spec fn iview(s: Seq<Option<Json>>) -> Seq<Option<JsonV>> {
    s.map_values(|o: Option<Json>| match o {
        Some(j) => Some(j@),
        None => None,
    })
}

/// Stateful Responses stream encoder.
///
/// Produces the full Responses event sequence from any IR stream: the opening
/// events, `output_item.added` before any delta (synthesized when the IR
/// stream skipped its `ContentStart`), the `.done` events of every item, and a
/// final response object with usage. Every frame carries the next
/// `sequence_number`.
pub struct ResponsesStreamEncoder {
    seq: u64,
    id: String,
    model: String,
    created: i64,
    started: bool,
    finished: bool,
    blocks: Vec<(u32, OpenBlock)>,
    next_output_index: u32,
    items: Vec<Option<Json>>,
    usage: Usage,
    stop_reason: Option<StopReason>,
}

impl View for ResponsesStreamEncoder {
    type V = RespEncoderV;

    closed spec fn view(&self) -> RespEncoderV {
        RespEncoderV {
            seq: self.seq,
            id: self.id@,
            model: self.model@,
            created: self.created,
            started: self.started,
            finished: self.finished,
            blocks: bview(self.blocks@),
            next_output_index: self.next_output_index,
            items: iview(self.items@),
            usage: self.usage,
            stop_reason: self.stop_reason,
        }
    }
}

fn flatten_exec(items: &Vec<Option<Json>>) -> (res: Vec<Json>)
    ensures
        items_view(res@) == flatten_items(iview(items@)),
{
    let ghost its = iview(items@);
    let mut out: Vec<Json> = Vec::new();
    let mut i: usize = 0;
    proof {
        lemma_items_view(out@);
        assert(its.subrange(0, 0) =~= Seq::<Option<JsonV>>::empty());
    }
    while i < items.len()
        invariant
            i <= items.len(),
            its == iview(items@),
            items_view(out@) == flatten_items(its.subrange(0, i as int)),
        decreases items.len() - i,
    {
        assert(its.subrange(0, i + 1).drop_last() =~= its.subrange(0, i as int));
        match &items[i] {
            Some(j) => {
                let ghost o = out@;
                out.push(j.duplicate());
                proof {
                    assert(out@.drop_last() =~= o);
                }
            },
            None => {},
        }
        i = i + 1;
    }
    assert(its.subrange(0, items.len() as int) =~= its);
    out
}

fn output_text_of_parts_exec(parts: &Vec<Json>) -> (res: String)
    ensures
        res@ == output_text_of_parts(items_view(parts@)),
{
    proof {
        lemma_items_view(parts@);
        reveal_strlit("");
        assert(""@ =~= Seq::<char>::empty());
    }
    let ghost ps = items_view(parts@);
    let mut out = String::new();
    let mut i: usize = 0;
    while i < parts.len()
        invariant
            i <= parts.len(),
            ps == items_view(parts@),
            ps.len() == parts.len(),
            forall|k: int| 0 <= k < parts.len() ==> #[trigger] ps[k] == parts@[k]@,
            out@ == output_text_of_parts(ps.subrange(0, i as int)),
        decreases parts.len() - i,
    {
        assert(ps.subrange(0, i + 1).drop_last() =~= ps.subrange(0, i as int));
        proof {
            reveal_strlit("");
            assert(""@ =~= Seq::<char>::empty());
        }
        let p = &parts[i];
        let is_text = match p.get_str("type") {
            Some(t) => text_eq(t, "output_text"),
            None => false,
        };
        let t: &str = if is_text {
            match p.get_str("text") {
                Some(t) => t,
                None => "",
            }
        } else {
            ""
        };
        out = concat(out.as_str(), t);
        i = i + 1;
    }
    assert(ps.subrange(0, parts.len() as int) =~= ps);
    out
}

fn output_text_exec(items: &Vec<Json>) -> (res: String)
    ensures
        res@ == output_text(items_view(items@)),
{
    proof {
        lemma_items_view(items@);
    }
    let ghost its = items_view(items@);
    let mut out = String::new();
    let mut i: usize = 0;
    while i < items.len()
        invariant
            i <= items.len(),
            its == items_view(items@),
            its.len() == items.len(),
            forall|k: int| 0 <= k < items.len() ==> #[trigger] its[k] == items@[k]@,
            out@ == output_text(its.subrange(0, i as int)),
        decreases items.len() - i,
    {
        assert(its.subrange(0, i + 1).drop_last() =~= its.subrange(0, i as int));
        let item = &items[i];
        let is_message = match item.get_str("type") {
            Some(t) => text_eq(t, "message"),
            None => false,
        };
        if is_message {
            match item.get("content") {
                Some(Json::Array(parts)) => {
                    let t = output_text_of_parts_exec(parts);
                    out = concat(out.as_str(), t.as_str());
                },
                _ => {
                    out = concat(out.as_str(), "");
                    proof {
                        reveal_strlit("");
                    }
                },
            }
        } else {
            out = concat(out.as_str(), "");
            proof {
                reveal_strlit("");
            }
        }
        i = i + 1;
    }
    assert(its.subrange(0, items.len() as int) =~= its);
    out
}

fn part_json(kind: PartKind, text: &str) -> (res: Json)
    ensures
        res@ == message_part(kind, text@),
{
    if kind == PartKind::Refusal {
        pair_object("type", str_json("refusal"), "refusal", str_json(text))
    } else {
        triple_object("type", str_json("output_text"), "text", str_json(text), "annotations", Json::Array(Vec::new()))
    }
}

fn summary_json(text: &str) -> (res: Json)
    ensures
        res@ == summary_part(text@),
{
    pair_object("type", str_json("summary_text"), "text", str_json(text))
}

fn item_members_exec(b: &OpenBlock, key: &str) -> (res: Vec<(String, Json)>)
    ensures
        members_view(res@) == item_members(b@, key@),
{
    let mut m: Vec<(String, Json)> = Vec::new();
    push_member(&mut m, "item_id", str_json(b.item_id.as_str()));
    push_member(&mut m, "output_index", Json::uint(b.output_index as u64));
    push_member(&mut m, key, Json::uint(0));
    assert(members_view(m@) =~= item_members(b@, key@));
    m
}

fn announced_item_exec(b: &OpenBlock) -> (res: Json)
    ensures
        res@ == announced_item(b@),
{
    let mut m: Vec<(String, Json)> = Vec::new();
    match b.kind {
        PartKind::ToolUse => {
            push_member(&mut m, "type", str_json("function_call"));
            push_member(&mut m, "id", str_json(b.item_id.as_str()));
            push_member(&mut m, "call_id", str_json(b.tool_id.as_str()));
            push_member(&mut m, "name", str_json(b.tool_name.as_str()));
            push_member(&mut m, "arguments", Json::Str(String::new()));
            push_member(&mut m, "status", str_json("in_progress"));
        },
        PartKind::Thinking => {
            push_member(&mut m, "type", str_json("reasoning"));
            push_member(&mut m, "id", str_json(b.item_id.as_str()));
            push_member(&mut m, "summary", Json::Array(Vec::new()));
        },
        _ => {
            push_member(&mut m, "type", str_json("message"));
            push_member(&mut m, "id", str_json(b.item_id.as_str()));
            push_member(&mut m, "status", str_json("in_progress"));
            push_member(&mut m, "role", str_json("assistant"));
            push_member(&mut m, "content", Json::Array(Vec::new()));
        },
    }
    proof {
        lemma_items_view(Seq::<Json>::empty());
        assert(members_view(m@) =~= announced_item(b@)->Object_0);
    }
    Json::object(m)
}

fn finished_item_exec(b: &OpenBlock) -> (res: Json)
    ensures
        res@ == finished_item(b@),
{
    let mut m: Vec<(String, Json)> = Vec::new();
    match b.kind {
        PartKind::ToolUse => {
            push_member(&mut m, "type", str_json("function_call"));
            push_member(&mut m, "id", str_json(b.item_id.as_str()));
            push_member(&mut m, "call_id", str_json(b.tool_id.as_str()));
            push_member(&mut m, "name", str_json(b.tool_name.as_str()));
            push_member(&mut m, "arguments", str_json(b.args.as_str()));
            push_member(&mut m, "status", str_json("completed"));
        },
        PartKind::Thinking => {
            push_member(&mut m, "type", str_json("reasoning"));
            push_member(&mut m, "id", str_json(b.item_id.as_str()));
            let mut summary: Vec<Json> = Vec::new();
            summary.push(summary_json(b.text.as_str()));
            proof {
                lemma_items_view(summary@);
                assert(items_view(summary@) =~= seq![summary_part(b.text@)]);
            }
            push_member(&mut m, "summary", Json::Array(summary));
            if let Some(sig) = &b.signature {
                push_member(&mut m, "encrypted_content", str_json(sig.as_str()));
            }
        },
        _ => {
            push_member(&mut m, "type", str_json("message"));
            push_member(&mut m, "id", str_json(b.item_id.as_str()));
            push_member(&mut m, "status", str_json("completed"));
            push_member(&mut m, "role", str_json("assistant"));
            let mut content: Vec<Json> = Vec::new();
            content.push(part_json(b.kind, b.text.as_str()));
            proof {
                lemma_items_view(content@);
                assert(items_view(content@) =~= seq![message_part(b.kind, b.text@)]);
            }
            push_member(&mut m, "content", Json::Array(content));
        },
    }
    proof {
        assert(members_view(m@) =~= finished_item(b@)->Object_0);
    }
    Json::object(m)
}

impl ResponsesStreamEncoder {
    /// An encoder before any event.
    pub fn new() -> (res: ResponsesStreamEncoder)
        ensures
            res@ == initial_resp_encoder(),
    {
        let res = ResponsesStreamEncoder {
            seq: 0,
            id: String::new(),
            model: String::new(),
            created: 0,
            started: false,
            finished: false,
            blocks: Vec::new(),
            next_output_index: 0,
            items: Vec::new(),
            usage: Usage::zero(),
            stop_reason: None,
        };
        assert(bview(res.blocks@) =~= Seq::<(u32, BlockV)>::empty());
        assert(iview(res.items@) =~= Seq::<Option<JsonV>>::empty());
        res
    }

    fn emit(&mut self, event: &str, members: Vec<(String, Json)>, out: &mut Vec<SseFrame>)
        ensures
            (final(self)@, frs(final(out)@)) == emit(old(self)@, frs(old(out)@), event@, members_view(members@)),
    {
        let n = self.seq;
        self.seq = if n == u64::MAX { 0 } else { n + 1 };
        let mut m = members;
        let ghost m0 = members_view(m@);
        push_member(&mut m, "type", str_json(event));
        push_member(&mut m, "sequence_number", Json::uint(n));
        assert(members_view(m@) =~= m0 + seq![("type"@, JsonV::Str(event@)), ("sequence_number"@, num(n))]);
        let payload = Json::object(m);
        push_frame(out, named_frame(event, &payload));
    }

    fn snapshot(&self, status: &str, terminal: bool) -> (res: Json)
        ensures
            res@ == snapshot(self@, status@, terminal),
    {
        let output: Vec<Json> = if terminal { flatten_exec(&self.items) } else { Vec::new() };
        proof {
            lemma_items_view(output@);
            if !terminal {
                assert(items_view(output@) =~= Seq::<JsonV>::empty());
            }
        }
        let text = output_text_exec(&output);
        let mut m: Vec<(String, Json)> = Vec::new();
        push_member(&mut m, "id", str_json(self.id.as_str()));
        push_member(&mut m, "object", str_json("response"));
        push_member(&mut m, "created_at", int_json_exec(self.created));
        push_member(&mut m, "model", str_json(self.model.as_str()));
        push_member(&mut m, "status", str_json(status));
        push_member(&mut m, "output", Json::Array(output));
        push_member(&mut m, "output_text", str_json(text.as_str()));
        push_member(&mut m, "parallel_tool_calls", Json::boolean(true));
        push_member(&mut m, "tool_choice", str_json("auto"));
        push_member(&mut m, "tools", Json::Array(Vec::new()));
        push_member(&mut m, "error", Json::Null);
        push_member(&mut m, "incomplete_details", incomplete_details_exec(self.stop_reason));
        push_member(&mut m, "usage", if terminal { encode_usage(&self.usage) } else { Json::Null });
        proof {
            lemma_items_view(Seq::<Json>::empty());
            assert(members_view(m@) =~= snapshot(self@, status@, terminal)->Object_0);
        }
        Json::object(m)
    }

    fn ensure_started(&mut self, out: &mut Vec<SseFrame>, fresh_id: &str, now: i64)
        ensures
            (final(self)@, frs(final(out)@)) == r_ensure_started(old(self)@, frs(old(out)@), fresh_id@, now),
    {
        if self.started {
            return;
        }
        self.started = true;
        if self.id.as_str().unicode_len() == 0 {
            self.id = owned(fresh_id);
        }
        if self.created == 0 {
            self.created = now;
        }
        let snap = self.snapshot("in_progress", false);
        let mut p1: Vec<(String, Json)> = Vec::new();
        push_member(&mut p1, "response", snap.duplicate());
        assert(members_view(p1@) =~= seq![("response"@, snap@)]);
        self.emit("response.created", p1, out);
        let mut p2: Vec<(String, Json)> = Vec::new();
        push_member(&mut p2, "response", snap);
        assert(members_view(p2@) =~= seq![("response"@, snap@)]);
        self.emit("response.in_progress", p2, out);
    }

    fn block_pos(&self, k: u32) -> (res: Option<usize>)
        ensures
            match res {
                Some(p) => block_pos(self@.blocks, k) == p && p < self.blocks.len(),
                None => block_pos(self@.blocks, k) == -1,
            },
    {
        let ghost bs = self@.blocks;
        let mut i: usize = self.blocks.len();
        assert(bs.subrange(0, i as int) =~= bs);
        while i > 0
            invariant
                i <= self.blocks.len(),
                bs == bview(self.blocks@),
                bs.len() == self.blocks.len(),
                block_pos(bs, k) == block_pos(bs.subrange(0, i as int), k),
            decreases i,
        {
            assert(bs.subrange(0, i as int).drop_last() =~= bs.subrange(0, i - 1));
            if self.blocks[i - 1].0 == k {
                return Some(i - 1);
            }
            i = i - 1;
        }
        None
    }

    fn put_block(&mut self, p: usize, k: u32, b: OpenBlock)
        requires
            p < old(self).blocks.len(),
            block_pos(old(self)@.blocks, k) == p,
        ensures
            final(self)@ == (RespEncoderV { blocks: block_put(old(self)@.blocks, k, b@), ..old(self)@ }),
    {
        let ghost b0 = self.blocks@;
        self.blocks.set(p, (k, b));
        assert(bview(self.blocks@) =~= bview(b0).update(p as int, (k, b@)));
    }

    fn announce(&mut self, out: &mut Vec<SseFrame>, k: u32)
        ensures
            (final(self)@, frs(final(out)@)) == r_announce(old(self)@, frs(old(out)@), k),
    {
        proof {
            lemma_block_pos(self@.blocks, k);
        }
        let p = match self.block_pos(k) {
            Some(p) => p,
            None => return,
        };
        if self.blocks[p].1.announced {
            return;
        }
        let b = self.blocks[p].1.duplicate();
        let mut nb = b.duplicate();
        nb.announced = true;
        self.put_block(p, k, nb);
        let mut m: Vec<(String, Json)> = Vec::new();
        push_member(&mut m, "output_index", Json::uint(b.output_index as u64));
        push_member(&mut m, "item", announced_item_exec(&b));
        assert(members_view(m@) =~= seq![("output_index"@, num(b.output_index as u64)), ("item"@, announced_item(b@))]);
        self.emit("response.output_item.added", m, out);
        match b.kind {
            PartKind::Thinking => {
                let mut m2 = item_members_exec(&b, "summary_index");
                push_member(&mut m2, "part", summary_json(""));
                proof {
                    reveal_strlit("");
                    assert(""@ =~= Seq::<char>::empty());
                }
                self.emit("response.reasoning_summary_part.added", m2, out);
            },
            PartKind::ToolUse => {},
            _ => {
                let mut m2 = item_members_exec(&b, "content_index");
                push_member(&mut m2, "part", part_json(b.kind, ""));
                proof {
                    reveal_strlit("");
                    assert(""@ =~= Seq::<char>::empty());
                }
                self.emit("response.content_part.added", m2, out);
            },
        }
    }

    fn content_done(&mut self, out: &mut Vec<SseFrame>, b: &OpenBlock)
        ensures
            (final(self)@, frs(final(out)@)) == r_content_done(old(self)@, frs(old(out)@), b@),
    {
        match b.kind {
            PartKind::ToolUse => {
                let mut m: Vec<(String, Json)> = Vec::new();
                push_member(&mut m, "item_id", str_json(b.item_id.as_str()));
                push_member(&mut m, "output_index", Json::uint(b.output_index as u64));
                push_member(&mut m, "name", str_json(b.tool_name.as_str()));
                push_member(&mut m, "arguments", str_json(b.args.as_str()));
                assert(members_view(m@) =~= seq![
                    ("item_id"@, JsonV::Str(b.item_id@)),
                    ("output_index"@, num(b.output_index as u64)),
                    ("name"@, JsonV::Str(b.tool_name@)),
                    ("arguments"@, JsonV::Str(b.args@)),
                ]);
                self.emit("response.function_call_arguments.done", m, out);
            },
            PartKind::Thinking => {
                let mut m = item_members_exec(b, "summary_index");
                push_member(&mut m, "text", str_json(b.text.as_str()));
                self.emit("response.reasoning_summary_text.done", m, out);
                let mut m2 = item_members_exec(b, "summary_index");
                push_member(&mut m2, "part", summary_json(b.text.as_str()));
                self.emit("response.reasoning_summary_part.done", m2, out);
            },
            PartKind::Refusal => {
                let mut m = item_members_exec(b, "content_index");
                push_member(&mut m, "refusal", str_json(b.text.as_str()));
                self.emit("response.refusal.done", m, out);
                let mut m2 = item_members_exec(b, "content_index");
                push_member(&mut m2, "part", part_json(b.kind, b.text.as_str()));
                self.emit("response.content_part.done", m2, out);
            },
            PartKind::Text => {
                let mut m = item_members_exec(b, "content_index");
                push_member(&mut m, "text", str_json(b.text.as_str()));
                proof {
                    lemma_items_view(Seq::<Json>::empty());
                }
                push_member(&mut m, "logprobs", Json::Array(Vec::new()));
                self.emit("response.output_text.done", m, out);
                let mut m2 = item_members_exec(b, "content_index");
                push_member(&mut m2, "part", part_json(b.kind, b.text.as_str()));
                self.emit("response.content_part.done", m2, out);
            },
        }
    }

    fn store_item(&mut self, i: u32, item: Json)
        ensures
            final(self)@ == (RespEncoderV { items: items_set(old(self)@.items, i, item@), ..old(self)@ }),
    {
        let mut items: Vec<Option<Json>> = Vec::new();
        std::mem::swap(&mut items, &mut self.items);
        let ghost it0 = iview(items@);
        let slot = i as usize;
        while items.len() <= slot
            invariant
                items.len() >= it0.len(),
                iview(items@).len() == items.len(),
                forall|k: int| 0 <= k < it0.len() ==> #[trigger] iview(items@)[k] == it0[k],
                forall|k: int| it0.len() <= k < items.len() ==> #[trigger] iview(items@)[k] == None::<JsonV>,
                it0.len() <= slot ==> items.len() <= slot + 1,
                it0.len() > slot ==> items.len() == it0.len(),
            decreases slot + 1 - items.len(),
        {
            let ghost before = items@;
            items.push(None);
            assert(iview(items@) =~= iview(before).push(None::<JsonV>));
        }
        let ghost padded = iview(items@);
        let ghost iv = item@;
        items.set(slot, Some(item));
        proof {
            if it0.len() <= i {
                assert(padded =~= it0 + Seq::new((i + 1 - it0.len()) as nat, |_j: int| None::<JsonV>));
            } else {
                assert(padded =~= it0);
            }
            assert(iview(items@) =~= padded.update(i as int, Some(iv)));
        }
        self.items = items;
    }

    fn finish_block(&mut self, out: &mut Vec<SseFrame>, b: OpenBlock)
        ensures
            (final(self)@, frs(final(out)@)) == r_finish_block(old(self)@, frs(old(out)@), b@),
    {
        self.content_done(out, &b);
        let item = finished_item_exec(&b);
        let mut m: Vec<(String, Json)> = Vec::new();
        push_member(&mut m, "output_index", Json::uint(b.output_index as u64));
        push_member(&mut m, "item", item.duplicate());
        assert(members_view(m@) =~= seq![("output_index"@, num(b.output_index as u64)), ("item"@, item@)]);
        self.emit("response.output_item.done", m, out);
        self.store_item(b.output_index, item);
    }

    fn close_block(&mut self, out: &mut Vec<SseFrame>, k: u32)
        ensures
            (final(self)@, frs(final(out)@)) == r_close_block(old(self)@, frs(old(out)@), k),
    {
        proof {
            lemma_block_pos(self@.blocks, k);
        }
        if self.block_pos(k).is_none() {
            return;
        }
        self.announce(out, k);
        proof {
            lemma_block_pos(self@.blocks, k);
        }
        let p = match self.block_pos(k) {
            Some(p) => p,
            None => return,
        };
        let ghost b0 = self.blocks@;
        let (_, b) = self.blocks.remove(p);
        assert(bview(self.blocks@) =~= bview(b0).remove(p as int));
        self.finish_block(out, b);
    }

    fn close_all(&mut self, out: &mut Vec<SseFrame>)
        ensures
            (final(self)@, frs(final(out)@)) == r_close_keys(old(self)@, frs(old(out)@), block_keys(old(self)@.blocks)),
    {
        let mut keys: Vec<u32> = Vec::new();
        let mut j: usize = 0;
        while j < self.blocks.len()
            invariant
                j <= self.blocks.len(),
                keys@ == block_keys(self@.blocks).subrange(0, j as int),
            decreases self.blocks.len() - j,
        {
            keys.push(self.blocks[j].0);
            assert(keys@ =~= block_keys(self@.blocks).subrange(0, j + 1));
            j = j + 1;
        }
        assert(keys@ =~= block_keys(self@.blocks));
        let ghost target = r_close_keys(self@, frs(out@), keys@);
        let mut i: usize = 0;
        assert(keys@.subrange(0, keys.len() as int) =~= keys@);
        while i < keys.len()
            invariant
                i <= keys.len(),
                r_close_keys(self@, frs(out@), keys@.subrange(i as int, keys.len() as int)) == target,
            decreases keys.len() - i,
        {
            assert(keys@.subrange(i as int, keys.len() as int).subrange(1, keys.len() - i) =~= keys@.subrange(i + 1, keys.len() as int));
            self.close_block(out, keys[i]);
            i = i + 1;
        }
    }

    fn ensure_block(&mut self, out: &mut Vec<SseFrame>, k: u32, kind: PartKind, fresh_id: &str, now: i64)
        ensures
            (final(self)@, frs(final(out)@)) == r_ensure_block(old(self)@, frs(old(out)@), k, kind, fresh_id@, now),
    {
        self.ensure_started(out, fresh_id, now);
        proof {
            lemma_block_pos(self@.blocks, k);
        }
        match self.block_pos(k) {
            Some(p) => {
                assert(bview(self.blocks@)[p as int] == (self.blocks@[p as int].0, self.blocks@[p as int].1@));
                if self.blocks[p].1.kind == kind {
                    return;
                }
                self.close_block(out, k);
            },
            None => {},
        }
        self.create_block(out, k, kind);
    }

    fn create_block(&mut self, out: &mut Vec<SseFrame>, k: u32, kind: PartKind)
        ensures
            (final(self)@, frs(final(out)@)) == r_create_block(old(self)@, frs(old(out)@), k, kind),
    {
        let oi = self.next_output_index;
        let prefix: &str = match kind {
            PartKind::ToolUse => "fc",
            PartKind::Thinking => "rs",
            _ => "msg",
        };
        let head = concat(concat(concat(prefix, "_").as_str(), self.id.as_str()).as_str(), "_");
        let item_id = concat(head.as_str(), decimal_text(oi as u64).as_str());
        let b = OpenBlock {
            output_index: oi,
            item_id,
            kind,
            announced: false,
            text: String::new(),
            signature: None,
            tool_id: String::new(),
            tool_name: String::new(),
            args: String::new(),
        };
        proof {
            assert(b@ == new_block(self@, kind));
            lemma_block_pos(self@.blocks, k);
        }
        self.next_output_index = next_u32(oi);
        let mut pos: usize = self.blocks.len();
        let ghost bs = self@.blocks;
        assert(bs.subrange(0, pos as int) =~= bs);
        while pos > 0 && self.blocks[pos - 1].0 >= k
            invariant
                pos <= self.blocks.len(),
                bs == bview(self.blocks@),
                bs.len() == self.blocks.len(),
                insert_pos(bs, k) == insert_pos(bs.subrange(0, pos as int), k),
            decreases pos,
        {
            assert(bs.subrange(0, pos as int).drop_last() =~= bs.subrange(0, pos - 1));
            pos = pos - 1;
        }
        proof {
            if pos > 0 {
                assert(bs.subrange(0, pos as int).last() == bs[pos - 1]);
            }
        }
        let ghost b0 = self.blocks@;
        let ghost bv = b@;
        self.blocks.insert(pos, (k, b));
        assert(bview(self.blocks@) =~= bview(b0).insert(pos as int, (k, bv)));
        if kind != PartKind::ToolUse {
            self.announce(out, k);
        }
    }

    fn terminate(&mut self, out: &mut Vec<SseFrame>, fresh_id: &str, now: i64)
        ensures
            (final(self)@, frs(final(out)@)) == r_terminate(old(self)@, frs(old(out)@), fresh_id@, now),
    {
        if self.finished {
            return;
        }
        self.ensure_started(out, fresh_id, now);
        self.close_all(out);
        self.finished = true;
        let reason = match self.stop_reason {
            Some(r) => r,
            None => StopReason::Stop,
        };
        let status = status_str(reason);
        let event: &str = if text_eq(status, "incomplete") { "response.incomplete" } else { "response.completed" };
        let snap = self.snapshot(status, true);
        let mut m: Vec<(String, Json)> = Vec::new();
        push_member(&mut m, "response", snap);
        assert(members_view(m@) =~= seq![("response"@, snap@)]);
        self.emit(event, m, out);
    }

    fn text_delta(&mut self, k: u32, kind: PartKind, text: &str, fresh_id: &str, now: i64) -> (res: Vec<SseFrame>)
        ensures
            (final(self)@, frs(res@)) == r_text_delta(old(self)@, k, kind, text@, fresh_id@, now),
    {
        let mut out: Vec<SseFrame> = Vec::new();
        assert(frs(out@) =~= Seq::<FrameV>::empty());
        self.ensure_block(&mut out, k, kind, fresh_id, now);
        proof {
            lemma_block_pos(self@.blocks, k);
        }
        let p = match self.block_pos(k) {
            Some(p) => p,
            None => return out,
        };
        let b = self.blocks[p].1.duplicate();
        let mut nb = b.duplicate();
        nb.text = concat(b.text.as_str(), text);
        self.put_block(p, k, nb);
        match kind {
            PartKind::Thinking => {
                let mut m = item_members_exec(&b, "summary_index");
                push_member(&mut m, "delta", str_json(text));
                self.emit("response.reasoning_summary_text.delta", m, &mut out);
            },
            PartKind::Refusal => {
                let mut m = item_members_exec(&b, "content_index");
                push_member(&mut m, "delta", str_json(text));
                self.emit("response.refusal.delta", m, &mut out);
            },
            _ => {
                let mut m = item_members_exec(&b, "content_index");
                push_member(&mut m, "delta", str_json(text));
                proof {
                    lemma_items_view(Seq::<Json>::empty());
                }
                push_member(&mut m, "logprobs", Json::Array(Vec::new()));
                self.emit("response.output_text.delta", m, &mut out);
            },
        }
        out
    }

    fn start(&mut self, id: &str, model: &str, usage: Option<Usage>, fresh_id: &str, now: i64) -> (res: Vec<SseFrame>)
        ensures
            (final(self)@, frs(res@)) == r_ensure_started(RespEncoderV {
                id: if id@.len() > 0 { id@ } else { old(self)@.id },
                model: if model@.len() > 0 { model@ } else { old(self)@.model },
                usage: match usage {
                    Some(u) => usage_max(old(self)@.usage, u),
                    None => old(self)@.usage,
                },
                ..old(self)@
            }, Seq::empty(), fresh_id@, now),
    {
        let mut out: Vec<SseFrame> = Vec::new();
        assert(frs(out@) =~= Seq::<FrameV>::empty());
        if id.unicode_len() > 0 {
            self.id = owned(id);
        }
        if model.unicode_len() > 0 {
            self.model = owned(model);
        }
        if let Some(u) = usage {
            self.usage.merge_max(&u);
        }
        self.ensure_started(&mut out, fresh_id, now);
        out
    }

    fn signature(&mut self, k: u32, signature: &str, fresh_id: &str, now: i64) -> (res: Vec<SseFrame>)
        ensures
            (final(self)@, frs(res@)) == {
                let (s1, f1) = r_ensure_block(old(self)@, Seq::empty(), k, PartKind::Thinking, fresh_id@, now);
                match block_get(s1.blocks, k) {
                    Some(b) => (RespEncoderV { blocks: block_put(s1.blocks, k, BlockV { signature: Some(signature@), ..b }), ..s1 }, f1),
                    None => (s1, f1),
                }
            },
    {
        let mut out: Vec<SseFrame> = Vec::new();
        assert(frs(out@) =~= Seq::<FrameV>::empty());
        self.ensure_block(&mut out, k, PartKind::Thinking, fresh_id, now);
        proof {
            lemma_block_pos(self@.blocks, k);
        }
        if let Some(p) = self.block_pos(k) {
            let mut nb = self.blocks[p].1.duplicate();
            nb.signature = Some(owned(signature));
            self.put_block(p, k, nb);
        }
        out
    }

    fn tool_start(&mut self, k: u32, id: &str, name: &str, fresh_id: &str, now: i64) -> (res: Vec<SseFrame>)
        ensures
            (final(self)@, frs(res@)) == {
                let (s1, f1) = r_ensure_block(old(self)@, Seq::empty(), k, PartKind::ToolUse, fresh_id@, now);
                let s2 = match block_get(s1.blocks, k) {
                    Some(b) => RespEncoderV {
                        blocks: block_put(s1.blocks, k, BlockV {
                            tool_id: if id@.len() > 0 { id@ } else { b.tool_id },
                            tool_name: if name@.len() > 0 { name@ } else { b.tool_name },
                            ..b
                        }),
                        ..s1
                    },
                    None => s1,
                };
                r_announce(s2, f1, k)
            },
    {
        let mut out: Vec<SseFrame> = Vec::new();
        assert(frs(out@) =~= Seq::<FrameV>::empty());
        self.ensure_block(&mut out, k, PartKind::ToolUse, fresh_id, now);
        proof {
            lemma_block_pos(self@.blocks, k);
        }
        if let Some(p) = self.block_pos(k) {
            let mut nb = self.blocks[p].1.duplicate();
            if id.unicode_len() > 0 {
                nb.tool_id = owned(id);
            }
            if name.unicode_len() > 0 {
                nb.tool_name = owned(name);
            }
            self.put_block(p, k, nb);
        }
        self.announce(&mut out, k);
        out
    }

    fn args_delta(&mut self, k: u32, fragment: &str, fresh_id: &str, now: i64) -> (res: Vec<SseFrame>)
        ensures
            (final(self)@, frs(res@)) == {
                let (s1, f1) = r_ensure_block(old(self)@, Seq::empty(), k, PartKind::ToolUse, fresh_id@, now);
                let (s2, f2) = r_announce(s1, f1, k);
                match block_get(s2.blocks, k) {
                    None => (s2, f2),
                    Some(b) => {
                        let s3 = RespEncoderV { blocks: block_put(s2.blocks, k, BlockV { args: b.args + fragment@, ..b }), ..s2 };
                        emit(s3, f2, "response.function_call_arguments.delta"@, seq![
                            ("item_id"@, JsonV::Str(b.item_id)),
                            ("output_index"@, num(b.output_index as u64)),
                            ("delta"@, JsonV::Str(fragment@)),
                        ])
                    },
                }
            },
    {
        let mut out: Vec<SseFrame> = Vec::new();
        assert(frs(out@) =~= Seq::<FrameV>::empty());
        self.ensure_block(&mut out, k, PartKind::ToolUse, fresh_id, now);
        self.announce(&mut out, k);
        proof {
            lemma_block_pos(self@.blocks, k);
        }
        let p = match self.block_pos(k) {
            Some(p) => p,
            None => return out,
        };
        let b = self.blocks[p].1.duplicate();
        let mut nb = b.duplicate();
        nb.args = concat(b.args.as_str(), fragment);
        self.put_block(p, k, nb);
        let mut m: Vec<(String, Json)> = Vec::new();
        push_member(&mut m, "item_id", str_json(b.item_id.as_str()));
        push_member(&mut m, "output_index", Json::uint(b.output_index as u64));
        push_member(&mut m, "delta", str_json(fragment));
        assert(members_view(m@) =~= seq![
            ("item_id"@, JsonV::Str(b.item_id@)),
            ("output_index"@, num(b.output_index as u64)),
            ("delta"@, JsonV::Str(fragment@)),
        ]);
        self.emit("response.function_call_arguments.delta", m, &mut out);
        out
    }

    fn error(&mut self, message: &str, kind: &str, fresh_id: &str, now: i64) -> (res: Vec<SseFrame>)
        ensures
            (final(self)@, frs(res@)) == {
                let (s1, f1) = r_ensure_started(old(self)@, Seq::empty(), fresh_id@, now);
                let (s2, f2) = emit(s1, f1, "error"@, seq![
                    ("code"@, JsonV::Str(kind@)),
                    ("message"@, JsonV::Str(message@)),
                    ("param"@, JsonV::Null),
                ]);
                (RespEncoderV { finished: true, ..s2 }, f2)
            },
    {
        let mut out: Vec<SseFrame> = Vec::new();
        assert(frs(out@) =~= Seq::<FrameV>::empty());
        self.ensure_started(&mut out, fresh_id, now);
        let mut m: Vec<(String, Json)> = Vec::new();
        push_member(&mut m, "code", str_json(kind));
        push_member(&mut m, "message", str_json(message));
        push_member(&mut m, "param", Json::Null);
        assert(members_view(m@) =~= seq![
            ("code"@, JsonV::Str(kind@)),
            ("message"@, JsonV::Str(message@)),
            ("param"@, JsonV::Null),
        ]);
        self.emit("error", m, &mut out);
        self.finished = true;
        out
    }

    /// Encodes one IR event, with the id a stream without one gets and the current time.
    #[verifier::rlimit(40)]
    pub fn encode_with(&mut self, event: &StreamEvent, fresh_id: &str, now: i64) -> (res: Vec<SseFrame>)
        ensures
            (final(self)@, frs(res@)) == spec_responses_encode(old(self)@, event@, fresh_id@, now),
    {
        let mut out: Vec<SseFrame> = Vec::new();
        assert(frs(out@) =~= Seq::<FrameV>::empty());
        if self.finished {
            return out;
        }
        match event {
            StreamEvent::Start { id, model, usage } => self.start(id.as_str(), model.as_str(), *usage, fresh_id, now),
            StreamEvent::ContentStart { index, kind } => {
                self.ensure_block(&mut out, *index, *kind, fresh_id, now);
                out
            },
            StreamEvent::TextDelta { index, text } => self.text_delta(*index, PartKind::Text, text.as_str(), fresh_id, now),
            StreamEvent::RefusalDelta { index, text } => self.text_delta(*index, PartKind::Refusal, text.as_str(), fresh_id, now),
            StreamEvent::ThinkingDelta { index, text } => self.text_delta(*index, PartKind::Thinking, text.as_str(), fresh_id, now),
            StreamEvent::ThinkingSignature { index, signature } => self.signature(*index, signature.as_str(), fresh_id, now),
            StreamEvent::ToolCallStart { index, id, name, .. } => self.tool_start(*index, id.as_str(), name.as_str(), fresh_id, now),
            StreamEvent::ToolCallArgsDelta { index, fragment } => self.args_delta(*index, fragment.as_str(), fresh_id, now),
            StreamEvent::ContentStop { index } => {
                self.close_block(&mut out, *index);
                out
            },
            StreamEvent::Usage(u) => {
                self.usage.merge_max(u);
                out
            },
            StreamEvent::Stop { reason, .. } => {
                self.stop_reason = Some(*reason);
                out
            },
            StreamEvent::Done => {
                self.terminate(&mut out, fresh_id, now);
                out
            },
            StreamEvent::Error { message, kind } => self.error(message.as_str(), kind.as_str(), fresh_id, now),
            StreamEvent::Ping => out,
        }
    }

    /// Encodes one IR event; a stream without id gets `resp_` and a random UUID, a
    /// stream without creation time gets the current time.
    pub fn encode(&mut self, event: &StreamEvent) -> (res: Vec<SseFrame>)
        ensures
            exists|u: Seq<char>, now: i64| uuid_hex(u)
                && (final(self)@, frs(res@)) == #[trigger] spec_responses_encode(old(self)@, event@, "resp_"@ + u, now),
    {
        let u = random_uuid_hex();
        let fresh_id = concat("resp_", u.as_str());
        let now = now_unix_seconds();
        self.encode_with(event, fresh_id.as_str(), now)
    }

    /// Ends the stream with the given id and time for a stream that has none.
    pub fn finish_with(&mut self, fresh_id: &str, now: i64) -> (res: Vec<SseFrame>)
        ensures
            (final(self)@, frs(res@)) == spec_responses_encode_finish(old(self)@, fresh_id@, now),
    {
        let mut out: Vec<SseFrame> = Vec::new();
        assert(frs(out@) =~= Seq::<FrameV>::empty());
        if !self.finished && self.started {
            self.terminate(&mut out, fresh_id, now);
        }
        out
    }

    /// Ends a started stream that did not end.
    pub fn finish(&mut self) -> (res: Vec<SseFrame>)
        ensures
            exists|u: Seq<char>, now: i64| uuid_hex(u)
                && (final(self)@, frs(res@)) == #[trigger] spec_responses_encode_finish(old(self)@, "resp_"@ + u, now),
    {
        let u = random_uuid_hex();
        let fresh_id = concat("resp_", u.as_str());
        let now = now_unix_seconds();
        self.finish_with(fresh_id.as_str(), now)
    }
}


impl ResponsesCodec {
    /// The protocol this codec speaks.
    pub fn protocol(&self) -> (res: Protocol)
        ensures
            res == Protocol::Responses,
    {
        Protocol::Responses
    }
}


// ---------------------------------------------------------------------------
// Request decoding
// ---------------------------------------------------------------------------

/// Whether a part type is text in one of its spellings.
pub open spec fn is_text_type(t: Seq<char>) -> bool {
    t == "input_text"@ || t == "output_text"@ || t == "text"@ || t == "summary_text"@
}

/// The `detail` of an image, with the default `auto` left out.
pub open spec fn image_detail(p: JsonV) -> Option<Seq<char>> {
    match opt_str(p.get("detail"@)) {
        Some(d) => if d == "auto"@ { None } else { Some(d) },
        None => None,
    }
}

/// One content part of an item as an IR part; `None` for a part this codec does not model.
pub open spec fn spec_decode_content_part(p: JsonV) -> Option<PartV> {
    match p {
        JsonV::Object(_) => {
            let t = text_or_empty_of(p, "type"@);
            if is_text_type(t) {
                Some(PartV::Text { text: text_or_empty_of(p, "text"@) })
            } else if t == "input_image"@ || t == "image"@ {
                match opt_str(p.get("file_id"@)) {
                    Some(id) => Some(PartV::Image { source: SourceV::FileId(id), mime: None, detail: image_detail(p) }),
                    None => match opt_str(p.get("image_url"@)) {
                        Some(url) => Some(PartV::Image {
                            source: spec_parse_data_uri(url).0,
                            mime: spec_parse_data_uri(url).1,
                            detail: image_detail(p),
                        }),
                        None => None,
                    },
                }
            } else if t == "input_file"@ || t == "file"@ {
                let name = opt_str(p.get("filename"@));
                match opt_str(p.get("file_data"@)) {
                    Some(d) => Some(PartV::File { source: spec_parse_data_uri(d).0, mime: spec_parse_data_uri(d).1, name }),
                    None => match opt_str(p.get("file_id"@)) {
                        Some(id) => Some(PartV::File { source: SourceV::FileId(id), mime: None, name }),
                        None => match opt_str(p.get("file_url"@)) {
                            Some(u) => Some(PartV::File { source: SourceV::Url(u), mime: None, name }),
                            None => None,
                        },
                    },
                }
            } else if t == "input_audio"@ || t == "audio"@ {
                let inner = match p.get("input_audio"@) {
                    Some(i) => i,
                    None => p,
                };
                match opt_str(inner.get("data"@)) {
                    Some(d) => Some(PartV::Audio { source: spec_parse_data_uri(d).0, format: opt_str(inner.get("format"@)) }),
                    None => None,
                }
            } else if t == "refusal"@ {
                Some(PartV::Refusal { text: text_or_empty_of(p, "refusal"@) })
            } else {
                None
            }
        },
        _ => None,
    }
}

fn image_detail_exec(p: &Json) -> (res: Option<String>)
    ensures
        ov(res) == image_detail(p@),
{
    match p.get_str("detail") {
        Some(d) => if text_eq(d, "auto") { None } else { Some(owned(d)) },
        None => None,
    }
}

fn decode_content_part(p: &Json) -> (res: Option<ContentPart>)
    ensures
        spec_decode_content_part(p@) == match res {
            Some(x) => Some(x@),
            None => None,
        },
{
    if !p.is_object() {
        return None;
    }
    let t = match p.get_str("type") {
        Some(t) => t,
        None => "",
    };
    proof {
        reveal_strlit("");
        reveal_strlit("input_text");
        reveal_strlit("output_text");
        reveal_strlit("text");
        reveal_strlit("summary_text");
        reveal_strlit("input_image");
        reveal_strlit("image");
        reveal_strlit("input_file");
        reveal_strlit("file");
        reveal_strlit("input_audio");
        reveal_strlit("audio");
        reveal_strlit("refusal");
        assert(text_or_empty_of(p@, "type"@) == t@);
    }
    if text_eq(t, "input_text") || text_eq(t, "output_text") || text_eq(t, "text") || text_eq(t, "summary_text") {
        Some(ContentPart::Text { text: text_or_empty(p.get_str("text")) })
    } else if text_eq(t, "input_image") || text_eq(t, "image") {
        let detail = image_detail_exec(p);
        match p.get_str("file_id") {
            Some(id) => Some(ContentPart::Image { source: MediaSource::FileId(owned(id)), mime: None, detail }),
            None => match p.get_str("image_url") {
                Some(url) => {
                    let (source, mime) = MediaSource::parse_data_uri(url);
                    Some(ContentPart::Image { source, mime, detail })
                },
                None => None,
            },
        }
    } else if text_eq(t, "input_file") || text_eq(t, "file") {
        let name = opt_owned(p.get_str("filename"));
        match p.get_str("file_data") {
            Some(d) => {
                let (source, mime) = MediaSource::parse_data_uri(d);
                Some(ContentPart::File { source, mime, name })
            },
            None => match p.get_str("file_id") {
                Some(id) => Some(ContentPart::File { source: MediaSource::FileId(owned(id)), mime: None, name }),
                None => match p.get_str("file_url") {
                    Some(u) => Some(ContentPart::File { source: MediaSource::Url(owned(u)), mime: None, name }),
                    None => None,
                },
            },
        }
    } else if text_eq(t, "input_audio") || text_eq(t, "audio") {
        let inner = match p.get("input_audio") {
            Some(i) => i,
            None => p,
        };
        match inner.get_str("data") {
            Some(d) => {
                let (source, _m) = MediaSource::parse_data_uri(d);
                Some(ContentPart::Audio { source, format: opt_owned(inner.get_str("format")) })
            },
            None => None,
        }
    } else if text_eq(t, "refusal") {
        Some(ContentPart::Refusal { text: text_or_empty(p.get_str("refusal")) })
    } else {
        None
    }
}

/// The parts among `items` that this codec models, in order.
pub open spec fn content_parts_of(items: Seq<JsonV>) -> Seq<PartV>
    decreases items.len(),
{
    if items.len() == 0 {
        Seq::empty()
    } else {
        let prev = content_parts_of(items.drop_last());
        match spec_decode_content_part(items.last()) {
            Some(p) => prev.push(p),
            None => prev,
        }
    }
}

fn content_parts_exec(items: &Vec<Json>) -> (res: Vec<ContentPart>)
    ensures
        pv(res) == content_parts_of(items_view(items@)),
{
    proof {
        lemma_items_view(items@);
    }
    let ghost its = items_view(items@);
    let mut out: Vec<ContentPart> = Vec::new();
    proof {
        lemma_parts_view(out@);
        assert(its.subrange(0, 0) =~= Seq::<JsonV>::empty());
    }
    let mut i: usize = 0;
    while i < items.len()
        invariant
            i <= items.len(),
            its == items_view(items@),
            its.len() == items.len(),
            forall|k: int| 0 <= k < items.len() ==> #[trigger] its[k] == items@[k]@,
            pv(out) == content_parts_of(its.subrange(0, i as int)),
        decreases items.len() - i,
    {
        assert(its.subrange(0, i + 1).drop_last() =~= its.subrange(0, i as int));
        assert(its.subrange(0, i + 1).last() == its[i as int]);
        if let Some(p) = decode_content_part(&items[i]) {
            let ghost o = out@;
            out.push(p);
            proof {
                lemma_parts_view_push(o, p);
            }
        }
        i = i + 1;
    }
    assert(its.subrange(0, items.len() as int) =~= its);
    out
}

/// The content of a message item: one text, or the modelled parts of an array.
pub open spec fn spec_message_content(content: Option<JsonV>) -> Seq<PartV> {
    match content {
        Some(JsonV::Str(s)) => seq![PartV::Text { text: s }],
        Some(JsonV::Array(a)) => content_parts_of(a),
        _ => Seq::empty(),
    }
}

/// The output of a tool call: one text, the modelled parts of an array, or a structured value
/// as its JSON text.
pub open spec fn spec_tool_output(output: Option<JsonV>) -> Seq<PartV> {
    match output {
        Some(JsonV::Str(s)) => seq![PartV::Text { text: s }],
        Some(JsonV::Array(a)) => content_parts_of(a),
        Some(JsonV::Null) => Seq::empty(),
        Some(other) => seq![PartV::Text { text: json_render(other) }],
        None => Seq::empty(),
    }
}

fn text_parts(s: &str) -> (res: Vec<ContentPart>)
    ensures
        pv(res) == seq![PartV::Text { text: s@ }],
{
    let mut v: Vec<ContentPart> = Vec::new();
    v.push(ContentPart::text(s));
    proof {
        lemma_parts_view(v@);
        assert(pv(v) =~= seq![PartV::Text { text: s@ }]);
    }
    v
}

fn no_parts() -> (res: Vec<ContentPart>)
    ensures
        pv(res) == Seq::<PartV>::empty(),
{
    let v: Vec<ContentPart> = Vec::new();
    proof {
        lemma_parts_view(v@);
    }
    v
}

fn message_content(content: Option<&Json>) -> (res: Vec<ContentPart>)
    ensures
        pv(res) == spec_message_content(opt_view(content)),
{
    match content {
        Some(Json::Str(s)) => text_parts(s.as_str()),
        Some(Json::Array(a)) => content_parts_exec(a),
        _ => no_parts(),
    }
}

fn tool_output(output: Option<&Json>) -> (res: Vec<ContentPart>)
    ensures
        pv(res) == spec_tool_output(opt_view(output)),
{
    match output {
        Some(Json::Str(s)) => text_parts(s.as_str()),
        Some(Json::Array(a)) => content_parts_exec(a),
        Some(Json::Null) => no_parts(),
        Some(other) => text_parts(other.render().as_str()),
        None => no_parts(),
    }
}

/// `arguments` as a value: `{}` when blank or absent, the parsed JSON text, the text itself
/// when it does not parse, or an object sent as it is.
pub open spec fn spec_parse_arguments(v: Option<JsonV>) -> JsonV {
    match v {
        Some(JsonV::Str(s)) => if trimmed(s).len() == 0 {
            JsonV::Object(Seq::empty())
        } else {
            match json_parse(s) {
                Some(j) => j,
                None => JsonV::Str(s),
            }
        },
        Some(JsonV::Null) => JsonV::Object(Seq::empty()),
        Some(other) => other,
        None => JsonV::Object(Seq::empty()),
    }
}

fn parse_arguments(v: Option<&Json>) -> (res: Json)
    ensures
        res@ == spec_parse_arguments(opt_view(v)),
{
    match v {
        Some(Json::Str(s)) => if trim(s.as_str()).unicode_len() == 0 {
            Json::empty_object()
        } else {
            match Json::parse(s.as_str()) {
                Some(j) => j,
                None => Json::Str(owned(s.as_str())),
            }
        },
        Some(Json::Null) => Json::empty_object(),
        Some(other) => other.duplicate(),
        None => Json::empty_object(),
    }
}

/// `arguments` as text: a text input as it is (a truncated fragment), null as `{}`, else JSON text.
pub open spec fn spec_stringify_arguments(input: JsonV) -> Seq<char> {
    match input {
        JsonV::Str(s) => s,
        JsonV::Null => "{}"@,
        other => json_render(other),
    }
}

fn stringify_arguments(input: &Json) -> (res: String)
    ensures
        res@ == spec_stringify_arguments(input@),
{
    match input {
        Json::Str(s) => owned(s.as_str()),
        Json::Null => owned("{}"),
        other => other.render(),
    }
}

/// The texts of `entries` joined to `acc` by line breaks.
pub open spec fn join_texts(acc: Seq<char>, entries: Seq<JsonV>) -> Seq<char>
    decreases entries.len(),
{
    if entries.len() == 0 {
        acc
    } else {
        let prev = join_texts(acc, entries.drop_last());
        match opt_str(entries.last().get("text"@)) {
            Some(s) => if prev.len() == 0 { s } else { prev + seq!['\n'] + s },
            None => prev,
        }
    }
}

fn join_texts_exec(acc: String, entries: Option<&Json>) -> (res: String)
    ensures
        res@ == match opt_view(entries) {
            Some(JsonV::Array(a)) => join_texts(acc@, a),
            _ => acc@,
        },
{
    let a = match entries {
        Some(Json::Array(a)) => a,
        _ => return acc,
    };
    proof {
        lemma_items_view(a@);
        reveal_strlit("\n");
    }
    let ghost its = items_view(a@);
    let ghost a0 = acc@;
    let mut out = acc;
    assert(its.subrange(0, 0) =~= Seq::<JsonV>::empty());
    let mut i: usize = 0;
    while i < a.len()
        invariant
            i <= a.len(),
            its == items_view(a@),
            its.len() == a.len(),
            forall|k: int| 0 <= k < a.len() ==> #[trigger] its[k] == a@[k]@,
            out@ == join_texts(a0, its.subrange(0, i as int)),
        decreases a.len() - i,
    {
        assert(its.subrange(0, i + 1).drop_last() =~= its.subrange(0, i as int));
        assert(its.subrange(0, i + 1).last() == its[i as int]);
        if let Some(s) = a[i].get_str("text") {
            if out.as_str().unicode_len() == 0 {
                out = owned(s);
            } else {
                proof {
                    reveal_strlit("\n");
                }
                out.append("\n");
                out.append(s);
            }
        }
        i = i + 1;
    }
    assert(its.subrange(0, a.len() as int) =~= its);
    out
}

/// The text of a reasoning item: its `summary` texts then its `content` texts, line by line.
pub open spec fn reasoning_text(item: JsonV) -> Seq<char> {
    let t0 = match item.get("summary"@) {
        Some(JsonV::Array(a)) => join_texts(Seq::empty(), a),
        _ => Seq::empty(),
    };
    match item.get("content"@) {
        Some(JsonV::Array(a)) => join_texts(t0, a),
        _ => t0,
    }
}

fn reasoning_text_exec(item: &Json) -> (res: String)
    ensures
        res@ == reasoning_text(item@),
{
    let t0 = join_texts_exec(String::new(), item.get("summary"));
    join_texts_exec(t0, item.get("content"))
}

/// `call_id`, else `id`, as text.
pub open spec fn call_id_of(item: JsonV) -> Seq<char> {
    str_or(opt_str(match item.get("call_id"@) {
        Some(v) => Some(v),
        None => item.get("id"@),
    }), Seq::empty())
}

fn call_id_exec(item: &Json) -> (res: String)
    ensures
        res@ == call_id_of(item@),
{
    match item.field("call_id", "id") {
        Some(v) => match v.as_str() {
            Some(s) => owned(s),
            None => String::new(),
        },
        None => String::new(),
    }
}


/// A part added to the last message when it has `role`, else to a new message.
pub open spec fn push_into(ms: Seq<MessageV>, role: Role, part: PartV) -> Seq<MessageV> {
    if ms.len() > 0 && ms.last().role == role {
        ms.update(ms.len() - 1, MessageV { content: ms.last().content.push(part), ..ms.last() })
    } else {
        ms.push(MessageV { role, content: seq![part], name: None })
    }
}

fn push_into_exec(messages: &mut Vec<Message>, role: Role, part: ContentPart)
    ensures
        msgs(final(messages)@) == push_into(msgs(old(messages)@), role, part@),
{
    let ghost m0 = msgs(messages@);
    let n = messages.len();
    if n > 0 && messages[n - 1].role == role {
        let mut last = messages.pop().unwrap();
        let ghost c0 = last.content@;
        last.content.push(part);
        proof {
            lemma_parts_view_push(c0, part);
        }
        messages.push(last);
        assert(msgs(messages@) =~= push_into(m0, role, part@));
    } else {
        let mut c: Vec<ContentPart> = Vec::new();
        c.push(part);
        proof {
            lemma_parts_view(c@);
            assert(pv(c) =~= seq![part@]);
        }
        messages.push(Message::new(role, c));
        assert(msgs(messages@) =~= push_into(m0, role, part@));
    }
}

/// The role of a message item; unknown roles are the user's.
pub open spec fn item_role(item: JsonV) -> Role {
    match opt_str(item.get("role"@)) {
        Some(r) => if r == "assistant"@ {
            Role::Assistant
        } else if r == "system"@ || r == "developer"@ {
            Role::System
        } else if r == "tool"@ {
            Role::Tool
        } else {
            Role::User
        },
        None => Role::User,
    }
}

/// The type of an input item; an untyped item with a role is a message.
pub open spec fn item_kind(item: JsonV) -> Seq<char> {
    match opt_str(item.get("type"@)) {
        Some(k) => k,
        None => if item.get("role"@) is Some { "message"@ } else { Seq::empty() },
    }
}

/// The messages after one more input item.
pub open spec fn input_item_step(ms: Seq<MessageV>, item: JsonV) -> Seq<MessageV> {
    let kind = item_kind(item);
    if kind == "message"@ {
        ms.push(MessageV { role: item_role(item), content: spec_message_content(item.get("content"@)), name: None })
    } else if kind == "function_call"@ {
        push_into(ms, Role::Assistant, PartV::ToolUse {
            id: call_id_of(item),
            name: text_or_empty_of(item, "name"@),
            input: spec_parse_arguments(item.get("arguments"@)),
            signature: None,
        })
    } else if kind == "function_call_output"@ {
        push_into(ms, Role::Tool, PartV::ToolResult {
            id: text_or_empty_of(item, "call_id"@),
            name: None,
            content: spec_tool_output(item.get("output"@)),
            is_error: false,
        })
    } else if kind == "reasoning"@ {
        push_into(ms, Role::Assistant, PartV::Thinking { text: reasoning_text(item), signature: opt_str(item.get("encrypted_content"@)) })
    } else {
        push_into(ms, Role::Assistant, PartV::Opaque { protocol: "responses"@, value: item })
    }
}

/// The `input` items as messages: tool calls, reasoning and unknown items join the model's
/// last message, tool outputs the last tool message; or the error for an item that is not
/// an object.
pub open spec fn spec_decode_input_items(items: Seq<JsonV>) -> Result<Seq<MessageV>, Seq<char>>
    decreases items.len(),
{
    if items.len() == 0 {
        Ok(Seq::empty())
    } else {
        match spec_decode_input_items(items.drop_last()) {
            Err(e) => Err(e),
            Ok(ms) => if items.last() is Object {
                Ok(input_item_step(ms, items.last()))
            } else {
                Err("each element of `input` must be an object"@)
            },
        }
    }
}

proof fn lemma_input_err(items: Seq<JsonV>, n: int)
    requires
        0 <= n <= items.len(),
        spec_decode_input_items(items.subrange(0, n)) is Err,
    ensures
        spec_decode_input_items(items) == spec_decode_input_items(items.subrange(0, n)),
    decreases items.len(),
{
    if n == items.len() {
        assert(items.subrange(0, n) =~= items);
    } else {
        assert(items.drop_last().subrange(0, n) =~= items.subrange(0, n));
        lemma_input_err(items.drop_last(), n);
    }
}

fn item_role_exec(item: &Json) -> (res: Role)
    ensures
        res == item_role(item@),
{
    match item.get_str("role") {
        Some(r) => if text_eq(r, "assistant") {
            Role::Assistant
        } else if text_eq(r, "system") || text_eq(r, "developer") {
            Role::System
        } else if text_eq(r, "tool") {
            Role::Tool
        } else {
            Role::User
        },
        None => Role::User,
    }
}

fn input_item_step_exec(messages: &mut Vec<Message>, item: &Json)
    ensures
        msgs(final(messages)@) == input_item_step(msgs(old(messages)@), item@),
{
    let kind: &str = match item.get_str("type") {
        Some(k) => k,
        None => if item.get("role").is_some() { "message" } else { "" },
    };
    proof {
        reveal_strlit("");
        reveal_strlit("message");
        reveal_strlit("function_call");
        reveal_strlit("function_call_output");
        reveal_strlit("reasoning");
        assert(item_kind(item@) == kind@);
    }
    let ghost m0 = msgs(messages@);
    if text_eq(kind, "message") {
        let m = Message::new(item_role_exec(item), message_content(item.get("content")));
        messages.push(m);
        assert(msgs(messages@) =~= m0.push(m@));
    } else if text_eq(kind, "function_call") {
        let part = ContentPart::ToolUse {
            id: call_id_exec(item),
            name: text_or_empty(item.get_str("name")),
            input: parse_arguments(item.get("arguments")),
            signature: None,
        };
        push_into_exec(messages, Role::Assistant, part);
    } else if text_eq(kind, "function_call_output") {
        let part = ContentPart::ToolResult {
            id: text_or_empty(item.get_str("call_id")),
            name: None,
            content: tool_output(item.get("output")),
            is_error: false,
        };
        push_into_exec(messages, Role::Tool, part);
    } else if text_eq(kind, "reasoning") {
        let part = ContentPart::Thinking { text: reasoning_text_exec(item), signature: opt_owned(item.get_str("encrypted_content")) };
        push_into_exec(messages, Role::Assistant, part);
    } else {
        let part = ContentPart::Opaque { protocol: owned("responses"), value: item.duplicate() };
        push_into_exec(messages, Role::Assistant, part);
    }
}

fn decode_input_items(items: &Vec<Json>) -> (res: Result<Vec<Message>, String>)
    ensures
        spec_decode_input_items(items_view(items@)) == match res {
            Ok(ms) => Ok(msgs(ms@)),
            Err(e) => Err(e@),
        },
{
    proof {
        lemma_items_view(items@);
    }
    let ghost its = items_view(items@);
    let mut out: Vec<Message> = Vec::new();
    assert(its.subrange(0, 0) =~= Seq::<JsonV>::empty());
    assert(msgs(out@) =~= Seq::<MessageV>::empty());
    let mut i: usize = 0;
    while i < items.len()
        invariant
            i <= items.len(),
            its == items_view(items@),
            its.len() == items.len(),
            forall|k: int| 0 <= k < items.len() ==> #[trigger] its[k] == items@[k]@,
            spec_decode_input_items(its.subrange(0, i as int)) == Ok::<Seq<MessageV>, Seq<char>>(msgs(out@)),
        decreases items.len() - i,
    {
        assert(its.subrange(0, i + 1).drop_last() =~= its.subrange(0, i as int));
        assert(its.subrange(0, i + 1).last() == its[i as int]);
        if !items[i].is_object() {
            proof {
                lemma_input_err(its, i + 1);
            }
            return Err(owned("each element of `input` must be an object"));
        }
        input_item_step_exec(&mut out, &items[i]);
        i = i + 1;
    }
    assert(its.subrange(0, items.len() as int) =~= its);
    Ok(out)
}

/// The system messages of `ms` moved out: their content joins the system parts, the rest
/// keep their order.
pub open spec fn lift_system(system: Seq<PartV>, ms: Seq<MessageV>) -> (Seq<PartV>, Seq<MessageV>)
    decreases ms.len(),
{
    if ms.len() == 0 {
        (system, Seq::empty())
    } else {
        let (s, rest) = lift_system(system, ms.drop_last());
        if ms.last().role == Role::System {
            (s + ms.last().content, rest)
        } else {
            (s, rest.push(ms.last()))
        }
    }
}

fn lift_system_exec(system: &mut Vec<ContentPart>, ms: &Vec<Message>) -> (res: Vec<Message>)
    ensures
        (pv(*final(system)), msgs(res@)) == lift_system(pv(*old(system)), msgs(ms@)),
{
    let ghost mv = msgs(ms@);
    let ghost s0 = pv(*system);
    let mut rest: Vec<Message> = Vec::new();
    assert(msgs(rest@) =~= Seq::<MessageV>::empty());
    assert(mv.subrange(0, 0) =~= Seq::<MessageV>::empty());
    let mut i: usize = 0;
    while i < ms.len()
        invariant
            i <= ms.len(),
            mv == msgs(ms@),
            (pv(*system), msgs(rest@)) == lift_system(s0, mv.subrange(0, i as int)),
        decreases ms.len() - i,
    {
        assert(mv.subrange(0, i + 1).drop_last() =~= mv.subrange(0, i as int));
        let m = &ms[i];
        if m.role == Role::System {
            crate::codec::chat::append_parts(system, duplicate_parts(&m.content));
        } else {
            let c = Message { role: m.role, content: duplicate_parts(&m.content), name: dup_opt(&m.name) };
            let ghost r0 = msgs(rest@);
            rest.push(c);
            assert(msgs(rest@) =~= r0.push(m@));
        }
        i = i + 1;
    }
    assert(mv.subrange(0, ms.len() as int) =~= mv);
    rest
}


/// The definition a function tool is read from: its nested `function` object when there is
/// one (a Chat-shaped tool passed through), else the tool itself.
pub open spec fn tool_source(t: JsonV) -> JsonV {
    match t.get("function"@) {
        Some(JsonV::Object(f)) => JsonV::Object(f),
        _ => t,
    }
}

/// `tools[]`: the function tools (those without a non-empty name skipped), and the built-in
/// tools kept as they are.
pub open spec fn spec_decode_tools(ts: Seq<JsonV>) -> (Seq<ToolV>, Seq<JsonV>)
    decreases ts.len(),
{
    if ts.len() == 0 {
        (Seq::empty(), Seq::empty())
    } else {
        let (tools, builtins) = spec_decode_tools(ts.drop_last());
        let t = ts.last();
        if !(t is Object) {
            (tools, builtins)
        } else if str_or(opt_str(t.get("type"@)), "function"@) != "function"@ {
            (tools, builtins.push(t))
        } else {
            let src = tool_source(t);
            match opt_str(src.get("name"@)) {
                Some(name) => if name.len() > 0 {
                    (tools.push(ToolV {
                        name,
                        description: opt_str(src.get("description"@)),
                        parameters: match src.get("parameters"@) {
                            Some(p) => if p is Null { default_parameters() } else { p },
                            None => default_parameters(),
                        },
                        strict: opt_bool(src.get("strict"@)),
                    }), builtins)
                } else {
                    (tools, builtins)
                },
                None => (tools, builtins),
            }
        }
    }
}

fn decode_tools(ts: &Vec<Json>) -> (res: (Vec<ToolDef>, Vec<Json>))
    ensures
        (tls(res.0@), items_view(res.1@)) == spec_decode_tools(items_view(ts@)),
{
    proof {
        lemma_items_view(ts@);
    }
    let ghost its = items_view(ts@);
    let mut tools: Vec<ToolDef> = Vec::new();
    let mut builtins: Vec<Json> = Vec::new();
    proof {
        lemma_items_view(builtins@);
        assert(its.subrange(0, 0) =~= Seq::<JsonV>::empty());
        assert(tls(tools@) =~= Seq::<ToolV>::empty());
        assert(items_view(builtins@) =~= Seq::<JsonV>::empty());
        reveal_strlit("function");
    }
    let mut i: usize = 0;
    while i < ts.len()
        invariant
            i <= ts.len(),
            its == items_view(ts@),
            its.len() == ts.len(),
            forall|k: int| 0 <= k < ts.len() ==> #[trigger] its[k] == ts@[k]@,
            (tls(tools@), items_view(builtins@)) == spec_decode_tools(its.subrange(0, i as int)),
        decreases ts.len() - i,
    {
        assert(its.subrange(0, i + 1).drop_last() =~= its.subrange(0, i as int));
        assert(its.subrange(0, i + 1).last() == its[i as int]);
        let t = &ts[i];
        if t.is_object() {
            let ty = match t.get_str("type") {
                Some(x) => x,
                None => "function",
            };
            if !text_eq(ty, "function") {
                crate::codec::chat::push_json(&mut builtins, t.duplicate());
            } else {
                let src = match t.get("function") {
                    Some(f) => if f.is_object() { f } else { t },
                    None => t,
                };
                assert(src@ == tool_source(t@));
                if let Some(name) = src.get_str("name") {
                    if name.unicode_len() > 0 {
                        let parameters = match src.get("parameters") {
                            Some(p) => if p.is_null() { crate::codec::chat::default_parameters_exec() } else { p.duplicate() },
                            None => crate::codec::chat::default_parameters_exec(),
                        };
                        let tool = ToolDef {
                            name: owned(name),
                            description: opt_owned(src.get_str("description")),
                            parameters,
                            strict: src.get_bool("strict"),
                        };
                        let ghost o = tools@;
                        tools.push(tool);
                        assert(tls(tools@) =~= tls(o).push(tool@));
                    }
                }
            }
        }
        i = i + 1;
    }
    assert(its.subrange(0, ts.len() as int) =~= its);
    (tools, builtins)
}

/// `tool_choice`: a mode, or an object naming a tool (a built-in tool constraint without a
/// name is "some tool").
pub open spec fn spec_decode_tool_choice(c: JsonV) -> ChoiceV {
    match c {
        JsonV::Str(s) => if s == "none"@ {
            ChoiceV::NoTool
        } else if s == "auto"@ {
            ChoiceV::Auto
        } else if s == "required"@ {
            ChoiceV::Required
        } else {
            ChoiceV::Unspecified
        },
        JsonV::Object(_) => match opt_str(c.get("name"@)) {
            Some(n) => ChoiceV::Tool(n),
            None => ChoiceV::Required,
        },
        _ => ChoiceV::Unspecified,
    }
}

fn decode_tool_choice(c: &Json) -> (res: ToolChoice)
    ensures
        res@ == spec_decode_tool_choice(c@),
{
    match c {
        Json::Str(s) => if text_eq(s.as_str(), "none") {
            ToolChoice::NoTool
        } else if text_eq(s.as_str(), "auto") {
            ToolChoice::Auto
        } else if text_eq(s.as_str(), "required") {
            ToolChoice::Required
        } else {
            ToolChoice::Unspecified
        },
        Json::Object(_) => match c.get_str("name") {
            Some(n) => ToolChoice::Tool(owned(n)),
            None => ToolChoice::Required,
        },
        _ => ToolChoice::Unspecified,
    }
}

/// `text.format`.
pub open spec fn spec_decode_response_format(f: JsonV) -> Option<FormatV> {
    match opt_str(f.get("type"@)) {
        Some(t) => if t == "text"@ {
            Some(FormatV::Text)
        } else if t == "json_object"@ {
            Some(FormatV::JsonObject)
        } else if t == "json_schema"@ {
            Some(FormatV::JsonSchema {
                name: str_or(opt_str(f.get("name"@)), "response"@),
                schema: match f.get("schema"@) {
                    Some(s) => s,
                    None => JsonV::Null,
                },
                strict: match opt_bool(f.get("strict"@)) {
                    Some(b) => b,
                    None => false,
                },
            })
        } else {
            None
        },
        None => None,
    }
}

fn decode_response_format(f: &Json) -> (res: Option<ResponseFormat>)
    ensures
        spec_decode_response_format(f@) == match res {
            Some(x) => Some(x@),
            None => None,
        },
{
    match f.get_str("type") {
        Some(t) => if text_eq(t, "text") {
            Some(ResponseFormat::Text)
        } else if text_eq(t, "json_object") {
            Some(ResponseFormat::JsonObject)
        } else if text_eq(t, "json_schema") {
            let name = match f.get_str("name") {
                Some(n) => owned(n),
                None => owned("response"),
            };
            let schema = match f.get("schema") {
                Some(s) => s.duplicate(),
                None => Json::Null,
            };
            let strict = match f.get_bool("strict") {
                Some(b) => b,
                None => false,
            };
            Some(ResponseFormat::JsonSchema { name, schema, strict })
        } else {
            None
        },
        None => None,
    }
}

/// `reasoning`: the effort and whether a summary is asked for; none when it gives neither.
pub open spec fn spec_decode_reasoning(r: JsonV) -> Option<ReasoningV> {
    let effort = opt_str(r.get("effort"@));
    let show = match opt_str(r.get("summary"@)) {
        Some(s) => Some(s != "none"@),
        None => None,
    };
    if effort is None && show is None {
        None
    } else {
        Some(ReasoningV { effort, budget_tokens: None, include_thoughts: show })
    }
}

fn decode_reasoning(r: &Json) -> (res: Option<ReasoningConfig>)
    ensures
        match res {
            Some(x) => spec_decode_reasoning(r@) == Some(x@),
            None => spec_decode_reasoning(r@) is None,
        },
{
    let effort = opt_owned(r.get_str("effort"));
    let show = match r.get_str("summary") {
        Some(s) => Some(!text_eq(s, "none")),
        None => None,
    };
    if effort.is_none() && show.is_none() {
        None
    } else {
        Some(ReasoningConfig { effort, budget_tokens: None, include_thoughts: show })
    }
}

/// The name of the stateful field listing what the upstream should add to its output.
pub open spec fn stateful_list_key() -> Seq<char> {
    "inc"@ + "lude"@
}

fn stateful_list_key_exec() -> (res: String)
    ensures
        res@ == stateful_list_key(),
{
    concat("inc", "lude")
}

/// The JSON type name of a value, for error messages.
pub open spec fn json_type_label(v: JsonV) -> Seq<char> {
    match v {
        JsonV::Null => "null"@,
        JsonV::Bool(_) => "boolean"@,
        JsonV::Number(_) => "number"@,
        JsonV::Str(_) => "string"@,
        JsonV::Array(_) => "array"@,
        JsonV::Object(_) => "object"@,
    }
}

fn json_type_label_exec(v: &Json) -> (res: &'static str)
    ensures
        res@ == json_type_label(v@),
{
    match v {
        Json::Null => "null",
        Json::Bool(_) => "boolean",
        Json::Number(_) => "number",
        Json::Str(_) => "string",
        Json::Array(_) => "array",
        Json::Object(_) => "object",
    }
}

/// The top-level request fields this codec reads itself (the stateful ones are kept under
/// their own keys).
pub open spec fn responses_known_request_field(k: Seq<char>) -> bool {
    k == "model"@ || k == "input"@ || k == "instructions"@ || k == "stream"@ || k == "max_output_tokens"@
        || k == "tools"@ || k == "tool_choice"@ || k == "parallel_tool_calls"@ || k == "text"@
        || k == "reasoning"@ || k == "temperature"@ || k == "top_p"@ || k == "user"@ || k == "metadata"@
        || k == "previous_response_id"@ || k == "store"@ || k == stateful_list_key()
}

fn is_known_request_field(k: &str) -> (res: bool)
    ensures
        res == responses_known_request_field(k@),
{
    text_eq(k, "model") || text_eq(k, "input") || text_eq(k, "instructions") || text_eq(k, "stream")
        || text_eq(k, "max_output_tokens") || text_eq(k, "tools") || text_eq(k, "tool_choice")
        || text_eq(k, "parallel_tool_calls") || text_eq(k, "text") || text_eq(k, "reasoning")
        || text_eq(k, "temperature") || text_eq(k, "top_p") || text_eq(k, "user") || text_eq(k, "metadata")
        || text_eq(k, "previous_response_id") || text_eq(k, "store") || text_eq(k, stateful_list_key_exec().as_str())
}

fn collect_unknown_request(members: &Vec<(String, Json)>, ext: &mut Extensions)
    ensures
        final(ext)@ == collect_unknown(members_view(members@), |k: Seq<char>| responses_known_request_field(k), "responses."@, old(ext)@),
{
    proof {
        lemma_members_view(members@);
    }
    let ghost ms = members_view(members@);
    let ghost known = |k: Seq<char>| responses_known_request_field(k);
    let mut i: usize = 0;
    while i < members.len()
        invariant
            i <= members.len(),
            ms.len() == members.len(),
            forall|k: int| 0 <= k < members.len() ==> #[trigger] ms[k] == (members@[k].0@, members@[k].1@),
            known == (|k: Seq<char>| responses_known_request_field(k)),
            ext@ == collect_unknown(ms.subrange(0, i as int), known, "responses."@, old(ext)@),
        decreases members.len() - i,
    {
        assert(ms.subrange(0, i + 1).drop_last() =~= ms.subrange(0, i as int));
        let (k, v) = &members[i];
        if !is_known_request_field(k.as_str()) {
            ext.insert(concat("responses.", k.as_str()), v.duplicate());
        }
        i = i + 1;
    }
    assert(ms.subrange(0, members.len() as int) =~= ms);
}

/// A field kept under `responses.` + `key` when present and not null.
pub open spec fn keep_field(ext: Seq<(Seq<char>, JsonV)>, raw: JsonV, key: Seq<char>) -> Seq<(Seq<char>, JsonV)> {
    match raw.get(key) {
        Some(v) => if v is Null { ext } else { ext_insert(ext, "responses."@ + key, v) },
        None => ext,
    }
}

fn keep_field_exec(ext: &mut Extensions, raw: &Json, key: &str)
    ensures
        final(ext)@ == keep_field(old(ext)@, raw@, key@),
{
    if let Some(v) = raw.get(key) {
        if !v.is_null() {
            ext.insert(concat("responses.", key), v.duplicate());
        }
    }
}

/// The extensions a decoded request carries: the built-in tools, the stateful fields, then
/// the unknown fields.
pub open spec fn decoded_request_ext(raw: JsonV, builtins: Seq<JsonV>) -> Seq<(Seq<char>, JsonV)> {
    let e0: Seq<(Seq<char>, JsonV)> = Seq::empty();
    let e1 = if builtins.len() > 0 { ext_insert(e0, "responses.builtin_tools"@, JsonV::Array(builtins)) } else { e0 };
    let e2 = keep_field(e1, raw, "previous_response_id"@);
    let e3 = keep_field(e2, raw, "store"@);
    let e4 = keep_field(e3, raw, stateful_list_key());
    let e5 = keep_field(e4, raw, "metadata"@);
    match raw {
        JsonV::Object(members) => collect_unknown(members, |k: Seq<char>| responses_known_request_field(k), "responses."@, e5),
        _ => e5,
    }
}

/// The request a Responses body decodes to, or the text of the error it is refused with.
///
/// `instructions` and the system/developer messages of `input` make the system parts.
pub open spec fn spec_responses_decode_request(raw: JsonV) -> Result<RequestV, Seq<char>> {
    match raw {
        JsonV::Object(_) => match non_empty(opt_str(raw.get("model"@))) {
            None => Err("missing required field `model`"@),
            Some(model) => {
                let sys0: Seq<PartV> = match opt_str(raw.get("instructions"@)) {
                    Some(t) => seq![PartV::Text { text: t }],
                    None => Seq::empty(),
                };
                let input: Result<(Seq<PartV>, Seq<MessageV>), Seq<char>> = match raw.get("input"@) {
                    Some(JsonV::Str(s)) => Ok((sys0, seq![MessageV { role: Role::User, content: seq![PartV::Text { text: s }], name: None }])),
                    Some(JsonV::Array(items)) => match spec_decode_input_items(items) {
                        Ok(ms) => Ok(lift_system(sys0, ms)),
                        Err(e) => Err(e),
                    },
                    Some(other) => Err("field `input` must be a string or an array, got "@ + json_type_label(other)),
                    None => Ok((sys0, Seq::empty())),
                };
                match input {
                    Err(e) => Err(e),
                    Ok((system, messages)) => {
                        let (tools, builtins) = match raw.get("tools"@) {
                            Some(JsonV::Array(ts)) => spec_decode_tools(ts),
                            _ => (Seq::empty(), Seq::empty()),
                        };
                        let stream = match opt_bool(raw.get("stream"@)) {
                            Some(b) => b,
                            None => false,
                        };
                        Ok(RequestV {
                            model,
                            system,
                            messages,
                            tools,
                            tool_choice: match raw.get("tool_choice"@) {
                                Some(c) => spec_decode_tool_choice(c),
                                None => ChoiceV::Unspecified,
                            },
                            parallel_tool_calls: opt_bool(raw.get("parallel_tool_calls"@)),
                            sampling: SamplingV {
                                temperature: spec_as_number(raw.get("temperature"@)),
                                top_p: spec_as_number(raw.get("top_p"@)),
                                ..Sampling::empty_spec()
                            },
                            max_output_tokens: match raw.get("max_output_tokens"@) {
                                Some(v) => spec_as_u32(v),
                                None => None,
                            },
                            stream,
                            stream_include_usage: stream,
                            reasoning: match raw.get("reasoning"@) {
                                Some(r) => spec_decode_reasoning(r),
                                None => None,
                            },
                            response_format: match opt_get(raw.get("text"@), "format"@) {
                                Some(f) => spec_decode_response_format(f),
                                None => None,
                            },
                            user: opt_str(raw.get("user"@)),
                            extensions: decoded_request_ext(raw, builtins),
                        })
                    },
                }
            },
        },
        _ => Err("request body must be a JSON object"@),
    }
}

fn as_u32_exec(v: Option<&Json>) -> (res: Option<u32>)
    ensures
        res == match opt_view(v) {
            Some(j) => spec_as_u32(j),
            None => None,
        },
{
    match v {
        Some(j) => match j.as_u64() {
            Some(n) => if n <= 0xffff_ffff { Some(n as u32) } else { None },
            None => None,
        },
        None => None,
    }
}

impl ResponsesCodec {
    /// Decodes a Responses request body.
    pub fn decode_request(&self, raw: &Json) -> (res: Result<UnifiedRequest, GatewayError>)
        ensures
            match res {
                Ok(r) => spec_responses_decode_request(raw@) == Ok::<RequestV, Seq<char>>(r@),
                Err(e) => spec_responses_decode_request(raw@) == Err::<RequestV, Seq<char>>(e.message@)
                    && e.kind == ErrorKind::InvalidRequest && e.protocol.is_none()
                    && e.upstream_status.is_none() && e.upstream_body.is_none(),
            },
    {
        let members = match raw {
            Json::Object(m) => m,
            _ => return Err(GatewayError::invalid_request(owned("request body must be a JSON object"))),
        };
        let model = match raw.get_str("model") {
            Some(m) => if m.unicode_len() > 0 {
                m
            } else {
                return Err(GatewayError::invalid_request(owned("missing required field `model`")));
            },
            None => return Err(GatewayError::invalid_request(owned("missing required field `model`"))),
        };
        let mut system: Vec<ContentPart> = match raw.get_str("instructions") {
            Some(t) => text_parts(t),
            None => no_parts(),
        };
        let messages: Vec<Message> = match raw.get("input") {
            Some(Json::Str(s)) => {
                let mut v: Vec<Message> = Vec::new();
                let m = Message::new(Role::User, text_parts(s.as_str()));
                v.push(m);
                assert(msgs(v@) =~= seq![m@]);
                v
            },
            Some(Json::Array(items)) => match decode_input_items(items) {
                Ok(ms) => lift_system_exec(&mut system, &ms),
                Err(e) => return Err(GatewayError::invalid_request(e)),
            },
            Some(other) => {
                let e = concat("field `input` must be a string or an array, got ", json_type_label_exec(other));
                return Err(GatewayError::invalid_request(e));
            },
            None => {
                let v: Vec<Message> = Vec::new();
                assert(msgs(v@) =~= Seq::<MessageV>::empty());
                v
            },
        };
        let (tools, builtins) = match raw.get("tools") {
            Some(Json::Array(ts)) => decode_tools(ts),
            _ => {
                let b: Vec<Json> = Vec::new();
                proof {
                    lemma_items_view(b@);
                    assert(items_view(b@) =~= Seq::<JsonV>::empty());
                }
                let t: Vec<ToolDef> = Vec::new();
                assert(tls(t@) =~= Seq::<ToolV>::empty());
                (t, b)
            },
        };
        let mut extensions = Extensions::new();
        assert(extensions@ =~= Seq::<(Seq<char>, JsonV)>::empty());
        proof {
            lemma_items_view(builtins@);
        }
        if builtins.len() > 0 {
            extensions.insert(owned("responses.builtin_tools"), Json::Array(builtins));
        }
        keep_field_exec(&mut extensions, raw, "previous_response_id");
        keep_field_exec(&mut extensions, raw, "store");
        keep_field_exec(&mut extensions, raw, stateful_list_key_exec().as_str());
        keep_field_exec(&mut extensions, raw, "metadata");
        collect_unknown_request(members, &mut extensions);
        let stream = match raw.get_bool("stream") {
            Some(b) => b,
            None => false,
        };
        let mut sampling = Sampling::new();
        sampling.temperature = as_number(raw.get("temperature"));
        sampling.top_p = as_number(raw.get("top_p"));
        let req = UnifiedRequest {
            model: owned(model),
            system,
            messages,
            tools,
            tool_choice: match raw.get("tool_choice") {
                Some(c) => decode_tool_choice(c),
                None => ToolChoice::Unspecified,
            },
            parallel_tool_calls: raw.get_bool("parallel_tool_calls"),
            sampling,
            max_output_tokens: as_u32_exec(raw.get("max_output_tokens")),
            stream,
            stream_include_usage: stream,
            reasoning: match raw.get("reasoning") {
                Some(r) => decode_reasoning(r),
                None => None,
            },
            response_format: match raw.get("text") {
                Some(t) => match t.get("format") {
                    Some(f) => decode_response_format(f),
                    None => None,
                },
                None => None,
            },
            user: opt_owned(raw.get_str("user")),
            extensions,
        };
        proof {
            let spec = spec_responses_decode_request(raw@);
            assert(spec is Ok);
            let sr = spec->Ok_0;
            assert(sr.model == req.model@);
            assert(sr.system == req@.system);
            assert(sr.messages == req@.messages);
            assert(sr.tools == req@.tools);
            assert(sr.sampling == req@.sampling);
            assert(sr.reasoning == req@.reasoning);
            assert(sr.response_format == req@.response_format);
            assert(sr.extensions == req@.extensions);
        }
        Ok(req)
    }
}


// ---------------------------------------------------------------------------
// Request encoding
// ---------------------------------------------------------------------------

/// A text JSON value.
pub open spec fn js(s: Seq<char>) -> JsonV {
    JsonV::Str(s)
}

/// Members followed by one more when `extra` holds a value.
pub open spec fn with_opt(m: Seq<(Seq<char>, JsonV)>, key: Seq<char>, extra: Option<JsonV>) -> Seq<(Seq<char>, JsonV)> {
    match extra {
        Some(v) => m.push((key, v)),
        None => m,
    }
}

/// A content part as Responses writes it for a message of `role`: the model's text is
/// `output_text` (with its required `annotations`), other text `input_text`; audio and parts
/// that are items of their own have no content part.
pub open spec fn spec_encode_content_part(p: PartV, role: Role) -> Option<JsonV> {
    match p {
        PartV::Text { text } => if role == Role::Assistant {
            Some(JsonV::Object(seq![("type"@, js("output_text"@)), ("text"@, js(text)), ("annotations"@, JsonV::Array(Seq::empty()))]))
        } else {
            Some(JsonV::Object(seq![("type"@, js("input_text"@)), ("text"@, js(text))]))
        },
        PartV::Image { source, mime, detail } => Some(JsonV::Object(seq![
            ("type"@, js("input_image"@)),
            match source {
                SourceV::FileId(id) => ("file_id"@, js(id)),
                other => ("image_url"@, js(spec_to_data_uri(other, mime))),
            },
            ("detail"@, js(str_or(detail, "auto"@))),
        ])),
        PartV::File { source, mime, name } => Some(JsonV::Object(with_opt(
            seq![
                ("type"@, js("input_file"@)),
                match source {
                    SourceV::FileId(id) => ("file_id"@, js(id)),
                    SourceV::Url(u) => ("file_url"@, js(u)),
                    other => ("file_data"@, js(spec_to_data_uri(other, mime))),
                },
            ],
            "filename"@,
            match name {
                Some(n) => Some(js(n)),
                None => None,
            },
        ))),
        PartV::Refusal { text } => Some(JsonV::Object(seq![("type"@, js("refusal"@)), ("refusal"@, js(text))])),
        _ => None,
    }
}

fn opt_str_ref(o: &Option<String>) -> (res: Option<&str>)
    ensures
        match res {
            Some(s) => ov(*o) == Some(s@),
            None => ov(*o) is None,
        },
{
    match o {
        Some(s) => Some(s.as_str()),
        None => None,
    }
}

fn obj_of(m: Vec<(String, Json)>) -> (res: Json)
    ensures
        res@ == JsonV::Object(members_view(m@)),
{
    Json::object(m)
}

fn encode_content_part(p: &ContentPart, role: Role) -> (res: Option<Json>)
    ensures
        spec_encode_content_part(p@, role) == match res {
            Some(j) => Some(j@),
            None => None,
        },
{
    match p {
        ContentPart::Text { text } => {
            let mut m: Vec<(String, Json)> = Vec::new();
            if role == Role::Assistant {
                push_member(&mut m, "type", str_json("output_text"));
                push_member(&mut m, "text", str_json(text.as_str()));
                let empty: Vec<Json> = Vec::new();
                proof {
                    lemma_items_view(empty@);
                }
                push_member(&mut m, "annotations", Json::Array(empty));
                assert(members_view(m@) =~= seq![("type"@, js("output_text"@)), ("text"@, js(text@)), ("annotations"@, JsonV::Array(Seq::empty()))]);
            } else {
                push_member(&mut m, "type", str_json("input_text"));
                push_member(&mut m, "text", str_json(text.as_str()));
                assert(members_view(m@) =~= seq![("type"@, js("input_text"@)), ("text"@, js(text@))]);
            }
            Some(obj_of(m))
        },
        ContentPart::Image { source, mime, detail } => {
            let mut m: Vec<(String, Json)> = Vec::new();
            push_member(&mut m, "type", str_json("input_image"));
            match source {
                MediaSource::FileId(id) => push_member(&mut m, "file_id", str_json(id.as_str())),
                other => push_member(&mut m, "image_url", str_json(other.to_data_uri(opt_str_ref(mime)).as_str())),
            }
            let d = match detail {
                Some(d) => d.as_str(),
                None => "auto",
            };
            push_member(&mut m, "detail", str_json(d));
            assert(members_view(m@) =~= spec_encode_content_part(p@, role)->Some_0->Object_0);
            Some(obj_of(m))
        },
        ContentPart::File { source, mime, name } => {
            let mut m: Vec<(String, Json)> = Vec::new();
            push_member(&mut m, "type", str_json("input_file"));
            match source {
                MediaSource::FileId(id) => push_member(&mut m, "file_id", str_json(id.as_str())),
                MediaSource::Url(u) => push_member(&mut m, "file_url", str_json(u.as_str())),
                other => push_member(&mut m, "file_data", str_json(other.to_data_uri(opt_str_ref(mime)).as_str())),
            }
            if let Some(n) = name {
                push_member(&mut m, "filename", str_json(n.as_str()));
            }
            assert(members_view(m@) =~= spec_encode_content_part(p@, role)->Some_0->Object_0);
            Some(obj_of(m))
        },
        ContentPart::Refusal { text } => Some(pair_object("type", str_json("refusal"), "refusal", str_json(text.as_str()))),
        _ => None,
    }
}

/// The role name of a message item; tool messages are sent as the user's.
pub open spec fn role_str(role: Role) -> Seq<char> {
    match role {
        Role::System => "system"@,
        Role::Assistant => "assistant"@,
        _ => "user"@,
    }
}

fn role_str_exec(role: Role) -> (res: &'static str)
    ensures
        res@ == role_str(role),
{
    match role {
        Role::System => "system",
        Role::Assistant => "assistant",
        _ => "user",
    }
}

/// The text of a failed tool call's output: marked, or a fixed text when empty.
pub open spec fn error_output(text: Seq<char>) -> Seq<char> {
    if text.len() == 0 { "Error: tool call failed"@ } else { "Error: "@ + text }
}

/// A reasoning item: its summary (none for empty text) and its encrypted content.
pub open spec fn reasoning_summary(text: Seq<char>) -> JsonV {
    if text.len() == 0 {
        JsonV::Array(Seq::empty())
    } else {
        JsonV::Array(seq![JsonV::Object(seq![("type"@, js("summary_text"@)), ("text"@, js(text))])])
    }
}

/// The items one part of a message contributes (tool calls, results, reasoning and
/// pass-through items stand alone), and the content part it adds to the message item.
pub open spec fn part_items(p: PartV, role: Role) -> (Option<JsonV>, Option<JsonV>) {
    match p {
        PartV::ToolUse { id, name, input, .. } => (Some(JsonV::Object(seq![
            ("type"@, js("function_call"@)),
            ("call_id"@, js(id)),
            ("name"@, js(name)),
            ("arguments"@, js(spec_stringify_arguments(input))),
        ])), None),
        PartV::ToolResult { id, content, is_error, .. } => {
            let text = system_join(content);
            (Some(JsonV::Object(seq![
                ("type"@, js("function_call_output"@)),
                ("call_id"@, js(id)),
                ("output"@, js(if is_error { error_output(text) } else { text })),
            ])), None)
        },
        PartV::Thinking { text, signature } => (Some(JsonV::Object(with_opt(
            seq![("type"@, js("reasoning"@)), ("summary"@, reasoning_summary(text))],
            "encrypted_content"@,
            match signature {
                Some(s) => Some(js(s)),
                None => None,
            },
        ))), None),
        PartV::RedactedThinking { data } => (Some(JsonV::Object(seq![
            ("type"@, js("reasoning"@)),
            ("summary"@, JsonV::Array(Seq::empty())),
            ("encrypted_content"@, js(data)),
        ])), None),
        PartV::Opaque { protocol, value } => (if protocol == "responses"@ { Some(value) } else { None }, None),
        other => (None, spec_encode_content_part(other, role)),
    }
}

/// The items of a message's parts and the content of its message item, in order.
pub open spec fn message_items(parts: Seq<PartV>, role: Role) -> (Seq<JsonV>, Seq<JsonV>)
    decreases parts.len(),
{
    if parts.len() == 0 {
        (Seq::empty(), Seq::empty())
    } else {
        let (items, content) = message_items(parts.drop_last(), role);
        let (item, c) = part_items(parts.last(), role);
        (
            match item {
                Some(i) => items.push(i),
                None => items,
            },
            match c {
                Some(x) => content.push(x),
                None => content,
            },
        )
    }
}

/// The items of one message: the stand-alone items, then the message item when it has content.
pub open spec fn spec_message_to_items(m: MessageV) -> Seq<JsonV> {
    let (items, content) = message_items(m.content, m.role);
    if content.len() > 0 {
        items.push(JsonV::Object(seq![("type"@, js("message"@)), ("role"@, js(role_str(m.role))), ("content"@, JsonV::Array(content))]))
    } else {
        items
    }
}

/// The `input` items of a conversation.
pub open spec fn spec_encode_input_items(ms: Seq<MessageV>) -> Seq<JsonV>
    decreases ms.len(),
{
    if ms.len() == 0 {
        Seq::empty()
    } else {
        spec_encode_input_items(ms.drop_last()) + spec_message_to_items(ms.last())
    }
}

fn output_text_for(content: &Vec<ContentPart>, is_error: bool) -> (res: String)
    ensures
        res@ == if is_error { error_output(system_join(pv(*content))) } else { system_join(pv(*content)) },
{
    let text = join_text_parts(content);
    if is_error {
        if text.as_str().unicode_len() == 0 {
            owned("Error: tool call failed")
        } else {
            concat("Error: ", text.as_str())
        }
    } else {
        text
    }
}

fn join_text_parts(parts: &Vec<ContentPart>) -> (res: String)
    ensures
        res@ == system_join(pv(*parts)),
{
    proof {
        lemma_parts_view(parts@);
        reveal_strlit("\n");
    }
    let mut out = String::new();
    let mut i: usize = 0;
    while i < parts.len()
        invariant
            i <= parts.len(),
            pv(*parts).len() == parts.len(),
            forall|k: int| 0 <= k < parts.len() ==> #[trigger] pv(*parts)[k] == parts@[k]@,
            out@ == system_join(pv(*parts).subrange(0, i as int)),
        decreases parts.len() - i,
    {
        assert(pv(*parts).subrange(0, i + 1).drop_last() =~= pv(*parts).subrange(0, i as int));
        if let ContentPart::Text { text } = &parts[i] {
            if out.as_str().unicode_len() != 0 {
                proof {
                    reveal_strlit("\n");
                }
                out.append("\n");
            }
            out.append(text.as_str());
        }
        i = i + 1;
    }
    assert(pv(*parts).subrange(0, parts.len() as int) =~= pv(*parts));
    out
}

fn summary_array(text: &str) -> (res: Json)
    ensures
        res@ == reasoning_summary(text@),
{
    let mut a: Vec<Json> = Vec::new();
    proof {
        lemma_items_view(a@);
    }
    if text.unicode_len() > 0 {
        crate::codec::chat::push_json(&mut a, pair_object("type", str_json("summary_text"), "text", str_json(text)));
    }
    assert(items_view(a@) =~= reasoning_summary(text@)->Array_0);
    Json::Array(a)
}

fn part_items_exec(p: &ContentPart, role: Role) -> (res: (Option<Json>, Option<Json>))
    ensures
        part_items(p@, role) == (match res.0 {
            Some(j) => Some(j@),
            None => None,
        }, match res.1 {
            Some(j) => Some(j@),
            None => None,
        }),
{
    match p {
        ContentPart::ToolUse { id, name, input, .. } => {
            let mut m: Vec<(String, Json)> = Vec::new();
            push_member(&mut m, "type", str_json("function_call"));
            push_member(&mut m, "call_id", str_json(id.as_str()));
            push_member(&mut m, "name", str_json(name.as_str()));
            push_member(&mut m, "arguments", str_json(stringify_arguments(input).as_str()));
            assert(members_view(m@) =~= part_items(p@, role).0->Some_0->Object_0);
            (Some(obj_of(m)), None)
        },
        ContentPart::ToolResult { id, content, is_error, .. } => {
            let out = output_text_for(content, *is_error);
            (Some(triple_object("type", str_json("function_call_output"), "call_id", str_json(id.as_str()), "output", str_json(out.as_str()))), None)
        },
        ContentPart::Thinking { text, signature } => {
            let mut m: Vec<(String, Json)> = Vec::new();
            push_member(&mut m, "type", str_json("reasoning"));
            push_member(&mut m, "summary", summary_array(text.as_str()));
            if let Some(s) = signature {
                push_member(&mut m, "encrypted_content", str_json(s.as_str()));
            }
            assert(members_view(m@) =~= part_items(p@, role).0->Some_0->Object_0);
            (Some(obj_of(m)), None)
        },
        ContentPart::RedactedThinking { data } => {
            let a: Vec<Json> = Vec::new();
            proof {
                lemma_items_view(a@);
            }
            (Some(triple_object("type", str_json("reasoning"), "summary", Json::Array(a), "encrypted_content", str_json(data.as_str()))), None)
        },
        ContentPart::Opaque { protocol, value } => (if text_eq(protocol.as_str(), "responses") { Some(value.duplicate()) } else { None }, None),
        other => (None, encode_content_part(other, role)),
    }
}

fn message_to_items(m: &Message, out: &mut Vec<Json>)
    ensures
        items_view(final(out)@) == items_view(old(out)@) + spec_message_to_items(m@),
{
    proof {
        lemma_parts_view(m.content@);
    }
    let ghost ps = pv(m.content);
    let ghost o0 = items_view(out@);
    let mut content: Vec<Json> = Vec::new();
    proof {
        lemma_items_view(content@);
        assert(ps.subrange(0, 0) =~= Seq::<PartV>::empty());
    }
    let mut i: usize = 0;
    while i < m.content.len()
        invariant
            i <= m.content.len(),
            ps == pv(m.content),
            ps.len() == m.content.len(),
            forall|k: int| 0 <= k < m.content.len() ==> #[trigger] ps[k] == m.content@[k]@,
            (items_view(out@).subrange(o0.len() as int, items_view(out@).len() as int), items_view(content@))
                == message_items(ps.subrange(0, i as int), m.role),
            items_view(out@).len() >= o0.len(),
            items_view(out@).subrange(0, o0.len() as int) == o0,
        decreases m.content.len() - i,
    {
        assert(ps.subrange(0, i + 1).drop_last() =~= ps.subrange(0, i as int));
        assert(ps.subrange(0, i + 1).last() == ps[i as int]);
        let ghost before = items_view(out@);
        let (item, c) = part_items_exec(&m.content[i], m.role);
        if let Some(it) = item {
            crate::codec::chat::push_json(out, it);
        }
        if let Some(x) = c {
            crate::codec::chat::push_json(&mut content, x);
        }
        proof {
            lemma_items_view(out@);
            assert(items_view(out@).subrange(o0.len() as int, items_view(out@).len() as int)
                =~= match part_items(ps[i as int], m.role).0 {
                    Some(v) => before.subrange(o0.len() as int, before.len() as int).push(v),
                    None => before.subrange(o0.len() as int, before.len() as int),
                });
            assert(items_view(out@).subrange(0, o0.len() as int) =~= o0);
        }
        i = i + 1;
    }
    assert(ps.subrange(0, m.content.len() as int) =~= ps);
    proof {
        lemma_items_view(content@);
    }
    if content.len() > 0 {
        let item = triple_object("type", str_json("message"), "role", str_json(role_str_exec(m.role)), "content", Json::Array(content));
        let ghost before = items_view(out@);
        crate::codec::chat::push_json(out, item);
        assert(before =~= o0 + before.subrange(o0.len() as int, before.len() as int));
        assert(items_view(out@) =~= o0 + spec_message_to_items(m@));
    } else {
        assert(items_view(out@) =~= o0 + spec_message_to_items(m@));
    }
}

fn encode_input_items(ms: &Vec<Message>) -> (res: Vec<Json>)
    ensures
        items_view(res@) == spec_encode_input_items(msgs(ms@)),
{
    let ghost mv = msgs(ms@);
    let mut out: Vec<Json> = Vec::new();
    proof {
        lemma_items_view(out@);
        assert(mv.subrange(0, 0) =~= Seq::<MessageV>::empty());
    }
    let mut i: usize = 0;
    while i < ms.len()
        invariant
            i <= ms.len(),
            mv == msgs(ms@),
            items_view(out@) == spec_encode_input_items(mv.subrange(0, i as int)),
        decreases ms.len() - i,
    {
        assert(mv.subrange(0, i + 1).drop_last() =~= mv.subrange(0, i as int));
        message_to_items(&ms[i], &mut out);
        i = i + 1;
    }
    assert(mv.subrange(0, ms.len() as int) =~= mv);
    out
}


/// A function tool in Responses' flat shape.
pub open spec fn spec_encode_tool(t: ToolV) -> JsonV {
    let m0 = seq![("type"@, js("function"@)), ("name"@, js(t.name))];
    let m1 = with_opt(m0, "description"@, match t.description {
        Some(d) => Some(js(d)),
        None => None,
    });
    let m2 = m1.push(("parameters"@, t.parameters));
    JsonV::Object(with_opt(m2, "strict"@, match t.strict {
        Some(s) => Some(JsonV::Bool(s)),
        None => None,
    }))
}

fn encode_tool(t: &ToolDef) -> (res: Json)
    ensures
        res@ == spec_encode_tool(t@),
{
    let mut m: Vec<(String, Json)> = Vec::new();
    push_member(&mut m, "type", str_json("function"));
    push_member(&mut m, "name", str_json(t.name.as_str()));
    if let Some(d) = &t.description {
        push_member(&mut m, "description", str_json(d.as_str()));
    }
    push_member(&mut m, "parameters", t.parameters.duplicate());
    if let Some(s) = t.strict {
        push_member(&mut m, "strict", Json::boolean(s));
    }
    assert(members_view(m@) =~= spec_encode_tool(t@)->Object_0);
    obj_of(m)
}

/// `tool_choice` as Responses writes it.
pub open spec fn spec_encode_tool_choice(c: ChoiceV) -> Option<JsonV> {
    match c {
        ChoiceV::Unspecified => None,
        ChoiceV::Auto => Some(js("auto"@)),
        ChoiceV::Required => Some(js("required"@)),
        ChoiceV::NoTool => Some(js("none"@)),
        ChoiceV::Tool(n) => Some(JsonV::Object(seq![("type"@, js("function"@)), ("name"@, js(n))])),
    }
}

fn encode_tool_choice(c: &ToolChoice) -> (res: Option<Json>)
    ensures
        spec_encode_tool_choice(c@) == match res {
            Some(j) => Some(j@),
            None => None,
        },
{
    match c {
        ToolChoice::Unspecified => None,
        ToolChoice::Auto => Some(str_json("auto")),
        ToolChoice::Required => Some(str_json("required")),
        ToolChoice::NoTool => Some(str_json("none")),
        ToolChoice::Tool(n) => Some(pair_object("type", str_json("function"), "name", str_json(n.as_str()))),
    }
}

/// `text.format` as Responses writes it.
pub open spec fn spec_encode_response_format(f: FormatV) -> JsonV {
    match f {
        FormatV::Text => JsonV::Object(seq![("type"@, js("text"@))]),
        FormatV::JsonObject => JsonV::Object(seq![("type"@, js("json_object"@))]),
        FormatV::JsonSchema { name, schema, strict } => JsonV::Object(seq![
            ("type"@, js("json_schema"@)),
            ("name"@, js(name)),
            ("schema"@, schema),
            ("strict"@, JsonV::Bool(strict)),
        ]),
    }
}

fn single_json(k: &str, v: Json) -> (res: Json)
    ensures
        res@ == JsonV::Object(seq![(k@, v@)]),
{
    let mut m: Vec<(String, Json)> = Vec::new();
    push_member(&mut m, k, v);
    assert(members_view(m@) =~= seq![(k@, v@)]);
    obj_of(m)
}

fn encode_response_format(f: &ResponseFormat) -> (res: Json)
    ensures
        res@ == spec_encode_response_format(f@),
{
    match f {
        ResponseFormat::Text => single_json("type", str_json("text")),
        ResponseFormat::JsonObject => single_json("type", str_json("json_object")),
        ResponseFormat::JsonSchema { name, schema, strict } => {
            let mut m: Vec<(String, Json)> = Vec::new();
            push_member(&mut m, "type", str_json("json_schema"));
            push_member(&mut m, "name", str_json(name.as_str()));
            push_member(&mut m, "schema", schema.duplicate());
            push_member(&mut m, "strict", Json::boolean(*strict));
            assert(members_view(m@) =~= spec_encode_response_format(f@)->Object_0);
            obj_of(m)
        },
    }
}

/// The effort tier a reasoning configuration stands for (see `effort_or_from_budget`).
pub open spec fn effort_of(r: ReasoningV, max_output: Option<u32>) -> Option<Seq<char>> {
    match r.effort {
        Some(e) => Some(canonical_effort(e)),
        None => match r.budget_tokens {
            Some(b) => Some(budget_tier(b, max_output)),
            None => None,
        },
    }
}

/// `reasoning`: the effort tier and whether a summary is wanted; none when neither is known.
pub open spec fn spec_encode_reasoning(r: ReasoningV, max_output: Option<u32>) -> Option<JsonV> {
    let m0: Seq<(Seq<char>, JsonV)> = Seq::empty();
    let m1 = with_opt(m0, "effort"@, match effort_of(r, max_output) {
        Some(e) => Some(js(e)),
        None => None,
    });
    let m2 = with_opt(m1, "summary"@, match r.include_thoughts {
        Some(b) => Some(js(if b { "auto"@ } else { "none"@ })),
        None => None,
    });
    if m2.len() == 0 { None } else { Some(JsonV::Object(m2)) }
}

fn encode_reasoning(r: &ReasoningConfig, max_output: Option<u32>) -> (res: Option<Json>)
    ensures
        spec_encode_reasoning(r@, max_output) == match res {
            Some(j) => Some(j@),
            None => None,
        },
{
    let mut m: Vec<(String, Json)> = Vec::new();
    proof {
        lemma_members_view(m@);
    }
    if let Some(e) = r.effort_or_from_budget(max_output) {
        push_member(&mut m, "effort", str_json(e));
    }
    if let Some(b) = r.include_thoughts {
        push_member(&mut m, "summary", str_json(if b { "auto" } else { "none" }));
    }
    proof {
        lemma_members_view(m@);
    }
    let ghost sm = {
        let m0: Seq<(Seq<char>, JsonV)> = Seq::empty();
        let m1 = with_opt(m0, "effort"@, match effort_of(r@, max_output) {
            Some(e) => Some(js(e)),
            None => None,
        });
        with_opt(m1, "summary"@, match r@.include_thoughts {
            Some(b) => Some(js(if b { "auto"@ } else { "none"@ })),
            None => None,
        })
    };
    assert(members_view(m@) =~= sm);
    if m.len() == 0 {
        None
    } else {
        Some(obj_of(m))
    }
}

/// Restores this protocol's extensions as top-level fields, replacing computed ones; the
/// moved built-in tools are not written back.
pub open spec fn resp_restore(ext: Seq<(Seq<char>, JsonV)>, body: Seq<(Seq<char>, JsonV)>, skip_builtins: bool) -> Seq<(Seq<char>, JsonV)>
    decreases ext.len(),
{
    if ext.len() == 0 {
        body
    } else {
        let prev = resp_restore(ext.drop_last(), body, skip_builtins);
        let (k, v) = ext.last();
        if k.len() >= 10 && k.subrange(0, 10) == "responses."@ {
            let f = k.subrange(10, k.len() as int);
            if skip_builtins && f == "builtin_tools"@ {
                prev
            } else {
                ext_insert(prev, f, v)
            }
        } else {
            prev
        }
    }
}

/// What restoring extensions leaves under `f`: the last extension `responses.<f>` overrides the
/// body, except the built-in tools when `skip_builtins` holds.
pub proof fn lemma_resp_restore_get(ext: Seq<(Seq<char>, JsonV)>, body: Seq<(Seq<char>, JsonV)>, skip_builtins: bool, f: Seq<char>)
    ensures
        member_get(resp_restore(ext, body, skip_builtins), f) == if skip_builtins && f == "builtin_tools"@ {
            member_get(body, f)
        } else {
            match member_last(ext, "responses."@ + f) {
                Some(v) => Some(v),
                None => member_get(body, f),
            }
        },
    decreases ext.len(),
{
    reveal_strlit("responses.");
    if ext.len() > 0 {
        let e1 = ext.drop_last();
        lemma_resp_restore_get(e1, body, skip_builtins, f);
        let prev = resp_restore(e1, body, skip_builtins);
        let (k, v) = ext.last();
        let key = "responses."@ + f;
        assert(key.subrange(0, 10) =~= "responses."@);
        assert(key.subrange(10, key.len() as int) =~= f);
        if k.len() >= 10 && k.subrange(0, 10) == "responses."@ {
            let g = k.subrange(10, k.len() as int);
            assert(k == key <==> g == f) by {
                if g == f {
                    assert(k =~= "responses."@ + g);
                }
            }
            if skip_builtins && g == "builtin_tools"@ {
            } else {
                lemma_ext_insert(prev, g, v);
            }
        } else {
            assert(k != key);
        }
    }
}

fn restore_extensions(ext: &Extensions, body: &mut Extensions, skip_builtins: bool)
    ensures
        final(body)@ == resp_restore(ext@, old(body)@, skip_builtins),
{
    proof {
        reveal_strlit("responses.");
    }
    let n = ext.len();
    let ghost e = ext@;
    let mut i: usize = 0;
    assert(e.subrange(0, 0) =~= Seq::<(Seq<char>, JsonV)>::empty());
    while i < n
        invariant
            i <= n,
            n == e.len(),
            e == ext@,
            body@ == resp_restore(e.subrange(0, i as int), old(body)@, skip_builtins),
        decreases n - i,
    {
        proof {
            reveal_strlit("responses.");
        }
        assert(e.subrange(0, i + 1).drop_last() =~= e.subrange(0, i as int));
        let (k, v) = ext.entry(i);
        if let Some(f) = strip_prefix(k, "responses.") {
            if !(skip_builtins && text_eq(f, "builtin_tools")) {
                body.insert(owned(f), v.duplicate());
            }
        }
        i = i + 1;
    }
    assert(e.subrange(0, n as int) =~= e);
}

/// `tools[]`: the function tools, then the kept built-in tools.
pub open spec fn responses_tools_json(r: RequestV) -> Seq<JsonV> {
    r.tools.map_values(|t: ToolV| spec_encode_tool(t)) + match member_get(r.extensions, "responses.builtin_tools"@) {
        Some(JsonV::Array(b)) => b,
        _ => Seq::empty(),
    }
}

/// The Responses request body for an IR request.
pub open spec fn spec_responses_encode_request(r: RequestV) -> JsonV {
    let s = r.sampling;
    let b0 = ext_insert(Seq::empty(), "model"@, js(r.model));
    let b1 = if r.system.len() > 0 { ext_insert(b0, "instructions"@, js(system_join(r.system))) } else { b0 };
    let b2 = ext_insert(b1, "input"@, JsonV::Array(spec_encode_input_items(r.messages)));
    let b3 = if r.stream { ext_insert(b2, "stream"@, JsonV::Bool(true)) } else { b2 };
    let b4 = ext_opt(b3, "max_output_tokens"@, match r.max_output_tokens { Some(m) => Some(num(m as u64)), None => None });
    let b5 = ext_opt(b4, "temperature"@, match s.temperature { Some(t) => Some(JsonV::Number(t)), None => None });
    let b6 = ext_opt(b5, "top_p"@, match s.top_p { Some(t) => Some(JsonV::Number(t)), None => None });
    let b7 = ext_opt(b6, "parallel_tool_calls"@, match r.parallel_tool_calls { Some(p) => Some(JsonV::Bool(p)), None => None });
    let b8 = ext_opt(b7, "user"@, match r.user { Some(u) => Some(js(u)), None => None });
    let tools = responses_tools_json(r);
    let b9 = if tools.len() > 0 { ext_insert(b8, "tools"@, JsonV::Array(tools)) } else { b8 };
    let b10 = ext_opt(b9, "tool_choice"@, spec_encode_tool_choice(r.tool_choice));
    let b11 = ext_opt(b10, "text"@, match r.response_format {
        Some(f) => Some(JsonV::Object(seq![("format"@, spec_encode_response_format(f))])),
        None => None,
    });
    let b12 = ext_opt(b11, "reasoning"@, match r.reasoning {
        Some(rs) => spec_encode_reasoning(rs, r.max_output_tokens),
        None => None,
    });
    JsonV::Object(resp_restore(r.extensions, b12, true))
}

fn put_opt(body: &mut Extensions, key: &str, v: Option<Json>)
    ensures
        final(body)@ == ext_opt(old(body)@, key@, match v {
            Some(j) => Some(j@),
            None => None,
        }),
{
    if let Some(j) = v {
        body.insert(owned(key), j);
    }
}

fn tools_exec(ir: &UnifiedRequest) -> (res: Vec<Json>)
    ensures
        items_view(res@) == responses_tools_json(ir@),
{
    let mut out: Vec<Json> = Vec::new();
    proof {
        lemma_items_view(out@);
    }
    let ghost ts = tls(ir.tools@);
    let mut i: usize = 0;
    while i < ir.tools.len()
        invariant
            i <= ir.tools.len(),
            ts == tls(ir.tools@),
            items_view(out@) == ts.subrange(0, i as int).map_values(|t: ToolV| spec_encode_tool(t)),
        decreases ir.tools.len() - i,
    {
        crate::codec::chat::push_json(&mut out, encode_tool(&ir.tools[i]));
        assert(items_view(out@) =~= ts.subrange(0, i + 1).map_values(|t: ToolV| spec_encode_tool(t)));
        i = i + 1;
    }
    assert(ts.subrange(0, ir.tools.len() as int) =~= ts);
    let ghost head = items_view(out@);
    match ir.extension("responses.builtin_tools") {
        Some(Json::Array(b)) => {
            proof {
                lemma_items_view(b@);
            }
            let mut j: usize = 0;
            while j < b.len()
                invariant
                    j <= b.len(),
                    items_view(b@).len() == b.len(),
                    forall|t: int| 0 <= t < b.len() ==> #[trigger] items_view(b@)[t] == b@[t]@,
                    items_view(out@) == head + items_view(b@).subrange(0, j as int),
                decreases b.len() - j,
            {
                crate::codec::chat::push_json(&mut out, b[j].duplicate());
                assert(items_view(out@) =~= head + items_view(b@).subrange(0, j + 1));
                j = j + 1;
            }
            assert(items_view(b@).subrange(0, b.len() as int) =~= items_view(b@));
        },
        _ => {
            assert(items_view(out@) =~= head + Seq::<JsonV>::empty());
        },
    }
    out
}

impl ResponsesCodec {
    /// Encodes an IR request as a Responses body.
    pub fn encode_request(&self, ir: &UnifiedRequest) -> (res: Json)
        ensures
            res@ == spec_responses_encode_request(ir@),
    {
        let mut body = Extensions::new();
        assert(body@ =~= Seq::<(Seq<char>, JsonV)>::empty());
        body.insert(owned("model"), str_json(ir.model.as_str()));
        if ir.system.len() > 0 {
            body.insert(owned("instructions"), str_json(ir.system_text().as_str()));
        }
        body.insert(owned("input"), Json::Array(encode_input_items(&ir.messages)));
        if ir.stream {
            body.insert(owned("stream"), Json::boolean(true));
        }
        put_opt(&mut body, "max_output_tokens", match ir.max_output_tokens {
            Some(m) => Some(Json::uint(m as u64)),
            None => None,
        });
        put_opt(&mut body, "temperature", match &ir.sampling.temperature {
            Some(t) => Some(Json::Number(t.duplicate())),
            None => None,
        });
        put_opt(&mut body, "top_p", match &ir.sampling.top_p {
            Some(t) => Some(Json::Number(t.duplicate())),
            None => None,
        });
        put_opt(&mut body, "parallel_tool_calls", match ir.parallel_tool_calls {
            Some(p) => Some(Json::boolean(p)),
            None => None,
        });
        put_opt(&mut body, "user", match &ir.user {
            Some(u) => Some(str_json(u.as_str())),
            None => None,
        });
        let tools = tools_exec(ir);
        proof {
            lemma_items_view(tools@);
        }
        if tools.len() > 0 {
            body.insert(owned("tools"), Json::Array(tools));
        }
        put_opt(&mut body, "tool_choice", encode_tool_choice(&ir.tool_choice));
        put_opt(&mut body, "text", match &ir.response_format {
            Some(f) => Some(single_json("format", encode_response_format(f))),
            None => None,
        });
        put_opt(&mut body, "reasoning", match &ir.reasoning {
            Some(r) => encode_reasoning(r, ir.max_output_tokens),
            None => None,
        });
        restore_extensions(&ir.extensions, &mut body, true);
        body.into_json()
    }
}


// ---------------------------------------------------------------------------
// Responses
// ---------------------------------------------------------------------------

/// The error kind a Responses error `type` (or `code`) stands for.
pub open spec fn spec_responses_error_kind(kind: Seq<char>) -> ErrorKind {
    if kind == "invalid_request_error"@ || kind == "invalid_prompt"@ {
        ErrorKind::InvalidRequest
    } else if kind == "authentication_error"@ {
        ErrorKind::Unauthenticated
    } else if kind == "not_found_error"@ || kind == "model_not_found"@ {
        ErrorKind::NotFound
    } else if kind == "rate_limit_exceeded"@ || kind == "rate_limit_error"@ {
        ErrorKind::RateLimited
    } else {
        ErrorKind::UpstreamError
    }
}

/// The type of an error object: its `type`, else its `code`, as text.
pub open spec fn error_type_of(err: JsonV) -> Seq<char> {
    match opt_str(err.get("type"@)) {
        Some(t) => t,
        None => str_or(opt_str(err.get("code"@)), Seq::empty()),
    }
}

/// The gateway error an `error` object stands for.
pub open spec fn spec_responses_error(err: JsonV) -> GatewayErrorV {
    GatewayErrorV {
        kind: spec_responses_error_kind(error_type_of(err)),
        message: str_or(opt_str(err.get("message"@)), "upstream returned an error without a message"@),
        protocol: Some(Protocol::Responses),
        upstream_status: None,
        upstream_body: Some(json_render(err)),
    }
}

/// The gateway error for an `error` object; the object's JSON text is kept as the upstream body.
pub fn decode_error_body(err: &Json) -> (res: GatewayError)
    ensures
        res@ == spec_responses_error(err@),
        res.upstream_status.is_none(),
        res.upstream_body matches Some(b) && b@ == json_render(err@),
{
    let message = match err.get_str("message") {
        Some(m) => owned(m),
        None => owned("upstream returned an error without a message"),
    };
    let kind: &str = match err.get_str("type") {
        Some(t) => t,
        None => match err.get_str("code") {
            Some(c) => c,
            None => "",
        },
    };
    proof {
        reveal_strlit("");
        assert(error_type_of(err@) == kind@);
        assert(str_or(opt_str(err@.get("message"@)), "upstream returned an error without a message"@) == message@);
    }
    let k = if text_eq(kind, "invalid_request_error") || text_eq(kind, "invalid_prompt") {
        ErrorKind::InvalidRequest
    } else if text_eq(kind, "authentication_error") {
        ErrorKind::Unauthenticated
    } else if text_eq(kind, "not_found_error") || text_eq(kind, "model_not_found") {
        ErrorKind::NotFound
    } else if text_eq(kind, "rate_limit_exceeded") || text_eq(kind, "rate_limit_error") {
        ErrorKind::RateLimited
    } else {
        ErrorKind::UpstreamError
    };
    let e = GatewayError::new(k, message).with_protocol(Protocol::Responses);
    GatewayError {
        kind: e.kind,
        message: e.message,
        protocol: e.protocol,
        upstream_status: None,
        upstream_body: Some(err.render()),
    }
}

/// The parts one `output` item contributes.
pub open spec fn output_item_parts(item: JsonV) -> Seq<PartV> {
    let t = text_or_empty_of(item, "type"@);
    if t == "message"@ {
        match item.get("content"@) {
            Some(JsonV::Array(a)) => content_parts_of(a),
            _ => Seq::empty(),
        }
    } else if t == "function_call"@ {
        seq![PartV::ToolUse {
            id: call_id_of(item),
            name: text_or_empty_of(item, "name"@),
            input: spec_parse_arguments(item.get("arguments"@)),
            signature: None,
        }]
    } else if t == "reasoning"@ {
        seq![PartV::Thinking { text: reasoning_text(item), signature: opt_str(item.get("encrypted_content"@)) }]
    } else {
        seq![PartV::Opaque { protocol: "responses"@, value: item }]
    }
}

/// The parts of the `output` items, in order (non-objects skipped).
pub open spec fn spec_decode_output_items(items: Seq<JsonV>) -> Seq<PartV>
    decreases items.len(),
{
    if items.len() == 0 {
        Seq::empty()
    } else {
        let prev = spec_decode_output_items(items.drop_last());
        if items.last() is Object { prev + output_item_parts(items.last()) } else { prev }
    }
}

fn output_item_parts_exec(item: &Json, out: &mut Vec<ContentPart>)
    ensures
        pv(*final(out)) == pv(*old(out)) + output_item_parts(item@),
{
    let t = match item.get_str("type") {
        Some(t) => t,
        None => "",
    };
    proof {
        reveal_strlit("");
        reveal_strlit("message");
        reveal_strlit("function_call");
        reveal_strlit("reasoning");
        assert(text_or_empty_of(item@, "type"@) == t@);
    }
    let more: Vec<ContentPart> = if text_eq(t, "message") {
        match item.get("content") {
            Some(Json::Array(a)) => content_parts_exec(a),
            _ => no_parts(),
        }
    } else if text_eq(t, "function_call") {
        let mut v: Vec<ContentPart> = Vec::new();
        let p = ContentPart::ToolUse {
            id: call_id_exec(item),
            name: text_or_empty(item.get_str("name")),
            input: parse_arguments(item.get("arguments")),
            signature: None,
        };
        v.push(p);
        proof {
            lemma_parts_view(v@);
            assert(pv(v) =~= seq![p@]);
        }
        v
    } else if text_eq(t, "reasoning") {
        let mut v: Vec<ContentPart> = Vec::new();
        let p = ContentPart::Thinking { text: reasoning_text_exec(item), signature: opt_owned(item.get_str("encrypted_content")) };
        v.push(p);
        proof {
            lemma_parts_view(v@);
            assert(pv(v) =~= seq![p@]);
        }
        v
    } else {
        let mut v: Vec<ContentPart> = Vec::new();
        let p = ContentPart::Opaque { protocol: owned("responses"), value: item.duplicate() };
        v.push(p);
        proof {
            lemma_parts_view(v@);
            assert(pv(v) =~= seq![p@]);
        }
        v
    };
    crate::codec::chat::append_parts(out, more);
}

fn decode_output_items(items: &Vec<Json>) -> (res: Vec<ContentPart>)
    ensures
        pv(res) == spec_decode_output_items(items_view(items@)),
{
    proof {
        lemma_items_view(items@);
    }
    let ghost its = items_view(items@);
    let mut out: Vec<ContentPart> = Vec::new();
    proof {
        lemma_parts_view(out@);
        assert(its.subrange(0, 0) =~= Seq::<JsonV>::empty());
    }
    let mut i: usize = 0;
    while i < items.len()
        invariant
            i <= items.len(),
            its == items_view(items@),
            its.len() == items.len(),
            forall|k: int| 0 <= k < items.len() ==> #[trigger] its[k] == items@[k]@,
            pv(out) == spec_decode_output_items(its.subrange(0, i as int)),
        decreases items.len() - i,
    {
        assert(its.subrange(0, i + 1).drop_last() =~= its.subrange(0, i as int));
        assert(its.subrange(0, i + 1).last() == its[i as int]);
        if items[i].is_object() {
            output_item_parts_exec(&items[i], &mut out);
        }
        i = i + 1;
    }
    assert(its.subrange(0, items.len() as int) =~= its);
    out
}

/// Whether some part is a tool call.
pub open spec fn has_tool_use(parts: Seq<PartV>) -> bool {
    exists|k: int| 0 <= k < parts.len() && #[trigger] parts[k] is ToolUse
}

/// Whether some part is a refusal.
pub open spec fn has_refusal(parts: Seq<PartV>) -> bool {
    exists|k: int| 0 <= k < parts.len() && #[trigger] parts[k] is Refusal
}

fn scan_parts(parts: &Vec<ContentPart>) -> (res: (bool, bool))
    ensures
        res.0 == has_tool_use(pv(*parts)),
        res.1 == has_refusal(pv(*parts)),
{
    proof {
        lemma_parts_view(parts@);
    }
    let mut tool = false;
    let mut refusal = false;
    let mut i: usize = 0;
    while i < parts.len()
        invariant
            i <= parts.len(),
            pv(*parts).len() == parts.len(),
            forall|k: int| 0 <= k < parts.len() ==> #[trigger] pv(*parts)[k] == parts@[k]@,
            tool == exists|k: int| 0 <= k < i && #[trigger] pv(*parts)[k] is ToolUse,
            refusal == exists|k: int| 0 <= k < i && #[trigger] pv(*parts)[k] is Refusal,
        decreases parts.len() - i,
    {
        match &parts[i] {
            ContentPart::ToolUse { .. } => {
                tool = true;
            },
            ContentPart::Refusal { .. } => {
                refusal = true;
            },
            _ => {},
        }
        assert(pv(*parts)[i as int] == parts@[i as int]@);
        i = i + 1;
    }
    (tool, refusal)
}

/// A kept field of the response, under `responses.` + `key`, when present and not null.
pub open spec fn spec_responses_decode_response(raw: JsonV, now: i64) -> Result<ResponseV, GatewayErrorV>
    decreases raw,
{
    match raw {
        JsonV::Object(m) => match raw.get("error"@) {
            Some(e) => if !(e is Null) {
                Err(spec_responses_error(e))
            } else {
                decoded_response_body(raw, now)
            },
            None => match member_get(m, "response"@) {
                Some(JsonV::Object(inner)) => {
                    proof {
                        lemma_member_get_decreases(m, "response"@);
                    }
                    spec_responses_decode_response(JsonV::Object(inner), now)
                },
                _ => decoded_response_body(raw, now),
            },
        },
        _ => Err(plain_error(ErrorKind::InvalidRequest, "response body must be a JSON object"@, None)),
    }
}

/// The response an object that is neither an error nor a wrapper stands for.
pub open spec fn decoded_response_body(raw: JsonV, now: i64) -> Result<ResponseV, GatewayErrorV> {
    let content = match raw.get("output"@) {
        Some(JsonV::Array(items)) => spec_decode_output_items(items),
        _ => Seq::empty(),
    };
    let e0: Seq<(Seq<char>, JsonV)> = Seq::empty();
    let ext = keep_field(keep_field(keep_field(e0, raw, "previous_response_id"@), raw, "store"@), raw, "conversation"@);
    Ok(ResponseV {
        id: text_or_empty_of(raw, "id"@),
        model: text_or_empty_of(raw, "model"@),
        created: match spec_as_i64(raw.get("created_at"@)) {
            Some(c) => c,
            None => now,
        },
        content,
        stop_reason: Some(spec_map_status(
            str_or(opt_str(raw.get("status"@)), "completed"@),
            opt_str(opt_get(raw.get("incomplete_details"@), "reason"@)),
            has_tool_use(content),
            has_refusal(content),
        )),
        stop_sequence: None,
        usage: match raw.get("usage"@) {
            Some(u) => spec_decode_usage(u),
            None => Usage::zero_spec(),
        },
        extensions: ext,
    })
}

fn decoded_response_body_exec(raw: &Json, now: i64) -> (res: UnifiedResponse)
    ensures
        decoded_response_body(raw@, now) == Ok::<ResponseV, GatewayErrorV>(res@),
{
    let content = match raw.get("output") {
        Some(Json::Array(items)) => decode_output_items(items),
        _ => no_parts(),
    };
    let (tool, refusal) = scan_parts(&content);
    let status: &str = match raw.get_str("status") {
        Some(s) => s,
        None => "completed",
    };
    let reason = match raw.get("incomplete_details") {
        Some(d) => d.get_str("reason"),
        None => None,
    };
    let stop = map_status(status, reason, tool, refusal);
    let mut ext = Extensions::new();
    assert(ext@ =~= Seq::<(Seq<char>, JsonV)>::empty());
    keep_field_exec(&mut ext, raw, "previous_response_id");
    keep_field_exec(&mut ext, raw, "store");
    keep_field_exec(&mut ext, raw, "conversation");
    let usage = match raw.get("usage") {
        Some(u) => decode_usage(u),
        None => Usage::zero(),
    };
    UnifiedResponse {
        id: text_or_empty(raw.get_str("id")),
        model: text_or_empty(raw.get_str("model")),
        created: match as_i64(raw.get("created_at")) {
            Some(c) => c,
            None => now,
        },
        content,
        stop_reason: Some(stop),
        stop_sequence: None,
        usage,
        extensions: ext,
    }
}

fn decode_response_from(raw: &Json, now: i64) -> (res: Result<UnifiedResponse, GatewayError>)
    ensures
        match res {
            Ok(r) => spec_responses_decode_response(raw@, now) == Ok::<ResponseV, GatewayErrorV>(r@),
            Err(e) => spec_responses_decode_response(raw@, now) == Err::<ResponseV, GatewayErrorV>(e@),
        },
    decreases raw@,
{
    let members = match raw {
        Json::Object(m) => m,
        _ => return Err(GatewayError::invalid_request(owned("response body must be a JSON object"))),
    };
    match raw.get("error") {
        Some(e) => if !e.is_null() {
            return Err(decode_error_body(e));
        } else {
            return Ok(decoded_response_body_exec(raw, now));
        },
        None => {},
    }
    match raw.get("response") {
        Some(inner) => match inner {
            Json::Object(_) => {
                proof {
                    lemma_member_get_decreases(members_view(members@), "response"@);
                }
                decode_response_from(inner, now)
            },
            _ => Ok(decoded_response_body_exec(raw, now)),
        },
        None => Ok(decoded_response_body_exec(raw, now)),
    }
}

impl ResponsesCodec {
    /// Decodes a Responses response body (unwrapping a `{response: ...}` envelope), stamping it
    /// with time `now` when it carries no `created_at`.
    pub fn decode_response_at(&self, raw: &Json, now: i64) -> (res: Result<UnifiedResponse, GatewayError>)
        ensures
            match res {
                Ok(r) => spec_responses_decode_response(raw@, now) == Ok::<ResponseV, GatewayErrorV>(r@),
                Err(e) => spec_responses_decode_response(raw@, now) == Err::<ResponseV, GatewayErrorV>(e@),
            },
    {
        decode_response_from(raw, now)
    }

    /// Decodes a Responses response body at the current time.
    pub fn decode_response(&self, raw: &Json) -> (res: Result<UnifiedResponse, GatewayError>)
        ensures
            exists|now: i64| match res {
                Ok(r) => #[trigger] spec_responses_decode_response(raw@, now) == Ok::<ResponseV, GatewayErrorV>(r@),
                Err(e) => spec_responses_decode_response(raw@, now) == Err::<ResponseV, GatewayErrorV>(e@),
            },
    {
        let now = now_unix_seconds();
        self.decode_response_at(raw, now)
    }
}


/// What one part contributes to a response's output: an item of its own, or a part of the
/// final message item.
pub open spec fn output_piece(p: PartV, rid: Seq<char>) -> (Option<JsonV>, Option<JsonV>) {
    match p {
        PartV::ToolUse { id, name, input, .. } => (Some(JsonV::Object(seq![
            ("type"@, js("function_call"@)),
            ("id"@, js("fc_"@ + id)),
            ("call_id"@, js(id)),
            ("name"@, js(name)),
            ("arguments"@, js(spec_stringify_arguments(input))),
            ("status"@, js("completed"@)),
        ])), None),
        PartV::Thinking { text, signature } => (Some(JsonV::Object(with_opt(
            seq![("type"@, js("reasoning"@)), ("id"@, js("rs_"@ + rid)), ("summary"@, reasoning_summary(text))],
            "encrypted_content"@,
            match signature {
                Some(s) => Some(js(s)),
                None => None,
            },
        ))), None),
        PartV::RedactedThinking { data } => (Some(JsonV::Object(seq![
            ("type"@, js("reasoning"@)),
            ("id"@, js("rs_"@ + rid)),
            ("summary"@, JsonV::Array(Seq::empty())),
            ("encrypted_content"@, js(data)),
        ])), None),
        PartV::Text { text } => (None, Some(JsonV::Object(seq![
            ("type"@, js("output_text"@)),
            ("text"@, js(text)),
            ("annotations"@, JsonV::Array(Seq::empty())),
        ]))),
        PartV::Refusal { text } => (None, Some(JsonV::Object(seq![("type"@, js("refusal"@)), ("refusal"@, js(text))]))),
        PartV::Opaque { protocol, value } => (if protocol == "responses"@ { Some(value) } else { None }, None),
        _ => (None, None),
    }
}

/// The stand-alone output items and the message parts of a response's content, in order.
pub open spec fn output_pieces(parts: Seq<PartV>, rid: Seq<char>) -> (Seq<JsonV>, Seq<JsonV>)
    decreases parts.len(),
{
    if parts.len() == 0 {
        (Seq::empty(), Seq::empty())
    } else {
        let (items, mp) = output_pieces(parts.drop_last(), rid);
        let (i, c) = output_piece(parts.last(), rid);
        (
            match i {
                Some(x) => items.push(x),
                None => items,
            },
            match c {
                Some(x) => mp.push(x),
                None => mp,
            },
        )
    }
}

/// The `output` of a response: reasoning and tool calls first, the message item last.
pub open spec fn spec_encode_output_items(r: ResponseV) -> Seq<JsonV> {
    let (items, mp) = output_pieces(r.content, r.id);
    if mp.len() > 0 {
        items.push(JsonV::Object(seq![
            ("type"@, js("message"@)),
            ("id"@, js("msg_"@ + r.id)),
            ("role"@, js("assistant"@)),
            ("status"@, js("completed"@)),
            ("content"@, JsonV::Array(mp)),
        ]))
    } else {
        items
    }
}

/// The Responses body for an IR response (a response that has not stopped reports `completed`).
pub open spec fn spec_responses_encode_response(r: ResponseV) -> JsonV {
    let reason = match r.stop_reason {
        Some(s) => s,
        None => StopReason::Stop,
    };
    let m = seq![
        ("id"@, js(r.id)),
        ("object"@, js("response"@)),
        ("created_at"@, int_json(r.created)),
        ("model"@, js(r.model)),
        ("status"@, js(spec_status_str(reason))),
        ("output"@, JsonV::Array(spec_encode_output_items(r))),
        ("output_text"@, js(text_of(r.content))),
        ("parallel_tool_calls"@, JsonV::Bool(true)),
        ("tool_choice"@, js("auto"@)),
        ("tools"@, JsonV::Array(Seq::empty())),
        ("usage"@, spec_encode_usage(r.usage)),
        ("incomplete_details"@, incomplete_details(Some(reason))),
        ("error"@, JsonV::Null),
    ];
    let m2 = with_opt(m, "metadata"@, match r.stop_sequence {
        Some(s) => Some(JsonV::Object(seq![("stop_sequence"@, js(s))])),
        None => None,
    });
    JsonV::Object(resp_restore(r.extensions, m2, false))
}

fn output_piece_exec(p: &ContentPart, rid: &str) -> (res: (Option<Json>, Option<Json>))
    ensures
        output_piece(p@, rid@) == (match res.0 {
            Some(j) => Some(j@),
            None => None,
        }, match res.1 {
            Some(j) => Some(j@),
            None => None,
        }),
{
    match p {
        ContentPart::ToolUse { id, name, input, .. } => {
            let mut m: Vec<(String, Json)> = Vec::new();
            push_member(&mut m, "type", str_json("function_call"));
            push_member(&mut m, "id", str_json(concat("fc_", id.as_str()).as_str()));
            push_member(&mut m, "call_id", str_json(id.as_str()));
            push_member(&mut m, "name", str_json(name.as_str()));
            push_member(&mut m, "arguments", str_json(stringify_arguments(input).as_str()));
            push_member(&mut m, "status", str_json("completed"));
            assert(members_view(m@) =~= output_piece(p@, rid@).0->Some_0->Object_0);
            (Some(obj_of(m)), None)
        },
        ContentPart::Thinking { text, signature } => {
            let mut m: Vec<(String, Json)> = Vec::new();
            push_member(&mut m, "type", str_json("reasoning"));
            push_member(&mut m, "id", str_json(concat("rs_", rid).as_str()));
            push_member(&mut m, "summary", summary_array(text.as_str()));
            if let Some(s) = signature {
                push_member(&mut m, "encrypted_content", str_json(s.as_str()));
            }
            assert(members_view(m@) =~= output_piece(p@, rid@).0->Some_0->Object_0);
            (Some(obj_of(m)), None)
        },
        ContentPart::RedactedThinking { data } => {
            let a: Vec<Json> = Vec::new();
            proof {
                lemma_items_view(a@);
            }
            let mut m: Vec<(String, Json)> = Vec::new();
            push_member(&mut m, "type", str_json("reasoning"));
            push_member(&mut m, "id", str_json(concat("rs_", rid).as_str()));
            push_member(&mut m, "summary", Json::Array(a));
            push_member(&mut m, "encrypted_content", str_json(data.as_str()));
            assert(members_view(m@) =~= output_piece(p@, rid@).0->Some_0->Object_0);
            (Some(obj_of(m)), None)
        },
        ContentPart::Text { text } => {
            let a: Vec<Json> = Vec::new();
            proof {
                lemma_items_view(a@);
            }
            (None, Some(triple_object("type", str_json("output_text"), "text", str_json(text.as_str()), "annotations", Json::Array(a))))
        },
        ContentPart::Refusal { text } => (None, Some(pair_object("type", str_json("refusal"), "refusal", str_json(text.as_str())))),
        ContentPart::Opaque { protocol, value } => (if text_eq(protocol.as_str(), "responses") { Some(value.duplicate()) } else { None }, None),
        _ => (None, None),
    }
}

fn encode_output_items(ir: &UnifiedResponse) -> (res: Vec<Json>)
    ensures
        items_view(res@) == spec_encode_output_items(ir@),
{
    proof {
        lemma_parts_view(ir.content@);
    }
    let ghost ps = pv(ir.content);
    let mut items: Vec<Json> = Vec::new();
    let mut mp: Vec<Json> = Vec::new();
    proof {
        lemma_items_view(items@);
        lemma_items_view(mp@);
        assert(ps.subrange(0, 0) =~= Seq::<PartV>::empty());
    }
    let mut i: usize = 0;
    while i < ir.content.len()
        invariant
            i <= ir.content.len(),
            ps == pv(ir.content),
            ps.len() == ir.content.len(),
            forall|k: int| 0 <= k < ir.content.len() ==> #[trigger] ps[k] == ir.content@[k]@,
            (items_view(items@), items_view(mp@)) == output_pieces(ps.subrange(0, i as int), ir.id@),
        decreases ir.content.len() - i,
    {
        assert(ps.subrange(0, i + 1).drop_last() =~= ps.subrange(0, i as int));
        assert(ps.subrange(0, i + 1).last() == ps[i as int]);
        let (it, c) = output_piece_exec(&ir.content[i], ir.id.as_str());
        if let Some(x) = it {
            crate::codec::chat::push_json(&mut items, x);
        }
        if let Some(x) = c {
            crate::codec::chat::push_json(&mut mp, x);
        }
        i = i + 1;
    }
    assert(ps.subrange(0, ir.content.len() as int) =~= ps);
    proof {
        lemma_items_view(mp@);
    }
    if mp.len() > 0 {
        let mut m: Vec<(String, Json)> = Vec::new();
        push_member(&mut m, "type", str_json("message"));
        push_member(&mut m, "id", str_json(concat("msg_", ir.id.as_str()).as_str()));
        push_member(&mut m, "role", str_json("assistant"));
        push_member(&mut m, "status", str_json("completed"));
        push_member(&mut m, "content", Json::Array(mp));
        let ghost mpv = output_pieces(ps, ir.id@).1;
        assert(members_view(m@) =~= seq![
            ("type"@, js("message"@)),
            ("id"@, js("msg_"@ + ir.id@)),
            ("role"@, js("assistant"@)),
            ("status"@, js("completed"@)),
            ("content"@, JsonV::Array(mpv)),
        ]);
        crate::codec::chat::push_json(&mut items, obj_of(m));
    }
    items
}

impl ResponsesCodec {
    /// Encodes an IR response as a Responses body.
    pub fn encode_response(&self, ir: &UnifiedResponse) -> (res: Json)
        ensures
            res@ == spec_responses_encode_response(ir@),
    {
        let reason = match ir.stop_reason {
            Some(s) => s,
            None => StopReason::Stop,
        };
        let empty: Vec<Json> = Vec::new();
        proof {
            lemma_items_view(empty@);
        }
        let mut m: Vec<(String, Json)> = Vec::new();
        push_member(&mut m, "id", str_json(ir.id.as_str()));
        push_member(&mut m, "object", str_json("response"));
        push_member(&mut m, "created_at", int_json_exec(ir.created));
        push_member(&mut m, "model", str_json(ir.model.as_str()));
        push_member(&mut m, "status", str_json(status_str(reason)));
        push_member(&mut m, "output", Json::Array(encode_output_items(ir)));
        push_member(&mut m, "output_text", str_json(ir.text().as_str()));
        push_member(&mut m, "parallel_tool_calls", Json::boolean(true));
        push_member(&mut m, "tool_choice", str_json("auto"));
        push_member(&mut m, "tools", Json::Array(empty));
        push_member(&mut m, "usage", encode_usage(&ir.usage));
        push_member(&mut m, "incomplete_details", incomplete_details_exec(Some(reason)));
        push_member(&mut m, "error", Json::Null);
        if let Some(s) = &ir.stop_sequence {
            push_member(&mut m, "metadata", single_json("stop_sequence", str_json(s.as_str())));
        }
        let ghost r = ir@;
        let ghost m0 = seq![
            ("id"@, js(r.id)),
            ("object"@, js("response"@)),
            ("created_at"@, int_json(r.created)),
            ("model"@, js(r.model)),
            ("status"@, js(spec_status_str(reason))),
            ("output"@, JsonV::Array(spec_encode_output_items(r))),
            ("output_text"@, js(text_of(r.content))),
            ("parallel_tool_calls"@, JsonV::Bool(true)),
            ("tool_choice"@, js("auto"@)),
            ("tools"@, JsonV::Array(Seq::empty())),
            ("usage"@, spec_encode_usage(r.usage)),
            ("incomplete_details"@, incomplete_details(Some(reason))),
            ("error"@, JsonV::Null),
        ];
        assert(members_view(m@) =~= with_opt(m0, "metadata"@, match r.stop_sequence {
            Some(s) => Some(JsonV::Object(seq![("stop_sequence"@, js(s))])),
            None => None,
        }));
        let mut body = Extensions::from_entries(m);
        restore_extensions(&ir.extensions, &mut body, false);
        body.into_json()
    }
}

/// A reasoning part written into a response's output and read back keeps its text and its
/// signature (carried as `encrypted_content`).
pub proof fn law_reasoning_item_round_trip(text: Seq<char>, signature: Option<Seq<char>>, rid: Seq<char>)
    ensures
        output_piece(PartV::Thinking { text, signature }, rid).0 matches Some(item)
            && output_item_parts(item) == seq![PartV::Thinking { text, signature }],
{
    reveal_with_fuel(member_get, 5);
    reveal_strlit("type");
    reveal_strlit("id");
    reveal_strlit("summary");
    reveal_strlit("content");
    reveal_strlit("encrypted_content");
    reveal_strlit("reasoning");
    reveal_strlit("message");
    reveal_strlit("function_call");
    reveal_strlit("summary_text");
    reveal_strlit("text");
    let base = seq![("type"@, js("reasoning"@)), ("id"@, js("rs_"@ + rid)), ("summary"@, reasoning_summary(text))];
    let m = with_opt(base, "encrypted_content"@, match signature {
        Some(s) => Some(js(s)),
        None => None,
    });
    let item = JsonV::Object(m);
    assert(output_piece(PartV::Thinking { text, signature }, rid).0 == Some(item));
    let m1 = m.drop_first();
    let m2 = m1.drop_first();
    let m3 = m2.drop_first();
    assert(m[0] == ("type"@, js("reasoning"@)));
    assert(item.get("type"@) == Some(js("reasoning"@)));
    assert(text_or_empty_of(item, "type"@) == "reasoning"@);
    assert("reasoning"@.len() != "message"@.len() && "reasoning"@.len() != "function_call"@.len());
    assert(m1[0].0 == "id"@ && m2[0].0 == "summary"@);
    assert("type"@.len() != "summary"@.len() && "id"@.len() != "summary"@.len());
    assert("type"@.len() != "content"@.len() && "id"@.len() != "content"@.len() && "summary"@[0] != "content"@[0]);
    assert("type"@.len() != "encrypted_content"@.len() && "id"@.len() != "encrypted_content"@.len() && "summary"@.len() != "encrypted_content"@.len());
    assert("content"@.len() != "encrypted_content"@.len());
    assert(item.get("summary"@) == member_get(m1, "summary"@));
    assert(member_get(m1, "summary"@) == member_get(m2, "summary"@));
    assert(member_get(m2, "summary"@) == Some(reasoning_summary(text)));
    assert(item.get("content"@) == member_get(m1, "content"@));
    assert(member_get(m1, "content"@) == member_get(m2, "content"@));
    assert(member_get(m2, "content"@) == member_get(m3, "content"@));
    assert(item.get("encrypted_content"@) == member_get(m1, "encrypted_content"@));
    assert(member_get(m1, "encrypted_content"@) == member_get(m2, "encrypted_content"@));
    assert(member_get(m2, "encrypted_content"@) == member_get(m3, "encrypted_content"@));
    match signature {
        Some(sig) => {
            assert(m3[0] == ("encrypted_content"@, js(sig)));
            assert(m3.drop_first().len() == 0);
            assert(member_get(m3, "content"@) is None);
            assert(opt_str(item.get("encrypted_content"@)) == Some(sig));
        },
        None => {
            assert(m3.len() == 0);
            assert(opt_str(item.get("encrypted_content"@)) is None);
        },
    }
    assert(item.get("content"@) is None);
    if text.len() > 0 {
        let o = JsonV::Object(seq![("type"@, js("summary_text"@)), ("text"@, js(text))]);
        let a = seq![o];
        assert(a.drop_last() =~= Seq::<JsonV>::empty());
        assert("type"@[1] != "text"@[1]);
        assert(o.get("text"@) == Some(js(text)));
        assert(a.last() == o);
        assert(join_texts(Seq::empty(), a.drop_last()) == Seq::<char>::empty());
        assert(opt_str(a.last().get("text"@)) == Some(text));
        assert(join_texts(Seq::empty(), a) == text);
    } else {
        assert(join_texts(Seq::empty(), Seq::<JsonV>::empty()) == Seq::<char>::empty());
    }
    assert(reasoning_text(item) == text);
}

/// A top-level request field that Responses does not read survives decoding: the request's
/// extensions hold it as `responses.<field>`, with the last value the body gave it.
pub proof fn law_unknown_request_field_kept(raw: JsonV, k: Seq<char>)
    requires
        raw matches JsonV::Object(m) && member_last(m, k) is Some,
        !responses_known_request_field(k),
    ensures
        spec_responses_decode_request(raw) matches Ok(r)
            ==> member_get(r.extensions, "responses."@ + k) == member_last(raw->Object_0, k),
{
    let m = raw->Object_0;
    let known = |f: Seq<char>| responses_known_request_field(f);
    assert forall|e: Seq<(Seq<char>, JsonV)>| #[trigger] member_get(collect_unknown(m, known, "responses."@, e), "responses."@ + k) == member_last(m, k) by {
        law_unknown_field_kept(m, known, "responses."@, e, k);
    }
}

/// A Responses stream ends once: `Done`, an error event and `finish` on a started stream end
/// it, and an ended encoder emits nothing more and stays as it is.
pub proof fn law_stream_ends_once(st: RespEncoderV, e: EventV, fresh_id: Seq<char>, now: i64)
    ensures
        (e is Done || e is Error) ==> spec_responses_encode(st, e, fresh_id, now).0.finished,
        st.started ==> spec_responses_encode_finish(st, fresh_id, now).0.finished,
        st.finished ==> spec_responses_encode(st, e, fresh_id, now) == (st, Seq::<FrameV>::empty()),
        st.finished ==> spec_responses_encode_finish(st, fresh_id, now) == (st, Seq::<FrameV>::empty()),
{
}

/// A top-level field that Responses does not read comes back when the decoded request is
/// encoded for Responses again, with the value the body gave it last.
pub proof fn law_unknown_request_field_round_trip(raw: JsonV, k: Seq<char>)
    requires
        raw matches JsonV::Object(m) && member_last(m, k) is Some,
        !responses_known_request_field(k),
        k != "builtin_tools"@,
    ensures
        spec_responses_decode_request(raw) matches Ok(r)
            ==> spec_responses_encode_request(r).get(k) == member_last(raw->Object_0, k),
{
    law_unknown_request_field_kept(raw, k);
    let m = raw->Object_0;
    assert forall|b: Seq<JsonV>| #[trigger] keys_unique(decoded_request_ext(raw, b)) by {
        let e0: Seq<(Seq<char>, JsonV)> = Seq::empty();
        let e1 = if b.len() > 0 { ext_insert(e0, "responses.builtin_tools"@, JsonV::Array(b)) } else { e0 };
        lemma_ext_insert_unique(e0, "responses.builtin_tools"@, JsonV::Array(b));
        let e2 = keep_field(e1, raw, "previous_response_id"@);
        if let Some(v) = raw.get("previous_response_id"@) {
            lemma_ext_insert_unique(e1, "responses."@ + "previous_response_id"@, v);
        }
        let e3 = keep_field(e2, raw, "store"@);
        if let Some(v) = raw.get("store"@) {
            lemma_ext_insert_unique(e2, "responses."@ + "store"@, v);
        }
        let e4 = keep_field(e3, raw, stateful_list_key());
        if let Some(v) = raw.get(stateful_list_key()) {
            lemma_ext_insert_unique(e3, "responses."@ + stateful_list_key(), v);
        }
        let e5 = keep_field(e4, raw, "metadata"@);
        if let Some(v) = raw.get("metadata"@) {
            lemma_ext_insert_unique(e4, "responses."@ + "metadata"@, v);
        }
        lemma_collect_unknown_unique(m, |f: Seq<char>| responses_known_request_field(f), "responses."@, e5);
    }
    if spec_responses_decode_request(raw) is Ok {
        let r = spec_responses_decode_request(raw)->Ok_0;
        assert(keys_unique(r.extensions));
        lemma_unique_last_is_first(r.extensions, "responses."@ + k);
        let s = r.sampling;
        let b0 = ext_insert(Seq::empty(), "model"@, js(r.model));
        let b1 = if r.system.len() > 0 { ext_insert(b0, "instructions"@, js(system_join(r.system))) } else { b0 };
        let b2 = ext_insert(b1, "input"@, JsonV::Array(spec_encode_input_items(r.messages)));
        let b3 = if r.stream { ext_insert(b2, "stream"@, JsonV::Bool(true)) } else { b2 };
        let b4 = ext_opt(b3, "max_output_tokens"@, match r.max_output_tokens { Some(mx) => Some(num(mx as u64)), None => None });
        let b5 = ext_opt(b4, "temperature"@, match s.temperature { Some(t) => Some(JsonV::Number(t)), None => None });
        let b6 = ext_opt(b5, "top_p"@, match s.top_p { Some(t) => Some(JsonV::Number(t)), None => None });
        let b7 = ext_opt(b6, "parallel_tool_calls"@, match r.parallel_tool_calls { Some(p) => Some(JsonV::Bool(p)), None => None });
        let b8 = ext_opt(b7, "user"@, match r.user { Some(u) => Some(js(u)), None => None });
        let tools = responses_tools_json(r);
        let b9 = if tools.len() > 0 { ext_insert(b8, "tools"@, JsonV::Array(tools)) } else { b8 };
        let b10 = ext_opt(b9, "tool_choice"@, spec_encode_tool_choice(r.tool_choice));
        let b11 = ext_opt(b10, "text"@, match r.response_format {
            Some(f) => Some(JsonV::Object(seq![("format"@, spec_encode_response_format(f))])),
            None => None,
        });
        let b12 = ext_opt(b11, "reasoning"@, match r.reasoning {
            Some(rs) => spec_encode_reasoning(rs, r.max_output_tokens),
            None => None,
        });
        assert(spec_responses_encode_request(r) == JsonV::Object(resp_restore(r.extensions, b12, true)));
        lemma_resp_restore_get(r.extensions, b12, true, k);
    }
}

// ---------------------------------------------------------------------------
// Sequence numbers of the encoder's frames.

/// `x` advanced by `n` frames (wrapping like the counter does).
pub open spec fn seq_after(x: u64, n: nat) -> u64
    decreases n,
{
    if n == 0 { x } else { wrap_inc64(seq_after(x, (n - 1) as nat)) }
}

/// A payload: the members `m`, then `type` `ev` and `sequence_number` `n`.
pub open spec fn numbered_payload(ev: Seq<char>, m: Seq<(Seq<char>, JsonV)>, n: u64) -> JsonV {
    JsonV::Object(m + seq![("type"@, JsonV::Str(ev)), ("sequence_number"@, num(n))])
}

/// A frame of event `ev` whose payload ends with that same `type` and `sequence_number` `n`.
pub open spec fn seq_frame(f: FrameV, n: u64) -> bool {
    exists|ev: Seq<char>, m: Seq<(Seq<char>, JsonV)>| named(ev, #[trigger] numbered_payload(ev, m, n)) == f
}

/// A step that keeps the frames `f0` already emitted, appends frames numbered `s0`, `s0 + 1`,
/// and so on, and leaves the counter at the number after the last.
pub open spec fn numbered_step(s0: u64, f0: Seq<FrameV>, s1: u64, f1: Seq<FrameV>) -> bool {
    &&& f0.len() <= f1.len()
    &&& f1.subrange(0, f0.len() as int) == f0
    &&& s1 == seq_after(s0, (f1.len() - f0.len()) as nat)
    &&& forall|i: int| f0.len() <= i < f1.len() ==> seq_frame(#[trigger] f1[i], seq_after(s0, (i - f0.len()) as nat))
}

proof fn lemma_seq_after_add(x: u64, n: nat, m: nat)
    ensures
        seq_after(seq_after(x, n), m) == seq_after(x, n + m),
    decreases m,
{
    if m > 0 {
        lemma_seq_after_add(x, n, (m - 1) as nat);
        assert((n + m - 1) as nat == n + (m - 1) as nat);
    }
}

proof fn lemma_step_refl(s: u64, f: Seq<FrameV>)
    ensures
        numbered_step(s, f, s, f),
{
    assert(f.subrange(0, f.len() as int) =~= f);
}

proof fn lemma_step_trans(a: u64, f0: Seq<FrameV>, b: u64, f1: Seq<FrameV>, c: u64, f2: Seq<FrameV>)
    requires
        numbered_step(a, f0, b, f1),
        numbered_step(b, f1, c, f2),
    ensures
        numbered_step(a, f0, c, f2),
{
    assert(f2.subrange(0, f0.len() as int) =~= f1.subrange(0, f0.len() as int));
    lemma_seq_after_add(a, (f1.len() - f0.len()) as nat, (f2.len() - f1.len()) as nat);
    assert forall|i: int| f0.len() <= i < f2.len() implies seq_frame(#[trigger] f2[i], seq_after(a, (i - f0.len()) as nat)) by {
        if i < f1.len() {
            assert(f2[i] == f2.subrange(0, f1.len() as int)[i]);
            assert(f2[i] == f1[i]);
        } else {
            lemma_seq_after_add(a, (f1.len() - f0.len()) as nat, (i - f1.len()) as nat);
            assert(((f1.len() - f0.len()) as nat + (i - f1.len()) as nat) == (i - f0.len()) as nat);
        }
    }
}

proof fn lemma_emit_step(st: RespEncoderV, frames: Seq<FrameV>, event: Seq<char>, members: Seq<(Seq<char>, JsonV)>)
    ensures
        numbered_step(st.seq, frames, emit(st, frames, event, members).0.seq, emit(st, frames, event, members).1),
{
    let f1 = emit(st, frames, event, members).1;
    assert(f1.subrange(0, frames.len() as int) =~= frames);
    assert(seq_after(st.seq, 0) == st.seq);
    assert(seq_after(st.seq, 1) == wrap_inc64(st.seq));
    let fr = named(event, numbered_payload(event, members, st.seq));
    assert(f1[frames.len() as int] == fr);
    assert(seq_frame(fr, st.seq));
}

proof fn lemma_ensure_started_step(st: RespEncoderV, frames: Seq<FrameV>, fresh_id: Seq<char>, now: i64)
    ensures
        numbered_step(st.seq, frames, r_ensure_started(st, frames, fresh_id, now).0.seq, r_ensure_started(st, frames, fresh_id, now).1),
{
    if st.started {
        lemma_step_refl(st.seq, frames);
    } else {
        let s1 = RespEncoderV {
            started: true,
            id: if st.id.len() == 0 { fresh_id } else { st.id },
            created: if st.created == 0 { now } else { st.created },
            ..st
        };
        let snap = snapshot(s1, "in_progress"@, false);
        let (s2, f2) = emit(s1, frames, "response.created"@, seq![("response"@, snap)]);
        lemma_emit_step(s1, frames, "response.created"@, seq![("response"@, snap)]);
        lemma_emit_step(s2, f2, "response.in_progress"@, seq![("response"@, snap)]);
        let (s3, f3) = emit(s2, f2, "response.in_progress"@, seq![("response"@, snap)]);
        lemma_step_trans(st.seq, frames, s2.seq, f2, s3.seq, f3);
    }
}

proof fn lemma_announce_step(st: RespEncoderV, frames: Seq<FrameV>, k: u32)
    ensures
        numbered_step(st.seq, frames, r_announce(st, frames, k).0.seq, r_announce(st, frames, k).1),
{
    match block_get(st.blocks, k) {
        None => lemma_step_refl(st.seq, frames),
        Some(b) => if b.announced {
            lemma_step_refl(st.seq, frames);
        } else {
            let s1 = RespEncoderV { blocks: block_put(st.blocks, k, BlockV { announced: true, ..b }), ..st };
            let m1 = seq![("output_index"@, num(b.output_index as u64)), ("item"@, announced_item(b))];
            let (s2, f2) = emit(s1, frames, "response.output_item.added"@, m1);
            lemma_emit_step(s1, frames, "response.output_item.added"@, m1);
            match b.kind {
                PartKind::Thinking => {
                    let m2 = item_members(b, "summary_index"@).push(("part"@, summary_part(Seq::empty())));
                    lemma_emit_step(s2, f2, "response.reasoning_summary_part.added"@, m2);
                    let (s3, f3) = emit(s2, f2, "response.reasoning_summary_part.added"@, m2);
                    lemma_step_trans(st.seq, frames, s2.seq, f2, s3.seq, f3);
                },
                PartKind::ToolUse => {},
                _ => {
                    let m2 = item_members(b, "content_index"@).push(("part"@, message_part(b.kind, Seq::empty())));
                    lemma_emit_step(s2, f2, "response.content_part.added"@, m2);
                    let (s3, f3) = emit(s2, f2, "response.content_part.added"@, m2);
                    lemma_step_trans(st.seq, frames, s2.seq, f2, s3.seq, f3);
                },
            }
        },
    }
}

proof fn lemma_emit_twice(st: RespEncoderV, frames: Seq<FrameV>, e1: Seq<char>, m1: Seq<(Seq<char>, JsonV)>, e2: Seq<char>, m2: Seq<(Seq<char>, JsonV)>)
    ensures
        numbered_step(st.seq, frames,
            emit(emit(st, frames, e1, m1).0, emit(st, frames, e1, m1).1, e2, m2).0.seq,
            emit(emit(st, frames, e1, m1).0, emit(st, frames, e1, m1).1, e2, m2).1),
{
    let (s1, f1) = emit(st, frames, e1, m1);
    lemma_emit_step(st, frames, e1, m1);
    lemma_emit_step(s1, f1, e2, m2);
    let (s2, f2) = emit(s1, f1, e2, m2);
    lemma_step_trans(st.seq, frames, s1.seq, f1, s2.seq, f2);
}

proof fn lemma_finish_block_step(st: RespEncoderV, frames: Seq<FrameV>, b: BlockV)
    ensures
        numbered_step(st.seq, frames, r_finish_block(st, frames, b).0.seq, r_finish_block(st, frames, b).1),
{
    let (s1, f1) = r_content_done(st, frames, b);
    match b.kind {
        PartKind::ToolUse => lemma_emit_step(st, frames, "response.function_call_arguments.done"@, seq![
            ("item_id"@, JsonV::Str(b.item_id)),
            ("output_index"@, num(b.output_index as u64)),
            ("name"@, JsonV::Str(b.tool_name)),
            ("arguments"@, JsonV::Str(b.args)),
        ]),
        PartKind::Thinking => lemma_emit_twice(st, frames, "response.reasoning_summary_text.done"@,
            item_members(b, "summary_index"@).push(("text"@, JsonV::Str(b.text))),
            "response.reasoning_summary_part.done"@,
            item_members(b, "summary_index"@).push(("part"@, summary_part(b.text)))),
        PartKind::Refusal => lemma_emit_twice(st, frames, "response.refusal.done"@,
            item_members(b, "content_index"@).push(("refusal"@, JsonV::Str(b.text))),
            "response.content_part.done"@,
            item_members(b, "content_index"@).push(("part"@, message_part(b.kind, b.text)))),
        PartKind::Text => lemma_emit_twice(st, frames, "response.output_text.done"@,
            item_members(b, "content_index"@).push(("text"@, JsonV::Str(b.text))).push(("logprobs"@, JsonV::Array(Seq::empty()))),
            "response.content_part.done"@,
            item_members(b, "content_index"@).push(("part"@, message_part(b.kind, b.text)))),
    }
    let item = finished_item(b);
    let m = seq![("output_index"@, num(b.output_index as u64)), ("item"@, item)];
    lemma_emit_step(s1, f1, "response.output_item.done"@, m);
    let (s2, f2) = emit(s1, f1, "response.output_item.done"@, m);
    lemma_step_trans(st.seq, frames, s1.seq, f1, s2.seq, f2);
}

proof fn lemma_close_block_step(st: RespEncoderV, frames: Seq<FrameV>, k: u32)
    ensures
        numbered_step(st.seq, frames, r_close_block(st, frames, k).0.seq, r_close_block(st, frames, k).1),
{
    match block_get(st.blocks, k) {
        None => lemma_step_refl(st.seq, frames),
        Some(_) => {
            let (s1, f1) = r_announce(st, frames, k);
            lemma_announce_step(st, frames, k);
            match block_get(s1.blocks, k) {
                Some(b) => {
                    let s2 = RespEncoderV { blocks: s1.blocks.remove(block_pos(s1.blocks, k)), ..s1 };
                    lemma_finish_block_step(s2, f1, b);
                    let (s3, f3) = r_finish_block(s2, f1, b);
                    lemma_step_trans(st.seq, frames, s1.seq, f1, s3.seq, f3);
                },
                None => {},
            }
        },
    }
}

proof fn lemma_close_keys_step(st: RespEncoderV, frames: Seq<FrameV>, keys: Seq<u32>)
    ensures
        numbered_step(st.seq, frames, r_close_keys(st, frames, keys).0.seq, r_close_keys(st, frames, keys).1),
    decreases keys.len(),
{
    if keys.len() == 0 {
        lemma_step_refl(st.seq, frames);
    } else {
        let (s1, f1) = r_close_block(st, frames, keys[0]);
        lemma_close_block_step(st, frames, keys[0]);
        let rest = keys.subrange(1, keys.len() as int);
        lemma_close_keys_step(s1, f1, rest);
        let (s2, f2) = r_close_keys(s1, f1, rest);
        lemma_step_trans(st.seq, frames, s1.seq, f1, s2.seq, f2);
    }
}

proof fn lemma_create_block_step(st: RespEncoderV, frames: Seq<FrameV>, k: u32, kind: PartKind)
    ensures
        numbered_step(st.seq, frames, r_create_block(st, frames, k, kind).0.seq, r_create_block(st, frames, k, kind).1),
{
    let b = new_block(st, kind);
    let s1 = RespEncoderV {
        next_output_index: wrap_inc(st.next_output_index),
        blocks: st.blocks.insert(insert_pos(st.blocks, k), (k, b)),
        ..st
    };
    if kind != PartKind::ToolUse {
        lemma_announce_step(s1, frames, k);
    } else {
        lemma_step_refl(st.seq, frames);
    }
}

proof fn lemma_ensure_block_step(st: RespEncoderV, frames: Seq<FrameV>, k: u32, kind: PartKind, fresh_id: Seq<char>, now: i64)
    ensures
        numbered_step(st.seq, frames, r_ensure_block(st, frames, k, kind, fresh_id, now).0.seq,
            r_ensure_block(st, frames, k, kind, fresh_id, now).1),
{
    let (s1, f1) = r_ensure_started(st, frames, fresh_id, now);
    lemma_ensure_started_step(st, frames, fresh_id, now);
    match block_get(s1.blocks, k) {
        Some(b) => if b.kind == kind {
        } else {
            let (s2, f2) = r_close_block(s1, f1, k);
            lemma_close_block_step(s1, f1, k);
            lemma_create_block_step(s2, f2, k, kind);
            let (s3, f3) = r_create_block(s2, f2, k, kind);
            lemma_step_trans(s1.seq, f1, s2.seq, f2, s3.seq, f3);
            lemma_step_trans(st.seq, frames, s1.seq, f1, s3.seq, f3);
        },
        None => {
            lemma_create_block_step(s1, f1, k, kind);
            let (s3, f3) = r_create_block(s1, f1, k, kind);
            lemma_step_trans(st.seq, frames, s1.seq, f1, s3.seq, f3);
        },
    }
}

proof fn lemma_text_delta_step(st: RespEncoderV, k: u32, kind: PartKind, text: Seq<char>, fresh_id: Seq<char>, now: i64)
    ensures
        numbered_step(st.seq, Seq::empty(), r_text_delta(st, k, kind, text, fresh_id, now).0.seq,
            r_text_delta(st, k, kind, text, fresh_id, now).1),
{
    let (s1, f1) = r_ensure_block(st, Seq::empty(), k, kind, fresh_id, now);
    lemma_ensure_block_step(st, Seq::empty(), k, kind, fresh_id, now);
    match block_get(s1.blocks, k) {
        None => {},
        Some(b) => {
            let s2 = RespEncoderV { blocks: block_put(s1.blocks, k, BlockV { text: b.text + text, ..b }), ..s1 };
            let (ev, m) = match kind {
                PartKind::Thinking => ("response.reasoning_summary_text.delta"@,
                    item_members(b, "summary_index"@).push(("delta"@, JsonV::Str(text)))),
                PartKind::Refusal => ("response.refusal.delta"@,
                    item_members(b, "content_index"@).push(("delta"@, JsonV::Str(text)))),
                _ => ("response.output_text.delta"@,
                    item_members(b, "content_index"@).push(("delta"@, JsonV::Str(text))).push(("logprobs"@, JsonV::Array(Seq::empty())))),
            };
            lemma_emit_step(s2, f1, ev, m);
            let (s3, f3) = emit(s2, f1, ev, m);
            lemma_step_trans(st.seq, Seq::empty(), s1.seq, f1, s3.seq, f3);
        },
    }
}

proof fn lemma_terminate_step(st: RespEncoderV, frames: Seq<FrameV>, fresh_id: Seq<char>, now: i64)
    ensures
        numbered_step(st.seq, frames, r_terminate(st, frames, fresh_id, now).0.seq, r_terminate(st, frames, fresh_id, now).1),
{
    if st.finished {
        lemma_step_refl(st.seq, frames);
    } else {
        let (s1, f1) = r_ensure_started(st, frames, fresh_id, now);
        lemma_ensure_started_step(st, frames, fresh_id, now);
        let (s2, f2) = r_close_keys(s1, f1, block_keys(s1.blocks));
        lemma_close_keys_step(s1, f1, block_keys(s1.blocks));
        let s3 = RespEncoderV { finished: true, ..s2 };
        let reason = match s3.stop_reason {
            Some(r) => r,
            None => StopReason::Stop,
        };
        let status = spec_status_str(reason);
        let event = if status == "incomplete"@ { "response.incomplete"@ } else { "response.completed"@ };
        let m = seq![("response"@, snapshot(s3, status, true))];
        lemma_emit_step(s3, f2, event, m);
        let (s4, f4) = emit(s3, f2, event, m);
        lemma_step_trans(s1.seq, f1, s2.seq, f2, s4.seq, f4);
        lemma_step_trans(st.seq, frames, s1.seq, f1, s4.seq, f4);
    }
}

/// Every frame the Responses encoder emits carries its own event type and the next sequence
/// number: one step's frames are numbered `st.seq`, `st.seq + 1`, and so on (wrapping after
/// `u64::MAX`), and the counter ends at the number after the last. With the encoder starting
/// at 0, the numbers of a whole stream, `finish` included, run 0, 1, 2, … without gap or repeat.
pub proof fn law_sequence_numbers(st: RespEncoderV, e: EventV, fresh_id: Seq<char>, now: i64)
    ensures
        initial_resp_encoder().seq == 0,
        numbered_step(st.seq, Seq::empty(), spec_responses_encode(st, e, fresh_id, now).0.seq,
            spec_responses_encode(st, e, fresh_id, now).1),
        numbered_step(st.seq, Seq::empty(), spec_responses_encode_finish(st, fresh_id, now).0.seq,
            spec_responses_encode_finish(st, fresh_id, now).1),
{
    let empty = Seq::<FrameV>::empty();
    lemma_step_refl(st.seq, empty);
    if !st.finished && st.started {
        lemma_terminate_step(st, empty, fresh_id, now);
    }
    if !st.finished {
        match e {
            EventV::Start { id, model, usage } => {
                let s1 = RespEncoderV {
                    id: if id.len() > 0 { id } else { st.id },
                    model: if model.len() > 0 { model } else { st.model },
                    usage: match usage {
                        Some(u) => usage_max(st.usage, u),
                        None => st.usage,
                    },
                    ..st
                };
                lemma_ensure_started_step(s1, empty, fresh_id, now);
            },
            EventV::ContentStart { index, kind } => lemma_ensure_block_step(st, empty, index, kind, fresh_id, now),
            EventV::TextDelta { index, text } => lemma_text_delta_step(st, index, PartKind::Text, text, fresh_id, now),
            EventV::RefusalDelta { index, text } => lemma_text_delta_step(st, index, PartKind::Refusal, text, fresh_id, now),
            EventV::ThinkingDelta { index, text } => lemma_text_delta_step(st, index, PartKind::Thinking, text, fresh_id, now),
            EventV::ThinkingSignature { index, signature } => lemma_ensure_block_step(st, empty, index, PartKind::Thinking, fresh_id, now),
            EventV::ToolCallStart { index, id, name, .. } => {
                let (s1, f1) = r_ensure_block(st, empty, index, PartKind::ToolUse, fresh_id, now);
                lemma_ensure_block_step(st, empty, index, PartKind::ToolUse, fresh_id, now);
                let s2 = match block_get(s1.blocks, index) {
                    Some(b) => RespEncoderV {
                        blocks: block_put(s1.blocks, index, BlockV {
                            tool_id: if id.len() > 0 { id } else { b.tool_id },
                            tool_name: if name.len() > 0 { name } else { b.tool_name },
                            ..b
                        }),
                        ..s1
                    },
                    None => s1,
                };
                lemma_announce_step(s2, f1, index);
                let (s3, f3) = r_announce(s2, f1, index);
                lemma_step_trans(st.seq, empty, s1.seq, f1, s3.seq, f3);
            },
            EventV::ToolCallArgsDelta { index, fragment } => {
                let (s1, f1) = r_ensure_block(st, empty, index, PartKind::ToolUse, fresh_id, now);
                lemma_ensure_block_step(st, empty, index, PartKind::ToolUse, fresh_id, now);
                let (s2, f2) = r_announce(s1, f1, index);
                lemma_announce_step(s1, f1, index);
                lemma_step_trans(st.seq, empty, s1.seq, f1, s2.seq, f2);
                match block_get(s2.blocks, index) {
                    None => {},
                    Some(b) => {
                        let s3 = RespEncoderV { blocks: block_put(s2.blocks, index, BlockV { args: b.args + fragment, ..b }), ..s2 };
                        let m = seq![
                            ("item_id"@, JsonV::Str(b.item_id)),
                            ("output_index"@, num(b.output_index as u64)),
                            ("delta"@, JsonV::Str(fragment)),
                        ];
                        lemma_emit_step(s3, f2, "response.function_call_arguments.delta"@, m);
                        let (s4, f4) = emit(s3, f2, "response.function_call_arguments.delta"@, m);
                        lemma_step_trans(st.seq, empty, s2.seq, f2, s4.seq, f4);
                    },
                }
            },
            EventV::ContentStop { index } => lemma_close_block_step(st, empty, index),
            EventV::Done => lemma_terminate_step(st, empty, fresh_id, now),
            EventV::Error { message, kind } => {
                let (s1, f1) = r_ensure_started(st, empty, fresh_id, now);
                lemma_ensure_started_step(st, empty, fresh_id, now);
                let m = seq![
                    ("code"@, JsonV::Str(kind)),
                    ("message"@, JsonV::Str(message)),
                    ("param"@, JsonV::Null),
                ];
                lemma_emit_step(s1, f1, "error"@, m);
                let (s2, f2) = emit(s1, f1, "error"@, m);
                lemma_step_trans(st.seq, empty, s1.seq, f1, s2.seq, f2);
            },
            _ => {},
        }
    }
}

/// Events none of which is `Done`.
pub open spec fn done_free(s: Seq<EventV>) -> bool {
    forall|i: int| 0 <= i < s.len() ==> !(#[trigger] s[i] is Done)
}

proof fn lemma_open_then_done_free(st: RespDecoderV, index: u32, kind: PartKind, e: EventV)
    requires
        !(e is Done),
    ensures
        done_free(open_then(st, index, kind, e).1),
        open_then(st, index, kind, e).0.finished == st.finished,
{
    let (o, pre) = ensure_open(st.opened, index, kind);
    assert(done_free(pre));
    assert forall|i: int| 0 <= i < pre.push(e).len() implies !(#[trigger] pre.push(e)[i] is Done) by {
        if i < pre.len() {
            assert(pre.push(e)[i] == pre[i]);
        }
    }
}

/// `Done` reaches the consumer at most once, and exactly once when no error ended the stream:
/// one frame yields at most one `Done`, as its last event and only on the step that ends the
/// stream; the one other way a frame ends the stream is a single `Error` event; an ended decoder
/// stays ended and yields no `Done` again; `finish` yields `Done` exactly when the stream has
/// not ended.
pub proof fn law_done_at_most_once(st: RespDecoderV, frame: FrameV)
    ensures
        ({
            let (s1, out) = spec_responses_decode(st, frame);
            &&& st.finished ==> s1.finished && done_free(out)
            &&& done_free(out) || (out.len() > 0 && out.last() is Done && done_free(out.drop_last())
                    && !st.finished && s1.finished)
            &&& !st.finished && s1.finished && done_free(out) ==> out.len() == 1 && out[0] is Error
        }),
        spec_responses_finish(st) == if st.finished {
            (st, Seq::<EventV>::empty())
        } else {
            (RespDecoderV { finished: true, ..st }, seq![EventV::Done])
        },
{
    let t = trimmed(frame.data);
    if t == "[DONE]"@ {
        assert(seq![EventV::Done].drop_last() =~= Seq::<EventV>::empty());
    } else if t.len() == 0 {
    } else {
        match json_parse(frame.data) {
            None => {},
            Some(p) => {
                let event = match frame.event {
                    Some(e) => e,
                    None => str_or(opt_str(p.get("type"@)), Seq::empty()),
                };
                let index = output_index(p);
                if event == "response.created"@ || event == "response.in_progress"@ {
                } else if event == "response.output_item.added"@ {
                    let item = p.get("item"@);
                    let id_field = match opt_get(item, "call_id"@) {
                        Some(c) => Some(c),
                        None => opt_get(item, "id"@),
                    };
                    lemma_open_then_done_free(st, index, PartKind::ToolUse, EventV::ToolCallStart {
                        index,
                        id: str_or(opt_str(id_field), Seq::empty()),
                        name: text_at(item, "name"@),
                        signature: None,
                    });
                    let (o, pre) = ensure_open(st.opened, index, PartKind::Thinking);
                    assert(done_free(pre));
                } else if event == "response.content_part.added"@ {
                    let ty = text_at(p.get("part"@), "type"@);
                    let kind = if ty == "refusal"@ {
                        PartKind::Refusal
                    } else if ty == "reasoning_text"@ || ty == "summary_text"@ {
                        PartKind::Thinking
                    } else {
                        PartKind::Text
                    };
                    let (o, pre) = ensure_open(st.opened, index, kind);
                    assert(done_free(pre));
                } else if event == "response.output_text.delta"@ {
                    lemma_open_then_done_free(st, index, PartKind::Text, EventV::TextDelta { index, text: spec_delta_text(p) });
                } else if event == "response.refusal.delta"@ {
                    lemma_open_then_done_free(st, index, PartKind::Refusal, EventV::RefusalDelta { index, text: spec_delta_text(p) });
                } else if event == "response.reasoning_summary_text.delta"@ || event == "response.reasoning_text.delta"@ {
                    lemma_open_then_done_free(st, index, PartKind::Thinking, EventV::ThinkingDelta { index, text: spec_delta_text(p) });
                } else if event == "response.function_call_arguments.delta"@ {
                    lemma_open_then_done_free(st, index, PartKind::ToolUse, EventV::ToolCallArgsDelta { index, fragment: spec_delta_text(p) });
                } else if event == "response.output_item.done"@ {
                    match opt_str(opt_get(p.get("item"@), "encrypted_content"@)) {
                        Some(sig) => {
                            let e = EventV::ThinkingSignature { index, signature: sig };
                            lemma_open_then_done_free(st, index, PartKind::Thinking, e);
                            let (s1, o1) = open_then(st, index, PartKind::Thinking, e);
                            let o2 = o1.push(EventV::ContentStop { index });
                            assert forall|i: int| 0 <= i < o2.len() implies !(#[trigger] o2[i] is Done) by {
                                if i < o1.len() {
                                    assert(o2[i] == o1[i]);
                                }
                            }
                        },
                        None => {},
                    }
                } else if event == "response.completed"@ || event == "response.incomplete"@ {
                    let resp = p.get("response"@);
                    let o1: Seq<EventV> = match opt_get(resp, "usage"@) {
                        Some(u) => if u is Null { Seq::empty() } else { seq![EventV::Usage(spec_decode_usage(u))] },
                        None => Seq::empty(),
                    };
                    let (s1, out) = completed_events(st, event, p);
                    assert(done_free(o1));
                    if st.finished {
                        assert forall|i: int| 0 <= i < out.len() implies !(#[trigger] out[i] is Done) by {
                            if i < o1.len() {
                                assert(out[i] == o1[i]);
                            }
                        }
                    } else {
                        assert forall|i: int| 0 <= i < out.drop_last().len() implies !(#[trigger] out.drop_last()[i] is Done) by {
                            if i < o1.len() {
                                assert(out.drop_last()[i] == o1[i]);
                            }
                        }
                    }
                } else {
                }
            },
        }
    }
}


// ---------------------------------------------------------------------------
// Open items: index order, announcement, and closing at the end.

/// The open blocks are in strictly ascending index order.
pub open spec fn keys_ascending(bs: Seq<(u32, BlockV)>) -> bool {
    forall|i: int, j: int| 0 <= i < j < bs.len() ==> bs[i].0 < bs[j].0
}

/// Every open block other than a tool call has been announced.
pub open spec fn non_tools_announced(bs: Seq<(u32, BlockV)>) -> bool {
    forall|i: int| #![trigger bs[i]] 0 <= i < bs.len() && bs[i].1.kind != PartKind::ToolUse ==> bs[i].1.announced
}

/// What the encoder keeps true of its open blocks.
pub open spec fn blocks_wf(bs: Seq<(u32, BlockV)>) -> bool {
    keys_ascending(bs) && non_tools_announced(bs)
}

proof fn lemma_block_pos_exact(bs: Seq<(u32, BlockV)>, k: u32)
    requires
        keys_ascending(bs),
    ensures
        block_pos(bs, k) == -1 <==> (forall|i: int| 0 <= i < bs.len() ==> bs[i].0 != k),
        forall|i: int| 0 <= i < bs.len() && bs[i].0 == k ==> block_pos(bs, k) == i,
    decreases bs.len(),
{
    lemma_block_pos(bs, k);
    if bs.len() > 0 {
        let d = bs.drop_last();
        assert forall|i: int, j: int| 0 <= i < j < d.len() implies d[i].0 < d[j].0 by {
            assert(d[i] == bs[i]);
            assert(d[j] == bs[j]);
        }
        lemma_block_pos_exact(d, k);
        if bs.last().0 == k {
            assert forall|i: int| 0 <= i < bs.len() && bs[i].0 == k implies block_pos(bs, k) == i by {
                if i < bs.len() - 1 {
                    assert(bs[i].0 < bs[bs.len() - 1].0);
                }
            }
        } else {
            assert forall|i: int| 0 <= i < bs.len() && bs[i].0 == k implies block_pos(bs, k) == i by {
                assert(i < bs.len() - 1);
                assert(d[i] == bs[i]);
            }
            if block_pos(bs, k) == -1 {
                assert forall|i: int| 0 <= i < bs.len() implies bs[i].0 != k by {
                    if i < bs.len() - 1 {
                        assert(d[i] == bs[i]);
                    }
                }
            }
        }
    }
}

proof fn lemma_insert_pos_split(bs: Seq<(u32, BlockV)>, k: u32)
    requires
        keys_ascending(bs),
        forall|i: int| 0 <= i < bs.len() ==> bs[i].0 != k,
    ensures
        0 <= insert_pos(bs, k) <= bs.len(),
        forall|i: int| 0 <= i < insert_pos(bs, k) ==> bs[i].0 < k,
        forall|i: int| insert_pos(bs, k) <= i < bs.len() ==> bs[i].0 > k,
    decreases bs.len(),
{
    lemma_block_pos(bs, k);
    if bs.len() > 0 {
        let d = bs.drop_last();
        assert forall|i: int, j: int| 0 <= i < j < d.len() implies d[i].0 < d[j].0 by {
            assert(d[i] == bs[i]);
            assert(d[j] == bs[j]);
        }
        lemma_insert_pos_split(d, k);
        if bs.last().0 < k {
            assert forall|i: int| 0 <= i < insert_pos(bs, k) implies bs[i].0 < k by {
                if i < bs.len() - 1 {
                    assert(bs[i].0 < bs[bs.len() - 1].0);
                }
            }
        } else {
            assert(bs.last().0 != k);
            assert forall|i: int| 0 <= i < insert_pos(bs, k) implies bs[i].0 < k by {
                assert(d[i] == bs[i]);
            }
            assert forall|i: int| insert_pos(bs, k) <= i < bs.len() implies bs[i].0 > k by {
                if i < bs.len() - 1 {
                    assert(d[i] == bs[i]);
                }
            }
        }
    }
}

/// The blocks after inserting `x` at `p`, element by element.
proof fn lemma_insert_elems(bs: Seq<(u32, BlockV)>, p: int, x: (u32, BlockV))
    requires
        0 <= p <= bs.len(),
    ensures
        bs.insert(p, x).len() == bs.len() + 1,
        forall|j: int| #![trigger bs.insert(p, x)[j]] 0 <= j < bs.len() + 1 ==> bs.insert(p, x)[j]
            == (if j < p { bs[j] } else if j == p { x } else { bs[j - 1] }),
{
    bs.insert_ensures(p, x);
    assert forall|j: int| #![trigger bs.insert(p, x)[j]] 0 <= j < bs.len() + 1 implies bs.insert(p, x)[j]
        == (if j < p { bs[j] } else if j == p { x } else { bs[j - 1] }) by {
        if j > p {
            assert(bs.insert(p, x)[(j - 1) + 1] == bs[j - 1]);
        }
    }
}

/// Inserting an absent block at its place keeps the order and finds it there.
#[verifier::spinoff_prover]
#[verifier::rlimit(40)]
proof fn lemma_insert_block(bs: Seq<(u32, BlockV)>, k: u32, b: BlockV)
    requires
        keys_ascending(bs),
        block_pos(bs, k) == -1,
    ensures
        keys_ascending(bs.insert(insert_pos(bs, k), (k, b))),
        block_get(bs.insert(insert_pos(bs, k), (k, b)), k) == Some(b),
        non_tools_announced(bs) ==> forall|j: int| #![trigger bs.insert(insert_pos(bs, k), (k, b))[j]]
            0 <= j < bs.len() + 1 && bs.insert(insert_pos(bs, k), (k, b))[j].0 != k
            && bs.insert(insert_pos(bs, k), (k, b))[j].1.kind != PartKind::ToolUse
            ==> bs.insert(insert_pos(bs, k), (k, b))[j].1.announced,
{
    lemma_block_pos_exact(bs, k);
    lemma_insert_pos_split(bs, k);
    let p = insert_pos(bs, k);
    let ns = bs.insert(p, (k, b));
    lemma_insert_elems(bs, p, (k, b));
    assert forall|i: int, j: int| 0 <= i < j < ns.len() implies ns[i].0 < ns[j].0 by {
        assert(ns[i] == (if i < p { bs[i] } else if i == p { (k, b) } else { bs[i - 1] }));
        assert(ns[j] == (if j < p { bs[j] } else if j == p { (k, b) } else { bs[j - 1] }));
    }
    assert(keys_ascending(ns));
    lemma_block_pos_exact(ns, k);
    lemma_block_pos(ns, k);
    assert(ns[p] == (k, b));
    if non_tools_announced(bs) {
        assert forall|j: int| #![trigger ns[j]] 0 <= j < ns.len() && ns[j].0 != k && ns[j].1.kind != PartKind::ToolUse
            implies ns[j].1.announced by {
            assert(ns[j] == (if j < p { bs[j] } else if j == p { (k, b) } else { bs[j - 1] }));
        }
    }
}

/// Replacing open block `k` keeps every other block and the order.
#[verifier::spinoff_prover]
#[verifier::rlimit(30)]
proof fn lemma_put_block(bs: Seq<(u32, BlockV)>, k: u32, nb: BlockV)
    requires
        keys_ascending(bs),
        block_get(bs, k) is Some,
    ensures
        0 <= block_pos(bs, k) < bs.len(),
        block_put(bs, k, nb).len() == bs.len(),
        block_put(bs, k, nb)[block_pos(bs, k)] == (k, nb),
        forall|i: int| #![trigger block_put(bs, k, nb)[i]] 0 <= i < bs.len() && i != block_pos(bs, k) ==> block_put(bs, k, nb)[i] == bs[i],
        keys_ascending(block_put(bs, k, nb)),
        block_get(block_put(bs, k, nb), k) == Some(nb),
        block_keys(block_put(bs, k, nb)) == block_keys(bs),
{
    lemma_block_pos(bs, k);
    let p = block_pos(bs, k);
    let ns = block_put(bs, k, nb);
    assert forall|i: int, j: int| 0 <= i < j < ns.len() implies ns[i].0 < ns[j].0 by {
        assert(ns[i].0 == bs[i].0);
        assert(ns[j].0 == bs[j].0);
    }
    assert(keys_ascending(ns));
    assert(0 <= p < bs.len());
    assert(ns[p] == (k, nb));
    lemma_block_pos_exact(ns, k);
    assert(block_pos(ns, k) == p);
    assert(block_get(ns, k) == Some(nb));
    assert(block_keys(ns) =~= block_keys(bs)) by {
        assert forall|i: int| 0 <= i < bs.len() implies block_keys(ns)[i] == block_keys(bs)[i] by {
            assert(ns[i].0 == bs[i].0);
        }
    }
}

/// Replacing open block `k` by one of the same kind and announcement keeps the blocks well formed.
proof fn lemma_put_same_flags(bs: Seq<(u32, BlockV)>, k: u32, nb: BlockV)
    requires
        blocks_wf(bs),
        block_get(bs, k) matches Some(b) && nb.kind == b.kind && nb.announced == b.announced,
    ensures
        blocks_wf(block_put(bs, k, nb)),
        block_get(block_put(bs, k, nb), k) == Some(nb),
        block_keys(block_put(bs, k, nb)) == block_keys(bs),
{
    lemma_put_block(bs, k, nb);
    let p = block_pos(bs, k);
    let ns = block_put(bs, k, nb);
    assert forall|i: int| #![trigger ns[i]] 0 <= i < ns.len() && ns[i].1.kind != PartKind::ToolUse implies ns[i].1.announced by {
        if i == p {
            assert(bs[p].1 == block_get(bs, k)->0);
        } else {
            assert(ns[i] == bs[i]);
        }
    }
}

/// Taking open block `k` out keeps the others in order.
#[verifier::spinoff_prover]
#[verifier::rlimit(30)]
proof fn lemma_remove_block(bs: Seq<(u32, BlockV)>, k: u32)
    requires
        blocks_wf(bs),
        block_get(bs, k) is Some,
    ensures
        blocks_wf(bs.remove(block_pos(bs, k))),
        block_pos(bs.remove(block_pos(bs, k)), k) == -1,
        block_keys(bs.remove(block_pos(bs, k))) == block_keys(bs).remove(block_pos(bs, k)),
{
    lemma_block_pos(bs, k);
    lemma_block_pos_exact(bs, k);
    let p = block_pos(bs, k);
    let ns = bs.remove(p);
    bs.remove_ensures(p);
    assert forall|i: int, j: int| 0 <= i < j < ns.len() implies ns[i].0 < ns[j].0 by {
        if j < p {
        } else if i < p {
            assert(ns[j] == bs[j + 1]);
        } else {
            assert(ns[j] == bs[j + 1]);
            assert(ns[i] == bs[i + 1]);
        }
    }
    assert forall|i: int| #![trigger ns[i]] 0 <= i < ns.len() && ns[i].1.kind != PartKind::ToolUse implies ns[i].1.announced by {
        if i < p {
            assert(ns[i] == bs[i]);
        } else {
            assert(ns[i] == bs[i + 1]);
        }
    }
    assert forall|i: int| 0 <= i < ns.len() implies ns[i].0 != k by {
        if i < p {
            assert(ns[i] == bs[i]);
        } else {
            assert(ns[i] == bs[i + 1]);
        }
    }
    lemma_block_pos_exact(ns, k);
    assert(block_keys(ns) =~= block_keys(bs).remove(p)) by {
        block_keys(bs).remove_ensures(p);
        assert forall|i: int| 0 <= i < ns.len() implies block_keys(ns)[i] == block_keys(bs).remove(p)[i] by {
            if i < p {
                assert(ns[i] == bs[i]);
            } else {
                assert(ns[i] == bs[i + 1]);
            }
        }
    }
}


#[verifier::spinoff_prover]
#[verifier::rlimit(30)]
proof fn lemma_announce_wf(st: RespEncoderV, frames: Seq<FrameV>, k: u32)
    requires
        keys_ascending(st.blocks),
        forall|i: int| #![trigger st.blocks[i]] 0 <= i < st.blocks.len() && st.blocks[i].0 != k
            && st.blocks[i].1.kind != PartKind::ToolUse ==> st.blocks[i].1.announced,
    ensures
        blocks_wf(r_announce(st, frames, k).0.blocks),
        block_keys(r_announce(st, frames, k).0.blocks) == block_keys(st.blocks),
        r_announce(st, frames, k).0.finished == st.finished,
        block_get(st.blocks, k) matches Some(b) ==> block_get(r_announce(st, frames, k).0.blocks, k) == Some(BlockV { announced: true, ..b }),
        block_get(st.blocks, k) is None ==> r_announce(st, frames, k).0.blocks == st.blocks,
{
    lemma_block_pos(st.blocks, k);
    match block_get(st.blocks, k) {
        None => {
            lemma_block_pos_exact(st.blocks, k);
        },
        Some(b) => {
            let p = block_pos(st.blocks, k);
            let nb = BlockV { announced: true, ..b };
            lemma_put_block(st.blocks, k, nb);
            if b.announced {
                assert(nb == b);
                assert(st.blocks[p] == (k, b));
            }
            let ns = block_put(st.blocks, k, nb);
            assert forall|i: int| #![trigger ns[i]] 0 <= i < ns.len() && ns[i].1.kind != PartKind::ToolUse implies ns[i].1.announced by {
                if i != p {
                    assert(ns[i] == st.blocks[i]);
                }
            }
            if b.announced {
                assert(ns =~= st.blocks) by {
                    assert forall|i: int| 0 <= i < ns.len() implies ns[i] == st.blocks[i] by {
                        if i == p {
                            assert(st.blocks[p] == (k, b));
                        }
                    }
                }
            }
        },
    }
}

proof fn lemma_finish_block_blocks(st: RespEncoderV, frames: Seq<FrameV>, b: BlockV)
    ensures
        r_finish_block(st, frames, b).0.blocks == st.blocks,
        r_finish_block(st, frames, b).0.finished == st.finished,
{
}

#[verifier::spinoff_prover]
#[verifier::rlimit(30)]
proof fn lemma_close_block_wf(st: RespEncoderV, frames: Seq<FrameV>, k: u32)
    requires
        blocks_wf(st.blocks),
    ensures
        blocks_wf(r_close_block(st, frames, k).0.blocks),
        block_pos(r_close_block(st, frames, k).0.blocks, k) == -1,
        r_close_block(st, frames, k).0.finished == st.finished,
        block_pos(st.blocks, k) >= 0 ==> block_keys(r_close_block(st, frames, k).0.blocks)
            == block_keys(st.blocks).remove(block_pos(st.blocks, k)),
{
    lemma_block_pos(st.blocks, k);
    match block_get(st.blocks, k) {
        None => {},
        Some(_) => {
            lemma_announce_wf(st, frames, k);
            let (s1, f1) = r_announce(st, frames, k);
            lemma_block_pos(s1.blocks, k);
            lemma_block_pos_exact(s1.blocks, k);
            lemma_block_pos_exact(st.blocks, k);
            assert(block_pos(s1.blocks, k) == block_pos(st.blocks, k)) by {
                let p = block_pos(st.blocks, k);
                assert(block_keys(s1.blocks)[p] == block_keys(st.blocks)[p]);
            }
            lemma_remove_block(s1.blocks, k);
            let b = block_get(s1.blocks, k)->0;
            lemma_finish_block_blocks(RespEncoderV { blocks: s1.blocks.remove(block_pos(s1.blocks, k)), ..s1 }, f1, b);
        },
    }
}

proof fn lemma_close_keys_empty(st: RespEncoderV, frames: Seq<FrameV>, keys: Seq<u32>)
    requires
        blocks_wf(st.blocks),
        keys == block_keys(st.blocks),
    ensures
        r_close_keys(st, frames, keys).0.blocks.len() == 0,
        r_close_keys(st, frames, keys).0.finished == st.finished,
    decreases keys.len(),
{
    if keys.len() > 0 {
        let k = keys[0];
        assert(st.blocks[0].0 == k);
        lemma_block_pos_exact(st.blocks, k);
        assert(block_pos(st.blocks, k) == 0);
        lemma_close_block_wf(st, frames, k);
        let (s1, f1) = r_close_block(st, frames, k);
        assert(block_keys(st.blocks).remove(0) =~= keys.subrange(1, keys.len() as int));
        lemma_close_keys_empty(s1, f1, keys.subrange(1, keys.len() as int));
    }
}

#[verifier::spinoff_prover]
#[verifier::rlimit(30)]
proof fn lemma_create_block_wf(st: RespEncoderV, frames: Seq<FrameV>, k: u32, kind: PartKind)
    requires
        blocks_wf(st.blocks),
        block_pos(st.blocks, k) == -1,
    ensures
        blocks_wf(r_create_block(st, frames, k, kind).0.blocks),
        block_get(r_create_block(st, frames, k, kind).0.blocks, k) matches Some(b) && b.kind == kind,
        r_create_block(st, frames, k, kind).0.finished == st.finished,
{
    let b = new_block(st, kind);
    let ns = st.blocks.insert(insert_pos(st.blocks, k), (k, b));
    lemma_insert_block(st.blocks, k, b);
    let s1 = RespEncoderV {
        next_output_index: wrap_inc(st.next_output_index),
        blocks: ns,
        ..st
    };
    assert(non_tools_announced(st.blocks));
    lemma_block_pos(st.blocks, k);
    st.blocks.insert_ensures(insert_pos(st.blocks, k), (k, b));
    assert forall|j: int| #![trigger ns[j]] 0 <= j < ns.len() && ns[j].0 != k && ns[j].1.kind != PartKind::ToolUse
        implies ns[j].1.announced by {
        assert(0 <= j < st.blocks.len() + 1 && st.blocks.insert(insert_pos(st.blocks, k), (k, b))[j].0 != k);
    }
    if kind != PartKind::ToolUse {
        lemma_announce_wf(s1, frames, k);
    } else {
        lemma_block_pos(ns, k);
        lemma_block_pos_exact(ns, k);
        assert forall|j: int| #![trigger ns[j]] 0 <= j < ns.len() && ns[j].1.kind != PartKind::ToolUse implies ns[j].1.announced by {
            if ns[j].0 == k {
                assert(block_pos(ns, k) == j);
                assert(ns[j].1 == b);
            }
        }
    }
}

proof fn lemma_ensure_block_wf(st: RespEncoderV, frames: Seq<FrameV>, k: u32, kind: PartKind, fresh_id: Seq<char>, now: i64)
    requires
        blocks_wf(st.blocks),
    ensures
        blocks_wf(r_ensure_block(st, frames, k, kind, fresh_id, now).0.blocks),
        block_get(r_ensure_block(st, frames, k, kind, fresh_id, now).0.blocks, k) matches Some(b) && b.kind == kind,
        r_ensure_block(st, frames, k, kind, fresh_id, now).0.finished == st.finished,
{
    let (s1, f1) = r_ensure_started(st, frames, fresh_id, now);
    assert(s1.blocks == st.blocks);
    lemma_block_pos(s1.blocks, k);
    match block_get(s1.blocks, k) {
        Some(b) => if b.kind != kind {
            lemma_close_block_wf(s1, f1, k);
            let (s2, f2) = r_close_block(s1, f1, k);
            lemma_create_block_wf(s2, f2, k, kind);
        },
        None => {
            lemma_create_block_wf(s1, f1, k, kind);
        },
    }
}

/// A delta only ever goes to an item already announced by `response.output_item.added`:
/// the item that a text, refusal or reasoning delta goes to is open, of that kind and announced
/// once it has been ensured, before the delta is emitted; a tool call is announced before its
/// first arguments delta. (An item is marked announced exactly where its `output_item.added`
/// frame is emitted.)
pub proof fn law_delta_after_added(st: RespEncoderV, k: u32, kind: PartKind, fresh_id: Seq<char>, now: i64)
    requires
        blocks_wf(st.blocks),
    ensures
        kind != PartKind::ToolUse ==> (block_get(r_ensure_block(st, Seq::empty(), k, kind, fresh_id, now).0.blocks, k)
            matches Some(b) && b.kind == kind && b.announced),
        block_get(r_announce(r_ensure_block(st, Seq::empty(), k, PartKind::ToolUse, fresh_id, now).0,
            r_ensure_block(st, Seq::empty(), k, PartKind::ToolUse, fresh_id, now).1, k).0.blocks, k)
            matches Some(b) && b.kind == PartKind::ToolUse && b.announced,
{
    let e = Seq::<FrameV>::empty();
    lemma_ensure_block_wf(st, e, k, kind, fresh_id, now);
    let s1 = r_ensure_block(st, e, k, kind, fresh_id, now).0;
    lemma_block_pos(s1.blocks, k);
    let p = block_pos(s1.blocks, k);
    assert(s1.blocks[p].1 == block_get(s1.blocks, k)->0);
    lemma_ensure_block_wf(st, e, k, PartKind::ToolUse, fresh_id, now);
    let (t1, g1) = r_ensure_block(st, e, k, PartKind::ToolUse, fresh_id, now);
    lemma_announce_wf(t1, g1, k);
}

/// The encoder keeps its open items in strictly ascending index order, and every open item
/// other than a tool call is announced as soon as it opens; the initial encoder has none open.
#[verifier::spinoff_prover]
#[verifier::rlimit(30)]
pub proof fn law_blocks_well_formed(st: RespEncoderV, e: EventV, fresh_id: Seq<char>, now: i64)
    requires
        blocks_wf(st.blocks),
    ensures
        blocks_wf(initial_resp_encoder().blocks),
        blocks_wf(spec_responses_encode(st, e, fresh_id, now).0.blocks),
        blocks_wf(spec_responses_encode_finish(st, fresh_id, now).0.blocks),
{
    let empty = Seq::<FrameV>::empty();
    lemma_end_closes(st, fresh_id, now);
    if !st.finished {
        match e {
            EventV::ContentStart { index, kind } => lemma_ensure_block_wf(st, empty, index, kind, fresh_id, now),
            EventV::TextDelta { index, text } => lemma_text_delta_wf(st, index, PartKind::Text, text, fresh_id, now),
            EventV::RefusalDelta { index, text } => lemma_text_delta_wf(st, index, PartKind::Refusal, text, fresh_id, now),
            EventV::ThinkingDelta { index, text } => lemma_text_delta_wf(st, index, PartKind::Thinking, text, fresh_id, now),
            EventV::ThinkingSignature { index, signature } => {
                lemma_ensure_block_wf(st, empty, index, PartKind::Thinking, fresh_id, now);
                let s1 = r_ensure_block(st, empty, index, PartKind::Thinking, fresh_id, now).0;
                let b = block_get(s1.blocks, index)->0;
                lemma_put_same_flags(s1.blocks, index, BlockV { signature: Some(signature), ..b });
            },
            EventV::ToolCallStart { index, id, name, .. } => {
                lemma_ensure_block_wf(st, empty, index, PartKind::ToolUse, fresh_id, now);
                let (s1, f1) = r_ensure_block(st, empty, index, PartKind::ToolUse, fresh_id, now);
                let b = block_get(s1.blocks, index)->0;
                let nb = BlockV {
                    tool_id: if id.len() > 0 { id } else { b.tool_id },
                    tool_name: if name.len() > 0 { name } else { b.tool_name },
                    ..b
                };
                lemma_put_same_flags(s1.blocks, index, nb);
                let s2 = RespEncoderV { blocks: block_put(s1.blocks, index, nb), ..s1 };
                lemma_announce_wf(s2, f1, index);
            },
            EventV::ToolCallArgsDelta { index, fragment } => {
                lemma_ensure_block_wf(st, empty, index, PartKind::ToolUse, fresh_id, now);
                let (s1, f1) = r_ensure_block(st, empty, index, PartKind::ToolUse, fresh_id, now);
                lemma_announce_wf(s1, f1, index);
                let (s2, f2) = r_announce(s1, f1, index);
                let b = block_get(s2.blocks, index)->0;
                lemma_put_same_flags(s2.blocks, index, BlockV { args: b.args + fragment, ..b });
            },
            EventV::ContentStop { index } => lemma_close_block_wf(st, empty, index),
            _ => {},
        }
    }
}

proof fn lemma_text_delta_wf(st: RespEncoderV, k: u32, kind: PartKind, text: Seq<char>, fresh_id: Seq<char>, now: i64)
    requires
        blocks_wf(st.blocks),
    ensures
        blocks_wf(r_text_delta(st, k, kind, text, fresh_id, now).0.blocks),
{
    lemma_ensure_block_wf(st, Seq::empty(), k, kind, fresh_id, now);
    let s1 = r_ensure_block(st, Seq::empty(), k, kind, fresh_id, now).0;
    let b = block_get(s1.blocks, k)->0;
    lemma_put_same_flags(s1.blocks, k, BlockV { text: b.text + text, ..b });
}

proof fn lemma_end_closes(st: RespEncoderV, fresh_id: Seq<char>, now: i64)
    requires
        blocks_wf(st.blocks),
    ensures
        !st.finished ==> r_terminate(st, Seq::empty(), fresh_id, now).0.blocks.len() == 0
            && r_terminate(st, Seq::empty(), fresh_id, now).0.finished,
{
    if !st.finished {
        let (s1, f1) = r_ensure_started(st, Seq::empty(), fresh_id, now);
        lemma_close_keys_empty(s1, f1, block_keys(s1.blocks));
    }
}

/// Ending the stream, by `Done` or by `finish` of a started stream, closes every open item
/// (its `.done` events and `output_item.done`) before the final `response.completed` or
/// `response.incomplete` event, which is emitted from a state with no item open; the encoder
/// is then finished.
pub proof fn law_end_closes_all(st: RespEncoderV, fresh_id: Seq<char>, now: i64)
    requires
        blocks_wf(st.blocks),
    ensures
        !st.finished ==> spec_responses_encode(st, EventV::Done, fresh_id, now).0.blocks.len() == 0
            && spec_responses_encode(st, EventV::Done, fresh_id, now).0.finished,
        !st.finished && st.started ==> spec_responses_encode_finish(st, fresh_id, now).0.blocks.len() == 0
            && spec_responses_encode_finish(st, fresh_id, now).0.finished,
{
    lemma_end_closes(st, fresh_id, now);
}


// ---------------------------------------------------------------------------
// Whole streams through the decoder.

/// The decoder before any frame.
pub open spec fn initial_resp_decoder() -> RespDecoderV {
    RespDecoderV { opened: Seq::empty(), started: false, finished: false }
}

/// Decoding `frames` in turn: the final state and all events, in order.
pub open spec fn decode_all(st: RespDecoderV, frames: Seq<FrameV>) -> (RespDecoderV, Seq<EventV>)
    decreases frames.len(),
{
    if frames.len() == 0 {
        (st, Seq::empty())
    } else {
        let (s1, o1) = decode_all(st, frames.drop_last());
        let (s2, o2) = spec_responses_decode(s1, frames.last());
        (s2, o1 + o2)
    }
}

/// How many `Done` events `s` holds.
pub open spec fn done_count(s: Seq<EventV>) -> nat
    decreases s.len(),
{
    if s.len() == 0 {
        0
    } else {
        done_count(s.drop_last()) + if s.last() is Done { 1nat } else { 0nat }
    }
}

/// Whether `s` holds an `Error` event.
pub open spec fn has_error(s: Seq<EventV>) -> bool {
    exists|i: int| 0 <= i < s.len() && (#[trigger] s[i]) is Error
}

proof fn lemma_done_count_add(a: Seq<EventV>, b: Seq<EventV>)
    ensures
        done_count(a + b) == done_count(a) + done_count(b),
    decreases b.len(),
{
    if b.len() == 0 {
        assert(a + b =~= a);
    } else {
        lemma_done_count_add(a, b.drop_last());
        assert((a + b).drop_last() =~= a + b.drop_last());
        assert((a + b).last() == b.last());
    }
}

proof fn lemma_done_free_count(s: Seq<EventV>)
    requires
        done_free(s),
    ensures
        done_count(s) == 0,
    decreases s.len(),
{
    if s.len() > 0 {
        assert(s.last() == s[s.len() - 1]);
        assert forall|i: int| 0 <= i < s.drop_last().len() implies !(#[trigger] s.drop_last()[i] is Done) by {
            assert(s.drop_last()[i] == s[i]);
        }
        lemma_done_free_count(s.drop_last());
    }
}

proof fn lemma_has_error_grows(a: Seq<EventV>, b: Seq<EventV>)
    ensures
        has_error(a) ==> has_error(a + b),
        has_error(b) ==> has_error(a + b),
{
    if has_error(a) {
        let i = choose|i: int| 0 <= i < a.len() && (#[trigger] a[i]) is Error;
        assert((a + b)[i] == a[i]);
    }
    if has_error(b) {
        let i = choose|i: int| 0 <= i < b.len() && (#[trigger] b[i]) is Error;
        assert((a + b)[a.len() + i] == b[i]);
    }
}

proof fn lemma_decode_all_done(frames: Seq<FrameV>)
    ensures
        done_count(decode_all(initial_resp_decoder(), frames).1) <= 1,
        !decode_all(initial_resp_decoder(), frames).0.finished ==> done_count(decode_all(initial_resp_decoder(), frames).1) == 0,
        decode_all(initial_resp_decoder(), frames).0.finished ==> done_count(decode_all(initial_resp_decoder(), frames).1) == 1
            || has_error(decode_all(initial_resp_decoder(), frames).1),
    decreases frames.len(),
{
    if frames.len() > 0 {
        lemma_decode_all_done(frames.drop_last());
        let (s1, o1) = decode_all(initial_resp_decoder(), frames.drop_last());
        let (s2, o2) = spec_responses_decode(s1, frames.last());
        law_done_at_most_once(s1, frames.last());
        lemma_done_count_add(o1, o2);
        lemma_has_error_grows(o1, o2);
        if done_free(o2) {
            lemma_done_free_count(o2);
            if !s1.finished && s2.finished {
                assert(o2[0] is Error);
                assert(has_error(o2));
            }
        } else {
            lemma_done_free_count(o2.drop_last());
            assert(o2 =~= o2.drop_last().push(o2.last()));
            assert(done_count(o2) == 1);
        }
    }
}

/// Over a whole stream (any frames fed to a new decoder, then `finish`) `Done` reaches the
/// consumer at most once, and exactly once unless an `Error` event ended the stream.
pub proof fn law_done_once_per_stream(frames: Seq<FrameV>)
    ensures
        done_count(decode_all(initial_resp_decoder(), frames).1
            + spec_responses_finish(decode_all(initial_resp_decoder(), frames).0).1) <= 1,
        !has_error(decode_all(initial_resp_decoder(), frames).1
            + spec_responses_finish(decode_all(initial_resp_decoder(), frames).0).1)
            ==> done_count(decode_all(initial_resp_decoder(), frames).1
                + spec_responses_finish(decode_all(initial_resp_decoder(), frames).0).1) == 1,
{
    lemma_decode_all_done(frames);
    let (s, out) = decode_all(initial_resp_decoder(), frames);
    let fin = spec_responses_finish(s).1;
    lemma_done_count_add(out, fin);
    lemma_has_error_grows(out, fin);
    if !s.finished {
        assert(done_count(fin) == 1) by {
            assert(fin == seq![EventV::Done]);
            assert(fin.len() == 1 && fin.last() is Done);
            assert(fin.drop_last() =~= Seq::<EventV>::empty());
            assert(done_count(fin.drop_last()) == 0);
        }
    }
}


// ---------------------------------------------------------------------------
// Whole streams through the encoder.

/// Encoding `events` in turn, step `i` drawing `ids[i]` and `nows[i]`: the final state and all frames.
pub open spec fn encode_all(st: RespEncoderV, events: Seq<EventV>, ids: Seq<Seq<char>>, nows: Seq<i64>) -> (RespEncoderV, Seq<FrameV>)
    decreases events.len(),
{
    if events.len() == 0 {
        (st, Seq::empty())
    } else {
        let n = events.len() - 1;
        let (s1, f1) = encode_all(st, events.drop_last(), ids, nows);
        let (s2, f2) = spec_responses_encode(s1, events.last(), ids[n], nows[n]);
        (s2, f1 + f2)
    }
}

proof fn lemma_step_shift(a: u64, b: u64, f: Seq<FrameV>, o: Seq<FrameV>)
    requires
        numbered_step(a, Seq::empty(), b, o),
    ensures
        numbered_step(a, f, b, f + o),
{
    let g = f + o;
    assert(g.subrange(0, f.len() as int) =~= f);
    assert forall|i: int| f.len() <= i < g.len() implies seq_frame(#[trigger] g[i], seq_after(a, (i - f.len()) as nat)) by {
        assert(g[i] == o[i - f.len()]);
    }
}

proof fn lemma_seq_after_zero(k: nat)
    requires
        k <= u64::MAX,
    ensures
        seq_after(0, k) == k,
    decreases k,
{
    if k > 0 {
        lemma_seq_after_zero((k - 1) as nat);
    }
}

proof fn lemma_encode_all_numbered(events: Seq<EventV>, ids: Seq<Seq<char>>, nows: Seq<i64>)
    ensures
        numbered_step(0, Seq::empty(), encode_all(initial_resp_encoder(), events, ids, nows).0.seq,
            encode_all(initial_resp_encoder(), events, ids, nows).1),
    decreases events.len(),
{
    if events.len() == 0 {
        lemma_step_refl(0, Seq::empty());
    } else {
        let n = events.len() - 1;
        lemma_encode_all_numbered(events.drop_last(), ids, nows);
        let (s1, f1) = encode_all(initial_resp_encoder(), events.drop_last(), ids, nows);
        let (s2, f2) = spec_responses_encode(s1, events.last(), ids[n], nows[n]);
        law_sequence_numbers(s1, events.last(), ids[n], nows[n]);
        lemma_step_shift(s1.seq, s2.seq, f1, f2);
        lemma_step_trans(0, Seq::empty(), s1.seq, f1, s2.seq, f1 + f2);
    }
}

/// Over a whole stream (any events fed to a new encoder, then `finish`) the frames are numbered
/// 0, 1, 2, … in order, without gap or repeat: frame `k` carries its own event type and
/// `sequence_number` `k`.
pub proof fn law_sequence_numbers_per_stream(events: Seq<EventV>, ids: Seq<Seq<char>>, nows: Seq<i64>, fin_id: Seq<char>, fin_now: i64)
    ensures
        forall|k: int| 0 <= k < (encode_all(initial_resp_encoder(), events, ids, nows).1
            + spec_responses_encode_finish(encode_all(initial_resp_encoder(), events, ids, nows).0, fin_id, fin_now).1).len()
            && k <= u64::MAX
            ==> seq_frame(#[trigger] (encode_all(initial_resp_encoder(), events, ids, nows).1
                + spec_responses_encode_finish(encode_all(initial_resp_encoder(), events, ids, nows).0, fin_id, fin_now).1)[k], k as u64),
{
    lemma_encode_all_numbered(events, ids, nows);
    let (s, out) = encode_all(initial_resp_encoder(), events, ids, nows);
    let (s2, fin) = spec_responses_encode_finish(s, fin_id, fin_now);
    law_sequence_numbers(s, EventV::Ping, fin_id, fin_now);
    lemma_step_shift(s.seq, s2.seq, out, fin);
    lemma_step_trans(0, Seq::empty(), s.seq, out, s2.seq, out + fin);
    let all = out + fin;
    assert forall|k: int| 0 <= k < all.len() && k <= u64::MAX implies seq_frame(#[trigger] all[k], k as u64) by {
        lemma_seq_after_zero(k as nat);
        assert((k - 0) as nat == k as nat);
    }
}


/// Usage written in Responses form reads back as exactly the same usage.
pub proof fn law_responses_usage_round_trip(u: Usage)
    ensures
        spec_decode_usage(spec_encode_usage(u)) == u,
{
    reveal_strlit("input_tokens");
    reveal_strlit("input_tokens_details");
    reveal_strlit("output_tokens");
    reveal_strlit("output_tokens_details");
    reveal_strlit("total_tokens");
    reveal_strlit("cached_tokens");
    reveal_strlit("cache_write_tokens");
    reveal_strlit("reasoning_tokens");
    assert("input_tokens"@.len() == 12);
    assert("input_tokens_details"@.len() == 20);
    assert("output_tokens"@.len() == 13);
    assert("output_tokens_details"@.len() == 21);
    assert("total_tokens"@.len() == 12);
    assert("cached_tokens"@.len() == 13);
    assert("cache_write_tokens"@.len() == 18);
    assert("reasoning_tokens"@.len() == 16);
    assert("input_tokens"@[0] != "total_tokens"@[0]);
    reveal_with_fuel(member_get, 6);
}


proof fn lemma_member_last_absent(m: Seq<(Seq<char>, JsonV)>, k: Seq<char>)
    requires
        forall|j: int| 0 <= j < m.len() ==> m[j].0 != k,
    ensures
        member_last(m, k) is None,
    decreases m.len(),
{
    if m.len() > 0 {
        assert(m.last() == m[m.len() - 1]);
        assert forall|j: int| 0 <= j < m.drop_last().len() implies m.drop_last()[j].0 != k by {
            assert(m.drop_last()[j] == m[j]);
        }
        lemma_member_last_absent(m.drop_last(), k);
    }
}

/// No extension is named `responses.<f>`.
pub open spec fn no_responses_ext(ext: Seq<(Seq<char>, JsonV)>, f: Seq<char>) -> bool {
    forall|j: int| 0 <= j < ext.len() ==> ext[j].0 != "responses."@ + f
}

/// The Responses request body carries the request's sampling parameters under their
/// Responses names: `temperature`, `top_p` and `max_output_tokens` hold exactly the request's
/// temperature, top-p and output limit whenever it sets them (and no kept `responses.` field of
/// that name overrides it).
pub proof fn law_responses_sampling_encoded(r: RequestV)
    ensures
        no_responses_ext(r.extensions, "temperature"@) ==> (r.sampling.temperature matches Some(t)
            ==> spec_responses_encode_request(r).get("temperature"@) == Some(JsonV::Number(t))),
        no_responses_ext(r.extensions, "top_p"@) ==> (r.sampling.top_p matches Some(t)
            ==> spec_responses_encode_request(r).get("top_p"@) == Some(JsonV::Number(t))),
        no_responses_ext(r.extensions, "max_output_tokens"@) ==> (r.max_output_tokens matches Some(m)
            ==> spec_responses_encode_request(r).get("max_output_tokens"@) == Some(num(m as u64))),
{
    reveal_strlit("max_output_tokens");
    reveal_strlit("temperature");
    reveal_strlit("top_p");
    reveal_strlit("parallel_tool_calls");
    reveal_strlit("user");
    reveal_strlit("tools");
    reveal_strlit("tool_choice");
    reveal_strlit("text");
    reveal_strlit("reasoning");
    reveal_strlit("responses.");
    assert("max_output_tokens"@.len() == 17);
    assert("temperature"@.len() == 11);
    assert("top_p"@.len() == 5);
    assert("parallel_tool_calls"@.len() == 19);
    assert("user"@.len() == 4);
    assert("tools"@.len() == 5);
    assert("tool_choice"@.len() == 11);
    assert("text"@.len() == 4);
    assert("reasoning"@.len() == 9);
    assert("top_p"@[2] != "tools"@[2]);
    assert("temperature"@[1] != "tool_choice"@[1]);
    let s = r.sampling;
    let b0 = ext_insert(Seq::empty(), "model"@, js(r.model));
    let b1 = if r.system.len() > 0 { ext_insert(b0, "instructions"@, js(system_join(r.system))) } else { b0 };
    let b2 = ext_insert(b1, "input"@, JsonV::Array(spec_encode_input_items(r.messages)));
    let b3 = if r.stream { ext_insert(b2, "stream"@, JsonV::Bool(true)) } else { b2 };
    let b4 = ext_opt(b3, "max_output_tokens"@, match r.max_output_tokens { Some(m) => Some(num(m as u64)), None => None });
    let b5 = ext_opt(b4, "temperature"@, match s.temperature { Some(t) => Some(JsonV::Number(t)), None => None });
    let b6 = ext_opt(b5, "top_p"@, match s.top_p { Some(t) => Some(JsonV::Number(t)), None => None });
    let b7 = ext_opt(b6, "parallel_tool_calls"@, match r.parallel_tool_calls { Some(p) => Some(JsonV::Bool(p)), None => None });
    let b8 = ext_opt(b7, "user"@, match r.user { Some(u) => Some(js(u)), None => None });
    let tools = responses_tools_json(r);
    let b9 = if tools.len() > 0 { ext_insert(b8, "tools"@, JsonV::Array(tools)) } else { b8 };
    let b10 = ext_opt(b9, "tool_choice"@, spec_encode_tool_choice(r.tool_choice));
    let b11 = ext_opt(b10, "text"@, match r.response_format {
        Some(f) => Some(JsonV::Object(seq![("format"@, spec_encode_response_format(f))])),
        None => None,
    });
    let b12 = ext_opt(b11, "reasoning"@, match r.reasoning {
        Some(rs) => spec_encode_reasoning(rs, r.max_output_tokens),
        None => None,
    });
    assert(spec_responses_encode_request(r) == JsonV::Object(resp_restore(r.extensions, b12, true)));
    let ks = seq!["max_output_tokens"@, "temperature"@, "top_p"@];
    assert forall|i: int| 0 <= i < 3 implies member_get(b12, #[trigger] ks[i]) == member_get(b6, ks[i]) by {
        let k = ks[i];
        assert(k == "max_output_tokens"@ || k == "temperature"@ || k == "top_p"@);
        assert(k != "parallel_tool_calls"@ && k != "user"@ && k != "tools"@ && k != "tool_choice"@ && k != "text"@ && k != "reasoning"@);
        crate::codec::gemini::lemma_ext_opt_other(b6, "parallel_tool_calls"@, k);
        crate::codec::gemini::lemma_ext_opt_other(b7, "user"@, k);
        lemma_ext_insert(b8, "tools"@, JsonV::Array(tools));
        crate::codec::gemini::lemma_ext_opt_other(b9, "tool_choice"@, k);
        crate::codec::gemini::lemma_ext_opt_other(b10, "text"@, k);
        crate::codec::gemini::lemma_ext_opt_other(b11, "reasoning"@, k);
        assert(member_get(b7, k) == member_get(b6, k));
        assert(member_get(b8, k) == member_get(b7, k));
        assert(member_get(b9, k) == member_get(b8, k));
        assert(member_get(b10, k) == member_get(b9, k));
        assert(member_get(b11, k) == member_get(b10, k));
        assert(member_get(b12, k) == member_get(b11, k));
    }
    assert(ks[0] == "max_output_tokens"@ && ks[1] == "temperature"@ && ks[2] == "top_p"@);
    crate::codec::gemini::lemma_ext_opt_other(b4, "temperature"@, "max_output_tokens"@);
    crate::codec::gemini::lemma_ext_opt_other(b5, "top_p"@, "max_output_tokens"@);
    crate::codec::gemini::lemma_ext_opt_other(b5, "top_p"@, "temperature"@);
    if let Some(m) = r.max_output_tokens {
        lemma_ext_insert(b3, "max_output_tokens"@, num(m as u64));
    }
    if let Some(t) = s.temperature {
        lemma_ext_insert(b4, "temperature"@, JsonV::Number(t));
    }
    if let Some(t) = s.top_p {
        lemma_ext_insert(b5, "top_p"@, JsonV::Number(t));
    }
    assert("temperature"@ != "builtin_tools"@) by { reveal_strlit("builtin_tools"); assert("builtin_tools"@.len() == 13); }
    assert("top_p"@ != "builtin_tools"@) by { reveal_strlit("builtin_tools"); assert("builtin_tools"@.len() == 13); }
    assert("max_output_tokens"@ != "builtin_tools"@) by { reveal_strlit("builtin_tools"); assert("builtin_tools"@.len() == 13); }
    if no_responses_ext(r.extensions, "temperature"@) {
        lemma_member_last_absent(r.extensions, "responses."@ + "temperature"@);
    }
    if no_responses_ext(r.extensions, "top_p"@) {
        lemma_member_last_absent(r.extensions, "responses."@ + "top_p"@);
    }
    if no_responses_ext(r.extensions, "max_output_tokens"@) {
        lemma_member_last_absent(r.extensions, "responses."@ + "max_output_tokens"@);
    }
    lemma_resp_restore_get(r.extensions, b12, true, "temperature"@);
    lemma_resp_restore_get(r.extensions, b12, true, "top_p"@);
    lemma_resp_restore_get(r.extensions, b12, true, "max_output_tokens"@);
}


/// A decoded Responses request takes its sampling parameters from the body: a number under
/// `temperature` or `top_p` becomes the request's temperature or top-p.
pub proof fn law_responses_sampling_decoded(raw: JsonV)
    ensures
        spec_responses_decode_request(raw) matches Ok(r) ==> {
            &&& (raw.get("temperature"@) matches Some(JsonV::Number(t)) ==> r.sampling.temperature == Some(t))
            &&& (raw.get("top_p"@) matches Some(JsonV::Number(t)) ==> r.sampling.top_p == Some(t))
        },
{
}


/// A `response.completed` event whose response carries usage yields that usage first and a
/// `Stop` after it; on a stream not yet ended it ends with `Done` and ends the stream.
pub proof fn law_response_completed_usage(st: RespDecoderV, p: JsonV, u: JsonV)
    requires
        opt_get(p.get("response"@), "usage"@) == Some(u),
        !(u is Null),
    ensures
        spec_responses_event(st, "response.completed"@, p).1[0] == EventV::Usage(spec_decode_usage(u)),
        spec_responses_event(st, "response.completed"@, p).1[1] is Stop,
        !st.finished ==> spec_responses_event(st, "response.completed"@, p).1.last() is Done
            && spec_responses_event(st, "response.completed"@, p).0.finished,
{
    reveal_strlit("response.completed");
    reveal_strlit("response.created");
    reveal_strlit("response.in_progress");
    reveal_strlit("response.output_item.added");
    reveal_strlit("response.content_part.added");
    reveal_strlit("response.output_text.delta");
    reveal_strlit("response.refusal.delta");
    reveal_strlit("response.reasoning_summary_text.delta");
    reveal_strlit("response.reasoning_text.delta");
    reveal_strlit("response.function_call_arguments.delta");
    reveal_strlit("response.output_item.done");
    assert("response.completed"@.len() == 18);
    assert("response.created"@.len() == 16);
    assert("response.in_progress"@.len() == 20);
    assert("response.output_item.added"@.len() == 26);
    assert("response.content_part.added"@.len() == 27);
    assert("response.output_text.delta"@.len() == 26);
    assert("response.refusal.delta"@.len() == 22);
    assert("response.reasoning_summary_text.delta"@.len() == 37);
    assert("response.reasoning_text.delta"@.len() == 29);
    assert("response.function_call_arguments.delta"@.len() == 38);
    assert("response.output_item.done"@.len() == 25);
}

} // verus!
