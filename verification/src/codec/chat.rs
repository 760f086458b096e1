//! OpenAI Chat Completions codec.
//!
//! Chat is the least expressive protocol: no reasoning blocks, no block
//! indices, tool arguments as JSON text. Decoding is lenient towards relays;
//! encoding fills in everything the protocol requires.

use vstd::prelude::*;
use crate::error::{ErrorKind, GatewayError, GatewayErrorV, plain_error, Protocol};
use crate::codec::gemini::{ext_opt, lemma_ext_opt_other};
use crate::ir::{
    ContentPart, MediaSource, Message, PartV, SourceV, StopReason, Usage, Role, ToolDef, ToolChoice, ResponseFormat,
    ReasoningConfig, UnifiedRequest, Sampling, MessageV, ToolV, ChoiceV, FormatV, ReasoningV, SamplingV, RequestV,
    Extensions, ov, pv, msgs, tls, onv, ext_insert, lemma_ext_insert, lemma_member_get_append, lemma_member_index, spec_parse_data_uri, lemma_parts_view, lemma_parts_view_push,
    UnifiedResponse, ResponseV, wrap_add, wrap_add_exec, spec_to_data_uri,
};
use crate::json::{JsonNumber, NumberV, opt_bool, opt_get, items_view, lemma_items_view};
use crate::stream::tool_input;
use crate::text::{decimal, decimal_text, starts_with};
use crate::json::{Json, JsonV, json_parse, json_render, opt_str, opt_u64, str_or, non_empty, opt_view, members_view, member_get, push_member};
use crate::codec::messages::{str_json, pair_object, triple_object};
use crate::stream::{StreamEvent, EventV, SseFrame, FrameV, evs, frs, push_event, push_frame};
use crate::text::{text_eq, owned, trim, trimmed, concat, strip_prefix};

verus! {

/// OpenAI Chat Completions codec.
pub struct ChatCodec;

/// `finish_reason` in IR terms.
pub open spec fn spec_finish_reason_to_ir(raw: Seq<char>) -> StopReason {
    if raw == "stop"@ {
        StopReason::Stop
    } else if raw == "length"@ {
        StopReason::MaxTokens
    } else if raw == "tool_calls"@ || raw == "function_call"@ {
        StopReason::ToolUse
    } else if raw == "content_filter"@ {
        StopReason::ContentFilter
    } else {
        StopReason::Other
    }
}

/// `finish_reason` in IR terms (the deprecated `function_call` counts as `tool_calls`).
pub fn finish_reason_to_ir(raw: &str) -> (res: StopReason)
    ensures
        res == spec_finish_reason_to_ir(raw@),
{
    if text_eq(raw, "stop") {
        StopReason::Stop
    } else if text_eq(raw, "length") {
        StopReason::MaxTokens
    } else if text_eq(raw, "tool_calls") || text_eq(raw, "function_call") {
        StopReason::ToolUse
    } else if text_eq(raw, "content_filter") {
        StopReason::ContentFilter
    } else {
        StopReason::Other
    }
}

/// The `finish_reason` for an IR stop reason.
pub open spec fn spec_stop_reason_to_finish(reason: StopReason) -> Seq<char> {
    match reason {
        StopReason::MaxTokens => "length"@,
        StopReason::ToolUse => "tool_calls"@,
        StopReason::ContentFilter => "content_filter"@,
        _ => "stop"@,
    }
}

/// The `finish_reason` for an IR stop reason; reasons Chat cannot express become `stop`.
pub fn stop_reason_to_finish(reason: StopReason) -> (res: &'static str)
    ensures
        res@ == spec_stop_reason_to_finish(reason),
{
    match reason {
        StopReason::MaxTokens => "length",
        StopReason::ToolUse => "tool_calls",
        StopReason::ContentFilter => "content_filter",
        _ => "stop",
    }
}

/// The Chat stop reasons survive the round trip through the IR.
pub proof fn law_finish_reason_round_trip(reason: StopReason)
    requires
        reason == StopReason::Stop || reason == StopReason::MaxTokens || reason == StopReason::ToolUse
            || reason == StopReason::ContentFilter,
    ensures
        spec_finish_reason_to_ir(spec_stop_reason_to_finish(reason)) == reason,
{
    reveal_strlit("stop");
    reveal_strlit("length");
    reveal_strlit("tool_calls");
    reveal_strlit("function_call");
    reveal_strlit("content_filter");
    assert("length"@.len() != "stop"@.len());
    assert("tool_calls"@.len() != "stop"@.len() && "tool_calls"@.len() != "length"@.len());
    assert("content_filter"@.len() != "stop"@.len() && "content_filter"@.len() != "length"@.len());
    assert("content_filter"@[0] != "tool_calls"@[0] && "content_filter"@[0] != "function_call"@[0]);
}

/// Usage of a Chat `usage` object.
pub open spec fn spec_parse_usage(raw: JsonV) -> Usage {
    Usage {
        input_tokens: match opt_u64(raw.get("prompt_tokens"@)) { Some(n) => n, None => 0 },
        output_tokens: match opt_u64(raw.get("completion_tokens"@)) { Some(n) => n, None => 0 },
        cached_input_tokens: match opt_u64(crate::json::opt_get(raw.get("prompt_tokens_details"@), "cached_tokens"@)) { Some(n) => n, None => 0 },
        cache_write_tokens: 0,
        reasoning_tokens: match opt_u64(crate::json::opt_get(raw.get("completion_tokens_details"@), "reasoning_tokens"@)) { Some(n) => n, None => 0 },
    }
}

fn u64_field(v: Option<&Json>, key: &str) -> (res: u64)
    ensures
        res == (match opt_u64(crate::json::opt_get(opt_view(v), key@)) { Some(n) => n, None => 0 }),
{
    match v {
        Some(j) => match j.get_u64(key) {
            Some(n) => n,
            None => 0,
        },
        None => 0,
    }
}

/// Usage of a Chat `usage` object (`cache_write_tokens` is always 0: Chat has no such count).
pub fn parse_usage(raw: &Json) -> (res: Usage)
    ensures
        res == spec_parse_usage(raw@),
{
    Usage {
        input_tokens: u64_field(Some(raw), "prompt_tokens"),
        output_tokens: u64_field(Some(raw), "completion_tokens"),
        cached_input_tokens: u64_field(raw.get("prompt_tokens_details"), "cached_tokens"),
        cache_write_tokens: 0,
        reasoning_tokens: u64_field(raw.get("completion_tokens_details"), "reasoning_tokens"),
    }
}

/// Text of an array item: the item itself when it is text, else its `text` field.
pub open spec fn item_text(item: JsonV) -> Seq<char> {
    match item.as_str() {
        Some(t) => t,
        None => str_or(opt_str(item.get("text"@)), Seq::empty()),
    }
}

/// The texts of array items, joined.
pub open spec fn items_text(items: Seq<JsonV>) -> Seq<char>
    decreases items.len(),
{
    if items.len() == 0 {
        Seq::empty()
    } else {
        items_text(items.drop_last()) + item_text(items.last())
    }
}

/// The text increment in field `key` of a delta: a string, `{content}`/`{text}`, or an array of parts.
pub open spec fn spec_delta_text(delta: JsonV, key: Seq<char>) -> Option<Seq<char>> {
    match delta.get(key) {
        Some(JsonV::Str(s)) => Some(s),
        Some(JsonV::Object(o)) => match opt_str(member_get(o, "content"@)) {
            Some(c) => Some(c),
            None => opt_str(member_get(o, "text"@)),
        },
        Some(JsonV::Array(a)) => Some(items_text(a)),
        _ => None,
    }
}

fn delta_text(delta: &Json, key: &str) -> (res: Option<String>)
    ensures
        ov(res) == spec_delta_text(delta@, key@),
{
    match delta.get(key) {
        Some(Json::Str(s)) => Some(owned(s.as_str())),
        Some(v) => match v {
            Json::Object(_) => match v.get_str("content") {
                Some(c) => Some(owned(c)),
                None => match v.get_str("text") {
                    Some(t) => Some(owned(t)),
                    None => None,
                },
            },
            Json::Array(a) => {
                proof {
                    crate::json::lemma_items_view(a@);
                }
                let mut joined = String::new();
                let mut i: usize = 0;
                while i < a.len()
                    invariant
                        i <= a.len(),
                        crate::json::items_view(a@).len() == a.len(),
                        forall|k: int| 0 <= k < a.len() ==> #[trigger] crate::json::items_view(a@)[k] == a@[k]@,
                        joined@ == items_text(crate::json::items_view(a@).subrange(0, i as int)),
                    decreases a.len() - i,
                {
                    let ghost its = crate::json::items_view(a@);
                    assert(its.subrange(0, i + 1).drop_last() =~= its.subrange(0, i as int));
                    match a[i].as_str() {
                        Some(t) => joined.append(t),
                        None => match a[i].get_str("text") {
                            Some(t) => joined.append(t),
                            None => {},
                        },
                    }
                    i = i + 1;
                }
                assert(crate::json::items_view(a@).subrange(0, a.len() as int) =~= crate::json::items_view(a@));
                Some(joined)
            },
            _ => None,
        },
        None => None,
    }
}

/// Block index of every Chat text, reasoning and refusal increment.
pub const TEXT_INDEX: u32 = 0;

/// IR block index of the Chat tool call at `ti` (tool blocks start at 1).
pub open spec fn tool_block_index(ti: u32) -> u32 {
    if ti == u32::MAX { 0 } else { (ti + 1) as u32 }
}

fn tool_block_index_exec(ti: u32) -> (res: u32)
    ensures
        res == tool_block_index(ti),
{
    ti.wrapping_add(1)
}

/// Accumulated state of one tool-call slot.
struct ToolSlot {
    seen: bool,
    declared: bool,
    id: String,
    name: String,
    pending_args: Vec<String>,
}

/// Model of a tool-call slot.
pub struct SlotV {
    /// Some frame of this call was seen.
    pub seen: bool,
    /// Its `ToolCallStart` was emitted.
    pub declared: bool,
    /// The last non-empty call id.
    pub id: Seq<char>,
    /// The name, concatenated from its pieces.
    pub name: Seq<char>,
    /// Argument fragments that arrived before the name.
    pub pending: Seq<Seq<char>>,
}

impl View for ToolSlot {
    type V = SlotV;

    closed spec fn view(&self) -> SlotV {
        SlotV { seen: self.seen, declared: self.declared, id: self.id@, name: self.name@, pending: self.pending_args@.map_values(|f: String| f@) }
    }
}

pub open spec fn empty_slot() -> SlotV {
    SlotV { seen: false, declared: false, id: Seq::empty(), name: Seq::empty(), pending: Seq::empty() }
}

/// Model of the Chat stream decoder.
pub struct ChatDecoderV {
    pub started: bool,
    pub done: bool,
    pub tools: Seq<SlotV>,
}

/// Argument-fragment events for block `k`.
pub open spec fn args_events(k: u32, frags: Seq<Seq<char>>) -> Seq<EventV> {
    frags.map_values(|f: Seq<char>| EventV::ToolCallArgsDelta { index: k, fragment: f })
}

/// Declares slot `i` when it was seen but never declared, with its pending arguments.
pub open spec fn flush_slot(tools: Seq<SlotV>, i: int, out: Seq<EventV>) -> (Seq<SlotV>, Seq<EventV>) {
    let s = tools[i];
    if s.seen && !s.declared {
        let k = tool_block_index(i as u32);
        (
            tools.update(i, SlotV { declared: true, pending: Seq::empty(), ..s }),
            out.push(EventV::ToolCallStart { index: k, id: s.id, name: s.name, signature: None }) + args_events(k, s.pending),
        )
    } else {
        (tools, out)
    }
}

/// Declares every slot from `i` on that was seen but never declared.
pub open spec fn flush_from(tools: Seq<SlotV>, i: int, out: Seq<EventV>) -> (Seq<SlotV>, Seq<EventV>)
    decreases tools.len() - i,
{
    if i < 0 || i >= tools.len() {
        (tools, out)
    } else {
        let (t2, o2) = flush_slot(tools, i, out);
        flush_from(t2, i + 1, o2)
    }
}

/// Slots grown so that slot `ti` exists.
pub open spec fn grow(tools: Seq<SlotV>, ti: int) -> Seq<SlotV> {
    if ti < tools.len() {
        tools
    } else {
        tools + Seq::new((ti + 1 - tools.len()) as nat, |j: int| empty_slot())
    }
}

/// Effect of one `tool_calls[]` entry of a delta.
pub open spec fn call_step(tools: Seq<SlotV>, out: Seq<EventV>, call: JsonV) -> (Seq<SlotV>, Seq<EventV>) {
    let ti = (match opt_u64(call.get("index"@)) { Some(n) => n, None => 0u64 }) as usize as int;
    let k = tool_block_index(ti as u32);
    let function = call.get("function"@);
    let args = str_or(opt_str(crate::json::opt_get(function, "arguments"@)), Seq::empty());
    let t0 = grow(tools, ti);
    let s0 = t0[ti];
    let s1 = SlotV {
        seen: true,
        id: match non_empty(opt_str(call.get("id"@))) { Some(i) => i, None => s0.id },
        name: match non_empty(opt_str(crate::json::opt_get(function, "name"@))) { Some(n) => s0.name + n, None => s0.name },
        ..s0
    };
    let early = !s1.declared && args.len() > 0;
    let s2 = if early {
        if s1.name.len() == 0 {
            SlotV { pending: s1.pending.push(args), ..s1 }
        } else {
            SlotV { declared: true, pending: Seq::empty(), ..s1 }
        }
    } else {
        s1
    };
    let out1 = if early && s1.name.len() > 0 {
        out.push(EventV::ToolCallStart { index: k, id: s2.id, name: s2.name, signature: None }) + args_events(k, s1.pending)
    } else {
        out
    };
    let out2 = if args.len() > 0 && s2.declared {
        out1.push(EventV::ToolCallArgsDelta { index: k, fragment: args })
    } else {
        out1
    };
    (t0.update(ti, s2), out2)
}

/// Effect of the `tool_calls[]` entries, in order.
pub open spec fn calls_steps(tools: Seq<SlotV>, out: Seq<EventV>, calls: Seq<JsonV>) -> (Seq<SlotV>, Seq<EventV>)
    decreases calls.len(),
{
    if calls.len() == 0 {
        (tools, out)
    } else {
        let (t, o) = calls_steps(tools, out, calls.drop_last());
        call_step(t, o, calls.last())
    }
}

/// `out` with `e` when `cond` holds.
pub open spec fn push_if(out: Seq<EventV>, cond: bool, e: EventV) -> Seq<EventV> {
    if cond { out.push(e) } else { out }
}

/// The reasoning increment of a delta: `reasoning_content`, else `reasoning`.
pub open spec fn delta_reasoning(delta: JsonV) -> Option<Seq<char>> {
    match spec_delta_text(delta, "reasoning_content"@) {
        Some(t) => Some(t),
        None => spec_delta_text(delta, "reasoning"@),
    }
}

/// Events of one `delta`.
pub open spec fn delta_events(tools: Seq<SlotV>, out: Seq<EventV>, delta: JsonV) -> (Seq<SlotV>, Seq<EventV>) {
    let r = delta_reasoning(delta);
    let o1 = push_if(out, r is Some && r.unwrap().len() > 0, EventV::ThinkingDelta { index: TEXT_INDEX, text: r.unwrap() });
    let sig = non_empty(opt_str(delta.get("reasoning_signature"@)));
    let o2 = push_if(o1, sig is Some, EventV::ThinkingSignature { index: TEXT_INDEX, signature: sig.unwrap() });
    let c = spec_delta_text(delta, "content"@);
    let o3 = push_if(o2, c is Some && c.unwrap().len() > 0, EventV::TextDelta { index: TEXT_INDEX, text: c.unwrap() });
    let rf = spec_delta_text(delta, "refusal"@);
    let o4 = push_if(o3, rf is Some && rf.unwrap().len() > 0, EventV::RefusalDelta { index: TEXT_INDEX, text: rf.unwrap() });
    match delta.get("tool_calls"@) {
        Some(JsonV::Array(calls)) => calls_steps(tools, o4, calls),
        _ => (tools, o4),
    }
}

/// Events of the first choice of a chunk.
pub open spec fn choice_events(tools: Seq<SlotV>, out: Seq<EventV>, choice: JsonV) -> (Seq<SlotV>, Seq<EventV>) {
    let (t1, o1) = match choice.get("delta"@) {
        Some(delta) => delta_events(tools, out, delta),
        None => (tools, out),
    };
    match opt_str(choice.get("finish_reason"@)) {
        Some(r) => {
            let (t2, o2) = flush_from(t1, 0, o1);
            (t2, o2.push(EventV::Stop { reason: spec_finish_reason_to_ir(r), stop_sequence: None }))
        },
        None => (t1, o1),
    }
}

/// The first element of the `choices` array of a chunk.
pub open spec fn first_choice(chunk: JsonV) -> Option<JsonV> {
    match chunk.get("choices"@) {
        Some(JsonV::Array(a)) => if a.len() > 0 { Some(a[0]) } else { None },
        _ => None,
    }
}

/// Effect of one SSE frame on the Chat stream decoder.
pub open spec fn spec_chat_decode(st: ChatDecoderV, data: Seq<char>) -> (ChatDecoderV, Seq<EventV>) {
    let d = trimmed(data);
    if d.len() == 0 {
        (st, Seq::empty())
    } else if d == "[DONE]"@ {
        let (t, o) = flush_from(st.tools, 0, Seq::empty());
        (ChatDecoderV { done: true, tools: t, ..st }, o.push(EventV::Done))
    } else {
        match json_parse(d) {
            None => (st, Seq::empty()),
            Some(chunk) => spec_chat_chunk(st, chunk),
        }
    }
}

/// Effect of one parsed chunk: an `error` object becomes an `Error` event; otherwise `Start`
/// on the first chunk, the events of the first choice, then usage.
pub open spec fn spec_chat_chunk(st: ChatDecoderV, chunk: JsonV) -> (ChatDecoderV, Seq<EventV>) {
    match chunk.get("error"@) {
        Some(e) if !e.is_null() => (st, seq![EventV::Error {
            message: str_or(opt_str(e.get("message"@)), "upstream error"@),
            kind: str_or(opt_str(e.get("type"@)), "upstream_error"@),
        }]),
        _ => {
            let out0 = if !st.started {
                seq![EventV::Start {
                    id: str_or(opt_str(chunk.get("id"@)), Seq::empty()),
                    model: str_or(opt_str(chunk.get("model"@)), Seq::empty()),
                    usage: None,
                }]
            } else {
                Seq::empty()
            };
            let (tools, out1) = match first_choice(chunk) {
                Some(choice) => choice_events(st.tools, out0, choice),
                None => (st.tools, out0),
            };
            let out2 = match chunk.get("usage"@) {
                Some(u) => push_if(out1, u.is_object(), EventV::Usage(spec_parse_usage(u))),
                None => out1,
            };
            (ChatDecoderV { started: true, tools, ..st }, out2)
        },
    }
}

/// Effect of the end of the stream: undeclared tool calls are declared and `Done` is emitted once.
pub open spec fn spec_chat_finish(st: ChatDecoderV) -> (ChatDecoderV, Seq<EventV>) {
    if st.done {
        (st, Seq::empty())
    } else {
        let (t, o) = flush_from(st.tools, 0, Seq::empty());
        (ChatDecoderV { done: true, tools: t, ..st }, o.push(EventV::Done))
    }
}

/// Stateful Chat stream decoder.
///
/// Chat chunks carry no event names; tool calls are accumulated by
/// `tool_calls[].index` and each is declared exactly once.
pub struct ChatStreamDecoder {
    started: bool,
    done: bool,
    tools: Vec<ToolSlot>,
}

pub open spec fn slots_view(v: Seq<ToolSlot>) -> Seq<SlotV> {
    v.map_values(|s: ToolSlot| s@)
}

impl View for ChatStreamDecoder {
    type V = ChatDecoderV;

    closed spec fn view(&self) -> ChatDecoderV {
        ChatDecoderV { started: self.started, done: self.done, tools: slots_view(self.tools@) }
    }
}

fn push_args(out: &mut Vec<StreamEvent>, k: u32, frags: Vec<String>)
    ensures
        evs(final(out)@) == evs(old(out)@) + args_events(k, frags@.map_values(|f: String| f@)),
{
    let ghost fv = frags@.map_values(|f: String| f@);
    let mut i: usize = 0;
    let n = frags.len();
    let mut frags = frags;
    assert(args_events(k, fv.subrange(0, 0)) =~= Seq::<EventV>::empty());
    assert(evs(out@) =~= evs(old(out)@) + args_events(k, fv.subrange(0, 0)));
    while i < n
        invariant
            n == frags.len(),
            i <= n,
            fv.len() == n,
            forall|j: int| i <= j < n ==> (#[trigger] frags@[j])@ == fv[j],
            evs(out@) == evs(old(out)@) + args_events(k, fv.subrange(0, i as int)),
        decreases n - i,
    {
        let mut f = String::new();
        let ghost f0 = frags@;
        std::mem::swap(&mut f, &mut frags[i]);
        assert(f@ == fv[i as int]);
        assert forall|j: int| i < j < n implies (#[trigger] frags@[j])@ == fv[j] by {
            assert(frags@[j] == f0[j]);
        }
        push_event(out, StreamEvent::ToolCallArgsDelta { index: k, fragment: f });
        assert(args_events(k, fv.subrange(0, i + 1)) =~= args_events(k, fv.subrange(0, i as int)).push(EventV::ToolCallArgsDelta { index: k, fragment: fv[i as int] }));
        i = i + 1;
    }
    assert(fv.subrange(0, n as int) =~= fv);
}

impl ChatStreamDecoder {
    /// A decoder that has seen nothing.
    pub fn new() -> (res: ChatStreamDecoder)
        ensures
            res@ == (ChatDecoderV { started: false, done: false, tools: Seq::empty() }),
    {
        let d = ChatStreamDecoder { started: false, done: false, tools: Vec::new() };
        assert(d@.tools =~= Seq::<SlotV>::empty());
        d
    }

    fn flush_undeclared_tools(&mut self, out: &mut Vec<StreamEvent>)
        ensures
            final(self)@ == (ChatDecoderV { tools: flush_from(old(self)@.tools, 0, evs(old(out)@)).0, ..old(self)@ }),
            evs(final(out)@) == flush_from(old(self)@.tools, 0, evs(old(out)@)).1,
    {
        let n = self.tools.len();
        let mut i: usize = 0;
        while i < n
            invariant
                n == self.tools.len(),
                i <= n,
                self.started == old(self).started,
                self.done == old(self).done,
                flush_from(slots_view(self.tools@), i as int, evs(out@)) == flush_from(old(self)@.tools, 0, evs(old(out)@)),
            decreases n - i,
        {
            let ghost t0 = slots_view(self.tools@);
            let ghost o0 = evs(out@);
            if self.tools[i].seen && !self.tools[i].declared {
                let k = tool_block_index_exec(i as u32);
                let id = owned(self.tools[i].id.as_str());
                let name = owned(self.tools[i].name.as_str());
                let mut pending: Vec<String> = Vec::new();
                let ghost pv0 = t0[i as int].pending;
                {
                    let slot = &mut self.tools[i];
                    slot.declared = true;
                    std::mem::swap(&mut pending, &mut slot.pending_args);
                }
                assert(self.tools@[i as int].pending_args@.map_values(|f: String| f@) =~= Seq::<Seq<char>>::empty());
                assert(self.tools@[i as int]@ == SlotV { declared: true, pending: Seq::empty(), ..t0[i as int] });
                assert(slots_view(self.tools@) =~= t0.update(i as int, SlotV { declared: true, pending: Seq::empty(), ..t0[i as int] }));
                push_event(out, StreamEvent::ToolCallStart { index: k, id, name, signature: None });
                push_args(out, k, pending);
            }
            i = i + 1;
        }
    }
}


impl ChatStreamDecoder {
    #[verifier::spinoff_prover]
    #[verifier::rlimit(40)]
    fn call_step(&mut self, out: &mut Vec<StreamEvent>, call: &Json)
        ensures
            final(self)@ == (ChatDecoderV { tools: call_step(old(self)@.tools, evs(old(out)@), call@).0, ..old(self)@ }),
            evs(final(out)@) == call_step(old(self)@.tools, evs(old(out)@), call@).1,
    {
        let ti_raw: u64 = match call.get_u64("index") {
            Some(n) => n,
            None => 0,
        };
        let ti = ti_raw as usize;
        let k = tool_block_index_exec(ti as u32);
        let function = call.get("function");
        let args: String = match function {
            Some(f) => match f.get_str("arguments") {
                Some(a) => owned(a),
                None => String::new(),
            },
            None => String::new(),
        };
        let ghost tools0 = old(self)@.tools;
        let ghost t0 = grow(tools0, ti as int);
        while self.tools.len() <= ti
            invariant
                self.started == old(self).started,
                self.done == old(self).done,
                tools0.len() <= self.tools.len() <= ti + 1 || (ti < tools0.len() && self.tools.len() == tools0.len()),
                slots_view(self.tools@) == (if ti < tools0.len() { tools0 } else { tools0 + Seq::new((self.tools.len() - tools0.len()) as nat, |j: int| empty_slot()) }),
            decreases ti + 1 - self.tools.len(),
        {
            let ghost v0 = slots_view(self.tools@);
            self.tools.push(ToolSlot { seen: false, declared: false, id: String::new(), name: String::new(), pending_args: Vec::new() });
            proof {
                assert(self.tools@.last().pending_args@.map_values(|f: String| f@) =~= Seq::<Seq<char>>::empty());
                assert(slots_view(self.tools@) =~= v0.push(empty_slot()));
                assert(tools0 + Seq::new((self.tools.len() - tools0.len()) as nat, |j: int| empty_slot()) =~= (tools0 + Seq::new((self.tools.len() - 1 - tools0.len()) as nat, |j: int| empty_slot())).push(empty_slot()));
            }
        }
        assert(slots_view(self.tools@) =~= t0);
        let ghost s0 = t0[ti as int];
        let id_opt: Option<&str> = match call.get_str("id") {
            Some(i) => if i.unicode_len() > 0 { Some(i) } else { None },
            None => None,
        };
        let name_opt: Option<&str> = match function {
            Some(f) => match f.get_str("name") {
                Some(n) => if n.unicode_len() > 0 { Some(n) } else { None },
                None => None,
            },
            None => None,
        };
        let early;
        let mut pending: Vec<String> = Vec::new();
        let ghost s1;
        {
            let slot = &mut self.tools[ti];
            slot.seen = true;
            if let Some(i) = id_opt {
                slot.id = owned(i);
            }
            if let Some(n) = name_opt {
                slot.name.append(n);
            }
            proof {
                s1 = slot@;
            }
            early = !slot.declared && args.as_str().unicode_len() > 0;
            if early {
                if slot.name.as_str().unicode_len() == 0 {
                    let ghost p0 = slot.pending_args@;
                    slot.pending_args.push(owned(args.as_str()));
                    proof {
                        assert(slot.pending_args@.map_values(|f: String| f@) =~= p0.map_values(|f: String| f@).push(args@));
                    }
                } else {
                    slot.declared = true;
                    std::mem::swap(&mut pending, &mut slot.pending_args);
                    proof {
                        assert(slot.pending_args@.map_values(|f: String| f@) =~= Seq::<Seq<char>>::empty());
                    }
                }
            }
        }
        assert(s1 == SlotV {
            seen: true,
            id: match non_empty(opt_str(call@.get("id"@))) { Some(i) => i, None => s0.id },
            name: match non_empty(opt_str(crate::json::opt_get(opt_view(function), "name"@))) { Some(n) => s0.name + n, None => s0.name },
            ..s0
        });
        let ghost mid = slots_view(self.tools@);
        assert(mid =~= call_step(tools0, evs(old(out)@), call@).0);
        if early && self.tools[ti].name.as_str().unicode_len() > 0 {
            let id = owned(self.tools[ti].id.as_str());
            let name = owned(self.tools[ti].name.as_str());
            push_event(out, StreamEvent::ToolCallStart { index: k, id, name, signature: None });
            push_args(out, k, pending);
        }
        if args.as_str().unicode_len() > 0 && self.tools[ti].declared {
            push_event(out, StreamEvent::ToolCallArgsDelta { index: k, fragment: args });
        }
    }

    fn calls_steps(&mut self, out: &mut Vec<StreamEvent>, calls: &Vec<Json>)
        ensures
            final(self)@ == (ChatDecoderV { tools: calls_steps(old(self)@.tools, evs(old(out)@), crate::json::items_view(calls@)).0, ..old(self)@ }),
            evs(final(out)@) == calls_steps(old(self)@.tools, evs(old(out)@), crate::json::items_view(calls@)).1,
    {
        proof {
            crate::json::lemma_items_view(calls@);
        }
        let ghost cs = crate::json::items_view(calls@);
        let mut i: usize = 0;
        while i < calls.len()
            invariant
                i <= calls.len(),
                cs.len() == calls.len(),
                forall|k: int| 0 <= k < calls.len() ==> #[trigger] cs[k] == calls@[k]@,
                self.started == old(self).started,
                self.done == old(self).done,
                (slots_view(self.tools@), evs(out@)) == calls_steps(old(self)@.tools, evs(old(out)@), cs.subrange(0, i as int)),
            decreases calls.len() - i,
        {
            assert(cs.subrange(0, i + 1).drop_last() =~= cs.subrange(0, i as int));
            self.call_step(out, &calls[i]);
            i = i + 1;
        }
        assert(cs.subrange(0, calls.len() as int) =~= cs);
    }

    fn delta_events(&mut self, out: &mut Vec<StreamEvent>, delta: &Json)
        ensures
            final(self)@ == (ChatDecoderV { tools: delta_events(old(self)@.tools, evs(old(out)@), delta@).0, ..old(self)@ }),
            evs(final(out)@) == delta_events(old(self)@.tools, evs(old(out)@), delta@).1,
    {
        let r = match delta_text(delta, "reasoning_content") {
            Some(t) => Some(t),
            None => delta_text(delta, "reasoning"),
        };
        if let Some(t) = r {
            if t.as_str().unicode_len() > 0 {
                push_event(out, StreamEvent::ThinkingDelta { index: TEXT_INDEX, text: t });
            }
        }
        if let Some(sig) = delta.get_str("reasoning_signature") {
            if sig.unicode_len() > 0 {
                push_event(out, StreamEvent::ThinkingSignature { index: TEXT_INDEX, signature: owned(sig) });
            }
        }
        if let Some(t) = delta_text(delta, "content") {
            if t.as_str().unicode_len() > 0 {
                push_event(out, StreamEvent::TextDelta { index: TEXT_INDEX, text: t });
            }
        }
        if let Some(t) = delta_text(delta, "refusal") {
            if t.as_str().unicode_len() > 0 {
                push_event(out, StreamEvent::RefusalDelta { index: TEXT_INDEX, text: t });
            }
        }
        if let Some(Json::Array(calls)) = delta.get("tool_calls") {
            self.calls_steps(out, calls);
        }
    }

    /// Decodes one frame into zero or more events.
    pub fn decode(&mut self, frame: &SseFrame) -> (res: Vec<StreamEvent>)
        ensures
            (final(self)@, evs(res@)) == spec_chat_decode(old(self)@, frame.data@),
    {
        let mut out: Vec<StreamEvent> = Vec::new();
        assert(evs(out@) =~= Seq::<EventV>::empty());
        let data = trim(frame.data.as_str());
        if data.unicode_len() == 0 {
            return out;
        }
        if text_eq(data, "[DONE]") {
            self.done = true;
            self.flush_undeclared_tools(&mut out);
            push_event(&mut out, StreamEvent::Done);
            return out;
        }
        let chunk = match Json::parse(data) {
            Some(c) => c,
            None => return out,
        };
        self.chunk(&chunk)
    }

    /// Decodes one parsed chunk into zero or more events.
    pub fn chunk(&mut self, chunk: &Json) -> (res: Vec<StreamEvent>)
        ensures
            (final(self)@, evs(res@)) == spec_chat_chunk(old(self)@, chunk@),
    {
        let mut out: Vec<StreamEvent> = Vec::new();
        assert(evs(out@) =~= Seq::<EventV>::empty());
        if let Some(err) = chunk.get("error") {
            if !err.is_null() {
                let message = match err.get_str("message") {
                    Some(m) => owned(m),
                    None => owned("upstream error"),
                };
                let kind = match err.get_str("type") {
                    Some(t) => owned(t),
                    None => owned("upstream_error"),
                };
                push_event(&mut out, StreamEvent::Error { message, kind });
                assert(evs(out@) =~= seq![EventV::Error { message: message@, kind: kind@ }]);
                return out;
            }
        }
        if !self.started {
            self.started = true;
            let id = match chunk.get_str("id") {
                Some(i) => owned(i),
                None => String::new(),
            };
            let model = match chunk.get_str("model") {
                Some(m) => owned(m),
                None => String::new(),
            };
            push_event(&mut out, StreamEvent::Start { id, model, usage: None });
            assert(evs(out@) =~= seq![EventV::Start { id: id@, model: model@, usage: None }]);
        }
        let choice = match chunk.get("choices") {
            Some(c) => c.first(),
            None => None,
        };
        if let Some(choice) = choice {
            if let Some(delta) = choice.get("delta") {
                self.delta_events(&mut out, delta);
            }
            if let Some(reason) = choice.get_str("finish_reason") {
                self.flush_undeclared_tools(&mut out);
                push_event(&mut out, StreamEvent::Stop { reason: finish_reason_to_ir(reason), stop_sequence: None });
            }
        }
        if let Some(u) = chunk.get("usage") {
            if u.is_object() {
                push_event(&mut out, StreamEvent::Usage(parse_usage(u)));
            }
        }
        out
    }

    /// Ends the stream: declares pending tool calls and emits `Done` unless it was already emitted.
    pub fn finish(&mut self) -> (res: Vec<StreamEvent>)
        ensures
            (final(self)@, evs(res@)) == spec_chat_finish(old(self)@),
    {
        let mut out: Vec<StreamEvent> = Vec::new();
        assert(evs(out@) =~= Seq::<EventV>::empty());
        if self.done {
            return out;
        }
        self.done = true;
        self.flush_undeclared_tools(&mut out);
        push_event(&mut out, StreamEvent::Done);
        out
    }
}

// ---------------------------------------------------------------------------
// Request decoding
// ---------------------------------------------------------------------------

/// A JSON integer as `u32`, clamped to `u32::MAX`.
pub open spec fn spec_as_u32(v: Option<JsonV>) -> Option<u32> {
    match opt_u64(v) {
        Some(n) => Some(if n > u32::MAX { u32::MAX } else { n as u32 }),
        None => None,
    }
}

pub(crate) fn as_u32(v: Option<&Json>) -> (res: Option<u32>)
    ensures
        res == spec_as_u32(opt_view(v)),
{
    match v {
        Some(j) => match j.as_u64() {
            Some(n) => Some(if n > 0xffff_ffff { 0xffff_ffffu32 } else { n as u32 }),
            None => None,
        },
        None => None,
    }
}

/// The number held by `v`, if it is one.
pub open spec fn spec_as_number(v: Option<JsonV>) -> Option<NumberV> {
    match v {
        Some(JsonV::Number(n)) => Some(n),
        _ => None,
    }
}

pub(crate) fn as_number(v: Option<&Json>) -> (res: Option<JsonNumber>)
    ensures
        onv(res) == spec_as_number(opt_view(v)),
{
    match v {
        Some(Json::Number(n)) => Some(n.duplicate()),
        _ => None,
    }
}

/// The value as a signed integer, when it is an integer that fits.
pub open spec fn spec_as_i64(v: Option<JsonV>) -> Option<i64> {
    match v {
        Some(JsonV::Number(NumberV::PosInt(n))) => if n <= i64::MAX { Some(n as i64) } else { None },
        Some(JsonV::Number(NumberV::NegInt(n))) => Some(n),
        _ => None,
    }
}

pub(crate) fn as_i64(v: Option<&Json>) -> (res: Option<i64>)
    ensures
        res == spec_as_i64(opt_view(v)),
{
    match v {
        Some(Json::Number(JsonNumber::PosInt(n))) => if *n <= 0x7fff_ffff_ffff_ffff { Some(*n as i64) } else { None },
        Some(Json::Number(JsonNumber::NegInt(n))) => Some(*n),
        _ => None,
    }
}

/// `stop`: one text or an array of texts (non-text items skipped).
pub open spec fn spec_parse_stop(v: Option<JsonV>) -> Seq<Seq<char>> {
    match v {
        Some(JsonV::Str(s)) => seq![s],
        Some(JsonV::Array(a)) => texts_of(a),
        _ => Seq::empty(),
    }
}

/// The texts among `a`, in order.
pub open spec fn texts_of(a: Seq<JsonV>) -> Seq<Seq<char>>
    decreases a.len(),
{
    if a.len() == 0 {
        Seq::empty()
    } else {
        match a.last() {
            JsonV::Str(s) => texts_of(a.drop_last()).push(s),
            _ => texts_of(a.drop_last()),
        }
    }
}

pub(crate) fn parse_stop(v: Option<&Json>) -> (res: Vec<String>)
    ensures
        res@.map_values(|s: String| s@) == spec_parse_stop(opt_view(v)),
{
    let mut out: Vec<String> = Vec::new();
    match v {
        Some(Json::Str(s)) => {
            out.push(owned(s.as_str()));
            assert(out@.map_values(|s: String| s@) =~= seq![s@]);
        },
        Some(Json::Array(a)) => {
            proof {
                lemma_items_view(a@);
            }
            let mut i: usize = 0;
            assert(out@.map_values(|s: String| s@) =~= Seq::<Seq<char>>::empty());
            while i < a.len()
                invariant
                    i <= a.len(),
                    items_view(a@).len() == a.len(),
                    forall|k: int| 0 <= k < a.len() ==> #[trigger] items_view(a@)[k] == a@[k]@,
                    out@.map_values(|s: String| s@) == texts_of(items_view(a@).subrange(0, i as int)),
                decreases a.len() - i,
            {
                assert(items_view(a@).subrange(0, i + 1).drop_last() =~= items_view(a@).subrange(0, i as int));
                if let Some(t) = a[i].as_str() {
                    let ghost o = out@;
                    out.push(owned(t));
                    assert(out@.map_values(|s: String| s@) =~= o.map_values(|s: String| s@).push(t@));
                }
                i = i + 1;
            }
            assert(items_view(a@).subrange(0, a.len() as int) =~= items_view(a@));
        },
        _ => {
            assert(out@.map_values(|s: String| s@) =~= Seq::<Seq<char>>::empty());
        },
    }
    out
}

/// Audio data that is not a URL is raw base64.
pub open spec fn audio_source(src: SourceV) -> SourceV {
    match src {
        SourceV::Url(u) => if u.len() >= 4 && u.subrange(0, 4) == "http"@ { src } else { SourceV::Base64(u) },
        other => other,
    }
}

/// An `image_url` part.
pub open spec fn spec_image_part(raw: JsonV) -> PartV {
    let img = raw.get("image_url"@);
    let url = match img {
        Some(JsonV::Str(s)) => s,
        Some(v) => str_or(opt_str(v.get("url"@)), Seq::empty()),
        None => Seq::empty(),
    };
    let (source, mime) = spec_parse_data_uri(url);
    PartV::Image { source, mime, detail: opt_str(opt_get(img, "detail"@)) }
}

/// An `input_audio` part, when it carries its payload object.
pub open spec fn spec_audio_part(raw: JsonV) -> Option<PartV> {
    match raw.get("input_audio"@) {
        Some(audio) => {
            let data = str_or(opt_str(audio.get("data"@)), Seq::empty());
            Some(PartV::Audio { source: audio_source(spec_parse_data_uri(data).0), format: opt_str(audio.get("format"@)) })
        },
        None => None,
    }
}

/// A `file` part, when it carries its payload object.
pub open spec fn spec_file_part(raw: JsonV) -> Option<PartV> {
    match raw.get("file"@) {
        Some(file) => {
            let name = opt_str(file.get("filename"@));
            match opt_str(file.get("file_id"@)) {
                Some(id) => Some(PartV::File { source: SourceV::FileId(id), mime: None, name }),
                None => {
                    let (source, mime) = spec_parse_data_uri(str_or(opt_str(file.get("file_data"@)), Seq::empty()));
                    Some(PartV::File { source, mime, name })
                },
            }
        },
        None => None,
    }
}

/// One Chat content part; unknown types become text when they carry text.
pub open spec fn spec_parse_content_part(raw: JsonV) -> Option<PartV> {
    match raw {
        JsonV::Str(s) => Some(PartV::Text { text: s }),
        JsonV::Object(_) => {
            let kind = str_or(opt_str(raw.get("type"@)), Seq::empty());
            if kind == "text"@ || kind == "input_text"@ || kind == "output_text"@ {
                Some(PartV::Text { text: str_or(opt_str(raw.get("text"@)), Seq::empty()) })
            } else if kind == "refusal"@ {
                Some(PartV::Refusal { text: str_or(opt_str(raw.get("refusal"@)), Seq::empty()) })
            } else if kind == "image_url"@ {
                Some(spec_image_part(raw))
            } else if kind == "input_audio"@ {
                spec_audio_part(raw)
            } else if kind == "file"@ {
                spec_file_part(raw)
            } else {
                match opt_str(raw.get("text"@)) {
                    Some(t) => Some(PartV::Text { text: t }),
                    None => None,
                }
            }
        },
        _ => None,
    }
}

pub(crate) fn text_or_empty(v: Option<&str>) -> (res: String)
    ensures
        res@ == str_or(match v {
            Some(s) => Some(s@),
            None => None,
        }, Seq::empty()),
{
    match v {
        Some(s) => owned(s),
        None => String::new(),
    }
}

pub(crate) fn opt_owned(v: Option<&str>) -> (res: Option<String>)
    ensures
        ov(res) == match v {
            Some(s) => Some(s@),
            None => None,
        },
{
    match v {
        Some(s) => Some(owned(s)),
        None => None,
    }
}

fn image_part(raw: &Json) -> (res: ContentPart)
    ensures
        res@ == spec_image_part(raw@),
{
    let img = raw.get("image_url");
    proof {
        reveal_strlit("");
        assert(""@ =~= Seq::<char>::empty());
    }
    let url: &str = match img {
        Some(Json::Str(s)) => s.as_str(),
        Some(v) => match v.get_str("url") {
            Some(u) => u,
            None => "",
        },
        None => "",
    };
    let detail = match img {
        Some(v) => opt_owned(v.get_str("detail")),
        None => None,
    };
    let (source, mime) = MediaSource::parse_data_uri(url);
    ContentPart::Image { source, mime, detail }
}

fn audio_part(raw: &Json) -> (res: Option<ContentPart>)
    ensures
        opt_part_view(res) == spec_audio_part(raw@),
{
    proof {
        reveal_strlit("");
        reveal_strlit("http");
        assert(""@ =~= Seq::<char>::empty());
    }
    match raw.get("input_audio") {
        Some(audio) => {
            let data: &str = match audio.get_str("data") {
                Some(d) => d,
                None => "",
            };
            let format = opt_owned(audio.get_str("format"));
            let (source, _) = MediaSource::parse_data_uri(data);
            let source = match source {
                MediaSource::Url(u) => if starts_with(u.as_str(), "http") {
                    MediaSource::Url(u)
                } else {
                    MediaSource::Base64(u)
                },
                other => other,
            };
            Some(ContentPart::Audio { source, format })
        },
        None => None,
    }
}

fn file_part(raw: &Json) -> (res: Option<ContentPart>)
    ensures
        opt_part_view(res) == spec_file_part(raw@),
{
    proof {
        reveal_strlit("");
        assert(""@ =~= Seq::<char>::empty());
    }
    match raw.get("file") {
        Some(file) => {
            let name = opt_owned(file.get_str("filename"));
            if let Some(id) = file.get_str("file_id") {
                return Some(ContentPart::File { source: MediaSource::FileId(owned(id)), mime: None, name });
            }
            let data: &str = match file.get_str("file_data") {
                Some(d) => d,
                None => "",
            };
            let (source, mime) = MediaSource::parse_data_uri(data);
            Some(ContentPart::File { source, mime, name })
        },
        None => None,
    }
}

/// The model of an optional part.
pub open spec fn opt_part_view(p: Option<ContentPart>) -> Option<PartV> {
    match p {
        Some(p) => Some(p@),
        None => None,
    }
}

fn parse_content_part(raw: &Json) -> (res: Option<ContentPart>)
    ensures
        opt_part_view(res) == spec_parse_content_part(raw@),
{
    match raw {
        Json::Str(s) => return Some(ContentPart::Text { text: owned(s.as_str()) }),
        Json::Object(_) => {},
        _ => return None,
    }
    let kind: &str = match raw.get_str("type") {
        Some(k) => k,
        None => "",
    };
    proof {
        reveal_strlit("");
        assert(""@ =~= Seq::<char>::empty());
    }
    if text_eq(kind, "text") || text_eq(kind, "input_text") || text_eq(kind, "output_text") {
        Some(ContentPart::Text { text: text_or_empty(raw.get_str("text")) })
    } else if text_eq(kind, "refusal") {
        Some(ContentPart::Refusal { text: text_or_empty(raw.get_str("refusal")) })
    } else if text_eq(kind, "image_url") {
        Some(image_part(raw))
    } else if text_eq(kind, "input_audio") {
        audio_part(raw)
    } else if text_eq(kind, "file") {
        file_part(raw)
    } else {
        match raw.get_str("text") {
            Some(t) => Some(ContentPart::Text { text: owned(t) }),
            None => None,
        }
    }
}

/// The parts of a run of raw parts that are understood, in order.
pub open spec fn parsed_parts(items: Seq<JsonV>) -> Seq<PartV>
    decreases items.len(),
{
    if items.len() == 0 {
        Seq::empty()
    } else {
        match spec_parse_content_part(items.last()) {
            Some(p) => parsed_parts(items.drop_last()).push(p),
            None => parsed_parts(items.drop_last()),
        }
    }
}

/// A `content` field: absent or null, a text, or an array of parts.
pub open spec fn spec_parse_content(value: Option<JsonV>) -> Seq<PartV> {
    match value {
        Some(JsonV::Str(s)) => if s.len() == 0 { Seq::empty() } else { seq![PartV::Text { text: s }] },
        Some(JsonV::Array(items)) => parsed_parts(items),
        _ => Seq::empty(),
    }
}

fn parse_content(value: Option<&Json>) -> (res: Vec<ContentPart>)
    ensures
        pv(res) == spec_parse_content(opt_view(value)),
{
    let mut out: Vec<ContentPart> = Vec::new();
    proof {
        lemma_parts_view(out@);
    }
    match value {
        Some(Json::Str(s)) => {
            if s.as_str().unicode_len() > 0 {
                let p = ContentPart::Text { text: owned(s.as_str()) };
                proof {
                    lemma_parts_view_push(out@, p);
                }
                out.push(p);
            }
        },
        Some(Json::Array(items)) => {
            proof {
                lemma_items_view(items@);
            }
            let mut i: usize = 0;
            while i < items.len()
                invariant
                    i <= items.len(),
                    items_view(items@).len() == items.len(),
                    forall|k: int| 0 <= k < items.len() ==> #[trigger] items_view(items@)[k] == items@[k]@,
                    pv(out) == parsed_parts(items_view(items@).subrange(0, i as int)),
                decreases items.len() - i,
            {
                assert(items_view(items@).subrange(0, i + 1).drop_last() =~= items_view(items@).subrange(0, i as int));
                if let Some(p) = parse_content_part(&items[i]) {
                    proof {
                        lemma_parts_view_push(out@, p);
                    }
                    out.push(p);
                }
                i = i + 1;
            }
            assert(items_view(items@).subrange(0, items.len() as int) =~= items_view(items@));
        },
        _ => {},
    }
    out
}

/// The tool-call parts of `tool_calls[]`; arguments that are not JSON are kept as text.
pub open spec fn spec_tool_call_part(call: JsonV) -> PartV {
    let function = call.get("function"@);
    PartV::ToolUse {
        id: str_or(opt_str(call.get("id"@)), Seq::empty()),
        name: str_or(opt_str(opt_get(function, "name"@)), Seq::empty()),
        input: match opt_get(function, "arguments"@) {
            Some(JsonV::Str(s)) => tool_input(s),
            Some(other) => other,
            None => JsonV::Object(Seq::empty()),
        },
        signature: None,
    }
}

pub open spec fn spec_tool_call_parts(calls: Seq<JsonV>) -> Seq<PartV>
    decreases calls.len(),
{
    if calls.len() == 0 {
        Seq::empty()
    } else {
        spec_tool_call_parts(calls.drop_last()).push(spec_tool_call_part(calls.last()))
    }
}

fn tool_call_part(call: &Json) -> (res: ContentPart)
    ensures
        res@ == spec_tool_call_part(call@),
{
    let id = text_or_empty(call.get_str("id"));
    let function = call.get("function");
    let name = match function {
        Some(f) => text_or_empty(f.get_str("name")),
        None => String::new(),
    };
    let args = match function {
        Some(f) => f.get("arguments"),
        None => None,
    };
    let input = match args {
        Some(Json::Str(s)) => {
            if trim(s.as_str()).unicode_len() == 0 {
                Json::empty_object()
            } else {
                match Json::parse(s.as_str()) {
                    Some(j) => j,
                    None => Json::string(s.as_str()),
                }
            }
        },
        Some(other) => other.duplicate(),
        None => Json::empty_object(),
    };
    ContentPart::ToolUse { id, name, input, signature: None }
}

fn parse_tool_calls(calls: &Vec<Json>, out: &mut Vec<ContentPart>)
    ensures
        pv(*final(out)) == pv(*old(out)) + spec_tool_call_parts(items_view(calls@)),
{
    proof {
        lemma_items_view(calls@);
    }
    let ghost cs = items_view(calls@);
    let mut i: usize = 0;
    assert(pv(*out) =~= pv(*old(out)) + spec_tool_call_parts(cs.subrange(0, 0)));
    while i < calls.len()
        invariant
            i <= calls.len(),
            cs.len() == calls.len(),
            forall|k: int| 0 <= k < calls.len() ==> #[trigger] cs[k] == calls@[k]@,
            pv(*out) == pv(*old(out)) + spec_tool_call_parts(cs.subrange(0, i as int)),
        decreases calls.len() - i,
    {
        assert(cs.subrange(0, i + 1).drop_last() =~= cs.subrange(0, i as int));
        let p = tool_call_part(&calls[i]);
        proof {
            lemma_parts_view_push(out@, p);
        }
        out.push(p);
        i = i + 1;
    }
    assert(cs.subrange(0, calls.len() as int) =~= cs);
}

/// The reasoning part that a `dropped_thinking` record restores.
pub open spec fn dropped_part(item: JsonV) -> PartV {
    match opt_str(item.get("redacted"@)) {
        Some(data) => PartV::RedactedThinking { data },
        None => PartV::Thinking {
            text: str_or(opt_str(item.get("text"@)), Seq::empty()),
            signature: opt_str(item.get("signature"@)),
        },
    }
}

/// Inserts the restored parts at their recorded positions (clamped to the end), in record order.
pub open spec fn restore_dropped(items: Seq<JsonV>, out: Seq<PartV>) -> Seq<PartV>
    decreases items.len(),
{
    if items.len() == 0 {
        out
    } else {
        let prev = restore_dropped(items.drop_last(), out);
        let item = items.last();
        let raw_pos = (match opt_u64(item.get("position"@)) { Some(n) => n, None => 0u64 }) as usize as int;
        let pos = if raw_pos < prev.len() { raw_pos } else { prev.len() as int };
        prev.insert(pos, dropped_part(item))
    }
}

fn dropped_part_exec(item: &Json) -> (res: ContentPart)
    ensures
        res@ == dropped_part(item@),
{
    match item.get_str("redacted") {
        Some(data) => ContentPart::RedactedThinking { data: owned(data) },
        None => ContentPart::Thinking { text: text_or_empty(item.get_str("text")), signature: opt_owned(item.get_str("signature")) },
    }
}

fn restore_dropped_parts(items: &Vec<&Json>, out: &mut Vec<ContentPart>)
    ensures
        pv(*final(out)) == restore_dropped(items@.map_values(|j: &Json| j@), pv(*old(out))),
{
    let ghost its = items@.map_values(|j: &Json| j@);
    let mut i: usize = 0;
    assert(its.subrange(0, 0).len() == 0);
    while i < items.len()
        invariant
            i <= items.len(),
            its == items@.map_values(|j: &Json| j@),
            pv(*out) == restore_dropped(its.subrange(0, i as int), pv(*old(out))),
        decreases items.len() - i,
    {
        assert(its.subrange(0, i + 1).drop_last() =~= its.subrange(0, i as int));
        let item = items[i];
        let part = dropped_part_exec(item);
        let raw_pos: u64 = match item.get_u64("position") {
            Some(n) => n,
            None => 0,
        };
        let raw = raw_pos as usize;
        proof {
            lemma_parts_view(out@);
        }
        let pos = if raw < out.len() { raw } else { out.len() };
        let ghost before = out@;
        let ghost pvv = part@;
        out.insert(pos, part);
        proof {
            lemma_parts_view(out@);
            lemma_parts_view(before);
            assert(pv(*out) =~= parts_view_of(before).insert(pos as int, pvv));
        }
        i = i + 1;
    }
    assert(its.subrange(0, items.len() as int) =~= its);
}

pub open spec fn parts_view_of(s: Seq<ContentPart>) -> Seq<PartV> {
    crate::ir::parts_view(s)
}

/// The `dropped_thinking` records aimed at wire message `wire_index`.
pub open spec fn dropped_for(items: Option<Seq<JsonV>>, wire_index: int) -> Seq<JsonV> {
    match items {
        Some(a) => a.filter(|it: JsonV| opt_u64(it.get("message"@)) == Some(wire_index as u64)),
        None => Seq::empty(),
    }
}

fn dropped_for_exec<'a>(items: Option<&'a Vec<Json>>, wire_index: usize) -> (res: Vec<&'a Json>)
    ensures
        res@.map_values(|j: &Json| j@) == dropped_for(match items {
            Some(a) => Some(items_view(a@)),
            None => None,
        }, wire_index as int),
{
    let mut out: Vec<&Json> = Vec::new();
    match items {
        Some(a) => {
            proof {
                lemma_items_view(a@);
            }
            let ghost its = items_view(a@);
            let ghost pred = |it: JsonV| opt_u64(it.get("message"@)) == Some(wire_index as u64);
            let mut i: usize = 0;
            assert(out@.map_values(|j: &Json| j@) =~= its.subrange(0, 0).filter(pred));
            while i < a.len()
                invariant
                    i <= a.len(),
                    its.len() == a.len(),
                    forall|k: int| 0 <= k < a.len() ==> #[trigger] its[k] == a@[k]@,
                    pred == (|it: JsonV| opt_u64(it.get("message"@)) == Some(wire_index as u64)),
                    out@.map_values(|j: &Json| j@) == its.subrange(0, i as int).filter(pred),
                decreases a.len() - i,
            {
                proof {
                    reveal_with_fuel(Seq::<JsonV>::filter, 1);
                    assert(its.subrange(0, i + 1).drop_last() =~= its.subrange(0, i as int));
                }
                let ghost o = out@;
                if a[i].get_u64("message") == Some(wire_index as u64) {
                    out.push(&a[i]);
                    assert(out@.map_values(|j: &Json| j@) =~= o.map_values(|j: &Json| j@).push(a@[i as int]@));
                } else {
                    assert(out@.map_values(|j: &Json| j@) =~= o.map_values(|j: &Json| j@));
                }
                i = i + 1;
            }
            assert(its.subrange(0, a.len() as int) =~= its);
        },
        None => {
            assert(out@.map_values(|j: &Json| j@) =~= Seq::<JsonV>::empty());
        },
    }
    out
}


/// The text of the error for a wire message without a role.
pub open spec fn missing_role_text(i: nat) -> Seq<char> {
    "messages["@ + decimal(i) + "] is missing `role`"@
}

/// The text of the error for a tool message without a call id.
pub open spec fn missing_call_id_text(i: nat) -> Seq<char> {
    "messages["@ + decimal(i) + "] with role `tool` is missing `tool_call_id`"@
}

/// The text of the error for a wire message with a role Chat does not have.
pub open spec fn bad_role_text(i: nat, role: Seq<char>) -> Seq<char> {
    "messages["@ + decimal(i) + "] has unsupported role `"@ + role + "`"@
}

/// What one wire message contributes to the request.
pub enum WireMsgV {
    System(Seq<PartV>),
    Push(MessageV),
}

/// The `tool_calls[]` of an assistant message, as parts.
pub open spec fn calls_of(m: JsonV) -> Seq<PartV> {
    match m.get("tool_calls"@) {
        Some(JsonV::Array(a)) => spec_tool_call_parts(a),
        _ => Seq::empty(),
    }
}

/// The parts of an assistant message, before restoring dropped reasoning.
pub open spec fn assistant_base_parts(m: JsonV, restored_any: bool) -> Seq<PartV> {
    let reasoning = match non_empty(opt_str(m.get("reasoning_content"@))) {
        Some(t) => if !restored_any {
            seq![PartV::Thinking { text: t, signature: opt_str(m.get("reasoning_signature"@)) }]
        } else {
            Seq::empty()
        },
        None => Seq::empty(),
    };
    let refusal = match non_empty(opt_str(m.get("refusal"@))) {
        Some(r) => seq![PartV::Refusal { text: r }],
        None => Seq::empty(),
    };
    reasoning + spec_parse_content(m.get("content"@)) + refusal + calls_of(m)
}

/// The parts of an assistant message: its reasoning (unless records restore it), content,
/// refusal and tool calls, then the restored reasoning at its recorded positions.
pub open spec fn spec_assistant_parts(m: JsonV, restored: Seq<JsonV>) -> Seq<PartV> {
    restore_dropped(restored, assistant_base_parts(m, restored.len() > 0))
}

/// What wire message `i` contributes, or the error it raises.
pub open spec fn spec_chat_message(m: JsonV, i: nat, dropped: Option<Seq<JsonV>>) -> Result<WireMsgV, Seq<char>> {
    match opt_str(m.get("role"@)) {
        None => Err(missing_role_text(i)),
        Some(role) => {
            let name = opt_str(m.get("name"@));
            if role == "system"@ || role == "developer"@ {
                Ok(WireMsgV::System(spec_parse_content(m.get("content"@))))
            } else if role == "user"@ {
                Ok(WireMsgV::Push(MessageV { role: Role::User, content: spec_parse_content(m.get("content"@)), name }))
            } else if role == "assistant"@ {
                Ok(WireMsgV::Push(MessageV {
                    role: Role::Assistant,
                    content: spec_assistant_parts(m, dropped_for(dropped, i as int)),
                    name,
                }))
            } else if role == "tool"@ {
                match non_empty(opt_str(m.get("tool_call_id"@))) {
                    None => Err(missing_call_id_text(i)),
                    Some(id) => Ok(WireMsgV::Push(MessageV {
                        role: Role::Tool,
                        content: seq![PartV::ToolResult { id, name: None, content: spec_parse_content(m.get("content"@)), is_error: false }],
                        name: None,
                    })),
                }
            } else {
                Err(bad_role_text(i, role))
            }
        },
    }
}

/// The system parts and messages of a run of wire messages, or the first error.
pub open spec fn chat_messages(items: Seq<JsonV>, dropped: Option<Seq<JsonV>>) -> Result<(Seq<PartV>, Seq<MessageV>), Seq<char>>
    decreases items.len(),
{
    if items.len() == 0 {
        Ok((Seq::empty(), Seq::empty()))
    } else {
        match chat_messages(items.drop_last(), dropped) {
            Err(e) => Err(e),
            Ok((sys, ms)) => match spec_chat_message(items.last(), (items.len() - 1) as nat, dropped) {
                Err(e) => Err(e),
                Ok(WireMsgV::System(p)) => Ok((sys + p, ms)),
                Ok(WireMsgV::Push(m)) => Ok((sys, ms.push(m))),
            },
        }
    }
}

/// Once a prefix of the wire messages fails, the whole run fails the same way.
proof fn lemma_chat_messages_err(items: Seq<JsonV>, dropped: Option<Seq<JsonV>>, i: int)
    requires
        0 <= i <= items.len(),
        chat_messages(items.subrange(0, i), dropped) is Err,
    ensures
        chat_messages(items, dropped) == chat_messages(items.subrange(0, i), dropped),
    decreases items.len() - i,
{
    if i == items.len() {
        assert(items.subrange(0, i) =~= items);
    } else {
        assert(items.drop_last().subrange(0, i) =~= items.subrange(0, i));
        lemma_chat_messages_err(items.drop_last(), dropped, i);
    }
}

/// Exec form of what one wire message contributes.
enum WireMsg {
    System(Vec<ContentPart>),
    Push(Message),
}

spec fn wire_view(w: WireMsg) -> WireMsgV {
    match w {
        WireMsg::System(p) => WireMsgV::System(pv(p)),
        WireMsg::Push(m) => WireMsgV::Push(m@),
    }
}

/// `messages[` + `i` + `tail`.
fn message_error(i: usize, tail: &str) -> (res: String)
    ensures
        res@ == "messages["@ + decimal(i as nat) + tail@,
{
    let head = concat("messages[", decimal_text(i as u64).as_str());
    concat(head.as_str(), tail)
}

pub(crate) fn append_parts(out: &mut Vec<ContentPart>, more: Vec<ContentPart>)
    ensures
        pv(*final(out)) == pv(*old(out)) + pv(more),
{
    let mut more = more;
    let ghost m0 = more@;
    out.append(&mut more);
    proof {
        crate::ir::lemma_parts_view_append(old(out)@, m0);
    }
}

fn assistant_parts(m: &Json, restored: &Vec<&Json>) -> (res: Vec<ContentPart>)
    ensures
        pv(res) == spec_assistant_parts(m@, restored@.map_values(|j: &Json| j@)),
{
    let ghost rs = restored@.map_values(|j: &Json| j@);
    let mut parts: Vec<ContentPart> = Vec::new();
    proof {
        lemma_parts_view(parts@);
    }
    if let Some(t) = m.get_str("reasoning_content") {
        if t.unicode_len() > 0 && restored.len() == 0 {
            let p = ContentPart::Thinking { text: owned(t), signature: opt_owned(m.get_str("reasoning_signature")) };
            proof {
                lemma_parts_view_push(parts@, p);
            }
            parts.push(p);
        }
    }
    let ghost reasoning = pv(parts);
    append_parts(&mut parts, parse_content(m.get("content")));
    let ghost with_content = pv(parts);
    let ghost before_refusal = parts@;
    if let Some(r) = m.get_str("refusal") {
        if r.unicode_len() > 0 {
            let p = ContentPart::Refusal { text: owned(r) };
            proof {
                lemma_parts_view_push(parts@, p);
            }
            parts.push(p);
        }
    }
    let ghost with_refusal = pv(parts);
    match m.get("tool_calls") {
        Some(calls) => match calls.as_array() {
            Some(a) => parse_tool_calls(a, &mut parts),
            None => {
                assert(pv(parts) =~= pv(parts) + Seq::<PartV>::empty());
            },
        },
        None => {
            assert(pv(parts) =~= pv(parts) + Seq::<PartV>::empty());
        },
    }
    proof {
        assert(rs.len() == restored.len());
        assert(pv(parts) =~= assistant_base_parts(m@, rs.len() > 0));
    }
    restore_dropped_parts(restored, &mut parts);
    parts
}

fn decode_message(m: &Json, i: usize, dropped: Option<&Vec<Json>>) -> (res: Result<WireMsg, String>)
    ensures
        match res {
            Ok(w) => spec_chat_message(m@, i as nat, match dropped {
                Some(a) => Some(items_view(a@)),
                None => None,
            }) == Ok::<WireMsgV, Seq<char>>(wire_view(w)),
            Err(e) => spec_chat_message(m@, i as nat, match dropped {
                Some(a) => Some(items_view(a@)),
                None => None,
            }) == Err::<WireMsgV, Seq<char>>(e@),
        },
{
    proof {
        reveal_strlit("] is missing `role`");
        reveal_strlit("] with role `tool` is missing `tool_call_id`");
        reveal_strlit("] has unsupported role `");
        reveal_strlit("`");
    }
    let role = match m.get_str("role") {
        Some(r) => r,
        None => return Err(message_error(i, "] is missing `role`")),
    };
    let name = opt_owned(m.get_str("name"));
    if text_eq(role, "system") || text_eq(role, "developer") {
        Ok(WireMsg::System(parse_content(m.get("content"))))
    } else if text_eq(role, "user") {
        Ok(WireMsg::Push(Message { role: Role::User, content: parse_content(m.get("content")), name }))
    } else if text_eq(role, "assistant") {
        let restored = dropped_for_exec(dropped, i);
        let parts = assistant_parts(m, &restored);
        Ok(WireMsg::Push(Message { role: Role::Assistant, content: parts, name }))
    } else if text_eq(role, "tool") {
        let id = match m.get_str("tool_call_id") {
            Some(id) => if id.unicode_len() > 0 {
                owned(id)
            } else {
                return Err(message_error(i, "] with role `tool` is missing `tool_call_id`"));
            },
            None => return Err(message_error(i, "] with role `tool` is missing `tool_call_id`")),
        };
        let content = parse_content(m.get("content"));
        let part = ContentPart::ToolResult { id, name: None, content, is_error: false };
        let mut parts: Vec<ContentPart> = Vec::new();
        proof {
            lemma_parts_view(parts@);
            lemma_parts_view_push(parts@, part);
        }
        parts.push(part);
        proof {
            assert(pv(parts) =~= seq![part@]);
        }
        Ok(WireMsg::Push(Message { role: Role::Tool, content: parts, name: None }))
    } else {
        let with_role = concat(message_error(i, "] has unsupported role `").as_str(), role);
        Err(concat(with_role.as_str(), "`"))
    }
}

/// `response_format` in IR terms; unknown types are dropped.
pub open spec fn spec_parse_response_format(raw: JsonV) -> Option<FormatV> {
    match opt_str(raw.get("type"@)) {
        Some(k) => if k == "text"@ {
            Some(FormatV::Text)
        } else if k == "json_object"@ {
            Some(FormatV::JsonObject)
        } else if k == "json_schema"@ {
            match raw.get("json_schema"@) {
                Some(schema) => Some(FormatV::JsonSchema {
                    name: str_or(opt_str(schema.get("name"@)), "response"@),
                    schema: match schema.get("schema"@) {
                        Some(v) => v,
                        None => JsonV::Object(Seq::empty()),
                    },
                    strict: match opt_bool(schema.get("strict"@)) {
                        Some(b) => b,
                        None => false,
                    },
                }),
                None => None,
            }
        } else {
            None
        },
        None => None,
    }
}

fn parse_response_format(raw: &Json) -> (res: Option<ResponseFormat>)
    ensures
        match res {
            Some(f) => spec_parse_response_format(raw@) == Some(f@),
            None => spec_parse_response_format(raw@) is None,
        },
{
    let kind = match raw.get_str("type") {
        Some(k) => k,
        None => return None,
    };
    if text_eq(kind, "text") {
        Some(ResponseFormat::Text)
    } else if text_eq(kind, "json_object") {
        Some(ResponseFormat::JsonObject)
    } else if text_eq(kind, "json_schema") {
        match raw.get("json_schema") {
            Some(schema) => {
                let name = match schema.get_str("name") {
                    Some(n) => owned(n),
                    None => owned("response"),
                };
                let body = match schema.get("schema") {
                    Some(v) => v.duplicate(),
                    None => Json::empty_object(),
                };
                let strict = match schema.get_bool("strict") {
                    Some(b) => b,
                    None => false,
                };
                Some(ResponseFormat::JsonSchema { name, schema: body, strict })
            },
            None => None,
        }
    } else {
        None
    }
}

/// Parameters of a function tool that declares none.
pub open spec fn default_parameters() -> JsonV {
    JsonV::Object(seq![("type"@, JsonV::Str("object"@)), ("properties"@, JsonV::Object(Seq::empty()))])
}

pub(crate) fn default_parameters_exec() -> (res: Json)
    ensures
        res@ == default_parameters(),
{
    let mut members: Vec<(String, Json)> = Vec::new();
    proof {
        crate::json::lemma_members_view(members@);
    }
    push_member(&mut members, "type", Json::string("object"));
    push_member(&mut members, "properties", Json::empty_object());
    proof {
        reveal_strlit("type");
        reveal_strlit("object");
        reveal_strlit("properties");
        assert(members_view(members@) =~= seq![("type"@, JsonV::Str("object"@)), ("properties"@, JsonV::Object(Seq::empty()))]);
    }
    Json::object(members)
}

/// Function tools are declared; other tools are kept as they came.
pub open spec fn tool_step(acc: (Seq<ToolV>, Seq<JsonV>), t: JsonV) -> (Seq<ToolV>, Seq<JsonV>) {
    match t.get("function"@) {
        None => (acc.0, acc.1.push(t)),
        Some(f) => match opt_str(f.get("name"@)) {
            None => acc,
            Some(name) => (acc.0.push(ToolV {
                name,
                description: opt_str(f.get("description"@)),
                parameters: match f.get("parameters"@) {
                    Some(p) => p,
                    None => default_parameters(),
                },
                strict: opt_bool(f.get("strict"@)),
            }), acc.1),
        },
    }
}

/// The function tools and the other tools of `tools[]`, each in order.
pub open spec fn tools_fold(ts: Seq<JsonV>) -> (Seq<ToolV>, Seq<JsonV>)
    decreases ts.len(),
{
    if ts.len() == 0 {
        (Seq::empty(), Seq::empty())
    } else {
        tool_step(tools_fold(ts.drop_last()), ts.last())
    }
}

fn decode_tools(ts: &Vec<Json>) -> (res: (Vec<ToolDef>, Vec<Json>))
    ensures
        (tls(res.0@), items_view(res.1@)) == tools_fold(items_view(ts@)),
{
    proof {
        lemma_items_view(ts@);
    }
    let ghost its = items_view(ts@);
    let mut tools: Vec<ToolDef> = Vec::new();
    let mut builtins: Vec<Json> = Vec::new();
    let mut i: usize = 0;
    proof {
        lemma_items_view(builtins@);
        assert(tls(tools@) =~= Seq::<ToolV>::empty());
        assert(items_view(builtins@) =~= Seq::<JsonV>::empty());
    }
    while i < ts.len()
        invariant
            i <= ts.len(),
            its.len() == ts.len(),
            forall|k: int| 0 <= k < ts.len() ==> #[trigger] its[k] == ts@[k]@,
            (tls(tools@), items_view(builtins@)) == tools_fold(its.subrange(0, i as int)),
        decreases ts.len() - i,
    {
        assert(its.subrange(0, i + 1).drop_last() =~= its.subrange(0, i as int));
        let t = &ts[i];
        match t.get("function") {
            None => {
                let ghost b0 = builtins@;
                builtins.push(t.duplicate());
                proof {
                    assert(builtins@.drop_last() =~= b0);
                }
            },
            Some(f) => match f.get_str("name") {
                None => {},
                Some(name) => {
                    let parameters = match f.get("parameters") {
                        Some(p) => p.duplicate(),
                        None => default_parameters_exec(),
                    };
                    let tool = ToolDef {
                        name: owned(name),
                        description: opt_owned(f.get_str("description")),
                        parameters,
                        strict: f.get_bool("strict"),
                    };
                    let ghost t0 = tools@;
                    tools.push(tool);
                    proof {
                        assert(tls(tools@) =~= tls(t0).push(tool@));
                    }
                },
            },
        }
        i = i + 1;
    }
    assert(its.subrange(0, ts.len() as int) =~= its);
    (tools, builtins)
}

/// `tool_choice` in IR terms (`any` is accepted for `required`).
pub open spec fn spec_chat_tool_choice(v: Option<JsonV>) -> ChoiceV {
    match v {
        None => ChoiceV::Unspecified,
        Some(JsonV::Null) => ChoiceV::Unspecified,
        Some(JsonV::Str(s)) => if s == "none"@ {
            ChoiceV::NoTool
        } else if s == "auto"@ {
            ChoiceV::Auto
        } else if s == "required"@ || s == "any"@ {
            ChoiceV::Required
        } else {
            ChoiceV::Unspecified
        },
        Some(other) => match opt_str(opt_get(other.get("function"@), "name"@)) {
            Some(n) => ChoiceV::Tool(n),
            None => ChoiceV::Unspecified,
        },
    }
}

fn chat_tool_choice(v: Option<&Json>) -> (res: ToolChoice)
    ensures
        res@ == spec_chat_tool_choice(opt_view(v)),
{
    match v {
        None => ToolChoice::Unspecified,
        Some(Json::Null) => ToolChoice::Unspecified,
        Some(Json::Str(s)) => {
            let s = s.as_str();
            if text_eq(s, "none") {
                ToolChoice::NoTool
            } else if text_eq(s, "auto") {
                ToolChoice::Auto
            } else if text_eq(s, "required") || text_eq(s, "any") {
                ToolChoice::Required
            } else {
                ToolChoice::Unspecified
            }
        },
        Some(other) => {
            let name = match other.get("function") {
                Some(f) => f.get_str("name"),
                None => None,
            };
            match name {
                Some(n) => ToolChoice::Tool(owned(n)),
                None => ToolChoice::Unspecified,
            }
        },
    }
}

/// The top-level request fields the IR models; the rest are kept as extensions.
pub open spec fn chat_known_request_field(k: Seq<char>) -> bool {
    ||| k == "model"@
    ||| k == "messages"@
    ||| k == "stream"@
    ||| k == "stream_options"@
    ||| k == "max_tokens"@
    ||| k == "max_completion_tokens"@
    ||| k == "temperature"@
    ||| k == "top_p"@
    ||| k == "frequency_penalty"@
    ||| k == "presence_penalty"@
    ||| k == "seed"@
    ||| k == "n"@
    ||| k == "stop"@
    ||| k == "reasoning_effort"@
    ||| k == "response_format"@
    ||| k == "tools"@
    ||| k == "tool_choice"@
    ||| k == "parallel_tool_calls"@
    ||| k == "user"@
    ||| k == "dropped_thinking"@
}

fn is_known_request_field(k: &str) -> (res: bool)
    ensures
        res == chat_known_request_field(k@),
{
    text_eq(k, "model") || text_eq(k, "messages") || text_eq(k, "stream") || text_eq(k, "stream_options")
        || text_eq(k, "max_tokens") || text_eq(k, "max_completion_tokens") || text_eq(k, "temperature")
        || text_eq(k, "top_p") || text_eq(k, "frequency_penalty") || text_eq(k, "presence_penalty")
        || text_eq(k, "seed") || text_eq(k, "n") || text_eq(k, "stop") || text_eq(k, "reasoning_effort")
        || text_eq(k, "response_format") || text_eq(k, "tools") || text_eq(k, "tool_choice")
        || text_eq(k, "parallel_tool_calls") || text_eq(k, "user") || text_eq(k, "dropped_thinking")
}

/// Stores every member whose key `known` rejects under `prefix` + key, in order.
pub open spec fn collect_unknown(
    members: Seq<(Seq<char>, JsonV)>,
    known: spec_fn(Seq<char>) -> bool,
    prefix: Seq<char>,
    ext: Seq<(Seq<char>, JsonV)>,
) -> Seq<(Seq<char>, JsonV)>
    decreases members.len(),
{
    if members.len() == 0 {
        ext
    } else {
        let prev = collect_unknown(members.drop_last(), known, prefix, ext);
        let (k, v) = members.last();
        if known(k) {
            prev
        } else {
            ext_insert(prev, prefix + k, v)
        }
    }
}

/// The value of the last member named `key`, if any.
pub open spec fn member_last(members: Seq<(Seq<char>, JsonV)>, key: Seq<char>) -> Option<JsonV>
    decreases members.len(),
{
    if members.len() == 0 {
        None
    } else if members.last().0 == key {
        Some(members.last().1)
    } else {
        member_last(members.drop_last(), key)
    }
}

/// Whether no two members share a name.
pub open spec fn keys_unique(m: Seq<(Seq<char>, JsonV)>) -> bool {
    forall|i: int, j: int| 0 <= i < j < m.len() ==> m[i].0 != m[j].0
}

proof fn lemma_member_get_absent(m: Seq<(Seq<char>, JsonV)>, key: Seq<char>)
    requires
        forall|i: int| 0 <= i < m.len() ==> m[i].0 != key,
    ensures
        member_get(m, key) is None,
    decreases m.len(),
{
    if m.len() > 0 {
        assert forall|i: int| 0 <= i < m.drop_first().len() implies m.drop_first()[i].0 != key by {
            assert(m.drop_first()[i] == m[i + 1]);
        }
        lemma_member_get_absent(m.drop_first(), key);
    }
}

/// With unique names, the last member of a name is its only one.
pub proof fn lemma_unique_last_is_first(m: Seq<(Seq<char>, JsonV)>, key: Seq<char>)
    requires
        keys_unique(m),
    ensures
        member_last(m, key) == member_get(m, key),
    decreases m.len(),
{
    if m.len() > 0 {
        let init = m.drop_last();
        let x = m.last();
        assert(m =~= init.push(x));
        lemma_member_get_append(init, x, key);
        assert(keys_unique(init));
        if x.0 == key {
            assert forall|i: int| 0 <= i < init.len() implies init[i].0 != key by {
                assert(m[i].0 != m[m.len() - 1].0);
            }
            lemma_member_get_absent(init, key);
        } else {
            lemma_unique_last_is_first(init, key);
        }
    }
}

/// Storing under a name keeps names unique.
pub proof fn lemma_ext_insert_unique(m: Seq<(Seq<char>, JsonV)>, key: Seq<char>, v: JsonV)
    requires
        keys_unique(m),
    ensures
        keys_unique(ext_insert(m, key, v)),
{
    lemma_member_index(m, key);
    if crate::ir::member_index(m, key) is None {
        crate::ir::lemma_name_pos(m, key);
        let p = crate::ir::name_pos(m, key);
        let r = m.insert(p, (key, v));
        m.insert_ensures(p, (key, v));
        assert forall|i: int, j: int| 0 <= i < j < r.len() implies r[i].0 != r[j].0 by {
            let a = if i < p { m[i] } else if i == p { (key, v) } else { m[i - 1] };
            let b = if j < p { m[j] } else if j == p { (key, v) } else { m[j - 1] };
            if i < p { assert(r[i] == m[i]); } else if i > p { assert(r[(i - 1) + 1] == m[i - 1]); }
            if j < p { assert(r[j] == m[j]); } else if j > p { assert(r[(j - 1) + 1] == m[j - 1]); }
            assert(r[i] == a && r[j] == b);
        }
    }
}

/// Collecting unknown fields keeps names unique.
pub proof fn lemma_collect_unknown_unique(
    members: Seq<(Seq<char>, JsonV)>,
    known: spec_fn(Seq<char>) -> bool,
    prefix: Seq<char>,
    ext: Seq<(Seq<char>, JsonV)>,
)
    requires
        keys_unique(ext),
    ensures
        keys_unique(collect_unknown(members, known, prefix, ext)),
    decreases members.len(),
{
    if members.len() > 0 {
        lemma_collect_unknown_unique(members.drop_last(), known, prefix, ext);
        let (k, v) = members.last();
        if !known(k) {
            lemma_ext_insert_unique(collect_unknown(members.drop_last(), known, prefix, ext), prefix + k, v);
        }
    }
}

/// A field that a codec does not read lands in the extensions under its name with the
/// protocol prefix, holding the last value the body gave it, whatever the extensions held before.
pub proof fn law_unknown_field_kept(
    members: Seq<(Seq<char>, JsonV)>,
    known: spec_fn(Seq<char>) -> bool,
    prefix: Seq<char>,
    ext: Seq<(Seq<char>, JsonV)>,
    k: Seq<char>,
)
    requires
        !known(k),
        member_last(members, k) is Some,
    ensures
        member_get(collect_unknown(members, known, prefix, ext), prefix + k) == member_last(members, k),
    decreases members.len(),
{
    let prev = collect_unknown(members.drop_last(), known, prefix, ext);
    let (j, v) = members.last();
    if j == k {
        lemma_ext_insert(prev, prefix + k, v);
    } else {
        law_unknown_field_kept(members.drop_last(), known, prefix, ext, k);
        if !known(j) {
            assert((prefix + j).subrange(prefix.len() as int, (prefix + j).len() as int) =~= j);
            assert((prefix + k).subrange(prefix.len() as int, (prefix + k).len() as int) =~= k);
            assert(prefix + j != prefix + k);
            lemma_ext_insert(prev, prefix + j, v);
        }
    }
}

fn collect_unknown_request(members: &Vec<(String, Json)>, ext: &mut Extensions)
    ensures
        final(ext)@ == collect_unknown(members_view(members@), |k: Seq<char>| chat_known_request_field(k), "chat."@, old(ext)@),
{
    proof {
        crate::json::lemma_members_view(members@);
    }
    let ghost ms = members_view(members@);
    let ghost known = |k: Seq<char>| chat_known_request_field(k);
    let mut i: usize = 0;
    while i < members.len()
        invariant
            i <= members.len(),
            ms.len() == members.len(),
            forall|k: int| 0 <= k < members.len() ==> #[trigger] ms[k] == (members@[k].0@, members@[k].1@),
            known == (|k: Seq<char>| chat_known_request_field(k)),
            ext@ == collect_unknown(ms.subrange(0, i as int), known, "chat."@, old(ext)@),
        decreases members.len() - i,
    {
        assert(ms.subrange(0, i + 1).drop_last() =~= ms.subrange(0, i as int));
        let (k, v) = &members[i];
        if !is_known_request_field(k.as_str()) {
            ext.insert(concat("chat.", k.as_str()), v.duplicate());
        }
        i = i + 1;
    }
    assert(ms.subrange(0, members.len() as int) =~= ms);
}

/// The extensions a decoded request starts from: the non-function tools, if any.
pub open spec fn builtin_ext(builtins: Seq<JsonV>) -> Seq<(Seq<char>, JsonV)> {
    if builtins.len() > 0 {
        ext_insert(Seq::empty(), "chat.builtin_tools"@, JsonV::Array(builtins))
    } else {
        Seq::empty()
    }
}

/// The request a Chat Completions body decodes to, or the text of the error it is refused with.
pub open spec fn spec_chat_decode_request(raw: JsonV) -> Result<RequestV, Seq<char>> {
    match raw {
        JsonV::Object(members) => match non_empty(opt_str(raw.get("model"@))) {
            None => Err("missing required field `model`"@),
            Some(model) => match raw.get("messages"@) {
                Some(JsonV::Array(items)) => {
                    let dropped = match raw.get("dropped_thinking"@) {
                        Some(d) => d.as_array(),
                        None => None,
                    };
                    match chat_messages(items, dropped) {
                        Err(e) => Err(e),
                        Ok((system, messages)) => {
                            let (tools, builtins) = match raw.get("tools"@) {
                                Some(JsonV::Array(ts)) => tools_fold(ts),
                                _ => (Seq::empty(), Seq::empty()),
                            };
                            Ok(RequestV {
                                model,
                                system,
                                messages,
                                tools,
                                tool_choice: spec_chat_tool_choice(raw.get("tool_choice"@)),
                                parallel_tool_calls: opt_bool(raw.get("parallel_tool_calls"@)),
                                sampling: SamplingV {
                                    temperature: spec_as_number(raw.get("temperature"@)),
                                    top_p: spec_as_number(raw.get("top_p"@)),
                                    top_k: None,
                                    frequency_penalty: spec_as_number(raw.get("frequency_penalty"@)),
                                    presence_penalty: spec_as_number(raw.get("presence_penalty"@)),
                                    stop: spec_parse_stop(raw.get("stop"@)),
                                    seed: spec_as_i64(raw.get("seed"@)),
                                    candidate_count: spec_as_u32(raw.get("n"@)),
                                },
                                max_output_tokens: match spec_as_u32(raw.get("max_completion_tokens"@)) {
                                    Some(n) => Some(n),
                                    None => spec_as_u32(raw.get("max_tokens"@)),
                                },
                                stream: match opt_bool(raw.get("stream"@)) {
                                    Some(b) => b,
                                    None => false,
                                },
                                stream_include_usage: match opt_bool(opt_get(raw.get("stream_options"@), "include_usage"@)) {
                                    Some(b) => b,
                                    None => false,
                                },
                                reasoning: match opt_str(raw.get("reasoning_effort"@)) {
                                    Some(e) => Some(ReasoningV { effort: Some(e), budget_tokens: None, include_thoughts: None }),
                                    None => None,
                                },
                                response_format: match raw.get("response_format"@) {
                                    Some(f) => spec_parse_response_format(f),
                                    None => None,
                                },
                                user: opt_str(raw.get("user"@)),
                                extensions: collect_unknown(members, |k: Seq<char>| chat_known_request_field(k), "chat."@, builtin_ext(builtins)),
                            })
                        },
                    }
                },
                _ => Err("missing required field `messages` (expected an array)"@),
            },
        },
        _ => Err("request body must be a JSON object"@),
    }
}

fn decode_messages(items: &Vec<Json>, dropped: Option<&Vec<Json>>) -> (res: Result<(Vec<ContentPart>, Vec<Message>), String>)
    ensures
        match res {
            Ok((sys, ms)) => chat_messages(items_view(items@), match dropped {
                Some(a) => Some(items_view(a@)),
                None => None,
            }) == Ok::<(Seq<PartV>, Seq<MessageV>), Seq<char>>((pv(sys), msgs(ms@))),
            Err(e) => chat_messages(items_view(items@), match dropped {
                Some(a) => Some(items_view(a@)),
                None => None,
            }) == Err::<(Seq<PartV>, Seq<MessageV>), Seq<char>>(e@),
        },
{
    proof {
        lemma_items_view(items@);
    }
    let ghost its = items_view(items@);
    let ghost dv = match dropped {
        Some(a) => Some(items_view(a@)),
        None => None,
    };
    let mut system: Vec<ContentPart> = Vec::new();
    let mut messages: Vec<Message> = Vec::new();
    proof {
        lemma_parts_view(system@);
        assert(msgs(messages@) =~= Seq::<MessageV>::empty());
        assert(its.subrange(0, 0) =~= Seq::<JsonV>::empty());
    }
    let mut i: usize = 0;
    while i < items.len()
        invariant
            i <= items.len(),
            its == items_view(items@),
            its.len() == items.len(),
            forall|k: int| 0 <= k < items.len() ==> #[trigger] its[k] == items@[k]@,
            dv == match dropped {
                Some(a) => Some(items_view(a@)),
                None => None,
            },
            chat_messages(its.subrange(0, i as int), dv) == Ok::<(Seq<PartV>, Seq<MessageV>), Seq<char>>((pv(system), msgs(messages@))),
        decreases items.len() - i,
    {
        assert(its.subrange(0, i + 1).drop_last() =~= its.subrange(0, i as int));
        match decode_message(&items[i], i, dropped) {
            Err(e) => {
                proof {
                    assert(its.subrange(0, i + 1).last() == its[i as int]);
                    assert(chat_messages(its.subrange(0, i + 1), dv) == Err::<(Seq<PartV>, Seq<MessageV>), Seq<char>>(e@));
                    lemma_chat_messages_err(its, dv, i + 1);
                }
                return Err(e);
            },
            Ok(WireMsg::System(p)) => {
                append_parts(&mut system, p);
            },
            Ok(WireMsg::Push(m)) => {
                let ghost m0 = messages@;
                messages.push(m);
                proof {
                    assert(msgs(messages@) =~= msgs(m0).push(m@));
                }
            },
        }
        i = i + 1;
    }
    assert(its.subrange(0, items.len() as int) =~= its);
    Ok((system, messages))
}

impl ChatCodec {
    /// Decodes a Chat Completions request body.
    pub fn decode_request(&self, raw: &Json) -> (res: Result<UnifiedRequest, GatewayError>)
        ensures
            match res {
                Ok(r) => spec_chat_decode_request(raw@) == Ok::<RequestV, Seq<char>>(r@),
                Err(e) => spec_chat_decode_request(raw@) == Err::<RequestV, Seq<char>>(e.message@)
                    && e.kind == ErrorKind::InvalidRequest && e.protocol.is_none() && e.upstream_status.is_none() && e.upstream_body.is_none(),
            },
    {
        let members = match raw {
            Json::Object(m) => m,
            _ => return Err(GatewayError::invalid_request(owned("request body must be a JSON object"))),
        };
        let model = match raw.get_str("model") {
            Some(m) => if m.unicode_len() > 0 {
                m
            } else {
                return Err(GatewayError::invalid_request(owned("missing required field `model`")));
            },
            None => return Err(GatewayError::invalid_request(owned("missing required field `model`"))),
        };
        let items = match raw.get("messages") {
            Some(Json::Array(a)) => a,
            _ => return Err(GatewayError::invalid_request(owned("missing required field `messages` (expected an array)"))),
        };
        let dropped = match raw.get("dropped_thinking") {
            Some(d) => d.as_array(),
            None => None,
        };
        let (system, messages) = match decode_messages(items, dropped) {
            Ok(pair) => pair,
            Err(e) => return Err(GatewayError::invalid_request(e)),
        };
        let (tools, builtins) = match raw.get("tools") {
            Some(Json::Array(ts)) => decode_tools(ts),
            _ => {
                let b: Vec<Json> = Vec::new();
                proof {
                    lemma_items_view(b@);
                    assert(items_view(b@) =~= Seq::<JsonV>::empty());
                }
                (Vec::new(), b)
            },
        };
        let mut extensions = Extensions::new();
        proof {
            assert(extensions@ =~= Seq::<(Seq<char>, JsonV)>::empty());
            lemma_items_view(builtins@);
        }
        if builtins.len() > 0 {
            extensions.insert(owned("chat.builtin_tools"), Json::Array(builtins));
        }
        collect_unknown_request(members, &mut extensions);
        let max_output_tokens = match as_u32(raw.get("max_completion_tokens")) {
            Some(n) => Some(n),
            None => as_u32(raw.get("max_tokens")),
        };
        let stream = match raw.get_bool("stream") {
            Some(b) => b,
            None => false,
        };
        let usage_flag = match raw.get("stream_options") {
            Some(o) => o.get_bool("include_usage"),
            None => None,
        };
        let stream_include_usage = match usage_flag {
            Some(b) => b,
            None => false,
        };
        let reasoning = match raw.get_str("reasoning_effort") {
            Some(e) => Some(ReasoningConfig { effort: Some(owned(e)), budget_tokens: None, include_thoughts: None }),
            None => None,
        };
        let response_format = match raw.get("response_format") {
            Some(f) => parse_response_format(f),
            None => None,
        };
        let sampling = Sampling {
            temperature: as_number(raw.get("temperature")),
            top_p: as_number(raw.get("top_p")),
            top_k: None,
            frequency_penalty: as_number(raw.get("frequency_penalty")),
            presence_penalty: as_number(raw.get("presence_penalty")),
            stop: parse_stop(raw.get("stop")),
            seed: as_i64(raw.get("seed")),
            candidate_count: as_u32(raw.get("n")),
        };
        let req = UnifiedRequest {
            model: owned(model),
            system,
            messages,
            tools,
            tool_choice: chat_tool_choice(raw.get("tool_choice")),
            parallel_tool_calls: raw.get_bool("parallel_tool_calls"),
            sampling,
            max_output_tokens,
            stream,
            stream_include_usage,
            reasoning,
            response_format,
            user: opt_owned(raw.get_str("user")),
            extensions,
        };
        proof {
            let spec = spec_chat_decode_request(raw@);
            assert(spec is Ok);
            let sr = spec->Ok_0;
            assert(sr.model == req.model@);
            assert(sr.system == req@.system);
            assert(sr.messages == req@.messages);
            assert(sr.tools == req@.tools);
            assert(sr.tool_choice == req@.tool_choice);
            assert(sr.sampling == req@.sampling);
            assert(sr.max_output_tokens == req@.max_output_tokens);
            assert(sr.stream == req@.stream);
            assert(sr.stream_include_usage == req@.stream_include_usage);
            assert(sr.reasoning == req@.reasoning);
            assert(sr.response_format == req@.response_format);
            assert(sr.user == req@.user);
            assert(sr.extensions == req@.extensions);
        }
        Ok(req)
    }
}


// ---------------------------------------------------------------------------
// Usage, errors and responses
// ---------------------------------------------------------------------------

/// A JSON number for a counter.
pub open spec fn num(n: u64) -> JsonV {
    JsonV::Number(NumberV::PosInt(n))
}

/// Chat usage: prompt, completion and total (wrapping), the detail objects when non-zero.
pub open spec fn spec_usage_json(u: Usage) -> JsonV {
    let m0 = seq![
        ("prompt_tokens"@, num(u.input_tokens)),
        ("completion_tokens"@, num(u.output_tokens)),
        ("total_tokens"@, num(wrap_add(u.input_tokens, u.output_tokens))),
    ];
    let m1 = if u.cached_input_tokens > 0 {
        m0.push(("prompt_tokens_details"@, JsonV::Object(seq![("cached_tokens"@, num(u.cached_input_tokens))])))
    } else {
        m0
    };
    let m2 = if u.reasoning_tokens > 0 {
        m1.push(("completion_tokens_details"@, JsonV::Object(seq![("reasoning_tokens"@, num(u.reasoning_tokens))])))
    } else {
        m1
    };
    JsonV::Object(m2)
}

fn single(k: &str, v: Json) -> (res: Json)
    ensures
        res@ == JsonV::Object(seq![(k@, v@)]),
{
    let mut m: Vec<(String, Json)> = Vec::new();
    push_member(&mut m, k, v);
    assert(members_view(m@) =~= seq![(k@, v@)]);
    Json::object(m)
}

/// Chat usage as JSON.
pub fn usage_json(u: &Usage) -> (res: Json)
    ensures
        res@ == spec_usage_json(*u),
{
    let mut m: Vec<(String, Json)> = Vec::new();
    push_member(&mut m, "prompt_tokens", Json::uint(u.input_tokens));
    push_member(&mut m, "completion_tokens", Json::uint(u.output_tokens));
    push_member(&mut m, "total_tokens", Json::uint(wrap_add_exec(u.input_tokens, u.output_tokens)));
    let ghost m0 = members_view(m@);
    assert(m0 =~= seq![
        ("prompt_tokens"@, num(u.input_tokens)),
        ("completion_tokens"@, num(u.output_tokens)),
        ("total_tokens"@, num(wrap_add(u.input_tokens, u.output_tokens))),
    ]);
    if u.cached_input_tokens > 0 {
        push_member(&mut m, "prompt_tokens_details", single("cached_tokens", Json::uint(u.cached_input_tokens)));
    }
    if u.reasoning_tokens > 0 {
        push_member(&mut m, "completion_tokens_details", single("reasoning_tokens", Json::uint(u.reasoning_tokens)));
    }
    Json::object(m)
}

/// The error kind of an OpenAI error `type` and `code`.
pub open spec fn spec_chat_error_kind(kind: Seq<char>, code: Seq<char>) -> ErrorKind {
    if kind == "invalid_request_error"@ && code == "context_length_exceeded"@ {
        ErrorKind::PayloadTooLarge
    } else if kind == "invalid_request_error"@ {
        ErrorKind::InvalidRequest
    } else if kind == "authentication_error"@ {
        ErrorKind::Unauthenticated
    } else if kind == "permission_error"@ || kind == "insufficient_quota"@ {
        ErrorKind::PermissionDenied
    } else if kind == "not_found_error"@ {
        ErrorKind::NotFound
    } else if kind == "rate_limit_error"@ || code == "rate_limit_exceeded"@ {
        ErrorKind::RateLimited
    } else if code == "model_not_found"@ {
        ErrorKind::NotFound
    } else {
        ErrorKind::UpstreamError
    }
}

/// The message of an OpenAI error, with the faulty parameter appended when named.
pub open spec fn spec_chat_error_message(err: JsonV) -> Seq<char> {
    let m = str_or(opt_str(err.get("message"@)), "upstream returned an error"@);
    match opt_str(err.get("param"@)) {
        Some(p) => m + " (param: "@ + p + ")"@,
        None => m,
    }
}

/// Translates an OpenAI `error` object into a gateway error.
pub fn error_from_body(err: &Json) -> (res: GatewayError)
    ensures
        res.kind == spec_chat_error_kind(str_or(opt_str(err@.get("type"@)), Seq::empty()), str_or(opt_str(err@.get("code"@)), Seq::empty())),
        res.message@ == spec_chat_error_message(err@),
        res.protocol == Some(Protocol::Chat),
        res.upstream_status.is_none() && res.upstream_body.is_none(),
{
    proof {
        reveal_strlit("");
        assert(""@ =~= Seq::<char>::empty());
    }
    let message = match err.get_str("message") {
        Some(m) => owned(m),
        None => owned("upstream returned an error"),
    };
    let kind_str: &str = match err.get_str("type") {
        Some(k) => k,
        None => "",
    };
    let code: &str = match err.get_str("code") {
        Some(c) => c,
        None => "",
    };
    let kind = if text_eq(kind_str, "invalid_request_error") && text_eq(code, "context_length_exceeded") {
        ErrorKind::PayloadTooLarge
    } else if text_eq(kind_str, "invalid_request_error") {
        ErrorKind::InvalidRequest
    } else if text_eq(kind_str, "authentication_error") {
        ErrorKind::Unauthenticated
    } else if text_eq(kind_str, "permission_error") || text_eq(kind_str, "insufficient_quota") {
        ErrorKind::PermissionDenied
    } else if text_eq(kind_str, "not_found_error") {
        ErrorKind::NotFound
    } else if text_eq(kind_str, "rate_limit_error") || text_eq(code, "rate_limit_exceeded") {
        ErrorKind::RateLimited
    } else if text_eq(code, "model_not_found") {
        ErrorKind::NotFound
    } else {
        ErrorKind::UpstreamError
    };
    let message = match err.get_str("param") {
        Some(p) => concat(concat(concat(message.as_str(), " (param: ").as_str(), p).as_str(), ")"),
        None => message,
    };
    GatewayError::new(kind, message).with_protocol(Protocol::Chat)
}

/// The response fields the IR models.
pub open spec fn chat_known_response_field(k: Seq<char>) -> bool {
    ||| k == "id"@
    ||| k == "object"@
    ||| k == "created"@
    ||| k == "model"@
    ||| k == "choices"@
    ||| k == "usage"@
    ||| k == "dropped_thinking"@
}

fn is_known_response_field(k: &str) -> (res: bool)
    ensures
        res == chat_known_response_field(k@),
{
    text_eq(k, "id") || text_eq(k, "object") || text_eq(k, "created") || text_eq(k, "model") || text_eq(k, "choices")
        || text_eq(k, "usage") || text_eq(k, "dropped_thinking")
}

fn collect_unknown_response(members: &Vec<(String, Json)>, ext: &mut Extensions)
    ensures
        final(ext)@ == collect_unknown(members_view(members@), |k: Seq<char>| chat_known_response_field(k), "chat."@, old(ext)@),
{
    proof {
        crate::json::lemma_members_view(members@);
    }
    let ghost ms = members_view(members@);
    let ghost known = |k: Seq<char>| chat_known_response_field(k);
    let mut i: usize = 0;
    while i < members.len()
        invariant
            i <= members.len(),
            ms.len() == members.len(),
            forall|k: int| 0 <= k < members.len() ==> #[trigger] ms[k] == (members@[k].0@, members@[k].1@),
            known == (|k: Seq<char>| chat_known_response_field(k)),
            ext@ == collect_unknown(ms.subrange(0, i as int), known, "chat."@, old(ext)@),
        decreases members.len() - i,
    {
        assert(ms.subrange(0, i + 1).drop_last() =~= ms.subrange(0, i as int));
        let (k, v) = &members[i];
        if !is_known_response_field(k.as_str()) {
            ext.insert(concat("chat.", k.as_str()), v.duplicate());
        }
        i = i + 1;
    }
    assert(ms.subrange(0, members.len() as int) =~= ms);
}

/// The parts of the first choice's message: reasoning (unless records restore it),
/// content, refusal, tool calls, then the restored reasoning.
pub open spec fn response_parts(message: Option<JsonV>, dropped: Option<Seq<JsonV>>) -> Seq<PartV> {
    let reasoning = match non_empty(opt_str(opt_get(message, "reasoning_content"@))) {
        Some(t) => if dropped is None {
            seq![PartV::Thinking { text: t, signature: opt_str(opt_get(message, "reasoning_signature"@)) }]
        } else {
            Seq::empty()
        },
        None => Seq::empty(),
    };
    let refusal = match non_empty(opt_str(opt_get(message, "refusal"@))) {
        Some(r) => seq![PartV::Refusal { text: r }],
        None => Seq::empty(),
    };
    let calls = match opt_get(message, "tool_calls"@) {
        Some(JsonV::Array(a)) => spec_tool_call_parts(a),
        _ => Seq::empty(),
    };
    let base = reasoning + spec_parse_content(opt_get(message, "content"@)) + refusal + calls;
    match dropped {
        Some(items) => restore_dropped(items, base),
        None => base,
    }
}

/// The response a Chat Completions body decodes to at time `now` (the creation time when the body has none);
/// an `error` body or a body that is no object is refused.
pub open spec fn spec_chat_decode_response(raw: JsonV, now: i64) -> Result<ResponseV, GatewayErrorV> {
    match raw.get("error"@) {
        Some(e) if !(e is Null) => Err(plain_error(spec_chat_error_kind(str_or(opt_str(e.get("type"@)), Seq::empty()), str_or(opt_str(e.get("code"@)), Seq::empty())), spec_chat_error_message(e), Some(Protocol::Chat))),
        _ => match raw {
            JsonV::Object(members) => {
                let choice = match raw.get("choices"@) {
                    Some(JsonV::Array(cs)) => if cs.len() > 0 { Some(cs[0]) } else { None },
                    _ => None,
                };
                let dropped = match raw.get("dropped_thinking"@) {
                    Some(JsonV::Array(d)) => Some(d),
                    _ => None,
                };
                Ok(ResponseV {
                    id: str_or(opt_str(raw.get("id"@)), Seq::empty()),
                    model: str_or(opt_str(raw.get("model"@)), Seq::empty()),
                    created: match spec_as_i64(raw.get("created"@)) {
                        Some(c) => c,
                        None => now,
                    },
                    content: match choice {
                        Some(c) => response_parts(c.get("message"@), dropped),
                        None => Seq::empty(),
                    },
                    stop_reason: match choice {
                        Some(c) => match opt_str(c.get("finish_reason"@)) {
                            Some(r) => Some(spec_finish_reason_to_ir(r)),
                            None => None,
                        },
                        None => None,
                    },
                    stop_sequence: None,
                    usage: match raw.get("usage"@) {
                        Some(u) => if u is Object { spec_parse_usage(u) } else { Usage::zero_spec() },
                        None => Usage::zero_spec(),
                    },
                    extensions: collect_unknown(members, |k: Seq<char>| chat_known_response_field(k), "chat."@, Seq::empty()),
                })
            },
            _ => Err(plain_error(ErrorKind::InvalidRequest, "response body must be a JSON object"@, None)),
        },
    }
}


fn response_parts_exec(message: Option<&Json>, dropped: Option<&Vec<Json>>) -> (res: Vec<ContentPart>)
    ensures
        pv(res) == response_parts(opt_view(message), match dropped {
            Some(a) => Some(items_view(a@)),
            None => None,
        }),
{
    let mut parts: Vec<ContentPart> = Vec::new();
    proof {
        lemma_parts_view(parts@);
    }
    let reasoning = match message {
        Some(m) => m.get_str("reasoning_content"),
        None => None,
    };
    if let Some(t) = reasoning {
        if t.unicode_len() > 0 && dropped.is_none() {
            let sig = match message {
                Some(m) => opt_owned(m.get_str("reasoning_signature")),
                None => None,
            };
            let p = ContentPart::Thinking { text: owned(t), signature: sig };
            proof {
                lemma_parts_view_push(parts@, p);
            }
            parts.push(p);
        }
    }
    let content = match message {
        Some(m) => m.get("content"),
        None => None,
    };
    append_parts(&mut parts, parse_content(content));
    let refusal = match message {
        Some(m) => m.get_str("refusal"),
        None => None,
    };
    if let Some(r) = refusal {
        if r.unicode_len() > 0 {
            let p = ContentPart::Refusal { text: owned(r) };
            proof {
                lemma_parts_view_push(parts@, p);
            }
            parts.push(p);
        }
    }
    let calls = match message {
        Some(m) => m.get("tool_calls"),
        None => None,
    };
    match calls {
        Some(Json::Array(a)) => parse_tool_calls(a, &mut parts),
        _ => {
            assert(pv(parts) =~= pv(parts) + Seq::<PartV>::empty());
        },
    }
    proof {
        let mv = opt_view(message);
        let dv = match dropped {
            Some(a) => Some(items_view(a@)),
            None => None,
        };
        let reasoning = match non_empty(opt_str(opt_get(mv, "reasoning_content"@))) {
            Some(t) => if dv is None {
                seq![PartV::Thinking { text: t, signature: opt_str(opt_get(mv, "reasoning_signature"@)) }]
            } else {
                Seq::empty()
            },
            None => Seq::empty(),
        };
        let refusal = match non_empty(opt_str(opt_get(mv, "refusal"@))) {
            Some(r) => seq![PartV::Refusal { text: r }],
            None => Seq::empty(),
        };
        let calls = match opt_get(mv, "tool_calls"@) {
            Some(JsonV::Array(a)) => spec_tool_call_parts(a),
            _ => Seq::empty(),
        };
        assert(pv(parts) =~= reasoning + spec_parse_content(opt_get(mv, "content"@)) + refusal + calls);
    }
    if let Some(items) = dropped {
        let mut refs: Vec<&Json> = Vec::new();
        proof {
            lemma_items_view(items@);
        }
        let mut i: usize = 0;
        while i < items.len()
            invariant
                i <= items.len(),
                items_view(items@).len() == items.len(),
                forall|k: int| 0 <= k < items.len() ==> #[trigger] items_view(items@)[k] == items@[k]@,
                refs@.map_values(|j: &Json| j@) == items_view(items@).subrange(0, i as int),
            decreases items.len() - i,
        {
            let ghost r0 = refs@;
            refs.push(&items[i]);
            assert(refs@.map_values(|j: &Json| j@) =~= r0.map_values(|j: &Json| j@).push(items@[i as int]@));
            assert(refs@.map_values(|j: &Json| j@) =~= items_view(items@).subrange(0, i + 1));
            i = i + 1;
        }
        assert(items_view(items@).subrange(0, items.len() as int) =~= items_view(items@));
        restore_dropped_parts(&refs, &mut parts);
    }
    parts
}

impl ChatCodec {
    /// Decodes a Chat Completions response body at time `now`.
    pub fn decode_response_at(&self, raw: &Json, now: i64) -> (res: Result<UnifiedResponse, GatewayError>)
        ensures
            match res {
                Ok(r) => spec_chat_decode_response(raw@, now) == Ok::<ResponseV, GatewayErrorV>(r@),
                Err(e) => spec_chat_decode_response(raw@, now) == Err::<ResponseV, GatewayErrorV>(e@) && e.upstream_status.is_none() && e.upstream_body.is_none(),
            },
    {
        if let Some(err) = raw.get("error") {
            if !err.is_null() {
                return Err(error_from_body(err));
            }
        }
        let members = match raw {
            Json::Object(m) => m,
            _ => return Err(GatewayError::invalid_request(owned("response body must be a JSON object"))),
        };
        proof {
            reveal_strlit("");
            assert(""@ =~= Seq::<char>::empty());
        }
        let id: &str = match raw.get_str("id") {
            Some(s) => s,
            None => "",
        };
        let model: &str = match raw.get_str("model") {
            Some(s) => s,
            None => "",
        };
        let created = match as_i64(raw.get("created")) {
            Some(c) => c,
            None => now,
        };
        let choice = match raw.get("choices") {
            Some(Json::Array(cs)) => {
                proof {
                    lemma_items_view(cs@);
                }
                if cs.len() > 0 { Some(&cs[0]) } else { None }
            },
            _ => None,
        };
        let dropped = match raw.get("dropped_thinking") {
            Some(Json::Array(d)) => Some(d),
            _ => None,
        };
        let (content, stop_reason) = match choice {
            Some(c) => (response_parts_exec(c.get("message"), dropped), match c.get_str("finish_reason") {
                Some(r) => Some(finish_reason_to_ir(r)),
                None => None,
            }),
            None => {
                let v: Vec<ContentPart> = Vec::new();
                proof {
                    lemma_parts_view(v@);
                }
                (v, None)
            },
        };
        let usage = match raw.get("usage") {
            Some(u) => if u.is_object() { parse_usage(u) } else { Usage::zero() },
            None => Usage::zero(),
        };
        let mut extensions = Extensions::new();
        assert(extensions@ =~= Seq::<(Seq<char>, JsonV)>::empty());
        collect_unknown_response(members, &mut extensions);
        let resp = UnifiedResponse {
            id: owned(id),
            model: owned(model),
            created,
            content,
            stop_reason,
            stop_sequence: None,
            usage,
            extensions,
        };
        proof {
            let sr = spec_chat_decode_response(raw@, now)->Ok_0;
            assert(sr.content == resp@.content);
            assert(sr.extensions == resp@.extensions);
        }
        Ok(resp)
    }

    /// Decodes a Chat Completions response body; a body without `created` is stamped with the current time.
    pub fn decode_response(&self, raw: &Json) -> (res: Result<UnifiedResponse, GatewayError>)
        ensures
            exists|now: i64| match res {
                Ok(r) => #[trigger] spec_chat_decode_response(raw@, now) == Ok::<ResponseV, GatewayErrorV>(r@),
                Err(e) => spec_chat_decode_response(raw@, now) == Err::<ResponseV, GatewayErrorV>(e@),
            },
    {
        let now = crate::ir::now_unix_seconds();
        self.decode_response_at(raw, now)
    }
}


// ---------------------------------------------------------------------------
// Encoding
// ---------------------------------------------------------------------------

/// The `{type, <key>: text}` object of a text-like part.
pub open spec fn typed_text(ty: Seq<char>, key: Seq<char>, text: Seq<char>) -> JsonV {
    JsonV::Object(seq![("type"@, JsonV::Str(ty)), (key, JsonV::Str(text))])
}

/// The Chat form of a content part; reasoning, tool blocks and other protocols' blocks have none here.
pub open spec fn spec_part_json(part: PartV) -> Option<JsonV> {
    match part {
        PartV::Text { text } => Some(typed_text("text"@, "text"@, text)),
        PartV::Image { source, mime, detail } => {
            let url = seq![("url"@, JsonV::Str(spec_to_data_uri(source, mime)))];
            let image_url = match detail {
                Some(d) => url.push(("detail"@, JsonV::Str(d))),
                None => url,
            };
            Some(JsonV::Object(seq![("type"@, JsonV::Str("image_url"@)), ("image_url"@, JsonV::Object(image_url))]))
        },
        PartV::Audio { source, format } => {
            let data = match source {
                SourceV::Base64(d) => d,
                other => spec_to_data_uri(other, None),
            };
            Some(JsonV::Object(seq![
                ("type"@, JsonV::Str("input_audio"@)),
                ("input_audio"@, JsonV::Object(seq![
                    ("data"@, JsonV::Str(data)),
                    ("format"@, JsonV::Str(str_or(format, "wav"@))),
                ])),
            ]))
        },
        PartV::File { source, mime, name } => {
            let f = match source {
                SourceV::FileId(id) => seq![("file_id"@, JsonV::Str(id))],
                other => seq![("file_data"@, JsonV::Str(spec_to_data_uri(other, mime)))],
            };
            let file = match name {
                Some(n) => f.push(("filename"@, JsonV::Str(n))),
                None => f,
            };
            Some(JsonV::Object(seq![("type"@, JsonV::Str("file"@)), ("file"@, JsonV::Object(file))]))
        },
        PartV::Refusal { text } => Some(typed_text("refusal"@, "refusal"@, text)),
        _ => None,
    }
}

/// The Chat forms of a run of parts, skipping those without one.
pub open spec fn parts_json(parts: Seq<PartV>) -> Seq<JsonV>
    decreases parts.len(),
{
    if parts.len() == 0 {
        Seq::empty()
    } else {
        let prev = parts_json(parts.drop_last());
        match spec_part_json(parts.last()) {
            Some(j) => prev.push(j),
            None => prev,
        }
    }
}

/// A `content` field: empty text when there are no parts, the joined text when all are text,
/// else the array of parts.
pub open spec fn spec_content_json(parts: Seq<PartV>) -> JsonV {
    if parts.len() == 0 {
        JsonV::Str(Seq::empty())
    } else if crate::ir::all_text(parts) {
        JsonV::Str(crate::ir::text_of(parts))
    } else {
        JsonV::Array(parts_json(parts))
    }
}

fn part_json(part: &ContentPart) -> (res: Option<Json>)
    ensures
        match res {
            Some(j) => spec_part_json(part@) == Some(j@),
            None => spec_part_json(part@) is None,
        },
{
    match part {
        ContentPart::Text { text } => Some(pair_object("type", str_json("text"), "text", str_json(text.as_str()))),
        ContentPart::Image { source, mime, detail } => {
            let mime_ref: Option<&str> = match mime {
                Some(m) => Some(m.as_str()),
                None => None,
            };
            let mut image_url: Vec<(String, Json)> = Vec::new();
            push_member(&mut image_url, "url", Json::Str(source.to_data_uri(mime_ref)));
            if let Some(d) = detail {
                push_member(&mut image_url, "detail", str_json(d.as_str()));
            }
            proof {
                assert(Seq::<(Seq<char>, JsonV)>::empty().push(("url"@, JsonV::Str(spec_to_data_uri(source@, ov(*mime))))) =~= seq![("url"@, JsonV::Str(spec_to_data_uri(source@, ov(*mime))))]);
            }
            Some(pair_object("type", str_json("image_url"), "image_url", Json::object(image_url)))
        },
        ContentPart::Audio { source, format } => {
            let data = match source {
                MediaSource::Base64(d) => owned(d.as_str()),
                other => other.to_data_uri(None),
            };
            let fmt: &str = match format {
                Some(f) => f.as_str(),
                None => "wav",
            };
            let inner = pair_object("data", Json::Str(data), "format", str_json(fmt));
            Some(pair_object("type", str_json("input_audio"), "input_audio", inner))
        },
        ContentPart::File { source, mime, name } => {
            let mut file: Vec<(String, Json)> = Vec::new();
            match source {
                MediaSource::FileId(id) => push_member(&mut file, "file_id", str_json(id.as_str())),
                other => {
                    let mime_ref: Option<&str> = match mime {
                        Some(m) => Some(m.as_str()),
                        None => None,
                    };
                    push_member(&mut file, "file_data", Json::Str(other.to_data_uri(mime_ref)));
                },
            }
            let ghost f0 = members_view(file@);
            assert(f0.len() == 1);
            assert(f0 =~= seq![f0[0]]);
            if let Some(n) = name {
                push_member(&mut file, "filename", str_json(n.as_str()));
            }
            Some(pair_object("type", str_json("file"), "file", Json::object(file)))
        },
        ContentPart::Refusal { text } => Some(pair_object("type", str_json("refusal"), "refusal", str_json(text.as_str()))),
        _ => None,
    }
}

fn parts_json_exec(parts: &Vec<ContentPart>) -> (res: Vec<Json>)
    ensures
        items_view(res@) == parts_json(pv(*parts)),
{
    proof {
        lemma_parts_view(parts@);
    }
    let ghost ps = pv(*parts);
    let mut out: Vec<Json> = Vec::new();
    proof {
        lemma_items_view(out@);
        assert(ps.subrange(0, 0) =~= Seq::<PartV>::empty());
    }
    let mut i: usize = 0;
    while i < parts.len()
        invariant
            i <= parts.len(),
            ps == pv(*parts),
            ps.len() == parts.len(),
            forall|k: int| 0 <= k < parts.len() ==> #[trigger] ps[k] == parts@[k]@,
            items_view(out@) == parts_json(ps.subrange(0, i as int)),
        decreases parts.len() - i,
    {
        assert(ps.subrange(0, i + 1).drop_last() =~= ps.subrange(0, i as int));
        if let Some(j) = part_json(&parts[i]) {
            let ghost o0 = out@;
            out.push(j);
            assert(out@.drop_last() =~= o0);
        }
        i = i + 1;
    }
    assert(ps.subrange(0, parts.len() as int) =~= ps);
    out
}

fn all_text_exec(parts: &Vec<ContentPart>) -> (res: bool)
    ensures
        res == crate::ir::all_text(pv(*parts)),
{
    proof {
        lemma_parts_view(parts@);
    }
    let mut i: usize = 0;
    while i < parts.len()
        invariant
            i <= parts.len(),
            pv(*parts).len() == parts.len(),
            forall|k: int| 0 <= k < parts.len() ==> #[trigger] pv(*parts)[k] == parts@[k]@,
            forall|k: int| 0 <= k < i ==> #[trigger] pv(*parts)[k] is Text,
        decreases parts.len() - i,
    {
        match &parts[i] {
            ContentPart::Text { .. } => {},
            _ => {
                assert(!(pv(*parts)[i as int] is Text));
                return false;
            },
        }
        i = i + 1;
    }
    true
}

fn content_json(parts: &Vec<ContentPart>) -> (res: Json)
    ensures
        res@ == spec_content_json(pv(*parts)),
{
    proof {
        lemma_parts_view(parts@);
    }
    if parts.len() == 0 {
        return Json::Str(String::new());
    }
    if all_text_exec(parts) {
        return Json::Str(crate::ir::concat_texts(parts));
    }
    Json::Array(parts_json_exec(parts))
}

/// Whether a part is media a tool message cannot carry.
pub open spec fn is_media(p: PartV) -> bool {
    p is Image || p is Audio || p is File
}

/// The text parts among `parts`.
pub open spec fn texts_among(parts: Seq<PartV>) -> Seq<PartV> {
    parts.filter(|p: PartV| p is Text)
}

/// The media parts among `parts`.
pub open spec fn media_among(parts: Seq<PartV>) -> Seq<PartV> {
    parts.filter(|p: PartV| is_media(p))
}

/// The Chat messages of one tool result: a `tool` message with its text, then a `user`
/// message carrying its media with a note naming the call.
pub open spec fn tool_result_msgs(id: Seq<char>, content: Seq<PartV>) -> Seq<JsonV> {
    let tool = JsonV::Object(seq![
        ("role"@, JsonV::Str("tool"@)),
        ("tool_call_id"@, JsonV::Str(id)),
        ("content"@, spec_content_json(texts_among(content))),
    ]);
    let media = media_among(content);
    if media.len() > 0 {
        let note = typed_text("text"@, "text"@, "[attachment from tool call "@ + id + "]"@);
        seq![tool, JsonV::Object(seq![("role"@, JsonV::Str("user"@)), ("content"@, JsonV::Array(seq![note] + parts_json(media)))])]
    } else {
        seq![tool]
    }
}

proof fn lemma_filter_push(s: Seq<PartV>, p: PartV, f: spec_fn(PartV) -> bool)
    ensures
        s.push(p).filter(f) == if f(p) { s.filter(f).push(p) } else { s.filter(f) },
{
    reveal_with_fuel(Seq::<PartV>::filter, 1);
    assert(s.push(p).drop_last() =~= s);
}

fn split_tool_result(content: &Vec<ContentPart>) -> (res: (Vec<ContentPart>, Vec<ContentPart>))
    ensures
        pv(res.0) == texts_among(pv(*content)),
        pv(res.1) == media_among(pv(*content)),
{
    proof {
        lemma_parts_view(content@);
    }
    let ghost ps = pv(*content);
    let mut texts: Vec<ContentPart> = Vec::new();
    let mut media: Vec<ContentPart> = Vec::new();
    proof {
        lemma_parts_view(texts@);
        lemma_parts_view(media@);
        assert(ps.subrange(0, 0) =~= Seq::<PartV>::empty());
    }
    let mut i: usize = 0;
    while i < content.len()
        invariant
            i <= content.len(),
            ps == pv(*content),
            ps.len() == content.len(),
            forall|k: int| 0 <= k < content.len() ==> #[trigger] ps[k] == content@[k]@,
            pv(texts) == texts_among(ps.subrange(0, i as int)),
            pv(media) == media_among(ps.subrange(0, i as int)),
        decreases content.len() - i,
    {
        proof {
            assert(ps.subrange(0, i + 1) =~= ps.subrange(0, i as int).push(ps[i as int]));
            lemma_filter_push(ps.subrange(0, i as int), ps[i as int], |p: PartV| p is Text);
            lemma_filter_push(ps.subrange(0, i as int), ps[i as int], |p: PartV| is_media(p));
        }
        let p = &content[i];
        match p {
            ContentPart::Text { .. } => {
                let d = p.duplicate();
                proof {
                    lemma_parts_view_push(texts@, d);
                }
                texts.push(d);
            },
            ContentPart::Image { .. } | ContentPart::Audio { .. } | ContentPart::File { .. } => {
                let d = p.duplicate();
                proof {
                    lemma_parts_view_push(media@, d);
                }
                media.push(d);
            },
            _ => {},
        }
        i = i + 1;
    }
    assert(ps.subrange(0, content.len() as int) =~= ps);
    (texts, media)
}

pub(crate) fn push_json(out: &mut Vec<Json>, j: Json)
    ensures
        items_view(final(out)@) == items_view(old(out)@).push(j@),
{
    let ghost o0 = out@;
    out.push(j);
    assert(out@.drop_last() =~= o0);
}

fn encode_tool_result(id: &str, content: &Vec<ContentPart>, out: &mut Vec<Json>)
    ensures
        items_view(final(out)@) == items_view(old(out)@) + tool_result_msgs(id@, pv(*content)),
{
    let (texts, media) = split_tool_result(content);
    let tool = triple_object("role", str_json("tool"), "tool_call_id", str_json(id), "content", content_json(&texts));
    push_json(out, tool);
    let ghost after_tool = items_view(out@);
    proof {
        lemma_parts_view(media@);
    }
    if media.len() > 0 {
        let note_text = concat(concat("[attachment from tool call ", id).as_str(), "]");
        let note = pair_object("type", str_json("text"), "text", Json::Str(note_text));
        let mut parts: Vec<Json> = Vec::new();
        push_json(&mut parts, note);
        let mut rest = parts_json_exec(&media);
        let ghost p0 = parts@;
        let ghost r0 = rest@;
        parts.append(&mut rest);
        proof {
            lemma_items_view(p0);
            lemma_items_view(r0);
            lemma_items_view(parts@);
            assert(items_view(parts@) =~= items_view(p0) + items_view(r0));
            assert(items_view(p0) =~= seq![note@]);
        }
        let user = pair_object("role", str_json("user"), "content", Json::Array(parts));
        push_json(out, user);
        assert(items_view(out@) =~= items_view(old(out)@) + tool_result_msgs(id@, pv(*content)));
    } else {
        assert(items_view(out@) =~= items_view(old(out)@) + tool_result_msgs(id@, pv(*content)));
    }
}

/// The tool results among `parts`, as Chat messages.
pub open spec fn results_msgs(parts: Seq<PartV>) -> Seq<JsonV>
    decreases parts.len(),
{
    if parts.len() == 0 {
        Seq::empty()
    } else {
        results_msgs(parts.drop_last()) + match parts.last() {
            PartV::ToolResult { id, content, .. } => tool_result_msgs(id, content),
            _ => Seq::empty(),
        }
    }
}

/// Whether any part is a tool result.
pub open spec fn has_result(parts: Seq<PartV>) -> bool {
    exists|i: int| 0 <= i < parts.len() && #[trigger] parts[i] is ToolResult
}

/// A tool call as Chat writes it: arguments as JSON text.
pub open spec fn call_json(id: Seq<char>, name: Seq<char>, input: JsonV) -> JsonV {
    JsonV::Object(seq![
        ("id"@, JsonV::Str(id)),
        ("type"@, JsonV::Str("function"@)),
        ("function"@, JsonV::Object(seq![
            ("name"@, JsonV::Str(name)),
            ("arguments"@, JsonV::Str(args_text(input))),
        ])),
    ])
}

/// Tool arguments as JSON text: a text input as it is, anything else rendered.
pub open spec fn args_text(input: JsonV) -> Seq<char> {
    match input {
        JsonV::Str(s) => s,
        other => json_render(other),
    }
}

/// What a message shows besides its tool blocks: its visible parts, its tool calls and its refusal text.
pub open spec fn message_pieces(parts: Seq<PartV>) -> (Seq<PartV>, Seq<JsonV>, Option<Seq<char>>)
    decreases parts.len(),
{
    if parts.len() == 0 {
        (Seq::empty(), Seq::empty(), None)
    } else {
        let (v, c, r) = message_pieces(parts.drop_last());
        match parts.last() {
            PartV::ToolUse { id, name, input, .. } => (v, c.push(call_json(id, name, input)), r),
            PartV::Refusal { text } => (v, c, Some(str_or(r, Seq::empty()) + text)),
            PartV::Thinking { .. } => (v, c, r),
            PartV::RedactedThinking { .. } => (v, c, r),
            PartV::ToolResult { .. } => (v, c, r),
            other => (v.push(other), c, r),
        }
    }
}

/// The Chat role of an IR role outside tool messages.
pub open spec fn chat_role(r: Role) -> Seq<char> {
    match r {
        Role::System => "system"@,
        Role::User => "user"@,
        _ => "assistant"@,
    }
}

/// The Chat message of a non-tool message: `null` content when only tool calls or a refusal
/// are shown; nothing when tool results took all the content away.
pub open spec fn main_msg(m: MessageV) -> Seq<JsonV> {
    let (visible, calls, refusal) = message_pieces(m.content);
    if visible.len() == 0 && calls.len() == 0 && refusal is None && m.content.len() > 0 {
        Seq::empty()
    } else {
        let m0 = seq![
            ("role"@, JsonV::Str(chat_role(m.role))),
            ("content"@, if visible.len() == 0 && (calls.len() > 0 || refusal is Some) { JsonV::Null } else { spec_content_json(visible) }),
        ];
        let m1 = match refusal {
            Some(r) => m0.push(("refusal"@, JsonV::Str(r))),
            None => m0,
        };
        let m2 = if calls.len() > 0 { m1.push(("tool_calls"@, JsonV::Array(calls))) } else { m1 };
        let m3 = match m.name {
            Some(n) => m2.push(("name"@, JsonV::Str(n))),
            None => m2,
        };
        seq![JsonV::Object(m3)]
    }
}

/// The Chat messages of one IR message. A tool message becomes one `tool` message per result
/// (a user message when it has no result); tool results of a user turn come first as their own
/// messages; reasoning is not sent.
pub open spec fn spec_encode_message(m: MessageV) -> Seq<JsonV> {
    if m.role == Role::Tool {
        if !has_result(m.content) && m.content.len() > 0 {
            seq![JsonV::Object(seq![("role"@, JsonV::Str("user"@)), ("content"@, spec_content_json(m.content))])]
        } else {
            results_msgs(m.content)
        }
    } else {
        (if m.role == Role::User { results_msgs(m.content) } else { Seq::empty() }) + main_msg(m)
    }
}

fn results_exec(parts: &Vec<ContentPart>, out: &mut Vec<Json>) -> (res: bool)
    ensures
        items_view(final(out)@) == items_view(old(out)@) + results_msgs(pv(*parts)),
        res == has_result(pv(*parts)),
{
    proof {
        lemma_parts_view(parts@);
    }
    let ghost ps = pv(*parts);
    let ghost o0 = items_view(out@);
    let mut found = false;
    let mut i: usize = 0;
    assert(ps.subrange(0, 0) =~= Seq::<PartV>::empty());
    assert(items_view(out@) =~= o0 + results_msgs(ps.subrange(0, 0)));
    while i < parts.len()
        invariant
            i <= parts.len(),
            ps == pv(*parts),
            ps.len() == parts.len(),
            forall|k: int| 0 <= k < parts.len() ==> #[trigger] ps[k] == parts@[k]@,
            items_view(out@) == o0 + results_msgs(ps.subrange(0, i as int)),
            found == exists|k: int| 0 <= k < i && #[trigger] ps[k] is ToolResult,
        decreases parts.len() - i,
    {
        assert(ps.subrange(0, i + 1).drop_last() =~= ps.subrange(0, i as int));
        match &parts[i] {
            ContentPart::ToolResult { id, content, .. } => {
                encode_tool_result(id.as_str(), content, out);
                found = true;
                assert(ps[i as int] is ToolResult);
                assert(items_view(out@) =~= o0 + results_msgs(ps.subrange(0, i + 1)));
            },
            _ => {
                assert(items_view(out@) =~= o0 + results_msgs(ps.subrange(0, i + 1)));
            },
        }
        i = i + 1;
    }
    assert(ps.subrange(0, parts.len() as int) =~= ps);
    found
}

fn call_json_exec(id: &str, name: &str, input: &Json) -> (res: Json)
    ensures
        res@ == call_json(id@, name@, input@),
{
    let args = match input {
        Json::Str(s) => owned(s.as_str()),
        other => other.render(),
    };
    assert(args@ == args_text(input@));
    let function = pair_object("name", str_json(name), "arguments", Json::Str(args));
    triple_object("id", str_json(id), "type", str_json("function"), "function", function)
}

fn message_pieces_exec(parts: &Vec<ContentPart>) -> (res: (Vec<ContentPart>, Vec<Json>, Option<String>))
    ensures
        (pv(res.0), items_view(res.1@), ov(res.2)) == message_pieces(pv(*parts)),
{
    proof {
        lemma_parts_view(parts@);
    }
    let ghost ps = pv(*parts);
    let mut visible: Vec<ContentPart> = Vec::new();
    let mut calls: Vec<Json> = Vec::new();
    let mut refusal: Option<String> = None;
    proof {
        lemma_parts_view(visible@);
        lemma_items_view(calls@);
        assert(ps.subrange(0, 0) =~= Seq::<PartV>::empty());
    }
    let mut i: usize = 0;
    while i < parts.len()
        invariant
            i <= parts.len(),
            ps == pv(*parts),
            ps.len() == parts.len(),
            forall|k: int| 0 <= k < parts.len() ==> #[trigger] ps[k] == parts@[k]@,
            (pv(visible), items_view(calls@), ov(refusal)) == message_pieces(ps.subrange(0, i as int)),
        decreases parts.len() - i,
    {
        assert(ps.subrange(0, i + 1).drop_last() =~= ps.subrange(0, i as int));
        let p = &parts[i];
        match p {
            ContentPart::ToolUse { id, name, input, .. } => {
                push_json(&mut calls, call_json_exec(id.as_str(), name.as_str(), input));
            },
            ContentPart::Refusal { text } => {
                proof {
                    reveal_strlit("");
                    assert(""@ =~= Seq::<char>::empty());
                }
                let prev: &str = match &refusal {
                    Some(r) => r.as_str(),
                    None => "",
                };
                refusal = Some(concat(prev, text.as_str()));
            },
            ContentPart::Thinking { .. } | ContentPart::RedactedThinking { .. } | ContentPart::ToolResult { .. } => {},
            _ => {
                let d = p.duplicate();
                proof {
                    lemma_parts_view_push(visible@, d);
                }
                visible.push(d);
            },
        }
        i = i + 1;
    }
    assert(ps.subrange(0, parts.len() as int) =~= ps);
    (visible, calls, refusal)
}

fn encode_message(msg: &Message, out: &mut Vec<Json>)
    ensures
        items_view(final(out)@) == items_view(old(out)@) + spec_encode_message(msg@),
{
    proof {
        lemma_parts_view(msg.content@);
    }
    if msg.role == Role::Tool {
        let ghost o0 = items_view(out@);
        let mut tmp: Vec<Json> = Vec::new();
        proof {
            lemma_items_view(tmp@);
        }
        let found = results_exec(&msg.content, &mut tmp);
        if !found && msg.content.len() > 0 {
            let m = pair_object("role", str_json("user"), "content", content_json(&msg.content));
            push_json(out, m);
            assert(items_view(out@) =~= o0 + spec_encode_message(msg@));
        } else {
            let ghost t0 = tmp@;
            let ghost out0 = out@;
            out.append(&mut tmp);
            proof {
                lemma_items_view(out@);
                lemma_items_view(out0);
                lemma_items_view(t0);
                assert(items_view(out@) =~= items_view(out0) + items_view(t0));
                assert(items_view(t0) =~= Seq::<JsonV>::empty() + results_msgs(msg@.content));
            }
        }
        return;
    }
    let ghost o0 = items_view(out@);
    if msg.role == Role::User {
        results_exec(&msg.content, out);
    } else {
        assert(items_view(out@) =~= o0 + Seq::<JsonV>::empty());
    }
    let ghost o1 = items_view(out@);
    let (visible, calls, refusal) = message_pieces_exec(&msg.content);
    proof {
        lemma_parts_view(visible@);
        lemma_items_view(calls@);
    }
    if visible.len() == 0 && calls.len() == 0 && refusal.is_none() && msg.content.len() > 0 {
        assert(items_view(out@) =~= o0 + spec_encode_message(msg@));
        return;
    }
    let role: &str = match msg.role {
        Role::System => "system",
        Role::User => "user",
        _ => "assistant",
    };
    let mut m: Vec<(String, Json)> = Vec::new();
    push_member(&mut m, "role", str_json(role));
    let content = if visible.len() == 0 && (calls.len() > 0 || refusal.is_some()) { Json::Null } else { content_json(&visible) };
    push_member(&mut m, "content", content);
    let ghost m0 = members_view(m@);
    assert(m0 =~= seq![("role"@, JsonV::Str(chat_role(msg.role))), ("content"@, content@)]);
    if let Some(r) = refusal {
        push_member(&mut m, "refusal", Json::Str(r));
    }
    if calls.len() > 0 {
        push_member(&mut m, "tool_calls", Json::Array(calls));
    }
    if let Some(n) = &msg.name {
        push_member(&mut m, "name", str_json(n.as_str()));
    }
    push_json(out, Json::object(m));
    assert(items_view(out@) =~= o0 + spec_encode_message(msg@));
}


/// Restores this protocol's extensions as top-level fields: fields computed from the IR win,
/// and the moved built-in tools are not written back.
pub open spec fn restore_ext(ext: Seq<(Seq<char>, JsonV)>, body: Seq<(Seq<char>, JsonV)>) -> Seq<(Seq<char>, JsonV)>
    decreases ext.len(),
{
    if ext.len() == 0 {
        body
    } else {
        let prev = restore_ext(ext.drop_last(), body);
        let (k, v) = ext.last();
        if k.len() >= 5 && k.subrange(0, 5) == "chat."@ {
            let f = k.subrange(5, k.len() as int);
            if f.len() == 0 || f == "builtin_tools"@ || member_get(prev, f) is Some {
                prev
            } else {
                ext_insert(prev, f, v)
            }
        } else {
            prev
        }
    }
}

/// What restoring extensions leaves under `f`: the body's own field wins; otherwise the first
/// extension `chat.<f>`, unless `f` is empty or names the moved built-in tools.
pub proof fn lemma_restore_ext_get(ext: Seq<(Seq<char>, JsonV)>, body: Seq<(Seq<char>, JsonV)>, f: Seq<char>)
    ensures
        member_get(restore_ext(ext, body), f) == match member_get(body, f) {
            Some(x) => Some(x),
            None => if f.len() == 0 || f == "builtin_tools"@ { None } else { member_get(ext, "chat."@ + f) },
        },
    decreases ext.len(),
{
    reveal_strlit("chat.");
    if ext.len() > 0 {
        let e1 = ext.drop_last();
        lemma_restore_ext_get(e1, body, f);
        let prev = restore_ext(e1, body);
        let (k, v) = ext.last();
        assert(ext =~= e1.push((k, v)));
        let key = "chat."@ + f;
        lemma_member_get_append(e1, (k, v), key);
        assert(key.subrange(0, 5) =~= "chat."@);
        assert(key.subrange(5, key.len() as int) =~= f);
        if k.len() >= 5 && k.subrange(0, 5) == "chat."@ {
            let g = k.subrange(5, k.len() as int);
            assert(k == key <==> g == f) by {
                if g == f {
                    assert(k =~= "chat."@ + g);
                }
            }
            if g.len() == 0 || g == "builtin_tools"@ || member_get(prev, g) is Some {
            } else {
                lemma_ext_insert(prev, g, v);
            }
        } else {
            assert(k != key);
        }
    }
}

fn restore_extensions(ext: &Extensions, body: &mut Extensions)
    ensures
        final(body)@ == restore_ext(ext@, old(body)@),
{
    proof {
        reveal_strlit("chat.");
    }
    let n = ext.len();
    let ghost e = ext@;
    let mut i: usize = 0;
    assert(e.subrange(0, 0) =~= Seq::<(Seq<char>, JsonV)>::empty());
    while i < n
        invariant
            i <= n,
            n == e.len(),
            e == ext@,
            body@ == restore_ext(e.subrange(0, i as int), old(body)@),
        decreases n - i,
    {
        proof {
            reveal_strlit("chat.");
        }
        assert(e.subrange(0, i + 1).drop_last() =~= e.subrange(0, i as int));
        let (k, v) = ext.entry(i);
        if let Some(f) = strip_prefix(k, "chat.") {
            if !(f.unicode_len() == 0 || text_eq(f, "builtin_tools") || body.get(f).is_some()) {
                body.insert(owned(f), v.duplicate());
            }
        }
        i = i + 1;
    }
    assert(e.subrange(0, n as int) =~= e);
}

/// `response_format` as Chat writes it.
pub open spec fn spec_response_format_json(rf: FormatV) -> JsonV {
    match rf {
        FormatV::Text => JsonV::Object(seq![("type"@, JsonV::Str("text"@))]),
        FormatV::JsonObject => JsonV::Object(seq![("type"@, JsonV::Str("json_object"@))]),
        FormatV::JsonSchema { name, schema, strict } => JsonV::Object(seq![
            ("type"@, JsonV::Str("json_schema"@)),
            ("json_schema"@, JsonV::Object(seq![("name"@, JsonV::Str(name)), ("schema"@, schema), ("strict"@, JsonV::Bool(strict))])),
        ]),
    }
}

fn response_format_json(rf: &ResponseFormat) -> (res: Json)
    ensures
        res@ == spec_response_format_json(rf@),
{
    match rf {
        ResponseFormat::Text => single("type", str_json("text")),
        ResponseFormat::JsonObject => single("type", str_json("json_object")),
        ResponseFormat::JsonSchema { name, schema, strict } => {
            let inner = triple_object("name", str_json(name.as_str()), "schema", schema.duplicate(), "strict", Json::boolean(*strict));
            pair_object("type", str_json("json_schema"), "json_schema", inner)
        },
    }
}

/// A function tool as Chat declares it.
pub open spec fn spec_tool_json(t: ToolV) -> JsonV {
    let f0 = seq![("name"@, JsonV::Str(t.name))];
    let f1 = match t.description {
        Some(d) => f0.push(("description"@, JsonV::Str(d))),
        None => f0,
    };
    let f2 = f1.push(("parameters"@, t.parameters));
    let f3 = match t.strict {
        Some(b) => f2.push(("strict"@, JsonV::Bool(b))),
        None => f2,
    };
    JsonV::Object(seq![("type"@, JsonV::Str("function"@)), ("function"@, JsonV::Object(f3))])
}

fn tool_json(t: &ToolDef) -> (res: Json)
    ensures
        res@ == spec_tool_json(t@),
{
    let mut f: Vec<(String, Json)> = Vec::new();
    push_member(&mut f, "name", str_json(t.name.as_str()));
    assert(members_view(f@) =~= seq![("name"@, JsonV::Str(t.name@))]);
    if let Some(d) = &t.description {
        push_member(&mut f, "description", str_json(d.as_str()));
    }
    push_member(&mut f, "parameters", t.parameters.duplicate());
    if let Some(b) = t.strict {
        push_member(&mut f, "strict", Json::boolean(b));
    }
    pair_object("type", str_json("function"), "function", Json::object(f))
}

/// The Chat messages of a conversation.
pub open spec fn msgs_json(ms: Seq<MessageV>) -> Seq<JsonV>
    decreases ms.len(),
{
    if ms.len() == 0 { Seq::empty() } else { msgs_json(ms.drop_last()) + spec_encode_message(ms.last()) }
}

/// The system message: the joined text when it is all text.
pub open spec fn system_msg_json(system: Seq<PartV>) -> Seq<JsonV> {
    if system.len() > 0 {
        seq![JsonV::Object(seq![
            ("role"@, JsonV::Str("system"@)),
            ("content"@, if crate::ir::all_text(system) { JsonV::Str(crate::ir::system_join(system)) } else { spec_content_json(system) }),
        ])]
    } else {
        Seq::empty()
    }
}

/// `stop`: one sequence as a text, several as an array.
pub open spec fn stop_json(stop: Seq<Seq<char>>) -> Option<JsonV> {
    if stop.len() == 0 {
        None
    } else if stop.len() == 1 {
        Some(JsonV::Str(stop[0]))
    } else {
        Some(JsonV::Array(stop.map_values(|t: Seq<char>| JsonV::Str(t))))
    }
}

/// `reasoning_effort`: the effort as given, else the tier of the budget.
pub open spec fn effort_json(r: RequestV) -> Option<JsonV> {
    match r.reasoning {
        Some(rs) => match rs.effort {
            Some(e) => Some(JsonV::Str(e)),
            None => match rs.budget_tokens {
                Some(b) => Some(JsonV::Str(crate::ir::budget_tier(b, r.max_output_tokens))),
                None => None,
            },
        },
        None => None,
    }
}

/// `tools[]`: the function tools, then the kept built-in tools.
pub open spec fn chat_tools_json(r: RequestV) -> Seq<JsonV> {
    r.tools.map_values(|t: ToolV| spec_tool_json(t)) + match member_get(r.extensions, "chat.builtin_tools"@) {
        Some(JsonV::Array(b)) => b,
        _ => Seq::empty(),
    }
}

/// `tool_choice` as Chat writes it.
pub open spec fn chat_tool_choice_json(c: ChoiceV) -> Option<JsonV> {
    match c {
        ChoiceV::Unspecified => None,
        ChoiceV::Auto => Some(JsonV::Str("auto"@)),
        ChoiceV::Required => Some(JsonV::Str("required"@)),
        ChoiceV::NoTool => Some(JsonV::Str("none"@)),
        ChoiceV::Tool(name) => Some(JsonV::Object(seq![
            ("type"@, JsonV::Str("function"@)),
            ("function"@, JsonV::Object(seq![("name"@, JsonV::Str(name))])),
        ])),
    }
}

/// A JSON number for a signed value.
pub open spec fn int_json(n: i64) -> JsonV {
    if n >= 0 { JsonV::Number(NumberV::PosInt(n as u64)) } else { JsonV::Number(NumberV::NegInt(n)) }
}

/// The body members up to the stop sequences.
pub open spec fn sampling_members(r: RequestV) -> Seq<(Seq<char>, JsonV)> {
    let s = r.sampling;
    let b0 = ext_insert(Seq::empty(), "model"@, JsonV::Str(r.model));
    let b1 = ext_insert(b0, "messages"@, JsonV::Array(system_msg_json(r.system) + msgs_json(r.messages)));
    let b2 = crate::codec::gemini::ext_opt(b1, "temperature"@, match s.temperature { Some(t) => Some(JsonV::Number(t)), None => None });
    let b3 = crate::codec::gemini::ext_opt(b2, "top_p"@, match s.top_p { Some(t) => Some(JsonV::Number(t)), None => None });
    let b4 = crate::codec::gemini::ext_opt(b3, "frequency_penalty"@, match s.frequency_penalty { Some(t) => Some(JsonV::Number(t)), None => None });
    let b5 = crate::codec::gemini::ext_opt(b4, "presence_penalty"@, match s.presence_penalty { Some(t) => Some(JsonV::Number(t)), None => None });
    let b6 = crate::codec::gemini::ext_opt(b5, "seed"@, match s.seed { Some(x) => Some(int_json(x)), None => None });
    let b7 = crate::codec::gemini::ext_opt(b6, "n"@, match s.candidate_count { Some(n) => Some(num(n as u64)), None => None });
    crate::codec::gemini::ext_opt(b7, "stop"@, stop_json(s.stop))
}

/// The Chat Completions request body for an IR request.
pub open spec fn spec_chat_encode_request(r: RequestV) -> JsonV {
    let b8 = sampling_members(r);
    let b9 = crate::codec::gemini::ext_opt(b8, "max_completion_tokens"@, match r.max_output_tokens { Some(m) => Some(num(m as u64)), None => None });
    let b10 = if r.stream {
        let with_stream = ext_insert(b9, "stream"@, JsonV::Bool(true));
        if r.stream_include_usage {
            ext_insert(with_stream, "stream_options"@, JsonV::Object(seq![("include_usage"@, JsonV::Bool(true))]))
        } else {
            with_stream
        }
    } else {
        b9
    };
    let b11 = crate::codec::gemini::ext_opt(b10, "reasoning_effort"@, effort_json(r));
    let b12 = crate::codec::gemini::ext_opt(b11, "response_format"@, match r.response_format { Some(f) => Some(spec_response_format_json(f)), None => None });
    let tools = chat_tools_json(r);
    let b13 = crate::codec::gemini::ext_opt(b12, "tools"@, if tools.len() > 0 { Some(JsonV::Array(tools)) } else { None });
    let b14 = crate::codec::gemini::ext_opt(b13, "tool_choice"@, chat_tool_choice_json(r.tool_choice));
    let b15 = crate::codec::gemini::ext_opt(b14, "parallel_tool_calls"@, match r.parallel_tool_calls { Some(p) => Some(JsonV::Bool(p)), None => None });
    let b16 = crate::codec::gemini::ext_opt(b15, "user"@, match r.user { Some(u) => Some(JsonV::Str(u)), None => None });
    JsonV::Object(restore_ext(r.extensions, b16))
}

fn int_json_exec(n: i64) -> (res: Json)
    ensures
        res@ == int_json(n),
{
    if n >= 0 { Json::uint(n as u64) } else { Json::Number(JsonNumber::NegInt(n)) }
}

fn put_opt(body: &mut Extensions, key: &str, v: Option<Json>)
    ensures
        final(body)@ == crate::codec::gemini::ext_opt(old(body)@, key@, match v {
            Some(j) => Some(j@),
            None => None,
        }),
{
    if let Some(j) = v {
        body.insert(owned(key), j);
    }
}

fn messages_json(ir: &UnifiedRequest) -> (res: Vec<Json>)
    ensures
        items_view(res@) == system_msg_json(pv(ir.system)) + msgs_json(msgs(ir.messages@)),
{
    let mut out: Vec<Json> = Vec::new();
    proof {
        lemma_items_view(out@);
        lemma_parts_view(ir.system@);
    }
    if ir.system.len() > 0 {
        let content = if all_text_exec(&ir.system) { Json::Str(ir.system_text()) } else { content_json(&ir.system) };
        push_json(&mut out, pair_object("role", str_json("system"), "content", content));
    }
    let ghost head = items_view(out@);
    assert(head =~= system_msg_json(pv(ir.system)));
    let ghost ms = msgs(ir.messages@);
    let mut i: usize = 0;
    assert(ms.subrange(0, 0) =~= Seq::<MessageV>::empty());
    assert(items_view(out@) =~= head + msgs_json(ms.subrange(0, 0)));
    while i < ir.messages.len()
        invariant
            i <= ir.messages.len(),
            ms == msgs(ir.messages@),
            items_view(out@) == head + msgs_json(ms.subrange(0, i as int)),
        decreases ir.messages.len() - i,
    {
        assert(ms.subrange(0, i + 1).drop_last() =~= ms.subrange(0, i as int));
        encode_message(&ir.messages[i], &mut out);
        assert(items_view(out@) =~= head + msgs_json(ms.subrange(0, i + 1)));
        i = i + 1;
    }
    assert(ms.subrange(0, ir.messages.len() as int) =~= ms);
    out
}

fn stop_json_exec(stop: &Vec<String>) -> (res: Option<Json>)
    ensures
        match res {
            Some(j) => stop_json(stop@.map_values(|t: String| t@)) == Some(j@),
            None => stop_json(stop@.map_values(|t: String| t@)) is None,
        },
{
    if stop.len() == 0 {
        None
    } else if stop.len() == 1 {
        Some(str_json(stop[0].as_str()))
    } else {
        let ghost sv = stop@.map_values(|t: String| t@);
        let mut a: Vec<Json> = Vec::new();
        proof {
            lemma_items_view(a@);
        }
        let mut i: usize = 0;
        while i < stop.len()
            invariant
                i <= stop.len(),
                sv == stop@.map_values(|t: String| t@),
                items_view(a@) == sv.subrange(0, i as int).map_values(|t: Seq<char>| JsonV::Str(t)),
            decreases stop.len() - i,
        {
            push_json(&mut a, str_json(stop[i].as_str()));
            assert(items_view(a@) =~= sv.subrange(0, i + 1).map_values(|t: Seq<char>| JsonV::Str(t)));
            i = i + 1;
        }
        assert(sv.subrange(0, stop.len() as int) =~= sv);
        Some(Json::Array(a))
    }
}

fn chat_tools_exec(ir: &UnifiedRequest) -> (res: Vec<Json>)
    ensures
        items_view(res@) == chat_tools_json(ir@),
{
    let mut out: Vec<Json> = Vec::new();
    proof {
        lemma_items_view(out@);
    }
    let ghost ts = tls(ir.tools@);
    let mut i: usize = 0;
    while i < ir.tools.len()
        invariant
            i <= ir.tools.len(),
            ts == tls(ir.tools@),
            items_view(out@) == ts.subrange(0, i as int).map_values(|t: ToolV| spec_tool_json(t)),
        decreases ir.tools.len() - i,
    {
        push_json(&mut out, tool_json(&ir.tools[i]));
        assert(items_view(out@) =~= ts.subrange(0, i + 1).map_values(|t: ToolV| spec_tool_json(t)));
        i = i + 1;
    }
    assert(ts.subrange(0, ir.tools.len() as int) =~= ts);
    let ghost head = items_view(out@);
    match ir.extension("chat.builtin_tools") {
        Some(Json::Array(b)) => {
            proof {
                lemma_items_view(b@);
            }
            let mut j: usize = 0;
            while j < b.len()
                invariant
                    j <= b.len(),
                    items_view(b@).len() == b.len(),
                    forall|t: int| 0 <= t < b.len() ==> #[trigger] items_view(b@)[t] == b@[t]@,
                    items_view(out@) == head + items_view(b@).subrange(0, j as int),
                decreases b.len() - j,
            {
                push_json(&mut out, b[j].duplicate());
                assert(items_view(out@) =~= head + items_view(b@).subrange(0, j + 1));
                j = j + 1;
            }
            assert(items_view(b@).subrange(0, b.len() as int) =~= items_view(b@));
        },
        _ => {
            assert(items_view(out@) =~= head + Seq::<JsonV>::empty());
        },
    }
    out
}

fn chat_tool_choice_exec(c: &ToolChoice) -> (res: Option<Json>)
    ensures
        match res {
            Some(j) => chat_tool_choice_json(c@) == Some(j@),
            None => chat_tool_choice_json(c@) is None,
        },
{
    match c {
        ToolChoice::Unspecified => None,
        ToolChoice::Auto => Some(str_json("auto")),
        ToolChoice::Required => Some(str_json("required")),
        ToolChoice::NoTool => Some(str_json("none")),
        ToolChoice::Tool(name) => Some(pair_object("type", str_json("function"), "function", single("name", str_json(name.as_str())))),
    }
}

fn sampling_members_exec(ir: &UnifiedRequest) -> (res: Extensions)
    ensures
        res@ == sampling_members(ir@),
{
    let mut body = Extensions::new();
    assert(body@ =~= Seq::<(Seq<char>, JsonV)>::empty());
    body.insert(owned("model"), str_json(ir.model.as_str()));
    body.insert(owned("messages"), Json::Array(messages_json(ir)));
    let s = &ir.sampling;
    put_opt(&mut body, "temperature", match &s.temperature {
        Some(t) => Some(Json::Number(t.duplicate())),
        None => None,
    });
    put_opt(&mut body, "top_p", match &s.top_p {
        Some(t) => Some(Json::Number(t.duplicate())),
        None => None,
    });
    put_opt(&mut body, "frequency_penalty", match &s.frequency_penalty {
        Some(t) => Some(Json::Number(t.duplicate())),
        None => None,
    });
    put_opt(&mut body, "presence_penalty", match &s.presence_penalty {
        Some(t) => Some(Json::Number(t.duplicate())),
        None => None,
    });
    put_opt(&mut body, "seed", match s.seed {
        Some(x) => Some(int_json_exec(x)),
        None => None,
    });
    put_opt(&mut body, "n", match s.candidate_count {
        Some(n) => Some(Json::uint(n as u64)),
        None => None,
    });
    put_opt(&mut body, "stop", stop_json_exec(&s.stop));
    body
}

impl ChatCodec {
    /// Encodes an IR request as a Chat Completions body.
    pub fn encode_request(&self, ir: &UnifiedRequest) -> (res: Json)
        ensures
            res@ == spec_chat_encode_request(ir@),
    {
        let mut body = sampling_members_exec(ir);
        put_opt(&mut body, "max_completion_tokens", match ir.max_output_tokens {
            Some(m) => Some(Json::uint(m as u64)),
            None => None,
        });
        if ir.stream {
            body.insert(owned("stream"), Json::boolean(true));
            if ir.stream_include_usage {
                body.insert(owned("stream_options"), single("include_usage", Json::boolean(true)));
            }
        }
        let effort = match &ir.reasoning {
            Some(r) => match &r.effort {
                Some(e) => Some(str_json(e.as_str())),
                None => match r.effort_or_from_budget(ir.max_output_tokens) {
                    Some(t) => Some(str_json(t)),
                    None => None,
                },
            },
            None => None,
        };
        put_opt(&mut body, "reasoning_effort", effort);
        put_opt(&mut body, "response_format", match &ir.response_format {
            Some(f) => Some(response_format_json(f)),
            None => None,
        });
        let tools = chat_tools_exec(ir);
        proof {
            lemma_items_view(tools@);
        }
        put_opt(&mut body, "tools", if tools.len() > 0 { Some(Json::Array(tools)) } else { None });
        put_opt(&mut body, "tool_choice", chat_tool_choice_exec(&ir.tool_choice));
        put_opt(&mut body, "parallel_tool_calls", match ir.parallel_tool_calls {
            Some(p) => Some(Json::boolean(p)),
            None => None,
        });
        put_opt(&mut body, "user", match &ir.user {
            Some(u) => Some(str_json(u.as_str())),
            None => None,
        });
        restore_extensions(&ir.extensions, &mut body);
        body.into_json()
    }
}

/// What a response shows: visible parts, tool calls, refusal text, reasoning text,
/// and the reasoning records kept with their positions.
pub open spec fn response_pieces(parts: Seq<PartV>) -> (Seq<PartV>, Seq<JsonV>, Option<Seq<char>>, Seq<char>, Seq<JsonV>)
    decreases parts.len(),
{
    if parts.len() == 0 {
        (Seq::empty(), Seq::empty(), None, Seq::empty(), Seq::empty())
    } else {
        let (v, c, r, t, d) = response_pieces(parts.drop_last());
        let pi = (parts.len() - 1) as u64;
        match parts.last() {
            PartV::ToolUse { id, name, input, .. } => (v, c.push(call_json(id, name, input)), r, t, d),
            PartV::Refusal { text } => (v, c, Some(str_or(r, Seq::empty()) + text), t, d),
            PartV::Thinking { text, signature } => {
                let rec = seq![("position"@, num(pi)), ("text"@, JsonV::Str(text))];
                (v, c, r, t + text, d.push(JsonV::Object(match signature {
                    Some(sig) => rec.push(("signature"@, JsonV::Str(sig))),
                    None => rec,
                })))
            },
            PartV::RedactedThinking { data } => (v, c, r, t, d.push(JsonV::Object(seq![("position"@, num(pi)), ("redacted"@, JsonV::Str(data))]))),
            PartV::ToolResult { .. } => (v, c, r, t, d),
            other => (v.push(other), c, r, t, d),
        }
    }
}

/// `finish_reason`, null while the response has not stopped.
pub open spec fn finish_json(reason: Option<StopReason>) -> JsonV {
    match reason {
        Some(s) => JsonV::Str(spec_stop_reason_to_finish(s)),
        None => JsonV::Null,
    }
}

/// The Chat Completions response body for an IR response.
pub open spec fn spec_chat_encode_response(r: ResponseV) -> JsonV {
    let (visible, calls, refusal, reasoning, dropped) = response_pieces(r.content);
    let m0 = seq![
        ("role"@, JsonV::Str("assistant"@)),
        ("content"@, if visible.len() == 0 && (calls.len() > 0 || refusal is Some) { JsonV::Null } else { spec_content_json(visible) }),
    ];
    let m1 = if reasoning.len() > 0 { m0.push(("reasoning_content"@, JsonV::Str(reasoning))) } else { m0 };
    let m2 = match refusal {
        Some(x) => m1.push(("refusal"@, JsonV::Str(x))),
        None => m1,
    };
    let m3 = if calls.len() > 0 { m2.push(("tool_calls"@, JsonV::Array(calls))) } else { m2 };
    let choice = JsonV::Object(seq![
        ("index"@, num(0)),
        ("message"@, JsonV::Object(m3)),
        ("finish_reason"@, finish_json(r.stop_reason)),
    ]);
    let b0 = seq![
        ("id"@, JsonV::Str(r.id)),
        ("object"@, JsonV::Str("chat.completion"@)),
        ("created"@, int_json(r.created)),
        ("model"@, JsonV::Str(r.model)),
        ("choices"@, JsonV::Array(seq![choice])),
        ("usage"@, spec_usage_json(r.usage)),
    ];
    let b1 = if dropped.len() > 0 { b0.push(("dropped_thinking"@, JsonV::Array(dropped))) } else { b0 };
    JsonV::Object(restore_ext(r.extensions, b1))
}

fn response_pieces_exec(parts: &Vec<ContentPart>) -> (res: (Vec<ContentPart>, Vec<Json>, Option<String>, String, Vec<Json>))
    ensures
        (pv(res.0), items_view(res.1@), ov(res.2), res.3@, items_view(res.4@)) == response_pieces(pv(*parts)),
{
    proof {
        lemma_parts_view(parts@);
        reveal_strlit("");
        assert(""@ =~= Seq::<char>::empty());
    }
    let ghost ps = pv(*parts);
    let mut visible: Vec<ContentPart> = Vec::new();
    let mut calls: Vec<Json> = Vec::new();
    let mut refusal: Option<String> = None;
    let mut reasoning = String::new();
    let mut dropped: Vec<Json> = Vec::new();
    proof {
        lemma_parts_view(visible@);
        lemma_items_view(calls@);
        lemma_items_view(dropped@);
        assert(ps.subrange(0, 0) =~= Seq::<PartV>::empty());
    }
    let mut i: usize = 0;
    while i < parts.len()
        invariant
            i <= parts.len(),
            ps == pv(*parts),
            ps.len() == parts.len(),
            forall|k: int| 0 <= k < parts.len() ==> #[trigger] ps[k] == parts@[k]@,
            (pv(visible), items_view(calls@), ov(refusal), reasoning@, items_view(dropped@)) == response_pieces(ps.subrange(0, i as int)),
            ""@ == Seq::<char>::empty(),
        decreases parts.len() - i,
    {
        assert(ps.subrange(0, i + 1).drop_last() =~= ps.subrange(0, i as int));
        let p = &parts[i];
        match p {
            ContentPart::ToolUse { id, name, input, .. } => {
                push_json(&mut calls, call_json_exec(id.as_str(), name.as_str(), input));
            },
            ContentPart::Refusal { text } => {
                let prev: &str = match &refusal {
                    Some(r) => r.as_str(),
                    None => "",
                };
                refusal = Some(concat(prev, text.as_str()));
            },
            ContentPart::Thinking { text, signature } => {
                reasoning = concat(reasoning.as_str(), text.as_str());
                let mut rec: Vec<(String, Json)> = Vec::new();
                push_member(&mut rec, "position", Json::uint(i as u64));
                push_member(&mut rec, "text", str_json(text.as_str()));
                assert(members_view(rec@) =~= seq![("position"@, num(i as u64)), ("text"@, JsonV::Str(text@))]);
                if let Some(sig) = signature {
                    push_member(&mut rec, "signature", str_json(sig.as_str()));
                }
                push_json(&mut dropped, Json::object(rec));
            },
            ContentPart::RedactedThinking { data } => {
                push_json(&mut dropped, pair_object("position", Json::uint(i as u64), "redacted", str_json(data.as_str())));
            },
            ContentPart::ToolResult { .. } => {},
            _ => {
                let d = p.duplicate();
                proof {
                    lemma_parts_view_push(visible@, d);
                }
                visible.push(d);
            },
        }
        i = i + 1;
    }
    assert(ps.subrange(0, parts.len() as int) =~= ps);
    (visible, calls, refusal, reasoning, dropped)
}

impl ChatCodec {
    /// Encodes an IR response as a Chat Completions body.
    pub fn encode_response(&self, ir: &UnifiedResponse) -> (res: Json)
        ensures
            res@ == spec_chat_encode_response(ir@),
    {
        let (visible, calls, refusal, reasoning, dropped) = response_pieces_exec(&ir.content);
        proof {
            lemma_parts_view(visible@);
            lemma_items_view(calls@);
            lemma_items_view(dropped@);
        }
        let mut m: Vec<(String, Json)> = Vec::new();
        push_member(&mut m, "role", str_json("assistant"));
        let content = if visible.len() == 0 && (calls.len() > 0 || refusal.is_some()) { Json::Null } else { content_json(&visible) };
        push_member(&mut m, "content", content);
        let ghost m0 = members_view(m@);
        assert(m0 =~= seq![("role"@, JsonV::Str("assistant"@)), ("content"@, content@)]);
        if reasoning.as_str().unicode_len() > 0 {
            push_member(&mut m, "reasoning_content", Json::Str(reasoning));
        }
        if let Some(r) = refusal {
            push_member(&mut m, "refusal", Json::Str(r));
        }
        if calls.len() > 0 {
            push_member(&mut m, "tool_calls", Json::Array(calls));
        }
        let finish = match ir.stop_reason {
            Some(s) => str_json(stop_reason_to_finish(s)),
            None => Json::Null,
        };
        assert(finish@ == finish_json(ir.stop_reason));
        let choice = triple_object("index", Json::uint(0), "message", Json::object(m), "finish_reason", finish);
        let mut choices: Vec<Json> = Vec::new();
        proof {
            lemma_items_view(choices@);
        }
        push_json(&mut choices, choice);
        let mut b: Vec<(String, Json)> = Vec::new();
        push_member(&mut b, "id", str_json(ir.id.as_str()));
        push_member(&mut b, "object", str_json("chat.completion"));
        push_member(&mut b, "created", int_json_exec(ir.created));
        push_member(&mut b, "model", str_json(ir.model.as_str()));
        push_member(&mut b, "choices", Json::Array(choices));
        push_member(&mut b, "usage", usage_json(&ir.usage));
        assert(members_view(b@) =~= seq![
            ("id"@, JsonV::Str(ir.id@)),
            ("object"@, JsonV::Str("chat.completion"@)),
            ("created"@, int_json(ir.created)),
            ("model"@, JsonV::Str(ir.model@)),
            ("choices"@, JsonV::Array(items_view(choices@))),
            ("usage"@, spec_usage_json(ir.usage)),
        ]);
        if dropped.len() > 0 {
            push_member(&mut b, "dropped_thinking", Json::Array(dropped));
        }
        let mut body = Extensions::from_entries(b);
        restore_extensions(&ir.extensions, &mut body);
        body.into_json()
    }
}


// ---------------------------------------------------------------------------
// Stream encoding
// ---------------------------------------------------------------------------

/// Model of [`ChatStreamEncoder`].
pub struct ChatEncoderV {
    pub id: Seq<char>,
    pub model: Seq<char>,
    pub created: i64,
    pub opened: bool,
    pub finished: bool,
    pub done: bool,
    pub usage_sent: bool,
    pub usage: Usage,
    /// IR block index of each Chat tool index.
    pub tool_slots: Seq<u32>,
}

/// The fields every chunk starts with.
pub open spec fn chunk_head(st: ChatEncoderV) -> Seq<(Seq<char>, JsonV)> {
    seq![
        ("id"@, JsonV::Str(st.id)),
        ("object"@, JsonV::Str("chat.completion.chunk"@)),
        ("created"@, int_json(st.created)),
        ("model"@, JsonV::Str(st.model)),
    ]
}

/// A data frame holding the compact rendering of `payload`.
pub open spec fn data_frame(payload: JsonV) -> FrameV {
    FrameV { event: None, data: json_render(payload) }
}

/// A chunk with one choice carrying `delta` and the finish reason.
pub open spec fn chunk(st: ChatEncoderV, delta: JsonV, finish: Option<Seq<char>>) -> FrameV {
    data_frame(JsonV::Object(chunk_head(st).push(("choices"@, JsonV::Array(seq![JsonV::Object(seq![
        ("index"@, num(0)),
        ("delta"@, delta),
        ("finish_reason"@, text_or_null(finish)),
    ])])))))
}

/// A text, or null when there is none.
pub open spec fn text_or_null(t: Option<Seq<char>>) -> JsonV {
    match t {
        Some(s) => JsonV::Str(s),
        None => JsonV::Null,
    }
}

/// The usage chunk: no choices, the accumulated usage.
pub open spec fn usage_frame(st: ChatEncoderV) -> FrameV {
    data_frame(JsonV::Object(chunk_head(st).push(("choices"@, JsonV::Array(Seq::empty()))).push(("usage"@, spec_usage_json(st.usage)))))
}

/// Emits the assistant role chunk once.
pub open spec fn enc_open(st: ChatEncoderV, frames: Seq<FrameV>) -> (ChatEncoderV, Seq<FrameV>) {
    if st.opened {
        (st, frames)
    } else {
        (ChatEncoderV { opened: true, ..st }, frames.push(chunk(st, JsonV::Object(seq![
            ("role"@, JsonV::Str("assistant"@)),
            ("content"@, JsonV::Str(Seq::empty())),
        ]), None)))
    }
}

/// Position of the first occurrence of `ir`, -1 when there is none.
pub open spec fn first_index(slots: Seq<u32>, ir: u32) -> int
    decreases slots.len(),
{
    if slots.len() == 0 {
        -1
    } else {
        let p = first_index(slots.drop_last(), ir);
        if p >= 0 { p } else if slots.last() == ir { slots.len() - 1 } else { -1 }
    }
}

/// The Chat tool index of IR block `ir` (first appearance order).
pub open spec fn slot_of(slots: Seq<u32>, ir: u32) -> (Seq<u32>, int) {
    let p = first_index(slots, ir);
    if p >= 0 { (slots, p) } else { (slots.push(ir), slots.len() as int) }
}

proof fn lemma_first_index_prefix(s: Seq<u32>, ir: u32, i: int)
    requires
        0 <= i <= s.len(),
        first_index(s.subrange(0, i), ir) >= 0,
    ensures
        first_index(s, ir) == first_index(s.subrange(0, i), ir),
    decreases s.len() - i,
{
    if i == s.len() {
        assert(s.subrange(0, i) =~= s);
    } else {
        assert(s.drop_last().subrange(0, i) =~= s.subrange(0, i));
        lemma_first_index_prefix(s.drop_last(), ir, i);
    }
}

/// Ends the stream once: the stop chunk if none was sent, the usage chunk when usage is known, then `[DONE]`.
pub open spec fn enc_wrap_up(st: ChatEncoderV) -> (ChatEncoderV, Seq<FrameV>) {
    if st.done {
        (st, Seq::empty())
    } else {
        let s1 = ChatEncoderV { done: true, ..st };
        let (s2, f1) = if s1.opened && !s1.finished {
            (ChatEncoderV { finished: true, ..s1 }, seq![chunk(s1, JsonV::Object(Seq::empty()), Some("stop"@))])
        } else {
            (s1, Seq::empty())
        };
        let (s3, f2) = if !s2.usage_sent && !crate::ir::usage_empty(s2.usage) {
            (ChatEncoderV { usage_sent: true, ..s2 }, f1.push(usage_frame(s2)))
        } else {
            (s2, f1)
        };
        (s3, f2.push(FrameV { event: None, data: "[DONE]"@ }))
    }
}

/// A delta chunk after the role chunk.
pub open spec fn enc_delta(st: ChatEncoderV, delta: JsonV) -> (ChatEncoderV, Seq<FrameV>) {
    let (s1, f1) = enc_open(st, Seq::empty());
    (s1, f1.push(chunk(s1, delta, None)))
}

/// Effect of one IR event on the Chat stream encoder.
pub open spec fn spec_chat_encode(st: ChatEncoderV, e: EventV) -> (ChatEncoderV, Seq<FrameV>) {
    match e {
        EventV::Start { id, model, usage } => {
            let s0 = ChatEncoderV {
                id: if id.len() > 0 { id } else { st.id },
                model: if model.len() > 0 { model } else { st.model },
                usage: match usage {
                    Some(u) => crate::ir::usage_max(st.usage, u),
                    None => st.usage,
                },
                ..st
            };
            enc_open(s0, Seq::empty())
        },
        EventV::TextDelta { text, .. } => enc_delta(st, JsonV::Object(seq![("content"@, JsonV::Str(text))])),
        EventV::ThinkingDelta { text, .. } => enc_delta(st, JsonV::Object(seq![("reasoning_content"@, JsonV::Str(text))])),
        EventV::ThinkingSignature { signature, .. } => enc_delta(st, JsonV::Object(seq![("reasoning_signature"@, JsonV::Str(signature))])),
        EventV::RefusalDelta { text, .. } => enc_delta(st, JsonV::Object(seq![("refusal"@, JsonV::Str(text))])),
        EventV::ToolCallStart { index, id, name, .. } => {
            let (s1, f1) = enc_open(st, Seq::empty());
            let (slots, ti) = slot_of(s1.tool_slots, index);
            let s2 = ChatEncoderV { tool_slots: slots, ..s1 };
            (s2, f1.push(chunk(s2, JsonV::Object(seq![("tool_calls"@, JsonV::Array(seq![JsonV::Object(seq![
                ("index"@, num(ti as u64)),
                ("id"@, JsonV::Str(id)),
                ("type"@, JsonV::Str("function"@)),
                ("function"@, JsonV::Object(seq![("name"@, JsonV::Str(name)), ("arguments"@, JsonV::Str(Seq::empty()))])),
            ])]))]), None)))
        },
        EventV::ToolCallArgsDelta { index, fragment } => {
            let (s1, f1) = enc_open(st, Seq::empty());
            let (slots, ti) = slot_of(s1.tool_slots, index);
            let s2 = ChatEncoderV { tool_slots: slots, ..s1 };
            (s2, f1.push(chunk(s2, JsonV::Object(seq![("tool_calls"@, JsonV::Array(seq![JsonV::Object(seq![
                ("index"@, num(ti as u64)),
                ("function"@, JsonV::Object(seq![("arguments"@, JsonV::Str(fragment))])),
            ])]))]), None)))
        },
        EventV::Usage(u) => (ChatEncoderV { usage: crate::ir::usage_max(st.usage, u), ..st }, Seq::empty()),
        EventV::Stop { reason, .. } => {
            let (s1, f1) = enc_open(st, Seq::empty());
            let s2 = ChatEncoderV { finished: true, ..s1 };
            (s2, f1.push(chunk(s2, JsonV::Object(Seq::empty()), Some(spec_stop_reason_to_finish(reason)))))
        },
        EventV::Done => enc_wrap_up(st),
        EventV::Error { message, kind } => {
            let f = seq![data_frame(JsonV::Object(seq![("error"@, JsonV::Object(seq![("message"@, JsonV::Str(message)), ("type"@, JsonV::Str(kind))]))]))];
            if st.done {
                (st, f)
            } else {
                (ChatEncoderV { done: true, ..st }, f.push(FrameV { event: None, data: "[DONE]"@ }))
            }
        },
        _ => (st, Seq::empty()),
    }
}

/// Stateful Chat stream encoder.
///
/// Emits the assistant role chunk before any content, numbers tool calls by
/// first appearance, holds usage back until the end (after the stop chunk,
/// before `[DONE]`), and ends with `[DONE]` exactly once.
pub struct ChatStreamEncoder {
    id: String,
    model: String,
    created: i64,
    opened: bool,
    finished: bool,
    done: bool,
    usage_sent: bool,
    usage: Usage,
    tool_slots: Vec<u32>,
}

impl View for ChatStreamEncoder {
    type V = ChatEncoderV;

    closed spec fn view(&self) -> ChatEncoderV {
        ChatEncoderV {
            id: self.id@,
            model: self.model@,
            created: self.created,
            opened: self.opened,
            finished: self.finished,
            done: self.done,
            usage_sent: self.usage_sent,
            usage: self.usage,
            tool_slots: self.tool_slots@,
        }
    }
}

pub(crate) fn data_frame_exec(payload: &Json) -> (res: SseFrame)
    ensures
        res@ == data_frame(payload@),
{
    let d = payload.render();
    SseFrame::data(d.as_str())
}

impl ChatStreamEncoder {
    /// An encoder for a stream with the given id and creation time.
    pub fn with_id(id: &str, created: i64) -> (res: ChatStreamEncoder)
        ensures
            res@ == (ChatEncoderV {
                id: id@,
                model: Seq::empty(),
                created,
                opened: false,
                finished: false,
                done: false,
                usage_sent: false,
                usage: Usage::zero_spec(),
                tool_slots: Seq::empty(),
            }),
    {
        ChatStreamEncoder {
            id: owned(id),
            model: String::new(),
            created,
            opened: false,
            finished: false,
            done: false,
            usage_sent: false,
            usage: Usage::zero(),
            tool_slots: Vec::new(),
        }
    }

    /// An encoder whose stream id is `chatcmpl-` and a random UUID, created now.
    pub fn new() -> (res: ChatStreamEncoder)
        ensures
            exists|fresh: Seq<char>, now: i64| crate::ir::uuid_hex(fresh) && res@ == (ChatEncoderV {
                id: "chatcmpl-"@ + fresh,
                model: Seq::empty(),
                created: now,
                opened: false,
                finished: false,
                done: false,
                usage_sent: false,
                usage: Usage::zero_spec(),
                tool_slots: Seq::empty(),
            }),
    {
        let fresh = crate::ir::random_uuid_hex();
        let id = concat("chatcmpl-", fresh.as_str());
        let res = Self::with_id(id.as_str(), crate::ir::now_unix_seconds());
        assert(res@.id == "chatcmpl-"@ + fresh@);
        res
    }

    fn head(&self) -> (res: Vec<(String, Json)>)
        ensures
            members_view(res@) == chunk_head(self@),
    {
        let mut m: Vec<(String, Json)> = Vec::new();
        push_member(&mut m, "id", str_json(self.id.as_str()));
        push_member(&mut m, "object", str_json("chat.completion.chunk"));
        push_member(&mut m, "created", int_json_exec(self.created));
        push_member(&mut m, "model", str_json(self.model.as_str()));
        assert(members_view(m@) =~= chunk_head(self@));
        m
    }

    fn chunk(&self, delta: Json, finish: Option<&str>) -> (res: SseFrame)
        ensures
            res@ == chunk(self@, delta@, match finish {
                Some(f) => Some(f@),
                None => None,
            }),
    {
        let fin = match finish {
            Some(f) => str_json(f),
            None => Json::Null,
        };
        assert(fin@ == text_or_null(match finish {
            Some(f) => Some(f@),
            None => None,
        }));
        let choice = triple_object("index", Json::uint(0), "delta", delta, "finish_reason", fin);
        let mut choices: Vec<Json> = Vec::new();
        proof {
            lemma_items_view(choices@);
        }
        push_json(&mut choices, choice);
        assert(items_view(choices@) =~= seq![choice@]);
        let mut m = self.head();
        push_member(&mut m, "choices", Json::Array(choices));
        data_frame_exec(&Json::object(m))
    }

    fn open(&mut self, out: &mut Vec<SseFrame>)
        ensures
            (final(self)@, frs(final(out)@)) == enc_open(old(self)@, frs(old(out)@)),
    {
        if self.opened {
            return;
        }
        let f = self.chunk(pair_object("role", str_json("assistant"), "content", Json::Str(String::new())), None);
        self.opened = true;
        push_frame(out, f);
    }

    fn tool_slot(&mut self, ir: u32) -> (res: usize)
        ensures
            (final(self)@.tool_slots, res as int) == slot_of(old(self)@.tool_slots, ir),
            final(self)@ == (ChatEncoderV { tool_slots: final(self)@.tool_slots, ..old(self)@ }),
    {
        let ghost s0 = self.tool_slots@;
        let mut i: usize = 0;
        assert(s0.subrange(0, 0) =~= Seq::<u32>::empty());
        while i < self.tool_slots.len()
            invariant
                i <= self.tool_slots.len(),
                s0 == self.tool_slots@,
                first_index(s0.subrange(0, i as int), ir) == -1,
            decreases self.tool_slots.len() - i,
        {
            assert(s0.subrange(0, i + 1).drop_last() =~= s0.subrange(0, i as int));
            if self.tool_slots[i] == ir {
                proof {
                    lemma_first_index_prefix(s0, ir, i + 1);
                }
                return i;
            }
            i = i + 1;
        }
        assert(s0.subrange(0, self.tool_slots.len() as int) =~= s0);
        let n = self.tool_slots.len();
        self.tool_slots.push(ir);
        n
    }

    fn wrap_up(&mut self) -> (res: Vec<SseFrame>)
        ensures
            (final(self)@, frs(res@)) == enc_wrap_up(old(self)@),
    {
        let mut out: Vec<SseFrame> = Vec::new();
        assert(frs(out@) =~= Seq::<FrameV>::empty());
        if self.done {
            return out;
        }
        self.done = true;
        if self.opened && !self.finished {
            let f = self.chunk(Json::object(Vec::new()), Some("stop"));
            self.finished = true;
            push_frame(&mut out, f);
        }
        if !self.usage_sent && !self.usage.is_empty() {
            self.usage_sent = true;
            let mut m = self.head();
            push_member(&mut m, "choices", Json::Array(Vec::new()));
            push_member(&mut m, "usage", usage_json(&self.usage));
            proof {
                lemma_items_view(Seq::<Json>::empty());
            }
            push_frame(&mut out, data_frame_exec(&Json::object(m)));
        }
        push_frame(&mut out, SseFrame::data("[DONE]"));
        out
    }

    fn delta(&mut self, delta: Json) -> (res: Vec<SseFrame>)
        ensures
            (final(self)@, frs(res@)) == enc_delta(old(self)@, delta@),
    {
        let mut out: Vec<SseFrame> = Vec::new();
        assert(frs(out@) =~= Seq::<FrameV>::empty());
        self.open(&mut out);
        let f = self.chunk(delta, None);
        push_frame(&mut out, f);
        out
    }

    fn tool_call(&mut self, index: u32, entry: Vec<(String, Json)>) -> (res: Vec<SseFrame>)
        ensures
            (final(self)@, frs(res@)) == {
                let (s1, f1) = enc_open(old(self)@, Seq::empty());
                let (slots, ti) = slot_of(s1.tool_slots, index);
                let s2 = ChatEncoderV { tool_slots: slots, ..s1 };
                (s2, f1.push(chunk(s2, JsonV::Object(seq![("tool_calls"@, JsonV::Array(seq![JsonV::Object(
                    seq![("index"@, num(ti as u64))] + members_view(entry@))]))]), None)))
            },
    {
        let mut out: Vec<SseFrame> = Vec::new();
        assert(frs(out@) =~= Seq::<FrameV>::empty());
        self.open(&mut out);
        let ti = self.tool_slot(index);
        let mut m: Vec<(String, Json)> = Vec::new();
        push_member(&mut m, "index", Json::uint(ti as u64));
        let mut rest = entry;
        let ghost m0 = m@;
        let ghost r0 = rest@;
        m.append(&mut rest);
        proof {
            crate::json::lemma_members_view(m0);
            crate::json::lemma_members_view(r0);
            crate::json::lemma_members_view(m@);
            assert(members_view(m@) =~= members_view(m0) + members_view(r0));
            assert(members_view(m0) =~= seq![("index"@, num(ti as u64))]);
        }
        let mut calls: Vec<Json> = Vec::new();
        proof {
            lemma_items_view(calls@);
        }
        push_json(&mut calls, Json::object(m));
        let f = self.chunk(single("tool_calls", Json::Array(calls)), None);
        push_frame(&mut out, f);
        out
    }

    fn tool_start(&mut self, index: u32, id: &str, name: &str) -> (res: Vec<SseFrame>)
        ensures
            (final(self)@, frs(res@)) == spec_chat_encode(old(self)@, EventV::ToolCallStart { index, id: id@, name: name@, signature: None }),
    {
        let mut e: Vec<(String, Json)> = Vec::new();
        push_member(&mut e, "id", str_json(id));
        push_member(&mut e, "type", str_json("function"));
        push_member(&mut e, "function", pair_object("name", str_json(name), "arguments", Json::Str(String::new())));
        assert(members_view(e@) =~= seq![
            ("id"@, JsonV::Str(id@)),
            ("type"@, JsonV::Str("function"@)),
            ("function"@, JsonV::Object(seq![("name"@, JsonV::Str(name@)), ("arguments"@, JsonV::Str(Seq::empty()))])),
        ]);
        let r = self.tool_call(index, e);
        proof {
            let s1 = enc_open(old(self)@, Seq::empty()).0;
            let ti = slot_of(s1.tool_slots, index).1;
            assert(seq![("index"@, num(ti as u64))] + members_view(e@) =~= seq![
                ("index"@, num(ti as u64)),
                ("id"@, JsonV::Str(id@)),
                ("type"@, JsonV::Str("function"@)),
                ("function"@, JsonV::Object(seq![("name"@, JsonV::Str(name@)), ("arguments"@, JsonV::Str(Seq::empty()))])),
            ]);
        }
        r
    }

    fn tool_args(&mut self, index: u32, fragment: &str) -> (res: Vec<SseFrame>)
        ensures
            (final(self)@, frs(res@)) == spec_chat_encode(old(self)@, EventV::ToolCallArgsDelta { index, fragment: fragment@ }),
    {
        let mut e: Vec<(String, Json)> = Vec::new();
        push_member(&mut e, "function", single("arguments", str_json(fragment)));
        assert(members_view(e@) =~= seq![("function"@, JsonV::Object(seq![("arguments"@, JsonV::Str(fragment@))]))]);
        let r = self.tool_call(index, e);
        proof {
            let s1 = enc_open(old(self)@, Seq::empty()).0;
            let ti = slot_of(s1.tool_slots, index).1;
            assert(seq![("index"@, num(ti as u64))] + members_view(e@) =~= seq![
                ("index"@, num(ti as u64)),
                ("function"@, JsonV::Object(seq![("arguments"@, JsonV::Str(fragment@))])),
            ]);
        }
        r
    }

    /// Encodes one IR event.
    pub fn encode(&mut self, event: &StreamEvent) -> (res: Vec<SseFrame>)
        ensures
            (final(self)@, frs(res@)) == spec_chat_encode(old(self)@, event@),
    {
        let mut out: Vec<SseFrame> = Vec::new();
        assert(frs(out@) =~= Seq::<FrameV>::empty());
        match event {
            StreamEvent::Start { id, model, usage } => {
                if id.as_str().unicode_len() > 0 {
                    self.id = owned(id.as_str());
                }
                if model.as_str().unicode_len() > 0 {
                    self.model = owned(model.as_str());
                }
                if let Some(u) = usage {
                    self.usage.merge_max(u);
                }
                self.open(&mut out);
                out
            },
            StreamEvent::TextDelta { text, .. } => self.delta(single("content", str_json(text.as_str()))),
            StreamEvent::ThinkingDelta { text, .. } => self.delta(single("reasoning_content", str_json(text.as_str()))),
            StreamEvent::ThinkingSignature { signature, .. } => self.delta(single("reasoning_signature", str_json(signature.as_str()))),
            StreamEvent::RefusalDelta { text, .. } => self.delta(single("refusal", str_json(text.as_str()))),
            StreamEvent::ToolCallStart { index, id, name, .. } => self.tool_start(*index, id.as_str(), name.as_str()),
            StreamEvent::ToolCallArgsDelta { index, fragment } => self.tool_args(*index, fragment.as_str()),
            StreamEvent::Usage(u) => {
                self.usage.merge_max(u);
                out
            },
            StreamEvent::Stop { reason, .. } => {
                self.open(&mut out);
                self.finished = true;
                let f = self.chunk(Json::object(Vec::new()), Some(stop_reason_to_finish(*reason)));
                push_frame(&mut out, f);
                out
            },
            StreamEvent::Done => self.wrap_up(),
            StreamEvent::Error { message, kind } => {
                let err = single("error", pair_object("message", str_json(message.as_str()), "type", str_json(kind.as_str())));
                push_frame(&mut out, data_frame_exec(&err));
                if !self.done {
                    self.done = true;
                    push_frame(&mut out, SseFrame::data("[DONE]"));
                }
                out
            },
            _ => out,
        }
    }

    /// Ends the stream: the closing frames unless `[DONE]` was already sent.
    pub fn finish(&mut self) -> (res: Vec<SseFrame>)
        ensures
            (final(self)@, frs(res@)) == enc_wrap_up(old(self)@),
    {
        self.wrap_up()
    }
}


impl ChatCodec {
    /// The protocol this codec speaks.
    pub fn protocol(&self) -> (res: Protocol)
        ensures
            res == Protocol::Chat,
    {
        Protocol::Chat
    }
}

/// A top-level request field that Chat does not read survives decoding: the request's
/// extensions hold it as `chat.<field>`, with the last value the body gave it.
pub proof fn law_unknown_request_field_kept(raw: JsonV, k: Seq<char>)
    requires
        raw matches JsonV::Object(m) && member_last(m, k) is Some,
        !chat_known_request_field(k),
    ensures
        spec_chat_decode_request(raw) matches Ok(r)
            ==> member_get(r.extensions, "chat."@ + k) == member_last(raw->Object_0, k),
{
    let m = raw->Object_0;
    let known = |f: Seq<char>| chat_known_request_field(f);
    assert forall|e: Seq<(Seq<char>, JsonV)>| #[trigger] member_get(collect_unknown(m, known, "chat."@, e), "chat."@ + k) == member_last(m, k) by {
        law_unknown_field_kept(m, known, "chat."@, e, k);
    }
}

/// A top-level field that Chat does not read comes back when the decoded request is encoded
/// for Chat again, with the value the body gave it last.
pub proof fn law_unknown_request_field_round_trip(raw: JsonV, k: Seq<char>)
    requires
        raw matches JsonV::Object(m) && member_last(m, k) is Some,
        !chat_known_request_field(k),
        k.len() > 0,
        k != "builtin_tools"@,
    ensures
        spec_chat_decode_request(raw) matches Ok(r)
            ==> spec_chat_encode_request(r).get(k) == member_last(raw->Object_0, k),
{
    law_unknown_request_field_kept(raw, k);
    if spec_chat_decode_request(raw) is Ok {
        let r = spec_chat_decode_request(raw)->Ok_0;
        let s = r.sampling;
        let b0 = ext_insert(Seq::empty(), "model"@, JsonV::Str(r.model));
        let b1 = ext_insert(b0, "messages"@, JsonV::Array(system_msg_json(r.system) + msgs_json(r.messages)));
        lemma_ext_insert(Seq::empty(), "model"@, JsonV::Str(r.model));
        lemma_ext_insert(b0, "messages"@, JsonV::Array(system_msg_json(r.system) + msgs_json(r.messages)));
        assert(member_get(Seq::<(Seq<char>, JsonV)>::empty(), k) is None);
        assert(member_get(b1, k) is None);
        lemma_ext_opt_other(b1, "temperature"@, k);
        let b2 = ext_opt(b1, "temperature"@, match s.temperature { Some(t) => Some(JsonV::Number(t)), None => None });
        assert(member_get(b2, k) is None);
        lemma_ext_opt_other(b2, "top_p"@, k);
        let b3 = ext_opt(b2, "top_p"@, match s.top_p { Some(t) => Some(JsonV::Number(t)), None => None });
        assert(member_get(b3, k) is None);
        lemma_ext_opt_other(b3, "frequency_penalty"@, k);
        let b4 = ext_opt(b3, "frequency_penalty"@, match s.frequency_penalty { Some(t) => Some(JsonV::Number(t)), None => None });
        assert(member_get(b4, k) is None);
        lemma_ext_opt_other(b4, "presence_penalty"@, k);
        let b5 = ext_opt(b4, "presence_penalty"@, match s.presence_penalty { Some(t) => Some(JsonV::Number(t)), None => None });
        assert(member_get(b5, k) is None);
        lemma_ext_opt_other(b5, "seed"@, k);
        let b6 = ext_opt(b5, "seed"@, match s.seed { Some(x) => Some(int_json(x)), None => None });
        assert(member_get(b6, k) is None);
        lemma_ext_opt_other(b6, "n"@, k);
        let b7 = ext_opt(b6, "n"@, match s.candidate_count { Some(n) => Some(num(n as u64)), None => None });
        assert(member_get(b7, k) is None);
        lemma_ext_opt_other(b7, "stop"@, k);
        let b8 = ext_opt(b7, "stop"@, stop_json(s.stop));
        assert(b8 == sampling_members(r));
        assert(member_get(b8, k) is None);
        lemma_ext_opt_other(b8, "max_completion_tokens"@, k);
        let b9 = ext_opt(b8, "max_completion_tokens"@, match r.max_output_tokens { Some(m) => Some(num(m as u64)), None => None });
        assert(member_get(b9, k) is None);
        let with_stream = ext_insert(b9, "stream"@, JsonV::Bool(true));
        lemma_ext_insert(b9, "stream"@, JsonV::Bool(true));
        lemma_ext_insert(with_stream, "stream_options"@, JsonV::Object(seq![("include_usage"@, JsonV::Bool(true))]));
        let b10 = if r.stream {
            if r.stream_include_usage {
                ext_insert(with_stream, "stream_options"@, JsonV::Object(seq![("include_usage"@, JsonV::Bool(true))]))
            } else {
                with_stream
            }
        } else {
            b9
        };
        assert(member_get(b10, k) is None);
        lemma_ext_opt_other(b10, "reasoning_effort"@, k);
        let b11 = ext_opt(b10, "reasoning_effort"@, effort_json(r));
        assert(member_get(b11, k) is None);
        lemma_ext_opt_other(b11, "response_format"@, k);
        let b12 = ext_opt(b11, "response_format"@, match r.response_format { Some(f) => Some(spec_response_format_json(f)), None => None });
        assert(member_get(b12, k) is None);
        let tools = chat_tools_json(r);
        lemma_ext_opt_other(b12, "tools"@, k);
        let b13 = ext_opt(b12, "tools"@, if tools.len() > 0 { Some(JsonV::Array(tools)) } else { None });
        assert(member_get(b13, k) is None);
        lemma_ext_opt_other(b13, "tool_choice"@, k);
        let b14 = ext_opt(b13, "tool_choice"@, chat_tool_choice_json(r.tool_choice));
        assert(member_get(b14, k) is None);
        lemma_ext_opt_other(b14, "parallel_tool_calls"@, k);
        let b15 = ext_opt(b14, "parallel_tool_calls"@, match r.parallel_tool_calls { Some(p) => Some(JsonV::Bool(p)), None => None });
        assert(member_get(b15, k) is None);
        lemma_ext_opt_other(b15, "user"@, k);
        let b16 = ext_opt(b15, "user"@, match r.user { Some(u) => Some(JsonV::Str(u)), None => None });
        assert(member_get(b16, k) is None);
        assert(spec_chat_encode_request(r) == JsonV::Object(restore_ext(r.extensions, b16)));
        lemma_restore_ext_get(r.extensions, b16, k);
    }
}

/// A Chat stream ends with `[DONE]` exactly once: `Done`, an error event and `finish` end it,
/// with `[DONE]` as their last frame when it had not ended yet; an ended stream stays ended,
/// and `Done` or `finish` on it emit nothing.
pub proof fn law_done_sent_once(st: ChatEncoderV, e: EventV)
    ensures
        st.done ==> spec_chat_encode(st, e).0.done,
        (e is Done || e is Error) ==> spec_chat_encode(st, e).0.done,
        enc_wrap_up(st).0.done,
        !st.done ==> enc_wrap_up(st).1.len() > 0 && enc_wrap_up(st).1.last() == (FrameV { event: None, data: "[DONE]"@ }),
        !st.done && (e is Done || e is Error) ==> spec_chat_encode(st, e).1.len() > 0
            && spec_chat_encode(st, e).1.last() == (FrameV { event: None, data: "[DONE]"@ }),
        st.done ==> enc_wrap_up(st) == (st, Seq::<FrameV>::empty()),
        st.done ==> spec_chat_encode(st, EventV::Done) == (st, Seq::<FrameV>::empty()),
{
}


/// Usage written in Chat form reads back as the same usage: prompt, completion, cached and
/// reasoning counts (Chat has no cache-write count).
pub proof fn law_chat_usage_round_trip(u: Usage)
    ensures
        spec_parse_usage(spec_usage_json(u)) == (Usage { cache_write_tokens: 0, ..u }),
{
    reveal_strlit("prompt_tokens");
    reveal_strlit("completion_tokens");
    reveal_strlit("total_tokens");
    reveal_strlit("prompt_tokens_details");
    reveal_strlit("completion_tokens_details");
    reveal_strlit("cached_tokens");
    reveal_strlit("reasoning_tokens");
    assert("prompt_tokens"@.len() == 13);
    assert("completion_tokens"@.len() == 17);
    assert("total_tokens"@.len() == 12);
    assert("prompt_tokens_details"@.len() == 21);
    assert("completion_tokens_details"@.len() == 25);
    assert("cached_tokens"@.len() == 13);
    assert("reasoning_tokens"@.len() == 16);
    reveal_with_fuel(member_get, 6);
}


/// The Chat request body carries the request's sampling parameters under their Chat names:
/// `temperature`, `top_p` and `max_completion_tokens` hold exactly the request's temperature,
/// top-p and output limit whenever it sets them; a request without top-p (and without a kept
/// `chat.top_p` extension) has no `top_p`.
pub proof fn law_chat_sampling_encoded(r: RequestV)
    ensures
        r.sampling.temperature matches Some(t) ==> spec_chat_encode_request(r).get("temperature"@) == Some(JsonV::Number(t)),
        r.sampling.top_p matches Some(t) ==> spec_chat_encode_request(r).get("top_p"@) == Some(JsonV::Number(t)),
        r.max_output_tokens matches Some(m) ==> spec_chat_encode_request(r).get("max_completion_tokens"@) == Some(num(m as u64)),
        r.sampling.top_p is None && member_get(r.extensions, "chat.top_p"@) is None
            ==> spec_chat_encode_request(r).get("top_p"@) is None,
{
    reveal_strlit("temperature");
    reveal_strlit("top_p");
    reveal_strlit("frequency_penalty");
    reveal_strlit("presence_penalty");
    reveal_strlit("seed");
    reveal_strlit("n");
    reveal_strlit("stop");
    reveal_strlit("max_completion_tokens");
    reveal_strlit("stream");
    reveal_strlit("stream_options");
    reveal_strlit("reasoning_effort");
    reveal_strlit("response_format");
    reveal_strlit("tools");
    reveal_strlit("tool_choice");
    reveal_strlit("parallel_tool_calls");
    reveal_strlit("user");
    assert("temperature"@.len() == 11);
    assert("top_p"@.len() == 5);
    assert("frequency_penalty"@.len() == 17);
    assert("presence_penalty"@.len() == 16);
    assert("seed"@.len() == 4);
    assert("n"@.len() == 1);
    assert("stop"@.len() == 4);
    assert("max_completion_tokens"@.len() == 21);
    assert("stream"@.len() == 6);
    assert("stream_options"@.len() == 14);
    assert("reasoning_effort"@.len() == 16);
    assert("response_format"@.len() == 15);
    assert("tools"@.len() == 5);
    assert("tool_choice"@.len() == 11);
    assert("parallel_tool_calls"@.len() == 19);
    assert("user"@.len() == 4);
    assert("top_p"@[2] != "tools"@[2]);
    assert("temperature"@[1] != "tool_choice"@[1]);
    let s = r.sampling;
    let b0 = ext_insert(Seq::empty(), "model"@, JsonV::Str(r.model));
    let b1 = ext_insert(b0, "messages"@, JsonV::Array(system_msg_json(r.system) + msgs_json(r.messages)));
    let b2 = ext_opt(b1, "temperature"@, match s.temperature { Some(t) => Some(JsonV::Number(t)), None => None });
    let b3 = ext_opt(b2, "top_p"@, match s.top_p { Some(t) => Some(JsonV::Number(t)), None => None });
    let b4 = ext_opt(b3, "frequency_penalty"@, match s.frequency_penalty { Some(t) => Some(JsonV::Number(t)), None => None });
    let b5 = ext_opt(b4, "presence_penalty"@, match s.presence_penalty { Some(t) => Some(JsonV::Number(t)), None => None });
    let b6 = ext_opt(b5, "seed"@, match s.seed { Some(x) => Some(int_json(x)), None => None });
    let b7 = ext_opt(b6, "n"@, match s.candidate_count { Some(n) => Some(num(n as u64)), None => None });
    let b8 = ext_opt(b7, "stop"@, stop_json(s.stop));
    assert(b8 == sampling_members(r));
    let b9 = ext_opt(b8, "max_completion_tokens"@, match r.max_output_tokens { Some(m) => Some(num(m as u64)), None => None });
    let ws = ext_insert(b9, "stream"@, JsonV::Bool(true));
    let wo = ext_insert(ws, "stream_options"@, JsonV::Object(seq![("include_usage"@, JsonV::Bool(true))]));
    let b10 = if r.stream { if r.stream_include_usage { wo } else { ws } } else { b9 };
    let b11 = ext_opt(b10, "reasoning_effort"@, effort_json(r));
    let b12 = ext_opt(b11, "response_format"@, match r.response_format { Some(f) => Some(spec_response_format_json(f)), None => None });
    let tools = chat_tools_json(r);
    let b13 = ext_opt(b12, "tools"@, if tools.len() > 0 { Some(JsonV::Array(tools)) } else { None });
    let b14 = ext_opt(b13, "tool_choice"@, chat_tool_choice_json(r.tool_choice));
    let b15 = ext_opt(b14, "parallel_tool_calls"@, match r.parallel_tool_calls { Some(p) => Some(JsonV::Bool(p)), None => None });
    let b16 = ext_opt(b15, "user"@, match r.user { Some(u) => Some(JsonV::Str(u)), None => None });
    assert(spec_chat_encode_request(r) == JsonV::Object(restore_ext(r.extensions, b16)));
    let ks = seq!["temperature"@, "top_p"@, "max_completion_tokens"@];
    assert forall|i: int| 0 <= i < 3 implies member_get(b16, #[trigger] ks[i]) == member_get(b9, ks[i]) by {
        let k = ks[i];
        lemma_ext_insert(b9, "stream"@, JsonV::Bool(true));
        lemma_ext_insert(ws, "stream_options"@, JsonV::Object(seq![("include_usage"@, JsonV::Bool(true))]));
        lemma_ext_opt_other(b10, "reasoning_effort"@, k);
        lemma_ext_opt_other(b11, "response_format"@, k);
        lemma_ext_opt_other(b12, "tools"@, k);
        lemma_ext_opt_other(b13, "tool_choice"@, k);
        lemma_ext_opt_other(b14, "parallel_tool_calls"@, k);
        lemma_ext_opt_other(b15, "user"@, k);
    }
    assert forall|i: int| 0 <= i < 2 implies member_get(b9, #[trigger] ks[i]) == member_get(b3, ks[i]) by {
        let k = ks[i];
        lemma_ext_opt_other(b3, "frequency_penalty"@, k);
        lemma_ext_opt_other(b4, "presence_penalty"@, k);
        lemma_ext_opt_other(b5, "seed"@, k);
        lemma_ext_opt_other(b6, "n"@, k);
        lemma_ext_opt_other(b7, "stop"@, k);
        lemma_ext_opt_other(b8, "max_completion_tokens"@, k);
    }
    assert(ks[0] == "temperature"@ && ks[1] == "top_p"@ && ks[2] == "max_completion_tokens"@);
    lemma_ext_opt_other(b2, "top_p"@, "temperature"@);
    if let Some(t) = s.temperature {
        lemma_ext_insert(b1, "temperature"@, JsonV::Number(t));
    }
    if let Some(t) = s.top_p {
        lemma_ext_insert(b2, "top_p"@, JsonV::Number(t));
    }
    if let Some(m) = r.max_output_tokens {
        lemma_ext_insert(b8, "max_completion_tokens"@, num(m as u64));
    }
    if s.top_p is None {
        reveal_strlit("model");
        reveal_strlit("messages");
        assert("model"@.len() == 5);
        assert("model"@[0] != "top_p"@[0]);
        assert("messages"@.len() == 8);
        lemma_ext_insert(Seq::empty(), "model"@, JsonV::Str(r.model));
        lemma_ext_insert(b0, "messages"@, JsonV::Array(system_msg_json(r.system) + msgs_json(r.messages)));
        lemma_ext_opt_other(b1, "temperature"@, "top_p"@);
        assert(member_get(Seq::<(Seq<char>, JsonV)>::empty(), "top_p"@) is None);
    }
    lemma_restore_ext_get(r.extensions, b16, "temperature"@);
    lemma_restore_ext_get(r.extensions, b16, "top_p"@);
    lemma_restore_ext_get(r.extensions, b16, "max_completion_tokens"@);
    reveal_strlit("chat.");
    reveal_strlit("chat.top_p");
    assert("chat."@ + "top_p"@ =~= "chat.top_p"@);
}


/// A decoded Chat request takes its sampling parameters from the body: a number under
/// `temperature` or `top_p` becomes the request's temperature or top-p.
pub proof fn law_chat_sampling_decoded(raw: JsonV)
    ensures
        spec_chat_decode_request(raw) matches Ok(r) ==> {
            &&& (raw.get("temperature"@) matches Some(JsonV::Number(t)) ==> r.sampling.temperature == Some(t))
            &&& (raw.get("top_p"@) matches Some(JsonV::Number(t)) ==> r.sampling.top_p == Some(t))
        },
{
}


/// A chunk that is no error and whose first choice names a finish reason yields the `Stop`
/// for that reason; a usage object in the chunk yields, as the last event, that usage.
pub proof fn law_chat_chunk_stop_and_usage(st: ChatDecoderV, chunk: JsonV)
    requires
        !(chunk.get("error"@) matches Some(e) && !e.is_null()),
    ensures
        first_choice(chunk) matches Some(c) ==> (c.get("finish_reason"@) matches Some(JsonV::Str(f))
            ==> spec_chat_chunk(st, chunk).1.contains(EventV::Stop { reason: spec_finish_reason_to_ir(f), stop_sequence: None })),
        chunk.get("usage"@) matches Some(u) ==> (u is Object
            ==> spec_chat_chunk(st, chunk).1.last() == EventV::Usage(spec_parse_usage(u))),
{
    let out0 = if !st.started {
        seq![EventV::Start {
            id: str_or(opt_str(chunk.get("id"@)), Seq::empty()),
            model: str_or(opt_str(chunk.get("model"@)), Seq::empty()),
            usage: None,
        }]
    } else {
        Seq::empty()
    };
    match first_choice(chunk) {
        Some(c) => match c.get("finish_reason"@) {
            Some(JsonV::Str(f)) => {
                let (t1, o1) = match c.get("delta"@) {
                    Some(delta) => delta_events(st.tools, out0, delta),
                    None => (st.tools, out0),
                };
                let (t2, o2) = flush_from(t1, 0, o1);
                let stop = EventV::Stop { reason: spec_finish_reason_to_ir(f), stop_sequence: None };
                let out1 = o2.push(stop);
                assert(out1[o2.len() as int] == stop);
                let out2 = match chunk.get("usage"@) {
                    Some(u) => push_if(out1, u.is_object(), EventV::Usage(spec_parse_usage(u))),
                    None => out1,
                };
                assert(out2[o2.len() as int] == stop);
                assert(spec_chat_chunk(st, chunk).1 == out2);
            },
            _ => {},
        },
        None => {},
    }
}


/// A decoded Chat response takes its id, model and usage from the body's fields of those
/// names, and its stop reason from the first choice's `finish_reason`.
pub proof fn law_chat_response_fields(raw: JsonV, now: i64)
    ensures
        spec_chat_decode_response(raw, now) matches Ok(r) ==> {
            &&& (raw.get("id"@) matches Some(JsonV::Str(i)) ==> r.id == i)
            &&& (raw.get("model"@) matches Some(JsonV::Str(m)) ==> r.model == m)
            &&& (raw.get("usage"@) matches Some(u) ==> (u is Object ==> r.usage == spec_parse_usage(u)))
            &&& (raw.get("choices"@) matches Some(JsonV::Array(cs)) ==> (cs.len() > 0 ==>
                    (cs[0].get("finish_reason"@) matches Some(JsonV::Str(f)) ==> r.stop_reason == Some(spec_finish_reason_to_ir(f)))))
        },
{
}


/// A response written as a Chat body reads back with the same id, model, creation time and
/// usage (Chat has no cache-write count).
pub proof fn law_chat_response_round_trip(r: ResponseV, now: i64)
    ensures
        spec_chat_decode_response(spec_chat_encode_response(r), now) matches Ok(d) ==> {
            &&& d.id == r.id
            &&& d.model == r.model
            &&& d.created == r.created
            &&& d.usage == (Usage { cache_write_tokens: 0, ..r.usage })
        },
{
    reveal_strlit("id");
    reveal_strlit("object");
    reveal_strlit("created");
    reveal_strlit("model");
    reveal_strlit("choices");
    reveal_strlit("usage");
    reveal_strlit("dropped_thinking");
    reveal_strlit("error");
    assert("id"@.len() == 2);
    assert("object"@.len() == 6);
    assert("created"@.len() == 7);
    assert("model"@.len() == 5);
    assert("choices"@.len() == 7);
    assert("usage"@.len() == 5);
    assert("dropped_thinking"@.len() == 16);
    assert("error"@.len() == 5);
    assert("model"@[0] != "usage"@[0]);
    assert("model"@[0] != "error"@[0]);
    assert("usage"@[0] != "error"@[0]);
    let (visible, calls, refusal, reasoning, dropped) = response_pieces(r.content);
    let m0 = seq![
        ("role"@, JsonV::Str("assistant"@)),
        ("content"@, if visible.len() == 0 && (calls.len() > 0 || refusal is Some) { JsonV::Null } else { spec_content_json(visible) }),
    ];
    let m1 = if reasoning.len() > 0 { m0.push(("reasoning_content"@, JsonV::Str(reasoning))) } else { m0 };
    let m2 = match refusal {
        Some(x) => m1.push(("refusal"@, JsonV::Str(x))),
        None => m1,
    };
    let m3 = if calls.len() > 0 { m2.push(("tool_calls"@, JsonV::Array(calls))) } else { m2 };
    let choice = JsonV::Object(seq![
        ("index"@, num(0)),
        ("message"@, JsonV::Object(m3)),
        ("finish_reason"@, finish_json(r.stop_reason)),
    ]);
    let b0 = seq![
        ("id"@, JsonV::Str(r.id)),
        ("object"@, JsonV::Str("chat.completion"@)),
        ("created"@, int_json(r.created)),
        ("model"@, JsonV::Str(r.model)),
        ("choices"@, JsonV::Array(seq![choice])),
        ("usage"@, spec_usage_json(r.usage)),
    ];
    let b1 = if dropped.len() > 0 { b0.push(("dropped_thinking"@, JsonV::Array(dropped))) } else { b0 };
    reveal_with_fuel(member_get, 8);
    assert(member_get(b1, "id"@) == Some(JsonV::Str(r.id)));
    assert(member_get(b1, "model"@) == Some(JsonV::Str(r.model)));
    assert(member_get(b1, "created"@) == Some(int_json(r.created)));
    assert(member_get(b1, "usage"@) == Some(spec_usage_json(r.usage)));
    assert(member_get(b1, "error"@) is None);
    lemma_restore_ext_get(r.extensions, b1, "id"@);
    lemma_restore_ext_get(r.extensions, b1, "model"@);
    lemma_restore_ext_get(r.extensions, b1, "created"@);
    lemma_restore_ext_get(r.extensions, b1, "usage"@);
    lemma_restore_ext_get(r.extensions, b1, "error"@);
    law_chat_usage_round_trip(r.usage);
    assert(spec_chat_encode_response(r) == JsonV::Object(restore_ext(r.extensions, b1)));
}

} // verus!
