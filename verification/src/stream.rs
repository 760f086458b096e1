//! Streaming event model and SSE framing.
//!
//! Decoders turn upstream SSE frames into [`StreamEvent`]s; encoders turn
//! events into the SSE frames a client expects. Both are state machines.

use vstd::prelude::*;
use vstd::utf8::{valid_utf8, decode_utf8, encode_utf8, encode_scalar, is_scalar, has_width_1_encoding};
use crate::error::{ErrorKind, GatewayError};
use crate::ir::{ContentPart, PartV, StopReason, Usage, ov, dup_opt, part_view, parts_view, pv, lemma_parts_view, lemma_parts_view_push, usage_max};
use crate::json::{Json, JsonV, json_parse};
use crate::text::{index_of, lemma_index_of, text_eq, owned, concat, split_once, starts_with, trim, trim_start, trimmed, trimmed_start};

verus! {

/// The kind of a content block.
#[derive(Debug, Clone, Copy, PartialEq, Eq, Structural)]
pub enum PartKind {
    /// Text.
    Text,
    /// Reasoning.
    Thinking,
    /// A tool call.
    ToolUse,
    /// A refusal.
    Refusal,
}

/// Unified streaming event.
#[derive(Debug, PartialEq)]
pub enum StreamEvent {
    /// The stream starts.
    Start { id: String, model: String, usage: Option<Usage> },
    /// A content block starts.
    ContentStart { index: u32, kind: PartKind },
    /// Text increment.
    TextDelta { index: u32, text: String },
    /// Reasoning increment.
    ThinkingDelta { index: u32, text: String },
    /// Reasoning signature.
    ThinkingSignature { index: u32, signature: String },
    /// Refusal increment.
    RefusalDelta { index: u32, text: String },
    /// A tool call starts.
    ToolCallStart { index: u32, id: String, name: String, signature: Option<String> },
    /// A fragment of tool-call arguments (not necessarily valid JSON).
    ToolCallArgsDelta { index: u32, fragment: String },
    /// A content block ends.
    ContentStop { index: u32 },
    /// Usage update.
    Usage(Usage),
    /// Why the stream stops.
    Stop { reason: StopReason, stop_sequence: Option<String> },
    /// Normal end of the stream.
    Done,
    /// An error inside the stream.
    Error { message: String, kind: String },
    /// Keep-alive, no meaning.
    Ping,
}

/// Model of [`StreamEvent`].
pub enum EventV {
    Start { id: Seq<char>, model: Seq<char>, usage: Option<Usage> },
    ContentStart { index: u32, kind: PartKind },
    TextDelta { index: u32, text: Seq<char> },
    ThinkingDelta { index: u32, text: Seq<char> },
    ThinkingSignature { index: u32, signature: Seq<char> },
    RefusalDelta { index: u32, text: Seq<char> },
    ToolCallStart { index: u32, id: Seq<char>, name: Seq<char>, signature: Option<Seq<char>> },
    ToolCallArgsDelta { index: u32, fragment: Seq<char> },
    ContentStop { index: u32 },
    Usage(Usage),
    Stop { reason: StopReason, stop_sequence: Option<Seq<char>> },
    Done,
    Error { message: Seq<char>, kind: Seq<char> },
    Ping,
}

impl View for StreamEvent {
    type V = EventV;

    open spec fn view(&self) -> EventV {
        match self {
            StreamEvent::Start { id, model, usage } => EventV::Start { id: id@, model: model@, usage: *usage },
            StreamEvent::ContentStart { index, kind } => EventV::ContentStart { index: *index, kind: *kind },
            StreamEvent::TextDelta { index, text } => EventV::TextDelta { index: *index, text: text@ },
            StreamEvent::ThinkingDelta { index, text } => EventV::ThinkingDelta { index: *index, text: text@ },
            StreamEvent::ThinkingSignature { index, signature } => EventV::ThinkingSignature { index: *index, signature: signature@ },
            StreamEvent::RefusalDelta { index, text } => EventV::RefusalDelta { index: *index, text: text@ },
            StreamEvent::ToolCallStart { index, id, name, signature } => EventV::ToolCallStart { index: *index, id: id@, name: name@, signature: ov(*signature) },
            StreamEvent::ToolCallArgsDelta { index, fragment } => EventV::ToolCallArgsDelta { index: *index, fragment: fragment@ },
            StreamEvent::ContentStop { index } => EventV::ContentStop { index: *index },
            StreamEvent::Usage(u) => EventV::Usage(*u),
            StreamEvent::Stop { reason, stop_sequence } => EventV::Stop { reason: *reason, stop_sequence: ov(*stop_sequence) },
            StreamEvent::Done => EventV::Done,
            StreamEvent::Error { message, kind } => EventV::Error { message: message@, kind: kind@ },
            StreamEvent::Ping => EventV::Ping,
        }
    }
}

/// Model of a vector of events.
pub open spec fn evs(v: Seq<StreamEvent>) -> Seq<EventV> {
    v.map_values(|e: StreamEvent| e@)
}

impl EventV {
    /// Whether the event ends the stream.
    pub open spec fn is_terminal(self) -> bool {
        self is Done || self is Error
    }

    /// The block index the event concerns.
    pub open spec fn index(self) -> Option<u32> {
        match self {
            EventV::ContentStart { index, .. } => Some(index),
            EventV::TextDelta { index, .. } => Some(index),
            EventV::ThinkingDelta { index, .. } => Some(index),
            EventV::ThinkingSignature { index, .. } => Some(index),
            EventV::RefusalDelta { index, .. } => Some(index),
            EventV::ToolCallStart { index, .. } => Some(index),
            EventV::ToolCallArgsDelta { index, .. } => Some(index),
            EventV::ContentStop { index } => Some(index),
            _ => None,
        }
    }
}

impl StreamEvent {
    /// Whether the event ends the stream (`Done` or `Error`).
    pub fn is_terminal(&self) -> (res: bool)
        ensures
            res == self@.is_terminal(),
    {
        match self {
            StreamEvent::Done | StreamEvent::Error { .. } => true,
            _ => false,
        }
    }

    /// The block index the event concerns.
    pub fn index(&self) -> (res: Option<u32>)
        ensures
            res == self@.index(),
    {
        match self {
            StreamEvent::ContentStart { index, .. } => Some(*index),
            StreamEvent::TextDelta { index, .. } => Some(*index),
            StreamEvent::ThinkingDelta { index, .. } => Some(*index),
            StreamEvent::ThinkingSignature { index, .. } => Some(*index),
            StreamEvent::RefusalDelta { index, .. } => Some(*index),
            StreamEvent::ToolCallStart { index, .. } => Some(*index),
            StreamEvent::ToolCallArgsDelta { index, .. } => Some(*index),
            StreamEvent::ContentStop { index } => Some(*index),
            _ => None,
        }
    }
}

/// One SSE frame.
#[derive(Debug, PartialEq, Eq)]
pub struct SseFrame {
    /// The `event:` field (absent for OpenAI Chat).
    pub event: Option<String>,
    /// The `data:` field.
    pub data: String,
}

/// Model of [`SseFrame`].
pub struct FrameV {
    pub event: Option<Seq<char>>,
    pub data: Seq<char>,
}

impl View for SseFrame {
    type V = FrameV;

    open spec fn view(&self) -> FrameV {
        FrameV { event: ov(self.event), data: self.data@ }
    }
}

/// Model of a vector of frames.
pub open spec fn frs(v: Seq<SseFrame>) -> Seq<FrameV> {
    v.map_values(|f: SseFrame| f@)
}

/// `data:` lines for `d`, one per line of `d`.
pub open spec fn render_data(d: Seq<char>) -> Seq<char>
    decreases d.len(),
{
    match index_of(d, '\n') {
        Some(i) => if 0 <= i < d.len() {
            "data: "@ + d.subrange(0, i) + seq!['\n'] + render_data(d.subrange(i + 1, d.len() as int))
        } else {
            Seq::empty()
        },
        None => "data: "@ + d + seq!['\n'],
    }
}

/// SSE wire form of a frame, blank line included.
pub open spec fn render_frame(f: FrameV) -> Seq<char> {
    (match f.event {
        Some(e) => "event: "@ + e + seq!['\n'],
        None => Seq::empty(),
    }) + render_data(f.data) + seq!['\n']
}

impl SseFrame {
    /// A data frame without event name.
    pub fn data(data: &str) -> (res: SseFrame)
        ensures
            res@ == (FrameV { event: None, data: data@ }),
    {
        SseFrame { event: None, data: owned(data) }
    }

    /// A named event frame.
    pub fn named(event: &str, data: &str) -> (res: SseFrame)
        ensures
            res@ == (FrameV { event: Some(event@), data: data@ }),
    {
        SseFrame { event: Some(owned(event)), data: owned(data) }
    }

    /// A deep copy.
    pub fn duplicate(&self) -> (res: SseFrame)
        ensures
            res@ == self@,
    {
        SseFrame { event: dup_opt(&self.event), data: owned(self.data.as_str()) }
    }

    /// The SSE wire form, ending with a blank line; every line of `data` gets its own `data: ` prefix.
    pub fn render(&self) -> (res: String)
        ensures
            res@ == render_frame(self@),
    {
        proof {
            reveal_strlit("\n");
        }
        let mut out = String::new();
        if let Some(ev) = &self.event {
            out.append("event: ");
            out.append(ev.as_str());
            out.append("\n");
        }
        let ghost head = out@;
        let mut rest: &str = self.data.as_str();
        loop
            invariant_except_break
                head + render_data(self.data@) == out@ + render_data(rest@),
            ensures
                head + render_data(self.data@) == out@,
            decreases rest@.len(),
        {
            proof {
                reveal_strlit("\n");
                lemma_index_of(rest@, '\n');
            }
            match split_once(rest, '\n') {
                Some((line, tail)) => {
                    out.append("data: ");
                    out.append(line);
                    out.append("\n");
                    rest = tail;
                },
                None => {
                    out.append("data: ");
                    out.append(rest);
                    out.append("\n");
                    break;
                },
            }
        }
        out.append("\n");
        proof {
            assert(head + render_data(self.data@) + seq!['\n'] =~= out@);
        }
        out
    }
}

/// Model of a parser's state.
pub struct ParserV {
    /// Bytes of the incomplete last line.
    pub buffer: Seq<u8>,
    /// The `event:` field of the frame being assembled.
    pub event: Option<Seq<char>>,
    /// The `data:` lines of the frame being assembled.
    pub data: Seq<Seq<char>>,
}

/// Position of the first `b` in `s`.
pub open spec fn byte_index(s: Seq<u8>, b: u8) -> Option<int>
    decreases s.len(),
{
    if s.len() == 0 {
        None
    } else if s[0] == b {
        Some(0)
    } else {
        match byte_index(s.drop_first(), b) {
            Some(i) => Some(i + 1),
            None => None,
        }
    }
}

pub proof fn lemma_byte_index(s: Seq<u8>, b: u8)
    ensures
        match byte_index(s, b) {
            Some(i) => 0 <= i < s.len() && s[i] == b && forall|j: int| 0 <= j < i ==> s[j] != b,
            None => forall|j: int| 0 <= j < s.len() ==> s[j] != b,
        },
    decreases s.len(),
{
    if s.len() > 0 && s[0] != b {
        lemma_byte_index(s.drop_first(), b);
        match byte_index(s.drop_first(), b) {
            Some(i) => {
                assert forall|j: int| 0 <= j < i + 1 implies s[j] != b by {
                    if j > 0 {
                        assert(s[j] == s.drop_first()[j - 1]);
                    }
                }
            },
            None => {
                assert forall|j: int| 0 <= j < s.len() implies s[j] != b by {
                    if j > 0 {
                        assert(s[j] == s.drop_first()[j - 1]);
                    }
                }
            },
        }
    }
}

/// A line without its trailing carriage return.
pub open spec fn strip_cr(raw: Seq<u8>) -> Seq<u8> {
    if raw.len() > 0 && raw.last() == 13 {
        raw.drop_last()
    } else {
        raw
    }
}

/// `v` without one leading space.
pub open spec fn strip_one_space(v: Seq<char>) -> Seq<char> {
    if v.len() > 0 && v[0] == ' ' {
        v.drop_first()
    } else {
        v
    }
}

/// Field name and value of an SSE line.
pub open spec fn line_field(line: Seq<char>) -> (Seq<char>, Seq<char>) {
    match index_of(line, ':') {
        Some(i) => (line.subrange(0, i), strip_one_space(line.subrange(i + 1, line.len() as int))),
        None => (line, Seq::empty()),
    }
}

/// Lines joined by line breaks.
pub open spec fn join_lines(d: Seq<Seq<char>>) -> Seq<char>
    decreases d.len(),
{
    if d.len() == 0 {
        Seq::empty()
    } else if d.len() == 1 {
        d[0]
    } else {
        join_lines(d.drop_last()) + seq!['\n'] + d.last()
    }
}

/// Emits the frame being assembled, if there is one.
pub open spec fn flush_state(st: ParserV) -> (ParserV, Option<FrameV>) {
    if st.data.len() == 0 && st.event is None {
        (st, None)
    } else {
        (ParserV { event: None, data: Seq::empty(), ..st }, Some(FrameV { event: st.event, data: join_lines(st.data) }))
    }
}

/// Effect of one complete line.
pub open spec fn apply_line(st: ParserV, line: Seq<char>) -> (ParserV, Option<FrameV>) {
    if line.len() == 0 {
        flush_state(st)
    } else if line[0] == ':' {
        (st, None)
    } else {
        let (f, v) = line_field(line);
        if f == "event"@ {
            (ParserV { event: Some(v), ..st }, None)
        } else if f == "data"@ {
            (ParserV { data: st.data.push(v), ..st }, None)
        } else {
            (st, None)
        }
    }
}

pub open spec fn opt_push(fs: Seq<FrameV>, f: Option<FrameV>) -> Seq<FrameV> {
    match f {
        Some(x) => fs.push(x),
        None => fs,
    }
}

/// Consumes every complete line of the buffer; on a line that is not UTF-8,
/// stops with that line's bytes.
pub open spec fn feed_lines(st: ParserV, frames: Seq<FrameV>) -> (ParserV, Result<Seq<FrameV>, Seq<u8>>)
    decreases st.buffer.len(),
{
    match byte_index(st.buffer, 10) {
        None => (st, Ok(frames)),
        Some(p) => if 0 <= p < st.buffer.len() {
            let line = strip_cr(st.buffer.subrange(0, p));
            let st1 = ParserV { buffer: st.buffer.subrange(p + 1, st.buffer.len() as int), ..st };
            if !valid_utf8(line) {
                (st1, Err(line))
            } else {
                let (st2, f) = apply_line(st1, decode_utf8(line));
                feed_lines(st2, opt_push(frames, f))
            }
        } else {
            (st, Ok(frames))
        },
    }
}

/// Effect of feeding `bytes` to a parser in state `st`.
pub open spec fn spec_feed(st: ParserV, bytes: Seq<u8>) -> (ParserV, Result<Seq<FrameV>, Seq<u8>>) {
    feed_lines(ParserV { buffer: st.buffer + bytes, ..st }, Seq::empty())
}

/// Effect of ending the byte stream: the unterminated rest may hold one last `data:` line.
pub open spec fn spec_finish(st: ParserV) -> (ParserV, Result<Option<FrameV>, Seq<u8>>) {
    if st.buffer.len() == 0 {
        let (s, f) = flush_state(st);
        (s, Ok(f))
    } else if !valid_utf8(st.buffer) {
        (ParserV { buffer: Seq::empty(), ..st }, Err(st.buffer))
    } else {
        let t = trimmed(decode_utf8(st.buffer));
        let data = if t.len() >= 5 && t.subrange(0, 5) == "data:"@ {
            st.data.push(trimmed_start(t.subrange(5, t.len() as int)))
        } else {
            st.data
        };
        let (s, f) = flush_state(ParserV { buffer: Seq::empty(), event: st.event, data });
        (s, Ok(f))
    }
}

/// The detail text of the UTF-8 error for `bytes`, as `std::str::Utf8Error` displays it.
pub uninterp spec fn utf8_error_text(bytes: Seq<u8>) -> Seq<char>;

/// The message of the error for a stream that is not UTF-8.
pub open spec fn utf8_error_message(bytes: Seq<u8>) -> Seq<char> {
    "upstream SSE contains invalid UTF-8: "@ + utf8_error_text(bytes)
}

/// Calls `std::str::from_utf8`; on failure hands back the error's display text.
#[verifier::external_body]
fn decode_utf8_bytes(bytes: &[u8]) -> (res: Result<String, String>)
    ensures
        match res {
            Ok(s) => valid_utf8(bytes@) && s@ == decode_utf8(bytes@),
            Err(e) => !valid_utf8(bytes@) && e@ == utf8_error_text(bytes@),
        },
{
    match std::str::from_utf8(bytes) {
        Ok(s) => Ok(s.to_owned()),
        Err(e) => Err(e.to_string()),
    }
}

/// Incremental SSE parser: splits bytes into lines, assembles `event:` and
/// `data:` fields, and emits a frame at each blank line. Chunk boundaries may
/// fall anywhere, even inside a UTF-8 character.
#[derive(Debug)]
pub struct SseParser {
    buffer: Vec<u8>,
    event: Option<String>,
    data: Vec<String>,
}

impl View for SseParser {
    type V = ParserV;

    closed spec fn view(&self) -> ParserV {
        ParserV { buffer: self.buffer@, event: ov(self.event), data: self.data@.map_values(|s: String| s@) }
    }
}

impl SseParser {
    /// A parser with nothing buffered.
    pub fn new() -> (res: SseParser)
        ensures
            res@ == (ParserV { buffer: Seq::empty(), event: None, data: Seq::empty() }),
            valid_utf8(res@.buffer),
    {
        let p = SseParser { buffer: Vec::new(), event: None, data: Vec::new() };
        assert(valid_utf8(Seq::<u8>::empty()));
        assert(p@.data =~= Seq::<Seq<char>>::empty());
        p
    }

    fn flush(&mut self) -> (res: Option<SseFrame>)
        ensures
            (final(self)@, match res {
                Some(f) => Some(f@),
                None => None,
            }) == flush_state(old(self)@),
    {
        if self.data.len() == 0 && self.event.is_none() {
            return None;
        }
        let mut joined = String::new();
        let mut i: usize = 0;
        while i < self.data.len()
            invariant
                i <= self.data.len(),
                joined@ == join_lines(self.data@.map_values(|s: String| s@).subrange(0, i as int)),
            decreases self.data.len() - i,
        {
            proof {
                reveal_strlit("\n");
            }
            let ghost d = self.data@.map_values(|s: String| s@);
            assert(d.subrange(0, i + 1).drop_last() =~= d.subrange(0, i as int));
            if i > 0 {
                joined.append("\n");
            }
            joined.append(self.data[i].as_str());
            i = i + 1;
        }
        assert(self.data@.map_values(|s: String| s@).subrange(0, self.data.len() as int) =~= self.data@.map_values(|s: String| s@));
        let event = self.event.take();
        self.data = Vec::new();
        assert(self@.data =~= Seq::<Seq<char>>::empty());
        Some(SseFrame { event, data: joined })
    }

    fn apply(&mut self, line: &str) -> (res: Option<SseFrame>)
        ensures
            (final(self)@, match res {
                Some(f) => Some(f@),
                None => None,
            }) == apply_line(old(self)@, line@),
    {
        if line.unicode_len() == 0 {
            return self.flush();
        }
        if line.get_char(0) == ':' {
            return None;
        }
        let (field, value) = match split_once(line, ':') {
            Some((f, v)) => {
                let v2 = if v.unicode_len() > 0 && v.get_char(0) == ' ' {
                    v.substring_char(1, v.unicode_len())
                } else {
                    v
                };
                (f, v2)
            },
            None => (line, line.substring_char(0, 0)),
        };
        proof {
            assert(line@.subrange(0, 0) =~= Seq::<char>::empty());
        }
        if text_eq(field, "event") {
            self.event = Some(owned(value));
        } else if text_eq(field, "data") {
            self.data.push(owned(value));
            proof {
                assert(self@.data =~= old(self)@.data.push(value@));
            }
        }
        None
    }

    /// Feeds bytes; emits the frames completed by them. A completed line that
    /// is not UTF-8 is an upstream error.
    pub fn feed_bytes(&mut self, chunk: &[u8]) -> (res: Result<Vec<SseFrame>, GatewayError>)
        ensures
            final(self)@ == spec_feed(old(self)@, chunk@).0,
            match res {
                Ok(frames) => spec_feed(old(self)@, chunk@).1 == Ok::<Seq<FrameV>, Seq<u8>>(frs(frames@)),
                Err(e) => spec_feed(old(self)@, chunk@).1 matches Err(bad) && e.kind == ErrorKind::UpstreamError
                    && e.message@ == utf8_error_message(bad) && e.protocol.is_none(),
            },
    {
        let mut k: usize = 0;
        while k < chunk.len()
            invariant
                k <= chunk.len(),
                self@ == (ParserV { buffer: old(self)@.buffer + chunk@.subrange(0, k as int), ..old(self)@ }),
            decreases chunk.len() - k,
        {
            self.buffer.push(chunk[k]);
            proof {
                assert(old(self)@.buffer + chunk@.subrange(0, k + 1) =~= (old(self)@.buffer + chunk@.subrange(0, k as int)).push(chunk@[k as int]));
            }
            k = k + 1;
        }
        assert(chunk@.subrange(0, chunk.len() as int) =~= chunk@);
        let ghost target = spec_feed(old(self)@, chunk@);
        let mut frames: Vec<SseFrame> = Vec::new();
        assert(frs(frames@) =~= Seq::<FrameV>::empty());
        loop
            invariant
                feed_lines(self@, frs(frames@)) == target,
                target == spec_feed(old(self)@, chunk@),
            decreases self@.buffer.len(),
        {
            let ghost before = self@;
            let mut pos: usize = 0;
            while pos < self.buffer.len() && self.buffer[pos] != 10u8
                invariant
                    pos <= self.buffer.len(),
                    forall|j: int| 0 <= j < pos ==> self.buffer@[j] != 10u8,
                decreases self.buffer.len() - pos,
            {
                pos = pos + 1;
            }
            proof {
                lemma_byte_index(self.buffer@, 10u8);
            }
            if pos == self.buffer.len() {
                assert(byte_index(self.buffer@, 10u8) is None) by {
                    match byte_index(self.buffer@, 10u8) {
                        Some(i) => { assert(self.buffer@[i] != 10u8); },
                        None => {},
                    }
                }
                return Ok(frames);
            }
            assert(byte_index(self.buffer@, 10u8) == Some(pos as int)) by {
                match byte_index(self.buffer@, 10u8) {
                    Some(i) => {
                        if i < pos { assert(self.buffer@[i] != 10u8); }
                        if i > pos { assert(self.buffer@[pos as int] != 10u8); }
                    },
                    None => { assert(self.buffer@[pos as int] != 10u8); },
                }
            }
            let mut line = self.buffer.split_off(pos + 1);
            std::mem::swap(&mut line, &mut self.buffer);
            line.pop();
            if line.len() > 0 && line[line.len() - 1] == 13u8 {
                line.pop();
            }
            assert(line@ =~= strip_cr(before.buffer.subrange(0, pos as int)));
            match decode_utf8_bytes(line.as_slice()) {
                Err(detail) => {
                    let msg = concat("upstream SSE contains invalid UTF-8: ", detail.as_str());
                    return Err(GatewayError::new(ErrorKind::UpstreamError, msg));
                },
                Ok(text) => {
                    let f = self.apply(text.as_str());
                    let ghost fr0 = frames@;
                    if let Some(frame) = f {
                        let ghost fv = frame@;
                        frames.push(frame);
                        proof {
                            assert(frs(frames@) =~= frs(fr0).push(fv));
                        }
                    }
                },
            }
        }
    }

    /// Feeds text; emits the frames it completes.
    pub fn feed(&mut self, chunk: &str) -> (res: Vec<SseFrame>)
        requires
            valid_utf8(old(self)@.buffer),
        ensures
            final(self)@ == spec_feed(old(self)@, encode_utf8(chunk@)).0,
            spec_feed(old(self)@, encode_utf8(chunk@)).1 == Ok::<Seq<FrameV>, Seq<u8>>(frs(res@)),
            valid_utf8(final(self)@.buffer),
    {
        proof {
            law_text_feeding_stays_utf8(old(self)@, chunk@);
        }
        match self.feed_bytes(chunk.as_bytes()) {
            Ok(frames) => frames,
            Err(_) => Vec::new(),
        }
    }

    /// Ends the byte stream and emits the last, unterminated frame if any.
    pub fn finish_bytes(&mut self) -> (res: Result<Option<SseFrame>, GatewayError>)
        ensures
            final(self)@ == spec_finish(old(self)@).0,
            match res {
                Ok(f) => spec_finish(old(self)@).1 == Ok::<Option<FrameV>, Seq<u8>>(match f {
                    Some(x) => Some(x@),
                    None => None,
                }),
                Err(e) => spec_finish(old(self)@).1 matches Err(bad) && e.kind == ErrorKind::UpstreamError
                    && e.message@ == utf8_error_message(bad) && e.protocol.is_none(),
            },
    {
        if self.buffer.len() > 0 {
            let mut rest: Vec<u8> = Vec::new();
            std::mem::swap(&mut rest, &mut self.buffer);
            match decode_utf8_bytes(rest.as_slice()) {
                Err(detail) => {
                    let msg = concat("upstream SSE contains invalid UTF-8: ", detail.as_str());
                    return Err(GatewayError::new(ErrorKind::UpstreamError, msg));
                },
                Ok(text) => {
                    let t = trim(text.as_str());
                    proof {
                        reveal_strlit("data:");
                    }
                    if starts_with(t, "data:") {
                        let value = trim_start(t.substring_char(5, t.unicode_len()));
                        self.data.push(owned(value));
                        proof {
                            assert(self@.data =~= old(self)@.data.push(value@));
                        }
                    }
                },
            }
        }
        Ok(self.flush())
    }

    /// Ends the text stream and emits the last, unterminated frame if any.
    pub fn finish(&mut self) -> (res: Option<SseFrame>)
        requires
            valid_utf8(old(self)@.buffer),
        ensures
            final(self)@ == spec_finish(old(self)@).0,
            final(self)@ == fresh_parser(),
            spec_finish(old(self)@).1 == Ok::<Option<FrameV>, Seq<u8>>(match res {
                Some(x) => Some(x@),
                None => None,
            }),
    {
        proof {
            law_text_feeding_stays_utf8(old(self)@, Seq::empty());
        }
        match self.finish_bytes() {
            Ok(f) => f,
            Err(_) => None,
        }
    }
}

/// The accumulated content of one block.
#[derive(Debug)]
enum BlockAccum {
    Text(String),
    Thinking { text: String, signature: Option<String> },
    ToolUse { id: String, name: String, args: String, signature: Option<String> },
    Refusal(String),
}

/// Model of an accumulated block.
pub enum BlockV {
    Text(Seq<char>),
    Thinking { text: Seq<char>, signature: Option<Seq<char>> },
    ToolUse { id: Seq<char>, name: Seq<char>, args: Seq<char>, signature: Option<Seq<char>> },
    Refusal(Seq<char>),
}

impl View for BlockAccum {
    type V = BlockV;

    closed spec fn view(&self) -> BlockV {
        match self {
            BlockAccum::Text(t) => BlockV::Text(t@),
            BlockAccum::Thinking { text, signature } => BlockV::Thinking { text: text@, signature: ov(*signature) },
            BlockAccum::ToolUse { id, name, args, signature } => BlockV::ToolUse { id: id@, name: name@, args: args@, signature: ov(*signature) },
            BlockAccum::Refusal(t) => BlockV::Refusal(t@),
        }
    }
}

/// Model of an aggregator.
pub struct AggV {
    pub id: Seq<char>,
    pub model: Seq<char>,
    pub stop_reason: Option<StopReason>,
    pub stop_sequence: Option<Seq<char>>,
    pub usage: Usage,
    /// Blocks in order of first appearance, each with its block index.
    pub blocks: Seq<(u32, BlockV)>,
}

/// An empty block of the given kind.
pub open spec fn fresh_block(kind: PartKind) -> BlockV {
    match kind {
        PartKind::Text => BlockV::Text(Seq::empty()),
        PartKind::Thinking => BlockV::Thinking { text: Seq::empty(), signature: None },
        PartKind::ToolUse => BlockV::ToolUse { id: Seq::empty(), name: Seq::empty(), args: Seq::empty(), signature: None },
        PartKind::Refusal => BlockV::Refusal(Seq::empty()),
    }
}

/// Whether a block is of the given kind.
pub open spec fn block_kind_is(b: BlockV, kind: PartKind) -> bool {
    match kind {
        PartKind::Text => b is Text,
        PartKind::Thinking => b is Thinking,
        PartKind::ToolUse => b is ToolUse,
        PartKind::Refusal => b is Refusal,
    }
}

/// Position of the first block with this index and kind.
pub open spec fn find_block(blocks: Seq<(u32, BlockV)>, index: u32, kind: PartKind) -> Option<int>
    decreases blocks.len(),
{
    if blocks.len() == 0 {
        None
    } else if blocks[0].0 == index && block_kind_is(blocks[0].1, kind) {
        Some(0)
    } else {
        match find_block(blocks.drop_first(), index, kind) {
            Some(i) => Some(i + 1),
            None => None,
        }
    }
}

pub proof fn lemma_find_block(blocks: Seq<(u32, BlockV)>, index: u32, kind: PartKind)
    ensures
        match find_block(blocks, index, kind) {
            Some(i) => 0 <= i < blocks.len() && blocks[i].0 == index && block_kind_is(blocks[i].1, kind),
            None => forall|j: int| 0 <= j < blocks.len() ==> !(blocks[j].0 == index && block_kind_is(#[trigger] blocks[j].1, kind)),
        },
    decreases blocks.len(),
{
    if blocks.len() > 0 && !(blocks[0].0 == index && block_kind_is(blocks[0].1, kind)) {
        lemma_find_block(blocks.drop_first(), index, kind);
        if find_block(blocks.drop_first(), index, kind) is None {
            assert forall|j: int| 0 <= j < blocks.len() implies !(blocks[j].0 == index && block_kind_is(#[trigger] blocks[j].1, kind)) by {
                if j > 0 {
                    assert(blocks[j] == blocks.drop_first()[j - 1]);
                }
            }
        }
    }
}

/// The blocks with the `(index, kind)` block present, and its position.
pub open spec fn ensure_block(blocks: Seq<(u32, BlockV)>, index: u32, kind: PartKind) -> (Seq<(u32, BlockV)>, int) {
    match find_block(blocks, index, kind) {
        Some(p) => (blocks, p),
        None => (blocks.push((index, fresh_block(kind))), blocks.len() as int),
    }
}

/// Applies `f` to the `(index, kind)` block, creating it first when missing.
pub open spec fn with_block(blocks: Seq<(u32, BlockV)>, index: u32, kind: PartKind, f: spec_fn(BlockV) -> BlockV) -> Seq<(u32, BlockV)> {
    let (b, p) = ensure_block(blocks, index, kind);
    b.update(p, (index, f(b[p].1)))
}

/// Effect of one event on an aggregator.
pub open spec fn spec_absorb(st: AggV, ev: EventV) -> AggV {
    match ev {
        EventV::Start { id, model, usage } => AggV {
            id,
            model,
            usage: match usage {
                Some(u) => usage_max(st.usage, u),
                None => st.usage,
            },
            ..st
        },
        EventV::ContentStart { index, kind } => AggV { blocks: ensure_block(st.blocks, index, kind).0, ..st },
        EventV::TextDelta { index, text } => AggV {
            blocks: with_block(st.blocks, index, PartKind::Text, |b: BlockV| match b {
                BlockV::Text(t) => BlockV::Text(t + text),
                other => other,
            }),
            ..st
        },
        EventV::ThinkingDelta { index, text } => AggV {
            blocks: with_block(st.blocks, index, PartKind::Thinking, |b: BlockV| match b {
                BlockV::Thinking { text: t, signature } => BlockV::Thinking { text: t + text, signature },
                other => other,
            }),
            ..st
        },
        EventV::ThinkingSignature { index, signature } => AggV {
            blocks: with_block(st.blocks, index, PartKind::Thinking, |b: BlockV| match b {
                BlockV::Thinking { text, .. } => BlockV::Thinking { text, signature: Some(signature) },
                other => other,
            }),
            ..st
        },
        EventV::RefusalDelta { index, text } => AggV {
            blocks: with_block(st.blocks, index, PartKind::Refusal, |b: BlockV| match b {
                BlockV::Refusal(t) => BlockV::Refusal(t + text),
                other => other,
            }),
            ..st
        },
        EventV::ToolCallStart { index, id, name, signature } => AggV {
            blocks: with_block(st.blocks, index, PartKind::ToolUse, |b: BlockV| match b {
                BlockV::ToolUse { id: i0, name: n0, args, signature: s0 } => BlockV::ToolUse {
                    id: if id.len() > 0 { id } else { i0 },
                    name: if name.len() > 0 { name } else { n0 },
                    args,
                    signature: if signature is Some { signature } else { s0 },
                },
                other => other,
            }),
            ..st
        },
        EventV::ToolCallArgsDelta { index, fragment } => AggV {
            blocks: with_block(st.blocks, index, PartKind::ToolUse, |b: BlockV| match b {
                BlockV::ToolUse { id, name, args, signature } => BlockV::ToolUse { id, name, args: args + fragment, signature },
                other => other,
            }),
            ..st
        },
        EventV::Usage(u) => AggV { usage: usage_max(st.usage, u), ..st },
        EventV::Stop { reason, stop_sequence } => AggV {
            stop_reason: Some(reason),
            stop_sequence: if stop_sequence is Some { stop_sequence } else { st.stop_sequence },
            ..st
        },
        _ => st,
    }
}

/// `s` with `x` placed after every element whose index is not above its own.
pub open spec fn insert_by_index(s: Seq<(u32, BlockV)>, x: (u32, BlockV)) -> Seq<(u32, BlockV)>
    decreases s.len(),
{
    if s.len() == 0 || s.last().0 <= x.0 {
        s.push(x)
    } else {
        insert_by_index(s.drop_last(), x).push(s.last())
    }
}

/// Stable sort of blocks by index.
pub open spec fn sort_by_index(s: Seq<(u32, BlockV)>) -> Seq<(u32, BlockV)>
    decreases s.len(),
{
    if s.len() == 0 {
        s
    } else {
        insert_by_index(sort_by_index(s.drop_last()), s.last())
    }
}

/// The input of a tool call whose argument text is `args`: `{}` when blank,
/// the parsed value when it is JSON, else the raw text.
pub open spec fn tool_input(args: Seq<char>) -> JsonV {
    if trimmed(args).len() == 0 {
        JsonV::Object(Seq::empty())
    } else {
        match json_parse(args) {
            Some(j) => j,
            None => JsonV::Str(args),
        }
    }
}

/// The content part a block becomes, `None` for an empty text-like block.
pub open spec fn block_part(b: BlockV) -> Option<PartV> {
    match b {
        BlockV::Text(t) => if t.len() == 0 { None } else { Some(PartV::Text { text: t }) },
        BlockV::Thinking { text, signature } => if text.len() == 0 && signature is None {
            None
        } else {
            Some(PartV::Thinking { text, signature })
        },
        BlockV::ToolUse { id, name, args, signature } => Some(PartV::ToolUse { id, name, input: tool_input(args), signature }),
        BlockV::Refusal(t) => if t.len() == 0 { None } else { Some(PartV::Refusal { text: t }) },
    }
}

/// The content parts of a run of blocks, empty blocks dropped.
pub open spec fn blocks_content(s: Seq<(u32, BlockV)>) -> Seq<PartV>
    decreases s.len(),
{
    if s.len() == 0 {
        Seq::empty()
    } else {
        let acc = blocks_content(s.drop_last());
        match block_part(s.last().1) {
            Some(p) => acc.push(p),
            None => acc,
        }
    }
}

/// Turns upstream SSE frames into IR events. Stateful: one per upstream stream. Codecs of
/// further protocols implement it too.
pub trait StreamDecoder: Send {
    /// Decodes one frame into zero or more events.
    fn decode(&mut self, frame: &SseFrame) -> Result<Vec<StreamEvent>, GatewayError>;

    /// Ends the stream with the events still owed.
    fn finish(&mut self) -> Result<Vec<StreamEvent>, GatewayError> {
        Ok(Vec::new())
    }
}

/// Turns IR events into the SSE frames a client expects, adding the ceremony events its
/// protocol requires. Stateful: one per client stream.
pub trait StreamEncoder: Send {
    /// Encodes one event into zero or more frames.
    fn encode(&mut self, event: &StreamEvent) -> Result<Vec<SseFrame>, GatewayError>;

    /// Ends the stream with the frames still owed.
    fn finish(&mut self) -> Result<Vec<SseFrame>, GatewayError> {
        Ok(Vec::new())
    }
}

/// Accumulates stream events back into a complete response: blocks are kept
/// per `(index, kind)` so that reasoning and text sharing an index both survive.
#[derive(Debug)]
pub struct StreamAggregator {
    /// Response id.
    pub id: String,
    /// Model name.
    pub model: String,
    /// Why generation stopped.
    pub stop_reason: Option<StopReason>,
    /// The stop sequence that matched.
    pub stop_sequence: Option<String>,
    /// Accumulated usage (field-wise maximum).
    pub usage: Usage,
    /// Blocks seen so far, in order of first appearance.
    blocks: Vec<(u32, BlockAccum)>,
}

impl View for StreamAggregator {
    type V = AggV;

    closed spec fn view(&self) -> AggV {
        AggV {
            id: self.id@,
            model: self.model@,
            stop_reason: self.stop_reason,
            stop_sequence: ov(self.stop_sequence),
            usage: self.usage,
            blocks: self.blocks@.map_values(|b: (u32, BlockAccum)| (b.0, b.1@)),
        }
    }
}

fn fresh_accum(kind: PartKind) -> (res: BlockAccum)
    ensures
        res@ == fresh_block(kind),
{
    match kind {
        PartKind::Text => BlockAccum::Text(String::new()),
        PartKind::Thinking => BlockAccum::Thinking { text: String::new(), signature: None },
        PartKind::ToolUse => BlockAccum::ToolUse { id: String::new(), name: String::new(), args: String::new(), signature: None },
        PartKind::Refusal => BlockAccum::Refusal(String::new()),
    }
}

fn accum_kind_is(b: &BlockAccum, kind: PartKind) -> (res: bool)
    ensures
        res == block_kind_is(b@, kind),
{
    match (b, kind) {
        (BlockAccum::Text(_), PartKind::Text) => true,
        (BlockAccum::Thinking { .. }, PartKind::Thinking) => true,
        (BlockAccum::ToolUse { .. }, PartKind::ToolUse) => true,
        (BlockAccum::Refusal(_), PartKind::Refusal) => true,
        _ => false,
    }
}

impl StreamAggregator {
    /// The response id absorbed so far (the public field `id`).
    pub fn id(&self) -> (res: &str)
        ensures
            res@ == self@.id,
    {
        self.id.as_str()
    }

    /// The model name absorbed so far (the public field `model`).
    pub fn model(&self) -> (res: &str)
        ensures
            res@ == self@.model,
    {
        self.model.as_str()
    }

    /// The stop reason absorbed so far (the public field `stop_reason`).
    pub fn stop_reason(&self) -> (res: Option<StopReason>)
        ensures
            res == self@.stop_reason,
    {
        self.stop_reason
    }

    /// The stop sequence absorbed so far (the public field `stop_sequence`).
    pub fn stop_sequence(&self) -> (res: Option<&str>)
        ensures
            match res {
                Some(s) => self@.stop_sequence == Some(s@),
                None => self@.stop_sequence is None,
            },
    {
        match &self.stop_sequence {
            Some(s) => Some(s.as_str()),
            None => None,
        }
    }

    /// The usage absorbed so far, field-wise maximum (the public field `usage`).
    pub fn usage(&self) -> (res: Usage)
        ensures
            res == self@.usage,
    {
        self.usage
    }

    /// An aggregator that has seen nothing.
    pub fn new() -> (res: StreamAggregator)
        ensures
            res@ == initial_agg(),
    {
        let a = StreamAggregator {
            id: String::new(),
            model: String::new(),
            stop_reason: None,
            stop_sequence: None,
            usage: Usage::zero(),
            blocks: Vec::new(),
        };
        assert(a@.blocks =~= Seq::<(u32, BlockV)>::empty());
        a
    }

    fn find(&self, index: u32, kind: PartKind) -> (res: Option<usize>)
        ensures
            match res {
                Some(p) => find_block(self@.blocks, index, kind) == Some(p as int),
                None => find_block(self@.blocks, index, kind) is None,
            },
    {
        let ghost bs = self@.blocks;
        let mut i: usize = 0;
        assert(bs.subrange(0, bs.len() as int) =~= bs);
        while i < self.blocks.len()
            invariant
                i <= self.blocks.len(),
                bs == self@.blocks,
                bs.len() == self.blocks.len(),
                find_block(bs, index, kind) == (match find_block(bs.subrange(i as int, bs.len() as int), index, kind) {
                    Some(k) => Some(k + i),
                    None => None,
                }),
            decreases self.blocks.len() - i,
        {
            let ghost rest = bs.subrange(i as int, bs.len() as int);
            assert(rest.drop_first() =~= bs.subrange(i + 1, bs.len() as int));
            assert(rest[0] == bs[i as int]);
            if self.blocks[i].0 == index && accum_kind_is(&self.blocks[i].1, kind) {
                return Some(i);
            }
            i = i + 1;
        }
        None
    }

    fn ensure(&mut self, index: u32, kind: PartKind) -> (res: usize)
        ensures
            final(self)@ == (AggV { blocks: ensure_block(old(self)@.blocks, index, kind).0, ..old(self)@ }),
            res as int == ensure_block(old(self)@.blocks, index, kind).1,
            res < final(self).blocks@.len(),
            final(self).blocks@[res as int].0 == index,
            block_kind_is(final(self).blocks@[res as int].1@, kind),
    {
        proof {
            lemma_find_block(self@.blocks, index, kind);
        }
        match self.find(index, kind) {
            Some(p) => p,
            None => {
                let b = fresh_accum(kind);
                self.blocks.push((index, b));
                proof {
                    assert(self@.blocks =~= old(self)@.blocks.push((index, fresh_block(kind))));
                }
                self.blocks.len() - 1
            },
        }
    }

    /// Absorbs one event.
    pub fn absorb(&mut self, event: &StreamEvent)
        ensures
            final(self)@ == spec_absorb(old(self)@, event@),
    {
        match event {
            StreamEvent::Start { id, model, usage } => {
                self.id = owned(id.as_str());
                self.model = owned(model.as_str());
                if let Some(u) = usage {
                    self.usage.merge_max(u);
                }
            },
            StreamEvent::ContentStart { index, kind } => {
                self.ensure(*index, *kind);
            },
            StreamEvent::TextDelta { index, text } => {
                let p = self.ensure(*index, PartKind::Text);
                let ghost mid = self@;
                if let BlockAccum::Text(buf) = &mut self.blocks[p].1 {
                    buf.append(text.as_str());
                }
                proof {
                    assert(self@.blocks =~= with_block(old(self)@.blocks, *index, PartKind::Text, |b: BlockV| match b {
                        BlockV::Text(t) => BlockV::Text(t + text@),
                        other => other,
                    }));
                }
            },
            StreamEvent::ThinkingDelta { index, text } => {
                let p = self.ensure(*index, PartKind::Thinking);
                if let BlockAccum::Thinking { text: buf, .. } = &mut self.blocks[p].1 {
                    buf.append(text.as_str());
                }
                proof {
                    assert(self@.blocks =~= with_block(old(self)@.blocks, *index, PartKind::Thinking, |b: BlockV| match b {
                        BlockV::Thinking { text: t, signature } => BlockV::Thinking { text: t + text@, signature },
                        other => other,
                    }));
                }
            },
            StreamEvent::ThinkingSignature { index, signature } => {
                let p = self.ensure(*index, PartKind::Thinking);
                if let BlockAccum::Thinking { signature: sig, .. } = &mut self.blocks[p].1 {
                    *sig = Some(owned(signature.as_str()));
                }
                proof {
                    assert(self@.blocks =~= with_block(old(self)@.blocks, *index, PartKind::Thinking, |b: BlockV| match b {
                        BlockV::Thinking { text, .. } => BlockV::Thinking { text, signature: Some(signature@) },
                        other => other,
                    }));
                }
            },
            StreamEvent::RefusalDelta { index, text } => {
                let p = self.ensure(*index, PartKind::Refusal);
                if let BlockAccum::Refusal(buf) = &mut self.blocks[p].1 {
                    buf.append(text.as_str());
                }
                proof {
                    assert(self@.blocks =~= with_block(old(self)@.blocks, *index, PartKind::Refusal, |b: BlockV| match b {
                        BlockV::Refusal(t) => BlockV::Refusal(t + text@),
                        other => other,
                    }));
                }
            },
            StreamEvent::ToolCallStart { index, id, name, signature } => {
                let p = self.ensure(*index, PartKind::ToolUse);
                if let BlockAccum::ToolUse { id: slot_id, name: slot_name, signature: slot_sig, .. } = &mut self.blocks[p].1 {
                    if id.as_str().unicode_len() > 0 {
                        *slot_id = owned(id.as_str());
                    }
                    if name.as_str().unicode_len() > 0 {
                        *slot_name = owned(name.as_str());
                    }
                    if signature.is_some() {
                        *slot_sig = dup_opt(signature);
                    }
                }
                proof {
                    assert(self@.blocks =~= with_block(old(self)@.blocks, *index, PartKind::ToolUse, |b: BlockV| match b {
                        BlockV::ToolUse { id: i0, name: n0, args, signature: s0 } => BlockV::ToolUse {
                            id: if id@.len() > 0 { id@ } else { i0 },
                            name: if name@.len() > 0 { name@ } else { n0 },
                            args,
                            signature: if ov(*signature) is Some { ov(*signature) } else { s0 },
                        },
                        other => other,
                    }));
                }
            },
            StreamEvent::ToolCallArgsDelta { index, fragment } => {
                let p = self.ensure(*index, PartKind::ToolUse);
                if let BlockAccum::ToolUse { args, .. } = &mut self.blocks[p].1 {
                    args.append(fragment.as_str());
                }
                proof {
                    assert(self@.blocks =~= with_block(old(self)@.blocks, *index, PartKind::ToolUse, |b: BlockV| match b {
                        BlockV::ToolUse { id, name, args, signature } => BlockV::ToolUse { id, name, args: args + fragment@, signature },
                        other => other,
                    }));
                }
            },
            StreamEvent::Usage(u) => {
                self.usage.merge_max(u);
            },
            StreamEvent::Stop { reason, stop_sequence } => {
                self.stop_reason = Some(*reason);
                if stop_sequence.is_some() {
                    self.stop_sequence = dup_opt(stop_sequence);
                }
            },
            _ => {},
        }
    }
}

/// Model of a vector of blocks.
pub open spec fn bvs(v: Seq<(u32, BlockAccum)>) -> Seq<(u32, BlockV)> {
    v.map_values(|b: (u32, BlockAccum)| (b.0, b.1@))
}

pub proof fn lemma_insert_by_index_split(s: Seq<(u32, BlockV)>, x: (u32, BlockV), j: int)
    requires
        0 <= j <= s.len(),
        forall|k: int| j <= k < s.len() ==> (#[trigger] s[k]).0 > x.0,
        j == 0 || s[j - 1].0 <= x.0,
    ensures
        insert_by_index(s, x) == s.insert(j, x),
    decreases s.len(),
{
    if s.len() == j {
        assert(s.insert(j, x) =~= s.push(x));
    } else {
        lemma_insert_by_index_split(s.drop_last(), x, j);
        assert(s.insert(j, x) =~= s.drop_last().insert(j, x).push(s.last()));
    }
}

/// The blocks of `s` with block index `v`, in order.
pub open spec fn at_index(s: Seq<(u32, BlockV)>, v: u32) -> Seq<(u32, BlockV)>
    decreases s.len(),
{
    if s.len() == 0 {
        s
    } else if s.last().0 == v {
        at_index(s.drop_last(), v).push(s.last())
    } else {
        at_index(s.drop_last(), v)
    }
}

/// Blocks in non-decreasing index order.
pub open spec fn index_sorted(s: Seq<(u32, BlockV)>) -> bool {
    forall|i: int, j: int| 0 <= i < j < s.len() ==> s[i].0 <= s[j].0
}

#[verifier::spinoff_prover]
#[verifier::rlimit(30)]
proof fn lemma_insert_by_index_order(s: Seq<(u32, BlockV)>, x: (u32, BlockV))
    requires
        index_sorted(s),
    ensures
        index_sorted(insert_by_index(s, x)),
        insert_by_index(s, x).len() == s.len() + 1,
        forall|i: int| 0 <= i < s.len() + 1 ==> insert_by_index(s, x)[i].0
            <= (if s.len() > 0 && s.last().0 > x.0 { s.last().0 } else { x.0 }),
        forall|v: u32| #[trigger] at_index(insert_by_index(s, x), v)
            == (if x.0 == v { at_index(s, v).push(x) } else { at_index(s, v) }),
    decreases s.len(),
{
    if s.len() == 0 || s.last().0 <= x.0 {
        let r = s.push(x);
        assert(r.drop_last() =~= s);
        assert forall|i: int, j: int| 0 <= i < j < r.len() implies r[i].0 <= r[j].0 by {
            if j == s.len() {
                if s.len() > 0 {
                    assert(s[i].0 <= s[s.len() - 1].0);
                }
            }
        }
        assert forall|i: int| 0 <= i < s.len() + 1 implies r[i].0
            <= (if s.len() > 0 && s.last().0 > x.0 { s.last().0 } else { x.0 }) by {
            if i < s.len() {
                assert(s[i].0 <= s[s.len() - 1].0);
            }
        }
    } else {
        let d = s.drop_last();
        assert forall|i: int, j: int| 0 <= i < j < d.len() implies d[i].0 <= d[j].0 by {
            assert(d[i] == s[i]);
            assert(d[j] == s[j]);
        }
        lemma_insert_by_index_order(d, x);
        let r0 = insert_by_index(d, x);
        let r = r0.push(s.last());
        assert(r.drop_last() =~= r0);
        if d.len() > 0 {
            assert(d.last().0 <= s.last().0) by {
                assert(d.last() == s[s.len() - 2]);
            }
        }
        assert forall|i: int, j: int| 0 <= i < j < r.len() implies r[i].0 <= r[j].0 by {
            if j == r0.len() {
                assert(r[i] == r0[i]);
            } else {
                assert(r[i] == r0[i]);
                assert(r[j] == r0[j]);
            }
        }
        assert forall|i: int| 0 <= i < s.len() + 1 implies r[i].0
            <= (if s.len() > 0 && s.last().0 > x.0 { s.last().0 } else { x.0 }) by {
            if i < r0.len() {
                assert(r[i] == r0[i]);
            }
        }
        assert forall|v: u32| #[trigger] at_index(r, v)
            == (if x.0 == v { at_index(s, v).push(x) } else { at_index(s, v) }) by {
            assert(at_index(r0, v) == (if x.0 == v { at_index(d, v).push(x) } else { at_index(d, v) }));
            if x.0 == v {
                assert(s.last().0 != v);
            }
        }
    }
}

proof fn lemma_sort_by_index_order(s: Seq<(u32, BlockV)>)
    ensures
        index_sorted(sort_by_index(s)),
        sort_by_index(s).len() == s.len(),
        forall|v: u32| #[trigger] at_index(sort_by_index(s), v) == at_index(s, v),
    decreases s.len(),
{
    if s.len() > 0 {
        lemma_sort_by_index_order(s.drop_last());
        lemma_insert_by_index_order(sort_by_index(s.drop_last()), s.last());
        assert forall|v: u32| #[trigger] at_index(sort_by_index(s), v) == at_index(s, v) by {
            assert(at_index(sort_by_index(s.drop_last()), v) == at_index(s.drop_last(), v));
        }
    }
}

/// The aggregated content is ordered by block index, and blocks that share an index keep
/// the order in which they first appeared: the blocks behind `into_content` are sorted by
/// index and, index by index, are the aggregator's blocks in the same order.
pub proof fn law_content_order(s: Seq<(u32, BlockV)>)
    ensures
        index_sorted(sort_by_index(s)),
        sort_by_index(s).len() == s.len(),
        forall|v: u32| #[trigger] at_index(sort_by_index(s), v) == at_index(s, v),
{
    lemma_sort_by_index_order(s);
}

/// The kind of a block.
pub open spec fn kind_of(b: BlockV) -> PartKind {
    match b {
        BlockV::Text(_) => PartKind::Text,
        BlockV::Thinking { .. } => PartKind::Thinking,
        BlockV::ToolUse { .. } => PartKind::ToolUse,
        BlockV::Refusal(_) => PartKind::Refusal,
    }
}

/// No two blocks share both index and kind.
pub open spec fn blocks_distinct(s: Seq<(u32, BlockV)>) -> bool {
    forall|i: int, j: int| 0 <= i < j < s.len() ==> !(s[i].0 == s[j].0 && kind_of(s[i].1) == kind_of(s[j].1))
}

/// The block, by index and kind, that an event writes to.
pub open spec fn event_block(ev: EventV) -> Option<(u32, PartKind)> {
    match ev {
        EventV::ContentStart { index, kind } => Some((index, kind)),
        EventV::TextDelta { index, .. } => Some((index, PartKind::Text)),
        EventV::ThinkingDelta { index, .. } => Some((index, PartKind::Thinking)),
        EventV::ThinkingSignature { index, .. } => Some((index, PartKind::Thinking)),
        EventV::RefusalDelta { index, .. } => Some((index, PartKind::Refusal)),
        EventV::ToolCallStart { index, .. } => Some((index, PartKind::ToolUse)),
        EventV::ToolCallArgsDelta { index, .. } => Some((index, PartKind::ToolUse)),
        _ => None,
    }
}

/// `nb` keeps every block of `bs` in place with its index and kind, and adds at the end
/// only a block for the pair `key` when `bs` had none.
pub open spec fn appends_first_appearance(bs: Seq<(u32, BlockV)>, nb: Seq<(u32, BlockV)>, key: Option<(u32, PartKind)>) -> bool {
    &&& forall|i: int| 0 <= i < bs.len() ==> (#[trigger] nb[i]).0 == bs[i].0 && kind_of(nb[i].1) == kind_of(bs[i].1)
    &&& match key {
        Some((k, kd)) => if find_block(bs, k, kd) is None {
            nb.len() == bs.len() + 1 && nb.last().0 == k && kind_of(nb.last().1) == kd
        } else {
            nb.len() == bs.len()
        },
        None => nb == bs,
    }
}

proof fn lemma_ensure_block_appends(bs: Seq<(u32, BlockV)>, index: u32, kind: PartKind)
    requires
        blocks_distinct(bs),
    ensures
        blocks_distinct(ensure_block(bs, index, kind).0),
        appends_first_appearance(bs, ensure_block(bs, index, kind).0, Some((index, kind))),
        0 <= ensure_block(bs, index, kind).1 < ensure_block(bs, index, kind).0.len(),
        ensure_block(bs, index, kind).0[ensure_block(bs, index, kind).1].0 == index,
        kind_of(ensure_block(bs, index, kind).0[ensure_block(bs, index, kind).1].1) == kind,
{
    lemma_find_block(bs, index, kind);
    let nb = ensure_block(bs, index, kind).0;
    match find_block(bs, index, kind) {
        Some(p) => {},
        None => {
            assert forall|i: int, j: int| 0 <= i < j < nb.len() implies !(nb[i].0 == nb[j].0 && kind_of(nb[i].1) == kind_of(nb[j].1)) by {
                if j == bs.len() {
                    assert(nb[i] == bs[i]);
                    assert(!(bs[i].0 == index && block_kind_is(bs[i].1, kind)));
                }
            }
            assert forall|i: int| 0 <= i < bs.len() implies (#[trigger] nb[i]).0 == bs[i].0 && kind_of(nb[i].1) == kind_of(bs[i].1) by {
                assert(nb[i] == bs[i]);
            }
        },
    }
}

#[verifier::spinoff_prover]
#[verifier::rlimit(30)]
proof fn lemma_with_block_appends(bs: Seq<(u32, BlockV)>, index: u32, kind: PartKind, f: spec_fn(BlockV) -> BlockV)
    requires
        blocks_distinct(bs),
        forall|b: BlockV| kind_of(b) == kind ==> #[trigger] kind_of(f(b)) == kind,
    ensures
        blocks_distinct(with_block(bs, index, kind, f)),
        appends_first_appearance(bs, with_block(bs, index, kind, f), Some((index, kind))),
{
    lemma_ensure_block_appends(bs, index, kind);
    let (b, p) = ensure_block(bs, index, kind);
    let nb = with_block(bs, index, kind, f);
    assert(kind_of(f(b[p].1)) == kind);
    assert forall|i: int| 0 <= i < b.len() implies nb[i].0 == b[i].0 && kind_of(nb[i].1) == kind_of(b[i].1) by {
        if i == p {
            assert(nb[i] == (index, f(b[p].1)));
        }
    }
    assert forall|i: int, j: int| 0 <= i < j < nb.len() implies !(nb[i].0 == nb[j].0 && kind_of(nb[i].1) == kind_of(nb[j].1)) by {
        assert(nb[i].0 == b[i].0 && kind_of(nb[i].1) == kind_of(b[i].1));
        assert(nb[j].0 == b[j].0 && kind_of(nb[j].1) == kind_of(b[j].1));
    }
    assert forall|i: int| 0 <= i < bs.len() implies (#[trigger] nb[i]).0 == bs[i].0 && kind_of(nb[i].1) == kind_of(bs[i].1) by {
        assert(nb[i].0 == b[i].0 && kind_of(nb[i].1) == kind_of(b[i].1));
    }
    if find_block(bs, index, kind) is None {
        assert(nb.last() == nb[bs.len() as int]);
    }
}

/// The aggregator keeps one block per (index, kind) pair, in order of first appearance:
/// absorbing an event leaves every block in place with its index and kind, and adds a block
/// at the end only for the pair the event writes to when there was none yet.
#[verifier::spinoff_prover]
#[verifier::rlimit(30)]
pub proof fn law_absorb_first_appearance(st: AggV, ev: EventV)
    requires
        blocks_distinct(st.blocks),
    ensures
        blocks_distinct(spec_absorb(st, ev).blocks),
        appends_first_appearance(st.blocks, spec_absorb(st, ev).blocks, event_block(ev)),
{
    match ev {
        EventV::ContentStart { index, kind } => lemma_ensure_block_appends(st.blocks, index, kind),
        EventV::TextDelta { index, text } => lemma_with_block_appends(st.blocks, index, PartKind::Text, |b: BlockV| match b {
            BlockV::Text(t) => BlockV::Text(t + text),
            other => other,
        }),
        EventV::ThinkingDelta { index, text } => lemma_with_block_appends(st.blocks, index, PartKind::Thinking, |b: BlockV| match b {
            BlockV::Thinking { text: t, signature } => BlockV::Thinking { text: t + text, signature },
            other => other,
        }),
        EventV::ThinkingSignature { index, signature } => lemma_with_block_appends(st.blocks, index, PartKind::Thinking, |b: BlockV| match b {
            BlockV::Thinking { text, .. } => BlockV::Thinking { text, signature: Some(signature) },
            other => other,
        }),
        EventV::RefusalDelta { index, text } => lemma_with_block_appends(st.blocks, index, PartKind::Refusal, |b: BlockV| match b {
            BlockV::Refusal(t) => BlockV::Refusal(t + text),
            other => other,
        }),
        EventV::ToolCallStart { index, id, name, signature } => lemma_with_block_appends(st.blocks, index, PartKind::ToolUse, |b: BlockV| match b {
            BlockV::ToolUse { id: i0, name: n0, args, signature: s0 } => BlockV::ToolUse {
                id: if id.len() > 0 { id } else { i0 },
                name: if name.len() > 0 { name } else { n0 },
                args,
                signature: if signature is Some { signature } else { s0 },
            },
            other => other,
        }),
        EventV::ToolCallArgsDelta { index, fragment } => lemma_with_block_appends(st.blocks, index, PartKind::ToolUse, |b: BlockV| match b {
            BlockV::ToolUse { id, name, args, signature } => BlockV::ToolUse { id, name, args: args + fragment, signature },
            other => other,
        }),
        _ => {},
    }
}

/// The aggregator before any event.
pub open spec fn initial_agg() -> AggV {
    AggV {
        id: Seq::empty(),
        model: Seq::empty(),
        stop_reason: None,
        stop_sequence: None,
        usage: Usage::zero_spec(),
        blocks: Seq::empty(),
    }
}

/// Absorbing `evs` in turn.
pub open spec fn absorb_all(st: AggV, evs: Seq<EventV>) -> AggV
    decreases evs.len(),
{
    if evs.len() == 0 {
        st
    } else {
        spec_absorb(absorb_all(st, evs.drop_last()), evs.last())
    }
}

/// The (index, kind) pair of each block, in order.
pub open spec fn block_pairs(bs: Seq<(u32, BlockV)>) -> Seq<(u32, PartKind)> {
    bs.map_values(|b: (u32, BlockV)| (b.0, kind_of(b.1)))
}

/// The distinct (index, kind) pairs that `evs` write to, in order of first appearance.
pub open spec fn pairs_of(evs: Seq<EventV>) -> Seq<(u32, PartKind)>
    decreases evs.len(),
{
    if evs.len() == 0 {
        Seq::empty()
    } else {
        let acc = pairs_of(evs.drop_last());
        match event_block(evs.last()) {
            Some(p) => if acc.contains(p) { acc } else { acc.push(p) },
            None => acc,
        }
    }
}

proof fn lemma_find_block_pairs(bs: Seq<(u32, BlockV)>, k: u32, kd: PartKind)
    ensures
        (find_block(bs, k, kd) is None) <==> !block_pairs(bs).contains((k, kd)),
{
    lemma_find_block(bs, k, kd);
    match find_block(bs, k, kd) {
        Some(i) => {
            assert(block_kind_is(bs[i].1, kd));
            assert(kind_of(bs[i].1) == kd);
            assert(block_pairs(bs)[i] == (k, kd));
        },
        None => {
            if block_pairs(bs).contains((k, kd)) {
                let j = choose|j: int| 0 <= j < block_pairs(bs).len() && block_pairs(bs)[j] == (k, kd);
                assert(block_pairs(bs)[j] == (bs[j].0, kind_of(bs[j].1)));
                assert(block_kind_is(bs[j].1, kd));
            }
        },
    }
}

/// After any events, the aggregator holds one block for each (index, kind) pair the events
/// wrote to, in order of first appearance, and no two blocks share a pair; the content that
/// `into_content` builds from them is ordered as [`law_content_order`] states.
pub proof fn law_absorbed_blocks(evs: Seq<EventV>)
    ensures
        blocks_distinct(absorb_all(initial_agg(), evs).blocks),
        block_pairs(absorb_all(initial_agg(), evs).blocks) == pairs_of(evs),
    decreases evs.len(),
{
    if evs.len() == 0 {
        assert(block_pairs(Seq::<(u32, BlockV)>::empty()) =~= Seq::<(u32, PartKind)>::empty());
    } else {
        law_absorbed_blocks(evs.drop_last());
        let st = absorb_all(initial_agg(), evs.drop_last());
        let e = evs.last();
        law_absorb_first_appearance(st, e);
        let bs = st.blocks;
        let nb = spec_absorb(st, e).blocks;
        let acc = pairs_of(evs.drop_last());
        match event_block(e) {
            Some(p) => {
                lemma_find_block_pairs(bs, p.0, p.1);
                if find_block(bs, p.0, p.1) is None {
                    assert(block_pairs(nb) =~= acc.push(p)) by {
                        assert forall|i: int| 0 <= i < nb.len() implies block_pairs(nb)[i] == acc.push(p)[i] by {
                            if i < bs.len() {
                                assert(nb[i].0 == bs[i].0 && kind_of(nb[i].1) == kind_of(bs[i].1));
                                assert(acc[i] == block_pairs(bs)[i]);
                            } else {
                                assert(nb.last() == nb[i]);
                            }
                        }
                    }
                } else {
                    assert(block_pairs(nb) =~= acc) by {
                        assert forall|i: int| 0 <= i < nb.len() implies block_pairs(nb)[i] == acc[i] by {
                            assert(nb[i].0 == bs[i].0 && kind_of(nb[i].1) == kind_of(bs[i].1));
                            assert(acc[i] == block_pairs(bs)[i]);
                        }
                    }
                }
            },
            None => {},
        }
    }
}

fn block_to_part(b: BlockAccum) -> (res: Option<ContentPart>)
    ensures
        match res {
            Some(p) => block_part(b@) == Some(p@),
            None => block_part(b@) is None,
        },
{
    match b {
        BlockAccum::Text(text) => if text.as_str().unicode_len() == 0 {
            None
        } else {
            Some(ContentPart::Text { text })
        },
        BlockAccum::Thinking { text, signature } => if text.as_str().unicode_len() == 0 && signature.is_none() {
            None
        } else {
            Some(ContentPart::Thinking { text, signature })
        },
        BlockAccum::ToolUse { id, name, args, signature } => {
            let input = if trim(args.as_str()).unicode_len() == 0 {
                Json::empty_object()
            } else {
                match Json::parse(args.as_str()) {
                    Some(j) => j,
                    None => Json::string(args.as_str()),
                }
            };
            Some(ContentPart::ToolUse { id, name, input, signature })
        },
        BlockAccum::Refusal(text) => if text.as_str().unicode_len() == 0 {
            None
        } else {
            Some(ContentPart::Refusal { text })
        },
    }
}

impl StreamAggregator {
    /// The aggregated content: blocks ordered by index (stable, so reasoning
    /// stays before text at the same index), empty blocks dropped, tool
    /// arguments parsed as JSON when they are JSON and kept as text otherwise.
    pub fn into_content(self) -> (res: Vec<ContentPart>)
        ensures
            pv(res) == blocks_content(sort_by_index(self@.blocks)),
    {
        let ghost orig = self@.blocks;
        let mut blocks = self.blocks;
        assert(bvs(blocks@) == orig);
        let n = blocks.len();
        let mut sorted: Vec<(u32, BlockAccum)> = Vec::new();
        let mut i: usize = 0;
        while i < n
            invariant
                n == blocks.len(),
                i <= n,
                orig.len() == n,
                forall|k: int| i <= k < n ==> (#[trigger] bvs(blocks@)[k]) == orig[k],
                bvs(sorted@) == sort_by_index(orig.subrange(0, i as int)),
            decreases n - i,
        {
            let mut x = (0u32, BlockAccum::Text(String::new()));
            let ghost b0 = blocks@;
            assert(bvs(b0)[i as int] == orig[i as int]);
            std::mem::swap(&mut x, &mut blocks[i]);
            let ghost xv = (x.0, x.1@);
            assert(xv == orig[i as int]);
            let ghost sv = bvs(sorted@);
            let mut j = sorted.len();
            while j > 0 && sorted[j - 1].0 > x.0
                invariant
                    j <= sorted.len(),
                    sv == bvs(sorted@),
                    forall|k: int| j <= k < sorted.len() ==> (#[trigger] sv[k]).0 > xv.0,
                    xv == (x.0, x.1@),
                decreases j,
            {
                j = j - 1;
            }
            proof {
                lemma_insert_by_index_split(sv, xv, j as int);
                assert(orig.subrange(0, i + 1).drop_last() =~= orig.subrange(0, i as int));
            }
            sorted.insert(j, x);
            proof {
                assert(bvs(sorted@) =~= sv.insert(j as int, xv));
            }
            i = i + 1;
            proof {
                assert forall|k: int| i <= k < n implies (#[trigger] bvs(blocks@)[k]) == orig[k] by {
                    assert(bvs(blocks@)[k] == bvs(b0)[k]);
                }
            }
        }
        assert(orig.subrange(0, n as int) =~= orig);
        let ghost target = sort_by_index(orig);
        assert(bvs(sorted@) == target);
        let mut out: Vec<ContentPart> = Vec::new();
        proof {
            lemma_parts_view(out@);
        }
        let m = sorted.len();
        let mut k: usize = 0;
        while k < m
            invariant
                m == sorted.len(),
                k <= m,
                target.len() == m,
                forall|j: int| k <= j < m ==> (#[trigger] bvs(sorted@)[j]) == target[j],
                pv(out) == blocks_content(target.subrange(0, k as int)),
            decreases m - k,
        {
            let mut x = (0u32, BlockAccum::Text(String::new()));
            assert(bvs(sorted@)[k as int] == target[k as int]);
            let ghost s0 = sorted@;
            std::mem::swap(&mut x, &mut sorted[k]);
            let ghost xv = x.1@;
            assert(xv == target[k as int].1);
            assert forall|j: int| k < j < m implies (#[trigger] bvs(sorted@)[j]) == target[j] by {
                assert(bvs(sorted@)[j] == bvs(s0)[j]);
            }
            proof {
                assert(target.subrange(0, k + 1).drop_last() =~= target.subrange(0, k as int));
            }
            let part = block_to_part(x.1);
            if let Some(p) = part {
                proof {
                    lemma_parts_view_push(out@, p);
                }
                out.push(p);
            }
            k = k + 1;
        }
        assert(target.subrange(0, m as int) =~= target);
        out
    }
}

/// Appends an event.
pub fn push_event(out: &mut Vec<StreamEvent>, e: StreamEvent)
    ensures
        evs(final(out)@) == evs(old(out)@).push(e@),
{
    let ghost o = out@;
    let ghost ev = e@;
    out.push(e);
    proof {
        assert(evs(out@) =~= evs(o).push(ev));
    }
}

/// Appends a frame.
pub fn push_frame(out: &mut Vec<SseFrame>, f: SseFrame)
    ensures
        frs(final(out)@) == frs(old(out)@).push(f@),
{
    let ghost o = out@;
    let ghost fv = f@;
    out.push(f);
    proof {
        assert(frs(out@) =~= frs(o).push(fv));
    }
}

// ---------------------------------------------------------------------------
// Rendering a frame and parsing it back.

proof fn lemma_encode_concat(a: Seq<char>, b: Seq<char>)
    ensures
        encode_utf8(a + b) == encode_utf8(a) + encode_utf8(b),
    decreases a.len(),
{
    if a.len() > 0 {
        assert((a + b).drop_first() =~= a.drop_first() + b);
        lemma_encode_concat(a.drop_first(), b);
        assert((a + b)[0] == a[0]);
        assert(encode_utf8(a + b) =~= encode_scalar((a + b)[0] as u32) + encode_utf8((a + b).drop_first()));
    } else {
        assert(a + b =~= b);
    }
}

/// An ASCII scalar encodes as its own byte; any other scalar only as bytes of at least 0x80.
proof fn lemma_scalar_bytes(v: u32)
    requires
        is_scalar(v),
    ensures
        has_width_1_encoding(v) ==> encode_scalar(v) == seq![v as u8],
        !has_width_1_encoding(v) ==> encode_scalar(v).len() > 0
            && forall|i: int| 0 <= i < encode_scalar(v).len() ==> encode_scalar(v)[i] >= 0x80,
{
    if has_width_1_encoding(v) {
        assert((v & 0x7F) as u8 == v as u8) by (bit_vector)
            requires v <= 0x7F;
    } else {
        assert((0xC0u8 | ((v >> 6) & 0x1F) as u8) >= 0x80) by (bit_vector);
        assert((0xE0u8 | ((v >> 12) & 0x0F) as u8) >= 0x80) by (bit_vector);
        assert((0xF0u8 | ((v >> 18) & 0x7) as u8) >= 0x80) by (bit_vector);
        assert((0x80u8 | (v & 0x3F) as u8) >= 0x80) by (bit_vector);
        assert((0x80u8 | ((v >> 6) & 0x3F) as u8) >= 0x80) by (bit_vector);
        assert((0x80u8 | ((v >> 12) & 0x3F) as u8) >= 0x80) by (bit_vector);
    }
}

/// Text without the ASCII character `c` encodes without its byte.
proof fn lemma_encode_lacks_byte(a: Seq<char>, c: char)
    requires
        (c as u32) < 0x80,
        forall|j: int| 0 <= j < a.len() ==> a[j] != c,
    ensures
        forall|j: int| 0 <= j < encode_utf8(a).len() ==> encode_utf8(a)[j] != (c as u32) as u8,
    decreases a.len(),
{
    if a.len() > 0 {
        assert forall|j: int| 0 <= j < a.drop_first().len() implies a.drop_first()[j] != c by {
            assert(a.drop_first()[j] == a[j + 1]);
        }
        lemma_encode_lacks_byte(a.drop_first(), c);
        vstd::utf8::char_is_scalar(a[0]);
        lemma_scalar_bytes(a[0] as u32);
        let e0 = encode_scalar(a[0] as u32);
        let rest = encode_utf8(a.drop_first());
        assert(encode_utf8(a) == e0 + rest);
        let w: u32 = c as u32;
        assert forall|j: int| 0 <= j < encode_utf8(a).len() implies encode_utf8(a)[j] != w as u8 by {
            if j < e0.len() {
                assert(encode_utf8(a)[j] == e0[j]);
                if has_width_1_encoding(a[0] as u32) {
                    let v: u32 = a[0] as u32;
                    vstd::utf8::char_u32_cast(a[0], v);
                    vstd::utf8::char_u32_cast(c, w);
                    assert(v != w);
                    assert(v as u8 != w as u8) by (bit_vector)
                        requires v <= 0x7F, w < 0x80, v != w;
                } else {
                    assert((w as u8) < 0x80) by (bit_vector)
                        requires w < 0x80;
                }
            } else {
                assert(encode_utf8(a)[j] == rest[j - e0.len()]);
            }
        }
    }
}

/// Text without line breaks.
pub open spec fn one_line(a: Seq<char>) -> bool {
    forall|j: int| 0 <= j < a.len() ==> a[j] != '\n' && a[j] != '\r'
}

proof fn lemma_byte_index_at(s: Seq<u8>, b: u8, p: int)
    requires
        0 <= p < s.len(),
        s[p] == b,
        forall|j: int| 0 <= j < p ==> s[j] != b,
    ensures
        byte_index(s, b) == Some(p),
{
    lemma_byte_index(s, b);
}

/// Feeding a line, its line break and more text consumes exactly that line.
proof fn lemma_feed_one_line(st: ParserV, a: Seq<char>, r: Seq<char>, frames: Seq<FrameV>)
    requires
        one_line(a),
    ensures
        feed_lines(ParserV { buffer: encode_utf8(a + seq!['\n'] + r), ..st }, frames)
            == feed_lines(apply_line(ParserV { buffer: encode_utf8(r), ..st }, a).0,
                opt_push(frames, apply_line(ParserV { buffer: encode_utf8(r), ..st }, a).1)),
{
    let ea = encode_utf8(a);
    let er = encode_utf8(r);
    lemma_encode_concat(a + seq!['\n'], r);
    lemma_encode_concat(a, seq!['\n']);
    vstd::utf8::char_is_scalar('\n');
    lemma_scalar_bytes('\n' as u32);
    assert(encode_utf8(seq!['\n']) =~= seq![10u8]) by {
        assert(seq!['\n'].drop_first() =~= Seq::<char>::empty());
        assert(encode_utf8(Seq::<char>::empty()) =~= Seq::<u8>::empty());
        assert(seq!['\n'][0] == '\n');
        assert('\n' as u32 == 10u32);
        assert(10u32 as u8 == 10u8);
    }
    let buf = encode_utf8(a + seq!['\n'] + r);
    assert(buf =~= ea + seq![10u8] + er);
    lemma_encode_lacks_byte(a, '\n');
    lemma_encode_lacks_byte(a, '\r');
    assert('\n' as u32 == 10u32 && 10u32 as u8 == 10u8);
    assert('\r' as u32 == 13u32 && 13u32 as u8 == 13u8);
    lemma_byte_index_at(buf, 10, ea.len() as int);
    assert(buf.subrange(0, ea.len() as int) =~= ea);
    assert(buf.subrange(ea.len() as int + 1, buf.len() as int) =~= er);
    assert(strip_cr(ea) == ea) by {
        if ea.len() > 0 {
            assert(ea.last() != 13u8);
        }
    }
    vstd::utf8::encode_utf8_valid_utf8(a);
    vstd::utf8::encode_utf8_decode_utf8(a);
}



/// Applying a field line `name: value` whose name holds no colon.
proof fn lemma_field_line(st: ParserV, name: Seq<char>, v: Seq<char>)
    requires
        name.len() > 0,
        name[0] != ':',
        forall|j: int| 0 <= j < name.len() ==> name[j] != ':',
    ensures
        line_field(name + seq![':', ' '] + v) == (name, v),
        (name + seq![':', ' '] + v).len() > 0,
        (name + seq![':', ' '] + v)[0] != ':',
{
    let line = name + seq![':', ' '] + v;
    lemma_index_of(line, ':');
    assert(line[name.len() as int] == ':');
    assert forall|j: int| 0 <= j < name.len() implies line[j] != ':' by {
        assert(line[j] == name[j]);
    }
    assert(index_of(line, ':') == Some(name.len() as int));
    assert(line.subrange(0, name.len() as int) =~= name);
    assert(line.subrange(name.len() as int + 1, line.len() as int) =~= seq![' '] + v);
    assert((seq![' '] + v).drop_first() =~= v);
}

/// The lines of `d`, split at each line break.
pub open spec fn split_lines(d: Seq<char>) -> Seq<Seq<char>>
    decreases d.len(),
{
    match index_of(d, '\n') {
        Some(i) => if 0 <= i < d.len() {
            seq![d.subrange(0, i)] + split_lines(d.subrange(i + 1, d.len() as int))
        } else {
            seq![d]
        },
        None => seq![d],
    }
}

proof fn lemma_split_lines_nonempty(d: Seq<char>)
    ensures
        split_lines(d).len() > 0,
    decreases d.len(),
{
    lemma_index_of(d, '\n');
}

proof fn lemma_join_prepend(x: Seq<char>, rest: Seq<Seq<char>>)
    requires
        rest.len() > 0,
    ensures
        join_lines(seq![x] + rest) == x + seq!['\n'] + join_lines(rest),
    decreases rest.len(),
{
    let all = seq![x] + rest;
    assert(all.drop_last() =~= seq![x] + rest.drop_last());
    assert(all.last() == rest.last());
    if rest.len() == 1 {
        assert(rest.drop_last() =~= Seq::<Seq<char>>::empty());
        assert(seq![x] + rest.drop_last() =~= seq![x]);
        assert(join_lines(seq![x]) == x);
        assert(join_lines(rest) == rest[0]);
        assert(rest.last() == rest[0]);
    } else {
        lemma_join_prepend(x, rest.drop_last());
        assert(join_lines(rest) == join_lines(rest.drop_last()) + seq!['\n'] + rest.last());
        assert(x + seq!['\n'] + join_lines(rest.drop_last()) + seq!['\n'] + rest.last()
            =~= x + seq!['\n'] + (join_lines(rest.drop_last()) + seq!['\n'] + rest.last()));
    }
}

proof fn lemma_join_split(d: Seq<char>)
    ensures
        join_lines(split_lines(d)) == d,
    decreases d.len(),
{
    lemma_index_of(d, '\n');
    match index_of(d, '\n') {
        Some(i) => {
            let rest = d.subrange(i + 1, d.len() as int);
            lemma_join_split(rest);
            lemma_split_lines_nonempty(rest);
            lemma_join_prepend(d.subrange(0, i), split_lines(rest));
            assert(d.subrange(0, i) + seq!['\n'] + rest =~= d);
        },
        None => {},
    }
}

/// One `data:` line for each of `ls`, in order.
pub open spec fn data_lines(ls: Seq<Seq<char>>) -> Seq<char>
    decreases ls.len(),
{
    if ls.len() == 0 {
        Seq::empty()
    } else {
        "data: "@ + ls[0] + seq!['\n'] + data_lines(ls.drop_first())
    }
}

proof fn lemma_render_data_split(d: Seq<char>)
    ensures
        render_data(d) == data_lines(split_lines(d)),
    decreases d.len(),
{
    lemma_index_of(d, '\n');
    match index_of(d, '\n') {
        Some(i) => {
            let rest = d.subrange(i + 1, d.len() as int);
            lemma_render_data_split(rest);
            let s = seq![d.subrange(0, i)] + split_lines(rest);
            assert(s[0] == d.subrange(0, i));
            assert(s.drop_first() =~= split_lines(rest));
            assert(s.len() > 0);
        },
        None => {
            let s = seq![d];
            assert(s.drop_first() =~= Seq::<Seq<char>>::empty());
            assert(data_lines(s.drop_first()) == Seq::<char>::empty());
            assert("data: "@ + d + seq!['\n'] + Seq::<char>::empty() =~= "data: "@ + d + seq!['\n']);
        },
    }
}

/// A frame renders as its `event:` line when it has an event name, then one `data:` line
/// for each piece of its data split at line breaks, then a blank line.
pub proof fn law_render_splits_data(f: FrameV)
    ensures
        render_frame(f) == (match f.event {
            Some(e) => "event: "@ + e + seq!['\n'],
            None => Seq::<char>::empty(),
        }) + data_lines(split_lines(f.data)) + seq!['\n'],
{
    lemma_render_data_split(f.data);
}

/// Feeding the `data:` lines of `d` and more text adds the lines of `d` to the frame.
proof fn lemma_feed_data(st: ParserV, d: Seq<char>, r: Seq<char>, frames: Seq<FrameV>)
    requires
        forall|j: int| 0 <= j < d.len() ==> d[j] != '\r',
    ensures
        feed_lines(ParserV { buffer: encode_utf8(render_data(d) + r), ..st }, frames)
            == feed_lines(ParserV { buffer: encode_utf8(r), data: st.data + split_lines(d), ..st }, frames),
    decreases d.len(),
{
    reveal_strlit("data: ");
    reveal_strlit("data");
    reveal_strlit("event");
    lemma_index_of(d, '\n');
    let name = "data"@;
    assert(name != "event"@) by {
        assert(name.len() != "event"@.len());
    }
    match index_of(d, '\n') {
        Some(i) => {
            let d0 = d.subrange(0, i);
            let rest = d.subrange(i + 1, d.len() as int);
            let a = "data: "@ + d0;
            let r1 = render_data(rest) + r;
            assert(render_data(d) + r =~= a + seq!['\n'] + r1);
            assert(a =~= name + seq![':', ' '] + d0);
            assert(one_line(a)) by {
                assert forall|j: int| 0 <= j < a.len() implies a[j] != '\n' && a[j] != '\r' by {
                    if j >= 6 {
                        assert(a[j] == d[j - 6]);
                    }
                }
            }
            lemma_feed_one_line(st, a, r1, frames);
            lemma_field_line(ParserV { buffer: encode_utf8(r1), ..st }, name, d0);
            let st1 = ParserV { buffer: encode_utf8(r1), data: st.data.push(d0), ..st };
            assert forall|j: int| 0 <= j < rest.len() implies rest[j] != '\r' by {
                assert(rest[j] == d[j + i + 1]);
            }
            lemma_feed_data(st1, rest, r, frames);
            assert(st.data.push(d0) + split_lines(rest) =~= st.data + split_lines(d));
        },
        None => {
            let a = "data: "@ + d;
            assert(render_data(d) + r =~= a + seq!['\n'] + r);
            assert(a =~= name + seq![':', ' '] + d);
            assert(one_line(a)) by {
                assert forall|j: int| 0 <= j < a.len() implies a[j] != '\n' && a[j] != '\r' by {
                    if j >= 6 {
                        assert(a[j] == d[j - 6]);
                    }
                }
            }
            lemma_feed_one_line(st, a, r, frames);
            lemma_field_line(ParserV { buffer: encode_utf8(r), ..st }, name, d);
            assert(st.data.push(d) =~= st.data + split_lines(d));
        },
    }
}

/// A parser that has seen nothing.
pub open spec fn fresh_parser() -> ParserV {
    ParserV { buffer: Seq::empty(), event: None, data: Seq::empty() }
}

/// A rendered frame parses back to itself, leaving the parser as it found it, when its event
/// name is one line and no line of its data ends in a carriage return (no `\r` in it).
pub proof fn law_rendered_frame_parses_back(f: FrameV)
    requires
        f.event matches Some(e) ==> one_line(e),
        forall|j: int| 0 <= j < f.data.len() ==> f.data[j] != '\r',
    ensures
        spec_feed(fresh_parser(), encode_utf8(render_frame(f))) == (fresh_parser(), Ok::<Seq<FrameV>, Seq<u8>>(seq![f])),
{
    reveal_strlit("event: ");
    reveal_strlit("event");
    let st0 = fresh_parser();
    let bytes = encode_utf8(render_frame(f));
    assert(st0.buffer + bytes =~= bytes);
    let tail = render_data(f.data) + seq!['\n'];
    let st1 = ParserV { buffer: encode_utf8(tail), event: f.event, data: Seq::empty() };
    match f.event {
        Some(e) => {
            let a = "event: "@ + e;
            assert(render_frame(f) =~= a + seq!['\n'] + tail);
            assert(a =~= "event"@ + seq![':', ' '] + e);
            assert(one_line(a)) by {
                assert forall|j: int| 0 <= j < a.len() implies a[j] != '\n' && a[j] != '\r' by {
                    if j >= 7 {
                        assert(a[j] == e[j - 7]);
                    }
                }
            }
            lemma_feed_one_line(st0, a, tail, Seq::empty());
            lemma_field_line(ParserV { buffer: encode_utf8(tail), ..st0 }, "event"@, e);
        },
        None => {
            assert(render_frame(f) =~= tail);
        },
    }
    assert(feed_lines(ParserV { buffer: bytes, ..st0 }, Seq::empty()) == feed_lines(st1, Seq::empty()));
    lemma_feed_data(st1, f.data, seq!['\n'], Seq::empty());
    let st2 = ParserV { buffer: encode_utf8(seq!['\n']), event: f.event, data: split_lines(f.data) };
    assert(Seq::<Seq<char>>::empty() + split_lines(f.data) =~= split_lines(f.data));
    assert(seq!['\n'] =~= Seq::<char>::empty() + seq!['\n'] + Seq::<char>::empty());
    assert(one_line(Seq::<char>::empty()));
    lemma_feed_one_line(st2, Seq::empty(), Seq::empty(), Seq::empty());
    lemma_split_lines_nonempty(f.data);
    lemma_join_split(f.data);
    assert(encode_utf8(Seq::<char>::empty()) =~= Seq::<u8>::empty());
    let st3 = ParserV { buffer: Seq::empty(), event: None, data: Seq::empty() };
    assert(byte_index(Seq::<u8>::empty(), 10) is None);
    assert(feed_lines(st3, seq![f]) == (st3, Ok::<Seq<FrameV>, Seq<u8>>(seq![f])));
}


// ---------------------------------------------------------------------------
// Chunk boundaries.

proof fn lemma_byte_index_prefix(b: Seq<u8>, y: Seq<u8>, x: u8)
    ensures
        byte_index(b, x) matches Some(p) ==> byte_index(b + y, x) == Some(p),
{
    lemma_byte_index(b, x);
    if let Some(p) = byte_index(b, x) {
        assert forall|j: int| 0 <= j < p implies (b + y)[j] != x by {
            assert((b + y)[j] == b[j]);
        }
        assert((b + y)[p] == b[p]);
        lemma_byte_index_at(b + y, x, p);
    }
}

/// Feeding lines onto frames already collected puts the new frames after them.
proof fn lemma_feed_lines_frames(st: ParserV, fr: Seq<FrameV>)
    ensures
        feed_lines(st, fr) == match feed_lines(st, Seq::empty()) {
            (s, Ok(h)) => (s, Ok::<Seq<FrameV>, Seq<u8>>(fr + h)),
            (s, Err(e)) => (s, Err::<Seq<FrameV>, Seq<u8>>(e)),
        },
    decreases st.buffer.len(),
{
    match byte_index(st.buffer, 10) {
        None => {
            assert(fr + Seq::<FrameV>::empty() =~= fr);
        },
        Some(p) => if 0 <= p < st.buffer.len() {
            let line = strip_cr(st.buffer.subrange(0, p));
            let st1 = ParserV { buffer: st.buffer.subrange(p + 1, st.buffer.len() as int), ..st };
            if valid_utf8(line) {
                let (st2, f) = apply_line(st1, decode_utf8(line));
                lemma_feed_lines_frames(st2, opt_push(fr, f));
                lemma_feed_lines_frames(st2, opt_push(Seq::empty(), f));
                match f {
                    Some(x) => {
                        assert(opt_push(fr, f) =~= fr + seq![x]);
                        assert(opt_push(Seq::<FrameV>::empty(), f) =~= seq![x]);
                        match feed_lines(st2, Seq::empty()) {
                            (s, Ok(h)) => {
                                assert(fr + seq![x] + h =~= fr + (seq![x] + h));
                            },
                            _ => {},
                        }
                    },
                    None => {
                        assert(opt_push(Seq::<FrameV>::empty(), f) =~= Seq::<FrameV>::empty());
                    },
                }
            }
        } else {
            assert(fr + Seq::<FrameV>::empty() =~= fr);
        },
    }
}

/// Bytes that follow the buffer do not change how its complete lines are read: they only
/// extend the incomplete rest.
proof fn lemma_feed_lines_append(st: ParserV, y: Seq<u8>, fr: Seq<FrameV>)
    requires
        feed_lines(st, fr).1 is Ok,
    ensures
        feed_lines(ParserV { buffer: st.buffer + y, ..st }, fr) == feed_lines(
            ParserV { buffer: feed_lines(st, fr).0.buffer + y, ..feed_lines(st, fr).0 },
            feed_lines(st, fr).1->Ok_0,
        ),
    decreases st.buffer.len(),
{
    let b = st.buffer;
    let sty = ParserV { buffer: b + y, ..st };
    lemma_byte_index_prefix(b, y, 10);
    match byte_index(b, 10) {
        None => {
            assert(sty == ParserV { buffer: feed_lines(st, fr).0.buffer + y, ..feed_lines(st, fr).0 });
        },
        Some(p) => {
            lemma_byte_index(b, 10);
            let line = strip_cr(b.subrange(0, p));
            assert((b + y).subrange(0, p) =~= b.subrange(0, p));
            assert((b + y).subrange(p + 1, (b + y).len() as int) =~= b.subrange(p + 1, b.len() as int) + y);
            let st1 = ParserV { buffer: b.subrange(p + 1, b.len() as int), ..st };
            let (st2, f) = apply_line(st1, decode_utf8(line));
            let st1y = ParserV { buffer: b.subrange(p + 1, b.len() as int) + y, ..st };
            assert(apply_line(st1y, decode_utf8(line)) == (ParserV { buffer: st2.buffer + y, ..st2 }, f));
            lemma_feed_lines_append(st2, y, opt_push(fr, f));
        },
    }
}

/// The frames do not depend on where the input is split: feeding `a` and then `b` gives the
/// frames and the state that feeding `a + b` at once gives.
pub proof fn law_feed_split_independent(st: ParserV, a: Seq<u8>, b: Seq<u8>)
    requires
        spec_feed(st, a).1 is Ok,
        spec_feed(spec_feed(st, a).0, b).1 is Ok,
    ensures
        spec_feed(st, a + b) == (spec_feed(spec_feed(st, a).0, b).0,
            Ok::<Seq<FrameV>, Seq<u8>>(spec_feed(st, a).1->Ok_0 + spec_feed(spec_feed(st, a).0, b).1->Ok_0)),
{
    let p0 = ParserV { buffer: st.buffer + a, ..st };
    assert(st.buffer + (a + b) =~= (st.buffer + a) + b);
    lemma_feed_lines_append(p0, b, Seq::empty());
    let st1 = spec_feed(st, a).0;
    let f1 = spec_feed(st, a).1->Ok_0;
    lemma_feed_lines_frames(ParserV { buffer: st1.buffer + b, ..st1 }, f1);
}

/// The same for text: feeding the text `a` and then `b` gives what feeding `a + b` gives.
pub proof fn law_feed_text_split_independent(st: ParserV, a: Seq<char>, b: Seq<char>)
    requires
        valid_utf8(st.buffer),
    ensures
        spec_feed(st, encode_utf8(a)).1 is Ok,
        spec_feed(spec_feed(st, encode_utf8(a)).0, encode_utf8(b)).1 is Ok,
        spec_feed(st, encode_utf8(a + b)) == (spec_feed(spec_feed(st, encode_utf8(a)).0, encode_utf8(b)).0,
            Ok::<Seq<FrameV>, Seq<u8>>(spec_feed(st, encode_utf8(a)).1->Ok_0
                + spec_feed(spec_feed(st, encode_utf8(a)).0, encode_utf8(b)).1->Ok_0)),
{
    law_text_feeding_stays_utf8(st, a);
    law_text_feeding_stays_utf8(spec_feed(st, encode_utf8(a)).0, b);
    lemma_encode_concat(a, b);
    law_feed_split_independent(st, encode_utf8(a), encode_utf8(b));
}

proof fn lemma_ascii_boundary(bytes: Seq<u8>, i: int)
    requires
        valid_utf8(bytes),
        0 <= i < bytes.len(),
        bytes[i] == 10u8 || bytes[i] == 13u8,
    ensures
        valid_utf8(bytes.subrange(0, i)),
        valid_utf8(bytes.subrange(i + 1, bytes.len() as int)),
{
    vstd::utf8::is_char_boundary_iff_not_is_continuation_byte(bytes, i);
    vstd::utf8::valid_utf8_split(bytes, i);
    let rest = bytes.subrange(i, bytes.len() as int);
    assert(rest[0] == bytes[i]);
    assert(vstd::utf8::length_of_first_scalar(rest) == 1);
    assert(vstd::utf8::pop_first_scalar(rest) =~= bytes.subrange(i + 1, bytes.len() as int));
}


proof fn lemma_feed_lines_valid(st: ParserV, fr: Seq<FrameV>)
    requires
        valid_utf8(st.buffer),
    ensures
        feed_lines(st, fr).1 is Ok,
        valid_utf8(feed_lines(st, fr).0.buffer),
    decreases st.buffer.len(),
{
    let b = st.buffer;
    lemma_byte_index(b, 10);
    if let Some(p) = byte_index(b, 10) {
        lemma_ascii_boundary(b, p);
        let raw = b.subrange(0, p);
        if raw.len() > 0 && raw.last() == 13 {
            lemma_ascii_boundary(raw, raw.len() - 1);
            assert(raw.subrange(0, raw.len() - 1) =~= raw.drop_last());
        }
        let st1 = ParserV { buffer: b.subrange(p + 1, b.len() as int), ..st };
        let (st2, f) = apply_line(st1, decode_utf8(strip_cr(raw)));
        assert(st2.buffer == st1.buffer);
        lemma_feed_lines_valid(st2, opt_push(fr, f));
    }
}

/// A parser fed only text never meets invalid UTF-8: starting from a buffer that is UTF-8 (as
/// a new parser's empty one is), feeding the bytes of any text succeeds and leaves a UTF-8
/// buffer, and ending the stream succeeds. So `feed` and `finish` can always be called on a
/// parser that was only ever fed text.
pub proof fn law_text_feeding_stays_utf8(st: ParserV, text: Seq<char>)
    requires
        valid_utf8(st.buffer),
    ensures
        valid_utf8(fresh_parser().buffer),
        spec_feed(st, encode_utf8(text)).1 is Ok,
        valid_utf8(spec_feed(st, encode_utf8(text)).0.buffer),
        spec_finish(st).1 is Ok,
        spec_finish(st).0 == fresh_parser(),
{
    vstd::utf8::encode_utf8_valid_utf8(text);
    vstd::utf8::valid_utf8_concat(st.buffer, encode_utf8(text));
    lemma_feed_lines_valid(ParserV { buffer: st.buffer + encode_utf8(text), ..st }, Seq::empty());
    assert(valid_utf8(Seq::<u8>::empty()));
    if st.buffer.len() == 0 {
        assert(st.buffer =~= Seq::<u8>::empty());
        if st.data.len() == 0 {
            assert(st.data =~= Seq::<Seq<char>>::empty());
        }
    } else {
        let t = trimmed(decode_utf8(st.buffer));
        let data = if t.len() >= 5 && t.subrange(0, 5) == "data:"@ {
            st.data.push(trimmed_start(t.subrange(5, t.len() as int)))
        } else {
            st.data
        };
        if data.len() == 0 {
            assert(data =~= Seq::<Seq<char>>::empty());
        }
    }
}

} // verus!
