//! Reading a streamed reply: framing its lines and turning its chunks into
//! events.
//!
//! A streamed reply is a sequence of lines, each a JSON chunk. The bytes arrive
//! in pieces that need not end where lines end. [`ReplyStream`] holds what has
//! arrived and not been read yet and the tool calls that have been seen.

use crate::json;
use crate::providers::messages::{self, OllamaToolCall, ToolCall, ToolCallView};
use crate::providers::ollama::{self, ApiChatResponse};
use crate::text;
use vstd::prelude::*;
use vstd::string::*;

verus! {

// ── Framing ─────────────────────────────────────────────────────────

/// ASCII white space.
pub open spec fn is_blank_byte(b: u8) -> bool {
    b == 0x20 || b == 0x09 || b == 0x0a || b == 0x0c || b == 0x0d
}

/// The bytes without leading ASCII white space.
pub open spec fn trim_left(s: Seq<u8>) -> Seq<u8>
    decreases s.len(),
{
    if s.len() > 0 && is_blank_byte(s[0]) {
        trim_left(s.skip(1))
    } else {
        s
    }
}

/// The bytes without trailing ASCII white space.
pub open spec fn trim_right(s: Seq<u8>) -> Seq<u8>
    decreases s.len(),
{
    if s.len() > 0 && is_blank_byte(s.last()) {
        trim_right(s.drop_last())
    } else {
        s
    }
}

/// The bytes without leading and trailing ASCII white space.
pub open spec fn trim_bytes(s: Seq<u8>) -> Seq<u8> {
    trim_right(trim_left(s))
}

/// What stands after the last line feed.
pub open spec fn tail_of(s: Seq<u8>) -> Seq<u8>
    decreases s.len(),
{
    if s.len() == 0 || s.last() == 0x0a {
        Seq::empty()
    } else {
        tail_of(s.drop_last()).push(s.last())
    }
}

/// The lines that a line feed ends, trimmed, without the blank ones.
pub open spec fn lines_of(s: Seq<u8>) -> Seq<Seq<u8>>
    decreases s.len(),
{
    if s.len() == 0 {
        Seq::empty()
    } else {
        let before = lines_of(s.drop_last());
        let line = trim_bytes(tail_of(s.drop_last()));
        if s.last() == 0x0a && line.len() > 0 {
            before.push(line)
        } else {
            before
        }
    }
}

/// Reading the lines of `a` and then those of what is left of it and `b` is
/// reading the lines of both together.
pub proof fn lines_concat(a: Seq<u8>, b: Seq<u8>)
    ensures
        lines_of(a + b) == lines_of(a) + lines_of(tail_of(a) + b),
        tail_of(a + b) == tail_of(tail_of(a) + b),
    decreases b.len(),
{
    if b.len() == 0 {
        assert(a + b =~= a);
        assert(tail_of(a) + b =~= tail_of(a));
        tail_is_partial(a);
        assert(lines_of(a) + Seq::<Seq<u8>>::empty() =~= lines_of(a));
    } else {
        let c = b.drop_last();
        lines_concat(a, c);
        assert((a + b).drop_last() =~= a + c);
        assert((tail_of(a) + b).drop_last() =~= tail_of(a) + c);
        let line = trim_bytes(tail_of(a + c));
        if b.last() == 0x0a && line.len() > 0 {
            assert((lines_of(a) + lines_of(tail_of(a) + c)).push(line) =~= lines_of(a) + lines_of(
                tail_of(a) + b,
            ));
        }
    }
}

/// What is left after the last line feed holds no line.
pub proof fn tail_is_partial(a: Seq<u8>)
    ensures
        lines_of(tail_of(a)) == Seq::<Seq<u8>>::empty(),
        tail_of(tail_of(a)) == tail_of(a),
    decreases a.len(),
{
    if a.len() > 0 && a.last() != 0x0a {
        tail_is_partial(a.drop_last());
        assert(tail_of(a).drop_last() =~= tail_of(a.drop_last()));
    }
}

proof fn no_feed_no_line(s: Seq<u8>)
    requires
        forall|i: int| 0 <= i < s.len() ==> s[i] != 0x0a,
    ensures
        lines_of(s) == Seq::<Seq<u8>>::empty(),
        tail_of(s) == s,
    decreases s.len(),
{
    if s.len() > 0 {
        no_feed_no_line(s.drop_last());
        assert(s.drop_last().push(s.last()) =~= s);
    }
}

proof fn first_line_splits(s: Seq<u8>, p: int)
    requires
        0 <= p < s.len(),
        s[p] == 0x0a,
        forall|i: int| 0 <= i < p ==> s[i] != 0x0a,
    ensures
        tail_of(s) == tail_of(s.skip(p + 1)),
        lines_of(s) == (if trim_bytes(s.take(p)).len() == 0 {
            Seq::<Seq<u8>>::empty()
        } else {
            seq![trim_bytes(s.take(p))]
        }) + lines_of(s.skip(p + 1)),
{
    let head = s.take(p + 1);
    let rest = s.skip(p + 1);
    no_feed_no_line(s.take(p));
    assert(head.drop_last() =~= s.take(p));
    assert(s =~= head + rest);
    lines_concat(head, rest);
    assert(tail_of(head) + rest =~= rest);
    let line = trim_bytes(s.take(p));
    if line.len() > 0 {
        assert(Seq::<Seq<u8>>::empty().push(line) =~= seq![line]);
    }
}

fn blank_byte(b: u8) -> (r: bool)
    ensures
        r == is_blank_byte(b),
{
    b == 0x20 || b == 0x09 || b == 0x0a || b == 0x0c || b == 0x0d
}

proof fn trim_left_at(s: Seq<u8>, k: int)
    requires
        0 <= k <= s.len(),
        forall|i: int| 0 <= i < k ==> is_blank_byte(s[i]),
        k < s.len() ==> !is_blank_byte(s[k]),
    ensures
        trim_left(s) == s.skip(k),
    decreases k,
{
    if k > 0 {
        let t = s.skip(1);
        assert forall|i: int| 0 <= i < k - 1 implies is_blank_byte(t[i]) by {
            assert(t[i] == s[i + 1]);
        }
        trim_left_at(t, k - 1);
        assert(t.skip(k - 1) =~= s.skip(k));
    } else {
        assert(s.skip(0) =~= s);
    }
}

proof fn trim_right_at(s: Seq<u8>, k: int)
    requires
        0 <= k <= s.len(),
        forall|i: int| k <= i < s.len() ==> is_blank_byte(s[i]),
        k > 0 ==> !is_blank_byte(s[k - 1]),
    ensures
        trim_right(s) == s.take(k),
    decreases s.len(),
{
    if k < s.len() {
        trim_right_at(s.drop_last(), k);
        assert(s.drop_last().take(k) =~= s.take(k));
    } else {
        assert(s.take(k) =~= s);
    }
}

/// A copy of `bytes` without leading and trailing ASCII white space.
pub fn trimmed_line(bytes: &Vec<u8>) -> (r: Vec<u8>)
    ensures
        r@ == trim_bytes(bytes@),
{
    let total: usize = bytes.len();
    let mut lo: usize = 0;
    while lo < total && blank_byte(bytes[lo])
        invariant
            lo <= total == bytes@.len(),
            forall|i: int| 0 <= i < lo ==> is_blank_byte(bytes@[i]),
        decreases total - lo,
    {
        lo += 1;
    }
    let mut hi: usize = total;
    while hi > lo && blank_byte(bytes[hi - 1])
        invariant
            lo <= hi <= total == bytes@.len(),
            forall|i: int| hi <= i < total ==> is_blank_byte(bytes@[i]),
        decreases hi,
    {
        hi -= 1;
    }
    proof {
        trim_left_at(bytes@, lo as int);
        let t = bytes@.skip(lo as int);
        trim_right_at(t, hi - lo);
        assert(t.take(hi - lo) =~= bytes@.subrange(lo as int, hi as int));
    }
    let mut out: Vec<u8> = Vec::new();
    let mut i: usize = lo;
    while i < hi
        invariant
            lo <= i <= hi <= bytes@.len(),
            out@ == bytes@.subrange(lo as int, i as int),
        decreases hi - i,
    {
        out.push(bytes[i]);
        i += 1;
    }
    out
}

// ── Events ──────────────────────────────────────────────────────────

/// A piece of a reply's text or reasoning.
#[derive(Debug)]
pub struct StreamChunk {
    pub delta: String,
    pub reasoning: Option<String>,
}

impl StreamChunk {
    /// A piece of the answer.
    pub fn delta(text: &str) -> (r: Self)
        ensures
            r.delta@ == text@,
            r.reasoning is None,
    {
        StreamChunk { delta: text.to_string(), reasoning: None }
    }

    /// A piece of the reasoning.
    pub fn reasoning(text: &str) -> (r: Self)
        ensures
            r.delta@ == Seq::<char>::empty(),
            text::opt_text(r.reasoning) == Some(text@),
    {
        StreamChunk { delta: String::new(), reasoning: Some(text.to_string()) }
    }
}

/// What a streamed reply tells its reader.
#[derive(Debug)]
pub enum StreamEvent {
    TextDelta(StreamChunk),
    ToolCall(ToolCall),
    Final,
}

/// What a [`StreamEvent`] says: of a piece its text and its reasoning, of a tool
/// call its id, name and arguments.
#[verifier::ext_equal]
pub enum EventView {
    Piece(Seq<char>, Option<Seq<char>>),
    ToolCall(Seq<char>, Seq<char>, Seq<char>),
    Final,
}

impl StreamEvent {
    /// What this event says.
    pub open spec fn says(&self) -> EventView {
        match self {
            StreamEvent::TextDelta(chunk) => EventView::Piece(
                chunk.delta@,
                text::opt_text(chunk.reasoning),
            ),
            StreamEvent::ToolCall(call) => EventView::ToolCall(
                call.id@,
                call.name@,
                call.arguments@,
            ),
            StreamEvent::Final => EventView::Final,
        }
    }
}

/// What a list of events says.
pub open spec fn event_views(events: Seq<StreamEvent>) -> Seq<EventView> {
    events.map_values(|e: StreamEvent| e.says())
}

/// The events of the reasoning and the text in a chunk, each in a piece of its own,
/// empty ones left out.
pub open spec fn delta_events(chunk: ApiChatResponse) -> Seq<EventView> {
    match chunk.message {
        Some(m) => {
            let reasoning = match m.thinking {
                Some(t) => if t@.len() > 0 {
                    seq![EventView::Piece(Seq::empty(), Some(t@))]
                } else {
                    Seq::empty()
                },
                None => Seq::empty(),
            };
            let answer = if m.content@.len() > 0 {
                seq![EventView::Piece(m.content@, None)]
            } else {
                Seq::empty()
            };
            reasoning + answer
        },
        None => Seq::empty(),
    }
}

/// The events that close a reply: its tool calls, numbered from zero, and the
/// final event.
pub open spec fn closing_events(calls: Seq<ToolCallView>) -> Seq<EventView> {
    Seq::new(
        calls.len(),
        |i: int|
            EventView::ToolCall(
                ollama::call_id(i),
                calls[i].name,
                json::json_text(calls[i].arguments),
            ),
    ).push(EventView::Final)
}

/// The tool calls in a chunk.
pub open spec fn chunk_calls(chunk: ApiChatResponse) -> Seq<ToolCallView> {
    messages::call_views(ollama::reply_calls(chunk))
}

/// The events of a chunk that comes after `calls` have been seen.
pub open spec fn chunk_events(calls: Seq<ToolCallView>, chunk: ApiChatResponse) -> Seq<EventView> {
    if chunk.done {
        delta_events(chunk) + closing_events(calls + chunk_calls(chunk))
    } else {
        delta_events(chunk)
    }
}

// ── The stream ──────────────────────────────────────────────────────

/// A reply that is being read.
#[derive(Debug)]
pub struct ReplyStream {
    /// Bytes that have arrived and not been read yet.
    pub buffer: Vec<u8>,
    /// The tool calls seen so far.
    pub tool_calls: Vec<OllamaToolCall>,
    /// The reply is over; nothing more is told.
    pub finished: bool,
}

impl ReplyStream {
    /// The tool calls seen so far.
    pub open spec fn calls(&self) -> Seq<ToolCallView> {
        messages::call_views(self.tool_calls@)
    }

    /// A reply of which nothing has arrived.
    pub fn new() -> (r: Self)
        ensures
            r.buffer@ == Seq::<u8>::empty(),
            r.calls() == Seq::<ToolCallView>::empty(),
            !r.finished,
    {
        let r = ReplyStream { buffer: Vec::new(), tool_calls: Vec::new(), finished: false };
        assert(r.calls() =~= Seq::<ToolCallView>::empty());
        r
    }

    /// Takes bytes that have arrived.
    pub fn feed(&mut self, bytes: &[u8])
        ensures
            final(self).buffer@ == old(self).buffer@ + bytes@,
            final(self).tool_calls == old(self).tool_calls,
            final(self).finished == old(self).finished,
    {
        let mut i: usize = 0;
        assert(bytes@.take(0) =~= Seq::<u8>::empty());
        assert(self.buffer@ =~= old(self).buffer@ + bytes@.take(0));
        while i < bytes.len()
            invariant
                i <= bytes@.len(),
                self.buffer@ == old(self).buffer@ + bytes@.take(i as int),
                self.tool_calls == old(self).tool_calls,
                self.finished == old(self).finished,
            decreases bytes@.len() - i,
        {
            self.buffer.push(bytes[i]);
            assert(bytes@.take(i + 1) =~= bytes@.take(i as int).push(bytes@[i as int]));
            assert(self.buffer@ =~= old(self).buffer@ + bytes@.take(i + 1));
            i += 1;
        }
        assert(bytes@.take(i as int) =~= bytes@);
    }

    /// Takes the next line that is complete and not blank out of the buffer.
    /// Where there is none, what is left is the start of a line.
    pub fn next_line(&mut self) -> (r: Option<Vec<u8>>)
        ensures
            final(self).tool_calls == old(self).tool_calls,
            final(self).finished == old(self).finished,
            old(self).finished ==> r is None && final(self).buffer == old(self).buffer,
            !old(self).finished ==> match r {
                Some(line) => {
                    &&& lines_of(old(self).buffer@) == seq![line@] + lines_of(final(self).buffer@)
                    &&& tail_of(old(self).buffer@) == tail_of(final(self).buffer@)
                },
                None => {
                    &&& lines_of(old(self).buffer@) == Seq::<Seq<u8>>::empty()
                    &&& final(self).buffer@ == tail_of(old(self).buffer@)
                },
            },
    {
        if self.finished {
            return None;
        }
        let mut p: usize = 0;
        while p < self.buffer.len()
            invariant
                p <= self.buffer@.len(),
                self.tool_calls == old(self).tool_calls,
                self.finished == old(self).finished,
                !self.finished,
                lines_of(self.buffer@) == lines_of(old(self).buffer@),
                tail_of(self.buffer@) == tail_of(old(self).buffer@),
                forall|i: int| 0 <= i < p ==> self.buffer@[i] != 0x0a,
            decreases self.buffer@.len() - p,
        {
            if self.buffer[p] == 0x0a {
                let ghost whole = self.buffer@;
                proof {
                    first_line_splits(whole, p as int);
                }
                let rest = self.buffer.split_off(p + 1);
                assert(rest@ =~= whole.skip(p + 1));
                let _ = self.buffer.pop();
                assert(self.buffer@ =~= whole.take(p as int));
                let line = trimmed_line(&self.buffer);
                self.buffer = rest;
                if !line.is_empty() {
                    return Some(line);
                }
                assert(Seq::<Seq<u8>>::empty() + lines_of(rest@) =~= lines_of(rest@));
                p = 0;
            } else {
                p += 1;
            }
        }
        proof {
            no_feed_no_line(self.buffer@);
        }
        None
    }

    /// Tells what a chunk brings: its reasoning, its text and, where it is the
    /// last one, the tool calls of the whole reply and the end.
    pub fn on_chunk(&mut self, chunk: ApiChatResponse) -> (r: Vec<StreamEvent>)
        ensures
            final(self).buffer == old(self).buffer,
            old(self).finished ==> r@.len() == 0 && *final(self) == *old(self),
            !old(self).finished ==> {
                &&& event_views(r@) == chunk_events(old(self).calls(), chunk)
                &&& text_told(event_views(r@)) == (match chunk.message {
                    Some(m) => m.content@,
                    None => Seq::empty(),
                })
                &&& reasoning_told(event_views(r@)) == (match chunk.message {
                    Some(m) => match m.thinking {
                        Some(t) => t@,
                        None => Seq::empty(),
                    },
                    None => Seq::empty(),
                })
                &&& final(self).calls() == old(self).calls() + chunk_calls(chunk)
                &&& final(self).finished == chunk.done
            },
    {
        let mut events: Vec<StreamEvent> = Vec::new();
        if self.finished {
            return events;
        }
        let ghost whole = chunk;
        proof {
            chunk_is_told_in_full(self.calls(), chunk);
        }
        let done = chunk.done;
        assert(event_views(events@) =~= Seq::<EventView>::empty());
        match chunk.message {
            Some(msg) => {
                let mut msg_calls = match msg.tool_calls {
                    Some(calls) => calls,
                    None => Vec::new(),
                };
                let ghost seen = self.tool_calls@;
                let ghost added = msg_calls@;
                self.tool_calls.append(&mut msg_calls);
                assert(messages::call_views(seen + added) =~= messages::call_views(seen)
                    + messages::call_views(added));
                if let Some(thinking) = msg.thinking {
                    if !thinking.as_str().is_empty() {
                        let piece = StreamEvent::TextDelta(
                            StreamChunk::reasoning(thinking.as_str()),
                        );
                        events.push(piece);
                        assert(event_views(events@) =~= seq![EventView::Piece(Seq::empty(), Some(thinking@))]);
                    }
                }
                if !msg.content.as_str().is_empty() {
                    let ghost before = events@;
                    let piece = StreamEvent::TextDelta(StreamChunk::delta(msg.content.as_str()));
                    events.push(piece);
                    assert(event_views(events@) =~= event_views(before).push(
                        EventView::Piece(msg.content@, None),
                    ));
                }
                assert(event_views(events@) =~= delta_events(whole));
            },
            None => {
                assert(event_views(events@) =~= delta_events(whole));
                assert(chunk_calls(whole) =~= Seq::<ToolCallView>::empty());
                assert(self.calls() =~= old(self).calls() + chunk_calls(whole));
            },
        }
        if done {
            let ghost deltas = events@;
            let mut closing = self.close();
            let ghost closed = closing@;
            events.append(&mut closing);
            assert(event_views(events@) =~= event_views(deltas) + event_views(closed));
        }
        events
    }

    /// Tells the end of a reply that stops without a last chunk. The start of a
    /// line that was never finished is dropped.
    pub fn on_end(&mut self) -> (r: Vec<StreamEvent>)
        ensures
            final(self).finished,
            final(self).buffer == old(self).buffer,
            final(self).tool_calls == old(self).tool_calls,
            old(self).finished ==> r@.len() == 0,
            !old(self).finished ==> event_views(r@) == closing_events(old(self).calls()),
    {
        if self.finished {
            return Vec::new();
        }
        self.close()
    }

    /// Ends the reply after a failure: nothing more is told, not even the end.
    pub fn fail(&mut self)
        ensures
            final(self).finished,
            final(self).buffer == old(self).buffer,
            final(self).tool_calls == old(self).tool_calls,
    {
        self.finished = true;
    }

    fn close(&mut self) -> (r: Vec<StreamEvent>)
        ensures
            final(self).finished,
            final(self).buffer == old(self).buffer,
            final(self).tool_calls == old(self).tool_calls,
            event_views(r@) == closing_events(old(self).calls()),
    {
        self.finished = true;
        let parsed = ollama::parse_tool_calls(self.tool_calls.as_slice());
        let ghost all = parsed@;
        let ghost calls = self.tool_calls@;
        let mut events: Vec<StreamEvent> = Vec::new();
        for call in it: parsed
            invariant
                it.seq() == all,
                events@.len() == it.index(),
                forall|k: int|
                    0 <= k < events@.len() ==> (#[trigger] events@[k]) == StreamEvent::ToolCall(
                        all[k],
                    ),
        {
            events.push(StreamEvent::ToolCall(call));
        }
        events.push(StreamEvent::Final);
        assert(event_views(events@) =~= closing_events(self.calls()));
        events
    }
}

// ── Laws ────────────────────────────────────────────────────────────

/// The lines that are read where bytes arrive in `pieces` and all complete
/// lines are read after each of them; `left` is what was left before.
pub open spec fn framed(left: Seq<u8>, pieces: Seq<Seq<u8>>) -> Seq<Seq<u8>>
    decreases pieces.len(),
{
    if pieces.len() == 0 {
        Seq::empty()
    } else {
        let buffer = left + pieces[0];
        lines_of(buffer) + framed(tail_of(buffer), pieces.skip(1))
    }
}

/// The pieces one after the other.
pub open spec fn flattened(pieces: Seq<Seq<u8>>) -> Seq<u8>
    decreases pieces.len(),
{
    if pieces.len() == 0 {
        Seq::empty()
    } else {
        pieces[0] + flattened(pieces.skip(1))
    }
}

/// How the bytes of a reply are cut into pieces does not matter: the lines read
/// are those of the bytes as a whole.
pub proof fn framing_ignores_cuts(pieces: Seq<Seq<u8>>)
    ensures
        framed(Seq::empty(), pieces) == lines_of(flattened(pieces)),
{
    framing_from(Seq::empty(), pieces);
    assert(Seq::<u8>::empty() + flattened(pieces) =~= flattened(pieces));
}

proof fn framing_from(left: Seq<u8>, pieces: Seq<Seq<u8>>)
    requires
        lines_of(left) == Seq::<Seq<u8>>::empty(),
    ensures
        framed(left, pieces) == lines_of(left + flattened(pieces)),
    decreases pieces.len(),
{
    if pieces.len() == 0 {
        assert(left + flattened(pieces) =~= left);
    } else {
        let buffer = left + pieces[0];
        let rest = flattened(pieces.skip(1));
        tail_is_partial(buffer);
        framing_from(tail_of(buffer), pieces.skip(1));
        lines_concat(buffer, rest);
        assert(left + flattened(pieces) =~= buffer + rest);
    }
}

/// The events of a whole reply: its chunks up to the last one, or to the end of
/// the stream where there is no last one.
pub open spec fn reply_events(calls: Seq<ToolCallView>, chunks: Seq<ApiChatResponse>) -> Seq<
    EventView,
>
    decreases chunks.len(),
{
    if chunks.len() == 0 {
        closing_events(calls)
    } else if chunks[0].done {
        chunk_events(calls, chunks[0])
    } else {
        chunk_events(calls, chunks[0]) + reply_events(
            calls + chunk_calls(chunks[0]),
            chunks.skip(1),
        )
    }
}

/// Every reply ends in one final event, and no event comes before it that says
/// the same.
pub proof fn reply_ends_once(calls: Seq<ToolCallView>, chunks: Seq<ApiChatResponse>)
    ensures
        reply_events(calls, chunks).len() > 0,
        reply_events(calls, chunks).last() == EventView::Final,
        forall|i: int|
            0 <= i < reply_events(calls, chunks).len() - 1 ==> (#[trigger] reply_events(
                calls,
                chunks,
            )[i]) != EventView::Final,
    decreases chunks.len(),
{
    if chunks.len() > 0 {
        deltas_are_not_final(chunks[0]);
        if !chunks[0].done {
            let seen = calls + chunk_calls(chunks[0]);
            reply_ends_once(seen, chunks.skip(1));
            let first = chunk_events(calls, chunks[0]);
            let rest = reply_events(seen, chunks.skip(1));
            assert(reply_events(calls, chunks) == first + rest);
        }
    }
}

proof fn deltas_are_not_final(chunk: ApiChatResponse)
    ensures
        forall|i: int|
            0 <= i < delta_events(chunk).len() ==> (#[trigger] delta_events(chunk)[i])
                != EventView::Final,
{
}

/// The tool calls of a reply are told together, right before the end, whatever
/// chunks they came in; before them stand the pieces of all chunks in order.
pub proof fn calls_are_told_at_the_end(calls: Seq<ToolCallView>, chunks: Seq<ApiChatResponse>)
    ensures
        reply_events(calls, chunks) == reply_deltas(chunks) + closing_events(
            calls_until_done(calls, chunks),
        ),
    decreases chunks.len(),
{
    let closing = closing_events(calls_until_done(calls, chunks));
    if chunks.len() == 0 {
        assert(reply_deltas(chunks) + closing =~= closing);
    } else if !chunks[0].done {
        calls_are_told_at_the_end(calls + chunk_calls(chunks[0]), chunks.skip(1));
        let first = delta_events(chunks[0]);
        let later = reply_deltas(chunks.skip(1));
        assert(first + (later + closing) =~= (first + later) + closing);
    }
}

/// The pieces that the chunks up to the last one bring.
pub open spec fn reply_deltas(chunks: Seq<ApiChatResponse>) -> Seq<EventView>
    decreases chunks.len(),
{
    if chunks.len() == 0 {
        Seq::empty()
    } else if chunks[0].done {
        delta_events(chunks[0])
    } else {
        delta_events(chunks[0]) + reply_deltas(chunks.skip(1))
    }
}

/// The tool calls that the chunks up to the last one bring.
pub open spec fn calls_until_done(calls: Seq<ToolCallView>, chunks: Seq<ApiChatResponse>) -> Seq<
    ToolCallView,
>
    decreases chunks.len(),
{
    if chunks.len() == 0 {
        calls
    } else if chunks[0].done {
        calls + chunk_calls(chunks[0])
    } else {
        calls_until_done(calls + chunk_calls(chunks[0]), chunks.skip(1))
    }
}

/// The text that events make up, one after the other.
pub open spec fn text_told(events: Seq<EventView>) -> Seq<char>
    decreases events.len(),
{
    if events.len() == 0 {
        Seq::empty()
    } else {
        text_told(events.drop_last()) + match events.last() {
            EventView::Piece(delta, _) => delta,
            _ => Seq::empty(),
        }
    }
}

/// The reasoning that events make up, one after the other.
pub open spec fn reasoning_told(events: Seq<EventView>) -> Seq<char>
    decreases events.len(),
{
    if events.len() == 0 {
        Seq::empty()
    } else {
        reasoning_told(events.drop_last()) + match events.last() {
            EventView::Piece(_, Some(r)) => r,
            _ => Seq::empty(),
        }
    }
}

/// The contents of the chunks up to the last one, one after the other.
pub open spec fn text_sent(chunks: Seq<ApiChatResponse>) -> Seq<char>
    decreases chunks.len(),
{
    if chunks.len() == 0 {
        Seq::empty()
    } else {
        let here = match chunks[0].message {
            Some(m) => m.content@,
            None => Seq::empty(),
        };
        if chunks[0].done {
            here
        } else {
            here + text_sent(chunks.skip(1))
        }
    }
}

/// The thinking fields of the chunks up to the last one, one after the other.
pub open spec fn reasoning_sent(chunks: Seq<ApiChatResponse>) -> Seq<char>
    decreases chunks.len(),
{
    if chunks.len() == 0 {
        Seq::empty()
    } else {
        let here = match chunks[0].message {
            Some(m) => match m.thinking {
                Some(t) => t@,
                None => Seq::empty(),
            },
            None => Seq::empty(),
        };
        if chunks[0].done {
            here
        } else {
            here + reasoning_sent(chunks.skip(1))
        }
    }
}

/// The tool calls of the chunks up to the last one, one after the other.
pub open spec fn calls_sent(chunks: Seq<ApiChatResponse>) -> Seq<ToolCallView>
    decreases chunks.len(),
{
    if chunks.len() == 0 {
        Seq::empty()
    } else {
        let here = match chunks[0].message {
            Some(m) => match m.tool_calls {
                Some(calls) => messages::call_views(calls@),
                None => Seq::empty(),
            },
            None => Seq::empty(),
        };
        if chunks[0].done {
            here
        } else {
            here + calls_sent(chunks.skip(1))
        }
    }
}

proof fn told_concat(a: Seq<EventView>, b: Seq<EventView>)
    ensures
        text_told(a + b) == text_told(a) + text_told(b),
        reasoning_told(a + b) == reasoning_told(a) + reasoning_told(b),
    decreases b.len(),
{
    if b.len() == 0 {
        assert(a + b =~= a);
        assert(text_told(a) + text_told(b) =~= text_told(a));
        assert(reasoning_told(a) + reasoning_told(b) =~= reasoning_told(a));
    } else {
        told_concat(a, b.drop_last());
        assert((a + b).drop_last() =~= a + b.drop_last());
        assert((a + b).last() == b.last());
        assert(text_told(a + b) =~= text_told(a) + text_told(b));
        assert(reasoning_told(a + b) =~= reasoning_told(a) + reasoning_told(b));
    }
}

proof fn told_nothing(events: Seq<EventView>)
    requires
        forall|i: int| 0 <= i < events.len() ==> !((#[trigger] events[i]) is Piece),
    ensures
        text_told(events) == Seq::<char>::empty(),
        reasoning_told(events) == Seq::<char>::empty(),
    decreases events.len(),
{
    if events.len() > 0 {
        let before = events.drop_last();
        assert forall|i: int| 0 <= i < before.len() implies !((#[trigger] before[i]) is Piece) by {
            assert(before[i] == events[i]);
        }
        told_nothing(before);
        assert(!(events[events.len() - 1] is Piece));
        assert(text_told(events) =~= Seq::<char>::empty());
        assert(reasoning_told(events) =~= Seq::<char>::empty());
    }
}

proof fn told_once(event: EventView)
    ensures
        event matches EventView::Piece(delta, reasoning) ==> text_told(seq![event]) == delta
            && reasoning_told(seq![event]) == (match reasoning {
            Some(r) => r,
            None => Seq::empty(),
        }),
{
    let one = seq![event];
    assert(one.drop_last() =~= Seq::<EventView>::empty());
    assert(text_told(one.drop_last()) =~= Seq::<char>::empty());
    assert(reasoning_told(one.drop_last()) =~= Seq::<char>::empty());
    if let EventView::Piece(delta, reasoning) = event {
        assert(text_told(one) =~= delta);
        if let Some(r) = reasoning {
            assert(reasoning_told(one) =~= r);
        } else {
            assert(reasoning_told(one) =~= Seq::<char>::empty());
        }
    }
}

/// A chunk is told character for character: its text is its content, its reasoning
/// its thinking field, whatever tool calls came before and whether or not it is the
/// last one.
pub proof fn chunk_is_told_in_full(calls: Seq<ToolCallView>, chunk: ApiChatResponse)
    ensures
        text_told(chunk_events(calls, chunk)) == (match chunk.message {
            Some(m) => m.content@,
            None => Seq::empty(),
        }),
        reasoning_told(chunk_events(calls, chunk)) == (match chunk.message {
            Some(m) => match m.thinking {
                Some(t) => t@,
                None => Seq::empty(),
            },
            None => Seq::empty(),
        }),
{
    let deltas = delta_events(chunk);
    let nothing = Seq::<EventView>::empty();
    told_nothing(nothing);
    if let Some(m) = chunk.message {
        let thought = EventView::Piece(
            Seq::empty(),
            Some(
                match m.thinking {
                    Some(t) => t@,
                    None => Seq::empty(),
                },
            ),
        );
        let said = EventView::Piece(m.content@, None);
        told_once(thought);
        told_once(said);
        let reasoning = match m.thinking {
            Some(t) => if t@.len() > 0 {
                seq![thought]
            } else {
                nothing
            },
            None => nothing,
        };
        let answer = if m.content@.len() > 0 {
            seq![said]
        } else {
            nothing
        };
        told_concat(reasoning, answer);
        assert(deltas =~= reasoning + answer);
        assert(text_told(deltas) =~= m.content@);
        if let Some(t) = m.thinking {
            assert(reasoning_told(deltas) =~= t@);
        } else {
            assert(reasoning_told(deltas) =~= Seq::<char>::empty());
        }
    }
    if chunk.done {
        let closing = closing_events(calls + chunk_calls(chunk));
        told_nothing(closing);
        told_concat(deltas, closing);
        assert(text_told(deltas) + Seq::<char>::empty() =~= text_told(deltas));
        assert(reasoning_told(deltas) + Seq::<char>::empty() =~= reasoning_told(deltas));
    }
}

/// The text of a reply, piece after piece, is the contents of its chunks one after
/// the other, character for character, and its reasoning is their thinking fields.
pub proof fn reply_is_told_in_full(calls: Seq<ToolCallView>, chunks: Seq<ApiChatResponse>)
    ensures
        text_told(reply_events(calls, chunks)) == text_sent(chunks),
        reasoning_told(reply_events(calls, chunks)) == reasoning_sent(chunks),
    decreases chunks.len(),
{
    if chunks.len() == 0 {
        told_nothing(closing_events(calls));
    } else {
        chunk_is_told_in_full(calls, chunks[0]);
        if !chunks[0].done {
            let seen = calls + chunk_calls(chunks[0]);
            reply_is_told_in_full(seen, chunks.skip(1));
            told_concat(chunk_events(calls, chunks[0]), reply_events(seen, chunks.skip(1)));
        }
    }
}

/// No piece is empty, and none carries text and reasoning at once.
pub proof fn pieces_are_never_empty(chunk: ApiChatResponse)
    ensures
        forall|i: int|
            0 <= i < delta_events(chunk).len() ==> match #[trigger] delta_events(chunk)[i] {
                EventView::Piece(delta, Some(r)) => delta.len() == 0 && r.len() > 0,
                EventView::Piece(delta, None) => delta.len() > 0,
                _ => false,
            },
{
}

/// Every tool call of a reply is told, in the order in which they came, with its
/// name, its arguments and an id that tells its position; behind them stands the end.
pub proof fn every_call_is_told(chunks: Seq<ApiChatResponse>, i: int)
    ensures
        ({
            let events = reply_events(Seq::empty(), chunks);
            let calls = calls_sent(chunks);
            let first = events.len() - 1 - calls.len();
            &&& first >= 0
            &&& 0 <= i < calls.len() ==> match events[first + i] {
                EventView::ToolCall(id, name, arguments) => {
                    &&& name == calls[i].name
                    &&& arguments == json::json_text(calls[i].arguments)
                    &&& id.take("ollama-tc-"@.len() as int) == "ollama-tc-"@
                    &&& text::denoted(id.skip("ollama-tc-"@.len() as int)) == i
                },
                _ => false,
            }
            &&& 0 <= i < first ==> events[i] is Piece
        }),
{
    calls_are_told_at_the_end(Seq::empty(), chunks);
    calls_until_done_are_sent(Seq::empty(), chunks);
    assert(Seq::<ToolCallView>::empty() + calls_sent(chunks) =~= calls_sent(chunks));
    deltas_are_pieces(chunks);
    let calls = calls_sent(chunks);
    let deltas = reply_deltas(chunks);
    let events = reply_events(Seq::empty(), chunks);
    assert(events == deltas + closing_events(calls));
    if 0 <= i < calls.len() {
        text::decimal_denotes(i as nat);
        let id = ollama::call_id(i);
        assert(id.take("ollama-tc-"@.len() as int) =~= "ollama-tc-"@);
        assert(id.skip("ollama-tc-"@.len() as int) =~= text::decimal(i as nat));
        assert(events[deltas.len() + i] == closing_events(calls)[i]);
    }
}

proof fn calls_until_done_are_sent(calls: Seq<ToolCallView>, chunks: Seq<ApiChatResponse>)
    ensures
        calls_until_done(calls, chunks) == calls + calls_sent(chunks),
    decreases chunks.len(),
{
    if chunks.len() == 0 {
        assert(calls + calls_sent(chunks) =~= calls);
    } else {
        let here = chunk_calls(chunks[0]);
        assert(here =~= match chunks[0].message {
            Some(m) => match m.tool_calls {
                Some(list) => messages::call_views(list@),
                None => Seq::empty(),
            },
            None => Seq::empty(),
        });
        if !chunks[0].done {
            calls_until_done_are_sent(calls + here, chunks.skip(1));
            assert(calls + here + calls_sent(chunks.skip(1)) =~= calls + calls_sent(chunks));
        }
    }
}

proof fn deltas_are_pieces(chunks: Seq<ApiChatResponse>)
    ensures
        forall|i: int|
            0 <= i < reply_deltas(chunks).len() ==> (#[trigger] reply_deltas(chunks)[i]) is Piece,
    decreases chunks.len(),
{
    if chunks.len() > 0 {
        pieces_are_never_empty(chunks[0]);
        let here = delta_events(chunks[0]);
        if !chunks[0].done {
            deltas_are_pieces(chunks.skip(1));
            let later = reply_deltas(chunks.skip(1));
            let all = reply_deltas(chunks);
            assert forall|i: int| 0 <= i < all.len() implies (#[trigger] all[i]) is Piece by {
                if i < here.len() {
                    assert(all[i] == here[i]);
                } else {
                    assert(all[i] == later[i - here.len()]);
                }
            }
        }
    }
}

/// Blank bytes around a line go and nothing else.
pub proof fn trimming_finds_the_line(left: Seq<u8>, middle: Seq<u8>, right: Seq<u8>)
    requires
        forall|i: int| 0 <= i < left.len() ==> is_blank_byte(#[trigger] left[i]),
        forall|i: int| 0 <= i < right.len() ==> is_blank_byte(#[trigger] right[i]),
        middle.len() > 0 ==> !is_blank_byte(middle[0]) && !is_blank_byte(middle.last()),
    ensures
        trim_bytes(left + middle + right) == middle,
{
    let whole = left + middle + right;
    if middle.len() == 0 {
        assert forall|i: int| 0 <= i < whole.len() implies is_blank_byte(whole[i]) by {
            if i < left.len() {
                assert(whole[i] == left[i]);
            } else {
                assert(whole[i] == right[i - left.len()]);
            }
        }
        trim_left_at(whole, whole.len() as int);
        assert(trim_bytes(whole) =~= middle);
    } else {
        let k = left.len() as int;
        assert forall|i: int| 0 <= i < k implies is_blank_byte(whole[i]) by {
            assert(whole[i] == left[i]);
        }
        assert(whole[k] == middle[0]);
        trim_left_at(whole, k);
        let rest = whole.skip(k);
        assert(rest =~= middle + right);
        assert forall|i: int| middle.len() <= i < rest.len() implies is_blank_byte(rest[i]) by {
            assert(rest[i] == right[i - middle.len()]);
        }
        trim_right_at(rest, middle.len() as int);
        assert(rest.take(middle.len() as int) =~= middle);
    }
}

/// A line that a line feed ends is read, trimmed, unless it is blank, wherever it
/// stands; the lines before it and behind it are read too.
pub proof fn complete_line_is_read(before: Seq<u8>, line: Seq<u8>, after: Seq<u8>)
    requires
        before.len() == 0 || before.last() == 0x0a,
        forall|i: int| 0 <= i < line.len() ==> #[trigger] line[i] != 0x0a,
    ensures
        lines_of(before + line + seq![0x0au8] + after) == lines_of(before) + (if trim_bytes(
            line,
        ).len() == 0 {
            Seq::<Seq<u8>>::empty()
        } else {
            seq![trim_bytes(line)]
        }) + lines_of(after),
        tail_of(before + line + seq![0x0au8] + after) == tail_of(after),
{
    let rest = line + seq![0x0au8] + after;
    let p = line.len() as int;
    lines_concat(before, rest);
    assert(tail_of(before) + rest =~= rest);
    assert(before + rest =~= before + line + seq![0x0au8] + after);
    assert(rest[p] == 0x0a);
    assert forall|i: int| 0 <= i < p implies rest[i] != 0x0a by {
        assert(rest[i] == line[i]);
    }
    first_line_splits(rest, p);
    assert(rest.take(p) =~= line);
    assert(rest.skip(p + 1) =~= after);
    assert(lines_of(before + rest) =~= lines_of(before) + (if trim_bytes(line).len() == 0 {
        Seq::<Seq<u8>>::empty()
    } else {
        seq![trim_bytes(line)]
    }) + lines_of(after));
}

/// Bytes that no line feed ends are no line yet and wait, all of them.
pub proof fn unfinished_line_waits(bytes: Seq<u8>)
    requires
        forall|i: int| 0 <= i < bytes.len() ==> #[trigger] bytes[i] != 0x0a,
    ensures
        lines_of(bytes) == Seq::<Seq<u8>>::empty(),
        tail_of(bytes) == bytes,
{
    no_feed_no_line(bytes);
}

/// Of the bytes blank, tab, line feed, form feed and carriage return are blank.
pub proof fn blank_bytes_are_invisible(b: u8)
    ensures
        b > 0x20 ==> !is_blank_byte(b),
        is_blank_byte(0x20) && is_blank_byte(0x0d) && is_blank_byte(0x0a),
        is_blank_byte(b) <==> b != 0x0b && b <= 0x7f && text::is_white(b as char),
{
}

/// What events say is what they hold, field by field and one for one.
pub proof fn events_say_what_they_hold(chunk: StreamChunk, call: ToolCall, events: Seq<StreamEvent>)
    ensures
        StreamEvent::TextDelta(chunk).says() == EventView::Piece(
            chunk.delta@,
            text::opt_text(chunk.reasoning),
        ),
        StreamEvent::ToolCall(call).says() == EventView::ToolCall(
            call.id@,
            call.name@,
            call.arguments@,
        ),
        StreamEvent::Final.says() == EventView::Final,
        event_views(events).len() == events.len(),
        forall|i: int|
            0 <= i < events.len() ==> #[trigger] event_views(events)[i] == events[i].says(),
{
}

} // verus!
