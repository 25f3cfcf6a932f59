//! Decoding the server-sent event stream of a streaming chat completion.
use vstd::prelude::*;
use vstd::string::*;
use vstd::utf8::{decode_utf8, valid_utf8, decode_first_scalar, length_of_first_scalar, pop_first_scalar};
use crate::json::opt_view;
use crate::text::{chars_of, string_of, trim_end_index, trim_start_index, trim_text, trim_end_text, trim_start_text, occurs_at_exec, occurs_at};

verus! {

broadcast use vstd::string::group_string_axioms;

/// What `String::from_utf8_lossy` makes of `bytes`.
pub uninterp spec fn utf8_lossy(bytes: Seq<u8>) -> Seq<char>;

/// Decodes a chunk of the response body, replacing invalid UTF-8 with U+FFFD
/// (`String::from_utf8_lossy`). Claims that the result is a function of the bytes alone, and,
/// as the standard library documents, that valid UTF-8 is decoded unchanged.
#[verifier::external_body]
fn decode_lossy(bytes: &[u8]) -> (s: String)
    ensures
        s@ == utf8_lossy(bytes@),
        valid_utf8(bytes@) ==> s@ == decode_utf8(bytes@),
{
    String::from_utf8_lossy(bytes).to_string()
}

/// What `serde_json` finds at `choices[0].delta.content` of the JSON text `data`, when that is
/// a string.
pub uninterp spec fn delta_content(data: Seq<char>) -> Option<Seq<char>>;

/// Parses `data` as JSON with `serde_json` and reads the string at `choices[0].delta.content`.
/// Claims only that the result is a function of `data`; nothing is said of what it is.
#[verifier::external_body]
fn read_delta_content(data: &str) -> (r: Option<String>)
    ensures
        r matches Some(c) ==> delta_content(data@) == Some(c@),
        r is None ==> delta_content(data@) is None,
{
    match serde_json::from_str::<serde_json::Value>(data) {
        Ok(v) => match &v["choices"][0]["delta"]["content"] {
            serde_json::Value::String(c) => Some(c.clone()),
            _ => None,
        },
        Err(_) => None,
    }
}

/// What the stream reader hands the decoder.
pub enum StreamInput {
    /// A chunk arrived while the user had asked to stop.
    Cancelled,
    /// The next chunk of the response body.
    Chunk(Vec<u8>),
    /// Reading the next chunk failed, with the reader's message.
    ReadFailed(String),
    /// The response body ended.
    Ended,
}

/// What the decoder asks the frontend to be told.
pub enum StreamEvent {
    /// A piece of the reply text.
    Chunk(String),
    /// The reply is complete.
    Done,
    /// The stream failed, with the message to show.
    Failed(String),
}

/// A stream event as the specification sees it.
pub ghost enum StreamEventView {
    Chunk(Seq<char>),
    Done,
    Failed(Seq<char>),
}

impl View for StreamEvent {
    type V = StreamEventView;

    open spec fn view(&self) -> StreamEventView {
        match self {
            StreamEvent::Chunk(c) => StreamEventView::Chunk(c@),
            StreamEvent::Done => StreamEventView::Done,
            StreamEvent::Failed(m) => StreamEventView::Failed(m@),
        }
    }
}

/// The views of a list of events.
pub open spec fn event_views(events: Seq<StreamEvent>) -> Seq<StreamEventView> {
    events.map_values(|e: StreamEvent| e@)
}

/// Position of the first blank line (`"\n\n"`) in `s` at or after `from`.
pub open spec fn find_blank(s: Seq<char>, from: int) -> Option<int>
    decreases s.len() - from,
{
    if from < 0 || from + 1 >= s.len() {
        None
    } else if s[from] == '\n' && s[from + 1] == '\n' {
        Some(from)
    } else {
        find_blank(s, from + 1)
    }
}

/// Position of the first `'\n'` in `s[from..hi]`.
pub open spec fn find_newline(s: Seq<char>, from: int, hi: int) -> Option<int>
    decreases hi - from,
{
    if from < 0 || from >= hi || hi > s.len() {
        None
    } else if s[from] == '\n' {
        Some(from)
    } else {
        find_newline(s, from + 1, hi)
    }
}

/// The event a single line of an event block stands for: `data: [DONE]` ends the reply, and a
/// `data:` line whose JSON carries non-empty content is a piece of it.
pub open spec fn line_event(line: Seq<char>) -> Option<StreamEventView> {
    if "data: "@.is_prefix_of(line) {
        let data = line.skip(6);
        if trim_text(data) == "[DONE]"@ {
            Some(StreamEventView::Done)
        } else {
            content_event(delta_content(data))
        }
    } else {
        None
    }
}

/// The event for the content found in a `data:` line: a piece of the reply when it is a
/// non-empty string, nothing otherwise.
pub open spec fn content_event(content: Option<Seq<char>>) -> Option<StreamEventView> {
    match content {
        Some(c) => if c.len() > 0 {
            Some(StreamEventView::Chunk(c))
        } else {
            None
        },
        None => None,
    }
}

/// Every non-empty piece of content is a piece of the reply, as it came (white space and line
/// breaks included); missing or empty content is none.
pub proof fn lemma_content_is_passed_on(c: Seq<char>)
    ensures
        c.len() > 0 ==> content_event(Some(c)) == Some(StreamEventView::Chunk(c)),
        c.len() == 0 ==> content_event(Some(c)) is None,
        content_event(None) is None,
{
}

/// A `data:` line whose JSON carries non-empty content, and is not the `[DONE]` marker, stands
/// for exactly that content as a piece of the reply.
pub proof fn lemma_data_line_passes_content_on(data: Seq<char>, c: Seq<char>)
    requires
        delta_content(data) == Some(c),
        c.len() > 0,
        trim_text(data) != "[DONE]"@,
    ensures
        line_event("data: "@ + data) == Some(StreamEventView::Chunk(c)),
{
    reveal_strlit("data: ");
    let line = "data: "@ + data;
    assert("data: "@.is_prefix_of(line)) by {
        assert(line.subrange(0, 6) =~= "data: "@);
    }
    assert(line.skip(6) =~= data);
}

/// The event for the content found in a `data:` line.
pub fn event_for_content(content: Option<String>) -> (r: Option<StreamEvent>)
    ensures
        match r {
            Some(e) => content_event(opt_view(content)) == Some(e@),
            None => content_event(opt_view(content)) is None,
        },
{
    match content {
        Some(c) => {
            if c.as_str().is_empty() {
                None
            } else {
                Some(StreamEvent::Chunk(c))
            }
        },
        None => None,
    }
}

/// The events of the lines of `s[lo..hi]`, up to and including a `Done`, and whether a `Done`
/// was met. Lines end at `'\n'`; a `'\r'` right before the `'\n'` is not part of the line.
pub open spec fn block_events(s: Seq<char>, lo: int, hi: int) -> (Seq<StreamEventView>, bool)
    decreases hi - lo,
{
    if lo < 0 || lo >= hi || hi > s.len() {
        (seq![], false)
    } else {
        let (line, next) = match find_newline(s, lo, hi) {
            Some(i) => (if i > lo && s[i - 1] == '\r' {
                s.subrange(lo, i - 1)
            } else {
                s.subrange(lo, i)
            }, i + 1),
            None => (s.subrange(lo, hi), hi),
        };
        if next <= lo || next > hi {
            (seq![], false)
        } else {
            match line_event(line) {
                Some(StreamEventView::Done) => (seq![StreamEventView::Done], true),
                Some(e) => {
                    let (rest, done) = block_events(s, next, hi);
                    (seq![e] + rest, done)
                },
                None => block_events(s, next, hi),
            }
        }
    }
}

/// The events of every complete block (text ending in a blank line) of `s` from `from` on,
/// the position where the unfinished rest begins, and whether a `Done` was met.
pub open spec fn drain_blocks(s: Seq<char>, from: int) -> (Seq<StreamEventView>, int, bool)
    decreases s.len() - from,
{
    match find_blank(s, from) {
        None => (seq![], from, false),
        Some(p) => {
            if p < from || p + 2 > s.len() {
                (seq![], from, false)
            } else {
                let (ev, done) = block_events(s, from, p);
                if done {
                    (ev, p + 2, true)
                } else {
                    let (ev2, rest, done2) = drain_blocks(s, p + 2);
                    (ev + ev2, rest, done2)
                }
            }
        }
    }
}

} // verus!

verus! {

/// What one input does to a decoder with unfinished text `pending`: the events it produces,
/// the unfinished text afterwards, and whether the stream is over.
/// Once over, the decoder ignores further input; a stop request or the end of the body ends
/// the reply; a read failure reports `流式读取错误: ` and the reader's message; a chunk is
/// decoded, added to the pending text, and every complete block in it is handled.
pub open spec fn feed_outcome(pending: Seq<char>, finished: bool, input: StreamInput) -> (
    Seq<StreamEventView>,
    Seq<char>,
    bool,
) {
    if finished {
        (seq![], pending, true)
    } else {
        match input {
            StreamInput::Cancelled => (seq![StreamEventView::Done], pending, true),
            StreamInput::Ended => (seq![StreamEventView::Done], pending, true),
            StreamInput::ReadFailed(e) => (
                seq![StreamEventView::Failed("流式读取错误: "@ + e@)],
                pending,
                true,
            ),
            StreamInput::Chunk(b) => feed_text(pending, chunk_text(b@)),
        }
    }
}

/// The text of a chunk: its UTF-8 decoding when it is valid UTF-8, else what lossy decoding
/// makes of it.
pub open spec fn chunk_text(bytes: Seq<u8>) -> Seq<char> {
    if valid_utf8(bytes) {
        decode_utf8(bytes)
    } else {
        utf8_lossy(bytes)
    }
}

/// What the text `text` of a chunk does to an unfinished decoder with text `pending`: it is
/// added to the pending text, and every complete block is handled.
pub open spec fn feed_text(pending: Seq<char>, text: Seq<char>) -> (
    Seq<StreamEventView>,
    Seq<char>,
    bool,
) {
    let all = pending + text;
    let (ev, rest, done) = drain_blocks(all, 0);
    if done {
        (ev, seq![], true)
    } else {
        (ev, all.skip(rest), false)
    }
}

/// Turns the chunks of a streamed chat completion into reply pieces and a final `Done`.
pub struct SseDecoder {
    buffer: Vec<char>,
    finished: bool,
}

fn find_blank_exec(v: &Vec<char>, from: usize) -> (r: Option<usize>)
    ensures
        match r {
            Some(p) => find_blank(v@, from as int) == Some(p as int) && from <= p && p + 1 < v.len(),
            None => find_blank(v@, from as int) is None,
        },
{
    let mut i = from;
    while i < v.len() && v.len() - i > 1
        invariant
            from <= i,
            find_blank(v@, from as int) == find_blank(v@, i as int),
        decreases v.len() - i,
    {
        if v[i] == '\n' && v[i + 1] == '\n' {
            return Some(i);
        }
        i = i + 1;
    }
    None
}

fn find_newline_exec(v: &Vec<char>, from: usize, hi: usize) -> (r: Option<usize>)
    requires
        from <= hi <= v.len(),
    ensures
        match r {
            Some(p) => find_newline(v@, from as int, hi as int) == Some(p as int) && from <= p < hi,
            None => find_newline(v@, from as int, hi as int) is None,
        },
{
    let mut i = from;
    while i < hi
        invariant
            from <= i <= hi <= v.len(),
            find_newline(v@, from as int, hi as int) == find_newline(v@, i as int, hi as int),
        decreases hi - i,
    {
        if v[i] == '\n' {
            return Some(i);
        }
        i = i + 1;
    }
    None
}

fn line_event_exec(v: &Vec<char>, lo: usize, end: usize) -> (r: Option<StreamEvent>)
    requires
        lo <= end <= v.len(),
    ensures
        match r {
            Some(e) => line_event(v@.subrange(lo as int, end as int)) == Some(e@),
            None => line_event(v@.subrange(lo as int, end as int)) is None,
        },
{
    let ghost line = v@.subrange(lo as int, end as int);
    let prefix = chars_of("data: ");
    proof {
        reveal_strlit("data: ");
    }
    if end - lo < 6 || !occurs_at_exec(v, &prefix, lo) {
        proof {
            if "data: "@.is_prefix_of(line) {
                assert(v@.subrange(lo as int, lo + 6) =~= line.subrange(0, 6));
            }
        }
        return None;
    }
    assert("data: "@.is_prefix_of(line)) by {
        assert(line.subrange(0, 6) =~= v@.subrange(lo as int, lo + 6));
    }
    let data_lo = lo + 6;
    assert(line.skip(6) =~= v@.subrange(data_lo as int, end as int));
    let s = trim_start_index(v, data_lo, end);
    let e = trim_end_index(v, s, end);
    let done_text = chars_of("[DONE]");
    proof {
        reveal_strlit("[DONE]");
    }
    if e - s == 6 && occurs_at_exec(v, &done_text, s) {
        assert(trim_text(line.skip(6)) =~= "[DONE]"@);
        return Some(StreamEvent::Done);
    }
    assert(trim_text(line.skip(6)) != "[DONE]"@) by {
        if trim_text(line.skip(6)) == "[DONE]"@ {
            assert(v@.subrange(s as int, s + 6) =~= done_text@);
        }
    }
    let data = string_of(v, data_lo, end);
    event_for_content(read_delta_content(data.as_str()))
}

fn block_events_exec(v: &Vec<char>, lo: usize, hi: usize, events: &mut Vec<StreamEvent>) -> (done:
    bool)
    requires
        lo <= hi <= v.len(),
    ensures
        event_views(final(events)@) == event_views(old(events)@) + block_events(
            v@,
            lo as int,
            hi as int,
        ).0,
        done == block_events(v@, lo as int, hi as int).1,
{
    let mut i = lo;
    while i < hi
        invariant
            lo <= i <= hi <= v.len(),
            !block_events(v@, i as int, hi as int).1 ==> !block_events(v@, lo as int, hi as int).1,
            block_events(v@, lo as int, hi as int).1 == block_events(v@, i as int, hi as int).1,
            event_views(old(events)@) + block_events(v@, lo as int, hi as int).0 == event_views(
                events@,
            ) + block_events(v@, i as int, hi as int).0,
        decreases hi - i,
    {
        let ghost before = events@;
        let (line_end, next) = match find_newline_exec(v, i, hi) {
            Some(n) => (if n > i && v[n - 1] == '\r' {
                n - 1
            } else {
                n
            }, n + 1),
            None => (hi, hi),
        };
        match line_event_exec(v, i, line_end) {
            Some(StreamEvent::Done) => {
                assert(block_events(v@, i as int, hi as int).0 =~= seq![StreamEventView::Done]);
                events.push(StreamEvent::Done);
                assert(event_views(events@) =~= event_views(before) + seq![StreamEventView::Done]);
                return true;
            },
            Some(ev) => {
                let ghost ev_view = ev@;
                events.push(ev);
                assert(event_views(events@) =~= event_views(before) + seq![ev_view]);
                assert(block_events(v@, i as int, hi as int).0 =~= seq![ev_view]
                    + block_events(v@, next as int, hi as int).0);
            },
            None => {},
        }
        i = next;
    }
    false
}

impl SseDecoder {
    /// The text received but not yet handled: the start of an unfinished block.
    pub closed spec fn pending(&self) -> Seq<char> {
        self.buffer@
    }

    /// Whether the stream is over (done, stopped or failed).
    pub closed spec fn is_finished(&self) -> bool {
        self.finished
    }

    /// A decoder that has received nothing yet.
    pub fn new() -> (d: SseDecoder)
        ensures
            d.pending() == Seq::<char>::empty(),
            !d.is_finished(),
    {
        SseDecoder { buffer: Vec::new(), finished: false }
    }

    /// Whether the stream is over.
    pub fn finished(&self) -> (r: bool)
        ensures
            r == self.is_finished(),
    {
        self.finished
    }

    /// Handles one input from the stream reader and returns the events to emit, in order.
    pub fn feed(&mut self, input: StreamInput) -> (events: Vec<StreamEvent>)
        ensures
            ({
                let (ev, pending, finished) = feed_outcome(
                    old(self).pending(),
                    old(self).is_finished(),
                    input,
                );
                &&& event_views(events@) == ev
                &&& final(self).pending() == pending
                &&& final(self).is_finished() == finished
            }),
    {
        let mut events: Vec<StreamEvent> = Vec::new();
        if self.finished {
            assert(event_views(events@) =~= seq![]);
            return events;
        }
        match input {
            StreamInput::Cancelled => {
                events.push(StreamEvent::Done);
                self.finished = true;
                assert(event_views(events@) =~= seq![StreamEventView::Done]);
                events
            },
            StreamInput::Ended => {
                events.push(StreamEvent::Done);
                self.finished = true;
                assert(event_views(events@) =~= seq![StreamEventView::Done]);
                events
            },
            StreamInput::ReadFailed(e) => {
                let mut msg = "流式读取错误: ".to_string();
                msg.append(e.as_str());
                let ghost m = msg@;
                events.push(StreamEvent::Failed(msg));
                self.finished = true;
                assert(event_views(events@) =~= seq![StreamEventView::Failed(m)]);
                events
            },
            StreamInput::Chunk(bytes) => {
                let text = decode_lossy(bytes.as_slice());
                let tv = chars_of(text.as_str());
                let mut k: usize = 0;
                while k < tv.len()
                    invariant
                        k <= tv.len(),
                        self.buffer@ == old(self).buffer@ + tv@.take(k as int),
                        !self.finished,
                    decreases tv.len() - k,
                {
                    self.buffer.push(tv[k]);
                    k = k + 1;
                    assert(self.buffer@ =~= old(self).buffer@ + tv@.take(k as int));
                }
                let ghost all = self.buffer@;
                assert(all =~= old(self).buffer@ + chunk_text(bytes@));
                let mut start: usize = 0;
                loop
                    invariant
                        self.buffer@ == all,
                        all == old(self).buffer@ + chunk_text(bytes@),
                        !old(self).finished,
                        input == StreamInput::Chunk(bytes),
                        start <= all.len(),
                        !self.finished,
                        drain_blocks(all, 0).2 == drain_blocks(all, start as int).2,
                        drain_blocks(all, 0).1 == drain_blocks(all, start as int).1,
                        drain_blocks(all, 0).0 == event_views(events@) + drain_blocks(
                            all,
                            start as int,
                        ).0,
                    ensures
                        find_blank(all, start as int) is None,
                    decreases all.len() - start,
                {
                    match find_blank_exec(&self.buffer, start) {
                        None => {
                            assert(event_views(events@) + drain_blocks(all, start as int).0
                                =~= event_views(events@));
                            break;
                        },
                        Some(p) => {
                            let ghost before = events@;
                            let done = block_events_exec(&self.buffer, start, p, &mut events);
                            if done {
                                assert(drain_blocks(all, start as int).0 == block_events(
                                    all,
                                    start as int,
                                    p as int,
                                ).0);
                                self.finished = true;
                                self.buffer = Vec::new();
                                assert(drain_blocks(all, 0).2);
                                assert(event_views(events@) == drain_blocks(all, 0).0);
                                assert(self.buffer@ =~= Seq::<char>::empty());
                                return events;
                            }
                            assert(drain_blocks(all, start as int).0 == block_events(
                                all,
                                start as int,
                                p as int,
                            ).0 + drain_blocks(all, p + 2).0);
                            assert(event_views(before) + (block_events(all, start as int, p as int).0
                                + drain_blocks(all, p + 2).0) =~= event_views(events@)
                                + drain_blocks(all, p + 2).0);
                            start = p + 2;
                        },
                    }
                }
                let rest = self.buffer.split_off(start);
                self.buffer = rest;
                assert(self.buffer@ =~= all.skip(start as int));
                assert(!drain_blocks(all, 0).2);
                assert(drain_blocks(all, 0).1 == start);
                assert(event_views(events@) == drain_blocks(all, 0).0);
                events
            },
        }
    }
}

/// The name of the frontend event for `event` in the stream named `prefix` (`chat` or
/// `analyze`).
pub open spec fn stream_event_name(prefix: Seq<char>, event: StreamEventView) -> Seq<char> {
    match event {
        StreamEventView::Chunk(_) => "ai-"@ + prefix + "-chunk"@,
        StreamEventView::Done => "ai-"@ + prefix + "-done"@,
        StreamEventView::Failed(_) => "ai-error"@,
    }
}

impl StreamEvent {
    /// The name of the frontend event for this event in the stream named `prefix`.
    pub fn name(&self, prefix: &str) -> (r: String)
        ensures
            r@ == stream_event_name(prefix@, self@),
    {
        match self {
            StreamEvent::Chunk(_) => {
                let mut r = "ai-".to_string();
                r.append(prefix);
                r.append("-chunk");
                r
            },
            StreamEvent::Done => {
                let mut r = "ai-".to_string();
                r.append(prefix);
                r.append("-done");
                r
            },
            StreamEvent::Failed(_) => "ai-error".to_string(),
        }
    }
}

} // verus!

verus! {

/// `s1[o1..o1 + n]` and `s2[o2..o2 + n]` hold the same characters.
pub open spec fn same_window(s1: Seq<char>, o1: int, s2: Seq<char>, o2: int, n: int) -> bool {
    &&& 0 <= o1
    &&& 0 <= o2
    &&& 0 <= n
    &&& o1 + n <= s1.len()
    &&& o2 + n <= s2.len()
    &&& forall|i: int| 0 <= i < n ==> #[trigger] s1[o1 + i] == s2[o2 + i]
}

/// The search for a blank line finds the first `"\n\n"` at or after `from`, and finds none
/// exactly when there is none.
pub proof fn lemma_find_blank_finds_the_first(s: Seq<char>, from: int)
    requires
        0 <= from,
    ensures
        find_blank(s, from) matches Some(p) ==> {
            &&& from <= p && p + 1 < s.len()
            &&& s[p] == '\n' && s[p + 1] == '\n'
            &&& forall|q: int| from <= q < p ==> !(#[trigger] s[q] == '\n' && s[q + 1] == '\n')
        },
        find_blank(s, from) is None ==> forall|q: int|
            from <= q && q + 1 < s.len() ==> !(#[trigger] s[q] == '\n' && s[q + 1] == '\n'),
    decreases s.len() - from,
{
    if from + 1 < s.len() && !(s[from] == '\n' && s[from + 1] == '\n') {
        lemma_find_blank_finds_the_first(s, from + 1);
    }
}

/// The end of the line starting at `from` is the first `'\n'` from there on.
proof fn lemma_find_newline_first(s: Seq<char>, from: int, k: int, hi: int)
    requires
        0 <= from <= k < hi <= s.len(),
        s[k] == '\n',
        forall|q: int| from <= q < k ==> s[q] != '\n',
    ensures
        find_newline(s, from, hi) == Some(k),
    decreases k - from,
{
    if from < k {
        lemma_find_newline_first(s, from + 1, k, hi);
    }
}

/// The lines of a block are handled in order: the first line (up to its `'\n'`, without a
/// `'\r'` just before it) gives its event; a `Done` ends the block; otherwise the events of
/// the following lines come after it.
pub proof fn lemma_block_lines_in_order(l: Seq<char>, r: Seq<char>)
    requires
        !l.contains('\n'),
    ensures
        ({
            let b = l + seq!['\n'] + r;
            let line = if l.len() > 0 && l.last() == '\r' {
                l.drop_last()
            } else {
                l
            };
            let rest = block_events(r, 0, r.len() as int);
            block_events(b, 0, b.len() as int) == match line_event(line) {
                Some(StreamEventView::Done) => (seq![StreamEventView::Done], true),
                Some(e) => (seq![e] + rest.0, rest.1),
                None => rest,
            }
        }),
{
    let b = l + seq!['\n'] + r;
    let k = l.len() as int;
    assert(b[k] == '\n');
    assert forall|q: int| 0 <= q < k implies b[q] != '\n' by {
        assert(b[q] == l[q]);
        if l[q] == '\n' {
            assert(l.contains('\n'));
        }
    }
    lemma_find_newline_first(b, 0, k, b.len() as int);
    if k > 0 {
        assert(b[k - 1] == l.last());
        assert(b.subrange(0, k - 1) =~= l.drop_last());
    }
    assert(b.subrange(0, k) =~= l);
    assert(same_window(b, k + 1, r, 0, r.len() as int)) by {
        assert forall|i: int| 0 <= i < r.len() implies #[trigger] b[k + 1 + i] == r[0 + i] by {
            assert(b[k + 1 + i] == r[i]);
        }
    }
    lemma_block_events_window(b, k + 1, r, 0, r.len() as int, 0, r.len() as int);
}

/// A chunk's text is cut into blocks at blank lines, handled in order: a block `blk` without a
/// blank line in it and not ending in `'\n'`, followed by `"\n\n"`, gives its events; unless
/// they include `Done`, the blocks after it follow, and the unfinished rest is theirs.
pub proof fn lemma_blocks_in_order(blk: Seq<char>, r: Seq<char>)
    requires
        forall|q: int| 0 <= q && q + 1 < blk.len() ==> !(#[trigger] blk[q] == '\n' && blk[q + 1] == '\n'),
        blk.len() > 0 ==> blk.last() != '\n',
    ensures
        ({
            let s = blk + seq!['\n', '\n'] + r;
            let (ev, done) = block_events(blk, 0, blk.len() as int);
            let after = drain_blocks(r, 0);
            drain_blocks(s, 0) == if done {
                (ev, blk.len() + 2int, true)
            } else {
                (ev + after.0, after.1 + blk.len() + 2, after.2)
            }
        }),
{
    let s = blk + seq!['\n', '\n'] + r;
    let n = blk.len() as int;
    assert(s[n] == '\n' && s[n + 1] == '\n');
    assert forall|q: int| 0 <= q < n implies !(#[trigger] s[q] == '\n' && s[q + 1] == '\n') by {
        assert(s[q] == blk[q]);
        if q + 1 < n {
            assert(s[q + 1] == blk[q + 1]);
        } else {
            assert(s[q] == blk.last());
        }
    }
    lemma_find_blank_finds_the_first(s, 0);
    lemma_find_blank_bounds(s, 0);
    match find_blank(s, 0) {
        Some(p) => {
            if p < n {
                assert(!(s[p] == '\n' && s[p + 1] == '\n'));
            }
            assert(p == n);
        },
        None => {
            assert(!(s[n] == '\n' && s[n + 1] == '\n'));
        },
    }
    assert(same_window(s, 0, blk, 0, n)) by {
        assert forall|i: int| 0 <= i < n implies #[trigger] s[0 + i] == blk[0 + i] by {
            assert(s[i] == blk[i]);
        }
    }
    lemma_block_events_window(s, 0, blk, 0, n, 0, n);
    assert(s.skip(n + 2) =~= r);
    lemma_drain_shift(s, n + 2, 0);
}

/// Where `s` holds a blank line at or after `from`.
proof fn lemma_find_blank_bounds(s: Seq<char>, from: int)
    ensures
        find_blank(s, from) matches Some(p) ==> from <= p && p + 1 < s.len(),
    decreases s.len() - from,
{
    if from >= 0 && from + 1 < s.len() && !(s[from] == '\n' && s[from + 1] == '\n') {
        lemma_find_blank_bounds(s, from + 1);
    }
}

/// A blank line found in `s` is still the first one once text is appended.
proof fn lemma_find_blank_extend(s: Seq<char>, t: Seq<char>, from: int)
    ensures
        find_blank(s, from) matches Some(p) ==> find_blank(s + t, from) == Some(p),
    decreases s.len() - from,
{
    if from >= 0 && from + 1 < s.len() {
        assert((s + t)[from] == s[from]);
        assert((s + t)[from + 1] == s[from + 1]);
        if !(s[from] == '\n' && s[from + 1] == '\n') {
            lemma_find_blank_extend(s, t, from + 1);
        }
    }
}

/// Looking for a blank line in `u` from `k + from` is looking in `u.skip(k)` from `from`.
proof fn lemma_find_blank_shift(u: Seq<char>, k: int, from: int)
    requires
        0 <= k <= u.len(),
        0 <= from,
    ensures
        find_blank(u, k + from) == (match find_blank(u.skip(k), from) {
            Some(p) => Some(p + k),
            None => None,
        }),
    decreases u.len() - k - from,
{
    let v = u.skip(k);
    if k + from + 1 < u.len() {
        assert(u[k + from] == v[from]);
        assert(u[k + from + 1] == v[from + 1]);
        if !(v[from] == '\n' && v[from + 1] == '\n') {
            lemma_find_blank_shift(u, k, from + 1);
            assert(k + (from + 1) == k + from + 1);
        }
    }
}

/// Finding the end of a line only reads the window it searches.
proof fn lemma_find_newline_window(s1: Seq<char>, o1: int, s2: Seq<char>, o2: int, n: int, lo: int, hi: int)
    requires
        same_window(s1, o1, s2, o2, n),
        0 <= lo,
        hi <= n,
    ensures
        match find_newline(s1, o1 + lo, o1 + hi) {
            Some(p) => find_newline(s2, o2 + lo, o2 + hi) == Some(p - o1 + o2) && o1 + lo <= p < o1
                + hi,
            None => find_newline(s2, o2 + lo, o2 + hi) is None,
        },
    decreases hi - lo,
{
    if lo < hi {
        assert(s1[o1 + lo] == s2[o2 + lo]);
        if s1[o1 + lo] != '\n' {
            lemma_find_newline_window(s1, o1, s2, o2, n, lo + 1, hi);
            assert(o1 + (lo + 1) == o1 + lo + 1);
            assert(o2 + (lo + 1) == o2 + lo + 1);
        }
    }
}

/// Equal windows have equal pieces.
proof fn lemma_window_subrange(s1: Seq<char>, o1: int, s2: Seq<char>, o2: int, n: int, lo: int, hi: int)
    requires
        same_window(s1, o1, s2, o2, n),
        0 <= lo <= hi <= n,
    ensures
        s1.subrange(o1 + lo, o1 + hi) == s2.subrange(o2 + lo, o2 + hi),
{
    assert forall|i: int| 0 <= i < hi - lo implies #[trigger] s1.subrange(o1 + lo, o1 + hi)[i] == s2.subrange(
        o2 + lo,
        o2 + hi,
    )[i] by {
        assert(s1[o1 + (lo + i)] == s2[o2 + (lo + i)]);
    }
    assert(s1.subrange(o1 + lo, o1 + hi) =~= s2.subrange(o2 + lo, o2 + hi));
}

/// The events of the lines of a block only depend on the text of the block.
proof fn lemma_block_events_window(
    s1: Seq<char>,
    o1: int,
    s2: Seq<char>,
    o2: int,
    n: int,
    lo: int,
    hi: int,
)
    requires
        same_window(s1, o1, s2, o2, n),
        0 <= lo,
        hi <= n,
    ensures
        block_events(s1, o1 + lo, o1 + hi) == block_events(s2, o2 + lo, o2 + hi),
    decreases hi - lo,
{
    if lo < hi {
        lemma_find_newline_window(s1, o1, s2, o2, n, lo, hi);
        match find_newline(s1, o1 + lo, o1 + hi) {
            Some(p) => {
                let q = p - o1;
                assert(s1[o1 + q] == s2[o2 + q]);
                if q > lo {
                    assert(s1[o1 + (q - 1)] == s2[o2 + (q - 1)]);
                    assert(o1 + (q - 1) == p - 1);
                    lemma_window_subrange(s1, o1, s2, o2, n, lo, q - 1);
                }
                lemma_window_subrange(s1, o1, s2, o2, n, lo, q);
                lemma_block_events_window(s1, o1, s2, o2, n, q + 1, hi);
                assert(o1 + (q + 1) == p + 1);
                assert(o2 + (q + 1) == o2 + q + 1);
                let line1 = if p > o1 + lo && s1[p - 1] == '\r' {
                    s1.subrange(o1 + lo, p - 1)
                } else {
                    s1.subrange(o1 + lo, p)
                };
                let line2 = if o2 + q > o2 + lo && s2[o2 + q - 1] == '\r' {
                    s2.subrange(o2 + lo, o2 + q - 1)
                } else {
                    s2.subrange(o2 + lo, o2 + q)
                };
                assert(line1 == line2);
            },
            None => {
                lemma_window_subrange(s1, o1, s2, o2, n, lo, hi);
                lemma_block_events_window(s1, o1, s2, o2, n, hi, hi);
            },
        }
    }
}


/// Draining `u` from `k + from` is draining `u.skip(k)` from `from`, with the rest's position
/// moved by `k`.
proof fn lemma_drain_shift(u: Seq<char>, k: int, from: int)
    requires
        0 <= k <= u.len(),
        0 <= from,
    ensures
        drain_blocks(u, k + from).0 == drain_blocks(u.skip(k), from).0,
        drain_blocks(u, k + from).1 == drain_blocks(u.skip(k), from).1 + k,
        drain_blocks(u, k + from).2 == drain_blocks(u.skip(k), from).2,
    decreases u.len() - k - from,
{
    let v = u.skip(k);
    lemma_find_blank_shift(u, k, from);
    lemma_find_blank_bounds(v, from);
    match find_blank(v, from) {
        None => {},
        Some(p) => {
            assert(same_window(u, k, v, 0, u.len() - k));
            lemma_block_events_window(u, k, v, 0, u.len() - k, from, p);
            if !block_events(v, from, p).1 {
                lemma_drain_shift(u, k, p + 2);
                assert(k + (p + 2) == p + k + 2);
            }
        },
    }
}

/// Appending text to `s` keeps what draining `s` from `from` found: its events come first,
/// and, unless a `Done` ended it, draining goes on from where it stopped.
proof fn lemma_drain_extend(s: Seq<char>, t: Seq<char>, from: int)
    requires
        0 <= from <= s.len(),
    ensures
        from <= drain_blocks(s, from).1 <= s.len(),
        drain_blocks(s, from).2 ==> drain_blocks(s + t, from) == drain_blocks(s, from),
        !drain_blocks(s, from).2 ==> drain_blocks(s + t, from) == (
            drain_blocks(s, from).0 + drain_blocks(s + t, drain_blocks(s, from).1).0,
            drain_blocks(s + t, drain_blocks(s, from).1).1,
            drain_blocks(s + t, drain_blocks(s, from).1).2,
        ),
    decreases s.len() - from,
{
    lemma_find_blank_bounds(s, from);
    lemma_find_blank_extend(s, t, from);
    match find_blank(s, from) {
        None => {
            assert(seq![] + drain_blocks(s + t, from).0 =~= drain_blocks(s + t, from).0);
        },
        Some(p) => {
            assert(same_window(s, 0, s + t, 0, s.len() as int));
            lemma_block_events_window(s, 0, s + t, 0, s.len() as int, from, p);
            if !block_events(s, from, p).1 {
                lemma_drain_extend(s, t, p + 2);
                let e1 = block_events(s, from, p).0;
                let e2 = drain_blocks(s, p + 2).0;
                let e3 = drain_blocks(s + t, drain_blocks(s, p + 2).1).0;
                assert(e1 + (e2 + e3) =~= (e1 + e2) + e3);
            }
        },
    }
}

/// Text added in two pieces is handled as if added at once: the events of the first piece
/// come first, and, unless they ended the stream, the second piece goes on from what the
/// first left pending.
proof fn lemma_text_split(pending: Seq<char>, ta: Seq<char>, tb: Seq<char>)
    ensures
        ({
            let first = feed_text(pending, ta);
            let once = feed_text(pending, ta + tb);
            if first.2 {
                once == first
            } else {
                let second = feed_text(first.1, tb);
                &&& first.0 + second.0 == once.0
                &&& second.1 == once.1
                &&& second.2 == once.2
            }
        }),
{
    let s = pending + ta;
    let all = pending + (ta + tb);
    assert(all =~= s + tb);
    lemma_drain_extend(s, tb, 0);
    let d1 = drain_blocks(s, 0);
    if !d1.2 {
        let r1 = d1.1;
        let p1 = s.skip(r1);
        assert((s + tb).skip(r1) =~= p1 + tb);
        lemma_drain_shift(s + tb, r1, 0);
        let d2 = drain_blocks(p1 + tb, 0);
        if !d2.2 {
            lemma_drain_extend(p1 + tb, seq![], 0);
            assert((s + tb).skip(d2.1 + r1) =~= (p1 + tb).skip(d2.1));
        }
    }
}

/// Valid UTF-8 decodes piece by piece.
pub proof fn lemma_decode_utf8_concat(a: Seq<u8>, b: Seq<u8>)
    requires
        valid_utf8(a),
        valid_utf8(b),
    ensures
        valid_utf8(a + b),
        decode_utf8(a + b) == decode_utf8(a) + decode_utf8(b),
    decreases a.len(),
{
    vstd::utf8::valid_utf8_concat(a, b);
    if a.len() == 0 {
        assert(a + b =~= b);
        assert(decode_utf8(a) =~= Seq::<char>::empty());
        assert(decode_utf8(a) + decode_utf8(b) =~= decode_utf8(b));
    } else {
        let ab = a + b;
        assert(ab[0] == a[0]);
        if a.len() > 1 {
            assert(ab[1] == a[1]);
        }
        if a.len() > 2 {
            assert(ab[2] == a[2]);
        }
        if a.len() > 3 {
            assert(ab[3] == a[3]);
        }
        assert(decode_first_scalar(ab) == decode_first_scalar(a));
        assert(length_of_first_scalar(ab) == length_of_first_scalar(a));
        let rest = pop_first_scalar(a);
        assert(rest.len() < a.len());
        assert(pop_first_scalar(ab) =~= rest + b);
        lemma_decode_utf8_concat(rest, b);
        assert(decode_utf8(ab) =~= seq![decode_first_scalar(a) as char] + decode_utf8(rest + b));
        assert(decode_utf8(a) =~= seq![decode_first_scalar(a) as char] + decode_utf8(rest));
        assert(decode_utf8(ab) =~= decode_utf8(a) + decode_utf8(b));
    }
}

/// The bytes of a list of chunk inputs, joined (other inputs add nothing).
pub open spec fn joined_chunks(inputs: Seq<StreamInput>) -> Seq<u8>
    decreases inputs.len(),
{
    if inputs.len() == 0 {
        Seq::<u8>::empty()
    } else {
        (match inputs[0] {
            StreamInput::Chunk(b) => b@,
            _ => Seq::<u8>::empty(),
        }) + joined_chunks(inputs.drop_first())
    }
}

/// Every input is a chunk of valid UTF-8: the body is cut at character boundaries.
pub open spec fn valid_chunks(inputs: Seq<StreamInput>) -> bool {
    forall|i: int|
        0 <= i < inputs.len() ==> (#[trigger] inputs[i] matches StreamInput::Chunk(b) && valid_utf8(
            b@,
        ))
}

proof fn lemma_chunks_decode_as_joined(pending: Seq<char>, inputs: Seq<StreamInput>)
    requires
        inputs.len() > 0,
        valid_chunks(inputs),
    ensures
        valid_utf8(joined_chunks(inputs)),
        feed_all(pending, false, inputs) == feed_text(pending, decode_utf8(joined_chunks(inputs))),
    decreases inputs.len(),
{
    let c0 = inputs[0];
    let b0 = c0->Chunk_0@;
    let rest = inputs.drop_first();
    assert(valid_utf8(b0));
    assert(joined_chunks(inputs) == b0 + joined_chunks(rest));
    let first = feed_outcome(pending, false, c0);
    assert(first == feed_text(pending, decode_utf8(b0)));
    if rest.len() == 0 {
        assert(joined_chunks(rest) =~= Seq::<u8>::empty());
        assert(b0 + joined_chunks(rest) =~= b0);
        assert(first.0 + seq![] =~= first.0);
        assert(feed_all(first.1, first.2, rest) == (Seq::<StreamEventView>::empty(), first.1, first.2));
        assert(feed_all(pending, false, inputs) == first);
    } else {
        assert(valid_chunks(rest)) by {
            assert forall|i: int| 0 <= i < rest.len() implies (#[trigger] rest[i] matches StreamInput::Chunk(b)
                && valid_utf8(b@)) by {
                assert(rest[i] == inputs[i + 1]);
            }
        }
        lemma_chunks_decode_as_joined(first.1, rest);
        lemma_decode_utf8_concat(b0, joined_chunks(rest));
        lemma_text_split(pending, decode_utf8(b0), decode_utf8(joined_chunks(rest)));
        let whole_text = decode_utf8(b0) + decode_utf8(joined_chunks(rest));
        assert(decode_utf8(joined_chunks(inputs)) == whole_text);
        let r = feed_all(first.1, first.2, rest);
        assert(feed_all(pending, false, inputs) == (first.0 + r.0, r.1, r.2));
        if first.2 {
            lemma_stream_ends_once(first.1, first.2, rest);
            assert(first.0 + r.0 =~= first.0);
        }
    }
}

/// Feeding two lists of inputs one after the other is feeding their concatenation.
proof fn lemma_feed_all_append(pending: Seq<char>, finished: bool, a: Seq<StreamInput>, b: Seq<StreamInput>)
    ensures
        ({
            let x = feed_all(pending, finished, a);
            let y = feed_all(x.1, x.2, b);
            feed_all(pending, finished, a + b) == (x.0 + y.0, y.1, y.2)
        }),
    decreases a.len(),
{
    if a.len() == 0 {
        assert(a + b =~= b);
        let y = feed_all(pending, finished, b);
        assert(seq![] + y.0 =~= y.0);
    } else {
        let first = feed_outcome(pending, finished, a[0]);
        assert((a + b)[0] == a[0]);
        assert((a + b).drop_first() =~= a.drop_first() + b);
        lemma_feed_all_append(first.1, first.2, a.drop_first(), b);
        let x = feed_all(first.1, first.2, a.drop_first());
        let y = feed_all(x.1, x.2, b);
        assert(first.0 + (x.0 + y.0) =~= (first.0 + x.0) + y.0);
    }
}

/// From a fresh decoder, valid UTF-8 chunks act as their joined text.
proof fn lemma_fresh_chunks_as_text(inputs: Seq<StreamInput>)
    requires
        valid_chunks(inputs),
    ensures
        feed_all(seq![], false, inputs) == feed_text(seq![], decode_utf8(joined_chunks(inputs))),
{
    if inputs.len() == 0 {
        let e = joined_chunks(inputs);
        assert(e =~= Seq::<u8>::empty());
        assert(decode_utf8(e) =~= Seq::<char>::empty());
        let all = Seq::<char>::empty() + decode_utf8(e);
        assert(all =~= Seq::<char>::empty());
        assert(all.skip(0) =~= Seq::<char>::empty());
    } else {
        lemma_chunks_decode_as_joined(seq![], inputs);
    }
}

/// Two cuttings of the same response body give the same stream: when both lists of chunks are
/// valid UTF-8 (cut at character boundaries) and join to the same bytes, a fresh decoder fed
/// either of them and then the end of the body reports the same events and ends in the same
/// state. This holds for any number of chunks, none included.
pub proof fn lemma_body_cuts_do_not_matter(c1: Seq<StreamInput>, c2: Seq<StreamInput>)
    requires
        valid_chunks(c1),
        valid_chunks(c2),
        joined_chunks(c1) == joined_chunks(c2),
    ensures
        feed_all(seq![], false, c1.push(StreamInput::Ended)) == feed_all(
            seq![],
            false,
            c2.push(StreamInput::Ended),
        ),
{
    lemma_fresh_chunks_as_text(c1);
    lemma_fresh_chunks_as_text(c2);
    let end = seq![StreamInput::Ended];
    assert(c1.push(StreamInput::Ended) =~= c1 + end);
    assert(c2.push(StreamInput::Ended) =~= c2 + end);
    lemma_feed_all_append(seq![], false, c1, end);
    lemma_feed_all_append(seq![], false, c2, end);
}

/// How the response body is cut into chunks does not change what the decoder reports: when
/// every chunk is valid UTF-8 (the body is cut at character boundaries), feeding the chunks one
/// after the other gives the same events, the same unfinished text and the same state as
/// feeding the whole body, `whole`, at once.
pub proof fn lemma_chunking_does_not_matter(pending: Seq<char>, inputs: Seq<StreamInput>, whole: Vec<u8>)
    requires
        inputs.len() > 0,
        valid_chunks(inputs),
        whole@ == joined_chunks(inputs),
    ensures
        feed_all(pending, false, inputs) == feed_outcome(pending, false, StreamInput::Chunk(whole)),
{
    lemma_chunks_decode_as_joined(pending, inputs);
}

/// Whether `event` ends the stream (`Done` or `Failed`).
pub open spec fn ends_stream(event: StreamEventView) -> bool {
    !(event is Chunk)
}

/// What the decoder does with the inputs `inputs`, one after the other, from unfinished text
/// `pending`: all the events produced, the unfinished text and whether the stream is over.
pub open spec fn feed_all(pending: Seq<char>, finished: bool, inputs: Seq<StreamInput>) -> (
    Seq<StreamEventView>,
    Seq<char>,
    bool,
)
    decreases inputs.len(),
{
    if inputs.len() == 0 {
        (seq![], pending, finished)
    } else {
        let first = feed_outcome(pending, finished, inputs[0]);
        let rest = feed_all(first.1, first.2, inputs.drop_first());
        (first.0 + rest.0, rest.1, rest.2)
    }
}

/// Events of complete blocks: no failure, a `Done` only as the last event, and `done` telling
/// whether there is one.
spec fn blocks_shape(ev: Seq<StreamEventView>, done: bool) -> bool {
    &&& forall|i: int| 0 <= i < ev.len() ==> !(#[trigger] ev[i] is Failed)
    &&& forall|i: int| 0 <= i < ev.len() && #[trigger] ev[i] is Done ==> i == ev.len() - 1
    &&& done <==> (ev.len() > 0 && ev.last() is Done)
}

proof fn lemma_blocks_shape_append(a: Seq<StreamEventView>, b: Seq<StreamEventView>, done: bool)
    requires
        blocks_shape(a, false),
        blocks_shape(b, done),
    ensures
        blocks_shape(a + b, done),
{
    let c = a + b;
    assert forall|i: int| 0 <= i < c.len() implies !(#[trigger] c[i] is Failed) by {
        if i < a.len() {
            assert(c[i] == a[i]);
        } else {
            assert(c[i] == b[i - a.len()]);
        }
    }
    assert forall|i: int| 0 <= i < c.len() && #[trigger] c[i] is Done implies i == c.len() - 1 by {
        if i < a.len() {
            assert(c[i] == a[i]);
            assert(i == a.len() - 1);
            assert(!(a.last() is Done));
        } else {
            assert(c[i] == b[i - a.len()]);
        }
    }
    if b.len() == 0 {
        assert(c =~= a);
    } else {
        assert(c.last() == b.last());
    }
}

proof fn lemma_block_events_shape(s: Seq<char>, lo: int, hi: int)
    ensures
        blocks_shape(block_events(s, lo, hi).0, block_events(s, lo, hi).1),
    decreases hi - lo,
{
    if !(lo < 0 || lo >= hi || hi > s.len()) {
        let (line, next) = match find_newline(s, lo, hi) {
            Some(i) => (if i > lo && s[i - 1] == '\r' {
                s.subrange(lo, i - 1)
            } else {
                s.subrange(lo, i)
            }, i + 1),
            None => (s.subrange(lo, hi), hi),
        };
        if !(next <= lo || next > hi) {
            match line_event(line) {
                Some(StreamEventView::Done) => {
                    assert(seq![StreamEventView::Done].last() is Done);
                },
                Some(e) => {
                    lemma_block_events_shape(s, next, hi);
                    assert(e is Chunk);
                    assert(blocks_shape(seq![e], false)) by {
                        assert(seq![e][0] == e);
                    }
                    lemma_blocks_shape_append(seq![e], block_events(s, next, hi).0, block_events(s, next, hi).1);
                },
                None => {
                    lemma_block_events_shape(s, next, hi);
                },
            }
        }
    }
}

proof fn lemma_drain_blocks_shape(s: Seq<char>, from: int)
    ensures
        blocks_shape(drain_blocks(s, from).0, drain_blocks(s, from).2),
    decreases s.len() - from,
{
    match find_blank(s, from) {
        None => {},
        Some(p) => {
            if !(p < from || p + 2 > s.len()) {
                lemma_block_events_shape(s, from, p);
                if !block_events(s, from, p).1 {
                    lemma_drain_blocks_shape(s, p + 2);
                    lemma_blocks_shape_append(block_events(s, from, p).0, drain_blocks(s, p + 2).0, drain_blocks(s, p + 2).2);
                }
            }
        },
    }
}

/// Events that end the stream at most once: only the last event may end it, and `over` tells
/// whether it does.
pub open spec fn ends_once(ev: Seq<StreamEventView>, over: bool) -> bool {
    &&& forall|i: int| 0 <= i < ev.len() && ends_stream(#[trigger] ev[i]) ==> i == ev.len() - 1
    &&& over <==> (ev.len() > 0 && ends_stream(ev.last()))
}

proof fn lemma_feed_shape(pending: Seq<char>, input: StreamInput)
    ensures
        ends_once(feed_outcome(pending, false, input).0, feed_outcome(pending, false, input).2),
{
    match input {
        StreamInput::Chunk(b) => {
            let all = pending + chunk_text(b@);
            lemma_drain_blocks_shape(all, 0);
            let ev = drain_blocks(all, 0).0;
            assert forall|i: int| 0 <= i < ev.len() && ends_stream(#[trigger] ev[i]) implies i == ev.len() - 1 by {
                assert(!(ev[i] is Failed));
            }
            if ev.len() > 0 {
                assert(!(ev.last() is Failed)) by {
                    assert(ev.last() == ev[ev.len() - 1]);
                }
            }
        },
        _ => {
            let ev = feed_outcome(pending, false, input).0;
            assert(ev.len() == 1);
            assert(ev.last() == ev[0]);
        },
    }
}

/// A stream ends once: whatever inputs a decoder gets, only the last event it reports may end
/// the stream (`Done` or `Failed`), the decoder is over exactly when one did, and once it is
/// over it reports nothing more.
pub proof fn lemma_stream_ends_once(pending: Seq<char>, finished: bool, inputs: Seq<StreamInput>)
    ensures
        finished ==> feed_all(pending, finished, inputs).0.len() == 0 && feed_all(pending, finished, inputs).2
            && feed_all(pending, finished, inputs).1 == pending,
        !finished ==> ends_once(feed_all(pending, finished, inputs).0, feed_all(pending, finished, inputs).2),
    decreases inputs.len(),
{
    if inputs.len() > 0 {
        let first = feed_outcome(pending, finished, inputs[0]);
        lemma_stream_ends_once(first.1, first.2, inputs.drop_first());
        let rest = feed_all(first.1, first.2, inputs.drop_first());
        let ev = first.0 + rest.0;
        if finished {
            assert(ev =~= seq![]);
        } else {
            lemma_feed_shape(pending, inputs[0]);
            if first.2 {
                assert(ev =~= first.0);
            } else {
                assert forall|i: int| 0 <= i < ev.len() && ends_stream(#[trigger] ev[i]) implies i == ev.len() - 1 by {
                    if i < first.0.len() {
                        assert(ev[i] == first.0[i]);
                        assert(i == first.0.len() - 1);
                        assert(first.0.last() == first.0[i]);
                    } else {
                        assert(ev[i] == rest.0[i - first.0.len()]);
                    }
                }
                if rest.0.len() == 0 {
                    assert(ev =~= first.0);
                    if first.0.len() > 0 {
                        assert(first.0.last() == first.0[first.0.len() - 1]);
                    }
                } else {
                    assert(ev.last() == rest.0.last());
                }
            }
        }
    }
}

} // verus!
