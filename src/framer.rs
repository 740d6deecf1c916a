//! The line framer: cuts the raw body of a streamed response into frames, each an
//! event tag with its payload. A chunk boundary may fall anywhere, inside a line or
//! inside a character; only a newline ends a line.

use vstd::prelude::*;

use crate::error::StreamError;
use crate::text::{clean_line, clean_line_text, has_prefix, starts_with_text, text_after};

verus! {

/// One frame of the wire format: an `event: ` line and the `data: ` line that follows it.
#[derive(Debug, Clone)]
pub struct Frame {
    pub event_type: String,
    pub payload: String,
}

/// A frame as characters.
pub struct FrameSpec {
    pub event_type: Seq<char>,
    pub payload: Seq<char>,
}

impl View for Frame {
    type V = FrameSpec;

    open spec fn view(&self) -> FrameSpec {
        FrameSpec { event_type: self.event_type@, payload: self.payload@ }
    }
}

pub open spec fn frames_view(frames: Seq<Frame>) -> Seq<FrameSpec> {
    frames.map_values(|f: Frame| f@)
}

/// The state of a framer: the bytes of the unfinished line, the tag of a frame
/// still waiting for its data line, and whether the stream has failed.
pub struct FramerState {
    pub partial: Seq<u8>,
    pub pending: Option<Seq<char>>,
    pub failed: bool,
}

pub const EVENT_PREFIX: &'static str = "event: ";

pub const DATA_PREFIX: &'static str = "data: ";

pub const NEWLINE: u8 = 0x0A;

/// The state of a framer that has read nothing.
pub open spec fn initial_state() -> FramerState {
    FramerState { partial: Seq::empty(), pending: None, failed: false }
}

/// The frame that a waiting tag makes when no data line comes for it.
pub open spec fn flushed(pending: Option<Seq<char>>) -> Seq<FrameSpec> {
    match pending {
        Some(t) => seq![FrameSpec { event_type: t, payload: Seq::empty() }],
        None => Seq::empty(),
    }
}

/// One clean line applied to the waiting tag: the new waiting tag and the frames completed.
/// - `event: T` completes a frame still waiting (with an empty payload), and T waits
///   for its data, unless it is empty;
/// - `data: D` completes the waiting frame with payload D (with no tag waiting, it is dropped);
/// - a blank line completes a waiting frame with an empty payload;
/// - any other line (a comment, an id) changes nothing.
pub open spec fn line_step(pending: Option<Seq<char>>, line: Seq<char>) -> (
    Option<Seq<char>>,
    Seq<FrameSpec>,
) {
    if has_prefix(line, EVENT_PREFIX@) {
        let tag = line.skip(EVENT_PREFIX@.len() as int);
        (if tag.len() > 0 { Some(tag) } else { None }, flushed(pending))
    } else if has_prefix(line, DATA_PREFIX@) {
        match pending {
            Some(t) => (
                None,
                seq![FrameSpec { event_type: t, payload: line.skip(DATA_PREFIX@.len() as int) }],
            ),
            None => (None, Seq::empty()),
        }
    } else if line.len() == 0 {
        (None, flushed(pending))
    } else {
        (pending, Seq::empty())
    }
}

/// One byte read: a newline ends the line, which must be UTF-8; any other byte extends it.
/// A failed framer reads nothing more.
pub open spec fn byte_step(s: FramerState, b: u8) -> (FramerState, Seq<FrameSpec>) {
    if s.failed {
        (s, Seq::empty())
    } else if b != NEWLINE {
        (FramerState { partial: s.partial.push(b), ..s }, Seq::empty())
    } else {
        match clean_line(s.partial) {
            None => (FramerState { partial: Seq::empty(), pending: s.pending, failed: true }, Seq::empty()),
            Some(line) => {
                let (pending, out) = line_step(s.pending, line);
                (FramerState { partial: Seq::empty(), pending, failed: false }, out)
            },
        }
    }
}

/// The state after reading `bytes`, and the frames completed on the way, in order.
pub open spec fn read_bytes(s: FramerState, bytes: Seq<u8>) -> (FramerState, Seq<FrameSpec>)
    decreases bytes.len(),
{
    if bytes.len() == 0 {
        (s, Seq::empty())
    } else {
        let (s1, out1) = read_bytes(s, bytes.drop_last());
        let (s2, out2) = byte_step(s1, bytes.last());
        (s2, out1 + out2)
    }
}

/// Reading `a` and then `b` gives the state and the frames that reading `a + b` at once
/// gives: where the body is cut into chunks does not change what is decoded.
pub proof fn lemma_chunk_boundary(s: FramerState, a: Seq<u8>, b: Seq<u8>)
    ensures
        read_bytes(s, a + b).0 == read_bytes(read_bytes(s, a).0, b).0,
        read_bytes(s, a + b).1 == read_bytes(s, a).1 + read_bytes(read_bytes(s, a).0, b).1,
    decreases b.len(),
{
    let sa = read_bytes(s, a).0;
    let oa = read_bytes(s, a).1;
    if b.len() == 0 {
        assert(a + b =~= a);
        assert(oa + Seq::<FrameSpec>::empty() =~= oa);
    } else {
        lemma_chunk_boundary(s, a, b.drop_last());
        assert((a + b).drop_last() =~= a + b.drop_last());
        assert((a + b).last() == b.last());
        let ob = read_bytes(sa, b.drop_last()).1;
        let sb = read_bytes(sa, b.drop_last()).0;
        let o2 = byte_step(sb, b.last()).1;
        assert((oa + ob) + o2 =~= oa + (ob + o2));
    }
}

/// The state after reading `chunks` one after another, and the frames completed on the way.
pub open spec fn read_chunks(s: FramerState, chunks: Seq<Seq<u8>>) -> (FramerState, Seq<FrameSpec>)
    decreases chunks.len(),
{
    if chunks.len() == 0 {
        (s, Seq::empty())
    } else {
        let (s1, out1) = read_chunks(s, chunks.drop_last());
        let (s2, out2) = read_bytes(s1, chunks.last());
        (s2, out1 + out2)
    }
}

proof fn lemma_read_chunks_joined(s: FramerState, chunks: Seq<Seq<u8>>)
    ensures
        read_chunks(s, chunks).0 == read_bytes(s, chunks.flatten_alt()).0,
        read_chunks(s, chunks).1 == read_bytes(s, chunks.flatten_alt()).1,
    decreases chunks.len(),
{
    if chunks.len() > 0 {
        lemma_read_chunks_joined(s, chunks.drop_last());
        lemma_chunk_boundary(s, chunks.drop_last().flatten_alt(), chunks.last());
    }
}

/// However a body is cut into chunks, reading the chunks one after another gives the state
/// and the frames that reading the whole body at once gives.
pub proof fn lemma_any_chunking(s: FramerState, chunks: Seq<Seq<u8>>)
    ensures
        read_chunks(s, chunks).0 == read_bytes(s, chunks.flatten()).0,
        read_chunks(s, chunks).1 == read_bytes(s, chunks.flatten()).1,
{
    lemma_read_chunks_joined(s, chunks);
    chunks.lemma_flatten_and_flatten_alt_are_equivalent();
}

/// Two ways of cutting the same body into chunks give the same frames, in the same order,
/// and leave the framer in the same state.
pub proof fn lemma_chunkings_agree(s: FramerState, c1: Seq<Seq<u8>>, c2: Seq<Seq<u8>>)
    requires
        c1.flatten() == c2.flatten(),
    ensures
        read_chunks(s, c1).0 == read_chunks(s, c2).0,
        read_chunks(s, c1).1 == read_chunks(s, c2).1,
{
    lemma_any_chunking(s, c1);
    lemma_any_chunking(s, c2);
}

/// A waiting tag is never empty.
pub open spec fn framer_wf(s: FramerState) -> bool {
    s.pending matches Some(t) ==> t.len() > 0
}

/// Every frame has a non-empty event tag.
pub open spec fn tags_present(frames: Seq<FrameSpec>) -> bool {
    forall|i: int| 0 <= i < frames.len() ==> (#[trigger] frames[i]).event_type.len() > 0
}

proof fn lemma_byte_step_tags(s: FramerState, b: u8)
    requires
        framer_wf(s),
    ensures
        framer_wf(byte_step(s, b).0),
        tags_present(byte_step(s, b).1),
{
}

/// Reading keeps the waiting tag non-empty, and completes only frames with a tag.
pub proof fn lemma_read_bytes_tags(s: FramerState, bytes: Seq<u8>)
    requires
        framer_wf(s),
    ensures
        framer_wf(read_bytes(s, bytes).0),
        tags_present(read_bytes(s, bytes).1),
    decreases bytes.len(),
{
    if bytes.len() > 0 {
        lemma_read_bytes_tags(s, bytes.drop_last());
        let (s1, o1) = read_bytes(s, bytes.drop_last());
        lemma_byte_step_tags(s1, bytes.last());
        let o2 = byte_step(s1, bytes.last()).1;
        assert forall|i: int| 0 <= i < (o1 + o2).len() implies (#[trigger] (o1 + o2)[i]).event_type.len() > 0 by {
            if i < o1.len() {
                assert((o1 + o2)[i] == o1[i]);
            } else {
                assert((o1 + o2)[i] == o2[i - o1.len()]);
            }
        }
    }
}

/// What the end of the body amounts to: a newline that ends the last line, and a blank
/// line that completes a frame still waiting for its data.
pub open spec fn end_of_body() -> Seq<u8> {
    seq![NEWLINE, NEWLINE]
}

/// Cuts a byte stream into frames.
pub struct LineFramer {
    partial: Vec<u8>,
    pending: Option<String>,
    failed: bool,
}

impl View for LineFramer {
    type V = FramerState;

    closed spec fn view(&self) -> FramerState {
        FramerState {
            partial: self.partial@,
            pending: match self.pending {
                Some(t) => Some(t@),
                None => None,
            },
            failed: self.failed,
        }
    }
}

impl LineFramer {
    /// A framer that has read nothing.
    pub fn new() -> (r: LineFramer)
        ensures
            r@ == initial_state(),
            framer_wf(r@),
    {
        LineFramer { partial: Vec::new(), pending: None, failed: false }
    }

    /// Whether a malformed line has ended the stream.
    pub fn has_failed(&self) -> (r: bool)
        ensures
            r == self@.failed,
    {
        self.failed
    }

    fn flush_pending(&mut self, out: &mut Vec<Frame>)
        ensures
            final(self).partial@ == old(self).partial@,
            final(self).failed == old(self).failed,
            final(self).pending is None,
            frames_view(final(out)@) == frames_view(old(out)@) + flushed(old(self)@.pending),
    {
        match self.pending.take() {
            Some(t) => {
                out.push(Frame { event_type: t, payload: String::new() });
                assert(frames_view(out@) =~= frames_view(old(out)@) + flushed(old(self)@.pending));
            },
            None => {
                assert(frames_view(out@) =~= frames_view(old(out)@) + flushed(old(self)@.pending));
            },
        }
    }

    fn take_line(&mut self, line: String, out: &mut Vec<Frame>)
        ensures
            final(self).partial@ == old(self).partial@,
            final(self).failed == old(self).failed,
            final(self)@.pending == line_step(old(self)@.pending, line@).0,
            frames_view(final(out)@) == frames_view(old(out)@) + line_step(
                old(self)@.pending,
                line@,
            ).1,
    {
        if starts_with_text(line.as_str(), EVENT_PREFIX) {
            self.flush_pending(out);
            let tag = text_after(line.as_str(), EVENT_PREFIX.unicode_len());
            if !tag.as_str().is_empty() {
                self.pending = Some(tag);
            }
        } else if starts_with_text(line.as_str(), DATA_PREFIX) {
            match self.pending.take() {
                Some(t) => {
                    let payload = text_after(line.as_str(), DATA_PREFIX.unicode_len());
                    out.push(Frame { event_type: t, payload });
                    assert(frames_view(out@) =~= frames_view(old(out)@) + line_step(
                        old(self)@.pending,
                        line@,
                    ).1);
                },
                None => {
                    assert(frames_view(out@) =~= frames_view(old(out)@));
                },
            }
        } else if line.as_str().is_empty() {
            self.flush_pending(out);
        } else {
            assert(frames_view(out@) =~= frames_view(old(out)@) + Seq::<FrameSpec>::empty());
        }
    }

    fn read_byte(&mut self, b: u8, out: &mut Vec<Frame>)
        ensures
            final(self)@ == byte_step(old(self)@, b).0,
            frames_view(final(out)@) == frames_view(old(out)@) + byte_step(old(self)@, b).1,
    {
        if self.failed {
            assert(frames_view(out@) =~= frames_view(old(out)@) + Seq::<FrameSpec>::empty());
        } else if b != NEWLINE {
            self.partial.push(b);
            assert(frames_view(out@) =~= frames_view(old(out)@) + Seq::<FrameSpec>::empty());
        } else {
            let line = clean_line_text(self.partial.as_slice());
            self.partial = Vec::new();
            match line {
                None => {
                    self.failed = true;
                    assert(frames_view(out@) =~= frames_view(old(out)@) + Seq::<FrameSpec>::empty());
                },
                Some(text) => {
                    self.take_line(text, out);
                },
            }
        }
    }

    /// Reads one chunk of the body and returns the frames it completes, in order.
    /// A line that is not UTF-8 fails the stream, now and on every later chunk.
    pub fn feed(&mut self, chunk: &[u8]) -> (r: Result<Vec<Frame>, StreamError>)
        requires
            framer_wf(old(self)@),
        ensures
            framer_wf(final(self)@),
            final(self)@ == read_bytes(old(self)@, chunk@).0,
            r is Err <==> final(self)@.failed,
            r matches Err(e) ==> e is InvalidUtf8,
            r matches Ok(frames) ==> frames_view(frames@) == read_bytes(old(self)@, chunk@).1,
            r matches Ok(frames) ==> tags_present(frames_view(frames@)),
    {
        let ghost start = self@;
        proof {
            lemma_read_bytes_tags(start, chunk@);
        }
        let mut out: Vec<Frame> = Vec::new();
        let mut i: usize = 0;
        assert(chunk@.subrange(0, 0) =~= Seq::<u8>::empty());
        assert(frames_view(out@) =~= Seq::<FrameSpec>::empty());
        while i < chunk.len()
            invariant
                i <= chunk@.len(),
                self@ == read_bytes(start, chunk@.subrange(0, i as int)).0,
                frames_view(out@) == read_bytes(start, chunk@.subrange(0, i as int)).1,
            decreases chunk@.len() - i,
        {
            let b = chunk[i];
            self.read_byte(b, &mut out);
            assert(chunk@.subrange(0, i + 1).drop_last() =~= chunk@.subrange(0, i as int));
            i = i + 1;
        }
        assert(chunk@.subrange(0, chunk@.len() as int) =~= chunk@);
        if self.failed {
            Err(StreamError::InvalidUtf8)
        } else {
            Ok(out)
        }
    }

    /// Reads the end of the body: the last line, even without its newline, is judged like
    /// any other (a last line that is not UTF-8 fails the stream), and a frame still waiting
    /// for its data is completed with an empty payload.
    pub fn finish(&mut self) -> (r: Result<Vec<Frame>, StreamError>)
        requires
            framer_wf(old(self)@),
        ensures
            framer_wf(final(self)@),
            final(self)@ == read_bytes(old(self)@, end_of_body()).0,
            r is Err <==> final(self)@.failed,
            r matches Err(e) ==> e is InvalidUtf8,
            r matches Ok(frames) ==> frames_view(frames@) == read_bytes(old(self)@, end_of_body()).1,
            r matches Ok(frames) ==> tags_present(frames_view(frames@)),
    {
        let end: Vec<u8> = vec![NEWLINE, NEWLINE];
        assert(end@ =~= end_of_body());
        self.feed(end.as_slice())
    }
}

} // verus!
