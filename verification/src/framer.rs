//! Line framing: from the bytes of a connection to newline-delimited frames
//! of bounded length.
//!
//! The framer performs no reads. [`LineFramer::poll`] says what the bytes
//! received so far amount to: a frame, a failure, or a request to read more.
//! The caller reads and reports what the read returned to
//! [`LineFramer::feed`].

use vstd::prelude::*;
use vstd::utf8::*;
use crate::text::decode_text;

verus! {

/// The cap on a frame: its terminator must be among the first `MAX_LINE`
/// bytes, so a frame holds at most `MAX_LINE - 1` bytes of text.
pub const MAX_LINE: usize = 1024;

/// The byte that ends a frame.
pub const NEWLINE: u8 = 10;

/// Why a connection can yield no further frame.
#[derive(Clone, Copy, Debug, PartialEq, Eq, Structural)]
pub enum FrameError {
    /// `MAX_LINE` bytes arrived without a terminator among them.
    LineTooLong,
    /// The peer closed the connection before the frame in progress ended.
    PeerClosed,
    /// A read failed. A frame that is not UTF-8 text counts as a failed
    /// read, as it does for the line readers of the standard library.
    ReadFailed,
}

/// What a read on the connection returned.
#[derive(Clone, Debug, PartialEq, Eq)]
pub enum ReadOutcome {
    /// The bytes read. No bytes at all means that the peer closed.
    Data(Vec<u8>),
    /// End of stream.
    Closed,
    /// The read failed.
    Failed,
}

/// What [`LineFramer::poll`] found.
#[derive(Clone, Debug, PartialEq, Eq)]
pub enum Poll {
    /// The next frame, without its terminator.
    Frame(String),
    /// No frame is complete: read at most this many bytes and feed them.
    Read(usize),
    /// The connection is unusable.
    Failed(FrameError),
}

/// What a buffer of received bytes amounts to.
pub enum Scan {
    /// A complete frame `text`, followed by its terminator and by `rest`.
    Line { text: Seq<u8>, rest: Seq<u8> },
    /// The cap is reached and no terminator lies within it.
    TooLong,
    /// No terminator yet, and room for more bytes.
    Incomplete,
}

/// The part of a buffer in which a terminator is looked for.
pub open spec fn window(buf: Seq<u8>) -> Seq<u8> {
    if buf.len() > MAX_LINE {
        buf.take(MAX_LINE as int)
    } else {
        buf
    }
}

/// Reads a buffer of received bytes: the first terminator within the cap
/// ends a frame; without one the buffer is over the cap or incomplete.
pub open spec fn scan(buf: Seq<u8>) -> Scan {
    match window(buf).index_of_first(NEWLINE) {
        Some(i) => Scan::Line { text: buf.take(i), rest: buf.skip(i + 1) },
        None => if buf.len() >= MAX_LINE {
            Scan::TooLong
        } else {
            Scan::Incomplete
        },
    }
}

/// The state of a framer: the bytes received and not yet handed out, and the
/// failure that ended the connection, if any.
pub struct FramerView {
    pub pending: Seq<u8>,
    pub failure: Option<FrameError>,
}

/// The state after a read has returned `data` (`None`: the read failed).
/// A failed framer stays as it is.
pub open spec fn after_read(v: FramerView, data: Option<Seq<u8>>) -> FramerView {
    if v.failure is Some {
        v
    } else {
        match data {
            Some(bytes) => if bytes.len() == 0 {
                FramerView { pending: v.pending, failure: Some(FrameError::PeerClosed) }
            } else {
                FramerView { pending: v.pending + bytes, failure: None }
            },
            None => FramerView { pending: v.pending, failure: Some(FrameError::ReadFailed) },
        }
    }
}

impl ReadOutcome {
    /// The bytes that the read brought; `None` for a failed read.
    pub open spec fn data(self) -> Option<Seq<u8>> {
        match self {
            ReadOutcome::Data(bytes) => Some(bytes@),
            ReadOutcome::Closed => Some(Seq::empty()),
            ReadOutcome::Failed => None,
        }
    }
}

/// Accumulates the bytes of one connection and cuts them into frames.
pub struct LineFramer {
    buf: Vec<u8>,
    failure: Option<FrameError>,
}

impl View for LineFramer {
    type V = FramerView;

    closed spec fn view(&self) -> FramerView {
        FramerView { pending: self.buf@, failure: self.failure }
    }
}

/// What [`scan`] finds, said without reference to how it searches.
pub proof fn lemma_scan(buf: Seq<u8>)
    ensures
        match scan(buf) {
            Scan::Line { text, rest } => {
                &&& text.len() < MAX_LINE
                &&& !text.contains(NEWLINE)
                &&& buf == text + seq![NEWLINE] + rest
            },
            Scan::TooLong => buf.len() >= MAX_LINE && !buf.take(MAX_LINE as int).contains(NEWLINE),
            Scan::Incomplete => buf.len() < MAX_LINE && !buf.contains(NEWLINE),
        },
{
    let w = window(buf);
    w.index_of_first_ensures(NEWLINE);
    match w.index_of_first(NEWLINE) {
        Some(i) => {
            let text = buf.take(i);
            let rest = buf.skip(i + 1);
            assert(buf =~= text + seq![NEWLINE] + rest);
            if text.contains(NEWLINE) {
                let j = choose|j: int| 0 <= j < text.len() && text[j] == NEWLINE;
                assert(w[j] == NEWLINE);
            }
        },
        None => {
            if buf.len() >= MAX_LINE {
                assert(w =~= buf.take(MAX_LINE as int));
            }
        },
    }
}

/// A terminator at `i` with none before it, within the cap, ends the frame
/// that [`scan`] reports.
pub proof fn lemma_scan_line_at(buf: Seq<u8>, i: int)
    requires
        0 <= i < buf.len(),
        i < MAX_LINE,
        buf[i] == NEWLINE,
        forall|j: int| 0 <= j < i ==> buf[j] != NEWLINE,
    ensures
        scan(buf) == (Scan::Line { text: buf.take(i), rest: buf.skip(i + 1) }),
{
    let w = window(buf);
    w.index_of_first_ensures(NEWLINE);
    assert(w[i] == NEWLINE);
    assert(w.contains(NEWLINE));
    let k = w.index_of_first(NEWLINE).unwrap();
    assert(w[k] == buf[k]);
    if k < i {
        assert(buf[k] != NEWLINE);
    }
    if i < k {
        assert(w[i] != NEWLINE);
    }
}

/// Overflow: bytes up to the cap without a terminator among them are too
/// long a line, whatever follows them.
pub proof fn lemma_overflow(buf: Seq<u8>)
    requires
        buf.len() >= MAX_LINE,
        forall|j: int| 0 <= j < MAX_LINE ==> buf[j] != NEWLINE,
    ensures
        scan(buf) == Scan::TooLong,
{
    let w = window(buf);
    w.index_of_first_ensures(NEWLINE);
    if w.contains(NEWLINE) {
        let j = choose|j: int| 0 <= j < w.len() && w[j] == NEWLINE;
        assert(buf[j] == NEWLINE);
    }
}

/// What is decided stays decided: a frame that is complete, and a line
/// that is too long, are the same whatever bytes arrive after them. So the
/// frames of a connection do not depend on how its bytes are cut into
/// reads.
pub proof fn lemma_scan_is_stable(buf: Seq<u8>, more: Seq<u8>)
    ensures
        scan(buf) matches Scan::Line { text, rest } ==> scan(buf + more) == (Scan::Line {
            text,
            rest: rest + more,
        }),
        scan(buf) is TooLong ==> scan(buf + more) is TooLong,
{
    lemma_scan(buf);
    match scan(buf) {
        Scan::Line { text, rest } => {
            let i = text.len() as int;
            let all = buf + more;
            assert(buf[i] == NEWLINE) by {
                assert(buf == text + seq![NEWLINE] + rest);
            }
            assert forall|j: int| 0 <= j < i implies all[j] != NEWLINE by {
                assert(all[j] == text[j]);
            }
            lemma_scan_line_at(all, i);
            assert(all.take(i) =~= text);
            assert(all.skip(i + 1) =~= rest + more);
        },
        Scan::TooLong => {
            let all = buf + more;
            assert forall|j: int| 0 <= j < MAX_LINE implies all[j] != NEWLINE by {
                assert(buf.take(MAX_LINE as int)[j] == all[j]);
            }
            lemma_overflow(all);
        },
        Scan::Incomplete => {},
    }
}

/// Bytes that arrive in two reads amount to the same as if they had
/// arrived in one.
pub proof fn lemma_reads_add_up(v: FramerView, first: Seq<u8>, second: Seq<u8>)
    requires
        first.len() > 0,
        second.len() > 0,
    ensures
        after_read(after_read(v, Some(first)), Some(second)) == after_read(
            v,
            Some(first + second),
        ),
{
    assert(v.pending + first + second =~= v.pending + (first + second));
}

impl LineFramer {
    /// A framer for a fresh connection.
    pub fn new() -> (f: LineFramer)
        ensures
            f@ == (FramerView { pending: Seq::empty(), failure: None }),
    {
        LineFramer { buf: Vec::new(), failure: None }
    }

    /// Records what a read returned: bytes are appended to those pending, an
    /// empty read or a failed one ends the connection. Once the connection
    /// has failed nothing changes any more.
    pub fn feed(&mut self, outcome: ReadOutcome)
        ensures
            final(self)@ == after_read(old(self)@, outcome.data()),
    {
        if self.failure.is_some() {
            return ;
        }
        match outcome {
            ReadOutcome::Data(bytes) => {
                if bytes.len() == 0 {
                    self.failure = Some(FrameError::PeerClosed);
                } else {
                    let mut bytes = bytes;
                    self.buf.append(&mut bytes);
                }
            },
            ReadOutcome::Closed => {
                self.failure = Some(FrameError::PeerClosed);
            },
            ReadOutcome::Failed => {
                self.failure = Some(FrameError::ReadFailed);
            },
        }
    }

    /// Says what the bytes received so far amount to.
    ///
    /// A failed framer reports its failure again. Otherwise the pending bytes
    /// are read as [`scan`] says: a complete frame is taken out and returned
    /// as text, or ends the connection with `ReadFailed` where it is not
    /// UTF-8; a buffer over the cap ends it with `LineTooLong`; an incomplete
    /// one asks for a read of at most the room that is left under the cap.
    pub fn poll(&mut self) -> (out: Poll)
        ensures
            match old(self)@.failure {
                Some(e) => out == Poll::Failed(e) && final(self)@ == old(self)@,
                None => match scan(old(self)@.pending) {
                    Scan::Line { text, rest } => if valid_utf8(text) {
                        &&& out matches Poll::Frame(s)
                        &&& s@ == decode_utf8(text)
                        &&& final(self)@ == (FramerView { pending: rest, failure: None })
                    } else {
                        &&& out == Poll::Failed(FrameError::ReadFailed)
                        &&& final(self)@ == (FramerView {
                            pending: rest,
                            failure: Some(FrameError::ReadFailed),
                        })
                    },
                    Scan::TooLong => {
                        &&& out == Poll::Failed(FrameError::LineTooLong)
                        &&& final(self)@ == (FramerView {
                            pending: old(self)@.pending,
                            failure: Some(FrameError::LineTooLong),
                        })
                    },
                    Scan::Incomplete => {
                        &&& out == Poll::Read((MAX_LINE - old(self)@.pending.len()) as usize)
                        &&& final(self)@ == old(self)@
                    },
                },
            },
    {
        if let Some(e) = self.failure {
            return Poll::Failed(e);
        }
        let n = self.buf.len();
        let limit = if n > MAX_LINE {
            MAX_LINE
        } else {
            n
        };
        let mut i: usize = 0;
        while i < limit && self.buf[i] != NEWLINE
            invariant
                limit <= self.buf.len(),
                i <= limit,
                forall|j: int| 0 <= j < i ==> self.buf@[j] != NEWLINE,
            decreases limit - i,
        {
            i += 1;
        }
        let ghost before = self.buf@;
        if i < limit {
            proof {
                lemma_scan_line_at(before, i as int);
            }
            let mut line = self.buf.split_off(i + 1);
            std::mem::swap(&mut self.buf, &mut line);
            line.pop();
            assert(line@ =~= before.take(i as int));
            assert(self.buf@ =~= before.skip(i + 1));
            match decode_text(line) {
                Some(s) => Poll::Frame(s),
                None => {
                    self.failure = Some(FrameError::ReadFailed);
                    Poll::Failed(FrameError::ReadFailed)
                },
            }
        } else {
            proof {
                lemma_scan(before);
                let w = window(before);
                w.index_of_first_ensures(NEWLINE);
                if w.contains(NEWLINE) {
                    let j = choose|j: int| 0 <= j < w.len() && w[j] == NEWLINE;
                    assert(before[j] == NEWLINE);
                }
            }
            if n >= MAX_LINE {
                self.failure = Some(FrameError::LineTooLong);
                Poll::Failed(FrameError::LineTooLong)
            } else {
                Poll::Read(MAX_LINE - n)
            }
        }
    }
}

} // verus!
