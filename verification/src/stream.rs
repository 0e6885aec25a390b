//! Putting a byte stream back together into frames.
//!
//! A connection hands over bytes as they arrive, in pieces of any size. The
//! inbox keeps what has arrived and gives out one message at a time.

use vstd::prelude::*;
use vstd::bytes::*;
use vstd::slice::*;
use crate::codec::{
    decode, decode_frame, encodable, frame_of, lemma_prefix_is_truncated, lemma_round_trip,
    CodecError, MAX_FRAME_LEN,
};
use crate::messages::{Direction, Message, MessageView};
use crate::registry::Registry;

verus! {

/// What the front of a stream holds.
#[derive(Clone, Debug, PartialEq, Eq)]
pub enum Intake {
    /// Less than one whole frame: more bytes are needed.
    Pending,
    /// One message, whose frame has been taken off the stream.
    Message(Message),
    /// One frame that could not be decoded; it has been taken off the stream.
    Dropped(CodecError),
    /// A frame that announces more than a frame may carry. The stream cannot
    /// be read any further and its connection is to be closed.
    Violation,
}

/// What an intake says, with the message as its view.
pub enum IntakeView {
    Pending,
    Message(MessageView),
    Dropped(CodecError),
    Violation,
}

impl View for Intake {
    type V = IntakeView;

    open spec fn view(&self) -> IntakeView {
        match *self {
            Intake::Pending => IntakeView::Pending,
            Intake::Message(m) => IntakeView::Message(m@),
            Intake::Dropped(e) => IntakeView::Dropped(e),
            Intake::Violation => IntakeView::Violation,
        }
    }
}

/// What the front of `bytes` holds for a listener in `direction`, and what is
/// left of the stream afterwards.
pub open spec fn intake(bytes: Seq<u8>, registry: Registry, direction: Direction) -> (
    IntakeView,
    Seq<u8>,
) {
    if bytes.len() < 4 {
        (IntakeView::Pending, bytes)
    } else {
        let n = spec_u32_from_le_bytes(bytes.subrange(0, 4)) as int;
        if n > MAX_FRAME_LEN {
            (IntakeView::Violation, bytes)
        } else if bytes.len() < 4 + n {
            (IntakeView::Pending, bytes)
        } else {
            match decode_frame(bytes, registry, direction) {
                Ok((m, used)) => (IntakeView::Message(m), bytes.skip(4 + n)),
                Err(e) => (IntakeView::Dropped(e), bytes.skip(4 + n)),
            }
        }
    }
}

/// The views of a sequence of messages.
pub open spec fn views(messages: Seq<Message>) -> Seq<MessageView> {
    messages.map_values(|m: Message| m@)
}

/// What a stream gives when it is read as far as it goes.
pub struct Drained {
    /// The messages of the whole frames at the front, in their order.
    pub messages: Seq<MessageView>,
    /// The bytes that stay unread.
    pub rest: Seq<u8>,
    /// Whether reading stopped at a frame that is too long.
    pub violation: bool,
}

/// Reads `bytes` frame by frame until less than a frame is left or a frame
/// is too long. Frames that cannot be decoded are passed over.
pub open spec fn drained(bytes: Seq<u8>, registry: Registry, direction: Direction) -> Drained
    decreases bytes.len(),
{
    let (front, rest) = intake(bytes, registry, direction);
    match front {
        IntakeView::Pending => Drained { messages: Seq::empty(), rest: bytes, violation: false },
        IntakeView::Violation => Drained { messages: Seq::empty(), rest: bytes, violation: true },
        IntakeView::Message(m) => if rest.len() < bytes.len() {
            let more = drained(rest, registry, direction);
            Drained { messages: seq![m] + more.messages, rest: more.rest, violation: more.violation }
        } else {
            Drained { messages: seq![m], rest, violation: false }
        },
        IntakeView::Dropped(_) => if rest.len() < bytes.len() {
            drained(rest, registry, direction)
        } else {
            Drained { messages: Seq::empty(), rest, violation: false }
        },
    }
}

/// The bytes of one connection that have arrived and are not yet read.
pub struct Inbox {
    buffer: Vec<u8>,
}

impl Inbox {
    /// The unread bytes, oldest first.
    pub closed spec fn pending(&self) -> Seq<u8> {
        self.buffer@
    }

    /// An inbox with nothing in it.
    pub fn new() -> (r: Inbox)
        ensures
            r.pending() == Seq::<u8>::empty(),
    {
        Inbox { buffer: Vec::new() }
    }

    /// How many bytes are unread.
    pub fn len(&self) -> (n: usize)
        ensures
            n == self.pending().len(),
    {
        self.buffer.len()
    }

    /// Forgets the unread bytes.
    pub fn clear(&mut self)
        ensures
            final(self).pending() == Seq::<u8>::empty(),
    {
        self.buffer.clear();
    }

    /// Takes in bytes that have arrived.
    pub fn feed(&mut self, chunk: &[u8])
        ensures
            final(self).pending() == old(self).pending() + chunk@,
    {
        let mut copy = slice_to_vec(chunk);
        self.buffer.append(&mut copy);
    }

    /// Reads what the front of the stream holds, and takes a whole frame off
    /// the stream whether or not it could be decoded.
    pub fn poll(&mut self, registry: &Registry, direction: Direction) -> (r: Intake)
        ensures
            (r@, final(self).pending()) == intake(old(self).pending(), *registry, direction),
    {
        let len = self.buffer.len();
        if len < 4 {
            return Intake::Pending;
        }
        let n = u32_from_le_bytes(slice_subrange(self.buffer.as_slice(), 0, 4)) as usize;
        if n > MAX_FRAME_LEN {
            return Intake::Violation;
        }
        if len - 4 < n {
            return Intake::Pending;
        }
        let result = decode(self.buffer.as_slice(), registry, direction);
        let rest = self.buffer.split_off(4 + n);
        self.buffer = rest;
        assert(self.buffer@ =~= old(self).pending().skip(4 + n));
        match result {
            Ok((m, _)) => Intake::Message(m),
            Err(e) => Intake::Dropped(e),
        }
    }
}

impl Inbox {
    /// Reads every whole frame that has arrived. The answer holds the
    /// messages in their order and says whether reading stopped at a frame
    /// that is too long.
    pub fn drain(&mut self, registry: &Registry, direction: Direction) -> (r: (Vec<Message>, bool))
        ensures
            drained(old(self).pending(), *registry, direction) == (Drained {
                messages: views(r.0@),
                rest: final(self).pending(),
                violation: r.1,
            }),
    {
        let mut out: Vec<Message> = Vec::new();
        let ghost start = self.buffer@;
        assert(views(out@) =~= Seq::<MessageView>::empty());
        loop
            invariant
                start == old(self).pending(),
                drained(start, *registry, direction).messages == views(out@) + drained(
                    self.buffer@,
                    *registry,
                    direction,
                ).messages,
                drained(start, *registry, direction).rest == drained(
                    self.buffer@,
                    *registry,
                    direction,
                ).rest,
                drained(start, *registry, direction).violation == drained(
                    self.buffer@,
                    *registry,
                    direction,
                ).violation,
            decreases self.buffer@.len(),
        {
            let ghost sofar = out@;
            match self.poll(registry, direction) {
                Intake::Pending => {
                    assert(views(out@) + Seq::<MessageView>::empty() =~= views(out@));
                    return (out, false);
                },
                Intake::Violation => {
                    assert(views(out@) + Seq::<MessageView>::empty() =~= views(out@));
                    return (out, true);
                },
                Intake::Message(m) => {
                    out.push(m);
                    assert(views(out@) =~= views(sofar) + seq![m@]);
                    assert(views(sofar) + (seq![m@] + drained(
                        self.buffer@,
                        *registry,
                        direction,
                    ).messages) =~= views(out@) + drained(
                        self.buffer@,
                        *registry,
                        direction,
                    ).messages);
                },
                Intake::Dropped(_) => {},
            }
        }
    }
}

/// A frame that arrives in two pieces: after the first piece the inbox is
/// pending and has lost nothing; after the second it gives the message and
/// keeps what followed the frame.
pub proof fn lemma_intake_resumes(
    m: MessageView,
    registry: Registry,
    direction: Direction,
    n: int,
    rest: Seq<u8>,
)
    requires
        encodable(m),
        registry.registered(m.kind(), direction),
        0 <= n < frame_of(m).len(),
    ensures
        intake(frame_of(m).take(n), registry, direction) == (
            IntakeView::Pending,
            frame_of(m).take(n),
        ),
        intake(frame_of(m).take(n) + (frame_of(m).skip(n) + rest), registry, direction) == (
            IntakeView::Message(m),
            rest,
        ),
{
    let frame = frame_of(m);
    let first = frame.take(n);
    let whole = frame + rest;
    lemma_auto_spec_u32_to_from_le_bytes();
    lemma_prefix_is_truncated(m, registry, direction, n);
    lemma_round_trip(m, registry, direction, rest);
    assert(first + (frame.skip(n) + rest) =~= whole);
    assert(whole.subrange(0, 4) =~= frame.subrange(0, 4));
    assert(frame.subrange(0, 4) =~= spec_u32_to_le_bytes((frame.len() - 4) as u32));
    assert(whole.skip(frame.len() as int) =~= rest);
    if n >= 4 {
        assert(first.subrange(0, 4) =~= frame.subrange(0, 4));
    }
}

} // verus!
