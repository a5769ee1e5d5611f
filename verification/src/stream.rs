//! Streams of messages and frames, step by step.

use crate::abi::Abi;
use crate::constants::MAX_NFRAMES;
use crate::error::Error;
use crate::frame::CANFrame;
use crate::message::{
    blank_frames, frames_bytes, head_bytes, law_short_message_read, message_bytes, BcmMsgHead,
    BcmMsgHeadFrameLess,
};
use crate::socket::BCMSocket;
use vstd::prelude::*;

verus! {

/// A stream of the frames that come in on a socket.
pub struct BcmFrameStream {
    pub socket: BCMSocket,
}

/// A stream of the messages that come in on a socket.
pub struct BcmStream {
    pub socket: BCMSocket,
}

/// What one attempt to read from a socket came to. `E` is the type of the errors
/// that the reactor and the read report.
pub enum ReadEvent<E> {
    /// the reactor does not know the socket to be readable; it will wake the task
    NotReady,
    /// the reactor failed
    ReactorFailed(E),
    /// the socket was said to be readable, but the read would have blocked
    WouldBlock,
    /// the read came to an end
    Read(Result<BcmMsgHead, E>),
}

/// What a poll of a stream does next.
pub enum PollStep<T, E> {
    /// the poll ends and there is no item yet
    Pending,
    /// the poll ends with an item, or with the end of the stream
    Ready(Option<Result<T, E>>),
    /// the poll tries to read again
    Again,
}

impl BcmFrameStream {
    /// The stream of the frames that come in on `socket`.
    pub fn new(socket: BCMSocket) -> (r: Result<BcmFrameStream, Error>)
        ensures
            r matches Ok(stream) && stream.socket == socket,
    {
        Ok(BcmFrameStream { socket })
    }

    /// A message is an item of the stream by its first frame. One without a frame
    /// is none: this happens e.g. when a timed out msg is received.
    pub open spec fn spec_poll_next<E>(event: ReadEvent<E>) -> PollStep<CANFrame, E> {
        match event {
            ReadEvent::NotReady => PollStep::Pending,
            ReadEvent::ReactorFailed(e) => PollStep::Ready(Some(Err(e))),
            ReadEvent::WouldBlock => PollStep::Again,
            ReadEvent::Read(Ok(msg)) => if msg.nframes > 0 {
                PollStep::Ready(Some(Ok(msg.frames@[0])))
            } else {
                PollStep::Pending
            },
            ReadEvent::Read(Err(e)) => PollStep::Ready(Some(Err(e))),
        }
    }

    /// What a poll of the stream does after an attempt to read.
    pub fn poll_next<E>(&self, event: ReadEvent<E>) -> (r: PollStep<CANFrame, E>)
        ensures
            r == Self::spec_poll_next(event),
    {
        match event {
            ReadEvent::NotReady => PollStep::Pending,
            ReadEvent::ReactorFailed(e) => PollStep::Ready(Some(Err(e))),
            ReadEvent::WouldBlock => PollStep::Again,
            ReadEvent::Read(Ok(msg)) => {
                if msg.nframes > 0 {
                    PollStep::Ready(Some(Ok(msg.frames[0])))
                } else {
                    PollStep::Pending
                }
            },
            ReadEvent::Read(Err(e)) => PollStep::Ready(Some(Err(e))),
        }
    }
}

impl BcmStream {
    /// The stream of the messages that come in on `socket`.
    pub fn from(socket: BCMSocket) -> (r: Result<BcmStream, Error>)
        ensures
            r matches Ok(stream) && stream.socket == socket,
    {
        Ok(BcmStream { socket })
    }

    /// Each message is an item of the stream.
    pub open spec fn spec_poll_next<E>(event: ReadEvent<E>) -> PollStep<BcmMsgHead, E> {
        match event {
            ReadEvent::NotReady => PollStep::Pending,
            ReadEvent::ReactorFailed(e) => PollStep::Ready(Some(Err(e))),
            ReadEvent::WouldBlock => PollStep::Again,
            ReadEvent::Read(result) => PollStep::Ready(Some(result)),
        }
    }

    /// What a poll of the stream does after an attempt to read.
    pub fn poll_next<E>(&self, event: ReadEvent<E>) -> (r: PollStep<BcmMsgHead, E>)
        ensures
            r == Self::spec_poll_next(event),
    {
        match event {
            ReadEvent::NotReady => PollStep::Pending,
            ReadEvent::ReactorFailed(e) => PollStep::Ready(Some(Err(e))),
            ReadEvent::WouldBlock => PollStep::Again,
            ReadEvent::Read(result) => PollStep::Ready(Some(result)),
        }
    }
}

/// How a poll of a stream of frames ends that meets the given attempts in turn;
/// `Again` where they are used up before it ends.
pub open spec fn frame_poll<E>(events: Seq<ReadEvent<E>>) -> PollStep<CANFrame, E>
    decreases events.len(),
{
    if events.len() == 0 {
        PollStep::Again
    } else {
        match BcmFrameStream::spec_poll_next(events[0]) {
            PollStep::Again => frame_poll(events.drop_first()),
            step => step,
        }
    }
}

/// How a poll of a stream of messages ends that meets the given attempts in turn;
/// `Again` where they are used up before it ends.
pub open spec fn message_poll<E>(events: Seq<ReadEvent<E>>) -> PollStep<BcmMsgHead, E>
    decreases events.len(),
{
    if events.len() == 0 {
        PollStep::Again
    } else {
        match BcmStream::spec_poll_next(events[0]) {
            PollStep::Again => message_poll(events.drop_first()),
            step => step,
        }
    }
}

/// Reads that would block are passed over: a poll ends with the first attempt
/// that comes to something else, and whatever would follow has no part in it.
pub proof fn law_poll_ends_at_first_outcome<E>(events: Seq<ReadEvent<E>>, k: int)
    requires
        0 <= k < events.len(),
        forall|i: int| 0 <= i < k ==> events[i] is WouldBlock,
        !(events[k] is WouldBlock),
    ensures
        frame_poll(events) == BcmFrameStream::spec_poll_next(events[k]),
        message_poll(events) == BcmStream::spec_poll_next(events[k]),
        !(frame_poll(events) is Again),
        !(message_poll(events) is Again),
    decreases k,
{
    if k > 0 {
        let rest = events.drop_first();
        assert(events[0] is WouldBlock);
        assert forall|i: int| 0 <= i < k - 1 implies rest[i] is WouldBlock by {
            assert(rest[i] == events[i + 1]);
        }
        law_poll_ends_at_first_outcome(rest, k - 1);
    }
}

/// A poll goes on for as long as its reads would block.
pub proof fn law_poll_goes_on_while_blocked<E>(events: Seq<ReadEvent<E>>)
    requires
        forall|i: int| 0 <= i < events.len() ==> events[i] is WouldBlock,
    ensures
        frame_poll(events) is Again,
        message_poll(events) is Again,
    decreases events.len(),
{
    if events.len() > 0 {
        let rest = events.drop_first();
        assert(events[0] is WouldBlock);
        assert forall|i: int| 0 <= i < rest.len() implies rest[i] is WouldBlock by {
            assert(rest[i] == events[i + 1]);
        }
        law_poll_goes_on_while_blocked(rest);
    }
}

/// Neither stream ever ends.
pub proof fn law_streams_never_end<E>(event: ReadEvent<E>)
    ensures
        BcmFrameStream::spec_poll_next(event) != PollStep::<CANFrame, E>::Ready(None),
        BcmStream::spec_poll_next(event) != PollStep::<BcmMsgHead, E>::Ready(None),
{
}

/// The two streams differ only in what they make of a message: where the stream
/// of messages gives one, the stream of frames gives its first frame, or waits on
/// if it carries none. Errors and waits are the same in both.
pub proof fn law_frame_stream_follows_message_stream<E>(event: ReadEvent<E>)
    ensures
        match BcmStream::spec_poll_next(event) {
            PollStep::Ready(Some(Ok(msg))) => BcmFrameStream::spec_poll_next(event) == (
            if msg.nframes > 0 {
                PollStep::<CANFrame, E>::Ready(Some(Ok(msg.frames@[0])))
            } else {
                PollStep::<CANFrame, E>::Pending
            }),
            PollStep::Ready(Some(Err(e))) => BcmFrameStream::spec_poll_next(event)
                == PollStep::<CANFrame, E>::Ready(Some(Err(e))),
            PollStep::Ready(None) => false,
            PollStep::Pending => BcmFrameStream::spec_poll_next(event) is Pending,
            PollStep::Again => BcmFrameStream::spec_poll_next(event) is Again,
        },
{
}

/// What the broadcast manager sends reaches the streams: a message of a head and
/// the frames that it counts, read over a blank message, is an item of the stream
/// of messages with that head and those frames, and an item of the stream of
/// frames by its first frame, if it has one.
pub proof fn law_sent_message_reaches_streams<E>(
    abi: Abi,
    head: BcmMsgHeadFrameLess,
    frames: Seq<CANFrame>,
    msg: BcmMsgHead,
)
    requires
        head.wf(abi),
        head.nframes == frames.len(),
        frames.len() <= MAX_NFRAMES,
        ({
            let sent = head_bytes(abi, head) + frames_bytes(abi.order, frames);
            let blank = message_bytes(abi, BcmMsgHeadFrameLess::spec_zero(), blank_frames());
            msg.stands_in(abi, sent + blank.skip(sent.len() as int))
        }),
    ensures
        msg.head() == head,
        msg.frames@.take(msg.nframes as int) == frames,
        BcmStream::spec_poll_next(ReadEvent::<E>::Read(Ok(msg))) == PollStep::<
            BcmMsgHead,
            E,
        >::Ready(Some(Ok(msg))),
        BcmFrameStream::spec_poll_next(ReadEvent::<E>::Read(Ok(msg))) == (if frames.len() > 0 {
            PollStep::<CANFrame, E>::Ready(Some(Ok(frames[0])))
        } else {
            PollStep::<CANFrame, E>::Pending
        }),
{
    law_short_message_read(abi, head, frames, msg);
    assert(msg.frames@.take(msg.nframes as int) =~= frames);
}

/// What a poll does is settled by the attempt alone. It ends with nothing where the
/// socket is not known to be readable, and tries again where the read would have
/// blocked. An error of the reactor or of the read is handed on as it is. A message is
/// handed on whole by the stream of messages; by the stream of frames it is handed on
/// as the first frame of its buffer, if it counts any, and else the poll ends with
/// nothing.
pub proof fn law_poll_outcomes<E>(e: E, msg: BcmMsgHead)
    ensures
        BcmFrameStream::spec_poll_next(ReadEvent::<E>::NotReady) is Pending,
        BcmStream::spec_poll_next(ReadEvent::<E>::NotReady) is Pending,
        BcmFrameStream::spec_poll_next(ReadEvent::<E>::WouldBlock) is Again,
        BcmStream::spec_poll_next(ReadEvent::<E>::WouldBlock) is Again,
        BcmFrameStream::spec_poll_next(ReadEvent::ReactorFailed(e)) == PollStep::<
            CANFrame,
            E,
        >::Ready(Some(Err(e))),
        BcmStream::spec_poll_next(ReadEvent::ReactorFailed(e)) == PollStep::<
            BcmMsgHead,
            E,
        >::Ready(Some(Err(e))),
        BcmFrameStream::spec_poll_next(ReadEvent::Read(Err(e))) == PollStep::<CANFrame, E>::Ready(
            Some(Err(e)),
        ),
        BcmStream::spec_poll_next(ReadEvent::Read(Err(e))) == PollStep::<BcmMsgHead, E>::Ready(
            Some(Err(e)),
        ),
        BcmStream::spec_poll_next(ReadEvent::<E>::Read(Ok(msg))) == PollStep::<
            BcmMsgHead,
            E,
        >::Ready(Some(Ok(msg))),
        msg.nframes == 0 ==> BcmFrameStream::spec_poll_next(
            ReadEvent::<E>::Read(Ok(msg)),
        ) is Pending,
        msg.nframes != 0 ==> BcmFrameStream::spec_poll_next(ReadEvent::<E>::Read(Ok(msg)))
            == PollStep::<CANFrame, E>::Ready(Some(Ok(msg.frames@[0]))),
{
}

} // verus!
