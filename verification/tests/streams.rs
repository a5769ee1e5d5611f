use tokio_socketcan_bcm::{
    Abi, BCMSocket, BcmFrameStream, BcmMsgHead, BcmStream, ByteOrder, CANFrame, MaxAlign, PollStep,
    ReadEvent, Timeval, WordSize,
};

fn socket() -> BCMSocket {
    BCMSocket {
        fd: 7,
        abi: Abi {
            order: ByteOrder::Little,
            pointer: WordSize::Bits64,
            tv_sec: WordSize::Bits64,
            tv_usec: WordSize::Bits64,
            max_align: MaxAlign::Eight,
        },
    }
}

fn frames() -> BcmFrameStream {
    BcmFrameStream::new(socket()).ok().unwrap()
}

fn messages() -> BcmStream {
    BcmStream::from(socket()).ok().unwrap()
}

fn message(nframes: u32) -> BcmMsgHead {
    let mut buffer = [CANFrame::empty(); 256];
    buffer[0] = CANFrame::new(0x123, &[1, 2], false, false).unwrap();
    buffer[1] = CANFrame::new(0x456, &[3], false, false).unwrap();
    let zero = Timeval {
        tv_sec: 0,
        tv_usec: 0,
    };
    BcmMsgHead {
        opcode: 12,
        flags: 0,
        count: 0,
        ival1: zero,
        ival2: zero,
        can_id: 0x123,
        nframes,
        frames: buffer,
    }
}

#[test]
fn frame_stream_gives_the_first_frame() {
    for n in [1, 2] {
        match frames().poll_next::<i32>(ReadEvent::Read(Ok(message(n)))) {
            PollStep::Ready(Some(Ok(frame))) => {
                assert_eq!(frame.id, 0x123);
                assert_eq!(frame.data_len, 2);
            }
            _ => panic!("the frame is an item"),
        }
    }
}

#[test]
fn frame_stream_waits_on_a_message_without_frames() {
    assert!(matches!(
        frames().poll_next::<i32>(ReadEvent::Read(Ok(message(0)))),
        PollStep::Pending
    ));
}

#[test]
fn message_stream_gives_every_message() {
    for n in [0, 1, 2] {
        match messages().poll_next::<i32>(ReadEvent::Read(Ok(message(n)))) {
            PollStep::Ready(Some(Ok(msg))) => assert_eq!(msg.frames().len(), n as usize),
            _ => panic!("the message is an item"),
        }
    }
}

#[test]
fn errors_are_items() {
    assert!(matches!(
        frames().poll_next(ReadEvent::ReactorFailed(5)),
        PollStep::Ready(Some(Err(5)))
    ));
    assert!(matches!(
        frames().poll_next(ReadEvent::Read(Err(6))),
        PollStep::Ready(Some(Err(6)))
    ));
    assert!(matches!(
        messages().poll_next(ReadEvent::ReactorFailed(5)),
        PollStep::Ready(Some(Err(5)))
    ));
    assert!(matches!(
        messages().poll_next(ReadEvent::Read(Err(6))),
        PollStep::Ready(Some(Err(6)))
    ));
}

#[test]
fn blocked_reads_are_tried_again() {
    assert!(matches!(
        frames().poll_next::<i32>(ReadEvent::WouldBlock),
        PollStep::Again
    ));
    assert!(matches!(
        messages().poll_next::<i32>(ReadEvent::WouldBlock),
        PollStep::Again
    ));
}

#[test]
fn unready_sockets_are_waited_for() {
    assert!(matches!(
        frames().poll_next::<i32>(ReadEvent::NotReady),
        PollStep::Pending
    ));
    assert!(matches!(
        messages().poll_next::<i32>(ReadEvent::NotReady),
        PollStep::Pending
    ));
}

#[test]
fn sent_frame_reaches_the_stream() {
    let socket = socket();
    let mut buffer = socket.read_call().buffer;
    let sent = message(1).to_bytes(socket.abi);
    buffer[..72].copy_from_slice(&sent[..72]);
    let read = socket.read_msg(72, &buffer, 0).map_err(|_| 0);
    match frames().poll_next(ReadEvent::Read(read)) {
        PollStep::Ready(Some(Ok(frame))) => assert_eq!(frame, message(1).frames[0]),
        _ => panic!("the frame is an item"),
    }
}
