use tokio_socketcan_bcm::{
    constants, Abi, BCMSocket, BcmMsgHead, ByteOrder, CANAddr, Error, ErrorKind, ExtendedId, Id, Interval,
    LookupError, MaxAlign, OpenCall, OpenStage, OpenStep, Opening, StandardId, Timeval, WordSize,
};

const LE64: Abi = Abi {
    order: ByteOrder::Little,
    pointer: WordSize::Bits64,
    tv_sec: WordSize::Bits64,
    tv_usec: WordSize::Bits64,
    max_align: MaxAlign::Eight,
};
const LE32: Abi = Abi {
    order: ByteOrder::Little,
    pointer: WordSize::Bits32,
    tv_sec: WordSize::Bits32,
    tv_usec: WordSize::Bits32,
    max_align: MaxAlign::Four,
};

const BE32: Abi = Abi {
    order: ByteOrder::Big,
    pointer: WordSize::Bits32,
    tv_sec: WordSize::Bits32,
    tv_usec: WordSize::Bits32,
    max_align: MaxAlign::Four,
};

fn socket() -> BCMSocket {
    BCMSocket { fd: 7, abi: LE64 }
}

fn standard(raw: u16) -> Id {
    Id::Standard(StandardId::new(raw).unwrap())
}

fn extended(raw: u32) -> Id {
    Id::Extended(ExtendedId::new(raw).unwrap())
}

fn next(step: OpenStep) -> Opening {
    match step {
        OpenStep::Call(opening) => opening,
        _ => panic!("the opening should go on"),
    }
}

fn failure(step: OpenStep) -> i32 {
    match step {
        OpenStep::Failed(Error::Os { errno }) => errno,
        _ => panic!("the opening should fail"),
    }
}

#[test]
fn opens_in_three_calls() {
    let opening = BCMSocket::open_if_nb(4, LE64);
    match opening.call() {
        OpenCall::Socket {
            domain,
            kind,
            protocol,
        } => assert_eq!((domain, kind, protocol), (29, 2, 2)),
        _ => panic!("a socket comes first"),
    }
    let opening = next(opening.returned(11, 0));
    match opening.call() {
        OpenCall::SetNonBlocking { fd } => assert_eq!(fd, 11),
        _ => panic!("the mode is set second"),
    }
    let opening = next(opening.returned(0, 0));
    match opening.call() {
        OpenCall::Connect { fd, address } => {
            assert_eq!(fd, 11);
            assert_eq!(address, vec![29, 0, 0, 0, 4, 0, 0, 0, 0, 0, 0, 0, 0, 0, 0, 0]);
        }
        _ => panic!("the socket is connected third"),
    }
    match opening.returned(0, 0) {
        OpenStep::Opened(socket) => {
            assert_eq!(socket.as_raw_fd(), 11);
            assert_eq!(socket.abi, LE64);
        }
        _ => panic!("the socket should be open"),
    }
}

#[test]
fn first_failing_call_ends_the_opening() {
    let opening = BCMSocket::open_if_nb(4, LE64);
    assert_eq!(failure(opening.returned(-1, 97)), 97);
    let opening = next(opening.returned(11, 0));
    assert_eq!(failure(opening.returned(-1, 22)), 22);
    let opening = next(opening.returned(3, 0));
    assert_eq!(failure(opening.returned(-1, 19)), 19);
    assert_eq!(failure(opening.returned(1, 5)), 5);
}

#[test]
fn opens_by_name() {
    let opening = BCMSocket::open_nb(Ok(4), LE64).ok().unwrap();
    assert_eq!(
        opening,
        Opening {
            if_index: 4,
            abi: LE64,
            stage: OpenStage::Creating
        }
    );
    match BCMSocket::open_nb(Err(LookupError::Sys { errno: 19 }), LE64) {
        Err(Error::Os { errno }) => assert_eq!(errno, 19),
        _ => panic!("an unknown name is an error of the system"),
    }
}

#[test]
fn address_of_an_interface() {
    assert_eq!(
        CANAddr::of_interface(4),
        CANAddr {
            _af_can: 29,
            if_index: 4,
            rx_id: 0,
            tx_id: 0
        }
    );
    assert_eq!(CANAddr::of_interface(0xFFFF_FFFF).if_index, -1);
    assert_eq!(
        CANAddr::of_interface(0x8000_0002).to_bytes(BE32),
        vec![0, 29, 0, 0, 0x80, 0, 0, 2, 0, 0, 0, 0, 0, 0, 0, 0]
    );
    assert_ne!(
        CANAddr::of_interface(1).to_bytes(LE64),
        CANAddr::of_interface(2).to_bytes(LE64)
    );
}

#[test]
fn request_for_a_subscription() {
    let ival1 = Interval::new(1, 2_000).unwrap();
    let ival2 = Interval::new(3, 4_000_999).unwrap();
    let call = socket().filter_id(standard(0x123), ival1, ival2);
    assert_eq!(call.fd, 7);
    assert_eq!(call.bytes.len(), 4152);
    let expected: Vec<u8> = vec![
        5, 0, 0, 0, 0x21, 0, 0, 0, 0, 0, 0, 0, 0, 0, 0, 0, 1, 0, 0, 0, 0, 0, 0, 0, 2, 0, 0, 0, 0,
        0, 0, 0, 3, 0, 0, 0, 0, 0, 0, 0, 0xA0, 0x0F, 0, 0, 0, 0, 0, 0, 0x23, 0x01, 0, 0, 0, 0, 0,
        0,
    ];
    assert_eq!(call.bytes[..56], expected[..]);
    assert!(call.bytes[56..].iter().all(|b| *b == 0));
}

#[test]
fn request_for_a_subscription_reads_as_asked() {
    let ival = Interval::new(1, 2_000).unwrap();
    let call = BCMSocket { fd: 7, abi: LE32 }.filter_id(extended(0x123), ival, Interval::zero());
    let msg = BcmMsgHead::from_bytes(LE32, &call.bytes);
    assert_eq!(msg.opcode, constants::RX_SETUP);
    assert_eq!(msg.flags, constants::SETTIMER | constants::RX_FILTER_ID);
    assert_eq!(msg.count, 0);
    assert_eq!(
        msg.ival1,
        Timeval {
            tv_sec: 1,
            tv_usec: 2
        }
    );
    assert_eq!(
        msg.ival2,
        Timeval {
            tv_sec: 0,
            tv_usec: 0
        }
    );
    assert_eq!(msg.can_id, 0x8000_0123);
    assert_eq!(msg.nframes, 0);
}

#[test]
fn all_subscriptions_write_the_same_request() {
    let id = standard(0x123);
    let ival = Interval::zero();
    let bytes = socket().filter_id(id, ival, ival).bytes;
    assert_eq!(socket().filter(id, ival, ival).call.bytes, bytes);
    assert_eq!(socket().filter_message(id, ival, ival).call.bytes, bytes);
    assert_eq!(socket().filter_id_incoming_frames(id, ival, ival).call.bytes, bytes);
}

#[test]
fn subscription_after_its_write() {
    let id = standard(0x123);
    let ival = Interval::zero();
    let stream = socket().filter(id, ival, ival).written(4152, 0).ok().unwrap();
    assert_eq!(stream.socket.fd, 7);
    let stream = socket().filter_message(id, ival, ival).written(0, 0).ok().unwrap();
    assert_eq!(stream.socket.fd, 7);
    match socket().filter(id, ival, ival).written(-1, 22) {
        Err(Error::WriteZero { errno }) => assert_eq!(errno, 22),
        _ => panic!("a failed write is an error"),
    }
    match socket().filter_message(id, ival, ival).written(-1, 22) {
        Err(Error::WriteZero { errno }) => assert_eq!(errno, 22),
        _ => panic!("a failed write is an error"),
    }
    assert!(socket().filter_id_written(0, 22).is_ok());
    match socket().filter_id_written(-1, 22) {
        Err(Error::WriteZero { errno }) => assert_eq!(errno, 22),
        _ => panic!("a failed write is an error"),
    }
}

#[test]
fn request_to_remove_a_subscription() {
    let call = socket().filter_delete(extended(0x1ABC_DEF0));
    assert_eq!(call.fd, 7);
    let msg = BcmMsgHead::from_bytes(LE64, &call.bytes);
    assert_eq!(msg.opcode, constants::RX_DELETE);
    assert_eq!((msg.flags, msg.count, msg.nframes), (0, 0, 0));
    assert_eq!(msg.can_id, 0x9ABC_DEF0);
    assert_eq!(call.bytes[48..52], [0xF0, 0xDE, 0xBC, 0x9A]);
    assert_eq!(call.bytes.len(), 4152);
}

#[test]
fn removal_names_the_subscription() {
    let ival = Interval::zero();
    let filter = socket().filter_id(standard(0x123), ival, ival).bytes;
    let same = socket().filter_delete(standard(0x123)).bytes;
    let other = socket().filter_delete(extended(0x123)).bytes;
    assert_eq!(filter[48..52], same[48..52]);
    assert_ne!(filter[48..52], other[48..52]);
}

#[test]
fn removal_takes_the_head_alone() {
    assert!(socket().filter_delete_written(56).is_ok());
    assert!(BCMSocket { fd: 7, abi: LE32 }.filter_delete_written(40).is_ok());
    for (rv, text) in [
        (-1, "Wrote -1 but expected 56"),
        (0, "Wrote 0 but expected 56"),
        (40, "Wrote 40 but expected 56"),
        (4152, "Wrote 4152 but expected 56"),
    ] {
        match socket().filter_delete_written(rv) {
            Err(Error::WrongWrite { message }) => assert_eq!(message, text),
            _ => panic!("another number of bytes is an error"),
        }
    }
}

#[test]
fn read_of_a_message() {
    let socket = socket();
    let call = socket.read_call();
    assert_eq!(call.fd, 7);
    assert_eq!(call.buffer, vec![0; 4152]);
    let msg = socket.read_msg(0, &call.buffer, 0).ok().unwrap();
    assert_eq!((msg.opcode, msg.can_id, msg.nframes), (0, 0, 0));
    match socket.read_msg(-1, &call.buffer, 11) {
        Err(Error::Os { errno }) => assert_eq!(errno, 11),
        _ => panic!("a failed read is an error"),
    }
}

#[test]
fn close_reports_other_values_than_minus_one() {
    let mut socket = socket();
    assert!(socket.close(-1, 9).is_ok());
    match socket.close(0, 9) {
        Err(Error::Os { errno }) => assert_eq!(errno, 9),
        _ => panic!("zero is reported"),
    }
}

#[test]
fn streams_keep_the_socket() {
    assert_eq!(socket().incoming_msg().ok().unwrap().socket.fd, 7);
    assert_eq!(socket().incoming_frames().ok().unwrap().socket.fd, 7);
}

#[test]
fn address_where_integers_are_aligned_to_two_bytes() {
    let abi = Abi {
        max_align: MaxAlign::Two,
        ..BE32
    };
    assert_eq!(
        CANAddr::of_interface(4).to_bytes(abi),
        vec![0, 29, 0, 0, 0, 4, 0, 0, 0, 0, 0, 0, 0, 0]
    );
}

#[test]
fn wide_times_on_a_32_bit_machine() {
    let abi = Abi {
        tv_sec: WordSize::Bits64,
        tv_usec: WordSize::Bits64,
        max_align: MaxAlign::Eight,
        ..LE32
    };
    let socket = BCMSocket { fd: 7, abi };
    let t = Interval::new(0x1_0000_0005, 6_000).unwrap();
    let call = socket.filter_id(standard(0x123), t, Interval::zero());
    assert_eq!(call.bytes.len(), 4160);
    assert_eq!(call.bytes[16..24], [5, 0, 0, 0, 1, 0, 0, 0]);
    assert_eq!(call.bytes[24..32], [6, 0, 0, 0, 0, 0, 0, 0]);
    assert_eq!(call.bytes[48..52], [0x23, 1, 0, 0]);
    assert!(socket.filter_delete_written(64).is_ok());
    match socket.filter_delete_written(40) {
        Err(Error::WrongWrite { message }) => assert_eq!(message, "Wrote 40 but expected 64"),
        _ => panic!("another number of bytes is an error"),
    }
}

#[test]
fn requests_that_are_not_written_are_of_one_kind() {
    let id = standard(0x123);
    let ival = Interval::zero();
    for rv in [-1, 0, 40, 4152] {
        let e = socket().filter_delete_written(rv).err().unwrap();
        assert_eq!(e.kind(), ErrorKind::WriteZero);
    }
    let e = socket().filter_id_written(-1, 22).err().unwrap();
    assert_eq!(e.kind(), ErrorKind::WriteZero);
    let e = socket().filter(id, ival, ival).written(-1, 22).err().unwrap();
    assert_eq!(e.kind(), ErrorKind::WriteZero);
    let e = socket().filter_message(id, ival, ival).written(-1, 22).err().unwrap();
    assert_eq!(e.kind(), ErrorKind::WriteZero);
}

#[test]
fn other_failures_are_of_the_kind_of_their_error_number() {
    let e = BCMSocket::open_nb(Err(LookupError::Sys { errno: 19 }), LE64).err().unwrap();
    assert_eq!(e.kind(), ErrorKind::Os { errno: 19 });
    let call = socket().read_call();
    let e = socket().read_msg(-1, &call.buffer, 11).err().unwrap();
    assert_eq!(e.kind(), ErrorKind::Os { errno: 11 });
}
