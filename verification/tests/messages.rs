use tokio_socketcan_bcm::{
    Abi, BCMSocket, BcmMsgHead, BcmMsgHeadFrameLess, ByteOrder, CANFrame, MaxAlign, Timeval, TxMsg, WordSize,
};

const LE64: Abi = Abi {
    order: ByteOrder::Little,
    pointer: WordSize::Bits64,
    tv_sec: WordSize::Bits64,
    tv_usec: WordSize::Bits64,
    max_align: MaxAlign::Eight,
};
const BE64: Abi = Abi {
    order: ByteOrder::Big,
    pointer: WordSize::Bits64,
    tv_sec: WordSize::Bits64,
    tv_usec: WordSize::Bits64,
    max_align: MaxAlign::Eight,
};
const LE32: Abi = Abi {
    order: ByteOrder::Little,
    pointer: WordSize::Bits32,
    tv_sec: WordSize::Bits32,
    tv_usec: WordSize::Bits32,
    max_align: MaxAlign::Four,
};
const BE32: Abi = Abi {
    order: ByteOrder::Big,
    pointer: WordSize::Bits32,
    tv_sec: WordSize::Bits32,
    tv_usec: WordSize::Bits32,
    max_align: MaxAlign::Four,
};

fn frame(n: u32) -> CANFrame {
    CANFrame {
        id: 0x0102_0300 + n,
        data_len: 8,
        pad: 0xA0,
        res0: 0xA1,
        res1: 0xA2,
        data: [n as u8, 1, 2, 3, 4, 5, 6, 7],
    }
}

fn message(nframes: u32) -> BcmMsgHead {
    let mut frames = [CANFrame::empty(); 256];
    let mut n: u32 = 0;
    while n < nframes {
        frames[n as usize] = frame(n);
        n += 1;
    }
    BcmMsgHead {
        opcode: 12,
        flags: 0x0102_0304,
        count: 0x1122_3344,
        ival1: Timeval {
            tv_sec: 5,
            tv_usec: 6,
        },
        ival2: Timeval {
            tv_sec: -7,
            tv_usec: 999_999,
        },
        can_id: 0x8000_0123,
        nframes,
        frames,
    }
}

fn tx(msg: &BcmMsgHead) -> TxMsg {
    TxMsg {
        msg_head: BcmMsgHeadFrameLess {
            opcode: msg.opcode,
            flags: msg.flags,
            count: msg.count,
            ival1: msg.ival1,
            ival2: msg.ival2,
            can_id: msg.can_id,
            nframes: msg.nframes,
        },
        frames: msg.frames,
    }
}

fn same(a: &BcmMsgHead, b: &BcmMsgHead) -> bool {
    a.opcode == b.opcode
        && a.flags == b.flags
        && a.count == b.count
        && a.ival1 == b.ival1
        && a.ival2 == b.ival2
        && a.can_id == b.can_id
        && a.nframes == b.nframes
        && a.frames == b.frames
}

#[test]
fn sizes_of_messages() {
    assert_eq!(LE64.head_size(), 56);
    assert_eq!(LE64.message_size(), 4152);
    assert_eq!(LE32.head_size(), 40);
    assert_eq!(LE32.message_size(), 4136);
    assert_eq!(message(3).to_bytes(LE64).len(), 4152);
    assert_eq!(message(3).to_bytes(BE32).len(), 4136);
}

/// 64-bit times, aligned to eight bytes, beside 32-bit pointers.
const WIDE_TIMES: Abi = Abi {
    tv_sec: WordSize::Bits64,
    tv_usec: WordSize::Bits64,
    max_align: MaxAlign::Eight,
    ..LE32
};

/// 64-bit times, aligned to four bytes, beside 32-bit pointers.
const WIDE_TIMES_PACKED: Abi = Abi {
    max_align: MaxAlign::Four,
    ..WIDE_TIMES
};

/// 32-bit microseconds beside 64-bit seconds.
const NARROW_USEC: Abi = Abi {
    tv_usec: WordSize::Bits32,
    ..BE64
};

/// 64-bit microseconds beside 32-bit seconds.
const NARROW_SEC: Abi = Abi {
    tv_sec: WordSize::Bits32,
    ..WIDE_TIMES
};

/// Integers aligned to two bytes.
const TWO_BYTES: Abi = Abi {
    max_align: MaxAlign::Two,
    ..BE32
};

fn width(size: usize) -> WordSize {
    if size == 4 {
        WordSize::Bits32
    } else {
        WordSize::Bits64
    }
}

#[test]
fn time_has_the_size_that_libc_gives_it() {
    let zero = libc::timeval {
        tv_sec: 0,
        tv_usec: 0,
    };
    let abi = Abi {
        order: ByteOrder::Little,
        pointer: width(std::mem::size_of::<usize>()),
        tv_sec: width(std::mem::size_of_val(&zero.tv_sec)),
        tv_usec: width(std::mem::size_of_val(&zero.tv_usec)),
        max_align: if std::mem::align_of::<i64>() == 8 {
            MaxAlign::Eight
        } else {
            MaxAlign::Four
        },
    };
    assert_eq!(abi.timeval_size(), std::mem::size_of::<libc::timeval>());
}

#[test]
fn sizes_where_times_are_not_two_longs() {
    assert_eq!(WIDE_TIMES.timeval_size(), 16);
    assert_eq!(WIDE_TIMES.head_size(), 64);
    assert_eq!(WIDE_TIMES.message_size(), 4160);
    assert_eq!(WIDE_TIMES_PACKED.timeval_size(), 16);
    assert_eq!(WIDE_TIMES_PACKED.head_size(), 56);
    assert_eq!(NARROW_USEC.timeval_size(), 16);
    assert_eq!(NARROW_USEC.head_size(), 56);
    assert_eq!(NARROW_SEC.timeval_size(), 16);
    assert_eq!(NARROW_SEC.head_size(), 64);
    assert_eq!(TWO_BYTES.timeval_size(), 8);
    assert_eq!(TWO_BYTES.head_size(), 40);
}

#[test]
fn frames_stand_before_the_filling_in_one_form_and_after_it_in_the_other() {
    let msg = message(1);
    let frame_bytes = [0x00, 0x03, 0x02, 0x01, 8, 0xA0, 0xA1, 0xA2];
    let bytes = msg.to_bytes(WIDE_TIMES);
    assert_eq!(bytes.len(), 4160);
    assert_eq!(bytes[60..68], frame_bytes);
    let bytes = tx(&msg).to_bytes(WIDE_TIMES);
    assert_eq!(bytes.len(), 4160);
    assert_eq!(bytes[60..64], [0; 4]);
    assert_eq!(bytes[64..72], frame_bytes);
}

#[test]
fn times_with_gaps() {
    let bytes = message(1).to_bytes(NARROW_USEC);
    assert_eq!(bytes[16..24], [0, 0, 0, 0, 0, 0, 0, 5]);
    assert_eq!(bytes[24..32], [0, 0, 0, 6, 0, 0, 0, 0]);
    let bytes = message(1).to_bytes(NARROW_SEC);
    assert_eq!(bytes[16..24], [5, 0, 0, 0, 0, 0, 0, 0]);
    assert_eq!(bytes[24..32], [6, 0, 0, 0, 0, 0, 0, 0]);
    let bytes = message(1).to_bytes(WIDE_TIMES_PACKED);
    assert_eq!(bytes[12..20], [5, 0, 0, 0, 0, 0, 0, 0]);
    assert_eq!(bytes[44..52], [0x23, 0x01, 0, 0x80, 1, 0, 0, 0]);
}

#[test]
fn head_on_a_little_endian_64_bit_machine() {
    let bytes = message(1).to_bytes(LE64);
    let expected: Vec<u8> = vec![
        12, 0, 0, 0, 4, 3, 2, 1, 0x44, 0x33, 0x22, 0x11, 0, 0, 0, 0, 5, 0, 0, 0, 0, 0, 0, 0, 6, 0,
        0, 0, 0, 0, 0, 0, 0xF9, 0xFF, 0xFF, 0xFF, 0xFF, 0xFF, 0xFF, 0xFF, 0x3F, 0x42, 0x0F, 0, 0,
        0, 0, 0, 0x23, 0x01, 0, 0x80, 1, 0, 0, 0,
    ];
    assert_eq!(bytes[..56], expected[..]);
    assert_eq!(
        bytes[56..72],
        [0x00, 0x03, 0x02, 0x01, 8, 0xA0, 0xA1, 0xA2, 0, 1, 2, 3, 4, 5, 6, 7]
    );
    assert!(bytes[72..].iter().all(|b| *b == 0));
}

#[test]
fn head_on_a_big_endian_32_bit_machine() {
    let bytes = message(1).to_bytes(BE32);
    let expected: Vec<u8> = vec![
        0, 0, 0, 12, 1, 2, 3, 4, 0x11, 0x22, 0x33, 0x44, 0, 0, 0, 5, 0, 0, 0, 6, 0xFF, 0xFF, 0xFF,
        0xF9, 0, 0x0F, 0x42, 0x3F, 0x80, 0, 1, 0x23, 0, 0, 0, 1, 0, 0, 0, 0,
    ];
    assert_eq!(bytes[..40], expected[..]);
    assert_eq!(
        bytes[40..56],
        [0x01, 0x02, 0x03, 0x00, 8, 0xA0, 0xA1, 0xA2, 0, 1, 2, 3, 4, 5, 6, 7]
    );
}

#[test]
fn message_is_read_back_as_written() {
    for abi in [
        LE64,
        BE64,
        LE32,
        BE32,
        WIDE_TIMES,
        WIDE_TIMES_PACKED,
        NARROW_USEC,
        NARROW_SEC,
        TWO_BYTES,
    ] {
        for n in [0, 1, 2, 255, 256] {
            let msg = message(n);
            let read = BcmMsgHead::from_bytes(abi, &msg.to_bytes(abi));
            assert!(same(&read, &msg));
        }
    }
}

#[test]
fn bytes_are_written_back_as_read() {
    let mut bytes: Vec<u8> = Vec::new();
    let mut i: usize = 0;
    while i < LE64.message_size() {
        bytes.push(if i < 12 || i >= 16 { (i * 7 % 251) as u8 } else { 0 });
        i += 1;
    }
    let msg = BcmMsgHead::from_bytes(LE64, &bytes);
    assert_eq!(msg.to_bytes(LE64), bytes);
    let msg = BcmMsgHead::from_bytes(BE64, &bytes);
    assert_eq!(msg.to_bytes(BE64), bytes);
}

#[test]
fn both_forms_agree_where_nothing_is_filled() {
    let msg = message(2);
    let tx = tx(&msg);
    assert_eq!(tx.to_bytes(LE64), msg.to_bytes(LE64));
    assert_eq!(tx.to_bytes(LE32), msg.to_bytes(LE32));
}

#[test]
fn frames_are_as_many_as_counted() {
    assert_eq!(message(0).frames().len(), 0);
    assert_eq!(message(256).frames().len(), 256);
    let msg = message(3);
    assert_eq!(msg.frames(), &[frame(0), frame(1), frame(2)][..]);
    assert_eq!(msg.can_id(), 0x8000_0123);
}

#[test]
fn short_message_over_a_blank_one() {
    let socket = BCMSocket { fd: 3, abi: LE64 };
    let call = socket.read_call();
    let sent = message(1).to_bytes(LE64);
    let mut buffer = call.buffer;
    buffer[..72].copy_from_slice(&sent[..72]);
    let msg = socket.read_msg(72, &buffer, 0).ok().unwrap();
    assert!(same(&msg, &message(1)));
}

#[test]
fn text_of_a_message() {
    assert_eq!(
        message(1).debug_text(),
        "BcmMsgHead { _opcode: 12, _flags: 16909060 , _count: 287454020, _ival1: 5, _ival2: -7, \
         _can_id: 2147483939, _nframes: 1}"
    );
}

#[test]
fn text_of_extreme_numbers() {
    let mut msg = message(0);
    msg.opcode = 0;
    msg.flags = u32::MAX;
    msg.count = 10;
    msg.ival1.tv_sec = i64::MIN;
    msg.ival2.tv_sec = i64::MAX;
    let expected = format!(
        "BcmMsgHead {{ _opcode: {}, _flags: {} , _count: {}, _ival1: {:?}, _ival2: {:?}, _can_id: {}, _nframes: {}}}",
        msg.opcode, msg.flags, msg.count, msg.ival1.tv_sec, msg.ival2.tv_sec, msg.can_id, msg.nframes
    );
    assert_eq!(msg.debug_text(), expected);
}
