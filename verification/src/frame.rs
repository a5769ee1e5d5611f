//! CAN frames and the sixteen bytes that one takes in a message.

use crate::byte_order::{
    law_uint_bytes_4, law_uint_read_then_written, law_uint_written_then_read, lemma_pow256_values,
    lemma_uint_bytes_len, push_uint, read_uint, uint_bytes, uint_value, ByteOrder,
};
use crate::id::{FrameFlags, EFF_FLAG, EFF_MASK, ERR_FLAG, RTR_FLAG, SFF_MASK};
use vstd::prelude::*;

verus! {

/// number of bytes of a frame in a message
pub const FRAME_SIZE: usize = 16;

/// A CAN frame, field by field as the kernel stores it.
#[derive(Clone, Copy, PartialEq, Eq, Debug)]
pub struct CANFrame {
    /// 32 bit CAN_ID + EFF/RTR/ERR flags
    pub id: u32,
    /// data length. Bytes beyond are not valid
    pub data_len: u8,
    /// padding
    pub pad: u8,
    /// reserved
    pub res0: u8,
    /// reserved
    pub res1: u8,
    /// buffer for data
    pub data: [u8; 8],
}

/// Error that occurs when creating CAN frames
#[derive(Clone, Copy, PartialEq, Eq, Structural, Debug)]
pub enum ConstructionError {
    /// CAN ID was outside the range of valid IDs
    IDTooLarge,
    /// More than 8 bytes of payload data were passed in
    TooMuchData,
}

/// What `socketcan::CANFrame` tells of itself through its accessors.
struct FrameParts {
    id: u32,
    extended: bool,
    rtr: bool,
    err: bool,
    data: Vec<u8>,
}

/// Calls `socketcan::CANFrame::new` and reads the frame that it makes with the
/// accessors `id`, `is_extended`, `is_rtr`, `is_error` and `data`. `new` refuses
/// more than eight bytes of data first and an identifier above 29 bits second;
/// otherwise the accessors give back the arguments, and the frame is extended
/// exactly if its identifier takes more than eleven bits.
#[verifier::external_body]
fn socketcan_frame(id: u32, data: &[u8], rtr: bool, err: bool) -> (r: Result<
    FrameParts,
    ConstructionError,
>)
    ensures
        match r {
            Ok(parts) => {
                &&& data@.len() <= 8
                &&& id <= 0x1fff_ffff
                &&& parts.id == id
                &&& parts.extended == (id > 0x7ff)
                &&& parts.rtr == rtr
                &&& parts.err == err
                &&& parts.data@ == data@
            },
            Err(ConstructionError::TooMuchData) => data@.len() > 8,
            Err(ConstructionError::IDTooLarge) => data@.len() <= 8 && id > 0x1fff_ffff,
        },
{
    match socketcan::CANFrame::new(id, data, rtr, err) {
        Ok(frame) => Ok(FrameParts {
            id: frame.id(),
            extended: frame.is_extended(),
            rtr: frame.is_rtr(),
            err: frame.is_error(),
            data: frame.data().to_vec(),
        }),
        Err(socketcan::ConstructionError::TooMuchData) => Err(ConstructionError::TooMuchData),
        Err(socketcan::ConstructionError::IDTooLarge) => Err(ConstructionError::IDTooLarge),
    }
}

/// The identifier word of a frame with the identifier `id`.
pub open spec fn id_with_flags(id: u32, rtr: bool, err: bool) -> u32 {
    id | (if id > SFF_MASK {
        EFF_FLAG
    } else {
        0u32
    }) | (if rtr {
        RTR_FLAG
    } else {
        0u32
    }) | (if err {
        ERR_FLAG
    } else {
        0u32
    })
}

/// `data`, filled up with zeros to the eight bytes of a frame's buffer.
pub open spec fn padded(data: Seq<u8>) -> Seq<u8> {
    Seq::new(
        8,
        |i: int|
            if i < data.len() {
                data[i]
            } else {
                0u8
            },
    )
}

impl CANFrame {
    /// The frame with identifier zero and no data.
    pub open spec fn blank() -> CANFrame {
        CANFrame { id: 0, data_len: 0, pad: 0, res0: 0, res1: 0, data: [0, 0, 0, 0, 0, 0, 0, 0] }
    }

    /// The bytes of the frame in a message.
    pub open spec fn spec_bytes(self, order: ByteOrder) -> Seq<u8> {
        uint_bytes(order, self.id as nat, 4) + seq![self.data_len, self.pad, self.res0, self.res1]
            + self.data@
    }

    /// A frame with the given identifier and data. The extended format is chosen
    /// where the identifier needs it.
    pub fn new(id: u32, data: &[u8], rtr: bool, err: bool) -> (r: Result<
        CANFrame,
        ConstructionError,
    >)
        ensures
            match r {
                Ok(frame) => {
                    &&& data@.len() <= 8
                    &&& id <= EFF_MASK
                    &&& frame.id == id_with_flags(id, rtr, err)
                    &&& frame.data_len == data@.len()
                    &&& frame.pad == 0 && frame.res0 == 0 && frame.res1 == 0
                    &&& frame.data@ == padded(data@)
                },
                Err(ConstructionError::TooMuchData) => data@.len() > 8,
                Err(ConstructionError::IDTooLarge) => data@.len() <= 8 && id > EFF_MASK,
            },
    {
        match socketcan_frame(id, data, rtr, err) {
            Ok(parts) => {
                let eff: u32 = if parts.extended {
                    FrameFlags::eff_flag().bits()
                } else {
                    0
                };
                let rtr: u32 = if parts.rtr {
                    FrameFlags::rtr_flag().bits()
                } else {
                    0
                };
                let err: u32 = if parts.err {
                    FrameFlags::err_flag().bits()
                } else {
                    0
                };
                let mut full: [u8; 8] = [0u8;8];
                let len: usize = parts.data.len();
                let mut n: usize = 0;
                while n < len
                    invariant
                        n <= len <= 8,
                        len == parts.data@.len(),
                        forall|i: int| 0 <= i < n ==> full@[i] == parts.data@[i],
                        forall|i: int| n <= i < 8 ==> full@[i] == 0,
                    decreases len - n,
                {
                    full[n] = parts.data[n];
                    n = n + 1;
                }
                assert(full@ =~= padded(data@));
                Ok(
                    CANFrame {
                        id: parts.id | eff | rtr | err,
                        data_len: len as u8,
                        pad: 0,
                        res0: 0,
                        res1: 0,
                        data: full,
                    },
                )
            },
            Err(e) => Err(e),
        }
    }

    /// The frame with identifier zero and no data, which fills the unused places
    /// of a message's buffer.
    pub fn empty() -> (r: CANFrame)
        ensures
            r == CANFrame::blank(),
    {
        let none: [u8; 0] = [];
        let frame = CANFrame::new(0x0, &none, false, false).unwrap();
        proof {
            assert(0u32 | 0u32 | 0u32 | 0u32 == 0u32) by (bit_vector);
            assert(frame.data@ =~= CANFrame::blank().data@);
            assert(frame.data =~= CANFrame::blank().data);
        }
        frame
    }

    /// Appends the bytes of the frame.
    pub(crate) fn push_to(&self, order: ByteOrder, buf: &mut Vec<u8>)
        ensures
            final(buf)@ == old(buf)@ + self.spec_bytes(order),
    {
        push_uint(buf, order, self.id as u64, 4);
        buf.push(self.data_len);
        buf.push(self.pad);
        buf.push(self.res0);
        buf.push(self.res1);
        let ghost start = buf@;
        let mut i: usize = 0;
        while i < 8
            invariant
                i <= 8,
                buf@ == start + self.data@.take(i as int),
            decreases 8 - i,
        {
            buf.push(self.data[i]);
            proof {
                assert(self.data@.take(i + 1) =~= self.data@.take(i as int).push(
                    self.data@[i as int],
                ));
                assert(buf@ =~= start + self.data@.take(i + 1));
            }
            i = i + 1;
        }
        proof {
            assert(self.data@.take(8) =~= self.data@);
            assert(buf@ =~= old(buf)@ + self.spec_bytes(order));
        }
    }

    /// The frame whose bytes stand from `at` on.
    pub(crate) fn read_from(bytes: &[u8], at: usize, order: ByteOrder) -> (r: CANFrame)
        requires
            at + 16 <= bytes.len(),
        ensures
            r.spec_bytes(order) == bytes@.subrange(at as int, at + 16),
            r.id == uint_value(order, bytes@.subrange(at as int, at + 4)),
            r.data_len == bytes@[at + 4],
            r.pad == bytes@[at + 5],
            r.res0 == bytes@[at + 6],
            r.res1 == bytes@[at + 7],
            forall|i: int| 0 <= i < 8 ==> #[trigger] r.data@[i] == bytes@[at + 8 + i],
    {
        let id: u32 = read_uint(bytes, at, order, 4) as u32;
        let mut data: [u8; 8] = [0u8;8];
        let mut i: usize = 0;
        while i < 8
            invariant
                i <= 8,
                at + 16 <= bytes.len(),
                forall|j: int| 0 <= j < i ==> data@[j] == bytes@[at + 8 + j],
            decreases 8 - i,
        {
            data[i] = bytes[at + 8 + i];
            i = i + 1;
        }
        let frame = CANFrame {
            id,
            data_len: bytes[at + 4],
            pad: bytes[at + 5],
            res0: bytes[at + 6],
            res1: bytes[at + 7],
            data,
        };
        proof {
            lemma_pow256_values();
            let word = bytes@.subrange(at as int, at + 4);
            law_uint_read_then_written(order, word);
            assert(frame.spec_bytes(order) =~= bytes@.subrange(at as int, at + 16));
        }
        frame
    }
}

/// A frame takes sixteen bytes.
pub(crate) proof fn lemma_frame_bytes_len(frame: CANFrame, order: ByteOrder)
    ensures
        frame.spec_bytes(order).len() == 16,
{
    lemma_uint_bytes_len(order, frame.id as nat, 4);
}

/// The bytes of a frame determine the frame.
pub proof fn law_frame_bytes_injective(a: CANFrame, b: CANFrame, order: ByteOrder)
    requires
        a.spec_bytes(order) == b.spec_bytes(order),
    ensures
        a == b,
{
    let s = a.spec_bytes(order);
    let t = b.spec_bytes(order);
    lemma_frame_bytes_len(a, order);
    lemma_frame_bytes_len(b, order);
    lemma_uint_bytes_len(order, a.id as nat, 4);
    lemma_uint_bytes_len(order, b.id as nat, 4);
    lemma_pow256_values();
    assert(s.take(4) =~= uint_bytes(order, a.id as nat, 4));
    assert(t.take(4) =~= uint_bytes(order, b.id as nat, 4));
    law_uint_written_then_read(order, a.id as nat, 4);
    law_uint_written_then_read(order, b.id as nat, 4);
    assert(s[4] == a.data_len && s[5] == a.pad && s[6] == a.res0 && s[7] == a.res1);
    assert(t[4] == b.data_len && t[5] == b.pad && t[6] == b.res0 && t[7] == b.res1);
    assert(s.skip(8) =~= a.data@);
    assert(t.skip(8) =~= b.data@);
    assert(a.data =~= b.data);
}

/// The sixteen bytes of a frame, each by its place: four of the identifier, then the
/// length, the padding and the two reserved bytes, then the data in its order.
pub proof fn law_frame_bytes(frame: CANFrame, order: ByteOrder)
    ensures
        frame.spec_bytes(order).len() == 16,
        uint_value(order, frame.spec_bytes(order).subrange(0, 4)) == frame.id,
        frame.spec_bytes(order)[4] == frame.data_len,
        frame.spec_bytes(order)[5] == frame.pad,
        frame.spec_bytes(order)[6] == frame.res0,
        frame.spec_bytes(order)[7] == frame.res1,
        forall|i: int|
            0 <= i < 8 ==> #[trigger] frame.data@[i] == frame.spec_bytes(order)[8 + i],
{
    let s = frame.spec_bytes(order);
    lemma_pow256_values();
    lemma_uint_bytes_len(order, frame.id as nat, 4);
    law_uint_written_then_read(order, frame.id as nat, 4);
    assert(s.subrange(0, 4) =~= uint_bytes(order, frame.id as nat, 4));
}

/// The identifier word of a frame is the identifier, plus a bit of its own for the
/// extended format, a remote request and an error. The extended format is that of
/// the identifiers above eleven bits.
pub proof fn law_id_with_flags(id: u32, rtr: bool, err: bool)
    requires
        id <= 0x1FFF_FFFF,
    ensures
        id_with_flags(id, rtr, err) == id + (if id > 0x7FF {
            0x8000_0000int
        } else {
            0
        }) + (if rtr {
            0x4000_0000int
        } else {
            0
        }) + (if err {
            0x2000_0000int
        } else {
            0
        }),
{
    assert(forall|e: u32, r: u32, f: u32|
        id <= 0x1FFF_FFFF && (e == 0 || e == 0x8000_0000) && (r == 0 || r == 0x4000_0000) && (f == 0
            || f == 0x2000_0000) ==> #[trigger] (id | e | r | f) == id + e + r + f)
        by (bit_vector);
}

/// The buffer of a frame holds its data from the first place on, and zeros behind.
pub proof fn law_padded(data: Seq<u8>)
    ensures
        padded(data).len() == 8,
        forall|i: int| 0 <= i < 8 && i < data.len() ==> #[trigger] padded(data)[i] == data[i],
        forall|i: int| data.len() <= i < 8 ==> #[trigger] padded(data)[i] == 0,
{
}

/// In a blank frame everything is zero, and so is each of its bytes.
pub proof fn law_blank_frame(order: ByteOrder)
    ensures
        CANFrame::blank().id == 0,
        CANFrame::blank().data_len == 0,
        CANFrame::blank().pad == 0,
        CANFrame::blank().res0 == 0,
        CANFrame::blank().res1 == 0,
        forall|i: int| 0 <= i < 8 ==> #[trigger] CANFrame::blank().data@[i] == 0,
        CANFrame::blank().spec_bytes(order).len() == 16,
        forall|i: int|
            0 <= i < 16 ==> #[trigger] CANFrame::blank().spec_bytes(order)[i] == 0,
        FRAME_SIZE == 16,
{
    law_frame_bytes(CANFrame::blank(), order);
    law_uint_bytes_4(order, 0);
}

} // verus!
