//! Messages to and from the broadcast manager and their bytes.

use crate::abi::{
    aligned, int_at, int_bytes, law_int_bytes, law_int_read_then_written, law_int_written_then_read,
    law_time_layout, lemma_round_up, lemma_time_layout, push_int, push_zeros, read_int, round_up,
    u32_at, zeros, Abi, WordSize,
};
use crate::byte_order::{
    fits_signed, law_twos_complement, law_uint_bytes_4, law_uint_bytes_8,
    law_uint_read_then_written, law_uint_written_then_read, le_bytes, lemma_append,
    lemma_last_part, lemma_pow256_values, lemma_take_extended, lemma_uint_bytes_len,
    lemma_uint_value_bound, push_uint, read_uint, signed, uint_bytes, uint_value, wrapped,
    ByteOrder,
};
use crate::constants::MAX_NFRAMES;
use crate::frame::{
    law_frame_bytes, law_frame_bytes_injective, lemma_frame_bytes_len, CANFrame, FRAME_SIZE,
};
use crate::text::{decimal, push_decimal};
use crate::timeval::Timeval;
use vstd::prelude::*;

verus! {

/// BcmMsgHead
///
/// Head of messages to and from the broadcast manager
pub struct BcmMsgHead {
    pub opcode: u32,
    pub flags: u32,
    /// number of frames to send before changing interval
    pub count: u32,
    /// interval for the first count frames
    pub ival1: Timeval,
    /// interval for the following frames
    pub ival2: Timeval,
    pub can_id: u32,
    /// number of can frames appended to the message head
    pub nframes: u32,
    /// buffer of CAN frames
    pub frames: [CANFrame; 256],
}

/// BcmMsgHeadFrameLess
///
/// Head of messages to and from the broadcast manager, without the frames that
/// follow it
#[derive(Clone, Copy, PartialEq, Eq, Structural, Debug)]
pub struct BcmMsgHeadFrameLess {
    pub opcode: u32,
    pub flags: u32,
    /// number of frames to send before changing interval
    pub count: u32,
    /// interval for the first count frames
    pub ival1: Timeval,
    /// interval for the following frames
    pub ival2: Timeval,
    pub can_id: u32,
    /// number of can frames appended to the message head
    pub nframes: u32,
}

/// A message head together with the frames that follow it.
pub struct TxMsg {
    pub msg_head: BcmMsgHeadFrameLess,
    pub frames: [CANFrame; 256],
}

impl Abi {
    /// Where the intervals of a message head stand.
    pub open spec fn times_at(self) -> nat {
        round_up(12, self.time_align())
    }

    /// Where the identifier of a message head stands.
    pub open spec fn can_id_at(self) -> nat {
        self.times_at() + 2 * self.spec_timeval_size()
    }

    /// Where the frames stand in a `BcmMsgHead`. With 32-bit pointers four unused
    /// bytes come before them.
    pub open spec fn frames_at(self) -> nat {
        self.can_id_at() + 8 + (if self.pointer is Bits32 {
            4nat
        } else {
            0nat
        })
    }

    /// The number of bytes of a message head on its own, a multiple of its
    /// alignment.
    pub open spec fn spec_head_size(self) -> nat {
        round_up(self.frames_at(), self.time_align())
    }

    /// The number of bytes by which a message head on its own is filled up.
    pub open spec fn fill(self) -> nat {
        (self.spec_head_size() - self.frames_at()) as nat
    }

    /// The number of bytes of a message head with its buffer of frames.
    pub open spec fn spec_message_size(self) -> nat {
        self.spec_head_size() + (MAX_NFRAMES * FRAME_SIZE) as nat
    }

    /// The number of bytes of a message head with its buffer of frames.
    pub fn message_size(self) -> (r: usize)
        ensures
            r == self.spec_message_size(),
    {
        proof {
            lemma_head_layout(self);
        }
        aligned(self.frames_offset(), self.time_alignment()) + 256 * FRAME_SIZE
    }

    /// The number of bytes of a message head: those of the whole message, less
    /// those of the buffer of frames.
    pub fn head_size(self) -> (r: usize)
        ensures
            r == self.spec_head_size(),
    {
        self.message_size() - 256 * FRAME_SIZE
    }

    fn times_offset(self) -> (r: usize)
        ensures
            r == self.times_at(),
            12 <= r <= 16,
    {
        proof {
            lemma_head_layout(self);
        }
        aligned(12, self.time_alignment())
    }

    fn frames_offset(self) -> (r: usize)
        ensures
            r == self.frames_at(),
            r <= 60,
    {
        let ids: usize = self.times_offset() + 2 * self.timeval_size();
        if self.pointer == WordSize::Bits32 {
            ids + 12
        } else {
            ids + 8
        }
    }
}

/// The fields of a message head stand in turn, within its size.
proof fn lemma_head_layout(abi: Abi)
    ensures
        12 <= abi.times_at() <= 16,
        abi.can_id_at() + 8 <= abi.frames_at() <= 60,
        abi.frames_at() <= abi.spec_head_size() < abi.frames_at() + 8,
{
    lemma_time_layout(abi);
    lemma_round_up(12, abi.time_align());
    lemma_round_up(abi.frames_at(), abi.time_align());
    assert(12nat % 2 == 0 && 12nat % 4 == 0 && 12nat % 8 == 4);
}

/// The bytes of a time, with zeros where the layout leaves a gap.
pub open spec fn timeval_bytes(abi: Abi, t: Timeval) -> Seq<u8> {
    int_bytes(abi.order, abi.tv_sec, t.tv_sec) + zeros(
        (abi.usec_at() - abi.tv_sec.spec_size()) as nat,
    ) + int_bytes(abi.order, abi.tv_usec, t.tv_usec) + zeros(
        (abi.spec_timeval_size() - abi.usec_at() - abi.tv_usec.spec_size()) as nat,
    )
}

/// The time in the bytes from `at` on.
pub open spec fn timeval_at(abi: Abi, bytes: Seq<u8>, at: int) -> Timeval {
    Timeval {
        tv_sec: int_at(abi.order, abi.tv_sec, bytes, at),
        tv_usec: int_at(abi.order, abi.tv_usec, bytes, at + abi.usec_at()),
    }
}

/// The bytes of a message head up to where the frames of a `BcmMsgHead` stand, with
/// zeros where the layout leaves a gap.
pub open spec fn head_bytes(abi: Abi, head: BcmMsgHeadFrameLess) -> Seq<u8> {
    uint_bytes(abi.order, head.opcode as nat, 4) + uint_bytes(abi.order, head.flags as nat, 4)
        + uint_bytes(abi.order, head.count as nat, 4) + zeros((abi.times_at() - 12) as nat)
        + timeval_bytes(abi, head.ival1) + timeval_bytes(abi, head.ival2) + uint_bytes(
        abi.order,
        head.can_id as nat,
        4,
    ) + uint_bytes(abi.order, head.nframes as nat, 4) + zeros(
        (abi.frames_at() - abi.can_id_at() - 8) as nat,
    )
}

/// The message head in the first bytes of `bytes`.
pub open spec fn head_in(abi: Abi, bytes: Seq<u8>) -> BcmMsgHeadFrameLess {
    let at = abi.times_at() as int;
    let ids = abi.can_id_at() as int;
    BcmMsgHeadFrameLess {
        opcode: u32_at(abi.order, bytes, 0),
        flags: u32_at(abi.order, bytes, 4),
        count: u32_at(abi.order, bytes, 8),
        ival1: timeval_at(abi, bytes, at),
        ival2: timeval_at(abi, bytes, at + abi.spec_timeval_size()),
        can_id: u32_at(abi.order, bytes, ids),
        nframes: u32_at(abi.order, bytes, ids + 4),
    }
}

/// The bytes of some frames, one after the other.
pub open spec fn frames_bytes(order: ByteOrder, frames: Seq<CANFrame>) -> Seq<u8>
    decreases frames.len(),
{
    if frames.len() == 0 {
        Seq::empty()
    } else {
        frames_bytes(order, frames.drop_last()) + frames.last().spec_bytes(order)
    }
}

/// The bytes of a `BcmMsgHead`: its head, its frames, and what fills it up to a
/// multiple of its alignment.
pub open spec fn message_bytes(
    abi: Abi,
    head: BcmMsgHeadFrameLess,
    frames: Seq<CANFrame>,
) -> Seq<u8> {
    head_bytes(abi, head) + frames_bytes(abi.order, frames) + zeros(abi.fill())
}

/// The bytes of a `TxMsg`: its head, filled up to a multiple of its alignment, then
/// its frames.
pub open spec fn tx_bytes(
    abi: Abi,
    head: BcmMsgHeadFrameLess,
    frames: Seq<CANFrame>,
) -> Seq<u8> {
    head_bytes(abi, head) + zeros(abi.fill()) + frames_bytes(abi.order, frames)
}

/// As many frames with identifier zero and no data as a message's buffer holds.
pub open spec fn blank_frames() -> Seq<CANFrame> {
    Seq::new(MAX_NFRAMES as nat, |i: int| CANFrame::blank())
}

impl Timeval {
    /// Both fields fit in the integers of the target's times.
    pub open spec fn wf(self, abi: Abi) -> bool {
        &&& fits_signed(self.tv_sec as int, abi.tv_sec.spec_size())
        &&& fits_signed(self.tv_usec as int, abi.tv_usec.spec_size())
    }

    fn push_to(&self, abi: Abi, buf: &mut Vec<u8>)
        ensures
            final(buf)@ == old(buf)@ + timeval_bytes(abi, *self),
    {
        let usec_at: usize = abi.usec_offset();
        proof {
            lemma_time_layout(abi);
        }
        push_int(buf, abi.order, abi.tv_sec, self.tv_sec);
        push_zeros(buf, usec_at - abi.tv_sec.size());
        push_int(buf, abi.order, abi.tv_usec, self.tv_usec);
        push_zeros(buf, abi.timeval_size() - usec_at - abi.tv_usec.size());
        assert(buf@ =~= old(buf)@ + timeval_bytes(abi, *self));
    }

    fn read_from(abi: Abi, bytes: &[u8], at: usize) -> (r: Timeval)
        requires
            at + abi.spec_timeval_size() <= bytes.len(),
        ensures
            r == timeval_at(abi, bytes@, at as int),
    {
        proof {
            lemma_time_layout(abi);
        }
        Timeval {
            tv_sec: read_int(bytes, at, abi.order, abi.tv_sec),
            tv_usec: read_int(bytes, at + abi.usec_offset(), abi.order, abi.tv_usec),
        }
    }
}

impl BcmMsgHeadFrameLess {
    /// The intervals are times that the target can hold.
    pub open spec fn wf(self, abi: Abi) -> bool {
        self.ival1.wf(abi) && self.ival2.wf(abi)
    }

    /// The head in which every field is zero.
    pub open spec fn spec_zero() -> BcmMsgHeadFrameLess {
        BcmMsgHeadFrameLess {
            opcode: 0,
            flags: 0,
            count: 0,
            ival1: Timeval { tv_sec: 0, tv_usec: 0 },
            ival2: Timeval { tv_sec: 0, tv_usec: 0 },
            can_id: 0,
            nframes: 0,
        }
    }

    fn push_to(&self, abi: Abi, buf: &mut Vec<u8>)
        ensures
            final(buf)@ == old(buf)@ + head_bytes(abi, *self),
    {
        let times_at: usize = abi.times_offset();
        let can_id_at: usize = times_at + 2 * abi.timeval_size();
        proof {
            lemma_head_layout(abi);
        }
        push_uint(buf, abi.order, self.opcode as u64, 4);
        push_uint(buf, abi.order, self.flags as u64, 4);
        push_uint(buf, abi.order, self.count as u64, 4);
        push_zeros(buf, times_at - 12);
        self.ival1.push_to(abi, buf);
        self.ival2.push_to(abi, buf);
        push_uint(buf, abi.order, self.can_id as u64, 4);
        push_uint(buf, abi.order, self.nframes as u64, 4);
        push_zeros(buf, abi.frames_offset() - can_id_at - 8);
        proof {
            let o = abi.order;
            let start = old(buf)@;
            let a = uint_bytes(o, self.opcode as nat, 4);
            let b = uint_bytes(o, self.flags as nat, 4);
            let c = uint_bytes(o, self.count as nat, 4);
            let d = zeros((abi.times_at() - 12) as nat);
            let e = timeval_bytes(abi, self.ival1);
            let f = timeval_bytes(abi, self.ival2);
            let g = uint_bytes(o, self.can_id as nat, 4);
            let h = uint_bytes(o, self.nframes as nat, 4);
            let k = zeros((abi.frames_at() - abi.can_id_at() - 8) as nat);
            lemma_append(start, a, b);
            lemma_append(start, a + b, c);
            lemma_append(start, a + b + c, d);
            lemma_append(start, a + b + c + d, e);
            lemma_append(start, a + b + c + d + e, f);
            lemma_append(start, a + b + c + d + e + f, g);
            lemma_append(start, a + b + c + d + e + f + g, h);
            lemma_append(start, a + b + c + d + e + f + g + h, k);
        }
    }

    fn read_from(abi: Abi, bytes: &[u8]) -> (r: BcmMsgHeadFrameLess)
        requires
            abi.frames_at() <= bytes.len(),
        ensures
            r == head_in(abi, bytes@),
    {
        let at: usize = abi.times_offset();
        let n: usize = abi.timeval_size();
        let ids: usize = at + 2 * n;
        proof {
            lemma_pow256_values();
            lemma_head_layout(abi);
        }
        BcmMsgHeadFrameLess {
            opcode: read_uint(bytes, 0, abi.order, 4) as u32,
            flags: read_uint(bytes, 4, abi.order, 4) as u32,
            count: read_uint(bytes, 8, abi.order, 4) as u32,
            ival1: Timeval::read_from(abi, bytes, at),
            ival2: Timeval::read_from(abi, bytes, at + n),
            can_id: read_uint(bytes, ids, abi.order, 4) as u32,
            nframes: read_uint(bytes, ids + 4, abi.order, 4) as u32,
        }
    }
}

/// Appends the bytes of a buffer of frames.
fn push_frames(order: ByteOrder, frames: &[CANFrame; 256], buf: &mut Vec<u8>)
    ensures
        final(buf)@ == old(buf)@ + frames_bytes(order, frames@),
{
    let ghost start = buf@;
    assert(frames@.take(0) =~= Seq::empty());
    assert(buf@ =~= start + frames_bytes(order, frames@.take(0)));
    let mut i: usize = 0;
    while i < 256
        invariant
            i <= 256,
            buf@ == start + frames_bytes(order, frames@.take(i as int)),
        decreases 256 - i,
    {
        frames[i].push_to(order, buf);
        proof {
            let longer = frames@.take(i + 1);
            assert(longer.drop_last() =~= frames@.take(i as int));
            assert(buf@ =~= start + frames_bytes(order, longer));
        }
        i = i + 1;
    }
    assert(frames@.take(256) =~= frames@);
}

/// A buffer of frames with identifier zero and no data.
pub(crate) fn empty_frames() -> (r: [CANFrame; 256])
    ensures
        r@ == blank_frames(),
{
    let frame = CANFrame::empty();
    let frames: [CANFrame; 256] = [frame;256];
    assert(frames@ =~= blank_frames());
    frames
}

impl TxMsg {
    /// The bytes of the message.
    pub fn to_bytes(&self, abi: Abi) -> (r: Vec<u8>)
        ensures
            r@ == tx_bytes(abi, self.msg_head, self.frames@),
    {
        proof {
            lemma_head_layout(abi);
        }
        let mut buf: Vec<u8> = Vec::new();
        self.msg_head.push_to(abi, &mut buf);
        push_zeros(&mut buf, abi.head_size() - abi.frames_offset());
        push_frames(abi.order, &self.frames, &mut buf);
        assert(buf@ =~= tx_bytes(abi, self.msg_head, self.frames@));
        buf
    }
}

impl BcmMsgHead {
    /// The message without its buffer of frames.
    pub open spec fn head(self) -> BcmMsgHeadFrameLess {
        BcmMsgHeadFrameLess {
            opcode: self.opcode,
            flags: self.flags,
            count: self.count,
            ival1: self.ival1,
            ival2: self.ival2,
            can_id: self.can_id,
            nframes: self.nframes,
        }
    }

    /// The message is the one that stands in `bytes`: its head is read from the
    /// first bytes, and its frames are those whose bytes follow.
    pub open spec fn stands_in(self, abi: Abi, bytes: Seq<u8>) -> bool {
        &&& self.head() == head_in(abi, bytes)
        &&& frames_bytes(abi.order, self.frames@) == bytes.subrange(
            abi.frames_at() as int,
            abi.frames_at() + MAX_NFRAMES * FRAME_SIZE,
        )
    }

    /// The identifier that the message is about.
    pub fn can_id(&self) -> (r: u32)
        ensures
            r == self.can_id,
    {
        self.can_id
    }

    /// The frames that the message carries: as many of its buffer as it counts.
    pub fn frames(&self) -> (r: &[CANFrame])
        requires
            self.nframes <= MAX_NFRAMES,
        ensures
            r@ == self.frames@.take(self.nframes as int),
    {
        vstd::slice::slice_subrange(self.frames.as_slice(), 0, self.nframes as usize)
    }

    /// The text that shows the head of the message. Of the intervals it shows the
    /// seconds.
    pub open spec fn spec_debug_text(self) -> Seq<char> {
        "BcmMsgHead { _opcode: "@ + decimal(self.opcode as int) + ", _flags: "@ + decimal(
            self.flags as int,
        ) + " , _count: "@ + decimal(self.count as int) + ", _ival1: "@ + decimal(
            self.ival1.tv_sec as int,
        ) + ", _ival2: "@ + decimal(self.ival2.tv_sec as int) + ", _can_id: "@ + decimal(
            self.can_id as int,
        ) + ", _nframes: "@ + decimal(self.nframes as int) + "}"@
    }

    /// The text that shows the head of the message.
    pub fn debug_text(&self) -> (r: String)
        ensures
            r@ == self.spec_debug_text(),
    {
        let mut text = String::new();
        text.append("BcmMsgHead { _opcode: ");
        push_decimal(&mut text, self.opcode as i64);
        text.append(", _flags: ");
        push_decimal(&mut text, self.flags as i64);
        text.append(" , _count: ");
        push_decimal(&mut text, self.count as i64);
        text.append(", _ival1: ");
        push_decimal(&mut text, self.ival1.tv_sec);
        text.append(", _ival2: ");
        push_decimal(&mut text, self.ival2.tv_sec);
        text.append(", _can_id: ");
        push_decimal(&mut text, self.can_id as i64);
        text.append(", _nframes: ");
        push_decimal(&mut text, self.nframes as i64);
        text.append("}");
        assert(text@ =~= self.spec_debug_text());
        text
    }

    /// The bytes of the message.
    pub fn to_bytes(&self, abi: Abi) -> (r: Vec<u8>)
        ensures
            r@ == message_bytes(abi, self.head(), self.frames@),
    {
        let head = BcmMsgHeadFrameLess {
            opcode: self.opcode,
            flags: self.flags,
            count: self.count,
            ival1: self.ival1,
            ival2: self.ival2,
            can_id: self.can_id,
            nframes: self.nframes,
        };
        proof {
            lemma_head_layout(abi);
        }
        let mut buf: Vec<u8> = Vec::new();
        head.push_to(abi, &mut buf);
        push_frames(abi.order, &self.frames, &mut buf);
        push_zeros(&mut buf, abi.head_size() - abi.frames_offset());
        assert(buf@ =~= message_bytes(abi, self.head(), self.frames@));
        buf
    }

    /// The message that stands in the bytes.
    pub fn from_bytes(abi: Abi, bytes: &[u8]) -> (r: BcmMsgHead)
        requires
            bytes@.len() == abi.spec_message_size(),
        ensures
            r.stands_in(abi, bytes@),
    {
        proof {
            lemma_head_layout(abi);
        }
        let head = BcmMsgHeadFrameLess::read_from(abi, bytes);
        let start: usize = abi.frames_offset();
        let mut frames = empty_frames();
        let ghost rest = bytes@.subrange(start as int, start + 4096);
        let mut i: usize = 0;
        assert(frames@.take(0) =~= Seq::empty());
        assert(rest.take(0) =~= Seq::empty());
        while i < 256
            invariant
                i <= 256,
                start == abi.frames_at(),
                start + 4096 <= bytes.len(),
                rest == bytes@.subrange(start as int, start + 4096),
                frames_bytes(abi.order, frames@.take(i as int)) == rest.take(16 * i),
            decreases 256 - i,
        {
            let ghost before = frames@;
            let frame = CANFrame::read_from(bytes, start + FRAME_SIZE * i, abi.order);
            frames[i] = frame;
            proof {
                let longer = frames@.take(i + 1);
                assert(longer.drop_last() =~= before.take(i as int));
                assert(rest.take(16 * (i + 1)) =~= rest.take(16 * i) + bytes@.subrange(
                    start + 16 * i,
                    start + 16 * i + 16,
                ));
            }
            i = i + 1;
        }
        proof {
            assert(frames@.take(256) =~= frames@);
            assert(rest.take(4096) =~= rest);
        }
        BcmMsgHead {
            opcode: head.opcode,
            flags: head.flags,
            count: head.count,
            ival1: head.ival1,
            ival2: head.ival2,
            can_id: head.can_id,
            nframes: head.nframes,
            frames,
        }
    }
}

proof fn lemma_timeval_bytes_len(abi: Abi, t: Timeval)
    ensures
        timeval_bytes(abi, t).len() == abi.spec_timeval_size(),
        int_bytes(abi.order, abi.tv_sec, t.tv_sec).len() == abi.tv_sec.spec_size(),
        int_bytes(abi.order, abi.tv_usec, t.tv_usec).len() == abi.tv_usec.spec_size(),
{
    lemma_time_layout(abi);
    law_int_written_then_read(abi.order, abi.tv_sec, t.tv_sec);
    law_int_written_then_read(abi.order, abi.tv_usec, t.tv_usec);
}

/// A message head takes as many bytes as the layout says.
pub(crate) proof fn lemma_head_bytes_len(abi: Abi, head: BcmMsgHeadFrameLess)
    ensures
        head_bytes(abi, head).len() == abi.frames_at(),
{
    lemma_head_layout(abi);
    lemma_uint_bytes_len(abi.order, head.opcode as nat, 4);
    lemma_uint_bytes_len(abi.order, head.flags as nat, 4);
    lemma_uint_bytes_len(abi.order, head.count as nat, 4);
    lemma_uint_bytes_len(abi.order, head.can_id as nat, 4);
    lemma_uint_bytes_len(abi.order, head.nframes as nat, 4);
    lemma_timeval_bytes_len(abi, head.ival1);
    lemma_timeval_bytes_len(abi, head.ival2);
}

/// Some frames take sixteen bytes each.
pub(crate) proof fn lemma_frames_bytes_len(order: ByteOrder, frames: Seq<CANFrame>)
    ensures
        frames_bytes(order, frames).len() == 16 * frames.len(),
    decreases frames.len(),
{
    if frames.len() > 0 {
        lemma_frames_bytes_len(order, frames.drop_last());
        lemma_frame_bytes_len(frames.last(), order);
    }
}

proof fn lemma_frames_bytes_concat(order: ByteOrder, a: Seq<CANFrame>, b: Seq<CANFrame>)
    ensures
        frames_bytes(order, a + b) == frames_bytes(order, a) + frames_bytes(order, b),
    decreases b.len(),
{
    if b.len() == 0 {
        assert(a + b =~= a);
        assert(frames_bytes(order, a) + frames_bytes(order, b) =~= frames_bytes(order, a));
    } else {
        lemma_frames_bytes_concat(order, a, b.drop_last());
        assert((a + b).drop_last() =~= a + b.drop_last());
        assert(frames_bytes(order, a + b) =~= frames_bytes(order, a) + frames_bytes(order, b));
    }
}

/// The bytes of some frames determine the frames.
pub proof fn law_frames_bytes_injective(order: ByteOrder, a: Seq<CANFrame>, b: Seq<CANFrame>)
    requires
        frames_bytes(order, a) == frames_bytes(order, b),
    ensures
        a == b,
    decreases a.len(),
{
    lemma_frames_bytes_len(order, a);
    lemma_frames_bytes_len(order, b);
    if a.len() > 0 {
        let s = frames_bytes(order, a);
        let k = 16 * (a.len() - 1);
        lemma_frames_bytes_len(order, a.drop_last());
        lemma_frames_bytes_len(order, b.drop_last());
        assert(s.take(k) =~= frames_bytes(order, a.drop_last()));
        assert(s.take(k) =~= frames_bytes(order, b.drop_last()));
        assert(s.skip(k) =~= a.last().spec_bytes(order));
        assert(s.skip(k) =~= b.last().spec_bytes(order));
        law_frames_bytes_injective(order, a.drop_last(), b.drop_last());
        law_frame_bytes_injective(a.last(), b.last(), order);
        assert(a =~= a.drop_last().push(a.last()));
        assert(b =~= b.drop_last().push(b.last()));
    } else {
        assert(a =~= b);
    }
}

proof fn lemma_u32_at_field(order: ByteOrder, x: u32, bytes: Seq<u8>, at: int)
    requires
        0 <= at,
        at + 4 <= bytes.len(),
        bytes.subrange(at, at + 4) == uint_bytes(order, x as nat, 4),
    ensures
        u32_at(order, bytes, at) == x,
{
    lemma_pow256_values();
    law_uint_written_then_read(order, x as nat, 4);
}

proof fn lemma_int_at_field(order: ByteOrder, width: WordSize, v: i64, bytes: Seq<u8>, at: int)
    requires
        fits_signed(v as int, width.spec_size()),
        0 <= at,
        at + width.spec_size() <= bytes.len(),
        bytes.subrange(at, at + width.spec_size()) == int_bytes(order, width, v),
    ensures
        int_at(order, width, bytes, at) == v,
{
    let n = width.spec_size() as int;
    law_int_written_then_read(order, width, v);
    assert(int_bytes(order, width, v).subrange(0, n) =~= int_bytes(order, width, v));
}

proof fn lemma_timeval_at_field(abi: Abi, t: Timeval, bytes: Seq<u8>, at: int)
    requires
        t.wf(abi),
        0 <= at,
        at + abi.spec_timeval_size() <= bytes.len(),
        bytes.subrange(at, at + abi.spec_timeval_size()) == timeval_bytes(abi, t),
    ensures
        timeval_at(abi, bytes, at) == t,
{
    let s = timeval_bytes(abi, t);
    let m = abi.tv_sec.spec_size() as int;
    let k = abi.usec_at() as int;
    let n = abi.tv_usec.spec_size() as int;
    lemma_time_layout(abi);
    lemma_timeval_bytes_len(abi, t);
    assert(bytes.subrange(at, at + m) =~= s.subrange(0, m));
    assert(s.subrange(0, m) =~= int_bytes(abi.order, abi.tv_sec, t.tv_sec));
    lemma_int_at_field(abi.order, abi.tv_sec, t.tv_sec, bytes, at);
    assert(bytes.subrange(at + k, at + k + n) =~= s.subrange(k, k + n));
    assert(s.subrange(k, k + n) =~= int_bytes(abi.order, abi.tv_usec, t.tv_usec));
    lemma_int_at_field(abi.order, abi.tv_usec, t.tv_usec, bytes, at + k);
}

/// The fields of a message head stand in turn, each in the bytes that the layout
/// gives it.
#[verifier::spinoff_prover]
#[verifier::rlimit(40)]
proof fn lemma_head_parts(abi: Abi, head: BcmMsgHeadFrameLess, bytes: Seq<u8>)
    requires
        abi.frames_at() <= bytes.len(),
        bytes.take(abi.frames_at() as int) == head_bytes(abi, head),
    ensures
        bytes.subrange(0, 4) == uint_bytes(abi.order, head.opcode as nat, 4),
        bytes.subrange(4, 8) == uint_bytes(abi.order, head.flags as nat, 4),
        bytes.subrange(8, 12) == uint_bytes(abi.order, head.count as nat, 4),
        ({
            let at = abi.times_at() as int;
            let n = abi.spec_timeval_size() as int;
            let ids = abi.can_id_at() as int;
            &&& bytes.subrange(12, at) == zeros((at - 12) as nat)
            &&& bytes.subrange(at, at + n) == timeval_bytes(abi, head.ival1)
            &&& bytes.subrange(at + n, at + n + n) == timeval_bytes(abi, head.ival2)
            &&& bytes.subrange(ids, ids + 4) == uint_bytes(abi.order, head.can_id as nat, 4)
            &&& bytes.subrange(ids + 4, ids + 8) == uint_bytes(abi.order, head.nframes as nat, 4)
            &&& bytes.subrange(ids + 8, abi.frames_at() as int) == zeros(
                (abi.frames_at() - ids - 8) as nat,
            )
        }),
{
    let o = abi.order;
    let at = abi.times_at() as int;
    lemma_head_layout(abi);
    lemma_head_bytes_len(abi, head);
    lemma_uint_bytes_len(o, head.opcode as nat, 4);
    lemma_uint_bytes_len(o, head.flags as nat, 4);
    lemma_uint_bytes_len(o, head.count as nat, 4);
    lemma_uint_bytes_len(o, head.can_id as nat, 4);
    lemma_uint_bytes_len(o, head.nframes as nat, 4);
    lemma_timeval_bytes_len(abi, head.ival1);
    lemma_timeval_bytes_len(abi, head.ival2);
    let a = uint_bytes(o, head.opcode as nat, 4);
    let b = a + uint_bytes(o, head.flags as nat, 4);
    let c = b + uint_bytes(o, head.count as nat, 4);
    let d = c + zeros((at - 12) as nat);
    let e = d + timeval_bytes(abi, head.ival1);
    let f = e + timeval_bytes(abi, head.ival2);
    let g = f + uint_bytes(o, head.can_id as nat, 4);
    let h = g + uint_bytes(o, head.nframes as nat, 4);
    lemma_last_part(bytes, h, zeros((abi.frames_at() - abi.can_id_at() - 8) as nat));
    lemma_last_part(bytes, g, uint_bytes(o, head.nframes as nat, 4));
    lemma_last_part(bytes, f, uint_bytes(o, head.can_id as nat, 4));
    lemma_last_part(bytes, e, timeval_bytes(abi, head.ival2));
    lemma_last_part(bytes, d, timeval_bytes(abi, head.ival1));
    lemma_last_part(bytes, c, zeros((at - 12) as nat));
    lemma_last_part(bytes, b, uint_bytes(o, head.count as nat, 4));
    lemma_last_part(bytes, a, uint_bytes(o, head.flags as nat, 4));
    assert(bytes.take(4) =~= bytes.subrange(0, 4));
}

/// A message head is read back as it was written, whatever follows it.
#[verifier::spinoff_prover]
#[verifier::rlimit(40)]
pub proof fn law_head_written_then_read(abi: Abi, head: BcmMsgHeadFrameLess, rest: Seq<u8>)
    requires
        head.wf(abi),
    ensures
        head_in(abi, head_bytes(abi, head) + rest) == head,
{
    let bytes = head_bytes(abi, head) + rest;
    let o = abi.order;
    let at = abi.times_at() as int;
    let n = abi.spec_timeval_size() as int;
    let ids = abi.can_id_at() as int;
    lemma_head_layout(abi);
    lemma_head_bytes_len(abi, head);
    assert(bytes.take(abi.frames_at() as int) =~= head_bytes(abi, head));
    lemma_head_parts(abi, head, bytes);
    lemma_u32_at_field(o, head.opcode, bytes, 0);
    lemma_u32_at_field(o, head.flags, bytes, 4);
    lemma_u32_at_field(o, head.count, bytes, 8);
    lemma_timeval_at_field(abi, head.ival1, bytes, at);
    lemma_timeval_at_field(abi, head.ival2, bytes, at + n);
    lemma_u32_at_field(o, head.can_id, bytes, ids);
    lemma_u32_at_field(o, head.nframes, bytes, ids + 4);
}

/// A message is read back as it was written: the one that stands in the bytes of
/// a head and its buffer of frames has that head and those frames.
pub proof fn law_message_written_then_read(
    abi: Abi,
    head: BcmMsgHeadFrameLess,
    frames: Seq<CANFrame>,
    msg: BcmMsgHead,
)
    requires
        head.wf(abi),
        frames.len() == MAX_NFRAMES,
        msg.stands_in(abi, message_bytes(abi, head, frames)),
    ensures
        msg.head() == head,
        msg.frames@ == frames,
{
    let bytes = message_bytes(abi, head, frames);
    let body = frames_bytes(abi.order, frames);
    let k = abi.frames_at() as int;
    lemma_head_bytes_len(abi, head);
    lemma_frames_bytes_len(abi.order, frames);
    assert(bytes =~= head_bytes(abi, head) + (body + zeros(abi.fill())));
    law_head_written_then_read(abi, head, body + zeros(abi.fill()));
    assert(bytes.subrange(k, k + 4096) =~= body);
    law_frames_bytes_injective(abi.order, msg.frames@, frames);
}

/// The bytes that the layout of a time leaves unused are zero.
pub open spec fn time_gaps_clear(abi: Abi, bytes: Seq<u8>, at: int) -> bool {
    let sec_end = at + abi.tv_sec.spec_size();
    let usec_end = at + abi.usec_at() + abi.tv_usec.spec_size();
    &&& forall|i: int| sec_end <= i < at + abi.usec_at() ==> bytes[i] == 0
    &&& forall|i: int| usec_end <= i < at + abi.spec_timeval_size() ==> bytes[i] == 0
}

/// The bytes that the layout of a message leaves unused are zero.
pub open spec fn gaps_clear(abi: Abi, bytes: Seq<u8>) -> bool {
    let at = abi.times_at() as int;
    let frames_end = abi.frames_at() + MAX_NFRAMES * FRAME_SIZE;
    &&& forall|i: int| 12 <= i < at ==> bytes[i] == 0
    &&& time_gaps_clear(abi, bytes, at)
    &&& time_gaps_clear(abi, bytes, at + abi.spec_timeval_size())
    &&& forall|i: int| abi.can_id_at() + 8 <= i < abi.frames_at() ==> bytes[i] == 0
    &&& forall|i: int| frames_end <= i < abi.spec_message_size() ==> bytes[i] == 0
}

proof fn lemma_u32_field_written(order: ByteOrder, bytes: Seq<u8>, at: int)
    requires
        0 <= at,
        at + 4 <= bytes.len(),
    ensures
        uint_bytes(order, u32_at(order, bytes, at) as nat, 4) == bytes.subrange(at, at + 4),
{
    let s = bytes.subrange(at, at + 4);
    lemma_pow256_values();
    lemma_uint_value_bound(order, s);
    law_uint_read_then_written(order, s);
}

proof fn lemma_timeval_field_written(abi: Abi, bytes: Seq<u8>, at: int)
    requires
        0 <= at,
        at + abi.spec_timeval_size() <= bytes.len(),
        time_gaps_clear(abi, bytes, at),
    ensures
        timeval_bytes(abi, timeval_at(abi, bytes, at)) == bytes.subrange(
            at,
            at + abi.spec_timeval_size(),
        ),
{
    let t = timeval_at(abi, bytes, at);
    lemma_time_layout(abi);
    lemma_timeval_bytes_len(abi, t);
    law_int_read_then_written(abi.order, abi.tv_sec, bytes, at);
    law_int_read_then_written(abi.order, abi.tv_usec, bytes, at + abi.usec_at());
    assert(timeval_bytes(abi, t) =~= bytes.subrange(at, at + abi.spec_timeval_size()));
}

/// Writing the head that was read from some bytes gives those bytes, as far as the
/// layout uses them.
#[verifier::spinoff_prover]
#[verifier::rlimit(40)]
proof fn lemma_head_read_then_written(abi: Abi, bytes: Seq<u8>)
    requires
        abi.frames_at() <= bytes.len(),
        forall|i: int| 12 <= i < abi.times_at() ==> bytes[i] == 0,
        time_gaps_clear(abi, bytes, abi.times_at() as int),
        time_gaps_clear(abi, bytes, (abi.times_at() + abi.spec_timeval_size()) as int),
        forall|i: int| abi.can_id_at() + 8 <= i < abi.frames_at() ==> bytes[i] == 0,
    ensures
        head_bytes(abi, head_in(abi, bytes)) == bytes.take(abi.frames_at() as int),
{
    let o = abi.order;
    let at = abi.times_at() as int;
    let n = abi.spec_timeval_size() as int;
    let ids = abi.can_id_at() as int;
    let k = abi.frames_at() as int;
    lemma_head_layout(abi);
    lemma_u32_field_written(o, bytes, 0);
    lemma_u32_field_written(o, bytes, 4);
    lemma_u32_field_written(o, bytes, 8);
    lemma_timeval_field_written(abi, bytes, at);
    lemma_timeval_field_written(abi, bytes, at + n);
    lemma_u32_field_written(o, bytes, ids);
    lemma_u32_field_written(o, bytes, ids + 4);
    assert(bytes.take(4) =~= bytes.subrange(0, 4));
    lemma_take_extended(bytes, 4, 8);
    lemma_take_extended(bytes, 8, 12);
    assert(bytes.subrange(12, at) =~= zeros((at - 12) as nat));
    lemma_take_extended(bytes, 12, at);
    lemma_take_extended(bytes, at, at + n);
    lemma_take_extended(bytes, at + n, at + n + n);
    lemma_take_extended(bytes, ids, ids + 4);
    lemma_take_extended(bytes, ids + 4, ids + 8);
    assert(bytes.subrange(ids + 8, k) =~= zeros((k - ids - 8) as nat));
    lemma_take_extended(bytes, ids + 8, k);
}

/// Writing the message that was read from some bytes gives those bytes, as far as
/// the layout uses them.
#[verifier::spinoff_prover]
#[verifier::rlimit(40)]
pub proof fn law_message_read_then_written(abi: Abi, bytes: Seq<u8>, msg: BcmMsgHead)
    requires
        bytes.len() == abi.spec_message_size(),
        gaps_clear(abi, bytes),
        msg.stands_in(abi, bytes),
    ensures
        message_bytes(abi, msg.head(), msg.frames@) == bytes,
{
    let k = abi.frames_at() as int;
    lemma_head_layout(abi);
    lemma_head_read_then_written(abi, bytes);
    assert(bytes =~= bytes.take(k) + bytes.subrange(k, k + 4096) + zeros(abi.fill()));
}

/// At most one message stands in given bytes.
pub proof fn law_message_unique(abi: Abi, bytes: Seq<u8>, a: BcmMsgHead, b: BcmMsgHead)
    requires
        a.stands_in(abi, bytes),
        b.stands_in(abi, bytes),
    ensures
        a.head() == b.head(),
        a.frames@ == b.frames@,
{
    law_frames_bytes_injective(abi.order, a.frames@, b.frames@);
}

/// A message with its whole buffer takes as many bytes as the layout says, in
/// either form.
pub proof fn law_message_size(abi: Abi, head: BcmMsgHeadFrameLess, frames: Seq<CANFrame>)
    requires
        frames.len() == MAX_NFRAMES,
    ensures
        message_bytes(abi, head, frames).len() == abi.spec_message_size(),
        tx_bytes(abi, head, frames).len() == abi.spec_message_size(),
{
    lemma_head_layout(abi);
    lemma_head_bytes_len(abi, head);
    lemma_frames_bytes_len(abi.order, frames);
}

proof fn lemma_blank_frames_bytes(order: ByteOrder, frames: Seq<CANFrame>)
    requires
        forall|i: int| 0 <= i < frames.len() ==> frames[i] == CANFrame::blank(),
    ensures
        frames_bytes(order, frames) == zeros(16 * frames.len()),
    decreases frames.len(),
{
    lemma_frames_bytes_len(order, frames);
    if frames.len() > 0 {
        lemma_blank_frames_bytes(order, frames.drop_last());
        reveal_with_fuel(le_bytes, 5);
        assert(le_bytes(0, 4) =~= zeros(4));
        assert(uint_bytes(order, 0, 4) =~= zeros(4));
        assert(CANFrame::blank().spec_bytes(order) =~= zeros(16));
    }
    assert(frames_bytes(order, frames) =~= zeros(16 * frames.len()));
}

/// Where all frames are blank, both forms of a message have the same bytes.
pub proof fn law_blank_message_forms_agree(abi: Abi, head: BcmMsgHeadFrameLess)
    ensures
        tx_bytes(abi, head, blank_frames()) == message_bytes(abi, head, blank_frames()),
{
    lemma_head_layout(abi);
    lemma_blank_frames_bytes(abi.order, blank_frames());
    assert(tx_bytes(abi, head, blank_frames()) =~= message_bytes(abi, head, blank_frames()));
}

/// A message that carries fewer frames than a buffer holds, put over the bytes of
/// a blank message, reads as that message: its head, its frames, and blank frames
/// after them.
#[verifier::spinoff_prover]
#[verifier::rlimit(40)]
pub proof fn law_short_message_read(
    abi: Abi,
    head: BcmMsgHeadFrameLess,
    frames: Seq<CANFrame>,
    msg: BcmMsgHead,
)
    requires
        head.wf(abi),
        frames.len() <= MAX_NFRAMES,
        ({
            let sent = head_bytes(abi, head) + frames_bytes(abi.order, frames);
            let blank = message_bytes(abi, BcmMsgHeadFrameLess::spec_zero(), blank_frames());
            msg.stands_in(abi, sent + blank.skip(sent.len() as int))
        }),
    ensures
        msg.head() == head,
        msg.frames@ == frames + blank_frames().skip(frames.len() as int),
{
    let o = abi.order;
    let zero = BcmMsgHeadFrameLess::spec_zero();
    let k = frames.len() as int;
    let sent = head_bytes(abi, head) + frames_bytes(o, frames);
    let blank = message_bytes(abi, zero, blank_frames());
    let rest = blank_frames().skip(k);
    lemma_head_bytes_len(abi, head);
    lemma_head_bytes_len(abi, zero);
    lemma_frames_bytes_len(o, frames);
    lemma_frames_bytes_len(o, blank_frames());
    lemma_frames_bytes_len(o, blank_frames().take(k));
    lemma_frames_bytes_concat(o, blank_frames().take(k), rest);
    assert(blank_frames().take(k) + rest =~= blank_frames());
    assert(blank.skip(sent.len() as int) =~= frames_bytes(o, rest) + zeros(abi.fill()));
    lemma_frames_bytes_concat(o, frames, rest);
    assert(sent + blank.skip(sent.len() as int) =~= message_bytes(abi, head, frames + rest));
    law_message_written_then_read(abi, head, frames + rest, msg);
}

/// The parts of a message stand where C puts them. The intervals come at twelve, or
/// at sixteen where they are aligned to eight bytes; the identifier and the number of
/// frames follow them; and the frames come next, after four more bytes where pointers
/// have 32 bits. A head on its own takes a multiple of its alignment, and 256 frames
/// of sixteen bytes each belong to a message.
pub proof fn law_message_layout(abi: Abi)
    ensures
        ({
            let wide = abi.max_align is Eight && (abi.tv_sec is Bits64 || abi.tv_usec is Bits64);
            let gap: int = if abi.pointer is Bits32 {
                4
            } else {
                0
            };
            let ids: int = if wide {
                48
            } else if abi.tv_sec is Bits64 && abi.tv_usec is Bits64 {
                44
            } else if abi.tv_sec is Bits64 || abi.tv_usec is Bits64 {
                36
            } else {
                28
            };
            let size: int = if wide {
                56 + 2 * gap
            } else {
                ids + 8 + gap
            };
            &&& abi.times_at() == (if wide {
                16int
            } else {
                12
            })
            &&& abi.can_id_at() == ids
            &&& abi.frames_at() == ids + 8 + gap
            &&& abi.spec_head_size() == size
            &&& abi.fill() == size - ids - 8 - gap
            &&& abi.spec_message_size() == size + 4096
        }),
{
    law_time_layout(abi);
    assert(12nat % 2 == 0 && 12nat % 4 == 0 && 12nat % 8 == 4 && 28nat % 2 == 0 && 28nat % 4 == 0);
    assert(36nat % 2 == 0 && 36nat % 4 == 0 && 40nat % 2 == 0 && 40nat % 4 == 0 && 44nat % 2 == 0
        && 44nat % 4 == 0);
    assert(48nat % 2 == 0 && 48nat % 4 == 0 && 52nat % 2 == 0 && 52nat % 4 == 0 && 56nat % 2 == 0
        && 56nat % 4 == 0 && 56nat % 8 == 0 && 60nat % 8 == 4);
}

/// A time fits a target where each of its fields is in the range of the integers that
/// the target has for it; a head fits where both of its intervals do.
pub proof fn law_times_fit(abi: Abi, t: Timeval, head: BcmMsgHeadFrameLess)
    ensures
        t.wf(abi) <==> (abi.tv_sec is Bits32 ==> -0x8000_0000 <= t.tv_sec < 0x8000_0000) && (
        abi.tv_usec is Bits32 ==> -0x8000_0000 <= t.tv_usec < 0x8000_0000),
        head.wf(abi) <==> head.ival1.wf(abi) && head.ival2.wf(abi),
{
    law_twos_complement(t.tv_sec as int, 0);
    law_twos_complement(t.tv_usec as int, 0);
}

/// Where the bytes of a time stand, the seconds stand at their start and the
/// microseconds at their offset, each in its own width, and the rest is zero.
#[verifier::spinoff_prover]
#[verifier::rlimit(40)]
proof fn lemma_timeval_parts(abi: Abi, t: Timeval, bytes: Seq<u8>, at: int)
    requires
        0 <= at,
        at + abi.spec_timeval_size() <= bytes.len(),
        bytes.subrange(at, at + abi.spec_timeval_size()) == timeval_bytes(abi, t),
    ensures
        ({
            let m = abi.tv_sec.spec_size();
            let n = abi.tv_usec.spec_size();
            let k = at + abi.usec_at();
            &&& uint_value(abi.order, bytes.subrange(at, at + m)) == wrapped(t.tv_sec as int, m)
            &&& uint_value(abi.order, bytes.subrange(k, k + n)) == wrapped(t.tv_usec as int, n)
            &&& time_gaps_clear(abi, bytes, at)
        }),
{
    let s = timeval_bytes(abi, t);
    let m = abi.tv_sec.spec_size() as int;
    let k = abi.usec_at() as int;
    let n = abi.tv_usec.spec_size() as int;
    lemma_time_layout(abi);
    lemma_timeval_bytes_len(abi, t);
    assert(bytes.subrange(at, at + m) =~= int_bytes(abi.order, abi.tv_sec, t.tv_sec)) by {
        assert(bytes.subrange(at, at + m) =~= s.subrange(0, m));
    }
    assert(bytes.subrange(at + k, at + k + n) =~= int_bytes(abi.order, abi.tv_usec, t.tv_usec)) by {
        assert(bytes.subrange(at + k, at + k + n) =~= s.subrange(k, k + n));
    }
    law_int_bytes(abi.order, abi.tv_sec, t.tv_sec);
    law_int_bytes(abi.order, abi.tv_usec, t.tv_usec);
    law_twos_complement(t.tv_sec as int, 0);
    law_twos_complement(t.tv_usec as int, 0);
    assert forall|i: int| at + m <= i < at + k implies bytes[i] == 0 by {
        assert(bytes[i] == s[i - at]);
    }
    assert forall|i: int| at + k + n <= i < at + abi.spec_timeval_size() implies bytes[i] == 0 by {
        assert(bytes[i] == s[i - at]);
    }
}

/// A time is written with its seconds at the start and its microseconds at their
/// offset, as integers of their own widths, and with zeros between and behind. This
/// holds of every value, zero included.
pub proof fn law_timeval_written(abi: Abi, t: Timeval)
    ensures
        ({
            let s = timeval_bytes(abi, t);
            let m = abi.tv_sec.spec_size();
            let n = abi.tv_usec.spec_size();
            let k = abi.usec_at() as int;
            &&& s.len() == abi.spec_timeval_size()
            &&& uint_value(abi.order, s.subrange(0, m as int)) == wrapped(t.tv_sec as int, m)
            &&& uint_value(abi.order, s.subrange(k, k + n)) == wrapped(t.tv_usec as int, n)
            &&& abi.tv_sec is Bits64 || -0x8000_0000 <= t.tv_sec < 0x8000_0000 ==> signed(
                uint_value(abi.order, s.subrange(0, m as int)),
                m,
            ) == t.tv_sec
            &&& abi.tv_usec is Bits64 || -0x8000_0000 <= t.tv_usec < 0x8000_0000 ==> signed(
                uint_value(abi.order, s.subrange(k, k + n)),
                n,
            ) == t.tv_usec
            &&& forall|i: int| m <= i < k ==> s[i] == 0
            &&& forall|i: int| k + n <= i < s.len() ==> s[i] == 0
        }),
{
    let s = timeval_bytes(abi, t);
    lemma_time_layout(abi);
    lemma_timeval_bytes_len(abi, t);
    assert(s.subrange(0, s.len() as int) =~= s);
    lemma_timeval_parts(abi, t, s, 0);
    law_twos_complement(t.tv_sec as int, wrapped(t.tv_sec as int, abi.tv_sec.spec_size()));
    law_twos_complement(t.tv_usec as int, wrapped(t.tv_usec as int, abi.tv_usec.spec_size()));
}

/// A time is read with its seconds from the start and its microseconds from their
/// offset, as signed integers of their own widths. This holds of every value, zero
/// included.
pub proof fn law_timeval_read(abi: Abi, bytes: Seq<u8>, at: int)
    requires
        0 <= at,
        at + abi.spec_timeval_size() <= bytes.len(),
    ensures
        ({
            let m = abi.tv_sec.spec_size();
            let n = abi.tv_usec.spec_size();
            let k = at + abi.usec_at();
            &&& timeval_at(abi, bytes, at).tv_sec == signed(
                uint_value(abi.order, bytes.subrange(at, at + m)),
                m,
            )
            &&& timeval_at(abi, bytes, at).tv_usec == signed(
                uint_value(abi.order, bytes.subrange(k, k + n)),
                n,
            )
        }),
{
    let m = abi.tv_sec.spec_size();
    let n = abi.tv_usec.spec_size();
    let k = at + abi.usec_at();
    lemma_time_layout(abi);
    lemma_pow256_values();
    lemma_uint_value_bound(abi.order, bytes.subrange(at, at + m));
    lemma_uint_value_bound(abi.order, bytes.subrange(k, k + n));
}

proof fn lemma_message_starts_with_head(
    abi: Abi,
    head: BcmMsgHeadFrameLess,
    frames: Seq<CANFrame>,
    bytes: Seq<u8>,
)
    requires
        bytes == message_bytes(abi, head, frames) || bytes == tx_bytes(abi, head, frames),
    ensures
        abi.frames_at() <= bytes.len(),
        bytes.take(abi.frames_at() as int) == head_bytes(abi, head),
{
    lemma_head_layout(abi);
    lemma_head_bytes_len(abi, head);
    lemma_frames_bytes_len(abi.order, frames);
    assert(bytes.take(abi.frames_at() as int) =~= head_bytes(abi, head));
}

/// In the bytes of a message, in either form, each field of its head stands in its
/// own place: the opcode, the flags and the count in the first three words, then the
/// intervals, then the identifier and the number of frames. What lies between is zero.
#[verifier::spinoff_prover]
#[verifier::rlimit(40)]
pub proof fn law_message_fields(
    abi: Abi,
    head: BcmMsgHeadFrameLess,
    frames: Seq<CANFrame>,
    bytes: Seq<u8>,
)
    requires
        bytes == message_bytes(abi, head, frames) || bytes == tx_bytes(abi, head, frames),
    ensures
        bytes.subrange(0, 4) == uint_bytes(abi.order, head.opcode as nat, 4),
        bytes.subrange(4, 8) == uint_bytes(abi.order, head.flags as nat, 4),
        bytes.subrange(8, 12) == uint_bytes(abi.order, head.count as nat, 4),
        uint_value(abi.order, bytes.subrange(0, 4)) == head.opcode,
        uint_value(abi.order, bytes.subrange(4, 8)) == head.flags,
        uint_value(abi.order, bytes.subrange(8, 12)) == head.count,
        ({
            let m = abi.tv_sec.spec_size();
            let n = abi.tv_usec.spec_size();
            let a = abi.times_at() as int;
            let b = a + abi.spec_timeval_size();
            let k = abi.usec_at() as int;
            let ids = abi.can_id_at() as int;
            &&& forall|i: int| 12 <= i < a ==> bytes[i] == 0
            &&& uint_value(abi.order, bytes.subrange(a, a + m)) == wrapped(
                head.ival1.tv_sec as int,
                m,
            )
            &&& uint_value(abi.order, bytes.subrange(a + k, a + k + n)) == wrapped(
                head.ival1.tv_usec as int,
                n,
            )
            &&& uint_value(abi.order, bytes.subrange(b, b + m)) == wrapped(
                head.ival2.tv_sec as int,
                m,
            )
            &&& uint_value(abi.order, bytes.subrange(b + k, b + k + n)) == wrapped(
                head.ival2.tv_usec as int,
                n,
            )
            &&& uint_value(abi.order, bytes.subrange(ids, ids + 4)) == head.can_id
            &&& uint_value(abi.order, bytes.subrange(ids + 4, ids + 8)) == head.nframes
            &&& forall|i: int| ids + 8 <= i < abi.frames_at() ==> bytes[i] == 0
        }),
{
    let o = abi.order;
    let at = abi.times_at() as int;
    let n = abi.spec_timeval_size() as int;
    let ids = abi.can_id_at() as int;
    let end = abi.frames_at() as int;
    lemma_head_layout(abi);
    lemma_pow256_values();
    lemma_message_starts_with_head(abi, head, frames, bytes);
    lemma_head_parts(abi, head, bytes);
    law_uint_written_then_read(o, head.opcode as nat, 4);
    law_uint_written_then_read(o, head.flags as nat, 4);
    law_uint_written_then_read(o, head.count as nat, 4);
    law_uint_written_then_read(o, head.can_id as nat, 4);
    law_uint_written_then_read(o, head.nframes as nat, 4);
    lemma_timeval_parts(abi, head.ival1, bytes, at);
    lemma_timeval_parts(abi, head.ival2, bytes, at + n);
    assert forall|i: int| 12 <= i < at implies bytes[i] == 0 by {
        assert(bytes[i] == bytes.subrange(12, at)[i - 12]);
    }
    assert forall|i: int| ids + 8 <= i < end implies bytes[i] == 0 by {
        assert(bytes[i] == bytes.subrange(ids + 8, end)[i - ids - 8]);
    }
}

/// The frames of a message stand one after the other, sixteen bytes each: behind the
/// head in a `BcmMsgHead`, and behind the head and what fills it up in a `TxMsg`.
/// What is left is zero.
#[verifier::spinoff_prover]
#[verifier::rlimit(40)]
pub proof fn law_message_frames(
    abi: Abi,
    head: BcmMsgHeadFrameLess,
    frames: Seq<CANFrame>,
    i: int,
)
    requires
        0 <= i < frames.len(),
    ensures
        frames_bytes(abi.order, frames).len() == 16 * frames.len(),
        frames_bytes(abi.order, frames).subrange(16 * i, 16 * i + 16) == frames[i].spec_bytes(
            abi.order,
        ),
        message_bytes(abi, head, frames).subrange(
            abi.frames_at() + 16 * i,
            abi.frames_at() + 16 * i + 16,
        ) == frames[i].spec_bytes(abi.order),
        tx_bytes(abi, head, frames).subrange(
            abi.spec_head_size() + 16 * i,
            abi.spec_head_size() + 16 * i + 16,
        ) == frames[i].spec_bytes(abi.order),
        message_bytes(abi, head, frames).len() == abi.spec_head_size() + 16 * frames.len(),
        tx_bytes(abi, head, frames).len() == abi.spec_head_size() + 16 * frames.len(),
        forall|j: int|
            abi.frames_at() + 16 * frames.len() <= j < abi.spec_head_size() + 16 * frames.len()
                ==> message_bytes(abi, head, frames)[j] == 0,
        forall|j: int|
            abi.frames_at() <= j < abi.spec_head_size() ==> tx_bytes(abi, head, frames)[j] == 0,
{
    let o = abi.order;
    let body = frames_bytes(o, frames);
    let k = abi.frames_at() as int;
    let n = abi.spec_head_size() as int;
    lemma_head_layout(abi);
    lemma_head_bytes_len(abi, head);
    lemma_frames_bytes_len(o, frames);
    lemma_frame_in_frames(o, frames, i);
    assert(message_bytes(abi, head, frames).subrange(k + 16 * i, k + 16 * i + 16)
        =~= body.subrange(16 * i, 16 * i + 16));
    assert(tx_bytes(abi, head, frames).subrange(n + 16 * i, n + 16 * i + 16) =~= body.subrange(
        16 * i,
        16 * i + 16,
    ));
}

proof fn lemma_frame_in_frames(order: ByteOrder, frames: Seq<CANFrame>, i: int)
    requires
        0 <= i < frames.len(),
    ensures
        frames_bytes(order, frames).len() == 16 * frames.len(),
        frames_bytes(order, frames).subrange(16 * i, 16 * i + 16) == frames[i].spec_bytes(order),
    decreases frames.len(),
{
    let s = frames_bytes(order, frames);
    let shorter = frames.drop_last();
    lemma_frames_bytes_len(order, frames);
    lemma_frames_bytes_len(order, shorter);
    lemma_frame_bytes_len(frames.last(), order);
    if i < shorter.len() {
        lemma_frame_in_frames(order, shorter, i);
        assert(s.subrange(16 * i, 16 * i + 16) =~= frames_bytes(order, shorter).subrange(
            16 * i,
            16 * i + 16,
        ));
    } else {
        assert(s.subrange(16 * i, 16 * i + 16) =~= frames.last().spec_bytes(order));
    }
}

/// A message that stands in some bytes has the head that they hold: each field is the
/// integer in its own place.
#[verifier::spinoff_prover]
#[verifier::rlimit(40)]
pub proof fn law_message_head_read(abi: Abi, bytes: Seq<u8>, msg: BcmMsgHead)
    requires
        bytes.len() == abi.spec_message_size(),
        msg.stands_in(abi, bytes),
    ensures
        msg.opcode == uint_value(abi.order, bytes.subrange(0, 4)),
        msg.flags == uint_value(abi.order, bytes.subrange(4, 8)),
        msg.count == uint_value(abi.order, bytes.subrange(8, 12)),
        ({
            let m = abi.tv_sec.spec_size();
            let n = abi.tv_usec.spec_size();
            let a = abi.times_at() as int;
            let b = a + abi.spec_timeval_size();
            let k = abi.usec_at() as int;
            let ids = abi.can_id_at() as int;
            &&& msg.ival1.tv_sec == signed(uint_value(abi.order, bytes.subrange(a, a + m)), m)
            &&& msg.ival1.tv_usec == signed(
                uint_value(abi.order, bytes.subrange(a + k, a + k + n)),
                n,
            )
            &&& msg.ival2.tv_sec == signed(uint_value(abi.order, bytes.subrange(b, b + m)), m)
            &&& msg.ival2.tv_usec == signed(
                uint_value(abi.order, bytes.subrange(b + k, b + k + n)),
                n,
            )
            &&& msg.can_id == uint_value(abi.order, bytes.subrange(ids, ids + 4))
            &&& msg.nframes == uint_value(abi.order, bytes.subrange(ids + 4, ids + 8))
        }),
{
    let at = abi.times_at() as int;
    let ids = abi.can_id_at() as int;
    lemma_head_layout(abi);
    lemma_pow256_values();
    assert(msg.head() == head_in(abi, bytes));
    lemma_uint_value_bound(abi.order, bytes.subrange(0, 4));
    lemma_uint_value_bound(abi.order, bytes.subrange(4, 8));
    lemma_uint_value_bound(abi.order, bytes.subrange(8, 12));
    lemma_uint_value_bound(abi.order, bytes.subrange(ids, ids + 4));
    lemma_uint_value_bound(abi.order, bytes.subrange(ids + 4, ids + 8));
    law_timeval_read(abi, bytes, at);
    law_timeval_read(abi, bytes, at + abi.spec_timeval_size());
}

/// A message that stands in some bytes has the frames that they hold: each byte of
/// each frame is the one in its own place.
#[verifier::spinoff_prover]
#[verifier::rlimit(40)]
pub proof fn law_message_frames_read(abi: Abi, bytes: Seq<u8>, msg: BcmMsgHead, i: int)
    requires
        bytes.len() == abi.spec_message_size(),
        msg.stands_in(abi, bytes),
        0 <= i < 256,
    ensures
        ({
            let frame = msg.frames@[i];
            let at = abi.frames_at() + 16 * i;
            &&& frame.id == uint_value(abi.order, bytes.subrange(at, at + 4))
            &&& frame.data_len == bytes[at + 4]
            &&& frame.pad == bytes[at + 5]
            &&& frame.res0 == bytes[at + 6]
            &&& frame.res1 == bytes[at + 7]
            &&& forall|j: int| 0 <= j < 8 ==> #[trigger] frame.data@[j] == bytes[at + 8 + j]
        }),
{
    let frame = msg.frames@[i];
    let k = abi.frames_at() as int;
    let at = k + 16 * i;
    let s = frame.spec_bytes(abi.order);
    lemma_head_layout(abi);
    lemma_frame_in_frames(abi.order, msg.frames@, i);
    law_frame_bytes(frame, abi.order);
    assert(s =~= bytes.subrange(at, at + 16)) by {
        assert(bytes.subrange(at, at + 16) =~= bytes.subrange(k, k + 4096).subrange(
            16 * i,
            16 * i + 16,
        ));
    }
    assert(bytes.subrange(at, at + 4) =~= s.subrange(0, 4));
    assert forall|j: int| 0 <= j < 8 implies #[trigger] frame.data@[j] == bytes[at + 8 + j] by {
        assert(s[8 + j] == bytes[at + 8 + j]);
    }
}

/// The head of a message has the message's own fields; the head of zeros has none but
/// zeros; and there are 256 blank frames.
pub proof fn law_heads_and_blanks(msg: BcmMsgHead)
    ensures
        msg.head().opcode == msg.opcode,
        msg.head().flags == msg.flags,
        msg.head().count == msg.count,
        msg.head().ival1 == msg.ival1,
        msg.head().ival2 == msg.ival2,
        msg.head().can_id == msg.can_id,
        msg.head().nframes == msg.nframes,
        BcmMsgHeadFrameLess::spec_zero().opcode == 0,
        BcmMsgHeadFrameLess::spec_zero().flags == 0,
        BcmMsgHeadFrameLess::spec_zero().count == 0,
        BcmMsgHeadFrameLess::spec_zero().ival1.tv_sec == 0,
        BcmMsgHeadFrameLess::spec_zero().ival1.tv_usec == 0,
        BcmMsgHeadFrameLess::spec_zero().ival2.tv_sec == 0,
        BcmMsgHeadFrameLess::spec_zero().ival2.tv_usec == 0,
        BcmMsgHeadFrameLess::spec_zero().can_id == 0,
        BcmMsgHeadFrameLess::spec_zero().nframes == 0,
        blank_frames().len() == 256,
        forall|i: int| 0 <= i < 256 ==> #[trigger] blank_frames()[i] == CANFrame::blank(),
{
}

proof fn lemma_zero_word(order: ByteOrder)
    ensures
        uint_bytes(order, 0, 4) == zeros(4),
        uint_bytes(order, 0, 8) == zeros(8),
{
    law_uint_bytes_4(order, 0);
    law_uint_bytes_8(order, 0);
    assert(uint_bytes(order, 0, 4) =~= zeros(4));
    assert(uint_bytes(order, 0, 8) =~= zeros(8));
}

/// Where a message carries no frames and its buffer is blank, every byte behind the
/// identifier is zero.
#[verifier::spinoff_prover]
#[verifier::rlimit(40)]
pub proof fn law_blank_message_tail(abi: Abi, head: BcmMsgHeadFrameLess, bytes: Seq<u8>)
    requires
        head.nframes == 0,
        bytes == message_bytes(abi, head, blank_frames()) || bytes == tx_bytes(
            abi,
            head,
            blank_frames(),
        ),
    ensures
        bytes.len() == abi.spec_head_size() + 4096,
        forall|i: int| abi.can_id_at() + 4 <= i < bytes.len() ==> bytes[i] == 0,
{
    let o = abi.order;
    let ids = abi.can_id_at() as int;
    let end = abi.frames_at() as int;
    lemma_head_layout(abi);
    lemma_head_bytes_len(abi, head);
    lemma_frames_bytes_len(o, blank_frames());
    lemma_message_starts_with_head(abi, head, blank_frames(), bytes);
    lemma_head_parts(abi, head, bytes);
    lemma_zero_word(o);
    lemma_blank_frames_bytes(o, blank_frames());
    assert forall|i: int| ids + 4 <= i < bytes.len() implies bytes[i] == 0 by {
        if i < ids + 8 {
            assert(bytes[i] == bytes.subrange(ids + 4, ids + 8)[i - ids - 4]);
        } else if i < end {
            assert(bytes[i] == bytes.subrange(ids + 8, end)[i - ids - 8]);
        }
    }
}

proof fn lemma_zero_time(abi: Abi, t: Timeval)
    requires
        t.tv_sec == 0,
        t.tv_usec == 0,
    ensures
        timeval_bytes(abi, t) == zeros(abi.spec_timeval_size()),
{
    lemma_time_layout(abi);
    lemma_zero_word(abi.order);
    law_twos_complement(0, 0);
    lemma_timeval_bytes_len(abi, t);
    assert(timeval_bytes(abi, t) =~= zeros(abi.spec_timeval_size()));
}

/// Where flags, count and both intervals of a message are zero, every byte between the
/// opcode and the identifier is zero.
#[verifier::spinoff_prover]
#[verifier::rlimit(40)]
pub proof fn law_plain_message_middle(
    abi: Abi,
    head: BcmMsgHeadFrameLess,
    frames: Seq<CANFrame>,
    bytes: Seq<u8>,
)
    requires
        head.flags == 0,
        head.count == 0,
        head.ival1.tv_sec == 0 && head.ival1.tv_usec == 0,
        head.ival2.tv_sec == 0 && head.ival2.tv_usec == 0,
        bytes == message_bytes(abi, head, frames) || bytes == tx_bytes(abi, head, frames),
    ensures
        forall|i: int| 4 <= i < abi.can_id_at() ==> bytes[i] == 0,
{
    let at = abi.times_at() as int;
    let n = abi.spec_timeval_size() as int;
    lemma_head_layout(abi);
    lemma_time_layout(abi);
    lemma_message_starts_with_head(abi, head, frames, bytes);
    lemma_head_parts(abi, head, bytes);
    lemma_zero_word(abi.order);
    lemma_zero_time(abi, head.ival1);
    lemma_zero_time(abi, head.ival2);
    assert forall|i: int| 4 <= i < abi.can_id_at() implies bytes[i] == 0 by {
        if i < 8 {
            assert(bytes[i] == bytes.subrange(4, 8)[i - 4]);
        } else if i < 12 {
            assert(bytes[i] == bytes.subrange(8, 12)[i - 8]);
        } else if i < at {
            assert(bytes[i] == bytes.subrange(12, at)[i - 12]);
        } else if i < at + n {
            assert(bytes[i] == bytes.subrange(at, at + n)[i - at]);
        } else {
            assert(bytes[i] == bytes.subrange(at + n, at + n + n)[i - at - n]);
        }
    }
}

/// The text of a message shows opcode, flags, count, the seconds of the two intervals,
/// identifier and number of frames, in this order and under these names.
pub proof fn law_debug_text(msg: BcmMsgHead)
    ensures
        msg.spec_debug_text() == "BcmMsgHead { _opcode: "@ + decimal(msg.opcode as int)
            + ", _flags: "@ + decimal(msg.flags as int) + " , _count: "@ + decimal(msg.count as int)
            + ", _ival1: "@ + decimal(msg.ival1.tv_sec as int) + ", _ival2: "@ + decimal(
            msg.ival2.tv_sec as int,
        ) + ", _can_id: "@ + decimal(msg.can_id as int) + ", _nframes: "@ + decimal(
            msg.nframes as int,
        ) + "}"@,
{
}

} // verus!
