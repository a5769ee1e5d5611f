//! The socket: what is asked of the kernel, and what is made of its answers.

use crate::abi::{Abi, WordSize};
use crate::address::{law_address_bytes, law_address_fields, CANAddr};
use crate::byte_order::{
    law_uint_bytes_4, law_uint_read_then_written, law_wrapped_signed, lemma_pow256_values,
    lemma_wrapped_values, uint_value, wrapped, ByteOrder,
};
use crate::constants::{
    CAN_BCM, PF_CAN, RX_DELETE, RX_FILTER_ID, RX_SETUP, SETTIMER, SOCK_DGRAM,
};
use crate::error::{wrong_write_message, wrong_write_text, Error, ErrorKind};
use crate::id::{law_can_id_injective, Id};
use crate::message::{
    blank_frames, empty_frames, law_blank_message_forms_agree, law_blank_message_tail,
    law_message_fields, law_message_layout, law_message_size, law_message_written_then_read,
    law_plain_message_middle, message_bytes, tx_bytes, BcmMsgHead, BcmMsgHeadFrameLess, TxMsg,
};
use crate::stream::{BcmFrameStream, BcmStream};
use crate::timeval::{c_timeval_new, spec_timeval, Interval, Timeval};
use vstd::prelude::*;

verus! {

/// A socket for a CAN device, specifically for broadcast manager operations.
#[derive(Debug)]
pub struct BCMSocket {
    /// the file descriptor
    pub fd: i32,
    /// the layout of the messages that go over the socket
    pub abi: Abi,
}

/// Why an interface was not found by its name.
#[derive(Clone, Copy, PartialEq, Eq, Structural, Debug)]
pub enum LookupError {
    /// the lookup failed with the error number `errno`
    Sys { errno: i32 },
    InvalidPath,
    InvalidUtf8,
    UnsupportedOperation,
}

/// The call that the opening of a socket waits for.
#[derive(Clone, Copy, PartialEq, Eq, Structural, Debug)]
pub enum OpenStage {
    Creating,
    SettingNonBlocking { fd: i32 },
    Connecting { fd: i32 },
}

/// A socket that is being opened for the interface with the number `if_index`.
#[derive(Clone, Copy, PartialEq, Eq, Structural, Debug)]
pub struct Opening {
    pub if_index: u32,
    pub abi: Abi,
    pub stage: OpenStage,
}

/// A system call that the opening of a socket makes.
pub enum OpenCall {
    /// `socket(domain, kind, protocol)`
    Socket { domain: i32, kind: i32, protocol: i32 },
    /// `fcntl(fd, F_SETFL, O_NONBLOCK)`
    SetNonBlocking { fd: i32 },
    /// `connect` of `fd` to the address with the given bytes
    Connect { fd: i32, address: Vec<u8> },
}

/// How the opening of a socket goes on.
pub enum OpenStep {
    /// with another call
    Call(Opening),
    /// it is done
    Opened(BCMSocket),
    /// it failed
    Failed(Error),
}

/// A write of `bytes` to `fd`.
pub struct WriteCall {
    pub fd: i32,
    pub bytes: Vec<u8>,
}

/// A read from `fd` into `buffer`, over the bytes that stand there.
pub struct ReadCall {
    pub fd: i32,
    pub buffer: Vec<u8>,
}

/// A subscription to frames whose request is to be written.
pub struct FrameSubscription {
    pub socket: BCMSocket,
    pub call: WriteCall,
}

/// A subscription to messages whose request is to be written.
pub struct MessageSubscription {
    pub socket: BCMSocket,
    pub call: WriteCall,
}

impl Opening {
    /// How the opening goes on after its call returned `rv`. A call that fails
    /// ends it with the call's error number.
    pub open spec fn spec_returned(self, rv: i32, errno: i32) -> OpenStep {
        match self.stage {
            OpenStage::Creating => if rv == -1 {
                OpenStep::Failed(Error::Os { errno })
            } else {
                OpenStep::Call(
                    Opening { stage: OpenStage::SettingNonBlocking { fd: rv }, ..self },
                )
            },
            OpenStage::SettingNonBlocking { fd } => if rv == -1 {
                OpenStep::Failed(Error::Os { errno })
            } else {
                OpenStep::Call(Opening { stage: OpenStage::Connecting { fd }, ..self })
            },
            OpenStage::Connecting { fd } => if rv != 0 {
                OpenStep::Failed(Error::Os { errno })
            } else {
                OpenStep::Opened(BCMSocket { fd, abi: self.abi })
            },
        }
    }

    /// The call to make next.
    pub fn call(&self) -> (r: OpenCall)
        ensures
            match self.stage {
                OpenStage::Creating => r matches OpenCall::Socket { domain, kind, protocol }
                    && domain == PF_CAN && kind == SOCK_DGRAM && protocol == CAN_BCM,
                OpenStage::SettingNonBlocking { fd } => r == OpenCall::SetNonBlocking { fd },
                OpenStage::Connecting { fd } => r matches OpenCall::Connect { fd: to, address }
                    && to == fd && address@ == CANAddr::spec_of_interface(
                    self.if_index,
                ).spec_bytes(self.abi),
            },
    {
        match self.stage {
            OpenStage::Creating => OpenCall::Socket {
                domain: PF_CAN,
                kind: SOCK_DGRAM,
                protocol: CAN_BCM,
            },
            OpenStage::SettingNonBlocking { fd } => OpenCall::SetNonBlocking { fd },
            OpenStage::Connecting { fd } => {
                let addr = CANAddr::of_interface(self.if_index);
                OpenCall::Connect { fd, address: addr.to_bytes(self.abi) }
            },
        }
    }

    /// Goes on after the call returned `rv` and left the error number `errno`.
    pub fn returned(self, rv: i32, errno: i32) -> (r: OpenStep)
        ensures
            r == self.spec_returned(rv, errno),
            r matches OpenStep::Call(next) ==> next.if_index == self.if_index && next.abi
                == self.abi,
    {
        match self.stage {
            OpenStage::Creating => {
                if rv == -1 {
                    return OpenStep::Failed(Error::Os { errno });
                }
                OpenStep::Call(
                    Opening {
                        if_index: self.if_index,
                        abi: self.abi,
                        stage: OpenStage::SettingNonBlocking { fd: rv },
                    },
                )
            },
            OpenStage::SettingNonBlocking { fd } => {
                if rv == -1 {
                    return OpenStep::Failed(Error::Os { errno });
                }
                OpenStep::Call(
                    Opening {
                        if_index: self.if_index,
                        abi: self.abi,
                        stage: OpenStage::Connecting { fd },
                    },
                )
            },
            OpenStage::Connecting { fd } => {
                if rv != 0 {
                    return OpenStep::Failed(Error::Os { errno });
                }
                OpenStep::Opened(BCMSocket { fd, abi: self.abi })
            },
        }
    }
}

/// The head of a request for a content filter subscription: it sets both timers,
/// filters by the identifier alone and carries no frames.
pub open spec fn filter_head(
    abi: Abi,
    can_id: Id,
    ival1: Interval,
    ival2: Interval,
) -> BcmMsgHeadFrameLess {
    BcmMsgHeadFrameLess {
        opcode: RX_SETUP,
        flags: SETTIMER | RX_FILTER_ID,
        count: 0,
        ival1: spec_timeval(abi.tv_sec, ival1),
        ival2: spec_timeval(abi.tv_sec, ival2),
        can_id: can_id.spec_can_id(),
        nframes: 0,
    }
}

/// The head of a request to remove a content filter subscription.
pub open spec fn delete_head(can_id: Id) -> BcmMsgHeadFrameLess {
    BcmMsgHeadFrameLess {
        opcode: RX_DELETE,
        can_id: can_id.spec_can_id(),
        ..BcmMsgHeadFrameLess::spec_zero()
    }
}

impl BCMSocket {
    /// The write of a request for a content filter subscription.
    pub open spec fn filters(
        self,
        call: WriteCall,
        can_id: Id,
        ival1: Interval,
        ival2: Interval,
    ) -> bool {
        &&& call.fd == self.fd
        &&& call.bytes@ == tx_bytes(
            self.abi,
            filter_head(self.abi, can_id, ival1, ival2),
            blank_frames(),
        )
    }

    /// Open a named CAN device non blocking.
    ///
    /// Usually the more common case, opens a socket can device by name, such
    /// as "vcan0" or "socan0". `if_index` is what the lookup of the name gave. Of
    /// the lookups that failed, those count here that met an error of the system.
    pub fn open_nb(if_index: Result<u32, LookupError>, abi: Abi) -> (r: Result<Opening, Error>)
        requires
            if_index matches Err(e) ==> e is Sys,
        ensures
            match if_index {
                Ok(if_index) => r == Ok::<Opening, Error>(
                    Opening { if_index, abi, stage: OpenStage::Creating },
                ),
                Err(e) => r == Err::<Opening, Error>(Error::Os { errno: e->errno }),
            },
    {
        match if_index {
            Ok(if_index) => Ok(BCMSocket::open_if_nb(if_index, abi)),
            Err(LookupError::Sys { errno }) => Err(Error::Os { errno }),
            Err(_) => vstd::pervasive::unreached(),
        }
    }

    /// Open CAN device by interface number non blocking.
    ///
    /// Opens a CAN device by kernel interface number.
    pub fn open_if_nb(if_index: u32, abi: Abi) -> (r: Opening)
        ensures
            r == (Opening { if_index, abi, stage: OpenStage::Creating }),
    {
        Opening { if_index, abi, stage: OpenStage::Creating }
    }

    /// The file descriptor.
    pub fn as_raw_fd(&self) -> (r: i32)
        ensures
            r == self.fd,
    {
        self.fd
    }

    /// What the call that closes the descriptor came to. A return value other than
    /// -1 is reported as an error.
    pub fn close(&mut self, rv: i32, errno: i32) -> (r: Result<(), Error>)
        ensures
            *final(self) == *old(self),
            r == (if rv != -1 {
                Err::<(), Error>(Error::Os { errno })
            } else {
                Ok::<(), Error>(())
            }),
    {
        if rv != -1 {
            return Err(Error::Os { errno });
        }
        Ok(())
    }

    /// Filter CAN frames by CAN identifier.
    pub fn filter(self, can_id: Id, ival1: Interval, ival2: Interval) -> (r: FrameSubscription)
        ensures
            r.socket == self,
            self.filters(r.call, can_id, ival1, ival2),
    {
        let call = self.filter_id_internal(can_id, ival1, ival2);
        FrameSubscription { socket: self, call }
    }

    /// Stream of incoming `BcmMsgHead` that apply to the filter criteria.
    pub fn filter_message(self, can_id: Id, ival1: Interval, ival2: Interval) -> (r:
        MessageSubscription)
        ensures
            r.socket == self,
            self.filters(r.call, can_id, ival1, ival2),
    {
        let call = self.filter_id_internal(can_id, ival1, ival2);
        MessageSubscription { socket: self, call }
    }

    /// Create a content filter subscription, filtering can frames by can_id.
    fn filter_id_internal(&self, can_id: Id, ival1: Interval, ival2: Interval) -> (r: WriteCall)
        ensures
            self.filters(r, can_id, ival1, ival2),
    {
        let frames = empty_frames();
        let msg_head = BcmMsgHeadFrameLess {
            opcode: RX_SETUP,
            flags: SETTIMER | RX_FILTER_ID,
            count: 0,
            ival1: c_timeval_new(self.abi.tv_sec, ival1),
            ival2: c_timeval_new(self.abi.tv_sec, ival2),
            can_id: can_id.can_id(),
            nframes: 0,
        };
        let tx_msg = TxMsg { msg_head, frames };
        WriteCall { fd: self.fd, bytes: tx_msg.to_bytes(self.abi) }
    }

    /// What the write of a request for a subscription came to.
    pub fn filter_id_written(&self, rv: isize, errno: i32) -> (r: Result<(), Error>)
        ensures
            r == (if rv < 0 {
                Err::<(), Error>(Error::WriteZero { errno })
            } else {
                Ok::<(), Error>(())
            }),
    {
        if rv < 0 {
            return Err(Error::WriteZero { errno });
        }
        Ok(())
    }

    /// Create a content filter subscription, filtering can frames by can_id.
    pub fn filter_id(&self, can_id: Id, ival1: Interval, ival2: Interval) -> (r: WriteCall)
        ensures
            self.filters(r, can_id, ival1, ival2),
    {
        self.filter_id_internal(can_id, ival1, ival2)
    }

    /// Combination of `BCMSocket::filter_id` and `BCMSocket::incoming_frames`.
    pub fn filter_id_incoming_frames(self, can_id: Id, ival1: Interval, ival2: Interval) -> (r:
        FrameSubscription)
        ensures
            r.socket == self,
            self.filters(r.call, can_id, ival1, ival2),
    {
        self.filter(can_id, ival1, ival2)
    }

    /// Stream of incoming BcmMsgHeads that apply to the filter criteria.
    pub fn incoming_msg(self) -> (r: Result<BcmStream, Error>)
        ensures
            r matches Ok(stream) && stream.socket == self,
    {
        BcmStream::from(self)
    }

    /// Stream of incoming frames that apply to the filter criteria.
    pub fn incoming_frames(self) -> (r: Result<BcmFrameStream, Error>)
        ensures
            r matches Ok(stream) && stream.socket == self,
    {
        BcmFrameStream::new(self)
    }

    /// Remove a content filter subscription.
    pub fn filter_delete(&self, can_id: Id) -> (r: WriteCall)
        ensures
            r.fd == self.fd,
            r.bytes@ == message_bytes(self.abi, delete_head(can_id), blank_frames()),
            uint_value(self.abi.order, r.bytes@.subrange(0, 4)) == RX_DELETE,
            uint_value(self.abi.order, r.bytes@.subrange(4, 8)) == 0,
    {
        let frames = empty_frames();
        proof {
            lemma_zero_timeval(self.abi.tv_sec);
            law_delete_request_bytes(self.abi, can_id);
        }
        let msg = BcmMsgHead {
            opcode: RX_DELETE,
            flags: 0,
            count: 0,
            ival1: c_timeval_new(self.abi.tv_sec, Interval::zero()),
            ival2: c_timeval_new(self.abi.tv_sec, Interval::zero()),
            can_id: can_id.can_id(),
            nframes: 0,
            frames,
        };
        WriteCall { fd: self.fd, bytes: msg.to_bytes(self.abi) }
    }

    /// What the write of a request to remove a subscription came to. The broadcast
    /// manager takes the head of the message and no more.
    pub fn filter_delete_written(&self, rv: isize) -> (r: Result<(), Error>)
        ensures
            match r {
                Ok(_) => rv == self.abi.spec_head_size(),
                Err(e) => {
                    &&& rv != self.abi.spec_head_size()
                    &&& e.spec_kind() == ErrorKind::WriteZero
                    &&& e matches Error::WrongWrite { message }
                    &&& message@ == wrong_write_text(rv as int, self.abi.spec_head_size() as int)
                },
            },
    {
        let expected_size: usize = self.abi.head_size();
        if rv < 0 || rv as usize != expected_size {
            let message = wrong_write_message(rv as i64, expected_size as i64);
            return Err(Error::WrongWrite { message });
        }
        Ok(())
    }

    /// The read of a single bcm message, over the bytes of a blank one.
    pub fn read_call(&self) -> (r: ReadCall)
        ensures
            r.fd == self.fd,
            r.buffer@ == message_bytes(
                self.abi,
                BcmMsgHeadFrameLess::spec_zero(),
                blank_frames(),
            ),
            r.buffer@.len() == self.abi.spec_message_size(),
            forall|i: int| 0 <= i < r.buffer@.len() ==> r.buffer@[i] == 0,
    {
        let frames = empty_frames();
        proof {
            lemma_zero_timeval(self.abi.tv_sec);
            law_read_buffer_is_zero(self.abi);
            law_message_size(self.abi, BcmMsgHeadFrameLess::spec_zero(), blank_frames());
        }
        let msg = BcmMsgHead {
            opcode: 0,
            flags: 0,
            count: 0,
            ival1: c_timeval_new(self.abi.tv_sec, Interval::zero()),
            ival2: c_timeval_new(self.abi.tv_sec, Interval::zero()),
            can_id: 0,
            nframes: 0,
            frames,
        };
        ReadCall { fd: self.fd, buffer: msg.to_bytes(self.abi) }
    }

    /// What the read of a single bcm message came to: `count` is what it returned,
    /// and `buffer` the buffer after it.
    pub fn read_msg(&self, count: isize, buffer: &[u8], errno: i32) -> (r: Result<
        BcmMsgHead,
        Error,
    >)
        requires
            buffer@.len() == self.abi.spec_message_size(),
        ensures
            match r {
                Ok(msg) => count >= 0 && msg.stands_in(self.abi, buffer@),
                Err(e) => count < 0 && e == (Error::Os { errno }),
            },
    {
        if count < 0 {
            Err(Error::Os { errno })
        } else {
            Ok(BcmMsgHead::from_bytes(self.abi, buffer))
        }
    }
}

impl FrameSubscription {
    /// Goes on after the write of the request returned `rv` and left the error
    /// number `errno`.
    pub fn written(self, rv: isize, errno: i32) -> (r: Result<BcmFrameStream, Error>)
        ensures
            match r {
                Ok(stream) => rv >= 0 && stream.socket == self.socket,
                Err(e) => rv < 0 && e == (Error::WriteZero { errno }),
            },
    {
        match self.socket.filter_id_written(rv, errno) {
            Ok(_) => BcmFrameStream::new(self.socket),
            Err(e) => Err(e),
        }
    }
}

impl MessageSubscription {
    /// Goes on after the write of the request returned `rv` and left the error
    /// number `errno`.
    pub fn written(self, rv: isize, errno: i32) -> (r: Result<BcmStream, Error>)
        ensures
            match r {
                Ok(stream) => rv >= 0 && stream.socket == self.socket,
                Err(e) => rv < 0 && e == (Error::WriteZero { errno }),
            },
    {
        match self.socket.filter_id_written(rv, errno) {
            Ok(_) => BcmStream::from(self.socket),
            Err(e) => Err(e),
        }
    }
}

proof fn lemma_zero_timeval(time_t: WordSize)
    ensures
        forall|t: Interval|
            t.secs() == 0 && t.nanos() == 0 ==> #[trigger] spec_timeval(time_t, t) == (Timeval {
                tv_sec: 0,
                tv_usec: 0,
            }),
{
    lemma_pow256_values();
    lemma_wrapped_values(0);
}

/// How the opening of a socket goes if its calls return the given values and leave
/// the given error numbers.
pub open spec fn open_run(opening: Opening, calls: Seq<(i32, i32)>) -> OpenStep
    decreases calls.len(),
{
    if calls.len() == 0 {
        OpenStep::Call(opening)
    } else {
        match opening.spec_returned(calls[0].0, calls[0].1) {
            OpenStep::Call(next) => open_run(next, calls.drop_first()),
            step => step,
        }
    }
}

/// A socket is opened by three calls that all succeed, and by nothing else. It
/// has the descriptor that the first call gave. The first call that fails ends the
/// opening with its error number, and no call is made after it.
pub proof fn law_open(if_index: u32, abi: Abi, calls: Seq<(i32, i32)>)
    ensures
        ({
            let r = open_run(Opening { if_index, abi, stage: OpenStage::Creating }, calls);
            if calls.len() >= 1 && calls[0].0 == -1 {
                r == OpenStep::Failed(Error::Os { errno: calls[0].1 })
            } else if calls.len() >= 2 && calls[1].0 == -1 {
                r == OpenStep::Failed(Error::Os { errno: calls[1].1 })
            } else if calls.len() >= 3 && calls[2].0 != 0 {
                r == OpenStep::Failed(Error::Os { errno: calls[2].1 })
            } else if calls.len() >= 3 {
                r == OpenStep::Opened(BCMSocket { fd: calls[0].0, abi })
            } else {
                r is Call
            }
        }),
{
    let second = calls.drop_first();
    let third = second.drop_first();
    assert(calls.len() >= 2 ==> second[0] == calls[1]);
    assert(calls.len() >= 3 ==> third[0] == calls[2]);
    reveal_with_fuel(open_run, 4);
}

proof fn lemma_timeval_wf(abi: Abi, t: Interval)
    requires
        t.wf(),
    ensures
        spec_timeval(abi.tv_sec, t).wf(abi),
{
    lemma_pow256_values();
    lemma_wrapped_values(t.secs() as int);
}

/// The bytes of a request for a subscription say what was asked for: read as a
/// message, they set up a filter by the identifier alone, with both intervals, and
/// carry no frames.
pub proof fn law_filter_request_read(
    abi: Abi,
    can_id: Id,
    ival1: Interval,
    ival2: Interval,
    msg: BcmMsgHead,
)
    requires
        ival1.wf(),
        ival2.wf(),
        msg.stands_in(
            abi,
            tx_bytes(abi, filter_head(abi, can_id, ival1, ival2), blank_frames()),
        ),
    ensures
        msg.opcode == RX_SETUP,
        msg.flags == 0x21,
        msg.count == 0,
        msg.ival1 == spec_timeval(abi.tv_sec, ival1),
        msg.ival2 == spec_timeval(abi.tv_sec, ival2),
        msg.can_id == can_id.spec_can_id(),
        msg.nframes == 0,
        msg.frames@ == blank_frames(),
{
    let head = filter_head(abi, can_id, ival1, ival2);
    lemma_timeval_wf(abi, ival1);
    lemma_timeval_wf(abi, ival2);
    law_blank_message_forms_agree(abi, head);
    law_message_written_then_read(abi, head, blank_frames(), msg);
    assert(SETTIMER | RX_FILTER_ID == 0x21) by (bit_vector);
}

/// The bytes of a request to remove a subscription say what was asked for: read as
/// a message, they name the identifier, and all else is zero.
pub proof fn law_delete_request_read(abi: Abi, can_id: Id, msg: BcmMsgHead)
    requires
        msg.stands_in(abi, message_bytes(abi, delete_head(can_id), blank_frames())),
    ensures
        msg.head() == (BcmMsgHeadFrameLess {
            opcode: RX_DELETE,
            can_id: can_id.spec_can_id(),
            ..BcmMsgHeadFrameLess::spec_zero()
        }),
        msg.frames@ == blank_frames(),
{
    lemma_pow256_values();
    law_message_written_then_read(abi, delete_head(can_id), blank_frames(), msg);
}

/// A request to remove a subscription names the subscription that was made for the
/// same identifier, and that of no other.
pub proof fn law_delete_names_the_filter(
    abi: Abi,
    filtered: Id,
    ival1: Interval,
    ival2: Interval,
    deleted: Id,
)
    requires
        filtered.wf(),
        deleted.wf(),
    ensures
        filter_head(abi, filtered, ival1, ival2).can_id == delete_head(deleted).can_id <==> filtered
            == deleted,
{
    if filtered.spec_can_id() == deleted.spec_can_id() {
        law_can_id_injective(filtered, deleted);
    }
}

/// A call that succeeds takes the opening one stage further and changes nothing else:
/// it stays for the same interface, the same layout and, once there is one, the same
/// descriptor. A call that fails ends it.
pub proof fn law_returned(opening: Opening, rv: i32, errno: i32)
    ensures
        match opening.spec_returned(rv, errno) {
            OpenStep::Call(next) => {
                &&& next.if_index == opening.if_index
                &&& next.abi == opening.abi
                &&& rv != -1
                &&& match opening.stage {
                    OpenStage::Creating => next.stage matches OpenStage::SettingNonBlocking { fd }
                        && fd == rv,
                    OpenStage::SettingNonBlocking { fd } => next.stage
                        matches OpenStage::Connecting { fd: to } && to == fd,
                    OpenStage::Connecting { .. } => false,
                }
            },
            OpenStep::Opened(socket) => {
                &&& rv == 0
                &&& socket.abi == opening.abi
                &&& opening.stage matches OpenStage::Connecting { fd }
                &&& socket.fd == fd
            },
            OpenStep::Failed(e) => {
                &&& rv == -1 || (opening.stage is Connecting && rv != 0)
                &&& e matches Error::Os { errno: n }
                &&& n == errno
            },
        },
{
}

/// Whatever calls have returned, an opening that goes on is still for the interface
/// and the layout that it was begun with. It waits for the call after those, on the
/// descriptor that the first one gave, and the address that it connects to is that of
/// the interface asked for: its number stands in the four bytes behind the family and
/// the gap.
#[verifier::spinoff_prover]
#[verifier::rlimit(40)]
pub proof fn law_opening_keeps_interface(if_index: u32, abi: Abi, calls: Seq<(i32, i32)>)
    ensures
        match open_run(Opening { if_index, abi, stage: OpenStage::Creating }, calls) {
            OpenStep::Call(next) => {
                let address = CANAddr::spec_of_interface(next.if_index).spec_bytes(next.abi);
                let k: int = if abi.max_align is Two {
                    2
                } else {
                    4
                };
                &&& next.if_index == if_index
                &&& next.abi == abi
                &&& calls.len() < 3
                &&& calls.len() == 0 ==> next.stage is Creating
                &&& calls.len() == 1 ==> (next.stage matches OpenStage::SettingNonBlocking { fd }
                    && fd == calls[0].0)
                &&& calls.len() == 2 ==> (next.stage matches OpenStage::Connecting { fd } && fd
                    == calls[0].0)
                &&& address.len() == k + 12
                &&& uint_value(abi.order, address.subrange(0, 2)) == 29
                &&& uint_value(abi.order, address.subrange(k, k + 4)) == if_index
                &&& forall|i: int| 2 <= i < k ==> address[i] == 0
                &&& forall|i: int| k + 4 <= i < k + 12 ==> address[i] == 0
            },
            _ => true,
        },
{
    let second = calls.drop_first();
    let third = second.drop_first();
    assert(calls.len() >= 2 ==> second[0] == calls[1]);
    assert(calls.len() >= 3 ==> third[0] == calls[2]);
    reveal_with_fuel(open_run, 4);
    law_interface_address(if_index, abi);
}

/// The address of an interface holds the CAN family in its first two bytes, and the
/// number of the interface in the four bytes behind the family and the gap. All other
/// bytes are zero.
#[verifier::spinoff_prover]
#[verifier::rlimit(40)]
pub proof fn law_interface_address(if_index: u32, abi: Abi)
    ensures
        ({
            let address = CANAddr::spec_of_interface(if_index).spec_bytes(abi);
            let k: int = if abi.max_align is Two {
                2
            } else {
                4
            };
            &&& address.len() == k + 12
            &&& uint_value(abi.order, address.subrange(0, 2)) == 29
            &&& uint_value(abi.order, address.subrange(k, k + 4)) == if_index
            &&& forall|i: int| 2 <= i < k ==> address[i] == 0
            &&& forall|i: int| k + 4 <= i < k + 12 ==> address[i] == 0
        }),
{
    let addr = CANAddr::spec_of_interface(if_index);
    let s = addr.spec_bytes(abi);
    let k: int = if abi.max_align is Two {
        2
    } else {
        4
    };
    law_address_fields(if_index);
    law_address_bytes(addr, abi);
    lemma_zero_word_read(abi.order, s, k + 4);
    lemma_zero_word_read(abi.order, s, k + 8);
}

/// Four bytes whose value is zero are zeros.
proof fn lemma_zero_word_read(order: ByteOrder, s: Seq<u8>, at: int)
    requires
        0 <= at,
        at + 4 <= s.len(),
        uint_value(order, s.subrange(at, at + 4)) == 0,
    ensures
        forall|i: int| at <= i < at + 4 ==> s[i] == 0,
{
    let word = s.subrange(at, at + 4);
    law_uint_read_then_written(order, word);
    law_uint_bytes_4(order, 0);
    assert forall|i: int| at <= i < at + 4 implies s[i] == 0 by {
        assert(s[i] == word[i - at]);
    }
}

/// The bytes of a request for a subscription, each by its place: the first word sets
/// up a filter, the second sets the timers and filters by the identifier alone, the
/// third is zero; the intervals follow, in seconds and whole microseconds, then the
/// word of the identifier. Every byte behind it is zero. The request goes to the
/// socket's descriptor.
#[verifier::spinoff_prover]
#[verifier::rlimit(40)]
pub proof fn law_filter_request_bytes(
    socket: BCMSocket,
    call: WriteCall,
    can_id: Id,
    ival1: Interval,
    ival2: Interval,
)
    requires
        socket.filters(call, can_id, ival1, ival2),
    ensures
        call.fd == socket.fd,
        ({
            let abi = socket.abi;
            let bytes = call.bytes@;
            let n = abi.tv_usec.spec_size();
            let a = abi.times_at() as int;
            let b = a + abi.spec_timeval_size();
            let k = abi.usec_at() as int;
            let ids = abi.can_id_at() as int;
            &&& bytes.len() == abi.spec_head_size() + 4096
            &&& uint_value(abi.order, bytes.subrange(0, 4)) == 5
            &&& uint_value(abi.order, bytes.subrange(4, 8)) == 0x21
            &&& uint_value(abi.order, bytes.subrange(8, 12)) == 0
            &&& forall|i: int| 12 <= i < a ==> bytes[i] == 0
            &&& abi.tv_sec is Bits64 ==> uint_value(abi.order, bytes.subrange(a, a + 8))
                == ival1.secs()
            &&& abi.tv_sec is Bits32 ==> uint_value(abi.order, bytes.subrange(a, a + 4))
                == ival1.secs() as int % 0x1_0000_0000
            &&& uint_value(abi.order, bytes.subrange(a + k, a + k + n)) == ival1.nanos() / 1000
            &&& abi.tv_sec is Bits64 ==> uint_value(abi.order, bytes.subrange(b, b + 8))
                == ival2.secs()
            &&& abi.tv_sec is Bits32 ==> uint_value(abi.order, bytes.subrange(b, b + 4))
                == ival2.secs() as int % 0x1_0000_0000
            &&& uint_value(abi.order, bytes.subrange(b + k, b + k + n)) == ival2.nanos() / 1000
            &&& uint_value(abi.order, bytes.subrange(ids, ids + 4)) == (match can_id {
                Id::Standard(sid) => sid@ as int,
                Id::Extended(eid) => (eid@ | 0x8000_0000) as int,
            })
            &&& forall|i: int| ids + 4 <= i < bytes.len() ==> bytes[i] == 0
        }),
{
    let abi = socket.abi;
    let head = filter_head(abi, can_id, ival1, ival2);
    assert(SETTIMER | RX_FILTER_ID == 0x21) by (bit_vector);
    law_message_fields(abi, head, blank_frames(), call.bytes@);
    law_blank_message_tail(abi, head, call.bytes@);
    lemma_interval_written(abi, ival1);
    lemma_interval_written(abi, ival2);
}

proof fn lemma_interval_written(abi: Abi, t: Interval)
    ensures
        ({
            let time = spec_timeval(abi.tv_sec, t);
            &&& abi.tv_sec is Bits64 ==> wrapped(time.tv_sec as int, 8) == t.secs()
            &&& abi.tv_sec is Bits32 ==> wrapped(time.tv_sec as int, 4) == t.secs() as int
                % 0x1_0000_0000
            &&& wrapped(time.tv_usec as int, abi.tv_usec.spec_size()) == t.nanos() / 1000
        }),
{
    let n = abi.tv_sec.spec_size();
    lemma_pow256_values();
    lemma_wrapped_values(t.secs() as int);
    lemma_wrapped_values((t.nanos() / 1000) as int);
    law_wrapped_signed(wrapped(t.secs() as int, n), n);
}

/// The bytes of a request to remove a subscription, each by its place: the first word
/// asks for the removal, and the word of the identifier stands where a head has it.
/// Every other byte is zero, whatever the identifier.
pub proof fn law_delete_request_bytes(abi: Abi, can_id: Id)
    ensures
        ({
            let bytes = message_bytes(abi, delete_head(can_id), blank_frames());
            let ids = abi.can_id_at() as int;
            &&& bytes.len() == abi.spec_head_size() + 4096
            &&& uint_value(abi.order, bytes.subrange(0, 4)) == 6
            &&& uint_value(abi.order, bytes.subrange(4, 8)) == 0
            &&& forall|i: int| 4 <= i < ids ==> bytes[i] == 0
            &&& uint_value(abi.order, bytes.subrange(ids, ids + 4)) == (match can_id {
                Id::Standard(sid) => sid@ as int,
                Id::Extended(eid) => (eid@ | 0x8000_0000) as int,
            })
            &&& forall|i: int| ids + 4 <= i < bytes.len() ==> bytes[i] == 0
        }),
{
    let head = delete_head(can_id);
    let bytes = message_bytes(abi, head, blank_frames());
    law_message_fields(abi, head, blank_frames(), bytes);
    law_plain_message_middle(abi, head, blank_frames(), bytes);
    law_blank_message_tail(abi, head, bytes);
}

/// A message is read over zeros, as many as a message takes.
#[verifier::spinoff_prover]
#[verifier::rlimit(40)]
pub proof fn law_read_buffer_is_zero(abi: Abi)
    ensures
        ({
            let bytes = message_bytes(abi, BcmMsgHeadFrameLess::spec_zero(), blank_frames());
            &&& bytes.len() == abi.spec_head_size() + 4096
            &&& forall|i: int| 0 <= i < bytes.len() ==> bytes[i] == 0
        }),
{
    let head = BcmMsgHeadFrameLess::spec_zero();
    let bytes = message_bytes(abi, head, blank_frames());
    let ids = abi.can_id_at() as int;
    law_message_layout(abi);
    law_message_fields(abi, head, blank_frames(), bytes);
    law_plain_message_middle(abi, head, blank_frames(), bytes);
    law_blank_message_tail(abi, head, bytes);
    lemma_zero_word_read(abi.order, bytes, 0);
    lemma_zero_word_read(abi.order, bytes, ids);
}

} // verus!
