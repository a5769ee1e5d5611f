//! Numbers of the broadcast manager protocol, as the kernel headers define them.

use vstd::prelude::*;

verus! {

/// defined in socket.h
pub const AF_CAN: i32 = 29;

/// defined in socket.h
pub const PF_CAN: i32 = AF_CAN;

pub const CAN_BCM: i32 = 2;

/// datagram (connection less) socket
pub const SOCK_DGRAM: i32 = 2;

/// number of frames that the buffer of a message holds
pub const MAX_NFRAMES: u32 = 256;

/// OpCodes
///
/// create (cyclic) transmission task
pub const TX_SETUP: u32 = 1;

/// remove (cyclic) transmission task
pub const TX_DELETE: u32 = 2;

/// read properties of (cyclic) transmission task
pub const TX_READ: u32 = 3;

/// send one CAN frame
pub const TX_SEND: u32 = 4;

/// create RX content filter subscription
pub const RX_SETUP: u32 = 5;

/// remove RX content filter subscription
pub const RX_DELETE: u32 = 6;

/// read properties of RX content filter subscription
pub const RX_READ: u32 = 7;

/// reply to TX_READ request
pub const TX_STATUS: u32 = 8;

/// notification on performed transmissions (count=0)
pub const TX_EXPIRED: u32 = 9;

/// reply to RX_READ request
pub const RX_STATUS: u32 = 10;

/// cyclic message is absent
pub const RX_TIMEOUT: u32 = 11;

/// sent if the first or a revised CAN message was received
pub const RX_CHANGED: u32 = 12;

/// Flags
///
/// set the value of ival1, ival2 and count
pub const SETTIMER: u32 = 0x0001;

/// start the timer with the actual value of ival1, ival2 and count.
/// Starting the timer leads simultaneously to emit a can_frame.
pub const STARTTIMER: u32 = 0x0002;

/// create the message TX_EXPIRED when count expires
pub const TX_COUNTEVT: u32 = 0x0004;

/// A change of data by the process is emitted immediatly.
/// (Requirement of 'Changing Now' - BAES)
pub const TX_ANNOUNCE: u32 = 0x0008;

/// Copies the can_id from the message header to each subsequent frame
/// in frames. This is intended only as usage simplification.
pub const TX_CP_CAN_ID: u32 = 0x0010;

/// Filter by can_id alone, no frames required (nframes=0)
pub const RX_FILTER_ID: u32 = 0x0020;

/// A change of the DLC leads to an RX_CHANGED.
pub const RX_CHECK_DLC: u32 = 0x0040;

/// If the timer ival1 in the RX_SETUP has been set equal to zero, on receipt
/// of the CAN message the timer for the timeout monitoring is automatically
/// started. Setting this flag prevents the automatic start timer.
pub const RX_NO_AUTOTIMER: u32 = 0x0080;

/// refers also to the time-out supervision of the management RX_SETUP.
/// By setting this flag, when an RX-outs occours, a RX_CHANGED will be
/// generated when the (cyclic) receive restarts. This will happen even if the
/// user data have not changed.
pub const RX_ANNOUNCE_RESUM: u32 = 0x0100;

/// forces a reset of the index counter from the update to be sent by multiplex
/// message even if it would not be necessary because of the length.
pub const TX_RESET_MULTI_ID: u32 = 0x0200;

/// the filter passed is used as CAN message to be sent when receiving an RTR frame.
pub const RX_RTR_FRAME: u32 = 0x0400;

pub const CAN_FD_FRAME: u32 = 0x0800;

/// The numbers are those of the kernel headers.
pub proof fn law_numbers_of_the_protocol()
    ensures
        AF_CAN == 29 && PF_CAN == 29 && CAN_BCM == 2 && SOCK_DGRAM == 2 && MAX_NFRAMES == 256,
        TX_SETUP == 1 && TX_DELETE == 2 && TX_READ == 3 && TX_SEND == 4,
        RX_SETUP == 5 && RX_DELETE == 6 && RX_READ == 7,
        TX_STATUS == 8 && TX_EXPIRED == 9 && RX_STATUS == 10 && RX_TIMEOUT == 11 && RX_CHANGED
            == 12,
        SETTIMER == 0x0001 && STARTTIMER == 0x0002 && TX_COUNTEVT == 0x0004 && TX_ANNOUNCE
            == 0x0008,
        TX_CP_CAN_ID == 0x0010 && RX_FILTER_ID == 0x0020 && RX_CHECK_DLC == 0x0040
            && RX_NO_AUTOTIMER == 0x0080,
        RX_ANNOUNCE_RESUM == 0x0100 && TX_RESET_MULTI_ID == 0x0200 && RX_RTR_FRAME == 0x0400
            && CAN_FD_FRAME == 0x0800,
{
}

} // verus!
