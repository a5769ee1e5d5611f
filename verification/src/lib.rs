//! The Broadcast Manager protocol provides a command based configuration
//! interface to filter and send (e.g. cyclic) CAN messages in kernel space.
//! Filtering messages in kernel space may significantly reduce the load in an application.
//!
//! A BCM socket is not intended for sending individual CAN frames.
//! To send individual frames use the [tokio-socketcan](https://crates.io/crates/tokio-socketcan) crate.
//!
//! This library decides everything about such a socket and performs none of it: an
//! operation gives the system call to make, with the bytes to hand over, and takes
//! what the call returned. [`socket`] holds the operations, [`stream`] the steps of
//! polling for messages and frames, and [`message`] the messages and their bytes.
//! Each function states in its contract what it gives for every input; the proof
//! functions named `law_..` state what holds across functions.
pub mod abi;
pub mod address;
pub mod byte_order;
pub mod constants;
pub mod error;
pub mod frame;
pub mod id;
pub mod message;
pub mod socket;
pub mod stream;
pub mod text;
pub mod timeval;

pub use abi::{Abi, MaxAlign, WordSize};
pub use address::CANAddr;
pub use byte_order::ByteOrder;
pub use constants::{
    AF_CAN, PF_CAN, CAN_BCM, SOCK_DGRAM, MAX_NFRAMES, TX_SETUP, TX_DELETE, TX_READ, TX_SEND,
    RX_SETUP, RX_DELETE, RX_READ, TX_STATUS, TX_EXPIRED, RX_STATUS, RX_TIMEOUT, RX_CHANGED,
    SETTIMER, STARTTIMER, TX_COUNTEVT, TX_ANNOUNCE, TX_CP_CAN_ID, RX_FILTER_ID, RX_CHECK_DLC,
    RX_NO_AUTOTIMER, RX_ANNOUNCE_RESUM, TX_RESET_MULTI_ID, RX_RTR_FRAME, CAN_FD_FRAME,
};
pub use error::{Error, ErrorKind};
pub use frame::{CANFrame, ConstructionError};
pub use id::{ExtendedId, FrameFlags, Id, StandardId};
pub use message::{BcmMsgHead, BcmMsgHeadFrameLess, TxMsg};
pub use socket::{
    BCMSocket, FrameSubscription, LookupError, MessageSubscription, OpenCall, OpenStage, OpenStep,
    Opening, ReadCall, WriteCall,
};
pub use stream::{BcmFrameStream, BcmStream, PollStep, ReadEvent};
pub use timeval::{c_timeval_new, Interval, Timeval};
