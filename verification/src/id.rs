//! CAN identifiers and the flags that share a word with them.

use vstd::prelude::*;

verus! {

/// largest standard identifier; valid bits in a standard frame id
pub const SFF_MASK: u32 = 0x0000_07ff;

/// largest extended identifier; valid bits in an extended frame id
pub const EFF_MASK: u32 = 0x1fff_ffff;

/// if set, indicate 29 bit extended format
pub const EFF_FLAG: u32 = 0x8000_0000;

/// remote transmission request flag
pub const RTR_FLAG: u32 = 0x4000_0000;

/// error flag
pub const ERR_FLAG: u32 = 0x2000_0000;

/// A flag in the upper three bits of a raw CAN identifier.
#[derive(Clone, Copy, PartialEq, Eq, Structural, Debug)]
pub struct FrameFlags {
    bits: u32,
}

impl View for FrameFlags {
    type V = u32;

    closed spec fn view(&self) -> u32 {
        self.bits
    }
}

impl FrameFlags {
    /// if set, indicate 29 bit extended format
    pub fn eff_flag() -> (r: FrameFlags)
        ensures
            r@ == EFF_FLAG,
    {
        FrameFlags { bits: EFF_FLAG }
    }

    /// remote transmission request flag
    pub fn rtr_flag() -> (r: FrameFlags)
        ensures
            r@ == RTR_FLAG,
    {
        FrameFlags { bits: RTR_FLAG }
    }

    /// error flag
    pub fn err_flag() -> (r: FrameFlags)
        ensures
            r@ == ERR_FLAG,
    {
        FrameFlags { bits: ERR_FLAG }
    }

    /// The raw value of the flag.
    pub fn bits(&self) -> (r: u32)
        ensures
            r == self@,
    {
        self.bits
    }
}

/// Standard 11-bit CAN identifier (`0..=0x7FF`).
#[derive(Clone, Copy, PartialEq, Eq, Structural, Debug)]
pub struct StandardId {
    raw: u16,
}

/// Extended 29-bit CAN identifier (`0..=0x1FFF_FFFF`).
#[derive(Clone, Copy, PartialEq, Eq, Structural, Debug)]
pub struct ExtendedId {
    raw: u32,
}

/// A CAN identifier (standard or extended).
#[derive(Clone, Copy, PartialEq, Eq, Structural, Debug)]
pub enum Id {
    /// Standard 11-bit identifier (`0..=0x7FF`).
    Standard(StandardId),
    /// Extended 29-bit identifier (`0..=0x1FFF_FFFF`).
    Extended(ExtendedId),
}

impl View for StandardId {
    type V = u16;

    closed spec fn view(&self) -> u16 {
        self.raw
    }
}

impl View for ExtendedId {
    type V = u32;

    closed spec fn view(&self) -> u32 {
        self.raw
    }
}

/// Calls `embedded_can::StandardId::new` and reads the identifier that it makes
/// with `embedded_can::StandardId::as_raw`: `new` accepts exactly the numbers up
/// to `0x7FF`, and `as_raw` gives the number back.
#[verifier::external_body]
fn embedded_standard_id(raw: u16) -> (r: Option<u16>)
    ensures
        r == (if raw <= 0x7FF {
            Some(raw)
        } else {
            None
        }),
{
    match embedded_can::StandardId::new(raw) {
        Some(id) => Some(id.as_raw()),
        None => None,
    }
}

/// Calls `embedded_can::ExtendedId::new` and reads the identifier that it makes
/// with `embedded_can::ExtendedId::as_raw`: `new` accepts exactly the numbers up
/// to `0x1FFF_FFFF`, and `as_raw` gives the number back.
#[verifier::external_body]
fn embedded_extended_id(raw: u32) -> (r: Option<u32>)
    ensures
        r == (if raw <= 0x1FFF_FFFF {
            Some(raw)
        } else {
            None
        }),
{
    match embedded_can::ExtendedId::new(raw) {
        Some(id) => Some(id.as_raw()),
        None => None,
    }
}

impl StandardId {
    /// The identifier is in the range of an 11-bit integer.
    #[verifier::type_invariant]
    pub open spec fn wf(self) -> bool {
        self@ <= 0x7FF
    }

    /// The identifier `raw`, or `None` if `raw` is out of range of an 11-bit
    /// integer (`> 0x7FF`).
    pub fn new(raw: u16) -> (r: Option<StandardId>)
        ensures
            r is Some <==> raw <= 0x7FF,
            r matches Some(id) ==> id@ == raw && id.wf(),
    {
        match embedded_standard_id(raw) {
            Some(raw) => Some(StandardId { raw }),
            None => None,
        }
    }

    /// This identifier as a raw 16-bit integer.
    pub fn as_raw(&self) -> (r: u16)
        ensures
            r == self@,
            self.wf(),
    {
        proof {
            use_type_invariant(self);
        }
        self.raw
    }
}

impl ExtendedId {
    /// The identifier is in the range of a 29-bit integer.
    #[verifier::type_invariant]
    pub open spec fn wf(self) -> bool {
        self@ <= 0x1FFF_FFFF
    }

    /// The identifier `raw`, or `None` if `raw` is out of range of a 29-bit
    /// integer (`> 0x1FFF_FFFF`).
    pub fn new(raw: u32) -> (r: Option<ExtendedId>)
        ensures
            r is Some <==> raw <= 0x1FFF_FFFF,
            r matches Some(id) ==> id@ == raw && id.wf(),
    {
        match embedded_extended_id(raw) {
            Some(raw) => Some(ExtendedId { raw }),
            None => None,
        }
    }

    /// This identifier as a raw 32-bit integer.
    pub fn as_raw(&self) -> (r: u32)
        ensures
            r == self@,
            self.wf(),
    {
        proof {
            use_type_invariant(self);
        }
        self.raw
    }
}

impl Id {
    /// The identifier is in the range of its format.
    pub open spec fn wf(self) -> bool {
        match self {
            Id::Standard(sid) => sid.wf(),
            Id::Extended(eid) => eid.wf(),
        }
    }

    /// The word that names the identifier in a message: its number, with the
    /// topmost bit set for the extended format.
    pub open spec fn spec_can_id(self) -> u32 {
        match self {
            Id::Standard(sid) => sid@ as u32,
            Id::Extended(eid) => eid@ | EFF_FLAG,
        }
    }

    /// The word that names the identifier in a message.
    pub fn can_id(self) -> (r: u32)
        ensures
            r == self.spec_can_id(),
            self.wf(),
    {
        match self {
            Id::Standard(sid) => sid.as_raw() as u32,
            Id::Extended(eid) => eid.as_raw() | FrameFlags::eff_flag().bits(),
        }
    }
}

/// The word of an identifier tells its format and its number: the topmost bit is
/// set exactly for the extended format, the two bits below it are clear, and the
/// lower bits are the number.
pub proof fn law_can_id_parts(id: Id)
    requires
        id.wf(),
    ensures
        id.spec_can_id() & 0x8000_0000 == (if id is Extended {
            0x8000_0000u32
        } else {
            0u32
        }),
        id.spec_can_id() & 0x6000_0000 == 0,
        id matches Id::Standard(sid) ==> id.spec_can_id() & EFF_MASK == sid@,
        id matches Id::Extended(eid) ==> id.spec_can_id() & EFF_MASK == eid@,
{
    match id {
        Id::Standard(sid) => {
            let x = sid@ as u32;
            assert(x <= 0x7FF ==> x & 0x8000_0000 == 0 && x & 0x6000_0000 == 0 && x & 0x1fff_ffff
                == x) by (bit_vector);
        },
        Id::Extended(eid) => {
            let x = eid@;
            assert(x <= 0x1FFF_FFFF ==> (x | 0x8000_0000) & 0x8000_0000 == 0x8000_0000 && (x
                | 0x8000_0000) & 0x6000_0000 == 0 && (x | 0x8000_0000) & 0x1fff_ffff == x)
                by (bit_vector);
        },
    }
}

/// Different identifiers have different words: the two formats never meet, and
/// within a format the number decides.
pub proof fn law_can_id_injective(a: Id, b: Id)
    requires
        a.wf(),
        b.wf(),
        a.spec_can_id() == b.spec_can_id(),
    ensures
        a == b,
{
    law_can_id_parts(a);
    law_can_id_parts(b);
}

/// A standard identifier is named by its number, an extended one by its number with
/// the topmost bit set; and the flags and masks are those of the kernel headers.
pub proof fn law_can_id_value(id: Id)
    ensures
        id matches Id::Standard(sid) ==> id.spec_can_id() == sid@,
        id matches Id::Extended(eid) ==> eid@ < 0x8000_0000 ==> id.spec_can_id() == eid@
            + 0x8000_0000,
        id.wf() <==> (match id {
            Id::Standard(sid) => sid@ <= 0x7FF,
            Id::Extended(eid) => eid@ <= 0x1FFF_FFFF,
        }),
        id matches Id::Standard(sid) ==> (sid.wf() <==> sid@ <= 0x7FF),
        id matches Id::Extended(eid) ==> (eid.wf() <==> eid@ <= 0x1FFF_FFFF),
        EFF_FLAG == 0x8000_0000 && RTR_FLAG == 0x4000_0000 && ERR_FLAG == 0x2000_0000,
        SFF_MASK == 0x7FF && EFF_MASK == 0x1FFF_FFFF,
{
    if let Id::Extended(eid) = id {
        let x = eid@;
        assert(x < 0x8000_0000 ==> (x | 0x8000_0000) == x + 0x8000_0000) by (bit_vector);
    }
}

} // verus!
