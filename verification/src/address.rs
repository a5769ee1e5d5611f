//! The address of a CAN interface.

use crate::abi::{push_zeros, zeros, Abi};
use crate::byte_order::{
    law_uint_written_then_read, lemma_pow256_values, lemma_uint_bytes_len, lemma_wrapped_values,
    push_uint, signed, uint_bytes, uint_value, wrapped,
};
use crate::constants::AF_CAN;
use vstd::prelude::*;

verus! {

/// The socket address of a CAN interface.
#[derive(Clone, Copy, PartialEq, Eq, Structural, Debug)]
pub struct CANAddr {
    /// address family
    pub _af_can: i16,
    pub if_index: i32,
    pub rx_id: u32,
    pub tx_id: u32,
}

impl CANAddr {
    /// The address of the interface with the number `if_index`, which the address
    /// holds as a signed integer.
    pub open spec fn spec_of_interface(if_index: u32) -> CANAddr {
        CANAddr {
            _af_can: AF_CAN as i16,
            if_index: signed(if_index as nat, 4) as i32,
            rx_id: 0,
            tx_id: 0,
        }
    }

    /// The bytes of the address: its fields in turn, with zeros after the family where
    /// the alignment of the interface's number leaves a gap.
    pub open spec fn spec_bytes(self, abi: Abi) -> Seq<u8> {
        let order = abi.order;
        uint_bytes(order, wrapped(self._af_can as int, 2), 2) + zeros(
            (abi.int_align(4) - 2) as nat,
        ) + uint_bytes(
            order,
            wrapped(self.if_index as int, 4),
            4,
        ) + uint_bytes(order, self.rx_id as nat, 4) + uint_bytes(order, self.tx_id as nat, 4)
    }

    /// The address of the interface with the number `if_index`.
    pub fn of_interface(if_index: u32) -> (r: CANAddr)
        ensures
            r == CANAddr::spec_of_interface(if_index),
    {
        proof {
            lemma_pow256_values();
            assert(if_index >= 0x8000_0000 ==> (if_index as i32) == if_index - 0x1_0000_0000)
                by (bit_vector);
            assert(if_index < 0x8000_0000 ==> (if_index as i32) == if_index) by (bit_vector);
        }
        CANAddr { _af_can: AF_CAN as i16, if_index: if_index as i32, rx_id: 0, tx_id: 0 }
    }

    /// The bytes of the address.
    pub fn to_bytes(&self, abi: Abi) -> (r: Vec<u8>)
        ensures
            r@ == self.spec_bytes(abi),
            r@.len() == 12 + abi.int_align(4),
    {
        let order = abi.order;
        let family: i16 = self._af_can;
        let index: i32 = self.if_index;
        let mut buf: Vec<u8> = Vec::new();
        proof {
            lemma_wrapped_values(family as int);
            lemma_wrapped_values(index as int);
            lemma_uint_bytes_len(order, wrapped(family as int, 2), 2);
            lemma_uint_bytes_len(order, wrapped(index as int, 4), 4);
            lemma_uint_bytes_len(order, self.rx_id as nat, 4);
            lemma_uint_bytes_len(order, self.tx_id as nat, 4);
            assert(family < 0 ==> (family as u16) == family + 0x1_0000) by (bit_vector);
            assert(family >= 0 ==> (family as u16) == family) by (bit_vector);
            assert(index < 0 ==> (index as u32) == index + 0x1_0000_0000) by (bit_vector);
            assert(index >= 0 ==> (index as u32) == index) by (bit_vector);
        }
        push_uint(&mut buf, order, family as u16 as u64, 2);
        assert(buf@ =~= uint_bytes(order, wrapped(family as int, 2), 2));
        push_zeros(&mut buf, abi.alignment(4) - 2);
        push_uint(&mut buf, order, index as u32 as u64, 4);
        push_uint(&mut buf, order, self.rx_id as u64, 4);
        push_uint(&mut buf, order, self.tx_id as u64, 4);
        buf
    }
}

/// The address holds the number of its interface: of two interfaces it differs, as
/// do its bytes.
pub proof fn law_address_names_interface(a: u32, b: u32, abi: Abi)
    requires
        CANAddr::spec_of_interface(a).spec_bytes(abi) == CANAddr::spec_of_interface(
            b,
        ).spec_bytes(abi),
    ensures
        a == b,
{
    let order = abi.order;
    let k = abi.int_align(4) as int;
    let s = CANAddr::spec_of_interface(a).spec_bytes(abi);
    let x = CANAddr::spec_of_interface(a).if_index as int;
    let y = CANAddr::spec_of_interface(b).if_index as int;
    lemma_pow256_values();
    lemma_wrapped_values(x);
    lemma_wrapped_values(y);
    lemma_wrapped_values(AF_CAN as int);
    lemma_uint_bytes_len(order, wrapped(AF_CAN as int, 2), 2);
    lemma_uint_bytes_len(order, wrapped(x, 4), 4);
    lemma_uint_bytes_len(order, wrapped(y, 4), 4);
    lemma_uint_bytes_len(order, 0, 4);
    assert(wrapped(x, 4) == a && wrapped(y, 4) == b);
    assert(s.subrange(k, k + 4) =~= uint_bytes(order, a as nat, 4));
    assert(s.subrange(k, k + 4) =~= uint_bytes(order, b as nat, 4));
    law_uint_written_then_read(order, a as nat, 4);
    law_uint_written_then_read(order, b as nat, 4);
}

/// The address of an interface is of the CAN family, holds the number of the
/// interface as a signed integer, and is zero otherwise.
pub proof fn law_address_fields(if_index: u32)
    ensures
        CANAddr::spec_of_interface(if_index)._af_can == 29,
        CANAddr::spec_of_interface(if_index).if_index == (if if_index < 0x8000_0000 {
            if_index as int
        } else {
            if_index - 0x1_0000_0000
        }),
        CANAddr::spec_of_interface(if_index).rx_id == 0,
        CANAddr::spec_of_interface(if_index).tx_id == 0,
{
    lemma_pow256_values();
}

/// The bytes of an address, each by its place: two of the family, a gap of two zeros
/// unless integers are aligned to two bytes, then four each of the interface's number
/// and the two identifiers.
#[verifier::spinoff_prover]
#[verifier::rlimit(40)]
pub proof fn law_address_bytes(addr: CANAddr, abi: Abi)
    ensures
        ({
            let s = addr.spec_bytes(abi);
            let k: int = if abi.max_align is Two {
                2
            } else {
                4
            };
            &&& s.len() == k + 12
            &&& uint_value(abi.order, s.subrange(0, 2)) == addr._af_can as int % 0x1_0000
            &&& forall|i: int| 2 <= i < k ==> s[i] == 0
            &&& uint_value(abi.order, s.subrange(k, k + 4)) == addr.if_index as int
                % 0x1_0000_0000
            &&& uint_value(abi.order, s.subrange(k + 4, k + 8)) == addr.rx_id
            &&& uint_value(abi.order, s.subrange(k + 8, k + 12)) == addr.tx_id
        }),
{
    let o = abi.order;
    let s = addr.spec_bytes(abi);
    let k: int = if abi.max_align is Two {
        2
    } else {
        4
    };
    let a = wrapped(addr._af_can as int, 2);
    let b = wrapped(addr.if_index as int, 4);
    lemma_pow256_values();
    lemma_wrapped_values(addr._af_can as int);
    lemma_wrapped_values(addr.if_index as int);
    lemma_uint_bytes_len(o, a, 2);
    lemma_uint_bytes_len(o, b, 4);
    lemma_uint_bytes_len(o, addr.rx_id as nat, 4);
    lemma_uint_bytes_len(o, addr.tx_id as nat, 4);
    law_uint_written_then_read(o, a, 2);
    law_uint_written_then_read(o, b, 4);
    law_uint_written_then_read(o, addr.rx_id as nat, 4);
    law_uint_written_then_read(o, addr.tx_id as nat, 4);
    assert(s.subrange(0, 2) =~= uint_bytes(o, a, 2));
    assert(s.subrange(k, k + 4) =~= uint_bytes(o, b, 4));
    assert(s.subrange(k + 4, k + 8) =~= uint_bytes(o, addr.rx_id as nat, 4));
    assert(s.subrange(k + 8, k + 12) =~= uint_bytes(o, addr.tx_id as nat, 4));
}

} // verus!
