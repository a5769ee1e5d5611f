//! How the machine at hand lays a C structure out in memory.

use crate::byte_order::{
    fits_signed, law_signed_wrapped, law_uint_read_then_written, law_uint_written_then_read,
    law_wrapped_signed, lemma_pow256_values, lemma_uint_bytes_len, lemma_uint_value_bound,
    lemma_wrapped_values, push_uint, read_uint, signed, uint_bytes, uint_value, wrapped, ByteOrder,
};
use vstd::prelude::*;

verus! {

/// The width of an integer or a pointer.
#[derive(Clone, Copy, PartialEq, Eq, Structural, Debug)]
pub enum WordSize {
    Bits32,
    Bits64,
}

/// The number of bytes that no integer is aligned beyond. An integer is aligned to
/// its own size where that is less.
#[derive(Clone, Copy, PartialEq, Eq, Structural, Debug)]
pub enum MaxAlign {
    Two,
    Four,
    Eight,
}

/// What the layout of a message depends on. The widths of the two fields of a time
/// are those of the target's `struct timeval`. On most targets both have the width
/// of a pointer, but not on all: they can be wider, and they can differ.
#[derive(Clone, Copy, PartialEq, Eq, Structural, Debug)]
pub struct Abi {
    pub order: ByteOrder,
    /// width of a pointer
    pub pointer: WordSize,
    /// width of the seconds of a time
    pub tv_sec: WordSize,
    /// width of the microseconds of a time
    pub tv_usec: WordSize,
    /// alignment of integers
    pub max_align: MaxAlign,
}

impl WordSize {
    /// The number of bytes.
    pub open spec fn spec_size(self) -> nat {
        match self {
            WordSize::Bits32 => 4,
            WordSize::Bits64 => 8,
        }
    }

    /// The number of bytes.
    pub fn size(self) -> (r: usize)
        ensures
            r == self.spec_size(),
    {
        match self {
            WordSize::Bits32 => 4,
            WordSize::Bits64 => 8,
        }
    }
}

impl MaxAlign {
    /// The number of bytes.
    pub open spec fn spec_size(self) -> nat {
        match self {
            MaxAlign::Two => 2,
            MaxAlign::Four => 4,
            MaxAlign::Eight => 8,
        }
    }

    /// The number of bytes.
    pub fn size(self) -> (r: usize)
        ensures
            r == self.spec_size(),
    {
        match self {
            MaxAlign::Two => 2,
            MaxAlign::Four => 4,
            MaxAlign::Eight => 8,
        }
    }
}

/// The first multiple of `align` from `offset` on.
pub open spec fn round_up(offset: nat, align: nat) -> nat {
    if offset % align == 0 {
        offset
    } else {
        (offset + align - offset % align) as nat
    }
}

/// As many zeros as a gap has bytes.
pub open spec fn zeros(n: nat) -> Seq<u8> {
    Seq::new(n, |i: int| 0u8)
}

impl Abi {
    /// What an integer of `n` bytes is aligned to.
    pub open spec fn int_align(self, n: nat) -> nat {
        if n <= self.max_align.spec_size() {
            n
        } else {
            self.max_align.spec_size()
        }
    }

    /// What a time is aligned to: the larger of the alignments of its fields.
    pub open spec fn time_align(self) -> nat {
        let sec = self.int_align(self.tv_sec.spec_size());
        let usec = self.int_align(self.tv_usec.spec_size());
        if sec >= usec {
            sec
        } else {
            usec
        }
    }

    /// Where the microseconds of a time stand.
    pub open spec fn usec_at(self) -> nat {
        round_up(self.tv_sec.spec_size(), self.int_align(self.tv_usec.spec_size()))
    }

    /// The number of bytes of a time.
    pub open spec fn spec_timeval_size(self) -> nat {
        round_up(self.usec_at() + self.tv_usec.spec_size(), self.time_align())
    }

    /// The number of bytes of a time.
    pub fn timeval_size(self) -> (r: usize)
        ensures
            r == self.spec_timeval_size(),
            r <= 16,
    {
        proof {
            lemma_time_layout(self);
        }
        aligned(self.usec_offset() + self.tv_usec.size(), self.time_alignment())
    }

    pub(crate) fn time_alignment(self) -> (r: usize)
        ensures
            r == self.time_align(),
            r == 2 || r == 4 || r == 8,
    {
        let sec: usize = self.alignment(self.tv_sec.size());
        let usec: usize = self.alignment(self.tv_usec.size());
        if sec >= usec {
            sec
        } else {
            usec
        }
    }

    pub(crate) fn usec_offset(self) -> (r: usize)
        ensures
            r == self.usec_at(),
            self.tv_sec.spec_size() <= r <= 8,
    {
        proof {
            lemma_time_layout(self);
        }
        aligned(self.tv_sec.size(), self.alignment(self.tv_usec.size()))
    }

    pub(crate) fn alignment(self, n: usize) -> (r: usize)
        requires
            n == 4 || n == 8,
        ensures
            r == self.int_align(n as nat),
            r == 2 || r == 4 || r == 8,
    {
        let most: usize = self.max_align.size();
        if n <= most {
            n
        } else {
            most
        }
    }
}

/// The first multiple of `align` from `offset` on.
pub(crate) fn aligned(offset: usize, align: usize) -> (r: usize)
    requires
        offset <= 0x1_0000,
        align == 2 || align == 4 || align == 8,
    ensures
        r == round_up(offset as nat, align as nat),
{
    let over: usize = offset % align;
    proof {
        lemma_round_up(offset as nat, align as nat);
    }
    if over == 0 {
        offset
    } else {
        offset + (align - over)
    }
}

/// Rounding up skips less than the alignment, and gives one of its multiples.
pub(crate) proof fn lemma_round_up(offset: nat, align: nat)
    requires
        align == 2 || align == 4 || align == 8,
    ensures
        offset <= round_up(offset, align) < offset + align,
        round_up(offset, align) % align == 0,
        0 <= offset % align < align,
{
    if align == 2 {
        assert(offset <= round_up(offset, 2) < offset + 2 && round_up(offset, 2) % 2 == 0);
    } else if align == 4 {
        assert(offset <= round_up(offset, 4) < offset + 4 && round_up(offset, 4) % 4 == 0);
    } else {
        assert(offset <= round_up(offset, 8) < offset + 8 && round_up(offset, 8) % 8 == 0);
    }
}

/// The fields of a time stand in turn, within its size.
pub(crate) proof fn lemma_time_layout(abi: Abi)
    ensures
        abi.time_align() == 2 || abi.time_align() == 4 || abi.time_align() == 8,
        abi.tv_sec.spec_size() <= abi.usec_at() <= 8,
        abi.usec_at() + abi.tv_usec.spec_size() <= abi.spec_timeval_size() <= 16,
        abi.spec_timeval_size() % 4 == 0,
{
    lemma_round_up(abi.tv_sec.spec_size(), abi.int_align(abi.tv_usec.spec_size()));
    lemma_round_up(abi.usec_at() + abi.tv_usec.spec_size(), abi.time_align());
    assert(4nat % 2 == 0 && 4nat % 4 == 0 && 4nat % 8 == 4 && 8nat % 2 == 0 && 8nat % 4 == 0
        && 8nat % 8 == 0 && 12nat % 2 == 0 && 12nat % 4 == 0 && 12nat % 8 == 4 && 16nat % 2 == 0
        && 16nat % 4 == 0 && 16nat % 8 == 0);
}

/// The bytes of the signed integer `v`, cut to the given width.
pub open spec fn int_bytes(order: ByteOrder, width: WordSize, v: i64) -> Seq<u8> {
    uint_bytes(order, wrapped(v as int, width.spec_size()), width.spec_size())
}

/// The signed integer of the given width in the bytes from `at` on.
pub open spec fn int_at(order: ByteOrder, width: WordSize, bytes: Seq<u8>, at: int) -> i64 {
    let n = width.spec_size();
    signed(uint_value(order, bytes.subrange(at, at + n)), n) as i64
}

/// The 32-bit integer in the bytes from `at` on.
pub open spec fn u32_at(order: ByteOrder, bytes: Seq<u8>, at: int) -> u32 {
    uint_value(order, bytes.subrange(at, at + 4)) as u32
}

/// A signed integer takes as many bytes as its width says, and one that fits in
/// them is read back as it was written.
pub proof fn law_int_written_then_read(order: ByteOrder, width: WordSize, v: i64)
    ensures
        int_bytes(order, width, v).len() == width.spec_size(),
        fits_signed(v as int, width.spec_size()) ==> int_at(
            order,
            width,
            int_bytes(order, width, v),
            0,
        ) == v,
{
    let n = width.spec_size();
    let x = wrapped(v as int, n);
    let s = int_bytes(order, width, v);
    lemma_uint_bytes_len(order, x, n);
    assert(s.subrange(0, n as int) =~= s);
    if fits_signed(v as int, n) {
        law_signed_wrapped(v as int, n);
        law_uint_written_then_read(order, x, n);
    }
}

/// Writing the signed integer that was read from some bytes gives those bytes.
pub proof fn law_int_read_then_written(order: ByteOrder, width: WordSize, bytes: Seq<u8>, at: int)
    requires
        0 <= at,
        at + width.spec_size() <= bytes.len(),
    ensures
        int_bytes(order, width, int_at(order, width, bytes, at)) == bytes.subrange(
            at,
            at + width.spec_size(),
        ),
{
    let n = width.spec_size();
    let s = bytes.subrange(at, at + n);
    lemma_pow256_values();
    lemma_uint_value_bound(order, s);
    law_wrapped_signed(uint_value(order, s), n);
    law_uint_read_then_written(order, s);
}

/// Appends a gap of `n` bytes.
pub(crate) fn push_zeros(buf: &mut Vec<u8>, n: usize)
    ensures
        final(buf)@ == old(buf)@ + zeros(n as nat),
{
    let ghost start = buf@;
    let mut i: usize = 0;
    assert(buf@ =~= start + zeros(0));
    while i < n
        invariant
            i <= n,
            buf@ == start + zeros(i as nat),
        decreases n - i,
    {
        buf.push(0);
        i = i + 1;
        assert(buf@ =~= start + zeros(i as nat));
    }
}

/// Appends the signed integer `v`, cut to the given width.
pub(crate) fn push_int(buf: &mut Vec<u8>, order: ByteOrder, width: WordSize, v: i64)
    ensures
        final(buf)@ == old(buf)@ + int_bytes(order, width, v),
{
    proof {
        lemma_wrapped_values(v as int);
    }
    match width {
        WordSize::Bits32 => {
            assert((v as u32) == v % 0x1_0000_0000) by (bit_vector);
            push_uint(buf, order, v as u32 as u64, 4);
        },
        WordSize::Bits64 => {
            assert(v < 0 ==> (v as u64) == v + 0x1_0000_0000_0000_0000) by (bit_vector);
            assert(v >= 0 ==> (v as u64) == v) by (bit_vector);
            push_uint(buf, order, v as u64, 8);
        },
    }
}

/// Reads the signed integer of the given width in the bytes from `at` on.
pub(crate) fn read_int(bytes: &[u8], at: usize, order: ByteOrder, width: WordSize) -> (r: i64)
    requires
        at + width.spec_size() <= bytes.len(),
    ensures
        r == int_at(order, width, bytes@, at as int),
{
    proof {
        lemma_pow256_values();
    }
    match width {
        WordSize::Bits32 => {
            let x: u64 = read_uint(bytes, at, order, 4);
            assert(x < 0x8000_0000 ==> (x as i32) == x) by (bit_vector);
            assert(0x8000_0000 <= x < 0x1_0000_0000 ==> (x as i32) == x - 0x1_0000_0000)
                by (bit_vector);
            x as i32 as i64
        },
        WordSize::Bits64 => {
            let x: u64 = read_uint(bytes, at, order, 8);
            assert(x < 0x8000_0000_0000_0000 ==> (x as i64) == x) by (bit_vector);
            assert(0x8000_0000_0000_0000 <= x ==> (x as i64) == x - 0x1_0000_0000_0000_0000)
                by (bit_vector);
            x as i64
        },
    }
}

/// The fields of a time stand where C puts them. The microseconds follow the seconds
/// at once, unless they are 64 bits wide behind 32-bit seconds and aligned to eight
/// bytes. A time with a 64-bit field that is aligned to eight bytes takes sixteen.
pub proof fn law_time_layout(abi: Abi)
    ensures
        abi.tv_sec.spec_size() == (if abi.tv_sec is Bits32 {
            4nat
        } else {
            8nat
        }),
        abi.tv_usec.spec_size() == (if abi.tv_usec is Bits32 {
            4nat
        } else {
            8nat
        }),
        abi.usec_at() == (if abi.tv_sec is Bits64 || (abi.tv_usec is Bits64
            && abi.max_align is Eight) {
            8nat
        } else {
            4nat
        }),
        abi.spec_timeval_size() == (if abi.tv_sec is Bits32 && abi.tv_usec is Bits32 {
            8nat
        } else if abi.tv_sec is Bits64 && abi.tv_usec is Bits64 {
            16nat
        } else if abi.max_align is Eight {
            16nat
        } else {
            12nat
        }),
        abi.time_align() == (if abi.max_align is Two {
            2nat
        } else if abi.max_align is Eight && (abi.tv_sec is Bits64 || abi.tv_usec is Bits64) {
            8nat
        } else {
            4nat
        }),
        abi.int_align(4) == (if abi.max_align is Two {
            2nat
        } else {
            4nat
        }),
        abi.max_align.spec_size() == (if abi.max_align is Two {
            2nat
        } else if abi.max_align is Four {
            4nat
        } else {
            8nat
        }),
{
    assert(4nat % 2 == 0 && 4nat % 4 == 0 && 4nat % 8 == 4 && 8nat % 2 == 0 && 8nat % 4 == 0
        && 8nat % 8 == 0 && 12nat % 2 == 0 && 12nat % 4 == 0 && 12nat % 8 == 4 && 16nat % 2 == 0
        && 16nat % 4 == 0 && 16nat % 8 == 0);
}

/// A gap has the given number of bytes, and each of them is zero.
pub proof fn law_zeros(n: nat)
    ensures
        zeros(n).len() == n,
        forall|i: int| 0 <= i < n ==> #[trigger] zeros(n)[i] == 0,
{
}

/// The bytes of a signed integer hold its value modulo the number of patterns.
pub proof fn law_int_bytes(order: ByteOrder, width: WordSize, v: i64)
    ensures
        width is Bits32 ==> int_bytes(order, width, v).len() == 4 && uint_value(
            order,
            int_bytes(order, width, v),
        ) == v as int % 0x1_0000_0000,
        width is Bits64 ==> int_bytes(order, width, v).len() == 8 && uint_value(
            order,
            int_bytes(order, width, v),
        ) == v as int % 0x1_0000_0000_0000_0000,
{
    let n = width.spec_size();
    lemma_pow256_values();
    lemma_wrapped_values(v as int);
    lemma_uint_bytes_len(order, wrapped(v as int, n), n);
    law_uint_written_then_read(order, wrapped(v as int, n), n);
}

/// An integer read is the one in the bytes from the given place on: a signed one is
/// negative where its topmost bit is set.
pub proof fn law_int_at(order: ByteOrder, bytes: Seq<u8>, at: int)
    requires
        0 <= at,
        at + 8 <= bytes.len(),
    ensures
        u32_at(order, bytes, at) == uint_value(order, bytes.subrange(at, at + 4)),
        ({
            let x = uint_value(order, bytes.subrange(at, at + 4)) as int;
            int_at(order, WordSize::Bits32, bytes, at) == (if x < 0x8000_0000 {
                x
            } else {
                x - 0x1_0000_0000
            })
        }),
        ({
            let x = uint_value(order, bytes.subrange(at, at + 8)) as int;
            int_at(order, WordSize::Bits64, bytes, at) == (if x < 0x8000_0000_0000_0000 {
                x
            } else {
                x - 0x1_0000_0000_0000_0000
            })
        }),
{
    lemma_pow256_values();
    lemma_uint_value_bound(order, bytes.subrange(at, at + 4));
    lemma_uint_value_bound(order, bytes.subrange(at, at + 8));
}

} // verus!
