//! Unsigned and two's complement integers as byte strings of a fixed width.

use vstd::prelude::*;

verus! {

/// The order in which a machine stores the bytes of an integer.
#[derive(Clone, Copy, PartialEq, Eq, Structural, Debug)]
pub enum ByteOrder {
    /// least significant byte first
    Little,
    /// most significant byte first
    Big,
}

/// The number of values that `n` bytes can hold.
pub open spec fn pow256(n: nat) -> nat
    decreases n,
{
    if n == 0 {
        1
    } else {
        256 * pow256((n - 1) as nat)
    }
}

/// The lowest `n` bytes of `x`, least significant first.
pub open spec fn le_bytes(x: nat, n: nat) -> Seq<u8>
    decreases n,
{
    if n == 0 {
        Seq::empty()
    } else {
        seq![(x % 256) as u8] + le_bytes(x / 256, (n - 1) as nat)
    }
}

/// The number whose bytes, least significant first, are `s`.
pub open spec fn le_value(s: Seq<u8>) -> nat
    decreases s.len(),
{
    if s.len() == 0 {
        0
    } else {
        s[0] as nat + 256 * le_value(s.drop_first())
    }
}

/// The lowest `n` bytes of `x` in the given order.
pub open spec fn uint_bytes(order: ByteOrder, x: nat, n: nat) -> Seq<u8> {
    match order {
        ByteOrder::Little => le_bytes(x, n),
        ByteOrder::Big => le_bytes(x, n).reverse(),
    }
}

/// The number whose bytes in the given order are `s`.
pub open spec fn uint_value(order: ByteOrder, s: Seq<u8>) -> nat {
    match order {
        ByteOrder::Little => le_value(s),
        ByteOrder::Big => le_value(s.reverse()),
    }
}

/// The two's complement pattern of `v` in `n` bytes: `v` modulo `256^n`.
pub open spec fn wrapped(v: int, n: nat) -> nat {
    (v % (pow256(n) as int)) as nat
}

/// The signed number whose two's complement pattern in `n` bytes is `x`.
pub open spec fn signed(x: nat, n: nat) -> int {
    if 2 * x >= pow256(n) {
        x - pow256(n)
    } else {
        x as int
    }
}

/// `v` is one of the values that a signed integer of `n` bytes takes.
pub open spec fn fits_signed(v: int, n: nat) -> bool {
    -(pow256(n) as int) <= 2 * v < pow256(n)
}

/// The values of `pow256` for the widths of C's integer types.
pub(crate) proof fn lemma_pow256_values()
    ensures
        pow256(0) == 1,
        pow256(1) == 0x100,
        pow256(2) == 0x1_0000,
        pow256(4) == 0x1_0000_0000,
        pow256(8) == 0x1_0000_0000_0000_0000,
{
    reveal_with_fuel(pow256, 9);
}

/// The two's complement patterns in the widths of C's integer types.
pub(crate) proof fn lemma_wrapped_values(v: int)
    ensures
        wrapped(v, 2) == v % 0x1_0000,
        wrapped(v, 4) == v % 0x1_0000_0000,
        wrapped(v, 8) == v % 0x1_0000_0000_0000_0000,
{
    lemma_pow256_values();
}

/// What is appended to a sequence is appended to its last part.
pub(crate) proof fn lemma_append(a: Seq<u8>, b: Seq<u8>, c: Seq<u8>)
    ensures
        (a + b) + c == a + (b + c),
{
    assert((a + b) + c =~= a + (b + c));
}

/// The bytes up to `j` are those up to `i` and those from there to `j`.
pub(crate) proof fn lemma_take_extended(s: Seq<u8>, i: int, j: int)
    requires
        0 <= i <= j <= s.len(),
    ensures
        s.take(i) + s.subrange(i, j) == s.take(j),
{
    assert(s.take(i) + s.subrange(i, j) =~= s.take(j));
}

/// Where bytes begin with two parts, the second stands behind the first.
pub(crate) proof fn lemma_last_part(s: Seq<u8>, a: Seq<u8>, b: Seq<u8>)
    requires
        (a + b).len() <= s.len(),
        s.take((a + b).len() as int) == a + b,
    ensures
        s.take(a.len() as int) == a,
        s.subrange(a.len() as int, (a + b).len() as int) == b,
{
    let t = s.take((a + b).len() as int);
    assert(s.take(a.len() as int) =~= t.take(a.len() as int));
    assert(t.take(a.len() as int) =~= a);
    assert(s.subrange(a.len() as int, (a + b).len() as int) =~= t.skip(a.len() as int));
    assert(t.skip(a.len() as int) =~= b);
}

proof fn lemma_pow256_positive(n: nat)
    ensures
        pow256(n) >= 1,
    decreases n,
{
    if n > 0 {
        lemma_pow256_positive((n - 1) as nat);
    }
}

proof fn lemma_pow256_monotonic(m: nat, n: nat)
    requires
        m <= n,
    ensures
        pow256(m) <= pow256(n),
    decreases n,
{
    if m < n {
        lemma_pow256_monotonic(m, (n - 1) as nat);
    }
}

proof fn lemma_le_bytes_len(x: nat, n: nat)
    ensures
        le_bytes(x, n).len() == n,
    decreases n,
{
    if n > 0 {
        lemma_le_bytes_len(x / 256, (n - 1) as nat);
    }
}

proof fn lemma_le_value_bound(s: Seq<u8>)
    ensures
        le_value(s) < pow256(s.len()),
    decreases s.len(),
{
    if s.len() > 0 {
        lemma_le_value_bound(s.drop_first());
    }
}

proof fn lemma_le_value_of_bytes(x: nat, n: nat)
    requires
        x < pow256(n),
    ensures
        le_value(le_bytes(x, n)) == x,
    decreases n,
{
    if n > 0 {
        let m = (n - 1) as nat;
        lemma_le_value_of_bytes(x / 256, m);
        lemma_le_bytes_len(x / 256, m);
        assert(le_bytes(x, n).drop_first() =~= le_bytes(x / 256, m));
    }
}

proof fn lemma_le_bytes_of_value(s: Seq<u8>)
    ensures
        le_bytes(le_value(s), s.len()) == s,
    decreases s.len(),
{
    if s.len() > 0 {
        let rest = s.drop_first();
        lemma_le_bytes_of_value(rest);
        assert(le_value(s) % 256 == s[0] && le_value(s) / 256 == le_value(rest));
        assert(le_bytes(le_value(s), s.len()) =~= seq![s[0]] + rest);
        assert(seq![s[0]] + rest =~= s);
    } else {
        assert(le_bytes(le_value(s), s.len()) =~= s);
    }
}

/// An integer written in `n` bytes takes `n` bytes.
pub(crate) proof fn lemma_uint_bytes_len(order: ByteOrder, x: nat, n: nat)
    ensures
        uint_bytes(order, x, n).len() == n,
{
    lemma_le_bytes_len(x, n);
}

/// An integer read from `n` bytes is below `256^n`.
pub(crate) proof fn lemma_uint_value_bound(order: ByteOrder, s: Seq<u8>)
    ensures
        uint_value(order, s) < pow256(s.len()),
{
    lemma_le_value_bound(s);
    lemma_le_value_bound(s.reverse());
}

/// Reading back an integer that fits in `n` bytes gives the integer that was written.
pub proof fn law_uint_written_then_read(order: ByteOrder, x: nat, n: nat)
    requires
        x < pow256(n),
    ensures
        uint_value(order, uint_bytes(order, x, n)) == x,
{
    lemma_le_value_of_bytes(x, n);
    assert(le_bytes(x, n).reverse().reverse() =~= le_bytes(x, n));
}

/// Writing the integer that was read from some bytes gives those bytes.
pub proof fn law_uint_read_then_written(order: ByteOrder, s: Seq<u8>)
    ensures
        uint_bytes(order, uint_value(order, s), s.len()) == s,
{
    lemma_le_bytes_of_value(s);
    lemma_le_bytes_of_value(s.reverse());
    assert(s.reverse().reverse() =~= s);
}

/// The two's complement pattern of a value that fits in `n` bytes stands for that value.
pub proof fn law_signed_wrapped(v: int, n: nat)
    requires
        fits_signed(v, n),
    ensures
        wrapped(v, n) < pow256(n),
        signed(wrapped(v, n), n) == v,
{
    let p = pow256(n) as int;
    lemma_pow256_positive(n);
    if v >= 0 {
        vstd::arithmetic::div_mod::lemma_small_mod(v as nat, p as nat);
    } else {
        vstd::arithmetic::div_mod::lemma_mod_add_multiples_vanish(v, p);
        vstd::arithmetic::div_mod::lemma_small_mod((v + p) as nat, p as nat);
    }
}

/// The value that a two's complement pattern stands for has that pattern, and fits.
pub proof fn law_wrapped_signed(x: nat, n: nat)
    requires
        x < pow256(n),
    ensures
        fits_signed(signed(x, n), n),
        wrapped(signed(x, n), n) == x,
{
    let p = pow256(n) as int;
    vstd::arithmetic::div_mod::lemma_small_mod(x, p as nat);
    if 2 * x >= p {
        vstd::arithmetic::div_mod::lemma_mod_add_multiples_vanish(x - p, p);
    }
}

/// Appends the lowest `n` bytes of `x`.
pub(crate) fn push_uint(buf: &mut Vec<u8>, order: ByteOrder, x: u64, n: usize)
    requires
        n <= 8,
    ensures
        final(buf)@ == old(buf)@ + uint_bytes(order, x as nat, n as nat),
{
    let mut digits: Vec<u8> = Vec::new();
    let mut rest: u64 = x;
    let mut i: usize = 0;
    while i < n
        invariant
            i <= n <= 8,
            digits@ + le_bytes(rest as nat, (n - i) as nat) == le_bytes(x as nat, n as nat),
            digits@.len() == i,
        decreases n - i,
    {
        let ghost before = digits@;
        let ghost tail = le_bytes((rest / 256) as nat, (n - i - 1) as nat);
        digits.push((rest % 256) as u8);
        proof {
            assert(before + le_bytes(rest as nat, (n - i) as nat) =~= digits@ + tail);
        }
        rest = rest / 256;
        i = i + 1;
    }
    assert(digits@ =~= le_bytes(x as nat, n as nat));
    let ghost start = buf@;
    let ghost out = uint_bytes(order, x as nat, n as nat);
    let mut k: usize = 0;
    while k < n
        invariant
            k <= n <= 8,
            digits@.len() == n,
            digits@ == le_bytes(x as nat, n as nat),
            out == uint_bytes(order, x as nat, n as nat),
            buf@ == start + out.take(k as int),
        decreases n - k,
    {
        let at: usize = if order == ByteOrder::Little {
            k
        } else {
            n - 1 - k
        };
        buf.push(digits[at]);
        proof {
            assert(out[k as int] == digits@[at as int]);
            assert(out.take(k + 1) =~= out.take(k as int).push(out[k as int]));
            assert(buf@ =~= start + out.take(k + 1));
        }
        k = k + 1;
    }
    assert(out.take(n as int) =~= out);
}

/// Reads the integer in the `n` bytes from `at` on.
pub(crate) fn read_uint(bytes: &[u8], at: usize, order: ByteOrder, n: usize) -> (r: u64)
    requires
        n <= 8,
        at + n <= bytes.len(),
    ensures
        r == uint_value(order, bytes@.subrange(at as int, at + n)),
        r < pow256(n as nat),
{
    let ghost s = match order {
        ByteOrder::Little => bytes@.subrange(at as int, at + n),
        ByteOrder::Big => bytes@.subrange(at as int, at + n).reverse(),
    };
    let mut acc: u64 = 0;
    let mut i: usize = n;
    assert(s.skip(n as int) =~= Seq::empty());
    while i > 0
        invariant
            i <= n <= 8,
            at + n <= bytes.len(),
            s == (match order {
                ByteOrder::Little => bytes@.subrange(at as int, at + n),
                ByteOrder::Big => bytes@.subrange(at as int, at + n).reverse(),
            }),
            acc == le_value(s.skip(i as int)),
        decreases i,
    {
        let index: usize = if order == ByteOrder::Little {
            at + (i - 1)
        } else {
            at + (n - i)
        };
        let ghost tail = s.skip(i as int);
        let ghost longer = s.skip(i - 1);
        proof {
            assert(s[i - 1] == bytes@[index as int]);
            assert(longer.drop_first() =~= tail);
            lemma_le_value_bound(longer);
            lemma_pow256_monotonic(longer.len(), 8);
            lemma_pow256_values();
        }
        acc = acc * 256 + bytes[index] as u64;
        i = i - 1;
    }
    proof {
        assert(s.skip(0) =~= s);
        lemma_le_value_bound(s);
    }
    acc
}

/// The 2 bytes of an integer are its digits in base 256: the least significant
/// stands first in little endian order and last in big endian order.
pub proof fn law_uint_bytes_2(order: ByteOrder, x: nat)
    ensures
        uint_bytes(order, x, 2).len() == 2,
        order is Little ==> ({
            let s = uint_bytes(order, x, 2);
            &&& s[0] == x % 256
            &&& s[1] == x / 0x100 % 256
        }),
        order is Big ==> ({
            let s = uint_bytes(order, x, 2);
            &&& s[0] == x / 0x100 % 256
            &&& s[1] == x % 256
        }),
{
    reveal_with_fuel(le_bytes, 3);

}

/// The integer in 2 bytes is the sum of its digits in base 256: the least
/// significant stands first in little endian order and last in big endian order.
pub proof fn law_uint_value_2(order: ByteOrder, s: Seq<u8>)
    requires
        s.len() == 2,
    ensures
        order is Little ==> uint_value(order, s) == s[0] + 0x100 * s[1],
        order is Big ==> uint_value(order, s) == 0x100 * s[0] + s[1],
{
    reveal_with_fuel(le_value, 3);
}

/// The 4 bytes of an integer are its digits in base 256: the least significant
/// stands first in little endian order and last in big endian order.
pub proof fn law_uint_bytes_4(order: ByteOrder, x: nat)
    ensures
        uint_bytes(order, x, 4).len() == 4,
        order is Little ==> ({
            let s = uint_bytes(order, x, 4);
            &&& s[0] == x % 256
            &&& s[1] == x / 0x100 % 256
            &&& s[2] == x / 0x1_0000 % 256
            &&& s[3] == x / 0x100_0000 % 256
        }),
        order is Big ==> ({
            let s = uint_bytes(order, x, 4);
            &&& s[0] == x / 0x100_0000 % 256
            &&& s[1] == x / 0x1_0000 % 256
            &&& s[2] == x / 0x100 % 256
            &&& s[3] == x % 256
        }),
{
    reveal_with_fuel(le_bytes, 5);
    vstd::arithmetic::div_mod::lemma_div_denominator(x as int, 0x100, 256);
    vstd::arithmetic::div_mod::lemma_div_denominator(x as int, 0x1_0000, 256);
}

/// The integer in 4 bytes is the sum of its digits in base 256: the least
/// significant stands first in little endian order and last in big endian order.
pub proof fn law_uint_value_4(order: ByteOrder, s: Seq<u8>)
    requires
        s.len() == 4,
    ensures
        order is Little ==> uint_value(order, s) == s[0]
            + 0x100 * s[1] + 0x1_0000 * s[2] + 0x100_0000 * s[3],
        order is Big ==> uint_value(order, s) == 0x100_0000 * s[0]
            + 0x1_0000 * s[1] + 0x100 * s[2] + s[3],
{
    reveal_with_fuel(le_value, 5);
}

/// The 8 bytes of an integer are its digits in base 256: the least significant
/// stands first in little endian order and last in big endian order.
pub proof fn law_uint_bytes_8(order: ByteOrder, x: nat)
    ensures
        uint_bytes(order, x, 8).len() == 8,
        order is Little ==> ({
            let s = uint_bytes(order, x, 8);
            &&& s[0] == x % 256
            &&& s[1] == x / 0x100 % 256
            &&& s[2] == x / 0x1_0000 % 256
            &&& s[3] == x / 0x100_0000 % 256
            &&& s[4] == x / 0x1_0000_0000 % 256
            &&& s[5] == x / 0x100_0000_0000 % 256
            &&& s[6] == x / 0x1_0000_0000_0000 % 256
            &&& s[7] == x / 0x100_0000_0000_0000 % 256
        }),
        order is Big ==> ({
            let s = uint_bytes(order, x, 8);
            &&& s[0] == x / 0x100_0000_0000_0000 % 256
            &&& s[1] == x / 0x1_0000_0000_0000 % 256
            &&& s[2] == x / 0x100_0000_0000 % 256
            &&& s[3] == x / 0x1_0000_0000 % 256
            &&& s[4] == x / 0x100_0000 % 256
            &&& s[5] == x / 0x1_0000 % 256
            &&& s[6] == x / 0x100 % 256
            &&& s[7] == x % 256
        }),
{
    reveal_with_fuel(le_bytes, 9);
    vstd::arithmetic::div_mod::lemma_div_denominator(x as int, 0x100, 256);
    vstd::arithmetic::div_mod::lemma_div_denominator(x as int, 0x1_0000, 256);
    vstd::arithmetic::div_mod::lemma_div_denominator(x as int, 0x100_0000, 256);
    vstd::arithmetic::div_mod::lemma_div_denominator(x as int, 0x1_0000_0000, 256);
    vstd::arithmetic::div_mod::lemma_div_denominator(x as int, 0x100_0000_0000, 256);
    vstd::arithmetic::div_mod::lemma_div_denominator(x as int, 0x1_0000_0000_0000, 256);
}

/// The integer in 8 bytes is the sum of its digits in base 256: the least
/// significant stands first in little endian order and last in big endian order.
pub proof fn law_uint_value_8(order: ByteOrder, s: Seq<u8>)
    requires
        s.len() == 8,
    ensures
        order is Little ==> uint_value(order, s) == s[0]
            + 0x100 * s[1] + 0x1_0000 * s[2] + 0x100_0000 * s[3] + 0x1_0000_0000 * s[4]
            + 0x100_0000_0000 * s[5] + 0x1_0000_0000_0000 * s[6] + 0x100_0000_0000_0000 * s[7],
        order is Big ==> uint_value(order, s) == 0x100_0000_0000_0000 * s[0]
            + 0x1_0000_0000_0000 * s[1] + 0x100_0000_0000 * s[2] + 0x1_0000_0000 * s[3]
            + 0x100_0000 * s[4] + 0x1_0000 * s[5] + 0x100 * s[6] + s[7],
{
    reveal_with_fuel(le_value, 9);
}

/// In two, four and eight bytes, a pattern is the value modulo the number of
/// patterns; one in the upper half stands for a negative value; and the values that
/// fit are those of the signed integers of that width.
pub proof fn law_twos_complement(v: int, x: nat)
    ensures
        wrapped(v, 2) == v % 0x1_0000,
        wrapped(v, 4) == v % 0x1_0000_0000,
        wrapped(v, 8) == v % 0x1_0000_0000_0000_0000,
        signed(x, 2) == (if x < 0x8000 {
            x as int
        } else {
            x - 0x1_0000
        }),
        signed(x, 4) == (if x < 0x8000_0000 {
            x as int
        } else {
            x - 0x1_0000_0000
        }),
        signed(x, 8) == (if x < 0x8000_0000_0000_0000 {
            x as int
        } else {
            x - 0x1_0000_0000_0000_0000
        }),
        fits_signed(v, 2) <==> -0x8000 <= v < 0x8000,
        fits_signed(v, 4) <==> -0x8000_0000 <= v < 0x8000_0000,
        fits_signed(v, 8) <==> -0x8000_0000_0000_0000 <= v < 0x8000_0000_0000_0000,
        pow256(2) == 0x1_0000,
        pow256(4) == 0x1_0000_0000,
        pow256(8) == 0x1_0000_0000_0000_0000,
{
    lemma_pow256_values();
    lemma_wrapped_values(v);
}

} // verus!
