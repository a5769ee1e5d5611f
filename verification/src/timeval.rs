//! Time intervals and their form in a message.

use crate::abi::WordSize;
use crate::byte_order::{lemma_pow256_values, lemma_wrapped_values, signed, wrapped};
use vstd::prelude::*;

verus! {

/// A span of time: whole seconds and the nanoseconds below a second, the two
/// numbers that make up a `std::time::Duration`.
#[derive(Clone, Copy, PartialEq, Eq, Structural, Debug)]
pub struct Interval {
    secs: u64,
    nanos: u32,
}

/// A time in C's `struct timeval`. How wide the fields are depends on the target.
#[derive(Clone, Copy, PartialEq, Eq, Structural, Debug)]
pub struct Timeval {
    pub tv_sec: i64,
    pub tv_usec: i64,
}

impl Interval {
    /// The whole seconds.
    pub closed spec fn secs(self) -> u64 {
        self.secs
    }

    /// The nanoseconds below a second.
    pub closed spec fn nanos(self) -> u32 {
        self.nanos
    }

    /// The nanoseconds stay below a second.
    #[verifier::type_invariant]
    pub open spec fn wf(self) -> bool {
        self.nanos() < 1_000_000_000
    }

    /// The length in nanoseconds.
    pub open spec fn total_nanos(self) -> nat {
        (self.secs() * 1_000_000_000 + self.nanos()) as nat
    }

    /// The interval of `secs` seconds and `nanos` nanoseconds, or `None` if the
    /// nanoseconds make a second or more.
    pub fn new(secs: u64, nanos: u32) -> (r: Option<Interval>)
        ensures
            r is Some <==> nanos < 1_000_000_000,
            r matches Some(t) ==> t.secs() == secs && t.nanos() == nanos && t.wf(),
    {
        if nanos < 1_000_000_000 {
            Some(Interval { secs, nanos })
        } else {
            None
        }
    }

    /// The interval of length zero.
    pub fn zero() -> (r: Interval)
        ensures
            r.secs() == 0,
            r.nanos() == 0,
            r.wf(),
    {
        Interval { secs: 0, nanos: 0 }
    }
}

/// The time in C's form: the seconds cut to the width of the target's `time_t`, and
/// the whole microseconds below a second.
pub open spec fn spec_timeval(time_t: WordSize, t: Interval) -> Timeval {
    let n = time_t.spec_size();
    Timeval {
        tv_sec: signed(wrapped(t.secs() as int, n), n) as i64,
        tv_usec: (t.nanos() / 1000) as i64,
    }
}

/// The time `t` in C's form, for a `time_t` of the given width.
pub fn c_timeval_new(time_t: WordSize, t: Interval) -> (r: Timeval)
    ensures
        r == spec_timeval(time_t, t),
{
    let secs: u64 = t.secs;
    proof {
        lemma_pow256_values();
        lemma_wrapped_values(secs as int);
    }
    let tv_sec: i64 = match time_t {
        WordSize::Bits64 => {
            assert(secs >= 0x8000_0000_0000_0000 ==> (secs as i64) == secs
                - 0x1_0000_0000_0000_0000) by (bit_vector);
            assert(secs < 0x8000_0000_0000_0000 ==> (secs as i64) == secs) by (bit_vector);
            secs as i64
        },
        WordSize::Bits32 => {
            assert(secs % 0x1_0000_0000 >= 0x8000_0000 ==> (secs as i32) == secs % 0x1_0000_0000
                - 0x1_0000_0000) by (bit_vector);
            assert(secs % 0x1_0000_0000 < 0x8000_0000 ==> (secs as i32) == secs % 0x1_0000_0000)
                by (bit_vector);
            secs as i32 as i64
        },
    };
    Timeval { tv_sec, tv_usec: (t.nanos / 1000) as i64 }
}

/// Where the seconds fit in `time_t`, the time in C's form is the interval,
/// rounded down to whole microseconds; the microseconds stay below a second.
pub proof fn law_timeval_rounds_down(time_t: WordSize, t: Interval)
    requires
        t.wf(),
        match time_t {
            WordSize::Bits32 => t.secs() < 0x8000_0000,
            WordSize::Bits64 => t.secs() < 0x8000_0000_0000_0000,
        },
    ensures
        spec_timeval(time_t, t).tv_sec == t.secs(),
        0 <= spec_timeval(time_t, t).tv_usec < 1_000_000,
        spec_timeval(time_t, t).tv_sec * 1_000_000 + spec_timeval(time_t, t).tv_usec
            == t.total_nanos() / 1000,
{
    lemma_pow256_values();
    lemma_wrapped_values(t.secs() as int);
}

/// The seconds of a time in C's form agree with those of the interval modulo the
/// number of values of `time_t` and lie in its range. The microseconds are as many as
/// fit in the nanoseconds.
pub proof fn law_timeval_fields(time_t: WordSize, t: Interval)
    ensures
        time_t is Bits32 ==> -0x8000_0000 <= spec_timeval(time_t, t).tv_sec < 0x8000_0000,
        time_t is Bits32 ==> (t.secs() - spec_timeval(time_t, t).tv_sec) % 0x1_0000_0000 == 0,
        time_t is Bits64 ==> (t.secs() - spec_timeval(time_t, t).tv_sec) % 0x1_0000_0000_0000_0000
            == 0,
        1000 * spec_timeval(time_t, t).tv_usec <= t.nanos() < 1000 * spec_timeval(time_t, t).tv_usec
            + 1000,
        t.wf() <==> t.nanos() < 1_000_000_000,
        t.total_nanos() == t.secs() * 1_000_000_000 + t.nanos(),
{
    lemma_pow256_values();
    lemma_wrapped_values(t.secs() as int);
}

} // verus!
