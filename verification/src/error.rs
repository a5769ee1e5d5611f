//! Failures of socket operations.

use crate::text::{decimal, push_decimal};
use vstd::prelude::*;

verus! {

/// Why an operation on a socket failed.
pub enum Error {
    /// a system call failed with the error number `errno`
    Os { errno: i32 },
    /// nothing was written, since the system call failed with the error number `errno`
    WriteZero { errno: i32 },
    /// a write took another number of bytes than it should
    WrongWrite { message: String },
}

/// The kind of a failure.
#[derive(Clone, Copy, PartialEq, Eq, Structural, Debug)]
pub enum ErrorKind {
    /// the kind that the system's error number `errno` belongs to
    Os { errno: i32 },
    /// a write that did not take what it was given
    WriteZero,
}

impl Error {
    /// The kind of the failure: that of the error number for a system call, and
    /// `WriteZero` for every request that was not written as it should be.
    pub open spec fn spec_kind(self) -> ErrorKind {
        match self {
            Error::Os { errno } => ErrorKind::Os { errno },
            Error::WriteZero { .. } => ErrorKind::WriteZero,
            Error::WrongWrite { .. } => ErrorKind::WriteZero,
        }
    }

    /// The kind of the failure.
    pub fn kind(&self) -> (r: ErrorKind)
        ensures
            r == self.spec_kind(),
    {
        match self {
            Error::Os { errno } => ErrorKind::Os { errno: *errno },
            Error::WriteZero { .. } => ErrorKind::WriteZero,
            Error::WrongWrite { .. } => ErrorKind::WriteZero,
        }
    }
}

/// The text that tells of a write of `wrote` bytes in place of `expected`.
pub open spec fn wrong_write_text(wrote: int, expected: int) -> Seq<char> {
    "Wrote "@ + decimal(wrote) + " but expected "@ + decimal(expected)
}

/// The text that tells of a write of `wrote` bytes in place of `expected`.
pub(crate) fn wrong_write_message(wrote: i64, expected: i64) -> (r: String)
    ensures
        r@ == wrong_write_text(wrote as int, expected as int),
{
    let mut message = String::new();
    message.append("Wrote ");
    push_decimal(&mut message, wrote);
    message.append(" but expected ");
    push_decimal(&mut message, expected);
    assert(message@ =~= wrong_write_text(wrote as int, expected as int));
    message
}

/// A failed system call is of the kind of its error number; a request that was not
/// written as it should be is a failed write, whatever the reason.
pub proof fn law_kinds(e: Error)
    ensures
        e is Os ==> e.spec_kind() == (ErrorKind::Os { errno: e->Os_errno }),
        !(e is Os) ==> e.spec_kind() == ErrorKind::WriteZero,
{
}

/// The text of a wrong write names first what was written and then what was
/// expected.
pub proof fn law_wrong_write_text(wrote: int, expected: int)
    ensures
        wrong_write_text(wrote, expected).take(6) == seq!['W', 'r', 'o', 't', 'e', ' '],
        ({
            let n = decimal(wrote).len() as int;
            let t = wrong_write_text(wrote, expected);
            &&& t.subrange(6, 6 + n) == decimal(wrote)
            &&& t.subrange(6 + n, 20 + n) == seq![
                ' ',
                'b',
                'u',
                't',
                ' ',
                'e',
                'x',
                'p',
                'e',
                'c',
                't',
                'e',
                'd',
                ' ',
            ]
            &&& t.skip(20 + n) == decimal(expected)
        }),
{
    reveal_strlit("Wrote ");
    reveal_strlit(" but expected ");
    let n = decimal(wrote).len() as int;
    let t = wrong_write_text(wrote, expected);
    assert(t.take(6) =~= seq!['W', 'r', 'o', 't', 'e', ' ']);
    assert(t.subrange(6, 6 + n) =~= decimal(wrote));
    assert(t.subrange(6 + n, 20 + n) =~= " but expected "@);
    assert(t.skip(20 + n) =~= decimal(expected));
}

} // verus!
