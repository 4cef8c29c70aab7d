//! The errors that stop the virtual machine at run time, each with its
//! message.

use vstd::prelude::*;
use vstd::string::*;

use crate::text::{decimal, push_decimal, push_signed, push_str};

verus! {


/// A recoverable runtime error of the virtual machine.
#[derive(Debug, Clone, PartialEq, Eq)]
pub enum VmError {
    DivisionByZero,
    IntegerOverflow,
    IndexOutOfBounds { index: i64, len: usize },
    StepLimitExceeded(u64),
    /// An invariant the front-end should guarantee was violated: a compiler
    /// bug, surfaced rather than panicked on.
    Internal(&'static str),
}

/// The decimal spelling of a signed integer.
pub open spec fn signed_decimal(n: i64) -> Seq<char> {
    if n < 0 {
        seq!['-'] + decimal((-n) as nat)
    } else {
        decimal(n as nat)
    }
}

/// The message of a runtime error.
pub open spec fn vm_error_text(e: VmError) -> Seq<char> {
    match e {
        VmError::DivisionByZero => "division by zero"@,
        VmError::IntegerOverflow => "integer overflow"@,
        VmError::IndexOutOfBounds { index, len } => "array index "@ + signed_decimal(index) + " out of bounds (length "@
            + decimal(len as nat) + ")"@,
        VmError::StepLimitExceeded(n) => "execution exceeded the step limit ("@ + decimal(n as nat) + " steps)"@,
        VmError::Internal(m) => "internal VM error: "@ + m@,
    }
}

impl VmError {
    /// The error's message.
    pub fn to_string(&self) -> (s: String)
        ensures
            s@ == vm_error_text(*self),
    {
        proof {
            reveal_strlit("division by zero");
            reveal_strlit("integer overflow");
            reveal_strlit("array index ");
            reveal_strlit(" out of bounds (length ");
            reveal_strlit(")");
            reveal_strlit("execution exceeded the step limit (");
            reveal_strlit(" steps)");
            reveal_strlit("internal VM error: ");
        }
        match self {
            VmError::DivisionByZero => "division by zero".to_owned(),
            VmError::IntegerOverflow => "integer overflow".to_owned(),
            VmError::IndexOutOfBounds { index, len } => {
                let mut s = "array index ".to_owned();
                push_signed(&mut s, *index);
                push_str(&mut s, " out of bounds (length ");
                push_decimal(&mut s, *len as u64);
                push_str(&mut s, ")");
                s
            },
            VmError::StepLimitExceeded(n) => {
                let mut s = "execution exceeded the step limit (".to_owned();
                push_decimal(&mut s, *n);
                push_str(&mut s, " steps)");
                s
            },
            VmError::Internal(m) => {
                let mut s = "internal VM error: ".to_owned();
                push_str(&mut s, m);
                s
            },
        }
    }
}


/// Integer division for the VM: dividing by zero is an error, and so is the
/// one quotient that overflows (`i64::MIN / -1`).
pub fn checked_div(a: i64, b: i64) -> (r: Result<i64, VmError>)
    ensures
        b == 0 ==> r == Err::<i64, VmError>(VmError::DivisionByZero),
        b != 0 ==> r == match a.checked_div(b) {
            Some(q) => Ok::<i64, VmError>(q),
            None => Err(VmError::IntegerOverflow),
        },
{
    if b == 0 {
        Err(VmError::DivisionByZero)
    } else {
        match a.checked_div(b) {
            Some(q) => Ok(q),
            None => Err(VmError::IntegerOverflow),
        }
    }
}

/// Integer remainder for the VM: by zero is an error, and so is the one
/// case that overflows (`i64::MIN % -1`).
pub fn checked_rem(a: i64, b: i64) -> (r: Result<i64, VmError>)
    ensures
        b == 0 ==> r == Err::<i64, VmError>(VmError::DivisionByZero),
        b != 0 ==> r == match a.checked_rem(b) {
            Some(q) => Ok::<i64, VmError>(q),
            None => Err(VmError::IntegerOverflow),
        },
{
    if b == 0 {
        Err(VmError::DivisionByZero)
    } else {
        match a.checked_rem(b) {
            Some(q) => Ok(q),
            None => Err(VmError::IntegerOverflow),
        }
    }
}

/// The position an index names in a sequence of `len` elements, if it is
/// within bounds.
pub fn index_in_bounds(index: i64, len: usize) -> (r: Option<usize>)
    ensures
        r == (if 0 <= index < len {
            Some(index as usize)
        } else {
            None::<usize>
        }),
{
    if index < 0 {
        return None;
    }
    if (index as u64) < (len as u64) {
        Some(index as usize)
    } else {
        None
    }
}

} // verus!
