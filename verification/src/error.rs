//! The ways in which building or combining field elements can fail.

use crate::decimal::{numeral, numeral_of};
use vstd::prelude::*;
use vstd::string::*;

verus! {

/// Why a field element could not be built, or two could not be combined.
#[derive(Clone, Copy, Debug, PartialEq, Eq, Structural)]
pub enum FieldError {
    /// `num` is not in `[0, prime - 1]`, so it names no element of the field
    /// of order `prime`.
    Range { num: i64, prime: i64 },
    /// The two operands belong to fields of different order.
    FieldMismatch,
    /// The divisor is the zero element.
    DivisionByZero,
}

impl FieldError {
    /// What [`FieldError::message`] says: for a range error, the rejected
    /// number and the last number of the valid range `[0, prime - 1]`.
    pub open spec fn message_text(self) -> Seq<char> {
        match self {
            FieldError::Range { num, prime } => "Num "@ + numeral(num as int)
                + " not in field range 0 to "@ + numeral(prime - 1),
            FieldError::FieldMismatch => "Cannot combine two numbers in different Fields"@,
            FieldError::DivisionByZero => "Cannot divide by the zero element of a Field"@,
        }
    }

    /// A sentence that describes the error.
    pub fn message(&self) -> (s: String)
        ensures
            s@ == self.message_text(),
    {
        match self {
            FieldError::Range { num, prime } => {
                let mut s = String::from_str("Num ");
                let rejected = numeral_of(*num as i128);
                s.append(rejected.as_str());
                s.append(" not in field range 0 to ");
                let last = numeral_of(*prime as i128 - 1);
                s.append(last.as_str());
                assert(s@ =~= self.message_text());
                s
            },
            FieldError::FieldMismatch => String::from_str(
                "Cannot combine two numbers in different Fields",
            ),
            FieldError::DivisionByZero => String::from_str(
                "Cannot divide by the zero element of a Field",
            ),
        }
    }
}

} // verus!
