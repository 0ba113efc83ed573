use vstd::prelude::*;

use crate::text::push_str;

verus! {

/// Why a calculation could not be carried out.
#[derive(Debug, PartialEq)]
pub enum CalcError {
    DivisionByZero,
    MissingParameter(String),
    InvalidParameter(String),
}

impl CalcError {
    /// The human-readable description of the error.
    pub open spec fn message(&self) -> Seq<char> {
        match self {
            CalcError::DivisionByZero => "Division by zero"@,
            CalcError::MissingParameter(p) => "Missing parameter '"@ + p@ + "'"@,
            CalcError::InvalidParameter(msg) => "Invalid parameter: "@ + msg@,
        }
    }

    /// The human-readable description of the error.
    pub fn to_string(&self) -> (s: String)
        ensures
            s@ == self.message(),
    {
        match self {
            CalcError::DivisionByZero => String::from_str("Division by zero"),
            CalcError::MissingParameter(p) => {
                let mut s = String::from_str("Missing parameter '");
                push_str(&mut s, p.as_str());
                push_str(&mut s, "'");
                s
            },
            CalcError::InvalidParameter(msg) => {
                let mut s = String::from_str("Invalid parameter: ");
                push_str(&mut s, msg.as_str());
                s
            },
        }
    }
}

} // verus!
