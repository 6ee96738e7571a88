//! The error type of every rule and room operation.

use vstd::prelude::*;
use crate::types::CombinationDeclaration;

verus! {

/// Machine-readable details attached to an error.
#[derive(Debug)]
pub enum ErrorDetails {
    /// An explicit empty detail.
    Null,
    /// A free-form description, used for internal errors.
    Text(String),
    /// The combinations that an ambiguous selection could be declared as.
    Options(Vec<CombinationDeclaration>),
    /// The room version that a stale command should have carried.
    ExpectedVersion(u64),
    /// Validation messages of a malformed request.
    Messages(Vec<String>),
}

impl Clone for ErrorDetails {
    fn clone(&self) -> (r: Self) {
        match self {
            ErrorDetails::Null => ErrorDetails::Null,
            ErrorDetails::Text(s) => ErrorDetails::Text(s.clone()),
            ErrorDetails::Options(v) => ErrorDetails::Options(v.clone()),
            ErrorDetails::ExpectedVersion(n) => ErrorDetails::ExpectedVersion(*n),
            ErrorDetails::Messages(v) => ErrorDetails::Messages(v.clone()),
        }
    }
}

/// A refused operation: a stable code, a human-readable message and optional details.
#[derive(Debug)]
pub struct RuleError {
    pub code: String,
    pub message: String,
    pub details: Option<ErrorDetails>,
}

impl Clone for RuleError {
    fn clone(&self) -> (r: Self) {
        RuleError {
            code: self.code.clone(),
            message: self.message.clone(),
            details: match &self.details {
                Some(d) => Some(d.clone()),
                None => None,
            },
        }
    }
}

/// The message shown for internal errors.
pub open spec fn internal_message() -> Seq<char> {
    "服务器内部错误"@
}

impl RuleError {
    /// An error with the given code and message and no details.
    pub fn new(code: &str, message: &str) -> (e: RuleError)
        ensures
            e.code@ == code@,
            e.message@ == message@,
            e.details is None,
    {
        RuleError { code: code.to_owned(), message: message.to_owned(), details: None }
    }

    /// The same error carrying `details`.
    pub fn with_details(self, details: ErrorDetails) -> (e: RuleError)
        ensures
            e.code == self.code,
            e.message == self.message,
            e.details == Some(details),
    {
        RuleError { code: self.code, message: self.message, details: Some(details) }
    }

    /// An internal error whose details describe what went wrong.
    pub(crate) fn internal(details: &str) -> (e: RuleError)
        ensures
            e.code@ == "INTERNAL_ERROR"@,
            e.message@ == internal_message(),
            e.details matches Some(ErrorDetails::Text(t)) && t@ == details@,
    {
        RuleError::new("INTERNAL_ERROR", "服务器内部错误").with_details(
            ErrorDetails::Text(details.to_owned()),
        )
    }
}

/// The decimal digits of a natural number.
pub open spec fn decimal(n: nat) -> Seq<char>
    decreases n,
{
    if n < 10 {
        seq![digit_char(n)]
    } else {
        decimal(n / 10).push(digit_char(n % 10))
    }
}

/// The decimal digit character of `d` (below 10).
pub open spec fn digit_char(d: nat) -> char {
    if d == 0 {
        '0'
    } else if d == 1 {
        '1'
    } else if d == 2 {
        '2'
    } else if d == 3 {
        '3'
    } else if d == 4 {
        '4'
    } else if d == 5 {
        '5'
    } else if d == 6 {
        '6'
    } else if d == 7 {
        '7'
    } else if d == 8 {
        '8'
    } else {
        '9'
    }
}

fn digit_str(d: u64) -> (s: &'static str)
    requires
        d < 10,
    ensures
        s@ == seq![digit_char(d as nat)],
{
    proof {
        reveal_strlit("0");
        reveal_strlit("1");
        reveal_strlit("2");
        reveal_strlit("3");
        reveal_strlit("4");
        reveal_strlit("5");
        reveal_strlit("6");
        reveal_strlit("7");
        reveal_strlit("8");
        reveal_strlit("9");
    }
    if d == 0 {
        "0"
    } else if d == 1 {
        "1"
    } else if d == 2 {
        "2"
    } else if d == 3 {
        "3"
    } else if d == 4 {
        "4"
    } else if d == 5 {
        "5"
    } else if d == 6 {
        "6"
    } else if d == 7 {
        "7"
    } else if d == 8 {
        "8"
    } else {
        "9"
    }
}

/// Appends the decimal representation of `n` to `s`.
pub fn append_decimal(s: &mut String, n: u64)
    ensures
        final(s)@ == old(s)@ + decimal(n as nat),
    decreases n,
{
    if n < 10 {
        s.append(digit_str(n));
    } else {
        append_decimal(s, n / 10);
        s.append(digit_str(n % 10));
    }
}

} // verus!
