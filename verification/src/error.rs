use vstd::prelude::*;
use vstd::string::StringExecFns;

use crate::text::{decimal, push_decimal};

verus! {

/// The errors that reading, lexing, parsing and running a Lox program report.
#[derive(Debug, Clone, PartialEq, Eq)]
pub enum LoxError {
    /// A failure outside the language itself, such as reading the script.
    Scan { message: String },
    /// Text that no token starts with, or a string literal that never closes;
    /// `offset` and `length` locate it in the source, in bytes.
    Lex { message: String, offset: usize, length: usize },
    /// Tokens that do not form a program.
    Parse { message: String },
    /// A program that fails while it runs.
    Runtime { message: String },
}

/// How an error reads: its message, and for a lexing error where it lies.
pub open spec fn error_display(e: LoxError) -> Seq<char> {
    match e {
        LoxError::Scan { message } => message@,
        LoxError::Lex { message, offset, length } => message@ + " "@ + decimal(offset as nat)
            + ":"@ + decimal(length as nat),
        LoxError::Parse { message } => message@,
        LoxError::Runtime { message } => message@,
    }
}

impl LoxError {
    /// The error as text.
    pub fn to_string(&self) -> (s: String)
        ensures
            s@ == error_display(*self),
    {
        match self {
            LoxError::Scan { message } => message.clone(),
            LoxError::Lex { message, offset, length } => {
                let mut s = message.clone();
                s.append(" ");
                push_decimal(*offset, &mut s);
                s.append(":");
                push_decimal(*length, &mut s);
                s
            },
            LoxError::Parse { message } => message.clone(),
            LoxError::Runtime { message } => message.clone(),
        }
    }
}

} // verus!
