//! The errors that end the interpretation of a line, and their messages.
use vstd::prelude::*;
use crate::text::{decimal, decimal_of, string_of};

verus! {

/// Why the interpretation of a line stopped early.
pub enum FarError {
    /// A reserved character stands inside a longer unit (the unit is kept).
    Reserved(String),
    /// A unit holds a character that is neither a digit nor reserved.
    Foreign(String),
    /// `$` met a number whose integer part is not a byte.
    BadCode(i64),
    /// `\` stops the innermost loop.
    Break,
    /// Reading a line of input failed (the reader's message is kept).
    Input(String),
}

/// The mathematical value of a `FarError`.
pub enum Fault {
    Reserved(Seq<char>),
    Foreign(Seq<char>),
    BadCode(int),
    Break,
    Input(Seq<char>),
}

impl View for FarError {
    type V = Fault;

    open spec fn view(&self) -> Fault {
        match self {
            FarError::Reserved(u) => Fault::Reserved(u@),
            FarError::Foreign(u) => Fault::Foreign(u@),
            FarError::BadCode(n) => Fault::BadCode(*n as int),
            FarError::Break => Fault::Break,
            FarError::Input(m) => Fault::Input(m@),
        }
    }
}

/// The text that is printed after `[error]` for a fault.
pub open spec fn fault_message(f: Fault) -> Seq<char> {
    match f {
        Fault::Reserved(u) => "reserved commands cannot appear as postfix, prefix or infix: "@ + u,
        Fault::Foreign(u) => "non-reserved, non-numeric sequences aren't allowed: "@ + u,
        Fault::BadCode(n) => "invalid UTF-8 character code: "@ + decimal(n),
        Fault::Break => "break"@,
        Fault::Input(m) => m,
    }
}

impl FarError {
    /// The message of this error, as the interpreter prints it.
    pub fn message(&self) -> (m: String)
        ensures
            m@ == fault_message(self@),
    {
        match self {
            FarError::Reserved(u) => {
                let mut m = String::from_str("reserved commands cannot appear as postfix, prefix or infix: ");
                m.append(u.as_str());
                proof {
                    reveal_strlit("reserved commands cannot appear as postfix, prefix or infix: ");
                }
                m
            },
            FarError::Foreign(u) => {
                let mut m = String::from_str("non-reserved, non-numeric sequences aren't allowed: ");
                m.append(u.as_str());
                proof {
                    reveal_strlit("non-reserved, non-numeric sequences aren't allowed: ");
                }
                m
            },
            FarError::BadCode(n) => {
                let mut m = String::from_str("invalid UTF-8 character code: ");
                let d = decimal_of(*n);
                let ds = string_of(d.as_slice());
                m.append(ds.as_str());
                proof {
                    reveal_strlit("invalid UTF-8 character code: ");
                }
                m
            },
            FarError::Break => {
                proof {
                    reveal_strlit("break");
                }
                String::from_str("break")
            },
            FarError::Input(msg) => msg.clone(),
        }
    }

    /// Whether this is the error that `\` raises to leave a loop.
    pub fn is_break(&self) -> (r: bool)
        ensures
            r == (self@ is Break),
    {
        match self {
            FarError::Break => true,
            _ => false,
        }
    }
}

} // verus!
