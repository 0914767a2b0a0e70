use vstd::prelude::*;

use crate::symbol::{render, Symbol};
use crate::text::{decimal, push_decimal, push_text};

verus! {

/// The error code of a runtime error in clingo's C interface.
pub const ERROR_RUNTIME: i32 = 1;

/// The error code of a logic error in clingo's C interface.
pub const ERROR_LOGIC: i32 = 2;

/// The error code of a failed allocation in clingo's C interface.
pub const ERROR_BAD_ALLOC: i32 = 3;

/// Error codes reported by the clingo library.
#[derive(Debug, Clone, Copy, PartialEq, Eq, Structural)]
pub enum ClingoErrorCode {
    Runtime,
    Logic,
    BadAlloc,
    Unknown,
}

impl ClingoErrorCode {
    /// The code for a raw error code of clingo's C interface; codes that
    /// are not known map to `Unknown`.
    pub fn from_raw(code: i32) -> (r: ClingoErrorCode)
        ensures
            r == (if code == ERROR_RUNTIME {
                ClingoErrorCode::Runtime
            } else if code == ERROR_LOGIC {
                ClingoErrorCode::Logic
            } else if code == ERROR_BAD_ALLOC {
                ClingoErrorCode::BadAlloc
            } else {
                ClingoErrorCode::Unknown
            }),
    {
        if code == ERROR_RUNTIME {
            ClingoErrorCode::Runtime
        } else if code == ERROR_LOGIC {
            ClingoErrorCode::Logic
        } else if code == ERROR_BAD_ALLOC {
            ClingoErrorCode::BadAlloc
        } else {
            ClingoErrorCode::Unknown
        }
    }

    /// The name of the code, as it is printed in error messages.
    pub open spec fn spec_name(self) -> Seq<char> {
        match self {
            ClingoErrorCode::Runtime => "Runtime"@,
            ClingoErrorCode::Logic => "Logic"@,
            ClingoErrorCode::BadAlloc => "BadAlloc"@,
            ClingoErrorCode::Unknown => "Unknown"@,
        }
    }

    /// The name of the code, as it is printed in error messages.
    pub fn name(self) -> (r: &'static str)
        ensures
            r@ == self.spec_name(),
    {
        match self {
            ClingoErrorCode::Runtime => "Runtime",
            ClingoErrorCode::Logic => "Logic",
            ClingoErrorCode::BadAlloc => "BadAlloc",
            ClingoErrorCode::Unknown => "Unknown",
        }
    }
}

/// An error originating from the clingo library.
#[derive(Debug, Clone)]
pub struct ClingoError {
    pub code: ClingoErrorCode,
    pub message: Option<String>,
}

impl ClingoError {
    /// The text of the error message: `clingo <code>` followed by `: ` and
    /// the message, if there is one.
    pub open spec fn spec_text(&self) -> Seq<char> {
        match self.message {
            Some(m) => "clingo "@ + self.code.spec_name() + ": "@ + m@,
            None => "clingo "@ + self.code.spec_name(),
        }
    }

    /// The error message, as it is displayed.
    pub fn to_string(&self) -> (r: String)
        ensures
            r@ == self.spec_text(),
    {
        let mut r = String::new();
        push_text(&mut r, "clingo ");
        push_text(&mut r, self.code.name());
        match &self.message {
            Some(m) => {
                push_text(&mut r, ": ");
                push_text(&mut r, m.as_str());
            },
            None => {},
        }
        proof {
            reveal_strlit("clingo ");
            reveal_strlit(": ");
        }
        r
    }
}

/// The one error type of the library.
#[derive(Debug)]
pub enum Error {
    /// The clingo library reported a failure.
    Clingo(ClingoError),
    /// A name, string or program text held a zero byte at this byte offset.
    NulByte(usize),
    /// A symbol did not have the shape of the type it was read into.
    TypeMismatch(Symbol),
}

impl Error {
    /// The text of the error message.
    pub open spec fn spec_text(&self) -> Seq<char> {
        match self {
            Error::Clingo(e) => e.spec_text(),
            Error::NulByte(p) => "nul byte found in provided data at position: "@ + decimal(
                *p as nat,
            ),
            Error::TypeMismatch(s) => "type mismatch: cannot read "@ + render(s@),
        }
    }

    /// The error message, as it is displayed.
    pub fn to_string(&self) -> (r: String)
        ensures
            r@ == self.spec_text(),
    {
        match self {
            Error::Clingo(e) => e.to_string(),
            Error::NulByte(p) => {
                let mut r = String::new();
                push_text(&mut r, "nul byte found in provided data at position: ");
                push_decimal(&mut r, *p);
                proof {
                    reveal_strlit("nul byte found in provided data at position: ");
                }
                r
            },
            Error::TypeMismatch(s) => {
                let mut r = String::new();
                push_text(&mut r, "type mismatch: cannot read ");
                let text = s.to_string_lossy().unwrap();
                push_text(&mut r, text.as_str());
                proof {
                    reveal_strlit("type mismatch: cannot read ");
                }
                r
            },
        }
    }
}

impl From<ClingoError> for Error {
    fn from(e: ClingoError) -> (r: Error)
        ensures
            r == Error::Clingo(e),
    {
        Error::Clingo(e)
    }
}

impl vstd::std_specs::convert::FromSpecImpl<ClingoError> for Error {
    open spec fn obeys_from_spec() -> bool {
        true
    }

    open spec fn from_spec(v: ClingoError) -> Error {
        Error::Clingo(v)
    }
}

/// Turn the success flag of a clingo call into a `Result`; on failure the
/// error is read (once) by `read_error`.
pub fn check<F: FnOnce() -> ClingoError>(ok: bool, read_error: F) -> (r: Result<(), ClingoError>)
    requires
        ok || read_error.requires(()),
    ensures
        ok ==> r is Ok,
        !ok ==> (r matches Err(e) && read_error.ensures((), e)),
{
    if ok {
        Ok(())
    } else {
        Err(read_error())
    }
}

} // verus!
