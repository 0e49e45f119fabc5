//! What can go wrong at the boundaries: subprocess, timeout, parse and terminal I/O failures.

use vstd::prelude::*;
use vstd::string::*;
use crate::number::{decimal, decimal_text};

verus! {

/// Crate-wide result alias.
pub type AppResult<T> = Result<T, AppError>;

/// Everything that can go wrong at the boundaries.
#[derive(Debug, Clone, PartialEq, Eq)]
pub enum AppError {
    /// An external command failed to spawn or exited non-zero.
    Subprocess {
        /// `argv[0]` of the failing command.
        program: String,
        /// Short, secret-free failure summary.
        message: String,
    },
    /// An external command exceeded its timeout.
    Timeout {
        /// `argv[0]` of the timed-out command.
        program: String,
        /// The timeout that elapsed.
        seconds: u64,
    },
    /// A whole payload could not be read.
    Parse(String),
    /// Terminal or event-loop I/O failure.
    Io(String),
}

/// How an error reads.
pub open spec fn error_text(e: AppError) -> Seq<char> {
    match e {
        AppError::Subprocess { program, message } => program@ + ": "@ + message@,
        AppError::Timeout { program, seconds } => program@ + ": timed out after "@ + decimal(
            seconds as nat,
        ) + "s"@,
        AppError::Parse(message) => "parse: "@ + message@,
        AppError::Io(message) => "io: "@ + message@,
    }
}

impl AppError {
    /// The error in one line, for the footer and the doctor.
    pub fn message(&self) -> (r: String)
        ensures
            r@ == error_text(*self),
    {
        let mut out = String::new();
        match self {
            AppError::Subprocess { program, message } => {
                out.append(program.as_str());
                out.append(": ");
                out.append(message.as_str());
            },
            AppError::Timeout { program, seconds } => {
                out.append(program.as_str());
                out.append(": timed out after ");
                out.append(decimal_text(*seconds).as_str());
                out.append("s");
            },
            AppError::Parse(message) => {
                out.append("parse: ");
                out.append(message.as_str());
            },
            AppError::Io(message) => {
                out.append("io: ");
                out.append(message.as_str());
            },
        }
        assert(out@ =~= error_text(*self));
        out
    }
}

/// An error reads as its program, a colon and what went wrong; a timeout tells its seconds.
pub proof fn errors_read_in_one_line(program: String, message: String, seconds: u64)
    ensures
        error_text(AppError::Subprocess { program, message }) == program@ + ": "@ + message@,
        error_text(AppError::Timeout { program, seconds }) == program@ + ": timed out after "@
            + decimal(seconds as nat) + "s"@,
        error_text(AppError::Parse(message)) == "parse: "@ + message@,
        error_text(AppError::Io(message)) == "io: "@ + message@,
{
}

} // verus!
