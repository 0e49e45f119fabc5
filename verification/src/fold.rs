//! The status fold: one status per session, and the order in which statuses ask for attention.

use vstd::prelude::*;
use crate::discovery::{NativeStatus, NativeStatusModel};

verus! {

/// Silence, in seconds, after which a busy session counts as stalled.
pub const STALL_AFTER_SECS: u64 = 300;

/// A session's status, as the board shows it.
#[derive(Debug, Clone, Copy, PartialEq, Eq, Structural)]
pub enum Status {
    /// A question to the user is pending.
    NeedsAnswer,
    /// Blocked on input the transcript can't show, such as a permission prompt.
    Waiting,
    /// Busy, but the transcript stopped growing.
    Stalled,
    /// A native status this version doesn't recognize.
    Unknown,
    /// Busy.
    Working,
    /// At the prompt.
    Idle,
    /// In shell mode.
    Shell,
}

/// Whether the transcript has been silent for too long; one that doesn't exist yet is young,
/// not silent.
pub open spec fn silent(secs_since_append: Option<u64>) -> bool {
    secs_since_append matches Some(age) && age > STALL_AFTER_SECS
}

/// The status that native status, pending question and transcript activity fold to.
pub open spec fn folded(
    native: NativeStatusModel,
    pending_question: bool,
    secs_since_append: Option<u64>,
) -> Status {
    match native {
        NativeStatusModel::Other(_) => Status::Unknown,
        _ => if pending_question {
            Status::NeedsAnswer
        } else {
            match native {
                NativeStatusModel::Busy => if silent(secs_since_append) {
                    Status::Stalled
                } else {
                    Status::Working
                },
                NativeStatusModel::Idle => Status::Idle,
                NativeStatusModel::Shell => Status::Shell,
                _ => Status::Waiting,
            }
        },
    }
}

/// Folds native status, pending question and seconds since the transcript last grew.
pub fn status(native: &NativeStatus, pending_question: bool, secs_since_append: Option<u64>) -> (r:
    Status)
    ensures
        r == folded(native@, pending_question, secs_since_append),
        r == Status::Stalled ==> native is Busy && !pending_question,
        native is Waiting && !pending_question ==> r == Status::Waiting,
        native is Idle && !pending_question ==> r == Status::Idle,
        native is Shell && !pending_question ==> r == Status::Shell,
{
    if let NativeStatus::Other(_) = native {
        return Status::Unknown;
    }
    if pending_question {
        return Status::NeedsAnswer;
    }
    match native {
        NativeStatus::Busy => match secs_since_append {
            Some(age) => if age > STALL_AFTER_SECS {
                Status::Stalled
            } else {
                Status::Working
            },
            None => Status::Working,
        },
        NativeStatus::Idle => Status::Idle,
        NativeStatus::Shell => Status::Shell,
        _ => Status::Waiting,
    }
}

/// A native status that is not known is shown as such, whatever else is known of the session; a
/// pending question on any other always asks for an answer; and a session without a transcript
/// is never stalled.
pub proof fn drift_is_never_hidden(
    native: NativeStatusModel,
    pending_question: bool,
    secs_since_append: Option<u64>,
)
    ensures
        folded(native, pending_question, secs_since_append) == Status::Unknown <==> native is Other,
        folded(native, pending_question, secs_since_append) == Status::NeedsAnswer
            <==> pending_question && native !is Other,
        folded(native, pending_question, None) != Status::Stalled,
{
}

/// The attention bucket of a status: the lower, the sooner the board shows it.
pub open spec fn bucket(status: Status) -> u8 {
    match status {
        Status::NeedsAnswer => 0,
        Status::Waiting => 1,
        Status::Stalled => 2,
        Status::Unknown => 3,
        Status::Working => 4,
        Status::Idle => 5,
        Status::Shell => 6,
    }
}

/// The attention bucket of `status`.
pub fn sort_key(status: Status) -> (r: u8)
    ensures
        r == bucket(status),
{
    match status {
        Status::NeedsAnswer => 0,
        Status::Waiting => 1,
        Status::Stalled => 2,
        Status::Unknown => 3,
        Status::Working => 4,
        Status::Idle => 5,
        Status::Shell => 6,
    }
}

/// The name of a status.
pub open spec fn status_name(status: Status) -> Seq<char> {
    match status {
        Status::NeedsAnswer => "NeedsAnswer"@,
        Status::Waiting => "Waiting"@,
        Status::Stalled => "Stalled"@,
        Status::Unknown => "Unknown"@,
        Status::Working => "Working"@,
        Status::Idle => "Idle"@,
        Status::Shell => "Shell"@,
    }
}

impl Status {
    /// The exact variant name.
    pub fn name(self) -> (r: &'static str)
        ensures
            r@ == status_name(self),
    {
        match self {
            Status::NeedsAnswer => "NeedsAnswer",
            Status::Waiting => "Waiting",
            Status::Stalled => "Stalled",
            Status::Unknown => "Unknown",
            Status::Working => "Working",
            Status::Idle => "Idle",
            Status::Shell => "Shell",
        }
    }
}

/// Only a busy session stalls, and only where no question is pending and its transcript has been
/// silent for more than five minutes; otherwise it works.
pub proof fn only_the_busy_stall(
    native: NativeStatusModel,
    pending_question: bool,
    secs_since_append: Option<u64>,
)
    ensures
        folded(native, pending_question, secs_since_append) == Status::Stalled <==> native is Busy
            && !pending_question && secs_since_append is Some && secs_since_append->0 > 300,
        folded(native, pending_question, secs_since_append) == Status::Working <==> native is Busy
            && !pending_question && (secs_since_append is None || secs_since_append->0 <= 300),
{
}

/// Without a pending question a session that waits, idles or is in shell mode is shown so, however
/// long its transcript has been silent; and only such a session is.
pub proof fn the_native_status_is_shown(
    native: NativeStatusModel,
    pending_question: bool,
    secs_since_append: Option<u64>,
)
    ensures
        folded(native, pending_question, secs_since_append) == Status::Waiting <==> native
            is Waiting && !pending_question,
        folded(native, pending_question, secs_since_append) == Status::Idle <==> native is Idle
            && !pending_question,
        folded(native, pending_question, secs_since_append) == Status::Shell <==> native is Shell
            && !pending_question,
{
}

/// Sessions that wait for their user come before those that may be broken, those before the ones
/// at work, and those before the ones at rest.
pub proof fn attention_is_ordered(a: Status, b: Status)
    ensures
        bucket(a) == bucket(b) <==> a == b,
        bucket(a) <= 6,
        bucket(Status::NeedsAnswer) < bucket(Status::Waiting) < bucket(Status::Stalled) < bucket(
            Status::Unknown,
        ) < bucket(Status::Working) < bucket(Status::Idle) < bucket(Status::Shell),
{
}

/// No two statuses have one name.
pub proof fn names_tell_statuses_apart(a: Status, b: Status)
    ensures
        status_name(a) == status_name(b) <==> a == b,
        status_name(Status::NeedsAnswer) == "NeedsAnswer"@,
        status_name(Status::Waiting) == "Waiting"@,
        status_name(Status::Stalled) == "Stalled"@,
        status_name(Status::Unknown) == "Unknown"@,
        status_name(Status::Working) == "Working"@,
        status_name(Status::Idle) == "Idle"@,
        status_name(Status::Shell) == "Shell"@,
{
    reveal_strlit("NeedsAnswer");
    reveal_strlit("Waiting");
    reveal_strlit("Stalled");
    reveal_strlit("Unknown");
    reveal_strlit("Working");
    reveal_strlit("Idle");
    reveal_strlit("Shell");
    let (x, y) = (status_name(a), status_name(b));
    assert("Waiting"@[1] == 'a' && "Stalled"@[1] == 't' && "Unknown"@[1] == 'n' && "Working"@[1]
        == 'o');
    assert(a != b ==> x.len() != y.len() || x[1] != y[1]);
}

} // verus!
