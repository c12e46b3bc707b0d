//! Errors surfaced by the TrueForce daemon, its sweep mode and its stream
//! wrapper, and the text each one shows the user.

use vstd::prelude::*;
use vstd::string::*;
use crate::text::{dec_int, i64_to_dec};

verus! {

#[verifier::external_type_specification]
#[verifier::external_body]
pub struct ExIoError(std::io::Error);

/// What the daemon says when it will not run without a force-feedback
/// session: the refusal, the cause, what to check, and where the
/// explanation is.
pub const UNSTABILISED_TEXT: &'static str =
    "refusing to run: no force-feedback session could be opened, and without one a direct-drive wheel can drive itself into its stops. Check that you can write to the wheel's /dev/input/event* node (the udev rules grant this); see issue #57";

/// What the daemon says when discovery finds no wheel.
pub const NO_WHEEL_TEXT: &'static str = "no supported wheel found";

/// Errors surfaced by the daemon, the sweep mode, and the stream wrapper.
pub enum Error {
    /// No force-feedback session could be held open, so a direct-drive
    /// wheel would move unpredictably.
    Unstabilised,
    /// An OS-level failure, with what was being attempted.
    Io(String, std::io::Error),
    /// No supported wheel was found by discovery.
    NoWheel,
    /// A TrueForce library call failed: (function, its return code).
    Stream(String, i32),
}

/// The text of `e`, given the text of its OS error (if it holds one).
pub open spec fn message_text(e: &Error, io_text: Seq<char>) -> Seq<char> {
    match e {
        Error::Unstabilised => UNSTABILISED_TEXT@,
        Error::Io(what, _) => what@ + ": "@ + io_text,
        Error::NoWheel => NO_WHEEL_TEXT@,
        Error::Stream(func, rc) => func@ + " failed (rc "@ + dec_int(*rc as int) + ")"@,
    }
}

/// `Display` of `std::io::Error`: the operating system's words for the
/// error, which depend on the machine, so nothing is stated of them.
#[verifier::external_body]
fn io_error_text(e: &std::io::Error) -> (r: String) {
    format!("{}", e)
}

impl Error {
    /// The text of this error, given `io_text` as the text of the OS
    /// error it holds (unused by the other variants).
    pub fn message_with(&self, io_text: &str) -> (r: String)
        ensures
            r@ == message_text(self, io_text@),
    {
        match self {
            Error::Unstabilised => String::from_str(UNSTABILISED_TEXT),
            Error::Io(what, _) => {
                let mut s = what.clone();
                s.append(": ");
                s.append(io_text);
                s
            },
            Error::NoWheel => String::from_str(NO_WHEEL_TEXT),
            Error::Stream(func, rc) => {
                let mut s = func.clone();
                s.append(" failed (rc ");
                let n = i64_to_dec(*rc as i64);
                s.append(n.as_str());
                s.append(")");
                s
            },
        }
    }

    /// The text of this error, as the user sees it.
    pub fn message(&self) -> (r: String)
        ensures
            !(self is Io) ==> r@ == message_text(self, Seq::empty()),
            self is Io ==> exists|t: Seq<char>| r@ == message_text(self, t),
    {
        match self {
            Error::Io(_, e) => {
                let t = io_error_text(e);
                self.message_with(t.as_str())
            },
            _ => self.message_with(""),
        }
    }
}

} // verus!
