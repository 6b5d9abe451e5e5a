//! What can go wrong in the runner.
use vstd::prelude::*;
use vstd::string::StringExecFns;

verus! {

/// An error of the runner, with the text that tells what happened.
#[derive(Debug)]
pub enum Error {
    Io(String),
    Nix(String),
    Intercept(String),
    Pty(String),
    InvalidState(String),
}

impl Error {
    /// The error in words: its kind, and what happened.
    pub open spec fn text(&self) -> Seq<char> {
        match self {
            Error::Io(e) => "IO: "@ + e@,
            Error::Nix(e) => "Nix: "@ + e@,
            Error::Intercept(s) => "Intercept: "@ + s@,
            Error::Pty(s) => "PTY: "@ + s@,
            Error::InvalidState(s) => "Invalid state: "@ + s@,
        }
    }

    /// The error in words.
    pub fn message(&self) -> (r: String)
        ensures
            r@ == self.text(),
    {
        match self {
            Error::Io(e) => "IO: ".to_owned().concat(e.as_str()),
            Error::Nix(e) => "Nix: ".to_owned().concat(e.as_str()),
            Error::Intercept(s) => "Intercept: ".to_owned().concat(s.as_str()),
            Error::Pty(s) => "PTY: ".to_owned().concat(s.as_str()),
            Error::InvalidState(s) => "Invalid state: ".to_owned().concat(s.as_str()),
        }
    }
}

} // verus!
