use vstd::prelude::*;

verus! {

/// The category of a failure.
#[derive(Clone, Copy, Debug, PartialEq, Eq, Structural)]
pub enum ErrorKind {
    IO,
    InvalidManifest,
    InvalidGame,
    GameNotFound,
    LauncherNotFound,
    IgnoredApp,
    WinReg,
}

/// A failure, with its category and a message for the user.
#[derive(Clone, Debug)]
pub struct Error {
    pub kind: ErrorKind,
    pub message: String,
}

impl Error {
    pub fn new(kind: ErrorKind, message: String) -> (e: Error)
        ensures
            e.kind == kind,
            e.message@ == message@,
    {
        Error { kind, message }
    }

    pub fn kind(&self) -> (k: ErrorKind)
        ensures
            k == self.kind,
    {
        self.kind
    }
}

} // verus!
