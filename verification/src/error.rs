//! What can go wrong between the command and the editor.

use vstd::prelude::*;

verus! {

/// The ways in which a run fails.
#[derive(Clone, Copy, Debug, PartialEq, Eq, Structural)]
pub enum Error {
    /// The command could not be started.
    SpawnFailed,
    /// The path of the ranges socket is taken.
    BindError,
    /// Reading or writing the fifo, the socket or the command's output
    /// failed.
    IoError,
    /// The editor's control socket cannot be found or reached.
    ConnectError,
    /// The command ended without a line of output.
    NoOutput,
}

impl Error {
    /// The failure ends the run. Only a control socket out of reach does
    /// not: it costs the log lines that were to go there, and the output
    /// goes on.
    pub open spec fn fatal(self) -> bool {
        self != Error::ConnectError
    }

    pub fn is_fatal(&self) -> (fatal: bool)
        ensures
            fatal == self.fatal(),
    {
        match self {
            Error::ConnectError => false,
            _ => true,
        }
    }

    /// The failure in words.
    pub open spec fn text(self) -> Seq<char> {
        match self {
            Error::SpawnFailed => "the command could not be started"@,
            Error::BindError => "the ranges socket is already in use"@,
            Error::IoError => "reading or writing failed"@,
            Error::ConnectError => "the editor's control socket is out of reach"@,
            Error::NoOutput => "no output"@,
        }
    }

    pub fn message(&self) -> (text: &'static str)
        ensures
            text@ == self.text(),
    {
        match self {
            Error::SpawnFailed => "the command could not be started",
            Error::BindError => "the ranges socket is already in use",
            Error::IoError => "reading or writing failed",
            Error::ConnectError => "the editor's control socket is out of reach",
            Error::NoOutput => "no output",
        }
    }
}

} // verus!
