//! The engine's error type.
use vstd::prelude::*;

verus! {

/// What went wrong, as reported to callers and to the status line.
#[derive(Debug, Clone)]
pub enum Error {
    /// A failure described by its text alone.
    Msg(String),
    /// The disk worker's backend is gone; a restart may bring it back.
    DiskWorkerStopped,
    /// The disk worker used up its restarts and stays down.
    DiskWorkerPermanent,
}

/// Results of engine operations.
pub type Result<T> = std::result::Result<T, Error>;

impl Error {
    /// The text that [`Error::to_string`] produces.
    pub open spec fn text(&self) -> Seq<char> {
        match self {
            Error::Msg(m) => m@,
            Error::DiskWorkerStopped => "disk worker stopped"@,
            Error::DiskWorkerPermanent => "disk worker permanently dead"@,
        }
    }

    /// An error that carries `text`.
    pub fn msg(text: &str) -> (e: Error)
        ensures
            e is Msg,
            e.text() == text@,
    {
        Error::Msg(text.to_owned())
    }

    /// Human-readable description.
    pub fn to_string(&self) -> (s: String)
        ensures
            s@ == self.text(),
    {
        match self {
            Error::Msg(m) => m.clone(),
            Error::DiskWorkerStopped => "disk worker stopped".to_owned(),
            Error::DiskWorkerPermanent => "disk worker permanently dead".to_owned(),
        }
    }
}

/// An error tells its text.
pub proof fn errors_tell_their_text(m: String)
    ensures
        Error::Msg(m).text() == m@,
        Error::DiskWorkerStopped.text() == "disk worker stopped"@,
        Error::DiskWorkerPermanent.text() == "disk worker permanently dead"@,
{
}

} // verus!
