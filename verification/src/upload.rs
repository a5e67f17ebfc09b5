//! Serving blocks to peers: request checks, the PIECE frame, and how payloads are read.
use crate::error::{Error, Result};
use crate::text::{debug_str, debug_text, lowered, same_text, to_lower, trim, trimmed};
use vstd::prelude::*;

pub mod fs_gate;
pub mod inflight;
pub mod queue;
pub mod read;

verus! {

/// Length of a PIECE frame before its payload: length, id, index, begin.
pub const PIECE_HEADER_LEN: usize = 13;

/// Largest block that is served.
pub const UPLOAD_BLOCK_LEN: u32 = 16384;

/// Size of the upload scratch buffer: header and one block.
pub const UPLOAD_SCRATCH_LEN: usize = 16397;

/// Configured way to read payloads.
#[derive(Debug, Clone, Copy, PartialEq, Eq, Structural)]
pub enum UploadBackend {
    /// The platform's default.
    Auto,
    /// Blocking reads on the peer worker.
    Pread,
    /// Completion reads on any filesystem.
    Compio,
}

/// The backend that a configuration text names.
pub open spec fn backend_named(s: Seq<char>) -> Option<UploadBackend> {
    let t = lowered(trimmed(s));
    if t == "auto"@ || t == ""@ {
        Some(UploadBackend::Auto)
    } else if t == "pread"@ {
        Some(UploadBackend::Pread)
    } else if t == "compio"@ {
        Some(UploadBackend::Compio)
    } else {
        None
    }
}

impl UploadBackend {
    /// The backend that a configuration text names, whatever its case and the space
    /// around it. An empty text is the default.
    pub fn parse(s: &str) -> (r: Result<Self>)
        ensures
            match r {
                Ok(b) => backend_named(s@) == Some(b),
                Err(e) => e is Msg && backend_named(s@) is None && e.text()
                    == "unknown upload.backend "@ + debug_text(lowered(trimmed(s@)))
                    + " (auto|pread|compio)"@,
            },
    {
        let t = to_lower(trim(s).as_str());
        if same_text(t.as_str(), "auto") || same_text(t.as_str(), "") {
            Ok(UploadBackend::Auto)
        } else if same_text(t.as_str(), "pread") {
            Ok(UploadBackend::Pread)
        } else if same_text(t.as_str(), "compio") {
            Ok(UploadBackend::Compio)
        } else {
            let mut m = String::new();
            m.append("unknown upload.backend ");
            m.append(debug_str(t.as_str()).as_str());
            m.append(" (auto|pread|compio)");
            assert(m@ =~= "unknown upload.backend "@ + debug_text(t@) + " (auto|pread|compio)"@);
            Err(Error::Msg(m))
        }
    }

    /// The backend to run with.
    pub fn resolve(self) -> (r: Result<ResolvedUploadBackend>)
        ensures
            r == Ok::<ResolvedUploadBackend, Error>(
                match self {
                    UploadBackend::Auto => ResolvedUploadBackend::Auto,
                    UploadBackend::Pread => ResolvedUploadBackend::Pread,
                    UploadBackend::Compio => ResolvedUploadBackend::Compio,
                },
            ),
    {
        match self {
            UploadBackend::Auto => Ok(ResolvedUploadBackend::Auto),
            UploadBackend::Pread => Ok(ResolvedUploadBackend::Pread),
            UploadBackend::Compio => Ok(ResolvedUploadBackend::Compio),
        }
    }
}

/// Backend in use.
#[derive(Debug, Clone, Copy, PartialEq, Eq, Structural)]
pub enum ResolvedUploadBackend {
    /// The platform's default, see [`fs_gate`].
    Auto,
    Pread,
    /// Completion reads on any filesystem.
    Compio,
}

impl Default for ResolvedUploadBackend {
    fn default() -> (r: Self)
        ensures
            r == ResolvedUploadBackend::Auto,
    {
        ResolvedUploadBackend::Auto
    }
}

/// How a peer's uploads are read.
#[derive(Debug, Clone, Copy, PartialEq, Eq, Structural)]
pub struct UploadOptions {
    pub backend: ResolvedUploadBackend,
}

impl Default for UploadOptions {
    fn default() -> (r: Self)
        ensures
            r.backend == ResolvedUploadBackend::Auto,
    {
        UploadOptions { backend: ResolvedUploadBackend::Auto }
    }
}

/// Backends are named in upper or lower case, with white space round them or not.
pub proof fn backends_are_named_by_their_words(s: Seq<char>)
    ensures
        lowered(trimmed(s)) == seq!['p', 'r', 'e', 'a', 'd'] <==> backend_named(s) == Some(
            UploadBackend::Pread,
        ),
        lowered(trimmed(s)) == seq!['c', 'o', 'm', 'p', 'i', 'o'] <==> backend_named(s) == Some(
            UploadBackend::Compio,
        ),
        lowered(trimmed(s)).len() == 0 || lowered(trimmed(s)) == seq!['a', 'u', 't', 'o']
            <==> backend_named(s) == Some(UploadBackend::Auto),
{
    reveal_strlit("auto");
    reveal_strlit("");
    reveal_strlit("pread");
    reveal_strlit("compio");
    assert("auto"@ =~= seq!['a', 'u', 't', 'o']);
    assert(""@ =~= Seq::<char>::empty());
    assert("pread"@ =~= seq!['p', 'r', 'e', 'a', 'd']);
    assert("compio"@ =~= seq!['c', 'o', 'm', 'p', 'i', 'o']);
    let t = lowered(trimmed(s));
    if t.len() == 0 {
        assert(t =~= Seq::<char>::empty());
    }
}

} // verus!
