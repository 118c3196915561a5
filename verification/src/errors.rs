//! The failure taxonomy of the engine.

use vstd::prelude::*;

verus! {

/// Everything that can go wrong while pairing, registering or linking
/// dotfiles.  Each variant carries the path, variable or key it is about.
#[derive(Debug)]
pub enum Error {
    /// A required root variable is unset, or a placeholder in a raw path
    /// names a variable the environment does not hold.
    EnvironmentError(String),
    /// A path escapes its claimed root, or holds `.` / `..` components.
    InvalidPathError(String),
    /// A symbolic link whose target does not exist.
    DanglingSymlinkError(String),
    /// The home-side representation is already a registry key.
    AlreadyTrackedError(String),
    /// The add target is neither movable nor under a tracked ancestor.
    EntryNotFoundError(String),
    /// The link target is not related to any tracked entry.
    UnrelatedLinkError(String),
    /// Insertion under a key the registry already holds.
    DuplicateEntryError(String),
    /// An unexpected filesystem failure reported by the caller.
    IoError(String),
}

impl Error {
    /// A human-readable description, used by callers when they surface
    /// the failure as a command error.
    pub fn message(&self) -> (r: String)
        ensures
            match self {
                Error::EnvironmentError(s) => r@ == "environment variable not set: "@ + s@,
                Error::InvalidPathError(s) => r@ == "path escapes its root: "@ + s@,
                Error::DanglingSymlinkError(s) => r@ == "dangling symlink: "@ + s@,
                Error::AlreadyTrackedError(s) => r@ == "already added: "@ + s@,
                Error::EntryNotFoundError(s) => r@ == "entry not found: "@ + s@,
                Error::UnrelatedLinkError(s) => r@ == "link not related to a tracked entry: "@
                    + s@,
                Error::DuplicateEntryError(s) => r@ == "duplicate entry: "@ + s@,
                Error::IoError(s) => r@ == "i/o failure: "@ + s@,
            },
    {
        let (label, detail): (&str, &String) = match self {
            Error::EnvironmentError(s) => ("environment variable not set: ", s),
            Error::InvalidPathError(s) => ("path escapes its root: ", s),
            Error::DanglingSymlinkError(s) => ("dangling symlink: ", s),
            Error::AlreadyTrackedError(s) => ("already added: ", s),
            Error::EntryNotFoundError(s) => ("entry not found: ", s),
            Error::UnrelatedLinkError(s) => ("link not related to a tracked entry: ", s),
            Error::DuplicateEntryError(s) => ("duplicate entry: ", s),
            Error::IoError(s) => ("i/o failure: ", s),
        };
        proof {
            reveal_strlit("environment variable not set: ");
            reveal_strlit("path escapes its root: ");
            reveal_strlit("dangling symlink: ");
            reveal_strlit("already added: ");
            reveal_strlit("entry not found: ");
            reveal_strlit("link not related to a tracked entry: ");
            reveal_strlit("duplicate entry: ");
            reveal_strlit("i/o failure: ");
        }
        let mut r = label.to_owned();
        r.append(detail.as_str());
        r
    }
}

} // verus!
