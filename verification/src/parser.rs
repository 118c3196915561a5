//! The command surface: which subcommand runs, with its raw arguments.
//! Argument parsing itself lives with the program around the library;
//! these types are what it hands over.

use vstd::prelude::*;

verus! {

/// One subcommand invocation.
pub enum Command {
    /// Track FILE: move it into the archive and link its old place.
    Add { file: String },
    /// Clone a dotfile repository from a URL into the archive root.
    Clone { url: String },
    /// Commit changes to FILE.
    Commit { file: String },
    /// Link every registered pairing's home path to its archive path.
    Install {},
    /// Create FILE as a link reproducible from TARGET.
    Link { file: String, target: String },
    /// List all registered pairings.
    List {},
    /// Push changes to the remote.
    Push {},
    /// Remove FILE from version control.
    Remove { file: String },
    /// Show version-control status.
    Status {},
    /// Revert the previous commit and its actions.
    Undo {},
    /// Delete every home-side link that points into the archive.
    Uninstall {},
}

/// A parsed invocation.
pub struct Args {
    pub command: Command,
}

} // verus!
