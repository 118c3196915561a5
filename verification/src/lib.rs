//! A dotfile manager's entry-pairing and relationship-resolution engine.
//!
//! A managed dotfile is a pairing of two locations: its original,
//! link-bearing place under the home directory and its archived place
//! under a version-controlled archive directory.  This crate models the
//! pairing algebra: canonical representations, nesting of one pairing
//! inside another, placement of nested entries, collision backups,
//! per-directory ignore rules, the registry of tracked pairings, and the
//! decision logic of the add / install / link / uninstall operations.
//! Filesystem access, version control and persistence stay outside.

pub mod add;
pub mod environment;
pub mod errors;
pub mod files;
pub mod gitignore;
pub mod install;
pub mod link;
pub mod list;
pub mod parser;
pub mod paths;
pub mod registry;
pub mod text;
pub mod uninstall;

use vstd::prelude::*;

verus! {

/// Name of the environment variable that locates the archive directory.
pub const DOTFILES: &'static str = "DOTFILES";

} // verus!
