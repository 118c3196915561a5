//! The decisions of the Install operation.  For every registered
//! pairing the caller reports what it found at the home path; the
//! functions here say what to do about it: refresh a stale link, move a
//! real file aside, or link straight away, and how to react when the
//! link cannot be created.

use vstd::prelude::*;

use crate::files::spec_backup_component;
use crate::files::FileTrait;
use crate::files::Matrix;

verus! {

/// A whole path renamed aside: its final component gains the stamp.
pub open spec fn spec_backup_path(p: Seq<Seq<char>>, t: nat) -> Seq<Seq<char>> {
    p.update(p.len() - 1, spec_backup_component(p.last(), t))
}

/// What to do at a pairing's home path before linking it.
pub enum InstallPrep {
    /// The home path is already a link to the archive: remove it and
    /// link afresh.
    RemoveLink,
    /// Something else lives there: rename it to this backup path first.
    Backup(Vec<String>),
    /// Nothing is in the way.
    Link,
}

/// Decides the preparation step.  `home_exists` and `link_target` are
/// what the caller found: whether anything is at the home path, and
/// where it points if it is a symbolic link.
pub fn install_prepare(
    entry: &Matrix,
    home_exists: bool,
    link_target: Option<&Vec<String>>,
    stamp: u64,
) -> (r: InstallPrep)
    requires
        entry.wf(),
    ensures
        match r {
            InstallPrep::RemoveLink => home_exists && (link_target matches Some(t)
                && t.deep_view() == entry.value.spec_path()),
            InstallPrep::Backup(b) => home_exists && !(link_target matches Some(t) && t.deep_view()
                == entry.value.spec_path()) && b.deep_view() == spec_backup_path(
                entry.key.spec_path(),
                stamp as nat,
            ),
            InstallPrep::Link => !home_exists,
        },
{
    if !home_exists {
        return InstallPrep::Link;
    }
    let archive_path = entry.value.path();
    let is_archive_link = match link_target {
        Some(t) => crate::paths::path_eq(t, &archive_path),
        None => false,
    };
    if is_archive_link {
        InstallPrep::RemoveLink
    } else {
        let mut p = entry.key.path();
        proof {
            assert(p.deep_view().len() == entry.key.spec_path().len());
            assert(entry.key.spec_path().len() >= entry.key.rel.deep_view().len());
        }
        let last = p.len() - 1;
        let mut name = p[last].clone();
        name.append(".");
        let dec = crate::text::u64_to_dec(stamp);
        name.append(dec.as_str());
        proof {
            reveal_strlit(".");
            assert("."@ =~= seq!['.']);
            assert(name@ =~= spec_backup_component(entry.key.spec_path().last(), stamp as nat));
        }
        let ghost before = p.deep_view();
        p.set(last, name);
        proof {
            assert(p.deep_view() =~= spec_backup_path(before, stamp as nat));
        }
        InstallPrep::Backup(p)
    }
}

/// The preparation step with the stamp taken from the clock.
pub fn install_prepare_now(entry: &Matrix, home_exists: bool, link_target: Option<&Vec<String>>)
    -> (r: InstallPrep)
    requires
        entry.wf(),
    ensures
        match r {
            InstallPrep::RemoveLink => home_exists && (link_target matches Some(t)
                && t.deep_view() == entry.value.spec_path()),
            InstallPrep::Backup(b) => home_exists && !(link_target matches Some(t) && t.deep_view()
                == entry.value.spec_path()) && exists|t: nat|
                b.deep_view() == spec_backup_path(entry.key.spec_path(), t),
            InstallPrep::Link => !home_exists,
        },
{
    let ts = crate::files::now_timestamp();
    let stamp: u64 = if ts < 0 {
        0
    } else {
        ts as u64
    };
    let r = install_prepare(entry, home_exists, link_target, stamp);
    proof {
        if r is Backup {
            assert(r->Backup_0.deep_view() == spec_backup_path(
                entry.key.spec_path(),
                stamp as nat,
            ));
        }
    }
    r
}

/// Why creating the symbolic link failed, as the caller saw it.
pub enum LinkFailure {
    /// Something reappeared at the home path.
    AlreadyExists,
    /// The home path's parent directory is missing.
    MissingParent,
    /// Anything else: fatal, Install aborts.
    Other,
}

/// How to go on after a failed link creation.
pub enum RetryStep {
    /// Remove the stale file at this path and try again.
    RemoveAndRetry(Vec<String>),
    /// Create this missing parent directory and try again.
    CreateParentAndRetry(Vec<String>),
    /// Give up; the whole Install fails.
    Fail,
}

/// Decides the retry step after a failed link creation: a leftover at
/// the home path is removed, a missing parent is created, anything else
/// aborts.
pub fn install_retry(entry: &Matrix, failure: &LinkFailure) -> (r: RetryStep)
    requires
        entry.wf(),
    ensures
        match r {
            RetryStep::RemoveAndRetry(p) => failure is AlreadyExists && p.deep_view()
                == entry.key.spec_path(),
            RetryStep::CreateParentAndRetry(p) => failure is MissingParent && p.deep_view()
                == entry.key.spec_path().drop_last(),
            RetryStep::Fail => failure is Other,
        },
{
    match failure {
        LinkFailure::AlreadyExists => RetryStep::RemoveAndRetry(entry.key.path()),
        LinkFailure::MissingParent => {
            let mut p = entry.key.path();
            let ghost before = p.deep_view();
            p.pop();
            proof {
                assert(p.deep_view() =~= before.drop_last());
            }
            RetryStep::CreateParentAndRetry(p)
        },
        LinkFailure::Other => RetryStep::Fail,
    }
}

} // verus!
