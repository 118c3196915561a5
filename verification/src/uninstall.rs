//! The decisions of the Uninstall operation: which home paths to look
//! at.  The caller deletes those that are symbolic links; archive
//! contents are untouched.

use vstd::prelude::*;

use crate::files::FileTrait;
use crate::registry::Registry;

verus! {

/// The home path of every registered pairing, in registry order.
pub fn uninstall_targets(reg: &Registry) -> (r: Vec<Vec<String>>)
    ensures
        r@.len() == reg.entries@.len(),
        forall|i: int|
            0 <= i < r@.len() ==> (#[trigger] r@[i]).deep_view()
                == reg.entries@[i].key.spec_path(),
{
    let mut r: Vec<Vec<String>> = Vec::new();
    let mut i: usize = 0;
    while i < reg.len()
        invariant
            i <= reg.entries@.len(),
            r@.len() == i,
            forall|j: int|
                0 <= j < i ==> (#[trigger] r@[j]).deep_view()
                    == reg.entries@[j].key.spec_path(),
        decreases reg.entries@.len() - i,
    {
        r.push(reg.get(i).key.path());
        i = i + 1;
    }
    r
}

} // verus!
