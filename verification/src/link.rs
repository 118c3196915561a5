//! The decisions of the Link operation: a new home path may be linked
//! only when it is nested inside a tracked pairing and its resolved
//! archive target really exists, or when it names a tracked archive
//! location outright; anything else cannot be reproduced on a clean
//! system and is refused.

use vstd::prelude::*;

use crate::errors::Error;
use crate::files::spec_child_suffix;
use crate::files::spec_is_child_of;
use crate::files::strip_dot_first;
use crate::files::Dotfile;
use crate::files::FileTrait;
use crate::files::Matrix;
use crate::registry::Registry;

verus! {

/// How the new pairing relates to what is already tracked.
pub enum LinkRelation {
    /// Nested inside the pairing at `ancestor_index`; `target` is where
    /// its archive copy must already live, `carve_rel` the components
    /// below the ancestor's archive directory for the ignore chain.
    Nested { ancestor_index: usize, target: Dotfile, carve_rel: Vec<String> },
    /// Its home path names, in relative form, the archive side of the
    /// pairing at `index`.
    SameArchive { index: usize },
    /// Related to nothing that is tracked.
    Unrelated,
}

/// Does the new pairing's home side name this archive side: the home
/// components, first one undotted, equal the archive components.
pub open spec fn spec_same_archive(custom: Matrix, existing: Matrix) -> bool {
    strip_dot_first(custom.key.rel.deep_view()) == existing.value.rel.deep_view()
}

/// Classifies the new pairing against the registry.  A home
/// representation that is already a key is refused outright.
pub fn link_resolve(reg: &Registry, custom: &Matrix) -> (r: Result<LinkRelation, Error>)
    requires
        reg.wf(),
        custom.wf(),
    ensures
        match r {
            Ok(rel) => !reg.spec_keys().contains(custom.spec_key_repr()) && match rel {
                LinkRelation::Nested { ancestor_index, target, carve_rel } => {
                    &&& 0 <= ancestor_index < reg.entries@.len()
                    &&& spec_is_child_of(*custom, reg.entries@[ancestor_index as int])
                    &&& (forall|j: int|
                        0 <= j < reg.entries@.len() && spec_is_child_of(
                            *custom,
                            #[trigger] reg.entries@[j],
                        ) ==> reg.entries@[j].key.spec_path().len()
                            <= reg.entries@[ancestor_index as int].key.spec_path().len())
                    &&& carve_rel.deep_view() == spec_child_suffix(
                        custom.key.rel.deep_view(),
                        reg.entries@[ancestor_index as int].value.rel.deep_view().last(),
                    )
                    &&& target.env@ == reg.entries@[ancestor_index as int].value.env@
                    &&& target.root.deep_view() == reg.entries@[ancestor_index
                        as int].value.root.deep_view()
                    &&& target.rel.deep_view() == reg.entries@[ancestor_index
                        as int].value.rel.deep_view() + carve_rel.deep_view()
                },
                LinkRelation::SameArchive { index } => {
                    &&& 0 <= index < reg.entries@.len()
                    &&& spec_same_archive(*custom, reg.entries@[index as int])
                    &&& (forall|j: int|
                        0 <= j < reg.entries@.len() ==> !spec_is_child_of(
                            *custom,
                            #[trigger] reg.entries@[j],
                        ))
                    &&& (forall|j: int|
                        0 <= j < index ==> !spec_same_archive(*custom, #[trigger] reg.entries@[j]))
                },
                LinkRelation::Unrelated => {
                    &&& (forall|j: int|
                        0 <= j < reg.entries@.len() ==> !spec_is_child_of(
                            *custom,
                            #[trigger] reg.entries@[j],
                        ))
                    &&& (forall|j: int|
                        0 <= j < reg.entries@.len() ==> !spec_same_archive(
                            *custom,
                            #[trigger] reg.entries@[j],
                        ))
                },
            },
            Err(e) => e is AlreadyTrackedError && reg.spec_keys().contains(custom.spec_key_repr()),
        },
{
    let repr = custom.key.repr();
    if reg.contains_home(&repr) {
        return Err(Error::AlreadyTrackedError(repr));
    }
    match reg.find_ancestor_of(custom) {
        Some(i) => {
            let ancestor = reg.get(i);
            proof {
                assert(reg.entries@[i as int].wf());
            }
            let carve_rel = ancestor.child_suffix(custom);
            let target = ancestor.child(custom);
            Ok(LinkRelation::Nested { ancestor_index: i, target, carve_rel })
        },
        None => {
            let rel = crate::files::strip_first_dot(custom.key.rel.clone());
            let mut i: usize = 0;
            while i < reg.len()
                invariant
                    i <= reg.entries@.len(),
                    custom.wf(),
                    !reg.spec_keys().contains(custom.spec_key_repr()),
                    rel.deep_view() == strip_dot_first(custom.key.rel.deep_view()),
                    forall|j: int|
                        0 <= j < reg.entries@.len() ==> !spec_is_child_of(
                            *custom,
                            #[trigger] reg.entries@[j],
                        ),
                    forall|j: int|
                        0 <= j < i ==> !spec_same_archive(*custom, #[trigger] reg.entries@[j]),
                decreases reg.entries@.len() - i,
            {
                if crate::paths::path_eq(&rel, &reg.get(i).value.rel) {
                    return Ok(LinkRelation::SameArchive { index: i });
                }
                i = i + 1;
            }
            Ok(LinkRelation::Unrelated)
        },
    }
}

/// What a permitted Link does: carve the ignore chain below the
/// ancestor (none when the home path names an archive side directly)
/// and register the pairing as given.
pub struct LinkPlan {
    /// The ancestor's registry position and the components below its
    /// archive directory, when an ignore exception must be carved.
    pub carve: Option<(usize, Vec<String>)>,
    /// Whether the pairing may be registered.
    pub permitted: bool,
}

/// Decides whether the link is permitted.  `target_exists` is whether
/// the resolved archive target of a nested pairing really exists on
/// disk; it is ignored for the other relations.
pub fn link_complete(relation: &LinkRelation, target_exists: bool) -> (r: Result<LinkPlan, Error>)
    ensures
        match r {
            Ok(plan) => plan.permitted && match relation {
                LinkRelation::Nested { ancestor_index, target, carve_rel } => target_exists && (
                plan.carve matches Some(c) && c.0 == ancestor_index && c.1.deep_view()
                    == carve_rel.deep_view()),
                LinkRelation::SameArchive { index } => plan.carve is None,
                LinkRelation::Unrelated => false,
            },
            Err(e) => e is UnrelatedLinkError && match relation {
                LinkRelation::Nested { .. } => !target_exists,
                LinkRelation::SameArchive { .. } => false,
                LinkRelation::Unrelated => true,
            },
        },
{
    match relation {
        LinkRelation::Nested { ancestor_index, target, carve_rel } => {
            if target_exists {
                let mut rel: Vec<String> = Vec::new();
                let mut i: usize = 0;
                while i < carve_rel.len()
                    invariant
                        i <= carve_rel@.len(),
                        rel.deep_view() =~= carve_rel.deep_view().subrange(0, i as int),
                    decreases carve_rel@.len() - i,
                {
                    let ghost before = rel.deep_view();
                    rel.push(carve_rel[i].clone());
                    proof {
                        assert(rel.deep_view() =~= before.push(carve_rel.deep_view()[i as int]));
                        assert(rel.deep_view() =~= carve_rel.deep_view().subrange(0, i + 1));
                    }
                    i = i + 1;
                }
                proof {
                    assert(carve_rel.deep_view().subrange(0, carve_rel@.len() as int)
                        =~= carve_rel.deep_view());
                }
                Ok(LinkPlan { carve: Some((*ancestor_index, rel)), permitted: true })
            } else {
                Err(Error::UnrelatedLinkError(String::new()))
            }
        },
        LinkRelation::SameArchive { .. } => Ok(LinkPlan { carve: None, permitted: true }),
        LinkRelation::Unrelated => Err(Error::UnrelatedLinkError(String::new())),
    }
}

} // verus!
