//! The decisions of the Add operation: normalizing the raw path into a
//! pairing, refusing duplicates, absorbing previously flat entries into
//! a newly tracked directory, and placing an entry whose file already
//! lives under a tracked ancestor.  The filesystem moves themselves are
//! the caller's to perform, following the plans computed here.

use vstd::prelude::*;

use crate::environment::archive_var;
use crate::environment::home_var;
use crate::environment::spec_root_path;
use crate::environment::Environment;
use crate::errors::Error;
use crate::files::spec_child_suffix;
use crate::files::spec_is_child_of;
use crate::files::spec_resolution;
use crate::files::strip_component;
use crate::files::Dotfile;
use crate::files::FileTrait;
use crate::files::Matrix;
use crate::files::Symlink;
use crate::registry::Registry;
use crate::text::spec_join;

verus! {

/// The pairing Add works on: the home side resolved from the raw
/// argument, the archive side a fresh top-level entry named after the
/// file, undotted.
pub fn normalize(file: &String, environment: &Environment) -> (r: Result<Matrix, Error>)
    ensures
        match r {
            Ok(m) => {
                &&& m.wf()
                &&& m.key.env@ == home_var()
                &&& spec_resolution(environment.view_vars(), file@, home_var(), false) == Some(
                    (m.key.root.deep_view(), m.key.rel.deep_view()),
                )
                &&& m.value.env@ == archive_var()
                &&& spec_root_path(environment.view_vars(), archive_var()) == Some(
                    m.value.root.deep_view(),
                )
                &&& m.value.rel.deep_view() == seq![
                    strip_component(m.key.rel.deep_view().last()),
                ]
            },
            Err(e) => (e is EnvironmentError || e is InvalidPathError) && (spec_resolution(
                environment.view_vars(),
                file@,
                home_var(),
                false,
            ) is None || spec_resolution(
                environment.view_vars(),
                file@,
                home_var(),
                false,
            )->Some_0.1.len() == 0 || spec_root_path(environment.view_vars(), archive_var())
                is None),
        },
{
    let key = match Symlink::new(file, "HOME".to_owned(), environment) {
        Err(e) => {
            return Err(e);
        },
        Ok(s) => s,
    };
    if key.rel.len() == 0 {
        return Err(Error::InvalidPathError(file.clone()));
    }
    let name = key.rel[key.rel.len() - 1].clone();
    let mut rel: Vec<String> = Vec::new();
    rel.push(name);
    proof {
        assert(rel.deep_view() =~= seq![key.rel.deep_view().last()]);
    }
    let value = match Dotfile::from_rel(rel, environment) {
        Err(e) => {
            return Err(e);
        },
        Ok(d) => d,
    };
    proof {
        crate::files::lemma_resolution_valid(environment.view_vars(), file@, home_var(), false);
        let one = seq![key.rel.deep_view().last()];
        assert(crate::files::strip_dot_last(one) =~= seq![
            strip_component(key.rel.deep_view().last()),
        ]);
        crate::files::lemma_strip_component_valid(key.rel.deep_view().last());
        assert(crate::paths::valid_path(value.rel.deep_view()));
    }
    Ok(Matrix { key, value })
}

/// A pairing whose home representation is already registered may not be
/// added again.
pub fn check_duplicate(reg: &Registry, entry: &Matrix) -> (r: Result<(), Error>)
    ensures
        match r {
            Ok(()) => !reg.spec_keys().contains(entry.spec_key_repr()),
            Err(e) => e is AlreadyTrackedError && reg.spec_keys().contains(entry.spec_key_repr()),
        },
{
    let repr = entry.key.repr();
    if reg.contains_home(&repr) {
        Err(Error::AlreadyTrackedError(repr))
    } else {
        Ok(())
    }
}

/// Does adding `entry` absorb this registered pairing: is it nested
/// inside the new directory, and stored under the archive root?
pub open spec fn spec_absorbed(existing: Matrix, entry: Matrix) -> bool {
    spec_is_child_of(existing, entry) && existing.value.env@ == archive_var()
}

/// Registry positions of the pairings that `entry` absorbs, in order.
pub open spec fn spec_absorb_indices(entries: Seq<Matrix>, entry: Matrix) -> Seq<int>
    decreases entries.len(),
{
    if entries.len() == 0 {
        seq![]
    } else {
        let pre = spec_absorb_indices(entries.drop_last(), entry);
        if spec_absorbed(entries.last(), entry) {
            pre.push(entries.len() - 1)
        } else {
            pre
        }
    }
}

/// Everything the caller must do about one absorbed pairing: move its
/// archive file, carve the ignore exception, and swap its registration.
pub struct Absorption {
    /// Where the absorbed pairing stands in the registry.
    pub index: usize,
    /// Its registry key, to be re-registered at the new location.
    pub old_key: String,
    /// Where its archive copy lies now.
    pub move_from: Vec<String>,
    /// Where its archive copy belongs, under the new directory.
    pub move_to: Vec<String>,
    /// The components below the new directory's archive location, for
    /// the ignore-rule chain.
    pub carve_rel: Vec<String>,
    /// The pairing to register in its stead: same home side, archive
    /// side at the new location.
    pub replacement: Matrix,
}

/// What one absorption must look like for the plan to be faithful to
/// the registry entry it came from.
pub open spec fn spec_absorption_of(a: Absorption, existing: Matrix, entry: Matrix) -> bool {
    &&& a.old_key@ == existing.spec_key_repr()
    &&& a.move_from.deep_view() == existing.value.spec_path()
    &&& a.carve_rel.deep_view() == spec_child_suffix(
        existing.key.rel.deep_view(),
        entry.value.rel.deep_view().last(),
    )
    &&& a.replacement.key.env@ == existing.key.env@
    &&& a.replacement.key.root.deep_view() == existing.key.root.deep_view()
    &&& a.replacement.key.rel.deep_view() == existing.key.rel.deep_view()
    &&& a.replacement.value.env@ == entry.value.env@
    &&& a.replacement.value.root.deep_view() == entry.value.root.deep_view()
    &&& a.replacement.value.rel.deep_view() == entry.value.rel.deep_view() + a.carve_rel.deep_view()
    &&& a.move_to.deep_view() == a.replacement.value.spec_path()
    &&& a.replacement.wf()
}

/// After a directory was moved into the archive, every registered
/// pairing that now lies inside it and was stored flat under the archive
/// root must follow it: the plan lists them in registry order.
pub fn absorb_children(reg: &Registry, entry: &Matrix) -> (r: Vec<Absorption>)
    requires
        reg.wf(),
        entry.wf(),
    ensures
        r@.len() == spec_absorb_indices(reg.entries@, *entry).len(),
        forall|k: int|
            0 <= k < r@.len() ==> (#[trigger] r@[k]).index == spec_absorb_indices(
                reg.entries@,
                *entry,
            )[k] && spec_absorption_of(r@[k], reg.entries@[r@[k].index as int], *entry),
        forall|k: int|
            0 <= k < r@.len() ==> spec_absorbed(
                reg.entries@[(#[trigger] r@[k]).index as int],
                *entry,
            ),
{
    let mut r: Vec<Absorption> = Vec::new();
    let mut i: usize = 0;
    proof {
        assert(reg.entries@.subrange(0, 0) =~= Seq::<Matrix>::empty());
    }
    while i < reg.len()
        invariant
            i <= reg.entries@.len(),
            reg.wf(),
            entry.wf(),
            r@.len() == spec_absorb_indices(reg.entries@.subrange(0, i as int), *entry).len(),
            forall|k: int|
                0 <= k < r@.len() ==> (#[trigger] r@[k]).index == spec_absorb_indices(
                    reg.entries@.subrange(0, i as int),
                    *entry,
                )[k] && spec_absorption_of(r@[k], reg.entries@[r@[k].index as int], *entry)
                    && r@[k].index < i && spec_absorbed(reg.entries@[r@[k].index as int], *entry),
        decreases reg.entries@.len() - i,
    {
        let ghost pre = reg.entries@.subrange(0, i as int);
        let ghost ext = reg.entries@.subrange(0, i + 1);
        proof {
            assert(ext.drop_last() =~= pre);
            assert(ext.last() == reg.entries@[i as int]);
        }
        let existing = reg.get(i);
        let dotvar = "DOTFILES".to_owned();
        if existing.is_child_of(entry) && existing.value.env().eq(&dotvar) {
            let carve_rel = entry.child_suffix(existing);
            let target = entry.child(existing);
            let old_key = existing.key.repr();
            let move_from = existing.value.path();
            let replacement = Matrix {
                key: Symlink {
                    env: existing.key.env.clone(),
                    root: existing.key.root.clone(),
                    rel: existing.key.rel.clone(),
                },
                value: target,
            };
            let move_to = replacement.value.path();
            proof {
                assert(replacement.key.wf() && replacement.value.wf());
                assert(replacement.key.rel.deep_view().len() > 0);
                assert(replacement.value.rel.deep_view().len() > 0);
            }
            r.push(
                Absorption { index: i, old_key, move_from, move_to, carve_rel, replacement },
            );
        }
        i = i + 1;
    }
    proof {
        assert(reg.entries@.subrange(0, reg.entries@.len() as int) =~= reg.entries@);
    }
    r
}

/// The fallback when the raw path could not be moved: the pairing joins
/// the registry under a tracked ancestor, pointing at the place its file
/// already occupies, with an ignore exception carved for it.
pub struct AddFallback {
    /// The registry position of the ancestor chosen (deepest home path).
    pub ancestor_index: usize,
    /// The components below the ancestor's archive location, for the
    /// ignore-rule chain.
    pub carve_rel: Vec<String>,
    /// The pairing to register: the entry's home side, the archive side
    /// inside the ancestor.
    pub registration: Matrix,
}

/// When a raw path cannot be moved because it already lives inside a
/// tracked directory, find that ancestor and place the entry beneath
/// it; with no ancestor the add target simply does not exist.
pub fn add_on_failure(reg: &Registry, entry: &Matrix) -> (r: Result<AddFallback, Error>)
    requires
        reg.wf(),
        entry.wf(),
    ensures
        match r {
            Ok(f) => {
                &&& 0 <= f.ancestor_index < reg.entries@.len()
                &&& spec_is_child_of(*entry, reg.entries@[f.ancestor_index as int])
                &&& (forall|j: int|
                    0 <= j < reg.entries@.len() && spec_is_child_of(
                        *entry,
                        #[trigger] reg.entries@[j],
                    ) ==> reg.entries@[j].key.spec_path().len()
                        <= reg.entries@[f.ancestor_index as int].key.spec_path().len())
                &&& f.carve_rel.deep_view() == spec_child_suffix(
                    entry.key.rel.deep_view(),
                    reg.entries@[f.ancestor_index as int].value.rel.deep_view().last(),
                )
                &&& f.registration.key.env@ == entry.key.env@
                &&& f.registration.key.root.deep_view() == entry.key.root.deep_view()
                &&& f.registration.key.rel.deep_view() == entry.key.rel.deep_view()
                &&& f.registration.value.env@ == reg.entries@[f.ancestor_index as int].value.env@
                &&& f.registration.value.root.deep_view() == reg.entries@[f.ancestor_index
                    as int].value.root.deep_view()
                &&& f.registration.value.rel.deep_view() == reg.entries@[f.ancestor_index
                    as int].value.rel.deep_view() + f.carve_rel.deep_view()
                &&& f.registration.wf()
            },
            Err(e) => e is EntryNotFoundError && forall|j: int|
                0 <= j < reg.entries@.len() ==> !spec_is_child_of(
                    *entry,
                    #[trigger] reg.entries@[j],
                ),
        },
{
    match reg.find_ancestor_of(entry) {
        None => {
            let repr = entry.key.repr();
            Err(Error::EntryNotFoundError(repr))
        },
        Some(i) => {
            let ancestor = reg.get(i);
            proof {
                assert(reg.entries@[i as int].wf());
            }
            let carve_rel = ancestor.child_suffix(entry);
            let target = ancestor.child(entry);
            let registration = Matrix {
                key: Symlink {
                    env: entry.key.env.clone(),
                    root: entry.key.root.clone(),
                    rel: entry.key.rel.clone(),
                },
                value: target,
            };
            proof {
                assert(registration.key.wf() && registration.value.wf());
                assert(registration.key.rel.deep_view().len() > 0);
                assert(registration.value.rel.deep_view().len() > 0);
            }
            Ok(AddFallback { ancestor_index: i, carve_rel, registration })
        },
    }
}

/// Swaps an absorbed pairing's registration: its old entry leaves the
/// registry and the same home side re-registers at the new archive
/// location, at the end of the order.
pub fn register_absorption(reg: &mut Registry, a: Absorption)
    requires
        old(reg).wf(),
        a.replacement.wf(),
        a.replacement.spec_key_repr() == a.old_key@,
    ensures
        final(reg).wf(),
        final(reg).spec_pairs() =~= crate::registry::spec_remove_key(
            old(reg).spec_pairs(),
            a.old_key@,
        ).push((a.old_key@, a.replacement.spec_value_repr())),
        forall|k: Seq<char>|
            #[trigger] final(reg).spec_keys().contains(k) <==> (old(reg).spec_keys().contains(k)
                || k == a.old_key@),
{
    let ghost pairs0 = reg.spec_pairs();
    let ghost keys0 = reg.spec_keys();
    let removed = reg.remove(&a.old_key);
    let ghost pairs1 = reg.spec_pairs();
    proof {
        if removed {
            let i = choose|i: int|
                0 <= i < old(reg).entries@.len() && old(reg).entries@[i].spec_key_repr()
                    == a.old_key@ && reg.entries@ == old(reg).entries@.remove(i);
            assert(pairs1 =~= pairs0.remove(i));
            assert(pairs0[i].0 == a.old_key@);
            assert forall|j: int| 0 <= j < i implies (#[trigger] pairs0[j]).0 != a.old_key@ by {
                if pairs0[j].0 == a.old_key@ {
                    assert(old(reg).entries@[j].spec_key_repr() == old(
                        reg,
                    ).entries@[i].spec_key_repr());
                }
            }
            crate::registry::lemma_remove_key_at(pairs0, a.old_key@, i);
            assert forall|j: int|
                0 <= j < reg.spec_keys().len() implies #[trigger] reg.spec_keys()[j]
                != a.old_key@ by {
                let j0 = if j < i {
                    j
                } else {
                    j + 1
                };
                assert(reg.entries@[j] == old(reg).entries@[j0]);
                if reg.spec_keys()[j] == a.old_key@ {
                    assert(old(reg).entries@[j0].spec_key_repr() == old(
                        reg,
                    ).entries@[i].spec_key_repr());
                }
            }
            if reg.spec_keys().contains(a.old_key@) {
                let j = choose|j: int|
                    0 <= j < reg.spec_keys().len() && reg.spec_keys()[j] == a.old_key@;
            }
            assert(!reg.spec_keys().contains(a.old_key@));
        } else {
            assert forall|j: int| 0 <= j < pairs0.len() implies (#[trigger] pairs0[j]).0
                != a.old_key@ by {
                if pairs0[j].0 == a.old_key@ {
                    assert(keys0[j] == a.old_key@);
                    assert(keys0.contains(a.old_key@));
                }
            }
            crate::registry::lemma_remove_key_absent(pairs0, a.old_key@);
            assert(pairs1 =~= pairs0);
            assert(!reg.spec_keys().contains(a.old_key@));
        }
    }
    let ghost keys1 = reg.spec_keys();
    let ghost entries1 = reg.entries@;
    match reg.insert(a.replacement) {
        Ok(()) => {},
        Err(_) => {
            proof {
                assert(false);
            }
        },
    }
    proof {
        let keys2 = reg.spec_keys();
        let last = keys2.len() - 1;
        assert(keys2[last] == a.old_key@);
        assert(keys1.len() == last);
        assert forall|j: int| 0 <= j < last implies #[trigger] keys2[j] == keys1[j] by {}
        assert forall|k: Seq<char>| #[trigger]
            keys2.contains(k) implies (keys0.contains(k) || k == a.old_key@) by {
            let j = choose|j: int| 0 <= j < keys2.len() && keys2[j] == k;
            if j < last {
                assert(keys1[j] == k);
                if removed {
                    let i = choose|i: int|
                        0 <= i < old(reg).entries@.len() && old(reg).entries@[i].spec_key_repr()
                            == a.old_key@ && entries1 == old(reg).entries@.remove(i);
                    let j0 = if j < i {
                        j
                    } else {
                        j + 1
                    };
                    assert(keys0[j0] == k);
                    assert(keys0.contains(k));
                } else {
                    assert(keys0[j] == k);
                    assert(keys0.contains(k));
                }
            }
        }
        assert forall|k: Seq<char>| keys0.contains(k) || k == a.old_key@ implies #[trigger]
            keys2.contains(k) by {
            if k == a.old_key@ {
                assert(keys2[last] == k);
            } else {
                let j = choose|j: int| 0 <= j < keys0.len() && keys0[j] == k;
                if removed {
                    let i = choose|i: int|
                        0 <= i < old(reg).entries@.len() && old(reg).entries@[i].spec_key_repr()
                            == a.old_key@ && entries1 == old(reg).entries@.remove(i);
                    assert(keys0[i] == a.old_key@);
                    let j1 = if j < i {
                        j
                    } else {
                        j - 1
                    };
                    assert(keys1[j1] == k);
                    assert(keys2[j1] == k);
                } else {
                    assert(keys1[j] == k);
                    assert(keys2[j] == k);
                }
            }
        }
    }
}

/// The commit message Add requests: `add ` and the home-relative path.
pub fn commit_message(entry: &Matrix) -> (r: String)
    ensures
        r@ == "add "@ + spec_join(entry.key.rel.deep_view()),
{
    proof {
        reveal_strlit("add ");
    }
    let mut r = "add ".to_owned();
    let joined = crate::text::join_path(&entry.key.rel);
    r.append(joined.as_str());
    r
}

/// The paths Add asks the version-control collaborator to commit: the
/// registry file and the entry's archive-relative path.
pub fn commit_paths(entry: &Matrix) -> (r: Vec<String>)
    ensures
        r@.len() == 2,
        r@[0]@ == "dotfiles.ini"@,
        r@[1]@ == spec_join(entry.value.rel.deep_view()),
{
    let mut r: Vec<String> = Vec::new();
    r.push("dotfiles.ini".to_owned());
    r.push(crate::text::join_path(&entry.value.rel));
    r
}

} // verus!
