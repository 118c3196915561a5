//! The registry of tracked pairings: an ordered mapping from home-side
//! representation to archive-side representation, keys unique.  Loading
//! from and flushing to the persisted store is the caller's business;
//! the registry itself is the in-memory truth one command works on.

use vstd::prelude::*;

use crate::environment::spec_lookup;
use crate::environment::Environment;
use crate::errors::Error;
use crate::files::spec_is_child_of;
use crate::files::spec_pairing;
use crate::files::spec_pairing_env_err;
use crate::files::spec_repr;
use crate::files::FileTrait;
use crate::files::Matrix;

verus! {

/// The tracked pairings, in registration order.
pub struct Registry {
    pub entries: Vec<Matrix>,
}

impl Registry {
    /// The home-side representations, in order.
    pub open spec fn spec_keys(&self) -> Seq<Seq<char>> {
        Seq::new(self.entries@.len(), |i: int| self.entries@[i].spec_key_repr())
    }

    /// Key–value representation pairs, in order.
    pub open spec fn spec_pairs(&self) -> Seq<(Seq<char>, Seq<char>)> {
        Seq::new(
            self.entries@.len(),
            |i: int| (self.entries@[i].spec_key_repr(), self.entries@[i].spec_value_repr()),
        )
    }

    /// Entries are well formed and no home representation repeats.
    pub open spec fn wf(&self) -> bool {
        &&& forall|i: int| 0 <= i < self.entries@.len() ==> (#[trigger] self.entries@[i]).wf()
        &&& forall|i: int, j: int|
            0 <= i < j < self.entries@.len() ==> self.entries@[i].spec_key_repr()
                != self.entries@[j].spec_key_repr()
    }

    /// An empty registry.
    pub fn new() -> (r: Registry)
        ensures
            r.entries@.len() == 0,
            r.wf(),
    {
        Registry { entries: Vec::new() }
    }

    /// How many pairings are tracked.
    pub fn len(&self) -> (r: usize)
        ensures
            r == self.entries@.len(),
    {
        self.entries.len()
    }

    /// The pairing at position `i`.
    pub fn get(&self, i: usize) -> (r: &Matrix)
        requires
            i < self.entries@.len(),
        ensures
            *r == self.entries@[i as int],
    {
        &self.entries[i]
    }

    /// Is `repr` already a registry key?
    pub fn contains_home(&self, repr: &String) -> (r: bool)
        ensures
            r == self.spec_keys().contains(repr@),
    {
        let mut i: usize = 0;
        while i < self.entries.len()
            invariant
                i <= self.entries@.len(),
                forall|j: int| 0 <= j < i ==> self.spec_keys()[j] != repr@,
            decreases self.entries@.len() - i,
        {
            let key = self.entries[i].key.repr();
            if key.eq(repr) {
                proof {
                    assert(self.spec_keys()[i as int] == repr@);
                }
                return true;
            }
            i = i + 1;
        }
        proof {
            if self.spec_keys().contains(repr@) {
                let j = choose|j: int|
                    0 <= j < self.spec_keys().len() && self.spec_keys()[j] == repr@;
            }
        }
        false
    }

    /// Appends a pairing; a key the registry already holds is a
    /// duplicate and changes nothing.
    pub fn insert(&mut self, m: Matrix) -> (r: Result<(), Error>)
        requires
            old(self).wf(),
            m.wf(),
        ensures
            final(self).wf(),
            match r {
                Ok(()) => {
                    &&& !old(self).spec_keys().contains(m.spec_key_repr())
                    &&& final(self).entries@ == old(self).entries@.push(m)
                    &&& final(self).spec_pairs() =~= old(self).spec_pairs().push(
                        (m.spec_key_repr(), m.spec_value_repr()),
                    )
                },
                Err(e) => {
                    &&& e is DuplicateEntryError
                    &&& old(self).spec_keys().contains(m.spec_key_repr())
                    &&& final(self).entries@ == old(self).entries@
                },
            },
    {
        let repr = m.key.repr();
        if self.contains_home(&repr) {
            return Err(Error::DuplicateEntryError(repr));
        }
        let ghost before = self.entries@;
        self.entries.push(m);
        proof {
            let after = self.entries@;
            assert(after =~= before.push(m));
            assert forall|a: int, b: int|
                0 <= a < b < after.len() implies after[a].spec_key_repr()
                != after[b].spec_key_repr() by {
                if b == before.len() {
                    assert(old(self).spec_keys()[a] == before[a].spec_key_repr());
                    if before[a].spec_key_repr() == m.spec_key_repr() {
                        assert(old(self).spec_keys().contains(m.spec_key_repr()));
                    }
                } else {
                    assert(after[a] == before[a] && after[b] == before[b]);
                }
            }
        }
        Ok(())
    }

    /// Removes the pairing keyed `repr`, telling whether one was there.
    pub fn remove(&mut self, repr: &String) -> (r: bool)
        requires
            old(self).wf(),
        ensures
            final(self).wf(),
            r == old(self).spec_keys().contains(repr@),
            r ==> exists|i: int|
                0 <= i < old(self).entries@.len() && old(self).entries@[i].spec_key_repr() == repr@
                    && final(self).entries@ == old(self).entries@.remove(i),
            !r ==> final(self).entries@ == old(self).entries@,
    {
        let mut i: usize = 0;
        while i < self.entries.len()
            invariant
                i <= self.entries@.len(),
                *self == *old(self),
                old(self).wf(),
                forall|j: int| 0 <= j < i ==> old(self).spec_keys()[j] != repr@,
            decreases self.entries@.len() - i,
        {
            let key = self.entries[i].key.repr();
            if key.eq(repr) {
                proof {
                    assert(old(self).spec_keys()[i as int] == repr@);
                    assert(old(self).spec_keys().contains(repr@));
                }
                self.entries.remove(i);
                proof {
                    let before = old(self).entries@;
                    let after = self.entries@;
                    assert(after =~= before.remove(i as int));
                    assert(before[i as int].spec_key_repr() == repr@);
                    assert forall|a: int, b: int|
                        0 <= a < b < after.len() implies after[a].spec_key_repr()
                        != after[b].spec_key_repr() by {
                        let a0 = if a < i as int {
                            a
                        } else {
                            a + 1
                        };
                        let b0 = if b < i as int {
                            b
                        } else {
                            b + 1
                        };
                        assert(after[a] == before[a0] && after[b] == before[b0]);
                    }
                }
                return true;
            }
            i = i + 1;
        }
        proof {
            if old(self).spec_keys().contains(repr@) {
                let j = choose|j: int|
                    0 <= j < old(self).spec_keys().len() && old(self).spec_keys()[j] == repr@;
            }
        }
        false
    }

    /// The archive representation registered under `repr`, if any.
    pub fn lookup(&self, repr: &String) -> (r: Option<String>)
        ensures
            match r {
                Some(v) => spec_lookup(self.spec_pairs(), repr@) == Some(v@),
                None => spec_lookup(self.spec_pairs(), repr@) is None,
            },
    {
        let ghost pairs = self.spec_pairs();
        let mut i: usize = 0;
        proof {
            assert(pairs.subrange(0, pairs.len() as int) =~= pairs);
        }
        while i < self.entries.len()
            invariant
                i <= self.entries@.len(),
                pairs == self.spec_pairs(),
                spec_lookup(pairs, repr@) == spec_lookup(
                    pairs.subrange(i as int, pairs.len() as int),
                    repr@,
                ),
            decreases self.entries@.len() - i,
        {
            let ghost rest = pairs.subrange(i as int, pairs.len() as int);
            proof {
                assert(rest[0] == pairs[i as int]);
                assert(rest.drop_first() =~= pairs.subrange(i + 1, pairs.len() as int));
            }
            let key = self.entries[i].key.repr();
            if key.eq(repr) {
                return Some(self.entries[i].value.repr());
            }
            i = i + 1;
        }
        proof {
            assert(pairs.subrange(self.entries@.len() as int, pairs.len() as int)
                =~= Seq::<(Seq<char>, Seq<char>)>::empty());
        }
        None
    }

    /// The first registered ancestor with the longest home path: the
    /// deepest tracked directory that `entry` is nested inside.
    pub fn find_ancestor_of(&self, entry: &Matrix) -> (r: Option<usize>)
        ensures
            match r {
                Some(i) => 0 <= i < self.entries@.len() && spec_is_child_of(
                    *entry,
                    self.entries@[i as int],
                ) && (forall|j: int|
                    0 <= j < self.entries@.len() && spec_is_child_of(
                        *entry,
                        #[trigger] self.entries@[j],
                    ) ==> self.entries@[j].key.spec_path().len()
                        <= self.entries@[i as int].key.spec_path().len()) && (forall|j: int|
                    0 <= j < i && spec_is_child_of(*entry, #[trigger] self.entries@[j])
                        ==> self.entries@[j].key.spec_path().len()
                        < self.entries@[i as int].key.spec_path().len()),
                None => forall|j: int|
                    0 <= j < self.entries@.len() ==> !spec_is_child_of(
                        *entry,
                        #[trigger] self.entries@[j],
                    ),
            },
    {
        let mut best: Option<usize> = None;
        let mut best_len: usize = 0;
        let mut i: usize = 0;
        while i < self.entries.len()
            invariant
                i <= self.entries@.len(),
                match best {
                    None => (best_len == 0 && forall|j: int|
                        0 <= j < i ==> !spec_is_child_of(*entry, #[trigger] self.entries@[j])),
                    Some(b) => 0 <= b < i && spec_is_child_of(*entry, self.entries@[b as int])
                        && best_len == self.entries@[b as int].key.spec_path().len() && (forall|
                        j: int,
                    |
                        0 <= j < i && spec_is_child_of(*entry, #[trigger] self.entries@[j])
                            ==> self.entries@[j].key.spec_path().len() <= best_len) && (forall|
                        j: int,
                    |
                        0 <= j < b && spec_is_child_of(*entry, #[trigger] self.entries@[j])
                            ==> self.entries@[j].key.spec_path().len() < best_len),
                },
            decreases self.entries@.len() - i,
        {
            if entry.is_child_of(&self.entries[i]) {
                let kp = self.entries[i].key.path();
                let l = kp.len();
                let better = match best {
                    None => true,
                    Some(_) => l > best_len,
                };
                if better {
                    best = Some(i);
                    best_len = l;
                }
            }
            i = i + 1;
        }
        best
    }

    /// The representation pairs, for the persisted store.
    pub fn to_pairs(&self) -> (r: Vec<(String, String)>)
        ensures
            r@.len() == self.entries@.len(),
            forall|i: int|
                0 <= i < r@.len() ==> (#[trigger] r@[i]).0@ == self.entries@[i].spec_key_repr()
                    && r@[i].1@ == self.entries@[i].spec_value_repr(),
    {
        let mut r: Vec<(String, String)> = Vec::new();
        let mut i: usize = 0;
        while i < self.entries.len()
            invariant
                i <= self.entries@.len(),
                r@.len() == i,
                forall|j: int|
                    0 <= j < i ==> (#[trigger] r@[j]).0@ == self.entries@[j].spec_key_repr()
                        && r@[j].1@ == self.entries@[j].spec_value_repr(),
            decreases self.entries@.len() - i,
        {
            let key = self.entries[i].key.repr();
            let value = self.entries[i].value.repr();
            r.push((key, value));
            i = i + 1;
        }
        r
    }

    /// Parses the persisted pairs, in order.  Every pair must resolve
    /// and no home representation may repeat; the first offender decides
    /// the error.
    pub fn from_pairs(pairs: &Vec<(String, String)>, environment: &Environment) -> (r: Result<
        Registry,
        Error,
    >)
        ensures
            match r {
                Ok(reg) => reg.wf() && reg.entries@.len() == pairs@.len() && forall|i: int|
                    0 <= i < pairs@.len() ==> spec_pairing(
                        environment.view_vars(),
                        (#[trigger] pairs@[i]).0@,
                        pairs@[i].1@,
                    ) == Some(reg.entries@[i].model()),
                Err(e) => (e is DuplicateEntryError || e is EnvironmentError || e
                    is InvalidPathError) && ((e is EnvironmentError || e is InvalidPathError)
                    ==> exists|i: int|
                    0 <= i < pairs@.len() && spec_pairing(
                        environment.view_vars(),
                        (#[trigger] pairs@[i]).0@,
                        pairs@[i].1@,
                    ) is None) && (e is DuplicateEntryError ==> exists|i: int, j: int|
                    {
                        let a = spec_pairing(
                            environment.view_vars(),
                            (#[trigger] pairs@[i]).0@,
                            pairs@[i].1@,
                        );
                        let b = spec_pairing(
                            environment.view_vars(),
                            (#[trigger] pairs@[j]).0@,
                            pairs@[j].1@,
                        );
                        &&& 0 <= i < j < pairs@.len()
                        &&& a is Some
                        &&& b is Some
                        &&& crate::files::spec_repr(a->Some_0.key_env, a->Some_0.key_rel)
                            == crate::files::spec_repr(b->Some_0.key_env, b->Some_0.key_rel)
                    }),
            },
    {
        let mut reg = Registry::new();
        let mut i: usize = 0;
        while i < pairs.len()
            invariant
                i <= pairs@.len(),
                reg.wf(),
                reg.entries@.len() == i,
                forall|j: int|
                    0 <= j < i ==> spec_pairing(
                        environment.view_vars(),
                        (#[trigger] pairs@[j]).0@,
                        pairs@[j].1@,
                    ) == Some(reg.entries@[j].model()),
            decreases pairs@.len() - i,
        {
            let m = match Matrix::new(&pairs[i].0, &pairs[i].1, environment) {
                Err(e) => {
                    proof {
                        assert(spec_pairing(
                            environment.view_vars(),
                            pairs@[i as int].0@,
                            pairs@[i as int].1@,
                        ) is None);
                    }
                    return Err(e);
                },
                Ok(m) => m,
            };
            let ghost model = m.model();
            match reg.insert(m) {
                Err(e) => {
                    proof {
                        let keys = reg.spec_keys();
                        let j = choose|j: int|
                            0 <= j < keys.len() && keys[j] == spec_repr(
                                model.key_env,
                                model.key_rel,
                            );
                        assert(spec_pairing(
                            environment.view_vars(),
                            pairs@[j].0@,
                            pairs@[j].1@,
                        ) == Some(reg.entries@[j].model()));
                        assert(reg.entries@[j].spec_key_repr() == spec_repr(
                            reg.entries@[j].model().key_env,
                            reg.entries@[j].model().key_rel,
                        ));
                        assert(spec_pairing(
                            environment.view_vars(),
                            pairs@[i as int].0@,
                            pairs@[i as int].1@,
                        ) == Some(model));
                    }
                    return Err(e);
                },
                Ok(()) => {},
            }
            i = i + 1;
        }
        Ok(reg)
    }
}

/// The pairs without the first one keyed `k`; untouched entries keep
/// their order.
pub open spec fn spec_remove_key(pairs: Seq<(Seq<char>, Seq<char>)>, k: Seq<char>) -> Seq<
    (Seq<char>, Seq<char>),
>
    decreases pairs.len(),
{
    if pairs.len() == 0 {
        pairs
    } else if pairs[0].0 == k {
        pairs.drop_first()
    } else {
        seq![pairs[0]] + spec_remove_key(pairs.drop_first(), k)
    }
}

/// Removing at the first occurrence is what `spec_remove_key` computes.
pub proof fn lemma_remove_key_at(pairs: Seq<(Seq<char>, Seq<char>)>, k: Seq<char>, i: int)
    requires
        0 <= i < pairs.len(),
        pairs[i].0 == k,
        forall|j: int| 0 <= j < i ==> (#[trigger] pairs[j]).0 != k,
    ensures
        spec_remove_key(pairs, k) =~= pairs.remove(i),
    decreases pairs.len(),
{
    if i == 0 {
        assert(pairs.drop_first() =~= pairs.remove(0));
    } else {
        let t = pairs.drop_first();
        assert(t[i - 1].0 == k);
        assert forall|j: int| 0 <= j < i - 1 implies (#[trigger] t[j]).0 != k by {
            assert(t[j] == pairs[j + 1]);
        }
        lemma_remove_key_at(t, k, i - 1);
        assert(seq![pairs[0]] + t.remove(i - 1) =~= pairs.remove(i));
    }
}

/// Removing a key that is not there changes nothing.
pub proof fn lemma_remove_key_absent(pairs: Seq<(Seq<char>, Seq<char>)>, k: Seq<char>)
    requires
        forall|j: int| 0 <= j < pairs.len() ==> (#[trigger] pairs[j]).0 != k,
    ensures
        spec_remove_key(pairs, k) =~= pairs,
    decreases pairs.len(),
{
    if pairs.len() > 0 {
        let t = pairs.drop_first();
        assert forall|j: int| 0 <= j < t.len() implies (#[trigger] t[j]).0 != k by {
            assert(t[j] == pairs[j + 1]);
        }
        lemma_remove_key_absent(t, k);
        assert(seq![pairs[0]] + t =~= pairs);
    }
}

/// A value freshly pushed under a new key is what lookup finds: the
/// round trip from registration to lookup returns the registered
/// archive representation.
pub proof fn lemma_lookup_after_push(
    pairs: Seq<(Seq<char>, Seq<char>)>,
    key: Seq<char>,
    value: Seq<char>,
)
    requires
        forall|i: int| 0 <= i < pairs.len() ==> (#[trigger] pairs[i]).0 != key,
    ensures
        spec_lookup(pairs.push((key, value)), key) == Some(value),
    decreases pairs.len(),
{
    let pushed = pairs.push((key, value));
    if pairs.len() == 0 {
        assert(pushed[0] == (key, value));
    } else {
        assert(pushed[0] == pairs[0]);
        assert(pushed.drop_first() =~= pairs.drop_first().push((key, value)));
        assert forall|i: int|
            0 <= i < pairs.drop_first().len() implies (#[trigger] pairs.drop_first()[i]).0
            != key by {
            assert(pairs.drop_first()[i] == pairs[i + 1]);
        }
        lemma_lookup_after_push(pairs.drop_first(), key, value);
    }
}

/// Registering a pairing whose key is fresh, then looking that key up,
/// yields exactly the pairing's archive representation.
pub proof fn lemma_register_then_lookup(reg: Registry, m: Matrix)
    requires
        reg.wf(),
        !reg.spec_keys().contains(m.spec_key_repr()),
    ensures
        spec_lookup(
            reg.spec_pairs().push((m.spec_key_repr(), m.spec_value_repr())),
            m.spec_key_repr(),
        ) == Some(m.spec_value_repr()),
{
    assert forall|i: int|
        0 <= i < reg.spec_pairs().len() implies (#[trigger] reg.spec_pairs()[i]).0
        != m.spec_key_repr() by {
        if reg.spec_pairs()[i].0 == m.spec_key_repr() {
            assert(reg.spec_keys()[i] == m.spec_key_repr());
            assert(reg.spec_keys().contains(m.spec_key_repr()));
        }
    }
    lemma_lookup_after_push(reg.spec_pairs(), m.spec_key_repr(), m.spec_value_repr());
}

} // verus!
