//! Per-directory ignore rules.  A tracked directory's rule file excludes
//! everything beneath it by default; registering a descendant on its own
//! carves a chain of negation entries, one per directory between the
//! descendant and the tracked root, so version-control tooling keeps
//! seeing it.

use vstd::prelude::*;

use crate::errors::Error;
use crate::paths::is_prefix_of;
use crate::paths::strip_prefix;

verus! {

/// The line that excludes a directory's entire contents.
pub open spec fn spec_exclude_all() -> Seq<char> {
    "*"@
}

/// The line that re-includes the named child.
pub open spec fn spec_negation(c: Seq<char>) -> Seq<char> {
    seq!['!', '/'] + c
}

/// A rule file after carving `c`: the negation line appended, unless it
/// is already there.
pub open spec fn spec_carve_file(lines: Seq<Seq<char>>, c: Seq<char>) -> Seq<Seq<char>> {
    if lines.contains(spec_negation(c)) {
        lines
    } else {
        lines.push(spec_negation(c))
    }
}

/// The whole chain after carving: file `i`, belonging to the `i`-th
/// directory on the way down, gains the negation for the next component.
pub open spec fn spec_carve(chain: Seq<Seq<Seq<char>>>, rel: Seq<Seq<char>>) -> Seq<
    Seq<Seq<char>>,
> {
    Seq::new(chain.len(), |i: int| spec_carve_file(chain[i], rel[i]))
}

/// One directory's ignore-rule file, line by line.
pub struct IgnoreFile {
    pub lines: Vec<String>,
}

impl IgnoreFile {
    /// The lines the contracts speak of.
    pub open spec fn view_lines(&self) -> Seq<Seq<char>> {
        self.lines.deep_view()
    }

    /// The rule file a freshly tracked directory starts with: exclude
    /// everything beneath it.
    pub fn seed_exclusions() -> (r: IgnoreFile)
        ensures
            r.view_lines() =~= seq![spec_exclude_all()],
    {
        let mut lines: Vec<String> = Vec::new();
        lines.push("*".to_owned());
        IgnoreFile { lines }
    }

    /// Is this exact line already present?
    pub fn contains_line(&self, line: &String) -> (r: bool)
        ensures
            r == self.view_lines().contains(line@),
    {
        let mut i: usize = 0;
        while i < self.lines.len()
            invariant
                i <= self.lines@.len(),
                forall|j: int| 0 <= j < i ==> self.view_lines()[j] != line@,
            decreases self.lines@.len() - i,
        {
            if self.lines[i].eq(line) {
                proof {
                    assert(self.view_lines()[i as int] == line@);
                }
                return true;
            }
            i = i + 1;
        }
        proof {
            if self.view_lines().contains(line@) {
                let j = choose|j: int|
                    0 <= j < self.view_lines().len() && self.view_lines()[j] == line@;
            }
        }
        false
    }
}

/// The re-include line for one child component.
pub fn negation_line(component: &String) -> (r: String)
    ensures
        r@ == spec_negation(component@),
{
    proof {
        reveal_strlit("!/");
        assert("!/"@ =~= seq!['!', '/']);
    }
    let mut r = "!/".to_owned();
    r.append(component.as_str());
    r
}

/// One rule file after carving `component` into it.
pub fn carve_file(file: &IgnoreFile, component: &String) -> (r: IgnoreFile)
    ensures
        r.view_lines() == spec_carve_file(file.view_lines(), component@),
{
    let line = negation_line(component);
    let mut lines = file.lines.clone();
    if file.contains_line(&line) {
        proof {
            assert(lines.deep_view() =~= file.view_lines());
        }
        IgnoreFile { lines }
    } else {
        let ghost before = lines.deep_view();
        lines.push(line);
        proof {
            assert(before =~= file.view_lines());
            assert(lines.deep_view() =~= file.view_lines().push(spec_negation(component@)));
        }
        IgnoreFile { lines }
    }
}

/// Carves the negation for the nested path into every rule file on the
/// chain: `chain[i]` belongs to the directory `rel[..i]` below the
/// tracked root, and gains the entry for `rel[i]`.
pub fn carve_exception(chain: &Vec<IgnoreFile>, rel: &Vec<String>) -> (r: Vec<IgnoreFile>)
    requires
        chain@.len() == rel@.len(),
    ensures
        r@.len() == chain@.len(),
        forall|i: int|
            0 <= i < r@.len() ==> (#[trigger] r@[i]).view_lines() == spec_carve_file(
                chain@[i].view_lines(),
                rel.deep_view()[i],
            ),
{
    let mut r: Vec<IgnoreFile> = Vec::new();
    let mut i: usize = 0;
    while i < chain.len()
        invariant
            i <= chain@.len() == rel@.len(),
            r@.len() == i,
            forall|j: int|
                0 <= j < i ==> (#[trigger] r@[j]).view_lines() == spec_carve_file(
                    chain@[j].view_lines(),
                    rel.deep_view()[j],
                ),
        decreases chain@.len() - i,
    {
        r.push(carve_file(&chain[i], &rel[i]));
        i = i + 1;
    }
    r
}

/// Carves the exception for `nested`, which must lie beneath the tracked
/// directory `ancestor`; `chain` holds the rule files of `ancestor` and
/// of every directory further down towards `nested`, in that order.
pub fn unignore(chain: &Vec<IgnoreFile>, nested: &Vec<String>, ancestor: &Vec<String>) -> (r:
    Result<Vec<IgnoreFile>, Error>)
    ensures
        match r {
            Ok(files) => {
                &&& is_prefix_of(ancestor.deep_view(), nested.deep_view())
                &&& chain@.len() == nested.deep_view().len() - ancestor.deep_view().len()
                &&& files@.len() == chain@.len()
                &&& forall|i: int|
                    0 <= i < files@.len() ==> (#[trigger] files@[i]).view_lines()
                        == spec_carve_file(
                        chain@[i].view_lines(),
                        nested.deep_view()[ancestor.deep_view().len() + i],
                    )
            },
            Err(e) => {
                &&& (e is InvalidPathError <==> !is_prefix_of(
                    ancestor.deep_view(),
                    nested.deep_view(),
                ))
                &&& (e is IoError <==> (is_prefix_of(ancestor.deep_view(), nested.deep_view())
                    && chain@.len() != nested.deep_view().len() - ancestor.deep_view().len()))
                &&& (e is InvalidPathError || e is IoError)
            },
        },
{
    let rel = match strip_prefix(nested, ancestor) {
        None => {
            return Err(Error::InvalidPathError(String::new()));
        },
        Some(rel) => rel,
    };
    if chain.len() != rel.len() {
        proof {
            assert(rel.deep_view().len() == rel@.len());
            assert(rel.deep_view().len() == nested.deep_view().len()
                - ancestor.deep_view().len());
        }
        return Err(Error::IoError("ignore rule chain does not match the nested path".to_owned()));
    }
    let files = carve_exception(chain, &rel);
    proof {
        let a = ancestor.deep_view();
        let n = nested.deep_view();
        assert(a.len() == ancestor@.len() && n.len() == nested@.len());
        assert(rel.deep_view().len() == rel@.len());
        assert(rel.deep_view() == n.subrange(a.len() as int, n.len() as int));
        assert(chain@.len() == n.len() - a.len());
        assert forall|i: int| 0 <= i < files@.len() implies (#[trigger] files@[i]).view_lines()
            == spec_carve_file(chain@[i].view_lines(), n[a.len() + i]) by {
            assert(rel.deep_view()[i] == n.subrange(a.len() as int, n.len() as int)[i]);
            assert(n.subrange(a.len() as int, n.len() as int)[i] == n[a.len() + i]);
        }
    }
    Ok(files)
}

/// Carving an exception is idempotent: running it twice over the same
/// chain leaves exactly the files the first run left.
pub proof fn lemma_carve_exception_idempotent(chain: Seq<Seq<Seq<char>>>, rel: Seq<Seq<char>>)
    requires
        chain.len() == rel.len(),
    ensures
        spec_carve(spec_carve(chain, rel), rel) =~= spec_carve(chain, rel),
{
    let once = spec_carve(chain, rel);
    let twice = spec_carve(once, rel);
    assert forall|i: int| 0 <= i < twice.len() implies twice[i] == once[i] by {
        let lines = chain[i];
        let neg = spec_negation(rel[i]);
        if !lines.contains(neg) {
            assert(lines.push(neg)[lines.len() as int] == neg);
            assert(lines.push(neg).contains(neg));
        }
    }
}

} // verus!
