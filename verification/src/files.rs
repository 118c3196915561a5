//! Path references and entry pairings.  A home-side reference
//! (`Symlink`) and an archive-side reference (`Dotfile`) each pair a
//! root variable with the components below that root; a `Matrix` pairs
//! the two sides of one managed dotfile.

use vstd::prelude::*;

use crate::environment::archive_var;
use crate::environment::home_var;
use crate::environment::spec_expand;
use crate::environment::spec_lookup;
use crate::environment::spec_root_path;
use crate::environment::Environment;
use crate::errors::Error;
use crate::paths::components_ok;
use crate::paths::concat_paths;
use crate::paths::is_prefix_of;
use crate::paths::is_strict_prefix_of;
use crate::paths::lemma_append_prefix;
use crate::paths::lemma_prefixes_comparable;
use crate::paths::strip_prefix;
use crate::paths::valid_component;
use crate::paths::valid_path;
use crate::text::join_path;
use crate::text::render_abs;
use crate::text::spec_dec;
use crate::text::spec_join;
use crate::text::spec_render_abs;
use crate::text::spec_split;
use crate::text::split_path;
use crate::text::u64_to_dec;

verus! {

/// May one leading dot be taken off this component?  Only when something
/// valid is left over: `...` would strip to the escape marker `..`.
pub open spec fn stripable(c: Seq<char>) -> bool {
    c.len() >= 2 && c[0] == '.' && c.subrange(1, c.len() as int) != seq!['.', '.']
}

/// The component with one leading dot removed, when that leaves a
/// usable name.
pub open spec fn strip_component(c: Seq<char>) -> Seq<char> {
    if stripable(c) {
        c.drop_first()
    } else {
        c
    }
}

/// Dot-stripping keeps a component valid.
pub proof fn lemma_strip_component_valid(c: Seq<char>)
    requires
        valid_component(c),
    ensures
        valid_component(strip_component(c)),
{
    if stripable(c) {
        let d = c.drop_first();
        assert(d =~= c.subrange(1, c.len() as int));
        if d.contains('/') {
            let i = choose|i: int| 0 <= i < d.len() && d[i] == '/';
            assert(c[i + 1] == '/');
            assert(c.contains('/'));
        }
        if d == seq!['.'] {
            assert(d.len() == seq!['.'].len() && seq!['.'].len() == 1);
            assert(c.len() == 2);
            assert(c[1] == d[0] && d[0] == seq!['.'][0]);
            assert(c =~= seq!['.', '.']);
        }
    }
}

/// The path with the final component dot-stripped: archived files keep
/// no leading dot on their file name.
pub open spec fn strip_dot_last(p: Seq<Seq<char>>) -> Seq<Seq<char>> {
    if p.len() == 0 {
        p
    } else {
        p.update(p.len() - 1, strip_component(p.last()))
    }
}

/// The path with the first component dot-stripped: the dotted home name
/// of a directory matches its undotted archive name.
pub open spec fn strip_dot_first(p: Seq<Seq<char>>) -> Seq<Seq<char>> {
    if p.len() == 0 {
        p
    } else {
        p.update(0, strip_component(p[0]))
    }
}

pub proof fn lemma_strip_dot_last_valid(p: Seq<Seq<char>>)
    requires
        valid_path(p),
    ensures
        valid_path(strip_dot_last(p)),
        strip_dot_last(p).len() == p.len(),
{
    if p.len() > 0 {
        lemma_strip_component_valid(p.last());
    }
}

pub proof fn lemma_strip_dot_first_valid(p: Seq<Seq<char>>)
    requires
        valid_path(p),
    ensures
        valid_path(strip_dot_first(p)),
        strip_dot_first(p).len() == p.len(),
{
    if p.len() > 0 {
        lemma_strip_component_valid(p[0]);
    }
}

/// The canonical persisted representation: `$VARIABLE/` followed by the
/// root-relative components.
pub open spec fn spec_repr(env: Seq<char>, rel: Seq<Seq<char>>) -> Seq<char> {
    seq!['$'] + env + seq!['/'] + spec_join(rel)
}

/// Resolving a raw string against a root variable: placeholders are
/// expanded; an absolute result must lie under the root, a relative one
/// is taken as root-relative; components must be valid; the archive
/// side (`strip`) loses the leading dot of its file name.  `None` when
/// the environment lacks a variable or the path is unusable.
pub open spec fn spec_resolution(
    vars: Seq<(Seq<char>, Seq<char>)>,
    raw: Seq<char>,
    var: Seq<char>,
    strip: bool,
) -> Option<(Seq<Seq<char>>, Seq<Seq<char>>)> {
    match spec_expand(raw, vars) {
        None => None,
        Some(x) => match spec_root_path(vars, var) {
            None => None,
            Some(root) => {
                let p = spec_split(x);
                if !valid_path(p) {
                    None
                } else if x.len() > 0 && x[0] == '/' {
                    if is_prefix_of(root, p) {
                        Some(
                            (
                                root,
                                if strip {
                                    strip_dot_last(p.subrange(root.len() as int, p.len() as int))
                                } else {
                                    p.subrange(root.len() as int, p.len() as int)
                                },
                            ),
                        )
                    } else {
                        None
                    }
                } else {
                    Some(
                        (
                            root,
                            if strip {
                                strip_dot_last(p)
                            } else {
                                p
                            },
                        ),
                    )
                }
            },
        },
    }
}

/// A successful resolution yields only valid components on both sides.
pub proof fn lemma_resolution_valid(
    vars: Seq<(Seq<char>, Seq<char>)>,
    raw: Seq<char>,
    var: Seq<char>,
    strip: bool,
)
    requires
        spec_resolution(vars, raw, var, strip) is Some,
    ensures
        valid_path(spec_resolution(vars, raw, var, strip)->Some_0.0),
        valid_path(spec_resolution(vars, raw, var, strip)->Some_0.1),
{
    let x = spec_expand(raw, vars)->Some_0;
    let root = spec_root_path(vars, var)->Some_0;
    let p = spec_split(x);
    if x.len() > 0 && x[0] == '/' {
        let rel = p.subrange(root.len() as int, p.len() as int);
        assert forall|i: int| 0 <= i < rel.len() implies valid_component(#[trigger] rel[i]) by {
            assert(rel[i] == p[i + root.len()]);
        }
        if strip {
            lemma_strip_dot_last_valid(rel);
        }
    } else {
        if strip {
            lemma_strip_dot_last_valid(p);
        }
    }
}

/// When resolution fails, was it the environment's fault (an unbound
/// variable) rather than the path's shape?
pub open spec fn spec_resolution_env_err(
    vars: Seq<(Seq<char>, Seq<char>)>,
    raw: Seq<char>,
    var: Seq<char>,
) -> bool {
    spec_expand(raw, vars) is None || spec_lookup(vars, var) is None
}

/// One side of a pairing: which variable roots it, where that root is,
/// and the components beneath it.
pub trait FileTrait: Sized {
    /// The root variable's name.
    spec fn spec_env(&self) -> Seq<char>;

    /// The resolved root, as absolute components.
    spec fn spec_root(&self) -> Seq<Seq<char>>;

    /// The components below the root.
    spec fn spec_rel(&self) -> Seq<Seq<char>>;

    /// Root and relative components are all valid.
    open spec fn wf(&self) -> bool {
        valid_path(self.spec_root()) && valid_path(self.spec_rel())
    }

    /// The absolute location, as components.
    open spec fn spec_path(&self) -> Seq<Seq<char>> {
        self.spec_root() + self.spec_rel()
    }

    fn env(&self) -> (r: &String)
        ensures
            r@ == self.spec_env(),
    ;

    fn root(&self) -> (r: &Vec<String>)
        ensures
            r.deep_view() == self.spec_root(),
    ;

    fn relpath(&self) -> (r: &Vec<String>)
        ensures
            r.deep_view() == self.spec_rel(),
    ;

    fn path(&self) -> (r: Vec<String>)
        ensures
            r.deep_view() == self.spec_path(),
    ;

    fn repr(&self) -> (r: String)
        ensures
            r@ == spec_repr(self.spec_env(), self.spec_rel()),
    ;

    fn string(&self) -> (r: String)
        ensures
            r@ == spec_render_abs(self.spec_path()),
    ;
}

/// The home-side, link-bearing reference of a pairing.
pub struct Symlink {
    pub env: String,
    pub root: Vec<String>,
    pub rel: Vec<String>,
}

/// The archive-side, stored reference of a pairing; its file name is
/// kept without the leading dot.
pub struct Dotfile {
    pub env: String,
    pub root: Vec<String>,
    pub rel: Vec<String>,
}

fn render_repr(env: &String, rel: &Vec<String>) -> (r: String)
    ensures
        r@ == spec_repr(env@, rel.deep_view()),
{
    proof {
        reveal_strlit("$");
        reveal_strlit("/");
        assert("$"@ =~= seq!['$']);
        assert("/"@ =~= seq!['/']);
    }
    let mut r = "$".to_owned();
    r.append(env.as_str());
    r.append("/");
    let joined = join_path(rel);
    r.append(joined.as_str());
    proof {
        assert(r@ =~= spec_repr(env@, rel.deep_view()));
    }
    r
}

/// Resolution shared by both sides.
fn resolve_side(
    raw: &String,
    var: String,
    strip: bool,
    environment: &Environment,
) -> (r: Result<(String, Vec<String>, Vec<String>), Error>)
    ensures
        match r {
            Ok((env, root, rel)) => env@ == var@ && spec_resolution(
                environment.view_vars(),
                raw@,
                var@,
                strip,
            ) == Some((root.deep_view(), rel.deep_view())),
            Err(e) => spec_resolution(environment.view_vars(), raw@, var@, strip) is None && (e
                is EnvironmentError <==> spec_resolution_env_err(
                environment.view_vars(),
                raw@,
                var@,
            )) && (e is EnvironmentError || e is InvalidPathError),
        },
{
    let expanded = match environment.expand(raw.as_str()) {
        Err(e) => {
            return Err(e);
        },
        Ok(x) => x,
    };
    let root = match environment.root_path(&var) {
        Err(e) => {
            return Err(e);
        },
        Ok(p) => p,
    };
    let xs = expanded.as_str();
    let comps = split_path(xs);
    if !components_ok(&comps) {
        return Err(Error::InvalidPathError(expanded));
    }
    let rel = if xs.unicode_len() > 0 && xs.get_char(0) == '/' {
        match strip_prefix(&comps, &root) {
            None => {
                return Err(Error::InvalidPathError(expanded));
            },
            Some(rest) => rest,
        }
    } else {
        comps
    };
    let rel = if strip {
        strip_last_dot(rel)
    } else {
        rel
    };
    Ok((var, root, rel))
}

/// Removes the leading dot of the final component, when one is there to
/// remove.
pub fn strip_last_dot(mut rel: Vec<String>) -> (r: Vec<String>)
    ensures
        r.deep_view() == strip_dot_last(rel.deep_view()),
{
    if rel.len() == 0 {
        proof {
            assert(rel.deep_view().len() == 0);
        }
        return rel;
    }
    let last = rel.len() - 1;
    let stripped = strip_component_exec(&rel[last]);
    let ghost before = rel.deep_view();
    rel.set(last, stripped);
    proof {
        assert(rel.deep_view() =~= strip_dot_last(before));
    }
    rel
}

/// Removes the leading dot of the first component, when one is there to
/// remove.
pub fn strip_first_dot(mut rel: Vec<String>) -> (r: Vec<String>)
    ensures
        r.deep_view() == strip_dot_first(rel.deep_view()),
{
    if rel.len() == 0 {
        proof {
            assert(rel.deep_view().len() == 0);
        }
        return rel;
    }
    let stripped = strip_component_exec(&rel[0]);
    let ghost before = rel.deep_view();
    rel.set(0, stripped);
    proof {
        assert(rel.deep_view() =~= strip_dot_first(before));
    }
    rel
}

fn strip_component_exec(c: &String) -> (r: String)
    ensures
        r@ == strip_component(c@),
{
    let s = c.as_str();
    let n = s.unicode_len();
    if n >= 2 && s.get_char(0) == '.' && !(n == 3 && s.get_char(1) == '.' && s.get_char(2) == '.') {
        proof {
            if c@.subrange(1, c@.len() as int) == seq!['.', '.'] {
                assert(c@.subrange(1, c@.len() as int).len() == seq!['.', '.'].len());
                assert(seq!['.', '.'].len() == 2);
                assert(c@.len() == 3);
                assert(c@[1] == seq!['.', '.'][0] && c@[2] == seq!['.', '.'][1]);
                assert(c@[1] == '.' && c@[2] == '.');
            }
            assert(stripable(c@));
        }
        let r = s.substring_char(1, n).to_owned();
        proof {
            assert(r@ =~= c@.drop_first());
        }
        r
    } else {
        proof {
            if stripable(c@) {
                assert(c@.len() >= 2 && c@[0] == '.');
                if c@.len() == 3 && c@[1] == '.' && c@[2] == '.' {
                    assert(c@.subrange(1, c@.len() as int) =~= seq!['.', '.']);
                }
            }
        }
        c.clone()
    }
}

impl FileTrait for Symlink {
    open spec fn spec_env(&self) -> Seq<char> {
        self.env@
    }

    open spec fn spec_root(&self) -> Seq<Seq<char>> {
        self.root.deep_view()
    }

    open spec fn spec_rel(&self) -> Seq<Seq<char>> {
        self.rel.deep_view()
    }

    fn env(&self) -> &String {
        &self.env
    }

    fn root(&self) -> &Vec<String> {
        &self.root
    }

    fn relpath(&self) -> &Vec<String> {
        &self.rel
    }

    fn path(&self) -> Vec<String> {
        concat_paths(&self.root, &self.rel)
    }

    fn repr(&self) -> String {
        render_repr(&self.env, &self.rel)
    }

    fn string(&self) -> String {
        let p = concat_paths(&self.root, &self.rel);
        render_abs(&p)
    }
}

impl FileTrait for Dotfile {
    open spec fn spec_env(&self) -> Seq<char> {
        self.env@
    }

    open spec fn spec_root(&self) -> Seq<Seq<char>> {
        self.root.deep_view()
    }

    open spec fn spec_rel(&self) -> Seq<Seq<char>> {
        self.rel.deep_view()
    }

    fn env(&self) -> &String {
        &self.env
    }

    fn root(&self) -> &Vec<String> {
        &self.root
    }

    fn relpath(&self) -> &Vec<String> {
        &self.rel
    }

    fn path(&self) -> Vec<String> {
        concat_paths(&self.root, &self.rel)
    }

    fn repr(&self) -> String {
        render_repr(&self.env, &self.rel)
    }

    fn string(&self) -> String {
        let p = concat_paths(&self.root, &self.rel);
        render_abs(&p)
    }
}

impl Symlink {
    /// Resolves a raw home-side string: placeholders expanded, the
    /// result taken under the root `var` points at.
    pub fn new(raw: &String, var: String, environment: &Environment) -> (r: Result<Symlink, Error>)
        ensures
            match r {
                Ok(s) => s.env@ == var@ && spec_resolution(
                    environment.view_vars(),
                    raw@,
                    var@,
                    false,
                ) == Some((s.root.deep_view(), s.rel.deep_view())),
                Err(e) => spec_resolution(environment.view_vars(), raw@, var@, false) is None && (e
                    is EnvironmentError <==> spec_resolution_env_err(
                    environment.view_vars(),
                    raw@,
                    var@,
                )) && (e is EnvironmentError || e is InvalidPathError),
            },
    {
        match resolve_side(raw, var, false, environment) {
            Err(e) => Err(e),
            Ok((env, root, rel)) => Ok(Symlink { env, root, rel }),
        }
    }
}

impl Dotfile {
    /// Resolves a raw archive-side string; the file-name component is
    /// stored undotted.
    pub fn new(raw: &String, var: String, environment: &Environment) -> (r: Result<Dotfile, Error>)
        ensures
            match r {
                Ok(s) => s.env@ == var@ && spec_resolution(
                    environment.view_vars(),
                    raw@,
                    var@,
                    true,
                ) == Some((s.root.deep_view(), s.rel.deep_view())),
                Err(e) => spec_resolution(environment.view_vars(), raw@, var@, true) is None && (e
                    is EnvironmentError <==> spec_resolution_env_err(
                    environment.view_vars(),
                    raw@,
                    var@,
                )) && (e is EnvironmentError || e is InvalidPathError),
            },
    {
        match resolve_side(raw, var, true, environment) {
            Err(e) => Err(e),
            Ok((env, root, rel)) => Ok(Dotfile { env, root, rel }),
        }
    }

    /// An archive-side reference built directly from root-relative
    /// components, dot-stripping the file name.
    pub fn from_rel(rel: Vec<String>, environment: &Environment) -> (r: Result<Dotfile, Error>)
        ensures
            match r {
                Ok(s) => s.env@ == archive_var() && spec_root_path(
                    environment.view_vars(),
                    archive_var(),
                ) == Some(s.root.deep_view()) && s.rel.deep_view() == strip_dot_last(
                    rel.deep_view(),
                ),
                Err(e) => spec_root_path(environment.view_vars(), archive_var()) is None && (e
                    is EnvironmentError || e is InvalidPathError) && (e
                    is EnvironmentError <==> spec_lookup(environment.view_vars(), archive_var())
                    is None),
            },
    {
        let var = "DOTFILES".to_owned();
        let root = match environment.root_path(&var) {
            Err(e) => {
                return Err(e);
            },
            Ok(p) => p,
        };
        Ok(Dotfile { env: var, root, rel: strip_last_dot(rel) })
    }
}

/// The mathematical shape of a pairing: both sides' roots and relative
/// components.
pub struct PairingModel {
    pub key_env: Seq<char>,
    pub key_root: Seq<Seq<char>>,
    pub key_rel: Seq<Seq<char>>,
    pub value_env: Seq<char>,
    pub value_root: Seq<Seq<char>>,
    pub value_rel: Seq<Seq<char>>,
}

/// Building a pairing from two raw strings: the home side resolves
/// against the home root, the archive side against the archive root,
/// and neither side may name its root itself.
pub open spec fn spec_pairing(
    vars: Seq<(Seq<char>, Seq<char>)>,
    key_raw: Seq<char>,
    value_raw: Seq<char>,
) -> Option<PairingModel> {
    match spec_resolution(vars, key_raw, home_var(), false) {
        None => None,
        Some((kroot, krel)) => {
            if krel.len() == 0 {
                None
            } else {
                match spec_resolution(vars, value_raw, archive_var(), true) {
                    None => None,
                    Some((vroot, vrel)) => {
                        if vrel.len() == 0 {
                            None
                        } else {
                            Some(
                                PairingModel {
                                    key_env: home_var(),
                                    key_root: kroot,
                                    key_rel: krel,
                                    value_env: archive_var(),
                                    value_root: vroot,
                                    value_rel: vrel,
                                },
                            )
                        }
                    },
                }
            }
        },
    }
}

/// Whether a failed pairing failed for want of a variable rather than a
/// path's shape.
pub open spec fn spec_pairing_env_err(
    vars: Seq<(Seq<char>, Seq<char>)>,
    key_raw: Seq<char>,
    value_raw: Seq<char>,
) -> bool {
    if spec_resolution(vars, key_raw, home_var(), false) is None {
        spec_resolution_env_err(vars, key_raw, home_var())
    } else if spec_resolution(vars, key_raw, home_var(), false)->Some_0.1.len() == 0 {
        false
    } else if spec_resolution(vars, value_raw, archive_var(), true) is None {
        spec_resolution_env_err(vars, value_raw, archive_var())
    } else {
        false
    }
}

/// One managed dotfile: the link-bearing home side (`key`) and the
/// stored archive side (`value`).
pub struct Matrix {
    pub key: Symlink,
    pub value: Dotfile,
}

/// First index at which `name` occurs in `p`, or the length of `p` when
/// it does not occur.
pub open spec fn first_index_of(p: Seq<Seq<char>>, name: Seq<char>) -> int
    decreases p.len(),
{
    if p.len() == 0 {
        0
    } else if p[0] == name {
        0
    } else {
        1 + first_index_of(p.drop_first(), name)
    }
}

pub proof fn lemma_first_index_at(p: Seq<Seq<char>>, name: Seq<char>, i: int)
    requires
        0 <= i <= p.len(),
        forall|j: int| 0 <= j < i ==> p[j] != name,
        i == p.len() || p[i] == name,
    ensures
        first_index_of(p, name) == i,
    decreases p.len(),
{
    if p.len() > 0 && p[0] != name {
        let t = p.drop_first();
        assert forall|j: int| 0 <= j < i - 1 implies t[j] != name by {
            assert(t[j] == p[j + 1]);
        }
        if i - 1 < t.len() {
            assert(t[i - 1] == p[i]);
        }
        lemma_first_index_at(t, name, i - 1);
    }
}

/// Where a nested entry's archive copy belongs under an ancestor: the
/// nested home components (first one undotted) below the ancestor's
/// archive directory name, or all of them when that name does not occur.
pub open spec fn spec_child_suffix(nested_key_rel: Seq<Seq<char>>, name: Seq<char>) -> Seq<
    Seq<char>,
> {
    let rel = strip_dot_first(nested_key_rel);
    let i = first_index_of(rel, name);
    if i < rel.len() {
        rel.subrange(i + 1, rel.len() as int)
    } else {
        rel
    }
}

/// Is `self` nested inside `other`: does either of `self`'s absolute
/// locations lie strictly beneath `other`'s home location?
pub open spec fn spec_is_child_of(m: Matrix, other: Matrix) -> bool {
    ||| is_strict_prefix_of(other.key.spec_path(), m.key.spec_path())
    ||| is_strict_prefix_of(other.key.spec_path(), m.value.spec_path())
}

impl Matrix {
    /// Both sides resolve and neither is bare: a pairing always names
    /// something beneath each root.
    pub open spec fn wf(&self) -> bool {
        &&& self.key.wf()
        &&& self.value.wf()
        &&& self.key.rel.deep_view().len() > 0
        &&& self.value.rel.deep_view().len() > 0
    }

    /// The canonical registry key: the home side's representation.
    pub open spec fn spec_key_repr(&self) -> Seq<char> {
        spec_repr(self.key.env@, self.key.rel.deep_view())
    }

    /// The canonical registry value: the archive side's representation.
    pub open spec fn spec_value_repr(&self) -> Seq<char> {
        spec_repr(self.value.env@, self.value.rel.deep_view())
    }

    /// The model the contracts speak of.
    pub open spec fn model(&self) -> PairingModel {
        PairingModel {
            key_env: self.key.env@,
            key_root: self.key.root.deep_view(),
            key_rel: self.key.rel.deep_view(),
            value_env: self.value.env@,
            value_root: self.value.root.deep_view(),
            value_rel: self.value.rel.deep_view(),
        }
    }

    /// Builds the pairing of a home-side raw string and an archive-side
    /// raw string.
    pub fn new(key: &String, value: &String, environment: &Environment) -> (r: Result<
        Matrix,
        Error,
    >)
        ensures
            match r {
                Ok(m) => m.wf() && spec_pairing(environment.view_vars(), key@, value@) == Some(
                    m.model(),
                ),
                Err(e) => spec_pairing(environment.view_vars(), key@, value@) is None && (e
                    is EnvironmentError <==> spec_pairing_env_err(
                    environment.view_vars(),
                    key@,
                    value@,
                )) && (e is EnvironmentError || e is InvalidPathError),
            },
    {
        let k = match Symlink::new(key, "HOME".to_owned(), environment) {
            Err(e) => {
                return Err(e);
            },
            Ok(s) => s,
        };
        if k.rel.len() == 0 {
            return Err(Error::InvalidPathError(key.clone()));
        }
        let v = match Dotfile::new(value, "DOTFILES".to_owned(), environment) {
            Err(e) => {
                return Err(e);
            },
            Ok(s) => s,
        };
        if v.rel.len() == 0 {
            return Err(Error::InvalidPathError(value.clone()));
        }
        proof {
            assert(k.rel.deep_view().len() == k.rel@.len());
            assert(v.rel.deep_view().len() == v.rel@.len());
            lemma_resolution_valid(environment.view_vars(), key@, home_var(), false);
            lemma_resolution_valid(environment.view_vars(), value@, archive_var(), true);
        }
        Ok(Matrix { key: k, value: v })
    }

    /// Is this pairing nested inside `other`?
    pub fn is_child_of(&self, other: &Matrix) -> (r: bool)
        ensures
            r == spec_is_child_of(*self, *other),
    {
        let anchor = other.key.path();
        let kp = self.key.path();
        let vp = self.value.path();
        crate::paths::starts_strictly_with(&kp, &anchor) || crate::paths::starts_strictly_with(
            &vp,
            &anchor,
        )
    }

    /// The nested components that place `entry` beneath this pairing's
    /// archive directory: what of `entry`'s home path (first component
    /// undotted) follows this pairing's archive directory name.
    pub fn child_suffix(&self, entry: &Matrix) -> (r: Vec<String>)
        requires
            self.wf(),
            entry.wf(),
        ensures
            r.deep_view() == spec_child_suffix(
                entry.key.rel.deep_view(),
                self.value.rel.deep_view().last(),
            ),
            valid_path(r.deep_view()),
    {
        let rel = strip_first_dot(entry.key.rel.clone());
        proof {
            lemma_strip_dot_first_valid(entry.key.rel.deep_view());
        }
        let name = &self.value.rel[self.value.rel.len() - 1];
        let suffix = match crate::paths::find_component(&rel, name) {
            Some(i) => {
                proof {
                    lemma_first_index_at(rel.deep_view(), name@, i as int);
                }
                let mut s: Vec<String> = Vec::new();
                let mut j: usize = i + 1;
                proof {
                    assert(s.deep_view() =~= rel.deep_view().subrange(i + 1, i + 1));
                }
                while j < rel.len()
                    invariant
                        i + 1 <= j <= rel.len(),
                        s.deep_view() =~= rel.deep_view().subrange(i + 1, j as int),
                    decreases rel.len() - j,
                {
                    let ghost old_s = s.deep_view();
                    s.push(rel[j].clone());
                    proof {
                        assert(s.deep_view() =~= old_s.push(rel.deep_view()[j as int]));
                        assert(s.deep_view() =~= rel.deep_view().subrange(i + 1, j + 1));
                    }
                    j = j + 1;
                }
                s
            },
            None => {
                proof {
                    lemma_first_index_at(rel.deep_view(), name@, rel.deep_view().len() as int);
                }
                rel
            },
        };
        suffix
    }

    /// The archive location a nested entry belongs at beneath this
    /// pairing: this archive path extended by the nested components
    /// below this pairing's archive directory name.
    pub fn child(&self, entry: &Matrix) -> (r: Dotfile)
        requires
            self.wf(),
            entry.wf(),
        ensures
            r.env@ == self.value.env@,
            r.root.deep_view() == self.value.root.deep_view(),
            r.rel.deep_view() == self.value.rel.deep_view() + spec_child_suffix(
                entry.key.rel.deep_view(),
                self.value.rel.deep_view().last(),
            ),
            valid_path(r.rel.deep_view()) && valid_path(r.root.deep_view()),
    {
        let suffix = self.child_suffix(entry);
        let new_rel = concat_paths(&self.value.rel, &suffix);
        proof {
            assert(valid_path(new_rel.deep_view()));
        }
        Dotfile { env: self.value.env.clone(), root: self.value.root.clone(), rel: new_rel }
    }

    /// Re-points the pairing at a symlink's resolved source, so that
    /// adding a symlink archives the real file and not the link.
    /// `target` is what the link reads; a target that does not exist is
    /// a dangling link.
    pub fn linksrc(&self, target: &String, target_exists: bool, environment: &Environment) -> (r:
        Result<Matrix, Error>)
        ensures
            match r {
                Ok(m) => target_exists && m.wf() && m.key.env@ == home_var() && spec_resolution(
                    environment.view_vars(),
                    target@,
                    home_var(),
                    false,
                ) == Some((m.key.root.deep_view(), m.key.rel.deep_view())) && m.value.env@
                    == archive_var() && spec_root_path(environment.view_vars(), archive_var())
                    == Some(m.value.root.deep_view()) && m.value.rel.deep_view() == seq![
                    strip_component(m.key.rel.deep_view().last()),
                ],
                Err(e) => (e is DanglingSymlinkError <==> !target_exists) && (target_exists ==> (
                spec_resolution(environment.view_vars(), target@, home_var(), false) is None
                    || spec_resolution(
                    environment.view_vars(),
                    target@,
                    home_var(),
                    false,
                )->Some_0.1.len() == 0 || spec_root_path(environment.view_vars(), archive_var())
                    is None)),
            },
    {
        if !target_exists {
            return Err(Error::DanglingSymlinkError(target.clone()));
        }
        let key = match Symlink::new(target, "HOME".to_owned(), environment) {
            Err(e) => {
                return Err(e);
            },
            Ok(s) => s,
        };
        if key.rel.len() == 0 {
            return Err(Error::InvalidPathError(target.clone()));
        }
        let name = key.rel[key.rel.len() - 1].clone();
        let mut rel: Vec<String> = Vec::new();
        rel.push(name);
        proof {
            assert(rel.deep_view() =~= seq![key.rel.deep_view().last()]);
        }
        let value = match Dotfile::from_rel(rel, environment) {
            Err(e) => {
                return Err(e);
            },
            Ok(d) => d,
        };
        proof {
            lemma_resolution_valid(environment.view_vars(), target@, home_var(), false);
            let one = seq![key.rel.deep_view().last()];
            assert(strip_dot_last(one) =~= seq![strip_component(key.rel.deep_view().last())]);
            lemma_strip_component_valid(key.rel.deep_view().last());
            assert(valid_path(value.rel.deep_view()));
        }
        Ok(Matrix { key, value })
    }
}

/// A backup name: the component with a dot and a decimal stamp appended.
pub open spec fn spec_backup_component(c: Seq<char>, t: nat) -> Seq<char> {
    c + seq!['.'] + spec_dec(t)
}

/// The path with its final component renamed to a backup name.
pub open spec fn spec_backup_rel(rel: Seq<Seq<char>>, t: nat) -> Seq<Seq<char>> {
    rel.update(rel.len() - 1, spec_backup_component(rel.last(), t))
}

/// Decimal renderings are nonempty and never contain a slash.
pub proof fn lemma_dec_no_slash(n: nat)
    ensures
        spec_dec(n).len() >= 1,
        forall|i: int| 0 <= i < spec_dec(n).len() ==> #[trigger] spec_dec(n)[i] != '/',
    decreases n,
{
    if n >= 10 {
        lemma_dec_no_slash(n / 10);
    }
}

/// A backup name of a valid component is itself a valid component.
pub proof fn lemma_backup_component_valid(c: Seq<char>, t: nat)
    requires
        valid_component(c),
    ensures
        valid_component(spec_backup_component(c, t)),
{
    let b = spec_backup_component(c, t);
    lemma_dec_no_slash(t);
    assert(b.len() >= 3);
    if b.contains('/') {
        let i = choose|i: int| 0 <= i < b.len() && b[i] == '/';
        if i < c.len() {
            assert(c[i] == '/');
            assert(c.contains('/'));
        } else if i == c.len() {
            assert(b[i] == '.');
        } else {
            assert(b[i] == spec_dec(t)[i - c.len() - 1]);
        }
    }
}

/// Relies on chrono::Utc::now: the system clock, read as whole seconds
/// since the Unix epoch.  Nothing can be promised of a clock reading.
#[verifier::external_body]
pub(crate) fn now_timestamp() -> i64 {
    chrono::Utc::now().timestamp()
}

impl Matrix {
    /// The pairing with its archive side renamed to a backup name
    /// carrying `stamp`, so an existing archive file is never
    /// overwritten.
    pub fn backup_with(&self, stamp: u64) -> (r: Matrix)
        requires
            self.wf(),
        ensures
            r.wf(),
            r.key.env@ == self.key.env@,
            r.key.root.deep_view() == self.key.root.deep_view(),
            r.key.rel.deep_view() == self.key.rel.deep_view(),
            r.value.env@ == self.value.env@,
            r.value.root.deep_view() == self.value.root.deep_view(),
            r.value.rel.deep_view() == spec_backup_rel(self.value.rel.deep_view(), stamp as nat),
    {
        let last = self.value.rel.len() - 1;
        let mut name = self.value.rel[last].clone();
        name.append(".");
        let dec = u64_to_dec(stamp);
        name.append(dec.as_str());
        proof {
            reveal_strlit(".");
            assert("."@ =~= seq!['.']);
            assert(name@ =~= spec_backup_component(
                self.value.rel.deep_view().last(),
                stamp as nat,
            ));
        }
        let mut rel = self.value.rel.clone();
        rel.set(last, name);
        proof {
            assert(rel.deep_view() =~= spec_backup_rel(self.value.rel.deep_view(), stamp as nat));
            lemma_backup_component_valid(self.value.rel.deep_view().last(), stamp as nat);
            assert(valid_path(rel.deep_view()));
        }
        Matrix {
            key: Symlink {
                env: self.key.env.clone(),
                root: self.key.root.clone(),
                rel: self.key.rel.clone(),
            },
            value: Dotfile {
                env: self.value.env.clone(),
                root: self.value.root.clone(),
                rel,
            },
        }
    }

    /// The pairing renamed aside with a stamp from the clock; which
    /// stamp the clock yields is outside anyone's control, so only the
    /// backup shape is promised.
    pub fn timestamped(&self) -> (r: Matrix)
        requires
            self.wf(),
        ensures
            r.wf(),
            r.key.env@ == self.key.env@,
            r.key.root.deep_view() == self.key.root.deep_view(),
            r.key.rel.deep_view() == self.key.rel.deep_view(),
            r.value.env@ == self.value.env@,
            r.value.root.deep_view() == self.value.root.deep_view(),
            exists|t: nat|
                r.value.rel.deep_view() == spec_backup_rel(self.value.rel.deep_view(), t),
    {
        let ts = now_timestamp();
        let stamp: u64 = if ts < 0 {
            0
        } else {
            ts as u64
        };
        let r = self.backup_with(stamp);
        proof {
            assert(r.value.rel.deep_view() == spec_backup_rel(
                self.value.rel.deep_view(),
                stamp as nat,
            ));
        }
        r
    }
}

/// Two references resolved from the same raw string against the same
/// environment carry the same canonical representation and the same
/// absolute path: resolution is a pure function of its inputs.
pub proof fn lemma_canonical_representation_pure(
    a: Symlink,
    b: Symlink,
    vars: Seq<(Seq<char>, Seq<char>)>,
    raw: Seq<char>,
    var: Seq<char>,
)
    requires
        a.env@ == var,
        b.env@ == var,
        spec_resolution(vars, raw, var, false) == Some((a.root.deep_view(), a.rel.deep_view())),
        spec_resolution(vars, raw, var, false) == Some((b.root.deep_view(), b.rel.deep_view())),
    ensures
        spec_repr(a.spec_env(), a.spec_rel()) == spec_repr(b.spec_env(), b.spec_rel()),
        a.spec_path() == b.spec_path(),
{
}

/// Joining dollar-free components yields a dollar-free string.
pub proof fn lemma_join_no_dollar(rel: Seq<Seq<char>>)
    requires
        forall|i: int, j: int|
            0 <= i < rel.len() && 0 <= j < rel[i].len() ==> #[trigger] rel[i][j] != '$',
    ensures
        forall|k: int| 0 <= k < spec_join(rel).len() ==> #[trigger] spec_join(rel)[k] != '$',
    decreases rel.len(),
{
    if rel.len() <= 1 {
    } else {
        let pre = rel.drop_last();
        assert forall|i: int, j: int|
            0 <= i < pre.len() && 0 <= j < pre[i].len() implies #[trigger] pre[i][j] != '$' by {
            assert(pre[i] == rel[i]);
        }
        lemma_join_no_dollar(pre);
        let joined = spec_join(pre) + seq!['/'] + rel.last();
        assert forall|k: int| 0 <= k < joined.len() implies #[trigger] joined[k] != '$' by {
            if k < spec_join(pre).len() {
                assert(joined[k] == spec_join(pre)[k]);
            } else if k == spec_join(pre).len() {
                assert(joined[k] == '/');
            } else {
                assert(joined[k] == rel.last()[k - spec_join(pre).len() - 1]);
            }
        }
    }
}

/// The invariant of a path reference: its canonical representation,
/// resolved against the same environment, names the same root and the
/// same components — and so the same absolute path.  The environment
/// must still bind the variable to that root, and the components must
/// not smuggle in placeholders of their own.
pub proof fn lemma_canonical_representation_roundtrip(
    vars: Seq<(Seq<char>, Seq<char>)>,
    env: Seq<char>,
    root: Seq<Seq<char>>,
    rel: Seq<Seq<char>>,
    strip: bool,
)
    requires
        valid_path(root),
        valid_path(rel),
        env.len() > 0,
        forall|i: int| 0 <= i < env.len() ==> crate::environment::is_var_char(#[trigger] env[i]),
        spec_lookup(vars, env) == Some(spec_render_abs(root)),
        forall|i: int, j: int|
            0 <= i < rel.len() && 0 <= j < rel[i].len() ==> #[trigger] rel[i][j] != '$',
        strip ==> (rel.len() == 0 || !stripable(rel.last())),
    ensures
        spec_resolution(vars, spec_repr(env, rel), env, strip) == Some((root, rel)),
{
    let repr = spec_repr(env, rel);
    let tail = seq!['/'] + spec_join(rel);
    lemma_join_no_dollar(rel);
    assert forall|k: int| 0 <= k < tail.len() implies #[trigger] tail[k] != '$' by {
        if k > 0 {
            assert(tail[k] == spec_join(rel)[k - 1]);
        }
    }
    crate::environment::lemma_expand_no_dollar(tail, vars);
    assert(!crate::environment::is_var_char('/'));
    assert(repr =~= seq!['$'] + env + tail);
    crate::environment::lemma_expand_var_prefix(env, tail, vars);
    let x = spec_render_abs(root) + tail;
    assert(spec_expand(repr, vars) == Some(x));
    crate::text::lemma_split_render_abs(root);
    assert(spec_root_path(vars, env) == Some(root));
    assert(x[0] == '/');
    assert(x.drop_first() =~= spec_join(root) + seq!['/'] + spec_join(rel));
    crate::text::lemma_split_acc_append(spec_join(root), spec_join(rel), seq![]);
    crate::text::lemma_split_of_join(root);
    crate::text::lemma_split_of_join(rel);
    let p = spec_split(x);
    assert(p == root + rel);
    assert(valid_path(p)) by {
        assert forall|i: int| 0 <= i < p.len() implies valid_component(#[trigger] p[i]) by {
            if i < root.len() {
                assert(p[i] == root[i]);
            } else {
                assert(p[i] == rel[i - root.len()]);
            }
        }
    }
    lemma_append_prefix(root, rel);
    assert(p.subrange(root.len() as int, p.len() as int) =~= rel);
    if strip && rel.len() > 0 {
        assert(strip_dot_last(rel) =~= rel);
    }
    if strip && rel.len() == 0 {
        assert(strip_dot_last(rel) =~= rel);
    }
}

/// A pairing is never its own ancestor, as long as its home location
/// neither contains nor lies inside the archive root.
pub proof fn lemma_is_ancestor_irreflexive(a: Matrix)
    requires
        !is_prefix_of(a.key.spec_path(), a.value.spec_root()),
        !is_prefix_of(a.value.spec_root(), a.key.spec_path()),
    ensures
        !spec_is_child_of(a, a),
{
    if is_strict_prefix_of(a.key.spec_path(), a.value.spec_path()) {
        lemma_append_prefix(a.value.spec_root(), a.value.rel.deep_view());
        lemma_prefixes_comparable(a.key.spec_path(), a.value.spec_root(), a.value.spec_path());
    }
}

/// Ancestry is anti-symmetric: two distinct pairings under one archive
/// root, neither of whose home locations touches that root, cannot both
/// contain each other.
pub proof fn lemma_is_ancestor_antisymmetric(a: Matrix, b: Matrix)
    requires
        a.value.spec_root() == b.value.spec_root(),
        !is_prefix_of(a.key.spec_path(), a.value.spec_root()),
        !is_prefix_of(a.value.spec_root(), a.key.spec_path()),
        !is_prefix_of(b.key.spec_path(), b.value.spec_root()),
        !is_prefix_of(b.value.spec_root(), b.key.spec_path()),
        spec_is_child_of(b, a),
    ensures
        !spec_is_child_of(a, b),
{
    let ak = a.key.spec_path();
    let bk = b.key.spec_path();
    let root = a.value.spec_root();
    lemma_append_prefix(root, a.value.rel.deep_view());
    lemma_append_prefix(root, b.value.rel.deep_view());
    if spec_is_child_of(a, b) {
        if is_strict_prefix_of(bk, a.value.spec_path()) {
            lemma_prefixes_comparable(bk, root, a.value.spec_path());
        }
        if is_strict_prefix_of(ak, b.value.spec_path()) {
            lemma_prefixes_comparable(ak, root, b.value.spec_path());
        }
    }
}

} // verus!
