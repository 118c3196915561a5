//! The explicit environment a command runs against: the variables that
//! root every path reference, and the expansion of `$VARIABLE`
//! placeholders inside raw path strings.  Nothing here reads process
//! state; callers decide which variables exist.

use vstd::prelude::*;

use crate::errors::Error;
use crate::paths::components_ok;
use crate::paths::valid_path;
use crate::text::spec_split;
use crate::text::split_path;

verus! {

/// The name of the variable whose value roots the archive directory.
pub open spec fn archive_var() -> Seq<char> {
    "DOTFILES"@
}

/// The name of the variable whose value roots the home directory.
pub open spec fn home_var() -> Seq<char> {
    "HOME"@
}

/// A character that may appear in a variable name: ASCII letters,
/// digits and underscore.
pub open spec fn is_var_char(c: char) -> bool {
    ||| 'a' as u32 <= c as u32 && c as u32 <= 'z' as u32
    ||| 'A' as u32 <= c as u32 && c as u32 <= 'Z' as u32
    ||| '0' as u32 <= c as u32 && c as u32 <= '9' as u32
    ||| c == '_'
}

/// Length of the longest prefix of `s` made of variable-name characters.
pub open spec fn scan_name(s: Seq<char>) -> int
    decreases s.len(),
{
    if s.len() == 0 || !is_var_char(s[0]) {
        0
    } else {
        1 + scan_name(s.drop_first())
    }
}

pub proof fn lemma_scan_name_bounds(s: Seq<char>)
    ensures
        0 <= scan_name(s) <= s.len(),
    decreases s.len(),
{
    if s.len() > 0 && is_var_char(s[0]) {
        lemma_scan_name_bounds(s.drop_first());
    }
}

/// `scan_name` is exactly the point where variable-name characters stop.
pub proof fn lemma_scan_name_at(s: Seq<char>, k: int)
    requires
        0 <= k <= s.len(),
        forall|j: int| 0 <= j < k ==> is_var_char(#[trigger] s[j]),
        k == s.len() || !is_var_char(s[k]),
    ensures
        scan_name(s) == k,
    decreases s.len(),
{
    if k == 0 {
    } else {
        let t = s.drop_first();
        assert forall|j: int| 0 <= j < k - 1 implies is_var_char(#[trigger] t[j]) by {
            assert(t[j] == s[j + 1]);
        }
        if k - 1 < t.len() {
            assert(t[k - 1] == s[k]);
        }
        lemma_scan_name_at(t, k - 1);
    }
}

/// First value bound to `name` in an association list of variables.
pub open spec fn spec_lookup(vars: Seq<(Seq<char>, Seq<char>)>, name: Seq<char>) -> Option<
    Seq<char>,
>
    decreases vars.len(),
{
    if vars.len() == 0 {
        None
    } else if vars[0].0 == name {
        Some(vars[0].1)
    } else {
        spec_lookup(vars.drop_first(), name)
    }
}

/// Replaces each `$NAME` in `s` by the value of `NAME`, left to right;
/// a `$` not followed by a name character stands for itself.  `None`
/// when some named variable is unbound.
pub open spec fn spec_expand(s: Seq<char>, vars: Seq<(Seq<char>, Seq<char>)>) -> Option<Seq<char>>
    decreases s.len(),
    via spec_expand_decreases
{
    if s.len() == 0 {
        Some(seq![])
    } else if s[0] != '$' {
        match spec_expand(s.drop_first(), vars) {
            Some(r) => Some(seq![s[0]] + r),
            None => None,
        }
    } else {
        let k = scan_name(s.drop_first());
        if k == 0 {
            match spec_expand(s.drop_first(), vars) {
                Some(r) => Some(seq!['$'] + r),
                None => None,
            }
        } else {
            match spec_lookup(vars, s.subrange(1, 1 + k)) {
                None => None,
                Some(v) => match spec_expand(s.subrange(1 + k, s.len() as int), vars) {
                    Some(r) => Some(v + r),
                    None => None,
                },
            }
        }
    }
}

#[via_fn]
proof fn spec_expand_decreases(s: Seq<char>, vars: Seq<(Seq<char>, Seq<char>)>) {
    if s.len() > 0 {
        lemma_scan_name_bounds(s.drop_first());
    }
}

/// A string without `$` expands to itself.
pub proof fn lemma_expand_no_dollar(t: Seq<char>, vars: Seq<(Seq<char>, Seq<char>)>)
    requires
        forall|i: int| 0 <= i < t.len() ==> t[i] != '$',
    ensures
        spec_expand(t, vars) == Some(t),
    decreases t.len(),
{
    if t.len() == 0 {
        assert(spec_expand(t, vars) == Some(t)) by {
            assert(Seq::<char>::empty() =~= t);
        }
    } else {
        lemma_expand_no_dollar(t.drop_first(), vars);
        assert(seq![t[0]] + t.drop_first() =~= t);
    }
}

/// A string that opens with `$`, a bound name, and then something that
/// cannot extend the name expands to the name's value followed by the
/// expansion of the rest.
pub proof fn lemma_expand_var_prefix(
    name: Seq<char>,
    tail: Seq<char>,
    vars: Seq<(Seq<char>, Seq<char>)>,
)
    requires
        name.len() > 0,
        forall|i: int| 0 <= i < name.len() ==> is_var_char(#[trigger] name[i]),
        tail.len() == 0 || !is_var_char(tail[0]),
        spec_lookup(vars, name) is Some,
        spec_expand(tail, vars) is Some,
    ensures
        spec_expand(seq!['$'] + name + tail, vars) == Some(
            spec_lookup(vars, name)->Some_0 + spec_expand(tail, vars)->Some_0,
        ),
{
    let s = seq!['$'] + name + tail;
    assert(s[0] == '$');
    assert(s.drop_first() =~= name + tail);
    assert forall|j: int| 0 <= j < name.len() implies is_var_char(#[trigger] (name + tail)[j]) by {
        assert((name + tail)[j] == name[j]);
    }
    if name.len() < (name + tail).len() {
        assert((name + tail)[name.len() as int] == tail[0]);
    }
    lemma_scan_name_at(name + tail, name.len() as int);
    assert(s.subrange(1, 1 + name.len() as int) =~= name);
    assert(s.subrange(1 + name.len() as int, s.len() as int) =~= tail);
}

/// A root path: the variable's value parsed as an absolute path of
/// valid components.  `None` when the variable is unbound or its value
/// is no usable absolute path.
pub open spec fn spec_root_path(vars: Seq<(Seq<char>, Seq<char>)>, name: Seq<char>) -> Option<
    Seq<Seq<char>>,
> {
    match spec_lookup(vars, name) {
        None => None,
        Some(v) => {
            if v.len() > 0 && v[0] == '/' && valid_path(spec_split(v)) {
                Some(spec_split(v))
            } else {
                None
            }
        },
    }
}

/// The variables a command invocation runs against, in lookup order.
pub struct Environment {
    pub vars: Vec<(String, String)>,
}

impl Environment {
    /// The association list the contracts speak of.
    pub open spec fn view_vars(&self) -> Seq<(Seq<char>, Seq<char>)> {
        Seq::new(self.vars@.len(), |i: int| (self.vars@[i].0@, self.vars@[i].1@))
    }

    /// An environment with no variables at all.
    pub fn empty() -> (r: Environment)
        ensures
            r.view_vars() =~= Seq::<(Seq<char>, Seq<char>)>::empty(),
    {
        Environment { vars: Vec::new() }
    }

    /// Binds one more variable, looked up after the existing ones.
    pub fn push_var(&mut self, name: String, value: String)
        ensures
            final(self).view_vars() =~= old(self).view_vars().push((name@, value@)),
    {
        self.vars.push((name, value));
    }

    /// First value bound to `name`.
    pub fn lookup(&self, name: &String) -> (r: Option<&String>)
        ensures
            match r {
                Some(v) => spec_lookup(self.view_vars(), name@) == Some(v@),
                None => spec_lookup(self.view_vars(), name@) is None,
            },
    {
        let mut i: usize = 0;
        proof {
            assert(self.view_vars().subrange(0, self.view_vars().len() as int) =~= self.view_vars());
        }
        while i < self.vars.len()
            invariant
                i <= self.vars.len(),
                spec_lookup(self.view_vars(), name@) == spec_lookup(
                    self.view_vars().subrange(i as int, self.view_vars().len() as int),
                    name@,
                ),
            decreases self.vars.len() - i,
        {
            let ghost rest = self.view_vars().subrange(i as int, self.view_vars().len() as int);
            if self.vars[i].0.eq(name) {
                proof {
                    assert(rest[0] == (self.vars@[i as int].0@, self.vars@[i as int].1@));
                }
                return Some(&self.vars[i].1);
            }
            proof {
                assert(rest[0] == (self.vars@[i as int].0@, self.vars@[i as int].1@));
                assert(rest.drop_first() =~= self.view_vars().subrange(
                    i + 1,
                    self.view_vars().len() as int,
                ));
            }
            i = i + 1;
        }
        proof {
            assert(self.view_vars().subrange(
                self.vars@.len() as int,
                self.view_vars().len() as int,
            ) =~= Seq::<(Seq<char>, Seq<char>)>::empty());
        }
        None
    }

    /// The archive root may legitimately be unset on first-time setup:
    /// bind it to `default` then, and leave it alone otherwise.
    pub fn ensure_archive_root(&mut self, default: String)
        ensures
            spec_lookup(old(self).view_vars(), archive_var()) is Some ==> final(self).view_vars()
                == old(self).view_vars(),
            spec_lookup(old(self).view_vars(), archive_var()) is None ==> final(self).view_vars()
                =~= old(self).view_vars().push((archive_var(), default@)),
    {
        let name = "DOTFILES".to_owned();
        if self.lookup(&name).is_none() {
            self.push_var(name, default);
        }
    }

    /// Expands every `$NAME` placeholder in `raw`.
    pub fn expand(&self, raw: &str) -> (r: Result<String, Error>)
        ensures
            match r {
                Ok(out) => spec_expand(raw@, self.view_vars()) == Some(out@),
                Err(e) => spec_expand(raw@, self.view_vars()) is None && e is EnvironmentError,
            },
    {
        proof {
            assert(raw@.subrange(0, raw@.len() as int) =~= raw@);
        }
        expand_from(raw, 0, self)
    }

    /// The root the variable `var` points at, as absolute components.
    pub fn root_path(&self, var: &String) -> (r: Result<Vec<String>, Error>)
        ensures
            match r {
                Ok(p) => spec_root_path(self.view_vars(), var@) == Some(p.deep_view()),
                Err(e) => spec_root_path(self.view_vars(), var@) is None && (e
                    is EnvironmentError <==> spec_lookup(self.view_vars(), var@) is None) && (e
                    is EnvironmentError || e is InvalidPathError),
            },
    {
        match self.lookup(var) {
            None => Err(Error::EnvironmentError(var.clone())),
            Some(v) => {
                let value = v.clone();
                let vs = value.as_str();
                if vs.unicode_len() == 0 {
                    return Err(Error::InvalidPathError(value));
                }
                if vs.get_char(0) != '/' {
                    return Err(Error::InvalidPathError(value));
                }
                let comps = split_path(vs);
                if !components_ok(&comps) {
                    return Err(Error::InvalidPathError(value));
                }
                Ok(comps)
            },
        }
    }
}

fn var_char(c: char) -> (r: bool)
    ensures
        r == is_var_char(c),
{
    let u = c as u32;
    (97 <= u && u <= 122) || (65 <= u && u <= 90) || (48 <= u && u <= 57) || u == 95
}

/// Expands the tail of `s` that starts at `i`.
fn expand_from(s: &str, i: usize, env: &Environment) -> (r: Result<String, Error>)
    requires
        i <= s@.len(),
    ensures
        ({
            let t = s@.subrange(i as int, s@.len() as int);
            match r {
                Ok(out) => spec_expand(t, env.view_vars()) == Some(out@),
                Err(e) => spec_expand(t, env.view_vars()) is None && e is EnvironmentError,
            }
        }),
    decreases s@.len() - i,
{
    let n = s.unicode_len();
    let ghost t = s@.subrange(i as int, s@.len() as int);
    if i == n {
        proof {
            assert(t =~= Seq::<char>::empty());
        }
        return Ok(String::new());
    }
    let c = s.get_char(i);
    proof {
        assert(t[0] == c);
        assert(t.drop_first() =~= s@.subrange(i + 1, n as int));
    }
    if c != '$' {
        match expand_from(s, i + 1, env) {
            Err(e) => Err(e),
            Ok(rest) => {
                let mut out = s.substring_char(i, i + 1).to_owned();
                out.append(rest.as_str());
                proof {
                    assert(s@.subrange(i as int, i + 1) =~= seq![t[0]]);
                    assert(out@ =~= seq![t[0]] + rest@);
                }
                Ok(out)
            },
        }
    } else {
        let mut j = i + 1;
        while j < n && var_char(s.get_char(j))
            invariant
                i + 1 <= j <= n,
                i < n == s@.len(),
                forall|m: int| i + 1 <= m < j ==> is_var_char(#[trigger] s@[m]),
            decreases n - j,
        {
            j = j + 1;
        }
        let ghost td = t.drop_first();
        proof {
            assert forall|m: int| 0 <= m < j - (i + 1) implies is_var_char(#[trigger] td[m]) by {
                assert(td[m] == s@[m + i + 1]);
            }
            if j - (i + 1) < td.len() {
                assert(td[j - (i + 1)] == s@[j as int]);
            }
            lemma_scan_name_at(td, j - (i + 1));
        }
        if j == i + 1 {
            match expand_from(s, i + 1, env) {
                Err(e) => Err(e),
                Ok(rest) => {
                    proof {
                        reveal_strlit("$");
                    }
                    let mut out = "$".to_owned();
                    out.append(rest.as_str());
                    proof {
                        assert("$"@ =~= seq!['$']);
                        assert(out@ =~= seq!['$'] + rest@);
                    }
                    Ok(out)
                },
            }
        } else {
            let name = s.substring_char(i + 1, j).to_owned();
            proof {
                assert(name@ =~= t.subrange(1, 1 + (j - (i + 1))));
            }
            match env.lookup(&name) {
                None => Err(Error::EnvironmentError(name)),
                Some(v) => {
                    let mut out = v.clone();
                    proof {
                        assert(t.subrange(1 + (j - (i + 1)), t.len() as int) =~= s@.subrange(
                            j as int,
                            n as int,
                        ));
                    }
                    match expand_from(s, j, env) {
                        Err(e) => Err(e),
                        Ok(rest) => {
                            out.append(rest.as_str());
                            Ok(out)
                        },
                    }
                },
            }
        }
    }
}

} // verus!
