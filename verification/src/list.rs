//! The lines the List operation prints: one per persisted pair, marked
//! `+` for an archived entry and `=` for one whose value is itself
//! home-rooted (a shared link), with every placeholder expanded.

use vstd::prelude::*;

use crate::environment::spec_expand;
use crate::environment::Environment;
use crate::errors::Error;

verus! {

/// Is this representation rooted at the home variable?
pub open spec fn spec_home_rooted(v: Seq<char>) -> bool {
    v.len() >= 5 && v.subrange(0, 5) == "$HOME"@
}

/// The line for one persisted pair: its marker, the expanded key, and
/// for a home-rooted value an arrow to the expanded value.  `None` when
/// expansion fails.
pub open spec fn spec_list_line(
    vars: Seq<(Seq<char>, Seq<char>)>,
    key: Seq<char>,
    value: Seq<char>,
) -> Option<Seq<char>> {
    let raw = if spec_home_rooted(value) {
        key + " -> "@ + value
    } else {
        key
    };
    let marker = if spec_home_rooted(value) {
        "= "@
    } else {
        "+ "@
    };
    match spec_expand(raw, vars) {
        None => None,
        Some(x) => Some(marker + x),
    }
}

fn home_rooted(value: &String) -> (r: bool)
    ensures
        r == spec_home_rooted(value@),
{
    proof {
        reveal_strlit("$HOME");
    }
    let s = value.as_str();
    let n = s.unicode_len();
    if n < 5 {
        return false;
    }
    let r = s.get_char(0) == '$' && s.get_char(1) == 'H' && s.get_char(2) == 'O' && s.get_char(3)
        == 'M' && s.get_char(4) == 'E';
    proof {
        assert("$HOME"@.len() == 5);
        if r {
            assert(value@.subrange(0, 5) =~= "$HOME"@);
        }
        if value@.subrange(0, 5) == "$HOME"@ {
            assert(value@[0] == "$HOME"@[0] && value@[1] == "$HOME"@[1] && value@[2] == "$HOME"@[2]
                && value@[3] == "$HOME"@[3] && value@[4] == "$HOME"@[4]);
        }
    }
    r
}

/// The printable lines for the persisted pairs, in order; expansion of
/// an unbound placeholder fails the whole listing, as the caller would
/// have nothing truthful to print.
pub fn list_lines(pairs: &Vec<(String, String)>, environment: &Environment) -> (r: Result<
    Vec<String>,
    Error,
>)
    ensures
        match r {
            Ok(lines) => lines@.len() == pairs@.len() && forall|i: int|
                0 <= i < lines@.len() ==> Some((#[trigger] lines@[i])@) == spec_list_line(
                    environment.view_vars(),
                    pairs@[i].0@,
                    pairs@[i].1@,
                ),
            Err(e) => e is EnvironmentError && exists|i: int|
                0 <= i < pairs@.len() && spec_list_line(
                    environment.view_vars(),
                    (#[trigger] pairs@[i]).0@,
                    pairs@[i].1@,
                ) is None,
        },
{
    proof {
        reveal_strlit(" -> ");
        reveal_strlit("= ");
        reveal_strlit("+ ");
    }
    let mut lines: Vec<String> = Vec::new();
    let mut i: usize = 0;
    while i < pairs.len()
        invariant
            i <= pairs@.len(),
            lines@.len() == i,
            forall|j: int|
                0 <= j < i ==> Some((#[trigger] lines@[j])@) == spec_list_line(
                    environment.view_vars(),
                    pairs@[j].0@,
                    pairs@[j].1@,
                ),
        decreases pairs@.len() - i,
    {
        proof {
            reveal_strlit(" -> ");
            reveal_strlit("= ");
            reveal_strlit("+ ");
        }
        let key = &pairs[i].0;
        let value = &pairs[i].1;
        let rooted = home_rooted(value);
        let mut raw = key.clone();
        if rooted {
            raw.append(" -> ");
            raw.append(value.as_str());
        }
        let expanded = match environment.expand(raw.as_str()) {
            Err(e) => {
                return Err(e);
            },
            Ok(x) => x,
        };
        let mut line = if rooted {
            "= ".to_owned()
        } else {
            "+ ".to_owned()
        };
        line.append(expanded.as_str());
        lines.push(line);
        i = i + 1;
    }
    Ok(lines)
}

} // verus!
