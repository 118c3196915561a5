//! Path strings as sequences of characters: splitting a slash-separated
//! string into components, joining components back, and rendering
//! decimal numbers for backup suffixes.

use vstd::prelude::*;

verus! {

/// Splitting state: the components found so far in front of the rest of
/// the string, with `cur` the partial component read since the last `/`.
pub open spec fn split_acc(s: Seq<char>, cur: Seq<char>) -> Seq<Seq<char>>
    decreases s.len(),
{
    if s.len() == 0 {
        if cur.len() > 0 {
            seq![cur]
        } else {
            seq![]
        }
    } else if s[0] == '/' {
        if cur.len() > 0 {
            seq![cur] + split_acc(s.drop_first(), seq![])
        } else {
            split_acc(s.drop_first(), seq![])
        }
    } else {
        split_acc(s.drop_first(), cur.push(s[0]))
    }
}

/// The slash-separated components of `s`; empty stretches (leading,
/// trailing or doubled slashes) contribute nothing.
pub open spec fn spec_split(s: Seq<char>) -> Seq<Seq<char>> {
    split_acc(s, seq![])
}

/// The components of `p` joined by `/`, without a leading slash.
pub open spec fn spec_join(p: Seq<Seq<char>>) -> Seq<char>
    decreases p.len(),
{
    if p.len() == 0 {
        seq![]
    } else if p.len() == 1 {
        p[0]
    } else {
        spec_join(p.drop_last()) + seq!['/'] + p.last()
    }
}

/// An absolute rendering: `/` followed by the joined components, so the
/// empty path renders as the filesystem root itself.
pub open spec fn spec_render_abs(p: Seq<Seq<char>>) -> Seq<char> {
    seq!['/'] + spec_join(p)
}

/// Splits `s` on `/` into its nonempty components.
pub fn split_path(s: &str) -> (r: Vec<String>)
    ensures
        r.deep_view() == spec_split(s@),
{
    let n = s.unicode_len();
    let mut out: Vec<String> = Vec::new();
    let mut start: usize = 0;
    let mut i: usize = 0;
    proof {
        assert(s@.subrange(0, n as int) =~= s@);
        assert(s@.subrange(0, 0) =~= Seq::<char>::empty());
        assert(out.deep_view() + split_acc(s@, seq![]) =~= split_acc(s@, seq![]));
    }
    while i < n
        invariant
            start <= i <= n,
            n == s@.len(),
            forall|j: int| start <= j < i ==> s@[j] != '/',
            spec_split(s@) == out.deep_view() + split_acc(
                s@.subrange(i as int, n as int),
                s@.subrange(start as int, i as int),
            ),
        decreases n - i,
    {
        let ghost rest = s@.subrange(i as int, n as int);
        let ghost cur = s@.subrange(start as int, i as int);
        let c = s.get_char(i);
        proof {
            assert(rest[0] == c);
            assert(rest.drop_first() =~= s@.subrange(i + 1, n as int));
        }
        if c == '/' {
            if start < i {
                let comp = s.substring_char(start, i).to_owned();
                proof {
                    assert(cur.len() > 0);
                    assert(split_acc(rest, cur) =~= seq![cur] + split_acc(
                        rest.drop_first(),
                        seq![],
                    ));
                }
                let ghost old_out = out.deep_view();
                out.push(comp);
                proof {
                    assert(out.deep_view() =~= old_out + seq![cur]);
                    assert(old_out + (seq![cur] + split_acc(
                        s@.subrange(i + 1, n as int),
                        seq![],
                    )) =~= (old_out + seq![cur]) + split_acc(
                        s@.subrange(i + 1, n as int),
                        seq![],
                    ));
                }
            }
            start = i + 1;
            proof {
                assert(s@.subrange(start as int, i + 1) =~= Seq::<char>::empty());
            }
        } else {
            proof {
                assert(cur.push(c) =~= s@.subrange(start as int, i + 1));
            }
        }
        i = i + 1;
    }
    proof {
        assert(s@.subrange(i as int, n as int) =~= Seq::<char>::empty());
    }
    if start < n {
        let comp = s.substring_char(start, n).to_owned();
        let ghost old_out = out.deep_view();
        out.push(comp);
        proof {
            assert(out.deep_view() =~= old_out + seq![s@.subrange(start as int, n as int)]);
        }
    } else {
        proof {
            assert(split_acc(
                Seq::<char>::empty(),
                s@.subrange(start as int, i as int),
            ) =~= Seq::<Seq<char>>::empty());
            assert(out.deep_view() + Seq::<Seq<char>>::empty() =~= out.deep_view());
        }
    }
    out
}

/// Joins components with `/`, without a leading slash.
pub fn join_path(p: &Vec<String>) -> (r: String)
    ensures
        r@ == spec_join(p.deep_view()),
{
    let mut r = String::new();
    let mut i: usize = 0;
    proof {
        assert(p.deep_view().subrange(0, 0) =~= Seq::<Seq<char>>::empty());
    }
    while i < p.len()
        invariant
            i <= p.len(),
            r@ == spec_join(p.deep_view().subrange(0, i as int)),
        decreases p.len() - i,
    {
        let ghost pre = p.deep_view().subrange(0, i as int);
        let ghost ext = p.deep_view().subrange(0, i + 1);
        proof {
            assert(ext.drop_last() =~= pre);
            assert(ext.last() == p.deep_view()[i as int]);
        }
        if i > 0 {
            r.append("/");
            proof {
                reveal_strlit("/");
                assert("/"@ =~= seq!['/']);
            }
        }
        r.append(p[i].as_str());
        i = i + 1;
    }
    proof {
        assert(p.deep_view().subrange(0, p.len() as int) =~= p.deep_view());
    }
    r
}

/// Renders an absolute path: `/` followed by the joined components.
pub fn render_abs(p: &Vec<String>) -> (r: String)
    ensures
        r@ == spec_render_abs(p.deep_view()),
{
    proof {
        reveal_strlit("/");
        assert("/"@ =~= seq!['/']);
    }
    let mut r = "/".to_owned();
    let rest = join_path(p);
    r.append(rest.as_str());
    r
}

/// A slash is a hard separator: splitting around one splits each side
/// on its own.
pub proof fn lemma_split_acc_append(x: Seq<char>, y: Seq<char>, cur: Seq<char>)
    ensures
        split_acc(x + seq!['/'] + y, cur) == split_acc(x, cur) + split_acc(y, seq![]),
    decreases x.len(),
{
    let whole = x + seq!['/'] + y;
    if x.len() == 0 {
        assert(whole =~= seq!['/'] + y);
        assert(whole[0] == '/');
        assert(whole.drop_first() =~= y);
        if cur.len() > 0 {
            assert(split_acc(whole, cur) =~= seq![cur] + split_acc(y, seq![]));
            assert(split_acc(x, cur) =~= seq![cur]);
        } else {
            assert(split_acc(x, cur) =~= Seq::<Seq<char>>::empty());
            assert(split_acc(x, cur) + split_acc(y, seq![]) =~= split_acc(y, seq![]));
        }
    } else {
        assert(whole[0] == x[0]);
        assert(whole.drop_first() =~= x.drop_first() + seq!['/'] + y);
        if x[0] == '/' {
            lemma_split_acc_append(x.drop_first(), y, seq![]);
            if cur.len() > 0 {
                assert(split_acc(whole, cur) =~= seq![cur] + split_acc(whole.drop_first(), seq![]));
                assert(split_acc(x, cur) =~= seq![cur] + split_acc(x.drop_first(), seq![]));
                assert(seq![cur] + (split_acc(x.drop_first(), seq![]) + split_acc(y, seq![]))
                    =~= (seq![cur] + split_acc(x.drop_first(), seq![])) + split_acc(y, seq![]));
            }
        } else {
            lemma_split_acc_append(x.drop_first(), y, cur.push(x[0]));
        }
    }
}

/// Splitting a single valid component yields just that component,
/// prefixed onto whatever was already accumulated.
pub proof fn lemma_split_acc_component(c: Seq<char>, cur: Seq<char>)
    requires
        !c.contains('/'),
        cur.len() + c.len() > 0,
    ensures
        split_acc(c, cur) == seq![cur + c],
    decreases c.len(),
{
    if c.len() == 0 {
        assert(cur + c =~= cur);
    } else {
        assert(c[0] != '/') by {
            if c[0] == '/' {
                assert(c.contains('/'));
            }
        }
        assert(!c.drop_first().contains('/')) by {
            if c.drop_first().contains('/') {
                let i = choose|i: int|
                    0 <= i < c.drop_first().len() && c.drop_first()[i] == '/';
                assert(c[i + 1] == '/');
                assert(c.contains('/'));
            }
        }
        lemma_split_acc_component(c.drop_first(), cur.push(c[0]));
        assert(cur.push(c[0]) + c.drop_first() =~= cur + c);
    }
}

/// Splitting the rendering of a valid path gives the path back.
pub proof fn lemma_split_of_join(p: Seq<Seq<char>>)
    requires
        crate::paths::valid_path(p),
    ensures
        spec_split(spec_join(p)) == p,
    decreases p.len(),
{
    if p.len() == 0 {
        assert(spec_split(spec_join(p)) =~= p);
    } else if p.len() == 1 {
        lemma_split_acc_component(p[0], seq![]);
        assert(seq![Seq::<char>::empty() + p[0]] =~= p);
    } else {
        assert(crate::paths::valid_path(p.drop_last())) by {
            assert(forall|i: int|
                0 <= i < p.drop_last().len() ==> p.drop_last()[i] == p[i]);
        }
        lemma_split_of_join(p.drop_last());
        lemma_split_acc_append(spec_join(p.drop_last()), p.last(), seq![]);
        lemma_split_acc_component(p.last(), seq![]);
        assert(seq![Seq::<char>::empty() + p.last()] =~= seq![p.last()]);
        assert(spec_split(spec_join(p)) =~= p.drop_last() + seq![p.last()]);
        assert(p.drop_last() + seq![p.last()] =~= p);
    }
}

/// Leading slashes contribute nothing: splitting an absolute rendering
/// equals splitting the bare joined components.
pub proof fn lemma_split_render_abs(p: Seq<Seq<char>>)
    requires
        crate::paths::valid_path(p),
    ensures
        spec_split(spec_render_abs(p)) == p,
{
    let r = spec_render_abs(p);
    assert(r[0] == '/');
    assert(r.drop_first() =~= spec_join(p));
    lemma_split_of_join(p);
}

/// The decimal digit character for `n`.
pub open spec fn spec_digit(n: nat) -> char {
    if n == 0 {
        '0'
    } else if n == 1 {
        '1'
    } else if n == 2 {
        '2'
    } else if n == 3 {
        '3'
    } else if n == 4 {
        '4'
    } else if n == 5 {
        '5'
    } else if n == 6 {
        '6'
    } else if n == 7 {
        '7'
    } else if n == 8 {
        '8'
    } else {
        '9'
    }
}

/// The decimal rendering of `n`, most significant digit first.
pub open spec fn spec_dec(n: nat) -> Seq<char>
    decreases n,
{
    if n < 10 {
        seq![spec_digit(n)]
    } else {
        spec_dec(n / 10).push(spec_digit(n % 10))
    }
}

fn digit_str(d: u64) -> (r: &'static str)
    requires
        d < 10,
    ensures
        r@ =~= seq![spec_digit(d as nat)],
{
    proof {
        reveal_strlit("0");
        reveal_strlit("1");
        reveal_strlit("2");
        reveal_strlit("3");
        reveal_strlit("4");
        reveal_strlit("5");
        reveal_strlit("6");
        reveal_strlit("7");
        reveal_strlit("8");
        reveal_strlit("9");
    }
    if d == 0 {
        "0"
    } else if d == 1 {
        "1"
    } else if d == 2 {
        "2"
    } else if d == 3 {
        "3"
    } else if d == 4 {
        "4"
    } else if d == 5 {
        "5"
    } else if d == 6 {
        "6"
    } else if d == 7 {
        "7"
    } else if d == 8 {
        "8"
    } else {
        "9"
    }
}

/// Renders `n` in decimal.
pub fn u64_to_dec(n: u64) -> (r: String)
    ensures
        r@ == spec_dec(n as nat),
    decreases n,
{
    if n < 10 {
        digit_str(n).to_owned()
    } else {
        let mut r = u64_to_dec(n / 10);
        r.append(digit_str(n % 10));
        proof {
            assert(spec_dec((n / 10) as nat).push(spec_digit((n % 10) as nat)) =~= spec_dec(
                (n / 10) as nat,
            ) + seq![spec_digit((n % 10) as nat)]);
        }
        r
    }
}

} // verus!
