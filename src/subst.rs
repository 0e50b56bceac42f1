use vstd::prelude::*;
use crate::address::{chars_of, find_char, index_of, slice_string};
use crate::buffer::text;
use crate::output::{emit, shown, Out, Shown};
use crate::pattern::{all_replaced, first_replaced, hits, pattern_hits, replace_all, replace_first, Pattern};

verus! {

/// A substitution directive `/pattern/replacement/flags`, split into its
/// parts; `global` is the `g` flag.
pub struct Directive {
    pub pattern: String,
    pub replacement: String,
    pub global: bool,
}

/// The parts of a directive `/pat/rep/`, `/pat/rep/g` or `/pat/rep`, or
/// `None` when it has none of these shapes.
pub open spec fn parse_directive(d: Seq<char>) -> Option<(Seq<char>, Seq<char>, bool)> {
    if d.len() == 0 || d[0] != '/' {
        None
    } else {
        let k = index_of(d.subrange(1, d.len() as int), '/');
        if k < 0 {
            None
        } else {
            let pat = d.subrange(1, 1 + k);
            let after = d.subrange(k + 2, d.len() as int);
            let j = index_of(after, '/');
            if j < 0 {
                Some((pat, after, false))
            } else {
                let rep = after.subrange(0, j);
                let flags = after.subrange(j + 1, after.len() as int);
                if flags.len() == 0 {
                    Some((pat, rep, false))
                } else if flags == seq!['g'] {
                    Some((pat, rep, true))
                } else {
                    None
                }
            }
        }
    }
}

/// Splits a substitution directive into its parts.
pub fn split_directive(d: &str) -> (r: Option<Directive>)
    ensures
        match r {
            None => parse_directive(d@) is None,
            Some(x) => parse_directive(d@) == Some((x.pattern@, x.replacement@, x.global)),
        },
{
    let cs = chars_of(d);
    let n = cs.len();
    if n == 0 || cs[0] != '/' {
        return None;
    }
    let k = match find_char(&cs, 1, '/') {
        None => {
            return None;
        },
        Some(k) => k,
    };
    let pattern = slice_string(d, 1, 1 + k);
    let ghost after = d@.subrange(k + 2, n as int);
    match find_char(&cs, k + 2, '/') {
        None => Some(Directive { pattern, replacement: slice_string(d, k + 2, n), global: false }),
        Some(j) => {
            let replacement = slice_string(d, k + 2, k + 2 + j);
            assert(after.subrange(0, j as int) =~= replacement@);
            let ghost flags = after.subrange(j + 1, after.len() as int);
            if k + 3 + j == n {
                Some(Directive { pattern, replacement, global: false })
            } else if k + 4 + j == n && cs[k + 3 + j] == 'g' {
                assert(flags =~= seq!['g']);
                Some(Directive { pattern, replacement, global: true })
            } else {
                assert(flags != seq!['g']) by {
                    if flags == seq!['g'] {
                        assert(flags.len() == 1);
                        assert(flags[0] == cs@[k + 3 + j]);
                    }
                }
                None
            }
        },
    }
}

/// A line after the substitution: every match replaced when `g` is set, else
/// the first.
pub open spec fn sub_line(p: Seq<char>, rep: Seq<char>, g: bool, line: Seq<char>) -> Seq<char> {
    if g {
        all_replaced(p, rep, line)
    } else {
        first_replaced(p, rep, line)
    }
}

/// Whether the substitution changes line `i`.
pub open spec fn changed_at(ls: Seq<Seq<char>>, i: int, p: Seq<char>, rep: Seq<char>, g: bool) -> bool {
    sub_line(p, rep, g, ls[i]) != ls[i]
}

/// The lines after the substitution over the inclusive range `[a, b]`.
pub open spec fn subst_lines(ls: Seq<Seq<char>>, a: int, b: int, p: Seq<char>, rep: Seq<char>, g: bool) -> Seq<Seq<char>> {
    Seq::new(
        ls.len(),
        |i: int|
            if a <= i <= b {
                sub_line(p, rep, g, ls[i])
            } else {
                ls[i]
            },
    )
}

/// The changed lines among positions `a` up to `i - 1`, numbered from 1, in
/// order, as they read after the substitution.
pub open spec fn subst_report(ls: Seq<Seq<char>>, a: int, i: int, p: Seq<char>, rep: Seq<char>, g: bool) -> Seq<Shown>
    decreases i - a,
{
    if i <= a {
        Seq::empty()
    } else {
        subst_report(ls, a, i - 1, p, rep, g) + if changed_at(ls, i - 1, p, rep, g) {
            seq![Shown::Numbered(i as nat, sub_line(p, rep, g, ls[i - 1]))]
        } else {
            Seq::empty()
        }
    }
}

/// The lines among the first `i` that pattern `p` matches, numbered from 1.
pub open spec fn search_report(ls: Seq<Seq<char>>, i: int, p: Seq<char>) -> Seq<Shown>
    decreases i,
{
    if i <= 0 {
        Seq::empty()
    } else {
        search_report(ls, i - 1, p) + if pattern_hits(p, ls[i - 1]) {
            seq![Shown::Numbered(i as nat, ls[i - 1])]
        } else {
            Seq::empty()
        }
    }
}

/// Substitutes over the inclusive range `[a, b]`, reports each changed line,
/// and returns whether any line changed.
pub fn substitute(
    lines: &mut Vec<String>,
    a: usize,
    b: usize,
    p: &Pattern,
    rep: &str,
    g: bool,
    out: &mut Vec<Out>,
) -> (any: bool)
    requires
        a <= b < old(lines).len(),
    ensures
        text(final(lines)@) == subst_lines(text(old(lines)@), a as int, b as int, p.source(), rep@, g),
        shown(final(out)@) == shown(old(out)@) + subst_report(
            text(old(lines)@),
            a as int,
            b + 1,
            p.source(),
            rep@,
            g,
        ),
        any == exists|i: int| a <= i <= b && changed_at(text(old(lines)@), i, p.source(), rep@, g),
{
    let ghost ls = text(lines@);
    let ghost o = shown(out@);
    let ghost src = p.source();
    assert(lines@.len() <= usize::MAX);
    let mut any = false;
    let mut i: usize = a;
    while i <= b
        invariant
            a <= i <= b + 1,
            b < ls.len() <= usize::MAX,
            src == p.source(),
            lines@.len() == ls.len(),
            forall|j: int|
                0 <= j < ls.len() ==> #[trigger] text(lines@)[j] == if a <= j < i {
                    sub_line(src, rep@, g, ls[j])
                } else {
                    ls[j]
                },
            shown(out@) == o + subst_report(ls, a as int, i as int, src, rep@, g),
            any == exists|j: int| a <= j < i && changed_at(ls, j, src, rep@, g),
        decreases b + 1 - i,
    {
        assert(text(lines@)[i as int] == ls[i as int]);
        assert(text(lines@)[i as int] == lines@[i as int]@);
        let cur: &str = lines[i].as_str();
        assert(cur@ == ls[i as int]);
        let next: String;
        if g {
            next = replace_all(p, rep, cur);
            assert(next@ == all_replaced(p.source(), rep@, cur@));
        } else {
            next = replace_first(p, rep, cur);
        }
        assert(next@ == sub_line(src, rep@, g, ls[i as int]));
        let ghost prev = lines@;
        let ghost prev_out = shown(out@);
        let differs = next != lines[i];
        if differs {
            emit(out, Out::Numbered(i + 1, next.clone()));
            lines.set(i, next);
            any = true;
        }
        proof {
            assert(differs == changed_at(ls, i as int, src, rep@, g));
            assert forall|j: int| 0 <= j < ls.len() implies #[trigger] text(lines@)[j] == if a <= j
                < i + 1 {
                sub_line(src, rep@, g, ls[j])
            } else {
                ls[j]
            } by {
                assert(text(prev)[j] == prev[j]@);
                assert(text(lines@)[j] == lines@[j]@);
                if j != i {
                    assert(lines@[j] == prev[j]);
                }
            }
            assert(subst_report(ls, a as int, i + 1, src, rep@, g) == subst_report(
                ls,
                a as int,
                i as int,
                src,
                rep@,
                g,
            ) + if changed_at(ls, i as int, src, rep@, g) {
                seq![Shown::Numbered((i + 1) as nat, sub_line(src, rep@, g, ls[i as int]))]
            } else {
                Seq::empty()
            });
            assert(shown(out@) =~= o + subst_report(ls, a as int, i + 1, src, rep@, g));
            if any {
                if !changed_at(ls, i as int, src, rep@, g) {
                    let w = choose|j: int| a <= j < i && changed_at(ls, j, src, rep@, g);
                }
            } else {
                assert forall|j: int| a <= j < i + 1 implies !changed_at(ls, j, src, rep@, g) by {}
            }
        }
        i = i + 1;
    }
    assert(text(lines@) =~= subst_lines(ls, a as int, b as int, src, rep@, g));
    any
}

/// Reports every line that the pattern matches and returns whether there was
/// one.
pub fn search(lines: &Vec<String>, p: &Pattern, out: &mut Vec<Out>) -> (found: bool)
    ensures
        shown(final(out)@) == shown(old(out)@) + search_report(text(lines@), lines@.len() as int, p.source()),
        found == (search_report(text(lines@), lines@.len() as int, p.source()).len() > 0),
{
    let ghost ls = text(lines@);
    let ghost o = shown(out@);
    let mut found = false;
    let mut i: usize = 0;
    while i < lines.len()
        invariant
            i <= lines.len(),
            ls == text(lines@),
            shown(out@) == o + search_report(ls, i as int, p.source()),
            found == (search_report(ls, i as int, p.source()).len() > 0),
        decreases lines.len() - i,
    {
        assert(ls[i as int] == lines@[i as int]@);
        if hits(p, lines[i].as_str()) {
            emit(out, Out::Numbered(i + 1, lines[i].clone()));
            found = true;
        }
        i = i + 1;
        assert(shown(out@) =~= o + search_report(ls, i as int, p.source()));
    }
    found
}

} // verus!
