use vstd::prelude::*;

verus! {

/// The text of a sequence of lines.
pub open spec fn text(v: Seq<String>) -> Seq<Seq<char>> {
    v.map_values(|s: String| s@)
}

/// `k` copies of `line`.
pub open spec fn copies(line: Seq<char>, k: nat) -> Seq<Seq<char>> {
    Seq::new(k, |i: int| line)
}

/// `ls` without the inclusive range `[a, b]`.
pub open spec fn without(ls: Seq<Seq<char>>, a: int, b: int) -> Seq<Seq<char>> {
    ls.subrange(0, a) + ls.subrange(b + 1, ls.len() as int)
}

/// `ins` put in at position `a` of `ls`; what stood at `a` and after moves down.
pub open spec fn inserted(ls: Seq<Seq<char>>, a: int, ins: Seq<Seq<char>>) -> Seq<Seq<char>> {
    ls.subrange(0, a) + ins + ls.subrange(a, ls.len() as int)
}

/// Lines joined by single newlines, with none after the last.
pub open spec fn joined(ls: Seq<Seq<char>>) -> Seq<char>
    decreases ls.len(),
{
    if ls.len() == 0 {
        Seq::empty()
    } else if ls.len() == 1 {
        ls[0]
    } else {
        joined(ls.drop_last()) + seq!['\n'] + ls.last()
    }
}

/// Removes the inclusive range `[a, b]`; the lines after it move up.
pub fn remove_range(v: &mut Vec<String>, a: usize, b: usize)
    requires
        a <= b < old(v).len(),
    ensures
        text(final(v)@) == without(text(old(v)@), a as int, b as int),
{
    let ghost o = v@;
    assert(o.len() <= usize::MAX);
    let mut k: usize = a;
    while k <= b
        invariant
            a <= k <= b + 1,
            b < o.len() <= usize::MAX,
            v@ == o.subrange(0, a as int) + o.subrange(k as int, o.len() as int),
        decreases b + 1 - k,
    {
        v.remove(a);
        k = k + 1;
        assert(v@ =~= o.subrange(0, a as int) + o.subrange(k as int, o.len() as int));
    }
    assert(text(v@) =~= without(text(o), a as int, b as int));
}

/// Puts `k` copies of `line` in at position `a`.
pub fn insert_copies(v: &mut Vec<String>, a: usize, line: &String, k: usize)
    requires
        a <= old(v).len(),
    ensures
        text(final(v)@) == inserted(text(old(v)@), a as int, copies(line@, k as nat)),
{
    let ghost o = v@;
    let mut i: usize = 0;
    while i < k
        invariant
            i <= k,
            a <= o.len(),
            v@.len() == o.len() + i,
            text(v@) == inserted(text(o), a as int, copies(line@, i as nat)),
        decreases k - i,
    {
        let ghost before = v@;
        v.insert(a, line.clone());
        proof {
            assert(text(v@) =~= text(before).insert(a as int, line@));
        }
        i = i + 1;
        assert(text(v@) =~= inserted(text(o), a as int, copies(line@, i as nat)));
    }
}

/// Overwrites every line of the inclusive range `[a, b]` with `line`.
pub fn overwrite(v: &mut Vec<String>, a: usize, b: usize, line: &String)
    requires
        a <= b < old(v).len(),
    ensures
        text(final(v)@) == text(old(v)@).subrange(0, a as int) + copies(line@, (b - a + 1) as nat)
            + text(old(v)@).subrange(b + 1, old(v)@.len() as int),
{
    let ghost o = v@;
    assert(o.len() <= usize::MAX);
    let mut i: usize = a;
    while i <= b
        invariant
            a <= i <= b + 1,
            b < o.len() <= usize::MAX,
            v@.len() == o.len(),
            forall|j: int| 0 <= j < v@.len() ==> #[trigger] v@[j]@ == if a <= j < i {
                line@
            } else {
                o[j]@
            },
        decreases b + 1 - i,
    {
        v.set(i, line.clone());
        i = i + 1;
    }
    assert(text(v@) =~= text(o).subrange(0, a as int) + copies(line@, (b - a + 1) as nat) + text(
        o,
    ).subrange(b + 1, o.len() as int));
}

/// The lines joined by single newlines, as they are written to a file.
pub fn join_lines(v: &Vec<String>) -> (r: String)
    ensures
        r@ == joined(text(v@)),
{
    let mut r = String::new();
    let mut i: usize = 0;
    while i < v.len()
        invariant
            i <= v.len(),
            r@ == joined(text(v@).subrange(0, i as int)),
        decreases v.len() - i,
    {
        let ghost t = text(v@).subrange(0, i as int + 1);
        assert(t.drop_last() =~= text(v@).subrange(0, i as int));
        if i > 0 {
            let nl = "\n";
            proof {
                reveal_strlit("\n");
            }
            r.append(nl);
        }
        r.append(v[i].as_str());
        i = i + 1;
        assert(r@ =~= joined(t));
    }
    assert(text(v@).subrange(0, v@.len() as int) =~= text(v@));
    r
}

} // verus!
