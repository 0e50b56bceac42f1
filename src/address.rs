use vstd::prelude::*;

verus! {

/// A decimal digit.
pub open spec fn is_digit(c: char) -> bool {
    '0' <= c && c <= '9'
}

/// A non-empty run of decimal digits.
pub open spec fn all_digits(s: Seq<char>) -> bool {
    s.len() > 0 && forall|i: int| 0 <= i < s.len() ==> is_digit(#[trigger] s[i])
}

/// The number written by a run of decimal digits, most significant first.
pub open spec fn digits_value(s: Seq<char>) -> nat
    decreases s.len(),
{
    if s.len() == 0 {
        0
    } else {
        digits_value(s.drop_last()) * 10 + ((s.last() as u32) - ('0' as u32)) as nat
    }
}

/// `k` is the position of the first `c` in `s`.
pub open spec fn first_at(s: Seq<char>, c: char, k: int) -> bool {
    0 <= k < s.len() && s[k] == c && forall|j: int| 0 <= j < k ==> s[j] != c
}

/// Position of the first `c` in `s`, or -1 when there is none.
pub open spec fn index_of(s: Seq<char>, c: char) -> int {
    if exists|k: int| first_at(s, c, k) {
        choose|k: int| first_at(s, c, k)
    } else {
        -1
    }
}

/// `k` is the length of the longest run of digits that `s` starts with.
pub open spec fn digit_run_at(s: Seq<char>, k: int) -> bool {
    0 <= k <= s.len() && (forall|j: int| 0 <= j < k ==> is_digit(#[trigger] s[j])) && (k == s.len()
        || !is_digit(s[k]))
}

/// Length of the longest run of digits at the start of `s`.
pub open spec fn digit_run(s: Seq<char>) -> int {
    choose|k: int| digit_run_at(s, k)
}

/// What a command line asks for, once its addresses are resolved against a
/// buffer. Line positions are 0-based.
pub enum Resolved {
    Bad,
    Goto(nat),
    Cmd(nat, nat, char),
    Subst(nat, nat, Seq<char>),
    Search(Seq<char>),
    SaveAs(Seq<char>),
    SaveQuit,
}

/// A resolved command line. Line positions are 0-based.
pub enum Address {
    /// Malformed, or an address out of range.
    Bad,
    /// Move to this line and print it.
    Goto(usize),
    /// Apply a command letter to the inclusive range `[start, end]`.
    Cmd(usize, usize, char),
    /// Apply a substitution directive (`/pat/rep/flags`) to `[start, end]`.
    Subst(usize, usize, String),
    /// Print the lines that a pattern matches.
    Search(String),
    /// Write the buffer to another file.
    SaveAs(String),
    /// Save to the current file and quit.
    SaveQuit,
}

impl View for Address {
    type V = Resolved;

    open spec fn view(&self) -> Resolved {
        match self {
            Address::Bad => Resolved::Bad,
            Address::Goto(n) => Resolved::Goto(*n as nat),
            Address::Cmd(s, e, c) => Resolved::Cmd(*s as nat, *e as nat, *c),
            Address::Subst(s, e, d) => Resolved::Subst(*s as nat, *e as nat, d@),
            Address::Search(p) => Resolved::Search(p@),
            Address::SaveAs(f) => Resolved::SaveAs(f@),
            Address::SaveQuit => Resolved::SaveQuit,
        }
    }
}

/// The highest 1-based address that command `c` may name in a buffer of `len`
/// lines: `y` may also name the position just past the last line.
pub open spec fn limit_for(c: char, len: nat) -> nat {
    if c == 'y' {
        len + 1
    } else {
        len
    }
}

/// `,N<cmd>`: from the cursor to line `N`.
pub open spec fn resolve_to(s: Seq<char>, len: nat, cur: nat) -> Resolved {
    let mid = s.subrange(1, s.len() - 1);
    let n = digits_value(mid);
    if all_digits(mid) && 1 <= n <= len && cur <= n - 1 {
        Resolved::Cmd(cur, (n - 1) as nat, s.last())
    } else {
        Resolved::Bad
    }
}

/// `N<cmd>`, or `Ns<directive>`: a single line.
pub open spec fn resolve_single(s: Seq<char>, len: nat) -> Resolved {
    let d = digit_run(s);
    let n = digits_value(s.subrange(0, d));
    let rest = s.subrange(d, s.len() as int);
    if rest.len() == 1 {
        if 1 <= n <= limit_for(rest[0], len) {
            Resolved::Cmd((n - 1) as nat, (n - 1) as nat, rest[0])
        } else {
            Resolved::Bad
        }
    } else if rest[0] == 's' {
        if 1 <= n <= len {
            Resolved::Subst((n - 1) as nat, (n - 1) as nat, rest.subrange(1, rest.len() as int))
        } else {
            Resolved::Bad
        }
    } else {
        Resolved::Bad
    }
}

/// `N,M<cmd>`, where `M` may be `%` for the last line.
pub open spec fn resolve_pair(s: Seq<char>, len: nat) -> Resolved {
    let k = index_of(s, ',');
    let left = s.subrange(0, k);
    let right = s.subrange(k + 1, s.len() - 1);
    let c = s.last();
    let n = digits_value(left);
    let m = if right == seq!['%'] {
        len
    } else {
        digits_value(right)
    };
    if k + 1 <= s.len() - 1 && all_digits(left) && (right == seq!['%'] || all_digits(right)) && 1
        <= n && n <= m && m <= limit_for(c, len) {
        Resolved::Cmd((n - 1) as nat, (m - 1) as nat, c)
    } else {
        Resolved::Bad
    }
}

/// `w <filename>`: two tokens separated by one space.
pub open spec fn is_save_as(s: Seq<char>) -> bool {
    s.len() > 2 && s[0] == 'w' && s[1] == ' ' && index_of(s.subrange(2, s.len() as int), ' ') == -1
}

/// How a command line resolves in a buffer of `len` lines whose cursor is
/// `cur`. The forms are tried in a fixed order and the first that fits wins.
pub open spec fn resolve_spec(s: Seq<char>, len: nat, cur: nat) -> Resolved {
    if s.len() == 0 {
        Resolved::Bad
    } else if all_digits(s) {
        let n = digits_value(s);
        if 1 <= n <= len {
            Resolved::Goto((n - 1) as nat)
        } else {
            Resolved::Bad
        }
    } else if s.len() == 1 {
        Resolved::Cmd(cur, cur, s[0])
    } else if s[0] == '%' && s.len() == 2 {
        if len == 0 {
            Resolved::Bad
        } else {
            Resolved::Cmd(0, (len - 1) as nat, s[1])
        }
    } else if s[0] == '%' && s[1] == 's' {
        if len == 0 {
            Resolved::Bad
        } else {
            Resolved::Subst(0, (len - 1) as nat, s.subrange(2, s.len() as int))
        }
    } else if s[0] == 's' {
        if len == 0 {
            Resolved::Bad
        } else {
            Resolved::Subst(cur, cur, s.subrange(1, s.len() as int))
        }
    } else if s[0] == '/' {
        Resolved::Search(s.subrange(1, s.len() as int))
    } else if s[0] == ',' && s.len() == 2 {
        if len == 0 {
            Resolved::Bad
        } else {
            Resolved::Cmd(0, (len - 1) as nat, s[1])
        }
    } else if s[0] == ',' {
        resolve_to(s, len, cur)
    } else if is_digit(s[0]) && index_of(s, ',') == -1 {
        resolve_single(s, len)
    } else if is_digit(s[0]) {
        resolve_pair(s, len)
    } else if is_save_as(s) {
        Resolved::SaveAs(s.subrange(2, s.len() as int))
    } else if s == seq!['w', 'q'] {
        Resolved::SaveQuit
    } else {
        Resolved::Bad
    }
}

proof fn lemma_index_of(s: Seq<char>, c: char, k: int)
    requires
        first_at(s, c, k),
    ensures
        index_of(s, c) == k,
{
    let j = choose|j: int| first_at(s, c, j);
    assert(first_at(s, c, j));
    if j < k {
        assert(s[j] != c);
    } else if k < j {
        assert(s[k] != c);
    }
}

proof fn lemma_digit_run(s: Seq<char>, k: int)
    requires
        digit_run_at(s, k),
    ensures
        digit_run(s) == k,
{
    let j = choose|j: int| digit_run_at(s, j);
    assert(digit_run_at(s, j));
    if j < k {
        assert(is_digit(s[j]));
    } else if k < j {
        assert(is_digit(s[k]));
    }
}

proof fn lemma_digits_value_grows(s: Seq<char>, i: int, j: int)
    requires
        0 <= i <= j <= s.len(),
    ensures
        digits_value(s.subrange(0, i)) <= digits_value(s.subrange(0, j)),
    decreases j - i,
{
    if i < j {
        lemma_digits_value_grows(s, i, j - 1);
        assert(s.subrange(0, j).drop_last() =~= s.subrange(0, j - 1));
    }
}

/// Position of the first `c` in `cs[lo..]`, relative to `lo`, or -1.
pub(crate) fn find_char(cs: &Vec<char>, lo: usize, c: char) -> (r: Option<usize>)
    requires
        lo <= cs.len(),
    ensures
        match r {
            Some(k) => k == index_of(cs@.subrange(lo as int, cs.len() as int), c) && lo + k < cs.len(),
            None => index_of(cs@.subrange(lo as int, cs.len() as int), c) == -1,
        },
{
    let ghost s = cs@.subrange(lo as int, cs.len() as int);
    let mut i: usize = lo;
    while i < cs.len()
        invariant
            lo <= i <= cs.len(),
            s == cs@.subrange(lo as int, cs.len() as int),
            forall|j: int| 0 <= j < i - lo ==> s[j] != c,
        decreases cs.len() - i,
    {
        if cs[i] == c {
            proof {
                lemma_index_of(s, c, (i - lo) as int);
            }
            return Some(i - lo);
        }
        i = i + 1;
    }
    assert(!exists|k: int| first_at(s, c, k)) by {
        if exists|k: int| first_at(s, c, k) {
            let k = choose|k: int| first_at(s, c, k);
            assert(s[k] != c);
        }
    }
    None
}

/// Whether `cs[lo..hi]` is a non-empty run of digits.
fn digits_between(cs: &Vec<char>, lo: usize, hi: usize) -> (r: bool)
    requires
        lo <= hi <= cs.len(),
    ensures
        r == all_digits(cs@.subrange(lo as int, hi as int)),
{
    if lo == hi {
        return false;
    }
    let mut i: usize = lo;
    while i < hi
        invariant
            lo <= i <= hi <= cs.len(),
            forall|j: int| lo <= j < i ==> is_digit(#[trigger] cs@[j]),
        decreases hi - i,
    {
        if !('0' <= cs[i] && cs[i] <= '9') {
            assert(!is_digit(cs@.subrange(lo as int, hi as int)[i - lo]));
            return false;
        }
        i = i + 1;
    }
    assert forall|j: int| 0 <= j < hi - lo implies is_digit(
        #[trigger] cs@.subrange(lo as int, hi as int)[j],
    ) by {
        assert(is_digit(cs@[lo + j]));
    }
    true
}

/// Length of the run of digits at the start of `cs`.
fn digit_run_exec(cs: &Vec<char>) -> (r: usize)
    ensures
        r == digit_run(cs@),
        digit_run_at(cs@, r as int),
{
    let mut i: usize = 0;
    while i < cs.len() && '0' <= cs[i] && cs[i] <= '9'
        invariant
            i <= cs.len(),
            forall|j: int| 0 <= j < i ==> is_digit(#[trigger] cs@[j]),
        decreases cs.len() - i,
    {
        i = i + 1;
    }
    proof {
        lemma_digit_run(cs@, i as int);
    }
    i
}

/// The value of the digits `cs[lo..hi]` when it is at most `cap`, else `None`.
fn parse_upto(cs: &Vec<char>, lo: usize, hi: usize, cap: usize) -> (r: Option<usize>)
    requires
        lo <= hi <= cs.len(),
        all_digits(cs@.subrange(lo as int, hi as int)),
    ensures
        match r {
            Some(v) => v == digits_value(cs@.subrange(lo as int, hi as int)) && v <= cap,
            None => digits_value(cs@.subrange(lo as int, hi as int)) > cap,
        },
{
    let ghost s = cs@.subrange(lo as int, hi as int);
    let mut acc: usize = 0;
    let mut i: usize = lo;
    assert(s.subrange(0, 0) =~= Seq::<char>::empty());
    while i < hi
        invariant
            lo <= i <= hi <= cs.len(),
            s == cs@.subrange(lo as int, hi as int),
            all_digits(s),
            acc == digits_value(s.subrange(0, i - lo)),
            acc <= cap,
        decreases hi - i,
    {
        assert(is_digit(s[i - lo]));
        let d: u32 = (cs[i] as u32) - ('0' as u32);
        let next: u128 = (acc as u128) * 10 + (d as u128);
        assert(s.subrange(0, i - lo + 1).drop_last() =~= s.subrange(0, i - lo));
        assert(s.subrange(0, i - lo + 1).last() == cs@[i as int]);
        if next > cap as u128 {
            proof {
                lemma_digits_value_grows(s, i - lo + 1, s.len() as int);
                assert(s.subrange(0, s.len() as int) =~= s);
            }
            return None;
        }
        acc = next as usize;
        i = i + 1;
    }
    assert(s.subrange(0, hi - lo) =~= s);
    Some(acc)
}

/// A `String` holding `s@[lo..hi]`.
pub(crate) fn slice_string(s: &str, lo: usize, hi: usize) -> (r: String)
    requires
        lo <= hi <= s@.len(),
    ensures
        r@ == s@.subrange(lo as int, hi as int),
{
    String::from_str(s.substring_char(lo, hi))
}

/// The characters of `s`, one per element.
pub fn chars_of(s: &str) -> (r: Vec<char>)
    ensures
        r@ == s@,
{
    let n = s.unicode_len();
    let mut r: Vec<char> = Vec::new();
    let mut i: usize = 0;
    while i < n
        invariant
            i <= n == s@.len(),
            r@ == s@.subrange(0, i as int),
        decreases n - i,
    {
        r.push(s.get_char(i));
        i = i + 1;
        assert(r@ =~= s@.subrange(0, i as int));
    }
    assert(r@ =~= s@);
    r
}

/// Resolves a command line against a buffer of `len` lines whose cursor is `cur`.
pub fn red_parsed_command(s: &str, len: usize, cur: usize) -> (r: Address)
    requires
        len < usize::MAX,
    ensures
        r@ == resolve_spec(s@, len as nat, cur as nat),
{
    let cs = chars_of(s);
    let n = cs.len();
    if n == 0 {
        return Address::Bad;
    }
    if digits_between(&cs, 0, n) {
        assert(cs@.subrange(0, n as int) =~= cs@);
        return match parse_upto(&cs, 0, n, len) {
            Some(v) if v >= 1 => Address::Goto(v - 1),
            _ => Address::Bad,
        };
    }
    assert(cs@.subrange(0, n as int) =~= cs@);
    let c0 = cs[0];
    if n == 1 {
        return Address::Cmd(cur, cur, c0);
    }
    if c0 == '%' && n == 2 {
        return if len == 0 {
            Address::Bad
        } else {
            Address::Cmd(0, len - 1, cs[1])
        };
    }
    if c0 == '%' && cs[1] == 's' {
        return if len == 0 {
            Address::Bad
        } else {
            Address::Subst(0, len - 1, slice_string(s, 2, n))
        };
    }
    if c0 == 's' {
        return if len == 0 {
            Address::Bad
        } else {
            Address::Subst(cur, cur, slice_string(s, 1, n))
        };
    }
    if c0 == '/' {
        return Address::Search(slice_string(s, 1, n));
    }
    if c0 == ',' && n == 2 {
        return if len == 0 {
            Address::Bad
        } else {
            Address::Cmd(0, len - 1, cs[1])
        };
    }
    if c0 == ',' {
        if digits_between(&cs, 1, n - 1) {
            return match parse_upto(&cs, 1, n - 1, len) {
                Some(v) if v >= 1 && cur <= v - 1 => Address::Cmd(cur, v - 1, cs[n - 1]),
                _ => Address::Bad,
            };
        }
        return Address::Bad;
    }
    let digit0 = '0' <= c0 && c0 <= '9';
    let comma = find_char(&cs, 0, ',');
    assert(cs@.subrange(0, n as int) =~= cs@);
    if digit0 {
        return match comma {
            None => resolve_single_exec(s, &cs, len),
            Some(k) => resolve_pair_exec(&cs, k, len),
        };
    }
    if n > 2 && c0 == 'w' && cs[1] == ' ' && find_char(&cs, 2, ' ').is_none() {
        return Address::SaveAs(slice_string(s, 2, n));
    }
    if n == 2 && c0 == 'w' && cs[1] == 'q' {
        assert(cs@ =~= seq!['w', 'q']);
        return Address::SaveQuit;
    }
    Address::Bad
}

fn resolve_single_exec(s: &str, cs: &Vec<char>, len: usize) -> (r: Address)
    requires
        len < usize::MAX,
        cs@ == s@,
        cs.len() >= 2,
        is_digit(cs@[0]),
        !all_digits(cs@),
    ensures
        r@ == resolve_single(cs@, len as nat),
{
    let n = cs.len();
    let d = digit_run_exec(cs);
    assert(d < n) by {
        if d == n {
            assert(all_digits(cs@));
        }
    }
    assert(d > 0) by {
        if d == 0 {
            assert(!is_digit(cs@[0]));
        }
    }
    assert forall|j: int| 0 <= j < d implies is_digit(#[trigger] cs@.subrange(0, d as int)[j]) by {
        assert(is_digit(cs@[j]));
    }
    let ghost rest = cs@.subrange(d as int, n as int);
    if n - d == 1 {
        let c = cs[d];
        assert(rest[0] == c);
        let cap = if c == 'y' {
            len + 1
        } else {
            len
        };
        return match parse_upto(cs, 0, d, cap) {
            Some(v) if v >= 1 => Address::Cmd(v - 1, v - 1, c),
            _ => Address::Bad,
        };
    }
    if cs[d] == 's' {
        assert(rest[0] == 's');
        assert(rest.subrange(1, rest.len() as int) =~= s@.subrange(d + 1, n as int));
        return match parse_upto(cs, 0, d, len) {
            Some(v) if v >= 1 => Address::Subst(v - 1, v - 1, slice_string(s, d + 1, n)),
            _ => Address::Bad,
        };
    }
    assert(rest[0] == cs@[d as int]);
    Address::Bad
}

fn resolve_pair_exec(cs: &Vec<char>, k: usize, len: usize) -> (r: Address)
    requires
        len < usize::MAX,
        cs.len() >= 2,
        k < cs.len(),
        k == index_of(cs@, ','),
    ensures
        r@ == resolve_pair(cs@, len as nat),
{
    let n = cs.len();
    let c = cs[n - 1];
    let cap = if c == 'y' {
        len + 1
    } else {
        len
    };
    if k + 1 > n - 1 || !digits_between(cs, 0, k) {
        return Address::Bad;
    }
    let n_val = match parse_upto(cs, 0, k, cap) {
        Some(v) => v,
        None => {
            return Address::Bad;
        },
    };
    let ghost right = cs@.subrange(k + 1, n - 1);
    let m_val: usize;
    if k + 2 == n - 1 && cs[k + 1] == '%' {
        assert(right =~= seq!['%']);
        m_val = len;
    } else {
        assert(right != seq!['%']) by {
            if right == seq!['%'] {
                assert(right.len() == 1);
                assert(right[0] == cs@[k + 1]);
            }
        }
        if !digits_between(cs, k + 1, n - 1) {
            return Address::Bad;
        }
        m_val = match parse_upto(cs, k + 1, n - 1, cap) {
            Some(v) => v,
            None => {
                return Address::Bad;
            },
        };
    }
    if 1 <= n_val && n_val <= m_val && m_val <= cap {
        Address::Cmd(n_val - 1, m_val - 1, c)
    } else {
        Address::Bad
    }
}

} // verus!
