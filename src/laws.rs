use vstd::prelude::*;
use crate::address::{all_digits, digits_value, is_digit};
use crate::buffer::inserted;
use crate::editor::{command_step, run_cmd, step, wf, Act, EdState};
use crate::output::Shown;
use crate::pattern::pattern_ok;
use crate::subst::{changed_at, parse_directive, sub_line, subst_report};

verus! {

/// The decimal digit for `d`.
pub open spec fn digit_char(d: nat) -> char {
    seq!['0', '1', '2', '3', '4', '5', '6', '7', '8', '9'][d as int]
}

/// `n` written in decimal, without leading zeros.
pub open spec fn decimal(n: nat) -> Seq<char>
    decreases n,
{
    if n < 10 {
        seq![digit_char(n)]
    } else {
        decimal(n / 10).push(digit_char(n % 10))
    }
}

/// The state after each of `inputs` in turn.
pub open spec fn feed_all(st: EdState, inputs: Seq<Seq<char>>) -> EdState
    decreases inputs.len(),
{
    if inputs.len() == 0 {
        st
    } else {
        feed_all(step(st, inputs[0]).state, inputs.subrange(1, inputs.len() as int))
    }
}

proof fn lemma_digit_char(d: nat)
    requires
        d < 10,
    ensures
        is_digit(digit_char(d)),
        (digit_char(d) as u32) - ('0' as u32) == d,
{
    let t = seq!['0', '1', '2', '3', '4', '5', '6', '7', '8', '9'];
    if d == 0 {
        assert(t[0] == '0');
    } else if d == 1 {
        assert(t[1] == '1');
    } else if d == 2 {
        assert(t[2] == '2');
    } else if d == 3 {
        assert(t[3] == '3');
    } else if d == 4 {
        assert(t[4] == '4');
    } else if d == 5 {
        assert(t[5] == '5');
    } else if d == 6 {
        assert(t[6] == '6');
    } else if d == 7 {
        assert(t[7] == '7');
    } else if d == 8 {
        assert(t[8] == '8');
    } else {
        assert(t[9] == '9');
    }
}

proof fn lemma_decimal(n: nat)
    ensures
        all_digits(decimal(n)),
        digits_value(decimal(n)) == n,
    decreases n,
{
    if n < 10 {
        lemma_digit_char(n);
        let s = decimal(n);
        assert(s.drop_last() =~= Seq::<char>::empty());
        assert(digits_value(s.drop_last()) == 0);
        assert(s.last() == digit_char(n));
    } else {
        lemma_decimal(n / 10);
        lemma_digit_char(n % 10);
        let s = decimal(n);
        assert(s.drop_last() =~= decimal(n / 10));
        assert(s.last() == digit_char(n % 10));
        assert(n == (n / 10) * 10 + n % 10) by {
            vstd::arithmetic::div_mod::lemma_fundamental_div_mod(n as int, 10);
        }
        assert forall|i: int| 0 <= i < s.len() implies is_digit(#[trigger] s[i]) by {
            if i < s.len() - 1 {
                assert(s[i] == decimal(n / 10)[i]);
            }
        }
    }
}

/// Going to line `n` (counted from 1) moves the cursor to it, shows exactly
/// that line, and changes nothing else.
pub proof fn goto_shows_line(st: EdState, n: nat)
    requires
        wf(st),
        !st.insert,
        1 <= n <= st.lines.len(),
    ensures
        step(st, decimal(n)).state == (EdState { cursor: (n - 1) as nat, ..st }),
        step(st, decimal(n)).out == seq![Shown::Line(st.lines[n - 1])],
        step(st, decimal(n)).act == Act::Continue,
{
    lemma_decimal(n);
    assert(is_digit(decimal(n).last()));
}

/// Printing a range shows its lines in order, exactly as they are, and
/// changes nothing.
pub proof fn print_shows_lines(st: EdState, a: nat, b: nat)
    requires
        wf(st),
        !st.insert,
        a <= b < st.lines.len(),
    ensures
        run_cmd(st, a, b, 'p').out == st.lines.subrange(a as int, (b + 1) as int).map_values(
            |l: Seq<char>| Shown::Line(l),
        ),
        run_cmd(st, a, b, 'p').state == st,
        run_cmd(st, a, b, 'p').act == Act::Continue,
{
    assert(run_cmd(st, a, b, 'p').out =~= st.lines.subrange(a as int, (b + 1) as int).map_values(
        |l: Seq<char>| Shown::Line(l),
    ));
}

proof fn lemma_insert_lines(st: EdState, ins: Seq<Seq<char>>)
    requires
        st.insert,
        st.cursor <= st.lines.len(),
        st.lines.len() + ins.len() < usize::MAX,
        forall|i: int| 0 <= i < ins.len() ==> ins[i] != seq!['.'],
    ensures
        feed_all(st, ins).lines == inserted(st.lines, st.cursor as int, ins),
        feed_all(st, ins).insert,
        feed_all(st, ins).cursor == st.cursor + ins.len(),
    decreases ins.len(),
{
    if ins.len() == 0 {
        assert(inserted(st.lines, st.cursor as int, ins) =~= st.lines);
    } else {
        assert(ins[0] != seq!['.']);
        let st1 = step(st, ins[0]).state;
        let rest = ins.subrange(1, ins.len() as int);
        assert forall|i: int| 0 <= i < rest.len() implies rest[i] != seq!['.'] by {
            assert(rest[i] == ins[i + 1]);
        }
        lemma_insert_lines(st1, rest);
        assert(inserted(st1.lines, st1.cursor as int, rest) =~= inserted(
            st.lines,
            st.cursor as int,
            ins,
        ));
    }
}

/// Deleting the lines `[a, b]` and then typing them back in, in insert mode
/// at `a`, gives back the buffer as it was. A line that is a lone `.` cannot
/// be typed in insert mode, since it ends it.
pub proof fn delete_then_reinsert(st: EdState, a: nat, b: nat)
    requires
        wf(st),
        !st.insert,
        a <= b < st.lines.len(),
        forall|i: int| a <= i <= b ==> st.lines[i] != seq!['.'],
    ensures
        feed_all(
            (EdState { insert: true, cursor: a, ..run_cmd(st, a, b, 'd').state }),
            st.lines.subrange(a as int, (b + 1) as int),
        ).lines == st.lines,
{
    let st1 = EdState { insert: true, cursor: a, ..run_cmd(st, a, b, 'd').state };
    let ins = st.lines.subrange(a as int, (b + 1) as int);
    assert forall|i: int| 0 <= i < ins.len() implies ins[i] != seq!['.'] by {
        assert(ins[i] == st.lines[a + i]);
    }
    lemma_insert_lines(st1, ins);
    assert(inserted(st1.lines, a as int, ins) =~= st.lines);
}

/// `wq` with no file name shows the error symbol, changes nothing, and does
/// not end the session.
pub proof fn save_quit_needs_name(st: EdState)
    requires
        wf(st),
        !st.insert,
        st.filename.len() == 0,
    ensures
        step(st, seq!['w', 'q']).act == Act::Continue,
        step(st, seq!['w', 'q']).state == st,
        step(st, seq!['w', 'q']).out == seq![Shown::Error],
{
    let s = seq!['w', 'q'];
    assert(!is_digit(s[0]));
    assert(!all_digits(s));
}

proof fn lemma_report_has_no_error(
    ls: Seq<Seq<char>>,
    a: int,
    i: int,
    p: Seq<char>,
    rep: Seq<char>,
    g: bool,
)
    ensures
        !subst_report(ls, a, i, p, rep, g).contains(Shown::Error),
    decreases i - a,
{
    if i > a {
        lemma_report_has_no_error(ls, a, i - 1, p, rep, g);
        let r = subst_report(ls, a, i, p, rep, g);
        let prev = subst_report(ls, a, i - 1, p, rep, g);
        assert forall|k: int| 0 <= k < r.len() implies r[k] != Shown::Error by {
            if k < prev.len() {
                assert(r[k] == prev[k]);
            }
        }
    }
}

/// The command line for a substitution over the whole buffer.
pub open spec fn whole_subst(d: Seq<char>) -> Seq<char> {
    seq!['%', 's'] + d
}

/// A substitution over the whole buffer changes exactly the lines that it
/// alters, each to its substituted form, and shows the error symbol exactly
/// when it alters none.
pub proof fn whole_substitution(
    st: EdState,
    d: Seq<char>,
    p: Seq<char>,
    rep: Seq<char>,
    g: bool,
)
    requires
        wf(st),
        !st.insert,
        st.lines.len() > 0,
        parse_directive(d) == Some((p, rep, g)),
        pattern_ok(p),
    ensures
        command_step(st, whole_subst(d)).state.lines.len() == st.lines.len(),
        forall|i: int|
            0 <= i < st.lines.len() ==> (command_step(st, whole_subst(d)).state.lines[i]
                != st.lines[i] <==> changed_at(st.lines, i, p, rep, g)),
        forall|i: int|
            0 <= i < st.lines.len() && changed_at(st.lines, i, p, rep, g) ==> command_step(
                st,
                whole_subst(d),
            ).state.lines[i] == sub_line(p, rep, g, st.lines[i]),
        command_step(st, whole_subst(d)).out.contains(Shown::Error) <==> !(exists|i: int|
            0 <= i < st.lines.len() && changed_at(st.lines, i, p, rep, g)),
{
    let s = whole_subst(d);
    assert(s[0] == '%' && s[1] == 's');
    assert(!is_digit(s[0]));
    assert(s.subrange(2, s.len() as int) =~= d);
    let len = st.lines.len();
    lemma_report_has_no_error(st.lines, 0, len as int, p, rep, g);
    let r = subst_report(st.lines, 0, len as int, p, rep, g);
    let out = command_step(st, s).out;
    let any = exists|i: int| 0 <= i <= len - 1 && changed_at(st.lines, i, p, rep, g);
    if any {
        assert(out == r);
    } else {
        assert(out == r + seq![Shown::Error]);
        assert(out[out.len() - 1] == Shown::Error);
    }
}

} // verus!
