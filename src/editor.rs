use vstd::prelude::*;
use crate::address::{chars_of, red_parsed_command, resolve_spec, Address, Resolved};
use crate::buffer::{copies, insert_copies, inserted, join_lines, joined, overwrite, remove_range, text, without};
use crate::output::{emit, shown, Out, Shown};
use crate::pattern::{compile, pattern_ok};
use crate::subst::{
    changed_at, parse_directive, search, search_report, split_directive, subst_lines, subst_report,
    substitute,
};

verus! {

/// Whether input lines are read as commands or as text.
#[derive(PartialEq, Eq, Structural, Clone, Copy, Debug)]
pub enum Mode {
    Command,
    Insert,
}

/// The editor as a value: the lines, the cursor, the flags, the file name, and
/// whether it is in insert mode.
pub struct EdState {
    pub lines: Seq<Seq<char>>,
    pub cursor: nat,
    pub modified: bool,
    pub filename: Seq<char>,
    pub prompt: bool,
    pub insert: bool,
}

/// What the driving loop is asked to do after a line of input.
pub enum Act {
    Continue,
    Quit,
    Save(Seq<char>),
    SaveAs(Seq<char>),
    SaveQuit(Seq<char>),
    Edit(nat),
}

/// What the driving loop is asked to do after a line of input.
#[derive(PartialEq, Eq, Debug, Clone)]
pub enum Action {
    /// Read the next line.
    Continue,
    /// End the session.
    Quit,
    /// Write the buffer to this file, then report with `save_finished`.
    Save(String),
    /// Write the buffer to this file, which does not become the tracked one,
    /// then report with `save_finished`.
    SaveAs(String),
    /// Write the buffer to this file, then end the session.
    SaveAndQuit(String),
    /// Read a new text for this line (0-based) and hand it to
    /// `replace_current`.
    Edit(usize),
}

impl View for Action {
    type V = Act;

    open spec fn view(&self) -> Act {
        match self {
            Action::Continue => Act::Continue,
            Action::Quit => Act::Quit,
            Action::Save(f) => Act::Save(f@),
            Action::SaveAs(f) => Act::SaveAs(f@),
            Action::SaveAndQuit(f) => Act::SaveQuit(f@),
            Action::Edit(n) => Act::Edit(*n as nat),
        }
    }
}

/// The result of one line of input, as a value.
pub struct Outcome {
    pub state: EdState,
    pub out: Seq<Shown>,
    pub act: Act,
}

/// The result of one line of input: what to show, and what to do next.
#[derive(Debug)]
pub struct Reply {
    pub out: Vec<Out>,
    pub action: Action,
}

/// A line editor: a buffer of lines, a cursor, and the command interpreter.
pub struct Editor {
    lines: Vec<String>,
    cursor: usize,
    modified: bool,
    filename: String,
    prompt: bool,
    mode: Mode,
}

impl View for Editor {
    type V = EdState;

    closed spec fn view(&self) -> EdState {
        EdState {
            lines: text(self.lines@),
            cursor: self.cursor as nat,
            modified: self.modified,
            filename: self.filename@,
            prompt: self.prompt,
            insert: self.mode == Mode::Insert,
        }
    }
}

/// The editor's invariant: in command mode the cursor is on a line, or 0 when
/// there are none; in insert mode it is at most one past the last line.
pub open spec fn wf(st: EdState) -> bool {
    &&& st.lines.len() < usize::MAX
    &&& if st.insert {
        st.cursor <= st.lines.len()
    } else if st.lines.len() == 0 {
        st.cursor == 0
    } else {
        st.cursor < st.lines.len()
    }
}

/// `o` is the state `st` after the input, with `out` shown and `act` asked for.
pub open spec fn outcome_is(o: Outcome, st: EdState, out: Seq<Shown>, act: Act) -> bool {
    o.state == st && o.out == out && o.act == act
}

/// Nothing shown, nothing else to do.
pub open spec fn quiet(st: EdState) -> Outcome {
    Outcome { state: st, out: Seq::empty(), act: Act::Continue }
}

/// The error symbol, and no change.
pub open spec fn fail(st: EdState) -> Outcome {
    Outcome { state: st, out: seq![Shown::Error], act: Act::Continue }
}

/// Commands that need a line to work on.
pub open spec fn needs_line(c: char) -> bool {
    c == 'p' || c == 'n' || c == 'd' || c == 'c' || c == 'y' || c == 'r' || c == 'k' || c == 'j'
        || c == 'e'
}

/// Where the cursor goes after a deletion from `a` leaves `len` lines.
pub open spec fn cursor_after_delete(a: nat, len: nat) -> nat {
    if len == 0 {
        0
    } else if a < len {
        a
    } else {
        (len - 1) as nat
    }
}

/// The lines from `a` up to `e - 1` as they are, in order.
pub open spec fn plain_lines(ls: Seq<Seq<char>>, a: nat, e: nat) -> Seq<Shown> {
    Seq::new((e - a) as nat, |j: int| Shown::Line(ls[a + j]))
}

/// The lines from `a` up to `e - 1` with their 1-based numbers, in order.
pub open spec fn numbered_lines(ls: Seq<Seq<char>>, a: nat, e: nat) -> Seq<Shown> {
    Seq::new((e - a) as nat, |j: int| Shown::Numbered((a + j + 1) as nat, ls[a + j]))
}

/// Command letter `c` on the inclusive range `[a, b]`.
pub open spec fn run_cmd(st: EdState, a: nat, b: nat, c: char) -> Outcome {
    let ls = st.lines;
    let len = ls.len();
    let cur = st.cursor;
    if needs_line(c) && len == 0 {
        fail(st)
    } else if c == 'p' {
        Outcome { state: st, out: plain_lines(ls, a, b + 1), act: Act::Continue }
    } else if c == 'n' {
        Outcome { state: st, out: numbered_lines(ls, a, b + 1), act: Act::Continue }
    } else if c == 'd' {
        let rest = without(ls, a as int, b as int);
        quiet(
            EdState { lines: rest, cursor: cursor_after_delete(a, rest.len()), modified: true, ..st },
        )
    } else if c == 'c' {
        quiet(
            EdState {
                lines: without(ls, a as int, b as int),
                cursor: a,
                modified: true,
                insert: true,
                ..st
            },
        )
    } else if c == 'i' {
        quiet(
            EdState {
                cursor: if cur == 0 {
                    a
                } else {
                    a + 1
                },
                insert: true,
                ..st
            },
        )
    } else if c == 'a' {
        quiet(EdState { cursor: a, insert: true, ..st })
    } else if c == 'y' {
        let k = (b + 1 - a) as nat;
        if len + k >= usize::MAX {
            fail(st)
        } else {
            quiet(
                EdState {
                    lines: inserted(ls, a as int, copies(ls[cur as int], k)),
                    cursor: if b < cur {
                        cur + 1
                    } else {
                        cur
                    },
                    modified: true,
                    ..st
                },
            )
        }
    } else if c == 'r' {
        quiet(
            EdState {
                lines: ls.subrange(0, a as int) + copies(ls[cur as int], (b + 1 - a) as nat)
                    + ls.subrange((b + 1) as int, len as int),
                modified: true,
                ..st
            },
        )
    } else if c == 'q' {
        if st.modified {
            fail(st)
        } else {
            Outcome { state: st, out: Seq::empty(), act: Act::Quit }
        }
    } else if c == 'Q' {
        Outcome { state: st, out: Seq::empty(), act: Act::Quit }
    } else if c == 'w' {
        if st.filename.len() == 0 {
            fail(st)
        } else {
            Outcome { state: st, out: Seq::empty(), act: Act::Save(st.filename) }
        }
    } else if c == 'P' {
        quiet(EdState { prompt: !st.prompt, ..st })
    } else if c == 'k' {
        let nc: nat = if cur == 0 {
            0
        } else {
            (cur - 1) as nat
        };
        Outcome { state: EdState { cursor: nc, ..st }, out: seq![Shown::Line(ls[nc as int])], act: Act::Continue }
    } else if c == 'j' {
        let nc = if cur + 1 < len {
            cur + 1
        } else {
            cur
        };
        Outcome { state: EdState { cursor: nc, ..st }, out: seq![Shown::Line(ls[nc as int])], act: Act::Continue }
    } else if c == 'e' {
        Outcome { state: st, out: Seq::empty(), act: Act::Edit(cur) }
    } else {
        fail(st)
    }
}

/// Whether some line of `[a, b]` changes under the substitution.
pub open spec fn any_changed(ls: Seq<Seq<char>>, a: nat, b: nat, p: Seq<char>, rep: Seq<char>, g: bool) -> bool {
    exists|i: int| a <= i <= b && changed_at(ls, i, p, rep, g)
}

/// Substitution directive `d` on the inclusive range `[a, b]`.
pub open spec fn run_subst(st: EdState, a: nat, b: nat, d: Seq<char>) -> Outcome {
    match parse_directive(d) {
        None => fail(st),
        Some((p, rep, g)) => if !pattern_ok(p) {
            fail(st)
        } else {
            let any = any_changed(st.lines, a, b, p, rep, g);
            Outcome {
                state: EdState {
                    lines: subst_lines(st.lines, a as int, b as int, p, rep, g),
                    modified: st.modified || any,
                    ..st
                },
                out: subst_report(st.lines, a as int, (b + 1) as int, p, rep, g) + if any {
                    Seq::empty()
                } else {
                    seq![Shown::Error]
                },
                act: Act::Continue,
            }
        },
    }
}

/// Search for pattern `p`: every line it matches, numbered, or the error
/// symbol when there is none.
pub open spec fn run_search(st: EdState, p: Seq<char>) -> Outcome {
    if !pattern_ok(p) {
        fail(st)
    } else {
        let r = search_report(st.lines, st.lines.len() as int, p);
        Outcome {
            state: st,
            out: if r.len() > 0 {
                r
            } else {
                seq![Shown::Error]
            },
            act: Act::Continue,
        }
    }
}

/// A trimmed command line in command mode.
pub open spec fn command_step(st: EdState, s: Seq<char>) -> Outcome {
    match resolve_spec(s, st.lines.len(), st.cursor) {
        Resolved::Bad => fail(st),
        Resolved::Goto(n) => Outcome {
            state: EdState { cursor: n, ..st },
            out: seq![Shown::Line(st.lines[n as int])],
            act: Act::Continue,
        },
        Resolved::Cmd(a, b, c) => run_cmd(st, a, b, c),
        Resolved::Subst(a, b, d) => run_subst(st, a, b, d),
        Resolved::Search(p) => run_search(st, p),
        Resolved::SaveAs(f) => Outcome { state: st, out: Seq::empty(), act: Act::SaveAs(f) },
        Resolved::SaveQuit => if st.filename.len() == 0 {
            fail(st)
        } else {
            Outcome { state: st, out: Seq::empty(), act: Act::SaveQuit(st.filename) }
        },
    }
}

/// A line of text in insert mode: a lone `.` ends insert mode and steps the
/// cursor back; any other line goes in at the cursor, which moves past it.
pub open spec fn insert_step(st: EdState, line: Seq<char>) -> Outcome {
    if line == seq!['.'] {
        quiet(
            EdState {
                insert: false,
                cursor: if st.cursor == 0 {
                    0
                } else {
                    (st.cursor - 1) as nat
                },
                ..st
            },
        )
    } else if st.lines.len() + 1 >= usize::MAX {
        fail(st)
    } else {
        quiet(
            EdState {
                lines: st.lines.insert(st.cursor as int, line),
                cursor: st.cursor + 1,
                modified: true,
                ..st
            },
        )
    }
}

/// Blanks that end a command line and are not part of it.
pub open spec fn is_blank(c: char) -> bool {
    c == ' ' || c == '\t' || c == '\r' || c == '\n'
}

/// `s` without its trailing blanks.
pub open spec fn trim_end(s: Seq<char>) -> Seq<char>
    decreases s.len(),
{
    if s.len() > 0 && is_blank(s.last()) {
        trim_end(s.drop_last())
    } else {
        s
    }
}

/// One line of input, in either mode.
pub open spec fn step(st: EdState, input: Seq<char>) -> Outcome {
    if st.insert {
        insert_step(st, input)
    } else {
        command_step(st, trim_end(input))
    }
}

/// A buffer holding `lines`, read from `filename`, with the cursor on the
/// last line.
pub fn red_init_state(lines: Vec<String>, filename: String) -> (r: Editor)
    requires
        lines@.len() < usize::MAX,
    ensures
        r@ == (EdState {
            lines: text(lines@),
            cursor: if lines@.len() == 0 {
                0
            } else {
                (lines@.len() - 1) as nat
            },
            modified: false,
            filename: filename@,
            prompt: false,
            insert: false,
        }),
        wf(r@),
{
    let n = lines.len();
    let cursor = if n == 0 {
        0
    } else {
        n - 1
    };
    Editor { lines, cursor, modified: false, filename, prompt: false, mode: Mode::Command }
}

/// Runs one trimmed command line in command mode.
pub fn red_handle_multi_command(editor: &mut Editor, s: &str) -> (r: Reply)
    requires
        wf(old(editor)@),
        !old(editor)@.insert,
    ensures
        wf(final(editor)@),
        outcome_is(command_step(old(editor)@, s@), final(editor)@, shown(r.out@), r.action@),
{
    let mut out: Vec<Out> = Vec::new();
    proof {
        assert(shown(out@) =~= Seq::empty());
    }
    let action = editor.command(s, &mut out);
    Reply { out, action }
}

/// Where a resolved command may point, given the cursor invariant.
pub open spec fn in_bounds(r: Resolved, len: nat, cur: nat) -> bool {
    match r {
        Resolved::Goto(n) => n < len,
        Resolved::Cmd(a, b, c) => a <= b && (b < len || (c == 'y' && b == len) || (len == 0 && a
            == 0 && b == 0 && cur == 0)) && (c == 'y' || len == 0 || b < len),
        Resolved::Subst(a, b, _) => a <= b < len,
        _ => true,
    }
}

/// A resolved command stays within the buffer (or one past it, for `y`).
proof fn lemma_resolve_bounds(s: Seq<char>, len: nat, cur: nat)
    requires
        if len == 0 {
            cur == 0
        } else {
            cur < len
        },
    ensures
        in_bounds(resolve_spec(s, len, cur), len, cur),
{
}

/// `s@` without its trailing blanks.
fn trimmed(s: &str) -> (r: &str)
    ensures
        r@ == trim_end(s@),
{
    let cs = chars_of(s);
    let mut k: usize = cs.len();
    assert(s@.subrange(0, k as int) =~= s@);
    while k > 0 && (cs[k - 1] == ' ' || cs[k - 1] == '\t' || cs[k - 1] == '\r' || cs[k - 1] == '\n')
        invariant
            k <= cs.len(),
            cs@ == s@,
            trim_end(s@) == trim_end(s@.subrange(0, k as int)),
        decreases k,
    {
        assert(s@.subrange(0, k as int).drop_last() =~= s@.subrange(0, k - 1));
        k = k - 1;
    }
    s.substring_char(0, k)
}

impl Editor {
    /// An empty buffer with no file name, in command mode.
    pub fn new() -> (r: Editor)
        ensures
            r@ == (EdState {
                lines: Seq::empty(),
                cursor: 0,
                modified: false,
                filename: Seq::empty(),
                prompt: false,
                insert: false,
            }),
            wf(r@),
    {
        let r = Editor {
            lines: Vec::new(),
            cursor: 0,
            modified: false,
            filename: String::new(),
            prompt: false,
            mode: Mode::Command,
        };
        assert(text(r.lines@) =~= Seq::empty());
        r
    }

    pub fn lines(&self) -> (r: &Vec<String>)
        ensures
            text(r@) == self@.lines,
    {
        &self.lines
    }

    pub fn cursor(&self) -> (r: usize)
        ensures
            r == self@.cursor,
    {
        self.cursor
    }

    pub fn modified(&self) -> (r: bool)
        ensures
            r == self@.modified,
    {
        self.modified
    }

    pub fn filename(&self) -> (r: &String)
        ensures
            r@ == self@.filename,
    {
        &self.filename
    }

    /// Whether the prompt is shown before each command.
    pub fn prompt(&self) -> (r: bool)
        ensures
            r == self@.prompt,
    {
        self.prompt
    }

    pub fn mode(&self) -> (r: Mode)
        ensures
            (r == Mode::Insert) == self@.insert,
    {
        self.mode
    }

    /// The buffer as it is written to a file: the lines joined by newlines.
    pub fn contents(&self) -> (r: String)
        ensures
            r@ == joined(self@.lines),
    {
        join_lines(&self.lines)
    }

    /// Reports how a save went: on success the buffer counts as unmodified;
    /// on failure the file name is cleared and the rest is kept.
    pub fn save_finished(&mut self, ok: bool)
        requires
            wf(old(self)@),
        ensures
            wf(final(self)@),
            final(self)@ == (if ok {
                EdState { modified: false, ..old(self)@ }
            } else {
                EdState { filename: Seq::empty(), ..old(self)@ }
            }),
    {
        if ok {
            self.modified = false;
        } else {
            self.filename = String::new();
        }
    }

    /// Replaces the current line with `line`, as the `e` command asks; with
    /// no lines there is nothing to replace.
    pub fn replace_current(&mut self, line: String)
        requires
            wf(old(self)@),
        ensures
            wf(final(self)@),
            final(self)@ == (if old(self)@.lines.len() == 0 || old(self)@.insert {
                old(self)@
            } else {
                EdState {
                    lines: old(self)@.lines.update(old(self)@.cursor as int, line@),
                    modified: true,
                    ..old(self)@
                }
            }),
    {
        if self.lines.len() == 0 || self.mode == Mode::Insert {
            return;
        }
        let ghost o = self@;
        self.lines.set(self.cursor, line);
        self.modified = true;
        assert(text(self.lines@) =~= o.lines.update(o.cursor as int, line@));
    }

    /// Takes one line of input (without its line break) and acts on it.
    pub fn feed(&mut self, input: &str) -> (r: Reply)
        requires
            wf(old(self)@),
        ensures
            wf(final(self)@),
            outcome_is(step(old(self)@, input@), final(self)@, shown(r.out@), r.action@),
    {
        let mut out: Vec<Out> = Vec::new();
        proof {
            assert(shown(out@) =~= Seq::empty());
        }
        if self.mode == Mode::Insert {
            self.insert_line(input, &mut out);
            Reply { out, action: Action::Continue }
        } else {
            red_handle_multi_command(self, trimmed(input))
        }
    }

    /// A line of input in insert mode.
    fn insert_line(&mut self, input: &str, out: &mut Vec<Out>)
        requires
            wf(old(self)@),
            old(self)@.insert,
            old(out)@.len() == 0,
        ensures
            wf(final(self)@),
            outcome_is(insert_step(old(self)@, input@), final(self)@, shown(final(out)@), Act::Continue),
    {
        let ghost o = self@;
        let cs = chars_of(input);
        if cs.len() == 1 && cs[0] == '.' {
            assert(input@ =~= seq!['.']);
            self.mode = Mode::Command;
            if self.cursor > 0 {
                self.cursor = self.cursor - 1;
            }
            assert(shown(out@) =~= Seq::empty());
            return;
        }
        assert(input@ != seq!['.']) by {
            if input@ == seq!['.'] {
                assert(cs@.len() == 1 && cs@[0] == '.');
            }
        }
        if self.lines.len() >= usize::MAX - 1 {
            emit(out, Out::Error);
            assert(shown(out@) =~= seq![Shown::Error]);
            return;
        }
        self.lines.insert(self.cursor, String::from_str(input));
        self.cursor = self.cursor + 1;
        self.modified = true;
        assert(text(self.lines@) =~= o.lines.insert(o.cursor as int, input@));
        assert(shown(out@) =~= Seq::empty());
    }

    /// A trimmed command line in command mode.
    fn command(&mut self, s: &str, out: &mut Vec<Out>) -> (act: Action)
        requires
            wf(old(self)@),
            !old(self)@.insert,
            old(out)@.len() == 0,
        ensures
            wf(final(self)@),
            outcome_is(command_step(old(self)@, s@), final(self)@, shown(final(out)@), act@),
    {
        let ghost o = self@;
        assert(self.lines@.len() == o.lines.len());
        proof {
            lemma_resolve_bounds(s@, o.lines.len(), o.cursor);
        }
        let addr = red_parsed_command(s, self.lines.len(), self.cursor);
        assert(shown(out@) =~= Seq::empty());
        match addr {
            Address::Bad => {
                emit(out, Out::Error);
                Action::Continue
            },
            Address::Goto(n) => {
                self.cursor = n;
                assert(text(self.lines@)[n as int] == self.lines@[n as int]@);
                emit(out, Out::Line(self.lines[n].clone()));
                Action::Continue
            },
            Address::Cmd(a, b, c) => self.run_cmd(a, b, c, out),
            Address::Subst(a, b, d) => {
                self.run_subst(a, b, &d, out);
                Action::Continue
            },
            Address::Search(p) => {
                match compile(p.as_str()) {
                    None => {
                        emit(out, Out::Error);
                    },
                    Some(pat) => {
                        let found = search(&self.lines, &pat, out);
                        if !found {
                            emit(out, Out::Error);
                        }
                    },
                }
                Action::Continue
            },
            Address::SaveAs(f) => Action::SaveAs(f),
            Address::SaveQuit => {
                if self.filename.as_str().unicode_len() == 0 {
                    emit(out, Out::Error);
                    Action::Continue
                } else {
                    Action::SaveAndQuit(self.filename.clone())
                }
            },
        }
    }

    /// Substitution directive `d` on the inclusive range `[a, b]`.
    fn run_subst(&mut self, a: usize, b: usize, d: &String, out: &mut Vec<Out>)
        requires
            wf(old(self)@),
            !old(self)@.insert,
            a <= b < old(self)@.lines.len(),
            shown(old(out)@) == Seq::<Shown>::empty(),
        ensures
            wf(final(self)@),
            outcome_is(run_subst(old(self)@, a as nat, b as nat, d@), final(self)@, shown(final(out)@), Act::Continue),
    {
        let ghost o = self@;
        let dir = match split_directive(d.as_str()) {
            None => {
                emit(out, Out::Error);
                return;
            },
            Some(x) => x,
        };
        let pat = match compile(dir.pattern.as_str()) {
            None => {
                emit(out, Out::Error);
                return;
            },
            Some(p) => p,
        };
        let any = substitute(&mut self.lines, a, b, &pat, dir.replacement.as_str(), dir.global, out);
        if any {
            self.modified = true;
        } else {
            emit(out, Out::Error);
        }
        assert(shown(out@) =~= run_subst(o, a as nat, b as nat, d@).out);
    }

    /// Shows the lines of `[a, b]`, with their numbers when `numbers` is set.
    fn show_range(&self, a: usize, b: usize, numbers: bool, out: &mut Vec<Out>)
        requires
            a <= b < self@.lines.len(),
            shown(old(out)@) == Seq::<Shown>::empty(),
        ensures
            shown(final(out)@) == if numbers {
                numbered_lines(self@.lines, a as nat, b as nat + 1)
            } else {
                plain_lines(self@.lines, a as nat, b as nat + 1)
            },
    {
        let ghost o = self@;
        let n = self.lines.len();
        let mut i: usize = a;
        assert(shown(out@) =~= plain_lines(o.lines, a as nat, a as nat));
        assert(shown(out@) =~= numbered_lines(o.lines, a as nat, a as nat));
        while i <= b
            invariant
                a <= i <= b + 1,
                b < n == self.lines@.len(),
                o == self@,
                shown(out@) == if numbers {
                    numbered_lines(o.lines, a as nat, i as nat)
                } else {
                    plain_lines(o.lines, a as nat, i as nat)
                },
            decreases b + 1 - i,
        {
            assert(o.lines[i as int] == self.lines@[i as int]@);
            let line = self.lines[i].clone();
            if numbers {
                emit(out, Out::Numbered(i + 1, line));
                assert(shown(out@) =~= numbered_lines(o.lines, a as nat, i as nat + 1));
            } else {
                emit(out, Out::Line(line));
                assert(shown(out@) =~= plain_lines(o.lines, a as nat, i as nat + 1));
            }
            i = i + 1;
        }
    }

    /// The commands that change the lines or enter insert mode.
    fn edit_range(&mut self, a: usize, b: usize, c: char, out: &mut Vec<Out>)
        requires
            wf(old(self)@),
            !old(self)@.insert,
            c == 'd' || c == 'c' || c == 'i' || c == 'a' || c == 'y' || c == 'r',
            needs_line(c) ==> old(self)@.lines.len() > 0,
            in_bounds(Resolved::Cmd(a as nat, b as nat, c), old(self)@.lines.len(), old(self)@.cursor),
            shown(old(out)@) == Seq::<Shown>::empty(),
        ensures
            wf(final(self)@),
            outcome_is(run_cmd(old(self)@, a as nat, b as nat, c), final(self)@, shown(final(out)@), Act::Continue),
    {
        let ghost o = self@;
        let len = self.lines.len();
        let cur = self.cursor;
        if c == 'd' || c == 'c' {
            remove_range(&mut self.lines, a, b);
            self.modified = true;
            if c == 'c' {
                self.cursor = a;
                self.mode = Mode::Insert;
            } else {
                let n = self.lines.len();
                self.cursor = if n == 0 {
                    0
                } else if a < n {
                    a
                } else {
                    n - 1
                };
            }
            return;
        }
        if c == 'i' {
            self.cursor = if cur == 0 {
                a
            } else {
                a + 1
            };
            self.mode = Mode::Insert;
            return;
        }
        if c == 'a' {
            self.cursor = a;
            self.mode = Mode::Insert;
            return;
        }
        if c == 'y' {
            let k = b - a + 1;
            if k >= usize::MAX - len {
                emit(out, Out::Error);
                return;
            }
            let line = self.lines[cur].clone();
            assert(line@ == o.lines[cur as int]);
            insert_copies(&mut self.lines, a, &line, k);
            if b < cur {
                self.cursor = cur + 1;
            }
            self.modified = true;
            return;
        }
        if c == 'r' {
            let line = self.lines[cur].clone();
            assert(line@ == o.lines[cur as int]);
            overwrite(&mut self.lines, a, b, &line);
            self.modified = true;
            return;
        }
    }

    /// Command letter `c` on the inclusive range `[a, b]`.
    fn run_cmd(&mut self, a: usize, b: usize, c: char, out: &mut Vec<Out>) -> (act: Action)
        requires
            wf(old(self)@),
            !old(self)@.insert,
            in_bounds(Resolved::Cmd(a as nat, b as nat, c), old(self)@.lines.len(), old(self)@.cursor),
            shown(old(out)@) == Seq::<Shown>::empty(),
        ensures
            wf(final(self)@),
            outcome_is(run_cmd(old(self)@, a as nat, b as nat, c), final(self)@, shown(final(out)@), act@),
    {
        let ghost o = self@;
        let len = self.lines.len();
        let cur = self.cursor;
        if (c == 'p' || c == 'n' || c == 'd' || c == 'c' || c == 'y' || c == 'r' || c == 'k' || c
            == 'j' || c == 'e') && len == 0 {
            emit(out, Out::Error);
            return Action::Continue;
        }
        if c == 'p' || c == 'n' {
            self.show_range(a, b, c == 'n', out);
            return Action::Continue;
        }
        if c == 'd' || c == 'c' || c == 'i' || c == 'a' || c == 'y' || c == 'r' {
            self.edit_range(a, b, c, out);
            return Action::Continue;
        }
        if c == 'q' {
            if self.modified {
                emit(out, Out::Error);
                return Action::Continue;
            }
            return Action::Quit;
        }
        if c == 'Q' {
            return Action::Quit;
        }
        if c == 'w' {
            if self.filename.as_str().unicode_len() == 0 {
                emit(out, Out::Error);
                return Action::Continue;
            }
            return Action::Save(self.filename.clone());
        }
        if c == 'P' {
            self.prompt = !self.prompt;
            return Action::Continue;
        }
        if c == 'k' || c == 'j' {
            if c == 'k' {
                if cur > 0 {
                    self.cursor = cur - 1;
                }
            } else if cur + 1 < len {
                self.cursor = cur + 1;
            }
            assert(o.lines[self.cursor as int] == self.lines@[self.cursor as int]@);
            emit(out, Out::Line(self.lines[self.cursor].clone()));
            return Action::Continue;
        }
        if c == 'e' {
            return Action::Edit(cur);
        }
        emit(out, Out::Error);
        Action::Continue
    }
}

} // verus!
