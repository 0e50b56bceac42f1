use vstd::prelude::*;

verus! {

/// What the editor shows, as text.
pub enum Shown {
    Line(Seq<char>),
    Numbered(nat, Seq<char>),
    Error,
}

/// One item of output for the terminal.
#[derive(PartialEq, Eq, Debug, Clone)]
pub enum Out {
    /// A line of the buffer, as it is.
    Line(String),
    /// A line of the buffer with its 1-based number.
    Numbered(usize, String),
    /// The error symbol `?`.
    Error,
}

impl View for Out {
    type V = Shown;

    open spec fn view(&self) -> Shown {
        match self {
            Out::Line(s) => Shown::Line(s@),
            Out::Numbered(n, s) => Shown::Numbered(*n as nat, s@),
            Out::Error => Shown::Error,
        }
    }
}

/// The text of a sequence of output items.
pub open spec fn shown(v: Seq<Out>) -> Seq<Shown> {
    v.map_values(|o: Out| o@)
}

/// Appends one item to the output.
pub fn emit(out: &mut Vec<Out>, o: Out)
    ensures
        shown(final(out)@) == shown(old(out)@).push(o@),
{
    out.push(o);
    assert(shown(out@) =~= shown(old(out)@).push(o@));
}

} // verus!
