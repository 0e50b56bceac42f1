use vstd::prelude::*;

verus! {

#[verifier::external_type_specification]
#[verifier::external_body]
pub struct ExRegex(regex::Regex);

/// Whether the regex crate accepts `p` as a pattern.
pub uninterp spec fn pattern_ok(p: Seq<char>) -> bool;

/// Whether pattern `p` matches somewhere in `line`.
pub uninterp spec fn pattern_hits(p: Seq<char>, line: Seq<char>) -> bool;

/// `line` with the first match of `p` replaced by `rep` (with `$` group
/// references expanded).
pub uninterp spec fn first_replaced(p: Seq<char>, rep: Seq<char>, line: Seq<char>) -> Seq<char>;

/// `line` with every match of `p` replaced by `rep` (with `$` group references
/// expanded).
pub uninterp spec fn all_replaced(p: Seq<char>, rep: Seq<char>, line: Seq<char>) -> Seq<char>;

/// A compiled regular expression together with the text it was compiled from.
/// Only `compile` builds one, so `re` always is the compilation of `source`.
pub struct Pattern {
    source: String,
    re: regex::Regex,
}

impl Pattern {
    /// The text this pattern was compiled from.
    pub closed spec fn source(&self) -> Seq<char> {
        self.source@
    }
}

/// Relies on regex::Regex::new: it compiles `p`, or fails when `p` is not a
/// pattern of its syntax.
#[verifier::external_body]
pub fn compile(p: &str) -> (r: Option<Pattern>)
    ensures
        r.is_some() == pattern_ok(p@),
        r matches Some(x) ==> x.source() == p@,
{
    match regex::Regex::new(p) {
        Ok(re) => Some(Pattern { source: p.to_string(), re }),
        Err(_) => None,
    }
}

/// Relies on regex::Regex::is_match: whether the pattern matches in `line`.
#[verifier::external_body]
pub fn hits(p: &Pattern, line: &str) -> (r: bool)
    ensures
        r == pattern_hits(p.source(), line@),
{
    p.re.is_match(line)
}

/// Relies on regex::Regex::replace: the first match replaced; with no match the
/// line comes back unchanged.
#[verifier::external_body]
pub fn replace_first(p: &Pattern, rep: &str, line: &str) -> (r: String)
    ensures
        r@ == first_replaced(p.source(), rep@, line@),
        !pattern_hits(p.source(), line@) ==> r@ == line@,
{
    p.re.replace(line, rep).into_owned()
}

/// Relies on regex::Regex::replace_all: every match replaced; with no match the
/// line comes back unchanged.
#[verifier::external_body]
pub fn replace_all(p: &Pattern, rep: &str, line: &str) -> (r: String)
    ensures
        r@ == all_replaced(p.source(), rep@, line@),
        !pattern_hits(p.source(), line@) ==> r@ == line@,
{
    p.re.replace_all(line, rep).into_owned()
}

} // verus!
