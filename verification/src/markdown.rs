//! The start of turning a mod's description, written in markdown, into
//! lines for the screen.

use vstd::prelude::*;
use vstd::string::StrSliceExecFns;

verus! {

/// A description that is being turned into lines.
#[derive(Debug)]
pub struct Parser<'a> {
    /// Whether no paragraph has ended yet.
    pub first: bool,
    /// The description as it was written.
    pub input: &'a str,
}

impl<'a> Parser<'a> {
    /// The parser at the start of the text `input`.
    pub fn new(input: &'a str) -> (r: Parser<'a>)
        ensures
            r.first,
            r.input@ == input@,
    {
        Parser { first: true, input }
    }
}

/// The marks that stand in front of a heading of the level `level`: as
/// many `#` as the level says.
pub fn heading(level: usize) -> (r: &'static str)
    requires
        level <= 10,
    ensures
        r@.len() == level,
        forall|i: int| 0 <= i < level ==> r@[i] == '#',
{
    proof {
        reveal_strlit("##########");
    }
    let marks: &'static str = "##########";
    marks.substring_char(0, level)
}

} // verus!
