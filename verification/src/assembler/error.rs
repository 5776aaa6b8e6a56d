pub mod raise;

use crate::assembler::compiler::error::{is_error_line, spec_error_line};
use crate::text::{location_debug, red_err_marker, Location};
use vstd::prelude::*;

verus! {

/// An error of the line-based assembler: message lines, location and kind.
#[derive(Debug)]
pub struct Error {
    pub content: Vec<String>,
    pub loc: Location,
    pub ty: ErrorType,
}

/// The kinds of errors of the line-based assembler.
#[derive(Clone, Copy, Debug, PartialEq, Eq, Structural)]
pub enum ErrorType {
    ExpectedGot,
    Untyped,
    NotAValue,
    NotDeclared,
    Redeclared,
}

/// `e` is a fresh error of kind `ty` at `loc` holding exactly the message `msg`.
pub open spec fn is_single_error(e: Error, ty: ErrorType, loc: Location, msg: Seq<char>) -> bool {
    &&& e.ty == ty
    &&& e.loc == loc
    &&& e.content@.len() == 1
    &&& is_error_line(e.content@[0]@, loc, msg)
}

/// The message lines written one after the other (how the error is displayed).
pub open spec fn spec_concat_lines(lines: Seq<Seq<char>>) -> Seq<char>
    decreases lines.len(),
{
    if lines.len() == 0 {
        Seq::empty()
    } else {
        spec_concat_lines(lines.drop_last()) + lines.last()
    }
}

impl Error {
    /// An error of kind `ty` without message, at location `(0, 0, 0)`.
    pub fn new(ty: ErrorType) -> (res: Self)
        ensures
            res.content@.len() == 0,
            res.loc == (0usize, 0usize, 0usize),
            res.ty == ty,
    {
        Self { content: Vec::new(), loc: (0, 0, 0), ty }
    }

    /// Appends a message line `Err <loc>: <msg>` (the marker in red when colors are on).
    pub fn msg(self, msg: String) -> (res: Self)
        ensures
            res.ty == self.ty,
            res.loc == self.loc,
            res.content@.len() == self.content@.len() + 1,
            res.content@.subrange(0, self.content@.len() as int) == self.content@,
            is_error_line(res.content@.last()@, self.loc, msg@),
    {
        let mut s = self;
        let mut line = red_err_marker();
        line.append(" ");
        line.append(location_debug(s.loc).as_str());
        line.append(": ");
        line.append(msg.as_str());
        let ghost old_content = s.content@;
        s.content.push(line);
        assert(s.content@.subrange(0, old_content.len() as int) =~= old_content);
        s
    }

    /// Sets the location of the error.
    pub fn loc(self, loc: Location) -> (res: Self)
        ensures
            res.loc == loc,
            res.ty == self.ty,
            res.content == self.content,
    {
        let mut s = self;
        s.loc = loc;
        s
    }

    /// The message lines written one after the other (how the error is displayed).
    pub fn to_string(&self) -> (res: String)
        ensures
            res@ == spec_concat_lines(self.content@.map_values(|l: String| l@)),
    {
        let mut out = String::new();
        let mut i: usize = 0;
        let ghost lines = self.content@.map_values(|l: String| l@);
        while i < self.content.len()
            invariant
                i <= self.content@.len(),
                lines == self.content@.map_values(|l: String| l@),
                out@ == spec_concat_lines(lines.subrange(0, i as int)),
            decreases self.content@.len() - i,
        {
            out.append(self.content[i].as_str());
            assert(lines.subrange(0, i + 1).drop_last() =~= lines.subrange(0, i as int));
            i += 1;
        }
        assert(lines.subrange(0, i as int) =~= lines);
        out
    }
}

} // verus!
