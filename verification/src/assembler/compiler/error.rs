pub mod raise;

use crate::assembler::compiler::objects::ident::Ident;
use crate::assembler::compiler::parser::lexer::{spec_kind_debug, Token, TokenType};
use crate::text::{
    location_debug, red_err_marker, spec_err_plain, spec_err_red, spec_location_debug,
    spec_str_debug, str_debug, Location,
};
use vstd::prelude::*;

verus! {

/// A compilation error: its message lines, the location it refers to and its kind.
#[derive(Debug)]
pub struct Error {
    pub content: Vec<String>,
    pub loc: Location,
    pub ty: Option<ErrorType>,
}

/// The kinds of compilation errors.
#[derive(Clone, Copy, Debug, PartialEq, Eq, Structural)]
pub enum ErrorType {
    ExpectedGot,
    NotAValue,
    NotDeclared,
    Redeclared,
}

/// A message line: the marker, the location as `{:?}` prints it, and the text.
pub open spec fn spec_error_line(marker: Seq<char>, loc: Location, msg: Seq<char>) -> Seq<char> {
    marker + " "@ + spec_location_debug(loc) + ": "@ + msg
}

/// `line` is the message line for `msg` at `loc`, with the marker plain or in color.
pub open spec fn is_error_line(line: Seq<char>, loc: Location, msg: Seq<char>) -> bool {
    line == spec_error_line(spec_err_plain(), loc, msg) || line == spec_error_line(spec_err_red(), loc, msg)
}

/// `e` is a fresh error of kind `ty` at `loc` holding exactly the message `msg`.
pub open spec fn is_single_error(e: Error, ty: Option<ErrorType>, loc: Location, msg: Seq<char>) -> bool {
    &&& e.ty == ty
    &&& e.loc == loc
    &&& e.content@.len() == 1
    &&& is_error_line(e.content@[0]@, loc, msg)
}

impl Error {
    /// An error without message, at location `(0, 0, 0)` and of no kind.
    pub fn new() -> (res: Self)
        ensures
            res.content@.len() == 0,
            res.loc == (0usize, 0usize, 0usize),
            res.ty is None,
    {
        Self { content: Vec::new(), loc: (0, 0, 0), ty: None }
    }

    /// Sets the kind of the error.
    pub fn ty(self, ty: ErrorType) -> (res: Self)
        ensures
            res.ty == Some(ty),
            res.loc == self.loc,
            res.content == self.content,
    {
        let mut s = self;
        s.ty = Some(ty);
        s
    }

    /// Appends a message line `Err <loc>: <msg>` (the marker in red when colors are on).
    pub fn msg(self, msg: String) -> (res: Self)
        ensures
            res.ty == self.ty,
            res.loc == self.loc,
            res.content@.len() == self.content@.len() + 1,
            res.content@.subrange(0, self.content@.len() as int) == self.content@,
            is_error_line(res.content@.last()@, self.loc, msg@),
    {
        let mut s = self;
        let mut line = red_err_marker();
        line.append(" ");
        line.append(location_debug(s.loc).as_str());
        line.append(": ");
        line.append(msg.as_str());
        let ghost old_content = s.content@;
        s.content.push(line);
        assert(s.content@.subrange(0, old_content.len() as int) =~= old_content);
        s
    }

    /// Sets the location of the error.
    pub fn loc(self, loc: Location) -> (res: Self)
        ensures
            res.loc == loc,
            res.ty == self.ty,
            res.content == self.content,
    {
        let mut s = self;
        s.loc = loc;
        s
    }

    /// The message lines, each followed by a line break (how the error is displayed).
    pub fn to_string(&self) -> (res: String)
        ensures
            res@ == spec_join_lines(self.content@.map_values(|l: String| l@)),
    {
        let mut out = String::new();
        let mut i: usize = 0;
        let ghost lines = self.content@.map_values(|l: String| l@);
        while i < self.content.len()
            invariant
                i <= self.content@.len(),
                lines == self.content@.map_values(|l: String| l@),
                out@ == spec_join_lines(lines.subrange(0, i as int)),
            decreases self.content@.len() - i,
        {
            out.append(self.content[i].as_str());
            out.append("\n");
            assert(lines.subrange(0, i + 1).drop_last() =~= lines.subrange(0, i as int));
            i += 1;
        }
        assert(lines.subrange(0, i as int) =~= lines);
        out
    }
}

/// Lines joined with a line break after each one.
pub open spec fn spec_join_lines(lines: Seq<Seq<char>>) -> Seq<char>
    decreases lines.len(),
{
    if lines.len() == 0 {
        Seq::empty()
    } else {
        spec_join_lines(lines.drop_last()) + lines.last() + "\n"@
    }
}

/// How `{:?}` prints a list of strings: `["a", "b"]`.
pub open spec fn spec_str_list_debug(items: Seq<Seq<char>>) -> Seq<char> {
    "["@ + spec_str_list_items(items) + "]"@
}

/// The items of a list as `{:?}` prints them, separated by `, `.
pub open spec fn spec_str_list_items(items: Seq<Seq<char>>) -> Seq<char>
    decreases items.len(),
{
    if items.len() == 0 {
        Seq::empty()
    } else if items.len() == 1 {
        spec_str_debug(items[0])
    } else {
        spec_str_list_items(items.drop_last()) + ", "@ + spec_str_debug(items.last())
    }
}

/// What an `expected ..., got ...` message says was found.
pub open spec fn spec_got_text(got: Option<Token>) -> Seq<char> {
    match got {
        Some(t) => "`"@ + spec_kind_debug(t.ty@) + "`"@,
        None => "nothing"@,
    }
}

/// The location an `expected ..., got ...` error takes: that of the token found, if any.
pub open spec fn spec_got_loc(got: Option<Token>) -> Location {
    match got {
        Some(t) => t.loc,
        None => (0usize, 0usize, 0usize),
    }
}

/// The message of `expected_either_got`.
pub open spec fn spec_expected_either_msg(expc: Seq<Seq<char>>, got: Option<Token>) -> Seq<char> {
    "expected `"@ + spec_str_list_debug(expc) + "`, got "@ + spec_got_text(got)
}

/// The message of `expected_got`.
pub open spec fn spec_expected_msg(expc: TokenType, got: Option<Token>) -> Seq<char> {
    "expected `"@ + spec_kind_debug(expc@) + "`, got "@ + spec_got_text(got)
}

/// The message of `not_declared`.
pub open spec fn spec_not_declared_msg(ident: Ident) -> Seq<char> {
    "label `"@ + ident.raw@ + "` was not declared"@
}

/// The message of `redeclared`.
pub open spec fn spec_redeclared_msg(ident: Ident) -> Seq<char> {
    "redeclaration of label `"@ + ident.raw@ + "`"@
}

/// The message of `unclosed_string`.
pub open spec fn spec_unclosed_msg() -> Seq<char> {
    "unclosed string literal"@
}

pub(crate) fn got_text(got: &Option<Token>) -> (res: String)
    ensures
        res@ == spec_got_text(*got),
{
    match got {
        Some(t) => {
            let mut s = String::from_str("`");
            s.append(t.ty.debug_string().as_str());
            s.append("`");
            s
        },
        None => String::from_str("nothing"),
    }
}

pub(crate) fn str_list_debug(items: &[&str]) -> (res: String)
    ensures
        res@ == spec_str_list_debug(items@.map_values(|s: &str| s@)),
{
    let ghost views = items@.map_values(|s: &str| s@);
    let mut out = String::from_str("[");
    let mut i: usize = 0;
    while i < items.len()
        invariant
            i <= items@.len(),
            views == items@.map_values(|s: &str| s@),
            out@ == "["@ + spec_str_list_items(views.subrange(0, i as int)),
        decreases items@.len() - i,
    {
        if i > 0 {
            out.append(", ");
        }
        out.append(str_debug(items[i]).as_str());
        proof {
            let pre = views.subrange(0, i + 1);
            assert(pre.drop_last() =~= views.subrange(0, i as int));
            if i == 0 {
                assert(views.subrange(0, i as int).len() == 0);
            }
        }
        i += 1;
    }
    assert(views.subrange(0, i as int) =~= views);
    out.append("]");
    out
}

pub(crate) fn got_loc(got: &Option<Token>) -> (res: Location)
    ensures
        res == spec_got_loc(*got),
{
    match got {
        Some(t) => t.loc,
        None => (0, 0, 0),
    }
}

} // verus!
