pub mod lexer;
pub mod ty;

use crate::assembler::compiler::error::raise;
use crate::assembler::compiler::error::{
    is_single_error, spec_expected_msg, spec_got_loc, spec_got_text, spec_str_list_debug, spec_unclosed_msg,
    Error, ErrorType,
};
use crate::assembler::compiler::objects::ident::Ident;
use crate::assembler::compiler::objects::statement::Statement;
use crate::assembler::compiler::objects::ty::{spec_type_from_str, Type};
use crate::assembler::compiler::parser::lexer::{
    kind_eq, lex_line_splits, spec_kind_debug, spec_lex_line, try_lex_line, tokens_view, Token, TokenKind, TokenType, TokenView, Tokens,
};
use crate::assembler::parser::keyword::{spec_keyword_arguments, Keyword};
use crate::assembler::program::{spec_value_from_str, Value};
use crate::assembler::stream::{first_token, TokenStream};
use crate::assembler::target::{spec_register_from_str, Register};
use crate::text::{
    before_semicolon, decimal, lemma_line_end_bounds, line_end, line_text, location_debug, signed_decimal,
    spec_decimal, spec_line_end, spec_line_text, spec_location_debug, spec_semicolon_pos, spec_signed_decimal,
    spec_str_debug, str_debug, Location,
};
use vstd::prelude::*;

verus! {

/// Skips one soft punctuation token, if it comes next.
pub fn take_softpunct(it: &mut TokenStream<Token>)
    ensures
        (old(it)@.len() > 0 && old(it)@[0].ty@ is SoftPunct) ==> final(it)@ == old(it)@.drop_first(),
        !(old(it)@.len() > 0 && old(it)@[0].ty@ is SoftPunct) ==> final(it)@ == old(it)@,
{
    let soft = match it.peek() {
        Some(t) => match &t.ty {
            TokenType::SoftPunct => true,
            _ => false,
        },
        None => false,
    };
    if soft {
        let _ = it.next();
    }
}

/// Takes a dereference marker `*`, if it comes next, and tells whether it did.
pub fn take_deref(it: &mut TokenStream<Token>) -> (res: bool)
    ensures
        res == (old(it)@.len() > 0 && old(it)@[0].ty@ == TokenKind::Punct('*')),
        res ==> final(it)@ == old(it)@.drop_first(),
        !res ==> final(it)@ == old(it)@,
{
    let star = match it.peek() {
        Some(t) => match &t.ty {
            TokenType::Punct(c) => *c == '*',
            _ => false,
        },
        None => false,
    };
    if star {
        let _ = it.next();
    }
    star
}

/// Takes the next token if its kind equals `expc`; otherwise fails with an
/// `expected ..., got ...` error naming the token found, and drains the stream.
pub fn expect(it: &mut TokenStream<Token>, expc: TokenType) -> (res: Result<(), Error>)
    ensures
        (old(it)@.len() > 0 && kind_eq(old(it)@[0].ty@, expc@)) ==> (res is Ok && final(it)@
            == old(it)@.drop_first()),
        !(old(it)@.len() > 0 && kind_eq(old(it)@[0].ty@, expc@)) ==> (res matches Err(e)
            && final(it)@.len() == 0 && is_single_error(e, Some(ErrorType::ExpectedGot),
            spec_got_loc(first_token(old(it)@)), spec_expected_msg(expc, first_token(old(it)@)))),
{
    match it.next() {
        Some(got) => {
            if got.ty == expc {
                Ok(())
            } else {
                let _ = it.last();
                raise::expected_got(expc, Some(got))
            }
        },
        None => {
            let _ = it.last();
            raise::expected_got(expc, None)
        },
    }
}

/// Takes a `,` separator, with optional soft punctuation around it.
pub fn take_separator(it: &mut TokenStream<Token>) -> (res: Result<(), Error>)
    ensures
        ({
            let s1 = skip_soft(old(it)@);
            (s1.len() > 0 && kind_eq(s1[0].ty@, TokenKind::Punct(','))) ==> (res is Ok
                && final(it)@ == skip_soft(s1.drop_first()))
        }),
        ({
            let s1 = skip_soft(old(it)@);
            !(s1.len() > 0 && kind_eq(s1[0].ty@, TokenKind::Punct(','))) ==> (res matches Err(e)
                && final(it)@.len() == 0 && is_single_error(e, Some(ErrorType::ExpectedGot),
                spec_got_loc(first_token(s1)), spec_expected_msg(TokenType::Punct(','), first_token(s1))))
        }),
{
    take_softpunct(it);
    let r = expect(it, TokenType::Punct(','));
    if r.is_err() {
        return r;
    }
    take_softpunct(it);
    Ok(())
}

/// The tokens with one leading soft punctuation token removed, if there is one.
pub open spec fn skip_soft(s: Seq<Token>) -> Seq<Token> {
    if s.len() > 0 && s[0].ty@ is SoftPunct {
        s.drop_first()
    } else {
        s
    }
}

/// A type annotation `@name` may follow only when the token after `@` is a word.
pub open spec fn type_annotation_well_formed(s: Seq<Token>) -> bool {
    (s.len() > 0 && s[0].ty@ == TokenKind::Punct('@')) ==> (s.len() > 1 && s[1].ty@ is Ident)
}

/// Takes a type annotation `@name`, if one comes next: the named type, or `None`
/// when the name is not a type.
pub fn take_type(it: &mut TokenStream<Token>) -> (res: Option<Type>)
    requires
        type_annotation_well_formed(old(it)@),
    ensures
        (old(it)@.len() > 0 && old(it)@[0].ty@ == TokenKind::Punct('@')) ==> ({
            &&& final(it)@ == old(it)@.subrange(2, old(it)@.len() as int)
            &&& res == (match old(it)@[1].ty@ {
                TokenKind::Ident(_, raw) => spec_type_from_str(raw),
                _ => None,
            })
        }),
        !(old(it)@.len() > 0 && old(it)@[0].ty@ == TokenKind::Punct('@')) ==> (final(it)@ == old(it)@
            && res is None),
{
    let at = match it.peek() {
        Some(t) => match &t.ty {
            TokenType::Punct(c) => *c == '@',
            _ => false,
        },
        None => false,
    };
    if !at {
        return None;
    }
    let ghost s0 = it@;
    let _ = it.next();
    let t = it.next();
    assert(it@ =~= s0.subrange(2, s0.len() as int));
    match t {
        Some(Token { ty: TokenType::Ident(ident), .. }) => match Type::from_str(ident.raw.as_str()) {
            Ok(ty) => Some(ty),
            _ => None,
        },
        _ => None,
    }
}


/// An operand of a statement or a macro: a register, a constant `#value`, a
/// label name, or one of these behind a dereference `*`.
#[derive(Debug)]
pub enum Operand {
    Deref(Box<Operand>),
    Register(Register),
    Value(Value),
    Ident(Ident),
}

/// What `{:?}` prints for a register.
pub open spec fn spec_register_debug(r: Register) -> Seq<char> {
    match r {
        Register::A => "A"@,
        Register::B => "B"@,
        Register::C => "C"@,
        Register::D => "D"@,
    }
}

/// A register name reads as the register of that name, and a text reads as a
/// register only when it is that register's name.
pub proof fn lemma_register_names(r: Register, s: Seq<char>)
    ensures
        spec_register_from_str(spec_register_debug(r)) == Some(r),
        spec_register_from_str(s) matches Some(x) ==> s == spec_register_debug(x),
{
    reveal_strlit("A");
    reveal_strlit("B");
    reveal_strlit("C");
    reveal_strlit("D");
    assert("A"@[0] != "B"@[0] && "A"@[0] != "C"@[0] && "A"@[0] != "D"@[0]);
    assert("B"@[0] != "C"@[0] && "B"@[0] != "D"@[0] && "C"@[0] != "D"@[0]);
}

/// What `{:?}` prints for a constant.
pub open spec fn spec_value_debug(v: Value) -> Seq<char> {
    match v {
        Value::I(n) => "I("@ + spec_signed_decimal(n as int) + ")"@,
        Value::I64(n) => "I64("@ + spec_signed_decimal(n as int) + ")"@,
        Value::Ref(n) => "Ref("@ + spec_decimal(n as nat) + ")"@,
        Value::T(b) => "T("@ + (if b { "true"@ } else { "false"@ }) + ")"@,
    }
}

/// What `{:?}` prints for an operand.
pub open spec fn spec_operand_debug(o: Operand) -> Seq<char>
    decreases o,
{
    match o {
        Operand::Deref(b) => "Deref("@ + spec_operand_debug(*b) + ")"@,
        Operand::Register(r) => "Register("@ + spec_register_debug(r) + ")"@,
        Operand::Value(v) => "Value("@ + spec_value_debug(v) + ")"@,
        Operand::Ident(i) => "Ident(Ident { loc: "@ + spec_location_debug(i.loc) + ", raw: "@ + spec_str_debug(i.raw@)
            + " })"@,
    }
}

impl Operand {
    /// The text `{:?}` prints for the operand.
    pub fn debug_string(&self) -> (res: String)
        ensures
            res@ == spec_operand_debug(*self),
        decreases self,
    {
        match self {
            Operand::Deref(b) => {
                let mut s = String::from_str("Deref(");
                s.append(b.debug_string().as_str());
                s.append(")");
                s
            },
            Operand::Register(r) => {
                let mut s = String::from_str("Register(");
                s.append(match r {
                    Register::A => "A",
                    Register::B => "B",
                    Register::C => "C",
                    Register::D => "D",
                });
                s.append(")");
                s
            },
            Operand::Value(v) => {
                let mut inner = match v {
                    Value::I(n) => {
                        let mut t = String::from_str("I(");
                        t.append(signed_decimal(*n as i64).as_str());
                        t
                    },
                    Value::I64(n) => {
                        let mut t = String::from_str("I64(");
                        t.append(signed_decimal(*n).as_str());
                        t
                    },
                    Value::Ref(n) => {
                        let mut t = String::from_str("Ref(");
                        t.append(decimal(*n).as_str());
                        t
                    },
                    Value::T(b) => {
                        let mut t = String::from_str("T(");
                        t.append(if *b { "true" } else { "false" });
                        t
                    },
                };
                inner.append(")");
                let mut s = String::from_str("Value(");
                s.append(inner.as_str());
                s.append(")");
                s
            },
            Operand::Ident(i) => {
                let mut s = String::from_str("Ident(Ident { loc: ");
                s.append(location_debug(i.loc).as_str());
                s.append(", raw: ");
                s.append(str_debug(i.raw.as_str()).as_str());
                s.append(" })");
                s
            },
        }
    }
}

/// A copy of an operand.
pub fn copy_operand(o: &Operand) -> (res: Operand)
    ensures
        res == *o,
    decreases o,
{
    match o {
        Operand::Deref(b) => Operand::Deref(Box::new(copy_operand(b))),
        Operand::Register(r) => Operand::Register(*r),
        Operand::Value(v) => Operand::Value(*v),
        Operand::Ident(i) => Operand::Ident(i.clone()),
    }
}

/// The abstract value of an operand: identifiers by their location and text.
pub enum OperandView {
    Deref(Box<OperandView>),
    Register(Register),
    Value(Value),
    Ident(Location, Seq<char>),
}

/// The abstract value of an operand.
pub open spec fn operand_view(o: Operand) -> OperandView
    decreases o,
{
    match o {
        Operand::Deref(b) => OperandView::Deref(Box::new(operand_view(*b))),
        Operand::Register(r) => OperandView::Register(r),
        Operand::Value(v) => OperandView::Value(v),
        Operand::Ident(i) => OperandView::Ident(i.loc, i.raw@),
    }
}

impl View for Operand {
    type V = OperandView;

    open spec fn view(&self) -> OperandView {
        operand_view(*self)
    }
}

/// Operands by their abstract values.
pub open spec fn operands_view(s: Seq<Operand>) -> Seq<OperandView> {
    s.map_values(|o: Operand| o@)
}

/// An optional operand by its abstract value.
pub open spec fn opt_operand_view(o: Option<Operand>) -> Option<OperandView> {
    match o {
        Some(x) => Some(x@),
        None => None,
    }
}

/// One parsed element of a line: a data declaration, a label, a macro call
/// `.name operands`, or a statement.
#[derive(Debug)]
pub enum Ast {
    Declare(String),
    Label(Ident),
    Macro(Ident, Vec<Operand>),
    Statement(Statement<Operand>),
}

/// The abstract value of a parsed element.
pub enum AstView {
    Declare(Seq<char>),
    Label(Location, Seq<char>),
    Macro(Location, Seq<char>, Seq<OperandView>),
    Statement(Keyword, Option<Type>, Option<OperandView>, Option<OperandView>),
}

impl View for Ast {
    type V = AstView;

    open spec fn view(&self) -> AstView {
        match self {
            Ast::Declare(s) => AstView::Declare(s@),
            Ast::Label(i) => AstView::Label(i.loc, i.raw@),
            Ast::Macro(i, ops) => AstView::Macro(i.loc, i.raw@, operands_view(ops@)),
            Ast::Statement(st) => AstView::Statement(st.kw, st.ty, opt_operand_view(st.arg1), opt_operand_view(st.arg2)),
        }
    }
}

/// Parsed elements by their abstract values.
pub open spec fn asts_view(s: Seq<Ast>) -> Seq<AstView> {
    s.map_values(|a: Ast| a@)
}

/// An error by its kind, location and single message line.
pub struct ErrorView {
    pub ty: Option<ErrorType>,
    pub loc: Location,
    pub msg: Seq<char>,
}

/// `e` is the error `v` describes.
pub open spec fn error_is(e: Error, v: ErrorView) -> bool {
    is_single_error(e, v.ty, v.loc, v.msg)
}

/// The error a plain message becomes: no kind, at location `(0, 0, 0)`.
pub open spec fn message_error(m: Seq<char>) -> ErrorView {
    ErrorView { ty: None, loc: (0usize, 0usize, 0usize), msg: m }
}

/// How `{:?}` prints a token.
pub open spec fn spec_token_debug(t: TokenView) -> Seq<char> {
    "Token { loc: "@ + spec_location_debug(t.0) + ", ty: "@ + spec_kind_debug(t.1) + " }"@
}

/// The first token, if any.
pub open spec fn first_v(s: Seq<TokenView>) -> Option<TokenView> {
    if s.len() > 0 {
        Some(s[0])
    } else {
        None
    }
}

/// The tokens with one leading soft punctuation token removed, if there is one.
pub open spec fn skip_soft_v(s: Seq<TokenView>) -> Seq<TokenView> {
    if s.len() > 0 && s[0].1 is SoftPunct {
        s.drop_first()
    } else {
        s
    }
}

/// The location an `expected ..., got ...` error takes: that of the token found, if any.
pub open spec fn got_loc_v(got: Option<TokenView>) -> Location {
    match got {
        Some(t) => t.0,
        None => (0usize, 0usize, 0usize),
    }
}

/// What an `expected ..., got ...` message says was found.
pub open spec fn got_text_v(got: Option<TokenView>) -> Seq<char> {
    match got {
        Some(t) => "`"@ + spec_kind_debug(t.1) + "`"@,
        None => "nothing"@,
    }
}

/// The message for an operand that is missing or of the wrong kind.
pub open spec fn unexpected_msg(t: Option<TokenView>) -> Seq<char> {
    match t {
        Some(x) => "unexpected token `Some("@ + spec_token_debug(x) + ")`"@,
        None => "unexpected token `None`"@,
    }
}

/// The tokens after the first one (none when there is none).
pub open spec fn after_first(s: Seq<TokenView>) -> Seq<TokenView> {
    if s.len() > 0 {
        s.drop_first()
    } else {
        s
    }
}

/// Reads an operand: `#value`, a register name (`A` to `D`), or a label name.
/// The outcome is `None` where a constant does not read as `true`, `false` or
/// an integer (reading it panics).
pub open spec fn spec_take_op(s: Seq<TokenView>) -> (Option<Result<OperandView, Seq<char>>>, Seq<TokenView>) {
    if s.len() > 0 && s[0].1 == TokenKind::Punct('#') {
        let r = s.drop_first();
        if r.len() > 0 && r[0].1 is Ident {
            match spec_value_from_str(r[0].1->Ident_1) {
                Some(v) => (Some(Ok(OperandView::Value(v))), r.drop_first()),
                None => (None, r.drop_first()),
            }
        } else {
            (Some(Err("expected constant value"@)), after_first(r))
        }
    } else if s.len() > 0 && s[0].1 is Ident {
        let loc = s[0].1->Ident_0;
        let raw = s[0].1->Ident_1;
        (Some(Ok(match spec_register_from_str(raw) {
            Some(reg) => OperandView::Register(reg),
            None => OperandView::Ident(loc, raw),
        })), s.drop_first())
    } else {
        (Some(Err(unexpected_msg(first_v(s)))), after_first(s))
    }
}

/// Reads operands separated by `,` (after each operand, soft punctuation is
/// skipped; a `,` that follows is left for the next operand to read).
pub open spec fn spec_take_ops(s: Seq<TokenView>, acc: Seq<OperandView>) -> (Option<Result<Seq<OperandView>, Seq<char>>>, Seq<TokenView>)
    decreases s.len(),
{
    let (r, rest) = spec_take_op(s);
    match r {
        None => (None, rest),
        Some(Err(m)) => (Some(Err(m)), rest),
        Some(Ok(o)) => {
            let r2 = skip_soft_v(rest);
            if r2.len() > 0 && r2[0].1 == TokenKind::Punct(',') && r2.len() < s.len() {
                spec_take_ops(r2, acc.push(o))
            } else {
                (Some(Ok(acc.push(o))), r2)
            }
        },
    }
}

/// Takes the next token, which must be of kind `expc`.
pub open spec fn spec_expect(s: Seq<TokenView>, expc: TokenKind) -> (Result<(), ErrorView>, Seq<TokenView>) {
    if s.len() > 0 && kind_eq(s[0].1, expc) {
        (Ok(()), s.drop_first())
    } else {
        (Err(ErrorView {
            ty: Some(ErrorType::ExpectedGot),
            loc: got_loc_v(first_v(s)),
            msg: "expected `"@ + spec_kind_debug(expc) + "`, got "@ + got_text_v(first_v(s)),
        }), Seq::empty())
    }
}

/// Takes a `,` separator with optional soft punctuation around it.
pub open spec fn spec_take_separator(s: Seq<TokenView>) -> (Result<(), ErrorView>, Seq<TokenView>) {
    let s1 = skip_soft_v(s);
    match spec_expect(s1, TokenKind::Punct(',')) {
        (Ok(_), r) => (Ok(()), skip_soft_v(r)),
        (Err(e), r) => (Err(e), r),
    }
}

/// Takes a type annotation `@name`, if one comes next; `None` where `@` is not
/// followed by a word (reading it panics).
pub open spec fn spec_take_type(s: Seq<TokenView>) -> Option<(Option<Type>, Seq<TokenView>)> {
    if s.len() > 0 && s[0].1 == TokenKind::Punct('@') {
        if s.len() > 1 && s[1].1 is Ident {
            Some((spec_type_from_str(s[1].1->Ident_1), s.subrange(2, s.len() as int)))
        } else {
            None
        }
    } else {
        Some((None, s))
    }
}

/// Reads an operand that may be dereferenced.
pub open spec fn spec_take_target(s: Seq<TokenView>) -> (Option<Result<OperandView, Seq<char>>>, Seq<TokenView>) {
    if s.len() > 0 && s[0].1 == TokenKind::Punct('*') {
        match spec_take_op(s.drop_first()) {
            (Some(Ok(o)), r) => (Some(Ok(OperandView::Deref(Box::new(o)))), r),
            other => other,
        }
    } else {
        spec_take_op(s)
    }
}

/// Reads the type annotation and operands of a statement with mnemonic `kw`.
pub open spec fn spec_into_statement(kw: Keyword, s: Seq<TokenView>) -> Option<Result<AstView, ErrorView>> {
    match spec_take_type(s) {
        None => None,
        Some((ty, s1)) => {
            let s2 = skip_soft_v(s1);
            let argc = spec_keyword_arguments(kw);
            if argc == 2 {
                let mov = kw == Keyword::Mov;
                let first = if mov { spec_take_target(s2) } else { spec_take_op(s2) };
                match first.0 {
                    None => None,
                    Some(Err(m)) => Some(Err(message_error(m))),
                    Some(Ok(x1)) => match spec_take_separator(first.1) {
                        (Err(e), _) => Some(Err(e)),
                        (Ok(_), s3) => {
                            let second = if mov { spec_take_target(s3) } else { spec_take_op(s3) };
                            match second.0 {
                                None => None,
                                Some(Err(m)) => Some(Err(message_error(m))),
                                Some(Ok(x2)) => Some(Ok(AstView::Statement(kw, ty, Some(x1), Some(x2)))),
                            }
                        },
                    },
                }
            } else if argc == 1 {
                match spec_take_op(s2).0 {
                    None => None,
                    Some(Err(m)) => Some(Err(message_error(m))),
                    Some(Ok(x)) => Some(Ok(AstView::Statement(kw, ty, Some(x), None))),
                }
            } else {
                Some(Ok(AstView::Statement(kw, ty, None, None)))
            }
        },
    }
}

/// Reads a macro call after its `.`: the macro's name and its operands.
pub open spec fn spec_into_macro(s: Seq<TokenView>) -> Option<Result<AstView, ErrorView>> {
    if s.len() > 0 && s[0].1 is Ident {
        match spec_take_ops(skip_soft_v(s.drop_first()), Seq::empty()).0 {
            None => None,
            Some(Err(m)) => Some(Err(message_error(m))),
            Some(Ok(ops)) => Some(Ok(AstView::Macro(s[0].1->Ident_0, s[0].1->Ident_1, ops))),
        }
    } else {
        Some(Err(ErrorView {
            ty: Some(ErrorType::ExpectedGot),
            loc: got_loc_v(first_v(s)),
            msg: "expected `"@ + spec_str_list_debug(seq!["label"@]) + "`, got "@ + got_text_v(first_v(s)),
        }))
    }
}

/// Parses the tokens of a line: a statement, a macro call, or a label `name:`
/// (a name that is not a register) followed by the rest of the line.
pub open spec fn spec_into_ast(t: Seq<TokenView>) -> Option<Result<Seq<AstView>, ErrorView>>
    decreases t.len(),
{
    let s = skip_soft_v(t);
    if s.len() > 0 && s[0].1 is Keyword {
        match spec_into_statement(s[0].1->Keyword_0, skip_soft_v(s.drop_first())) {
            None => None,
            Some(Err(e)) => Some(Err(e)),
            Some(Ok(a)) => Some(Ok(seq![a])),
        }
    } else if s.len() > 0 && s[0].1 == TokenKind::Punct('.') {
        match spec_into_macro(s.drop_first()) {
            None => None,
            Some(Err(e)) => Some(Err(e)),
            Some(Ok(a)) => Some(Ok(seq![a])),
        }
    } else if s.len() > 0 && s[0].1 is Ident && spec_register_from_str(s[0].1->Ident_1) is None {
        let label = AstView::Label(s[0].1->Ident_0, s[0].1->Ident_1);
        match spec_expect(s.drop_first(), TokenKind::Punct(':')) {
            (Err(e), _) => Some(Err(e)),
            (Ok(_), r) => {
                let rest = skip_soft_v(r);
                if rest.len() > 0 && rest.len() < t.len() {
                    match spec_into_ast(rest) {
                        None => None,
                        Some(Err(e)) => Some(Err(e)),
                        Some(Ok(v)) => Some(Ok(seq![label] + v)),
                    }
                } else {
                    Some(Ok(seq![label]))
                }
            },
        }
    } else {
        Some(Err(ErrorView {
            ty: Some(ErrorType::ExpectedGot),
            loc: got_loc_v(first_v(s)),
            msg: "expected `"@ + spec_str_list_debug(seq!["label"@, "instruction"@]) + "`, got "@ + got_text_v(first_v(s)),
        }))
    }
}

/// Parses one line with index `k`: text after a `;` is a comment, and a line
/// without tokens gives nothing. `None` where parsing panics.
pub open spec fn spec_parse_line(k: usize, line: Seq<char>) -> Option<Result<Seq<AstView>, ErrorView>> {
    let code = line.subrange(0, spec_semicolon_pos(line));
    if code.len() == 0 {
        Some(Ok(Seq::empty()))
    } else if lex_line_splits(code) {
        None
    } else {
        match spec_lex_line(k, code) {
            None => Some(Err(message_error(spec_unclosed_msg()))),
            Some(toks) => if toks.len() == 0 {
                Some(Ok(Seq::empty()))
            } else {
                spec_into_ast(toks)
            },
        }
    }
}

/// Parses source text line by line from position `i`, the line there having
/// index `k`; the first error ends it. `None` where parsing panics.
pub open spec fn spec_parse_at(s: Seq<char>, i: int, k: int) -> Option<Result<Seq<AstView>, ErrorView>>
    decreases s.len() + 1 - i,
{
    if i < 0 || i >= s.len() {
        Some(Ok(Seq::empty()))
    } else {
        let j = spec_line_end(s, i);
        proof {
            lemma_line_end_bounds(s, i);
        }
        match spec_parse_line(k as usize, spec_line_text(s, i, j)) {
            None => None,
            Some(Err(e)) => Some(Err(e)),
            Some(Ok(v)) => match spec_parse_at(s, j + 1, k + 1) {
                None => None,
                Some(Err(e)) => Some(Err(e)),
                Some(Ok(w)) => Some(Ok(v + w)),
            },
        }
    }
}

/// `res` is the outcome `o` of parsing, with `None` standing for a panic.
pub open spec fn parsed_as<T, V>(res: Option<Result<T, Error>>, o: Option<Result<V, ErrorView>>, view: spec_fn(T) -> V) -> bool {
    match o {
        None => res is None,
        Some(Ok(v)) => res matches Some(Ok(x)) && view(x) == v,
        Some(Err(e)) => res matches Some(Err(x)) && error_is(x, e),
    }
}

/// Facts that carry the token helpers over to token views.
proof fn lemma_tokens_view(s: Seq<Token>)
    ensures
        tokens_view(s).len() == s.len(),
        s.len() > 0 ==> tokens_view(s.drop_first()) == tokens_view(s).drop_first(),
        s.len() >= 2 ==> tokens_view(s.subrange(2, s.len() as int)) == tokens_view(s).subrange(2, s.len() as int),
        tokens_view(skip_soft(s)) == skip_soft_v(tokens_view(s)),
        spec_got_loc(first_token(s)) == got_loc_v(first_v(tokens_view(s))),
        spec_got_text(first_token(s)) == got_text_v(first_v(tokens_view(s))),
{
    if s.len() > 0 {
        assert(tokens_view(s.drop_first()) =~= tokens_view(s).drop_first());
    }
    if s.len() >= 2 {
        assert(tokens_view(s.subrange(2, s.len() as int)) =~= tokens_view(s).subrange(2, s.len() as int));
    }
}

/// How `{:?}` prints a token.
fn token_debug(t: &Token) -> (res: String)
    ensures
        res@ == spec_token_debug(t@),
{
    let mut s = String::from_str("Token { loc: ");
    s.append(location_debug(t.loc).as_str());
    s.append(", ty: ");
    s.append(t.ty.debug_string().as_str());
    s.append(" }");
    s
}

/// The message for an operand that is missing or of the wrong kind.
fn unexpected(t: &Option<Token>) -> (res: String)
    ensures
        res@ == unexpected_msg(match t {
            Some(x) => Some(x@),
            None => None,
        }),
{
    match t {
        Some(x) => {
            let mut s = String::from_str("unexpected token `Some(");
            s.append(token_debug(x).as_str());
            s.append(")`");
            s
        },
        None => String::from_str("unexpected token `None`"),
    }
}

/// Reads an operand: `#value`, a register name (`A` to `D`), or a label name;
/// `None` where a constant does not read (reading it panics).
pub fn take_op(it: &mut TokenStream<Token>) -> (res: Option<Result<Operand, String>>)
    ensures
        ({
            let (r, rest) = spec_take_op(tokens_view(old(it)@));
            &&& tokens_view(final(it)@) == rest
            &&& match r {
                None => res is None,
                Some(Ok(o)) => res matches Some(Ok(x)) && x@ == o,
                Some(Err(m)) => res matches Some(Err(e)) && e@ == m,
            }
        }),
{
    let ghost s0 = it@;
    proof {
        lemma_tokens_view(s0);
    }
    let first = it.next();
    let ghost s1 = it@;
    proof {
        lemma_tokens_view(s1);
    }
    match first {
        Some(Token { ty: TokenType::Punct(c), loc }) => {
            if c == '#' {
                let second = it.next();
                match second {
                    Some(Token { ty: TokenType::Ident(ident), .. }) => match Value::try_from_str(ident.raw.as_str()) {
                        Some(v) => Some(Ok(Operand::Value(v))),
                        None => None,
                    },
                    _ => Some(Err(String::from_str("expected constant value"))),
                }
            } else {
                Some(Err(unexpected(&Some(Token { ty: TokenType::Punct(c), loc }))))
            }
        },
        Some(Token { ty: TokenType::Ident(ident), .. }) => match Register::from_str(ident.raw.as_str()) {
            Ok(reg) => Some(Ok(Operand::Register(reg))),
            Err(_) => Some(Ok(Operand::Ident(ident))),
        },
        other => Some(Err(unexpected(&other))),
    }
}

/// Reads operands after a macro name: one, and more after each `,`.
pub fn take_ops(it: &mut TokenStream<Token>) -> (res: Option<Result<Vec<Operand>, String>>)
    ensures
        ({
            let (r, rest) = spec_take_ops(tokens_view(old(it)@), Seq::empty());
            &&& tokens_view(final(it)@) == rest
            &&& match r {
                None => res is None,
                Some(Ok(v)) => res matches Some(Ok(x)) && operands_view(x@) == v,
                Some(Err(m)) => res matches Some(Err(e)) && e@ == m,
            }
        }),
{
    let mut ops: Vec<Operand> = Vec::new();
    let ghost target = spec_take_ops(tokens_view(it@), Seq::empty());
    assert(operands_view(ops@) =~= Seq::<OperandView>::empty());
    loop
        invariant_except_break
            target == spec_take_ops(tokens_view(it@), operands_view(ops@)),
        invariant
            target == spec_take_ops(tokens_view(old(it)@), Seq::empty()),
        ensures
            target == (Some(Ok::<Seq<OperandView>, Seq<char>>(operands_view(ops@))), tokens_view(it@)),
        decreases it@.len(),
    {
        let ghost s = tokens_view(it@);
        let ghost before = it@;
        let o = match take_op(it) {
            None => {
                return None;
            },
            Some(Err(m)) => {
                return Some(Err(m));
            },
            Some(Ok(o)) => o,
        };
        let ghost rest = tokens_view(it@);
        let ghost mid = it@;
        let ghost acc0 = operands_view(ops@);
        ops.push(o);
        assert(operands_view(ops@) =~= acc0.push(o@));
        take_softpunct(it);
        proof {
            lemma_tokens_view(before);
            lemma_tokens_view(mid);
            assert(it@ == skip_soft(mid));
            assert(rest.len() < s.len());
        }
        let comma = match it.peek() {
            Some(t) => match &t.ty {
                TokenType::Punct(c) => *c == ',',
                _ => false,
            },
            None => false,
        };
        proof {
            lemma_tokens_view(it@);
        }
        if !comma {
            break;
        }
        take_softpunct(it);
    }
    Some(Ok(ops))
}

/// Reads a macro call after its `.`: the macro's name and its operands.
pub fn into_macro(it: &mut TokenStream<Token>) -> (res: Option<Result<Ast, Error>>)
    ensures
        parsed_as(res, spec_into_macro(tokens_view(old(it)@)), |a: Ast| a@),
{
    let ghost s0 = it@;
    proof {
        lemma_tokens_view(s0);
    }
    match it.next() {
        Some(Token { ty: TokenType::Ident(ident), .. }) => {
            let ghost s1 = it@;
            take_softpunct(it);
            proof {
                lemma_tokens_view(s1);
                assert(it@ == skip_soft(s1));
            }
            match take_ops(it) {
                None => None,
                Some(Err(m)) => Some(Err(Error::new().msg(m))),
                Some(Ok(ops)) => Some(Ok(Ast::Macro(ident, ops))),
            }
        },
        got => {
            let expc: [&str; 1] = ["label"];
            let r = raise::expected_either_got(&expc, got);
            proof {
                assert(expc@.map_values(|s: &str| s@) =~= seq!["label"@]);
            }
            Some(r)
        },
    }
}

/// Reads an operand that may be dereferenced (the operands of `mov`).
fn take_target(it: &mut TokenStream<Token>) -> (res: Option<Result<Operand, String>>)
    ensures
        ({
            let (r, rest) = spec_take_target(tokens_view(old(it)@));
            &&& tokens_view(final(it)@) == rest
            &&& match r {
                None => res is None,
                Some(Ok(o)) => res matches Some(Ok(x)) && x@ == o,
                Some(Err(m)) => res matches Some(Err(e)) && e@ == m,
            }
        }),
{
    proof {
        lemma_tokens_view(it@);
    }
    let indirect = take_deref(it);
    match take_op(it) {
        None => None,
        Some(Err(m)) => Some(Err(m)),
        Some(Ok(op)) => if indirect {
            Some(Ok(Operand::Deref(Box::new(op))))
        } else {
            Some(Ok(op))
        },
    }
}

/// Reads the type annotation and the operands of a statement with mnemonic
/// `kw`; `None` where a `@` is not followed by a word or a constant does not
/// read (parsing panics there).
pub fn into_statement(kw: Keyword, it: &mut TokenStream<Token>) -> (res: Option<Result<Ast, Error>>)
    ensures
        parsed_as(res, spec_into_statement(kw, tokens_view(old(it)@)), |a: Ast| a@),
{
    let ghost s0 = it@;
    proof {
        lemma_tokens_view(s0);
    }
    let at = match it.peek() {
        Some(t) => match &t.ty {
            TokenType::Punct(c) => *c == '@',
            _ => false,
        },
        None => false,
    };
    if at {
        let word = match it.peek_second() {
            Some(t) => match &t.ty {
                TokenType::Ident(_) => true,
                _ => false,
            },
            None => false,
        };
        if !word {
            return None;
        }
    }
    let ty = take_type(it);
    let ghost s1 = it@;
    take_softpunct(it);
    proof {
        lemma_tokens_view(s1);
        assert(it@ == skip_soft(s1));
    }
    let argc = kw.arguments();
    if argc == 2 {
        let mov = kw == Keyword::Mov;
        let x1 = if mov {
            take_target(it)
        } else {
            take_op(it)
        };
        let x1 = match x1 {
            None => {
                return None;
            },
            Some(Err(m)) => {
                return Some(Err(Error::new().msg(m)));
            },
            Some(Ok(x)) => x,
        };
        let ghost s3 = it@;
        proof {
            lemma_tokens_view(s3);
            lemma_tokens_view(skip_soft(s3));
        }
        match take_separator(it) {
            Err(e) => {
                return Some(Err(e));
            },
            Ok(()) => {},
        }
        proof {
            let u = skip_soft(s3);
            if u.len() > 0 {
                lemma_tokens_view(u.drop_first());
            }
        }
        let x2 = if mov {
            take_target(it)
        } else {
            take_op(it)
        };
        let x2 = match x2 {
            None => {
                return None;
            },
            Some(Err(m)) => {
                return Some(Err(Error::new().msg(m)));
            },
            Some(Ok(x)) => x,
        };
        Some(Ok(Ast::Statement(Statement::from(kw, ty).arg1(x1).arg2(x2))))
    } else if argc == 1 {
        match take_op(it) {
            None => None,
            Some(Err(m)) => Some(Err(Error::new().msg(m))),
            Some(Ok(x)) => Some(Ok(Ast::Statement(Statement::from(kw, ty).arg1(x)))),
        }
    } else {
        Some(Ok(Ast::Statement(Statement::from(kw, ty))))
    }
}

/// Parses the tokens of a line: a statement, a macro call, or a label `name:`
/// (a name that is not a register) followed by the rest of the line.
#[verifier::rlimit(50)]
pub fn into_ast(tokens: Tokens) -> (res: Option<Result<Vec<Ast>, Error>>)
    ensures
        match spec_into_ast(tokens_view(tokens@)) {
            None => res is None,
            Some(Ok(v)) => res matches Some(Ok(x)) && asts_view(x@) == v,
            Some(Err(e)) => res matches Some(Err(x)) && error_is(x, e),
        },
    decreases tokens@.len(),
{
    let ghost t0 = tokens@;
    let mut it = TokenStream::new(tokens);
    let ghost s0 = it@;
    take_softpunct(&mut it);
    let ghost s = it@;
    proof {
        lemma_tokens_view(s0);
        lemma_tokens_view(s);
        assert(s == skip_soft(s0));
    }
    match it.next() {
        Some(Token { ty: TokenType::Keyword(kw), .. }) => {
            let ghost s1 = it@;
            take_softpunct(&mut it);
            proof {
                lemma_tokens_view(s1);
                assert(it@ == skip_soft(s1));
            }
            match into_statement(kw, &mut it) {
                None => None,
                Some(Err(e)) => Some(Err(e)),
                Some(Ok(a)) => {
                    let mut v = Vec::new();
                    v.push(a);
                    assert(asts_view(v@) =~= seq![a@]);
                    Some(Ok(v))
                },
            }
        },
        Some(Token { ty: TokenType::Punct(c), loc }) => {
            if c == '.' {
                match into_macro(&mut it) {
                    None => None,
                    Some(Err(e)) => Some(Err(e)),
                    Some(Ok(a)) => {
                        let mut v = Vec::new();
                        v.push(a);
                        assert(asts_view(v@) =~= seq![a@]);
                        Some(Ok(v))
                    },
                }
            } else {
                let r = raise::expected_either_got(&["label", "instruction"], Some(Token { ty: TokenType::Punct(c), loc }));
                proof {
                    assert(["label", "instruction"]@.map_values(|s: &str| s@) =~= seq!["label"@, "instruction"@]);
                }
                Some(r)
            }
        },
        Some(Token { ty: TokenType::Ident(ident), loc }) => {
            if ident.is_register() {
                let r = raise::expected_either_got(&["label", "instruction"], Some(Token { ty: TokenType::Ident(ident), loc }));
                proof {
                    assert(["label", "instruction"]@.map_values(|s: &str| s@) =~= seq!["label"@, "instruction"@]);
                }
                return Some(r);
            }
            let mut bl: Vec<Ast> = Vec::new();
            bl.push(Ast::Label(ident));
            let ghost s1 = it@;
            proof {
                lemma_tokens_view(s1);
            }
            match expect(&mut it, TokenType::Punct(':')) {
                Err(e) => {
                    return Some(Err(e));
                },
                Ok(()) => {},
            }
            let ghost s2 = it@;
            take_softpunct(&mut it);
            proof {
                lemma_tokens_view(s2);
                assert(it@ == skip_soft(s2));
            }
            let rest = it.into_vec();
            if rest.len() > 0 {
                proof {
                    lemma_tokens_view(rest@);
                }
                let more = match into_ast(rest) {
                    None => {
                        return None;
                    },
                    Some(Err(e)) => {
                        return Some(Err(e));
                    },
                    Some(Ok(m)) => m,
                };
                let ghost b0 = asts_view(bl@);
                let ghost mv = asts_view(more@);
                let mut more = more;
                bl.append(&mut more);
                assert(asts_view(bl@) =~= b0 + mv);
            }
            Some(Ok(bl))
        },
        got => {
            let r = raise::expected_either_got(&["label", "instruction"], got);
            proof {
                assert(["label", "instruction"]@.map_values(|s: &str| s@) =~= seq!["label"@, "instruction"@]);
            }
            Some(r)
        },
    }
}


/// The outcome of parsing a source text.
pub type ParseResult = Result<Vec<Ast>, Error>;

/// Parses one line with index `k`; `None` where parsing panics.
fn parse_line(k: usize, line: &str) -> (res: Option<Result<Vec<Ast>, Error>>)
    requires
        line@.len() < usize::MAX,
    ensures
        match spec_parse_line(k, line@) {
            None => res is None,
            Some(Ok(v)) => res matches Some(Ok(x)) && asts_view(x@) == v,
            Some(Err(e)) => res matches Some(Err(x)) && error_is(x, e),
        },
{
    let code = before_semicolon(line);
    let empty: Vec<Ast> = Vec::new();
    assert(asts_view(empty@) =~= Seq::<AstView>::empty());
    if code.unicode_len() == 0 {
        return Some(Ok(empty));
    }
    let tokens = match try_lex_line(k, code) {
        None => {
            return None;
        },
        Some(Ok(t)) => t,
        Some(Err(e)) => {
            return Some(Err(e));
        },
    };
    if tokens.len() == 0 {
        return Some(Ok(empty));
    }
    into_ast(tokens)
}

/// Parses source text line by line; `None` where parsing panics (a word cut
/// out inside a character, a `@` not followed by a word, or a constant that
/// does not read).
pub fn try_parse(src: &str) -> (res: Option<ParseResult>)
    requires
        src@.len() < usize::MAX,
    ensures
        match spec_parse_at(src@, 0, 0) {
            None => res is None,
            Some(Ok(v)) => res matches Some(Ok(x)) && asts_view(x@) == v,
            Some(Err(e)) => res matches Some(Err(x)) && error_is(x, e),
        },
{
    let mut ls: Vec<Ast> = Vec::new();
    let n = src.unicode_len();
    let mut i: usize = 0;
    let mut k: usize = 0;
    let ghost target = spec_parse_at(src@, 0, 0);
    assert(asts_view(ls@) =~= Seq::<AstView>::empty());
    assert(match spec_parse_at(src@, 0, 0) {
        Some(Ok(w)) => target == Some(Ok::<Seq<AstView>, ErrorView>(asts_view(ls@) + w)),
        other => target == other,
    }) by {
        if let Some(Ok(w)) = spec_parse_at(src@, 0, 0) {
            assert(asts_view(ls@) + w =~= w);
        }
    }
    while i < n
        invariant
            n == src@.len(),
            n < usize::MAX,
            k <= i,
            i <= n + 1,
            target == spec_parse_at(src@, 0, 0),
            match spec_parse_at(src@, i as int, k as int) {
                Some(Ok(w)) => target == Some(Ok::<Seq<AstView>, ErrorView>(asts_view(ls@) + w)),
                other => target == other,
            },
        decreases n + 1 - i,
    {
        let j = line_end(src, i);
        proof {
            lemma_line_end_bounds(src@, i as int);
        }
        let line = line_text(src, i, j);
        let more = match parse_line(k, line) {
            None => {
                return None;
            },
            Some(Err(e)) => {
                return Some(Err(e));
            },
            Some(Ok(m)) => m,
        };
        let ghost a0 = asts_view(ls@);
        let ghost mv = asts_view(more@);
        let mut more = more;
        ls.append(&mut more);
        assert(asts_view(ls@) =~= a0 + mv);
        proof {
            if let Some(Ok(w)) = spec_parse_at(src@, j + 1, k + 1) {
                assert(a0 + (mv + w) =~= (a0 + mv) + w);
            }
        }
        i = j + 1;
        k += 1;
    }
    proof {
        assert(asts_view(ls@) + Seq::<AstView>::empty() =~= asts_view(ls@));
    }
    Some(Ok(ls))
}

/// Parses source text line by line: each line holds a statement, a macro call
/// or a label followed by either, and `;` starts a comment.
pub fn parse(src: &str) -> (res: ParseResult)
    requires
        src@.len() < usize::MAX,
        spec_parse_at(src@, 0, 0) is Some,
    ensures
        match spec_parse_at(src@, 0, 0) {
            Some(Ok(v)) => res matches Ok(x) && asts_view(x@) == v,
            Some(Err(e)) => res matches Err(x) && error_is(x, e),
            None => false,
        },
{
    try_parse(src).unwrap()
}

} // verus!
