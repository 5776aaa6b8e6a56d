pub mod keyword;
pub mod lexer;

use crate::assembler::parser::keyword::{spec_keyword_arguments, Keyword};
use crate::assembler::parser::lexer::{
    lex_kind_eq, lex_tokens_view, spec_lex_kind_debug, spec_lex_token_debug, LexKind, LexToken,
    LexTokenType, LexTokens, lemma_ascii_line_lexes, lex_line_splits, spec_lex_tokens, try_lex_line,
};
use crate::assembler::stream::TokenStream;
use crate::assembler::target::{spec_register_from_str, Register};
use crate::text::{
    before_semicolon, lemma_line_end_bounds, lemma_semicolon_pos_bounds, line_end, line_text, spec_line_end, spec_line_text,
    spec_semicolon_pos, Location,
};
use vstd::prelude::*;
use vstd::utf8::is_ascii_chars;

verus! {

pub type ParseResult = Result<Vec<Ast>, String>;

/// One parsed element of a line: a label, a data declaration, or a statement
/// with zero, one or two operands.
#[derive(Debug)]
pub enum Ast {
    Label(String),
    Declare(String),
    Statement(Keyword),
    Statement1(Keyword, Operand),
    Statement2(Keyword, Operand, Operand),
}

/// An operand: a register, a constant `#value`, a label name, or one of these
/// behind a dereference `*`.
#[derive(Debug)]
pub enum Operand {
    Deref(Box<Operand>),
    Register(Register),
    Value(String),
    Ident(String),
}

/// The abstract value of an operand.
pub enum OperandView {
    Deref(Box<OperandView>),
    Register(Register),
    Value(Seq<char>),
    Ident(Seq<char>),
}

/// The abstract value of a parsed element.
pub enum AstView {
    Label(Seq<char>),
    Declare(Seq<char>),
    Statement(Keyword),
    Statement1(Keyword, OperandView),
    Statement2(Keyword, OperandView, OperandView),
}

/// The abstract value of an operand.
pub open spec fn operand_view(o: Operand) -> OperandView
    decreases o,
{
    match o {
        Operand::Deref(b) => OperandView::Deref(Box::new(operand_view(*b))),
        Operand::Register(r) => OperandView::Register(r),
        Operand::Value(s) => OperandView::Value(s@),
        Operand::Ident(s) => OperandView::Ident(s@),
    }
}

impl View for Operand {
    type V = OperandView;

    open spec fn view(&self) -> OperandView {
        operand_view(*self)
    }
}

impl View for Ast {
    type V = AstView;

    open spec fn view(&self) -> AstView {
        match self {
            Ast::Label(s) => AstView::Label(s@),
            Ast::Declare(s) => AstView::Declare(s@),
            Ast::Statement(k) => AstView::Statement(*k),
            Ast::Statement1(k, o) => AstView::Statement1(*k, o@),
            Ast::Statement2(k, a, b) => AstView::Statement2(*k, a@, b@),
        }
    }
}

/// Parsed elements by their abstract values.
pub open spec fn asts_view(a: Seq<Ast>) -> Seq<AstView> {
    a.map_values(|x: Ast| x@)
}

pub type TokV = (Location, LexKind);

/// How `{:?}` prints an optional token.
pub open spec fn spec_opt_token_debug(t: Option<TokV>) -> Seq<char> {
    match t {
        Some(x) => "Some("@ + spec_lex_token_debug(x) + ")"@,
        None => "None"@,
    }
}

/// The first token, if any.
pub open spec fn first_of(t: Seq<TokV>) -> Option<TokV> {
    if t.len() > 0 {
        Some(t[0])
    } else {
        None
    }
}

/// The tokens after the first one (none when there is none).
pub open spec fn after_first(t: Seq<TokV>) -> Seq<TokV> {
    if t.len() > 0 {
        t.drop_first()
    } else {
        t
    }
}

/// Takes a dereference marker `*`, if it comes next.
pub open spec fn spec_take_deref(t: Seq<TokV>) -> (bool, Seq<TokV>) {
    if t.len() > 0 && t[0].1 == LexKind::Punct('*') {
        (true, t.drop_first())
    } else {
        (false, t)
    }
}

/// Takes the next token and checks that its kind equals `expc`.
pub open spec fn spec_expect(t: Seq<TokV>, expc: LexKind) -> (Result<(), Seq<char>>, Seq<TokV>) {
    if t.len() > 0 && lex_kind_eq(t[0].1, expc) {
        (Ok(()), t.drop_first())
    } else {
        (Err("expected `"@ + spec_lex_kind_debug(expc) + "`, got `"@ + spec_opt_token_debug(first_of(t))
            + "`"@), after_first(t))
    }
}

/// Reads an operand: `#value`, a register name, or a label name.
pub open spec fn spec_take_op(t: Seq<TokV>) -> (Result<OperandView, Seq<char>>, Seq<TokV>) {
    if t.len() > 0 && t[0].1 == LexKind::Punct('#') {
        let r = t.drop_first();
        if r.len() > 0 && r[0].1 is Ident {
            (Ok(OperandView::Value(r[0].1->Ident_1)), r.drop_first())
        } else {
            (Err("expected constant value"@), after_first(r))
        }
    } else if t.len() > 0 && t[0].1 is Ident {
        let raw = t[0].1->Ident_1;
        (Ok(match spec_register_from_str(raw) {
            Some(reg) => OperandView::Register(reg),
            None => OperandView::Ident(raw),
        }), t.drop_first())
    } else {
        (Err("unexpected token `"@ + spec_opt_token_debug(first_of(t)) + "`"@), after_first(t))
    }
}

/// Reads an operand that may be dereferenced.
pub open spec fn spec_take_target(t: Seq<TokV>) -> (Result<OperandView, Seq<char>>, Seq<TokV>) {
    let (ind, t1) = spec_take_deref(t);
    let (r, t2) = spec_take_op(t1);
    match r {
        Ok(op) => (Ok(if ind { OperandView::Deref(Box::new(op)) } else { op }), t2),
        Err(e) => (Err(e), t2),
    }
}

/// Reads the operands of a statement with mnemonic `kw`: the statement or the
/// error, and the tokens left after what was read.
pub open spec fn spec_into_statement(kw: Keyword, t: Seq<TokV>) -> (Result<AstView, Seq<char>>, Seq<TokV>) {
    let argc = spec_keyword_arguments(kw);
    if argc == 2 {
        let first = if kw == Keyword::Mov { spec_take_target(t) } else { spec_take_op(t) };
        match first.0 {
            Err(e) => (Err(e), first.1),
            Ok(x1) => {
                let (c, t3) = spec_expect(first.1, LexKind::Punct(','));
                match c {
                    Err(e) => (Err(e), t3),
                    Ok(_) => {
                        let second = if kw == Keyword::Mov { spec_take_target(t3) } else { spec_take_op(t3) };
                        match second.0 {
                            Err(e) => (Err(e), second.1),
                            Ok(x2) => (Ok(AstView::Statement2(kw, x1, x2)), second.1),
                        }
                    },
                }
            },
        }
    } else if argc == 1 {
        let (r, rest) = spec_take_op(t);
        match r {
            Err(e) => (Err(e), rest),
            Ok(x) => (Ok(AstView::Statement1(kw, x)), rest),
        }
    } else {
        (Ok(AstView::Statement(kw)), t)
    }
}

/// Parses the tokens of a line: a statement, or a label `name:` followed by the
/// rest of the line.
pub open spec fn spec_into_ast(t: Seq<TokV>) -> Result<Seq<AstView>, Seq<char>>
    decreases t.len(),
{
    if t.len() > 0 && t[0].1 is Keyword {
        match spec_into_statement(t[0].1->Keyword_0, t.drop_first()).0 {
            Err(e) => Err(e),
            Ok(a) => Ok(seq![a]),
        }
    } else if t.len() > 0 && t[0].1 is Ident {
        let label = AstView::Label(t[0].1->Ident_1);
        let (e, rest) = spec_expect(t.drop_first(), LexKind::Punct(':'));
        match e {
            Err(m) => Err(m),
            Ok(_) => if rest.len() > 0 {
                match spec_into_ast(rest) {
                    Err(m) => Err(m),
                    Ok(v) => Ok(seq![label] + v),
                }
            } else {
                Ok(seq![label])
            },
        }
    } else {
        Err("line does not start with instruction"@)
    }
}

fn opt_token_debug(t: &Option<LexToken>) -> (res: String)
    ensures
        res@ == spec_opt_token_debug(match t {
            Some(x) => Some(x@),
            None => None,
        }),
{
    match t {
        Some(x) => {
            let mut s = String::from_str("Some(");
            s.append(x.debug_string().as_str());
            s.append(")");
            s
        },
        None => String::from_str("None"),
    }
}

/// Takes a dereference marker `*`, if it comes next, and tells whether it did.
pub fn take_deref(it: &mut TokenStream<LexToken>) -> (res: bool)
    ensures
        (res, lex_tokens_view(final(it)@)) == spec_take_deref(lex_tokens_view(old(it)@)),
{
    let star = match it.peek() {
        Some(t) => match &t.ty {
            LexTokenType::Punct(c) => *c == '*',
            _ => false,
        },
        None => false,
    };
    let ghost pre = it@;
    if star {
        let _ = it.next();
        assert(lex_tokens_view(it@) =~= lex_tokens_view(pre).drop_first());
    }
    star
}

/// Takes the next token and checks that its kind equals `expc`.
pub fn expect(it: &mut TokenStream<LexToken>, expc: LexTokenType) -> (res: Result<(), String>)
    ensures
        ({
            let (r, rest) = spec_expect(lex_tokens_view(old(it)@), expc@);
            &&& lex_tokens_view(final(it)@) == rest
            &&& match r {
                Ok(_) => res is Ok,
                Err(m) => res matches Err(e) && e@ == m,
            }
        }),
{
    let ghost pre = it@;
    let got = it.next();
    proof {
        if pre.len() > 0 {
            assert(lex_tokens_view(it@) =~= lex_tokens_view(pre).drop_first());
        }
    }
    let ok = match &got {
        Some(t) => t.ty == expc,
        None => false,
    };
    if ok {
        Ok(())
    } else {
        let mut m = String::from_str("expected `");
        m.append(expc.debug_string().as_str());
        m.append("`, got `");
        m.append(opt_token_debug(&got).as_str());
        m.append("`");
        Err(m)
    }
}

/// Reads an operand: `#value`, a register name (`A` to `D`), or a label name.
pub fn take_op(it: &mut TokenStream<LexToken>) -> (res: Result<Operand, String>)
    ensures
        ({
            let (r, rest) = spec_take_op(lex_tokens_view(old(it)@));
            &&& lex_tokens_view(final(it)@) == rest
            &&& match r {
                Ok(o) => res matches Ok(x) && x@ == o,
                Err(m) => res matches Err(e) && e@ == m,
            }
        }),
{
    let ghost pre = lex_tokens_view(it@);
    let first = it.next();
    proof {
        if pre.len() > 0 {
            assert(lex_tokens_view(it@) =~= pre.drop_first());
        }
    }
    match first {
        Some(LexToken { ty: LexTokenType::Punct(c), loc }) => {
            if c == '#' {
                let ghost pre2 = lex_tokens_view(it@);
                let second = it.next();
                proof {
                    if pre2.len() > 0 {
                        assert(lex_tokens_view(it@) =~= pre2.drop_first());
                    }
                }
                match second {
                    Some(LexToken { ty: LexTokenType::Ident(value), .. }) => Ok(Operand::Value(value.raw)),
                    _ => Err(String::from_str("expected constant value")),
                }
            } else {
                let mut m = String::from_str("unexpected token `");
                m.append(opt_token_debug(&Some(LexToken { ty: LexTokenType::Punct(c), loc })).as_str());
                m.append("`");
                Err(m)
            }
        },
        Some(LexToken { ty: LexTokenType::Ident(ident), .. }) => {
            match Register::from_str(ident.raw.as_str()) {
                Ok(reg) => Ok(Operand::Register(reg)),
                Err(_) => Ok(Operand::Ident(ident.raw)),
            }
        },
        other => {
            let mut m = String::from_str("unexpected token `");
            m.append(opt_token_debug(&other).as_str());
            m.append("`");
            Err(m)
        },
    }
}

fn take_target(it: &mut TokenStream<LexToken>) -> (res: Result<Operand, String>)
    ensures
        ({
            let (r, rest) = spec_take_target(lex_tokens_view(old(it)@));
            &&& lex_tokens_view(final(it)@) == rest
            &&& match r {
                Ok(o) => res matches Ok(x) && x@ == o,
                Err(m) => res matches Err(e) && e@ == m,
            }
        }),
{
    let indirect = take_deref(it);
    let op = take_op(it)?;
    if indirect {
        Ok(Operand::Deref(Box::new(op)))
    } else {
        Ok(op)
    }
}

/// Reads the operands of a statement with mnemonic `kw`.
pub fn into_statement(kw: Keyword, it: &mut TokenStream<LexToken>) -> (res: Result<Ast, String>)
    ensures
        ({
            let (r, rest) = spec_into_statement(kw, lex_tokens_view(old(it)@));
            &&& lex_tokens_view(final(it)@) == rest
            &&& match r {
                Ok(a) => res matches Ok(x) && x@ == a,
                Err(m) => res matches Err(e) && e@ == m,
            }
        }),
{
    let argc = kw.arguments();
    if argc == 2 {
        let x1 = if kw == Keyword::Mov { take_target(it)? } else { take_op(it)? };
        expect(it, LexTokenType::Punct(','))?;
        let x2 = if kw == Keyword::Mov { take_target(it)? } else { take_op(it)? };
        Ok(Ast::Statement2(kw, x1, x2))
    } else if argc == 1 {
        let x = take_op(it)?;
        Ok(Ast::Statement1(kw, x))
    } else {
        Ok(Ast::Statement(kw))
    }
}

/// Parses the tokens of a line: a statement, or a label `name:` followed by the
/// rest of the line.
pub fn into_ast(tokens: LexTokens) -> (res: Result<Vec<Ast>, String>)
    ensures
        match spec_into_ast(lex_tokens_view(tokens@)) {
            Ok(v) => res matches Ok(x) && asts_view(x@) == v,
            Err(m) => res matches Err(e) && e@ == m,
        },
    decreases tokens@.len(),
{
    let ghost tv = lex_tokens_view(tokens@);
    let mut it = TokenStream::new(tokens);
    let first = it.next();
    assert(lex_tokens_view(it@) =~= after_first(tv));
    match first {
        Some(LexToken { ty: LexTokenType::Keyword(kw), .. }) => {
            let a = into_statement(kw, &mut it)?;
            let mut v = Vec::new();
            v.push(a);
            assert(asts_view(v@) =~= seq![a@]);
            Ok(v)
        },
        Some(LexToken { ty: LexTokenType::Ident(label), .. }) => {
            let mut bl: Vec<Ast> = Vec::new();
            bl.push(Ast::Label(label.raw));
            expect(&mut it, LexTokenType::Punct(':'))?;
            let rest = it.into_vec();
            if rest.len() > 0 {
                let more = into_ast(rest)?;
                let ghost b0 = asts_view(bl@);
                let ghost mv = asts_view(more@);
                let mut more = more;
                bl.append(&mut more);
                assert(asts_view(bl@) =~= b0 + mv);
            }
            Ok(bl)
        },
        _ => Err(String::from_str("line does not start with instruction")),
    }
}

/// Parses one line with index `k`: text after a `;` is a comment, and a line
/// without tokens gives nothing.
pub open spec fn spec_parse_line(k: usize, line: Seq<char>) -> Result<Seq<AstView>, Seq<char>> {
    let code = line.subrange(0, spec_semicolon_pos(line));
    let toks = spec_lex_tokens(k, code);
    if code.len() == 0 || toks.len() == 0 {
        Ok(Seq::empty())
    } else {
        spec_into_ast(toks)
    }
}

/// Lexing the code of a line (the part before its first `;`) panics.
pub open spec fn line_splits(line: Seq<char>) -> bool {
    lex_line_splits(line.subrange(0, spec_semicolon_pos(line)))
}

/// Parsing source text line by line from position `i`, the line there having
/// index `k`, panics: a line is lexed that cuts a word inside a character before
/// any line fails to parse.
pub open spec fn parse_splits_at(s: Seq<char>, i: int, k: int) -> bool
    decreases s.len() + 1 - i,
{
    if i < 0 || i >= s.len() {
        false
    } else {
        let j = spec_line_end(s, i);
        proof {
            lemma_line_end_bounds(s, i);
        }
        let line = spec_line_text(s, i, j);
        if line_splits(line) {
            true
        } else {
            match spec_parse_line(k as usize, line) {
                Err(_) => false,
                Ok(_) => parse_splits_at(s, j + 1, k + 1),
            }
        }
    }
}

/// Parsing text of single-byte characters never panics.
pub proof fn lemma_ascii_text_parses(s: Seq<char>)
    requires
        is_ascii_chars(s),
    ensures
        !parse_splits_at(s, 0, 0),
{
    lemma_ascii_parse_from(s, 0, 0);
}

proof fn lemma_ascii_parse_from(s: Seq<char>, i: int, k: int)
    requires
        is_ascii_chars(s),
        0 <= i,
    ensures
        !parse_splits_at(s, i, k),
    decreases s.len() + 1 - i,
{
    if i < s.len() {
        let j = spec_line_end(s, i);
        lemma_line_end_bounds(s, i);
        let line = spec_line_text(s, i, j);
        let code = line.subrange(0, spec_semicolon_pos(line));
        lemma_semicolon_pos_bounds(line, 0);
        assert(is_ascii_chars(code)) by {
            assert forall|x: int| 0 <= x < code.len() implies '\0' <= #[trigger] code[x] <= '\u{7f}' by {
                assert(code[x] == line[x]);
                assert(line[x] == s[i + x]);
            }
        }
        lemma_ascii_line_lexes(code);
        lemma_ascii_parse_from(s, j + 1, k + 1);
    }
}

/// Parses source text line by line from position `i`, the line there having index `k`.
pub open spec fn spec_parse_at(s: Seq<char>, i: int, k: int) -> Result<Seq<AstView>, Seq<char>>
    decreases s.len() + 1 - i,
{
    if i < 0 || i >= s.len() {
        Ok(Seq::empty())
    } else {
        let j = spec_line_end(s, i);
        proof {
            lemma_line_end_bounds(s, i);
            assert(i <= j);
        }
        match spec_parse_line(k as usize, spec_line_text(s, i, j)) {
            Err(m) => Err(m),
            Ok(v) => match spec_parse_at(s, j + 1, k + 1) {
                Err(m) => Err(m),
                Ok(w) => Ok(v + w),
            },
        }
    }
}

/// Parses one line with index `k`, or gives `None` where lexing it panics.
fn parse_line(k: usize, line: &str) -> (res: Option<Result<Vec<Ast>, String>>)
    requires
        line@.len() < usize::MAX,
    ensures
        match res {
            None => line_splits(line@),
            Some(r) => !line_splits(line@) && match spec_parse_line(k, line@) {
                Ok(v) => r matches Ok(x) && asts_view(x@) == v,
                Err(m) => r matches Err(e) && e@ == m,
            },
        },
{
    let code = before_semicolon(line);
    if !code.is_empty() {
        let tokens = match try_lex_line(k, code) {
            Some(t) => t,
            None => return None,
        };
        if tokens.len() > 0 {
            return Some(into_ast(tokens));
        }
    }
    let v: Vec<Ast> = Vec::new();
    assert(asts_view(v@) =~= Seq::<AstView>::empty());
    Some(Ok(v))
}

/// Parses a whole source text.
pub fn parse(src: &str) -> (res: ParseResult)
    requires
        !parse_splits_at(src@, 0, 0),
        src@.len() < usize::MAX,
    ensures
        match spec_parse_at(src@, 0, 0) {
            Ok(v) => res matches Ok(x) && asts_view(x@) == v,
            Err(m) => res matches Err(e) && e@ == m,
        },
{
    try_parse(src).unwrap()
}

/// Parses a whole source text like `parse`, or gives `None` where that panics.
pub fn try_parse(src: &str) -> (res: Option<ParseResult>)
    requires
        src@.len() < usize::MAX,
    ensures
        match res {
            None => parse_splits_at(src@, 0, 0),
            Some(r) => !parse_splits_at(src@, 0, 0) && match spec_parse_at(src@, 0, 0) {
                Ok(v) => r matches Ok(x) && asts_view(x@) == v,
                Err(m) => r matches Err(e) && e@ == m,
            },
        },
{
    let mut ls: Vec<Ast> = Vec::new();
    let n = src.unicode_len();
    let mut i: usize = 0;
    let mut k: usize = 0;
    let ghost target = spec_parse_at(src@, 0, 0);
    let ghost splits = parse_splits_at(src@, 0, 0);
    assert(asts_view(ls@) =~= Seq::<AstView>::empty());
    assert(match spec_parse_at(src@, 0, 0) {
        Ok(w) => target == Ok::<Seq<AstView>, Seq<char>>(asts_view(ls@) + w),
        Err(m) => target == Err::<Seq<AstView>, Seq<char>>(m),
    }) by {
        if let Ok(w) = spec_parse_at(src@, 0, 0) {
            assert(asts_view(ls@) + w =~= w);
        }
    }
    while i < n
        invariant
            n == src@.len(),
            n < usize::MAX,
            splits == parse_splits_at(src@, 0, 0),
            spec_parse_at(src@, i as int, k as int) is Ok ==> parse_splits_at(src@, i as int, k as int) == splits,
            spec_parse_at(src@, i as int, k as int) is Err ==> (splits <==> parse_splits_at(src@, i as int, k as int)),
            k <= i,
            i <= n + 1,
            target == spec_parse_at(src@, 0, 0),
            match spec_parse_at(src@, i as int, k as int) {
                Ok(w) => target == Ok::<Seq<AstView>, Seq<char>>(asts_view(ls@) + w),
                Err(m) => target == Err::<Seq<AstView>, Seq<char>>(m),
            },
        decreases n + 1 - i,
    {
        let j = line_end(src, i);
        proof {
            lemma_line_end_bounds(src@, i as int);
        }
        let line = line_text(src, i, j);
        let more = match parse_line(k, line) {
            None => return None,
            Some(Err(m)) => return Some(Err(m)),
            Some(Ok(v)) => v,
        };
        let ghost a0 = asts_view(ls@);
        let ghost mv = asts_view(more@);
        let mut more = more;
        ls.append(&mut more);
        assert(asts_view(ls@) =~= a0 + mv);
        proof {
            if let Ok(w) = spec_parse_at(src@, j + 1, k + 1) {
                assert(a0 + (mv + w) =~= (a0 + mv) + w);
            }
        }
        i = j + 1;
        k += 1;
    }
    proof {
        assert(asts_view(ls@) + Seq::<AstView>::empty() =~= asts_view(ls@));
    }
    Some(Ok(ls))
}

} // verus!
