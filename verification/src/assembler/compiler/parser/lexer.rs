use crate::assembler::compiler::objects::ident::Ident;
use crate::assembler::parser::keyword::{spec_keyword_debug, spec_keyword_from_str, Keyword};
use crate::assembler::compiler::error::raise;
use crate::assembler::compiler::error::{is_single_error, spec_unclosed_msg, Error};
use crate::text::{lemma_ascii_slice, slice_ok, slice_text, spec_trim, trim, try_byte_slice, char_debug, location_debug, spec_char_debug, spec_location_debug, spec_str_debug, str_debug, Location};
use vstd::prelude::*;
use vstd::utf8::is_ascii_chars;

verus! {

/// The kinds of tokens a source line is split into.
#[derive(Debug)]
pub enum TokenType {
    Ident(Ident),
    Keyword(Keyword),
    Str(String),
    Punct(char),
    SoftPunct,
}

/// The abstract value of a token kind: strings by their characters.
pub enum TokenKind {
    Ident(Location, Seq<char>),
    Keyword(Keyword),
    Str(Seq<char>),
    Punct(char),
    SoftPunct,
}

impl View for TokenType {
    type V = TokenKind;

    open spec fn view(&self) -> TokenKind {
        match self {
            TokenType::Ident(i) => TokenKind::Ident(i.loc, i.raw@),
            TokenType::Keyword(k) => TokenKind::Keyword(*k),
            TokenType::Str(s) => TokenKind::Str(s@),
            TokenType::Punct(c) => TokenKind::Punct(*c),
            TokenType::SoftPunct => TokenKind::SoftPunct,
        }
    }
}

/// Token kinds compare like the derived equality: identifiers by their text only.
pub open spec fn kind_eq(a: TokenKind, b: TokenKind) -> bool {
    match (a, b) {
        (TokenKind::Ident(_, x), TokenKind::Ident(_, y)) => x == y,
        (TokenKind::Keyword(x), TokenKind::Keyword(y)) => x == y,
        (TokenKind::Str(x), TokenKind::Str(y)) => x == y,
        (TokenKind::Punct(x), TokenKind::Punct(y)) => x == y,
        (TokenKind::SoftPunct, TokenKind::SoftPunct) => true,
        _ => false,
    }
}

impl PartialEq for TokenType {
    fn eq(&self, other: &TokenType) -> (res: bool) {
        match (self, other) {
            (TokenType::Ident(x), TokenType::Ident(y)) => x.raw == y.raw,
            (TokenType::Keyword(x), TokenType::Keyword(y)) => *x == *y,
            (TokenType::Str(x), TokenType::Str(y)) => *x == *y,
            (TokenType::Punct(x), TokenType::Punct(y)) => *x == *y,
            (TokenType::SoftPunct, TokenType::SoftPunct) => true,
            _ => false,
        }
    }
}

impl vstd::std_specs::cmp::PartialEqSpecImpl for TokenType {
    open spec fn obeys_eq_spec() -> bool {
        true
    }

    open spec fn eq_spec(&self, other: &TokenType) -> bool {
        kind_eq(self@, other@)
    }
}

/// How `{:?}` prints a token kind (the derived `Debug` of `TokenType` and `Ident`).
pub open spec fn spec_kind_debug(k: TokenKind) -> Seq<char> {
    match k {
        TokenKind::Ident(loc, raw) => "Ident(Ident { loc: "@ + spec_location_debug(loc) + ", raw: "@
            + spec_str_debug(raw) + " })"@,
        TokenKind::Keyword(kw) => "Keyword("@ + spec_keyword_debug(kw) + ")"@,
        TokenKind::Str(s) => "Str("@ + spec_str_debug(s) + ")"@,
        TokenKind::Punct(c) => "Punct("@ + spec_char_debug(c) + ")"@,
        TokenKind::SoftPunct => "SoftPunct"@,
    }
}

impl TokenType {
    /// Renders the token kind the way `{:?}` prints it.
    pub fn debug_string(&self) -> (res: String)
        ensures
            res@ == spec_kind_debug(self@),
    {
        match self {
            TokenType::Ident(i) => {
                let mut s = String::from_str("Ident(Ident { loc: ");
                s.append(location_debug(i.loc).as_str());
                s.append(", raw: ");
                s.append(str_debug(i.raw.as_str()).as_str());
                s.append(" })");
                s
            },
            TokenType::Keyword(k) => {
                let mut s = String::from_str("Keyword(");
                s.append(k.debug_name());
                s.append(")");
                s
            },
            TokenType::Str(x) => {
                let mut s = String::from_str("Str(");
                s.append(str_debug(x.as_str()).as_str());
                s.append(")");
                s
            },
            TokenType::Punct(c) => {
                let mut s = String::from_str("Punct(");
                s.append(char_debug(*c).as_str());
                s.append(")");
                s
            },
            TokenType::SoftPunct => String::from_str("SoftPunct"),
        }
    }

    /// Moves the token kind into a fresh value with the same view.
    pub fn duplicate(&self) -> (res: TokenType)
        ensures
            res@ == self@,
    {
        match self {
            TokenType::Ident(i) => TokenType::Ident(i.clone()),
            TokenType::Keyword(k) => TokenType::Keyword(*k),
            TokenType::Str(x) => TokenType::Str(x.clone()),
            TokenType::Punct(c) => TokenType::Punct(*c),
            TokenType::SoftPunct => TokenType::SoftPunct,
        }
    }
}

/// A token with its location in the source.
#[derive(Debug)]
pub struct Token {
    pub loc: Location,
    pub ty: TokenType,
}

impl View for Token {
    type V = (Location, TokenKind);

    open spec fn view(&self) -> (Location, TokenKind) {
        (self.loc, self.ty@)
    }
}

pub type Tokens = Vec<Token>;

/// The token a word of source text becomes: a mnemonic, or else an identifier.
pub open spec fn spec_word_token(loc: Location, text: Seq<char>) -> (Location, TokenKind) {
    (loc, match spec_keyword_from_str(text) {
        Some(kw) => TokenKind::Keyword(kw),
        None => TokenKind::Ident(loc, text),
    })
}

impl Token {
    /// Classifies a word of source text.
    pub fn new(loc: Location, src: &str) -> (res: Self)
        ensures
            res@ == spec_word_token(loc, src@),
    {
        let ty = match Keyword::from_str(src) {
            Ok(kw) => TokenType::Keyword(kw),
            _ => TokenType::Ident(Ident::new(loc, String::from_str(src))),
        };
        Self { loc, ty }
    }
}


/// A token by its abstract value.
pub type TokenView = (Location, TokenKind);

/// The tokens of a vector, by their abstract values.
pub open spec fn tokens_view(toks: Seq<Token>) -> Seq<TokenView> {
    toks.map_values(|t: Token| t@)
}

/// The characters that end a word: `@` (type), `:` (label), `#` (constant), `*`
/// (dereference), `.` (macro), `,` (separator) and the space.
pub open spec fn is_punct_char(c: char) -> bool {
    c == '@' || c == ':' || c == '#' || c == '*' || c == '.' || c == ',' || c == ' '
}

/// Reads the body of a string literal starting at `i`, just after its opening quote:
/// a backslash makes the next character literal, an unescaped quote ends the literal.
/// Gives the text and the position after the closing quote, or `None` when the
/// line ends first.
pub open spec fn spec_take_string(s: Seq<char>, i: int, escaped: bool, acc: Seq<char>) -> Option<(Seq<char>, int)>
    decreases s.len() - i,
{
    if i < 0 || i >= s.len() {
        None
    } else if s[i] == '\\' && !escaped {
        spec_take_string(s, i + 1, true, acc)
    } else if s[i] == '"' && !escaped {
        Some((acc, i + 1))
    } else {
        spec_take_string(s, i + 1, false, acc.push(s[i]))
    }
}

/// Reading a string literal that ends moves past at least one character and
/// stays within the text.
pub proof fn lemma_take_string_advances(s: Seq<char>, i: int, escaped: bool, acc: Seq<char>)
    ensures
        spec_take_string(s, i, escaped, acc) matches Some(r) ==> i < r.1 <= s.len(),
    decreases s.len() - i,
{
    if 0 <= i < s.len() {
        if s[i] == '\\' && !escaped {
            lemma_take_string_advances(s, i + 1, true, acc);
        } else if s[i] == '"' && !escaped {
        } else {
            lemma_take_string_advances(s, i + 1, false, acc.push(s[i]));
        }
    }
}

/// Emits the word between `l1` and `l2 - 1`, if any: the new start and the
/// tokens. The counts are taken as byte positions of the line's UTF-8 encoding.
pub open spec fn spec_flush(ldx: usize, s: Seq<char>, l1: int, l2: int, toks: Seq<TokenView>) -> (int, Seq<TokenView>) {
    if l2 - l1 - 1 > 0 {
        let buf = spec_trim(slice_text(s, l1, l2 - 1));
        (l2 - 1, if buf.len() > 0 {
            toks.push(spec_word_token((ldx, l1 as usize, (l2 - 1) as usize), buf))
        } else {
            toks
        })
    } else {
        (l1, toks)
    }
}

/// Scans a line from character `i` on. `l1` is where the current word starts and
/// `l2 - 1` counts the characters scanned so far outside string literals; punctuation
/// ends the current word and is a token of its own (the space a soft one), and a
/// string literal becomes a `Str` token at location `(0, 0, 0)`.
pub open spec fn spec_lex_scan(ldx: usize, s: Seq<char>, i: int, l1: int, l2: int, toks: Seq<TokenView>) -> Option<(int, int, Seq<TokenView>)>
    decreases s.len() - i,
{
    if i < 0 || i >= s.len() {
        Some((l1, l2, toks))
    } else if is_punct_char(s[i]) {
        let (l1a, t1) = spec_flush(ldx, s, l1, l2, toks);
        let kind = if s[i] == ' ' { TokenKind::SoftPunct } else { TokenKind::Punct(s[i]) };
        spec_lex_scan(ldx, s, i + 1, l2, l2 + 1, t1.push(((ldx, l1a as usize, l2 as usize), kind)))
    } else if s[i] == '"' {
        match spec_take_string(s, i + 1, false, Seq::empty()) {
            None => None,
            Some(r) => {
                proof {
                    lemma_take_string_advances(s, i + 1, false, Seq::empty());
                }
                spec_lex_scan(ldx, s, r.1, l1, l2 + 1, toks.push(((0usize, 0usize, 0usize), TokenKind::Str(r.0))))
            },
        }
    } else {
        spec_lex_scan(ldx, s, i + 1, l1, l2 + 1, toks)
    }
}

/// Scanning from character `i` on, with the word started at `l1` and `l2 - 1`
/// characters scanned outside string literals, cuts a word out of the line at a
/// byte position inside a character (where slicing the `str` panics), the last
/// word at the end included; a string literal left open ends the scan first.
pub open spec fn lex_scan_splits(s: Seq<char>, i: int, l1: int, l2: int) -> bool
    decreases s.len() - i,
{
    if i < 0 || i >= s.len() {
        !slice_ok(s, l1, l2 - 1)
    } else if is_punct_char(s[i]) {
        (l2 - l1 - 1 > 0 && !slice_ok(s, l1, l2 - 1)) || lex_scan_splits(s, i + 1, l2, l2 + 1)
    } else if s[i] == '"' {
        match spec_take_string(s, i + 1, false, Seq::empty()) {
            None => false,
            Some(r) => {
                proof {
                    lemma_take_string_advances(s, i + 1, false, Seq::empty());
                }
                lex_scan_splits(s, r.1, l1, l2 + 1)
            },
        }
    } else {
        lex_scan_splits(s, i + 1, l1, l2 + 1)
    }
}

/// Lexing the line `s` panics: it cuts a word out at a byte position inside a
/// character.
pub open spec fn lex_line_splits(s: Seq<char>) -> bool {
    s.len() > 0 && lex_scan_splits(s, 0, 0, 1)
}

/// A line of single-byte characters never makes lexing panic.
pub proof fn lemma_ascii_line_lexes(s: Seq<char>)
    requires
        is_ascii_chars(s),
    ensures
        !lex_line_splits(s),
{
    if s.len() > 0 {
        lemma_ascii_scan(s, 0, 0, 1);
    }
}

proof fn lemma_ascii_scan(s: Seq<char>, i: int, l1: int, l2: int)
    requires
        is_ascii_chars(s),
        0 <= i <= s.len(),
        0 <= l1 < l2,
        l2 <= i + 1,
    ensures
        !lex_scan_splits(s, i, l1, l2),
    decreases s.len() - i,
{
    if i >= s.len() {
        lemma_ascii_slice(s, l1, l2 - 1);
    } else if is_punct_char(s[i]) {
        if l2 - l1 - 1 > 0 {
            lemma_ascii_slice(s, l1, l2 - 1);
        }
        lemma_ascii_scan(s, i + 1, l2, l2 + 1);
    } else if s[i] == '"' {
        lemma_take_string_advances(s, i + 1, false, Seq::empty());
        if let Some(r) = spec_take_string(s, i + 1, false, Seq::empty()) {
            lemma_ascii_scan(s, r.1, l1, l2 + 1);
        }
    } else {
        lemma_ascii_scan(s, i + 1, l1, l2 + 1);
    }
}

/// Whether a token is soft punctuation (a run of spaces).
pub open spec fn is_soft(t: TokenView) -> bool {
    t.1 is SoftPunct
}

/// Folds runs of soft punctuation into their first token, extended to the end of
/// the run; a run at the end of the line is dropped.
pub open spec fn spec_merge_acc(toks: Seq<TokenView>, last: Option<TokenView>, acc: Seq<TokenView>) -> Seq<TokenView>
    decreases toks.len(),
{
    if toks.len() == 0 {
        acc
    } else if is_soft(toks[0]) {
        let nl = match last {
            Some(ls) => Some(((ls.0.0, ls.0.1, toks[0].0.2), ls.1)),
            None => Some(toks[0]),
        };
        spec_merge_acc(toks.drop_first(), nl, acc)
    } else {
        let acc1 = match last {
            Some(ls) => acc.push(ls),
            None => acc,
        };
        spec_merge_acc(toks.drop_first(), None, acc1.push(toks[0]))
    }
}

/// The tokens with runs of soft punctuation merged.
pub open spec fn spec_merge_soft(toks: Seq<TokenView>) -> Seq<TokenView> {
    spec_merge_acc(toks, None, Seq::empty())
}

/// The tokens of a line, or `None` when a string literal is left open.
pub open spec fn spec_lex_line(ldx: usize, s: Seq<char>) -> Option<Seq<TokenView>> {
    if s.len() == 0 {
        Some(Seq::empty())
    } else {
        match spec_lex_scan(ldx, s, 0, 0, 1, Seq::empty()) {
            None => None,
            Some(r) => {
                let buf = spec_trim(slice_text(s, r.0, r.1 - 1));
                let t = if buf.len() > 0 {
                    r.2.push(spec_word_token((ldx, r.0 as usize, (r.1 - 1) as usize), buf))
                } else {
                    r.2
                };
                Some(spec_merge_soft(t))
            },
        }
    }
}


/// No two soft punctuation tokens follow each other, and the last token is not one.
pub open spec fn soft_runs_merged(t: Seq<TokenView>) -> bool {
    &&& forall|i: int| 0 <= i < t.len() - 1 ==> !(is_soft(#[trigger] t[i]) && is_soft(t[i + 1]))
    &&& t.len() > 0 ==> !is_soft(t.last())
}

/// The tokens that are not soft punctuation, in order.
pub open spec fn non_soft(t: Seq<TokenView>) -> Seq<TokenView>
    decreases t.len(),
{
    if t.len() == 0 {
        Seq::empty()
    } else if is_soft(t.last()) {
        non_soft(t.drop_last())
    } else {
        non_soft(t.drop_last()).push(t.last())
    }
}

proof fn lemma_non_soft_concat(a: Seq<TokenView>, b: Seq<TokenView>)
    ensures
        non_soft(a + b) == non_soft(a) + non_soft(b),
    decreases b.len(),
{
    if b.len() == 0 {
        assert(a + b =~= a);
        assert(non_soft(a) + non_soft(b) =~= non_soft(a));
    } else {
        lemma_non_soft_concat(a, b.drop_last());
        assert((a + b).drop_last() =~= a + b.drop_last());
        assert((a + b).last() == b.last());
        if !is_soft(b.last()) {
            assert(non_soft(a) + non_soft(b.drop_last()).push(b.last()) =~= (non_soft(a)
                + non_soft(b.drop_last())).push(b.last()));
        }
    }
}

proof fn lemma_merge_acc(toks: Seq<TokenView>, last: Option<TokenView>, acc: Seq<TokenView>)
    requires
        soft_runs_merged(acc),
        last matches Some(l) ==> is_soft(l),
    ensures
        soft_runs_merged(spec_merge_acc(toks, last, acc)),
        non_soft(spec_merge_acc(toks, last, acc)) == non_soft(acc) + non_soft(toks),
    decreases toks.len(),
{
    if toks.len() == 0 {
        assert(non_soft(acc) + non_soft(toks) =~= non_soft(acc));
    } else {
        let t0 = toks[0];
        let rest = toks.drop_first();
        assert(toks =~= seq![t0] + rest);
        lemma_non_soft_concat(seq![t0], rest);
        assert(seq![t0].drop_last() =~= Seq::<TokenView>::empty());
        assert(seq![t0].last() == t0);
        assert(non_soft(Seq::<TokenView>::empty()) =~= Seq::<TokenView>::empty());
        if is_soft(t0) {
            let nl = match last {
                Some(ls) => Some(((ls.0.0, ls.0.1, t0.0.2), ls.1)),
                None => Some(t0),
            };
            lemma_merge_acc(rest, nl, acc);
            assert(non_soft(seq![t0]) =~= Seq::<TokenView>::empty());
            assert(non_soft(seq![t0]) + non_soft(rest) =~= non_soft(rest));
        } else {
            let acc1 = match last {
                Some(ls) => acc.push(ls),
                None => acc,
            };
            let acc2 = acc1.push(t0);
            assert(acc2.drop_last() == acc1);
            assert(non_soft(acc1) == non_soft(acc)) by {
                if last is Some {
                    assert(acc1.drop_last() == acc);
                }
            }
            assert(soft_runs_merged(acc2)) by {
                assert forall|i: int| 0 <= i < acc2.len() - 1 implies !(is_soft(#[trigger] acc2[i])
                    && is_soft(acc2[i + 1])) by {
                    if i + 1 == acc2.len() - 1 {
                        assert(acc2[i + 1] == t0);
                    } else if i + 1 == acc.len() {
                        assert(acc2[i] == acc.last());
                    } else {
                        assert(acc2[i] == acc[i]);
                        assert(acc2[i + 1] == acc[i + 1]);
                    }
                }
            }
            lemma_merge_acc(rest, None, acc2);
            assert(non_soft(seq![t0]) =~= seq![t0]);
            assert(non_soft(acc2) =~= non_soft(acc).push(t0));
            assert(non_soft(acc).push(t0) + non_soft(rest) =~= non_soft(acc) + (seq![t0] + non_soft(rest)));
        }
    }
}

/// Merging soft punctuation leaves no two soft tokens adjacent and none at the end,
/// and keeps every other token, in order.
pub proof fn lemma_merge_soft(toks: Seq<TokenView>)
    ensures
        soft_runs_merged(spec_merge_soft(toks)),
        non_soft(spec_merge_soft(toks)) == non_soft(toks),
{
    lemma_merge_acc(toks, None, Seq::empty());
    assert(non_soft(Seq::<TokenView>::empty()) + non_soft(toks) =~= non_soft(toks));
}

/// The tokens of a lexed line never hold two adjacent soft punctuation tokens, nor
/// end with one.
pub proof fn lemma_lex_line_soft_runs(ldx: usize, s: Seq<char>)
    ensures
        spec_lex_line(ldx, s) matches Some(t) ==> soft_runs_merged(t),
{
    if s.len() > 0 {
        if let Some(r) = spec_lex_scan(ldx, s, 0, 0, 1, Seq::empty()) {
            let buf = spec_trim(slice_text(s, r.0, r.1 - 1));
            let t = if buf.len() > 0 {
                r.2.push(spec_word_token((ldx, r.0 as usize, (r.1 - 1) as usize), buf))
            } else {
                r.2
            };
            lemma_merge_soft(t);
        }
    }
}

/// Splits one line of assembly source into tokens.
pub fn lex_line(ldx: usize, src: &str) -> (res: Result<Tokens, Error>)
    requires
        !lex_line_splits(src@),
        src@.len() < usize::MAX,
    ensures
        spec_lex_line(ldx, src@) matches Some(t) ==> (res matches Ok(v) && tokens_view(v@) == t),
        spec_lex_line(ldx, src@) is None ==> (res matches Err(e)
            && is_single_error(e, None, (0usize, 0usize, 0usize), spec_unclosed_msg())),
{
    try_lex_line(ldx, src).unwrap()
}

/// Splits one line of assembly source into tokens like `lex_line`, or gives
/// `None` where that panics.
pub fn try_lex_line(ldx: usize, src: &str) -> (res: Option<Result<Tokens, Error>>)
    requires
        src@.len() < usize::MAX,
    ensures
        res is None <==> lex_line_splits(src@),
        res matches Some(r) ==> {
            &&& spec_lex_line(ldx, src@) matches Some(t) ==> (r matches Ok(v) && tokens_view(v@) == t)
            &&& spec_lex_line(ldx, src@) is None ==> (r matches Err(e)
                && is_single_error(e, None, (0usize, 0usize, 0usize), spec_unclosed_msg()))
        },
{
    let mut toks: Tokens = Vec::new();
    let n = src.unicode_len();
    if n == 0 {
        assert(tokens_view(toks@) =~= Seq::<TokenView>::empty());
        return Some(Ok(toks));
    }
    let mut l1: usize = 0;
    let mut l2: usize = 1;
    let mut i: usize = 0;
    let ghost target = spec_lex_scan(ldx, src@, 0, 0, 1, Seq::empty());
    assert(tokens_view(toks@) =~= Seq::<TokenView>::empty());
    while i < n
        invariant
            n == src@.len(),
            n < usize::MAX,
            lex_scan_splits(src@, i as int, l1 as int, l2 as int) == lex_scan_splits(src@, 0, 0, 1),
            i <= n,
            l1 < l2,
            l2 <= i + 1,
            target == spec_lex_scan(ldx, src@, 0, 0, 1, Seq::empty()),
            spec_lex_scan(ldx, src@, i as int, l1 as int, l2 as int, tokens_view(toks@)) == target,
        decreases n - i,
    {
        let c = src.get_char(i);
        let ghost tv = tokens_view(toks@);
        if c == '@' || c == ':' || c == '#' || c == '*' || c == '.' || c == ',' || c == ' ' {
            let ghost fl = spec_flush(ldx, src@, l1 as int, l2 as int, tv);
            if l2 - l1 - 1 > 0 {
                let sp0 = l1;
                let sp1 = l2 - 1;
                let buf = match try_byte_slice(src, sp0, sp1) {
                    Some(w) => trim(w),
                    None => return None,
                };
                if !buf.is_empty() {
                    let tok = Token::new((ldx, sp0, sp1), buf);
                    toks.push(tok);
                }
                l1 = sp1;
            }
            assert(tokens_view(toks@) =~= fl.1);
            let ty = if c == ' ' { TokenType::SoftPunct } else { TokenType::Punct(c) };
            toks.push(Token { loc: (ldx, l1, l2), ty });
            assert(tokens_view(toks@) =~= fl.1.push(((ldx, l1, l2), if c == ' ' { TokenKind::SoftPunct } else { TokenKind::Punct(c) })));
            l1 = l2;
            i += 1;
        } else if c == '"' {
            let mut j = i + 1;
            proof {
                lemma_take_string_advances(src@, i + 1, false, Seq::empty());
            }
            let text = match take_string(src, &mut j) {
                Ok(t) => t,
                Err(e) => {
                    return Some(Err(e));
                },
            };
            toks.push(Token { loc: (0, 0, 0), ty: TokenType::Str(text) });
            assert(tokens_view(toks@) =~= tv.push(((0usize, 0usize, 0usize), TokenKind::Str(text@))));
            i = j;
        } else {
            i += 1;
        }
        l2 += 1;
    }
    let l2f = l2 - 1;
    let buf = match try_byte_slice(src, l1, l2f) {
        Some(w) => trim(w),
        None => return None,
    };
    let ghost tv = tokens_view(toks@);
    if !buf.is_empty() {
        toks.push(Token::new((ldx, l1, l2f), buf));
    }
    let ghost t = if buf@.len() > 0 {
        tv.push(spec_word_token((ldx, l1, l2f), buf@))
    } else {
        tv
    };
    assert(tokens_view(toks@) =~= t);
    merge_softpunct(&mut toks);
    Some(Ok(toks))
}

/// Reads the body of a string literal from `*pos`, just after its opening quote, and
/// leaves `*pos` after the closing quote, or at the end of the text where none comes.
fn take_string(src: &str, pos: &mut usize) -> (res: Result<String, Error>)
    requires
        *old(pos) <= src@.len(),
    ensures
        spec_take_string(src@, *old(pos) as int, false, Seq::empty()) matches Some(r) ==> (res matches Ok(s)
            && s@ == r.0 && *final(pos) == r.1),
        spec_take_string(src@, *old(pos) as int, false, Seq::empty()) is None ==> (res matches Err(e)
            && is_single_error(e, None, (0usize, 0usize, 0usize), spec_unclosed_msg()) && *final(pos) == src@.len()),
{
    let mut s = String::new();
    let mut escaped = false;
    let n = src.unicode_len();
    let ghost target = spec_take_string(src@, *old(pos) as int, false, Seq::empty());
    while *pos < n
        invariant
            n == src@.len(),
            *pos <= n,
            target == spec_take_string(src@, *old(pos) as int, false, Seq::empty()),
            spec_take_string(src@, *pos as int, escaped, s@) == target,
        decreases n - *pos,
    {
        let c = src.get_char(*pos);
        *pos = *pos + 1;
        if c == '\\' && !escaped {
            escaped = true;
        } else if c == '"' && !escaped {
            return Ok(s);
        } else {
            let ghost prev = s@;
            s.append(src.substring_char(*pos - 1, *pos));
            assert(src@.subrange(*pos - 1, *pos as int) =~= seq![c]);
            assert(s@ =~= prev.push(c));
            escaped = false;
        }
    }
    raise::unclosed_string()
}

/// The abstract value of an optional token.
pub open spec fn opt_token_view(o: Option<Token>) -> Option<TokenView> {
    match o {
        Some(t) => Some(t@),
        None => None,
    }
}

/// Folds each run of soft punctuation into one token spanning the run; a run at
/// the end of the line is dropped.
fn merge_softpunct(toks: &mut Tokens)
    ensures
        tokens_view(final(toks)@) == spec_merge_soft(tokens_view(old(toks)@)),
{
    let mut last: Option<Token> = None;
    let mut out: Tokens = Vec::new();
    let ghost target = spec_merge_soft(tokens_view(toks@));
    assert(tokens_view(out@) =~= Seq::<TokenView>::empty());
    while toks.len() > 0
        invariant
            target == spec_merge_soft(tokens_view(old(toks)@)),
            spec_merge_acc(tokens_view(toks@), opt_token_view(last), tokens_view(out@)) == target,
        decreases toks@.len(),
    {
        let ghost before = tokens_view(toks@);
        let t = toks.remove(0);
        assert(tokens_view(toks@) =~= before.drop_first());
        let is_soft_tok = match &t.ty {
            TokenType::SoftPunct => true,
            _ => false,
        };
        if is_soft_tok {
            match last {
                Some(mut ls) => {
                    ls.loc.2 = t.loc.2;
                    last = Some(ls);
                },
                None => {
                    last = Some(t);
                },
            }
        } else {
            let ghost ov = tokens_view(out@);
            let ghost old_last = opt_token_view(last);
            match last {
                Some(ls) => {
                    out.push(ls);
                },
                None => {},
            }
            last = None;
            out.push(t);
            assert(tokens_view(out@) =~= (match old_last {
                Some(l) => ov.push(l),
                None => ov,
            }).push(t@));
        }
    }
    *toks = out;
}

} // verus!
