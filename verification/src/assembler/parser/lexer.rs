use crate::assembler::parser::keyword::{spec_keyword_debug, spec_keyword_from_str, Keyword};
use crate::text::{
    char_debug, lemma_ascii_slice, location_debug, slice_ok, slice_text, spec_char_debug, spec_location_debug,
    spec_str_debug, spec_trim, str_debug, trim, try_byte_slice, Location,
};
use vstd::prelude::*;
use vstd::utf8::is_ascii_chars;

verus! {

/// The kinds of tokens of the line-based assembler.
#[derive(Debug)]
pub enum LexTokenType {
    Ident(LexIdent),
    Keyword(Keyword),
    Punct(char),
}

/// A token of the line-based assembler.
#[derive(Debug)]
pub struct LexToken {
    pub loc: Location,
    pub ty: LexTokenType,
}

/// A name together with where it was read; equal when the text is.
#[derive(Debug)]
pub struct LexIdent {
    pub loc: Location,
    pub raw: String,
}

/// The abstract value of a token kind.
pub enum LexKind {
    Ident(Location, Seq<char>),
    Keyword(Keyword),
    Punct(char),
}

impl View for LexTokenType {
    type V = LexKind;

    open spec fn view(&self) -> LexKind {
        match self {
            LexTokenType::Ident(i) => LexKind::Ident(i.loc, i.raw@),
            LexTokenType::Keyword(k) => LexKind::Keyword(*k),
            LexTokenType::Punct(c) => LexKind::Punct(*c),
        }
    }
}

impl View for LexToken {
    type V = (Location, LexKind);

    open spec fn view(&self) -> (Location, LexKind) {
        (self.loc, self.ty@)
    }
}

/// Token kinds compare like the derived equality: identifiers by their text only.
pub open spec fn lex_kind_eq(a: LexKind, b: LexKind) -> bool {
    match (a, b) {
        (LexKind::Ident(_, x), LexKind::Ident(_, y)) => x == y,
        (LexKind::Keyword(x), LexKind::Keyword(y)) => x == y,
        (LexKind::Punct(x), LexKind::Punct(y)) => x == y,
        _ => false,
    }
}

impl LexIdent {
    /// Creates an identifier.
    pub fn new(loc: Location, raw: String) -> (res: Self)
        ensures
            res.loc == loc,
            res.raw@ == raw@,
    {
        Self { loc, raw }
    }
}

impl Clone for LexIdent {
    fn clone(&self) -> (res: Self)
        ensures
            res == *self,
    {
        LexIdent { loc: self.loc, raw: self.raw.clone() }
    }
}

impl PartialEq for LexIdent {
    fn eq(&self, other: &LexIdent) -> (res: bool) {
        self.raw == other.raw
    }
}

impl vstd::std_specs::cmp::PartialEqSpecImpl for LexIdent {
    open spec fn obeys_eq_spec() -> bool {
        true
    }

    open spec fn eq_spec(&self, other: &LexIdent) -> bool {
        self.raw@ == other.raw@
    }
}

impl Eq for LexIdent {
}

impl PartialEq for LexTokenType {
    fn eq(&self, other: &LexTokenType) -> (res: bool) {
        match (self, other) {
            (LexTokenType::Ident(x), LexTokenType::Ident(y)) => x.raw == y.raw,
            (LexTokenType::Keyword(x), LexTokenType::Keyword(y)) => *x == *y,
            (LexTokenType::Punct(x), LexTokenType::Punct(y)) => *x == *y,
            _ => false,
        }
    }
}

impl vstd::std_specs::cmp::PartialEqSpecImpl for LexTokenType {
    open spec fn obeys_eq_spec() -> bool {
        true
    }

    open spec fn eq_spec(&self, other: &LexTokenType) -> bool {
        lex_kind_eq(self@, other@)
    }
}

/// How `{:?}` prints a token kind.
pub open spec fn spec_lex_kind_debug(k: LexKind) -> Seq<char> {
    match k {
        LexKind::Ident(loc, raw) => "Ident(LexIdent { loc: "@ + spec_location_debug(loc) + ", raw: "@
            + spec_str_debug(raw) + " })"@,
        LexKind::Keyword(kw) => "Keyword("@ + spec_keyword_debug(kw) + ")"@,
        LexKind::Punct(c) => "Punct("@ + spec_char_debug(c) + ")"@,
    }
}

/// How `{:?}` prints a token.
pub open spec fn spec_lex_token_debug(t: (Location, LexKind)) -> Seq<char> {
    "LexToken { loc: "@ + spec_location_debug(t.0) + ", ty: "@ + spec_lex_kind_debug(t.1) + " }"@
}

impl LexTokenType {
    /// Renders the token kind the way `{:?}` prints it.
    pub fn debug_string(&self) -> (res: String)
        ensures
            res@ == spec_lex_kind_debug(self@),
    {
        match self {
            LexTokenType::Ident(i) => {
                let mut s = String::from_str("Ident(LexIdent { loc: ");
                s.append(location_debug(i.loc).as_str());
                s.append(", raw: ");
                s.append(str_debug(i.raw.as_str()).as_str());
                s.append(" })");
                s
            },
            LexTokenType::Keyword(k) => {
                let mut s = String::from_str("Keyword(");
                s.append(k.debug_name());
                s.append(")");
                s
            },
            LexTokenType::Punct(c) => {
                let mut s = String::from_str("Punct(");
                s.append(char_debug(*c).as_str());
                s.append(")");
                s
            },
        }
    }
}

impl LexToken {
    /// Classifies a word of source text: a mnemonic, or else an identifier.
    pub fn new(loc: Location, src: &str) -> (res: Self)
        ensures
            res@ == spec_lex_word(loc, src@),
    {
        let ty = match Keyword::from_str(src) {
            Ok(kw) => LexTokenType::Keyword(kw),
            _ => LexTokenType::Ident(LexIdent::new(loc, String::from_str(src))),
        };
        Self { loc, ty }
    }

    /// Renders the token the way `{:?}` prints it.
    pub fn debug_string(&self) -> (res: String)
        ensures
            res@ == spec_lex_token_debug(self@),
    {
        let mut s = String::from_str("LexToken { loc: ");
        s.append(location_debug(self.loc).as_str());
        s.append(", ty: ");
        s.append(self.ty.debug_string().as_str());
        s.append(" }");
        s
    }
}

/// The token a word of source text becomes.
pub open spec fn spec_lex_word(loc: Location, text: Seq<char>) -> (Location, LexKind) {
    (loc, match spec_keyword_from_str(text) {
        Some(kw) => LexKind::Keyword(kw),
        None => LexKind::Ident(loc, text),
    })
}

pub type LexTokens = Vec<LexToken>;

/// The tokens of a vector by their abstract values.
pub open spec fn lex_tokens_view(t: Seq<LexToken>) -> Seq<(Location, LexKind)> {
    t.map_values(|x: LexToken| x@)
}

/// The characters that end a word: `:`, `#`, `,`, the space and `*`.
pub open spec fn is_lex_punct(c: char) -> bool {
    c == ':' || c == '#' || c == ',' || c == ' ' || c == '*'
}

/// Scans a line from character `i` on; `l1` is where the current word starts and
/// `l2 - 1` the number of characters scanned. Punctuation other than the space
/// becomes a token of its own. A word is cut out of the line with these counts
/// taken as byte positions of its UTF-8 encoding.
pub open spec fn spec_lex_scan_line(ldx: usize, s: Seq<char>, i: int, l1: int, l2: int, toks: Seq<(Location, LexKind)>) -> (int, int, Seq<(Location, LexKind)>)
    decreases s.len() - i,
{
    if i < 0 || i >= s.len() {
        (l1, l2, toks)
    } else if is_lex_punct(s[i]) {
        let t1 = if l2 - l1 - 1 > 0 {
            let buf = spec_trim(slice_text(s, l1, l2 - 1));
            if buf.len() > 0 {
                toks.push(spec_lex_word((ldx, l1 as usize, (l2 - 1) as usize), buf))
            } else {
                toks
            }
        } else {
            toks
        };
        let t2 = if s[i] != ' ' {
            t1.push(((ldx, l1 as usize, l2 as usize), LexKind::Punct(s[i])))
        } else {
            t1
        };
        spec_lex_scan_line(ldx, s, i + 1, l2, l2 + 1, t2)
    } else {
        spec_lex_scan_line(ldx, s, i + 1, l1, l2 + 1, toks)
    }
}

/// Scanning from character `i` on, with the word started at `l1` and `l2 - 1`
/// characters scanned, cuts a word out of the line at a byte position inside a
/// character (where slicing the `str` panics), the last word at the end included.
pub open spec fn lex_scan_splits(s: Seq<char>, i: int, l1: int, l2: int) -> bool
    decreases s.len() - i,
{
    if i < 0 || i >= s.len() {
        !slice_ok(s, l1, l2 - 1)
    } else if is_lex_punct(s[i]) {
        (l2 - l1 - 1 > 0 && !slice_ok(s, l1, l2 - 1)) || lex_scan_splits(s, i + 1, l2, l2 + 1)
    } else {
        lex_scan_splits(s, i + 1, l1, l2 + 1)
    }
}

/// Lexing the line `s` panics: it cuts a word out at a byte position inside a
/// character.
pub open spec fn lex_line_splits(s: Seq<char>) -> bool {
    s.len() > 0 && lex_scan_splits(s, 0, 0, 1)
}

/// A line of single-byte characters never makes lexing panic.
pub proof fn lemma_ascii_line_lexes(s: Seq<char>)
    requires
        is_ascii_chars(s),
    ensures
        !lex_line_splits(s),
{
    if s.len() > 0 {
        lemma_ascii_scan(s, 0, 0, 1);
    }
}

proof fn lemma_ascii_scan(s: Seq<char>, i: int, l1: int, l2: int)
    requires
        is_ascii_chars(s),
        0 <= i <= s.len(),
        0 <= l1 < l2,
        l2 == i + 1,
    ensures
        !lex_scan_splits(s, i, l1, l2),
    decreases s.len() - i,
{
    if i >= s.len() {
        lemma_ascii_slice(s, l1, l2 - 1);
    } else if is_lex_punct(s[i]) {
        if l2 - l1 - 1 > 0 {
            lemma_ascii_slice(s, l1, l2 - 1);
        }
        lemma_ascii_scan(s, i + 1, l2, l2 + 1);
    } else {
        lemma_ascii_scan(s, i + 1, l1, l2 + 1);
    }
}

/// The tokens of a line.
pub open spec fn spec_lex_tokens(ldx: usize, s: Seq<char>) -> Seq<(Location, LexKind)> {
    if s.len() == 0 {
        Seq::empty()
    } else {
        let r = spec_lex_scan_line(ldx, s, 0, 0, 1, Seq::empty());
        let buf = spec_trim(slice_text(s, r.0, r.1 - 1));
        if buf.len() > 0 {
            r.2.push(spec_lex_word((ldx, r.0 as usize, (r.1 - 1) as usize), buf))
        } else {
            r.2
        }
    }
}

/// Splits one line of source into tokens.
pub fn lex_line(ldx: usize, src: &str) -> (res: LexTokens)
    requires
        !lex_line_splits(src@),
        src@.len() < usize::MAX,
    ensures
        lex_tokens_view(res@) == spec_lex_tokens(ldx, src@),
{
    try_lex_line(ldx, src).unwrap()
}

/// Splits one line of source into tokens like `lex_line`, or gives `None` where
/// that panics.
pub fn try_lex_line(ldx: usize, src: &str) -> (res: Option<LexTokens>)
    requires
        src@.len() < usize::MAX,
    ensures
        match res {
            Some(t) => !lex_line_splits(src@) && lex_tokens_view(t@) == spec_lex_tokens(ldx, src@),
            None => lex_line_splits(src@),
        },
{
    let mut lex: LexTokens = Vec::new();
    let n = src.unicode_len();
    assert(lex_tokens_view(lex@) =~= Seq::<(Location, LexKind)>::empty());
    if n == 0 {
        return Some(lex);
    }
    let mut l1: usize = 0;
    let mut l2: usize = 1;
    let mut i: usize = 0;
    let ghost target = spec_lex_scan_line(ldx, src@, 0, 0, 1, Seq::empty());
    while i < n
        invariant
            n == src@.len(),
            n < usize::MAX,
            lex_scan_splits(src@, i as int, l1 as int, l2 as int) == lex_scan_splits(src@, 0, 0, 1),
            i <= n,
            l1 < l2,
            l2 == i + 1,
            target == spec_lex_scan_line(ldx, src@, 0, 0, 1, Seq::empty()),
            spec_lex_scan_line(ldx, src@, i as int, l1 as int, l2 as int, lex_tokens_view(lex@)) == target,
        decreases n - i,
    {
        let c = src.get_char(i);
        if c == ':' || c == '#' || c == ',' || c == ' ' || c == '*' {
            let ghost tv = lex_tokens_view(lex@);
            if l2 - l1 - 1 > 0 {
                let buf = match try_byte_slice(src, l1, l2 - 1) {
                    Some(w) => trim(w),
                    None => return None,
                };
                if !buf.is_empty() {
                    lex.push(LexToken::new((ldx, l1, l2 - 1), buf));
                }
            }
            let ghost t1 = lex_tokens_view(lex@);
            if c != ' ' {
                lex.push(LexToken { loc: (ldx, l1, l2), ty: LexTokenType::Punct(c) });
            }
            assert(lex_tokens_view(lex@) =~= (if c != ' ' {
                t1.push(((ldx, l1, l2), LexKind::Punct(c)))
            } else {
                t1
            }));
            assert(t1 =~= (if l2 - l1 - 1 > 0 {
                let buf = spec_trim(slice_text(src@, l1 as int, l2 - 1));
                if buf.len() > 0 {
                    tv.push(spec_lex_word((ldx, l1, (l2 - 1) as usize), buf))
                } else {
                    tv
                }
            } else {
                tv
            }));
            l1 = l2;
        }
        i += 1;
        l2 += 1;
    }
    let buf = match try_byte_slice(src, l1, l2 - 1) {
        Some(w) => trim(w),
        None => return None,
    };
    let ghost tv = lex_tokens_view(lex@);
    if !buf.is_empty() {
        lex.push(LexToken::new((ldx, l1, l2 - 1), buf));
    }
    assert(lex_tokens_view(lex@) =~= (if buf@.len() > 0 {
        tv.push(spec_lex_word((ldx, l1, (l2 - 1) as usize), buf@))
    } else {
        tv
    }));
    Some(lex)
}

} // verus!
