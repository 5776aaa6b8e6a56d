use crate::text::{
    byte_slice, lemma_line_end_bounds, line_end, line_text, before_semicolon, spec_line_end, spec_line_text,
    spec_lines_from, spec_semicolon_pos, slice_ok, slice_text, spec_trim, str_eq, trim, try_byte_slice, Location,
};
use crate::assembler::parser::keyword::{lemma_keyword_text_roundtrip, spec_keyword_debug, spec_keyword_from_str, Keyword};
use crate::assembler::compiler::parser::spec_register_debug;
use crate::assembler::target::spec_register_from_str;
use vstd::prelude::*;

verus! {

/// A token of the tag-based lexer: where it stands and what it is.
#[derive(Clone, Copy, Debug)]
pub struct LexToken {
    pub loc: Location,
    pub tag: LexTokenTag,
}

/// What a token of the tag-based lexer is.
#[derive(Clone, Copy, Debug, PartialEq, Eq, Structural)]
pub enum LexTokenTag {
    RegA,
    RegB,
    RegC,
    RegD,
    Label,
    Ident,
    Numc,
    Logc,
    Inc,
    Dec,
    Add,
    Sub,
    Mul,
    Div,
    Rem,
    Pow,
    And,
    Or,
    Xor,
    Cmp,
    Jmp,
    Jeq,
    Jne,
    Jge,
    Jgt,
    Jle,
    Jlt,
    Mov,
    Call,
    Ret,
    Push,
    Pop,
    Pusha,
    Popa,
}

/// The name of a tag, as `{:?}` prints its variant.
pub open spec fn spec_tag_name(t: LexTokenTag) -> Seq<char> {
    match t {
        LexTokenTag::RegA => "RegA"@,
        LexTokenTag::RegB => "RegB"@,
        LexTokenTag::RegC => "RegC"@,
        LexTokenTag::RegD => "RegD"@,
        LexTokenTag::Label => "Label"@,
        LexTokenTag::Ident => "Ident"@,
        LexTokenTag::Numc => "Numc"@,
        LexTokenTag::Logc => "Logc"@,
        LexTokenTag::Inc => "Inc"@,
        LexTokenTag::Dec => "Dec"@,
        LexTokenTag::Add => "Add"@,
        LexTokenTag::Sub => "Sub"@,
        LexTokenTag::Mul => "Mul"@,
        LexTokenTag::Div => "Div"@,
        LexTokenTag::Rem => "Rem"@,
        LexTokenTag::Pow => "Pow"@,
        LexTokenTag::And => "And"@,
        LexTokenTag::Or => "Or"@,
        LexTokenTag::Xor => "Xor"@,
        LexTokenTag::Cmp => "Cmp"@,
        LexTokenTag::Jmp => "Jmp"@,
        LexTokenTag::Jeq => "Jeq"@,
        LexTokenTag::Jne => "Jne"@,
        LexTokenTag::Jge => "Jge"@,
        LexTokenTag::Jgt => "Jgt"@,
        LexTokenTag::Jle => "Jle"@,
        LexTokenTag::Jlt => "Jlt"@,
        LexTokenTag::Mov => "Mov"@,
        LexTokenTag::Call => "Call"@,
        LexTokenTag::Ret => "Ret"@,
        LexTokenTag::Push => "Push"@,
        LexTokenTag::Pop => "Pop"@,
        LexTokenTag::Pusha => "Pusha"@,
        LexTokenTag::Popa => "Popa"@,
    }
}

/// Whether a tag stands for a register.
pub open spec fn is_register_tag(t: LexTokenTag) -> bool {
    t is RegA || t is RegB || t is RegC || t is RegD
}

/// Whether a tag stands for a mnemonic (not a register, label, name or constant).
pub open spec fn is_mnemonic_tag(t: LexTokenTag) -> bool {
    !(t is RegA || t is RegB || t is RegC || t is RegD || t is Label || t is Ident || t is Numc || t is Logc)
}

/// A source text together with its tokens.
#[derive(Debug)]
pub struct Lex {
    pub src: String,
    pub tokens: Vec<LexToken>,
}

/// The tag a word is read as: constants start with `#`, labels end with `:`, the
/// rest must be a register or a mnemonic (`inc` is read as register `D`).
pub open spec fn spec_match_tag(buffer: Seq<char>) -> Option<LexTokenTag> {
    let b = spec_trim(buffer);
    if b.len() > 0 && b[0] == '#' {
        Some(LexTokenTag::Numc)
    } else if b.len() > 0 && b.last() == ':' {
        Some(LexTokenTag::Label)
    } else if b == "A"@ {
        Some(LexTokenTag::RegA)
    } else if b == "B"@ {
        Some(LexTokenTag::RegB)
    } else if b == "C"@ {
        Some(LexTokenTag::RegC)
    } else if b == "D"@ {
        Some(LexTokenTag::RegD)
    } else if b == "inc"@ {
        Some(LexTokenTag::RegD)
    } else if b == "dec"@ {
        Some(LexTokenTag::Dec)
    } else if b == "add"@ {
        Some(LexTokenTag::Add)
    } else if b == "sub"@ {
        Some(LexTokenTag::Sub)
    } else if b == "mul"@ {
        Some(LexTokenTag::Mul)
    } else if b == "div"@ {
        Some(LexTokenTag::Div)
    } else if b == "rem"@ {
        Some(LexTokenTag::Rem)
    } else if b == "pow"@ {
        Some(LexTokenTag::Pow)
    } else if b == "and"@ {
        Some(LexTokenTag::And)
    } else if b == "or"@ {
        Some(LexTokenTag::Or)
    } else if b == "xor"@ {
        Some(LexTokenTag::Xor)
    } else if b == "cmp"@ {
        Some(LexTokenTag::Cmp)
    } else if b == "jmp"@ {
        Some(LexTokenTag::Jmp)
    } else if b == "jeq"@ {
        Some(LexTokenTag::Jeq)
    } else if b == "jne"@ {
        Some(LexTokenTag::Jne)
    } else if b == "jge"@ {
        Some(LexTokenTag::Jge)
    } else if b == "jgt"@ {
        Some(LexTokenTag::Jgt)
    } else if b == "jle"@ {
        Some(LexTokenTag::Jle)
    } else if b == "jlt"@ {
        Some(LexTokenTag::Jlt)
    } else if b == "mov"@ {
        Some(LexTokenTag::Mov)
    } else if b == "call"@ {
        Some(LexTokenTag::Call)
    } else if b == "ret"@ {
        Some(LexTokenTag::Ret)
    } else if b == "push"@ {
        Some(LexTokenTag::Push)
    } else if b == "pop"@ {
        Some(LexTokenTag::Pop)
    } else if b == "pusha"@ {
        Some(LexTokenTag::Pusha)
    } else if b == "popa"@ {
        Some(LexTokenTag::Popa)
    } else {
        None
    }
}

/// The tag of a word, if it has one.
fn try_match_tag(buffer: &str) -> (res: Option<LexTokenTag>)
    ensures
        res == spec_match_tag(buffer@),
{
    let b = trim(buffer);
    let n = b.unicode_len();
    if n > 0 && b.get_char(0) == '#' {
        return Some(LexTokenTag::Numc);
    }
    if n > 0 && b.get_char(n - 1) == ':' {
        return Some(LexTokenTag::Label);
    }
    if str_eq(b, "A") {
        return Some(LexTokenTag::RegA);
    }
    if str_eq(b, "B") {
        return Some(LexTokenTag::RegB);
    }
    if str_eq(b, "C") {
        return Some(LexTokenTag::RegC);
    }
    if str_eq(b, "D") {
        return Some(LexTokenTag::RegD);
    }
    if str_eq(b, "inc") {
        return Some(LexTokenTag::RegD);
    }
    if str_eq(b, "dec") {
        return Some(LexTokenTag::Dec);
    }
    if str_eq(b, "add") {
        return Some(LexTokenTag::Add);
    }
    if str_eq(b, "sub") {
        return Some(LexTokenTag::Sub);
    }
    if str_eq(b, "mul") {
        return Some(LexTokenTag::Mul);
    }
    if str_eq(b, "div") {
        return Some(LexTokenTag::Div);
    }
    if str_eq(b, "rem") {
        return Some(LexTokenTag::Rem);
    }
    if str_eq(b, "pow") {
        return Some(LexTokenTag::Pow);
    }
    if str_eq(b, "and") {
        return Some(LexTokenTag::And);
    }
    if str_eq(b, "or") {
        return Some(LexTokenTag::Or);
    }
    if str_eq(b, "xor") {
        return Some(LexTokenTag::Xor);
    }
    if str_eq(b, "cmp") {
        return Some(LexTokenTag::Cmp);
    }
    if str_eq(b, "jmp") {
        return Some(LexTokenTag::Jmp);
    }
    if str_eq(b, "jeq") {
        return Some(LexTokenTag::Jeq);
    }
    if str_eq(b, "jne") {
        return Some(LexTokenTag::Jne);
    }
    if str_eq(b, "jge") {
        return Some(LexTokenTag::Jge);
    }
    if str_eq(b, "jgt") {
        return Some(LexTokenTag::Jgt);
    }
    if str_eq(b, "jle") {
        return Some(LexTokenTag::Jle);
    }
    if str_eq(b, "jlt") {
        return Some(LexTokenTag::Jlt);
    }
    if str_eq(b, "mov") {
        return Some(LexTokenTag::Mov);
    }
    if str_eq(b, "call") {
        return Some(LexTokenTag::Call);
    }
    if str_eq(b, "ret") {
        return Some(LexTokenTag::Ret);
    }
    if str_eq(b, "push") {
        return Some(LexTokenTag::Push);
    }
    if str_eq(b, "pop") {
        return Some(LexTokenTag::Pop);
    }
    if str_eq(b, "pusha") {
        return Some(LexTokenTag::Pusha);
    }
    if str_eq(b, "popa") {
        return Some(LexTokenTag::Popa);
    }
    None
}

/// A word read as a mnemonic tag is the spelling of the mnemonic of the same
/// name: its text, trimmed, reads as a keyword whose name is the tag's. A word
/// read as a register is the register's name (or `inc`, read as `D`); a
/// constant is a word that starts with `#`, and a label one that ends with
/// `:` and does not start with `#`.
pub proof fn lemma_tag_names_its_keyword(w: Seq<char>)
    ensures
        match spec_match_tag(w) {
            Some(t) => is_mnemonic_tag(t) ==> (spec_keyword_from_str(spec_trim(w)) matches Some(k) && spec_keyword_debug(k)
                == spec_tag_name(t)),
            None => true,
        },
        match spec_match_tag(w) {
            Some(t) => is_register_tag(t) ==> ((spec_trim(w) == "inc"@ && t is RegD) || (spec_register_from_str(spec_trim(w))
                matches Some(r) && "Reg"@ + spec_register_debug(r) == spec_tag_name(t))),
            None => true,
        },
        spec_match_tag(w) == Some(LexTokenTag::Numc) <==> (spec_trim(w).len() > 0 && spec_trim(w)[0] == '#'),
        spec_match_tag(w) == Some(LexTokenTag::Label) <==> (spec_trim(w).len() > 0 && spec_trim(w)[0] != '#'
            && spec_trim(w).last() == ':'),
{
    reveal_strlit("Reg");
    reveal_strlit("RegA");
    reveal_strlit("RegB");
    reveal_strlit("RegC");
    reveal_strlit("RegD");
    reveal_strlit("A");
    reveal_strlit("B");
    reveal_strlit("C");
    reveal_strlit("D");
    assert("Reg"@ + "A"@ =~= "RegA"@);
    assert("Reg"@ + "B"@ =~= "RegB"@);
    assert("Reg"@ + "C"@ =~= "RegC"@);
    assert("Reg"@ + "D"@ =~= "RegD"@);
    if let Some(t) = spec_match_tag(w) {
        match t {
            LexTokenTag::Inc => lemma_keyword_text_roundtrip(Keyword::Inc),
            LexTokenTag::Dec => lemma_keyword_text_roundtrip(Keyword::Dec),
            LexTokenTag::Add => lemma_keyword_text_roundtrip(Keyword::Add),
            LexTokenTag::Sub => lemma_keyword_text_roundtrip(Keyword::Sub),
            LexTokenTag::Mul => lemma_keyword_text_roundtrip(Keyword::Mul),
            LexTokenTag::Div => lemma_keyword_text_roundtrip(Keyword::Div),
            LexTokenTag::Rem => lemma_keyword_text_roundtrip(Keyword::Rem),
            LexTokenTag::Pow => lemma_keyword_text_roundtrip(Keyword::Pow),
            LexTokenTag::And => lemma_keyword_text_roundtrip(Keyword::And),
            LexTokenTag::Or => lemma_keyword_text_roundtrip(Keyword::Or),
            LexTokenTag::Xor => lemma_keyword_text_roundtrip(Keyword::Xor),
            LexTokenTag::Cmp => lemma_keyword_text_roundtrip(Keyword::Cmp),
            LexTokenTag::Jmp => lemma_keyword_text_roundtrip(Keyword::Jmp),
            LexTokenTag::Jeq => lemma_keyword_text_roundtrip(Keyword::Jeq),
            LexTokenTag::Jne => lemma_keyword_text_roundtrip(Keyword::Jne),
            LexTokenTag::Jge => lemma_keyword_text_roundtrip(Keyword::Jge),
            LexTokenTag::Jgt => lemma_keyword_text_roundtrip(Keyword::Jgt),
            LexTokenTag::Jle => lemma_keyword_text_roundtrip(Keyword::Jle),
            LexTokenTag::Jlt => lemma_keyword_text_roundtrip(Keyword::Jlt),
            LexTokenTag::Mov => lemma_keyword_text_roundtrip(Keyword::Mov),
            LexTokenTag::Call => lemma_keyword_text_roundtrip(Keyword::Call),
            LexTokenTag::Ret => lemma_keyword_text_roundtrip(Keyword::Ret),
            LexTokenTag::Push => lemma_keyword_text_roundtrip(Keyword::Push),
            LexTokenTag::Pop => lemma_keyword_text_roundtrip(Keyword::Pop),
            LexTokenTag::Pusha => lemma_keyword_text_roundtrip(Keyword::Pusha),
            LexTokenTag::Popa => lemma_keyword_text_roundtrip(Keyword::Popa),
            _ => {},
        }
    }
}

/// The tag of a word that has one.
fn match_tag(buffer: &str) -> (res: LexTokenTag)
    requires
        spec_match_tag(buffer@) is Some,
    ensures
        spec_match_tag(buffer@) == Some(res),
{
    try_match_tag(buffer).unwrap()
}

/// A token by its location and tag.
pub type TagToken = (Location, LexTokenTag);

/// Scans one line from character `i` on; a `,` or a space ends a non-empty word,
/// cut out of the line with the counts taken as byte positions of its UTF-8
/// encoding. `None` when a word has no tag or is cut inside a character.
pub open spec fn spec_scan_tags(ldx: usize, s: Seq<char>, i: int, l1: int, l2: int, toks: Seq<TagToken>) -> Option<(int, int, Seq<TagToken>)>
    decreases s.len() - i,
{
    if i < 0 || i >= s.len() {
        Some((l1, l2, toks))
    } else if (s[i] == ',' || s[i] == ' ') && l2 - l1 - 1 > 0 {
        match (if slice_ok(s, l1, l2 - 1) { spec_match_tag(slice_text(s, l1, l2 - 1)) } else { None }) {
            None => None,
            Some(tag) => spec_scan_tags(ldx, s, i + 1, l2, l2 + 1, toks.push(((ldx, l1 as usize, l2 as usize), tag))),
        }
    } else {
        spec_scan_tags(ldx, s, i + 1, l1, l2 + 1, toks)
    }
}

/// The tokens of one line (the text before any `;`), or `None` when a word has no
/// tag or is cut inside a character.
pub open spec fn spec_lex_tag_line(ldx: usize, line: Seq<char>) -> Option<Seq<TagToken>> {
    match spec_scan_tags(ldx, line, 0, 0, 1, Seq::empty()) {
        None => None,
        Some(r) => match (if slice_ok(line, r.0, r.1 - 1) { spec_match_tag(slice_text(line, r.0, r.1 - 1)) } else { None }) {
            None => None,
            Some(tag) => Some(r.2.push(((ldx, r.0 as usize, (r.1 - 1) as usize), tag))),
        },
    }
}

/// The tokens of the lines of `s` from position `i` on, the line there having index `k`.
pub open spec fn spec_lex_from(s: Seq<char>, i: int, k: int) -> Option<Seq<TagToken>>
    decreases s.len() + 1 - i,
{
    if i < 0 || i >= s.len() {
        Some(Seq::empty())
    } else {
        let j = spec_line_end(s, i);
        proof {
            lemma_line_end_bounds(s, i);
            assert(i <= j);
        }
        let line = spec_line_text(s, i, j);
        match spec_lex_tag_line(k as usize, line.subrange(0, spec_semicolon_pos(line))) {
            None => None,
            Some(v) => match spec_lex_from(s, j + 1, k + 1) {
                None => None,
                Some(w) => Some(v + w),
            },
        }
    }
}

/// Tokens by their locations and tags.
pub open spec fn tag_tokens_view(t: Seq<LexToken>) -> Seq<TagToken> {
    t.map_values(|x: LexToken| (x.loc, x.tag))
}

impl Lex {
    /// A source text without tokens.
    pub fn new(src: String) -> (res: Self)
        ensures
            res.src@ == src@,
            res.tokens@.len() == 0,
    {
        Self { src, tokens: Vec::new() }
    }

    /// The text at `loc`: bytes `loc.1` to `loc.2` of line `loc.0`, if the text has that line.
    pub fn read(&self, loc: Location) -> (res: Option<&str>)
        requires
            self.src@.len() < usize::MAX,
            loc.0 < spec_lines_from(self.src@, 0).len() ==> slice_ok(spec_lines_from(self.src@, 0)[loc.0 as int],
                loc.1 as int, loc.2 as int),
        ensures
            loc.0 < spec_lines_from(self.src@, 0).len() ==> (res matches Some(r) && r@ == slice_text(
                spec_lines_from(self.src@, 0)[loc.0 as int], loc.1 as int, loc.2 as int)),
            loc.0 >= spec_lines_from(self.src@, 0).len() ==> res is None,
    {
        let src = self.src.as_str();
        let n = src.unicode_len();
        let ghost all = spec_lines_from(src@, 0);
        let mut i: usize = 0;
        let mut k: usize = 0;
        assert(all.subrange(0, all.len() as int) =~= all);
        while i < n
            invariant
                n == src@.len(),
                n < usize::MAX,
                src@ == self.src@,
                i <= n + 1,
                k <= loc.0,
                k <= all.len(),
                all == spec_lines_from(src@, 0),
                spec_lines_from(src@, i as int) == all.subrange(k as int, all.len() as int),
                loc.0 < all.len() ==> slice_ok(all[loc.0 as int], loc.1 as int, loc.2 as int),
            decreases n + 1 - i,
        {
            let j = line_end(src, i);
            proof {
                lemma_line_end_bounds(src@, i as int);
            }
            let line = line_text(src, i, j);
            proof {
                let rest = spec_lines_from(src@, i as int);
                assert(rest[0] == line@);
                assert(rest.drop_first() =~= spec_lines_from(src@, j + 1));
                assert(all.subrange(k + 1, all.len() as int) =~= all.subrange(k as int, all.len() as int).drop_first());
            }
            if k == loc.0 {
                return Some(byte_slice(line, loc.1, loc.2));
            }
            i = j + 1;
            k += 1;
        }
        assert(spec_lines_from(src@, i as int).len() == 0);
        None
    }
}

/// The tagged tokens of one line, or `None` where some word has no tag.
fn lex_tag_line(ldx: usize, line: &str) -> (res: Option<Vec<LexToken>>)
    requires
        line@.len() < usize::MAX,
    ensures
        match spec_lex_tag_line(ldx, line@) {
            Some(v) => res matches Some(r) && tag_tokens_view(r@) == v,
            None => res is None,
        },
{
    let mut toks: Vec<LexToken> = Vec::new();
    let n = line.unicode_len();
    let mut l1: usize = 0;
    let mut l2: usize = 1;
    let mut i: usize = 0;
    let ghost target = spec_scan_tags(ldx, line@, 0, 0, 1, Seq::empty());
    assert(tag_tokens_view(toks@) =~= Seq::<TagToken>::empty());
    while i < n
        invariant
            n == line@.len(),
            n < usize::MAX,
            i <= n,
            l1 < l2,
            l2 == i + 1,
            target == spec_scan_tags(ldx, line@, 0, 0, 1, Seq::empty()),
            spec_scan_tags(ldx, line@, i as int, l1 as int, l2 as int, tag_tokens_view(toks@)) == target,
        decreases n - i,
    {
        let c = line.get_char(i);
        if (c == ',' || c == ' ') && l2 - l1 - 1 > 0 {
            let tag = match try_byte_slice(line, l1, l2 - 1) {
                Some(w) => match try_match_tag(w) {
                    Some(t) => t,
                    None => {
                        return None;
                    },
                },
                None => {
                    return None;
                },
            };
            let ghost tv = tag_tokens_view(toks@);
            toks.push(LexToken { loc: (ldx, l1, l2), tag });
            assert(tag_tokens_view(toks@) =~= tv.push(((ldx, l1, l2), tag)));
            l1 = l2;
        }
        i += 1;
        l2 += 1;
    }
    let tag = match try_byte_slice(line, l1, l2 - 1) {
        Some(w) => match try_match_tag(w) {
            Some(t) => t,
            None => {
                return None;
            },
        },
        None => {
            return None;
        },
    };
    let ghost tv = tag_tokens_view(toks@);
    toks.push(LexToken { loc: (ldx, l1, l2 - 1), tag });
    assert(tag_tokens_view(toks@) =~= tv.push(((ldx, l1, (l2 - 1) as usize), tag)));
    Some(toks)
}

/// Splits a source text into tagged tokens like `lex`, or gives `None` where
/// some word (the last one of a line included) has no tag or is cut inside a
/// character.
pub fn try_lex(src: &str) -> (res: Option<Lex>)
    requires
        src@.len() < usize::MAX,
    ensures
        match spec_lex_from(src@, 0, 0) {
            Some(v) => res matches Some(l) && l.src@ == src@ && tag_tokens_view(l.tokens@) == v,
            None => res is None,
        },
{
    let mut lex = Lex::new(String::from_str(src));
    let n = src.unicode_len();
    let mut i: usize = 0;
    let mut k: usize = 0;
    let ghost target = spec_lex_from(src@, 0, 0);
    assert(tag_tokens_view(lex.tokens@) =~= Seq::<TagToken>::empty());
    assert(spec_lex_from(src@, 0, 0) matches Some(w) ==> target == Some(tag_tokens_view(lex.tokens@) + w));
    while i < n
        invariant
            n == src@.len(),
            n < usize::MAX,
            lex.src@ == src@,
            k <= i,
            i <= n + 1,
            target == spec_lex_from(src@, 0, 0),
            spec_lex_from(src@, i as int, k as int) is None ==> target is None,
            spec_lex_from(src@, i as int, k as int) matches Some(w) ==> target == Some(tag_tokens_view(lex.tokens@) + w),
        decreases n + 1 - i,
    {
        let j = line_end(src, i);
        proof {
            lemma_line_end_bounds(src@, i as int);
        }
        let line = before_semicolon(line_text(src, i, j));
        let more = match lex_tag_line(k, line) {
            Some(m) => m,
            None => {
                return None;
            },
        };
        let ghost a0 = tag_tokens_view(lex.tokens@);
        let ghost mv = tag_tokens_view(more@);
        let mut more = more;
        lex.tokens.append(&mut more);
        assert(tag_tokens_view(lex.tokens@) =~= a0 + mv);
        proof {
            if let Some(w) = spec_lex_from(src@, j + 1, k + 1) {
                assert(a0 + (mv + w) =~= (a0 + mv) + w);
            }
        }
        i = j + 1;
        k += 1;
    }
    assert(tag_tokens_view(lex.tokens@) + Seq::<TagToken>::empty() =~= tag_tokens_view(lex.tokens@));
    Some(lex)
}

/// Splits a source text into tagged tokens, line by line; text after a `;` is a
/// comment. Every word, including the last one of each line, must have a tag.
pub fn lex(src: &str) -> (res: Lex)
    requires
        src@.len() < usize::MAX,
        spec_lex_from(src@, 0, 0) is Some,
    ensures
        res.src@ == src@,
        spec_lex_from(src@, 0, 0) == Some(tag_tokens_view(res.tokens@)),
{
    try_lex(src).unwrap()
}

} // verus!
