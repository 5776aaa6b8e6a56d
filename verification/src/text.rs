//! Character and string helpers shared by the lexers and by the rendering
//! of error messages.
use colored::Colorize;
use vstd::prelude::*;
use vstd::string::StringSliceAdditionalSpecFns;
use vstd::utf8::{
    decode_utf8, encode_utf8, encode_utf8_decode_utf8, encode_utf8_valid_utf8, is_ascii_chars,
    is_ascii_chars_encode_utf8, is_char_boundary,
    is_char_boundary_iff_not_is_continuation_byte, is_char_boundary_start_end_of_seq, valid_utf8_split,
};

verus! {

/// Byte positions `a` and `b` of the UTF-8 encoding of `s` delimit a piece of
/// it: `a <= b`, both within the encoding and both at the start of a character
/// (or at its end). Slicing a `str` elsewhere panics.
pub open spec fn slice_ok(s: Seq<char>, a: int, b: int) -> bool {
    let bytes = encode_utf8(s);
    &&& 0 <= a <= b <= bytes.len()
    &&& is_char_boundary(bytes, a)
    &&& is_char_boundary(bytes, b)
}

/// The characters encoded by bytes `a` to `b` of the UTF-8 encoding of `s`.
pub open spec fn slice_text(s: Seq<char>, a: int, b: int) -> Seq<char> {
    decode_utf8(encode_utf8(s).subrange(a, b))
}

/// On text of single-byte characters, byte positions are character positions:
/// every piece between two of them can be cut out, and it is the piece of the
/// characters.
pub proof fn lemma_ascii_slice(s: Seq<char>, a: int, b: int)
    requires
        is_ascii_chars(s),
        0 <= a <= b <= s.len(),
    ensures
        slice_ok(s, a, b),
        slice_text(s, a, b) == s.subrange(a, b),
{
    let bytes = encode_utf8(s);
    is_ascii_chars_encode_utf8(s);
    encode_utf8_valid_utf8(s);
    is_char_boundary_start_end_of_seq(bytes);
    if a < bytes.len() {
        is_char_boundary_iff_not_is_continuation_byte(bytes, a);
    }
    if b < bytes.len() {
        is_char_boundary_iff_not_is_continuation_byte(bytes, b);
    }
    let sub = s.subrange(a, b);
    assert(is_ascii_chars(sub));
    is_ascii_chars_encode_utf8(sub);
    assert(encode_utf8(sub) =~= bytes.subrange(a, b));
    encode_utf8_decode_utf8(sub);
}

/// The piece of `s` between byte positions `a` and `b`, as `&s[a..b]` takes it.
pub fn byte_slice(s: &str, a: usize, b: usize) -> (res: &str)
    requires
        slice_ok(s@, a as int, b as int),
    ensures
        res@ == slice_text(s@, a as int, b as int),
{
    let ghost bytes = encode_utf8(s@);
    proof {
        encode_utf8_valid_utf8(s@);
        valid_utf8_split(bytes, a as int);
    }
    let (_, tail) = s.split_at(a);
    let ghost tb = bytes.subrange(a as int, bytes.len() as int);
    proof {
        assert(tail.spec_bytes() == tb);
        encode_utf8_valid_utf8(tail@);
        is_char_boundary_start_end_of_seq(tb);
        if b < bytes.len() {
            is_char_boundary_iff_not_is_continuation_byte(bytes, b as int);
            is_char_boundary_iff_not_is_continuation_byte(tb, b - a);
            assert(tb[b - a] == bytes[b as int]);
        } else {
            assert(tb.len() == b - a);
        }
    }
    let (mid, _) = tail.split_at(b - a);
    proof {
        assert(mid.spec_bytes() =~= bytes.subrange(a as int, b as int));
        encode_utf8_decode_utf8(mid@);
    }
    mid
}

/// The piece of `s` between byte positions `a` and `b`, or `None` where
/// `&s[a..b]` panics.
pub fn try_byte_slice(s: &str, a: usize, b: usize) -> (res: Option<&str>)
    ensures
        match res {
            Some(r) => slice_ok(s@, a as int, b as int) && r@ == slice_text(s@, a as int, b as int),
            None => !slice_ok(s@, a as int, b as int),
        },
{
    proof {
        encode_utf8_valid_utf8(s@);
    }
    if a <= b && s.is_char_boundary(a) && s.is_char_boundary(b) {
        Some(byte_slice(s, a, b))
    } else {
        None
    }
}

/// Whether `c` has the Unicode `White_Space` property (what `char::is_whitespace` tests).
pub open spec fn is_ws(c: char) -> bool {
    ||| c == ' '
    ||| ('\t' <= c && c <= '\r')
    ||| c == '\u{85}'
    ||| c == '\u{a0}'
    ||| c == '\u{1680}'
    ||| ('\u{2000}' <= c && c <= '\u{200a}')
    ||| c == '\u{2028}'
    ||| c == '\u{2029}'
    ||| c == '\u{202f}'
    ||| c == '\u{205f}'
    ||| c == '\u{3000}'
}

/// `s` without its leading whitespace.
pub open spec fn trim_start(s: Seq<char>) -> Seq<char>
    decreases s.len(),
{
    if s.len() > 0 && is_ws(s[0]) {
        trim_start(s.drop_first())
    } else {
        s
    }
}

/// `s` without its trailing whitespace.
pub open spec fn trim_end(s: Seq<char>) -> Seq<char>
    decreases s.len(),
{
    if s.len() > 0 && is_ws(s.last()) {
        trim_end(s.drop_last())
    } else {
        s
    }
}

/// `s` without leading and trailing whitespace (what `str::trim` returns).
pub open spec fn spec_trim(s: Seq<char>) -> Seq<char> {
    trim_end(trim_start(s))
}

/// Tests a character for the `White_Space` property.
pub fn is_whitespace(c: char) -> (res: bool)
    ensures
        res == is_ws(c),
{
    c == ' ' || ('\t' <= c && c <= '\r') || c == '\u{85}' || c == '\u{a0}' || c == '\u{1680}'
        || ('\u{2000}' <= c && c <= '\u{200a}') || c == '\u{2028}' || c == '\u{2029}'
        || c == '\u{202f}' || c == '\u{205f}' || c == '\u{3000}'
}

proof fn lemma_trim_start_skip(s: Seq<char>, i: int)
    requires
        0 <= i <= s.len(),
        forall|j: int| 0 <= j < i ==> is_ws(#[trigger] s[j]),
    ensures
        trim_start(s) == trim_start(s.subrange(i, s.len() as int)),
    decreases i,
{
    if i > 0 {
        let t = s.drop_first();
        assert forall|j: int| 0 <= j < i - 1 implies is_ws(#[trigger] t[j]) by {
            assert(t[j] == s[j + 1]);
        }
        lemma_trim_start_skip(t, i - 1);
        assert(t.subrange(i - 1, t.len() as int) =~= s.subrange(i, s.len() as int));
    } else {
        assert(s.subrange(0, s.len() as int) =~= s);
    }
}

proof fn lemma_trim_end_take(s: Seq<char>, k: int)
    requires
        0 <= k <= s.len(),
        forall|j: int| k <= j < s.len() ==> is_ws(#[trigger] s[j]),
    ensures
        trim_end(s) == trim_end(s.subrange(0, k)),
    decreases s.len() - k,
{
    if k < s.len() {
        let t = s.drop_last();
        assert forall|j: int| k <= j < t.len() implies is_ws(#[trigger] t[j]) by {
            assert(t[j] == s[j]);
        }
        lemma_trim_end_take(t, k);
        assert(t.subrange(0, k) =~= s.subrange(0, k));
    } else {
        assert(s.subrange(0, k) =~= s);
    }
}

/// Returns `s` with leading and trailing whitespace removed.
pub fn trim(s: &str) -> (res: &str)
    ensures
        res@ == spec_trim(s@),
{
    let n = s.unicode_len();
    let mut a: usize = 0;
    while a < n && is_whitespace(s.get_char(a))
        invariant
            n == s@.len(),
            a <= n,
            forall|j: int| 0 <= j < a ==> is_ws(#[trigger] s@[j]),
        decreases n - a,
    {
        a += 1;
    }
    proof {
        lemma_trim_start_skip(s@, a as int);
    }
    let ghost mid = s@.subrange(a as int, n as int);
    assert(mid.len() == 0 || !is_ws(mid[0]));
    assert(trim_start(s@) == mid);
    let mut b: usize = n;
    while b > a && is_whitespace(s.get_char(b - 1))
        invariant
            n == s@.len(),
            a <= b <= n,
            forall|j: int| b <= j < n ==> is_ws(#[trigger] s@[j]),
        decreases b,
    {
        b -= 1;
    }
    proof {
        let k = (b - a) as int;
        assert forall|j: int| k <= j < mid.len() implies is_ws(#[trigger] mid[j]) by {
            assert(mid[j] == s@[a + j]);
        }
        lemma_trim_end_take(mid, k);
        assert(mid.subrange(0, k) =~= s@.subrange(a as int, b as int));
        let r = s@.subrange(a as int, b as int);
        if r.len() > 0 {
            assert(r.last() == s@[b - 1]);
        }
    }
    s.substring_char(a, b)
}

/// Compares two strings character by character.
pub fn str_eq(a: &str, b: &str) -> (res: bool)
    ensures
        res == (a@ == b@),
{
    let n = a.unicode_len();
    if n != b.unicode_len() {
        return false;
    }
    let mut i: usize = 0;
    while i < n
        invariant
            n == a@.len(),
            n == b@.len(),
            i <= n,
            forall|j: int| 0 <= j < i ==> a@[j] == b@[j],
        decreases n - i,
    {
        if a.get_char(i) != b.get_char(i) {
            return false;
        }
        i += 1;
    }
    assert(a@ =~= b@);
    true
}



/// The position of the first line feed at or after `i`, or the length of `s`.
pub open spec fn spec_line_end(s: Seq<char>, i: int) -> int
    decreases s.len() - i,
{
    if i < 0 || i >= s.len() {
        s.len() as int
    } else if s[i] == '\n' {
        i
    } else {
        spec_line_end(s, i + 1)
    }
}

/// The end of the line that starts at `i` lies between `i` and the end of the
/// text; it is a line break, if inside the text, and none comes before it.
pub proof fn lemma_line_end_bounds(s: Seq<char>, i: int)
    requires
        0 <= i <= s.len(),
    ensures
        i <= spec_line_end(s, i) <= s.len(),
        spec_line_end(s, i) < s.len() ==> s[spec_line_end(s, i)] == '\n',
        forall|j: int| i <= j < spec_line_end(s, i) ==> s[j] != '\n',
    decreases s.len() - i,
{
    if i < s.len() && s[i] != '\n' {
        lemma_line_end_bounds(s, i + 1);
    }
}

/// The text of the line running from `i` to the line feed at `j` (or to the end):
/// a carriage return just before the line feed is not part of it.
pub open spec fn spec_line_text(s: Seq<char>, i: int, j: int) -> Seq<char> {
    let raw = s.subrange(i, j);
    if j < s.len() && raw.len() > 0 && raw.last() == '\r' {
        raw.drop_last()
    } else {
        raw
    }
}

/// The lines of `s`, as `str::lines` splits them, from position `i` on.
pub open spec fn spec_lines_from(s: Seq<char>, i: int) -> Seq<Seq<char>>
    decreases s.len() + 1 - i,
{
    if i < 0 || i >= s.len() {
        Seq::empty()
    } else {
        let j = spec_line_end(s, i);
        proof {
            lemma_line_end_bounds(s, i);
            assert(i <= j);
        }
        seq![spec_line_text(s, i, j)] + spec_lines_from(s, j + 1)
    }
}

/// Finds the end of the line that starts at `i`.
pub fn line_end(s: &str, i: usize) -> (res: usize)
    requires
        i <= s@.len(),
    ensures
        res == spec_line_end(s@, i as int),
{
    let n = s.unicode_len();
    let mut j = i;
    proof {
        lemma_line_end_bounds(s@, i as int);
    }
    while j < n && s.get_char(j) != '\n'
        invariant
            n == s@.len(),
            i <= j <= n,
            spec_line_end(s@, j as int) == spec_line_end(s@, i as int),
        decreases n - j,
    {
        j += 1;
    }
    j
}

/// The line of `s` from `i` to the line feed at `j`, without a carriage return before it.
pub fn line_text(s: &str, i: usize, j: usize) -> (res: &str)
    requires
        i <= j <= s@.len(),
    ensures
        res@ == spec_line_text(s@, i as int, j as int),
{
    let n = s.unicode_len();
    if j < n && j > i && s.get_char(j - 1) == '\r' {
        s.substring_char(i, j - 1)
    } else {
        s.substring_char(i, j)
    }
}

/// The part of a line before its first `;` (a comment starts there).
pub fn before_semicolon(s: &str) -> (res: &str)
    ensures
        res@ == s@.subrange(0, spec_semicolon_pos(s@)),
        res@.len() <= s@.len(),
{
    let n = s.unicode_len();
    let mut k: usize = 0;
    while k < n && s.get_char(k) != ';'
        invariant
            n == s@.len(),
            k <= n,
            spec_semicolon_pos_from(s@, k as int) == spec_semicolon_pos(s@),
        decreases n - k,
    {
        k += 1;
    }
    s.substring_char(0, k)
}

/// The position of the first `;` at or after `k`, or the length of `s`.
pub open spec fn spec_semicolon_pos_from(s: Seq<char>, k: int) -> int
    decreases s.len() - k,
{
    if k < 0 || k >= s.len() {
        s.len() as int
    } else if s[k] == ';' {
        k
    } else {
        spec_semicolon_pos_from(s, k + 1)
    }
}

/// The first `;` at or after `k` lies between `k` and the end of `s`.
pub proof fn lemma_semicolon_pos_bounds(s: Seq<char>, k: int)
    requires
        0 <= k <= s.len(),
    ensures
        k <= spec_semicolon_pos_from(s, k) <= s.len(),
    decreases s.len() - k,
{
    if k < s.len() && s[k] != ';' {
        lemma_semicolon_pos_bounds(s, k + 1);
    }
}

/// The position of the first `;` of `s`, or its length.
pub open spec fn spec_semicolon_pos(s: Seq<char>) -> int {
    spec_semicolon_pos_from(s, 0)
}

/// The text of a decimal digit.
pub open spec fn spec_digit(d: nat) -> Seq<char> {
    if d == 0 { "0"@ } else if d == 1 { "1"@ } else if d == 2 { "2"@ } else if d == 3 { "3"@ }
    else if d == 4 { "4"@ } else if d == 5 { "5"@ } else if d == 6 { "6"@ } else if d == 7 { "7"@ }
    else if d == 8 { "8"@ } else { "9"@ }
}

/// The decimal notation of `n`, most significant digit first, without leading zeros.
pub open spec fn spec_decimal(n: nat) -> Seq<char>
    decreases n,
{
    if n < 10 {
        spec_digit(n)
    } else {
        spec_decimal(n / 10) + spec_digit(n % 10)
    }
}

fn digit(d: usize) -> (res: &'static str)
    requires
        d < 10,
    ensures
        res@ == spec_digit(d as nat),
{
    if d == 0 { "0" } else if d == 1 { "1" } else if d == 2 { "2" } else if d == 3 { "3" }
    else if d == 4 { "4" } else if d == 5 { "5" } else if d == 6 { "6" } else if d == 7 { "7" }
    else if d == 8 { "8" } else { "9" }
}

/// Renders `n` in decimal notation (what `{}` and `{:?}` print for a `usize`).
pub fn decimal(n: usize) -> (res: String)
    ensures
        res@ == spec_decimal(n as nat),
    decreases n,
{
    if n < 10 {
        String::from_str(digit(n))
    } else {
        let mut s = decimal(n / 10);
        s.append(digit(n % 10));
        s
    }
}

/// Renders a 64-bit unsigned number in decimal notation.
pub fn decimal_u64(n: u64) -> (res: String)
    ensures
        res@ == spec_decimal(n as nat),
    decreases n,
{
    if n < 10 {
        String::from_str(digit(n as usize))
    } else {
        let mut s = decimal_u64(n / 10);
        s.append(digit((n % 10) as usize));
        s
    }
}

/// What `{}` and `{:?}` print for a signed integer.
pub open spec fn spec_signed_decimal(n: int) -> Seq<char> {
    if n < 0 {
        "-"@ + spec_decimal((-n) as nat)
    } else {
        spec_decimal(n as nat)
    }
}

/// Renders a signed number in decimal notation.
pub fn signed_decimal(n: i64) -> (res: String)
    ensures
        res@ == spec_signed_decimal(n as int),
{
    if n < 0 {
        let m: u64 = if n == i64::MIN { 9223372036854775808u64 } else { (-n) as u64 };
        let mut s = String::from_str("-");
        s.append(decimal_u64(m).as_str());
        s
    } else {
        decimal_u64(n as u64)
    }
}

/// A source location: line index, start column and end column.
pub type Location = (usize, usize, usize);

/// How a location is rendered by `{:?}`: `(line, start, end)`.
pub open spec fn spec_location_debug(loc: Location) -> Seq<char> {
    "("@ + spec_decimal(loc.0 as nat) + ", "@ + spec_decimal(loc.1 as nat) + ", "@
        + spec_decimal(loc.2 as nat) + ")"@
}

/// Renders a location the way `{:?}` prints a triple of integers.
pub fn location_debug(loc: Location) -> (res: String)
    ensures
        res@ == spec_location_debug(loc),
{
    let mut s = String::from_str("(");
    s.append(decimal(loc.0).as_str());
    s.append(", ");
    s.append(decimal(loc.1).as_str());
    s.append(", ");
    s.append(decimal(loc.2).as_str());
    s.append(")");
    s
}

/// What `{:?}` prints for a string slice: the text quoted, with `char::escape_debug` escapes.
pub uninterp spec fn spec_str_debug(s: Seq<char>) -> Seq<char>;

/// What `{:?}` prints for a character: the character single-quoted and escaped.
pub uninterp spec fn spec_char_debug(c: char) -> Seq<char>;

/// Calls std's `Debug` formatting of `str` through `format!("{:?}", s)`; the
/// contract only ties the result to the name `spec_str_debug` of its argument.
#[verifier::external_body]
pub(crate) fn str_debug(s: &str) -> (res: String)
    ensures
        res@ == spec_str_debug(s@),
{
    format!("{:?}", s)
}

/// Calls std's `Debug` formatting of `char` through `format!("{:?}", c)`; the
/// contract only ties the result to the name `spec_char_debug` of its argument.
#[verifier::external_body]
pub(crate) fn char_debug(c: char) -> (res: String)
    ensures
        res@ == spec_char_debug(c),
{
    format!("{:?}", c)
}

/// The plain marker that starts every error line.
pub open spec fn spec_err_plain() -> Seq<char> {
    "Err"@
}

/// `t` in ANSI red: `ESC[31m`, `t`, then the reset `ESC[0m`.
pub open spec fn spec_red(t: Seq<char>) -> Seq<char> {
    "\u{1b}[31m"@ + t + "\u{1b}[0m"@
}

/// The marker in ANSI red: `ESC[31m` + `Err` + `ESC[0m`.
pub open spec fn spec_err_red() -> Seq<char> {
    spec_red("Err"@)
}

/// Displays `text.red()` of the `colored` crate. Whether the ANSI color codes
/// are written depends on colored's global control state, which reads the
/// environment (`CLICOLOR`, `CLICOLOR_FORCE`, `NO_COLOR`) or a manual override:
/// the contract states only that the result is one of the two texts colored
/// can produce for such a string; text without an escape character holds no
/// reset sequence that colored would rewrite.
#[verifier::external_body]
fn red(text: &str) -> (res: String)
    requires
        !text@.contains('\u{1b}'),
    ensures
        res@ == text@ || res@ == spec_red(text@),
{
    format!("{}", text.red())
}

/// The marker that starts every error line, in red where colored output is on.
pub(crate) fn red_err_marker() -> (res: String)
    ensures
        res@ == spec_err_plain() || res@ == spec_err_red(),
{
    proof {
        reveal_strlit("Err");
    }
    assert(!"Err"@.contains('\u{1b}')) by {
        assert forall|i: int| 0 <= i < "Err"@.len() implies "Err"@[i] != '\u{1b}' by {
            assert("Err"@ =~= seq!['E', 'r', 'r']);
        }
    }
    red("Err")
}

} // verus!
