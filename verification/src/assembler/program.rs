use crate::assembler::target::{Instruction, Register};
use crate::text::str_eq;
use vstd::prelude::*;

verus! {

/// The constants an assembled program holds: small and large integers,
/// references to code positions, and truth values.
#[derive(Clone, Copy, Debug, PartialEq, Eq, Structural)]
pub enum Value {
    I(i8),
    I64(i64),
    Ref(usize),
    T(bool),
}

/// A cell of an assembled program: an instruction, a constant or a register.
#[derive(Clone, Copy, Debug, PartialEq, Eq, Structural)]
pub enum Code {
    Instruction(Instruction),
    Value(Value),
    Register(Register),
}

/// An assembled program: its cells and the offsets of its labels.
#[derive(Debug)]
pub struct Program {
    pub code: Vec<Code>,
    pub labels: Vec<(String, usize)>,
}

/// Whether `c` is a decimal digit.
pub open spec fn is_digit(c: char) -> bool {
    '0' <= c <= '9'
}

/// The number a string of decimal digits denotes.
pub open spec fn spec_digits_value(s: Seq<char>) -> int
    decreases s.len(),
{
    if s.len() == 0 {
        0
    } else {
        spec_digits_value(s.drop_last()) * 10 + (s.last() as int - '0' as int)
    }
}

/// Every character of `s` is a decimal digit.
pub open spec fn all_digits(s: Seq<char>) -> bool {
    forall|i: int| 0 <= i < s.len() ==> is_digit(#[trigger] s[i])
}

/// `s` without its leading sign, if it has one.
pub open spec fn unsigned_part(s: Seq<char>) -> Seq<char> {
    if s.len() > 0 && (s[0] == '-' || s[0] == '+') {
        s.drop_first()
    } else {
        s
    }
}

/// The integer `s` denotes as `i64::from_str` reads it: an optional sign and at
/// least one decimal digit, the value within the range of `i64`.
pub open spec fn spec_parse_i64(s: Seq<char>) -> Option<i64> {
    let body = unsigned_part(s);
    if body.len() == 0 || !all_digits(body) {
        None
    } else {
        let v = if s[0] == '-' {
            -spec_digits_value(body)
        } else {
            spec_digits_value(body)
        };
        if i64::MIN <= v <= i64::MAX {
            Some(v as i64)
        } else {
            None
        }
    }
}

/// The constant `s` denotes: `true`, `false`, or an integer, small when it fits
/// in `i8`; `None` where the text is none of these.
pub open spec fn spec_value_from_str(s: Seq<char>) -> Option<Value> {
    if s == "true"@ {
        Some(Value::T(true))
    } else if s == "false"@ {
        Some(Value::T(false))
    } else {
        match spec_parse_i64(s) {
            Some(v) => Some(
                if -128 <= v <= 127 {
                    Value::I(v as i8)
                } else {
                    Value::I64(v)
                },
            ),
            None => None,
        }
    }
}

/// Digits never make a number smaller by coming after others.
proof fn lemma_digits_value_grows(s: Seq<char>, k: int)
    requires
        0 <= k <= s.len(),
        all_digits(s),
    ensures
        0 <= spec_digits_value(s.subrange(0, k)) <= spec_digits_value(s),
    decreases s.len(),
{
    if s.len() > 0 {
        let d = s.drop_last();
        assert forall|i: int| 0 <= i < d.len() implies is_digit(#[trigger] d[i]) by {
            assert(d[i] == s[i]);
        }
        if k < s.len() {
            lemma_digits_value_grows(d, k);
            assert(s.subrange(0, k) =~= d.subrange(0, k));
        } else {
            assert(s.subrange(0, k) =~= s);
        }
        lemma_digits_value_grows(d, d.len() as int);
        assert(d.subrange(0, d.len() as int) =~= d);
    }
}

/// Reads an integer the way `i64::from_str` does.
pub fn parse_i64(s: &str) -> (res: Option<i64>)
    ensures
        res == spec_parse_i64(s@),
{
    let n = s.unicode_len();
    let mut start: usize = 0;
    let mut neg = false;
    if n > 0 {
        let c0 = s.get_char(0);
        if c0 == '-' {
            neg = true;
            start = 1;
        } else if c0 == '+' {
            start = 1;
        }
    }
    let ghost body = s@.subrange(start as int, n as int);
    proof {
        if start == 1 {
            assert(body =~= s@.drop_first());
        } else {
            assert(body =~= s@);
        }
    }
    if start == n {
        return None;
    }
    let mut mag: u128 = 0;
    let mut i: usize = start;
    let bound: u128 = 9223372036854775808;
    while i < n
        invariant
            n == s@.len(),
            start <= i <= n,
            body == s@.subrange(start as int, n as int),
            body == unsigned_part(s@),
            neg == (s@.len() > 0 && s@[0] == '-'),
            forall|j: int| start <= j < i ==> is_digit(#[trigger] s@[j]),
            mag == spec_digits_value(s@.subrange(start as int, i as int)),
            mag <= bound,
            bound == 9223372036854775808u128,
        decreases n - i,
    {
        let c = s.get_char(i);
        if !('0' <= c && c <= '9') {
            proof {
                assert(body[i - start] == c);
                assert(!is_digit(body[i - start]));
                assert(!all_digits(body));
            }
            return None;
        }
        let d: u32 = (c as u32) - ('0' as u32);
        let ghost pre = s@.subrange(start as int, i as int);
        proof {
            assert(s@.subrange(start as int, i + 1).drop_last() =~= pre);
        }
        mag = mag * 10 + (d as u128);
        i += 1;
        if mag > bound {
            proof {
                if all_digits(body) {
                    lemma_digits_value_grows(body, i - start);
                    assert(body.subrange(0, i - start) =~= s@.subrange(start as int, i as int));
                    assert(spec_digits_value(body) > 9223372036854775808);
                }
            }
            return None;
        }
    }
    proof {
        assert(s@.subrange(start as int, n as int) =~= body);
        assert forall|j: int| 0 <= j < body.len() implies is_digit(#[trigger] body[j]) by {
            assert(body[j] == s@[start + j]);
        }
        assert(all_digits(body));
    }
    if neg {
        if mag == bound {
            Some(-9223372036854775807i64 - 1)
        } else {
            Some(-(mag as i64))
        }
    } else {
        if mag == bound {
            None
        } else {
            Some(mag as i64)
        }
    }
}

impl Value {
    /// Reads a constant: `true`, `false`, or an integer, which is small when it
    /// fits in `i8`. `None` where the text is none of these.
    pub fn try_from_str(from: &str) -> (res: Option<Value>)
        ensures
            res == spec_value_from_str(from@),
    {
        if str_eq(from, "true") {
            return Some(Value::T(true));
        }
        if str_eq(from, "false") {
            return Some(Value::T(false));
        }
        match parse_i64(from) {
            Some(v) => {
                if -128 <= v && v <= 127 {
                    Some(Value::I(v as i8))
                } else {
                    Some(Value::I64(v))
                }
            },
            None => None,
        }
    }

    /// Reads a constant that is `true`, `false` or an integer.
    pub fn from_str(from: &str) -> (res: Value)
        requires
            spec_value_from_str(from@) is Some,
        ensures
            spec_value_from_str(from@) == Some(res),
    {
        Value::try_from_str(from).unwrap()
    }
}

} // verus!
