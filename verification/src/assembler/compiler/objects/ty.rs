use crate::text::str_eq;
use vstd::prelude::*;

verus! {

/// The value types an operand can be cast to.
#[derive(Clone, Copy, Debug, PartialEq, Eq, Structural)]
pub enum Type {
    I,
    I64,
    F64,
    Ref,
    T,
}

/// The type index the virtual machine uses for each type.
pub open spec fn spec_type_index(t: Type) -> i8 {
    match t {
        Type::I => 1,
        Type::I64 => 2,
        Type::F64 => 3,
        Type::Ref => 4,
        Type::T => 5,
    }
}

/// The type a name denotes (`i`, `i64`, `f64`, `ref`, `t`), if any.
pub open spec fn spec_type_from_str(s: Seq<char>) -> Option<Type> {
    if s == "i"@ {
        Some(Type::I)
    } else if s == "i64"@ {
        Some(Type::I64)
    } else if s == "f64"@ {
        Some(Type::F64)
    } else if s == "ref"@ {
        Some(Type::Ref)
    } else if s == "t"@ {
        Some(Type::T)
    } else {
        None
    }
}

/// The spelling of each type.
pub open spec fn spec_type_text(t: Type) -> Seq<char> {
    match t {
        Type::I => "i"@,
        Type::I64 => "i64"@,
        Type::F64 => "f64"@,
        Type::Ref => "ref"@,
        Type::T => "t"@,
    }
}

impl From<Type> for i8 {
    fn from(t: Type) -> (res: i8) {
        match t {
            Type::I => 1,
            Type::I64 => 2,
            Type::F64 => 3,
            Type::Ref => 4,
            Type::T => 5,
        }
    }
}

impl vstd::std_specs::convert::FromSpecImpl<Type> for i8 {
    open spec fn obeys_from_spec() -> bool {
        true
    }

    open spec fn from_spec(t: Type) -> i8 {
        spec_type_index(t)
    }
}

impl From<Type> for usize {
    fn from(t: Type) -> (res: usize) {
        let x: i8 = i8::from(t);
        x as usize
    }
}

impl vstd::std_specs::convert::FromSpecImpl<Type> for usize {
    open spec fn obeys_from_spec() -> bool {
        true
    }

    open spec fn from_spec(t: Type) -> usize {
        spec_type_index(t) as usize
    }
}

impl Type {
    /// Reads a type name; anything else is rejected.
    pub fn from_str(from: &str) -> (res: Result<Type, ()>)
        ensures
            spec_type_from_str(from@) matches Some(t) ==> res == Ok::<Type, ()>(t),
            spec_type_from_str(from@) is None ==> res == Err::<Type, ()>(()),
    {
        if str_eq(from, "i") {
            Ok(Type::I)
        } else if str_eq(from, "i64") {
            Ok(Type::I64)
        } else if str_eq(from, "f64") {
            Ok(Type::F64)
        } else if str_eq(from, "ref") {
            Ok(Type::Ref)
        } else if str_eq(from, "t") {
            Ok(Type::T)
        } else {
            Err(())
        }
    }
}

/// Reading back the spelling of a type gives that type, and the type indices are
/// pairwise distinct and range over 1 to 5.
pub proof fn lemma_type_text_roundtrip(t: Type, u: Type)
    ensures
        spec_type_from_str(spec_type_text(t)) == Some(t),
        1 <= spec_type_index(t) <= 5,
        spec_type_index(t) == spec_type_index(u) ==> t == u,
{
    reveal_strlit("i");
    reveal_strlit("i64");
    reveal_strlit("f64");
    reveal_strlit("ref");
    reveal_strlit("t");
    match t {
        Type::I => {},
        Type::I64 => {
            assert("i64"@.len() != "i"@.len());
        },
        Type::F64 => {
            assert("f64"@.len() != "i"@.len());
            assert("f64"@[0] != "i64"@[0]);
        },
        Type::Ref => {
            assert("ref"@.len() != "i"@.len());
            assert("ref"@[0] != "i64"@[0]);
            assert("ref"@[0] != "f64"@[0]);
        },
        Type::T => {
            assert("t"@[0] != "i"@[0]);
            assert("t"@.len() != "i64"@.len());
            assert("t"@.len() != "f64"@.len());
            assert("t"@.len() != "ref"@.len());
        },
    }
}

} // verus!
