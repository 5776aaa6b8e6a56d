use crate::text::str_eq;
use vstd::prelude::*;

verus! {

/// The value types a type annotation can name.
#[derive(Clone, Copy, Debug, PartialEq, Eq, Structural)]
pub enum Type {
    I,
    I64,
    F64,
    Ref,
    T,
}

/// The type a name denotes (`i`, `i64`, `f64`, `ref`, `t`), if any.
pub open spec fn spec_parse_type(s: Seq<char>) -> Option<Type> {
    if s == "i"@ {
        Some(Type::I)
    } else if s == "i64"@ {
        Some(Type::I64)
    } else if s == "f64"@ {
        Some(Type::F64)
    } else if s == "ref"@ {
        Some(Type::Ref)
    } else if s == "t"@ {
        Some(Type::T)
    } else {
        None
    }
}

impl Type {
    /// Reads a type name; anything else is rejected.
    pub fn from_str(from: &str) -> (res: Result<Type, ()>)
        ensures
            spec_parse_type(from@) matches Some(t) ==> res == Ok::<Type, ()>(t),
            spec_parse_type(from@) is None ==> res == Err::<Type, ()>(()),
    {
        if str_eq(from, "i") {
            Ok(Type::I)
        } else if str_eq(from, "i64") {
            Ok(Type::I64)
        } else if str_eq(from, "f64") {
            Ok(Type::F64)
        } else if str_eq(from, "ref") {
            Ok(Type::Ref)
        } else if str_eq(from, "t") {
            Ok(Type::T)
        } else {
            Err(())
        }
    }
}

} // verus!
