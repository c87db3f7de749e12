use vstd::prelude::*;

verus! {

/// A tagged primitive scalar, as held on the operand stack and in locals.
///
/// Single and double precision numbers are carried as their IEEE-754 bit
/// patterns; the interpreter never looks inside them.
#[derive(Clone, Copy, Debug, PartialEq, Eq, Structural)]
pub enum Type {
    Int(i32),
    Float(u32),
    Long(i64),
    Double(u64),
    Null,
    Void,
}

impl Type {
    /// The integer held by an `Int`, if it is one.
    pub fn as_int(self) -> (r: Option<i32>)
        ensures
            r == (match self {
                Type::Int(x) => Some(x),
                _ => None,
            }),
    {
        match self {
            Type::Int(x) => Some(x),
            _ => None,
        }
    }

    /// The bit pattern held by a `Float`, if it is one.
    pub fn as_float_bits(self) -> (r: Option<u32>)
        ensures
            r == (match self {
                Type::Float(x) => Some(x),
                _ => None,
            }),
    {
        match self {
            Type::Float(x) => Some(x),
            _ => None,
        }
    }

    /// The bit pattern held by a `Double`, if it is one.
    pub fn as_double_bits(self) -> (r: Option<u64>)
        ensures
            r == (match self {
                Type::Double(x) => Some(x),
                _ => None,
            }),
    {
        match self {
            Type::Double(x) => Some(x),
            _ => None,
        }
    }

    /// The integer held by a `Long`, if it is one.
    pub fn as_long(self) -> (r: Option<i64>)
        ensures
            r == (match self {
                Type::Long(x) => Some(x),
                _ => None,
            }),
    {
        match self {
            Type::Long(x) => Some(x),
            _ => None,
        }
    }
}

} // verus!
