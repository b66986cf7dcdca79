//! The value types of the bytecode.
use vstd::prelude::*;
use crate::native_types::LeBlancType;

verus! {

#[derive(Clone, Copy, Debug, PartialEq, Eq, Structural)]
pub enum LBType {
    Boolean,
    Char,
    Short,
    Int,
    Long,
    Float,
    Double,
    String,
    Dynamic,
    NAT,
    Class(u64),
}

/// The number that stands for a bytecode type.
pub open spec fn type_number(t: LBType) -> int {
    match t {
        LBType::Boolean => 0,
        LBType::Char => 1,
        LBType::Short => 2,
        LBType::Int => 3,
        LBType::Long => 4,
        LBType::Float => 5,
        LBType::Double => 6,
        LBType::String => 7,
        LBType::Dynamic => 8,
        LBType::NAT => 9,
        LBType::Class(n) => 10 + n,
    }
}

/// The eight bytes of a value, least significant first, as `u64::to_le_bytes` gives them.
fn u64_le_bytes(n: u64) -> (r: [u8; 8])
    ensures
        r@ == vstd::bytes::spec_u64_to_le_bytes(n),
{
    let r: [u8; 8] = [
        (n & 0xff) as u8,
        ((n >> 8) & 0xff) as u8,
        ((n >> 16) & 0xff) as u8,
        ((n >> 24) & 0xff) as u8,
        ((n >> 32) & 0xff) as u8,
        ((n >> 40) & 0xff) as u8,
        ((n >> 48) & 0xff) as u8,
        ((n >> 56) & 0xff) as u8,
    ];
    proof {
        vstd::bytes::spec_u64_to_le_bytes_to_open(n);
        assert(r@ =~= vstd::bytes::spec_u64_to_le_bytes_open(n));
    }
    r
}

/// The language types that have a bytecode type yet.
pub open spec fn has_bytecode_type(t: LeBlancType) -> bool {
    match t {
        LeBlancType::Class(_) | LeBlancType::Flex | LeBlancType::Char | LeBlancType::Short
        | LeBlancType::Int | LeBlancType::Int64 | LeBlancType::Int128 | LeBlancType::Arch
        | LeBlancType::Float | LeBlancType::Double | LeBlancType::Boolean | LeBlancType::String
        | LeBlancType::Dynamic | LeBlancType::Null => true,
        _ => false,
    }
}

/// The bytecode type of a language type: every class is class 0, flexible values are
/// dynamic, the wide integers are longs and null is "not a type".
pub open spec fn spec_lb_type_of(t: LeBlancType) -> LBType {
    match t {
        LeBlancType::Class(_) => LBType::Class(0),
        LeBlancType::Flex => LBType::Dynamic,
        LeBlancType::Char => LBType::Char,
        LeBlancType::Short => LBType::Short,
        LeBlancType::Int => LBType::Int,
        LeBlancType::Int64 => LBType::Long,
        LeBlancType::Int128 => LBType::Long,
        LeBlancType::Arch => LBType::Long,
        LeBlancType::Float => LBType::Float,
        LeBlancType::Double => LBType::Double,
        LeBlancType::Boolean => LBType::Boolean,
        LeBlancType::String => LBType::String,
        LeBlancType::Dynamic => LBType::Dynamic,
        _ => LBType::NAT,
    }
}

impl LBType {
    /// The type number in eight little-endian bytes.
    pub fn to_bytes(self) -> (r: [u8; 8])
        requires
            type_number(self) <= u64::MAX,
        ensures
            r@ == vstd::bytes::spec_u64_to_le_bytes(type_number(self) as u64),
    {
        let n: u64 = match self {
            LBType::Boolean => 0,
            LBType::Char => 1,
            LBType::Short => 2,
            LBType::Int => 3,
            LBType::Long => 4,
            LBType::Float => 5,
            LBType::Double => 6,
            LBType::String => 7,
            LBType::Dynamic => 8,
            LBType::NAT => 9,
            LBType::Class(n2) => 10 + n2,
        };
        u64_le_bytes(n)
    }

    /// The bytecode type of a language type that has one.
    pub fn from(typ: LeBlancType) -> (r: LBType)
        requires
            has_bytecode_type(typ),
        ensures
            r == spec_lb_type_of(typ),
    {
        match typ {
            LeBlancType::Class(_) => LBType::Class(0),
            LeBlancType::Flex => LBType::Dynamic,
            LeBlancType::Char => LBType::Char,
            LeBlancType::Short => LBType::Short,
            LeBlancType::Int => LBType::Int,
            LeBlancType::Int64 => LBType::Long,
            LeBlancType::Int128 => LBType::Long,
            LeBlancType::Arch => LBType::Long,
            LeBlancType::Float => LBType::Float,
            LeBlancType::Double => LBType::Double,
            LeBlancType::Boolean => LBType::Boolean,
            LeBlancType::String => LBType::String,
            LeBlancType::Dynamic => LBType::Dynamic,
            _ => LBType::NAT,
        }
    }
}

} // verus!
