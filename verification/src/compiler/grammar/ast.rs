//! The syntax tree of the first grammar: names, operators and written types.
use vstd::prelude::*;

verus! {

/// Where a piece of syntax stands: its byte span, its line and its position on the line.
#[derive(Clone, Copy, Debug)]
pub struct Location {
    pub byte_pos: (usize, usize),
    pub line_number: usize,
    pub symbol_number: usize,
}

/// The line and the position on the line of each byte of the source being read, in order.
#[derive(Debug)]
pub struct BytePositions {
    pub byte_location: Vec<(usize, usize)>,
}

/// Records the line and position of the next byte.
pub fn push_byte_location(positions: &mut BytePositions, value: (usize, usize))
    ensures
        final(positions).byte_location@ == old(positions).byte_location@.push(value),
{
    positions.byte_location.push(value);
}

impl Location {
    /// The location of the span `byte_pos`: on the line and at the position of its first
    /// byte.
    pub fn new(positions: &BytePositions, byte_pos: (usize, usize)) -> (r: Location)
        requires
            byte_pos.0 < positions.byte_location@.len(),
        ensures
            r.byte_pos == byte_pos,
            r.line_number == positions.byte_location@[byte_pos.0 as int].0,
            r.symbol_number == positions.byte_location@[byte_pos.0 as int].1,
    {
        let loc = positions.byte_location[byte_pos.0];
        Location { byte_pos, line_number: loc.0, symbol_number: loc.1 }
    }
}

/// A piece of syntax with its location.
#[derive(Clone, Debug)]
pub struct Located<T> {
    pub location: Location,
    pub data: T,
}

impl<T> Located<T> {
    pub fn new(location: Location, data: T) -> (r: Self)
        ensures
            r.location == location,
            r.data == data,
    {
        Located { location, data }
    }
}

pub type Ident = Located<Id>;

#[derive(Debug)]
#[allow(inconsistent_fields)]
pub enum Id {
    Ident { ident: String },
    ObjIdent { ident: Box<Ident>, attr: Box<Ident> },
    EnumIdent { ident: Box<Ident>, kind: Box<Ident> },
}

#[derive(Clone, Copy, Debug, PartialEq, Eq, Structural)]
pub enum BinaryOperator {
    BinAdd,
    BinSub,
    BinMul,
    BinDiv,
    BinPow,
    BinMod,
    BinLShift,
    BinRShift,
}

#[derive(Clone, Copy, Debug, PartialEq, Eq, Structural)]
pub enum UnaryOperator {
    UPositive,
    UNegative,
    UNot,
    UInverse,
    UIncrement,
    UDecrement,
}

#[derive(Clone, Copy, Debug, PartialEq, Eq, Structural)]
pub enum Comparator {
    Equal,
    NotEqual,
    GreaterEqual,
    LesserEqual,
    Greater,
    Lesser,
    In,
}

#[derive(Clone, Copy, Debug, PartialEq, Eq, Structural)]
pub enum CondType {
    If,
    ElseIf,
    Else,
}

/// A type as written in the source.
#[derive(Debug)]
pub enum ParseType {
    Flex,
    String,
    Int,
    Float,
    Double,
    Function,
    Group,
    Promise,
    SelfRef,
    SuperLambda,
    Class(String),
    Trait(String, bool),
}

} // verus!
