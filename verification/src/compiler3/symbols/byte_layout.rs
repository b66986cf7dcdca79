//! The layout of the bytes of a compiled function.
use vstd::prelude::*;

verus! {

/// The byte that ends a field of unbounded length.
pub const BYTE_BOUNDARY: u8 = 0;

/// The byte that opens a repeated group.
pub const REPEAT_START: u8 = 254;

/// The byte that closes a repeated group.
pub const REPEAT_END: u8 = 255;

/// One field of a byte layout, with its description.
pub enum LayoutKey {
    U8(&'static str),
    U16(&'static str),
    U32(&'static str),
    U64(&'static str),
    N(&'static str, u16),
    Inf(&'static str),
    Boundary,
    RepeatStart,
    RepeatEnd,
}

} // verus!
