use vstd::prelude::*;

verus! {

/// Every way a decode or a projection can fail. Any of these aborts the
/// whole attempt: no partial element tree and no partial `GameMap` is ever
/// produced.
#[derive(Clone, Copy, Debug, PartialEq, Eq, Structural)]
pub enum MapError {
    /// Fewer bytes remain than a fixed-size or length-prefixed read requires.
    BufferUnderrun,
    /// String bytes are not valid UTF-8.
    InvalidUtf8,
    /// A string-table index is not within the table's bounds.
    IndexOutOfRange,
    /// A value tag byte is outside the defined range of 0 through 7.
    UnknownValueTag,
    /// A declared child count is negative.
    MalformedCount,
    /// A varint ran past the five bytes that fit a 32-bit value.
    MalformedVarint,
    /// The "levels" or the "Style" node is absent during projection.
    MissingRequiredNode,
    /// A level or filler element lacks a mandatory attribute.
    MissingRequiredAttribute,
    /// An attribute exists but holds the wrong value variant.
    TypeMismatch,
}

} // verus!
