//! The errors that decoding can end in.

use vstd::prelude::*;

verus! {

/// Why a class file could not be decoded.
#[derive(Debug, Clone, Copy, PartialEq, Eq, Structural)]
pub enum DecodeError {
    /// The source ended before the bytes that a read asked for.
    IoError,
    /// The file does not begin with `0xCAFEBABE`.
    MagicMismatch,
    /// A constant pool entry carries a tag outside the format's table.
    UnsupportedConstantTag(u8),
    /// A constant pool index is zero, past the pool, or names an entry of the wrong kind.
    InvalidConstantReference,
    /// The bytes of a string constant are not modified UTF-8.
    Utf8DecodeError,
    /// An attribute's decoder consumed `actual` bytes where its header declared `expected`.
    AttributeLengthMismatch { expected: u32, actual: u64 },
}

/// What is wrong with a descriptor.
#[derive(Debug, Clone, Copy, PartialEq, Eq, Structural)]
pub enum SyntaxErrorReason {
    /// The text ends where a type is still expected.
    UnexpectedEnd,
    /// The character at this place begins no type that may stand there.
    UnexpectedCharacter,
    /// A class name is not closed by `;`.
    UnterminatedClassName,
    /// More than 255 `[` in a row.
    TooManyDimensions,
    /// Characters follow a complete descriptor.
    TrailingCharacters,
}

/// A descriptor that does not follow the grammar: where the fault lies, counted in characters,
/// and its kind.
#[derive(Debug, Clone, Copy, PartialEq, Eq, Structural)]
pub struct DescriptorSyntaxError {
    pub position: usize,
    pub reason: SyntaxErrorReason,
}

} // verus!
