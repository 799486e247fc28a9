use vstd::prelude::*;

use crate::type_hint::TypeHint;

verus! {

/// Which table a statement was looked up in.
#[derive(Debug, Clone, Copy, PartialEq, Eq, Structural)]
pub enum StatementKind {
    Print,
    Write,
}

/// Why a byte stream could not be decoded.
#[derive(Debug, Clone, PartialEq, Eq)]
pub enum DecodeError {
    /// A header byte with bits that no header uses.
    UnknownHeader(u8),
    /// A crate id that no registered crate has.
    UnknownCrate(u16),
    /// A statement id (with its table and the name of its crate) that is not
    /// registered.
    UnknownStatement(u16, StatementKind, String),
    /// A byte that stands for no type hint.
    UnknownTypeHint(u8),
    /// A byte that is no valid encoding of a value of the given hint.
    InvalidValueBytes(TypeHint, u8),
    /// A character announced with a length outside 1 to 4.
    InvalidCharLength(u8),
    /// Character bytes that are no UTF-8 encoding of a character.
    InvalidUtf8Char,
    /// String bytes that are no UTF-8.
    InvalidStringBytes,
    /// A length that does not fit in this machine's `usize`.
    LengthOverflow(u64),
    /// An enum variant index that the type has no variant for.
    UnknownEnumVariant(u8),
}

} // verus!
