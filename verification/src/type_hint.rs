use vstd::prelude::*;

verus! {

/// The one-byte tag written in front of each encoded value; the byte that
/// stands for each hint is given by [`type_hint_repr`].
#[derive(Debug, Clone, Copy, PartialEq, Eq, Structural)]
pub enum TypeHint {
    Boolean,
    U8,
    U16,
    U32,
    U64,
    U128,
    Usize,
    I8,
    I16,
    I32,
    I64,
    I128,
    Isize,
    F32,
    F64,
    Char,
    StringSlice,
    List,
    DynList,
    Tuple,
    WriteId,
}

/// The byte that represents a type hint on the wire.
pub open spec fn type_hint_repr(hint: TypeHint) -> u8 {
    match hint {
        TypeHint::Boolean => 0,
        TypeHint::U8 => 1,
        TypeHint::U16 => 2,
        TypeHint::U32 => 3,
        TypeHint::U64 => 4,
        TypeHint::U128 => 5,
        TypeHint::Usize => 6,
        TypeHint::I8 => 7,
        TypeHint::I16 => 8,
        TypeHint::I32 => 9,
        TypeHint::I64 => 10,
        TypeHint::I128 => 11,
        TypeHint::Isize => 12,
        TypeHint::F32 => 13,
        TypeHint::F64 => 14,
        TypeHint::Char => 15,
        TypeHint::StringSlice => 16,
        TypeHint::List => 17,
        TypeHint::DynList => 18,
        TypeHint::Tuple => 19,
        TypeHint::WriteId => 20,
    }
}

/// The type hint a byte stands for, if any.
pub open spec fn type_hint_from_repr(byte: u8) -> Option<TypeHint> {
    match byte {
        0u8 => Some(TypeHint::Boolean),
        1u8 => Some(TypeHint::U8),
        2u8 => Some(TypeHint::U16),
        3u8 => Some(TypeHint::U32),
        4u8 => Some(TypeHint::U64),
        5u8 => Some(TypeHint::U128),
        6u8 => Some(TypeHint::Usize),
        7u8 => Some(TypeHint::I8),
        8u8 => Some(TypeHint::I16),
        9u8 => Some(TypeHint::I32),
        10u8 => Some(TypeHint::I64),
        11u8 => Some(TypeHint::I128),
        12u8 => Some(TypeHint::Isize),
        13u8 => Some(TypeHint::F32),
        14u8 => Some(TypeHint::F64),
        15u8 => Some(TypeHint::Char),
        16u8 => Some(TypeHint::StringSlice),
        17u8 => Some(TypeHint::List),
        18u8 => Some(TypeHint::DynList),
        19u8 => Some(TypeHint::Tuple),
        20u8 => Some(TypeHint::WriteId),
        _ => None,
    }
}

impl TypeHint {
    /// The byte written on the wire for this hint.
    pub fn repr(self) -> (byte: u8)
        ensures
            byte == type_hint_repr(self),
    {
        match self {
            TypeHint::Boolean => 0,
            TypeHint::U8 => 1,
            TypeHint::U16 => 2,
            TypeHint::U32 => 3,
            TypeHint::U64 => 4,
            TypeHint::U128 => 5,
            TypeHint::Usize => 6,
            TypeHint::I8 => 7,
            TypeHint::I16 => 8,
            TypeHint::I32 => 9,
            TypeHint::I64 => 10,
            TypeHint::I128 => 11,
            TypeHint::Isize => 12,
            TypeHint::F32 => 13,
            TypeHint::F64 => 14,
            TypeHint::Char => 15,
            TypeHint::StringSlice => 16,
            TypeHint::List => 17,
            TypeHint::DynList => 18,
            TypeHint::Tuple => 19,
            TypeHint::WriteId => 20,
        }
    }

    /// The hint a received byte stands for; `None` for a byte that no hint uses.
    pub fn from_repr(byte: u8) -> (hint: Option<TypeHint>)
        ensures
            hint == type_hint_from_repr(byte),
    {
        match byte {
            0 => Some(TypeHint::Boolean),
            1 => Some(TypeHint::U8),
            2 => Some(TypeHint::U16),
            3 => Some(TypeHint::U32),
            4 => Some(TypeHint::U64),
            5 => Some(TypeHint::U128),
            6 => Some(TypeHint::Usize),
            7 => Some(TypeHint::I8),
            8 => Some(TypeHint::I16),
            9 => Some(TypeHint::I32),
            10 => Some(TypeHint::I64),
            11 => Some(TypeHint::I128),
            12 => Some(TypeHint::Isize),
            13 => Some(TypeHint::F32),
            14 => Some(TypeHint::F64),
            15 => Some(TypeHint::Char),
            16 => Some(TypeHint::StringSlice),
            17 => Some(TypeHint::List),
            18 => Some(TypeHint::DynList),
            19 => Some(TypeHint::Tuple),
            20 => Some(TypeHint::WriteId),
            _ => None,
        }
    }
}

/// Reading back the byte of a hint gives the hint, and every byte that is read
/// as a hint is the byte of that hint.
pub proof fn lemma_type_hint_repr_roundtrip(hint: TypeHint, byte: u8)
    ensures
        type_hint_from_repr(type_hint_repr(hint)) == Some(hint),
        type_hint_from_repr(byte) == Some(hint) ==> type_hint_repr(hint) == byte,
{
}

} // verus!
