use vstd::prelude::*;
use vstd::utf8::{decode_first_scalar, decode_utf8, valid_first_scalar, valid_utf8};

use crate::buffer::{be_nat, twos_complement};
use crate::errors::{DecodeError, StatementKind};
use crate::header::{header_from_bits, Level};
use crate::pointer_width::PointerWidth;
use crate::statements::{
    expected_arg_count, statement_key, StoredFormatExpression, StoresView, StructVariant,
    TypeStructure, TypeStructureVariant, WriteStatement,
};
use crate::type_hint::{type_hint_from_repr, TypeHint};
use crate::values::{DecodedValuesModel, StructModel, TypeModel, TypeVariantModel, ValueModel};

verus! {

/// The outcome of reading something from the front of a byte sequence:
/// more bytes are needed, the bytes are invalid, or it was read from the
/// first `n` bytes.
pub enum Parsed<T> {
    Incomplete,
    Failed(DecodeError),
    Done(T, nat),
}

/// Pads a UTF-8 sequence of at most four bytes with zeros to four bytes.
pub open spec fn pad4(s: Seq<u8>) -> Seq<u8> {
    s + Seq::new((4 - s.len()) as nat, |i: int| 0u8)
}

/// Names paired with values, in order; as many as there are names.
pub open spec fn zip_names(names: Seq<String>, values: Seq<ValueModel>) -> Seq<(Seq<char>, ValueModel)> {
    Seq::new(names.len(), |i: int| (names[i]@, values[i]))
}

/// The arguments of a format expression, split into positional and named ones.
pub open spec fn split_args(expression: StoredFormatExpression, values: Seq<ValueModel>) -> DecodedValuesModel {
    let p = expression.expected_positional_arg_count as int;
    DecodedValuesModel {
        positional: values.take(p),
        named: zip_names(expression.expected_named_args@, values.skip(p)),
    }
}

/// A length field, written as a `usize` of the writer's pointer width.
pub open spec fn parse_length(pw: PointerWidth, s: Seq<u8>) -> Parsed<nat> {
    let w = pw.spec_size();
    if s.len() < w {
        Parsed::Incomplete
    } else {
        let n = be_nat(s.take(w as int));
        if n > usize::MAX {
            Parsed::Failed(DecodeError::LengthOverflow(n as u64))
        } else {
            Parsed::Done(n, w)
        }
    }
}

/// An unsigned integer of `width` bytes, big-endian.
pub open spec fn parse_unsigned(s: Seq<u8>, width: nat) -> Parsed<nat> {
    if s.len() < width {
        Parsed::Incomplete
    } else {
        Parsed::Done(be_nat(s.take(width as int)), width)
    }
}

/// A signed integer of `width` bytes, big-endian two's complement.
pub open spec fn parse_signed(s: Seq<u8>, width: nat) -> Parsed<int> {
    if s.len() < width {
        Parsed::Incomplete
    } else {
        Parsed::Done(twos_complement(be_nat(s.take(width as int)), width), width)
    }
}

/// A value of the given type hint at the front of `s` (the hint byte itself
/// already read).
#[verifier::opaque]
pub open spec fn parse_value(st: StoresView, pw: PointerWidth, hint: TypeHint, s: Seq<u8>) -> Parsed<
    ValueModel,
>
    decreases s.len(), 0nat, 0nat,
{
    match hint {
        TypeHint::U8 => match parse_unsigned(s, 1) {
            Parsed::Done(n, k) => Parsed::Done(ValueModel::U8(n as u8), k),
            _ => Parsed::Incomplete,
        },
        TypeHint::U16 => match parse_unsigned(s, 2) {
            Parsed::Done(n, k) => Parsed::Done(ValueModel::U16(n as u16), k),
            _ => Parsed::Incomplete,
        },
        TypeHint::U32 => match parse_unsigned(s, 4) {
            Parsed::Done(n, k) => Parsed::Done(ValueModel::U32(n as u32), k),
            _ => Parsed::Incomplete,
        },
        TypeHint::U64 => match parse_unsigned(s, 8) {
            Parsed::Done(n, k) => Parsed::Done(ValueModel::U64(n as u64), k),
            _ => Parsed::Incomplete,
        },
        TypeHint::U128 => match parse_unsigned(s, 16) {
            Parsed::Done(n, k) => Parsed::Done(ValueModel::U128(n as u128), k),
            _ => Parsed::Incomplete,
        },
        TypeHint::I8 => match parse_signed(s, 1) {
            Parsed::Done(n, k) => Parsed::Done(ValueModel::I8(n as i8), k),
            _ => Parsed::Incomplete,
        },
        TypeHint::I16 => match parse_signed(s, 2) {
            Parsed::Done(n, k) => Parsed::Done(ValueModel::I16(n as i16), k),
            _ => Parsed::Incomplete,
        },
        TypeHint::I32 => match parse_signed(s, 4) {
            Parsed::Done(n, k) => Parsed::Done(ValueModel::I32(n as i32), k),
            _ => Parsed::Incomplete,
        },
        TypeHint::I64 => match parse_signed(s, 8) {
            Parsed::Done(n, k) => Parsed::Done(ValueModel::I64(n as i64), k),
            _ => Parsed::Incomplete,
        },
        TypeHint::I128 => match parse_signed(s, 16) {
            Parsed::Done(n, k) => Parsed::Done(ValueModel::I128(n as i128), k),
            _ => Parsed::Incomplete,
        },
        TypeHint::F32 => match parse_unsigned(s, 4) {
            Parsed::Done(n, k) => Parsed::Done(ValueModel::F32(n as u32), k),
            _ => Parsed::Incomplete,
        },
        TypeHint::F64 => match parse_unsigned(s, 8) {
            Parsed::Done(n, k) => Parsed::Done(ValueModel::F64(n as u64), k),
            _ => Parsed::Incomplete,
        },
        TypeHint::Usize => match parse_unsigned(s, pw.spec_size()) {
            Parsed::Done(n, k) => Parsed::Done(ValueModel::Usize(n as u64), k),
            _ => Parsed::Incomplete,
        },
        TypeHint::Isize => match parse_signed(s, pw.spec_size()) {
            Parsed::Done(n, k) => Parsed::Done(ValueModel::Isize(n as i64), k),
            _ => Parsed::Incomplete,
        },
        TypeHint::Boolean => if s.len() < 1 {
            Parsed::Incomplete
        } else if s[0] == 1 {
            Parsed::Done(ValueModel::Boolean(true), 1)
        } else if s[0] == 0 {
            Parsed::Done(ValueModel::Boolean(false), 1)
        } else {
            Parsed::Failed(DecodeError::InvalidValueBytes(TypeHint::Boolean, s[0]))
        },
        TypeHint::Char => if s.len() < 1 {
            Parsed::Incomplete
        } else {
            let n = s[0] as nat;
            if s.len() < 1 + n {
                Parsed::Incomplete
            } else if n < 1 || n > 4 {
                Parsed::Failed(DecodeError::InvalidCharLength(s[0]))
            } else {
                let bytes = pad4(s.subrange(1, 1 + n as int));
                if valid_first_scalar(bytes) {
                    Parsed::Done(ValueModel::Char(decode_first_scalar(bytes) as char), 1 + n)
                } else {
                    Parsed::Failed(DecodeError::InvalidUtf8Char)
                }
            }
        },
        TypeHint::StringSlice => match parse_length(pw, s) {
            Parsed::Done(n, w) => if s.len() < w + n {
                Parsed::Incomplete
            } else {
                let bytes = s.subrange(w as int, (w + n) as int);
                if valid_utf8(bytes) {
                    Parsed::Done(ValueModel::String(decode_utf8(bytes)), w + n)
                } else {
                    Parsed::Failed(DecodeError::InvalidStringBytes)
                }
            },
            Parsed::Failed(e) => Parsed::Failed(e),
            Parsed::Incomplete => Parsed::Incomplete,
        },
        TypeHint::Tuple => if s.len() < 1 {
            Parsed::Incomplete
        } else {
            match parse_dyn_elems(st, pw, s[0] as nat, s.skip(1)) {
                Parsed::Done(vs, k) => Parsed::Done(ValueModel::Tuple(vs), 1 + k),
                Parsed::Failed(e) => Parsed::Failed(e),
                Parsed::Incomplete => Parsed::Incomplete,
            }
        },
        TypeHint::DynList => match parse_length(pw, s) {
            Parsed::Done(n, w) => match parse_dyn_elems(st, pw, n, s.skip(w as int)) {
                Parsed::Done(vs, k) => Parsed::Done(ValueModel::List(vs), w + k),
                Parsed::Failed(e) => Parsed::Failed(e),
                Parsed::Incomplete => Parsed::Incomplete,
            },
            Parsed::Failed(e) => Parsed::Failed(e),
            Parsed::Incomplete => Parsed::Incomplete,
        },
        TypeHint::List => match parse_length(pw, s) {
            Parsed::Done(n, w) => if n == 0 {
                Parsed::Done(ValueModel::List(Seq::empty()), w)
            } else if s.len() < w + 1 {
                Parsed::Incomplete
            } else {
                match type_hint_from_repr(s[w as int]) {
                    None => Parsed::Failed(DecodeError::UnknownTypeHint(s[w as int])),
                    Some(h) => match parse_fixed_elems(st, pw, h, n, s.skip((w + 1) as int)) {
                        Parsed::Done(vs, k) => Parsed::Done(ValueModel::List(vs), w + 1 + k),
                        Parsed::Failed(e) => Parsed::Failed(e),
                        Parsed::Incomplete => Parsed::Incomplete,
                    },
                }
            },
            Parsed::Failed(e) => Parsed::Failed(e),
            Parsed::Incomplete => Parsed::Incomplete,
        },
        TypeHint::WriteId => if s.len() < 2 {
            Parsed::Incomplete
        } else {
            let c = be_nat(s.take(2)) as u16;
            if !st.crates.contains_key(c) {
                Parsed::Failed(DecodeError::UnknownCrate(c))
            } else if s.len() < 4 {
                Parsed::Incomplete
            } else {
                let id = be_nat(s.subrange(2, 4)) as u16;
                let key = statement_key(c, id);
                if !st.writes.contains_key(key) {
                    Parsed::Failed(
                        DecodeError::UnknownStatement(id, StatementKind::Write, st.crates[c].name),
                    )
                } else {
                    match st.writes[key] {
                        WriteStatement::FormatExpression(fe) => match parse_dyn_elems(
                            st,
                            pw,
                            expected_arg_count(fe),
                            s.skip(4),
                        ) {
                            Parsed::Done(vs, k) => Parsed::Done(
                                ValueModel::NestedFormatExpression {
                                    expression: fe.expression@,
                                    append_newline: fe.append_newline,
                                    decoded_values: split_args(fe, vs),
                                },
                                4 + k,
                            ),
                            Parsed::Failed(e) => Parsed::Failed(e),
                            Parsed::Incomplete => Parsed::Incomplete,
                        },
                        WriteStatement::TypeStructure(ts) => match parse_type_structure(
                            st,
                            pw,
                            ts,
                            s.skip(4),
                        ) {
                            Parsed::Done(t, k) => Parsed::Done(ValueModel::Type(t), 4 + k),
                            Parsed::Failed(e) => Parsed::Failed(e),
                            Parsed::Incomplete => Parsed::Incomplete,
                        },
                    }
                }
            }
        },
    }
}

/// `n` values that each start with their own type hint byte.
#[verifier::opaque]
pub open spec fn parse_dyn_elems(st: StoresView, pw: PointerWidth, n: nat, s: Seq<u8>) -> Parsed<
    Seq<ValueModel>,
>
    decreases s.len(), 1nat, n,
{
    if n == 0 {
        Parsed::Done(Seq::empty(), 0)
    } else if s.len() < 1 {
        Parsed::Incomplete
    } else {
        match type_hint_from_repr(s[0]) {
            None => Parsed::Failed(DecodeError::UnknownTypeHint(s[0])),
            Some(h) => match parse_value(st, pw, h, s.skip(1)) {
                Parsed::Done(v, k) => if k < s.len() {
                    match parse_dyn_elems(st, pw, (n - 1) as nat, s.skip(1 + k as int)) {
                        Parsed::Done(vs, k2) => Parsed::Done(seq![v] + vs, 1 + k + k2),
                        Parsed::Failed(e) => Parsed::Failed(e),
                        Parsed::Incomplete => Parsed::Incomplete,
                    }
                } else {
                    Parsed::Incomplete
                },
                Parsed::Failed(e) => Parsed::Failed(e),
                Parsed::Incomplete => Parsed::Incomplete,
            },
        }
    }
}

/// `n` values of one type hint, written once before them.
#[verifier::opaque]
pub open spec fn parse_fixed_elems(
    st: StoresView,
    pw: PointerWidth,
    hint: TypeHint,
    n: nat,
    s: Seq<u8>,
) -> Parsed<Seq<ValueModel>>
    decreases s.len(), 1nat, n,
{
    if n == 0 {
        Parsed::Done(Seq::empty(), 0)
    } else {
        match parse_value(st, pw, hint, s) {
            Parsed::Done(v, k) => if 0 < k <= s.len() {
                match parse_fixed_elems(st, pw, hint, (n - 1) as nat, s.skip(k as int)) {
                    Parsed::Done(vs, k2) => Parsed::Done(seq![v] + vs, k + k2),
                    Parsed::Failed(e) => Parsed::Failed(e),
                    Parsed::Incomplete => Parsed::Incomplete,
                }
            } else {
                Parsed::Incomplete
            },
            Parsed::Failed(e) => Parsed::Failed(e),
            Parsed::Incomplete => Parsed::Incomplete,
        }
    }
}

/// The fields of a struct (or of one enum variant) of the given shape.
#[verifier::opaque]
pub open spec fn parse_struct(st: StoresView, pw: PointerWidth, shape: StructVariant, s: Seq<u8>) -> Parsed<
    StructModel,
>
    decreases s.len(), 2nat, 0nat,
{
    match shape {
        StructVariant::Unit => Parsed::Done(StructModel::Unit, 0),
        StructVariant::Tuple(n) => match parse_dyn_elems(st, pw, n as nat, s) {
            Parsed::Done(vs, k) => Parsed::Done(StructModel::Tuple(vs), k),
            Parsed::Failed(e) => Parsed::Failed(e),
            Parsed::Incomplete => Parsed::Incomplete,
        },
        StructVariant::Named(names) => match parse_dyn_elems(st, pw, names@.len(), s) {
            Parsed::Done(vs, k) => Parsed::Done(StructModel::Named(zip_names(names@, vs)), k),
            Parsed::Failed(e) => Parsed::Failed(e),
            Parsed::Incomplete => Parsed::Incomplete,
        },
    }
}

/// A value of a type with a registered structure; an enum starts with the
/// one-byte index of its variant.
#[verifier::opaque]
pub open spec fn parse_type_structure(
    st: StoresView,
    pw: PointerWidth,
    ts: TypeStructure,
    s: Seq<u8>,
) -> Parsed<TypeModel>
    decreases s.len(), 3nat, 0nat,
{
    match ts.variant {
        TypeStructureVariant::Struct(shape) => match parse_struct(st, pw, shape, s) {
            Parsed::Done(m, k) => Parsed::Done(
                TypeModel { name: ts.name@, variant: TypeVariantModel::Struct(m) },
                k,
            ),
            Parsed::Failed(e) => Parsed::Failed(e),
            Parsed::Incomplete => Parsed::Incomplete,
        },
        TypeStructureVariant::Enum(variants) => if s.len() < 1 {
            Parsed::Incomplete
        } else if s[0] >= variants@.len() {
            Parsed::Failed(DecodeError::UnknownEnumVariant(s[0]))
        } else {
            let variant = variants@[s[0] as int];
            match parse_struct(st, pw, variant.1, s.skip(1)) {
                Parsed::Done(m, k) => Parsed::Done(
                    TypeModel { name: ts.name@, variant: TypeVariantModel::Enum(variant.0@, m) },
                    1 + k,
                ),
                Parsed::Failed(e) => Parsed::Failed(e),
                Parsed::Incomplete => Parsed::Incomplete,
            }
        },
    }
}

/// Values read before a step, put in front of what the step reads.
pub open spec fn prepend(vs: Seq<ValueModel>, d: nat, r: Parsed<Seq<ValueModel>>) -> Parsed<
    Seq<ValueModel>,
> {
    match r {
        Parsed::Done(ws, k) => Parsed::Done(vs + ws, d + k),
        Parsed::Failed(e) => Parsed::Failed(e),
        Parsed::Incomplete => Parsed::Incomplete,
    }
}

/// The body of a list of `n` values of one hint: the hint byte, written only
/// when the list is not empty, then the values.
pub open spec fn parse_fixed_list(st: StoresView, pw: PointerWidth, n: nat, s: Seq<u8>) -> Parsed<
    Seq<ValueModel>,
> {
    if n == 0 {
        Parsed::Done(Seq::empty(), 0)
    } else if s.len() < 1 {
        Parsed::Incomplete
    } else {
        match type_hint_from_repr(s[0]) {
            None => Parsed::Failed(DecodeError::UnknownTypeHint(s[0])),
            Some(h) => prepend(Seq::empty(), 1, parse_fixed_elems(st, pw, h, n, s.skip(1))),
        }
    }
}

/// What follows the crate id of a write id: the statement id, then the
/// arguments of the format expression or the value of the type it names.
pub open spec fn parse_write_body(st: StoresView, pw: PointerWidth, crate_id: u16, s: Seq<u8>) -> Parsed<
    ValueModel,
> {
    if s.len() < 2 {
        Parsed::Incomplete
    } else {
        let id = be_nat(s.take(2)) as u16;
        let key = statement_key(crate_id, id);
        if !st.writes.contains_key(key) {
            if st.crates.contains_key(crate_id) {
                Parsed::Failed(
                    DecodeError::UnknownStatement(id, StatementKind::Write, st.crates[crate_id].name),
                )
            } else {
                Parsed::Failed(DecodeError::UnknownCrate(crate_id))
            }
        } else {
            match st.writes[key] {
                WriteStatement::FormatExpression(fe) => match parse_dyn_elems(
                    st,
                    pw,
                    expected_arg_count(fe),
                    s.skip(2),
                ) {
                    Parsed::Done(vs, k) => Parsed::Done(
                        ValueModel::NestedFormatExpression {
                            expression: fe.expression@,
                            append_newline: fe.append_newline,
                            decoded_values: split_args(fe, vs),
                        },
                        2 + k,
                    ),
                    Parsed::Failed(e) => Parsed::Failed(e),
                    Parsed::Incomplete => Parsed::Incomplete,
                },
                WriteStatement::TypeStructure(ts) => match parse_type_structure(st, pw, ts, s.skip(2)) {
                    Parsed::Done(t, k) => Parsed::Done(ValueModel::Type(t), 2 + k),
                    Parsed::Failed(e) => Parsed::Failed(e),
                    Parsed::Incomplete => Parsed::Incomplete,
                },
            }
        }
    }
}

/// The variant of an enum value: its one-byte index, then its fields.
pub open spec fn parse_enum_body(
    st: StoresView,
    pw: PointerWidth,
    variants: Seq<(String, StructVariant)>,
    s: Seq<u8>,
) -> Parsed<(Seq<char>, StructModel)> {
    if s.len() < 1 {
        Parsed::Incomplete
    } else if s[0] >= variants.len() {
        Parsed::Failed(DecodeError::UnknownEnumVariant(s[0]))
    } else {
        let variant = variants[s[0] as int];
        match parse_struct(st, pw, variant.1, s.skip(1)) {
            Parsed::Done(m, k) => Parsed::Done((variant.0@, m), 1 + k),
            Parsed::Failed(e) => Parsed::Failed(e),
            Parsed::Incomplete => Parsed::Incomplete,
        }
    }
}

/// A value read after `d` bytes of something else.
pub open spec fn shift(r: Parsed<ValueModel>, d: nat) -> Parsed<ValueModel> {
    match r {
        Parsed::Done(v, k) => Parsed::Done(v, d + k),
        Parsed::Failed(e) => Parsed::Failed(e),
        Parsed::Incomplete => Parsed::Incomplete,
    }
}

/// A list of values read after `d` bytes, as a tuple or as a list.
pub open spec fn wrap_list(r: Parsed<Seq<ValueModel>>, tuple: bool, d: nat) -> Parsed<ValueModel> {
    match r {
        Parsed::Done(vs, k) => Parsed::Done(
            if tuple {
                ValueModel::Tuple(vs)
            } else {
                ValueModel::List(vs)
            },
            d + k,
        ),
        Parsed::Failed(e) => Parsed::Failed(e),
        Parsed::Incomplete => Parsed::Incomplete,
    }
}

/// The model of a decoded frame.
pub struct FrameModel {
    pub level: Option<Level>,
    pub stamp: Option<u64>,
    pub file_name: Seq<char>,
    pub file_line: u32,
    pub format_expression: Seq<char>,
    pub append_newline: bool,
    pub decoded_values: DecodedValuesModel,
}

/// A whole frame: header, optional stamp, print statement ids, and the
/// arguments of the print statement.
pub open spec fn parse_frame(st: StoresView, s: Seq<u8>) -> Parsed<FrameModel> {
    if s.len() < 1 {
        Parsed::Incomplete
    } else {
        match header_from_bits(s[0]) {
            None => Parsed::Failed(DecodeError::UnknownHeader(s[0])),
            Some(header) => {
                let stamp_len: nat = if header.stamp { 8 } else { 0 };
                if s.len() < 1 + stamp_len {
                    Parsed::Incomplete
                } else {
                    let stamp = if header.stamp {
                        Some(be_nat(s.subrange(1, 9)) as u64)
                    } else {
                        None
                    };
                    let r = s.skip(1 + stamp_len as int);
                    if r.len() < 2 {
                        Parsed::Incomplete
                    } else {
                        let c = be_nat(r.take(2)) as u16;
                        if !st.crates.contains_key(c) {
                            Parsed::Failed(DecodeError::UnknownCrate(c))
                        } else if r.len() < 4 {
                            Parsed::Incomplete
                        } else {
                            let id = be_nat(r.subrange(2, 4)) as u16;
                            let key = statement_key(c, id);
                            if !st.prints.contains_key(key) {
                                Parsed::Failed(
                                    DecodeError::UnknownStatement(
                                        id,
                                        StatementKind::Print,
                                        st.crates[c].name,
                                    ),
                                )
                            } else {
                                let ps = st.prints[key];
                                let fe = ps.format_expression;
                                match parse_dyn_elems(
                                    st,
                                    header.pointer_width,
                                    expected_arg_count(fe),
                                    r.skip(4),
                                ) {
                                    Parsed::Done(vs, k) => Parsed::Done(
                                        FrameModel {
                                            level: header.level,
                                            stamp,
                                            file_name: ps.location.file@,
                                            file_line: ps.location.line,
                                            format_expression: fe.expression@,
                                            append_newline: fe.append_newline,
                                            decoded_values: split_args(fe, vs),
                                        },
                                        1 + stamp_len + 4 + k,
                                    ),
                                    Parsed::Failed(e) => Parsed::Failed(e),
                                    Parsed::Incomplete => Parsed::Incomplete,
                                }
                            }
                        }
                    }
                }
            },
        }
    }
}

} // verus!
