use vstd::prelude::*;
use vstd::utf8::{decode_first_scalar, decode_utf8, valid_first_scalar, valid_utf8};

use crate::buffer::be_nat;
use crate::parse::{
    pad4, parse_dyn_elems, parse_enum_body, parse_signed, parse_unsigned, parse_fixed_elems, parse_fixed_list, parse_length,
    parse_struct, parse_type_structure, parse_value, parse_write_body, prepend, shift, wrap_list,
    Parsed,
};
use crate::errors::DecodeError;
use crate::parse::zip_names;
use crate::statements::{StructVariant, TypeStructure, TypeStructureVariant};
use crate::values::StructModel;
use crate::values::{TypeModel, TypeVariantModel};
use crate::parse_lemmas::{lemma_value_bounds, lemma_value_extend, lemma_value_take};
use crate::pointer_width::PointerWidth;
use crate::statements::StoresView;
use crate::type_hint::{lemma_type_hint_repr_roundtrip, type_hint_from_repr, type_hint_repr, TypeHint};
use crate::values::ValueModel;

verus! {

/// Values read from `d`, all of it, are the first values read from `d`
/// followed by anything: the rest is read from what follows.
#[verifier::rlimit(60)]
#[verifier::spinoff_prover]
pub proof fn lemma_dyn_split(
    st: StoresView,
    pw: PointerWidth,
    n: nat,
    j: nat,
    d: Seq<u8>,
    r: Seq<u8>,
    vs: Seq<ValueModel>,
)
    requires
        j <= n,
        parse_dyn_elems(st, pw, j, d) == Parsed::Done(vs, d.len()),
    ensures
        parse_dyn_elems(st, pw, n, d + r) == prepend(
            vs,
            d.len(),
            parse_dyn_elems(st, pw, (n - j) as nat, r),
        ),
    decreases j,
{
    reveal_with_fuel(parse_value, 1);
    reveal_with_fuel(parse_dyn_elems, 1);
    reveal_with_fuel(parse_fixed_elems, 1);
    reveal_with_fuel(parse_struct, 1);
    reveal_with_fuel(parse_type_structure, 1);
    if j == 0 {
        assert(d + r =~= r);
        assert(vs =~= Seq::<ValueModel>::empty());
        match parse_dyn_elems(st, pw, n, r) {
            Parsed::Done(ws, k) => {
                assert(vs + ws =~= ws);
            },
            _ => {},
        }
    } else {
        let h = type_hint_from_repr(d[0]).unwrap();
        let (v, k1) = match parse_value(st, pw, h, d.skip(1)) {
            Parsed::Done(v, k1) => (v, k1),
            _ => (arbitrary(), arbitrary()),
        };
        let d2 = d.skip(1 + k1 as int);
        let vs2 = parse_dyn_elems(st, pw, (j - 1) as nat, d2)->Done_0;
        lemma_value_extend(st, pw, h, d.skip(1), r);
        assert((d + r)[0] == d[0]);
        assert((d + r).skip(1) =~= d.skip(1) + r);
        assert((d + r).skip(1 + k1 as int) =~= d2 + r);
        lemma_dyn_split(st, pw, (n - 1) as nat, (j - 1) as nat, d2, r, vs2);
        assert(vs =~= seq![v] + vs2);
        match parse_dyn_elems(st, pw, (n - j) as nat, r) {
            Parsed::Done(ws, k) => {
                assert(seq![v] + (vs2 + ws) =~= vs + ws);
            },
            _ => {},
        }
    }
}

/// As `lemma_dyn_split`, for values of one hint.
#[verifier::rlimit(60)]
#[verifier::spinoff_prover]
pub proof fn lemma_fixed_split(
    st: StoresView,
    pw: PointerWidth,
    h: TypeHint,
    n: nat,
    j: nat,
    d: Seq<u8>,
    r: Seq<u8>,
    vs: Seq<ValueModel>,
)
    requires
        j <= n,
        parse_fixed_elems(st, pw, h, j, d) == Parsed::Done(vs, d.len()),
    ensures
        parse_fixed_elems(st, pw, h, n, d + r) == prepend(
            vs,
            d.len(),
            parse_fixed_elems(st, pw, h, (n - j) as nat, r),
        ),
    decreases j,
{
    reveal_with_fuel(parse_value, 1);
    reveal_with_fuel(parse_dyn_elems, 1);
    reveal_with_fuel(parse_fixed_elems, 1);
    reveal_with_fuel(parse_struct, 1);
    reveal_with_fuel(parse_type_structure, 1);
    if j == 0 {
        assert(d + r =~= r);
        assert(vs =~= Seq::<ValueModel>::empty());
        match parse_fixed_elems(st, pw, h, n, r) {
            Parsed::Done(ws, k) => {
                assert(vs + ws =~= ws);
            },
            _ => {},
        }
    } else {
        let (v, k1) = match parse_value(st, pw, h, d) {
            Parsed::Done(v, k1) => (v, k1),
            _ => (arbitrary(), arbitrary()),
        };
        let d2 = d.skip(k1 as int);
        let vs2 = parse_fixed_elems(st, pw, h, (j - 1) as nat, d2)->Done_0;
        lemma_value_extend(st, pw, h, d, r);
        assert((d + r).skip(k1 as int) =~= d2 + r);
        lemma_fixed_split(st, pw, h, (n - 1) as nat, (j - 1) as nat, d2, r, vs2);
        assert(vs =~= seq![v] + vs2);
        match parse_fixed_elems(st, pw, h, (n - j) as nat, r) {
            Parsed::Done(ws, k) => {
                assert(seq![v] + (vs2 + ws) =~= vs + ws);
            },
            _ => {},
        }
    }
}

/// Reading `m > 0` values that start with a hint byte: the first value is
/// read after the byte, the others after it.
pub proof fn lemma_dyn_step(st: StoresView, pw: PointerWidth, m: nat, h: TypeHint, x: Seq<u8>)
    requires
        m > 0,
    ensures
        parse_dyn_elems(st, pw, m, seq![type_hint_repr(h)] + x) == match parse_value(st, pw, h, x) {
            Parsed::Done(v, k) => prepend(
                seq![v],
                1 + k,
                parse_dyn_elems(st, pw, (m - 1) as nat, x.skip(k as int)),
            ),
            Parsed::Failed(e) => Parsed::Failed(e),
            Parsed::Incomplete => Parsed::Incomplete,
        },
{
    reveal_with_fuel(parse_value, 1);
    reveal_with_fuel(parse_dyn_elems, 1);
    reveal_with_fuel(parse_fixed_elems, 1);
    reveal_with_fuel(parse_struct, 1);
    reveal_with_fuel(parse_type_structure, 1);
    let s = seq![type_hint_repr(h)] + x;
    lemma_type_hint_repr_roundtrip(h, type_hint_repr(h));
    assert(s[0] == type_hint_repr(h));
    assert(s.skip(1) =~= x);
    lemma_value_bounds(st, pw, h, x);
    if let Parsed::Done(v, k) = parse_value(st, pw, h, x) {
        assert(s.skip(1 + k as int) =~= x.skip(k as int));
    }
}

/// As `lemma_dyn_step`, for values of one hint.
pub proof fn lemma_fixed_step(st: StoresView, pw: PointerWidth, m: nat, h: TypeHint, x: Seq<u8>)
    requires
        m > 0,
    ensures
        parse_fixed_elems(st, pw, h, m, x) == match parse_value(st, pw, h, x) {
            Parsed::Done(v, k) => prepend(
                seq![v],
                k,
                parse_fixed_elems(st, pw, h, (m - 1) as nat, x.skip(k as int)),
            ),
            Parsed::Failed(e) => Parsed::Failed(e),
            Parsed::Incomplete => Parsed::Incomplete,
        },
{
    reveal_with_fuel(parse_value, 1);
    reveal_with_fuel(parse_dyn_elems, 1);
    reveal_with_fuel(parse_fixed_elems, 1);
    reveal_with_fuel(parse_struct, 1);
    reveal_with_fuel(parse_type_structure, 1);
    lemma_value_bounds(st, pw, h, x);
}

/// One value read from exactly the bytes after its hint byte.
pub proof fn lemma_dyn_single(st: StoresView, pw: PointerWidth, h: TypeHint, e: Seq<u8>, v: ValueModel)
    requires
        parse_value(st, pw, h, e) == Parsed::Done(v, e.len()),
    ensures
        parse_dyn_elems(st, pw, 1, seq![type_hint_repr(h)] + e) == Parsed::Done(
            seq![v],
            1 + e.len(),
        ),
{
    reveal_with_fuel(parse_value, 1);
    reveal_with_fuel(parse_dyn_elems, 1);
    reveal_with_fuel(parse_fixed_elems, 1);
    reveal_with_fuel(parse_struct, 1);
    reveal_with_fuel(parse_type_structure, 1);
    lemma_dyn_step(st, pw, 1, h, e);
    assert(seq![v] + Seq::<ValueModel>::empty() =~= seq![v]);
}

/// A value read from the front of `x` is read from its first `k` bytes alone.
pub proof fn lemma_value_prefix(st: StoresView, pw: PointerWidth, h: TypeHint, x: Seq<u8>)
    ensures
        parse_value(st, pw, h, x) matches Parsed::Done(v, k) ==> k <= x.len() && parse_value(
            st,
            pw,
            h,
            x.take(k as int),
        ) == Parsed::Done(v, x.take(k as int).len()),
{
    reveal_with_fuel(parse_value, 1);
    reveal_with_fuel(parse_dyn_elems, 1);
    reveal_with_fuel(parse_fixed_elems, 1);
    reveal_with_fuel(parse_struct, 1);
    reveal_with_fuel(parse_type_structure, 1);
    lemma_value_bounds(st, pw, h, x);
    lemma_value_take(st, pw, h, x);
}

/// Two steps in a row, as one.
pub proof fn lemma_prepend_prepend(
    vs1: Seq<ValueModel>,
    d1: nat,
    vs2: Seq<ValueModel>,
    d2: nat,
    r: Parsed<Seq<ValueModel>>,
)
    ensures
        prepend(vs1, d1, prepend(vs2, d2, r)) == prepend(vs1 + vs2, d1 + d2, r),
{
    reveal_with_fuel(parse_value, 1);
    reveal_with_fuel(parse_dyn_elems, 1);
    reveal_with_fuel(parse_fixed_elems, 1);
    reveal_with_fuel(parse_struct, 1);
    reveal_with_fuel(parse_type_structure, 1);
    if let Parsed::Done(ws, k) = r {
        assert(vs1 + (vs2 + ws) =~= (vs1 + vs2) + ws);
    }
}

/// A tuple: its one-byte length, then its values.
pub proof fn lemma_tuple_unfold(st: StoresView, pw: PointerWidth, s: Seq<u8>)
    ensures
        parse_value(st, pw, TypeHint::Tuple, s) == if s.len() < 1 {
            Parsed::Incomplete
        } else {
            wrap_list(parse_dyn_elems(st, pw, s[0] as nat, s.skip(1)), true, 1)
        },
{
    reveal_with_fuel(parse_value, 1);
    reveal_with_fuel(parse_dyn_elems, 1);
    reveal_with_fuel(parse_fixed_elems, 1);
    reveal_with_fuel(parse_struct, 1);
    reveal_with_fuel(parse_type_structure, 1);
}

/// A list of values that each carry their hint: its length, then its values.
pub proof fn lemma_dyn_list_unfold(st: StoresView, pw: PointerWidth, s: Seq<u8>)
    ensures
        parse_value(st, pw, TypeHint::DynList, s) == match parse_length(pw, s) {
            Parsed::Done(n, w) => wrap_list(parse_dyn_elems(st, pw, n, s.skip(w as int)), false, w),
            Parsed::Failed(e) => Parsed::Failed(e),
            Parsed::Incomplete => Parsed::Incomplete,
        },
{
    reveal_with_fuel(parse_value, 1);
    reveal_with_fuel(parse_dyn_elems, 1);
    reveal_with_fuel(parse_fixed_elems, 1);
    reveal_with_fuel(parse_struct, 1);
    reveal_with_fuel(parse_type_structure, 1);
}

/// A list of values of one hint: its length, then its body.
pub proof fn lemma_list_unfold(st: StoresView, pw: PointerWidth, s: Seq<u8>)
    ensures
        parse_value(st, pw, TypeHint::List, s) == match parse_length(pw, s) {
            Parsed::Done(n, w) => wrap_list(parse_fixed_list(st, pw, n, s.skip(w as int)), false, w),
            Parsed::Failed(e) => Parsed::Failed(e),
            Parsed::Incomplete => Parsed::Incomplete,
        },
{
    reveal_with_fuel(parse_value, 1);
    reveal_with_fuel(parse_dyn_elems, 1);
    reveal_with_fuel(parse_fixed_elems, 1);
    reveal_with_fuel(parse_struct, 1);
    reveal_with_fuel(parse_type_structure, 1);
    if let Parsed::Done(n, w) = parse_length(pw, s) {
        let t = s.skip(w as int);
        if n != 0 && s.len() >= w + 1 {
            assert(t[0] == s[w as int]);
            assert(t.skip(1) =~= s.skip((w + 1) as int));
            if let Some(h) = type_hint_from_repr(s[w as int]) {
                if let Parsed::Done(vs, k) = parse_fixed_elems(st, pw, h, n, t.skip(1)) {
                    assert(Seq::<ValueModel>::empty() + vs =~= vs);
                }
            }
        }
    }
}

/// A write id: the crate id, then what its statement id names.
pub proof fn lemma_write_id_unfold(st: StoresView, pw: PointerWidth, s: Seq<u8>)
    ensures
        parse_value(st, pw, TypeHint::WriteId, s) == if s.len() < 2 {
            Parsed::Incomplete
        } else if !st.crates.contains_key(be_nat(s.take(2)) as u16) {
            Parsed::Failed(DecodeError::UnknownCrate(be_nat(s.take(2)) as u16))
        } else {
            shift(parse_write_body(st, pw, be_nat(s.take(2)) as u16, s.skip(2)), 2)
        },
{
    reveal_with_fuel(parse_value, 1);
    reveal_with_fuel(parse_dyn_elems, 1);
    reveal_with_fuel(parse_fixed_elems, 1);
    reveal_with_fuel(parse_struct, 1);
    reveal_with_fuel(parse_type_structure, 1);
    let t = s.skip(2);
    if s.len() >= 4 {
        assert(t.take(2) =~= s.subrange(2, 4));
        assert(t.skip(2) =~= s.skip(4));
    }
}

/// A value of an enum type: the variant, read as `parse_enum_body` reads it.
pub proof fn lemma_enum_unfold(
    st: StoresView,
    pw: PointerWidth,
    ts: TypeStructure,
    variants: Seq<(String, crate::statements::StructVariant)>,
    s: Seq<u8>,
)
    requires
        ts.variant matches TypeStructureVariant::Enum(vs) && vs@ == variants,
    ensures
        parse_type_structure(st, pw, ts, s) == match parse_enum_body(st, pw, variants, s) {
            Parsed::Done(e, k) => Parsed::Done(
                TypeModel { name: ts.name@, variant: TypeVariantModel::Enum(e.0, e.1) },
                k,
            ),
            Parsed::Failed(e) => Parsed::Failed(e),
            Parsed::Incomplete => Parsed::Incomplete,
        },
{
    reveal_with_fuel(parse_value, 1);
    reveal_with_fuel(parse_dyn_elems, 1);
    reveal_with_fuel(parse_fixed_elems, 1);
    reveal_with_fuel(parse_struct, 1);
    reveal_with_fuel(parse_type_structure, 1);
}

/// No values are read from no bytes or from any.
pub proof fn lemma_elems_zero(st: StoresView, pw: PointerWidth, h: TypeHint, s: Seq<u8>)
    ensures
        parse_dyn_elems(st, pw, 0, s) == Parsed::Done(Seq::<ValueModel>::empty(), 0),
        parse_fixed_elems(st, pw, h, 0, s) == Parsed::Done(Seq::<ValueModel>::empty(), 0),
{
    reveal_with_fuel(parse_value, 1);
    reveal_with_fuel(parse_dyn_elems, 1);
    reveal_with_fuel(parse_fixed_elems, 1);
    reveal_with_fuel(parse_struct, 1);
    reveal_with_fuel(parse_type_structure, 1);
}

/// Values that each carry their hint: with no byte there, more are needed;
/// a first byte that stands for no hint is an error.
pub proof fn lemma_dyn_head(st: StoresView, pw: PointerWidth, m: nat, s: Seq<u8>)
    requires
        m > 0,
    ensures
        s.len() == 0 ==> parse_dyn_elems(st, pw, m, s) is Incomplete,
        s.len() > 0 && type_hint_from_repr(s[0]) is None ==> parse_dyn_elems(st, pw, m, s)
            == Parsed::<Seq<ValueModel>>::Failed(DecodeError::UnknownTypeHint(s[0])),
{
    reveal_with_fuel(parse_value, 1);
    reveal_with_fuel(parse_dyn_elems, 1);
    reveal_with_fuel(parse_fixed_elems, 1);
    reveal_with_fuel(parse_struct, 1);
    reveal_with_fuel(parse_type_structure, 1);
}

/// The fields of a struct of the given shape.
pub proof fn lemma_struct_unfold(st: StoresView, pw: PointerWidth, shape: StructVariant, s: Seq<u8>)
    ensures
        parse_struct(st, pw, shape, s) == match shape {
            StructVariant::Unit => Parsed::Done(StructModel::Unit, 0),
            StructVariant::Tuple(n) => match parse_dyn_elems(st, pw, n as nat, s) {
                Parsed::Done(vs, k) => Parsed::Done(StructModel::Tuple(vs), k),
                Parsed::Failed(e) => Parsed::Failed(e),
                Parsed::Incomplete => Parsed::Incomplete,
            },
            StructVariant::Named(names) => match parse_dyn_elems(st, pw, names@.len(), s) {
                Parsed::Done(vs, k) => Parsed::Done(StructModel::Named(zip_names(names@, vs)), k),
                Parsed::Failed(e) => Parsed::Failed(e),
                Parsed::Incomplete => Parsed::Incomplete,
            },
        },
{
    reveal_with_fuel(parse_value, 1);
    reveal_with_fuel(parse_dyn_elems, 1);
    reveal_with_fuel(parse_fixed_elems, 1);
    reveal_with_fuel(parse_struct, 1);
    reveal_with_fuel(parse_type_structure, 1);
}

/// A value of a struct type: its fields.
pub proof fn lemma_type_struct_unfold(
    st: StoresView,
    pw: PointerWidth,
    ts: TypeStructure,
    shape: StructVariant,
    s: Seq<u8>,
)
    requires
        ts.variant == TypeStructureVariant::Struct(shape),
    ensures
        parse_type_structure(st, pw, ts, s) == match parse_struct(st, pw, shape, s) {
            Parsed::Done(m, k) => Parsed::Done(
                TypeModel { name: ts.name@, variant: TypeVariantModel::Struct(m) },
                k,
            ),
            Parsed::Failed(e) => Parsed::Failed(e),
            Parsed::Incomplete => Parsed::Incomplete,
        },
{
    reveal_with_fuel(parse_value, 1);
    reveal_with_fuel(parse_dyn_elems, 1);
    reveal_with_fuel(parse_fixed_elems, 1);
    reveal_with_fuel(parse_struct, 1);
    reveal_with_fuel(parse_type_structure, 1);
}

/// The width of a value of a hint read as an unsigned number.
pub open spec fn unsigned_width(pw: PointerWidth, hint: TypeHint) -> nat {
    match hint {
        TypeHint::U8 => 1,
        TypeHint::U16 => 2,
        TypeHint::U32 | TypeHint::F32 => 4,
        TypeHint::U64 | TypeHint::F64 => 8,
        TypeHint::U128 => 16,
        _ => pw.spec_size(),
    }
}

/// The value of a hint read as an unsigned number `n`.
pub open spec fn unsigned_model(hint: TypeHint, n: nat) -> ValueModel {
    match hint {
        TypeHint::U8 => ValueModel::U8(n as u8),
        TypeHint::U16 => ValueModel::U16(n as u16),
        TypeHint::U32 => ValueModel::U32(n as u32),
        TypeHint::U64 => ValueModel::U64(n as u64),
        TypeHint::U128 => ValueModel::U128(n as u128),
        TypeHint::F32 => ValueModel::F32(n as u32),
        TypeHint::F64 => ValueModel::F64(n as u64),
        _ => ValueModel::Usize(n as u64),
    }
}

/// The width of a value of a hint read as a signed number.
pub open spec fn signed_width(pw: PointerWidth, hint: TypeHint) -> nat {
    match hint {
        TypeHint::I8 => 1,
        TypeHint::I16 => 2,
        TypeHint::I32 => 4,
        TypeHint::I64 => 8,
        TypeHint::I128 => 16,
        _ => pw.spec_size(),
    }
}

/// The value of a hint read as a signed number `n`.
pub open spec fn signed_model(hint: TypeHint, n: int) -> ValueModel {
    match hint {
        TypeHint::I8 => ValueModel::I8(n as i8),
        TypeHint::I16 => ValueModel::I16(n as i16),
        TypeHint::I32 => ValueModel::I32(n as i32),
        TypeHint::I64 => ValueModel::I64(n as i64),
        TypeHint::I128 => ValueModel::I128(n as i128),
        _ => ValueModel::Isize(n as i64),
    }
}

/// Values read as unsigned numbers of a fixed width.
pub proof fn lemma_unsigned_unfold(st: StoresView, pw: PointerWidth, hint: TypeHint, s: Seq<u8>)
    requires
        hint is U8 || hint is U16 || hint is U32 || hint is U64 || hint is U128 || hint is F32
            || hint is F64 || hint is Usize,
    ensures
        parse_value(st, pw, hint, s) == match parse_unsigned(s, unsigned_width(pw, hint)) {
            Parsed::Done(n, k) => Parsed::Done(unsigned_model(hint, n), k),
            _ => Parsed::Incomplete,
        },
{
    reveal_with_fuel(parse_value, 1);
}

/// Values read as signed numbers of a fixed width.
pub proof fn lemma_signed_unfold(st: StoresView, pw: PointerWidth, hint: TypeHint, s: Seq<u8>)
    requires
        hint is I8 || hint is I16 || hint is I32 || hint is I64 || hint is I128 || hint is Isize,
    ensures
        parse_value(st, pw, hint, s) == match parse_signed(s, signed_width(pw, hint)) {
            Parsed::Done(n, k) => Parsed::Done(signed_model(hint, n), k),
            _ => Parsed::Incomplete,
        },
{
    reveal_with_fuel(parse_value, 1);
}

/// A boolean: one byte, one or zero.
pub proof fn lemma_boolean_unfold(st: StoresView, pw: PointerWidth, s: Seq<u8>)
    ensures
        parse_value(st, pw, TypeHint::Boolean, s) == if s.len() < 1 {
            Parsed::Incomplete
        } else if s[0] == 1 {
            Parsed::Done(ValueModel::Boolean(true), 1)
        } else if s[0] == 0 {
            Parsed::Done(ValueModel::Boolean(false), 1)
        } else {
            Parsed::Failed(DecodeError::InvalidValueBytes(TypeHint::Boolean, s[0]))
        },
{
    reveal_with_fuel(parse_value, 1);
}

/// A character: its one-byte length, then its UTF-8 bytes.
pub proof fn lemma_char_unfold(st: StoresView, pw: PointerWidth, s: Seq<u8>)
    ensures
        parse_value(st, pw, TypeHint::Char, s) == if s.len() < 1 {
            Parsed::Incomplete
        } else if s.len() < 1 + s[0] {
            Parsed::Incomplete
        } else if s[0] < 1 || s[0] > 4 {
            Parsed::Failed(DecodeError::InvalidCharLength(s[0]))
        } else {
            let bytes = pad4(s.subrange(1, 1 + s[0] as int));
            if valid_first_scalar(bytes) {
                Parsed::Done(ValueModel::Char(decode_first_scalar(bytes) as char), 1 + s[0] as nat)
            } else {
                Parsed::Failed(DecodeError::InvalidUtf8Char)
            }
        },
{
    reveal_with_fuel(parse_value, 1);
}

/// A string slice: its length, then its UTF-8 bytes.
pub proof fn lemma_string_unfold(st: StoresView, pw: PointerWidth, s: Seq<u8>)
    ensures
        parse_value(st, pw, TypeHint::StringSlice, s) == match parse_length(pw, s) {
            Parsed::Done(n, w) => if s.len() < w + n {
                Parsed::Incomplete
            } else {
                let bytes = s.subrange(w as int, (w + n) as int);
                if valid_utf8(bytes) {
                    Parsed::Done(ValueModel::String(decode_utf8(bytes)), w + n)
                } else {
                    Parsed::Failed(DecodeError::InvalidStringBytes)
                }
            },
            Parsed::Failed(e) => Parsed::Failed(e),
            Parsed::Incomplete => Parsed::Incomplete,
        },
{
    reveal_with_fuel(parse_value, 1);
}

} // verus!
