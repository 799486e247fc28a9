use vstd::prelude::*;

use crate::parse::{
    parse_dyn_elems, parse_fixed_elems, parse_struct, parse_type_structure, parse_value, Parsed,
};
use crate::pointer_width::PointerWidth;
use crate::statements::{StoresView, StructVariant, TypeStructure, TypeStructureVariant, WriteStatement};
use crate::type_hint::{type_hint_from_repr, TypeHint};

verus! {

/// A value read from the front of a sequence takes at least one byte and no
/// more than there are.
pub proof fn lemma_value_bounds(st: StoresView, pw: PointerWidth, hint: TypeHint, s: Seq<u8>)
    ensures
        parse_value(st, pw, hint, s) matches Parsed::Done(v, k) ==> 1 <= k <= s.len(),
    decreases s.len(), 0nat, 0nat,
{
    reveal_with_fuel(parse_value, 1);
    reveal_with_fuel(parse_dyn_elems, 1);
    reveal_with_fuel(parse_fixed_elems, 1);
    reveal_with_fuel(parse_struct, 1);
    reveal_with_fuel(parse_type_structure, 1);
    match hint {
        TypeHint::Tuple => {
            if s.len() >= 1 {
                lemma_dyn_bounds(st, pw, s[0] as nat, s.skip(1));
            }
        },
        TypeHint::DynList => {
            let w = pw.spec_size();
            if s.len() >= w {
                let n = crate::buffer::be_nat(s.take(w as int));
                lemma_dyn_bounds(st, pw, n, s.skip(w as int));
            }
        },
        TypeHint::List => {
            let w = pw.spec_size();
            if s.len() >= w + 1 {
                let n = crate::buffer::be_nat(s.take(w as int));
                if let Some(h) = type_hint_from_repr(s[w as int]) {
                    lemma_fixed_bounds(st, pw, h, n, s.skip((w + 1) as int));
                }
            }
        },
        TypeHint::WriteId => {
            if s.len() >= 4 {
                let c = crate::buffer::be_nat(s.take(2)) as u16;
                let id = crate::buffer::be_nat(s.subrange(2, 4)) as u16;
                let key = crate::statements::statement_key(c, id);
                if st.writes.contains_key(key) {
                    match st.writes[key] {
                        WriteStatement::FormatExpression(fe) => {
                            lemma_dyn_bounds(
                                st,
                                pw,
                                crate::statements::expected_arg_count(fe),
                                s.skip(4),
                            );
                        },
                        WriteStatement::TypeStructure(ts) => {
                            lemma_type_bounds(st, pw, ts, s.skip(4));
                        },
                    }
                }
            }
        },
        _ => {},
    }
}

/// Values read one after the other take no more bytes than there are, and
/// as many are read as asked for.
pub proof fn lemma_dyn_bounds(st: StoresView, pw: PointerWidth, n: nat, s: Seq<u8>)
    ensures
        parse_dyn_elems(st, pw, n, s) matches Parsed::Done(vs, k) ==> k <= s.len() && vs.len() == n,
    decreases s.len(), 1nat, n,
{
    reveal_with_fuel(parse_value, 1);
    reveal_with_fuel(parse_dyn_elems, 1);
    reveal_with_fuel(parse_fixed_elems, 1);
    reveal_with_fuel(parse_struct, 1);
    reveal_with_fuel(parse_type_structure, 1);
    if n > 0 && s.len() >= 1 {
        if let Some(h) = type_hint_from_repr(s[0]) {
            lemma_value_bounds(st, pw, h, s.skip(1));
            if let Parsed::Done(v, k) = parse_value(st, pw, h, s.skip(1)) {
                if k < s.len() {
                    lemma_dyn_bounds(st, pw, (n - 1) as nat, s.skip(1 + k as int));
                }
            }
        }
    }
}

/// As `lemma_dyn_bounds`, for values of one hint.
pub proof fn lemma_fixed_bounds(st: StoresView, pw: PointerWidth, hint: TypeHint, n: nat, s: Seq<u8>)
    ensures
        parse_fixed_elems(st, pw, hint, n, s) matches Parsed::Done(vs, k) ==> k <= s.len() && vs.len()
            == n,
    decreases s.len(), 1nat, n,
{
    reveal_with_fuel(parse_value, 1);
    reveal_with_fuel(parse_dyn_elems, 1);
    reveal_with_fuel(parse_fixed_elems, 1);
    reveal_with_fuel(parse_struct, 1);
    reveal_with_fuel(parse_type_structure, 1);
    if n > 0 {
        lemma_value_bounds(st, pw, hint, s);
        if let Parsed::Done(v, k) = parse_value(st, pw, hint, s) {
            if 0 < k <= s.len() {
                lemma_fixed_bounds(st, pw, hint, (n - 1) as nat, s.skip(k as int));
            }
        }
    }
}

/// The fields of a struct take no more bytes than there are.
pub proof fn lemma_struct_bounds(st: StoresView, pw: PointerWidth, shape: StructVariant, s: Seq<u8>)
    ensures
        parse_struct(st, pw, shape, s) matches Parsed::Done(m, k) ==> k <= s.len(),
    decreases s.len(), 2nat, 0nat,
{
    reveal_with_fuel(parse_value, 1);
    reveal_with_fuel(parse_dyn_elems, 1);
    reveal_with_fuel(parse_fixed_elems, 1);
    reveal_with_fuel(parse_struct, 1);
    reveal_with_fuel(parse_type_structure, 1);
    match shape {
        StructVariant::Unit => {},
        StructVariant::Tuple(n) => lemma_dyn_bounds(st, pw, n as nat, s),
        StructVariant::Named(names) => lemma_dyn_bounds(st, pw, names@.len(), s),
    }
}

/// A value of a registered type takes no more bytes than there are.
pub proof fn lemma_type_bounds(st: StoresView, pw: PointerWidth, ts: TypeStructure, s: Seq<u8>)
    ensures
        parse_type_structure(st, pw, ts, s) matches Parsed::Done(m, k) ==> k <= s.len(),
    decreases s.len(), 3nat, 0nat,
{
    reveal_with_fuel(parse_value, 1);
    reveal_with_fuel(parse_dyn_elems, 1);
    reveal_with_fuel(parse_fixed_elems, 1);
    reveal_with_fuel(parse_struct, 1);
    reveal_with_fuel(parse_type_structure, 1);
    match ts.variant {
        TypeStructureVariant::Struct(shape) => lemma_struct_bounds(st, pw, shape, s),
        TypeStructureVariant::Enum(variants) => {
            if s.len() >= 1 && s[0] < variants@.len() {
                lemma_struct_bounds(st, pw, variants@[s[0] as int].1, s.skip(1));
            }
        },
    }
}

} // verus!

verus! {

/// Facts about the front of a concatenation.
pub proof fn lemma_concat_front(s: Seq<u8>, t: Seq<u8>, k: int)
    requires
        0 <= k <= s.len(),
    ensures
        (s + t).take(k) == s.take(k),
        (s + t).skip(k) == s.skip(k) + t,
        forall|i: int| 0 <= i < s.len() ==> (s + t)[i] == s[i],
        forall|a: int, b: int| 0 <= a <= b <= s.len() ==> (s + t).subrange(a, b) == s.subrange(a, b),
{
    reveal_with_fuel(parse_value, 1);
    reveal_with_fuel(parse_dyn_elems, 1);
    reveal_with_fuel(parse_fixed_elems, 1);
    reveal_with_fuel(parse_struct, 1);
    reveal_with_fuel(parse_type_structure, 1);
    assert((s + t).take(k) =~= s.take(k));
    assert((s + t).skip(k) =~= s.skip(k) + t);
    assert forall|a: int, b: int| 0 <= a <= b <= s.len() implies (s + t).subrange(a, b) == s.subrange(
        a,
        b,
    ) by {
        assert((s + t).subrange(a, b) =~= s.subrange(a, b));
    }
}

/// Once a value is read, or found invalid, more bytes after it change nothing.
pub proof fn lemma_value_extend(st: StoresView, pw: PointerWidth, hint: TypeHint, s: Seq<u8>, t: Seq<u8>)
    ensures
        !(parse_value(st, pw, hint, s) is Incomplete) ==> parse_value(st, pw, hint, s + t)
            == parse_value(st, pw, hint, s),
    decreases s.len(), 0nat, 0nat,
{
    reveal_with_fuel(parse_value, 1);
    reveal_with_fuel(parse_dyn_elems, 1);
    reveal_with_fuel(parse_fixed_elems, 1);
    reveal_with_fuel(parse_struct, 1);
    reveal_with_fuel(parse_type_structure, 1);
    let r = parse_value(st, pw, hint, s);
    if r is Incomplete {
        return;
    }
    lemma_value_bounds(st, pw, hint, s);
    let w = pw.spec_size();
    match hint {
        TypeHint::U8 => lemma_concat_front(s, t, 1),
        TypeHint::U16 => lemma_concat_front(s, t, 2),
        TypeHint::U32 => lemma_concat_front(s, t, 4),
        TypeHint::U64 => lemma_concat_front(s, t, 8),
        TypeHint::U128 => lemma_concat_front(s, t, 16),
        TypeHint::I8 => lemma_concat_front(s, t, 1),
        TypeHint::I16 => lemma_concat_front(s, t, 2),
        TypeHint::I32 => lemma_concat_front(s, t, 4),
        TypeHint::I64 => lemma_concat_front(s, t, 8),
        TypeHint::I128 => lemma_concat_front(s, t, 16),
        TypeHint::F32 => lemma_concat_front(s, t, 4),
        TypeHint::F64 => lemma_concat_front(s, t, 8),
        TypeHint::Usize => lemma_concat_front(s, t, w as int),
        TypeHint::Isize => lemma_concat_front(s, t, w as int),
        TypeHint::Boolean => lemma_concat_front(s, t, 1),
        TypeHint::Char => lemma_concat_front(s, t, 1),
        TypeHint::StringSlice => lemma_concat_front(s, t, w as int),
        TypeHint::Tuple => {
            lemma_concat_front(s, t, 1);
            lemma_dyn_extend(st, pw, s[0] as nat, s.skip(1), t);
        },
        TypeHint::DynList => {
            lemma_concat_front(s, t, w as int);
            let n = crate::buffer::be_nat(s.take(w as int));
            lemma_dyn_extend(st, pw, n, s.skip(w as int), t);
        },
        TypeHint::List => {
            lemma_concat_front(s, t, w as int);
            let n = crate::buffer::be_nat(s.take(w as int));
            if n != 0 && s.len() >= w + 1 {
                lemma_concat_front(s, t, (w + 1) as int);
                if let Some(h) = type_hint_from_repr(s[w as int]) {
                    lemma_fixed_extend(st, pw, h, n, s.skip((w + 1) as int), t);
                }
            }
        },
        TypeHint::WriteId => {
            lemma_concat_front(s, t, 2);
            if s.len() >= 4 {
                lemma_concat_front(s, t, 4);
                let c = crate::buffer::be_nat(s.take(2)) as u16;
                let id = crate::buffer::be_nat(s.subrange(2, 4)) as u16;
                let key = crate::statements::statement_key(c, id);
                if st.writes.contains_key(key) {
                    match st.writes[key] {
                        WriteStatement::FormatExpression(fe) => {
                            lemma_dyn_extend(
                                st,
                                pw,
                                crate::statements::expected_arg_count(fe),
                                s.skip(4),
                                t,
                            );
                        },
                        WriteStatement::TypeStructure(ts) => {
                            lemma_type_extend(st, pw, ts, s.skip(4), t);
                        },
                    }
                }
            }
        },
    }
}

/// As `lemma_value_extend`, for values read one after the other.
pub proof fn lemma_dyn_extend(st: StoresView, pw: PointerWidth, n: nat, s: Seq<u8>, t: Seq<u8>)
    ensures
        !(parse_dyn_elems(st, pw, n, s) is Incomplete) ==> parse_dyn_elems(st, pw, n, s + t)
            == parse_dyn_elems(st, pw, n, s),
    decreases s.len(), 1nat, n,
{
    reveal_with_fuel(parse_value, 1);
    reveal_with_fuel(parse_dyn_elems, 1);
    reveal_with_fuel(parse_fixed_elems, 1);
    reveal_with_fuel(parse_struct, 1);
    reveal_with_fuel(parse_type_structure, 1);
    if n == 0 || s.len() < 1 || parse_dyn_elems(st, pw, n, s) is Incomplete {
        return;
    }
    lemma_concat_front(s, t, 1);
    if let Some(h) = type_hint_from_repr(s[0]) {
        lemma_value_extend(st, pw, h, s.skip(1), t);
        lemma_value_bounds(st, pw, h, s.skip(1));
        if let Parsed::Done(v, k) = parse_value(st, pw, h, s.skip(1)) {
            lemma_concat_front(s, t, 1 + k as int);
            lemma_dyn_extend(st, pw, (n - 1) as nat, s.skip(1 + k as int), t);
        }
    }
}

/// As `lemma_value_extend`, for values of one hint.
pub proof fn lemma_fixed_extend(
    st: StoresView,
    pw: PointerWidth,
    hint: TypeHint,
    n: nat,
    s: Seq<u8>,
    t: Seq<u8>,
)
    ensures
        !(parse_fixed_elems(st, pw, hint, n, s) is Incomplete) ==> parse_fixed_elems(
            st,
            pw,
            hint,
            n,
            s + t,
        ) == parse_fixed_elems(st, pw, hint, n, s),
    decreases s.len(), 1nat, n,
{
    reveal_with_fuel(parse_value, 1);
    reveal_with_fuel(parse_dyn_elems, 1);
    reveal_with_fuel(parse_fixed_elems, 1);
    reveal_with_fuel(parse_struct, 1);
    reveal_with_fuel(parse_type_structure, 1);
    if n == 0 || parse_fixed_elems(st, pw, hint, n, s) is Incomplete {
        return;
    }
    lemma_value_extend(st, pw, hint, s, t);
    lemma_value_bounds(st, pw, hint, s);
    if let Parsed::Done(v, k) = parse_value(st, pw, hint, s) {
        lemma_concat_front(s, t, k as int);
        lemma_fixed_extend(st, pw, hint, (n - 1) as nat, s.skip(k as int), t);
    }
}

/// As `lemma_value_extend`, for the fields of a struct.
pub proof fn lemma_struct_extend(
    st: StoresView,
    pw: PointerWidth,
    shape: StructVariant,
    s: Seq<u8>,
    t: Seq<u8>,
)
    ensures
        !(parse_struct(st, pw, shape, s) is Incomplete) ==> parse_struct(st, pw, shape, s + t)
            == parse_struct(st, pw, shape, s),
    decreases s.len(), 2nat, 0nat,
{
    reveal_with_fuel(parse_value, 1);
    reveal_with_fuel(parse_dyn_elems, 1);
    reveal_with_fuel(parse_fixed_elems, 1);
    reveal_with_fuel(parse_struct, 1);
    reveal_with_fuel(parse_type_structure, 1);
    match shape {
        StructVariant::Unit => {},
        StructVariant::Tuple(n) => lemma_dyn_extend(st, pw, n as nat, s, t),
        StructVariant::Named(names) => lemma_dyn_extend(st, pw, names@.len(), s, t),
    }
}

/// As `lemma_value_extend`, for a value of a registered type.
pub proof fn lemma_type_extend(
    st: StoresView,
    pw: PointerWidth,
    ts: TypeStructure,
    s: Seq<u8>,
    t: Seq<u8>,
)
    ensures
        !(parse_type_structure(st, pw, ts, s) is Incomplete) ==> parse_type_structure(
            st,
            pw,
            ts,
            s + t,
        ) == parse_type_structure(st, pw, ts, s),
    decreases s.len(), 3nat, 0nat,
{
    reveal_with_fuel(parse_value, 1);
    reveal_with_fuel(parse_dyn_elems, 1);
    reveal_with_fuel(parse_fixed_elems, 1);
    reveal_with_fuel(parse_struct, 1);
    reveal_with_fuel(parse_type_structure, 1);
    match ts.variant {
        TypeStructureVariant::Struct(shape) => lemma_struct_extend(st, pw, shape, s, t),
        TypeStructureVariant::Enum(variants) => {
            if s.len() >= 1 {
                lemma_concat_front(s, t, 1);
                if s[0] < variants@.len() {
                    lemma_struct_extend(st, pw, variants@[s[0] as int].1, s.skip(1), t);
                }
            }
        },
    }
}

} // verus!

verus! {

/// Facts about the front of a prefix.
pub proof fn lemma_take_front(s: Seq<u8>, k: int, j: int)
    requires
        0 <= j <= k <= s.len(),
    ensures
        s.take(k).take(j) == s.take(j),
        s.take(k).skip(j) == s.skip(j).take(k - j),
        forall|i: int| 0 <= i < k ==> s.take(k)[i] == s[i],
        forall|a: int, b: int| 0 <= a <= b <= k ==> s.take(k).subrange(a, b) == s.subrange(a, b),
{
    reveal_with_fuel(parse_value, 1);
    reveal_with_fuel(parse_dyn_elems, 1);
    reveal_with_fuel(parse_fixed_elems, 1);
    reveal_with_fuel(parse_struct, 1);
    reveal_with_fuel(parse_type_structure, 1);
    assert(s.take(k).take(j) =~= s.take(j));
    assert(s.take(k).skip(j) =~= s.skip(j).take(k - j));
    assert forall|a: int, b: int| 0 <= a <= b <= k implies s.take(k).subrange(a, b) == s.subrange(
        a,
        b,
    ) by {
        assert(s.take(k).subrange(a, b) =~= s.subrange(a, b));
    }
}

/// A value that is read takes only the bytes it was read from: those bytes
/// alone read the same.
pub proof fn lemma_value_take(st: StoresView, pw: PointerWidth, hint: TypeHint, s: Seq<u8>)
    ensures
        parse_value(st, pw, hint, s) matches Parsed::Done(v, k) ==> parse_value(
            st,
            pw,
            hint,
            s.take(k as int),
        ) == parse_value(st, pw, hint, s),
    decreases s.len(), 0nat, 0nat,
{
    reveal_with_fuel(parse_value, 1);
    reveal_with_fuel(parse_dyn_elems, 1);
    reveal_with_fuel(parse_fixed_elems, 1);
    reveal_with_fuel(parse_struct, 1);
    reveal_with_fuel(parse_type_structure, 1);
    lemma_value_bounds(st, pw, hint, s);
    if let Parsed::Done(v, k) = parse_value(st, pw, hint, s) {
        let k = k as int;
        let w = pw.spec_size() as int;
        match hint {
            TypeHint::U8 | TypeHint::I8 | TypeHint::Boolean => lemma_take_front(s, k, 1),
            TypeHint::U16 | TypeHint::I16 => lemma_take_front(s, k, 2),
            TypeHint::U32 | TypeHint::I32 | TypeHint::F32 => lemma_take_front(s, k, 4),
            TypeHint::U64 | TypeHint::I64 | TypeHint::F64 => lemma_take_front(s, k, 8),
            TypeHint::U128 | TypeHint::I128 => lemma_take_front(s, k, 16),
            TypeHint::Usize | TypeHint::Isize | TypeHint::StringSlice => lemma_take_front(s, k, w),
            TypeHint::Char => lemma_take_front(s, k, 1),
            TypeHint::Tuple => {
                lemma_take_front(s, k, 1);
                lemma_dyn_take(st, pw, s[0] as nat, s.skip(1));
            },
            TypeHint::DynList => {
                lemma_take_front(s, k, w);
                let n = crate::buffer::be_nat(s.take(w));
                lemma_dyn_take(st, pw, n, s.skip(w));
            },
            TypeHint::List => {
                lemma_take_front(s, k, w);
                let n = crate::buffer::be_nat(s.take(w));
                if n != 0 {
                    lemma_take_front(s, k, w + 1);
                    if let Some(h) = type_hint_from_repr(s[w]) {
                        lemma_fixed_take(st, pw, h, n, s.skip(w + 1));
                    }
                }
            },
            TypeHint::WriteId => {
                lemma_take_front(s, k, 2);
                lemma_take_front(s, k, 4);
                let c = crate::buffer::be_nat(s.take(2)) as u16;
                let id = crate::buffer::be_nat(s.subrange(2, 4)) as u16;
                let key = crate::statements::statement_key(c, id);
                match st.writes[key] {
                    WriteStatement::FormatExpression(fe) => {
                        lemma_dyn_take(st, pw, crate::statements::expected_arg_count(fe), s.skip(4));
                    },
                    WriteStatement::TypeStructure(ts) => {
                        lemma_type_take(st, pw, ts, s.skip(4));
                    },
                }
            },
        }
    }
}

/// As `lemma_value_take`, for values read one after the other.
pub proof fn lemma_dyn_take(st: StoresView, pw: PointerWidth, n: nat, s: Seq<u8>)
    ensures
        parse_dyn_elems(st, pw, n, s) matches Parsed::Done(vs, k) ==> parse_dyn_elems(
            st,
            pw,
            n,
            s.take(k as int),
        ) == parse_dyn_elems(st, pw, n, s),
    decreases s.len(), 1nat, n,
{
    reveal_with_fuel(parse_value, 1);
    reveal_with_fuel(parse_dyn_elems, 1);
    reveal_with_fuel(parse_fixed_elems, 1);
    reveal_with_fuel(parse_struct, 1);
    reveal_with_fuel(parse_type_structure, 1);
    lemma_dyn_bounds(st, pw, n, s);
    if let Parsed::Done(vs, k) = parse_dyn_elems(st, pw, n, s) {
        if n > 0 {
            let k = k as int;
            lemma_take_front(s, k, 1);
            let h = type_hint_from_repr(s[0]).unwrap();
            lemma_value_bounds(st, pw, h, s.skip(1));
            let k1 = parse_value(st, pw, h, s.skip(1))->Done_1 as int;
            lemma_value_take(st, pw, h, s.skip(1));
            lemma_dyn_bounds(st, pw, (n - 1) as nat, s.skip(1 + k1));
            lemma_take_front(s, k, 1 + k1);
            lemma_take_front(s.skip(1), k - 1, k1);
            lemma_value_extend(st, pw, h, s.skip(1).take(k1), s.skip(1).take(k - 1).skip(k1));
            assert(s.skip(1).take(k1) + s.skip(1).take(k - 1).skip(k1) =~= s.take(k).skip(1));
            lemma_dyn_take(st, pw, (n - 1) as nat, s.skip(1 + k1));
            assert(s.take(k).skip(1 + k1) =~= s.skip(1 + k1).take(k - 1 - k1));
        }
    }
}

/// As `lemma_value_take`, for values of one hint.
pub proof fn lemma_fixed_take(st: StoresView, pw: PointerWidth, hint: TypeHint, n: nat, s: Seq<u8>)
    ensures
        parse_fixed_elems(st, pw, hint, n, s) matches Parsed::Done(vs, k) ==> parse_fixed_elems(
            st,
            pw,
            hint,
            n,
            s.take(k as int),
        ) == parse_fixed_elems(st, pw, hint, n, s),
    decreases s.len(), 1nat, n,
{
    reveal_with_fuel(parse_value, 1);
    reveal_with_fuel(parse_dyn_elems, 1);
    reveal_with_fuel(parse_fixed_elems, 1);
    reveal_with_fuel(parse_struct, 1);
    reveal_with_fuel(parse_type_structure, 1);
    lemma_fixed_bounds(st, pw, hint, n, s);
    if let Parsed::Done(vs, k) = parse_fixed_elems(st, pw, hint, n, s) {
        if n > 0 {
            let k = k as int;
            lemma_value_bounds(st, pw, hint, s);
            let k1 = parse_value(st, pw, hint, s)->Done_1 as int;
            lemma_value_take(st, pw, hint, s);
            lemma_fixed_bounds(st, pw, hint, (n - 1) as nat, s.skip(k1));
            lemma_take_front(s, k, k1);
            lemma_value_extend(st, pw, hint, s.take(k1), s.take(k).skip(k1));
            assert(s.take(k1) + s.take(k).skip(k1) =~= s.take(k));
            lemma_fixed_take(st, pw, hint, (n - 1) as nat, s.skip(k1));
        }
    }
}

/// As `lemma_value_take`, for the fields of a struct.
pub proof fn lemma_struct_take(st: StoresView, pw: PointerWidth, shape: StructVariant, s: Seq<u8>)
    ensures
        parse_struct(st, pw, shape, s) matches Parsed::Done(m, k) ==> parse_struct(
            st,
            pw,
            shape,
            s.take(k as int),
        ) == parse_struct(st, pw, shape, s),
    decreases s.len(), 2nat, 0nat,
{
    reveal_with_fuel(parse_value, 1);
    reveal_with_fuel(parse_dyn_elems, 1);
    reveal_with_fuel(parse_fixed_elems, 1);
    reveal_with_fuel(parse_struct, 1);
    reveal_with_fuel(parse_type_structure, 1);
    match shape {
        StructVariant::Unit => {},
        StructVariant::Tuple(n) => lemma_dyn_take(st, pw, n as nat, s),
        StructVariant::Named(names) => lemma_dyn_take(st, pw, names@.len(), s),
    }
}

/// As `lemma_value_take`, for a value of a registered type.
pub proof fn lemma_type_take(st: StoresView, pw: PointerWidth, ts: TypeStructure, s: Seq<u8>)
    ensures
        parse_type_structure(st, pw, ts, s) matches Parsed::Done(m, k) ==> parse_type_structure(
            st,
            pw,
            ts,
            s.take(k as int),
        ) == parse_type_structure(st, pw, ts, s),
    decreases s.len(), 3nat, 0nat,
{
    reveal_with_fuel(parse_value, 1);
    reveal_with_fuel(parse_dyn_elems, 1);
    reveal_with_fuel(parse_fixed_elems, 1);
    reveal_with_fuel(parse_struct, 1);
    reveal_with_fuel(parse_type_structure, 1);
    lemma_type_bounds(st, pw, ts, s);
    match ts.variant {
        TypeStructureVariant::Struct(shape) => lemma_struct_take(st, pw, shape, s),
        TypeStructureVariant::Enum(variants) => {
            if let Parsed::Done(m, k) = parse_type_structure(st, pw, ts, s) {
                let k = k as int;
                lemma_take_front(s, k, 1);
                let shape = variants@[s[0] as int].1;
                lemma_struct_bounds(st, pw, shape, s.skip(1));
                lemma_struct_take(st, pw, shape, s.skip(1));
                assert(s.take(k).skip(1) =~= s.skip(1).take(k - 1));
            }
        },
    }
}

} // verus!
