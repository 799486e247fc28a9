//! Where a value fails or stops, how many of its bytes the decoder has
//! taken is always stated.

use vstd::prelude::*;

use crate::buffer::be_nat;
use crate::decoders::{
    dyn_error_taken, dyn_pause_taken, enum_error_taken, enum_pause_taken, fixed_error_taken,
    fixed_list_error_taken, fixed_list_pause_taken, fixed_pause_taken, lemma_enum_taken_unfold, lemma_list_error_taken,
    lemma_list_pause_taken, lemma_type_taken_unfold, lemma_write_error_unfold,
    lemma_write_id_error_taken, lemma_write_id_pause_taken, lemma_write_pause_unfold, struct_arity,
    type_error_taken, type_pause_taken, value_error_taken, value_pause_taken, write_error_taken,
    write_pause_taken,
};
use crate::parse::{
    parse_dyn_elems, parse_enum_body, parse_fixed_elems, parse_fixed_list, parse_struct,
    parse_type_structure, parse_value, parse_write_body, Parsed,
};
use crate::pointer_width::PointerWidth;
use crate::statements::{
    expected_arg_count, statement_key, StoresView, StructVariant, TypeStructure,
    TypeStructureVariant, WriteStatement,
};
use crate::step_lemmas::{
    lemma_dyn_list_unfold, lemma_enum_unfold, lemma_list_unfold, lemma_struct_unfold,
    lemma_tuple_unfold, lemma_type_struct_unfold, lemma_write_id_unfold,
};
use crate::type_hint::{type_hint_from_repr, TypeHint};

verus! {

/// Wherever a value fails, `value_error_taken` states how many of its bytes
/// the decoder has taken; wherever it is unfinished, `value_pause_taken`
/// does.
pub proof fn lemma_value_taken_stated(st: StoresView, pw: PointerWidth, h: TypeHint, s: Seq<u8>)
    ensures
        parse_value(st, pw, h, s) is Failed ==> value_error_taken(st, pw, h, s) is Some,
        parse_value(st, pw, h, s) is Incomplete ==> value_pause_taken(st, pw, h, s) is Some,
    decreases s.len(), 0nat,
{
    let w = pw.spec_size();
    match h {
        TypeHint::Tuple => {
            lemma_tuple_unfold(st, pw, s);
            if s.len() >= 1 {
                lemma_list_error_taken(st, pw, h, s, 1, s[0] as nat);
                lemma_list_pause_taken(st, pw, h, s, 1, s[0] as nat);
                lemma_dyn_taken_stated(st, pw, s[0] as nat, s.skip(1));
            } else {
                reveal_with_fuel(value_pause_taken, 1);
            }
        },
        TypeHint::DynList | TypeHint::List => {
            if h is List {
                lemma_list_unfold(st, pw, s);
            } else {
                lemma_dyn_list_unfold(st, pw, s);
            }
            if s.len() >= w {
                let n = be_nat(s.take(w as int));
                if n <= usize::MAX {
                    lemma_list_error_taken(st, pw, h, s, w, n);
                } else {
                    reveal_with_fuel(value_error_taken, 1);
                }
                lemma_list_pause_taken(st, pw, h, s, w, n);
                if h is List {
                    lemma_fixed_list_taken_stated(st, pw, n, s.skip(w as int));
                } else {
                    lemma_dyn_taken_stated(st, pw, n, s.skip(w as int));
                }
            } else {
                reveal_with_fuel(value_pause_taken, 1);
            }
        },
        TypeHint::WriteId => {
            lemma_write_id_unfold(st, pw, s);
            if s.len() >= 2 {
                let c = be_nat(s.take(2)) as u16;
                lemma_write_id_pause_taken(st, pw, s);
                if st.crates.contains_key(c) {
                    lemma_write_id_error_taken(st, pw, s);
                } else {
                    reveal_with_fuel(value_error_taken, 1);
                }
                lemma_write_taken_stated(st, pw, c, s.skip(2));
            } else {
                reveal_with_fuel(value_pause_taken, 1);
            }
        },
        _ => {
            reveal_with_fuel(parse_value, 1);
            reveal_with_fuel(value_error_taken, 1);
            reveal_with_fuel(value_pause_taken, 1);
        },
    }
}

/// Wherever values that carry their hint fail or stop, `dyn_error_taken`
/// or `dyn_pause_taken` states how many of their bytes have been taken.
pub proof fn lemma_dyn_taken_stated(st: StoresView, pw: PointerWidth, n: nat, s: Seq<u8>)
    ensures
        parse_dyn_elems(st, pw, n, s) is Failed ==> dyn_error_taken(st, pw, n, s) is Some,
        parse_dyn_elems(st, pw, n, s) is Incomplete ==> dyn_pause_taken(st, pw, n, s) is Some,
    decreases s.len(), 1nat,
{
    reveal_with_fuel(parse_value, 1);
    reveal_with_fuel(parse_dyn_elems, 1);
    reveal_with_fuel(parse_fixed_elems, 1);
    reveal_with_fuel(parse_struct, 1);
    reveal_with_fuel(parse_type_structure, 1);
    reveal_with_fuel(dyn_error_taken, 2);
    reveal_with_fuel(dyn_pause_taken, 2);
    reveal_with_fuel(value_error_taken, 1);
    reveal_with_fuel(value_pause_taken, 1);
    if n > 0 && s.len() > 0 {
        if let Some(h) = type_hint_from_repr(s[0]) {
            lemma_value_taken_stated(st, pw, h, s.skip(1));
            if let Parsed::Done(_, k) = parse_value(st, pw, h, s.skip(1)) {
                if k < s.len() {
                    lemma_dyn_taken_stated(st, pw, (n - 1) as nat, s.skip(1 + k as int));
                }
            }
        }
    }
}

/// Wherever values of one hint fail or stop, `fixed_error_taken` or
/// `fixed_pause_taken` states how many of their bytes have been taken.
pub proof fn lemma_fixed_taken_stated(st: StoresView, pw: PointerWidth, h: TypeHint, n: nat, s: Seq<u8>)
    ensures
        parse_fixed_elems(st, pw, h, n, s) is Failed ==> fixed_error_taken(st, pw, h, n, s) is Some,
        parse_fixed_elems(st, pw, h, n, s) is Incomplete ==> fixed_pause_taken(st, pw, h, n, s) is Some,
    decreases s.len(), 1nat,
{
    reveal_with_fuel(parse_value, 1);
    reveal_with_fuel(parse_dyn_elems, 1);
    reveal_with_fuel(parse_fixed_elems, 1);
    reveal_with_fuel(parse_struct, 1);
    reveal_with_fuel(parse_type_structure, 1);
    reveal_with_fuel(fixed_error_taken, 2);
    reveal_with_fuel(fixed_pause_taken, 2);
    reveal_with_fuel(value_error_taken, 1);
    reveal_with_fuel(value_pause_taken, 1);
    if n > 0 {
        lemma_value_taken_stated(st, pw, h, s);
        if let Parsed::Done(_, k) = parse_value(st, pw, h, s) {
            if 0 < k <= s.len() {
                lemma_fixed_taken_stated(st, pw, h, (n - 1) as nat, s.skip(k as int));
            }
        }
    }
}

/// Wherever the body of a list of values of one hint fails or stops,
/// `fixed_list_error_taken` or `fixed_list_pause_taken` states how many of
/// its bytes have been taken.
pub proof fn lemma_fixed_list_taken_stated(st: StoresView, pw: PointerWidth, n: nat, s: Seq<u8>)
    ensures
        parse_fixed_list(st, pw, n, s) is Failed ==> fixed_list_error_taken(st, pw, n, s) is Some,
        parse_fixed_list(st, pw, n, s) is Incomplete ==> fixed_list_pause_taken(st, pw, n, s) is Some,
    decreases s.len(), 1nat,
{
    reveal_with_fuel(parse_value, 1);
    reveal_with_fuel(parse_dyn_elems, 1);
    reveal_with_fuel(parse_fixed_elems, 1);
    reveal_with_fuel(parse_struct, 1);
    reveal_with_fuel(parse_type_structure, 1);
    reveal_with_fuel(fixed_list_error_taken, 2);
    reveal_with_fuel(fixed_list_pause_taken, 2);
    reveal_with_fuel(fixed_error_taken, 1);
    reveal_with_fuel(fixed_pause_taken, 1);
    if n > 0 && s.len() > 0 {
        if let Some(h) = type_hint_from_repr(s[0]) {
            lemma_fixed_taken_stated(st, pw, h, n, s.skip(1));
        }
    }
}

/// Wherever what a write id names fails or stops, `write_error_taken` or
/// `write_pause_taken` states how many of its bytes have been taken.
pub proof fn lemma_write_taken_stated(st: StoresView, pw: PointerWidth, crate_id: u16, s: Seq<u8>)
    ensures
        parse_write_body(st, pw, crate_id, s) is Failed ==> write_error_taken(st, pw, crate_id, s) is Some,
        parse_write_body(st, pw, crate_id, s) is Incomplete ==> write_pause_taken(st, pw, crate_id, s) is Some,
    decreases s.len(), 1nat,
{
    lemma_write_error_unfold(st, pw, crate_id, s);
    lemma_write_pause_unfold(st, pw, crate_id, s);
    if s.len() >= 2 {
        let key = statement_key(crate_id, be_nat(s.take(2)) as u16);
        if st.writes.contains_key(key) {
            match st.writes[key] {
                WriteStatement::FormatExpression(fe) => {
                    lemma_dyn_taken_stated(st, pw, expected_arg_count(fe), s.skip(2));
                },
                WriteStatement::TypeStructure(ts) => {
                    lemma_type_taken_stated(st, pw, ts, s.skip(2));
                },
            }
        }
    }
}

/// Wherever a value of a type with a registered structure fails or stops,
/// `type_error_taken` or `type_pause_taken` states how many of its bytes
/// have been taken.
pub proof fn lemma_type_taken_stated(st: StoresView, pw: PointerWidth, ts: TypeStructure, s: Seq<u8>)
    ensures
        parse_type_structure(st, pw, ts, s) is Failed ==> type_error_taken(st, pw, ts, s) is Some,
        parse_type_structure(st, pw, ts, s) is Incomplete ==> type_pause_taken(st, pw, ts, s) is Some,
    decreases s.len(), 3nat,
{
    lemma_type_taken_unfold(st, pw, ts, s);
    match ts.variant {
        TypeStructureVariant::Struct(shape) => {
            lemma_type_struct_unfold(st, pw, ts, shape, s);
            lemma_struct_taken_stated(st, pw, shape, s);
        },
        TypeStructureVariant::Enum(variants) => {
            lemma_enum_unfold(st, pw, ts, variants@, s);
            lemma_enum_taken_stated(st, pw, variants@, s);
        },
    }
}

/// Wherever the fields of a struct fail or stop, `dyn_error_taken` or
/// `dyn_pause_taken` states how many of their bytes have been taken.
pub proof fn lemma_struct_taken_stated(st: StoresView, pw: PointerWidth, shape: StructVariant, s: Seq<u8>)
    ensures
        parse_struct(st, pw, shape, s) is Failed ==> dyn_error_taken(st, pw, struct_arity(shape), s) is Some,
        parse_struct(st, pw, shape, s) is Incomplete ==> dyn_pause_taken(st, pw, struct_arity(shape), s) is Some,
    decreases s.len(), 2nat,
{
    lemma_struct_unfold(st, pw, shape, s);
    lemma_dyn_taken_stated(st, pw, struct_arity(shape), s);
}

/// Wherever a value of an enum fails or stops, `enum_error_taken` or
/// `enum_pause_taken` states how many of its bytes have been taken.
pub proof fn lemma_enum_taken_stated(
    st: StoresView,
    pw: PointerWidth,
    variants: Seq<(String, StructVariant)>,
    s: Seq<u8>,
)
    ensures
        parse_enum_body(st, pw, variants, s) is Failed ==> enum_error_taken(st, pw, variants, s) is Some,
        parse_enum_body(st, pw, variants, s) is Incomplete ==> enum_pause_taken(st, pw, variants, s) is Some,
    decreases s.len(), 2nat,
{
    lemma_enum_taken_unfold(st, pw, variants, s);
    if s.len() >= 1 && s[0] < variants.len() {
        lemma_struct_taken_stated(st, pw, variants[s[0] as int].1, s.skip(1));
    }
}

} // verus!
