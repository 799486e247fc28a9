use tokio_util::bytes::BytesMut;
use vstd::prelude::*;
use vstd::utf8::decode_first_scalar;

use crate::buffer::{
    be_nat, buffer_bytes, buffer_len, buffer_split_to, buffer_try_get_i128, buffer_try_get_i16,
    buffer_try_get_i32, buffer_try_get_i64, buffer_try_get_i8, buffer_try_get_u128,
    buffer_try_get_u16, buffer_try_get_u32, buffer_try_get_u64, buffer_try_get_u8,
};
use crate::decoder_utils::DecoderUtils;
use crate::encoding::DecodesBack;
use crate::errors::{DecodeError, StatementKind};
use crate::parse::{
    pad4, parse_dyn_elems, parse_enum_body, parse_fixed_elems, parse_fixed_list, parse_length,
    parse_struct, parse_type_structure, parse_value, parse_write_body, prepend, shift, split_args,
    wrap_list, zip_names, Parsed,
};
use crate::pointer_width::PointerWidth;
use crate::statements::{
    expected_arg_count, statement_key, StoredFormatExpression, Stores, StoresView, StructVariant,
    TypeStructure, TypeStructureVariant, WriteStatement,
};
use crate::step_lemmas::{
    lemma_dyn_head, lemma_dyn_list_unfold, lemma_dyn_single, lemma_dyn_split, lemma_dyn_step,
    lemma_elems_zero, lemma_enum_unfold, lemma_fixed_split, lemma_fixed_step, lemma_list_unfold,
    lemma_prepend_prepend, lemma_struct_unfold, lemma_tuple_unfold, lemma_type_struct_unfold,
    lemma_value_prefix, lemma_write_id_unfold, lemma_boolean_unfold, lemma_signed_unfold,
    lemma_unsigned_unfold, lemma_char_unfold, lemma_string_unfold,
};
use crate::taken::{
    lemma_dyn_taken_stated, lemma_enum_taken_stated, lemma_fixed_list_taken_stated,
    lemma_struct_taken_stated, lemma_type_taken_stated, lemma_value_taken_stated,
    lemma_write_taken_stated,
};
use crate::text::{char_from_utf8_array, string_from_utf8};
use crate::type_hint::{lemma_type_hint_repr_roundtrip, type_hint_from_repr, type_hint_repr, TypeHint};
use crate::values::{
    lemma_model_of_named_index, lemma_model_of_values_index, lemma_model_of_values_push,
    model_of_decoded, model_of_named, model_of_struct, model_of_type, model_of_value,
    model_of_values, DecodedValues, StructModel, StructVariantValue, TypeModel,
    TypeStructureValue, TypeStructureVariantValue, TypeVariantModel, Value, ValueModel,
};

verus! {

/// What a finished decoding step reports: the parse of all bytes it was fed
/// is done with this model, and what followed is left in the buffer.
pub open spec fn finished<M>(parsed: Parsed<M>, m: M, input: Seq<u8>, rest: Seq<u8>) -> bool {
    parsed matches Parsed::Done(pm, k) && pm == m && k <= input.len() && rest == input.skip(k as int)
}

// ---------------------------------------------------------------------------
// Values
// ---------------------------------------------------------------------------

/// Decodes one value of a known type hint, over as many calls as its bytes
/// take to arrive.
pub struct ValueDecoder<'a> {
    pointer_width: PointerWidth,
    type_hint: TypeHint,
    length_context: Option<usize>,
    list_decoder: Option<ListValueDecoder<'a>>,
    write_decoder: Option<WriteStatementDecoder<'a>>,
    consumed: Ghost<Seq<u8>>,
}

/// What a call of `ValueDecoder::decode` reports, against the parse of all
/// the bytes the decoder has been fed.
pub open spec fn value_step<'a>(
    before: ValueDecoder<'a>,
    after: ValueDecoder<'a>,
    st: StoresView,
    src_before: Seq<u8>,
    src_after: Seq<u8>,
    r: Result<Option<Value>, DecodeError>,
) -> bool {
    let input = before.consumed() + src_before;
    let parsed = parse_value(st, before.width(), before.hint(), input);
    match r {
        Ok(Some(v)) => finished(parsed, model_of_value(v), input, src_after),
        Ok(None) => {
            &&& parsed is Incomplete
            &&& after.wf(st)
            &&& after.consumed() + src_after == input
            &&& after.width() == before.width()
            &&& after.hint() == before.hint()
            &&& fixed_width_hint(before.hint()) ==> src_after == src_before
            &&& value_pause_taken(st, before.width(), before.hint(), input) matches Some(k)
                && after.consumed().len() == k
            &&& before.hint() is Char ==> after.consumed().len() == if input.len() == 0 {
                0nat
            } else {
                1nat
            }
            &&& before.hint() is StringSlice ==> after.consumed().len() == if input.len()
                < before.width().spec_size() {
                0nat
            } else {
                before.width().spec_size()
            }
        },
        Err(e) => {
            &&& parsed == Parsed::<ValueModel>::Failed(e)
            &&& value_error_taken(st, before.width(), before.hint(), input) matches Some(k)
                && k <= input.len() && src_after == input.skip(k as int)
        },
    }
}

/// Where a value fails, how many of its bytes the decoder has taken: a
/// boolean's byte; a character's length byte, and its UTF-8 bytes where the
/// length is one to four; a string's length, and its UTF-8 bytes where the
/// length fits in a `usize`; a tuple's or a list's length, and where it fits,
/// what its body has taken where it fails; a write id's crate id where the
/// crate is unknown, else the crate id and what `write_error_taken` says.
/// It is `None` only on bytes where the value does not fail.
#[verifier::opaque]
pub open spec fn value_error_taken(st: StoresView, pw: PointerWidth, h: TypeHint, input: Seq<u8>) -> Option<nat>
    decreases input.len(), 0nat,
{
    let w = pw.spec_size();
    match h {
        TypeHint::Boolean => if input.len() >= 1 {
            Some(1nat)
        } else {
            None
        },
        TypeHint::Char => if input.len() >= 1 {
            let n = input[0] as nat;
            if n < 1 || n > 4 {
                Some(1nat)
            } else {
                Some(1 + n)
            }
        } else {
            None
        },
        TypeHint::StringSlice => if input.len() >= w {
            let n = be_nat(input.take(w as int));
            if n > usize::MAX {
                Some(w)
            } else {
                Some(w + n)
            }
        } else {
            None
        },
        TypeHint::Tuple => if input.len() >= 1 {
            match dyn_error_taken(st, pw, input[0] as nat, input.skip(1)) {
                Some(t) => Some(1 + t),
                None => None,
            }
        } else {
            None
        },
        TypeHint::DynList => if input.len() >= w && w > 0 {
            let n = be_nat(input.take(w as int));
            if n > usize::MAX {
                Some(w)
            } else {
                match dyn_error_taken(st, pw, n, input.skip(w as int)) {
                    Some(t) => Some(w + t),
                    None => None,
                }
            }
        } else {
            None
        },
        TypeHint::List => if input.len() >= w && w > 0 {
            let n = be_nat(input.take(w as int));
            if n > usize::MAX {
                Some(w)
            } else {
                match fixed_list_error_taken(st, pw, n, input.skip(w as int)) {
                    Some(t) => Some(w + t),
                    None => None,
                }
            }
        } else {
            None
        },
        TypeHint::WriteId => if input.len() >= 2 {
            let c = be_nat(input.take(2)) as u16;
            if !st.crates.contains_key(c) {
                Some(2nat)
            } else {
                match write_error_taken(st, pw, c, input.skip(2)) {
                    Some(t) => Some(2 + t),
                    None => None,
                }
            }
        } else {
            None
        },
        _ => None,
    }
}

/// Where `n` values that each carry their hint fail at an unknown hint byte,
/// or in a value that fails as `value_error_taken` says, how many of their
/// bytes the decoder has taken.
#[verifier::opaque]
pub open spec fn dyn_error_taken(st: StoresView, pw: PointerWidth, n: nat, s: Seq<u8>) -> Option<nat>
    decreases s.len(), 1nat,
{
    if n == 0 || s.len() == 0 {
        None
    } else {
        match type_hint_from_repr(s[0]) {
            None => Some(1nat),
            Some(h) => match parse_value(st, pw, h, s.skip(1)) {
                Parsed::Done(_, k) => if k < s.len() {
                    match dyn_error_taken(st, pw, (n - 1) as nat, s.skip(1 + k as int)) {
                        Some(t) => Some(1 + k + t),
                        None => None,
                    }
                } else {
                    None
                },
                Parsed::Failed(_) => match value_error_taken(st, pw, h, s.skip(1)) {
                    Some(t) => Some(1 + t),
                    None => None,
                },
                Parsed::Incomplete => None,
            },
        }
    }
}

/// Where a tuple or a list fails in its body, what fails is the length's
/// bytes after where the body fails.
pub(crate) proof fn lemma_list_error_taken(st: StoresView, pw: PointerWidth, h: TypeHint, input: Seq<u8>, d: nat, n: nat)
    requires
        h is Tuple || h is DynList || h is List,
        d <= input.len(),
        h is Tuple ==> d == 1 && input[0] as nat == n,
        !(h is Tuple) ==> d == pw.spec_size() && be_nat(input.take(d as int)) == n && n <= usize::MAX,
    ensures
        value_error_taken(st, pw, h, input) == match (if h is List {
            fixed_list_error_taken(st, pw, n, input.skip(d as int))
        } else {
            dyn_error_taken(st, pw, n, input.skip(d as int))
        }) {
            Some(t) => Some(d + t),
            None => None::<nat>,
        },
{
    reveal_with_fuel(value_error_taken, 2);
    reveal_with_fuel(dyn_error_taken, 1);
    reveal_with_fuel(fixed_list_error_taken, 1);
}

/// Where the first of the values that carry their hint fails, what fails is
/// one byte after where that value fails.
proof fn lemma_dyn_error_head(st: StoresView, pw: PointerWidth, m: nat, h: TypeHint, x: Seq<u8>)
    requires
        m > 0,
        parse_value(st, pw, h, x) is Failed,
    ensures
        dyn_error_taken(st, pw, m, seq![type_hint_repr(h)] + x) == match value_error_taken(
            st,
            pw,
            h,
            x,
        ) {
            Some(t) => Some(1 + t),
            None => None::<nat>,
        },
{
    reveal_with_fuel(dyn_error_taken, 2);
    reveal_with_fuel(value_error_taken, 1);
    lemma_type_hint_repr_roundtrip(h, type_hint_repr(h));
    let y = seq![type_hint_repr(h)] + x;
    assert(y[0] == type_hint_repr(h));
    assert(y.skip(1) =~= x);
    assert(type_hint_from_repr(y[0]) == Some(h));
    assert(parse_value(st, pw, h, y.skip(1)) is Failed);
    assert(!(m == 0 || y.len() == 0));
}

/// After `j` complete values, what fails in the values that follow is that
/// many bytes further on.
pub proof fn lemma_dyn_error_split(
    st: StoresView,
    pw: PointerWidth,
    n: nat,
    j: nat,
    d: Seq<u8>,
    r: Seq<u8>,
    vs: Seq<ValueModel>,
)
    requires
        j <= n,
        parse_dyn_elems(st, pw, j, d) == Parsed::Done(vs, d.len()),
    ensures
        dyn_error_taken(st, pw, n, d + r) == match dyn_error_taken(st, pw, (n - j) as nat, r) {
            Some(t) => Some(d.len() + t),
            None => None::<nat>,
        },
    decreases j,
{
    reveal_with_fuel(parse_dyn_elems, 1);
    reveal_with_fuel(dyn_error_taken, 1);
    if j == 0 {
        assert(d + r =~= r);
    } else {
        let h = type_hint_from_repr(d[0])->Some_0;
        let x = d.skip(1);
        let k1 = parse_value(st, pw, h, x)->Done_1;
        let d2 = d.skip(1 + k1 as int);
        let vs2 = parse_dyn_elems(st, pw, (j - 1) as nat, d2)->Done_0;
        crate::parse_lemmas::lemma_value_extend(st, pw, h, x, r);
        assert((d + r).skip(1) =~= x + r);
        assert((d + r).skip(1 + k1 as int) =~= d2 + r);
        assert((d + r)[0] == d[0]);
        lemma_dyn_error_split(st, pw, (n - 1) as nat, (j - 1) as nat, d2, r, vs2);
    }
}

/// Where what a write id of crate `crate_id` names fails, how many of the
/// bytes after the crate id the decoder has taken: the statement id where
/// the statement is unknown, or, after it, where the arguments of a format
/// expression fail as `dyn_error_taken` says, or a value of a type's
/// structure as `type_error_taken` says.
#[verifier::opaque]
pub open spec fn write_error_taken(st: StoresView, pw: PointerWidth, crate_id: u16, s: Seq<u8>) -> Option<nat>
    decreases s.len(), 1nat,
{
    if s.len() < 2 {
        None
    } else {
        let key = statement_key(crate_id, be_nat(s.take(2)) as u16);
        if !st.writes.contains_key(key) {
            Some(2nat)
        } else {
            match st.writes[key] {
                WriteStatement::FormatExpression(fe) => match dyn_error_taken(
                    st,
                    pw,
                    expected_arg_count(fe),
                    s.skip(2),
                ) {
                    Some(t) => Some(2 + t),
                    None => None,
                },
                WriteStatement::TypeStructure(ts) => match type_error_taken(st, pw, ts, s.skip(2)) {
                    Some(t) => Some(2 + t),
                    None => None,
                },
            }
        }
    }
}

pub(crate) proof fn lemma_write_error_unfold(st: StoresView, pw: PointerWidth, crate_id: u16, s: Seq<u8>)
    ensures
        write_error_taken(st, pw, crate_id, s) == if s.len() < 2 {
            None::<nat>
        } else {
            let key = statement_key(crate_id, be_nat(s.take(2)) as u16);
            if !st.writes.contains_key(key) {
                Some(2nat)
            } else {
                match st.writes[key] {
                    WriteStatement::FormatExpression(fe) => match dyn_error_taken(
                        st,
                        pw,
                        expected_arg_count(fe),
                        s.skip(2),
                    ) {
                        Some(t) => Some(2 + t),
                        None => None::<nat>,
                    },
                    WriteStatement::TypeStructure(ts) => match type_error_taken(st, pw, ts, s.skip(2)) {
                        Some(t) => Some(2 + t),
                        None => None::<nat>,
                    },
                }
            }
        },
{
    reveal_with_fuel(write_error_taken, 2);
    reveal_with_fuel(dyn_error_taken, 1);
    reveal_with_fuel(type_error_taken, 1);
}

pub(crate) proof fn lemma_write_id_error_taken(st: StoresView, pw: PointerWidth, input: Seq<u8>)
    requires
        input.len() >= 2,
        st.crates.contains_key(be_nat(input.take(2)) as u16),
    ensures
        value_error_taken(st, pw, TypeHint::WriteId, input) == match write_error_taken(
            st,
            pw,
            be_nat(input.take(2)) as u16,
            input.skip(2),
        ) {
            Some(t) => Some(2 + t),
            None => None::<nat>,
        },
{
    reveal_with_fuel(value_error_taken, 2);
    reveal_with_fuel(write_error_taken, 1);
}

/// Where a list of `n` values of one hint fails, how many of its bytes after
/// the length the decoder has taken: the hint byte where it is unknown, or
/// one byte more than `fixed_error_taken` says of the values.
#[verifier::opaque]
pub open spec fn fixed_list_error_taken(st: StoresView, pw: PointerWidth, n: nat, s: Seq<u8>) -> Option<nat>
    decreases s.len(), 1nat,
{
    if n == 0 || s.len() == 0 {
        None
    } else {
        match type_hint_from_repr(s[0]) {
            None => Some(1nat),
            Some(h) => match fixed_error_taken(st, pw, h, n, s.skip(1)) {
                Some(t) => Some(1 + t),
                None => None,
            },
        }
    }
}

/// Where `n` values of hint `h` fail in a value that fails as
/// `value_error_taken` says, how many of their bytes the decoder has taken:
/// the values finished before it, then what the failing value has taken.
#[verifier::opaque]
pub open spec fn fixed_error_taken(st: StoresView, pw: PointerWidth, h: TypeHint, n: nat, s: Seq<u8>) -> Option<nat>
    decreases s.len(), 1nat,
{
    if n == 0 {
        None
    } else {
        match parse_value(st, pw, h, s) {
            Parsed::Done(_, k) => if 0 < k <= s.len() {
                match fixed_error_taken(st, pw, h, (n - 1) as nat, s.skip(k as int)) {
                    Some(t) => Some(k + t),
                    None => None,
                }
            } else {
                None
            },
            Parsed::Failed(_) => value_error_taken(st, pw, h, s),
            Parsed::Incomplete => None,
        }
    }
}

/// Where a list of values of one hint fails, what fails is the hint byte
/// where it is unknown, else one byte after where its values fail.
proof fn lemma_fixed_list_error_unfold(st: StoresView, pw: PointerWidth, n: nat, s: Seq<u8>)
    requires
        n > 0,
        s.len() > 0,
    ensures
        fixed_list_error_taken(st, pw, n, s) == match type_hint_from_repr(s[0]) {
            None => Some(1nat),
            Some(h) => match fixed_error_taken(st, pw, h, n, s.skip(1)) {
                Some(t) => Some(1 + t),
                None => None::<nat>,
            },
        },
{
    reveal_with_fuel(fixed_list_error_taken, 2);
    reveal_with_fuel(fixed_error_taken, 1);
}

/// Where the first of the values of one hint fails, what fails is where
/// that value fails.
proof fn lemma_fixed_error_head(st: StoresView, pw: PointerWidth, h: TypeHint, m: nat, x: Seq<u8>)
    requires
        m > 0,
        parse_value(st, pw, h, x) is Failed,
    ensures
        fixed_error_taken(st, pw, h, m, x) == value_error_taken(st, pw, h, x),
{
    reveal_with_fuel(fixed_error_taken, 2);
    reveal_with_fuel(value_error_taken, 1);
}

/// After `j` complete values of one hint, what fails in the values that
/// follow is that many bytes further on.
pub proof fn lemma_fixed_error_split(
    st: StoresView,
    pw: PointerWidth,
    h: TypeHint,
    n: nat,
    j: nat,
    d: Seq<u8>,
    r: Seq<u8>,
    vs: Seq<ValueModel>,
)
    requires
        j <= n,
        parse_fixed_elems(st, pw, h, j, d) == Parsed::Done(vs, d.len()),
    ensures
        fixed_error_taken(st, pw, h, n, d + r) == match fixed_error_taken(st, pw, h, (n - j) as nat, r) {
            Some(t) => Some(d.len() + t),
            None => None::<nat>,
        },
    decreases j,
{
    reveal_with_fuel(parse_fixed_elems, 1);
    reveal_with_fuel(fixed_error_taken, 1);
    if j == 0 {
        assert(d + r =~= r);
    } else {
        let k1 = parse_value(st, pw, h, d)->Done_1;
        let d2 = d.skip(k1 as int);
        let vs2 = parse_fixed_elems(st, pw, h, (j - 1) as nat, d2)->Done_0;
        crate::parse_lemmas::lemma_value_extend(st, pw, h, d, r);
        assert((d + r).skip(k1 as int) =~= d2 + r);
        lemma_fixed_error_split(st, pw, h, (n - 1) as nat, (j - 1) as nat, d2, r, vs2);
    }
}

/// How many bytes of an unfinished value the decoder has taken: nothing of
/// a number or a boolean; a character's or a string's length once it is
/// there; the length of a tuple or a list once it is there, then what its
/// body has taken (its hint byte where it has one, the values finished so
/// far and what the unfinished one has taken); a write id's crate id and
/// what `write_pause_taken` says. It is `None` only on bytes where the value
/// is not unfinished.
#[verifier::opaque]
pub open spec fn value_pause_taken(st: StoresView, pw: PointerWidth, h: TypeHint, s: Seq<u8>) -> Option<nat>
    decreases s.len(), 0nat,
{
    let w = pw.spec_size();
    match h {
        TypeHint::Char => Some(if s.len() >= 1 { 1nat } else { 0nat }),
        TypeHint::StringSlice => Some(if s.len() >= w { w } else { 0nat }),
        TypeHint::Tuple => if s.len() >= 1 {
            match dyn_pause_taken(st, pw, s[0] as nat, s.skip(1)) {
                Some(t) => Some(1 + t),
                None => None,
            }
        } else {
            Some(0nat)
        },
        TypeHint::DynList => if s.len() >= w && w > 0 {
            match dyn_pause_taken(st, pw, be_nat(s.take(w as int)), s.skip(w as int)) {
                Some(t) => Some(w + t),
                None => None,
            }
        } else {
            Some(0nat)
        },
        TypeHint::List => if s.len() >= w && w > 0 {
            match fixed_list_pause_taken(st, pw, be_nat(s.take(w as int)), s.skip(w as int)) {
                Some(t) => Some(w + t),
                None => None,
            }
        } else {
            Some(0nat)
        },
        TypeHint::WriteId => if s.len() >= 2 {
            match write_pause_taken(st, pw, be_nat(s.take(2)) as u16, s.skip(2)) {
                Some(t) => Some(2 + t),
                None => None,
            }
        } else {
            Some(0nat)
        },
        _ => Some(0nat),
    }
}

/// How many bytes of `n` unfinished values that carry their hint the
/// decoder has taken: the values finished so far, then the unfinished
/// value's hint byte and what `value_pause_taken` says of it.
#[verifier::opaque]
pub open spec fn dyn_pause_taken(st: StoresView, pw: PointerWidth, n: nat, s: Seq<u8>) -> Option<nat>
    decreases s.len(), 1nat,
{
    if n == 0 || s.len() == 0 {
        Some(0nat)
    } else {
        match type_hint_from_repr(s[0]) {
            None => Some(0nat),
            Some(h) => match parse_value(st, pw, h, s.skip(1)) {
                Parsed::Done(_, k) => if k < s.len() {
                    match dyn_pause_taken(st, pw, (n - 1) as nat, s.skip(1 + k as int)) {
                        Some(t) => Some(1 + k + t),
                        None => None,
                    }
                } else {
                    Some(0nat)
                },
                Parsed::Incomplete => match value_pause_taken(st, pw, h, s.skip(1)) {
                    Some(t) => Some(1 + t),
                    None => None,
                },
                Parsed::Failed(_) => Some(0nat),
            },
        }
    }
}

/// How many bytes after the crate id of an unfinished write id the decoder
/// has taken: the statement id once it is there, then what `dyn_pause_taken`
/// says of a format expression's arguments, or what `type_pause_taken` says
/// of a value of a type's structure.
#[verifier::opaque]
pub open spec fn write_pause_taken(st: StoresView, pw: PointerWidth, crate_id: u16, s: Seq<u8>) -> Option<nat>
    decreases s.len(), 1nat,
{
    if s.len() < 2 {
        Some(0nat)
    } else {
        let key = statement_key(crate_id, be_nat(s.take(2)) as u16);
        if !st.writes.contains_key(key) {
            Some(0nat)
        } else {
            match st.writes[key] {
                WriteStatement::FormatExpression(fe) => match dyn_pause_taken(
                    st,
                    pw,
                    expected_arg_count(fe),
                    s.skip(2),
                ) {
                    Some(t) => Some(2 + t),
                    None => None,
                },
                WriteStatement::TypeStructure(ts) => match type_pause_taken(st, pw, ts, s.skip(2)) {
                    Some(t) => Some(2 + t),
                    None => None,
                },
            }
        }
    }
}

/// After `j` finished values, what the unfinished values that follow have
/// taken is that many bytes further on.
pub proof fn lemma_dyn_pause_split(
    st: StoresView,
    pw: PointerWidth,
    n: nat,
    j: nat,
    d: Seq<u8>,
    r: Seq<u8>,
    vs: Seq<ValueModel>,
)
    requires
        j <= n,
        parse_dyn_elems(st, pw, j, d) == Parsed::Done(vs, d.len()),
    ensures
        dyn_pause_taken(st, pw, n, d + r) == match dyn_pause_taken(st, pw, (n - j) as nat, r) {
            Some(t) => Some(d.len() + t),
            None => None::<nat>,
        },
    decreases j,
{
    reveal_with_fuel(parse_dyn_elems, 1);
    reveal_with_fuel(dyn_pause_taken, 1);
    if j == 0 {
        assert(d + r =~= r);
    } else {
        let h = type_hint_from_repr(d[0])->Some_0;
        let x = d.skip(1);
        let k1 = parse_value(st, pw, h, x)->Done_1;
        let d2 = d.skip(1 + k1 as int);
        let vs2 = parse_dyn_elems(st, pw, (j - 1) as nat, d2)->Done_0;
        crate::parse_lemmas::lemma_value_extend(st, pw, h, x, r);
        assert((d + r).skip(1) =~= x + r);
        assert((d + r).skip(1 + k1 as int) =~= d2 + r);
        assert((d + r)[0] == d[0]);
        lemma_dyn_pause_split(st, pw, (n - 1) as nat, (j - 1) as nat, d2, r, vs2);
    }
}

/// Where the first of the values that carry their hint is unfinished, what
/// has been taken is its hint byte and what the value has taken.
proof fn lemma_dyn_pause_head(st: StoresView, pw: PointerWidth, m: nat, h: TypeHint, x: Seq<u8>)
    requires
        m > 0,
        parse_value(st, pw, h, x) is Incomplete,
    ensures
        dyn_pause_taken(st, pw, m, seq![type_hint_repr(h)] + x) == match value_pause_taken(
            st,
            pw,
            h,
            x,
        ) {
            Some(t) => Some(1 + t),
            None => None::<nat>,
        },
{
    reveal_with_fuel(dyn_pause_taken, 2);
    reveal_with_fuel(value_pause_taken, 1);
    lemma_type_hint_repr_roundtrip(h, type_hint_repr(h));
    let y = seq![type_hint_repr(h)] + x;
    assert(y[0] == type_hint_repr(h));
    assert(y.skip(1) =~= x);
    assert(type_hint_from_repr(y[0]) == Some(h));
    assert(parse_value(st, pw, h, y.skip(1)) is Incomplete);
}

/// Unfinished values that carry their hint, with nothing after the finished
/// ones, have taken nothing more.
proof fn lemma_dyn_pause_empty(st: StoresView, pw: PointerWidth, m: nat)
    ensures
        dyn_pause_taken(st, pw, m, Seq::<u8>::empty()) == Some(0nat),
{
    reveal_with_fuel(dyn_pause_taken, 1);
}

/// What an unfinished tuple or list has taken: its length, then what its
/// body has taken.
pub(crate) proof fn lemma_list_pause_taken(st: StoresView, pw: PointerWidth, h: TypeHint, input: Seq<u8>, d: nat, n: nat)
    requires
        h is Tuple || h is DynList || h is List,
        d <= input.len(),
        h is Tuple ==> d == 1 && input[0] as nat == n,
        !(h is Tuple) ==> d == pw.spec_size() && be_nat(input.take(d as int)) == n,
    ensures
        value_pause_taken(st, pw, h, input) == match (if h is List {
            fixed_list_pause_taken(st, pw, n, input.skip(d as int))
        } else {
            dyn_pause_taken(st, pw, n, input.skip(d as int))
        }) {
            Some(t) => Some(d + t),
            None => None::<nat>,
        },
{
    reveal_with_fuel(value_pause_taken, 2);
    reveal_with_fuel(dyn_pause_taken, 1);
    reveal_with_fuel(fixed_list_pause_taken, 1);
}

pub(crate) proof fn lemma_write_pause_unfold(st: StoresView, pw: PointerWidth, crate_id: u16, s: Seq<u8>)
    ensures
        write_pause_taken(st, pw, crate_id, s) == if s.len() < 2 {
            Some(0nat)
        } else {
            let key = statement_key(crate_id, be_nat(s.take(2)) as u16);
            if !st.writes.contains_key(key) {
                Some(0nat)
            } else {
                match st.writes[key] {
                    WriteStatement::FormatExpression(fe) => match dyn_pause_taken(
                        st,
                        pw,
                        expected_arg_count(fe),
                        s.skip(2),
                    ) {
                        Some(t) => Some(2 + t),
                        None => None::<nat>,
                    },
                    WriteStatement::TypeStructure(ts) => match type_pause_taken(st, pw, ts, s.skip(2)) {
                        Some(t) => Some(2 + t),
                        None => None::<nat>,
                    },
                }
            }
        },
{
    reveal_with_fuel(write_pause_taken, 2);
    reveal_with_fuel(dyn_pause_taken, 1);
    reveal_with_fuel(type_pause_taken, 1);
}

pub(crate) proof fn lemma_write_id_pause_taken(st: StoresView, pw: PointerWidth, input: Seq<u8>)
    requires
        input.len() >= 2,
    ensures
        value_pause_taken(st, pw, TypeHint::WriteId, input) == match write_pause_taken(
            st,
            pw,
            be_nat(input.take(2)) as u16,
            input.skip(2),
        ) {
            Some(t) => Some(2 + t),
            None => None::<nat>,
        },
{
    reveal_with_fuel(value_pause_taken, 2);
    reveal_with_fuel(write_pause_taken, 1);
}

/// How many bytes after the length of an unfinished list of `n` values of
/// one hint the decoder has taken: the hint byte once it is known, then what
/// `fixed_pause_taken` says of the values.
#[verifier::opaque]
pub open spec fn fixed_list_pause_taken(st: StoresView, pw: PointerWidth, n: nat, s: Seq<u8>) -> Option<nat>
    decreases s.len(), 1nat,
{
    if n == 0 || s.len() == 0 {
        Some(0nat)
    } else {
        match type_hint_from_repr(s[0]) {
            None => Some(0nat),
            Some(h) => match fixed_pause_taken(st, pw, h, n, s.skip(1)) {
                Some(t) => Some(1 + t),
                None => None,
            },
        }
    }
}

/// How many bytes of `n` unfinished values of hint `h` the decoder has
/// taken: the values finished so far, then what `value_pause_taken` says of
/// the unfinished one.
#[verifier::opaque]
pub open spec fn fixed_pause_taken(st: StoresView, pw: PointerWidth, h: TypeHint, n: nat, s: Seq<u8>) -> Option<nat>
    decreases s.len(), 1nat,
{
    if n == 0 {
        Some(0nat)
    } else {
        match parse_value(st, pw, h, s) {
            Parsed::Done(_, k) => if 0 < k <= s.len() {
                match fixed_pause_taken(st, pw, h, (n - 1) as nat, s.skip(k as int)) {
                    Some(t) => Some(k + t),
                    None => None,
                }
            } else {
                Some(0nat)
            },
            Parsed::Incomplete => value_pause_taken(st, pw, h, s),
            Parsed::Failed(_) => Some(0nat),
        }
    }
}

/// What an unfinished list of values of one hint has taken: nothing before
/// its hint byte, else that byte and what its values have taken.
proof fn lemma_fixed_list_pause_unfold(st: StoresView, pw: PointerWidth, n: nat, s: Seq<u8>)
    requires
        n > 0,
    ensures
        fixed_list_pause_taken(st, pw, n, s) == if s.len() == 0 {
            Some(0nat)
        } else {
            match type_hint_from_repr(s[0]) {
                None => Some(0nat),
                Some(h) => match fixed_pause_taken(st, pw, h, n, s.skip(1)) {
                    Some(t) => Some(1 + t),
                    None => None::<nat>,
                },
            }
        },
{
    reveal_with_fuel(fixed_list_pause_taken, 2);
    reveal_with_fuel(fixed_pause_taken, 1);
}

/// Where the first of the values of one hint is unfinished, what has been
/// taken is what that value has taken.
proof fn lemma_fixed_pause_head(st: StoresView, pw: PointerWidth, h: TypeHint, m: nat, x: Seq<u8>)
    requires
        m > 0,
        parse_value(st, pw, h, x) is Incomplete,
    ensures
        fixed_pause_taken(st, pw, h, m, x) == value_pause_taken(st, pw, h, x),
{
    reveal_with_fuel(fixed_pause_taken, 2);
    reveal_with_fuel(value_pause_taken, 1);
}

/// After `j` finished values of one hint, what the unfinished values that
/// follow have taken is that many bytes further on.
pub proof fn lemma_fixed_pause_split(
    st: StoresView,
    pw: PointerWidth,
    h: TypeHint,
    n: nat,
    j: nat,
    d: Seq<u8>,
    r: Seq<u8>,
    vs: Seq<ValueModel>,
)
    requires
        j <= n,
        parse_fixed_elems(st, pw, h, j, d) == Parsed::Done(vs, d.len()),
    ensures
        fixed_pause_taken(st, pw, h, n, d + r) == match fixed_pause_taken(st, pw, h, (n - j) as nat, r) {
            Some(t) => Some(d.len() + t),
            None => None::<nat>,
        },
    decreases j,
{
    reveal_with_fuel(parse_fixed_elems, 1);
    reveal_with_fuel(fixed_pause_taken, 1);
    if j == 0 {
        assert(d + r =~= r);
    } else {
        let k1 = parse_value(st, pw, h, d)->Done_1;
        let d2 = d.skip(k1 as int);
        let vs2 = parse_fixed_elems(st, pw, h, (j - 1) as nat, d2)->Done_0;
        crate::parse_lemmas::lemma_value_extend(st, pw, h, d, r);
        assert((d + r).skip(k1 as int) =~= d2 + r);
        lemma_fixed_pause_split(st, pw, h, (n - 1) as nat, (j - 1) as nat, d2, r, vs2);
    }
}

/// The number of fields of a struct, or of one enum variant, of the given
/// shape.
pub open spec fn struct_arity(shape: StructVariant) -> nat {
    match shape {
        StructVariant::Unit => 0,
        StructVariant::Tuple(n) => n as nat,
        StructVariant::Named(names) => names@.len(),
    }
}

/// Where a value of an enum with these variants fails, how many of its
/// bytes the decoder has taken: the variant index where it is unknown, else
/// that index and what `dyn_error_taken` says of the variant's fields.
#[verifier::opaque]
pub open spec fn enum_error_taken(
    st: StoresView,
    pw: PointerWidth,
    variants: Seq<(String, StructVariant)>,
    s: Seq<u8>,
) -> Option<nat>
    decreases s.len(), 1nat,
{
    if s.len() < 1 {
        None
    } else if s[0] >= variants.len() {
        Some(1nat)
    } else {
        match dyn_error_taken(st, pw, struct_arity(variants[s[0] as int].1), s.skip(1)) {
            Some(t) => Some(1 + t),
            None => None,
        }
    }
}

/// Where a value of a type with a registered structure fails, how many of
/// its bytes the decoder has taken: what `dyn_error_taken` says of a
/// struct's fields, or what `enum_error_taken` says of an enum.
#[verifier::opaque]
pub open spec fn type_error_taken(st: StoresView, pw: PointerWidth, ts: TypeStructure, s: Seq<u8>) -> Option<nat>
    decreases s.len(), 2nat,
{
    match ts.variant {
        TypeStructureVariant::Struct(shape) => dyn_error_taken(st, pw, struct_arity(shape), s),
        TypeStructureVariant::Enum(variants) => enum_error_taken(st, pw, variants@, s),
    }
}

/// How many bytes of an unfinished value of an enum with these variants the
/// decoder has taken: the variant index once it is there, then what
/// `dyn_pause_taken` says of the variant's fields.
#[verifier::opaque]
pub open spec fn enum_pause_taken(
    st: StoresView,
    pw: PointerWidth,
    variants: Seq<(String, StructVariant)>,
    s: Seq<u8>,
) -> Option<nat>
    decreases s.len(), 1nat,
{
    if s.len() < 1 || s[0] >= variants.len() {
        Some(0nat)
    } else {
        match dyn_pause_taken(st, pw, struct_arity(variants[s[0] as int].1), s.skip(1)) {
            Some(t) => Some(1 + t),
            None => None,
        }
    }
}

/// How many bytes of an unfinished value of a type with a registered
/// structure the decoder has taken: what `dyn_pause_taken` says of a
/// struct's fields, or what `enum_pause_taken` says of an enum.
#[verifier::opaque]
pub open spec fn type_pause_taken(st: StoresView, pw: PointerWidth, ts: TypeStructure, s: Seq<u8>) -> Option<nat>
    decreases s.len(), 2nat,
{
    match ts.variant {
        TypeStructureVariant::Struct(shape) => dyn_pause_taken(st, pw, struct_arity(shape), s),
        TypeStructureVariant::Enum(variants) => enum_pause_taken(st, pw, variants@, s),
    }
}

/// What a value of a type with a registered structure has taken where it
/// fails or stops, by its structure.
pub(crate) proof fn lemma_type_taken_unfold(st: StoresView, pw: PointerWidth, ts: TypeStructure, s: Seq<u8>)
    ensures
        type_error_taken(st, pw, ts, s) == match ts.variant {
            TypeStructureVariant::Struct(shape) => dyn_error_taken(st, pw, struct_arity(shape), s),
            TypeStructureVariant::Enum(variants) => enum_error_taken(st, pw, variants@, s),
        },
        type_pause_taken(st, pw, ts, s) == match ts.variant {
            TypeStructureVariant::Struct(shape) => dyn_pause_taken(st, pw, struct_arity(shape), s),
            TypeStructureVariant::Enum(variants) => enum_pause_taken(st, pw, variants@, s),
        },
{
    reveal_with_fuel(type_error_taken, 2);
    reveal_with_fuel(type_pause_taken, 2);
    reveal_with_fuel(dyn_error_taken, 1);
    reveal_with_fuel(dyn_pause_taken, 1);
    reveal_with_fuel(enum_error_taken, 1);
    reveal_with_fuel(enum_pause_taken, 1);
}

/// What a value of an enum has taken where it fails or stops: its variant
/// index, then what the variant's fields have taken.
pub(crate) proof fn lemma_enum_taken_unfold(
    st: StoresView,
    pw: PointerWidth,
    variants: Seq<(String, StructVariant)>,
    s: Seq<u8>,
)
    ensures
        enum_error_taken(st, pw, variants, s) == if s.len() < 1 {
            None::<nat>
        } else if s[0] >= variants.len() {
            Some(1nat)
        } else {
            match dyn_error_taken(st, pw, struct_arity(variants[s[0] as int].1), s.skip(1)) {
                Some(t) => Some(1 + t),
                None => None::<nat>,
            }
        },
        enum_pause_taken(st, pw, variants, s) == if s.len() < 1 || s[0] >= variants.len() {
            Some(0nat)
        } else {
            match dyn_pause_taken(st, pw, struct_arity(variants[s[0] as int].1), s.skip(1)) {
                Some(t) => Some(1 + t),
                None => None::<nat>,
            }
        },
{
    reveal_with_fuel(enum_error_taken, 2);
    reveal_with_fuel(enum_pause_taken, 2);
    reveal_with_fuel(dyn_error_taken, 1);
    reveal_with_fuel(dyn_pause_taken, 1);
}

/// A hint whose values have a fixed number of bytes: numbers and booleans.
/// The decoder takes such a value's bytes only once all have arrived; of a
/// character or a string slice it takes the length at once and the rest only
/// once all of it has arrived.
pub open spec fn fixed_width_hint(h: TypeHint) -> bool {
    !(h is Char || h is StringSlice || h is Tuple || h is DynList || h is List || h is WriteId)
}

/// Feeding a value decoder a value's bytes in two pieces reports what
/// feeding them at once reports: where the first call leaves the value
/// unfinished, the second call, given what the first left in the buffer
/// followed by the next piece, reports the parse of all the bytes fed.
pub proof fn lemma_value_pieces<'a>(
    d0: ValueDecoder<'a>,
    d1: ValueDecoder<'a>,
    d2: ValueDecoder<'a>,
    st: StoresView,
    first: Seq<u8>,
    left: Seq<u8>,
    second: Seq<u8>,
    rest: Seq<u8>,
    r: Result<Option<Value>, DecodeError>,
)
    requires
        value_step(d0, d1, st, first, left, Ok(None)),
        value_step(d1, d2, st, left + second, rest, r),
    ensures
        value_step(d0, d2, st, first + second, rest, r),
{
    assert(d1.consumed() + left == d0.consumed() + first);
    assert(d1.consumed() + (left + second) =~= (d1.consumed() + left) + second);
    assert(d0.consumed() + (first + second) =~= (d0.consumed() + first) + second);
}

/// Decoding can be resumed at any split point of a value's bytes: where a
/// fresh decoder leaves the value unfinished on a first piece, feeding what
/// it left in the buffer followed by a second piece reports what a fresh
/// decoder of the same width and hint reports on both pieces at once, and
/// leaves the same bytes in the buffer.
pub proof fn lemma_value_resume_matches_fresh<'a>(
    d0: ValueDecoder<'a>,
    d1: ValueDecoder<'a>,
    d2: ValueDecoder<'a>,
    e0: ValueDecoder<'a>,
    e1: ValueDecoder<'a>,
    st: StoresView,
    first: Seq<u8>,
    left: Seq<u8>,
    second: Seq<u8>,
    rest: Seq<u8>,
    r: Result<Option<Value>, DecodeError>,
    fresh_rest: Seq<u8>,
    fresh_r: Result<Option<Value>, DecodeError>,
)
    requires
        d0.consumed() == Seq::<u8>::empty(),
        e0.consumed() == Seq::<u8>::empty(),
        e0.width() == d0.width(),
        e0.hint() == d0.hint(),
        value_step(d0, d1, st, first, left, Ok(None)),
        value_step(d1, d2, st, left + second, rest, r),
        value_step(e0, e1, st, first + second, fresh_rest, fresh_r),
    ensures
        rest == fresh_rest,
        r is Err ==> r == fresh_r,
        r is Ok && r->Ok_0 is None <==> fresh_r is Ok && fresh_r->Ok_0 is None,
        r matches Ok(Some(v)) ==> fresh_r matches Ok(Some(w)) && model_of_value(v) == model_of_value(w),
{
    lemma_value_pieces(d0, d1, d2, st, first, left, second, rest, r);
    let input = first + second;
    assert(d0.consumed() + input =~= input);
    assert(e0.consumed() + input =~= input);
    match r {
        Ok(None) => {
            let k = value_pause_taken(st, d0.width(), d0.hint(), input)->Some_0;
            assert(d2.consumed() =~= input.take(k as int));
            assert(rest =~= input.skip(k as int));
            match fresh_r {
                Ok(None) => {
                    assert(e1.consumed() =~= input.take(k as int));
                    assert(fresh_rest =~= input.skip(k as int));
                },
                _ => {},
            }
        },
        _ => {},
    }
}

/// A value decoder on this target, fed the raw bytes of a value of the
/// value's hint followed by anything, reports that value in one call and
/// leaves exactly what follows.
pub proof fn lemma_value_decoder_reads_back<'a, T: DecodesBack>(
    value: &T,
    d0: ValueDecoder<'a>,
    d1: ValueDecoder<'a>,
    st: StoresView,
    rest: Seq<u8>,
    src_after: Seq<u8>,
    r: Result<Option<Value>, DecodeError>,
)
    requires
        d0.consumed() == Seq::<u8>::empty(),
        d0.width() == PointerWidth::spec_of_target(),
        d0.hint() == value.spec_hint(),
        value.decoded() is Some,
        value_step(d0, d1, st, value.raw_bytes() + rest, src_after, r),
    ensures
        r matches Ok(Some(v)) && model_of_value(v) == value.decoded()->Some_0,
        src_after == rest,
{
    value.lemma_decodes(st, rest);
    let input = d0.consumed() + (value.raw_bytes() + rest);
    assert(input =~= value.raw_bytes() + rest);
    assert(input.skip(value.raw_bytes().len() as int) =~= rest);
}

impl<'a> ValueDecoder<'a> {
    /// The pointer width of the writer.
    pub closed spec fn width(&self) -> PointerWidth {
        self.pointer_width
    }

    /// The type hint of the value being decoded.
    pub closed spec fn hint(&self) -> TypeHint {
        self.type_hint
    }

    /// The bytes taken from the buffer so far.
    pub closed spec fn consumed(&self) -> Seq<u8> {
        self.consumed@
    }

    /// How deep the decoders nested in this one go.
    pub closed spec fn size(&self) -> nat
        decreases self,
    {
        1 + match self.list_decoder {
            Some(l) => l.size(),
            None => 0nat,
        } + match self.write_decoder {
            Some(w) => w.size(),
            None => 0nat,
        }
    }

    /// The state holds what the consumed bytes say, for the value's hint.
    pub closed spec fn wf(&self, st: StoresView) -> bool
        decreases self,
    {
        let w = self.pointer_width.spec_size();
        let c = self.consumed@;
        match self.type_hint {
            TypeHint::Char => {
                &&& self.list_decoder is None
                &&& self.write_decoder is None
                &&& match self.length_context {
                    None => c == Seq::<u8>::empty(),
                    Some(n) => c.len() == 1 && c[0] == n,
                }
            },
            TypeHint::StringSlice => {
                &&& self.list_decoder is None
                &&& self.write_decoder is None
                &&& match self.length_context {
                    None => c == Seq::<u8>::empty(),
                    Some(n) => c.len() == w && be_nat(c) == n,
                }
            },
            TypeHint::Tuple => {
                &&& self.length_context is None
                &&& self.write_decoder is None
                &&& match self.list_decoder {
                    None => c == Seq::<u8>::empty(),
                    Some(l) => {
                        &&& l.expected_length < 256
                        &&& c == seq![l.expected_length as u8] + l.consumed@
                        &&& l.pointer_width == self.pointer_width
                        &&& l.wf_dyn(st)
                    },
                }
            },
            TypeHint::DynList | TypeHint::List => {
                &&& self.length_context is None
                &&& self.write_decoder is None
                &&& match self.list_decoder {
                    None => c == Seq::<u8>::empty(),
                    Some(l) => {
                        &&& c.len() == w + l.consumed@.len()
                        &&& be_nat(c.take(w as int)) == l.expected_length
                        &&& c.skip(w as int) == l.consumed@
                        &&& l.pointer_width == self.pointer_width
                        &&& if self.type_hint == TypeHint::List {
                            l.wf_fixed(st)
                        } else {
                            l.wf_dyn(st)
                        }
                    },
                }
            },
            TypeHint::WriteId => {
                &&& self.length_context is None
                &&& self.list_decoder is None
                &&& match self.write_decoder {
                    None => c == Seq::<u8>::empty(),
                    Some(d) => {
                        &&& c.len() == 2 + d.consumed@.len()
                        &&& be_nat(c.take(2)) == d.crate_id
                        &&& st.crates.contains_key(d.crate_id)
                        &&& c.skip(2) == d.consumed@
                        &&& d.pointer_width == self.pointer_width
                        &&& d.wf(st)
                    },
                }
            },
            _ => {
                &&& self.length_context is None
                &&& self.list_decoder is None
                &&& self.write_decoder is None
                &&& c == Seq::<u8>::empty()
            },
        }
    }

    /// A decoder that has read nothing yet.
    pub fn new(pointer_width: PointerWidth, type_hint: TypeHint) -> (decoder: ValueDecoder<'a>)
        ensures
            decoder.width() == pointer_width,
            decoder.hint() == type_hint,
            decoder.consumed() == Seq::<u8>::empty(),
            decoder.size() == 1,
            forall|st: StoresView| #[trigger] decoder.wf(st),
    {
        ValueDecoder {
            pointer_width,
            type_hint,
            length_context: None,
            list_decoder: None,
            write_decoder: None,
            consumed: Ghost(Seq::empty()),
        }
    }

    /// Feeds the decoder what the buffer holds. It gives the value once its
    /// last byte has arrived, leaving what follows in the buffer; until then
    /// it takes what it can and gives nothing.
    pub fn decode(&mut self, stores: &'a Stores, src: &mut BytesMut) -> (r: Result<
        Option<Value>,
        DecodeError,
    >)
        requires
            old(self).wf(stores@),
        ensures
            value_step(
                *old(self),
                *final(self),
                stores@,
                buffer_bytes(*old(src)),
                buffer_bytes(*final(src)),
                r,
            ),
            buffer_bytes(*final(src)).len() <= buffer_bytes(*old(src)).len(),
        decreases buffer_bytes(*old(src)).len(), old(self).size(), 1nat,
    {
        match self.type_hint {
            TypeHint::Char => self.decode_char(stores, src),
            TypeHint::StringSlice => self.decode_string(stores, src),
            TypeHint::Tuple | TypeHint::DynList | TypeHint::List => self.decode_list_value(
                stores,
                src,
            ),
            TypeHint::WriteId => self.decode_write_value(stores, src),
            _ => self.decode_fixed_width(stores, src),
        }
    }

    /// A value of fixed width: its bytes are taken all at once or not at all.
    fn decode_fixed_width(&mut self, stores: &'a Stores, src: &mut BytesMut) -> (r: Result<
        Option<Value>,
        DecodeError,
    >)
        requires
            old(self).wf(stores@),
            !(old(self).type_hint is Char || old(self).type_hint is StringSlice
                || old(self).type_hint is Tuple || old(self).type_hint is DynList
                || old(self).type_hint is List || old(self).type_hint is WriteId),
        ensures
            value_step(
                *old(self),
                *final(self),
                stores@,
                buffer_bytes(*old(src)),
                buffer_bytes(*final(src)),
                r,
            ),
            buffer_bytes(*final(src)).len() <= buffer_bytes(*old(src)).len(),
    {
        proof {
            lemma_value_taken_stated(stores@, self.pointer_width, self.type_hint, self.consumed@ + buffer_bytes(*src));
        }
        proof {
            reveal_with_fuel(value_error_taken, 1);
            reveal_with_fuel(value_pause_taken, 1);
            let h = self.type_hint;
            let input = self.consumed@ + buffer_bytes(*src);
            assert(input =~= buffer_bytes(*src));
            if input.len() >= 1 {
                crate::buffer::lemma_be_nat_one(input);
            }
            if h is Boolean {
                lemma_boolean_unfold(stores@, self.pointer_width, input);
            } else if h is I8 || h is I16 || h is I32 || h is I64 || h is I128 || h is Isize {
                lemma_signed_unfold(stores@, self.pointer_width, h, input);
            } else {
                lemma_unsigned_unfold(stores@, self.pointer_width, h, input);
            }
        }
        match self.type_hint {
            TypeHint::U8 => match buffer_try_get_u8(src) {
                Some(n) => Ok(Some(Value::U8(n))),
                None => Ok(None),
            },
            TypeHint::U16 => match buffer_try_get_u16(src) {
                Some(n) => Ok(Some(Value::U16(n))),
                None => Ok(None),
            },
            TypeHint::U32 => match buffer_try_get_u32(src) {
                Some(n) => Ok(Some(Value::U32(n))),
                None => Ok(None),
            },
            TypeHint::U64 => match buffer_try_get_u64(src) {
                Some(n) => Ok(Some(Value::U64(n))),
                None => Ok(None),
            },
            TypeHint::U128 => match buffer_try_get_u128(src) {
                Some(n) => Ok(Some(Value::U128(n))),
                None => Ok(None),
            },
            TypeHint::I8 => match buffer_try_get_i8(src) {
                Some(n) => Ok(Some(Value::I8(n))),
                None => Ok(None),
            },
            TypeHint::I16 => match buffer_try_get_i16(src) {
                Some(n) => Ok(Some(Value::I16(n))),
                None => Ok(None),
            },
            TypeHint::I32 => match buffer_try_get_i32(src) {
                Some(n) => Ok(Some(Value::I32(n))),
                None => Ok(None),
            },
            TypeHint::I64 => match buffer_try_get_i64(src) {
                Some(n) => Ok(Some(Value::I64(n))),
                None => Ok(None),
            },
            TypeHint::I128 => match buffer_try_get_i128(src) {
                Some(n) => Ok(Some(Value::I128(n))),
                None => Ok(None),
            },
            TypeHint::F32 => match buffer_try_get_u32(src) {
                Some(n) => Ok(Some(Value::F32(n))),
                None => Ok(None),
            },
            TypeHint::F64 => match buffer_try_get_u64(src) {
                Some(n) => Ok(Some(Value::F64(n))),
                None => Ok(None),
            },
            TypeHint::Usize => match DecoderUtils::get_target_usize(src, self.pointer_width) {
                Some(n) => Ok(Some(Value::Usize(n))),
                None => Ok(None),
            },
            TypeHint::Isize => match DecoderUtils::get_target_isize(src, self.pointer_width) {
                Some(n) => Ok(Some(Value::Isize(n))),
                None => Ok(None),
            },
            TypeHint::Boolean => match buffer_try_get_u8(src) {
                None => Ok(None),
                Some(byte) => {
                    if byte == 1 {
                        Ok(Some(Value::Boolean(true)))
                    } else if byte == 0 {
                        Ok(Some(Value::Boolean(false)))
                    } else {
                        Err(DecodeError::InvalidValueBytes(TypeHint::Boolean, byte))
                    }
                },
            },
            _ => Ok(None),
        }
    }

    /// A character: its one-byte length, then its UTF-8 bytes.
    fn decode_char(&mut self, stores: &'a Stores, src: &mut BytesMut) -> (r: Result<
        Option<Value>,
        DecodeError,
    >)
        requires
            old(self).wf(stores@),
            old(self).type_hint is Char,
        ensures
            value_step(
                *old(self),
                *final(self),
                stores@,
                buffer_bytes(*old(src)),
                buffer_bytes(*final(src)),
                r,
            ),
            buffer_bytes(*final(src)).len() <= buffer_bytes(*old(src)).len(),
    {
        proof {
            lemma_value_taken_stated(stores@, self.pointer_width, self.type_hint, self.consumed@ + buffer_bytes(*src));
        }
        let ghost input = self.consumed@ + buffer_bytes(*src);
        proof {
            lemma_char_unfold(stores@, self.pointer_width, input);
            reveal_with_fuel(value_error_taken, 1);
            reveal_with_fuel(value_pause_taken, 1);
        }
        let length: usize = match self.length_context {
            Some(n) => n,
            None => match buffer_try_get_u8(src) {
                None => {
                    assert(input =~= buffer_bytes(*src));
                    return Ok(None);
                },
                Some(byte) => {
                    self.length_context = Some(byte as usize);
                    let ghost c = seq![byte];
                    self.consumed = Ghost(c);
                    assert(input =~= self.consumed@ + buffer_bytes(*src));
                    byte as usize
                },
            },
        };
        assert(input[0] == length);
        assert(input.len() == 1 + buffer_bytes(*src).len());
        if buffer_len(src) < length {
            assert(self.wf(stores@));
            assert(parse_value(stores@, self.pointer_width, TypeHint::Char, input) is Incomplete);
            return Ok(None);
        }
        if length < 1 || length > 4 {
            assert(parse_value(stores@, self.pointer_width, TypeHint::Char, input) == Parsed::<ValueModel>::Failed(DecodeError::InvalidCharLength(length as u8)));
            assert(buffer_bytes(*src) =~= input.skip(1));
            return Err(DecodeError::InvalidCharLength(length as u8));
        }
        let ghost rest = buffer_bytes(*src);
        let bytes = buffer_split_to(src, length);
        let array: [u8; 4] = [
            bytes[0],
            if length > 1 {
                bytes[1]
            } else {
                0
            },
            if length > 2 {
                bytes[2]
            } else {
                0
            },
            if length > 3 {
                bytes[3]
            } else {
                0
            },
        ];
        proof {
            assert(input.subrange(1, 1 + length as int) =~= rest.take(length as int));
            assert(array@ =~= pad4(input.subrange(1, 1 + length as int)));
            assert(buffer_bytes(*src) =~= input.skip(1 + length as int));
        }
        match char_from_utf8_array(array) {
            Ok(c) => {
                proof {
                    vstd::utf8::char_u32_cast(c, decode_first_scalar(array@));
                }
                assert(parse_value(stores@, self.pointer_width, TypeHint::Char, input) == Parsed::Done(ValueModel::Char(c), 1 + length as nat));
                proof {
                    crate::values::lemma_model_of_char(c);
                }
                Ok(Some(Value::Char(c)))
            },
            Err(_) => {
                Err(DecodeError::InvalidUtf8Char)
            },
        }
    }

    /// Reads a length field of the writer's pointer width.
    fn get_usize(&self, src: &mut BytesMut) -> (r: Result<Option<usize>, DecodeError>)
        ensures
            match parse_length(self.pointer_width, buffer_bytes(*old(src))) {
                Parsed::Incomplete => r == Ok::<Option<usize>, DecodeError>(None) && buffer_bytes(
                    *final(src),
                ) == buffer_bytes(*old(src)),
                Parsed::Failed(e) => r == Err::<Option<usize>, DecodeError>(e) && buffer_bytes(
                    *final(src),
                ) == buffer_bytes(*old(src)).skip(self.pointer_width.spec_size() as int),
                Parsed::Done(n, w) => r == Ok::<Option<usize>, DecodeError>(Some(n as usize))
                    && w == self.pointer_width.spec_size() && buffer_bytes(*final(src))
                    == buffer_bytes(*old(src)).skip(w as int),
            },
            buffer_bytes(*final(src)).len() <= buffer_bytes(*old(src)).len(),
    {
        match DecoderUtils::get_target_usize(src, self.pointer_width) {
            None => Ok(None),
            Some(length) => {
                if length <= usize::MAX as u64 {
                    Ok(Some(length as usize))
                } else {
                    Err(DecodeError::LengthOverflow(length))
                }
            },
        }
    }

    /// A string slice: its length, then its UTF-8 bytes.
    #[verifier::rlimit(60)]
    fn decode_string(&mut self, stores: &'a Stores, src: &mut BytesMut) -> (r: Result<
        Option<Value>,
        DecodeError,
    >)
        requires
            old(self).wf(stores@),
            old(self).type_hint is StringSlice,
        ensures
            value_step(
                *old(self),
                *final(self),
                stores@,
                buffer_bytes(*old(src)),
                buffer_bytes(*final(src)),
                r,
            ),
            buffer_bytes(*final(src)).len() <= buffer_bytes(*old(src)).len(),
    {
        proof {
            lemma_value_taken_stated(stores@, self.pointer_width, self.type_hint, self.consumed@ + buffer_bytes(*src));
        }
        let ghost input = self.consumed@ + buffer_bytes(*src);
        let ghost w = self.pointer_width.spec_size();
        proof {
            lemma_string_unfold(stores@, self.pointer_width, input);
            reveal_with_fuel(value_error_taken, 1);
            reveal_with_fuel(value_pause_taken, 1);
        }
        let length: usize = match self.length_context {
            Some(n) => n,
            None => {
                assert(input =~= buffer_bytes(*src));
                match self.get_usize(src) {
                    Ok(None) => {
                        return Ok(None);
                    },
                    Err(e) => {
                        assert(buffer_bytes(*src) =~= input.skip(w as int));
                        return Err(e);
                    },
                    Ok(Some(n)) => {
                        self.length_context = Some(n);
                        self.consumed = Ghost(input.take(w as int));
                        assert(input =~= self.consumed@ + buffer_bytes(*src));
                        n
                    },
                }
            },
        };
        assert(input.take(w as int) =~= self.consumed@);
        assert(input.skip(w as int) =~= buffer_bytes(*src));
        if buffer_len(src) < length {
            return Ok(None);
        }
        let ghost rest = buffer_bytes(*src);
        let bytes = buffer_split_to(src, length);
        proof {
            assert(input.subrange(w as int, w + length) =~= rest.take(length as int));
            assert(buffer_bytes(*src) =~= input.skip(w + length));
        }
        match string_from_utf8(bytes) {
            Ok(s) => Ok(Some(Value::String(s))),
            Err(_) => Err(DecodeError::InvalidStringBytes),
        }
    }

    /// Takes the list decoder out of the state, or reads the list's length
    /// and makes one; the length bytes are then all this decoder keeps as
    /// consumed, and the list decoder holds the rest.
    #[verifier::rlimit(60)]
    fn open_list(&mut self, stores: &'a Stores, src: &mut BytesMut) -> (r: Result<
        Option<ListValueDecoder<'a>>,
        DecodeError,
    >)
        requires
            old(self).wf(stores@),
            old(self).type_hint is Tuple || old(self).type_hint is DynList
                || old(self).type_hint is List,
        ensures
            ({
                let st = stores@;
                let pw = old(self).pointer_width;
                let input = old(self).consumed@ + buffer_bytes(*old(src));
                let parsed = parse_value(st, pw, old(self).type_hint, input);
                let tuple = old(self).type_hint is Tuple;
                let fixed = old(self).type_hint is List;
                let d: nat = if tuple {
                    1
                } else {
                    pw.spec_size()
                };
                match r {
                    Ok(Some(l)) => {
                        let list_input = l.consumed@ + buffer_bytes(*final(src));
                        let n = l.expected_length as nat;
                        &&& final(self).consumed@.len() == d
                        &&& final(self).consumed@ + list_input == input
                        &&& final(self).list_decoder is None
                        &&& final(self).type_hint == old(self).type_hint
                        &&& final(self).pointer_width == pw
                        &&& final(self).length_context is None
                        &&& final(self).write_decoder is None
                        &&& l.pointer_width == pw
                        &&& if fixed {
                            l.wf_fixed(st)
                        } else {
                            l.wf_dyn(st)
                        }
                        &&& if tuple {
                            l.expected_length < 256 && final(self).consumed@ == seq![
                                l.expected_length as u8,
                            ]
                        } else {
                            be_nat(final(self).consumed@) == l.expected_length
                        }
                        &&& parsed == wrap_list(
                            if fixed {
                                parse_fixed_list(st, pw, n, list_input)
                            } else {
                                parse_dyn_elems(st, pw, n, list_input)
                            },
                            tuple,
                            d,
                        )
                        &&& (old(self).size() == 1 + l.size() || buffer_bytes(*final(src)).len()
                            < buffer_bytes(*old(src)).len())
                    },
                    Ok(None) => {
                        &&& parsed is Incomplete
                        &&& *final(self) == *old(self)
                        &&& buffer_bytes(*final(src)) == buffer_bytes(*old(src))
                        &&& old(self).consumed@ == Seq::<u8>::empty()
                        &&& buffer_bytes(*old(src)).len() < d
                    },
                    Err(e) => {
                        &&& parsed == Parsed::<ValueModel>::Failed(e)
                        &&& !tuple
                        &&& pw.spec_size() <= input.len()
                        &&& buffer_bytes(*final(src)) == input.skip(pw.spec_size() as int)
                        &&& be_nat(input.take(pw.spec_size() as int)) > usize::MAX
                    },
                }
            }),
            buffer_bytes(*final(src)).len() <= buffer_bytes(*old(src)).len(),
    {
        let ghost st = stores@;
        let ghost pw = self.pointer_width;
        let ghost w = pw.spec_size();
        let ghost input = self.consumed@ + buffer_bytes(*src);
        let tuple = self.type_hint == TypeHint::Tuple;
        let ghost d: nat = if tuple {
            1
        } else {
            w
        };
        match self.list_decoder.take() {
            Some(l) => {
                let ghost prefix = self.consumed@.take(d as int);
                proof {
                    assert(self.consumed@ =~= prefix + l.consumed@);
                    assert(input =~= prefix + (l.consumed@ + buffer_bytes(*src)));
                    assert(input.take(d as int) =~= prefix);
                    assert(input.skip(d as int) =~= l.consumed@ + buffer_bytes(*src));
                    if tuple {
                        lemma_tuple_unfold(st, pw, input);
                    } else {
                        lemma_dyn_list_unfold(st, pw, input);
                        lemma_list_unfold(st, pw, input);
                    }
                }
                self.consumed = Ghost(prefix);
                proof {
                    let list_input = l.consumed@ + buffer_bytes(*src);
                    let n = l.expected_length as nat;
                    assert(self.consumed@.len() == d);
                    assert(self.consumed@ + list_input == input);
                    if tuple {
                        assert(self.consumed@ =~= seq![l.expected_length as u8]);
                        assert(input[0] as nat == n);
                        assert(parse_value(st, pw, self.type_hint, input) == wrap_list(parse_dyn_elems(st, pw, n, list_input), true, d));
                    } else {
                        assert(be_nat(self.consumed@) == l.expected_length);
                        assert(parse_length(pw, input) == Parsed::Done(n, w));
                        if self.type_hint is List {
                            assert(parse_value(st, pw, self.type_hint, input) == wrap_list(parse_fixed_list(st, pw, n, list_input), false, d));
                        } else {
                            assert(parse_value(st, pw, self.type_hint, input) == wrap_list(parse_dyn_elems(st, pw, n, list_input), false, d));
                        }
                    }
                    assert(old(self).size() == 1 + l.size());
                }
                Ok(Some(l))
            },
            None => {
                assert(input =~= buffer_bytes(*src));
                proof {
                    lemma_tuple_unfold(st, pw, input);
                    lemma_dyn_list_unfold(st, pw, input);
                    lemma_list_unfold(st, pw, input);
                }
                let length: usize = if tuple {
                    match buffer_try_get_u8(src) {
                        None => {
                            return Ok(None);
                        },
                        Some(byte) => byte as usize,
                    }
                } else {
                    match self.get_usize(src) {
                        Ok(None) => {
                            return Ok(None);
                        },
                        Err(e) => {
                            return Err(e);
                        },
                        Ok(Some(n)) => n,
                    }
                };
                let l = ListValueDecoder::new(self.pointer_width, length);
                self.consumed = Ghost(input.take(d as int));
                proof {
                    assert(input =~= self.consumed@ + (l.consumed@ + buffer_bytes(*src)));
                    assert(input.skip(d as int) =~= l.consumed@ + buffer_bytes(*src));
                    if tuple {
                        assert(self.consumed@ =~= seq![length as u8]);
                    }
                }
                Ok(Some(l))
            },
        }
    }

    /// A tuple, a list of values that each carry their hint, or a list of
    /// values of one hint: the length, then the list body.
    #[verifier::rlimit(60)]
    fn decode_list_value(&mut self, stores: &'a Stores, src: &mut BytesMut) -> (r: Result<
        Option<Value>,
        DecodeError,
    >)
        requires
            old(self).wf(stores@),
            old(self).type_hint is Tuple || old(self).type_hint is DynList
                || old(self).type_hint is List,
        ensures
            value_step(
                *old(self),
                *final(self),
                stores@,
                buffer_bytes(*old(src)),
                buffer_bytes(*final(src)),
                r,
            ),
            buffer_bytes(*final(src)).len() <= buffer_bytes(*old(src)).len(),
        decreases buffer_bytes(*old(src)).len(), old(self).size(), 0nat,
    {
        proof {
            lemma_value_taken_stated(stores@, self.pointer_width, self.type_hint, self.consumed@ + buffer_bytes(*src));
        }
        let ghost st = stores@;
        let ghost pw = self.pointer_width;
        let ghost input = self.consumed@ + buffer_bytes(*src);
        let tuple = self.type_hint == TypeHint::Tuple;
        let fixed = self.type_hint == TypeHint::List;
        let ghost d: nat = if tuple {
            1
        } else {
            pw.spec_size()
        };
        let mut list = match self.open_list(stores, src) {
            Err(e) => {
                proof {
                    reveal_with_fuel(value_error_taken, 1);
                }
                return Err(e);
            },
            Ok(None) => {
                proof {
                    reveal_with_fuel(value_pause_taken, 1);
                }
                return Ok(None);
            },
            Ok(Some(l)) => l,
        };
        let ghost prefix = self.consumed@;
        let ghost list_input = list.consumed@ + buffer_bytes(*src);
        let ghost n = list.expected_length as nat;
        let result = if fixed {
            list.decode_list(stores, src)
        } else {
            list.decode_dyn_list(stores, src)
        };
        match result {
            Err(e) => {
                proof {
                    assert(input.take(d as int) =~= prefix);
                    assert(input.skip(d as int) =~= list_input);
                    if tuple {
                        assert(input[0] as nat == n);
                    }
                    lemma_list_error_taken(st, pw, self.type_hint, input, d, n);
                    let body_taken = if fixed {
                        fixed_list_error_taken(st, pw, n, list_input)
                    } else {
                        dyn_error_taken(st, pw, n, list_input)
                    };
                    if let Some(t) = body_taken {
                        assert(input.skip((d + t) as int) =~= list_input.skip(t as int));
                    }
                }
                Err(e)
            },
            Ok(None) => {
                let ghost lc = list.consumed@;
                self.consumed = Ghost(prefix + lc);
                self.list_decoder = Some(list);
                proof {
                    assert(input.take(d as int) =~= prefix);
                    assert(input.skip(d as int) =~= list_input);
                    if tuple {
                        assert(input[0] as nat == n);
                    }
                    lemma_list_pause_taken(st, pw, self.type_hint, input, d, n);
                    assert(self.consumed@.take(d as int) =~= prefix);
                    assert(self.consumed@.skip(d as int) =~= lc);
                    assert(self.consumed@ + buffer_bytes(*src) =~= prefix + (lc + buffer_bytes(
                        *src,
                    )));
                }
                Ok(None)
            },
            Ok(Some(values)) => {
                proof {
                    let k = if fixed {
                        parse_fixed_list(st, pw, n, list_input)->Done_1
                    } else {
                        parse_dyn_elems(st, pw, n, list_input)->Done_1
                    };
                    assert(input.skip((d + k) as int) =~= list_input.skip(k as int));
                }
                if tuple {
                    Ok(Some(Value::Tuple(values)))
                } else {
                    Ok(Some(Value::List(values)))
                }
            },
        }
    }

    /// A write id: the crate id, then what the statement id names.
    #[verifier::rlimit(60)]
    fn decode_write_value(&mut self, stores: &'a Stores, src: &mut BytesMut) -> (r: Result<
        Option<Value>,
        DecodeError,
    >)
        requires
            old(self).wf(stores@),
            old(self).type_hint is WriteId,
        ensures
            value_step(
                *old(self),
                *final(self),
                stores@,
                buffer_bytes(*old(src)),
                buffer_bytes(*final(src)),
                r,
            ),
            buffer_bytes(*final(src)).len() <= buffer_bytes(*old(src)).len(),
        decreases buffer_bytes(*old(src)).len(), old(self).size(), 0nat,
    {
        proof {
            lemma_value_taken_stated(stores@, self.pointer_width, self.type_hint, self.consumed@ + buffer_bytes(*src));
        }
        let ghost st = stores@;
        let ghost pw = self.pointer_width;
        let ghost input = self.consumed@ + buffer_bytes(*src);
        proof {
            lemma_write_id_unfold(st, pw, input);
            reveal_with_fuel(value_error_taken, 1);
            reveal_with_fuel(value_pause_taken, 1);
        }
        let mut write_decoder = match self.write_decoder.take() {
            Some(d) => d,
            None => {
                assert(input =~= buffer_bytes(*src));
                let crate_id = match buffer_try_get_u16(src) {
                    None => {
                        return Ok(None);
                    },
                    Some(id) => id,
                };
                if stores.get_crate(crate_id).is_none() {
                    assert(buffer_bytes(*src) =~= input.skip(2));
                    return Err(DecodeError::UnknownCrate(crate_id));
                }
                self.consumed = Ghost(input.take(2));
                WriteStatementDecoder::new(self.pointer_width, crate_id)
            },
        };
        let ghost prefix = self.consumed@.take(2);
        let ghost body_input = write_decoder.consumed@ + buffer_bytes(*src);
        let ghost crate_id = write_decoder.crate_id;
        proof {
            assert(input =~= prefix + body_input);
            assert(input.skip(2) =~= body_input);
            assert(input.take(2) =~= prefix);
            lemma_write_id_unfold(st, pw, input);
        }
        match write_decoder.decode(stores, src) {
            Err(e) => {
                proof {
                    lemma_write_id_error_taken(st, pw, input);
                    if let Some(t) = write_error_taken(st, pw, crate_id, body_input) {
                        assert(input.skip((2 + t) as int) =~= body_input.skip(t as int));
                    }
                }
                Err(e)
            },
            Ok(None) => {
                let ghost wc = write_decoder.consumed@;
                self.consumed = Ghost(prefix + wc);
                self.write_decoder = Some(write_decoder);
                proof {
                    lemma_write_id_pause_taken(st, pw, input);
                    assert(self.consumed@.take(2) =~= prefix);
                    assert(self.consumed@.skip(2) =~= wc);
                    assert(self.consumed@ + buffer_bytes(*src) =~= prefix + (wc + buffer_bytes(
                        *src,
                    )));
                }
                Ok(None)
            },
            Ok(Some(value)) => {
                proof {
                    let k = parse_write_body(st, pw, crate_id, body_input)->Done_1;
                    assert(input.skip((2 + k) as int) =~= body_input.skip(k as int));
                }
                Ok(Some(value))
            },
        }
    }
}

// ---------------------------------------------------------------------------
// Lists
// ---------------------------------------------------------------------------

/// Decodes the values of a tuple, a list or the fields of a struct, each
/// with its own hint byte, or all of one hint written once.
pub struct ListValueDecoder<'a> {
    pointer_width: PointerWidth,
    expected_length: usize,
    buffer: Vec<Value>,
    element_context: Option<Box<ValueDecoder<'a>>>,
    element_type_hint: Option<TypeHint>,
    consumed: Ghost<Seq<u8>>,
    done: Ghost<Seq<u8>>,
}

/// What a call of `ListValueDecoder::decode_dyn_list` (or, where `fixed`,
/// `decode_list`) reports, against the parse of all the bytes it was fed.
pub open spec fn list_step<'a>(
    before: ListValueDecoder<'a>,
    after: ListValueDecoder<'a>,
    st: StoresView,
    src_before: Seq<u8>,
    src_after: Seq<u8>,
    r: Result<Option<Vec<Value>>, DecodeError>,
    fixed: bool,
) -> bool {
    let input = before.consumed() + src_before;
    let n = before.expected() as nat;
    let parsed = if fixed {
        parse_fixed_list(st, before.width(), n, input)
    } else {
        parse_dyn_elems(st, before.width(), n, input)
    };
    match r {
        Ok(Some(vs)) => finished(parsed, model_of_values(vs@), input, src_after),
        Ok(None) => {
            &&& parsed is Incomplete
            &&& if fixed {
                after.wf_fixed(st)
            } else {
                after.wf_dyn(st)
            }
            &&& after.consumed() + src_after == input
            &&& after.width() == before.width()
            &&& after.expected() == before.expected()
            &&& (if fixed {
                fixed_list_pause_taken(st, before.width(), n, input)
            } else {
                dyn_pause_taken(st, before.width(), n, input)
            }) matches Some(k) && after.consumed().len() == k
        },
        Err(e) => {
            &&& parsed == Parsed::<Seq<ValueModel>>::Failed(e)
            &&& (if fixed {
                fixed_list_error_taken(st, before.width(), n, input)
            } else {
                dyn_error_taken(st, before.width(), n, input)
            }) matches Some(k) && k <= input.len() && src_after == input.skip(k as int)
        },
    }
}

impl<'a> ListValueDecoder<'a> {
    pub closed spec fn width(&self) -> PointerWidth {
        self.pointer_width
    }

    /// The number of values the list holds.
    pub closed spec fn expected(&self) -> usize {
        self.expected_length
    }

    /// The bytes taken from the buffer so far.
    pub closed spec fn consumed(&self) -> Seq<u8> {
        self.consumed@
    }

    /// How deep the decoders nested in this one go.
    pub closed spec fn size(&self) -> nat
        decreases self,
    {
        match self.element_context {
            Some(e) => 1 + e.size(),
            None => 2,
        }
    }

    /// The state holds what the consumed bytes say, for values that each
    /// carry their hint.
    pub closed spec fn wf_dyn(&self, st: StoresView) -> bool
        decreases self,
    {
        &&& self.buffer.len() <= self.expected_length
        &&& (self.element_type_hint is Some <==> self.element_context is Some)
        &&& parse_dyn_elems(st, self.pointer_width, self.buffer.len() as nat, self.done@)
            == Parsed::Done(model_of_values(self.buffer@), self.done@.len())
        &&& match self.element_context {
            None => self.consumed@ == self.done@,
            Some(e) => {
                &&& self.buffer.len() < self.expected_length
                &&& self.element_type_hint == Some(e.type_hint)
                &&& e.pointer_width == self.pointer_width
                &&& e.wf(st)
                &&& self.consumed@ == self.done@ + seq![type_hint_repr(e.type_hint)] + e.consumed@
            },
        }
    }

    /// The state holds what the consumed bytes say, for values of one hint
    /// written once before them.
    pub closed spec fn wf_fixed(&self, st: StoresView) -> bool
        decreases self,
    {
        &&& self.buffer.len() <= self.expected_length
        &&& match self.element_type_hint {
            None => {
                &&& self.buffer.len() == 0
                &&& self.element_context is None
                &&& self.consumed@ == Seq::<u8>::empty()
                &&& self.done@ == Seq::<u8>::empty()
            },
            Some(h) => {
                &&& self.expected_length > 0
                &&& parse_fixed_elems(st, self.pointer_width, h, self.buffer.len() as nat, self.done@)
                    == Parsed::Done(model_of_values(self.buffer@), self.done@.len())
                &&& match self.element_context {
                    None => self.consumed@ == seq![type_hint_repr(h)] + self.done@,
                    Some(e) => {
                        &&& self.buffer.len() < self.expected_length
                        &&& e.type_hint == h
                        &&& e.pointer_width == self.pointer_width
                        &&& e.wf(st)
                        &&& self.consumed@ == seq![type_hint_repr(h)] + self.done@ + e.consumed@
                    },
                }
            },
        }
    }

    /// A decoder for `expected_length` values that has read nothing yet.
    pub fn new(pointer_width: PointerWidth, expected_length: usize) -> (decoder: ListValueDecoder<'a>)
        ensures
            decoder.width() == pointer_width,
            decoder.expected() == expected_length,
            decoder.consumed() == Seq::<u8>::empty(),
            decoder.size() == 2,
            forall|st: StoresView| #[trigger] decoder.wf_dyn(st),
            forall|st: StoresView| #[trigger] decoder.wf_fixed(st),
    {
        let decoder = ListValueDecoder {
            pointer_width,
            expected_length,
            buffer: Vec::new(),
            element_context: None,
            element_type_hint: None,
            consumed: Ghost(Seq::empty()),
            done: Ghost(Seq::empty()),
        };
        proof {
            assert(model_of_values(decoder.buffer@) =~= Seq::<ValueModel>::empty());
            assert forall|st: StoresView| #[trigger] decoder.wf_dyn(st) by {
                lemma_elems_zero(st, pointer_width, TypeHint::Boolean, Seq::empty());
            }
        }
        decoder
    }

    proof fn lemma_size(&self)
        ensures
            self.size() >= 2,
    {
        if let Some(e) = self.element_context {
            assert(e.size() >= 1);
        }
    }

    /// Records a value read after its hint byte from exactly the bytes `e`.
    fn accept_dyn(&mut self, v: Value, h: TypeHint, Ghost(e): Ghost<Seq<u8>>, Ghost(st): Ghost<StoresView>)
        requires
            old(self).element_context is None,
            old(self).buffer.len() < old(self).expected_length,
            parse_dyn_elems(st, old(self).pointer_width, old(self).buffer.len() as nat, old(self).done@)
                == Parsed::Done(model_of_values(old(self).buffer@), old(self).done@.len()),
            parse_value(st, old(self).pointer_width, h, e) == Parsed::Done(model_of_value(v), e.len()),
        ensures
            final(self).wf_dyn(st),
            final(self).done@ == old(self).done@ + seq![type_hint_repr(h)] + e,
            final(self).consumed@ == final(self).done@,
            final(self).pointer_width == old(self).pointer_width,
            final(self).expected_length == old(self).expected_length,
            final(self).buffer.len() == old(self).buffer.len() + 1,
            final(self).element_context is None,
    {
        let ghost pw = self.pointer_width;
        let ghost j = self.buffer.len() as nat;
        let ghost done = self.done@;
        proof {
            lemma_dyn_single(st, pw, h, e, model_of_value(v));
            lemma_dyn_split(st, pw, j + 1, j, done, seq![type_hint_repr(h)] + e, model_of_values(self.buffer@));
            lemma_model_of_values_push(self.buffer@, v);
            assert(done + (seq![type_hint_repr(h)] + e) =~= done + seq![type_hint_repr(h)] + e);
            assert(model_of_values(self.buffer@) + seq![model_of_value(v)] =~= model_of_values(
                self.buffer@,
            ).push(model_of_value(v)));
        }
        self.buffer.push(v);
        self.element_type_hint = None;
        self.done = Ghost(done + seq![type_hint_repr(h)] + e);
        self.consumed = Ghost(self.done@);
    }

    /// Records a value of the list's hint read from exactly the bytes `e`.
    fn accept_fixed(&mut self, v: Value, h: TypeHint, Ghost(e): Ghost<Seq<u8>>, Ghost(st): Ghost<StoresView>)
        requires
            old(self).element_context is None,
            old(self).element_type_hint == Some(h),
            old(self).buffer.len() < old(self).expected_length,
            parse_fixed_elems(st, old(self).pointer_width, h, old(self).buffer.len() as nat, old(self).done@)
                == Parsed::Done(model_of_values(old(self).buffer@), old(self).done@.len()),
            parse_value(st, old(self).pointer_width, h, e) == Parsed::Done(model_of_value(v), e.len()),
        ensures
            final(self).wf_fixed(st),
            final(self).done@ == old(self).done@ + e,
            final(self).consumed@ == seq![type_hint_repr(h)] + final(self).done@,
            final(self).pointer_width == old(self).pointer_width,
            final(self).expected_length == old(self).expected_length,
            final(self).buffer.len() == old(self).buffer.len() + 1,
            final(self).element_context is None,
            final(self).element_type_hint == Some(h),
    {
        let ghost pw = self.pointer_width;
        let ghost j = self.buffer.len() as nat;
        let ghost done = self.done@;
        proof {
            lemma_fixed_step(st, pw, 1, h, e);
            lemma_elems_zero(st, pw, h, e.skip(e.len() as int));
            assert(seq![model_of_value(v)] + Seq::<ValueModel>::empty() =~= seq![model_of_value(v)]);
            lemma_fixed_split(st, pw, h, j + 1, j, done, e, model_of_values(self.buffer@));
            lemma_model_of_values_push(self.buffer@, v);
            assert(model_of_values(self.buffer@) + seq![model_of_value(v)] =~= model_of_values(
                self.buffer@,
            ).push(model_of_value(v)));
        }
        self.buffer.push(v);
        self.done = Ghost(done + e);
        self.consumed = Ghost(seq![type_hint_repr(h)] + self.done@);
    }

    /// Decodes the values, each with its own hint byte.
    #[verifier::rlimit(100)]
    pub fn decode_dyn_list(&mut self, stores: &'a Stores, src: &mut BytesMut) -> (r: Result<
        Option<Vec<Value>>,
        DecodeError,
    >)
        requires
            old(self).wf_dyn(stores@),
        ensures
            list_step(
                *old(self),
                *final(self),
                stores@,
                buffer_bytes(*old(src)),
                buffer_bytes(*final(src)),
                r,
                false,
            ),
            buffer_bytes(*final(src)).len() <= buffer_bytes(*old(src)).len(),
        decreases buffer_bytes(*old(src)).len(), old(self).size(), 1nat,
    {
        proof {
            lemma_dyn_taken_stated(stores@, self.pointer_width, self.expected_length as nat, self.consumed@ + buffer_bytes(*src));
        }
        let ghost st = stores@;
        let ghost pw = self.pointer_width;
        let ghost n = self.expected_length as nat;
        let ghost input = self.consumed@ + buffer_bytes(*src);
        proof {
            self.lemma_size();
        }
        while self.buffer.len() < self.expected_length
            invariant
                stores@ == st,
                self.wf_dyn(st),
                self.pointer_width == pw,
                self.expected_length == n,
                self.consumed@ + buffer_bytes(*src) == input,
                input == old(self).consumed@ + buffer_bytes(*old(src)),
                buffer_bytes(*src).len() <= buffer_bytes(*old(src)).len(),
                self.element_context is None || self.element_context == old(self).element_context,
                old(self).size() >= 2,
                pw == old(self).pointer_width,
                n == old(self).expected_length,
            decreases n - self.buffer.len(),
        {
            let ghost j = self.buffer.len() as nat;
            let ghost done = self.done@;
            let ghost src0 = buffer_bytes(*src);
            let h = match self.element_type_hint {
                Some(h) => h,
                None => match DecoderUtils::get_type_hint(src) {
                    Ok(None) => {
                        proof {
                            lemma_dyn_split(st, pw, n, j, done, src0, model_of_values(self.buffer@));
                            lemma_dyn_head(st, pw, (n - j) as nat, src0);
                            lemma_dyn_pause_split(st, pw, n, j, done, src0, model_of_values(self.buffer@));
                            lemma_dyn_pause_empty(st, pw, (n - j) as nat);
                            assert(src0 =~= Seq::<u8>::empty());
                        }
                        return Ok(None);
                    },
                    Err(e) => {
                        proof {
                            lemma_dyn_split(st, pw, n, j, done, src0, model_of_values(self.buffer@));
                            lemma_dyn_head(st, pw, (n - j) as nat, src0);
                            lemma_dyn_error_split(st, pw, n, j, done, src0, model_of_values(self.buffer@));
                            reveal_with_fuel(dyn_error_taken, 1);
                            assert(buffer_bytes(*src) =~= input.skip((done.len() + 1) as int));
                        }
                        return Err(e);
                    },
                    Ok(Some(h)) => {
                        proof {
                            lemma_type_hint_repr_roundtrip(h, src0[0]);
                            assert(src0 =~= seq![type_hint_repr(h)] + buffer_bytes(*src));
                        }
                        self.element_type_hint = Some(h);
                        self.consumed = Ghost(done + seq![type_hint_repr(h)]);
                        h
                    },
                },
            };
            let mut element = match self.element_context.take() {
                Some(e) => e,
                None => Box::new(ValueDecoder::new(self.pointer_width, h)),
            };
            let ghost x = element.consumed@ + buffer_bytes(*src);
            proof {
                assert(input =~= done + (seq![type_hint_repr(h)] + x));
                lemma_dyn_split(
                    st,
                    pw,
                    n,
                    j,
                    done,
                    seq![type_hint_repr(h)] + x,
                    model_of_values(self.buffer@),
                );
                lemma_dyn_step(st, pw, (n - j) as nat, h, x);
            }
            match (&mut *element).decode(stores, src) {
                Err(e) => {
                    proof {
                        let y = seq![type_hint_repr(h)] + x;
                        lemma_dyn_error_split(st, pw, n, j, done, y, model_of_values(self.buffer@));
                        assert(parse_value(st, pw, h, x) is Failed);
                        lemma_dyn_error_head(st, pw, (n - j) as nat, h, x);
                        assert(input =~= done + y);
                        if let Some(t) = value_error_taken(st, pw, h, x) {
                            assert(buffer_bytes(*src) == x.skip(t as int));
                            assert(input.skip((done.len() + 1 + t) as int) =~= x.skip(t as int));
                            assert(dyn_error_taken(st, pw, n, input) == Some((done.len() + 1 + t) as nat));
                        }
                    }
                    return Err(e);
                },
                Ok(None) => {
                    let ghost ec = element.consumed@;
                    self.element_context = Some(element);
                    self.consumed = Ghost(done + seq![type_hint_repr(h)] + ec);
                    assert(self.consumed@ + buffer_bytes(*src) =~= done + (seq![type_hint_repr(h)]
                        + (ec + buffer_bytes(*src))));
                    proof {
                        let y = seq![type_hint_repr(h)] + x;
                        lemma_dyn_pause_split(st, pw, n, j, done, y, model_of_values(self.buffer@));
                        lemma_dyn_pause_head(st, pw, (n - j) as nat, h, x);
                    }
                    return Ok(None);
                },
                Ok(Some(v)) => {
                    let ghost k = parse_value(st, pw, h, x)->Done_1;
                    proof {
                        lemma_value_prefix(st, pw, h, x);
                    }
                    self.accept_dyn(v, h, Ghost(x.take(k as int)), Ghost(st));
                    assert(self.done@ + buffer_bytes(*src) =~= done + (seq![type_hint_repr(h)] + x));
                },
            }
        }
        proof {
            lemma_elems_zero(st, pw, TypeHint::Boolean, buffer_bytes(*src));
            lemma_dyn_split(st, pw, n, n, self.done@, buffer_bytes(*src), model_of_values(self.buffer@));
            assert(model_of_values(self.buffer@) + Seq::<ValueModel>::empty() =~= model_of_values(
                self.buffer@,
            ));
            assert(input.skip(self.done@.len() as int) =~= buffer_bytes(*src));
        }
        let mut values: Vec<Value> = Vec::new();
        std::mem::swap(&mut values, &mut self.buffer);
        Ok(Some(values))
    }

    /// Decodes the hint byte, if the list is not empty, then the values.
    #[verifier::rlimit(40)]
    pub fn decode_list(&mut self, stores: &'a Stores, src: &mut BytesMut) -> (r: Result<
        Option<Vec<Value>>,
        DecodeError,
    >)
        requires
            old(self).wf_fixed(stores@),
        ensures
            list_step(
                *old(self),
                *final(self),
                stores@,
                buffer_bytes(*old(src)),
                buffer_bytes(*final(src)),
                r,
                true,
            ),
            buffer_bytes(*final(src)).len() <= buffer_bytes(*old(src)).len(),
        decreases buffer_bytes(*old(src)).len(), old(self).size(), 1nat,
    {
        proof {
            lemma_fixed_list_taken_stated(stores@, self.pointer_width, self.expected_length as nat, self.consumed@ + buffer_bytes(*src));
        }
        let ghost st = stores@;
        let ghost pw = self.pointer_width;
        let ghost n = self.expected_length as nat;
        let ghost input = self.consumed@ + buffer_bytes(*src);
        proof {
            self.lemma_size();
        }
        if self.expected_length == 0 {
            assert(input =~= buffer_bytes(*src));
            assert(input.skip(0) =~= input);
            let mut values: Vec<Value> = Vec::new();
            std::mem::swap(&mut values, &mut self.buffer);
            return Ok(Some(values));
        }
        let h = match self.element_type_hint {
            Some(h) => h,
            None => {
                assert(input =~= buffer_bytes(*src));
                let ghost src0 = buffer_bytes(*src);
                match DecoderUtils::get_type_hint(src) {
                    Ok(None) => {
                        proof {
                            lemma_fixed_list_pause_unfold(st, pw, n, input);
                        }
                        return Ok(None);
                    },
                    Err(e) => {
                        proof {
                            lemma_fixed_list_error_unfold(st, pw, n, input);
                            assert(buffer_bytes(*src) =~= input.skip(1));
                        }
                        return Err(e);
                    },
                    Ok(Some(h)) => {
                        proof {
                            lemma_type_hint_repr_roundtrip(h, src0[0]);
                            assert(src0 =~= seq![type_hint_repr(h)] + buffer_bytes(*src));
                        }
                        self.element_type_hint = Some(h);
                        let ghost c = seq![type_hint_repr(h)];
                        self.consumed = Ghost(c);
                        assert(self.consumed@ =~= seq![type_hint_repr(h)] + self.done@);
                        proof {
                            lemma_elems_zero(st, pw, h, self.done@);
                            assert(model_of_values(self.buffer@) =~= Seq::<ValueModel>::empty());
                        }
                        h
                    },
                }
            },
        };
        proof {
            lemma_type_hint_repr_roundtrip(h, type_hint_repr(h));
        }
        while self.buffer.len() < self.expected_length
            invariant
                stores@ == st,
                self.wf_fixed(st),
                self.element_type_hint == Some(h),
                self.pointer_width == pw,
                self.expected_length == n,
                n > 0,
                type_hint_from_repr(type_hint_repr(h)) == Some(h),
                self.consumed@ + buffer_bytes(*src) == input,
                input == old(self).consumed@ + buffer_bytes(*old(src)),
                buffer_bytes(*src).len() <= buffer_bytes(*old(src)).len(),
                self.element_context is None || self.element_context == old(self).element_context,
                old(self).size() >= 2,
                pw == old(self).pointer_width,
                n == old(self).expected_length,
            decreases n - self.buffer.len(),
        {
            let ghost j = self.buffer.len() as nat;
            let ghost done = self.done@;
            let mut element = match self.element_context.take() {
                Some(e) => e,
                None => Box::new(ValueDecoder::new(self.pointer_width, h)),
            };
            let ghost x = element.consumed@ + buffer_bytes(*src);
            proof {
                assert(input =~= seq![type_hint_repr(h)] + (done + x));
                assert(input.skip(1) =~= done + x);
                lemma_fixed_split(st, pw, h, n, j, done, x, model_of_values(self.buffer@));
                lemma_fixed_step(st, pw, (n - j) as nat, h, x);
                assert(Seq::<ValueModel>::empty() + model_of_values(self.buffer@) =~= model_of_values(
                    self.buffer@,
                ));
                lemma_prepend_prepend(
                    Seq::empty(),
                    1,
                    model_of_values(self.buffer@),
                    done.len(),
                    parse_fixed_elems(st, pw, h, (n - j) as nat, x),
                );
            }
            match (&mut *element).decode(stores, src) {
                Err(e) => {
                    proof {
                        lemma_fixed_list_error_unfold(st, pw, n, input);
                        lemma_fixed_error_split(st, pw, h, n, j, done, x, model_of_values(self.buffer@));
                        lemma_fixed_error_head(st, pw, h, (n - j) as nat, x);
                        if let Some(t) = value_error_taken(st, pw, h, x) {
                            assert(input.skip((1 + done.len() + t) as int) =~= x.skip(t as int));
                        }
                    }
                    return Err(e);
                },
                Ok(None) => {
                    let ghost ec = element.consumed@;
                    self.element_context = Some(element);
                    self.consumed = Ghost(seq![type_hint_repr(h)] + done + ec);
                    assert(self.consumed@ + buffer_bytes(*src) =~= seq![type_hint_repr(h)] + (done
                        + (ec + buffer_bytes(*src))));
                    proof {
                        lemma_fixed_list_pause_unfold(st, pw, n, input);
                        lemma_fixed_pause_split(st, pw, h, n, j, done, x, model_of_values(self.buffer@));
                        lemma_fixed_pause_head(st, pw, h, (n - j) as nat, x);
                    }
                    return Ok(None);
                },
                Ok(Some(v)) => {
                    let ghost k = parse_value(st, pw, h, x)->Done_1;
                    proof {
                        lemma_value_prefix(st, pw, h, x);
                    }
                    self.accept_fixed(v, h, Ghost(x.take(k as int)), Ghost(st));
                    assert(self.consumed@ + buffer_bytes(*src) =~= seq![type_hint_repr(h)] + (done
                        + x));
                },
            }
        }
        proof {
            let done = self.done@;
            assert(input =~= seq![type_hint_repr(h)] + (done + buffer_bytes(*src)));
            assert(input.skip(1) =~= done + buffer_bytes(*src));
            lemma_elems_zero(st, pw, h, buffer_bytes(*src));
            lemma_fixed_split(st, pw, h, n, n, done, buffer_bytes(*src), model_of_values(self.buffer@));
            assert(Seq::<ValueModel>::empty() + (model_of_values(self.buffer@) + Seq::<
                ValueModel,
            >::empty()) =~= model_of_values(self.buffer@));
            assert(input.skip((1 + done.len()) as int) =~= buffer_bytes(*src));
        }
        let mut values: Vec<Value> = Vec::new();
        std::mem::swap(&mut values, &mut self.buffer);
        Ok(Some(values))
    }
}

// ---------------------------------------------------------------------------
// Write statements
// ---------------------------------------------------------------------------

/// Decodes what a write id names, once its crate id has been read.
pub struct WriteStatementDecoder<'a> {
    pointer_width: PointerWidth,
    crate_id: u16,
    stage: WriteStatementDecoderStage<'a>,
    consumed: Ghost<Seq<u8>>,
}

enum WriteStatementDecoderStage<'a> {
    New,
    Segments(Box<SegmentsDecoder<'a>>),
    TypeStructure(TypeStructureDecoder<'a>),
}

/// What a call of `WriteStatementDecoder::decode` reports, against the parse
/// of all the bytes it was fed.
pub open spec fn write_step<'a>(
    before: WriteStatementDecoder<'a>,
    after: WriteStatementDecoder<'a>,
    st: StoresView,
    src_before: Seq<u8>,
    src_after: Seq<u8>,
    r: Result<Option<Value>, DecodeError>,
) -> bool {
    let input = before.consumed() + src_before;
    let parsed = parse_write_body(st, before.width(), before.crate_id(), input);
    match r {
        Ok(Some(v)) => finished(parsed, model_of_value(v), input, src_after),
        Ok(None) => {
            &&& parsed is Incomplete
            &&& after.wf(st)
            &&& after.consumed() + src_after == input
            &&& after.width() == before.width()
            &&& after.crate_id() == before.crate_id()
            &&& write_pause_taken(st, before.width(), before.crate_id(), input) matches Some(k)
                && after.consumed().len() == k
        },
        Err(e) => {
            &&& parsed == Parsed::<ValueModel>::Failed(e)
            &&& write_error_taken(st, before.width(), before.crate_id(), input) matches Some(k)
                && k <= input.len() && src_after == input.skip(k as int)
        },
    }
}

impl<'a> WriteStatementDecoder<'a> {
    pub closed spec fn width(&self) -> PointerWidth {
        self.pointer_width
    }

    /// The crate the statement belongs to.
    pub closed spec fn crate_id(&self) -> u16 {
        self.crate_id
    }

    /// The bytes taken from the buffer so far.
    pub closed spec fn consumed(&self) -> Seq<u8> {
        self.consumed@
    }

    /// How deep the decoders nested in this one go.
    pub closed spec fn size(&self) -> nat
        decreases self,
    {
        match self.stage {
            WriteStatementDecoderStage::New => 1,
            WriteStatementDecoderStage::Segments(s) => 1 + s.size(),
            WriteStatementDecoderStage::TypeStructure(t) => 1 + t.size(),
        }
    }

    /// The state holds what the consumed bytes say.
    pub closed spec fn wf(&self, st: StoresView) -> bool
        decreases self,
    {
        let c = self.consumed@;
        let key = statement_key(self.crate_id, be_nat(c.take(2)) as u16);
        match self.stage {
            WriteStatementDecoderStage::New => c == Seq::<u8>::empty(),
            WriteStatementDecoderStage::Segments(s) => {
                &&& c.len() == 2 + s.consumed@.len()
                &&& c.skip(2) == s.consumed@
                &&& st.writes.contains_key(key)
                &&& st.writes[key] == WriteStatement::FormatExpression(*s.stored_expression)
                &&& s.pointer_width == self.pointer_width
                &&& s.wf(st)
            },
            WriteStatementDecoderStage::TypeStructure(t) => {
                &&& c.len() == 2 + t.consumed().len()
                &&& c.skip(2) == t.consumed()
                &&& st.writes.contains_key(key)
                &&& st.writes[key] == WriteStatement::TypeStructure(*t.type_structure)
                &&& t.pointer_width == self.pointer_width
                &&& t.wf(st)
            },
        }
    }

    /// A decoder for a statement of the given crate that has read nothing yet.
    pub fn new(pointer_width: PointerWidth, crate_id: u16) -> (decoder: WriteStatementDecoder<'a>)
        ensures
            decoder.width() == pointer_width,
            decoder.crate_id() == crate_id,
            decoder.consumed() == Seq::<u8>::empty(),
            decoder.size() == 1,
            forall|st: StoresView| #[trigger] decoder.wf(st),
    {
        WriteStatementDecoder {
            pointer_width,
            crate_id,
            stage: WriteStatementDecoderStage::New,
            consumed: Ghost(Seq::empty()),
        }
    }

    /// Feeds the decoder what the buffer holds: the statement id, then the
    /// arguments of its format expression or the value of its type.
    #[verifier::rlimit(60)]
    pub fn decode(&mut self, stores: &'a Stores, src: &mut BytesMut) -> (r: Result<
        Option<Value>,
        DecodeError,
    >)
        requires
            old(self).wf(stores@),
        ensures
            write_step(
                *old(self),
                *final(self),
                stores@,
                buffer_bytes(*old(src)),
                buffer_bytes(*final(src)),
                r,
            ),
            buffer_bytes(*final(src)).len() <= buffer_bytes(*old(src)).len(),
        decreases buffer_bytes(*old(src)).len(), old(self).size(), 1nat,
    {
        proof {
            lemma_write_taken_stated(stores@, self.pointer_width, self.crate_id, self.consumed@ + buffer_bytes(*src));
        }
        let ghost st = stores@;
        let ghost pw = self.pointer_width;
        let ghost input = self.consumed@ + buffer_bytes(*src);
        proof {
            lemma_write_error_unfold(st, pw, self.crate_id, input);
            lemma_write_pause_unfold(st, pw, self.crate_id, input);
        }
        let mut current = WriteStatementDecoderStage::New;
        std::mem::swap(&mut current, &mut self.stage);
        match current {
            WriteStatementDecoderStage::New => {
                assert(input =~= buffer_bytes(*src));
                let id = match buffer_try_get_u16(src) {
                    None => {
                        return Ok(None);
                    },
                    Some(id) => id,
                };
                let statement = match stores.get_write_statement(self.crate_id, id) {
                    None => {
                        assert(buffer_bytes(*src) =~= input.skip(2));
                        return match stores.get_crate(self.crate_id) {
                            Some(record) => Err(
                                DecodeError::UnknownStatement(
                                    id,
                                    StatementKind::Write,
                                    record.name.clone(),
                                ),
                            ),
                            None => Err(DecodeError::UnknownCrate(self.crate_id)),
                        };
                    },
                    Some(statement) => statement,
                };
                match statement {
                    WriteStatement::FormatExpression(format_expression) => {
                        self.stage = WriteStatementDecoderStage::Segments(
                            Box::new(SegmentsDecoder::new(self.pointer_width, format_expression)),
                        );
                    },
                    WriteStatement::TypeStructure(type_structure) => {
                        self.stage = WriteStatementDecoderStage::TypeStructure(
                            TypeStructureDecoder::new(self.pointer_width, type_structure),
                        );
                    },
                }
                self.consumed = Ghost(input.take(2));
                proof {
                    assert(input =~= self.consumed@ + buffer_bytes(*src));
                    assert(self.consumed@.take(2) =~= self.consumed@);
                    assert(self.consumed@.skip(2) =~= Seq::<u8>::empty());
                    assert(be_nat(self.consumed@.take(2)) as u16 == id);
                    let key = statement_key(self.crate_id, id);
                    assert(st.writes.contains_key(key));
                    match &self.stage {
                        WriteStatementDecoderStage::Segments(sd) => {
                            assert(st.writes[key] == WriteStatement::FormatExpression(*sd.stored_expression));
                            assert(sd.wf(st));
                            assert(sd.consumed@ == Seq::<u8>::empty());
                        },
                        WriteStatementDecoderStage::TypeStructure(td) => {
                            assert(st.writes[key] == WriteStatement::TypeStructure(*td.type_structure));
                            assert(td.wf(st));
                            assert(td.consumed() == Seq::<u8>::empty());
                        },
                        _ => {},
                    }
                    assert(self.wf(st));
                }
                self.decode(stores, src)
            },
            WriteStatementDecoderStage::Segments(mut segments) => {
                let ghost prefix = self.consumed@.take(2);
                let ghost fe = *segments.stored_expression;
                let stored_expression = segments.stored_expression;
                let ghost body = segments.consumed@ + buffer_bytes(*src);
                proof {
                    assert(input =~= prefix + body);
                    assert(input.skip(2) =~= body);
                    assert(input.take(2) =~= prefix);
                }
                match segments.decode(stores, src) {
                    Err(e) => {
                        proof {
                            if let Some(t) = dyn_error_taken(st, pw, expected_arg_count(fe), body) {
                                assert(input.skip((2 + t) as int) =~= body.skip(t as int));
                            }
                        }
                        Err(e)
                    },
                    Ok(None) => {
                        let ghost sc = segments.consumed@;
                        self.consumed = Ghost(prefix + sc);
                        self.stage = WriteStatementDecoderStage::Segments(segments);
                        proof {
                            assert(self.consumed@.take(2) =~= prefix);
                            assert(self.consumed@.skip(2) =~= sc);
                            assert(self.consumed@ + buffer_bytes(*src) =~= prefix + (sc
                                + buffer_bytes(*src)));
                            assert(parse_write_body(st, pw, self.crate_id, input) is Incomplete);
                            assert(self.wf(st));
                        }
                        Ok(None)
                    },
                    Ok(Some(decoded_values)) => {
                        proof {
                            let k = parse_dyn_elems(st, pw, expected_arg_count(fe), body)->Done_1;
                            assert(input.skip((2 + k) as int) =~= body.skip(k as int));
                        }
                        let expression = stored_expression.expression.clone();
                        let append_newline = stored_expression.append_newline;
                        proof {
                            crate::values::lemma_model_of_nested(
                                expression,
                                append_newline,
                                decoded_values,
                            );
                        }
                        let v = Value::NestedFormatExpression {
                            expression,
                            append_newline,
                            decoded_values,
                        };
                        assert(parse_write_body(st, pw, self.crate_id, input) matches Parsed::Done(m, k) && m == model_of_value(v));
                        assert(finished(parse_write_body(st, pw, self.crate_id, input), model_of_value(v), input, buffer_bytes(*src)));
                        Ok(Some(v))
                    },
                }
            },
            WriteStatementDecoderStage::TypeStructure(mut type_structure_decoder) => {
                let ghost prefix = self.consumed@.take(2);
                let ghost ts = *type_structure_decoder.type_structure;
                let ghost body = type_structure_decoder.consumed() + buffer_bytes(*src);
                proof {
                    assert(input =~= prefix + body);
                    assert(input.skip(2) =~= body);
                    assert(input.take(2) =~= prefix);
                }
                match type_structure_decoder.decode(stores, src) {
                    Err(e) => {
                        proof {
                            if let Some(t) = type_error_taken(st, pw, ts, body) {
                                assert(input.skip((2 + t) as int) =~= body.skip(t as int));
                            }
                        }
                        Err(e)
                    },
                    Ok(None) => {
                        let ghost tc = type_structure_decoder.consumed();
                        self.consumed = Ghost(prefix + tc);
                        self.stage = WriteStatementDecoderStage::TypeStructure(type_structure_decoder);
                        proof {
                            assert(self.consumed@.take(2) =~= prefix);
                            assert(self.consumed@.skip(2) =~= tc);
                            assert(self.consumed@ + buffer_bytes(*src) =~= prefix + (tc
                                + buffer_bytes(*src)));
                            assert(parse_write_body(st, pw, self.crate_id, input) is Incomplete);
                            assert(self.wf(st));
                        }
                        Ok(None)
                    },
                    Ok(Some(value)) => {
                        proof {
                            let k = parse_type_structure(st, pw, ts, body)->Done_1;
                            assert(input.skip((2 + k) as int) =~= body.skip(k as int));
                            crate::values::lemma_model_of_type_value(value);
                        }
                        assert(finished(parse_write_body(st, pw, self.crate_id, input), model_of_value(Value::Type(value)), input, buffer_bytes(*src)));
                        Ok(Some(Value::Type(value)))
                    },
                }
            },
        }
    }
}

// ---------------------------------------------------------------------------
// Format expression arguments
// ---------------------------------------------------------------------------

/// Decodes the arguments of a format expression, each with its own hint
/// byte; positional ones first, then the named ones.
pub struct SegmentsDecoder<'a> {
    pointer_width: PointerWidth,
    current_value: Option<ValueDecoder<'a>>,
    stored_expression: &'a StoredFormatExpression,
    decoded_values: DecodedValues,
    consumed: Ghost<Seq<u8>>,
    done: Ghost<Seq<u8>>,
    decoded: Ghost<Seq<ValueModel>>,
}

/// What a call of `SegmentsDecoder::decode` reports, against the parse of
/// all the bytes it was fed.
pub open spec fn segments_step<'a>(
    before: SegmentsDecoder<'a>,
    after: SegmentsDecoder<'a>,
    st: StoresView,
    src_before: Seq<u8>,
    src_after: Seq<u8>,
    r: Result<Option<DecodedValues>, DecodeError>,
) -> bool {
    let input = before.consumed() + src_before;
    let fe = before.expression();
    let parsed = parse_dyn_elems(st, before.width(), expected_arg_count(fe), input);
    match r {
        Ok(Some(values)) => {
            &&& parsed matches Parsed::Done(vs, k)
            &&& model_of_decoded(values) == split_args(fe, vs)
            &&& k <= input.len()
            &&& src_after == input.skip(k as int)
        },
        Ok(None) => {
            &&& parsed is Incomplete
            &&& after.wf(st)
            &&& after.consumed() + src_after == input
            &&& after.width() == before.width()
            &&& after.expression() == fe
            &&& dyn_pause_taken(st, before.width(), expected_arg_count(fe), input) matches Some(k)
                && after.consumed().len() == k
        },
        Err(e) => {
            &&& parsed == Parsed::<Seq<ValueModel>>::Failed(e)
            &&& dyn_error_taken(st, before.width(), expected_arg_count(fe), input) matches Some(k)
                && k <= input.len() && src_after == input.skip(k as int)
        },
    }
}

impl<'a> SegmentsDecoder<'a> {
    pub closed spec fn width(&self) -> PointerWidth {
        self.pointer_width
    }

    /// The format expression whose arguments are decoded.
    pub closed spec fn expression(&self) -> StoredFormatExpression {
        *self.stored_expression
    }

    /// The bytes taken from the buffer so far.
    pub closed spec fn consumed(&self) -> Seq<u8> {
        self.consumed@
    }

    /// How deep the decoders nested in this one go.
    pub closed spec fn size(&self) -> nat
        decreases self,
    {
        match self.current_value {
            Some(v) => 1 + v.size(),
            None => 2,
        }
    }

    /// The arguments decoded so far are those read from `done`, positional
    /// ones first, named ones under their names.
    closed spec fn values_wf(&self, st: StoresView) -> bool {
        let fe = *self.stored_expression;
        let positional = self.decoded_values.positional@;
        let named = self.decoded_values.named@;
        let p = fe.expected_positional_arg_count as nat;
        let names = fe.expected_named_args@;
        let decoded = self.decoded@;
        &&& positional.len() <= p
        &&& named.len() <= names.len()
        &&& named.len() > 0 ==> positional.len() == p
        &&& decoded.len() == positional.len() + named.len()
        &&& model_of_values(positional) == decoded.take(positional.len() as int)
        &&& forall|i: int|
            0 <= i < named.len() ==> (#[trigger] named[i]).0 == names[i] && model_of_value(named[i].1)
                == decoded[p + i]
        &&& parse_dyn_elems(st, self.pointer_width, decoded.len(), self.done@) == Parsed::Done(
            decoded,
            self.done@.len(),
        )
    }

    /// The state holds what the consumed bytes say.
    pub closed spec fn wf(&self, st: StoresView) -> bool
        decreases self,
    {
        &&& self.values_wf(st)
        &&& match self.current_value {
            None => self.consumed@ == self.done@,
            Some(v) => {
                &&& self.decoded@.len() < expected_arg_count(*self.stored_expression)
                &&& v.pointer_width == self.pointer_width
                &&& v.wf(st)
                &&& self.consumed@ == self.done@ + seq![type_hint_repr(v.type_hint)] + v.consumed@
            },
        }
    }

    /// A decoder for the arguments of `stored_expression` that has read
    /// nothing yet.
    pub fn new(pointer_width: PointerWidth, stored_expression: &'a StoredFormatExpression) -> (decoder:
        SegmentsDecoder<'a>)
        ensures
            decoder.width() == pointer_width,
            decoder.expression() == *stored_expression,
            decoder.consumed() == Seq::<u8>::empty(),
            decoder.size() == 2,
            forall|st: StoresView| #[trigger] decoder.wf(st),
    {
        let decoded_values = DecodedValues::new_with_capacity(stored_expression);
        let decoder = SegmentsDecoder {
            pointer_width,
            current_value: None,
            stored_expression,
            decoded_values,
            consumed: Ghost(Seq::empty()),
            done: Ghost(Seq::empty()),
            decoded: Ghost(Seq::empty()),
        };
        proof {
            assert(model_of_values(decoder.decoded_values.positional@) =~= Seq::<ValueModel>::empty());
            assert forall|st: StoresView| #[trigger] decoder.wf(st) by {
                lemma_elems_zero(st, pointer_width, TypeHint::Boolean, Seq::empty());
                assert(decoder.decoded@.take(0) =~= Seq::<ValueModel>::empty());
                assert(decoder.values_wf(st));
            }
        }
        decoder
    }

    proof fn lemma_size(&self)
        ensures
            self.size() >= 2,
    {
        if let Some(v) = self.current_value {
            assert(v.size() >= 1);
        }
    }

    /// Records an argument read after its hint byte from exactly the bytes `e`.
    fn accept(&mut self, v: Value, h: TypeHint, Ghost(e): Ghost<Seq<u8>>, Ghost(st): Ghost<StoresView>)
        requires
            old(self).values_wf(st),
            old(self).current_value is None,
            old(self).decoded@.len() < expected_arg_count(*old(self).stored_expression),
            parse_value(st, old(self).pointer_width, h, e) == Parsed::Done(model_of_value(v), e.len()),
        ensures
            final(self).wf(st),
            final(self).current_value is None,
            final(self).done@ == old(self).done@ + seq![type_hint_repr(h)] + e,
            final(self).consumed@ == final(self).done@,
            final(self).decoded@.len() == old(self).decoded@.len() + 1,
            final(self).pointer_width == old(self).pointer_width,
            final(self).stored_expression == old(self).stored_expression,
    {
        let ghost pw = self.pointer_width;
        let ghost fe = *self.stored_expression;
        let ghost p = fe.expected_positional_arg_count as nat;
        let ghost j = self.decoded@.len();
        let ghost done = self.done@;
        let ghost decoded = self.decoded@;
        let ghost positional = self.decoded_values.positional@;
        let ghost named = self.decoded_values.named@;
        proof {
            lemma_dyn_single(st, pw, h, e, model_of_value(v));
            lemma_dyn_split(st, pw, j + 1, j, done, seq![type_hint_repr(h)] + e, decoded);
            assert(done + (seq![type_hint_repr(h)] + e) =~= done + seq![type_hint_repr(h)] + e);
            assert(decoded + seq![model_of_value(v)] =~= decoded.push(model_of_value(v)));
        }
        self.decoded_values.push(v, self.stored_expression);
        self.done = Ghost(done + seq![type_hint_repr(h)] + e);
        self.consumed = Ghost(self.done@);
        self.decoded = Ghost(decoded.push(model_of_value(v)));
        proof {
            let new_decoded = self.decoded@;
            if positional.len() < p {
                lemma_model_of_values_push(positional, v);
                assert(named.len() == 0);
                assert(new_decoded.take((positional.len() + 1) as int) =~= decoded.take(
                    positional.len() as int,
                ).push(model_of_value(v)));
            } else {
                assert(new_decoded.take(positional.len() as int) =~= decoded.take(
                    positional.len() as int,
                ));
                let new_named = self.decoded_values.named@;
                assert forall|i: int| 0 <= i < new_named.len() implies (#[trigger] new_named[i]).0
                    == fe.expected_named_args@[i] && model_of_value(new_named[i].1) == new_decoded[p
                    + i] by {
                    if i < named.len() {
                        assert(new_named[i] == named[i]);
                    }
                }
            }
        }
    }

    /// Once every argument is decoded, the decoded values are the arguments
    /// split as the expression expects them.
    proof fn lemma_filled(&self, st: StoresView)
        requires
            self.values_wf(st),
            self.decoded@.len() == expected_arg_count(*self.stored_expression),
        ensures
            model_of_decoded(self.decoded_values) == split_args(*self.stored_expression, self.decoded@),
    {
        let fe = *self.stored_expression;
        let p = fe.expected_positional_arg_count as nat;
        let names = fe.expected_named_args@;
        let named = self.decoded_values.named@;
        let decoded = self.decoded@;
        lemma_model_of_named_index(named);
        let split = split_args(fe, decoded);
        assert(model_of_named(named) =~= split.named);
    }

    /// Feeds the decoder what the buffer holds. It gives the arguments once
    /// the last one has arrived.
    #[verifier::rlimit(40)]
    pub fn decode(&mut self, stores: &'a Stores, src: &mut BytesMut) -> (r: Result<
        Option<DecodedValues>,
        DecodeError,
    >)
        requires
            old(self).wf(stores@),
        ensures
            segments_step(
                *old(self),
                *final(self),
                stores@,
                buffer_bytes(*old(src)),
                buffer_bytes(*final(src)),
                r,
            ),
            buffer_bytes(*final(src)).len() <= buffer_bytes(*old(src)).len(),
        decreases buffer_bytes(*old(src)).len(), old(self).size(), 1nat,
    {
        proof {
            lemma_dyn_taken_stated(stores@, self.pointer_width, expected_arg_count(*self.stored_expression), self.consumed@ + buffer_bytes(*src));
        }
        let ghost st = stores@;
        let ghost pw = self.pointer_width;
        let ghost fe = *self.stored_expression;
        let ghost n = expected_arg_count(fe);
        let ghost input = self.consumed@ + buffer_bytes(*src);
        proof {
            self.lemma_size();
        }
        if let Some(mut current) = self.current_value.take() {
            let ghost j = self.decoded@.len();
            let ghost done = self.done@;
            let h = current.type_hint;
            let ghost x = current.consumed@ + buffer_bytes(*src);
            proof {
                assert(input =~= done + (seq![type_hint_repr(h)] + x));
                lemma_dyn_split(st, pw, n, j, done, seq![type_hint_repr(h)] + x, self.decoded@);
                lemma_dyn_step(st, pw, (n - j) as nat, h, x);
            }
            match current.decode(stores, src) {
                Err(e) => {
                    proof {
                        let y = seq![type_hint_repr(h)] + x;
                        lemma_dyn_error_split(st, pw, n, j, done, y, self.decoded@);
                        lemma_dyn_error_head(st, pw, (n - j) as nat, h, x);
                        if let Some(t) = value_error_taken(st, pw, h, x) {
                            assert(input.skip((done.len() + 1 + t) as int) =~= x.skip(t as int));
                        }
                    }
                    return Err(e);
                },
                Ok(None) => {
                    let ghost cc = current.consumed@;
                    self.current_value = Some(current);
                    self.consumed = Ghost(done + seq![type_hint_repr(h)] + cc);
                    assert(self.consumed@ + buffer_bytes(*src) =~= done + (seq![type_hint_repr(h)]
                        + (cc + buffer_bytes(*src))));
                    proof {
                        let y = seq![type_hint_repr(h)] + x;
                        lemma_dyn_pause_split(st, pw, n, j, done, y, self.decoded@);
                        lemma_dyn_pause_head(st, pw, (n - j) as nat, h, x);
                    }
                    return Ok(None);
                },
                Ok(Some(v)) => {
                    let ghost k = parse_value(st, pw, h, x)->Done_1;
                    proof {
                        lemma_value_prefix(st, pw, h, x);
                    }
                    self.accept(v, h, Ghost(x.take(k as int)), Ghost(st));
                    assert(self.done@ + buffer_bytes(*src) =~= done + (seq![type_hint_repr(h)] + x));
                },
            }
        }
        while !self.decoded_values.is_filled(self.stored_expression)
            invariant
                stores@ == st,
                self.wf(st),
                self.current_value is None,
                self.pointer_width == pw,
                *self.stored_expression == fe,
                n == expected_arg_count(fe),
                self.consumed@ + buffer_bytes(*src) == input,
                input == old(self).consumed@ + buffer_bytes(*old(src)),
                buffer_bytes(*src).len() <= buffer_bytes(*old(src)).len(),
                old(self).size() >= 2,
                pw == old(self).pointer_width,
                fe == *old(self).stored_expression,
            decreases n - self.decoded@.len(),
        {
            let ghost j = self.decoded@.len();
            let ghost done = self.done@;
            let ghost src0 = buffer_bytes(*src);
            proof {
                lemma_dyn_split(st, pw, n, j, done, src0, self.decoded@);
                lemma_dyn_head(st, pw, (n - j) as nat, src0);
            }
            let h = match DecoderUtils::get_type_hint(src) {
                Ok(None) => {
                    proof {
                        lemma_dyn_pause_split(st, pw, n, j, done, src0, self.decoded@);
                        lemma_dyn_pause_empty(st, pw, (n - j) as nat);
                        assert(src0 =~= Seq::<u8>::empty());
                    }
                    return Ok(None);
                },
                Err(e) => {
                    proof {
                        lemma_dyn_error_split(st, pw, n, j, done, src0, self.decoded@);
                        reveal_with_fuel(dyn_error_taken, 1);
                        assert(buffer_bytes(*src) =~= input.skip((done.len() + 1) as int));
                    }
                    return Err(e);
                },
                Ok(Some(h)) => h,
            };
            proof {
                lemma_type_hint_repr_roundtrip(h, src0[0]);
                assert(src0 =~= seq![type_hint_repr(h)] + buffer_bytes(*src));
            }
            let mut value_decoder = ValueDecoder::new(self.pointer_width, h);
            let ghost x = buffer_bytes(*src);
            proof {
                assert(value_decoder.consumed@ + x =~= x);
                lemma_dyn_step(st, pw, (n - j) as nat, h, x);
            }
            match value_decoder.decode(stores, src) {
                Err(e) => {
                    proof {
                        let y = seq![type_hint_repr(h)] + x;
                        assert(src0 =~= y);
                        lemma_dyn_error_split(st, pw, n, j, done, y, self.decoded@);
                        lemma_dyn_error_head(st, pw, (n - j) as nat, h, x);
                        if let Some(t) = value_error_taken(st, pw, h, x) {
                            assert(input.skip((done.len() + 1 + t) as int) =~= x.skip(t as int));
                        }
                    }
                    return Err(e);
                },
                Ok(None) => {
                    let ghost vc = value_decoder.consumed@;
                    self.current_value = Some(value_decoder);
                    self.consumed = Ghost(done + seq![type_hint_repr(h)] + vc);
                    assert(self.consumed@ + buffer_bytes(*src) =~= done + (seq![type_hint_repr(h)]
                        + (vc + buffer_bytes(*src))));
                    proof {
                        let y = seq![type_hint_repr(h)] + x;
                        assert(src0 =~= y);
                        lemma_dyn_pause_split(st, pw, n, j, done, y, self.decoded@);
                        lemma_dyn_pause_head(st, pw, (n - j) as nat, h, x);
                    }
                    return Ok(None);
                },
                Ok(Some(v)) => {
                    let ghost k = parse_value(st, pw, h, x)->Done_1;
                    proof {
                        lemma_value_prefix(st, pw, h, x);
                    }
                    self.accept(v, h, Ghost(x.take(k as int)), Ghost(st));
                    assert(self.done@ + buffer_bytes(*src) =~= done + (seq![type_hint_repr(h)] + x));
                },
            }
        }
        proof {
            let done = self.done@;
            lemma_elems_zero(st, pw, TypeHint::Boolean, buffer_bytes(*src));
            lemma_dyn_split(st, pw, n, n, done, buffer_bytes(*src), self.decoded@);
            assert(self.decoded@ + Seq::<ValueModel>::empty() =~= self.decoded@);
            assert(input.skip(done.len() as int) =~= buffer_bytes(*src));
            self.lemma_filled(st);
        }
        let mut values = DecodedValues::new_with_capacity(self.stored_expression);
        std::mem::swap(&mut values, &mut self.decoded_values);
        Ok(Some(values))
    }
}

// ---------------------------------------------------------------------------
// Values of types with a registered structure
// ---------------------------------------------------------------------------

enum TypeStructureValueSubDecoder<'a> {
    Struct(StructDecoder<'a>),
    Enum(EnumDecoder<'a>),
}

/// Decodes a value of a type whose structure was registered.
pub struct TypeStructureDecoder<'a> {
    pointer_width: PointerWidth,
    type_structure: &'a TypeStructure,
    sub_decoder: Option<TypeStructureValueSubDecoder<'a>>,
}

/// What a call of `TypeStructureDecoder::decode` reports, against the parse
/// of all the bytes it was fed.
pub open spec fn type_structure_step<'a>(
    before: TypeStructureDecoder<'a>,
    after: TypeStructureDecoder<'a>,
    st: StoresView,
    src_before: Seq<u8>,
    src_after: Seq<u8>,
    r: Result<Option<TypeStructureValue>, DecodeError>,
) -> bool {
    let input = before.consumed() + src_before;
    let parsed = parse_type_structure(st, before.width(), before.structure(), input);
    match r {
        Ok(Some(v)) => finished(parsed, model_of_type(v), input, src_after),
        Ok(None) => {
            &&& parsed is Incomplete
            &&& after.wf(st)
            &&& after.consumed() + src_after == input
            &&& after.width() == before.width()
            &&& after.structure() == before.structure()
            &&& type_pause_taken(st, before.width(), before.structure(), input) matches Some(k)
                && after.consumed().len() == k
        },
        Err(e) => {
            &&& parsed == Parsed::<TypeModel>::Failed(e)
            &&& type_error_taken(st, before.width(), before.structure(), input) matches Some(k)
                && k <= input.len() && src_after == input.skip(k as int)
        },
    }
}

impl<'a> TypeStructureDecoder<'a> {
    pub closed spec fn width(&self) -> PointerWidth {
        self.pointer_width
    }

    /// The structure of the type being decoded.
    pub closed spec fn structure(&self) -> TypeStructure {
        *self.type_structure
    }

    /// The bytes taken from the buffer so far.
    pub closed spec fn consumed(&self) -> Seq<u8> {
        match self.sub_decoder {
            None => Seq::empty(),
            Some(TypeStructureValueSubDecoder::Struct(s)) => s.consumed(),
            Some(TypeStructureValueSubDecoder::Enum(e)) => e.consumed(),
        }
    }

    /// How deep the decoders nested in this one go.
    pub closed spec fn size(&self) -> nat
        decreases self,
    {
        match self.sub_decoder {
            None => 4,
            Some(TypeStructureValueSubDecoder::Struct(s)) => 1 + s.size(),
            Some(TypeStructureValueSubDecoder::Enum(e)) => 1 + e.size(),
        }
    }

    /// The state holds what the consumed bytes say.
    pub closed spec fn wf(&self, st: StoresView) -> bool
        decreases self,
    {
        match self.sub_decoder {
            None => true,
            Some(TypeStructureValueSubDecoder::Struct(s)) => {
                &&& self.type_structure.variant == TypeStructureVariant::Struct(s.shape())
                &&& !(s.shape() is Unit)
                &&& s.width() == self.pointer_width
                &&& s.wf(st)
            },
            Some(TypeStructureValueSubDecoder::Enum(e)) => {
                &&& self.type_structure.variant matches TypeStructureVariant::Enum(vs) && vs@
                    == e.variants@
                &&& e.pointer_width == self.pointer_width
                &&& e.wf(st)
            },
        }
    }

    /// A decoder for a value of the given type that has read nothing yet.
    pub fn new(pointer_width: PointerWidth, type_structure: &'a TypeStructure) -> (decoder:
        TypeStructureDecoder<'a>)
        ensures
            decoder.width() == pointer_width,
            decoder.structure() == *type_structure,
            decoder.consumed() == Seq::<u8>::empty(),
            decoder.size() == 4,
            forall|st: StoresView| #[trigger] decoder.wf(st),
    {
        TypeStructureDecoder { pointer_width, type_structure, sub_decoder: None }
    }

    /// Feeds the decoder what the buffer holds. It gives the value once its
    /// last byte has arrived.
    #[verifier::rlimit(40)]
    pub fn decode(&mut self, stores: &'a Stores, src: &mut BytesMut) -> (r: Result<
        Option<TypeStructureValue>,
        DecodeError,
    >)
        requires
            old(self).wf(stores@),
        ensures
            type_structure_step(
                *old(self),
                *final(self),
                stores@,
                buffer_bytes(*old(src)),
                buffer_bytes(*final(src)),
                r,
            ),
            buffer_bytes(*final(src)).len() <= buffer_bytes(*old(src)).len(),
        decreases buffer_bytes(*old(src)).len(), old(self).size(), 1nat,
    {
        proof {
            lemma_type_taken_stated(stores@, self.pointer_width, *self.type_structure, self.consumed() + buffer_bytes(*src));
        }
        let ghost st = stores@;
        let ghost pw = self.pointer_width;
        let ghost ts = *self.type_structure;
        let ghost input = self.consumed() + buffer_bytes(*src);
        let sub_decoder = match self.sub_decoder.take() {
            Some(sub_decoder) => sub_decoder,
            None => {
                assert(input =~= buffer_bytes(*src));
                match &self.type_structure.variant {
                    TypeStructureVariant::Struct(struct_variant) => match struct_variant {
                        StructVariant::Unit => {
                            proof {
                                assert(input.skip(0) =~= input);
                                lemma_type_struct_unfold(st, pw, ts, *struct_variant, input);
                                lemma_struct_unfold(st, pw, *struct_variant, input);
                            }
                            return Ok(
                                Some(
                                    TypeStructureValue {
                                        name: self.type_structure.name.clone(),
                                        variant: TypeStructureVariantValue::Struct(
                                            StructVariantValue::Unit,
                                        ),
                                    },
                                ),
                            );
                        },
                        StructVariant::Tuple(tuple_length) => TypeStructureValueSubDecoder::Struct(
                            StructDecoder::tuple(self.pointer_width, *tuple_length),
                        ),
                        StructVariant::Named(field_names) => TypeStructureValueSubDecoder::Struct(
                            StructDecoder::named(self.pointer_width, field_names),
                        ),
                    },
                    TypeStructureVariant::Enum(variants) => TypeStructureValueSubDecoder::Enum(
                        EnumDecoder::new(self.pointer_width, variants),
                    ),
                }
            },
        };
        match sub_decoder {
            TypeStructureValueSubDecoder::Struct(mut struct_decoder) => {
                proof {
                    lemma_type_struct_unfold(st, pw, ts, struct_decoder.shape(), input);
                }
                proof {
                    lemma_type_taken_unfold(st, pw, ts, input);
                }
                match struct_decoder.decode(stores, src) {
                    Err(e) => Err(e),
                    Ok(None) => {
                        self.sub_decoder = Some(TypeStructureValueSubDecoder::Struct(struct_decoder));
                        assert(self.consumed() == struct_decoder.consumed());
                        Ok(None)
                    },
                    Ok(Some(value)) => Ok(
                        Some(
                            TypeStructureValue {
                                name: self.type_structure.name.clone(),
                                variant: TypeStructureVariantValue::Struct(value),
                            },
                        ),
                    ),
                }
            },
            TypeStructureValueSubDecoder::Enum(mut enum_decoder) => {
                proof {
                    lemma_enum_unfold(st, pw, ts, enum_decoder.variant_list(), input);
                }
                proof {
                    lemma_type_taken_unfold(st, pw, ts, input);
                }
                match enum_decoder.decode(stores, src) {
                    Err(e) => Err(e),
                    Ok(None) => {
                        self.sub_decoder = Some(TypeStructureValueSubDecoder::Enum(enum_decoder));
                        assert(self.consumed() == enum_decoder.consumed());
                        Ok(None)
                    },
                    Ok(Some(value)) => Ok(
                        Some(
                            TypeStructureValue {
                                name: self.type_structure.name.clone(),
                                variant: TypeStructureVariantValue::Enum(value),
                            },
                        ),
                    ),
                }
            },
        }
    }
}

/// Decodes the fields of a tuple struct or of a struct with named fields.
pub struct StructDecoder<'a> {
    field_names: Option<&'a Vec<String>>,
    list_decoder: ListValueDecoder<'a>,
}

/// What a call of `StructDecoder::decode` reports, against the parse of all
/// the bytes it was fed.
pub open spec fn struct_step<'a>(
    before: StructDecoder<'a>,
    after: StructDecoder<'a>,
    st: StoresView,
    src_before: Seq<u8>,
    src_after: Seq<u8>,
    r: Result<Option<StructVariantValue>, DecodeError>,
) -> bool {
    let input = before.consumed() + src_before;
    let parsed = parse_struct(st, before.width(), before.shape(), input);
    match r {
        Ok(Some(v)) => finished(parsed, model_of_struct(v), input, src_after),
        Ok(None) => {
            &&& parsed is Incomplete
            &&& after.wf(st)
            &&& after.consumed() + src_after == input
            &&& after.width() == before.width()
            &&& after.shape() == before.shape()
            &&& dyn_pause_taken(st, before.width(), struct_arity(before.shape()), input) matches Some(k)
                && after.consumed().len() == k
        },
        Err(e) => {
            &&& parsed == Parsed::<StructModel>::Failed(e)
            &&& dyn_error_taken(st, before.width(), struct_arity(before.shape()), input) matches Some(k)
                && k <= input.len() && src_after == input.skip(k as int)
        },
    }
}

impl<'a> StructDecoder<'a> {
    pub closed spec fn width(&self) -> PointerWidth {
        self.list_decoder.pointer_width
    }

    /// The shape of the struct being decoded.
    pub closed spec fn shape(&self) -> StructVariant {
        match self.field_names {
            None => StructVariant::Tuple(self.list_decoder.expected_length as u8),
            Some(names) => StructVariant::Named(*names),
        }
    }

    /// The bytes taken from the buffer so far.
    pub closed spec fn consumed(&self) -> Seq<u8> {
        self.list_decoder.consumed@
    }

    /// How deep the decoders nested in this one go.
    pub closed spec fn size(&self) -> nat
        decreases self,
    {
        1 + self.list_decoder.size()
    }

    /// The state holds what the consumed bytes say.
    pub closed spec fn wf(&self, st: StoresView) -> bool
        decreases self,
    {
        &&& self.list_decoder.wf_dyn(st)
        &&& match self.field_names {
            None => self.list_decoder.expected_length < 256,
            Some(names) => self.list_decoder.expected_length == names.len(),
        }
    }

    /// A decoder for the fields of a tuple struct.
    pub fn tuple(pointer_width: PointerWidth, tuple_length: u8) -> (decoder: StructDecoder<'a>)
        ensures
            decoder.width() == pointer_width,
            decoder.shape() == StructVariant::Tuple(tuple_length),
            decoder.consumed() == Seq::<u8>::empty(),
            decoder.size() == 3,
            forall|st: StoresView| #[trigger] decoder.wf(st),
    {
        let tuple_length = tuple_length as usize;
        let list_decoder = ListValueDecoder::new(pointer_width, tuple_length);
        let decoder = StructDecoder { field_names: None, list_decoder };
        assert forall|st: StoresView| #[trigger] decoder.wf(st) by {
            assert(decoder.list_decoder.wf_dyn(st));
        }
        decoder
    }

    /// A decoder for the fields of a struct with the given field names.
    pub fn named(pointer_width: PointerWidth, field_names: &'a Vec<String>) -> (decoder: StructDecoder<'a>)
        ensures
            decoder.width() == pointer_width,
            decoder.shape() == StructVariant::Named(*field_names),
            decoder.consumed() == Seq::<u8>::empty(),
            decoder.size() == 3,
            forall|st: StoresView| #[trigger] decoder.wf(st),
    {
        let list_decoder = ListValueDecoder::new(pointer_width, field_names.len());
        let decoder = StructDecoder { field_names: Some(field_names), list_decoder };
        assert forall|st: StoresView| #[trigger] decoder.wf(st) by {
            assert(decoder.list_decoder.wf_dyn(st));
        }
        decoder
    }

    /// Feeds the decoder what the buffer holds. It gives the fields once the
    /// last one has arrived.
    pub fn decode(&mut self, stores: &'a Stores, src: &mut BytesMut) -> (r: Result<
        Option<StructVariantValue>,
        DecodeError,
    >)
        requires
            old(self).wf(stores@),
        ensures
            struct_step(
                *old(self),
                *final(self),
                stores@,
                buffer_bytes(*old(src)),
                buffer_bytes(*final(src)),
                r,
            ),
            buffer_bytes(*final(src)).len() <= buffer_bytes(*old(src)).len(),
        decreases buffer_bytes(*old(src)).len(), old(self).size(), 1nat,
    {
        proof {
            lemma_struct_taken_stated(stores@, self.list_decoder.pointer_width, self.shape(), self.consumed() + buffer_bytes(*src));
        }
        proof {
            lemma_struct_unfold(
                stores@,
                self.list_decoder.pointer_width,
                self.shape(),
                self.list_decoder.consumed@ + buffer_bytes(*src),
            );
        }
        let decoded_fields = match self.list_decoder.decode_dyn_list(stores, src) {
            Err(e) => {
                return Err(e);
            },
            Ok(None) => {
                return Ok(None);
            },
            Ok(Some(fields)) => fields,
        };
        proof {
            crate::parse_lemmas::lemma_dyn_bounds(
                stores@,
                old(self).list_decoder.pointer_width,
                old(self).list_decoder.expected_length as nat,
                old(self).list_decoder.consumed@ + buffer_bytes(*old(src)),
            );
            lemma_model_of_values_index(decoded_fields@);
        }
        match self.field_names {
            None => Ok(Some(StructVariantValue::Tuple(decoded_fields))),
            Some(field_names) => {
                let ghost fields = decoded_fields@;
                let mut remaining = decoded_fields;
                let mut named: Vec<(String, Value)> = Vec::new();
                let mut i: usize = 0;
                while remaining.len() > 0
                    invariant
                        fields.len() == field_names.len(),
                        i + remaining.len() == fields.len(),
                        remaining@ == fields.skip(i as int),
                        named.len() == i,
                        forall|m: int|
                            0 <= m < i ==> (#[trigger] named@[m]) == (field_names@[m], fields[m]),
                    decreases remaining.len(),
                {
                    let value = remaining.remove(0);
                    let name = field_names[i].clone();
                    named.push((name, value));
                    i = i + 1;
                    assert(remaining@ =~= fields.skip(i as int));
                }
                proof {
                    lemma_model_of_named_index(named@);
                    lemma_model_of_values_index(fields);
                    assert(model_of_named(named@) =~= zip_names(field_names@, model_of_values(fields)));
                }
                Ok(Some(StructVariantValue::Named(named)))
            },
        }
    }
}

/// Decodes a value of an enum type: the index of its variant, then the
/// variant's fields.
pub struct EnumDecoder<'a> {
    pointer_width: PointerWidth,
    variants: &'a Vec<(String, StructVariant)>,
    index: Option<u8>,
    struct_decoder: Option<StructDecoder<'a>>,
}

/// What a call of `EnumDecoder::decode` reports, against the parse of all
/// the bytes it was fed.
pub open spec fn enum_step<'a>(
    before: EnumDecoder<'a>,
    after: EnumDecoder<'a>,
    st: StoresView,
    src_before: Seq<u8>,
    src_after: Seq<u8>,
    r: Result<Option<(String, StructVariantValue)>, DecodeError>,
) -> bool {
    let input = before.consumed() + src_before;
    let parsed = parse_enum_body(st, before.width(), before.variant_list(), input);
    match r {
        Ok(Some(v)) => finished(parsed, (v.0@, model_of_struct(v.1)), input, src_after),
        Ok(None) => {
            &&& parsed is Incomplete
            &&& after.wf(st)
            &&& after.consumed() + src_after == input
            &&& after.width() == before.width()
            &&& after.variant_list() == before.variant_list()
            &&& enum_pause_taken(st, before.width(), before.variant_list(), input) matches Some(k)
                && after.consumed().len() == k
        },
        Err(e) => {
            &&& parsed == Parsed::<(Seq<char>, StructModel)>::Failed(e)
            &&& enum_error_taken(st, before.width(), before.variant_list(), input) matches Some(k)
                && k <= input.len() && src_after == input.skip(k as int)
        },
    }
}

impl<'a> EnumDecoder<'a> {
    pub closed spec fn width(&self) -> PointerWidth {
        self.pointer_width
    }

    /// The variants of the enum, in the order of their indices.
    pub closed spec fn variant_list(&self) -> Seq<(String, StructVariant)> {
        self.variants@
    }

    /// The bytes taken from the buffer so far.
    pub closed spec fn consumed(&self) -> Seq<u8> {
        match self.index {
            None => Seq::empty(),
            Some(i) => seq![i] + match self.struct_decoder {
                Some(s) => s.consumed(),
                None => Seq::empty(),
            },
        }
    }

    /// How deep the decoders nested in this one go.
    pub closed spec fn size(&self) -> nat
        decreases self,
    {
        match self.struct_decoder {
            None => 1,
            Some(s) => 1 + s.size(),
        }
    }

    /// The state holds what the consumed bytes say.
    pub closed spec fn wf(&self, st: StoresView) -> bool
        decreases self,
    {
        match self.index {
            None => self.struct_decoder is None,
            Some(i) => {
                &&& i < self.variants.len()
                &&& self.struct_decoder matches Some(s) && s.shape() == self.variants@[i as int].1
                    && s.width() == self.pointer_width && s.wf(st)
            },
        }
    }

    /// A decoder for a value of an enum with the given variants that has
    /// read nothing yet.
    pub fn new(pointer_width: PointerWidth, variants: &'a Vec<(String, StructVariant)>) -> (decoder:
        EnumDecoder<'a>)
        ensures
            decoder.width() == pointer_width,
            decoder.variant_list() == variants@,
            decoder.consumed() == Seq::<u8>::empty(),
            decoder.size() == 1,
            forall|st: StoresView| #[trigger] decoder.wf(st),
    {
        EnumDecoder { pointer_width, variants, index: None, struct_decoder: None }
    }

    /// Feeds the decoder what the buffer holds. It gives the variant's name
    /// and fields once the last field has arrived.
    #[verifier::rlimit(80)]
    pub fn decode(&mut self, stores: &'a Stores, src: &mut BytesMut) -> (r: Result<
        Option<(String, StructVariantValue)>,
        DecodeError,
    >)
        requires
            old(self).wf(stores@),
        ensures
            enum_step(
                *old(self),
                *final(self),
                stores@,
                buffer_bytes(*old(src)),
                buffer_bytes(*final(src)),
                r,
            ),
            buffer_bytes(*final(src)).len() <= buffer_bytes(*old(src)).len(),
        decreases buffer_bytes(*old(src)).len(), old(self).size(), 1nat,
    {
        proof {
            lemma_enum_taken_stated(stores@, self.pointer_width, self.variants@, self.consumed() + buffer_bytes(*src));
        }
        let ghost st = stores@;
        let ghost pw = self.pointer_width;
        let ghost input = self.consumed() + buffer_bytes(*src);
        proof {
            lemma_enum_taken_unfold(st, pw, self.variants@, input);
        }
        let index = match self.index {
            Some(index) => index,
            None => {
                assert(input =~= buffer_bytes(*src));
                match buffer_try_get_u8(src) {
                    None => {
                        return Ok(None);
                    },
                    Some(index) => {
                        if index as usize >= self.variants.len() {
                            assert(buffer_bytes(*src) =~= input.skip(1));
                            return Err(DecodeError::UnknownEnumVariant(index));
                        }
                        index
                    },
                }
            },
        };
        let variant = &self.variants[index as usize];
        let mut struct_decoder = match self.struct_decoder.take() {
            Some(s) => s,
            None => match &variant.1 {
                StructVariant::Unit => {
                    proof {
                        assert(input.skip(1) =~= buffer_bytes(*src));
                        lemma_struct_unfold(st, pw, variant.1, input.skip(1));
                    }
                    return Ok(Some((variant.0.clone(), StructVariantValue::Unit)));
                },
                StructVariant::Tuple(tuple_length) => StructDecoder::tuple(
                    self.pointer_width,
                    *tuple_length,
                ),
                StructVariant::Named(field_names) => StructDecoder::named(
                    self.pointer_width,
                    field_names,
                ),
            },
        };
        let ghost body = struct_decoder.consumed() + buffer_bytes(*src);
        proof {
            assert(input =~= seq![index] + body);
            assert(input.skip(1) =~= body);
        }
        match struct_decoder.decode(stores, src) {
            Err(e) => {
                proof {
                    let n = struct_arity(variant.1);
                    if let Some(t) = dyn_error_taken(st, pw, n, body) {
                        assert(input.skip((1 + t) as int) =~= body.skip(t as int));
                    }
                }
                Err(e)
            },
            Ok(None) => {
                let ghost sc = struct_decoder.consumed();
                self.index = Some(index);
                self.struct_decoder = Some(struct_decoder);
                assert(self.consumed() + buffer_bytes(*src) =~= seq![index] + (sc + buffer_bytes(
                    *src,
                )));
                Ok(None)
            },
            Ok(Some(value)) => {
                proof {
                    let k = parse_struct(st, pw, variant.1, body)->Done_1;
                    assert(input.skip((1 + k) as int) =~= body.skip(k as int));
                }
                Ok(Some((variant.0.clone(), value)))
            },
        }
    }
}

} // verus!
