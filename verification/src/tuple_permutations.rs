//! Shapes of the tuple implementations that are generated for every mix of
//! `&dyn` elements and generic elements.
//!
//! A tuple of length `n` has `2^n` shapes, one per permutation number `p < 2^n`:
//! element `i` is a `&dyn` element when bit `i` of `p` is clear, and otherwise the
//! next generic parameter, numbered by how many generic elements precede it.
//! A maximum length of `N` gives the shapes of every length from 1 to `N`: the
//! geometric sum `2^(N + 1) - 2` of them.
use vstd::arithmetic::power2::{lemma2_to64, lemma_pow2_adds, lemma_pow2_pos, pow2};
use vstd::prelude::*;

verus! {

/// Smallest maximum tuple length that may be asked for.
pub const MIN_TUPLE_LENGTH: u8 = 2;

/// Largest maximum tuple length that may be asked for.
pub const MAX_TUPLE_LENGTH: u8 = 10;

/// Why a maximum tuple length was refused.
#[derive(Debug, Clone, Copy, PartialEq, Eq, Structural)]
pub enum TupleLengthError {
    /// The argument was not a literal.
    ExpectedLiteral,
    /// The literal is not a decimal `u8`.
    InvalidLiteral,
    /// The length is below [`MIN_TUPLE_LENGTH`].
    TooSmall(u8),
    /// The length is above [`MAX_TUPLE_LENGTH`].
    TooLarge(u8),
}

/// Whether every character of `s` is an ASCII decimal digit.
pub open spec fn all_decimal_digits(s: Seq<char>) -> bool {
    forall|i: int| 0 <= i < s.len() ==> '0' <= #[trigger] s[i] <= '9'
}

/// The number written by the decimal digits `s`, most significant first.
pub open spec fn decimal_value(s: Seq<char>) -> nat
    decreases s.len(),
{
    if s.len() == 0 {
        0
    } else {
        decimal_value(s.drop_last()) * 10 + ((s.last() as int - '0' as int) as nat)
    }
}

/// What `str::parse::<u8>` gives: an optional `+`, then one or more decimal
/// digits whose value is at most 255.
pub open spec fn decimal_u8(s: Seq<char>) -> Option<u8> {
    let digits = if s.len() > 0 && s[0] == '+' {
        s.skip(1)
    } else {
        s
    };
    if digits.len() > 0 && all_decimal_digits(digits) && decimal_value(digits) <= 255 {
        Some(decimal_value(digits) as u8)
    } else {
        None
    }
}

/// Parses a `u8` with `str::parse`, whose documentation accepts an optional
/// `+` followed by decimal digits only, and refuses overflow.
#[verifier::external_body]
fn parse_u8(text: &str) -> (parsed: Option<u8>)
    ensures
        parsed == decimal_u8(text@),
{
    text.parse::<u8>().ok()
}

/// What [`parse_max_tuple_length`] returns for the literal text `literal`.
pub open spec fn max_tuple_length_spec(literal: Option<Seq<char>>) -> Result<u8, TupleLengthError> {
    match literal {
        None => Err(TupleLengthError::ExpectedLiteral),
        Some(text) => match decimal_u8(text) {
            None => Err(TupleLengthError::InvalidLiteral),
            Some(n) => if n < MIN_TUPLE_LENGTH {
                Err(TupleLengthError::TooSmall(n))
            } else if n > MAX_TUPLE_LENGTH {
                Err(TupleLengthError::TooLarge(n))
            } else {
                Ok(n)
            },
        },
    }
}

/// The literals accepted as a maximum tuple length are exactly the decimal
/// ones from 2 to 10, each as its value; a decimal literal above 10 is
/// refused as too large, one below 2 as too small, and any other text as
/// no valid literal.
pub proof fn lemma_max_tuple_length_range(text: Seq<char>)
    ensures
        decimal_u8(text) matches Some(n) ==> (2 <= n <= 10 ==> max_tuple_length_spec(Some(text))
            == Ok::<u8, TupleLengthError>(n)),
        max_tuple_length_spec(Some(text)) matches Ok(n) ==> decimal_u8(text) == Some(n) && 2 <= n
            <= 10,
        max_tuple_length_spec(Some(text)) matches Err(TupleLengthError::TooLarge(n)) ==> decimal_u8(
            text,
        ) == Some(n) && n > 10,
        max_tuple_length_spec(Some(text)) matches Err(TupleLengthError::TooSmall(n)) ==> decimal_u8(
            text,
        ) == Some(n) && n < 2,
        (max_tuple_length_spec(Some(text)) == Err::<u8, TupleLengthError>(
            TupleLengthError::InvalidLiteral,
        )) <==> decimal_u8(text) is None,
{
}

/// Reads the maximum tuple length from the text of the first argument token,
/// `None` when that token is not a literal.
pub fn parse_max_tuple_length(literal: Option<&str>) -> (length: Result<u8, TupleLengthError>)
    ensures
        length == max_tuple_length_spec(
            match literal {
                Some(text) => Some(text@),
                None => None,
            },
        ),
        length matches Ok(n) ==> MIN_TUPLE_LENGTH <= n <= MAX_TUPLE_LENGTH,
        literal matches Some(text) ==> (decimal_u8(text@) matches Some(n) ==> (2 <= n <= 10
            ==> length == Ok::<u8, TupleLengthError>(n))),
        length matches Err(TupleLengthError::TooLarge(n)) ==> n > 10,
        length matches Err(TupleLengthError::TooSmall(n)) ==> n < 2,
{
    let text = match literal {
        Some(text) => text,
        None => return Err(TupleLengthError::ExpectedLiteral),
    };
    let max_tuple_length = match parse_u8(text) {
        Some(n) => n,
        None => return Err(TupleLengthError::InvalidLiteral),
    };
    if max_tuple_length < MIN_TUPLE_LENGTH {
        return Err(TupleLengthError::TooSmall(max_tuple_length));
    }
    if max_tuple_length > MAX_TUPLE_LENGTH {
        return Err(TupleLengthError::TooLarge(max_tuple_length));
    }
    Ok(max_tuple_length)
}

/// Whether element `index` of the tuple shape `permutation` is a `&dyn` element.
pub open spec fn is_dyn_spec(permutation: nat, index: nat) -> bool {
    (permutation / pow2(index)) % 2 == 0
}

/// Element `tuple_index` of the shape `permutation` is a `&dyn` element exactly
/// when bit `tuple_index` of `permutation` is clear.
pub fn is_dyn(permutation: u16, tuple_index: u8) -> (b: bool)
    requires
        tuple_index < 16,
    ensures
        b == is_dyn_spec(permutation as nat, tuple_index as nat),
{
    let shift: u16 = tuple_index as u16;
    let shifted: u16 = permutation >> shift;
    proof {
        vstd::bits::lemma_u16_shr_is_div(permutation, shift);
        assert(shifted & 1 == shifted % 2) by (bit_vector);
    }
    (shifted & 1) == 0
}

/// One element of a generated tuple type.
#[derive(Debug, Clone, Copy, PartialEq, Eq, Structural)]
pub enum TupleSlot {
    /// A `&dyn` trait object.
    Dyn,
    /// The generic parameter with this number.
    Generic(u8),
}

/// How many of the first `index` elements of shape `permutation` are generic.
pub open spec fn generics_before(permutation: nat, index: nat) -> nat
    decreases index,
{
    if index == 0 {
        0
    } else {
        generics_before(permutation, (index - 1) as nat) + if is_dyn_spec(
            permutation,
            (index - 1) as nat,
        ) {
            0nat
        } else {
            1nat
        }
    }
}

/// Element `index` of the shape `permutation`.
pub open spec fn slot_spec(permutation: nat, index: nat) -> TupleSlot {
    if is_dyn_spec(permutation, index) {
        TupleSlot::Dyn
    } else {
        TupleSlot::Generic(generics_before(permutation, index) as u8)
    }
}

/// A generated tuple type: its length, its number of generic parameters and its elements.
#[derive(Debug, Clone, PartialEq, Eq)]
pub struct TupleShape {
    pub length: u8,
    pub generic_count: u8,
    pub slots: Vec<TupleSlot>,
}

/// `shape` is the tuple type of length `length` for the permutation `permutation`.
pub open spec fn shape_matches(shape: TupleShape, length: nat, permutation: nat) -> bool {
    &&& shape.length == length
    &&& shape.generic_count == generics_before(permutation, length)
    &&& shape.slots@.len() == length
    &&& forall|i: int| 0 <= i < length ==> #[trigger] shape.slots@[i] == slot_spec(permutation, i as nat)
}

proof fn lemma_generics_before_bound(permutation: nat, index: nat)
    ensures
        generics_before(permutation, index) <= index,
    decreases index,
{
    if index > 0 {
        lemma_generics_before_bound(permutation, (index - 1) as nat);
    }
}

/// The number of set bits of `n`.
pub open spec fn count_ones(n: nat) -> nat
    decreases n,
{
    if n == 0 {
        0
    } else {
        (n % 2) + count_ones(n / 2)
    }
}

proof fn lemma_generics_before_shift(permutation: nat, index: nat)
    ensures
        generics_before(permutation, index + 1) == (permutation % 2) + generics_before(
            permutation / 2,
            index,
        ),
    decreases index,
{
    vstd::arithmetic::power2::lemma2_to64();
    if index == 0 {
        assert(generics_before(permutation, 1) == generics_before(permutation, 0) + if is_dyn_spec(
            permutation,
            0,
        ) {
            0nat
        } else {
            1nat
        });
    } else {
        lemma_generics_before_shift(permutation, (index - 1) as nat);
        lemma_pow2_adds(1, (index - 1) as nat);
        lemma_pow2_pos((index - 1) as nat);
        vstd::arithmetic::div_mod::lemma_div_denominator(permutation as int, 2, pow2((index - 1) as nat) as int);
        assert(permutation / pow2(index) == (permutation / 2) / pow2((index - 1) as nat));
        assert(is_dyn_spec(permutation, index) == is_dyn_spec(permutation / 2, (index - 1) as nat));
    }
}

/// In a shape of length `length`, the generic elements are as many as the
/// set bits of the permutation number: the generic parameter list, which has
/// that many entries, is used up exactly.
pub proof fn lemma_generic_count_is_count_ones(permutation: nat, length: nat)
    requires
        permutation < pow2(length),
    ensures
        generics_before(permutation, length) == count_ones(permutation),
    decreases length,
{
    if length == 0 {
        vstd::arithmetic::power2::lemma2_to64();
    } else {
        lemma_generics_before_shift(permutation, (length - 1) as nat);
        lemma_pow2_adds(1, (length - 1) as nat);
        vstd::arithmetic::power2::lemma2_to64();
        assert(permutation / 2 < pow2((length - 1) as nat));
        lemma_generic_count_is_count_ones(permutation / 2, (length - 1) as nat);
    }
}

/// The tuple type of length `tuple_length` for the permutation `permutation`.
pub fn tuple_shape(tuple_length: u8, permutation: u16) -> (shape: TupleShape)
    requires
        tuple_length <= 16,
    ensures
        shape_matches(shape, tuple_length as nat, permutation as nat),
{
    let mut slots: Vec<TupleSlot> = Vec::new();
    let mut generic_index: u8 = 0;
    let mut index: u8 = 0;
    while index < tuple_length
        invariant
            index <= tuple_length <= 16,
            generic_index == generics_before(permutation as nat, index as nat),
            slots@.len() == index,
            forall|i: int| 0 <= i < index ==> #[trigger] slots@[i] == slot_spec(permutation as nat, i as nat),
        decreases tuple_length - index,
    {
        proof {
            lemma_generics_before_bound(permutation as nat, index as nat);
        }
        if is_dyn(permutation, index) {
            slots.push(TupleSlot::Dyn);
        } else {
            slots.push(TupleSlot::Generic(generic_index));
            generic_index = generic_index + 1;
        }
        index = index + 1;
    }
    TupleShape { length: tuple_length, generic_count: generic_index, slots }
}

/// Appends to `buffer` the `2^tuple_length` tuple types of length `tuple_length`,
/// in the order of their permutation numbers.
pub fn generate_tuple_permutations(buffer: &mut Vec<TupleShape>, tuple_length: u8)
    requires
        tuple_length < 16,
    ensures
        final(buffer)@.len() == old(buffer)@.len() + pow2(tuple_length as nat),
        final(buffer)@.subrange(0, old(buffer)@.len() as int) == old(buffer)@,
        forall|p: int|
            0 <= p < pow2(tuple_length as nat) ==> shape_matches(
                #[trigger] final(buffer)@[old(buffer)@.len() + p],
                tuple_length as nat,
                p as nat,
            ),
{
    let ghost start = buffer@;
    let shift: u16 = tuple_length as u16;
    proof {
        vstd::bits::lemma_u16_pow2_no_overflow(shift as nat);
        vstd::bits::lemma_u16_shl_is_mul(1, shift);
    }
    let count: u16 = 1u16 << shift;
    let mut permutation: u16 = 0;
    while permutation < count
        invariant
            tuple_length < 16,
            count == pow2(tuple_length as nat),
            permutation <= count,
            buffer@.len() == start.len() + permutation,
            buffer@.subrange(0, start.len() as int) == start,
            forall|p: int|
                0 <= p < permutation ==> shape_matches(
                    #[trigger] buffer@[start.len() + p],
                    tuple_length as nat,
                    p as nat,
                ),
        decreases count - permutation,
    {
        let shape = tuple_shape(tuple_length, permutation);
        buffer.push(shape);
        assert(buffer@.subrange(0, start.len() as int) =~= start);
        permutation = permutation + 1;
    }
}

/// Where the tuple types of length `length` start in the full list: after the
/// `2^1 + ... + 2^(length - 1)` types of the shorter lengths.
pub open spec fn shapes_offset(length: nat) -> int {
    pow2(length) - 2
}

/// `shapes` holds, for each length from 1 to `max_tuple_length`, the tuple types
/// of that length in the order of their permutation numbers, and nothing else:
/// the geometric sum `2^1 + ... + 2^max_tuple_length = 2^(max_tuple_length + 1) - 2`
/// of them.
pub open spec fn all_shapes(shapes: Seq<TupleShape>, max_tuple_length: nat) -> bool {
    &&& shapes.len() == shapes_offset(max_tuple_length + 1)
    &&& forall|length: nat, p: int|
        1 <= length <= max_tuple_length && 0 <= p < pow2(length) ==> shape_matches(
            #[trigger] shapes[shapes_offset(length) + p],
            length,
            p as nat,
        )
}

/// Every tuple type of every length from 1 to `max_tuple_length`.
pub fn tuple_shapes(max_tuple_length: u8) -> (shapes: Vec<TupleShape>)
    requires
        MIN_TUPLE_LENGTH <= max_tuple_length <= MAX_TUPLE_LENGTH,
    ensures
        all_shapes(shapes@, max_tuple_length as nat),
{
    let mut shapes: Vec<TupleShape> = Vec::new();
    let mut tuple_length: u8 = 1;
    proof {
        lemma2_to64();
    }
    while tuple_length <= max_tuple_length
        invariant
            1 <= tuple_length <= max_tuple_length + 1,
            max_tuple_length <= MAX_TUPLE_LENGTH,
            shapes@.len() == shapes_offset(tuple_length as nat),
            forall|length: nat, p: int|
                1 <= length < tuple_length && 0 <= p < pow2(length) ==> shape_matches(
                    #[trigger] shapes@[shapes_offset(length) + p],
                    length,
                    p as nat,
                ),
        decreases max_tuple_length + 1 - tuple_length,
    {
        let ghost before = shapes@;
        generate_tuple_permutations(&mut shapes, tuple_length);
        proof {
            lemma_pow2_adds(tuple_length as nat, 1);
            lemma2_to64();
            assert forall|length: nat, p: int|
                1 <= length < tuple_length + 1 && 0 <= p < pow2(length) implies shape_matches(
                #[trigger] shapes@[shapes_offset(length) + p],
                length,
                p as nat,
            ) by {
                if length < tuple_length {
                    lemma_pow2_adds(length, 1);
                    vstd::arithmetic::power2::lemma_pow2_strictly_increases(length, tuple_length as nat);
                    assert(shapes_offset(length) + p < before.len());
                    assert(shapes@[shapes_offset(length) + p] == shapes@.subrange(0, before.len() as int)[shapes_offset(length) + p]);
                } else {
                    assert(shapes@[shapes_offset(length) + p] == shapes@[before.len() + p]);
                }
            }
        }
        tuple_length = tuple_length + 1;
    }
    proof {
        lemma_pow2_pos(0);
    }
    shapes
}

/// What [`generate_tuples`] returns for the first argument token.
pub open spec fn generate_tuples_ok(literal: Option<Seq<char>>, shapes: Seq<TupleShape>) -> bool {
    max_tuple_length_spec(literal) matches Ok(n) && all_shapes(shapes, n as nat)
}

/// Reads the maximum tuple length from the first argument token and lists
/// every tuple type up to it; refuses the argument as
/// [`parse_max_tuple_length`] does.
pub fn generate_tuples(literal: Option<&str>) -> (result: Result<Vec<TupleShape>, TupleLengthError>)
    ensures
        ({
            let text = match literal {
                Some(text) => Some(text@),
                None => None,
            };
            match result {
                Ok(shapes) => generate_tuples_ok(text, shapes@),
                Err(e) => max_tuple_length_spec(text) == Err::<u8, TupleLengthError>(e),
            }
        }),
{
    let max_tuple_length = match parse_max_tuple_length(literal) {
        Ok(n) => n,
        Err(e) => return Err(e),
    };
    Ok(tuple_shapes(max_tuple_length))
}

} // verus!
