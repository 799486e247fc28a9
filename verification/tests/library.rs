use redefmt::decoder_utils::DecoderUtils;
use redefmt::encoding::{write_type_hint, BufferDispatcher};
use redefmt::errors::{DecodeError, StatementKind};
use redefmt::pointer_width::PointerWidth;
use redefmt::statements::{make_statement_key, CrateRecord, Stores};
use redefmt::tuple_permutations::{
    generate_tuple_permutations, generate_tuples, is_dyn, parse_max_tuple_length, tuple_shape,
    tuple_shapes, TupleLengthError, TupleSlot, MAX_TUPLE_LENGTH, MIN_TUPLE_LENGTH,
};
use redefmt::type_hint::TypeHint;
use redefmt::write_primitive::WritePrimitive;
use tokio_util::bytes::BytesMut;

#[test]
fn max_tuple_length_is_parsed_and_bounded() {
    assert_eq!(Ok(7), parse_max_tuple_length(Some("7")));
    assert_eq!(Ok(2), parse_max_tuple_length(Some("+2")));
    assert_eq!(Ok(10), parse_max_tuple_length(Some("10")));
    assert_eq!(Err(TupleLengthError::TooSmall(1)), parse_max_tuple_length(Some("1")));
    assert_eq!(Err(TupleLengthError::TooLarge(11)), parse_max_tuple_length(Some("11")));
    assert_eq!(Err(TupleLengthError::InvalidLiteral), parse_max_tuple_length(Some("256")));
    assert_eq!(Err(TupleLengthError::InvalidLiteral), parse_max_tuple_length(Some("7u8")));
    assert_eq!(Err(TupleLengthError::InvalidLiteral), parse_max_tuple_length(Some("")));
    assert_eq!(Err(TupleLengthError::ExpectedLiteral), parse_max_tuple_length(None));
    assert_eq!((2, 10), (MIN_TUPLE_LENGTH, MAX_TUPLE_LENGTH));
}

#[test]
fn is_dyn_reads_permutation_bits() {
    assert!(is_dyn(0, 0));
    assert!(!is_dyn(1, 0));
    assert!(is_dyn(1, 1));
    assert!(!is_dyn(0b100, 2));
    assert!(is_dyn(0b011, 2));
    assert!(!is_dyn(0x8000, 15));
}

#[test]
fn tuple_shape_numbers_generic_elements() {
    let shape = tuple_shape(4, 0b1010);
    assert_eq!(4, shape.length);
    assert_eq!(2, shape.generic_count);
    assert_eq!(
        vec![TupleSlot::Dyn, TupleSlot::Generic(0), TupleSlot::Dyn, TupleSlot::Generic(1)],
        shape.slots
    );
}

#[test]
fn every_permutation_of_a_length_is_generated() {
    let mut buffer = Vec::new();
    generate_tuple_permutations(&mut buffer, 2);
    assert_eq!(4, buffer.len());
    assert_eq!(vec![TupleSlot::Dyn, TupleSlot::Dyn], buffer[0].slots);
    assert_eq!(vec![TupleSlot::Generic(0), TupleSlot::Dyn], buffer[1].slots);
    assert_eq!(vec![TupleSlot::Dyn, TupleSlot::Generic(0)], buffer[2].slots);
    assert_eq!(vec![TupleSlot::Generic(0), TupleSlot::Generic(1)], buffer[3].slots);
}

#[test]
fn tuples_up_to_seven_elements() {
    let shapes = tuple_shapes(7);
    // 2^1 + 2^2 + ... + 2^7 = 2^8 - 2
    assert_eq!(254, shapes.len());
    assert_eq!(1, shapes[0].length);
    assert_eq!(vec![TupleSlot::Dyn], shapes[0].slots);
    assert_eq!(vec![TupleSlot::Generic(0)], shapes[1].slots);
    assert_eq!(2, shapes[2].length);
    assert_eq!(7, shapes[253].length);
    assert_eq!(7, shapes[253].generic_count);

    let generated = generate_tuples(Some("7")).unwrap();
    assert_eq!(shapes, generated);
    assert_eq!(Err(TupleLengthError::TooLarge(11)), generate_tuples(Some("11")));
}

#[test]
fn type_hint_bytes_read_back() {
    for byte in 0..=255u8 {
        if let Some(hint) = TypeHint::from_repr(byte) {
            assert_eq!(byte, hint.repr());
        }
    }
    let mut dispatcher = BufferDispatcher::new();
    write_type_hint(TypeHint::Char, &mut dispatcher);
    assert_eq!(vec![TypeHint::Char.repr()], dispatcher.bytes);
}

#[test]
fn pointer_width_of_this_target() {
    let width = PointerWidth::of_target();
    assert_eq!(std::mem::size_of::<usize>(), width.size());
    assert_eq!(2, PointerWidth::U16.size());
    assert_eq!(4, PointerWidth::U32.size());
}

#[test]
fn target_sized_numbers_follow_the_pointer_width() {
    let mut src = BytesMut::from(&[0x01u8, 0x02, 0xff, 0xfe, 0xEE][..]);
    assert_eq!(Some(0x0102), DecoderUtils::get_target_usize(&mut src, PointerWidth::U16));
    assert_eq!(Some(-2), DecoderUtils::get_target_isize(&mut src, PointerWidth::U16));
    assert_eq!(None, DecoderUtils::get_target_usize(&mut src, PointerWidth::U16));
    assert_eq!(1, src.len());
    assert_eq!(Err(DecodeError::UnknownTypeHint(0xEE)), DecoderUtils::get_type_hint(&mut src));
    assert_eq!(Ok(None), DecoderUtils::get_type_hint(&mut src));
}

#[test]
fn stores_keep_the_first_record() {
    let mut stores = Stores::new();
    stores.save_crate(3, CrateRecord { name: "a".to_string() });
    stores.save_crate(3, CrateRecord { name: "b".to_string() });
    assert_eq!(Some(&CrateRecord { name: "a".to_string() }), stores.get_crate(3));
    assert_eq!(None, stores.get_crate(4));
    assert_eq!(0x0001_0002, make_statement_key(1, 2));
}

#[test]
fn primitives_are_written_without_hint() {
    let mut dispatcher = BufferDispatcher::new();
    0x0102u16.write_primitive(&mut dispatcher);
    true.write_primitive(&mut dispatcher);
    [7u8, 8].write_primitive(&mut dispatcher);
    "hi".write_primitive(&mut dispatcher);

    let mut expected = vec![1, 2, 1, 7, 8];
    expected.extend_from_slice(&2usize.to_be_bytes());
    expected.extend_from_slice(b"hi");
    assert_eq!(expected, dispatcher.bytes);
}

#[test]
fn missing_statements_are_reported_with_their_crate() {
    let mut stores = Stores::new();
    assert_eq!(Err(DecodeError::UnknownCrate(1)), stores.get_or_insert_print_statement(1, 2, None));
    assert_eq!(Err(DecodeError::UnknownCrate(1)), stores.get_or_insert_crate(1, None));
    assert_eq!(Ok(()), stores.get_or_insert_crate(1, Some(CrateRecord { name: "k".to_string() })));
    assert_eq!(
        Err(DecodeError::UnknownStatement(2, StatementKind::Print, "k".to_string())),
        stores.get_or_insert_print_statement(1, 2, None),
    );
    assert_eq!(
        Err(DecodeError::UnknownStatement(3, StatementKind::Write, "k".to_string())),
        stores.get_or_insert_write_statement(1, 3, None),
    );
}
