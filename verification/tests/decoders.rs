use redefmt::decoders::ValueDecoder;
use redefmt::encoding::{BufferDispatcher, WriteValue};
use redefmt::errors::DecodeError;
use redefmt::identifiers::{CrateId, WriteStatementId};
use redefmt::pointer_width::PointerWidth;
use redefmt::statements::{
    CrateRecord, StoredFormatExpression, Stores, StructVariant, TypeStructure, TypeStructureVariant,
    WriteStatement,
};
use redefmt::type_hint::TypeHint;
use redefmt::values::{DecodedValues, Value};
use tokio_util::bytes::{Buf, BufMut, BytesMut};

fn written<T: WriteValue + ?Sized>(value: &T) -> BytesMut {
    let mut dispatcher = BufferDispatcher::new();
    value.write_value(&mut dispatcher);
    BytesMut::from(dispatcher.bytes.as_slice())
}

fn decode_written(stores: &Stores, type_hint: TypeHint, mut bytes: BytesMut) -> Value {
    let dispatched_type_hint = TypeHint::from_repr(bytes.get_u8()).unwrap();
    assert_eq!(dispatched_type_hint, type_hint);

    let mut value_decoder = ValueDecoder::new(PointerWidth::of_target(), type_hint);
    let value = value_decoder.decode(stores, &mut bytes).unwrap().unwrap();
    assert!(bytes.is_empty());
    value
}

fn assert_value<T: WriteValue>(type_hint: TypeHint, encoded_value: T, expected_value: Value) {
    let stores = Stores::new();
    let actual_value = decode_written(&stores, type_hint, written(&encoded_value));
    assert_eq!(expected_value, actual_value);
}

fn decode_error(type_hint: TypeHint, mut bytes: BytesMut) -> DecodeError {
    let stores = Stores::new();
    let mut value_decoder = ValueDecoder::new(PointerWidth::of_target(), type_hint);
    value_decoder.decode(&stores, &mut bytes).unwrap_err()
}

fn check_boolean_false() {
    assert_value(TypeHint::Boolean, true, Value::Boolean(true));
    assert_value(TypeHint::Boolean, false, Value::Boolean(false));
}

fn check_boolean_err() {
    let error = decode_error(TypeHint::Boolean, BytesMut::from(&[2u8][..]));
    assert!(matches!(error, DecodeError::InvalidValueBytes(_, _)));
}

fn check_num() {
    assert_value(TypeHint::Usize, 1usize, Value::Usize(1));
    assert_value(TypeHint::U8, 1u8, Value::U8(1));
    assert_value(TypeHint::U16, 1u16, Value::U16(1));
    assert_value(TypeHint::U32, 1u32, Value::U32(1));
    assert_value(TypeHint::U64, 1u64, Value::U64(1));
    assert_value(TypeHint::U128, 1u128, Value::U128(1));
    assert_value(TypeHint::Isize, 1isize, Value::Isize(1));
    assert_value(TypeHint::I8, 1i8, Value::I8(1));
    assert_value(TypeHint::I16, 1i16, Value::I16(1));
    assert_value(TypeHint::I32, 1i32, Value::I32(1));
    assert_value(TypeHint::I64, 1i64, Value::I64(1));
    assert_value(
        TypeHint::F32,
        redefmt::encoding::F32Bits(1f32.to_bits()),
        Value::F32(1f32.to_bits()),
    );
    assert_value(
        TypeHint::F64,
        redefmt::encoding::F64Bits(1f64.to_bits()),
        Value::F64(1f64.to_bits()),
    );
}

fn check_char() {
    for char in ['x', 'ß', 'ᴪ', '🦀'] {
        assert_value(TypeHint::Char, char, Value::Char(char));
    }
}

fn check_char_invalid_utf8_error() {
    let invalid_utf8_bytes = [0xE0, 0x80, 0x80];
    let mut bytes = BytesMut::new();
    bytes.put_u8(invalid_utf8_bytes.len() as u8);
    bytes.put_slice(&invalid_utf8_bytes);

    let error = decode_error(TypeHint::Char, bytes);
    assert!(matches!(error, DecodeError::InvalidUtf8Char));
}

fn check_string() {
    assert_value(TypeHint::StringSlice, "abc", Value::String("abc".to_string()));
    assert_value(TypeHint::StringSlice, "🦀", Value::String("🦀".to_string()));
}

fn check_string_invalid_utf8_error() {
    let invalid_utf8_bytes = [0xE0, 0x80, 0x80];
    let mut bytes = BytesMut::new();
    bytes.put_slice(&invalid_utf8_bytes.len().to_be_bytes());
    bytes.put_slice(&invalid_utf8_bytes);

    let error = decode_error(TypeHint::StringSlice, bytes);
    assert!(matches!(error, DecodeError::InvalidStringBytes));
}

fn check_tuple() {
    assert_value(
        TypeHint::Tuple,
        (10u8, "x"),
        Value::Tuple(vec![Value::U8(10), Value::String("x".to_string())]),
    );
    let inner = Value::Tuple(vec![Value::U8(10), Value::String("x".to_string())]);
    assert_value(
        TypeHint::Tuple,
        ((10u8, "x"), false),
        Value::Tuple(vec![inner, Value::Boolean(false)]),
    );
}

fn check_dyn_list() {
    assert_value(
        TypeHint::DynList,
        [&10u8 as &dyn WriteValue, &"x"],
        Value::List(vec![Value::U8(10), Value::String("x".to_string())]),
    );
}

fn check_list() {
    assert_value(
        TypeHint::List,
        [[0u8, 1], [2, 3]],
        Value::List(vec![
            Value::List(vec![Value::U8(0), Value::U8(1)]),
            Value::List(vec![Value::U8(2), Value::U8(3)]),
        ]),
    );
}

#[test]
fn value_decoder_boolean_false() {
    check_boolean_false();
}

#[test]
fn value_decoder_boolean_err() {
    check_boolean_err();
}

#[test]
fn value_decoder_num() {
    check_num();
}

#[test]
fn value_decoder_char() {
    check_char();
}

#[test]
fn value_decoder_char_invalid_utf8_error() {
    check_char_invalid_utf8_error();
}

#[test]
fn value_decoder_string() {
    check_string();
}

#[test]
fn value_decoder_string_invalid_utf8_error() {
    check_string_invalid_utf8_error();
}

#[test]
fn value_decoder_tuple() {
    check_tuple();
}

#[test]
fn value_decoder_dyn_list() {
    check_dyn_list();
}

#[test]
fn value_decoder_list() {
    check_list();
}

#[test]
fn value_boolean_false() {
    check_boolean_false();
}

#[test]
fn value_boolean_err() {
    check_boolean_err();
}

#[test]
fn value_num() {
    check_num();
}

#[test]
fn value_char() {
    check_char();
}

#[test]
fn value_char_invalid_utf8_error() {
    check_char_invalid_utf8_error();
}

#[test]
fn value_string() {
    check_string();
}

#[test]
fn value_string_invalid_utf8_error() {
    check_string_invalid_utf8_error();
}

#[test]
fn value_tuple() {
    check_tuple();
}

#[test]
fn value_dyn_list() {
    check_dyn_list();
}

#[test]
fn value_list() {
    check_list();
}

#[test]
fn core_boolean_false() {
    check_boolean_false();
}

#[test]
fn core_boolean_err() {
    check_boolean_err();
}

#[test]
fn core_num() {
    check_num();
}

#[test]
fn core_char() {
    check_char();
}

#[test]
fn core_char_invalid_utf8_error() {
    check_char_invalid_utf8_error();
}

#[test]
fn core_string() {
    check_string();
}

#[test]
fn core_string_invalid_utf8_error() {
    check_string_invalid_utf8_error();
}

#[test]
fn core_tuple() {
    check_tuple();
}

#[test]
fn core_dyn_list() {
    check_dyn_list();
}

#[test]
fn core_list() {
    check_list();
}

#[test]
fn write_segments() {
    let mut stores = Stores::new();

    let format_expression = StoredFormatExpression {
        expression: "x = {}".to_string(),
        append_newline: false,
        expected_positional_arg_count: 1,
        expected_named_args: vec![],
    };
    let arg_value = true;

    let crate_id = CrateId::new(1);
    let write_statement_id = WriteStatementId::new(1);
    stores.save_crate(crate_id.value(), CrateRecord { name: "x".to_string() });
    stores.save_write_statement(
        crate_id.value(),
        write_statement_id.value(),
        WriteStatement::FormatExpression(format_expression.clone()),
    );

    let mut dispatcher = BufferDispatcher::new();
    (crate_id, write_statement_id).write_value(&mut dispatcher);
    arg_value.write_value(&mut dispatcher);

    let expected_value = Value::NestedFormatExpression {
        expression: format_expression.expression.clone(),
        append_newline: false,
        decoded_values: DecodedValues {
            positional: vec![Value::Boolean(arg_value)],
            named: vec![],
        },
    };

    let actual_value = decode_written(
        &stores,
        TypeHint::WriteId,
        BytesMut::from(dispatcher.bytes.as_slice()),
    );
    assert_eq!(expected_value, actual_value);
}

#[test]
fn value_decoder_takes_bytes_one_at_a_time() {
    let stores = Stores::new();
    let mut bytes = written(&(300u16, "ab", [1u8, 2]));
    let type_hint = TypeHint::from_repr(bytes.get_u8()).unwrap();
    let mut value_decoder = ValueDecoder::new(PointerWidth::of_target(), type_hint);

    // The buffer grows by one byte at a time, as bytes arrive; what the
    // decoder leaves in it stays for the next call.
    let total = bytes.len();
    let mut buffer = BytesMut::new();
    let mut result = None;
    for index in 0..total {
        buffer.put_slice(&bytes.split_to(1));
        let decoded = value_decoder.decode(&stores, &mut buffer).unwrap();
        if index + 1 < total {
            assert!(decoded.is_none());
        } else {
            result = decoded;
        }
    }
    assert!(buffer.is_empty());

    let expected_value = Value::Tuple(vec![
        Value::U16(300),
        Value::String("ab".to_string()),
        Value::List(vec![Value::U8(1), Value::U8(2)]),
    ]);
    assert_eq!(Some(expected_value), result);
}

#[test]
fn value_decoder_leaves_following_bytes() {
    let stores = Stores::new();
    let mut bytes = written(&7u32);
    bytes.put_slice(&[9, 9]);
    let type_hint = TypeHint::from_repr(bytes.get_u8()).unwrap();
    let mut value_decoder = ValueDecoder::new(PointerWidth::of_target(), type_hint);
    let value = value_decoder.decode(&stores, &mut bytes).unwrap();
    assert_eq!(Some(Value::U32(7)), value);
    assert_eq!(&[9u8, 9][..], &bytes[..]);
}

#[test]
fn char_length_out_of_range_is_refused() {
    let error = decode_error(TypeHint::Char, BytesMut::from(&[5u8, 0x61, 0x61, 0x61, 0x61, 0x61][..]));
    assert_eq!(DecodeError::InvalidCharLength(5), error);
    let error = decode_error(TypeHint::Char, BytesMut::from(&[0u8][..]));
    assert_eq!(DecodeError::InvalidCharLength(0), error);
}

#[test]
fn unknown_write_crate_is_refused() {
    let stores = Stores::new();
    let mut bytes = written(&(CrateId::new(4), WriteStatementId::new(5)));
    let _ = bytes.get_u8();
    let mut value_decoder = ValueDecoder::new(PointerWidth::of_target(), TypeHint::WriteId);
    let error = value_decoder.decode(&stores, &mut bytes).unwrap_err();
    assert_eq!(DecodeError::UnknownCrate(4), error);
}

#[test]
fn unknown_element_hint_is_refused() {
    let mut bytes = BytesMut::new();
    bytes.put_slice(&1usize.to_be_bytes());
    bytes.put_u8(0xEE);
    let error = decode_error(TypeHint::List, bytes);
    assert_eq!(DecodeError::UnknownTypeHint(0xEE), error);
}

#[test]
fn unknown_write_statement_names_its_crate() {
    let mut stores = Stores::new();
    stores.save_crate(4, CrateRecord { name: "krate".to_string() });
    let mut bytes = written(&(CrateId::new(4), WriteStatementId::new(5)));
    let _ = bytes.get_u8();
    let mut value_decoder = ValueDecoder::new(PointerWidth::of_target(), TypeHint::WriteId);
    let error = value_decoder.decode(&stores, &mut bytes).unwrap_err();
    assert_eq!(
        DecodeError::UnknownStatement(5, redefmt::errors::StatementKind::Write, "krate".to_string()),
        error,
    );
}

#[test]
fn unfinished_fixed_width_value_leaves_the_buffer() {
    let stores = Stores::new();
    let mut value_decoder = ValueDecoder::new(PointerWidth::U64, TypeHint::U32);
    let mut bytes = BytesMut::from(&[0u8, 0, 1][..]);
    assert_eq!(None, value_decoder.decode(&stores, &mut bytes).unwrap());
    assert_eq!(&[0u8, 0, 1][..], &bytes[..]);
    bytes.put_u8(2);
    assert_eq!(Some(Value::U32(0x0102)), value_decoder.decode(&stores, &mut bytes).unwrap());
    assert!(bytes.is_empty());
}

#[test]
fn one_element_tuple_reads_back() {
    assert_value(TypeHint::Tuple, (5u8,), Value::Tuple(vec![Value::U8(5)]));
}

#[test]
fn list_element_error_leaves_what_follows_the_failing_byte() {
    let stores = Stores::new();
    let mut value_decoder = ValueDecoder::new(PointerWidth::U16, TypeHint::List);
    let mut bytes = BytesMut::from(&[0u8, 3, TypeHint::Boolean.repr(), 1, 7, 0xAA, 0xBB][..]);
    let error = value_decoder.decode(&stores, &mut bytes).unwrap_err();
    assert_eq!(DecodeError::InvalidValueBytes(TypeHint::Boolean, 7), error);
    assert_eq!(&[0xAAu8, 0xBB][..], &bytes[..]);
}

#[test]
fn unknown_list_hint_takes_only_that_byte() {
    let stores = Stores::new();
    let mut value_decoder = ValueDecoder::new(PointerWidth::U16, TypeHint::List);
    let mut bytes = BytesMut::from(&[0u8, 1, 0xFF, 0xAA][..]);
    let error = value_decoder.decode(&stores, &mut bytes).unwrap_err();
    assert_eq!(DecodeError::UnknownTypeHint(0xFF), error);
    assert_eq!(&[0xAAu8][..], &bytes[..]);
}

#[test]
fn unfinished_tuple_takes_its_finished_values() {
    let stores = Stores::new();
    let mut value_decoder = ValueDecoder::new(PointerWidth::U16, TypeHint::Tuple);
    let mut bytes = BytesMut::from(&[2u8, TypeHint::U8.repr(), 5, TypeHint::U16.repr(), 0][..]);
    assert_eq!(None, value_decoder.decode(&stores, &mut bytes).unwrap());
    assert_eq!(&[0u8][..], &bytes[..]);
    bytes.put_u8(1);
    assert_eq!(
        Some(Value::Tuple(vec![Value::U8(5), Value::U16(1)])),
        value_decoder.decode(&stores, &mut bytes).unwrap(),
    );
    assert!(bytes.is_empty());
}

#[test]
fn unfinished_list_takes_its_finished_values() {
    let stores = Stores::new();
    let mut value_decoder = ValueDecoder::new(PointerWidth::U16, TypeHint::List);
    let mut bytes = BytesMut::from(&[0u8, 2, TypeHint::U16.repr(), 0, 4, 0][..]);
    assert_eq!(None, value_decoder.decode(&stores, &mut bytes).unwrap());
    assert_eq!(&[0u8][..], &bytes[..]);
    bytes.put_u8(6);
    assert_eq!(
        Some(Value::List(vec![Value::U16(4), Value::U16(6)])),
        value_decoder.decode(&stores, &mut bytes).unwrap(),
    );
    assert!(bytes.is_empty());
}

#[test]
fn unknown_enum_variant_takes_only_its_index() {
    let mut stores = Stores::new();
    stores.save_crate(1, CrateRecord { name: "x".to_string() });
    stores.save_write_statement(
        1,
        2,
        WriteStatement::TypeStructure(TypeStructure {
            name: "E".to_string(),
            variant: TypeStructureVariant::Enum(vec![("A".to_string(), StructVariant::Unit)]),
        }),
    );
    let mut value_decoder = ValueDecoder::new(PointerWidth::U16, TypeHint::WriteId);
    let mut bytes = BytesMut::from(&[0u8, 1, 0, 2, 3, 0xAA][..]);
    let error = value_decoder.decode(&stores, &mut bytes).unwrap_err();
    assert_eq!(DecodeError::UnknownEnumVariant(3), error);
    assert_eq!(&[0xAAu8][..], &bytes[..]);
}

#[test]
fn resumed_decoding_matches_a_fresh_decoder() {
    let stores = Stores::new();
    let all = [2u8, TypeHint::U8.repr(), 5, TypeHint::Boolean.repr(), 4, 0xAA];
    for split in 0..all.len() {
        let mut resumed = ValueDecoder::new(PointerWidth::U16, TypeHint::Tuple);
        let mut bytes = BytesMut::from(&all[..split]);
        let first = resumed.decode(&stores, &mut bytes);
        if first != Ok(None) {
            continue;
        }
        bytes.put_slice(&all[split..]);
        let resumed_result = resumed.decode(&stores, &mut bytes);

        let mut fresh = ValueDecoder::new(PointerWidth::U16, TypeHint::Tuple);
        let mut fresh_bytes = BytesMut::from(&all[..]);
        let fresh_result = fresh.decode(&stores, &mut fresh_bytes);

        assert_eq!(fresh_result, resumed_result);
        assert_eq!(Err(DecodeError::InvalidValueBytes(TypeHint::Boolean, 4)), fresh_result);
        assert_eq!(&fresh_bytes[..], &bytes[..]);
        assert_eq!(&[0xAAu8][..], &bytes[..]);
    }
}
