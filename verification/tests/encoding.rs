use redefmt::encoding::{BufferDispatcher, Dispatcher, F32Bits, F64Bits, WriteValue};
use redefmt::identifiers::{CrateId, WriteStatementId};
use redefmt::type_hint::TypeHint;

/// A dispatcher that drops what it is sent.
struct NoopTestDispatcher;

impl Dispatcher for NoopTestDispatcher {
    fn write(&mut self, _bytes: &[u8]) {}
}

fn written<T: WriteValue + ?Sized>(value: &T) -> Vec<u8> {
    let mut dispatcher = BufferDispatcher::new();
    value.write_value(&mut dispatcher);
    dispatcher.bytes
}

fn written_raw<T: WriteValue + ?Sized>(value: &T) -> Vec<u8> {
    let mut dispatcher = BufferDispatcher::new();
    value.write_raw(&mut dispatcher);
    dispatcher.bytes
}

#[test]
fn write_value() {
    let crate_id = CrateId::new(1);
    let statement_id = WriteStatementId::new(2);

    let bytes = written(&(crate_id, statement_id));

    let mut expected_bytes = vec![TypeHint::WriteId.repr()];
    expected_bytes.extend_from_slice(&crate_id.value().to_be_bytes());
    expected_bytes.extend_from_slice(&statement_id.value().to_be_bytes());

    assert_eq!(expected_bytes, bytes);
}

fn assert_num<T: WriteValue>(value: T, type_hint: TypeHint, be_bytes: &[u8]) {
    let mut expected_bytes = vec![type_hint.repr()];
    expected_bytes.extend_from_slice(be_bytes);
    assert_eq!(expected_bytes, written(&value), "invalid bytes for {type_hint:?}");
}

#[test]
fn write_value_num() {
    assert_num(1isize, TypeHint::Isize, &1isize.to_be_bytes());
    assert_num(1i8, TypeHint::I8, &1i8.to_be_bytes());
    assert_num(1i16, TypeHint::I16, &1i16.to_be_bytes());
    assert_num(1i32, TypeHint::I32, &1i32.to_be_bytes());
    assert_num(1i64, TypeHint::I64, &1i64.to_be_bytes());
    assert_num(1i128, TypeHint::I128, &1i128.to_be_bytes());
    assert_num(1usize, TypeHint::Usize, &1usize.to_be_bytes());
    assert_num(1u8, TypeHint::U8, &1u8.to_be_bytes());
    assert_num(1u16, TypeHint::U16, &1u16.to_be_bytes());
    assert_num(1u32, TypeHint::U32, &1u32.to_be_bytes());
    assert_num(1u64, TypeHint::U64, &1u64.to_be_bytes());
    assert_num(1u128, TypeHint::U128, &1u128.to_be_bytes());
    assert_num(F32Bits(1f32.to_bits()), TypeHint::F32, &1f32.to_be_bytes());
    assert_num(F64Bits(1f64.to_bits()), TypeHint::F64, &1f64.to_be_bytes());
}

#[test]
fn write_value_bool() {
    for boolean in [true, false] {
        let expected_bytes = vec![TypeHint::Boolean.repr(), boolean as u8];
        assert_eq!(expected_bytes, written(&boolean), "invalid bytes for {boolean}");
    }
}

#[test]
fn write_value_char() {
    for (char, expected_length) in [('x', 1u8), ('ß', 2), ('ᴪ', 3), ('🦀', 4)] {
        let bytes = written(&char);

        let mut expected_bytes = vec![TypeHint::Char.repr(), expected_length];
        let mut str_buf: [u8; 4] = [0; 4];
        let str: &str = char.encode_utf8(&mut str_buf);
        assert_eq!(expected_length, str.len() as u8);
        expected_bytes.extend_from_slice(str.as_bytes());

        assert_eq!(2 + expected_length, bytes.len() as u8);
        assert_eq!(expected_bytes, bytes);
    }
}

#[test]
fn str() {
    for str in ["x", "🦀"] {
        let mut expected_bytes = vec![TypeHint::StringSlice.repr()];
        expected_bytes.extend_from_slice(&str.len().to_be_bytes());
        expected_bytes.extend_from_slice(str.as_bytes());
        assert_eq!(expected_bytes, written(&str), "invalid bytes for {str}");
    }
}

fn assert_boxed<T: WriteValue>(value: T) {
    let boxed = Box::new(&value);
    let mut boxed_dispatcher = BufferDispatcher::new();
    boxed.write_value(&mut boxed_dispatcher);

    assert_eq!(written(&value), boxed_dispatcher.bytes);
}

#[test]
fn boxed() {
    assert_boxed("");
    assert_boxed(123);
}

#[test]
fn boxed_dyn() {
    let value = "123";

    let mut boxed_dispatcher = BufferDispatcher::new();
    let boxed_value: Box<dyn WriteValue> = Box::new(value);
    boxed_value.write_value(&mut boxed_dispatcher);

    assert_eq!(written(&value), boxed_dispatcher.bytes);
}

#[test]
fn write_value_tuple() {
    let bytes = written(&("a", 1));

    let mut expected_bytes = vec![TypeHint::Tuple.repr(), 2];
    expected_bytes.extend_from_slice(&written(&"a"));
    expected_bytes.extend_from_slice(&written(&1));

    assert_eq!(expected_bytes, bytes);
}

#[test]
fn compiles_tuple_permutations() {
    let mut dispatcher = NoopTestDispatcher;

    // All permutations for length = 2
    ("str", 10).write_value(&mut dispatcher);
    (&"str" as &dyn WriteValue, 10).write_value(&mut dispatcher);
    ("str", &10 as &dyn WriteValue).write_value(&mut dispatcher);
    (&"str" as &dyn WriteValue, &10 as &dyn WriteValue).write_value(&mut dispatcher);

    // Some permutation for length > 2
    (&"str" as &dyn WriteValue, &10 as &dyn WriteValue, 5, false).write_value(&mut dispatcher);

    // Write value for max length = 7
    (0, 1, 2, 3, 4, 5, 6).write_value(&mut dispatcher);
}

fn expected_slice_bytes<T: WriteValue>(slice: &[T]) -> Vec<u8> {
    let mut expected_bytes = vec![TypeHint::List.repr()];
    expected_bytes.extend_from_slice(&slice.len().to_be_bytes());

    for (index, element) in slice.iter().enumerate() {
        if index == 0 {
            expected_bytes.push(element.hint().repr());
        }
        expected_bytes.extend_from_slice(&written_raw(element));
    }

    expected_bytes
}

fn assert_slice<T: WriteValue>(slice: &[T]) {
    assert_eq!(expected_slice_bytes(slice), written(&slice));
}

fn assert_array<T: WriteValue, const N: usize>(array: [T; N]) {
    assert_eq!(expected_slice_bytes(&array), written(&array));
}

fn assert_vec<T: WriteValue>(vec: Vec<T>) {
    assert_eq!(expected_slice_bytes(&vec), written(&vec));
}

#[test]
fn slice() {
    assert_slice::<u8>(&[]);
    let array = [0];
    assert_slice(&array);
    assert_slice(array.as_ref());
    assert_slice(&[0, 1]);
    assert_slice(&["a", "b", "c"]);
    assert_slice(&[&[0], &[1]]);
    assert_slice(&[[1].as_slice(), &[2, 3], &[4, 5, 6]]);
}

#[test]
fn array() {
    assert_array::<u8, 0>([]);
    assert_array([0, 1]);
    assert_array([[0], [1]]);
    assert_array([&[0], &[1]]);
}

#[test]
fn vec() {
    assert_vec::<u8>(vec![]);
    assert_vec(vec![0, 1]);
    assert_vec(vec![["y"], ["y"]]);
}

fn expected_dyn_bytes(slice: &[&dyn WriteValue]) -> Vec<u8> {
    let mut expected_bytes = vec![TypeHint::DynList.repr()];
    expected_bytes.extend_from_slice(&slice.len().to_be_bytes());

    for element in slice {
        expected_bytes.push(element.hint().repr());
        expected_bytes.extend_from_slice(&written_raw(*element));
    }

    expected_bytes
}

fn assert_dyn_slice(dyn_slice: &[&dyn WriteValue]) {
    assert_eq!(expected_dyn_bytes(dyn_slice), written(&dyn_slice));
}

fn assert_dyn_array<const N: usize>(dyn_array: [&dyn WriteValue; N]) {
    assert_eq!(expected_dyn_bytes(&dyn_array), written(&dyn_array));
}

fn assert_dyn_vec(dyn_vec: Vec<&dyn WriteValue>) {
    assert_eq!(expected_dyn_bytes(&dyn_vec), written(&dyn_vec));
}

#[test]
fn dyn_slice() {
    assert_dyn_slice(&[]);
    assert_dyn_slice(&[&"str" as &dyn WriteValue, &1 as &dyn WriteValue]);
}

#[test]
fn dyn_array() {
    assert_dyn_array([]);
    assert_dyn_array([&"str" as &dyn WriteValue, &1 as &dyn WriteValue]);
}

#[test]
fn dyn_vec() {
    assert_dyn_vec(vec![]);
    assert_dyn_vec(vec![&"str" as &dyn WriteValue, &1 as &dyn WriteValue]);
}

#[test]
fn encoded_numbers_are_big_endian() {
    assert_eq!(vec![TypeHint::U16.repr(), 0x12, 0x34], written(&0x1234u16));
    assert_eq!(vec![TypeHint::I16.repr(), 0xff, 0xfe], written(&-2i16));
    assert_eq!(vec![TypeHint::I8.repr(), 0x80], written(&i8::MIN));
}

#[test]
fn empty_list_has_no_element_hint() {
    let empty: [u16; 0] = [];
    let mut expected_bytes = vec![TypeHint::List.repr()];
    expected_bytes.extend_from_slice(&0usize.to_be_bytes());
    assert_eq!(expected_bytes, written(&empty));
}

#[test]
fn nested_tuple_bytes() {
    let bytes = written(&((1u8, "x"), false));
    let mut expected_bytes = vec![TypeHint::Tuple.repr(), 2, TypeHint::Tuple.repr(), 2];
    expected_bytes.extend_from_slice(&[TypeHint::U8.repr(), 1]);
    expected_bytes.extend_from_slice(&written(&"x"));
    expected_bytes.extend_from_slice(&[TypeHint::Boolean.repr(), 0]);
    assert_eq!(expected_bytes, bytes);
}

#[test]
fn one_element_tuple() {
    assert_eq!(vec![TypeHint::Tuple.repr(), 1, TypeHint::U8.repr(), 5], written(&(5u8,)));
    let mut dispatcher = NoopTestDispatcher;
    (&"str" as &dyn WriteValue,).write_value(&mut dispatcher);
}
