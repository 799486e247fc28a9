use encode_unicode::error::Utf8Error;
use encode_unicode::CharExt;
use std::string::FromUtf8Error;
use vstd::prelude::*;
use vstd::utf8::{decode_first_scalar, decode_utf8, encode_utf8, valid_first_scalar, valid_utf8};

verus! {

/// The error `encode_unicode` reports for bytes that do not start with a
/// UTF-8 encoded character.
#[verifier::external_type_specification]
#[verifier::external_body]
pub struct ExUtf8Error(Utf8Error);

/// The error `String::from_utf8` reports for bytes that are not UTF-8.
#[verifier::external_type_specification]
#[verifier::external_body]
pub struct ExFromUtf8Error(FromUtf8Error);

/// `CharExt::from_utf8_array` of `encode_unicode`: reads the character whose
/// UTF-8 sequence starts the array (the length of the sequence is told by
/// its first byte; bytes after it are ignored). It succeeds exactly when the
/// array starts with a well-formed UTF-8 sequence of a scalar value: no
/// unexpected continuation byte, no overlong form, no surrogate, nothing
/// above U+10FFFF.
#[verifier::external_body]
pub(crate) fn char_from_utf8_array(bytes: [u8; 4]) -> (r: Result<char, Utf8Error>)
    ensures
        r is Ok <==> valid_first_scalar(bytes@),
        r matches Ok(c) ==> c as u32 == decode_first_scalar(bytes@),
{
    char::from_utf8_array(bytes)
}

/// `String::from_utf8`: succeeds exactly on UTF-8 bytes, and the string then
/// holds the characters they encode.
#[verifier::external_body]
pub(crate) fn string_from_utf8(bytes: Vec<u8>) -> (r: Result<String, FromUtf8Error>)
    ensures
        r is Ok <==> valid_utf8(bytes@),
        r matches Ok(s) ==> s@ == decode_utf8(bytes@),
{
    String::from_utf8(bytes)
}

/// `char::encode_utf8`: the UTF-8 encoding of a character, handed back as a
/// vector.
#[verifier::external_body]
pub(crate) fn char_utf8_bytes(c: char) -> (bytes: Vec<u8>)
    ensures
        bytes@ == encode_utf8(seq![c]),
{
    let mut buffer = [0u8; 4];
    c.encode_utf8(&mut buffer).as_bytes().to_vec()
}

} // verus!
