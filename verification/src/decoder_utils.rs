use tokio_util::bytes::BytesMut;
use vstd::prelude::*;

use crate::buffer::{
    be_nat, buffer_bytes, buffer_len, buffer_try_get_i16, buffer_try_get_i32, buffer_try_get_i64,
    buffer_try_get_u16, buffer_try_get_u32, buffer_try_get_u64, buffer_try_get_u8, took_front,
    twos_complement,
};
use crate::errors::DecodeError;
use crate::pointer_width::PointerWidth;
use crate::type_hint::{type_hint_from_repr, TypeHint};

verus! {

/// Reads of the integers whose width depends on the writer's target.
pub struct DecoderUtils;

impl DecoderUtils {
    /// Reads a `usize` of the writer's width, big-endian, if the buffer holds
    /// that many bytes; otherwise the buffer is left as it was.
    pub fn get_target_usize(src: &mut BytesMut, pointer_width: PointerWidth) -> (r: Option<u64>)
        ensures
            took_front(
                buffer_bytes(*old(src)),
                buffer_bytes(*final(src)),
                pointer_width.spec_size(),
                r is Some,
            ),
            r matches Some(v) ==> v as nat == be_nat(
                buffer_bytes(*old(src)).take(pointer_width.spec_size() as int),
            ),
    {
        if buffer_len(src) < pointer_width.size() {
            return None;
        }
        match pointer_width {
            PointerWidth::U16 => match buffer_try_get_u16(src) {
                Some(v) => Some(v as u64),
                None => None,
            },
            PointerWidth::U32 => match buffer_try_get_u32(src) {
                Some(v) => Some(v as u64),
                None => None,
            },
            PointerWidth::U64 => buffer_try_get_u64(src),
        }
    }

    /// Reads an `isize` of the writer's width, big-endian two's complement,
    /// if the buffer holds that many bytes; otherwise the buffer is left as
    /// it was.
    pub fn get_target_isize(src: &mut BytesMut, pointer_width: PointerWidth) -> (r: Option<i64>)
        ensures
            took_front(
                buffer_bytes(*old(src)),
                buffer_bytes(*final(src)),
                pointer_width.spec_size(),
                r is Some,
            ),
            r matches Some(v) ==> v as int == twos_complement(
                be_nat(buffer_bytes(*old(src)).take(pointer_width.spec_size() as int)),
                pointer_width.spec_size(),
            ),
    {
        if buffer_len(src) < pointer_width.size() {
            return None;
        }
        match pointer_width {
            PointerWidth::U16 => match buffer_try_get_i16(src) {
                Some(v) => Some(v as i64),
                None => None,
            },
            PointerWidth::U32 => match buffer_try_get_i32(src) {
                Some(v) => Some(v as i64),
                None => None,
            },
            PointerWidth::U64 => buffer_try_get_i64(src),
        }
    }

    /// Reads a type hint byte, if there is one; a byte that stands for no
    /// hint is an error.
    pub fn get_type_hint(src: &mut BytesMut) -> (r: Result<Option<TypeHint>, DecodeError>)
        ensures
            took_front(buffer_bytes(*old(src)), buffer_bytes(*final(src)), 1, !(r == Ok::<
                Option<TypeHint>,
                DecodeError,
            >(None))),
            match r {
                Ok(Some(h)) => type_hint_from_repr(buffer_bytes(*old(src))[0]) == Some(h),
                Ok(None) => buffer_bytes(*old(src)).len() == 0,
                Err(e) => buffer_bytes(*old(src)).len() > 0 && type_hint_from_repr(
                    buffer_bytes(*old(src))[0],
                ) is None && e == DecodeError::UnknownTypeHint(buffer_bytes(*old(src))[0]),
            },
    {
        match buffer_try_get_u8(src) {
            None => Ok(None),
            Some(b) => match TypeHint::from_repr(b) {
                Some(h) => Ok(Some(h)),
                None => Err(DecodeError::UnknownTypeHint(b)),
            },
        }
    }
}

} // verus!
