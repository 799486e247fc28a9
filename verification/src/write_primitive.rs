use vstd::arithmetic::power2::{lemma2_to64, lemma2_to64_rest, lemma_pow2_adds};
use vstd::prelude::*;
use vstd::utf8::encode_utf8;

use vstd::layout::size_of;

use crate::buffer::{be_nat, twos_complement};
use crate::encoding::{
    be_bytes, lemma_be_bytes, lemma_isize_fits, lemma_signed_bytes, lemma_usize_fits, push_bytes,
    push_signed, push_unsigned, target_width, unsigned_of, Dispatcher, F32Bits, F64Bits,
};
use crate::parse::{parse_length, Parsed};
use crate::pointer_width::PointerWidth;

verus! {

/// A value written as its bytes alone, without a type hint: numbers
/// big-endian, byte strings and string slices after their length.
pub trait WritePrimitive {
    /// The bytes the value is written as.
    spec fn primitive_bytes(&self) -> Seq<u8>;

    /// Appends the bytes of the value.
    fn encode_primitive(&self, out: &mut Vec<u8>)
        ensures
            final(out)@ == old(out)@ + self.primitive_bytes(),
    ;

    /// Sends the bytes of the value.
    fn write_primitive(&self, dispatcher: &mut dyn Dispatcher)
        ensures
            final(dispatcher).written() == old(dispatcher).written() + self.primitive_bytes(),
    {
        let mut bytes: Vec<u8> = Vec::new();
        self.encode_primitive(&mut bytes);
        assert(bytes@ =~= self.primitive_bytes());
        dispatcher.write(bytes.as_slice());
    }
}

impl<T: WritePrimitive + ?Sized> WritePrimitive for &T {
    open spec fn primitive_bytes(&self) -> Seq<u8> {
        (**self).primitive_bytes()
    }

    fn encode_primitive(&self, out: &mut Vec<u8>) {
        (**self).encode_primitive(out)
    }
}

impl WritePrimitive for [u8] {
    open spec fn primitive_bytes(&self) -> Seq<u8> {
        be_bytes(self@.len(), target_width()) + self@
    }

    fn encode_primitive(&self, out: &mut Vec<u8>) {
        let length = self.len();
        proof {
            lemma_usize_fits(length);
        }
        let width = PointerWidth::of_target().size();
        push_unsigned(out, length as u128, width);
        push_bytes(out, self);
    }
}

impl WritePrimitive for str {
    open spec fn primitive_bytes(&self) -> Seq<u8> {
        be_bytes(encode_utf8(self@).len(), target_width()) + encode_utf8(self@)
    }

    fn encode_primitive(&self, out: &mut Vec<u8>) {
        let bytes = self.as_bytes();
        let length = bytes.len();
        proof {
            lemma_usize_fits(length);
        }
        let width = PointerWidth::of_target().size();
        push_unsigned(out, length as u128, width);
        push_bytes(out, bytes);
    }
}

impl<const N: usize> WritePrimitive for [u8; N] {
    open spec fn primitive_bytes(&self) -> Seq<u8> {
        self@
    }

    fn encode_primitive(&self, out: &mut Vec<u8>) {
        push_bytes(out, self.as_slice());
    }
}

impl WritePrimitive for bool {
    open spec fn primitive_bytes(&self) -> Seq<u8> {
        seq![if *self { 1u8 } else { 0u8 }]
    }

    fn encode_primitive(&self, out: &mut Vec<u8>) {
        let byte: u8 = if *self {
            1
        } else {
            0
        };
        out.push(byte);
    }
}

impl WritePrimitive for u8 {
    open spec fn primitive_bytes(&self) -> Seq<u8> {
        be_bytes(*self as nat, 1)
    }

    fn encode_primitive(&self, out: &mut Vec<u8>) {
        proof {
            lemma2_to64();
            lemma2_to64_rest();
            lemma_pow2_adds(64, 64);
        }
        push_unsigned(out, *self as u128, 1);
    }
}

impl WritePrimitive for u16 {
    open spec fn primitive_bytes(&self) -> Seq<u8> {
        be_bytes(*self as nat, 2)
    }

    fn encode_primitive(&self, out: &mut Vec<u8>) {
        proof {
            lemma2_to64();
            lemma2_to64_rest();
            lemma_pow2_adds(64, 64);
        }
        push_unsigned(out, *self as u128, 2);
    }
}

impl WritePrimitive for u32 {
    open spec fn primitive_bytes(&self) -> Seq<u8> {
        be_bytes(*self as nat, 4)
    }

    fn encode_primitive(&self, out: &mut Vec<u8>) {
        proof {
            lemma2_to64();
            lemma2_to64_rest();
            lemma_pow2_adds(64, 64);
        }
        push_unsigned(out, *self as u128, 4);
    }
}

impl WritePrimitive for u64 {
    open spec fn primitive_bytes(&self) -> Seq<u8> {
        be_bytes(*self as nat, 8)
    }

    fn encode_primitive(&self, out: &mut Vec<u8>) {
        proof {
            lemma2_to64();
            lemma2_to64_rest();
            lemma_pow2_adds(64, 64);
        }
        push_unsigned(out, *self as u128, 8);
    }
}

impl WritePrimitive for u128 {
    open spec fn primitive_bytes(&self) -> Seq<u8> {
        be_bytes(*self as nat, 16)
    }

    fn encode_primitive(&self, out: &mut Vec<u8>) {
        proof {
            lemma2_to64();
            lemma2_to64_rest();
            lemma_pow2_adds(64, 64);
        }
        push_unsigned(out, *self as u128, 16);
    }
}

impl WritePrimitive for i8 {
    open spec fn primitive_bytes(&self) -> Seq<u8> {
        be_bytes(unsigned_of(*self as int, 1), 1)
    }

    fn encode_primitive(&self, out: &mut Vec<u8>) {
        proof {
            lemma2_to64();
            lemma2_to64_rest();
        }
        push_signed(out, *self as i128, 1);
    }
}

impl WritePrimitive for i16 {
    open spec fn primitive_bytes(&self) -> Seq<u8> {
        be_bytes(unsigned_of(*self as int, 2), 2)
    }

    fn encode_primitive(&self, out: &mut Vec<u8>) {
        proof {
            lemma2_to64();
            lemma2_to64_rest();
        }
        push_signed(out, *self as i128, 2);
    }
}

impl WritePrimitive for i32 {
    open spec fn primitive_bytes(&self) -> Seq<u8> {
        be_bytes(unsigned_of(*self as int, 4), 4)
    }

    fn encode_primitive(&self, out: &mut Vec<u8>) {
        proof {
            lemma2_to64();
            lemma2_to64_rest();
        }
        push_signed(out, *self as i128, 4);
    }
}

impl WritePrimitive for i64 {
    open spec fn primitive_bytes(&self) -> Seq<u8> {
        be_bytes(unsigned_of(*self as int, 8), 8)
    }

    fn encode_primitive(&self, out: &mut Vec<u8>) {
        proof {
            lemma2_to64();
            lemma2_to64_rest();
        }
        push_signed(out, *self as i128, 8);
    }
}

impl WritePrimitive for usize {
    open spec fn primitive_bytes(&self) -> Seq<u8> {
        be_bytes(*self as nat, target_width())
    }

    fn encode_primitive(&self, out: &mut Vec<u8>) {
        proof {
            lemma_usize_fits(*self);
        }
        let width = PointerWidth::of_target().size();
        push_unsigned(out, *self as u128, width);
    }
}

impl WritePrimitive for isize {
    open spec fn primitive_bytes(&self) -> Seq<u8> {
        be_bytes(unsigned_of(*self as int, target_width()), target_width())
    }

    fn encode_primitive(&self, out: &mut Vec<u8>) {
        proof {
            lemma_isize_fits(*self);
        }
        let width = PointerWidth::of_target().size();
        push_signed(out, *self as i128, width);
    }
}

impl WritePrimitive for F32Bits {
    open spec fn primitive_bytes(&self) -> Seq<u8> {
        be_bytes(self.0 as nat, 4)
    }

    fn encode_primitive(&self, out: &mut Vec<u8>) {
        proof {
            lemma2_to64();
        }
        push_unsigned(out, self.0 as u128, 4);
    }
}

impl WritePrimitive for F64Bits {
    open spec fn primitive_bytes(&self) -> Seq<u8> {
        be_bytes(self.0 as nat, 8)
    }

    fn encode_primitive(&self, out: &mut Vec<u8>) {
        proof {
            lemma2_to64();
            lemma2_to64_rest();
        }
        push_unsigned(out, self.0 as u128, 8);
    }
}

/// Each unsigned number is written as exactly as many bytes as its type
/// has, most significant first: read big-endian, they are the number.
pub proof fn lemma_unsigned_primitives_read_back(a: u8, b: u16, c: u32, d: u64, e: u128, f: usize)
    ensures
        a.primitive_bytes().len() == size_of::<u8>() && be_nat(a.primitive_bytes()) == a,
        b.primitive_bytes().len() == size_of::<u16>() && be_nat(b.primitive_bytes()) == b,
        c.primitive_bytes().len() == size_of::<u32>() && be_nat(c.primitive_bytes()) == c,
        d.primitive_bytes().len() == size_of::<u64>() && be_nat(d.primitive_bytes()) == d,
        e.primitive_bytes().len() == size_of::<u128>() && be_nat(e.primitive_bytes()) == e,
        f.primitive_bytes().len() == size_of::<usize>() && be_nat(f.primitive_bytes()) == f,
{
    broadcast use vstd::layout::layout_of_primitives;

    lemma2_to64();
    lemma2_to64_rest();
    lemma_pow2_adds(64, 64);
    lemma_be_bytes(a as nat, 1);
    lemma_be_bytes(b as nat, 2);
    lemma_be_bytes(c as nat, 4);
    lemma_be_bytes(d as nat, 8);
    lemma_be_bytes(e as nat, 16);
    lemma_usize_fits(f);
    lemma_be_bytes(f as nat, target_width());
}

/// Each signed number is written as exactly as many bytes as its type has,
/// most significant first: read big-endian as two's complement, they are
/// the number.
pub proof fn lemma_signed_primitives_read_back(a: i8, b: i16, c: i32, d: i64, f: isize)
    ensures
        a.primitive_bytes().len() == size_of::<i8>() && twos_complement(
            be_nat(a.primitive_bytes()),
            size_of::<i8>(),
        ) == a,
        b.primitive_bytes().len() == size_of::<i16>() && twos_complement(
            be_nat(b.primitive_bytes()),
            size_of::<i16>(),
        ) == b,
        c.primitive_bytes().len() == size_of::<i32>() && twos_complement(
            be_nat(c.primitive_bytes()),
            size_of::<i32>(),
        ) == c,
        d.primitive_bytes().len() == size_of::<i64>() && twos_complement(
            be_nat(d.primitive_bytes()),
            size_of::<i64>(),
        ) == d,
        f.primitive_bytes().len() == size_of::<isize>() && twos_complement(
            be_nat(f.primitive_bytes()),
            size_of::<isize>(),
        ) == f,
{
    broadcast use vstd::layout::layout_of_primitives;

    lemma2_to64();
    lemma2_to64_rest();
    lemma_signed_bytes(a as int, 1);
    lemma_signed_bytes(b as int, 2);
    lemma_signed_bytes(c as int, 4);
    lemma_signed_bytes(d as int, 8);
    lemma_isize_fits(f);
    lemma_signed_bytes(f as int, target_width());
}

/// The bits of a float are written as their four or eight bytes, most
/// significant first.
pub proof fn lemma_float_bits_primitives_read_back(a: F32Bits, b: F64Bits)
    ensures
        a.primitive_bytes().len() == 4 && be_nat(a.primitive_bytes()) == a.0,
        b.primitive_bytes().len() == 8 && be_nat(b.primitive_bytes()) == b.0,
{
    lemma2_to64();
    lemma2_to64_rest();
    lemma_be_bytes(a.0 as nat, 4);
    lemma_be_bytes(b.0 as nat, 8);
}

/// A boolean is written as one byte, one for `true` and zero for `false`.
pub proof fn lemma_bool_primitive_reads_back(b: bool)
    ensures
        b.primitive_bytes().len() == 1,
        b.primitive_bytes()[0] <= 1,
        (b.primitive_bytes()[0] == 1) == b,
{
}

/// A byte slice is written as its length, a `usize` of this target read
/// big-endian, then its bytes: whatever follows, a reader of a length reads
/// the slice's length, and the bytes after it are the slice.
pub proof fn lemma_byte_slice_primitive_reads_back(s: &[u8], rest: Seq<u8>)
    requires
        s@.len() <= usize::MAX,
    ensures
        parse_length(PointerWidth::spec_of_target(), s.primitive_bytes() + rest) == Parsed::Done(
            s@.len(),
            size_of::<usize>(),
        ),
        (s.primitive_bytes() + rest).subrange(
            size_of::<usize>() as int,
            (size_of::<usize>() + s@.len()) as int,
        ) == s@,
{
    lemma_length_prefix_reads_back(s@, rest);
}

/// A string slice is written as the length of its UTF-8 bytes, a `usize` of
/// this target read big-endian, then those bytes: whatever follows, a reader
/// of a length reads that length, and the bytes after it are the string's.
pub proof fn lemma_str_primitive_reads_back(s: &str, rest: Seq<u8>)
    requires
        encode_utf8(s@).len() <= usize::MAX,
    ensures
        parse_length(PointerWidth::spec_of_target(), s.primitive_bytes() + rest) == Parsed::Done(
            encode_utf8(s@).len(),
            size_of::<usize>(),
        ),
        (s.primitive_bytes() + rest).subrange(
            size_of::<usize>() as int,
            (size_of::<usize>() + encode_utf8(s@).len()) as int,
        ) == encode_utf8(s@),
{
    lemma_length_prefix_reads_back(encode_utf8(s@), rest);
}

/// Bytes after their length, written as a `usize` of this target, read
/// back as that length and those bytes.
proof fn lemma_length_prefix_reads_back(bytes: Seq<u8>, rest: Seq<u8>)
    requires
        bytes.len() <= usize::MAX,
    ensures
        parse_length(
            PointerWidth::spec_of_target(),
            be_bytes(bytes.len(), target_width()) + bytes + rest,
        ) == Parsed::Done(bytes.len(), size_of::<usize>()),
        (be_bytes(bytes.len(), target_width()) + bytes + rest).subrange(
            size_of::<usize>() as int,
            (size_of::<usize>() + bytes.len()) as int,
        ) == bytes,
{
    broadcast use vstd::layout::layout_of_primitives;

    let w = target_width();
    lemma_usize_fits(bytes.len() as usize);
    lemma_be_bytes(bytes.len(), w);
    let all = be_bytes(bytes.len(), w) + bytes + rest;
    assert(all.take(w as int) =~= be_bytes(bytes.len(), w));
    assert(all.subrange(w as int, (w + bytes.len()) as int) =~= bytes);
}

} // verus!
