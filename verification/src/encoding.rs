use vstd::arithmetic::power2::{lemma2_to64, lemma2_to64_rest, lemma_pow2_adds, lemma_pow2_pos, pow2};
use vstd::prelude::*;

use crate::buffer::{be_nat, twos_complement};
use crate::parse::{parse_length, parse_signed, parse_unsigned, parse_value, Parsed};
use crate::pointer_width::PointerWidth;
use crate::statements::StoresView;
use crate::step_lemmas::{
    lemma_boolean_unfold, lemma_signed_unfold, lemma_unsigned_unfold, signed_model, signed_width,
    unsigned_model, unsigned_width,
};
use crate::text::char_utf8_bytes;
use crate::type_hint::{type_hint_repr, TypeHint};
use crate::values::ValueModel;
use crate::identifiers::{CrateId, WriteStatementId};
use crate::type_hint::lemma_type_hint_repr_roundtrip;
use vstd::utf8::{
    char_u32_cast, decode_first_scalar, decode_utf8, encode_scalar, encode_utf8,
    encode_utf8_decode_utf8, encode_utf8_first_scalar, encode_utf8_valid_utf8,
    length_of_first_scalar, valid_first_scalar, valid_utf8,
};
use crate::parse::pad4;
use crate::step_lemmas::{
    lemma_char_unfold, lemma_dyn_single, lemma_dyn_split, lemma_elems_zero, lemma_fixed_split,
    lemma_fixed_step, lemma_list_unfold, lemma_dyn_list_unfold, lemma_tuple_unfold,
    lemma_string_unfold,
};
use crate::parse::{parse_dyn_elems, parse_fixed_elems, parse_fixed_list, prepend, wrap_list};

verus! {

// ---------------------------------------------------------------------------
// Where bytes go
// ---------------------------------------------------------------------------

/// Where encoded bytes are sent: a serial port, a socket, a buffer.
///
/// Users of the library implement it for their transports. `written` is
/// what the proofs of this library speak of: a verified implementation (such
/// as `BufferDispatcher`) defines it as the bytes it has sent and proves
/// `write`'s `ensures`. An implementation written outside verified code keeps
/// the default, under which `write`'s `ensures` does not hold for non-empty
/// bytes: what the library states of `written` then says nothing of the bytes
/// such a dispatcher sends.
pub trait Dispatcher {
    /// The bytes sent so far, in order.
    open spec fn written(&self) -> Seq<u8> {
        Seq::empty()
    }

    /// Sends the bytes on, after those sent before.
    fn write(&mut self, bytes: &[u8])
        ensures
            final(self).written() == old(self).written() + bytes@,
    ;
}

/// Appends bytes to a vector.
pub fn push_bytes(out: &mut Vec<u8>, bytes: &[u8])
    ensures
        final(out)@ == old(out)@ + bytes@,
{
    let ghost start = out@;
    let mut i: usize = 0;
    while i < bytes.len()
        invariant
            i <= bytes@.len(),
            out@ == start + bytes@.take(i as int),
        decreases bytes@.len() - i,
    {
        out.push(bytes[i]);
        i = i + 1;
        assert(out@ =~= start + bytes@.take(i as int));
    }
    assert(bytes@.take(i as int) =~= bytes@);
}

/// A dispatcher that keeps the bytes it is sent.
pub struct BufferDispatcher {
    pub bytes: Vec<u8>,
}

impl BufferDispatcher {
    /// A dispatcher that has been sent nothing.
    pub fn new() -> (dispatcher: BufferDispatcher)
        ensures
            dispatcher.bytes@ == Seq::<u8>::empty(),
    {
        BufferDispatcher { bytes: Vec::new() }
    }
}

impl Dispatcher for BufferDispatcher {
    open spec fn written(&self) -> Seq<u8> {
        self.bytes@
    }

    fn write(&mut self, bytes: &[u8]) {
        push_bytes(&mut self.bytes, bytes);
    }
}

// ---------------------------------------------------------------------------
// Big-endian numbers
// ---------------------------------------------------------------------------

/// The `width` bytes of `n` in big-endian order (the lowest ones, where `n`
/// needs more).
pub open spec fn be_bytes(n: nat, width: nat) -> Seq<u8>
    decreases width,
{
    if width == 0 {
        Seq::empty()
    } else {
        be_bytes(n / 256, (width - 1) as nat).push((n % 256) as u8)
    }
}

/// A number that fits in `width` bytes reads back from its big-endian bytes.
pub proof fn lemma_be_bytes(n: nat, width: nat)
    requires
        n < pow2(8 * width),
    ensures
        be_bytes(n, width).len() == width,
        be_nat(be_bytes(n, width)) == n,
    decreases width,
{
    if width == 0 {
        lemma2_to64();
        assert(n == 0);
        assert(be_bytes(n, width) =~= Seq::<u8>::empty());
    } else {
        let p = pow2((8 * (width - 1)) as nat);
        lemma_pow2_adds((8 * (width - 1)) as nat, 8);
        lemma2_to64();
        assert(8 * width == 8 * (width - 1) + 8);
        assert(pow2(8 * width) == p * 256);
        lemma_pow2_pos((8 * (width - 1)) as nat);
        assert(n / 256 < p) by (nonlinear_arith)
            requires
                n < p * 256,
                p > 0,
        ;
        lemma_be_bytes(n / 256, (width - 1) as nat);
        let s = be_bytes(n, width);
        assert(s.drop_last() =~= be_bytes(n / 256, (width - 1) as nat));
        assert(s.last() == (n % 256) as u8);
        assert(((n % 256) as u8) as nat == n % 256);
        assert(be_nat(s) == be_nat(s.drop_last()) * 256 + s.last() as nat);
        assert((n / 256) * 256 + n % 256 == n);
    }
}

/// The unsigned number whose `width` bytes are the two's complement of `v`.
pub open spec fn unsigned_of(v: int, width: nat) -> nat {
    if v < 0 {
        (v + pow2(8 * width)) as nat
    } else {
        v as nat
    }
}

/// A number that fits in `width` bytes as two's complement reads back from
/// the bytes of its unsigned form.
pub proof fn lemma_signed_bytes(v: int, width: nat)
    requires
        width > 0,
        -pow2((8 * width - 1) as nat) <= v < pow2((8 * width - 1) as nat),
    ensures
        unsigned_of(v, width) < pow2(8 * width),
        be_bytes(unsigned_of(v, width), width).len() == width,
        twos_complement(be_nat(be_bytes(unsigned_of(v, width), width)), width) == v,
{
    lemma_pow2_adds((8 * width - 1) as nat, 1);
    lemma2_to64();
    assert((8 * width - 1) as nat + 1 == 8 * width);
    lemma_be_bytes(unsigned_of(v, width), width);
}

/// Appends the `width` big-endian bytes of `value`.
pub fn push_unsigned(out: &mut Vec<u8>, value: u128, width: usize)
    requires
        width <= 16,
        value < pow2(8 * width as nat),
    ensures
        final(out)@ == old(out)@ + be_bytes(value as nat, width as nat),
    decreases width,
{
    if width == 0 {
        assert(old(out)@ + Seq::<u8>::empty() =~= old(out)@);
        return ;
    }
    proof {
        lemma_pow2_adds((8 * (width - 1)) as nat, 8);
        lemma2_to64();
        assert(8 * width as nat == 8 * (width - 1) as nat + 8);
        lemma_pow2_pos((8 * (width - 1)) as nat);
        let p = pow2((8 * (width - 1)) as nat);
        assert(value / 256 < p) by (nonlinear_arith)
            requires
                value < p * 256,
                p > 0,
        ;
    }
    push_unsigned(out, value / 256, width - 1);
    out.push((value % 256) as u8);
    proof {
        assert(final(out)@ =~= old(out)@ + be_bytes(value as nat, width as nat)) by {
            assert(be_bytes(value as nat, width as nat) == be_bytes(
                (value / 256) as nat,
                (width - 1) as nat,
            ).push((value % 256) as u8));
        }
    }
}

/// The unsigned form of `value` in `width` bytes, as two's complement.
fn unsigned_bits(value: i128, width: usize) -> (bits: u128)
    requires
        width == 1 || width == 2 || width == 4 || width == 8 || width == 16,
        -pow2((8 * width - 1) as nat) <= value < pow2((8 * width - 1) as nat),
    ensures
        bits == unsigned_of(value as int, width as nat),
{
    proof {
        lemma2_to64();
        lemma2_to64_rest();
        lemma_pow2_adds(64, 64);
        lemma_pow2_adds(63, 64);
    }
    assert(pow2(8) == 0x100);
    assert(pow2(16) == 0x1_0000);
    assert(pow2(32) == 0x1_0000_0000);
    assert(pow2(64) == 0x1_0000_0000_0000_0000);
    assert(pow2(128) == 0x1_0000_0000_0000_0000 * 0x1_0000_0000_0000_0000);
    if value >= 0 {
        value as u128
    } else if width == 1 {
        assert(unsigned_of(value as int, width as nat) == value + 0x100);
        (value + 0x100) as u128
    } else if width == 2 {
        assert(unsigned_of(value as int, width as nat) == value + 0x1_0000);
        (value + 0x1_0000) as u128
    } else if width == 4 {
        assert(unsigned_of(value as int, width as nat) == value + 0x1_0000_0000);
        (value + 0x1_0000_0000) as u128
    } else if width == 8 {
        assert(unsigned_of(value as int, width as nat) == value + 0x1_0000_0000_0000_0000);
        (value + 0x1_0000_0000_0000_0000) as u128
    } else {
        assert(width == 16);
        assert(8 * (width as nat) == 128);
        assert(unsigned_of(value as int, width as nat) == value + pow2(128));
        assert(unsigned_of(value as int, width as nat) == value + 0x1_0000_0000_0000_0000
            * 0x1_0000_0000_0000_0000);
        u128::MAX - ((-(value + 1)) as u128)
    }
}

/// Appends the `width` big-endian bytes of `value` as two's complement.
pub fn push_signed(out: &mut Vec<u8>, value: i128, width: usize)
    requires
        width == 1 || width == 2 || width == 4 || width == 8 || width == 16,
        -pow2((8 * width - 1) as nat) <= value < pow2((8 * width - 1) as nat),
    ensures
        final(out)@ == old(out)@ + be_bytes(unsigned_of(value as int, width as nat), width as nat),
{
    proof {
        lemma_signed_bytes(value as int, width as nat);
    }
    let bits = unsigned_bits(value, width);
    push_unsigned(out, bits, width);
}


// ---------------------------------------------------------------------------
// Values
// ---------------------------------------------------------------------------

/// The width in bytes of `usize` and `isize` on this target.
pub open spec fn target_width() -> nat {
    PointerWidth::spec_of_target().spec_size()
}

/// A `usize` fits in the target's width.
pub proof fn lemma_usize_fits(n: usize)
    ensures
        n < pow2(8 * target_width()),
        target_width() == 4 || target_width() == 8,
{
    lemma2_to64();
    lemma2_to64_rest();
}

/// An `isize` fits in the target's width as two's complement.
pub proof fn lemma_isize_fits(n: isize)
    ensures
        -pow2((8 * target_width() - 1) as nat) <= n < pow2((8 * target_width() - 1) as nat),
        target_width() == 4 || target_width() == 8,
{
    lemma2_to64();
    lemma2_to64_rest();
}

/// Writes the one-byte hint of a value. Generic over the dispatcher, so that
/// verified code can call it with a dispatcher of a known type as well as
/// unverified code with a `&mut dyn Dispatcher`.
pub fn write_type_hint<D: Dispatcher + ?Sized>(type_hint: TypeHint, dispatcher: &mut D)
    ensures
        final(dispatcher).written() == old(dispatcher).written() + seq![type_hint_repr(type_hint)],
{
    let bytes: [u8; 1] = [type_hint.repr()];
    let slice = bytes.as_slice();
    assert(slice@ =~= seq![type_hint_repr(type_hint)]);
    dispatcher.write(slice);
}

/// A value that can be written for a decoder to read back: its one-byte
/// type hint, then its raw bytes.
pub trait WriteValue {
    /// The hint that tells a decoder how to read the raw bytes.
    spec fn spec_hint(&self) -> TypeHint;

    /// The raw bytes of the value, without its hint.
    spec fn raw_bytes(&self) -> Seq<u8>;

    /// What a decoder reads back from the raw bytes, where that does not
    /// depend on what the decoder has registered or on what follows (a write
    /// id's arguments are written apart from it).
    spec fn decoded(&self) -> Option<ValueModel>;

    /// The hint of the value.
    fn hint(&self) -> (hint: TypeHint)
        ensures
            hint == self.spec_hint(),
    ;

    /// Appends the raw bytes of the value.
    fn encode_raw(&self, out: &mut Vec<u8>)
        ensures
            final(out)@ == old(out)@ + self.raw_bytes(),
    ;

    /// Appends the hint, then the raw bytes.
    fn encode_value(&self, out: &mut Vec<u8>)
        ensures
            final(out)@ == old(out)@ + seq![type_hint_repr(self.spec_hint())] + self.raw_bytes(),
    {
        let hint = self.hint();
        out.push(hint.repr());
        self.encode_raw(out);
    }

    /// Sends the raw bytes of the value.
    fn write_raw(&self, dispatcher: &mut dyn Dispatcher)
        ensures
            final(dispatcher).written() == old(dispatcher).written() + self.raw_bytes(),
    {
        let mut bytes: Vec<u8> = Vec::new();
        self.encode_raw(&mut bytes);
        assert(bytes@ =~= self.raw_bytes());
        dispatcher.write(bytes.as_slice());
    }

    /// Sends the hint, then the raw bytes.
    fn write_value(&self, dispatcher: &mut dyn Dispatcher)
        ensures
            final(dispatcher).written() == old(dispatcher).written() + seq![type_hint_repr(
                self.spec_hint(),
            )] + self.raw_bytes(),
    {
        let mut bytes: Vec<u8> = Vec::new();
        self.encode_value(&mut bytes);
        assert(bytes@ =~= seq![type_hint_repr(self.spec_hint())] + self.raw_bytes());
        dispatcher.write(bytes.as_slice());
    }
}

/// A value whose encoding a decoder on this target reads back.
pub trait DecodesBack: WriteValue {
    /// A decoder on this target reads the value back from its raw bytes,
    /// whatever follows them.
    proof fn lemma_decodes(&self, st: StoresView, rest: Seq<u8>)
        ensures
            self.decoded() matches Some(m) ==> parse_value(
                st,
                PointerWidth::spec_of_target(),
                self.spec_hint(),
                self.raw_bytes() + rest,
            ) == Parsed::Done(m, self.raw_bytes().len()),
    ;
}

/// The hint and the raw bytes of a value.
pub open spec fn value_bytes<V: WriteValue + ?Sized>(v: &V) -> Seq<u8> {
    seq![type_hint_repr(v.spec_hint())] + v.raw_bytes()
}

/// An unsigned number of a fixed width reads back from its big-endian bytes.
pub proof fn lemma_unsigned_decodes(st: StoresView, hint: TypeHint, n: nat, rest: Seq<u8>)
    requires
        hint is U8 || hint is U16 || hint is U32 || hint is U64 || hint is U128 || hint is F32
            || hint is F64 || hint is Usize,
        n < pow2(8 * unsigned_width(PointerWidth::spec_of_target(), hint)),
    ensures
        parse_value(
            st,
            PointerWidth::spec_of_target(),
            hint,
            be_bytes(n, unsigned_width(PointerWidth::spec_of_target(), hint)) + rest,
        ) == Parsed::Done(
            unsigned_model(hint, n),
            unsigned_width(PointerWidth::spec_of_target(), hint),
        ),
{
    let pw = PointerWidth::spec_of_target();
    let w = unsigned_width(pw, hint);
    lemma_be_bytes(n, w);
    let s = be_bytes(n, w) + rest;
    lemma_unsigned_unfold(st, pw, hint, s);
    assert(s.take(w as int) =~= be_bytes(n, w));
}

/// A signed number of a fixed width reads back from its big-endian bytes.
pub proof fn lemma_signed_decodes(st: StoresView, hint: TypeHint, v: int, rest: Seq<u8>)
    requires
        hint is I8 || hint is I16 || hint is I32 || hint is I64 || hint is I128 || hint is Isize,
        signed_width(PointerWidth::spec_of_target(), hint) > 0,
        -pow2((8 * signed_width(PointerWidth::spec_of_target(), hint) - 1) as nat) <= v < pow2(
            (8 * signed_width(PointerWidth::spec_of_target(), hint) - 1) as nat,
        ),
    ensures
        parse_value(
            st,
            PointerWidth::spec_of_target(),
            hint,
            be_bytes(
                unsigned_of(v, signed_width(PointerWidth::spec_of_target(), hint)),
                signed_width(PointerWidth::spec_of_target(), hint),
            ) + rest,
        ) == Parsed::Done(signed_model(hint, v), signed_width(PointerWidth::spec_of_target(), hint)),
{
    let pw = PointerWidth::spec_of_target();
    let w = signed_width(pw, hint);
    lemma_signed_bytes(v, w);
    let b = be_bytes(unsigned_of(v, w), w);
    let s = b + rest;
    lemma_signed_unfold(st, pw, hint, s);
    assert(s.take(w as int) =~= b);
}

impl WriteValue for u8 {
    open spec fn spec_hint(&self) -> TypeHint {
        TypeHint::U8
    }

    open spec fn raw_bytes(&self) -> Seq<u8> {
        be_bytes(*self as nat, 1)
    }

    open spec fn decoded(&self) -> Option<ValueModel> {
        Some(ValueModel::U8(*self))
    }

    fn hint(&self) -> (hint: TypeHint) {
        TypeHint::U8
    }

    fn encode_raw(&self, out: &mut Vec<u8>) {
        proof {
            lemma2_to64();
            lemma2_to64_rest();
            lemma_pow2_adds(64, 64);
        }
        push_unsigned(out, *self as u128, 1);
    }
}

impl DecodesBack for u8 {
    proof fn lemma_decodes(&self, st: StoresView, rest: Seq<u8>) {
        lemma2_to64();
        lemma2_to64_rest();
        lemma_pow2_adds(64, 64);
        lemma_unsigned_decodes(st, TypeHint::U8, *self as nat, rest);
        lemma_be_bytes(*self as nat, 1);
    }
}

impl WriteValue for u16 {
    open spec fn spec_hint(&self) -> TypeHint {
        TypeHint::U16
    }

    open spec fn raw_bytes(&self) -> Seq<u8> {
        be_bytes(*self as nat, 2)
    }

    open spec fn decoded(&self) -> Option<ValueModel> {
        Some(ValueModel::U16(*self))
    }

    fn hint(&self) -> (hint: TypeHint) {
        TypeHint::U16
    }

    fn encode_raw(&self, out: &mut Vec<u8>) {
        proof {
            lemma2_to64();
            lemma2_to64_rest();
            lemma_pow2_adds(64, 64);
        }
        push_unsigned(out, *self as u128, 2);
    }
}

impl DecodesBack for u16 {
    proof fn lemma_decodes(&self, st: StoresView, rest: Seq<u8>) {
        lemma2_to64();
        lemma2_to64_rest();
        lemma_pow2_adds(64, 64);
        lemma_unsigned_decodes(st, TypeHint::U16, *self as nat, rest);
        lemma_be_bytes(*self as nat, 2);
    }
}

impl WriteValue for u32 {
    open spec fn spec_hint(&self) -> TypeHint {
        TypeHint::U32
    }

    open spec fn raw_bytes(&self) -> Seq<u8> {
        be_bytes(*self as nat, 4)
    }

    open spec fn decoded(&self) -> Option<ValueModel> {
        Some(ValueModel::U32(*self))
    }

    fn hint(&self) -> (hint: TypeHint) {
        TypeHint::U32
    }

    fn encode_raw(&self, out: &mut Vec<u8>) {
        proof {
            lemma2_to64();
            lemma2_to64_rest();
            lemma_pow2_adds(64, 64);
        }
        push_unsigned(out, *self as u128, 4);
    }
}

impl DecodesBack for u32 {
    proof fn lemma_decodes(&self, st: StoresView, rest: Seq<u8>) {
        lemma2_to64();
        lemma2_to64_rest();
        lemma_pow2_adds(64, 64);
        lemma_unsigned_decodes(st, TypeHint::U32, *self as nat, rest);
        lemma_be_bytes(*self as nat, 4);
    }
}

impl WriteValue for u64 {
    open spec fn spec_hint(&self) -> TypeHint {
        TypeHint::U64
    }

    open spec fn raw_bytes(&self) -> Seq<u8> {
        be_bytes(*self as nat, 8)
    }

    open spec fn decoded(&self) -> Option<ValueModel> {
        Some(ValueModel::U64(*self))
    }

    fn hint(&self) -> (hint: TypeHint) {
        TypeHint::U64
    }

    fn encode_raw(&self, out: &mut Vec<u8>) {
        proof {
            lemma2_to64();
            lemma2_to64_rest();
            lemma_pow2_adds(64, 64);
        }
        push_unsigned(out, *self as u128, 8);
    }
}

impl DecodesBack for u64 {
    proof fn lemma_decodes(&self, st: StoresView, rest: Seq<u8>) {
        lemma2_to64();
        lemma2_to64_rest();
        lemma_pow2_adds(64, 64);
        lemma_unsigned_decodes(st, TypeHint::U64, *self as nat, rest);
        lemma_be_bytes(*self as nat, 8);
    }
}

impl WriteValue for u128 {
    open spec fn spec_hint(&self) -> TypeHint {
        TypeHint::U128
    }

    open spec fn raw_bytes(&self) -> Seq<u8> {
        be_bytes(*self as nat, 16)
    }

    open spec fn decoded(&self) -> Option<ValueModel> {
        Some(ValueModel::U128(*self))
    }

    fn hint(&self) -> (hint: TypeHint) {
        TypeHint::U128
    }

    fn encode_raw(&self, out: &mut Vec<u8>) {
        proof {
            lemma2_to64();
            lemma2_to64_rest();
            lemma_pow2_adds(64, 64);
        }
        push_unsigned(out, *self as u128, 16);
    }
}

impl DecodesBack for u128 {
    proof fn lemma_decodes(&self, st: StoresView, rest: Seq<u8>) {
        lemma2_to64();
        lemma2_to64_rest();
        lemma_pow2_adds(64, 64);
        lemma_unsigned_decodes(st, TypeHint::U128, *self as nat, rest);
        lemma_be_bytes(*self as nat, 16);
    }
}

impl WriteValue for i8 {
    open spec fn spec_hint(&self) -> TypeHint {
        TypeHint::I8
    }

    open spec fn raw_bytes(&self) -> Seq<u8> {
        be_bytes(unsigned_of(*self as int, 1), 1)
    }

    open spec fn decoded(&self) -> Option<ValueModel> {
        Some(ValueModel::I8(*self))
    }

    fn hint(&self) -> (hint: TypeHint) {
        TypeHint::I8
    }

    fn encode_raw(&self, out: &mut Vec<u8>) {
        proof {
            lemma2_to64();
            lemma2_to64_rest();
            lemma_pow2_adds(63, 64);
        }
        push_signed(out, *self as i128, 1);
    }
}

impl DecodesBack for i8 {
    proof fn lemma_decodes(&self, st: StoresView, rest: Seq<u8>) {
        lemma2_to64();
        lemma2_to64_rest();
        lemma_pow2_adds(63, 64);
        lemma_signed_decodes(st, TypeHint::I8, *self as int, rest);
        lemma_signed_bytes(*self as int, 1);
    }
}

impl WriteValue for i16 {
    open spec fn spec_hint(&self) -> TypeHint {
        TypeHint::I16
    }

    open spec fn raw_bytes(&self) -> Seq<u8> {
        be_bytes(unsigned_of(*self as int, 2), 2)
    }

    open spec fn decoded(&self) -> Option<ValueModel> {
        Some(ValueModel::I16(*self))
    }

    fn hint(&self) -> (hint: TypeHint) {
        TypeHint::I16
    }

    fn encode_raw(&self, out: &mut Vec<u8>) {
        proof {
            lemma2_to64();
            lemma2_to64_rest();
            lemma_pow2_adds(63, 64);
        }
        push_signed(out, *self as i128, 2);
    }
}

impl DecodesBack for i16 {
    proof fn lemma_decodes(&self, st: StoresView, rest: Seq<u8>) {
        lemma2_to64();
        lemma2_to64_rest();
        lemma_pow2_adds(63, 64);
        lemma_signed_decodes(st, TypeHint::I16, *self as int, rest);
        lemma_signed_bytes(*self as int, 2);
    }
}

impl WriteValue for i32 {
    open spec fn spec_hint(&self) -> TypeHint {
        TypeHint::I32
    }

    open spec fn raw_bytes(&self) -> Seq<u8> {
        be_bytes(unsigned_of(*self as int, 4), 4)
    }

    open spec fn decoded(&self) -> Option<ValueModel> {
        Some(ValueModel::I32(*self))
    }

    fn hint(&self) -> (hint: TypeHint) {
        TypeHint::I32
    }

    fn encode_raw(&self, out: &mut Vec<u8>) {
        proof {
            lemma2_to64();
            lemma2_to64_rest();
            lemma_pow2_adds(63, 64);
        }
        push_signed(out, *self as i128, 4);
    }
}

impl DecodesBack for i32 {
    proof fn lemma_decodes(&self, st: StoresView, rest: Seq<u8>) {
        lemma2_to64();
        lemma2_to64_rest();
        lemma_pow2_adds(63, 64);
        lemma_signed_decodes(st, TypeHint::I32, *self as int, rest);
        lemma_signed_bytes(*self as int, 4);
    }
}

impl WriteValue for i64 {
    open spec fn spec_hint(&self) -> TypeHint {
        TypeHint::I64
    }

    open spec fn raw_bytes(&self) -> Seq<u8> {
        be_bytes(unsigned_of(*self as int, 8), 8)
    }

    open spec fn decoded(&self) -> Option<ValueModel> {
        Some(ValueModel::I64(*self))
    }

    fn hint(&self) -> (hint: TypeHint) {
        TypeHint::I64
    }

    fn encode_raw(&self, out: &mut Vec<u8>) {
        proof {
            lemma2_to64();
            lemma2_to64_rest();
            lemma_pow2_adds(63, 64);
        }
        push_signed(out, *self as i128, 8);
    }
}

impl DecodesBack for i64 {
    proof fn lemma_decodes(&self, st: StoresView, rest: Seq<u8>) {
        lemma2_to64();
        lemma2_to64_rest();
        lemma_pow2_adds(63, 64);
        lemma_signed_decodes(st, TypeHint::I64, *self as int, rest);
        lemma_signed_bytes(*self as int, 8);
    }
}

impl WriteValue for i128 {
    open spec fn spec_hint(&self) -> TypeHint {
        TypeHint::I128
    }

    open spec fn raw_bytes(&self) -> Seq<u8> {
        be_bytes(unsigned_of(*self as int, 16), 16)
    }

    open spec fn decoded(&self) -> Option<ValueModel> {
        Some(ValueModel::I128(*self))
    }

    fn hint(&self) -> (hint: TypeHint) {
        TypeHint::I128
    }

    fn encode_raw(&self, out: &mut Vec<u8>) {
        proof {
            lemma2_to64();
            lemma2_to64_rest();
            lemma_pow2_adds(63, 64);
        }
        push_signed(out, *self as i128, 16);
    }
}

impl DecodesBack for i128 {
    proof fn lemma_decodes(&self, st: StoresView, rest: Seq<u8>) {
        lemma2_to64();
        lemma2_to64_rest();
        lemma_pow2_adds(63, 64);
        lemma_signed_decodes(st, TypeHint::I128, *self as int, rest);
        lemma_signed_bytes(*self as int, 16);
    }
}

impl WriteValue for usize {
    open spec fn spec_hint(&self) -> TypeHint {
        TypeHint::Usize
    }

    open spec fn raw_bytes(&self) -> Seq<u8> {
        be_bytes(*self as nat, target_width())
    }

    open spec fn decoded(&self) -> Option<ValueModel> {
        Some(ValueModel::Usize(*self as u64))
    }

    fn hint(&self) -> (hint: TypeHint) {
        TypeHint::Usize
    }

    fn encode_raw(&self, out: &mut Vec<u8>) {
        proof {
            lemma_usize_fits(*self);
        }
        let width = PointerWidth::of_target().size();
        push_unsigned(out, *self as u128, width);
    }
}

impl DecodesBack for usize {
    proof fn lemma_decodes(&self, st: StoresView, rest: Seq<u8>) {
        lemma_usize_fits(*self);
        lemma_unsigned_decodes(st, TypeHint::Usize, *self as nat, rest);
        lemma_be_bytes(*self as nat, target_width());
    }
}

impl WriteValue for isize {
    open spec fn spec_hint(&self) -> TypeHint {
        TypeHint::Isize
    }

    open spec fn raw_bytes(&self) -> Seq<u8> {
        be_bytes(unsigned_of(*self as int, target_width()), target_width())
    }

    open spec fn decoded(&self) -> Option<ValueModel> {
        Some(ValueModel::Isize(*self as i64))
    }

    fn hint(&self) -> (hint: TypeHint) {
        TypeHint::Isize
    }

    fn encode_raw(&self, out: &mut Vec<u8>) {
        proof {
            lemma_isize_fits(*self);
        }
        let width = PointerWidth::of_target().size();
        push_signed(out, *self as i128, width);
    }
}

impl DecodesBack for isize {
    proof fn lemma_decodes(&self, st: StoresView, rest: Seq<u8>) {
        lemma_isize_fits(*self);
        lemma_signed_decodes(st, TypeHint::Isize, *self as int, rest);
        lemma_signed_bytes(*self as int, target_width());
    }
}

impl WriteValue for bool {
    open spec fn spec_hint(&self) -> TypeHint {
        TypeHint::Boolean
    }

    open spec fn raw_bytes(&self) -> Seq<u8> {
        seq![if *self { 1u8 } else { 0u8 }]
    }

    open spec fn decoded(&self) -> Option<ValueModel> {
        Some(ValueModel::Boolean(*self))
    }

    fn hint(&self) -> (hint: TypeHint) {
        TypeHint::Boolean
    }

    fn encode_raw(&self, out: &mut Vec<u8>) {
        let byte: u8 = if *self {
            1
        } else {
            0
        };
        out.push(byte);
    }
}

impl DecodesBack for bool {
    proof fn lemma_decodes(&self, st: StoresView, rest: Seq<u8>) {
        lemma_boolean_unfold(st, PointerWidth::spec_of_target(), self.raw_bytes() + rest);
    }
}

/// The UTF-8 bytes of a character.
pub open spec fn char_bytes(c: char) -> Seq<u8> {
    encode_utf8(seq![c])
}

/// A character takes one to four UTF-8 bytes, which, padded with zeros to
/// four, read back as the character.
pub proof fn lemma_char_bytes(c: char)
    ensures
        1 <= char_bytes(c).len() <= 4,
        valid_first_scalar(pad4(char_bytes(c))),
        decode_first_scalar(pad4(char_bytes(c))) == c as u32,
{
    let cs = seq![c];
    assert(cs.drop_first() =~= Seq::<char>::empty());
    assert(encode_utf8(cs.drop_first()) =~= Seq::<u8>::empty());
    assert(char_bytes(c) =~= encode_scalar(c as u32));
    encode_utf8_first_scalar(cs);
    let e = char_bytes(c);
    let p = pad4(e);
    assert(p.len() == 4);
    assert(p[0] == e[0]);
    if e.len() >= 2 {
        assert(p[1] == e[1]);
    }
    if e.len() >= 3 {
        assert(p[2] == e[2]);
    }
    if e.len() >= 4 {
        assert(p[3] == e[3]);
    }
}

impl WriteValue for char {
    open spec fn spec_hint(&self) -> TypeHint {
        TypeHint::Char
    }

    open spec fn raw_bytes(&self) -> Seq<u8> {
        seq![char_bytes(*self).len() as u8] + char_bytes(*self)
    }

    open spec fn decoded(&self) -> Option<ValueModel> {
        Some(ValueModel::Char(*self))
    }

    fn hint(&self) -> (hint: TypeHint) {
        TypeHint::Char
    }

    fn encode_raw(&self, out: &mut Vec<u8>) {
        let bytes = char_utf8_bytes(*self);
        proof {
            lemma_char_bytes(*self);
        }
        out.push(bytes.len() as u8);
        push_bytes(out, bytes.as_slice());
    }
}

impl DecodesBack for char {
    proof fn lemma_decodes(&self, st: StoresView, rest: Seq<u8>) {
        lemma_char_bytes(*self);
        let e = char_bytes(*self);
        let s = self.raw_bytes() + rest;
        lemma_char_unfold(st, PointerWidth::spec_of_target(), s);
        assert(s[0] == e.len());
        assert(s.subrange(1, 1 + s[0] as int) =~= e);
        char_u32_cast(*self, *self as u32);
    }
}

impl<'a> WriteValue for &'a str {
    open spec fn spec_hint(&self) -> TypeHint {
        TypeHint::StringSlice
    }

    open spec fn raw_bytes(&self) -> Seq<u8> {
        be_bytes(encode_utf8(self@).len(), target_width()) + encode_utf8(self@)
    }

    open spec fn decoded(&self) -> Option<ValueModel> {
        if encode_utf8(self@).len() <= usize::MAX {
            Some(ValueModel::String(self@))
        } else {
            None
        }
    }

    fn hint(&self) -> (hint: TypeHint) {
        TypeHint::StringSlice
    }

    fn encode_raw(&self, out: &mut Vec<u8>) {
        let bytes = self.as_bytes();
        let length = bytes.len();
        proof {
            lemma_usize_fits(length);
        }
        let width = PointerWidth::of_target().size();
        push_unsigned(out, length as u128, width);
        push_bytes(out, bytes);
    }
}

impl<'a> DecodesBack for &'a str {
    proof fn lemma_decodes(&self, st: StoresView, rest: Seq<u8>) {
        let e = encode_utf8(self@);
        if e.len() <= usize::MAX {
            let w = target_width();
            lemma_usize_fits(e.len() as usize);
            lemma_be_bytes(e.len(), w);
            let s = self.raw_bytes() + rest;
            lemma_string_unfold(st, PointerWidth::spec_of_target(), s);
            assert(s.take(w as int) =~= be_bytes(e.len(), w));
            assert(s.subrange(w as int, (w + e.len()) as int) =~= e);
            encode_utf8_valid_utf8(self@);
            encode_utf8_decode_utf8(self@);
        }
    }
}

/// An `f32` given by its IEEE 754 bits.
pub struct F32Bits(pub u32);

/// An `f64` given by its IEEE 754 bits.
pub struct F64Bits(pub u64);

impl WriteValue for F32Bits {
    open spec fn spec_hint(&self) -> TypeHint {
        TypeHint::F32
    }

    open spec fn raw_bytes(&self) -> Seq<u8> {
        be_bytes(self.0 as nat, 4)
    }

    open spec fn decoded(&self) -> Option<ValueModel> {
        Some(ValueModel::F32(self.0))
    }

    fn hint(&self) -> (hint: TypeHint) {
        TypeHint::F32
    }

    fn encode_raw(&self, out: &mut Vec<u8>) {
        proof {
            lemma2_to64();
        }
        push_unsigned(out, self.0 as u128, 4);
    }
}

impl DecodesBack for F32Bits {
    proof fn lemma_decodes(&self, st: StoresView, rest: Seq<u8>) {
        lemma2_to64();
        lemma_unsigned_decodes(st, TypeHint::F32, self.0 as nat, rest);
        lemma_be_bytes(self.0 as nat, 4);
    }
}

impl WriteValue for F64Bits {
    open spec fn spec_hint(&self) -> TypeHint {
        TypeHint::F64
    }

    open spec fn raw_bytes(&self) -> Seq<u8> {
        be_bytes(self.0 as nat, 8)
    }

    open spec fn decoded(&self) -> Option<ValueModel> {
        Some(ValueModel::F64(self.0))
    }

    fn hint(&self) -> (hint: TypeHint) {
        TypeHint::F64
    }

    fn encode_raw(&self, out: &mut Vec<u8>) {
        proof {
            lemma2_to64();
            lemma2_to64_rest();
        }
        push_unsigned(out, self.0 as u128, 8);
    }
}

impl DecodesBack for F64Bits {
    proof fn lemma_decodes(&self, st: StoresView, rest: Seq<u8>) {
        lemma2_to64();
        lemma2_to64_rest();
        lemma_unsigned_decodes(st, TypeHint::F64, self.0 as nat, rest);
        lemma_be_bytes(self.0 as nat, 8);
    }
}

impl<T: WriteValue> WriteValue for &T {
    open spec fn spec_hint(&self) -> TypeHint {
        (**self).spec_hint()
    }

    open spec fn raw_bytes(&self) -> Seq<u8> {
        (**self).raw_bytes()
    }

    open spec fn decoded(&self) -> Option<ValueModel> {
        (**self).decoded()
    }

    fn hint(&self) -> (hint: TypeHint) {
        (**self).hint()
    }

    fn encode_raw(&self, out: &mut Vec<u8>) {
        (**self).encode_raw(out)
    }
}

impl<T: DecodesBack> DecodesBack for &T {
    proof fn lemma_decodes(&self, st: StoresView, rest: Seq<u8>) {
        (**self).lemma_decodes(st, rest)
    }
}

/// The raw bytes of values one after the other.
pub open spec fn elems_bytes<T: WriteValue>(s: Seq<T>) -> Seq<u8>
    decreases s.len(),
{
    if s.len() == 0 {
        Seq::empty()
    } else {
        elems_bytes(s.drop_last()) + s.last().raw_bytes()
    }
}

/// What a decoder reads back from each of the values, if it reads each back.
pub open spec fn all_decoded<T: WriteValue>(s: Seq<T>) -> Option<Seq<ValueModel>>
    decreases s.len(),
{
    if s.len() == 0 {
        Some(Seq::empty())
    } else {
        match (all_decoded(s.drop_last()), s.last().decoded()) {
            (Some(vs), Some(v)) => Some(vs.push(v)),
            _ => None,
        }
    }
}

/// Every value has the hint `h`.
pub open spec fn uniform_hints<T: WriteValue>(s: Seq<T>, h: TypeHint) -> bool {
    forall|i: int| 0 <= i < s.len() ==> #[trigger] s[i].spec_hint() == h
}

/// The raw bytes of a list of values of one type: its length, the hint of
/// the values where there is one, then their raw bytes.
pub open spec fn list_bytes<T: WriteValue>(s: Seq<T>) -> Seq<u8> {
    be_bytes(s.len(), target_width()) + (if s.len() == 0 {
        Seq::empty()
    } else {
        seq![type_hint_repr(s[0].spec_hint())]
    }) + elems_bytes(s)
}

/// What a decoder reads back from a list of values of one type: the list,
/// where the values share one hint and each reads back.
pub open spec fn list_decoded<T: WriteValue>(s: Seq<T>) -> Option<ValueModel> {
    if s.len() <= usize::MAX && (s.len() == 0 || uniform_hints(s, s[0].spec_hint())) {
        match all_decoded(s) {
            Some(vs) => Some(ValueModel::List(vs)),
            None => None,
        }
    } else {
        None
    }
}

/// Values of one hint read back from their raw bytes one after the other.
pub proof fn lemma_fixed_elems_bytes<T: DecodesBack>(
    st: StoresView,
    s: Seq<T>,
    h: TypeHint,
    rest: Seq<u8>,
)
    requires
        uniform_hints(s, h),
        all_decoded(s) is Some,
    ensures
        parse_fixed_elems(st, PointerWidth::spec_of_target(), h, s.len(), elems_bytes(s) + rest)
            == Parsed::Done(all_decoded(s)->Some_0, elems_bytes(s).len()),
    decreases s.len(),
{
    let pw = PointerWidth::spec_of_target();
    if s.len() == 0 {
        lemma_elems_zero(st, pw, h, rest);
        assert(elems_bytes(s) + rest =~= rest);
    } else {
        let init = s.drop_last();
        let last = s.last();
        assert(uniform_hints(init, h)) by {
            assert forall|i: int| 0 <= i < init.len() implies #[trigger] init[i].spec_hint() == h by {
                assert(init[i] == s[i]);
            }
        }
        assert(last.spec_hint() == h) by {
            assert(s[s.len() - 1] == last);
        }
        lemma_fixed_elems_bytes(st, init, h, Seq::empty());
        let d = elems_bytes(init);
        assert(d + Seq::<u8>::empty() =~= d);
        let raw = last.raw_bytes();
        let x = raw + rest;
        let vs = all_decoded(init)->Some_0;
        let v = last.decoded()->Some_0;
        lemma_fixed_split(st, pw, h, s.len(), init.len(), d, x, vs);
        last.lemma_decodes(st, rest);
        lemma_fixed_step(st, pw, 1, h, x);
        assert(x.skip(raw.len() as int) =~= rest);
        lemma_elems_zero(st, pw, h, rest);
        assert(elems_bytes(s) + rest =~= d + x);
        assert(vs + (seq![v] + Seq::<ValueModel>::empty()) =~= vs.push(v));
    }
}

/// A list of values of one type read back from its raw bytes.
pub proof fn lemma_list_decodes<T: DecodesBack>(st: StoresView, s: Seq<T>, rest: Seq<u8>)
    ensures
        list_decoded(s) matches Some(m) ==> parse_value(
            st,
            PointerWidth::spec_of_target(),
            TypeHint::List,
            list_bytes(s) + rest,
        ) == Parsed::Done(m, list_bytes(s).len()),
{
    if let Some(m) = list_decoded(s) {
        let pw = PointerWidth::spec_of_target();
        let n = s.len();
        let w = target_width();
        lemma_usize_fits(n as usize);
        lemma_be_bytes(n, w);
        let bytes = list_bytes(s) + rest;
        lemma_list_unfold(st, pw, bytes);
        assert(bytes.take(w as int) =~= be_bytes(n, w));
        let tail = bytes.skip(w as int);
        if n == 0 {
            assert(elems_bytes(s) =~= Seq::<u8>::empty());
            assert(all_decoded(s) == Some(Seq::<ValueModel>::empty()));
        } else {
            let h = s[0].spec_hint();
            assert(tail[0] == type_hint_repr(h));
            lemma_type_hint_repr_roundtrip(h, type_hint_repr(h));
            assert(tail.skip(1) =~= elems_bytes(s) + rest);
            lemma_fixed_elems_bytes(st, s, h, rest);
            let vs = all_decoded(s)->Some_0;
            assert(Seq::<ValueModel>::empty() + vs =~= vs);
        }
    }
}

/// Appends the raw bytes of a list of values of one type.
fn encode_list<T: WriteValue>(values: &[T], out: &mut Vec<u8>)
    ensures
        final(out)@ == old(out)@ + list_bytes(values@),
{
    let length = values.len();
    proof {
        lemma_usize_fits(length);
    }
    let width = PointerWidth::of_target().size();
    push_unsigned(out, length as u128, width);
    if length > 0 {
        let hint = values[0].hint();
        out.push(hint.repr());
    }
    let ghost start = out@;
    let mut i: usize = 0;
    while i < length
        invariant
            length == values@.len(),
            i <= length,
            out@ == start + elems_bytes(values@.take(i as int)),
        decreases length - i,
    {
        values[i].encode_raw(out);
        proof {
            assert(values@.take(i + 1).drop_last() =~= values@.take(i as int));
            assert(values@.take(i + 1).last() == values@[i as int]);
        }
        i = i + 1;
    }
    proof {
        assert(values@.take(length as int) =~= values@);
    }
}

impl<'a, T: WriteValue> WriteValue for &'a [T] {
    open spec fn spec_hint(&self) -> TypeHint {
        TypeHint::List
    }

    open spec fn raw_bytes(&self) -> Seq<u8> {
        list_bytes(self@)
    }

    open spec fn decoded(&self) -> Option<ValueModel> {
        list_decoded(self@)
    }

    fn hint(&self) -> (hint: TypeHint) {
        TypeHint::List
    }

    fn encode_raw(&self, out: &mut Vec<u8>) {
        encode_list(*self, out);
    }
}

impl<'a, T: DecodesBack> DecodesBack for &'a [T] {
    proof fn lemma_decodes(&self, st: StoresView, rest: Seq<u8>) {
        lemma_list_decodes(st, self@, rest);
    }
}

impl<T: WriteValue> WriteValue for Vec<T> {
    open spec fn spec_hint(&self) -> TypeHint {
        TypeHint::List
    }

    open spec fn raw_bytes(&self) -> Seq<u8> {
        list_bytes(self@)
    }

    open spec fn decoded(&self) -> Option<ValueModel> {
        list_decoded(self@)
    }

    fn hint(&self) -> (hint: TypeHint) {
        TypeHint::List
    }

    fn encode_raw(&self, out: &mut Vec<u8>) {
        encode_list(self.as_slice(), out);
    }
}

impl<T: DecodesBack> DecodesBack for Vec<T> {
    proof fn lemma_decodes(&self, st: StoresView, rest: Seq<u8>) {
        lemma_list_decodes(st, self@, rest);
    }
}

impl<T: WriteValue, const N: usize> WriteValue for [T; N] {
    open spec fn spec_hint(&self) -> TypeHint {
        TypeHint::List
    }

    open spec fn raw_bytes(&self) -> Seq<u8> {
        list_bytes(self@)
    }

    open spec fn decoded(&self) -> Option<ValueModel> {
        list_decoded(self@)
    }

    fn hint(&self) -> (hint: TypeHint) {
        TypeHint::List
    }

    fn encode_raw(&self, out: &mut Vec<u8>) {
        encode_list(self.as_slice(), out);
    }
}

impl<T: DecodesBack, const N: usize> DecodesBack for [T; N] {
    proof fn lemma_decodes(&self, st: StoresView, rest: Seq<u8>) {
        lemma_list_decodes(st, self@, rest);
    }
}

/// A value reduced to what its encoding is made of: its hint, its raw bytes
/// and what a decoder reads back from them.
pub type ValueItem = (TypeHint, Seq<u8>, ValueModel);

/// Values each written with its hint, one after the other.
pub open spec fn items_bytes(items: Seq<ValueItem>) -> Seq<u8>
    decreases items.len(),
{
    if items.len() == 0 {
        Seq::empty()
    } else {
        items_bytes(items.drop_last()) + seq![type_hint_repr(items.last().0)] + items.last().1
    }
}

/// Each value reads back from exactly its raw bytes.
pub open spec fn items_decode(st: StoresView, items: Seq<ValueItem>) -> bool {
    forall|i: int|
        0 <= i < items.len() ==> #[trigger] parse_value(
            st,
            PointerWidth::spec_of_target(),
            items[i].0,
            items[i].1,
        ) == Parsed::Done(items[i].2, items[i].1.len())
}

/// What a decoder reads back from the values.
pub open spec fn items_models(items: Seq<ValueItem>) -> Seq<ValueModel> {
    Seq::new(items.len(), |i: int| items[i].2)
}

/// Values each written with its hint read back one after the other.
pub proof fn lemma_items_decode(st: StoresView, items: Seq<ValueItem>, rest: Seq<u8>)
    requires
        items_decode(st, items),
    ensures
        parse_dyn_elems(
            st,
            PointerWidth::spec_of_target(),
            items.len(),
            items_bytes(items) + rest,
        ) == Parsed::Done(items_models(items), items_bytes(items).len()),
    decreases items.len(),
{
    let pw = PointerWidth::spec_of_target();
    if items.len() == 0 {
        lemma_elems_zero(st, pw, TypeHint::Boolean, rest);
        assert(items_bytes(items) + rest =~= rest);
        assert(items_models(items) =~= Seq::<ValueModel>::empty());
    } else {
        let init = items.drop_last();
        let last = items.last();
        assert(items_decode(st, init)) by {
            assert forall|i: int| 0 <= i < init.len() implies #[trigger] parse_value(
                st,
                pw,
                init[i].0,
                init[i].1,
            ) == Parsed::Done(init[i].2, init[i].1.len()) by {
                assert(init[i] == items[i]);
            }
        }
        assert(parse_value(st, pw, last.0, last.1) == Parsed::Done(last.2, last.1.len())) by {
            assert(items[items.len() - 1] == last);
        }
        lemma_items_decode(st, init, Seq::empty());
        let d = items_bytes(init);
        assert(d + Seq::<u8>::empty() =~= d);
        let e = seq![type_hint_repr(last.0)] + last.1;
        lemma_dyn_single(st, pw, last.0, last.1, last.2);
        lemma_dyn_split(st, pw, items.len(), init.len(), d, e + rest, items_models(init));
        crate::parse_lemmas::lemma_dyn_extend(st, pw, 1, e, rest);
        assert(items_bytes(items) + rest =~= d + (e + rest));
        assert(items_models(init) + seq![last.2] =~= items_models(items));
    }
}

/// The encodings of values of different types, one after the other.
pub open spec fn value_items(s: Seq<&dyn WriteValue>) -> Seq<ValueItem> {
    Seq::new(s.len(), |i: int| (s[i].spec_hint(), s[i].raw_bytes(), s[i].decoded()->Some_0))
}

/// What a decoder reads back from each of the values of different types, if
/// it reads each back.
pub open spec fn all_dyn_decoded(s: Seq<&dyn WriteValue>) -> bool {
    forall|i: int| 0 <= i < s.len() ==> (#[trigger] s[i].decoded()) is Some
}

/// The raw bytes of a list of values of different types: its length, then
/// each value with its own hint.
pub open spec fn dyn_list_bytes(s: Seq<&dyn WriteValue>) -> Seq<u8> {
    be_bytes(s.len(), target_width()) + items_bytes(value_items(s))
}

/// What a decoder reads back from a list of values of different types: the
/// list, where each value reads back.
pub open spec fn dyn_list_decoded(s: Seq<&dyn WriteValue>) -> Option<ValueModel> {
    if s.len() <= usize::MAX && all_dyn_decoded(s) {
        Some(ValueModel::List(items_models(value_items(s))))
    } else {
        None
    }
}

/// Appends the raw bytes of a list of values of different types.
pub fn encode_dyn_list(values: &[&dyn WriteValue], out: &mut Vec<u8>)
    ensures
        final(out)@ == old(out)@ + dyn_list_bytes(values@),
{
    let length = values.len();
    proof {
        lemma_usize_fits(length);
    }
    let ghost begin = out@;
    let width = PointerWidth::of_target().size();
    push_unsigned(out, length as u128, width);
    let ghost start = out@;
    let mut i: usize = 0;
    while i < length
        invariant
            length == values@.len(),
            i <= length,
            out@ == start + items_bytes(value_items(values@.take(i as int))),
        decreases length - i,
    {
        let ghost before = out@;
        let value = values[i];
        value.encode_value(out);
        proof {
            let s = values@.take(i + 1);
            assert(out@ == before + seq![type_hint_repr(value.spec_hint())] + value.raw_bytes());
            assert(value_items(s).drop_last() =~= value_items(values@.take(i as int)));
            assert(value_items(s).last().0 == value.spec_hint());
            assert(value_items(s).last().1 == value.raw_bytes());
            assert(out@ =~= start + items_bytes(value_items(s)));
        }
        i = i + 1;
    }
    proof {
        assert(values@.take(length as int) =~= values@);
        assert(out@ =~= begin + dyn_list_bytes(values@));
    }
}

/// Where each value reads back from exactly its raw bytes, a decoder on this
/// target reads a list of values of different types back from its raw bytes,
/// whatever follows.
pub proof fn lemma_dyn_list_decodes(st: StoresView, s: Seq<&dyn WriteValue>, rest: Seq<u8>)
    requires
        items_decode(st, value_items(s)),
    ensures
        dyn_list_decoded(s) matches Some(m) ==> parse_value(
            st,
            PointerWidth::spec_of_target(),
            TypeHint::DynList,
            dyn_list_bytes(s) + rest,
        ) == Parsed::Done(m, dyn_list_bytes(s).len()),
{
    if let Some(m) = dyn_list_decoded(s) {
        let items = value_items(s);
        let pw = PointerWidth::spec_of_target();
        let n = s.len();
        let w = target_width();
        lemma_usize_fits(n as usize);
        lemma_be_bytes(n, w);
        let bytes = dyn_list_bytes(s) + rest;
        lemma_dyn_list_unfold(st, pw, bytes);
        assert(bytes.take(w as int) =~= be_bytes(n, w));
        assert(bytes.skip(w as int) =~= items_bytes(items) + rest);
        lemma_items_decode(st, items, rest);
    }
}

impl<'a, 'b> WriteValue for &'a [&'b dyn WriteValue] {
    open spec fn spec_hint(&self) -> TypeHint {
        TypeHint::DynList
    }

    open spec fn raw_bytes(&self) -> Seq<u8> {
        dyn_list_bytes(self@)
    }

    open spec fn decoded(&self) -> Option<ValueModel> {
        dyn_list_decoded(self@)
    }

    fn hint(&self) -> (hint: TypeHint) {
        TypeHint::DynList
    }

    fn encode_raw(&self, out: &mut Vec<u8>) {
        encode_dyn_list(*self, out);
    }
}

impl<'b, const N: usize> WriteValue for [&'b dyn WriteValue; N] {
    open spec fn spec_hint(&self) -> TypeHint {
        TypeHint::DynList
    }

    open spec fn raw_bytes(&self) -> Seq<u8> {
        dyn_list_bytes(self@)
    }

    open spec fn decoded(&self) -> Option<ValueModel> {
        dyn_list_decoded(self@)
    }

    fn hint(&self) -> (hint: TypeHint) {
        TypeHint::DynList
    }

    fn encode_raw(&self, out: &mut Vec<u8>) {
        encode_dyn_list(self.as_slice(), out);
    }
}

impl<'b> WriteValue for Vec<&'b dyn WriteValue> {
    open spec fn spec_hint(&self) -> TypeHint {
        TypeHint::DynList
    }

    open spec fn raw_bytes(&self) -> Seq<u8> {
        dyn_list_bytes(self@)
    }

    open spec fn decoded(&self) -> Option<ValueModel> {
        dyn_list_decoded(self@)
    }

    fn hint(&self) -> (hint: TypeHint) {
        TypeHint::DynList
    }

    fn encode_raw(&self, out: &mut Vec<u8>) {
        encode_dyn_list(self.as_slice(), out);
    }
}

/// An element of a tuple: a value of a type that can be written, or a value
/// of any such type behind `&dyn`.
pub trait TupleElement {
    /// The hint of the element.
    spec fn element_hint(&self) -> TypeHint;

    /// The raw bytes of the element.
    spec fn element_raw_bytes(&self) -> Seq<u8>;

    /// What a decoder reads back from the raw bytes.
    spec fn element_decoded(&self) -> Option<ValueModel>;

    /// Appends the hint, then the raw bytes.
    fn encode_element(&self, out: &mut Vec<u8>)
        ensures
            final(out)@ == old(out)@ + seq![type_hint_repr(self.element_hint())]
                + self.element_raw_bytes(),
    ;
}

impl<T: WriteValue> TupleElement for T {
    open spec fn element_hint(&self) -> TypeHint {
        self.spec_hint()
    }

    open spec fn element_raw_bytes(&self) -> Seq<u8> {
        self.raw_bytes()
    }

    open spec fn element_decoded(&self) -> Option<ValueModel> {
        self.decoded()
    }

    fn encode_element(&self, out: &mut Vec<u8>) {
        self.encode_value(out)
    }
}

impl<'a> TupleElement for &'a dyn WriteValue {
    open spec fn element_hint(&self) -> TypeHint {
        (**self).spec_hint()
    }

    open spec fn element_raw_bytes(&self) -> Seq<u8> {
        (**self).raw_bytes()
    }

    open spec fn element_decoded(&self) -> Option<ValueModel> {
        (**self).decoded()
    }

    fn encode_element(&self, out: &mut Vec<u8>) {
        (**self).encode_value(out)
    }
}

/// The hint and the raw bytes of a tuple element.
pub open spec fn element_value_bytes<V: TupleElement>(v: &V) -> Seq<u8> {
    seq![type_hint_repr(v.element_hint())] + v.element_raw_bytes()
}

/// A reference to a value is written exactly as the value is, and reads
/// back as the value does.
pub proof fn lemma_reference_encodes_like_target<T: WriteValue>(value: &T)
    ensures
        value_bytes(&value) == value_bytes(value),
        (&value).decoded() == value.decoded(),
{
}

/// Where all values read back, each reads back.
pub proof fn lemma_all_decoded_each<T: WriteValue>(s: Seq<T>)
    ensures
        all_decoded(s) is Some ==> forall|i: int| 0 <= i < s.len() ==> (#[trigger] s[i].decoded()) is Some,
    decreases s.len(),
{
    if s.len() > 0 {
        lemma_all_decoded_each(s.drop_last());
        if all_decoded(s) is Some {
            assert forall|i: int| 0 <= i < s.len() implies (#[trigger] s[i].decoded()) is Some by {
                if i < s.len() - 1 {
                    assert(s.drop_last()[i] == s[i]);
                }
            }
        }
    }
}

impl WriteValue for (CrateId, WriteStatementId) {
    open spec fn spec_hint(&self) -> TypeHint {
        TypeHint::WriteId
    }

    open spec fn raw_bytes(&self) -> Seq<u8> {
        be_bytes(self.0.0 as nat, 2) + be_bytes(self.1.0 as nat, 2)
    }

    open spec fn decoded(&self) -> Option<ValueModel> {
        None
    }

    fn hint(&self) -> (hint: TypeHint) {
        TypeHint::WriteId
    }

    fn encode_raw(&self, out: &mut Vec<u8>) {
        proof {
            lemma2_to64();
        }
        let (crate_id, statement_id) = self;
        push_unsigned(out, crate_id.0 as u128, 2);
        push_unsigned(out, statement_id.0 as u128, 2);
    }
}

impl DecodesBack for (CrateId, WriteStatementId) {
    proof fn lemma_decodes(&self, st: StoresView, rest: Seq<u8>) {
    }
}

impl<A: TupleElement> WriteValue for (A,) {
    open spec fn spec_hint(&self) -> TypeHint {
        TypeHint::Tuple
    }

    open spec fn raw_bytes(&self) -> Seq<u8> {
        seq![1u8] + element_value_bytes(&self.0)
    }

    open spec fn decoded(&self) -> Option<ValueModel> {
        match self.0.element_decoded() {
            Some(a) => Some(ValueModel::Tuple(seq![a])),
            None => None,
        }
    }

    fn hint(&self) -> (hint: TypeHint) {
        TypeHint::Tuple
    }

    fn encode_raw(&self, out: &mut Vec<u8>) {
        let ghost start = out@;
        out.push(1);
        self.0.encode_element(out);
        assert(out@ =~= start + self.raw_bytes());
    }
}

impl<A: DecodesBack> DecodesBack for (A,) {
    proof fn lemma_decodes(&self, st: StoresView, rest: Seq<u8>) {
        if let Some(m) = self.decoded() {
            let items_0 = (self.0.spec_hint(), self.0.raw_bytes(), self.0.decoded()->Some_0);
            let items = Seq::<ValueItem>::empty().push(items_0);
            assert(items_decode(st, items)) by {
                self.0.lemma_decodes(st, Seq::empty());
                assert(self.0.raw_bytes() + Seq::<u8>::empty() =~= self.0.raw_bytes());
                assert forall|i: int| 0 <= i < items.len() implies #[trigger] parse_value(
                    st,
                    PointerWidth::spec_of_target(),
                    items[i].0,
                    items[i].1,
                ) == Parsed::Done(items[i].2, items[i].1.len()) by {
                    assert(items[i] == items_0);
                }
            }
            reveal_with_fuel(items_bytes, 2);
            let bytes = self.raw_bytes() + rest;
            lemma_tuple_unfold(st, PointerWidth::spec_of_target(), bytes);
            assert(bytes.skip(1) =~= items_bytes(items) + rest);
            lemma_items_decode(st, items, rest);
            assert(items_models(items) =~= m->Tuple_0);
        }
    }
}

impl<A: TupleElement, B: TupleElement> WriteValue for (A, B) {
    open spec fn spec_hint(&self) -> TypeHint {
        TypeHint::Tuple
    }

    open spec fn raw_bytes(&self) -> Seq<u8> {
        seq![2u8] + element_value_bytes(&self.0) + element_value_bytes(&self.1)
    }

    open spec fn decoded(&self) -> Option<ValueModel> {
        match (self.0.element_decoded(), self.1.element_decoded()) {
            (Some(a), Some(b)) => Some(ValueModel::Tuple(seq![a, b])),
            _ => None,
        }
    }

    fn hint(&self) -> (hint: TypeHint) {
        TypeHint::Tuple
    }

    #[verifier::rlimit(40)]
    fn encode_raw(&self, out: &mut Vec<u8>) {
        let ghost start = out@;
        out.push(2);
        self.0.encode_element(out);
        self.1.encode_element(out);
        assert(out@ =~= start + self.raw_bytes());
    }
}

impl<A: DecodesBack, B: DecodesBack> DecodesBack for (A, B) {
    proof fn lemma_decodes(&self, st: StoresView, rest: Seq<u8>) {
        if let Some(m) = self.decoded() {
            let items_0 = (self.0.spec_hint(), self.0.raw_bytes(), self.0.decoded()->Some_0);
            let items_1 = (self.1.spec_hint(), self.1.raw_bytes(), self.1.decoded()->Some_0);
            let items = Seq::<ValueItem>::empty().push(items_0).push(items_1);
            assert(items_decode(st, items)) by {
                self.0.lemma_decodes(st, Seq::empty());
                assert(self.0.raw_bytes() + Seq::<u8>::empty() =~= self.0.raw_bytes());
                self.1.lemma_decodes(st, Seq::empty());
                assert(self.1.raw_bytes() + Seq::<u8>::empty() =~= self.1.raw_bytes());
                assert forall|i: int| 0 <= i < items.len() implies #[trigger] parse_value(
                    st,
                    PointerWidth::spec_of_target(),
                    items[i].0,
                    items[i].1,
                ) == Parsed::Done(items[i].2, items[i].1.len()) by {
                    if i == 0 {
                        assert(items[i] == items_0);
                    }
                    if i == 1 {
                        assert(items[i] == items_1);
                    }
                }
            }
            reveal_with_fuel(items_bytes, 3);
            let bytes = self.raw_bytes() + rest;
            lemma_tuple_unfold(st, PointerWidth::spec_of_target(), bytes);
            assert(bytes.skip(1) =~= items_bytes(items) + rest);
            lemma_items_decode(st, items, rest);
            assert(items_models(items) =~= m->Tuple_0);
        }
    }
}

impl<A: TupleElement, B: TupleElement, C: TupleElement> WriteValue for (A, B, C) {
    open spec fn spec_hint(&self) -> TypeHint {
        TypeHint::Tuple
    }

    open spec fn raw_bytes(&self) -> Seq<u8> {
        seq![3u8] + element_value_bytes(&self.0) + element_value_bytes(&self.1) + element_value_bytes(&self.2)
    }

    open spec fn decoded(&self) -> Option<ValueModel> {
        match (self.0.element_decoded(), self.1.element_decoded(), self.2.element_decoded()) {
            (Some(a), Some(b), Some(c)) => Some(ValueModel::Tuple(seq![a, b, c])),
            _ => None,
        }
    }

    fn hint(&self) -> (hint: TypeHint) {
        TypeHint::Tuple
    }

    #[verifier::rlimit(40)]
    fn encode_raw(&self, out: &mut Vec<u8>) {
        let ghost start = out@;
        out.push(3);
        self.0.encode_element(out);
        self.1.encode_element(out);
        self.2.encode_element(out);
        assert(out@ =~= start + self.raw_bytes());
    }
}

impl<A: DecodesBack, B: DecodesBack, C: DecodesBack> DecodesBack for (A, B, C) {
    proof fn lemma_decodes(&self, st: StoresView, rest: Seq<u8>) {
        if let Some(m) = self.decoded() {
            let items_0 = (self.0.spec_hint(), self.0.raw_bytes(), self.0.decoded()->Some_0);
            let items_1 = (self.1.spec_hint(), self.1.raw_bytes(), self.1.decoded()->Some_0);
            let items_2 = (self.2.spec_hint(), self.2.raw_bytes(), self.2.decoded()->Some_0);
            let items = Seq::<ValueItem>::empty().push(items_0).push(items_1).push(items_2);
            assert(items_decode(st, items)) by {
                self.0.lemma_decodes(st, Seq::empty());
                assert(self.0.raw_bytes() + Seq::<u8>::empty() =~= self.0.raw_bytes());
                self.1.lemma_decodes(st, Seq::empty());
                assert(self.1.raw_bytes() + Seq::<u8>::empty() =~= self.1.raw_bytes());
                self.2.lemma_decodes(st, Seq::empty());
                assert(self.2.raw_bytes() + Seq::<u8>::empty() =~= self.2.raw_bytes());
                assert forall|i: int| 0 <= i < items.len() implies #[trigger] parse_value(
                    st,
                    PointerWidth::spec_of_target(),
                    items[i].0,
                    items[i].1,
                ) == Parsed::Done(items[i].2, items[i].1.len()) by {
                    if i == 0 {
                        assert(items[i] == items_0);
                    }
                    if i == 1 {
                        assert(items[i] == items_1);
                    }
                    if i == 2 {
                        assert(items[i] == items_2);
                    }
                }
            }
            reveal_with_fuel(items_bytes, 4);
            let bytes = self.raw_bytes() + rest;
            lemma_tuple_unfold(st, PointerWidth::spec_of_target(), bytes);
            assert(bytes.skip(1) =~= items_bytes(items) + rest);
            lemma_items_decode(st, items, rest);
            assert(items_models(items) =~= m->Tuple_0);
        }
    }
}

impl<A: TupleElement, B: TupleElement, C: TupleElement, D: TupleElement> WriteValue for (A, B, C, D) {
    open spec fn spec_hint(&self) -> TypeHint {
        TypeHint::Tuple
    }

    open spec fn raw_bytes(&self) -> Seq<u8> {
        seq![4u8] + element_value_bytes(&self.0) + element_value_bytes(&self.1) + element_value_bytes(&self.2) + element_value_bytes(&self.3)
    }

    open spec fn decoded(&self) -> Option<ValueModel> {
        match (self.0.element_decoded(), self.1.element_decoded(), self.2.element_decoded(), self.3.element_decoded()) {
            (Some(a), Some(b), Some(c), Some(d)) => Some(ValueModel::Tuple(seq![a, b, c, d])),
            _ => None,
        }
    }

    fn hint(&self) -> (hint: TypeHint) {
        TypeHint::Tuple
    }

    #[verifier::rlimit(40)]
    fn encode_raw(&self, out: &mut Vec<u8>) {
        let ghost start = out@;
        out.push(4);
        self.0.encode_element(out);
        self.1.encode_element(out);
        self.2.encode_element(out);
        self.3.encode_element(out);
        assert(out@ =~= start + self.raw_bytes());
    }
}

impl<A: DecodesBack, B: DecodesBack, C: DecodesBack, D: DecodesBack> DecodesBack for (A, B, C, D) {
    proof fn lemma_decodes(&self, st: StoresView, rest: Seq<u8>) {
        if let Some(m) = self.decoded() {
            let items_0 = (self.0.spec_hint(), self.0.raw_bytes(), self.0.decoded()->Some_0);
            let items_1 = (self.1.spec_hint(), self.1.raw_bytes(), self.1.decoded()->Some_0);
            let items_2 = (self.2.spec_hint(), self.2.raw_bytes(), self.2.decoded()->Some_0);
            let items_3 = (self.3.spec_hint(), self.3.raw_bytes(), self.3.decoded()->Some_0);
            let items = Seq::<ValueItem>::empty().push(items_0).push(items_1).push(items_2).push(items_3);
            assert(items_decode(st, items)) by {
                self.0.lemma_decodes(st, Seq::empty());
                assert(self.0.raw_bytes() + Seq::<u8>::empty() =~= self.0.raw_bytes());
                self.1.lemma_decodes(st, Seq::empty());
                assert(self.1.raw_bytes() + Seq::<u8>::empty() =~= self.1.raw_bytes());
                self.2.lemma_decodes(st, Seq::empty());
                assert(self.2.raw_bytes() + Seq::<u8>::empty() =~= self.2.raw_bytes());
                self.3.lemma_decodes(st, Seq::empty());
                assert(self.3.raw_bytes() + Seq::<u8>::empty() =~= self.3.raw_bytes());
                assert forall|i: int| 0 <= i < items.len() implies #[trigger] parse_value(
                    st,
                    PointerWidth::spec_of_target(),
                    items[i].0,
                    items[i].1,
                ) == Parsed::Done(items[i].2, items[i].1.len()) by {
                    if i == 0 {
                        assert(items[i] == items_0);
                    }
                    if i == 1 {
                        assert(items[i] == items_1);
                    }
                    if i == 2 {
                        assert(items[i] == items_2);
                    }
                    if i == 3 {
                        assert(items[i] == items_3);
                    }
                }
            }
            reveal_with_fuel(items_bytes, 5);
            let bytes = self.raw_bytes() + rest;
            lemma_tuple_unfold(st, PointerWidth::spec_of_target(), bytes);
            assert(bytes.skip(1) =~= items_bytes(items) + rest);
            lemma_items_decode(st, items, rest);
            assert(items_models(items) =~= m->Tuple_0);
        }
    }
}

impl<A: TupleElement, B: TupleElement, C: TupleElement, D: TupleElement, E: TupleElement> WriteValue for (A, B, C, D, E) {
    open spec fn spec_hint(&self) -> TypeHint {
        TypeHint::Tuple
    }

    open spec fn raw_bytes(&self) -> Seq<u8> {
        seq![5u8] + element_value_bytes(&self.0) + element_value_bytes(&self.1) + element_value_bytes(&self.2) + element_value_bytes(&self.3) + element_value_bytes(&self.4)
    }

    open spec fn decoded(&self) -> Option<ValueModel> {
        match (self.0.element_decoded(), self.1.element_decoded(), self.2.element_decoded(), self.3.element_decoded(), self.4.element_decoded()) {
            (Some(a), Some(b), Some(c), Some(d), Some(e)) => Some(ValueModel::Tuple(seq![a, b, c, d, e])),
            _ => None,
        }
    }

    fn hint(&self) -> (hint: TypeHint) {
        TypeHint::Tuple
    }

    #[verifier::rlimit(40)]
    fn encode_raw(&self, out: &mut Vec<u8>) {
        let ghost start = out@;
        out.push(5);
        self.0.encode_element(out);
        self.1.encode_element(out);
        self.2.encode_element(out);
        self.3.encode_element(out);
        self.4.encode_element(out);
        assert(out@ =~= start + self.raw_bytes());
    }
}

impl<A: DecodesBack, B: DecodesBack, C: DecodesBack, D: DecodesBack, E: DecodesBack> DecodesBack for (A, B, C, D, E) {
    proof fn lemma_decodes(&self, st: StoresView, rest: Seq<u8>) {
        if let Some(m) = self.decoded() {
            let items_0 = (self.0.spec_hint(), self.0.raw_bytes(), self.0.decoded()->Some_0);
            let items_1 = (self.1.spec_hint(), self.1.raw_bytes(), self.1.decoded()->Some_0);
            let items_2 = (self.2.spec_hint(), self.2.raw_bytes(), self.2.decoded()->Some_0);
            let items_3 = (self.3.spec_hint(), self.3.raw_bytes(), self.3.decoded()->Some_0);
            let items_4 = (self.4.spec_hint(), self.4.raw_bytes(), self.4.decoded()->Some_0);
            let items = Seq::<ValueItem>::empty().push(items_0).push(items_1).push(items_2).push(items_3).push(items_4);
            assert(items_decode(st, items)) by {
                self.0.lemma_decodes(st, Seq::empty());
                assert(self.0.raw_bytes() + Seq::<u8>::empty() =~= self.0.raw_bytes());
                self.1.lemma_decodes(st, Seq::empty());
                assert(self.1.raw_bytes() + Seq::<u8>::empty() =~= self.1.raw_bytes());
                self.2.lemma_decodes(st, Seq::empty());
                assert(self.2.raw_bytes() + Seq::<u8>::empty() =~= self.2.raw_bytes());
                self.3.lemma_decodes(st, Seq::empty());
                assert(self.3.raw_bytes() + Seq::<u8>::empty() =~= self.3.raw_bytes());
                self.4.lemma_decodes(st, Seq::empty());
                assert(self.4.raw_bytes() + Seq::<u8>::empty() =~= self.4.raw_bytes());
                assert forall|i: int| 0 <= i < items.len() implies #[trigger] parse_value(
                    st,
                    PointerWidth::spec_of_target(),
                    items[i].0,
                    items[i].1,
                ) == Parsed::Done(items[i].2, items[i].1.len()) by {
                    if i == 0 {
                        assert(items[i] == items_0);
                    }
                    if i == 1 {
                        assert(items[i] == items_1);
                    }
                    if i == 2 {
                        assert(items[i] == items_2);
                    }
                    if i == 3 {
                        assert(items[i] == items_3);
                    }
                    if i == 4 {
                        assert(items[i] == items_4);
                    }
                }
            }
            reveal_with_fuel(items_bytes, 6);
            let bytes = self.raw_bytes() + rest;
            lemma_tuple_unfold(st, PointerWidth::spec_of_target(), bytes);
            assert(bytes.skip(1) =~= items_bytes(items) + rest);
            lemma_items_decode(st, items, rest);
            assert(items_models(items) =~= m->Tuple_0);
        }
    }
}

impl<A: TupleElement, B: TupleElement, C: TupleElement, D: TupleElement, E: TupleElement, F: TupleElement> WriteValue for (A, B, C, D, E, F) {
    open spec fn spec_hint(&self) -> TypeHint {
        TypeHint::Tuple
    }

    open spec fn raw_bytes(&self) -> Seq<u8> {
        seq![6u8] + element_value_bytes(&self.0) + element_value_bytes(&self.1) + element_value_bytes(&self.2) + element_value_bytes(&self.3) + element_value_bytes(&self.4) + element_value_bytes(&self.5)
    }

    open spec fn decoded(&self) -> Option<ValueModel> {
        match (self.0.element_decoded(), self.1.element_decoded(), self.2.element_decoded(), self.3.element_decoded(), self.4.element_decoded(), self.5.element_decoded()) {
            (Some(a), Some(b), Some(c), Some(d), Some(e), Some(f)) => Some(ValueModel::Tuple(seq![a, b, c, d, e, f])),
            _ => None,
        }
    }

    fn hint(&self) -> (hint: TypeHint) {
        TypeHint::Tuple
    }

    #[verifier::rlimit(40)]
    fn encode_raw(&self, out: &mut Vec<u8>) {
        let ghost start = out@;
        out.push(6);
        self.0.encode_element(out);
        self.1.encode_element(out);
        self.2.encode_element(out);
        self.3.encode_element(out);
        self.4.encode_element(out);
        self.5.encode_element(out);
        assert(out@ =~= start + self.raw_bytes());
    }
}

impl<A: DecodesBack, B: DecodesBack, C: DecodesBack, D: DecodesBack, E: DecodesBack, F: DecodesBack> DecodesBack for (A, B, C, D, E, F) {
    proof fn lemma_decodes(&self, st: StoresView, rest: Seq<u8>) {
        if let Some(m) = self.decoded() {
            let items_0 = (self.0.spec_hint(), self.0.raw_bytes(), self.0.decoded()->Some_0);
            let items_1 = (self.1.spec_hint(), self.1.raw_bytes(), self.1.decoded()->Some_0);
            let items_2 = (self.2.spec_hint(), self.2.raw_bytes(), self.2.decoded()->Some_0);
            let items_3 = (self.3.spec_hint(), self.3.raw_bytes(), self.3.decoded()->Some_0);
            let items_4 = (self.4.spec_hint(), self.4.raw_bytes(), self.4.decoded()->Some_0);
            let items_5 = (self.5.spec_hint(), self.5.raw_bytes(), self.5.decoded()->Some_0);
            let items = Seq::<ValueItem>::empty().push(items_0).push(items_1).push(items_2).push(items_3).push(items_4).push(items_5);
            assert(items_decode(st, items)) by {
                self.0.lemma_decodes(st, Seq::empty());
                assert(self.0.raw_bytes() + Seq::<u8>::empty() =~= self.0.raw_bytes());
                self.1.lemma_decodes(st, Seq::empty());
                assert(self.1.raw_bytes() + Seq::<u8>::empty() =~= self.1.raw_bytes());
                self.2.lemma_decodes(st, Seq::empty());
                assert(self.2.raw_bytes() + Seq::<u8>::empty() =~= self.2.raw_bytes());
                self.3.lemma_decodes(st, Seq::empty());
                assert(self.3.raw_bytes() + Seq::<u8>::empty() =~= self.3.raw_bytes());
                self.4.lemma_decodes(st, Seq::empty());
                assert(self.4.raw_bytes() + Seq::<u8>::empty() =~= self.4.raw_bytes());
                self.5.lemma_decodes(st, Seq::empty());
                assert(self.5.raw_bytes() + Seq::<u8>::empty() =~= self.5.raw_bytes());
                assert forall|i: int| 0 <= i < items.len() implies #[trigger] parse_value(
                    st,
                    PointerWidth::spec_of_target(),
                    items[i].0,
                    items[i].1,
                ) == Parsed::Done(items[i].2, items[i].1.len()) by {
                    if i == 0 {
                        assert(items[i] == items_0);
                    }
                    if i == 1 {
                        assert(items[i] == items_1);
                    }
                    if i == 2 {
                        assert(items[i] == items_2);
                    }
                    if i == 3 {
                        assert(items[i] == items_3);
                    }
                    if i == 4 {
                        assert(items[i] == items_4);
                    }
                    if i == 5 {
                        assert(items[i] == items_5);
                    }
                }
            }
            reveal_with_fuel(items_bytes, 7);
            let bytes = self.raw_bytes() + rest;
            lemma_tuple_unfold(st, PointerWidth::spec_of_target(), bytes);
            assert(bytes.skip(1) =~= items_bytes(items) + rest);
            lemma_items_decode(st, items, rest);
            assert(items_models(items) =~= m->Tuple_0);
        }
    }
}

impl<A: TupleElement, B: TupleElement, C: TupleElement, D: TupleElement, E: TupleElement, F: TupleElement, G: TupleElement> WriteValue for (A, B, C, D, E, F, G) {
    open spec fn spec_hint(&self) -> TypeHint {
        TypeHint::Tuple
    }

    open spec fn raw_bytes(&self) -> Seq<u8> {
        seq![7u8] + element_value_bytes(&self.0) + element_value_bytes(&self.1) + element_value_bytes(&self.2) + element_value_bytes(&self.3) + element_value_bytes(&self.4) + element_value_bytes(&self.5) + element_value_bytes(&self.6)
    }

    open spec fn decoded(&self) -> Option<ValueModel> {
        match (self.0.element_decoded(), self.1.element_decoded(), self.2.element_decoded(), self.3.element_decoded(), self.4.element_decoded(), self.5.element_decoded(), self.6.element_decoded()) {
            (Some(a), Some(b), Some(c), Some(d), Some(e), Some(f), Some(g)) => Some(ValueModel::Tuple(seq![a, b, c, d, e, f, g])),
            _ => None,
        }
    }

    fn hint(&self) -> (hint: TypeHint) {
        TypeHint::Tuple
    }

    #[verifier::rlimit(40)]
    fn encode_raw(&self, out: &mut Vec<u8>) {
        let ghost start = out@;
        out.push(7);
        self.0.encode_element(out);
        self.1.encode_element(out);
        self.2.encode_element(out);
        self.3.encode_element(out);
        self.4.encode_element(out);
        self.5.encode_element(out);
        self.6.encode_element(out);
        assert(out@ =~= start + self.raw_bytes());
    }
}

impl<A: DecodesBack, B: DecodesBack, C: DecodesBack, D: DecodesBack, E: DecodesBack, F: DecodesBack, G: DecodesBack> DecodesBack for (A, B, C, D, E, F, G) {
    proof fn lemma_decodes(&self, st: StoresView, rest: Seq<u8>) {
        if let Some(m) = self.decoded() {
            let items_0 = (self.0.spec_hint(), self.0.raw_bytes(), self.0.decoded()->Some_0);
            let items_1 = (self.1.spec_hint(), self.1.raw_bytes(), self.1.decoded()->Some_0);
            let items_2 = (self.2.spec_hint(), self.2.raw_bytes(), self.2.decoded()->Some_0);
            let items_3 = (self.3.spec_hint(), self.3.raw_bytes(), self.3.decoded()->Some_0);
            let items_4 = (self.4.spec_hint(), self.4.raw_bytes(), self.4.decoded()->Some_0);
            let items_5 = (self.5.spec_hint(), self.5.raw_bytes(), self.5.decoded()->Some_0);
            let items_6 = (self.6.spec_hint(), self.6.raw_bytes(), self.6.decoded()->Some_0);
            let items = Seq::<ValueItem>::empty().push(items_0).push(items_1).push(items_2).push(items_3).push(items_4).push(items_5).push(items_6);
            assert(items_decode(st, items)) by {
                self.0.lemma_decodes(st, Seq::empty());
                assert(self.0.raw_bytes() + Seq::<u8>::empty() =~= self.0.raw_bytes());
                self.1.lemma_decodes(st, Seq::empty());
                assert(self.1.raw_bytes() + Seq::<u8>::empty() =~= self.1.raw_bytes());
                self.2.lemma_decodes(st, Seq::empty());
                assert(self.2.raw_bytes() + Seq::<u8>::empty() =~= self.2.raw_bytes());
                self.3.lemma_decodes(st, Seq::empty());
                assert(self.3.raw_bytes() + Seq::<u8>::empty() =~= self.3.raw_bytes());
                self.4.lemma_decodes(st, Seq::empty());
                assert(self.4.raw_bytes() + Seq::<u8>::empty() =~= self.4.raw_bytes());
                self.5.lemma_decodes(st, Seq::empty());
                assert(self.5.raw_bytes() + Seq::<u8>::empty() =~= self.5.raw_bytes());
                self.6.lemma_decodes(st, Seq::empty());
                assert(self.6.raw_bytes() + Seq::<u8>::empty() =~= self.6.raw_bytes());
                assert forall|i: int| 0 <= i < items.len() implies #[trigger] parse_value(
                    st,
                    PointerWidth::spec_of_target(),
                    items[i].0,
                    items[i].1,
                ) == Parsed::Done(items[i].2, items[i].1.len()) by {
                    if i == 0 {
                        assert(items[i] == items_0);
                    }
                    if i == 1 {
                        assert(items[i] == items_1);
                    }
                    if i == 2 {
                        assert(items[i] == items_2);
                    }
                    if i == 3 {
                        assert(items[i] == items_3);
                    }
                    if i == 4 {
                        assert(items[i] == items_4);
                    }
                    if i == 5 {
                        assert(items[i] == items_5);
                    }
                    if i == 6 {
                        assert(items[i] == items_6);
                    }
                }
            }
            reveal_with_fuel(items_bytes, 8);
            let bytes = self.raw_bytes() + rest;
            lemma_tuple_unfold(st, PointerWidth::spec_of_target(), bytes);
            assert(bytes.skip(1) =~= items_bytes(items) + rest);
            lemma_items_decode(st, items, rest);
            assert(items_models(items) =~= m->Tuple_0);
        }
    }
}

/// A write id of a registered format expression, with the values of the
/// expression's arguments written after it, reads back as the nested format
/// expression with those values, split as the expression expects them.
pub proof fn lemma_write_id_roundtrip(
    st: StoresView,
    id: (CrateId, WriteStatementId),
    items: Seq<ValueItem>,
    rest: Seq<u8>,
)
    requires
        st.crates.contains_key(id.0.0),
        st.writes.contains_key(crate::statements::statement_key(id.0.0, id.1.0)),
        st.writes[crate::statements::statement_key(id.0.0, id.1.0)] is FormatExpression,
        crate::statements::expected_arg_count(
            st.writes[crate::statements::statement_key(id.0.0, id.1.0)]->FormatExpression_0,
        ) == items.len(),
        items_decode(st, items),
    ensures
        ({
            let fe = st.writes[crate::statements::statement_key(id.0.0, id.1.0)]->FormatExpression_0;
            parse_value(
                st,
                PointerWidth::spec_of_target(),
                TypeHint::WriteId,
                id.raw_bytes() + items_bytes(items) + rest,
            ) == Parsed::Done(
                ValueModel::NestedFormatExpression {
                    expression: fe.expression@,
                    append_newline: fe.append_newline,
                    decoded_values: crate::parse::split_args(fe, items_models(items)),
                },
                id.raw_bytes().len() + items_bytes(items).len(),
            )
        }),
{
    lemma2_to64();
    let pw = PointerWidth::spec_of_target();
    lemma_be_bytes(id.0.0 as nat, 2);
    lemma_be_bytes(id.1.0 as nat, 2);
    let s = id.raw_bytes() + items_bytes(items) + rest;
    crate::step_lemmas::lemma_write_id_unfold(st, pw, s);
    assert(s.take(2) =~= be_bytes(id.0.0 as nat, 2));
    let body = s.skip(2);
    assert(body.take(2) =~= be_bytes(id.1.0 as nat, 2));
    assert(body.skip(2) =~= items_bytes(items) + rest);
    lemma_items_decode(st, items, rest);
}

} // verus!
