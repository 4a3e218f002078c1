//! Wire codecs for the primitive leaves.
//!
//! | type            | encoding                                        |
//! | --------------- | ----------------------------------------------- |
//! | `bool`          | one byte; `0 = false`, `1 = true`               |
//! | `u8` / `i8`     | one byte raw                                    |
//! | `u16/u32/u64`   | unsigned varint                                 |
//! | `i16/i32/i64`   | zig-zag varint                                  |
//! | `u128` / `i128` | varint of at most nineteen bytes (zig-zag for `i128`) |
use crate::codec::Codec;
use crate::decoder::{Budget, 
    and_then, decoded_as, lemma_reads_local, spec_read_u8, spec_read_varint_u128, spec_read_varint_u32,
    spec_read_varint_u64, varint_u128_round_trip, varint_u32_round_trip, varint_u64_round_trip,
    Decode, DecodeError, Decoded, Reader,
};
use crate::encoder::{emit, EncodeError, Emitted, Encode, Writer};
use crate::varint::varint_bytes;
use vstd::prelude::*;

verus! {

/// Zig-zag mapping of a signed integer onto the naturals: `0, -1, 1, -2, …`
/// go to `0, 1, 2, 3, …`.
pub open spec fn zigzag(v: int) -> nat {
    if v >= 0 {
        (2 * v) as nat
    } else {
        (-2 * v - 1) as nat
    }
}

/// Inverse of [`zigzag`].
pub open spec fn unzigzag(raw: nat) -> int {
    if raw % 2 == 0 {
        (raw / 2) as int
    } else {
        -((raw + 1) / 2)
    }
}

/// `unzigzag` undoes `zigzag`.
pub proof fn lemma_unzigzag_zigzag(v: int)
    ensures
        unzigzag(zigzag(v)) == v,
{
}

/// A raw varint reinterpreted as a narrower or signed integer: the value
/// `f` gives, or `LengthOverflow` when `ok` rejects the raw value.
pub open spec fn narrowed<A, B>(d: Decoded<A>, ok: spec_fn(A) -> bool, f: spec_fn(A) -> B) -> Decoded<B> {
    match d.0 {
        Ok(v) => if ok(v) {
            (Ok(f(v)), d.1)
        } else {
            (Err(DecodeError::LengthOverflow), d.1)
        },
        Err(e) => (Err(e), d.1),
    }
}

fn zigzag_u64(v: i64) -> (r: u64)
    ensures
        r as nat == zigzag(v as int),
{
    if v >= 0 {
        (v as u64) * 2
    } else {
        ((-(v + 1)) as u64) * 2 + 1
    }
}

fn unzigzag_u64(raw: u64) -> (r: i64)
    ensures
        r as int == unzigzag(raw as nat),
{
    if raw % 2 == 0 {
        (raw / 2) as i64
    } else {
        -((raw / 2) as i64) - 1
    }
}

fn zigzag_u128(v: i128) -> (r: u128)
    ensures
        r as nat == zigzag(v as int),
{
    if v >= 0 {
        (v as u128) * 2
    } else {
        ((-(v + 1)) as u128) * 2 + 1
    }
}

fn unzigzag_u128(raw: u128) -> (r: i128)
    ensures
        r as int == unzigzag(raw as nat),
{
    if raw % 2 == 0 {
        (raw / 2) as i128
    } else {
        -((raw / 2) as i128) - 1
    }
}

impl Decode for u8 {
    open spec fn spec_decode(s: Seq<u8>) -> Decoded<u8> {
        spec_read_u8(s)
    }

    proof fn lemma_decode_within(s: Seq<u8>) {
    }

    proof fn lemma_decode_local(s: Seq<u8>, t: Seq<u8>) {
        lemma_reads_local(s, t);
    }

    open spec fn spec_need(s: Seq<u8>) -> nat {
        0
    }

    fn decode(reader: &mut Reader<'_>, budget: &mut Budget) -> (res: Result<u8, DecodeError>) {
        reader.read_u8()
    }
}

impl Encode for u8 {
    open spec fn spec_encode(v: u8) -> Emitted {
        emit(seq![v])
    }

    fn encode(&self, writer: &mut Writer) -> (res: Result<(), EncodeError>) {
        writer.write_u8(*self)
    }
}

impl Codec for u8 {
    open spec fn spec_fits(v: u8) -> bool {
        true
    }

    proof fn lemma_round_trip(v: u8, tail: Seq<u8>) {
        assert((seq![v] + tail)[0] == v);
    }
}

impl Decode for i8 {
    open spec fn spec_decode(s: Seq<u8>) -> Decoded<i8> {
        narrowed(spec_read_u8(s), |b: u8| true, |b: u8| b as i8)
    }

    proof fn lemma_decode_within(s: Seq<u8>) {
    }

    proof fn lemma_decode_local(s: Seq<u8>, t: Seq<u8>) {
        lemma_reads_local(s, t);
    }

    open spec fn spec_need(s: Seq<u8>) -> nat {
        0
    }

    fn decode(reader: &mut Reader<'_>, budget: &mut Budget) -> (res: Result<i8, DecodeError>) {
        let b = reader.read_u8()?;
        Ok(b as i8)
    }
}

impl Encode for i8 {
    open spec fn spec_encode(v: i8) -> Emitted {
        emit(seq![v as u8])
    }

    fn encode(&self, writer: &mut Writer) -> (res: Result<(), EncodeError>) {
        writer.write_u8(*self as u8)
    }
}

impl Codec for i8 {
    open spec fn spec_fits(v: i8) -> bool {
        true
    }

    proof fn lemma_round_trip(v: i8, tail: Seq<u8>) {
        assert((seq![v as u8] + tail)[0] == v as u8);
        assert((v as u8) as i8 == v) by (bit_vector);
    }
}

/// `bool` on the wire: `0` or `1`; any other byte is an invalid variant.
pub open spec fn spec_decode_bool(s: Seq<u8>) -> Decoded<bool> {
    let d = spec_read_u8(s);
    match d.0 {
        Ok(b) => if b == 0 {
            (Ok(false), d.1)
        } else if b == 1 {
            (Ok(true), d.1)
        } else {
            (Err(DecodeError::InvalidVariant { kind: "bool", seen: b as u32 }), d.1)
        },
        Err(e) => (Err(e), d.1),
    }
}

impl Decode for bool {
    open spec fn spec_decode(s: Seq<u8>) -> Decoded<bool> {
        spec_decode_bool(s)
    }

    proof fn lemma_decode_within(s: Seq<u8>) {
    }

    proof fn lemma_decode_local(s: Seq<u8>, t: Seq<u8>) {
        lemma_reads_local(s, t);
    }

    open spec fn spec_need(s: Seq<u8>) -> nat {
        0
    }

    fn decode(reader: &mut Reader<'_>, budget: &mut Budget) -> (res: Result<bool, DecodeError>) {
        match reader.read_u8()? {
            0 => Ok(false),
            1 => Ok(true),
            seen => Err(DecodeError::InvalidVariant { kind: "bool", seen: seen as u32 }),
        }
    }
}

impl Encode for bool {
    open spec fn spec_encode(v: bool) -> Emitted {
        emit(seq![if v { 1u8 } else { 0u8 }])
    }

    fn encode(&self, writer: &mut Writer) -> (res: Result<(), EncodeError>) {
        writer.write_u8(if *self { 1 } else { 0 })
    }
}

/// The wire form of booleans: `false` is byte 0 and `true` byte 1, and
/// each byte reads back as that boolean, consuming one byte.
pub proof fn lemma_bool_wire(s: Seq<u8>)
    ensures
        <bool as Encode>::spec_encode(false) == emit(seq![0u8]),
        <bool as Encode>::spec_encode(true) == emit(seq![1u8]),
        <bool as Decode>::spec_decode(seq![0u8] + s) == (Ok::<bool, DecodeError>(false), 1nat),
        <bool as Decode>::spec_decode(seq![1u8] + s) == (Ok::<bool, DecodeError>(true), 1nat),
{
}

impl Codec for bool {
    open spec fn spec_fits(v: bool) -> bool {
        true
    }

    proof fn lemma_round_trip(v: bool, tail: Seq<u8>) {
        assert((seq![if v { 1u8 } else { 0u8 }] + tail)[0] == if v { 1u8 } else { 0u8 });
    }
}

impl Decode for u16 {
    open spec fn spec_decode(s: Seq<u8>) -> Decoded<u16> {
        narrowed(spec_read_varint_u32(s), |v: u32| v <= u16::MAX, |v: u32| v as u16)
    }

    proof fn lemma_decode_within(s: Seq<u8>) {
        crate::decoder::lemma_read_varint_within(s);
    }

    proof fn lemma_decode_local(s: Seq<u8>, t: Seq<u8>) {
        lemma_reads_local(s, t);
    }

    open spec fn spec_need(s: Seq<u8>) -> nat {
        0
    }

    fn decode(reader: &mut Reader<'_>, budget: &mut Budget) -> (res: Result<u16, DecodeError>) {
        let v = reader.read_varint_u32()?;
        if v > u16::MAX as u32 {
            return Err(DecodeError::LengthOverflow);
        }
        Ok(v as u16)
    }
}

impl Encode for u16 {
    open spec fn spec_encode(v: u16) -> Emitted {
        emit(varint_bytes(v as nat))
    }

    fn encode(&self, writer: &mut Writer) -> (res: Result<(), EncodeError>) {
        writer.write_varint_u32(*self as u32)
    }
}

impl Codec for u16 {
    open spec fn spec_fits(v: u16) -> bool {
        true
    }

    proof fn lemma_round_trip(v: u16, tail: Seq<u8>) {
        varint_u32_round_trip(v as u32, tail);
    }
}

impl Decode for u32 {
    open spec fn spec_decode(s: Seq<u8>) -> Decoded<u32> {
        spec_read_varint_u32(s)
    }

    proof fn lemma_decode_within(s: Seq<u8>) {
        crate::decoder::lemma_read_varint_within(s);
    }

    proof fn lemma_decode_local(s: Seq<u8>, t: Seq<u8>) {
        lemma_reads_local(s, t);
    }

    open spec fn spec_need(s: Seq<u8>) -> nat {
        0
    }

    fn decode(reader: &mut Reader<'_>, budget: &mut Budget) -> (res: Result<u32, DecodeError>) {
        reader.read_varint_u32()
    }
}

impl Encode for u32 {
    open spec fn spec_encode(v: u32) -> Emitted {
        emit(varint_bytes(v as nat))
    }

    fn encode(&self, writer: &mut Writer) -> (res: Result<(), EncodeError>) {
        writer.write_varint_u32(*self as u32)
    }
}

impl Codec for u32 {
    open spec fn spec_fits(v: u32) -> bool {
        true
    }

    proof fn lemma_round_trip(v: u32, tail: Seq<u8>) {
        varint_u32_round_trip(v as u32, tail);
    }
}

impl Decode for u64 {
    open spec fn spec_decode(s: Seq<u8>) -> Decoded<u64> {
        spec_read_varint_u64(s)
    }

    proof fn lemma_decode_within(s: Seq<u8>) {
        crate::decoder::lemma_read_varint_within(s);
    }

    proof fn lemma_decode_local(s: Seq<u8>, t: Seq<u8>) {
        lemma_reads_local(s, t);
    }

    open spec fn spec_need(s: Seq<u8>) -> nat {
        0
    }

    fn decode(reader: &mut Reader<'_>, budget: &mut Budget) -> (res: Result<u64, DecodeError>) {
        reader.read_varint_u64()
    }
}

impl Encode for u64 {
    open spec fn spec_encode(v: u64) -> Emitted {
        emit(varint_bytes(v as nat))
    }

    fn encode(&self, writer: &mut Writer) -> (res: Result<(), EncodeError>) {
        writer.write_varint_u64(*self as u64)
    }
}

impl Codec for u64 {
    open spec fn spec_fits(v: u64) -> bool {
        true
    }

    proof fn lemma_round_trip(v: u64, tail: Seq<u8>) {
        varint_u64_round_trip(v as u64, tail);
    }
}

impl Decode for usize {
    open spec fn spec_decode(s: Seq<u8>) -> Decoded<usize> {
        narrowed(spec_read_varint_u64(s), |v: u64| v <= usize::MAX, |v: u64| v as usize)
    }

    proof fn lemma_decode_within(s: Seq<u8>) {
        crate::decoder::lemma_read_varint_within(s);
    }

    proof fn lemma_decode_local(s: Seq<u8>, t: Seq<u8>) {
        lemma_reads_local(s, t);
    }

    open spec fn spec_need(s: Seq<u8>) -> nat {
        0
    }

    fn decode(reader: &mut Reader<'_>, budget: &mut Budget) -> (res: Result<usize, DecodeError>) {
        let v = reader.read_varint_u64()?;
        if v > usize::MAX as u64 {
            return Err(DecodeError::LengthOverflow);
        }
        Ok(v as usize)
    }
}

impl Encode for usize {
    open spec fn spec_encode(v: usize) -> Emitted {
        emit(varint_bytes(v as nat))
    }

    fn encode(&self, writer: &mut Writer) -> (res: Result<(), EncodeError>) {
        writer.write_varint_u64(*self as u64)
    }
}

impl Codec for usize {
    open spec fn spec_fits(v: usize) -> bool {
        true
    }

    proof fn lemma_round_trip(v: usize, tail: Seq<u8>) {
        varint_u64_round_trip(v as u64, tail);
    }
}

impl Decode for u128 {
    open spec fn spec_decode(s: Seq<u8>) -> Decoded<u128> {
        spec_read_varint_u128(s)
    }

    proof fn lemma_decode_within(s: Seq<u8>) {
        crate::decoder::lemma_read_varint_within(s);
    }

    proof fn lemma_decode_local(s: Seq<u8>, t: Seq<u8>) {
        lemma_reads_local(s, t);
    }

    open spec fn spec_need(s: Seq<u8>) -> nat {
        0
    }

    fn decode(reader: &mut Reader<'_>, budget: &mut Budget) -> (res: Result<u128, DecodeError>) {
        reader.read_varint_u128()
    }
}

impl Encode for u128 {
    open spec fn spec_encode(v: u128) -> Emitted {
        emit(varint_bytes(v as nat))
    }

    fn encode(&self, writer: &mut Writer) -> (res: Result<(), EncodeError>) {
        writer.write_varint_u128(*self as u128)
    }
}

impl Codec for u128 {
    open spec fn spec_fits(v: u128) -> bool {
        true
    }

    proof fn lemma_round_trip(v: u128, tail: Seq<u8>) {
        varint_u128_round_trip(v as u128, tail);
    }
}

impl Decode for i16 {
    open spec fn spec_decode(s: Seq<u8>) -> Decoded<i16> {
        narrowed(spec_read_varint_u32(s), |v: u32| i16::MIN <= unzigzag(v as nat) <= i16::MAX, |v: u32| unzigzag(v as nat) as i16)
    }

    proof fn lemma_decode_within(s: Seq<u8>) {
        crate::decoder::lemma_read_varint_within(s);
    }

    proof fn lemma_decode_local(s: Seq<u8>, t: Seq<u8>) {
        lemma_reads_local(s, t);
    }

    open spec fn spec_need(s: Seq<u8>) -> nat {
        0
    }

    fn decode(reader: &mut Reader<'_>, budget: &mut Budget) -> (res: Result<i16, DecodeError>) {
        let raw = reader.read_varint_u32()? as u64;
        let decoded = unzigzag_u64(raw);
        if decoded < i16::MIN as i64 || decoded > i16::MAX as i64 {
            return Err(DecodeError::LengthOverflow);
        }
        Ok(decoded as i16)
    }
}

impl Encode for i16 {
    open spec fn spec_encode(v: i16) -> Emitted {
        emit(varint_bytes(zigzag(v as int)))
    }

    fn encode(&self, writer: &mut Writer) -> (res: Result<(), EncodeError>) {
        let zz = zigzag_u64(*self as i64);
        writer.write_varint_u32(zz as u32)
    }
}

impl Codec for i16 {
    open spec fn spec_fits(v: i16) -> bool {
        true
    }

    proof fn lemma_round_trip(v: i16, tail: Seq<u8>) {
        lemma_unzigzag_zigzag(v as int);
        varint_u32_round_trip(zigzag(v as int) as u32, tail);
    }
}

impl Decode for i32 {
    open spec fn spec_decode(s: Seq<u8>) -> Decoded<i32> {
        narrowed(spec_read_varint_u32(s), |v: u32| i32::MIN <= unzigzag(v as nat) <= i32::MAX, |v: u32| unzigzag(v as nat) as i32)
    }

    proof fn lemma_decode_within(s: Seq<u8>) {
        crate::decoder::lemma_read_varint_within(s);
    }

    proof fn lemma_decode_local(s: Seq<u8>, t: Seq<u8>) {
        lemma_reads_local(s, t);
    }

    open spec fn spec_need(s: Seq<u8>) -> nat {
        0
    }

    fn decode(reader: &mut Reader<'_>, budget: &mut Budget) -> (res: Result<i32, DecodeError>) {
        let raw = reader.read_varint_u32()? as u64;
        let decoded = unzigzag_u64(raw);
        if decoded < i32::MIN as i64 || decoded > i32::MAX as i64 {
            return Err(DecodeError::LengthOverflow);
        }
        Ok(decoded as i32)
    }
}

impl Encode for i32 {
    open spec fn spec_encode(v: i32) -> Emitted {
        emit(varint_bytes(zigzag(v as int)))
    }

    fn encode(&self, writer: &mut Writer) -> (res: Result<(), EncodeError>) {
        let zz = zigzag_u64(*self as i64);
        writer.write_varint_u32(zz as u32)
    }
}

impl Codec for i32 {
    open spec fn spec_fits(v: i32) -> bool {
        true
    }

    proof fn lemma_round_trip(v: i32, tail: Seq<u8>) {
        lemma_unzigzag_zigzag(v as int);
        varint_u32_round_trip(zigzag(v as int) as u32, tail);
    }
}

impl Decode for i64 {
    open spec fn spec_decode(s: Seq<u8>) -> Decoded<i64> {
        narrowed(spec_read_varint_u64(s), |v: u64| true, |v: u64| unzigzag(v as nat) as i64)
    }

    proof fn lemma_decode_within(s: Seq<u8>) {
        crate::decoder::lemma_read_varint_within(s);
    }

    proof fn lemma_decode_local(s: Seq<u8>, t: Seq<u8>) {
        lemma_reads_local(s, t);
    }

    open spec fn spec_need(s: Seq<u8>) -> nat {
        0
    }

    fn decode(reader: &mut Reader<'_>, budget: &mut Budget) -> (res: Result<i64, DecodeError>) {
        let raw = reader.read_varint_u64()? as u64;
        let decoded = unzigzag_u64(raw);
        Ok(decoded as i64)
    }
}

impl Encode for i64 {
    open spec fn spec_encode(v: i64) -> Emitted {
        emit(varint_bytes(zigzag(v as int)))
    }

    fn encode(&self, writer: &mut Writer) -> (res: Result<(), EncodeError>) {
        let zz = zigzag_u64(*self as i64);
        writer.write_varint_u64(zz as u64)
    }
}

impl Codec for i64 {
    open spec fn spec_fits(v: i64) -> bool {
        true
    }

    proof fn lemma_round_trip(v: i64, tail: Seq<u8>) {
        lemma_unzigzag_zigzag(v as int);
        varint_u64_round_trip(zigzag(v as int) as u64, tail);
    }
}

impl Decode for isize {
    open spec fn spec_decode(s: Seq<u8>) -> Decoded<isize> {
        narrowed(spec_read_varint_u64(s), |v: u64| isize::MIN <= unzigzag(v as nat) <= isize::MAX, |v: u64| unzigzag(v as nat) as isize)
    }

    proof fn lemma_decode_within(s: Seq<u8>) {
        crate::decoder::lemma_read_varint_within(s);
    }

    proof fn lemma_decode_local(s: Seq<u8>, t: Seq<u8>) {
        lemma_reads_local(s, t);
    }

    open spec fn spec_need(s: Seq<u8>) -> nat {
        0
    }

    fn decode(reader: &mut Reader<'_>, budget: &mut Budget) -> (res: Result<isize, DecodeError>) {
        let raw = reader.read_varint_u64()? as u64;
        let decoded = unzigzag_u64(raw);
        if decoded < isize::MIN as i64 || decoded > isize::MAX as i64 {
            return Err(DecodeError::LengthOverflow);
        }
        Ok(decoded as isize)
    }
}

impl Encode for isize {
    open spec fn spec_encode(v: isize) -> Emitted {
        emit(varint_bytes(zigzag(v as int)))
    }

    fn encode(&self, writer: &mut Writer) -> (res: Result<(), EncodeError>) {
        let zz = zigzag_u64(*self as i64);
        writer.write_varint_u64(zz as u64)
    }
}

impl Codec for isize {
    open spec fn spec_fits(v: isize) -> bool {
        true
    }

    proof fn lemma_round_trip(v: isize, tail: Seq<u8>) {
        lemma_unzigzag_zigzag(v as int);
        varint_u64_round_trip(zigzag(v as int) as u64, tail);
    }
}

impl Decode for i128 {
    open spec fn spec_decode(s: Seq<u8>) -> Decoded<i128> {
        narrowed(spec_read_varint_u128(s), |v: u128| true, |v: u128| unzigzag(v as nat) as i128)
    }

    proof fn lemma_decode_within(s: Seq<u8>) {
        crate::decoder::lemma_read_varint_within(s);
    }

    proof fn lemma_decode_local(s: Seq<u8>, t: Seq<u8>) {
        lemma_reads_local(s, t);
    }

    open spec fn spec_need(s: Seq<u8>) -> nat {
        0
    }

    fn decode(reader: &mut Reader<'_>, budget: &mut Budget) -> (res: Result<i128, DecodeError>) {
        let raw = reader.read_varint_u128()? as u128;
        let decoded = unzigzag_u128(raw);
        Ok(decoded as i128)
    }
}

impl Encode for i128 {
    open spec fn spec_encode(v: i128) -> Emitted {
        emit(varint_bytes(zigzag(v as int)))
    }

    fn encode(&self, writer: &mut Writer) -> (res: Result<(), EncodeError>) {
        let zz = zigzag_u128(*self as i128);
        writer.write_varint_u128(zz as u128)
    }
}

impl Codec for i128 {
    open spec fn spec_fits(v: i128) -> bool {
        true
    }

    proof fn lemma_round_trip(v: i128, tail: Seq<u8>) {
        lemma_unzigzag_zigzag(v as int);
        varint_u128_round_trip(zigzag(v as int) as u128, tail);
    }
}

} // verus!
