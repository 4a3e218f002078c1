//! Wire encoder: an append-only byte sink.
//!
//! Every write is specified by the bytes it appends. The byte layout is the
//! one the decoder reads.
use crate::codec::Codec;
use crate::decoder::{Budget, BudgetError, Decode, DecodeError, Reader};
use crate::varint::{lemma_pow128_bounds, lemma_varint_bytes_shape, varint_bytes};
use vstd::arithmetic::div_mod::*;
use vstd::arithmetic::power::*;
use vstd::prelude::*;

verus! {

/// Reasons an encoder may reject its input.
#[derive(Debug)]
pub enum EncodeError {
    /// A length-prefixed payload exceeded `u32::MAX` bytes or elements.
    LengthOverflow,
    /// The value nests deeper than the [`Budget`] allows.
    Budget(BudgetError),
    /// Payload-specific failure.
    Custom(&'static str),
}

impl EncodeError {
    /// A human-readable description of the error.
    pub fn message(&self) -> (m: String)
        ensures
            m@ == match self {
                EncodeError::LengthOverflow => "dol-wire encode: length-prefix overflow"@,
                EncodeError::Budget(_) => "dol-wire encode: budget exhausted: nesting too deep"@,
                EncodeError::Custom(text) => "dol-wire encode: "@ + text@,
            },
    {
        match self {
            EncodeError::LengthOverflow => "dol-wire encode: length-prefix overflow".to_owned(),
            EncodeError::Budget(_) => "dol-wire encode: budget exhausted: nesting too deep".to_owned(),
            EncodeError::Custom(text) => {
                let mut m = "dol-wire encode: ".to_owned();
                m.append(text);
                m
            },
        }
    }
}

/// What an encoder appends, and whether it finished (`false`: it stopped on
/// a length that does not fit the wire after appending the bytes given).
pub type Emitted = (Seq<u8>, bool);

/// `first`, then `second` unless `first` stopped.
pub open spec fn emit_then(first: Emitted, second: Emitted) -> Emitted {
    if first.1 {
        (first.0 + second.0, second.1)
    } else {
        first
    }
}

/// Bytes that are always emitted in full.
pub open spec fn emit(bytes: Seq<u8>) -> Emitted {
    (bytes, true)
}

/// A count `n` as a varint, then `body`; a count over `u32::MAX` is refused
/// before anything is written.
pub open spec fn counted(n: nat, body: Emitted) -> Emitted {
    if n > u32::MAX {
        (Seq::empty(), false)
    } else {
        emit_then(emit(varint_bytes(n)), body)
    }
}

/// A length-prefixed byte payload: the varint length, then the bytes; a
/// payload over `u32::MAX` bytes is refused before anything is written.
pub open spec fn spec_encode_seq_bytes(b: Seq<u8>) -> Emitted {
    if b.len() > u32::MAX {
        (Seq::empty(), false)
    } else {
        emit(varint_bytes(b.len()) + b)
    }
}

/// A type that can be written to the wire.
pub trait Encode: DeepView {
    /// The bytes encoding `v`, and whether encoding finishes.
    spec fn spec_encode(v: <Self as DeepView>::V) -> Emitted;

    /// Append `self` to `writer`.
    fn encode(&self, writer: &mut Writer) -> (res: Result<(), EncodeError>)
        ensures
            final(writer).bytes() == old(writer).bytes() + Self::spec_encode(self.deep_view()).0,
            final(writer).start() == old(writer).start(),
            res is Ok <==> Self::spec_encode(self.deep_view()).1,
            res matches Err(e) ==> e is LengthOverflow,
    ;
}

impl<'a, T: Encode> Encode for &'a T {
    open spec fn spec_encode(v: <T as DeepView>::V) -> Emitted {
        T::spec_encode(v)
    }

    fn encode(&self, writer: &mut Writer) -> (res: Result<(), EncodeError>) {
        (**self).encode(writer)
    }
}

/// Append-only byte sink. It owns the buffer it appends to; `into_bytes`
/// hands the buffer back. The bytes the buffer held when the writer was made
/// stay apart from those appended through it.
#[derive(Debug)]
pub struct Writer {
    head: Vec<u8>,
    out: Vec<u8>,
}

impl Writer {
    /// The bytes in the buffer so far: those it started with, then those
    /// appended.
    pub closed spec fn bytes(self) -> Seq<u8> {
        self.head@ + self.out@
    }

    /// How many bytes the buffer held when the writer was made.
    pub closed spec fn start(self) -> nat {
        self.head@.len()
    }

    /// Wrap `buf`; subsequent writes append to it.
    pub fn new(buf: Vec<u8>) -> (w: Self)
        ensures
            w.bytes() == buf@,
            w.start() == buf@.len(),
    {
        let w = Writer { head: buf, out: Vec::new() };
        assert(w.bytes() =~= buf@);
        w
    }

    /// Give the buffer back.
    pub fn into_bytes(self) -> (buf: Vec<u8>)
        ensures
            buf@ == self.bytes(),
    {
        let mut buf = self.head;
        buf.extend_from_slice(self.out.as_slice());
        buf
    }

    /// Number of bytes appended through this writer so far.
    pub fn bytes_written(&self) -> (n: usize)
        ensures
            n == self.bytes().len() - self.start(),
    {
        self.out.len()
    }

    /// Append one byte.
    fn push_byte(&mut self, byte: u8)
        ensures
            final(self).bytes() == old(self).bytes().push(byte),
            final(self).start() == old(self).start(),
    {
        self.out.push(byte);
        assert(self.bytes() =~= old(self).bytes().push(byte));
    }

    /// Emit a single byte.
    pub fn write_u8(&mut self, byte: u8) -> (res: Result<(), EncodeError>)
        ensures
            final(self).start() == old(self).start(),
            res is Ok,
            final(self).bytes() == old(self).bytes().push(byte),
    {
        self.push_byte(byte);
        Ok(())
    }

    /// Emit a raw byte slice (no length prefix).
    pub fn write_bytes(&mut self, bytes: &[u8]) -> (res: Result<(), EncodeError>)
        ensures
            final(self).start() == old(self).start(),
            res is Ok,
            final(self).bytes() == old(self).bytes() + bytes@,
    {
        let ghost before = self.out@;
        self.out.extend_from_slice(bytes);
        assert(self.out@ =~= before + bytes@);
        assert(self.bytes() =~= old(self).bytes() + bytes@);
        Ok(())
    }

    /// Emit a fixed-length array (no length prefix).
    pub fn write_array<const N: usize>(&mut self, arr: &[u8; N]) -> (res: Result<(), EncodeError>)
        ensures
            final(self).start() == old(self).start(),
            res is Ok,
            final(self).bytes() == old(self).bytes() + arr@,
    {
        self.write_bytes(arr.as_slice())
    }

    /// Emit a postcard-style unsigned varint (at most 5 bytes for `u32`).
    pub fn write_varint_u32(&mut self, v: u32) -> (res: Result<(), EncodeError>)
        ensures
            final(self).start() == old(self).start(),
            res is Ok,
            final(self).bytes() == old(self).bytes() + varint_bytes(v as nat),
    {
        let ghost v0 = v as nat;
        let mut value = v;
        let mut i: usize = 0;
        proof {
            lemma_pow0(128);
            lemma_pow128_bounds();
        }
        while i < 4
            invariant
                i <= 4,
                v0 == v as nat,
                self.start() == old(self).start(),
                self.bytes() + varint_bytes(value as nat) == old(self).bytes() + varint_bytes(v0),
                value as nat * pow(128, i as nat) <= u32::MAX as nat,
                pow(128, i as nat) > 0,
            decreases 4 - i,
        {
            assert((value & 0x7F) as u8 == value % 128) by (bit_vector);
            assert(value >> 7 == value / 128) by (bit_vector);
            let chunk = (value & 0x7F) as u8;
            let ghost old_value = value as nat;
            value >>= 7;
            if value == 0 {
                self.push_byte(chunk);
                assert(varint_bytes(old_value) == seq![chunk]);
                assert(self.bytes() == old(self).bytes() + varint_bytes(v0));
                return Ok(());
            }
            assert(chunk | 0x80 == chunk + 128) by (bit_vector)
                requires
                    chunk < 128,
            ;
            let ghost before = self.bytes();
            self.push_byte(chunk | 0x80);
            proof {
                assert(varint_bytes(old_value) == seq![((old_value % 128) + 128) as u8]
                    + varint_bytes(value as nat));
                assert(self.bytes() + varint_bytes(value as nat) =~= before + varint_bytes(
                    old_value,
                ));
                lemma_pow_adds(128, i as nat, 1);
                lemma_pow1(128);
                let p = pow(128, i as nat);
                assert((value as nat) * (p * 128) <= u32::MAX as nat) by (nonlinear_arith)
                    requires
                        old_value * p <= u32::MAX as nat,
                        value as nat == old_value / 128,
                        p > 0,
                ;
            }
            i = i + 1;
        }
        proof {
            lemma_pow128_bounds();
            assert(i == 4);
            assert(value < 128) by (nonlinear_arith)
                requires
                    value as nat * pow(128, 4) <= u32::MAX as nat,
                    pow(128, 4) == 0x1000_0000,
            ;
        }
        assert(value < 128);
        assert((value & 0x7F) as u8 == value) by (bit_vector)
            requires
                value < 128,
        ;
        self.push_byte((value & 0x7F) as u8);
        Ok(())
    }

    /// Emit a postcard-style unsigned varint (at most 10 bytes for `u64`).
    pub fn write_varint_u64(&mut self, v: u64) -> (res: Result<(), EncodeError>)
        ensures
            final(self).start() == old(self).start(),
            res is Ok,
            final(self).bytes() == old(self).bytes() + varint_bytes(v as nat),
    {
        let ghost v0 = v as nat;
        let mut value = v;
        let mut i: usize = 0;
        proof {
            lemma_pow0(128);
            lemma_pow128_bounds();
        }
        while i < 9
            invariant
                i <= 9,
                v0 == v as nat,
                self.start() == old(self).start(),
                self.bytes() + varint_bytes(value as nat) == old(self).bytes() + varint_bytes(v0),
                value as nat * pow(128, i as nat) <= u64::MAX as nat,
                pow(128, i as nat) > 0,
            decreases 9 - i,
        {
            assert((value & 0x7F) as u8 == value % 128) by (bit_vector);
            assert(value >> 7 == value / 128) by (bit_vector);
            let chunk = (value & 0x7F) as u8;
            let ghost old_value = value as nat;
            value >>= 7;
            if value == 0 {
                self.push_byte(chunk);
                assert(varint_bytes(old_value) == seq![chunk]);
                assert(self.bytes() == old(self).bytes() + varint_bytes(v0));
                return Ok(());
            }
            assert(chunk | 0x80 == chunk + 128) by (bit_vector)
                requires
                    chunk < 128,
            ;
            let ghost before = self.bytes();
            self.push_byte(chunk | 0x80);
            proof {
                assert(varint_bytes(old_value) == seq![((old_value % 128) + 128) as u8]
                    + varint_bytes(value as nat));
                assert(self.bytes() + varint_bytes(value as nat) =~= before + varint_bytes(
                    old_value,
                ));
                lemma_pow_adds(128, i as nat, 1);
                lemma_pow1(128);
                let p = pow(128, i as nat);
                assert((value as nat) * (p * 128) <= u64::MAX as nat) by (nonlinear_arith)
                    requires
                        old_value * p <= u64::MAX as nat,
                        value as nat == old_value / 128,
                        p > 0,
                ;
            }
            i = i + 1;
        }
        proof {
            lemma_pow128_bounds();
            assert(i == 9);
            assert(value < 128) by (nonlinear_arith)
                requires
                    value as nat * pow(128, 9) <= u64::MAX as nat,
                    pow(128, 9) == 0x8000_0000_0000_0000,
            ;
        }
        assert(value < 128);
        assert((value & 0x7F) as u8 == value) by (bit_vector)
            requires
                value < 128,
        ;
        self.push_byte((value & 0x7F) as u8);
        Ok(())
    }

    /// Emit a postcard-style unsigned varint (at most 19 bytes for `u128`).
    pub fn write_varint_u128(&mut self, v: u128) -> (res: Result<(), EncodeError>)
        ensures
            final(self).start() == old(self).start(),
            res is Ok,
            final(self).bytes() == old(self).bytes() + varint_bytes(v as nat),
    {
        let ghost v0 = v as nat;
        let mut value = v;
        let mut i: usize = 0;
        proof {
            lemma_pow0(128);
            lemma_pow128_bounds();
        }
        while i < 18
            invariant
                i <= 18,
                v0 == v as nat,
                self.start() == old(self).start(),
                self.bytes() + varint_bytes(value as nat) == old(self).bytes() + varint_bytes(v0),
                value as nat * pow(128, i as nat) <= u128::MAX as nat,
                pow(128, i as nat) > 0,
            decreases 18 - i,
        {
            assert((value & 0x7F) as u8 == value % 128) by (bit_vector);
            assert(value >> 7 == value / 128) by (bit_vector);
            let chunk = (value & 0x7F) as u8;
            let ghost old_value = value as nat;
            value >>= 7;
            if value == 0 {
                self.push_byte(chunk);
                assert(varint_bytes(old_value) == seq![chunk]);
                assert(self.bytes() == old(self).bytes() + varint_bytes(v0));
                return Ok(());
            }
            assert(chunk | 0x80 == chunk + 128) by (bit_vector)
                requires
                    chunk < 128,
            ;
            let ghost before = self.bytes();
            self.push_byte(chunk | 0x80);
            proof {
                assert(varint_bytes(old_value) == seq![((old_value % 128) + 128) as u8]
                    + varint_bytes(value as nat));
                assert(self.bytes() + varint_bytes(value as nat) =~= before + varint_bytes(
                    old_value,
                ));
                lemma_pow_adds(128, i as nat, 1);
                lemma_pow1(128);
                let p = pow(128, i as nat);
                assert((value as nat) * (p * 128) <= u128::MAX as nat) by (nonlinear_arith)
                    requires
                        old_value * p <= u128::MAX as nat,
                        value as nat == old_value / 128,
                        p > 0,
                ;
            }
            i = i + 1;
        }
        proof {
            lemma_pow128_bounds();
            assert(i == 18);
            assert(value < 128) by (nonlinear_arith)
                requires
                    value as nat * pow(128, 18) <= u128::MAX as nat,
                    pow(128, 18) == 0x4000_0000_0000_0000_0000_0000_0000_0000,
            ;
        }
        assert(value < 128);
        assert((value & 0x7F) as u8 == value) by (bit_vector)
            requires
                value < 128,
        ;
        self.push_byte((value & 0x7F) as u8);
        Ok(())
    }

    /// Emit a varint length followed by `bytes`; a payload over `u32::MAX`
    /// bytes is refused before anything is written.
    pub fn write_seq_bytes(&mut self, bytes: &[u8]) -> (res: Result<(), EncodeError>)
        ensures
            final(self).start() == old(self).start(),
            final(self).bytes() == old(self).bytes() + spec_encode_seq_bytes(bytes@).0,
            res is Ok <==> spec_encode_seq_bytes(bytes@).1,
            res matches Err(e) ==> e is LengthOverflow,
    {
        if bytes.len() > u32::MAX as usize {
            return Err(EncodeError::LengthOverflow);
        }
        self.write_varint_u32(bytes.len() as u32)?;
        let ghost mid = self.bytes();
        let r = self.write_bytes(bytes);
        assert(self.bytes() =~= old(self).bytes() + (varint_bytes(bytes@.len()) + bytes@));
        r
    }
}

/// Encode `value` into a fresh buffer, charging its nesting against
/// `budget` as decoding the result would: it fails with a depth error when
/// fewer levels remain than the encoding nests. The budget is left as it
/// was.
pub fn encode_to_vec<T: Codec>(value: &T, budget: &mut Budget) -> (res: Result<Vec<u8>, EncodeError>)
    ensures
        *final(budget) == *old(budget),
        !T::spec_encode(value.deep_view()).1 ==> (res matches Err(e) && e is LengthOverflow),
        T::spec_encode(value.deep_view()).1 && T::spec_encode(value.deep_view()).0.len() <= isize::MAX
            && old(budget).remaining() < T::spec_need(T::spec_encode(value.deep_view()).0) ==> (res matches Err(
            e,
        ) && e == EncodeError::Budget(BudgetError::Depth)),
        T::spec_encode(value.deep_view()).1 && T::spec_fits(value.deep_view()) && old(budget).remaining()
            >= T::spec_need(T::spec_encode(value.deep_view()).0) ==> res is Ok,
        res matches Ok(buf) ==> buf@ == T::spec_encode(value.deep_view()).0,
{
    let ghost enc = T::spec_encode(value.deep_view()).0;
    let mut w = Writer::new(Vec::new());
    proof {
        assert(Seq::<u8>::empty() + enc =~= enc);
    }
    value.encode(&mut w)?;
    let buf = w.into_bytes();
    if buf.len() > isize::MAX as usize {
        return Ok(buf);
    }
    let mut probe = budget.snapshot();
    let mut reader = Reader::new(buf.as_slice());
    proof {
        if T::spec_fits(value.deep_view()) {
            T::lemma_round_trip(value.deep_view(), Seq::empty());
            assert(enc + Seq::<u8>::empty() =~= enc);
        }
    }
    let checked = T::decode(&mut reader, &mut probe);
    match checked {
        Err(DecodeError::Budget(e)) => Err(EncodeError::Budget(e)),
        _ => Ok(buf),
    }
}

} // verus!
