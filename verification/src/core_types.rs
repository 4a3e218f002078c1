//! Bit strings, source spans, file ids and calendar intervals, with their
//! wire form.
use crate::codec::{lemma_seq_bytes_round_trip, Codec};
use crate::compound::MAX_STR_BYTES;
use crate::decoder::{
    and_then, lemma_read_seq_bytes_local, lemma_read_varint_within, lemma_reads_local, spec_read_bytes,
    spec_read_seq_bytes, spec_read_varint_u32, varint_u32_round_trip, Budget, Decode, DecodeError,
    Decoded, Reader,
};
use crate::encoder::{emit, emit_then, spec_encode_seq_bytes, EncodeError, Emitted, Encode, Writer};
use crate::varint::varint_bytes;
use vstd::prelude::*;

verus! {

/// A packed source span; on the wire, its raw `u64` as a varint.
#[derive(Debug, Clone, Copy, PartialEq, Eq)]
pub struct Span(
    /// The packed representation.
    pub u64,
);

impl Span {
    /// The span with packed representation `raw`.
    pub fn from_raw_u64(raw: u64) -> (s: Span)
        ensures
            s.0 == raw,
    {
        Span(raw)
    }

    /// The packed representation.
    pub fn to_raw_u64(self) -> (raw: u64)
        ensures
            raw == self.0,
    {
        self.0
    }
}

/// Which source file a span belongs to; on the wire, a `u16` varint.
#[derive(Debug, Clone, Copy, PartialEq, Eq)]
pub struct FileId(
    /// The file's index.
    pub u16,
);

impl FileId {
    /// The id that names no file.
    pub fn none() -> (f: FileId)
        ensures
            f.0 == u16::MAX,
    {
        FileId(u16::MAX)
    }
}

/// The spans of a program, indexed by node; on the wire, a varint count of
/// at most `1 << 20`, then each span.
#[derive(Debug, Clone, PartialEq, Eq)]
pub struct SpanTable {
    /// The spans, in node order.
    pub spans: Vec<Span>,
}

impl SpanTable {
    /// How many spans the table holds.
    pub fn len(&self) -> (n: usize)
        ensures
            n == self.spans@.len(),
    {
        self.spans.len()
    }
}

/// A calendar interval: months, days and nanoseconds, kept apart because
/// their lengths vary; on the wire, the three as zig-zag varints.
#[derive(Debug, Clone, Copy, PartialEq, Eq)]
pub struct Interval {
    /// Whole months.
    pub months: i32,
    /// Whole days.
    pub days: i32,
    /// Nanoseconds.
    pub nanoseconds: i64,
}

impl Interval {
    /// The empty interval.
    pub fn zero() -> (iv: Interval)
        ensures
            iv.months == 0 && iv.days == 0 && iv.nanoseconds == 0,
    {
        Interval { months: 0, days: 0, nanoseconds: 0 }
    }

    /// The interval of `months`, `days` and `nanoseconds`.
    pub fn new(months: i32, days: i32, nanoseconds: i64) -> (iv: Interval)
        ensures
            iv.months == months,
            iv.days == days,
            iv.nanoseconds == nanoseconds,
    {
        Interval { months, days, nanoseconds }
    }
}

impl DeepView for Span {
    type V = u64;

    open spec fn deep_view(&self) -> u64 {
        self.0
    }
}

impl Encode for Span {
    open spec fn spec_encode(v: u64) -> Emitted {
        <u64 as Encode>::spec_encode(v)
    }

    fn encode(&self, writer: &mut Writer) -> (res: Result<(), EncodeError>) {
        self.0.encode(writer)
    }
}

impl Decode for Span {
    open spec fn spec_decode(s: Seq<u8>) -> Decoded<u64> {
        <u64 as Decode>::spec_decode(s)
    }

    proof fn lemma_decode_within(s: Seq<u8>) {
        <u64 as Decode>::lemma_decode_within(s);
    }

    proof fn lemma_decode_local(s: Seq<u8>, t: Seq<u8>) {
        <u64 as Decode>::lemma_decode_local(s, t);
    }

    open spec fn spec_need(s: Seq<u8>) -> nat {
        <u64 as Decode>::spec_need(s)
    }

    fn decode(reader: &mut Reader<'_>, budget: &mut Budget) -> (res: Result<Span, DecodeError>) {
        let v = <u64 as Decode>::decode(reader, budget)?;
        Ok(Span(v))
    }
}

impl Codec for Span {
    open spec fn spec_fits(v: u64) -> bool {
        <u64 as Codec>::spec_fits(v)
    }

    proof fn lemma_round_trip(v: u64, tail: Seq<u8>) {
        <u64 as Codec>::lemma_round_trip(v, tail);
    }
}

impl DeepView for FileId {
    type V = u16;

    open spec fn deep_view(&self) -> u16 {
        self.0
    }
}

impl Encode for FileId {
    open spec fn spec_encode(v: u16) -> Emitted {
        <u16 as Encode>::spec_encode(v)
    }

    fn encode(&self, writer: &mut Writer) -> (res: Result<(), EncodeError>) {
        self.0.encode(writer)
    }
}

impl Decode for FileId {
    open spec fn spec_decode(s: Seq<u8>) -> Decoded<u16> {
        <u16 as Decode>::spec_decode(s)
    }

    proof fn lemma_decode_within(s: Seq<u8>) {
        <u16 as Decode>::lemma_decode_within(s);
    }

    proof fn lemma_decode_local(s: Seq<u8>, t: Seq<u8>) {
        <u16 as Decode>::lemma_decode_local(s, t);
    }

    open spec fn spec_need(s: Seq<u8>) -> nat {
        <u16 as Decode>::spec_need(s)
    }

    fn decode(reader: &mut Reader<'_>, budget: &mut Budget) -> (res: Result<FileId, DecodeError>) {
        let v = <u16 as Decode>::decode(reader, budget)?;
        Ok(FileId(v))
    }
}

impl Codec for FileId {
    open spec fn spec_fits(v: u16) -> bool {
        <u16 as Codec>::spec_fits(v)
    }

    proof fn lemma_round_trip(v: u16, tail: Seq<u8>) {
        <u16 as Codec>::lemma_round_trip(v, tail);
    }
}

impl DeepView for SpanTable {
    type V = Seq<u64>;

    open spec fn deep_view(&self) -> Seq<u64> {
        self.spans.deep_view()
    }
}

impl Encode for SpanTable {
    open spec fn spec_encode(v: Seq<u64>) -> Emitted {
        <Vec<Span> as Encode>::spec_encode(v)
    }

    fn encode(&self, writer: &mut Writer) -> (res: Result<(), EncodeError>) {
        self.spans.encode(writer)
    }
}

impl Decode for SpanTable {
    open spec fn spec_decode(s: Seq<u8>) -> Decoded<Seq<u64>> {
        <Vec<Span> as Decode>::spec_decode(s)
    }

    proof fn lemma_decode_within(s: Seq<u8>) {
        <Vec<Span> as Decode>::lemma_decode_within(s);
    }

    proof fn lemma_decode_local(s: Seq<u8>, t: Seq<u8>) {
        <Vec<Span> as Decode>::lemma_decode_local(s, t);
    }

    open spec fn spec_need(s: Seq<u8>) -> nat {
        <Vec<Span> as Decode>::spec_need(s)
    }

    fn decode(reader: &mut Reader<'_>, budget: &mut Budget) -> (res: Result<SpanTable, DecodeError>) {
        let v = <Vec<Span> as Decode>::decode(reader, budget)?;
        Ok(SpanTable { spans: v })
    }
}

impl Codec for SpanTable {
    open spec fn spec_fits(v: Seq<u64>) -> bool {
        <Vec<Span> as Codec>::spec_fits(v)
    }

    proof fn lemma_round_trip(v: Seq<u64>, tail: Seq<u8>) {
        <Vec<Span> as Codec>::lemma_round_trip(v, tail);
    }
}

impl DeepView for Interval {
    type V = (i32, (i32, i64));

    open spec fn deep_view(&self) -> (i32, (i32, i64)) {
        (self.months, (self.days, self.nanoseconds))
    }
}

impl Encode for Interval {
    open spec fn spec_encode(v: (i32, (i32, i64))) -> Emitted {
        <(i32, (i32, i64)) as Encode>::spec_encode(v)
    }

    fn encode(&self, writer: &mut Writer) -> (res: Result<(), EncodeError>) {
        (self.months, (self.days, self.nanoseconds)).encode(writer)
    }
}

impl Decode for Interval {
    open spec fn spec_decode(s: Seq<u8>) -> Decoded<(i32, (i32, i64))> {
        <(i32, (i32, i64)) as Decode>::spec_decode(s)
    }

    proof fn lemma_decode_within(s: Seq<u8>) {
        <(i32, (i32, i64)) as Decode>::lemma_decode_within(s);
    }

    proof fn lemma_decode_local(s: Seq<u8>, t: Seq<u8>) {
        <(i32, (i32, i64)) as Decode>::lemma_decode_local(s, t);
    }

    open spec fn spec_need(s: Seq<u8>) -> nat {
        <(i32, (i32, i64)) as Decode>::spec_need(s)
    }

    fn decode(reader: &mut Reader<'_>, budget: &mut Budget) -> (res: Result<Interval, DecodeError>) {
        let v = <(i32, (i32, i64)) as Decode>::decode(reader, budget)?;
        Ok(Interval { months: v.0, days: v.1.0, nanoseconds: v.1.1 })
    }
}

impl Codec for Interval {
    open spec fn spec_fits(v: (i32, (i32, i64))) -> bool {
        <(i32, (i32, i64)) as Codec>::spec_fits(v)
    }

    proof fn lemma_round_trip(v: (i32, (i32, i64)), tail: Seq<u8>) {
        <(i32, (i32, i64)) as Codec>::lemma_round_trip(v, tail);
    }
}

/// A string of `len` bits, packed eight to a byte; on the wire, `len` as a
/// varint, then the packed bytes with a varint length.
#[derive(Debug, Clone, PartialEq, Eq)]
pub struct BitString {
    /// Number of bits.
    pub len: u32,
    /// The bits, packed eight to a byte.
    pub bytes: Vec<u8>,
}

/// What a [`BitString`] denotes.
pub struct BitStringModel {
    /// Number of bits.
    pub len: u32,
    /// The packed bytes.
    pub bytes: Seq<u8>,
}

/// How many bytes hold `len` bits.
pub open spec fn bit_bytes(len: u32) -> nat {
    (len as nat + 7) / 8
}

impl BitString {
    /// `len` bits, all clear.
    pub fn zeroes(len: u32) -> (b: BitString)
        ensures
            b.len == len,
            b.bytes@.len() == bit_bytes(len),
            forall|i: int| 0 <= i < b.bytes@.len() ==> b.bytes@[i] == 0,
    {
        let n: u64 = (len as u64 + 7) / 8;
        let mut bytes: Vec<u8> = Vec::new();
        let mut i: u64 = 0;
        while i < n
            invariant
                i <= n,
                n == (len as nat + 7) / 8,
                bytes@.len() == i,
                forall|j: int| 0 <= j < bytes@.len() ==> bytes@[j] == 0,
            decreases n - i,
        {
            bytes.push(0);
            i = i + 1;
        }
        BitString { len, bytes }
    }

    /// The bit string of `len` bits packed in `bytes`, if `bytes` holds
    /// exactly as many bytes as `len` bits take.
    pub fn try_new(len: u32, bytes: Vec<u8>) -> (r: Option<BitString>)
        ensures
            r is Some <==> bytes@.len() == bit_bytes(len),
            r matches Some(b) ==> b.len == len && b.bytes@ == bytes@,
    {
        if bytes.len() as u64 == (len as u64 + 7) / 8 {
            Some(BitString { len, bytes })
        } else {
            None
        }
    }
}

impl DeepView for BitString {
    type V = BitStringModel;

    open spec fn deep_view(&self) -> BitStringModel {
        BitStringModel { len: self.len, bytes: self.bytes@ }
    }
}

impl Encode for BitString {
    open spec fn spec_encode(m: BitStringModel) -> Emitted {
        emit_then(emit(varint_bytes(m.len as nat)), spec_encode_seq_bytes(m.bytes))
    }

    fn encode(&self, writer: &mut Writer) -> (res: Result<(), EncodeError>) {
        writer.write_varint_u32(self.len)?;
        writer.write_seq_bytes(self.bytes.as_slice())
    }
}

/// The packed bytes after bit length `len`, refused unless they are exactly
/// as many as `len` bits take.
pub open spec fn spec_decode_bit_string_bytes(len: u32, s: Seq<u8>) -> Decoded<BitStringModel> {
    and_then(
        spec_read_seq_bytes(s, MAX_STR_BYTES as nat),
        s,
        |b: Seq<u8>, rest: Seq<u8>|
            if b.len() == bit_bytes(len) {
                (Ok(BitStringModel { len, bytes: b }), 0)
            } else {
                (Err(DecodeError::Custom("BitString: declared bit length does not match byte count")), 0)
            },
    )
}

impl Decode for BitString {
    open spec fn spec_decode(s: Seq<u8>) -> Decoded<BitStringModel> {
        and_then(
            spec_read_varint_u32(s),
            s,
            |len: u32, rest: Seq<u8>| spec_decode_bit_string_bytes(len, rest),
        )
    }

    proof fn lemma_decode_within(s: Seq<u8>) {
        lemma_read_varint_within(s);
        let d = spec_read_varint_u32(s);
        lemma_read_varint_within(s.skip(d.1 as int));
    }

    proof fn lemma_decode_local(s: Seq<u8>, t: Seq<u8>) {
        lemma_read_varint_within(s);
        let d = spec_read_varint_u32(s);
        let r1 = s.skip(d.1 as int);
        lemma_read_varint_within(r1);
        let p = spec_read_seq_bytes(r1, MAX_STR_BYTES as nat);
        let t2 = r1.take(p.1 as int) + t;
        lemma_reads_local(s, t2);
        lemma_read_seq_bytes_local(r1, t, MAX_STR_BYTES as nat);
        let u = s.take((d.1 + p.1) as int) + t;
        assert(u =~= s.take(d.1 as int) + t2);
        assert(u.skip(d.1 as int) =~= t2);
    }

    open spec fn spec_need(s: Seq<u8>) -> nat {
        1
    }

    fn decode(reader: &mut Reader<'_>, budget: &mut Budget) -> (res: Result<BitString, DecodeError>) {
        let ghost r0 = *reader;
        let ghost b0 = *budget;
        budget.enter()?;
        let rl = reader.read_varint_u32();
        budget.leave(Ghost(b0));
        let len = rl?;
        let ghost r1 = *reader;
        proof {
            r0.lemma_rest_after(r1, spec_read_varint_u32(r0.rest()).1);
        }
        budget.enter()?;
        let rb = reader.read_seq_bytes(MAX_STR_BYTES);
        budget.leave(Ghost(b0));
        let bytes = rb?;
        proof {
            r1.lemma_seq_bytes_in_range(MAX_STR_BYTES as nat);
        }
        if bytes.len() as u64 != (len as u64 + 7) / 8 {
            return Err(DecodeError::Custom("BitString: declared bit length does not match byte count"));
        }
        let mut v: Vec<u8> = Vec::new();
        v.extend_from_slice(bytes);
        assert(v@ =~= bytes@);
        Ok(BitString { len, bytes: v })
    }
}

impl Codec for BitString {
    open spec fn spec_fits(m: BitStringModel) -> bool {
        &&& m.bytes.len() == bit_bytes(m.len)
        &&& m.bytes.len() <= MAX_STR_BYTES
    }

    proof fn lemma_round_trip(m: BitStringModel, tail: Seq<u8>) {
        let e2 = spec_encode_seq_bytes(m.bytes).0;
        lemma_seq_bytes_round_trip(m.bytes, tail, MAX_STR_BYTES as nat);
        varint_u32_round_trip(m.len, e2 + tail);
        let h = varint_bytes(m.len as nat);
        let s = h + e2 + tail;
        assert(s =~= h + (e2 + tail));
        assert(s.skip(h.len() as int) =~= e2 + tail);
    }
}

} // verus!

verus! {

impl Encode for [u8; 4] {
    open spec fn spec_encode(b: Seq<u8>) -> Emitted {
        emit(b)
    }

    fn encode(&self, writer: &mut Writer) -> (res: Result<(), EncodeError>) {
        assert(self.deep_view() =~= self@);
        writer.write_array(self)
    }
}

impl Decode for [u8; 4] {
    open spec fn spec_decode(s: Seq<u8>) -> Decoded<Seq<u8>> {
        spec_read_bytes(s, 4)
    }

    proof fn lemma_decode_within(s: Seq<u8>) {
    }

    proof fn lemma_decode_local(s: Seq<u8>, t: Seq<u8>) {
        assert((s.take(4) + t).take(4) =~= s.take(4));
    }

    open spec fn spec_need(s: Seq<u8>) -> nat {
        0
    }

    fn decode(reader: &mut Reader<'_>, budget: &mut Budget) -> (res: Result<[u8; 4], DecodeError>) {
        let a = reader.read_array::<4>()?;
        assert(a.deep_view() =~= a@);
        Ok(a)
    }
}

impl Codec for [u8; 4] {
    open spec fn spec_fits(b: Seq<u8>) -> bool {
        b.len() == 4
    }

    proof fn lemma_round_trip(b: Seq<u8>, tail: Seq<u8>) {
        assert((b + tail).take(4) =~= b);
    }
}

impl Encode for [u8; 8] {
    open spec fn spec_encode(b: Seq<u8>) -> Emitted {
        emit(b)
    }

    fn encode(&self, writer: &mut Writer) -> (res: Result<(), EncodeError>) {
        assert(self.deep_view() =~= self@);
        writer.write_array(self)
    }
}

impl Decode for [u8; 8] {
    open spec fn spec_decode(s: Seq<u8>) -> Decoded<Seq<u8>> {
        spec_read_bytes(s, 8)
    }

    proof fn lemma_decode_within(s: Seq<u8>) {
    }

    proof fn lemma_decode_local(s: Seq<u8>, t: Seq<u8>) {
        assert((s.take(8) + t).take(8) =~= s.take(8));
    }

    open spec fn spec_need(s: Seq<u8>) -> nat {
        0
    }

    fn decode(reader: &mut Reader<'_>, budget: &mut Budget) -> (res: Result<[u8; 8], DecodeError>) {
        let a = reader.read_array::<8>()?;
        assert(a.deep_view() =~= a@);
        Ok(a)
    }
}

impl Codec for [u8; 8] {
    open spec fn spec_fits(b: Seq<u8>) -> bool {
        b.len() == 8
    }

    proof fn lemma_round_trip(b: Seq<u8>, tail: Seq<u8>) {
        assert((b + tail).take(8) =~= b);
    }
}

impl Encode for [u8; 16] {
    open spec fn spec_encode(b: Seq<u8>) -> Emitted {
        emit(b)
    }

    fn encode(&self, writer: &mut Writer) -> (res: Result<(), EncodeError>) {
        assert(self.deep_view() =~= self@);
        writer.write_array(self)
    }
}

impl Decode for [u8; 16] {
    open spec fn spec_decode(s: Seq<u8>) -> Decoded<Seq<u8>> {
        spec_read_bytes(s, 16)
    }

    proof fn lemma_decode_within(s: Seq<u8>) {
    }

    proof fn lemma_decode_local(s: Seq<u8>, t: Seq<u8>) {
        assert((s.take(16) + t).take(16) =~= s.take(16));
    }

    open spec fn spec_need(s: Seq<u8>) -> nat {
        0
    }

    fn decode(reader: &mut Reader<'_>, budget: &mut Budget) -> (res: Result<[u8; 16], DecodeError>) {
        let a = reader.read_array::<16>()?;
        assert(a.deep_view() =~= a@);
        Ok(a)
    }
}

impl Codec for [u8; 16] {
    open spec fn spec_fits(b: Seq<u8>) -> bool {
        b.len() == 16
    }

    proof fn lemma_round_trip(b: Seq<u8>, tail: Seq<u8>) {
        assert((b + tail).take(16) =~= b);
    }
}

/// An owned run of bytes; on the wire, a varint length of at most
/// [`MAX_STR_BYTES`], then the bytes.
#[derive(Debug, Clone, PartialEq, Eq)]
pub struct Blob(
    /// The bytes.
    pub Vec<u8>,
);

impl DeepView for Blob {
    type V = Seq<u8>;

    open spec fn deep_view(&self) -> Seq<u8> {
        self.0@
    }
}

impl Encode for Blob {
    open spec fn spec_encode(b: Seq<u8>) -> Emitted {
        spec_encode_seq_bytes(b)
    }

    fn encode(&self, writer: &mut Writer) -> (res: Result<(), EncodeError>) {
        writer.write_seq_bytes(self.0.as_slice())
    }
}

impl Decode for Blob {
    open spec fn spec_decode(s: Seq<u8>) -> Decoded<Seq<u8>> {
        spec_read_seq_bytes(s, MAX_STR_BYTES as nat)
    }

    proof fn lemma_decode_within(s: Seq<u8>) {
        lemma_read_varint_within(s);
    }

    proof fn lemma_decode_local(s: Seq<u8>, t: Seq<u8>) {
        lemma_read_seq_bytes_local(s, t, MAX_STR_BYTES as nat);
    }

    open spec fn spec_need(s: Seq<u8>) -> nat {
        0
    }

    fn decode(reader: &mut Reader<'_>, budget: &mut Budget) -> (res: Result<Blob, DecodeError>) {
        let ghost r0 = *reader;
        let bytes = reader.read_seq_bytes(MAX_STR_BYTES)?;
        proof {
            r0.lemma_seq_bytes_in_range(MAX_STR_BYTES as nat);
        }
        let mut v: Vec<u8> = Vec::new();
        v.extend_from_slice(bytes);
        assert(v@ =~= bytes@);
        Ok(Blob(v))
    }
}

impl Codec for Blob {
    open spec fn spec_fits(b: Seq<u8>) -> bool {
        b.len() <= MAX_STR_BYTES
    }

    proof fn lemma_round_trip(b: Seq<u8>, tail: Seq<u8>) {
        lemma_seq_bytes_round_trip(b, tail, MAX_STR_BYTES as nat);
    }
}

} // verus!
