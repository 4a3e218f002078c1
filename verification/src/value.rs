//! Values and literals, and their wire encoding.
//!
//! A value is written as a `u32` varint discriminant followed by its
//! payload. The discriminants are stable and shared by [`Value`] and
//! [`Literal`], which have the same wire form:
//!
//! | family                      | discriminants |
//! | --------------------------- | ------------- |
//! | scalar, text and numbers    | 0 - 20        |
//! | lists, maps, ranges         | 21 - 26       |
//! | extension payload           | 27            |
//! | decimal                     | 30            |
//! | network                     | 40 - 41       |
//! | date and time               | 50 - 54       |
//! | geometry                    | 60 - 66       |
//!
//! Any other discriminant is an invalid variant. Floats are carried as their
//! little-endian IEEE-754 bytes.
use crate::codec::Codec;
use crate::compound::{spec_decode_string, spec_encode_string, MAX_SEQ_LEN};
use crate::core_types::{BitString, Blob, Interval};
use crate::decoder::{
    lemma_small_tag, and_then, decoded_as, lemma_read_varint_within, lemma_reads_local, mapped, spec_read_u8,
    spec_read_varint_u32, varint_u32_round_trip, Budget, BudgetError, Decode, DecodeError, Decoded,
    Reader,
};
use crate::encoder::{counted, emit, emit_then, EncodeError, Emitted, Encode, Writer};
use crate::network::{IpAddr, MacAddr};
use crate::scalar::{Date, DateTime, Decimal, ExtensionPayload, Line, Path, Point, Polygon, Rect, Segment, Circle, Time, TimestampTz};
use crate::varint::{lemma_varint_bytes_shape, varint_bytes};
use vstd::prelude::*;

verus! {

/// What a value denotes: the same tree, with text as characters, bytes
/// and lists as sequences, and each leaf by its own model.
pub enum ValueModel {
    Null,
    Bool(bool),
    String(Seq<char>),
    Json(Seq<char>),
    Xml(Seq<char>),
    Enum(Seq<char>),
    Bytes(Seq<u8>),
    Uuid(Seq<u8>),
    BitString(<BitString as DeepView>::V),
    Int8(<i8 as DeepView>::V),
    Int16(<i16 as DeepView>::V),
    Int32(<i32 as DeepView>::V),
    Int64(<i64 as DeepView>::V),
    Int128(<i128 as DeepView>::V),
    UInt8(<u8 as DeepView>::V),
    UInt16(<u16 as DeepView>::V),
    UInt32(<u32 as DeepView>::V),
    UInt64(<u64 as DeepView>::V),
    UInt128(<u128 as DeepView>::V),
    Float32(Seq<u8>),
    Float64(Seq<u8>),
    Array(Seq<ValueModel>),
    SetOf(Seq<ValueModel>),
    Tuple(Seq<ValueModel>),
    MapOf(Seq<EntryModel>),
    Struct(Seq<EntryModel>),
    Range(Box<RangeModel>),
    Extension(<ExtensionPayload as DeepView>::V),
    Decimal(<Decimal as DeepView>::V),
    Inet(<IpAddr as DeepView>::V),
    MacAddr(<MacAddr as DeepView>::V),
    Date(<Date as DeepView>::V),
    Time(<Time as DeepView>::V),
    DateTime(<DateTime as DeepView>::V),
    TimestampTz(<TimestampTz as DeepView>::V),
    Interval(<Interval as DeepView>::V),
    Point(<Point as DeepView>::V),
    Line(<Line as DeepView>::V),
    Segment(<Segment as DeepView>::V),
    Rect(<Rect as DeepView>::V),
    Circle(<Circle as DeepView>::V),
    Path(<Path as DeepView>::V),
    Polygon(<Polygon as DeepView>::V),
}

/// What a keyed value denotes.
pub struct EntryModel {
    pub key: Seq<char>,
    pub value: ValueModel,
}

/// What one end of a range denotes.
pub enum BoundModel {
    Included(Box<ValueModel>),
    Excluded(Box<ValueModel>),
    Unbounded,
}

/// What a range denotes.
pub struct RangeModel {
    pub start: BoundModel,
    pub end: BoundModel,
}

/// The discriminant that opens a value on the wire.
pub open spec fn value_tag(m: ValueModel) -> u32 {
    match m {
        ValueModel::Null => 0,
        ValueModel::Bool(..) => 1,
        ValueModel::String(..) => 2,
        ValueModel::Json(..) => 3,
        ValueModel::Xml(..) => 4,
        ValueModel::Enum(..) => 5,
        ValueModel::Bytes(..) => 6,
        ValueModel::Uuid(..) => 7,
        ValueModel::BitString(..) => 8,
        ValueModel::Int8(..) => 9,
        ValueModel::Int16(..) => 10,
        ValueModel::Int32(..) => 11,
        ValueModel::Int64(..) => 12,
        ValueModel::Int128(..) => 13,
        ValueModel::UInt8(..) => 14,
        ValueModel::UInt16(..) => 15,
        ValueModel::UInt32(..) => 16,
        ValueModel::UInt64(..) => 17,
        ValueModel::UInt128(..) => 18,
        ValueModel::Float32(..) => 19,
        ValueModel::Float64(..) => 20,
        ValueModel::Array(..) => 21,
        ValueModel::SetOf(..) => 22,
        ValueModel::Tuple(..) => 23,
        ValueModel::MapOf(..) => 24,
        ValueModel::Struct(..) => 25,
        ValueModel::Range(..) => 26,
        ValueModel::Extension(..) => 27,
        ValueModel::Decimal(..) => 30,
        ValueModel::Inet(..) => 40,
        ValueModel::MacAddr(..) => 41,
        ValueModel::Date(..) => 50,
        ValueModel::Time(..) => 51,
        ValueModel::DateTime(..) => 52,
        ValueModel::TimestampTz(..) => 53,
        ValueModel::Interval(..) => 54,
        ValueModel::Point(..) => 60,
        ValueModel::Line(..) => 61,
        ValueModel::Segment(..) => 62,
        ValueModel::Rect(..) => 63,
        ValueModel::Circle(..) => 64,
        ValueModel::Path(..) => 65,
        ValueModel::Polygon(..) => 66,
    }
}

/// A value's encoding: its discriminant as a varint, then its payload.
pub open spec fn spec_encode_value(m: ValueModel) -> Emitted
    decreases m, 1nat,
{
    emit_then(emit(varint_bytes(value_tag(m) as nat)), spec_encode_value_payload(m))
}

/// What follows a value's discriminant on the wire.
pub open spec fn spec_encode_value_payload(m: ValueModel) -> Emitted
    decreases m, 0nat,
{
    match m {
        ValueModel::Null => emit(Seq::empty()),
        ValueModel::Bool(x) => <bool as Encode>::spec_encode(x),
        ValueModel::String(x) => <String as Encode>::spec_encode(x),
        ValueModel::Json(x) => <String as Encode>::spec_encode(x),
        ValueModel::Xml(x) => <String as Encode>::spec_encode(x),
        ValueModel::Enum(x) => <String as Encode>::spec_encode(x),
        ValueModel::Bytes(x) => <Blob as Encode>::spec_encode(x),
        ValueModel::Uuid(x) => <[u8; 16] as Encode>::spec_encode(x),
        ValueModel::BitString(x) => <BitString as Encode>::spec_encode(x),
        ValueModel::Int8(x) => <i8 as Encode>::spec_encode(x),
        ValueModel::Int16(x) => <i16 as Encode>::spec_encode(x),
        ValueModel::Int32(x) => <i32 as Encode>::spec_encode(x),
        ValueModel::Int64(x) => <i64 as Encode>::spec_encode(x),
        ValueModel::Int128(x) => <i128 as Encode>::spec_encode(x),
        ValueModel::UInt8(x) => <u8 as Encode>::spec_encode(x),
        ValueModel::UInt16(x) => <u16 as Encode>::spec_encode(x),
        ValueModel::UInt32(x) => <u32 as Encode>::spec_encode(x),
        ValueModel::UInt64(x) => <u64 as Encode>::spec_encode(x),
        ValueModel::UInt128(x) => <u128 as Encode>::spec_encode(x),
        ValueModel::Float32(x) => <[u8; 4] as Encode>::spec_encode(x),
        ValueModel::Float64(x) => <[u8; 8] as Encode>::spec_encode(x),
        ValueModel::Array(vs) => counted(vs.len(), spec_encode_value_elems(vs)),
        ValueModel::SetOf(vs) => counted(vs.len(), spec_encode_value_elems(vs)),
        ValueModel::Tuple(vs) => counted(vs.len(), spec_encode_value_elems(vs)),
        ValueModel::MapOf(es) => counted(es.len(), spec_encode_entry_elems(es)),
        ValueModel::Struct(es) => counted(es.len(), spec_encode_entry_elems(es)),
        ValueModel::Range(r) => spec_encode_range(*r),
        ValueModel::Extension(x) => <ExtensionPayload as Encode>::spec_encode(x),
        ValueModel::Decimal(x) => <Decimal as Encode>::spec_encode(x),
        ValueModel::Inet(x) => <IpAddr as Encode>::spec_encode(x),
        ValueModel::MacAddr(x) => <MacAddr as Encode>::spec_encode(x),
        ValueModel::Date(x) => <Date as Encode>::spec_encode(x),
        ValueModel::Time(x) => <Time as Encode>::spec_encode(x),
        ValueModel::DateTime(x) => <DateTime as Encode>::spec_encode(x),
        ValueModel::TimestampTz(x) => <TimestampTz as Encode>::spec_encode(x),
        ValueModel::Interval(x) => <Interval as Encode>::spec_encode(x),
        ValueModel::Point(x) => <Point as Encode>::spec_encode(x),
        ValueModel::Line(x) => <Line as Encode>::spec_encode(x),
        ValueModel::Segment(x) => <Segment as Encode>::spec_encode(x),
        ValueModel::Rect(x) => <Rect as Encode>::spec_encode(x),
        ValueModel::Circle(x) => <Circle as Encode>::spec_encode(x),
        ValueModel::Path(x) => <Path as Encode>::spec_encode(x),
        ValueModel::Polygon(x) => <Polygon as Encode>::spec_encode(x),
    }
}

/// The encodings of `vs`, one after the other, up to the first that stops.
pub open spec fn spec_encode_value_elems(vs: Seq<ValueModel>) -> Emitted
    decreases vs, 0nat,
{
    if vs.len() == 0 {
        emit(Seq::empty())
    } else {
        emit_then(spec_encode_value_elems(vs.drop_last()), spec_encode_value(vs.last()))
    }
}

/// A keyed value's encoding: the key, then the value.
pub open spec fn spec_encode_entry(e: EntryModel) -> Emitted
    decreases e, 0nat,
{
    emit_then(spec_encode_string(e.key), spec_encode_value(e.value))
}

/// The encodings of `es`, one after the other, up to the first that stops.
pub open spec fn spec_encode_entry_elems(es: Seq<EntryModel>) -> Emitted
    decreases es, 0nat,
{
    if es.len() == 0 {
        emit(Seq::empty())
    } else {
        emit_then(spec_encode_entry_elems(es.drop_last()), spec_encode_entry(es.last()))
    }
}

/// One end of a range: `0` and the value if included, `1` and the value if
/// excluded, `2` if unbounded.
pub open spec fn spec_encode_bound(b: BoundModel) -> Emitted
    decreases b, 0nat,
{
    match b {
        BoundModel::Included(v) => emit_then(emit(seq![0u8]), spec_encode_value(*v)),
        BoundModel::Excluded(v) => emit_then(emit(seq![1u8]), spec_encode_value(*v)),
        BoundModel::Unbounded => emit(seq![2u8]),
    }
}

/// A range: its start, then its end.
pub open spec fn spec_encode_range(r: RangeModel) -> Emitted
    decreases r, 0nat,
{
    emit_then(spec_encode_bound(r.start), spec_encode_bound(r.end))
}

/// A value read from `s`, nested at most `fuel` deep. Every level of
/// nesting consumes a discriminant byte, so a `fuel` of `s.len()` never runs
/// out before the input does.
pub open spec fn spec_decode_value(s: Seq<u8>, fuel: nat) -> Decoded<ValueModel>
    decreases fuel, 0nat, 0nat,
{
    if fuel == 0 {
        (Err(DecodeError::Eof { needed: 1, had: 0 }), 0)
    } else {
        and_then(
            spec_read_varint_u32(s),
            s,
            |tag: u32, rest: Seq<u8>| spec_decode_value_payload(tag, rest, (fuel - 1) as nat),
        )
    }
}

/// Whether `tag` opens a value with no value nested in it.
pub open spec fn is_leaf_tag(tag: u32) -> bool {
    tag <= 20 || tag == 27 || tag == 30 || tag == 40 || tag == 41 || (50 <= tag <= 54) || (60 <= tag <= 66)
}

/// The payload of a value with no value nested in it.
#[verifier::opaque]
pub open spec fn spec_decode_leaf_payload(tag: u32, s: Seq<u8>) -> Decoded<ValueModel> {
    if tag == 0 {
        (Ok(ValueModel::Null), 0)
    } else if tag == 1 {
        mapped(<bool as Decode>::spec_decode(s), |x: bool| ValueModel::Bool(x))
    } else if tag == 2 {
        mapped(<String as Decode>::spec_decode(s), |x: Seq<char>| ValueModel::String(x))
    } else if tag == 3 {
        mapped(<String as Decode>::spec_decode(s), |x: Seq<char>| ValueModel::Json(x))
    } else if tag == 4 {
        mapped(<String as Decode>::spec_decode(s), |x: Seq<char>| ValueModel::Xml(x))
    } else if tag == 5 {
        mapped(<String as Decode>::spec_decode(s), |x: Seq<char>| ValueModel::Enum(x))
    } else if tag == 6 {
        mapped(<Blob as Decode>::spec_decode(s), |x: Seq<u8>| ValueModel::Bytes(x))
    } else if tag == 7 {
        mapped(<[u8; 16] as Decode>::spec_decode(s), |x: Seq<u8>| ValueModel::Uuid(x))
    } else if tag == 8 {
        mapped(<BitString as Decode>::spec_decode(s), |x: <BitString as DeepView>::V| ValueModel::BitString(x))
    } else if tag == 9 {
        mapped(<i8 as Decode>::spec_decode(s), |x: <i8 as DeepView>::V| ValueModel::Int8(x))
    } else if tag == 10 {
        mapped(<i16 as Decode>::spec_decode(s), |x: <i16 as DeepView>::V| ValueModel::Int16(x))
    } else if tag == 11 {
        mapped(<i32 as Decode>::spec_decode(s), |x: <i32 as DeepView>::V| ValueModel::Int32(x))
    } else if tag == 12 {
        mapped(<i64 as Decode>::spec_decode(s), |x: <i64 as DeepView>::V| ValueModel::Int64(x))
    } else if tag == 13 {
        mapped(<i128 as Decode>::spec_decode(s), |x: <i128 as DeepView>::V| ValueModel::Int128(x))
    } else if tag == 14 {
        mapped(<u8 as Decode>::spec_decode(s), |x: <u8 as DeepView>::V| ValueModel::UInt8(x))
    } else if tag == 15 {
        mapped(<u16 as Decode>::spec_decode(s), |x: <u16 as DeepView>::V| ValueModel::UInt16(x))
    } else if tag == 16 {
        mapped(<u32 as Decode>::spec_decode(s), |x: <u32 as DeepView>::V| ValueModel::UInt32(x))
    } else if tag == 17 {
        mapped(<u64 as Decode>::spec_decode(s), |x: <u64 as DeepView>::V| ValueModel::UInt64(x))
    } else if tag == 18 {
        mapped(<u128 as Decode>::spec_decode(s), |x: <u128 as DeepView>::V| ValueModel::UInt128(x))
    } else if tag == 19 {
        mapped(<[u8; 4] as Decode>::spec_decode(s), |x: Seq<u8>| ValueModel::Float32(x))
    } else if tag == 20 {
        mapped(<[u8; 8] as Decode>::spec_decode(s), |x: Seq<u8>| ValueModel::Float64(x))
    } else if tag == 27 {
        mapped(<ExtensionPayload as Decode>::spec_decode(s), |x: <ExtensionPayload as DeepView>::V| ValueModel::Extension(x))
    } else if tag == 30 {
        mapped(<Decimal as Decode>::spec_decode(s), |x: <Decimal as DeepView>::V| ValueModel::Decimal(x))
    } else if tag == 40 {
        mapped(<IpAddr as Decode>::spec_decode(s), |x: <IpAddr as DeepView>::V| ValueModel::Inet(x))
    } else if tag == 41 {
        mapped(<MacAddr as Decode>::spec_decode(s), |x: <MacAddr as DeepView>::V| ValueModel::MacAddr(x))
    } else if tag == 50 {
        mapped(<Date as Decode>::spec_decode(s), |x: <Date as DeepView>::V| ValueModel::Date(x))
    } else if tag == 51 {
        mapped(<Time as Decode>::spec_decode(s), |x: <Time as DeepView>::V| ValueModel::Time(x))
    } else if tag == 52 {
        mapped(<DateTime as Decode>::spec_decode(s), |x: <DateTime as DeepView>::V| ValueModel::DateTime(x))
    } else if tag == 53 {
        mapped(<TimestampTz as Decode>::spec_decode(s), |x: <TimestampTz as DeepView>::V| ValueModel::TimestampTz(x))
    } else if tag == 54 {
        mapped(<Interval as Decode>::spec_decode(s), |x: <Interval as DeepView>::V| ValueModel::Interval(x))
    } else if tag == 60 {
        mapped(<Point as Decode>::spec_decode(s), |x: <Point as DeepView>::V| ValueModel::Point(x))
    } else if tag == 61 {
        mapped(<Line as Decode>::spec_decode(s), |x: <Line as DeepView>::V| ValueModel::Line(x))
    } else if tag == 62 {
        mapped(<Segment as Decode>::spec_decode(s), |x: <Segment as DeepView>::V| ValueModel::Segment(x))
    } else if tag == 63 {
        mapped(<Rect as Decode>::spec_decode(s), |x: <Rect as DeepView>::V| ValueModel::Rect(x))
    } else if tag == 64 {
        mapped(<Circle as Decode>::spec_decode(s), |x: <Circle as DeepView>::V| ValueModel::Circle(x))
    } else if tag == 65 {
        mapped(<Path as Decode>::spec_decode(s), |x: <Path as DeepView>::V| ValueModel::Path(x))
    } else if tag == 66 {
        mapped(<Polygon as Decode>::spec_decode(s), |x: <Polygon as DeepView>::V| ValueModel::Polygon(x))
    } else {
        (Err(DecodeError::InvalidVariant { kind: "Value", seen: tag }), 0)
    }
}

/// The payload that follows discriminant `tag`.
pub open spec fn spec_decode_value_payload(tag: u32, s: Seq<u8>, fuel: nat) -> Decoded<ValueModel>
    decreases fuel, 5nat, 0nat,
{
    if is_leaf_tag(tag) {
        spec_decode_leaf_payload(tag, s)
    } else if tag == 21 {
        mapped(spec_decode_value_list(s, fuel), |vs: Seq<ValueModel>| ValueModel::Array(vs))
    } else if tag == 22 {
        mapped(spec_decode_value_list(s, fuel), |vs: Seq<ValueModel>| ValueModel::SetOf(vs))
    } else if tag == 23 {
        mapped(spec_decode_value_list(s, fuel), |vs: Seq<ValueModel>| ValueModel::Tuple(vs))
    } else if tag == 24 {
        mapped(spec_decode_entry_list(s, fuel), |es: Seq<EntryModel>| ValueModel::MapOf(es))
    } else if tag == 25 {
        mapped(spec_decode_entry_list(s, fuel), |es: Seq<EntryModel>| ValueModel::Struct(es))
    } else if tag == 26 {
        mapped(spec_decode_range(s, fuel), |r: RangeModel| ValueModel::Range(Box::new(r)))
    } else {
        (Err(DecodeError::InvalidVariant { kind: "Value", seen: tag }), 0)
    }
}

/// A `u32` count of at most [`MAX_SEQ_LEN`], then that many values.
pub open spec fn spec_decode_value_list(s: Seq<u8>, fuel: nat) -> Decoded<Seq<ValueModel>>
    decreases fuel, 3nat, 0nat,
{
    and_then(
        spec_read_varint_u32(s),
        s,
        |n: u32, rest: Seq<u8>|
            if n > MAX_SEQ_LEN {
                (Err(DecodeError::LengthOverflow), 0)
            } else {
                spec_decode_value_elems(rest, n as nat, fuel)
            },
    )
}

/// `n` values, one after the other.
pub open spec fn spec_decode_value_elems(s: Seq<u8>, n: nat, fuel: nat) -> Decoded<Seq<ValueModel>>
    decreases fuel, 2nat, n,
{
    if n == 0 {
        (Ok(Seq::empty()), 0)
    } else {
        and_then(
            spec_decode_value_elems(s, (n - 1) as nat, fuel),
            s,
            |prefix: Seq<ValueModel>, rest: Seq<u8>|
                mapped(spec_decode_value(rest, fuel), |v: ValueModel| prefix.push(v)),
        )
    }
}

/// A keyed value: the key, then the value.
pub open spec fn spec_decode_entry(s: Seq<u8>, fuel: nat) -> Decoded<EntryModel>
    decreases fuel, 1nat, 0nat,
{
    and_then(
        spec_decode_string(s),
        s,
        |key: Seq<char>, rest: Seq<u8>|
            mapped(spec_decode_value(rest, fuel), |v: ValueModel| EntryModel { key, value: v }),
    )
}

/// A `u32` count of at most [`MAX_SEQ_LEN`], then that many keyed values.
pub open spec fn spec_decode_entry_list(s: Seq<u8>, fuel: nat) -> Decoded<Seq<EntryModel>>
    decreases fuel, 3nat, 0nat,
{
    and_then(
        spec_read_varint_u32(s),
        s,
        |n: u32, rest: Seq<u8>|
            if n > MAX_SEQ_LEN {
                (Err(DecodeError::LengthOverflow), 0)
            } else {
                spec_decode_entry_elems(rest, n as nat, fuel)
            },
    )
}

/// `n` keyed values, one after the other.
pub open spec fn spec_decode_entry_elems(s: Seq<u8>, n: nat, fuel: nat) -> Decoded<Seq<EntryModel>>
    decreases fuel, 2nat, n,
{
    if n == 0 {
        (Ok(Seq::empty()), 0)
    } else {
        and_then(
            spec_decode_entry_elems(s, (n - 1) as nat, fuel),
            s,
            |prefix: Seq<EntryModel>, rest: Seq<u8>|
                mapped(spec_decode_entry(rest, fuel), |e: EntryModel| prefix.push(e)),
        )
    }
}

/// One end of a range.
pub open spec fn spec_decode_bound(s: Seq<u8>, fuel: nat) -> Decoded<BoundModel>
    decreases fuel, 1nat, 0nat,
{
    and_then(
        spec_read_u8(s),
        s,
        |t: u8, rest: Seq<u8>|
            if t == 0 {
                mapped(spec_decode_value(rest, fuel), |v: ValueModel| BoundModel::Included(Box::new(v)))
            } else if t == 1 {
                mapped(spec_decode_value(rest, fuel), |v: ValueModel| BoundModel::Excluded(Box::new(v)))
            } else if t == 2 {
                (Ok(BoundModel::Unbounded), 0)
            } else {
                (Err(DecodeError::InvalidVariant { kind: "Bound", seen: t as u32 }), 0)
            },
    )
}

/// A range: its start, then its end.
pub open spec fn spec_decode_range(s: Seq<u8>, fuel: nat) -> Decoded<RangeModel>
    decreases fuel, 2nat, 0nat,
{
    and_then(
        spec_decode_bound(s, fuel),
        s,
        |start: BoundModel, rest: Seq<u8>|
            mapped(spec_decode_bound(rest, fuel), |end: BoundModel| RangeModel { start, end }),
    )
}

pub proof fn lemma_value_elems_stopped(vs: Seq<ValueModel>, i: nat)
    requires
        i <= vs.len(),
        !spec_encode_value_elems(vs.take(i as int)).1,
    ensures
        spec_encode_value_elems(vs) == spec_encode_value_elems(vs.take(i as int)),
    decreases vs.len() - i,
{
    if i < vs.len() {
        assert(vs.take(i + 1 as int).drop_last() =~= vs.take(i as int));
        lemma_value_elems_stopped(vs, i + 1);
    } else {
        assert(vs.take(i as int) =~= vs);
    }
}

pub proof fn lemma_entry_elems_stopped(es: Seq<EntryModel>, i: nat)
    requires
        i <= es.len(),
        !spec_encode_entry_elems(es.take(i as int)).1,
    ensures
        spec_encode_entry_elems(es) == spec_encode_entry_elems(es.take(i as int)),
    decreases es.len() - i,
{
    if i < es.len() {
        assert(es.take(i + 1 as int).drop_last() =~= es.take(i as int));
        lemma_entry_elems_stopped(es, i + 1);
    } else {
        assert(es.take(i as int) =~= es);
    }
}

/// The values the decoder takes back: every list within [`MAX_SEQ_LEN`],
/// and every leaf within its own limits.
pub open spec fn value_fits(m: ValueModel) -> bool
    decreases m, 1nat,
{
    match m {
        ValueModel::Bool(x) => <bool as Codec>::spec_fits(x),
        ValueModel::String(x) => <String as Codec>::spec_fits(x),
        ValueModel::Json(x) => <String as Codec>::spec_fits(x),
        ValueModel::Xml(x) => <String as Codec>::spec_fits(x),
        ValueModel::Enum(x) => <String as Codec>::spec_fits(x),
        ValueModel::Bytes(x) => <Blob as Codec>::spec_fits(x),
        ValueModel::Uuid(x) => <[u8; 16] as Codec>::spec_fits(x),
        ValueModel::BitString(x) => <BitString as Codec>::spec_fits(x),
        ValueModel::Int8(x) => <i8 as Codec>::spec_fits(x),
        ValueModel::Int16(x) => <i16 as Codec>::spec_fits(x),
        ValueModel::Int32(x) => <i32 as Codec>::spec_fits(x),
        ValueModel::Int64(x) => <i64 as Codec>::spec_fits(x),
        ValueModel::Int128(x) => <i128 as Codec>::spec_fits(x),
        ValueModel::UInt8(x) => <u8 as Codec>::spec_fits(x),
        ValueModel::UInt16(x) => <u16 as Codec>::spec_fits(x),
        ValueModel::UInt32(x) => <u32 as Codec>::spec_fits(x),
        ValueModel::UInt64(x) => <u64 as Codec>::spec_fits(x),
        ValueModel::UInt128(x) => <u128 as Codec>::spec_fits(x),
        ValueModel::Float32(x) => <[u8; 4] as Codec>::spec_fits(x),
        ValueModel::Float64(x) => <[u8; 8] as Codec>::spec_fits(x),
        ValueModel::Array(vs) => values_fit(vs),
        ValueModel::SetOf(vs) => values_fit(vs),
        ValueModel::Tuple(vs) => values_fit(vs),
        ValueModel::MapOf(es) => entries_fit(es),
        ValueModel::Struct(es) => entries_fit(es),
        ValueModel::Range(r) => range_fits(*r),
        ValueModel::Extension(x) => <ExtensionPayload as Codec>::spec_fits(x),
        ValueModel::Decimal(x) => <Decimal as Codec>::spec_fits(x),
        ValueModel::Inet(x) => <IpAddr as Codec>::spec_fits(x),
        ValueModel::MacAddr(x) => <MacAddr as Codec>::spec_fits(x),
        ValueModel::Date(x) => <Date as Codec>::spec_fits(x),
        ValueModel::Time(x) => <Time as Codec>::spec_fits(x),
        ValueModel::DateTime(x) => <DateTime as Codec>::spec_fits(x),
        ValueModel::TimestampTz(x) => <TimestampTz as Codec>::spec_fits(x),
        ValueModel::Interval(x) => <Interval as Codec>::spec_fits(x),
        ValueModel::Point(x) => <Point as Codec>::spec_fits(x),
        ValueModel::Line(x) => <Line as Codec>::spec_fits(x),
        ValueModel::Segment(x) => <Segment as Codec>::spec_fits(x),
        ValueModel::Rect(x) => <Rect as Codec>::spec_fits(x),
        ValueModel::Circle(x) => <Circle as Codec>::spec_fits(x),
        ValueModel::Path(x) => <Path as Codec>::spec_fits(x),
        ValueModel::Polygon(x) => <Polygon as Codec>::spec_fits(x),
        ValueModel::Null => true,
    }
}

/// Every value of `vs` fits, and so does their count.
pub open spec fn values_fit(vs: Seq<ValueModel>) -> bool
    decreases vs, 0nat,
{
    &&& vs.len() <= MAX_SEQ_LEN
    &&& forall|i: int| 0 <= i < vs.len() ==> value_fits(#[trigger] vs[i])
}

/// A keyed value fits when its key and value do.
pub open spec fn entry_fits(e: EntryModel) -> bool
    decreases e, 1nat,
{
    <String as Codec>::spec_fits(e.key) && value_fits(e.value)
}

/// Every keyed value of `es` fits, and so does their count.
pub open spec fn entries_fit(es: Seq<EntryModel>) -> bool
    decreases es, 0nat,
{
    &&& es.len() <= MAX_SEQ_LEN
    &&& forall|i: int| 0 <= i < es.len() ==> entry_fits(#[trigger] es[i])
}

/// One end of a range fits when its value does.
pub open spec fn bound_fits(b: BoundModel) -> bool
    decreases b, 0nat,
{
    match b {
        BoundModel::Included(v) => value_fits(*v),
        BoundModel::Excluded(v) => value_fits(*v),
        BoundModel::Unbounded => true,
    }
}

/// A range fits when both its ends do.
pub open spec fn range_fits(r: RangeModel) -> bool
    decreases r, 0nat,
{
    bound_fits(r.start) && bound_fits(r.end)
}

/// Reading a value never consumes more than it is given.
pub proof fn lemma_value_within(s: Seq<u8>, fuel: nat)
    ensures
        spec_decode_value(s, fuel).1 <= s.len(),
    decreases fuel, 0nat, 0nat,
{
    if fuel > 0 {
        lemma_read_varint_within(s);
        let d = spec_read_varint_u32(s);
        if let Ok(tag) = d.0 {
            lemma_value_payload_within(tag, s.skip(d.1 as int), (fuel - 1) as nat);
        }
    }
}

#[verifier::rlimit(80)]
proof fn lemma_leaf_within(tag: u32, s: Seq<u8>)
    ensures
        spec_decode_leaf_payload(tag, s).1 <= s.len(),
{
    reveal(spec_decode_leaf_payload);
    if tag == 1 {
        <bool as Decode>::lemma_decode_within(s);
    } else if tag == 2 {
        <String as Decode>::lemma_decode_within(s);
    } else if tag == 3 {
        <String as Decode>::lemma_decode_within(s);
    } else if tag == 4 {
        <String as Decode>::lemma_decode_within(s);
    } else if tag == 5 {
        <String as Decode>::lemma_decode_within(s);
    } else if tag == 6 {
        <Blob as Decode>::lemma_decode_within(s);
    } else if tag == 7 {
        <[u8; 16] as Decode>::lemma_decode_within(s);
    } else if tag == 8 {
        <BitString as Decode>::lemma_decode_within(s);
    } else if tag == 9 {
        <i8 as Decode>::lemma_decode_within(s);
    } else if tag == 10 {
        <i16 as Decode>::lemma_decode_within(s);
    } else if tag == 11 {
        <i32 as Decode>::lemma_decode_within(s);
    } else if tag == 12 {
        <i64 as Decode>::lemma_decode_within(s);
    } else if tag == 13 {
        <i128 as Decode>::lemma_decode_within(s);
    } else if tag == 14 {
        <u8 as Decode>::lemma_decode_within(s);
    } else if tag == 15 {
        <u16 as Decode>::lemma_decode_within(s);
    } else if tag == 16 {
        <u32 as Decode>::lemma_decode_within(s);
    } else if tag == 17 {
        <u64 as Decode>::lemma_decode_within(s);
    } else if tag == 18 {
        <u128 as Decode>::lemma_decode_within(s);
    } else if tag == 19 {
        <[u8; 4] as Decode>::lemma_decode_within(s);
    } else if tag == 20 {
        <[u8; 8] as Decode>::lemma_decode_within(s);
    } else if tag == 27 {
        <ExtensionPayload as Decode>::lemma_decode_within(s);
    } else if tag == 30 {
        <Decimal as Decode>::lemma_decode_within(s);
    } else if tag == 40 {
        <IpAddr as Decode>::lemma_decode_within(s);
    } else if tag == 41 {
        <MacAddr as Decode>::lemma_decode_within(s);
    } else if tag == 50 {
        <Date as Decode>::lemma_decode_within(s);
    } else if tag == 51 {
        <Time as Decode>::lemma_decode_within(s);
    } else if tag == 52 {
        <DateTime as Decode>::lemma_decode_within(s);
    } else if tag == 53 {
        <TimestampTz as Decode>::lemma_decode_within(s);
    } else if tag == 54 {
        <Interval as Decode>::lemma_decode_within(s);
    } else if tag == 60 {
        <Point as Decode>::lemma_decode_within(s);
    } else if tag == 61 {
        <Line as Decode>::lemma_decode_within(s);
    } else if tag == 62 {
        <Segment as Decode>::lemma_decode_within(s);
    } else if tag == 63 {
        <Rect as Decode>::lemma_decode_within(s);
    } else if tag == 64 {
        <Circle as Decode>::lemma_decode_within(s);
    } else if tag == 65 {
        <Path as Decode>::lemma_decode_within(s);
    } else if tag == 66 {
        <Polygon as Decode>::lemma_decode_within(s);
    }
}

proof fn lemma_value_payload_within(tag: u32, s: Seq<u8>, fuel: nat)
    ensures
        spec_decode_value_payload(tag, s, fuel).1 <= s.len(),
    decreases fuel, 5nat, 0nat,
{
    lemma_leaf_within(tag, s);
    lemma_value_list_within(s, fuel);
    lemma_entry_list_within(s, fuel);
    lemma_range_within(s, fuel);
}

proof fn lemma_value_elems_within(s: Seq<u8>, n: nat, fuel: nat)
    ensures
        spec_decode_value_elems(s, n, fuel).1 <= s.len(),
    decreases fuel, 2nat, n,
{
    if n > 0 {
        lemma_value_elems_within(s, (n - 1) as nat, fuel);
        let d = spec_decode_value_elems(s, (n - 1) as nat, fuel);
        lemma_value_within(s.skip(d.1 as int), fuel);
    }
}

proof fn lemma_value_list_within(s: Seq<u8>, fuel: nat)
    ensures
        spec_decode_value_list(s, fuel).1 <= s.len(),
    decreases fuel, 3nat, 0nat,
{
    lemma_read_varint_within(s);
    let d = spec_read_varint_u32(s);
    if let Ok(n) = d.0 {
        lemma_value_elems_within(s.skip(d.1 as int), n as nat, fuel);
    }
}

proof fn lemma_entry_within(s: Seq<u8>, fuel: nat)
    ensures
        spec_decode_entry(s, fuel).1 <= s.len(),
    decreases fuel, 1nat, 0nat,
{
    <String as Decode>::lemma_decode_within(s);
    let q = spec_decode_string(s);
    lemma_value_within(s.skip(q.1 as int), fuel);
}

proof fn lemma_entry_elems_within(s: Seq<u8>, n: nat, fuel: nat)
    ensures
        spec_decode_entry_elems(s, n, fuel).1 <= s.len(),
    decreases fuel, 2nat, n,
{
    if n > 0 {
        lemma_entry_elems_within(s, (n - 1) as nat, fuel);
        let d = spec_decode_entry_elems(s, (n - 1) as nat, fuel);
        lemma_entry_within(s.skip(d.1 as int), fuel);
    }
}

proof fn lemma_entry_list_within(s: Seq<u8>, fuel: nat)
    ensures
        spec_decode_entry_list(s, fuel).1 <= s.len(),
    decreases fuel, 3nat, 0nat,
{
    lemma_read_varint_within(s);
    let d = spec_read_varint_u32(s);
    if let Ok(n) = d.0 {
        lemma_entry_elems_within(s.skip(d.1 as int), n as nat, fuel);
    }
}

proof fn lemma_bound_within(s: Seq<u8>, fuel: nat)
    ensures
        spec_decode_bound(s, fuel).1 <= s.len(),
    decreases fuel, 1nat, 0nat,
{
    if s.len() > 0 {
        lemma_value_within(s.skip(1), fuel);
    }
}

proof fn lemma_range_within(s: Seq<u8>, fuel: nat)
    ensures
        spec_decode_range(s, fuel).1 <= s.len(),
    decreases fuel, 2nat, 0nat,
{
    lemma_bound_within(s, fuel);
    let d = spec_decode_bound(s, fuel);
    lemma_bound_within(s.skip(d.1 as int), fuel);
}

/// Decoding an encoded value gives it back and consumes exactly its bytes,
/// whatever follows them, given fuel for at least its length.
pub proof fn lemma_value_round_trip(m: ValueModel, tail: Seq<u8>, fuel: nat)
    requires
        value_fits(m),
        spec_encode_value(m).0.len() <= fuel,
    ensures
        spec_encode_value(m).1,
        spec_decode_value(spec_encode_value(m).0 + tail, fuel) == (
            Ok::<ValueModel, DecodeError>(m),
            spec_encode_value(m).0.len(),
        ),
    decreases m, 1nat,
{
    let tag = value_tag(m);
    let tb = varint_bytes(tag as nat);
    let p = spec_encode_value_payload(m).0;
    lemma_varint_bytes_shape(tag as nat);
    lemma_value_payload_round_trip(m, tail, (fuel - 1) as nat);
    varint_u32_round_trip(tag, p + tail);
    let s = tb + p + tail;
    assert(s =~= tb + (p + tail));
    assert(s.skip(tb.len() as int) =~= p + tail);
}

/// Whether a value holds other values.
pub open spec fn is_nesting_value(m: ValueModel) -> bool {
    m is Array || m is SetOf || m is Tuple || m is MapOf || m is Struct || m is Range || m is Null
}

#[verifier::rlimit(80)]
proof fn lemma_value_payload_round_trip(m: ValueModel, tail: Seq<u8>, fuel: nat)
    requires
        value_fits(m),
        spec_encode_value_payload(m).0.len() <= fuel,
    ensures
        spec_encode_value_payload(m).1,
        spec_decode_value_payload(value_tag(m), spec_encode_value_payload(m).0 + tail, fuel) == (
            Ok::<ValueModel, DecodeError>(m),
            spec_encode_value_payload(m).0.len(),
        ),
    decreases m, 0nat,
{
    match m {
        ValueModel::Array(vs) => {
            assert(!is_leaf_tag(value_tag(m)));
            lemma_value_list_round_trip(vs, tail, fuel);
        },
        ValueModel::SetOf(vs) => {
            assert(!is_leaf_tag(value_tag(m)));
            lemma_value_list_round_trip(vs, tail, fuel);
        },
        ValueModel::Tuple(vs) => {
            assert(!is_leaf_tag(value_tag(m)));
            lemma_value_list_round_trip(vs, tail, fuel);
        },
        ValueModel::MapOf(es) => {
            assert(!is_leaf_tag(value_tag(m)));
            lemma_entry_list_round_trip(es, tail, fuel);
        },
        ValueModel::Struct(es) => {
            assert(!is_leaf_tag(value_tag(m)));
            lemma_entry_list_round_trip(es, tail, fuel);
        },
        ValueModel::Range(r) => {
            assert(!is_leaf_tag(value_tag(m)));
            lemma_range_round_trip(*r, tail, fuel);
        },
        ValueModel::Null => {
            reveal(spec_decode_leaf_payload);
            assert(Seq::<u8>::empty() + tail =~= tail);
        },
        _ => {
            lemma_leaf_round_trip(m, tail);
        },
    }
}

#[verifier::rlimit(80)]
proof fn lemma_leaf_round_trip(m: ValueModel, tail: Seq<u8>)
    requires
        value_fits(m),
        !is_nesting_value(m),
    ensures
        spec_encode_value_payload(m).1,
        spec_decode_leaf_payload(value_tag(m), spec_encode_value_payload(m).0 + tail) == (
            Ok::<ValueModel, DecodeError>(m),
            spec_encode_value_payload(m).0.len(),
        ),
        is_leaf_tag(value_tag(m)),
{
    reveal(spec_decode_leaf_payload);
    match m {
        ValueModel::Bool(x) => {
            <bool as Codec>::lemma_round_trip(x, tail);
        },
        ValueModel::String(x) => {
            <String as Codec>::lemma_round_trip(x, tail);
        },
        ValueModel::Json(x) => {
            <String as Codec>::lemma_round_trip(x, tail);
        },
        ValueModel::Xml(x) => {
            <String as Codec>::lemma_round_trip(x, tail);
        },
        ValueModel::Enum(x) => {
            <String as Codec>::lemma_round_trip(x, tail);
        },
        ValueModel::Bytes(x) => {
            <Blob as Codec>::lemma_round_trip(x, tail);
        },
        ValueModel::Uuid(x) => {
            <[u8; 16] as Codec>::lemma_round_trip(x, tail);
        },
        ValueModel::BitString(x) => {
            <BitString as Codec>::lemma_round_trip(x, tail);
        },
        ValueModel::Int8(x) => {
            <i8 as Codec>::lemma_round_trip(x, tail);
        },
        ValueModel::Int16(x) => {
            <i16 as Codec>::lemma_round_trip(x, tail);
        },
        ValueModel::Int32(x) => {
            <i32 as Codec>::lemma_round_trip(x, tail);
        },
        ValueModel::Int64(x) => {
            <i64 as Codec>::lemma_round_trip(x, tail);
        },
        ValueModel::Int128(x) => {
            <i128 as Codec>::lemma_round_trip(x, tail);
        },
        ValueModel::UInt8(x) => {
            <u8 as Codec>::lemma_round_trip(x, tail);
        },
        ValueModel::UInt16(x) => {
            <u16 as Codec>::lemma_round_trip(x, tail);
        },
        ValueModel::UInt32(x) => {
            <u32 as Codec>::lemma_round_trip(x, tail);
        },
        ValueModel::UInt64(x) => {
            <u64 as Codec>::lemma_round_trip(x, tail);
        },
        ValueModel::UInt128(x) => {
            <u128 as Codec>::lemma_round_trip(x, tail);
        },
        ValueModel::Float32(x) => {
            <[u8; 4] as Codec>::lemma_round_trip(x, tail);
        },
        ValueModel::Float64(x) => {
            <[u8; 8] as Codec>::lemma_round_trip(x, tail);
        },
        ValueModel::Extension(x) => {
            <ExtensionPayload as Codec>::lemma_round_trip(x, tail);
        },
        ValueModel::Decimal(x) => {
            <Decimal as Codec>::lemma_round_trip(x, tail);
        },
        ValueModel::Inet(x) => {
            <IpAddr as Codec>::lemma_round_trip(x, tail);
        },
        ValueModel::MacAddr(x) => {
            <MacAddr as Codec>::lemma_round_trip(x, tail);
        },
        ValueModel::Date(x) => {
            <Date as Codec>::lemma_round_trip(x, tail);
        },
        ValueModel::Time(x) => {
            <Time as Codec>::lemma_round_trip(x, tail);
        },
        ValueModel::DateTime(x) => {
            <DateTime as Codec>::lemma_round_trip(x, tail);
        },
        ValueModel::TimestampTz(x) => {
            <TimestampTz as Codec>::lemma_round_trip(x, tail);
        },
        ValueModel::Interval(x) => {
            <Interval as Codec>::lemma_round_trip(x, tail);
        },
        ValueModel::Point(x) => {
            <Point as Codec>::lemma_round_trip(x, tail);
        },
        ValueModel::Line(x) => {
            <Line as Codec>::lemma_round_trip(x, tail);
        },
        ValueModel::Segment(x) => {
            <Segment as Codec>::lemma_round_trip(x, tail);
        },
        ValueModel::Rect(x) => {
            <Rect as Codec>::lemma_round_trip(x, tail);
        },
        ValueModel::Circle(x) => {
            <Circle as Codec>::lemma_round_trip(x, tail);
        },
        ValueModel::Path(x) => {
            <Path as Codec>::lemma_round_trip(x, tail);
        },
        ValueModel::Polygon(x) => {
            <Polygon as Codec>::lemma_round_trip(x, tail);
        },
        _ => {},
    }
}

proof fn lemma_value_elems_round_trip(ms: Seq<ValueModel>, tail: Seq<u8>, fuel: nat)
    requires
        forall|i: int| 0 <= i < ms.len() ==> value_fits(#[trigger] ms[i]),
        spec_encode_value_elems(ms).0.len() <= fuel,
    ensures
        spec_encode_value_elems(ms).1,
        spec_decode_value_elems(spec_encode_value_elems(ms).0 + tail, ms.len(), fuel) == (
            Ok::<Seq<ValueModel>, DecodeError>(ms),
            spec_encode_value_elems(ms).0.len(),
        ),
    decreases ms, 0nat,
{
    if ms.len() > 0 {
        let init = ms.drop_last();
        let last = ms.last();
        let ei = spec_encode_value_elems(init).0;
        let el = spec_encode_value(last).0;
        assert(value_fits(ms[ms.len() - 1]));
        assert forall|i: int| 0 <= i < init.len() implies value_fits(#[trigger] init[i]) by {
            assert(init[i] == ms[i]);
        }
        lemma_value_elems_round_trip(init, el + tail, fuel);
        lemma_value_round_trip(last, tail, fuel);
        assert(spec_encode_value_elems(ms).0 == ei + el);
        let s = ei + el + tail;
        assert(s =~= ei + (el + tail));
        assert(s.skip(ei.len() as int) =~= el + tail);
        assert(init.push(last) =~= ms);
    } else {
        assert(Seq::<u8>::empty() + tail =~= tail);
        assert(ms =~= Seq::<ValueModel>::empty());
    }
}

proof fn lemma_value_list_round_trip(ms: Seq<ValueModel>, tail: Seq<u8>, fuel: nat)
    requires
        values_fit(ms),
        counted(ms.len(), spec_encode_value_elems(ms)).0.len() <= fuel,
    ensures
        counted(ms.len(), spec_encode_value_elems(ms)).1,
        spec_decode_value_list(counted(ms.len(), spec_encode_value_elems(ms)).0 + tail, fuel) == (
            Ok::<Seq<ValueModel>, DecodeError>(ms),
            counted(ms.len(), spec_encode_value_elems(ms)).0.len(),
        ),
    decreases ms, 1nat,
{
    let e = spec_encode_value_elems(ms).0;
    let h = varint_bytes(ms.len());
    lemma_value_elems_round_trip(ms, tail, fuel);
    varint_u32_round_trip(ms.len() as u32, e + tail);
    let s = h + e + tail;
    assert(s =~= h + (e + tail));
    assert(s.skip(h.len() as int) =~= e + tail);
}

proof fn lemma_entry_round_trip(f: EntryModel, tail: Seq<u8>, fuel: nat)
    requires
        entry_fits(f),
        spec_encode_entry(f).0.len() <= fuel,
    ensures
        spec_encode_entry(f).1,
        spec_decode_entry(spec_encode_entry(f).0 + tail, fuel) == (
            Ok::<EntryModel, DecodeError>(f),
            spec_encode_entry(f).0.len(),
        ),
    decreases f, 0nat,
{
    let en = spec_encode_string(f.key).0;
    let ev = spec_encode_value(f.value).0;
    lemma_value_round_trip(f.value, tail, fuel);
    <String as Codec>::lemma_round_trip(f.key, ev + tail);
    let s = en + ev + tail;
    assert(s =~= en + (ev + tail));
    assert(s.skip(en.len() as int) =~= ev + tail);
}

proof fn lemma_entry_elems_round_trip(ms: Seq<EntryModel>, tail: Seq<u8>, fuel: nat)
    requires
        forall|i: int| 0 <= i < ms.len() ==> entry_fits(#[trigger] ms[i]),
        spec_encode_entry_elems(ms).0.len() <= fuel,
    ensures
        spec_encode_entry_elems(ms).1,
        spec_decode_entry_elems(spec_encode_entry_elems(ms).0 + tail, ms.len(), fuel) == (
            Ok::<Seq<EntryModel>, DecodeError>(ms),
            spec_encode_entry_elems(ms).0.len(),
        ),
    decreases ms, 0nat,
{
    if ms.len() > 0 {
        let init = ms.drop_last();
        let last = ms.last();
        let ei = spec_encode_entry_elems(init).0;
        let el = spec_encode_entry(last).0;
        assert(entry_fits(ms[ms.len() - 1]));
        assert forall|i: int| 0 <= i < init.len() implies entry_fits(#[trigger] init[i]) by {
            assert(init[i] == ms[i]);
        }
        lemma_entry_elems_round_trip(init, el + tail, fuel);
        lemma_entry_round_trip(last, tail, fuel);
        assert(spec_encode_entry_elems(ms).0 == ei + el);
        let s = ei + el + tail;
        assert(s =~= ei + (el + tail));
        assert(s.skip(ei.len() as int) =~= el + tail);
        assert(init.push(last) =~= ms);
    } else {
        assert(Seq::<u8>::empty() + tail =~= tail);
        assert(ms =~= Seq::<EntryModel>::empty());
    }
}

proof fn lemma_entry_list_round_trip(ms: Seq<EntryModel>, tail: Seq<u8>, fuel: nat)
    requires
        entries_fit(ms),
        counted(ms.len(), spec_encode_entry_elems(ms)).0.len() <= fuel,
    ensures
        counted(ms.len(), spec_encode_entry_elems(ms)).1,
        spec_decode_entry_list(counted(ms.len(), spec_encode_entry_elems(ms)).0 + tail, fuel) == (
            Ok::<Seq<EntryModel>, DecodeError>(ms),
            counted(ms.len(), spec_encode_entry_elems(ms)).0.len(),
        ),
    decreases ms, 1nat,
{
    let e = spec_encode_entry_elems(ms).0;
    let h = varint_bytes(ms.len());
    lemma_entry_elems_round_trip(ms, tail, fuel);
    varint_u32_round_trip(ms.len() as u32, e + tail);
    let s = h + e + tail;
    assert(s =~= h + (e + tail));
    assert(s.skip(h.len() as int) =~= e + tail);
}

proof fn lemma_bound_round_trip(b: BoundModel, tail: Seq<u8>, fuel: nat)
    requires
        bound_fits(b),
        spec_encode_bound(b).0.len() <= fuel,
    ensures
        spec_encode_bound(b).1,
        spec_decode_bound(spec_encode_bound(b).0 + tail, fuel) == (
            Ok::<BoundModel, DecodeError>(b),
            spec_encode_bound(b).0.len(),
        ),
    decreases b, 0nat,
{
    match b {
        BoundModel::Included(v) => {
            let ev = spec_encode_value(*v).0;
            lemma_value_round_trip(*v, tail, fuel);
            let s = seq![0u8] + ev + tail;
            assert(s[0] == 0);
            assert(s.skip(1) =~= ev + tail);
        },
        BoundModel::Excluded(v) => {
            let ev = spec_encode_value(*v).0;
            lemma_value_round_trip(*v, tail, fuel);
            let s = seq![1u8] + ev + tail;
            assert(s[0] == 1);
            assert(s.skip(1) =~= ev + tail);
        },
        BoundModel::Unbounded => {
            assert((seq![2u8] + tail)[0] == 2);
        },
    }
}

proof fn lemma_range_round_trip(r: RangeModel, tail: Seq<u8>, fuel: nat)
    requires
        range_fits(r),
        spec_encode_range(r).0.len() <= fuel,
    ensures
        spec_encode_range(r).1,
        spec_decode_range(spec_encode_range(r).0 + tail, fuel) == (
            Ok::<RangeModel, DecodeError>(r),
            spec_encode_range(r).0.len(),
        ),
    decreases r, 0nat,
{
    let es = spec_encode_bound(r.start).0;
    let ee = spec_encode_bound(r.end).0;
    lemma_bound_round_trip(r.start, ee + tail, fuel);
    assert(spec_encode_range(r).0 == es + ee);
    lemma_bound_round_trip(r.end, tail, fuel);
    let s = es + ee + tail;
    assert(s =~= es + (ee + tail));
    assert(s.skip(es.len() as int) =~= ee + tail);
}

/// A successful value read looks at no byte past those it consumes, and
/// any fuel covering those bytes reads it the same way.
#[verifier::rlimit(80)]
pub proof fn lemma_value_local(s: Seq<u8>, fuel: nat, t: Seq<u8>, fuel2: nat)
    requires
        spec_decode_value(s, fuel).0 is Ok,
        spec_decode_value(s, fuel).1 <= fuel2,
    ensures
        spec_decode_value(s.take(spec_decode_value(s, fuel).1 as int) + t, fuel2) == spec_decode_value(s, fuel),
    decreases fuel, 0nat, 0nat,
{
    lemma_read_varint_within(s);
    crate::varint::lemma_scan_varint_done(s, 5);
    let d = spec_read_varint_u32(s);
    let tag = d.0->Ok_0;
    let rest = s.skip(d.1 as int);
    let f1 = (fuel - 1) as nat;
    lemma_value_payload_within(tag, rest, f1);
    let p = spec_decode_value_payload(tag, rest, f1);
    let t2 = rest.take(p.1 as int) + t;
    lemma_reads_local(s, t2);
    lemma_value_payload_local(tag, rest, f1, t, (fuel2 - 1) as nat);
    let u = s.take((d.1 + p.1) as int) + t;
    assert(u =~= s.take(d.1 as int) + t2);
    assert(u.skip(d.1 as int) =~= t2);
}

#[verifier::rlimit(80)]
proof fn lemma_leaf_local(tag: u32, s: Seq<u8>, t: Seq<u8>)
    requires
        spec_decode_leaf_payload(tag, s).0 is Ok,
    ensures
        spec_decode_leaf_payload(tag, s.take(spec_decode_leaf_payload(tag, s).1 as int) + t) == spec_decode_leaf_payload(tag, s),
{
    reveal(spec_decode_leaf_payload);
    if tag == 1 {
        <bool as Decode>::lemma_decode_local(s, t);
    } else if tag == 2 {
        <String as Decode>::lemma_decode_local(s, t);
    } else if tag == 3 {
        <String as Decode>::lemma_decode_local(s, t);
    } else if tag == 4 {
        <String as Decode>::lemma_decode_local(s, t);
    } else if tag == 5 {
        <String as Decode>::lemma_decode_local(s, t);
    } else if tag == 6 {
        <Blob as Decode>::lemma_decode_local(s, t);
    } else if tag == 7 {
        <[u8; 16] as Decode>::lemma_decode_local(s, t);
    } else if tag == 8 {
        <BitString as Decode>::lemma_decode_local(s, t);
    } else if tag == 9 {
        <i8 as Decode>::lemma_decode_local(s, t);
    } else if tag == 10 {
        <i16 as Decode>::lemma_decode_local(s, t);
    } else if tag == 11 {
        <i32 as Decode>::lemma_decode_local(s, t);
    } else if tag == 12 {
        <i64 as Decode>::lemma_decode_local(s, t);
    } else if tag == 13 {
        <i128 as Decode>::lemma_decode_local(s, t);
    } else if tag == 14 {
        <u8 as Decode>::lemma_decode_local(s, t);
    } else if tag == 15 {
        <u16 as Decode>::lemma_decode_local(s, t);
    } else if tag == 16 {
        <u32 as Decode>::lemma_decode_local(s, t);
    } else if tag == 17 {
        <u64 as Decode>::lemma_decode_local(s, t);
    } else if tag == 18 {
        <u128 as Decode>::lemma_decode_local(s, t);
    } else if tag == 19 {
        <[u8; 4] as Decode>::lemma_decode_local(s, t);
    } else if tag == 20 {
        <[u8; 8] as Decode>::lemma_decode_local(s, t);
    } else if tag == 27 {
        <ExtensionPayload as Decode>::lemma_decode_local(s, t);
    } else if tag == 30 {
        <Decimal as Decode>::lemma_decode_local(s, t);
    } else if tag == 40 {
        <IpAddr as Decode>::lemma_decode_local(s, t);
    } else if tag == 41 {
        <MacAddr as Decode>::lemma_decode_local(s, t);
    } else if tag == 50 {
        <Date as Decode>::lemma_decode_local(s, t);
    } else if tag == 51 {
        <Time as Decode>::lemma_decode_local(s, t);
    } else if tag == 52 {
        <DateTime as Decode>::lemma_decode_local(s, t);
    } else if tag == 53 {
        <TimestampTz as Decode>::lemma_decode_local(s, t);
    } else if tag == 54 {
        <Interval as Decode>::lemma_decode_local(s, t);
    } else if tag == 60 {
        <Point as Decode>::lemma_decode_local(s, t);
    } else if tag == 61 {
        <Line as Decode>::lemma_decode_local(s, t);
    } else if tag == 62 {
        <Segment as Decode>::lemma_decode_local(s, t);
    } else if tag == 63 {
        <Rect as Decode>::lemma_decode_local(s, t);
    } else if tag == 64 {
        <Circle as Decode>::lemma_decode_local(s, t);
    } else if tag == 65 {
        <Path as Decode>::lemma_decode_local(s, t);
    } else if tag == 66 {
        <Polygon as Decode>::lemma_decode_local(s, t);
    }
}

#[verifier::rlimit(60)]
proof fn lemma_value_payload_local(tag: u32, s: Seq<u8>, fuel: nat, t: Seq<u8>, fuel2: nat)
    requires
        spec_decode_value_payload(tag, s, fuel).0 is Ok,
        spec_decode_value_payload(tag, s, fuel).1 <= fuel2,
    ensures
        spec_decode_value_payload(tag, s.take(spec_decode_value_payload(tag, s, fuel).1 as int) + t, fuel2)
            == spec_decode_value_payload(tag, s, fuel),
    decreases fuel, 5nat, 0nat,
{
    if is_leaf_tag(tag) {
        lemma_leaf_local(tag, s, t);
    } else if 21 <= tag <= 23 {
        lemma_value_list_local(s, fuel, t, fuel2);
    } else if tag == 24 || tag == 25 {
        lemma_entry_list_local(s, fuel, t, fuel2);
    } else {
        lemma_range_local(s, fuel, t, fuel2);
    }
}

#[verifier::rlimit(60)]
proof fn lemma_value_elems_local(s: Seq<u8>, n: nat, fuel: nat, t: Seq<u8>, fuel2: nat)
    requires
        spec_decode_value_elems(s, n, fuel).0 is Ok,
        spec_decode_value_elems(s, n, fuel).1 <= fuel2,
    ensures
        spec_decode_value_elems(s.take(spec_decode_value_elems(s, n, fuel).1 as int) + t, n, fuel2)
            == spec_decode_value_elems(s, n, fuel),
    decreases fuel, 2nat, n,
{
    if n > 0 {
        let d = spec_decode_value_elems(s, (n - 1) as nat, fuel);
        lemma_value_elems_within(s, (n - 1) as nat, fuel);
        let rest = s.skip(d.1 as int);
        lemma_value_within(rest, fuel);
        let p = spec_decode_value(rest, fuel).1;
        let t2 = rest.take(p as int) + t;
        lemma_value_elems_local(s, (n - 1) as nat, fuel, t2, fuel2);
        lemma_value_local(rest, fuel, t, fuel2);
        let u = s.take((d.1 + p) as int) + t;
        assert(u =~= s.take(d.1 as int) + t2);
        assert(u.skip(d.1 as int) =~= t2);
    }
}

#[verifier::rlimit(60)]
proof fn lemma_value_list_local(s: Seq<u8>, fuel: nat, t: Seq<u8>, fuel2: nat)
    requires
        spec_decode_value_list(s, fuel).0 is Ok,
        spec_decode_value_list(s, fuel).1 <= fuel2,
    ensures
        spec_decode_value_list(s.take(spec_decode_value_list(s, fuel).1 as int) + t, fuel2)
            == spec_decode_value_list(s, fuel),
    decreases fuel, 3nat, 0nat,
{
    lemma_read_varint_within(s);
    let d = spec_read_varint_u32(s);
    let n = d.0->Ok_0;
    let rest = s.skip(d.1 as int);
    lemma_value_elems_within(rest, n as nat, fuel);
    let e = spec_decode_value_elems(rest, n as nat, fuel);
    let t2 = rest.take(e.1 as int) + t;
    lemma_reads_local(s, t2);
    lemma_value_elems_local(rest, n as nat, fuel, t, fuel2);
    let u = s.take((d.1 + e.1) as int) + t;
    assert(u =~= s.take(d.1 as int) + t2);
    assert(u.skip(d.1 as int) =~= t2);
}

#[verifier::rlimit(60)]
proof fn lemma_entry_local(s: Seq<u8>, fuel: nat, t: Seq<u8>, fuel2: nat)
    requires
        spec_decode_entry(s, fuel).0 is Ok,
        spec_decode_entry(s, fuel).1 <= fuel2,
    ensures
        spec_decode_entry(s.take(spec_decode_entry(s, fuel).1 as int) + t, fuel2) == spec_decode_entry(s, fuel),
    decreases fuel, 1nat, 0nat,
{
    <String as Decode>::lemma_decode_within(s);
    let q = spec_decode_string(s);
    let r1 = s.skip(q.1 as int);
    lemma_value_within(r1, fuel);
    let d = spec_decode_value(r1, fuel);
    let t2 = r1.take(d.1 as int) + t;
    <String as Decode>::lemma_decode_local(s, t2);
    lemma_value_local(r1, fuel, t, fuel2);
    let u = s.take((q.1 + d.1) as int) + t;
    assert(u =~= s.take(q.1 as int) + t2);
    assert(u.skip(q.1 as int) =~= t2);
}

#[verifier::rlimit(60)]
proof fn lemma_entry_elems_local(s: Seq<u8>, n: nat, fuel: nat, t: Seq<u8>, fuel2: nat)
    requires
        spec_decode_entry_elems(s, n, fuel).0 is Ok,
        spec_decode_entry_elems(s, n, fuel).1 <= fuel2,
    ensures
        spec_decode_entry_elems(s.take(spec_decode_entry_elems(s, n, fuel).1 as int) + t, n, fuel2)
            == spec_decode_entry_elems(s, n, fuel),
    decreases fuel, 2nat, n,
{
    if n > 0 {
        let d = spec_decode_entry_elems(s, (n - 1) as nat, fuel);
        lemma_entry_elems_within(s, (n - 1) as nat, fuel);
        let rest = s.skip(d.1 as int);
        lemma_entry_within(rest, fuel);
        let p = spec_decode_entry(rest, fuel).1;
        let t2 = rest.take(p as int) + t;
        lemma_entry_elems_local(s, (n - 1) as nat, fuel, t2, fuel2);
        lemma_entry_local(rest, fuel, t, fuel2);
        let u = s.take((d.1 + p) as int) + t;
        assert(u =~= s.take(d.1 as int) + t2);
        assert(u.skip(d.1 as int) =~= t2);
    }
}

#[verifier::rlimit(60)]
proof fn lemma_entry_list_local(s: Seq<u8>, fuel: nat, t: Seq<u8>, fuel2: nat)
    requires
        spec_decode_entry_list(s, fuel).0 is Ok,
        spec_decode_entry_list(s, fuel).1 <= fuel2,
    ensures
        spec_decode_entry_list(s.take(spec_decode_entry_list(s, fuel).1 as int) + t, fuel2)
            == spec_decode_entry_list(s, fuel),
    decreases fuel, 3nat, 0nat,
{
    lemma_read_varint_within(s);
    let d = spec_read_varint_u32(s);
    let n = d.0->Ok_0;
    let rest = s.skip(d.1 as int);
    lemma_entry_elems_within(rest, n as nat, fuel);
    let e = spec_decode_entry_elems(rest, n as nat, fuel);
    let t2 = rest.take(e.1 as int) + t;
    lemma_reads_local(s, t2);
    lemma_entry_elems_local(rest, n as nat, fuel, t, fuel2);
    let u = s.take((d.1 + e.1) as int) + t;
    assert(u =~= s.take(d.1 as int) + t2);
    assert(u.skip(d.1 as int) =~= t2);
}

#[verifier::rlimit(60)]
proof fn lemma_bound_local(s: Seq<u8>, fuel: nat, t: Seq<u8>, fuel2: nat)
    requires
        spec_decode_bound(s, fuel).0 is Ok,
        spec_decode_bound(s, fuel).1 <= fuel2,
    ensures
        spec_decode_bound(s.take(spec_decode_bound(s, fuel).1 as int) + t, fuel2) == spec_decode_bound(s, fuel),
    decreases fuel, 1nat, 0nat,
{
    let r1 = s.skip(1);
    lemma_bound_within(s, fuel);
    let n = spec_decode_bound(s, fuel).1;
    assert(s.len() > 0);
    assert(n >= 1);
    let u = s.take(n as int) + t;
    assert(u[0] == s[0]);
    if s[0] == 0 || s[0] == 1 {
        lemma_value_within(r1, fuel);
        let d = spec_decode_value(r1, fuel);
        lemma_value_local(r1, fuel, t, fuel2);
        assert(u.skip(1) =~= r1.take(d.1 as int) + t);
    }
}

#[verifier::rlimit(100)]
proof fn lemma_range_local(s: Seq<u8>, fuel: nat, t: Seq<u8>, fuel2: nat)
    requires
        spec_decode_range(s, fuel).0 is Ok,
        spec_decode_range(s, fuel).1 <= fuel2,
    ensures
        spec_decode_range(s.take(spec_decode_range(s, fuel).1 as int) + t, fuel2) == spec_decode_range(s, fuel),
    decreases fuel, 2nat, 0nat,
{
    lemma_bound_within(s, fuel);
    let a = spec_decode_bound(s, fuel);
    let rest = s.skip(a.1 as int);
    lemma_bound_within(rest, fuel);
    let b = spec_decode_bound(rest, fuel);
    let t2 = rest.take(b.1 as int) + t;
    lemma_bound_local(s, fuel, t2, fuel2);
    lemma_bound_local(rest, fuel, t, fuel2);
    let u = s.take((a.1 + b.1) as int) + t;
    assert(u =~= s.take(a.1 as int) + t2);
    assert(u.skip(a.1 as int) =~= t2);
    assert(spec_decode_bound(u, fuel2) == a);
    assert(spec_decode_bound(u.skip(a.1 as int), fuel2) == b);
}

/// A dynamically typed value.
#[derive(Debug, PartialEq, Eq)]
pub enum Value {
    /// No value.
    Null,
    /// A boolean.
    Bool(bool),
    /// Text.
    String(String),
    /// A JSON document, as text.
    Json(String),
    /// An XML document, as text.
    Xml(String),
    /// The name of an enum variant.
    Enum(String),
    /// Binary data.
    Bytes(Blob),
    /// A UUID, as its sixteen bytes.
    Uuid([u8; 16]),
    /// A bit string.
    BitString(BitString),
    /// Signed 8-bit integer.
    Int8(i8),
    /// Signed 16-bit integer.
    Int16(i16),
    /// Signed 32-bit integer.
    Int32(i32),
    /// Signed 64-bit integer.
    Int64(i64),
    /// Signed 128-bit integer.
    Int128(i128),
    /// Unsigned 8-bit integer.
    UInt8(u8),
    /// Unsigned 16-bit integer.
    UInt16(u16),
    /// Unsigned 32-bit integer.
    UInt32(u32),
    /// Unsigned 64-bit integer.
    UInt64(u64),
    /// Unsigned 128-bit integer.
    UInt128(u128),
    /// A 32-bit float, as its little-endian IEEE-754 bytes.
    Float32([u8; 4]),
    /// A 64-bit float, as its little-endian IEEE-754 bytes.
    Float64([u8; 8]),
    /// An ordered collection.
    Array(Vec<Value>),
    /// An unordered collection.
    SetOf(Vec<Value>),
    /// A fixed sequence of values.
    Tuple(Vec<Value>),
    /// Keyed values.
    MapOf(Vec<ValueEntry>),
    /// Named fields.
    Struct(Vec<ValueEntry>),
    /// A range between two bounds.
    Range(Box<ValueRange>),
    /// A value of an extension type: the type's name and its encoded payload.
    Extension(ExtensionPayload),
    /// A fixed-point number.
    Decimal(Decimal),
    /// An IP address.
    Inet(IpAddr),
    /// A MAC address.
    MacAddr(MacAddr),
    /// A calendar date.
    Date(Date),
    /// A time of day.
    Time(Time),
    /// A date and time.
    DateTime(DateTime),
    /// A date and time with its UTC offset.
    TimestampTz(TimestampTz),
    /// A calendar interval.
    Interval(Interval),
    /// A point of the plane.
    Point(Point),
    /// A line of the plane.
    Line(Line),
    /// A line segment.
    Segment(Segment),
    /// A rectangle.
    Rect(Rect),
    /// A circle.
    Circle(Circle),
    /// A path of points.
    Path(Path),
    /// A polygon.
    Polygon(Polygon),
}

/// A keyed [`Value`]: a map entry or a struct field.
#[derive(Debug, PartialEq, Eq)]
pub struct ValueEntry {
    /// The key or field name.
    pub key: String,
    /// The value.
    pub value: Value,
}

/// One end of a [`ValueRange`].
#[derive(Debug, PartialEq, Eq)]
pub enum ValueBound {
    /// The end value belongs to the range.
    Included(Box<Value>),
    /// The end value does not belong to the range.
    Excluded(Box<Value>),
    /// No bound on this side.
    Unbounded,
}

/// A range of values between two bounds.
#[derive(Debug, PartialEq, Eq)]
pub struct ValueRange {
    /// Lower end.
    pub start: ValueBound,
    /// Upper end.
    pub end: ValueBound,
}

/// The model of a value.
pub open spec fn value_model(v: Value) -> ValueModel
    decreases v,
{
    match v {
        Value::Null => ValueModel::Null,
        Value::Bool(x) => ValueModel::Bool(x.deep_view()),
        Value::String(x) => ValueModel::String(x.deep_view()),
        Value::Json(x) => ValueModel::Json(x.deep_view()),
        Value::Xml(x) => ValueModel::Xml(x.deep_view()),
        Value::Enum(x) => ValueModel::Enum(x.deep_view()),
        Value::Bytes(x) => ValueModel::Bytes(x.deep_view()),
        Value::Uuid(x) => ValueModel::Uuid(x.deep_view()),
        Value::BitString(x) => ValueModel::BitString(x.deep_view()),
        Value::Int8(x) => ValueModel::Int8(x.deep_view()),
        Value::Int16(x) => ValueModel::Int16(x.deep_view()),
        Value::Int32(x) => ValueModel::Int32(x.deep_view()),
        Value::Int64(x) => ValueModel::Int64(x.deep_view()),
        Value::Int128(x) => ValueModel::Int128(x.deep_view()),
        Value::UInt8(x) => ValueModel::UInt8(x.deep_view()),
        Value::UInt16(x) => ValueModel::UInt16(x.deep_view()),
        Value::UInt32(x) => ValueModel::UInt32(x.deep_view()),
        Value::UInt64(x) => ValueModel::UInt64(x.deep_view()),
        Value::UInt128(x) => ValueModel::UInt128(x.deep_view()),
        Value::Float32(x) => ValueModel::Float32(x.deep_view()),
        Value::Float64(x) => ValueModel::Float64(x.deep_view()),
        Value::Array(vs) => ValueModel::Array(values_model(vs@)),
        Value::SetOf(vs) => ValueModel::SetOf(values_model(vs@)),
        Value::Tuple(vs) => ValueModel::Tuple(values_model(vs@)),
        Value::MapOf(es) => ValueModel::MapOf(value_entries_model(es@)),
        Value::Struct(es) => ValueModel::Struct(value_entries_model(es@)),
        Value::Range(r) => ValueModel::Range(Box::new(value_range_model(*r))),
        Value::Extension(x) => ValueModel::Extension(x.deep_view()),
        Value::Decimal(x) => ValueModel::Decimal(x.deep_view()),
        Value::Inet(x) => ValueModel::Inet(x.deep_view()),
        Value::MacAddr(x) => ValueModel::MacAddr(x.deep_view()),
        Value::Date(x) => ValueModel::Date(x.deep_view()),
        Value::Time(x) => ValueModel::Time(x.deep_view()),
        Value::DateTime(x) => ValueModel::DateTime(x.deep_view()),
        Value::TimestampTz(x) => ValueModel::TimestampTz(x.deep_view()),
        Value::Interval(x) => ValueModel::Interval(x.deep_view()),
        Value::Point(x) => ValueModel::Point(x.deep_view()),
        Value::Line(x) => ValueModel::Line(x.deep_view()),
        Value::Segment(x) => ValueModel::Segment(x.deep_view()),
        Value::Rect(x) => ValueModel::Rect(x.deep_view()),
        Value::Circle(x) => ValueModel::Circle(x.deep_view()),
        Value::Path(x) => ValueModel::Path(x.deep_view()),
        Value::Polygon(x) => ValueModel::Polygon(x.deep_view()),
    }
}

/// The models of a list of values.
pub open spec fn values_model(vs: Seq<Value>) -> Seq<ValueModel>
    decreases vs,
{
    Seq::new(vs.len(), |i: int| if 0 <= i < vs.len() { value_model(vs[i]) } else { ValueModel::Null })
}

/// The model of a keyed value.
pub open spec fn value_entry_model(e: ValueEntry) -> EntryModel
    decreases e,
{
    EntryModel { key: e.key@, value: value_model(e.value) }
}

/// The models of a list of keyed values.
pub open spec fn value_entries_model(es: Seq<ValueEntry>) -> Seq<EntryModel>
    decreases es,
{
    Seq::new(
        es.len(),
        |i: int|
            if 0 <= i < es.len() {
                value_entry_model(es[i])
            } else {
                EntryModel { key: Seq::empty(), value: ValueModel::Null }
            },
    )
}

/// The model of one end of a range.
pub open spec fn value_bound_model(b: ValueBound) -> BoundModel
    decreases b,
{
    match b {
        ValueBound::Included(v) => BoundModel::Included(Box::new(value_model(*v))),
        ValueBound::Excluded(v) => BoundModel::Excluded(Box::new(value_model(*v))),
        ValueBound::Unbounded => BoundModel::Unbounded,
    }
}

/// The model of a range.
pub open spec fn value_range_model(r: ValueRange) -> RangeModel
    decreases r,
{
    RangeModel { start: value_bound_model(r.start), end: value_bound_model(r.end) }
}

impl DeepView for Value {
    type V = ValueModel;

    open spec fn deep_view(&self) -> ValueModel {
        value_model(*self)
    }
}

impl DeepView for ValueEntry {
    type V = EntryModel;

    open spec fn deep_view(&self) -> EntryModel {
        value_entry_model(*self)
    }
}

impl DeepView for ValueRange {
    type V = RangeModel;

    open spec fn deep_view(&self) -> RangeModel {
        value_range_model(*self)
    }
}

/// How many budget levels reading a value from `s` needs.
pub open spec fn spec_need_value(s: Seq<u8>, fuel: nat) -> nat
    decreases fuel, 0nat, 0nat,
{
    if fuel == 0 {
        0
    } else {
        match spec_read_varint_u32(s).0 {
            Ok(tag) => spec_need_value_payload(tag, s.skip(spec_read_varint_u32(s).1 as int), (fuel - 1) as nat),
            Err(_) => 0,
        }
    }
}

/// How many budget levels the payload of a value with nothing nested needs.
pub open spec fn spec_need_value_leaf(tag: u32, s: Seq<u8>) -> nat {
    if tag == 1 {
        <bool as Decode>::spec_need(s)
    } else if tag == 2 {
        1 + <String as Decode>::spec_need(s)
    } else if tag == 3 {
        1 + <String as Decode>::spec_need(s)
    } else if tag == 4 {
        1 + <String as Decode>::spec_need(s)
    } else if tag == 5 {
        1 + <String as Decode>::spec_need(s)
    } else if tag == 6 {
        1 + <Blob as Decode>::spec_need(s)
    } else if tag == 7 {
        <[u8; 16] as Decode>::spec_need(s)
    } else if tag == 8 {
        1 + <BitString as Decode>::spec_need(s)
    } else if tag == 9 {
        <i8 as Decode>::spec_need(s)
    } else if tag == 10 {
        <i16 as Decode>::spec_need(s)
    } else if tag == 11 {
        <i32 as Decode>::spec_need(s)
    } else if tag == 12 {
        <i64 as Decode>::spec_need(s)
    } else if tag == 13 {
        1 + <i128 as Decode>::spec_need(s)
    } else if tag == 14 {
        <u8 as Decode>::spec_need(s)
    } else if tag == 15 {
        <u16 as Decode>::spec_need(s)
    } else if tag == 16 {
        <u32 as Decode>::spec_need(s)
    } else if tag == 17 {
        <u64 as Decode>::spec_need(s)
    } else if tag == 18 {
        1 + <u128 as Decode>::spec_need(s)
    } else if tag == 19 {
        <[u8; 4] as Decode>::spec_need(s)
    } else if tag == 20 {
        <[u8; 8] as Decode>::spec_need(s)
    } else if tag == 27 {
        <ExtensionPayload as Decode>::spec_need(s)
    } else if tag == 30 {
        1 + <Decimal as Decode>::spec_need(s)
    } else if tag == 40 {
        1 + <IpAddr as Decode>::spec_need(s)
    } else if tag == 41 {
        1 + <MacAddr as Decode>::spec_need(s)
    } else if tag == 50 {
        1 + <Date as Decode>::spec_need(s)
    } else if tag == 51 {
        1 + <Time as Decode>::spec_need(s)
    } else if tag == 52 {
        1 + <DateTime as Decode>::spec_need(s)
    } else if tag == 53 {
        1 + <TimestampTz as Decode>::spec_need(s)
    } else if tag == 54 {
        1 + <Interval as Decode>::spec_need(s)
    } else if tag == 60 {
        1 + <Point as Decode>::spec_need(s)
    } else if tag == 61 {
        1 + <Line as Decode>::spec_need(s)
    } else if tag == 62 {
        1 + <Segment as Decode>::spec_need(s)
    } else if tag == 63 {
        1 + <Rect as Decode>::spec_need(s)
    } else if tag == 64 {
        1 + <Circle as Decode>::spec_need(s)
    } else if tag == 65 {
        1 + <Path as Decode>::spec_need(s)
    } else if tag == 66 {
        1 + <Polygon as Decode>::spec_need(s)
    } else {
        0
    }
}

/// How many budget levels the payload after discriminant `tag` needs.
pub open spec fn spec_need_value_payload(tag: u32, s: Seq<u8>, fuel: nat) -> nat
    decreases fuel, 5nat, 0nat,
{
    if is_leaf_tag(tag) {
        spec_need_value_leaf(tag, s)
    } else if 21 <= tag <= 23 {
        1 + spec_need_value_list(s, fuel)
    } else if tag == 24 || tag == 25 {
        1 + spec_need_value_entry_list(s, fuel)
    } else if tag == 26 {
        1 + spec_need_value_range(s, fuel)
    } else {
        0
    }
}

/// How many budget levels a counted list of values needs.
pub open spec fn spec_need_value_list(s: Seq<u8>, fuel: nat) -> nat
    decreases fuel, 3nat, 0nat,
{
    match spec_read_varint_u32(s).0 {
        Ok(n) => if n > MAX_SEQ_LEN {
            0
        } else {
            spec_need_value_elems(s.skip(spec_read_varint_u32(s).1 as int), n as nat, fuel)
        },
        Err(_) => 0,
    }
}

/// How many budget levels the first `n` values of a list need, each read one
/// level down, up to the first that fails.
pub open spec fn spec_need_value_elems(s: Seq<u8>, n: nat, fuel: nat) -> nat
    decreases fuel, 2nat, n,
{
    if n == 0 {
        0
    } else {
        let d = spec_decode_value_elems(s, (n - 1) as nat, fuel);
        let prev = spec_need_value_elems(s, (n - 1) as nat, fuel);
        if d.0 is Ok {
            let k = 1 + spec_need_value(s.skip(d.1 as int), fuel);
            if k > prev {
                k
            } else {
                prev
            }
        } else {
            prev
        }
    }
}

/// How many budget levels a keyed value needs: the key and the value are
/// each read one level down.
pub open spec fn spec_need_value_entry(s: Seq<u8>, fuel: nat) -> nat
    decreases fuel, 1nat, 0nat,
{
    match spec_decode_string(s).0 {
        Ok(_) => 1 + spec_need_value(s.skip(spec_decode_string(s).1 as int), fuel),
        Err(_) => 1,
    }
}

/// How many budget levels a counted list of keyed values needs.
pub open spec fn spec_need_value_entry_list(s: Seq<u8>, fuel: nat) -> nat
    decreases fuel, 3nat, 0nat,
{
    match spec_read_varint_u32(s).0 {
        Ok(n) => if n > MAX_SEQ_LEN {
            0
        } else {
            spec_need_value_entry_elems(s.skip(spec_read_varint_u32(s).1 as int), n as nat, fuel)
        },
        Err(_) => 0,
    }
}

/// How many budget levels the first `n` keyed values need, up to the first
/// that fails.
pub open spec fn spec_need_value_entry_elems(s: Seq<u8>, n: nat, fuel: nat) -> nat
    decreases fuel, 2nat, n,
{
    if n == 0 {
        0
    } else {
        let d = spec_decode_entry_elems(s, (n - 1) as nat, fuel);
        let prev = spec_need_value_entry_elems(s, (n - 1) as nat, fuel);
        if d.0 is Ok {
            let k = spec_need_value_entry(s.skip(d.1 as int), fuel);
            if k > prev {
                k
            } else {
                prev
            }
        } else {
            prev
        }
    }
}

/// How many budget levels one end of a range needs: its value is read one
/// level down.
pub open spec fn spec_need_value_bound(s: Seq<u8>, fuel: nat) -> nat
    decreases fuel, 1nat, 0nat,
{
    match spec_read_u8(s).0 {
        Ok(t) => if t == 0 || t == 1 {
            1 + spec_need_value(s.skip(1), fuel)
        } else {
            0
        },
        Err(_) => 0,
    }
}

/// How many budget levels a range needs: each end is read one level down.
pub open spec fn spec_need_value_range(s: Seq<u8>, fuel: nat) -> nat
    decreases fuel, 2nat, 0nat,
{
    let a = 1 + spec_need_value_bound(s, fuel);
    let d = spec_decode_bound(s, fuel);
    if d.0 is Ok {
        let b = 1 + spec_need_value_bound(s.skip(d.1 as int), fuel);
        if a >= b {
            a
        } else {
            b
        }
    } else {
        a
    }
}

proof fn lemma_need_value_elems_mono(s: Seq<u8>, i: nat, n: nat, fuel: nat)
    ensures
        i <= n ==> spec_need_value_elems(s, i, fuel) <= spec_need_value_elems(s, n, fuel),
    decreases n,
{
    if i < n {
        lemma_need_value_elems_mono(s, i, (n - 1) as nat, fuel);
    }
}

proof fn lemma_need_value_elems_err(s: Seq<u8>, i: nat, n: nat, fuel: nat)
    requires
        i <= n,
        spec_decode_value_elems(s, i, fuel).0 is Err,
    ensures
        spec_need_value_elems(s, n, fuel) == spec_need_value_elems(s, i, fuel),
        spec_decode_value_elems(s, n, fuel) == spec_decode_value_elems(s, i, fuel),
    decreases n - i,
{
    if i < n {
        lemma_need_value_elems_err(s, i, (n - 1) as nat, fuel);
    }
}

proof fn lemma_need_value_entry_elems_mono(s: Seq<u8>, i: nat, n: nat, fuel: nat)
    ensures
        i <= n ==> spec_need_value_entry_elems(s, i, fuel) <= spec_need_value_entry_elems(s, n, fuel),
    decreases n,
{
    if i < n {
        lemma_need_value_entry_elems_mono(s, i, (n - 1) as nat, fuel);
    }
}

proof fn lemma_need_value_entry_elems_err(s: Seq<u8>, i: nat, n: nat, fuel: nat)
    requires
        i <= n,
        spec_decode_entry_elems(s, i, fuel).0 is Err,
    ensures
        spec_need_value_entry_elems(s, n, fuel) == spec_need_value_entry_elems(s, i, fuel),
        spec_decode_entry_elems(s, n, fuel) == spec_decode_entry_elems(s, i, fuel),
    decreases n - i,
{
    if i < n {
        lemma_need_value_entry_elems_err(s, i, (n - 1) as nat, fuel);
    }
}

impl Value {
    /// The discriminant that opens this value on the wire.
    pub fn tag(&self) -> (t: u32)
        ensures
            t == value_tag(self.deep_view()),
    {
        match self {
            Value::Null => 0,
            Value::Bool(..) => 1,
            Value::String(..) => 2,
            Value::Json(..) => 3,
            Value::Xml(..) => 4,
            Value::Enum(..) => 5,
            Value::Bytes(..) => 6,
            Value::Uuid(..) => 7,
            Value::BitString(..) => 8,
            Value::Int8(..) => 9,
            Value::Int16(..) => 10,
            Value::Int32(..) => 11,
            Value::Int64(..) => 12,
            Value::Int128(..) => 13,
            Value::UInt8(..) => 14,
            Value::UInt16(..) => 15,
            Value::UInt32(..) => 16,
            Value::UInt64(..) => 17,
            Value::UInt128(..) => 18,
            Value::Float32(..) => 19,
            Value::Float64(..) => 20,
            Value::Array(..) => 21,
            Value::SetOf(..) => 22,
            Value::Tuple(..) => 23,
            Value::MapOf(..) => 24,
            Value::Struct(..) => 25,
            Value::Range(..) => 26,
            Value::Extension(..) => 27,
            Value::Decimal(..) => 30,
            Value::Inet(..) => 40,
            Value::MacAddr(..) => 41,
            Value::Date(..) => 50,
            Value::Time(..) => 51,
            Value::DateTime(..) => 52,
            Value::TimestampTz(..) => 53,
            Value::Interval(..) => 54,
            Value::Point(..) => 60,
            Value::Line(..) => 61,
            Value::Segment(..) => 62,
            Value::Rect(..) => 63,
            Value::Circle(..) => 64,
            Value::Path(..) => 65,
            Value::Polygon(..) => 66,
        }
    }
}

#[verifier::rlimit(100)]
fn write_value(v: &Value, w: &mut Writer) -> (res: Result<(), EncodeError>)
    ensures
        final(w).bytes() == old(w).bytes() + spec_encode_value(v.deep_view()).0,
        final(w).start() == old(w).start(),
        res is Ok <==> spec_encode_value(v.deep_view()).1,
        res matches Err(e) ==> e is LengthOverflow,
    decreases v,
{
    w.write_varint_u32(v.tag())?;
    let ghost head = w.bytes();
    let r = match v {
        Value::Null => Ok(()),
        Value::Bool(x) => x.encode(w),
        Value::String(x) => x.encode(w),
        Value::Json(x) => x.encode(w),
        Value::Xml(x) => x.encode(w),
        Value::Enum(x) => x.encode(w),
        Value::Bytes(x) => x.encode(w),
        Value::Uuid(x) => x.encode(w),
        Value::BitString(x) => x.encode(w),
        Value::Int8(x) => x.encode(w),
        Value::Int16(x) => x.encode(w),
        Value::Int32(x) => x.encode(w),
        Value::Int64(x) => x.encode(w),
        Value::Int128(x) => x.encode(w),
        Value::UInt8(x) => x.encode(w),
        Value::UInt16(x) => x.encode(w),
        Value::UInt32(x) => x.encode(w),
        Value::UInt64(x) => x.encode(w),
        Value::UInt128(x) => x.encode(w),
        Value::Float32(x) => x.encode(w),
        Value::Float64(x) => x.encode(w),
        Value::Array(vs) => write_value_list(vs, w),
        Value::SetOf(vs) => write_value_list(vs, w),
        Value::Tuple(vs) => write_value_list(vs, w),
        Value::MapOf(es) => write_value_entries(es, w),
        Value::Struct(es) => write_value_entries(es, w),
        Value::Range(r) => write_value_range(r, w),
        Value::Extension(x) => x.encode(w),
        Value::Decimal(x) => x.encode(w),
        Value::Inet(x) => x.encode(w),
        Value::MacAddr(x) => x.encode(w),
        Value::Date(x) => x.encode(w),
        Value::Time(x) => x.encode(w),
        Value::DateTime(x) => x.encode(w),
        Value::TimestampTz(x) => x.encode(w),
        Value::Interval(x) => x.encode(w),
        Value::Point(x) => x.encode(w),
        Value::Line(x) => x.encode(w),
        Value::Segment(x) => x.encode(w),
        Value::Rect(x) => x.encode(w),
        Value::Circle(x) => x.encode(w),
        Value::Path(x) => x.encode(w),
        Value::Polygon(x) => x.encode(w),
    };
    proof {
        let tb = varint_bytes(value_tag(v.deep_view()) as nat);
        assert(head == old(w).bytes() + tb);
        assert(w.bytes() =~= old(w).bytes() + (tb + (w.bytes().skip(head.len() as int))));
    }
    r
}

fn write_value_list(vs: &Vec<Value>, w: &mut Writer) -> (res: Result<(), EncodeError>)
    ensures
        final(w).bytes() == old(w).bytes() + counted(vs@.len(), spec_encode_value_elems(values_model(vs@))).0,
        final(w).start() == old(w).start(),
        res is Ok <==> counted(vs@.len(), spec_encode_value_elems(values_model(vs@))).1,
        res matches Err(e) ==> e is LengthOverflow,
    decreases vs,
{
    if vs.len() > u32::MAX as usize {
        return Err(EncodeError::LengthOverflow);
    }
    let ghost w0 = w.bytes();
    w.write_varint_u32(vs.len() as u32)?;
    let ghost head = w.bytes();
    let ghost ms = values_model(vs@);
    let mut i: usize = 0;
    proof {
        assert(ms.take(0) =~= Seq::<ValueModel>::empty());
        assert(head + Seq::<u8>::empty() =~= head);
    }
    while i < vs.len()
        invariant
            i <= vs.len(),
            vs.len() <= u32::MAX,
            ms == values_model(vs@),
            w0 == old(w).bytes(),
            w.start() == old(w).start(),
            head == w0 + varint_bytes(vs@.len()),
            w.bytes() == head + spec_encode_value_elems(ms.take(i as int)).0,
            spec_encode_value_elems(ms.take(i as int)).1,
        decreases vs.len() - i,
    {
        let r = write_value(&vs[i], w);
        proof {
            assert(ms.take(i + 1 as int).drop_last() =~= ms.take(i as int));
            assert(ms.take(i + 1 as int).last() == vs@[i as int].deep_view());
            assert(w.bytes() =~= head + spec_encode_value_elems(ms.take(i + 1 as int)).0);
        }
        if r.is_err() {
            proof {
                lemma_value_elems_stopped(ms, (i + 1) as nat);
            }
            return r;
        }
        i = i + 1;
    }
    proof {
        assert(ms.take(i as int) =~= ms);
    }
    Ok(())
}

fn write_value_entry(e: &ValueEntry, w: &mut Writer) -> (res: Result<(), EncodeError>)
    ensures
        final(w).bytes() == old(w).bytes() + spec_encode_entry(e.deep_view()).0,
        final(w).start() == old(w).start(),
        res is Ok <==> spec_encode_entry(e.deep_view()).1,
        res matches Err(e) ==> e is LengthOverflow,
    decreases e,
{
    let ghost w0 = w.bytes();
    e.key.encode(w)?;
    let ghost w1 = w.bytes();
    let r = write_value(&e.value, w);
    proof {
        assert(w.bytes() =~= w0 + (w1.skip(w0.len() as int) + w.bytes().skip(w1.len() as int)));
    }
    r
}

fn write_value_entries(es: &Vec<ValueEntry>, w: &mut Writer) -> (res: Result<(), EncodeError>)
    ensures
        final(w).bytes() == old(w).bytes() + counted(es@.len(), spec_encode_entry_elems(value_entries_model(es@))).0,
        final(w).start() == old(w).start(),
        res is Ok <==> counted(es@.len(), spec_encode_entry_elems(value_entries_model(es@))).1,
        res matches Err(e) ==> e is LengthOverflow,
    decreases es,
{
    if es.len() > u32::MAX as usize {
        return Err(EncodeError::LengthOverflow);
    }
    let ghost w0 = w.bytes();
    w.write_varint_u32(es.len() as u32)?;
    let ghost head = w.bytes();
    let ghost ms = value_entries_model(es@);
    let mut i: usize = 0;
    proof {
        assert(ms.take(0) =~= Seq::<EntryModel>::empty());
        assert(head + Seq::<u8>::empty() =~= head);
    }
    while i < es.len()
        invariant
            i <= es.len(),
            es.len() <= u32::MAX,
            ms == value_entries_model(es@),
            w0 == old(w).bytes(),
            w.start() == old(w).start(),
            head == w0 + varint_bytes(es@.len()),
            w.bytes() == head + spec_encode_entry_elems(ms.take(i as int)).0,
            spec_encode_entry_elems(ms.take(i as int)).1,
        decreases es.len() - i,
    {
        let r = write_value_entry(&es[i], w);
        proof {
            assert(ms.take(i + 1 as int).drop_last() =~= ms.take(i as int));
            assert(ms.take(i + 1 as int).last() == es@[i as int].deep_view());
            assert(w.bytes() =~= head + spec_encode_entry_elems(ms.take(i + 1 as int)).0);
        }
        if r.is_err() {
            proof {
                lemma_entry_elems_stopped(ms, (i + 1) as nat);
            }
            return r;
        }
        i = i + 1;
    }
    proof {
        assert(ms.take(i as int) =~= ms);
    }
    Ok(())
}

fn write_value_bound(b: &ValueBound, w: &mut Writer) -> (res: Result<(), EncodeError>)
    ensures
        final(w).bytes() == old(w).bytes() + spec_encode_bound(value_bound_model(*b)).0,
        final(w).start() == old(w).start(),
        res is Ok <==> spec_encode_bound(value_bound_model(*b)).1,
        res matches Err(e) ==> e is LengthOverflow,
    decreases b,
{
    match b {
        ValueBound::Included(v) => {
            w.write_u8(0)?;
            let ghost w1 = w.bytes();
            let r = write_value(v, w);
            assert(w.bytes() =~= old(w).bytes() + (seq![0u8] + w.bytes().skip(w1.len() as int)));
            r
        },
        ValueBound::Excluded(v) => {
            w.write_u8(1)?;
            let ghost w1 = w.bytes();
            let r = write_value(v, w);
            assert(w.bytes() =~= old(w).bytes() + (seq![1u8] + w.bytes().skip(w1.len() as int)));
            r
        },
        ValueBound::Unbounded => {
            let r = w.write_u8(2);
            assert(w.bytes() =~= old(w).bytes() + seq![2u8]);
            r
        },
    }
}

fn write_value_range(r: &ValueRange, w: &mut Writer) -> (res: Result<(), EncodeError>)
    ensures
        final(w).bytes() == old(w).bytes() + spec_encode_range(r.deep_view()).0,
        final(w).start() == old(w).start(),
        res is Ok <==> spec_encode_range(r.deep_view()).1,
        res matches Err(e) ==> e is LengthOverflow,
    decreases r,
{
    let ghost w0 = w.bytes();
    write_value_bound(&r.start, w)?;
    let ghost w1 = w.bytes();
    let res = write_value_bound(&r.end, w);
    proof {
        assert(w.bytes() =~= w0 + (w1.skip(w0.len() as int) + w.bytes().skip(w1.len() as int)));
    }
    res
}

/// The stable wire discriminants of values, shared by [`Value`] and
/// `Literal`: each value is written as the one byte of its fixed
/// discriminant (`Null` 0, `Bool` 1, ... `Array` 21, `SetOf` 22, `Tuple` 23,
/// `MapOf` 24, ... `Polygon` 66), then its payload.
pub proof fn lemma_value_discriminants(m: ValueModel)
    ensures
        m is Null ==> spec_encode_value(m) == emit_then(emit(seq![0u8]), spec_encode_value_payload(m)),
        m is Bool ==> spec_encode_value(m) == emit_then(emit(seq![1u8]), spec_encode_value_payload(m)),
        m is String ==> spec_encode_value(m) == emit_then(emit(seq![2u8]), spec_encode_value_payload(m)),
        m is Json ==> spec_encode_value(m) == emit_then(emit(seq![3u8]), spec_encode_value_payload(m)),
        m is Xml ==> spec_encode_value(m) == emit_then(emit(seq![4u8]), spec_encode_value_payload(m)),
        m is Enum ==> spec_encode_value(m) == emit_then(emit(seq![5u8]), spec_encode_value_payload(m)),
        m is Bytes ==> spec_encode_value(m) == emit_then(emit(seq![6u8]), spec_encode_value_payload(m)),
        m is Uuid ==> spec_encode_value(m) == emit_then(emit(seq![7u8]), spec_encode_value_payload(m)),
        m is BitString ==> spec_encode_value(m) == emit_then(emit(seq![8u8]), spec_encode_value_payload(m)),
        m is Int8 ==> spec_encode_value(m) == emit_then(emit(seq![9u8]), spec_encode_value_payload(m)),
        m is Int16 ==> spec_encode_value(m) == emit_then(emit(seq![10u8]), spec_encode_value_payload(m)),
        m is Int32 ==> spec_encode_value(m) == emit_then(emit(seq![11u8]), spec_encode_value_payload(m)),
        m is Int64 ==> spec_encode_value(m) == emit_then(emit(seq![12u8]), spec_encode_value_payload(m)),
        m is Int128 ==> spec_encode_value(m) == emit_then(emit(seq![13u8]), spec_encode_value_payload(m)),
        m is UInt8 ==> spec_encode_value(m) == emit_then(emit(seq![14u8]), spec_encode_value_payload(m)),
        m is UInt16 ==> spec_encode_value(m) == emit_then(emit(seq![15u8]), spec_encode_value_payload(m)),
        m is UInt32 ==> spec_encode_value(m) == emit_then(emit(seq![16u8]), spec_encode_value_payload(m)),
        m is UInt64 ==> spec_encode_value(m) == emit_then(emit(seq![17u8]), spec_encode_value_payload(m)),
        m is UInt128 ==> spec_encode_value(m) == emit_then(emit(seq![18u8]), spec_encode_value_payload(m)),
        m is Float32 ==> spec_encode_value(m) == emit_then(emit(seq![19u8]), spec_encode_value_payload(m)),
        m is Float64 ==> spec_encode_value(m) == emit_then(emit(seq![20u8]), spec_encode_value_payload(m)),
        m is Array ==> spec_encode_value(m) == emit_then(emit(seq![21u8]), spec_encode_value_payload(m)),
        m is SetOf ==> spec_encode_value(m) == emit_then(emit(seq![22u8]), spec_encode_value_payload(m)),
        m is Tuple ==> spec_encode_value(m) == emit_then(emit(seq![23u8]), spec_encode_value_payload(m)),
        m is MapOf ==> spec_encode_value(m) == emit_then(emit(seq![24u8]), spec_encode_value_payload(m)),
        m is Struct ==> spec_encode_value(m) == emit_then(emit(seq![25u8]), spec_encode_value_payload(m)),
        m is Range ==> spec_encode_value(m) == emit_then(emit(seq![26u8]), spec_encode_value_payload(m)),
        m is Extension ==> spec_encode_value(m) == emit_then(emit(seq![27u8]), spec_encode_value_payload(m)),
        m is Decimal ==> spec_encode_value(m) == emit_then(emit(seq![30u8]), spec_encode_value_payload(m)),
        m is Inet ==> spec_encode_value(m) == emit_then(emit(seq![40u8]), spec_encode_value_payload(m)),
        m is MacAddr ==> spec_encode_value(m) == emit_then(emit(seq![41u8]), spec_encode_value_payload(m)),
        m is Date ==> spec_encode_value(m) == emit_then(emit(seq![50u8]), spec_encode_value_payload(m)),
        m is Time ==> spec_encode_value(m) == emit_then(emit(seq![51u8]), spec_encode_value_payload(m)),
        m is DateTime ==> spec_encode_value(m) == emit_then(emit(seq![52u8]), spec_encode_value_payload(m)),
        m is TimestampTz ==> spec_encode_value(m) == emit_then(emit(seq![53u8]), spec_encode_value_payload(m)),
        m is Interval ==> spec_encode_value(m) == emit_then(emit(seq![54u8]), spec_encode_value_payload(m)),
        m is Point ==> spec_encode_value(m) == emit_then(emit(seq![60u8]), spec_encode_value_payload(m)),
        m is Line ==> spec_encode_value(m) == emit_then(emit(seq![61u8]), spec_encode_value_payload(m)),
        m is Segment ==> spec_encode_value(m) == emit_then(emit(seq![62u8]), spec_encode_value_payload(m)),
        m is Rect ==> spec_encode_value(m) == emit_then(emit(seq![63u8]), spec_encode_value_payload(m)),
        m is Circle ==> spec_encode_value(m) == emit_then(emit(seq![64u8]), spec_encode_value_payload(m)),
        m is Path ==> spec_encode_value(m) == emit_then(emit(seq![65u8]), spec_encode_value_payload(m)),
        m is Polygon ==> spec_encode_value(m) == emit_then(emit(seq![66u8]), spec_encode_value_payload(m)),
{
    lemma_small_tag(0, Seq::empty());
    lemma_small_tag(1, Seq::empty());
    lemma_small_tag(2, Seq::empty());
    lemma_small_tag(3, Seq::empty());
    lemma_small_tag(4, Seq::empty());
    lemma_small_tag(5, Seq::empty());
    lemma_small_tag(6, Seq::empty());
    lemma_small_tag(7, Seq::empty());
    lemma_small_tag(8, Seq::empty());
    lemma_small_tag(9, Seq::empty());
    lemma_small_tag(10, Seq::empty());
    lemma_small_tag(11, Seq::empty());
    lemma_small_tag(12, Seq::empty());
    lemma_small_tag(13, Seq::empty());
    lemma_small_tag(14, Seq::empty());
    lemma_small_tag(15, Seq::empty());
    lemma_small_tag(16, Seq::empty());
    lemma_small_tag(17, Seq::empty());
    lemma_small_tag(18, Seq::empty());
    lemma_small_tag(19, Seq::empty());
    lemma_small_tag(20, Seq::empty());
    lemma_small_tag(21, Seq::empty());
    lemma_small_tag(22, Seq::empty());
    lemma_small_tag(23, Seq::empty());
    lemma_small_tag(24, Seq::empty());
    lemma_small_tag(25, Seq::empty());
    lemma_small_tag(26, Seq::empty());
    lemma_small_tag(27, Seq::empty());
    lemma_small_tag(30, Seq::empty());
    lemma_small_tag(40, Seq::empty());
    lemma_small_tag(41, Seq::empty());
    lemma_small_tag(50, Seq::empty());
    lemma_small_tag(51, Seq::empty());
    lemma_small_tag(52, Seq::empty());
    lemma_small_tag(53, Seq::empty());
    lemma_small_tag(54, Seq::empty());
    lemma_small_tag(60, Seq::empty());
    lemma_small_tag(61, Seq::empty());
    lemma_small_tag(62, Seq::empty());
    lemma_small_tag(63, Seq::empty());
    lemma_small_tag(64, Seq::empty());
    lemma_small_tag(65, Seq::empty());
    lemma_small_tag(66, Seq::empty());
}

/// Bytes opening with a value's fixed discriminant read back as a value of
/// that kind, whatever follows.
pub proof fn lemma_value_discriminants_read(s: Seq<u8>, fuel: nat)
    ensures
        spec_decode_value(seq![0u8] + s, fuel + 1).0 matches Ok(v) ==> v is Null,
        spec_decode_value(seq![1u8] + s, fuel + 1).0 matches Ok(v) ==> v is Bool,
        spec_decode_value(seq![2u8] + s, fuel + 1).0 matches Ok(v) ==> v is String,
        spec_decode_value(seq![3u8] + s, fuel + 1).0 matches Ok(v) ==> v is Json,
        spec_decode_value(seq![4u8] + s, fuel + 1).0 matches Ok(v) ==> v is Xml,
        spec_decode_value(seq![5u8] + s, fuel + 1).0 matches Ok(v) ==> v is Enum,
        spec_decode_value(seq![6u8] + s, fuel + 1).0 matches Ok(v) ==> v is Bytes,
        spec_decode_value(seq![7u8] + s, fuel + 1).0 matches Ok(v) ==> v is Uuid,
        spec_decode_value(seq![8u8] + s, fuel + 1).0 matches Ok(v) ==> v is BitString,
        spec_decode_value(seq![9u8] + s, fuel + 1).0 matches Ok(v) ==> v is Int8,
        spec_decode_value(seq![10u8] + s, fuel + 1).0 matches Ok(v) ==> v is Int16,
        spec_decode_value(seq![11u8] + s, fuel + 1).0 matches Ok(v) ==> v is Int32,
        spec_decode_value(seq![12u8] + s, fuel + 1).0 matches Ok(v) ==> v is Int64,
        spec_decode_value(seq![13u8] + s, fuel + 1).0 matches Ok(v) ==> v is Int128,
        spec_decode_value(seq![14u8] + s, fuel + 1).0 matches Ok(v) ==> v is UInt8,
        spec_decode_value(seq![15u8] + s, fuel + 1).0 matches Ok(v) ==> v is UInt16,
        spec_decode_value(seq![16u8] + s, fuel + 1).0 matches Ok(v) ==> v is UInt32,
        spec_decode_value(seq![17u8] + s, fuel + 1).0 matches Ok(v) ==> v is UInt64,
        spec_decode_value(seq![18u8] + s, fuel + 1).0 matches Ok(v) ==> v is UInt128,
        spec_decode_value(seq![19u8] + s, fuel + 1).0 matches Ok(v) ==> v is Float32,
        spec_decode_value(seq![20u8] + s, fuel + 1).0 matches Ok(v) ==> v is Float64,
        spec_decode_value(seq![21u8] + s, fuel + 1).0 matches Ok(v) ==> v is Array,
        spec_decode_value(seq![22u8] + s, fuel + 1).0 matches Ok(v) ==> v is SetOf,
        spec_decode_value(seq![23u8] + s, fuel + 1).0 matches Ok(v) ==> v is Tuple,
        spec_decode_value(seq![24u8] + s, fuel + 1).0 matches Ok(v) ==> v is MapOf,
        spec_decode_value(seq![25u8] + s, fuel + 1).0 matches Ok(v) ==> v is Struct,
        spec_decode_value(seq![26u8] + s, fuel + 1).0 matches Ok(v) ==> v is Range,
        spec_decode_value(seq![27u8] + s, fuel + 1).0 matches Ok(v) ==> v is Extension,
        spec_decode_value(seq![30u8] + s, fuel + 1).0 matches Ok(v) ==> v is Decimal,
        spec_decode_value(seq![40u8] + s, fuel + 1).0 matches Ok(v) ==> v is Inet,
        spec_decode_value(seq![41u8] + s, fuel + 1).0 matches Ok(v) ==> v is MacAddr,
        spec_decode_value(seq![50u8] + s, fuel + 1).0 matches Ok(v) ==> v is Date,
        spec_decode_value(seq![51u8] + s, fuel + 1).0 matches Ok(v) ==> v is Time,
        spec_decode_value(seq![52u8] + s, fuel + 1).0 matches Ok(v) ==> v is DateTime,
        spec_decode_value(seq![53u8] + s, fuel + 1).0 matches Ok(v) ==> v is TimestampTz,
        spec_decode_value(seq![54u8] + s, fuel + 1).0 matches Ok(v) ==> v is Interval,
        spec_decode_value(seq![60u8] + s, fuel + 1).0 matches Ok(v) ==> v is Point,
        spec_decode_value(seq![61u8] + s, fuel + 1).0 matches Ok(v) ==> v is Line,
        spec_decode_value(seq![62u8] + s, fuel + 1).0 matches Ok(v) ==> v is Segment,
        spec_decode_value(seq![63u8] + s, fuel + 1).0 matches Ok(v) ==> v is Rect,
        spec_decode_value(seq![64u8] + s, fuel + 1).0 matches Ok(v) ==> v is Circle,
        spec_decode_value(seq![65u8] + s, fuel + 1).0 matches Ok(v) ==> v is Path,
        spec_decode_value(seq![66u8] + s, fuel + 1).0 matches Ok(v) ==> v is Polygon,
{
    reveal(spec_decode_leaf_payload);
    lemma_small_tag(0, s);
    lemma_small_tag(1, s);
    lemma_small_tag(2, s);
    lemma_small_tag(3, s);
    lemma_small_tag(4, s);
    lemma_small_tag(5, s);
    lemma_small_tag(6, s);
    lemma_small_tag(7, s);
    lemma_small_tag(8, s);
    lemma_small_tag(9, s);
    lemma_small_tag(10, s);
    lemma_small_tag(11, s);
    lemma_small_tag(12, s);
    lemma_small_tag(13, s);
    lemma_small_tag(14, s);
    lemma_small_tag(15, s);
    lemma_small_tag(16, s);
    lemma_small_tag(17, s);
    lemma_small_tag(18, s);
    lemma_small_tag(19, s);
    lemma_small_tag(20, s);
    lemma_small_tag(21, s);
    lemma_small_tag(22, s);
    lemma_small_tag(23, s);
    lemma_small_tag(24, s);
    lemma_small_tag(25, s);
    lemma_small_tag(26, s);
    lemma_small_tag(27, s);
    lemma_small_tag(30, s);
    lemma_small_tag(40, s);
    lemma_small_tag(41, s);
    lemma_small_tag(50, s);
    lemma_small_tag(51, s);
    lemma_small_tag(52, s);
    lemma_small_tag(53, s);
    lemma_small_tag(54, s);
    lemma_small_tag(60, s);
    lemma_small_tag(61, s);
    lemma_small_tag(62, s);
    lemma_small_tag(63, s);
    lemma_small_tag(64, s);
    lemma_small_tag(65, s);
    lemma_small_tag(66, s);
}

/// The layout of nested values: a keyed entry is its key then its value; a
/// range end is byte 0 then the value when included, byte 1 then the value
/// when excluded, byte 2 alone when unbounded; a range is its start then its
/// end.
pub proof fn lemma_value_nested_layout(e: EntryModel, v: ValueModel, r: RangeModel)
    ensures
        spec_encode_entry(e) == emit_then(spec_encode_string(e.key), spec_encode_value(e.value)),
        spec_encode_bound(BoundModel::Included(Box::new(v))) == emit_then(emit(seq![0u8]), spec_encode_value(v)),
        spec_encode_bound(BoundModel::Excluded(Box::new(v))) == emit_then(emit(seq![1u8]), spec_encode_value(v)),
        spec_encode_bound(BoundModel::Unbounded) == emit(seq![2u8]),
        spec_encode_range(r) == emit_then(spec_encode_bound(r.start), spec_encode_bound(r.end)),
{
}

impl Encode for Value {
    open spec fn spec_encode(m: ValueModel) -> Emitted {
        spec_encode_value(m)
    }

    fn encode(&self, writer: &mut Writer) -> (res: Result<(), EncodeError>) {
        write_value(self, writer)
    }
}

fn read_value(reader: &mut Reader<'_>, budget: &mut Budget, Ghost(fuel): Ghost<nat>) -> (res: Result<Value, DecodeError>)
    requires
        old(reader).rest().len() <= fuel,
    ensures
        *final(budget) == *old(budget),
        old(budget).remaining() < spec_need_value(old(reader).rest(), fuel) ==> res matches Err(DecodeError::Budget(BudgetError::Depth)),
        old(budget).remaining() >= spec_need_value(old(reader).rest(), fuel) ==> decoded_as(res, spec_decode_value(old(reader).rest(), fuel).0),
        old(budget).remaining() >= spec_need_value(old(reader).rest(), fuel) ==> old(reader).advanced_to(*final(reader), spec_decode_value(old(reader).rest(), fuel).1),
    decreases fuel, 0nat, 0nat,
{
    let ghost r0 = *reader;
    proof {
        crate::varint::lemma_scan_varint_done(r0.rest(), 5);
    }
    let tag = reader.read_varint_u32()?;
    proof {
        r0.lemma_rest_after(*reader, spec_read_varint_u32(r0.rest()).1);
    }
    read_value_payload(tag, reader, budget, Ghost((fuel - 1) as nat))
}

fn read_value_payload(tag: u32, reader: &mut Reader<'_>, budget: &mut Budget, Ghost(fuel): Ghost<nat>) -> (res: Result<Value, DecodeError>)
    requires
        old(reader).rest().len() <= fuel,
        old(reader).position() <= old(reader).data().len() <= isize::MAX,
    ensures
        *final(budget) == *old(budget),
        old(budget).remaining() < spec_need_value_payload(tag, old(reader).rest(), fuel) ==> res matches Err(DecodeError::Budget(BudgetError::Depth)),
        old(budget).remaining() >= spec_need_value_payload(tag, old(reader).rest(), fuel) ==> decoded_as(res, spec_decode_value_payload(tag, old(reader).rest(), fuel).0),
        old(budget).remaining() >= spec_need_value_payload(tag, old(reader).rest(), fuel) ==> old(reader).advanced_to(*final(reader), spec_decode_value_payload(tag, old(reader).rest(), fuel).1),
    decreases fuel, 4nat, 0nat,
{
    if tag <= 20 || tag == 27 || tag == 30 || tag == 40 || tag == 41 || (50 <= tag && tag <= 54) || (60 <= tag && tag <= 66) {
        return read_value_leaf(tag, reader, budget);
    }
    read_value_nested(tag, reader, budget, Ghost(fuel))
}

#[verifier::rlimit(60)]
fn read_value_leaf(tag: u32, reader: &mut Reader<'_>, budget: &mut Budget) -> (res: Result<Value, DecodeError>)
    requires
        is_leaf_tag(tag),
        old(reader).position() <= old(reader).data().len() <= isize::MAX,
    ensures
        *final(budget) == *old(budget),
        old(budget).remaining() < spec_need_value_leaf(tag, old(reader).rest()) ==> res matches Err(DecodeError::Budget(BudgetError::Depth)),
        old(budget).remaining() >= spec_need_value_leaf(tag, old(reader).rest()) ==> decoded_as(res, spec_decode_leaf_payload(tag, old(reader).rest()).0),
        old(budget).remaining() >= spec_need_value_leaf(tag, old(reader).rest()) ==> old(reader).advanced_to(*final(reader), spec_decode_leaf_payload(tag, old(reader).rest()).1),
{
    proof {
        reveal(spec_decode_leaf_payload);
    }
    if tag == 1 || tag == 2 || tag == 3 || tag == 4 || tag == 5 || tag == 6 || tag == 7 || tag == 8 {
        return read_value_text(tag, reader, budget);
    }
    if tag == 9 || tag == 10 || tag == 11 || tag == 12 || tag == 13 || tag == 14 || tag == 15 || tag == 16 || tag == 17 || tag == 18 || tag == 19 || tag == 20 {
        return read_value_number(tag, reader, budget);
    }
    if tag == 27 || tag == 30 || tag == 40 || tag == 41 {
        return read_value_tagged(tag, reader, budget);
    }
    if tag == 50 || tag == 51 || tag == 52 || tag == 53 || tag == 54 {
        return read_value_temporal(tag, reader, budget);
    }
    if tag == 60 || tag == 61 || tag == 62 || tag == 63 || tag == 64 || tag == 65 || tag == 66 {
        return read_value_geometric(tag, reader, budget);
    }
    Ok(Value::Null)
}

#[verifier::rlimit(60)]
fn read_value_nested(tag: u32, reader: &mut Reader<'_>, budget: &mut Budget, Ghost(fuel): Ghost<nat>) -> (res: Result<Value, DecodeError>)
    requires
        !is_leaf_tag(tag),
        old(reader).rest().len() <= fuel,
        old(reader).position() <= old(reader).data().len() <= isize::MAX,
    ensures
        *final(budget) == *old(budget),
        old(budget).remaining() < spec_need_value_payload(tag, old(reader).rest(), fuel) ==> res matches Err(DecodeError::Budget(BudgetError::Depth)),
        old(budget).remaining() >= spec_need_value_payload(tag, old(reader).rest(), fuel) ==> decoded_as(res, spec_decode_value_payload(tag, old(reader).rest(), fuel).0),
        old(budget).remaining() >= spec_need_value_payload(tag, old(reader).rest(), fuel) ==> old(reader).advanced_to(*final(reader), spec_decode_value_payload(tag, old(reader).rest(), fuel).1),
    decreases fuel, 3nat, 1nat,
{
    if 21 <= tag && tag <= 23 {
        let ghost b0 = *budget;
        budget.enter()?;
        let r = read_value_list(reader, budget, Ghost(fuel));
        budget.leave(Ghost(b0));
        let vs = r?;
        if tag == 21 {
            return Ok(Value::Array(vs));
        } else if tag == 22 {
            return Ok(Value::SetOf(vs));
        } else {
            return Ok(Value::Tuple(vs));
        }
    }
    if tag == 24 || tag == 25 {
        let ghost b0 = *budget;
        budget.enter()?;
        let r = read_value_entry_list(reader, budget, Ghost(fuel));
        budget.leave(Ghost(b0));
        let es = r?;
        if tag == 24 {
            return Ok(Value::MapOf(es));
        } else {
            return Ok(Value::Struct(es));
        }
    }
    if tag == 26 {
        let ghost b0 = *budget;
        budget.enter()?;
        let r = read_value_range(reader, budget, Ghost(fuel));
        budget.leave(Ghost(b0));
        let range = r?;
        return Ok(Value::Range(Box::new(range)));
    }
    Err(DecodeError::InvalidVariant { kind: "Value", seen: tag })
}

#[verifier::rlimit(60)]
fn read_value_text(tag: u32, reader: &mut Reader<'_>, budget: &mut Budget) -> (res: Result<Value, DecodeError>)
    requires
        tag == 1 || tag == 2 || tag == 3 || tag == 4 || tag == 5 || tag == 6 || tag == 7 || tag == 8,
        old(reader).position() <= old(reader).data().len() <= isize::MAX,
    ensures
        *final(budget) == *old(budget),
        old(budget).remaining() < spec_need_value_leaf(tag, old(reader).rest()) ==> res matches Err(DecodeError::Budget(BudgetError::Depth)),
        old(budget).remaining() >= spec_need_value_leaf(tag, old(reader).rest()) ==> decoded_as(res, spec_decode_leaf_payload(tag, old(reader).rest()).0),
        old(budget).remaining() >= spec_need_value_leaf(tag, old(reader).rest()) ==> old(reader).advanced_to(*final(reader), spec_decode_leaf_payload(tag, old(reader).rest()).1),
{
    proof {
        reveal(spec_decode_leaf_payload);
    }
    if tag == 1 {
        let x = <bool as Decode>::decode(reader, budget)?;
        return Ok(Value::Bool(x));
    }
    if tag == 2 {
        let ghost b0 = *budget;
        budget.enter()?;
        let r = <String as Decode>::decode(reader, budget);
        budget.leave(Ghost(b0));
        let x = r?;
        return Ok(Value::String(x));
    }
    if tag == 3 {
        let ghost b0 = *budget;
        budget.enter()?;
        let r = <String as Decode>::decode(reader, budget);
        budget.leave(Ghost(b0));
        let x = r?;
        return Ok(Value::Json(x));
    }
    if tag == 4 {
        let ghost b0 = *budget;
        budget.enter()?;
        let r = <String as Decode>::decode(reader, budget);
        budget.leave(Ghost(b0));
        let x = r?;
        return Ok(Value::Xml(x));
    }
    if tag == 5 {
        let ghost b0 = *budget;
        budget.enter()?;
        let r = <String as Decode>::decode(reader, budget);
        budget.leave(Ghost(b0));
        let x = r?;
        return Ok(Value::Enum(x));
    }
    if tag == 6 {
        let ghost b0 = *budget;
        budget.enter()?;
        let r = <Blob as Decode>::decode(reader, budget);
        budget.leave(Ghost(b0));
        let x = r?;
        return Ok(Value::Bytes(x));
    }
    if tag == 7 {
        let x = <[u8; 16] as Decode>::decode(reader, budget)?;
        return Ok(Value::Uuid(x));
    }
    if tag == 8 {
        let ghost b0 = *budget;
        budget.enter()?;
        let r = <BitString as Decode>::decode(reader, budget);
        budget.leave(Ghost(b0));
        let x = r?;
        return Ok(Value::BitString(x));
    }
    Err(DecodeError::InvalidVariant { kind: "Value", seen: tag })
}

#[verifier::rlimit(60)]
fn read_value_number(tag: u32, reader: &mut Reader<'_>, budget: &mut Budget) -> (res: Result<Value, DecodeError>)
    requires
        tag == 9 || tag == 10 || tag == 11 || tag == 12 || tag == 13 || tag == 14 || tag == 15 || tag == 16 || tag == 17 || tag == 18 || tag == 19 || tag == 20,
        old(reader).position() <= old(reader).data().len() <= isize::MAX,
    ensures
        *final(budget) == *old(budget),
        old(budget).remaining() < spec_need_value_leaf(tag, old(reader).rest()) ==> res matches Err(DecodeError::Budget(BudgetError::Depth)),
        old(budget).remaining() >= spec_need_value_leaf(tag, old(reader).rest()) ==> decoded_as(res, spec_decode_leaf_payload(tag, old(reader).rest()).0),
        old(budget).remaining() >= spec_need_value_leaf(tag, old(reader).rest()) ==> old(reader).advanced_to(*final(reader), spec_decode_leaf_payload(tag, old(reader).rest()).1),
{
    proof {
        reveal(spec_decode_leaf_payload);
    }
    if tag == 9 {
        let x = <i8 as Decode>::decode(reader, budget)?;
        return Ok(Value::Int8(x));
    }
    if tag == 10 {
        let x = <i16 as Decode>::decode(reader, budget)?;
        return Ok(Value::Int16(x));
    }
    if tag == 11 {
        let x = <i32 as Decode>::decode(reader, budget)?;
        return Ok(Value::Int32(x));
    }
    if tag == 12 {
        let x = <i64 as Decode>::decode(reader, budget)?;
        return Ok(Value::Int64(x));
    }
    if tag == 13 {
        let ghost b0 = *budget;
        budget.enter()?;
        let r = <i128 as Decode>::decode(reader, budget);
        budget.leave(Ghost(b0));
        let x = r?;
        return Ok(Value::Int128(x));
    }
    if tag == 14 {
        let x = <u8 as Decode>::decode(reader, budget)?;
        return Ok(Value::UInt8(x));
    }
    if tag == 15 {
        let x = <u16 as Decode>::decode(reader, budget)?;
        return Ok(Value::UInt16(x));
    }
    if tag == 16 {
        let x = <u32 as Decode>::decode(reader, budget)?;
        return Ok(Value::UInt32(x));
    }
    if tag == 17 {
        let x = <u64 as Decode>::decode(reader, budget)?;
        return Ok(Value::UInt64(x));
    }
    if tag == 18 {
        let ghost b0 = *budget;
        budget.enter()?;
        let r = <u128 as Decode>::decode(reader, budget);
        budget.leave(Ghost(b0));
        let x = r?;
        return Ok(Value::UInt128(x));
    }
    if tag == 19 {
        let x = <[u8; 4] as Decode>::decode(reader, budget)?;
        return Ok(Value::Float32(x));
    }
    if tag == 20 {
        let x = <[u8; 8] as Decode>::decode(reader, budget)?;
        return Ok(Value::Float64(x));
    }
    Err(DecodeError::InvalidVariant { kind: "Value", seen: tag })
}

#[verifier::rlimit(60)]
fn read_value_tagged(tag: u32, reader: &mut Reader<'_>, budget: &mut Budget) -> (res: Result<Value, DecodeError>)
    requires
        tag == 27 || tag == 30 || tag == 40 || tag == 41,
        old(reader).position() <= old(reader).data().len() <= isize::MAX,
    ensures
        *final(budget) == *old(budget),
        old(budget).remaining() < spec_need_value_leaf(tag, old(reader).rest()) ==> res matches Err(DecodeError::Budget(BudgetError::Depth)),
        old(budget).remaining() >= spec_need_value_leaf(tag, old(reader).rest()) ==> decoded_as(res, spec_decode_leaf_payload(tag, old(reader).rest()).0),
        old(budget).remaining() >= spec_need_value_leaf(tag, old(reader).rest()) ==> old(reader).advanced_to(*final(reader), spec_decode_leaf_payload(tag, old(reader).rest()).1),
{
    proof {
        reveal(spec_decode_leaf_payload);
    }
    if tag == 27 {
        let x = <ExtensionPayload as Decode>::decode(reader, budget)?;
        return Ok(Value::Extension(x));
    }
    if tag == 30 {
        let ghost b0 = *budget;
        budget.enter()?;
        let r = <Decimal as Decode>::decode(reader, budget);
        budget.leave(Ghost(b0));
        let x = r?;
        return Ok(Value::Decimal(x));
    }
    if tag == 40 {
        let ghost b0 = *budget;
        budget.enter()?;
        let r = <IpAddr as Decode>::decode(reader, budget);
        budget.leave(Ghost(b0));
        let x = r?;
        return Ok(Value::Inet(x));
    }
    if tag == 41 {
        let ghost b0 = *budget;
        budget.enter()?;
        let r = <MacAddr as Decode>::decode(reader, budget);
        budget.leave(Ghost(b0));
        let x = r?;
        return Ok(Value::MacAddr(x));
    }
    Err(DecodeError::InvalidVariant { kind: "Value", seen: tag })
}

#[verifier::rlimit(60)]
fn read_value_temporal(tag: u32, reader: &mut Reader<'_>, budget: &mut Budget) -> (res: Result<Value, DecodeError>)
    requires
        tag == 50 || tag == 51 || tag == 52 || tag == 53 || tag == 54,
        old(reader).position() <= old(reader).data().len() <= isize::MAX,
    ensures
        *final(budget) == *old(budget),
        old(budget).remaining() < spec_need_value_leaf(tag, old(reader).rest()) ==> res matches Err(DecodeError::Budget(BudgetError::Depth)),
        old(budget).remaining() >= spec_need_value_leaf(tag, old(reader).rest()) ==> decoded_as(res, spec_decode_leaf_payload(tag, old(reader).rest()).0),
        old(budget).remaining() >= spec_need_value_leaf(tag, old(reader).rest()) ==> old(reader).advanced_to(*final(reader), spec_decode_leaf_payload(tag, old(reader).rest()).1),
{
    proof {
        reveal(spec_decode_leaf_payload);
    }
    if tag == 50 {
        let ghost b0 = *budget;
        budget.enter()?;
        let r = <Date as Decode>::decode(reader, budget);
        budget.leave(Ghost(b0));
        let x = r?;
        return Ok(Value::Date(x));
    }
    if tag == 51 {
        let ghost b0 = *budget;
        budget.enter()?;
        let r = <Time as Decode>::decode(reader, budget);
        budget.leave(Ghost(b0));
        let x = r?;
        return Ok(Value::Time(x));
    }
    if tag == 52 {
        let ghost b0 = *budget;
        budget.enter()?;
        let r = <DateTime as Decode>::decode(reader, budget);
        budget.leave(Ghost(b0));
        let x = r?;
        return Ok(Value::DateTime(x));
    }
    if tag == 53 {
        let ghost b0 = *budget;
        budget.enter()?;
        let r = <TimestampTz as Decode>::decode(reader, budget);
        budget.leave(Ghost(b0));
        let x = r?;
        return Ok(Value::TimestampTz(x));
    }
    if tag == 54 {
        let ghost b0 = *budget;
        budget.enter()?;
        let r = <Interval as Decode>::decode(reader, budget);
        budget.leave(Ghost(b0));
        let x = r?;
        return Ok(Value::Interval(x));
    }
    Err(DecodeError::InvalidVariant { kind: "Value", seen: tag })
}

#[verifier::rlimit(60)]
fn read_value_geometric(tag: u32, reader: &mut Reader<'_>, budget: &mut Budget) -> (res: Result<Value, DecodeError>)
    requires
        tag == 60 || tag == 61 || tag == 62 || tag == 63 || tag == 64 || tag == 65 || tag == 66,
        old(reader).position() <= old(reader).data().len() <= isize::MAX,
    ensures
        *final(budget) == *old(budget),
        old(budget).remaining() < spec_need_value_leaf(tag, old(reader).rest()) ==> res matches Err(DecodeError::Budget(BudgetError::Depth)),
        old(budget).remaining() >= spec_need_value_leaf(tag, old(reader).rest()) ==> decoded_as(res, spec_decode_leaf_payload(tag, old(reader).rest()).0),
        old(budget).remaining() >= spec_need_value_leaf(tag, old(reader).rest()) ==> old(reader).advanced_to(*final(reader), spec_decode_leaf_payload(tag, old(reader).rest()).1),
{
    proof {
        reveal(spec_decode_leaf_payload);
    }
    if tag == 60 {
        let ghost b0 = *budget;
        budget.enter()?;
        let r = <Point as Decode>::decode(reader, budget);
        budget.leave(Ghost(b0));
        let x = r?;
        return Ok(Value::Point(x));
    }
    if tag == 61 {
        let ghost b0 = *budget;
        budget.enter()?;
        let r = <Line as Decode>::decode(reader, budget);
        budget.leave(Ghost(b0));
        let x = r?;
        return Ok(Value::Line(x));
    }
    if tag == 62 {
        let ghost b0 = *budget;
        budget.enter()?;
        let r = <Segment as Decode>::decode(reader, budget);
        budget.leave(Ghost(b0));
        let x = r?;
        return Ok(Value::Segment(x));
    }
    if tag == 63 {
        let ghost b0 = *budget;
        budget.enter()?;
        let r = <Rect as Decode>::decode(reader, budget);
        budget.leave(Ghost(b0));
        let x = r?;
        return Ok(Value::Rect(x));
    }
    if tag == 64 {
        let ghost b0 = *budget;
        budget.enter()?;
        let r = <Circle as Decode>::decode(reader, budget);
        budget.leave(Ghost(b0));
        let x = r?;
        return Ok(Value::Circle(x));
    }
    if tag == 65 {
        let ghost b0 = *budget;
        budget.enter()?;
        let r = <Path as Decode>::decode(reader, budget);
        budget.leave(Ghost(b0));
        let x = r?;
        return Ok(Value::Path(x));
    }
    if tag == 66 {
        let ghost b0 = *budget;
        budget.enter()?;
        let r = <Polygon as Decode>::decode(reader, budget);
        budget.leave(Ghost(b0));
        let x = r?;
        return Ok(Value::Polygon(x));
    }
    Err(DecodeError::InvalidVariant { kind: "Value", seen: tag })
}

fn read_value_list(reader: &mut Reader<'_>, budget: &mut Budget, Ghost(fuel): Ghost<nat>) -> (res: Result<Vec<Value>, DecodeError>)
    requires
        old(reader).rest().len() <= fuel,
    ensures
        *final(budget) == *old(budget),
        old(budget).remaining() < spec_need_value_list(old(reader).rest(), fuel) ==> res matches Err(DecodeError::Budget(BudgetError::Depth)),
        old(budget).remaining() >= spec_need_value_list(old(reader).rest(), fuel) ==> (res matches Ok(v) ==> spec_decode_value_list(old(reader).rest(), fuel).0 == Ok::<Seq<ValueModel>, DecodeError>(values_model(v@))),
        old(budget).remaining() >= spec_need_value_list(old(reader).rest(), fuel) ==> (res matches Err(e) ==> spec_decode_value_list(old(reader).rest(), fuel).0 == Err::<Seq<ValueModel>, DecodeError>(e)),
        old(budget).remaining() >= spec_need_value_list(old(reader).rest(), fuel) ==> old(reader).advanced_to(*final(reader), spec_decode_value_list(old(reader).rest(), fuel).1),
    decreases fuel, 3nat, 0nat,
{
    let ghost r0 = *reader;
    let n = reader.read_varint_u32()?;
    if n > MAX_SEQ_LEN {
        return Err(DecodeError::LengthOverflow);
    }
    let ghost start = *reader;
    let ghost s0 = start.rest();
    proof {
        r0.lemma_rest_after(start, spec_read_varint_u32(r0.rest()).1);
    }
    let mut out: Vec<Value> = Vec::new();
    let mut i: u32 = 0;
    proof {
        assert(values_model(out@) =~= Seq::<ValueModel>::empty());
    }
    while i < n
        invariant
            i <= n,
            n <= MAX_SEQ_LEN,
            r0 == *old(reader),
            s0.len() <= fuel,
            spec_read_varint_u32(r0.rest()) == (Ok::<u32, DecodeError>(n), spec_read_varint_u32(r0.rest()).1),
            r0.advanced_to(start, spec_read_varint_u32(r0.rest()).1),
            r0.rest().skip(spec_read_varint_u32(r0.rest()).1 as int) == s0,
            s0 == start.rest(),
            spec_decode_value_elems(s0, i as nat, fuel).0 == Ok::<Seq<ValueModel>, DecodeError>(values_model(out@)),
            start.advanced_to(*reader, spec_decode_value_elems(s0, i as nat, fuel).1),
            *budget == *old(budget),
            budget.remaining() >= spec_need_value_elems(s0, i as nat, fuel),
        decreases n - i,
    {
        let ghost before = *reader;
        let ghost d = spec_decode_value_elems(s0, i as nat, fuel);
        proof {
            start.lemma_rest_after(before, d.1);
            lemma_need_value_elems_mono(s0, (i + 1) as nat, n as nat, fuel);
        }
        let ghost b0 = *budget;
        budget.enter()?;
        let r = read_value(reader, budget, Ghost(fuel));
        budget.leave(Ghost(b0));
        match r {
            Ok(item) => {
                let ghost prev = out@;
                out.push(item);
                proof {
                    assert(values_model(out@) =~= values_model(prev).push(item.deep_view()));
                }
            },
            Err(e) => {
                proof {
                    if b0.remaining() >= 1 + spec_need_value(before.rest(), fuel) {
                        lemma_need_value_elems_err(s0, (i + 1) as nat, n as nat, fuel);
                    }
                }
                return Err(e);
            },
        }
        i = i + 1;
    }
    Ok(out)
}

fn read_value_entry(reader: &mut Reader<'_>, budget: &mut Budget, Ghost(fuel): Ghost<nat>) -> (res: Result<ValueEntry, DecodeError>)
    requires
        old(reader).rest().len() <= fuel,
    ensures
        *final(budget) == *old(budget),
        old(budget).remaining() < spec_need_value_entry(old(reader).rest(), fuel) ==> res matches Err(DecodeError::Budget(BudgetError::Depth)),
        old(budget).remaining() >= spec_need_value_entry(old(reader).rest(), fuel) ==> decoded_as(res, spec_decode_entry(old(reader).rest(), fuel).0),
        old(budget).remaining() >= spec_need_value_entry(old(reader).rest(), fuel) ==> old(reader).advanced_to(*final(reader), spec_decode_entry(old(reader).rest(), fuel).1),
    decreases fuel, 1nat, 0nat,
{
    let ghost r0 = *reader;
    let ghost b0 = *budget;
    budget.enter()?;
    let rk = String::decode(reader, budget);
    budget.leave(Ghost(b0));
    let key = rk?;
    let ghost r1 = *reader;
    proof {
        r0.lemma_rest_after(r1, spec_decode_string(r0.rest()).1);
    }
    budget.enter()?;
    let rv = read_value(reader, budget, Ghost(fuel));
    budget.leave(Ghost(b0));
    let value = rv?;
    Ok(ValueEntry { key, value })
}

fn read_value_entry_list(reader: &mut Reader<'_>, budget: &mut Budget, Ghost(fuel): Ghost<nat>) -> (res: Result<Vec<ValueEntry>, DecodeError>)
    requires
        old(reader).rest().len() <= fuel,
    ensures
        *final(budget) == *old(budget),
        old(budget).remaining() < spec_need_value_entry_list(old(reader).rest(), fuel) ==> res matches Err(DecodeError::Budget(BudgetError::Depth)),
        old(budget).remaining() >= spec_need_value_entry_list(old(reader).rest(), fuel) ==> (res matches Ok(v) ==> spec_decode_entry_list(old(reader).rest(), fuel).0 == Ok::<Seq<EntryModel>, DecodeError>(value_entries_model(v@))),
        old(budget).remaining() >= spec_need_value_entry_list(old(reader).rest(), fuel) ==> (res matches Err(e) ==> spec_decode_entry_list(old(reader).rest(), fuel).0 == Err::<Seq<EntryModel>, DecodeError>(e)),
        old(budget).remaining() >= spec_need_value_entry_list(old(reader).rest(), fuel) ==> old(reader).advanced_to(*final(reader), spec_decode_entry_list(old(reader).rest(), fuel).1),
    decreases fuel, 3nat, 0nat,
{
    let ghost r0 = *reader;
    let n = reader.read_varint_u32()?;
    if n > MAX_SEQ_LEN {
        return Err(DecodeError::LengthOverflow);
    }
    let ghost start = *reader;
    let ghost s0 = start.rest();
    proof {
        r0.lemma_rest_after(start, spec_read_varint_u32(r0.rest()).1);
    }
    let mut out: Vec<ValueEntry> = Vec::new();
    let mut i: u32 = 0;
    proof {
        assert(value_entries_model(out@) =~= Seq::<EntryModel>::empty());
    }
    while i < n
        invariant
            i <= n,
            n <= MAX_SEQ_LEN,
            r0 == *old(reader),
            s0.len() <= fuel,
            spec_read_varint_u32(r0.rest()) == (Ok::<u32, DecodeError>(n), spec_read_varint_u32(r0.rest()).1),
            r0.advanced_to(start, spec_read_varint_u32(r0.rest()).1),
            r0.rest().skip(spec_read_varint_u32(r0.rest()).1 as int) == s0,
            s0 == start.rest(),
            spec_decode_entry_elems(s0, i as nat, fuel).0 == Ok::<Seq<EntryModel>, DecodeError>(value_entries_model(out@)),
            start.advanced_to(*reader, spec_decode_entry_elems(s0, i as nat, fuel).1),
            *budget == *old(budget),
            budget.remaining() >= spec_need_value_entry_elems(s0, i as nat, fuel),
        decreases n - i,
    {
        let ghost before = *reader;
        let ghost d = spec_decode_entry_elems(s0, i as nat, fuel);
        proof {
            start.lemma_rest_after(before, d.1);
            lemma_need_value_entry_elems_mono(s0, (i + 1) as nat, n as nat, fuel);
        }
        let r = read_value_entry(reader, budget, Ghost(fuel));
        match r {
            Ok(item) => {
                let ghost prev = out@;
                out.push(item);
                proof {
                    assert(value_entries_model(out@) =~= value_entries_model(prev).push(item.deep_view()));
                }
            },
            Err(e) => {
                proof {
                    if budget.remaining() >= spec_need_value_entry(before.rest(), fuel) {
                        lemma_need_value_entry_elems_err(s0, (i + 1) as nat, n as nat, fuel);
                    }
                }
                return Err(e);
            },
        }
        i = i + 1;
    }
    Ok(out)
}

fn read_value_bound(reader: &mut Reader<'_>, budget: &mut Budget, Ghost(fuel): Ghost<nat>) -> (res: Result<ValueBound, DecodeError>)
    requires
        old(reader).rest().len() <= fuel,
    ensures
        *final(budget) == *old(budget),
        old(budget).remaining() < spec_need_value_bound(old(reader).rest(), fuel) ==> res matches Err(DecodeError::Budget(BudgetError::Depth)),
        old(budget).remaining() >= spec_need_value_bound(old(reader).rest(), fuel) ==> (res matches Ok(b) ==> spec_decode_bound(old(reader).rest(), fuel).0 == Ok::<BoundModel, DecodeError>(value_bound_model(b))),
        old(budget).remaining() >= spec_need_value_bound(old(reader).rest(), fuel) ==> (res matches Err(e) ==> spec_decode_bound(old(reader).rest(), fuel).0 == Err::<BoundModel, DecodeError>(e)),
        old(budget).remaining() >= spec_need_value_bound(old(reader).rest(), fuel) ==> old(reader).advanced_to(*final(reader), spec_decode_bound(old(reader).rest(), fuel).1),
    decreases fuel, 1nat, 0nat,
{
    let ghost r0 = *reader;
    let t = reader.read_u8()?;
    proof {
        r0.lemma_rest_after(*reader, 1);
    }
    if t == 0 || t == 1 {
        let ghost b0 = *budget;
        budget.enter()?;
        let r = read_value(reader, budget, Ghost(fuel));
        budget.leave(Ghost(b0));
        let v = r?;
        if t == 0 {
            Ok(ValueBound::Included(Box::new(v)))
        } else {
            Ok(ValueBound::Excluded(Box::new(v)))
        }
    } else if t == 2 {
        Ok(ValueBound::Unbounded)
    } else {
        Err(DecodeError::InvalidVariant { kind: "Bound", seen: t as u32 })
    }
}

fn read_value_range(reader: &mut Reader<'_>, budget: &mut Budget, Ghost(fuel): Ghost<nat>) -> (res: Result<ValueRange, DecodeError>)
    requires
        old(reader).rest().len() <= fuel,
    ensures
        *final(budget) == *old(budget),
        old(budget).remaining() < spec_need_value_range(old(reader).rest(), fuel) ==> res matches Err(DecodeError::Budget(BudgetError::Depth)),
        old(budget).remaining() >= spec_need_value_range(old(reader).rest(), fuel) ==> decoded_as(res, spec_decode_range(old(reader).rest(), fuel).0),
        old(budget).remaining() >= spec_need_value_range(old(reader).rest(), fuel) ==> old(reader).advanced_to(*final(reader), spec_decode_range(old(reader).rest(), fuel).1),
    decreases fuel, 2nat, 0nat,
{
    let ghost r0 = *reader;
    let ghost b0 = *budget;
    budget.enter()?;
    let rs = read_value_bound(reader, budget, Ghost(fuel));
    budget.leave(Ghost(b0));
    let start = rs?;
    proof {
        r0.lemma_rest_after(*reader, spec_decode_bound(r0.rest(), fuel).1);
    }
    budget.enter()?;
    let re = read_value_bound(reader, budget, Ghost(fuel));
    budget.leave(Ghost(b0));
    let end = re?;
    Ok(ValueRange { start, end })
}

impl Decode for Value {
    open spec fn spec_decode(s: Seq<u8>) -> Decoded<ValueModel> {
        spec_decode_value(s, s.len())
    }

    proof fn lemma_decode_within(s: Seq<u8>) {
        lemma_value_within(s, s.len());
    }

    proof fn lemma_decode_local(s: Seq<u8>, t: Seq<u8>) {
        lemma_value_within(s, s.len());
        let n = spec_decode_value(s, s.len()).1;
        lemma_value_local(s, s.len(), t, (s.take(n as int) + t).len());
    }

    open spec fn spec_need(s: Seq<u8>) -> nat {
        spec_need_value(s, s.len())
    }

    fn decode(reader: &mut Reader<'_>, budget: &mut Budget) -> (res: Result<Value, DecodeError>) {
        read_value(reader, budget, Ghost(reader.rest().len()))
    }
}

impl Codec for Value {
    open spec fn spec_fits(m: ValueModel) -> bool {
        value_fits(m)
    }

    proof fn lemma_round_trip(m: ValueModel, tail: Seq<u8>) {
        lemma_value_round_trip(m, tail, (spec_encode_value(m).0 + tail).len());
    }
}

} // verus!
