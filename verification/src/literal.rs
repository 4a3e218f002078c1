//! Literals: constant values as they appear in expressions. A literal has
//! the same wire form as a [`Value`](crate::value::Value); its 128-bit
//! integers are read without entering a budget level.
use crate::codec::Codec;
use crate::compound::{spec_decode_string, MAX_SEQ_LEN};
use crate::core_types::{BitString, Blob, Interval};
use crate::decoder::{
    decoded_as, spec_read_u8, spec_read_varint_u32, Budget, BudgetError, Decode, DecodeError,
    Decoded, Reader,
};
use crate::encoder::{counted, EncodeError, Emitted, Encode, Writer};
use crate::network::{IpAddr, MacAddr};
use crate::scalar::{Date, DateTime, Decimal, ExtensionPayload, Line, Path, Point, Polygon, Rect, Segment, Circle, Time, TimestampTz};
use crate::value::{
    is_leaf_tag, lemma_entry_elems_stopped, lemma_value_elems_stopped, spec_decode_bound,
    spec_decode_entry, spec_decode_entry_elems, spec_decode_entry_list, spec_decode_leaf_payload,
    spec_decode_range, spec_decode_value, spec_decode_value_elems, spec_decode_value_list,
    spec_decode_value_payload, spec_encode_bound, spec_encode_entry, spec_encode_entry_elems,
    spec_encode_range, spec_encode_value, spec_encode_value_elems, value_tag, value_fits,
    lemma_value_within, lemma_value_local, lemma_value_round_trip, BoundModel,
    EntryModel, RangeModel, ValueModel,
};
use crate::varint::varint_bytes;
use vstd::prelude::*;

verus! {

/// A constant value, as it appears in an expression.
#[derive(Debug, PartialEq, Eq)]
pub enum Literal {
    /// No value.
    Null,
    /// A boolean.
    Bool(bool),
    /// Text.
    String(String),
    /// A JSON document, as text.
    Json(String),
    /// An XML document, as text.
    Xml(String),
    /// The name of an enum variant.
    Enum(String),
    /// Binary data.
    Bytes(Blob),
    /// A UUID, as its sixteen bytes.
    Uuid([u8; 16]),
    /// A bit string.
    BitString(BitString),
    /// Signed 8-bit integer.
    Int8(i8),
    /// Signed 16-bit integer.
    Int16(i16),
    /// Signed 32-bit integer.
    Int32(i32),
    /// Signed 64-bit integer.
    Int64(i64),
    /// Signed 128-bit integer.
    Int128(i128),
    /// Unsigned 8-bit integer.
    UInt8(u8),
    /// Unsigned 16-bit integer.
    UInt16(u16),
    /// Unsigned 32-bit integer.
    UInt32(u32),
    /// Unsigned 64-bit integer.
    UInt64(u64),
    /// Unsigned 128-bit integer.
    UInt128(u128),
    /// A 32-bit float, as its little-endian IEEE-754 bytes.
    Float32([u8; 4]),
    /// A 64-bit float, as its little-endian IEEE-754 bytes.
    Float64([u8; 8]),
    /// An ordered collection.
    Array(Vec<Literal>),
    /// An unordered collection.
    SetOf(Vec<Literal>),
    /// A fixed sequence of values.
    Tuple(Vec<Literal>),
    /// Keyed values.
    MapOf(Vec<LiteralEntry>),
    /// Named fields.
    Struct(Vec<LiteralEntry>),
    /// A range between two bounds.
    Range(Box<LiteralRange>),
    /// A value of an extension type: the type's name and its encoded payload.
    Extension(ExtensionPayload),
    /// A fixed-point number.
    Decimal(Decimal),
    /// An IP address.
    Inet(IpAddr),
    /// A MAC address.
    MacAddr(MacAddr),
    /// A calendar date.
    Date(Date),
    /// A time of day.
    Time(Time),
    /// A date and time.
    DateTime(DateTime),
    /// A date and time with its UTC offset.
    TimestampTz(TimestampTz),
    /// A calendar interval.
    Interval(Interval),
    /// A point of the plane.
    Point(Point),
    /// A line of the plane.
    Line(Line),
    /// A line segment.
    Segment(Segment),
    /// A rectangle.
    Rect(Rect),
    /// A circle.
    Circle(Circle),
    /// A path of points.
    Path(Path),
    /// A polygon.
    Polygon(Polygon),
}

/// A keyed [`Literal`]: a map entry or a struct field.
#[derive(Debug, PartialEq, Eq)]
pub struct LiteralEntry {
    /// The key or field name.
    pub key: String,
    /// The value.
    pub value: Literal,
}

/// One end of a [`LiteralRange`].
#[derive(Debug, PartialEq, Eq)]
pub enum LiteralBound {
    /// The end value belongs to the range.
    Included(Box<Literal>),
    /// The end value does not belong to the range.
    Excluded(Box<Literal>),
    /// No bound on this side.
    Unbounded,
}

/// A range of values between two bounds.
#[derive(Debug, PartialEq, Eq)]
pub struct LiteralRange {
    /// Lower end.
    pub start: LiteralBound,
    /// Upper end.
    pub end: LiteralBound,
}

/// The model of a literal.
pub open spec fn literal_model(v: Literal) -> ValueModel
    decreases v,
{
    match v {
        Literal::Null => ValueModel::Null,
        Literal::Bool(x) => ValueModel::Bool(x.deep_view()),
        Literal::String(x) => ValueModel::String(x.deep_view()),
        Literal::Json(x) => ValueModel::Json(x.deep_view()),
        Literal::Xml(x) => ValueModel::Xml(x.deep_view()),
        Literal::Enum(x) => ValueModel::Enum(x.deep_view()),
        Literal::Bytes(x) => ValueModel::Bytes(x.deep_view()),
        Literal::Uuid(x) => ValueModel::Uuid(x.deep_view()),
        Literal::BitString(x) => ValueModel::BitString(x.deep_view()),
        Literal::Int8(x) => ValueModel::Int8(x.deep_view()),
        Literal::Int16(x) => ValueModel::Int16(x.deep_view()),
        Literal::Int32(x) => ValueModel::Int32(x.deep_view()),
        Literal::Int64(x) => ValueModel::Int64(x.deep_view()),
        Literal::Int128(x) => ValueModel::Int128(x.deep_view()),
        Literal::UInt8(x) => ValueModel::UInt8(x.deep_view()),
        Literal::UInt16(x) => ValueModel::UInt16(x.deep_view()),
        Literal::UInt32(x) => ValueModel::UInt32(x.deep_view()),
        Literal::UInt64(x) => ValueModel::UInt64(x.deep_view()),
        Literal::UInt128(x) => ValueModel::UInt128(x.deep_view()),
        Literal::Float32(x) => ValueModel::Float32(x.deep_view()),
        Literal::Float64(x) => ValueModel::Float64(x.deep_view()),
        Literal::Array(vs) => ValueModel::Array(literals_model(vs@)),
        Literal::SetOf(vs) => ValueModel::SetOf(literals_model(vs@)),
        Literal::Tuple(vs) => ValueModel::Tuple(literals_model(vs@)),
        Literal::MapOf(es) => ValueModel::MapOf(literal_entries_model(es@)),
        Literal::Struct(es) => ValueModel::Struct(literal_entries_model(es@)),
        Literal::Range(r) => ValueModel::Range(Box::new(literal_range_model(*r))),
        Literal::Extension(x) => ValueModel::Extension(x.deep_view()),
        Literal::Decimal(x) => ValueModel::Decimal(x.deep_view()),
        Literal::Inet(x) => ValueModel::Inet(x.deep_view()),
        Literal::MacAddr(x) => ValueModel::MacAddr(x.deep_view()),
        Literal::Date(x) => ValueModel::Date(x.deep_view()),
        Literal::Time(x) => ValueModel::Time(x.deep_view()),
        Literal::DateTime(x) => ValueModel::DateTime(x.deep_view()),
        Literal::TimestampTz(x) => ValueModel::TimestampTz(x.deep_view()),
        Literal::Interval(x) => ValueModel::Interval(x.deep_view()),
        Literal::Point(x) => ValueModel::Point(x.deep_view()),
        Literal::Line(x) => ValueModel::Line(x.deep_view()),
        Literal::Segment(x) => ValueModel::Segment(x.deep_view()),
        Literal::Rect(x) => ValueModel::Rect(x.deep_view()),
        Literal::Circle(x) => ValueModel::Circle(x.deep_view()),
        Literal::Path(x) => ValueModel::Path(x.deep_view()),
        Literal::Polygon(x) => ValueModel::Polygon(x.deep_view()),
    }
}

/// The models of a list of literals.
pub open spec fn literals_model(vs: Seq<Literal>) -> Seq<ValueModel>
    decreases vs,
{
    Seq::new(vs.len(), |i: int| if 0 <= i < vs.len() { literal_model(vs[i]) } else { ValueModel::Null })
}

/// The model of a keyed literal.
pub open spec fn literal_entry_model(e: LiteralEntry) -> EntryModel
    decreases e,
{
    EntryModel { key: e.key@, value: literal_model(e.value) }
}

/// The models of a list of keyed literals.
pub open spec fn literal_entries_model(es: Seq<LiteralEntry>) -> Seq<EntryModel>
    decreases es,
{
    Seq::new(
        es.len(),
        |i: int|
            if 0 <= i < es.len() {
                literal_entry_model(es[i])
            } else {
                EntryModel { key: Seq::empty(), value: ValueModel::Null }
            },
    )
}

/// The model of one end of a range.
pub open spec fn literal_bound_model(b: LiteralBound) -> BoundModel
    decreases b,
{
    match b {
        LiteralBound::Included(v) => BoundModel::Included(Box::new(literal_model(*v))),
        LiteralBound::Excluded(v) => BoundModel::Excluded(Box::new(literal_model(*v))),
        LiteralBound::Unbounded => BoundModel::Unbounded,
    }
}

/// The model of a range.
pub open spec fn literal_range_model(r: LiteralRange) -> RangeModel
    decreases r,
{
    RangeModel { start: literal_bound_model(r.start), end: literal_bound_model(r.end) }
}

impl DeepView for Literal {
    type V = ValueModel;

    open spec fn deep_view(&self) -> ValueModel {
        literal_model(*self)
    }
}

impl DeepView for LiteralEntry {
    type V = EntryModel;

    open spec fn deep_view(&self) -> EntryModel {
        literal_entry_model(*self)
    }
}

impl DeepView for LiteralRange {
    type V = RangeModel;

    open spec fn deep_view(&self) -> RangeModel {
        literal_range_model(*self)
    }
}

/// How many budget levels reading a literal from `s` needs.
pub open spec fn spec_need_literal(s: Seq<u8>, fuel: nat) -> nat
    decreases fuel, 0nat, 0nat,
{
    if fuel == 0 {
        0
    } else {
        match spec_read_varint_u32(s).0 {
            Ok(tag) => spec_need_literal_payload(tag, s.skip(spec_read_varint_u32(s).1 as int), (fuel - 1) as nat),
            Err(_) => 0,
        }
    }
}

/// How many budget levels the payload of a literal with nothing nested needs.
pub open spec fn spec_need_literal_leaf(tag: u32, s: Seq<u8>) -> nat {
    if tag == 1 {
        <bool as Decode>::spec_need(s)
    } else if tag == 2 {
        1 + <String as Decode>::spec_need(s)
    } else if tag == 3 {
        1 + <String as Decode>::spec_need(s)
    } else if tag == 4 {
        1 + <String as Decode>::spec_need(s)
    } else if tag == 5 {
        1 + <String as Decode>::spec_need(s)
    } else if tag == 6 {
        1 + <Blob as Decode>::spec_need(s)
    } else if tag == 7 {
        <[u8; 16] as Decode>::spec_need(s)
    } else if tag == 8 {
        1 + <BitString as Decode>::spec_need(s)
    } else if tag == 9 {
        <i8 as Decode>::spec_need(s)
    } else if tag == 10 {
        <i16 as Decode>::spec_need(s)
    } else if tag == 11 {
        <i32 as Decode>::spec_need(s)
    } else if tag == 12 {
        <i64 as Decode>::spec_need(s)
    } else if tag == 13 {
        <i128 as Decode>::spec_need(s)
    } else if tag == 14 {
        <u8 as Decode>::spec_need(s)
    } else if tag == 15 {
        <u16 as Decode>::spec_need(s)
    } else if tag == 16 {
        <u32 as Decode>::spec_need(s)
    } else if tag == 17 {
        <u64 as Decode>::spec_need(s)
    } else if tag == 18 {
        <u128 as Decode>::spec_need(s)
    } else if tag == 19 {
        <[u8; 4] as Decode>::spec_need(s)
    } else if tag == 20 {
        <[u8; 8] as Decode>::spec_need(s)
    } else if tag == 27 {
        <ExtensionPayload as Decode>::spec_need(s)
    } else if tag == 30 {
        1 + <Decimal as Decode>::spec_need(s)
    } else if tag == 40 {
        1 + <IpAddr as Decode>::spec_need(s)
    } else if tag == 41 {
        1 + <MacAddr as Decode>::spec_need(s)
    } else if tag == 50 {
        1 + <Date as Decode>::spec_need(s)
    } else if tag == 51 {
        1 + <Time as Decode>::spec_need(s)
    } else if tag == 52 {
        1 + <DateTime as Decode>::spec_need(s)
    } else if tag == 53 {
        1 + <TimestampTz as Decode>::spec_need(s)
    } else if tag == 54 {
        1 + <Interval as Decode>::spec_need(s)
    } else if tag == 60 {
        1 + <Point as Decode>::spec_need(s)
    } else if tag == 61 {
        1 + <Line as Decode>::spec_need(s)
    } else if tag == 62 {
        1 + <Segment as Decode>::spec_need(s)
    } else if tag == 63 {
        1 + <Rect as Decode>::spec_need(s)
    } else if tag == 64 {
        1 + <Circle as Decode>::spec_need(s)
    } else if tag == 65 {
        1 + <Path as Decode>::spec_need(s)
    } else if tag == 66 {
        1 + <Polygon as Decode>::spec_need(s)
    } else {
        0
    }
}

/// How many budget levels the payload after discriminant `tag` needs.
pub open spec fn spec_need_literal_payload(tag: u32, s: Seq<u8>, fuel: nat) -> nat
    decreases fuel, 5nat, 0nat,
{
    if is_leaf_tag(tag) {
        spec_need_literal_leaf(tag, s)
    } else if 21 <= tag <= 23 {
        1 + spec_need_literal_list(s, fuel)
    } else if tag == 24 || tag == 25 {
        1 + spec_need_literal_entry_list(s, fuel)
    } else if tag == 26 {
        1 + spec_need_literal_range(s, fuel)
    } else {
        0
    }
}

/// How many budget levels a counted list of literals needs.
pub open spec fn spec_need_literal_list(s: Seq<u8>, fuel: nat) -> nat
    decreases fuel, 3nat, 0nat,
{
    match spec_read_varint_u32(s).0 {
        Ok(n) => if n > MAX_SEQ_LEN {
            0
        } else {
            spec_need_literal_elems(s.skip(spec_read_varint_u32(s).1 as int), n as nat, fuel)
        },
        Err(_) => 0,
    }
}

/// How many budget levels the first `n` literals of a list need, each read one
/// level down, up to the first that fails.
pub open spec fn spec_need_literal_elems(s: Seq<u8>, n: nat, fuel: nat) -> nat
    decreases fuel, 2nat, n,
{
    if n == 0 {
        0
    } else {
        let d = spec_decode_value_elems(s, (n - 1) as nat, fuel);
        let prev = spec_need_literal_elems(s, (n - 1) as nat, fuel);
        if d.0 is Ok {
            let k = 1 + spec_need_literal(s.skip(d.1 as int), fuel);
            if k > prev {
                k
            } else {
                prev
            }
        } else {
            prev
        }
    }
}

/// How many budget levels a keyed literal needs: the key and the value are
/// each read one level down.
pub open spec fn spec_need_literal_entry(s: Seq<u8>, fuel: nat) -> nat
    decreases fuel, 1nat, 0nat,
{
    match spec_decode_string(s).0 {
        Ok(_) => 1 + spec_need_literal(s.skip(spec_decode_string(s).1 as int), fuel),
        Err(_) => 1,
    }
}

/// How many budget levels a counted list of keyed literals needs.
pub open spec fn spec_need_literal_entry_list(s: Seq<u8>, fuel: nat) -> nat
    decreases fuel, 3nat, 0nat,
{
    match spec_read_varint_u32(s).0 {
        Ok(n) => if n > MAX_SEQ_LEN {
            0
        } else {
            spec_need_literal_entry_elems(s.skip(spec_read_varint_u32(s).1 as int), n as nat, fuel)
        },
        Err(_) => 0,
    }
}

/// How many budget levels the first `n` keyed literals need, up to the first
/// that fails.
pub open spec fn spec_need_literal_entry_elems(s: Seq<u8>, n: nat, fuel: nat) -> nat
    decreases fuel, 2nat, n,
{
    if n == 0 {
        0
    } else {
        let d = spec_decode_entry_elems(s, (n - 1) as nat, fuel);
        let prev = spec_need_literal_entry_elems(s, (n - 1) as nat, fuel);
        if d.0 is Ok {
            let k = spec_need_literal_entry(s.skip(d.1 as int), fuel);
            if k > prev {
                k
            } else {
                prev
            }
        } else {
            prev
        }
    }
}

/// How many budget levels one end of a range needs: its value is read one
/// level down.
pub open spec fn spec_need_literal_bound(s: Seq<u8>, fuel: nat) -> nat
    decreases fuel, 1nat, 0nat,
{
    match spec_read_u8(s).0 {
        Ok(t) => if t == 0 || t == 1 {
            1 + spec_need_literal(s.skip(1), fuel)
        } else {
            0
        },
        Err(_) => 0,
    }
}

/// How many budget levels a range needs: each end is read one level down.
pub open spec fn spec_need_literal_range(s: Seq<u8>, fuel: nat) -> nat
    decreases fuel, 2nat, 0nat,
{
    let a = 1 + spec_need_literal_bound(s, fuel);
    let d = spec_decode_bound(s, fuel);
    if d.0 is Ok {
        let b = 1 + spec_need_literal_bound(s.skip(d.1 as int), fuel);
        if a >= b {
            a
        } else {
            b
        }
    } else {
        a
    }
}

proof fn lemma_need_literal_elems_mono(s: Seq<u8>, i: nat, n: nat, fuel: nat)
    ensures
        i <= n ==> spec_need_literal_elems(s, i, fuel) <= spec_need_literal_elems(s, n, fuel),
    decreases n,
{
    if i < n {
        lemma_need_literal_elems_mono(s, i, (n - 1) as nat, fuel);
    }
}

proof fn lemma_need_literal_elems_err(s: Seq<u8>, i: nat, n: nat, fuel: nat)
    requires
        i <= n,
        spec_decode_value_elems(s, i, fuel).0 is Err,
    ensures
        spec_need_literal_elems(s, n, fuel) == spec_need_literal_elems(s, i, fuel),
        spec_decode_value_elems(s, n, fuel) == spec_decode_value_elems(s, i, fuel),
    decreases n - i,
{
    if i < n {
        lemma_need_literal_elems_err(s, i, (n - 1) as nat, fuel);
    }
}

proof fn lemma_need_literal_entry_elems_mono(s: Seq<u8>, i: nat, n: nat, fuel: nat)
    ensures
        i <= n ==> spec_need_literal_entry_elems(s, i, fuel) <= spec_need_literal_entry_elems(s, n, fuel),
    decreases n,
{
    if i < n {
        lemma_need_literal_entry_elems_mono(s, i, (n - 1) as nat, fuel);
    }
}

proof fn lemma_need_literal_entry_elems_err(s: Seq<u8>, i: nat, n: nat, fuel: nat)
    requires
        i <= n,
        spec_decode_entry_elems(s, i, fuel).0 is Err,
    ensures
        spec_need_literal_entry_elems(s, n, fuel) == spec_need_literal_entry_elems(s, i, fuel),
        spec_decode_entry_elems(s, n, fuel) == spec_decode_entry_elems(s, i, fuel),
    decreases n - i,
{
    if i < n {
        lemma_need_literal_entry_elems_err(s, i, (n - 1) as nat, fuel);
    }
}

impl Literal {
    /// The discriminant that opens this literal on the wire.
    pub fn tag(&self) -> (t: u32)
        ensures
            t == value_tag(self.deep_view()),
    {
        match self {
            Literal::Null => 0,
            Literal::Bool(..) => 1,
            Literal::String(..) => 2,
            Literal::Json(..) => 3,
            Literal::Xml(..) => 4,
            Literal::Enum(..) => 5,
            Literal::Bytes(..) => 6,
            Literal::Uuid(..) => 7,
            Literal::BitString(..) => 8,
            Literal::Int8(..) => 9,
            Literal::Int16(..) => 10,
            Literal::Int32(..) => 11,
            Literal::Int64(..) => 12,
            Literal::Int128(..) => 13,
            Literal::UInt8(..) => 14,
            Literal::UInt16(..) => 15,
            Literal::UInt32(..) => 16,
            Literal::UInt64(..) => 17,
            Literal::UInt128(..) => 18,
            Literal::Float32(..) => 19,
            Literal::Float64(..) => 20,
            Literal::Array(..) => 21,
            Literal::SetOf(..) => 22,
            Literal::Tuple(..) => 23,
            Literal::MapOf(..) => 24,
            Literal::Struct(..) => 25,
            Literal::Range(..) => 26,
            Literal::Extension(..) => 27,
            Literal::Decimal(..) => 30,
            Literal::Inet(..) => 40,
            Literal::MacAddr(..) => 41,
            Literal::Date(..) => 50,
            Literal::Time(..) => 51,
            Literal::DateTime(..) => 52,
            Literal::TimestampTz(..) => 53,
            Literal::Interval(..) => 54,
            Literal::Point(..) => 60,
            Literal::Line(..) => 61,
            Literal::Segment(..) => 62,
            Literal::Rect(..) => 63,
            Literal::Circle(..) => 64,
            Literal::Path(..) => 65,
            Literal::Polygon(..) => 66,
        }
    }
}

#[verifier::rlimit(100)]
fn write_literal(v: &Literal, w: &mut Writer) -> (res: Result<(), EncodeError>)
    ensures
        final(w).bytes() == old(w).bytes() + spec_encode_value(v.deep_view()).0,
        final(w).start() == old(w).start(),
        res is Ok <==> spec_encode_value(v.deep_view()).1,
        res matches Err(e) ==> e is LengthOverflow,
    decreases v,
{
    w.write_varint_u32(v.tag())?;
    let ghost head = w.bytes();
    let r = match v {
        Literal::Null => Ok(()),
        Literal::Bool(x) => x.encode(w),
        Literal::String(x) => x.encode(w),
        Literal::Json(x) => x.encode(w),
        Literal::Xml(x) => x.encode(w),
        Literal::Enum(x) => x.encode(w),
        Literal::Bytes(x) => x.encode(w),
        Literal::Uuid(x) => x.encode(w),
        Literal::BitString(x) => x.encode(w),
        Literal::Int8(x) => x.encode(w),
        Literal::Int16(x) => x.encode(w),
        Literal::Int32(x) => x.encode(w),
        Literal::Int64(x) => x.encode(w),
        Literal::Int128(x) => x.encode(w),
        Literal::UInt8(x) => x.encode(w),
        Literal::UInt16(x) => x.encode(w),
        Literal::UInt32(x) => x.encode(w),
        Literal::UInt64(x) => x.encode(w),
        Literal::UInt128(x) => x.encode(w),
        Literal::Float32(x) => x.encode(w),
        Literal::Float64(x) => x.encode(w),
        Literal::Array(vs) => write_literal_list(vs, w),
        Literal::SetOf(vs) => write_literal_list(vs, w),
        Literal::Tuple(vs) => write_literal_list(vs, w),
        Literal::MapOf(es) => write_literal_entries(es, w),
        Literal::Struct(es) => write_literal_entries(es, w),
        Literal::Range(r) => write_literal_range(r, w),
        Literal::Extension(x) => x.encode(w),
        Literal::Decimal(x) => x.encode(w),
        Literal::Inet(x) => x.encode(w),
        Literal::MacAddr(x) => x.encode(w),
        Literal::Date(x) => x.encode(w),
        Literal::Time(x) => x.encode(w),
        Literal::DateTime(x) => x.encode(w),
        Literal::TimestampTz(x) => x.encode(w),
        Literal::Interval(x) => x.encode(w),
        Literal::Point(x) => x.encode(w),
        Literal::Line(x) => x.encode(w),
        Literal::Segment(x) => x.encode(w),
        Literal::Rect(x) => x.encode(w),
        Literal::Circle(x) => x.encode(w),
        Literal::Path(x) => x.encode(w),
        Literal::Polygon(x) => x.encode(w),
    };
    proof {
        let tb = varint_bytes(value_tag(v.deep_view()) as nat);
        assert(head == old(w).bytes() + tb);
        assert(w.bytes() =~= old(w).bytes() + (tb + (w.bytes().skip(head.len() as int))));
    }
    r
}

fn write_literal_list(vs: &Vec<Literal>, w: &mut Writer) -> (res: Result<(), EncodeError>)
    ensures
        final(w).bytes() == old(w).bytes() + counted(vs@.len(), spec_encode_value_elems(literals_model(vs@))).0,
        final(w).start() == old(w).start(),
        res is Ok <==> counted(vs@.len(), spec_encode_value_elems(literals_model(vs@))).1,
        res matches Err(e) ==> e is LengthOverflow,
    decreases vs,
{
    if vs.len() > u32::MAX as usize {
        return Err(EncodeError::LengthOverflow);
    }
    let ghost w0 = w.bytes();
    w.write_varint_u32(vs.len() as u32)?;
    let ghost head = w.bytes();
    let ghost ms = literals_model(vs@);
    let mut i: usize = 0;
    proof {
        assert(ms.take(0) =~= Seq::<ValueModel>::empty());
        assert(head + Seq::<u8>::empty() =~= head);
    }
    while i < vs.len()
        invariant
            i <= vs.len(),
            vs.len() <= u32::MAX,
            ms == literals_model(vs@),
            w0 == old(w).bytes(),
            w.start() == old(w).start(),
            head == w0 + varint_bytes(vs@.len()),
            w.bytes() == head + spec_encode_value_elems(ms.take(i as int)).0,
            spec_encode_value_elems(ms.take(i as int)).1,
        decreases vs.len() - i,
    {
        let r = write_literal(&vs[i], w);
        proof {
            assert(ms.take(i + 1 as int).drop_last() =~= ms.take(i as int));
            assert(ms.take(i + 1 as int).last() == vs@[i as int].deep_view());
            assert(w.bytes() =~= head + spec_encode_value_elems(ms.take(i + 1 as int)).0);
        }
        if r.is_err() {
            proof {
                lemma_value_elems_stopped(ms, (i + 1) as nat);
            }
            return r;
        }
        i = i + 1;
    }
    proof {
        assert(ms.take(i as int) =~= ms);
    }
    Ok(())
}

fn write_literal_entry(e: &LiteralEntry, w: &mut Writer) -> (res: Result<(), EncodeError>)
    ensures
        final(w).bytes() == old(w).bytes() + spec_encode_entry(e.deep_view()).0,
        final(w).start() == old(w).start(),
        res is Ok <==> spec_encode_entry(e.deep_view()).1,
        res matches Err(e) ==> e is LengthOverflow,
    decreases e,
{
    let ghost w0 = w.bytes();
    e.key.encode(w)?;
    let ghost w1 = w.bytes();
    let r = write_literal(&e.value, w);
    proof {
        assert(w.bytes() =~= w0 + (w1.skip(w0.len() as int) + w.bytes().skip(w1.len() as int)));
    }
    r
}

fn write_literal_entries(es: &Vec<LiteralEntry>, w: &mut Writer) -> (res: Result<(), EncodeError>)
    ensures
        final(w).bytes() == old(w).bytes() + counted(es@.len(), spec_encode_entry_elems(literal_entries_model(es@))).0,
        final(w).start() == old(w).start(),
        res is Ok <==> counted(es@.len(), spec_encode_entry_elems(literal_entries_model(es@))).1,
        res matches Err(e) ==> e is LengthOverflow,
    decreases es,
{
    if es.len() > u32::MAX as usize {
        return Err(EncodeError::LengthOverflow);
    }
    let ghost w0 = w.bytes();
    w.write_varint_u32(es.len() as u32)?;
    let ghost head = w.bytes();
    let ghost ms = literal_entries_model(es@);
    let mut i: usize = 0;
    proof {
        assert(ms.take(0) =~= Seq::<EntryModel>::empty());
        assert(head + Seq::<u8>::empty() =~= head);
    }
    while i < es.len()
        invariant
            i <= es.len(),
            es.len() <= u32::MAX,
            ms == literal_entries_model(es@),
            w0 == old(w).bytes(),
            w.start() == old(w).start(),
            head == w0 + varint_bytes(es@.len()),
            w.bytes() == head + spec_encode_entry_elems(ms.take(i as int)).0,
            spec_encode_entry_elems(ms.take(i as int)).1,
        decreases es.len() - i,
    {
        let r = write_literal_entry(&es[i], w);
        proof {
            assert(ms.take(i + 1 as int).drop_last() =~= ms.take(i as int));
            assert(ms.take(i + 1 as int).last() == es@[i as int].deep_view());
            assert(w.bytes() =~= head + spec_encode_entry_elems(ms.take(i + 1 as int)).0);
        }
        if r.is_err() {
            proof {
                lemma_entry_elems_stopped(ms, (i + 1) as nat);
            }
            return r;
        }
        i = i + 1;
    }
    proof {
        assert(ms.take(i as int) =~= ms);
    }
    Ok(())
}

fn write_literal_bound(b: &LiteralBound, w: &mut Writer) -> (res: Result<(), EncodeError>)
    ensures
        final(w).bytes() == old(w).bytes() + spec_encode_bound(literal_bound_model(*b)).0,
        final(w).start() == old(w).start(),
        res is Ok <==> spec_encode_bound(literal_bound_model(*b)).1,
        res matches Err(e) ==> e is LengthOverflow,
    decreases b,
{
    match b {
        LiteralBound::Included(v) => {
            w.write_u8(0)?;
            let ghost w1 = w.bytes();
            let r = write_literal(v, w);
            assert(w.bytes() =~= old(w).bytes() + (seq![0u8] + w.bytes().skip(w1.len() as int)));
            r
        },
        LiteralBound::Excluded(v) => {
            w.write_u8(1)?;
            let ghost w1 = w.bytes();
            let r = write_literal(v, w);
            assert(w.bytes() =~= old(w).bytes() + (seq![1u8] + w.bytes().skip(w1.len() as int)));
            r
        },
        LiteralBound::Unbounded => {
            let r = w.write_u8(2);
            assert(w.bytes() =~= old(w).bytes() + seq![2u8]);
            r
        },
    }
}

fn write_literal_range(r: &LiteralRange, w: &mut Writer) -> (res: Result<(), EncodeError>)
    ensures
        final(w).bytes() == old(w).bytes() + spec_encode_range(r.deep_view()).0,
        final(w).start() == old(w).start(),
        res is Ok <==> spec_encode_range(r.deep_view()).1,
        res matches Err(e) ==> e is LengthOverflow,
    decreases r,
{
    let ghost w0 = w.bytes();
    write_literal_bound(&r.start, w)?;
    let ghost w1 = w.bytes();
    let res = write_literal_bound(&r.end, w);
    proof {
        assert(w.bytes() =~= w0 + (w1.skip(w0.len() as int) + w.bytes().skip(w1.len() as int)));
    }
    res
}

impl Encode for Literal {
    open spec fn spec_encode(m: ValueModel) -> Emitted {
        spec_encode_value(m)
    }

    fn encode(&self, writer: &mut Writer) -> (res: Result<(), EncodeError>) {
        write_literal(self, writer)
    }
}

fn read_literal(reader: &mut Reader<'_>, budget: &mut Budget, Ghost(fuel): Ghost<nat>) -> (res: Result<Literal, DecodeError>)
    requires
        old(reader).rest().len() <= fuel,
    ensures
        *final(budget) == *old(budget),
        old(budget).remaining() < spec_need_literal(old(reader).rest(), fuel) ==> res matches Err(DecodeError::Budget(BudgetError::Depth)),
        old(budget).remaining() >= spec_need_literal(old(reader).rest(), fuel) ==> decoded_as(res, spec_decode_value(old(reader).rest(), fuel).0),
        old(budget).remaining() >= spec_need_literal(old(reader).rest(), fuel) ==> old(reader).advanced_to(*final(reader), spec_decode_value(old(reader).rest(), fuel).1),
    decreases fuel, 0nat, 0nat,
{
    let ghost r0 = *reader;
    proof {
        crate::varint::lemma_scan_varint_done(r0.rest(), 5);
    }
    let tag = reader.read_varint_u32()?;
    proof {
        r0.lemma_rest_after(*reader, spec_read_varint_u32(r0.rest()).1);
    }
    read_literal_payload(tag, reader, budget, Ghost((fuel - 1) as nat))
}

fn read_literal_payload(tag: u32, reader: &mut Reader<'_>, budget: &mut Budget, Ghost(fuel): Ghost<nat>) -> (res: Result<Literal, DecodeError>)
    requires
        old(reader).rest().len() <= fuel,
        old(reader).position() <= old(reader).data().len() <= isize::MAX,
    ensures
        *final(budget) == *old(budget),
        old(budget).remaining() < spec_need_literal_payload(tag, old(reader).rest(), fuel) ==> res matches Err(DecodeError::Budget(BudgetError::Depth)),
        old(budget).remaining() >= spec_need_literal_payload(tag, old(reader).rest(), fuel) ==> decoded_as(res, spec_decode_value_payload(tag, old(reader).rest(), fuel).0),
        old(budget).remaining() >= spec_need_literal_payload(tag, old(reader).rest(), fuel) ==> old(reader).advanced_to(*final(reader), spec_decode_value_payload(tag, old(reader).rest(), fuel).1),
    decreases fuel, 4nat, 0nat,
{
    if tag <= 20 || tag == 27 || tag == 30 || tag == 40 || tag == 41 || (50 <= tag && tag <= 54) || (60 <= tag && tag <= 66) {
        return read_literal_leaf(tag, reader, budget);
    }
    read_literal_nested(tag, reader, budget, Ghost(fuel))
}

#[verifier::rlimit(60)]
fn read_literal_leaf(tag: u32, reader: &mut Reader<'_>, budget: &mut Budget) -> (res: Result<Literal, DecodeError>)
    requires
        is_leaf_tag(tag),
        old(reader).position() <= old(reader).data().len() <= isize::MAX,
    ensures
        *final(budget) == *old(budget),
        old(budget).remaining() < spec_need_literal_leaf(tag, old(reader).rest()) ==> res matches Err(DecodeError::Budget(BudgetError::Depth)),
        old(budget).remaining() >= spec_need_literal_leaf(tag, old(reader).rest()) ==> decoded_as(res, spec_decode_leaf_payload(tag, old(reader).rest()).0),
        old(budget).remaining() >= spec_need_literal_leaf(tag, old(reader).rest()) ==> old(reader).advanced_to(*final(reader), spec_decode_leaf_payload(tag, old(reader).rest()).1),
{
    proof {
        reveal(spec_decode_leaf_payload);
    }
    if tag == 1 || tag == 2 || tag == 3 || tag == 4 || tag == 5 || tag == 6 || tag == 7 || tag == 8 {
        return read_literal_text(tag, reader, budget);
    }
    if tag == 9 || tag == 10 || tag == 11 || tag == 12 || tag == 13 || tag == 14 || tag == 15 || tag == 16 || tag == 17 || tag == 18 || tag == 19 || tag == 20 {
        return read_literal_number(tag, reader, budget);
    }
    if tag == 27 || tag == 30 || tag == 40 || tag == 41 {
        return read_literal_tagged(tag, reader, budget);
    }
    if tag == 50 || tag == 51 || tag == 52 || tag == 53 || tag == 54 {
        return read_literal_temporal(tag, reader, budget);
    }
    if tag == 60 || tag == 61 || tag == 62 || tag == 63 || tag == 64 || tag == 65 || tag == 66 {
        return read_literal_geometric(tag, reader, budget);
    }
    Ok(Literal::Null)
}

#[verifier::rlimit(60)]
fn read_literal_nested(tag: u32, reader: &mut Reader<'_>, budget: &mut Budget, Ghost(fuel): Ghost<nat>) -> (res: Result<Literal, DecodeError>)
    requires
        !is_leaf_tag(tag),
        old(reader).rest().len() <= fuel,
        old(reader).position() <= old(reader).data().len() <= isize::MAX,
    ensures
        *final(budget) == *old(budget),
        old(budget).remaining() < spec_need_literal_payload(tag, old(reader).rest(), fuel) ==> res matches Err(DecodeError::Budget(BudgetError::Depth)),
        old(budget).remaining() >= spec_need_literal_payload(tag, old(reader).rest(), fuel) ==> decoded_as(res, spec_decode_value_payload(tag, old(reader).rest(), fuel).0),
        old(budget).remaining() >= spec_need_literal_payload(tag, old(reader).rest(), fuel) ==> old(reader).advanced_to(*final(reader), spec_decode_value_payload(tag, old(reader).rest(), fuel).1),
    decreases fuel, 3nat, 1nat,
{
    if 21 <= tag && tag <= 23 {
        let ghost b0 = *budget;
        budget.enter()?;
        let r = read_literal_list(reader, budget, Ghost(fuel));
        budget.leave(Ghost(b0));
        let vs = r?;
        if tag == 21 {
            return Ok(Literal::Array(vs));
        } else if tag == 22 {
            return Ok(Literal::SetOf(vs));
        } else {
            return Ok(Literal::Tuple(vs));
        }
    }
    if tag == 24 || tag == 25 {
        let ghost b0 = *budget;
        budget.enter()?;
        let r = read_literal_entry_list(reader, budget, Ghost(fuel));
        budget.leave(Ghost(b0));
        let es = r?;
        if tag == 24 {
            return Ok(Literal::MapOf(es));
        } else {
            return Ok(Literal::Struct(es));
        }
    }
    if tag == 26 {
        let ghost b0 = *budget;
        budget.enter()?;
        let r = read_literal_range(reader, budget, Ghost(fuel));
        budget.leave(Ghost(b0));
        let range = r?;
        return Ok(Literal::Range(Box::new(range)));
    }
    Err(DecodeError::InvalidVariant { kind: "Value", seen: tag })
}

#[verifier::rlimit(60)]
fn read_literal_text(tag: u32, reader: &mut Reader<'_>, budget: &mut Budget) -> (res: Result<Literal, DecodeError>)
    requires
        tag == 1 || tag == 2 || tag == 3 || tag == 4 || tag == 5 || tag == 6 || tag == 7 || tag == 8,
        old(reader).position() <= old(reader).data().len() <= isize::MAX,
    ensures
        *final(budget) == *old(budget),
        old(budget).remaining() < spec_need_literal_leaf(tag, old(reader).rest()) ==> res matches Err(DecodeError::Budget(BudgetError::Depth)),
        old(budget).remaining() >= spec_need_literal_leaf(tag, old(reader).rest()) ==> decoded_as(res, spec_decode_leaf_payload(tag, old(reader).rest()).0),
        old(budget).remaining() >= spec_need_literal_leaf(tag, old(reader).rest()) ==> old(reader).advanced_to(*final(reader), spec_decode_leaf_payload(tag, old(reader).rest()).1),
{
    proof {
        reveal(spec_decode_leaf_payload);
    }
    if tag == 1 {
        let x = <bool as Decode>::decode(reader, budget)?;
        return Ok(Literal::Bool(x));
    }
    if tag == 2 {
        let ghost b0 = *budget;
        budget.enter()?;
        let r = <String as Decode>::decode(reader, budget);
        budget.leave(Ghost(b0));
        let x = r?;
        return Ok(Literal::String(x));
    }
    if tag == 3 {
        let ghost b0 = *budget;
        budget.enter()?;
        let r = <String as Decode>::decode(reader, budget);
        budget.leave(Ghost(b0));
        let x = r?;
        return Ok(Literal::Json(x));
    }
    if tag == 4 {
        let ghost b0 = *budget;
        budget.enter()?;
        let r = <String as Decode>::decode(reader, budget);
        budget.leave(Ghost(b0));
        let x = r?;
        return Ok(Literal::Xml(x));
    }
    if tag == 5 {
        let ghost b0 = *budget;
        budget.enter()?;
        let r = <String as Decode>::decode(reader, budget);
        budget.leave(Ghost(b0));
        let x = r?;
        return Ok(Literal::Enum(x));
    }
    if tag == 6 {
        let ghost b0 = *budget;
        budget.enter()?;
        let r = <Blob as Decode>::decode(reader, budget);
        budget.leave(Ghost(b0));
        let x = r?;
        return Ok(Literal::Bytes(x));
    }
    if tag == 7 {
        let x = <[u8; 16] as Decode>::decode(reader, budget)?;
        return Ok(Literal::Uuid(x));
    }
    if tag == 8 {
        let ghost b0 = *budget;
        budget.enter()?;
        let r = <BitString as Decode>::decode(reader, budget);
        budget.leave(Ghost(b0));
        let x = r?;
        return Ok(Literal::BitString(x));
    }
    Err(DecodeError::InvalidVariant { kind: "Value", seen: tag })
}

#[verifier::rlimit(60)]
fn read_literal_number(tag: u32, reader: &mut Reader<'_>, budget: &mut Budget) -> (res: Result<Literal, DecodeError>)
    requires
        tag == 9 || tag == 10 || tag == 11 || tag == 12 || tag == 13 || tag == 14 || tag == 15 || tag == 16 || tag == 17 || tag == 18 || tag == 19 || tag == 20,
        old(reader).position() <= old(reader).data().len() <= isize::MAX,
    ensures
        *final(budget) == *old(budget),
        old(budget).remaining() < spec_need_literal_leaf(tag, old(reader).rest()) ==> res matches Err(DecodeError::Budget(BudgetError::Depth)),
        old(budget).remaining() >= spec_need_literal_leaf(tag, old(reader).rest()) ==> decoded_as(res, spec_decode_leaf_payload(tag, old(reader).rest()).0),
        old(budget).remaining() >= spec_need_literal_leaf(tag, old(reader).rest()) ==> old(reader).advanced_to(*final(reader), spec_decode_leaf_payload(tag, old(reader).rest()).1),
{
    proof {
        reveal(spec_decode_leaf_payload);
    }
    if tag == 9 {
        let x = <i8 as Decode>::decode(reader, budget)?;
        return Ok(Literal::Int8(x));
    }
    if tag == 10 {
        let x = <i16 as Decode>::decode(reader, budget)?;
        return Ok(Literal::Int16(x));
    }
    if tag == 11 {
        let x = <i32 as Decode>::decode(reader, budget)?;
        return Ok(Literal::Int32(x));
    }
    if tag == 12 {
        let x = <i64 as Decode>::decode(reader, budget)?;
        return Ok(Literal::Int64(x));
    }
    if tag == 13 {
        let x = <i128 as Decode>::decode(reader, budget)?;
        return Ok(Literal::Int128(x));
    }
    if tag == 14 {
        let x = <u8 as Decode>::decode(reader, budget)?;
        return Ok(Literal::UInt8(x));
    }
    if tag == 15 {
        let x = <u16 as Decode>::decode(reader, budget)?;
        return Ok(Literal::UInt16(x));
    }
    if tag == 16 {
        let x = <u32 as Decode>::decode(reader, budget)?;
        return Ok(Literal::UInt32(x));
    }
    if tag == 17 {
        let x = <u64 as Decode>::decode(reader, budget)?;
        return Ok(Literal::UInt64(x));
    }
    if tag == 18 {
        let x = <u128 as Decode>::decode(reader, budget)?;
        return Ok(Literal::UInt128(x));
    }
    if tag == 19 {
        let x = <[u8; 4] as Decode>::decode(reader, budget)?;
        return Ok(Literal::Float32(x));
    }
    if tag == 20 {
        let x = <[u8; 8] as Decode>::decode(reader, budget)?;
        return Ok(Literal::Float64(x));
    }
    Err(DecodeError::InvalidVariant { kind: "Value", seen: tag })
}

#[verifier::rlimit(60)]
fn read_literal_tagged(tag: u32, reader: &mut Reader<'_>, budget: &mut Budget) -> (res: Result<Literal, DecodeError>)
    requires
        tag == 27 || tag == 30 || tag == 40 || tag == 41,
        old(reader).position() <= old(reader).data().len() <= isize::MAX,
    ensures
        *final(budget) == *old(budget),
        old(budget).remaining() < spec_need_literal_leaf(tag, old(reader).rest()) ==> res matches Err(DecodeError::Budget(BudgetError::Depth)),
        old(budget).remaining() >= spec_need_literal_leaf(tag, old(reader).rest()) ==> decoded_as(res, spec_decode_leaf_payload(tag, old(reader).rest()).0),
        old(budget).remaining() >= spec_need_literal_leaf(tag, old(reader).rest()) ==> old(reader).advanced_to(*final(reader), spec_decode_leaf_payload(tag, old(reader).rest()).1),
{
    proof {
        reveal(spec_decode_leaf_payload);
    }
    if tag == 27 {
        let x = <ExtensionPayload as Decode>::decode(reader, budget)?;
        return Ok(Literal::Extension(x));
    }
    if tag == 30 {
        let ghost b0 = *budget;
        budget.enter()?;
        let r = <Decimal as Decode>::decode(reader, budget);
        budget.leave(Ghost(b0));
        let x = r?;
        return Ok(Literal::Decimal(x));
    }
    if tag == 40 {
        let ghost b0 = *budget;
        budget.enter()?;
        let r = <IpAddr as Decode>::decode(reader, budget);
        budget.leave(Ghost(b0));
        let x = r?;
        return Ok(Literal::Inet(x));
    }
    if tag == 41 {
        let ghost b0 = *budget;
        budget.enter()?;
        let r = <MacAddr as Decode>::decode(reader, budget);
        budget.leave(Ghost(b0));
        let x = r?;
        return Ok(Literal::MacAddr(x));
    }
    Err(DecodeError::InvalidVariant { kind: "Value", seen: tag })
}

#[verifier::rlimit(60)]
fn read_literal_temporal(tag: u32, reader: &mut Reader<'_>, budget: &mut Budget) -> (res: Result<Literal, DecodeError>)
    requires
        tag == 50 || tag == 51 || tag == 52 || tag == 53 || tag == 54,
        old(reader).position() <= old(reader).data().len() <= isize::MAX,
    ensures
        *final(budget) == *old(budget),
        old(budget).remaining() < spec_need_literal_leaf(tag, old(reader).rest()) ==> res matches Err(DecodeError::Budget(BudgetError::Depth)),
        old(budget).remaining() >= spec_need_literal_leaf(tag, old(reader).rest()) ==> decoded_as(res, spec_decode_leaf_payload(tag, old(reader).rest()).0),
        old(budget).remaining() >= spec_need_literal_leaf(tag, old(reader).rest()) ==> old(reader).advanced_to(*final(reader), spec_decode_leaf_payload(tag, old(reader).rest()).1),
{
    proof {
        reveal(spec_decode_leaf_payload);
    }
    if tag == 50 {
        let ghost b0 = *budget;
        budget.enter()?;
        let r = <Date as Decode>::decode(reader, budget);
        budget.leave(Ghost(b0));
        let x = r?;
        return Ok(Literal::Date(x));
    }
    if tag == 51 {
        let ghost b0 = *budget;
        budget.enter()?;
        let r = <Time as Decode>::decode(reader, budget);
        budget.leave(Ghost(b0));
        let x = r?;
        return Ok(Literal::Time(x));
    }
    if tag == 52 {
        let ghost b0 = *budget;
        budget.enter()?;
        let r = <DateTime as Decode>::decode(reader, budget);
        budget.leave(Ghost(b0));
        let x = r?;
        return Ok(Literal::DateTime(x));
    }
    if tag == 53 {
        let ghost b0 = *budget;
        budget.enter()?;
        let r = <TimestampTz as Decode>::decode(reader, budget);
        budget.leave(Ghost(b0));
        let x = r?;
        return Ok(Literal::TimestampTz(x));
    }
    if tag == 54 {
        let ghost b0 = *budget;
        budget.enter()?;
        let r = <Interval as Decode>::decode(reader, budget);
        budget.leave(Ghost(b0));
        let x = r?;
        return Ok(Literal::Interval(x));
    }
    Err(DecodeError::InvalidVariant { kind: "Value", seen: tag })
}

#[verifier::rlimit(60)]
fn read_literal_geometric(tag: u32, reader: &mut Reader<'_>, budget: &mut Budget) -> (res: Result<Literal, DecodeError>)
    requires
        tag == 60 || tag == 61 || tag == 62 || tag == 63 || tag == 64 || tag == 65 || tag == 66,
        old(reader).position() <= old(reader).data().len() <= isize::MAX,
    ensures
        *final(budget) == *old(budget),
        old(budget).remaining() < spec_need_literal_leaf(tag, old(reader).rest()) ==> res matches Err(DecodeError::Budget(BudgetError::Depth)),
        old(budget).remaining() >= spec_need_literal_leaf(tag, old(reader).rest()) ==> decoded_as(res, spec_decode_leaf_payload(tag, old(reader).rest()).0),
        old(budget).remaining() >= spec_need_literal_leaf(tag, old(reader).rest()) ==> old(reader).advanced_to(*final(reader), spec_decode_leaf_payload(tag, old(reader).rest()).1),
{
    proof {
        reveal(spec_decode_leaf_payload);
    }
    if tag == 60 {
        let ghost b0 = *budget;
        budget.enter()?;
        let r = <Point as Decode>::decode(reader, budget);
        budget.leave(Ghost(b0));
        let x = r?;
        return Ok(Literal::Point(x));
    }
    if tag == 61 {
        let ghost b0 = *budget;
        budget.enter()?;
        let r = <Line as Decode>::decode(reader, budget);
        budget.leave(Ghost(b0));
        let x = r?;
        return Ok(Literal::Line(x));
    }
    if tag == 62 {
        let ghost b0 = *budget;
        budget.enter()?;
        let r = <Segment as Decode>::decode(reader, budget);
        budget.leave(Ghost(b0));
        let x = r?;
        return Ok(Literal::Segment(x));
    }
    if tag == 63 {
        let ghost b0 = *budget;
        budget.enter()?;
        let r = <Rect as Decode>::decode(reader, budget);
        budget.leave(Ghost(b0));
        let x = r?;
        return Ok(Literal::Rect(x));
    }
    if tag == 64 {
        let ghost b0 = *budget;
        budget.enter()?;
        let r = <Circle as Decode>::decode(reader, budget);
        budget.leave(Ghost(b0));
        let x = r?;
        return Ok(Literal::Circle(x));
    }
    if tag == 65 {
        let ghost b0 = *budget;
        budget.enter()?;
        let r = <Path as Decode>::decode(reader, budget);
        budget.leave(Ghost(b0));
        let x = r?;
        return Ok(Literal::Path(x));
    }
    if tag == 66 {
        let ghost b0 = *budget;
        budget.enter()?;
        let r = <Polygon as Decode>::decode(reader, budget);
        budget.leave(Ghost(b0));
        let x = r?;
        return Ok(Literal::Polygon(x));
    }
    Err(DecodeError::InvalidVariant { kind: "Value", seen: tag })
}

fn read_literal_list(reader: &mut Reader<'_>, budget: &mut Budget, Ghost(fuel): Ghost<nat>) -> (res: Result<Vec<Literal>, DecodeError>)
    requires
        old(reader).rest().len() <= fuel,
    ensures
        *final(budget) == *old(budget),
        old(budget).remaining() < spec_need_literal_list(old(reader).rest(), fuel) ==> res matches Err(DecodeError::Budget(BudgetError::Depth)),
        old(budget).remaining() >= spec_need_literal_list(old(reader).rest(), fuel) ==> (res matches Ok(v) ==> spec_decode_value_list(old(reader).rest(), fuel).0 == Ok::<Seq<ValueModel>, DecodeError>(literals_model(v@))),
        old(budget).remaining() >= spec_need_literal_list(old(reader).rest(), fuel) ==> (res matches Err(e) ==> spec_decode_value_list(old(reader).rest(), fuel).0 == Err::<Seq<ValueModel>, DecodeError>(e)),
        old(budget).remaining() >= spec_need_literal_list(old(reader).rest(), fuel) ==> old(reader).advanced_to(*final(reader), spec_decode_value_list(old(reader).rest(), fuel).1),
    decreases fuel, 3nat, 0nat,
{
    let ghost r0 = *reader;
    let n = reader.read_varint_u32()?;
    if n > MAX_SEQ_LEN {
        return Err(DecodeError::LengthOverflow);
    }
    let ghost start = *reader;
    let ghost s0 = start.rest();
    proof {
        r0.lemma_rest_after(start, spec_read_varint_u32(r0.rest()).1);
    }
    let mut out: Vec<Literal> = Vec::new();
    let mut i: u32 = 0;
    proof {
        assert(literals_model(out@) =~= Seq::<ValueModel>::empty());
    }
    while i < n
        invariant
            i <= n,
            n <= MAX_SEQ_LEN,
            r0 == *old(reader),
            s0.len() <= fuel,
            spec_read_varint_u32(r0.rest()) == (Ok::<u32, DecodeError>(n), spec_read_varint_u32(r0.rest()).1),
            r0.advanced_to(start, spec_read_varint_u32(r0.rest()).1),
            r0.rest().skip(spec_read_varint_u32(r0.rest()).1 as int) == s0,
            s0 == start.rest(),
            spec_decode_value_elems(s0, i as nat, fuel).0 == Ok::<Seq<ValueModel>, DecodeError>(literals_model(out@)),
            start.advanced_to(*reader, spec_decode_value_elems(s0, i as nat, fuel).1),
            *budget == *old(budget),
            budget.remaining() >= spec_need_literal_elems(s0, i as nat, fuel),
        decreases n - i,
    {
        let ghost before = *reader;
        let ghost d = spec_decode_value_elems(s0, i as nat, fuel);
        proof {
            start.lemma_rest_after(before, d.1);
            lemma_need_literal_elems_mono(s0, (i + 1) as nat, n as nat, fuel);
        }
        let ghost b0 = *budget;
        budget.enter()?;
        let r = read_literal(reader, budget, Ghost(fuel));
        budget.leave(Ghost(b0));
        match r {
            Ok(item) => {
                let ghost prev = out@;
                out.push(item);
                proof {
                    assert(literals_model(out@) =~= literals_model(prev).push(item.deep_view()));
                }
            },
            Err(e) => {
                proof {
                    if b0.remaining() >= 1 + spec_need_literal(before.rest(), fuel) {
                        lemma_need_literal_elems_err(s0, (i + 1) as nat, n as nat, fuel);
                    }
                }
                return Err(e);
            },
        }
        i = i + 1;
    }
    Ok(out)
}

fn read_literal_entry(reader: &mut Reader<'_>, budget: &mut Budget, Ghost(fuel): Ghost<nat>) -> (res: Result<LiteralEntry, DecodeError>)
    requires
        old(reader).rest().len() <= fuel,
    ensures
        *final(budget) == *old(budget),
        old(budget).remaining() < spec_need_literal_entry(old(reader).rest(), fuel) ==> res matches Err(DecodeError::Budget(BudgetError::Depth)),
        old(budget).remaining() >= spec_need_literal_entry(old(reader).rest(), fuel) ==> decoded_as(res, spec_decode_entry(old(reader).rest(), fuel).0),
        old(budget).remaining() >= spec_need_literal_entry(old(reader).rest(), fuel) ==> old(reader).advanced_to(*final(reader), spec_decode_entry(old(reader).rest(), fuel).1),
    decreases fuel, 1nat, 0nat,
{
    let ghost r0 = *reader;
    let ghost b0 = *budget;
    budget.enter()?;
    let rk = String::decode(reader, budget);
    budget.leave(Ghost(b0));
    let key = rk?;
    let ghost r1 = *reader;
    proof {
        r0.lemma_rest_after(r1, spec_decode_string(r0.rest()).1);
    }
    budget.enter()?;
    let rv = read_literal(reader, budget, Ghost(fuel));
    budget.leave(Ghost(b0));
    let value = rv?;
    Ok(LiteralEntry { key, value })
}

fn read_literal_entry_list(reader: &mut Reader<'_>, budget: &mut Budget, Ghost(fuel): Ghost<nat>) -> (res: Result<Vec<LiteralEntry>, DecodeError>)
    requires
        old(reader).rest().len() <= fuel,
    ensures
        *final(budget) == *old(budget),
        old(budget).remaining() < spec_need_literal_entry_list(old(reader).rest(), fuel) ==> res matches Err(DecodeError::Budget(BudgetError::Depth)),
        old(budget).remaining() >= spec_need_literal_entry_list(old(reader).rest(), fuel) ==> (res matches Ok(v) ==> spec_decode_entry_list(old(reader).rest(), fuel).0 == Ok::<Seq<EntryModel>, DecodeError>(literal_entries_model(v@))),
        old(budget).remaining() >= spec_need_literal_entry_list(old(reader).rest(), fuel) ==> (res matches Err(e) ==> spec_decode_entry_list(old(reader).rest(), fuel).0 == Err::<Seq<EntryModel>, DecodeError>(e)),
        old(budget).remaining() >= spec_need_literal_entry_list(old(reader).rest(), fuel) ==> old(reader).advanced_to(*final(reader), spec_decode_entry_list(old(reader).rest(), fuel).1),
    decreases fuel, 3nat, 0nat,
{
    let ghost r0 = *reader;
    let n = reader.read_varint_u32()?;
    if n > MAX_SEQ_LEN {
        return Err(DecodeError::LengthOverflow);
    }
    let ghost start = *reader;
    let ghost s0 = start.rest();
    proof {
        r0.lemma_rest_after(start, spec_read_varint_u32(r0.rest()).1);
    }
    let mut out: Vec<LiteralEntry> = Vec::new();
    let mut i: u32 = 0;
    proof {
        assert(literal_entries_model(out@) =~= Seq::<EntryModel>::empty());
    }
    while i < n
        invariant
            i <= n,
            n <= MAX_SEQ_LEN,
            r0 == *old(reader),
            s0.len() <= fuel,
            spec_read_varint_u32(r0.rest()) == (Ok::<u32, DecodeError>(n), spec_read_varint_u32(r0.rest()).1),
            r0.advanced_to(start, spec_read_varint_u32(r0.rest()).1),
            r0.rest().skip(spec_read_varint_u32(r0.rest()).1 as int) == s0,
            s0 == start.rest(),
            spec_decode_entry_elems(s0, i as nat, fuel).0 == Ok::<Seq<EntryModel>, DecodeError>(literal_entries_model(out@)),
            start.advanced_to(*reader, spec_decode_entry_elems(s0, i as nat, fuel).1),
            *budget == *old(budget),
            budget.remaining() >= spec_need_literal_entry_elems(s0, i as nat, fuel),
        decreases n - i,
    {
        let ghost before = *reader;
        let ghost d = spec_decode_entry_elems(s0, i as nat, fuel);
        proof {
            start.lemma_rest_after(before, d.1);
            lemma_need_literal_entry_elems_mono(s0, (i + 1) as nat, n as nat, fuel);
        }
        let r = read_literal_entry(reader, budget, Ghost(fuel));
        match r {
            Ok(item) => {
                let ghost prev = out@;
                out.push(item);
                proof {
                    assert(literal_entries_model(out@) =~= literal_entries_model(prev).push(item.deep_view()));
                }
            },
            Err(e) => {
                proof {
                    if budget.remaining() >= spec_need_literal_entry(before.rest(), fuel) {
                        lemma_need_literal_entry_elems_err(s0, (i + 1) as nat, n as nat, fuel);
                    }
                }
                return Err(e);
            },
        }
        i = i + 1;
    }
    Ok(out)
}

fn read_literal_bound(reader: &mut Reader<'_>, budget: &mut Budget, Ghost(fuel): Ghost<nat>) -> (res: Result<LiteralBound, DecodeError>)
    requires
        old(reader).rest().len() <= fuel,
    ensures
        *final(budget) == *old(budget),
        old(budget).remaining() < spec_need_literal_bound(old(reader).rest(), fuel) ==> res matches Err(DecodeError::Budget(BudgetError::Depth)),
        old(budget).remaining() >= spec_need_literal_bound(old(reader).rest(), fuel) ==> (res matches Ok(b) ==> spec_decode_bound(old(reader).rest(), fuel).0 == Ok::<BoundModel, DecodeError>(literal_bound_model(b))),
        old(budget).remaining() >= spec_need_literal_bound(old(reader).rest(), fuel) ==> (res matches Err(e) ==> spec_decode_bound(old(reader).rest(), fuel).0 == Err::<BoundModel, DecodeError>(e)),
        old(budget).remaining() >= spec_need_literal_bound(old(reader).rest(), fuel) ==> old(reader).advanced_to(*final(reader), spec_decode_bound(old(reader).rest(), fuel).1),
    decreases fuel, 1nat, 0nat,
{
    let ghost r0 = *reader;
    let t = reader.read_u8()?;
    proof {
        r0.lemma_rest_after(*reader, 1);
    }
    if t == 0 || t == 1 {
        let ghost b0 = *budget;
        budget.enter()?;
        let r = read_literal(reader, budget, Ghost(fuel));
        budget.leave(Ghost(b0));
        let v = r?;
        if t == 0 {
            Ok(LiteralBound::Included(Box::new(v)))
        } else {
            Ok(LiteralBound::Excluded(Box::new(v)))
        }
    } else if t == 2 {
        Ok(LiteralBound::Unbounded)
    } else {
        Err(DecodeError::InvalidVariant { kind: "Bound", seen: t as u32 })
    }
}

fn read_literal_range(reader: &mut Reader<'_>, budget: &mut Budget, Ghost(fuel): Ghost<nat>) -> (res: Result<LiteralRange, DecodeError>)
    requires
        old(reader).rest().len() <= fuel,
    ensures
        *final(budget) == *old(budget),
        old(budget).remaining() < spec_need_literal_range(old(reader).rest(), fuel) ==> res matches Err(DecodeError::Budget(BudgetError::Depth)),
        old(budget).remaining() >= spec_need_literal_range(old(reader).rest(), fuel) ==> decoded_as(res, spec_decode_range(old(reader).rest(), fuel).0),
        old(budget).remaining() >= spec_need_literal_range(old(reader).rest(), fuel) ==> old(reader).advanced_to(*final(reader), spec_decode_range(old(reader).rest(), fuel).1),
    decreases fuel, 2nat, 0nat,
{
    let ghost r0 = *reader;
    let ghost b0 = *budget;
    budget.enter()?;
    let rs = read_literal_bound(reader, budget, Ghost(fuel));
    budget.leave(Ghost(b0));
    let start = rs?;
    proof {
        r0.lemma_rest_after(*reader, spec_decode_bound(r0.rest(), fuel).1);
    }
    budget.enter()?;
    let re = read_literal_bound(reader, budget, Ghost(fuel));
    budget.leave(Ghost(b0));
    let end = re?;
    Ok(LiteralRange { start, end })
}

impl Decode for Literal {
    open spec fn spec_decode(s: Seq<u8>) -> Decoded<ValueModel> {
        spec_decode_value(s, s.len())
    }

    proof fn lemma_decode_within(s: Seq<u8>) {
        lemma_value_within(s, s.len());
    }

    proof fn lemma_decode_local(s: Seq<u8>, t: Seq<u8>) {
        lemma_value_within(s, s.len());
        let n = spec_decode_value(s, s.len()).1;
        lemma_value_local(s, s.len(), t, (s.take(n as int) + t).len());
    }

    open spec fn spec_need(s: Seq<u8>) -> nat {
        spec_need_literal(s, s.len())
    }

    fn decode(reader: &mut Reader<'_>, budget: &mut Budget) -> (res: Result<Literal, DecodeError>) {
        read_literal(reader, budget, Ghost(reader.rest().len()))
    }
}

impl Codec for Literal {
    open spec fn spec_fits(m: ValueModel) -> bool {
        value_fits(m)
    }

    proof fn lemma_round_trip(m: ValueModel, tail: Seq<u8>) {
        lemma_value_round_trip(m, tail, (spec_encode_value(m).0 + tail).len());
    }
}

} // verus!
