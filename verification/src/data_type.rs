//! Column and value types, and their wire encoding.
//!
//! A type is written as a `u32` varint discriminant followed by its payload.
//! The discriminants are stable and leave gaps between families:
//!
//! | family            | discriminants |
//! | ----------------- | ------------- |
//! | scalar and text   | 0 - 19        |
//! | composite         | 20 - 28       |
//! | numeric           | 30            |
//! | date and time     | 40 - 44       |
//! | network           | 50 - 52       |
//! | geometry          | 60 - 66       |
//!
//! Any other discriminant is an invalid variant.
use crate::codec::Codec;
use crate::compound::{spec_decode_string, spec_encode_string, MAX_SEQ_LEN, MAX_STR_BYTES};
use crate::decoder::{lemma_small_tag, Budget, BudgetError, 
    and_then, decoded_as, lemma_read_varint_within, mapped, spec_read_varint_u32,
    lemma_reads_local, varint_u32_round_trip, Decode, DecodeError, Decoded, Reader,
};
use crate::encoder::{counted, emit, emit_then, EncodeError, Emitted, Encode, Writer};
use crate::prim::spec_decode_bool;
use crate::varint::{lemma_varint_bytes_shape, varint_bytes};
use vstd::prelude::*;

verus! {

/// A column or value type.
#[derive(Debug, PartialEq, Eq)]
pub enum DataType {
    /// The type of the null value alone.
    Null,
    /// Boolean.
    Bool,
    /// Signed 8-bit integer.
    Int8,
    /// Signed 16-bit integer.
    Int16,
    /// Signed 32-bit integer.
    Int32,
    /// Signed 64-bit integer.
    Int64,
    /// Signed 128-bit integer.
    Int128,
    /// Unsigned 8-bit integer.
    UInt8,
    /// Unsigned 16-bit integer.
    UInt16,
    /// Unsigned 32-bit integer.
    UInt32,
    /// Unsigned 64-bit integer.
    UInt64,
    /// Unsigned 128-bit integer.
    UInt128,
    /// 32-bit float.
    Float32,
    /// 64-bit float.
    Float64,
    /// Text, optionally bounded or fixed-width.
    String {
        /// Largest length allowed, if any.
        max_len: Option<u32>,
        /// Whether every value has exactly that length.
        fixed: bool,
    },
    /// JSON document.
    Json,
    /// XML document.
    Xml,
    /// Binary data, optionally bounded or fixed-width.
    Bytes {
        /// Largest length allowed, if any.
        max_len: Option<u32>,
        /// Whether every value has exactly that length.
        fixed: bool,
    },
    /// UUID.
    Uuid,
    /// Bit string, optionally bounded or fixed-width.
    BitString {
        /// Largest length allowed, if any.
        max_len: Option<u32>,
        /// Whether every value has exactly that length.
        fixed: bool,
    },
    /// Ordered collection of one element type.
    Array(Box<DataType>),
    /// Unordered collection of one element type.
    SetOf(Box<DataType>),
    /// Map from text keys to one value type.
    MapOf {
        /// Type of the values.
        value: Box<DataType>,
    },
    /// Range over one element type.
    Range(Box<DataType>),
    /// Fixed sequence of element types.
    Tuple(Vec<DataType>),
    /// Named, typed fields.
    Struct(Vec<StructField>),
    /// One of a list of named variants.
    Enum(Vec<String>),
    /// Reference to a named type.
    TypeRef(String),
    /// Type supplied by an extension, with its parameters.
    Extension {
        /// Name of the extension type.
        name: String,
        /// Its type parameters.
        params: Vec<DataType>,
    },
    /// Fixed-point number.
    Decimal {
        /// Total digits, if bounded.
        precision: Option<u8>,
        /// Digits after the point, if fixed.
        scale: Option<u8>,
    },
    /// Calendar date.
    Date,
    /// Time of day.
    Time {
        /// Digits of fractional seconds.
        precision: u8,
    },
    /// Date and time.
    DateTime {
        /// Digits of fractional seconds.
        precision: u8,
    },
    /// Date and time with a UTC offset.
    OffsetDateTime {
        /// Digits of fractional seconds.
        precision: u8,
    },
    /// Calendar interval.
    Interval,
    /// IP address.
    IpAddr,
    /// IP network.
    IpNetwork {
        /// Length of the network prefix in bits.
        prefix_len: u8,
    },
    /// MAC address.
    MacAddr,
    /// Geometric point.
    Point,
    /// Geometric line.
    Line,
    /// Geometric line segment.
    LineSegment,
    /// Geometric rectangle.
    Rect,
    /// Geometric circle.
    Circle,
    /// Geometric path.
    Path,
    /// Geometric polygon.
    Polygon,
}

/// One named field of a struct type.
#[derive(Debug, PartialEq, Eq)]
pub struct StructField {
    /// Field name.
    pub name: String,
    /// Field type.
    pub data_type: DataType,
    /// Whether the field may be null.
    pub nullable: bool,
}

/// What a [`DataType`] denotes: the same tree, with text as characters and
/// lists as sequences.
pub enum DataTypeModel {
    Null,
    Bool,
    Int8,
    Int16,
    Int32,
    Int64,
    Int128,
    UInt8,
    UInt16,
    UInt32,
    UInt64,
    UInt128,
    Float32,
    Float64,
    String { max_len: Option<u32>, fixed: bool },
    Json,
    Xml,
    Bytes { max_len: Option<u32>, fixed: bool },
    Uuid,
    BitString { max_len: Option<u32>, fixed: bool },
    Array(Box<DataTypeModel>),
    SetOf(Box<DataTypeModel>),
    MapOf { value: Box<DataTypeModel> },
    Range(Box<DataTypeModel>),
    Tuple(Seq<DataTypeModel>),
    Struct(Seq<StructFieldModel>),
    Enum(Seq<Seq<char>>),
    TypeRef(Seq<char>),
    Extension { name: Seq<char>, params: Seq<DataTypeModel> },
    Decimal { precision: Option<u8>, scale: Option<u8> },
    Date,
    Time { precision: u8 },
    DateTime { precision: u8 },
    OffsetDateTime { precision: u8 },
    Interval,
    IpAddr,
    IpNetwork { prefix_len: u8 },
    MacAddr,
    Point,
    Line,
    LineSegment,
    Rect,
    Circle,
    Path,
    Polygon,
}

/// What a [`StructField`] denotes.
pub struct StructFieldModel {
    pub name: Seq<char>,
    pub data_type: DataTypeModel,
    pub nullable: bool,
}

/// The model of a type.
pub open spec fn data_type_model(t: DataType) -> DataTypeModel
    decreases t,
{
    match t {
        DataType::Null => DataTypeModel::Null,
        DataType::Bool => DataTypeModel::Bool,
        DataType::Int8 => DataTypeModel::Int8,
        DataType::Int16 => DataTypeModel::Int16,
        DataType::Int32 => DataTypeModel::Int32,
        DataType::Int64 => DataTypeModel::Int64,
        DataType::Int128 => DataTypeModel::Int128,
        DataType::UInt8 => DataTypeModel::UInt8,
        DataType::UInt16 => DataTypeModel::UInt16,
        DataType::UInt32 => DataTypeModel::UInt32,
        DataType::UInt64 => DataTypeModel::UInt64,
        DataType::UInt128 => DataTypeModel::UInt128,
        DataType::Float32 => DataTypeModel::Float32,
        DataType::Float64 => DataTypeModel::Float64,
        DataType::String { max_len, fixed } => DataTypeModel::String { max_len, fixed },
        DataType::Json => DataTypeModel::Json,
        DataType::Xml => DataTypeModel::Xml,
        DataType::Bytes { max_len, fixed } => DataTypeModel::Bytes { max_len, fixed },
        DataType::Uuid => DataTypeModel::Uuid,
        DataType::BitString { max_len, fixed } => DataTypeModel::BitString { max_len, fixed },
        DataType::Array(b) => DataTypeModel::Array(Box::new(data_type_model(*b))),
        DataType::SetOf(b) => DataTypeModel::SetOf(Box::new(data_type_model(*b))),
        DataType::MapOf { value } => DataTypeModel::MapOf { value: Box::new(data_type_model(*value)) },
        DataType::Range(b) => DataTypeModel::Range(Box::new(data_type_model(*b))),
        DataType::Tuple(ts) => DataTypeModel::Tuple(types_model(ts@)),
        DataType::Struct(fs) => DataTypeModel::Struct(fields_model(fs@)),
        DataType::Enum(ns) => DataTypeModel::Enum(ns.deep_view()),
        DataType::TypeRef(s) => DataTypeModel::TypeRef(s@),
        DataType::Extension { name, params } => DataTypeModel::Extension { name: name@, params: types_model(params@) },
        DataType::Decimal { precision, scale } => DataTypeModel::Decimal { precision, scale },
        DataType::Date => DataTypeModel::Date,
        DataType::Time { precision } => DataTypeModel::Time { precision },
        DataType::DateTime { precision } => DataTypeModel::DateTime { precision },
        DataType::OffsetDateTime { precision } => DataTypeModel::OffsetDateTime { precision },
        DataType::Interval => DataTypeModel::Interval,
        DataType::IpAddr => DataTypeModel::IpAddr,
        DataType::IpNetwork { prefix_len } => DataTypeModel::IpNetwork { prefix_len },
        DataType::MacAddr => DataTypeModel::MacAddr,
        DataType::Point => DataTypeModel::Point,
        DataType::Line => DataTypeModel::Line,
        DataType::LineSegment => DataTypeModel::LineSegment,
        DataType::Rect => DataTypeModel::Rect,
        DataType::Circle => DataTypeModel::Circle,
        DataType::Path => DataTypeModel::Path,
        DataType::Polygon => DataTypeModel::Polygon,
    }
}

/// The models of a list of types.
pub open spec fn types_model(ts: Seq<DataType>) -> Seq<DataTypeModel>
    decreases ts,
{
    Seq::new(ts.len(), |i: int| if 0 <= i < ts.len() { data_type_model(ts[i]) } else { DataTypeModel::Null })
}

/// The model of a struct field.
pub open spec fn struct_field_model(f: StructField) -> StructFieldModel
    decreases f,
{
    StructFieldModel { name: f.name@, data_type: data_type_model(f.data_type), nullable: f.nullable }
}

/// The models of a list of struct fields.
pub open spec fn fields_model(fs: Seq<StructField>) -> Seq<StructFieldModel>
    decreases fs,
{
    Seq::new(
        fs.len(),
        |i: int|
            if 0 <= i < fs.len() {
                struct_field_model(fs[i])
            } else {
                StructFieldModel { name: Seq::empty(), data_type: DataTypeModel::Null, nullable: false }
            },
    )
}

impl DeepView for DataType {
    type V = DataTypeModel;

    open spec fn deep_view(&self) -> DataTypeModel {
        data_type_model(*self)
    }
}

impl DeepView for StructField {
    type V = StructFieldModel;

    open spec fn deep_view(&self) -> StructFieldModel {
        struct_field_model(*self)
    }
}

/// The discriminant that opens a type on the wire.
pub open spec fn data_type_tag(m: DataTypeModel) -> u32 {
    match m {
        DataTypeModel::Null => 0,
        DataTypeModel::Bool => 1,
        DataTypeModel::Int8 => 2,
        DataTypeModel::Int16 => 3,
        DataTypeModel::Int32 => 4,
        DataTypeModel::Int64 => 5,
        DataTypeModel::Int128 => 6,
        DataTypeModel::UInt8 => 7,
        DataTypeModel::UInt16 => 8,
        DataTypeModel::UInt32 => 9,
        DataTypeModel::UInt64 => 10,
        DataTypeModel::UInt128 => 11,
        DataTypeModel::Float32 => 12,
        DataTypeModel::Float64 => 13,
        DataTypeModel::String { .. } => 14,
        DataTypeModel::Json => 15,
        DataTypeModel::Xml => 16,
        DataTypeModel::Bytes { .. } => 17,
        DataTypeModel::Uuid => 18,
        DataTypeModel::BitString { .. } => 19,
        DataTypeModel::Array(..) => 20,
        DataTypeModel::SetOf(..) => 21,
        DataTypeModel::MapOf { .. } => 22,
        DataTypeModel::Range(..) => 23,
        DataTypeModel::Tuple(..) => 24,
        DataTypeModel::Struct(..) => 25,
        DataTypeModel::Enum(..) => 26,
        DataTypeModel::TypeRef(..) => 27,
        DataTypeModel::Extension { .. } => 28,
        DataTypeModel::Decimal { .. } => 30,
        DataTypeModel::Date => 40,
        DataTypeModel::Time { .. } => 41,
        DataTypeModel::DateTime { .. } => 42,
        DataTypeModel::OffsetDateTime { .. } => 43,
        DataTypeModel::Interval => 44,
        DataTypeModel::IpAddr => 50,
        DataTypeModel::IpNetwork { .. } => 51,
        DataTypeModel::MacAddr => 52,
        DataTypeModel::Point => 60,
        DataTypeModel::Line => 61,
        DataTypeModel::LineSegment => 62,
        DataTypeModel::Rect => 63,
        DataTypeModel::Circle => 64,
        DataTypeModel::Path => 65,
        DataTypeModel::Polygon => 66,
    }
}

/// The payload-free type a discriminant stands for, if it stands for one.
pub open spec fn unit_data_type(tag: u32) -> Option<DataTypeModel> {
    if tag == 0 {
        Some(DataTypeModel::Null)
    } else if tag == 1 {
        Some(DataTypeModel::Bool)
    } else if tag == 2 {
        Some(DataTypeModel::Int8)
    } else if tag == 3 {
        Some(DataTypeModel::Int16)
    } else if tag == 4 {
        Some(DataTypeModel::Int32)
    } else if tag == 5 {
        Some(DataTypeModel::Int64)
    } else if tag == 6 {
        Some(DataTypeModel::Int128)
    } else if tag == 7 {
        Some(DataTypeModel::UInt8)
    } else if tag == 8 {
        Some(DataTypeModel::UInt16)
    } else if tag == 9 {
        Some(DataTypeModel::UInt32)
    } else if tag == 10 {
        Some(DataTypeModel::UInt64)
    } else if tag == 11 {
        Some(DataTypeModel::UInt128)
    } else if tag == 12 {
        Some(DataTypeModel::Float32)
    } else if tag == 13 {
        Some(DataTypeModel::Float64)
    } else if tag == 15 {
        Some(DataTypeModel::Json)
    } else if tag == 16 {
        Some(DataTypeModel::Xml)
    } else if tag == 18 {
        Some(DataTypeModel::Uuid)
    } else if tag == 40 {
        Some(DataTypeModel::Date)
    } else if tag == 44 {
        Some(DataTypeModel::Interval)
    } else if tag == 50 {
        Some(DataTypeModel::IpAddr)
    } else if tag == 52 {
        Some(DataTypeModel::MacAddr)
    } else if tag == 60 {
        Some(DataTypeModel::Point)
    } else if tag == 61 {
        Some(DataTypeModel::Line)
    } else if tag == 62 {
        Some(DataTypeModel::LineSegment)
    } else if tag == 63 {
        Some(DataTypeModel::Rect)
    } else if tag == 64 {
        Some(DataTypeModel::Circle)
    } else if tag == 65 {
        Some(DataTypeModel::Path)
    } else if tag == 66 {
        Some(DataTypeModel::Polygon)
    } else {
        None
    }
}

/// A type's encoding: its discriminant as a varint, then its payload.
pub open spec fn spec_encode_data_type(m: DataTypeModel) -> Emitted
    decreases m, 1nat,
{
    emit_then(emit(varint_bytes(data_type_tag(m) as nat)), spec_encode_data_type_payload(m))
}

/// What follows a type's discriminant on the wire.
pub open spec fn spec_encode_data_type_payload(m: DataTypeModel) -> Emitted
    decreases m, 0nat,
{
    match m {
        DataTypeModel::String { max_len, fixed } => <(Option<u32>, bool) as Encode>::spec_encode((max_len, fixed)),
        DataTypeModel::Bytes { max_len, fixed } => <(Option<u32>, bool) as Encode>::spec_encode((max_len, fixed)),
        DataTypeModel::BitString { max_len, fixed } => <(Option<u32>, bool) as Encode>::spec_encode((max_len, fixed)),
        DataTypeModel::Array(b) => spec_encode_data_type(*b),
        DataTypeModel::SetOf(b) => spec_encode_data_type(*b),
        DataTypeModel::MapOf { value } => spec_encode_data_type(*value),
        DataTypeModel::Range(b) => spec_encode_data_type(*b),
        DataTypeModel::Tuple(ts) => counted(ts.len(), spec_encode_type_elems(ts)),
        DataTypeModel::Struct(fs) => counted(fs.len(), spec_encode_field_elems(fs)),
        DataTypeModel::Enum(ns) => <Vec<String> as Encode>::spec_encode(ns),
        DataTypeModel::TypeRef(s) => spec_encode_string(s),
        DataTypeModel::Extension { name, params } => emit_then(spec_encode_string(name), counted(params.len(), spec_encode_type_elems(params))),
        DataTypeModel::Decimal { precision, scale } => <(Option<u8>, Option<u8>) as Encode>::spec_encode((precision, scale)),
        DataTypeModel::Time { precision } => <u8 as Encode>::spec_encode(precision),
        DataTypeModel::DateTime { precision } => <u8 as Encode>::spec_encode(precision),
        DataTypeModel::OffsetDateTime { precision } => <u8 as Encode>::spec_encode(precision),
        DataTypeModel::IpNetwork { prefix_len } => <u8 as Encode>::spec_encode(prefix_len),
        _ => emit(Seq::empty()),
    }
}

/// The encodings of `ts`, one after the other, up to the first that stops.
pub open spec fn spec_encode_type_elems(ts: Seq<DataTypeModel>) -> Emitted
    decreases ts, 0nat,
{
    if ts.len() == 0 {
        emit(Seq::empty())
    } else {
        emit_then(spec_encode_type_elems(ts.drop_last()), spec_encode_data_type(ts.last()))
    }
}

/// A struct field's encoding: name, type, nullability.
pub open spec fn spec_encode_struct_field(f: StructFieldModel) -> Emitted
    decreases f, 0nat,
{
    emit_then(
        spec_encode_string(f.name),
        emit_then(spec_encode_data_type(f.data_type), <bool as Encode>::spec_encode(f.nullable)),
    )
}

/// The encodings of `fs`, one after the other, up to the first that stops.
pub open spec fn spec_encode_field_elems(fs: Seq<StructFieldModel>) -> Emitted
    decreases fs, 0nat,
{
    if fs.len() == 0 {
        emit(Seq::empty())
    } else {
        emit_then(spec_encode_field_elems(fs.drop_last()), spec_encode_struct_field(fs.last()))
    }
}

/// A type read from `s`, nested at most `fuel` deep. Every level of nesting
/// consumes a discriminant byte, so a `fuel` of `s.len()` never runs out
/// before the input does.
pub open spec fn spec_decode_data_type(s: Seq<u8>, fuel: nat) -> Decoded<DataTypeModel>
    decreases fuel, 0nat, 0nat,
{
    if fuel == 0 {
        (Err(DecodeError::Eof { needed: 1, had: 0 }), 0)
    } else {
        and_then(
            spec_read_varint_u32(s),
            s,
            |tag: u32, rest: Seq<u8>| spec_decode_data_type_payload(tag, rest, (fuel - 1) as nat),
        )
    }
}

/// The payload that follows discriminant `tag`.
pub open spec fn spec_decode_data_type_payload(tag: u32, s: Seq<u8>, fuel: nat) -> Decoded<DataTypeModel>
    decreases fuel, 5nat, 0nat,
{
    if unit_data_type(tag) is Some {
        (Ok(unit_data_type(tag)->0), 0)
    } else if tag < 20 {
        spec_decode_text_payload(tag, s)
    } else if tag < 24 {
        spec_decode_nested_payload(tag, s, fuel)
    } else if tag < 29 {
        spec_decode_composite_payload(tag, s, fuel)
    } else {
        spec_decode_scalar_payload(tag, s)
    }
}

/// The payload of a text-like type: its length bound and fixedness.
pub open spec fn spec_decode_text_payload(tag: u32, s: Seq<u8>) -> Decoded<DataTypeModel> {
    if tag == 14 {
            mapped(<(Option<u32>, bool) as Decode>::spec_decode(s), |p: (Option<u32>, bool)| DataTypeModel::String { max_len: p.0, fixed: p.1 })
        } else if tag == 17 {
            mapped(<(Option<u32>, bool) as Decode>::spec_decode(s), |p: (Option<u32>, bool)| DataTypeModel::Bytes { max_len: p.0, fixed: p.1 })
        } else if tag == 19 {
            mapped(<(Option<u32>, bool) as Decode>::spec_decode(s), |p: (Option<u32>, bool)| DataTypeModel::BitString { max_len: p.0, fixed: p.1 })
        } else {
        (Err(DecodeError::InvalidVariant { kind: "DataType", seen: tag }), 0)
    }
}

/// The payload of a type wrapping one other type.
pub open spec fn spec_decode_nested_payload(tag: u32, s: Seq<u8>, fuel: nat) -> Decoded<DataTypeModel>
    decreases fuel, 4nat, 0nat,
{
    if tag == 20 {
            mapped(spec_decode_data_type(s, fuel), |t: DataTypeModel| DataTypeModel::Array(Box::new(t)))
        } else if tag == 21 {
            mapped(spec_decode_data_type(s, fuel), |t: DataTypeModel| DataTypeModel::SetOf(Box::new(t)))
        } else if tag == 22 {
            mapped(spec_decode_data_type(s, fuel), |t: DataTypeModel| DataTypeModel::MapOf { value: Box::new(t) })
        } else if tag == 23 {
            mapped(spec_decode_data_type(s, fuel), |t: DataTypeModel| DataTypeModel::Range(Box::new(t)))
        } else {
        (Err(DecodeError::InvalidVariant { kind: "DataType", seen: tag }), 0)
    }
}

/// The payload of a tuple, struct, enum, reference or extension type.
pub open spec fn spec_decode_composite_payload(tag: u32, s: Seq<u8>, fuel: nat) -> Decoded<DataTypeModel>
    decreases fuel, 4nat, 0nat,
{
    if tag == 24 {
            mapped(spec_decode_type_list(s, fuel), |ts: Seq<DataTypeModel>| DataTypeModel::Tuple(ts))
        } else if tag == 25 {
            mapped(spec_decode_field_list(s, fuel), |fs: Seq<StructFieldModel>| DataTypeModel::Struct(fs))
        } else if tag == 26 {
            mapped(<Vec<String> as Decode>::spec_decode(s), |ns: Seq<Seq<char>>| DataTypeModel::Enum(ns))
        } else if tag == 27 {
            mapped(spec_decode_string(s), |n: Seq<char>| DataTypeModel::TypeRef(n))
        } else if tag == 28 {
            and_then(
                spec_decode_string(s),
                s,
                |name: Seq<char>, rest: Seq<u8>|
                    mapped(spec_decode_type_list(rest, fuel), |ps: Seq<DataTypeModel>| DataTypeModel::Extension { name, params: ps }),
            )
        } else {
        (Err(DecodeError::InvalidVariant { kind: "DataType", seen: tag }), 0)
    }
}

/// The payload of a numeric, temporal or network type with parameters.
pub open spec fn spec_decode_scalar_payload(tag: u32, s: Seq<u8>) -> Decoded<DataTypeModel> {
    if tag == 30 {
            mapped(<(Option<u8>, Option<u8>) as Decode>::spec_decode(s), |p: (Option<u8>, Option<u8>)| DataTypeModel::Decimal { precision: p.0, scale: p.1 })
        } else if tag == 41 {
            mapped(<u8 as Decode>::spec_decode(s), |p: u8| DataTypeModel::Time { precision: p })
        } else if tag == 42 {
            mapped(<u8 as Decode>::spec_decode(s), |p: u8| DataTypeModel::DateTime { precision: p })
        } else if tag == 43 {
            mapped(<u8 as Decode>::spec_decode(s), |p: u8| DataTypeModel::OffsetDateTime { precision: p })
        } else if tag == 51 {
            mapped(<u8 as Decode>::spec_decode(s), |p: u8| DataTypeModel::IpNetwork { prefix_len: p })
        } else {
        (Err(DecodeError::InvalidVariant { kind: "DataType", seen: tag }), 0)
    }
}

/// A `u32` count of at most [`MAX_SEQ_LEN`], then that many types.
pub open spec fn spec_decode_type_list(s: Seq<u8>, fuel: nat) -> Decoded<Seq<DataTypeModel>>
    decreases fuel, 3nat, 0nat,
{
    and_then(
        spec_read_varint_u32(s),
        s,
        |n: u32, rest: Seq<u8>|
            if n > MAX_SEQ_LEN {
                (Err(DecodeError::LengthOverflow), 0)
            } else {
                spec_decode_type_elems(rest, n as nat, fuel)
            },
    )
}

/// `n` types, one after the other.
pub open spec fn spec_decode_type_elems(s: Seq<u8>, n: nat, fuel: nat) -> Decoded<Seq<DataTypeModel>>
    decreases fuel, 2nat, n,
{
    if n == 0 {
        (Ok(Seq::empty()), 0)
    } else {
        and_then(
            spec_decode_type_elems(s, (n - 1) as nat, fuel),
            s,
            |prefix: Seq<DataTypeModel>, rest: Seq<u8>|
                mapped(spec_decode_data_type(rest, fuel), |t: DataTypeModel| prefix.push(t)),
        )
    }
}

/// A struct field: name, type, nullability.
pub open spec fn spec_decode_struct_field(s: Seq<u8>, fuel: nat) -> Decoded<StructFieldModel>
    decreases fuel, 1nat, 0nat,
{
    and_then(
        spec_decode_string(s),
        s,
        |name: Seq<char>, r1: Seq<u8>|
            and_then(
                spec_decode_data_type(r1, fuel),
                r1,
                |t: DataTypeModel, r2: Seq<u8>|
                    mapped(
                        spec_decode_bool(r2),
                        |b: bool| StructFieldModel { name, data_type: t, nullable: b },
                    ),
            ),
    )
}

/// A `u32` count of at most [`MAX_SEQ_LEN`], then that many struct fields.
pub open spec fn spec_decode_field_list(s: Seq<u8>, fuel: nat) -> Decoded<Seq<StructFieldModel>>
    decreases fuel, 3nat, 0nat,
{
    and_then(
        spec_read_varint_u32(s),
        s,
        |n: u32, rest: Seq<u8>|
            if n > MAX_SEQ_LEN {
                (Err(DecodeError::LengthOverflow), 0)
            } else {
                spec_decode_field_elems(rest, n as nat, fuel)
            },
    )
}

/// `n` struct fields, one after the other.
pub open spec fn spec_decode_field_elems(s: Seq<u8>, n: nat, fuel: nat) -> Decoded<Seq<StructFieldModel>>
    decreases fuel, 2nat, n,
{
    if n == 0 {
        (Ok(Seq::empty()), 0)
    } else {
        and_then(
            spec_decode_field_elems(s, (n - 1) as nat, fuel),
            s,
            |prefix: Seq<StructFieldModel>, rest: Seq<u8>|
                mapped(spec_decode_struct_field(rest, fuel), |f: StructFieldModel| prefix.push(f)),
        )
    }
}

/// How many budget levels reading a type from `s` needs: one for each type
/// nested in another and for each list of types or fields, and one for each
/// element of such a list, up to where reading stops.
pub open spec fn spec_need_data_type(s: Seq<u8>, fuel: nat) -> nat
    decreases fuel, 0nat, 0nat,
{
    if fuel == 0 {
        0
    } else {
        match spec_read_varint_u32(s).0 {
            Ok(tag) => spec_need_data_type_payload(tag, s.skip(spec_read_varint_u32(s).1 as int), (fuel - 1) as nat),
            Err(_) => 0,
        }
    }
}

/// How many budget levels the payload after discriminant `tag` needs.
pub open spec fn spec_need_data_type_payload(tag: u32, s: Seq<u8>, fuel: nat) -> nat
    decreases fuel, 5nat, 0nat,
{
    if unit_data_type(tag) is Some {
        0
    } else if tag < 20 {
        spec_need_text_payload(tag, s)
    } else if tag < 24 {
        spec_need_nested_payload(tag, s, fuel)
    } else if tag < 29 {
        spec_need_composite_payload(tag, s, fuel)
    } else {
        spec_need_scalar_payload(tag, s)
    }
}

/// How many budget levels the payload of a text-like type needs.
pub open spec fn spec_need_text_payload(tag: u32, s: Seq<u8>) -> nat {
    if tag == 14 || tag == 17 || tag == 19 {
        <(Option<u32>, bool) as Decode>::spec_need(s)
    } else {
        0
    }
}

/// How many budget levels the payload of a parameterised scalar type needs.
pub open spec fn spec_need_scalar_payload(tag: u32, s: Seq<u8>) -> nat {
    if tag == 30 {
        <(Option<u8>, Option<u8>) as Decode>::spec_need(s)
    } else {
        0
    }
}

/// How many budget levels the payload of a type wrapping another needs.
pub open spec fn spec_need_nested_payload(tag: u32, s: Seq<u8>, fuel: nat) -> nat
    decreases fuel, 4nat, 0nat,
{
    if 20 <= tag <= 23 {
        1 + spec_need_data_type(s, fuel)
    } else {
        0
    }
}

/// How many budget levels the payload of a composite type needs.
pub open spec fn spec_need_composite_payload(tag: u32, s: Seq<u8>, fuel: nat) -> nat
    decreases fuel, 4nat, 0nat,
{
    if tag == 24 {
        1 + spec_need_type_list(s, fuel)
    } else if tag == 25 {
        1 + spec_need_field_list(s, fuel)
    } else if tag == 26 {
        <Vec<String> as Decode>::spec_need(s)
    } else if tag == 28 {
        match spec_decode_string(s).0 {
            Ok(_) => 1 + spec_need_type_list(s.skip(spec_decode_string(s).1 as int), fuel),
            Err(_) => 0,
        }
    } else {
        0
    }
}

/// How many budget levels a counted list of types needs.
pub open spec fn spec_need_type_list(s: Seq<u8>, fuel: nat) -> nat
    decreases fuel, 3nat, 0nat,
{
    match spec_read_varint_u32(s).0 {
        Ok(n) => if n > MAX_SEQ_LEN {
            0
        } else {
            spec_need_type_elems(s.skip(spec_read_varint_u32(s).1 as int), n as nat, fuel)
        },
        Err(_) => 0,
    }
}

/// How many budget levels the first `n` types of a list need, each read one
/// level down, up to the first that fails.
pub open spec fn spec_need_type_elems(s: Seq<u8>, n: nat, fuel: nat) -> nat
    decreases fuel, 2nat, n,
{
    if n == 0 {
        0
    } else {
        let d = spec_decode_type_elems(s, (n - 1) as nat, fuel);
        let prev = spec_need_type_elems(s, (n - 1) as nat, fuel);
        if d.0 is Ok {
            let k = 1 + spec_need_data_type(s.skip(d.1 as int), fuel);
            if k > prev {
                k
            } else {
                prev
            }
        } else {
            prev
        }
    }
}

/// How many budget levels a struct field needs: those of its type.
pub open spec fn spec_need_struct_field(s: Seq<u8>, fuel: nat) -> nat
    decreases fuel, 1nat, 0nat,
{
    match spec_decode_string(s).0 {
        Ok(_) => spec_need_data_type(s.skip(spec_decode_string(s).1 as int), fuel),
        Err(_) => 0,
    }
}

/// How many budget levels a counted list of struct fields needs.
pub open spec fn spec_need_field_list(s: Seq<u8>, fuel: nat) -> nat
    decreases fuel, 3nat, 0nat,
{
    match spec_read_varint_u32(s).0 {
        Ok(n) => if n > MAX_SEQ_LEN {
            0
        } else {
            spec_need_field_elems(s.skip(spec_read_varint_u32(s).1 as int), n as nat, fuel)
        },
        Err(_) => 0,
    }
}

/// How many budget levels the first `n` fields of a list need, each read
/// one level down, up to the first that fails.
pub open spec fn spec_need_field_elems(s: Seq<u8>, n: nat, fuel: nat) -> nat
    decreases fuel, 2nat, n,
{
    if n == 0 {
        0
    } else {
        let d = spec_decode_field_elems(s, (n - 1) as nat, fuel);
        let prev = spec_need_field_elems(s, (n - 1) as nat, fuel);
        if d.0 is Ok {
            let k = 1 + spec_need_struct_field(s.skip(d.1 as int), fuel);
            if k > prev {
                k
            } else {
                prev
            }
        } else {
            prev
        }
    }
}

/// Reading more types never needs fewer levels.
proof fn lemma_need_type_elems_mono(s: Seq<u8>, i: nat, n: nat, fuel: nat)
    ensures
        i <= n ==> spec_need_type_elems(s, i, fuel) <= spec_need_type_elems(s, n, fuel),
    decreases n,
{
    if i < n {
        lemma_need_type_elems_mono(s, i, (n - 1) as nat, fuel);
    }
}

/// Once a type fails, reading more needs no more levels.
proof fn lemma_need_type_elems_err(s: Seq<u8>, i: nat, n: nat, fuel: nat)
    requires
        i <= n,
        spec_decode_type_elems(s, i, fuel).0 is Err,
    ensures
        spec_need_type_elems(s, n, fuel) == spec_need_type_elems(s, i, fuel),
    decreases n - i,
{
    if i < n {
        lemma_need_type_elems_err(s, i, (n - 1) as nat, fuel);
        lemma_type_elems_err(s, i, (n - 1) as nat, fuel);
    }
}

/// Reading more fields never needs fewer levels.
proof fn lemma_need_field_elems_mono(s: Seq<u8>, i: nat, n: nat, fuel: nat)
    ensures
        i <= n ==> spec_need_field_elems(s, i, fuel) <= spec_need_field_elems(s, n, fuel),
    decreases n,
{
    if i < n {
        lemma_need_field_elems_mono(s, i, (n - 1) as nat, fuel);
    }
}

/// Once a field fails, reading more needs no more levels.
proof fn lemma_need_field_elems_err(s: Seq<u8>, i: nat, n: nat, fuel: nat)
    requires
        i <= n,
        spec_decode_field_elems(s, i, fuel).0 is Err,
    ensures
        spec_need_field_elems(s, n, fuel) == spec_need_field_elems(s, i, fuel),
    decreases n - i,
{
    if i < n {
        lemma_need_field_elems_err(s, i, (n - 1) as nat, fuel);
        lemma_field_elems_err(s, i, (n - 1) as nat, fuel);
    }
}

/// The types the decoder takes back: every list within [`MAX_SEQ_LEN`] and
/// every name within [`MAX_STR_BYTES`].
pub open spec fn data_type_fits(m: DataTypeModel) -> bool
    decreases m, 1nat,
{
    match m {
        DataTypeModel::Array(b) => data_type_fits(*b),
        DataTypeModel::SetOf(b) => data_type_fits(*b),
        DataTypeModel::MapOf { value } => data_type_fits(*value),
        DataTypeModel::Range(b) => data_type_fits(*b),
        DataTypeModel::Tuple(ts) => types_fit(ts),
        DataTypeModel::Struct(fs) => fields_fit(fs),
        DataTypeModel::Enum(ns) => <Vec<String> as Codec>::spec_fits(ns),
        DataTypeModel::TypeRef(s) => <String as Codec>::spec_fits(s),
        DataTypeModel::Extension { name, params } => <String as Codec>::spec_fits(name) && types_fit(params),
        _ => true,
    }
}

/// Every type of `ts` fits, and so does their count.
pub open spec fn types_fit(ts: Seq<DataTypeModel>) -> bool
    decreases ts, 0nat,
{
    &&& ts.len() <= MAX_SEQ_LEN
    &&& forall|i: int| 0 <= i < ts.len() ==> data_type_fits(#[trigger] ts[i])
}

/// A struct field fits when its name and type do.
pub open spec fn struct_field_fits(f: StructFieldModel) -> bool
    decreases f, 1nat,
{
    <String as Codec>::spec_fits(f.name) && data_type_fits(f.data_type)
}

/// Every field of `fs` fits, and so does their count.
pub open spec fn fields_fit(fs: Seq<StructFieldModel>) -> bool
    decreases fs, 0nat,
{
    &&& fs.len() <= MAX_SEQ_LEN
    &&& forall|i: int| 0 <= i < fs.len() ==> struct_field_fits(#[trigger] fs[i])
}

impl DataType {
    /// Text with no length bound.
    pub fn unbounded_string() -> (t: DataType)
        ensures
            t == (DataType::String { max_len: None, fixed: false }),
    {
        DataType::String { max_len: None, fixed: false }
    }

    /// Text of at most `max_len` characters.
    pub fn varying_string(max_len: u32) -> (t: DataType)
        ensures
            t == (DataType::String { max_len: Some(max_len), fixed: false }),
    {
        DataType::String { max_len: Some(max_len), fixed: false }
    }

    /// The discriminant that opens this type on the wire.
    pub fn tag(&self) -> (t: u32)
        ensures
            t == data_type_tag(self.deep_view()),
    {
        match self {
            DataType::Null => 0,
            DataType::Bool => 1,
            DataType::Int8 => 2,
            DataType::Int16 => 3,
            DataType::Int32 => 4,
            DataType::Int64 => 5,
            DataType::Int128 => 6,
            DataType::UInt8 => 7,
            DataType::UInt16 => 8,
            DataType::UInt32 => 9,
            DataType::UInt64 => 10,
            DataType::UInt128 => 11,
            DataType::Float32 => 12,
            DataType::Float64 => 13,
            DataType::String { .. } => 14,
            DataType::Json => 15,
            DataType::Xml => 16,
            DataType::Bytes { .. } => 17,
            DataType::Uuid => 18,
            DataType::BitString { .. } => 19,
            DataType::Array(..) => 20,
            DataType::SetOf(..) => 21,
            DataType::MapOf { .. } => 22,
            DataType::Range(..) => 23,
            DataType::Tuple(..) => 24,
            DataType::Struct(..) => 25,
            DataType::Enum(..) => 26,
            DataType::TypeRef(..) => 27,
            DataType::Extension { .. } => 28,
            DataType::Decimal { .. } => 30,
            DataType::Date => 40,
            DataType::Time { .. } => 41,
            DataType::DateTime { .. } => 42,
            DataType::OffsetDateTime { .. } => 43,
            DataType::Interval => 44,
            DataType::IpAddr => 50,
            DataType::IpNetwork { .. } => 51,
            DataType::MacAddr => 52,
            DataType::Point => 60,
            DataType::Line => 61,
            DataType::LineSegment => 62,
            DataType::Rect => 63,
            DataType::Circle => 64,
            DataType::Path => 65,
            DataType::Polygon => 66,
        }
    }
}

/// The payload-free type `tag` stands for, if it stands for one.
fn unit_data_type_of(tag: u32) -> (r: Option<DataType>)
    ensures
        match r {
            Some(t) => unit_data_type(tag) == Some(t.deep_view()),
            None => unit_data_type(tag) is None,
        },
{
    match tag {
        0 => Some(DataType::Null),
        1 => Some(DataType::Bool),
        2 => Some(DataType::Int8),
        3 => Some(DataType::Int16),
        4 => Some(DataType::Int32),
        5 => Some(DataType::Int64),
        6 => Some(DataType::Int128),
        7 => Some(DataType::UInt8),
        8 => Some(DataType::UInt16),
        9 => Some(DataType::UInt32),
        10 => Some(DataType::UInt64),
        11 => Some(DataType::UInt128),
        12 => Some(DataType::Float32),
        13 => Some(DataType::Float64),
        15 => Some(DataType::Json),
        16 => Some(DataType::Xml),
        18 => Some(DataType::Uuid),
        40 => Some(DataType::Date),
        44 => Some(DataType::Interval),
        50 => Some(DataType::IpAddr),
        52 => Some(DataType::MacAddr),
        60 => Some(DataType::Point),
        61 => Some(DataType::Line),
        62 => Some(DataType::LineSegment),
        63 => Some(DataType::Rect),
        64 => Some(DataType::Circle),
        65 => Some(DataType::Path),
        66 => Some(DataType::Polygon),
        _ => None,
    }
}

/// Append the encoding of `t`.
fn write_data_type(t: &DataType, w: &mut Writer) -> (res: Result<(), EncodeError>)
    ensures
        final(w).bytes() == old(w).bytes() + spec_encode_data_type(t.deep_view()).0,
        final(w).start() == old(w).start(),
        res is Ok <==> spec_encode_data_type(t.deep_view()).1,
        res matches Err(e) ==> e is LengthOverflow,
    decreases t,
{
    w.write_varint_u32(t.tag())?;
    let ghost head = w.bytes();
    let r = match t {
        DataType::String { max_len, fixed } => {
                    max_len.encode(w)?;
                    fixed.encode(w)
                },
        DataType::Bytes { max_len, fixed } => {
                    max_len.encode(w)?;
                    fixed.encode(w)
                },
        DataType::BitString { max_len, fixed } => {
                    max_len.encode(w)?;
                    fixed.encode(w)
                },
        DataType::Array(b) => write_data_type(b, w),
        DataType::SetOf(b) => write_data_type(b, w),
        DataType::MapOf { value } => write_data_type(value, w),
        DataType::Range(b) => write_data_type(b, w),
        DataType::Tuple(ts) => write_type_list(ts, w),
        DataType::Struct(fs) => write_field_list(fs, w),
        DataType::Enum(ns) => ns.encode(w),
        DataType::TypeRef(s) => s.encode(w),
        DataType::Extension { name, params } => {
                    name.encode(w)?;
                    write_type_list(params, w)
                },
        DataType::Decimal { precision, scale } => {
                    precision.encode(w)?;
                    scale.encode(w)
                },
        DataType::Time { precision } => precision.encode(w),
        DataType::DateTime { precision } => precision.encode(w),
        DataType::OffsetDateTime { precision } => precision.encode(w),
        DataType::IpNetwork { prefix_len } => prefix_len.encode(w),
        _ => Ok(()),
    };
    proof {
        let tb = varint_bytes(data_type_tag(t.deep_view()) as nat);
        assert(head == old(w).bytes() + tb);
        assert(w.bytes() =~= old(w).bytes() + (tb + (w.bytes().skip(head.len() as int))));
    }
    r
}

/// Append the count of `ts`, then each type.
fn write_type_list(ts: &Vec<DataType>, w: &mut Writer) -> (res: Result<(), EncodeError>)
    ensures
        final(w).bytes() == old(w).bytes() + counted(ts@.len(), spec_encode_type_elems(types_model(ts@))).0,
        final(w).start() == old(w).start(),
        res is Ok <==> counted(ts@.len(), spec_encode_type_elems(types_model(ts@))).1,
        res matches Err(e) ==> e is LengthOverflow,
    decreases ts,
{
    if ts.len() > u32::MAX as usize {
        return Err(EncodeError::LengthOverflow);
    }
    let ghost w0 = w.bytes();
    w.write_varint_u32(ts.len() as u32)?;
    let ghost head = w.bytes();
    let ghost ms = types_model(ts@);
    let mut i: usize = 0;
    proof {
        assert(ms.take(0) =~= Seq::<DataTypeModel>::empty());
        assert(head + Seq::<u8>::empty() =~= head);
    }
    while i < ts.len()
        invariant
            i <= ts.len(),
            ts.len() <= u32::MAX,
            ms == types_model(ts@),
            w0 == old(w).bytes(),
            w.start() == old(w).start(),
            head == w0 + varint_bytes(ts@.len()),
            w.bytes() == head + spec_encode_type_elems(ms.take(i as int)).0,
            spec_encode_type_elems(ms.take(i as int)).1,
        decreases ts.len() - i,
    {
        let r = write_data_type(&ts[i], w);
        proof {
            assert(ms.take(i + 1 as int).drop_last() =~= ms.take(i as int));
            assert(ms.take(i + 1 as int).last() == ts@[i as int].deep_view());
            assert(w.bytes() =~= head + spec_encode_type_elems(ms.take(i + 1 as int)).0);
        }
        if r.is_err() {
            proof {
                lemma_type_elems_stopped(ms, (i + 1) as nat);
            }
            return r;
        }
        i = i + 1;
    }
    proof {
        assert(ms.take(i as int) =~= ms);
    }
    Ok(())
}

/// Append the encoding of `f`.
fn write_struct_field(f: &StructField, w: &mut Writer) -> (res: Result<(), EncodeError>)
    ensures
        final(w).bytes() == old(w).bytes() + spec_encode_struct_field(f.deep_view()).0,
        final(w).start() == old(w).start(),
        res is Ok <==> spec_encode_struct_field(f.deep_view()).1,
        res matches Err(e) ==> e is LengthOverflow,
    decreases f,
{
    let ghost w0 = w.bytes();
    f.name.encode(w)?;
    let ghost w1 = w.bytes();
    write_data_type(&f.data_type, w)?;
    let ghost w2 = w.bytes();
    let r = f.nullable.encode(w);
    proof {
        assert(w.bytes() =~= w0 + (w1.skip(w0.len() as int) + (w2.skip(w1.len() as int) + w.bytes().skip(w2.len() as int))));
    }
    r
}

/// Append the count of `fs`, then each field.
fn write_field_list(fs: &Vec<StructField>, w: &mut Writer) -> (res: Result<(), EncodeError>)
    ensures
        final(w).bytes() == old(w).bytes() + counted(fs@.len(), spec_encode_field_elems(fields_model(fs@))).0,
        final(w).start() == old(w).start(),
        res is Ok <==> counted(fs@.len(), spec_encode_field_elems(fields_model(fs@))).1,
        res matches Err(e) ==> e is LengthOverflow,
    decreases fs,
{
    if fs.len() > u32::MAX as usize {
        return Err(EncodeError::LengthOverflow);
    }
    let ghost w0 = w.bytes();
    w.write_varint_u32(fs.len() as u32)?;
    let ghost head = w.bytes();
    let ghost ms = fields_model(fs@);
    let mut i: usize = 0;
    proof {
        assert(ms.take(0) =~= Seq::<StructFieldModel>::empty());
        assert(head + Seq::<u8>::empty() =~= head);
    }
    while i < fs.len()
        invariant
            i <= fs.len(),
            fs.len() <= u32::MAX,
            ms == fields_model(fs@),
            w0 == old(w).bytes(),
            w.start() == old(w).start(),
            head == w0 + varint_bytes(fs@.len()),
            w.bytes() == head + spec_encode_field_elems(ms.take(i as int)).0,
            spec_encode_field_elems(ms.take(i as int)).1,
        decreases fs.len() - i,
    {
        let r = write_struct_field(&fs[i], w);
        proof {
            assert(ms.take(i + 1 as int).drop_last() =~= ms.take(i as int));
            assert(ms.take(i + 1 as int).last() == fs@[i as int].deep_view());
            assert(w.bytes() =~= head + spec_encode_field_elems(ms.take(i + 1 as int)).0);
        }
        if r.is_err() {
            proof {
                lemma_field_elems_stopped(ms, (i + 1) as nat);
            }
            return r;
        }
        i = i + 1;
    }
    proof {
        assert(ms.take(i as int) =~= ms);
    }
    Ok(())
}

/// Once a type's encoding stops, encoding more types appends nothing.
proof fn lemma_type_elems_stopped(ts: Seq<DataTypeModel>, i: nat)
    requires
        i <= ts.len(),
        !spec_encode_type_elems(ts.take(i as int)).1,
    ensures
        spec_encode_type_elems(ts) == spec_encode_type_elems(ts.take(i as int)),
    decreases ts.len() - i,
{
    if i < ts.len() {
        assert(ts.take(i + 1 as int).drop_last() =~= ts.take(i as int));
        lemma_type_elems_stopped(ts, i + 1);
    } else {
        assert(ts.take(i as int) =~= ts);
    }
}

/// Once a field's encoding stops, encoding more fields appends nothing.
proof fn lemma_field_elems_stopped(fs: Seq<StructFieldModel>, i: nat)
    requires
        i <= fs.len(),
        !spec_encode_field_elems(fs.take(i as int)).1,
    ensures
        spec_encode_field_elems(fs) == spec_encode_field_elems(fs.take(i as int)),
    decreases fs.len() - i,
{
    if i < fs.len() {
        assert(fs.take(i + 1 as int).drop_last() =~= fs.take(i as int));
        lemma_field_elems_stopped(fs, i + 1);
    } else {
        assert(fs.take(i as int) =~= fs);
    }
}

/// The stable wire discriminants of column types: each type is written as
/// the one byte of its fixed discriminant (`Null` 0, `Bool` 1, the signed
/// integers 2 to 6, the unsigned 7 to 11, ... `Polygon` 66), then its
/// payload.
pub proof fn lemma_data_type_discriminants(m: DataTypeModel)
    ensures
        m is Null ==> spec_encode_data_type(m) == emit_then(emit(seq![0u8]), spec_encode_data_type_payload(m)),
        m is Bool ==> spec_encode_data_type(m) == emit_then(emit(seq![1u8]), spec_encode_data_type_payload(m)),
        m is Int8 ==> spec_encode_data_type(m) == emit_then(emit(seq![2u8]), spec_encode_data_type_payload(m)),
        m is Int16 ==> spec_encode_data_type(m) == emit_then(emit(seq![3u8]), spec_encode_data_type_payload(m)),
        m is Int32 ==> spec_encode_data_type(m) == emit_then(emit(seq![4u8]), spec_encode_data_type_payload(m)),
        m is Int64 ==> spec_encode_data_type(m) == emit_then(emit(seq![5u8]), spec_encode_data_type_payload(m)),
        m is Int128 ==> spec_encode_data_type(m) == emit_then(emit(seq![6u8]), spec_encode_data_type_payload(m)),
        m is UInt8 ==> spec_encode_data_type(m) == emit_then(emit(seq![7u8]), spec_encode_data_type_payload(m)),
        m is UInt16 ==> spec_encode_data_type(m) == emit_then(emit(seq![8u8]), spec_encode_data_type_payload(m)),
        m is UInt32 ==> spec_encode_data_type(m) == emit_then(emit(seq![9u8]), spec_encode_data_type_payload(m)),
        m is UInt64 ==> spec_encode_data_type(m) == emit_then(emit(seq![10u8]), spec_encode_data_type_payload(m)),
        m is UInt128 ==> spec_encode_data_type(m) == emit_then(emit(seq![11u8]), spec_encode_data_type_payload(m)),
        m is Float32 ==> spec_encode_data_type(m) == emit_then(emit(seq![12u8]), spec_encode_data_type_payload(m)),
        m is Float64 ==> spec_encode_data_type(m) == emit_then(emit(seq![13u8]), spec_encode_data_type_payload(m)),
        m is String ==> spec_encode_data_type(m) == emit_then(emit(seq![14u8]), spec_encode_data_type_payload(m)),
        m is Json ==> spec_encode_data_type(m) == emit_then(emit(seq![15u8]), spec_encode_data_type_payload(m)),
        m is Xml ==> spec_encode_data_type(m) == emit_then(emit(seq![16u8]), spec_encode_data_type_payload(m)),
        m is Bytes ==> spec_encode_data_type(m) == emit_then(emit(seq![17u8]), spec_encode_data_type_payload(m)),
        m is Uuid ==> spec_encode_data_type(m) == emit_then(emit(seq![18u8]), spec_encode_data_type_payload(m)),
        m is BitString ==> spec_encode_data_type(m) == emit_then(emit(seq![19u8]), spec_encode_data_type_payload(m)),
        m is Array ==> spec_encode_data_type(m) == emit_then(emit(seq![20u8]), spec_encode_data_type_payload(m)),
        m is SetOf ==> spec_encode_data_type(m) == emit_then(emit(seq![21u8]), spec_encode_data_type_payload(m)),
        m is MapOf ==> spec_encode_data_type(m) == emit_then(emit(seq![22u8]), spec_encode_data_type_payload(m)),
        m is Range ==> spec_encode_data_type(m) == emit_then(emit(seq![23u8]), spec_encode_data_type_payload(m)),
        m is Tuple ==> spec_encode_data_type(m) == emit_then(emit(seq![24u8]), spec_encode_data_type_payload(m)),
        m is Struct ==> spec_encode_data_type(m) == emit_then(emit(seq![25u8]), spec_encode_data_type_payload(m)),
        m is Enum ==> spec_encode_data_type(m) == emit_then(emit(seq![26u8]), spec_encode_data_type_payload(m)),
        m is TypeRef ==> spec_encode_data_type(m) == emit_then(emit(seq![27u8]), spec_encode_data_type_payload(m)),
        m is Extension ==> spec_encode_data_type(m) == emit_then(emit(seq![28u8]), spec_encode_data_type_payload(m)),
        m is Decimal ==> spec_encode_data_type(m) == emit_then(emit(seq![30u8]), spec_encode_data_type_payload(m)),
        m is Date ==> spec_encode_data_type(m) == emit_then(emit(seq![40u8]), spec_encode_data_type_payload(m)),
        m is Time ==> spec_encode_data_type(m) == emit_then(emit(seq![41u8]), spec_encode_data_type_payload(m)),
        m is DateTime ==> spec_encode_data_type(m) == emit_then(emit(seq![42u8]), spec_encode_data_type_payload(m)),
        m is OffsetDateTime ==> spec_encode_data_type(m) == emit_then(emit(seq![43u8]), spec_encode_data_type_payload(m)),
        m is Interval ==> spec_encode_data_type(m) == emit_then(emit(seq![44u8]), spec_encode_data_type_payload(m)),
        m is IpAddr ==> spec_encode_data_type(m) == emit_then(emit(seq![50u8]), spec_encode_data_type_payload(m)),
        m is IpNetwork ==> spec_encode_data_type(m) == emit_then(emit(seq![51u8]), spec_encode_data_type_payload(m)),
        m is MacAddr ==> spec_encode_data_type(m) == emit_then(emit(seq![52u8]), spec_encode_data_type_payload(m)),
        m is Point ==> spec_encode_data_type(m) == emit_then(emit(seq![60u8]), spec_encode_data_type_payload(m)),
        m is Line ==> spec_encode_data_type(m) == emit_then(emit(seq![61u8]), spec_encode_data_type_payload(m)),
        m is LineSegment ==> spec_encode_data_type(m) == emit_then(emit(seq![62u8]), spec_encode_data_type_payload(m)),
        m is Rect ==> spec_encode_data_type(m) == emit_then(emit(seq![63u8]), spec_encode_data_type_payload(m)),
        m is Circle ==> spec_encode_data_type(m) == emit_then(emit(seq![64u8]), spec_encode_data_type_payload(m)),
        m is Path ==> spec_encode_data_type(m) == emit_then(emit(seq![65u8]), spec_encode_data_type_payload(m)),
        m is Polygon ==> spec_encode_data_type(m) == emit_then(emit(seq![66u8]), spec_encode_data_type_payload(m)),
{
    lemma_small_tag(0, Seq::empty());
    lemma_small_tag(1, Seq::empty());
    lemma_small_tag(2, Seq::empty());
    lemma_small_tag(3, Seq::empty());
    lemma_small_tag(4, Seq::empty());
    lemma_small_tag(5, Seq::empty());
    lemma_small_tag(6, Seq::empty());
    lemma_small_tag(7, Seq::empty());
    lemma_small_tag(8, Seq::empty());
    lemma_small_tag(9, Seq::empty());
    lemma_small_tag(10, Seq::empty());
    lemma_small_tag(11, Seq::empty());
    lemma_small_tag(12, Seq::empty());
    lemma_small_tag(13, Seq::empty());
    lemma_small_tag(14, Seq::empty());
    lemma_small_tag(15, Seq::empty());
    lemma_small_tag(16, Seq::empty());
    lemma_small_tag(17, Seq::empty());
    lemma_small_tag(18, Seq::empty());
    lemma_small_tag(19, Seq::empty());
    lemma_small_tag(20, Seq::empty());
    lemma_small_tag(21, Seq::empty());
    lemma_small_tag(22, Seq::empty());
    lemma_small_tag(23, Seq::empty());
    lemma_small_tag(24, Seq::empty());
    lemma_small_tag(25, Seq::empty());
    lemma_small_tag(26, Seq::empty());
    lemma_small_tag(27, Seq::empty());
    lemma_small_tag(28, Seq::empty());
    lemma_small_tag(30, Seq::empty());
    lemma_small_tag(40, Seq::empty());
    lemma_small_tag(41, Seq::empty());
    lemma_small_tag(42, Seq::empty());
    lemma_small_tag(43, Seq::empty());
    lemma_small_tag(44, Seq::empty());
    lemma_small_tag(50, Seq::empty());
    lemma_small_tag(51, Seq::empty());
    lemma_small_tag(52, Seq::empty());
    lemma_small_tag(60, Seq::empty());
    lemma_small_tag(61, Seq::empty());
    lemma_small_tag(62, Seq::empty());
    lemma_small_tag(63, Seq::empty());
    lemma_small_tag(64, Seq::empty());
    lemma_small_tag(65, Seq::empty());
    lemma_small_tag(66, Seq::empty());
}

/// Bytes opening with a type's fixed discriminant read back as that type,
/// whatever follows.
pub proof fn lemma_data_type_discriminants_read(s: Seq<u8>, fuel: nat)
    ensures
        spec_decode_data_type(seq![0u8] + s, fuel + 1).0 matches Ok(t) ==> t is Null,
        spec_decode_data_type(seq![1u8] + s, fuel + 1).0 matches Ok(t) ==> t is Bool,
        spec_decode_data_type(seq![2u8] + s, fuel + 1).0 matches Ok(t) ==> t is Int8,
        spec_decode_data_type(seq![3u8] + s, fuel + 1).0 matches Ok(t) ==> t is Int16,
        spec_decode_data_type(seq![4u8] + s, fuel + 1).0 matches Ok(t) ==> t is Int32,
        spec_decode_data_type(seq![5u8] + s, fuel + 1).0 matches Ok(t) ==> t is Int64,
        spec_decode_data_type(seq![6u8] + s, fuel + 1).0 matches Ok(t) ==> t is Int128,
        spec_decode_data_type(seq![7u8] + s, fuel + 1).0 matches Ok(t) ==> t is UInt8,
        spec_decode_data_type(seq![8u8] + s, fuel + 1).0 matches Ok(t) ==> t is UInt16,
        spec_decode_data_type(seq![9u8] + s, fuel + 1).0 matches Ok(t) ==> t is UInt32,
        spec_decode_data_type(seq![10u8] + s, fuel + 1).0 matches Ok(t) ==> t is UInt64,
        spec_decode_data_type(seq![11u8] + s, fuel + 1).0 matches Ok(t) ==> t is UInt128,
        spec_decode_data_type(seq![12u8] + s, fuel + 1).0 matches Ok(t) ==> t is Float32,
        spec_decode_data_type(seq![13u8] + s, fuel + 1).0 matches Ok(t) ==> t is Float64,
        spec_decode_data_type(seq![14u8] + s, fuel + 1).0 matches Ok(t) ==> t is String,
        spec_decode_data_type(seq![15u8] + s, fuel + 1).0 matches Ok(t) ==> t is Json,
        spec_decode_data_type(seq![16u8] + s, fuel + 1).0 matches Ok(t) ==> t is Xml,
        spec_decode_data_type(seq![17u8] + s, fuel + 1).0 matches Ok(t) ==> t is Bytes,
        spec_decode_data_type(seq![18u8] + s, fuel + 1).0 matches Ok(t) ==> t is Uuid,
        spec_decode_data_type(seq![19u8] + s, fuel + 1).0 matches Ok(t) ==> t is BitString,
        spec_decode_data_type(seq![20u8] + s, fuel + 1).0 matches Ok(t) ==> t is Array,
        spec_decode_data_type(seq![21u8] + s, fuel + 1).0 matches Ok(t) ==> t is SetOf,
        spec_decode_data_type(seq![22u8] + s, fuel + 1).0 matches Ok(t) ==> t is MapOf,
        spec_decode_data_type(seq![23u8] + s, fuel + 1).0 matches Ok(t) ==> t is Range,
        spec_decode_data_type(seq![24u8] + s, fuel + 1).0 matches Ok(t) ==> t is Tuple,
        spec_decode_data_type(seq![25u8] + s, fuel + 1).0 matches Ok(t) ==> t is Struct,
        spec_decode_data_type(seq![26u8] + s, fuel + 1).0 matches Ok(t) ==> t is Enum,
        spec_decode_data_type(seq![27u8] + s, fuel + 1).0 matches Ok(t) ==> t is TypeRef,
        spec_decode_data_type(seq![28u8] + s, fuel + 1).0 matches Ok(t) ==> t is Extension,
        spec_decode_data_type(seq![30u8] + s, fuel + 1).0 matches Ok(t) ==> t is Decimal,
        spec_decode_data_type(seq![40u8] + s, fuel + 1).0 matches Ok(t) ==> t is Date,
        spec_decode_data_type(seq![41u8] + s, fuel + 1).0 matches Ok(t) ==> t is Time,
        spec_decode_data_type(seq![42u8] + s, fuel + 1).0 matches Ok(t) ==> t is DateTime,
        spec_decode_data_type(seq![43u8] + s, fuel + 1).0 matches Ok(t) ==> t is OffsetDateTime,
        spec_decode_data_type(seq![44u8] + s, fuel + 1).0 matches Ok(t) ==> t is Interval,
        spec_decode_data_type(seq![50u8] + s, fuel + 1).0 matches Ok(t) ==> t is IpAddr,
        spec_decode_data_type(seq![51u8] + s, fuel + 1).0 matches Ok(t) ==> t is IpNetwork,
        spec_decode_data_type(seq![52u8] + s, fuel + 1).0 matches Ok(t) ==> t is MacAddr,
        spec_decode_data_type(seq![60u8] + s, fuel + 1).0 matches Ok(t) ==> t is Point,
        spec_decode_data_type(seq![61u8] + s, fuel + 1).0 matches Ok(t) ==> t is Line,
        spec_decode_data_type(seq![62u8] + s, fuel + 1).0 matches Ok(t) ==> t is LineSegment,
        spec_decode_data_type(seq![63u8] + s, fuel + 1).0 matches Ok(t) ==> t is Rect,
        spec_decode_data_type(seq![64u8] + s, fuel + 1).0 matches Ok(t) ==> t is Circle,
        spec_decode_data_type(seq![65u8] + s, fuel + 1).0 matches Ok(t) ==> t is Path,
        spec_decode_data_type(seq![66u8] + s, fuel + 1).0 matches Ok(t) ==> t is Polygon,
{
    lemma_small_tag(0, s);
    lemma_small_tag(1, s);
    lemma_small_tag(2, s);
    lemma_small_tag(3, s);
    lemma_small_tag(4, s);
    lemma_small_tag(5, s);
    lemma_small_tag(6, s);
    lemma_small_tag(7, s);
    lemma_small_tag(8, s);
    lemma_small_tag(9, s);
    lemma_small_tag(10, s);
    lemma_small_tag(11, s);
    lemma_small_tag(12, s);
    lemma_small_tag(13, s);
    lemma_small_tag(14, s);
    lemma_small_tag(15, s);
    lemma_small_tag(16, s);
    lemma_small_tag(17, s);
    lemma_small_tag(18, s);
    lemma_small_tag(19, s);
    lemma_small_tag(20, s);
    lemma_small_tag(21, s);
    lemma_small_tag(22, s);
    lemma_small_tag(23, s);
    lemma_small_tag(24, s);
    lemma_small_tag(25, s);
    lemma_small_tag(26, s);
    lemma_small_tag(27, s);
    lemma_small_tag(28, s);
    lemma_small_tag(30, s);
    lemma_small_tag(40, s);
    lemma_small_tag(41, s);
    lemma_small_tag(42, s);
    lemma_small_tag(43, s);
    lemma_small_tag(44, s);
    lemma_small_tag(50, s);
    lemma_small_tag(51, s);
    lemma_small_tag(52, s);
    lemma_small_tag(60, s);
    lemma_small_tag(61, s);
    lemma_small_tag(62, s);
    lemma_small_tag(63, s);
    lemma_small_tag(64, s);
    lemma_small_tag(65, s);
    lemma_small_tag(66, s);
}

impl Encode for DataType {
    open spec fn spec_encode(m: DataTypeModel) -> Emitted {
        spec_encode_data_type(m)
    }

    fn encode(&self, writer: &mut Writer) -> (res: Result<(), EncodeError>) {
        write_data_type(self, writer)
    }
}

impl Encode for StructField {
    open spec fn spec_encode(f: StructFieldModel) -> Emitted {
        spec_encode_struct_field(f)
    }

    fn encode(&self, writer: &mut Writer) -> (res: Result<(), EncodeError>) {
        write_struct_field(self, writer)
    }
}

/// Read a type; `fuel`, at least the length of what remains, bounds the
/// nesting depth.
fn read_data_type(reader: &mut Reader<'_>, budget: &mut Budget, Ghost(fuel): Ghost<nat>) -> (res: Result<DataType, DecodeError>)
    requires
        old(reader).rest().len() <= fuel,
    ensures
        *final(budget) == *old(budget),
        old(budget).remaining() < spec_need_data_type(old(reader).rest(), fuel) ==> res matches Err(DecodeError::Budget(BudgetError::Depth)),
        old(budget).remaining() >= spec_need_data_type(old(reader).rest(), fuel) ==> (decoded_as(res, spec_decode_data_type(old(reader).rest(), fuel).0)),
        old(budget).remaining() >= spec_need_data_type(old(reader).rest(), fuel) ==> (old(reader).advanced_to(*final(reader), spec_decode_data_type(old(reader).rest(), fuel).1)),
    decreases fuel, 0nat, 0nat,
{
    let ghost r0 = *reader;
    proof {
        crate::varint::lemma_scan_varint_done(r0.rest(), 5);
    }
    let tag = reader.read_varint_u32()?;
    proof {
        r0.lemma_rest_after(*reader, spec_read_varint_u32(r0.rest()).1);
    }
    read_data_type_payload(tag, reader, budget, Ghost((fuel - 1) as nat))
}

/// Read the payload that follows discriminant `tag`.
fn read_data_type_payload(tag: u32, reader: &mut Reader<'_>, budget: &mut Budget, Ghost(fuel): Ghost<nat>) -> (res: Result<DataType, DecodeError>)
    requires
        old(reader).rest().len() <= fuel,
        old(reader).position() <= old(reader).data().len() <= isize::MAX,
    ensures
        *final(budget) == *old(budget),
        old(budget).remaining() < spec_need_data_type_payload(tag, old(reader).rest(), fuel) ==> res matches Err(DecodeError::Budget(BudgetError::Depth)),
        old(budget).remaining() >= spec_need_data_type_payload(tag, old(reader).rest(), fuel) ==> (decoded_as(res, spec_decode_data_type_payload(tag, old(reader).rest(), fuel).0)),
        old(budget).remaining() >= spec_need_data_type_payload(tag, old(reader).rest(), fuel) ==> (old(reader).advanced_to(*final(reader), spec_decode_data_type_payload(tag, old(reader).rest(), fuel).1)),
    decreases fuel, 5nat, 0nat,
{
    if let Some(t) = unit_data_type_of(tag) {
        Ok(t)
    } else if tag < 20 {
        read_text_payload(tag, reader, budget)
    } else if tag < 24 {
        read_nested_payload(tag, reader, budget, Ghost(fuel))
    } else if tag < 29 {
        read_composite_payload(tag, reader, budget, Ghost(fuel))
    } else {
        read_scalar_payload(tag, reader, budget)
    }
}

/// Read the payload of a text-like type.
fn read_text_payload(tag: u32, reader: &mut Reader<'_>, budget: &mut Budget) -> (res: Result<DataType, DecodeError>)
    requires
        old(reader).position() <= old(reader).data().len() <= isize::MAX,
    ensures
        *final(budget) == *old(budget),
        old(budget).remaining() < spec_need_text_payload(tag, old(reader).rest()) ==> res matches Err(DecodeError::Budget(BudgetError::Depth)),
        old(budget).remaining() >= spec_need_text_payload(tag, old(reader).rest()) ==> (decoded_as(res, spec_decode_text_payload(tag, old(reader).rest()).0)),
        old(budget).remaining() >= spec_need_text_payload(tag, old(reader).rest()) ==> (old(reader).advanced_to(*final(reader), spec_decode_text_payload(tag, old(reader).rest()).1)),
{
    if tag == 14 {
        let (max_len, fixed) = <(Option<u32>, bool)>::decode(reader, budget)?;
        return Ok(DataType::String { max_len, fixed });
    }
    if tag == 17 {
        let (max_len, fixed) = <(Option<u32>, bool)>::decode(reader, budget)?;
        return Ok(DataType::Bytes { max_len, fixed });
    }
    if tag == 19 {
        let (max_len, fixed) = <(Option<u32>, bool)>::decode(reader, budget)?;
        return Ok(DataType::BitString { max_len, fixed });
    }
    Err(DecodeError::InvalidVariant { kind: "DataType", seen: tag })
}

/// Read the payload of a type wrapping one other type.
fn read_nested_payload(tag: u32, reader: &mut Reader<'_>, budget: &mut Budget, Ghost(fuel): Ghost<nat>) -> (res: Result<DataType, DecodeError>)
    requires
        old(reader).rest().len() <= fuel,
        old(reader).position() <= old(reader).data().len() <= isize::MAX,
    ensures
        *final(budget) == *old(budget),
        old(budget).remaining() < spec_need_nested_payload(tag, old(reader).rest(), fuel) ==> res matches Err(DecodeError::Budget(BudgetError::Depth)),
        old(budget).remaining() >= spec_need_nested_payload(tag, old(reader).rest(), fuel) ==> (decoded_as(res, spec_decode_nested_payload(tag, old(reader).rest(), fuel).0)),
        old(budget).remaining() >= spec_need_nested_payload(tag, old(reader).rest(), fuel) ==> (old(reader).advanced_to(*final(reader), spec_decode_nested_payload(tag, old(reader).rest(), fuel).1)),
    decreases fuel, 4nat, 0nat,
{
    if tag == 20 {
        let ghost b0 = *budget;
        budget.enter()?;
        let r = read_data_type(reader, budget, Ghost(fuel));
        budget.leave(Ghost(b0));
        let inner = r?;
        return Ok(DataType::Array(Box::new(inner)));
    }
    if tag == 21 {
        let ghost b0 = *budget;
        budget.enter()?;
        let r = read_data_type(reader, budget, Ghost(fuel));
        budget.leave(Ghost(b0));
        let inner = r?;
        return Ok(DataType::SetOf(Box::new(inner)));
    }
    if tag == 22 {
        let ghost b0 = *budget;
        budget.enter()?;
        let r = read_data_type(reader, budget, Ghost(fuel));
        budget.leave(Ghost(b0));
        let value = r?;
        return Ok(DataType::MapOf { value: Box::new(value) });
    }
    if tag == 23 {
        let ghost b0 = *budget;
        budget.enter()?;
        let r = read_data_type(reader, budget, Ghost(fuel));
        budget.leave(Ghost(b0));
        let inner = r?;
        return Ok(DataType::Range(Box::new(inner)));
    }
    Err(DecodeError::InvalidVariant { kind: "DataType", seen: tag })
}

/// Read the payload of a tuple, struct, enum, reference or extension type.
#[verifier::rlimit(80)]
fn read_composite_payload(tag: u32, reader: &mut Reader<'_>, budget: &mut Budget, Ghost(fuel): Ghost<nat>) -> (res: Result<DataType, DecodeError>)
    requires
        old(reader).rest().len() <= fuel,
        old(reader).position() <= old(reader).data().len() <= isize::MAX,
    ensures
        *final(budget) == *old(budget),
        old(budget).remaining() < spec_need_composite_payload(tag, old(reader).rest(), fuel) ==> res matches Err(DecodeError::Budget(BudgetError::Depth)),
        old(budget).remaining() >= spec_need_composite_payload(tag, old(reader).rest(), fuel) ==> (decoded_as(res, spec_decode_composite_payload(tag, old(reader).rest(), fuel).0)),
        old(budget).remaining() >= spec_need_composite_payload(tag, old(reader).rest(), fuel) ==> (old(reader).advanced_to(*final(reader), spec_decode_composite_payload(tag, old(reader).rest(), fuel).1)),
    decreases fuel, 4nat, 0nat,
{
    if tag == 24 {
        let ghost b0 = *budget;
        budget.enter()?;
        let r = read_type_list(reader, budget, Ghost(fuel));
        budget.leave(Ghost(b0));
        let ts = r?;
        return Ok(DataType::Tuple(ts));
    }
    if tag == 25 {
        let ghost b0 = *budget;
        budget.enter()?;
        let r = read_field_list(reader, budget, Ghost(fuel));
        budget.leave(Ghost(b0));
        let fs = r?;
        return Ok(DataType::Struct(fs));
    }
    if tag == 26 {
        let ns = Vec::<String>::decode(reader, budget)?;
        return Ok(DataType::Enum(ns));
    }
    if tag == 27 {
        let name = String::decode(reader, budget)?;
        return Ok(DataType::TypeRef(name));
    }
    if tag == 28 {
        let ghost r0 = *reader;
        let name = String::decode(reader, budget)?;
        proof {
            r0.lemma_rest_after(*reader, spec_decode_string(r0.rest()).1);
        }
        let ghost b0 = *budget;
        budget.enter()?;
        let r = read_type_list(reader, budget, Ghost(fuel));
        budget.leave(Ghost(b0));
        let params = r?;
        return Ok(DataType::Extension { name, params });
    }
    Err(DecodeError::InvalidVariant { kind: "DataType", seen: tag })
}

/// Read the payload of a numeric, temporal or network type with parameters.
fn read_scalar_payload(tag: u32, reader: &mut Reader<'_>, budget: &mut Budget) -> (res: Result<DataType, DecodeError>)
    requires
        old(reader).position() <= old(reader).data().len() <= isize::MAX,
    ensures
        *final(budget) == *old(budget),
        old(budget).remaining() < spec_need_scalar_payload(tag, old(reader).rest()) ==> res matches Err(DecodeError::Budget(BudgetError::Depth)),
        old(budget).remaining() >= spec_need_scalar_payload(tag, old(reader).rest()) ==> (decoded_as(res, spec_decode_scalar_payload(tag, old(reader).rest()).0)),
        old(budget).remaining() >= spec_need_scalar_payload(tag, old(reader).rest()) ==> (old(reader).advanced_to(*final(reader), spec_decode_scalar_payload(tag, old(reader).rest()).1)),
{
    if tag == 30 {
        let (precision, scale) = <(Option<u8>, Option<u8>)>::decode(reader, budget)?;
        return Ok(DataType::Decimal { precision, scale });
    }
    if tag == 41 {
        let precision = u8::decode(reader, budget)?;
        return Ok(DataType::Time { precision });
    }
    if tag == 42 {
        let precision = u8::decode(reader, budget)?;
        return Ok(DataType::DateTime { precision });
    }
    if tag == 43 {
        let precision = u8::decode(reader, budget)?;
        return Ok(DataType::OffsetDateTime { precision });
    }
    if tag == 51 {
        let prefix_len = u8::decode(reader, budget)?;
        return Ok(DataType::IpNetwork { prefix_len });
    }
    Err(DecodeError::InvalidVariant { kind: "DataType", seen: tag })
}


/// Read a count of at most [`MAX_SEQ_LEN`], then that many types.
fn read_type_list(reader: &mut Reader<'_>, budget: &mut Budget, Ghost(fuel): Ghost<nat>) -> (res: Result<Vec<DataType>, DecodeError>)
    requires
        old(reader).rest().len() <= fuel,
    ensures
        *final(budget) == *old(budget),
        old(budget).remaining() < spec_need_type_list(old(reader).rest(), fuel) ==> res matches Err(DecodeError::Budget(BudgetError::Depth)),
        old(budget).remaining() >= spec_need_type_list(old(reader).rest(), fuel) ==> (res matches Ok(v) ==> spec_decode_type_list(old(reader).rest(), fuel).0 == Ok::<Seq<DataTypeModel>, DecodeError>(types_model(v@))),
        old(budget).remaining() >= spec_need_type_list(old(reader).rest(), fuel) ==> (res matches Err(e) ==> spec_decode_type_list(old(reader).rest(), fuel).0 == Err::<Seq<DataTypeModel>, DecodeError>(e)),
        old(budget).remaining() >= spec_need_type_list(old(reader).rest(), fuel) ==> (old(reader).advanced_to(*final(reader), spec_decode_type_list(old(reader).rest(), fuel).1)),
    decreases fuel, 3nat, 0nat,
{
    let ghost r0 = *reader;
    let n = reader.read_varint_u32()?;
    if n > MAX_SEQ_LEN {
        return Err(DecodeError::LengthOverflow);
    }
    let ghost start = *reader;
    let ghost s0 = start.rest();
    proof {
        r0.lemma_rest_after(start, spec_read_varint_u32(r0.rest()).1);
    }
    let mut out: Vec<DataType> = Vec::new();
    let mut i: u32 = 0;
    proof {
        assert(types_model(out@) =~= Seq::<DataTypeModel>::empty());
    }
    while i < n
        invariant
            i <= n,
            n <= MAX_SEQ_LEN,
            r0 == *old(reader),
            s0.len() <= fuel,
            spec_read_varint_u32(r0.rest()) == (Ok::<u32, DecodeError>(n), spec_read_varint_u32(r0.rest()).1),
            r0.advanced_to(start, spec_read_varint_u32(r0.rest()).1),
            r0.rest().skip(spec_read_varint_u32(r0.rest()).1 as int) == s0,
            s0 == start.rest(),
            spec_decode_type_elems(s0, i as nat, fuel).0 == Ok::<Seq<DataTypeModel>, DecodeError>(types_model(out@)),
            start.advanced_to(*reader, spec_decode_type_elems(s0, i as nat, fuel).1),
            *budget == *old(budget),
            budget.remaining() >= spec_need_type_elems(s0, i as nat, fuel),
        decreases n - i,
    {
        let ghost before = *reader;
        let ghost d = spec_decode_type_elems(s0, i as nat, fuel);
        proof {
            start.lemma_rest_after(before, d.1);
            lemma_need_type_elems_mono(s0, (i + 1) as nat, n as nat, fuel);
        }
        let ghost b0 = *budget;
        budget.enter()?;
        let r = read_data_type(reader, budget, Ghost(fuel));
        budget.leave(Ghost(b0));
        match r {
            Ok(item) => {
                let ghost prev = out@;
                out.push(item);
                proof {
                    assert(types_model(out@) =~= types_model(prev).push(item.deep_view()));
                }
            },
            Err(e) => {
                proof {
                    if b0.remaining() >= 1 + spec_need_data_type(before.rest(), fuel) {
                        lemma_type_elems_err(s0, (i + 1) as nat, n as nat, fuel);
                        lemma_need_type_elems_err(s0, (i + 1) as nat, n as nat, fuel);
                    }
                }
                return Err(e);
            },
        }
        i = i + 1;
    }
    Ok(out)
}

/// Once a type fails to read, reading more fails the same way.
proof fn lemma_type_elems_err(s: Seq<u8>, i: nat, n: nat, fuel: nat)
    requires
        i <= n,
        spec_decode_type_elems(s, i, fuel).0 is Err,
    ensures
        spec_decode_type_elems(s, n, fuel) == spec_decode_type_elems(s, i, fuel),
    decreases n - i,
{
    if i < n {
        lemma_type_elems_err(s, i, (n - 1) as nat, fuel);
    }
}

/// Read a struct field: name, type, nullability.
fn read_struct_field(reader: &mut Reader<'_>, budget: &mut Budget, Ghost(fuel): Ghost<nat>) -> (res: Result<StructField, DecodeError>)
    requires
        old(reader).rest().len() <= fuel,
    ensures
        *final(budget) == *old(budget),
        old(budget).remaining() < spec_need_struct_field(old(reader).rest(), fuel) ==> res matches Err(DecodeError::Budget(BudgetError::Depth)),
        old(budget).remaining() >= spec_need_struct_field(old(reader).rest(), fuel) ==> (decoded_as(res, spec_decode_struct_field(old(reader).rest(), fuel).0)),
        old(budget).remaining() >= spec_need_struct_field(old(reader).rest(), fuel) ==> (old(reader).advanced_to(*final(reader), spec_decode_struct_field(old(reader).rest(), fuel).1)),
    decreases fuel, 1nat, 0nat,
{
    let ghost r0 = *reader;
    let name = String::decode(reader, budget)?;
    let ghost r1 = *reader;
    proof {
        r0.lemma_rest_after(r1, spec_decode_string(r0.rest()).1);
    }
    let data_type = read_data_type(reader, budget, Ghost(fuel))?;
    proof {
        r1.lemma_rest_after(*reader, spec_decode_data_type(r1.rest(), fuel).1);
    }
    let nullable = bool::decode(reader, budget)?;
    Ok(StructField { name, data_type, nullable })
}

/// Read a count of at most [`MAX_SEQ_LEN`], then that many struct fields.
fn read_field_list(reader: &mut Reader<'_>, budget: &mut Budget, Ghost(fuel): Ghost<nat>) -> (res: Result<Vec<StructField>, DecodeError>)
    requires
        old(reader).rest().len() <= fuel,
    ensures
        *final(budget) == *old(budget),
        old(budget).remaining() < spec_need_field_list(old(reader).rest(), fuel) ==> res matches Err(DecodeError::Budget(BudgetError::Depth)),
        old(budget).remaining() >= spec_need_field_list(old(reader).rest(), fuel) ==> (res matches Ok(v) ==> spec_decode_field_list(old(reader).rest(), fuel).0 == Ok::<Seq<StructFieldModel>, DecodeError>(fields_model(v@))),
        old(budget).remaining() >= spec_need_field_list(old(reader).rest(), fuel) ==> (res matches Err(e) ==> spec_decode_field_list(old(reader).rest(), fuel).0 == Err::<Seq<StructFieldModel>, DecodeError>(e)),
        old(budget).remaining() >= spec_need_field_list(old(reader).rest(), fuel) ==> (old(reader).advanced_to(*final(reader), spec_decode_field_list(old(reader).rest(), fuel).1)),
    decreases fuel, 3nat, 0nat,
{
    let ghost r0 = *reader;
    let n = reader.read_varint_u32()?;
    if n > MAX_SEQ_LEN {
        return Err(DecodeError::LengthOverflow);
    }
    let ghost start = *reader;
    let ghost s0 = start.rest();
    proof {
        r0.lemma_rest_after(start, spec_read_varint_u32(r0.rest()).1);
    }
    let mut out: Vec<StructField> = Vec::new();
    let mut i: u32 = 0;
    proof {
        assert(fields_model(out@) =~= Seq::<StructFieldModel>::empty());
    }
    while i < n
        invariant
            i <= n,
            n <= MAX_SEQ_LEN,
            r0 == *old(reader),
            s0.len() <= fuel,
            spec_read_varint_u32(r0.rest()) == (Ok::<u32, DecodeError>(n), spec_read_varint_u32(r0.rest()).1),
            r0.advanced_to(start, spec_read_varint_u32(r0.rest()).1),
            r0.rest().skip(spec_read_varint_u32(r0.rest()).1 as int) == s0,
            s0 == start.rest(),
            spec_decode_field_elems(s0, i as nat, fuel).0 == Ok::<Seq<StructFieldModel>, DecodeError>(fields_model(out@)),
            start.advanced_to(*reader, spec_decode_field_elems(s0, i as nat, fuel).1),
            *budget == *old(budget),
            budget.remaining() >= spec_need_field_elems(s0, i as nat, fuel),
        decreases n - i,
    {
        let ghost before = *reader;
        let ghost d = spec_decode_field_elems(s0, i as nat, fuel);
        proof {
            start.lemma_rest_after(before, d.1);
            lemma_need_field_elems_mono(s0, (i + 1) as nat, n as nat, fuel);
        }
        let ghost b0 = *budget;
        budget.enter()?;
        let r = read_struct_field(reader, budget, Ghost(fuel));
        budget.leave(Ghost(b0));
        match r {
            Ok(item) => {
                let ghost prev = out@;
                out.push(item);
                proof {
                    assert(fields_model(out@) =~= fields_model(prev).push(item.deep_view()));
                }
            },
            Err(e) => {
                proof {
                    if b0.remaining() >= 1 + spec_need_struct_field(before.rest(), fuel) {
                        lemma_field_elems_err(s0, (i + 1) as nat, n as nat, fuel);
                        lemma_need_field_elems_err(s0, (i + 1) as nat, n as nat, fuel);
                    }
                }
                return Err(e);
            },
        }
        i = i + 1;
    }
    Ok(out)
}

/// Once a field fails to read, reading more fails the same way.
proof fn lemma_field_elems_err(s: Seq<u8>, i: nat, n: nat, fuel: nat)
    requires
        i <= n,
        spec_decode_field_elems(s, i, fuel).0 is Err,
    ensures
        spec_decode_field_elems(s, n, fuel) == spec_decode_field_elems(s, i, fuel),
    decreases n - i,
{
    if i < n {
        lemma_field_elems_err(s, i, (n - 1) as nat, fuel);
    }
}

/// Reading a type never consumes more than it is given.
proof fn lemma_data_type_within(s: Seq<u8>, fuel: nat)
    ensures
        spec_decode_data_type(s, fuel).1 <= s.len(),
    decreases fuel, 0nat, 0nat,
{
    if fuel > 0 {
        lemma_read_varint_within(s);
        let d = spec_read_varint_u32(s);
        if let Ok(tag) = d.0 {
            lemma_data_type_payload_within(tag, s.skip(d.1 as int), (fuel - 1) as nat);
        }
    }
}

/// Reading a payload never consumes more than it is given.
proof fn lemma_data_type_payload_within(tag: u32, s: Seq<u8>, fuel: nat)
    ensures
        spec_decode_data_type_payload(tag, s, fuel).1 <= s.len(),
    decreases fuel, 5nat, 0nat,
{
    <(Option<u32>, bool) as Decode>::lemma_decode_within(s);
    <(Option<u8>, Option<u8>) as Decode>::lemma_decode_within(s);
    <u8 as Decode>::lemma_decode_within(s);
    <Vec<String> as Decode>::lemma_decode_within(s);
    <String as Decode>::lemma_decode_within(s);
    lemma_data_type_within(s, fuel);
    lemma_type_list_within(s, fuel);
    lemma_field_list_within(s, fuel);
    let n = spec_decode_string(s);
    lemma_type_list_within(s.skip(n.1 as int), fuel);
}

/// Reading a struct field never consumes more than it is given.
proof fn lemma_struct_field_within(s: Seq<u8>, fuel: nat)
    ensures
        spec_decode_struct_field(s, fuel).1 <= s.len(),
    decreases fuel, 1nat, 0nat,
{
    <String as Decode>::lemma_decode_within(s);
    let n = spec_decode_string(s);
    let r1 = s.skip(n.1 as int);
    lemma_data_type_within(r1, fuel);
    let t = spec_decode_data_type(r1, fuel);
    <bool as Decode>::lemma_decode_within(r1.skip(t.1 as int));
}


/// Encoded types decode back, whatever follows them.
proof fn lemma_type_elems_round_trip(ms: Seq<DataTypeModel>, tail: Seq<u8>, fuel: nat)
    requires
        forall|i: int| 0 <= i < ms.len() ==> data_type_fits(#[trigger] ms[i]),
        spec_encode_type_elems(ms).0.len() <= fuel,
    ensures
        spec_encode_type_elems(ms).1,
        spec_decode_type_elems(spec_encode_type_elems(ms).0 + tail, ms.len(), fuel) == (
            Ok::<Seq<DataTypeModel>, DecodeError>(ms),
            spec_encode_type_elems(ms).0.len(),
        ),
    decreases ms, 0nat,
{
    if ms.len() > 0 {
        let init = ms.drop_last();
        let last = ms.last();
        let ei = spec_encode_type_elems(init).0;
        let el = spec_encode_data_type(last).0;
        assert(data_type_fits(ms[ms.len() - 1]));
        assert forall|i: int| 0 <= i < init.len() implies data_type_fits(#[trigger] init[i]) by {
            assert(init[i] == ms[i]);
        }
        lemma_type_elems_round_trip(init, el + tail, fuel);
        lemma_data_type_round_trip(last, tail, fuel);
        assert(spec_encode_type_elems(ms).0 == ei + el);
        let s = ei + el + tail;
        assert(s =~= ei + (el + tail));
        assert(s.skip(ei.len() as int) =~= el + tail);
        assert(init.push(last) =~= ms);
    } else {
        assert(Seq::<u8>::empty() + tail =~= tail);
        assert(ms =~= Seq::<DataTypeModel>::empty());
    }
}

/// An encoded count-prefixed list of types decodes back, whatever follows it.
proof fn lemma_type_list_round_trip(ms: Seq<DataTypeModel>, tail: Seq<u8>, fuel: nat)
    requires
        types_fit(ms),
        counted(ms.len(), spec_encode_type_elems(ms)).0.len() <= fuel,
    ensures
        counted(ms.len(), spec_encode_type_elems(ms)).1,
        spec_decode_type_list(counted(ms.len(), spec_encode_type_elems(ms)).0 + tail, fuel) == (
            Ok::<Seq<DataTypeModel>, DecodeError>(ms),
            counted(ms.len(), spec_encode_type_elems(ms)).0.len(),
        ),
    decreases ms, 1nat,
{
    let e = spec_encode_type_elems(ms).0;
    let h = varint_bytes(ms.len());
    lemma_type_elems_round_trip(ms, tail, fuel);
    varint_u32_round_trip(ms.len() as u32, e + tail);
    let s = h + e + tail;
    assert(s =~= h + (e + tail));
    assert(s.skip(h.len() as int) =~= e + tail);
}

/// Reading types never consumes more than it is given.
proof fn lemma_type_elems_within(s: Seq<u8>, n: nat, fuel: nat)
    ensures
        spec_decode_type_elems(s, n, fuel).1 <= s.len(),
    decreases fuel, 2nat, n,
{
    if n > 0 {
        lemma_type_elems_within(s, (n - 1) as nat, fuel);
        let d = spec_decode_type_elems(s, (n - 1) as nat, fuel);
        lemma_data_type_within(s.skip(d.1 as int), fuel);
    }
}

/// Reading a count-prefixed list of types never consumes more than it is
/// given.
proof fn lemma_type_list_within(s: Seq<u8>, fuel: nat)
    ensures
        spec_decode_type_list(s, fuel).1 <= s.len(),
    decreases fuel, 3nat, 0nat,
{
    lemma_read_varint_within(s);
    let d = spec_read_varint_u32(s);
    if let Ok(n) = d.0 {
        lemma_type_elems_within(s.skip(d.1 as int), n as nat, fuel);
    }
}


/// Encoded struct fields decode back, whatever follows them.
proof fn lemma_field_elems_round_trip(ms: Seq<StructFieldModel>, tail: Seq<u8>, fuel: nat)
    requires
        forall|i: int| 0 <= i < ms.len() ==> struct_field_fits(#[trigger] ms[i]),
        spec_encode_field_elems(ms).0.len() <= fuel,
    ensures
        spec_encode_field_elems(ms).1,
        spec_decode_field_elems(spec_encode_field_elems(ms).0 + tail, ms.len(), fuel) == (
            Ok::<Seq<StructFieldModel>, DecodeError>(ms),
            spec_encode_field_elems(ms).0.len(),
        ),
    decreases ms, 0nat,
{
    if ms.len() > 0 {
        let init = ms.drop_last();
        let last = ms.last();
        let ei = spec_encode_field_elems(init).0;
        let el = spec_encode_struct_field(last).0;
        assert(struct_field_fits(ms[ms.len() - 1]));
        assert forall|i: int| 0 <= i < init.len() implies struct_field_fits(#[trigger] init[i]) by {
            assert(init[i] == ms[i]);
        }
        lemma_field_elems_round_trip(init, el + tail, fuel);
        lemma_struct_field_round_trip(last, tail, fuel);
        assert(spec_encode_field_elems(ms).0 == ei + el);
        let s = ei + el + tail;
        assert(s =~= ei + (el + tail));
        assert(s.skip(ei.len() as int) =~= el + tail);
        assert(init.push(last) =~= ms);
    } else {
        assert(Seq::<u8>::empty() + tail =~= tail);
        assert(ms =~= Seq::<StructFieldModel>::empty());
    }
}

/// An encoded count-prefixed list of struct fields decodes back, whatever follows it.
proof fn lemma_field_list_round_trip(ms: Seq<StructFieldModel>, tail: Seq<u8>, fuel: nat)
    requires
        fields_fit(ms),
        counted(ms.len(), spec_encode_field_elems(ms)).0.len() <= fuel,
    ensures
        counted(ms.len(), spec_encode_field_elems(ms)).1,
        spec_decode_field_list(counted(ms.len(), spec_encode_field_elems(ms)).0 + tail, fuel) == (
            Ok::<Seq<StructFieldModel>, DecodeError>(ms),
            counted(ms.len(), spec_encode_field_elems(ms)).0.len(),
        ),
    decreases ms, 1nat,
{
    let e = spec_encode_field_elems(ms).0;
    let h = varint_bytes(ms.len());
    lemma_field_elems_round_trip(ms, tail, fuel);
    varint_u32_round_trip(ms.len() as u32, e + tail);
    let s = h + e + tail;
    assert(s =~= h + (e + tail));
    assert(s.skip(h.len() as int) =~= e + tail);
}

/// Reading struct fields never consumes more than it is given.
proof fn lemma_field_elems_within(s: Seq<u8>, n: nat, fuel: nat)
    ensures
        spec_decode_field_elems(s, n, fuel).1 <= s.len(),
    decreases fuel, 2nat, n,
{
    if n > 0 {
        lemma_field_elems_within(s, (n - 1) as nat, fuel);
        let d = spec_decode_field_elems(s, (n - 1) as nat, fuel);
        lemma_struct_field_within(s.skip(d.1 as int), fuel);
    }
}

/// Reading a count-prefixed list of struct fields never consumes more than it is
/// given.
proof fn lemma_field_list_within(s: Seq<u8>, fuel: nat)
    ensures
        spec_decode_field_list(s, fuel).1 <= s.len(),
    decreases fuel, 3nat, 0nat,
{
    lemma_read_varint_within(s);
    let d = spec_read_varint_u32(s);
    if let Ok(n) = d.0 {
        lemma_field_elems_within(s.skip(d.1 as int), n as nat, fuel);
    }
}

/// Decoding an encoded type gives it back and consumes exactly its bytes,
/// whatever follows them, given fuel for at least its length.
pub proof fn lemma_data_type_round_trip(m: DataTypeModel, tail: Seq<u8>, fuel: nat)
    requires
        data_type_fits(m),
        spec_encode_data_type(m).0.len() <= fuel,
    ensures
        spec_encode_data_type(m).1,
        spec_decode_data_type(spec_encode_data_type(m).0 + tail, fuel) == (
            Ok::<DataTypeModel, DecodeError>(m),
            spec_encode_data_type(m).0.len(),
        ),
    decreases m, 1nat,
{
    let tag = data_type_tag(m);
    let tb = varint_bytes(tag as nat);
    let p = spec_encode_data_type_payload(m).0;
    lemma_varint_bytes_shape(tag as nat);
    lemma_data_type_payload_round_trip(m, tail, (fuel - 1) as nat);
    varint_u32_round_trip(tag, p + tail);
    let s = tb + p + tail;
    assert(s =~= tb + (p + tail));
    assert(s.skip(tb.len() as int) =~= p + tail);
}

/// A type whose payload holds other types.
pub open spec fn is_nesting(m: DataTypeModel) -> bool {
    m is Array || m is SetOf || m is MapOf || m is Range || m is Tuple || m is Struct || m is Extension
}

/// Decoding an encoded payload after its discriminant gives the type back.
#[verifier::rlimit(80)]
proof fn lemma_data_type_payload_round_trip(m: DataTypeModel, tail: Seq<u8>, fuel: nat)
    requires
        data_type_fits(m),
        spec_encode_data_type_payload(m).0.len() <= fuel,
    ensures
        spec_encode_data_type_payload(m).1,
        spec_decode_data_type_payload(data_type_tag(m), spec_encode_data_type_payload(m).0 + tail, fuel) == (
            Ok::<DataTypeModel, DecodeError>(m),
            spec_encode_data_type_payload(m).0.len(),
        ),
    decreases m, 0nat,
{
    match m {
        DataTypeModel::Array(b) => {
            lemma_data_type_round_trip(*b, tail, fuel);
        },
        DataTypeModel::SetOf(b) => {
            lemma_data_type_round_trip(*b, tail, fuel);
        },
        DataTypeModel::MapOf { value } => {
            lemma_data_type_round_trip(*value, tail, fuel);
        },
        DataTypeModel::Range(b) => {
            lemma_data_type_round_trip(*b, tail, fuel);
        },
        DataTypeModel::Tuple(ts) => {
            lemma_type_list_round_trip(ts, tail, fuel);
        },
        DataTypeModel::Struct(fs) => {
            lemma_field_list_round_trip(fs, tail, fuel);
        },
        DataTypeModel::Extension { name, params } => {
            let en = spec_encode_string(name).0;
            let ep = counted(params.len(), spec_encode_type_elems(params)).0;
            lemma_type_list_round_trip(params, tail, fuel);
            <String as Codec>::lemma_round_trip(name, ep + tail);
            assert(en + ep + tail =~= en + (ep + tail));
            assert((en + (ep + tail)).skip(en.len() as int) =~= ep + tail);
        },
        _ => {
            lemma_flat_payload_round_trip(m, tail, fuel);
        },
    }
}

/// The payloads that hold no other type decode back.
proof fn lemma_flat_payload_round_trip(m: DataTypeModel, tail: Seq<u8>, fuel: nat)
    requires
        data_type_fits(m),
        !is_nesting(m),
    ensures
        spec_encode_data_type_payload(m).1,
        spec_decode_data_type_payload(data_type_tag(m), spec_encode_data_type_payload(m).0 + tail, fuel) == (
            Ok::<DataTypeModel, DecodeError>(m),
            spec_encode_data_type_payload(m).0.len(),
        ),
{
    match m {
        DataTypeModel::String { max_len, fixed } => {
            <(Option<u32>, bool) as Codec>::lemma_round_trip((max_len, fixed), tail);
        },
        DataTypeModel::Bytes { max_len, fixed } => {
            <(Option<u32>, bool) as Codec>::lemma_round_trip((max_len, fixed), tail);
        },
        DataTypeModel::BitString { max_len, fixed } => {
            <(Option<u32>, bool) as Codec>::lemma_round_trip((max_len, fixed), tail);
        },
        DataTypeModel::Enum(ns) => {
            <Vec<String> as Codec>::lemma_round_trip(ns, tail);
        },
        DataTypeModel::TypeRef(s) => {
            <String as Codec>::lemma_round_trip(s, tail);
        },
        DataTypeModel::Decimal { precision, scale } => {
            <(Option<u8>, Option<u8>) as Codec>::lemma_round_trip((precision, scale), tail);
        },
        DataTypeModel::Time { precision } => {
            <u8 as Codec>::lemma_round_trip(precision, tail);
        },
        DataTypeModel::DateTime { precision } => {
            <u8 as Codec>::lemma_round_trip(precision, tail);
        },
        DataTypeModel::OffsetDateTime { precision } => {
            <u8 as Codec>::lemma_round_trip(precision, tail);
        },
        DataTypeModel::IpNetwork { prefix_len } => {
            <u8 as Codec>::lemma_round_trip(prefix_len, tail);
        },
        _ => {
            assert(Seq::<u8>::empty() + tail =~= tail);
        },
    }
}


/// Decoding an encoded struct field gives it back, whatever follows it.
pub proof fn lemma_struct_field_round_trip(f: StructFieldModel, tail: Seq<u8>, fuel: nat)
    requires
        struct_field_fits(f),
        spec_encode_struct_field(f).0.len() <= fuel,
    ensures
        spec_encode_struct_field(f).1,
        spec_decode_struct_field(spec_encode_struct_field(f).0 + tail, fuel) == (
            Ok::<StructFieldModel, DecodeError>(f),
            spec_encode_struct_field(f).0.len(),
        ),
    decreases f, 0nat,
{
    let en = spec_encode_string(f.name).0;
    let et = spec_encode_data_type(f.data_type).0;
    let eb = <bool as Encode>::spec_encode(f.nullable).0;
    <bool as Codec>::lemma_round_trip(f.nullable, tail);
    lemma_data_type_round_trip(f.data_type, eb + tail, fuel);
    <String as Codec>::lemma_round_trip(f.name, et + eb + tail);
    let s = en + (et + eb) + tail;
    assert(s =~= en + (et + eb + tail));
    assert(s.skip(en.len() as int) =~= et + eb + tail);
    assert(et + eb + tail =~= et + (eb + tail));
    assert((et + (eb + tail)).skip(et.len() as int) =~= eb + tail);
}

impl Decode for DataType {
    open spec fn spec_decode(s: Seq<u8>) -> Decoded<DataTypeModel> {
        spec_decode_data_type(s, s.len())
    }

    proof fn lemma_decode_within(s: Seq<u8>) {
        lemma_data_type_within(s, s.len());
    }

    proof fn lemma_decode_local(s: Seq<u8>, t: Seq<u8>) {
        lemma_data_type_within(s, s.len());
        let n = spec_decode_data_type(s, s.len()).1;
        lemma_data_type_local(s, s.len(), t, (s.take(n as int) + t).len());
    }

    open spec fn spec_need(s: Seq<u8>) -> nat {
        spec_need_data_type(s, s.len())
    }

    fn decode(reader: &mut Reader<'_>, budget: &mut Budget) -> (res: Result<DataType, DecodeError>) {
        read_data_type(reader, budget, Ghost(reader.rest().len()))
    }
}

impl Decode for StructField {
    open spec fn spec_decode(s: Seq<u8>) -> Decoded<StructFieldModel> {
        spec_decode_struct_field(s, s.len())
    }

    proof fn lemma_decode_within(s: Seq<u8>) {
        lemma_struct_field_within(s, s.len());
    }

    proof fn lemma_decode_local(s: Seq<u8>, t: Seq<u8>) {
        lemma_struct_field_within(s, s.len());
        let n = spec_decode_struct_field(s, s.len()).1;
        lemma_struct_field_local(s, s.len(), t, (s.take(n as int) + t).len());
    }

    open spec fn spec_need(s: Seq<u8>) -> nat {
        spec_need_struct_field(s, s.len())
    }

    fn decode(reader: &mut Reader<'_>, budget: &mut Budget) -> (res: Result<StructField, DecodeError>) {
        read_struct_field(reader, budget, Ghost(reader.rest().len()))
    }
}

impl Codec for DataType {
    open spec fn spec_fits(m: DataTypeModel) -> bool {
        data_type_fits(m)
    }

    proof fn lemma_round_trip(m: DataTypeModel, tail: Seq<u8>) {
        lemma_data_type_round_trip(m, tail, (spec_encode_data_type(m).0 + tail).len());
    }
}

impl Codec for StructField {
    open spec fn spec_fits(f: StructFieldModel) -> bool {
        struct_field_fits(f)
    }

    proof fn lemma_round_trip(f: StructFieldModel, tail: Seq<u8>) {
        lemma_struct_field_round_trip(f, tail, (spec_encode_struct_field(f).0 + tail).len());
    }
}

/// A successful type read looks at no byte past those it consumes, and
/// any fuel covering those bytes reads it the same way.
proof fn lemma_data_type_local(s: Seq<u8>, fuel: nat, t: Seq<u8>, fuel2: nat)
    requires
        spec_decode_data_type(s, fuel).0 is Ok,
        spec_decode_data_type(s, fuel).1 <= fuel2,
    ensures
        spec_decode_data_type(s.take(spec_decode_data_type(s, fuel).1 as int) + t, fuel2)
            == spec_decode_data_type(s, fuel),
    decreases fuel, 0nat, 0nat,
{
    lemma_read_varint_within(s);
    crate::varint::lemma_scan_varint_done(s, 5);
    let d = spec_read_varint_u32(s);
    let tag = d.0->Ok_0;
    let rest = s.skip(d.1 as int);
    let f1 = (fuel - 1) as nat;
    lemma_data_type_payload_within(tag, rest, f1);
    let p = spec_decode_data_type_payload(tag, rest, f1);
    let t2 = rest.take(p.1 as int) + t;
    lemma_reads_local(s, t2);
    lemma_data_type_payload_local(tag, rest, f1, t, (fuel2 - 1) as nat);
    let u = s.take((d.1 + p.1) as int) + t;
    assert(u =~= s.take(d.1 as int) + t2);
    assert(u.skip(d.1 as int) =~= t2);
}

/// A successfully read payload looks at no byte past those it consumes,
/// and any fuel covering those bytes reads it the same way.
#[verifier::rlimit(60)]
proof fn lemma_data_type_payload_local(tag: u32, s: Seq<u8>, fuel: nat, t: Seq<u8>, fuel2: nat)
    requires
        spec_decode_data_type_payload(tag, s, fuel).0 is Ok,
        spec_decode_data_type_payload(tag, s, fuel).1 <= fuel2,
    ensures
        spec_decode_data_type_payload(tag, s.take(spec_decode_data_type_payload(tag, s, fuel).1 as int) + t, fuel2)
            == spec_decode_data_type_payload(tag, s, fuel),
    decreases fuel, 5nat, 0nat,
{
    if unit_data_type(tag) is Some {
    } else if tag < 20 {
        <(Option<u32>, bool) as Decode>::lemma_decode_local(s, t);
    } else if tag < 24 {
        lemma_data_type_local(s, fuel, t, fuel2);
    } else if tag == 24 {
        lemma_type_list_local(s, fuel, t, fuel2);
    } else if tag == 25 {
        lemma_field_list_local(s, fuel, t, fuel2);
    } else if tag == 26 {
        <Vec<String> as Decode>::lemma_decode_local(s, t);
    } else if tag == 27 {
        <String as Decode>::lemma_decode_local(s, t);
    } else if tag == 28 {
        <String as Decode>::lemma_decode_within(s);
        let q = spec_decode_string(s);
        let rest = s.skip(q.1 as int);
        lemma_type_list_within(rest, fuel);
        let l = spec_decode_type_list(rest, fuel);
        let t2 = rest.take(l.1 as int) + t;
        <String as Decode>::lemma_decode_local(s, t2);
        lemma_type_list_local(rest, fuel, t, fuel2);
        let u = s.take((q.1 + l.1) as int) + t;
        assert(u =~= s.take(q.1 as int) + t2);
        assert(u.skip(q.1 as int) =~= t2);
    } else if tag == 30 {
        <(Option<u8>, Option<u8>) as Decode>::lemma_decode_local(s, t);
    } else {
        <u8 as Decode>::lemma_decode_local(s, t);
    }
}

/// A successfully read struct field looks at no byte past those it
/// consumes, and any fuel covering those bytes reads it the same way.
#[verifier::rlimit(60)]
proof fn lemma_struct_field_local(s: Seq<u8>, fuel: nat, t: Seq<u8>, fuel2: nat)
    requires
        spec_decode_struct_field(s, fuel).0 is Ok,
        spec_decode_struct_field(s, fuel).1 <= fuel2,
    ensures
        spec_decode_struct_field(s.take(spec_decode_struct_field(s, fuel).1 as int) + t, fuel2)
            == spec_decode_struct_field(s, fuel),
    decreases fuel, 1nat, 0nat,
{
    <String as Decode>::lemma_decode_within(s);
    let q = spec_decode_string(s);
    let r1 = s.skip(q.1 as int);
    lemma_data_type_within(r1, fuel);
    let d = spec_decode_data_type(r1, fuel);
    let r2 = r1.skip(d.1 as int);
    let b = spec_decode_bool(r2);
    let t3 = r2.take(b.1 as int) + t;
    let t2 = r1.take((d.1 + b.1) as int) + t;
    <String as Decode>::lemma_decode_local(s, t2);
    lemma_data_type_local(r1, fuel, t3, fuel2);
    <bool as Decode>::lemma_decode_local(r2, t);
    let u = s.take((q.1 + d.1 + b.1) as int) + t;
    assert(u =~= s.take(q.1 as int) + t2);
    assert(u.skip(q.1 as int) =~= t2);
    assert(t2 =~= r1.take(d.1 as int) + t3);
    assert(t2.skip(d.1 as int) =~= t3);
}


/// Successfully read types look at no byte past those they consume, and
/// any fuel covering those bytes reads them the same way.
#[verifier::rlimit(60)]
proof fn lemma_type_elems_local(s: Seq<u8>, n: nat, fuel: nat, t: Seq<u8>, fuel2: nat)
    requires
        spec_decode_type_elems(s, n, fuel).0 is Ok,
        spec_decode_type_elems(s, n, fuel).1 <= fuel2,
    ensures
        spec_decode_type_elems(s.take(spec_decode_type_elems(s, n, fuel).1 as int) + t, n, fuel2)
            == spec_decode_type_elems(s, n, fuel),
    decreases fuel, 2nat, n,
{
    if n > 0 {
        let d = spec_decode_type_elems(s, (n - 1) as nat, fuel);
        lemma_type_elems_within(s, (n - 1) as nat, fuel);
        let rest = s.skip(d.1 as int);
        lemma_data_type_within(rest, fuel);
        let p = spec_decode_data_type(rest, fuel).1;
        let t2 = rest.take(p as int) + t;
        lemma_type_elems_local(s, (n - 1) as nat, fuel, t2, fuel2);
        lemma_data_type_local(rest, fuel, t, fuel2);
        let u = s.take((d.1 + p) as int) + t;
        assert(u =~= s.take(d.1 as int) + t2);
        assert(u.skip(d.1 as int) =~= t2);
    }
}

/// A successfully read count-prefixed list of types looks at no byte
/// past those it consumes, and any fuel covering those bytes reads it the
/// same way.
proof fn lemma_type_list_local(s: Seq<u8>, fuel: nat, t: Seq<u8>, fuel2: nat)
    requires
        spec_decode_type_list(s, fuel).0 is Ok,
        spec_decode_type_list(s, fuel).1 <= fuel2,
    ensures
        spec_decode_type_list(s.take(spec_decode_type_list(s, fuel).1 as int) + t, fuel2)
            == spec_decode_type_list(s, fuel),
    decreases fuel, 3nat, 0nat,
{
    lemma_read_varint_within(s);
    let d = spec_read_varint_u32(s);
    let n = d.0->Ok_0;
    let rest = s.skip(d.1 as int);
    lemma_type_elems_within(rest, n as nat, fuel);
    let e = spec_decode_type_elems(rest, n as nat, fuel);
    let t2 = rest.take(e.1 as int) + t;
    lemma_reads_local(s, t2);
    lemma_type_elems_local(rest, n as nat, fuel, t, fuel2);
    let u = s.take((d.1 + e.1) as int) + t;
    assert(u =~= s.take(d.1 as int) + t2);
    assert(u.skip(d.1 as int) =~= t2);
}


/// Successfully read struct fields look at no byte past those they consume, and
/// any fuel covering those bytes reads them the same way.
#[verifier::rlimit(60)]
proof fn lemma_field_elems_local(s: Seq<u8>, n: nat, fuel: nat, t: Seq<u8>, fuel2: nat)
    requires
        spec_decode_field_elems(s, n, fuel).0 is Ok,
        spec_decode_field_elems(s, n, fuel).1 <= fuel2,
    ensures
        spec_decode_field_elems(s.take(spec_decode_field_elems(s, n, fuel).1 as int) + t, n, fuel2)
            == spec_decode_field_elems(s, n, fuel),
    decreases fuel, 2nat, n,
{
    if n > 0 {
        let d = spec_decode_field_elems(s, (n - 1) as nat, fuel);
        lemma_field_elems_within(s, (n - 1) as nat, fuel);
        let rest = s.skip(d.1 as int);
        lemma_struct_field_within(rest, fuel);
        let p = spec_decode_struct_field(rest, fuel).1;
        let t2 = rest.take(p as int) + t;
        lemma_field_elems_local(s, (n - 1) as nat, fuel, t2, fuel2);
        lemma_struct_field_local(rest, fuel, t, fuel2);
        let u = s.take((d.1 + p) as int) + t;
        assert(u =~= s.take(d.1 as int) + t2);
        assert(u.skip(d.1 as int) =~= t2);
    }
}

/// A successfully read count-prefixed list of struct fields looks at no byte
/// past those it consumes, and any fuel covering those bytes reads it the
/// same way.
#[verifier::rlimit(60)]
proof fn lemma_field_list_local(s: Seq<u8>, fuel: nat, t: Seq<u8>, fuel2: nat)
    requires
        spec_decode_field_list(s, fuel).0 is Ok,
        spec_decode_field_list(s, fuel).1 <= fuel2,
    ensures
        spec_decode_field_list(s.take(spec_decode_field_list(s, fuel).1 as int) + t, fuel2)
            == spec_decode_field_list(s, fuel),
    decreases fuel, 3nat, 0nat,
{
    lemma_read_varint_within(s);
    let d = spec_read_varint_u32(s);
    let n = d.0->Ok_0;
    let rest = s.skip(d.1 as int);
    lemma_field_elems_within(rest, n as nat, fuel);
    let e = spec_decode_field_elems(rest, n as nat, fuel);
    let t2 = rest.take(e.1 as int) + t;
    lemma_reads_local(s, t2);
    lemma_field_elems_local(rest, n as nat, fuel, t, fuel2);
    let u = s.take((d.1 + e.1) as int) + t;
    assert(u =~= s.take(d.1 as int) + t2);
    assert(u.skip(d.1 as int) =~= t2);
}

} // verus!
