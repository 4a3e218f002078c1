use dol::core_types::{BitString, Blob, FileId, Interval};
use dol::decoder::{Budget, BudgetError, Decode, DecodeError, Limits, Reader};
use dol::codec::Codec;
use dol::encoder::{encode_to_vec, Encode};
use dol::literal::{Literal, LiteralBound, LiteralEntry, LiteralRange};
use dol::network::IpAddr;
use dol::scalar::{
    midnight, utc, Circle, Date, DateTime, Decimal, ExtensionPayload, Line, Offset, Path, Point,
    Polygon, Rect, Segment, Time, TimestampTz, MAX_SCALE,
};
use dol::value::{Value, ValueBound, ValueEntry, ValueRange};

fn rt<T: Codec>(v: &T) -> T {
    let bytes = encode_to_vec(v, &mut Budget::new(Limits::host())).unwrap();
    let mut reader = Reader::new(&bytes);
    let decoded = T::decode(&mut reader, &mut Budget::new(Limits::host())).unwrap();
    assert!(reader.is_exhausted());
    decoded
}

fn f(x: f64) -> [u8; 8] {
    x.to_le_bytes()
}

fn pt(x: f64, y: f64) -> Point {
    Point::try_new(f(x), f(y)).unwrap()
}

fn date(y: i32, m: u8, d: u8) -> Date {
    Date::try_new(y, m, d).unwrap()
}

fn time(h: u8, m: u8, s: u8, n: u32) -> Time {
    Time::try_new(h, m, s, n).unwrap()
}

// ── Leaves, with the inputs of the original round-trip suites ─────────

#[test]
fn decode_core_roundtrip_bit_string_round_trip() {
    let cases = [
        BitString::zeroes(0),
        BitString::zeroes(1),
        BitString::zeroes(8),
        BitString::zeroes(17),
        BitString::try_new(12, vec![0b1010_0101, 0b1100_0000]).unwrap(),
    ];
    for v in &cases {
        assert_eq!(v, &rt(v));
        let bytes = postcard::to_allocvec(&(v.len, v.bytes.clone())).unwrap();
        assert_eq!(encode_to_vec(v, &mut Budget::new(Limits::host())).unwrap(), bytes);
    }
    assert_eq!(BitString::zeroes(17).bytes.len(), 3);
}

#[test]
fn encode_core_roundtrip_bit_string_round_trip() {
    let v = BitString::try_new(12, vec![0b1010_0101, 0b1100_0000]).unwrap();
    assert_eq!(encode_to_vec(&v, &mut Budget::new(Limits::host())).unwrap(), postcard::to_allocvec(&(12u32, vec![0b1010_0101u8, 0b1100_0000])).unwrap());
    assert_eq!(v, rt(&v));
    assert!(BitString::try_new(17, vec![0, 0]).is_none());
}

#[test]
fn decode_core_roundtrip_file_id_round_trip() {
    for v in [FileId(0), FileId(1), FileId(0xFEFE), FileId::none()] {
        assert_eq!(v, rt(&v));
        assert_eq!(encode_to_vec(&v, &mut Budget::new(Limits::host())).unwrap(), postcard::to_allocvec(&v.0).unwrap());
    }
}

#[test]
fn encode_core_roundtrip_file_id_round_trip() {
    for v in [FileId(0), FileId(42), FileId(u16::MAX)] {
        assert_eq!(v, rt(&v));
    }
}

#[test]
fn decode_core_roundtrip_date_round_trip() {
    for v in [date(2026, 1, 1), date(2026, 12, 31), date(-44, 3, 15), date(0, 1, 1)] {
        assert_eq!(v, rt(&v));
        assert_eq!(encode_to_vec(&v, &mut Budget::new(Limits::host())).unwrap(), postcard::to_allocvec(&(v.year, v.month, v.day)).unwrap());
    }
}

#[test]
fn encode_core_roundtrip_date_round_trip() {
    for v in [date(1970, 1, 1), date(2026, 5, 6), date(-4713, 11, 24)] {
        assert_eq!(v, rt(&v));
    }
    assert!(Date::try_new(2024, 2, 29).is_some());
    assert!(Date::try_new(2023, 2, 29).is_none());
    assert!(Date::try_new(1900, 2, 29).is_none());
    assert!(Date::try_new(2000, 2, 29).is_some());
    assert!(Date::try_new(2026, 4, 31).is_none());
}

#[test]
fn decode_core_roundtrip_time_round_trip() {
    for v in [midnight(), time(12, 34, 56, 0), time(23, 59, 60, 999_999_999)] {
        assert_eq!(v, rt(&v));
        assert_eq!(
            encode_to_vec(&v, &mut Budget::new(Limits::host())).unwrap(),
            postcard::to_allocvec(&(v.hour, v.minute, v.second, v.nanosecond)).unwrap()
        );
    }
}

#[test]
fn encode_core_roundtrip_time_round_trip() {
    for v in [time(0, 0, 0, 0), time(12, 34, 56, 789_000_000), time(23, 59, 59, 999_999_999)] {
        assert_eq!(v, rt(&v));
    }
    assert!(Time::try_new(24, 0, 0, 0).is_none());
    assert!(Time::try_new(0, 0, 0, 1_000_000_000).is_none());
}

#[test]
fn decode_core_roundtrip_datetime_round_trip() {
    let v = DateTime { date: date(2026, 5, 6), time: time(7, 8, 9, 10) };
    assert_eq!(v, rt(&v));
}

#[test]
fn encode_core_roundtrip_datetime_round_trip() {
    let v = DateTime { date: date(2026, 5, 6), time: time(1, 2, 3, 456_789) };
    assert_eq!(v, rt(&v));
}

#[test]
fn decode_core_roundtrip_offset_round_trip() {
    let cases = [
        utc(),
        Offset::try_new(3_600).unwrap(),
        Offset::try_new(-18_000).unwrap(),
        Offset::try_new(86_399).unwrap(),
        Offset::try_new(-86_399).unwrap(),
    ];
    for v in &cases {
        assert_eq!(v, &rt(v));
    }
    assert!(Offset::try_new(86_400).is_none());
}

#[test]
fn encode_core_roundtrip_offset_round_trip() {
    for secs in [0, 3600, -3600, 19_800, -39_600] {
        let v = Offset::try_new(secs).unwrap();
        assert_eq!(v, rt(&v));
    }
}

#[test]
fn decode_core_roundtrip_timestamp_tz_round_trip() {
    let v = TimestampTz {
        datetime: DateTime { date: date(2026, 5, 6), time: time(7, 8, 9, 10) },
        offset: Offset::try_new(-18_000).unwrap(),
    };
    assert_eq!(v, rt(&v));
}

#[test]
fn encode_core_roundtrip_timestamp_tz_round_trip() {
    let v = TimestampTz {
        datetime: DateTime { date: date(2026, 5, 6), time: time(7, 8, 9, 10) },
        offset: Offset::try_new(-18_000).unwrap(),
    };
    assert_eq!(v, rt(&v));
}

#[test]
fn decode_core_roundtrip_interval_round_trip() {
    let cases = [
        Interval::zero(),
        Interval::new(13, 0, 0),
        Interval::new(0, 7, 0),
        Interval::new(-1, -2, -3),
        Interval::new(0, 0, 1_234_567_890_123),
    ];
    for v in &cases {
        assert_eq!(v, &rt(v));
        assert_eq!(encode_to_vec(v, &mut Budget::new(Limits::host())).unwrap(), postcard::to_allocvec(&(v.months, v.days, v.nanoseconds)).unwrap());
    }
}

#[test]
fn encode_core_roundtrip_interval_round_trip() {
    for v in [Interval::new(0, 0, 0), Interval::new(13, -7, 1_234_567_890), Interval::new(-100, 365, -42)] {
        assert_eq!(v, rt(&v));
    }
}

#[test]
fn decode_core_roundtrip_decimal_round_trip() {
    let cases = [
        Decimal::try_new(0, 0).unwrap(),
        Decimal::try_new(1, 0).unwrap(),
        Decimal::try_new(-1, 0).unwrap(),
        Decimal::try_new(12_345, 2).unwrap(),
        Decimal::try_new(i128::MAX, 38).unwrap(),
        Decimal::try_new(i128::MIN, 0).unwrap(),
    ];
    for v in &cases {
        assert_eq!(v, &rt(v));
        assert_eq!(encode_to_vec(v, &mut Budget::new(Limits::host())).unwrap(), postcard::to_allocvec(&(v.unscaled, v.scale)).unwrap());
    }
}

#[test]
fn encode_core_roundtrip_decimal_round_trip() {
    let cases = [
        Decimal::try_new(0, 0).unwrap(),
        Decimal::try_new(12345, 2).unwrap(),
        Decimal::try_new(-12345, 2).unwrap(),
        Decimal::try_new(i128::MAX, 0).unwrap(),
        Decimal::try_new(i128::MIN, 0).unwrap(),
        Decimal::try_new(1, MAX_SCALE).unwrap(),
    ];
    for v in &cases {
        assert_eq!(v, &rt(v));
    }
}

#[test]
fn decode_core_roundtrip_point_round_trip() {
    for v in [pt(0.0, 0.0), pt(1.5, -2.25), pt(f64::MAX, f64::MIN)] {
        assert_eq!(v, rt(&v));
        let x = f64::from_le_bytes(v.x);
        let y = f64::from_le_bytes(v.y);
        assert_eq!(encode_to_vec(&v, &mut Budget::new(Limits::host())).unwrap(), postcard::to_allocvec(&(x, y)).unwrap());
    }
    assert!(Point::try_new(f(f64::NAN), f(0.0)).is_none());
    assert!(Point::try_new(f(0.0), f(f64::INFINITY)).is_none());
}

#[test]
fn encode_core_roundtrip_point_round_trip() {
    for v in [pt(0.0, 0.0), pt(-3.5, 4.5), pt(f64::MIN, f64::MAX)] {
        assert_eq!(v, rt(&v));
    }
}

#[test]
fn decode_core_roundtrip_line_round_trip() {
    let v = Line::try_new(f(1.0), f(2.0), f(3.0)).unwrap();
    assert_eq!(v, rt(&v));
}

#[test]
fn encode_core_roundtrip_line_round_trip() {
    let v = Line::try_new(f(1.0), f(-2.0), f(3.0)).unwrap();
    assert_eq!(v, rt(&v));
    assert!(Line::try_new(f(1.0), f(f64::NEG_INFINITY), f(3.0)).is_none());
}

#[test]
fn decode_core_roundtrip_segment_round_trip() {
    let v = Segment { start: pt(0.0, 0.0), end: pt(1.0, 1.0) };
    assert_eq!(v, rt(&v));
}

#[test]
fn encode_core_roundtrip_segment_round_trip() {
    let v = Segment { start: pt(0.0, 1.0), end: pt(2.0, 3.0) };
    assert_eq!(v, rt(&v));
}

#[test]
fn decode_core_roundtrip_rect_round_trip() {
    let v = Rect { low: pt(0.0, 0.0), high: pt(10.0, 20.0) };
    assert_eq!(v, rt(&v));
}

#[test]
fn encode_core_roundtrip_rect_round_trip() {
    let v = Rect { low: pt(-1.0, -1.0), high: pt(1.0, 1.0) };
    assert_eq!(v, rt(&v));
}

#[test]
fn decode_core_roundtrip_circle_round_trip() {
    let v = Circle::try_new(pt(5.0, 5.0), f(2.5)).unwrap();
    assert_eq!(v, rt(&v));
    assert!(Circle::try_new(pt(5.0, 5.0), f(-1.0)).is_none());
    assert!(Circle::try_new(pt(5.0, 5.0), f(-0.0)).is_some());
}

#[test]
fn encode_core_roundtrip_circle_round_trip() {
    let v = Circle::try_new(pt(0.0, 0.0), f(5.0)).unwrap();
    assert_eq!(v, rt(&v));
}

#[test]
fn invalid_date_is_rejected() {
    let bytes = postcard::to_allocvec(&(2026_i32, 13_u8, 1_u8)).unwrap();
    let mut reader = Reader::new(&bytes);
    let r = Date::decode(&mut reader, &mut Budget::new(Limits::host()));
    assert!(matches!(r, Err(DecodeError::Custom("Date: invalid calendar field"))));
}

#[test]
fn invalid_decimal_scale_is_rejected() {
    let bytes = postcard::to_allocvec(&(0_i128, 100_u32)).unwrap();
    let mut reader = Reader::new(&bytes);
    let r = Decimal::decode(&mut reader, &mut Budget::new(Limits::host()));
    assert!(matches!(r, Err(DecodeError::Custom("Decimal: scale exceeds MAX_SCALE"))));
}

#[test]
fn bit_string_byte_count_mismatch_is_rejected() {
    let bytes = postcard::to_allocvec(&(17_u32, vec![0u8, 0u8])).unwrap();
    let mut reader = Reader::new(&bytes);
    let r = BitString::decode(&mut reader, &mut Budget::new(Limits::host()));
    assert!(r.is_err());
}

// ── Values and literals ──────────────────────────────────────────────────

fn sample_value() -> Value {
    Value::Struct(vec![
        ValueEntry { key: "id".to_string(), value: Value::Int64(-7) },
        ValueEntry { key: "name".to_string(), value: Value::String("ada".to_string()) },
        ValueEntry {
            key: "tags".to_string(),
            value: Value::Array(vec![Value::Bool(true), Value::Null, Value::UInt128(u128::MAX)]),
        },
        ValueEntry {
            key: "span".to_string(),
            value: Value::Range(Box::new(ValueRange {
                start: ValueBound::Included(Box::new(Value::Date(date(2026, 1, 1)))),
                end: ValueBound::Unbounded,
            })),
        },
        ValueEntry { key: "f".to_string(), value: Value::Float64(f(1.5)) },
        ValueEntry {
            key: "ext".to_string(),
            value: Value::Extension(ExtensionPayload { name: "vec3".to_string(), data: Blob(vec![1, 2, 3]) }),
        },
        ValueEntry { key: "ip".to_string(), value: Value::Inet(IpAddr::V4([10, 0, 0, 1])) },
        ValueEntry {
            key: "shape".to_string(),
            value: Value::Polygon(Polygon { points: vec![pt(0.0, 0.0), pt(1.0, 0.0), pt(0.0, 1.0)] }),
        },
        ValueEntry {
            key: "path".to_string(),
            value: Value::Path(Path { closed: true, points: vec![pt(0.0, 0.0)] }),
        },
    ])
}

#[test]
fn value_round_trips_through_every_family() {
    let v = sample_value();
    assert_eq!(rt(&v), v);
    let leaves = vec![
        Value::Json("{}".to_string()),
        Value::Xml("<a/>".to_string()),
        Value::Enum("red".to_string()),
        Value::Bytes(Blob(vec![0, 255])),
        Value::Uuid([7; 16]),
        Value::BitString(BitString::zeroes(9)),
        Value::Int8(-1),
        Value::Int16(-300),
        Value::Int32(i32::MIN),
        Value::Int128(i128::MIN),
        Value::UInt8(255),
        Value::UInt16(65535),
        Value::UInt32(u32::MAX),
        Value::UInt64(u64::MAX),
        Value::Float32(1.25f32.to_le_bytes()),
        Value::SetOf(vec![Value::Int8(1)]),
        Value::Tuple(vec![]),
        Value::MapOf(vec![ValueEntry { key: "k".to_string(), value: Value::Null }]),
        Value::Decimal(Decimal::try_new(12_345, 2).unwrap()),
        Value::MacAddr(dol::network::MacAddr::Eui48([1, 2, 3, 4, 5, 6])),
        Value::Time(time(1, 2, 3, 4)),
        Value::DateTime(DateTime { date: date(2000, 2, 29), time: midnight() }),
        Value::TimestampTz(TimestampTz { datetime: DateTime { date: date(2000, 2, 29), time: midnight() }, offset: utc() }),
        Value::Interval(Interval::new(1, 2, 3)),
        Value::Point(pt(1.0, 2.0)),
        Value::Line(Line::try_new(f(1.0), f(2.0), f(3.0)).unwrap()),
        Value::Segment(Segment { start: pt(0.0, 0.0), end: pt(1.0, 1.0) }),
        Value::Rect(Rect { low: pt(0.0, 0.0), high: pt(1.0, 1.0) }),
        Value::Circle(Circle::try_new(pt(0.0, 0.0), f(1.0)).unwrap()),
        Value::Range(Box::new(ValueRange {
            start: ValueBound::Excluded(Box::new(Value::Int32(1))),
            end: ValueBound::Included(Box::new(Value::Int32(9))),
        })),
    ];
    for v in leaves {
        assert_eq!(rt(&v), v);
    }
}

#[test]
fn value_wire_layout_uses_stable_discriminants() {
    assert_eq!(encode_to_vec(&Value::Null, &mut Budget::new(Limits::host())).unwrap(), vec![0]);
    assert_eq!(encode_to_vec(&Value::Bool(true), &mut Budget::new(Limits::host())).unwrap(), vec![1, 1]);
    assert_eq!(encode_to_vec(&Value::String("hi".to_string()), &mut Budget::new(Limits::host())).unwrap(), vec![2, 2, b'h', b'i']);
    assert_eq!(encode_to_vec(&Value::Int32(-2), &mut Budget::new(Limits::host())).unwrap(), vec![11, 3]);
    assert_eq!(encode_to_vec(&Value::Float32(1.0f32.to_le_bytes()), &mut Budget::new(Limits::host())).unwrap(), vec![19, 0, 0, 0x80, 0x3F]);
    assert_eq!(
        encode_to_vec(&Value::Array(vec![Value::UInt8(5), Value::Null]), &mut Budget::new(Limits::host())).unwrap(),
        vec![21, 2, 14, 5, 0]
    );
    assert_eq!(
        encode_to_vec(&Value::Range(Box::new(ValueRange {
            start: ValueBound::Unbounded,
            end: ValueBound::Excluded(Box::new(Value::UInt8(3))),
        })), &mut Budget::new(Limits::host()))
        .unwrap(),
        vec![26, 2, 1, 14, 3]
    );
    assert_eq!(encode_to_vec(&Value::Date(date(2026, 5, 6)), &mut Budget::new(Limits::host())).unwrap(), vec![50, 0xD4, 0x1F, 5, 6]);
}

#[test]
fn value_rejects_unknown_discriminants_and_bounds() {
    for tag in [28u8, 29, 31, 42, 55, 67, 127] {
        let buf = [tag];
        let mut r = Reader::new(&buf);
        assert!(matches!(
            Value::decode(&mut r, &mut Budget::new(Limits::host())),
            Err(DecodeError::InvalidVariant { kind: "Value", seen }) if seen == tag as u32
        ));
    }
    let mut r = Reader::new(&[26, 3]);
    assert!(matches!(
        Value::decode(&mut r, &mut Budget::new(Limits::host())),
        Err(DecodeError::InvalidVariant { kind: "Bound", seen: 3 })
    ));
    let mut r = Reader::new(&[50, 0xD4, 0x1F, 2, 30]);
    assert!(matches!(
        Value::decode(&mut r, &mut Budget::new(Limits::host())),
        Err(DecodeError::Custom("Date: invalid calendar field"))
    ));
}

#[test]
fn value_truncations_never_decode() {
    let bytes = encode_to_vec(&sample_value(), &mut Budget::new(Limits::host())).unwrap();
    for cut in 0..bytes.len() {
        let mut r = Reader::new(&bytes[..cut]);
        assert!(Value::decode(&mut r, &mut Budget::new(Limits::host())).is_err());
    }
}

#[test]
fn value_nesting_is_bounded_by_the_budget() {
    let mut v = Value::Null;
    for _ in 0..40 {
        v = Value::Array(vec![v]);
    }
    let bytes = encode_to_vec(&v, &mut Budget::new(Limits::host())).unwrap();
    let mut r = Reader::new(&bytes);
    assert!(matches!(
        Value::decode(&mut r, &mut Budget::new(Limits::fuzz())),
        Err(DecodeError::Budget(BudgetError::Depth))
    ));
    let mut r = Reader::new(&bytes);
    assert_eq!(Value::decode(&mut r, &mut Budget::new(Limits::host())).unwrap(), v);
    let hostile = vec![21u8, 1].repeat(500_000);
    let mut r = Reader::new(&hostile);
    assert!(matches!(
        Value::decode(&mut r, &mut Budget::new(Limits::host())),
        Err(DecodeError::Budget(BudgetError::Depth))
    ));
}

#[test]
fn literal_shares_the_value_wire_form() {
    let lit = Literal::MapOf(vec![
        LiteralEntry { key: "n".to_string(), value: Literal::Int128(-5) },
        LiteralEntry {
            key: "r".to_string(),
            value: Literal::Range(Box::new(LiteralRange {
                start: LiteralBound::Included(Box::new(Literal::UInt8(1))),
                end: LiteralBound::Unbounded,
            })),
        },
    ]);
    let val = Value::MapOf(vec![
        ValueEntry { key: "n".to_string(), value: Value::Int128(-5) },
        ValueEntry {
            key: "r".to_string(),
            value: Value::Range(Box::new(ValueRange {
                start: ValueBound::Included(Box::new(Value::UInt8(1))),
                end: ValueBound::Unbounded,
            })),
        },
    ]);
    let bytes = encode_to_vec(&lit, &mut Budget::new(Limits::host())).unwrap();
    assert_eq!(bytes, encode_to_vec(&val, &mut Budget::new(Limits::host())).unwrap());
    assert_eq!(rt(&lit), lit);
    let mut r = Reader::new(&bytes);
    assert_eq!(Value::decode(&mut r, &mut Budget::new(Limits::host())).unwrap(), val);
}

#[test]
fn literal_wide_integers_need_no_extra_level() {
    let bytes = encode_to_vec(&Literal::Int128(3), &mut Budget::new(Limits::host())).unwrap();
    let mut r = Reader::new(&bytes);
    assert_eq!(Literal::decode(&mut r, &mut Budget::new(Limits { max_depth: 0 })).unwrap(), Literal::Int128(3));
    let mut r = Reader::new(&bytes);
    assert!(matches!(
        Value::decode(&mut r, &mut Budget::new(Limits { max_depth: 0 })),
        Err(DecodeError::Budget(BudgetError::Depth))
    ));
}
