use dol::compound::EncodeWrap;
use dol::core_types::{BitString, FileId, Interval, Span, SpanTable};
use dol::data_type::{DataType, StructField};
use dol::decoder::{Budget, BudgetError, Decode, DecodeError, Limits, Reader};
use dol::digits::decimal_string;
use dol::codec::Codec;
use dol::encoder::{encode_to_vec, Encode, EncodeError, Writer};
use dol::entity::{Entity, Field};
use dol::hash::{hash_bytes, hex};
use dol::network::{IpAddr, MacAddr};
use dol::pipeline::{fnv1a_32, EXTENSION_NAME};
use dol::schema::{
    CatalogId, ComputedKind, EntityConstraint, RefAction, RelationRef, SchemaId, SchemaRef,
    TypeBody,
};
use dol::stream::{IOT_SAMPLE_NAME, TIMESERIES_NAME, WINDOW_NAME};

fn decode_all<T: Decode>(bytes: &[u8]) -> T {
    let mut r = Reader::new(bytes);
    let v = T::decode(&mut r, &mut Budget::new(Limits::host())).unwrap();
    assert!(r.is_exhausted());
    v
}

fn rt<T: Codec>(v: &T) -> T {
    let bytes = encode_to_vec(v, &mut Budget::new(Limits::host())).unwrap();
    decode_all(&bytes)
}

// ── Decoder ─────────────────────────────────────────────────────────

#[test]
fn primitives_round_trip_postcard_byte_layout() {
    let bytes = [0x05, b'h', b'e', b'l', b'l', b'o'];
    let mut r = Reader::new(&bytes);
    let s = String::decode(&mut r, &mut Budget::new(Limits::fuzz())).unwrap();
    assert_eq!(s, "hello");
    assert!(r.is_exhausted());
}

#[test]
fn option_some_some() {
    let bytes = [0x01, 0x2a];
    let mut r = Reader::new(&bytes);
    let v: Option<u32> = Decode::decode(&mut r, &mut Budget::new(Limits::fuzz())).unwrap();
    assert_eq!(v, Some(42));
}

#[test]
fn option_none() {
    let bytes = [0x00];
    let mut r = Reader::new(&bytes);
    let v: Option<u32> = Decode::decode(&mut r, &mut Budget::new(Limits::fuzz())).unwrap();
    assert_eq!(v, None);
}

#[test]
fn option_invalid_discriminant() {
    let bytes = [0x05];
    let mut r = Reader::new(&bytes);
    let res: Result<Option<u32>, _> = Decode::decode(&mut r, &mut Budget::new(Limits::fuzz()));
    assert!(matches!(res, Err(DecodeError::InvalidVariant { .. })));
}

#[test]
fn vec_bounded() {
    let bytes = [0x03, 0x01, 0x02, 0x03];
    let mut r = Reader::new(&bytes);
    let v: Vec<u32> = Decode::decode(&mut r, &mut Budget::new(Limits::fuzz())).unwrap();
    assert_eq!(v, vec![1u32, 2, 3]);
}

#[test]
fn signed_zigzag_round_trips() {
    let bytes = [0x00];
    let mut r = Reader::new(&bytes);
    let n: i32 = Decode::decode(&mut r, &mut Budget::new(Limits::fuzz())).unwrap();
    assert_eq!(n, 0);

    let bytes = [0x01];
    let mut r = Reader::new(&bytes);
    let n: i32 = Decode::decode(&mut r, &mut Budget::new(Limits::fuzz())).unwrap();
    assert_eq!(n, -1);

    let bytes = [0x02];
    let mut r = Reader::new(&bytes);
    let n: i32 = Decode::decode(&mut r, &mut Budget::new(Limits::fuzz())).unwrap();
    assert_eq!(n, 1);
}

#[test]
fn truncated_input_eofs_cleanly() {
    let bytes = [0x05, b'h', b'i'];
    let mut r = Reader::new(&bytes);
    let res: Result<String, _> = Decode::decode(&mut r, &mut Budget::new(Limits::fuzz()));
    assert!(matches!(res, Err(DecodeError::Eof { .. })));
}

#[test]
fn varint_overflow_rejected() {
    let bytes = [0xFF, 0xFF, 0xFF, 0xFF, 0xFF, 0xFF];
    let mut r = Reader::new(&bytes);
    let res: Result<u32, _> = Decode::decode(&mut r, &mut Budget::new(Limits::fuzz()));
    assert!(matches!(res, Err(DecodeError::LengthOverflow)));
}

#[test]
fn varint_value_past_width_rejected() {
    let mut r = Reader::new(&[0xFF, 0xFF, 0xFF, 0xFF, 0x7F]);
    assert!(matches!(r.read_varint_u32(), Err(DecodeError::LengthOverflow)));
    let mut r = Reader::new(&[0xFF, 0xFF, 0xFF, 0xFF, 0x10]);
    assert!(matches!(r.read_varint_u32(), Err(DecodeError::LengthOverflow)));
    let mut bytes = vec![0xFFu8; 9];
    bytes.push(0x02);
    let mut r = Reader::new(&bytes);
    assert!(matches!(r.read_varint_u64(), Err(DecodeError::LengthOverflow)));
    bytes[9] = 0x01;
    let mut r = Reader::new(&bytes);
    assert_eq!(r.read_varint_u64().unwrap(), u64::MAX);
    let mut bytes = vec![0xFFu8; 18];
    bytes.push(0x04);
    let mut r = Reader::new(&bytes);
    assert!(matches!(r.read_varint_u128(), Err(DecodeError::LengthOverflow)));
    bytes[18] = 0x03;
    let mut r = Reader::new(&bytes);
    assert_eq!(r.read_varint_u128().unwrap(), u128::MAX);
}

#[test]
fn writer_counts_only_appended_bytes() {
    let mut w = Writer::new(vec![0xAA, 0xAA, 0xAA]);
    w.write_u8(0x01).unwrap();
    assert_eq!(w.bytes_written(), 1);
    assert_eq!(w.into_bytes(), vec![0xAA, 0xAA, 0xAA, 0x01]);
}

#[test]
fn invalid_utf8_rejected() {
    let bytes = [0x02, 0xC3, 0x28];
    let mut r = Reader::new(&bytes);
    let res: Result<String, _> = Decode::decode(&mut r, &mut Budget::new(Limits::fuzz()));
    assert!(matches!(res, Err(DecodeError::Utf8)));
}

#[test]
fn compound_decodes_fields_in_declaration_order() {
    let bytes = [
        0x05, b'h', b'e', b'l', b'l', b'o', // label = "hello"
        0x01, 0x2a, // count = Some(42)
        0x03, 0x00, 0x01, 0x00, // flags = [false, true, false]
    ];
    let mut r = Reader::new(&bytes);
    let label = String::decode(&mut r, &mut Budget::new(Limits::fuzz())).unwrap();
    let count = Option::<u32>::decode(&mut r, &mut Budget::new(Limits::fuzz())).unwrap();
    let flags = Vec::<bool>::decode(&mut r, &mut Budget::new(Limits::fuzz())).unwrap();
    assert_eq!(label, "hello");
    assert_eq!(count, Some(42));
    assert_eq!(flags, vec![false, true, false]);
    assert!(r.is_exhausted());
}

#[test]
fn reader_reports_eof_with_sizes() {
    let bytes = [1u8, 2, 3];
    let mut r = Reader::new(&bytes);
    assert_eq!(r.remaining(), 3);
    assert!(matches!(r.read_bytes(5), Err(DecodeError::Eof { needed: 5, had: 3 })));
    assert_eq!(r.remaining(), 3);
    assert_eq!(r.read_bytes(2).unwrap(), &[1, 2]);
    assert_eq!(r.remaining(), 1);
    assert_eq!(r.read_u8().unwrap(), 3);
    assert!(r.is_exhausted());
    assert!(matches!(r.read_u8(), Err(DecodeError::Eof { needed: 1, had: 0 })));
}

#[test]
fn reader_reads_arrays() {
    let bytes = [9u8, 8, 7, 6, 5];
    let mut r = Reader::new(&bytes);
    let a: [u8; 4] = r.read_array().unwrap();
    assert_eq!(a, [9, 8, 7, 6]);
    assert!(r.read_array::<2>().is_err());
    assert_eq!(r.remaining(), 1);
}

#[test]
fn reader_seq_bytes_respects_cap() {
    let bytes = [3u8, b'a', b'b', b'c'];
    let mut r = Reader::new(&bytes);
    assert!(matches!(r.read_seq_bytes(2), Err(DecodeError::LengthOverflow)));
    let mut r = Reader::new(&bytes);
    assert_eq!(r.read_seq_bytes(3).unwrap(), b"abc");
    assert!(r.is_exhausted());
}

#[test]
fn varints_decode_multi_byte_values() {
    let mut r = Reader::new(&[0xAC, 0x02]);
    assert_eq!(r.read_varint_u32().unwrap(), 300);
    let mut r = Reader::new(&[0xFF, 0xFF, 0xFF, 0xFF, 0x0F]);
    assert_eq!(r.read_varint_u32().unwrap(), u32::MAX);
    let mut r = Reader::new(&[0x80, 0x80]);
    assert!(matches!(r.read_varint_u64(), Err(DecodeError::Eof { .. })));
    let bytes = [0xFFu8; 11];
    let mut r = Reader::new(&bytes);
    assert!(matches!(r.read_varint_u64(), Err(DecodeError::LengthOverflow)));
    let mut r = Reader::new(&[0x80, 0x01]);
    assert_eq!(r.read_varint_u128().unwrap(), 128);
}

#[test]
fn narrow_integers_reject_wide_values() {
    let mut r = Reader::new(&[0x80, 0x80, 0x04]); // 65536
    let res: Result<u16, _> = Decode::decode(&mut r, &mut Budget::new(Limits::fuzz()));
    assert!(matches!(res, Err(DecodeError::LengthOverflow)));
}

#[test]
fn bool_rejects_other_bytes() {
    let mut r = Reader::new(&[2]);
    let res: Result<bool, _> = Decode::decode(&mut r, &mut Budget::new(Limits::fuzz()));
    assert!(matches!(res, Err(DecodeError::InvalidVariant { kind: "bool", seen: 2 })));
}

#[test]
fn vec_rejects_counts_over_cap() {
    let mut r = Reader::new(&[0x81, 0x80, 0x40]); // 1 << 20 + 1
    let res: Result<Vec<u8>, _> = Decode::decode(&mut r, &mut Budget::new(Limits::fuzz()));
    assert!(matches!(res, Err(DecodeError::LengthOverflow)));
}

// ── Encoder ─────────────────────────────────────────────────────────

#[test]
fn primitives_emit_postcard_byte_layout() {
    let bytes = encode_to_vec(&String::from("hello"), &mut Budget::new(Limits::host())).unwrap();
    assert_eq!(&bytes, &[0x05, b'h', b'e', b'l', b'l', b'o']);
}

#[test]
fn option_some_emits_tag_and_payload() {
    let bytes = encode_to_vec(&Some(42u32), &mut Budget::new(Limits::host())).unwrap();
    assert_eq!(&bytes, &[0x01, 0x2a]);
}

#[test]
fn option_none_emits_zero() {
    let none: Option<u32> = None;
    let bytes = encode_to_vec(&none, &mut Budget::new(Limits::host())).unwrap();
    assert_eq!(&bytes, &[0x00]);
}

#[test]
fn vec_emits_length_prefix() {
    let bytes = encode_to_vec(&vec![1u32, 2, 3], &mut Budget::new(Limits::host())).unwrap();
    assert_eq!(&bytes, &[0x03, 0x01, 0x02, 0x03]);
}

#[test]
fn signed_zigzag_matches_decoder() {
    assert_eq!(encode_to_vec(&0i32, &mut Budget::new(Limits::host())).unwrap(), vec![0x00]);
    assert_eq!(encode_to_vec(&-1i32, &mut Budget::new(Limits::host())).unwrap(), vec![0x01]);
    assert_eq!(encode_to_vec(&1i32, &mut Budget::new(Limits::host())).unwrap(), vec![0x02]);
    assert_eq!(encode_to_vec(&-2i32, &mut Budget::new(Limits::host())).unwrap(), vec![0x03]);
}

#[test]
fn round_trip_decode_wrap_via_encode_wrap() {
    let v = EncodeWrap {
        label: "hi".into(),
        count: Some(7),
        flags: vec![true, false, true],
    };
    let bytes = encode_to_vec(&v, &mut Budget::new(Limits::host())).unwrap();
    let mut r = Reader::new(&bytes);
    let dec = EncodeWrap::decode(&mut r, &mut Budget::new(Limits::fuzz())).unwrap();
    assert_eq!(dec.label, v.label);
    assert_eq!(dec.count, v.count);
    assert_eq!(dec.flags, v.flags);
    assert!(r.is_exhausted());
}

#[test]
fn writer_appends_to_given_buffer() {
    let mut w = Writer::new(vec![0xAA]);
    w.write_u8(1).unwrap();
    w.write_array(&[2, 3]).unwrap();
    w.write_seq_bytes(b"xy").unwrap();
    w.write_varint_u64(300).unwrap();
    w.write_varint_u128(1).unwrap();
    assert_eq!(w.bytes_written(), 9);
    assert_eq!(w.into_bytes(), vec![0xAA, 1, 2, 3, 2, b'x', b'y', 0xAC, 0x02, 1]);
}

#[test]
fn encoding_matches_postcard() {
    assert_eq!(encode_to_vec(&String::from("héllo"), &mut Budget::new(Limits::host())).unwrap(), postcard::to_allocvec("héllo").unwrap());
    assert_eq!(encode_to_vec(&Some(300u32), &mut Budget::new(Limits::host())).unwrap(), postcard::to_allocvec(&Some(300u32)).unwrap());
    assert_eq!(encode_to_vec(&vec![7u16, 300], &mut Budget::new(Limits::host())).unwrap(), postcard::to_allocvec(&vec![7u16, 300]).unwrap());
    assert_eq!(encode_to_vec(&i64::MIN, &mut Budget::new(Limits::host())).unwrap(), postcard::to_allocvec(&i64::MIN).unwrap());
    assert_eq!(encode_to_vec(&u64::MAX, &mut Budget::new(Limits::host())).unwrap(), postcard::to_allocvec(&u64::MAX).unwrap());
    assert_eq!(encode_to_vec(&(-5i16, true), &mut Budget::new(Limits::host())).unwrap(), postcard::to_allocvec(&(-5i16, true)).unwrap());
    assert_eq!(encode_to_vec(&u128::MAX, &mut Budget::new(Limits::host())).unwrap(), postcard::to_allocvec(&u128::MAX).unwrap());
    assert_eq!(encode_to_vec(&i128::MIN, &mut Budget::new(Limits::host())).unwrap(), postcard::to_allocvec(&i128::MIN).unwrap());
}

#[test]
fn primitives_round_trip() {
    assert_eq!(rt(&-129i16), -129);
    assert_eq!(rt(&i32::MIN), i32::MIN);
    assert_eq!(rt(&i64::MAX), i64::MAX);
    assert_eq!(rt(&isize::MIN), isize::MIN);
    assert_eq!(rt(&usize::MAX), usize::MAX);
    assert_eq!(rt(&-1i8), -1);
    assert_eq!(rt(&255u8), 255);
    assert_eq!(rt(&i128::MIN), i128::MIN);
    assert_eq!(rt(&(String::from("k"), vec![Some(1u64), None])), (String::from("k"), vec![Some(1u64), None]));
}

// ── DataType ────────────────────────────────────────────────────────

#[test]
fn data_type_discriminants() {
    assert_eq!(encode_to_vec(&DataType::Null, &mut Budget::new(Limits::host())).unwrap(), vec![0]);
    assert_eq!(encode_to_vec(&DataType::Float64, &mut Budget::new(Limits::host())).unwrap(), vec![13]);
    assert_eq!(encode_to_vec(&DataType::unbounded_string(), &mut Budget::new(Limits::host())).unwrap(), vec![14, 0, 0]);
    assert_eq!(
        encode_to_vec(&DataType::String { max_len: Some(255), fixed: true }, &mut Budget::new(Limits::host())).unwrap(),
        vec![14, 1, 0xFF, 0x01, 1]
    );
    assert_eq!(encode_to_vec(&DataType::Array(Box::new(DataType::Bool)), &mut Budget::new(Limits::host())).unwrap(), vec![20, 1]);
    assert_eq!(
        encode_to_vec(&DataType::MapOf { value: Box::new(DataType::Json) }, &mut Budget::new(Limits::host())).unwrap(),
        vec![22, 15]
    );
    assert_eq!(
        encode_to_vec(&DataType::Tuple(vec![DataType::Int32, DataType::Uuid]), &mut Budget::new(Limits::host())).unwrap(),
        vec![24, 2, 4, 18]
    );
    assert_eq!(
        encode_to_vec(&DataType::Struct(vec![StructField {
            name: "a".into(),
            data_type: DataType::Int8,
            nullable: true,
        }]), &mut Budget::new(Limits::host()))
        .unwrap(),
        vec![25, 1, 1, b'a', 2, 1]
    );
    assert_eq!(encode_to_vec(&DataType::Enum(vec!["x".into()]), &mut Budget::new(Limits::host())).unwrap(), vec![26, 1, 1, b'x']);
    assert_eq!(encode_to_vec(&DataType::TypeRef("t".into()), &mut Budget::new(Limits::host())).unwrap(), vec![27, 1, b't']);
    assert_eq!(
        encode_to_vec(&DataType::Extension { name: "e".into(), params: vec![DataType::Bool] }, &mut Budget::new(Limits::host())).unwrap(),
        vec![28, 1, b'e', 1, 1]
    );
    assert_eq!(
        encode_to_vec(&DataType::Decimal { precision: Some(10), scale: None }, &mut Budget::new(Limits::host())).unwrap(),
        vec![30, 1, 10, 0]
    );
    assert_eq!(encode_to_vec(&DataType::Time { precision: 6 }, &mut Budget::new(Limits::host())).unwrap(), vec![41, 6]);
    assert_eq!(encode_to_vec(&DataType::IpNetwork { prefix_len: 24 }, &mut Budget::new(Limits::host())).unwrap(), vec![51, 24]);
    assert_eq!(encode_to_vec(&DataType::Polygon, &mut Budget::new(Limits::host())).unwrap(), vec![66]);
}

#[test]
fn data_type_round_trips() {
    let all = vec![
        DataType::Null,
        DataType::Bool,
        DataType::Int128,
        DataType::UInt64,
        DataType::Float32,
        DataType::Bytes { max_len: Some(16), fixed: true },
        DataType::BitString { max_len: None, fixed: false },
        DataType::Xml,
        DataType::SetOf(Box::new(DataType::Date)),
        DataType::Range(Box::new(DataType::DateTime { precision: 3 })),
        DataType::Struct(vec![
            StructField { name: "x".into(), data_type: DataType::Point, nullable: false },
            StructField {
                name: "tags".into(),
                data_type: DataType::Array(Box::new(DataType::unbounded_string())),
                nullable: true,
            },
        ]),
        DataType::Enum(vec!["red".into(), "green".into()]),
        DataType::Extension {
            name: "geo.h3".into(),
            params: vec![DataType::Tuple(vec![DataType::OffsetDateTime { precision: 9 }, DataType::MacAddr])],
        },
        DataType::Interval,
        DataType::IpAddr,
        DataType::Line,
        DataType::LineSegment,
        DataType::Rect,
        DataType::Circle,
        DataType::Path,
    ];
    for t in &all {
        assert_eq!(&rt(t), t);
    }
    assert_eq!(rt(&all), all);
}

#[test]
fn data_type_deep_nesting_round_trips() {
    let mut t = DataType::Uuid;
    for _ in 0..200 {
        t = DataType::Array(Box::new(t));
    }
    assert_eq!(rt(&t), t);
}

#[test]
fn budget_exhaustion_surfaces_as_decode_error() {
    let mut budget = Budget::new(Limits { max_depth: 1, ..Limits::fuzz() });
    let bytes = [0x01, 0x01, 0x01, 0x01];
    let mut r = Reader::new(&bytes);
    let res: Result<Vec<Vec<Vec<u8>>>, _> = Decode::decode(&mut r, &mut budget);
    assert!(matches!(res, Err(DecodeError::Budget(_))));
    assert_eq!(budget.remaining_depth(), 1);
}

#[test]
fn data_type_nesting_past_budget_is_refused() {
    let mut t = DataType::Uuid;
    for _ in 0..100 {
        t = DataType::Array(Box::new(t));
    }
    let bytes = encode_to_vec(&t, &mut Budget::new(Limits::host())).unwrap();
    let mut r = Reader::new(&bytes);
    let res = DataType::decode(&mut r, &mut Budget::new(Limits::fuzz()));
    assert!(matches!(res, Err(DecodeError::Budget(BudgetError::Depth))));
    let mut r = Reader::new(&bytes);
    assert_eq!(DataType::decode(&mut r, &mut Budget::new(Limits::host())).unwrap(), t);
    let hostile = vec![20u8; 1_000_000];
    let mut r = Reader::new(&hostile);
    let res = DataType::decode(&mut r, &mut Budget::new(Limits::host()));
    assert!(matches!(res, Err(DecodeError::Budget(BudgetError::Depth))));
}

#[test]
fn budget_enter_fails_only_when_exhausted() {
    let mut b = Budget::new(Limits { max_depth: 1 });
    assert_eq!(b.remaining_depth(), 1);
    assert!(b.enter().is_ok());
    assert_eq!(b.remaining_depth(), 0);
    assert!(matches!(b.enter(), Err(DecodeError::Budget(BudgetError::Depth))));
    assert_eq!(DecodeError::Budget(BudgetError::Depth).message(), "dol-wire decode: budget exhausted: nesting too deep");
}

#[test]
fn data_type_rejects_unknown_discriminants() {
    for tag in [29u8, 31, 45, 53, 67, 127] {
        let bytes = [tag];
        let mut r = Reader::new(&bytes);
        let res = DataType::decode(&mut r, &mut Budget::new(Limits::fuzz()));
        assert!(matches!(
            res,
            Err(DecodeError::InvalidVariant { kind: "DataType", seen }) if seen == tag as u32
        ));
    }
}

#[test]
fn data_type_truncated_payload_fails() {
    let bytes = encode_to_vec(&DataType::Tuple(vec![DataType::Int8, DataType::Int16]), &mut Budget::new(Limits::host())).unwrap();
    for cut in 0..bytes.len() {
        let mut r = Reader::new(&bytes[..cut]);
        assert!(DataType::decode(&mut r, &mut Budget::new(Limits::fuzz())).is_err());
    }
}

#[test]
fn data_type_invalid_inner_bool() {
    let mut r = Reader::new(&[14, 0, 7]);
    assert!(matches!(
        DataType::decode(&mut r, &mut Budget::new(Limits::fuzz())),
        Err(DecodeError::InvalidVariant { kind: "bool", seen: 7 })
    ));
}

// ── Schema types ────────────────────────────────────────────────────

#[test]
fn ref_action_discriminants() {
    assert_eq!(encode_to_vec(&RefAction::Forbid, &mut Budget::new(Limits::host())).unwrap(), vec![0]);
    assert_eq!(encode_to_vec(&RefAction::UseDefault, &mut Budget::new(Limits::host())).unwrap(), vec![4]);
    assert_eq!(decode_all::<RefAction>(&[2]), RefAction::Detach);
    let mut r = Reader::new(&[5]);
    assert!(matches!(
        RefAction::decode(&mut r, &mut Budget::new(Limits::fuzz())),
        Err(DecodeError::InvalidVariant { kind: "RefAction", seen: 5 })
    ));
}

#[test]
fn computed_kind_and_type_body_round_trip() {
    assert_eq!(rt(&ComputedKind::OnDemand), ComputedKind::OnDemand);
    assert_eq!(encode_to_vec(&TypeBody::Other, &mut Budget::new(Limits::host())).unwrap(), vec![3]);
    assert_eq!(rt(&TypeBody::Composite), TypeBody::Composite);
    let mut r = Reader::new(&[2]);
    assert!(matches!(
        ComputedKind::decode(&mut r, &mut Budget::new(Limits::fuzz())),
        Err(DecodeError::InvalidVariant { kind: "ComputedKind", seen: 2 })
    ));
}

#[test]
fn schema_ref_wire_layout() {
    let r = SchemaRef::new(CatalogId::new(3), SchemaId::new(300));
    assert_eq!(encode_to_vec(&r, &mut Budget::new(Limits::host())).unwrap(), vec![3, 0xAC, 0x02]);
    assert_eq!(rt(&r), r);
}

#[test]
fn relation_ref_wire_layout() {
    let r = RelationRef::new("u", "id").on_delete(RefAction::Cascade);
    assert_eq!(encode_to_vec(&r, &mut Budget::new(Limits::host())).unwrap(), vec![1, b'u', 2, b'i', b'd', 1, 0]);
    assert_eq!(rt(&r), r);
}

#[test]
fn entity_constraint_round_trips() {
    let all = vec![
        EntityConstraint::unique(["a", "b"]),
        EntityConstraint::relation(["user_id"], "users", ["id"], RefAction::Reject),
        EntityConstraint::invariant_expr("x > 0"),
        EntityConstraint::identity(["k"]),
    ];
    for c in &all {
        assert_eq!(&rt(c), c);
    }
    assert_eq!(encode_to_vec(&all[2], &mut Budget::new(Limits::host())).unwrap(), vec![2, 5, b'x', b' ', b'>', b' ', b'0']);
    let mut r = Reader::new(&[4]);
    assert!(matches!(
        EntityConstraint::decode(&mut r, &mut Budget::new(Limits::fuzz())),
        Err(DecodeError::InvalidVariant { kind: "EntityConstraint", seen: 4 })
    ));
}

#[test]
fn field_and_entity_round_trip() {
    let e = Entity::new(
        "orders",
        vec![
            Field::new("id", DataType::Int64).identity().auto_assign(),
            Field::new("user_id", DataType::Uuid).references("users", "id", RefAction::Cascade, RefAction::Forbid),
            Field::new("total", DataType::Decimal { precision: Some(12), scale: Some(2) })
                .generated_stored("price * qty")
                .comment("computed")
                .check("total >= 0"),
            Field::new("note", DataType::unbounded_string()).optional().default("''").collation("C").lookup(),
        ],
    )
    .with_namespace("shop")
    .with_constraints(vec![EntityConstraint::unique(["user_id", "id"])]);
    assert_eq!(rt(&e), e);
}

#[test]
fn field_wire_layout() {
    let f = Field::new("a", DataType::Bool);
    assert_eq!(
        encode_to_vec(&f, &mut Budget::new(Limits::host())).unwrap(),
        vec![1, b'a', 1, 0, 0, 0, 0, 0, 0, 0, 0, 0, 0, 0, 0]
    );
}

// ── Hashing ─────────────────────────────────────────────────────────

#[test]
fn hash_is_stable() {
    let a = hash_bytes(b"hello");
    let b = hash_bytes(b"hello");
    assert_eq!(a, b);
    assert_eq!(hex(&a).len(), 64);
}

#[test]
fn hash_matches_blake3_test_vector() {
    assert_eq!(
        hex(&hash_bytes(b"")),
        "af1349b9f5f9a1a6a0404dea36dcc9499bcb25c9adc112b7cc9a93cae41f3262"
    );
    assert_ne!(hash_bytes(b"a"), hash_bytes(b"b"));
}

#[test]
fn hex_is_lowercase_high_nibble_first() {
    let mut d = [0u8; 32];
    d[0] = 0xAB;
    d[31] = 0x0F;
    let h = hex(&d);
    assert!(h.starts_with("ab00"));
    assert!(h.ends_with("000f"));
}

#[test]
fn fnv1a_known_vectors() {
    assert_eq!(fnv1a_32(b""), 0x811c9dc5);
    assert_eq!(fnv1a_32(b"a"), 0xe40c292c);
    assert_eq!(fnv1a_32(b"foobar"), 0xbf9cf968);
}

#[test]
fn extension_names_hash_distinctly() {
    let names = [EXTENSION_NAME, WINDOW_NAME, TIMESERIES_NAME, IOT_SAMPLE_NAME];
    for (i, a) in names.iter().enumerate() {
        for b in &names[i + 1..] {
            assert_ne!(fnv1a_32(a.as_bytes()), fnv1a_32(b.as_bytes()));
        }
    }
}

// ── Error messages ──────────────────────────────────────────────────

#[test]
fn decode_error_messages() {
    assert_eq!(
        DecodeError::Eof { needed: 1234, had: 0 }.message(),
        "dol-wire decode: end of input (needed 1234 bytes, had 0)"
    );
    assert_eq!(
        DecodeError::InvalidVariant { kind: "bool", seen: 70 }.message(),
        "dol-wire decode: invalid discriminant 70 for bool"
    );
    assert_eq!(DecodeError::LengthOverflow.message(), "dol-wire decode: length-prefix overflow");
    assert_eq!(DecodeError::Utf8.message(), "dol-wire decode: invalid UTF-8 in str payload");
    assert_eq!(DecodeError::Custom("bad id").message(), "dol-wire decode: bad id");
    assert_eq!(EncodeError::LengthOverflow.message(), "dol-wire encode: length-prefix overflow");
    assert_eq!(EncodeError::Custom("x").message(), "dol-wire encode: x");
}

#[test]
fn decimal_numerals() {
    assert_eq!(decimal_string(0), "0");
    assert_eq!(decimal_string(10), "10");
    assert_eq!(decimal_string(u64::MAX), "18446744073709551615");
}

#[test]
fn network_addresses_round_trip_with_discriminant() {
    let v4 = IpAddr::V4([192, 168, 0, 1]);
    let bytes = encode_to_vec(&v4, &mut Budget::new(Limits::host())).unwrap();
    assert_eq!(bytes, vec![0, 192, 168, 0, 1]);
    assert_eq!(rt(&v4), v4);
    let v6 = IpAddr::V6([0xFE, 0x80, 0, 0, 0, 0, 0, 0, 0, 0, 0, 0, 0, 0, 0, 1]);
    let bytes = encode_to_vec(&v6, &mut Budget::new(Limits::host())).unwrap();
    assert_eq!(bytes.len(), 17);
    assert_eq!(bytes[0], 1);
    assert_eq!(rt(&v6), v6);
    let mac = MacAddr::Eui48([0x00, 0x1A, 0x2B, 0x3C, 0x4D, 0x5E]);
    assert_eq!(encode_to_vec(&mac, &mut Budget::new(Limits::host())).unwrap(), vec![0, 0x00, 0x1A, 0x2B, 0x3C, 0x4D, 0x5E]);
    assert_eq!(rt(&mac), mac);
    let mac64 = MacAddr::Eui64([1, 2, 3, 4, 5, 6, 7, 8]);
    assert_eq!(encode_to_vec(&mac64, &mut Budget::new(Limits::host())).unwrap(), vec![1, 1, 2, 3, 4, 5, 6, 7, 8]);
    assert_eq!(rt(&mac64), mac64);
}

#[test]
fn network_addresses_reject_bad_input() {
    let mut r = Reader::new(&[2, 1, 2, 3, 4]);
    assert!(matches!(
        IpAddr::decode(&mut r, &mut Budget::new(Limits::fuzz())),
        Err(DecodeError::InvalidVariant { kind: "IpAddr", seen: 2 })
    ));
    let mut r = Reader::new(&[7]);
    assert!(matches!(
        MacAddr::decode(&mut r, &mut Budget::new(Limits::fuzz())),
        Err(DecodeError::InvalidVariant { kind: "MacAddr", seen: 7 })
    ));
    let mut r = Reader::new(&[1, 0, 0, 0]);
    assert!(matches!(
        IpAddr::decode(&mut r, &mut Budget::new(Limits::fuzz())),
        Err(DecodeError::Eof { needed: 16, had: 3 })
    ));
}

#[test]
fn spans_file_ids_and_intervals_use_postcard_layout() {
    let span = Span::from_raw_u64(300);
    assert_eq!(encode_to_vec(&span, &mut Budget::new(Limits::host())).unwrap(), vec![0xAC, 0x02]);
    assert_eq!(rt(&span).to_raw_u64(), 300);
    assert_eq!(encode_to_vec(&FileId(7), &mut Budget::new(Limits::host())).unwrap(), vec![7]);
    assert_eq!(rt(&FileId(7)), FileId(7));
    let table = SpanTable { spans: vec![Span(1), Span(128)] };
    assert_eq!(encode_to_vec(&table, &mut Budget::new(Limits::host())).unwrap(), vec![2, 1, 0x80, 0x01]);
    assert_eq!(rt(&table).len(), 2);
    assert_eq!(rt(&table), table);
    let iv = Interval::new(-1, 2, -3);
    assert_eq!(encode_to_vec(&iv, &mut Budget::new(Limits::host())).unwrap(), vec![1, 4, 5]);
    assert_eq!(rt(&iv), iv);
}

#[test]
fn span_table_rejects_oversized_count() {
    let mut r = Reader::new(&[0x81, 0x80, 0x40]);
    assert!(matches!(
        SpanTable::decode(&mut r, &mut Budget::new(Limits::fuzz())),
        Err(DecodeError::LengthOverflow)
    ));
}

#[test]
fn bit_strings_check_declared_length() {
    let bits = BitString { len: 10, bytes: vec![0xFF, 0xC0] };
    assert_eq!(encode_to_vec(&bits, &mut Budget::new(Limits::host())).unwrap(), vec![10, 2, 0xFF, 0xC0]);
    assert_eq!(rt(&bits), bits);
    let mut r = Reader::new(&[9, 1, 0xFF]);
    assert!(matches!(
        BitString::decode(&mut r, &mut Budget::new(Limits::fuzz())),
        Err(DecodeError::Custom("BitString: declared bit length does not match byte count"))
    ));
    let mut r = Reader::new(&[8, 1, 0xFF]);
    assert!(matches!(
        BitString::decode(&mut r, &mut Budget::new(Limits { max_depth: 0 })),
        Err(DecodeError::Budget(BudgetError::Depth))
    ));
}

#[test]
fn encode_charges_nesting_against_the_budget() {
    let nested = vec![vec![1u32, 2], vec![3]];
    let mut tight = Budget::new(Limits { max_depth: 1 });
    assert!(matches!(
        encode_to_vec(&nested, &mut tight),
        Err(EncodeError::Budget(BudgetError::Depth))
    ));
    assert_eq!(tight.remaining_depth(), 1);
    let mut enough = Budget::new(Limits { max_depth: 2 });
    assert_eq!(encode_to_vec(&nested, &mut enough).unwrap(), vec![2, 2, 1, 2, 1, 3]);
    assert_eq!(enough.remaining_depth(), 2);
    let mut none = Budget::new(Limits { max_depth: 0 });
    assert_eq!(encode_to_vec(&Vec::<u32>::new(), &mut none).unwrap(), vec![0]);
    assert_eq!(encode_to_vec(&7u32, &mut none).unwrap(), vec![7]);
    assert!(matches!(encode_to_vec(&vec![7u32], &mut none), Err(EncodeError::Budget(BudgetError::Depth))));
}

#[test]
fn encode_budget_error_message() {
    assert_eq!(
        EncodeError::Budget(BudgetError::Depth).message(),
        "dol-wire encode: budget exhausted: nesting too deep"
    );
}
