use dol::decoder::{Budget, BudgetError, DecodeError, Limits, Reader};
use dol::encoder::{EncodeError, Writer};
use dol::expr_node::{decode_expr_node, encode_expr_node, shape_of, ExprNode, ExprOp, NodeShape, OpcodeTable};

fn table() -> OpcodeTable {
    OpcodeTable {
        ops: vec![
            Some(ExprOp::Nop),
            Some(ExprOp::Field),
            Some(ExprOp::Bin),
            Some(ExprOp::Una),
            Some(ExprOp::Agg),
            Some(ExprOp::Cast),
            Some(ExprOp::Between),
            None,
            Some(ExprOp::Exists),
        ],
    }
}

fn node(op: u8, flags: u8, aux: u16, a: u32, b: u32, c: u32) -> ExprNode {
    ExprNode { op, flags, aux, a, b, c }
}

fn enc(n: &ExprNode) -> Result<Vec<u8>, EncodeError> {
    let mut w = Writer::new(Vec::new());
    encode_expr_node(n, &mut w, &table())?;
    Ok(w.into_bytes())
}

fn dec_with(bytes: &[u8], depth: u32) -> (Result<ExprNode, DecodeError>, usize) {
    let mut r = Reader::new(bytes);
    let mut b = Budget::new(Limits { max_depth: depth });
    let res = decode_expr_node(&mut r, &mut b, &table());
    assert_eq!(b.remaining_depth(), depth);
    (res, bytes.len() - r.remaining())
}

fn same(got: Result<ExprNode, DecodeError>, want: Result<ExprNode, DecodeError>) {
    assert_eq!(format!("{:?}", got), format!("{:?}", want));
}

fn dec(bytes: &[u8]) -> Result<ExprNode, DecodeError> {
    dec_with(bytes, 256).0
}

#[test]
fn expr_node_layout_per_shape() {
    assert_eq!(enc(&node(0, 0, 0, 0, 0, 0)).unwrap(), vec![0]);
    assert_eq!(enc(&node(1, 0, 0, 300, 0, 0)).unwrap(), vec![1, 0xAC, 0x02]);
    assert_eq!(enc(&node(2, 0, 7, 1, 2, 0)).unwrap(), vec![2, 7, 1, 2]);
    assert_eq!(enc(&node(3, 0, 4, 9, 0, 0)).unwrap(), vec![3, 4, 9]);
    assert_eq!(enc(&node(4, 1, 0, 5, 6, 0)).unwrap(), vec![4, 1, 5, 6]);
    assert_eq!(enc(&node(5, 0, 0, 5, 6, 0)).unwrap(), vec![5, 5, 6]);
    assert_eq!(enc(&node(6, 0, 0, 1, 2, 3)).unwrap(), vec![6, 1, 2, 3]);
    assert_eq!(enc(&node(8, 0, 0, 4, 0, 0)).unwrap(), vec![8, 4]);
}

#[test]
fn expr_node_round_trips() {
    let nodes = [
        node(0, 0, 0, 0, 0, 0),
        node(1, 0, 0, u32::MAX, 0, 0),
        node(2, 0, u16::MAX, 1, 2, 0),
        node(3, 0, 4, 9, 0, 0),
        node(4, 1, 0, 5, 6, 0),
        node(5, 0, 0, 5, 600, 0),
        node(6, 0, 0, 1, 2, 3),
    ];
    for n in nodes.iter() {
        let mut bytes = enc(n).unwrap();
        let len = bytes.len();
        bytes.push(0xFF);
        let (res, used) = dec_with(&bytes, 1);
        assert_eq!(res.unwrap(), *n);
        assert_eq!(used, len);
    }
}

#[test]
fn expr_node_unused_fields_are_not_written() {
    let bytes = enc(&node(0, 3, 4, 5, 6, 7)).unwrap();
    assert_eq!(bytes, vec![0]);
    assert_eq!(dec(&bytes).unwrap(), node(0, 0, 0, 0, 0, 0));
}

#[test]
fn expr_node_unknown_opcode() {
    assert!(matches!(enc(&node(7, 0, 0, 0, 0, 0)), Err(EncodeError::Custom("ExprNode: unknown opcode"))));
    assert!(matches!(enc(&node(200, 0, 0, 0, 0, 0)), Err(EncodeError::Custom(_))));
    same(dec(&[7]), Err(DecodeError::InvalidVariant { kind: "ExprNode", seen: 7 }));
    same(dec(&[0x80, 0x02]), Err(DecodeError::InvalidVariant { kind: "ExprNode", seen: 256 }));
    same(dec(&[100]), Err(DecodeError::InvalidVariant { kind: "ExprNode", seen: 100 }));
}

#[test]
fn expr_node_oversized_codes() {
    same(
        dec(&[2, 0x80, 0x80, 0x04, 1, 2]),
        Err(DecodeError::InvalidVariant { kind: "ExprNode/Bin.aux", seen: 0x1_0000 })
    );
    same(
        dec(&[3, 0x80, 0x80, 0x04, 1]),
        Err(DecodeError::InvalidVariant { kind: "ExprNode/Una.aux", seen: 0x1_0000 })
    );
    same(
        dec(&[4, 0x80, 0x02, 1, 2]),
        Err(DecodeError::InvalidVariant { kind: "ExprNode/Agg.flags", seen: 256 })
    );
}

#[test]
fn expr_node_truncated() {
    assert!(matches!(dec(&[]), Err(DecodeError::Eof { .. })));
    assert!(matches!(dec(&[6, 1, 2]), Err(DecodeError::Eof { .. })));
    assert!(matches!(dec(&[2, 7]), Err(DecodeError::Eof { .. })));
}

#[test]
fn expr_node_fields_need_one_level() {
    same(dec_with(&[1, 4], 0).0, Err(DecodeError::Budget(BudgetError::Depth)));
    assert_eq!(dec_with(&[0], 0).0.unwrap(), node(0, 0, 0, 0, 0, 0));
    same(dec_with(&[4, 1, 5, 6], 0).0, Err(DecodeError::Budget(BudgetError::Depth)));
    same(
        dec_with(&[4, 0x80, 0x02, 5, 6], 0).0,
        Err(DecodeError::InvalidVariant { kind: "ExprNode/Agg.flags", seen: 256 })
    );
    assert_eq!(dec_with(&[4, 1, 5, 6], 1).0.unwrap(), node(4, 1, 0, 5, 6, 0));
}

#[test]
fn expr_node_shapes() {
    assert_eq!(shape_of(ExprOp::Nop), NodeShape::Empty);
    assert_eq!(shape_of(ExprOp::IsNull), NodeShape::One);
    assert_eq!(shape_of(ExprOp::Upsert), NodeShape::One);
    assert_eq!(shape_of(ExprOp::Bin), NodeShape::AuxTwo);
    assert_eq!(shape_of(ExprOp::Una), NodeShape::AuxOne);
    assert_eq!(shape_of(ExprOp::Agg), NodeShape::FlagsTwo);
    assert_eq!(shape_of(ExprOp::InSub), NodeShape::Two);
    assert_eq!(shape_of(ExprOp::Between), NodeShape::Three);
}
