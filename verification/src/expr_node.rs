//! Expression nodes on the wire: a varint opcode, then only the fields that
//! opcode uses, each a varint.
//!
//! The numbering of opcodes belongs to the expression layer; the codec takes
//! it as an [`OpcodeTable`] from opcode number to [`ExprOp`]. What follows
//! the opcode is decided here, by the opcode's [`NodeShape`].
use crate::decoder::{
    and_then, mapped, spec_read_varint_u32, varint_u32_round_trip, Budget, BudgetError, DecodeError,
    Decoded, Reader,
};
use crate::encoder::{EncodeError, Writer};
use crate::varint::varint_bytes;
use vstd::prelude::*;

verus! {

/// The operations an expression node can carry.
#[derive(Debug, Clone, Copy, PartialEq, Eq, Structural)]
pub enum ExprOp {
    Nop,
    Namespace,
    Field,
    Param,
    Lit,
    ObjectLit,
    ArrayLit,
    Func,
    Window,
    Case,
    InList,
    Query,
    Insert,
    Update,
    Delete,
    Upsert,
    Exists,
    IsNull,
    Bin,
    Una,
    Agg,
    Cast,
    Alias,
    InSub,
    Between,
}

/// Which fields of a node follow its opcode on the wire.
#[derive(Debug, Clone, Copy, PartialEq, Eq, Structural)]
pub enum NodeShape {
    /// Nothing.
    Empty,
    /// `a`.
    One,
    /// `aux` (a unary operator), then `a`.
    AuxOne,
    /// `aux` (a binary operator), then `a` and `b`.
    AuxTwo,
    /// `flags`, then `a` and `b`.
    FlagsTwo,
    /// `a`, then `b`.
    Two,
    /// `a`, `b`, then `c`.
    Three,
}

/// The fields that follow opcode `op`: none for `Nop`; one pool id for the
/// leaf and statement references; operator and operands for `Bin` and
/// `Una`; flags and two ids for `Agg`; two ids for `Cast`, `Alias` and
/// `InSub`; three for `Between`.
pub open spec fn spec_shape_of(op: ExprOp) -> NodeShape {
    match op {
        ExprOp::Nop => NodeShape::Empty,
        ExprOp::Bin => NodeShape::AuxTwo,
        ExprOp::Una => NodeShape::AuxOne,
        ExprOp::Agg => NodeShape::FlagsTwo,
        ExprOp::Cast | ExprOp::Alias | ExprOp::InSub => NodeShape::Two,
        ExprOp::Between => NodeShape::Three,
        _ => NodeShape::One,
    }
}

/// The fields that follow opcode `op`.
pub fn shape_of(op: ExprOp) -> (s: NodeShape)
    ensures
        s == spec_shape_of(op),
{
    match op {
        ExprOp::Nop => NodeShape::Empty,
        ExprOp::Bin => NodeShape::AuxTwo,
        ExprOp::Una => NodeShape::AuxOne,
        ExprOp::Agg => NodeShape::FlagsTwo,
        ExprOp::Cast | ExprOp::Alias | ExprOp::InSub => NodeShape::Two,
        ExprOp::Between => NodeShape::Three,
        _ => NodeShape::One,
    }
}

/// The opcode numbering: entry `i` is the operation numbered `i`, if any.
#[derive(Debug, Clone)]
pub struct OpcodeTable {
    /// Operations by number.
    pub ops: Vec<Option<ExprOp>>,
}

/// The operation numbered `tag` in `ops`, if any.
pub open spec fn op_of(ops: Seq<Option<ExprOp>>, tag: int) -> Option<ExprOp> {
    if 0 <= tag < ops.len() {
        ops[tag]
    } else {
        None
    }
}

impl OpcodeTable {
    /// The operation numbered `tag`, if any.
    pub fn lookup(&self, tag: u32) -> (op: Option<ExprOp>)
        ensures
            op == op_of(self.ops@, tag as int),
    {
        if (tag as usize) < self.ops.len() {
            self.ops[tag as usize]
        } else {
            None
        }
    }
}

/// Index of a node in an expression arena.
#[derive(Debug, Clone, Copy, PartialEq, Eq, Structural)]
pub struct NodeId(
    /// Position of the node.
    pub u32,
);

/// A flat expression node: its opcode number, a flag byte, an operator
/// code and up to three pool ids.
#[derive(Debug, Clone, Copy, PartialEq, Eq, Structural)]
pub struct ExprNode {
    /// Opcode number.
    pub op: u8,
    /// Flags (`Agg`: distinct).
    pub flags: u8,
    /// Operator code (`Bin`, `Una`).
    pub aux: u16,
    /// First id.
    pub a: u32,
    /// Second id.
    pub b: u32,
    /// Third id.
    pub c: u32,
}

/// `v` as a `u32` varint.
pub open spec fn vb(v: u32) -> Seq<u8> {
    varint_bytes(v as nat)
}

/// The bytes that follow the opcode of `n` when its shape is `shape`.
pub open spec fn spec_encode_fields(shape: NodeShape, n: ExprNode) -> Seq<u8> {
    match shape {
        NodeShape::Empty => Seq::empty(),
        NodeShape::One => vb(n.a),
        NodeShape::AuxOne => vb(n.aux as u32) + vb(n.a),
        NodeShape::AuxTwo => vb(n.aux as u32) + vb(n.a) + vb(n.b),
        NodeShape::FlagsTwo => vb(n.flags as u32) + vb(n.a) + vb(n.b),
        NodeShape::Two => vb(n.a) + vb(n.b),
        NodeShape::Three => vb(n.a) + vb(n.b) + vb(n.c),
    }
}

/// The encoding of `n` under the numbering `ops`: its opcode, then the
/// fields its shape uses; `None` when `ops` names no operation for it, or
/// names `IsNull`, which the encoder does not write.
pub open spec fn spec_encode_expr_node(n: ExprNode, ops: Seq<Option<ExprOp>>) -> Option<Seq<u8>> {
    match op_of(ops, n.op as int) {
        Some(op) => if op == ExprOp::IsNull {
            None
        } else {
            Some(vb(n.op as u32) + spec_encode_fields(spec_shape_of(op), n))
        },
        None => None,
    }
}

/// A node of opcode `tag` with these fields.
pub open spec fn node(tag: u8, flags: u8, aux: u16, a: u32, b: u32, c: u32) -> ExprNode {
    ExprNode { op: tag, flags, aux, a, b, c }
}

/// An operator or flag code read as a `u32` and kept only below `limit`;
/// above it, an invalid variant of `kind`.
pub open spec fn spec_read_code(s: Seq<u8>, limit: u32, kind: &'static str) -> Decoded<u32> {
    and_then(
        spec_read_varint_u32(s),
        s,
        |x: u32, r: Seq<u8>|
            if x < limit {
                (Ok::<u32, DecodeError>(x), 0nat)
            } else {
                (Err(DecodeError::InvalidVariant { kind: kind, seen: x }), 0nat)
            },
    )
}

/// What reading the fields of shape `shape` for opcode `tag` from `s`
/// yields: each field in order, a code that does not fit its width being
/// an invalid variant.
pub open spec fn spec_decode_fields(tag: u8, shape: NodeShape, s: Seq<u8>) -> Decoded<ExprNode> {
    match shape {
        NodeShape::Empty => (Ok(node(tag, 0, 0, 0, 0, 0)), 0),
        NodeShape::One => mapped(spec_read_varint_u32(s), |a: u32| node(tag, 0, 0, a, 0, 0)),
        NodeShape::AuxOne => and_then(
            spec_read_code(s, 0x1_0000, "ExprNode/Una.aux"),
            s,
            |x: u32, r: Seq<u8>| mapped(spec_read_varint_u32(r), |a: u32| node(tag, 0, x as u16, a, 0, 0)),
        ),
        NodeShape::AuxTwo => and_then(
            spec_read_code(s, 0x1_0000, "ExprNode/Bin.aux"),
            s,
            |x: u32, r: Seq<u8>|
                and_then(
                    spec_read_varint_u32(r),
                    r,
                    |a: u32, r2: Seq<u8>|
                        mapped(spec_read_varint_u32(r2), |b: u32| node(tag, 0, x as u16, a, b, 0)),
                ),
        ),
        NodeShape::FlagsTwo => and_then(
            spec_read_code(s, 0x100, "ExprNode/Agg.flags"),
            s,
            |x: u32, r: Seq<u8>|
                and_then(
                    spec_read_varint_u32(r),
                    r,
                    |a: u32, r2: Seq<u8>|
                        mapped(spec_read_varint_u32(r2), |b: u32| node(tag, x as u8, 0, a, b, 0)),
                ),
        ),
        NodeShape::Two => and_then(
            spec_read_varint_u32(s),
            s,
            |a: u32, r: Seq<u8>| mapped(spec_read_varint_u32(r), |b: u32| node(tag, 0, 0, a, b, 0)),
        ),
        NodeShape::Three => and_then(
            spec_read_varint_u32(s),
            s,
            |a: u32, r: Seq<u8>|
                and_then(
                    spec_read_varint_u32(r),
                    r,
                    |b: u32, r2: Seq<u8>|
                        mapped(spec_read_varint_u32(r2), |c: u32| node(tag, 0, 0, a, b, c)),
                ),
        ),
    }
}

/// The opcode of a node: a varint that must fit a byte and name an
/// operation in `ops`.
pub open spec fn spec_decode_op(s: Seq<u8>, ops: Seq<Option<ExprOp>>) -> Decoded<(u8, ExprOp)> {
    and_then(
        spec_read_varint_u32(s),
        s,
        |raw: u32, r: Seq<u8>|
            if raw < 0x100 && op_of(ops, raw as int) is Some {
                (Ok::<(u8, ExprOp), DecodeError>((raw as u8, op_of(ops, raw as int)->0)), 0nat)
            } else {
                (Err(DecodeError::InvalidVariant { kind: "ExprNode", seen: raw }), 0nat)
            },
    )
}

/// What decoding a node from `s` under the numbering `ops` yields and how
/// many bytes it consumes.
pub open spec fn spec_decode_expr_node(s: Seq<u8>, ops: Seq<Option<ExprOp>>) -> Decoded<ExprNode> {
    and_then(
        spec_decode_op(s, ops),
        s,
        |p: (u8, ExprOp), r: Seq<u8>| spec_decode_fields(p.0, spec_shape_of(p.1), r),
    )
}

/// How many budget levels decoding a node from `s` enters: one while its
/// fields are read, none for a node without fields or one that fails
/// before them.
pub open spec fn spec_need_expr_node(s: Seq<u8>, ops: Seq<Option<ExprOp>>) -> nat {
    let d = spec_decode_op(s, ops);
    match d.0 {
        Ok(p) => match spec_shape_of(p.1) {
            NodeShape::Empty => 0,
            NodeShape::FlagsTwo => if spec_read_code(s.skip(d.1 as int), 0x100, "ExprNode/Agg.flags").0 is Ok {
                1
            } else {
                0
            },
            _ => 1,
        },
        Err(_) => 0,
    }
}

/// Read one `u32` field, charged against the budget as one level.
fn read_field(reader: &mut Reader<'_>, budget: &Budget) -> (res: Result<u32, DecodeError>)
    ensures
        budget.remaining() > 0 ==> res == spec_read_varint_u32(old(reader).rest()).0,
        budget.remaining() > 0 ==> old(reader).advanced_to(*final(reader), spec_read_varint_u32(old(reader).rest()).1),
        budget.remaining() == 0 ==> res == Err::<u32, DecodeError>(DecodeError::Budget(BudgetError::Depth)),
        budget.remaining() == 0 ==> *final(reader) == *old(reader),
{
    if budget.remaining_depth() == 0 {
        return Err(DecodeError::Budget(BudgetError::Depth));
    }
    reader.read_varint_u32()
}

/// Read a code of at most `limit - 1` as a `u32`.
fn read_code(reader: &mut Reader<'_>, limit: u32, kind: &'static str) -> (res: Result<u32, DecodeError>)
    ensures
        res == spec_read_code(old(reader).rest(), limit, kind).0,
        old(reader).advanced_to(*final(reader), spec_read_code(old(reader).rest(), limit, kind).1),
{
    let x = reader.read_varint_u32()?;
    if x < limit {
        Ok(x)
    } else {
        Err(DecodeError::InvalidVariant { kind, seen: x })
    }
}

/// Read a node under the numbering `table`, within `budget`, which is left
/// as it was found. With at least [`spec_need_expr_node`] levels left the
/// outcome is the one [`spec_decode_expr_node`] describes; with fewer, the
/// decode fails for want of budget.
pub fn decode_expr_node(reader: &mut Reader<'_>, budget: &mut Budget, table: &OpcodeTable) -> (res: Result<
    ExprNode,
    DecodeError,
>)
    ensures
        *final(budget) == *old(budget),
        old(budget).remaining() >= spec_need_expr_node(old(reader).rest(), table.ops@) ==> res
            == spec_decode_expr_node(old(reader).rest(), table.ops@).0,
        old(budget).remaining() >= spec_need_expr_node(old(reader).rest(), table.ops@) ==> old(
            reader,
        ).advanced_to(*final(reader), spec_decode_expr_node(old(reader).rest(), table.ops@).1),
        old(budget).remaining() < spec_need_expr_node(old(reader).rest(), table.ops@) ==> res
            == Err::<ExprNode, DecodeError>(DecodeError::Budget(BudgetError::Depth)),
{
    let ghost s = old(reader).rest();
    let ghost r0 = *reader;
    let raw = reader.read_varint_u32()?;
    let ghost n0 = spec_read_varint_u32(s).1;
    proof {
        r0.lemma_rest_after(*reader, n0);
    }
    if raw >= 0x100 {
        return Err(DecodeError::InvalidVariant { kind: "ExprNode", seen: raw });
    }
    let op = match table.lookup(raw) {
        Some(op) => op,
        None => {
            return Err(DecodeError::InvalidVariant { kind: "ExprNode", seen: raw });
        },
    };
    let tag = raw as u8;
    let ghost r1 = *reader;
    let ghost t = reader.rest();
    match shape_of(op) {
        NodeShape::Empty => Ok(ExprNode { op: tag, flags: 0, aux: 0, a: 0, b: 0, c: 0 }),
        NodeShape::One => {
            let a = read_field(reader, budget)?;
            Ok(ExprNode { op: tag, flags: 0, aux: 0, a, b: 0, c: 0 })
        },
        NodeShape::AuxOne => {
            if budget.remaining_depth() == 0 {
                return Err(DecodeError::Budget(BudgetError::Depth));
            }
            let x = read_code(reader, 0x1_0000, "ExprNode/Una.aux")?;
            proof {
                r1.lemma_rest_after(*reader, spec_read_code(t, 0x1_0000, "ExprNode/Una.aux").1);
            }
            let a = read_field(reader, budget)?;
            Ok(ExprNode { op: tag, flags: 0, aux: x as u16, a, b: 0, c: 0 })
        },
        NodeShape::AuxTwo => {
            if budget.remaining_depth() == 0 {
                return Err(DecodeError::Budget(BudgetError::Depth));
            }
            let x = read_code(reader, 0x1_0000, "ExprNode/Bin.aux")?;
            proof {
                r1.lemma_rest_after(*reader, spec_read_code(t, 0x1_0000, "ExprNode/Bin.aux").1);
            }
            let ghost r2 = *reader;
            let ghost t2 = reader.rest();
            let a = read_field(reader, budget)?;
            proof {
                r2.lemma_rest_after(*reader, spec_read_varint_u32(t2).1);
            }
            let b = read_field(reader, budget)?;
            Ok(ExprNode { op: tag, flags: 0, aux: x as u16, a, b, c: 0 })
        },
        NodeShape::FlagsTwo => {
            let x = read_code(reader, 0x100, "ExprNode/Agg.flags")?;
            proof {
                r1.lemma_rest_after(*reader, spec_read_code(t, 0x100, "ExprNode/Agg.flags").1);
            }
            let ghost r2 = *reader;
            let ghost t2 = reader.rest();
            let a = read_field(reader, budget)?;
            proof {
                r2.lemma_rest_after(*reader, spec_read_varint_u32(t2).1);
            }
            let b = read_field(reader, budget)?;
            Ok(ExprNode { op: tag, flags: x as u8, aux: 0, a, b, c: 0 })
        },
        NodeShape::Two => {
            let a = read_field(reader, budget)?;
            proof {
                r1.lemma_rest_after(*reader, spec_read_varint_u32(t).1);
            }
            let b = read_field(reader, budget)?;
            Ok(ExprNode { op: tag, flags: 0, aux: 0, a, b, c: 0 })
        },
        NodeShape::Three => {
            let a = read_field(reader, budget)?;
            proof {
                r1.lemma_rest_after(*reader, spec_read_varint_u32(t).1);
            }
            let ghost r2 = *reader;
            let ghost t2 = reader.rest();
            let b = read_field(reader, budget)?;
            proof {
                r2.lemma_rest_after(*reader, spec_read_varint_u32(t2).1);
            }
            let c = read_field(reader, budget)?;
            Ok(ExprNode { op: tag, flags: 0, aux: 0, a, b, c })
        },
    }
}

/// Append `n` under the numbering `table`: its opcode, then the fields its
/// shape uses. An opcode the table does not name is refused and nothing is
/// written.
pub fn encode_expr_node(n: &ExprNode, writer: &mut Writer, table: &OpcodeTable) -> (res: Result<(), EncodeError>)
    ensures
        final(writer).start() == old(writer).start(),
        res is Ok <==> spec_encode_expr_node(*n, table.ops@) is Some,
        res is Ok ==> final(writer).bytes() == old(writer).bytes() + spec_encode_expr_node(*n, table.ops@)->0,
        res is Err ==> *final(writer) == *old(writer),
        res matches Err(e) ==> e == (if op_of(table.ops@, n.op as int) is None {
            EncodeError::Custom("ExprNode: unknown opcode")
        } else {
            EncodeError::Custom("ExprNode: unsupported opcode")
        }),
{
    let op = match table.lookup(n.op as u32) {
        Some(op) => op,
        None => {
            return Err(EncodeError::Custom("ExprNode: unknown opcode"));
        },
    };
    if op == ExprOp::IsNull {
        return Err(EncodeError::Custom("ExprNode: unsupported opcode"));
    }
    let ghost before = writer.bytes();
    let _ = writer.write_varint_u32(n.op as u32);
    match shape_of(op) {
        NodeShape::Empty => {},
        NodeShape::One => {
            let _ = writer.write_varint_u32(n.a);
        },
        NodeShape::AuxOne => {
            let _ = writer.write_varint_u32(n.aux as u32);
            let _ = writer.write_varint_u32(n.a);
        },
        NodeShape::AuxTwo => {
            let _ = writer.write_varint_u32(n.aux as u32);
            let _ = writer.write_varint_u32(n.a);
            let _ = writer.write_varint_u32(n.b);
        },
        NodeShape::FlagsTwo => {
            let _ = writer.write_varint_u32(n.flags as u32);
            let _ = writer.write_varint_u32(n.a);
            let _ = writer.write_varint_u32(n.b);
        },
        NodeShape::Two => {
            let _ = writer.write_varint_u32(n.a);
            let _ = writer.write_varint_u32(n.b);
        },
        NodeShape::Three => {
            let _ = writer.write_varint_u32(n.a);
            let _ = writer.write_varint_u32(n.b);
            let _ = writer.write_varint_u32(n.c);
        },
    }
    proof {
        let sh = spec_shape_of(op);
        assert(writer.bytes() =~= before + (vb(n.op as u32) + spec_encode_fields(sh, *n)));
    }
    Ok(())
}

/// A node holds nothing in the fields its shape leaves out: those are
/// zero.
pub open spec fn canonical_for(n: ExprNode, shape: NodeShape) -> bool {
    match shape {
        NodeShape::Empty => n.flags == 0 && n.aux == 0 && n.a == 0 && n.b == 0 && n.c == 0,
        NodeShape::One => n.flags == 0 && n.aux == 0 && n.b == 0 && n.c == 0,
        NodeShape::AuxOne => n.flags == 0 && n.b == 0 && n.c == 0,
        NodeShape::AuxTwo => n.flags == 0 && n.c == 0,
        NodeShape::FlagsTwo => n.aux == 0 && n.c == 0,
        NodeShape::Two => n.flags == 0 && n.aux == 0 && n.c == 0,
        NodeShape::Three => n.flags == 0 && n.aux == 0,
    }
}

/// The fields of a node whose unused fields are zero read back as the
/// node, consuming exactly their bytes.
proof fn lemma_fields_round_trip(sh: NodeShape, n: ExprNode, tail: Seq<u8>)
    requires
        canonical_for(n, sh),
    ensures
        spec_decode_fields(n.op, sh, spec_encode_fields(sh, n) + tail) == (
            Ok::<ExprNode, DecodeError>(n),
            spec_encode_fields(sh, n).len(),
        ),
{
    match sh {
        NodeShape::Empty => {},
        NodeShape::One => {
            varint_u32_round_trip(n.a, tail);
        },
        NodeShape::AuxOne => {
            lemma_two_round_trip(n.aux as u32, n.a, tail);
        },
        NodeShape::AuxTwo => {
            lemma_three_round_trip(n.aux as u32, n.a, n.b, tail);
        },
        NodeShape::FlagsTwo => {
            lemma_three_round_trip(n.flags as u32, n.a, n.b, tail);
        },
        NodeShape::Two => {
            lemma_two_round_trip(n.a, n.b, tail);
        },
        NodeShape::Three => {
            lemma_three_round_trip(n.a, n.b, n.c, tail);
        },
    }
}

/// Two varints read back in order.
proof fn lemma_two_round_trip(x: u32, y: u32, tail: Seq<u8>)
    ensures
        spec_read_varint_u32(vb(x) + vb(y) + tail) == (Ok::<u32, DecodeError>(x), vb(x).len()),
        (vb(x) + vb(y) + tail).skip(vb(x).len() as int) == vb(y) + tail,
        spec_read_varint_u32(vb(y) + tail) == (Ok::<u32, DecodeError>(y), vb(y).len()),
        (vb(y) + tail).skip(vb(y).len() as int) == tail,
{
    assert(vb(x) + vb(y) + tail =~= vb(x) + (vb(y) + tail));
    varint_u32_round_trip(x, vb(y) + tail);
    assert((vb(x) + (vb(y) + tail)).skip(vb(x).len() as int) =~= vb(y) + tail);
    varint_u32_round_trip(y, tail);
    assert((vb(y) + tail).skip(vb(y).len() as int) =~= tail);
}

/// Three varints read back in order.
proof fn lemma_three_round_trip(x: u32, y: u32, z: u32, tail: Seq<u8>)
    ensures
        spec_read_varint_u32(vb(x) + vb(y) + vb(z) + tail) == (Ok::<u32, DecodeError>(x), vb(x).len()),
        (vb(x) + vb(y) + vb(z) + tail).skip(vb(x).len() as int) == vb(y) + vb(z) + tail,
        spec_read_varint_u32(vb(y) + vb(z) + tail) == (Ok::<u32, DecodeError>(y), vb(y).len()),
        (vb(y) + vb(z) + tail).skip(vb(y).len() as int) == vb(z) + tail,
        spec_read_varint_u32(vb(z) + tail) == (Ok::<u32, DecodeError>(z), vb(z).len()),
        (vb(z) + tail).skip(vb(z).len() as int) == tail,
{
    assert(vb(x) + vb(y) + vb(z) + tail =~= vb(x) + (vb(y) + vb(z) + tail));
    varint_u32_round_trip(x, vb(y) + vb(z) + tail);
    assert((vb(x) + (vb(y) + vb(z) + tail)).skip(vb(x).len() as int) =~= vb(y) + vb(z) + tail);
    lemma_two_round_trip(y, z, tail);
}

/// Decoding the encoding of a node whose opcode the numbering names (and is
/// one the encoder writes), and whose unused fields are zero, gives the
/// node back and consumes exactly its bytes, whatever follows.
pub proof fn lemma_expr_node_round_trip(n: ExprNode, ops: Seq<Option<ExprOp>>, tail: Seq<u8>)
    requires
        op_of(ops, n.op as int) is Some,
        op_of(ops, n.op as int)->0 != ExprOp::IsNull,
        canonical_for(n, spec_shape_of(op_of(ops, n.op as int)->0)),
    ensures
        spec_encode_expr_node(n, ops) is Some,
        spec_decode_expr_node(spec_encode_expr_node(n, ops)->0 + tail, ops) == (
            Ok::<ExprNode, DecodeError>(n),
            (spec_encode_expr_node(n, ops)->0).len(),
        ),
{
    let op = op_of(ops, n.op as int)->0;
    let sh = spec_shape_of(op);
    let f = spec_encode_fields(sh, n);
    let whole = vb(n.op as u32) + f + tail;
    assert(whole =~= vb(n.op as u32) + (f + tail));
    varint_u32_round_trip(n.op as u32, f + tail);
    assert(whole.skip(vb(n.op as u32).len() as int) =~= f + tail);
    lemma_fields_round_trip(sh, n, tail);
    assert(spec_decode_op(whole, ops) == (Ok::<(u8, ExprOp), DecodeError>((n.op, op)), vb(n.op as u32).len()));
}

/// The bytes of each kind of node: the opcode, then for `Nop` nothing; for
/// the leaf and statement references one id `a`; for `Bin` the operator
/// `aux`, then `a` and `b`; for `Una` the operator `aux`, then `a`; for
/// `Agg` the flags, then `a` and `b`; for `Cast`, `Alias` and `InSub` the
/// ids `a` and `b`; for `Between` the ids `a`, `b` and `c`. `IsNull` nodes
/// are not written, nor are opcodes the numbering does not name.
pub proof fn lemma_expr_node_layout(n: ExprNode, ops: Seq<Option<ExprOp>>)
    ensures
        op_of(ops, n.op as int) is None ==> spec_encode_expr_node(n, ops) is None,
        op_of(ops, n.op as int) == Some(ExprOp::Nop) ==> spec_encode_expr_node(n, ops) == Some(vb(n.op as u32)),
        op_of(ops, n.op as int) matches Some(op) && (op == ExprOp::Namespace || op == ExprOp::Field
            || op == ExprOp::Param || op == ExprOp::Lit || op == ExprOp::ObjectLit || op == ExprOp::ArrayLit
            || op == ExprOp::Func || op == ExprOp::Window || op == ExprOp::Case || op == ExprOp::InList
            || op == ExprOp::Query || op == ExprOp::Insert || op == ExprOp::Update || op == ExprOp::Delete
            || op == ExprOp::Upsert || op == ExprOp::Exists) ==> spec_encode_expr_node(n, ops) == Some(
            vb(n.op as u32) + vb(n.a),
        ),
        op_of(ops, n.op as int) == Some(ExprOp::IsNull) ==> spec_encode_expr_node(n, ops) is None,
        op_of(ops, n.op as int) == Some(ExprOp::Bin) ==> spec_encode_expr_node(n, ops) == Some(
            vb(n.op as u32) + vb(n.aux as u32) + vb(n.a) + vb(n.b),
        ),
        op_of(ops, n.op as int) == Some(ExprOp::Una) ==> spec_encode_expr_node(n, ops) == Some(
            vb(n.op as u32) + vb(n.aux as u32) + vb(n.a),
        ),
        op_of(ops, n.op as int) == Some(ExprOp::Agg) ==> spec_encode_expr_node(n, ops) == Some(
            vb(n.op as u32) + vb(n.flags as u32) + vb(n.a) + vb(n.b),
        ),
        op_of(ops, n.op as int) matches Some(op) && (op == ExprOp::Cast || op == ExprOp::Alias || op
            == ExprOp::InSub) ==> spec_encode_expr_node(n, ops) == Some(vb(n.op as u32) + vb(n.a) + vb(n.b)),
        op_of(ops, n.op as int) == Some(ExprOp::Between) ==> spec_encode_expr_node(n, ops) == Some(
            vb(n.op as u32) + vb(n.a) + vb(n.b) + vb(n.c),
        ),
{
    assert(vb(n.op as u32) + vb(n.aux as u32) + vb(n.a) + vb(n.b) =~= vb(n.op as u32) + (vb(n.aux as u32)
        + vb(n.a) + vb(n.b)));
    assert(vb(n.op as u32) + vb(n.aux as u32) + vb(n.a) =~= vb(n.op as u32) + (vb(n.aux as u32) + vb(n.a)));
    assert(vb(n.op as u32) + vb(n.flags as u32) + vb(n.a) + vb(n.b) =~= vb(n.op as u32) + (vb(
        n.flags as u32,
    ) + vb(n.a) + vb(n.b)));
    assert(vb(n.op as u32) + vb(n.a) + vb(n.b) =~= vb(n.op as u32) + (vb(n.a) + vb(n.b)));
    assert(vb(n.op as u32) + vb(n.a) + vb(n.b) + vb(n.c) =~= vb(n.op as u32) + (vb(n.a) + vb(n.b) + vb(
        n.c,
    )));
    assert(vb(n.op as u32) + Seq::<u8>::empty() =~= vb(n.op as u32));
}

/// The opcode `tag` of a node read back, when the numbering names it.
proof fn lemma_read_op(tag: u8, ops: Seq<Option<ExprOp>>, rest: Seq<u8>)
    requires
        op_of(ops, tag as int) is Some,
    ensures
        spec_decode_op(vb(tag as u32) + rest, ops) == (
            Ok::<(u8, ExprOp), DecodeError>((tag, op_of(ops, tag as int)->0)),
            vb(tag as u32).len(),
        ),
        (vb(tag as u32) + rest).skip(vb(tag as u32).len() as int) == rest,
{
    varint_u32_round_trip(tag as u32, rest);
    assert((vb(tag as u32) + rest).skip(vb(tag as u32).len() as int) =~= rest);
}

/// Reading a node: a `Nop` opcode is the whole node, with every field
/// zero, and only the opcode is consumed, whatever follows.
pub proof fn lemma_expr_node_reads_nop(tag: u8, ops: Seq<Option<ExprOp>>, tail: Seq<u8>)
    requires
        op_of(ops, tag as int) == Some(ExprOp::Nop),
    ensures
        spec_decode_expr_node(vb(tag as u32) + tail, ops) == (
            Ok::<ExprNode, DecodeError>(ExprNode { op: tag, flags: 0, aux: 0, a: 0, b: 0, c: 0 }),
            vb(tag as u32).len(),
        ),
{
    lemma_read_op(tag, ops, tail);
}

/// Reading a node: the opcode of a leaf or statement reference (or
/// `IsNull`) is followed by one id `a`; every other field is zero, and
/// exactly these bytes are consumed, whatever follows.
pub proof fn lemma_expr_node_reads_one_id(tag: u8, x: u32, ops: Seq<Option<ExprOp>>, tail: Seq<u8>)
    requires
        op_of(ops, tag as int) matches Some(op) && (op == ExprOp::Namespace || op == ExprOp::Field || op
            == ExprOp::Param || op == ExprOp::Lit || op == ExprOp::ObjectLit || op == ExprOp::ArrayLit || op
            == ExprOp::Func || op == ExprOp::Window || op == ExprOp::Case || op == ExprOp::InList || op
            == ExprOp::Query || op == ExprOp::Insert || op == ExprOp::Update || op == ExprOp::Delete || op
            == ExprOp::Upsert || op == ExprOp::Exists || op == ExprOp::IsNull),
    ensures
        spec_decode_expr_node(vb(tag as u32) + vb(x) + tail, ops) == (
            Ok::<ExprNode, DecodeError>(ExprNode { op: tag, flags: 0, aux: 0, a: x, b: 0, c: 0 }),
            vb(tag as u32).len() + vb(x).len(),
        ),
{
    let t = vb(tag as u32);
    assert(t + vb(x) + tail =~= t + (vb(x) + tail));
    lemma_read_op(tag, ops, vb(x) + tail);
    varint_u32_round_trip(x, tail);
}

/// Reading a node: `Cast`, `Alias` and `InSub` are followed by two ids `a`
/// and `b`; every other field is zero, and exactly these bytes are
/// consumed, whatever follows.
pub proof fn lemma_expr_node_reads_two_ids(tag: u8, x: u32, y: u32, ops: Seq<Option<ExprOp>>, tail: Seq<u8>)
    requires
        op_of(ops, tag as int) matches Some(op) && (op == ExprOp::Cast || op == ExprOp::Alias || op
            == ExprOp::InSub),
    ensures
        spec_decode_expr_node(vb(tag as u32) + vb(x) + vb(y) + tail, ops) == (
            Ok::<ExprNode, DecodeError>(ExprNode { op: tag, flags: 0, aux: 0, a: x, b: y, c: 0 }),
            vb(tag as u32).len() + vb(x).len() + vb(y).len(),
        ),
{
    let t = vb(tag as u32);
    assert(t + vb(x) + vb(y) + tail =~= t + (vb(x) + vb(y) + tail));
    lemma_read_op(tag, ops, vb(x) + vb(y) + tail);
    lemma_two_round_trip(x, y, tail);
}

/// Reading a node: `Between` is followed by three ids `a`, `b` and `c`;
/// every other field is zero, and exactly these bytes are consumed,
/// whatever follows.
pub proof fn lemma_expr_node_reads_three_ids(
    tag: u8,
    x: u32,
    y: u32,
    z: u32,
    ops: Seq<Option<ExprOp>>,
    tail: Seq<u8>,
)
    requires
        op_of(ops, tag as int) == Some(ExprOp::Between),
    ensures
        spec_decode_expr_node(vb(tag as u32) + vb(x) + vb(y) + vb(z) + tail, ops) == (
            Ok::<ExprNode, DecodeError>(ExprNode { op: tag, flags: 0, aux: 0, a: x, b: y, c: z }),
            vb(tag as u32).len() + vb(x).len() + vb(y).len() + vb(z).len(),
        ),
{
    let t = vb(tag as u32);
    assert(t + vb(x) + vb(y) + vb(z) + tail =~= t + (vb(x) + vb(y) + vb(z) + tail));
    lemma_read_op(tag, ops, vb(x) + vb(y) + vb(z) + tail);
    lemma_three_round_trip(x, y, z, tail);
}

/// Reading a node: `Bin` is followed by its operator and two ids; an
/// operator that fits 16 bits is kept, every other field is zero, and
/// exactly these bytes are consumed, whatever follows.
pub proof fn lemma_expr_node_reads_bin(tag: u8, x: u32, y: u32, z: u32, ops: Seq<Option<ExprOp>>, tail: Seq<u8>)
    requires
        op_of(ops, tag as int) == Some(ExprOp::Bin),
        x < 0x1_0000,
    ensures
        spec_decode_expr_node(vb(tag as u32) + vb(x) + vb(y) + vb(z) + tail, ops) == (
            Ok::<ExprNode, DecodeError>(ExprNode { op: tag, flags: 0, aux: x as u16, a: y, b: z, c: 0 }),
            vb(tag as u32).len() + vb(x).len() + vb(y).len() + vb(z).len(),
        ),
{
    let t = vb(tag as u32);
    assert(t + vb(x) + vb(y) + vb(z) + tail =~= t + (vb(x) + vb(y) + vb(z) + tail));
    lemma_read_op(tag, ops, vb(x) + vb(y) + vb(z) + tail);
    lemma_three_round_trip(x, y, z, tail);
}

/// Reading a node: `Una` is followed by its operator and one id; an
/// operator that fits 16 bits is kept, every other field is zero, and
/// exactly these bytes are consumed, whatever follows.
pub proof fn lemma_expr_node_reads_una(tag: u8, x: u32, y: u32, ops: Seq<Option<ExprOp>>, tail: Seq<u8>)
    requires
        op_of(ops, tag as int) == Some(ExprOp::Una),
        x < 0x1_0000,
    ensures
        spec_decode_expr_node(vb(tag as u32) + vb(x) + vb(y) + tail, ops) == (
            Ok::<ExprNode, DecodeError>(ExprNode { op: tag, flags: 0, aux: x as u16, a: y, b: 0, c: 0 }),
            vb(tag as u32).len() + vb(x).len() + vb(y).len(),
        ),
{
    let t = vb(tag as u32);
    assert(t + vb(x) + vb(y) + tail =~= t + (vb(x) + vb(y) + tail));
    lemma_read_op(tag, ops, vb(x) + vb(y) + tail);
    lemma_two_round_trip(x, y, tail);
}

/// Reading a node: `Agg` is followed by its flags and two ids; flags that
/// fit a byte are kept, every other field is zero, and exactly these bytes
/// are consumed, whatever follows.
pub proof fn lemma_expr_node_reads_agg(tag: u8, x: u32, y: u32, z: u32, ops: Seq<Option<ExprOp>>, tail: Seq<u8>)
    requires
        op_of(ops, tag as int) == Some(ExprOp::Agg),
        x < 0x100,
    ensures
        spec_decode_expr_node(vb(tag as u32) + vb(x) + vb(y) + vb(z) + tail, ops) == (
            Ok::<ExprNode, DecodeError>(ExprNode { op: tag, flags: x as u8, aux: 0, a: y, b: z, c: 0 }),
            vb(tag as u32).len() + vb(x).len() + vb(y).len() + vb(z).len(),
        ),
{
    let t = vb(tag as u32);
    assert(t + vb(x) + vb(y) + vb(z) + tail =~= t + (vb(x) + vb(y) + vb(z) + tail));
    lemma_read_op(tag, ops, vb(x) + vb(y) + vb(z) + tail);
    lemma_three_round_trip(x, y, z, tail);
}

/// What reading a node refuses: an opcode above a byte, or one the
/// numbering does not name, is an invalid `ExprNode` variant; an operator
/// of `Bin` or `Una` above 16 bits, or flags of `Agg` above a byte, is an
/// invalid variant of that field, whatever follows.
pub proof fn lemma_expr_node_rejects(raw: u32, x: u32, ops: Seq<Option<ExprOp>>, rest: Seq<u8>)
    ensures
        raw >= 0x100 || op_of(ops, raw as int) is None ==> spec_decode_expr_node(vb(raw) + rest, ops).0
            == Err::<ExprNode, DecodeError>(DecodeError::InvalidVariant { kind: "ExprNode", seen: raw }),
        raw < 0x100 && op_of(ops, raw as int) == Some(ExprOp::Bin) && x >= 0x1_0000 ==> spec_decode_expr_node(
            vb(raw) + vb(x) + rest,
            ops,
        ).0 == Err::<ExprNode, DecodeError>(DecodeError::InvalidVariant { kind: "ExprNode/Bin.aux", seen: x }),
        raw < 0x100 && op_of(ops, raw as int) == Some(ExprOp::Una) && x >= 0x1_0000 ==> spec_decode_expr_node(
            vb(raw) + vb(x) + rest,
            ops,
        ).0 == Err::<ExprNode, DecodeError>(DecodeError::InvalidVariant { kind: "ExprNode/Una.aux", seen: x }),
        raw < 0x100 && op_of(ops, raw as int) == Some(ExprOp::Agg) && x >= 0x100 ==> spec_decode_expr_node(
            vb(raw) + vb(x) + rest,
            ops,
        ).0 == Err::<ExprNode, DecodeError>(DecodeError::InvalidVariant { kind: "ExprNode/Agg.flags", seen: x }),
{
    varint_u32_round_trip(raw, rest);
    assert(vb(raw) + vb(x) + rest =~= vb(raw) + (vb(x) + rest));
    varint_u32_round_trip(raw, vb(x) + rest);
    assert((vb(raw) + (vb(x) + rest)).skip(vb(raw).len() as int) =~= vb(x) + rest);
    varint_u32_round_trip(x, rest);
}

} // verus!
