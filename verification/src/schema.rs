//! Schema vocabulary: referential actions, relation references, entity
//! constraints, catalog handles and type-body kinds, with their wire
//! encodings.
//!
//! Fieldless enums travel as a `u32` varint discriminant, in declaration
//! order; structs travel as their fields in declaration order.
use crate::codec::Codec;
use crate::compound::{spec_decode_string, spec_encode_string};
use crate::decoder::{lemma_small_tag, Budget, 
    and_then, lemma_read_varint_within, lemma_reads_local, mapped, spec_decode_tag, spec_read_varint_u32,
    varint_u32_round_trip, Decode, DecodeError, Decoded, Reader,
};
use crate::encoder::{emit, emit_then, EncodeError, Emitted, Encode, Writer};
use crate::varint::{lemma_varint_bytes_shape, varint_bytes};
use vstd::prelude::*;

verus! {

broadcast use vstd::array::group_array_axioms;

/// Text handed to a constructor: a string slice or an owned `String`.
pub trait IntoText: Sized {
    /// The characters of the text.
    spec fn text(&self) -> Seq<char>;

    /// The text as an owned `String`.
    fn into_text(self) -> (s: String)
        ensures
            s@ == self.text(),
    ;
}

impl<'a> IntoText for &'a str {
    open spec fn text(&self) -> Seq<char> {
        (**self)@
    }

    fn into_text(self) -> (s: String) {
        self.to_owned()
    }
}

impl IntoText for std::sync::Arc<str> {
    open spec fn text(&self) -> Seq<char> {
        (**self)@
    }

    fn into_text(self) -> (s: String) {
        let t: &str = &*self;
        t.to_owned()
    }
}

impl IntoText for String {
    open spec fn text(&self) -> Seq<char> {
        self@
    }

    fn into_text(self) -> (s: String) {
        self
    }
}

/// The characters of each of `items`.
pub open spec fn texts(items: Seq<&str>) -> Seq<Seq<char>> {
    Seq::new(items.len(), |i: int| items[i]@)
}

/// Owned copies of `items`, in order.
fn owned_texts<const N: usize>(items: [&str; N]) -> (v: Vec<String>)
    ensures
        v.deep_view() == texts(items@),
{
    let mut v: Vec<String> = Vec::new();
    let mut i: usize = 0;
    while i < N
        invariant
            i <= N,
            items@.len() == N,
            v.deep_view() =~= texts(items@.take(i as int)),
        decreases N - i,
    {
        let ghost prev = v.deep_view();
        v.push(items[i].to_owned());
        assert(v.deep_view() =~= prev.push(items@[i as int]@));
        assert(texts(items@.take(i + 1 as int)) =~= texts(items@.take(i as int)).push(items@[i as int]@));
        i = i + 1;
    }
    assert(items@.take(N as int) =~= items@);
    v
}

/// Action to take when a referenced record is deleted or updated.
#[derive(Debug, Clone, Copy, PartialEq, Eq, Structural)]
pub enum RefAction {
    /// Reject the mutation outright; equivalent to `NO ACTION` in SQL.
    Forbid,
    /// Propagate the mutation to all referencing records.
    Cascade,
    /// Clear the referencing field; equivalent to `SET NULL` in SQL.
    Detach,
    /// Refuse the mutation if any referencing record exists.
    Reject,
    /// Reset the referencing field to its declared default.
    UseDefault,
}

impl DeepView for RefAction {
    type V = RefAction;

    open spec fn deep_view(&self) -> RefAction {
        *self
    }
}

/// The discriminant of each [`RefAction`] on the wire.
pub open spec fn ref_action_tag(a: RefAction) -> u32 {
    match a {
        RefAction::Forbid => 0,
        RefAction::Cascade => 1,
        RefAction::Detach => 2,
        RefAction::Reject => 3,
        RefAction::UseDefault => 4,
    }
}

/// The [`RefAction`] a discriminant stands for, if any.
pub open spec fn ref_action_of(t: u32) -> Option<RefAction> {
    if t == 0 {
        Some(RefAction::Forbid)
    } else if t == 1 {
        Some(RefAction::Cascade)
    } else if t == 2 {
        Some(RefAction::Detach)
    } else if t == 3 {
        Some(RefAction::Reject)
    } else if t == 4 {
        Some(RefAction::UseDefault)
    } else {
        None
    }
}

impl Decode for RefAction {
    open spec fn spec_decode(s: Seq<u8>) -> Decoded<RefAction> {
        spec_decode_tag(s, |t: u32| ref_action_of(t), "RefAction")
    }

    proof fn lemma_decode_within(s: Seq<u8>) {
        lemma_read_varint_within(s);
    }

    proof fn lemma_decode_local(s: Seq<u8>, t: Seq<u8>) {
        lemma_reads_local(s, t);
    }

    open spec fn spec_need(s: Seq<u8>) -> nat {
        0
    }

    fn decode(reader: &mut Reader<'_>, budget: &mut Budget) -> (res: Result<RefAction, DecodeError>) {
        match reader.read_varint_u32()? {
            0 => Ok(RefAction::Forbid),
            1 => Ok(RefAction::Cascade),
            2 => Ok(RefAction::Detach),
            3 => Ok(RefAction::Reject),
            4 => Ok(RefAction::UseDefault),
            seen => Err(DecodeError::InvalidVariant { kind: "RefAction", seen }),
        }
    }
}

impl Encode for RefAction {
    open spec fn spec_encode(a: RefAction) -> Emitted {
        emit(varint_bytes(ref_action_tag(a) as nat))
    }

    fn encode(&self, writer: &mut Writer) -> (res: Result<(), EncodeError>) {
        let t: u32 = match self {
            RefAction::Forbid => 0,
            RefAction::Cascade => 1,
            RefAction::Detach => 2,
            RefAction::Reject => 3,
            RefAction::UseDefault => 4,
        };
        writer.write_varint_u32(t)
    }
}

impl Codec for RefAction {
    open spec fn spec_fits(a: RefAction) -> bool {
        true
    }

    proof fn lemma_round_trip(a: RefAction, tail: Seq<u8>) {
        varint_u32_round_trip(ref_action_tag(a), tail);
    }
}

/// The stable wire discriminants of referential actions: `Forbid` is
/// written as byte 0, `Cascade` 1, `Detach` 2, `Reject` 3, `UseDefault` 4,
/// and each of these bytes reads back as that action, consuming one byte.
pub proof fn lemma_ref_action_discriminants(s: Seq<u8>)
    ensures
        <RefAction as Encode>::spec_encode(RefAction::Forbid) == emit(seq![0u8]),
        <RefAction as Encode>::spec_encode(RefAction::Cascade) == emit(seq![1u8]),
        <RefAction as Encode>::spec_encode(RefAction::Detach) == emit(seq![2u8]),
        <RefAction as Encode>::spec_encode(RefAction::Reject) == emit(seq![3u8]),
        <RefAction as Encode>::spec_encode(RefAction::UseDefault) == emit(seq![4u8]),
        <RefAction as Decode>::spec_decode(seq![0u8] + s) == (Ok::<RefAction, DecodeError>(RefAction::Forbid), 1nat),
        <RefAction as Decode>::spec_decode(seq![1u8] + s) == (Ok::<RefAction, DecodeError>(RefAction::Cascade), 1nat),
        <RefAction as Decode>::spec_decode(seq![2u8] + s) == (Ok::<RefAction, DecodeError>(RefAction::Detach), 1nat),
        <RefAction as Decode>::spec_decode(seq![3u8] + s) == (Ok::<RefAction, DecodeError>(RefAction::Reject), 1nat),
        <RefAction as Decode>::spec_decode(seq![4u8] + s) == (Ok::<RefAction, DecodeError>(RefAction::UseDefault), 1nat),
{
    lemma_small_tag(0, s);
    lemma_small_tag(1, s);
    lemma_small_tag(2, s);
    lemma_small_tag(3, s);
    lemma_small_tag(4, s);
}

/// How a computed field is materialized.
#[derive(Debug, Clone, Copy, PartialEq, Eq, Structural)]
pub enum ComputedKind {
    /// Materialized on write.
    Materialized,
    /// Computed on demand.
    OnDemand,
}

impl DeepView for ComputedKind {
    type V = ComputedKind;

    open spec fn deep_view(&self) -> ComputedKind {
        *self
    }
}

/// The discriminant of each [`ComputedKind`] on the wire.
pub open spec fn computed_kind_tag(a: ComputedKind) -> u32 {
    match a {
        ComputedKind::Materialized => 0,
        ComputedKind::OnDemand => 1,
    }
}

/// The [`ComputedKind`] a discriminant stands for, if any.
pub open spec fn computed_kind_of(t: u32) -> Option<ComputedKind> {
    if t == 0 {
        Some(ComputedKind::Materialized)
    } else if t == 1 {
        Some(ComputedKind::OnDemand)
    } else {
        None
    }
}

impl Decode for ComputedKind {
    open spec fn spec_decode(s: Seq<u8>) -> Decoded<ComputedKind> {
        spec_decode_tag(s, |t: u32| computed_kind_of(t), "ComputedKind")
    }

    proof fn lemma_decode_within(s: Seq<u8>) {
        lemma_read_varint_within(s);
    }

    proof fn lemma_decode_local(s: Seq<u8>, t: Seq<u8>) {
        lemma_reads_local(s, t);
    }

    open spec fn spec_need(s: Seq<u8>) -> nat {
        0
    }

    fn decode(reader: &mut Reader<'_>, budget: &mut Budget) -> (res: Result<ComputedKind, DecodeError>) {
        match reader.read_varint_u32()? {
            0 => Ok(ComputedKind::Materialized),
            1 => Ok(ComputedKind::OnDemand),
            seen => Err(DecodeError::InvalidVariant { kind: "ComputedKind", seen }),
        }
    }
}

impl Encode for ComputedKind {
    open spec fn spec_encode(a: ComputedKind) -> Emitted {
        emit(varint_bytes(computed_kind_tag(a) as nat))
    }

    fn encode(&self, writer: &mut Writer) -> (res: Result<(), EncodeError>) {
        let t: u32 = match self {
            ComputedKind::Materialized => 0,
            ComputedKind::OnDemand => 1,
        };
        writer.write_varint_u32(t)
    }
}

impl Codec for ComputedKind {
    open spec fn spec_fits(a: ComputedKind) -> bool {
        true
    }

    proof fn lemma_round_trip(a: ComputedKind, tail: Seq<u8>) {
        varint_u32_round_trip(computed_kind_tag(a), tail);
    }
}

/// The stable wire discriminants of computed-field kinds: `Materialized`
/// is written as byte 0 and `OnDemand` as 1, and each byte reads back as
/// that kind, consuming one byte.
pub proof fn lemma_computed_kind_discriminants(s: Seq<u8>)
    ensures
        <ComputedKind as Encode>::spec_encode(ComputedKind::Materialized) == emit(seq![0u8]),
        <ComputedKind as Encode>::spec_encode(ComputedKind::OnDemand) == emit(seq![1u8]),
        <ComputedKind as Decode>::spec_decode(seq![0u8] + s) == (
            Ok::<ComputedKind, DecodeError>(ComputedKind::Materialized),
            1nat,
        ),
        <ComputedKind as Decode>::spec_decode(seq![1u8] + s) == (
            Ok::<ComputedKind, DecodeError>(ComputedKind::OnDemand),
            1nat,
        ),
{
    lemma_small_tag(0, s);
    lemma_small_tag(1, s);
}

/// Type-body classification for named types.
#[derive(Debug, Clone, Copy, PartialEq, Eq, Structural)]
pub enum TypeBody {
    /// Enumerated type (e.g. PostgreSQL `CREATE TYPE ... AS ENUM`).
    Enum,
    /// Composite / record type (e.g. PostgreSQL `CREATE TYPE ... AS (...)`).
    Composite,
    /// Distinct (domain) type with constraints.
    Distinct,
    /// Backend-specific type kind.
    Other,
}

impl DeepView for TypeBody {
    type V = TypeBody;

    open spec fn deep_view(&self) -> TypeBody {
        *self
    }
}

/// The discriminant of each [`TypeBody`] on the wire.
pub open spec fn type_body_tag(a: TypeBody) -> u32 {
    match a {
        TypeBody::Enum => 0,
        TypeBody::Composite => 1,
        TypeBody::Distinct => 2,
        TypeBody::Other => 3,
    }
}

/// The [`TypeBody`] a discriminant stands for, if any.
pub open spec fn type_body_of(t: u32) -> Option<TypeBody> {
    if t == 0 {
        Some(TypeBody::Enum)
    } else if t == 1 {
        Some(TypeBody::Composite)
    } else if t == 2 {
        Some(TypeBody::Distinct)
    } else if t == 3 {
        Some(TypeBody::Other)
    } else {
        None
    }
}

impl Decode for TypeBody {
    open spec fn spec_decode(s: Seq<u8>) -> Decoded<TypeBody> {
        spec_decode_tag(s, |t: u32| type_body_of(t), "TypeBody")
    }

    proof fn lemma_decode_within(s: Seq<u8>) {
        lemma_read_varint_within(s);
    }

    proof fn lemma_decode_local(s: Seq<u8>, t: Seq<u8>) {
        lemma_reads_local(s, t);
    }

    open spec fn spec_need(s: Seq<u8>) -> nat {
        0
    }

    fn decode(reader: &mut Reader<'_>, budget: &mut Budget) -> (res: Result<TypeBody, DecodeError>) {
        match reader.read_varint_u32()? {
            0 => Ok(TypeBody::Enum),
            1 => Ok(TypeBody::Composite),
            2 => Ok(TypeBody::Distinct),
            3 => Ok(TypeBody::Other),
            seen => Err(DecodeError::InvalidVariant { kind: "TypeBody", seen }),
        }
    }
}

impl Encode for TypeBody {
    open spec fn spec_encode(a: TypeBody) -> Emitted {
        emit(varint_bytes(type_body_tag(a) as nat))
    }

    fn encode(&self, writer: &mut Writer) -> (res: Result<(), EncodeError>) {
        let t: u32 = match self {
            TypeBody::Enum => 0,
            TypeBody::Composite => 1,
            TypeBody::Distinct => 2,
            TypeBody::Other => 3,
        };
        writer.write_varint_u32(t)
    }
}

/// The stable wire discriminants of type bodies: `Enum` is written as byte
/// 0, `Composite` 1, `Distinct` 2 and `Other` 3, and each byte reads back as
/// that body, consuming one byte.
pub proof fn lemma_type_body_discriminants(s: Seq<u8>)
    ensures
        <TypeBody as Encode>::spec_encode(TypeBody::Enum) == emit(seq![0u8]),
        <TypeBody as Encode>::spec_encode(TypeBody::Composite) == emit(seq![1u8]),
        <TypeBody as Encode>::spec_encode(TypeBody::Distinct) == emit(seq![2u8]),
        <TypeBody as Encode>::spec_encode(TypeBody::Other) == emit(seq![3u8]),
        <TypeBody as Decode>::spec_decode(seq![0u8] + s) == (Ok::<TypeBody, DecodeError>(TypeBody::Enum), 1nat),
        <TypeBody as Decode>::spec_decode(seq![1u8] + s) == (Ok::<TypeBody, DecodeError>(TypeBody::Composite), 1nat),
        <TypeBody as Decode>::spec_decode(seq![2u8] + s) == (Ok::<TypeBody, DecodeError>(TypeBody::Distinct), 1nat),
        <TypeBody as Decode>::spec_decode(seq![3u8] + s) == (Ok::<TypeBody, DecodeError>(TypeBody::Other), 1nat),
{
    lemma_small_tag(0, s);
    lemma_small_tag(1, s);
    lemma_small_tag(2, s);
    lemma_small_tag(3, s);
}

impl Codec for TypeBody {
    open spec fn spec_fits(a: TypeBody) -> bool {
        true
    }

    proof fn lemma_round_trip(a: TypeBody, tail: Seq<u8>) {
        varint_u32_round_trip(type_body_tag(a), tail);
    }
}

/// An inline relation reference on a single field.
#[derive(Debug, Clone, PartialEq, Eq)]
pub struct RelationRef {
    /// Target entity name.
    pub entity: String,
    /// Target field within `entity`.
    pub field: String,
    /// Action to take when the referenced record is deleted.
    pub on_delete: RefAction,
    /// Action to take when the referenced record is updated.
    pub on_update: RefAction,
}

/// What a [`RelationRef`] denotes.
pub struct RelationRefModel {
    pub entity: Seq<char>,
    pub field: Seq<char>,
    pub on_delete: RefAction,
    pub on_update: RefAction,
}

impl DeepView for RelationRef {
    type V = RelationRefModel;

    open spec fn deep_view(&self) -> RelationRefModel {
        RelationRefModel {
            entity: self.entity@,
            field: self.field@,
            on_delete: self.on_delete,
            on_update: self.on_update,
        }
    }
}

impl RelationRef {
    /// A reference to `field` of `entity`, forbidding both deletes and
    /// updates of the referenced record.
    pub fn new<E: IntoText, F: IntoText>(entity: E, field: F) -> (r: Self)
        ensures
            r.entity@ == entity.text(),
            r.field@ == field.text(),
            r.on_delete == RefAction::Forbid,
            r.on_update == RefAction::Forbid,
    {
        RelationRef {
            entity: entity.into_text(),
            field: field.into_text(),
            on_delete: RefAction::Forbid,
            on_update: RefAction::Forbid,
        }
    }

    /// The same reference with `action` on delete.
    pub fn on_delete(self, action: RefAction) -> (r: Self)
        ensures
            r == (RelationRef { on_delete: action, ..self }),
    {
        RelationRef { on_delete: action, ..self }
    }

    /// The same reference with `action` on update.
    pub fn on_update(self, action: RefAction) -> (r: Self)
        ensures
            r == (RelationRef { on_update: action, ..self }),
    {
        RelationRef { on_update: action, ..self }
    }
}

/// A relation reference on the wire: entity, field, on-delete, on-update.
pub type RelationRefWire = (String, (String, (RefAction, RefAction)));

/// The wire fields of a relation reference, in order.
pub open spec fn relation_ref_wire(m: RelationRefModel) -> (Seq<char>, (Seq<char>, (RefAction, RefAction))) {
    (m.entity, (m.field, (m.on_delete, m.on_update)))
}

/// The relation reference whose wire fields are `w`.
pub open spec fn relation_ref_from_wire(w: (Seq<char>, (Seq<char>, (RefAction, RefAction)))) -> RelationRefModel {
    RelationRefModel { entity: w.0, field: w.1.0, on_delete: w.1.1.0, on_update: w.1.1.1 }
}

impl Encode for RelationRef {
    open spec fn spec_encode(m: RelationRefModel) -> Emitted {
        <RelationRefWire as Encode>::spec_encode(relation_ref_wire(m))
    }

    fn encode(&self, writer: &mut Writer) -> (res: Result<(), EncodeError>) {
        self.entity.encode(writer)?;
        self.field.encode(writer)?;
        self.on_delete.encode(writer)?;
        self.on_update.encode(writer)
    }
}

/// The wire order of a relation reference: target entity, target field,
/// on-delete action, then on-update action.
pub proof fn lemma_relation_ref_wire_order(m: RelationRefModel)
    ensures
        <RelationRef as Encode>::spec_encode(m) == emit_then(
            <String as Encode>::spec_encode(m.entity),
            emit_then(
                <String as Encode>::spec_encode(m.field),
                emit_then(
                    <RefAction as Encode>::spec_encode(m.on_delete),
                    <RefAction as Encode>::spec_encode(m.on_update),
                ),
            ),
        ),
{
}

impl Decode for RelationRef {
    open spec fn spec_decode(s: Seq<u8>) -> Decoded<RelationRefModel> {
        mapped(
            <RelationRefWire as Decode>::spec_decode(s),
            |w: (Seq<char>, (Seq<char>, (RefAction, RefAction)))| relation_ref_from_wire(w),
        )
    }

    proof fn lemma_decode_within(s: Seq<u8>) {
        <RelationRefWire as Decode>::lemma_decode_within(s);
    }

    proof fn lemma_decode_local(s: Seq<u8>, t: Seq<u8>) {
        <RelationRefWire as Decode>::lemma_decode_local(s, t);
    }

    open spec fn spec_need(s: Seq<u8>) -> nat {
        <RelationRefWire as Decode>::spec_need(s)
    }

    fn decode(reader: &mut Reader<'_>, budget: &mut Budget) -> (res: Result<RelationRef, DecodeError>) {
        let (entity, (field, (on_delete, on_update))) = RelationRefWire::decode(reader, budget)?;
        Ok(RelationRef { entity, field, on_delete, on_update })
    }
}

impl Codec for RelationRef {
    open spec fn spec_fits(m: RelationRefModel) -> bool {
        <RelationRefWire as Codec>::spec_fits(relation_ref_wire(m))
    }

    proof fn lemma_round_trip(m: RelationRefModel, tail: Seq<u8>) {
        <RelationRefWire as Codec>::lemma_round_trip(relation_ref_wire(m), tail);
    }
}

/// An entity-level constraint.
#[derive(Debug, Clone, PartialEq, Eq)]
pub enum EntityConstraint {
    /// Uniqueness constraint over one or more fields.
    Unique(Vec<String>),
    /// A multi-field relation to another entity.
    Relation {
        /// Local fields participating in the relation.
        fields: Vec<String>,
        /// Target entity name.
        ref_entity: String,
        /// Target fields within `ref_entity`.
        ref_fields: Vec<String>,
        /// Action to take when the referenced record is deleted.
        on_delete: RefAction,
    },
    /// A boolean invariant expressed as text.
    Invariant(String),
    /// Composite identity constraint.
    Identity(Vec<String>),
}

/// What an [`EntityConstraint`] denotes.
pub enum EntityConstraintModel {
    Unique(Seq<Seq<char>>),
    Relation {
        fields: Seq<Seq<char>>,
        ref_entity: Seq<char>,
        ref_fields: Seq<Seq<char>>,
        on_delete: RefAction,
    },
    Invariant(Seq<char>),
    Identity(Seq<Seq<char>>),
}

impl DeepView for EntityConstraint {
    type V = EntityConstraintModel;

    open spec fn deep_view(&self) -> EntityConstraintModel {
        match self {
            EntityConstraint::Unique(v) => EntityConstraintModel::Unique(v.deep_view()),
            EntityConstraint::Relation { fields, ref_entity, ref_fields, on_delete } => {
                EntityConstraintModel::Relation {
                    fields: fields.deep_view(),
                    ref_entity: ref_entity@,
                    ref_fields: ref_fields.deep_view(),
                    on_delete: *on_delete,
                }
            },
            EntityConstraint::Invariant(e) => EntityConstraintModel::Invariant(e@),
            EntityConstraint::Identity(v) => EntityConstraintModel::Identity(v.deep_view()),
        }
    }
}

impl EntityConstraint {
    /// A uniqueness constraint over `fields`, in order.
    pub fn unique<const N: usize>(fields: [&str; N]) -> (r: Self)
        ensures
            r.deep_view() == EntityConstraintModel::Unique(texts(fields@)),
    {
        EntityConstraint::Unique(owned_texts(fields))
    }

    /// A composite identity over `fields`, in order.
    pub fn identity<const N: usize>(fields: [&str; N]) -> (r: Self)
        ensures
            r.deep_view() == EntityConstraintModel::Identity(texts(fields@)),
    {
        EntityConstraint::Identity(owned_texts(fields))
    }

    /// An invariant given by the boolean expression `expr`.
    pub fn invariant_expr<E: IntoText>(expr: E) -> (r: Self)
        ensures
            r.deep_view() == EntityConstraintModel::Invariant(expr.text()),
    {
        EntityConstraint::Invariant(expr.into_text())
    }

    /// A relation from the local `fields` to `ref_fields` of `ref_entity`.
    pub fn relation<const N: usize, const M: usize, E: IntoText>(
        fields: [&str; N],
        ref_entity: E,
        ref_fields: [&str; M],
        on_delete: RefAction,
    ) -> (r: Self)
        ensures
            r.deep_view() == (EntityConstraintModel::Relation {
                fields: texts(fields@),
                ref_entity: ref_entity.text(),
                ref_fields: texts(ref_fields@),
                on_delete,
            }),
    {
        EntityConstraint::Relation {
            fields: owned_texts(fields),
            ref_entity: ref_entity.into_text(),
            ref_fields: owned_texts(ref_fields),
            on_delete,
        }
    }
}

/// A relation constraint's payload on the wire: local fields, target
/// entity, target fields, on-delete action.
pub type RelationWire = (Vec<String>, (String, (Vec<String>, RefAction)));

/// The discriminant of each kind of [`EntityConstraint`] on the wire.
pub open spec fn entity_constraint_tag(m: EntityConstraintModel) -> u32 {
    match m {
        EntityConstraintModel::Unique(..) => 0,
        EntityConstraintModel::Relation { .. } => 1,
        EntityConstraintModel::Invariant(..) => 2,
        EntityConstraintModel::Identity(..) => 3,
    }
}

/// What follows a constraint's discriminant on the wire.
pub open spec fn spec_encode_constraint_payload(m: EntityConstraintModel) -> Emitted {
    match m {
        EntityConstraintModel::Unique(v) => <Vec<String> as Encode>::spec_encode(v),
        EntityConstraintModel::Relation { fields, ref_entity, ref_fields, on_delete } => {
            <RelationWire as Encode>::spec_encode((fields, (ref_entity, (ref_fields, on_delete))))
        },
        EntityConstraintModel::Invariant(e) => spec_encode_string(e),
        EntityConstraintModel::Identity(v) => <Vec<String> as Encode>::spec_encode(v),
    }
}

/// How many budget levels the payload after discriminant `t` needs.
pub open spec fn spec_need_constraint_payload(t: u32, s: Seq<u8>) -> nat {
    if t == 0 || t == 3 {
        <Vec<String> as Decode>::spec_need(s)
    } else if t == 1 {
        <RelationWire as Decode>::spec_need(s)
    } else {
        0
    }
}

/// The payload that follows constraint discriminant `t`.
pub open spec fn spec_decode_constraint_payload(t: u32, s: Seq<u8>) -> Decoded<EntityConstraintModel> {
    if t == 0 {
        mapped(<Vec<String> as Decode>::spec_decode(s), |v: Seq<Seq<char>>| EntityConstraintModel::Unique(v))
    } else if t == 1 {
        mapped(
            <RelationWire as Decode>::spec_decode(s),
            |w: (Seq<Seq<char>>, (Seq<char>, (Seq<Seq<char>>, RefAction)))|
                EntityConstraintModel::Relation {
                    fields: w.0,
                    ref_entity: w.1.0,
                    ref_fields: w.1.1.0,
                    on_delete: w.1.1.1,
                },
        )
    } else if t == 2 {
        mapped(spec_decode_string(s), |e: Seq<char>| EntityConstraintModel::Invariant(e))
    } else if t == 3 {
        mapped(<Vec<String> as Decode>::spec_decode(s), |v: Seq<Seq<char>>| EntityConstraintModel::Identity(v))
    } else {
        (Err(DecodeError::InvalidVariant { kind: "EntityConstraint", seen: t }), 0)
    }
}

impl Encode for EntityConstraint {
    open spec fn spec_encode(m: EntityConstraintModel) -> Emitted {
        emit_then(emit(varint_bytes(entity_constraint_tag(m) as nat)), spec_encode_constraint_payload(m))
    }

    fn encode(&self, writer: &mut Writer) -> (res: Result<(), EncodeError>) {
        match self {
            EntityConstraint::Unique(v) => {
                writer.write_varint_u32(0)?;
                v.encode(writer)
            },
            EntityConstraint::Relation { fields, ref_entity, ref_fields, on_delete } => {
                writer.write_varint_u32(1)?;
                fields.encode(writer)?;
                ref_entity.encode(writer)?;
                ref_fields.encode(writer)?;
                on_delete.encode(writer)
            },
            EntityConstraint::Invariant(e) => {
                writer.write_varint_u32(2)?;
                e.encode(writer)
            },
            EntityConstraint::Identity(v) => {
                writer.write_varint_u32(3)?;
                v.encode(writer)
            },
        }
    }
}

impl Decode for EntityConstraint {
    open spec fn spec_decode(s: Seq<u8>) -> Decoded<EntityConstraintModel> {
        and_then(
            spec_read_varint_u32(s),
            s,
            |t: u32, rest: Seq<u8>| spec_decode_constraint_payload(t, rest),
        )
    }

    proof fn lemma_decode_within(s: Seq<u8>) {
        lemma_read_varint_within(s);
        let d = spec_read_varint_u32(s);
        let rest = s.skip(d.1 as int);
        <Vec<String> as Decode>::lemma_decode_within(rest);
        <RelationWire as Decode>::lemma_decode_within(rest);
        <String as Decode>::lemma_decode_within(rest);
    }

    #[verifier::rlimit(60)]
    proof fn lemma_decode_local(s: Seq<u8>, t: Seq<u8>) {
        lemma_read_varint_within(s);
        let d = spec_read_varint_u32(s);
        let tag = d.0->Ok_0;
        let rest = s.skip(d.1 as int);
        <Vec<String> as Decode>::lemma_decode_within(rest);
        <RelationWire as Decode>::lemma_decode_within(rest);
        <String as Decode>::lemma_decode_within(rest);
        let p = spec_decode_constraint_payload(tag, rest);
        let t2 = rest.take(p.1 as int) + t;
        lemma_reads_local(s, t2);
        if tag == 0 || tag == 3 {
            <Vec<String> as Decode>::lemma_decode_local(rest, t);
        } else if tag == 1 {
            <RelationWire as Decode>::lemma_decode_local(rest, t);
        } else {
            <String as Decode>::lemma_decode_local(rest, t);
        }
        let u = s.take((d.1 + p.1) as int) + t;
        assert(u =~= s.take(d.1 as int) + t2);
        assert(u.skip(d.1 as int) =~= t2);
    }

    open spec fn spec_need(s: Seq<u8>) -> nat {
        match spec_read_varint_u32(s).0 {
            Ok(t) => spec_need_constraint_payload(t, s.skip(spec_read_varint_u32(s).1 as int)),
            Err(_) => 0,
        }
    }

    #[verifier::rlimit(60)]
    fn decode(reader: &mut Reader<'_>, budget: &mut Budget) -> (res: Result<EntityConstraint, DecodeError>) {
        let ghost r0 = *reader;
        let t = reader.read_varint_u32()?;
        proof {
            r0.lemma_rest_after(*reader, spec_read_varint_u32(r0.rest()).1);
        }
        match t {
            0 => {
                let v = Vec::<String>::decode(reader, budget)?;
                Ok(EntityConstraint::Unique(v))
            },
            1 => {
                let (fields, (ref_entity, (ref_fields, on_delete))) = RelationWire::decode(reader, budget)?;
                Ok(EntityConstraint::Relation { fields, ref_entity, ref_fields, on_delete })
            },
            2 => {
                let e = String::decode(reader, budget)?;
                Ok(EntityConstraint::Invariant(e))
            },
            3 => {
                let v = Vec::<String>::decode(reader, budget)?;
                Ok(EntityConstraint::Identity(v))
            },
            seen => Err(DecodeError::InvalidVariant { kind: "EntityConstraint", seen }),
        }
    }
}

/// The stable wire discriminants of entity constraints: a unique constraint
/// is written as byte 0 then its fields, a relation as byte 1 then its
/// payload, an invariant as byte 2 then its text, an identity as byte 3 then
/// its fields; and bytes opening with 0, 1, 2 or 3 read back as that kind.
pub proof fn lemma_entity_constraint_discriminants(m: EntityConstraintModel, s: Seq<u8>)
    ensures
        m matches EntityConstraintModel::Unique(v) ==> <EntityConstraint as Encode>::spec_encode(m) == emit_then(
            emit(seq![0u8]),
            <Vec<String> as Encode>::spec_encode(v),
        ),
        m matches EntityConstraintModel::Relation { fields, ref_entity, ref_fields, on_delete } ==> <EntityConstraint as Encode>::spec_encode(m)
            == emit_then(
            emit(seq![1u8]),
            <RelationWire as Encode>::spec_encode((fields, (ref_entity, (ref_fields, on_delete)))),
        ),
        m matches EntityConstraintModel::Invariant(e) ==> <EntityConstraint as Encode>::spec_encode(m) == emit_then(
            emit(seq![2u8]),
            spec_encode_string(e),
        ),
        m matches EntityConstraintModel::Identity(v) ==> <EntityConstraint as Encode>::spec_encode(m) == emit_then(
            emit(seq![3u8]),
            <Vec<String> as Encode>::spec_encode(v),
        ),
        <EntityConstraint as Decode>::spec_decode(seq![0u8] + s).0 == match <Vec<String> as Decode>::spec_decode(s).0 {
            Ok(v) => Ok::<EntityConstraintModel, DecodeError>(EntityConstraintModel::Unique(v)),
            Err(e) => Err(e),
        },
        <EntityConstraint as Decode>::spec_decode(seq![1u8] + s).0 matches Ok(c) ==> c is Relation,
        <EntityConstraint as Decode>::spec_decode(seq![2u8] + s).0 == match spec_decode_string(s).0 {
            Ok(e) => Ok::<EntityConstraintModel, DecodeError>(EntityConstraintModel::Invariant(e)),
            Err(e) => Err(e),
        },
        <EntityConstraint as Decode>::spec_decode(seq![3u8] + s).0 == match <Vec<String> as Decode>::spec_decode(s).0 {
            Ok(v) => Ok::<EntityConstraintModel, DecodeError>(EntityConstraintModel::Identity(v)),
            Err(e) => Err(e),
        },
{
    lemma_small_tag(0, s);
    lemma_small_tag(1, s);
    lemma_small_tag(2, s);
    lemma_small_tag(3, s);
    assert((seq![0u8] + s).skip(1) =~= s);
    assert((seq![1u8] + s).skip(1) =~= s);
    assert((seq![2u8] + s).skip(1) =~= s);
    assert((seq![3u8] + s).skip(1) =~= s);
}

impl Codec for EntityConstraint {
    open spec fn spec_fits(m: EntityConstraintModel) -> bool {
        match m {
            EntityConstraintModel::Unique(v) => <Vec<String> as Codec>::spec_fits(v),
            EntityConstraintModel::Relation { fields, ref_entity, ref_fields, on_delete } => {
                <RelationWire as Codec>::spec_fits((fields, (ref_entity, (ref_fields, on_delete))))
            },
            EntityConstraintModel::Invariant(e) => <String as Codec>::spec_fits(e),
            EntityConstraintModel::Identity(v) => <Vec<String> as Codec>::spec_fits(v),
        }
    }

    proof fn lemma_round_trip(m: EntityConstraintModel, tail: Seq<u8>) {
        let t = entity_constraint_tag(m);
        let tb = varint_bytes(t as nat);
        let p = spec_encode_constraint_payload(m).0;
        lemma_constraint_payload_round_trip(m, tail);
        varint_u32_round_trip(t, p + tail);
        let s = tb + p + tail;
        assert(s =~= tb + (p + tail));
        assert(s.skip(tb.len() as int) =~= p + tail);
    }
}

/// A constraint's payload decodes back after its discriminant.
proof fn lemma_constraint_payload_round_trip(m: EntityConstraintModel, tail: Seq<u8>)
    requires
        EntityConstraint::spec_fits(m),
    ensures
        spec_encode_constraint_payload(m).1,
        spec_decode_constraint_payload(entity_constraint_tag(m), spec_encode_constraint_payload(m).0 + tail) == (
            Ok::<EntityConstraintModel, DecodeError>(m),
            spec_encode_constraint_payload(m).0.len(),
        ),
{
    match m {
        EntityConstraintModel::Unique(v) => {
            <Vec<String> as Codec>::lemma_round_trip(v, tail);
        },
        EntityConstraintModel::Relation { fields, ref_entity, ref_fields, on_delete } => {
            <RelationWire as Codec>::lemma_round_trip((fields, (ref_entity, (ref_fields, on_delete))), tail);
        },
        EntityConstraintModel::Invariant(e) => {
            <String as Codec>::lemma_round_trip(e, tail);
        },
        EntityConstraintModel::Identity(v) => {
            <Vec<String> as Codec>::lemma_round_trip(v, tail);
        },
    }
}

/// Catalog identifier. `0` is the program's own embedded catalog.
#[derive(Clone, Copy, Debug, Default, PartialEq, Eq, Hash, PartialOrd, Ord, Structural)]
pub struct CatalogId(
    /// Raw catalog index.
    pub u32,
);

impl CatalogId {
    /// The program's own embedded catalog.
    pub fn self_catalog() -> (c: Self)
        ensures
            c.0 == 0,
    {
        CatalogId(0)
    }

    /// A catalog id from a raw index.
    pub fn new(id: u32) -> (c: Self)
        ensures
            c.0 == id,
    {
        CatalogId(id)
    }

    /// The raw catalog index.
    pub fn raw(self) -> (id: u32)
        ensures
            id == self.0,
    {
        self.0
    }
}

impl From<u32> for CatalogId {
    fn from(v: u32) -> (c: Self) {
        CatalogId(v)
    }
}

impl vstd::std_specs::convert::FromSpecImpl<u32> for CatalogId {
    open spec fn obeys_from_spec() -> bool {
        true
    }

    open spec fn from_spec(v: u32) -> CatalogId {
        CatalogId(v)
    }
}

/// Schema identifier within a catalog.
#[derive(Clone, Copy, Debug, Default, PartialEq, Eq, Hash, PartialOrd, Ord, Structural)]
pub struct SchemaId(
    /// Raw schema index within the catalog.
    pub u32,
);

impl SchemaId {
    /// A schema id from a raw index.
    pub fn new(id: u32) -> (s: Self)
        ensures
            s.0 == id,
    {
        SchemaId(id)
    }

    /// The raw schema index.
    pub fn raw(self) -> (id: u32)
        ensures
            id == self.0,
    {
        self.0
    }
}

impl From<u32> for SchemaId {
    fn from(v: u32) -> (s: Self) {
        SchemaId(v)
    }
}

impl vstd::std_specs::convert::FromSpecImpl<u32> for SchemaId {
    open spec fn obeys_from_spec() -> bool {
        true
    }

    open spec fn from_spec(v: u32) -> SchemaId {
        SchemaId(v)
    }
}

/// Reference to a schema in a catalog.
#[derive(Clone, Copy, Debug, Default, PartialEq, Eq, Hash, Structural)]
pub struct SchemaRef {
    /// Which catalog this schema belongs to.
    pub catalog: CatalogId,
    /// Index within that catalog.
    pub schema: SchemaId,
}

impl SchemaRef {
    /// A reference to `schema` in `catalog`.
    pub fn new(catalog: CatalogId, schema: SchemaId) -> (r: Self)
        ensures
            r.catalog == catalog,
            r.schema == schema,
    {
        SchemaRef { catalog, schema }
    }

    /// A reference to `schema` in the program's own embedded catalog.
    pub fn local(schema: SchemaId) -> (r: Self)
        ensures
            r.catalog.0 == 0,
            r.schema == schema,
    {
        SchemaRef { catalog: CatalogId::self_catalog(), schema }
    }
}

impl DeepView for CatalogId {
    type V = CatalogId;

    open spec fn deep_view(&self) -> CatalogId {
        *self
    }
}

impl DeepView for SchemaId {
    type V = SchemaId;

    open spec fn deep_view(&self) -> SchemaId {
        *self
    }
}

impl DeepView for SchemaRef {
    type V = SchemaRef;

    open spec fn deep_view(&self) -> SchemaRef {
        *self
    }
}

impl Encode for CatalogId {
    open spec fn spec_encode(c: CatalogId) -> Emitted {
        emit(varint_bytes(c.0 as nat))
    }

    fn encode(&self, writer: &mut Writer) -> (res: Result<(), EncodeError>) {
        writer.write_varint_u32(self.0)
    }
}

impl Decode for CatalogId {
    open spec fn spec_decode(s: Seq<u8>) -> Decoded<CatalogId> {
        mapped(spec_read_varint_u32(s), |v: u32| CatalogId(v))
    }

    proof fn lemma_decode_within(s: Seq<u8>) {
        lemma_read_varint_within(s);
    }

    proof fn lemma_decode_local(s: Seq<u8>, t: Seq<u8>) {
        lemma_reads_local(s, t);
    }

    open spec fn spec_need(s: Seq<u8>) -> nat {
        0
    }

    fn decode(reader: &mut Reader<'_>, budget: &mut Budget) -> (res: Result<CatalogId, DecodeError>) {
        let v = reader.read_varint_u32()?;
        Ok(CatalogId(v))
    }
}

impl Codec for CatalogId {
    open spec fn spec_fits(c: CatalogId) -> bool {
        true
    }

    proof fn lemma_round_trip(c: CatalogId, tail: Seq<u8>) {
        varint_u32_round_trip(c.0, tail);
    }
}

impl Encode for SchemaId {
    open spec fn spec_encode(s: SchemaId) -> Emitted {
        emit(varint_bytes(s.0 as nat))
    }

    fn encode(&self, writer: &mut Writer) -> (res: Result<(), EncodeError>) {
        writer.write_varint_u32(self.0)
    }
}

impl Decode for SchemaId {
    open spec fn spec_decode(s: Seq<u8>) -> Decoded<SchemaId> {
        mapped(spec_read_varint_u32(s), |v: u32| SchemaId(v))
    }

    proof fn lemma_decode_within(s: Seq<u8>) {
        lemma_read_varint_within(s);
    }

    proof fn lemma_decode_local(s: Seq<u8>, t: Seq<u8>) {
        lemma_reads_local(s, t);
    }

    open spec fn spec_need(s: Seq<u8>) -> nat {
        0
    }

    fn decode(reader: &mut Reader<'_>, budget: &mut Budget) -> (res: Result<SchemaId, DecodeError>) {
        let v = reader.read_varint_u32()?;
        Ok(SchemaId(v))
    }
}

impl Codec for SchemaId {
    open spec fn spec_fits(s: SchemaId) -> bool {
        true
    }

    proof fn lemma_round_trip(s: SchemaId, tail: Seq<u8>) {
        varint_u32_round_trip(s.0, tail);
    }
}

impl Encode for SchemaRef {
    open spec fn spec_encode(r: SchemaRef) -> Emitted {
        emit_then(CatalogId::spec_encode(r.catalog), SchemaId::spec_encode(r.schema))
    }

    fn encode(&self, writer: &mut Writer) -> (res: Result<(), EncodeError>) {
        self.catalog.encode(writer)?;
        self.schema.encode(writer)
    }
}

impl Decode for SchemaRef {
    open spec fn spec_decode(s: Seq<u8>) -> Decoded<SchemaRef> {
        mapped(
            <(CatalogId, SchemaId) as Decode>::spec_decode(s),
            |p: (CatalogId, SchemaId)| SchemaRef { catalog: p.0, schema: p.1 },
        )
    }

    proof fn lemma_decode_within(s: Seq<u8>) {
        <(CatalogId, SchemaId) as Decode>::lemma_decode_within(s);
    }

    proof fn lemma_decode_local(s: Seq<u8>, t: Seq<u8>) {
        <(CatalogId, SchemaId) as Decode>::lemma_decode_local(s, t);
    }

    open spec fn spec_need(s: Seq<u8>) -> nat {
        <(CatalogId, SchemaId) as Decode>::spec_need(s)
    }

    fn decode(reader: &mut Reader<'_>, budget: &mut Budget) -> (res: Result<SchemaRef, DecodeError>) {
        let (catalog, schema) = <(CatalogId, SchemaId)>::decode(reader, budget)?;
        Ok(SchemaRef { catalog, schema })
    }
}

impl Codec for SchemaRef {
    open spec fn spec_fits(r: SchemaRef) -> bool {
        true
    }

    proof fn lemma_round_trip(r: SchemaRef, tail: Seq<u8>) {
        <(CatalogId, SchemaId) as Codec>::lemma_round_trip((r.catalog, r.schema), tail);
    }
}

} // verus!
