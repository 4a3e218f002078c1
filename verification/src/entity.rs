//! Entities and their fields: declarative builders, lookups, and the wire
//! encoding.
//!
//! A field travels as its members in declaration order; an entity as its
//! name, namespace, fields and constraints.
use crate::codec::Codec;
use crate::data_type::{DataType, DataTypeModel};
use crate::decoder::{Budget, mapped, Decode, DecodeError, Decoded, Reader};
use crate::encoder::{emit_then, EncodeError, Emitted, Encode, Writer};
use crate::schema::{
    ComputedKind, EntityConstraint, EntityConstraintModel, IntoText, RefAction, RelationRef,
    RelationRefModel,
};
use vstd::prelude::*;

verus! {

/// One field of an entity.
#[derive(Debug, PartialEq, Eq)]
pub struct Field {
    /// Field name.
    pub name: String,
    /// Field type.
    pub data_type: DataType,
    /// Whether the field is part of the entity's identity.
    pub identity: bool,
    /// Whether the field may be null.
    pub nullable: bool,
    /// Whether the field has a default value.
    pub has_default: bool,
    /// The default value's expression, if given.
    pub default_expr: Option<String>,
    /// Whether values of the field are unique.
    pub unique: bool,
    /// The record this field refers to, if any.
    pub references: Option<RelationRef>,
    /// A check expression on the field, if any.
    pub check: Option<String>,
    /// A comment on the field, if any.
    pub comment: Option<String>,
    /// The collation of the field, if any.
    pub collation: Option<String>,
    /// How and from what expression the field is computed, if it is.
    pub generated: Option<(ComputedKind, String)>,
    /// Whether the field is indexed for lookups.
    pub lookup: bool,
    /// Whether the store assigns the field's value.
    pub auto_assign: bool,
}

/// What a [`Field`] denotes.
pub struct FieldModel {
    pub name: Seq<char>,
    pub data_type: DataTypeModel,
    pub identity: bool,
    pub nullable: bool,
    pub has_default: bool,
    pub default_expr: Option<Seq<char>>,
    pub unique: bool,
    pub references: Option<RelationRefModel>,
    pub check: Option<Seq<char>>,
    pub comment: Option<Seq<char>>,
    pub collation: Option<Seq<char>>,
    pub generated: Option<(ComputedKind, Seq<char>)>,
    pub lookup: bool,
    pub auto_assign: bool,
}

impl DeepView for Field {
    type V = FieldModel;

    open spec fn deep_view(&self) -> FieldModel {
        FieldModel {
            name: self.name@,
            data_type: self.data_type.deep_view(),
            identity: self.identity,
            nullable: self.nullable,
            has_default: self.has_default,
            default_expr: self.default_expr.deep_view(),
            unique: self.unique,
            references: self.references.deep_view(),
            check: self.check.deep_view(),
            comment: self.comment.deep_view(),
            collation: self.collation.deep_view(),
            generated: self.generated.deep_view(),
            lookup: self.lookup,
            auto_assign: self.auto_assign,
        }
    }
}

/// A field on the wire: its members in declaration order.
pub type FieldWire = (String, (DataType, (bool, (bool, (bool, (Option<String>, (bool, (Option<RelationRef>, (Option<String>, (Option<String>, (Option<String>, (Option<(ComputedKind, String)>, (bool, bool)))))))))))));

/// The wire members of a field, in order.
pub open spec fn field_wire(m: FieldModel) -> (Seq<char>, (DataTypeModel, (bool, (bool, (bool, (Option<Seq<char>>, (bool, (Option<RelationRefModel>, (Option<Seq<char>>, (Option<Seq<char>>, (Option<Seq<char>>, (Option<(ComputedKind, Seq<char>)>, (bool, bool))))))))))))) {
    (m.name, (m.data_type, (m.identity, (m.nullable, (m.has_default, (m.default_expr, (m.unique, (m.references, (m.check, (m.comment, (m.collation, (m.generated, (m.lookup, m.auto_assign)))))))))))))
}

/// The field whose wire members are `w`.
pub open spec fn field_from_wire(w: (Seq<char>, (DataTypeModel, (bool, (bool, (bool, (Option<Seq<char>>, (bool, (Option<RelationRefModel>, (Option<Seq<char>>, (Option<Seq<char>>, (Option<Seq<char>>, (Option<(ComputedKind, Seq<char>)>, (bool, bool)))))))))))))) -> FieldModel {
    FieldModel {
        name: w.0,
        data_type: w.1.0,
        identity: w.1.1.0,
        nullable: w.1.1.1.0,
        has_default: w.1.1.1.1.0,
        default_expr: w.1.1.1.1.1.0,
        unique: w.1.1.1.1.1.1.0,
        references: w.1.1.1.1.1.1.1.0,
        check: w.1.1.1.1.1.1.1.1.0,
        comment: w.1.1.1.1.1.1.1.1.1.0,
        collation: w.1.1.1.1.1.1.1.1.1.1.0,
        generated: w.1.1.1.1.1.1.1.1.1.1.1.0,
        lookup: w.1.1.1.1.1.1.1.1.1.1.1.1.0,
        auto_assign: w.1.1.1.1.1.1.1.1.1.1.1.1.1,
    }
}

impl Encode for Field {
    open spec fn spec_encode(m: FieldModel) -> Emitted {
        <FieldWire as Encode>::spec_encode(field_wire(m))
    }

    fn encode(&self, writer: &mut Writer) -> (res: Result<(), EncodeError>) {
        (&self.name, (&self.data_type, (&self.identity, (&self.nullable, (&self.has_default, (&self.default_expr, (&self.unique, (&self.references, (&self.check, (&self.comment, (&self.collation, (&self.generated, (&self.lookup, &self.auto_assign))))))))))))).encode(writer)
    }
}

/// The wire order of a field's members: name, type, identity, nullability,
/// whether it has a default, the default, uniqueness, the reference, the
/// check, the comment, the collation, the generation rule, lookup and
/// auto-assignment, each written as its own type is.
pub proof fn lemma_field_wire_order(m: FieldModel)
    ensures
        <Field as Encode>::spec_encode(m) == emit_then(
            <String as Encode>::spec_encode(m.name),
            emit_then(
                <DataType as Encode>::spec_encode(m.data_type),
                emit_then(
                    <bool as Encode>::spec_encode(m.identity),
                    emit_then(
                        <bool as Encode>::spec_encode(m.nullable),
                        emit_then(
                            <bool as Encode>::spec_encode(m.has_default),
                            emit_then(
                                <Option<String> as Encode>::spec_encode(m.default_expr),
                                emit_then(
                                    <bool as Encode>::spec_encode(m.unique),
                                    emit_then(
                                        <Option<RelationRef> as Encode>::spec_encode(m.references),
                                        emit_then(
                                            <Option<String> as Encode>::spec_encode(m.check),
                                            emit_then(
                                                <Option<String> as Encode>::spec_encode(m.comment),
                                                emit_then(
                                                    <Option<String> as Encode>::spec_encode(m.collation),
                                                    emit_then(
                                                        <Option<(ComputedKind, String)> as Encode>::spec_encode(
                                                            m.generated,
                                                        ),
                                                        emit_then(
                                                            <bool as Encode>::spec_encode(m.lookup),
                                                            <bool as Encode>::spec_encode(m.auto_assign),
                                                        ),
                                                    ),
                                                ),
                                            ),
                                        ),
                                    ),
                                ),
                            ),
                        ),
                    ),
                ),
            ),
        ),
{
}

impl Decode for Field {
    open spec fn spec_decode(s: Seq<u8>) -> Decoded<FieldModel> {
        mapped(<FieldWire as Decode>::spec_decode(s), |w: (Seq<char>, (DataTypeModel, (bool, (bool, (bool, (Option<Seq<char>>, (bool, (Option<RelationRefModel>, (Option<Seq<char>>, (Option<Seq<char>>, (Option<Seq<char>>, (Option<(ComputedKind, Seq<char>)>, (bool, bool)))))))))))))| field_from_wire(w))
    }

    proof fn lemma_decode_within(s: Seq<u8>) {
        <FieldWire as Decode>::lemma_decode_within(s);
    }

    proof fn lemma_decode_local(s: Seq<u8>, t: Seq<u8>) {
        <FieldWire as Decode>::lemma_decode_local(s, t);
    }

    open spec fn spec_need(s: Seq<u8>) -> nat {
        <FieldWire as Decode>::spec_need(s)
    }

    fn decode(reader: &mut Reader<'_>, budget: &mut Budget) -> (res: Result<Field, DecodeError>) {
        let (name, (data_type, (identity, (nullable, (has_default, (default_expr, (unique, (references, (check, (comment, (collation, (generated, (lookup, auto_assign))))))))))))) = FieldWire::decode(reader, budget)?;
        Ok(Field { name, data_type, identity, nullable, has_default, default_expr, unique, references, check, comment, collation, generated, lookup, auto_assign })
    }
}

impl Codec for Field {
    open spec fn spec_fits(m: FieldModel) -> bool {
        <FieldWire as Codec>::spec_fits(field_wire(m))
    }

    proof fn lemma_round_trip(m: FieldModel, tail: Seq<u8>) {
        <FieldWire as Codec>::lemma_round_trip(field_wire(m), tail);
    }
}

impl Field {
    /// A field named `name` of type `data_type`, with every flag off and
    /// no optional metadata.
    pub fn new<N: IntoText>(name: N, data_type: DataType) -> (f: Self)
        ensures
            f.name@ == name.text(),
            f.data_type == data_type,
            !f.identity,
            !f.nullable,
            !f.has_default,
            f.default_expr is None,
            !f.unique,
            f.references is None,
            f.check is None,
            f.comment is None,
            f.collation is None,
            f.generated is None,
            !f.lookup,
            !f.auto_assign,
    {
        Field {
            name: name.into_text(),
            data_type,
            identity: false,
            nullable: false,
            has_default: false,
            default_expr: None,
            unique: false,
            references: None,
            check: None,
            comment: None,
            collation: None,
            generated: None,
            lookup: false,
            auto_assign: false,
        }
    }

    /// The same field, marked part of the entity's identity.
    pub fn identity(self) -> (f: Self)
        ensures
            f == (Field { identity: true, ..self }),
    {
        Field { identity: true, ..self }
    }

    /// The same field, marked nullable.
    pub fn nullable(self) -> (f: Self)
        ensures
            f == (Field { nullable: true, ..self }),
    {
        Field { nullable: true, ..self }
    }

    /// The same field, marked nullable.
    pub fn optional(self) -> (f: Self)
        ensures
            f == (Field { nullable: true, ..self }),
    {
        Field { nullable: true, ..self }
    }

    /// The same field: fields are required unless marked otherwise.
    pub fn required(self) -> (f: Self)
        ensures
            f == self,
    {
        self
    }

    /// The same field, with unique values.
    pub fn unique(self) -> (f: Self)
        ensures
            f == (Field { unique: true, ..self }),
    {
        Field { unique: true, ..self }
    }

    /// The same field, marked as having a default whose expression is not
    /// recorded here.
    pub fn has_default(self) -> (f: Self)
        ensures
            f == (Field { has_default: true, ..self }),
    {
        Field { has_default: true, ..self }
    }

    /// The same field, defaulting to `expr`.
    pub fn default<E: IntoText>(self, expr: E) -> (f: Self)
        ensures
            f.default_expr matches Some(d) && d@ == expr.text(),
            f == (Field { has_default: true, default_expr: f.default_expr, ..self }),
    {
        Field { has_default: true, default_expr: Some(expr.into_text()), ..self }
    }

    /// The same field, with check expression `expr`.
    pub fn check<E: IntoText>(self, expr: E) -> (f: Self)
        ensures
            f.check matches Some(c) && c@ == expr.text(),
            f == (Field { check: f.check, ..self }),
    {
        Field { check: Some(expr.into_text()), ..self }
    }

    /// The same field, with comment `text`.
    pub fn comment<E: IntoText>(self, text: E) -> (f: Self)
        ensures
            f.comment matches Some(c) && c@ == text.text(),
            f == (Field { comment: f.comment, ..self }),
    {
        Field { comment: Some(text.into_text()), ..self }
    }

    /// The same field, with collation `collation`.
    pub fn collation<E: IntoText>(self, collation: E) -> (f: Self)
        ensures
            f.collation matches Some(c) && c@ == collation.text(),
            f == (Field { collation: f.collation, ..self }),
    {
        Field { collation: Some(collation.into_text()), ..self }
    }

    /// The same field, referring to `field` of `entity` with the given
    /// actions.
    pub fn references<E: IntoText, F: IntoText>(
        self,
        entity: E,
        field: F,
        on_delete: RefAction,
        on_update: RefAction,
    ) -> (f: Self)
        ensures
            f.references matches Some(r) && r.entity@ == entity.text() && r.field@ == field.text()
                && r.on_delete == on_delete && r.on_update == on_update,
            f == (Field { references: f.references, ..self }),
    {
        let r = RelationRef::new(entity, field).on_delete(on_delete).on_update(on_update);
        Field { references: Some(r), ..self }
    }

    /// The same field, referring to what `reference` names.
    pub fn references_full(self, reference: RelationRef) -> (f: Self)
        ensures
            f == (Field { references: Some(reference), ..self }),
    {
        Field { references: Some(reference), ..self }
    }

    /// The same field, materialized on write from `expr`.
    pub fn generated_stored<E: IntoText>(self, expr: E) -> (f: Self)
        ensures
            f.generated matches Some(g) && g.0 == ComputedKind::Materialized && g.1@ == expr.text(),
            f == (Field { generated: f.generated, ..self }),
    {
        Field { generated: Some((ComputedKind::Materialized, expr.into_text())), ..self }
    }

    /// The same field, computed on demand from `expr`.
    pub fn generated_virtual<E: IntoText>(self, expr: E) -> (f: Self)
        ensures
            f.generated matches Some(g) && g.0 == ComputedKind::OnDemand && g.1@ == expr.text(),
            f == (Field { generated: f.generated, ..self }),
    {
        Field { generated: Some((ComputedKind::OnDemand, expr.into_text())), ..self }
    }

    /// The same field, indexed for lookups.
    pub fn lookup(self) -> (f: Self)
        ensures
            f == (Field { lookup: true, ..self }),
    {
        Field { lookup: true, ..self }
    }

    /// The same field, with values the store assigns.
    pub fn auto_assign(self) -> (f: Self)
        ensures
            f == (Field { auto_assign: true, ..self }),
    {
        Field { auto_assign: true, ..self }
    }
}

/// A named collection of fields with constraints, optionally in a
/// namespace.
#[derive(Debug, PartialEq, Eq)]
pub struct Entity {
    /// Entity name.
    pub name: String,
    /// Namespace the entity lives in, if any.
    pub namespace: Option<String>,
    /// Fields, in declaration order.
    pub fields: Vec<Field>,
    /// Entity-level constraints.
    pub constraints: Vec<EntityConstraint>,
}

/// What an [`Entity`] denotes.
pub struct EntityModel {
    pub name: Seq<char>,
    pub namespace: Option<Seq<char>>,
    pub fields: Seq<FieldModel>,
    pub constraints: Seq<EntityConstraintModel>,
}

impl DeepView for Entity {
    type V = EntityModel;

    open spec fn deep_view(&self) -> EntityModel {
        EntityModel {
            name: self.name@,
            namespace: self.namespace.deep_view(),
            fields: self.fields.deep_view(),
            constraints: self.constraints.deep_view(),
        }
    }
}

/// `name`, qualified by `namespace` and a dot when there is one.
pub open spec fn qualified(name: Seq<char>, namespace: Option<Seq<char>>) -> Seq<char> {
    match namespace {
        Some(ns) => ns + seq!['.'] + name,
        None => name,
    }
}

/// `items` joined with `", "` between consecutive items.
pub open spec fn comma_joined(items: Seq<Seq<char>>) -> Seq<char>
    decreases items.len(),
{
    if items.len() == 0 {
        Seq::empty()
    } else if items.len() == 1 {
        items[0]
    } else {
        comma_joined(items.drop_last()) + seq![',', ' '] + items.last()
    }
}

/// The names of `fields`, in order.
pub open spec fn field_names_of(fields: Seq<Field>) -> Seq<Seq<char>> {
    Seq::new(fields.len(), |i: int| fields[i].name@)
}

/// `i` is the first position in `fields` of a field named `name`.
pub open spec fn first_named(fields: Seq<Field>, name: Seq<char>, i: int) -> bool {
    &&& 0 <= i < fields.len()
    &&& fields[i].name@ == name
    &&& forall|j: int| 0 <= j < i ==> fields[j].name@ != name
}

/// Some field of `fields` is named `name`.
pub open spec fn has_field_named(fields: Seq<Field>, name: Seq<char>) -> bool {
    exists|i: int| 0 <= i < fields.len() && fields[i].name@ == name
}

impl Entity {
    /// An entity named `name` with `fields`, no namespace and no
    /// constraints.
    pub fn new<N: IntoText>(name: N, fields: Vec<Field>) -> (e: Self)
        ensures
            e.name@ == name.text(),
            e.namespace is None,
            e.fields == fields,
            e.constraints@.len() == 0,
    {
        Entity { name: name.into_text(), namespace: None, fields, constraints: Vec::new() }
    }

    /// The same entity, in namespace `namespace`.
    pub fn with_namespace<N: IntoText>(self, namespace: N) -> (e: Self)
        ensures
            e.namespace matches Some(ns) && ns@ == namespace.text(),
            e == (Entity { namespace: e.namespace, ..self }),
    {
        Entity { namespace: Some(namespace.into_text()), ..self }
    }

    /// The same entity, with `constraints` in place of its constraints.
    pub fn with_constraints(self, constraints: Vec<EntityConstraint>) -> (e: Self)
        ensures
            e == (Entity { constraints, ..self }),
    {
        Entity { constraints, ..self }
    }

    /// The name qualified by the namespace: `"namespace.name"`, or the bare
    /// name when there is no namespace.
    pub fn qualified_name(&self) -> (q: String)
        ensures
            q@ == qualified(self.name@, self.namespace.deep_view()),
    {
        match &self.namespace {
            Some(ns) => {
                let mut q = ns.clone();
                q.append(".");
                q.append(self.name.as_str());
                proof {
                    reveal_strlit(".");
                }
                q
            },
            None => self.name.clone(),
        }
    }

    /// The first field named `name`. The entity must have one.
    pub fn field(&self, name: &str) -> (f: &Field)
        requires
            has_field_named(self.fields@, name@),
        ensures
            exists|i: int| first_named(self.fields@, name@, i) && *f == self.fields@[i],
    {
        let key = name.to_owned();
        let mut i: usize = 0;
        while i < self.fields.len()
            invariant
                i <= self.fields.len(),
                key@ == name@,
                has_field_named(self.fields@, name@),
                forall|j: int| 0 <= j < i ==> self.fields@[j].name@ != name@,
            decreases self.fields.len() - i,
        {
            if self.fields[i].name == key {
                assert(first_named(self.fields@, name@, i as int));
                return &self.fields[i];
            }
            i = i + 1;
        }
        proof {
            let k = choose|k: int| 0 <= k < self.fields.len() && self.fields@[k].name@ == name@;
            assert(self.fields@[k].name@ != name@);
        }
        &self.fields[0]
    }

    /// The first field named `name`, if there is one.
    pub fn try_field(&self, name: &str) -> (f: Option<&Field>)
        ensures
            f is None <==> !has_field_named(self.fields@, name@),
            f matches Some(x) ==> exists|i: int| first_named(self.fields@, name@, i) && *x == self.fields@[i],
    {
        let key = name.to_owned();
        let mut i: usize = 0;
        while i < self.fields.len()
            invariant
                i <= self.fields.len(),
                key@ == name@,
                forall|j: int| 0 <= j < i ==> self.fields@[j].name@ != name@,
            decreases self.fields.len() - i,
        {
            if self.fields[i].name == key {
                assert(first_named(self.fields@, name@, i as int));
                return Some(&self.fields[i]);
            }
            i = i + 1;
        }
        None
    }

    /// The field names, in declaration order.
    pub fn field_names(&self) -> (names: Vec<&str>)
        ensures
            names@.len() == self.fields@.len(),
            forall|i: int| 0 <= i < names@.len() ==> names@[i]@ == self.fields@[i].name@,
    {
        let mut names: Vec<&str> = Vec::new();
        let mut i: usize = 0;
        while i < self.fields.len()
            invariant
                i <= self.fields.len(),
                names@.len() == i,
                forall|j: int| 0 <= j < i ==> names@[j]@ == self.fields@[j].name@,
            decreases self.fields.len() - i,
        {
            names.push(self.fields[i].name.as_str());
            i = i + 1;
        }
        names
    }

    /// The identity fields, in declaration order.
    pub fn identity_fields(&self) -> (fs: Vec<&Field>)
        ensures
            fs@.map_values(|f: &Field| *f) == self.fields@.filter(|f: Field| f.identity),
    {
        let fs = self.fields_where(true);
        assert((|f: Field| f.identity == true) =~= (|f: Field| f.identity));
        fs
    }

    /// The fields outside the identity, in declaration order.
    pub fn non_identity_fields(&self) -> (fs: Vec<&Field>)
        ensures
            fs@.map_values(|f: &Field| *f) == self.fields@.filter(|f: Field| !f.identity),
    {
        let fs = self.fields_where(false);
        assert((|f: Field| f.identity == false) =~= (|f: Field| !f.identity));
        fs
    }

    /// The fields whose identity flag is `identity`, in declaration order.
    fn fields_where(&self, identity: bool) -> (fs: Vec<&Field>)
        ensures
            fs@.map_values(|f: &Field| *f) == self.fields@.filter(|f: Field| f.identity == identity),
    {
        let ghost pred = |f: Field| f.identity == identity;
        let mut fs: Vec<&Field> = Vec::new();
        let mut i: usize = 0;
        proof {
            reveal(Seq::filter);
            assert(self.fields@.take(0) =~= Seq::<Field>::empty());
        }
        while i < self.fields.len()
            invariant
                i <= self.fields.len(),
                pred == (|f: Field| f.identity == identity),
                fs@.map_values(|f: &Field| *f) == self.fields@.take(i as int).filter(pred),
            decreases self.fields.len() - i,
        {
            proof {
                reveal(Seq::filter);
                assert(self.fields@.take(i + 1 as int).drop_last() =~= self.fields@.take(i as int));
            }
            if self.fields[i].identity == identity {
                fs.push(&self.fields[i]);
            }
            i = i + 1;
        }
        proof {
            assert(self.fields@.take(i as int) =~= self.fields@);
        }
        fs
    }

    /// The field names joined by `", "`, in declaration order.
    pub fn field_list(&self) -> (s: String)
        ensures
            s@ == comma_joined(field_names_of(self.fields@)),
    {
        let mut s = String::new();
        let mut i: usize = 0;
        proof {
            reveal_strlit(", ");
        }
        while i < self.fields.len()
            invariant
                i <= self.fields.len(),
                s@ == comma_joined(field_names_of(self.fields@).take(i as int)),
                ", "@ == seq![',', ' '],
            decreases self.fields.len() - i,
        {
            let ghost names = field_names_of(self.fields@);
            proof {
                assert(names.take(i + 1 as int).drop_last() =~= names.take(i as int));
            }
            if i > 0 {
                s.append(", ");
            }
            s.append(self.fields[i].name.as_str());
            proof {
                if i == 0 {
                    assert(s@ =~= names.take(1)[0]);
                }
            }
            i = i + 1;
        }
        proof {
            assert(field_names_of(self.fields@).take(i as int) =~= field_names_of(self.fields@));
        }
        s
    }
}

/// An entity on the wire: name, namespace, fields, constraints.
pub type EntityWire = (String, (Option<String>, (Vec<Field>, Vec<EntityConstraint>)));

/// The wire members of an entity, in order.
pub open spec fn entity_wire(m: EntityModel) -> (Seq<char>, (Option<Seq<char>>, (Seq<FieldModel>, Seq<EntityConstraintModel>))) {
    (m.name, (m.namespace, (m.fields, m.constraints)))
}

/// The entity whose wire members are `w`.
pub open spec fn entity_from_wire(w: (Seq<char>, (Option<Seq<char>>, (Seq<FieldModel>, Seq<EntityConstraintModel>)))) -> EntityModel {
    EntityModel { name: w.0, namespace: w.1.0, fields: w.1.1.0, constraints: w.1.1.1 }
}

impl Encode for Entity {
    open spec fn spec_encode(m: EntityModel) -> Emitted {
        <EntityWire as Encode>::spec_encode(entity_wire(m))
    }

    fn encode(&self, writer: &mut Writer) -> (res: Result<(), EncodeError>) {
        self.name.encode(writer)?;
        self.namespace.encode(writer)?;
        self.fields.encode(writer)?;
        self.constraints.encode(writer)
    }
}

/// The wire order of an entity's members: name, namespace, fields, then
/// constraints.
pub proof fn lemma_entity_wire_order(m: EntityModel)
    ensures
        <Entity as Encode>::spec_encode(m) == emit_then(
            <String as Encode>::spec_encode(m.name),
            emit_then(
                <Option<String> as Encode>::spec_encode(m.namespace),
                emit_then(
                    <Vec<Field> as Encode>::spec_encode(m.fields),
                    <Vec<EntityConstraint> as Encode>::spec_encode(m.constraints),
                ),
            ),
        ),
{
}

impl Decode for Entity {
    open spec fn spec_decode(s: Seq<u8>) -> Decoded<EntityModel> {
        mapped(
            <EntityWire as Decode>::spec_decode(s),
            |w: (Seq<char>, (Option<Seq<char>>, (Seq<FieldModel>, Seq<EntityConstraintModel>)))| entity_from_wire(w),
        )
    }

    proof fn lemma_decode_within(s: Seq<u8>) {
        <EntityWire as Decode>::lemma_decode_within(s);
    }

    proof fn lemma_decode_local(s: Seq<u8>, t: Seq<u8>) {
        <EntityWire as Decode>::lemma_decode_local(s, t);
    }

    open spec fn spec_need(s: Seq<u8>) -> nat {
        <EntityWire as Decode>::spec_need(s)
    }

    fn decode(reader: &mut Reader<'_>, budget: &mut Budget) -> (res: Result<Entity, DecodeError>) {
        let (name, (namespace, (fields, constraints))) = EntityWire::decode(reader, budget)?;
        Ok(Entity { name, namespace, fields, constraints })
    }
}

impl Codec for Entity {
    open spec fn spec_fits(m: EntityModel) -> bool {
        <EntityWire as Codec>::spec_fits(entity_wire(m))
    }

    proof fn lemma_round_trip(m: EntityModel, tail: Seq<u8>) {
        <EntityWire as Codec>::lemma_round_trip(entity_wire(m), tail);
    }
}

} // verus!
