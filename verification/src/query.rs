//! The backend-neutral query entry point: an entity name, possibly
//! namespaced, from which statement builders start.
use crate::entity::{field_names_of, qualified, Entity};
use crate::schema::IntoText;
use vstd::prelude::*;

verus! {

/// Where the last `c` stands in `s`, if anywhere.
pub open spec fn last_index_of(s: Seq<char>, c: char) -> Option<int>
    decreases s.len(),
{
    if s.len() == 0 {
        None
    } else if s.last() == c {
        Some(s.len() - 1)
    } else {
        last_index_of(s.drop_last(), c)
    }
}

/// An entity name split at its last dot: what precedes the dot is the
/// namespace, what follows it the name. Without a dot there is no
/// namespace and the whole text is the name.
pub open spec fn split_entity_name(s: Seq<char>) -> (Option<Seq<char>>, Seq<char>) {
    match last_index_of(s, '.') {
        Some(k) => (Some(s.take(k)), s.skip(k + 1)),
        None => (None, s),
    }
}

/// Where the last `c` stands in `s` is within `s` and holds `c`; nothing
/// after it does.
pub proof fn lemma_last_index_of(s: Seq<char>, c: char)
    ensures
        last_index_of(s, c) matches Some(k) ==> 0 <= k < s.len() && s[k] == c && forall|j: int|
            k < j < s.len() ==> s[j] != c,
        last_index_of(s, c) is None ==> forall|j: int| 0 <= j < s.len() ==> s[j] != c,
    decreases s.len(),
{
    if s.len() > 0 && s.last() != c {
        let t = s.drop_last();
        lemma_last_index_of(t, c);
        assert forall|j: int| 0 <= j < t.len() implies t[j] == s[j] by {}
    }
}

/// Splitting a name at its last dot and joining the parts back with a dot
/// gives the name again.
pub proof fn lemma_split_rejoins(s: Seq<char>)
    ensures
        qualified(split_entity_name(s).1, split_entity_name(s).0) == s,
{
    lemma_last_index_of(s, '.');
    if let Some(k) = last_index_of(s, '.') {
        assert(s.take(k) + seq!['.'] + s.skip(k + 1) =~= s);
    }
}

/// A dot-free name qualified by a namespace splits back into that
/// namespace and that name.
pub proof fn lemma_qualified_splits(name: Seq<char>, namespace: Option<Seq<char>>)
    requires
        forall|i: int| 0 <= i < name.len() ==> name[i] != '.',
    ensures
        split_entity_name(qualified(name, namespace)) == (namespace, name),
{
    let q = qualified(name, namespace);
    lemma_last_index_of(q, '.');
    match namespace {
        Some(ns) => {
            let k = ns.len() as int;
            assert(q[k] == '.');
            assert forall|j: int| k < j < q.len() implies q[j] != '.' by {
                assert(q[j] == name[j - k - 1]);
            }
            match last_index_of(q, '.') {
                Some(m) => {
                    if m < k {
                        assert(q[k] != '.');
                    }
                    if m > k {
                        assert(q[m] == name[m - k - 1]);
                    }
                },
                None => {
                    assert(q[k] != '.');
                },
            }
            assert(q.take(k) =~= ns);
            assert(q.skip(k + 1) =~= name);
        },
        None => {
            if let Some(m) = last_index_of(q, '.') {
                assert(q[m] == name[m]);
            }
        },
    }
}

/// Split `s` at its last dot into `(namespace, name)`; without a dot the
/// namespace is absent and the name is all of `s`.
pub fn parse_entity_name(s: &str) -> (r: (Option<String>, String))
    ensures
        r.0.deep_view() == split_entity_name(s@).0,
        r.1@ == split_entity_name(s@).1,
{
    let n = s.unicode_len();
    let mut last: Option<usize> = None;
    let mut i: usize = 0;
    while i < n
        invariant
            i <= n,
            n == s@.len(),
            match last {
                Some(k) => last_index_of(s@.take(i as int), '.') == Some(k as int),
                None => last_index_of(s@.take(i as int), '.') is None,
            },
        decreases n - i,
    {
        let c = s.get_char(i);
        proof {
            assert(s@.take(i + 1 as int).drop_last() =~= s@.take(i as int));
        }
        if c == '.' {
            last = Some(i);
        }
        i = i + 1;
    }
    proof {
        assert(s@.take(n as int) =~= s@);
    }
    match last {
        Some(k) => {
            proof {
                lemma_last_index_of(s@, '.');
            }
            let ns = s.substring_char(0, k);
            let name = s.substring_char(k + 1, n);
            (Some(ns.to_owned()), name.to_owned())
        },
        None => (None, s.to_owned()),
    }
}

/// Backend-neutral query entry point: an entity name, the namespace it
/// lives in, and the entity's field names when they are known.
#[derive(Debug, Clone)]
pub struct Query {
    /// Entity name (the last dotted segment).
    pub name: String,
    /// Namespace prefix, if any.
    pub namespace: Option<String>,
    /// The entity's field names, when built from an entity.
    pub field_names: Option<Vec<String>>,
}

impl Query {
    /// Push the current name into the namespace and make `segment` the
    /// name; known field names are dropped.
    pub fn namespace(self, segment: &str) -> (q: Self)
        ensures
            q.namespace matches Some(ns) && ns@ == qualified(self.name@, self.namespace.deep_view()),
            q.name@ == segment@,
            q.field_names is None,
    {
        let ns = match self.namespace {
            Some(ns) => {
                let mut ns = ns;
                ns.append(".");
                ns.append(self.name.as_str());
                proof {
                    reveal_strlit(".");
                }
                ns
            },
            None => self.name,
        };
        Query { name: segment.to_owned(), namespace: Some(ns), field_names: None }
    }

    /// Start building an INSERT statement.
    pub fn insert(self) -> (q: InsertQuery)
        ensures
            q.name == self.name,
            q.namespace == self.namespace,
            q.field_names == self.field_names,
            q.fields@.len() == 0,
            q.row_count == 1,
            q.returning@.len() == 0,
    {
        InsertQuery::new(self.name, self.namespace, self.field_names)
    }

    /// Start building an upsert: insert a record, or act on the existing
    /// record it matches.
    pub fn upsert(self) -> (q: UpsertQuery)
        ensures
            q.is_fresh(self.name, self.namespace, self.field_names),
    {
        UpsertQuery::new(self.name, self.namespace, self.field_names)
    }
}

impl<'a> From<&'a str> for Query {
    /// Parse an entity name: `"users"`, or `"identity.users"` for the name
    /// `users` in namespace `identity` (split at the last dot).
    fn from(s: &'a str) -> (q: Self)
        ensures
            q.namespace.deep_view() == split_entity_name(s@).0,
            q.name@ == split_entity_name(s@).1,
            q.field_names is None,
    {
        Query::named(s)
    }
}

impl<'a> vstd::std_specs::convert::FromSpecImpl<&'a str> for Query {
    open spec fn obeys_from_spec() -> bool {
        false
    }

    open spec fn from_spec(s: &'a str) -> Query {
        arbitrary()
    }
}

impl From<String> for Query {
    /// As for a string slice.
    fn from(s: String) -> (q: Self)
        ensures
            q.namespace.deep_view() == split_entity_name(s@).0,
            q.name@ == split_entity_name(s@).1,
            q.field_names is None,
    {
        Query::named(s.as_str())
    }
}

impl vstd::std_specs::convert::FromSpecImpl<String> for Query {
    open spec fn obeys_from_spec() -> bool {
        false
    }

    open spec fn from_spec(s: String) -> Query {
        arbitrary()
    }
}

impl<'a> From<&'a Entity> for Query {
    /// The entity's name and namespace, with its field names.
    fn from(entity: &'a Entity) -> (q: Self)
        ensures
            q.name@ == entity.name@,
            q.namespace.deep_view() == entity.namespace.deep_view(),
            q.field_names matches Some(names) && names.deep_view() == field_names_of(entity.fields@),
    {
        Query::of_entity(entity)
    }
}

impl<'a> vstd::std_specs::convert::FromSpecImpl<&'a Entity> for Query {
    open spec fn obeys_from_spec() -> bool {
        false
    }

    open spec fn from_spec(entity: &'a Entity) -> Query {
        arbitrary()
    }
}

impl Query {
    /// The query for `s`, parsed as an entity name split at its last dot.
    pub fn named(s: &str) -> (q: Self)
        ensures
            q.namespace.deep_view() == split_entity_name(s@).0,
            q.name@ == split_entity_name(s@).1,
            q.field_names is None,
    {
        let (namespace, name) = parse_entity_name(s);
        Query { name, namespace, field_names: None }
    }

    /// The query for `entity`: its name and namespace, and its field
    /// names in declaration order.
    pub fn of_entity(entity: &Entity) -> (q: Self)
        ensures
            q.name@ == entity.name@,
            q.namespace.deep_view() == entity.namespace.deep_view(),
            q.field_names matches Some(names) && names.deep_view() == field_names_of(entity.fields@),
    {
        let names = entity.field_names();
        let mut owned: Vec<String> = Vec::new();
        let mut i: usize = 0;
        while i < names.len()
            invariant
                i <= names@.len(),
                names@.len() == entity.fields@.len(),
                forall|j: int| 0 <= j < names@.len() ==> names@[j]@ == entity.fields@[j].name@,
                owned.deep_view() =~= field_names_of(entity.fields@).take(i as int),
            decreases names@.len() - i,
        {
            let ghost prev = owned.deep_view();
            owned.push(names[i].to_owned());
            proof {
                assert(owned.deep_view() =~= prev.push(entity.fields@[i as int].name@));
                assert(field_names_of(entity.fields@).take(i + 1 as int) =~= field_names_of(entity.fields@).take(
                    i as int,
                ).push(entity.fields@[i as int].name@));
            }
            i = i + 1;
        }
        proof {
            assert(field_names_of(entity.fields@).take(i as int) =~= field_names_of(entity.fields@));
        }
        let namespace = match &entity.namespace {
            Some(ns) => Some(ns.clone()),
            None => None,
        };
        Query { name: entity.name.clone(), namespace, field_names: Some(owned) }
    }
}

/// The kind of JOIN to perform.
#[derive(Debug, Clone, Copy, PartialEq, Eq, Structural)]
pub enum JoinKind {
    /// `INNER JOIN`: keep rows where both sides match.
    Inner,
    /// `LEFT [OUTER] JOIN`: keep all left rows.
    Left,
    /// `RIGHT [OUTER] JOIN`: keep all right rows.
    Right,
    /// `FULL [OUTER] JOIN`: keep rows from both sides.
    Full,
    /// `CROSS JOIN`: Cartesian product, with no `ON` clause.
    Cross,
}

/// One JOIN of a GET query.
#[derive(Debug, Clone, PartialEq, Eq)]
pub struct JoinClause {
    /// What kind of join.
    pub join_type: JoinKind,
    /// Last dotted segment of the target entity name.
    pub target_name: String,
    /// Namespace of the target (everything before its last dot).
    pub target_namespace: Option<String>,
    /// Alias of the target, if any.
    pub alias: Option<String>,
    /// `(left_column, right_column)` equality pairs forming the `ON`
    /// condition; empty for a cross join.
    pub on_conditions: Vec<(String, String)>,
}

/// A composable INSERT builder.
#[derive(Debug, Clone)]
pub struct InsertQuery {
    /// Target entity name (last dotted segment).
    pub name: String,
    /// Namespace prefix, if any.
    pub namespace: Option<String>,
    /// All field names of the entity, used when `fields` is empty.
    pub field_names: Option<Vec<String>>,
    /// Explicit columns to insert.
    pub fields: Vec<String>,
    /// Number of value tuples; each binds one parameter per field.
    pub row_count: usize,
    /// Columns to return (`*` for all).
    pub returning: Vec<String>,
}

/// The number of columns an insert binds per row: its explicit fields,
/// or else the entity's field names, or else none.
pub open spec fn insert_field_count(q: InsertQuery) -> nat {
    if q.fields@.len() > 0 {
        q.fields@.len()
    } else {
        match q.field_names {
            Some(names) => names@.len(),
            None => 0,
        }
    }
}

/// Owned copies of `cols`, in order.
fn owned_columns(cols: &[&str]) -> (v: Vec<String>)
    ensures
        v@.len() == cols@.len(),
        forall|i: int| 0 <= i < cols@.len() ==> v@[i]@ == cols@[i]@,
{
    let mut v: Vec<String> = Vec::new();
    let mut i: usize = 0;
    while i < cols.len()
        invariant
            i <= cols@.len(),
            v@.len() == i,
            forall|j: int| 0 <= j < i ==> v@[j]@ == cols@[j]@,
        decreases cols@.len() - i,
    {
        v.push(cols[i].to_owned());
        i = i + 1;
    }
    v
}

impl InsertQuery {
    /// An insert into `name` in `namespace` of one row, with no explicit
    /// columns and nothing returned.
    pub fn new(name: String, namespace: Option<String>, field_names: Option<Vec<String>>) -> (q: Self)
        ensures
            q.name == name,
            q.namespace == namespace,
            q.field_names == field_names,
            q.fields@.len() == 0,
            q.row_count == 1,
            q.returning@.len() == 0,
    {
        InsertQuery { name, namespace, field_names, fields: Vec::new(), row_count: 1, returning: Vec::new() }
    }

    /// The same insert, binding the columns `cols`.
    pub fn fields(self, cols: &[&str]) -> (q: Self)
        ensures
            q.fields@.len() == cols@.len(),
            forall|i: int| 0 <= i < cols@.len() ==> q.fields@[i]@ == cols@[i]@,
            q == (InsertQuery { fields: q.fields, ..self }),
    {
        InsertQuery { fields: owned_columns(cols), ..self }
    }

    /// The same insert, of `count` rows.
    pub fn rows(self, count: usize) -> (q: Self)
        ensures
            q == (InsertQuery { row_count: count, ..self }),
    {
        InsertQuery { row_count: count, ..self }
    }

    /// The same insert, returning every column.
    pub fn returning_all(self) -> (q: Self)
        ensures
            q.returning@.len() == 1,
            q.returning@[0]@ == seq!['*'],
            q == (InsertQuery { returning: q.returning, ..self }),
    {
        let mut returning: Vec<String> = Vec::new();
        returning.push("*".to_owned());
        proof {
            reveal_strlit("*");
        }
        InsertQuery { returning, ..self }
    }

    /// The same insert, returning the columns `cols`.
    pub fn returning(self, cols: &[&str]) -> (q: Self)
        ensures
            q.returning@.len() == cols@.len(),
            forall|i: int| 0 <= i < cols@.len() ==> q.returning@[i]@ == cols@[i]@,
            q == (InsertQuery { returning: q.returning, ..self }),
    {
        InsertQuery { returning: owned_columns(cols), ..self }
    }

    /// Total number of bind parameters: the columns bound per row times
    /// the number of rows.
    pub fn param_count(&self) -> (n: usize)
        requires
            insert_field_count(*self) * self.row_count <= usize::MAX,
        ensures
            n == insert_field_count(*self) * self.row_count,
    {
        let field_count = if self.fields.len() == 0 {
            match &self.field_names {
                Some(names) => names.len(),
                None => 0,
            }
        } else {
            self.fields.len()
        };
        field_count * self.row_count
    }
}


/// A composable upsert builder: insert a record or, when an existing
/// record matches, patch it in place or leave it alone.
#[derive(Debug, Clone)]
pub struct UpsertQuery {
    /// Target entity name (last dotted segment).
    pub name: String,
    /// Namespace prefix, if any.
    pub namespace: Option<String>,
    /// All field names of the entity, used when `fields` is empty.
    pub field_names: Option<Vec<String>>,
    /// Explicit columns to insert.
    pub fields: Vec<String>,
    /// Fields by which an existing record is matched.
    pub conflict_fields: Vec<String>,
    /// Named constraint by which an existing record is matched.
    pub conflict_constraint: Option<String>,
    /// Columns patched on a match.
    pub update_fields: Vec<String>,
    /// Whether a match skips the write.
    pub then_skip_flag: bool,
    /// Columns to return (`*` for all).
    pub returning: Vec<String>,
}

/// One assignment made when an upsert matches an existing record: the
/// column `column` takes the field `source_name` of the row named
/// `source_namespace`.
#[derive(Debug, Clone, PartialEq, Eq)]
pub struct ConflictAssignment {
    /// The column written.
    pub column: String,
    /// The row the value is read from.
    pub source_namespace: String,
    /// The field of that row that is read.
    pub source_name: String,
}

/// What an upsert does to a record it matches.
#[derive(Debug, Clone, PartialEq, Eq)]
pub enum ConflictPlan {
    /// Leave the record as it is.
    DoNothing,
    /// Make these assignments.
    DoUpdate(Vec<ConflictAssignment>),
}

/// The lowered form of an upsert: the target, the columns written with
/// one bind parameter each, the columns returned and the conflict policy.
#[derive(Debug, Clone, PartialEq, Eq)]
pub struct UpsertPlan {
    /// The target qualified by its namespace.
    pub target: String,
    /// The target's name.
    pub target_name: String,
    /// The target's namespace, if any.
    pub target_namespace: Option<String>,
    /// Columns written, in order.
    pub columns: Vec<String>,
    /// Bind parameters: one per column.
    pub params: usize,
    /// Columns returned, in order.
    pub returning: Vec<String>,
    /// What happens on a match, if anything is said of it.
    pub conflict: Option<ConflictPlan>,
}

/// The policy of an upsert on a match, as text: do nothing, or make
/// these `(column, source row, source field)` assignments.
pub enum ConflictModel {
    DoNothing,
    DoUpdate(Seq<(Seq<char>, Seq<char>, Seq<char>)>),
}

/// The name of the incoming row in a conflict assignment.
pub open spec fn excluded_row() -> Seq<char> {
    seq!['E', 'X', 'C', 'L', 'U', 'D', 'E', 'D']
}

/// An assignment as text.
pub open spec fn assignment_view(a: ConflictAssignment) -> (Seq<char>, Seq<char>, Seq<char>) {
    (a.column@, a.source_namespace@, a.source_name@)
}

/// A conflict policy as text.
pub open spec fn conflict_view(c: Option<ConflictPlan>) -> Option<ConflictModel> {
    match c {
        None => None,
        Some(ConflictPlan::DoNothing) => Some(ConflictModel::DoNothing),
        Some(ConflictPlan::DoUpdate(v)) => Some(
            ConflictModel::DoUpdate(v@.map_values(|a: ConflictAssignment| assignment_view(a))),
        ),
    }
}

/// The columns an upsert writes: its explicit fields, or else the
/// entity's field names, or else none.
pub open spec fn upsert_columns(q: UpsertQuery) -> Seq<Seq<char>> {
    if q.fields@.len() > 0 {
        q.fields.deep_view()
    } else {
        match q.field_names {
            Some(names) => names.deep_view(),
            None => Seq::empty(),
        }
    }
}

/// The policy of an upsert on a match: skipping wins; else each patched
/// column is assigned the same field of the incoming row; else nothing.
pub open spec fn upsert_conflict(q: UpsertQuery) -> Option<ConflictModel> {
    if q.then_skip_flag {
        Some(ConflictModel::DoNothing)
    } else if q.update_fields@.len() > 0 {
        Some(
            ConflictModel::DoUpdate(
                q.update_fields.deep_view().map_values(|c: Seq<char>| (c, excluded_row(), c)),
            ),
        )
    } else {
        None
    }
}

impl UpsertQuery {
    /// `self` is the upsert that a new builder into `name` in `namespace`
    /// starts as: no columns, no match condition, no policy, nothing
    /// returned.
    pub open spec fn is_fresh(
        self,
        name: String,
        namespace: Option<String>,
        field_names: Option<Vec<String>>,
    ) -> bool {
        &&& self.name == name
        &&& self.namespace == namespace
        &&& self.field_names == field_names
        &&& self.fields@.len() == 0
        &&& self.conflict_fields@.len() == 0
        &&& self.conflict_constraint is None
        &&& self.update_fields@.len() == 0
        &&& !self.then_skip_flag
        &&& self.returning@.len() == 0
    }

    /// An upsert into `name` in `namespace` with no columns, no match
    /// condition, no policy and nothing returned.
    pub fn new(name: String, namespace: Option<String>, field_names: Option<Vec<String>>) -> (q: Self)
        ensures
            q.is_fresh(name, namespace, field_names),
    {
        UpsertQuery {
            name,
            namespace,
            field_names,
            fields: Vec::new(),
            conflict_fields: Vec::new(),
            conflict_constraint: None,
            update_fields: Vec::new(),
            then_skip_flag: false,
            returning: Vec::new(),
        }
    }

    /// The same upsert, writing the columns `cols`.
    pub fn fields(self, cols: &[&str]) -> (q: Self)
        ensures
            q.fields@.len() == cols@.len(),
            forall|i: int| 0 <= i < cols@.len() ==> q.fields@[i]@ == cols@[i]@,
            q == (UpsertQuery { fields: q.fields, ..self }),
    {
        UpsertQuery { fields: owned_columns(cols), ..self }
    }

    /// The same upsert, matching an existing record by the fields `cols`.
    pub fn match_on(self, cols: &[&str]) -> (q: Self)
        ensures
            q.conflict_fields@.len() == cols@.len(),
            forall|i: int| 0 <= i < cols@.len() ==> q.conflict_fields@[i]@ == cols@[i]@,
            q == (UpsertQuery { conflict_fields: q.conflict_fields, ..self }),
    {
        UpsertQuery { conflict_fields: owned_columns(cols), ..self }
    }

    /// The same upsert, matching an existing record by the constraint
    /// named `name`.
    pub fn match_on_constraint(self, name: &str) -> (q: Self)
        ensures
            q.conflict_constraint matches Some(c) && c@ == name@,
            q == (UpsertQuery { conflict_constraint: q.conflict_constraint, ..self }),
    {
        UpsertQuery { conflict_constraint: Some(name.to_owned()), ..self }
    }

    /// The same upsert, patching the columns `cols` of a matched record;
    /// this replaces an earlier `then_skip`.
    pub fn then_patch(self, cols: &[&str]) -> (q: Self)
        ensures
            q.update_fields@.len() == cols@.len(),
            forall|i: int| 0 <= i < cols@.len() ==> q.update_fields@[i]@ == cols@[i]@,
            q == (UpsertQuery { update_fields: q.update_fields, then_skip_flag: false, ..self }),
    {
        UpsertQuery { update_fields: owned_columns(cols), then_skip_flag: false, ..self }
    }

    /// The same upsert, leaving a matched record alone; this drops the
    /// columns of an earlier `then_patch`.
    pub fn then_skip(self) -> (q: Self)
        ensures
            q.update_fields@.len() == 0,
            q == (UpsertQuery { update_fields: q.update_fields, then_skip_flag: true, ..self }),
    {
        UpsertQuery { update_fields: Vec::new(), then_skip_flag: true, ..self }
    }

    /// The same upsert, returning the columns `cols`.
    pub fn returning(self, cols: &[&str]) -> (q: Self)
        ensures
            q.returning@.len() == cols@.len(),
            forall|i: int| 0 <= i < cols@.len() ==> q.returning@[i]@ == cols@[i]@,
            q == (UpsertQuery { returning: q.returning, ..self }),
    {
        UpsertQuery { returning: owned_columns(cols), ..self }
    }

    /// The same upsert, returning every column.
    pub fn returning_all(self) -> (q: Self)
        ensures
            q.returning@.len() == 1,
            q.returning@[0]@ == seq!['*'],
            q == (UpsertQuery { returning: q.returning, ..self }),
    {
        let mut returning: Vec<String> = Vec::new();
        returning.push("*".to_owned());
        proof {
            reveal_strlit("*");
        }
        UpsertQuery { returning, ..self }
    }

    /// Number of bind parameters: one per column written.
    pub fn param_count(&self) -> (n: usize)
        ensures
            n == upsert_columns(*self).len(),
    {
        if self.fields.len() == 0 {
            match &self.field_names {
                Some(names) => names.len(),
                None => 0,
            }
        } else {
            self.fields.len()
        }
    }

    /// Lower the upsert: the target qualified by its namespace, the
    /// columns written with one parameter each, the columns returned and
    /// the policy on a match.
    pub fn try_build(self) -> (plan: UpsertPlan)
        ensures
            plan.target@ == qualified(self.name@, self.namespace.deep_view()),
            plan.target_name@ == self.name@,
            plan.target_namespace.deep_view() == self.namespace.deep_view(),
            plan.columns.deep_view() == upsert_columns(self),
            plan.params == plan.columns@.len(),
            plan.returning.deep_view() == self.returning.deep_view(),
            conflict_view(plan.conflict) == upsert_conflict(self),
            self.then_skip_flag ==> plan.conflict == Some(ConflictPlan::DoNothing),
            !self.then_skip_flag && self.update_fields@.len() == 0 ==> plan.conflict is None,
            !self.then_skip_flag && self.update_fields@.len() > 0 ==> (plan.conflict matches Some(
                ConflictPlan::DoUpdate(v),
            ) && v@.len() == self.update_fields@.len() && forall|i: int|
                0 <= i < v@.len() ==> v@[i].column@ == self.update_fields@[i]@ && v@[i].source_namespace@
                    == seq!['E', 'X', 'C', 'L', 'U', 'D', 'E', 'D'] && v@[i].source_name@
                    == self.update_fields@[i]@),
            self.fields@.len() > 0 ==> plan.columns.deep_view() == self.fields.deep_view(),
            self.fields@.len() == 0 && self.field_names is None ==> plan.columns@.len() == 0,
            self.fields@.len() == 0 ==> (self.field_names matches Some(n) ==> plan.columns.deep_view()
                == n.deep_view()),
    {
        let ghost q = self;
        let target = match &self.namespace {
            Some(ns) => {
                let mut t = ns.clone();
                t.append(".");
                t.append(self.name.as_str());
                proof {
                    reveal_strlit(".");
                }
                t
            },
            None => self.name.clone(),
        };
        let columns = if self.fields.len() == 0 {
            match self.field_names {
                Some(names) => names,
                None => Vec::new(),
            }
        } else {
            self.fields
        };
        proof {
            if q.fields@.len() > 0 {
                assert(columns.deep_view() == q.fields.deep_view());
            } else if q.field_names is None {
                assert(columns.deep_view() =~= Seq::<Seq<char>>::empty());
            }
        }
        let params = columns.len();
        let conflict = if self.then_skip_flag {
            Some(ConflictPlan::DoNothing)
        } else if self.update_fields.len() > 0 {
            Some(ConflictPlan::DoUpdate(excluded_assignments(&self.update_fields)))
        } else {
            None
        };
        UpsertPlan {
            target,
            target_name: self.name,
            target_namespace: self.namespace,
            columns,
            params,
            returning: self.returning,
            conflict,
        }
    }
}

/// For each column, in order, the assignment of that column from the
/// same field of the incoming row.
fn excluded_assignments(cols: &Vec<String>) -> (v: Vec<ConflictAssignment>)
    ensures
        v@.len() == cols@.len(),
        forall|j: int|
            0 <= j < v@.len() ==> v@[j].column@ == cols@[j]@ && v@[j].source_namespace@ == excluded_row()
                && v@[j].source_name@ == cols@[j]@,
        v@.map_values(|a: ConflictAssignment| assignment_view(a)) == cols.deep_view().map_values(
            |c: Seq<char>| (c, excluded_row(), c),
        ),
{
    let mut v: Vec<ConflictAssignment> = Vec::new();
    let mut i: usize = 0;
    while i < cols.len()
        invariant
            i <= cols@.len(),
            v@.len() == i,
            forall|j: int|
                0 <= j < i ==> assignment_view(#[trigger] v@[j]) == (
                    cols@[j]@,
                    excluded_row(),
                    cols@[j]@,
                ),
        decreases cols@.len() - i,
    {
        let source = "EXCLUDED".to_owned();
        proof {
            reveal_strlit("EXCLUDED");
            assert(source@ =~= excluded_row());
        }
        v.push(
            ConflictAssignment {
                column: cols[i].clone(),
                source_namespace: source,
                source_name: cols[i].clone(),
            },
        );
        i = i + 1;
    }
    proof {
        let lhs = v@.map_values(|a: ConflictAssignment| assignment_view(a));
        let rhs = cols.deep_view().map_values(|c: Seq<char>| (c, excluded_row(), c));
        assert(lhs.len() == rhs.len());
        assert forall|j: int| 0 <= j < lhs.len() implies lhs[j] == rhs[j] by {
            assert(assignment_view(v@[j]) == (cols@[j]@, excluded_row(), cols@[j]@));
        }
        assert(lhs =~= rhs);
    }
    v
}

} // verus!
