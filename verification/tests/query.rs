use dol::data_type::DataType;
use dol::entity::{Entity, Field};
use dol::query::{parse_entity_name, ConflictAssignment, ConflictPlan, InsertQuery, Query, UpsertQuery};

fn users_entity() -> Entity {
    Entity::new(
        "users",
        vec![
            Field::new("id", DataType::Uuid).identity(),
            Field::new("email", DataType::unbounded_string()).unique(),
            Field::new("name", DataType::unbounded_string()),
        ],
    )
}

#[test]
fn from_entity() {
    let users = users_entity();
    let q = Query::from(&users);
    assert_eq!(q.name, "users");
    assert!(q.namespace.is_none());
    assert_eq!(
        q.field_names.as_deref(),
        Some(["id", "email", "name"].map(String::from).as_slice())
    );
}

#[test]
fn from_plain_string() {
    let q = Query::from("users");
    assert_eq!(q.name, "users");
    assert!(q.namespace.is_none());
    assert!(q.field_names.is_none());
}

#[test]
fn from_namespaced_string() {
    let q = Query::from("identity.users");
    assert_eq!(q.name, "users");
    assert_eq!(q.namespace.as_deref(), Some("identity"));
    assert!(q.field_names.is_none());
}

#[test]
fn from_owned_string() {
    let q = Query::from(String::from("identity.users"));
    assert_eq!(q.name, "users");
    assert_eq!(q.namespace.as_deref(), Some("identity"));
}

#[test]
fn namespace_single_segment() {
    let q = Query::from("api").namespace("users");
    assert_eq!(q.name, "users");
    assert_eq!(q.namespace.as_deref(), Some("api"));
}

#[test]
fn namespace_chained_segments() {
    let q = Query::from("api").namespace("v1").namespace("users");
    assert_eq!(q.name, "users");
    assert_eq!(q.namespace.as_deref(), Some("api.v1"));
}

#[test]
fn namespace_three_levels() {
    let q = Query::from("api")
        .namespace("v1")
        .namespace("admin")
        .namespace("users");
    assert_eq!(q.name, "users");
    assert_eq!(q.namespace.as_deref(), Some("api.v1.admin"));
}

#[test]
fn namespace_on_already_namespaced_string() {
    let q = Query::from("identity.users").namespace("profiles");
    assert_eq!(q.name, "profiles");
    assert_eq!(q.namespace.as_deref(), Some("identity.users"));
}

#[test]
fn namespace_drops_known_field_names() {
    let q = Query::from(&users_entity()).namespace("archive");
    assert_eq!(q.name, "archive");
    assert_eq!(q.namespace.as_deref(), Some("users"));
    assert!(q.field_names.is_none());
}

#[test]
fn parse_splits_at_last_dot() {
    assert_eq!(parse_entity_name("a.b.c"), (Some(String::from("a.b")), String::from("c")));
    assert_eq!(parse_entity_name("plain"), (None, String::from("plain")));
    assert_eq!(parse_entity_name(".x"), (Some(String::new()), String::from("x")));
    assert_eq!(parse_entity_name("x."), (Some(String::from("x")), String::new()));
    assert_eq!(parse_entity_name(""), (None, String::new()));
}

#[test]
fn parse_handles_non_ascii_names() {
    assert_eq!(
        parse_entity_name("schéma.ünïcode"),
        (Some(String::from("schéma")), String::from("ünïcode"))
    );
}

#[test]
fn named_matches_from() {
    let a = Query::named("identity.users");
    let b = Query::from("identity.users");
    assert_eq!(a.name, b.name);
    assert_eq!(a.namespace, b.namespace);
}

#[test]
fn qualified_name_parses_back() {
    let e = Entity::new("users", vec![]).with_namespace("api.v1");
    let q = Query::from(e.qualified_name().as_str());
    assert_eq!(q.name, "users");
    assert_eq!(q.namespace.as_deref(), Some("api.v1"));
}

#[test]
fn insert_defaults() {
    let q = Query::from("identity.users").insert();
    assert_eq!(q.name, "users");
    assert_eq!(q.namespace.as_deref(), Some("identity"));
    assert!(q.fields.is_empty());
    assert_eq!(q.row_count, 1);
    assert!(q.returning.is_empty());
    assert_eq!(q.param_count(), 0);
}

#[test]
fn insert_param_count_falls_back_to_entity_fields() {
    let q = Query::from(&users_entity()).insert().rows(4);
    assert_eq!(q.param_count(), 12);
}

#[test]
fn insert_param_count_prefers_explicit_fields() {
    let q = Query::from(&users_entity()).insert().fields(&["email"]).rows(3);
    assert_eq!(q.fields, vec![String::from("email")]);
    assert_eq!(q.param_count(), 3);
}

#[test]
fn insert_returning() {
    let q = Query::from("t").insert().returning_all();
    assert_eq!(q.returning, vec![String::from("*")]);
    let q = q.returning(&["id", "email"]);
    assert_eq!(q.returning, vec![String::from("id"), String::from("email")]);
}

#[test]
fn insert_new_is_one_row() {
    let q = InsertQuery::new(String::from("t"), None, None);
    assert_eq!(q.row_count, 1);
    assert_eq!(q.param_count(), 0);
}

#[test]
fn upsert_from_string() {
    let p = Query::from("users")
        .upsert()
        .fields(&["id", "email", "name"])
        .match_on(&["id"])
        .then_patch(&["email", "name"])
        .try_build();
    assert_eq!(p.target, "users");
    assert_eq!(p.columns.len(), 3);
    match &p.conflict {
        Some(ConflictPlan::DoUpdate(assignments)) => {
            assert_eq!(assignments.len(), 2);
        }
        _ => panic!("expected DoUpdate conflict"),
    }
}

#[test]
fn upsert_do_nothing() {
    let p = Query::from("users")
        .upsert()
        .fields(&["id", "email"])
        .match_on(&["id"])
        .then_skip()
        .try_build();
    assert!(matches!(p.conflict, Some(ConflictPlan::DoNothing)));
}

#[test]
fn namespace_propagates_to_upsert_ir() {
    let p = Query::from("api")
        .namespace("users")
        .upsert()
        .fields(&["id", "email"])
        .match_on(&["id"])
        .then_skip()
        .try_build();
    assert_eq!(p.target, "api.users");
}

#[test]
fn upsert_patch_assigns_from_incoming_row() {
    let p = Query::from("identity.users")
        .upsert()
        .fields(&["id", "email", "name"])
        .match_on(&["id"])
        .then_patch(&["email", "name"])
        .returning(&["id"])
        .try_build();
    assert_eq!(p.target, "identity.users");
    assert_eq!(p.target_name, "users");
    assert_eq!(p.target_namespace.as_deref(), Some("identity"));
    assert_eq!(p.columns, vec!["id".to_string(), "email".to_string(), "name".to_string()]);
    assert_eq!(p.params, 3);
    assert_eq!(p.returning, vec!["id".to_string()]);
    let expected = vec![
        ConflictAssignment {
            column: "email".to_string(),
            source_namespace: "EXCLUDED".to_string(),
            source_name: "email".to_string(),
        },
        ConflictAssignment {
            column: "name".to_string(),
            source_namespace: "EXCLUDED".to_string(),
            source_name: "name".to_string(),
        },
    ];
    assert_eq!(p.conflict, Some(ConflictPlan::DoUpdate(expected)));
}

#[test]
fn upsert_without_policy_has_no_conflict_clause() {
    let p = Query::from("users").upsert().fields(&["id"]).match_on(&["id"]).try_build();
    assert_eq!(p.conflict, None);
}

#[test]
fn upsert_skip_after_patch_and_patch_after_skip() {
    let q = Query::from("users").upsert().then_patch(&["email"]).then_skip();
    assert!(q.then_skip_flag);
    assert!(q.update_fields.is_empty());
    let q = q.then_patch(&["email"]);
    assert!(!q.then_skip_flag);
    let p = q.try_build();
    assert!(matches!(p.conflict, Some(ConflictPlan::DoUpdate(ref a)) if a.len() == 1));
}

#[test]
fn upsert_columns_fall_back_to_entity_fields() {
    let users = users_entity();
    let q = Query::from(&users).upsert();
    assert_eq!(q.param_count(), 3);
    let p = q.returning_all().try_build();
    assert_eq!(p.columns, vec!["id".to_string(), "email".to_string(), "name".to_string()]);
    assert_eq!(p.params, 3);
    assert_eq!(p.returning, vec!["*".to_string()]);
    let explicit = Query::from(&users).upsert().fields(&["email"]);
    assert_eq!(explicit.param_count(), 1);
    assert_eq!(Query::from("users").upsert().param_count(), 0);
}

#[test]
fn upsert_match_on_constraint() {
    let q = UpsertQuery::new("users".to_string(), None, None).match_on_constraint("users_email_key");
    assert_eq!(q.conflict_constraint.as_deref(), Some("users_email_key"));
    assert!(q.conflict_fields.is_empty());
}
