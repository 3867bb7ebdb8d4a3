use analytics_core::analyze::analyze_uncached;
use analytics_core::cache::Cache;
use analytics_core::error::{
    validate_mdl_size, validate_sql, AnalyticsCoreError, MAX_MDL_SIZE, MAX_SQL_DEPTH,
    MAX_SQL_LENGTH,
};
use analytics_core::hashing::{hash_manifest, hash_properties};
use analytics_core::manifest::{
    ColType, ColumnBuilder, ManifestBuilder, Mode, ModelBuilder, SessionProperties,
    ViewBuilder,
};
use analytics_core::pipeline::{transform, RewrittenOutput};

#[test]
fn sql_at_the_limit_is_accepted() {
    let sql = "a".repeat(MAX_SQL_LENGTH);
    assert!(validate_sql(&sql).is_ok());
}

#[test]
fn sql_over_the_limit_is_rejected() {
    let sql = "a".repeat(MAX_SQL_LENGTH + 1);
    let e = validate_sql(&sql).unwrap_err();
    assert!(matches!(e, AnalyticsCoreError::InputValidation(_)));
}

#[test]
fn empty_sql_is_rejected() {
    let e = validate_sql("").unwrap_err();
    assert!(matches!(e, AnalyticsCoreError::InputValidation(_)));
}

#[test]
fn padded_query_transforms_and_oversize_is_rejected_first() {
    let m = ManifestBuilder::new()
        .model(
            ModelBuilder::new("t")
                .table_reference("db.t")
                .column(ColumnBuilder::new("id", ColType::Integer).build())
                .primary_key("id")
                .build(),
        )
        .build();
    let a = analyze_uncached(m, SessionProperties::new(), Mode::Unparse).unwrap();
    let props = SessionProperties::new();
    let base = "select * from t";
    let sql = format!("{}{}", base, " ".repeat(512));
    match transform(&a, &props, &sql).unwrap() {
        RewrittenOutput::Sql(s) => assert_eq!(s, "select * from t"),
        _ => panic!("expected SQL output"),
    }
    let over = "a".repeat(MAX_SQL_LENGTH + 1);
    let e = transform(&a, &props, &over).unwrap_err();
    assert!(matches!(e, AnalyticsCoreError::InputValidation(_)));
}

#[test]
fn mdl_size_limit_is_enforced() {
    assert!(validate_mdl_size("{}").is_ok());
    let big = "x".repeat(MAX_MDL_SIZE + 1);
    let e = validate_mdl_size(&big).unwrap_err();
    assert!(matches!(e, AnalyticsCoreError::InputValidation(_)));
}

#[test]
fn declared_depth_limit_is_surfaced() {
    assert_eq!(MAX_SQL_DEPTH, 100);
    assert_eq!(MAX_SQL_LENGTH, 1048576);
    assert_eq!(MAX_MDL_SIZE, 10485760);
}

#[test]
fn cache_at_capacity_keeps_exactly_capacity_entries() {
    let mut c: Cache<u64> = Cache::new(3);
    c.insert(1, 10);
    c.insert(2, 20);
    c.insert(3, 30);
    assert_eq!(c.len(), 3);
    c.insert(4, 40);
    assert_eq!(c.len(), 3);
    assert_eq!(c.get(4), Some(&40));
}

#[test]
fn cache_replaces_an_existing_key_without_growing() {
    let mut c: Cache<u64> = Cache::new(2);
    c.insert(1, 10);
    c.insert(1, 11);
    assert_eq!(c.len(), 1);
    assert_eq!(c.get(1), Some(&11));
}

#[test]
fn cache_get_misses_on_absent_keys() {
    let mut c: Cache<u64> = Cache::new(2);
    assert_eq!(c.get(9), None);
    c.insert(9, 1);
    assert_eq!(c.get(9), Some(&1));
}

#[test]
fn cache_clear_empties_it() {
    let mut c: Cache<u64> = Cache::new(2);
    c.insert(1, 10);
    c.insert(2, 20);
    c.clear();
    assert_eq!(c.len(), 0);
    assert_eq!(c.get(1), None);
}

#[test]
fn zero_capacity_cache_holds_at_most_one_entry() {
    let mut c: Cache<u64> = Cache::new(0);
    c.insert(1, 10);
    assert_eq!(c.len(), 1);
    c.insert(2, 20);
    assert_eq!(c.len(), 1);
    assert_eq!(c.get(2), Some(&20));
}

#[test]
fn session_properties_setting_again_replaces() {
    let mut p = SessionProperties::new();
    p.set("role".to_string(), Some("analyst".to_string()));
    p.set("role".to_string(), Some("admin".to_string()));
    let v = p.get(&"role".to_string()).unwrap();
    assert_eq!(v.as_deref(), Some("admin"));
    assert_eq!(p.get(&"other".to_string()), None);
    assert_eq!(p.len(), 1);
}

#[test]
fn properties_hash_is_content_addressed() {
    let mut p1 = SessionProperties::new();
    p1.set("a".to_string(), Some("0".to_string()));
    p1.set("a".to_string(), Some("1".to_string()));
    let mut p2 = SessionProperties::new();
    p2.set("a".to_string(), Some("1".to_string()));
    assert_eq!(hash_properties(&p1), hash_properties(&p2));
}

#[test]
fn byte_limit_counts_multibyte_characters() {
    let two_byte = "\u{e9}";
    assert_eq!(two_byte.len(), 2);
    let at_limit = two_byte.repeat(MAX_SQL_LENGTH / 2);
    assert_eq!(at_limit.len(), MAX_SQL_LENGTH);
    assert!(validate_sql(&at_limit).is_ok());
    let over = format!("{}{}", at_limit, two_byte);
    let e = validate_sql(&over).unwrap_err();
    assert!(matches!(e, AnalyticsCoreError::InputValidation(_)));
}

#[test]
fn properties_hash_ignores_insertion_order() {
    let mut p1 = SessionProperties::new();
    p1.set("a".to_string(), Some("1".to_string()));
    p1.set("b".to_string(), None);
    let mut p2 = SessionProperties::new();
    p2.set("b".to_string(), None);
    p2.set("a".to_string(), Some("1".to_string()));
    assert_eq!(hash_properties(&p1), hash_properties(&p2));
}

#[test]
fn manifest_hash_depends_only_on_content() {
    let build = || {
        ManifestBuilder::new()
            .model(
                ModelBuilder::new("m")
                    .table_reference("db.m")
                    .column(ColumnBuilder::new("id", ColType::Integer).build())
                    .primary_key("id")
                    .build(),
            )
            .view(ViewBuilder::new("v").statement("select * from m").build())
            .build()
    };
    assert_eq!(hash_manifest(&build()), hash_manifest(&build()));
    let other = ManifestBuilder::new()
        .model(
            ModelBuilder::new("m")
                .table_reference("db.other")
                .column(ColumnBuilder::new("id", ColType::Integer).build())
                .primary_key("id")
                .build(),
        )
        .view(ViewBuilder::new("v").statement("select * from m").build())
        .build();
    assert_ne!(hash_manifest(&build()), hash_manifest(&other));
}
