use analytics_core::analyze::{
    analyze_uncached, clear_caches, compute_analyzed_mdl_cached, compute_lineage_cached,
    get_cache_stats, CacheService,
};
use analytics_core::error::AnalyticsCoreError;
use analytics_core::expand::ExpandAnalyticsViewRule;
use analytics_core::manifest::{
    ColType, ColumnBuilder, Manifest, ManifestBuilder, Mode, ModelBuilder,
    RowLevelAccessControl, SessionProperties, ViewBuilder,
};
use analytics_core::parser::parse_sql;
use analytics_core::pipeline::{transform, RewrittenOutput};
use analytics_core::plan::{plan_eq, Expr};
use analytics_core::validator::{validate, validate_rlac_rule, validate_with_lineage};
use std::sync::Arc;

fn customers_manifest() -> Manifest {
    ManifestBuilder::new()
        .model(
            ModelBuilder::new("customers_model")
                .table_reference("datafusion.public.customers")
                .column(ColumnBuilder::new("city", ColType::Varchar).build())
                .column(ColumnBuilder::new("id", ColType::Varchar).build())
                .column(ColumnBuilder::new("state", ColType::Varchar).build())
                .primary_key("id")
                .build(),
        )
        .view(
            ViewBuilder::new("customers_view")
                .statement("select * from customers_model")
                .build(),
        )
        .build()
}

fn city_rule() -> RowLevelAccessControl {
    RowLevelAccessControl {
        name: "city_rule".to_string(),
        target_model: "customers_model".to_string(),
        condition_property: "role".to_string(),
        condition_value: "analyst".to_string(),
        predicate: Expr::Eq {
            left: Box::new(Expr::Column {
                name: "city".to_string(),
            }),
            right: Box::new(Expr::StrLit {
                value: "berlin".to_string(),
            }),
        },
    }
}

#[test]
fn valid_manifest_passes_validation() {
    let m = customers_manifest();
    assert!(validate(&m).is_ok());
}

#[test]
fn duplicate_names_fail_validation() {
    let m = ManifestBuilder::new()
        .model(
            ModelBuilder::new("orders")
                .table_reference("db.orders")
                .column(ColumnBuilder::new("id", ColType::Integer).build())
                .primary_key("id")
                .build(),
        )
        .view(ViewBuilder::new("orders").statement("select * from orders").build())
        .build();
    let e = validate(&m).unwrap_err();
    assert!(matches!(e, AnalyticsCoreError::MdlValidation(_)));
}

#[test]
fn missing_primary_key_fails_validation() {
    let m = ManifestBuilder::new()
        .model(
            ModelBuilder::new("orders")
                .table_reference("db.orders")
                .column(ColumnBuilder::new("id", ColType::Integer).build())
                .primary_key("missing")
                .build(),
        )
        .build();
    let e = validate(&m).unwrap_err();
    assert!(matches!(e, AnalyticsCoreError::MdlValidation(_)));
}

#[test]
fn view_cycle_fails_validation() {
    let m = ManifestBuilder::new()
        .view(ViewBuilder::new("v1").statement("select * from v2").build())
        .view(ViewBuilder::new("v2").statement("select * from v1").build())
        .build();
    let e = validate(&m).unwrap_err();
    assert!(matches!(e, AnalyticsCoreError::MdlValidation(_)));
    let msg = e.message();
    assert!(msg.contains("cycle"));
    assert!(msg.contains("v1"));
    assert!(msg.contains("v2"));
}

#[test]
fn self_referencing_view_fails_validation() {
    let m = ManifestBuilder::new()
        .view(ViewBuilder::new("v1").statement("select * from v1").build())
        .build();
    let e = validate(&m).unwrap_err();
    assert!(matches!(e, AnalyticsCoreError::MdlValidation(_)));
}

#[test]
fn unparsable_view_statement_fails_validation() {
    let m = ManifestBuilder::new()
        .view(ViewBuilder::new("v1").statement("this is not sql").build())
        .build();
    let e = validate(&m).unwrap_err();
    assert!(matches!(e, AnalyticsCoreError::MdlValidation(_)));
}

#[test]
fn calculated_column_with_unknown_reference_fails() {
    let m = ManifestBuilder::new()
        .model(
            ModelBuilder::new("orders")
                .table_reference("db.orders")
                .column(ColumnBuilder::new("id", ColType::Integer).build())
                .column(
                    ColumnBuilder::new("twice", ColType::Integer)
                        .expression(Expr::Column {
                            name: "missing".to_string(),
                        })
                        .build(),
                )
                .primary_key("id")
                .build(),
        )
        .build();
    let e = validate(&m).unwrap_err();
    assert!(matches!(e, AnalyticsCoreError::MdlValidation(_)));
}

#[test]
fn analyze_twice_hits_the_cache_and_agrees() {
    let mut svc = CacheService::new();
    let props = SessionProperties::new();
    let a1 = compute_analyzed_mdl_cached(
        &mut svc,
        customers_manifest(),
        SessionProperties::new(),
        Mode::Unparse,
    )
    .unwrap();
    let (_, n1) = get_cache_stats(&svc);
    assert_eq!(n1, 1);
    let a2 = compute_analyzed_mdl_cached(
        &mut svc,
        customers_manifest(),
        SessionProperties::new(),
        Mode::Unparse,
    )
    .unwrap();
    let (_, n2) = get_cache_stats(&svc);
    assert_eq!(n2, 1);
    let s1 = match transform(&a1, &props, "select * from customers_view").unwrap() {
        RewrittenOutput::Sql(s) => s,
        _ => panic!("expected SQL output"),
    };
    let s2 = match transform(&a2, &props, "select * from customers_view").unwrap() {
        RewrittenOutput::Sql(s) => s,
        _ => panic!("expected SQL output"),
    };
    assert_eq!(s1, s2);
}

#[test]
fn different_modes_use_different_cache_entries() {
    let mut svc = CacheService::new();
    compute_analyzed_mdl_cached(
        &mut svc,
        customers_manifest(),
        SessionProperties::new(),
        Mode::Unparse,
    )
    .unwrap();
    compute_analyzed_mdl_cached(
        &mut svc,
        customers_manifest(),
        SessionProperties::new(),
        Mode::LocalRuntime,
    )
    .unwrap();
    let (_, n) = get_cache_stats(&svc);
    assert_eq!(n, 2);
}

#[test]
fn invalid_manifest_is_never_cached() {
    let mut svc = CacheService::new();
    let m = ManifestBuilder::new()
        .view(ViewBuilder::new("v1").statement("select * from v1").build())
        .build();
    let r = compute_analyzed_mdl_cached(
        &mut svc,
        m,
        SessionProperties::new(),
        Mode::Unparse,
    );
    assert!(r.is_err());
    let (_, n) = get_cache_stats(&svc);
    assert_eq!(n, 0);
}

#[test]
fn lineage_cache_hits_on_equal_content() {
    let mut svc = CacheService::new();
    let m = customers_manifest();
    compute_lineage_cached(&mut svc, &m).unwrap();
    let (nl, _) = get_cache_stats(&svc);
    assert_eq!(nl, 1);
    compute_lineage_cached(&mut svc, &m).unwrap();
    let (nl2, _) = get_cache_stats(&svc);
    assert_eq!(nl2, 1);
}

#[test]
fn clear_caches_empties_both() {
    let mut svc = CacheService::new();
    let m = customers_manifest();
    compute_lineage_cached(&mut svc, &m).unwrap();
    compute_analyzed_mdl_cached(
        &mut svc,
        customers_manifest(),
        SessionProperties::new(),
        Mode::Unparse,
    )
    .unwrap();
    clear_caches(&mut svc);
    assert_eq!(get_cache_stats(&svc), (0, 0));
}

#[test]
fn expansion_is_idempotent_on_a_real_plan() {
    let a = analyze_uncached(
        customers_manifest(),
        SessionProperties::new(),
        Mode::Unparse,
    )
    .unwrap();
    let rule = ExpandAnalyticsViewRule::new(Arc::new(a));
    let p = parse_sql("select * from customers_view").unwrap();
    let once = rule.analyze(&p).unwrap();
    let twice = rule.analyze(&once).unwrap();
    assert!(plan_eq(&once, &twice));
    assert_eq!(rule.name(), "ExpandAnalyticsViewRule");
}

#[test]
fn model_scans_and_outside_names_stay_unchanged() {
    let a = analyze_uncached(
        customers_manifest(),
        SessionProperties::new(),
        Mode::Unparse,
    )
    .unwrap();
    let rule = ExpandAnalyticsViewRule::new(Arc::new(a));
    let p = parse_sql("select * from customers_model").unwrap();
    let expanded = rule.analyze(&p).unwrap();
    assert!(plan_eq(&p, &expanded));
    let q = parse_sql("select * from unknown_table").unwrap();
    let expanded2 = rule.analyze(&q).unwrap();
    assert!(plan_eq(&q, &expanded2));
}

#[test]
fn rlac_rule_on_existing_boolean_predicate_passes() {
    let m = customers_manifest();
    let model = m.get_model(&"customers_model".to_string()).unwrap();
    let rule = city_rule();
    assert!(validate_rlac_rule(&rule, model).is_ok());
}

#[test]
fn rlac_rule_on_absent_column_fails() {
    let m = customers_manifest();
    let model = m.get_model(&"customers_model".to_string()).unwrap();
    let mut rule = city_rule();
    rule.predicate = Expr::Eq {
        left: Box::new(Expr::Column {
            name: "no_such_column".to_string(),
        }),
        right: Box::new(Expr::StrLit {
            value: "berlin".to_string(),
        }),
    };
    let e = validate_rlac_rule(&rule, model).unwrap_err();
    assert!(matches!(e, AnalyticsCoreError::MdlValidation(_)));
}

#[test]
fn rlac_rule_with_non_boolean_predicate_fails() {
    let m = customers_manifest();
    let model = m.get_model(&"customers_model".to_string()).unwrap();
    let mut rule = city_rule();
    rule.predicate = Expr::IntLit { value: 7 };
    let e = validate_rlac_rule(&rule, model).unwrap_err();
    assert!(matches!(e, AnalyticsCoreError::MdlValidation(_)));
}

#[test]
fn view_query_round_trips_to_expanded_subquery() {
    let a = analyze_uncached(
        customers_manifest(),
        SessionProperties::new(),
        Mode::Unparse,
    )
    .unwrap();
    let props = SessionProperties::new();
    let sql = match transform(&a, &props, "select * from customers_view").unwrap() {
        RewrittenOutput::Sql(s) => s,
        _ => panic!("expected SQL output"),
    };
    let produced = parse_sql(&sql).unwrap();
    let expected =
        parse_sql("select * from (select * from customers_model) as customers_view")
            .unwrap();
    assert!(plan_eq(&produced, &expected));
}

#[test]
fn applicable_rule_predicate_is_injected() {
    let m = ManifestBuilder::new()
        .model(
            ModelBuilder::new("customers_model")
                .table_reference("db.customers")
                .column(ColumnBuilder::new("city", ColType::Varchar).build())
                .column(ColumnBuilder::new("id", ColType::Varchar).build())
                .primary_key("id")
                .build(),
        )
        .rule(city_rule())
        .build();
    let a = analyze_uncached(m, SessionProperties::new(), Mode::Unparse).unwrap();
    let mut props = SessionProperties::new();
    props.set("role".to_string(), Some("analyst".to_string()));
    let sql = match transform(&a, &props, "select * from customers_model").unwrap() {
        RewrittenOutput::Sql(s) => s,
        _ => panic!("expected SQL output"),
    };
    assert_eq!(sql, "select * from customers_model where city = 'berlin'");
}

#[test]
fn inapplicable_rule_is_not_injected() {
    let m = ManifestBuilder::new()
        .model(
            ModelBuilder::new("customers_model")
                .table_reference("db.customers")
                .column(ColumnBuilder::new("city", ColType::Varchar).build())
                .column(ColumnBuilder::new("id", ColType::Varchar).build())
                .primary_key("id")
                .build(),
        )
        .rule(city_rule())
        .build();
    let a = analyze_uncached(m, SessionProperties::new(), Mode::Unparse).unwrap();
    let mut props = SessionProperties::new();
    props.set("role".to_string(), Some("admin".to_string()));
    let sql = match transform(&a, &props, "select * from customers_model").unwrap() {
        RewrittenOutput::Sql(s) => s,
        _ => panic!("expected SQL output"),
    };
    assert_eq!(sql, "select * from customers_model");
}

#[test]
fn permission_analyze_mode_validates_rules() {
    let mut bad_rule = city_rule();
    bad_rule.predicate = Expr::Column {
        name: "no_such_column".to_string(),
    };
    let m = ManifestBuilder::new()
        .model(
            ModelBuilder::new("customers_model")
                .table_reference("db.customers")
                .column(ColumnBuilder::new("city", ColType::Varchar).build())
                .column(ColumnBuilder::new("id", ColType::Varchar).build())
                .primary_key("id")
                .build(),
        )
        .rule(bad_rule)
        .build();
    let a = analyze_uncached(m, SessionProperties::new(), Mode::PermissionAnalyze)
        .unwrap();
    let props = SessionProperties::new();
    let e = transform(&a, &props, "select * from customers_model").unwrap_err();
    assert!(matches!(e, AnalyticsCoreError::MdlValidation(_)));
}

#[test]
fn local_runtime_mode_returns_a_plan() {
    let a = analyze_uncached(
        customers_manifest(),
        SessionProperties::new(),
        Mode::LocalRuntime,
    )
    .unwrap();
    let props = SessionProperties::new();
    match transform(&a, &props, "select city, id from customers_model").unwrap() {
        RewrittenOutput::Plan(_) => {}
        _ => panic!("expected a plan"),
    }
}

#[test]
fn malformed_sql_is_a_parse_error() {
    let a = analyze_uncached(
        customers_manifest(),
        SessionProperties::new(),
        Mode::Unparse,
    )
    .unwrap();
    let props = SessionProperties::new();
    let e = transform(&a, &props, "this is not sql").unwrap_err();
    assert!(matches!(e, AnalyticsCoreError::SqlParse(_)));
}

#[test]
fn join_paths_follow_the_reference_graph() {
    let m = ManifestBuilder::new()
        .model(
            ModelBuilder::new("base")
                .table_reference("db.base")
                .column(ColumnBuilder::new("id", ColType::Integer).build())
                .primary_key("id")
                .build(),
        )
        .view(ViewBuilder::new("inner_view").statement("select * from base").build())
        .view(
            ViewBuilder::new("outer_view")
                .statement("select * from inner_view")
                .build(),
        )
        .build();
    let lineage = validate_with_lineage(&m).unwrap();
    let path = lineage
        .resolve_join_path(&"outer_view".to_string(), &"base".to_string())
        .unwrap();
    assert_eq!(path, vec!["outer_view", "inner_view", "base"]);
    assert!(lineage
        .resolve_join_path(&"base".to_string(), &"outer_view".to_string())
        .is_none());
    assert!(lineage
        .resolve_join_path(&"missing".to_string(), &"base".to_string())
        .is_none());
    assert!(lineage.has_table(&"inner_view".to_string()));
    assert!(!lineage.has_table(&"missing".to_string()));
}

#[test]
fn permission_analyze_mode_accepts_valid_rules() {
    let m = ManifestBuilder::new()
        .model(
            ModelBuilder::new("customers_model")
                .table_reference("db.customers")
                .column(ColumnBuilder::new("city", ColType::Varchar).build())
                .column(ColumnBuilder::new("id", ColType::Varchar).build())
                .primary_key("id")
                .build(),
        )
        .rule(city_rule())
        .build();
    let a = analyze_uncached(m, SessionProperties::new(), Mode::PermissionAnalyze)
        .unwrap();
    let props = SessionProperties::new();
    match transform(&a, &props, "select * from customers_model").unwrap() {
        RewrittenOutput::Plan(p) => {
            let plain = parse_sql("select * from customers_model").unwrap();
            assert!(plan_eq(&p, &plain));
        }
        _ => panic!("expected a plan"),
    }
}

#[test]
fn errors_carry_readable_messages() {
    let m = ManifestBuilder::new()
        .view(ViewBuilder::new("v1").statement("select * from v1").build())
        .build();
    let e = validate(&m).unwrap_err();
    assert!(!e.message().is_empty());
}

#[test]
fn join_paths_are_shortest() {
    let base = ModelBuilder::new("base")
        .table_reference("db.base")
        .column(ColumnBuilder::new("id", ColType::Integer).build())
        .primary_key("id")
        .build();
    let middle = ModelBuilder::new("middle")
        .table_reference("db.middle")
        .column(ColumnBuilder::new("id", ColType::Integer).build())
        .column(
            ColumnBuilder::new("base_id", ColType::Integer)
                .expression(Expr::Qualified {
                    model: "base".to_string(),
                    column: "id".to_string(),
                })
                .build(),
        )
        .primary_key("id")
        .build();
    let top = ModelBuilder::new("top")
        .table_reference("db.top")
        .column(ColumnBuilder::new("id", ColType::Integer).build())
        .column(
            ColumnBuilder::new("middle_id", ColType::Integer)
                .expression(Expr::Qualified {
                    model: "middle".to_string(),
                    column: "id".to_string(),
                })
                .build(),
        )
        .column(
            ColumnBuilder::new("base_id", ColType::Integer)
                .expression(Expr::Qualified {
                    model: "base".to_string(),
                    column: "id".to_string(),
                })
                .build(),
        )
        .primary_key("id")
        .build();
    let m = ManifestBuilder::new().model(base).model(middle).model(top).build();
    let lineage = validate_with_lineage(&m).unwrap();
    let path = lineage
        .resolve_join_path(&"top".to_string(), &"base".to_string())
        .unwrap();
    assert_eq!(path, vec!["top", "base"]);
}
