use analytics_core::error::{suspicious_sql_patterns, AnalyticsError};
use analytics_core::parser::{parse_sql, render_expr, unparse_plan};
use analytics_core::plan::{plan_eq, Expr, LogicalPlan};
use analytics_core::profiling::{fmt_ms, MemoryTracker, Profiler};
use analytics_core::text::{
    find_from, replace_efficient, str_contains, str_eq, u64_to_string,
    with_capacity_for_replace,
};

#[test]
fn replace_rewrites_every_occurrence() {
    assert_eq!(replace_efficient("hello", "l", "L"), "heLLo");
    assert_eq!(replace_efficient("aaa", "aa", "b"), "ba");
    assert_eq!(replace_efficient("abc", "x", "y"), "abc");
    assert_eq!(replace_efficient("", "x", "y"), "");
}

#[test]
fn replace_with_empty_pattern_interleaves() {
    assert_eq!(replace_efficient("ab", "", "-"), "-a-b-");
}

#[test]
fn with_capacity_helper_returns_an_empty_string() {
    let s = with_capacity_for_replace("hello world", "o", "00");
    assert_eq!(s, "");
}

#[test]
fn substring_search_finds_the_first_occurrence() {
    assert_eq!(find_from("abcabc", "bc", 0), Some(1));
    assert_eq!(find_from("abcabc", "bc", 2), Some(4));
    assert_eq!(find_from("abcabc", "zz", 0), None);
    assert!(str_contains("select 1", "ele"));
    assert!(!str_contains("select 1", "update"));
}

#[test]
fn string_equality_is_by_characters() {
    assert!(str_eq(&"abc".to_string(), &"abc".to_string()));
    assert!(!str_eq(&"abc".to_string(), &"abd".to_string()));
}

#[test]
fn decimal_rendering_is_exact() {
    assert_eq!(u64_to_string(0), "0");
    assert_eq!(u64_to_string(12345), "12345");
    assert_eq!(u64_to_string(u64::MAX), "18446744073709551615");
}

#[test]
fn millisecond_formatting_truncates_to_two_places() {
    assert_eq!(fmt_ms(0), "0.00");
    assert_eq!(fmt_ms(1_500_000), "1.50");
    assert_eq!(fmt_ms(12_345_678), "12.34");
    assert_eq!(fmt_ms(10_000), "0.01");
}

#[test]
fn suspicious_patterns_are_reported_not_blocking() {
    let found = suspicious_sql_patterns("select 1 -- note");
    assert_eq!(found, vec!["--".to_string()]);
    assert!(suspicious_sql_patterns("select 1").is_empty());
    let multi = suspicious_sql_patterns("x; DROP y; DELETE z");
    assert_eq!(multi.len(), 2);
}

#[test]
fn parser_accepts_the_supported_grammar() {
    assert!(parse_sql("select * from t").is_ok());
    assert!(parse_sql("SELECT a, b FROM t WHERE a = 1 AND b = 'x'").is_ok());
    assert!(parse_sql("select * from (select * from m) as v").is_ok());
    assert!(parse_sql("select * from t extra").is_err());
    assert!(parse_sql("from t").is_err());
}

#[test]
fn unparse_then_parse_is_structurally_stable() {
    let p = parse_sql("select a, b from t where a = 1").unwrap();
    let text = unparse_plan(&p);
    assert_eq!(text, "select a, b from t where a = 1");
    let q = parse_sql(&text).unwrap();
    assert!(plan_eq(&p, &q));
}

#[test]
fn expressions_render_back_to_sql() {
    let e = Expr::And {
        left: Box::new(Expr::Eq {
            left: Box::new(Expr::Column {
                name: "a".to_string(),
            }),
            right: Box::new(Expr::IntLit { value: 3 }),
        }),
        right: Box::new(Expr::Eq {
            left: Box::new(Expr::Column {
                name: "b".to_string(),
            }),
            right: Box::new(Expr::StrLit {
                value: "x".to_string(),
            }),
        }),
    };
    assert_eq!(render_expr(&e), "a = 3 and b = 'x'");
}

#[test]
fn plans_compare_structurally() {
    let p = parse_sql("select * from t").unwrap();
    let q = parse_sql("select  *  from  t").unwrap();
    assert!(plan_eq(&p, &q));
    let r = parse_sql("select * from u").unwrap();
    assert!(!plan_eq(&p, &r));
    let scan = LogicalPlan::TableScan {
        table: "t".to_string(),
    };
    assert!(!plan_eq(&p, &scan));
}

#[test]
fn profiler_records_named_checkpoints() {
    let mut p = Profiler::new();
    assert_eq!(p.get_checkpoints().len(), 0);
    p.checkpoint("parse");
    p.checkpoint("rewrite");
    let cps = p.get_checkpoints();
    assert_eq!(cps.len(), 2);
    assert_eq!(cps[0].0, "parse");
    assert_eq!(cps[1].0, "rewrite");
    let report = p.to_string();
    assert!(report.starts_with("Profiling Results:\n"));
    assert!(report.contains("  parse: "));
    assert!(report.contains("ms (diff: "));
    assert!(report.contains("  Total: "));
    let fresh = Profiler::default();
    assert_eq!(fresh.get_checkpoints().len(), 0);
}

#[test]
fn memory_tracker_reports_its_snapshot() {
    let mut t = MemoryTracker::new();
    assert_eq!(t.get_usage(), None);
    t.snapshot();
    assert_eq!(t.get_usage(), Some(0));
    let fresh = MemoryTracker::default();
    assert_eq!(fresh.get_usage(), None);
}

#[test]
fn rewrite_error_carries_its_message() {
    let e = AnalyticsError::PermissionDenied("no access".to_string());
    match e {
        AnalyticsError::PermissionDenied(msg) => assert_eq!(msg, "no access"),
    }
}
