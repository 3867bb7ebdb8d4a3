//! The transformation pipeline: check the raw input, parse it against the
//! virtual schema, expand views, inject the applicable row-level
//! access-control predicates, and render the result as the mode asks.
//! A call either fully succeeds or fails with one typed error; no partial
//! output is returned.

use vstd::prelude::*;
use vstd::string::StringSliceAdditionalSpecFns;
use crate::analyze::AnalyzedAnalyticsMDL;
use crate::error::{validate_sql, AnalyticsCoreError, MAX_SQL_LENGTH};
use crate::expand::{defs_map, expand_with_defs, spec_expand};
use crate::manifest::{find_model_in, Manifest, Mode, RowLevelAccessControl,
    SessionProperties};
use crate::parser::{parse_sql, spec_parse_sql, spec_unparse_query, unparse_plan};
use crate::plan::{clone_expr, Expr, ExprS, LogicalPlan, PlanS};
use crate::text::str_eq;
use crate::validator::{spec_rlac_valid, validate_rlac_rule};

verus! {

/// Does the rule apply under these session properties? It applies exactly
/// when the session carries the rule's condition property with the rule's
/// condition value.
pub open spec fn spec_applicable(
    rule: RowLevelAccessControl,
    props: Map<Seq<char>, Option<Seq<char>>>,
) -> bool {
    &&& props.contains_key(rule.condition_property@)
    &&& props[rule.condition_property@] == Some(rule.condition_value@)
}

/// The conjunction of the applicable rule predicates against one target
/// name, or `None` when no rule applies to it.
pub open spec fn spec_rlac_conj(
    rules: Seq<RowLevelAccessControl>,
    props: Map<Seq<char>, Option<Seq<char>>>,
    t: Seq<char>,
) -> Option<ExprS>
    decreases rules.len(),
{
    if rules.len() == 0 {
        None
    } else {
        let rest = spec_rlac_conj(rules.skip(1), props, t);
        if rules[0].target_model@ == t && spec_applicable(rules[0], props) {
            match rest {
                None => Some(rules[0].predicate@),
                Some(r) => Some(
                    ExprS::And { left: Box::new(rules[0].predicate@), right: Box::new(r) },
                ),
            }
        } else {
            rest
        }
    }
}

/// Inject the applicable access predicates: every scan of a rule's target
/// gains a filter with the conjunction of the applicable predicates; other
/// nodes are kept, their inputs rewritten.
pub open spec fn spec_inject(
    rules: Seq<RowLevelAccessControl>,
    props: Map<Seq<char>, Option<Seq<char>>>,
    p: PlanS,
) -> PlanS
    decreases p,
{
    match p {
        PlanS::TableScan { table } => {
            match spec_rlac_conj(rules, props, table) {
                None => p,
                Some(c) => PlanS::Filter { predicate: c, input: Box::new(p) },
            }
        },
        PlanS::Projection { columns, input } => PlanS::Projection {
            columns,
            input: Box::new(spec_inject(rules, props, *input)),
        },
        PlanS::Filter { predicate, input } => PlanS::Filter {
            predicate,
            input: Box::new(spec_inject(rules, props, *input)),
        },
        PlanS::SubqueryAlias { alias, input } => PlanS::SubqueryAlias {
            alias,
            input: Box::new(spec_inject(rules, props, *input)),
        },
    }
}

/// Does the rule apply under these session properties?
fn applicable(rule: &RowLevelAccessControl, props: &SessionProperties) -> (r: bool)
    ensures
        r == spec_applicable(*rule, props@),
{
    match props.get(&rule.condition_property) {
        Some(v) => match v {
            Some(s) => str_eq(s, &rule.condition_value),
            None => false,
        },
        None => false,
    }
}

/// Build the conjunction of the applicable rule predicates for one target,
/// reading the rules from index `i` on.
fn rlac_conj_from(
    rules: &Vec<RowLevelAccessControl>,
    i: usize,
    props: &SessionProperties,
    t: &String,
) -> (r: Option<Expr>)
    requires
        i <= rules@.len(),
    ensures
        crate::parser::m_expr(r, spec_rlac_conj(rules@.skip(i as int), props@, t@)),
    decreases rules@.len() - i,
{
    if i >= rules.len() {
        proof {
            assert(rules@.skip(i as int) =~= Seq::<RowLevelAccessControl>::empty());
        }
        None
    } else {
        let rest = rlac_conj_from(rules, i + 1, props, t);
        proof {
            assert(rules@.skip(i as int)[0] == rules@[i as int]);
            assert(rules@.skip(i as int).skip(1) =~= rules@.skip(i + 1));
        }
        if str_eq(&rules[i].target_model, t) && applicable(&rules[i], props) {
            match rest {
                None => Some(clone_expr(&rules[i].predicate)),
                Some(r) => Some(
                    Expr::And {
                        left: Box::new(clone_expr(&rules[i].predicate)),
                        right: Box::new(r),
                    },
                ),
            }
        } else {
            rest
        }
    }
}

/// One injection pass over a plan.
fn inject_rlac(
    rules: &Vec<RowLevelAccessControl>,
    props: &SessionProperties,
    p: &LogicalPlan,
) -> (r: LogicalPlan)
    ensures
        r@ == spec_inject(rules@, props@, p@),
    decreases *p,
{
    proof {
        assert(rules@.skip(0) =~= rules@);
    }
    match p {
        LogicalPlan::TableScan { table } => {
            let scan = LogicalPlan::TableScan { table: table.clone() };
            match rlac_conj_from(rules, 0, props, table) {
                None => scan,
                Some(c) => {
                    let ghost cv = c@;
                    let ghost sv = scan@;
                    let r = LogicalPlan::Filter { predicate: c, input: Box::new(scan) };
                    proof {
                        assert(r@ == PlanS::Filter { predicate: cv, input: Box::new(sv) });
                    }
                    r
                },
            }
        },
        LogicalPlan::Projection { columns, input } => {
            let sub = inject_rlac(rules, props, input);
            let ghost sv = sub@;
            let r = LogicalPlan::Projection {
                columns: crate::plan::clone_columns(columns),
                input: Box::new(sub),
            };
            proof {
                assert(r@ == PlanS::Projection {
                    columns: crate::plan::columns_view(*columns),
                    input: Box::new(sv),
                });
            }
            r
        },
        LogicalPlan::Filter { predicate, input } => {
            let sub = inject_rlac(rules, props, input);
            let ghost sv = sub@;
            let r = LogicalPlan::Filter {
                predicate: clone_expr(predicate),
                input: Box::new(sub),
            };
            proof {
                assert(r@ == PlanS::Filter { predicate: predicate@, input: Box::new(sv) });
            }
            r
        },
        LogicalPlan::SubqueryAlias { alias, input } => {
            let sub = inject_rlac(rules, props, input);
            let ghost sv = sub@;
            let r = LogicalPlan::SubqueryAlias {
                alias: alias.clone(),
                input: Box::new(sub),
            };
            proof {
                assert(r@ == PlanS::SubqueryAlias { alias: alias@, input: Box::new(sv) });
            }
            r
        },
    }
}

/// Is one access rule valid against the manifest: its target model exists
/// and the rule type-checks on it?
pub open spec fn spec_rule_ok(m: Manifest, rule: RowLevelAccessControl) -> bool {
    match find_model_in(m.models@, rule.target_model@) {
        Some(model) => spec_rlac_valid(rule, model),
        None => false,
    }
}

/// Are all the manifest's access rules valid?
pub open spec fn spec_rules_ok(m: Manifest) -> bool {
    forall|i: int| 0 <= i < m.rules@.len() ==> spec_rule_ok(m, #[trigger] m.rules@[i])
}

/// Check every access rule of the manifest against its target model.
fn check_all_rules(m: &Manifest) -> (r: Result<(), AnalyticsCoreError>)
    ensures
        r is Ok <==> spec_rules_ok(*m),
        r is Err ==> (r->Err_0).is_mdl_validation(),
{
    let n = m.rules.len();
    let mut i: usize = 0;
    while i < n
        invariant
            n == m.rules@.len(),
            i <= n,
            forall|k: int| 0 <= k < i ==> spec_rule_ok(*m, #[trigger] m.rules@[k]),
        decreases n - i,
    {
        match m.get_model(&m.rules[i].target_model) {
            None => {
                return Err(AnalyticsCoreError::MdlValidation(String::from_str(
                    "an access rule targets no model of the manifest",
                )));
            },
            Some(model) => {
                match validate_rlac_rule(&m.rules[i], model) {
                    Ok(_) => {},
                    Err(e) => {
                        return Err(e);
                    },
                }
            },
        }
        i += 1;
    }
    Ok(())
}

/// What a transformation hands back: rendered SQL text in `Unparse` mode,
/// the rewritten plan otherwise.
#[derive(Debug)]
pub enum RewrittenOutput {
    /// The rewritten query rendered back to SQL text.
    Sql(String),
    /// The rewritten plan, for direct execution.
    Plan(LogicalPlan),
}

/// Transform one SQL text against an analyzed model: check the raw input
/// limits, parse, expand views, and — in `LocalRuntime` and `Unparse` modes —
/// inject the applicable access predicates; `PermissionAnalyze` mode instead
/// validates every access rule. In `Unparse` mode the result is SQL text,
/// otherwise the rewritten plan. Each failure is the first violation found,
/// as a typed error.
pub fn transform(
    analyzed: &AnalyzedAnalyticsMDL,
    properties: &SessionProperties,
    sql: &str,
) -> (r: Result<RewrittenOutput, AnalyticsCoreError>)
    requires
        sql.spec_bytes().len() <= usize::MAX,
    ensures
        ({
            let parsed = spec_parse_sql(sql@);
            let defs = defs_map(analyzed.view_plans@);
            if !(0 < sql.spec_bytes().len() <= MAX_SQL_LENGTH) {
                r is Err && (r->Err_0).is_input_validation()
            } else if parsed is None {
                r is Err && (r->Err_0).is_sql_parse()
            } else {
                let expanded = spec_expand(defs, parsed->Some_0);
                match analyzed.mode {
                    Mode::PermissionAnalyze => {
                        if spec_rules_ok(analyzed.manifest) {
                            match r {
                                Ok(RewrittenOutput::Plan(p)) => p@ == expanded,
                                _ => false,
                            }
                        } else {
                            r is Err && (r->Err_0).is_mdl_validation()
                        }
                    },
                    Mode::LocalRuntime => {
                        let injected = spec_inject(
                            analyzed.manifest.rules@,
                            properties@,
                            expanded,
                        );
                        match r {
                            Ok(RewrittenOutput::Plan(p)) => p@ == injected,
                            _ => false,
                        }
                    },
                    Mode::Unparse => {
                        let injected = spec_inject(
                            analyzed.manifest.rules@,
                            properties@,
                            expanded,
                        );
                        match r {
                            Ok(RewrittenOutput::Sql(s)) => s@ == spec_unparse_query(
                                injected,
                            ),
                            _ => false,
                        }
                    },
                }
            }
        }),
{
    match validate_sql(sql) {
        Ok(_) => {},
        Err(e) => {
            return Err(e);
        },
    }
    let parsed = match parse_sql(sql) {
        Ok(p) => p,
        Err(e) => {
            return Err(e);
        },
    };
    let expanded = expand_with_defs(&analyzed.view_plans, &parsed);
    match analyzed.mode {
        Mode::PermissionAnalyze => {
            match check_all_rules(&analyzed.manifest) {
                Ok(_) => Ok(RewrittenOutput::Plan(expanded)),
                Err(e) => Err(e),
            }
        },
        Mode::LocalRuntime => {
            let injected = inject_rlac(&analyzed.manifest.rules, properties, &expanded);
            Ok(RewrittenOutput::Plan(injected))
        },
        Mode::Unparse => {
            let injected = inject_rlac(&analyzed.manifest.rules, properties, &expanded);
            Ok(RewrittenOutput::Sql(unparse_plan(&injected)))
        },
    }
}

} // verus!
