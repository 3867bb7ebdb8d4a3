//! The view expansion rewrite: every leaf scan of a name that a definition
//! map covers is replaced by the defining subquery, wrapped in an alias so it
//! stays referenceable under the original name. Scans of models or of names
//! outside the manifest are left unchanged. The pass is idempotent: once
//! every defined scan is gone, a second pass changes nothing.

use vstd::prelude::*;
use std::sync::Arc;
use crate::analyze::AnalyzedAnalyticsMDL;
use crate::error::AnalyticsCoreError;
use crate::plan::{clone_plan, LogicalPlan, PlanS};
use crate::text::str_eq;

verus! {

/// The mapping that a list of view definitions denotes; later entries
/// override earlier ones.
pub open spec fn defs_map(s: Seq<(String, LogicalPlan)>) -> Map<Seq<char>, PlanS>
    decreases s.len(),
{
    if s.len() == 0 {
        Map::empty()
    } else {
        defs_map(s.drop_last()).insert(s.last().0@, s.last().1@)
    }
}

/// One expansion pass: replace each defined scan by its definition under an
/// alias; leave every other scan unchanged.
pub open spec fn spec_expand(defs: Map<Seq<char>, PlanS>, p: PlanS) -> PlanS
    decreases p,
{
    match p {
        PlanS::TableScan { table } => {
            if defs.contains_key(table) {
                PlanS::SubqueryAlias { alias: table, input: Box::new(defs[table]) }
            } else {
                p
            }
        },
        PlanS::Projection { columns, input } => PlanS::Projection {
            columns,
            input: Box::new(spec_expand(defs, *input)),
        },
        PlanS::Filter { predicate, input } => PlanS::Filter {
            predicate,
            input: Box::new(spec_expand(defs, *input)),
        },
        PlanS::SubqueryAlias { alias, input } => PlanS::SubqueryAlias {
            alias,
            input: Box::new(spec_expand(defs, *input)),
        },
    }
}

/// The plan scans no name of the given set.
pub open spec fn no_defined_scans(dom: Set<Seq<char>>, p: PlanS) -> bool
    decreases p,
{
    match p {
        PlanS::TableScan { table } => !dom.contains(table),
        PlanS::Projection { columns, input } => no_defined_scans(dom, *input),
        PlanS::Filter { predicate, input } => no_defined_scans(dom, *input),
        PlanS::SubqueryAlias { alias, input } => no_defined_scans(dom, *input),
    }
}

/// A plan that scans no defined name is left exactly as it is.
pub proof fn lemma_expand_fixed(defs: Map<Seq<char>, PlanS>, p: PlanS)
    requires
        no_defined_scans(defs.dom(), p),
    ensures
        spec_expand(defs, p) == p,
    decreases p,
{
    match p {
        PlanS::TableScan { table } => {
            assert(!defs.dom().contains(table));
        },
        PlanS::Projection { columns, input } => {
            lemma_expand_fixed(defs, *input);
        },
        PlanS::Filter { predicate, input } => {
            lemma_expand_fixed(defs, *input);
        },
        PlanS::SubqueryAlias { alias, input } => {
            lemma_expand_fixed(defs, *input);
        },
    }
}

/// View expansion is idempotent: when every definition is itself free of
/// defined scans — as the analyzed model guarantees — running the pass on an
/// already expanded plan is a no-op, so two passes give exactly what one
/// pass gives.
pub proof fn lemma_expand_idempotent(defs: Map<Seq<char>, PlanS>, p: PlanS)
    requires
        forall|t: Seq<char>|
            #[trigger] defs.contains_key(t) ==> no_defined_scans(defs.dom(), defs[t]),
    ensures
        spec_expand(defs, spec_expand(defs, p)) == spec_expand(defs, p),
    decreases p,
{
    match p {
        PlanS::TableScan { table } => {
            if defs.contains_key(table) {
                lemma_expand_fixed(defs, defs[table]);
            }
        },
        PlanS::Projection { columns, input } => {
            lemma_expand_idempotent(defs, *input);
        },
        PlanS::Filter { predicate, input } => {
            lemma_expand_idempotent(defs, *input);
        },
        PlanS::SubqueryAlias { alias, input } => {
            lemma_expand_idempotent(defs, *input);
        },
    }
}

/// Expansion introduces no scan of a name in `protected`, provided every
/// definition is free of them and every scanned name of `protected` is
/// defined.
pub proof fn lemma_expand_scans(
    defs: Map<Seq<char>, PlanS>,
    protected: Set<Seq<char>>,
    p: PlanS,
)
    requires
        forall|t: Seq<char>|
            #[trigger] defs.contains_key(t) ==> no_defined_scans(protected, defs[t]),
        forall|t: Seq<char>|
            crate::lineage::spec_scan_names(p).contains(t) && protected.contains(t)
                ==> defs.contains_key(t),
    ensures
        no_defined_scans(protected, spec_expand(defs, p)),
    decreases p,
{
    match p {
        PlanS::TableScan { table } => {
            assert(crate::lineage::spec_scan_names(p) =~= seq![table]);
            assert(crate::lineage::spec_scan_names(p)[0] == table);
            assert(crate::lineage::spec_scan_names(p).contains(table));
        },
        PlanS::Projection { columns, input } => {
            lemma_expand_scans(defs, protected, *input);
        },
        PlanS::Filter { predicate, input } => {
            lemma_expand_scans(defs, protected, *input);
        },
        PlanS::SubqueryAlias { alias, input } => {
            lemma_expand_scans(defs, protected, *input);
        },
    }
}

/// Expansion reads a definition map only at the names the plan scans: two
/// maps that agree there expand the plan alike.
pub proof fn lemma_expand_agree(
    d1: Map<Seq<char>, PlanS>,
    d2: Map<Seq<char>, PlanS>,
    p: PlanS,
)
    requires
        forall|t: Seq<char>|
            #[trigger] crate::lineage::spec_scan_names(p).contains(t) ==> (d1.contains_key(
                t,
            ) <==> d2.contains_key(t)) && (d1.contains_key(t) ==> d1[t] == d2[t]),
    ensures
        spec_expand(d1, p) == spec_expand(d2, p),
    decreases p,
{
    match p {
        PlanS::TableScan { table } => {
            assert(crate::lineage::spec_scan_names(p) =~= seq![table]);
            assert(crate::lineage::spec_scan_names(p)[0] == table);
            assert(crate::lineage::spec_scan_names(p).contains(table));
        },
        PlanS::Projection { columns, input } => {
            assert(crate::lineage::spec_scan_names(p) == crate::lineage::spec_scan_names(
                *input,
            ));
            lemma_expand_agree(d1, d2, *input);
        },
        PlanS::Filter { predicate, input } => {
            assert(crate::lineage::spec_scan_names(p) == crate::lineage::spec_scan_names(
                *input,
            ));
            lemma_expand_agree(d1, d2, *input);
        },
        PlanS::SubqueryAlias { alias, input } => {
            assert(crate::lineage::spec_scan_names(p) == crate::lineage::spec_scan_names(
                *input,
            ));
            lemma_expand_agree(d1, d2, *input);
        },
    }
}

/// Look up a view definition by name.
fn lookup_def<'a>(defs: &'a Vec<(String, LogicalPlan)>, name: &String) -> (r: Option<
    &'a LogicalPlan,
>)
    ensures
        match r {
            Some(p) => defs_map(defs@).contains_key(name@) && defs_map(defs@)[name@] == p@,
            None => !defs_map(defs@).contains_key(name@),
        },
{
    let n = defs.len();
    let mut i: usize = n;
    proof {
        assert(defs@.take(n as int) =~= defs@);
    }
    while i > 0
        invariant
            n == defs@.len(),
            i <= n,
            defs_map(defs@).contains_key(name@) == defs_map(
                defs@.take(i as int),
            ).contains_key(name@),
            defs_map(defs@.take(i as int)).contains_key(name@) ==> defs_map(
                defs@,
            )[name@] == defs_map(defs@.take(i as int))[name@],
        decreases i,
    {
        i -= 1;
        proof {
            assert(defs@.take(i + 1).drop_last() =~= defs@.take(i as int));
            assert(defs@.take(i + 1).last() == defs@[i as int]);
        }
        if str_eq(&defs[i].0, name) {
            return Some(&defs[i].1);
        }
    }
    proof {
        assert(defs@.take(0) =~= Seq::<(String, LogicalPlan)>::empty());
    }
    None
}

/// One expansion pass over a plan, against a list of view definitions.
pub fn expand_with_defs(defs: &Vec<(String, LogicalPlan)>, p: &LogicalPlan) -> (r:
    LogicalPlan)
    ensures
        r@ == spec_expand(defs_map(defs@), p@),
    decreases *p,
{
    match p {
        LogicalPlan::TableScan { table } => {
            match lookup_def(defs, table) {
                Some(d) => {
                    let ghost dv = d@;
                    let sub = LogicalPlan::SubqueryAlias {
                        alias: table.clone(),
                        input: Box::new(clone_plan(d)),
                    };
                    proof {
                        assert(sub@ == PlanS::SubqueryAlias {
                            alias: table@,
                            input: Box::new(dv),
                        });
                    }
                    sub
                },
                None => LogicalPlan::TableScan { table: table.clone() },
            }
        },
        LogicalPlan::Projection { columns, input } => {
            let sub = expand_with_defs(defs, input);
            let ghost sv = sub@;
            let r = LogicalPlan::Projection {
                columns: crate::plan::clone_columns(columns),
                input: Box::new(sub),
            };
            proof {
                assert(r@ == PlanS::Projection {
                    columns: crate::plan::columns_view(*columns),
                    input: Box::new(sv),
                });
            }
            r
        },
        LogicalPlan::Filter { predicate, input } => {
            let sub = expand_with_defs(defs, input);
            let ghost sv = sub@;
            let r = LogicalPlan::Filter {
                predicate: crate::plan::clone_expr(predicate),
                input: Box::new(sub),
            };
            proof {
                assert(r@ == PlanS::Filter { predicate: predicate@, input: Box::new(sv) });
            }
            r
        },
        LogicalPlan::SubqueryAlias { alias, input } => {
            let sub = expand_with_defs(defs, input);
            let ghost sv = sub@;
            let r = LogicalPlan::SubqueryAlias {
                alias: alias.clone(),
                input: Box::new(sub),
            };
            proof {
                assert(r@ == PlanS::SubqueryAlias { alias: alias@, input: Box::new(sv) });
            }
            r
        },
    }
}

/// The view expansion rule: a rewrite pass invoked during the analysis
/// phase, given the analyzed model as its context.
pub struct ExpandAnalyticsViewRule {
    /// The analyzed model whose views the rule expands.
    pub analyzed_analytics_mdl: Arc<AnalyzedAnalyticsMDL>,
}

impl ExpandAnalyticsViewRule {
    /// Make the rule for one analyzed model.
    pub fn new(analyzed_analytics_mdl: Arc<AnalyzedAnalyticsMDL>) -> (r:
        ExpandAnalyticsViewRule)
        ensures
            r.analyzed_analytics_mdl == analyzed_analytics_mdl,
    {
        ExpandAnalyticsViewRule { analyzed_analytics_mdl }
    }

    /// Run the pass: replace every scan of a view of the analyzed model by
    /// the view's expanded defining subquery under an alias. Always
    /// succeeds; the result is exactly one expansion pass over the plan.
    pub fn analyze(&self, plan: &LogicalPlan) -> (r: Result<
        LogicalPlan,
        AnalyticsCoreError,
    >)
        ensures
            r is Ok,
            (r->Ok_0)@ == spec_expand(
                defs_map(self.analyzed_analytics_mdl.view_plans@),
                plan@,
            ),
    {
        Ok(expand_with_defs(&self.analyzed_analytics_mdl.view_plans, plan))
    }

    /// The rule's name.
    pub fn name(&self) -> (r: &'static str)
        ensures
            r@ == "ExpandAnalyticsViewRule"@,
    {
        "ExpandAnalyticsViewRule"
    }
}

} // verus!
