//! The validator: structural and semantic checks of a manifest, and of
//! individual row-level access-control rules. Pure functions; a failed check
//! is a returned validation error, never a panic.

use vstd::prelude::*;
use crate::error::AnalyticsCoreError;
use crate::lineage::{build_lineage, spec_acyclic, spec_cycle_error, spec_names_unique,
    spec_node_count, spec_node_name, spec_views_parse, Lineage};
use crate::manifest::{find_column_in, find_model_in, ColType, Manifest, Model,
    RowLevelAccessControl};
use crate::plan::{Expr, ExprS};
use crate::text::str_eq;

verus! {

/// Every model's primary key names one of its own columns.
pub open spec fn spec_pk_ok(m: Manifest) -> bool {
    forall|i: int|
        0 <= i < m.models@.len() ==> find_column_in(
            (#[trigger] m.models@[i]).columns@,
            m.models@[i].primary_key@,
        ) is Some
}

/// Every column reference of the expression resolves: a plain column on the
/// model itself, a qualified column on the named model of the manifest.
pub open spec fn spec_expr_refs_ok(m: Manifest, model: Model, e: ExprS) -> bool
    decreases e,
{
    match e {
        ExprS::Column { name } => find_column_in(model.columns@, name) is Some,
        ExprS::Qualified { model: mn, column: cn } => match find_model_in(m.models@, mn) {
            Some(rm) => find_column_in(rm.columns@, cn) is Some,
            None => false,
        },
        ExprS::Eq { left, right } => spec_expr_refs_ok(m, model, *left) && spec_expr_refs_ok(
            m,
            model,
            *right,
        ),
        ExprS::And { left, right } => spec_expr_refs_ok(m, model, *left)
            && spec_expr_refs_ok(m, model, *right),
        _ => true,
    }
}

/// Every calculated column of every model resolves its references.
pub open spec fn spec_cols_ok(m: Manifest) -> bool {
    forall|i: int, k: int|
        0 <= i < m.models@.len() && 0 <= k < m.models@[i].columns@.len() ==> match (
        #[trigger] m.models@[i].columns@[k]).expression {
            None => true,
            Some(e) => spec_expr_refs_ok(m, m.models@[i], e@),
        }
}

/// A manifest is valid: unique names, resolved primary keys and column
/// references, parsing view statements, and no reference cycle.
pub open spec fn spec_manifest_valid(m: Manifest) -> bool {
    &&& spec_names_unique(m)
    &&& spec_pk_ok(m)
    &&& spec_cols_ok(m)
    &&& spec_views_parse(m)
    &&& spec_acyclic(m)
}

/// Check that an expression's references resolve.
fn check_expr_refs(m: &Manifest, model: &Model, e: &Expr) -> (r: bool)
    ensures
        r == spec_expr_refs_ok(*m, *model, e@),
    decreases *e,
{
    match e {
        Expr::Column { name } => model.get_column(name).is_some(),
        Expr::Qualified { model: mn, column: cn } => match m.get_model(mn) {
            Some(rm) => rm.get_column(cn).is_some(),
            None => false,
        },
        Expr::Eq { left, right } => check_expr_refs(m, model, left) && check_expr_refs(
            m,
            model,
            right,
        ),
        Expr::And { left, right } => check_expr_refs(m, model, left) && check_expr_refs(
            m,
            model,
            right,
        ),
        _ => true,
    }
}

/// The name of graph node `i` of the manifest.
fn node_name<'a>(m: &'a Manifest, i: usize) -> (r: &'a String)
    requires
        i < spec_node_count(*m),
    ensures
        r@ == spec_node_name(*m, i as int),
{
    if i < m.models.len() {
        &m.models[i].name
    } else {
        &m.views[i - m.models.len()].name
    }
}

/// Validate a manifest and hand back its lineage: names unique across models
/// and views, every primary key an existing column, every column reference
/// resolved, every view statement parsing, and no reference cycle. Succeeds
/// exactly on valid manifests; every failure is a validation error.
pub fn validate_with_lineage(m: &Manifest) -> (r: Result<Lineage, AnalyticsCoreError>)
    requires
        spec_node_count(*m) <= usize::MAX,
    ensures
        match r {
            Ok(l) => spec_manifest_valid(*m) && l.wf_for(*m),
            Err(e) => {
                &&& !spec_manifest_valid(*m)
                &&& e.is_mdl_validation()
                &&& spec_names_unique(*m) && spec_pk_ok(*m) && spec_cols_ok(*m)
                    && spec_views_parse(*m) ==> spec_cycle_error(*m, e.spec_message())
            },
        },
{
    let nm = m.models.len();
    let nv = m.views.len();
    let n = nm + nv;
    // Name uniqueness across models and views.
    let mut i: usize = 0;
    while i < n
        invariant
            nm == m.models@.len(),
            nv == m.views@.len(),
            n == nm + nv,
            i <= n,
            forall|a: int, b: int|
                0 <= a < b < n && a < i ==> spec_node_name(*m, a) != spec_node_name(*m, b),
        decreases n - i,
    {
        let mut j: usize = i + 1;
        while j < n
            invariant
                nm == m.models@.len(),
                nv == m.views@.len(),
                n == nm + nv,
                i < j,
                j <= n,
                i < n,
                forall|b: int| i < b < j ==> spec_node_name(*m, i as int) != spec_node_name(*m, b),
            decreases n - j,
        {
            if str_eq(node_name(m, i), node_name(m, j)) {
                return Err(AnalyticsCoreError::MdlValidation(String::from_str(
                    "two models or views share a name",
                )));
            }
            j += 1;
        }
        i += 1;
    }
    // Primary keys.
    let mut i: usize = 0;
    while i < nm
        invariant
            nm == m.models@.len(),
            i <= nm,
            forall|a: int|
                0 <= a < i ==> find_column_in(
                    (#[trigger] m.models@[a]).columns@,
                    m.models@[a].primary_key@,
                ) is Some,
        decreases nm - i,
    {
        if m.models[i].get_column(&m.models[i].primary_key).is_none() {
            return Err(AnalyticsCoreError::MdlValidation(String::from_str(
                "a primary key names no column of its model",
            )));
        }
        i += 1;
    }
    // Column references.
    let mut i: usize = 0;
    while i < nm
        invariant
            nm == m.models@.len(),
            i <= nm,
            forall|a: int, k: int|
                0 <= a < i && 0 <= k < m.models@[a].columns@.len() ==> match (
                #[trigger] m.models@[a].columns@[k]).expression {
                    None => true,
                    Some(e) => spec_expr_refs_ok(*m, m.models@[a], e@),
                },
        decreases nm - i,
    {
        let nc = m.models[i].columns.len();
        let mut k: usize = 0;
        while k < nc
            invariant
                nm == m.models@.len(),
                i < nm,
                nc == m.models@[i as int].columns@.len(),
                k <= nc,
                forall|t: int|
                    0 <= t < k ==> match (#[trigger] m.models@[i as int].columns@[t]).expression {
                        None => true,
                        Some(e) => spec_expr_refs_ok(*m, m.models@[i as int], e@),
                    },
            decreases nc - k,
        {
            match &m.models[i].columns[k].expression {
                None => {},
                Some(e) => {
                    if !check_expr_refs(m, &m.models[i], e) {
                        return Err(AnalyticsCoreError::MdlValidation(String::from_str(
                            "a calculated column references an unknown column",
                        )));
                    }
                },
            }
            k += 1;
        }
        i += 1;
    }
    // View statements and the reference graph.
    build_lineage(m)
}

/// Validate a manifest. Succeeds exactly on valid manifests; every failure is
/// a validation error, never a panic.
pub fn validate(m: &Manifest) -> (r: Result<(), AnalyticsCoreError>)
    requires
        spec_node_count(*m) <= usize::MAX,
    ensures
        r is Ok <==> spec_manifest_valid(*m),
        r is Err ==> (r->Err_0).is_mdl_validation(),
        r is Err && spec_names_unique(*m) && spec_pk_ok(*m) && spec_cols_ok(*m)
            && spec_views_parse(*m) ==> spec_cycle_error(*m, (r->Err_0).spec_message()),
{
    match validate_with_lineage(m) {
        Ok(_) => Ok(()),
        Err(e) => Err(e),
    }
}

/// A manifest in which two views reference each other — or one view
/// references itself — is never valid: validation rejects it with a
/// validation error rather than looping, because a valid manifest's
/// reference graph admits a ranking that strictly drops along every edge.
pub proof fn lemma_view_cycle_invalid(m: Manifest, vi: int, vj: int)
    requires
        0 <= vi < m.views@.len(),
        0 <= vj < m.views@.len(),
        crate::lineage::spec_refs_of_node(m, m.models@.len() + vi).contains(
            m.views@[vj].name@,
        ),
        crate::lineage::spec_refs_of_node(m, m.models@.len() + vj).contains(
            m.views@[vi].name@,
        ),
    ensures
        !spec_manifest_valid(m),
{
    if spec_acyclic(m) {
        let rank = choose|rank: Seq<int>|
            rank.len() == spec_node_count(m) && forall|i: int, j: int|
                crate::lineage::spec_edge(m, i, j) ==> rank[j] < rank[i];
        let a = m.models@.len() + vi;
        let b = m.models@.len() + vj;
        assert(spec_node_name(m, b) == m.views@[vj].name@);
        assert(spec_node_name(m, a) == m.views@[vi].name@);
        assert(crate::lineage::spec_edge(m, a, b));
        assert(crate::lineage::spec_edge(m, b, a));
        assert(rank[b] < rank[a]);
        assert(rank[a] < rank[b]);
    }
}

/// The inferred type of an expression over the columns of one model, or
/// `None` where the expression does not type-check on that model.
pub open spec fn spec_expr_type(model: Model, e: ExprS) -> Option<ColType>
    decreases e,
{
    match e {
        ExprS::Column { name } => match find_column_in(model.columns@, name) {
            Some(c) => Some(c.col_type),
            None => None,
        },
        ExprS::Qualified { model: mn, column: cn } => None,
        ExprS::IntLit { value } => Some(ColType::Integer),
        ExprS::StrLit { value } => Some(ColType::Varchar),
        ExprS::BoolLit { value } => Some(ColType::Boolean),
        ExprS::Eq { left, right } => {
            let lt = spec_expr_type(model, *left);
            let rt = spec_expr_type(model, *right);
            if lt is Some && lt == rt {
                Some(ColType::Boolean)
            } else {
                None
            }
        },
        ExprS::And { left, right } => {
            if spec_expr_type(model, *left) == Some(ColType::Boolean) && spec_expr_type(
                model,
                *right,
            ) == Some(ColType::Boolean) {
                Some(ColType::Boolean)
            } else {
                None
            }
        },
    }
}

/// Infer the type of an expression over the columns of one model.
fn infer_expr_type(model: &Model, e: &Expr) -> (r: Option<ColType>)
    ensures
        r == spec_expr_type(*model, e@),
    decreases *e,
{
    match e {
        Expr::Column { name } => match model.get_column(name) {
            Some(c) => Some(c.col_type),
            None => None,
        },
        Expr::Qualified { model: mn, column: cn } => None,
        Expr::IntLit { value } => Some(ColType::Integer),
        Expr::StrLit { value } => Some(ColType::Varchar),
        Expr::BoolLit { value } => Some(ColType::Boolean),
        Expr::Eq { left, right } => {
            let lt = infer_expr_type(model, left);
            let rt = infer_expr_type(model, right);
            match (lt, rt) {
                (Some(a), Some(b)) => if a == b {
                    Some(ColType::Boolean)
                } else {
                    None
                },
                _ => None,
            }
        },
        Expr::And { left, right } => {
            let lt = infer_expr_type(model, left);
            let rt = infer_expr_type(model, right);
            match (lt, rt) {
                (Some(ColType::Boolean), Some(ColType::Boolean)) => Some(ColType::Boolean),
                _ => None,
            }
        },
    }
}

/// Is a row-level access-control rule valid against its target model? The
/// rule must bind to that model by name, and its predicate must type-check
/// as a boolean over the model's own columns.
pub open spec fn spec_rlac_valid(rule: RowLevelAccessControl, model: Model) -> bool {
    &&& rule.target_model@ == model.name@
    &&& spec_expr_type(model, rule.predicate@) == Some(ColType::Boolean)
}

/// Validate one row-level access-control rule against its target model: the
/// rule must name that model, every column its predicate references must
/// exist on the model, and the predicate must be boolean. Succeeds exactly on
/// valid rules; a violated invariant is a returned validation error, never a
/// silently ignored rule.
pub fn validate_rlac_rule(rule: &RowLevelAccessControl, model: &Model) -> (r: Result<
    (),
    AnalyticsCoreError,
>)
    ensures
        r is Ok <==> spec_rlac_valid(*rule, *model),
        r is Err ==> (r->Err_0).is_mdl_validation(),
{
    if !str_eq(&rule.target_model, &model.name) {
        return Err(AnalyticsCoreError::MdlValidation(String::from_str(
            "the rule does not target this model",
        )));
    }
    match infer_expr_type(model, &rule.predicate) {
        Some(ColType::Boolean) => Ok(()),
        Some(_) => Err(AnalyticsCoreError::MdlValidation(String::from_str(
            "the rule predicate is not boolean",
        ))),
        None => Err(AnalyticsCoreError::MdlValidation(String::from_str(
            "the rule predicate does not type-check on the model's columns",
        ))),
    }
}

} // verus!
