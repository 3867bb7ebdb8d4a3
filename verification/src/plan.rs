//! The logical plan tree: a tagged-variant representation of a parsed query,
//! with a ghost mirror used by contracts.

use vstd::prelude::*;
use crate::text::str_eq;

verus! {

/// Ghost form of a scalar expression.
pub enum ExprS {
    /// A reference to a column of the enclosing model.
    Column { name: Seq<char> },
    /// A reference to a column of a related model.
    Qualified { model: Seq<char>, column: Seq<char> },
    /// An integer literal.
    IntLit { value: u64 },
    /// A string literal.
    StrLit { value: Seq<char> },
    /// A boolean literal.
    BoolLit { value: bool },
    /// Equality of two operands.
    Eq { left: Box<ExprS>, right: Box<ExprS> },
    /// Conjunction of two predicates.
    And { left: Box<ExprS>, right: Box<ExprS> },
}

/// A scalar expression over columns and literals, as it appears in filter
/// predicates and access rules.
#[derive(Debug)]
pub enum Expr {
    /// A reference to a column of the enclosing model.
    Column { name: String },
    /// A reference to a column of a related model.
    Qualified { model: String, column: String },
    /// An integer literal.
    IntLit { value: u64 },
    /// A string literal.
    StrLit { value: String },
    /// A boolean literal.
    BoolLit { value: bool },
    /// Equality of two operands.
    Eq { left: Box<Expr>, right: Box<Expr> },
    /// Conjunction of two predicates.
    And { left: Box<Expr>, right: Box<Expr> },
}

/// The ghost form of an expression.
pub open spec fn expr_view(e: Expr) -> ExprS
    decreases e,
{
    match e {
        Expr::Column { name } => ExprS::Column { name: name@ },
        Expr::Qualified { model, column } => ExprS::Qualified {
            model: model@,
            column: column@,
        },
        Expr::IntLit { value } => ExprS::IntLit { value },
        Expr::StrLit { value } => ExprS::StrLit { value: value@ },
        Expr::BoolLit { value } => ExprS::BoolLit { value },
        Expr::Eq { left, right } => ExprS::Eq {
            left: Box::new(expr_view(*left)),
            right: Box::new(expr_view(*right)),
        },
        Expr::And { left, right } => ExprS::And {
            left: Box::new(expr_view(*left)),
            right: Box::new(expr_view(*right)),
        },
    }
}

impl View for Expr {
    type V = ExprS;

    open spec fn view(&self) -> ExprS {
        expr_view(*self)
    }
}

/// Copy an expression; the copy has the same ghost form.
pub fn clone_expr(e: &Expr) -> (r: Expr)
    ensures
        r@ == e@,
    decreases *e,
{
    match e {
        Expr::Column { name } => Expr::Column { name: name.clone() },
        Expr::Qualified { model, column } => Expr::Qualified {
            model: model.clone(),
            column: column.clone(),
        },
        Expr::IntLit { value } => Expr::IntLit { value: *value },
        Expr::StrLit { value } => Expr::StrLit { value: value.clone() },
        Expr::BoolLit { value } => Expr::BoolLit { value: *value },
        Expr::Eq { left, right } => Expr::Eq {
            left: Box::new(clone_expr(left)),
            right: Box::new(clone_expr(right)),
        },
        Expr::And { left, right } => Expr::And {
            left: Box::new(clone_expr(left)),
            right: Box::new(clone_expr(right)),
        },
    }
}

/// Ghost form of a plan node.
pub enum PlanS {
    /// A leaf scan of a named table.
    TableScan { table: Seq<char> },
    /// Projection of named columns, or of every column when `columns` is
    /// `None`.
    Projection { columns: Option<Seq<Seq<char>>>, input: Box<PlanS> },
    /// A filter over its input.
    Filter { predicate: ExprS, input: Box<PlanS> },
    /// A subquery made referenceable under a name.
    SubqueryAlias { alias: Seq<char>, input: Box<PlanS> },
}

/// A node of the logical plan tree.
#[derive(Debug)]
pub enum LogicalPlan {
    /// A leaf scan of a named table.
    TableScan { table: String },
    /// Projection of named columns, or of every column when `columns` is
    /// `None`.
    Projection { columns: Option<Vec<String>>, input: Box<LogicalPlan> },
    /// A filter over its input.
    Filter { predicate: Expr, input: Box<LogicalPlan> },
    /// A subquery made referenceable under a name.
    SubqueryAlias { alias: String, input: Box<LogicalPlan> },
}

/// The ghost forms of a sequence of strings.
pub open spec fn names_view(v: Seq<String>) -> Seq<Seq<char>> {
    Seq::new(v.len(), |i: int| v[i]@)
}

/// The ghost form of a column list.
pub open spec fn columns_view(columns: Option<Vec<String>>) -> Option<Seq<Seq<char>>> {
    match columns {
        None => None,
        Some(v) => Some(names_view(v@)),
    }
}

/// The ghost form of a plan node.
pub open spec fn plan_view(p: LogicalPlan) -> PlanS
    decreases p,
{
    match p {
        LogicalPlan::TableScan { table } => PlanS::TableScan { table: table@ },
        LogicalPlan::Projection { columns, input } => PlanS::Projection {
            columns: columns_view(columns),
            input: Box::new(plan_view(*input)),
        },
        LogicalPlan::Filter { predicate, input } => PlanS::Filter {
            predicate: predicate@,
            input: Box::new(plan_view(*input)),
        },
        LogicalPlan::SubqueryAlias { alias, input } => PlanS::SubqueryAlias {
            alias: alias@,
            input: Box::new(plan_view(*input)),
        },
    }
}

impl View for LogicalPlan {
    type V = PlanS;

    open spec fn view(&self) -> PlanS {
        plan_view(*self)
    }
}

/// Copy a column list; the copy has the same ghost form.
pub fn clone_columns(columns: &Option<Vec<String>>) -> (r: Option<Vec<String>>)
    ensures
        columns_view(r) == columns_view(*columns),
{
    match columns {
        None => None,
        Some(v) => {
            let c = v.clone();
            proof {
                assert forall|i: int| 0 <= i < v@.len() implies c@[i]@ == v@[i]@ by {
                    assert(cloned::<String>(v@[i], c@[i]));
                }
                assert(names_view(c@) =~= names_view(v@));
            }
            Some(c)
        },
    }
}

/// Copy a plan tree; the copy has the same ghost form.
pub fn clone_plan(p: &LogicalPlan) -> (r: LogicalPlan)
    ensures
        r@ == p@,
    decreases *p,
{
    match p {
        LogicalPlan::TableScan { table } => LogicalPlan::TableScan { table: table.clone() },
        LogicalPlan::Projection { columns, input } => LogicalPlan::Projection {
            columns: clone_columns(columns),
            input: Box::new(clone_plan(input)),
        },
        LogicalPlan::Filter { predicate, input } => LogicalPlan::Filter {
            predicate: clone_expr(predicate),
            input: Box::new(clone_plan(input)),
        },
        LogicalPlan::SubqueryAlias { alias, input } => LogicalPlan::SubqueryAlias {
            alias: alias.clone(),
            input: Box::new(clone_plan(input)),
        },
    }
}

/// Structural equality of two ghost expressions is plain equality; this exec
/// check decides it for the corresponding trees.
pub fn expr_eq(a: &Expr, b: &Expr) -> (r: bool)
    ensures
        r == (a@ == b@),
    decreases *a,
{
    match (a, b) {
        (Expr::Column { name: n1 }, Expr::Column { name: n2 }) => str_eq(n1, n2),
        (
            Expr::Qualified { model: m1, column: c1 },
            Expr::Qualified { model: m2, column: c2 },
        ) => str_eq(m1, m2) && str_eq(c1, c2),
        (Expr::IntLit { value: v1 }, Expr::IntLit { value: v2 }) => v1 == v2,
        (Expr::StrLit { value: v1 }, Expr::StrLit { value: v2 }) => str_eq(v1, v2),
        (Expr::BoolLit { value: v1 }, Expr::BoolLit { value: v2 }) => v1 == v2,
        (Expr::Eq { left: l1, right: r1 }, Expr::Eq { left: l2, right: r2 }) => expr_eq(
            l1,
            l2,
        ) && expr_eq(r1, r2),
        (Expr::And { left: l1, right: r1 }, Expr::And { left: l2, right: r2 }) => expr_eq(
            l1,
            l2,
        ) && expr_eq(r1, r2),
        _ => false,
    }
}

/// Decide equality of the column lists' ghost forms.
fn columns_eq(a: &Option<Vec<String>>, b: &Option<Vec<String>>) -> (r: bool)
    ensures
        r == (columns_view(*a) == columns_view(*b)),
{
    match (a, b) {
        (None, None) => true,
        (Some(v1), Some(v2)) => {
            proof {
                assert(*a == Some(*v1));
                assert(*b == Some(*v2));
                assert(columns_view(*a) == Some(names_view(v1@)));
                assert(columns_view(*b) == Some(names_view(v2@)));
            }
            let n = v1.len();
            if n != v2.len() {
                proof {
                    assert(names_view(v1@).len() == v1@.len());
                    assert(names_view(v2@).len() == v2@.len());
                }
                return false;
            }
            let mut i: usize = 0;
            while i < n
                invariant
                    n == v1@.len(),
                    n == v2@.len(),
                    i <= n,
                    columns_view(*a) == Some(names_view(v1@)),
                    columns_view(*b) == Some(names_view(v2@)),
                    forall|k: int| 0 <= k < i ==> v1@[k]@ == v2@[k]@,
                decreases n - i,
            {
                if !str_eq(&v1[i], &v2[i]) {
                    proof {
                        assert(names_view(v1@)[i as int] != names_view(v2@)[i as int]);
                    }
                    return false;
                }
                i += 1;
            }
            proof {
                assert(names_view(v1@) =~= names_view(v2@));
            }
            true
        },
        _ => false,
    }
}

/// Decide structural equality of two plan trees' ghost forms.
pub fn plan_eq(a: &LogicalPlan, b: &LogicalPlan) -> (r: bool)
    ensures
        r == (a@ == b@),
    decreases *a,
{
    match (a, b) {
        (LogicalPlan::TableScan { table: t1 }, LogicalPlan::TableScan { table: t2 }) => str_eq(
            t1,
            t2,
        ),
        (
            LogicalPlan::Projection { columns: c1, input: i1 },
            LogicalPlan::Projection { columns: c2, input: i2 },
        ) => columns_eq(c1, c2) && plan_eq(i1, i2),
        (
            LogicalPlan::Filter { predicate: p1, input: i1 },
            LogicalPlan::Filter { predicate: p2, input: i2 },
        ) => expr_eq(p1, p2) && plan_eq(i1, i2),
        (
            LogicalPlan::SubqueryAlias { alias: a1, input: i1 },
            LogicalPlan::SubqueryAlias { alias: a2, input: i2 },
        ) => str_eq(a1, a2) && plan_eq(i1, i2),
        _ => false,
    }
}

} // verus!
