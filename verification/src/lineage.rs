//! The lineage: the reference graph among models and views. Nodes are the
//! models followed by the views; an edge points from an entity to an entity
//! it references. Building the lineage rejects reference cycles and produces
//! an elimination order in which every node comes after everything it
//! references — the certificate that the graph is acyclic.

use vstd::prelude::*;
use crate::error::AnalyticsCoreError;
use crate::manifest::{Column, Manifest};
use crate::parser::{parse_sql, spec_parse_sql};
use crate::plan::{names_view, Expr, ExprS, LogicalPlan, PlanS};
use crate::text::{contains_pat, lemma_contains_append, occurs_at, str_eq};

verus! {

broadcast use vstd::set::group_set_axioms, vstd::set_lib::group_set_lib_default;

/// The names of the related models that an expression references.
pub open spec fn spec_expr_refs(e: ExprS) -> Seq<Seq<char>>
    decreases e,
{
    match e {
        ExprS::Qualified { model, column } => seq![model],
        ExprS::Eq { left, right } => spec_expr_refs(*left) + spec_expr_refs(*right),
        ExprS::And { left, right } => spec_expr_refs(*left) + spec_expr_refs(*right),
        _ => Seq::empty(),
    }
}

/// The names of the related models that a column's expression references.
pub open spec fn spec_opt_expr_refs(o: Option<Expr>) -> Seq<Seq<char>> {
    match o {
        None => Seq::empty(),
        Some(e) => spec_expr_refs(e@),
    }
}

/// The names referenced by a sequence of columns.
pub open spec fn spec_cols_refs(s: Seq<Column>) -> Seq<Seq<char>>
    decreases s.len(),
{
    if s.len() == 0 {
        Seq::empty()
    } else {
        spec_opt_expr_refs(s[0].expression) + spec_cols_refs(s.skip(1))
    }
}

/// The names of the tables a plan scans.
pub open spec fn spec_scan_names(p: PlanS) -> Seq<Seq<char>>
    decreases p,
{
    match p {
        PlanS::TableScan { table } => seq![table],
        PlanS::Projection { columns, input } => spec_scan_names(*input),
        PlanS::Filter { predicate, input } => spec_scan_names(*input),
        PlanS::SubqueryAlias { alias, input } => spec_scan_names(*input),
    }
}

/// How many nodes the graph of this manifest has.
pub open spec fn spec_node_count(m: Manifest) -> int {
    m.models@.len() + m.views@.len() as int
}

/// The name of graph node `i`: the models come first, then the views.
pub open spec fn spec_node_name(m: Manifest, i: int) -> Seq<char> {
    if i < m.models@.len() {
        m.models@[i].name@
    } else {
        m.views@[i - m.models@.len()].name@
    }
}

/// The names that node `i` references: a model references the models in its
/// calculated columns; a view references the tables its statement scans.
pub open spec fn spec_refs_of_node(m: Manifest, i: int) -> Seq<Seq<char>> {
    if i < m.models@.len() {
        spec_cols_refs(m.models@[i].columns@)
    } else {
        match spec_parse_sql(m.views@[i - m.models@.len()].statement@) {
            Some(p) => spec_scan_names(p),
            None => Seq::empty(),
        }
    }
}

/// Is there a reference edge from node `i` to node `j`?
pub open spec fn spec_edge(m: Manifest, i: int, j: int) -> bool {
    &&& 0 <= i < spec_node_count(m)
    &&& 0 <= j < spec_node_count(m)
    &&& spec_refs_of_node(m, i).contains(spec_node_name(m, j))
}

/// The reference graph is acyclic: some ranking decreases along every edge.
pub open spec fn spec_acyclic(m: Manifest) -> bool {
    exists|rank: Seq<int>|
        rank.len() == spec_node_count(m) && forall|i: int, j: int|
            spec_edge(m, i, j) ==> rank[j] < rank[i]
}

/// The message certifies a cycle: it names every member of some nonempty
/// set of entities each of which references another member of the set.
pub open spec fn spec_cycle_error(m: Manifest, msg: Seq<char>) -> bool {
    exists|s: Set<int>|
        {
            &&& s.finite()
            &&& s.len() > 0
            &&& forall|u: int|
                s.contains(u) ==> 0 <= u < spec_node_count(m) && exists|v: int|
                    s.contains(v) && #[trigger] spec_edge(m, u, v)
            &&& forall|u: int|
                #[trigger] s.contains(u) ==> contains_pat(msg, spec_node_name(m, u))
        }
}

/// Do all the statements of the views parse?
pub open spec fn spec_views_parse(m: Manifest) -> bool {
    forall|vi: int|
        0 <= vi < m.views@.len() ==> spec_parse_sql(#[trigger] m.views@[vi].statement@)
            is Some
}

/// Are the names of the models and views pairwise distinct?
pub open spec fn spec_names_unique(m: Manifest) -> bool {
    forall|i: int, j: int|
        0 <= i < j < spec_node_count(m) ==> spec_node_name(m, i) != spec_node_name(m, j)
}

/// The derived, read-only reference graph, with the certificate that it is
/// acyclic: positions that strictly drop along every edge.
pub struct Lineage {
    /// The node names: the models in order, then the views in order.
    pub names: Vec<String>,
    /// How many of the nodes are models.
    pub n_models: usize,
    /// The outgoing edges of each node.
    pub edges: Vec<Vec<usize>>,
    /// The nodes in elimination order: every node after its references.
    pub order: Vec<usize>,
    /// The position of each node in the elimination order.
    pub pos: Vec<usize>,
}

impl Lineage {
    /// Node `i` lists an edge to node `j`.
    pub open spec fn edge_listed(&self, i: int, j: int) -> bool {
        exists|k: int| 0 <= k < self.edges@[i]@.len() && self.edges@[i]@[k] == j
    }

    /// The lineage correctly describes the manifest.
    pub open spec fn wf_for(&self, m: Manifest) -> bool {
        let n = spec_node_count(m);
        &&& self.names@.len() == n
        &&& self.n_models == m.models@.len()
        &&& self.edges@.len() == n
        &&& self.order@.len() == n
        &&& self.pos@.len() == n
        &&& forall|i: int| 0 <= i < n ==> (#[trigger] self.names@[i])@ == spec_node_name(m, i)
        &&& forall|i: int, k: int|
            0 <= i < n && 0 <= k < self.edges@[i]@.len() ==> spec_edge(
                m,
                i,
                #[trigger] self.edges@[i]@[k] as int,
            )
        &&& forall|i: int, j: int| spec_edge(m, i, j) ==> self.edge_listed(i, j)
        &&& forall|k: int| 0 <= k < n ==> (#[trigger] self.order@[k]) < n
        &&& forall|k: int| 0 <= k < n ==> self.pos@[self.order@[k] as int] == k
        &&& forall|u: int|
            0 <= u < n ==> (#[trigger] self.pos@[u]) < n && self.order@[self.pos@[u] as int]
                == u
        &&& forall|i: int, j: int|
            spec_edge(m, i, j) ==> self.pos@[j] < self.pos@[i]
    }

    /// Does the given name belong to the manifest's graph?
    pub fn has_table(&self, name: &String) -> (r: bool)
        ensures
            r == exists|i: int| 0 <= i < self.names@.len() && (#[trigger] self.names@[i])@
                == name@,
    {
        let n = self.names.len();
        let mut i: usize = 0;
        while i < n
            invariant
                n == self.names@.len(),
                i <= n,
                forall|k: int| 0 <= k < i ==> (#[trigger] self.names@[k])@ != name@,
            decreases n - i,
        {
            if str_eq(&self.names[i], name) {
                return true;
            }
            i += 1;
        }
        false
    }
}

/// Collect the names of the related models an expression references.
fn expr_model_refs(e: &Expr) -> (r: Vec<String>)
    ensures
        names_view(r@) == spec_expr_refs(e@),
    decreases *e,
{
    match e {
        Expr::Qualified { model, column } => {
            let mut v: Vec<String> = Vec::new();
            v.push(model.clone());
            proof {
                assert(names_view(v@) =~= seq![model@]);
            }
            v
        },
        Expr::Eq { left, right } => {
            let mut v = expr_model_refs(left);
            let mut w = expr_model_refs(right);
            let ghost vv = names_view(v@);
            let ghost wv = names_view(w@);
            v.append(&mut w);
            proof {
                assert(names_view(v@) =~= vv + wv);
            }
            v
        },
        Expr::And { left, right } => {
            let mut v = expr_model_refs(left);
            let mut w = expr_model_refs(right);
            let ghost vv = names_view(v@);
            let ghost wv = names_view(w@);
            v.append(&mut w);
            proof {
                assert(names_view(v@) =~= vv + wv);
            }
            v
        },
        _ => {
            let v: Vec<String> = Vec::new();
            proof {
                assert(names_view(v@) =~= Seq::<Seq<char>>::empty());
            }
            v
        },
    }
}

/// Collect the names of the tables a plan scans.
pub fn collect_scan_names(p: &LogicalPlan) -> (r: Vec<String>)
    ensures
        names_view(r@) == spec_scan_names(p@),
    decreases *p,
{
    match p {
        LogicalPlan::TableScan { table } => {
            let mut v: Vec<String> = Vec::new();
            v.push(table.clone());
            proof {
                assert(names_view(v@) =~= seq![table@]);
            }
            v
        },
        LogicalPlan::Projection { columns, input } => collect_scan_names(input),
        LogicalPlan::Filter { predicate, input } => collect_scan_names(input),
        LogicalPlan::SubqueryAlias { alias, input } => collect_scan_names(input),
    }
}

/// Collect the references of one model's columns.
fn model_refs(columns: &Vec<Column>) -> (r: Vec<String>)
    ensures
        names_view(r@) == spec_cols_refs(columns@),
{
    let n = columns.len();
    let mut out: Vec<String> = Vec::new();
    let mut i: usize = 0;
    proof {
        assert(columns@.skip(0) =~= columns@);
        assert(names_view(out@) =~= Seq::<Seq<char>>::empty());
    }
    while i < n
        invariant
            n == columns@.len(),
            i <= n,
            names_view(out@) + spec_cols_refs(columns@.skip(i as int)) == spec_cols_refs(
                columns@,
            ),
        decreases n - i,
    {
        let ghost before = names_view(out@);
        match &columns[i].expression {
            None => {
                proof {
                    assert(columns@.skip(i as int)[0] == columns@[i as int]);
                    assert(columns@.skip(i as int).skip(1) =~= columns@.skip(i + 1));
                    assert(before + Seq::<Seq<char>>::empty() =~= before);
                }
            },
            Some(e) => {
                let mut more = expr_model_refs(e);
                let ghost mv = names_view(more@);
                out.append(&mut more);
                proof {
                    assert(columns@.skip(i as int)[0] == columns@[i as int]);
                    assert(columns@.skip(i as int).skip(1) =~= columns@.skip(i + 1));
                    assert(names_view(out@) =~= before + mv);
                }
            },
        }
        i += 1;
    }
    proof {
        assert(columns@.skip(n as int) =~= Seq::<Column>::empty());
        assert(names_view(out@) + Seq::<Seq<char>>::empty() =~= names_view(out@));
    }
    out
}

/// Among a nonempty finite set of nodes there is one of least rank.
proof fn lemma_min_member(r_set: Set<int>, rank: Seq<int>)
    requires
        r_set.finite(),
        r_set.len() > 0,
        forall|u: int| r_set.contains(u) ==> 0 <= u < rank.len(),
    ensures
        exists|u: int|
            r_set.contains(u) && forall|v: int|
                #[trigger] r_set.contains(v) ==> rank[u] <= rank[v],
    decreases r_set.len(),
{
    let x = r_set.choose();
    assert(r_set.contains(x));
    let rest = r_set.remove(x);
    assert(rest.len() == r_set.len() - 1);
    if rest.len() == 0 {
        assert forall|v: int| #[trigger] r_set.contains(v) implies rank[x] <= rank[v] by {
            if v != x {
                assert(rest.contains(v));
                assert(rest.len() != 0);
            }
        }
        assert(r_set.contains(x) && forall|v: int|
            #[trigger] r_set.contains(v) ==> rank[x] <= rank[v]);
    } else {
        lemma_min_member(rest, rank);
        let u2 = choose|u: int|
            rest.contains(u) && forall|v: int|
                #[trigger] rest.contains(v) ==> rank[u] <= rank[v];
        if rank[x] <= rank[u2] {
            assert forall|v: int| #[trigger] r_set.contains(v) implies rank[x]
                <= rank[v] by {
                if v != x {
                    assert(rest.contains(v));
                }
            }
            assert(r_set.contains(x) && forall|v: int|
                #[trigger] r_set.contains(v) ==> rank[x] <= rank[v]);
        } else {
            assert forall|v: int| #[trigger] r_set.contains(v) implies rank[u2]
                <= rank[v] by {
                if v != x {
                    assert(rest.contains(v));
                }
            }
            assert(r_set.contains(u2) && forall|v: int|
                #[trigger] r_set.contains(v) ==> rank[u2] <= rank[v]);
        }
    }
}

/// If every remaining node still references a remaining node, no ranking can
/// drop along every edge: the graph has a cycle.
proof fn lemma_stuck_means_cycle(m: Manifest, r_set: Set<int>)
    requires
        r_set.finite(),
        r_set.len() > 0,
        forall|u: int| r_set.contains(u) ==> 0 <= u < spec_node_count(m),
        forall|u: int|
            r_set.contains(u) ==> exists|v: int| r_set.contains(v) && #[trigger] spec_edge(m, u, v),
    ensures
        !spec_acyclic(m),
{
    if spec_acyclic(m) {
        let rank = choose|rank: Seq<int>|
            rank.len() == spec_node_count(m) && forall|i: int, j: int|
                spec_edge(m, i, j) ==> rank[j] < rank[i];
        lemma_min_member(r_set, rank);
        let u = choose|u: int|
            r_set.contains(u) && forall|v: int|
                #[trigger] r_set.contains(v) ==> rank[u] <= rank[v];
        let v = choose|v: int| r_set.contains(v) && #[trigger] spec_edge(m, u, v);
        assert(rank[v] < rank[u]);
        assert(rank[u] <= rank[v]);
    }
}

/// When every remaining node still references a remaining node, the graph
/// is cyclic and a message naming the remaining nodes certifies the cycle.
proof fn lemma_stuck_cycle_error(
    m: Manifest,
    edges: Seq<Vec<usize>>,
    remaining: Seq<bool>,
    names: Seq<String>,
    msg: Seq<char>,
)
    requires
        edges.len() == spec_node_count(m),
        remaining.len() == spec_node_count(m),
        names.len() == spec_node_count(m),
        Set::new(|w: int| 0 <= w < remaining.len() && remaining[w]).finite(),
        Set::new(|w: int| 0 <= w < remaining.len() && remaining[w]).len() > 0,
        forall|u: int, k: int|
            0 <= u < edges.len() && 0 <= k < edges[u]@.len() ==> spec_edge(
                m,
                u,
                #[trigger] edges[u]@[k] as int,
            ),
        forall|w: int|
            0 <= w < remaining.len() && remaining[w] ==> exists|k: int|
                0 <= k < edges[w]@.len() && remaining[#[trigger] edges[w]@[k] as int],
        forall|x: int|
            0 <= x < names.len() && remaining[x] ==> contains_pat(
                msg,
                (#[trigger] names[x])@,
            ),
        forall|k: int| 0 <= k < names.len() ==> (#[trigger] names[k])@ == spec_node_name(m, k),
    ensures
        !spec_acyclic(m),
        spec_cycle_error(m, msg),
{
    let r_set = Set::new(|w: int| 0 <= w < remaining.len() && remaining[w]);
    assert forall|x: int| r_set.contains(x) implies exists|v: int|
        r_set.contains(v) && #[trigger] spec_edge(m, x, v) by {
        let k = choose|k: int|
            0 <= k < edges[x]@.len() && remaining[#[trigger] edges[x]@[k] as int];
        let v = edges[x]@[k] as int;
        assert(spec_edge(m, x, v));
        assert(r_set.contains(v));
    }
    lemma_stuck_means_cycle(m, r_set);
    assert forall|x: int| #[trigger] r_set.contains(x) implies contains_pat(
        msg,
        spec_node_name(m, x),
    ) by {
        assert(names[x]@ == spec_node_name(m, x));
    }
    assert(spec_cycle_error(m, msg));
}

/// Find a remaining node all of whose references are eliminated, scanning
/// in index order. The node count as result means none is eliminable: every
/// remaining node still references a remaining node.
fn find_eliminable(edges: &Vec<Vec<usize>>, remaining: &Vec<bool>) -> (r: usize)
    requires
        edges@.len() == remaining@.len(),
        forall|k: int, t: int|
            0 <= k < edges@.len() && 0 <= t < edges@[k]@.len() ==> (
            #[trigger] edges@[k]@[t]) < remaining@.len(),
    ensures
        r <= edges@.len(),
        r < edges@.len() ==> remaining@[r as int] && forall|k: int|
            0 <= k < edges@[r as int]@.len() ==> !remaining@[
                #[trigger] edges@[r as int]@[k] as int
            ],
        r == edges@.len() ==> forall|w: int|
            0 <= w < edges@.len() && remaining@[w] ==> exists|k: int|
                0 <= k < edges@[w]@.len() && remaining@[#[trigger] edges@[w]@[k] as int],
{
    let n = edges.len();
    let mut u: usize = 0;
    while u < n
        invariant
            n == edges@.len(),
            n == remaining@.len(),
            u <= n,
            forall|k: int, t: int|
                0 <= k < edges@.len() && 0 <= t < edges@[k]@.len() ==> (
                #[trigger] edges@[k]@[t]) < remaining@.len(),
            forall|w: int|
                0 <= w < u && remaining@[w] ==> exists|k: int|
                    0 <= k < edges@[w]@.len() && remaining@[
                        #[trigger] edges@[w]@[k] as int
                    ],
        decreases n - u,
    {
        if remaining[u] {
            let deps = &edges[u];
            let nd = deps.len();
            let mut k: usize = 0;
            let mut blocked = false;
            while k < nd && !blocked
                invariant
                    nd == deps@.len(),
                    deps@ == edges@[u as int]@,
                    u < n,
                    n == edges@.len(),
                    n == remaining@.len(),
                    forall|kk: int, t: int|
                        0 <= kk < edges@.len() && 0 <= t < edges@[kk]@.len() ==> (
                        #[trigger] edges@[kk]@[t]) < remaining@.len(),
                    k <= nd,
                    !blocked ==> forall|t: int|
                        0 <= t < k ==> !remaining@[#[trigger] deps@[t] as int],
                    blocked ==> exists|t: int|
                        0 <= t < nd && remaining@[#[trigger] deps@[t] as int],
                decreases nd - k + (if blocked { 0int } else { 1int }),
            {
                if remaining[deps[k]] {
                    blocked = true;
                } else {
                    k += 1;
                }
            }
            if !blocked {
                return u;
            }
        }
        u += 1;
    }
    n
}

/// A message naming every entity still caught in the reference cycle.
fn cycle_message(names: &Vec<String>, remaining: &Vec<bool>) -> (r: String)
    requires
        remaining@.len() == names@.len(),
    ensures
        forall|x: int|
            0 <= x < names@.len() && remaining@[x] ==> contains_pat(
                r@,
                (#[trigger] names@[x])@,
            ),
{
    let n = names.len();
    let mut msg = String::from_str(
        "the models and views contain a reference cycle among: ",
    );
    let mut w: usize = 0;
    while w < n
        invariant
            n == names@.len(),
            n == remaining@.len(),
            w <= n,
            forall|x: int|
                0 <= x < w && remaining@[x] ==> contains_pat(
                    msg@,
                    (#[trigger] names@[x])@,
                ),
        decreases n - w,
    {
        if remaining[w] {
            let ghost m0 = msg@;
            msg.append(names[w].as_str());
            proof {
                let nv2 = names@[w as int]@;
                assert(msg@.subrange(
                    m0.len() as int,
                    m0.len() as int + nv2.len() as int,
                ) =~= nv2);
                assert(occurs_at(msg@, nv2, m0.len() as int));
                assert forall|x: int|
                    0 <= x < w && remaining@[x] implies contains_pat(
                    msg@,
                    (#[trigger] names@[x])@,
                ) by {
                    lemma_contains_append(m0, nv2, names@[x]@);
                }
            }
            let ghost m1 = msg@;
            msg.append("; ");
            proof {
                assert forall|x: int|
                    0 <= x <= w && remaining@[x] implies contains_pat(
                    msg@,
                    (#[trigger] names@[x])@,
                ) by {
                    lemma_contains_append(m1, "; "@, names@[x]@);
                }
            }
        }
        w += 1;
    }
    msg
}

/// Build the lineage of a manifest whose names are unique: resolve each
/// entity's references and order the nodes so that every node comes after
/// everything it references. A reference cycle is a validation error naming
/// the entities still caught in it; it is detected, never looped on.
pub fn build_lineage(m: &Manifest) -> (r: Result<Lineage, AnalyticsCoreError>)
    requires
        spec_names_unique(*m),
        spec_node_count(*m) <= usize::MAX,
    ensures
        match r {
            Ok(l) => l.wf_for(*m) && spec_views_parse(*m) && spec_acyclic(*m),
            Err(e) => {
                &&& e.is_mdl_validation()
                &&& !(spec_views_parse(*m) && spec_acyclic(*m))
                &&& spec_views_parse(*m) ==> spec_cycle_error(*m, e.spec_message())
            },
        },
{
    let nm = m.models.len();
    let nv = m.views.len();
    let n = nm + nv;
    // The node names: models first, then views.
    let mut names: Vec<String> = Vec::new();
    let mut i: usize = 0;
    while i < nm
        invariant
            nm == m.models@.len(),
            i <= nm,
            names@.len() == i,
            forall|k: int| 0 <= k < i ==> (#[trigger] names@[k])@ == m.models@[k].name@,
        decreases nm - i,
    {
        names.push(m.models[i].name.clone());
        i += 1;
    }
    let mut i: usize = 0;
    while i < nv
        invariant
            nm == m.models@.len(),
            nv == m.views@.len(),
            i <= nv,
            names@.len() == nm + i,
            forall|k: int| 0 <= k < nm ==> (#[trigger] names@[k])@ == m.models@[k].name@,
            forall|k: int|
                nm <= k < nm + i ==> (#[trigger] names@[k])@ == m.views@[k - nm].name@,
        decreases nv - i,
    {
        names.push(m.views[i].name.clone());
        i += 1;
    }
    proof {
        assert(forall|k: int|
            0 <= k < n ==> (#[trigger] names@[k])@ == spec_node_name(*m, k));
    }
    // The references of each node, resolved to node indexes.
    let mut edges: Vec<Vec<usize>> = Vec::new();
    let mut i: usize = 0;
    while i < n
        invariant
            nm == m.models@.len(),
            nv == m.views@.len(),
            n == nm + nv,
            n == names@.len(),
            spec_names_unique(*m),
            forall|k: int| 0 <= k < n ==> (#[trigger] names@[k])@ == spec_node_name(*m, k),
            i <= n,
            edges@.len() == i,
            forall|u: int, k: int|
                0 <= u < i && 0 <= k < edges@[u]@.len() ==> spec_edge(
                    *m,
                    u,
                    #[trigger] edges@[u]@[k] as int,
                ),
            forall|u: int, j: int|
                0 <= u < i && spec_edge(*m, u, j) ==> exists|k: int|
                    0 <= k < edges@[u]@.len() && edges@[u]@[k] == j,
            forall|vi: int|
                0 <= vi < i - nm ==> spec_parse_sql(
                    #[trigger] m.views@[vi].statement@,
                ) is Some,
        decreases n - i,
    {
        let refs: Vec<String> = if i < nm {
            model_refs(&m.models[i].columns)
        } else {
            match parse_sql(m.views[i - nm].statement.as_str()) {
                Ok(p) => collect_scan_names(&p),
                Err(_) => {
                    return Err(AnalyticsCoreError::MdlValidation(String::from_str(
                        "a view statement does not parse",
                    )));
                },
            }
        };
        let ghost refs_v = names_view(refs@);
        proof {
            assert(refs_v == spec_refs_of_node(*m, i as int));
        }
        // Resolve each referenced name to its node index, if it is a node.
        let mut out: Vec<usize> = Vec::new();
        let nr = refs.len();
        let mut t: usize = 0;
        while t < nr
            invariant
                n == names@.len(),
                n == nm + nv,
                nm == m.models@.len(),
                nv == m.views@.len(),
                spec_names_unique(*m),
                forall|k: int|
                    0 <= k < n ==> (#[trigger] names@[k])@ == spec_node_name(*m, k),
                nr == refs@.len(),
                refs_v == names_view(refs@),
                refs_v == spec_refs_of_node(*m, i as int),
                i < n,
                t <= nr,
                forall|k: int| 0 <= k < out@.len() ==> spec_edge(
                    *m,
                    i as int,
                    #[trigger] out@[k] as int,
                ),
                forall|j: int|
                    #![trigger spec_node_name(*m, j)]
                    (exists|w: int| 0 <= w < t && refs_v[w] == spec_node_name(*m, j)) && 0
                        <= j < n ==> exists|k: int| 0 <= k < out@.len() && out@[k] == j,
            decreases nr - t,
        {
            let mut j: usize = 0;
            let mut found = false;
            while j < n && !found
                invariant
                    n == names@.len(),
                    spec_names_unique(*m),
                    forall|k: int|
                        0 <= k < n ==> (#[trigger] names@[k])@ == spec_node_name(*m, k),
                    t < nr,
                    nr == refs@.len(),
                    refs_v == names_view(refs@),
                    j <= n,
                    !found ==> forall|k: int| 0 <= k < j ==> (#[trigger] names@[k])@
                        != refs@[t as int]@,
                    found ==> j < n && (#[trigger] names@[j as int])@ == refs@[t as int]@,
                decreases n - j + (if found { 0int } else { 1int }),
            {
                if str_eq(&names[j], &refs[t]) {
                    found = true;
                } else {
                    j += 1;
                }
            }
            if found {
                let ghost old_out = out@;
                out.push(j);
                proof {
                    assert(refs_v[t as int] == refs@[t as int]@);
                    assert(spec_refs_of_node(*m, i as int).contains(
                        spec_node_name(*m, j as int),
                    ));
                    assert forall|jj: int|
                        #![trigger spec_node_name(*m, jj)]
                        (exists|w: int|
                            0 <= w < t + 1 && refs_v[w] == spec_node_name(*m, jj)) && 0
                            <= jj < n implies exists|k: int|
                        0 <= k < out@.len() && out@[k] == jj by {
                        let w = choose|w: int|
                            0 <= w < t + 1 && refs_v[w] == spec_node_name(*m, jj);
                        if w == t {
                            assert(spec_node_name(*m, jj) == refs_v[t as int]);
                            assert(names@[jj]@ == names@[j as int]@);
                            if jj != j {
                                assert(names@[jj]@ == spec_node_name(*m, jj));
                                assert(names@[j as int]@ == spec_node_name(*m, j as int));
                                assert(spec_node_name(*m, jj) != spec_node_name(
                                    *m,
                                    j as int,
                                ));
                            }
                            assert(jj == j);
                            assert(out@[old_out.len() as int] == j as usize);
                        } else {
                            assert(exists|k: int|
                                0 <= k < old_out.len() && old_out[k] == jj);
                            let k = choose|k: int|
                                0 <= k < old_out.len() && old_out[k] == jj;
                            assert(out@[k] == old_out[k]);
                        }
                    }
                }
            } else {
                proof {
                    assert(refs_v[t as int] == refs@[t as int]@);
                    assert forall|jj: int|
                        #![trigger spec_node_name(*m, jj)]
                        (exists|w: int|
                            0 <= w < t + 1 && refs_v[w] == spec_node_name(*m, jj)) && 0
                            <= jj < n implies exists|k: int|
                        0 <= k < out@.len() && out@[k] == jj by {
                        let w = choose|w: int|
                            0 <= w < t + 1 && refs_v[w] == spec_node_name(*m, jj);
                        if w == t {
                            assert(names@[jj]@ == spec_node_name(*m, jj));
                        }
                    }
                }
            }
            t += 1;
        }
        let ghost out_v = out@;
        let ghost old_edges = edges@;
        edges.push(out);
        proof {
            assert forall|u: int, j2: int|
                0 <= u < i + 1 && spec_edge(*m, u, j2) implies exists|k: int|
                0 <= k < edges@[u]@.len() && edges@[u]@[k] == j2 by {
                if u == i {
                    assert(edges@[u]@ == out_v);
                    assert(spec_refs_of_node(*m, i as int).contains(
                        spec_node_name(*m, j2),
                    ));
                    let w = choose|w: int|
                        0 <= w < refs_v.len() && refs_v[w] == spec_node_name(*m, j2);
                    assert(refs_v.len() == nr);
                    assert(exists|k: int| 0 <= k < out_v.len() && out_v[k] == j2);
                } else {
                    assert(edges@[u]@ == old_edges[u]@);
                }
            }
        }
        i += 1;
    }
    // Eliminate nodes whose references are all eliminated already; the
    // order of elimination gives each node a position above its references.
    let mut remaining: Vec<bool> = Vec::new();
    let mut i: usize = 0;
    while i < n
        invariant
            i <= n,
            remaining@.len() == i,
            forall|k: int| 0 <= k < i ==> remaining@[k],
        decreases n - i,
    {
        remaining.push(true);
        i += 1;
    }
    let mut pos: Vec<usize> = Vec::new();
    let mut i: usize = 0;
    while i < n
        invariant
            i <= n,
            pos@.len() == i,
        decreases n - i,
    {
        pos.push(0);
        i += 1;
    }
    let mut order: Vec<usize> = Vec::new();
    let mut round: usize = 0;
    proof {
        lemma_int_range_set(n as int);
        assert(Set::new(|w: int| 0 <= w < n && remaining@[w]) =~= Set::new(
            |w: int| 0 <= w < n,
        ));
    }
    while round < n
        invariant
            Set::new(|w: int| 0 <= w < n && remaining@[w]).finite(),
            Set::new(|w: int| 0 <= w < n && remaining@[w]).len() == n - round,
            names@.len() == n,
            forall|k: int| 0 <= k < n ==> (#[trigger] names@[k])@ == spec_node_name(*m, k),
            spec_views_parse(*m),
            n == nm + nv,
            nm == m.models@.len(),
            nv == m.views@.len(),
            n == edges@.len(),
            round <= n,
            remaining@.len() == n,
            pos@.len() == n,
            order@.len() == round,
            forall|u: int, k: int|
                0 <= u < n && 0 <= k < edges@[u]@.len() ==> spec_edge(
                    *m,
                    u,
                    #[trigger] edges@[u]@[k] as int,
                ),
            forall|u: int, j: int|
                spec_edge(*m, u, j) ==> exists|k: int|
                    0 <= k < edges@[u]@.len() && edges@[u]@[k] == j,
            forall|k: int| 0 <= k < round ==> (#[trigger] order@[k]) < n,
            forall|k: int| 0 <= k < round ==> !remaining@[order@[k] as int],
            forall|k: int| 0 <= k < round ==> pos@[order@[k] as int] == k,
            forall|u: int| 0 <= u < n && !remaining@[u] ==> pos@[u] < round,
            forall|u: int|
                0 <= u < n && !remaining@[u] ==> order@[#[trigger] pos@[u] as int] == u,
            forall|u: int|
                0 <= u < n && !(#[trigger] remaining@[u]) ==> exists|k: int|
                    0 <= k < round && order@[k] == u,
            forall|u: int, k: int|
                0 <= u < n && !remaining@[u] && 0 <= k < edges@[u]@.len() ==> {
                    let v = #[trigger] edges@[u]@[k] as int;
                    !remaining@[v] && pos@[v] < pos@[u]
                },
        decreases n - round,
    {
        // Find a remaining node with no remaining reference.
        let chosen = find_eliminable(&edges, &remaining);
        if chosen == n {
            // Every remaining node references a remaining node: a cycle.
            let msg = cycle_message(&names, &remaining);
            proof {
                assert(Set::new(|w: int| 0 <= w < n && remaining@[w]) =~= Set::new(
                    |w: int| 0 <= w < remaining@.len() && remaining@[w],
                ));
                lemma_stuck_cycle_error(*m, edges@, remaining@, names@, msg@);
            }
            return Err(AnalyticsCoreError::MdlValidation(msg));
        }
        let ghost old_pos = pos@;
        let ghost old_remaining = remaining@;
        let ghost old_order = order@;
        pos.set(chosen, round);
        order.push(chosen);
        remaining.set(chosen, false);
        proof {
            let old_set = Set::new(|w: int| 0 <= w < n && old_remaining[w]);
            let new_set = Set::new(|w: int| 0 <= w < n && remaining@[w]);
            assert(old_set.contains(chosen as int));
            assert(new_set =~= old_set.remove(chosen as int));
            assert(order@[round as int] == chosen);
            assert forall|u2: int|
                0 <= u2 < n && !(#[trigger] remaining@[u2]) implies exists|k: int|
                0 <= k < round + 1 && order@[k] == u2 by {
                if u2 != chosen {
                    assert(!old_remaining[u2]);
                    let k = choose|k: int| 0 <= k < round && old_order[k] == u2;
                    assert(order@[k] == u2);
                }
            }
            assert forall|uu: int, k: int|
                0 <= uu < n && !remaining@[uu] && 0 <= k < edges@[uu]@.len() implies {
                let v = #[trigger] edges@[uu]@[k] as int;
                !remaining@[v] && pos@[v] < pos@[uu]
            } by {
                let v = edges@[uu]@[k] as int;
                assert(spec_edge(*m, uu, v));
                assert(0 <= v < n);
                if uu == chosen {
                    assert(!remaining@[v]);
                    assert(pos@[v] < round);
                } else {
                    assert(v != chosen);
                }
            }
        }
        round += 1;
    }
    proof {
        let r_set = Set::new(|w: int| 0 <= w < n && remaining@[w]);
        assert(r_set.len() == 0);
        assert forall|u2: int| 0 <= u2 < n implies !(#[trigger] remaining@[u2]) by {
            if remaining@[u2] {
                assert(r_set.contains(u2));
            }
        }
        assert forall|u2: int| 0 <= u2 < n implies pos@[u2] < n && order@[
            pos@[u2] as int
        ] == u2 by {
            assert(!remaining@[u2]);
        }
        assert forall|i2: int, j2: int| spec_edge(*m, i2, j2) implies pos@[j2]
            < pos@[i2] by {
            assert(exists|k: int|
                0 <= k < edges@[i2]@.len() && edges@[i2]@[k] == j2);
            let k = choose|k: int|
                0 <= k < edges@[i2]@.len() && edges@[i2]@[k] == j2;
            assert(0 <= i2 < n && !remaining@[i2]);
        }
        let rank = Seq::new(n as nat, |w: int| pos@[w] as int);
        assert(spec_acyclic(*m)) by {
            assert(rank.len() == spec_node_count(*m));
            assert forall|i2: int, j2: int| spec_edge(*m, i2, j2) implies rank[j2]
                < rank[i2] by {
                assert(pos@[j2] < pos@[i2]);
            }
        }
        assert(spec_views_parse(*m));
    }
    let l = Lineage { names, n_models: nm, edges, order, pos };
    Ok(l)
}


impl Lineage {
    /// Node and edge-target indexes are within bounds.
    pub open spec fn wf_graph(&self) -> bool {
        &&& self.edges@.len() == self.names@.len()
        &&& forall|i: int, k: int|
            0 <= i < self.edges@.len() && 0 <= k < self.edges@[i]@.len() ==> (
            #[trigger] self.edges@[i]@[k]) < self.names@.len()
    }

    /// The node names are pairwise distinct.
    pub open spec fn names_distinct(&self) -> bool {
        forall|i: int, j: int|
            0 <= i < j < self.names@.len() ==> (#[trigger] self.names@[i])@ != (
            #[trigger] self.names@[j])@
    }

    /// The index sequence is a chain of listed edges.
    pub open spec fn is_path(&self, p: Seq<int>) -> bool {
        &&& p.len() >= 1
        &&& forall|k: int| 0 <= k < p.len() ==> 0 <= #[trigger] p[k] < self.names@.len()
        &&& forall|k: int|
            0 <= k < p.len() - 1 ==> self.edge_listed(#[trigger] p[k], p[k + 1])
    }

    /// Node `b` can be reached from node `a` along listed edges.
    pub open spec fn reaches(&self, a: int, b: int) -> bool {
        exists|p: Seq<int>| self.is_path(p) && p[0] == a && p.last() == b
    }

    /// Resolve a join path between two entities: the chain of references
    /// leading from `a` to `b`, as node names, or `None` when `b` is not
    /// reachable from `a`. A breadth-first search in declaration order, so
    /// the answer is a deterministic function of the lineage.
    #[verifier::rlimit(100)]
    pub fn resolve_join_path(&self, a: &String, b: &String) -> (r: Option<Vec<String>>)
        requires
            self.wf_graph(),
            self.names_distinct(),
        ensures
            match r {
                Some(path) => exists|q: Seq<int>|
                    {
                        &&& self.is_path(q)
                        &&& (#[trigger] self.names@[q[0]])@ == a@
                        &&& (self.names@[q.last()])@ == b@
                        &&& path@.len() == q.len()
                        &&& forall|k: int|
                            0 <= k < q.len() ==> (path@[k])@ == (self.names@[
                                #[trigger] q[k]
                            ])@
                        &&& forall|q2: Seq<int>|
                            self.is_path(q2) && q2[0] == q[0] && q2.last() == q.last()
                                ==> q2.len() >= q.len()
                    },
                None => forall|ai: int, bi: int|
                    0 <= ai < self.names@.len() && 0 <= bi < self.names@.len() && (
                    #[trigger] self.names@[ai])@ == a@ && (#[trigger] self.names@[bi])@
                        == b@ ==> !self.reaches(ai, bi),
            },
    {
        let n = self.names.len();
        // Resolve the endpoints.
        let mut ai: usize = n;
        let mut i: usize = 0;
        while i < n && ai == n
            invariant
                n == self.names@.len(),
                i <= n,
                ai == n || (ai < n && (self.names@[ai as int])@ == a@),
                ai == n ==> forall|k: int| 0 <= k < i ==> (#[trigger] self.names@[k])@
                    != a@,
            decreases n - i + (if ai == n { 1int } else { 0int }),
        {
            if crate::text::str_eq(&self.names[i], a) {
                ai = i;
            } else {
                i += 1;
            }
        }
        let mut bi: usize = n;
        let mut i: usize = 0;
        while i < n && bi == n
            invariant
                n == self.names@.len(),
                i <= n,
                bi == n || (bi < n && (self.names@[bi as int])@ == b@),
                bi == n ==> forall|k: int| 0 <= k < i ==> (#[trigger] self.names@[k])@
                    != b@,
            decreases n - i + (if bi == n { 1int } else { 0int }),
        {
            if crate::text::str_eq(&self.names[i], b) {
                bi = i;
            } else {
                i += 1;
            }
        }
        if ai == n || bi == n {
            return None;
        }
        // Breadth-first search from `a`, keeping each node's predecessor.
        let mut visited: Vec<bool> = Vec::new();
        let mut parent: Vec<usize> = Vec::new();
        let mut i: usize = 0;
        while i < n
            invariant
                i <= n,
                visited@.len() == i,
                parent@.len() == i,
                forall|k: int| 0 <= k < i ==> !visited@[k],
            decreases n - i,
        {
            visited.push(false);
            parent.push(0);
            i += 1;
        }
        let ghost mut depth: Seq<int> = Seq::new(n as nat, |k: int| 0);
        let mut queue: Vec<usize> = Vec::new();
        visited.set(ai, true);
        queue.push(ai);
        proof {
            lemma_int_range_set(n as int);
            assert(Set::new(|w: int| 0 <= w < n && visited@[w]) =~= Set::<
                int,
            >::empty().insert(ai as int));
            assert(queue@[0] == ai);
            assert forall|v: int| 0 <= v < n && #[trigger] visited@[v] implies exists|
                j: int,
            | 0 <= j < queue@.len() && queue@[j] == v by {
                assert(v == ai as int);
            }
        }
        let mut head: usize = 0;
        while head < queue.len()
            invariant
                n == self.names@.len(),
                self.wf_graph(),
                ai < n,
                bi < n,
                visited@.len() == n,
                parent@.len() == n,
                depth.len() == n,
                head <= queue.len(),
                visited@[ai as int],
                depth[ai as int] == 0,
                forall|j: int| 0 <= j < queue@.len() ==> (#[trigger] queue@[j]) < n
                    && visited@[queue@[j] as int],
                forall|v: int|
                    0 <= v < n && #[trigger] visited@[v] ==> exists|j: int|
                        0 <= j < queue@.len() && queue@[j] == v,
                forall|i2: int, j2: int|
                    0 <= i2 < j2 < queue@.len() ==> queue@[i2] != queue@[j2],
                Set::new(|w: int| 0 <= w < n && visited@[w]).finite(),
                Set::new(|w: int| 0 <= w < n && visited@[w]).len() == queue@.len(),
                forall|v: int|
                    0 <= v < n && #[trigger] visited@[v] && v != ai ==> {
                        &&& (parent@[v] as int) < n
                        &&& visited@[parent@[v] as int]
                        &&& self.edge_listed(parent@[v] as int, v)
                        &&& depth[v] == depth[parent@[v] as int] + 1
                        &&& depth[v] >= 1
                    },
                forall|j: int, k: int|
                    0 <= j < head && 0 <= k < self.edges@[queue@[j] as int]@.len()
                        ==> visited@[#[trigger] self.edges@[queue@[j] as int]@[k] as int],
                forall|i2: int, j2: int|
                    0 <= i2 < j2 < queue@.len() ==> depth[#[trigger] queue@[i2] as int]
                        <= depth[#[trigger] queue@[j2] as int],
                head < queue@.len() ==> depth[queue@.last() as int] <= depth[
                    queue@[head as int] as int
                ] + 1,
                forall|j: int, k: int|
                    0 <= j < head && 0 <= k < self.edges@[queue@[j] as int]@.len()
                        ==> depth[#[trigger] self.edges@[queue@[j] as int]@[k] as int]
                        <= depth[queue@[j] as int] + 1,
            decreases n - head,
        {
            proof {
                lemma_int_range_set(n as int);
                assert(Set::new(|w: int| 0 <= w < n && visited@[w]).subset_of(Set::new(
                    |w: int| 0 <= w < n,
                )));
                vstd::set_lib::lemma_len_subset(
                    Set::new(|w: int| 0 <= w < n && visited@[w]),
                    Set::new(|w: int| 0 <= w < n),
                );
            }
            let u = queue[head];
            let nd = self.edges[u].len();
            let mut k: usize = 0;
            while k < nd
                invariant
                    n == self.names@.len(),
                    self.wf_graph(),
                    ai < n,
                    u < n,
                    visited@.len() == n,
                    parent@.len() == n,
                    depth.len() == n,
                    nd == self.edges@[u as int]@.len(),
                    k <= nd,
                    visited@[ai as int],
                    depth[ai as int] == 0,
                    visited@[u as int],
                    forall|j: int| 0 <= j < queue@.len() ==> (#[trigger] queue@[j]) < n
                        && visited@[queue@[j] as int],
                    forall|v: int|
                        0 <= v < n && #[trigger] visited@[v] ==> exists|j: int|
                            0 <= j < queue@.len() && queue@[j] == v,
                    forall|i2: int, j2: int|
                        0 <= i2 < j2 < queue@.len() ==> queue@[i2] != queue@[j2],
                    Set::new(|w: int| 0 <= w < n && visited@[w]).finite(),
                    Set::new(|w: int| 0 <= w < n && visited@[w]).len() == queue@.len(),
                    forall|v: int|
                        0 <= v < n && #[trigger] visited@[v] && v != ai ==> {
                            &&& (parent@[v] as int) < n
                            &&& visited@[parent@[v] as int]
                            &&& self.edge_listed(parent@[v] as int, v)
                            &&& depth[v] == depth[parent@[v] as int] + 1
                            &&& depth[v] >= 1
                        },
                    forall|j: int, k2: int|
                        0 <= j < head && 0 <= k2 < self.edges@[queue@[j] as int]@.len()
                            ==> visited@[
                            #[trigger] self.edges@[queue@[j] as int]@[k2] as int
                        ],
                    head < queue@.len(),
                    queue@[head as int] == u,
                    forall|k2: int|
                        0 <= k2 < k ==> visited@[
                            #[trigger] self.edges@[u as int]@[k2] as int
                        ],
                    forall|i2: int, j2: int|
                        0 <= i2 < j2 < queue@.len() ==> depth[
                            #[trigger] queue@[i2] as int
                        ] <= depth[#[trigger] queue@[j2] as int],
                    depth[queue@.last() as int] <= depth[u as int] + 1,
                    forall|j: int, k2: int|
                        0 <= j < head && 0 <= k2 < self.edges@[queue@[j] as int]@.len()
                            ==> depth[
                            #[trigger] self.edges@[queue@[j] as int]@[k2] as int
                        ] <= depth[queue@[j] as int] + 1,
                    forall|k2: int|
                        0 <= k2 < k ==> depth[
                            #[trigger] self.edges@[u as int]@[k2] as int
                        ] <= depth[u as int] + 1,
                decreases nd - k,
            {
                let w = self.edges[u][k];
                if !visited[w] {
                    let ghost old_visited = visited@;
                    let ghost old_queue = queue@;
                    visited.set(w, true);
                    parent.set(w, u);
                    proof {
                        depth = depth.update(w as int, depth[u as int] + 1);
                        assert(Set::new(|x: int| 0 <= x < n && visited@[x]) =~= Set::new(
                            |x: int| 0 <= x < n && old_visited[x],
                        ).insert(w as int));
                    }
                    queue.push(w);
                    proof {
                        assert(queue@[queue@.len() - 1] == w);
                        assert forall|v: int|
                            0 <= v < n && #[trigger] visited@[v] implies exists|j: int|
                            0 <= j < queue@.len() && queue@[j] == v by {
                            if v != w {
                                assert(old_visited[v]);
                                let j = choose|j: int|
                                    0 <= j < old_queue.len() && old_queue[j] == v;
                                assert(queue@[j] == v);
                            }
                        }
                    }
                }
                k += 1;
            }
            head += 1;
        }
        proof {
            assert forall|v: int, k: int|
                0 <= v < n && visited@[v] && 0 <= k < self.edges@[v]@.len() implies
                visited@[#[trigger] self.edges@[v]@[k] as int] && depth[
                self.edges@[v]@[k] as int
            ] <= depth[v] + 1 by {
                let j = choose|j: int| 0 <= j < queue@.len() && queue@[j] == v;
            }
        }
        if !visited[bi] {
            // Everything visited is closed under edges, so nothing outside
            // the visited set — `b` included — is reachable from `a`.
            proof {
                assert forall|ai2: int, bi2: int|
                    0 <= ai2 < n && 0 <= bi2 < n && (#[trigger] self.names@[ai2])@ == a@
                        && (#[trigger] self.names@[bi2])@ == b@ implies !self.reaches(
                    ai2,
                    bi2,
                ) by {
                    assert(ai2 == ai as int && bi2 == bi as int);
                    if self.reaches(ai2, bi2) {
                        let p = choose|p: Seq<int>|
                            self.is_path(p) && p[0] == ai2 && p.last() == bi2;
                        lemma_visited_closed(self, visited@, p);
                    }
                }
            }
            return None;
        }
        // Walk the predecessors back from `b`, then emit the names forward.
        let mut rev: Vec<usize> = Vec::new();
        let mut cur: usize = bi;
        rev.push(cur);
        while cur != ai
            invariant
                n == self.names@.len(),
                self.wf_graph(),
                ai < n,
                cur < n,
                visited@.len() == n,
                parent@.len() == n,
                depth.len() == n,
                visited@[ai as int],
                depth[ai as int] == 0,
                visited@[cur as int],
                forall|v: int|
                    0 <= v < n && #[trigger] visited@[v] && v != ai ==> {
                        &&& (parent@[v] as int) < n
                        &&& visited@[parent@[v] as int]
                        &&& self.edge_listed(parent@[v] as int, v)
                        &&& depth[v] == depth[parent@[v] as int] + 1
                        &&& depth[v] >= 1
                    },
                rev@.len() >= 1,
                rev@.len() == depth[bi as int] - depth[cur as int] + 1,
                rev@[rev@.len() - 1] == cur,
                rev@[0] == bi,
                forall|k: int| 0 <= k < rev@.len() ==> (#[trigger] rev@[k]) < n,
                forall|k: int|
                    0 <= k < rev@.len() - 1 ==> self.edge_listed(
                        rev@[k + 1] as int,
                        #[trigger] rev@[k] as int,
                    ),
            decreases depth[cur as int],
        {
            let prev = parent[cur];
            proof {
                assert(cur as int != ai as int);
            }
            rev.push(prev);
            cur = prev;
        }
        let m = rev.len();
        let mut path: Vec<String> = Vec::new();
        let mut j: usize = 0;
        while j < m
            invariant
                n == self.names@.len(),
                m == rev@.len(),
                j <= m,
                path@.len() == j,
                forall|k: int| 0 <= k < m ==> (#[trigger] rev@[k]) < n,
                forall|k: int|
                    0 <= k < j ==> (#[trigger] path@[k])@ == (self.names@[
                        rev@[m - 1 - k] as int
                    ])@,
            decreases m - j,
        {
            path.push(self.names[rev[m - 1 - j]].clone());
            j += 1;
        }
        proof {
            let q = Seq::new(m as nat, |k: int| rev@[m - 1 - k] as int);
            assert forall|k: int| 0 <= k < q.len() - 1 implies self.edge_listed(
                #[trigger] q[k],
                q[k + 1],
            ) by {
                assert(q[k] == rev@[m - 1 - k] as int);
                assert(q[k + 1] == rev@[m - 1 - (k + 1)] as int);
                assert(self.edge_listed(rev@[(m - 2 - k) + 1] as int, rev@[m - 2
                    - k] as int));
            }
            assert(self.is_path(q));
            assert(q[0] == rev@[m - 1] as int);
            assert(q.last() == rev@[0] as int);
            assert((self.names@[q[0]])@ == a@);
            assert((self.names@[q.last()])@ == b@);
            assert(forall|k: int|
                0 <= k < q.len() ==> (path@[k])@ == (self.names@[#[trigger] q[k]])@);
            assert(q[0] == ai as int && q.last() == bi as int);
            assert(q.len() == depth[bi as int] + 1);
            lemma_bfs_minimal(self, visited@, depth, ai as int, bi as int, q.len() as int);
        }
        Some(path)
    }
}

/// A breadth-first search's recorded depth bounds every path's length from
/// below: no path from `ai` to `bi` is shorter than the recorded one.
proof fn lemma_bfs_minimal(
    l: &Lineage,
    visited: Seq<bool>,
    depth: Seq<int>,
    ai: int,
    bi: int,
    found_len: int,
)
    requires
        l.wf_graph(),
        visited.len() == l.names@.len(),
        depth.len() == l.names@.len(),
        0 <= ai < visited.len(),
        0 <= bi < visited.len(),
        visited[ai],
        depth[ai] == 0,
        found_len == depth[bi] + 1,
        forall|u: int, k: int|
            0 <= u < visited.len() && visited[u] && 0 <= k < l.edges@[u]@.len()
                ==> visited[#[trigger] l.edges@[u]@[k] as int] && depth[
                l.edges@[u]@[k] as int
            ] <= depth[u] + 1,
    ensures
        forall|q2: Seq<int>|
            l.is_path(q2) && q2[0] == ai && q2.last() == bi ==> q2.len() >= found_len,
{
    assert forall|q2: Seq<int>|
        l.is_path(q2) && q2[0] == ai && q2.last() == bi implies q2.len()
        >= found_len by {
        lemma_depth_bound(l, visited, depth, q2);
    }
}

/// Along any path out of a visited node, every node stays visited and its
/// recorded depth grows by at most one per step.
proof fn lemma_depth_bound(l: &Lineage, visited: Seq<bool>, depth: Seq<int>, p: Seq<int>)
    requires
        l.wf_graph(),
        visited.len() == l.names@.len(),
        depth.len() == l.names@.len(),
        l.is_path(p),
        0 <= p[0] < visited.len(),
        visited[p[0]],
        forall|u: int, k: int|
            0 <= u < visited.len() && visited[u] && 0 <= k < l.edges@[u]@.len()
                ==> visited[#[trigger] l.edges@[u]@[k] as int] && depth[
                l.edges@[u]@[k] as int
            ] <= depth[u] + 1,
    ensures
        visited[p.last()],
        depth[p.last()] <= depth[p[0]] + p.len() - 1,
    decreases p.len(),
{
    if p.len() > 1 {
        assert(l.edge_listed(p[0], p[1]));
        let k = choose|k: int| 0 <= k < l.edges@[p[0]]@.len() && l.edges@[p[0]]@[k] == p[1];
        assert(visited[p[1]] && depth[p[1]] <= depth[p[0]] + 1);
        let q = p.skip(1);
        assert(q[0] == p[1]);
        assert forall|k2: int| 0 <= k2 < q.len() - 1 implies l.edge_listed(
            #[trigger] q[k2],
            q[k2 + 1],
        ) by {
            assert(q[k2] == p[k2 + 1]);
            assert(q[k2 + 1] == p[k2 + 2]);
        }
        assert(l.is_path(q));
        lemma_depth_bound(l, visited, depth, q);
        assert(q.last() == p.last());
    }
}

/// A set of nodes closed under listed edges contains every node a path from
/// one of its members can reach.
proof fn lemma_visited_closed(l: &Lineage, visited: Seq<bool>, p: Seq<int>)
    requires
        l.wf_graph(),
        visited.len() == l.names@.len(),
        l.is_path(p),
        0 <= p[0] < visited.len(),
        visited[p[0]],
        forall|u: int, k: int|
            0 <= u < visited.len() && visited[u] && 0 <= k < l.edges@[u]@.len()
                ==> visited[#[trigger] l.edges@[u]@[k] as int],
    ensures
        visited[p.last()],
    decreases p.len(),
{
    if p.len() > 1 {
        assert(l.edge_listed(p[0], p[1]));
        let k = choose|k: int| 0 <= k < l.edges@[p[0]]@.len() && l.edges@[p[0]]@[k] == p[1];
        assert(visited[p[1]]);
        let q = p.skip(1);
        assert forall|k2: int| 0 <= k2 < q.len() - 1 implies l.edge_listed(
            #[trigger] q[k2],
            q[k2 + 1],
        ) by {
            assert(q[k2] == p[k2 + 1]);
            assert(q[k2 + 1] == p[k2 + 2]);
        }
        assert(l.is_path(q));
        lemma_visited_closed(l, visited, q);
        assert(q.last() == p.last());
    }
}

/// The set of integers below `n` is finite with `n` members.
proof fn lemma_int_range_set(n: int)
    requires
        n >= 0,
    ensures
        Set::new(|w: int| 0 <= w < n).finite(),
        Set::new(|w: int| 0 <= w < n).len() == n,
    decreases n,
{
    if n == 0 {
        assert(Set::new(|w: int| 0 <= w < 0) =~= Set::<int>::empty());
    } else {
        lemma_int_range_set(n - 1);
        assert(Set::new(|w: int| 0 <= w < n) =~= Set::new(|w: int| 0 <= w < n - 1).insert(
            n - 1,
        ));
    }
}

} // verus!
