//! The analyzed model: a validated manifest, its lineage, the analysis mode
//! and the session properties, plus each view's fully expanded defining
//! plan. Built once per distinct input, cached by content hash, shared by
//! reference, never mutated.

use vstd::prelude::*;
use std::sync::Arc;
use crate::cache::{arc_clone, spec_insert_entries, Cache};
use crate::error::AnalyticsCoreError;
use crate::expand::{defs_map, expand_with_defs, lemma_expand_scans, no_defined_scans,
    spec_expand};
use crate::hashing::{analyzed_key, hash_manifest, hash_properties, lemma_props_hash_content,
    spec_analyzed_key, spec_hash_manifest, spec_hash_props};
use crate::lineage::{spec_cycle_error, spec_edge, spec_node_count, spec_node_name,
    spec_scan_names, Lineage};
use crate::manifest::{Manifest, Mode, SessionProperties};
use crate::parser::parse_sql;
use crate::plan::{LogicalPlan, PlanS};
use crate::validator::{spec_manifest_valid, validate_with_lineage};

verus! {

/// The names of the manifest's views, as a set.
pub open spec fn view_names_set(m: Manifest) -> Set<Seq<char>> {
    Set::new(
        |t: Seq<char>|
            exists|vi: int| 0 <= vi < m.views@.len() && (#[trigger] m.views@[vi]).name@ == t,
    )
}

/// The immutable result of analysis: the validated manifest, its lineage,
/// the session properties and mode it was built for, and each view's fully
/// expanded defining plan.
pub struct AnalyzedAnalyticsMDL {
    /// The validated manifest.
    pub manifest: Manifest,
    /// The derived reference graph.
    pub lineage: Lineage,
    /// The session properties the analysis was built for.
    pub properties: SessionProperties,
    /// The analysis mode.
    pub mode: Mode,
    /// Each view's name with its fully expanded defining plan.
    pub view_plans: Vec<(String, LogicalPlan)>,
}

impl AnalyzedAnalyticsMDL {
    /// The analyzed model is well formed: the manifest is valid, the lineage
    /// describes it, the expanded plans cover exactly the views, and no
    /// expanded plan scans any view.
    pub open spec fn wf(&self) -> bool {
        &&& spec_manifest_valid(self.manifest)
        &&& self.lineage.wf_for(self.manifest)
        &&& forall|t: Seq<char>|
            #[trigger] defs_map(self.view_plans@).contains_key(t) <==> view_names_set(
                self.manifest,
            ).contains(t)
        &&& forall|t: Seq<char>|
            #[trigger] defs_map(self.view_plans@).contains_key(t) ==> no_defined_scans(
                view_names_set(self.manifest),
                defs_map(self.view_plans@)[t],
            )
        &&& forall|vi: int|
            0 <= vi < self.manifest.views@.len() ==> defs_map(self.view_plans@)[(
            #[trigger] self.manifest.views@[vi]).name@] == spec_expand(
                defs_map(self.view_plans@),
                crate::parser::spec_parse_sql(
                    self.manifest.views@[vi].statement@,
                )->Some_0,
            )
    }

    /// Expanded plans are free of scans of their own domain, so the
    /// expansion pass over them is idempotent.
    pub proof fn lemma_wf_defs_expanded(&self)
        requires
            self.wf(),
        ensures
            forall|t: Seq<char>|
                #[trigger] defs_map(self.view_plans@).contains_key(t) ==> no_defined_scans(
                    defs_map(self.view_plans@).dom(),
                    defs_map(self.view_plans@)[t],
                ),
    {
        let defs = defs_map(self.view_plans@);
        assert(defs.dom() =~= view_names_set(self.manifest));
    }

    /// Which analytics model a lineage cache entry describes.
    pub fn analytics_mdl(&self) -> (r: &Manifest)
        ensures
            r == &self.manifest,
    {
        &self.manifest
    }
}

/// Analyze a manifest without the cache: validate it, derive the lineage,
/// and expand every view's defining plan in dependency order, so that no
/// expanded plan scans a view. Fails exactly on invalid manifests.
pub fn analyze_uncached(
    manifest: Manifest,
    properties: SessionProperties,
    mode: Mode,
) -> (r: Result<AnalyzedAnalyticsMDL, AnalyticsCoreError>)
    requires
        spec_node_count(manifest) <= usize::MAX,
    ensures
        match r {
            Ok(a) => {
                &&& spec_manifest_valid(manifest)
                &&& a.wf()
                &&& a.manifest == manifest
                &&& a.properties == properties
                &&& a.mode == mode
            },
            Err(e) => {
                &&& !spec_manifest_valid(manifest)
                &&& e.is_mdl_validation()
                &&& crate::lineage::spec_names_unique(manifest)
                    && crate::validator::spec_pk_ok(manifest)
                    && crate::validator::spec_cols_ok(manifest)
                    && crate::lineage::spec_views_parse(manifest) ==> spec_cycle_error(
                    manifest,
                    e.spec_message(),
                )
            },
        },
{
    let lineage = match validate_with_lineage(&manifest) {
        Ok(l) => l,
        Err(e) => {
            return Err(e);
        },
    };
    let nm = lineage.n_models;
    let n = lineage.order.len();
    let ghost vset = view_names_set(manifest);
    let mut view_plans: Vec<(String, LogicalPlan)> = Vec::new();
    let mut k: usize = 0;
    proof {
        assert(defs_map(view_plans@) =~= Map::<Seq<char>, PlanS>::empty());
    }
    while k < n
        invariant
            spec_manifest_valid(manifest),
            lineage.wf_for(manifest),
            vset == view_names_set(manifest),
            nm == lineage.n_models,
            nm == manifest.models@.len(),
            n == spec_node_count(manifest),
            n == lineage.order@.len(),
            k <= n,
            forall|t: Seq<char>|
                #[trigger] defs_map(view_plans@).contains_key(t) <==> (exists|u: int|
                    nm <= u < n && (#[trigger] lineage.pos@[u]) < k && spec_node_name(
                        manifest,
                        u,
                    ) == t),
            forall|t: Seq<char>|
                #[trigger] defs_map(view_plans@).contains_key(t) ==> no_defined_scans(
                    vset,
                    defs_map(view_plans@)[t],
                ),
            forall|vi2: int|
                0 <= vi2 < manifest.views@.len() && lineage.pos@[nm + vi2] < k
                    ==> defs_map(view_plans@)[(#[trigger] manifest.views@[vi2]).name@]
                    == spec_expand(
                    defs_map(view_plans@),
                    crate::parser::spec_parse_sql(
                        manifest.views@[vi2].statement@,
                    )->Some_0,
                ),
        decreases n - k,
    {
        let u = lineage.order[k];
        let ghost old_defs = defs_map(view_plans@);
        let ghost old_plans = view_plans@;
        if u >= nm {
            let vi = u - nm;
            let parsed = match parse_sql(manifest.views[vi].statement.as_str()) {
                Ok(p) => p,
                Err(_) => {
                    proof {
                        assert(false);
                    }
                    return Err(AnalyticsCoreError::Internal(String::new()));
                },
            };
            proof {
                assert(crate::lineage::spec_refs_of_node(manifest, u as int)
                    == spec_scan_names(parsed@));
                assert(lineage.pos@[u as int] == k);
                assert forall|t: Seq<char>|
                    spec_scan_names(parsed@).contains(t) && vset.contains(t) implies
                    old_defs.contains_key(t) by {
                    let vj = choose|vj: int|
                        0 <= vj < manifest.views@.len() && (#[trigger] manifest.views@[
                        vj]).name@ == t;
                    let j = nm + vj;
                    assert(spec_node_name(manifest, j) == t);
                    assert(spec_edge(manifest, u as int, j));
                    assert(lineage.pos@[j] < k);
                }
                lemma_expand_scans(old_defs, vset, parsed@);
            }
            let expanded = expand_with_defs(&view_plans, &parsed);
            let name = manifest.views[vi].name.clone();
            let ghost name_v = name@;
            let ghost exp_v = expanded@;
            view_plans.push((name, expanded));
            proof {
                assert(view_plans@.drop_last() =~= old_plans);
                assert(defs_map(view_plans@) == old_defs.insert(name_v, exp_v));
                assert(name_v == spec_node_name(manifest, u as int));
                assert(vset.contains(name_v));
                assert forall|t: Seq<char>|
                    #[trigger] defs_map(view_plans@).contains_key(t) implies (exists|
                    u2: int|
                    nm <= u2 < n && (#[trigger] lineage.pos@[u2]) < k + 1
                        && spec_node_name(manifest, u2) == t) by {
                    if t == name_v {
                        assert(nm <= u < n && lineage.pos@[u as int] < k + 1
                            && spec_node_name(manifest, u as int) == t);
                    } else {
                        assert(old_defs.contains_key(t));
                    }
                }
                assert forall|t: Seq<char>|
                    (exists|u2: int|
                        nm <= u2 < n && (#[trigger] lineage.pos@[u2]) < k + 1
                            && spec_node_name(manifest, u2) == t) implies #[trigger]
                defs_map(view_plans@).contains_key(t) by {
                    let u2 = choose|u2: int|
                        nm <= u2 < n && (#[trigger] lineage.pos@[u2]) < k + 1
                            && spec_node_name(manifest, u2) == t;
                    if lineage.pos@[u2] < k {
                        assert(old_defs.contains_key(t));
                    } else {
                        assert(lineage.pos@[u2] == k);
                        assert(lineage.order@[lineage.pos@[u2] as int] == u2);
                        assert(u2 == u);
                        assert(t == name_v);
                    }
                }
                // Each processed view's plan still equals the expansion of
                // its parsed statement, now against the grown map: the new
                // name cannot occur in any of those statements' scans.
                let new_defs = defs_map(view_plans@);
                assert forall|vi2: int|
                    0 <= vi2 < manifest.views@.len() && lineage.pos@[nm + vi2] < k + 1
                        implies new_defs[(#[trigger] manifest.views@[vi2]).name@]
                    == spec_expand(
                    new_defs,
                    crate::parser::spec_parse_sql(
                        manifest.views@[vi2].statement@,
                    )->Some_0,
                ) by {
                    let p2 = crate::parser::spec_parse_sql(
                        manifest.views@[vi2].statement@,
                    )->Some_0;
                    assert(crate::lineage::spec_refs_of_node(manifest, nm + vi2)
                        == spec_scan_names(p2));
                    assert forall|t: Seq<char>|
                        #[trigger] spec_scan_names(p2).contains(t) implies (
                    old_defs.contains_key(t) <==> new_defs.contains_key(t)) && (
                    old_defs.contains_key(t) ==> old_defs[t] == new_defs[t]) by {
                        if t == name_v {
                            assert(spec_node_name(manifest, u as int) == t);
                            assert(spec_edge(manifest, nm + vi2, u as int));
                            assert(lineage.pos@[u as int] < lineage.pos@[nm + vi2]);
                        }
                    }
                    crate::expand::lemma_expand_agree(old_defs, new_defs, p2);
                    if lineage.pos@[nm + vi2] < k {
                        assert(spec_node_name(manifest, nm + vi2) != spec_node_name(
                            manifest,
                            u as int,
                        ));
                        assert(new_defs[manifest.views@[vi2].name@] == old_defs[
                            manifest.views@[vi2].name@
                        ]);
                    } else {
                        assert(lineage.pos@[nm + vi2] == k);
                        assert(lineage.order@[k as int] == nm + vi2);
                        assert(nm + vi2 == u);
                        assert(new_defs[name_v] == exp_v);
                        assert(exp_v == spec_expand(old_defs, parsed@));
                        assert(p2 == parsed@);
                    }
                }
            }
        } else {
            proof {
                assert forall|t: Seq<char>|
                    (exists|u2: int|
                        nm <= u2 < n && (#[trigger] lineage.pos@[u2]) < k + 1
                            && spec_node_name(manifest, u2) == t) implies #[trigger]
                defs_map(view_plans@).contains_key(t) by {
                    let u2 = choose|u2: int|
                        nm <= u2 < n && (#[trigger] lineage.pos@[u2]) < k + 1
                            && spec_node_name(manifest, u2) == t;
                    if lineage.pos@[u2] == k {
                        assert(lineage.order@[lineage.pos@[u2] as int] == u2);
                        assert(u2 == u);
                    }
                }
                assert forall|vi2: int|
                    0 <= vi2 < manifest.views@.len() && lineage.pos@[nm + vi2] < k + 1
                        implies defs_map(view_plans@)[(
                #[trigger] manifest.views@[vi2]).name@] == spec_expand(
                    defs_map(view_plans@),
                    crate::parser::spec_parse_sql(
                        manifest.views@[vi2].statement@,
                    )->Some_0,
                ) by {
                    if lineage.pos@[nm + vi2] == k {
                        assert(lineage.order@[k as int] == nm + vi2);
                    }
                }
            }
        }
        k += 1;
    }
    proof {
        assert forall|t: Seq<char>|
            #[trigger] defs_map(view_plans@).contains_key(t) implies vset.contains(t) by {
            let u2 = choose|u2: int|
                nm <= u2 < n && (#[trigger] lineage.pos@[u2]) < n && spec_node_name(
                    manifest,
                    u2,
                ) == t;
            assert(0 <= u2 - nm < manifest.views@.len());
            assert(manifest.views@[u2 - nm].name@ == t);
        }
        assert forall|t: Seq<char>| vset.contains(t) implies #[trigger] defs_map(
            view_plans@,
        ).contains_key(t) by {
            let vj = choose|vj: int|
                0 <= vj < manifest.views@.len() && (#[trigger] manifest.views@[vj]).name@
                    == t;
            let u2 = nm + vj;
            assert(lineage.pos@[u2] < n);
            assert(spec_node_name(manifest, u2) == t);
        }
    }
    Ok(AnalyzedAnalyticsMDL { manifest, lineage, properties, mode, view_plans })
}

/// The cache service: the two bounded content-addressed caches, constructed
/// once at process start and passed by shared ownership to request handlers.
pub struct CacheService {
    /// Lineages, keyed by manifest content hash.
    pub lineage_cache: Cache<Arc<Lineage>>,
    /// Analyzed models, keyed by the hash of manifest, properties and mode.
    pub analyzed_cache: Cache<Arc<AnalyzedAnalyticsMDL>>,
}

/// How many lineages the lineage cache holds at most.
pub const LINEAGE_CACHE_SIZE: usize = 100;

/// How many analyzed models the analyzed-model cache holds at most.
pub const ANALYZED_CACHE_SIZE: usize = 50;

impl CacheService {
    /// Both caches are well formed and can hold at least one entry.
    pub open spec fn wf(&self) -> bool {
        &&& self.lineage_cache.wf()
        &&& self.analyzed_cache.wf()
        &&& self.lineage_cache.spec_max_size() > 0
        &&& self.analyzed_cache.spec_max_size() > 0
    }

    /// A fresh service with two empty caches.
    pub fn new() -> (r: CacheService)
        ensures
            r.wf(),
            r.lineage_cache@ == Map::<u64, Arc<Lineage>>::empty(),
            r.analyzed_cache@ == Map::<u64, Arc<AnalyzedAnalyticsMDL>>::empty(),
            r.lineage_cache.spec_entries() == Seq::<(u64, Arc<Lineage>)>::empty(),
            r.analyzed_cache.spec_entries() == Seq::<(u64, Arc<AnalyzedAnalyticsMDL>)>::empty(),
    {
        CacheService {
            lineage_cache: Cache::new(LINEAGE_CACHE_SIZE),
            analyzed_cache: Cache::new(ANALYZED_CACHE_SIZE),
        }
    }
}

/// Compute the lineage of a manifest through the lineage cache: on a hit the
/// cached graph is returned unchanged; on a miss it is built, cached under
/// the manifest's content hash, and returned.
pub fn compute_lineage_cached(svc: &mut CacheService, m: &Manifest) -> (r: Result<
    Arc<Lineage>,
    AnalyticsCoreError,
>)
    requires
        old(svc).wf(),
        crate::lineage::spec_names_unique(*m),
        spec_node_count(*m) <= usize::MAX,
    ensures
        final(svc).wf(),
        final(svc).analyzed_cache == old(svc).analyzed_cache,
        old(svc).lineage_cache@.contains_key(spec_hash_manifest(*m)) ==> {
            &&& r == Ok::<Arc<Lineage>, AnalyticsCoreError>(
                old(svc).lineage_cache@[spec_hash_manifest(*m)],
            )
            &&& *final(svc) == *old(svc)
        },
        !old(svc).lineage_cache@.contains_key(spec_hash_manifest(*m)) ==> match r {
            Ok(l) => {
                &&& l.wf_for(*m)
                &&& crate::lineage::spec_views_parse(*m)
                &&& crate::lineage::spec_acyclic(*m)
                &&& final(svc).lineage_cache.spec_entries() == spec_insert_entries(
                    old(svc).lineage_cache.spec_entries(),
                    spec_hash_manifest(*m),
                    l,
                    old(svc).lineage_cache.spec_max_size(),
                )
                &&& final(svc).lineage_cache@.contains_key(spec_hash_manifest(*m))
            },
            Err(e) => {
                &&& e.is_mdl_validation()
                &&& !(crate::lineage::spec_views_parse(*m) && crate::lineage::spec_acyclic(
                    *m,
                ))
                &&& crate::lineage::spec_views_parse(*m) ==> spec_cycle_error(
                    *m,
                    e.spec_message(),
                )
                &&& *final(svc) == *old(svc)
            },
        },
{
    let key = hash_manifest(m);
    match svc.lineage_cache.get(key) {
        Some(l) => Ok(arc_clone(l)),
        None => {
            match crate::lineage::build_lineage(m) {
                Ok(l) => {
                    let shared = Arc::new(l);
                    svc.lineage_cache.insert(key, arc_clone(&shared));
                    Ok(shared)
                },
                Err(e) => Err(e),
            }
        },
    }
}

/// Compute the analyzed model through the analyzed-model cache, keyed by the
/// content hash of the manifest, the session properties and the mode. On a
/// hit the cached model is returned and nothing is recomputed; on a miss the
/// full validation and lineage construction run once, and only a successful
/// result is cached. A validation failure is returned and never cached.
pub fn compute_analyzed_mdl_cached(
    svc: &mut CacheService,
    manifest: Manifest,
    properties: SessionProperties,
    mode: Mode,
) -> (r: Result<Arc<AnalyzedAnalyticsMDL>, AnalyticsCoreError>)
    requires
        old(svc).wf(),
        spec_node_count(manifest) <= usize::MAX,
    ensures
        final(svc).wf(),
        final(svc).lineage_cache == old(svc).lineage_cache,
        old(svc).analyzed_cache@.contains_key(
            spec_analyzed_key(
                spec_hash_manifest(manifest),
                spec_hash_props(properties.entries@),
                mode,
            ),
        ) ==> {
            &&& r == Ok::<Arc<AnalyzedAnalyticsMDL>, AnalyticsCoreError>(
                old(svc).analyzed_cache@[
                    spec_analyzed_key(
                        spec_hash_manifest(manifest),
                        spec_hash_props(properties.entries@),
                        mode,
                    )
                ],
            )
            &&& *final(svc) == *old(svc)
        },
        !old(svc).analyzed_cache@.contains_key(
            spec_analyzed_key(
                spec_hash_manifest(manifest),
                spec_hash_props(properties.entries@),
                mode,
            ),
        ) ==> match r {
            Ok(a) => {
                &&& spec_manifest_valid(manifest)
                &&& a.wf()
                &&& a.manifest == manifest
                &&& a.properties == properties
                &&& a.mode == mode
                &&& final(svc).analyzed_cache.spec_entries() == spec_insert_entries(
                    old(svc).analyzed_cache.spec_entries(),
                    spec_analyzed_key(
                        spec_hash_manifest(manifest),
                        spec_hash_props(properties.entries@),
                        mode,
                    ),
                    a,
                    old(svc).analyzed_cache.spec_max_size(),
                )
                &&& final(svc).analyzed_cache@.contains_key(
                    spec_analyzed_key(
                        spec_hash_manifest(manifest),
                        spec_hash_props(properties.entries@),
                        mode,
                    ),
                )
            },
            Err(e) => {
                &&& !spec_manifest_valid(manifest)
                &&& e.is_mdl_validation()
                &&& crate::lineage::spec_names_unique(manifest)
                    && crate::validator::spec_pk_ok(manifest)
                    && crate::validator::spec_cols_ok(manifest)
                    && crate::lineage::spec_views_parse(manifest) ==> spec_cycle_error(
                    manifest,
                    e.spec_message(),
                )
                &&& *final(svc) == *old(svc)
            },
        },
{
    let mh = hash_manifest(&manifest);
    let ph = hash_properties(&properties);
    let key = analyzed_key(mh, ph, mode);
    match svc.analyzed_cache.get(key) {
        Some(a) => Ok(arc_clone(a)),
        None => {
            match analyze_uncached(manifest, properties, mode) {
                Ok(a) => {
                    let shared = Arc::new(a);
                    svc.analyzed_cache.insert(key, arc_clone(&shared));
                    Ok(shared)
                },
                Err(e) => Err(e),
            }
        },
    }
}

/// Repeated analysis is content-addressed: requests with the same manifest
/// content, map-equal session properties and the same mode share one cache
/// key, so once a request has filled its entry, an equal request is answered
/// from the cache and recomputes nothing.
pub proof fn lemma_analysis_key_by_content(
    m: Manifest,
    p1: SessionProperties,
    p2: SessionProperties,
    mode: Mode,
)
    requires
        p1.wf(),
        p2.wf(),
        p1@ == p2@,
    ensures
        spec_analyzed_key(spec_hash_manifest(m), spec_hash_props(p1.entries@), mode)
            == spec_analyzed_key(spec_hash_manifest(m), spec_hash_props(p2.entries@), mode),
{
    lemma_props_hash_content(p1, p2);
}

/// Empty both caches.
pub fn clear_caches(svc: &mut CacheService)
    requires
        old(svc).wf(),
    ensures
        final(svc).wf(),
        final(svc).lineage_cache.spec_max_size() == old(svc).lineage_cache.spec_max_size(),
        final(svc).analyzed_cache.spec_max_size() == old(svc).analyzed_cache.spec_max_size(),
        final(svc).lineage_cache@ == Map::<u64, Arc<Lineage>>::empty(),
        final(svc).analyzed_cache@ == Map::<u64, Arc<AnalyzedAnalyticsMDL>>::empty(),
        final(svc).lineage_cache.spec_entries() == Seq::<(u64, Arc<Lineage>)>::empty(),
        final(svc).analyzed_cache.spec_entries() == Seq::<(
            u64,
            Arc<AnalyzedAnalyticsMDL>,
        )>::empty(),
{
    svc.lineage_cache.clear();
    svc.analyzed_cache.clear();
}

/// The current occupancy of the two caches, for observability.
pub fn get_cache_stats(svc: &CacheService) -> (r: (usize, usize))
    ensures
        r.0 == svc.lineage_cache.spec_entries().len(),
        r.1 == svc.analyzed_cache.spec_entries().len(),
{
    (svc.lineage_cache.len(), svc.analyzed_cache.len())
}

} // verus!
