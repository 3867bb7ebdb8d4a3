//! Deterministic content hashing for cache keys. The hash of a manifest is a
//! pure function of its content, so equal manifests always map to the same
//! cache key; the hash of session properties combines the entries with an
//! exclusive-or, so it does not depend on insertion order.

use vstd::prelude::*;
use vstd::wrapping::u64_specs;
use crate::manifest::{col_type_tag, lemma_props_key_index, mode_tag, opt_str_view,
    props_map, props_unique, Column, Manifest, Mode, Model, RowLevelAccessControl,
    SessionProperties, ViewDef};
use crate::plan::{Expr, ExprS};

verus! {

/// The hash seed.
pub const HASH_OFFSET: u64 = 0xcbf29ce484222325;

/// The hash multiplier.
pub const HASH_PRIME: u64 = 0x100000001b3;

/// One hash step: mix one word into the accumulator.
pub open spec fn spec_h_step(h: u64, x: u64) -> u64 {
    u64_specs::wrapping_mul(h ^ x, HASH_PRIME)
}

/// One hash step: mix one word into the accumulator.
pub fn h_step(h: u64, x: u64) -> (r: u64)
    ensures
        r == spec_h_step(h, x),
{
    (h ^ x).wrapping_mul(HASH_PRIME)
}

/// Mix a sequence of characters into the accumulator.
pub open spec fn spec_hash_chars(h: u64, s: Seq<char>) -> u64
    decreases s.len(),
{
    if s.len() == 0 {
        h
    } else {
        spec_hash_chars(spec_h_step(h, s[0] as u64), s.skip(1))
    }
}

/// Mix a string into the accumulator.
pub fn hash_str(h: u64, s: &str) -> (r: u64)
    ensures
        r == spec_hash_chars(h, s@),
{
    let n: usize = s.unicode_len();
    let mut acc = h;
    let mut i: usize = 0;
    proof {
        assert(s@.skip(0) =~= s@);
    }
    while i < n
        invariant
            n == s@.len(),
            i <= n,
            spec_hash_chars(h, s@) == spec_hash_chars(acc, s@.skip(i as int)),
        decreases n - i,
    {
        let c = s.get_char(i);
        acc = h_step(acc, c as u64);
        proof {
            assert(s@.skip(i as int)[0] == s@[i as int]);
            assert(s@.skip(i as int).skip(1) =~= s@.skip(i + 1));
        }
        i += 1;
    }
    proof {
        assert(s@.skip(n as int) =~= Seq::<char>::empty());
    }
    acc
}

/// Mix an expression into the accumulator.
pub open spec fn spec_hash_expr(h: u64, e: ExprS) -> u64
    decreases e,
{
    match e {
        ExprS::Column { name } => spec_hash_chars(spec_h_step(h, 11), name),
        ExprS::Qualified { model, column } => spec_hash_chars(
            spec_hash_chars(spec_h_step(h, 12), model),
            column,
        ),
        ExprS::IntLit { value } => spec_h_step(spec_h_step(h, 13), value),
        ExprS::StrLit { value } => spec_hash_chars(spec_h_step(h, 14), value),
        ExprS::BoolLit { value } => spec_h_step(
            spec_h_step(h, 15),
            if value {
                1
            } else {
                0
            },
        ),
        ExprS::Eq { left, right } => spec_hash_expr(
            spec_hash_expr(spec_h_step(h, 16), *left),
            *right,
        ),
        ExprS::And { left, right } => spec_hash_expr(
            spec_hash_expr(spec_h_step(h, 17), *left),
            *right,
        ),
    }
}

/// Mix an expression into the accumulator.
pub fn hash_expr(h: u64, e: &Expr) -> (r: u64)
    ensures
        r == spec_hash_expr(h, e@),
    decreases *e,
{
    match e {
        Expr::Column { name } => hash_str(h_step(h, 11), name.as_str()),
        Expr::Qualified { model, column } => {
            let h1 = hash_str(h_step(h, 12), model.as_str());
            hash_str(h1, column.as_str())
        },
        Expr::IntLit { value } => h_step(h_step(h, 13), *value),
        Expr::StrLit { value } => hash_str(h_step(h, 14), value.as_str()),
        Expr::BoolLit { value } => h_step(h_step(h, 15), if *value { 1 } else { 0 }),
        Expr::Eq { left, right } => {
            let h1 = hash_expr(h_step(h, 16), left);
            hash_expr(h1, right)
        },
        Expr::And { left, right } => {
            let h1 = hash_expr(h_step(h, 17), left);
            hash_expr(h1, right)
        },
    }
}

/// Mix a column into the accumulator.
pub open spec fn spec_hash_column(h: u64, c: Column) -> u64 {
    let h1 = spec_hash_chars(spec_h_step(h, 21), c.name@);
    let h2 = spec_h_step(h1, col_type_tag(c.col_type));
    match c.expression {
        None => spec_h_step(h2, 0),
        Some(e) => spec_hash_expr(spec_h_step(h2, 1), e@),
    }
}

/// Mix a column into the accumulator.
pub fn hash_column(h: u64, c: &Column) -> (r: u64)
    ensures
        r == spec_hash_column(h, *c),
{
    let h1 = hash_str(h_step(h, 21), c.name.as_str());
    let h2 = h_step(
        h1,
        match c.col_type {
            crate::manifest::ColType::Boolean => 0,
            crate::manifest::ColType::Integer => 1,
            crate::manifest::ColType::Varchar => 2,
        },
    );
    match &c.expression {
        None => h_step(h2, 0),
        Some(e) => hash_expr(h_step(h2, 1), e),
    }
}

/// Mix a sequence of columns into the accumulator.
pub open spec fn spec_hash_columns(h: u64, s: Seq<Column>) -> u64
    decreases s.len(),
{
    if s.len() == 0 {
        h
    } else {
        spec_hash_columns(spec_hash_column(h, s[0]), s.skip(1))
    }
}

/// Mix a model into the accumulator.
pub open spec fn spec_hash_model(h: u64, m: Model) -> u64 {
    let h1 = spec_hash_chars(spec_h_step(h, 31), m.name@);
    let h2 = spec_hash_chars(h1, m.table_reference@);
    let h3 = spec_hash_columns(h2, m.columns@);
    spec_hash_chars(h3, m.primary_key@)
}

/// Mix a model into the accumulator.
pub fn hash_model(h: u64, m: &Model) -> (r: u64)
    ensures
        r == spec_hash_model(h, *m),
{
    let h1 = hash_str(h_step(h, 31), m.name.as_str());
    let h2 = hash_str(h1, m.table_reference.as_str());
    let n = m.columns.len();
    let mut acc = h2;
    let mut i: usize = 0;
    proof {
        assert(m.columns@.skip(0) =~= m.columns@);
    }
    while i < n
        invariant
            n == m.columns@.len(),
            i <= n,
            spec_hash_columns(h2, m.columns@) == spec_hash_columns(
                acc,
                m.columns@.skip(i as int),
            ),
        decreases n - i,
    {
        acc = hash_column(acc, &m.columns[i]);
        proof {
            assert(m.columns@.skip(i as int)[0] == m.columns@[i as int]);
            assert(m.columns@.skip(i as int).skip(1) =~= m.columns@.skip(i + 1));
        }
        i += 1;
    }
    proof {
        assert(m.columns@.skip(n as int) =~= Seq::<Column>::empty());
    }
    hash_str(acc, m.primary_key.as_str())
}

/// Mix a view into the accumulator.
pub open spec fn spec_hash_view(h: u64, v: ViewDef) -> u64 {
    spec_hash_chars(spec_hash_chars(spec_h_step(h, 41), v.name@), v.statement@)
}

/// Mix an access rule into the accumulator.
pub open spec fn spec_hash_rule(h: u64, r: RowLevelAccessControl) -> u64 {
    let h1 = spec_hash_chars(spec_h_step(h, 51), r.name@);
    let h2 = spec_hash_chars(h1, r.target_model@);
    let h3 = spec_hash_chars(h2, r.condition_property@);
    let h4 = spec_hash_chars(h3, r.condition_value@);
    spec_hash_expr(h4, r.predicate@)
}

/// Mix an access rule into the accumulator.
pub fn hash_rule(h: u64, r: &RowLevelAccessControl) -> (res: u64)
    ensures
        res == spec_hash_rule(h, *r),
{
    let h1 = hash_str(h_step(h, 51), r.name.as_str());
    let h2 = hash_str(h1, r.target_model.as_str());
    let h3 = hash_str(h2, r.condition_property.as_str());
    let h4 = hash_str(h3, r.condition_value.as_str());
    hash_expr(h4, &r.predicate)
}

/// Mix a sequence of models into the accumulator.
pub open spec fn spec_hash_models(h: u64, s: Seq<Model>) -> u64
    decreases s.len(),
{
    if s.len() == 0 {
        h
    } else {
        spec_hash_models(spec_hash_model(h, s[0]), s.skip(1))
    }
}

/// Mix a sequence of views into the accumulator.
pub open spec fn spec_hash_views(h: u64, s: Seq<ViewDef>) -> u64
    decreases s.len(),
{
    if s.len() == 0 {
        h
    } else {
        spec_hash_views(spec_hash_view(h, s[0]), s.skip(1))
    }
}

/// Mix a sequence of access rules into the accumulator.
pub open spec fn spec_hash_rules(h: u64, s: Seq<RowLevelAccessControl>) -> u64
    decreases s.len(),
{
    if s.len() == 0 {
        h
    } else {
        spec_hash_rules(spec_hash_rule(h, s[0]), s.skip(1))
    }
}

/// The content hash of a manifest: a pure function of its models, views and
/// rules, in declaration order. Equal content gives equal hashes.
pub open spec fn spec_hash_manifest(m: Manifest) -> u64 {
    spec_hash_rules(
        spec_hash_views(spec_hash_models(HASH_OFFSET, m.models@), m.views@),
        m.rules@,
    )
}

/// Compute the content hash of a manifest.
pub fn hash_manifest(m: &Manifest) -> (r: u64)
    ensures
        r == spec_hash_manifest(*m),
{
    let mut acc = HASH_OFFSET;
    let n = m.models.len();
    let mut i: usize = 0;
    proof {
        assert(m.models@.skip(0) =~= m.models@);
    }
    while i < n
        invariant
            n == m.models@.len(),
            i <= n,
            spec_hash_models(HASH_OFFSET, m.models@) == spec_hash_models(
                acc,
                m.models@.skip(i as int),
            ),
        decreases n - i,
    {
        acc = hash_model(acc, &m.models[i]);
        proof {
            assert(m.models@.skip(i as int)[0] == m.models@[i as int]);
            assert(m.models@.skip(i as int).skip(1) =~= m.models@.skip(i + 1));
        }
        i += 1;
    }
    proof {
        assert(m.models@.skip(n as int) =~= Seq::<Model>::empty());
    }
    let ghost hm = acc;
    let nv = m.views.len();
    let mut i: usize = 0;
    proof {
        assert(m.views@.skip(0) =~= m.views@);
    }
    while i < nv
        invariant
            nv == m.views@.len(),
            i <= nv,
            spec_hash_views(hm, m.views@) == spec_hash_views(acc, m.views@.skip(i as int)),
        decreases nv - i,
    {
        let h1 = hash_str(h_step(acc, 41), m.views[i].name.as_str());
        acc = hash_str(h1, m.views[i].statement.as_str());
        proof {
            assert(m.views@.skip(i as int)[0] == m.views@[i as int]);
            assert(m.views@.skip(i as int).skip(1) =~= m.views@.skip(i + 1));
        }
        i += 1;
    }
    proof {
        assert(m.views@.skip(nv as int) =~= Seq::<ViewDef>::empty());
    }
    let ghost hv = acc;
    let nr = m.rules.len();
    let mut i: usize = 0;
    proof {
        assert(m.rules@.skip(0) =~= m.rules@);
    }
    while i < nr
        invariant
            nr == m.rules@.len(),
            i <= nr,
            spec_hash_rules(hv, m.rules@) == spec_hash_rules(acc, m.rules@.skip(i as int)),
        decreases nr - i,
    {
        acc = hash_rule(acc, &m.rules[i]);
        proof {
            assert(m.rules@.skip(i as int)[0] == m.rules@[i as int]);
            assert(m.rules@.skip(i as int).skip(1) =~= m.rules@.skip(i + 1));
        }
        i += 1;
    }
    proof {
        assert(m.rules@.skip(nr as int) =~= Seq::<RowLevelAccessControl>::empty());
    }
    acc
}

/// The hash of one property entry.
pub open spec fn spec_hash_prop(e: (String, Option<String>)) -> u64 {
    let h1 = spec_hash_chars(HASH_OFFSET, e.0@);
    match e.1 {
        None => spec_h_step(h1, 0),
        Some(v) => spec_hash_chars(spec_h_step(h1, 1), v@),
    }
}

/// The hash of a property list: the entry hashes combined with exclusive-or,
/// so the result does not depend on the order in which names were set.
pub open spec fn spec_hash_props(s: Seq<(String, Option<String>)>) -> u64
    decreases s.len(),
{
    if s.len() == 0 {
        0
    } else {
        spec_hash_props(s.drop_last()) ^ spec_hash_prop(s.last())
    }
}

/// Compute the content hash of the session properties.
pub fn hash_properties(p: &SessionProperties) -> (r: u64)
    ensures
        r == spec_hash_props(p.entries@),
{
    let n = p.entries.len();
    let mut acc: u64 = 0;
    let mut i: usize = 0;
    while i < n
        invariant
            n == p.entries@.len(),
            i <= n,
            acc == spec_hash_props(p.entries@.take(i as int)),
        decreases n - i,
    {
        let h1 = hash_str(HASH_OFFSET, p.entries[i].0.as_str());
        let eh = match &p.entries[i].1 {
            None => h_step(h1, 0),
            Some(v) => hash_str(h_step(h1, 1), v.as_str()),
        };
        proof {
            assert(p.entries@.take(i + 1).drop_last() =~= p.entries@.take(i as int));
            assert(p.entries@.take(i + 1).last() == p.entries@[i as int]);
        }
        acc = acc ^ eh;
        i += 1;
    }
    proof {
        assert(p.entries@.take(n as int) =~= p.entries@);
    }
    acc
}

/// Setting two properties in either order gives the same properties hash:
/// the combine is insertion-order independent.
pub proof fn lemma_props_hash_swap(
    s: Seq<(String, Option<String>)>,
    a: (String, Option<String>),
    b: (String, Option<String>),
)
    ensures
        spec_hash_props(s.push(a).push(b)) == spec_hash_props(s.push(b).push(a)),
{
    assert(s.push(a).push(b).drop_last() =~= s.push(a));
    assert(s.push(b).push(a).drop_last() =~= s.push(b));
    assert(s.push(a).drop_last() =~= s);
    assert(s.push(b).drop_last() =~= s);
    let h = spec_hash_props(s);
    let ea = spec_hash_prop(a);
    let eb = spec_hash_prop(b);
    assert(s.push(a).last() == a);
    assert(s.push(b).last() == b);
    assert(s.push(a).push(b).last() == b);
    assert(s.push(b).push(a).last() == a);
    assert(spec_hash_props(s.push(a)) == h ^ ea);
    assert(spec_hash_props(s.push(b)) == h ^ eb);
    assert(spec_hash_props(s.push(a).push(b)) == (h ^ ea) ^ eb);
    assert(spec_hash_props(s.push(b).push(a)) == (h ^ eb) ^ ea);
    assert((h ^ ea) ^ eb == (h ^ eb) ^ ea) by (bit_vector);
}

/// The value an entry's name denotes is the value beside that name, when
/// names are unique.
proof fn lemma_props_value_at(s: Seq<(String, Option<String>)>, j: int, t: Seq<char>)
    requires
        props_unique(s),
        0 <= j < s.len(),
        s[j].0@ == t,
    ensures
        props_map(s).contains_key(t),
        props_map(s)[t] == opt_str_view(s[j].1),
    decreases s.len(),
{
    if j == s.len() - 1 {
        assert(props_map(s) == props_map(s.drop_last()).insert(t, opt_str_view(s[j].1)));
    } else {
        assert(s.last().0@ != t);
        assert(s.drop_last()[j] == s[j]);
        lemma_props_value_at(s.drop_last(), j, t);
    }
}

/// The fold of the entry hashes loses exactly one entry's hash when that
/// entry is taken out.
proof fn lemma_hash_remove(s: Seq<(String, Option<String>)>, j: int)
    requires
        0 <= j < s.len(),
    ensures
        spec_hash_props(s) == spec_hash_props(s.remove(j)) ^ spec_hash_prop(s[j]),
    decreases s.len(),
{
    if j == s.len() - 1 {
        assert(s.remove(j) =~= s.drop_last());
    } else {
        let d = s.drop_last();
        assert(s.remove(j).drop_last() =~= d.remove(j));
        assert(s.remove(j).last() == s.last());
        lemma_hash_remove(d, j);
        assert(d[j] == s[j]);
        let a = spec_hash_props(d.remove(j));
        let hj = spec_hash_prop(s[j]);
        let hl = spec_hash_prop(s.last());
        assert(spec_hash_props(s) == (a ^ hj) ^ hl);
        assert(spec_hash_props(s.remove(j)) == a ^ hl);
        assert(((a ^ hj) ^ hl) == ((a ^ hl) ^ hj)) by (bit_vector);
    }
}

/// Taking out the entry that holds a name removes exactly that name from
/// the denoted mapping, when names are unique.
proof fn lemma_props_remove(s: Seq<(String, Option<String>)>, j: int, t: Seq<char>)
    requires
        props_unique(s),
        0 <= j < s.len(),
        s[j].0@ == t,
    ensures
        props_map(s.remove(j)) == props_map(s).remove(t),
        props_unique(s.remove(j)),
    decreases s.len(),
{
    assert forall|x: int, y: int|
        0 <= x < y < s.remove(j).len() implies (#[trigger] s.remove(j)[x]).0@ != (
    #[trigger] s.remove(j)[y]).0@ by {
        if y < j {
        } else if x < j {
            assert(s.remove(j)[x] == s[x] && s.remove(j)[y] == s[y + 1]);
        } else {
            assert(s.remove(j)[x] == s[x + 1] && s.remove(j)[y] == s[y + 1]);
        }
    }
    if j == s.len() - 1 {
        assert(s.remove(j) =~= s.drop_last());
        lemma_props_key_index(s.drop_last(), t);
        assert(forall|i: int|
            0 <= i < s.drop_last().len() ==> (#[trigger] s.drop_last()[i]).0@ != t);
        assert(!props_map(s.drop_last()).contains_key(t));
        assert(props_map(s.drop_last()) =~= props_map(s).remove(t));
    } else {
        let d = s.drop_last();
        assert(s.remove(j).drop_last() =~= d.remove(j));
        assert(s.remove(j).last() == s.last());
        assert(d[j] == s[j]);
        lemma_props_remove(d, j, t);
        assert(s.last().0@ != t);
        assert(props_map(s.remove(j)) =~= props_map(s).remove(t));
    }
}

/// Two entry hashes agree when the entries carry the same name and value
/// characters.
proof fn lemma_hash_prop_by_view(a: (String, Option<String>), b: (String, Option<String>))
    requires
        a.0@ == b.0@,
        opt_str_view(a.1) == opt_str_view(b.1),
    ensures
        spec_hash_prop(a) == spec_hash_prop(b),
{
    match (a.1, b.1) {
        (Some(x), Some(y)) => {
            assert(x@ == y@);
        },
        _ => {},
    }
}

/// The properties hash is content-addressed: two property lists with unique
/// names that denote the same mapping hash alike, however the properties
/// were set.
pub proof fn lemma_props_hash_by_content(
    s1: Seq<(String, Option<String>)>,
    s2: Seq<(String, Option<String>)>,
)
    requires
        props_unique(s1),
        props_unique(s2),
        props_map(s1) == props_map(s2),
    ensures
        spec_hash_props(s1) == spec_hash_props(s2),
    decreases s1.len(),
{
    if s1.len() == 0 {
        if s2.len() > 0 {
            assert(props_map(s2).contains_key(s2.last().0@));
        }
    } else {
        let t = s1.last().0@;
        lemma_props_value_at(s1, s1.len() - 1, t);
        lemma_props_key_index(s2, t);
        let j = choose|j: int| 0 <= j < s2.len() && (#[trigger] s2[j]).0@ == t;
        lemma_props_value_at(s2, j, t);
        lemma_hash_prop_by_view(s1.last(), s2[j]);
        lemma_hash_remove(s2, j);
        lemma_props_remove(s1, s1.len() - 1, t);
        lemma_props_remove(s2, j, t);
        assert(s1.remove(s1.len() - 1) =~= s1.drop_last());
        lemma_props_hash_by_content(s1.drop_last(), s2.remove(j));
    }
}

/// Equal session-property content gives equal hashes, and so equal
/// analyzed-model cache keys: the hash is a function of the denoted mapping
/// alone, not of the order in which names were set.
pub proof fn lemma_props_hash_content(p1: SessionProperties, p2: SessionProperties)
    requires
        p1.wf(),
        p2.wf(),
        p1@ == p2@,
    ensures
        spec_hash_props(p1.entries@) == spec_hash_props(p2.entries@),
{
    lemma_props_hash_by_content(p1.entries@, p2.entries@);
}

/// The cache key of the analyzed-model cache: manifest content, properties
/// content, and the mode, combined.
pub open spec fn spec_analyzed_key(mh: u64, ph: u64, mode: Mode) -> u64 {
    spec_h_step(spec_h_step(spec_h_step(HASH_OFFSET, mh), ph), mode_tag(mode))
}

/// Compute the analyzed-model cache key.
pub fn analyzed_key(mh: u64, ph: u64, mode: Mode) -> (r: u64)
    ensures
        r == spec_analyzed_key(mh, ph, mode),
{
    let t: u64 = match mode {
        Mode::LocalRuntime => 0,
        Mode::Unparse => 1,
        Mode::PermissionAnalyze => 2,
    };
    h_step(h_step(h_step(HASH_OFFSET, mh), ph), t)
}

} // verus!
