//! The manifest: the declarative description of the virtual schema — models,
//! views and row-level access rules — plus session properties and the
//! analysis mode.

use vstd::prelude::*;
use crate::plan::Expr;
use crate::text::str_eq;

verus! {

/// The analysis intent: execute locally, render back to SQL text, or validate
/// permissions only. It never mutates the manifest.
#[derive(Clone, Copy, PartialEq, Eq, Structural)]
pub enum Mode {
    /// The plan is destined for direct execution.
    LocalRuntime,
    /// The plan is destined to be rendered back to SQL text.
    Unparse,
    /// The analysis validates access rules rather than producing a plan.
    PermissionAnalyze,
}

/// A small tag distinguishing the modes, folded into cache keys.
pub open spec fn mode_tag(m: Mode) -> u64 {
    match m {
        Mode::LocalRuntime => 0,
        Mode::Unparse => 1,
        Mode::PermissionAnalyze => 2,
    }
}

/// A declared column type.
#[derive(Clone, Copy, PartialEq, Eq, Structural)]
pub enum ColType {
    /// A boolean column.
    Boolean,
    /// An integer column.
    Integer,
    /// A character column.
    Varchar,
}

/// A small tag distinguishing the column types, folded into content hashes.
pub open spec fn col_type_tag(t: ColType) -> u64 {
    match t {
        ColType::Boolean => 0,
        ColType::Integer => 1,
        ColType::Varchar => 2,
    }
}

/// A column of a model: a name, a declared type, and optionally a computing
/// expression over columns of this or a related model.
pub struct Column {
    /// The column name, unique within its model.
    pub name: String,
    /// The declared type.
    pub col_type: ColType,
    /// The computing expression of a calculated column, if any.
    pub expression: Option<Expr>,
}

/// A virtual table backed by one physical table.
pub struct Model {
    /// The model name.
    pub name: String,
    /// The physical table this model reads from.
    pub table_reference: String,
    /// The columns, in declaration order.
    pub columns: Vec<Column>,
    /// The name of the primary-key column; must name a column of this model.
    pub primary_key: String,
}

/// A virtual table backed by a stored query over other models or views.
pub struct ViewDef {
    /// The view name.
    pub name: String,
    /// The defining SQL statement.
    pub statement: String,
}

/// A row-level access-control rule: a filter predicate bound to a target
/// model, applied when the session carries the given property value.
pub struct RowLevelAccessControl {
    /// The rule name.
    pub name: String,
    /// The model whose scans the predicate filters.
    pub target_model: String,
    /// The session property that makes the rule applicable.
    pub condition_property: String,
    /// The property value that makes the rule applicable.
    pub condition_value: String,
    /// The filter predicate; must be boolean over columns of the target model.
    pub predicate: Expr,
}

/// The manifest: models, views and access rules, in declaration order.
pub struct Manifest {
    /// The models.
    pub models: Vec<Model>,
    /// The views.
    pub views: Vec<ViewDef>,
    /// The row-level access-control rules.
    pub rules: Vec<RowLevelAccessControl>,
}

/// The first model of the sequence with the given name, if any.
pub open spec fn find_model_in(s: Seq<Model>, name: Seq<char>) -> Option<Model>
    decreases s.len(),
{
    if s.len() == 0 {
        None
    } else if s[0].name@ == name {
        Some(s[0])
    } else {
        find_model_in(s.skip(1), name)
    }
}

/// The first view of the sequence with the given name, if any.
pub open spec fn find_view_in(s: Seq<ViewDef>, name: Seq<char>) -> Option<ViewDef>
    decreases s.len(),
{
    if s.len() == 0 {
        None
    } else if s[0].name@ == name {
        Some(s[0])
    } else {
        find_view_in(s.skip(1), name)
    }
}

/// The first column of the sequence with the given name, if any.
pub open spec fn find_column_in(s: Seq<Column>, name: Seq<char>) -> Option<Column>
    decreases s.len(),
{
    if s.len() == 0 {
        None
    } else if s[0].name@ == name {
        Some(s[0])
    } else {
        find_column_in(s.skip(1), name)
    }
}

impl Model {
    /// Look up a column by name; the first declared match.
    pub fn get_column(&self, name: &String) -> (r: Option<&Column>)
        ensures
            match r {
                Some(c) => find_column_in(self.columns@, name@) == Some(*c),
                None => find_column_in(self.columns@, name@) is None,
            },
    {
        let n = self.columns.len();
        let mut i: usize = 0;
        proof {
            assert(self.columns@.skip(0) =~= self.columns@);
        }
        while i < n
            invariant
                n == self.columns@.len(),
                i <= n,
                find_column_in(self.columns@, name@) == find_column_in(
                    self.columns@.skip(i as int),
                    name@,
                ),
            decreases n - i,
        {
            if str_eq(&self.columns[i].name, name) {
                proof {
                    assert(self.columns@.skip(i as int)[0] == self.columns@[i as int]);
                }
                return Some(&self.columns[i]);
            }
            proof {
                assert(self.columns@.skip(i as int)[0] == self.columns@[i as int]);
                assert(self.columns@.skip(i as int).skip(1) =~= self.columns@.skip(i + 1));
            }
            i += 1;
        }
        None
    }
}

impl Manifest {
    /// Look up a model by name; the first declared match.
    pub fn get_model(&self, name: &String) -> (r: Option<&Model>)
        ensures
            match r {
                Some(m) => find_model_in(self.models@, name@) == Some(*m),
                None => find_model_in(self.models@, name@) is None,
            },
    {
        let n = self.models.len();
        let mut i: usize = 0;
        proof {
            assert(self.models@.skip(0) =~= self.models@);
        }
        while i < n
            invariant
                n == self.models@.len(),
                i <= n,
                find_model_in(self.models@, name@) == find_model_in(
                    self.models@.skip(i as int),
                    name@,
                ),
            decreases n - i,
        {
            if str_eq(&self.models[i].name, name) {
                proof {
                    assert(self.models@.skip(i as int)[0] == self.models@[i as int]);
                }
                return Some(&self.models[i]);
            }
            proof {
                assert(self.models@.skip(i as int)[0] == self.models@[i as int]);
                assert(self.models@.skip(i as int).skip(1) =~= self.models@.skip(i + 1));
            }
            i += 1;
        }
        None
    }

    /// Look up a view by name; the first declared match.
    pub fn get_view(&self, name: &String) -> (r: Option<&ViewDef>)
        ensures
            match r {
                Some(v) => find_view_in(self.views@, name@) == Some(*v),
                None => find_view_in(self.views@, name@) is None,
            },
    {
        let n = self.views.len();
        let mut i: usize = 0;
        proof {
            assert(self.views@.skip(0) =~= self.views@);
        }
        while i < n
            invariant
                n == self.views@.len(),
                i <= n,
                find_view_in(self.views@, name@) == find_view_in(
                    self.views@.skip(i as int),
                    name@,
                ),
            decreases n - i,
        {
            if str_eq(&self.views[i].name, name) {
                proof {
                    assert(self.views@.skip(i as int)[0] == self.views@[i as int]);
                }
                return Some(&self.views[i]);
            }
            proof {
                assert(self.views@.skip(i as int)[0] == self.views@[i as int]);
                assert(self.views@.skip(i as int).skip(1) =~= self.views@.skip(i + 1));
            }
            i += 1;
        }
        None
    }
}

/// The ghost form of an optional string value.
pub open spec fn opt_str_view(o: Option<String>) -> Option<Seq<char>> {
    match o {
        None => None,
        Some(s) => Some(s@),
    }
}

/// Session properties: a mapping from property name to an optional string
/// value, scoped to one request and immutable once passed in. Setting a name
/// again replaces its entry.
pub struct SessionProperties {
    /// The entries, one per property name.
    pub entries: Vec<(String, Option<String>)>,
}

/// The entries carry pairwise distinct property names.
pub open spec fn props_unique(s: Seq<(String, Option<String>)>) -> bool {
    forall|i: int, j: int| 0 <= i < j < s.len() ==> (#[trigger] s[i]).0@ != (#[trigger] s[j]).0@
}

/// The mapping that a sequence of property entries denotes: later entries
/// override earlier ones.
pub open spec fn props_map(s: Seq<(String, Option<String>)>) -> Map<
    Seq<char>,
    Option<Seq<char>>,
>
    decreases s.len(),
{
    if s.len() == 0 {
        Map::empty()
    } else {
        props_map(s.drop_last()).insert(s.last().0@, opt_str_view(s.last().1))
    }
}

impl vstd::prelude::View for SessionProperties {
    type V = Map<Seq<char>, Option<Seq<char>>>;

    open spec fn view(&self) -> Map<Seq<char>, Option<Seq<char>>> {
        props_map(self.entries@)
    }
}

impl SessionProperties {
    /// One entry per name.
    pub open spec fn wf(&self) -> bool {
        props_unique(self.entries@)
    }

    /// An empty set of session properties.
    pub fn new() -> (r: SessionProperties)
        ensures
            r.wf(),
            r@ == Map::<Seq<char>, Option<Seq<char>>>::empty(),
    {
        let r = SessionProperties { entries: Vec::new() };
        proof {
            assert(r@ =~= Map::<Seq<char>, Option<Seq<char>>>::empty());
        }
        r
    }

    /// Set one property: a fresh name gains an entry, a known name's entry
    /// is replaced.
    pub fn set(&mut self, key: String, value: Option<String>)
        requires
            old(self).wf(),
        ensures
            final(self).wf(),
            final(self)@ == old(self)@.insert(key@, opt_str_view(value)),
            final(self).entries@.len() == old(self).entries@.len() + (
            if old(self)@.contains_key(key@) {
                0int
            } else {
                1int
            }),
    {
        let ghost k = key@;
        let ghost vv = opt_str_view(value);
        let ghost s0 = self.entries@;
        let n = self.entries.len();
        let mut i: usize = 0;
        while i < n
            invariant
                n == self.entries@.len(),
                self.entries@ == s0,
                old(self).entries@ == s0,
                props_unique(s0),
                k == key@,
                vv == opt_str_view(value),
                i <= n,
                forall|t: int| 0 <= t < i ==> (#[trigger] s0[t]).0@ != key@,
            decreases n - i,
        {
            if crate::text::str_eq(&self.entries[i].0, &key) {
                proof {
                    lemma_props_key_index(s0, k);
                    assert(s0[i as int].0@ == k);
                }
                self.entries.set(i, (key, value));
                proof {
                    let e = self.entries@[i as int];
                    assert(self.entries@ == s0.update(i as int, e));
                    assert(e.0@ == k && opt_str_view(e.1) == vv);
                    lemma_props_update(s0, i as int, e);
                    assert forall|x: int, y: int|
                        0 <= x < y < self.entries@.len() implies (
                    #[trigger] self.entries@[x]).0@ != (#[trigger] self.entries@[y]).0@ by {
                        assert(self.entries@[x].0@ == s0[x].0@);
                        assert(self.entries@[y].0@ == s0[y].0@);
                    }
                }
                return;
            }
            i += 1;
        }
        self.entries.push((key, value));
        proof {
            assert(self.entries@.drop_last() =~= s0);
            lemma_props_key_index(s0, k);
        }
    }

    /// Look up a property by name.
    pub fn get(&self, key: &String) -> (r: Option<&Option<String>>)
        ensures
            match r {
                Some(v) => self@.contains_key(key@) && self@[key@] == opt_str_view(*v),
                None => !self@.contains_key(key@),
            },
    {
        let n = self.entries.len();
        let mut i: usize = n;
        proof {
            assert(self.entries@.take(n as int) =~= self.entries@);
        }
        while i > 0
            invariant
                n == self.entries@.len(),
                i <= n,
                props_map(self.entries@).contains_key(key@) == props_map(
                    self.entries@.take(i as int),
                ).contains_key(key@),
                props_map(self.entries@.take(i as int)).contains_key(key@) ==> props_map(
                    self.entries@,
                )[key@] == props_map(self.entries@.take(i as int))[key@],
            decreases i,
        {
            i -= 1;
            if str_eq(&self.entries[i].0, key) {
                proof {
                    assert(self.entries@.take(i + 1).drop_last() =~= self.entries@.take(
                        i as int,
                    ));
                    assert(self.entries@.take(i + 1).last() == self.entries@[i as int]);
                }
                return Some(&self.entries[i].1);
            }
            proof {
                assert(self.entries@.take(i + 1).drop_last() =~= self.entries@.take(i as int));
                assert(self.entries@.take(i + 1).last() == self.entries@[i as int]);
            }
        }
        proof {
            assert(self.entries@.take(0) =~= Seq::<(String, Option<String>)>::empty());
        }
        None
    }

    /// How many entries were set.
    pub fn len(&self) -> (r: usize)
        ensures
            r == self.entries@.len(),
    {
        self.entries.len()
    }
}

/// A name is in the denoted mapping exactly when some entry carries it.
pub proof fn lemma_props_key_index(s: Seq<(String, Option<String>)>, t: Seq<char>)
    ensures
        props_map(s).contains_key(t) <==> exists|i: int|
            0 <= i < s.len() && (#[trigger] s[i]).0@ == t,
    decreases s.len(),
{
    if s.len() > 0 {
        lemma_props_key_index(s.drop_last(), t);
        if props_map(s).contains_key(t) {
            if t != s.last().0@ {
                let i = choose|i: int|
                    0 <= i < s.drop_last().len() && (#[trigger] s.drop_last()[i]).0@ == t;
                assert(s[i].0@ == t);
            } else {
                assert(s[s.len() - 1].0@ == t);
            }
        }
        if exists|i: int| 0 <= i < s.len() && (#[trigger] s[i]).0@ == t {
            let i = choose|i: int| 0 <= i < s.len() && (#[trigger] s[i]).0@ == t;
            if i < s.len() - 1 {
                assert(s.drop_last()[i].0@ == t);
            }
        }
    }
}

/// Replacing the entry that holds a name denotes inserting under that name,
/// provided no later entry repeats the name.
pub proof fn lemma_props_update(
    s: Seq<(String, Option<String>)>,
    j: int,
    e: (String, Option<String>),
)
    requires
        0 <= j < s.len(),
        s[j].0@ == e.0@,
        forall|t: int| j < t < s.len() ==> (#[trigger] s[t]).0@ != e.0@,
    ensures
        props_map(s.update(j, e)) == props_map(s).insert(e.0@, opt_str_view(e.1)),
    decreases s.len(),
{
    let u = s.update(j, e);
    if j == s.len() - 1 {
        assert(u.drop_last() =~= s.drop_last());
        assert(u.last() == e);
        assert(props_map(u) =~= props_map(s).insert(e.0@, opt_str_view(e.1)));
    } else {
        assert(u.drop_last() =~= s.drop_last().update(j, e));
        assert(u.last() == s.last());
        lemma_props_update(s.drop_last(), j, e);
        assert(s.last().0@ != e.0@);
        assert(props_map(u) =~= props_map(s).insert(e.0@, opt_str_view(e.1)));
    }
}

/// Builder for a column.
pub struct ColumnBuilder {
    /// The column under construction.
    pub column: Column,
}

impl ColumnBuilder {
    /// Start a column with a name and a declared type.
    pub fn new(name: &str, col_type: ColType) -> (r: ColumnBuilder)
        ensures
            r.column.name@ == name@,
            r.column.col_type == col_type,
            r.column.expression is None,
    {
        ColumnBuilder {
            column: Column { name: String::from_str(name), col_type, expression: None },
        }
    }

    /// Make the column a calculated column with the given expression.
    pub fn expression(self, e: Expr) -> (r: ColumnBuilder)
        ensures
            r.column.name == self.column.name,
            r.column.col_type == self.column.col_type,
            r.column.expression == Some(e),
    {
        ColumnBuilder {
            column: Column {
                name: self.column.name,
                col_type: self.column.col_type,
                expression: Some(e),
            },
        }
    }

    /// Finish the column.
    pub fn build(self) -> (r: Column)
        ensures
            r == self.column,
    {
        self.column
    }
}

/// Builder for a model.
pub struct ModelBuilder {
    /// The model under construction.
    pub model: Model,
}

impl ModelBuilder {
    /// Start a model with a name.
    pub fn new(name: &str) -> (r: ModelBuilder)
        ensures
            r.model.name@ == name@,
            r.model.table_reference@ == Seq::<char>::empty(),
            r.model.columns@ == Seq::<Column>::empty(),
            r.model.primary_key@ == Seq::<char>::empty(),
    {
        ModelBuilder {
            model: Model {
                name: String::from_str(name),
                table_reference: String::new(),
                columns: Vec::new(),
                primary_key: String::new(),
            },
        }
    }

    /// Set the physical table the model reads from.
    pub fn table_reference(self, table: &str) -> (r: ModelBuilder)
        ensures
            r.model.name == self.model.name,
            r.model.table_reference@ == table@,
            r.model.columns == self.model.columns,
            r.model.primary_key == self.model.primary_key,
    {
        ModelBuilder {
            model: Model {
                name: self.model.name,
                table_reference: String::from_str(table),
                columns: self.model.columns,
                primary_key: self.model.primary_key,
            },
        }
    }

    /// Add a column.
    pub fn column(self, column: Column) -> (r: ModelBuilder)
        ensures
            r.model.name == self.model.name,
            r.model.table_reference == self.model.table_reference,
            r.model.columns@ == self.model.columns@.push(column),
            r.model.primary_key == self.model.primary_key,
    {
        let mut m = self.model;
        m.columns.push(column);
        ModelBuilder { model: m }
    }

    /// Name the primary-key column.
    pub fn primary_key(self, key: &str) -> (r: ModelBuilder)
        ensures
            r.model.name == self.model.name,
            r.model.table_reference == self.model.table_reference,
            r.model.columns == self.model.columns,
            r.model.primary_key@ == key@,
    {
        ModelBuilder {
            model: Model {
                name: self.model.name,
                table_reference: self.model.table_reference,
                columns: self.model.columns,
                primary_key: String::from_str(key),
            },
        }
    }

    /// Finish the model.
    pub fn build(self) -> (r: Model)
        ensures
            r == self.model,
    {
        self.model
    }
}

/// Builder for a view.
pub struct ViewBuilder {
    /// The view under construction.
    pub view: ViewDef,
}

impl ViewBuilder {
    /// Start a view with a name.
    pub fn new(name: &str) -> (r: ViewBuilder)
        ensures
            r.view.name@ == name@,
            r.view.statement@ == Seq::<char>::empty(),
    {
        ViewBuilder { view: ViewDef { name: String::from_str(name), statement: String::new() } }
    }

    /// Set the defining SQL statement.
    pub fn statement(self, statement: &str) -> (r: ViewBuilder)
        ensures
            r.view.name == self.view.name,
            r.view.statement@ == statement@,
    {
        ViewBuilder {
            view: ViewDef { name: self.view.name, statement: String::from_str(statement) },
        }
    }

    /// Finish the view.
    pub fn build(self) -> (r: ViewDef)
        ensures
            r == self.view,
    {
        self.view
    }
}

/// Builder for the manifest.
pub struct ManifestBuilder {
    /// The manifest under construction.
    pub manifest: Manifest,
}

impl ManifestBuilder {
    /// Start an empty manifest.
    pub fn new() -> (r: ManifestBuilder)
        ensures
            r.manifest.models@ == Seq::<Model>::empty(),
            r.manifest.views@ == Seq::<ViewDef>::empty(),
            r.manifest.rules@ == Seq::<RowLevelAccessControl>::empty(),
    {
        ManifestBuilder {
            manifest: Manifest { models: Vec::new(), views: Vec::new(), rules: Vec::new() },
        }
    }

    /// Add a model.
    pub fn model(self, model: Model) -> (r: ManifestBuilder)
        ensures
            r.manifest.models@ == self.manifest.models@.push(model),
            r.manifest.views == self.manifest.views,
            r.manifest.rules == self.manifest.rules,
    {
        let mut m = self.manifest;
        m.models.push(model);
        ManifestBuilder { manifest: m }
    }

    /// Add a view.
    pub fn view(self, view: ViewDef) -> (r: ManifestBuilder)
        ensures
            r.manifest.models == self.manifest.models,
            r.manifest.views@ == self.manifest.views@.push(view),
            r.manifest.rules == self.manifest.rules,
    {
        let mut m = self.manifest;
        m.views.push(view);
        ManifestBuilder { manifest: m }
    }

    /// Add a row-level access-control rule.
    pub fn rule(self, rule: RowLevelAccessControl) -> (r: ManifestBuilder)
        ensures
            r.manifest.models == self.manifest.models,
            r.manifest.views == self.manifest.views,
            r.manifest.rules@ == self.manifest.rules@.push(rule),
    {
        let mut m = self.manifest;
        m.rules.push(rule);
        ManifestBuilder { manifest: m }
    }

    /// Finish the manifest.
    pub fn build(self) -> (r: Manifest)
        ensures
            r == self.manifest,
    {
        self.manifest
    }
}

} // verus!
