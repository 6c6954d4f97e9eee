//! The registry of built-in system tables, served through the schema and
//! catalog lookup operations.
//!
//! The registry is built once through `SystemTablesBuilder` and then frozen:
//! the built form is shared read-only, and every mutation operation fails
//! with `CatalogError::UnSupported`.
use vstd::prelude::*;
use vstd::map::*;
use crate::metadata::{clone_arc, Table, TableRef};
use crate::text::str_eq;

verus! {

/// Name of the single built-in catalog.
pub const SYSTEM_CATALOG: &'static str = "system";

/// Name of the single schema inside the built-in catalog.
pub const SYSTEM_CATALOG_SCHEMA: &'static str = "public";

/// Message carried by every refused mutation.
pub const UNSUPPORTED_MSG: &'static str = "system tables not supported";

/// Identifier a schema would allocate for a new table.
pub type TableId = u64;

/// Error taxonomy of the catalog side: mutations of the read-only system
/// namespace are not supported.
#[derive(Debug)]
pub enum CatalogError {
    UnSupported { msg: &'static str },
}

/// What a caller would pass to create a table.
pub struct CreateTableRequest {
    pub table_name: String,
}

/// What a caller would pass to drop a table.
pub struct DropTableRequest {
    pub table_name: String,
}

/// Creation options for `create_table`.
pub struct CreateOptions {
    pub create_if_not_exists: bool,
}

/// Drop options for `drop_table`.
pub struct DropOptions {
    pub ignore_missing: bool,
}

/// The map a sequence of name/handle pairs stands for; a later pair
/// overrides an earlier one under the same name.
pub open spec fn tables_map(s: Seq<(String, TableRef)>) -> Map<Seq<char>, Table>
    decreases s.len(),
{
    if s.len() == 0 {
        Map::empty()
    } else {
        tables_map(s.drop_last()).insert(s.last().0@, *s.last().1)
    }
}

/// Removing one pair changes the map at no other name.
proof fn lemma_tables_map_remove_agrees(s: Seq<(String, TableRef)>, j: int, k: Seq<char>)
    requires
        0 <= j < s.len(),
        k != s[j].0@,
    ensures
        tables_map(s.remove(j)).contains_key(k) == tables_map(s).contains_key(k),
        tables_map(s).contains_key(k) ==> tables_map(s.remove(j))[k] == tables_map(s)[k],
    decreases s.len(),
{
    if j == s.len() - 1 {
        assert(s.remove(j) =~= s.drop_last());
    } else {
        let dl = s.drop_last();
        assert(dl[j] == s[j]);
        lemma_tables_map_remove_agrees(dl, j, k);
        assert(s.remove(j).drop_last() =~= dl.remove(j));
        assert(s.remove(j).last() == s.last());
        assert(tables_map(s.remove(j)) == tables_map(dl.remove(j)).insert(
            s.last().0@,
            *s.last().1,
        ));
    }
}

/// The name looked up resolves to the last pair that carries it: the value
/// of the registry map under a name is the table of the latest insertion
/// under that name.
pub proof fn lemma_tables_map_last_match(s: Seq<(String, TableRef)>, i: int)
    requires
        0 <= i < s.len(),
        forall|j: int| i < j < s.len() ==> s[j].0@ != s[i].0@,
    ensures
        tables_map(s).contains_key(s[i].0@),
        tables_map(s)[s[i].0@] == *s[i].1,
    decreases s.len(),
{
    if i == s.len() - 1 {
    } else {
        let dl = s.drop_last();
        assert(dl[i] == s[i]);
        assert(forall|j: int| i < j < dl.len() ==> dl[j] == s[j]);
        lemma_tables_map_last_match(dl, i);
        assert(s.last().0@ != s[i].0@);
    }
}

/// A name no pair carries is not in the map.
pub proof fn lemma_tables_map_absent(s: Seq<(String, TableRef)>, k: Seq<char>)
    requires
        forall|j: int| 0 <= j < s.len() ==> s[j].0@ != k,
    ensures
        !tables_map(s).contains_key(k),
    decreases s.len(),
{
    if s.len() > 0 {
        let dl = s.drop_last();
        assert(forall|j: int| 0 <= j < dl.len() ==> dl[j] == s[j]);
        lemma_tables_map_absent(dl, k);
    }
}

/// Validity of the stored pairs: names are pairwise distinct, and each
/// pair carries its own table's name.
pub open spec fn registry_wf(s: Seq<(String, TableRef)>) -> bool {
    &&& forall|i: int, j: int| 0 <= i < j < s.len() ==> s[i].0@ != s[j].0@
    &&& forall|i: int| 0 <= i < s.len() ==> (#[trigger] s[i].0@) == s[i].1.name@
}

/// Under distinct names, the map has exactly one entry per stored pair.
pub proof fn lemma_tables_map_len(s: Seq<(String, TableRef)>)
    requires
        registry_wf(s),
    ensures
        tables_map(s).len() == s.len(),
        tables_map(s).dom().finite(),
    decreases s.len(),
{
    broadcast use vstd::set::axiom_set_insert_len;

    if s.len() > 0 {
        let dl = s.drop_last();
        assert(registry_wf(dl)) by {
            assert(forall|a: int| 0 <= a < dl.len() ==> dl[a] == s[a]);
        }
        lemma_tables_map_len(dl);
        assert(forall|j: int| 0 <= j < dl.len() ==> dl[j].0@ != s.last().0@) by {
            assert(forall|j: int| 0 <= j < dl.len() ==> dl[j] == s[j]);
        }
        lemma_tables_map_absent(dl, s.last().0@);
        assert(tables_map(s).dom() =~= tables_map(dl).dom().insert(s.last().0@));
    }
}

/// The map a sequence of insertions produces, in insertion order.
pub open spec fn inserts_map(pairs: Seq<(Seq<char>, Table)>) -> Map<Seq<char>, Table>
    decreases pairs.len(),
{
    if pairs.len() == 0 {
        Map::empty()
    } else {
        inserts_map(pairs.drop_last()).insert(pairs.last().0, pairs.last().1)
    }
}

/// Last write wins: after any sequence of insertions, a name resolves to
/// the table inserted last under it. `SystemTablesBuilder::insert_table`
/// makes the builder's view exactly such a fold of insertions, and
/// `table_by_name` returns exactly the view's value under the name.
pub proof fn lemma_last_insert_wins(pairs: Seq<(Seq<char>, Table)>, i: int)
    requires
        0 <= i < pairs.len(),
        forall|j: int| i < j < pairs.len() ==> pairs[j].0 != pairs[i].0,
    ensures
        inserts_map(pairs).contains_key(pairs[i].0),
        inserts_map(pairs)[pairs[i].0] == pairs[i].1,
    decreases pairs.len(),
{
    if i == pairs.len() - 1 {
    } else {
        let dl = pairs.drop_last();
        assert(dl[i] == pairs[i]);
        assert(forall|j: int| i < j < dl.len() ==> dl[j] == pairs[j]);
        lemma_last_insert_wins(dl, i);
        assert(pairs.last().0 != pairs[i].0);
    }
}

/// Accumulates name/table pairs; `build` freezes them into the shared
/// read-only registry. Inserting under an existing name overwrites.
pub struct SystemTablesBuilder {
    tables: Vec<(String, TableRef)>,
}

impl View for SystemTablesBuilder {
    type V = Map<Seq<char>, Table>;

    closed spec fn view(&self) -> Map<Seq<char>, Table> {
        tables_map(self.tables@)
    }
}

impl SystemTablesBuilder {
    /// Validity of the accumulated pairs; established by `new` and
    /// preserved by `insert_table`.
    pub closed spec fn wf(&self) -> bool {
        registry_wf(self.tables@)
    }

    /// An empty builder.
    pub fn new() -> (r: Self)
        ensures
            r@ == Map::<Seq<char>, Table>::empty(),
            r.wf(),
    {
        SystemTablesBuilder { tables: Vec::new() }
    }

    fn find_name(tables: &Vec<(String, TableRef)>, name: &String) -> (r: Option<usize>)
        ensures
            match r {
                Some(i) => i < tables@.len() && tables@[i as int].0@ == name@,
                None => forall|j: int| 0 <= j < tables@.len() ==> tables@[j].0@ != name@,
            },
    {
        let n = tables.len();
        let mut i: usize = 0;
        while i < n
            invariant
                i <= n,
                n == tables@.len(),
                forall|j: int| 0 <= j < i ==> tables@[j].0@ != name@,
            decreases n - i,
        {
            if str_eq(tables[i].0.as_str(), name.as_str()) {
                return Some(i);
            }
            i += 1;
        }
        None
    }

    /// Adds a table under its own name; an earlier table under the same
    /// name is silently overwritten.
    pub fn insert_table(self, table: Table) -> (r: Self)
        requires
            self.wf(),
        ensures
            r@ == self@.insert(table.name@, table),
            r.wf(),
    {
        let ghost nview = table.name@;
        let ghost tval = table;
        let mut tables = self.tables;
        let ghost s0 = tables@;
        let name = table.name.clone();
        let handle = std::sync::Arc::new(table);
        match Self::find_name(&tables, &name) {
            Some(j) => {
                let _replaced = tables.remove(j);
                let ghost s1 = tables@;
                tables.push((name, handle));
                proof {
                    assert(tables@.drop_last() =~= s1);
                    assert(tables@.last().0@ == nview);
                    assert(*tables@.last().1 == tval);
                    assert(tables_map(tables@) == tables_map(s1).insert(nview, tval));
                    assert(s0[j as int].0@ == nview);
                    assert_maps_equal!(tables_map(s1).insert(nview, tval), tables_map(s0).insert(nview, tval), k2 => {
                        if k2 != nview {
                            lemma_tables_map_remove_agrees(s0, j as int, k2);
                        }
                    });
                    assert(forall|a: int|
                        0 <= a < s1.len() ==> s1[a] == (if a < j as int {
                            s0[a]
                        } else {
                            s0[a + 1]
                        }));
                    assert forall|a: int| 0 <= a < s1.len() implies s1[a].0@ != nview by {
                        let a0 = if a < j as int { a } else { a + 1 };
                        if a0 < j as int {
                            assert(s0[a0].0@ != s0[j as int].0@);
                        } else {
                            assert(s0[j as int].0@ != s0[a0].0@);
                        }
                    }
                    assert(tables@.last().1.name@ == nview);
                    assert(registry_wf(tables@));
                }
            },
            None => {
                tables.push((name, handle));
                proof {
                    assert(tables@.drop_last() =~= s0);
                    assert(tables@.last().0@ == nview);
                    assert(*tables@.last().1 == tval);
                    assert(tables_map(tables@) == tables_map(s0).insert(nview, tval));
                    assert(tables@.last().1.name@ == nview);
                    assert(registry_wf(tables@));
                }
            },
        }
        SystemTablesBuilder { tables }
    }

    /// Freezes the accumulated mapping into the shared read-only registry.
    pub fn build(self) -> (r: SystemTables)
        requires
            self.wf(),
        ensures
            r@ == self@,
            r.wf(),
    {
        SystemTables::new(self.tables)
    }
}

/// The frozen registry of system tables, shared read-only. It serves both
/// the schema lookups (tables by name) and the catalog lookups (the single
/// schema by name); every mutation fails.
#[derive(Clone)]
pub struct SystemTables {
    tables: std::sync::Arc<Vec<(String, TableRef)>>,
}

/// Shared handle to the schema a catalog lookup resolves.
pub type SchemaRef = std::sync::Arc<SystemTables>;

impl View for SystemTables {
    type V = Map<Seq<char>, Table>;

    closed spec fn view(&self) -> Map<Seq<char>, Table> {
        tables_map(self.tables@)
    }
}

impl SystemTables {
    /// Validity of the frozen registry; established by `new` and shared
    /// unchanged afterwards.
    pub closed spec fn wf(&self) -> bool {
        registry_wf(self.tables@)
    }

    /// Freezes the given name/handle pairs, each carrying its own table's
    /// name, names pairwise distinct.
    pub fn new(tables: Vec<(String, TableRef)>) -> (r: Self)
        requires
            registry_wf(tables@),
        ensures
            r@ == tables_map(tables@),
            r.wf(),
    {
        SystemTables { tables: std::sync::Arc::new(tables) }
    }

    /// The fixed schema name.
    pub fn name(&self) -> (r: &'static str)
        ensures
            r@ == SYSTEM_CATALOG_SCHEMA@,
    {
        SYSTEM_CATALOG_SCHEMA
    }

    /// The fixed catalog name.
    pub fn catalog_name(&self) -> (r: &'static str)
        ensures
            r@ == SYSTEM_CATALOG@,
    {
        SYSTEM_CATALOG
    }

    /// The table registered under `name`, or `None` if there is none; the
    /// lookup itself never fails.
    pub fn table_by_name(&self, name: &str) -> (r: Result<Option<TableRef>, CatalogError>)
        ensures
            r matches Ok(o) && match o {
                Some(t) => self@.contains_key(name@) && *t == self@[name@],
                None => !self@.contains_key(name@),
            },
    {
        let tables: &Vec<(String, TableRef)> = &self.tables;
        let n = tables.len();
        let mut i: usize = n;
        while i > 0
            invariant
                i <= n,
                n == tables@.len(),
                tables@ == self.tables@,
                forall|j: int| i <= j < n ==> tables@[j].0@ != name@,
            decreases i,
        {
            i -= 1;
            if str_eq(tables[i].0.as_str(), name) {
                proof {
                    lemma_tables_map_last_match(tables@, i as int);
                }
                return Ok(Some(clone_arc(&tables[i].1)));
            }
        }
        proof {
            lemma_tables_map_absent(tables@, name@);
        }
        Ok(None)
    }

    /// Allocating a table id is a mutation of the read-only namespace.
    pub fn alloc_table_id(&self, _name: &str) -> (r: Result<TableId, CatalogError>)
        ensures
            r matches Err(e) && e matches CatalogError::UnSupported { msg } && msg@
                == UNSUPPORTED_MSG@,
    {
        Err(CatalogError::UnSupported { msg: UNSUPPORTED_MSG })
    }

    /// Creating a table is a mutation of the read-only namespace.
    pub fn create_table(&self, _request: CreateTableRequest, _opts: CreateOptions) -> (r: Result<
        TableRef,
        CatalogError,
    >)
        ensures
            r matches Err(e) && e matches CatalogError::UnSupported { msg } && msg@
                == UNSUPPORTED_MSG@,
    {
        Err(CatalogError::UnSupported { msg: UNSUPPORTED_MSG })
    }

    /// Dropping a table is a mutation of the read-only namespace.
    pub fn drop_table(&self, _request: DropTableRequest, _opts: DropOptions) -> (r: Result<
        bool,
        CatalogError,
    >)
        ensures
            r matches Err(e) && e matches CatalogError::UnSupported { msg } && msg@
                == UNSUPPORTED_MSG@,
    {
        Err(CatalogError::UnSupported { msg: UNSUPPORTED_MSG })
    }

    /// All handles the registry holds: one per registered name, each being
    /// the registry map's value under that name; order carries no meaning.
    pub fn all_tables(&self) -> (r: Result<Vec<TableRef>, CatalogError>)
        requires
            self.wf(),
        ensures
            r matches Ok(v) && v@.len() == self@.len() && (forall|i: int|
                0 <= i < v@.len() ==> self@.contains_key(#[trigger] v@[i].name@) && *v@[i]
                    == self@[v@[i].name@]) && (forall|i: int, j: int|
                0 <= i < j < v@.len() ==> v@[i].name@ != v@[j].name@),
    {
        let tables: &Vec<(String, TableRef)> = &self.tables;
        let n = tables.len();
        let mut out: Vec<TableRef> = Vec::new();
        let mut i: usize = 0;
        while i < n
            invariant
                i <= n,
                n == tables@.len(),
                tables@ == self.tables@,
                out@.len() == i,
                forall|k: int| 0 <= k < i ==> out@[k] == tables@[k].1,
            decreases n - i,
        {
            out.push(clone_arc(&tables[i].1));
            i += 1;
        }
        proof {
            lemma_tables_map_len(tables@);
            assert forall|i2: int| 0 <= i2 < out@.len() implies self@.contains_key(
                #[trigger] out@[i2].name@,
            ) && *out@[i2] == self@[out@[i2].name@] by {
                assert(out@[i2] == tables@[i2].1);
                assert(out@[i2].name@ == tables@[i2].0@);
                lemma_tables_map_last_match(tables@, i2);
            }
            assert forall|i2: int, j2: int| 0 <= i2 < j2 < out@.len() implies out@[i2].name@
                != out@[j2].name@ by {
                assert(out@[i2].name@ == tables@[i2].0@);
                assert(out@[j2].name@ == tables@[j2].0@);
            }
        }
        Ok(out)
    }

    /// The single schema, under its fixed name; any other name resolves to
    /// `None`, and the lookup itself never fails.
    pub fn schema_by_name(&self, name: &str) -> (r: Result<Option<SchemaRef>, CatalogError>)
        ensures
            name@ == SYSTEM_CATALOG_SCHEMA@ ==> (r matches Ok(o) && o matches Some(s) && s@
                == self@ && ((*s).wf() <==> self.wf())),
            name@ != SYSTEM_CATALOG_SCHEMA@ ==> (r matches Ok(o) && o is None),
    {
        if str_eq(name, SYSTEM_CATALOG_SCHEMA) {
            Ok(Some(std::sync::Arc::new(SystemTables { tables: clone_arc(&self.tables) })))
        } else {
            Ok(None)
        }
    }

    /// Creating a schema is a mutation of the read-only namespace.
    pub fn create_schema(&self, _name: &str) -> (r: Result<(), CatalogError>)
        ensures
            r matches Err(e) && e matches CatalogError::UnSupported { msg } && msg@
                == UNSUPPORTED_MSG@,
    {
        Err(CatalogError::UnSupported { msg: UNSUPPORTED_MSG })
    }

    /// Enumerating schemas is not offered on the system catalog.
    pub fn all_schemas(&self) -> (r: Result<Vec<SchemaRef>, CatalogError>)
        ensures
            r matches Err(e) && e matches CatalogError::UnSupported { msg } && msg@
                == UNSUPPORTED_MSG@,
    {
        Err(CatalogError::UnSupported { msg: UNSUPPORTED_MSG })
    }
}

} // verus!
