//! `SHOW CREATE TABLE`: renders a table's metadata back into `CREATE
//! TABLE` SQL text and wraps it as a one-row, two-column result set.
use vstd::prelude::*;
use vstd::seq_lib::lemma_sorted_unique;
use crate::metadata::{Column, Options, Table, TableRef, TableSchema};
use crate::text::{lemma_lex_total_ordering, lex_leq_f, sort_strings, view_seq};

verus! {

/// The kind of object a `SHOW CREATE` statement names.
#[derive(Clone, Copy, Debug, PartialEq, Eq, Structural)]
pub enum ShowCreateObject {
    Table,
    View,
}

/// A resolved `SHOW CREATE` plan: the target table handle and the object
/// kind the statement asked for.
pub struct ShowCreatePlan {
    pub table: TableRef,
    pub obj_type: ShowCreateObject,
}

/// Error taxonomy of the interpreter: `SHOW CREATE` supports tables only,
/// and the offending kind is captured for diagnostics.
#[derive(Debug)]
pub enum Error {
    UnsupportedType { obj_type: ShowCreateObject },
}

/// One column of a result set: its name and nullability.
pub struct Field {
    pub name: String,
    pub nullable: bool,
}

/// A tabular result: field descriptors and rows of string values.
pub struct RecordBatch {
    pub fields: Vec<Field>,
    pub rows: Vec<Vec<String>>,
}

/// The batches one statement produces.
pub type RecordBatchVec = Vec<RecordBatch>;

/// What an interpreter hands back on success.
pub enum Output {
    Records(RecordBatchVec),
}

/// A boxed single-use interpreter.
pub type InterpreterPtr = Box<ShowCreateInInterpreter>;

/// Single-use interpreter for one `SHOW CREATE` plan.
pub struct ShowCreateInInterpreter {
    pub plan: ShowCreatePlan,
}

/// The clause one column contributes: backquoted name, data type, then in
/// this fixed order ` TAG`, ` NOT NULL` and ` COMMENT '...'`, each only
/// when it applies.
pub open spec fn spec_column_clause(c: Column) -> Seq<char> {
    "`"@ + c.name@ + "` "@ + c.data_type@ + (if c.is_tag {
        " TAG"@
    } else {
        Seq::<char>::empty()
    }) + (if !c.is_nullable {
        " NOT NULL"@
    } else {
        Seq::<char>::empty()
    }) + (if c.comment@.len() != 0 {
        " COMMENT '"@ + c.comment@ + "'"@
    } else {
        Seq::<char>::empty()
    })
}

/// All column clauses in declared order, each followed by `, `.
pub open spec fn spec_columns_text(cols: Seq<Column>) -> Seq<char>
    decreases cols.len(),
{
    if cols.len() == 0 {
        Seq::<char>::empty()
    } else {
        spec_columns_text(cols.drop_last()) + spec_column_clause(cols.last()) + ", "@
    }
}

/// Key column names joined by `,` with no surrounding spaces.
pub open spec fn spec_keys_text(keys: Seq<String>) -> Seq<char>
    decreases keys.len(),
{
    if keys.len() == 0 {
        Seq::<char>::empty()
    } else if keys.len() == 1 {
        keys[0]@
    } else {
        spec_keys_text(keys.drop_last()) + ","@ + keys.last()@
    }
}

/// The primary-key and timestamp-key clauses.
pub open spec fn spec_constraints_text(ts: TableSchema) -> Seq<char> {
    "PRIMARY KEY("@ + spec_keys_text(ts.key_columns@) + "), TIMESTAMP KEY("@ + ts.timestamp_name@
        + ")"@
}

/// Everything between the outer parentheses of the rendered statement.
pub open spec fn spec_columns_and_constraints(ts: TableSchema) -> Seq<char> {
    spec_columns_text(ts.columns@) + spec_constraints_text(ts)
}

/// One rendered option, `key='value'`.
pub open spec fn spec_option_entry(k: Seq<char>, m: Map<Seq<char>, Seq<char>>) -> Seq<char> {
    k + "='"@ + m[k] + "'"@
}

/// Rendered options for the given keys in the given order, joined by `, `.
pub open spec fn spec_options_list(keys: Seq<Seq<char>>, m: Map<Seq<char>, Seq<char>>) -> Seq<char>
    decreases keys.len(),
{
    if keys.len() == 0 {
        Seq::<char>::empty()
    } else if keys.len() == 1 {
        spec_option_entry(keys[0], m)
    } else {
        spec_options_list(keys.drop_last(), m) + ", "@ + spec_option_entry(keys.last(), m)
    }
}

/// The options clause: ` WITH(...)` over the keys in lexicographic order,
/// or nothing at all when no option is set.
pub open spec fn spec_render_options(opts: Options) -> Seq<char> {
    if opts@.len() == 0 {
        Seq::<char>::empty()
    } else {
        " WITH("@ + spec_options_list(opts.key_views().sort_by(lex_leq_f()), opts@) + ")"@
    }
}

/// The full rendered statement.
pub open spec fn spec_render_table_sql(t: Table) -> Seq<char> {
    "CREATE TABLE `"@ + t.name@ + "` ("@ + spec_columns_and_constraints(t.schema) + ") ENGINE="@
        + t.engine_type@ + spec_render_options(t.options)
}

/// The shape of a `SHOW CREATE TABLE` result: one batch with two
/// non-nullable string columns named `Table` and `Create Table`, and one
/// row holding the table's name and its rendered statement.
pub open spec fn spec_show_create_records(t: Table, b: Seq<RecordBatch>) -> bool {
    &&& b.len() == 1
    &&& b[0].fields@.len() == 2
    &&& b[0].fields@[0].name@ == "Table"@
    &&& b[0].fields@[0].nullable == false
    &&& b[0].fields@[1].name@ == "Create Table"@
    &&& b[0].fields@[1].nullable == false
    &&& b[0].rows@.len() == 1
    &&& b[0].rows@[0]@.len() == 2
    &&& b[0].rows@[0]@[0]@ == t.name@
    &&& b[0].rows@[0]@[1]@ == spec_render_table_sql(t)
}

impl ShowCreateInInterpreter {
    /// Wraps a resolved plan into a single-use interpreter.
    pub fn create(plan: ShowCreatePlan) -> (r: InterpreterPtr)
        ensures
            r.plan == plan,
    {
        Box::new(ShowCreateInInterpreter { plan })
    }

    /// Runs the plan: rejects any non-table object kind, otherwise renders
    /// the table and wraps the result set.
    pub fn execute_show_create(self: Box<Self>) -> (r: Result<Output, Error>)
        requires
            self.plan.table.options.wf(),
        ensures
            self.plan.obj_type == ShowCreateObject::Table ==> (r matches Ok(o) && o matches
                Output::Records(b) && spec_show_create_records(*self.plan.table, b@)),
            self.plan.obj_type != ShowCreateObject::Table ==> (r matches Err(e) && e matches
                Error::UnsupportedType { obj_type } && obj_type == self.plan.obj_type),
    {
        let plan = (*self).plan;
        if plan.obj_type != ShowCreateObject::Table {
            return Err(Error::UnsupportedType { obj_type: plan.obj_type });
        }
        match Self::table_ref_to_record_batch(plan.table) {
            Ok(b) => Ok(Output::Records(b)),
            Err(e) => Err(e),
        }
    }

    /// Renders one table as its result set; never fails.
    pub fn table_ref_to_record_batch(table_ref: TableRef) -> (r: Result<RecordBatchVec, Error>)
        requires
            table_ref.options.wf(),
        ensures
            r matches Ok(b) && spec_show_create_records(*table_ref, b@),
    {
        let name = table_ref.name.clone();
        let sql = Self::render_table_sql(table_ref);

        let mut fields: Vec<Field> = Vec::new();
        fields.push(Field { name: "Table".to_owned(), nullable: false });
        fields.push(Field { name: "Create Table".to_owned(), nullable: false });

        let mut row: Vec<String> = Vec::new();
        row.push(name);
        row.push(sql);
        let mut rows: Vec<Vec<String>> = Vec::new();
        rows.push(row);

        let mut out: Vec<RecordBatch> = Vec::new();
        out.push(RecordBatch { fields, rows });
        Ok(out)
    }

    /// Renders the `CREATE TABLE` statement for one table.
    pub fn render_table_sql(table_ref: TableRef) -> (r: String)
        requires
            table_ref.options.wf(),
        ensures
            r@ == spec_render_table_sql(*table_ref),
    {
        let mut r = "CREATE TABLE `".to_owned();
        r.append(table_ref.name.as_str());
        r.append("` (");
        let cols = Self::render_columns_and_constrains(&table_ref);
        r.append(cols.as_str());
        r.append(") ENGINE=");
        r.append(table_ref.engine_type.as_str());
        let opts = Self::render_options(&table_ref.options);
        r.append(opts.as_str());
        r
    }

    /// Renders the column clauses in declared order, then the primary-key
    /// and timestamp-key clauses.
    #[verifier::rlimit(60)]
    pub fn render_columns_and_constrains(table_ref: &TableRef) -> (r: String)
        ensures
            r@ == spec_columns_and_constraints(table_ref.schema),
    {
        let t: &Table = table_ref;
        let mut res = String::new();
        let n = t.schema.columns.len();
        let mut i: usize = 0;
        proof {
            assert(t.schema.columns@.take(0) =~= Seq::<Column>::empty());
        }
        while i < n
            invariant
                i <= n,
                n == t.schema.columns@.len(),
                res@ == spec_columns_text(t.schema.columns@.take(i as int)),
            decreases n - i,
        {
            let ghost res0 = res@;
            let c = &t.schema.columns[i];
            res.append("`");
            res.append(c.name.as_str());
            res.append("` ");
            res.append(c.data_type.as_str());
            if c.is_tag {
                res.append(" TAG");
            }
            if !c.is_nullable {
                res.append(" NOT NULL");
            }
            if !c.comment.as_str().is_empty() {
                res.append(" COMMENT '");
                res.append(c.comment.as_str());
                res.append("'");
            }
            res.append(", ");
            proof {
                let tk = t.schema.columns@.take(i as int + 1);
                assert(tk.drop_last() =~= t.schema.columns@.take(i as int));
                assert(tk.last() == t.schema.columns@[i as int]);
                assert(res@ =~= res0 + spec_column_clause(t.schema.columns@[i as int]) + ", "@);
                assert(res@ =~= spec_columns_text(tk));
            }
            i += 1;
        }
        proof {
            assert(t.schema.columns@.take(n as int) =~= t.schema.columns@);
        }
        res.append("PRIMARY KEY(");
        let kn = t.schema.key_columns.len();
        let mut j: usize = 0;
        let ghost res_mid = res@;
        proof {
            assert(t.schema.key_columns@.take(0) =~= Seq::<String>::empty());
        }
        while j < kn
            invariant
                j <= kn,
                kn == t.schema.key_columns@.len(),
                res@ == res_mid + spec_keys_text(t.schema.key_columns@.take(j as int)),
            decreases kn - j,
        {
            if j > 0 {
                res.append(",");
            }
            res.append(t.schema.key_columns[j].as_str());
            proof {
                let tk = t.schema.key_columns@.take(j as int + 1);
                assert(tk.drop_last() =~= t.schema.key_columns@.take(j as int));
                assert(tk.last() == t.schema.key_columns@[j as int]);
                if j == 0 {
                    assert(tk.len() == 1);
                    assert(tk[0] == t.schema.key_columns@[0]);
                }
                assert(res@ =~= res_mid + spec_keys_text(tk));
            }
            j += 1;
        }
        proof {
            assert(t.schema.key_columns@.take(kn as int) =~= t.schema.key_columns@);
        }
        res.append("), TIMESTAMP KEY(");
        res.append(t.schema.timestamp_name.as_str());
        res.append(")");
        proof {
            assert(res@ =~= spec_columns_and_constraints(t.schema));
        }
        res
    }

    /// Renders the ` WITH(...)` options clause; for an empty option map the
    /// result is the empty string.
    pub fn render_options(opts: &Options) -> (r: String)
        requires
            opts.wf(),
        ensures
            r@ == spec_render_options(*opts),
    {
        if opts.len() == 0 {
            return String::new();
        }
        let keys = opts.keys_vec();
        let sorted = sort_strings(keys);
        let ghost skeys = view_seq(sorted@);
        proof {
            lemma_lex_total_ordering();
            opts.key_views().lemma_sort_by_ensures(lex_leq_f());
            opts.lemma_key_views_exact();
            assert(skeys == opts.key_views().sort_by(lex_leq_f()));
            assert forall|w: int| 0 <= w < skeys.len() implies opts@.dom().contains(
                #[trigger] skeys[w],
            ) by {
                broadcast use vstd::seq_lib::group_to_multiset_ensures;

                let x = skeys[w];
                assert(skeys.contains(x));
                assert(skeys.to_multiset().count(x) > 0);
                assert(opts.key_views().to_multiset().count(x) > 0);
                assert(opts.key_views().contains(x));
                let v = choose|v: int|
                    0 <= v < opts.key_views().len() && opts.key_views()[v] == x;
            }
        }
        let mut r = " WITH(".to_owned();
        let n = sorted.len();
        let mut i: usize = 0;
        proof {
            assert(skeys.take(0) =~= Seq::<Seq<char>>::empty());
        }
        while i < n
            invariant
                opts.wf(),
                i <= n,
                n == sorted@.len(),
                skeys == view_seq(sorted@),
                forall|w: int| 0 <= w < skeys.len() ==> opts@.dom().contains(#[trigger] skeys[w]),
                r@ == " WITH("@ + spec_options_list(skeys.take(i as int), opts@),
            decreases n - i,
        {
            if i > 0 {
                r.append(", ");
            }
            r.append(sorted[i].as_str());
            r.append("='");
            proof {
                assert(skeys[i as int] == sorted@[i as int]@);
                assert(opts@.dom().contains(skeys[i as int]));
            }
            let v = opts.value_of(&sorted[i]);
            r.append(v.as_str());
            r.append("'");
            proof {
                let tk = skeys.take(i as int + 1);
                assert(tk.drop_last() =~= skeys.take(i as int));
                assert(tk.last() == skeys[i as int]);
                assert(skeys[i as int] == sorted@[i as int]@);
                if i == 0 {
                    assert(tk.len() == 1);
                    assert(tk[0] == skeys[0]);
                }
                assert(r@ =~= " WITH("@ + spec_options_list(tk, opts@));
            }
            i += 1;
        }
        proof {
            assert(skeys.take(n as int) =~= skeys);
        }
        r.append(")");
        r
    }

    /// Runs the interpreter once, consuming it.
    pub fn execute(self: Box<Self>) -> (r: Result<Output, Error>)
        requires
            self.plan.table.options.wf(),
        ensures
            self.plan.obj_type == ShowCreateObject::Table ==> (r matches Ok(o) && o matches
                Output::Records(b) && spec_show_create_records(*self.plan.table, b@)),
            self.plan.obj_type != ShowCreateObject::Table ==> (r matches Err(e) && e matches
                Error::UnsupportedType { obj_type } && obj_type == self.plan.obj_type),
    {
        self.execute_show_create()
    }
}

/// Rendering options is deterministic and independent of entry order:
/// well-formed option maps with the same key/value bindings render to the
/// same text.
pub proof fn lemma_render_options_order_independent(o1: Options, o2: Options)
    requires
        o1.wf(),
        o2.wf(),
        o1@ == o2@,
    ensures
        spec_render_options(o1) == spec_render_options(o2),
{
    lemma_lex_total_ordering();
    Options::lemma_same_map_same_key_multiset(&o1, &o2);
    o1.key_views().lemma_sort_by_ensures(lex_leq_f());
    o2.key_views().lemma_sort_by_ensures(lex_leq_f());
    let s1 = o1.key_views().sort_by(lex_leq_f());
    let s2 = o2.key_views().sort_by(lex_leq_f());
    assert(s1.to_multiset() == s2.to_multiset());
    lemma_sorted_unique(s1, s2, lex_leq_f());
}

/// A table with no options set renders without any `WITH` clause.
pub proof fn lemma_render_options_empty(o: Options)
    requires
        o@.len() == 0,
    ensures
        spec_render_options(o) == Seq::<char>::empty(),
{
}

} // verus!
