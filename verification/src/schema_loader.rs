//! Assembles a schema graph out of catalog rows.
//!
//! The caller runs the catalog queries and hands the rows over as plain
//! values; everything from there happens here, in the order a load runs:
//! [`load_tables_and_columns`] and [`load_views_and_columns`] merge column
//! rows into nodes, [`apply_column_sources`] adds whatever lineage rows
//! arrived, the name index is built, [`populate_view_references`] and the
//! trigger and routine loaders resolve definition text into reference
//! lists, and [`load_foreign_keys`] and [`load_triggers`] drop whatever
//! does not land on a loaded table.  [`load_schema_from_connection`] runs
//! the whole pipeline and guarantees the graph is closed over its own ids.

use vstd::prelude::*;
use crate::connection::ConnectionError;
use crate::queries::spec_format_data_type;
use crate::schema::dotted;
use crate::schema::{Column, RelationshipEdge, TableNode, ViewNode};
use crate::text::{fold_lower, int_str_val, is_int_str, is_uint_str, parse_i16_chars,
    parse_uint_chars, str_eq, str_eq_ci, str_to_chars, uint_str_val};

verus! {

/// A failure of a schema load.
#[derive(Debug, Clone)]
pub enum SchemaError {
    /// The session could not be established.
    Connection(ConnectionError),
    /// The driver reported a failure while a query ran.
    Driver(String),
    /// A column value could not be read in its expected type.
    Parse(String),
}

/// The text of a [`SchemaError`], as shown to the user.
pub open spec fn schema_error_text(e: SchemaError) -> Seq<char> {
    match e {
        SchemaError::Connection(c) => crate::connection::connection_error_text(c),
        SchemaError::Driver(msg) => "Driver error: "@ + msg@,
        SchemaError::Parse(msg) => "Failed to parse column data: "@ + msg@,
    }
}

impl SchemaError {
    /// The human-readable message for this failure.
    pub fn message(&self) -> (r: String)
        ensures
            r@ == schema_error_text(*self),
    {
        match self {
            SchemaError::Connection(c) => c.message(),
            SchemaError::Driver(msg) => {
                let mut s = String::from_str("Driver error: ");
                s.append(msg.as_str());
                proof {
                    assert(s@ =~= schema_error_text(*self));
                }
                s
            },
            SchemaError::Parse(msg) => {
                let mut s = String::from_str("Failed to parse column data: ");
                s.append(msg.as_str());
                proof {
                    assert(s@ =~= schema_error_text(*self));
                }
                s
            },
        }
    }
}

/// The parse-failure message for a value that would not read as a 16-bit
/// number.
pub open spec fn i16_parse_error_text(s: Seq<char>) -> Seq<char> {
    "Failed to parse i16 from '"@ + s + "'"@
}

/// Reads a textual cell as a signed 16-bit number, as the row streamer
/// does for length columns: an error names the offending text.
pub fn parse_i16_text(s: &str) -> (r: Result<i16, SchemaError>)
    ensures
        r matches Ok(v) <==> is_int_str(s@, 32768, 32767),
        r matches Ok(v) ==> v as int == int_str_val(s@),
        r matches Err(e) ==> (e matches SchemaError::Parse(m) && m@ == i16_parse_error_text(s@)),
{
    let chars = str_to_chars(s);
    match parse_i16_chars(chars.as_slice()) {
        Some(v) => Ok(v),
        None => {
            let mut m = String::from_str("Failed to parse i16 from '");
            m.append(s);
            m.append("'");
            proof {
                assert(m@ =~= i16_parse_error_text(s@));
            }
            Err(SchemaError::Parse(m))
        },
    }
}

/// The parse-failure message for a value that would not read as a byte.
pub open spec fn u8_parse_error_text(s: Seq<char>) -> Seq<char> {
    "Failed to parse u8 from '"@ + s + "'"@
}

/// Reads a textual cell as an unsigned byte, as the row streamer does for
/// precision and scale columns.
pub fn parse_u8_text(s: &str) -> (r: Result<u8, SchemaError>)
    ensures
        r matches Ok(v) <==> is_uint_str(s@, 255),
        r matches Ok(v) ==> v as nat == uint_str_val(s@),
        r matches Err(e) ==> (e matches SchemaError::Parse(m) && m@ == u8_parse_error_text(s@)),
{
    let chars = str_to_chars(s);
    match parse_uint_chars(chars.as_slice(), 255) {
        Some(v) => Ok(v as u8),
        None => {
            let mut m = String::from_str("Failed to parse u8 from '");
            m.append(s);
            m.append("'");
            proof {
                assert(m@ =~= u8_parse_error_text(s@));
            }
            Err(SchemaError::Parse(m))
        },
    }
}

/// Whether a textual cell counts as true: `1`, or `true` in any case.
pub open spec fn spec_bool_text(s: Seq<char>) -> bool {
    s == "1"@ || fold_lower(s) == fold_lower("true"@)
}

/// Reads a textual cell as a flag, as the row streamer does: `1` and
/// `true` (in any case) are true, everything else is false.
pub fn parse_bool_text(s: &str) -> (r: bool)
    ensures
        r == spec_bool_text(s@),
{
    str_eq(s, "1") || str_eq_ci(s, "true")
}

/// One row of the tables-and-columns query.
#[derive(Debug, Clone)]
pub struct TableColumnRow {
    pub schema_name: String,
    pub table_name: String,
    pub column_name: String,
    pub data_type: String,
    pub max_length: i16,
    pub precision: u8,
    pub scale: u8,
    pub is_nullable: bool,
    pub is_primary_key: bool,
}

/// The object id a table row belongs to.
pub open spec fn table_row_id(r: TableColumnRow) -> Seq<char> {
    dotted(r.schema_name@, r.table_name@)
}

/// The distinct table ids of a row list, in order of first occurrence.
pub open spec fn table_first_ids(rows: Seq<TableColumnRow>) -> Seq<Seq<char>>
    decreases rows.len(),
{
    if rows.len() == 0 {
        Seq::empty()
    } else {
        let pre = table_first_ids(rows.drop_last());
        if pre.contains(table_row_id(rows.last())) {
            pre
        } else {
            pre.push(table_row_id(rows.last()))
        }
    }
}

/// The rows that belong to one table id, in row order.
pub open spec fn table_rows_for(rows: Seq<TableColumnRow>, id: Seq<char>) -> Seq<TableColumnRow>
    decreases rows.len(),
{
    if rows.len() == 0 {
        Seq::empty()
    } else {
        let pre = table_rows_for(rows.drop_last(), id);
        if table_row_id(rows.last()) == id {
            pre.push(rows.last())
        } else {
            pre
        }
    }
}

/// Whether `c` is the column a table row describes.
pub open spec fn column_of_table_row(r: TableColumnRow, c: Column) -> bool {
    &&& c.name@ == r.column_name@
    &&& c.data_type@ == spec_format_data_type(
        r.data_type@,
        r.max_length as int,
        r.precision as int,
        r.scale as int,
    )
    &&& c.is_nullable == r.is_nullable
    &&& c.is_primary_key == r.is_primary_key
    &&& c.source_table is None
    &&& c.source_column is None
}

/// Whether a table node is the one the row list describes for its id:
/// named after the first row, with one column per row in row order.
pub open spec fn table_node_models(rows: Seq<TableColumnRow>, t: TableNode) -> bool {
    let rs = table_rows_for(rows, t.id@);
    &&& rs.len() > 0
    &&& t.name@ == rs[0].table_name@
    &&& t.schema@ == rs[0].schema_name@
    &&& t.columns@.len() == rs.len()
    &&& forall|j: int| 0 <= j < rs.len() ==> column_of_table_row(rs[j], #[trigger] t.columns@[j])
}

/// A first-occurrence id list never repeats itself.
proof fn lemma_table_first_ids_distinct(rows: Seq<TableColumnRow>)
    ensures
        table_first_ids(rows).no_duplicates(),
    decreases rows.len(),
{
    if rows.len() > 0 {
        lemma_table_first_ids_distinct(rows.drop_last());
    }
}

/// Builds one column out of a table row.
fn table_row_column(row: &TableColumnRow) -> (c: Column)
    ensures
        column_of_table_row(*row, c),
{
    Column {
        name: row.column_name.clone(),
        data_type: crate::queries::format_data_type(
            row.data_type.as_str(),
            row.max_length,
            row.precision,
            row.scale,
        ),
        is_nullable: row.is_nullable,
        is_primary_key: row.is_primary_key,
        source_table: None,
        source_column: None,
    }
}

/// Finds the position of an id among the assembled tables.
fn find_table_by_id(ts: &Vec<TableNode>, id: &String) -> (r: Option<usize>)
    ensures
        match r {
            Option::Some(k) => k < ts@.len() && ts@[k as int].id@ == id@,
            Option::None => forall|k: int| 0 <= k < ts@.len() ==> (#[trigger] ts@[k].id@) != id@,
        },
{
    let n = ts.len();
    let mut i: usize = 0;
    while i < n
        invariant
            i <= n,
            n == ts@.len(),
            forall|k: int| 0 <= k < i ==> (#[trigger] ts@[k].id@) != id@,
        decreases n - i,
    {
        if ts[i].id.eq(id) {
            return Some(i);
        }
        i = i + 1;
    }
    None
}

/// Merges the rows of the tables-and-columns query into table nodes: one
/// node per distinct id in order of first appearance, each carrying its
/// rows' columns in row order, named after its first row.
pub fn load_tables_and_columns(rows: &Vec<TableColumnRow>) -> (ts: Vec<TableNode>)
    ensures
        crate::schema::table_ids(ts@) == table_first_ids(rows@),
        crate::schema::table_ids(ts@).no_duplicates(),
        forall|k: int| 0 <= k < ts@.len() ==> table_node_models(rows@, #[trigger] ts@[k]),
{
    let n = rows.len();
    let mut ts: Vec<TableNode> = Vec::new();
    let mut i: usize = 0;
    proof {
        assert(crate::schema::table_ids(ts@) =~= table_first_ids(rows@.subrange(0, 0)));
    }
    while i < n
        invariant
            i <= n,
            n == rows@.len(),
            crate::schema::table_ids(ts@) == table_first_ids(rows@.subrange(0, i as int)),
            forall|k: int|
                0 <= k < ts@.len() ==> table_node_models(
                    rows@.subrange(0, i as int),
                    #[trigger] ts@[k],
                ),
        decreases n - i,
    {
        let ghost pre_rows = rows@.subrange(0, i as int);
        let ghost cur_rows = rows@.subrange(0, i + 1);
        proof {
            assert(cur_rows.drop_last() =~= pre_rows);
            assert(cur_rows.last() == rows@[i as int]);
            lemma_table_first_ids_distinct(pre_rows);
        }
        let row = &rows[i];
        let id = crate::schema::make_object_id(row.schema_name.as_str(), row.table_name.as_str());
        let col = table_row_column(row);
        let ghost rid = table_row_id(rows@[i as int]);
        proof {
            assert(id@ == rid);
        }
        let ghost pre_ts = ts@;
        match find_table_by_id(&ts, &id) {
            Some(k) => {
                proof {
                    assert(crate::schema::table_ids(ts@)[k as int] == rid);
                    assert(table_first_ids(pre_rows).contains(rid));
                    assert(table_first_ids(cur_rows) == table_first_ids(pre_rows));
                }
                let mut node = ts.remove(k);
                node.columns.push(col);
                ts.insert(k, node);
                proof {
                    assert(ts@ =~= pre_ts.update(k as int, ts@[k as int]));
                    assert(ts@[k as int].id@ == rid);
                    assert(ts@[k as int].columns@ =~= pre_ts[k as int].columns@.push(col));
                    assert(crate::schema::table_ids(ts@) =~= table_first_ids(cur_rows));
                    assert forall|k2: int| 0 <= k2 < ts@.len() implies table_node_models(
                        cur_rows,
                        #[trigger] ts@[k2],
                    ) by {
                        let t = ts@[k2];
                        if k2 == k {
                            assert(table_rows_for(cur_rows, t.id@) =~= table_rows_for(
                                pre_rows,
                                t.id@,
                            ).push(rows@[i as int]));
                            assert(table_node_models(pre_rows, pre_ts[k2]));
                        } else {
                            assert(t == pre_ts[k2]);
                            assert(crate::schema::table_ids(pre_ts)[k2] == t.id@);
                            assert(t.id@ != rid);
                            assert(table_rows_for(cur_rows, t.id@) =~= table_rows_for(
                                pre_rows,
                                t.id@,
                            ));
                        }
                    }
                }
            },
            None => {
                proof {
                    if table_first_ids(pre_rows).contains(rid) {
                        let j = choose|j: int|
                            0 <= j < table_first_ids(pre_rows).len() && table_first_ids(pre_rows)[j]
                                == rid;
                        assert(crate::schema::table_ids(ts@)[j] == rid);
                        assert(false);
                    }
                }
                let mut columns: Vec<Column> = Vec::new();
                columns.push(col);
                let node = TableNode {
                    id,
                    name: row.table_name.clone(),
                    schema: row.schema_name.clone(),
                    columns,
                };
                ts.push(node);
                proof {
                    assert(crate::schema::table_ids(ts@) =~= table_first_ids(cur_rows));
                    assert forall|k2: int| 0 <= k2 < ts@.len() implies table_node_models(
                        cur_rows,
                        #[trigger] ts@[k2],
                    ) by {
                        let t = ts@[k2];
                        if k2 == ts@.len() - 1 {
                            assert(table_rows_for(pre_rows, rid) =~= Seq::<
                                TableColumnRow,
                            >::empty()) by {
                                lemma_rows_for_absent_table(pre_rows, rid);
                            }
                            assert(table_rows_for(cur_rows, t.id@) =~= table_rows_for(
                                pre_rows,
                                t.id@,
                            ).push(rows@[i as int]));
                        } else {
                            assert(t.id@ != rid);
                            assert(table_rows_for(cur_rows, t.id@) =~= table_rows_for(
                                pre_rows,
                                t.id@,
                            ));
                        }
                    }
                }
            },
        }
        i = i + 1;
    }
    proof {
        assert(rows@.subrange(0, n as int) =~= rows@);
        lemma_table_first_ids_distinct(rows@);
    }
    ts
}

/// One row of the views-and-columns query.
#[derive(Debug, Clone)]
pub struct ViewColumnRow {
    pub schema_name: String,
    pub view_name: String,
    pub column_name: String,
    pub data_type: String,
    pub max_length: i16,
    pub precision: u8,
    pub scale: u8,
    pub is_nullable: bool,
    pub definition: String,
}

/// The object id a view row belongs to.
pub open spec fn view_row_id(r: ViewColumnRow) -> Seq<char> {
    dotted(r.schema_name@, r.view_name@)
}

/// The distinct view ids of a row list, in order of first occurrence.
pub open spec fn view_first_ids(rows: Seq<ViewColumnRow>) -> Seq<Seq<char>>
    decreases rows.len(),
{
    if rows.len() == 0 {
        Seq::empty()
    } else {
        let pre = view_first_ids(rows.drop_last());
        if pre.contains(view_row_id(rows.last())) {
            pre
        } else {
            pre.push(view_row_id(rows.last()))
        }
    }
}

/// The rows that belong to one view id, in row order.
pub open spec fn view_rows_for(rows: Seq<ViewColumnRow>, id: Seq<char>) -> Seq<ViewColumnRow>
    decreases rows.len(),
{
    if rows.len() == 0 {
        Seq::empty()
    } else {
        let pre = view_rows_for(rows.drop_last(), id);
        if view_row_id(rows.last()) == id {
            pre.push(rows.last())
        } else {
            pre
        }
    }
}

/// Whether `c` is the column a view row describes.  View columns are
/// never primary keys, and carry no lineage until enrichment runs.
pub open spec fn column_of_view_row(r: ViewColumnRow, c: Column) -> bool {
    &&& c.name@ == r.column_name@
    &&& c.data_type@ == spec_format_data_type(
        r.data_type@,
        r.max_length as int,
        r.precision as int,
        r.scale as int,
    )
    &&& c.is_nullable == r.is_nullable
    &&& !c.is_primary_key
    &&& c.source_table is None
    &&& c.source_column is None
}

/// Whether a view node is the one the row list describes for its id.
pub open spec fn view_node_models(rows: Seq<ViewColumnRow>, v: ViewNode) -> bool {
    let rs = view_rows_for(rows, v.id@);
    &&& rs.len() > 0
    &&& v.name@ == rs[0].view_name@
    &&& v.schema@ == rs[0].schema_name@
    &&& v.definition@ == rs[0].definition@
    &&& v.referenced_tables@.len() == 0
    &&& v.columns@.len() == rs.len()
    &&& forall|j: int| 0 <= j < rs.len() ==> column_of_view_row(rs[j], #[trigger] v.columns@[j])
}

proof fn lemma_view_first_ids_distinct(rows: Seq<ViewColumnRow>)
    ensures
        view_first_ids(rows).no_duplicates(),
    decreases rows.len(),
{
    if rows.len() > 0 {
        lemma_view_first_ids_distinct(rows.drop_last());
    }
}

/// An id that never appeared among the first view ids has no rows.
proof fn lemma_rows_for_absent_view(rows: Seq<ViewColumnRow>, id: Seq<char>)
    requires
        !view_first_ids(rows).contains(id),
    ensures
        view_rows_for(rows, id) == Seq::<ViewColumnRow>::empty(),
    decreases rows.len(),
{
    if rows.len() > 0 {
        let pre = view_first_ids(rows.drop_last());
        let lastid = view_row_id(rows.last());
        if lastid == id {
            if pre.contains(id) {
                assert(view_first_ids(rows) == pre);
            } else {
                assert(view_first_ids(rows)[pre.len() as int] == id);
            }
            assert(view_first_ids(rows).contains(id));
        }
        if pre.contains(id) {
            let j = choose|j: int| 0 <= j < pre.len() && pre[j] == id;
            assert(view_first_ids(rows)[j] == id);
            assert(view_first_ids(rows).contains(id));
        }
        lemma_rows_for_absent_view(rows.drop_last(), id);
        assert(view_rows_for(rows, id) =~= Seq::<ViewColumnRow>::empty());
    }
}

/// Builds one column out of a view row.
fn view_row_column(row: &ViewColumnRow) -> (c: Column)
    ensures
        column_of_view_row(*row, c),
{
    Column {
        name: row.column_name.clone(),
        data_type: crate::queries::format_data_type(
            row.data_type.as_str(),
            row.max_length,
            row.precision,
            row.scale,
        ),
        is_nullable: row.is_nullable,
        is_primary_key: false,
        source_table: None,
        source_column: None,
    }
}

/// Finds the position of an id among the assembled views.
fn find_view_by_id(vs: &Vec<ViewNode>, id: &String) -> (r: Option<usize>)
    ensures
        match r {
            Option::Some(k) => k < vs@.len() && vs@[k as int].id@ == id@,
            Option::None => forall|k: int| 0 <= k < vs@.len() ==> (#[trigger] vs@[k].id@) != id@,
        },
{
    let n = vs.len();
    let mut i: usize = 0;
    while i < n
        invariant
            i <= n,
            n == vs@.len(),
            forall|k: int| 0 <= k < i ==> (#[trigger] vs@[k].id@) != id@,
        decreases n - i,
    {
        if vs[i].id.eq(id) {
            return Some(i);
        }
        i = i + 1;
    }
    None
}

/// Merges the rows of the views-and-columns query into view nodes, as
/// [`load_tables_and_columns`] does for tables; the definition comes from
/// the first row of each view, and the reference list stays empty until
/// the assembler fills it.
pub fn load_views_and_columns(rows: &Vec<ViewColumnRow>) -> (vs: Vec<ViewNode>)
    ensures
        crate::schema::view_ids(vs@) == view_first_ids(rows@),
        crate::schema::view_ids(vs@).no_duplicates(),
        forall|k: int| 0 <= k < vs@.len() ==> view_node_models(rows@, #[trigger] vs@[k]),
{
    let n = rows.len();
    let mut vs: Vec<ViewNode> = Vec::new();
    let mut i: usize = 0;
    proof {
        assert(crate::schema::view_ids(vs@) =~= view_first_ids(rows@.subrange(0, 0)));
    }
    while i < n
        invariant
            i <= n,
            n == rows@.len(),
            crate::schema::view_ids(vs@) == view_first_ids(rows@.subrange(0, i as int)),
            forall|k: int|
                0 <= k < vs@.len() ==> view_node_models(
                    rows@.subrange(0, i as int),
                    #[trigger] vs@[k],
                ),
        decreases n - i,
    {
        let ghost pre_rows = rows@.subrange(0, i as int);
        let ghost cur_rows = rows@.subrange(0, i + 1);
        proof {
            assert(cur_rows.drop_last() =~= pre_rows);
            assert(cur_rows.last() == rows@[i as int]);
            lemma_view_first_ids_distinct(pre_rows);
        }
        let row = &rows[i];
        let id = crate::schema::make_object_id(row.schema_name.as_str(), row.view_name.as_str());
        let col = view_row_column(row);
        let ghost rid = view_row_id(rows@[i as int]);
        proof {
            assert(id@ == rid);
        }
        let ghost pre_vs = vs@;
        match find_view_by_id(&vs, &id) {
            Some(k) => {
                proof {
                    assert(crate::schema::view_ids(vs@)[k as int] == rid);
                    assert(view_first_ids(pre_rows).contains(rid));
                    assert(view_first_ids(cur_rows) == view_first_ids(pre_rows));
                }
                let mut node = vs.remove(k);
                node.columns.push(col);
                vs.insert(k, node);
                proof {
                    assert(vs@ =~= pre_vs.update(k as int, vs@[k as int]));
                    assert(vs@[k as int].id@ == rid);
                    assert(vs@[k as int].columns@ =~= pre_vs[k as int].columns@.push(col));
                    assert(crate::schema::view_ids(vs@) =~= view_first_ids(cur_rows));
                    assert forall|k2: int| 0 <= k2 < vs@.len() implies view_node_models(
                        cur_rows,
                        #[trigger] vs@[k2],
                    ) by {
                        let v = vs@[k2];
                        if k2 == k {
                            assert(view_rows_for(cur_rows, v.id@) =~= view_rows_for(
                                pre_rows,
                                v.id@,
                            ).push(rows@[i as int]));
                            assert(view_node_models(pre_rows, pre_vs[k2]));
                        } else {
                            assert(v == pre_vs[k2]);
                            assert(crate::schema::view_ids(pre_vs)[k2] == v.id@);
                            assert(v.id@ != rid);
                            assert(view_rows_for(cur_rows, v.id@) =~= view_rows_for(
                                pre_rows,
                                v.id@,
                            ));
                        }
                    }
                }
            },
            None => {
                proof {
                    if view_first_ids(pre_rows).contains(rid) {
                        let j = choose|j: int|
                            0 <= j < view_first_ids(pre_rows).len() && view_first_ids(pre_rows)[j]
                                == rid;
                        assert(crate::schema::view_ids(vs@)[j] == rid);
                        assert(false);
                    }
                }
                let mut columns: Vec<Column> = Vec::new();
                columns.push(col);
                let node = ViewNode {
                    id,
                    name: row.view_name.clone(),
                    schema: row.schema_name.clone(),
                    columns,
                    definition: row.definition.clone(),
                    referenced_tables: Vec::new(),
                };
                vs.push(node);
                proof {
                    assert(crate::schema::view_ids(vs@) =~= view_first_ids(cur_rows));
                    assert forall|k2: int| 0 <= k2 < vs@.len() implies view_node_models(
                        cur_rows,
                        #[trigger] vs@[k2],
                    ) by {
                        let v = vs@[k2];
                        if k2 == vs@.len() - 1 {
                            assert(view_rows_for(pre_rows, rid) =~= Seq::<
                                ViewColumnRow,
                            >::empty()) by {
                                lemma_rows_for_absent_view(pre_rows, rid);
                            }
                            assert(view_rows_for(cur_rows, v.id@) =~= view_rows_for(
                                pre_rows,
                                v.id@,
                            ).push(rows@[i as int]));
                        } else {
                            assert(v.id@ != rid);
                            assert(view_rows_for(cur_rows, v.id@) =~= view_rows_for(
                                pre_rows,
                                v.id@,
                            ));
                        }
                    }
                }
            },
        }
        i = i + 1;
    }
    proof {
        assert(rows@.subrange(0, n as int) =~= rows@);
        lemma_view_first_ids_distinct(rows@);
    }
    vs
}

/// One row of the foreign-keys query.
#[derive(Debug, Clone)]
pub struct ForeignKeyRow {
    pub fk_name: String,
    pub src_schema: String,
    pub src_table: String,
    pub src_column: String,
    pub ref_schema: String,
    pub ref_table: String,
    pub ref_column: String,
}

/// The id of the table a foreign-key row starts from.
pub open spec fn fk_from_id(r: ForeignKeyRow) -> Seq<char> {
    dotted(r.src_schema@, r.src_table@)
}

/// The id of the table a foreign-key row points to.
pub open spec fn fk_to_id(r: ForeignKeyRow) -> Seq<char> {
    dotted(r.ref_schema@, r.ref_table@)
}

/// The rows whose both endpoints are loaded table ids, in row order.
pub open spec fn kept_fk_rows(rows: Seq<ForeignKeyRow>, tids: Set<Seq<char>>) -> Seq<ForeignKeyRow>
    decreases rows.len(),
{
    if rows.len() == 0 {
        Seq::empty()
    } else {
        let pre = kept_fk_rows(rows.drop_last(), tids);
        if tids.contains(fk_from_id(rows.last())) && tids.contains(fk_to_id(rows.last())) {
            pre.push(rows.last())
        } else {
            pre
        }
    }
}

/// Whether an edge carries exactly what a foreign-key row says.
pub open spec fn edge_models_row(r: ForeignKeyRow, e: RelationshipEdge) -> bool {
    &&& e.id@ == r.fk_name@
    &&& e.from@ == fk_from_id(r)
    &&& e.to@ == fk_to_id(r)
    &&& e.from_column@ == r.src_column@
    &&& e.to_column@ == r.ref_column@
}

/// Whether an id is among the loaded tables.
fn table_id_present(tables: &Vec<TableNode>, id: &String) -> (r: bool)
    ensures
        r == crate::schema::table_ids(tables@).to_set().contains(id@),
{
    match find_table_by_id(tables, id) {
        Some(k) => {
            proof {
                assert(crate::schema::table_ids(tables@)[k as int] == id@);
                assert(crate::schema::table_ids(tables@).contains(id@));
            }
            true
        },
        None => {
            proof {
                if crate::schema::table_ids(tables@).contains(id@) {
                    let j = choose|j: int|
                        0 <= j < crate::schema::table_ids(tables@).len() && crate::schema::table_ids(
                            tables@,
                        )[j] == id@;
                    assert(tables@[j].id@ == id@);
                }
            }
            false
        },
    }
}

/// Turns the rows of the foreign-keys query into relationship edges,
/// silently dropping every row whose source or referenced table is not
/// among the loaded tables, so that every emitted edge connects two
/// loaded tables.
pub fn load_foreign_keys(rows: &Vec<ForeignKeyRow>, tables: &Vec<TableNode>) -> (es: Vec<
    RelationshipEdge,
>)
    ensures
        ({
            let tids = crate::schema::table_ids(tables@).to_set();
            let kept = kept_fk_rows(rows@, tids);
            &&& es@.len() == kept.len()
            &&& forall|k: int| 0 <= k < kept.len() ==> edge_models_row(kept[k], #[trigger] es@[k])
            &&& forall|k: int|
                0 <= k < es@.len() ==> tids.contains((#[trigger] es@[k]).from@) && tids.contains(
                    es@[k].to@,
                )
        }),
{
    let ghost tids = crate::schema::table_ids(tables@).to_set();
    let n = rows.len();
    let mut es: Vec<RelationshipEdge> = Vec::new();
    let mut i: usize = 0;
    proof {
        assert(kept_fk_rows(rows@.subrange(0, 0), tids) =~= Seq::<ForeignKeyRow>::empty());
    }
    while i < n
        invariant
            i <= n,
            n == rows@.len(),
            tids == crate::schema::table_ids(tables@).to_set(),
            es@.len() == kept_fk_rows(rows@.subrange(0, i as int), tids).len(),
            forall|k: int|
                0 <= k < es@.len() ==> edge_models_row(
                    kept_fk_rows(rows@.subrange(0, i as int), tids)[k],
                    #[trigger] es@[k],
                ),
            forall|k: int|
                0 <= k < es@.len() ==> tids.contains((#[trigger] es@[k]).from@) && tids.contains(
                    es@[k].to@,
                ),
        decreases n - i,
    {
        let ghost pre_rows = rows@.subrange(0, i as int);
        let ghost cur_rows = rows@.subrange(0, i + 1);
        proof {
            assert(cur_rows.drop_last() =~= pre_rows);
            assert(cur_rows.last() == rows@[i as int]);
        }
        let row = &rows[i];
        let from_id = crate::schema::make_object_id(row.src_schema.as_str(), row.src_table.as_str());
        let to_id = crate::schema::make_object_id(row.ref_schema.as_str(), row.ref_table.as_str());
        if table_id_present(tables, &from_id) && table_id_present(tables, &to_id) {
            es.push(
                RelationshipEdge {
                    id: row.fk_name.clone(),
                    from: from_id,
                    to: to_id,
                    from_column: row.src_column.clone(),
                    to_column: row.ref_column.clone(),
                },
            );
            proof {
                assert(kept_fk_rows(cur_rows, tids) =~= kept_fk_rows(pre_rows, tids).push(
                    rows@[i as int],
                ));
            }
        } else {
            proof {
                assert(kept_fk_rows(cur_rows, tids) =~= kept_fk_rows(pre_rows, tids));
            }
        }
        i = i + 1;
    }
    proof {
        assert(rows@.subrange(0, n as int) =~= rows@);
    }
    es
}

/// One row of the triggers query.
#[derive(Debug, Clone)]
pub struct TriggerRow {
    pub schema_name: String,
    pub table_name: String,
    pub trigger_name: String,
    pub trigger_type: String,
    pub is_disabled: bool,
    pub fires_on_insert: bool,
    pub fires_on_update: bool,
    pub fires_on_delete: bool,
    pub definition: String,
}

/// The id of the table a trigger row sits on.
pub open spec fn trigger_row_table_id(r: TriggerRow) -> Seq<char> {
    dotted(r.schema_name@, r.table_name@)
}

/// The id of the trigger itself: schema, table and trigger name.
pub open spec fn trigger_row_id(r: TriggerRow) -> Seq<char> {
    dotted(dotted(r.schema_name@, r.table_name@), r.trigger_name@)
}

/// The trigger rows whose table is among the loaded table ids.
pub open spec fn kept_trigger_rows(rows: Seq<TriggerRow>, tids: Set<Seq<char>>) -> Seq<TriggerRow>
    decreases rows.len(),
{
    if rows.len() == 0 {
        Seq::empty()
    } else {
        let pre = kept_trigger_rows(rows.drop_last(), tids);
        if tids.contains(trigger_row_table_id(rows.last())) {
            pre.push(rows.last())
        } else {
            pre
        }
    }
}

/// Whether a trigger carries exactly what its row says, its reference
/// lists resolved through the name index.
pub open spec fn trigger_models_row(
    r: TriggerRow,
    t: crate::schema::Trigger,
    m: Map<Seq<char>, Seq<char>>,
) -> bool {
    &&& t.id@ == trigger_row_id(r)
    &&& t.name@ == r.trigger_name@
    &&& t.schema@ == r.schema_name@
    &&& t.table_id@ == trigger_row_table_id(r)
    &&& t.trigger_type@ == r.trigger_type@
    &&& t.is_disabled == r.is_disabled
    &&& t.fires_on_insert == r.fires_on_insert
    &&& t.fires_on_update == r.fires_on_update
    &&& t.fires_on_delete == r.fires_on_delete
    &&& t.definition@ == r.definition@
    &&& crate::refs::string_views(t.referenced_tables@).no_duplicates()
    &&& crate::refs::string_view_set(t.referenced_tables@) == crate::refs::read_refs(
        r.definition@,
        m,
    )
    &&& crate::refs::string_views(t.affected_tables@).no_duplicates()
    &&& crate::refs::string_view_set(t.affected_tables@) == crate::refs::write_refs(
        r.definition@,
        m,
    )
}

/// Turns the rows of the triggers query into triggers, dropping every row
/// whose table is not loaded, and resolving each definition into the
/// tables it reads and writes.
pub fn load_triggers(
    rows: &Vec<TriggerRow>,
    tables: &Vec<TableNode>,
    index: &crate::refs::NameIndex,
) -> (ts: Vec<crate::schema::Trigger>)
    ensures
        ({
            let tids = crate::schema::table_ids(tables@).to_set();
            let kept = kept_trigger_rows(rows@, tids);
            &&& ts@.len() == kept.len()
            &&& forall|k: int|
                0 <= k < kept.len() ==> trigger_models_row(kept[k], #[trigger] ts@[k], index@)
            &&& forall|k: int| 0 <= k < ts@.len() ==> tids.contains((#[trigger] ts@[k]).table_id@)
        }),
{
    let ghost tids = crate::schema::table_ids(tables@).to_set();
    let n = rows.len();
    let mut ts: Vec<crate::schema::Trigger> = Vec::new();
    let mut i: usize = 0;
    proof {
        assert(kept_trigger_rows(rows@.subrange(0, 0), tids) =~= Seq::<TriggerRow>::empty());
    }
    while i < n
        invariant
            i <= n,
            n == rows@.len(),
            tids == crate::schema::table_ids(tables@).to_set(),
            ts@.len() == kept_trigger_rows(rows@.subrange(0, i as int), tids).len(),
            forall|k: int|
                0 <= k < ts@.len() ==> trigger_models_row(
                    kept_trigger_rows(rows@.subrange(0, i as int), tids)[k],
                    #[trigger] ts@[k],
                    index@,
                ),
            forall|k: int| 0 <= k < ts@.len() ==> tids.contains((#[trigger] ts@[k]).table_id@),
        decreases n - i,
    {
        let ghost pre_rows = rows@.subrange(0, i as int);
        let ghost cur_rows = rows@.subrange(0, i + 1);
        proof {
            assert(cur_rows.drop_last() =~= pre_rows);
            assert(cur_rows.last() == rows@[i as int]);
        }
        let row = &rows[i];
        let table_id = crate::schema::make_object_id(
            row.schema_name.as_str(),
            row.table_name.as_str(),
        );
        if table_id_present(tables, &table_id) {
            let trigger_id = crate::schema::make_object_id(
                table_id.as_str(),
                row.trigger_name.as_str(),
            );
            let (reads, writes) = crate::refs::extract_table_references(
                row.definition.as_str(),
                index,
            );
            ts.push(
                crate::schema::Trigger {
                    id: trigger_id,
                    name: row.trigger_name.clone(),
                    schema: row.schema_name.clone(),
                    table_id,
                    trigger_type: row.trigger_type.clone(),
                    is_disabled: row.is_disabled,
                    fires_on_insert: row.fires_on_insert,
                    fires_on_update: row.fires_on_update,
                    fires_on_delete: row.fires_on_delete,
                    definition: row.definition.clone(),
                    referenced_tables: reads,
                    affected_tables: writes,
                },
            );
            proof {
                assert(kept_trigger_rows(cur_rows, tids) =~= kept_trigger_rows(
                    pre_rows,
                    tids,
                ).push(rows@[i as int]));
            }
        } else {
            proof {
                assert(kept_trigger_rows(cur_rows, tids) =~= kept_trigger_rows(pre_rows, tids));
            }
        }
        i = i + 1;
    }
    proof {
        assert(rows@.subrange(0, n as int) =~= rows@);
    }
    ts
}

/// One row of the stored-procedures or scalar-functions query.  A row
/// carries its routine's identity and definition and at most one
/// parameter; routines without parameters yield one row with an empty
/// parameter name.  Only scalar functions carry a return type.
#[derive(Debug, Clone)]
pub struct RoutineRow {
    pub schema_name: String,
    pub routine_name: String,
    pub routine_type: String,
    pub parameter_name: String,
    pub parameter_type: String,
    pub is_output: bool,
    pub definition: String,
    pub return_type: String,
}

/// The object id a routine row belongs to.
pub open spec fn routine_row_id(r: RoutineRow) -> Seq<char> {
    dotted(r.schema_name@, r.routine_name@)
}

/// The distinct routine ids of a row list, in order of first occurrence.
pub open spec fn routine_first_ids(rows: Seq<RoutineRow>) -> Seq<Seq<char>>
    decreases rows.len(),
{
    if rows.len() == 0 {
        Seq::empty()
    } else {
        let pre = routine_first_ids(rows.drop_last());
        if pre.contains(routine_row_id(rows.last())) {
            pre
        } else {
            pre.push(routine_row_id(rows.last()))
        }
    }
}

/// The rows that belong to one routine id, in row order.
pub open spec fn routine_rows_for(rows: Seq<RoutineRow>, id: Seq<char>) -> Seq<RoutineRow>
    decreases rows.len(),
{
    if rows.len() == 0 {
        Seq::empty()
    } else {
        let pre = routine_rows_for(rows.drop_last(), id);
        if routine_row_id(rows.last()) == id {
            pre.push(rows.last())
        } else {
            pre
        }
    }
}

/// The parameters a routine's rows carry, in row order: one per row whose
/// parameter name is not empty.
pub open spec fn routine_param_rows(rs: Seq<RoutineRow>) -> Seq<RoutineRow>
    decreases rs.len(),
{
    if rs.len() == 0 {
        Seq::empty()
    } else {
        let pre = routine_param_rows(rs.drop_last());
        if rs.last().parameter_name@.len() > 0 {
            pre.push(rs.last())
        } else {
            pre
        }
    }
}

/// Whether a parameter carries what its row says.
pub open spec fn param_models_row(r: RoutineRow, p: crate::schema::ProcedureParameter) -> bool {
    &&& p.name@ == r.parameter_name@
    &&& p.data_type@ == r.parameter_type@
    &&& p.is_output == r.is_output
}

/// Whether a stored procedure carries what its rows say: identity and
/// definition from the first row, parameters from every row that names
/// one, reference lists resolved through the name index.
pub open spec fn procedure_models_rows(
    rows: Seq<RoutineRow>,
    p: crate::schema::StoredProcedure,
    m: Map<Seq<char>, Seq<char>>,
) -> bool {
    let rs = routine_rows_for(rows, p.id@);
    let ps = routine_param_rows(rs);
    &&& rs.len() > 0
    &&& p.name@ == rs[0].routine_name@
    &&& p.schema@ == rs[0].schema_name@
    &&& p.procedure_type@ == rs[0].routine_type@
    &&& p.definition@ == rs[0].definition@
    &&& p.parameters@.len() == ps.len()
    &&& forall|j: int| 0 <= j < ps.len() ==> param_models_row(ps[j], #[trigger] p.parameters@[j])
    &&& crate::refs::string_views(p.referenced_tables@).no_duplicates()
    &&& crate::refs::string_view_set(p.referenced_tables@) == crate::refs::read_refs(
        rs[0].definition@,
        m,
    )
    &&& crate::refs::string_views(p.affected_tables@).no_duplicates()
    &&& crate::refs::string_view_set(p.affected_tables@) == crate::refs::write_refs(
        rs[0].definition@,
        m,
    )
}

/// Whether a scalar function carries what its rows say; beyond a
/// procedure, the return type also comes from the first row.
pub open spec fn function_models_rows(
    rows: Seq<RoutineRow>,
    f: crate::schema::ScalarFunction,
    m: Map<Seq<char>, Seq<char>>,
) -> bool {
    let rs = routine_rows_for(rows, f.id@);
    let ps = routine_param_rows(rs);
    &&& rs.len() > 0
    &&& f.name@ == rs[0].routine_name@
    &&& f.schema@ == rs[0].schema_name@
    &&& f.function_type@ == rs[0].routine_type@
    &&& f.definition@ == rs[0].definition@
    &&& f.return_type@ == rs[0].return_type@
    &&& f.parameters@.len() == ps.len()
    &&& forall|j: int| 0 <= j < ps.len() ==> param_models_row(ps[j], #[trigger] f.parameters@[j])
    &&& crate::refs::string_views(f.referenced_tables@).no_duplicates()
    &&& crate::refs::string_view_set(f.referenced_tables@) == crate::refs::read_refs(
        rs[0].definition@,
        m,
    )
    &&& crate::refs::string_views(f.affected_tables@).no_duplicates()
    &&& crate::refs::string_view_set(f.affected_tables@) == crate::refs::write_refs(
        rs[0].definition@,
        m,
    )
}

proof fn lemma_routine_first_ids_distinct(rows: Seq<RoutineRow>)
    ensures
        routine_first_ids(rows).no_duplicates(),
    decreases rows.len(),
{
    if rows.len() > 0 {
        lemma_routine_first_ids_distinct(rows.drop_last());
    }
}

/// An id that never appeared among the first routine ids has no rows.
proof fn lemma_rows_for_absent_routine(rows: Seq<RoutineRow>, id: Seq<char>)
    requires
        !routine_first_ids(rows).contains(id),
    ensures
        routine_rows_for(rows, id) == Seq::<RoutineRow>::empty(),
    decreases rows.len(),
{
    if rows.len() > 0 {
        let pre = routine_first_ids(rows.drop_last());
        let lastid = routine_row_id(rows.last());
        if lastid == id {
            if pre.contains(id) {
                assert(routine_first_ids(rows) == pre);
            } else {
                assert(routine_first_ids(rows)[pre.len() as int] == id);
            }
            assert(routine_first_ids(rows).contains(id));
        }
        if pre.contains(id) {
            let j = choose|j: int| 0 <= j < pre.len() && pre[j] == id;
            assert(routine_first_ids(rows)[j] == id);
            assert(routine_first_ids(rows).contains(id));
        }
        lemma_rows_for_absent_routine(rows.drop_last(), id);
        assert(routine_rows_for(rows, id) =~= Seq::<RoutineRow>::empty());
    }
}

/// Finds the position of an id among the assembled procedures.
fn find_procedure_by_id(ps: &Vec<crate::schema::StoredProcedure>, id: &String) -> (r: Option<usize>)
    ensures
        match r {
            Option::Some(k) => k < ps@.len() && ps@[k as int].id@ == id@,
            Option::None => forall|k: int| 0 <= k < ps@.len() ==> (#[trigger] ps@[k].id@) != id@,
        },
{
    let n = ps.len();
    let mut i: usize = 0;
    while i < n
        invariant
            i <= n,
            n == ps@.len(),
            forall|k: int| 0 <= k < i ==> (#[trigger] ps@[k].id@) != id@,
        decreases n - i,
    {
        if ps[i].id.eq(id) {
            return Some(i);
        }
        i = i + 1;
    }
    None
}

/// Merges the rows of the stored-procedures query into procedures: one
/// per distinct id in order of first appearance, identity and references
/// from its first row, parameters accumulated from every row that names
/// one.
pub fn load_stored_procedures(
    rows: &Vec<RoutineRow>,
    index: &crate::refs::NameIndex,
) -> (ps: Vec<crate::schema::StoredProcedure>)
    ensures
        ps@.map_values(|p: crate::schema::StoredProcedure| p.id@) == routine_first_ids(rows@),
        ps@.map_values(|p: crate::schema::StoredProcedure| p.id@).no_duplicates(),
        forall|k: int| 0 <= k < ps@.len() ==> procedure_models_rows(rows@, #[trigger] ps@[k], index@),
{
    let n = rows.len();
    let mut ps: Vec<crate::schema::StoredProcedure> = Vec::new();
    let mut i: usize = 0;
    proof {
        assert(ps@.map_values(|p: crate::schema::StoredProcedure| p.id@) =~= routine_first_ids(
            rows@.subrange(0, 0),
        ));
    }
    while i < n
        invariant
            i <= n,
            n == rows@.len(),
            ps@.map_values(|p: crate::schema::StoredProcedure| p.id@) == routine_first_ids(
                rows@.subrange(0, i as int),
            ),
            forall|k: int|
                0 <= k < ps@.len() ==> procedure_models_rows(
                    rows@.subrange(0, i as int),
                    #[trigger] ps@[k],
                    index@,
                ),
        decreases n - i,
    {
        let ghost pre_rows = rows@.subrange(0, i as int);
        let ghost cur_rows = rows@.subrange(0, i + 1);
        proof {
            assert(cur_rows.drop_last() =~= pre_rows);
            assert(cur_rows.last() == rows@[i as int]);
            lemma_routine_first_ids_distinct(pre_rows);
        }
        let row = &rows[i];
        let id = crate::schema::make_object_id(row.schema_name.as_str(), row.routine_name.as_str());
        let ghost rid = routine_row_id(rows@[i as int]);
        proof {
            assert(id@ == rid);
        }
        let ghost pre_ps = ps@;
        match find_procedure_by_id(&ps, &id) {
            Some(k) => {
                proof {
                    assert(pre_ps.map_values(|p: crate::schema::StoredProcedure| p.id@)[k as int]
                        == rid);
                    assert(routine_first_ids(pre_rows).contains(rid));
                    assert(routine_first_ids(cur_rows) == routine_first_ids(pre_rows));
                }
                let has_param = !row.parameter_name.as_str().is_empty();
                if has_param {
                    let mut node = ps.remove(k);
                    node.parameters.push(
                        crate::schema::ProcedureParameter {
                            name: row.parameter_name.clone(),
                            data_type: row.parameter_type.clone(),
                            is_output: row.is_output,
                        },
                    );
                    ps.insert(k, node);
                    proof {
                        assert(ps@ =~= pre_ps.update(k as int, ps@[k as int]));
                        assert(ps@[k as int].id@ == rid);
                        assert(ps@[k as int].parameters@ =~= pre_ps[k as int].parameters@.push(
                            ps@[k as int].parameters@.last(),
                        ));
                        assert(param_models_row(rows@[i as int], ps@[k as int].parameters@.last()));
                    }
                }
                proof {
                    assert(ps@.map_values(|p: crate::schema::StoredProcedure| p.id@)
                        =~= routine_first_ids(cur_rows));
                    assert forall|k2: int| 0 <= k2 < ps@.len() implies procedure_models_rows(
                        cur_rows,
                        #[trigger] ps@[k2],
                        index@,
                    ) by {
                        let p = ps@[k2];
                        if k2 == k {
                            assert(procedure_models_rows(pre_rows, pre_ps[k2], index@));
                            assert(pre_ps[k2].id@ == rid);
                            assert(p.id@ == rid);
                            let rs_pre = routine_rows_for(pre_rows, rid);
                            let rs_cur = routine_rows_for(cur_rows, rid);
                            assert(rs_cur =~= rs_pre.push(rows@[i as int]));
                            assert(rs_cur.drop_last() =~= rs_pre);
                            assert(rs_cur[0] == rs_pre[0]);
                            if rows@[i as int].parameter_name@.len() > 0 {
                                assert(has_param);
                                assert(routine_param_rows(rs_cur) =~= routine_param_rows(
                                    rs_pre,
                                ).push(rows@[i as int]));
                            } else {
                                assert(!has_param);
                                assert(p == pre_ps[k2]);
                                assert(routine_param_rows(rs_cur) =~= routine_param_rows(rs_pre));
                            }
                        } else {
                            assert(p == pre_ps[k2]);
                            assert(pre_ps.map_values(|p: crate::schema::StoredProcedure| p.id@)[k2]
                                == p.id@);
                            assert(p.id@ != rid);
                            assert(routine_rows_for(cur_rows, p.id@) =~= routine_rows_for(
                                pre_rows,
                                p.id@,
                            ));
                        }
                    }
                }
            },
            None => {
                proof {
                    if routine_first_ids(pre_rows).contains(rid) {
                        let j = choose|j: int|
                            0 <= j < routine_first_ids(pre_rows).len() && routine_first_ids(
                                pre_rows,
                            )[j] == rid;
                        assert(pre_ps.map_values(|p: crate::schema::StoredProcedure| p.id@)[j]
                            == rid);
                        assert(pre_ps[j].id@ == rid);
                        assert(false);
                    }
                }
                let (reads, writes) = crate::refs::extract_table_references(
                    row.definition.as_str(),
                    index,
                );
                let mut parameters: Vec<crate::schema::ProcedureParameter> = Vec::new();
                if !row.parameter_name.as_str().is_empty() {
                    parameters.push(
                        crate::schema::ProcedureParameter {
                            name: row.parameter_name.clone(),
                            data_type: row.parameter_type.clone(),
                            is_output: row.is_output,
                        },
                    );
                }
                let node = crate::schema::StoredProcedure {
                    id,
                    name: row.routine_name.clone(),
                    schema: row.schema_name.clone(),
                    procedure_type: row.routine_type.clone(),
                    parameters,
                    definition: row.definition.clone(),
                    referenced_tables: reads,
                    affected_tables: writes,
                };
                ps.push(node);
                proof {
                    assert(ps@.map_values(|p: crate::schema::StoredProcedure| p.id@)
                        =~= routine_first_ids(cur_rows));
                    assert forall|k2: int| 0 <= k2 < ps@.len() implies procedure_models_rows(
                        cur_rows,
                        #[trigger] ps@[k2],
                        index@,
                    ) by {
                        let p = ps@[k2];
                        if k2 == ps@.len() - 1 {
                            assert(routine_rows_for(pre_rows, rid) =~= Seq::<
                                RoutineRow,
                            >::empty()) by {
                                lemma_rows_for_absent_routine(pre_rows, rid);
                            }
                            let rs_cur = routine_rows_for(cur_rows, rid);
                            assert(rs_cur =~= Seq::<RoutineRow>::empty().push(rows@[i as int]));
                            assert(rs_cur.len() == 1 && rs_cur[0] == rows@[i as int]);
                            assert(rs_cur.last() == rows@[i as int]);
                            assert(rs_cur.drop_last() =~= Seq::<RoutineRow>::empty());
                            assert(routine_param_rows(rs_cur.drop_last()) =~= Seq::<
                                RoutineRow,
                            >::empty());
                            if rows@[i as int].parameter_name@.len() > 0 {
                                assert(routine_param_rows(rs_cur) =~= Seq::<
                                    RoutineRow,
                                >::empty().push(rows@[i as int]));
                            } else {
                                assert(routine_param_rows(rs_cur) =~= Seq::<RoutineRow>::empty());
                            }
                        } else {
                            assert(p.id@ != rid);
                            assert(routine_rows_for(cur_rows, p.id@) =~= routine_rows_for(
                                pre_rows,
                                p.id@,
                            ));
                        }
                    }
                }
            },
        }
        i = i + 1;
    }
    proof {
        assert(rows@.subrange(0, n as int) =~= rows@);
        lemma_routine_first_ids_distinct(rows@);
    }
    ps
}

/// Finds the position of an id among the assembled functions.
fn find_function_by_id(fs: &Vec<crate::schema::ScalarFunction>, id: &String) -> (r: Option<usize>)
    ensures
        match r {
            Option::Some(k) => k < fs@.len() && fs@[k as int].id@ == id@,
            Option::None => forall|k: int| 0 <= k < fs@.len() ==> (#[trigger] fs@[k].id@) != id@,
        },
{
    let n = fs.len();
    let mut i: usize = 0;
    while i < n
        invariant
            i <= n,
            n == fs@.len(),
            forall|k: int| 0 <= k < i ==> (#[trigger] fs@[k].id@) != id@,
        decreases n - i,
    {
        if fs[i].id.eq(id) {
            return Some(i);
        }
        i = i + 1;
    }
    None
}

/// Merges the rows of the scalar-functions query into functions, as
/// [`load_stored_procedures`] does for procedures; the return type also
/// comes from each function's first row.
pub fn load_scalar_functions(
    rows: &Vec<RoutineRow>,
    index: &crate::refs::NameIndex,
) -> (fs: Vec<crate::schema::ScalarFunction>)
    ensures
        fs@.map_values(|f: crate::schema::ScalarFunction| f.id@) == routine_first_ids(rows@),
        fs@.map_values(|f: crate::schema::ScalarFunction| f.id@).no_duplicates(),
        forall|k: int| 0 <= k < fs@.len() ==> function_models_rows(rows@, #[trigger] fs@[k], index@),
{
    let n = rows.len();
    let mut fs: Vec<crate::schema::ScalarFunction> = Vec::new();
    let mut i: usize = 0;
    proof {
        assert(fs@.map_values(|f: crate::schema::ScalarFunction| f.id@) =~= routine_first_ids(
            rows@.subrange(0, 0),
        ));
    }
    while i < n
        invariant
            i <= n,
            n == rows@.len(),
            fs@.map_values(|f: crate::schema::ScalarFunction| f.id@) == routine_first_ids(
                rows@.subrange(0, i as int),
            ),
            forall|k: int|
                0 <= k < fs@.len() ==> function_models_rows(
                    rows@.subrange(0, i as int),
                    #[trigger] fs@[k],
                    index@,
                ),
        decreases n - i,
    {
        let ghost pre_rows = rows@.subrange(0, i as int);
        let ghost cur_rows = rows@.subrange(0, i + 1);
        proof {
            assert(cur_rows.drop_last() =~= pre_rows);
            assert(cur_rows.last() == rows@[i as int]);
            lemma_routine_first_ids_distinct(pre_rows);
        }
        let row = &rows[i];
        let id = crate::schema::make_object_id(row.schema_name.as_str(), row.routine_name.as_str());
        let ghost rid = routine_row_id(rows@[i as int]);
        proof {
            assert(id@ == rid);
        }
        let ghost pre_fs = fs@;
        match find_function_by_id(&fs, &id) {
            Some(k) => {
                proof {
                    assert(pre_fs.map_values(|f: crate::schema::ScalarFunction| f.id@)[k as int]
                        == rid);
                    assert(routine_first_ids(pre_rows).contains(rid));
                    assert(routine_first_ids(cur_rows) == routine_first_ids(pre_rows));
                }
                let has_param = !row.parameter_name.as_str().is_empty();
                if has_param {
                    let mut node = fs.remove(k);
                    node.parameters.push(
                        crate::schema::ProcedureParameter {
                            name: row.parameter_name.clone(),
                            data_type: row.parameter_type.clone(),
                            is_output: row.is_output,
                        },
                    );
                    fs.insert(k, node);
                    proof {
                        assert(fs@ =~= pre_fs.update(k as int, fs@[k as int]));
                        assert(fs@[k as int].id@ == rid);
                        assert(fs@[k as int].parameters@ =~= pre_fs[k as int].parameters@.push(
                            fs@[k as int].parameters@.last(),
                        ));
                        assert(param_models_row(rows@[i as int], fs@[k as int].parameters@.last()));
                    }
                }
                proof {
                    assert(fs@.map_values(|f: crate::schema::ScalarFunction| f.id@)
                        =~= routine_first_ids(cur_rows));
                    assert forall|k2: int| 0 <= k2 < fs@.len() implies function_models_rows(
                        cur_rows,
                        #[trigger] fs@[k2],
                        index@,
                    ) by {
                        let f = fs@[k2];
                        if k2 == k {
                            assert(function_models_rows(pre_rows, pre_fs[k2], index@));
                            assert(pre_fs[k2].id@ == rid);
                            assert(f.id@ == rid);
                            let rs_pre = routine_rows_for(pre_rows, rid);
                            let rs_cur = routine_rows_for(cur_rows, rid);
                            assert(rs_cur =~= rs_pre.push(rows@[i as int]));
                            assert(rs_cur.drop_last() =~= rs_pre);
                            assert(rs_cur[0] == rs_pre[0]);
                            if rows@[i as int].parameter_name@.len() > 0 {
                                assert(has_param);
                                assert(routine_param_rows(rs_cur) =~= routine_param_rows(
                                    rs_pre,
                                ).push(rows@[i as int]));
                            } else {
                                assert(!has_param);
                                assert(f == pre_fs[k2]);
                                assert(routine_param_rows(rs_cur) =~= routine_param_rows(rs_pre));
                            }
                        } else {
                            assert(f == pre_fs[k2]);
                            assert(pre_fs.map_values(|f: crate::schema::ScalarFunction| f.id@)[k2]
                                == f.id@);
                            assert(f.id@ != rid);
                            assert(routine_rows_for(cur_rows, f.id@) =~= routine_rows_for(
                                pre_rows,
                                f.id@,
                            ));
                        }
                    }
                }
            },
            None => {
                proof {
                    if routine_first_ids(pre_rows).contains(rid) {
                        let j = choose|j: int|
                            0 <= j < routine_first_ids(pre_rows).len() && routine_first_ids(
                                pre_rows,
                            )[j] == rid;
                        assert(pre_fs.map_values(|f: crate::schema::ScalarFunction| f.id@)[j]
                            == rid);
                        assert(pre_fs[j].id@ == rid);
                        assert(false);
                    }
                }
                let (reads, writes) = crate::refs::extract_table_references(
                    row.definition.as_str(),
                    index,
                );
                let mut parameters: Vec<crate::schema::ProcedureParameter> = Vec::new();
                if !row.parameter_name.as_str().is_empty() {
                    parameters.push(
                        crate::schema::ProcedureParameter {
                            name: row.parameter_name.clone(),
                            data_type: row.parameter_type.clone(),
                            is_output: row.is_output,
                        },
                    );
                }
                let node = crate::schema::ScalarFunction {
                    id,
                    name: row.routine_name.clone(),
                    schema: row.schema_name.clone(),
                    function_type: row.routine_type.clone(),
                    parameters,
                    definition: row.definition.clone(),
                    referenced_tables: reads,
                    affected_tables: writes,
                    return_type: row.return_type.clone(),
                };
                fs.push(node);
                proof {
                    assert(fs@.map_values(|f: crate::schema::ScalarFunction| f.id@)
                        =~= routine_first_ids(cur_rows));
                    assert forall|k2: int| 0 <= k2 < fs@.len() implies function_models_rows(
                        cur_rows,
                        #[trigger] fs@[k2],
                        index@,
                    ) by {
                        let f = fs@[k2];
                        if k2 == fs@.len() - 1 {
                            assert(routine_rows_for(pre_rows, rid) =~= Seq::<
                                RoutineRow,
                            >::empty()) by {
                                lemma_rows_for_absent_routine(pre_rows, rid);
                            }
                            let rs_cur = routine_rows_for(cur_rows, rid);
                            assert(rs_cur =~= Seq::<RoutineRow>::empty().push(rows@[i as int]));
                            assert(rs_cur.len() == 1 && rs_cur[0] == rows@[i as int]);
                            assert(rs_cur.last() == rows@[i as int]);
                            assert(rs_cur.drop_last() =~= Seq::<RoutineRow>::empty());
                            assert(routine_param_rows(rs_cur.drop_last()) =~= Seq::<
                                RoutineRow,
                            >::empty());
                            if rows@[i as int].parameter_name@.len() > 0 {
                                assert(routine_param_rows(rs_cur) =~= Seq::<
                                    RoutineRow,
                                >::empty().push(rows@[i as int]));
                            } else {
                                assert(routine_param_rows(rs_cur) =~= Seq::<RoutineRow>::empty());
                            }
                        } else {
                            assert(f.id@ != rid);
                            assert(routine_rows_for(cur_rows, f.id@) =~= routine_rows_for(
                                pre_rows,
                                f.id@,
                            ));
                        }
                    }
                }
            },
        }
        i = i + 1;
    }
    proof {
        assert(rows@.subrange(0, n as int) =~= rows@);
        lemma_routine_first_ids_distinct(rows@);
    }
    fs
}

/// One row of the view-column-sources query: one resolved lineage fact
/// for one column of one view.
#[derive(Debug, Clone)]
pub struct ViewColumnSourceRow {
    pub schema_name: String,
    pub view_name: String,
    pub column_name: String,
    pub source_table: String,
    pub source_column: String,
}

/// The id of the view a lineage row belongs to.
pub open spec fn source_row_view_id(r: ViewColumnSourceRow) -> Seq<char> {
    dotted(r.schema_name@, r.view_name@)
}

/// The lineage that a row list leaves on one column of one view: the last
/// matching row wins, or nothing is recorded.
pub open spec fn applied_source(
    rows: Seq<ViewColumnSourceRow>,
    vid: Seq<char>,
    cname: Seq<char>,
) -> Option<(Seq<char>, Seq<char>)>
    decreases rows.len(),
{
    if rows.len() == 0 {
        None
    } else if source_row_view_id(rows.last()) == vid && rows.last().column_name@ == cname {
        Some((rows.last().source_table@, rows.last().source_column@))
    } else {
        applied_source(rows.drop_last(), vid, cname)
    }
}

proof fn lemma_applied_source_found(
    rows: Seq<ViewColumnSourceRow>,
    j: int,
    vid: Seq<char>,
    cname: Seq<char>,
)
    requires
        0 <= j < rows.len(),
        source_row_view_id(rows[j]) == vid,
        rows[j].column_name@ == cname,
        forall|l: int|
            j < l < rows.len() ==> !(source_row_view_id(#[trigger] rows[l]) == vid
                && rows[l].column_name@ == cname),
    ensures
        applied_source(rows, vid, cname) == Some(
            (rows[j].source_table@, rows[j].source_column@),
        ),
    decreases rows.len(),
{
    if j < rows.len() - 1 {
        lemma_applied_source_found(rows.drop_last(), j, vid, cname);
    }
}

proof fn lemma_applied_source_absent(rows: Seq<ViewColumnSourceRow>, vid: Seq<char>, cname: Seq<char>)
    requires
        forall|l: int|
            0 <= l < rows.len() ==> !(source_row_view_id(#[trigger] rows[l]) == vid
                && rows[l].column_name@ == cname),
    ensures
        applied_source(rows, vid, cname) is None,
    decreases rows.len(),
{
    if rows.len() > 0 {
        lemma_applied_source_absent(rows.drop_last(), vid, cname);
    }
}

/// Finds the lineage the row list leaves on one column of one view.
fn lookup_source(rows: &Vec<ViewColumnSourceRow>, vid: &String, cname: &String) -> (r: Option<
    (String, String),
>)
    ensures
        match applied_source(rows@, vid@, cname@) {
            Option::Some(sc) => {
                &&& r matches Some(p)
                &&& p.0@ == sc.0
                &&& p.1@ == sc.1
            },
            Option::None => r is None,
        },
{
    let n = rows.len();
    let mut i: usize = n;
    while i > 0
        invariant
            i <= n,
            n == rows@.len(),
            forall|l: int|
                i <= l < n ==> !(source_row_view_id(#[trigger] rows@[l]) == vid@
                    && rows@[l].column_name@ == cname@),
        decreases i,
    {
        let row = &rows[i - 1];
        let row_vid = crate::schema::make_object_id(
            row.schema_name.as_str(),
            row.view_name.as_str(),
        );
        if row_vid.eq(vid) && row.column_name.eq(cname) {
            proof {
                lemma_applied_source_found(rows@, i - 1, vid@, cname@);
            }
            return Some((row.source_table.clone(), row.source_column.clone()));
        }
        i = i - 1;
    }
    proof {
        lemma_applied_source_absent(rows@, vid@, cname@);
    }
    None
}

/// Whether `c_new` is `c_old` with the lineage the row list leaves on it:
/// the source fields of the last matching row, or the old fields when no
/// row matches.
pub open spec fn column_enriched(
    rows: Seq<ViewColumnSourceRow>,
    vid: Seq<char>,
    c_old: Column,
    c_new: Column,
) -> bool {
    &&& c_new.name == c_old.name
    &&& c_new.data_type == c_old.data_type
    &&& c_new.is_nullable == c_old.is_nullable
    &&& c_new.is_primary_key == c_old.is_primary_key
    &&& match applied_source(rows, vid, c_old.name@) {
        Some(sc) => {
            &&& c_new.source_table matches Some(st) && st@ == sc.0
            &&& c_new.source_column matches Some(scol) && scol@ == sc.1
        },
        None => c_new.source_table == c_old.source_table && c_new.source_column
            == c_old.source_column,
    }
}

/// Whether `v_new` is `v_old` with every column enriched.
pub open spec fn view_enriched(
    rows: Seq<ViewColumnSourceRow>,
    v_old: ViewNode,
    v_new: ViewNode,
) -> bool {
    &&& v_new.id == v_old.id
    &&& v_new.name == v_old.name
    &&& v_new.schema == v_old.schema
    &&& v_new.definition == v_old.definition
    &&& v_new.referenced_tables@ == v_old.referenced_tables@
    &&& v_new.columns@.len() == v_old.columns@.len()
    &&& forall|j: int|
        0 <= j < v_old.columns@.len() ==> column_enriched(
            rows,
            v_old.id@,
            v_old.columns@[j],
            #[trigger] v_new.columns@[j],
        )
}

/// Copies a string list.
fn clone_strings(v: &Vec<String>) -> (r: Vec<String>)
    ensures
        r@ == v@,
{
    let n = v.len();
    let mut r: Vec<String> = Vec::new();
    let mut i: usize = 0;
    while i < n
        invariant
            i <= n,
            n == v@.len(),
            r@ =~= v@.subrange(0, i as int),
        decreases n - i,
    {
        r.push(v[i].clone());
        i = i + 1;
        proof {
            assert(r@ =~= v@.subrange(0, i as int));
        }
    }
    proof {
        assert(r@ =~= v@);
    }
    r
}

/// Applies the view-column lineage rows to the loaded views: each column
/// that some row names receives the source table and column of the last
/// such row; every other column, and everything else about each view,
/// stays as it was.  The rows may be a partial harvest: whatever was read
/// before the lineage query failed is still applied.
pub fn apply_column_sources(views: &Vec<ViewNode>, rows: &Vec<ViewColumnSourceRow>) -> (r: Vec<
    ViewNode,
>)
    ensures
        r@.len() == views@.len(),
        forall|k: int| 0 <= k < views@.len() ==> view_enriched(rows@, views@[k], #[trigger] r@[k]),
{
    let nv = views.len();
    let mut r: Vec<ViewNode> = Vec::new();
    let mut k: usize = 0;
    while k < nv
        invariant
            k <= nv,
            nv == views@.len(),
            r@.len() == k,
            forall|k2: int| 0 <= k2 < k ==> view_enriched(rows@, views@[k2], #[trigger] r@[k2]),
        decreases nv - k,
    {
        let v = &views[k];
        let nc = v.columns.len();
        let mut columns: Vec<Column> = Vec::new();
        let mut j: usize = 0;
        while j < nc
            invariant
                j <= nc,
                nc == v.columns@.len(),
                columns@.len() == j,
                forall|j2: int|
                    0 <= j2 < j ==> column_enriched(
                        rows@,
                        v.id@,
                        v.columns@[j2],
                        #[trigger] columns@[j2],
                    ),
            decreases nc - j,
        {
            let c = &v.columns[j];
            let (source_table, source_column) = match lookup_source(rows, &v.id, &c.name) {
                Some((st, sc)) => (Some(st), Some(sc)),
                None => (
                    match &c.source_table {
                        Some(st) => Some(st.clone()),
                        None => None,
                    },
                    match &c.source_column {
                        Some(sc) => Some(sc.clone()),
                        None => None,
                    },
                ),
            };
            columns.push(
                Column {
                    name: c.name.clone(),
                    data_type: c.data_type.clone(),
                    is_nullable: c.is_nullable,
                    is_primary_key: c.is_primary_key,
                    source_table,
                    source_column,
                },
            );
            j = j + 1;
        }
        r.push(
            ViewNode {
                id: v.id.clone(),
                name: v.name.clone(),
                schema: v.schema.clone(),
                columns,
                definition: v.definition.clone(),
                referenced_tables: clone_strings(&v.referenced_tables),
            },
        );
        k = k + 1;
    }
    r
}

/// Copies a column.
fn clone_column(c: &Column) -> (r: Column)
    ensures
        r == *c,
{
    let r = Column {
        name: c.name.clone(),
        data_type: c.data_type.clone(),
        is_nullable: c.is_nullable,
        is_primary_key: c.is_primary_key,
        source_table: match &c.source_table {
            Some(st) => Some(st.clone()),
            None => None,
        },
        source_column: match &c.source_column {
            Some(sc) => Some(sc.clone()),
            None => None,
        },
    };
    r
}

/// Whether `v_new` is `v_old` with its reference list set to the tables
/// its definition reads, resolved through the name index.
pub open spec fn view_referenced(
    m: Map<Seq<char>, Seq<char>>,
    v_old: ViewNode,
    v_new: ViewNode,
) -> bool {
    &&& v_new.id == v_old.id
    &&& v_new.name == v_old.name
    &&& v_new.schema == v_old.schema
    &&& v_new.definition == v_old.definition
    &&& v_new.columns@ == v_old.columns@
    &&& crate::refs::string_views(v_new.referenced_tables@).no_duplicates()
    &&& crate::refs::string_view_set(v_new.referenced_tables@) == crate::refs::read_refs(
        v_old.definition@,
        m,
    )
}

/// Fills each view's reference list with the tables its definition reads.
/// Views read and never write, so only the read patterns apply.
pub fn populate_view_references(
    views: &Vec<ViewNode>,
    index: &crate::refs::NameIndex,
) -> (r: Vec<ViewNode>)
    ensures
        r@.len() == views@.len(),
        forall|k: int| 0 <= k < views@.len() ==> view_referenced(index@, views@[k], #[trigger] r@[k]),
{
    let nv = views.len();
    let mut r: Vec<ViewNode> = Vec::new();
    let mut k: usize = 0;
    while k < nv
        invariant
            k <= nv,
            nv == views@.len(),
            r@.len() == k,
            forall|k2: int| 0 <= k2 < k ==> view_referenced(index@, views@[k2], #[trigger] r@[k2]),
        decreases nv - k,
    {
        let v = &views[k];
        let (reads, _writes) = crate::refs::extract_table_references(v.definition.as_str(), index);
        let nc = v.columns.len();
        let mut columns: Vec<Column> = Vec::new();
        let mut j: usize = 0;
        while j < nc
            invariant
                j <= nc,
                nc == v.columns@.len(),
                columns@ =~= v.columns@.subrange(0, j as int),
            decreases nc - j,
        {
            columns.push(clone_column(&v.columns[j]));
            j = j + 1;
            proof {
                assert(columns@ =~= v.columns@.subrange(0, j as int));
            }
        }
        proof {
            assert(columns@ =~= v.columns@);
        }
        r.push(
            ViewNode {
                id: v.id.clone(),
                name: v.name.clone(),
                schema: v.schema.clone(),
                columns,
                definition: v.definition.clone(),
                referenced_tables: reads,
            },
        );
        k = k + 1;
    }
    r
}

/// Whether a view of the finished graph is what the view rows, the
/// lineage rows and the name index make of its id: grouped columns with
/// the lineage of the last matching row, and the reference list of its
/// definition's read patterns.
pub open spec fn view_final_models(
    vrows: Seq<ViewColumnRow>,
    srows: Seq<ViewColumnSourceRow>,
    m: Map<Seq<char>, Seq<char>>,
    v: ViewNode,
) -> bool {
    let rs = view_rows_for(vrows, v.id@);
    &&& rs.len() > 0
    &&& v.name@ == rs[0].view_name@
    &&& v.schema@ == rs[0].schema_name@
    &&& v.definition@ == rs[0].definition@
    &&& v.columns@.len() == rs.len()
    &&& forall|j: int|
        0 <= j < rs.len() ==> final_column_models(rs[j], srows, v.id@, #[trigger] v.columns@[j])
    &&& crate::refs::string_views(v.referenced_tables@).no_duplicates()
    &&& crate::refs::string_view_set(v.referenced_tables@) == crate::refs::read_refs(
        rs[0].definition@,
        m,
    )
}

/// Whether a finished view column carries what its row says, plus the
/// lineage the source rows leave on it.
pub open spec fn final_column_models(
    r: ViewColumnRow,
    srows: Seq<ViewColumnSourceRow>,
    vid: Seq<char>,
    c: Column,
) -> bool {
    &&& c.name@ == r.column_name@
    &&& c.data_type@ == spec_format_data_type(
        r.data_type@,
        r.max_length as int,
        r.precision as int,
        r.scale as int,
    )
    &&& c.is_nullable == r.is_nullable
    &&& !c.is_primary_key
    &&& match applied_source(srows, vid, r.column_name@) {
        Some(sc) => {
            &&& c.source_table matches Some(st) && st@ == sc.0
            &&& c.source_column matches Some(scol) && scol@ == sc.1
        },
        None => c.source_table is None && c.source_column is None,
    }
}

/// The views-index layer only reads names and ids, so any two view lists
/// that agree on them produce the same index.
proof fn lemma_views_index_same_names(
    base: Map<Seq<char>, Seq<char>>,
    vs1: Seq<ViewNode>,
    vs2: Seq<ViewNode>,
)
    requires
        vs1.len() == vs2.len(),
        forall|l: int|
            0 <= l < vs1.len() ==> (#[trigger] vs1[l].name@) == vs2[l].name@ && vs1[l].id@
                == vs2[l].id@,
    ensures
        crate::refs::views_index(base, vs1) == crate::refs::views_index(base, vs2),
    decreases vs1.len(),
{
    if vs1.len() > 0 {
        assert(forall|l: int|
            0 <= l < vs1.len() - 1 ==> (#[trigger] vs1.drop_last()[l]) == vs1[l]);
        assert(forall|l: int|
            0 <= l < vs2.len() - 1 ==> (#[trigger] vs2.drop_last()[l]) == vs2[l]);
        lemma_views_index_same_names(base, vs1.drop_last(), vs2.drop_last());
        assert(vs1[vs1.len() - 1].name@ == vs2[vs2.len() - 1].name@);
        assert(vs1[vs1.len() - 1].id@ == vs2[vs2.len() - 1].id@);
    }
}

/// Everything a reference set resolves to is a value of the index.
proof fn lemma_refs_within_index(
    text: Seq<char>,
    m: Map<Seq<char>, Seq<char>>,
    ids: Set<Seq<char>>,
)
    requires
        crate::refs::index_values_within(m, ids),
    ensures
        forall|x: Seq<char>| crate::refs::read_refs(text, m).contains(x) ==> ids.contains(x),
        forall|x: Seq<char>| crate::refs::write_refs(text, m).contains(x) ==> ids.contains(x),
{
    assert forall|x: Seq<char>| crate::refs::read_refs(text, m).contains(x) implies ids.contains(
        x,
    ) by {
        lemma_kind_refs_within(text, m, ids, x);
    }
    assert forall|x: Seq<char>| crate::refs::write_refs(text, m).contains(x) implies ids.contains(
        x,
    ) by {
        lemma_kind_refs_within(text, m, ids, x);
    }
}

proof fn lemma_kind_refs_within(
    text: Seq<char>,
    m: Map<Seq<char>, Seq<char>>,
    ids: Set<Seq<char>>,
    x: Seq<char>,
)
    requires
        crate::refs::index_values_within(m, ids),
        crate::refs::read_refs(text, m).contains(x) || crate::refs::write_refs(text, m).contains(
            x,
        ),
    ensures
        ids.contains(x),
{
    if crate::refs::refs_of_kind(text, "from"@, None, m).contains(x) {
        lemma_one_kind_within(text, "from"@, None, m, ids, x);
    } else if crate::refs::refs_of_kind(text, "join"@, None, m).contains(x) {
        lemma_one_kind_within(text, "join"@, None, m, ids, x);
    } else if crate::refs::refs_of_kind(text, "insert"@, Some("into"@), m).contains(x) {
        lemma_one_kind_within(text, "insert"@, Some("into"@), m, ids, x);
    } else if crate::refs::refs_of_kind(text, "update"@, None, m).contains(x) {
        lemma_one_kind_within(text, "update"@, None, m, ids, x);
    } else {
        lemma_one_kind_within(text, "delete"@, Some("from"@), m, ids, x);
    }
}

proof fn lemma_one_kind_within(
    text: Seq<char>,
    kw1: Seq<char>,
    kw2: Option<Seq<char>>,
    m: Map<Seq<char>, Seq<char>>,
    ids: Set<Seq<char>>,
    x: Seq<char>,
)
    requires
        crate::refs::index_values_within(m, ids),
        crate::refs::refs_of_kind(text, kw1, kw2, m).contains(x),
    ensures
        ids.contains(x),
{
    let p = choose|p: int|
        0 <= p < text.len() + 1 && crate::refs::resolve_at(text, p, kw1, kw2, m) == Some(x);
    assert(crate::refs::resolve_at(text, p, kw1, kw2, m) == Some(x));
}

/// Assembles the schema graph out of the rows the catalog queries
/// returned over one connection.
///
/// Tables and views are mandatory: the caller only reaches this point
/// with their rows complete.  The lineage rows may be a partial harvest;
/// whatever arrived is applied.  The remaining categories are each
/// best-effort: a caller whose query failed passes `None` and that list
/// comes back empty, leaving the rest of the graph intact.
///
/// Every relationship edge of the result connects two loaded tables,
/// every trigger sits on a loaded table, and every reference list draws
/// only on loaded tables and views.
pub fn load_schema_from_connection(
    table_rows: &Vec<TableColumnRow>,
    view_rows: &Vec<ViewColumnRow>,
    lineage_rows: &Vec<ViewColumnSourceRow>,
    fk_rows: Option<&Vec<ForeignKeyRow>>,
    trigger_rows: Option<&Vec<TriggerRow>>,
    procedure_rows: Option<&Vec<RoutineRow>>,
    function_rows: Option<&Vec<RoutineRow>>,
) -> (g: crate::schema::SchemaGraph)
    ensures
        ({
            let m = crate::refs::name_index_of(g.tables@, g.views@);
            let tids = crate::schema::table_ids(g.tables@).to_set();
            &&& crate::schema::table_ids(g.tables@) == table_first_ids(table_rows@)
            &&& crate::schema::table_ids(g.tables@).no_duplicates()
            &&& forall|k: int|
                0 <= k < g.tables@.len() ==> table_node_models(table_rows@, #[trigger] g.tables@[k])
            &&& crate::schema::view_ids(g.views@) == view_first_ids(view_rows@)
            &&& crate::schema::view_ids(g.views@).no_duplicates()
            &&& forall|k: int|
                0 <= k < g.views@.len() ==> view_final_models(
                    view_rows@,
                    lineage_rows@,
                    m,
                    #[trigger] g.views@[k],
                )
            &&& match fk_rows {
                Some(rs) => {
                    let kept = kept_fk_rows(rs@, tids);
                    &&& g.relationships@.len() == kept.len()
                    &&& forall|k: int|
                        0 <= k < kept.len() ==> edge_models_row(
                            kept[k],
                            #[trigger] g.relationships@[k],
                        )
                },
                None => g.relationships@.len() == 0,
            }
            &&& match trigger_rows {
                Some(rs) => {
                    let kept = kept_trigger_rows(rs@, tids);
                    &&& g.triggers@.len() == kept.len()
                    &&& forall|k: int|
                        0 <= k < kept.len() ==> trigger_models_row(
                            kept[k],
                            #[trigger] g.triggers@[k],
                            m,
                        )
                },
                None => g.triggers@.len() == 0,
            }
            &&& match procedure_rows {
                Some(rs) => {
                    &&& g.stored_procedures@.map_values(
                        |p: crate::schema::StoredProcedure| p.id@,
                    ) == routine_first_ids(rs@)
                    &&& forall|k: int|
                        0 <= k < g.stored_procedures@.len() ==> procedure_models_rows(
                            rs@,
                            #[trigger] g.stored_procedures@[k],
                            m,
                        )
                },
                None => g.stored_procedures@.len() == 0,
            }
            &&& match function_rows {
                Some(rs) => {
                    &&& g.scalar_functions@.map_values(|f: crate::schema::ScalarFunction| f.id@)
                        == routine_first_ids(rs@)
                    &&& forall|k: int|
                        0 <= k < g.scalar_functions@.len() ==> function_models_rows(
                            rs@,
                            #[trigger] g.scalar_functions@[k],
                            m,
                        )
                },
                None => g.scalar_functions@.len() == 0,
            }
            &&& crate::schema::edges_closed(g)
            &&& crate::schema::triggers_closed(g)
            &&& crate::schema::references_closed(g)
        }),
{
    let tables = load_tables_and_columns(table_rows);
    let views0 = load_views_and_columns(view_rows);
    let views1 = apply_column_sources(&views0, lineage_rows);
    let index = crate::refs::build_name_index(&tables, &views1);
    let views = populate_view_references(&views1, &index);
    let relationships = match fk_rows {
        Some(rs) => load_foreign_keys(rs, &tables),
        None => Vec::new(),
    };
    let triggers = match trigger_rows {
        Some(rs) => load_triggers(rs, &tables, &index),
        None => Vec::new(),
    };
    let stored_procedures = match procedure_rows {
        Some(rs) => load_stored_procedures(rs, &index),
        None => Vec::new(),
    };
    let scalar_functions = match function_rows {
        Some(rs) => load_scalar_functions(rs, &index),
        None => Vec::new(),
    };
    let g = crate::schema::SchemaGraph {
        tables,
        views,
        relationships,
        triggers,
        stored_procedures,
        scalar_functions,
    };
    proof {
        let m = crate::refs::name_index_of(g.tables@, g.views@);
        let tids = crate::schema::table_ids(g.tables@).to_set();
        let vids = crate::schema::view_ids(g.views@).to_set();

        // The index built over the half-finished views is the index of the
        // finished graph: enrichment and reference population leave names
        // and ids alone.
        assert(forall|l: int|
            0 <= l < views1@.len() ==> (#[trigger] views1@[l].name@) == g.views@[l].name@
                && views1@[l].id@ == g.views@[l].id@);
        lemma_views_index_same_names(crate::refs::tables_index(g.tables@), views1@, g.views@);
        assert(index@ == m);

        // Ids survive both view-rebuilding passes.
        assert(crate::schema::view_ids(views0@) =~= crate::schema::view_ids(views1@));
        assert(crate::schema::view_ids(views1@) =~= crate::schema::view_ids(g.views@));

        // The composed view model holds of each finished view.
        assert forall|k: int| 0 <= k < g.views@.len() implies view_final_models(
            view_rows@,
            lineage_rows@,
            m,
            #[trigger] g.views@[k],
        ) by {
            let v0 = views0@[k];
            let v1 = views1@[k];
            let v = g.views@[k];
            assert(view_node_models(view_rows@, v0));
            assert(view_enriched(lineage_rows@, v0, v1));
            assert(view_referenced(index@, v1, v));
            assert(v.id@ == v0.id@);
            let rs = view_rows_for(view_rows@, v.id@);
            assert forall|j: int| 0 <= j < rs.len() implies final_column_models(
                rs[j],
                lineage_rows@,
                v.id@,
                #[trigger] v.columns@[j],
            ) by {
                assert(column_of_view_row(rs[j], v0.columns@[j]));
                assert(column_enriched(lineage_rows@, v0.id@, v0.columns@[j], v1.columns@[j]));
                assert(v.columns@[j] == v1.columns@[j]);
            }
        }

        // Index values are loaded object ids, so every reference list is
        // closed over them.
        assert(crate::refs::index_values_within(
            m,
            crate::schema::table_ids(g.tables@).to_set() + crate::schema::view_ids(
                views1@,
            ).to_set(),
        ));
        assert(crate::schema::table_ids(g.tables@).to_set() + crate::schema::view_ids(
            views1@,
        ).to_set() =~= crate::schema::object_id_set(g));
        assert(crate::refs::index_values_within(m, crate::schema::object_id_set(g)));

        assert forall|i: int| 0 <= i < g.views.len() implies crate::schema::refs_within(
            (#[trigger] g.views[i]).referenced_tables@,
            crate::schema::object_id_set(g),
        ) by {
            lemma_refs_within_index(
                view_rows_for(view_rows@, g.views@[i].id@)[0].definition@,
                m,
                crate::schema::object_id_set(g),
            );
            let refs = g.views@[i].referenced_tables@;
            assert forall|l: int| 0 <= l < refs.len() implies crate::schema::object_id_set(
                g,
            ).contains(#[trigger] refs[l]@) by {
                assert(crate::refs::string_views(refs)[l] == refs[l]@);
                assert(crate::refs::string_view_set(refs).contains(refs[l]@));
            }
        }
        assert forall|i: int| 0 <= i < g.triggers.len() implies crate::schema::refs_within(
            (#[trigger] g.triggers[i]).referenced_tables@,
            crate::schema::object_id_set(g),
        ) && crate::schema::refs_within(
            g.triggers[i].affected_tables@,
            crate::schema::object_id_set(g),
        ) by {
            let rs = match trigger_rows {
                Some(trs) => kept_trigger_rows(trs@, tids),
                None => Seq::<TriggerRow>::empty(),
            };
            assert(trigger_models_row(rs[i], g.triggers@[i], m));
            lemma_refs_within_index(rs[i].definition@, m, crate::schema::object_id_set(g));
            let refs = g.triggers@[i].referenced_tables@;
            assert forall|l: int| 0 <= l < refs.len() implies crate::schema::object_id_set(
                g,
            ).contains(#[trigger] refs[l]@) by {
                assert(crate::refs::string_views(refs)[l] == refs[l]@);
                assert(crate::refs::string_view_set(refs).contains(refs[l]@));
            }
            let arefs = g.triggers@[i].affected_tables@;
            assert forall|l: int| 0 <= l < arefs.len() implies crate::schema::object_id_set(
                g,
            ).contains(#[trigger] arefs[l]@) by {
                assert(crate::refs::string_views(arefs)[l] == arefs[l]@);
                assert(crate::refs::string_view_set(arefs).contains(arefs[l]@));
            }
        }
        assert forall|i: int| 0 <= i < g.stored_procedures.len() implies crate::schema::refs_within(
            (#[trigger] g.stored_procedures[i]).referenced_tables@,
            crate::schema::object_id_set(g),
        ) && crate::schema::refs_within(
            g.stored_procedures[i].affected_tables@,
            crate::schema::object_id_set(g),
        ) by {
            let p = g.stored_procedures@[i];
            let prows = match procedure_rows {
                Some(prs) => prs@,
                None => Seq::<RoutineRow>::empty(),
            };
            assert(procedure_models_rows(prows, p, m));
            lemma_refs_within_index(
                routine_rows_for(prows, p.id@)[0].definition@,
                m,
                crate::schema::object_id_set(g),
            );
            let refs = p.referenced_tables@;
            assert forall|l: int| 0 <= l < refs.len() implies crate::schema::object_id_set(
                g,
            ).contains(#[trigger] refs[l]@) by {
                assert(crate::refs::string_views(refs)[l] == refs[l]@);
                assert(crate::refs::string_view_set(refs).contains(refs[l]@));
            }
            let arefs = p.affected_tables@;
            assert forall|l: int| 0 <= l < arefs.len() implies crate::schema::object_id_set(
                g,
            ).contains(#[trigger] arefs[l]@) by {
                assert(crate::refs::string_views(arefs)[l] == arefs[l]@);
                assert(crate::refs::string_view_set(arefs).contains(arefs[l]@));
            }
        }
        assert forall|i: int| 0 <= i < g.scalar_functions.len() implies crate::schema::refs_within(
            (#[trigger] g.scalar_functions[i]).referenced_tables@,
            crate::schema::object_id_set(g),
        ) && crate::schema::refs_within(
            g.scalar_functions[i].affected_tables@,
            crate::schema::object_id_set(g),
        ) by {
            let f = g.scalar_functions@[i];
            let frows = match function_rows {
                Some(frs) => frs@,
                None => Seq::<RoutineRow>::empty(),
            };
            assert(function_models_rows(frows, f, m));
            lemma_refs_within_index(
                routine_rows_for(frows, f.id@)[0].definition@,
                m,
                crate::schema::object_id_set(g),
            );
            let refs = f.referenced_tables@;
            assert forall|l: int| 0 <= l < refs.len() implies crate::schema::object_id_set(
                g,
            ).contains(#[trigger] refs[l]@) by {
                assert(crate::refs::string_views(refs)[l] == refs[l]@);
                assert(crate::refs::string_view_set(refs).contains(refs[l]@));
            }
            let arefs = f.affected_tables@;
            assert forall|l: int| 0 <= l < arefs.len() implies crate::schema::object_id_set(
                g,
            ).contains(#[trigger] arefs[l]@) by {
                assert(crate::refs::string_views(arefs)[l] == arefs[l]@);
                assert(crate::refs::string_view_set(arefs).contains(arefs[l]@));
            }
        }
    }
    g
}

/// An id that never appeared among the first ids has no rows.
proof fn lemma_rows_for_absent_table(rows: Seq<TableColumnRow>, id: Seq<char>)
    requires
        !table_first_ids(rows).contains(id),
    ensures
        table_rows_for(rows, id) == Seq::<TableColumnRow>::empty(),
    decreases rows.len(),
{
    if rows.len() > 0 {
        let pre = table_first_ids(rows.drop_last());
        let lastid = table_row_id(rows.last());
        if lastid == id {
            if pre.contains(id) {
                assert(table_first_ids(rows) == pre);
            } else {
                assert(table_first_ids(rows)[pre.len() as int] == id);
            }
            assert(table_first_ids(rows).contains(id));
        }
        if pre.contains(id) {
            let j = choose|j: int| 0 <= j < pre.len() && pre[j] == id;
            assert(table_first_ids(rows)[j] == id);
            assert(table_first_ids(rows).contains(id));
        }
        lemma_rows_for_absent_table(rows.drop_last(), id);
        assert(table_rows_for(rows, id) =~= Seq::<TableColumnRow>::empty());
    }
}

} // verus!
