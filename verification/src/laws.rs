//! Graph-wide laws that rest on what the catalog enforces: within one
//! database, object ids are unique across categories, and column names are
//! unique within each object.  The loaders guarantee uniqueness within
//! each category they build; these lemmas carry the catalog's guarantees
//! the rest of the way.

use vstd::prelude::*;
use crate::schema::{all_object_ids, column_names, columns_unique, ids_unique, table_ids, view_ids,
    SchemaGraph, TableNode, ViewNode};
use crate::schema_loader::{table_node_models, table_rows_for, view_final_models, view_rows_for,
    TableColumnRow, ViewColumnRow, ViewColumnSourceRow};

verus! {

/// The trigger ids of a graph, in order.
pub open spec fn trigger_ids(g: SchemaGraph) -> Seq<Seq<char>> {
    g.triggers@.map_values(|t: crate::schema::Trigger| t.id@)
}

/// The stored-procedure ids of a graph, in order.
pub open spec fn procedure_ids(g: SchemaGraph) -> Seq<Seq<char>> {
    g.stored_procedures@.map_values(|p: crate::schema::StoredProcedure| p.id@)
}

/// The scalar-function ids of a graph, in order.
pub open spec fn function_ids(g: SchemaGraph) -> Seq<Seq<char>> {
    g.scalar_functions@.map_values(|f: crate::schema::ScalarFunction| f.id@)
}

/// No id appears in two different categories of the graph.
pub open spec fn categories_disjoint(g: SchemaGraph) -> bool {
    &&& table_ids(g.tables@).disjoint(view_ids(g.views@))
    &&& table_ids(g.tables@).disjoint(trigger_ids(g))
    &&& table_ids(g.tables@).disjoint(procedure_ids(g))
    &&& table_ids(g.tables@).disjoint(function_ids(g))
    &&& view_ids(g.views@).disjoint(trigger_ids(g))
    &&& view_ids(g.views@).disjoint(procedure_ids(g))
    &&& view_ids(g.views@).disjoint(function_ids(g))
    &&& trigger_ids(g).disjoint(procedure_ids(g))
    &&& trigger_ids(g).disjoint(function_ids(g))
    &&& procedure_ids(g).disjoint(function_ids(g))
}

/// Two duplicate-free sequences with nothing in common concatenate to a
/// duplicate-free sequence.
proof fn lemma_concat_no_duplicates(a: Seq<Seq<char>>, b: Seq<Seq<char>>)
    requires
        a.no_duplicates(),
        b.no_duplicates(),
        a.disjoint(b),
    ensures
        (a + b).no_duplicates(),
{
    assert forall|i: int, j: int|
        0 <= i < (a + b).len() && 0 <= j < (a + b).len() && i != j implies (a + b)[i] != (a
        + b)[j] by {
        if i < a.len() && j < a.len() {
        } else if i >= a.len() && j >= a.len() {
            assert((a + b)[i] == b[i - a.len()]);
            assert((a + b)[j] == b[j - a.len()]);
        } else if i < a.len() {
            assert((a + b)[i] == a[i]);
            assert((a + b)[j] == b[j - a.len()]);
        } else {
            assert((a + b)[i] == b[i - a.len()]);
            assert((a + b)[j] == a[j]);
        }
    }
}

/// A concatenation avoids a sequence that both its parts avoid.
proof fn lemma_concat_disjoint(a: Seq<Seq<char>>, b: Seq<Seq<char>>, c: Seq<Seq<char>>)
    requires
        a.disjoint(c),
        b.disjoint(c),
    ensures
        (a + b).disjoint(c),
{
    assert forall|i: int, j: int|
        0 <= i < (a + b).len() && 0 <= j < c.len() implies (a + b)[i] != c[j] by {
        if i < a.len() {
            assert((a + b)[i] == a[i]);
        } else {
            assert((a + b)[i] == b[i - a.len()]);
        }
    }
}

/// Object ids are unique across all categories combined: when each
/// category is free of duplicates on its own — the loaders guarantee it
/// for tables, views, procedures and functions — and no id appears in two
/// categories, which the catalog enforces by keeping one namespace of
/// objects per schema, then the graph's combined id list has no
/// duplicates.
pub proof fn lemma_object_ids_unique(g: SchemaGraph)
    requires
        table_ids(g.tables@).no_duplicates(),
        view_ids(g.views@).no_duplicates(),
        trigger_ids(g).no_duplicates(),
        procedure_ids(g).no_duplicates(),
        function_ids(g).no_duplicates(),
        categories_disjoint(g),
    ensures
        ids_unique(g),
{
    let a = table_ids(g.tables@);
    let b = view_ids(g.views@);
    let c = trigger_ids(g);
    let d = procedure_ids(g);
    let e = function_ids(g);
    lemma_concat_no_duplicates(a, b);
    lemma_concat_disjoint(a, b, c);
    lemma_concat_no_duplicates(a + b, c);
    lemma_concat_disjoint(a, b, d);
    lemma_concat_disjoint(a + b, c, d);
    lemma_concat_no_duplicates(a + b + c, d);
    lemma_concat_disjoint(a, b, e);
    lemma_concat_disjoint(a + b, c, e);
    lemma_concat_disjoint(a + b + c, d, e);
    lemma_concat_no_duplicates(a + b + c + d, e);
    assert(all_object_ids(g) == a + b + c + d + e);
}

/// Whether a run of table rows names each of its columns once.
pub open spec fn table_rows_uniquely_named(rs: Seq<TableColumnRow>) -> bool {
    forall|i: int, j: int|
        0 <= i < rs.len() && 0 <= j < rs.len() && i != j ==> (#[trigger] rs[i].column_name@) != (
        #[trigger] rs[j].column_name@)
}

/// Whether a run of view rows names each of its columns once.
pub open spec fn view_rows_uniquely_named(rs: Seq<ViewColumnRow>) -> bool {
    forall|i: int, j: int|
        0 <= i < rs.len() && 0 <= j < rs.len() && i != j ==> (#[trigger] rs[i].column_name@) != (
        #[trigger] rs[j].column_name@)
}

/// A table assembled from rows that name each column once carries
/// uniquely named columns.
pub proof fn lemma_table_columns_unique(rows: Seq<TableColumnRow>, t: TableNode)
    requires
        table_node_models(rows, t),
        table_rows_uniquely_named(table_rows_for(rows, t.id@)),
    ensures
        column_names(t.columns@).no_duplicates(),
{
    let rs = table_rows_for(rows, t.id@);
    assert forall|i: int, j: int|
        0 <= i < column_names(t.columns@).len() && 0 <= j < column_names(t.columns@).len() && i
        != j implies column_names(t.columns@)[i] != column_names(t.columns@)[j] by {
        assert(column_names(t.columns@)[i] == t.columns@[i].name@);
        assert(column_names(t.columns@)[j] == t.columns@[j].name@);
        assert(t.columns@[i].name@ == rs[i].column_name@);
        assert(t.columns@[j].name@ == rs[j].column_name@);
    }
}

/// A finished view assembled from rows that name each column once carries
/// uniquely named columns.
pub proof fn lemma_view_columns_unique(
    vrows: Seq<ViewColumnRow>,
    srows: Seq<ViewColumnSourceRow>,
    m: Map<Seq<char>, Seq<char>>,
    v: ViewNode,
)
    requires
        view_final_models(vrows, srows, m, v),
        view_rows_uniquely_named(view_rows_for(vrows, v.id@)),
    ensures
        column_names(v.columns@).no_duplicates(),
{
    let rs = view_rows_for(vrows, v.id@);
    assert forall|i: int, j: int|
        0 <= i < column_names(v.columns@).len() && 0 <= j < column_names(v.columns@).len() && i
        != j implies column_names(v.columns@)[i] != column_names(v.columns@)[j] by {
        assert(column_names(v.columns@)[i] == v.columns@[i].name@);
        assert(column_names(v.columns@)[j] == v.columns@[j].name@);
        assert(v.columns@[i].name@ == rs[i].column_name@);
        assert(v.columns@[j].name@ == rs[j].column_name@);
    }
}

/// Columns within an entity are uniquely named: when the catalog rows
/// name each object's columns once — which the catalog enforces — every
/// table and view of the assembled graph carries uniquely named columns.
pub proof fn lemma_graph_columns_unique(
    g: SchemaGraph,
    table_rows: Seq<TableColumnRow>,
    view_rows: Seq<ViewColumnRow>,
    lineage_rows: Seq<ViewColumnSourceRow>,
    m: Map<Seq<char>, Seq<char>>,
)
    requires
        forall|k: int|
            0 <= k < g.tables@.len() ==> table_node_models(table_rows, #[trigger] g.tables@[k]),
        forall|k: int|
            0 <= k < g.views@.len() ==> view_final_models(
                view_rows,
                lineage_rows,
                m,
                #[trigger] g.views@[k],
            ),
        forall|k: int|
            0 <= k < g.tables@.len() ==> table_rows_uniquely_named(
                table_rows_for(table_rows, (#[trigger] g.tables@[k]).id@),
            ),
        forall|k: int|
            0 <= k < g.views@.len() ==> view_rows_uniquely_named(
                view_rows_for(view_rows, (#[trigger] g.views@[k]).id@),
            ),
    ensures
        columns_unique(g),
{
    assert forall|k: int| 0 <= k < g.tables.len() implies column_names(
        (#[trigger] g.tables[k]).columns@,
    ).no_duplicates() by {
        lemma_table_columns_unique(table_rows, g.tables@[k]);
    }
    assert forall|k: int| 0 <= k < g.views.len() implies column_names(
        (#[trigger] g.views[k]).columns@,
    ).no_duplicates() by {
        lemma_view_columns_unique(view_rows, lineage_rows, m, g.views@[k]);
    }
}

} // verus!
