//! The schema graph data model: tables with columns, views, foreign-key
//! relationships, triggers and routines, all referring to one another by
//! canonical `schema.name` id strings rather than by pointer.

use vstd::prelude::*;

verus! {

/// One column of a table or view.  The source fields are populated only
/// for view columns whose lineage the catalog could resolve.
#[derive(Debug, Clone)]
pub struct Column {
    pub name: String,
    pub data_type: String,
    pub is_nullable: bool,
    pub is_primary_key: bool,
    pub source_table: Option<String>,
    pub source_column: Option<String>,
}

/// A table, with its columns in catalog order.
#[derive(Debug, Clone)]
pub struct TableNode {
    pub id: String,
    pub name: String,
    pub schema: String,
    pub columns: Vec<Column>,
}

/// A view, with its columns in catalog order, its definition text, and the
/// ids of the tables its definition reads.
#[derive(Debug, Clone)]
pub struct ViewNode {
    pub id: String,
    pub name: String,
    pub schema: String,
    pub columns: Vec<Column>,
    pub definition: String,
    pub referenced_tables: Vec<String>,
}

/// A foreign-key edge between two tables, named after the constraint.
#[derive(Debug, Clone)]
pub struct RelationshipEdge {
    pub id: String,
    pub from: String,
    pub to: String,
    pub from_column: String,
    pub to_column: String,
}

/// One parameter of a routine, with its leading `@`.
#[derive(Debug, Clone)]
pub struct ProcedureParameter {
    pub name: String,
    pub data_type: String,
    pub is_output: bool,
}

/// A trigger on a table, with the tables its body reads and writes.
#[derive(Debug, Clone)]
pub struct Trigger {
    pub id: String,
    pub name: String,
    pub schema: String,
    pub table_id: String,
    pub trigger_type: String,
    pub is_disabled: bool,
    pub fires_on_insert: bool,
    pub fires_on_update: bool,
    pub fires_on_delete: bool,
    pub definition: String,
    pub referenced_tables: Vec<String>,
    pub affected_tables: Vec<String>,
}

/// A stored procedure, with its parameters in catalog order and the tables
/// its body reads and writes.
#[derive(Debug, Clone)]
pub struct StoredProcedure {
    pub id: String,
    pub name: String,
    pub schema: String,
    pub procedure_type: String,
    pub parameters: Vec<ProcedureParameter>,
    pub definition: String,
    pub referenced_tables: Vec<String>,
    pub affected_tables: Vec<String>,
}

/// A scalar function, shaped like a procedure with a return type.
#[derive(Debug, Clone)]
pub struct ScalarFunction {
    pub id: String,
    pub name: String,
    pub schema: String,
    pub function_type: String,
    pub parameters: Vec<ProcedureParameter>,
    pub definition: String,
    pub referenced_tables: Vec<String>,
    pub affected_tables: Vec<String>,
    pub return_type: String,
}

/// The full result of one schema load.
#[derive(Debug, Clone)]
pub struct SchemaGraph {
    pub tables: Vec<TableNode>,
    pub views: Vec<ViewNode>,
    pub relationships: Vec<RelationshipEdge>,
    pub triggers: Vec<Trigger>,
    pub stored_procedures: Vec<StoredProcedure>,
    pub scalar_functions: Vec<ScalarFunction>,
}

/// A canonical object id: the schema and the name, joined by a dot.
pub open spec fn dotted(a: Seq<char>, b: Seq<char>) -> Seq<char> {
    a + seq!['.'] + b
}

/// Joins a schema and a name into a canonical object id.
pub fn make_object_id(schema: &str, name: &str) -> (r: String)
    ensures
        r@ == dotted(schema@, name@),
{
    let mut s = String::from_str(schema);
    s.append(".");
    s.append(name);
    proof {
        reveal_strlit(".");
        assert(s@ =~= dotted(schema@, name@));
    }
    s
}

/// The ids of a sequence of tables, in order.
pub open spec fn table_ids(ts: Seq<TableNode>) -> Seq<Seq<char>> {
    ts.map_values(|t: TableNode| t.id@)
}

/// The ids of a sequence of views, in order.
pub open spec fn view_ids(vs: Seq<ViewNode>) -> Seq<Seq<char>> {
    vs.map_values(|v: ViewNode| v.id@)
}

/// The set of table ids of a graph.
pub open spec fn table_id_set(g: SchemaGraph) -> Set<Seq<char>> {
    table_ids(g.tables@).to_set()
}

/// The set of table and view ids of a graph: what a routine's reference
/// lists may draw from.
pub open spec fn object_id_set(g: SchemaGraph) -> Set<Seq<char>> {
    table_ids(g.tables@).to_set() + view_ids(g.views@).to_set()
}

/// Whether every string of `refs` is an id out of `ids`.
pub open spec fn refs_within(refs: Seq<String>, ids: Set<Seq<char>>) -> bool {
    forall|i: int| 0 <= i < refs.len() ==> ids.contains(#[trigger] refs[i]@)
}

/// Every relationship edge of the graph connects two loaded tables.
pub open spec fn edges_closed(g: SchemaGraph) -> bool {
    forall|i: int|
        0 <= i < g.relationships.len() ==> table_id_set(g).contains(
            #[trigger] g.relationships[i].from@,
        ) && table_id_set(g).contains(g.relationships[i].to@)
}

/// Every trigger of the graph sits on a loaded table.
pub open spec fn triggers_closed(g: SchemaGraph) -> bool {
    forall|i: int|
        0 <= i < g.triggers.len() ==> table_id_set(g).contains(#[trigger] g.triggers[i].table_id@)
}

/// Every reference list of the graph draws only on loaded tables and
/// views.
pub open spec fn references_closed(g: SchemaGraph) -> bool {
    &&& forall|i: int|
        0 <= i < g.views.len() ==> refs_within(
            (#[trigger] g.views[i]).referenced_tables@,
            object_id_set(g),
        )
    &&& forall|i: int|
        0 <= i < g.triggers.len() ==> refs_within(
            (#[trigger] g.triggers[i]).referenced_tables@,
            object_id_set(g),
        ) && refs_within(g.triggers[i].affected_tables@, object_id_set(g))
    &&& forall|i: int|
        0 <= i < g.stored_procedures.len() ==> refs_within(
            (#[trigger] g.stored_procedures[i]).referenced_tables@,
            object_id_set(g),
        ) && refs_within(g.stored_procedures[i].affected_tables@, object_id_set(g))
    &&& forall|i: int|
        0 <= i < g.scalar_functions.len() ==> refs_within(
            (#[trigger] g.scalar_functions[i]).referenced_tables@,
            object_id_set(g),
        ) && refs_within(g.scalar_functions[i].affected_tables@, object_id_set(g))
}

/// The ids of every entity of the graph, across all categories.
pub open spec fn all_object_ids(g: SchemaGraph) -> Seq<Seq<char>> {
    table_ids(g.tables@) + view_ids(g.views@) + g.triggers@.map_values(|t: Trigger| t.id@)
        + g.stored_procedures@.map_values(|p: StoredProcedure| p.id@) + g.scalar_functions@.map_values(
        |f: ScalarFunction| f.id@,
    )
}

/// Object ids are unique across all categories combined.
pub open spec fn ids_unique(g: SchemaGraph) -> bool {
    all_object_ids(g).no_duplicates()
}

/// The well-formedness of a schema graph: edges and triggers land on
/// loaded tables, reference lists stay within the loaded objects.
pub open spec fn graph_closed(g: SchemaGraph) -> bool {
    &&& edges_closed(g)
    &&& triggers_closed(g)
    &&& references_closed(g)
}

/// The names of a column list, in order.
pub open spec fn column_names(cs: Seq<Column>) -> Seq<Seq<char>> {
    cs.map_values(|c: Column| c.name@)
}

/// Columns within every entity of the graph are uniquely named.
pub open spec fn columns_unique(g: SchemaGraph) -> bool {
    &&& forall|i: int|
        0 <= i < g.tables.len() ==> column_names(
            (#[trigger] g.tables[i]).columns@,
        ).no_duplicates()
    &&& forall|i: int|
        0 <= i < g.views.len() ==> column_names((#[trigger] g.views[i]).columns@).no_duplicates()
}

} // verus!
