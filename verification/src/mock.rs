//! A deterministic mock schema graph, sized by preset, for driving the
//! presentation layer without a database.  Everything is derived from a
//! fixed integer hash, so two invocations with the same preset produce the
//! same graph; no input, time or randomness is involved.

use vstd::prelude::*;
use crate::schema::{column_names, edges_closed, references_closed, table_id_set, table_ids,
    triggers_closed, view_ids, Column, RelationshipEdge, ScalarFunction, SchemaGraph,
    StoredProcedure, TableNode, Trigger, ViewNode};
use crate::text::{all_digits, dec_str, is_digit_char, lemma_dec_str_digits, lemma_dec_str_injective,
    lemma_dec_str_len, str_eq, u64_to_string};

verus! {

/// The sizes the mock generator understands.
pub open spec fn is_mock_size(s: Seq<char>) -> bool {
    s == "small"@ || s == "medium"@ || s == "large"@ || s == "stress"@
}

/// Executable test for [`is_mock_size`].
pub fn mock_size_known(size: &str) -> (r: bool)
    ensures
        r == is_mock_size(size@),
{
    str_eq(size, "small") || str_eq(size, "medium") || str_eq(size, "large") || str_eq(
        size,
        "stress",
    )
}

/// How many tables each preset generates.
pub open spec fn mock_table_count(s: Seq<char>) -> int {
    if s == "small"@ {
        10
    } else if s == "medium"@ {
        50
    } else if s == "large"@ {
        250
    } else {
        1500
    }
}

/// How many views each preset generates.
pub open spec fn mock_view_count(s: Seq<char>) -> int {
    if s == "small"@ {
        2
    } else if s == "medium"@ {
        10
    } else if s == "large"@ {
        40
    } else {
        150
    }
}

/// How many relationship edges each preset generates.
pub open spec fn mock_edge_count(s: Seq<char>) -> int {
    if s == "small"@ {
        8
    } else if s == "medium"@ {
        40
    } else if s == "large"@ {
        200
    } else {
        1200
    }
}

/// How many triggers each preset generates.
pub open spec fn mock_trigger_count(s: Seq<char>) -> int {
    if s == "small"@ {
        3
    } else if s == "medium"@ {
        10
    } else if s == "large"@ {
        40
    } else {
        150
    }
}

/// How many stored procedures each preset generates.
pub open spec fn mock_procedure_count(s: Seq<char>) -> int {
    if s == "small"@ {
        4
    } else if s == "medium"@ {
        15
    } else if s == "large"@ {
        60
    } else {
        300
    }
}

/// How many scalar functions each preset generates.
pub open spec fn mock_function_count(s: Seq<char>) -> int {
    if s == "small"@ {
        2
    } else if s == "medium"@ {
        5
    } else if s == "large"@ {
        20
    } else {
        100
    }
}

/// The fixed mixing hash every mock choice comes from.
pub open spec fn mock_hash(seed: u64, index: u64) -> u64 {
    let x = (((seed + index) as int) * 2654435761) as u64;
    x ^ (x >> 16)
}

/// Computes the mixing hash.
pub fn mock_hash_exec(seed: u64, index: u64) -> (r: u64)
    requires
        seed + index < 0x1_0000_0000,
    ensures
        r == mock_hash(seed, index),
{
    let x: u64 = (seed + index) * 2654435761;
    x ^ (x >> 16)
}

/// The id of mock table `i`.
pub open spec fn mock_table_id(i: nat) -> Seq<char> {
    "dbo.Table_"@ + dec_str(i)
}

/// The id of mock view `i`.
pub open spec fn mock_view_id(i: nat) -> Seq<char> {
    "dbo.View_"@ + dec_str(i)
}

/// The id of mock trigger `i`, which sits on table `t`.
pub open spec fn mock_trigger_id(t: nat, i: nat) -> Seq<char> {
    mock_table_id(t) + seq!['.'] + "TR_"@ + dec_str(i)
}

/// The id of mock procedure `i`.
pub open spec fn mock_procedure_id(i: nat) -> Seq<char> {
    "dbo.Proc_"@ + dec_str(i)
}

/// The id of mock function `i`.
pub open spec fn mock_function_id(i: nat) -> Seq<char> {
    "dbo.Fn_"@ + dec_str(i)
}

/// The name of mock column `k`: a key column first, then numbered columns.
pub open spec fn mock_col_name(k: int) -> Seq<char> {
    if k == 0 {
        "Id"@
    } else {
        "Col_"@ + dec_str(k as nat)
    }
}

/// Two different texts that both end in a non-digit followed by digits
/// split the same way: equal concatenations force equal digit suffixes.
proof fn lemma_digit_suffix_unique(x: Seq<char>, d1: Seq<char>, y: Seq<char>, d2: Seq<char>)
    requires
        x + d1 == y + d2,
        all_digits(d1),
        all_digits(d2),
        d1.len() > 0,
        d2.len() > 0,
        x.len() > 0,
        y.len() > 0,
        !is_digit_char(x.last()),
        !is_digit_char(y.last()),
    ensures
        d1 == d2,
        x == y,
{
    assert((x + d1).len() == x.len() + d1.len());
    assert((y + d2).len() == y.len() + d2.len());
    assert(x.len() + d1.len() == y.len() + d2.len());
    if d1.len() < d2.len() {
        let t: int = x.len() - 1;
        assert((x + d1)[t] == x[t]);
        assert(x[t] == x.last());
        assert(t >= y.len());
        assert((y + d2)[t] == d2[t - y.len()]);
        assert(is_digit_char(d2[t - y.len()]));
        assert(false);
    }
    if d2.len() < d1.len() {
        let t: int = y.len() - 1;
        assert((y + d2)[t] == y[t]);
        assert(y[t] == y.last());
        assert(t >= x.len());
        assert((x + d1)[t] == d1[t - x.len()]);
        assert(is_digit_char(d1[t - x.len()]));
        assert(false);
    }
    assert(d1.len() == d2.len());
    assert(x.len() == y.len());
    assert forall|k: int| 0 <= k < d1.len() implies d1[k] == d2[k] by {
        assert((x + d1)[x.len() + k] == d1[k]);
        assert((y + d2)[y.len() + k] == d2[k]);
    }
    assert(d1 =~= d2);
    assert forall|k: int| 0 <= k < x.len() implies x[k] == y[k] by {
        assert((x + d1)[k] == x[k]);
        assert((y + d2)[k] == y[k]);
    }
    assert(x =~= y);
}

proof fn lemma_mock_table_id_injective(i: nat, j: nat)
    requires
        mock_table_id(i) == mock_table_id(j),
    ensures
        i == j,
{
    reveal_strlit("dbo.Table_");
    lemma_dec_str_digits(i);
    lemma_dec_str_digits(j);
    lemma_dec_str_len(i);
    lemma_dec_str_len(j);
    lemma_digit_suffix_unique("dbo.Table_"@, dec_str(i), "dbo.Table_"@, dec_str(j));
    lemma_dec_str_injective(i, j);
}

proof fn lemma_mock_view_id_injective(i: nat, j: nat)
    requires
        mock_view_id(i) == mock_view_id(j),
    ensures
        i == j,
{
    reveal_strlit("dbo.View_");
    lemma_dec_str_digits(i);
    lemma_dec_str_digits(j);
    lemma_dec_str_len(i);
    lemma_dec_str_len(j);
    lemma_digit_suffix_unique("dbo.View_"@, dec_str(i), "dbo.View_"@, dec_str(j));
    lemma_dec_str_injective(i, j);
}

proof fn lemma_mock_procedure_id_injective(i: nat, j: nat)
    requires
        mock_procedure_id(i) == mock_procedure_id(j),
    ensures
        i == j,
{
    reveal_strlit("dbo.Proc_");
    lemma_dec_str_digits(i);
    lemma_dec_str_digits(j);
    lemma_dec_str_len(i);
    lemma_dec_str_len(j);
    lemma_digit_suffix_unique("dbo.Proc_"@, dec_str(i), "dbo.Proc_"@, dec_str(j));
    lemma_dec_str_injective(i, j);
}

proof fn lemma_mock_function_id_injective(i: nat, j: nat)
    requires
        mock_function_id(i) == mock_function_id(j),
    ensures
        i == j,
{
    reveal_strlit("dbo.Fn_");
    lemma_dec_str_digits(i);
    lemma_dec_str_digits(j);
    lemma_dec_str_len(i);
    lemma_dec_str_len(j);
    lemma_digit_suffix_unique("dbo.Fn_"@, dec_str(i), "dbo.Fn_"@, dec_str(j));
    lemma_dec_str_injective(i, j);
}

proof fn lemma_mock_trigger_id_injective(t1: nat, i: nat, t2: nat, j: nat)
    requires
        mock_trigger_id(t1, i) == mock_trigger_id(t2, j),
    ensures
        i == j,
{
    reveal_strlit("TR_");
    lemma_dec_str_digits(i);
    lemma_dec_str_digits(j);
    lemma_dec_str_len(i);
    lemma_dec_str_len(j);
    let x = mock_table_id(t1) + seq!['.'] + "TR_"@;
    let y = mock_table_id(t2) + seq!['.'] + "TR_"@;
    assert(x + dec_str(i) =~= mock_trigger_id(t1, i));
    assert(y + dec_str(j) =~= mock_trigger_id(t2, j));
    assert(x.last() == '_');
    assert(y.last() == '_');
    lemma_digit_suffix_unique(x, dec_str(i), y, dec_str(j));
    lemma_dec_str_injective(i, j);
}

/// The fifth character of each category's ids tells the categories apart;
/// the one shared prefix, between tables and triggers, is settled by the
/// dot a trigger id carries where a table id has digits.
proof fn lemma_mock_categories_differ(ti: nat, vi: nat, tt: nat, tri: nat, pi: nat, fi: nat)
    ensures
        mock_table_id(ti) != mock_view_id(vi),
        mock_table_id(ti) != mock_trigger_id(tt, tri),
        mock_table_id(ti) != mock_procedure_id(pi),
        mock_table_id(ti) != mock_function_id(fi),
        mock_view_id(vi) != mock_trigger_id(tt, tri),
        mock_view_id(vi) != mock_procedure_id(pi),
        mock_view_id(vi) != mock_function_id(fi),
        mock_trigger_id(tt, tri) != mock_procedure_id(pi),
        mock_trigger_id(tt, tri) != mock_function_id(fi),
        mock_procedure_id(pi) != mock_function_id(fi),
{
    reveal_strlit("dbo.Table_");
    reveal_strlit("dbo.View_");
    reveal_strlit("dbo.Proc_");
    reveal_strlit("dbo.Fn_");
    reveal_strlit("TR_");
    lemma_dec_str_len(ti);
    lemma_dec_str_len(vi);
    lemma_dec_str_len(tt);
    lemma_dec_str_len(tri);
    lemma_dec_str_len(pi);
    lemma_dec_str_len(fi);
    assert(mock_table_id(ti)[4] == 'T');
    assert(mock_view_id(vi)[4] == 'V');
    assert(mock_procedure_id(pi)[4] == 'P');
    assert(mock_function_id(fi)[4] == 'F');
    assert(mock_trigger_id(tt, tri)[4] == mock_table_id(tt)[4]);
    assert(mock_trigger_id(tt, tri)[4] == 'T');
    // A table id and a trigger id can only collide along the shared
    // "dbo.Table_" prefix; there the table id shows a digit where the
    // trigger id shows the dot before the trigger name.
    if mock_table_id(ti) == mock_trigger_id(tt, tri) {
        lemma_dec_str_digits(ti);
        lemma_dec_str_digits(tt);
        let p = 10 + dec_str(tt).len();
        assert(mock_trigger_id(tt, tri)[p as int] == '.');
        assert(mock_table_id(ti).len() == 10 + dec_str(ti).len());
        assert(mock_trigger_id(tt, tri).len() == 10 + dec_str(tt).len() + 4 + dec_str(tri).len());
        assert(dec_str(ti).len() == dec_str(tt).len() + 4 + dec_str(tri).len());
        assert(mock_table_id(ti)[p as int] == dec_str(ti)[p - 10]);
        assert(is_digit_char(dec_str(ti)[p - 10]));
        assert(!is_digit_char('.'));
        assert(false);
    }
}

proof fn lemma_mock_col_names_distinct(a: int, b: int)
    requires
        0 <= a,
        0 <= b,
        a != b,
    ensures
        mock_col_name(a) != mock_col_name(b),
{
    reveal_strlit("Id");
    reveal_strlit("Col_");
    if a > 0 {
        lemma_dec_str_len(a as nat);
        lemma_dec_str_digits(a as nat);
    }
    if b > 0 {
        lemma_dec_str_len(b as nat);
        lemma_dec_str_digits(b as nat);
    }
    if a == 0 || b == 0 {
        // `Id` is two characters; a numbered column is five or more.
        assert(mock_col_name(0).len() == 2);
        if a > 0 {
            assert(mock_col_name(a).len() == 4 + dec_str(a as nat).len());
        }
        if b > 0 {
            assert(mock_col_name(b).len() == 4 + dec_str(b as nat).len());
        }
        assert(mock_col_name(a).len() != mock_col_name(b).len());
    } else {
        if mock_col_name(a) == mock_col_name(b) {
            lemma_digit_suffix_unique(
                "Col_"@,
                dec_str(a as nat),
                "Col_"@,
                dec_str(b as nat),
            );
            lemma_dec_str_injective(a as nat, b as nat);
        }
    }
}

/// The id of mock edge `i`.
pub open spec fn mock_edge_id(i: nat) -> Seq<char> {
    "FK_"@ + dec_str(i)
}

proof fn lemma_mock_edge_id_injective(i: nat, j: nat)
    requires
        mock_edge_id(i) == mock_edge_id(j),
    ensures
        i == j,
{
    reveal_strlit("FK_");
    lemma_dec_str_digits(i);
    lemma_dec_str_digits(j);
    lemma_dec_str_len(i);
    lemma_dec_str_len(j);
    lemma_digit_suffix_unique("FK_"@, dec_str(i), "FK_"@, dec_str(j));
    lemma_dec_str_injective(i, j);
}

/// Builds the id of mock table `i`.
fn mock_table_id_string(i: usize) -> (r: String)
    ensures
        r@ == mock_table_id(i as nat),
{
    let mut s = String::from_str("dbo.Table_");
    s.append(u64_to_string(i as u64).as_str());
    proof {
        assert(s@ =~= mock_table_id(i as nat));
    }
    s
}

/// Builds the name of mock column `j`.
fn mock_col_name_string(j: usize) -> (r: String)
    ensures
        r@ == mock_col_name(j as int),
{
    if j == 0 {
        String::from_str("Id")
    } else {
        let mut s = String::from_str("Col_");
        s.append(u64_to_string(j as u64).as_str());
        proof {
            assert(s@ =~= mock_col_name(j as int));
        }
        s
    }
}

/// The physical type the hash picks for a mock column.
pub open spec fn mock_type_text(h: u64) -> Seq<char> {
    let k = h % 7;
    if k == 0 {
        "int"@
    } else if k == 1 {
        "bigint"@
    } else if k == 2 {
        "nvarchar(100)"@
    } else if k == 3 {
        "datetime2"@
    } else if k == 4 {
        "decimal(18,2)"@
    } else if k == 5 {
        "bit"@
    } else {
        "nvarchar(255)"@
    }
}

/// Picks the physical type of a mock column.
fn mock_type_name(h: u64) -> (r: &'static str)
    ensures
        r@ == mock_type_text(h),
{
    let k = h % 7;
    if k == 0 {
        "int"
    } else if k == 1 {
        "bigint"
    } else if k == 2 {
        "nvarchar(100)"
    } else if k == 3 {
        "datetime2"
    } else if k == 4 {
        "decimal(18,2)"
    } else if k == 5 {
        "bit"
    } else {
        "nvarchar(255)"
    }
}

/// Builds mock table `i`: a key column, then hash-typed columns, the
/// count following the five-tier rule.
fn mock_table(i: usize) -> (t: TableNode)
    requires
        i < 100000,
    ensures
        t.id@ == mock_table_id(i as nat),
        t.schema@ == "dbo"@,
        t.columns@.len() == 100 + 50 * ((i as int) % 5),
        column_names(t.columns@).no_duplicates(),
{
    let count: usize = 100 + 50 * (i % 5);
    let mut columns: Vec<Column> = Vec::new();
    columns.push(
        Column {
            name: String::from_str("Id"),
            data_type: String::from_str("int"),
            is_nullable: false,
            is_primary_key: true,
            source_table: None,
            source_column: None,
        },
    );
    proof {
        reveal_strlit("Id");
        assert(columns@[0].name@ == mock_col_name(0));
    }
    let mut j: usize = 1;
    while j < count
        invariant
            1 <= j <= count,
            count == 100 + 50 * ((i as int) % 5),
            i < 100000,
            columns@.len() == j,
            forall|k: int| 0 <= k < j ==> (#[trigger] columns@[k]).name@ == mock_col_name(k),
        decreases count - j,
    {
        let h = mock_hash_exec(i as u64, j as u64);
        columns.push(
            Column {
                name: mock_col_name_string(j),
                data_type: String::from_str(mock_type_name(h)),
                is_nullable: h % 2 == 1,
                is_primary_key: false,
                source_table: None,
                source_column: None,
            },
        );
        j = j + 1;
    }
    proof {
        assert forall|a: int, b: int|
            0 <= a < column_names(columns@).len() && 0 <= b < column_names(columns@).len() && a
            != b implies column_names(columns@)[a] != column_names(columns@)[b] by {
            assert(column_names(columns@)[a] == mock_col_name(a));
            assert(column_names(columns@)[b] == mock_col_name(b));
            lemma_mock_col_names_distinct(a, b);
        }
    }
    let mut name = String::from_str("Table_");
    name.append(u64_to_string(i as u64).as_str());
    TableNode { id: mock_table_id_string(i), name, schema: String::from_str("dbo"), columns }
}

/// Builds the mock tables.
fn mock_tables(nt: usize) -> (ts: Vec<TableNode>)
    requires
        nt <= 100000,
    ensures
        ts@.len() == nt,
        forall|k: int| 0 <= k < nt ==> (#[trigger] ts@[k]).id@ == mock_table_id(k as nat),
        forall|k: int|
            0 <= k < nt ==> (#[trigger] ts@[k]).columns@.len() == 100 + 50 * (k % 5),
        forall|k: int|
            0 <= k < nt ==> column_names((#[trigger] ts@[k]).columns@).no_duplicates(),
{
    let mut ts: Vec<TableNode> = Vec::new();
    let mut i: usize = 0;
    while i < nt
        invariant
            i <= nt,
            nt <= 100000,
            ts@.len() == i,
            forall|k: int| 0 <= k < i ==> (#[trigger] ts@[k]).id@ == mock_table_id(k as nat),
            forall|k: int|
                0 <= k < i ==> (#[trigger] ts@[k]).columns@.len() == 100 + 50 * (k % 5),
            forall|k: int|
                0 <= k < i ==> column_names((#[trigger] ts@[k]).columns@).no_duplicates(),
        decreases nt - i,
    {
        ts.push(mock_table(i));
        i = i + 1;
    }
    ts
}

/// Builds the mock views: each reads one hash-picked table, and its
/// columns carry lineage back to that table.
fn mock_views(nv: usize, nt: usize) -> (vs: Vec<ViewNode>)
    requires
        1 <= nt,
        nv < 100000,
    ensures
        vs@.len() == nv,
        forall|k: int| 0 <= k < nv ==> (#[trigger] vs@[k]).id@ == mock_view_id(k as nat),
        forall|k: int|
            0 <= k < nv ==> column_names((#[trigger] vs@[k]).columns@).no_duplicates(),
        forall|k: int|
            0 <= k < nv ==> (#[trigger] vs@[k]).referenced_tables@.len() == 1,
        forall|k: int|
            0 <= k < nv ==> (#[trigger] vs@[k]).referenced_tables@[0]@ == mock_table_id(
                (mock_hash(9001, k as u64) % (nt as u64)) as nat,
            ),
{
    let mut vs: Vec<ViewNode> = Vec::new();
    let mut i: usize = 0;
    while i < nv
        invariant
            i <= nv,
            1 <= nt,
            nv < 100000,
            vs@.len() == i,
            forall|k: int| 0 <= k < i ==> (#[trigger] vs@[k]).id@ == mock_view_id(k as nat),
            forall|k: int|
                0 <= k < i ==> column_names((#[trigger] vs@[k]).columns@).no_duplicates(),
            forall|k: int| 0 <= k < i ==> (#[trigger] vs@[k]).referenced_tables@.len() == 1,
            forall|k: int|
                0 <= k < i ==> (#[trigger] vs@[k]).referenced_tables@[0]@ == mock_table_id(
                    (mock_hash(9001, k as u64) % (nt as u64)) as nat,
                ),
        decreases nv - i,
    {
        let h = mock_hash_exec(9001, i as u64);
        let target: usize = (h % (nt as u64)) as usize;
        let target_name = {
            let mut s = String::from_str("Table_");
            s.append(u64_to_string(target as u64).as_str());
            s
        };
        let mut columns: Vec<Column> = Vec::new();
        let mut j: usize = 0;
        while j < 5
            invariant
                j <= 5,
                i < 100000,
                columns@.len() == j,
                forall|k: int| 0 <= k < j ==> (#[trigger] columns@[k]).name@ == mock_col_name(k),
            decreases 5 - j,
        {
            let hc = mock_hash_exec(9001 + i as u64, j as u64);
            columns.push(
                Column {
                    name: mock_col_name_string(j),
                    data_type: String::from_str(mock_type_name(hc)),
                    is_nullable: hc % 2 == 1,
                    is_primary_key: false,
                    source_table: Some(target_name.clone()),
                    source_column: Some(mock_col_name_string(j)),
                },
            );
            j = j + 1;
        }
        proof {
            assert forall|a: int, b: int|
                0 <= a < column_names(columns@).len() && 0 <= b < column_names(columns@).len()
                && a != b implies column_names(columns@)[a] != column_names(columns@)[b] by {
                assert(column_names(columns@)[a] == mock_col_name(a));
                assert(column_names(columns@)[b] == mock_col_name(b));
                lemma_mock_col_names_distinct(a, b);
            }
        }
        let mut definition = String::from_str("SELECT * FROM dbo.Table_");
        definition.append(u64_to_string(target as u64).as_str());
        let mut referenced_tables: Vec<String> = Vec::new();
        referenced_tables.push(mock_table_id_string(target));
        let mut name = String::from_str("View_");
        name.append(u64_to_string(i as u64).as_str());
        let mut id = String::from_str("dbo.View_");
        id.append(u64_to_string(i as u64).as_str());
        proof {
            assert(id@ =~= mock_view_id(i as nat));
        }
        vs.push(
            ViewNode {
                id,
                name,
                schema: String::from_str("dbo"),
                columns,
                definition,
                referenced_tables,
            },
        );
        proof {
            assert(vs@[i as int].referenced_tables@[0]@ == mock_table_id(
                (mock_hash(9001, i as u64) % (nt as u64)) as nat,
            ));
        }
        i = i + 1;
    }
    vs
}

/// Builds the mock relationship edges, each between two tables of the
/// generated range.
fn mock_edges(ne: usize, nt: usize) -> (es: Vec<RelationshipEdge>)
    requires
        1 <= nt,
        ne < 100000,
    ensures
        es@.len() == ne,
        forall|k: int| 0 <= k < ne ==> (#[trigger] es@[k]).id@ == mock_edge_id(k as nat),
        forall|k: int|
            0 <= k < ne ==> (#[trigger] es@[k]).from@ == mock_table_id((k % (nt as int)) as nat),
        forall|k: int|
            0 <= k < ne ==> (#[trigger] es@[k]).to@ == mock_table_id(
                (mock_hash(7777, k as u64) % (nt as u64)) as nat,
            ),
{
    let mut es: Vec<RelationshipEdge> = Vec::new();
    let mut i: usize = 0;
    while i < ne
        invariant
            i <= ne,
            1 <= nt,
            ne < 100000,
            es@.len() == i,
            forall|k: int| 0 <= k < i ==> (#[trigger] es@[k]).id@ == mock_edge_id(k as nat),
            forall|k: int|
                0 <= k < i ==> (#[trigger] es@[k]).from@ == mock_table_id(
                    (k % (nt as int)) as nat,
                ),
            forall|k: int|
                0 <= k < i ==> (#[trigger] es@[k]).to@ == mock_table_id(
                    (mock_hash(7777, k as u64) % (nt as u64)) as nat,
                ),
        decreases ne - i,
    {
        let from_ix = i % nt;
        let to_ix: usize = (mock_hash_exec(7777, i as u64) % (nt as u64)) as usize;
        let mut id = String::from_str("FK_");
        id.append(u64_to_string(i as u64).as_str());
        proof {
            assert(id@ =~= mock_edge_id(i as nat));
        }
        es.push(
            RelationshipEdge {
                id,
                from: mock_table_id_string(from_ix),
                to: mock_table_id_string(to_ix),
                from_column: mock_col_name_string(1),
                to_column: mock_col_name_string(0),
            },
        );
        proof {
            assert(es@[i as int].from@ == mock_table_id((i % nt) as nat));
            assert(es@[i as int].to@ == mock_table_id(
                (mock_hash(7777, i as u64) % (nt as u64)) as nat,
            ));
        }
        i = i + 1;
    }
    es
}

/// Builds the mock triggers, each on a table of the generated range and
/// referring back to it.
fn mock_triggers(ntr: usize, nt: usize) -> (ts: Vec<Trigger>)
    requires
        1 <= nt,
        ntr < 100000,
    ensures
        ts@.len() == ntr,
        forall|k: int|
            0 <= k < ntr ==> (#[trigger] ts@[k]).id@ == mock_trigger_id(
                (k % (nt as int)) as nat,
                k as nat,
            ),
        forall|k: int|
            0 <= k < ntr ==> (#[trigger] ts@[k]).table_id@ == mock_table_id(
                (k % (nt as int)) as nat,
            ),
        forall|k: int|
            0 <= k < ntr ==> (#[trigger] ts@[k]).referenced_tables@.len() == 1 && ts@[k].referenced_tables@[0]@
                == mock_table_id((k % (nt as int)) as nat),
        forall|k: int|
            0 <= k < ntr ==> (#[trigger] ts@[k]).affected_tables@.len() == 1 && ts@[k].affected_tables@[0]@
                == mock_table_id((k % (nt as int)) as nat),
{
    let mut ts: Vec<Trigger> = Vec::new();
    let mut i: usize = 0;
    while i < ntr
        invariant
            i <= ntr,
            1 <= nt,
            ntr < 100000,
            ts@.len() == i,
            forall|k: int|
                0 <= k < i ==> (#[trigger] ts@[k]).id@ == mock_trigger_id(
                    (k % (nt as int)) as nat,
                    k as nat,
                ),
            forall|k: int|
                0 <= k < i ==> (#[trigger] ts@[k]).table_id@ == mock_table_id(
                    (k % (nt as int)) as nat,
                ),
            forall|k: int|
                0 <= k < i ==> (#[trigger] ts@[k]).referenced_tables@.len() == 1
                    && ts@[k].referenced_tables@[0]@ == mock_table_id((k % (nt as int)) as nat),
            forall|k: int|
                0 <= k < i ==> (#[trigger] ts@[k]).affected_tables@.len() == 1
                    && ts@[k].affected_tables@[0]@ == mock_table_id((k % (nt as int)) as nat),
        decreases ntr - i,
    {
        let t_ix = i % nt;
        let h = mock_hash_exec(31, i as u64);
        let table_id = mock_table_id_string(t_ix);
        let mut name = String::from_str("TR_");
        name.append(u64_to_string(i as u64).as_str());
        let mut id = table_id.clone();
        id.append(".");
        id.append(name.as_str());
        proof {
            reveal_strlit(".");
            assert(id@ =~= mock_trigger_id(t_ix as nat, i as nat));
        }
        let mut definition = String::from_str("UPDATE dbo.Table_");
        definition.append(u64_to_string(t_ix as u64).as_str());
        definition.append(" SET Col_1 = Col_1");
        let mut referenced_tables: Vec<String> = Vec::new();
        referenced_tables.push(table_id.clone());
        let mut affected_tables: Vec<String> = Vec::new();
        affected_tables.push(mock_table_id_string(t_ix));
        ts.push(
            Trigger {
                id,
                name,
                schema: String::from_str("dbo"),
                table_id,
                trigger_type: if h % 4 == 0 {
                    String::from_str("INSTEAD OF")
                } else {
                    String::from_str("AFTER")
                },
                is_disabled: h % 7 == 0,
                fires_on_insert: h % 2 == 0,
                fires_on_update: (h >> 1) % 2 == 0,
                fires_on_delete: (h >> 2) % 2 == 0,
                definition,
                referenced_tables,
                affected_tables,
            },
        );
        i = i + 1;
    }
    ts
}

/// Builds the mock stored procedures, each reading one hash-picked table
/// and writing it on every other index.
fn mock_procedures(np: usize, nt: usize) -> (ps: Vec<StoredProcedure>)
    requires
        1 <= nt,
        np < 100000,
    ensures
        ps@.len() == np,
        forall|k: int| 0 <= k < np ==> (#[trigger] ps@[k]).id@ == mock_procedure_id(k as nat),
        forall|k: int|
            0 <= k < np ==> (#[trigger] ps@[k]).referenced_tables@.len() == 1
                && ps@[k].referenced_tables@[0]@ == mock_table_id(
                (mock_hash(511, k as u64) % (nt as u64)) as nat,
            ),
        forall|k: int|
            0 <= k < np ==> (#[trigger] ps@[k]).affected_tables@.len() == (
            if k % 2 == 1 {
                1int
            } else {
                0int
            }) && (k % 2 == 1 ==> ps@[k].affected_tables@[0]@ == mock_table_id(
                (mock_hash(511, k as u64) % (nt as u64)) as nat,
            )),
{
    let mut ps: Vec<StoredProcedure> = Vec::new();
    let mut i: usize = 0;
    while i < np
        invariant
            i <= np,
            1 <= nt,
            np < 100000,
            ps@.len() == i,
            forall|k: int| 0 <= k < i ==> (#[trigger] ps@[k]).id@ == mock_procedure_id(k as nat),
            forall|k: int|
                0 <= k < i ==> (#[trigger] ps@[k]).referenced_tables@.len() == 1
                    && ps@[k].referenced_tables@[0]@ == mock_table_id(
                    (mock_hash(511, k as u64) % (nt as u64)) as nat,
                ),
            forall|k: int|
                0 <= k < i ==> (#[trigger] ps@[k]).affected_tables@.len() == (
                if k % 2 == 1 {
                    1int
                } else {
                    0int
                }) && (k % 2 == 1 ==> ps@[k].affected_tables@[0]@ == mock_table_id(
                    (mock_hash(511, k as u64) % (nt as u64)) as nat,
                )),
        decreases np - i,
    {
        let h = mock_hash_exec(511, i as u64);
        let target: usize = (h % (nt as u64)) as usize;
        let nparams: usize = 1 + (h % 3) as usize;
        let mut parameters: Vec<crate::schema::ProcedureParameter> = Vec::new();
        let mut j: usize = 0;
        while j < nparams
            invariant
                j <= nparams,
                nparams <= 3,
            decreases nparams - j,
        {
            let mut pname = String::from_str("@p");
            pname.append(u64_to_string(j as u64).as_str());
            parameters.push(
                crate::schema::ProcedureParameter {
                    name: pname,
                    data_type: String::from_str("int"),
                    is_output: false,
                },
            );
            j = j + 1;
        }
        let mut id = String::from_str("dbo.Proc_");
        id.append(u64_to_string(i as u64).as_str());
        proof {
            assert(id@ =~= mock_procedure_id(i as nat));
        }
        let mut name = String::from_str("Proc_");
        name.append(u64_to_string(i as u64).as_str());
        let mut definition = String::from_str("SELECT * FROM dbo.Table_");
        definition.append(u64_to_string(target as u64).as_str());
        let mut referenced_tables: Vec<String> = Vec::new();
        referenced_tables.push(mock_table_id_string(target));
        let mut affected_tables: Vec<String> = Vec::new();
        if i % 2 == 1 {
            affected_tables.push(mock_table_id_string(target));
        }
        ps.push(
            StoredProcedure {
                id,
                name,
                schema: String::from_str("dbo"),
                procedure_type: String::from_str("SQL_STORED_PROCEDURE"),
                parameters,
                definition,
                referenced_tables,
                affected_tables,
            },
        );
        proof {
            assert(ps@[i as int].referenced_tables@[0]@ == mock_table_id(
                (mock_hash(511, i as u64) % (nt as u64)) as nat,
            ));
            if i % 2 == 1 {
                assert(ps@[i as int].affected_tables@[0]@ == mock_table_id(
                    (mock_hash(511, i as u64) % (nt as u64)) as nat,
                ));
            }
        }
        i = i + 1;
    }
    ps
}

/// Builds the mock scalar functions, each reading one hash-picked table.
fn mock_functions(nf: usize, nt: usize) -> (fs: Vec<ScalarFunction>)
    requires
        1 <= nt,
        nf < 100000,
    ensures
        fs@.len() == nf,
        forall|k: int| 0 <= k < nf ==> (#[trigger] fs@[k]).id@ == mock_function_id(k as nat),
        forall|k: int|
            0 <= k < nf ==> (#[trigger] fs@[k]).referenced_tables@.len() == 1
                && fs@[k].referenced_tables@[0]@ == mock_table_id(
                (mock_hash(97, k as u64) % (nt as u64)) as nat,
            ),
        forall|k: int| 0 <= k < nf ==> (#[trigger] fs@[k]).affected_tables@.len() == 0,
{
    let mut fs: Vec<ScalarFunction> = Vec::new();
    let mut i: usize = 0;
    while i < nf
        invariant
            i <= nf,
            1 <= nt,
            nf < 100000,
            fs@.len() == i,
            forall|k: int| 0 <= k < i ==> (#[trigger] fs@[k]).id@ == mock_function_id(k as nat),
            forall|k: int|
                0 <= k < i ==> (#[trigger] fs@[k]).referenced_tables@.len() == 1
                    && fs@[k].referenced_tables@[0]@ == mock_table_id(
                    (mock_hash(97, k as u64) % (nt as u64)) as nat,
                ),
            forall|k: int| 0 <= k < i ==> (#[trigger] fs@[k]).affected_tables@.len() == 0,
        decreases nf - i,
    {
        let h = mock_hash_exec(97, i as u64);
        let target: usize = (h % (nt as u64)) as usize;
        let mut id = String::from_str("dbo.Fn_");
        id.append(u64_to_string(i as u64).as_str());
        proof {
            assert(id@ =~= mock_function_id(i as nat));
        }
        let mut name = String::from_str("Fn_");
        name.append(u64_to_string(i as u64).as_str());
        let mut definition = String::from_str("SELECT COUNT(*) FROM dbo.Table_");
        definition.append(u64_to_string(target as u64).as_str());
        let mut parameters: Vec<crate::schema::ProcedureParameter> = Vec::new();
        parameters.push(
            crate::schema::ProcedureParameter {
                name: String::from_str("@value"),
                data_type: String::from_str("int"),
                is_output: false,
            },
        );
        let mut referenced_tables: Vec<String> = Vec::new();
        referenced_tables.push(mock_table_id_string(target));
        fs.push(
            ScalarFunction {
                id,
                name,
                schema: String::from_str("dbo"),
                function_type: String::from_str("SQL_SCALAR_FUNCTION"),
                parameters,
                definition,
                referenced_tables,
                affected_tables: Vec::new(),
                return_type: String::from_str("int"),
            },
        );
        proof {
            assert(fs@[i as int].referenced_tables@[0]@ == mock_table_id(
                (mock_hash(97, i as u64) % (nt as u64)) as nat,
            ));
        }
        i = i + 1;
    }
    fs
}

/// A generated table's id is among the graph's table ids.
proof fn lemma_mock_tid_in(g: SchemaGraph, t: int)
    requires
        0 <= t < g.tables@.len(),
        g.tables@[t].id@ == mock_table_id(t as nat),
    ensures
        table_id_set(g).contains(mock_table_id(t as nat)),
        crate::schema::object_id_set(g).contains(mock_table_id(t as nat)),
{
    assert(table_ids(g.tables@)[t] == mock_table_id(t as nat));
    assert(table_ids(g.tables@).contains(mock_table_id(t as nat)));
    assert(table_ids(g.tables@).to_set().contains(mock_table_id(t as nat)));
}

/// Produces the deterministic mock schema graph for a size preset.
///
/// Two invocations with the same preset produce the same graph: nothing
/// here reads input, time or randomness.  Table column counts follow the
/// five-tier rule, so the first five tables carry 100, 150, 200, 250 and
/// 300 columns and every count lies within that range.  Edge ids are
/// unique; every edge endpoint and trigger table is a generated table;
/// every reference list names generated tables; object ids are unique
/// across all categories; and columns are uniquely named within each
/// entity.
pub fn load_schema_mock(size: &str) -> (g: SchemaGraph)
    requires
        is_mock_size(size@),
    ensures
        g.tables@.len() == mock_table_count(size@),
        g.views@.len() == mock_view_count(size@),
        g.relationships@.len() == mock_edge_count(size@),
        g.triggers@.len() == mock_trigger_count(size@),
        g.stored_procedures@.len() == mock_procedure_count(size@),
        g.scalar_functions@.len() == mock_function_count(size@),
        forall|k: int|
            0 <= k < g.tables@.len() ==> (#[trigger] g.tables@[k]).columns@.len() == 100 + 50 * (k
                % 5),
        g.relationships@.map_values(|e: RelationshipEdge| e.id@).no_duplicates(),
        edges_closed(g),
        triggers_closed(g),
        references_closed(g),
        crate::schema::ids_unique(g),
        crate::schema::columns_unique(g),
{
    let counts: (usize, usize, usize, usize, usize, usize) = if str_eq(size, "small") {
        (10, 2, 8, 3, 4, 2)
    } else if str_eq(size, "medium") {
        (50, 10, 40, 10, 15, 5)
    } else if str_eq(size, "large") {
        (250, 40, 200, 40, 60, 20)
    } else {
        (1500, 150, 1200, 150, 300, 100)
    };
    let nt: usize = counts.0;
    let nv: usize = counts.1;
    let ne: usize = counts.2;
    let ntr: usize = counts.3;
    let np: usize = counts.4;
    let nf: usize = counts.5;
    proof {
        assert(nt as int == mock_table_count(size@));
        assert(nv as int == mock_view_count(size@));
        assert(ne as int == mock_edge_count(size@));
        assert(ntr as int == mock_trigger_count(size@));
        assert(np as int == mock_procedure_count(size@));
        assert(nf as int == mock_function_count(size@));
    }
    let tables = mock_tables(nt);
    let views = mock_views(nv, nt);
    let relationships = mock_edges(ne, nt);
    let triggers = mock_triggers(ntr, nt);
    let stored_procedures = mock_procedures(np, nt);
    let scalar_functions = mock_functions(nf, nt);
    let g = SchemaGraph {
        tables,
        views,
        relationships,
        triggers,
        stored_procedures,
        scalar_functions,
    };
    proof {
        let tids = table_id_set(g);
        let oids = crate::schema::object_id_set(g);

        assert(edges_closed(g)) by {
            assert forall|k: int|
                0 <= k < g.relationships.len() implies tids.contains(
                (#[trigger] g.relationships[k]).from@,
            ) && tids.contains(g.relationships[k].to@) by {
                let a = k % (nt as int);
                let b = (mock_hash(7777, k as u64) % (nt as u64)) as int;
                assert(g.relationships@[k].from@ == mock_table_id(a as nat));
                assert(g.relationships@[k].to@ == mock_table_id(b as nat));
                assert(g.tables@[a].id@ == mock_table_id(a as nat));
                assert(g.tables@[b].id@ == mock_table_id(b as nat));
                lemma_mock_tid_in(g, a);
                lemma_mock_tid_in(g, b);
            }
        }
        assert(triggers_closed(g)) by {
            assert forall|k: int| 0 <= k < g.triggers.len() implies tids.contains(
                (#[trigger] g.triggers[k]).table_id@,
            ) by {
                let a = k % (nt as int);
                assert(g.triggers@[k].table_id@ == mock_table_id(a as nat));
                assert(g.tables@[a].id@ == mock_table_id(a as nat));
                lemma_mock_tid_in(g, a);
            }
        }
        assert forall|k: int| 0 <= k < g.views.len() implies crate::schema::refs_within(
            (#[trigger] g.views[k]).referenced_tables@,
            oids,
        ) by {
            let a = (mock_hash(9001, k as u64) % (nt as u64)) as int;
            assert(g.views@[k].referenced_tables@[0]@ == mock_table_id(a as nat));
            assert(g.tables@[a].id@ == mock_table_id(a as nat));
            lemma_mock_tid_in(g, a);
        }
        assert forall|k: int| 0 <= k < g.triggers.len() implies crate::schema::refs_within(
            (#[trigger] g.triggers[k]).referenced_tables@,
            oids,
        ) && crate::schema::refs_within(g.triggers[k].affected_tables@, oids) by {
            let a = k % (nt as int);
            assert(g.triggers@[k].referenced_tables@[0]@ == mock_table_id(a as nat));
            assert(g.triggers@[k].affected_tables@[0]@ == mock_table_id(a as nat));
            assert(g.tables@[a].id@ == mock_table_id(a as nat));
            lemma_mock_tid_in(g, a);
        }
        assert forall|k: int|
            0 <= k < g.stored_procedures.len() implies crate::schema::refs_within(
            (#[trigger] g.stored_procedures[k]).referenced_tables@,
            oids,
        ) && crate::schema::refs_within(g.stored_procedures[k].affected_tables@, oids) by {
            let a = (mock_hash(511, k as u64) % (nt as u64)) as int;
            assert(g.stored_procedures@[k].referenced_tables@[0]@ == mock_table_id(a as nat));
            if k % 2 == 1 {
                assert(g.stored_procedures@[k].affected_tables@[0]@ == mock_table_id(a as nat));
            }
            assert(g.tables@[a].id@ == mock_table_id(a as nat));
            lemma_mock_tid_in(g, a);
        }
        assert forall|k: int|
            0 <= k < g.scalar_functions.len() implies crate::schema::refs_within(
            (#[trigger] g.scalar_functions[k]).referenced_tables@,
            oids,
        ) && crate::schema::refs_within(g.scalar_functions[k].affected_tables@, oids) by {
            let a = (mock_hash(97, k as u64) % (nt as u64)) as int;
            assert(g.scalar_functions@[k].referenced_tables@[0]@ == mock_table_id(a as nat));
            assert(g.tables@[a].id@ == mock_table_id(a as nat));
            lemma_mock_tid_in(g, a);
        }

                let eids = g.relationships@.map_values(|e: RelationshipEdge| e.id@);
        assert forall|i: int, j: int|
            0 <= i < eids.len() && 0 <= j < eids.len() && i != j implies eids[i] != eids[j] by {
            assert(eids[i] == mock_edge_id(i as nat));
            assert(eids[j] == mock_edge_id(j as nat));
            if eids[i] == eids[j] {
                lemma_mock_edge_id_injective(i as nat, j as nat);
            }
        }

        let ta = table_ids(g.tables@);
        let vb = view_ids(g.views@);
        let tc = crate::laws::trigger_ids(g);
        let pd = crate::laws::procedure_ids(g);
        let fe = crate::laws::function_ids(g);
        assert forall|i: int, j: int|
            0 <= i < ta.len() && 0 <= j < ta.len() && i != j implies ta[i] != ta[j] by {
            assert(ta[i] == mock_table_id(i as nat));
            assert(ta[j] == mock_table_id(j as nat));
            if ta[i] == ta[j] {
                lemma_mock_table_id_injective(i as nat, j as nat);
            }
        }
        assert forall|i: int, j: int|
            0 <= i < vb.len() && 0 <= j < vb.len() && i != j implies vb[i] != vb[j] by {
            assert(vb[i] == mock_view_id(i as nat));
            assert(vb[j] == mock_view_id(j as nat));
            if vb[i] == vb[j] {
                lemma_mock_view_id_injective(i as nat, j as nat);
            }
        }
        assert forall|i: int, j: int|
            0 <= i < tc.len() && 0 <= j < tc.len() && i != j implies tc[i] != tc[j] by {
            assert(tc[i] == mock_trigger_id((i % (nt as int)) as nat, i as nat));
            assert(tc[j] == mock_trigger_id((j % (nt as int)) as nat, j as nat));
            if tc[i] == tc[j] {
                lemma_mock_trigger_id_injective(
                    (i % (nt as int)) as nat,
                    i as nat,
                    (j % (nt as int)) as nat,
                    j as nat,
                );
            }
        }
        assert forall|i: int, j: int|
            0 <= i < pd.len() && 0 <= j < pd.len() && i != j implies pd[i] != pd[j] by {
            assert(pd[i] == mock_procedure_id(i as nat));
            assert(pd[j] == mock_procedure_id(j as nat));
            if pd[i] == pd[j] {
                lemma_mock_procedure_id_injective(i as nat, j as nat);
            }
        }
        assert forall|i: int, j: int|
            0 <= i < fe.len() && 0 <= j < fe.len() && i != j implies fe[i] != fe[j] by {
            assert(fe[i] == mock_function_id(i as nat));
            assert(fe[j] == mock_function_id(j as nat));
            if fe[i] == fe[j] {
                lemma_mock_function_id_injective(i as nat, j as nat);
            }
        }
        assert forall|i: int, j: int| 0 <= i < ta.len() && 0 <= j < vb.len() implies ta[i]
            != vb[j] by {
            lemma_mock_categories_differ(i as nat, j as nat, 0, 0, 0, 0);
        }
        assert forall|i: int, j: int| 0 <= i < ta.len() && 0 <= j < tc.len() implies ta[i]
            != tc[j] by {
            lemma_mock_categories_differ(i as nat, 0, (j % (nt as int)) as nat, j as nat, 0, 0);
        }
        assert forall|i: int, j: int| 0 <= i < ta.len() && 0 <= j < pd.len() implies ta[i]
            != pd[j] by {
            lemma_mock_categories_differ(i as nat, 0, 0, 0, j as nat, 0);
        }
        assert forall|i: int, j: int| 0 <= i < ta.len() && 0 <= j < fe.len() implies ta[i]
            != fe[j] by {
            lemma_mock_categories_differ(i as nat, 0, 0, 0, 0, j as nat);
        }
        assert forall|i: int, j: int| 0 <= i < vb.len() && 0 <= j < tc.len() implies vb[i]
            != tc[j] by {
            lemma_mock_categories_differ(0, i as nat, (j % (nt as int)) as nat, j as nat, 0, 0);
        }
        assert forall|i: int, j: int| 0 <= i < vb.len() && 0 <= j < pd.len() implies vb[i]
            != pd[j] by {
            lemma_mock_categories_differ(0, i as nat, 0, 0, j as nat, 0);
        }
        assert forall|i: int, j: int| 0 <= i < vb.len() && 0 <= j < fe.len() implies vb[i]
            != fe[j] by {
            lemma_mock_categories_differ(0, i as nat, 0, 0, 0, j as nat);
        }
        assert forall|i: int, j: int| 0 <= i < tc.len() && 0 <= j < pd.len() implies tc[i]
            != pd[j] by {
            lemma_mock_categories_differ(0, 0, (i % (nt as int)) as nat, i as nat, j as nat, 0);
        }
        assert forall|i: int, j: int| 0 <= i < tc.len() && 0 <= j < fe.len() implies tc[i]
            != fe[j] by {
            lemma_mock_categories_differ(0, 0, (i % (nt as int)) as nat, i as nat, 0, j as nat);
        }
        assert forall|i: int, j: int| 0 <= i < pd.len() && 0 <= j < fe.len() implies pd[i]
            != fe[j] by {
            lemma_mock_categories_differ(0, 0, 0, 0, i as nat, j as nat);
        }
        crate::laws::lemma_object_ids_unique(g);

        assert forall|k: int| 0 <= k < g.views.len() implies column_names(
            (#[trigger] g.views[k]).columns@,
        ).no_duplicates() by {
            assert(column_names(g.views@[k].columns@).no_duplicates());
        }
    }
    g
}

} // verus!
