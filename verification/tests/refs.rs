use schema_graph::refs::NameIndex;
use schema_graph::extract_table_references;

fn sorted(mut v: Vec<String>) -> Vec<String> {
    v.sort();
    v
}

#[test]
fn unqualified_read_resolves_through_short_name() {
    let mut index = NameIndex::new();
    index.insert("orders", "dbo.Orders");
    index.insert("dbo.orders", "dbo.Orders");

    let (reads, writes) = extract_table_references(
        "SELECT * FROM Orders o JOIN [dbo].[Customers] c ON o.CustomerId = c.Id",
        &index,
    );
    assert_eq!(reads, vec!["dbo.Orders".to_string()]);
    assert!(writes.is_empty());
}

#[test]
fn writes_and_reads_are_classified() {
    let mut index = NameIndex::new();
    index.insert("orders", "dbo.Orders");
    index.insert("dbo.orders", "dbo.Orders");
    index.insert("archive", "dbo.Archive");
    index.insert("dbo.archive", "dbo.Archive");

    let (reads, writes) = extract_table_references(
        "INSERT INTO dbo.Archive SELECT * FROM dbo.Orders; DELETE FROM dbo.Orders WHERE OrderDate < @cutoff",
        &index,
    );
    assert_eq!(reads, vec!["dbo.Orders".to_string()]);
    assert_eq!(
        sorted(writes),
        vec!["dbo.Archive".to_string(), "dbo.Orders".to_string()]
    );
}

#[test]
fn empty_definition_has_no_references() {
    let mut index = NameIndex::new();
    index.insert("orders", "dbo.Orders");

    let (reads, writes) = extract_table_references("", &index);
    assert!(reads.is_empty());
    assert!(writes.is_empty());
}

#[test]
fn keywords_match_without_regard_to_case() {
    let mut index = NameIndex::new();
    index.insert("orders", "dbo.Orders");

    let (reads, writes) = extract_table_references("select * from ORDERS; update Orders set X = 1", &index);
    assert_eq!(reads, vec!["dbo.Orders".to_string()]);
    assert_eq!(writes, vec!["dbo.Orders".to_string()]);
}

#[test]
fn unresolved_names_are_discarded() {
    let index = NameIndex::new();
    let (reads, writes) = extract_table_references(
        "SELECT * FROM Unknown; INSERT INTO AlsoUnknown VALUES (1)",
        &index,
    );
    assert!(reads.is_empty());
    assert!(writes.is_empty());
}

#[test]
fn keyword_needs_a_word_boundary() {
    let mut index = NameIndex::new();
    index.insert("orders", "dbo.Orders");

    // `PERFROM` must not count as `FROM`.
    let (reads, _) = extract_table_references("SELECT PERFROM Orders", &index);
    assert!(reads.is_empty());
}

#[test]
fn later_index_insertions_win() {
    let mut index = NameIndex::new();
    index.insert("orders", "first.Orders");
    index.insert("orders", "second.Orders");

    let (reads, _) = extract_table_references("SELECT * FROM orders", &index);
    assert_eq!(reads, vec!["second.Orders".to_string()]);
}

#[test]
fn references_are_deduplicated() {
    let mut index = NameIndex::new();
    index.insert("orders", "dbo.Orders");

    let (reads, _) = extract_table_references(
        "SELECT * FROM Orders; SELECT * FROM orders JOIN ORDERS ON 1 = 1",
        &index,
    );
    assert_eq!(reads, vec!["dbo.Orders".to_string()]);
}
