//! Holds the hand-written reference scanner against the regex rules it
//! replaces: on the same definition and name index, the union of the reads
//! and writes the library extracts must equal the set the original
//! case-insensitive patterns resolve.

use std::collections::{HashMap, HashSet};
use regex::Regex;
use schema_graph::extract_table_references;
use schema_graph::refs::NameIndex;

const PATTERNS: [&str; 5] = [
    r"(?i)\bFROM\s+(?:\[?(\w+)\]?\.)?\[?(\w+)\]?",
    r"(?i)\bJOIN\s+(?:\[?(\w+)\]?\.)?\[?(\w+)\]?",
    r"(?i)\bINSERT\s+INTO\s+(?:\[?(\w+)\]?\.)?\[?(\w+)\]?",
    r"(?i)\bUPDATE\s+(?:\[?(\w+)\]?\.)?\[?(\w+)\]?",
    r"(?i)\bDELETE\s+FROM\s+(?:\[?(\w+)\]?\.)?\[?(\w+)\]?",
];

fn regex_references(definition: &str, name_to_id: &HashMap<String, String>) -> HashSet<String> {
    let mut refs: HashSet<String> = HashSet::new();
    for pattern in PATTERNS {
        let re = Regex::new(pattern).expect("pattern compiles");
        for cap in re.captures_iter(definition) {
            let schema = cap.get(1).map(|m| m.as_str());
            if let Some(table) = cap.get(2).map(|m| m.as_str()) {
                let lookup_key = if let Some(s) = schema {
                    format!("{}.{}", s, table).to_lowercase()
                } else {
                    table.to_lowercase()
                };
                if let Some(id) = name_to_id.get(&lookup_key) {
                    refs.insert(id.clone());
                }
            }
        }
    }
    refs
}

fn check_parity(definition: &str, entries: &[(&str, &str)]) {
    let mut map: HashMap<String, String> = HashMap::new();
    let mut index = NameIndex::new();
    for (key, id) in entries {
        map.insert(key.to_lowercase(), id.to_string());
        index.insert(key, id);
    }
    let expected = regex_references(definition, &map);
    let (reads, writes) = extract_table_references(definition, &index);
    let mut actual: HashSet<String> = reads.into_iter().collect();
    actual.extend(writes);
    assert_eq!(actual, expected, "definition: {definition:?}");
}

const ENTRIES: [(&str, &str); 6] = [
    ("orders", "dbo.Orders"),
    ("dbo.orders", "dbo.Orders"),
    ("customers", "dbo.Customers"),
    ("dbo.customers", "dbo.Customers"),
    ("archive", "audit.Archive"),
    ("audit.archive", "audit.Archive"),
];

#[test]
fn parity_on_plain_queries() {
    check_parity("SELECT * FROM Orders", &ENTRIES);
    check_parity("SELECT * FROM dbo.Orders o JOIN Customers c ON o.Id = c.Id", &ENTRIES);
    check_parity("select 1 from orders; select 2 from customers", &ENTRIES);
}

#[test]
fn parity_on_bracketed_and_mixed_case_names() {
    check_parity("SELECT * FROM [dbo].[Orders]", &ENTRIES);
    check_parity("SELECT * FROM [Orders] JOIN [dbo].[Customers] ON 1=1", &ENTRIES);
    check_parity("sElEcT * FrOm DBO.ORDERS", &ENTRIES);
}

#[test]
fn parity_on_writes() {
    check_parity(
        "INSERT INTO audit.Archive SELECT * FROM dbo.Orders; DELETE FROM dbo.Orders WHERE 1=1",
        &ENTRIES,
    );
    check_parity("UPDATE Orders SET Total = 0", &ENTRIES);
    check_parity("UPDATE\n  dbo.Orders\nSET Total = 0", &ENTRIES);
}

#[test]
fn parity_on_near_misses() {
    check_parity("SELECT PERFROM Orders", &ENTRIES);
    check_parity("IF UPDATE(Price) SELECT 1", &ENTRIES);
    check_parity("SELECT * FROM (SELECT 1) x", &ENTRIES);
    check_parity("", &ENTRIES);
    check_parity("FROM x.", &ENTRIES);
    check_parity("DELETE  FROM   [dbo] . [Orders]", &ENTRIES);
}

#[test]
fn parity_on_trigger_bodies() {
    check_parity(
        "CREATE TRIGGER TR ON dbo.Orders AFTER INSERT AS BEGIN \
         INSERT INTO audit.Archive (Id) SELECT Id FROM inserted; \
         UPDATE dbo.Customers SET LastOrder = GETDATE() FROM inserted i \
         WHERE dbo.Customers.Id = i.CustomerId; END",
        &ENTRIES,
    );
}
