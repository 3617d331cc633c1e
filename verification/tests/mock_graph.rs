use std::collections::HashSet;
use schema_graph::load_schema_mock;
use schema_graph::SchemaGraph;

fn assert_same_graph(a: &SchemaGraph, b: &SchemaGraph) {
    assert_eq!(a.tables.len(), b.tables.len());
    assert_eq!(a.views.len(), b.views.len());
    assert_eq!(a.relationships.len(), b.relationships.len());
    assert_eq!(a.triggers.len(), b.triggers.len());
    assert_eq!(a.stored_procedures.len(), b.stored_procedures.len());
    assert_eq!(a.scalar_functions.len(), b.scalar_functions.len());
    for (ta, tb) in a.tables.iter().zip(b.tables.iter()) {
        assert_eq!(ta.id, tb.id);
        assert_eq!(ta.columns.len(), tb.columns.len());
        for (ca, cb) in ta.columns.iter().zip(tb.columns.iter()) {
            assert_eq!(ca.name, cb.name);
            assert_eq!(ca.data_type, cb.data_type);
            assert_eq!(ca.is_nullable, cb.is_nullable);
            assert_eq!(ca.is_primary_key, cb.is_primary_key);
        }
    }
    for (va, vb) in a.views.iter().zip(b.views.iter()) {
        assert_eq!(va.id, vb.id);
        assert_eq!(va.definition, vb.definition);
        assert_eq!(va.referenced_tables, vb.referenced_tables);
    }
    for (ea, eb) in a.relationships.iter().zip(b.relationships.iter()) {
        assert_eq!(ea.id, eb.id);
        assert_eq!(ea.from, eb.from);
        assert_eq!(ea.to, eb.to);
    }
    for (ta, tb) in a.triggers.iter().zip(b.triggers.iter()) {
        assert_eq!(ta.id, tb.id);
        assert_eq!(ta.fires_on_insert, tb.fires_on_insert);
        assert_eq!(ta.fires_on_update, tb.fires_on_update);
        assert_eq!(ta.fires_on_delete, tb.fires_on_delete);
    }
    for (pa, pb) in a.stored_procedures.iter().zip(b.stored_procedures.iter()) {
        assert_eq!(pa.id, pb.id);
        assert_eq!(pa.parameters.len(), pb.parameters.len());
        assert_eq!(pa.referenced_tables, pb.referenced_tables);
        assert_eq!(pa.affected_tables, pb.affected_tables);
    }
    for (fa, fb) in a.scalar_functions.iter().zip(b.scalar_functions.iter()) {
        assert_eq!(fa.id, fb.id);
        assert_eq!(fa.return_type, fb.return_type);
    }
}

#[test]
fn mock_is_deterministic_per_preset() {
    for preset in ["small", "medium"] {
        let a = load_schema_mock(preset);
        let b = load_schema_mock(preset);
        assert_same_graph(&a, &b);
    }
}

#[test]
fn mock_small_counts() {
    let g = load_schema_mock("small");
    assert_eq!(g.tables.len(), 10);
    assert_eq!(g.views.len(), 2);
    assert_eq!(g.relationships.len(), 8);
    assert_eq!(g.triggers.len(), 3);
    assert_eq!(g.stored_procedures.len(), 4);
    assert_eq!(g.scalar_functions.len(), 2);
}

#[test]
fn mock_first_five_column_counts_follow_the_tiers() {
    let g = load_schema_mock("medium");
    let counts: Vec<usize> = g.tables.iter().take(5).map(|t| t.columns.len()).collect();
    assert_eq!(counts, vec![100, 150, 200, 250, 300]);
    assert!(g.tables.iter().all(|t| t.columns.len() >= 5 && t.columns.len() <= 300));
}

#[test]
fn mock_edge_ids_are_unique_and_endpoints_exist() {
    let g = load_schema_mock("medium");
    let table_ids: HashSet<&str> = g.tables.iter().map(|t| t.id.as_str()).collect();
    let mut edge_ids: HashSet<&str> = HashSet::new();
    for e in &g.relationships {
        assert!(edge_ids.insert(e.id.as_str()), "duplicate edge id {}", e.id);
        assert!(table_ids.contains(e.from.as_str()));
        assert!(table_ids.contains(e.to.as_str()));
    }
}

#[test]
fn mock_object_ids_are_unique_across_categories() {
    let g = load_schema_mock("small");
    let mut ids: HashSet<String> = HashSet::new();
    for t in &g.tables {
        assert!(ids.insert(t.id.clone()));
    }
    for v in &g.views {
        assert!(ids.insert(v.id.clone()));
    }
    for t in &g.triggers {
        assert!(ids.insert(t.id.clone()));
    }
    for p in &g.stored_procedures {
        assert!(ids.insert(p.id.clone()));
    }
    for f in &g.scalar_functions {
        assert!(ids.insert(f.id.clone()));
    }
}

#[test]
fn mock_triggers_sit_on_generated_tables() {
    let g = load_schema_mock("small");
    let table_ids: HashSet<&str> = g.tables.iter().map(|t| t.id.as_str()).collect();
    for t in &g.triggers {
        assert!(table_ids.contains(t.table_id.as_str()));
    }
}

#[test]
fn mock_references_stay_within_the_graph() {
    let g = load_schema_mock("medium");
    let mut object_ids: HashSet<&str> = g.tables.iter().map(|t| t.id.as_str()).collect();
    object_ids.extend(g.views.iter().map(|v| v.id.as_str()));
    for v in &g.views {
        assert!(v.referenced_tables.iter().all(|r| object_ids.contains(r.as_str())));
    }
    for t in &g.triggers {
        assert!(t.referenced_tables.iter().all(|r| object_ids.contains(r.as_str())));
        assert!(t.affected_tables.iter().all(|r| object_ids.contains(r.as_str())));
    }
    for p in &g.stored_procedures {
        assert!(p.referenced_tables.iter().all(|r| object_ids.contains(r.as_str())));
        assert!(p.affected_tables.iter().all(|r| object_ids.contains(r.as_str())));
    }
    for f in &g.scalar_functions {
        assert!(f.referenced_tables.iter().all(|r| object_ids.contains(r.as_str())));
        assert!(f.affected_tables.is_empty());
    }
}

#[test]
fn mock_columns_are_uniquely_named() {
    let g = load_schema_mock("small");
    for t in &g.tables {
        let names: HashSet<&str> = t.columns.iter().map(|c| c.name.as_str()).collect();
        assert_eq!(names.len(), t.columns.len());
    }
    for v in &g.views {
        let names: HashSet<&str> = v.columns.iter().map(|c| c.name.as_str()).collect();
        assert_eq!(names.len(), v.columns.len());
    }
}

#[test]
fn mock_large_and_stress_scale() {
    let large = load_schema_mock("large");
    assert_eq!(large.tables.len(), 250);
    let stress = load_schema_mock("stress");
    assert_eq!(stress.tables.len(), 1500);
    assert_eq!(stress.relationships.len(), 1200);
}
