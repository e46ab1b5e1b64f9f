use docworks::coherence::adapter::EntityAdapter;
use docworks::coherence::engine::CoherenceEngine;
use docworks::coherence::graph::{EntityGraph, EntityType};
use docworks::coherence::manifest::Manifest;
use docworks::hashing::compute_hash;
use std::collections::HashSet;

fn custom() -> EntityType {
    EntityType::Custom("test".to_string())
}

fn strings(v: &[&str]) -> Vec<String> {
    v.iter().map(|s| s.to_string()).collect()
}

#[test]
fn test_compute_hash_deterministic() {
    let h1 = compute_hash("hello");
    let h2 = compute_hash("hello");
    assert_eq!(h1, h2);
}

#[test]
fn test_compute_hash_different() {
    let h1 = compute_hash("hello");
    let h2 = compute_hash("world");
    assert_ne!(h1, h2);
}

#[test]
fn compute_hash_known_value() {
    assert_eq!(
        compute_hash("hello"),
        "2cf24dba5fb0a30e26e83b2ac5b9e29e1b161e5c1fa7425e73043362938b9824"
    );
    assert_eq!(
        compute_hash(""),
        "e3b0c44298fc1c149afbf4c8996fb92427ae41e4649b934ca495991b7852b855"
    );
}

#[test]
fn test_entity_graph_add_and_propagate() {
    let mut graph = EntityGraph::new();
    graph.add_entity("root", Some("value"), custom());
    graph.add_entity("dep1", None, custom());
    graph.add_entity("dep2", None, custom());
    graph.add_dependency("dep1", "root");
    graph.add_dependency("dep2", "root");

    let updates = graph.propagate_edit("root", "new_value").unwrap();
    assert_eq!(updates.len(), 3);
    assert_eq!(updates[0].entity_id, "root");
    assert_eq!(updates[0].new_value.as_deref(), Some("new_value"));
    assert_eq!(updates[0].depth, 0);
    assert_eq!(updates[1].depth, 1);
    assert_eq!(updates[2].depth, 1);
}

#[test]
fn test_entity_graph_cycle_detection() {
    let mut graph = EntityGraph::new();
    graph.add_entity("a", Some("1"), custom());
    graph.add_entity("b", None, custom());
    graph.add_entity("c", None, custom());
    graph.add_dependency("b", "a");
    graph.add_dependency("c", "b");
    graph.add_dependency("a", "c");

    let updates = graph.propagate_edit("a", "new").unwrap();
    let visited: HashSet<&str> = updates.iter().map(|u| u.entity_id.as_str()).collect();
    assert!(visited.contains("a"));
    assert!(visited.contains("b"));
    assert!(visited.contains("c"));
    assert!(updates.len() <= 3);
    assert!(updates.iter().all(|u| u.depth <= 3));
}

#[test]
fn test_max_depth_enforced() {
    let mut graph = EntityGraph::new();
    graph.add_entity("root", Some("x"), custom());
    graph.add_entity("a", None, custom());
    graph.add_entity("b", None, custom());
    graph.add_entity("c", None, custom());
    graph.add_entity("d", None, custom());
    graph.add_dependency("a", "root");
    graph.add_dependency("b", "a");
    graph.add_dependency("c", "b");
    graph.add_dependency("d", "c");

    let updates = graph.propagate_edit("root", "y").unwrap();
    let max_depth = updates.iter().map(|u| u.depth).max().unwrap_or(0);
    assert!(max_depth <= 3);
}

#[test]
fn chain_beyond_max_depth_is_cut() {
    let mut graph = EntityGraph::new();
    for id in ["root", "a", "b", "c", "d"] {
        graph.add_entity(id, None, custom());
    }
    graph.add_dependency("a", "root");
    graph.add_dependency("b", "a");
    graph.add_dependency("c", "b");
    graph.add_dependency("d", "c");
    let updates = graph.propagate_edit("root", "y").unwrap();
    let ids: Vec<&str> = updates.iter().map(|u| u.entity_id.as_str()).collect();
    assert_eq!(ids, vec!["root", "a", "b", "c"]);
    let depths: Vec<usize> = updates.iter().map(|u| u.depth).collect();
    assert_eq!(depths, vec![0, 1, 2, 3]);
    assert_eq!(graph.nodes[0].value.as_deref(), Some("y"));
    assert_eq!(graph.nodes[0].hash.as_deref(), Some(compute_hash("y").as_str()));
}

#[test]
fn add_entity_keeps_existing_node() {
    let mut graph = EntityGraph::new();
    graph.add_entity("x", Some("first"), EntityType::Cell);
    graph.add_entity("x", Some("second"), EntityType::Chart);
    assert_eq!(graph.nodes.len(), 1);
    assert_eq!(graph.nodes[0].value.as_deref(), Some("first"));
    assert_eq!(graph.nodes[0].entity_type.as_str(), "cell");
    graph.add_dependency("y", "x");
    graph.add_dependency("y", "x");
    assert_eq!(graph.nodes[0].dependents, vec!["y".to_string()]);
    let deps = graph.get_dependents("x");
    assert!(deps.is_empty());
}

#[test]
fn test_entity_adapter_cell_roundtrip() {
    let entity_id = EntityAdapter::cell_to_entity("Sheet1", "A1");
    assert_eq!(entity_id, "cell_Sheet1_A1");
    let parsed = EntityAdapter::parse_cell_entity(&entity_id);
    assert_eq!(parsed, Some(("Sheet1".to_string(), "A1".to_string())));
}

#[test]
fn test_entity_adapter_section() {
    let entity_id = EntityAdapter::section_to_entity("report", "s2");
    assert_eq!(entity_id, "section_report_s2");
}

#[test]
fn test_entity_adapter_slide() {
    let entity_id = EntityAdapter::slide_to_entity("deck", 5);
    assert_eq!(entity_id, "slide_deck_5");
}

#[test]
fn adapter_parse_and_types() {
    assert_eq!(EntityAdapter::parse_cell_entity("cell_only"), None);
    assert_eq!(EntityAdapter::parse_cell_entity("row_S_A1"), None);
    assert_eq!(
        EntityAdapter::parse_cell_entity("cell_S_A_1"),
        Some(("S".to_string(), "A_1".to_string()))
    );
    assert_eq!(EntityAdapter::entity_type_from_id("header_x").as_str(), "header");
    assert_eq!(EntityAdapter::entity_type_from_id("chart").as_str(), "chart");
    assert_eq!(EntityAdapter::entity_type_from_id("weird_thing").as_str(), "weird");
    assert_eq!(EntityAdapter::slide_to_entity("d", 1234567890), "slide_d_1234567890");
}

#[test]
fn test_manifest_create_update_save_load() {
    let mut manifest = Manifest::new("test.xlsx");
    manifest.update_entity("cell_A1", "Revenue");
    manifest.update_entity("cell_B1", "=A1*2");
    assert_eq!(manifest.entities.len(), 2);
    assert_eq!(manifest.get_entity("cell_A1").unwrap().value, "Revenue");
}

#[test]
fn manifest_update_replaces_and_dependencies_append() {
    let mut m = Manifest::new("f.xlsx");
    let h = m.update_entity("e", "v1");
    assert_eq!(h, compute_hash("v1"));
    m.update_entity("e", "v2");
    assert_eq!(m.entities.len(), 1);
    assert_eq!(m.get_entity("e").unwrap().value, "v2");
    m.add_dependency("a", "e");
    m.add_dependency("b", "e");
    assert_eq!(m.dependents_of("e"), vec!["a".to_string(), "b".to_string()]);
    assert!(m.get_entity("missing").is_none());
    assert_eq!(Manifest::manifest_path("/x/y.docx"), "/x/y.docx.coherence-map.json");
}

#[test]
fn test_stale_detection() {
    let result = CoherenceEngine::check_consistency(None);
    assert_eq!(result.status, "no_manifest");

    let (mut manifest, _) = CoherenceEngine::propagate(
        "stale.xlsx",
        None,
        "cell_A1",
        "Original",
        &strings(&["cell_B1"]),
    );
    let check = CoherenceEngine::check_consistency(Some(&manifest));
    assert_eq!(check.status, "consistent");

    for (id, entry) in manifest.entities.iter_mut() {
        if id == "cell_A1" {
            entry.value = "Tampered".to_string();
        }
    }
    let check2 = CoherenceEngine::check_consistency(Some(&manifest));
    assert_eq!(check2.status, "stale");
    assert!(!check2.stale_entities.is_empty());
}

#[test]
fn test_propagate_full_flow() {
    let mut graph = EntityGraph::new();
    graph.add_entity("header_region", Some("Region"), EntityType::Cell);
    graph.add_entity("header_2024", None, EntityType::Cell);
    graph.add_entity("header_2025", None, EntityType::Cell);
    graph.add_dependency("header_2024", "header_region");
    graph.add_dependency("header_2025", "header_region");
    let updates = graph.propagate_edit("header_region", "Region").unwrap();
    assert_eq!(updates.len(), 3);

    let (manifest, response) = CoherenceEngine::propagate(
        "flow.xlsx",
        None,
        "header_region",
        "Region",
        &strings(&["header_2024", "header_2025"]),
    );
    assert_eq!(response.status, "propagated");
    assert_eq!(response.updates.len(), 3);
    assert_eq!(response.entity_graph.len(), 3);
    let check = CoherenceEngine::check_consistency(Some(&manifest));
    assert_eq!(check.status, "consistent");
    assert_eq!(check.total_entities, 3);
}

#[test]
fn test_get_entity_graph() {
    let empty = CoherenceEngine::get_entity_graph("graph.xlsx", None);
    assert!(!empty.has_manifest);

    let (manifest, _) = CoherenceEngine::propagate(
        "graph.xlsx",
        None,
        "cell_A1",
        "Revenue",
        &strings(&["cell_B1", "cell_C1"]),
    );
    let result = CoherenceEngine::get_entity_graph("graph.xlsx", Some(&manifest));
    assert!(result.has_manifest);
    assert_eq!(result.entities.len(), 3);
}

#[test]
fn test_multi_call_propagation_accumulates_entities() {
    let (m1, r1) =
        CoherenceEngine::propagate("multi.xlsx", None, "cell_A1", "Revenue", &strings(&["cell_B1"]));
    assert_eq!(r1.status, "propagated");
    assert_eq!(r1.updates.len(), 2);
    assert_eq!(r1.entity_graph.len(), 2);

    let (m2, r2) = CoherenceEngine::propagate(
        "multi.xlsx",
        Some(m1),
        "header_title",
        "Region",
        &strings(&["header_year"]),
    );
    assert_eq!(r2.status, "propagated");
    assert_eq!(r2.updates.len(), 2);
    assert_eq!(r2.entity_graph.len(), 4);

    let graph = CoherenceEngine::get_entity_graph("multi.xlsx", Some(&m2));
    assert_eq!(graph.entities.len(), 4);
}

#[test]
fn test_propagate_cascade_budget() {
    let start = std::time::Instant::now();
    let (_, response) = CoherenceEngine::propagate(
        "cascade.xlsx",
        None,
        "root",
        "trigger",
        &strings(&["a", "b", "c"]),
    );
    let elapsed = start.elapsed();
    assert_eq!(response.status, "propagated");
    assert!(elapsed.as_millis() < 100);
}

#[test]
fn test_large_cascade_15_entities() {
    let dependents: Vec<String> = (1..=15).map(|i| format!("dep_{}", i)).collect();
    let start = std::time::Instant::now();
    let (_, response) =
        CoherenceEngine::propagate("large_cascade.xlsx", None, "root", "trigger", &dependents);
    let elapsed = start.elapsed();
    assert_eq!(response.updates.len(), 16);
    assert!(elapsed.as_millis() < 10);
}

#[test]
fn test_propagate_does_not_overwrite_existing_dependent_value() {
    let (m1, _) = CoherenceEngine::propagate("overwrite.xlsx", None, "b", "banana", &strings(&["c"]));
    let graph = CoherenceEngine::get_entity_graph("overwrite.xlsx", Some(&m1));
    let b_val = graph.entities.iter().find(|e| e.id == "b").unwrap().value.clone();
    assert_eq!(b_val.as_deref(), Some("banana"));

    let (m2, _) = CoherenceEngine::propagate("overwrite.xlsx", Some(m1), "x", "xyz", &strings(&["b"]));
    let graph = CoherenceEngine::get_entity_graph("overwrite.xlsx", Some(&m2));
    let b_after = graph.entities.iter().find(|e| e.id == "b").unwrap();
    assert_eq!(b_after.value.as_deref(), Some("banana"));
    let x_val = graph.entities.iter().find(|e| e.id == "x").unwrap().value.clone();
    assert_eq!(x_val.as_deref(), Some("xyz"));
}

#[test]
fn test_get_entity_graph_with_dependencies() {
    let (manifest, _) = CoherenceEngine::propagate(
        "deps.xlsx",
        None,
        "cell_A1",
        "Revenue",
        &strings(&["cell_B1", "cell_C1"]),
    );
    let result = CoherenceEngine::get_entity_graph("deps.xlsx", Some(&manifest));
    assert!(result.has_manifest);
    assert_eq!(result.entities.len(), 3);
    let root = result.entities.iter().find(|e| e.id == "cell_A1").unwrap();
    assert_eq!(root.dependents.len(), 2);
    let dep = result.entities.iter().find(|e| e.id == "cell_B1").unwrap();
    assert_eq!(dep.dependencies.len(), 1);
    assert_eq!(result.total_dependents, 2);
    assert_eq!(root.entity_type, "cell");
}

#[test]
fn propagate_reports_old_values_and_new_entries() {
    let (m1, r1) = CoherenceEngine::propagate("v.xlsx", None, "cell_A1", "one", &strings(&["cell_B1"]));
    assert_eq!(r1.updates[0].old_value.as_deref(), Some("one"));
    assert_eq!(r1.updates[1].old_value, None);
    assert_eq!(m1.get_entity("cell_B1").unwrap().value, "");
    assert_eq!(m1.get_entity("cell_B1").unwrap().hash, compute_hash(""));
    let (m2, r2) = CoherenceEngine::propagate("v.xlsx", Some(m1), "cell_A1", "two", &strings(&[]));
    assert_eq!(r2.updates[0].old_value.as_deref(), Some("one"));
    assert_eq!(r2.updates[1].entity_id, "cell_B1");
    assert_eq!(r2.updates[1].old_value.as_deref(), Some(""));
    assert_eq!(m2.get_entity("cell_A1").unwrap().value, "two");
}

#[test]
fn fresh_cascade_reports_each_dependent_once_at_distance_one() {
    let (_, response) =
        CoherenceEngine::propagate("fresh.xlsx", None, "root", "v", &strings(&["a", "b", "c"]));
    assert_eq!(response.status, "propagated");
    assert_eq!(response.updates.len(), 4);
    assert_eq!(response.updates[0].entity_id, "root");
    assert_eq!(response.updates[0].depth, 0);
    assert!(response.updates[1..].iter().all(|u| u.depth == 1));
    assert_eq!(response.entity_graph.len(), 4);
}
