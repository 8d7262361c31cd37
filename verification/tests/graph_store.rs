use mdsearch::collection::CollectionName;
use mdsearch::file_id::FileId;
use mdsearch::graph::{extract_graph, EntityGraph, EntityKind, GraphEdge, GraphSource, NodeId, RelationKind};
use mdsearch::graph_store::{traverse_graph, GraphStore, GraphStoreError, InMemoryGraphStore};

type TestResult = Result<(), Box<dyn std::error::Error>>;

fn node_id(kind: EntityKind, key: &str) -> NodeId {
    NodeId::new(kind, key.to_owned())
}

fn build_graph() -> Result<(CollectionName, EntityGraph), Box<dyn std::error::Error>> {
    let name = CollectionName::try_from("notes").map_err(|e| e.message())?;
    let files = [
        GraphSource::new(FileId::try_new(1).map_err(|e| e.message())?, "a.md", b"---\n---\n[to](b.md)\n"),
        GraphSource::new(FileId::try_new(2).map_err(|e| e.message())?, "b.md", b"---\n---\n[to](c.md)\n"),
        GraphSource::new(FileId::try_new(3).map_err(|e| e.message())?, "c.md", b"---\n---\nbody\n"),
    ];
    Ok((name, extract_graph(&files)))
}

#[test]
fn node_lookup_finds_and_reports_missing() -> TestResult {
    let (name, graph) = build_graph()?;
    let mut store = InMemoryGraphStore::new();
    store.insert(name.clone(), graph);

    let found = store.node(&name, &node_id(EntityKind::File, "a.md")).map_err(|e| e.message())?;
    assert!(found.is_some());

    let missing = store.node(&name, &node_id(EntityKind::File, "zzz.md")).map_err(|e| e.message())?;
    assert!(missing.is_none());
    Ok(())
}

#[test]
fn neighbors_filter_by_relation() -> TestResult {
    let (name, graph) = build_graph()?;
    let mut store = InMemoryGraphStore::new();
    store.insert(name.clone(), graph);

    let neighbors = store
        .neighbors(&name, &node_id(EntityKind::File, "a.md"), Some(RelationKind::LinksTo), 1)
        .map_err(|e| e.message())?;
    assert_eq!(neighbors.len(), 1);
    let first = neighbors.first().ok_or("expected one neighbor")?;
    assert_eq!(first.node().id().key(), "b.md");
    assert_eq!(first.relation(), RelationKind::LinksTo);
    assert_eq!(first.depth(), 1);
    Ok(())
}

#[test]
fn traversal_stops_at_hop_limit_and_is_cycle_safe() -> TestResult {
    let (name, graph) = build_graph()?;
    let mut store = InMemoryGraphStore::new();
    store.insert(name.clone(), graph);

    let one_hop = store
        .neighbors(&name, &node_id(EntityKind::File, "a.md"), None, 1)
        .map_err(|e| e.message())?;
    let keys: Vec<&str> = one_hop.iter().map(|n| n.node().id().key()).collect();
    assert_eq!(keys, vec!["b.md"]);

    let two_hops = store
        .neighbors(&name, &node_id(EntityKind::File, "a.md"), None, 2)
        .map_err(|e| e.message())?;
    let keys: Vec<&str> = two_hops.iter().map(|n| n.node().id().key()).collect();
    assert_eq!(keys, vec!["b.md", "c.md"]);
    Ok(())
}

#[test]
fn unknown_collection_is_an_error() -> TestResult {
    let store = InMemoryGraphStore::new();
    let missing = CollectionName::try_from("ghost").map_err(|e| e.message())?;
    let result = store.node(&missing, &node_id(EntityKind::File, "a.md"));
    assert!(matches!(result, Err(GraphStoreError::CollectionNotFound)));
    Ok(())
}

#[test]
fn edge_type_is_reachable_from_api() {
    let edge = GraphEdge::new(
        node_id(EntityKind::File, "a.md"),
        node_id(EntityKind::File, "b.md"),
        RelationKind::LinksTo,
    );
    assert_eq!(edge.relation(), RelationKind::LinksTo);
}

#[test]
fn a_cycle_is_not_expanded_twice() -> TestResult {
    let files = [
        GraphSource::new(FileId::try_new(1).map_err(|e| e.message())?, "a.md", b"[to](b.md)\n"),
        GraphSource::new(FileId::try_new(2).map_err(|e| e.message())?, "b.md", b"[back](a.md)\n"),
    ];
    let graph = extract_graph(&files);
    let found = traverse_graph(&graph, &node_id(EntityKind::File, "a.md"), None, 5);
    let seen: Vec<(&str, u8)> = found.iter().map(|n| (n.node().id().key(), n.depth())).collect();
    assert_eq!(seen, vec![("b.md", 1), ("a.md", 2)]);
    Ok(())
}

#[test]
fn zero_hops_find_nothing_and_results_are_ordered_by_depth() -> TestResult {
    let (_, graph) = build_graph()?;
    assert!(traverse_graph(&graph, &node_id(EntityKind::File, "a.md"), None, 0).is_empty());
    let found = traverse_graph(&graph, &node_id(EntityKind::File, "a.md"), None, 9);
    let depths: Vec<u8> = found.iter().map(|n| n.depth()).collect();
    assert_eq!(depths, vec![1, 2]);
    Ok(())
}

#[test]
fn inserting_again_replaces_the_graph() -> TestResult {
    let (name, graph) = build_graph()?;
    let mut store = InMemoryGraphStore::new();
    store.insert(name.clone(), graph);
    store.insert(name.clone(), EntityGraph::new());
    let found = store.node(&name, &node_id(EntityKind::File, "a.md")).map_err(|e| e.message())?;
    assert!(found.is_none());
    Ok(())
}
