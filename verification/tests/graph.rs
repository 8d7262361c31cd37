use mdsearch::file_id::FileId;
use mdsearch::graph::{extract_graph, EntityGraph, EntityKind, GraphSource, RelationKind};

type TestResult = Result<(), Box<dyn std::error::Error>>;

fn source(id: u64, path: &'static str, content: &'static str) -> Result<GraphSource<'static>, &'static str> {
    Ok(GraphSource::new(FileId::try_new(id).map_err(|e| e.message())?, path, content.as_bytes()))
}

fn node(graph: &EntityGraph, kind: EntityKind, key: &str) -> bool {
    graph.nodes().iter().any(|n| n.id().kind() == kind && n.id().key() == key)
}

fn edge(graph: &EntityGraph, from: &str, relation: RelationKind, to: &str) -> bool {
    graph
        .edges()
        .iter()
        .any(|e| e.src().key() == from && e.relation() == relation && e.dst().key() == to)
}

#[test]
fn file_and_tag_nodes_with_edges() -> TestResult {
    let files = [
        source(1, "a.md", "---\ntags: [rust]\n---\n[link](b.md)\n")?,
        source(2, "b.md", "---\ntags: [rust]\n---\nbody\n")?,
    ];
    let graph = extract_graph(&files);

    assert!(node(&graph, EntityKind::File, "a.md"));
    assert!(node(&graph, EntityKind::File, "b.md"));
    assert!(node(&graph, EntityKind::Tag, "rust"));
    assert!(edge(&graph, "a.md", RelationKind::LinksTo, "b.md"));
    assert!(edge(&graph, "a.md", RelationKind::TaggedWith, "rust"));
    assert!(edge(&graph, "b.md", RelationKind::TaggedWith, "rust"));
    Ok(())
}

#[test]
fn alias_nodes_and_edges() -> TestResult {
    let files = [source(1, "a.md", "---\naliases: [mt, my]\n---\nbody\n")?];
    let graph = extract_graph(&files);

    assert!(node(&graph, EntityKind::Alias, "mt"));
    assert!(node(&graph, EntityKind::Alias, "my"));
    assert!(edge(&graph, "a.md", RelationKind::AliasOf, "mt"));
    assert!(edge(&graph, "a.md", RelationKind::AliasOf, "my"));
    Ok(())
}

#[test]
fn related_and_sources_edges() -> TestResult {
    let files = [
        source(1, "a.md", "---\nrelated: [b]\nsources: [c]\n---\nbody\n")?,
        source(2, "b.md", "---\n---\nbody\n")?,
        source(3, "c.md", "---\n---\nbody\n")?,
    ];
    let graph = extract_graph(&files);

    assert!(edge(&graph, "a.md", RelationKind::RelatedTo, "b.md"));
    assert!(edge(&graph, "a.md", RelationKind::HasSource, "c.md"));
    Ok(())
}

#[test]
fn unresolved_related_skipped() -> TestResult {
    let files = [source(1, "a.md", "---\nrelated: [missing]\n---\nbody\n")?];
    let graph = extract_graph(&files);

    assert!(!graph.edges().iter().any(|e| e.dst().key() == "missing"));
    Ok(())
}

#[test]
fn tag_and_alias_collision_distinct() -> TestResult {
    let files = [source(1, "a.md", "---\ntags: [mt]\naliases: [mt]\n---\nbody\n")?];
    let graph = extract_graph(&files);

    let tag = graph
        .nodes()
        .iter()
        .filter(|n| n.id().kind() == EntityKind::Tag && n.id().key() == "mt")
        .count();
    let alias = graph
        .nodes()
        .iter()
        .filter(|n| n.id().kind() == EntityKind::Alias && n.id().key() == "mt")
        .count();
    assert_eq!(tag, 1);
    assert_eq!(alias, 1);
    Ok(())
}

#[test]
fn empty_collection_is_empty_graph() {
    let graph = extract_graph(&[]);
    assert_eq!(graph.node_count(), 0);
    assert_eq!(graph.edge_count(), 0);
}

#[test]
fn extraction_is_deterministic_and_idempotent() -> TestResult {
    let files = [
        source(1, "a.md", "---\ntags: [rust]\n---\n[to](b.md)\n")?,
        source(2, "b.md", "---\n---\nbody\n")?,
    ];
    let first = extract_graph(&files);
    let second = extract_graph(&files);
    assert_eq!(first, second);
    assert_eq!(first.node_count(), 3);
    assert_eq!(first.edge_count(), 2);
    Ok(())
}

#[test]
fn duplicate_edges_deduplicated() -> TestResult {
    let files = [
        source(1, "a.md", "---\ntags: [rust, rust]\n---\nbody\n")?,
        source(2, "b.md", "---\n---\nbody\n")?,
    ];
    let graph = extract_graph(&files);
    let tagged = graph
        .edges()
        .iter()
        .filter(|e| e.relation() == RelationKind::TaggedWith)
        .count();
    assert_eq!(tagged, 1);
    Ok(())
}

#[test]
fn every_edge_joins_two_nodes_of_the_graph() -> TestResult {
    let files = [
        source(1, "notes/a.md", "---\ntags: [x]\naliases: [y]\nrelated: [b]\n---\n[to](b.md) [gone](zzz.md)\n")?,
        source(2, "notes/b.md", "---\n---\nbody\n")?,
    ];
    let graph = extract_graph(&files);
    for e in graph.edges() {
        assert!(graph.node(e.src()).is_some());
        assert!(graph.node(e.dst()).is_some());
    }
    assert!(edge(&graph, "notes/a.md", RelationKind::LinksTo, "notes/b.md"));
    assert!(edge(&graph, "notes/a.md", RelationKind::RelatedTo, "notes/b.md"));
    assert!(!graph.edges().iter().any(|e| e.dst().key().contains("zzz")));
    Ok(())
}

#[test]
fn nodes_and_edges_come_back_in_ascending_order() -> TestResult {
    let files = [
        source(1, "b.md", "---\ntags: [zeta, alpha]\n---\n[to](a.md)\n")?,
        source(2, "a.md", "body\n")?,
    ];
    let graph = extract_graph(&files);
    let nodes = graph.nodes();
    for pair in nodes.windows(2) {
        assert!(pair[0] < pair[1]);
    }
    let edges = graph.edges();
    for pair in edges.windows(2) {
        assert!(pair[0] < pair[1]);
    }
    Ok(())
}

#[test]
fn relation_and_kind_keys_round_trip() {
    for kind in [EntityKind::File, EntityKind::Tag, EntityKind::Alias] {
        assert_eq!(EntityKind::from_key(kind.as_str()), Some(kind));
    }
    for relation in [
        RelationKind::LinksTo,
        RelationKind::TaggedWith,
        RelationKind::AliasOf,
        RelationKind::RelatedTo,
        RelationKind::HasSource,
    ] {
        assert_eq!(RelationKind::from_key(relation.as_str()), Some(relation));
    }
    assert_eq!(RelationKind::LinksTo.as_str(), "LINKS_TO");
    assert_eq!(EntityKind::from_key("nope"), None);
}
