//! Deterministic contextual entity-graph extraction.
//!
//! `extract_graph` derives an [`EntityGraph`] from a collection's stored files
//! without any LLM or network access. File nodes use the file path; tag and
//! alias nodes use their exact normalized name. Edges are typed and
//! directional and drawn from frontmatter fields (`tags:`, `aliases:`,
//! `related:`, `sources:`) and inline relative `.md` links.
use vstd::prelude::*;
use crate::file_id::FileId;
use crate::passage::{lemma_next_nl, line_end, line_end_at, next_newline, next_nl};
use crate::order::{compare_str, lemma_str_lt_order, str_lt};
use crate::path::{
    file_name_of, is_markdown, join_paths, names_markdown, opt_view, parent_of, path_file_name,
    path_join, path_parent,
};
use crate::sorted::{lemma_sorted_unique, Ordered, sorted_insert, sorted_views, views};
use crate::text::{chars_of, lossy_utf8, push_char, string_of, trim, trim_range, trimmed, utf8_lossy};
use crate::yaml::{opt_string_view, yaml_field, yaml_field_of, FieldValue, FieldView};

verus! {

/// The kind of an entity node.
#[derive(Clone, Copy, Debug, PartialEq, Eq, Structural, Hash, PartialOrd, Ord)]
pub enum EntityKind {
    /// A stored markdown file.
    File,
    /// A frontmatter `tags:` value.
    Tag,
    /// A frontmatter `aliases:` value.
    Alias,
}

/// The position of a node kind in the kind order.
pub open spec fn entity_rank(kind: EntityKind) -> int {
    match kind {
        EntityKind::File => 0,
        EntityKind::Tag => 1,
        EntityKind::Alias => 2,
    }
}

/// The stable database key of a node kind.
pub open spec fn entity_kind_key(kind: EntityKind) -> Seq<char> {
    match kind {
        EntityKind::File => "file"@,
        EntityKind::Tag => "tag"@,
        EntityKind::Alias => "alias"@,
    }
}

/// The node kind whose stable key is `key`, if any.
pub open spec fn entity_kind_from_key(key: Seq<char>) -> Option<EntityKind> {
    if key == "file"@ {
        Some(EntityKind::File)
    } else if key == "tag"@ {
        Some(EntityKind::Tag)
    } else if key == "alias"@ {
        Some(EntityKind::Alias)
    } else {
        None
    }
}

impl EntityKind {
    /// Returns the stable database key for this node kind.
    pub fn as_str(self) -> (s: &'static str)
        ensures
            s@ == entity_kind_key(self),
    {
        match self {
            EntityKind::File => "file",
            EntityKind::Tag => "tag",
            EntityKind::Alias => "alias",
        }
    }

    /// Reconstructs a node kind from its stable database key.
    pub fn from_key(key: &str) -> (r: Option<EntityKind>)
        ensures
            r == entity_kind_from_key(key@),
    {
        if crate::text::str_eq(key, "file") {
            Some(EntityKind::File)
        } else if crate::text::str_eq(key, "tag") {
            Some(EntityKind::Tag)
        } else if crate::text::str_eq(key, "alias") {
            Some(EntityKind::Alias)
        } else {
            None
        }
    }

    fn rank(self) -> (r: u8)
        ensures
            r as int == entity_rank(self),
    {
        match self {
            EntityKind::File => 0,
            EntityKind::Tag => 1,
            EntityKind::Alias => 2,
        }
    }
}

/// Every node kind is recovered from its stable key.
pub proof fn lemma_entity_kind_key_round_trip(kind: EntityKind)
    ensures
        entity_kind_from_key(entity_kind_key(kind)) == Some(kind),
{
    reveal_strlit("file");
    reveal_strlit("tag");
    reveal_strlit("alias");
    assert("file"@.len() == 4 && "tag"@.len() == 3 && "alias"@.len() == 5);
}

/// The typed, directional relationship between two entity nodes.
#[derive(Clone, Copy, Debug, PartialEq, Eq, Structural, Hash, PartialOrd, Ord)]
pub enum RelationKind {
    /// An inline relative `.md` link from one file to another.
    LinksTo,
    /// A file is tagged with a tag node.
    TaggedWith,
    /// A file has an alias node.
    AliasOf,
    /// A frontmatter `related:` reference from one file to another.
    RelatedTo,
    /// A frontmatter `sources:` reference from one file to another.
    HasSource,
}

/// The position of a relation in the relation order.
pub open spec fn relation_rank(r: RelationKind) -> int {
    match r {
        RelationKind::LinksTo => 0,
        RelationKind::TaggedWith => 1,
        RelationKind::AliasOf => 2,
        RelationKind::RelatedTo => 3,
        RelationKind::HasSource => 4,
    }
}

/// The stable database key of a relation.
pub open spec fn relation_key(r: RelationKind) -> Seq<char> {
    match r {
        RelationKind::LinksTo => "LINKS_TO"@,
        RelationKind::TaggedWith => "TAGGED_WITH"@,
        RelationKind::AliasOf => "ALIAS_OF"@,
        RelationKind::RelatedTo => "RELATED_TO"@,
        RelationKind::HasSource => "HAS_SOURCE"@,
    }
}

/// The relation whose stable key is `key`, if any.
pub open spec fn relation_from_key(key: Seq<char>) -> Option<RelationKind> {
    if key == "LINKS_TO"@ {
        Some(RelationKind::LinksTo)
    } else if key == "TAGGED_WITH"@ {
        Some(RelationKind::TaggedWith)
    } else if key == "ALIAS_OF"@ {
        Some(RelationKind::AliasOf)
    } else if key == "RELATED_TO"@ {
        Some(RelationKind::RelatedTo)
    } else if key == "HAS_SOURCE"@ {
        Some(RelationKind::HasSource)
    } else {
        None
    }
}

impl RelationKind {
    /// Returns the stable database key for this relation.
    pub fn as_str(self) -> (s: &'static str)
        ensures
            s@ == relation_key(self),
    {
        match self {
            RelationKind::LinksTo => "LINKS_TO",
            RelationKind::TaggedWith => "TAGGED_WITH",
            RelationKind::AliasOf => "ALIAS_OF",
            RelationKind::RelatedTo => "RELATED_TO",
            RelationKind::HasSource => "HAS_SOURCE",
        }
    }

    /// Reconstructs a relation from its stable database key.
    pub fn from_key(key: &str) -> (r: Option<RelationKind>)
        ensures
            r == relation_from_key(key@),
    {
        if crate::text::str_eq(key, "LINKS_TO") {
            Some(RelationKind::LinksTo)
        } else if crate::text::str_eq(key, "TAGGED_WITH") {
            Some(RelationKind::TaggedWith)
        } else if crate::text::str_eq(key, "ALIAS_OF") {
            Some(RelationKind::AliasOf)
        } else if crate::text::str_eq(key, "RELATED_TO") {
            Some(RelationKind::RelatedTo)
        } else if crate::text::str_eq(key, "HAS_SOURCE") {
            Some(RelationKind::HasSource)
        } else {
            None
        }
    }

    pub(crate) fn rank(self) -> (r: u8)
        ensures
            r as int == relation_rank(self),
    {
        match self {
            RelationKind::LinksTo => 0,
            RelationKind::TaggedWith => 1,
            RelationKind::AliasOf => 2,
            RelationKind::RelatedTo => 3,
            RelationKind::HasSource => 4,
        }
    }
}

/// Every relation is recovered from its stable key.
pub proof fn lemma_relation_key_round_trip(r: RelationKind)
    ensures
        relation_from_key(relation_key(r)) == Some(r),
{
    reveal_strlit("LINKS_TO");
    reveal_strlit("TAGGED_WITH");
    reveal_strlit("ALIAS_OF");
    reveal_strlit("RELATED_TO");
    reveal_strlit("HAS_SOURCE");
    assert("LINKS_TO"@.len() == 8 && "TAGGED_WITH"@.len() == 11 && "ALIAS_OF"@.len() == 8
        && "RELATED_TO"@.len() == 10 && "HAS_SOURCE"@.len() == 10);
    assert("LINKS_TO"@[0] == 'L' && "ALIAS_OF"@[0] == 'A');
    assert("RELATED_TO"@[0] == 'R' && "HAS_SOURCE"@[0] == 'H');
}

/// The view of a node identity: its kind and key.
pub type NodeIdView = (EntityKind, Seq<char>);

/// The view of a node: its kind, key and title.
pub type NodeView = (EntityKind, Seq<char>, Seq<char>);

/// The view of an edge: source identity, destination identity, relation.
pub type EdgeView = (NodeIdView, NodeIdView, RelationKind);

/// The order of node identities: by kind, then by key.
pub open spec fn id_lt(a: NodeIdView, b: NodeIdView) -> bool {
    entity_rank(a.0) < entity_rank(b.0) || (a.0 == b.0 && str_lt(a.1, b.1))
}

/// The order of nodes: by identity, then by title.
pub open spec fn node_lt(a: NodeView, b: NodeView) -> bool {
    id_lt((a.0, a.1), (b.0, b.1)) || (a.0 == b.0 && a.1 == b.1 && str_lt(a.2, b.2))
}

/// The order of edges: by source, then destination, then relation.
pub open spec fn edge_lt(a: EdgeView, b: EdgeView) -> bool {
    id_lt(a.0, b.0) || (a.0 == b.0 && (id_lt(a.1, b.1) || (a.1 == b.1 && relation_rank(a.2)
        < relation_rank(b.2))))
}

/// The first node of `nodes` with identity `id`.
pub open spec fn node_of(nodes: Seq<NodeView>, id: NodeIdView) -> Option<NodeView>
    decreases nodes.len(),
{
    if nodes.len() == 0 {
        None
    } else if (nodes[0].0, nodes[0].1) == id {
        Some(nodes[0])
    } else {
        node_of(nodes.drop_first(), id)
    }
}

/// The identity order is a strict total order.
pub proof fn lemma_id_order(a: NodeIdView, b: NodeIdView, c: NodeIdView)
    ensures
        !id_lt(a, a),
        id_lt(a, b) && id_lt(b, c) ==> id_lt(a, c),
        a == b || id_lt(a, b) || id_lt(b, a),
        !(id_lt(a, b) && id_lt(b, a)),
{
    lemma_str_lt_order(a.1, b.1, c.1);
    lemma_str_lt_order(b.1, a.1, c.1);
    lemma_str_lt_order(a.1, c.1, b.1);
    if entity_rank(a.0) == entity_rank(b.0) {
        assert(a.0 == b.0);
    }
}

/// The stable identity of a graph node within a collection.
#[derive(Clone, Debug, PartialEq, Eq, Hash, PartialOrd, Ord)]
pub struct NodeId {
    kind: EntityKind,
    key: String,
}

impl View for NodeId {
    type V = NodeIdView;

    closed spec fn view(&self) -> NodeIdView {
        (self.kind, self.key@)
    }
}

impl NodeId {
    /// Creates a node identity from its kind and stable key.
    pub fn new(kind: EntityKind, key: String) -> (id: NodeId)
        ensures
            id@ == (kind, key@),
    {
        NodeId { kind, key }
    }

    /// Returns the node kind.
    pub fn kind(&self) -> (k: EntityKind)
        ensures
            k == self@.0,
    {
        self.kind
    }

    /// Returns the stable node key.
    pub fn key(&self) -> (k: &str)
        ensures
            k@ == self@.1,
    {
        self.key.as_str()
    }

    /// A copy of this identity.
    pub fn duplicate(&self) -> (id: NodeId)
        ensures
            id@ == self@,
    {
        NodeId { kind: self.kind, key: self.key.clone() }
    }

    /// Three-way comparison in the identity order.
    pub fn compare_id(&self, other: &NodeId) -> (r: i8)
        ensures
            (r == 0) == (self@ == other@),
            (r < 0) == id_lt(self@, other@),
            (r > 0) == id_lt(other@, self@),
    {
        proof {
            lemma_id_order(self@, other@, self@);
        }
        let a = self.kind.rank();
        let b = other.kind.rank();
        if a < b {
            -1
        } else if a > b {
            1
        } else {
            assert(self.kind == other.kind);
            compare_str(self.key.as_str(), other.key.as_str())
        }
    }
}

/// A graph node with its human label.
#[derive(Clone, Debug, PartialEq, Eq, Hash, PartialOrd, Ord)]
pub struct GraphNode {
    id: NodeId,
    title: String,
}

impl View for GraphNode {
    type V = NodeView;

    closed spec fn view(&self) -> NodeView {
        (self.id@.0, self.id@.1, self.title@)
    }
}

impl GraphNode {
    /// Creates a node from its identity and title.
    pub fn new(id: NodeId, title: String) -> (n: GraphNode)
        ensures
            n@ == (id@.0, id@.1, title@),
    {
        GraphNode { id, title }
    }

    /// Returns the node identity.
    pub fn id(&self) -> (id: &NodeId)
        ensures
            id@ == (self@.0, self@.1),
    {
        &self.id
    }

    /// Returns the human label.
    pub fn title(&self) -> (t: &str)
        ensures
            t@ == self@.2,
    {
        self.title.as_str()
    }

    /// A copy of this node.
    pub fn duplicate(&self) -> (n: GraphNode)
        ensures
            n@ == self@,
    {
        GraphNode { id: self.id.duplicate(), title: self.title.clone() }
    }
}

impl Ordered for GraphNode {
    open spec fn lt_view(a: NodeView, b: NodeView) -> bool {
        node_lt(a, b)
    }

    proof fn lemma_order(a: NodeView, b: NodeView, c: NodeView) {
        lemma_id_order((a.0, a.1), (b.0, b.1), (c.0, c.1));
        lemma_id_order((b.0, b.1), (a.0, a.1), (c.0, c.1));
        lemma_id_order((a.0, a.1), (c.0, c.1), (b.0, b.1));
        lemma_str_lt_order(a.2, b.2, c.2);
        lemma_str_lt_order(b.2, a.2, c.2);
        if (a.0, a.1) == (b.0, b.1) && a.2 == b.2 {
            assert(a == b);
        }
    }

    fn compare(&self, other: &GraphNode) -> (r: i8) {
        proof {
            lemma_id_order(self.id@, other.id@, self.id@);
            lemma_str_lt_order(self.title@, other.title@, self.title@);
        }
        let c = self.id.compare_id(&other.id);
        if c != 0 {
            c
        } else {
            compare_str(self.title.as_str(), other.title.as_str())
        }
    }
}

/// A typed, directional edge between two node identities.
#[derive(Clone, Debug, PartialEq, Eq, Hash, PartialOrd, Ord)]
pub struct GraphEdge {
    src: NodeId,
    dst: NodeId,
    relation: RelationKind,
}

impl View for GraphEdge {
    type V = EdgeView;

    closed spec fn view(&self) -> EdgeView {
        (self.src@, self.dst@, self.relation)
    }
}

impl GraphEdge {
    /// Creates an edge from its endpoints and relation.
    pub fn new(src: NodeId, dst: NodeId, relation: RelationKind) -> (e: GraphEdge)
        ensures
            e@ == (src@, dst@, relation),
    {
        GraphEdge { src, dst, relation }
    }

    /// Returns the source node identity.
    pub fn src(&self) -> (id: &NodeId)
        ensures
            id@ == self@.0,
    {
        &self.src
    }

    /// Returns the destination node identity.
    pub fn dst(&self) -> (id: &NodeId)
        ensures
            id@ == self@.1,
    {
        &self.dst
    }

    /// Returns the relation kind.
    pub fn relation(&self) -> (r: RelationKind)
        ensures
            r == self@.2,
    {
        self.relation
    }
}

impl Ordered for GraphEdge {
    open spec fn lt_view(a: EdgeView, b: EdgeView) -> bool {
        edge_lt(a, b)
    }

    proof fn lemma_order(a: EdgeView, b: EdgeView, c: EdgeView) {
        lemma_id_order(a.0, b.0, c.0);
        lemma_id_order(b.0, a.0, c.0);
        lemma_id_order(a.0, c.0, b.0);
        lemma_id_order(a.1, b.1, c.1);
        lemma_id_order(b.1, a.1, c.1);
        lemma_id_order(a.1, c.1, b.1);
        if a.0 == b.0 && a.1 == b.1 && relation_rank(a.2) == relation_rank(b.2) {
            assert(a.2 == b.2);
            assert(a == b);
        }
    }

    fn compare(&self, other: &GraphEdge) -> (r: i8) {
        proof {
            lemma_id_order(self.src@, other.src@, self.src@);
            lemma_id_order(self.dst@, other.dst@, self.dst@);
        }
        let c = self.src.compare_id(&other.src);
        if c != 0 {
            return c;
        }
        let d = self.dst.compare_id(&other.dst);
        if d != 0 {
            return d;
        }
        let a = self.relation.rank();
        let b = other.relation.rank();
        if a < b {
            -1
        } else if a > b {
            1
        } else {
            assert(self.relation == other.relation);
            0
        }
    }
}

/// A collection's deterministic entity graph: a set of nodes and a set of
/// typed edges, each kept in ascending order.
#[derive(Debug, PartialEq, Eq)]
pub struct EntityGraph {
    nodes: Vec<GraphNode>,
    edges: Vec<GraphEdge>,
}

impl EntityGraph {
    /// The nodes, in ascending order.
    pub closed spec fn node_seq(&self) -> Seq<NodeView> {
        views(self.nodes@)
    }

    /// The edges, in ascending order.
    pub closed spec fn edge_seq(&self) -> Seq<EdgeView> {
        views(self.edges@)
    }

    /// The set of nodes.
    pub open spec fn node_set(&self) -> Set<NodeView> {
        self.node_seq().to_set()
    }

    /// The set of edges.
    pub open spec fn edge_set(&self) -> Set<EdgeView> {
        self.edge_seq().to_set()
    }

    /// Nodes and edges are strictly ascending, so neither holds duplicates.
    #[verifier::type_invariant]
    closed spec fn well_ordered(&self) -> bool {
        sorted_views(self.nodes@) && sorted_views(self.edges@)
    }

    /// Creates an empty graph.
    pub fn new() -> (g: EntityGraph)
        ensures
            g.node_seq().len() == 0,
            g.edge_seq().len() == 0,
            g.node_set() == Set::<NodeView>::empty(),
            g.edge_set() == Set::<EdgeView>::empty(),
    {
        let g = EntityGraph { nodes: Vec::new(), edges: Vec::new() };
        assert(g.node_seq() =~= Seq::<NodeView>::empty());
        assert(g.edge_seq() =~= Seq::<EdgeView>::empty());
        assert(g.node_set() =~= Set::<NodeView>::empty());
        assert(g.edge_set() =~= Set::<EdgeView>::empty());
        g
    }

    /// Inserts a node, returning whether it was newly added.
    pub fn insert_node(&mut self, node: GraphNode) -> (added: bool)
        ensures
            final(self).node_set() == old(self).node_set().insert(node@),
            final(self).edge_seq() == old(self).edge_seq(),
            added == !old(self).node_set().contains(node@),
    {
        proof {
            use_type_invariant(&*self);
        }
        let ghost before = self.node_seq();
        let mut nodes: Vec<GraphNode> = Vec::new();
        std::mem::swap(&mut nodes, &mut self.nodes);
        let added = sorted_insert(&mut nodes, node);
        self.nodes = nodes;
        assert(before.to_set().contains(node@) == before.contains(node@));
        added
    }

    /// Inserts an edge, returning whether it was newly added.
    pub fn insert_edge(&mut self, edge: GraphEdge) -> (added: bool)
        ensures
            final(self).edge_set() == old(self).edge_set().insert(edge@),
            final(self).node_seq() == old(self).node_seq(),
            added == !old(self).edge_set().contains(edge@),
    {
        proof {
            use_type_invariant(&*self);
        }
        let ghost before = self.edge_seq();
        let mut edges: Vec<GraphEdge> = Vec::new();
        std::mem::swap(&mut edges, &mut self.edges);
        let added = sorted_insert(&mut edges, edge);
        self.edges = edges;
        assert(before.to_set().contains(edge@) == before.contains(edge@));
        added
    }

    /// Returns the nodes in ascending order.
    pub fn nodes(&self) -> (ns: &[GraphNode])
        ensures
            views(ns@) == self.node_seq(),
            forall|i: int, j: int|
                0 <= i < j < self.node_seq().len() ==> node_lt(
                    #[trigger] self.node_seq()[i],
                    #[trigger] self.node_seq()[j],
                ),
    {
        proof {
            use_type_invariant(self);
            assert forall|i: int, j: int|
                0 <= i < j < self.node_seq().len() implies node_lt(
                #[trigger] self.node_seq()[i],
                #[trigger] self.node_seq()[j],
            ) by {
                assert(self.node_seq()[i] == self.nodes@[i]@);
                assert(self.node_seq()[j] == self.nodes@[j]@);
            }
        }
        self.nodes.as_slice()
    }

    /// Returns the edges in ascending order.
    pub fn edges(&self) -> (es: &[GraphEdge])
        ensures
            views(es@) == self.edge_seq(),
            forall|i: int, j: int|
                0 <= i < j < self.edge_seq().len() ==> edge_lt(
                    #[trigger] self.edge_seq()[i],
                    #[trigger] self.edge_seq()[j],
                ),
    {
        proof {
            use_type_invariant(self);
            assert forall|i: int, j: int|
                0 <= i < j < self.edge_seq().len() implies edge_lt(
                #[trigger] self.edge_seq()[i],
                #[trigger] self.edge_seq()[j],
            ) by {
                assert(self.edge_seq()[i] == self.edges@[i]@);
                assert(self.edge_seq()[j] == self.edges@[j]@);
            }
        }
        self.edges.as_slice()
    }

    /// Returns the first node, in ascending order, with the given identity.
    pub fn node(&self, id: &NodeId) -> (r: Option<&GraphNode>)
        ensures
            match r {
                Some(n) => node_of(self.node_seq(), id@) == Some(n@),
                None => node_of(self.node_seq(), id@) is None,
            },
    {
        let mut i: usize = 0;
        assert(self.node_seq().skip(0) =~= self.node_seq());
        while i < self.nodes.len()
            invariant
                0 <= i <= self.nodes@.len(),
                self.node_seq().len() == self.nodes@.len(),
                node_of(self.node_seq(), id@) == node_of(self.node_seq().skip(i as int), id@),
            decreases self.nodes@.len() - i,
        {
            let ghost rest = self.node_seq().skip(i as int);
            assert(rest[0] == self.nodes@[i as int]@);
            assert(rest.drop_first() =~= self.node_seq().skip(i + 1));
            if self.nodes[i].id.compare_id(id) == 0 {
                return Some(&self.nodes[i]);
            }
            i = i + 1;
        }
        None
    }

    /// Returns the number of nodes.
    pub fn node_count(&self) -> (n: usize)
        ensures
            n == self.node_seq().len(),
    {
        self.nodes.len()
    }

    /// Returns the number of edges.
    pub fn edge_count(&self) -> (n: usize)
        ensures
            n == self.edge_seq().len(),
    {
        self.edges.len()
    }
}

/// The view of a graph source: file ID, path and content.
pub type SourceView = (u64, Seq<char>, Seq<u8>);

/// A file supplied for graph extraction: its stable ID, path, and content.
pub struct GraphSource<'a> {
    file_id: FileId,
    path: &'a str,
    content: &'a [u8],
}

impl<'a> View for GraphSource<'a> {
    type V = SourceView;

    closed spec fn view(&self) -> SourceView {
        (self.file_id@, self.path@, self.content@)
    }
}

impl<'a> GraphSource<'a> {
    /// Creates a graph source from its identity, path, and content.
    pub fn new(file_id: FileId, path: &'a str, content: &'a [u8]) -> (s: GraphSource<'a>)
        ensures
            s@ == (file_id@, path@, content@),
    {
        GraphSource { file_id, path, content }
    }

    /// Returns the stable file ID.
    pub fn file_id(&self) -> (id: FileId)
        ensures
            id@ == self@.0,
    {
        self.file_id
    }

    /// Returns the file path.
    pub fn path(&self) -> (p: &str)
        ensures
            p@ == self@.1,
    {
        self.path
    }

    /// Returns the file content.
    pub fn content(&self) -> (c: &[u8])
        ensures
            c@ == self@.2,
    {
        self.content
    }
}


/// Whether `s` begins with `p`.
pub open spec fn starts_with(s: Seq<char>, p: Seq<char>) -> bool {
    p.len() <= s.len() && s.take(p.len() as int) == p
}

/// Whether a reference is an absolute web URL.
pub open spec fn is_web_reference(s: Seq<char>) -> bool {
    starts_with(s, "http://"@) || starts_with(s, "https://"@)
}

/// `s` with `.md` appended.
pub open spec fn with_md(s: Seq<char>) -> Seq<char> {
    s + seq!['.', 'm', 'd']
}

/// The text of the line starting at `s`, without its line ending (`\n` or
/// `\r\n`), as `str::lines` yields it.
pub open spec fn line_text(t: Seq<char>, s: int) -> Seq<char> {
    let e = next_nl(t, s);
    let raw = t.subrange(s, e);
    if e < t.len() && raw.len() > 0 && raw.last() == '\r' {
        raw.drop_last()
    } else {
        raw
    }
}

/// The frontmatter block text from line start `s`: each line followed by a
/// newline, up to (not including) the next line that trims to `---`.
pub open spec fn block_lines(t: Seq<char>, s: int) -> Seq<char>
    decreases t.len() - s,
{
    if s < 0 || s >= t.len() {
        Seq::empty()
    } else if trim(line_text(t, s)) == seq!['-', '-', '-'] {
        Seq::empty()
    } else {
        proof {
            lemma_next_nl(t, s);
        }
        line_text(t, s) + seq!['\n'] + block_lines(t, line_end(t, s))
    }
}

/// The frontmatter block of a file's text, when its first line trims to
/// `---`; an unclosed block runs to the end of the text.
pub open spec fn graph_frontmatter(t: Seq<char>) -> Option<Seq<char>> {
    if t.len() == 0 || trim(line_text(t, 0)) != seq!['-', '-', '-'] {
        None
    } else {
        Some(block_lines(t, line_end(t, 0)))
    }
}

/// The trimmed, non-empty string items of a sequence.
pub open spec fn trimmed_items(items: Seq<Option<Seq<char>>>) -> Seq<Seq<char>>
    decreases items.len(),
{
    if items.len() == 0 {
        Seq::empty()
    } else {
        let rest = trimmed_items(items.drop_last());
        match items.last() {
            Some(s) => if trim(s).len() > 0 {
                rest.push(trim(s))
            } else {
                rest
            },
            None => rest,
        }
    }
}

/// The values of a field: a trimmed non-empty scalar, or the trimmed
/// non-empty string items of a sequence.
pub open spec fn values_of(value: FieldView) -> Seq<Seq<char>> {
    match value {
        FieldView::Text(s) => if trim(s).len() > 0 {
            seq![trim(s)]
        } else {
            Seq::empty()
        },
        FieldView::List(items) => trimmed_items(items),
        FieldView::Other => Seq::empty(),
    }
}

/// The values of frontmatter field `key` in a file's text.
pub open spec fn frontmatter_values_of(t: Seq<char>, key: Seq<char>) -> Seq<Seq<char>> {
    match graph_frontmatter(t) {
        Some(block) => match yaml_field_of(block, key) {
            Some(value) => values_of(value),
            None => Seq::empty(),
        },
        None => Seq::empty(),
    }
}

/// The first position `p >= i` where a closing square bracket is directly
/// followed by an opening parenthesis.
pub open spec fn link_open_from(t: Seq<char>, i: int) -> Option<int>
    decreases t.len() - i,
{
    if i < 0 || i + 2 > t.len() {
        None
    } else if t[i] == '\x5D' && t[i + 1] == '\x28' {
        Some(i)
    } else {
        link_open_from(t, i + 1)
    }
}

/// The first position `q >= i` holding a closing parenthesis.
pub open spec fn close_paren_from(t: Seq<char>, i: int) -> Option<int>
    decreases t.len() - i,
{
    if i < 0 || i >= t.len() {
        None
    } else if t[i] == '\x29' {
        Some(i)
    } else {
        close_paren_from(t, i + 1)
    }
}

/// The position of the first `#` at or after `i`.
pub open spec fn hash_from(s: Seq<char>, i: int) -> Option<int>
    decreases s.len() - i,
{
    if i < 0 || i >= s.len() {
        None
    } else if s[i] == '#' {
        Some(i)
    } else {
        hash_from(s, i + 1)
    }
}

/// A raw link target without surrounding whitespace, a leading `<` (when
/// the target is wrapped in angle brackets) and any `#` fragment.
pub open spec fn stripped_target(raw: Seq<char>) -> Seq<char> {
    let tr = trim(raw);
    let inner = if tr.len() > 0 && tr[0] == '<' && tr.last() == '>' {
        tr.drop_first()
    } else {
        tr
    };
    match hash_from(inner, 0) {
        Some(h) => inner.take(h),
        None => inner,
    }
}

/// Whether a link target names a markdown file (and is no web URL).
pub open spec fn is_markdown_target_spec(target: Seq<char>) -> bool {
    let tr = trim(target);
    tr.len() > 0 && !is_web_reference(tr) && names_markdown(tr)
}

/// Facts about the link searches.
pub proof fn lemma_link_search(t: Seq<char>, i: int)
    requires
        0 <= i,
    ensures
        link_open_from(t, i) matches Some(p) ==> i <= p && p + 2 <= t.len() && t[p] == '\x5D' && t[p
            + 1] == '\x28',
        close_paren_from(t, i) matches Some(q) ==> i <= q < t.len() && t[q] == '\x29',
    decreases t.len() - i,
{
    if i + 2 <= t.len() && !(t[i] == '\x5D' && t[i + 1] == '\x28') {
        lemma_link_search(t, i + 1);
    } else if i + 2 > t.len() && i < t.len() && t[i] != '\x29' {
        lemma_link_search(t, i + 1);
    }
    if i < t.len() && t[i] != '\x29' {
        lemma_close_search(t, i + 1);
    }
}

/// Facts about the closing-parenthesis search.
pub proof fn lemma_close_search(t: Seq<char>, i: int)
    requires
        0 <= i,
    ensures
        close_paren_from(t, i) matches Some(q) ==> i <= q < t.len() && t[q] == '\x29',
    decreases t.len() - i,
{
    if i < t.len() && t[i] != '\x29' {
        lemma_close_search(t, i + 1);
    }
}

/// Facts about the `#` search.
pub proof fn lemma_hash_search(s: Seq<char>, i: int)
    requires
        0 <= i,
    ensures
        hash_from(s, i) matches Some(h) ==> i <= h < s.len() && s[h] == '#',
        hash_from(s, i) is None ==> forall|k: int| i <= k < s.len() ==> s[k] != '#',
    decreases s.len() - i,
{
    if i < s.len() && s[i] != '#' {
        lemma_hash_search(s, i + 1);
    }
}

/// A stripped link target never holds a `#`: it is the trimmed target (less
/// the `<` of an angle-bracketed one) cut at its first `#`, so a link to
/// `p#fragment` has the same target as a link to `p`.
pub proof fn lemma_stripped_target_cut(raw: Seq<char>)
    ensures
        !stripped_target(raw).contains('#'),
        ({
            let tr = trim(raw);
            let inner = if tr.len() > 0 && tr[0] == '<' && tr.last() == '>' {
                tr.drop_first()
            } else {
                tr
            };
            &&& stripped_target(raw).is_prefix_of(inner)
            &&& stripped_target(raw).len() < inner.len() ==> inner[stripped_target(raw).len() as int]
                == '#'
        }),
{
    let tr = trim(raw);
    let inner = if tr.len() > 0 && tr[0] == '<' && tr.last() == '>' {
        tr.drop_first()
    } else {
        tr
    };
    lemma_hash_search(inner, 0);
    lemma_hash_first(inner, 0);
    let st = stripped_target(raw);
    match hash_from(inner, 0) {
        Some(h) => {
            assert(st =~= inner.take(h));
        },
        None => {
            assert(st =~= inner);
        },
    }
    assert forall|k: int| 0 <= k < st.len() implies st[k] != '#' by {
        assert(st[k] == inner[k]);
    }
    assert(st.is_prefix_of(inner));
}

/// No `#` comes before the first one.
proof fn lemma_hash_first(s: Seq<char>, i: int)
    requires
        0 <= i,
    ensures
        hash_from(s, i) matches Some(h) ==> forall|k: int| i <= k < h ==> s[k] != '#',
    decreases s.len() - i,
{
    if i < s.len() && s[i] != '#' {
        lemma_hash_first(s, i + 1);
    }
}

/// The inline markdown link targets of a text from position `i` on.
pub open spec fn links_from(t: Seq<char>, i: int) -> Seq<Seq<char>>
    decreases t.len() - i,
{
    if i < 0 {
        Seq::empty()
    } else {
        match link_open_from(t, i) {
            None => Seq::empty(),
            Some(p) => match close_paren_from(t, p + 2) {
                None => Seq::empty(),
                Some(e) => {
                    proof {
                        lemma_link_search(t, i);
                        lemma_close_search(t, p + 2);
                    }
                    let target = stripped_target(t.subrange(p + 2, e));
                    let found = if is_markdown_target_spec(target) {
                        seq![target]
                    } else {
                        Seq::empty()
                    };
                    found + links_from(t, e + 1)
                },
            },
        }
    }
}

/// The reference itself and the reference joined onto the source file's
/// directory.
pub open spec fn base_candidates(reference: Seq<char>, source: Seq<char>) -> Seq<Seq<char>> {
    seq![reference] + match path_parent(source) {
        Some(p) => seq![path_join(p, reference)],
        None => Seq::empty(),
    }
}

/// The candidate paths tried, in order, for a trimmed reference.
pub open spec fn candidates(target: Seq<char>, source: Seq<char>) -> Seq<Seq<char>> {
    let base = base_candidates(target, source);
    if names_markdown(target) {
        base
    } else {
        base + seq![with_md(target)] + match path_parent(source) {
            Some(p) => seq![path_join(p, with_md(target))],
            None => Seq::empty(),
        }
    }
}

/// The first candidate that is a known path.
pub open spec fn first_known(cands: Seq<Seq<char>>, known: Seq<Seq<char>>) -> Option<Seq<char>>
    decreases cands.len(),
{
    if cands.len() == 0 {
        None
    } else if known.contains(cands[0]) {
        Some(cands[0])
    } else {
        first_known(cands.drop_first(), known)
    }
}

/// The known paths whose file name is `name`.
pub open spec fn basename_matches(name: Seq<char>, known: Seq<Seq<char>>) -> Seq<Seq<char>> {
    known.filter(has_basename(name))
}

/// Whether a path's file name is `name`.
pub open spec fn has_basename(name: Seq<char>) -> spec_fn(Seq<char>) -> bool {
    |p: Seq<char>| path_file_name(p) == Some(name)
}

/// The one known path sharing the file name of `path_like`, if exactly one
/// does.
pub open spec fn unique_by_basename(path_like: Seq<char>, known: Seq<Seq<char>>) -> Option<
    Seq<char>,
> {
    match path_file_name(path_like) {
        Some(b) => if basename_matches(b, known).len() == 1 {
            Some(basename_matches(b, known)[0])
        } else {
            None
        },
        None => None,
    }
}

/// The first known candidate is a known candidate.
proof fn lemma_first_known_found(cands: Seq<Seq<char>>, known: Seq<Seq<char>>)
    ensures
        first_known(cands, known) matches Some(c) ==> known.contains(c) && cands.contains(c),
    decreases cands.len(),
{
    if cands.len() > 0 && !known.contains(cands[0]) {
        lemma_first_known_found(cands.drop_first(), known);
        if first_known(cands, known) is Some {
            let c = first_known(cands, known)->Some_0;
            let k = choose|k: int| 0 <= k < cands.drop_first().len() && cands.drop_first()[k] == c;
            assert(cands[k + 1] == c);
        }
    } else if cands.len() > 0 {
        assert(cands[0] == cands[0]);
    }
}

/// Filtering distinct paths of which exactly `m` has file name `name` gives
/// just `m`.
proof fn lemma_single_basename_match(name: Seq<char>, known: Seq<Seq<char>>, m: Seq<char>)
    requires
        known.no_duplicates(),
        known.contains(m),
        path_file_name(m) == Some(name),
        forall|q: Seq<char>| known.contains(q) && path_file_name(q) == Some(name) ==> q == m,
    ensures
        basename_matches(name, known) == seq![m],
    decreases known.len(),
{
    let p = known.drop_last();
    let x = known.last();
    assert(p.push(x) =~= known);
    p.lemma_filter_push(x, has_basename(name));
    assert(p.no_duplicates());
    assert forall|q: Seq<char>| p.contains(q) implies known.contains(q) by {
        let i = choose|i: int| 0 <= i < p.len() && p[i] == q;
        assert(known[i] == q);
    }
    if x == m {
        assert(!p.contains(m)) by {
            if p.contains(m) {
                let i = choose|i: int| 0 <= i < p.len() && p[i] == m;
                assert(known[i] == known[known.len() - 1]);
            }
        }
        assert(p.all(|q: Seq<char>| !has_basename(name)(q))) by {
            assert forall|i: int| 0 <= i < p.len() implies (|q: Seq<char>| !has_basename(name)(q))(p[i]) by {
                assert(p.contains(p[i]));
            }
        }
        p.lemma_all_neg_filter_empty(has_basename(name));
        assert(p.filter(has_basename(name)) =~= Seq::<Seq<char>>::empty());
        assert(seq![m] =~= Seq::<Seq<char>>::empty().push(m));
    } else {
        assert(known[known.len() - 1] == x);
        assert(p.contains(m)) by {
            let i = choose|i: int| 0 <= i < known.len() && known[i] == m;
            assert(i != known.len() - 1);
            assert(p[i] == m);
        }
        lemma_single_basename_match(name, p, m);
    }
}

/// A basename match is unambiguous: the path found shares the file name of
/// `path_like`, is known, and is the only known path with that file name.
/// When two different known paths share the file name, nothing is found.
pub proof fn lemma_unique_by_basename(path_like: Seq<char>, known: Seq<Seq<char>>)
    ensures
        unique_by_basename(path_like, known) matches Some(m) ==> {
            &&& known.contains(m)
            &&& path_file_name(m) == path_file_name(path_like)
            &&& forall|q: Seq<char>|
                known.contains(q) && path_file_name(q) == path_file_name(path_like) ==> q == m
        },
        forall|p: Seq<char>, q: Seq<char>|
            known.contains(p) && known.contains(q) && p != q && path_file_name(p) == path_file_name(
                path_like,
            ) && path_file_name(q) == path_file_name(path_like) ==> #[trigger] unique_by_basename(
                path_like,
                known,
            ) is None,
        forall|m: Seq<char>|
            known.no_duplicates() && path_file_name(path_like) is Some && known.contains(m)
                && path_file_name(m) == path_file_name(path_like) && (forall|q: Seq<char>|
                known.contains(q) && path_file_name(q) == path_file_name(path_like) ==> q == m)
                ==> #[trigger] unique_by_basename(path_like, known) == Some(m),
{
    match path_file_name(path_like) {
        Some(b) => {
            let ms = basename_matches(b, known);
            known.filter_lemma(has_basename(b));
            assert forall|q: Seq<char>| known.contains(q) && path_file_name(q) == Some(b) implies #[trigger] ms.contains(q) by {
                let i = choose|i: int| 0 <= i < known.len() && known[i] == q;
                assert(has_basename(b)(known[i]));
            }
            if ms.len() == 1 {
                let m = ms[0];
                assert(ms.contains(m));
                known.lemma_filter_contains_rev(has_basename(b), m);
                assert(has_basename(b)(ms[0]));
                assert forall|q: Seq<char>| known.contains(q) && path_file_name(q) == path_file_name(path_like) implies q == m by {
                    assert(ms.contains(q));
                }
            }
            assert forall|p: Seq<char>, q: Seq<char>|
                known.contains(p) && known.contains(q) && p != q && path_file_name(p) == path_file_name(
                    path_like,
                ) && path_file_name(q) == path_file_name(path_like) implies #[trigger] unique_by_basename(
                path_like,
                known,
            ) is None by {
                assert(ms.contains(p));
                assert(ms.contains(q));
                if ms.len() == 1 {
                    assert(p == ms[0]);
                    assert(q == ms[0]);
                }
            }
            assert forall|m: Seq<char>|
                known.no_duplicates() && path_file_name(path_like) is Some && known.contains(m)
                    && path_file_name(m) == path_file_name(path_like) && (forall|q: Seq<char>|
                    known.contains(q) && path_file_name(q) == path_file_name(path_like) ==> q == m)
                    implies #[trigger] unique_by_basename(path_like, known) == Some(m) by {
                lemma_single_basename_match(b, known, m);
            }
        },
        None => {},
    }
}

/// A reference resolves only to a known path, and either to one of its
/// direct candidates (itself, joined onto the source's directory, or with
/// `.md` appended) or to the only known path with that file name: when two
/// different known paths share a file name, a reference is never resolved
/// to either of them by that name.
pub proof fn lemma_resolution_unambiguous(reference: Seq<char>, source: Seq<char>, known: Seq<Seq<char>>)
    ensures
        resolve_spec(reference, source, known) matches Some(m) ==> known.contains(m) && (candidates(
            trim(reference),
            source,
        ).contains(m) || forall|q: Seq<char>|
            known.contains(q) && path_file_name(q) == path_file_name(m) ==> q == m),
{
    let target = trim(reference);
    lemma_first_known_found(candidates(target, source), known);
    lemma_unique_by_basename(target, known);
    lemma_unique_by_basename(with_md(target), known);
}

/// Resolves a reference (inline link target or `related:`/`sources:` entry)
/// to a known file path: the reference as-is, joined onto the source file's
/// directory, then with `.md` appended (both ways); failing those, the one
/// known file sharing its basename. Web URLs and empty references never
/// resolve.
pub open spec fn resolve_spec(reference: Seq<char>, source: Seq<char>, known: Seq<Seq<char>>) -> Option<
    Seq<char>,
> {
    let target = trim(reference);
    if target.len() == 0 || is_web_reference(target) {
        None
    } else {
        match first_known(candidates(target, source), known) {
            Some(c) => Some(c),
            None => match unique_by_basename(target, known) {
                Some(m) => Some(m),
                None => if names_markdown(target) {
                    None
                } else {
                    unique_by_basename(with_md(target), known)
                },
            },
        }
    }
}

/// `s` without repeated elements, keeping first occurrences in order.
pub open spec fn dedup(s: Seq<Seq<char>>) -> Seq<Seq<char>>
    decreases s.len(),
{
    if s.len() == 0 {
        Seq::empty()
    } else {
        let r = dedup(s.drop_last());
        if r.contains(s.last()) {
            r
        } else {
            r.push(s.last())
        }
    }
}

/// The distinct paths of the files.
pub open spec fn known_paths(files: Seq<SourceView>) -> Seq<Seq<char>> {
    dedup(files.map_values(|f: SourceView| f.1))
}

/// A file node's title: its file name, or the whole path when it has none.
pub open spec fn file_title(path: Seq<char>) -> Seq<char> {
    match path_file_name(path) {
        Some(n) => n,
        None => path,
    }
}

/// The node of a tag or alias value.
pub open spec fn value_node(kind: EntityKind, v: Seq<char>) -> NodeView {
    (kind, trim(v), trim(v))
}

/// The edge from a file to a tag or alias value.
pub open spec fn value_edge(path: Seq<char>, kind: EntityKind, v: Seq<char>, rel: RelationKind) -> EdgeView {
    ((EntityKind::File, path), (kind, trim(v)), rel)
}

/// The nodes one file contributes: its file node, then its tag and alias
/// nodes.
pub open spec fn file_nodes(f: SourceView) -> Seq<NodeView> {
    let t = lossy_utf8(f.2);
    seq![(EntityKind::File, f.1, file_title(f.1))] + frontmatter_values_of(t, "tags"@).map_values(
        |v: Seq<char>| value_node(EntityKind::Tag, v),
    ) + frontmatter_values_of(t, "aliases"@).map_values(
        |v: Seq<char>| value_node(EntityKind::Alias, v),
    )
}

/// The edges of the references among `targets` that resolve.
pub open spec fn resolved_edges(
    targets: Seq<Seq<char>>,
    source: Seq<char>,
    known: Seq<Seq<char>>,
    rel: RelationKind,
) -> Seq<EdgeView>
    decreases targets.len(),
{
    if targets.len() == 0 {
        Seq::empty()
    } else {
        let rest = resolved_edges(targets.drop_last(), source, known, rel);
        match resolve_spec(targets.last(), source, known) {
            Some(r) => rest.push(((EntityKind::File, source), (EntityKind::File, r), rel)),
            None => rest,
        }
    }
}

/// The edges one file contributes: tag and alias edges, then the resolved
/// `related:`, `sources:` and inline-link references.
pub open spec fn file_edges(f: SourceView, known: Seq<Seq<char>>) -> Seq<EdgeView> {
    let t = lossy_utf8(f.2);
    frontmatter_values_of(t, "tags"@).map_values(
        |v: Seq<char>| value_edge(f.1, EntityKind::Tag, v, RelationKind::TaggedWith),
    ) + frontmatter_values_of(t, "aliases"@).map_values(
        |v: Seq<char>| value_edge(f.1, EntityKind::Alias, v, RelationKind::AliasOf),
    ) + resolved_edges(frontmatter_values_of(t, "related"@), f.1, known, RelationKind::RelatedTo)
        + resolved_edges(frontmatter_values_of(t, "sources"@), f.1, known, RelationKind::HasSource)
        + resolved_edges(links_from(t, 0), f.1, known, RelationKind::LinksTo)
}

/// The nodes all files contribute.
pub open spec fn graph_nodes(files: Seq<SourceView>) -> Seq<NodeView>
    decreases files.len(),
{
    if files.len() == 0 {
        Seq::empty()
    } else {
        graph_nodes(files.drop_last()) + file_nodes(files.last())
    }
}

/// The edges all files contribute.
pub open spec fn graph_edges(files: Seq<SourceView>, known: Seq<Seq<char>>) -> Seq<EdgeView>
    decreases files.len(),
{
    if files.len() == 0 {
        Seq::empty()
    } else {
        graph_edges(files.drop_last(), known) + file_edges(files.last(), known)
    }
}

/// The elements of a concatenation are those of its parts.
pub proof fn lemma_to_set_concat<A>(a: Seq<A>, b: Seq<A>)
    ensures
        (a + b).to_set() == a.to_set().union(b.to_set()),
{
    assert forall|x: A| #[trigger] (a + b).to_set().contains(x) == a.to_set().union(
        b.to_set(),
    ).contains(x) by {
        if (a + b).to_set().contains(x) {
            let k = choose|k: int| 0 <= k < (a + b).len() && (a + b)[k] == x;
            if k < a.len() {
                assert(a[k] == x);
            } else {
                assert(b[k - a.len()] == x);
            }
        }
        if a.to_set().contains(x) {
            let k = choose|k: int| 0 <= k < a.len() && a[k] == x;
            assert((a + b)[k] == x);
        }
        if b.to_set().contains(x) {
            let k = choose|k: int| 0 <= k < b.len() && b[k] == x;
            assert((a + b)[k + a.len()] == x);
        }
    }
    assert((a + b).to_set() =~= a.to_set().union(b.to_set()));
}

/// Normalizes a tag or alias name to its canonical key.
pub fn normalize_name(value: &str) -> (key: String)
    ensures
        key@ == trim(value@),
{
    trimmed(value)
}

/// The text of the line starting at `s` (line ending removed).
fn line_text_at(t: &[char], s: usize) -> (r: (usize, usize))
    requires
        s <= t@.len(),
    ensures
        s <= r.0 <= r.1 <= t@.len(),
        r.0 == s,
        line_text(t@, s as int) =~= t@.subrange(r.0 as int, r.1 as int),
{
    proof {
        lemma_next_nl(t@, s as int);
    }
    let e = next_newline(t, s);
    if e < t.len() && e > s && t[e - 1] == '\r' {
        (s, e - 1)
    } else {
        (s, e)
    }
}

/// The frontmatter block of a file's text, if its first line trims to `---`.
#[verifier::rlimit(40)]
pub fn frontmatter_block(t: &[char]) -> (r: Option<String>)
    ensures
        opt_view(r) == graph_frontmatter(t@),
{
    if t.len() == 0 {
        return None;
    }
    let (a, b) = line_text_at(t, 0);
    let (x, y) = trim_range(t, a, b);
    if !(y - x == 3 && t[x] == '-' && t[x + 1] == '-' && t[x + 2] == '-') {
        proof {
            if trim(line_text(t@, 0)) =~= seq!['-', '-', '-'] {
                assert(t@.subrange(x as int, y as int)[0] == t@[x as int]);
                assert(t@.subrange(x as int, y as int)[1] == t@[x + 1]);
                assert(t@.subrange(x as int, y as int)[2] == t@[x + 2]);
            }
        }
        return None;
    }
    assert(trim(line_text(t@, 0)) =~= seq!['-', '-', '-']);
    proof {
        lemma_next_nl(t@, 0);
    }
    let start = line_end_at(t, 0);
    let mut block = String::new();
    let mut s = start;
    loop
        invariant
            start <= s <= t@.len(),
            block_lines(t@, start as int) == block@ + block_lines(t@, s as int),
            graph_frontmatter(t@) == Some(block_lines(t@, start as int)),
        decreases t@.len() - s,
    {
        if s >= t.len() {
            assert(block@ + Seq::<char>::empty() =~= block@);
            return Some(block);
        }
        let (a2, b2) = line_text_at(t, s);
        let (x2, y2) = trim_range(t, a2, b2);
        let is_delim = y2 - x2 == 3 && t[x2] == '-' && t[x2 + 1] == '-' && t[x2 + 2] == '-';
        proof {
            if is_delim {
                assert(trim(line_text(t@, s as int)) =~= seq!['-', '-', '-']);
            } else if trim(line_text(t@, s as int)) =~= seq!['-', '-', '-'] {
                assert(t@.subrange(x2 as int, y2 as int)[0] == t@[x2 as int]);
                assert(t@.subrange(x2 as int, y2 as int)[1] == t@[x2 + 1]);
                assert(t@.subrange(x2 as int, y2 as int)[2] == t@[x2 + 2]);
            }
        }
        if is_delim {
            assert(block@ + Seq::<char>::empty() =~= block@);
            return Some(block);
        }
        let ghost old_block = block@;
        let mut i = a2;
        while i < b2
            invariant
                a2 <= i <= b2 <= t@.len(),
                block@ == old_block + t@.subrange(a2 as int, i as int),
            decreases b2 - i,
        {
            push_char(&mut block, t[i]);
            assert(t@.subrange(a2 as int, i + 1) =~= t@.subrange(a2 as int, i as int).push(
                t@[i as int],
            ));
            i = i + 1;
        }
        push_char(&mut block, '\n');
        proof {
            lemma_next_nl(t@, s as int);
        }
        let next = line_end_at(t, s);
        assert(block_lines(t@, s as int) == line_text(t@, s as int) + seq!['\n'] + block_lines(
            t@,
            next as int,
        ));
        assert(block@ + block_lines(t@, next as int) =~= old_block + (line_text(t@, s as int)
            + seq!['\n'] + block_lines(t@, next as int)));
        s = next;
    }
}

/// The values of frontmatter field `key`: a trimmed non-empty scalar, or
/// the trimmed non-empty string items of a sequence.
pub fn frontmatter_values(block: &Option<String>, key: &str) -> (values: Vec<String>)
    ensures
        views(values@) == (match opt_view(*block) {
            Some(b) => match yaml_field_of(b, key@) {
                Some(value) => values_of(value),
                None => Seq::empty(),
            },
            None => Seq::<Seq<char>>::empty(),
        }),
{
    let mut values: Vec<String> = Vec::new();
    match block {
        None => {
            assert(views(values@) =~= Seq::<Seq<char>>::empty());
            values
        },
        Some(b) => match yaml_field(b.as_str(), key) {
            None => {
                assert(views(values@) =~= Seq::<Seq<char>>::empty());
                values
            },
            Some(FieldValue::Text(s)) => {
                let v = trimmed(s.as_str());
                if !v.as_str().is_empty() {
                    values.push(v);
                }
                assert(views(values@) =~= values_of(FieldView::Text(s@)));
                values
            },
            Some(FieldValue::List(items)) => {
                let ghost iv = items@.map_values(|o: Option<String>| opt_string_view(o));
                let mut i: usize = 0;
                while i < items.len()
                    invariant
                        0 <= i <= items@.len(),
                        iv == items@.map_values(|o: Option<String>| opt_string_view(o)),
                        views(values@) == trimmed_items(iv.take(i as int)),
                    decreases items@.len() - i,
                {
                    assert(iv.take(i + 1).drop_last() =~= iv.take(i as int));
                    let ghost before = values@;
                    match &items[i] {
                        Some(item) => {
                            let v = trimmed(item.as_str());
                            if !v.as_str().is_empty() {
                                values.push(v);
                                assert(views(values@) =~= views(before).push(v@));
                            }
                        },
                        None => {},
                    }
                    i = i + 1;
                }
                assert(iv.take(items@.len() as int) =~= iv);
                values
            },
            Some(FieldValue::Other) => {
                assert(views(values@) =~= Seq::<Seq<char>>::empty());
                values
            },
        },
    }
}

/// Whether `s[lo..]` begins with the characters of `p`.
fn chars_start_with(s: &[char], lo: usize, hi: usize, p: &str) -> (b: bool)
    requires
        lo <= hi <= s@.len(),
    ensures
        b == starts_with(s@.subrange(lo as int, hi as int), p@),
{
    let pc = chars_of(p);
    if pc.len() > hi - lo {
        return false;
    }
    let mut i: usize = 0;
    while i < pc.len()
        invariant
            pc@ == p@,
            pc@.len() <= hi - lo,
            lo <= hi <= s@.len(),
            0 <= i <= pc@.len(),
            forall|k: int| 0 <= k < i ==> s@[lo + k] == pc@[k],
        decreases pc@.len() - i,
    {
        if s[lo + i] != pc[i] {
            assert(s@.subrange(lo as int, hi as int).take(pc@.len() as int)[i as int] != pc@[i as int]);
            return false;
        }
        i = i + 1;
    }
    assert(s@.subrange(lo as int, hi as int).take(pc@.len() as int) =~= pc@);
    true
}

/// Whether `s[lo..hi]` is an absolute web URL.
fn web_reference(s: &[char], lo: usize, hi: usize) -> (b: bool)
    requires
        lo <= hi <= s@.len(),
    ensures
        b == is_web_reference(s@.subrange(lo as int, hi as int)),
{
    chars_start_with(s, lo, hi, "http://") || chars_start_with(s, lo, hi, "https://")
}

/// Returns whether `target` names a markdown file (and is no web URL).
pub fn is_markdown_target(target: &str) -> (b: bool)
    ensures
        b == is_markdown_target_spec(target@),
{
    let cs = chars_of(target);
    let (a, z) = trim_range(cs.as_slice(), 0, cs.len());
    assert(cs@.subrange(0, cs@.len() as int) =~= cs@);
    if a == z || web_reference(cs.as_slice(), a, z) {
        return false;
    }
    let tr = string_of(cs.as_slice(), a, z);
    has_markdown_extension(tr.as_str())
}

/// Returns whether `target` already names a markdown file.
pub fn has_markdown_extension(target: &str) -> (b: bool)
    ensures
        b == names_markdown(target@),
{
    is_markdown(target)
}

/// Strips surrounding whitespace, a leading `<` of an angle-bracketed
/// target, and any `#` fragment from a raw link target.
pub fn strip_link_target(raw: &str) -> (r: String)
    ensures
        r@ == stripped_target(raw@),
{
    let cs = chars_of(raw);
    let t = cs.as_slice();
    let (a0, z) = trim_range(t, 0, t.len());
    assert(t@.subrange(0, t@.len() as int) =~= t@);
    let ghost tr = trim(raw@);
    let a = if a0 < z && t[a0] == '<' && t[z - 1] == '>' {
        a0 + 1
    } else {
        a0
    };
    let ghost inner = if tr.len() > 0 && tr[0] == '<' && tr.last() == '>' {
        tr.drop_first()
    } else {
        tr
    };
    assert(inner =~= t@.subrange(a as int, z as int));
    let mut h = a;
    while h < z && t[h] != '#'
        invariant
            a <= h <= z <= t@.len(),
            inner =~= t@.subrange(a as int, z as int),
            hash_from(inner, 0) == hash_from(inner, h - a),
        decreases z - h,
    {
        h = h + 1;
    }
    proof {
        lemma_hash_search(inner, 0);
    }
    if h < z {
        assert(hash_from(inner, h - a) == Some(h - a));
        assert(inner.take(h - a) =~= t@.subrange(a as int, h as int));
    } else {
        assert(hash_from(inner, h - a) is None);
    }
    string_of(t, a, h)
}

/// Finds the first closing square bracket directly followed by an opening
/// parenthesis in `t`, starting at `from`.
fn find_subslice(t: &[char], from: usize) -> (r: Option<usize>)
    ensures
        r matches Some(p) ==> link_open_from(t@, from as int) == Some(p as int),
        r is None ==> link_open_from(t@, from as int) is None,
{
    let mut i = from;
    while i < t.len() && t.len() - i >= 2
        invariant
            from <= i,
            link_open_from(t@, from as int) == link_open_from(t@, i as int),
        decreases t@.len() - i,
    {
        if t[i] == '\x5D' && t[i + 1] == '\x28' {
            return Some(i);
        }
        i = i + 1;
    }
    None
}

/// Extracts inline relative `.md` link targets from a file's text.
///
/// Only targets that name a `.md` file and are not web URLs are returned.
pub fn inline_markdown_links(t: &[char]) -> (targets: Vec<String>)
    ensures
        views(targets@) == links_from(t@, 0),
{
    let mut targets: Vec<String> = Vec::new();
    let mut index: usize = 0;
    loop
        invariant
            links_from(t@, 0) == views(targets@) + links_from(t@, index as int),
        decreases t@.len() + 1 - index,
    {
        proof {
            lemma_link_search(t@, index as int);
        }
        let pos = match find_subslice(t, index) {
            Some(p) => p,
            None => {
                assert(views(targets@) + Seq::<Seq<char>>::empty() =~= views(targets@));
                return targets;
            },
        };
        proof {
            lemma_link_search(t@, index as int);
            assert(link_open_from(t@, index as int) == Some(pos as int));
        }
        let tl = t.len();
        assert(pos + 2 <= tl);
        let after = pos + 2;
        let mut end = after;
        while end < t.len() && t[end] != '\x29'
            invariant
                after <= end <= t@.len(),
                close_paren_from(t@, after as int) == close_paren_from(t@, end as int),
            decreases t@.len() - end,
        {
            end = end + 1;
        }
        if end >= t.len() {
            assert(views(targets@) + Seq::<Seq<char>>::empty() =~= views(targets@));
            return targets;
        }
        let raw = string_of(t, after, end);
        let target = strip_link_target(raw.as_str());
        let ghost before = views(targets@);
        if is_markdown_target(target.as_str()) {
            targets.push(target);
            assert(views(targets@) =~= before.push(target@));
            assert(before.push(target@) + links_from(t@, end + 1) =~= before + (seq![target@]
                + links_from(t@, end + 1)));
        } else {
            assert(before + links_from(t@, end + 1) =~= before + (Seq::<Seq<char>>::empty()
                + links_from(t@, end + 1)));
        }
        index = end + 1;
    }
}


/// Builds the ordered resolution candidates for `reference` relative to
/// `source_path`: the reference itself, then the reference joined onto the
/// source file's directory.
pub fn reference_candidates(reference: &str, source_path: &str) -> (c: Vec<String>)
    ensures
        views(c@) == base_candidates(reference@, source_path@),
{
    let mut c: Vec<String> = Vec::new();
    c.push(reference.to_owned());
    let parent = parent_of(source_path);
    match parent {
        Some(p) => {
            let joined = join_paths(p.as_str(), reference);
            c.push(joined);
        },
        None => {},
    }
    assert(views(c@) =~= base_candidates(reference@, source_path@));
    c
}

/// Whether `known` holds `path`.
fn contains_path(known: &Vec<String>, path: &str) -> (b: bool)
    ensures
        b == views(known@).contains(path@),
{
    let mut i: usize = 0;
    while i < known.len()
        invariant
            0 <= i <= known@.len(),
            forall|k: int| 0 <= k < i ==> known@[k]@ != path@,
        decreases known@.len() - i,
    {
        if crate::text::str_eq(known[i].as_str(), path) {
            assert(views(known@)[i as int] == path@);
            return true;
        }
        i = i + 1;
    }
    proof {
        if views(known@).contains(path@) {
            let k = choose|k: int| 0 <= k < views(known@).len() && views(known@)[k] == path@;
            assert(known@[k]@ == path@);
        }
    }
    false
}

/// The first candidate that is a known path.
fn first_known_path(cands: &Vec<String>, known: &Vec<String>) -> (r: Option<String>)
    ensures
        opt_view(r) == first_known(views(cands@), views(known@)),
{
    let mut i: usize = 0;
    assert(views(cands@).skip(0) =~= views(cands@));
    while i < cands.len()
        invariant
            0 <= i <= cands@.len(),
            first_known(views(cands@), views(known@)) == first_known(
                views(cands@).skip(i as int),
                views(known@),
            ),
        decreases cands@.len() - i,
    {
        assert(views(cands@).skip(i as int)[0] == cands@[i as int]@);
        assert(views(cands@).skip(i as int).drop_first() =~= views(cands@).skip(i + 1));
        if contains_path(known, cands[i].as_str()) {
            return Some(cands[i].clone());
        }
        i = i + 1;
    }
    assert(views(cands@).skip(i as int).len() == 0);
    None
}

/// The one known path sharing the file name of `path_like`, if exactly one
/// does.
fn unique_basename(path_like: &str, known: &Vec<String>) -> (r: Option<String>)
    ensures
        opt_view(r) == unique_by_basename(path_like@, views(known@)),
{
    let name = match file_name_of(path_like) {
        Some(n) => n,
        None => return None,
    };
    let ghost kv = views(known@);
    let ghost pred = has_basename(name@);
    let mut count: usize = 0;
    let mut first: Option<String> = None;
    let mut i: usize = 0;
    while i < known.len()
        invariant
            0 <= i <= known@.len(),
            kv == views(known@),
            pred == has_basename(name@),
            count == kv.take(i as int).filter(pred).len(),
            count > 0 ==> first is Some && first->0@ == kv.take(i as int).filter(pred)[0],
            count <= i,
        decreases known@.len() - i,
    {
        proof {
            assert(kv.take(i + 1) =~= kv.take(i as int).push(kv[i as int]));
            kv.take(i as int).lemma_filter_push(kv[i as int], pred);
        }
        let candidate_name = file_name_of(known[i].as_str());
        let matches = match candidate_name {
            Some(cn) => crate::text::str_eq(cn.as_str(), name.as_str()),
            None => false,
        };
        assert(matches == pred(kv[i as int]));
        if matches {
            if count == 0 {
                first = Some(known[i].clone());
            }
            count = count + 1;
        }
        i = i + 1;
    }
    assert(kv.take(known@.len() as int) =~= kv);
    if count == 1 {
        first
    } else {
        None
    }
}

/// `s` with `.md` appended.
fn md_appended(s: &str) -> (r: String)
    ensures
        r@ == with_md(s@),
{
    let mut r = s.to_owned();
    push_char(&mut r, '.');
    push_char(&mut r, 'm');
    push_char(&mut r, 'd');
    assert(r@ =~= with_md(s@));
    r
}

/// Resolves a reference (inline link target or `related:`/`sources:` entry)
/// to a known file path within the collection.
///
/// Resolution tries, in order: the reference as-is, the reference joined onto
/// the source file's directory, the same two with `.md` appended, and finally a
/// basename match (only when exactly one known file shares the basename).
/// Absolute URLs and empty references never resolve.
pub fn resolve_file(reference: &str, source_path: &str, known: &Vec<String>) -> (r: Option<String>)
    ensures
        opt_view(r) == resolve_spec(reference@, source_path@, views(known@)),
        r matches Some(p) ==> views(known@).contains(p@),
{
    let target = trimmed(reference);
    let tc = chars_of(target.as_str());
    assert(tc@.subrange(0, tc@.len() as int) =~= tc@);
    if tc.len() == 0 || web_reference(tc.as_slice(), 0, tc.len()) {
        return None;
    }
    let markdown = has_markdown_extension(target.as_str());
    let mut cands = reference_candidates(target.as_str(), source_path);
    if !markdown {
        let appended = md_appended(target.as_str());
        cands.push(appended.clone());
        match parent_of(source_path) {
            Some(p) => {
                let joined = join_paths(p.as_str(), appended.as_str());
                cands.push(joined);
            },
            None => {},
        }
    }
    assert(views(cands@) =~= candidates(target@, source_path@));
    proof {
        lemma_first_known_is_known(views(cands@), views(known@));
        lemma_unique_is_known(target@, views(known@));
        lemma_unique_is_known(with_md(target@), views(known@));
    }
    match first_known_path(&cands, known) {
        Some(c) => return Some(c),
        None => {},
    }
    match unique_basename(target.as_str(), known) {
        Some(m) => return Some(m),
        None => {},
    }
    if markdown {
        None
    } else {
        let appended = md_appended(target.as_str());
        unique_basename(appended.as_str(), known)
    }
}

/// A first known candidate is known.
pub proof fn lemma_first_known_is_known(cands: Seq<Seq<char>>, known: Seq<Seq<char>>)
    ensures
        first_known(cands, known) matches Some(c) ==> known.contains(c),
    decreases cands.len(),
{
    if cands.len() > 0 && !known.contains(cands[0]) {
        lemma_first_known_is_known(cands.drop_first(), known);
    }
}

/// A unique basename match is known.
pub proof fn lemma_unique_is_known(path_like: Seq<char>, known: Seq<Seq<char>>)
    ensures
        unique_by_basename(path_like, known) matches Some(m) ==> known.contains(m),
{
    match path_file_name(path_like) {
        Some(b) => {
            if basename_matches(b, known).len() == 1 {
                let m = basename_matches(b, known)[0];
                known.lemma_filter_contains_rev(has_basename(b), m);
                assert(basename_matches(b, known).contains(m));
            }
        },
        None => {},
    }
}

/// Every reference that resolves names a known file.
pub proof fn lemma_resolve_is_known(reference: Seq<char>, source: Seq<char>, known: Seq<Seq<char>>)
    ensures
        resolve_spec(reference, source, known) matches Some(p) ==> known.contains(p),
{
    let target = trim(reference);
    lemma_first_known_is_known(candidates(target, source), known);
    lemma_unique_is_known(target, known);
    lemma_unique_is_known(with_md(target), known);
}

/// The distinct paths of the files, in order of first appearance.
fn collect_known_paths(files: &[GraphSource]) -> (known: Vec<String>)
    ensures
        views(known@) == known_paths(views(files@)),
{
    let ghost paths = views(files@).map_values(|f: SourceView| f.1);
    let mut known: Vec<String> = Vec::new();
    let mut i: usize = 0;
    while i < files.len()
        invariant
            0 <= i <= files@.len(),
            paths == views(files@).map_values(|f: SourceView| f.1),
            views(known@) == dedup(paths.take(i as int)),
        decreases files@.len() - i,
    {
        assert(paths.take(i + 1).drop_last() =~= paths.take(i as int));
        assert(paths[i as int] == files@[i as int]@.1);
        let path = files[i].path;
        if !contains_path(&known, path) {
            known.push(path.to_owned());
            assert(views(known@) =~= dedup(paths.take(i as int)).push(path@));
        }
        i = i + 1;
    }
    assert(paths.take(files@.len() as int) =~= paths);
    known
}

/// Inserts the node and edge of every value of a tag or alias field.
fn insert_values(
    graph: &mut EntityGraph,
    path: &str,
    values: &Vec<String>,
    kind: EntityKind,
    rel: RelationKind,
)
    ensures
        final(graph).node_set() == old(graph).node_set().union(
            views(values@).map_values(|v: Seq<char>| value_node(kind, v)).to_set(),
        ),
        final(graph).edge_set() == old(graph).edge_set().union(
            views(values@).map_values(|v: Seq<char>| value_edge(path@, kind, v, rel)).to_set(),
        ),
{
    let ghost vv = views(values@);
    let ghost nodes0 = graph.node_set();
    let ghost edges0 = graph.edge_set();
    let mut i: usize = 0;
    while i < values.len()
        invariant
            0 <= i <= values@.len(),
            vv == views(values@),
            graph.node_set() == nodes0.union(
                vv.take(i as int).map_values(|v: Seq<char>| value_node(kind, v)).to_set(),
            ),
            graph.edge_set() == edges0.union(
                vv.take(i as int).map_values(|v: Seq<char>| value_edge(path@, kind, v, rel)).to_set(),
            ),
        decreases values@.len() - i,
    {
        let key = normalize_name(values[i].as_str());
        let node = GraphNode::new(NodeId::new(kind, key.clone()), key.clone());
        graph.insert_node(node);
        let edge = GraphEdge::new(
            NodeId::new(EntityKind::File, path.to_owned()),
            NodeId::new(kind, key),
            rel,
        );
        graph.insert_edge(edge);
        proof {
            let v = vv[i as int];
            assert(vv.take(i + 1) =~= vv.take(i as int).push(v));
            let fnode = |v: Seq<char>| value_node(kind, v);
            let fedge = |v: Seq<char>| value_edge(path@, kind, v, rel);
            assert(vv.take(i + 1).map_values(fnode) =~= vv.take(i as int).map_values(fnode).push(
                fnode(v),
            ));
            assert(vv.take(i + 1).map_values(fedge) =~= vv.take(i as int).map_values(fedge).push(
                fedge(v),
            ));
            vv.take(i as int).map_values(fnode).lemma_push_to_set_commute(fnode(v));
            vv.take(i as int).map_values(fedge).lemma_push_to_set_commute(fedge(v));
            assert(graph.node_set() =~= nodes0.union(
                vv.take(i + 1).map_values(fnode).to_set(),
            ));
            assert(graph.edge_set() =~= edges0.union(
                vv.take(i + 1).map_values(fedge).to_set(),
            ));
        }
        i = i + 1;
    }
    assert(vv.take(values@.len() as int) =~= vv);
}

/// Inserts an edge for every reference among `targets` that resolves.
fn insert_resolved(
    graph: &mut EntityGraph,
    path: &str,
    targets: &Vec<String>,
    known: &Vec<String>,
    rel: RelationKind,
)
    ensures
        final(graph).node_set() == old(graph).node_set(),
        final(graph).edge_set() == old(graph).edge_set().union(
            resolved_edges(views(targets@), path@, views(known@), rel).to_set(),
        ),
{
    let ghost tv = views(targets@);
    let ghost kv = views(known@);
    let ghost edges0 = graph.edge_set();
    let mut i: usize = 0;
    while i < targets.len()
        invariant
            0 <= i <= targets@.len(),
            tv == views(targets@),
            kv == views(known@),
            graph.node_set() == old(graph).node_set(),
            graph.edge_set() == edges0.union(
                resolved_edges(tv.take(i as int), path@, kv, rel).to_set(),
            ),
        decreases targets@.len() - i,
    {
        proof {
            assert(tv.take(i + 1).drop_last() =~= tv.take(i as int));
            assert(tv.take(i + 1).last() == tv[i as int]);
        }
        match resolve_file(targets[i].as_str(), path, known) {
            Some(resolved) => {
                let edge = GraphEdge::new(
                    NodeId::new(EntityKind::File, path.to_owned()),
                    NodeId::new(EntityKind::File, resolved),
                    rel,
                );
                let ghost ev = edge@;
                graph.insert_edge(edge);
                proof {
                    resolved_edges(tv.take(i as int), path@, kv, rel).lemma_push_to_set_commute(ev);
                    assert(graph.edge_set() =~= edges0.union(
                        resolved_edges(tv.take(i + 1), path@, kv, rel).to_set(),
                    ));
                }
            },
            None => {},
        }
        i = i + 1;
    }
    assert(tv.take(targets@.len() as int) =~= tv);
}

/// A one-element sequence holds exactly its element.
proof fn lemma_singleton_to_set<A>(a: A)
    ensures
        seq![a].to_set() == Set::empty().insert(a),
{
    assert forall|x: A| seq![a].to_set().contains(x) <==> x == a by {
        if x == a {
            assert(seq![a][0] == a);
        }
    }
    assert(seq![a].to_set() =~= Set::empty().insert(a));
}

/// Adds the nodes and edges one file contributes.
fn add_file(graph: &mut EntityGraph, file: &GraphSource, known: &Vec<String>)
    ensures
        final(graph).node_set() == old(graph).node_set().union(file_nodes(file@).to_set()),
        final(graph).edge_set() == old(graph).edge_set().union(
            file_edges(file@, views(known@)).to_set(),
        ),
{
    let ghost nodes0 = graph.node_set();
    let ghost edges0 = graph.edge_set();
    let path = file.path;
    let title = match file_name_of(path) {
        Some(name) => name,
        None => path.to_owned(),
    };
    let ghost fnode = (EntityKind::File, path@, title@);
    graph.insert_node(GraphNode::new(NodeId::new(EntityKind::File, path.to_owned()), title));
    let text = utf8_lossy(file.content);
    let cs = chars_of(text.as_str());
    let t = cs.as_slice();
    let block = frontmatter_block(t);
    let tags = frontmatter_values(&block, "tags");
    insert_values(graph, path, &tags, EntityKind::Tag, RelationKind::TaggedWith);
    let aliases = frontmatter_values(&block, "aliases");
    insert_values(graph, path, &aliases, EntityKind::Alias, RelationKind::AliasOf);
    let related = frontmatter_values(&block, "related");
    insert_resolved(graph, path, &related, known, RelationKind::RelatedTo);
    let sources = frontmatter_values(&block, "sources");
    insert_resolved(graph, path, &sources, known, RelationKind::HasSource);
    let links = inline_markdown_links(t);
    insert_resolved(graph, path, &links, known, RelationKind::LinksTo);
    proof {
        let t = lossy_utf8(file@.2);
        assert(fnode == (EntityKind::File, file@.1, file_title(file@.1)));
        let tn = views(tags@).map_values(|v: Seq<char>| value_node(EntityKind::Tag, v));
        let an = views(aliases@).map_values(|v: Seq<char>| value_node(EntityKind::Alias, v));
        lemma_to_set_concat(seq![fnode], tn);
        lemma_to_set_concat(seq![fnode] + tn, an);
        lemma_singleton_to_set(fnode);
        assert(file_nodes(file@) == seq![fnode] + tn + an);
        assert(graph.node_set() =~= nodes0.union(file_nodes(file@).to_set()));
        let te = views(tags@).map_values(
            |v: Seq<char>| value_edge(path@, EntityKind::Tag, v, RelationKind::TaggedWith),
        );
        let ae = views(aliases@).map_values(
            |v: Seq<char>| value_edge(path@, EntityKind::Alias, v, RelationKind::AliasOf),
        );
        let re = resolved_edges(views(related@), path@, views(known@), RelationKind::RelatedTo);
        let se = resolved_edges(views(sources@), path@, views(known@), RelationKind::HasSource);
        let le = resolved_edges(views(links@), path@, views(known@), RelationKind::LinksTo);
        lemma_to_set_concat(te, ae);
        lemma_to_set_concat(te + ae, re);
        lemma_to_set_concat(te + ae + re, se);
        lemma_to_set_concat(te + ae + re + se, le);
        assert(file_edges(file@, views(known@)) == te + ae + re + se + le);
        assert(graph.edge_set() =~= edges0.union(file_edges(file@, views(known@)).to_set()));
    }
}

/// Extracts the deterministic entity graph for a collection from its stored
/// files.
///
/// The function is pure and deterministic: the same file set always yields the
/// same [`EntityGraph`]. Unknown `related:`/`sources:` references and inline
/// link targets that do not match a known file are skipped.
pub fn extract_graph(files: &[GraphSource]) -> (graph: EntityGraph)
    ensures
        extracted_from(graph, views(files@)),
{
    let known = collect_known_paths(files);
    let ghost fv = views(files@);
    let ghost kv = views(known@);
    let mut graph = EntityGraph::new();
    let mut i: usize = 0;
    assert(graph_nodes(fv.take(0)) =~= Seq::<NodeView>::empty());
    assert(graph_edges(fv.take(0), kv) =~= Seq::<EdgeView>::empty());
    while i < files.len()
        invariant
            0 <= i <= files@.len(),
            fv == views(files@),
            kv == views(known@),
            kv == known_paths(fv),
            graph.node_set() == graph_nodes(fv.take(i as int)).to_set(),
            graph.edge_set() == graph_edges(fv.take(i as int), kv).to_set(),
        decreases files@.len() - i,
    {
        add_file(&mut graph, &files[i], &known);
        proof {
            assert(fv.take(i + 1).drop_last() =~= fv.take(i as int));
            assert(fv.take(i + 1).last() == files@[i as int]@);
            lemma_to_set_concat(graph_nodes(fv.take(i as int)), file_nodes(files@[i as int]@));
            lemma_to_set_concat(graph_edges(fv.take(i as int), kv), file_edges(files@[i as int]@, kv));
        }
        i = i + 1;
    }
    assert(fv.take(files@.len() as int) =~= fv);
    proof {
        use_type_invariant(&graph);
        assert forall|i: int, j: int| 0 <= i < j < graph.node_seq().len() implies node_lt(
            #[trigger] graph.node_seq()[i],
            #[trigger] graph.node_seq()[j],
        ) by {
            assert(graph.node_seq()[i] == graph.nodes@[i]@);
            assert(graph.node_seq()[j] == graph.nodes@[j]@);
        }
        assert forall|i: int, j: int| 0 <= i < j < graph.edge_seq().len() implies edge_lt(
            #[trigger] graph.edge_seq()[i],
            #[trigger] graph.edge_seq()[j],
        ) by {
            assert(graph.edge_seq()[i] == graph.edges@[i]@);
            assert(graph.edge_seq()[j] == graph.edges@[j]@);
        }
    }
    graph
}

/// Nodes in strictly ascending order.
pub open spec fn nodes_ascending(s: Seq<NodeView>) -> bool {
    forall|i: int, j: int| 0 <= i < j < s.len() ==> node_lt(#[trigger] s[i], #[trigger] s[j])
}

/// Edges in strictly ascending order.
pub open spec fn edges_ascending(s: Seq<EdgeView>) -> bool {
    forall|i: int, j: int| 0 <= i < j < s.len() ==> edge_lt(#[trigger] s[i], #[trigger] s[j])
}

/// `graph` is the entity graph of `files`: every node and edge the files
/// contribute, once each, in ascending order.
pub open spec fn extracted_from(graph: EntityGraph, files: Seq<SourceView>) -> bool {
    &&& nodes_ascending(graph.node_seq())
    &&& edges_ascending(graph.edge_seq())
    &&& graph.node_set() == graph_nodes(files).to_set()
    &&& graph.edge_set() == graph_edges(files, known_paths(files)).to_set()
}

/// Extraction is deterministic: two graphs extracted from the same files hold
/// the same nodes and the same edges, in the same order.
pub proof fn lemma_extraction_deterministic(a: EntityGraph, b: EntityGraph, files: Seq<SourceView>)
    requires
        extracted_from(a, files),
        extracted_from(b, files),
    ensures
        a.node_seq() == b.node_seq(),
        a.edge_seq() == b.edge_seq(),
{
    lemma_sorted_unique::<GraphNode>(a.node_seq(), b.node_seq());
    lemma_sorted_unique::<GraphEdge>(a.edge_seq(), b.edge_seq());
}
/// Whether `nodes` holds a node with identity `id`.
pub open spec fn has_node_id(nodes: Set<NodeView>, id: NodeIdView) -> bool {
    exists|n: NodeView| #[trigger] nodes.contains(n) && n.0 == id.0 && n.1 == id.1
}

/// Whether one of `files` has the path `path`.
pub open spec fn is_file_path(files: Seq<SourceView>, path: Seq<char>) -> bool {
    exists|i: int| 0 <= i < files.len() && #[trigger] files[i].1 == path
}

/// The relations drawn between two files.
pub open spec fn is_file_relation(r: RelationKind) -> bool {
    r == RelationKind::LinksTo || r == RelationKind::RelatedTo || r == RelationKind::HasSource
}

/// The edge of a `tags:` or `aliases:` value joins a file to a node of the
/// matching kind; every other edge joins two files of the collection.
pub open spec fn edge_kinds_fit(e: EdgeView) -> bool {
    &&& e.0.0 == EntityKind::File
    &&& e.2 == RelationKind::TaggedWith ==> e.1.0 == EntityKind::Tag
    &&& e.2 == RelationKind::AliasOf ==> e.1.0 == EntityKind::Alias
    &&& is_file_relation(e.2) ==> e.1.0 == EntityKind::File
}

/// A deduplicated sequence holds only elements of the original.
proof fn lemma_dedup_contains(s: Seq<Seq<char>>, x: Seq<char>)
    ensures
        dedup(s).contains(x) ==> s.contains(x),
    decreases s.len(),
{
    if s.len() > 0 {
        lemma_dedup_contains(s.drop_last(), x);
        if dedup(s).contains(x) {
            let r = dedup(s.drop_last());
            if r.contains(x) {
                let k = choose|k: int| 0 <= k < s.drop_last().len() && s.drop_last()[k] == x;
                assert(s[k] == x);
            } else {
                assert(r.push(s.last()).contains(x));
                let k = choose|k: int| 0 <= k < r.push(s.last()).len() && r.push(s.last())[k] == x;
                assert(s[s.len() - 1] == x);
            }
        }
    }
}

/// A known path is the path of one of the files.
proof fn lemma_known_is_file(files: Seq<SourceView>, p: Seq<char>)
    requires
        known_paths(files).contains(p),
    ensures
        is_file_path(files, p),
{
    let s = files.map_values(|f: SourceView| f.1);
    lemma_dedup_contains(s, p);
    let k = choose|k: int| 0 <= k < s.len() && s[k] == p;
    assert(files[k].1 == p);
}

/// Each file's own node is among the graph's nodes.
proof fn lemma_file_node_in(fs: Seq<SourceView>, i: int)
    requires
        0 <= i < fs.len(),
    ensures
        graph_nodes(fs).contains((EntityKind::File, fs[i].1, file_title(fs[i].1))),
    decreases fs.len(),
{
    let last = fs.len() - 1;
    let prev = graph_nodes(fs.drop_last());
    if i == last {
        assert(file_nodes(fs.last())[0] == (EntityKind::File, fs[i].1, file_title(fs[i].1)));
        assert(graph_nodes(fs)[prev.len() as int] == file_nodes(fs.last())[0]);
    } else {
        lemma_file_node_in(fs.drop_last(), i);
        let k = choose|k: int| 0 <= k < prev.len() && prev[k] == (EntityKind::File, fs[i].1, file_title(fs[i].1));
        assert(graph_nodes(fs)[k] == prev[k]);
    }
}

/// Each resolved reference joins `source` to a known file.
proof fn lemma_resolved_edges_known(
    targets: Seq<Seq<char>>,
    source: Seq<char>,
    known: Seq<Seq<char>>,
    rel: RelationKind,
)
    ensures
        forall|k: int|
            0 <= k < resolved_edges(targets, source, known, rel).len() ==> {
                let e = #[trigger] resolved_edges(targets, source, known, rel)[k];
                &&& e.0 == (EntityKind::File, source)
                &&& e.1.0 == EntityKind::File
                &&& e.2 == rel
                &&& known.contains(e.1.1)
            },
    decreases targets.len(),
{
    if targets.len() > 0 {
        lemma_resolved_edges_known(targets.drop_last(), source, known, rel);
        lemma_resolve_is_known(targets.last(), source, known);
    }
}

/// The facts about one edge of a file that the join law needs.
spec fn file_edge_joined(e: EdgeView, f: SourceView, known: Seq<Seq<char>>) -> bool {
    &&& e.0 == (EntityKind::File, f.1)
    &&& edge_kinds_fit(e)
    &&& is_file_relation(e.2) ==> known.contains(e.1.1)
    &&& !is_file_relation(e.2) ==> exists|j: int|
        0 <= j < file_nodes(f).len() && (#[trigger] file_nodes(f)[j]).0 == e.1.0
            && file_nodes(f)[j].1 == e.1.1
}

/// Every edge a file contributes starts at that file, and ends at one of its
/// own tag or alias nodes or at a known file.
proof fn lemma_file_edges_joined(f: SourceView, known: Seq<Seq<char>>)
    ensures
        forall|k: int|
            0 <= k < file_edges(f, known).len() ==> file_edge_joined(
                #[trigger] file_edges(f, known)[k],
                f,
                known,
            ),
{
    let t = lossy_utf8(f.2);
    let tags = frontmatter_values_of(t, "tags"@);
    let aliases = frontmatter_values_of(t, "aliases"@);
    let te = tags.map_values(|v: Seq<char>| value_edge(f.1, EntityKind::Tag, v, RelationKind::TaggedWith));
    let ae = aliases.map_values(
        |v: Seq<char>| value_edge(f.1, EntityKind::Alias, v, RelationKind::AliasOf),
    );
    let re = resolved_edges(frontmatter_values_of(t, "related"@), f.1, known, RelationKind::RelatedTo);
    let se = resolved_edges(frontmatter_values_of(t, "sources"@), f.1, known, RelationKind::HasSource);
    let le = resolved_edges(links_from(t, 0), f.1, known, RelationKind::LinksTo);
    lemma_resolved_edges_known(frontmatter_values_of(t, "related"@), f.1, known, RelationKind::RelatedTo);
    lemma_resolved_edges_known(frontmatter_values_of(t, "sources"@), f.1, known, RelationKind::HasSource);
    lemma_resolved_edges_known(links_from(t, 0), f.1, known, RelationKind::LinksTo);
    let all = file_edges(f, known);
    assert(all == te + ae + re + se + le);
    let nodes = file_nodes(f);
    let tn = tags.map_values(|v: Seq<char>| value_node(EntityKind::Tag, v));
    let an = aliases.map_values(|v: Seq<char>| value_node(EntityKind::Alias, v));
    assert(nodes == seq![(EntityKind::File, f.1, file_title(f.1))] + tn + an);
    assert forall|k: int| 0 <= k < all.len() implies file_edge_joined(#[trigger] all[k], f, known) by {
        let a = te.len();
        let b = a + ae.len();
        let c = b + re.len();
        let d = c + se.len();
        if k < a {
            assert(all[k] == te[k]);
            assert(nodes[1 + k] == tn[k]);
            assert(nodes[1 + k].0 == all[k].1.0 && nodes[1 + k].1 == all[k].1.1);
        } else if k < b {
            assert(all[k] == ae[k - a]);
            assert(nodes[1 + k] == an[k - a]);
            assert(nodes[1 + k].0 == all[k].1.0 && nodes[1 + k].1 == all[k].1.1);
        } else if k < c {
            assert(all[k] == re[k - b]);
        } else if k < d {
            assert(all[k] == se[k - c]);
        } else {
            assert(all[k] == le[k - d]);
        }
    }
}

/// Every edge of the files' edges starts at one of the files, and ends at a
/// tag or alias node among the files' nodes or at a known file.
proof fn lemma_graph_edges_joined(fs: Seq<SourceView>, known: Seq<Seq<char>>)
    ensures
        forall|k: int|
            0 <= k < graph_edges(fs, known).len() ==> {
                let e = #[trigger] graph_edges(fs, known)[k];
                &&& edge_kinds_fit(e)
                &&& is_file_path(fs, e.0.1)
                &&& is_file_relation(e.2) ==> known.contains(e.1.1)
                &&& !is_file_relation(e.2) ==> graph_nodes(fs).contains(
                    (e.1.0, e.1.1, e.1.1),
                )
            },
    decreases fs.len(),
{
    if fs.len() > 0 {
        let prev = fs.drop_last();
        let f = fs.last();
        lemma_graph_edges_joined(prev, known);
        lemma_file_edges_joined(f, known);
        let pe = graph_edges(prev, known);
        let fe = file_edges(f, known);
        let pn = graph_nodes(prev);
        assert(graph_edges(fs, known) == pe + fe);
        assert(graph_nodes(fs) == pn + file_nodes(f));
        assert forall|k: int| 0 <= k < graph_edges(fs, known).len() implies {
            let e = #[trigger] graph_edges(fs, known)[k];
            &&& edge_kinds_fit(e)
            &&& is_file_path(fs, e.0.1)
            &&& is_file_relation(e.2) ==> known.contains(e.1.1)
            &&& !is_file_relation(e.2) ==> graph_nodes(fs).contains((e.1.0, e.1.1, e.1.1))
        } by {
            let e = graph_edges(fs, known)[k];
            if k < pe.len() {
                assert(e == pe[k]);
                let i = choose|i: int| 0 <= i < prev.len() && #[trigger] prev[i].1 == e.0.1;
                assert(fs[i] == prev[i]);
                if !is_file_relation(e.2) {
                    let j = choose|j: int| 0 <= j < pn.len() && pn[j] == (e.1.0, e.1.1, e.1.1);
                    assert(graph_nodes(fs)[j] == pn[j]);
                }
            } else {
                assert(e == fe[k - pe.len()]);
                assert(file_edge_joined(fe[k - pe.len()], f, known));
                assert(fs[fs.len() - 1].1 == e.0.1);
                if !is_file_relation(e.2) {
                    let j = choose|j: int|
                        0 <= j < file_nodes(f).len() && (#[trigger] file_nodes(f)[j]).0 == e.1.0
                            && file_nodes(f)[j].1 == e.1.1;
                    assert(j > 0);
                    assert(graph_nodes(fs)[pn.len() + j] == file_nodes(f)[j]);
                    assert(file_nodes(f)[j] == (e.1.0, e.1.1, e.1.1));
                }
            }
        }
    }
}

/// Every edge of an extracted graph joins two of its nodes: it starts at a
/// file's node; a `tags:` or `aliases:` edge ends at that tag or alias node;
/// a link, `related:` or `sources:` edge ends at the node of a file of the
/// collection, so references that do not resolve leave no edge behind.
pub proof fn lemma_edges_join_nodes(graph: EntityGraph, files: Seq<SourceView>)
    requires
        extracted_from(graph, files),
    ensures
        forall|e: EdgeView|
            #[trigger] graph.edge_set().contains(e) ==> {
                &&& edge_kinds_fit(e)
                &&& has_node_id(graph.node_set(), e.0)
                &&& has_node_id(graph.node_set(), e.1)
                &&& is_file_relation(e.2) ==> is_file_path(files, e.1.1)
            },
{
    let known = known_paths(files);
    lemma_graph_edges_joined(files, known);
    assert forall|e: EdgeView| #[trigger] graph.edge_set().contains(e) implies {
        &&& edge_kinds_fit(e)
        &&& has_node_id(graph.node_set(), e.0)
        &&& has_node_id(graph.node_set(), e.1)
        &&& is_file_relation(e.2) ==> is_file_path(files, e.1.1)
    } by {
        let edges = graph_edges(files, known);
        let k = choose|k: int| 0 <= k < edges.len() && edges[k] == e;
        assert(edges[k] == e);
        let i = choose|i: int| 0 <= i < files.len() && #[trigger] files[i].1 == e.0.1;
        lemma_file_node_in(files, i);
        let fnode = (EntityKind::File, files[i].1, file_title(files[i].1));
        assert(graph.node_set().contains(fnode));
        if is_file_relation(e.2) {
            lemma_known_is_file(files, e.1.1);
            let i2 = choose|i2: int| 0 <= i2 < files.len() && #[trigger] files[i2].1 == e.1.1;
            lemma_file_node_in(files, i2);
            let dnode = (EntityKind::File, files[i2].1, file_title(files[i2].1));
            assert(graph.node_set().contains(dnode));
        } else {
            assert(graph.node_set().contains((e.1.0, e.1.1, e.1.1)));
        }
    }
}

} // verus!
