use vstd::prelude::*;

use std::collections::HashMap;

use petgraph::graph::{Graph, NodeIndex};

use crate::nexus::parser::{TreeEvent, SpecTreeEvent, event_views};
use crate::nexus::syntax_tree_node::{SpecSyntaxTreeNode, SyntaxTreeNode, SyntaxTreeNodeTypes, ast_name, cst_name};
use crate::nexus::semantic_analyzer::{kid, kid_exec};
use crate::nexus::code_generator_riscv::push_char;

verus! {

broadcast use vstd::std_specs::hash::group_hash_axioms;

// ---------------------------------------------------------------------------
// The graph that holds a syntax tree
// ---------------------------------------------------------------------------
#[verifier::external_type_specification]
#[verifier::external_body]
#[verifier::reject_recursive_types(N)]
#[verifier::reject_recursive_types(E)]
#[verifier::reject_recursive_types(Ty)]
#[verifier::reject_recursive_types(Ix)]
pub struct ExGraph<N, E, Ty, Ix>(petgraph::graph::Graph<N, E, Ty, Ix>);

#[verifier::external_type_specification]
#[verifier::external_body]
pub struct ExDirected(petgraph::Directed);

/// The node weights of a syntax-tree graph, in the order of their indices.
pub uninterp spec fn tree_graph_nodes(g: Graph<SyntaxTreeNode, ()>) -> Seq<SyntaxTreeNode>;

/// The edges (source, target) of a syntax-tree graph, in the order they were
/// added.
pub uninterp spec fn tree_graph_edges(g: Graph<SyntaxTreeNode, ()>) -> Seq<(usize, usize)>;

/// The targets of the edges that leave `a`, the most recently added first.
pub open spec fn children_of(edges: Seq<(usize, usize)>, a: usize) -> Seq<usize>
    decreases edges.len(),
{
    if edges.len() == 0 {
        Seq::empty()
    } else {
        let rest = children_of(edges.drop_last(), a);
        if edges.last().0 == a {
            seq![edges.last().1] + rest
        } else {
            rest
        }
    }
}

/// `Graph::new`: a directed graph with no nodes and no edges.
#[verifier::external_body]
fn tree_graph_new() -> (g: Graph<SyntaxTreeNode, ()>)
    ensures
        tree_graph_nodes(g) == Seq::<SyntaxTreeNode>::empty(),
        tree_graph_edges(g) == Seq::<(usize, usize)>::empty(),
{
    Graph::new()
}

/// `Graph::add_node`: appends the weight as a new node and returns its index,
/// the former node count; it panics when the count reaches the index type's
/// maximum, which `requires` rules out.
#[verifier::external_body]
fn tree_graph_add_node(g: &mut Graph<SyntaxTreeNode, ()>, weight: SyntaxTreeNode) -> (r: usize)
    requires
        tree_graph_nodes(*old(g)).len() + 1 < u32::MAX,
    ensures
        tree_graph_nodes(*final(g)) == tree_graph_nodes(*old(g)).push(weight),
        tree_graph_edges(*final(g)) == tree_graph_edges(*old(g)),
        r == tree_graph_nodes(*old(g)).len(),
{
    g.add_node(weight).index()
}

/// `Graph::add_edge`: appends the edge from `a` to `b`; it panics when a node
/// does not exist or the edge count reaches the index type's maximum, which
/// `requires` rules out.
#[verifier::external_body]
fn tree_graph_add_edge(g: &mut Graph<SyntaxTreeNode, ()>, a: usize, b: usize)
    requires
        a < tree_graph_nodes(*old(g)).len(),
        b < tree_graph_nodes(*old(g)).len(),
        tree_graph_nodes(*old(g)).len() < u32::MAX,
        tree_graph_edges(*old(g)).len() + 1 < u32::MAX,
    ensures
        tree_graph_nodes(*final(g)) == tree_graph_nodes(*old(g)),
        tree_graph_edges(*final(g)) == tree_graph_edges(*old(g)).push((a, b)),
{
    g.add_edge(NodeIndex::new(a), NodeIndex::new(b), ());
}

/// `Graph::neighbors` on a directed graph: the targets of the edges that
/// leave `a`, listed in reverse order of their addition (empty when `a` does
/// not exist).
#[verifier::external_body]
fn tree_graph_neighbors(g: &Graph<SyntaxTreeNode, ()>, a: usize) -> (r: Vec<usize>)
    requires
        a < u32::MAX,
    ensures
        r@ == children_of(tree_graph_edges(*g), a),
{
    let mut out: Vec<usize> = Vec::new();
    for n in g.neighbors(NodeIndex::new(a)) {
        out.push(n.index());
    }
    out
}

/// `Graph::node_weight`: the weight of an existing node.
#[verifier::external_body]
fn tree_graph_node(g: &Graph<SyntaxTreeNode, ()>, a: usize) -> (r: &SyntaxTreeNode)
    requires
        a < tree_graph_nodes(*g).len(),
        tree_graph_nodes(*g).len() < u32::MAX,
    ensures
        *r == tree_graph_nodes(*g)[a as int],
{
    g.node_weight(NodeIndex::new(a)).unwrap()
}

/// `Graph::node_count`: the number of nodes.
#[verifier::external_body]
fn tree_graph_node_count(g: &Graph<SyntaxTreeNode, ()>) -> (r: usize)
    ensures
        r == tree_graph_nodes(*g).len(),
{
    g.node_count()
}

/// `Graph::clear`: removes all nodes and edges.
#[verifier::external_body]
fn tree_graph_clear(g: &mut Graph<SyntaxTreeNode, ()>)
    ensures
        tree_graph_nodes(*final(g)) == Seq::<SyntaxTreeNode>::empty(),
        tree_graph_edges(*final(g)) == Seq::<(usize, usize)>::empty(),
{
    g.clear();
}

// ---------------------------------------------------------------------------
// The syntax tree
// ---------------------------------------------------------------------------
/// A syntax tree (concrete or abstract) built top-down: nodes are added below
/// the current node, and the current node moves back up to its parent.
pub struct SyntaxTree {
    pub graph: Graph<SyntaxTreeNode, ()>,
    pub root: Option<usize>,
    current: Option<usize>,
    parents: HashMap<usize, Option<usize>>,
}

/// The mathematical view of a syntax tree.
pub struct SpecTree {
    pub nodes: Seq<SpecSyntaxTreeNode>,
    pub edges: Seq<(usize, usize)>,
    pub root: Option<usize>,
    pub current: Option<usize>,
    pub parents: Map<usize, Option<usize>>,
}

impl SpecTree {
    pub open spec fn empty() -> SpecTree {
        SpecTree {
            nodes: Seq::empty(),
            edges: Seq::empty(),
            root: None,
            current: None,
            parents: Map::empty(),
        }
    }

    /// A node can be added: the tree is empty or there is a current node, and
    /// the graph has room for one more node.
    pub open spec fn can_add(self) -> bool {
        &&& self.root is None || self.current is Some
        &&& self.nodes.len() + 3 < u32::MAX
    }

    /// Add a node below the current one (or as the root of an empty tree);
    /// unless it is a leaf, it becomes the current node.
    pub open spec fn add(self, kind: SyntaxTreeNodeTypes, label: SpecSyntaxTreeNode) -> SpecTree {
        let n = self.nodes.len() as usize;
        let parent: Option<usize> = if self.root is None {
            None
        } else {
            self.current
        };
        SpecTree {
            nodes: self.nodes.push(label),
            edges: if self.root is None {
                self.edges
            } else {
                self.edges.push((self.current->0, n))
            },
            root: if self.root is None {
                Some(n)
            } else {
                self.root
            },
            current: if kind != SyntaxTreeNodeTypes::Leaf {
                Some(n)
            } else {
                self.current
            },
            parents: self.parents.insert(n, parent),
        }
    }

    /// Move the current node up to its parent.
    pub open spec fn move_up(self) -> SpecTree {
        match self.current {
            Some(c) => SpecTree { current: self.parents[c], ..self },
            None => self,
        }
    }

    /// The children of a node, the most recently added first.
    pub open spec fn children(self, a: usize) -> Seq<usize> {
        children_of(self.edges, a)
    }

    /// The tree that a sequence of building steps makes from this one; a step
    /// that adds a node where none can be added (no current node, or no room
    /// left in the graph) is skipped.
    pub open spec fn apply(self, evs: Seq<SpecTreeEvent>) -> SpecTree
        decreases evs.len(),
    {
        if evs.len() == 0 {
            self
        } else {
            let t = self.apply(evs.drop_last());
            match evs.last() {
                SpecTreeEvent::Branch(nt) => if t.can_add() {
                    t.add(SyntaxTreeNodeTypes::Branch, SpecSyntaxTreeNode::NonTerminalCst(nt))
                } else {
                    t
                },
                SpecTreeEvent::AstBranch(nt) => if t.can_add() {
                    t.add(SyntaxTreeNodeTypes::Branch, SpecSyntaxTreeNode::NonTerminalAst(nt))
                } else {
                    t
                },
                SpecTreeEvent::Leaf(tok) => if t.can_add() {
                    t.add(SyntaxTreeNodeTypes::Leaf, SpecSyntaxTreeNode::Terminal(tok))
                } else {
                    t
                },
                SpecTreeEvent::Up => t.move_up(),
            }
        }
    }
}

pub open spec fn node_views(nodes: Seq<SyntaxTreeNode>) -> Seq<SpecSyntaxTreeNode> {
    nodes.map_values(|n: SyntaxTreeNode| n@)
}

impl View for SyntaxTree {
    type V = SpecTree;

    closed spec fn view(&self) -> SpecTree {
        SpecTree {
            nodes: node_views(tree_graph_nodes(self.graph)),
            edges: tree_graph_edges(self.graph),
            root: self.root,
            current: self.current,
            parents: self.parents@,
        }
    }
}

impl SpecTree {
    /// The shape every syntax tree keeps: the root is node 0, each other node
    /// has an earlier parent, and every edge joins an existing node to a later
    /// one.
    pub open spec fn wf(self) -> bool {
        &&& self.nodes.len() < u32::MAX
        &&& self.edges.len() <= self.nodes.len()
        &&& self.root == (if self.nodes.len() == 0 {
            None::<usize>
        } else {
            Some(0usize)
        })
        &&& self.current matches Some(c) ==> c < self.nodes.len()
        &&& forall|k: usize| #[trigger] self.parents.contains_key(k) <==> k < self.nodes.len()
        &&& forall|k: usize|
            k < self.nodes.len() ==> (#[trigger] self.parents[k] matches Some(p) ==> p < k)
        &&& forall|i: int|
            0 <= i < self.edges.len() ==> (#[trigger] self.edges[i]).0 < self.edges[i].1
                && self.edges[i].1 < self.nodes.len()
    }
}

pub proof fn lemma_children_bounded(edges: Seq<(usize, usize)>, a: usize, n: nat)
    requires
        forall|i: int| 0 <= i < edges.len() ==> (#[trigger] edges[i]).1 < n,
    ensures
        forall|i: int| 0 <= i < children_of(edges, a).len() ==> #[trigger] children_of(edges, a)[i] < n,
    decreases edges.len(),
{
    if edges.len() > 0 {
        let rest = edges.drop_last();
        assert forall|i: int| 0 <= i < rest.len() implies (#[trigger] rest[i]).1 < n by {
            assert(rest[i] == edges[i]);
        }
        lemma_children_bounded(rest, a, n);
        let c = children_of(edges, a);
        let cr = children_of(rest, a);
        assert forall|i: int| 0 <= i < c.len() implies #[trigger] c[i] < n by {
            if edges.last().0 == a {
                if i > 0 {
                    assert(c[i] == cr[i - 1]);
                } else {
                    assert(edges.last() == edges[edges.len() - 1]);
                }
            }
        }
    }
}

pub proof fn lemma_children_above(edges: Seq<(usize, usize)>, a: usize)
    requires
        forall|i: int| 0 <= i < edges.len() ==> (#[trigger] edges[i]).0 < edges[i].1,
    ensures
        forall|i: int| 0 <= i < children_of(edges, a).len() ==> #[trigger] children_of(edges, a)[i] > a,
    decreases edges.len(),
{
    if edges.len() > 0 {
        let rest = edges.drop_last();
        assert forall|i: int| 0 <= i < rest.len() implies (#[trigger] rest[i]).0 < rest[i].1 by {
            assert(rest[i] == edges[i]);
        }
        lemma_children_above(rest, a);
        let c = children_of(edges, a);
        let cr = children_of(rest, a);
        assert forall|i: int| 0 <= i < c.len() implies #[trigger] c[i] > a by {
            if edges.last().0 == a {
                if i > 0 {
                    assert(c[i] == cr[i - 1]);
                } else {
                    assert(edges.last() == edges[edges.len() - 1]);
                }
            }
        }
    }
}

impl SyntaxTree {
    /// An empty tree.
    pub fn new() -> (r: Self)
        ensures
            r@ == SpecTree::empty(),
            r@.wf(),
    {
        let t = SyntaxTree {
            graph: tree_graph_new(),
            root: None,
            current: None,
            parents: HashMap::new(),
        };
        assert(node_views(tree_graph_nodes(t.graph)) =~= Seq::<SpecSyntaxTreeNode>::empty());
        t
    }

    /// Add a node below the current one (or as the root of an empty tree).
    /// Unless it is a leaf, the new node becomes the current node.
    pub fn add_node(&mut self, kind: SyntaxTreeNodeTypes, label: SyntaxTreeNode)
        requires
            old(self)@.wf(),
            old(self)@.can_add(),
            old(self)@.nodes.len() + 2 < u32::MAX,
        ensures
            final(self)@ == old(self)@.add(kind, label@),
            final(self)@.wf(),
    {
        let ghost old_view = self@;
        let ghost lv = label@;
        let ghost nodes0 = tree_graph_nodes(self.graph);
        let new_node: usize = tree_graph_add_node(&mut self.graph, label);
        assert(node_views(tree_graph_nodes(self.graph)) =~= node_views(nodes0).push(lv));
        if self.root.is_none() {
            self.root = Some(new_node);
            self.parents.insert(new_node, None);
        } else {
            let cur = self.current.unwrap();
            self.parents.insert(new_node, Some(cur));
            tree_graph_add_edge(&mut self.graph, cur, new_node);
        }
        if kind != SyntaxTreeNodeTypes::Leaf {
            self.current = Some(new_node);
        }
        assert(self@.parents =~= old_view.parents.insert(new_node, if old_view.root is None { None } else { old_view.current }));
        assert(self@ =~= old_view.add(kind, lv));
    }

    /// Move the current node back up to its parent.
    pub fn move_up(&mut self)
        requires
            old(self)@.wf(),
        ensures
            final(self)@ == old(self)@.move_up(),
            final(self)@.wf(),
    {
        if self.current.is_some() {
            let c = self.current.unwrap();
            let cur_parent: Option<usize> = *self.parents.get(&c).unwrap();
            self.current = cur_parent;
        }
    }

    /// Remove every node.
    pub fn reset(&mut self)
        ensures
            final(self)@ == SpecTree::empty(),
            final(self)@.wf(),
    {
        tree_graph_clear(&mut self.graph);
        self.parents.clear();
        self.current = None;
        self.root = None;
        assert(node_views(tree_graph_nodes(self.graph)) =~= Seq::<SpecSyntaxTreeNode>::empty());
        assert(self@.parents =~= Map::<usize, Option<usize>>::empty());
    }

    /// The index of the root node, if the tree has one.
    pub fn root_index(&self) -> (r: Option<usize>)
        ensures
            r == self@.root,
    {
        self.root
    }

    /// The number of nodes.
    pub fn node_count(&self) -> (r: usize)
        requires
            self@.wf(),
        ensures
            r == self@.nodes.len(),
    {
        tree_graph_node_count(&self.graph)
    }

    /// The node at an index.
    pub fn node(&self, a: usize) -> (r: &SyntaxTreeNode)
        requires
            self@.wf(),
            a < self@.nodes.len(),
        ensures
            r@ == self@.nodes[a as int],
    {
        tree_graph_node(&self.graph, a)
    }

    /// The children of a node, the most recently added first.
    pub fn children(&self, a: usize) -> (r: Vec<usize>)
        requires
            self@.wf(),
            a < self@.nodes.len(),
        ensures
            r@ == self@.children(a),
            forall|i: int| 0 <= i < r@.len() ==> #[trigger] r@[i] < self@.nodes.len(),
            forall|i: int| 0 <= i < r@.len() ==> #[trigger] r@[i] > a,
    {
        proof {
            lemma_children_bounded(self@.edges, a, self@.nodes.len());
            lemma_children_above(self@.edges, a);
        }
        tree_graph_neighbors(&self.graph, a)
    }

    /// Build a tree by applying building steps to an empty tree.
    pub fn from_events(events: &Vec<TreeEvent>) -> (r: SyntaxTree)
        ensures
            r@ == SpecTree::empty().apply(event_views(events@)),
            r@.wf(),
    {
        let mut tree = SyntaxTree::new();
        let mut i: usize = 0;
        while i < events.len()
            invariant
                i <= events.len(),
                tree@.wf(),
                tree@ == SpecTree::empty().apply(event_views(events@).take(i as int)),
            decreases events.len() - i,
        {
            let ghost prev = event_views(events@).take(i as int);
            assert(event_views(events@).take(i + 1).drop_last() =~= prev);
            let can_add = (tree.root.is_none() || tree.current.is_some()) && tree.node_count() < u32::MAX as usize - 3;
            match &events[i] {
                TreeEvent::Branch(nt) => {
                    if can_add {
                        tree.add_node(SyntaxTreeNodeTypes::Branch, SyntaxTreeNode::NonTerminalCst(*nt));
                    }
                },
                TreeEvent::AstBranch(nt) => {
                    if can_add {
                        tree.add_node(SyntaxTreeNodeTypes::Branch, SyntaxTreeNode::NonTerminalAst(*nt));
                    }
                },
                TreeEvent::Leaf(tok) => {
                    if can_add {
                        tree.add_node(SyntaxTreeNodeTypes::Leaf, SyntaxTreeNode::Terminal(tok.duplicate()));
                    }
                },
                TreeEvent::Up => {
                    tree.move_up();
                },
            }
            i = i + 1;
        }
        assert(event_views(events@).take(i as int) =~= event_views(events@));
        tree
    }
}


// ---------------------------------------------------------------------------
// Laws of building a tree
// ---------------------------------------------------------------------------
/// Adding a branch (or a root) and moving up returns to the node that was
/// current before.
pub proof fn lemma_add_then_move_up(t: SpecTree, kind: SyntaxTreeNodeTypes, label: SpecSyntaxTreeNode)
    requires
        t.wf(),
        kind != SyntaxTreeNodeTypes::Leaf,
    ensures
        t.add(kind, label).move_up().current == t.current,
{
}

/// Adding a leaf keeps the current node, and the leaf becomes its newest
/// child (or the root of an empty tree).
pub proof fn lemma_add_leaf(t: SpecTree, label: SpecSyntaxTreeNode)
    requires
        t.can_add(),
    ensures
        t.add(SyntaxTreeNodeTypes::Leaf, label).current == t.current,
        t.add(SyntaxTreeNodeTypes::Leaf, label).nodes.last() == label,
        t.root is None ==> t.add(SyntaxTreeNodeTypes::Leaf, label).root == Some(t.nodes.len() as usize),
        t.root is Some ==> t.add(SyntaxTreeNodeTypes::Leaf, label).children(t.current->0)[0] == t.nodes.len() as usize,
{
}

// ---------------------------------------------------------------------------
// The text of a tree
// ---------------------------------------------------------------------------
/// The line of a node in the text of a tree: a token as `[text]`, a
/// nonterminal as `<Name>`.
pub open spec fn node_text(n: SpecSyntaxTreeNode) -> Seq<char> {
    match n {
        SpecSyntaxTreeNode::Terminal(t) => "["@ + t.text + "]\n"@,
        SpecSyntaxTreeNode::NonTerminalCst(nt) => "<"@ + cst_name(nt) + ">\n"@,
        SpecSyntaxTreeNode::NonTerminalAst(nt) => "<"@ + ast_name(nt) + ">\n"@,
    }
}

/// A run of dashes.
pub open spec fn dashes(n: nat) -> Seq<char> {
    Seq::new(n, |i: int| '-')
}

/// The text of the subtree at a node: its line indented by its depth in
/// dashes, then its children's subtrees in source order.
pub open spec fn subtree_text(t: SpecTree, a: int, level: nat) -> Seq<char>
    decreases t.nodes.len() - a, 1int, 0int,
{
    if !(0 <= a < t.nodes.len()) {
        Seq::empty()
    } else {
        dashes(level) + node_text(t.nodes[a]) + kids_text(t, a, t.children(a as usize).len() as int, level + 1)
    }
}

/// The subtrees of the first `k` children of a node, the last of them first
/// (source order).
pub open spec fn kids_text(t: SpecTree, a: int, k: int, level: nat) -> Seq<char>
    decreases t.nodes.len() - a, 0int, k,
{
    if k <= 0 {
        Seq::empty()
    } else {
        (match kid(t, a, k - 1) {
            Some(c) => subtree_text(t, c as int, level),
            None => Seq::empty(),
        }) + kids_text(t, a, k - 1, level)
    }
}

/// The text of a tree (empty when it has no root).
pub open spec fn tree_text(t: SpecTree) -> Seq<char> {
    match t.root {
        Some(r) => subtree_text(t, r as int, 0),
        None => Seq::empty(),
    }
}

impl SyntaxTree {
    /// The text of the tree, one node per line, each indented by its depth.
    pub fn create_text(&self) -> (r: String)
        requires
            self@.wf(),
        ensures
            r@ == tree_text(self@),
    {
        let mut out = String::new();
        match self.root_index() {
            Some(r) => self.create_text_dfs(&mut out, r, 0),
            None => {},
        }
        out
    }

    fn create_text_dfs(&self, out: &mut String, a: usize, level: usize)
        requires
            self@.wf(),
            level <= a,
        ensures
            final(out)@ == old(out)@ + subtree_text(self@, a as int, level as nat),
        decreases self@.nodes.len() - a, 1int, 0int,
    {
        if a >= self.node_count() {
            assert(subtree_text(self@, a as int, level as nat) =~= Seq::<char>::empty());
            return;
        }
        let ghost start = out@;
        let mut i: usize = 0;
        while i < level
            invariant
                i <= level,
                out@ == start + dashes(i as nat),
            decreases level - i,
        {
            push_char(out, '-');
            assert(dashes((i + 1) as nat) =~= dashes(i as nat).push('-'));
            i = i + 1;
        }
        match self.node(a) {
            SyntaxTreeNode::Terminal(token) => {
                out.append("[");
                out.append(token.text.as_str());
                out.append("]\n");
            },
            SyntaxTreeNode::NonTerminalCst(nt) => {
                out.append("<");
                out.append(nt.name());
                out.append(">\n");
            },
            SyntaxTreeNode::NonTerminalAst(nt) => {
                out.append("<");
                out.append(nt.name());
                out.append(">\n");
            },
        }
        let ghost mid = out@;
        assert(mid =~= start + dashes(level as nat) + node_text(self@.nodes[a as int]));
        let kids = self.children(a);
        self.create_kids_text(out, a, &kids, kids.len(), level + 1);
    }

    fn create_kids_text(&self, out: &mut String, a: usize, kids: &Vec<usize>, k: usize, level: usize)
        requires
            self@.wf(),
            a < self@.nodes.len(),
            kids@ == self@.children(a),
            k <= kids@.len(),
            level <= a + 1,
        ensures
            final(out)@ == old(out)@ + kids_text(self@, a as int, k as int, level as nat),
        decreases self@.nodes.len() - a, 0int, k,
    {
        if k == 0 {
            return;
        }
        let ghost start = out@;
        match kid_exec(self, kids, a, k - 1) {
            Some(c) => {
                self.create_text_dfs(out, c, level);
            },
            None => {},
        }
        let ghost mid = out@;
        self.create_kids_text(out, a, kids, k - 1, level);
        assert(out@ =~= start + kids_text(self@, a as int, k as int, level as nat));
    }
}

} // verus!
