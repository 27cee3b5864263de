use vstd::prelude::*;

use crate::nexus::cst_node::{CstNode, CstNodeTypes, NonTerminals};
use crate::nexus::syntax_tree::{SpecTree, SyntaxTree, tree_text};
use crate::nexus::syntax_tree_node::{NonTerminalsCst, SpecSyntaxTreeNode, SyntaxTreeNode, SyntaxTreeNodeTypes};

verus! {

/// The place in a syntax tree of a concrete syntax tree node kind.
pub open spec fn cst_kind(k: CstNodeTypes) -> SyntaxTreeNodeTypes {
    match k {
        CstNodeTypes::Root => SyntaxTreeNodeTypes::Root,
        CstNodeTypes::Branch => SyntaxTreeNodeTypes::Branch,
        CstNodeTypes::Leaf => SyntaxTreeNodeTypes::Leaf,
    }
}

/// The syntax tree nonterminal of a concrete syntax nonterminal.
pub open spec fn cst_nonterminal(n: NonTerminals) -> NonTerminalsCst {
    match n {
        NonTerminals::Program => NonTerminalsCst::Program,
        NonTerminals::Block => NonTerminalsCst::Block,
        NonTerminals::StatementList => NonTerminalsCst::StatementList,
        NonTerminals::Statement => NonTerminalsCst::Statement,
        NonTerminals::PrintStatement => NonTerminalsCst::PrintStatement,
        NonTerminals::AssignmentStatement => NonTerminalsCst::AssignmentStatement,
        NonTerminals::VarDecl => NonTerminalsCst::VarDecl,
        NonTerminals::WhileStatement => NonTerminalsCst::WhileStatement,
        NonTerminals::IfStatement => NonTerminalsCst::IfStatement,
        NonTerminals::Expr => NonTerminalsCst::Expr,
        NonTerminals::IntExpr => NonTerminalsCst::IntExpr,
        NonTerminals::StringExpr => NonTerminalsCst::StringExpr,
        NonTerminals::BooleanExpr => NonTerminalsCst::BooleanExpr,
        NonTerminals::Id => NonTerminalsCst::Id,
        NonTerminals::CharList => NonTerminalsCst::CharList,
        NonTerminals::Type => NonTerminalsCst::Type,
        NonTerminals::Char => NonTerminalsCst::Char,
        NonTerminals::Space => NonTerminalsCst::Space,
        NonTerminals::Digit => NonTerminalsCst::Digit,
        NonTerminals::BoolOp => NonTerminalsCst::BoolOp,
        NonTerminals::BoolVal => NonTerminalsCst::BoolVal,
        NonTerminals::IntOp => NonTerminalsCst::IntOp,
    }
}

/// The syntax tree node of a concrete syntax tree node.
pub open spec fn cst_label(n: CstNode) -> SpecSyntaxTreeNode {
    match n {
        CstNode::Terminal(tok) => SpecSyntaxTreeNode::Terminal(tok@),
        CstNode::NonTerminal(nt) => SpecSyntaxTreeNode::NonTerminalCst(cst_nonterminal(nt)),
    }
}

fn tree_kind(k: CstNodeTypes) -> (r: SyntaxTreeNodeTypes)
    ensures
        r == cst_kind(k),
{
    match k {
        CstNodeTypes::Root => SyntaxTreeNodeTypes::Root,
        CstNodeTypes::Branch => SyntaxTreeNodeTypes::Branch,
        CstNodeTypes::Leaf => SyntaxTreeNodeTypes::Leaf,
    }
}

fn tree_nonterminal(n: NonTerminals) -> (r: NonTerminalsCst)
    ensures
        r == cst_nonterminal(n),
{
    match n {
        NonTerminals::Program => NonTerminalsCst::Program,
        NonTerminals::Block => NonTerminalsCst::Block,
        NonTerminals::StatementList => NonTerminalsCst::StatementList,
        NonTerminals::Statement => NonTerminalsCst::Statement,
        NonTerminals::PrintStatement => NonTerminalsCst::PrintStatement,
        NonTerminals::AssignmentStatement => NonTerminalsCst::AssignmentStatement,
        NonTerminals::VarDecl => NonTerminalsCst::VarDecl,
        NonTerminals::WhileStatement => NonTerminalsCst::WhileStatement,
        NonTerminals::IfStatement => NonTerminalsCst::IfStatement,
        NonTerminals::Expr => NonTerminalsCst::Expr,
        NonTerminals::IntExpr => NonTerminalsCst::IntExpr,
        NonTerminals::StringExpr => NonTerminalsCst::StringExpr,
        NonTerminals::BooleanExpr => NonTerminalsCst::BooleanExpr,
        NonTerminals::Id => NonTerminalsCst::Id,
        NonTerminals::CharList => NonTerminalsCst::CharList,
        NonTerminals::Type => NonTerminalsCst::Type,
        NonTerminals::Char => NonTerminalsCst::Char,
        NonTerminals::Space => NonTerminalsCst::Space,
        NonTerminals::Digit => NonTerminalsCst::Digit,
        NonTerminals::BoolOp => NonTerminalsCst::BoolOp,
        NonTerminals::BoolVal => NonTerminalsCst::BoolVal,
        NonTerminals::IntOp => NonTerminalsCst::IntOp,
    }
}

/// A concrete syntax tree, built node by node as a parse goes: a syntax
/// tree whose nonterminals are those of the concrete syntax.
pub struct Cst {
    tree: SyntaxTree,
}

impl View for Cst {
    type V = SpecTree;

    closed spec fn view(&self) -> SpecTree {
        self.tree@
    }
}

impl Cst {
    /// The shape every tree keeps: that of its syntax tree.
    pub open spec fn wf(&self) -> bool {
        self@.wf()
    }

    /// An empty tree has no root and no current node, so it takes a first
    /// node (which becomes its root).
    pub proof fn lemma_empty_takes_a_root(&self)
        requires
            self@ == SpecTree::empty(),
        ensures
            self.wf(),
            self@.root is None,
            self@.current is None,
            self@.can_add(),
    {
    }

    /// An empty tree.
    pub fn new() -> (r: Self)
        ensures
            r@ == SpecTree::empty(),
            r.wf(),
    {
        Cst { tree: SyntaxTree::new() }
    }

    /// Add a node below the current one (or as the root of an empty tree);
    /// unless it is a leaf, it becomes the current node.
    pub fn add_node(&mut self, kind: CstNodeTypes, label: CstNode)
        requires
            old(self).wf(),
            old(self)@.can_add(),
            old(self)@.nodes.len() + 2 < u32::MAX,
        ensures
            final(self)@ == old(self)@.add(cst_kind(kind), cst_label(label)),
            final(self).wf(),
    {
        let ghost lv = cst_label(label);
        let node = match label {
            CstNode::Terminal(tok) => SyntaxTreeNode::Terminal(tok),
            CstNode::NonTerminal(nt) => SyntaxTreeNode::NonTerminalCst(tree_nonterminal(nt)),
        };
        assert(node@ == lv);
        self.tree.add_node(tree_kind(kind), node);
    }

    /// Move the current node up to its parent (no current node above the
    /// root).
    pub fn move_up(&mut self)
        requires
            old(self).wf(),
        ensures
            final(self)@ == old(self)@.move_up(),
            final(self).wf(),
    {
        self.tree.move_up();
    }

    /// Empty the tree.
    pub fn reset(&mut self)
        ensures
            final(self)@ == SpecTree::empty(),
            final(self).wf(),
    {
        self.tree.reset();
    }

    /// The tree as indented text: one line per node, a dash per level of
    /// depth, nonterminals in angle brackets and tokens in square ones.
    pub fn create_text(&self) -> (r: String)
        requires
            self.wf(),
        ensures
            r@ == tree_text(self@),
    {
        self.tree.create_text()
    }

    /// The underlying syntax tree.
    pub fn tree(&self) -> (r: &SyntaxTree)
        ensures
            r@ == self@,
    {
        &self.tree
    }
}

} // verus!
