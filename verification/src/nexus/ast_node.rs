use vstd::prelude::*;

use crate::nexus::token::Token;

verus! {

/// A node of a abstract syntax tree: a token, or a nonterminal.
#[derive(Debug)]
pub enum AstNode {
    Terminal(Token),
    NonTerminal(NonTerminals),
}

/// The nonterminals of the abstract syntax.
#[derive(Debug, Clone, Copy, PartialEq, Eq, Structural)]
pub enum NonTerminals {
    Block,
    VarDecl,
    Assign,
    Print,
    While,
    If,
}

/// The place of a node in its tree.
#[derive(Debug, Clone, Copy, PartialEq, Eq, Structural)]
pub enum AstNodeTypes {
    Root,
    Branch,
    Leaf,
}

/// The PascalCase name of a nonterminal.
pub open spec fn ast_node_name(n: NonTerminals) -> Seq<char> {
    match n {
        NonTerminals::Block => "Block"@,
        NonTerminals::VarDecl => "VarDecl"@,
        NonTerminals::Assign => "Assign"@,
        NonTerminals::Print => "Print"@,
        NonTerminals::While => "While"@,
        NonTerminals::If => "If"@,
    }
}

impl NonTerminals {
    /// The PascalCase name of the nonterminal.
    pub fn name(&self) -> (r: &'static str)
        ensures
            r@ == ast_node_name(*self),
    {
        match self {
            NonTerminals::Block => "Block",
            NonTerminals::VarDecl => "VarDecl",
            NonTerminals::Assign => "Assign",
            NonTerminals::Print => "Print",
            NonTerminals::While => "While",
            NonTerminals::If => "If",
        }
    }
}

impl AstNode {
    /// The text a tree display shows for the node: a terminal's token text,
    /// or a nonterminal's name.
    pub fn label(&self) -> (r: String)
        ensures
            r@ == match self {
                AstNode::Terminal(t) => t.text@,
                AstNode::NonTerminal(n) => ast_node_name(*n),
            },
    {
        match self {
            AstNode::Terminal(t) => t.text.clone(),
            AstNode::NonTerminal(n) => String::from_str(n.name()),
        }
    }
}

} // verus!
