use vstd::prelude::*;

use crate::nexus::token::Token;

verus! {

/// A node of a concrete syntax tree: a token, or a nonterminal.
#[derive(Debug)]
pub enum CstNode {
    Terminal(Token),
    NonTerminal(NonTerminals),
}

/// The nonterminals of the concrete syntax.
#[derive(Debug, Clone, Copy, PartialEq, Eq, Structural)]
pub enum NonTerminals {
    Program,
    Block,
    StatementList,
    Statement,
    PrintStatement,
    AssignmentStatement,
    VarDecl,
    WhileStatement,
    IfStatement,
    Expr,
    IntExpr,
    StringExpr,
    BooleanExpr,
    Id,
    CharList,
    Type,
    Char,
    Space,
    Digit,
    BoolOp,
    BoolVal,
    IntOp,
}

/// The place of a node in its tree.
#[derive(Debug, Clone, Copy, PartialEq, Eq, Structural)]
pub enum CstNodeTypes {
    Root,
    Branch,
    Leaf,
}

/// The PascalCase name of a nonterminal.
pub open spec fn cst_node_name(n: NonTerminals) -> Seq<char> {
    match n {
        NonTerminals::Program => "Program"@,
        NonTerminals::Block => "Block"@,
        NonTerminals::StatementList => "StatementList"@,
        NonTerminals::Statement => "Statement"@,
        NonTerminals::PrintStatement => "PrintStatement"@,
        NonTerminals::AssignmentStatement => "AssignmentStatement"@,
        NonTerminals::VarDecl => "VarDecl"@,
        NonTerminals::WhileStatement => "WhileStatement"@,
        NonTerminals::IfStatement => "IfStatement"@,
        NonTerminals::Expr => "Expr"@,
        NonTerminals::IntExpr => "IntExpr"@,
        NonTerminals::StringExpr => "StringExpr"@,
        NonTerminals::BooleanExpr => "BooleanExpr"@,
        NonTerminals::Id => "Id"@,
        NonTerminals::CharList => "CharList"@,
        NonTerminals::Type => "Type"@,
        NonTerminals::Char => "Char"@,
        NonTerminals::Space => "Space"@,
        NonTerminals::Digit => "Digit"@,
        NonTerminals::BoolOp => "BoolOp"@,
        NonTerminals::BoolVal => "BoolVal"@,
        NonTerminals::IntOp => "IntOp"@,
    }
}

impl NonTerminals {
    /// The PascalCase name of the nonterminal.
    pub fn name(&self) -> (r: &'static str)
        ensures
            r@ == cst_node_name(*self),
    {
        match self {
            NonTerminals::Program => "Program",
            NonTerminals::Block => "Block",
            NonTerminals::StatementList => "StatementList",
            NonTerminals::Statement => "Statement",
            NonTerminals::PrintStatement => "PrintStatement",
            NonTerminals::AssignmentStatement => "AssignmentStatement",
            NonTerminals::VarDecl => "VarDecl",
            NonTerminals::WhileStatement => "WhileStatement",
            NonTerminals::IfStatement => "IfStatement",
            NonTerminals::Expr => "Expr",
            NonTerminals::IntExpr => "IntExpr",
            NonTerminals::StringExpr => "StringExpr",
            NonTerminals::BooleanExpr => "BooleanExpr",
            NonTerminals::Id => "Id",
            NonTerminals::CharList => "CharList",
            NonTerminals::Type => "Type",
            NonTerminals::Char => "Char",
            NonTerminals::Space => "Space",
            NonTerminals::Digit => "Digit",
            NonTerminals::BoolOp => "BoolOp",
            NonTerminals::BoolVal => "BoolVal",
            NonTerminals::IntOp => "IntOp",
        }
    }
}

impl CstNode {
    /// The text a tree display shows for the node: a terminal's token text,
    /// or a nonterminal's name.
    pub fn label(&self) -> (r: String)
        ensures
            r@ == match self {
                CstNode::Terminal(t) => t.text@,
                CstNode::NonTerminal(n) => cst_node_name(*n),
            },
    {
        match self {
            CstNode::Terminal(t) => t.text.clone(),
            CstNode::NonTerminal(n) => String::from_str(n.name()),
        }
    }
}

} // verus!
