use vstd::prelude::*;

use crate::nexus::token::{SpecToken, Token};

verus! {

/// A node of a syntax tree: a token, or a nonterminal of the concrete or the
/// abstract syntax.
#[derive(Debug)]
pub enum SyntaxTreeNode {
    Terminal(Token),
    NonTerminalCst(NonTerminalsCst),
    NonTerminalAst(NonTerminalsAst),
}

/// The mathematical view of a syntax tree node.
pub enum SpecSyntaxTreeNode {
    Terminal(SpecToken),
    NonTerminalCst(NonTerminalsCst),
    NonTerminalAst(NonTerminalsAst),
}

impl View for SyntaxTreeNode {
    type V = SpecSyntaxTreeNode;

    open spec fn view(&self) -> SpecSyntaxTreeNode {
        match self {
            SyntaxTreeNode::Terminal(t) => SpecSyntaxTreeNode::Terminal(t@),
            SyntaxTreeNode::NonTerminalCst(n) => SpecSyntaxTreeNode::NonTerminalCst(*n),
            SyntaxTreeNode::NonTerminalAst(n) => SpecSyntaxTreeNode::NonTerminalAst(*n),
        }
    }
}

/// Valid nonterminals for a CST.
#[derive(Debug, Clone, Copy, PartialEq, Eq, Structural)]
pub enum NonTerminalsCst {
    Program,
    Block,
    StatementList,
    Statement,
    PrintStatement,
    AssignmentStatement,
    VarDecl,
    WhileStatement,
    IfStatement,
    Expr,
    IntExpr,
    StringExpr,
    BooleanExpr,
    Id,
    CharList,
    Type,
    Char,
    Space,
    Digit,
    BoolOp,
    BoolVal,
    IntOp,
}

/// Valid nonterminals for an AST.
#[derive(Debug, Clone, Copy, PartialEq, Eq, Structural)]
pub enum NonTerminalsAst {
    Block,
    VarDecl,
    Assign,
    Print,
    While,
    If,
    Add,
    IsEq,
    NotEq,
}

/// The type of a node relative to the tree.
#[derive(Debug, Clone, Copy, PartialEq, Eq, Structural)]
pub enum SyntaxTreeNodeTypes {
    Root,
    Branch,
    Leaf,
}

/// The PascalCase name of a nonterminal.
pub open spec fn cst_name(n: NonTerminalsCst) -> Seq<char> {
    match n {
        NonTerminalsCst::Program => "Program"@,
        NonTerminalsCst::Block => "Block"@,
        NonTerminalsCst::StatementList => "StatementList"@,
        NonTerminalsCst::Statement => "Statement"@,
        NonTerminalsCst::PrintStatement => "PrintStatement"@,
        NonTerminalsCst::AssignmentStatement => "AssignmentStatement"@,
        NonTerminalsCst::VarDecl => "VarDecl"@,
        NonTerminalsCst::WhileStatement => "WhileStatement"@,
        NonTerminalsCst::IfStatement => "IfStatement"@,
        NonTerminalsCst::Expr => "Expr"@,
        NonTerminalsCst::IntExpr => "IntExpr"@,
        NonTerminalsCst::StringExpr => "StringExpr"@,
        NonTerminalsCst::BooleanExpr => "BooleanExpr"@,
        NonTerminalsCst::Id => "Id"@,
        NonTerminalsCst::CharList => "CharList"@,
        NonTerminalsCst::Type => "Type"@,
        NonTerminalsCst::Char => "Char"@,
        NonTerminalsCst::Space => "Space"@,
        NonTerminalsCst::Digit => "Digit"@,
        NonTerminalsCst::BoolOp => "BoolOp"@,
        NonTerminalsCst::BoolVal => "BoolVal"@,
        NonTerminalsCst::IntOp => "IntOp"@,
    }
}

impl NonTerminalsCst {
    /// The PascalCase name of the nonterminal.
    pub fn name(&self) -> (r: &'static str)
        ensures
            r@ == cst_name(*self),
    {
        match self {
            NonTerminalsCst::Program => "Program",
            NonTerminalsCst::Block => "Block",
            NonTerminalsCst::StatementList => "StatementList",
            NonTerminalsCst::Statement => "Statement",
            NonTerminalsCst::PrintStatement => "PrintStatement",
            NonTerminalsCst::AssignmentStatement => "AssignmentStatement",
            NonTerminalsCst::VarDecl => "VarDecl",
            NonTerminalsCst::WhileStatement => "WhileStatement",
            NonTerminalsCst::IfStatement => "IfStatement",
            NonTerminalsCst::Expr => "Expr",
            NonTerminalsCst::IntExpr => "IntExpr",
            NonTerminalsCst::StringExpr => "StringExpr",
            NonTerminalsCst::BooleanExpr => "BooleanExpr",
            NonTerminalsCst::Id => "Id",
            NonTerminalsCst::CharList => "CharList",
            NonTerminalsCst::Type => "Type",
            NonTerminalsCst::Char => "Char",
            NonTerminalsCst::Space => "Space",
            NonTerminalsCst::Digit => "Digit",
            NonTerminalsCst::BoolOp => "BoolOp",
            NonTerminalsCst::BoolVal => "BoolVal",
            NonTerminalsCst::IntOp => "IntOp",
        }
    }
}

/// The PascalCase name of a nonterminal.
pub open spec fn ast_name(n: NonTerminalsAst) -> Seq<char> {
    match n {
        NonTerminalsAst::Block => "Block"@,
        NonTerminalsAst::VarDecl => "VarDecl"@,
        NonTerminalsAst::Assign => "Assign"@,
        NonTerminalsAst::Print => "Print"@,
        NonTerminalsAst::While => "While"@,
        NonTerminalsAst::If => "If"@,
        NonTerminalsAst::Add => "Add"@,
        NonTerminalsAst::IsEq => "IsEq"@,
        NonTerminalsAst::NotEq => "NotEq"@,
    }
}

impl NonTerminalsAst {
    /// The PascalCase name of the nonterminal.
    pub fn name(&self) -> (r: &'static str)
        ensures
            r@ == ast_name(*self),
    {
        match self {
            NonTerminalsAst::Block => "Block",
            NonTerminalsAst::VarDecl => "VarDecl",
            NonTerminalsAst::Assign => "Assign",
            NonTerminalsAst::Print => "Print",
            NonTerminalsAst::While => "While",
            NonTerminalsAst::If => "If",
            NonTerminalsAst::Add => "Add",
            NonTerminalsAst::IsEq => "IsEq",
            NonTerminalsAst::NotEq => "NotEq",
        }
    }
}

impl SyntaxTreeNode {
    /// The text a tree display shows for the node: a terminal's token text,
    /// or a nonterminal's name.
    pub fn label(&self) -> (r: String)
        ensures
            r@ == match self@ {
                SpecSyntaxTreeNode::Terminal(t) => t.text,
                SpecSyntaxTreeNode::NonTerminalCst(n) => cst_name(n),
                SpecSyntaxTreeNode::NonTerminalAst(n) => ast_name(n),
            },
    {
        match self {
            SyntaxTreeNode::Terminal(t) => t.text.clone(),
            SyntaxTreeNode::NonTerminalCst(n) => String::from_str(n.name()),
            SyntaxTreeNode::NonTerminalAst(n) => String::from_str(n.name()),
        }
    }
}

} // verus!
