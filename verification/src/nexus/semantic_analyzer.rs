use vstd::prelude::*;

use crate::nexus::lexer::token_views;
use crate::nexus::parser::{SpecTreeEvent, TreeEvent, event_views};
use crate::nexus::symbol_table::{
    SpecSymbolTable, SymbolTable, SymbolTableEntry, SymbolTableEntryField, SymbolWarning, Type,
    all_warnings, has_id,
};
use crate::nexus::syntax_tree::{SpecTree, SyntaxTree};
use crate::nexus::syntax_tree_node::{NonTerminalsAst, SpecSyntaxTreeNode, SyntaxTreeNode};
use crate::nexus::token::{Keywords, SpecToken, SpecTokenType, Symbols, Token, TokenType};

verus! {

// ---------------------------------------------------------------------------
// The abstract syntax of a parsed program
// ---------------------------------------------------------------------------
/// The index after an AST piece and the steps that build it.
pub type AstResult = (int, Seq<SpecTreeEvent>);

/// Put the steps of a piece under a new AST node.
pub open spec fn ast_wrap(nt: NonTerminalsAst, r: AstResult) -> AstResult {
    (r.0, seq![SpecTreeEvent::AstBranch(nt)] + r.1 + seq![SpecTreeEvent::Up])
}

/// The index after skipping one token, if there is one.
pub open spec fn step(t: Seq<SpecToken>, i: int) -> int {
    if i < t.len() {
        i + 1
    } else {
        i
    }
}

pub open spec fn at_sym(t: Seq<SpecToken>, i: int, s: Symbols) -> bool {
    0 <= i < t.len() && t[i].token_type == SpecTokenType::Symbol(s)
}

/// A token that stands for itself: a digit, an identifier, a type or a
/// boolean value.
pub open spec fn ast_leaf(t: Seq<SpecToken>, i: int) -> AstResult {
    if 0 <= i < t.len() {
        (i + 1, seq![SpecTreeEvent::Leaf(t[i])])
    } else {
        (i, Seq::empty())
    }
}

/// The index of the first quote at or after `j` (the end of the tokens when
/// there is none).
pub open spec fn string_end(t: Seq<SpecToken>, j: int) -> int
    decreases t.len() - j,
{
    if !(0 <= j < t.len()) || at_sym(t, j, Symbols::Quote) {
        j
    } else {
        string_end(t, j + 1)
    }
}

/// The texts of the tokens from `j` up to `k`, joined.
pub open spec fn string_text(t: Seq<SpecToken>, j: int, k: int) -> Seq<char>
    decreases k - j,
{
    if k <= j {
        Seq::empty()
    } else {
        string_text(t, j, k - 1) + t[k - 1].text
    }
}

/// A string literal becomes one character-string token at the position of
/// its opening quote.
pub open spec fn ast_string(t: Seq<SpecToken>, i: int) -> AstResult {
    let k = string_end(t, i + 1);
    let text = string_text(t, i + 1, k);
    (
        step(t, k),
        seq![
            SpecTreeEvent::Leaf(
                SpecToken {
                    token_type: SpecTokenType::Char(text),
                    text: text,
                    position: t[i].position,
                },
            ),
        ],
    )
}

/// The first `==` or `!=` from index `k` on that is not inside parentheses
/// opened from `k` on (`depth` counts those still open).
pub open spec fn find_op(t: Seq<SpecToken>, k: int, depth: int) -> Option<NonTerminalsAst>
    decreases t.len() - k,
{
    if !(0 <= k < t.len()) {
        None
    } else {
        match t[k].token_type {
            SpecTokenType::Symbol(Symbols::EqOp) => if depth == 0 {
                Some(NonTerminalsAst::IsEq)
            } else {
                find_op(t, k + 1, depth)
            },
            SpecTokenType::Symbol(Symbols::NeqOp) => if depth == 0 {
                Some(NonTerminalsAst::NotEq)
            } else {
                find_op(t, k + 1, depth)
            },
            SpecTokenType::Symbol(Symbols::LParen) => find_op(t, k + 1, depth + 1),
            SpecTokenType::Symbol(Symbols::RParen) => find_op(t, k + 1, depth - 1),
            _ => find_op(t, k + 1, depth),
        }
    }
}

/// The node of a parenthesized comparison: the operator found by scanning
/// from the second token after the opening parenthesis (`==` when none is
/// found).
pub open spec fn comparison_node(t: Seq<SpecToken>, i: int) -> NonTerminalsAst {
    match find_op(t, i + 2, 0) {
        Some(n) => n,
        None => NonTerminalsAst::IsEq,
    }
}

/// ( Expr boolop Expr ) becomes IsEq or NotEq over the two expressions.
pub open spec fn ast_long_bool(t: Seq<SpecToken>, i: int) -> AstResult
    decreases t.len() - i, 1int,
{
    let nt = comparison_node(t, i);
    if !(0 <= i < t.len()) {
        ast_wrap(nt, (i, Seq::empty()))
    } else {
        let (j, e1) = ast_expr(t, i + 1);
        if !(i < j < t.len()) {
            ast_wrap(nt, (j, e1))
        } else {
            let (k, e2) = ast_expr(t, j + 1);
            ast_wrap(nt, (step(t, k), e1 + e2))
        }
    }
}

/// A boolean expression: a comparison, or a boolean value.
pub open spec fn ast_bool(t: Seq<SpecToken>, i: int) -> AstResult
    decreases t.len() - i, 2int,
{
    if !(0 <= i < t.len()) {
        (i, Seq::empty())
    } else {
        match t[i].token_type {
            SpecTokenType::Symbol(Symbols::LParen) => ast_long_bool(t, i),
            SpecTokenType::Keyword(Keywords::False) | SpecTokenType::Keyword(Keywords::True) =>
                ast_leaf(t, i),
            _ => (i, Seq::empty()),
        }
    }
}

/// digit + Expr becomes Add over the digit and the expression; a lone digit
/// stands for itself.
pub open spec fn ast_int(t: Seq<SpecToken>, i: int) -> AstResult
    decreases t.len() - i, 2int,
{
    if 0 <= i && at_sym(t, i + 1, Symbols::AdditionOp) {
        let (k, e) = ast_expr(t, i + 2);
        ast_wrap(NonTerminalsAst::Add, (k, seq![SpecTreeEvent::Leaf(t[i])] + e))
    } else {
        ast_leaf(t, i)
    }
}

/// An expression, chosen by its first token.
pub open spec fn ast_expr(t: Seq<SpecToken>, i: int) -> AstResult
    decreases t.len() - i, 3int,
{
    if !(0 <= i < t.len()) {
        (i, Seq::empty())
    } else {
        match t[i].token_type {
            SpecTokenType::Digit(_) => ast_int(t, i),
            SpecTokenType::Symbol(Symbols::Quote) => ast_string(t, i),
            SpecTokenType::Symbol(Symbols::LParen) | SpecTokenType::Keyword(Keywords::False)
            | SpecTokenType::Keyword(Keywords::True) => ast_bool(t, i),
            SpecTokenType::Identifier(_) => ast_leaf(t, i),
            _ => (i, Seq::empty()),
        }
    }
}

/// print ( Expr ) becomes Print over the expression.
pub open spec fn ast_print(t: Seq<SpecToken>, i: int) -> AstResult
    decreases t.len() - i, 4int,
{
    if !(0 <= i < t.len()) {
        ast_wrap(NonTerminalsAst::Print, (i, Seq::empty()))
    } else {
        let (j, e) = ast_expr(t, step(t, i + 1));
        ast_wrap(NonTerminalsAst::Print, (step(t, j), e))
    }
}

/// Id = Expr becomes Assign over the identifier and the expression.
pub open spec fn ast_assign(t: Seq<SpecToken>, i: int) -> AstResult
    decreases t.len() - i, 4int,
{
    if !(0 <= i < t.len()) {
        ast_wrap(NonTerminalsAst::Assign, (i, Seq::empty()))
    } else {
        let (k, e) = ast_expr(t, step(t, i + 1));
        ast_wrap(NonTerminalsAst::Assign, (k, seq![SpecTreeEvent::Leaf(t[i])] + e))
    }
}

/// type Id becomes VarDecl over the type and the identifier.
pub open spec fn ast_var_decl(t: Seq<SpecToken>, i: int) -> AstResult {
    let (j, e1) = ast_leaf(t, i);
    let (k, e2) = ast_leaf(t, j);
    ast_wrap(NonTerminalsAst::VarDecl, (k, e1 + e2))
}

/// while BooleanExpr Block and if BooleanExpr Block become While or If over
/// the condition and the block.
pub open spec fn ast_cond(t: Seq<SpecToken>, i: int, is_while: bool) -> AstResult
    decreases t.len() - i, 4int,
{
    let nt = if is_while {
        NonTerminalsAst::While
    } else {
        NonTerminalsAst::If
    };
    if !(0 <= i < t.len()) {
        ast_wrap(nt, (i, Seq::empty()))
    } else {
        let (j, e1) = ast_bool(t, i + 1);
        if !(i < j <= t.len()) {
            ast_wrap(nt, (j, e1))
        } else {
            let (k, e2) = ast_block(t, j);
            ast_wrap(nt, (k, e1 + e2))
        }
    }
}

/// A statement, chosen by its first token.
pub open spec fn ast_statement(t: Seq<SpecToken>, i: int) -> AstResult
    decreases t.len() - i, 5int,
{
    if !(0 <= i < t.len()) {
        (i, Seq::empty())
    } else {
        match t[i].token_type {
            SpecTokenType::Keyword(Keywords::Print) => ast_print(t, i),
            SpecTokenType::Identifier(_) => ast_assign(t, i),
            SpecTokenType::Keyword(Keywords::Int) | SpecTokenType::Keyword(Keywords::String)
            | SpecTokenType::Keyword(Keywords::Boolean) => ast_var_decl(t, i),
            SpecTokenType::Keyword(Keywords::While) => ast_cond(t, i, true),
            SpecTokenType::Keyword(Keywords::If) => ast_cond(t, i, false),
            SpecTokenType::Symbol(Symbols::LBrace) => ast_block(t, i),
            _ => (i, Seq::empty()),
        }
    }
}

/// The statements up to the closing brace (or up to one that consumes
/// nothing).
pub open spec fn ast_statements(t: Seq<SpecToken>, i: int) -> AstResult
    decreases t.len() - i, 6int,
{
    if 0 <= i < t.len() && !at_sym(t, i, Symbols::RBrace) {
        let (j, e) = ast_statement(t, i);
        if !(i < j <= t.len()) {
            (j, e)
        } else {
            let (k, e2) = ast_statements(t, j);
            (k, e + e2)
        }
    } else {
        (i, Seq::empty())
    }
}

/// { StatementList } becomes Block over the statements.
pub open spec fn ast_block(t: Seq<SpecToken>, i: int) -> AstResult
    decreases t.len() - i, 4int,
{
    if !(0 <= i < t.len()) {
        ast_wrap(NonTerminalsAst::Block, (i, Seq::empty()))
    } else {
        let (j, e) = ast_statements(t, i + 1);
        ast_wrap(NonTerminalsAst::Block, (step(t, j), e))
    }
}

/// The steps that build the AST of a program's tokens.
pub open spec fn ast_program(t: Seq<SpecToken>) -> Seq<SpecTreeEvent> {
    ast_block(t, 0).1
}


// ---------------------------------------------------------------------------
// What semantic analysis reports
// ---------------------------------------------------------------------------
/// An error or warning found by semantic analysis.
#[derive(Debug)]
pub enum SemanticDiagnostic {
    /// Error: the identifier is already declared in the current scope.
    Redeclared { id: String, position: (usize, usize) },
    /// Error: no declaration of the identifier is visible.
    Undeclared { id: String, position: (usize, usize) },
    /// Error: the value assigned is not of the variable's type.
    AssignmentTypeMismatch { position: (usize, usize), expected: Type, found: Type },
    /// Error: the right side of an addition is not an integer.
    AdditionTypeMismatch { position: (usize, usize), found: Type },
    /// Error: the two sides of a comparison differ in type.
    ComparisonTypeMismatch { position: (usize, usize), left: Type, right: Type },
    /// Warning: a variable is given its first value after it was used.
    InitializedAfterUse { id: String, position: (usize, usize), declared_at: (usize, usize) },
    /// Warning: a variable is used before it is given a value.
    UninitializedUse { id: String, position: (usize, usize), declared_at: (usize, usize) },
    /// Warning: once analysis is over, a declared variable is unused or
    /// never given a value.
    Unused { id: String, position: (usize, usize), warning: SymbolWarning },
}

pub enum SpecDiagnostic {
    Redeclared { id: Seq<char>, position: (usize, usize) },
    Undeclared { id: Seq<char>, position: (usize, usize) },
    AssignmentTypeMismatch { position: (usize, usize), expected: Type, found: Type },
    AdditionTypeMismatch { position: (usize, usize), found: Type },
    ComparisonTypeMismatch { position: (usize, usize), left: Type, right: Type },
    InitializedAfterUse { id: Seq<char>, position: (usize, usize), declared_at: (usize, usize) },
    UninitializedUse { id: Seq<char>, position: (usize, usize), declared_at: (usize, usize) },
    Unused { id: Seq<char>, position: (usize, usize), warning: SymbolWarning },
}

impl View for SemanticDiagnostic {
    type V = SpecDiagnostic;

    open spec fn view(&self) -> SpecDiagnostic {
        match self {
            SemanticDiagnostic::Redeclared { id, position } => SpecDiagnostic::Redeclared {
                id: id@,
                position: *position,
            },
            SemanticDiagnostic::Undeclared { id, position } => SpecDiagnostic::Undeclared {
                id: id@,
                position: *position,
            },
            SemanticDiagnostic::AssignmentTypeMismatch { position, expected, found } =>
                SpecDiagnostic::AssignmentTypeMismatch {
                position: *position,
                expected: *expected,
                found: *found,
            },
            SemanticDiagnostic::AdditionTypeMismatch { position, found } =>
                SpecDiagnostic::AdditionTypeMismatch { position: *position, found: *found },
            SemanticDiagnostic::ComparisonTypeMismatch { position, left, right } =>
                SpecDiagnostic::ComparisonTypeMismatch {
                position: *position,
                left: *left,
                right: *right,
            },
            SemanticDiagnostic::InitializedAfterUse { id, position, declared_at } =>
                SpecDiagnostic::InitializedAfterUse {
                id: id@,
                position: *position,
                declared_at: *declared_at,
            },
            SemanticDiagnostic::UninitializedUse { id, position, declared_at } =>
                SpecDiagnostic::UninitializedUse {
                id: id@,
                position: *position,
                declared_at: *declared_at,
            },
            SemanticDiagnostic::Unused { id, position, warning } => SpecDiagnostic::Unused {
                id: id@,
                position: *position,
                warning: *warning,
            },
        }
    }
}

pub open spec fn diag_views(ds: Seq<SemanticDiagnostic>) -> Seq<SpecDiagnostic> {
    ds.map_values(|d: SemanticDiagnostic| d@)
}

impl SpecDiagnostic {
    /// Whether this is an error (the others are warnings).
    pub open spec fn is_error(self) -> bool {
        ||| self is Redeclared
        ||| self is Undeclared
        ||| self is AssignmentTypeMismatch
        ||| self is AdditionTypeMismatch
        ||| self is ComparisonTypeMismatch
    }
}

/// The number of errors among diagnostics.
pub open spec fn error_count(ds: Seq<SpecDiagnostic>) -> nat
    decreases ds.len(),
{
    if ds.len() == 0 {
        0
    } else {
        error_count(ds.drop_last()) + if ds.last().is_error() {
            1nat
        } else {
            0nat
        }
    }
}

/// The state analysis threads through the tree: the symbol table and what
/// has been reported so far.
pub struct AnalysisState {
    pub table: SpecSymbolTable,
    pub diags: Seq<SpecDiagnostic>,
}

impl AnalysisState {
    pub open spec fn report(self, d: SpecDiagnostic) -> AnalysisState {
        AnalysisState { diags: self.diags.push(d), ..self }
    }

    pub open spec fn with_table(self, table: SpecSymbolTable) -> AnalysisState {
        AnalysisState { table, ..self }
    }
}

/// A type and the position it was found at.
pub type Typed = Option<(Type, (usize, usize))>;

/// The `k`-th child in a child list, when it is a node after `lo` that
/// exists.
pub open spec fn kid_of(kids: Seq<usize>, lo: int, n: int, k: int) -> Option<usize> {
    if 0 <= k < kids.len() && lo < kids[k] < n {
        Some(kids[k])
    } else {
        None
    }
}

pub open spec fn kid(t: SpecTree, a: int, k: int) -> Option<usize> {
    kid_of(t.children(a as usize), a, t.nodes.len() as int, k)
}

/// The declaration an identifier token refers to; an error when there is
/// none.
pub open spec fn spec_get_identifier(st: AnalysisState, tok: SpecToken) -> (AnalysisState, Option<(usize, SymbolTableEntry)>) {
    match st.table.lookup(tok.text) {
        Some(p) => (st, Some(p)),
        None => (st.report(SpecDiagnostic::Undeclared { id: tok.text, position: tok.position }), None),
    }
}

/// The type of the keyword of a declaration.
pub open spec fn declared_type(tt: SpecTokenType) -> Option<Type> {
    match tt {
        SpecTokenType::Keyword(Keywords::String) => Some(Type::String),
        SpecTokenType::Keyword(Keywords::Int) => Some(Type::Int),
        SpecTokenType::Keyword(Keywords::Boolean) => Some(Type::Boolean),
        _ => None,
    }
}

/// The position of the digit on the left of an addition.
pub open spec fn addition_position(t: SpecTree, a: int) -> (usize, usize) {
    match kid(t, a, 1) {
        Some(l) => match t.nodes[l as int] {
            SpecSyntaxTreeNode::Terminal(tok) => tok.position,
            _ => (0, 0),
        },
        None => (0, 0),
    }
}

/// The type of an expression node, with the position of its leftmost token;
/// using an identifier marks it used.
pub open spec fn spec_derive(t: SpecTree, a: int, st: AnalysisState) -> (AnalysisState, Typed)
    decreases t.nodes.len() - a, 1int, 0int,
{
    if !(0 <= a < t.nodes.len()) {
        (st, None)
    } else {
        match t.nodes[a] {
            SpecSyntaxTreeNode::Terminal(tok) => match tok.token_type {
                SpecTokenType::Digit(_) => (st, Some((Type::Int, tok.position))),
                SpecTokenType::Char(_) => (st, Some((Type::String, tok.position))),
                SpecTokenType::Identifier(_) => {
                    let (st1, found) = spec_get_identifier(st, tok);
                    match found {
                        Some((_, e)) => {
                            let st2 = if !e.is_initialized {
                                st1.report(
                                    SpecDiagnostic::UninitializedUse {
                                        id: tok.text,
                                        position: tok.position,
                                        declared_at: e.position,
                                    },
                                )
                            } else {
                                st1
                            };
                            let st3 = if !e.is_used {
                                st2.with_table(st2.table.set_field(tok.text, SymbolTableEntryField::Used))
                            } else {
                                st2
                            };
                            (st3, Some((e.symbol_type, tok.position)))
                        },
                        None => (st1, None),
                    }
                },
                SpecTokenType::Keyword(Keywords::True) | SpecTokenType::Keyword(Keywords::False) => (
                    st,
                    Some((Type::Boolean, tok.position)),
                ),
                _ => (st, None),
            },
            SpecSyntaxTreeNode::NonTerminalAst(NonTerminalsAst::Add) => spec_add(t, a, st),
            SpecSyntaxTreeNode::NonTerminalAst(NonTerminalsAst::IsEq)
            | SpecSyntaxTreeNode::NonTerminalAst(NonTerminalsAst::NotEq) => spec_eq_neq(t, a, st),
            _ => (st, None),
        }
    }
}

/// Literals have fixed types and leave the analysis state as it was: a digit
/// is an integer, a string character a string, and `true` and `false` are
/// booleans, each at the literal's position.
pub proof fn lemma_literal_types(t: SpecTree, a: int, st: AnalysisState, tok: SpecToken)
    requires
        0 <= a < t.nodes.len(),
        t.nodes[a] == SpecSyntaxTreeNode::Terminal(tok),
    ensures
        tok.token_type is Digit ==> spec_derive(t, a, st) == (st, Some((Type::Int, tok.position))),
        tok.token_type is Char ==> spec_derive(t, a, st) == (st, Some((Type::String, tok.position))),
        (tok.token_type == SpecTokenType::Keyword(Keywords::True) || tok.token_type
            == SpecTokenType::Keyword(Keywords::False)) ==> spec_derive(t, a, st) == (
            st,
            Some((Type::Boolean, tok.position)),
        ),
{
}

/// An addition is an integer when its right side is one.
pub open spec fn spec_add(t: SpecTree, a: int, st: AnalysisState) -> (AnalysisState, Typed)
    decreases t.nodes.len() - a, 0int, 0int,
{
    match kid(t, a, 0) {
        Some(r) => {
            let (st1, right) = spec_derive(t, r as int, st);
            match right {
                Some((ty, pos)) => if ty != Type::Int {
                    (st1.report(SpecDiagnostic::AdditionTypeMismatch { position: pos, found: ty }), None)
                } else {
                    (st1, Some((Type::Int, addition_position(t, a))))
                },
                None => (st1, None),
            }
        },
        None => (st, None),
    }
}

/// An addition has a type only when its right operand is an integer, and
/// then it is an integer at the addition's position; a right operand of any
/// other type (a string or a boolean) draws exactly one
/// `AdditionTypeMismatch` error at that operand, with its type.
pub proof fn lemma_addition_needs_int_operand(t: SpecTree, a: int, st: AnalysisState, r: usize)
    requires
        kid(t, a, 0) == Some(r),
    ensures
        spec_add(t, a, st).1 is Some <==> (spec_derive(t, r as int, st).1 matches Some((ty, _))
            && ty == Type::Int),
        spec_add(t, a, st).1 is Some ==> spec_add(t, a, st) == (
            spec_derive(t, r as int, st).0,
            Some((Type::Int, addition_position(t, a))),
        ),
        spec_derive(t, r as int, st).1 matches Some((ty, pos)) ==> (ty != Type::Int ==> spec_add(
            t,
            a,
            st,
        ).0 == spec_derive(t, r as int, st).0.report(
            SpecDiagnostic::AdditionTypeMismatch { position: pos, found: ty },
        )),
        spec_derive(t, r as int, st).1 is None ==> spec_add(t, a, st) == (
            spec_derive(t, r as int, st).0,
            None::<(Type, (usize, usize))>,
        ),
{
}

/// A comparison has a type only when both sides have one and it is the same,
/// and then it is a boolean at the left side's position; sides of different
/// types draw exactly one `ComparisonTypeMismatch` error at the left side,
/// with both types.
pub proof fn lemma_comparison_needs_same_types(t: SpecTree, a: int, st: AnalysisState, l: usize, r: usize)
    requires
        kid(t, a, 1) == Some(l),
        kid(t, a, 0) == Some(r),
    ensures
        ({
            let (st1, left) = spec_derive(t, l as int, st);
            let (st2, right) = spec_derive(t, r as int, st1);
            &&& spec_eq_neq(t, a, st).1 is Some <==> (left matches Some((lt, _)) && right matches Some(
                (rt, _),
            ) && lt == rt)
            &&& left matches Some((lt, lpos)) ==> (spec_eq_neq(t, a, st).1 is Some ==> spec_eq_neq(
                t,
                a,
                st,
            ) == (st2, Some((Type::Boolean, lpos))))
            &&& left matches Some((lt, lpos)) ==> (right matches Some((rt, _)) ==> (lt != rt
                ==> spec_eq_neq(t, a, st).0 == st2.report(
                SpecDiagnostic::ComparisonTypeMismatch { position: lpos, left: lt, right: rt },
            )))
        }),
{
}

/// A comparison is a boolean when both sides have the same type.
pub open spec fn spec_eq_neq(t: SpecTree, a: int, st: AnalysisState) -> (AnalysisState, Typed)
    decreases t.nodes.len() - a, 0int, 0int,
{
    match (kid(t, a, 1), kid(t, a, 0)) {
        (Some(l), Some(r)) => {
            let (st1, left) = spec_derive(t, l as int, st);
            let (st2, right) = spec_derive(t, r as int, st1);
            match (left, right) {
                (Some((lt, lpos)), Some((rt, _))) => if lt != rt {
                    (
                        st2.report(
                            SpecDiagnostic::ComparisonTypeMismatch { position: lpos, left: lt, right: rt },
                        ),
                        None,
                    )
                } else {
                    (st2, Some((Type::Boolean, lpos)))
                },
                _ => (st2, None),
            }
        },
        _ => (st, None),
    }
}

/// A declaration adds the identifier to the current scope; an error when
/// the scope already declares it.
pub open spec fn spec_var_decl(t: SpecTree, a: int, st: AnalysisState) -> AnalysisState {
    match (kid(t, a, 0), kid(t, a, 1)) {
        (Some(i), Some(ty)) => match (t.nodes[i as int], t.nodes[ty as int]) {
            (SpecSyntaxTreeNode::Terminal(idt), SpecSyntaxTreeNode::Terminal(tyt)) => match (
                idt.token_type,
                declared_type(tyt.token_type),
                st.table.cur_scope,
            ) {
                (SpecTokenType::Identifier(name), Some(vt), Some(c)) => if has_id(
                    st.table.scopes[c as int],
                    name,
                ) {
                    st.report(SpecDiagnostic::Redeclared { id: name, position: idt.position })
                } else {
                    st.with_table(st.table.declare(name, vt, idt.position))
                },
                _ => st,
            },
            _ => st,
        },
        _ => st,
    }
}

/// An assignment checks the identifier and the value; when their types
/// agree, the variable becomes initialized (a warning when it was used
/// before).
pub open spec fn spec_assign(t: SpecTree, a: int, st: AnalysisState) -> AnalysisState
    decreases t.nodes.len() - a, 0int, 0int,
{
    match (kid(t, a, 1), kid(t, a, 0)) {
        (Some(i), Some(v)) => match t.nodes[i as int] {
            SpecSyntaxTreeNode::Terminal(idt) => {
                let (st1, info) = spec_get_identifier(st, idt);
                let (st2, right) = spec_derive(t, v as int, st1);
                match (info, right) {
                    (Some((_, e)), Some((rt, rpos))) => if e.symbol_type != rt {
                        st2.report(
                            SpecDiagnostic::AssignmentTypeMismatch {
                                position: rpos,
                                expected: e.symbol_type,
                                found: rt,
                            },
                        )
                    } else if !e.is_initialized {
                        let st3 = st2.with_table(
                            st2.table.set_field(idt.text, SymbolTableEntryField::Initialized),
                        );
                        if e.is_used {
                            st3.report(
                                SpecDiagnostic::InitializedAfterUse {
                                    id: idt.text,
                                    position: idt.position,
                                    declared_at: e.position,
                                },
                            )
                        } else {
                            st3
                        }
                    } else {
                        st2
                    },
                    _ => st2,
                }
            },
            _ => spec_derive(t, v as int, st).0,
        },
        _ => st,
    }
}

/// An assignment to a declared variable checks the value's type against the
/// variable's: a different type draws exactly one `AssignmentTypeMismatch`
/// error at the value, with both types; the same type marks a variable that
/// was not initialized yet as initialized.
pub proof fn lemma_assignment_checks_types(
    t: SpecTree,
    a: int,
    st: AnalysisState,
    i: usize,
    v: usize,
    idt: SpecToken,
)
    requires
        kid(t, a, 1) == Some(i),
        kid(t, a, 0) == Some(v),
        t.nodes[i as int] == SpecSyntaxTreeNode::Terminal(idt),
        st.table.lookup(idt.text) is Some,
    ensures
        ({
            let (_, e) = st.table.lookup(idt.text)->0;
            let (st2, right) = spec_derive(t, v as int, st);
            &&& right matches Some((rt, rpos)) ==> (e.symbol_type != rt ==> spec_assign(t, a, st)
                == st2.report(
                SpecDiagnostic::AssignmentTypeMismatch { position: rpos, expected: e.symbol_type, found: rt },
            ))
            &&& right matches Some((rt, _)) ==> (e.symbol_type == rt ==> spec_assign(t, a, st).table == (
            if !e.is_initialized {
                st2.table.set_field(idt.text, SymbolTableEntryField::Initialized)
            } else {
                st2.table
            }))
            &&& right is None ==> spec_assign(t, a, st) == st2
        }),
{
}

/// Analyze a statement node (a block opens a scope for its statements).
pub open spec fn spec_dfs(t: SpecTree, a: int, st: AnalysisState) -> AnalysisState
    decreases t.nodes.len() - a, 1int, 0int,
{
    if !(0 <= a < t.nodes.len()) {
        st
    } else {
        match t.nodes[a] {
            SpecSyntaxTreeNode::NonTerminalAst(NonTerminalsAst::Block) => if st.table.scopes.len() + 2
                < u32::MAX {
                let st1 = st.with_table(st.table.new_scope());
                let st2 = spec_block_kids(t, a, t.children(a as usize).len() as int, st1);
                st2.with_table(st2.table.end_cur_scope())
            } else {
                st
            },
            SpecSyntaxTreeNode::NonTerminalAst(NonTerminalsAst::VarDecl) => spec_var_decl(t, a, st),
            SpecSyntaxTreeNode::NonTerminalAst(NonTerminalsAst::Assign) => spec_assign(t, a, st),
            SpecSyntaxTreeNode::NonTerminalAst(NonTerminalsAst::Print) => match kid(t, a, 0) {
                Some(c) => spec_derive(t, c as int, st).0,
                None => st,
            },
            SpecSyntaxTreeNode::NonTerminalAst(NonTerminalsAst::If)
            | SpecSyntaxTreeNode::NonTerminalAst(NonTerminalsAst::While) => {
                let st1 = match kid(t, a, 1) {
                    Some(c) => spec_derive(t, c as int, st).0,
                    None => st,
                };
                match kid(t, a, 0) {
                    Some(b) => spec_dfs(t, b as int, st1),
                    None => st1,
                }
            },
            _ => st,
        }
    }
}

/// Analyze the first `k` children of a block, the last of them first (the
/// child list puts the latest statement first, so this is source order).
pub open spec fn spec_block_kids(t: SpecTree, a: int, k: int, st: AnalysisState) -> AnalysisState
    decreases t.nodes.len() - a, 0int, k,
{
    if k <= 0 {
        st
    } else {
        let st1 = match kid(t, a, k - 1) {
            Some(c) => spec_dfs(t, c as int, st),
            None => st,
        };
        spec_block_kids(t, a, k - 1, st1)
    }
}

/// The diagnostics of the end-of-analysis checks on every declaration.
pub open spec fn unused_diags(ws: Seq<(Seq<char>, SymbolTableEntry, SymbolWarning)>) -> Seq<SpecDiagnostic> {
    ws.map_values(
        |w: (Seq<char>, SymbolTableEntry, SymbolWarning)|
            SpecDiagnostic::Unused { id: w.0, position: w.1.position, warning: w.2 },
    )
}

/// Semantic analysis of a whole AST from an empty symbol table: the state
/// after the tree walk and the end-of-analysis checks.
pub open spec fn spec_analysis(t: SpecTree) -> AnalysisState {
    let st0 = AnalysisState { table: SpecSymbolTable::empty(), diags: Seq::empty() };
    match t.root {
        Some(r) => {
            let st1 = spec_dfs(t, r as int, st0);
            AnalysisState { diags: st1.diags + unused_diags(all_warnings(st1.table.scopes)), ..st1 }
        },
        None => st0,
    }
}

// ---------------------------------------------------------------------------
// The semantic analyzer
// ---------------------------------------------------------------------------
/// Builds the AST of a parsed program and checks its scopes and types.
pub struct SemanticAnalyzer {
    cur_token_index: usize,
    num_errors: usize,
    num_warnings: usize,
    pub symbol_table: SymbolTable,
    diagnostics: Vec<SemanticDiagnostic>,
}

/// Whether an executable AST step agrees with the spec: the index moved to
/// where the spec says and the steps it appended are the spec's.
pub open spec fn ast_outcome(r: AstResult, idx: usize, ev0: Seq<TreeEvent>, ev1: Seq<TreeEvent>) -> bool {
    idx == r.0 && event_views(ev1) =~= event_views(ev0) + r.1
}

fn push_event(ev: &mut Vec<TreeEvent>, e: TreeEvent)
    ensures
        event_views(final(ev)@) =~= event_views(old(ev)@).push(e@),
{
    ev.push(e);
}

/// The first `==` or `!=` from `start` on outside the parentheses opened
/// from `start` on.
fn find_bool_op(ts: &Vec<Token>, start: usize) -> (r: Option<NonTerminalsAst>)
    ensures
        r == find_op(token_views(ts@), start as int, 0),
{
    let ghost t = token_views(ts@);
    let mut k: usize = start;
    let mut opens: usize = 0;
    let mut closes: usize = 0;
    while k < ts.len()
        invariant
            t == token_views(ts@),
            start <= k,
            opens + closes <= k - start,
            find_op(t, start as int, 0) == find_op(t, k as int, opens - closes),
        decreases ts.len() - k,
    {
        match &ts[k].token_type {
            TokenType::Symbol(Symbols::EqOp) => {
                if opens == closes {
                    return Some(NonTerminalsAst::IsEq);
                }
            },
            TokenType::Symbol(Symbols::NeqOp) => {
                if opens == closes {
                    return Some(NonTerminalsAst::NotEq);
                }
            },
            TokenType::Symbol(Symbols::LParen) => {
                opens = opens + 1;
            },
            TokenType::Symbol(Symbols::RParen) => {
                closes = closes + 1;
            },
            _ => {},
        }
        k = k + 1;
    }
    None
}

impl SemanticAnalyzer {
    /// The symbol table the analyzer has built.
    pub closed spec fn symbols(&self) -> SpecSymbolTable {
        self.symbol_table@
    }

    /// The symbol table and the diagnostics reported so far.
    pub closed spec fn state(&self) -> AnalysisState {
        AnalysisState { table: self.symbol_table@, diags: diag_views(self.diagnostics@) }
    }

    /// A fresh analyzer: an empty symbol table, nothing reported yet, and
    /// no errors or warnings counted.
    pub fn new() -> (r: Self)
        ensures
            r.symbols() == SpecSymbolTable::empty(),
            r.symbols().wf(),
            r.state() == (AnalysisState { table: SpecSymbolTable::empty(), diags: Seq::<SpecDiagnostic>::empty() }),
            r.counted(),
    {
        let r = SemanticAnalyzer {
            cur_token_index: 0,
            num_errors: 0,
            num_warnings: 0,
            symbol_table: SymbolTable::new(),
            diagnostics: Vec::new(),
        };
        assert(diag_views(r.diagnostics@) =~= Seq::<SpecDiagnostic>::empty());
        r
    }

    /// Build the AST of a program's tokens (the parser has accepted them).
    pub fn generate_ast(&mut self, token_stream: &Vec<Token>) -> (r: SyntaxTree)
        requires
            token_stream.len() < usize::MAX - 2,
        ensures
            r@ == SpecTree::empty().apply(ast_program(token_views(token_stream@))),
            r@.wf(),
            final(self).symbols() == old(self).symbols(),
    {
        self.cur_token_index = 0;
        let mut ev: Vec<TreeEvent> = Vec::new();
        self.parse_ast_block(token_stream, &mut ev);
        assert(event_views(ev@) =~= ast_program(token_views(token_stream@)));
        SyntaxTree::from_events(&ev)
    }

    fn parse_ast_leaf(&mut self, ts: &Vec<Token>, ev: &mut Vec<TreeEvent>)
        requires
            old(self).cur_token_index <= ts.len(),
        ensures
            ast_outcome(ast_leaf(token_views(ts@), old(self).cur_token_index as int), final(self).cur_token_index, old(ev)@, final(ev)@),
            final(self).cur_token_index <= ts.len(),
            final(self).symbol_table == old(self).symbol_table,
    {
        let i = self.cur_token_index;
        if i < ts.len() {
            push_event(ev, TreeEvent::Leaf(ts[i].duplicate()));
            self.cur_token_index = i + 1;
        }
    }

    fn parse_ast_string_expression(&mut self, ts: &Vec<Token>, ev: &mut Vec<TreeEvent>)
        requires
            old(self).cur_token_index < ts.len() < usize::MAX - 2,
        ensures
            ast_outcome(ast_string(token_views(ts@), old(self).cur_token_index as int), final(self).cur_token_index, old(ev)@, final(ev)@),
            final(self).cur_token_index <= ts.len(),
            final(self).symbol_table == old(self).symbol_table,
    {
        let ghost t = token_views(ts@);
        let i = self.cur_token_index;
        let pos: (usize, usize) = ts[i].position;
        let mut k: usize = i + 1;
        let mut text: String = String::new();
        while k < ts.len() && !ts[k].token_type.is_symbol(Symbols::Quote)
            invariant
                t == token_views(ts@),
                i + 1 <= k <= ts.len(),
                text@ == string_text(t, i + 1, k as int),
                string_end(t, i + 1) == string_end(t, k as int),
            decreases ts.len() - k,
        {
            text.append(ts[k].text.as_str());
            k = k + 1;
        }
        let tok_text: String = text.clone();
        let tok = Token::new(TokenType::Char(text), tok_text, pos.0, pos.1);
        push_event(ev, TreeEvent::Leaf(tok));
        self.cur_token_index = if k < ts.len() {
            k + 1
        } else {
            k
        };
    }

    fn parse_ast_long_bool(&mut self, ts: &Vec<Token>, ev: &mut Vec<TreeEvent>)
        requires
            old(self).cur_token_index < ts.len() < usize::MAX - 2,
        ensures
            ast_outcome(ast_long_bool(token_views(ts@), old(self).cur_token_index as int), final(self).cur_token_index, old(ev)@, final(ev)@),
            final(self).cur_token_index <= ts.len(),
            final(self).symbol_table == old(self).symbol_table,
        decreases ts.len() - old(self).cur_token_index, 1int,
    {
        let ghost t = token_views(ts@);
        let ghost v0 = event_views(ev@);
        let i = self.cur_token_index;
        let nt = match find_bool_op(ts, i + 2) {
            Some(n) => n,
            None => NonTerminalsAst::IsEq,
        };
        push_event(ev, TreeEvent::AstBranch(nt));
        let ghost v1 = event_views(ev@);
        self.cur_token_index = i + 1;
        self.parse_ast_expression(ts, ev);
        let ghost v2 = event_views(ev@);
        let j = self.cur_token_index;
        if i < j && j < ts.len() {
            self.cur_token_index = j + 1;
            self.parse_ast_expression(ts, ev);
            let k = self.cur_token_index;
            self.cur_token_index = if k < ts.len() {
                k + 1
            } else {
                k
            };
        }
        let ghost v3 = event_views(ev@);
        push_event(ev, TreeEvent::Up);
        proof {
            let (jj, e1) = ast_expr(t, i + 1);
            assert(v2 =~= v1 + e1);
            if i < jj < t.len() {
                let (kk, e2) = ast_expr(t, jj + 1);
                assert(v3 =~= v2 + e2);
                assert(event_views(ev@) =~= v0 + (seq![SpecTreeEvent::AstBranch(nt)] + (e1 + e2) + seq![SpecTreeEvent::Up]));
            } else {
                assert(event_views(ev@) =~= v0 + (seq![SpecTreeEvent::AstBranch(nt)] + e1 + seq![SpecTreeEvent::Up]));
            }
        }
    }

    fn parse_ast_bool_expression(&mut self, ts: &Vec<Token>, ev: &mut Vec<TreeEvent>)
        requires
            old(self).cur_token_index <= ts.len() < usize::MAX - 2,
        ensures
            ast_outcome(ast_bool(token_views(ts@), old(self).cur_token_index as int), final(self).cur_token_index, old(ev)@, final(ev)@),
            final(self).cur_token_index <= ts.len(),
            final(self).symbol_table == old(self).symbol_table,
        decreases ts.len() - old(self).cur_token_index, 2int,
    {
        let i = self.cur_token_index;
        if i < ts.len() {
            match &ts[i].token_type {
                TokenType::Symbol(Symbols::LParen) => self.parse_ast_long_bool(ts, ev),
                TokenType::Keyword(Keywords::False) | TokenType::Keyword(Keywords::True) => self.parse_ast_leaf(ts, ev),
                _ => {},
            }
        }
    }

    fn parse_ast_int_expression(&mut self, ts: &Vec<Token>, ev: &mut Vec<TreeEvent>)
        requires
            old(self).cur_token_index < ts.len() < usize::MAX - 2,
        ensures
            ast_outcome(ast_int(token_views(ts@), old(self).cur_token_index as int), final(self).cur_token_index, old(ev)@, final(ev)@),
            final(self).cur_token_index <= ts.len(),
            final(self).symbol_table == old(self).symbol_table,
        decreases ts.len() - old(self).cur_token_index, 2int,
    {
        let ghost t = token_views(ts@);
        let ghost v0 = event_views(ev@);
        let i = self.cur_token_index;
        if i + 1 < ts.len() && ts[i + 1].token_type.is_symbol(Symbols::AdditionOp) {
            push_event(ev, TreeEvent::AstBranch(NonTerminalsAst::Add));
            push_event(ev, TreeEvent::Leaf(ts[i].duplicate()));
            let ghost v1 = event_views(ev@);
            self.cur_token_index = i + 2;
            self.parse_ast_expression(ts, ev);
            let ghost v2 = event_views(ev@);
            push_event(ev, TreeEvent::Up);
            proof {
                let (kk, e) = ast_expr(t, i + 2);
                assert(v2 =~= v1 + e);
                assert(event_views(ev@) =~= v0 + (seq![SpecTreeEvent::AstBranch(NonTerminalsAst::Add)] + (seq![SpecTreeEvent::Leaf(t[i as int])] + e) + seq![SpecTreeEvent::Up]));
            }
        } else {
            self.parse_ast_leaf(ts, ev);
        }
    }

    fn parse_ast_expression(&mut self, ts: &Vec<Token>, ev: &mut Vec<TreeEvent>)
        requires
            old(self).cur_token_index <= ts.len() < usize::MAX - 2,
        ensures
            ast_outcome(ast_expr(token_views(ts@), old(self).cur_token_index as int), final(self).cur_token_index, old(ev)@, final(ev)@),
            final(self).cur_token_index <= ts.len(),
            final(self).symbol_table == old(self).symbol_table,
        decreases ts.len() - old(self).cur_token_index, 3int,
    {
        let i = self.cur_token_index;
        if i < ts.len() {
            match &ts[i].token_type {
                TokenType::Digit(_) => self.parse_ast_int_expression(ts, ev),
                TokenType::Symbol(Symbols::Quote) => self.parse_ast_string_expression(ts, ev),
                TokenType::Symbol(Symbols::LParen) | TokenType::Keyword(Keywords::False)
                | TokenType::Keyword(Keywords::True) => self.parse_ast_bool_expression(ts, ev),
                TokenType::Identifier(_) => self.parse_ast_leaf(ts, ev),
                _ => {},
            }
        }
    }

    fn parse_ast_print_statement(&mut self, ts: &Vec<Token>, ev: &mut Vec<TreeEvent>)
        requires
            old(self).cur_token_index < ts.len() < usize::MAX - 2,
        ensures
            ast_outcome(ast_print(token_views(ts@), old(self).cur_token_index as int), final(self).cur_token_index, old(ev)@, final(ev)@),
            final(self).cur_token_index <= ts.len(),
            final(self).symbol_table == old(self).symbol_table,
        decreases ts.len() - old(self).cur_token_index, 4int,
    {
        let ghost t = token_views(ts@);
        let ghost v0 = event_views(ev@);
        let i = self.cur_token_index;
        push_event(ev, TreeEvent::AstBranch(NonTerminalsAst::Print));
        let ghost v1 = event_views(ev@);
        self.cur_token_index = if i + 1 < ts.len() {
            i + 2
        } else {
            i + 1
        };
        self.parse_ast_expression(ts, ev);
        let ghost v2 = event_views(ev@);
        let j = self.cur_token_index;
        self.cur_token_index = if j < ts.len() {
            j + 1
        } else {
            j
        };
        push_event(ev, TreeEvent::Up);
        proof {
            let (jj, e) = ast_expr(t, step(t, i + 1));
            assert(v2 =~= v1 + e);
            assert(event_views(ev@) =~= v0 + (seq![SpecTreeEvent::AstBranch(NonTerminalsAst::Print)] + e + seq![SpecTreeEvent::Up]));
        }
    }

    fn parse_ast_assignment_statement(&mut self, ts: &Vec<Token>, ev: &mut Vec<TreeEvent>)
        requires
            old(self).cur_token_index < ts.len() < usize::MAX - 2,
        ensures
            ast_outcome(ast_assign(token_views(ts@), old(self).cur_token_index as int), final(self).cur_token_index, old(ev)@, final(ev)@),
            final(self).cur_token_index <= ts.len(),
            final(self).symbol_table == old(self).symbol_table,
        decreases ts.len() - old(self).cur_token_index, 4int,
    {
        let ghost t = token_views(ts@);
        let ghost v0 = event_views(ev@);
        let i = self.cur_token_index;
        push_event(ev, TreeEvent::AstBranch(NonTerminalsAst::Assign));
        push_event(ev, TreeEvent::Leaf(ts[i].duplicate()));
        let ghost v1 = event_views(ev@);
        self.cur_token_index = if i + 1 < ts.len() {
            i + 2
        } else {
            i + 1
        };
        self.parse_ast_expression(ts, ev);
        let ghost v2 = event_views(ev@);
        push_event(ev, TreeEvent::Up);
        proof {
            let (kk, e) = ast_expr(t, step(t, i + 1));
            assert(v2 =~= v1 + e);
            assert(event_views(ev@) =~= v0 + (seq![SpecTreeEvent::AstBranch(NonTerminalsAst::Assign)] + (seq![SpecTreeEvent::Leaf(t[i as int])] + e) + seq![SpecTreeEvent::Up]));
        }
    }

    fn parse_ast_var_declaration(&mut self, ts: &Vec<Token>, ev: &mut Vec<TreeEvent>)
        requires
            old(self).cur_token_index < ts.len() < usize::MAX - 2,
        ensures
            ast_outcome(ast_var_decl(token_views(ts@), old(self).cur_token_index as int), final(self).cur_token_index, old(ev)@, final(ev)@),
            final(self).cur_token_index <= ts.len(),
            final(self).symbol_table == old(self).symbol_table,
    {
        let ghost t = token_views(ts@);
        let ghost v0 = event_views(ev@);
        let ghost i = self.cur_token_index as int;
        push_event(ev, TreeEvent::AstBranch(NonTerminalsAst::VarDecl));
        let ghost v1 = event_views(ev@);
        self.parse_ast_leaf(ts, ev);
        let ghost v2 = event_views(ev@);
        self.parse_ast_leaf(ts, ev);
        let ghost v3 = event_views(ev@);
        push_event(ev, TreeEvent::Up);
        proof {
            let (j, e1) = ast_leaf(t, i);
            let (k, e2) = ast_leaf(t, j);
            assert(v2 =~= v1 + e1);
            assert(v3 =~= v2 + e2);
            assert(event_views(ev@) =~= v0 + (seq![SpecTreeEvent::AstBranch(NonTerminalsAst::VarDecl)] + (e1 + e2) + seq![SpecTreeEvent::Up]));
        }
    }

    fn parse_ast_cond_statement(&mut self, ts: &Vec<Token>, ev: &mut Vec<TreeEvent>, is_while: bool)
        requires
            old(self).cur_token_index < ts.len() < usize::MAX - 2,
        ensures
            ast_outcome(ast_cond(token_views(ts@), old(self).cur_token_index as int, is_while), final(self).cur_token_index, old(ev)@, final(ev)@),
            final(self).cur_token_index <= ts.len(),
            final(self).symbol_table == old(self).symbol_table,
        decreases ts.len() - old(self).cur_token_index, 4int,
    {
        let ghost t = token_views(ts@);
        let ghost v0 = event_views(ev@);
        let i = self.cur_token_index;
        let nt = if is_while {
            NonTerminalsAst::While
        } else {
            NonTerminalsAst::If
        };
        push_event(ev, TreeEvent::AstBranch(nt));
        let ghost v1 = event_views(ev@);
        self.cur_token_index = i + 1;
        self.parse_ast_bool_expression(ts, ev);
        let ghost v2 = event_views(ev@);
        let j = self.cur_token_index;
        if i < j && j <= ts.len() {
            self.parse_ast_block(ts, ev);
        }
        let ghost v3 = event_views(ev@);
        push_event(ev, TreeEvent::Up);
        proof {
            let (jj, e1) = ast_bool(t, i + 1);
            assert(v2 =~= v1 + e1);
            if i < jj <= t.len() {
                let (kk, e2) = ast_block(t, jj);
                assert(v3 =~= v2 + e2);
                assert(event_views(ev@) =~= v0 + (seq![SpecTreeEvent::AstBranch(nt)] + (e1 + e2) + seq![SpecTreeEvent::Up]));
            } else {
                assert(event_views(ev@) =~= v0 + (seq![SpecTreeEvent::AstBranch(nt)] + e1 + seq![SpecTreeEvent::Up]));
            }
        }
    }

    fn parse_ast_statement(&mut self, ts: &Vec<Token>, ev: &mut Vec<TreeEvent>)
        requires
            old(self).cur_token_index <= ts.len() < usize::MAX - 2,
        ensures
            ast_outcome(ast_statement(token_views(ts@), old(self).cur_token_index as int), final(self).cur_token_index, old(ev)@, final(ev)@),
            final(self).cur_token_index <= ts.len(),
            final(self).symbol_table == old(self).symbol_table,
        decreases ts.len() - old(self).cur_token_index, 5int,
    {
        let i = self.cur_token_index;
        if i < ts.len() {
            match &ts[i].token_type {
                TokenType::Keyword(Keywords::Print) => self.parse_ast_print_statement(ts, ev),
                TokenType::Identifier(_) => self.parse_ast_assignment_statement(ts, ev),
                TokenType::Keyword(Keywords::Int) | TokenType::Keyword(Keywords::String)
                | TokenType::Keyword(Keywords::Boolean) => self.parse_ast_var_declaration(ts, ev),
                TokenType::Keyword(Keywords::While) => self.parse_ast_cond_statement(ts, ev, true),
                TokenType::Keyword(Keywords::If) => self.parse_ast_cond_statement(ts, ev, false),
                TokenType::Symbol(Symbols::LBrace) => self.parse_ast_block(ts, ev),
                _ => {},
            }
        }
    }

    fn parse_ast_statement_list(&mut self, ts: &Vec<Token>, ev: &mut Vec<TreeEvent>)
        requires
            old(self).cur_token_index <= ts.len() < usize::MAX - 2,
        ensures
            ast_outcome(ast_statements(token_views(ts@), old(self).cur_token_index as int), final(self).cur_token_index, old(ev)@, final(ev)@),
            final(self).cur_token_index <= ts.len(),
            final(self).symbol_table == old(self).symbol_table,
        decreases ts.len() - old(self).cur_token_index, 6int,
    {
        let ghost t = token_views(ts@);
        let ghost v0 = event_views(ev@);
        let i = self.cur_token_index;
        if i < ts.len() && !ts[i].token_type.is_symbol(Symbols::RBrace) {
            self.parse_ast_statement(ts, ev);
            let ghost v1 = event_views(ev@);
            let j = self.cur_token_index;
            if i < j && j <= ts.len() {
                self.parse_ast_statement_list(ts, ev);
                proof {
                    let (jj, e) = ast_statement(t, i as int);
                    let (kk, e2) = ast_statements(t, jj);
                    assert(v1 =~= v0 + e);
                    assert(event_views(ev@) =~= v0 + (e + e2));
                }
            }
        }
    }

    fn parse_ast_block(&mut self, ts: &Vec<Token>, ev: &mut Vec<TreeEvent>)
        requires
            old(self).cur_token_index <= ts.len() < usize::MAX - 2,
        ensures
            ast_outcome(ast_block(token_views(ts@), old(self).cur_token_index as int), final(self).cur_token_index, old(ev)@, final(ev)@),
            final(self).cur_token_index <= ts.len(),
            final(self).symbol_table == old(self).symbol_table,
        decreases ts.len() - old(self).cur_token_index, 4int,
    {
        let ghost t = token_views(ts@);
        let ghost v0 = event_views(ev@);
        let i = self.cur_token_index;
        push_event(ev, TreeEvent::AstBranch(NonTerminalsAst::Block));
        let ghost v1 = event_views(ev@);
        if i < ts.len() {
            self.cur_token_index = i + 1;
            self.parse_ast_statement_list(ts, ev);
            let j = self.cur_token_index;
            self.cur_token_index = if j < ts.len() {
                j + 1
            } else {
                j
            };
        }
        let ghost v2 = event_views(ev@);
        push_event(ev, TreeEvent::Up);
        proof {
            if 0 <= i < t.len() {
                let (jj, e) = ast_statements(t, i + 1);
                assert(v2 =~= v1 + e);
                assert(event_views(ev@) =~= v0 + (seq![SpecTreeEvent::AstBranch(NonTerminalsAst::Block)] + e + seq![SpecTreeEvent::Up]));
            } else {
                assert(event_views(ev@) =~= v0 + (seq![SpecTreeEvent::AstBranch(NonTerminalsAst::Block)] + Seq::<SpecTreeEvent>::empty() + seq![SpecTreeEvent::Up]));
            }
        }
    }
}


fn declared_type_exec(tt: &TokenType) -> (r: Option<Type>)
    ensures
        r == declared_type(tt@),
{
    match tt {
        TokenType::Keyword(Keywords::String) => Some(Type::String),
        TokenType::Keyword(Keywords::Int) => Some(Type::Int),
        TokenType::Keyword(Keywords::Boolean) => Some(Type::Boolean),
        _ => None,
    }
}

pub(crate) fn kid_exec(ast: &SyntaxTree, kids: &Vec<usize>, a: usize, k: usize) -> (r: Option<usize>)
    requires
        ast@.wf(),
        a < ast@.nodes.len(),
        kids@ == ast@.children(a),
    ensures
        r == kid(ast@, a as int, k as int),
        r matches Some(c) ==> a < c < ast@.nodes.len(),
{
    if k < kids.len() && a < kids[k] && kids[k] < ast.node_count() {
        Some(kids[k])
    } else {
        None
    }
}

impl SemanticDiagnostic {
    /// Whether this is an error (the others are warnings).
    pub fn is_error(&self) -> (r: bool)
        ensures
            r == self@.is_error(),
    {
        match self {
            SemanticDiagnostic::Redeclared { .. } | SemanticDiagnostic::Undeclared { .. }
            | SemanticDiagnostic::AssignmentTypeMismatch { .. }
            | SemanticDiagnostic::AdditionTypeMismatch { .. }
            | SemanticDiagnostic::ComparisonTypeMismatch { .. } => true,
            _ => false,
        }
    }
}

impl SemanticAnalyzer {
    /// The diagnostics of the last analysis, in the order they were found.
    pub fn diagnostics(&self) -> (r: &Vec<SemanticDiagnostic>)
        ensures
            diag_views(r@) == self.state().diags,
    {
        &self.diagnostics
    }

    /// The diagnostics and the symbol table, taken out of the analyzer.
    pub fn into_parts(self) -> (r: (Vec<SemanticDiagnostic>, SymbolTable))
        ensures
            diag_views(r.0@) == self.state().diags,
            r.1@ == self.state().table,
            r.1@ == self.symbols(),
    {
        (self.diagnostics, self.symbol_table)
    }

    /// The number of errors the last analysis found.
    pub fn num_errors(&self) -> (r: usize)
        requires
            self.counted(),
        ensures
            r == error_count(self.state().diags),
    {
        self.num_errors
    }

    /// The number of warnings the last analysis found.
    pub fn num_warnings(&self) -> (r: usize)
        requires
            self.counted(),
        ensures
            r == self.state().diags.len() - error_count(self.state().diags),
    {
        self.num_warnings
    }

    /// The counters agree with the diagnostics.
    pub closed spec fn counted(&self) -> bool {
        &&& self.num_errors == error_count(diag_views(self.diagnostics@))
        &&& self.num_warnings == self.diagnostics@.len() - error_count(diag_views(self.diagnostics@))
    }

    /// Report a diagnostic and count it as an error or a warning.
    fn report(&mut self, d: SemanticDiagnostic)
        ensures
            final(self).state() == old(self).state().report(d@),
            final(self).symbol_table == old(self).symbol_table,
            old(self).counted() ==> final(self).counted(),
    {
        let ghost dv = d@;
        let is_error = d.is_error();
        self.diagnostics.push(d);
        let count: usize = self.diagnostics.len();
        assert(diag_views(self.diagnostics@) =~= diag_views(old(self).diagnostics@).push(dv));
        assert(diag_views(self.diagnostics@).drop_last() =~= diag_views(old(self).diagnostics@));
        if is_error {
            self.num_errors = self.num_errors.saturating_add(1);
        } else {
            self.num_warnings = self.num_warnings.saturating_add(1);
        }
        proof {
            assert(count as int == self.diagnostics@.len());
            if old(self).counted() {
                lemma_error_count_bounded(diag_views(old(self).diagnostics@));
            }
        }
    }

    fn get_identifier(&mut self, tok: &Token) -> (r: Option<SymbolTableEntry>)
        requires
            old(self).symbol_table@.wf(),
        ensures
            old(self).counted() ==> final(self).counted(),
            final(self).state() == spec_get_identifier(old(self).state(), tok@).0,
            r == match spec_get_identifier(old(self).state(), tok@).1 {
                Some((_, e)) => Some(e),
                None => None::<SymbolTableEntry>,
            },
            final(self).symbol_table == old(self).symbol_table,
    {
        let found: Option<SymbolTableEntry> = match self.symbol_table.current_scope() {
            Some(_) => match self.symbol_table.get_symbol(tok.text.as_str()) {
                Some(e) => Some(*e),
                None => None,
            },
            None => None,
        };
        if found.is_none() {
            self.report(SemanticDiagnostic::Undeclared { id: tok.text.clone(), position: tok.position });
        }
        found
    }

    fn derive_type(&mut self, ast: &SyntaxTree, a: usize) -> (r: Option<(Type, (usize, usize))>)
        requires
            old(self).symbol_table@.wf(),
            ast@.wf(),
        ensures
            old(self).counted() ==> final(self).counted(),
            (final(self).state(), r) == spec_derive(ast@, a as int, old(self).state()),
            final(self).symbol_table@.wf(),
        decreases ast@.nodes.len() - a, 1int, 0int,
    {
        if a >= ast.node_count() {
            return None;
        }
        match ast.node(a) {
            SyntaxTreeNode::Terminal(tok) => match &tok.token_type {
                TokenType::Digit(_) => Some((Type::Int, tok.position)),
                TokenType::Char(_) => Some((Type::String, tok.position)),
                TokenType::Identifier(_) => {
                    let found = self.get_identifier(tok);
                    match found {
                        Some(e) => {
                            if !e.is_initialized {
                                self.report(
                                    SemanticDiagnostic::UninitializedUse {
                                        id: tok.text.clone(),
                                        position: tok.position,
                                        declared_at: e.position,
                                    },
                                );
                            }
                            if !e.is_used {
                                self.symbol_table.set_entry_field(tok.text.as_str(), SymbolTableEntryField::Used);
                            }
                            Some((e.symbol_type, tok.position))
                        },
                        None => None,
                    }
                },
                TokenType::Keyword(Keywords::True) | TokenType::Keyword(Keywords::False) => Some(
                    (Type::Boolean, tok.position),
                ),
                _ => None,
            },
            SyntaxTreeNode::NonTerminalAst(NonTerminalsAst::Add) => self.analyze_add(ast, a),
            SyntaxTreeNode::NonTerminalAst(NonTerminalsAst::IsEq)
            | SyntaxTreeNode::NonTerminalAst(NonTerminalsAst::NotEq) => self.analyze_eq_neq(ast, a),
            _ => None,
        }
    }

    fn addition_position(ast: &SyntaxTree, kids: &Vec<usize>, a: usize) -> (r: (usize, usize))
        requires
            ast@.wf(),
            a < ast@.nodes.len(),
            kids@ == ast@.children(a),
        ensures
            r == addition_position(ast@, a as int),
    {
        match kid_exec(ast, kids, a, 1) {
            Some(l) => match ast.node(l) {
                SyntaxTreeNode::Terminal(tok) => tok.position,
                _ => (0, 0),
            },
            None => (0, 0),
        }
    }

    fn analyze_add(&mut self, ast: &SyntaxTree, a: usize) -> (r: Option<(Type, (usize, usize))>)
        requires
            old(self).symbol_table@.wf(),
            ast@.wf(),
            a < ast@.nodes.len(),
        ensures
            old(self).counted() ==> final(self).counted(),
            (final(self).state(), r) == spec_add(ast@, a as int, old(self).state()),
            final(self).symbol_table@.wf(),
        decreases ast@.nodes.len() - a, 0int, 0int,
    {
        let kids = ast.children(a);
        match kid_exec(ast, &kids, a, 0) {
            Some(rk) => {
                let right = self.derive_type(ast, rk);
                match right {
                    Some((ty, pos)) => {
                        if ty != Type::Int {
                            self.report(SemanticDiagnostic::AdditionTypeMismatch { position: pos, found: ty });
                            None
                        } else {
                            Some((Type::Int, Self::addition_position(ast, &kids, a)))
                        }
                    },
                    None => None,
                }
            },
            None => None,
        }
    }

    /// The type of a comparison node (`==` or `!=`): a boolean when both
    /// sides have the same type; an error when they differ.
    pub fn analyze_eq_neq(&mut self, ast: &SyntaxTree, a: usize) -> (r: Option<(Type, (usize, usize))>)
        requires
            old(self).symbols().wf(),
            ast@.wf(),
            a < ast@.nodes.len(),
        ensures
            old(self).counted() ==> final(self).counted(),
            (final(self).state(), r) == spec_eq_neq(ast@, a as int, old(self).state()),
            final(self).symbols().wf(),
        decreases ast@.nodes.len() - a, 0int, 0int,
    {
        let kids = ast.children(a);
        match (kid_exec(ast, &kids, a, 1), kid_exec(ast, &kids, a, 0)) {
            (Some(l), Some(rk)) => {
                let left = self.derive_type(ast, l);
                let right = self.derive_type(ast, rk);
                match (left, right) {
                    (Some((lt, lpos)), Some((rt, _))) => {
                        if lt != rt {
                            self.report(
                                SemanticDiagnostic::ComparisonTypeMismatch {
                                    position: lpos,
                                    left: lt,
                                    right: rt,
                                },
                            );
                            None
                        } else {
                            Some((Type::Boolean, lpos))
                        }
                    },
                    _ => None,
                }
            },
            _ => None,
        }
    }

    fn analyze_var_decl(&mut self, ast: &SyntaxTree, a: usize)
        requires
            old(self).symbol_table@.wf(),
            ast@.wf(),
            a < ast@.nodes.len(),
        ensures
            old(self).counted() ==> final(self).counted(),
            final(self).state() == spec_var_decl(ast@, a as int, old(self).state()),
            final(self).symbol_table@.wf(),
    {
        let kids = ast.children(a);
        match (kid_exec(ast, &kids, a, 0), kid_exec(ast, &kids, a, 1)) {
            (Some(i), Some(ty)) => match (ast.node(i), ast.node(ty)) {
                (SyntaxTreeNode::Terminal(idt), SyntaxTreeNode::Terminal(tyt)) => {
                    let vt = declared_type_exec(&tyt.token_type);
                    match (&idt.token_type, vt, self.symbol_table.current_scope()) {
                        (TokenType::Identifier(name), Some(v), Some(_)) => {
                            let added = self.symbol_table.new_identifier(name.clone(), v, idt.position);
                            if !added {
                                self.report(SemanticDiagnostic::Redeclared { id: name.clone(), position: idt.position });
                            }
                        },
                        _ => {},
                    }
                },
                _ => {},
            },
            _ => {},
        }
    }

    fn analyze_assignment(&mut self, ast: &SyntaxTree, a: usize)
        requires
            old(self).symbol_table@.wf(),
            ast@.wf(),
            a < ast@.nodes.len(),
        ensures
            old(self).counted() ==> final(self).counted(),
            final(self).state() == spec_assign(ast@, a as int, old(self).state()),
            final(self).symbol_table@.wf(),
        decreases ast@.nodes.len() - a, 0int, 0int,
    {
        let kids = ast.children(a);
        match (kid_exec(ast, &kids, a, 1), kid_exec(ast, &kids, a, 0)) {
            (Some(i), Some(v)) => match ast.node(i) {
                SyntaxTreeNode::Terminal(idt) => {
                    let info = self.get_identifier(idt);
                    let right = self.derive_type(ast, v);
                    match (info, right) {
                        (Some(e), Some((rt, rpos))) => {
                            if e.symbol_type != rt {
                                self.report(
                                    SemanticDiagnostic::AssignmentTypeMismatch {
                                        position: rpos,
                                        expected: e.symbol_type,
                                        found: rt,
                                    },
                                );
                            } else if !e.is_initialized {
                                if self.symbol_table.current_scope().is_some() {
                                    self.symbol_table.set_entry_field(idt.text.as_str(), SymbolTableEntryField::Initialized);
                                }
                                if e.is_used {
                                    self.report(
                                        SemanticDiagnostic::InitializedAfterUse {
                                            id: idt.text.clone(),
                                            position: idt.position,
                                            declared_at: e.position,
                                        },
                                    );
                                }
                            }
                        },
                        _ => {},
                    }
                },
                _ => {
                    self.derive_type(ast, v);
                },
            },
            _ => {},
        }
    }

    fn analyze_dfs(&mut self, ast: &SyntaxTree, a: usize)
        requires
            old(self).symbol_table@.wf(),
            ast@.wf(),
        ensures
            old(self).counted() ==> final(self).counted(),
            final(self).state() == spec_dfs(ast@, a as int, old(self).state()),
            final(self).symbol_table@.wf(),
        decreases ast@.nodes.len() - a, 1int, 0int,
    {
        if a >= ast.node_count() {
            return;
        }
        match ast.node(a) {
            SyntaxTreeNode::NonTerminalAst(NonTerminalsAst::Block) => {
                if self.symbol_table.scope_count() < u32::MAX as usize - 2 {
                    self.symbol_table.new_scope();
                    self.analyze_block_kids(ast, a);
                    self.symbol_table.end_cur_scope();
                }
            },
            SyntaxTreeNode::NonTerminalAst(NonTerminalsAst::VarDecl) => self.analyze_var_decl(ast, a),
            SyntaxTreeNode::NonTerminalAst(NonTerminalsAst::Assign) => self.analyze_assignment(ast, a),
            SyntaxTreeNode::NonTerminalAst(NonTerminalsAst::Print) => {
                let kids = ast.children(a);
                match kid_exec(ast, &kids, a, 0) {
                    Some(c) => {
                        self.derive_type(ast, c);
                    },
                    None => {},
                }
            },
            SyntaxTreeNode::NonTerminalAst(NonTerminalsAst::If)
            | SyntaxTreeNode::NonTerminalAst(NonTerminalsAst::While) => {
                let kids = ast.children(a);
                match kid_exec(ast, &kids, a, 1) {
                    Some(c) => {
                        self.derive_type(ast, c);
                    },
                    None => {},
                }
                match kid_exec(ast, &kids, a, 0) {
                    Some(b) => self.analyze_dfs(ast, b),
                    None => {},
                }
            },
            _ => {},
        }
    }

    fn analyze_block_kids(&mut self, ast: &SyntaxTree, a: usize)
        requires
            old(self).symbol_table@.wf(),
            ast@.wf(),
            a < ast@.nodes.len(),
        ensures
            old(self).counted() ==> final(self).counted(),
            final(self).state() == spec_block_kids(
                ast@,
                a as int,
                ast@.children(a).len() as int,
                old(self).state(),
            ),
            final(self).symbol_table@.wf(),
        decreases ast@.nodes.len() - a, 0int, 0int,
    {
        let kids = ast.children(a);
        let mut k: usize = kids.len();
        let ghost st1 = self.state();
        while k > 0
            invariant
                ast@.wf(),
                a < ast@.nodes.len(),
                kids@ == ast@.children(a),
                k <= kids@.len(),
                self.symbol_table@.wf(),
                old(self).counted() ==> self.counted(),
                spec_block_kids(ast@, a as int, kids@.len() as int, st1) == spec_block_kids(
                    ast@,
                    a as int,
                    k as int,
                    self.state(),
                ),
            decreases k,
        {
            k = k - 1;
            match kid_exec(ast, &kids, a, k) {
                Some(c) => self.analyze_dfs(ast, c),
                None => {},
            }
        }
    }

    /// Check the scopes and types of a program's AST from an empty symbol
    /// table; true when no error is found.
    pub fn analyze_program(&mut self, ast: &SyntaxTree) -> (r: bool)
        requires
            ast@.wf(),
        ensures
            final(self).state() == spec_analysis(ast@),
            r == (ast@.root is Some && error_count(spec_analysis(ast@).diags) == 0),
            final(self).symbols().wf(),
            final(self).counted(),
    {
        self.diagnostics = Vec::new();
        self.symbol_table.reset();
        self.num_errors = 0;
        self.num_warnings = 0;
        assert(diag_views(self.diagnostics@) =~= Seq::<SpecDiagnostic>::empty());
        let root = ast.root_index();
        match root {
            Some(rt) => {
                self.analyze_dfs(ast, rt);
                let ws = self.symbol_table.mass_warnings();
                let ghost base = self.state().diags;
                let ghost tbl = self.symbol_table@;
                let ghost wv = ws@.map_values(|w: (String, SymbolTableEntry, SymbolWarning)| (w.0@, w.1, w.2));
                let mut i: usize = 0;
                while i < ws.len()
                    invariant
                        i <= ws@.len(),
                        self.symbol_table@ == tbl,
                        tbl.wf(),
                        wv == ws@.map_values(|w: (String, SymbolTableEntry, SymbolWarning)| (w.0@, w.1, w.2)),
                        diag_views(self.diagnostics@) =~= base + unused_diags(wv.take(i as int)),
                    decreases ws.len() - i,
                {
                    let ghost before = diag_views(self.diagnostics@);
                    let name: String = ws[i].0.clone();
                    let d = SemanticDiagnostic::Unused { id: name, position: ws[i].1.position, warning: ws[i].2 };
                    self.report(d);
                    assert(unused_diags(wv.take(i + 1)) =~= unused_diags(wv.take(i as int)).push(
                        SpecDiagnostic::Unused { id: wv[i as int].0, position: wv[i as int].1.position, warning: wv[i as int].2 },
                    ));
                    i = i + 1;
                }
                assert(wv.take(ws@.len() as int) =~= wv);
                let mut errors: usize = 0;
                let mut j: usize = 0;
                while j < self.diagnostics.len()
                    invariant
                        j <= self.diagnostics@.len(),
                        self.symbol_table@ == tbl,
                        tbl.wf(),
                        errors <= j,
                        errors == error_count(diag_views(self.diagnostics@).take(j as int)),
                    decreases self.diagnostics.len() - j,
                {
                    assert(diag_views(self.diagnostics@).take(j + 1).drop_last() =~= diag_views(self.diagnostics@).take(j as int));
                    if self.diagnostics[j].is_error() {
                        errors = errors + 1;
                    }
                    j = j + 1;
                }
                assert(diag_views(self.diagnostics@).take(j as int) =~= diag_views(self.diagnostics@));
                proof {
                    lemma_error_count_bounded(diag_views(self.diagnostics@));
                }
                self.num_errors = errors;
                self.num_warnings = self.diagnostics.len() - errors;
                errors == 0
            },
            None => false,
        }
    }
}

proof fn lemma_error_count_bounded(ds: Seq<SpecDiagnostic>)
    ensures
        error_count(ds) <= ds.len(),
    decreases ds.len(),
{
    if ds.len() > 0 {
        lemma_error_count_bounded(ds.drop_last());
    }
}

} // verus!
