use vstd::prelude::*;

use crate::nexus::lexer::token_views;
use crate::nexus::syntax_tree_node::{NonTerminalsAst, NonTerminalsCst};
use crate::nexus::token::{Keywords, SpecToken, SpecTokenType, Symbols, Token, TokenType};

verus! {

// ---------------------------------------------------------------------------
// Results of parsing: the steps that build the CST, and the errors
// ---------------------------------------------------------------------------
/// One step of building a syntax tree: open a nonterminal (of the concrete or
/// the abstract syntax) below the current node, add a token as a leaf, or
/// move back up.
#[derive(Debug)]
pub enum TreeEvent {
    Branch(NonTerminalsCst),
    AstBranch(NonTerminalsAst),
    Leaf(Token),
    Up,
}

pub enum SpecTreeEvent {
    Branch(NonTerminalsCst),
    AstBranch(NonTerminalsAst),
    Leaf(SpecToken),
    Up,
}

impl View for TreeEvent {
    type V = SpecTreeEvent;

    open spec fn view(&self) -> SpecTreeEvent {
        match self {
            TreeEvent::Branch(n) => SpecTreeEvent::Branch(*n),
            TreeEvent::AstBranch(n) => SpecTreeEvent::AstBranch(*n),
            TreeEvent::Leaf(t) => SpecTreeEvent::Leaf(t@),
            TreeEvent::Up => SpecTreeEvent::Up,
        }
    }
}

pub open spec fn event_views(evs: Seq<TreeEvent>) -> Seq<SpecTreeEvent> {
    evs.map_values(|e: TreeEvent| e@)
}

/// Why a program does not parse.
#[derive(Debug)]
pub enum ParseError {
    /// The next token is not the one the grammar expects.
    InvalidToken { found: Token, expected: TokenType },
    /// The tokens ended where the grammar expects a token.
    MissingToken { expected: TokenType },
    /// The next token cannot start a statement.
    InvalidStatement { found: Token },
    /// The next token cannot start an expression.
    InvalidExpression { found: Token },
    /// The next token cannot start a boolean expression.
    InvalidBooleanExpression { found: Token },
    /// The next token is neither `==` nor `!=`.
    InvalidBoolOp { found: Token },
    /// The next token is neither `false` nor `true`.
    InvalidBoolVal { found: Token },
    /// The tokens ended where a statement or an expression is due.
    UnexpectedEnd { expected: NonTerminalsCst },
}

pub enum SpecParseError {
    InvalidToken { found: SpecToken, expected: SpecTokenType },
    MissingToken { expected: SpecTokenType },
    InvalidStatement { found: SpecToken },
    InvalidExpression { found: SpecToken },
    InvalidBooleanExpression { found: SpecToken },
    InvalidBoolOp { found: SpecToken },
    InvalidBoolVal { found: SpecToken },
    UnexpectedEnd { expected: NonTerminalsCst },
}

impl View for ParseError {
    type V = SpecParseError;

    open spec fn view(&self) -> SpecParseError {
        match self {
            ParseError::InvalidToken { found, expected } => SpecParseError::InvalidToken {
                found: found@,
                expected: expected@,
            },
            ParseError::MissingToken { expected } => SpecParseError::MissingToken {
                expected: expected@,
            },
            ParseError::InvalidStatement { found } => SpecParseError::InvalidStatement {
                found: found@,
            },
            ParseError::InvalidExpression { found } => SpecParseError::InvalidExpression {
                found: found@,
            },
            ParseError::InvalidBooleanExpression { found } =>
                SpecParseError::InvalidBooleanExpression { found: found@ },
            ParseError::InvalidBoolOp { found } => SpecParseError::InvalidBoolOp { found: found@ },
            ParseError::InvalidBoolVal { found } => SpecParseError::InvalidBoolVal {
                found: found@,
            },
            ParseError::UnexpectedEnd { expected } => SpecParseError::UnexpectedEnd {
                expected: *expected,
            },
        }
    }
}

/// The result of parsing a nonterminal from a token index: the index after
/// it and the steps that build its subtree, or the index at which the parse
/// failed and the error.
pub type PResult = Result<(int, Seq<SpecTreeEvent>), (int, SpecParseError)>;

// ---------------------------------------------------------------------------
// The grammar
// ---------------------------------------------------------------------------
/// The text an identifier is expected as.
pub open spec fn id_hint() -> Seq<char> {
    seq!['a', '-', 'z']
}

/// The text a string character is expected as.
pub open spec fn char_hint() -> Seq<char> {
    seq!['a', '-', 'z', ' ', 'o', 'r', ' ', 's', 'p', 'a', 'c', 'e']
}

/// Whether a found token kind satisfies an expected one: symbols must be
/// equal, identifiers, digits and characters match any of their kind,
/// keywords must be the same keyword, and an unrecognized token matches
/// anything.
pub open spec fn token_matches(found: SpecTokenType, expected: SpecTokenType) -> bool {
    match found {
        SpecTokenType::Symbol(_) => found == expected,
        SpecTokenType::Identifier(_) => expected is Identifier,
        SpecTokenType::Digit(_) => expected is Digit,
        SpecTokenType::Char(_) => expected is Char,
        SpecTokenType::Keyword(k) => expected == SpecTokenType::Keyword(k),
        SpecTokenType::Unrecognized(_) => true,
    }
}

pub open spec fn spec_match_token(t: Seq<SpecToken>, i: int, expected: SpecTokenType) -> PResult {
    if i < 0 || i >= t.len() {
        Err((i, SpecParseError::MissingToken { expected }))
    } else if token_matches(t[i].token_type, expected) {
        Ok((i + 1, seq![SpecTreeEvent::Leaf(t[i])]))
    } else {
        Err((i, SpecParseError::InvalidToken { found: t[i], expected }))
    }
}

/// Put the steps of a successful parse under a new nonterminal node.
pub open spec fn wrap(nt: NonTerminalsCst, r: PResult) -> PResult {
    match r {
        Ok((j, e)) => Ok((j, seq![SpecTreeEvent::Branch(nt)] + e + seq![SpecTreeEvent::Up])),
        Err(x) => Err(x),
    }
}

pub open spec fn is_sym(t: Seq<SpecToken>, i: int, s: Symbols) -> bool {
    0 <= i < t.len() && t[i].token_type == SpecTokenType::Symbol(s)
}

pub open spec fn is_kw(t: Seq<SpecToken>, i: int, k: Keywords) -> bool {
    0 <= i < t.len() && t[i].token_type == SpecTokenType::Keyword(k)
}

/// Id ::= char
pub open spec fn spec_id(t: Seq<SpecToken>, i: int) -> PResult {
    wrap(
        NonTerminalsCst::Id,
        spec_match_token(t, i, SpecTokenType::Identifier(id_hint())),
    )
}

/// type ::= int | string | boolean
pub open spec fn spec_type(t: Seq<SpecToken>, i: int) -> PResult {
    if is_kw(t, i, Keywords::Int) || is_kw(t, i, Keywords::String) || is_kw(t, i, Keywords::Boolean) {
        wrap(NonTerminalsCst::Type, spec_match_token(t, i, t[i].token_type))
    } else {
        wrap(NonTerminalsCst::Type, spec_match_token(t, i, SpecTokenType::Keyword(Keywords::Int)))
    }
}

/// intop ::= +
pub open spec fn spec_int_op(t: Seq<SpecToken>, i: int) -> PResult {
    wrap(NonTerminalsCst::IntOp, spec_match_token(t, i, SpecTokenType::Symbol(Symbols::AdditionOp)))
}

/// boolop ::= == | !=
pub open spec fn spec_bool_op(t: Seq<SpecToken>, i: int) -> PResult {
    let eq = spec_match_token(t, i, SpecTokenType::Symbol(Symbols::EqOp));
    let neq = spec_match_token(t, i, SpecTokenType::Symbol(Symbols::NeqOp));
    wrap(
        NonTerminalsCst::BoolOp,
        if eq matches Err((_, SpecParseError::InvalidToken { .. })) {
            if neq matches Err((_, SpecParseError::InvalidToken { .. })) {
                Err((i, SpecParseError::InvalidBoolOp { found: t[i] }))
            } else {
                neq
            }
        } else {
            eq
        },
    )
}

/// boolval ::= false | true
pub open spec fn spec_bool_val(t: Seq<SpecToken>, i: int) -> PResult {
    let f = spec_match_token(t, i, SpecTokenType::Keyword(Keywords::False));
    let tr = spec_match_token(t, i, SpecTokenType::Keyword(Keywords::True));
    wrap(
        NonTerminalsCst::BoolVal,
        if f matches Err((_, SpecParseError::InvalidToken { .. })) {
            if tr matches Err((_, SpecParseError::InvalidToken { .. })) {
                Err((i, SpecParseError::InvalidBoolVal { found: t[i] }))
            } else {
                tr
            }
        } else {
            f
        },
    )
}

/// char ::= a..z, or space
pub open spec fn spec_char(t: Seq<SpecToken>, i: int) -> PResult {
    let nt = if 0 <= i < t.len() && t[i].text =~= seq![' '] {
        NonTerminalsCst::Space
    } else {
        NonTerminalsCst::Char
    };
    wrap(nt, spec_match_token(t, i, SpecTokenType::Char(char_hint())))
}

/// The characters of a CharList, up to the closing quote.
pub open spec fn spec_char_items(t: Seq<SpecToken>, i: int) -> PResult
    decreases t.len() - i,
{
    if is_sym(t, i, Symbols::Quote) {
        Ok((i, Seq::empty()))
    } else {
        match spec_char(t, i) {
            Ok((j, e)) => if is_sym(t, j, Symbols::Quote) || !(i < j <= t.len()) {
                Ok((j, e))
            } else {
                match spec_char_items(t, j) {
                    Ok((k, e2)) => Ok((k, e + e2)),
                    Err(x) => Err(x),
                }
            },
            Err(x) => Err(x),
        }
    }
}

/// CharList ::= char CharList | space CharList | ε
pub open spec fn spec_char_list(t: Seq<SpecToken>, i: int) -> PResult {
    wrap(NonTerminalsCst::CharList, spec_char_items(t, i))
}

/// StringExpr ::= " CharList "
pub open spec fn spec_string_expr(t: Seq<SpecToken>, i: int) -> PResult {
    wrap(
        NonTerminalsCst::StringExpr,
        match spec_match_token(t, i, SpecTokenType::Symbol(Symbols::Quote)) {
            Ok((_, e1)) => match spec_char_list(t, i + 1) {
                Ok((j, e2)) => match spec_match_token(t, j, SpecTokenType::Symbol(Symbols::Quote)) {
                    Ok((k, e3)) => Ok((k, e1 + e2 + e3)),
                    Err(x) => Err(x),
                },
                Err(x) => Err(x),
            },
            Err(x) => Err(x),
        },
    )
}

proof fn lemma_char_items_reach_quote(t: Seq<SpecToken>, j: int, k: int)
    requires
        0 <= j <= k < t.len(),
        forall|m: int| j <= m < k ==> (#[trigger] t[m].token_type) is Char,
        t[k].token_type == SpecTokenType::Symbol(Symbols::Quote),
    ensures
        spec_char_items(t, j) matches Ok((e, _)) && e == k,
    decreases k - j,
{
    if j < k {
        assert(t[j].token_type is Char);
        if !is_sym(t, j + 1, Symbols::Quote) {
            lemma_char_items_reach_quote(t, j + 1, k);
        } else if j + 1 < k {
            assert(t[j + 1].token_type is Char);
        }
    }
}

/// A string literal parses: a quote, any number of characters (none
/// included) and a closing quote form a StringExpr that ends right after the
/// closing quote.
pub proof fn lemma_string_literal_parses(t: Seq<SpecToken>, i: int, n: int)
    requires
        0 <= i,
        0 <= n,
        i + n + 1 < t.len(),
        t[i].token_type == SpecTokenType::Symbol(Symbols::Quote),
        forall|m: int| i < m <= i + n ==> (#[trigger] t[m].token_type) is Char,
        t[i + n + 1].token_type == SpecTokenType::Symbol(Symbols::Quote),
    ensures
        spec_string_expr(t, i) matches Ok((e, _)) && e == i + n + 2,
{
    lemma_char_items_reach_quote(t, i + 1, i + n + 1);
}

/// Expr ::= IntExpr | StringExpr | BooleanExpr | Id
pub open spec fn spec_expr(t: Seq<SpecToken>, i: int) -> PResult
    decreases t.len() - i, 3int,
{
    if !(0 <= i < t.len()) {
        Err((i, SpecParseError::UnexpectedEnd { expected: NonTerminalsCst::Expr }))
    } else {
        wrap(
            NonTerminalsCst::Expr,
            match t[i].token_type {
                SpecTokenType::Digit(_) => spec_int_expr(t, i),
                SpecTokenType::Symbol(Symbols::Quote) => spec_string_expr(t, i),
                SpecTokenType::Symbol(Symbols::LParen) | SpecTokenType::Keyword(Keywords::False)
                | SpecTokenType::Keyword(Keywords::True) => spec_bool_expr(t, i),
                SpecTokenType::Identifier(_) => spec_id(t, i),
                _ => Err((i, SpecParseError::InvalidExpression { found: t[i] })),
            },
        )
    }
}

/// IntExpr ::= digit intop Expr | digit
pub open spec fn spec_int_expr(t: Seq<SpecToken>, i: int) -> PResult
    decreases t.len() - i, 2int,
{
    wrap(
        NonTerminalsCst::IntExpr,
        match spec_match_token(t, i, SpecTokenType::Digit(0)) {
            Ok((_, e1)) => {
                let d = seq![SpecTreeEvent::Branch(NonTerminalsCst::Digit)] + e1 + seq![
                    SpecTreeEvent::Up,
                ];
                match spec_int_op(t, i + 1) {
                    Ok((_, e2)) => if 0 <= i {
                        match spec_expr(t, i + 2) {
                            Ok((k, e3)) => Ok((k, d + e2 + e3)),
                            Err(x) => Err(x),
                        }
                    } else {
                        Ok((i + 1, d))
                    },
                    Err(_) => Ok((i + 1, d)),
                }
            },
            Err(x) => Err(x),
        },
    )
}

/// BooleanExpr ::= ( Expr boolop Expr ) | boolval
pub open spec fn spec_bool_expr(t: Seq<SpecToken>, i: int) -> PResult
    decreases t.len() - i, 2int,
{
    if !(0 <= i < t.len()) {
        Err((i, SpecParseError::UnexpectedEnd { expected: NonTerminalsCst::BooleanExpr }))
    } else {
        wrap(
            NonTerminalsCst::BooleanExpr,
            match t[i].token_type {
                SpecTokenType::Symbol(Symbols::LParen) => match spec_expr(t, i + 1) {
                    Ok((j, e1)) => if !(i < j <= t.len()) {
                        Err((j, SpecParseError::UnexpectedEnd { expected: NonTerminalsCst::BooleanExpr }))
                    } else {
                        match spec_bool_op(t, j) {
                            Ok((_, e2)) => match spec_expr(t, j + 1) {
                                Ok((k, e3)) => if !(j < k <= t.len()) {
                                    Err(
                                        (
                                            k,
                                            SpecParseError::UnexpectedEnd {
                                                expected: NonTerminalsCst::BooleanExpr,
                                            },
                                        ),
                                    )
                                } else {
                                    match spec_match_token(
                                        t,
                                        k,
                                        SpecTokenType::Symbol(Symbols::RParen),
                                    ) {
                                        Ok((m, e4)) => Ok(
                                            (
                                                m,
                                                seq![SpecTreeEvent::Leaf(t[i])] + e1 + e2 + e3 + e4,
                                            ),
                                        ),
                                        Err(x) => Err(x),
                                    }
                                },
                                Err(x) => Err(x),
                            },
                            Err(x) => Err(x),
                        }
                    },
                    Err(x) => Err(x),
                },
                SpecTokenType::Keyword(Keywords::False) | SpecTokenType::Keyword(Keywords::True) =>
                    spec_bool_val(t, i),
                _ => Err((i, SpecParseError::InvalidBooleanExpression { found: t[i] })),
            },
        )
    }
}

/// PrintStatement ::= print ( Expr )
pub open spec fn spec_print(t: Seq<SpecToken>, i: int) -> PResult
    decreases t.len() - i, 4int,
{
    wrap(
        NonTerminalsCst::PrintStatement,
        match spec_match_token(t, i, SpecTokenType::Keyword(Keywords::Print)) {
            Ok((_, e1)) => match spec_match_token(t, i + 1, SpecTokenType::Symbol(Symbols::LParen)) {
                Ok((_, e2)) => {
                    let mid: PResult = if 0 <= i && i + 2 < t.len() {
                        spec_expr(t, i + 2)
                    } else {
                        Ok((i + 2, Seq::empty()))
                    };
                    match mid {
                        Ok((j, e3)) => match spec_match_token(
                            t,
                            j,
                            SpecTokenType::Symbol(Symbols::RParen),
                        ) {
                            Ok((k, e4)) => Ok((k, e1 + e2 + e3 + e4)),
                            Err(x) => Err(x),
                        },
                        Err(x) => Err(x),
                    }
                },
                Err(x) => Err(x),
            },
            Err(x) => Err(x),
        },
    )
}

/// AssignmentStatement ::= Id = Expr
pub open spec fn spec_assign(t: Seq<SpecToken>, i: int) -> PResult
    decreases t.len() - i, 4int,
{
    wrap(
        NonTerminalsCst::AssignmentStatement,
        match spec_id(t, i) {
            Ok((_, e1)) => match spec_match_token(
                t,
                i + 1,
                SpecTokenType::Symbol(Symbols::AssignmentOp),
            ) {
                Ok((_, e2)) => if 0 <= i {
                    match spec_expr(t, i + 2) {
                        Ok((k, e3)) => Ok((k, e1 + e2 + e3)),
                        Err(x) => Err(x),
                    }
                } else {
                    Err((i + 2, SpecParseError::UnexpectedEnd { expected: NonTerminalsCst::Expr }))
                },
                Err(x) => Err(x),
            },
            Err(x) => Err(x),
        },
    )
}

/// VarDecl ::= type Id
pub open spec fn spec_var_decl(t: Seq<SpecToken>, i: int) -> PResult {
    wrap(
        NonTerminalsCst::VarDecl,
        match spec_type(t, i) {
            Ok((_, e1)) => match spec_id(t, i + 1) {
                Ok((k, e2)) => Ok((k, e1 + e2)),
                Err(x) => Err(x),
            },
            Err(x) => Err(x),
        },
    )
}

/// WhileStatement ::= while BooleanExpr Block, and IfStatement ::= if BooleanExpr Block
pub open spec fn spec_cond_statement(t: Seq<SpecToken>, i: int, is_while: bool) -> PResult
    decreases t.len() - i, 4int,
{
    wrap(
        if is_while {
            NonTerminalsCst::WhileStatement
        } else {
            NonTerminalsCst::IfStatement
        },
        match spec_match_token(
            t,
            i,
            SpecTokenType::Keyword(
                if is_while {
                    Keywords::While
                } else {
                    Keywords::If
                },
            ),
        ) {
            Ok((_, e1)) => if 0 <= i {
                match spec_bool_expr(t, i + 1) {
                    Ok((j, e2)) => if !(i < j <= t.len()) {
                        Err((j, SpecParseError::UnexpectedEnd { expected: NonTerminalsCst::Block }))
                    } else {
                        match spec_block(t, j) {
                            Ok((k, e3)) => Ok((k, e1 + e2 + e3)),
                            Err(x) => Err(x),
                        }
                    },
                    Err(x) => Err(x),
                }
            } else {
                Err((i + 1, SpecParseError::UnexpectedEnd { expected: NonTerminalsCst::BooleanExpr }))
            },
            Err(x) => Err(x),
        },
    )
}

/// Statement ::= PrintStatement | AssignmentStatement | VarDecl | WhileStatement
///             | IfStatement | Block
pub open spec fn spec_statement(t: Seq<SpecToken>, i: int) -> PResult
    decreases t.len() - i, 5int,
{
    if !(0 <= i < t.len()) {
        Err((i, SpecParseError::UnexpectedEnd { expected: NonTerminalsCst::Statement }))
    } else {
        wrap(
            NonTerminalsCst::Statement,
            match t[i].token_type {
                SpecTokenType::Keyword(Keywords::Print) => spec_print(t, i),
                SpecTokenType::Identifier(_) => spec_assign(t, i),
                SpecTokenType::Keyword(Keywords::Int) | SpecTokenType::Keyword(Keywords::String)
                | SpecTokenType::Keyword(Keywords::Boolean) => spec_var_decl(t, i),
                SpecTokenType::Keyword(Keywords::While) => spec_cond_statement(t, i, true),
                SpecTokenType::Keyword(Keywords::If) => spec_cond_statement(t, i, false),
                SpecTokenType::Symbol(Symbols::LBrace) => spec_block(t, i),
                _ => Err((i, SpecParseError::InvalidStatement { found: t[i] })),
            },
        )
    }
}

/// The statements of a StatementList, up to the closing brace.
pub open spec fn spec_statement_items(t: Seq<SpecToken>, i: int) -> PResult
    decreases t.len() - i, 6int,
{
    if 0 <= i < t.len() && !is_sym(t, i, Symbols::RBrace) {
        match spec_statement(t, i) {
            Ok((j, e)) => if !(i < j <= t.len()) || j == t.len() || is_sym(t, j, Symbols::RBrace) {
                Ok((j, e))
            } else {
                match spec_statement_items(t, j) {
                    Ok((k, e2)) => Ok((k, e + e2)),
                    Err(x) => Err(x),
                }
            },
            Err(x) => Err(x),
        }
    } else {
        Ok((i, Seq::empty()))
    }
}

/// Block ::= { StatementList }
pub open spec fn spec_block(t: Seq<SpecToken>, i: int) -> PResult
    decreases t.len() - i, 4int,
{
    wrap(
        NonTerminalsCst::Block,
        match spec_match_token(t, i, SpecTokenType::Symbol(Symbols::LBrace)) {
            Ok((_, e1)) => if 0 <= i {
                match wrap(NonTerminalsCst::StatementList, spec_statement_items(t, i + 1)) {
                    Ok((j, e2)) => match spec_match_token(
                        t,
                        j,
                        SpecTokenType::Symbol(Symbols::RBrace),
                    ) {
                        Ok((k, e3)) => Ok((k, e1 + e2 + e3)),
                        Err(x) => Err(x),
                    },
                    Err(x) => Err(x),
                }
            } else {
                Err((i + 1, SpecParseError::UnexpectedEnd { expected: NonTerminalsCst::Block }))
            },
            Err(x) => Err(x),
        },
    )
}

/// Program ::= Block $
pub open spec fn spec_program(t: Seq<SpecToken>) -> PResult {
    wrap(
        NonTerminalsCst::Program,
        match spec_block(t, 0) {
            Ok((j, e1)) => match spec_match_token(t, j, SpecTokenType::Symbol(Symbols::EOP)) {
                Ok((k, e2)) => Ok((k, e1 + e2)),
                Err(x) => Err(x),
            },
            Err(x) => Err(x),
        },
    )
}


// ---------------------------------------------------------------------------
// The recursive descent parser
// ---------------------------------------------------------------------------
/// Whether an executable parse step agrees with the grammar: on success the
/// index moved to where the grammar says and the steps it appended are the
/// grammar's; on failure the error is the grammar's.
pub open spec fn outcome(
    spec_r: PResult,
    r: Result<(), ParseError>,
    idx: usize,
    ev0: Seq<TreeEvent>,
    ev1: Seq<TreeEvent>,
) -> bool {
    match spec_r {
        Ok((j, e)) => r is Ok && idx == j && event_views(ev1) =~= event_views(ev0) + e,
        Err((k, x)) => r matches Err(y) && y@ == x && idx == k,
    }
}

/// A recursive descent parser over a token stream.
pub struct Parser {
    cur_token_index: usize,
}

impl Parser {
    /// The index of the next token to parse.
    pub closed spec fn index(&self) -> int {
        self.cur_token_index as int
    }
}

fn token_matches_exec(found: &TokenType, expected: &TokenType) -> (r: bool)
    ensures
        r == token_matches(found@, expected@),
{
    match found {
        TokenType::Symbol(s) => expected.is_symbol(*s),
        TokenType::Identifier(_) => matches!(expected, TokenType::Identifier(_)),
        TokenType::Digit(_) => matches!(expected, TokenType::Digit(_)),
        TokenType::Char(_) => matches!(expected, TokenType::Char(_)),
        TokenType::Keyword(k) => expected.is_keyword(*k),
        TokenType::Unrecognized(_) => true,
    }
}

fn id_expected() -> (r: TokenType)
    ensures
        r@ == SpecTokenType::Identifier(id_hint()),
{
    let s = String::from_str("a-z");
    proof {
        reveal_strlit("a-z");
        assert(s@ =~= id_hint());
    }
    TokenType::Identifier(s)
}

fn char_expected() -> (r: TokenType)
    ensures
        r@ == SpecTokenType::Char(char_hint()),
{
    let s = String::from_str("a-z or space");
    proof {
        reveal_strlit("a-z or space");
        assert(s@ =~= char_hint());
    }
    TokenType::Char(s)
}

proof fn lemma_views_push(evs: Seq<TreeEvent>, e: TreeEvent)
    ensures
        event_views(evs.push(e)) =~= event_views(evs).push(e@),
{
}

impl Parser {
    /// A parser at the start of a token stream.
    pub fn new() -> (r: Self)
        ensures
            r.index() == 0,
    {
        Parser { cur_token_index: 0 }
    }

    /// The index of the next token to parse.
    pub fn cur_token_index(&self) -> (r: usize)
        ensures
            r == self.index(),
    {
        self.cur_token_index
    }

    /// Consume the next token if it satisfies the expected kind.
    fn match_token(&mut self, token_stream: &Vec<Token>, expected_token: TokenType, ev: &mut Vec<TreeEvent>) -> (r: Result<(), ParseError>)
        requires
            old(self).cur_token_index <= token_stream.len() < usize::MAX - 2,
        ensures
            outcome(
                spec_match_token(token_views(token_stream@), old(self).cur_token_index as int, expected_token@),
                r,
                final(self).cur_token_index,
                old(ev)@,
                final(ev)@,
            ),
            final(self).cur_token_index <= token_stream.len(),
            r is Ok ==> final(self).cur_token_index == old(self).cur_token_index + 1,
            r is Err ==> final(self).cur_token_index == old(self).cur_token_index && final(ev)@ == old(ev)@,
    {
        if self.cur_token_index < token_stream.len() {
            let cur_token: &Token = &token_stream[self.cur_token_index];
            if token_matches_exec(&cur_token.token_type, &expected_token) {
                let leaf = cur_token.duplicate();
                let ghost ev0 = ev@;
                ev.push(TreeEvent::Leaf(leaf));
                proof { lemma_views_push(ev0, ev@.last()); }
                self.cur_token_index += 1;
                Ok(())
            } else {
                Err(ParseError::InvalidToken { found: cur_token.duplicate(), expected: expected_token })
            }
        } else {
            Err(ParseError::MissingToken { expected: expected_token })
        }
    }

    /// A single token of the expected kind under a new nonterminal node.
    fn match_wrapped(&mut self, token_stream: &Vec<Token>, nt: NonTerminalsCst, expected: TokenType, ev: &mut Vec<TreeEvent>) -> (r: Result<(), ParseError>)
        requires
            old(self).cur_token_index <= token_stream.len() < usize::MAX - 2,
        ensures
            outcome(wrap(nt, spec_match_token(token_views(token_stream@), old(self).cur_token_index as int, expected@)), r, final(self).cur_token_index, old(ev)@, final(ev)@),
            final(self).cur_token_index <= token_stream.len(),
            r is Ok ==> final(self).cur_token_index == old(self).cur_token_index + 1,
            r is Err ==> final(self).cur_token_index == old(self).cur_token_index && final(ev)@ == old(ev)@,
    {
        let ghost v0 = event_views(ev@);
        let ghost i = self.cur_token_index as int;
        let ghost ex = expected@;
        Self::open_node(ev, nt);
        let r = self.match_token(token_stream, expected, ev);
        Self::close_node(ev, r.is_ok());
        proof {
            if let Ok((_, e)) = spec_match_token(token_views(token_stream@), i, ex) {
                lemma_wrap(v0, nt, e);
            }
        }
        r
    }

    /// Id ::= char
    fn parse_identifier(&mut self, token_stream: &Vec<Token>, ev: &mut Vec<TreeEvent>) -> (r: Result<(), ParseError>)
        requires
            old(self).cur_token_index <= token_stream.len() < usize::MAX - 2,
        ensures
            outcome(spec_id(token_views(token_stream@), old(self).cur_token_index as int), r, final(self).cur_token_index, old(ev)@, final(ev)@),
            final(self).cur_token_index <= token_stream.len(),
            r is Ok ==> final(self).cur_token_index == old(self).cur_token_index + 1,
    {
        self.match_wrapped(token_stream, NonTerminalsCst::Id, id_expected(), ev)
    }

    /// intop ::= +
    fn parse_int_op(&mut self, token_stream: &Vec<Token>, ev: &mut Vec<TreeEvent>) -> (r: Result<(), ParseError>)
        requires
            old(self).cur_token_index <= token_stream.len() < usize::MAX - 2,
        ensures
            outcome(spec_int_op(token_views(token_stream@), old(self).cur_token_index as int), r, final(self).cur_token_index, old(ev)@, final(ev)@),
            final(self).cur_token_index <= token_stream.len(),
            r is Ok ==> final(self).cur_token_index == old(self).cur_token_index + 1,
            r is Err ==> final(self).cur_token_index == old(self).cur_token_index && final(ev)@ == old(ev)@,
    {
        self.match_wrapped(token_stream, NonTerminalsCst::IntOp, TokenType::Symbol(Symbols::AdditionOp), ev)
    }

    /// type ::= int | string | boolean
    fn parse_type(&mut self, token_stream: &Vec<Token>, ev: &mut Vec<TreeEvent>) -> (r: Result<(), ParseError>)
        requires
            old(self).cur_token_index <= token_stream.len() < usize::MAX - 2,
        ensures
            outcome(spec_type(token_views(token_stream@), old(self).cur_token_index as int), r, final(self).cur_token_index, old(ev)@, final(ev)@),
            final(self).cur_token_index <= token_stream.len(),
            r is Ok ==> final(self).cur_token_index == old(self).cur_token_index + 1,
    {
        let i = self.cur_token_index;
        if i < token_stream.len() && (token_stream[i].token_type.is_keyword(Keywords::Int)
            || token_stream[i].token_type.is_keyword(Keywords::String)
            || token_stream[i].token_type.is_keyword(Keywords::Boolean)) {
            let expected = token_stream[i].token_type.duplicate();
            self.match_wrapped(token_stream, NonTerminalsCst::Type, expected, ev)
        } else {
            self.match_wrapped(token_stream, NonTerminalsCst::Type, TokenType::Keyword(Keywords::Int), ev)
        }
    }

    /// char ::= a..z, or space
    fn parse_char(&mut self, token_stream: &Vec<Token>, ev: &mut Vec<TreeEvent>) -> (r: Result<(), ParseError>)
        requires
            old(self).cur_token_index <= token_stream.len() < usize::MAX - 2,
        ensures
            outcome(spec_char(token_views(token_stream@), old(self).cur_token_index as int), r, final(self).cur_token_index, old(ev)@, final(ev)@),
            final(self).cur_token_index <= token_stream.len(),
            r is Ok ==> final(self).cur_token_index == old(self).cur_token_index + 1,
    {
        let i = self.cur_token_index;
        let mut nt = NonTerminalsCst::Char;
        if i < token_stream.len() {
            let text: &str = token_stream[i].text.as_str();
            if text.unicode_len() == 1 && text.get_char(0) == ' ' {
                assert(token_stream[i as int].text@ =~= seq![' ']);
                nt = NonTerminalsCst::Space;
            }
        }
        self.match_wrapped(token_stream, nt, char_expected(), ev)
    }

    /// boolop ::= == | !=
    fn parse_bool_op(&mut self, token_stream: &Vec<Token>, ev: &mut Vec<TreeEvent>) -> (r: Result<(), ParseError>)
        requires
            old(self).cur_token_index <= token_stream.len() < usize::MAX - 2,
        ensures
            outcome(spec_bool_op(token_views(token_stream@), old(self).cur_token_index as int), r, final(self).cur_token_index, old(ev)@, final(ev)@),
            final(self).cur_token_index <= token_stream.len(),
            r is Ok ==> final(self).cur_token_index == old(self).cur_token_index + 1,
    {
        let ghost v0 = event_views(ev@);
        let ghost t = token_views(token_stream@);
        let i = self.cur_token_index;
        Self::open_node(ev, NonTerminalsCst::BoolOp);
        let eq_res = self.match_token(token_stream, TokenType::Symbol(Symbols::EqOp), ev);
        let r = if let Err(ParseError::InvalidToken { .. }) = eq_res {
            let neq_res = self.match_token(token_stream, TokenType::Symbol(Symbols::NeqOp), ev);
            if let Err(ParseError::InvalidToken { .. }) = neq_res {
                Err(ParseError::InvalidBoolOp { found: token_stream[i].duplicate() })
            } else {
                neq_res
            }
        } else {
            eq_res
        };
        Self::close_node(ev, r.is_ok());
        proof {
            let eq = spec_match_token(t, i as int, SpecTokenType::Symbol(Symbols::EqOp));
            let neq = spec_match_token(t, i as int, SpecTokenType::Symbol(Symbols::NeqOp));
            if let Ok((_, e)) = eq {
                lemma_wrap(v0, NonTerminalsCst::BoolOp, e);
            }
            if let Ok((_, e)) = neq {
                lemma_wrap(v0, NonTerminalsCst::BoolOp, e);
            }
        }
        r
    }

    /// boolval ::= false | true
    fn parse_bool_val(&mut self, token_stream: &Vec<Token>, ev: &mut Vec<TreeEvent>) -> (r: Result<(), ParseError>)
        requires
            old(self).cur_token_index <= token_stream.len() < usize::MAX - 2,
        ensures
            outcome(spec_bool_val(token_views(token_stream@), old(self).cur_token_index as int), r, final(self).cur_token_index, old(ev)@, final(ev)@),
            final(self).cur_token_index <= token_stream.len(),
            r is Ok ==> final(self).cur_token_index == old(self).cur_token_index + 1,
    {
        let ghost v0 = event_views(ev@);
        let ghost t = token_views(token_stream@);
        let i = self.cur_token_index;
        Self::open_node(ev, NonTerminalsCst::BoolVal);
        let false_res = self.match_token(token_stream, TokenType::Keyword(Keywords::False), ev);
        let r = if let Err(ParseError::InvalidToken { .. }) = false_res {
            let true_res = self.match_token(token_stream, TokenType::Keyword(Keywords::True), ev);
            if let Err(ParseError::InvalidToken { .. }) = true_res {
                Err(ParseError::InvalidBoolVal { found: token_stream[i].duplicate() })
            } else {
                true_res
            }
        } else {
            false_res
        };
        Self::close_node(ev, r.is_ok());
        proof {
            let f = spec_match_token(t, i as int, SpecTokenType::Keyword(Keywords::False));
            let tr = spec_match_token(t, i as int, SpecTokenType::Keyword(Keywords::True));
            if let Ok((_, e)) = f {
                lemma_wrap(v0, NonTerminalsCst::BoolVal, e);
            }
            if let Ok((_, e)) = tr {
                lemma_wrap(v0, NonTerminalsCst::BoolVal, e);
            }
        }
        r
    }

    /// The characters of a CharList, up to the closing quote.
    fn parse_char_items(&mut self, token_stream: &Vec<Token>, ev: &mut Vec<TreeEvent>) -> (r: Result<(), ParseError>)
        requires
            old(self).cur_token_index <= token_stream.len() < usize::MAX - 2,
        ensures
            outcome(spec_char_items(token_views(token_stream@), old(self).cur_token_index as int), r, final(self).cur_token_index, old(ev)@, final(ev)@),
            final(self).cur_token_index <= token_stream.len(),
            r is Ok ==> final(self).cur_token_index >= old(self).cur_token_index,
        decreases token_stream.len() - old(self).cur_token_index,
    {
        let i = self.cur_token_index;
        if i < token_stream.len() && token_stream[i].token_type.is_symbol(Symbols::Quote) {
            return Ok(());
        }
        let char_res = self.parse_char(token_stream, ev);
        match char_res {
            Err(e) => Err(e),
            Ok(()) => {
                let j = self.cur_token_index;
                if j < token_stream.len() && token_stream[j].token_type.is_symbol(Symbols::Quote) {
                    Ok(())
                } else {
                    self.parse_char_items(token_stream, ev)
                }
            },
        }
    }

    /// CharList ::= char CharList | space CharList | ε
    fn parse_char_list(&mut self, token_stream: &Vec<Token>, ev: &mut Vec<TreeEvent>) -> (r: Result<(), ParseError>)
        requires
            old(self).cur_token_index <= token_stream.len() < usize::MAX - 2,
        ensures
            outcome(spec_char_list(token_views(token_stream@), old(self).cur_token_index as int), r, final(self).cur_token_index, old(ev)@, final(ev)@),
            final(self).cur_token_index <= token_stream.len(),
            r is Ok ==> final(self).cur_token_index >= old(self).cur_token_index,
    {
        let ghost v0 = event_views(ev@);
        let ghost i = self.cur_token_index as int;
        Self::open_node(ev, NonTerminalsCst::CharList);
        let r = self.parse_char_items(token_stream, ev);
        Self::close_node(ev, r.is_ok());
        proof {
            if let Ok((_, e)) = spec_char_items(token_views(token_stream@), i) {
                lemma_wrap(v0, NonTerminalsCst::CharList, e);
            }
        }
        r
    }

    /// StringExpr ::= " CharList "
    fn parse_string_expression(&mut self, token_stream: &Vec<Token>, ev: &mut Vec<TreeEvent>) -> (r: Result<(), ParseError>)
        requires
            old(self).cur_token_index <= token_stream.len() < usize::MAX - 2,
        ensures
            outcome(spec_string_expr(token_views(token_stream@), old(self).cur_token_index as int), r, final(self).cur_token_index, old(ev)@, final(ev)@),
            final(self).cur_token_index <= token_stream.len(),
            r is Ok ==> final(self).cur_token_index > old(self).cur_token_index,
    {
        let ghost v0 = event_views(ev@);
        let ghost t = token_views(token_stream@);
        let ghost i = self.cur_token_index as int;
        Self::open_node(ev, NonTerminalsCst::StringExpr);
        let r = match self.match_token(token_stream, TokenType::Symbol(Symbols::Quote), ev) {
            Err(e) => Err(e),
            Ok(()) => match self.parse_char_list(token_stream, ev) {
                Err(e) => Err(e),
                Ok(()) => self.match_token(token_stream, TokenType::Symbol(Symbols::Quote), ev),
            },
        };
        Self::close_node(ev, r.is_ok());
        proof {
            if let Ok((_, e1)) = spec_match_token(t, i, SpecTokenType::Symbol(Symbols::Quote)) {
                if let Ok((j, e2)) = spec_char_list(t, i + 1) {
                    if let Ok((_, e3)) = spec_match_token(t, j, SpecTokenType::Symbol(Symbols::Quote)) {
                        lemma_wrap(v0, NonTerminalsCst::StringExpr, e1 + e2 + e3);
                    }
                }
            }
        }
        r
    }

    /// Expr ::= IntExpr | StringExpr | BooleanExpr | Id
    fn parse_expression(&mut self, token_stream: &Vec<Token>, ev: &mut Vec<TreeEvent>) -> (r: Result<(), ParseError>)
        requires
            old(self).cur_token_index <= token_stream.len() < usize::MAX - 2,
        ensures
            outcome(spec_expr(token_views(token_stream@), old(self).cur_token_index as int), r, final(self).cur_token_index, old(ev)@, final(ev)@),
            final(self).cur_token_index <= token_stream.len(),
            r is Ok ==> final(self).cur_token_index > old(self).cur_token_index,
        decreases token_stream.len() - old(self).cur_token_index, 3int,
    {
        let i = self.cur_token_index;
        if i >= token_stream.len() {
            return Err(ParseError::UnexpectedEnd { expected: NonTerminalsCst::Expr });
        }
        let ghost v0 = event_views(ev@);
        let ghost t = token_views(token_stream@);
        Self::open_node(ev, NonTerminalsCst::Expr);
        let r = match &token_stream[i].token_type {
            TokenType::Digit(_) => self.parse_int_expression(token_stream, ev),
            TokenType::Symbol(Symbols::Quote) => self.parse_string_expression(token_stream, ev),
            TokenType::Symbol(Symbols::LParen) | TokenType::Keyword(Keywords::False)
            | TokenType::Keyword(Keywords::True) => self.parse_bool_expression(token_stream, ev),
            TokenType::Identifier(_) => self.parse_identifier(token_stream, ev),
            _ => Err(ParseError::InvalidExpression { found: token_stream[i].duplicate() }),
        };
        Self::close_node(ev, r.is_ok());
        proof {
            let inner: PResult = match t[i as int].token_type {
                SpecTokenType::Digit(_) => spec_int_expr(t, i as int),
                SpecTokenType::Symbol(Symbols::Quote) => spec_string_expr(t, i as int),
                SpecTokenType::Symbol(Symbols::LParen) | SpecTokenType::Keyword(Keywords::False)
                | SpecTokenType::Keyword(Keywords::True) => spec_bool_expr(t, i as int),
                SpecTokenType::Identifier(_) => spec_id(t, i as int),
                _ => Err((i as int, SpecParseError::InvalidExpression { found: t[i as int] })),
            };
            if let Ok((_, e)) = inner {
                lemma_wrap(v0, NonTerminalsCst::Expr, e);
            }
        }
        r
    }

    /// IntExpr ::= digit intop Expr | digit
    fn parse_int_expression(&mut self, token_stream: &Vec<Token>, ev: &mut Vec<TreeEvent>) -> (r: Result<(), ParseError>)
        requires
            old(self).cur_token_index <= token_stream.len() < usize::MAX - 2,
        ensures
            outcome(spec_int_expr(token_views(token_stream@), old(self).cur_token_index as int), r, final(self).cur_token_index, old(ev)@, final(ev)@),
            final(self).cur_token_index <= token_stream.len(),
            r is Ok ==> final(self).cur_token_index > old(self).cur_token_index,
        decreases token_stream.len() - old(self).cur_token_index, 2int,
    {
        let ghost v0 = event_views(ev@);
        let ghost t = token_views(token_stream@);
        let ghost i = self.cur_token_index as int;
        Self::open_node(ev, NonTerminalsCst::IntExpr);
        let r = match self.match_wrapped(token_stream, NonTerminalsCst::Digit, TokenType::Digit(0), ev) {
            Err(e) => Err(e),
            Ok(()) => match self.parse_int_op(token_stream, ev) {
                Ok(()) => self.parse_expression(token_stream, ev),
                Err(_) => Ok(()),
            },
        };
        Self::close_node(ev, r.is_ok());
        proof {
            if let Ok((_, e1)) = spec_match_token(t, i, SpecTokenType::Digit(0)) {
                let d = seq![SpecTreeEvent::Branch(NonTerminalsCst::Digit)] + e1 + seq![SpecTreeEvent::Up];
                match spec_int_op(t, i + 1) {
                    Ok((_, e2)) => {
                        if let Ok((_, e3)) = spec_expr(t, i + 2) {
                            lemma_wrap(v0, NonTerminalsCst::IntExpr, d + e2 + e3);
                        }
                    },
                    Err(_) => {
                        lemma_wrap(v0, NonTerminalsCst::IntExpr, d);
                    },
                }
            }
        }
        r
    }

    /// BooleanExpr ::= ( Expr boolop Expr ) | boolval
    fn parse_bool_expression(&mut self, token_stream: &Vec<Token>, ev: &mut Vec<TreeEvent>) -> (r: Result<(), ParseError>)
        requires
            old(self).cur_token_index <= token_stream.len() < usize::MAX - 2,
        ensures
            outcome(spec_bool_expr(token_views(token_stream@), old(self).cur_token_index as int), r, final(self).cur_token_index, old(ev)@, final(ev)@),
            final(self).cur_token_index <= token_stream.len(),
            r is Ok ==> final(self).cur_token_index > old(self).cur_token_index,
        decreases token_stream.len() - old(self).cur_token_index, 2int,
    {
        let i = self.cur_token_index;
        if i >= token_stream.len() {
            return Err(ParseError::UnexpectedEnd { expected: NonTerminalsCst::BooleanExpr });
        }
        let ghost v0 = event_views(ev@);
        let ghost t = token_views(token_stream@);
        Self::open_node(ev, NonTerminalsCst::BooleanExpr);
        let r = match &token_stream[i].token_type {
            TokenType::Symbol(Symbols::LParen) => {
                match self.match_token(token_stream, TokenType::Symbol(Symbols::LParen), ev) {
                    Err(e) => Err(e),
                    Ok(()) => match self.parse_expression(token_stream, ev) {
                        Err(e) => Err(e),
                        Ok(()) => match self.parse_bool_op(token_stream, ev) {
                            Err(e) => Err(e),
                            Ok(()) => match self.parse_expression(token_stream, ev) {
                                Err(e) => Err(e),
                                Ok(()) => self.match_token(token_stream, TokenType::Symbol(Symbols::RParen), ev),
                            },
                        },
                    },
                }
            },
            TokenType::Keyword(Keywords::False) | TokenType::Keyword(Keywords::True) => self.parse_bool_val(token_stream, ev),
            _ => Err(ParseError::InvalidBooleanExpression { found: token_stream[i].duplicate() }),
        };
        Self::close_node(ev, r.is_ok());
        proof {
            let ii = i as int;
            match t[ii].token_type {
                SpecTokenType::Symbol(Symbols::LParen) => {
                    if let Ok((j, e1)) = spec_expr(t, ii + 1) {
                        if let Ok((_, e2)) = spec_bool_op(t, j) {
                            if let Ok((k, e3)) = spec_expr(t, j + 1) {
                                if let Ok((_, e4)) = spec_match_token(t, k, SpecTokenType::Symbol(Symbols::RParen)) {
                                    lemma_wrap(v0, NonTerminalsCst::BooleanExpr, seq![SpecTreeEvent::Leaf(t[ii])] + e1 + e2 + e3 + e4);
                                }
                            }
                        }
                    }
                },
                SpecTokenType::Keyword(Keywords::False) | SpecTokenType::Keyword(Keywords::True) => {
                    if let Ok((_, e)) = spec_bool_val(t, ii) {
                        lemma_wrap(v0, NonTerminalsCst::BooleanExpr, e);
                    }
                },
                _ => {},
            }
        }
        r
    }

    /// PrintStatement ::= print ( Expr )
    fn parse_print_statement(&mut self, token_stream: &Vec<Token>, ev: &mut Vec<TreeEvent>) -> (r: Result<(), ParseError>)
        requires
            old(self).cur_token_index <= token_stream.len() < usize::MAX - 2,
        ensures
            outcome(spec_print(token_views(token_stream@), old(self).cur_token_index as int), r, final(self).cur_token_index, old(ev)@, final(ev)@),
            final(self).cur_token_index <= token_stream.len(),
            r is Ok ==> final(self).cur_token_index > old(self).cur_token_index,
        decreases token_stream.len() - old(self).cur_token_index, 4int,
    {
        let ghost v0 = event_views(ev@);
        let ghost t = token_views(token_stream@);
        let ghost i = self.cur_token_index as int;
        Self::open_node(ev, NonTerminalsCst::PrintStatement);
        let r = match self.match_token(token_stream, TokenType::Keyword(Keywords::Print), ev) {
            Err(e) => Err(e),
            Ok(()) => match self.match_token(token_stream, TokenType::Symbol(Symbols::LParen), ev) {
                Err(e) => Err(e),
                Ok(()) => {
                    let mid = if self.cur_token_index < token_stream.len() {
                        self.parse_expression(token_stream, ev)
                    } else {
                        Ok(())
                    };
                    match mid {
                        Err(e) => Err(e),
                        Ok(()) => self.match_token(token_stream, TokenType::Symbol(Symbols::RParen), ev),
                    }
                },
            },
        };
        Self::close_node(ev, r.is_ok());
        proof {
            if let Ok((_, e1)) = spec_match_token(t, i, SpecTokenType::Keyword(Keywords::Print)) {
                if let Ok((_, e2)) = spec_match_token(t, i + 1, SpecTokenType::Symbol(Symbols::LParen)) {
                    let mid: PResult = if 0 <= i && i + 2 < t.len() {
                        spec_expr(t, i + 2)
                    } else {
                        Ok((i + 2, Seq::empty()))
                    };
                    if let Ok((j, e3)) = mid {
                        if let Ok((_, e4)) = spec_match_token(t, j, SpecTokenType::Symbol(Symbols::RParen)) {
                            lemma_wrap(v0, NonTerminalsCst::PrintStatement, e1 + e2 + e3 + e4);
                        }
                    }
                }
            }
        }
        r
    }

    /// AssignmentStatement ::= Id = Expr
    fn parse_assignment_statement(&mut self, token_stream: &Vec<Token>, ev: &mut Vec<TreeEvent>) -> (r: Result<(), ParseError>)
        requires
            old(self).cur_token_index <= token_stream.len() < usize::MAX - 2,
        ensures
            outcome(spec_assign(token_views(token_stream@), old(self).cur_token_index as int), r, final(self).cur_token_index, old(ev)@, final(ev)@),
            final(self).cur_token_index <= token_stream.len(),
            r is Ok ==> final(self).cur_token_index > old(self).cur_token_index,
        decreases token_stream.len() - old(self).cur_token_index, 4int,
    {
        let ghost v0 = event_views(ev@);
        let ghost t = token_views(token_stream@);
        let ghost i = self.cur_token_index as int;
        Self::open_node(ev, NonTerminalsCst::AssignmentStatement);
        let r = match self.parse_identifier(token_stream, ev) {
            Err(e) => Err(e),
            Ok(()) => match self.match_token(token_stream, TokenType::Symbol(Symbols::AssignmentOp), ev) {
                Err(e) => Err(e),
                Ok(()) => self.parse_expression(token_stream, ev),
            },
        };
        Self::close_node(ev, r.is_ok());
        proof {
            if let Ok((_, e1)) = spec_id(t, i) {
                if let Ok((_, e2)) = spec_match_token(t, i + 1, SpecTokenType::Symbol(Symbols::AssignmentOp)) {
                    if let Ok((_, e3)) = spec_expr(t, i + 2) {
                        lemma_wrap(v0, NonTerminalsCst::AssignmentStatement, e1 + e2 + e3);
                    }
                }
            }
        }
        r
    }

    /// VarDecl ::= type Id
    fn parse_var_declaration(&mut self, token_stream: &Vec<Token>, ev: &mut Vec<TreeEvent>) -> (r: Result<(), ParseError>)
        requires
            old(self).cur_token_index <= token_stream.len() < usize::MAX - 2,
        ensures
            outcome(spec_var_decl(token_views(token_stream@), old(self).cur_token_index as int), r, final(self).cur_token_index, old(ev)@, final(ev)@),
            final(self).cur_token_index <= token_stream.len(),
            r is Ok ==> final(self).cur_token_index > old(self).cur_token_index,
    {
        let ghost v0 = event_views(ev@);
        let ghost t = token_views(token_stream@);
        let ghost i = self.cur_token_index as int;
        Self::open_node(ev, NonTerminalsCst::VarDecl);
        let r = match self.parse_type(token_stream, ev) {
            Err(e) => Err(e),
            Ok(()) => self.parse_identifier(token_stream, ev),
        };
        Self::close_node(ev, r.is_ok());
        proof {
            if let Ok((_, e1)) = spec_type(t, i) {
                if let Ok((_, e2)) = spec_id(t, i + 1) {
                    lemma_wrap(v0, NonTerminalsCst::VarDecl, e1 + e2);
                }
            }
        }
        r
    }

    /// WhileStatement ::= while BooleanExpr Block, and IfStatement ::= if BooleanExpr Block
    fn parse_cond_statement(&mut self, token_stream: &Vec<Token>, is_while: bool, ev: &mut Vec<TreeEvent>) -> (r: Result<(), ParseError>)
        requires
            old(self).cur_token_index <= token_stream.len() < usize::MAX - 2,
        ensures
            outcome(spec_cond_statement(token_views(token_stream@), old(self).cur_token_index as int, is_while), r, final(self).cur_token_index, old(ev)@, final(ev)@),
            final(self).cur_token_index <= token_stream.len(),
            r is Ok ==> final(self).cur_token_index > old(self).cur_token_index,
        decreases token_stream.len() - old(self).cur_token_index, 4int,
    {
        let ghost v0 = event_views(ev@);
        let ghost t = token_views(token_stream@);
        let ghost i = self.cur_token_index as int;
        let nt = if is_while { NonTerminalsCst::WhileStatement } else { NonTerminalsCst::IfStatement };
        let kw = if is_while { Keywords::While } else { Keywords::If };
        Self::open_node(ev, nt);
        let r = match self.match_token(token_stream, TokenType::Keyword(kw), ev) {
            Err(e) => Err(e),
            Ok(()) => match self.parse_bool_expression(token_stream, ev) {
                Err(e) => Err(e),
                Ok(()) => self.parse_block(token_stream, ev),
            },
        };
        Self::close_node(ev, r.is_ok());
        proof {
            if let Ok((_, e1)) = spec_match_token(t, i, SpecTokenType::Keyword(kw)) {
                if let Ok((j, e2)) = spec_bool_expr(t, i + 1) {
                    if let Ok((_, e3)) = spec_block(t, j) {
                        lemma_wrap(v0, nt, e1 + e2 + e3);
                    }
                }
            }
        }
        r
    }

    /// Statement ::= PrintStatement | AssignmentStatement | VarDecl | WhileStatement
    ///             | IfStatement | Block
    fn parse_statement(&mut self, token_stream: &Vec<Token>, ev: &mut Vec<TreeEvent>) -> (r: Result<(), ParseError>)
        requires
            old(self).cur_token_index <= token_stream.len() < usize::MAX - 2,
        ensures
            outcome(spec_statement(token_views(token_stream@), old(self).cur_token_index as int), r, final(self).cur_token_index, old(ev)@, final(ev)@),
            final(self).cur_token_index <= token_stream.len(),
            r is Ok ==> final(self).cur_token_index > old(self).cur_token_index,
        decreases token_stream.len() - old(self).cur_token_index, 5int,
    {
        let i = self.cur_token_index;
        if i >= token_stream.len() {
            return Err(ParseError::UnexpectedEnd { expected: NonTerminalsCst::Statement });
        }
        let ghost v0 = event_views(ev@);
        let ghost t = token_views(token_stream@);
        Self::open_node(ev, NonTerminalsCst::Statement);
        let r = match &token_stream[i].token_type {
            TokenType::Keyword(Keywords::Print) => self.parse_print_statement(token_stream, ev),
            TokenType::Identifier(_) => self.parse_assignment_statement(token_stream, ev),
            TokenType::Keyword(Keywords::Int) | TokenType::Keyword(Keywords::String)
            | TokenType::Keyword(Keywords::Boolean) => self.parse_var_declaration(token_stream, ev),
            TokenType::Keyword(Keywords::While) => self.parse_cond_statement(token_stream, true, ev),
            TokenType::Keyword(Keywords::If) => self.parse_cond_statement(token_stream, false, ev),
            TokenType::Symbol(Symbols::LBrace) => self.parse_block(token_stream, ev),
            _ => Err(ParseError::InvalidStatement { found: token_stream[i].duplicate() }),
        };
        Self::close_node(ev, r.is_ok());
        proof {
            let ii = i as int;
            let inner: PResult = match t[ii].token_type {
                SpecTokenType::Keyword(Keywords::Print) => spec_print(t, ii),
                SpecTokenType::Identifier(_) => spec_assign(t, ii),
                SpecTokenType::Keyword(Keywords::Int) | SpecTokenType::Keyword(Keywords::String)
                | SpecTokenType::Keyword(Keywords::Boolean) => spec_var_decl(t, ii),
                SpecTokenType::Keyword(Keywords::While) => spec_cond_statement(t, ii, true),
                SpecTokenType::Keyword(Keywords::If) => spec_cond_statement(t, ii, false),
                SpecTokenType::Symbol(Symbols::LBrace) => spec_block(t, ii),
                _ => Err((ii, SpecParseError::InvalidStatement { found: t[ii] })),
            };
            if let Ok((_, e)) = inner {
                lemma_wrap(v0, NonTerminalsCst::Statement, e);
            }
        }
        r
    }

    /// The statements of a StatementList, up to the closing brace.
    fn parse_statement_items(&mut self, token_stream: &Vec<Token>, ev: &mut Vec<TreeEvent>) -> (r: Result<(), ParseError>)
        requires
            old(self).cur_token_index <= token_stream.len() < usize::MAX - 2,
        ensures
            outcome(spec_statement_items(token_views(token_stream@), old(self).cur_token_index as int), r, final(self).cur_token_index, old(ev)@, final(ev)@),
            final(self).cur_token_index <= token_stream.len(),
            r is Ok ==> final(self).cur_token_index >= old(self).cur_token_index,
        decreases token_stream.len() - old(self).cur_token_index, 6int,
    {
        let i = self.cur_token_index;
        if i < token_stream.len() && !token_stream[i].token_type.is_symbol(Symbols::RBrace) {
            match self.parse_statement(token_stream, ev) {
                Err(e) => Err(e),
                Ok(()) => {
                    let j = self.cur_token_index;
                    if j < token_stream.len() && !token_stream[j].token_type.is_symbol(Symbols::RBrace) {
                        self.parse_statement_items(token_stream, ev)
                    } else {
                        Ok(())
                    }
                },
            }
        } else {
            Ok(())
        }
    }

    /// Block ::= { StatementList }
    fn parse_block(&mut self, token_stream: &Vec<Token>, ev: &mut Vec<TreeEvent>) -> (r: Result<(), ParseError>)
        requires
            old(self).cur_token_index <= token_stream.len() < usize::MAX - 2,
        ensures
            outcome(spec_block(token_views(token_stream@), old(self).cur_token_index as int), r, final(self).cur_token_index, old(ev)@, final(ev)@),
            final(self).cur_token_index <= token_stream.len(),
            r is Ok ==> final(self).cur_token_index > old(self).cur_token_index,
        decreases token_stream.len() - old(self).cur_token_index, 4int,
    {
        let ghost v0 = event_views(ev@);
        let ghost t = token_views(token_stream@);
        let ghost i = self.cur_token_index as int;
        Self::open_node(ev, NonTerminalsCst::Block);
        let r = match self.match_token(token_stream, TokenType::Symbol(Symbols::LBrace), ev) {
            Err(e) => Err(e),
            Ok(()) => {
                let ghost v1 = event_views(ev@);
                Self::open_node(ev, NonTerminalsCst::StatementList);
                let list_res = self.parse_statement_items(token_stream, ev);
                Self::close_node(ev, list_res.is_ok());
                proof {
                    if let Ok((_, e)) = spec_statement_items(t, i + 1) {
                        lemma_wrap(v1, NonTerminalsCst::StatementList, e);
                    }
                }
                match list_res {
                    Err(e) => Err(e),
                    Ok(()) => self.match_token(token_stream, TokenType::Symbol(Symbols::RBrace), ev),
                }
            },
        };
        Self::close_node(ev, r.is_ok());
        proof {
            if let Ok((_, e1)) = spec_match_token(t, i, SpecTokenType::Symbol(Symbols::LBrace)) {
                if let Ok((j, e2)) = wrap(NonTerminalsCst::StatementList, spec_statement_items(t, i + 1)) {
                    if let Ok((_, e3)) = spec_match_token(t, j, SpecTokenType::Symbol(Symbols::RBrace)) {
                        lemma_wrap(v0, NonTerminalsCst::Block, e1 + e2 + e3);
                    }
                }
            }
        }
        r
    }

    /// Parse a whole program: Program ::= Block $. On success, the steps that
    /// build its concrete syntax tree.
    pub fn parse_program(&mut self, token_stream: &Vec<Token>) -> (r: Result<Vec<TreeEvent>, ParseError>)
        requires
            token_stream.len() < usize::MAX - 2,
        ensures
            match spec_program(token_views(token_stream@)) {
                Ok((j, e)) => r matches Ok(evs) && event_views(evs@) == e && final(self).index() == j,
                Err((k, x)) => r matches Err(y) && y@ == x && final(self).index() == k,
            },
    {
        self.cur_token_index = 0;
        let mut ev: Vec<TreeEvent> = Vec::new();
        let ghost t = token_views(token_stream@);
        let ghost v0 = event_views(ev@);
        assert(v0 =~= Seq::<SpecTreeEvent>::empty());
        Self::open_node(&mut ev, NonTerminalsCst::Program);
        let r = match self.parse_block(token_stream, &mut ev) {
            Err(e) => Err(e),
            Ok(()) => self.match_token(token_stream, TokenType::Symbol(Symbols::EOP), &mut ev),
        };
        Self::close_node(&mut ev, r.is_ok());
        proof {
            if let Ok((j, e1)) = spec_block(t, 0) {
                if let Ok((_, e2)) = spec_match_token(t, j, SpecTokenType::Symbol(Symbols::EOP)) {
                    lemma_wrap(v0, NonTerminalsCst::Program, e1 + e2);
                }
            }
        }
        match r {
            Ok(()) => Ok(ev),
            Err(e) => Err(e),
        }
    }

    /// Push the opening step of a nonterminal.
    fn open_node(ev: &mut Vec<TreeEvent>, nt: NonTerminalsCst)
        ensures
            final(ev)@ == old(ev)@.push(TreeEvent::Branch(nt)),
            event_views(final(ev)@) =~= event_views(old(ev)@).push(SpecTreeEvent::Branch(nt)),
    {
        let ghost ev0 = ev@;
        ev.push(TreeEvent::Branch(nt));
        proof {
            lemma_views_push(ev0, TreeEvent::Branch(nt));
        }
    }

    /// On success, push the closing step of a nonterminal; on failure, take
    /// back its opening step.
    fn close_node(ev: &mut Vec<TreeEvent>, ok: bool)
        ensures
            ok ==> event_views(final(ev)@) =~= event_views(old(ev)@).push(SpecTreeEvent::Up),
            !ok && old(ev)@.len() > 0 ==> final(ev)@ == old(ev)@.drop_last(),
    {
        if ok {
            let ghost ev0 = ev@;
            ev.push(TreeEvent::Up);
            proof {
                lemma_views_push(ev0, TreeEvent::Up);
            }
        } else if ev.len() > 0 {
            ev.pop();
        }
    }
}

proof fn lemma_wrap(v0: Seq<SpecTreeEvent>, nt: NonTerminalsCst, e: Seq<SpecTreeEvent>)
    ensures
        (v0.push(SpecTreeEvent::Branch(nt)) + e).push(SpecTreeEvent::Up) =~= v0 + (seq![SpecTreeEvent::Branch(nt)] + e + seq![SpecTreeEvent::Up]),
{
}

} // verus!
