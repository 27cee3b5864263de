use nexus::nexus::code_generator::CodeGenerator;
use nexus::nexus::code_generator_riscv::CodeGeneratorRiscV;
use nexus::nexus::compiler::{compile, GeneratedCode, Target};
use nexus::nexus::cst::Cst;
use nexus::nexus::cst_node::{CstNode, CstNodeTypes, NonTerminals};
use nexus::nexus::lexer::{lex, lex_report};
use nexus::nexus::parser::{ParseError, Parser, TreeEvent};
use nexus::nexus::semantic_analyzer::{SemanticAnalyzer, SemanticDiagnostic};
use nexus::nexus::symbol_table::{SymbolTable, SymbolTableEntryField, SymbolWarning, Type};
use nexus::nexus::syntax_tree::SyntaxTree;
use nexus::nexus::syntax_tree_node::{NonTerminalsAst, NonTerminalsCst, SyntaxTreeNode, SyntaxTreeNodeTypes};
use nexus::nexus::token::{Keywords, Symbols, Token, TokenType};
use nexus::util::nexus_log::{is_shown, log_line, LogSources, LogTypes};
use nexus::util::test::{get_tests, TestType};

fn kinds(tokens: &Vec<Token>) -> Vec<String> {
    tokens.iter().map(|t| format!("{:?}", t.token_type)).collect()
}

fn texts(tokens: &Vec<Token>) -> Vec<String> {
    tokens.iter().map(|t| t.text.clone()).collect()
}

/// The labels of a tree in depth-first order, each child list in source
/// order, with the depth of each node.
fn outline(tree: &SyntaxTree) -> Vec<(usize, String)> {
    let mut out = Vec::new();
    if let Some(root) = tree.root_index() {
        walk(tree, root, 0, &mut out);
    }
    out
}

fn walk(tree: &SyntaxTree, a: usize, depth: usize, out: &mut Vec<(usize, String)>) {
    out.push((depth, tree.node(a).label()));
    let kids = tree.children(a);
    for k in kids.iter().rev() {
        walk(tree, *k, depth + 1, out);
    }
}

fn analyzed(src: &str) -> (SyntaxTree, SemanticAnalyzer, bool) {
    let tokens = lex(src);
    let mut parser = Parser::new();
    assert!(parser.parse_program(&tokens).is_ok());
    let mut analyzer = SemanticAnalyzer::new();
    let ast = analyzer.generate_ast(&tokens);
    let ok = analyzer.analyze_program(&ast);
    (ast, analyzer, ok)
}

#[test]
fn token_new_keeps_its_parts() {
    let t = Token::new(TokenType::Keyword(Keywords::While), String::from("while"), 3, 7);
    assert!(matches!(t.token_type, TokenType::Keyword(Keywords::While)));
    assert_eq!(t.text, "while");
    assert_eq!(t.position, (3, 7));
}

#[test]
fn lex_empty_programs() {
    let tokens = lex("{}$\n{{}}$");
    assert_eq!(texts(&tokens), vec!["{", "}", "$", "{", "{", "}", "}", "$"]);
    assert_eq!(tokens[0].position, (1, 1));
    assert_eq!(tokens[2].position, (1, 3));
    assert_eq!(tokens[3].position, (2, 1));
}

#[test]
fn lex_keywords_identifiers_and_symbols() {
    let tokens = lex("{int a a = 1 + 2 while (a != b) {} print(a == true)}$");
    assert_eq!(
        texts(&tokens),
        vec!["{", "int", "a", "a", "=", "1", "+", "2", "while", "(", "a", "!=", "b", ")", "{", "}", "print", "(", "a", "==", "true", ")", "}", "$"]
    );
    assert!(matches!(tokens[1].token_type, TokenType::Keyword(Keywords::Int)));
    assert!(matches!(&tokens[2].token_type, TokenType::Identifier(s) if s == "a"));
    assert!(matches!(tokens[4].token_type, TokenType::Symbol(Symbols::AssignmentOp)));
    assert!(matches!(tokens[5].token_type, TokenType::Digit(1)));
    assert!(matches!(tokens[11].token_type, TokenType::Symbol(Symbols::NeqOp)));
    assert!(matches!(tokens[19].token_type, TokenType::Symbol(Symbols::EqOp)));
    assert!(matches!(tokens[20].token_type, TokenType::Keyword(Keywords::True)));
}

#[test]
fn lex_longest_match_without_spaces() {
    let tokens = lex("{intaa=0}$");
    assert_eq!(texts(&tokens), vec!["{", "int", "a", "a", "=", "0", "}", "$"]);
    let tokens = lex("{whilea}$");
    assert!(matches!(tokens[1].token_type, TokenType::Keyword(Keywords::While)));
    assert!(matches!(&tokens[2].token_type, TokenType::Identifier(s) if s == "a"));
}

#[test]
fn lex_strings_become_characters() {
    let tokens = lex("{print(\"hi there\")}$");
    assert_eq!(texts(&tokens), vec!["{", "print", "(", "\"", "h", "i", " ", "t", "h", "e", "r", "e", "\"", ")", "}", "$"]);
    assert!(matches!(&tokens[6].token_type, TokenType::Char(s) if s == " "));
}

#[test]
fn lex_comments_are_skipped() {
    let tokens = lex("{ /* int a */ }$");
    assert_eq!(texts(&tokens), vec!["{", "}", "$"]);
}

#[test]
fn lex_positions_count_comment_markers() {
    let tokens = lex("{/* a */}");
    assert_eq!(texts(&tokens), vec!["{", "}"]);
    assert_eq!(tokens[0].position, (1, 1));
    assert_eq!(tokens[1].position, (1, 9));
}

#[test]
fn lex_string_open_at_the_end_is_reported() {
    let report = lex_report("print(\"hi");
    assert_eq!(report.unclosed_strings.len(), 1);
    assert_eq!(report.unclosed_strings[0], (report.tokens.len(), (1, 7)));
    let reports = compile("print(\"hi", Target::Target6502).unwrap();
    assert!(!reports[0].lex_ok);
}

#[test]
fn lex_unrecognized_symbol() {
    let tokens = lex("{ int @}$");
    assert_eq!(texts(&tokens), vec!["{", "int", "@", "}", "$"]);
    assert!(matches!(tokens[2].token_type, TokenType::Unrecognized(_)));
}

#[test]
fn lex_unclosed_string_is_reported() {
    let report = lex_report("{\n  print(\"hi\n}$");
    assert_eq!(report.unclosed_strings.len(), 1);
    assert_eq!(report.unclosed_strings[0].1, (2, 9));
}

#[test]
fn lex_unclosed_comment_is_reported() {
    let report = lex_report("{}$ /* open");
    assert_eq!(report.unclosed_comment, Some((1, 5)));
}

#[test]
fn parse_empty_block() {
    let tokens = lex("{}$");
    let mut parser = Parser::new();
    let events = parser.parse_program(&tokens).unwrap();
    let names: Vec<String> = events
        .iter()
        .map(|e| match e {
            TreeEvent::Branch(n) => n.name().to_string(),
            TreeEvent::AstBranch(n) => n.name().to_string(),
            TreeEvent::Leaf(t) => t.text.clone(),
            TreeEvent::Up => String::from("^"),
        })
        .collect();
    assert_eq!(names, vec!["Program", "Block", "{", "StatementList", "^", "}", "^", "$", "^"]);
    assert_eq!(parser.cur_token_index(), 3);
}

#[test]
fn cst_text_of_an_empty_program() {
    let tokens = lex("{}$");
    let mut parser = Parser::new();
    let events = parser.parse_program(&tokens).unwrap();
    let tree = SyntaxTree::from_events(&events);
    assert_eq!(tree.create_text(), "<Program>\n-<Block>\n--[{]\n--<StatementList>\n--[}]\n-[$]\n");
}

#[test]
fn cst_built_node_by_node() {
    let mut cst = Cst::new();
    assert_eq!(cst.create_text(), "");
    cst.add_node(CstNodeTypes::Root, CstNode::NonTerminal(NonTerminals::Program));
    cst.add_node(CstNodeTypes::Branch, CstNode::NonTerminal(NonTerminals::Block));
    cst.add_node(CstNodeTypes::Leaf, CstNode::Terminal(Token::new(TokenType::Symbol(Symbols::LBrace), String::from("{"), 1, 1)));
    cst.add_node(CstNodeTypes::Leaf, CstNode::Terminal(Token::new(TokenType::Symbol(Symbols::RBrace), String::from("}"), 1, 2)));
    cst.move_up();
    cst.add_node(CstNodeTypes::Leaf, CstNode::Terminal(Token::new(TokenType::Symbol(Symbols::EOP), String::from("$"), 1, 3)));
    assert_eq!(cst.create_text(), "<Program>\n-<Block>\n--[{]\n--[}]\n-[$]\n");
    assert_eq!(cst.tree().node_count(), 5);
    cst.reset();
    assert_eq!(cst.create_text(), "");
}

#[test]
fn parse_cst_of_a_statement() {
    let tokens = lex("{a = 1}$");
    let mut parser = Parser::new();
    let events = parser.parse_program(&tokens).unwrap();
    let cst = SyntaxTree::from_events(&events);
    let lines: Vec<String> = outline(&cst).iter().map(|(d, l)| format!("{}{}", "-".repeat(*d), l)).collect();
    assert_eq!(
        lines,
        vec![
            "Program", "-Block", "--{", "--StatementList", "---Statement", "----AssignmentStatement",
            "-----Id", "------a", "-----=", "-----Expr", "------IntExpr", "-------Digit", "--------1", "--}", "-$",
        ]
    );
}

#[test]
fn parse_missing_eop() {
    let tokens = lex("{}");
    let mut parser = Parser::new();
    match parser.parse_program(&tokens) {
        Err(ParseError::MissingToken { expected }) => assert!(matches!(expected, TokenType::Symbol(Symbols::EOP))),
        other => panic!("unexpected {:?}", other),
    }
    assert_eq!(parser.cur_token_index(), 2);
}

#[test]
fn parse_stops_where_it_fails() {
    let tokens = lex("{  print(\"hello\"");
    assert_eq!(tokens.len(), 10);
    let mut parser = Parser::new();
    assert!(matches!(parser.parse_program(&tokens), Err(ParseError::MissingToken { expected: TokenType::Symbol(Symbols::RParen) })));
    assert_eq!(parser.cur_token_index(), 10);
    let tokens = lex("{ print((true + false)) }$");
    let mut parser = Parser::new();
    match parser.parse_program(&tokens) {
        Err(ParseError::InvalidBoolOp { found }) => assert_eq!(found.position, (1, 15)),
        other => panic!("unexpected {:?}", other),
    }
    assert_eq!(parser.cur_token_index(), 5);
    let tokens = lex("{ int x x = 7 + \"james bond\" }$");
    assert_eq!(tokens.len(), 21);
    let mut parser = Parser::new();
    assert!(parser.parse_program(&tokens).is_ok());
    assert_eq!(parser.cur_token_index(), 21);
}

#[test]
fn parse_invalid_token() {
    let tokens = lex("{x = x + 3}$");
    let mut parser = Parser::new();
    match parser.parse_program(&tokens) {
        Err(ParseError::InvalidStatement { found }) => {
            assert_eq!(found.text, "+");
            assert_eq!(found.position, (1, 8));
        },
        other => panic!("unexpected {:?}", other),
    }
}

#[test]
fn parse_invalid_bool_op() {
    let tokens = lex("{while (true + false) {}}$");
    let mut parser = Parser::new();
    assert!(matches!(parser.parse_program(&tokens), Err(ParseError::InvalidBoolOp { .. })));
}

#[test]
fn parse_unexpected_end() {
    let tokens = lex("{ while");
    let mut parser = Parser::new();
    assert!(parser.parse_program(&tokens).is_err());
}

#[test]
fn tree_children_latest_first() {
    let mut tree = SyntaxTree::new();
    tree.add_node(SyntaxTreeNodeTypes::Branch, SyntaxTreeNode::NonTerminalCst(NonTerminalsCst::Block));
    tree.add_node(SyntaxTreeNodeTypes::Leaf, SyntaxTreeNode::NonTerminalCst(NonTerminalsCst::Id));
    tree.add_node(SyntaxTreeNodeTypes::Leaf, SyntaxTreeNode::NonTerminalCst(NonTerminalsCst::Type));
    assert_eq!(tree.node_count(), 3);
    assert_eq!(tree.children(0), vec![2, 1]);
    tree.move_up();
    tree.reset();
    assert_eq!(tree.node_count(), 0);
    assert_eq!(tree.root_index(), None);
}

#[test]
fn ast_of_a_program() {
    let (ast, _, _) = analyzed("{int a a = 1 + 2 print(\"hi x\") if (a == 3) {}}$");
    let lines: Vec<String> = outline(&ast).iter().map(|(d, l)| format!("{}{}", "-".repeat(*d), l)).collect();
    assert_eq!(
        lines,
        vec![
            "Block", "-VarDecl", "--int", "--a", "-Assign", "--a", "--Add", "---1", "---2", "-Print", "--hi x", "-If", "--IsEq", "---a",
            "---3", "--Block",
        ]
    );
}

#[test]
fn ast_nested_comparison() {
    let (ast, _, _) = analyzed("{print(((1 == 2) != false))}$");
    let lines: Vec<String> = outline(&ast).iter().map(|(d, l)| format!("{}{}", "-".repeat(*d), l)).collect();
    // The operator is found by scanning from the second token after the
    // opening parenthesis, so the inner `==` is taken.
    assert_eq!(lines, vec!["Block", "-Print", "--IsEq", "---IsEq", "----1", "----2", "---false"]);
}

#[test]
fn analysis_accepts_a_good_program() {
    let (_, analyzer, ok) = analyzed("{int a a = 1 print(a)}$");
    assert!(ok);
    assert_eq!(analyzer.num_errors(), 0);
    assert_eq!(analyzer.num_warnings(), 0);
    assert_eq!(analyzer.diagnostics().len(), 0);
}

#[test]
fn analysis_reports_undeclared() {
    let (_, analyzer, ok) = analyzed("{a = 1}$");
    assert!(!ok);
    assert_eq!(analyzer.num_errors(), 1);
    assert!(matches!(&analyzer.diagnostics()[0], SemanticDiagnostic::Undeclared { id, position } if id == "a" && *position == (1, 2)));
}

#[test]
fn analysis_reports_redeclared() {
    let (_, analyzer, ok) = analyzed("{int a string a}$");
    assert!(!ok);
    assert!(matches!(&analyzer.diagnostics()[0], SemanticDiagnostic::Redeclared { id, .. } if id == "a"));
}

#[test]
fn analysis_allows_shadowing_in_inner_scope() {
    let (_, analyzer, ok) = analyzed("{int a a = 1 {string a a = \"x\" print(a)} print(a)}$");
    assert!(ok, "{:?}", analyzer.diagnostics());
}

#[test]
fn analysis_reports_type_mismatch() {
    let (_, analyzer, ok) = analyzed("{int x x = 7 + \"b\"}$");
    assert!(!ok);
    assert!(matches!(&analyzer.diagnostics()[0], SemanticDiagnostic::AdditionTypeMismatch { found: Type::String, .. }));
    let (_, analyzer, ok) = analyzed("{int x x = \"b\"}$");
    assert!(!ok);
    assert!(matches!(
        &analyzer.diagnostics()[0],
        SemanticDiagnostic::AssignmentTypeMismatch { expected: Type::Int, found: Type::String, .. }
    ));
    let (_, analyzer, ok) = analyzed("{if (\"josh\" == 3) {}}$");
    assert!(!ok);
    assert!(matches!(
        &analyzer.diagnostics()[0],
        SemanticDiagnostic::ComparisonTypeMismatch { left: Type::String, right: Type::Int, .. }
    ));
}

#[test]
fn analysis_warnings() {
    let (_, analyzer, ok) = analyzed("{int a int b print(b) b = 1}$");
    assert!(ok);
    let d = analyzer.diagnostics();
    assert!(matches!(&d[0], SemanticDiagnostic::UninitializedUse { id, .. } if id == "b"));
    assert!(matches!(&d[1], SemanticDiagnostic::InitializedAfterUse { id, .. } if id == "b"));
    assert!(matches!(&d[2], SemanticDiagnostic::Unused { id, warning: SymbolWarning::NeverInitializedOrUsed, .. } if id == "a"));
    assert_eq!(d.len(), 3);
    assert_eq!(analyzer.num_warnings(), 3);
}

#[test]
fn symbol_table_declare_then_lookup() {
    let mut table = SymbolTable::new();
    table.new_scope();
    assert!(table.new_identifier(String::from("a"), Type::Int, (1, 2)));
    assert!(!table.new_identifier(String::from("a"), Type::String, (1, 9)));
    let e = table.get_symbol("a").unwrap();
    assert_eq!(e.symbol_type, Type::Int);
    assert_eq!(e.position, (1, 2));
    assert_eq!(e.scope, 0);
    assert!(!e.is_initialized && !e.is_used);
    assert!(table.get_symbol("b").is_none());
}

#[test]
fn symbol_table_scopes() {
    let mut table = SymbolTable::new();
    table.new_scope();
    table.new_identifier(String::from("a"), Type::Int, (1, 2));
    table.new_scope();
    assert_eq!(table.current_scope(), Some(1));
    assert_eq!(table.get_symbol("a").unwrap().scope, 0);
    table.new_identifier(String::from("a"), Type::Boolean, (2, 2));
    assert_eq!(table.get_symbol("a").unwrap().symbol_type, Type::Boolean);
    table.end_cur_scope();
    assert_eq!(table.current_scope(), Some(0));
    assert_eq!(table.get_symbol("a").unwrap().symbol_type, Type::Int);
    table.end_cur_scope();
    assert_eq!(table.current_scope(), None);
    assert_eq!(table.scope_count(), 2);
}

#[test]
fn symbol_table_flags_and_warnings() {
    let mut table = SymbolTable::new();
    table.new_scope();
    table.new_identifier(String::from("a"), Type::Int, (1, 2));
    table.new_identifier(String::from("b"), Type::Int, (1, 5));
    table.new_identifier(String::from("c"), Type::Int, (1, 8));
    table.set_entry_field("a", SymbolTableEntryField::Initialized);
    table.set_entry_field("a", SymbolTableEntryField::Used);
    table.set_entry_field("b", SymbolTableEntryField::Used);
    table.set_entry_field("c", SymbolTableEntryField::Initialized);
    assert!(table.get_symbol("a").unwrap().is_initialized);
    let w = table.mass_warnings();
    assert_eq!(w.len(), 2);
    assert_eq!(w[0].0, "b");
    assert_eq!(w[0].2, SymbolWarning::UsedNotInitialized);
    assert_eq!(w[1].0, "c");
    assert_eq!(w[1].2, SymbolWarning::InitializedNotUsed);
    table.reset();
    assert_eq!(table.scope_count(), 0);
}

fn image_of(src: &str) -> Vec<u8> {
    let (ast, analyzer, ok) = analyzed(src);
    assert!(ok);
    let (_, mut table) = analyzer.into_parts();
    let mut generator = CodeGenerator::new();
    generator.generate_code(&ast, &mut table).unwrap()
}

const BOOLEANS: [u8; 12] = [0x74, 0x72, 0x75, 0x65, 0x00, 0x66, 0x61, 0x6C, 0x73, 0x65, 0x00, 0x00];

#[test]
fn image_of_empty_program() {
    let img = image_of("{}$");
    assert_eq!(img.len(), 256);
    assert_eq!(img[0], 0x00);
    assert!(img[1..0xF4].iter().all(|b| *b == 0));
    assert_eq!(&img[0xF4..], &BOOLEANS);
}

#[test]
fn image_of_print_digit() {
    let img = image_of("{print(1)}$");
    assert_eq!(&img[0..6], &[0xA0, 0x01, 0xA2, 0x01, 0xFF, 0x00]);
    assert_eq!(&img[0xF4..], &BOOLEANS);
}

#[test]
fn image_backpatches_variables() {
    let img = image_of("{int a a = 1 print(a)}$");
    assert_eq!(
        &img[0..17],
        &[0xA9, 0x00, 0x8D, 0x11, 0x00, 0xA9, 0x01, 0x8D, 0x11, 0x00, 0xAC, 0x11, 0x00, 0xA2, 0x01, 0xFF, 0x00]
    );
}

#[test]
fn image_stores_strings_on_the_heap() {
    let img = image_of("{print(\"hi\")}$");
    assert_eq!(&img[0..6], &[0xA0, 0xF1, 0xA2, 0x02, 0xFF, 0x00]);
    assert_eq!(&img[0xF1..0xF4], &[0x68, 0x69, 0x00]);
}

#[test]
fn image_stores_a_string_once() {
    let img = image_of("{print(\"ab\") print(\"ab\")}$");
    assert_eq!(&img[0..11], &[0xA0, 0xF1, 0xA2, 0x02, 0xFF, 0xA0, 0xF1, 0xA2, 0x02, 0xFF, 0x00]);
    assert_eq!(&img[0xF1..0xF4], &[0x61, 0x62, 0x00]);
    assert!(img[11..0xF1].iter().all(|b| *b == 0));
    assert_eq!(&img[0xF4..], &BOOLEANS);
}

#[test]
fn riscv_stores_a_string_once() {
    let (ast, analyzer, ok) = analyzed("{print(\"ab\") print(\"ab\") print(\"true\")}$");
    assert!(ok);
    let (_, mut table) = analyzer.into_parts();
    let mut generator = CodeGeneratorRiscV::new();
    let text = generator.generate_code(&ast, &mut table);
    assert!(text.contains("nop\nla  a0, string_2\ncall print_string\ncall print_new_line\nla  a0, string_2\ncall print_string\ncall print_new_line\nla  a0, string_1\ncall print_string\n"));
    assert_eq!(text.matches("string_2:").count(), 1);
    assert!(!text.contains("string_3"));
}

#[test]
fn skipped_bodies_enter_no_scopes() {
    // The body of `if false` is not generated and its block is not counted,
    // so the next block is taken for the skipped one and its variable is
    // not visible there.
    let (ast, analyzer, ok) = analyzed("{ if false { int a } { int b b = 1 print(b) } }$");
    assert!(ok);
    let (_, mut table) = analyzer.into_parts();
    let mut generator = CodeGenerator::new();
    assert!(generator.generate_code(&ast, &mut table).is_none());
    let (ast, analyzer, ok) = analyzed("{ if false { int a } }$");
    assert!(ok);
    let (_, mut table) = analyzer.into_parts();
    let mut generator = CodeGenerator::new();
    assert_eq!(generator.generate_code(&ast, &mut table).unwrap()[0], 0x00);
}

#[test]
fn riscv_if_end_label_follows_the_counter() {
    let (ast, analyzer, ok) = analyzed("{ int x int y if true { if (x == y) { print(x) } } }$");
    assert!(ok);
    let (_, mut table) = analyzer.into_parts();
    let mut generator = CodeGeneratorRiscV::new();
    let text = generator.generate_code(&ast, &mut table);
    assert_eq!(text.matches("beq  a0, zero, if_end_0").count(), 1);
    assert_eq!(text.matches("if_end_0:").count(), 2);
}

#[test]
fn image_of_if_and_while() {
    let img = image_of("{int a while (a != 2) {a = 1 + a} if (a == 2) {print(a)}}$");
    assert_eq!(&img[0xF4..], &BOOLEANS);
    let end = img.iter().position(|b| *b == 0x00).unwrap();
    assert!(end > 0);
    let (ast, analyzer, _) = analyzed("{while true {print(1)}}$");
    let (_, mut table) = analyzer.into_parts();
    let mut generator = CodeGenerator::new();
    let img = generator.generate_code(&ast, &mut table).unwrap();
    // body, then X = 1, compare with the zero at 0xFF, branch back 12 bytes
    assert_eq!(&img[0..14], &[0xA0, 0x01, 0xA2, 0x01, 0xFF, 0xA2, 0x01, 0xEC, 0xFF, 0x00, 0xD0, 0xF4, 0x00, 0x00]);
}

#[test]
fn image_too_large_fails() {
    let mut src = String::from("{");
    for _ in 0..60 {
        src.push_str("print(1)");
    }
    src.push_str("}$");
    let (ast, analyzer, ok) = analyzed(&src);
    assert!(ok);
    let (_, mut table) = analyzer.into_parts();
    let mut generator = CodeGenerator::new();
    assert!(generator.generate_code(&ast, &mut table).is_none());
}

#[test]
fn riscv_output() {
    let (ast, analyzer, ok) = analyzed("{int a a = 3 print(a)}$");
    assert!(ok);
    let (_, mut table) = analyzer.into_parts();
    let mut generator = CodeGeneratorRiscV::new();
    let text = generator.generate_code(&ast, &mut table);
    assert!(text.starts_with(".section .text\n.global _start\n_start:\nnop\nla  t1, a_0\nli  t0, 0\nsb  t0, 0(t1)\nli  t0, 3\nla  t1, a_0\nsb  t0, 0(t1)\nla  t0, a_0\nlbu  a0, 0(t0)\ncall print_int\ncall print_new_line\nli  a7, 93\n"));
    assert!(text.contains("a_0: .byte 0\nnew_line: .ascii \"\\n\"\nprint_int_char: .byte 0\nstring_0:\n.half 5\n.ascii \"false\"\nstring_1:\n.half 4\n.ascii \"true\"\n"));
    assert!(text.ends_with("compare_neq_ret:\nret\na_0: .byte 0\nnew_line: .ascii \"\\n\"\nprint_int_char: .byte 0\nstring_0:\n.half 5\n.ascii \"false\"\nstring_1:\n.half 4\n.ascii \"true\"\n"));
}

#[test]
fn riscv_labels() {
    let (ast, analyzer, _) = analyzed("{while (1 == 1) {if (2 != 3) {print(\"yo\")}}}$");
    let (_, mut table) = analyzer.into_parts();
    let mut generator = CodeGeneratorRiscV::new();
    let text = generator.generate_code(&ast, &mut table);
    assert!(text.contains("while_start_0:\nli  a0, 1\nli  a1, 1\ncall compare_eq\nbeq  a0, zero, while_end_0\nli  a0, 2\nli  a1, 3\ncall compare_neq\nbeq  a0, zero, if_end_0\nla  a0, string_2\ncall print_string\ncall print_new_line\nif_end_0:\nj  while_start_0\nwhile_end_0:\n"));
    assert!(text.contains("string_2:\n.half 2\n.ascii \"yo\"\n"));
}

#[test]
fn compile_splits_programs() {
    let reports = compile("{}$\n{ int @}$\n{ print(1) }$", Target::Target6502).unwrap();
    assert_eq!(reports.len(), 3);
    assert!(reports[0].lex_ok && reports[0].analysis_ok);
    assert!(!reports[1].lex_ok);
    assert!(reports[1].parse.is_none() && reports[1].code.is_none());
    assert!(matches!(&reports[2].code, Some(GeneratedCode::Image6502(Some(img))) if img[0] == 0xA0));
    assert_eq!(texts(&reports[2].tokens), vec!["{", "print", "(", "1", ")", "}", "$"]);
}

#[test]
fn compile_stops_at_each_failed_stage() {
    let reports = compile("{ a = 1 }$ {x = x + 3}$ {/* no end */}", Target::TargetRiscV).unwrap();
    assert_eq!(reports.len(), 3);
    assert!(reports[0].lex_ok && matches!(reports[0].parse, Some(Ok(_))) && !reports[0].analysis_ok && reports[0].code.is_none());
    assert_eq!(reports[0].diagnostics.len(), 1);
    assert!(matches!(reports[1].parse, Some(Err(_))) && reports[1].ast.is_none());
    assert!(matches!(reports[2].parse, Some(Err(ParseError::MissingToken { .. }))));
}

#[test]
fn compile_reports_the_symbol_table_before_code_generation() {
    let reports = compile("{int a {string b a = 1} print(a)}$ {x = 1}$", Target::Target6502).unwrap();
    let symbols = reports[0].symbols.as_ref().unwrap();
    assert_eq!(symbols.len(), 2);
    assert_eq!(symbols[0].0, "a");
    assert_eq!(symbols[0].1.symbol_type, Type::Int);
    assert_eq!(symbols[0].1.scope, 0);
    assert!(symbols[0].1.is_initialized && symbols[0].1.is_used);
    assert_eq!(symbols[1].0, "b");
    assert_eq!(symbols[1].1.symbol_type, Type::String);
    assert_eq!(symbols[1].1.scope, 1);
    assert!(!reports[1].analysis_ok && reports[1].symbols.as_ref().unwrap().is_empty());
}

#[test]
fn compile_riscv_target() {
    let reports = compile("{print(true)}$", Target::TargetRiscV).unwrap();
    match &reports[0].code {
        Some(GeneratedCode::RiscV(text)) => assert!(text.contains("la  a0, string_1\ncall print_string\n")),
        other => panic!("unexpected {:?}", other),
    }
}

#[test]
fn compile_unclosed_string_fails_lexing() {
    let reports = compile("{\n  print(\"hi\n}$\n{}$", Target::Target6502).unwrap();
    assert_eq!(reports.len(), 2);
    assert!(!reports[0].lex_ok);
    assert!(reports[1].lex_ok);
}

#[test]
fn compile_refuses_non_ascii() {
    assert!(compile("{ print(\"é\") }$", Target::Target6502).is_none());
}

#[test]
fn log_lines() {
    assert_eq!(log_line(LogTypes::Error, LogSources::SemanticAnalyzer, "oops"), "[ERROR - SEMANTICANALYZER]: oops");
    assert!(is_shown(LogTypes::Info, false));
    assert!(!is_shown(LogTypes::Debug, false));
    assert!(is_shown(LogTypes::Debug, true));
}

#[test]
fn sample_programs() {
    let tests = get_tests();
    assert_eq!(tests.len(), 19);
    assert_eq!(tests[0].test_type, TestType::Lex);
    assert_eq!(tests[0].test_name, "Alan's tests");
    assert_eq!(tests[7].test_type, TestType::Parse);
    assert_eq!(TestType::Parse.name(), "PARSE");
    assert_eq!(NonTerminalsAst::IsEq.name(), "IsEq");
}

#[test]
fn sample_everything_compiles() {
    let tests = get_tests();
    let reports = compile(&tests[1].test_code, Target::Target6502).unwrap();
    assert_eq!(reports.len(), 1);
    assert!(reports[0].analysis_ok, "{:?}", reports[0].diagnostics);
    assert!(matches!(&reports[0].code, Some(GeneratedCode::Image6502(Some(_)))));
    let _ = kinds(&reports[0].tokens);
}
