pub mod token;
pub mod lexer;
pub mod syntax_tree_node;
pub mod cst_node;
pub mod cst;
pub mod ast_node;
pub mod parser;
pub mod syntax_tree;
pub mod symbol_table;
pub mod semantic_analyzer;
pub mod code_generator;
pub mod code_image;
pub mod code_generator_riscv;
pub mod compiler;
