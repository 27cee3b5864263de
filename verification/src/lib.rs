//! The Nexus compiler: lexer, parser, semantic analyzer and code generators
//! for a small block-structured teaching language, targeting a 256-byte 6502
//! image and RISC-V assembly.
pub mod nexus;
pub mod util;
