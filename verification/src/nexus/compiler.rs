use vstd::prelude::*;

use crate::nexus::code_generator::CodeGenerator;
use crate::nexus::code_generator_riscv::{CodeGeneratorRiscV, rv_output, rv_program};
use crate::nexus::code_image::{cg_image, cg_program};
use crate::nexus::lexer::{LexReport, SpecLexReport, lex_report, spec_lex, token_views};
use crate::nexus::parser::{ParseError, Parser, TreeEvent, event_views, spec_program};
use crate::nexus::semantic_analyzer::{
    SemanticAnalyzer, SemanticDiagnostic, ast_program, diag_views, error_count, spec_analysis,
};
use crate::nexus::symbol_table::{SymbolTableEntry, all_entries};
use crate::nexus::syntax_tree::{SpecTree, SyntaxTree};
use crate::nexus::token::{SpecToken, SpecTokenType, Symbols, Token};

verus! {

/// The machine to generate code for.
#[derive(Debug, Clone, Copy, PartialEq, Eq, Structural)]
pub enum Target {
    Target6502,
    TargetRiscV,
}

/// The code generated for a program.
#[derive(Debug)]
pub enum GeneratedCode {
    /// The 256-byte 6502 image; None when the program does not fit.
    Image6502(Option<Vec<u8>>),
    /// The RISC-V assembly text.
    RiscV(String),
}

/// What compiling one program of a source produced, stage by stage.
pub struct ProgramReport {
    /// The program's tokens, up to and including its `$`.
    pub tokens: Vec<Token>,
    /// Whether the program lexed without error (no unrecognized token, no
    /// string left open at a line break).
    pub lex_ok: bool,
    /// The parse, when lexing succeeded: the steps that build the CST, or
    /// the parse error.
    pub parse: Option<Result<Vec<TreeEvent>, ParseError>>,
    /// The AST, when parsing succeeded.
    pub ast: Option<SyntaxTree>,
    /// What semantic analysis reported, when it ran.
    pub diagnostics: Vec<SemanticDiagnostic>,
    /// The symbol table as semantic analysis left it, when it ran: every
    /// declaration with its entry, scope by scope.
    pub symbols: Option<Vec<(String, SymbolTableEntry)>>,
    /// Whether semantic analysis ran and found no error.
    pub analysis_ok: bool,
    /// The generated code, when semantic analysis succeeded.
    pub code: Option<GeneratedCode>,
}

// ---------------------------------------------------------------------------
// Programs in a token stream
// ---------------------------------------------------------------------------
/// The indices just after each `$` of a token stream.
pub open spec fn eop_ends(t: Seq<SpecToken>) -> Seq<int>
    decreases t.len(),
{
    if t.len() == 0 {
        Seq::empty()
    } else if t.last().token_type == SpecTokenType::Symbol(Symbols::EOP) {
        eop_ends(t.drop_last()).push(t.len() as int)
    } else {
        eop_ends(t.drop_last())
    }
}

/// Where each program of a token stream ends: after each `$`, and at the
/// end of the tokens when some follow the last `$`.
pub open spec fn program_ends(t: Seq<SpecToken>) -> Seq<int> {
    let ends = eop_ends(t);
    if t.len() > 0 && (ends.len() == 0 || ends.last() < t.len()) {
        ends.push(t.len() as int)
    } else {
        ends
    }
}

/// Where the `k`-th program starts.
pub open spec fn program_start(ends: Seq<int>, k: int) -> int {
    if k == 0 {
        0
    } else {
        ends[k - 1]
    }
}

/// A program lexes without error: none of its tokens is unrecognized and
/// no string opened in it is left open at a line break.
pub open spec fn program_lex_ok(rep: SpecLexReport, s: int, e: int) -> bool {
    &&& forall|i: int| s <= i < e ==> !(#[trigger] rep.tokens[i].token_type is Unrecognized)
    &&& forall|j: int|
        0 <= j < rep.unclosed_strings.len() ==> !(s < (#[trigger] rep.unclosed_strings[j]).0 <= e)
}

/// What compiling a program's tokens gives, stage by stage.
pub open spec fn report_ok(r: ProgramReport, toks: Seq<SpecToken>, lex_ok: bool, target: Target) -> bool {
    &&& token_views(r.tokens@) == toks
    &&& r.lex_ok == lex_ok
    &&& if !lex_ok {
        &&& r.parse is None
        &&& r.ast is None
        &&& r.diagnostics@.len() == 0
        &&& r.symbols is None
        &&& r.code is None
        &&& !r.analysis_ok
    } else {
        &&& r.parse is Some
        &&& match spec_program(toks) {
            Ok((_, e)) => r.parse matches Some(Ok(evs)) && event_views(evs@) == e,
            Err((_, x)) => r.parse matches Some(Err(y)) && y@ == x,
        }
        &&& match spec_program(toks) {
            Ok(_) => {
                let t = SpecTree::empty().apply(ast_program(toks));
                let st = spec_analysis(t);
                &&& r.ast matches Some(ast) && ast@ == t && ast@.wf()
                &&& diag_views(r.diagnostics@) == st.diags
                &&& r.symbols matches Some(es) && es@.map_values(|p: (String, SymbolTableEntry)| (p.0@, p.1))
                    == all_entries(st.table.scopes)
                &&& r.analysis_ok == (t.root is Some && error_count(st.diags) == 0)
                &&& r.analysis_ok <==> r.code is Some
                &&& r.code matches Some(c) ==> match c {
                    GeneratedCode::Image6502(img) => target == Target::Target6502 && match cg_program(
                        t,
                        st.table,
                    ) {
                        Some(g) => img matches Some(bytes) && bytes@ == cg_image(g),
                        None => img is None,
                    },
                    GeneratedCode::RiscV(text) => target == Target::TargetRiscV && text@ == rv_output(
                        rv_program(t, st.table),
                    ),
                }
            },
            Err(_) => {
                &&& r.ast is None
                &&& r.diagnostics@.len() == 0
                &&& r.symbols is None
                &&& r.code is None
                &&& !r.analysis_ok
            },
        }
    }
}

/// The ends of the programs of a token stream.
fn find_program_ends(tokens: &Vec<Token>) -> (r: Vec<usize>)
    ensures
        r@.len() == program_ends(token_views(tokens@)).len(),
        forall|k: int| 0 <= k < r@.len() ==> #[trigger] r@[k] == program_ends(token_views(tokens@))[k],
{
    let ghost t = token_views(tokens@);
    let mut ends: Vec<usize> = Vec::new();
    let mut i: usize = 0;
    while i < tokens.len()
        invariant
            t == token_views(tokens@),
            i <= tokens@.len(),
            ends@.len() == eop_ends(t.take(i as int)).len(),
            forall|k: int| 0 <= k < ends@.len() ==> #[trigger] ends@[k] == eop_ends(t.take(i as int))[k],
            forall|k: int| 0 <= k < ends@.len() ==> #[trigger] ends@[k] <= i,
        decreases tokens.len() - i,
    {
        assert(t.take(i + 1).drop_last() =~= t.take(i as int));
        if tokens[i].token_type.is_symbol(Symbols::EOP) {
            ends.push(i + 1);
        }
        i = i + 1;
    }
    assert(t.take(i as int) =~= t);
    let n = tokens.len();
    if n > 0 && (ends.len() == 0 || ends[ends.len() - 1] < n) {
        ends.push(n);
    }
    ends
}

/// A copy of the tokens from `s` up to `e`.
fn copy_tokens(tokens: &Vec<Token>, s: usize, e: usize) -> (r: Vec<Token>)
    requires
        s <= e <= tokens@.len(),
    ensures
        token_views(r@) == token_views(tokens@).subrange(s as int, e as int),
{
    let mut out: Vec<Token> = Vec::new();
    let mut i: usize = s;
    while i < e
        invariant
            s <= i <= e,
            e <= tokens@.len(),
            token_views(out@) =~= token_views(tokens@).subrange(s as int, i as int),
        decreases e - i,
    {
        let ghost before = token_views(out@);
        out.push(tokens[i].duplicate());
        assert(token_views(out@) =~= before.push(tokens@[i as int]@));
        assert(token_views(tokens@).subrange(s as int, i + 1) =~= token_views(tokens@).subrange(s as int, i as int).push(tokens@[i as int]@));
        i = i + 1;
    }
    out
}

/// Whether the program from `s` up to `e` lexed without error.
fn lexed_cleanly(report: &LexReport, s: usize, e: usize) -> (r: bool)
    requires
        s <= e <= report.tokens@.len(),
    ensures
        r == program_lex_ok(report@, s as int, e as int),
{
    let mut i: usize = s;
    while i < e
        invariant
            s <= i <= e,
            e <= report.tokens@.len(),
            forall|j: int| s <= j < i ==> !(#[trigger] report@.tokens[j].token_type is Unrecognized),
        decreases e - i,
    {
        if let crate::nexus::token::TokenType::Unrecognized(_) = &report.tokens[i].token_type {
            assert(report@.tokens[i as int] == report.tokens@[i as int]@);
            assert(report@.tokens[i as int].token_type is Unrecognized);
            return false;
        }
        i = i + 1;
    }
    let mut j: usize = 0;
    while j < report.unclosed_strings.len()
        invariant
            j <= report.unclosed_strings@.len(),
            forall|k: int| 0 <= k < j ==> !(s < (#[trigger] report@.unclosed_strings[k]).0 <= e),
        decreases report.unclosed_strings.len() - j,
    {
        let at: usize = report.unclosed_strings[j].0;
        if s < at && at <= e {
            assert(s < report@.unclosed_strings[j as int].0 <= e);
            return false;
        }
        j = j + 1;
    }
    true
}

/// Compile the tokens of one program through every stage that its earlier
/// stages allow.
fn compile_program(tokens: Vec<Token>, lex_ok: bool, target: Target) -> (r: ProgramReport)
    requires
        tokens@.len() < usize::MAX - 2,
    ensures
        report_ok(r, token_views(tokens@), lex_ok, target),
{
    if !lex_ok {
        return ProgramReport {
            tokens,
            lex_ok,
            parse: None,
            ast: None,
            diagnostics: Vec::new(),
            symbols: None,
            analysis_ok: false,
            code: None,
        };
    }
    let mut parser = Parser::new();
    let parse_res = parser.parse_program(&tokens);
    match parse_res {
        Err(e) => ProgramReport {
            tokens,
            lex_ok,
            parse: Some(Err(e)),
            ast: None,
            diagnostics: Vec::new(),
            symbols: None,
            analysis_ok: false,
            code: None,
        },
        Ok(events) => {
            let mut analyzer = SemanticAnalyzer::new();
            let ast = analyzer.generate_ast(&tokens);
            let ok = analyzer.analyze_program(&ast);
            let (diagnostics, mut table) = analyzer.into_parts();
            let symbols = table.entries();
            let code = if ok {
                match target {
                    Target::Target6502 => {
                        let mut generator = CodeGenerator::new();
                        Some(GeneratedCode::Image6502(generator.generate_code(&ast, &mut table)))
                    },
                    Target::TargetRiscV => {
                        let mut generator = CodeGeneratorRiscV::new();
                        let text = generator.generate_code(&ast, &mut table);
                        Some(GeneratedCode::RiscV(text))
                    },
                }
            } else {
                None
            };
            ProgramReport {
                tokens,
                lex_ok,
                parse: Some(Ok(events)),
                ast: Some(ast),
                diagnostics,
                symbols: Some(symbols),
                analysis_ok: ok,
                code,
            }
        },
    }
}

/// Compile every program of a source (each ends with `$`; tokens after the
/// last `$` form a last program): lex the whole source, then take each
/// program as far as its stages succeed, generating code for the target.
/// None when the source is not ASCII text (or too long to index).
pub fn compile(source_code: &str, target: Target) -> (r: Option<Vec<ProgramReport>>)
    ensures
        r is None <==> !(source_code.is_ascii() && source_code@.len() + 2 < usize::MAX && spec_lex(
            source_code@,
        ).tokens.len() + 2 < usize::MAX),
        r matches Some(reports) ==> {
            let rep = spec_lex(source_code@);
            let ends = program_ends(rep.tokens);
            &&& reports@.len() == ends.len()
            &&& forall|k: int|
                0 <= k < reports@.len() ==> report_ok(
                    #[trigger] reports@[k],
                    rep.tokens.subrange(program_start(ends, k), ends[k]),
                    program_lex_ok(rep, program_start(ends, k), ends[k]),
                    target,
                )
        },
{
    if !source_code.is_ascii() {
        return None;
    }
    let n: usize = source_code.unicode_len();
    if n >= usize::MAX - 2 {
        return None;
    }
    let report = lex_report(source_code);
    if report.tokens.len() >= usize::MAX - 2 {
        return None;
    }
    let ghost rep = spec_lex(source_code@);
    let ends = find_program_ends(&report.tokens);
    let mut reports: Vec<ProgramReport> = Vec::new();
    let mut k: usize = 0;
    proof {
        lemma_program_ends_sorted(rep.tokens);
    }
    while k < ends.len()
        invariant
            report@ == rep,
            report.tokens@.len() + 2 < usize::MAX,
            ends@.len() == program_ends(rep.tokens).len(),
            forall|j: int| 0 <= j < ends@.len() ==> #[trigger] ends@[j] == program_ends(rep.tokens)[j],
            forall|a: int, b: int|
                0 <= a < b < ends@.len() ==> #[trigger] program_ends(rep.tokens)[a] < #[trigger] program_ends(rep.tokens)[b],
            forall|j: int|
                0 <= j < ends@.len() ==> 0 < #[trigger] program_ends(rep.tokens)[j] <= rep.tokens.len(),
            k <= ends@.len(),
            reports@.len() == k,
            forall|j: int|
                0 <= j < k ==> report_ok(
                    #[trigger] reports@[j],
                    rep.tokens.subrange(program_start(program_ends(rep.tokens), j), program_ends(rep.tokens)[j]),
                    program_lex_ok(rep, program_start(program_ends(rep.tokens), j), program_ends(rep.tokens)[j]),
                    target,
                ),
        decreases ends.len() - k,
    {
        let s: usize = if k == 0 {
            0
        } else {
            ends[k - 1]
        };
        let e: usize = ends[k];
        let toks = copy_tokens(&report.tokens, s, e);
        assert(toks@.len() == token_views(toks@).len());
        let ok = lexed_cleanly(&report, s, e);
        let program = compile_program(toks, ok, target);
        reports.push(program);
        k = k + 1;
    }
    Some(reports)
}

proof fn lemma_eop_ends(t: Seq<SpecToken>)
    ensures
        forall|a: int, b: int| 0 <= a < b < eop_ends(t).len() ==> #[trigger] eop_ends(t)[a] < #[trigger] eop_ends(t)[b],
        forall|j: int| 0 <= j < eop_ends(t).len() ==> 0 < #[trigger] eop_ends(t)[j] <= t.len(),
    decreases t.len(),
{
    if t.len() > 0 {
        lemma_eop_ends(t.drop_last());
        let p = eop_ends(t.drop_last());
        assert(forall|j: int| 0 <= j < p.len() ==> 0 < #[trigger] p[j] <= t.len() - 1);
        if t.last().token_type == SpecTokenType::Symbol(Symbols::EOP) {
            let q = p.push(t.len() as int);
            assert(eop_ends(t) == q);
            assert forall|a: int, b: int| 0 <= a < b < q.len() implies #[trigger] q[a] < #[trigger] q[b] by {
                if b == q.len() - 1 {
                    assert(q[a] == p[a]);
                } else {
                    assert(q[a] == p[a] && q[b] == p[b]);
                }
            }
        }
    }
}

proof fn lemma_program_ends_sorted(t: Seq<SpecToken>)
    ensures
        forall|a: int, b: int| 0 <= a < b < program_ends(t).len() ==> #[trigger] program_ends(t)[a] < #[trigger] program_ends(t)[b],
        forall|j: int| 0 <= j < program_ends(t).len() ==> 0 < #[trigger] program_ends(t)[j] <= t.len(),
{
    lemma_eop_ends(t);
}

} // verus!
