use vstd::prelude::*;

use crate::nexus::semantic_analyzer::{kid, kid_exec};
use crate::nexus::symbol_table::{SpecSymbolTable, SymbolTable, SymbolTableEntry, Type, str_eq, visible_entry};
use crate::nexus::syntax_tree::{SpecTree, SyntaxTree};
use crate::nexus::syntax_tree_node::{NonTerminalsAst, SpecSyntaxTreeNode, SyntaxTreeNode};
use crate::nexus::token::{Keywords, SpecToken, SpecTokenType, TokenType};

verus! {

// ---------------------------------------------------------------------------
// Text
// ---------------------------------------------------------------------------
/// The character of a decimal digit.
pub open spec fn digit_char(d: nat) -> char {
    ((48 + d) as u8) as char
}

/// The decimal numeral of a number.
pub open spec fn dec(n: nat) -> Seq<char>
    decreases n,
{
    if n < 10 {
        seq![digit_char(n)]
    } else {
        dec(n / 10).push(digit_char(n % 10))
    }
}

/// `String::push`: appends one character.
#[verifier::external_body]
pub(crate) fn push_char(s: &mut String, c: char)
    ensures
        final(s)@ == old(s)@.push(c),
{
    s.push(c);
}

/// Append the decimal numeral of a number.
fn push_decimal(s: &mut String, n: usize)
    ensures
        final(s)@ == old(s)@ + dec(n as nat),
    decreases n,
{
    if n >= 10 {
        push_decimal(s, n / 10);
    }
    let d: u8 = (n % 10) as u8;
    let b: u8 = 48u8 + d;
    push_char(s, b as char);
    proof {
        assert(b as char == digit_char((n % 10) as nat));
        if n >= 10 {
            assert(dec(n as nat) == dec((n / 10) as nat).push(digit_char((n % 10) as nat)));
        }
    }
}

/// A line made of a prefix, a number and a suffix.
fn numbered_line(prefix: &str, n: usize, suffix: &str) -> (r: String)
    ensures
        r@ == prefix@ + dec(n as nat) + suffix@,
{
    let mut s = String::from_str(prefix);
    push_decimal(&mut s, n);
    s.append(suffix);
    s
}

/// A line naming a variable's storage: a prefix, the identifier, an
/// underscore, the scope number and a suffix.
fn variable_line(prefix: &str, id: &str, scope: usize, suffix: &str) -> (r: String)
    ensures
        r@ == prefix@ + id@ + seq!['_'] + dec(scope as nat) + suffix@,
{
    let mut s = String::from_str(prefix);
    s.append(id);
    push_char(&mut s, '_');
    push_decimal(&mut s, scope);
    s.append(suffix);
    s
}

/// The text of lines.
pub open spec fn lines(v: Seq<String>) -> Seq<Seq<char>> {
    v.map_values(|s: String| s@)
}

/// Lines joined, each followed by a line break.
pub open spec fn joined(ls: Seq<Seq<char>>) -> Seq<char>
    decreases ls.len(),
{
    if ls.len() == 0 {
        Seq::empty()
    } else {
        joined(ls.drop_last()) + ls.last() + seq!['\n']
    }
}

/// Whether `b` starts with the lines of `a`.
pub open spec fn extends(a: Seq<Seq<char>>, b: Seq<Seq<char>>) -> bool {
    &&& a.len() <= b.len()
    &&& forall|i: int| 0 <= i < a.len() ==> #[trigger] b[i] == a[i]
}

/// The first lines of every program.
pub open spec fn program_header() -> Seq<char> {
    ".section .text\n.global _start\n_start:\nnop\n"@
}

/// The lines that end the program with the exit system call.
pub open spec fn exit_lines() -> Seq<Seq<char>> {
    seq!["li  a7, 93"@, "li  a0, 0"@, "ecall"@]
}

/// The subroutine that prints the number in a0 as three decimal digits.
pub open spec fn print_int_lines() -> Seq<Seq<char>> {
    seq![
        "print_int:"@,
        "mv t0, a0"@,
        "li  a7, 64"@,
        "li  a0, 1"@,
        "la  a1, print_int_char"@,
        "li  a2, 1"@,
        "li  t1, 0"@,
        "li  t2, 100"@,
        "li  t3, 3"@,
        "li  t4, 10"@,
        "print_int_loop:"@,
        "divu  t5, t0, t2"@,
        "addi  t5, t5, 0x30"@,
        "sb  t5, 0(a1)"@,
        "ecall"@,
        "remu  t0, t0, t2"@,
        "divu  t2, t2, t4"@,
        "addi  t1, t1, 1"@,
        "blt  t1, t3, print_int_loop"@,
        "ret"@,
    ]
}

/// The subroutine that prints the string at the address in a0 (a halfword
/// length, then the characters).
pub open spec fn print_string_lines() -> Seq<Seq<char>> {
    seq![
        "print_string:"@,
        "mv  t0, a0"@,
        "li  a7, 64"@,
        "li  a0, 1"@,
        "lhu  a2, 0(t0)"@,
        "addi  a1, t0, 2"@,
        "ecall"@,
        "ret"@,
    ]
}

/// The subroutine that prints "true" or "false" for the value in a0.
pub open spec fn print_boolean_lines() -> Seq<Seq<char>> {
    seq![
        "print_boolean:"@,
        "beq  a0, zero, print_false"@,
        "la  a0, string_1"@,
        "j  print_bool_call"@,
        "print_false:"@,
        "la  a0, string_0"@,
        "print_bool_call:"@,
        "addi  sp, sp, -4"@,
        "sw  ra, 0(sp)"@,
        "call print_string"@,
        "lw  ra, 0(sp)"@,
        "addi  sp, sp, 4"@,
        "ret"@,
    ]
}

/// The subroutine that prints a line break.
pub open spec fn print_new_line_lines() -> Seq<Seq<char>> {
    seq![
        "print_new_line:"@,
        "li  a7, 64"@,
        "li  a0, 1"@,
        "la  a1, new_line"@,
        "li  a2, 1"@,
        "ecall"@,
        "ret"@,
    ]
}

/// The subroutine that sets a0 to whether a0 equals a1.
pub open spec fn compare_eq_lines() -> Seq<Seq<char>> {
    seq![
        "compare_eq:"@,
        "beq  a0, a1, compare_eq_true"@,
        "li  a0, 0"@,
        "j  compare_eq_ret"@,
        "compare_eq_true:"@,
        "li  a0, 1"@,
        "compare_eq_ret:"@,
        "ret"@,
    ]
}

/// The subroutine that sets a0 to whether a0 differs from a1.
pub open spec fn compare_neq_lines() -> Seq<Seq<char>> {
    seq![
        "compare_neq:"@,
        "bne  a0, a1, compare_neq_true"@,
        "li  a0, 0"@,
        "j  compare_neq_ret"@,
        "compare_neq_true:"@,
        "li  a0, 1"@,
        "compare_neq_ret:"@,
        "ret"@,
    ]
}

/// The code after the program's own: the exit and the six subroutines.
pub open spec fn runtime_lines() -> Seq<Seq<char>> {
    exit_lines() + print_int_lines() + print_string_lines() + print_boolean_lines()
        + print_new_line_lines() + compare_eq_lines() + compare_neq_lines()
}

/// The data every program starts with: a line break to print and a byte for
/// printing digits.
pub open spec fn heap_preamble() -> Seq<Seq<char>> {
    seq!["new_line: .ascii \"\\n\""@, "print_int_char: .byte 0"@]
}

/// The three data lines of a stored string: its label, its length and its
/// characters.
pub open spec fn string_lines(index: nat, s: Seq<char>) -> Seq<Seq<char>> {
    seq![
        "string_"@ + dec(index) + ":"@,
        ".half "@ + dec(s.len()),
        ".ascii \""@ + s + "\""@,
    ]
}

// ---------------------------------------------------------------------------
// What the generator emits, construct by construct
// ---------------------------------------------------------------------------
/// The state generation threads through the tree: the code, static and heap
/// lines, the strings stored (with their label indices), the if and while
/// label counters, the last scope entered and the symbol table.
#[verifier::ext_equal]
pub struct RvState {
    pub code: Seq<Seq<char>>,
    pub statics: Seq<Seq<char>>,
    pub heap: Seq<Seq<char>>,
    pub strings: Seq<(Seq<char>, usize)>,
    pub ifs: usize,
    pub whiles: usize,
    pub max_scope: usize,
    pub table: SpecSymbolTable,
}

impl RvState {
    pub open spec fn emit(self, line: Seq<char>) -> RvState {
        RvState { code: self.code.push(line), ..self }
    }

    pub open spec fn emit_static(self, line: Seq<char>) -> RvState {
        RvState { statics: self.statics.push(line), ..self }
    }
}

/// A line made of a prefix, a number and a suffix.
pub open spec fn num_line(prefix: Seq<char>, n: nat, suffix: Seq<char>) -> Seq<char> {
    prefix + dec(n) + suffix
}

/// A line naming a variable's storage: the identifier, an underscore and
/// the scope number, between a prefix and a suffix.
pub open spec fn var_line(prefix: Seq<char>, id: Seq<char>, scope: usize, suffix: Seq<char>) -> Seq<char> {
    prefix + id + seq!['_'] + dec(scope as nat) + suffix
}

/// The label index of the first stored string equal to `s`, from `i` on.
pub open spec fn find_stored(h: Seq<(Seq<char>, usize)>, s: Seq<char>, i: int) -> Option<usize>
    decreases h.len() - i,
{
    if !(0 <= i < h.len()) {
        None
    } else if h[i].0 == s {
        Some(h[i].1)
    } else {
        find_stored(h, s, i + 1)
    }
}

/// Store a string (unless it is stored already): its label index.
pub open spec fn rv_store(st: RvState, s: Seq<char>) -> (RvState, usize) {
    match find_stored(st.strings, s, 0) {
        Some(k) => (st, k),
        None => {
            let n = st.strings.len() as usize;
            (RvState { heap: st.heap + string_lines(n as nat, s), strings: st.strings.push((s, n)), ..st }, n)
        },
    }
}

proof fn lemma_find_stored_after_push(h: Seq<(Seq<char>, usize)>, s: Seq<char>, k: usize, i: int)
    requires
        0 <= i <= h.len(),
        find_stored(h, s, i) is None,
    ensures
        find_stored(h.push((s, k)), s, i) == Some(k),
    decreases h.len() - i,
{
    if i < h.len() {
        lemma_find_stored_after_push(h, s, k, i + 1);
    }
}

/// A string is stored once: storing it again changes nothing and gives the
/// same label.
pub proof fn lemma_rv_store_twice(st: RvState, s: Seq<char>)
    ensures
        rv_store(rv_store(st, s).0, s) == rv_store(st, s),
{
    if find_stored(st.strings, s, 0) is None {
        lemma_find_stored_after_push(st.strings, s, st.strings.len() as usize, 0);
    }
}

/// Load a variable through an address register: a byte for integers and
/// booleans, a word for strings.
pub open spec fn rv_load_variable(
    st: RvState,
    id: Seq<char>,
    label_id: Seq<char>,
    addr_reg: Seq<char>,
    load_byte: Seq<char>,
    load_word: Seq<char>,
) -> (RvState, bool) {
    match visible_entry(st.table, id) {
        Some(e) => {
            let s1 = st.emit(var_line(addr_reg, label_id, e.scope, ""@));
            (
                match e.symbol_type {
                    Type::String => s1.emit(load_word),
                    _ => s1.emit(load_byte),
                },
                true,
            )
        },
        None => (st, false),
    }
}

/// Load a leaf value into a0 (or a1).
pub open spec fn rv_load_leaf(st: RvState, tt: SpecTokenType, text: Seq<char>, a1: bool) -> (RvState, bool) {
    match tt {
        SpecTokenType::Identifier(name) => if a1 {
            rv_load_variable(st, text, name, "la  t0, "@, "lbu  a1, 0(t0)"@, "lwu  a1, 0(t0)"@)
        } else {
            rv_load_variable(st, text, name, "la  t0, "@, "lbu  a0, 0(t0)"@, "lwu  a0, 0(t0)"@)
        },
        SpecTokenType::Digit(n) => (
            st.emit(
                num_line(
                    if a1 {
                        "li  a1, "@
                    } else {
                        "li  a0, "@
                    },
                    n as nat,
                    ""@,
                ),
            ),
            true,
        ),
        SpecTokenType::Char(s) => {
            let (s1, k) = rv_store(st, s);
            (
                s1.emit(
                    num_line(
                        if a1 {
                            "la  a1, string_"@
                        } else {
                            "la  a0, string_"@
                        },
                        k as nat,
                        ""@,
                    ),
                ),
                true,
            )
        },
        SpecTokenType::Keyword(Keywords::True) => (
            st.emit(
                if a1 {
                    "li  a1, 1"@
                } else {
                    "li  a0, 1"@
                },
            ),
            true,
        ),
        SpecTokenType::Keyword(Keywords::False) => (
            st.emit(
                if a1 {
                    "li  a1, 0"@
                } else {
                    "li  a0, 0"@
                },
            ),
            true,
        ),
        _ => (st, true),
    }
}

/// A declaration: a static byte (integers and booleans, set to zero by
/// code) or word (strings).
pub open spec fn rv_var_decl(t: SpecTree, a: int, st: RvState) -> (RvState, bool) {
    match kid(t, a, 0) {
        Some(i) => match t.nodes[i as int] {
            SpecSyntaxTreeNode::Terminal(tok) => match visible_entry(st.table, tok.text) {
                Some(e) => match e.symbol_type {
                    Type::String => (st.emit_static(var_line(""@, tok.text, e.scope, ": .word 0"@)), true),
                    _ => (
                        st.emit_static(var_line(""@, tok.text, e.scope, ": .byte 0"@)).emit(
                            var_line("la  t1, "@, tok.text, e.scope, ""@),
                        ).emit("li  t0, 0"@).emit("sb  t0, 0(t1)"@),
                        true,
                    ),
                },
                None => (st, false),
            },
            _ => (st, true),
        },
        None => (st, false),
    }
}

/// An addition: the sum in t0 (outermost) or t1 (nested).
pub open spec fn rv_add(t: SpecTree, a: int, st: RvState, is_first: bool) -> (RvState, bool)
    decreases t.nodes.len() - a, 1int, 0int,
{
    match (kid(t, a, 0), kid(t, a, 1)) {
        (Some(rk), Some(l)) => {
            let (s1, ok) = match t.nodes[rk as int] {
                SpecSyntaxTreeNode::Terminal(tok) => match tok.token_type {
                    SpecTokenType::Digit(num) => (st.emit(num_line("li  t1, "@, num as nat, ""@)), true),
                    SpecTokenType::Identifier(name) => match visible_entry(st.table, tok.text) {
                        Some(e) => (st.emit(var_line("la  t2, "@, name, e.scope, ""@)).emit("lbu  t1, 0(t2)"@), true),
                        None => (st, false),
                    },
                    _ => (st, true),
                },
                SpecSyntaxTreeNode::NonTerminalAst(_) => rv_add(t, rk as int, st, false),
                _ => (st, true),
            };
            if !ok {
                (s1, false)
            } else {
                match t.nodes[l as int] {
                    SpecSyntaxTreeNode::Terminal(tok) => match tok.token_type {
                        SpecTokenType::Digit(num) => (
                            s1.emit(num_line("li  t0, "@, num as nat, ""@)).emit(
                                if is_first {
                                    "add  t0, t0, t1"@
                                } else {
                                    "add  t1, t0, t1"@
                                },
                            ),
                            true,
                        ),
                        _ => (s1, true),
                    },
                    _ => (s1, true),
                }
            }
        },
        _ => (st, false),
    }
}

/// A comparison: the left side in a0, the right in a1, then the comparison
/// subroutine (result in a0).
pub open spec fn rv_compare(t: SpecTree, a: int, st: RvState, is_eq: bool) -> (RvState, bool)
    decreases t.nodes.len() - a, 1int, 0int,
{
    match (kid(t, a, 0), kid(t, a, 1)) {
        (Some(rk), Some(l)) => {
            let (s1, ok) = match t.nodes[l as int] {
                SpecSyntaxTreeNode::Terminal(tok) => rv_load_leaf(st, tok.token_type, tok.text, false),
                SpecSyntaxTreeNode::NonTerminalAst(NonTerminalsAst::Add) => (
                    rv_add(t, l as int, st, true).0.emit("mv  a0, t0"@),
                    true,
                ),
                SpecSyntaxTreeNode::NonTerminalAst(NonTerminalsAst::IsEq) => rv_compare(t, l as int, st, true),
                SpecSyntaxTreeNode::NonTerminalAst(NonTerminalsAst::NotEq) => rv_compare(t, l as int, st, false),
                _ => (st, true),
            };
            if !ok {
                (s1, false)
            } else {
                let (s3, ok2) = match t.nodes[rk as int] {
                    SpecSyntaxTreeNode::Terminal(tok) => rv_load_leaf(s1, tok.token_type, tok.text, true),
                    SpecSyntaxTreeNode::NonTerminalAst(nt) => {
                        let s2 = s1.emit("addi  sp, sp, -1"@).emit("sb  a0, 0(sp)"@);
                        let s4 = match nt {
                            NonTerminalsAst::Add => rv_add(t, rk as int, s2, true).0.emit("mv  a1, t0"@),
                            NonTerminalsAst::IsEq => rv_compare(t, rk as int, s2, true).0.emit("mv  a1, a0"@),
                            NonTerminalsAst::NotEq => rv_compare(t, rk as int, s2, false).0.emit("mv  a1, a0"@),
                            _ => s2,
                        };
                        (s4.emit("lbu  a0, 0(sp)"@).emit("addi  sp, sp, 1"@), true)
                    },
                    _ => (s1, true),
                };
                if !ok2 {
                    (s3, false)
                } else {
                    (
                        s3.emit(
                            if is_eq {
                                "call compare_eq"@
                            } else {
                                "call compare_neq"@
                            },
                        ),
                        true,
                    )
                }
            }
        },
        _ => (st, false),
    }
}

/// An assignment: the value into t0, then stored at the variable.
pub open spec fn rv_assign(t: SpecTree, a: int, st: RvState) -> (RvState, bool)
    decreases t.nodes.len() - a, 1int, 0int,
{
    match (kid(t, a, 0), kid(t, a, 1)) {
        (Some(v), Some(i)) => {
            let (s1, ok) = match t.nodes[v as int] {
                SpecSyntaxTreeNode::Terminal(tok) => match tok.token_type {
                    SpecTokenType::Identifier(name) => rv_load_variable(
                        st,
                        tok.text,
                        name,
                        "la  t2, "@,
                        "lbu t0, 0(t2)"@,
                        "lwu t0, 0(t2)"@,
                    ),
                    SpecTokenType::Digit(d) => (st.emit(num_line("li  t0, "@, d as nat, ""@)), true),
                    SpecTokenType::Char(s) => {
                        let (s2, k) = rv_store(st, s);
                        (s2.emit(num_line("la  t0, string_"@, k as nat, ""@)), true)
                    },
                    SpecTokenType::Keyword(Keywords::True) => (st.emit("li  t0, 1"@), true),
                    SpecTokenType::Keyword(Keywords::False) => (st.emit("li  t0, 0"@), true),
                    _ => (st, true),
                },
                SpecSyntaxTreeNode::NonTerminalAst(NonTerminalsAst::Add) => rv_add(t, v as int, st, true),
                SpecSyntaxTreeNode::NonTerminalAst(NonTerminalsAst::IsEq)
                | SpecSyntaxTreeNode::NonTerminalAst(NonTerminalsAst::NotEq) => {
                    let (s2, ok2) = rv_compare(
                        t,
                        v as int,
                        st,
                        t.nodes[v as int] == SpecSyntaxTreeNode::NonTerminalAst(NonTerminalsAst::IsEq),
                    );
                    if !ok2 {
                        (s2, false)
                    } else {
                        (s2.emit("mv  t0, a0"@), true)
                    }
                },
                _ => (st, true),
            };
            if !ok {
                (s1, false)
            } else {
                match t.nodes[i as int] {
                    SpecSyntaxTreeNode::Terminal(tok) => match visible_entry(s1.table, tok.text) {
                        Some(e) => (
                            s1.emit(var_line("la  t1, "@, tok.text, e.scope, ""@)).emit(
                                match e.symbol_type {
                                    Type::String => "sw  t0, 0(t1)"@,
                                    _ => "sb  t0, 0(t1)"@,
                                },
                            ),
                            true,
                        ),
                        None => (s1, false),
                    },
                    _ => (s1, true),
                }
            }
        },
        _ => (st, false),
    }
}

/// Assigning a boolean literal to a boolean variable loads 1 (`true`) or 0
/// (`false`) into t0 and stores that byte at the variable's label; nothing
/// else is emitted and the assignment succeeds.
pub proof fn lemma_assign_boolean_literal(
    t: SpecTree,
    a: int,
    st: RvState,
    b: bool,
    value: SpecToken,
    target: SpecToken,
)
    requires
        kid(t, a, 0) matches Some(v) && t.nodes[v as int] == SpecSyntaxTreeNode::Terminal(value),
        kid(t, a, 1) matches Some(i) && t.nodes[i as int] == SpecSyntaxTreeNode::Terminal(target),
        value.token_type == SpecTokenType::Keyword(
            if b {
                Keywords::True
            } else {
                Keywords::False
            },
        ),
        visible_entry(st.table, target.text) matches Some(e) && e.symbol_type == Type::Boolean,
    ensures
        rv_assign(t, a, st) == (st.emit(
            if b {
                "li  t0, 1"@
            } else {
                "li  t0, 0"@
            },
        ).emit(var_line("la  t1, "@, target.text, visible_entry(st.table, target.text)->0.scope, ""@)).emit(
            "sb  t0, 0(t1)"@,
        ), true),
{
}

/// Assigning a digit to an integer variable loads the digit's value into t0
/// and stores that byte at the variable's label; nothing else is emitted and
/// the assignment succeeds.
pub proof fn lemma_assign_digit_literal(
    t: SpecTree,
    a: int,
    st: RvState,
    d: u8,
    value: SpecToken,
    target: SpecToken,
)
    requires
        kid(t, a, 0) matches Some(v) && t.nodes[v as int] == SpecSyntaxTreeNode::Terminal(value),
        kid(t, a, 1) matches Some(i) && t.nodes[i as int] == SpecSyntaxTreeNode::Terminal(target),
        value.token_type == SpecTokenType::Digit(d),
        visible_entry(st.table, target.text) matches Some(e) && e.symbol_type == Type::Int,
    ensures
        rv_assign(t, a, st) == (st.emit("li  t0, "@ + dec(d as nat)).emit(
            var_line("la  t1, "@, target.text, visible_entry(st.table, target.text)->0.scope, ""@),
        ).emit("sb  t0, 0(t1)"@), true),
{
    reveal_strlit("");
    assert("li  t0, "@ + dec(d as nat) + ""@ =~= "li  t0, "@ + dec(d as nat));
}

/// A print statement: the value into a0, the print subroutine for its type,
/// then a line break.
pub open spec fn rv_print(t: SpecTree, a: int, st: RvState) -> (RvState, bool)
    decreases t.nodes.len() - a, 1int, 0int,
{
    match kid(t, a, 0) {
        Some(c) => {
            let (s1, ok) = match t.nodes[c as int] {
                SpecSyntaxTreeNode::Terminal(tok) => match tok.token_type {
                    SpecTokenType::Identifier(name) => match visible_entry(st.table, name) {
                        Some(e) => (
                            match e.symbol_type {
                                Type::Int => st.emit(var_line("la  t0, "@, name, e.scope, ""@)).emit(
                                    "lbu  a0, 0(t0)"@,
                                ).emit("call print_int"@),
                                Type::String => st.emit(var_line("lwu  a0, "@, name, e.scope, ""@)).emit(
                                    "call print_string"@,
                                ),
                                Type::Boolean => st.emit(var_line("lbu  a0, "@, name, e.scope, ""@)).emit(
                                    "call print_boolean"@,
                                ),
                            },
                            true,
                        ),
                        None => (st, false),
                    },
                    SpecTokenType::Digit(d) => (
                        st.emit(num_line("li  a0, "@, d as nat, ""@)).emit("call print_int"@),
                        true,
                    ),
                    SpecTokenType::Char(s) => {
                        let (s2, k) = rv_store(st, s);
                        (s2.emit(num_line("la  a0, string_"@, k as nat, ""@)).emit("call print_string"@), true)
                    },
                    SpecTokenType::Keyword(kw) => (
                        (match kw {
                            Keywords::True => st.emit("la  a0, string_1"@),
                            Keywords::False => st.emit("la  a0, string_0"@),
                            _ => st,
                        }).emit("call print_string"@),
                        true,
                    ),
                    _ => (st, true),
                },
                SpecSyntaxTreeNode::NonTerminalAst(NonTerminalsAst::Add) => {
                    let (s2, ok2) = rv_add(t, c as int, st, true);
                    if !ok2 {
                        (s2, false)
                    } else {
                        (s2.emit("mv  a0, t0"@).emit("call print_int"@), true)
                    }
                },
                SpecSyntaxTreeNode::NonTerminalAst(NonTerminalsAst::IsEq) => (
                    rv_compare(t, c as int, st, true).0.emit("call print_boolean"@),
                    true,
                ),
                SpecSyntaxTreeNode::NonTerminalAst(NonTerminalsAst::NotEq) => (
                    rv_compare(t, c as int, st, false).0.emit("call print_boolean"@),
                    true,
                ),
                _ => (st, true),
            };
            if !ok {
                (s1, false)
            } else {
                (s1.emit("call print_new_line"@), true)
            }
        },
        None => (st, false),
    }
}

/// An if statement: the condition, a branch to the end label when it is
/// false, the body, and the end label, which follows the body whenever the
/// if counter moved (by this branch or by an if inside the body); a false
/// condition emits nothing and enters none of the body's scopes.
pub open spec fn rv_if(t: SpecTree, a: int, st: RvState) -> (RvState, bool)
    decreases t.nodes.len() - a, 1int, 0int,
{
    match (kid(t, a, 0), kid(t, a, 1)) {
        (Some(body), Some(cond)) => {
            let idx = st.ifs;
            let (s1, ok, done) = match t.nodes[cond as int] {
                SpecSyntaxTreeNode::NonTerminalAst(nt) => {
                    let (s2, ok2) = match nt {
                        NonTerminalsAst::IsEq => rv_compare(t, cond as int, st, true),
                        NonTerminalsAst::NotEq => rv_compare(t, cond as int, st, false),
                        _ => (st, true),
                    };
                    if !ok2 || s2.ifs == usize::MAX {
                        (s2, false, true)
                    } else {
                        (
                            RvState {
                                ifs: (s2.ifs + 1) as usize,
                                ..s2.emit(num_line("beq  a0, zero, if_end_"@, idx as nat, ""@))
                            },
                            true,
                            false,
                        )
                    }
                },
                SpecSyntaxTreeNode::Terminal(tok) => if tok.token_type == SpecTokenType::Keyword(
                    Keywords::False,
                ) {
                    (st, true, true)
                } else {
                    (st, true, false)
                },
                _ => (st, true, false),
            };
            if done {
                (s1, ok)
            } else {
                let (s3, okb) = rv_block(t, body as int, s1);
                if !okb {
                    (s3, false)
                } else if idx != s3.ifs {
                    (s3.emit(num_line("if_end_"@, idx as nat, ":"@)), true)
                } else {
                    (s3, true)
                }
            }
        },
        _ => (st, false),
    }
}

/// A while statement: a start label, the condition with a branch to the end
/// label, the body, a jump back and the end label; a false condition emits
/// only the start label.
pub open spec fn rv_while(t: SpecTree, a: int, st: RvState) -> (RvState, bool)
    decreases t.nodes.len() - a, 1int, 0int,
{
    match (kid(t, a, 0), kid(t, a, 1)) {
        (Some(body), Some(cond)) => if st.whiles == usize::MAX {
            (st, false)
        } else {
            let idx = st.whiles;
            let s0 = RvState { whiles: (st.whiles + 1) as usize, ..st }.emit(
                num_line("while_start_"@, idx as nat, ":"@),
            );
            let (s1, ok, done) = match t.nodes[cond as int] {
                SpecSyntaxTreeNode::NonTerminalAst(nt) => {
                    let (s2, ok2) = match nt {
                        NonTerminalsAst::IsEq => rv_compare(t, cond as int, s0, true),
                        NonTerminalsAst::NotEq => rv_compare(t, cond as int, s0, false),
                        _ => (s0, true),
                    };
                    if !ok2 {
                        (s2, false, true)
                    } else {
                        (s2.emit(num_line("beq  a0, zero, while_end_"@, idx as nat, ""@)), true, false)
                    }
                },
                SpecSyntaxTreeNode::Terminal(tok) => if tok.token_type == SpecTokenType::Keyword(
                    Keywords::False,
                ) {
                    (s0, true, true)
                } else {
                    (s0, true, false)
                },
                _ => (s0, true, false),
            };
            if done {
                (s1, ok)
            } else {
                let (s3, okb) = rv_block(t, body as int, s1);
                if !okb {
                    (s3, false)
                } else {
                    (
                        s3.emit(num_line("j  while_start_"@, idx as nat, ""@)).emit(
                            num_line("while_end_"@, idx as nat, ":"@),
                        ),
                        true,
                    )
                }
            }
        },
        _ => (st, false),
    }
}

/// A block: its statements in source order, in the next scope.
pub open spec fn rv_block(t: SpecTree, a: int, st: RvState) -> (RvState, bool)
    decreases t.nodes.len() - a, 1int, 0int,
{
    if !(0 <= a < t.nodes.len()) {
        (st, false)
    } else {
        let ms: usize = if st.max_scope == usize::MAX {
            0
        } else {
            (st.max_scope + 1) as usize
        };
        let s1 = RvState { max_scope: ms, ..st };
        if ms >= s1.table.scopes.len() {
            (s1, false)
        } else {
            let s2 = RvState { table: SpecSymbolTable { cur_scope: Some(ms), ..s1.table }, ..s1 };
            let (s3, ok) = rv_block_kids(t, a, t.children(a as usize).len() as int, s2);
            if !ok {
                (s3, false)
            } else {
                (RvState { table: s3.table.end_cur_scope(), ..s3 }, true)
            }
        }
    }
}

/// The first `k` statements of a block, the last of them first (source
/// order); stops at the first that fails.
pub open spec fn rv_block_kids(t: SpecTree, a: int, k: int, st: RvState) -> (RvState, bool)
    decreases t.nodes.len() - a, 0int, k,
{
    if k <= 0 {
        (st, true)
    } else {
        let (s1, ok) = match kid(t, a, k - 1) {
            Some(c) => match t.nodes[c as int] {
                SpecSyntaxTreeNode::NonTerminalAst(nt) => match nt {
                    NonTerminalsAst::Block => rv_block(t, c as int, st),
                    NonTerminalsAst::VarDecl => rv_var_decl(t, c as int, st),
                    NonTerminalsAst::Assign => rv_assign(t, c as int, st),
                    NonTerminalsAst::Print => rv_print(t, c as int, st),
                    NonTerminalsAst::If => rv_if(t, c as int, st),
                    NonTerminalsAst::While => rv_while(t, c as int, st),
                    _ => (st, false),
                },
                _ => (st, true),
            },
            None => (st, true),
        };
        if !ok {
            (s1, false)
        } else {
            rv_block_kids(t, a, k - 1, s1)
        }
    }
}

/// The state generation starts from: no code or static lines, the heap
/// preamble and the strings "false" (label 0) and "true" (label 1), no labels
/// numbered and no scope entered yet.
pub open spec fn rv_start(table: SpecSymbolTable) -> RvState {
    RvState {
        code: Seq::empty(),
        statics: Seq::empty(),
        heap: heap_preamble() + string_lines(0, "false"@) + string_lines(1, "true"@),
        strings: seq![("false"@, 0usize), ("true"@, 1usize)],
        ifs: 0,
        whiles: 0,
        max_scope: usize::MAX,
        table,
    }
}

/// The state after generating a whole tree: its root block, when it has one.
pub open spec fn rv_program(t: SpecTree, table: SpecSymbolTable) -> RvState {
    match t.root {
        Some(root) => rv_block(t, root as int, rv_start(table)).0,
        None => rv_start(table),
    }
}

/// The assembly text of a generation state: the header, the code followed
/// by the exit and the subroutines, the static lines and the heap lines.
pub open spec fn rv_output(st: RvState) -> Seq<char> {
    program_header() + joined(st.code + runtime_lines()) + joined(st.statics) + joined(st.heap)
}

// ---------------------------------------------------------------------------
// The generator
// ---------------------------------------------------------------------------
/// Generates RISC-V assembly text from an analyzed AST: code lines, static
/// variables and heap data (strings), each variable labeled by its
/// identifier and scope.
pub struct CodeGeneratorRiscV {
    max_scope: usize,
    code_arr: Vec<String>,
    static_arr: Vec<String>,
    heap_arr: Vec<String>,
    string_history: Vec<(String, usize)>,
    if_count: usize,
    while_count: usize,
}

fn push_line(v: &mut Vec<String>, line: &str)
    ensures
        lines(final(v)@) == lines(old(v)@).push(line@),
{
    let s = String::from_str(line);
    v.push(s);
    assert(lines(v@) =~= lines(old(v)@).push(line@));
}

fn push_owned(v: &mut Vec<String>, line: String)
    ensures
        lines(final(v)@) == lines(old(v)@).push(line@),
{
    let ghost lv = line@;
    v.push(line);
    assert(lines(v@) =~= lines(old(v)@).push(lv));
}

fn push_lines(v: &mut Vec<String>, ls: &[&str])
    ensures
        lines(final(v)@) == lines(old(v)@) + ls@.map_values(|s: &str| s@),
{
    let mut i: usize = 0;
    while i < ls.len()
        invariant
            i <= ls@.len(),
            lines(v@) == lines(old(v)@) + ls@.map_values(|s: &str| s@).take(i as int),
        decreases ls.len() - i,
    {
        push_line(v, ls[i]);
        assert(ls@.map_values(|s: &str| s@).take(i + 1) =~= ls@.map_values(|s: &str| s@).take(i as int).push(
            ls@[i as int]@,
        ));
        i = i + 1;
    }
    assert(ls@.map_values(|s: &str| s@).take(i as int) =~= ls@.map_values(|s: &str| s@));
}

impl CodeGeneratorRiscV {
    /// The code lines.
    pub closed spec fn code(&self) -> Seq<Seq<char>> {
        lines(self.code_arr@)
    }

    /// The static data lines.
    pub closed spec fn statics(&self) -> Seq<Seq<char>> {
        lines(self.static_arr@)
    }

    /// The heap data lines.
    pub closed spec fn heap(&self) -> Seq<Seq<char>> {
        lines(self.heap_arr@)
    }

    /// The whole assembly text.
    pub closed spec fn output(&self) -> Seq<char> {
        program_header() + joined(self.code()) + joined(self.statics()) + joined(self.heap())
    }

    /// What generation may do to the text: only append.
    pub closed spec fn grows_to(&self, other: &CodeGeneratorRiscV) -> bool {
        &&& extends(self.code(), other.code())
        &&& extends(self.statics(), other.statics())
        &&& extends(self.heap(), other.heap())
        &&& self.if_count <= other.if_count
        &&& self.while_count <= other.while_count
    }

    /// The generation state, with the symbol table it works against.
    pub closed spec fn rv(&self, table: SpecSymbolTable) -> RvState {
        RvState {
            code: self.code(),
            statics: self.statics(),
            heap: self.heap(),
            strings: self.string_history@.map_values(|p: (String, usize)| (p.0@, p.1)),
            ifs: self.if_count,
            whiles: self.while_count,
            max_scope: self.max_scope,
            table,
        }
    }

    /// No string stored and no label numbered yet.
    pub closed spec fn is_fresh(&self) -> bool {
        &&& self.string_history@.len() == 0
        &&& self.if_count == 0
        &&& self.while_count == 0
        &&& self.max_scope == usize::MAX
    }

    /// A generator with no text.
    pub fn new() -> (r: Self)
        ensures
            r.is_fresh(),
            r.code() == Seq::<Seq<char>>::empty(),
            r.statics() == Seq::<Seq<char>>::empty(),
            r.heap() == Seq::<Seq<char>>::empty(),
    {
        let r = CodeGeneratorRiscV {
            max_scope: usize::MAX,
            code_arr: Vec::new(),
            static_arr: Vec::new(),
            heap_arr: Vec::new(),
            string_history: Vec::new(),
            if_count: 0,
            while_count: 0,
        };
        assert(lines(r.code_arr@) =~= Seq::<Seq<char>>::empty());
        assert(lines(r.static_arr@) =~= Seq::<Seq<char>>::empty());
        assert(lines(r.heap_arr@) =~= Seq::<Seq<char>>::empty());
        r
    }
}


/// Append lines, each followed by a line break.
fn append_joined(out: &mut String, ls: &Vec<String>)
    ensures
        final(out)@ == old(out)@ + joined(lines(ls@)),
{
    proof {
        reveal_strlit("\n");
    }
    let mut i: usize = 0;
    while i < ls.len()
        invariant
            i <= ls@.len(),
            out@ == old(out)@ + joined(lines(ls@).take(i as int)),
            "\n"@ == seq!['\n'],
        decreases ls.len() - i,
    {
        out.append(ls[i].as_str());
        out.append("\n");
        assert(lines(ls@).take(i + 1).drop_last() =~= lines(ls@).take(i as int));
        assert(out@ =~= old(out)@ + joined(lines(ls@).take(i + 1)));
        i = i + 1;
    }
    assert(lines(ls@).take(i as int) =~= lines(ls@));
}

impl CodeGeneratorRiscV {
    fn code_line(&mut self, line: &str)
        ensures
            final(self).code() == old(self).code().push(line@),
            final(self).static_arr == old(self).static_arr,
            final(self).heap_arr == old(self).heap_arr,
            final(self).string_history == old(self).string_history,
            final(self).if_count == old(self).if_count,
            final(self).while_count == old(self).while_count,
            final(self).max_scope == old(self).max_scope,
    {
        push_line(&mut self.code_arr, line);
    }

    fn code_owned(&mut self, line: String)
        ensures
            final(self).code() == old(self).code().push(line@),
            final(self).static_arr == old(self).static_arr,
            final(self).heap_arr == old(self).heap_arr,
            final(self).string_history == old(self).string_history,
            final(self).if_count == old(self).if_count,
            final(self).while_count == old(self).while_count,
            final(self).max_scope == old(self).max_scope,
    {
        push_owned(&mut self.code_arr, line);
    }

    /// The label index of a string already stored, if any.
    fn find_string(&self, string: &str) -> (r: Option<usize>)
        ensures
            r is None <==> !(exists|k: int| 0 <= k < self.string_history@.len() && (#[trigger] self.string_history@[k]).0@ == string@),
            r == find_stored(self.string_history@.map_values(|p: (String, usize)| (p.0@, p.1)), string@, 0),
    {
        let ghost h = self.string_history@.map_values(|p: (String, usize)| (p.0@, p.1));
        let mut k: usize = 0;
        while k < self.string_history.len()
            invariant
                k <= self.string_history@.len(),
                h == self.string_history@.map_values(|p: (String, usize)| (p.0@, p.1)),
                forall|j: int| 0 <= j < k ==> (#[trigger] self.string_history@[j]).0@ != string@,
                find_stored(h, string@, 0) == find_stored(h, string@, k as int),
            decreases self.string_history.len() - k,
        {
            if str_eq(self.string_history[k].0.as_str(), string) {
                return Some(self.string_history[k].1);
            }
            k = k + 1;
        }
        None
    }

    /// Store a string in the heap data under the next label, unless it is
    /// already there; the index of its label.
    fn store_string(&mut self, string: &str) -> (r: usize)
        ensures
            old(self).grows_to(&*final(self)),
            (exists|k: int| 0 <= k < old(self).string_history@.len() && (#[trigger] old(self).string_history@[k]).0@ == string@)
                ==> *final(self) == *old(self),
            !(exists|k: int| 0 <= k < old(self).string_history@.len() && (#[trigger] old(self).string_history@[k]).0@ == string@)
                ==> r == old(self).string_history@.len() && final(self).heap() == old(self).heap()
                + string_lines(r as nat, string@) && final(self).string_history@.len() == r + 1
                && final(self).string_history@.last().0@ == string@,
            final(self).code_arr == old(self).code_arr,
            final(self).static_arr == old(self).static_arr,
            final(self).if_count == old(self).if_count,
            final(self).while_count == old(self).while_count,
            final(self).max_scope == old(self).max_scope,
            forall|t: SpecSymbolTable|
                #[trigger] final(self).rv(t) == rv_store(old(self).rv(t), string@).0 && r == rv_store(
                    old(self).rv(t),
                    string@,
                ).1,
    {
        match self.find_string(string) {
            Some(k) => {
                return k;
            },
            None => {},
        }
        let n: usize = self.string_history.len();
        let label = numbered_line("string_", n, ":");
        push_owned(&mut self.heap_arr, label);
        let half = numbered_line(".half ", string.unicode_len(), "");
        push_owned(&mut self.heap_arr, half);
        let mut ascii = String::from_str(".ascii \"");
        ascii.append(string);
        ascii.append("\"");
        push_owned(&mut self.heap_arr, ascii);
        let key: String = string.to_owned();
        self.string_history.push((key, n));
        proof {
            reveal_strlit("");
            assert(self.heap() =~= old(self).heap() + string_lines(n as nat, string@));
            assert(self.string_history@.map_values(|p: (String, usize)| (p.0@, p.1)) =~= old(
                self,
            ).string_history@.map_values(|p: (String, usize)| (p.0@, p.1)).push((string@, n)));
            assert forall|t: SpecSymbolTable| #[trigger] self.rv(t) == rv_store(old(self).rv(t), string@).0 by {
                assert(self.rv(t) =~= rv_store(old(self).rv(t), string@).0);
            }
        }
        n
    }

    fn add_print_int_code(&mut self)
        ensures
            final(self).code() == old(self).code() + print_int_lines(),
            final(self).heap_arr == old(self).heap_arr,
            final(self).static_arr == old(self).static_arr,
    {
        push_lines(
            &mut self.code_arr,
            &[
                "print_int:",
                "mv t0, a0",
                "li  a7, 64",
                "li  a0, 1",
                "la  a1, print_int_char",
                "li  a2, 1",
                "li  t1, 0",
                "li  t2, 100",
                "li  t3, 3",
                "li  t4, 10",
                "print_int_loop:",
                "divu  t5, t0, t2",
                "addi  t5, t5, 0x30",
                "sb  t5, 0(a1)",
                "ecall",
                "remu  t0, t0, t2",
                "divu  t2, t2, t4",
                "addi  t1, t1, 1",
                "blt  t1, t3, print_int_loop",
                "ret",
            ],
        );
        assert(self.code() =~= old(self).code() + print_int_lines());
    }

    fn add_print_string_code(&mut self)
        ensures
            final(self).code() == old(self).code() + print_string_lines(),
            final(self).heap_arr == old(self).heap_arr,
            final(self).static_arr == old(self).static_arr,
    {
        push_lines(
            &mut self.code_arr,
            &[
                "print_string:",
                "mv  t0, a0",
                "li  a7, 64",
                "li  a0, 1",
                "lhu  a2, 0(t0)",
                "addi  a1, t0, 2",
                "ecall",
                "ret",
            ],
        );
        assert(self.code() =~= old(self).code() + print_string_lines());
    }

    fn add_print_boolean_code(&mut self)
        ensures
            final(self).code() == old(self).code() + print_boolean_lines(),
            final(self).heap_arr == old(self).heap_arr,
            final(self).static_arr == old(self).static_arr,
    {
        push_lines(
            &mut self.code_arr,
            &[
                "print_boolean:",
                "beq  a0, zero, print_false",
                "la  a0, string_1",
                "j  print_bool_call",
                "print_false:",
                "la  a0, string_0",
                "print_bool_call:",
                "addi  sp, sp, -4",
                "sw  ra, 0(sp)",
                "call print_string",
                "lw  ra, 0(sp)",
                "addi  sp, sp, 4",
                "ret",
            ],
        );
        assert(self.code() =~= old(self).code() + print_boolean_lines());
    }

    fn add_print_new_line_code(&mut self)
        ensures
            final(self).code() == old(self).code() + print_new_line_lines(),
            final(self).heap_arr == old(self).heap_arr,
            final(self).static_arr == old(self).static_arr,
    {
        push_lines(
            &mut self.code_arr,
            &[
                "print_new_line:",
                "li  a7, 64",
                "li  a0, 1",
                "la  a1, new_line",
                "li  a2, 1",
                "ecall",
                "ret",
            ],
        );
        assert(self.code() =~= old(self).code() + print_new_line_lines());
    }

    fn add_compare_eq_code(&mut self)
        ensures
            final(self).code() == old(self).code() + compare_eq_lines(),
            final(self).heap_arr == old(self).heap_arr,
            final(self).static_arr == old(self).static_arr,
    {
        push_lines(
            &mut self.code_arr,
            &[
                "compare_eq:",
                "beq  a0, a1, compare_eq_true",
                "li  a0, 0",
                "j  compare_eq_ret",
                "compare_eq_true:",
                "li  a0, 1",
                "compare_eq_ret:",
                "ret",
            ],
        );
        assert(self.code() =~= old(self).code() + compare_eq_lines());
    }

    fn add_compare_neq_code(&mut self)
        ensures
            final(self).code() == old(self).code() + compare_neq_lines(),
            final(self).heap_arr == old(self).heap_arr,
            final(self).static_arr == old(self).static_arr,
    {
        push_lines(
            &mut self.code_arr,
            &[
                "compare_neq:",
                "bne  a0, a1, compare_neq_true",
                "li  a0, 0",
                "j  compare_neq_ret",
                "compare_neq_true:",
                "li  a0, 1",
                "compare_neq_ret:",
                "ret",
            ],
        );
        assert(self.code() =~= old(self).code() + compare_neq_lines());
    }

    fn add_exit_code(&mut self)
        ensures
            final(self).code() == old(self).code() + exit_lines(),
            final(self).heap_arr == old(self).heap_arr,
            final(self).static_arr == old(self).static_arr,
    {
        push_lines(
            &mut self.code_arr,
            &[
                "li  a7, 93",
                "li  a0, 0",
                "ecall",
            ],
        );
        assert(self.code() =~= old(self).code() + exit_lines());
    }

    /// The assembly text: the header, then the code, static and heap lines,
    /// each followed by a line break.
    fn create_output_string(&self) -> (r: String)
        ensures
            r@ == self.output(),
    {
        let mut out = String::from_str(".section .text\n.global _start\n_start:\nnop\n");
        proof {
            reveal_strlit("\n");
        }
        append_joined(&mut out, &self.code_arr);
        append_joined(&mut out, &self.static_arr);
        append_joined(&mut out, &self.heap_arr);
        proof {
            assert(out@ =~= self.output());
        }
        out
    }

    /// The entry of an identifier visible from the current scope.
    fn symbol_of(symbol_table: &SymbolTable, id: &str) -> (r: Option<SymbolTableEntry>)
        requires
            symbol_table@.wf(),
        ensures
            r == visible_entry(symbol_table@, id@),
    {
        if symbol_table.current_scope().is_none() {
            return None;
        }
        match symbol_table.get_symbol(id) {
            Some(e) => Some(*e),
            None => None,
        }
    }

    /// Code for a block: its statements in source order, in the next scope.
    fn code_gen_block(&mut self, ast: &SyntaxTree, a: usize, symbol_table: &mut SymbolTable) -> (r: bool)
        requires
            ast@.wf(),
            old(symbol_table)@.wf(),
        ensures
            old(self).grows_to(&*final(self)),
            final(symbol_table)@.wf(),
            final(self).rv(final(symbol_table)@) == rv_block(ast@, a as int, old(self).rv(old(symbol_table)@)).0,
            r == rv_block(ast@, a as int, old(self).rv(old(symbol_table)@)).1,
        decreases ast@.nodes.len() - a,
    {
        if a >= ast.node_count() {
            return false;
        }
        if self.max_scope == usize::MAX {
            self.max_scope = 0;
        } else {
            self.max_scope = self.max_scope + 1;
        }
        if self.max_scope >= symbol_table.scope_count() {
            return false;
        }
        symbol_table.set_cur_scope(self.max_scope);
        let ghost s2 = self.rv(symbol_table@);
        let kids = ast.children(a);
        let ghost expect = rv_block(ast@, a as int, old(self).rv(old(symbol_table)@));
        let ghost bk = rv_block_kids(ast@, a as int, kids@.len() as int, s2);
        assert(s2 =~= RvState {
            table: SpecSymbolTable { cur_scope: Some(self.max_scope), ..old(symbol_table)@ },
            max_scope: self.max_scope,
            ..old(self).rv(old(symbol_table)@)
        });
        assert(expect == if bk.1 {
            (RvState { table: bk.0.table.end_cur_scope(), ..bk.0 }, true)
        } else {
            bk
        });
        let mut k: usize = kids.len();
        while k > 0
            invariant
                ast@.wf(),
                a < ast@.nodes.len(),
                kids@ == ast@.children(a),
                k <= kids@.len(),
                old(self).grows_to(&*self),
                symbol_table@.wf(),
                bk == rv_block_kids(ast@, a as int, kids@.len() as int, s2),
                expect == rv_block(ast@, a as int, old(self).rv(old(symbol_table)@)),
                expect == if bk.1 {
                    (RvState { table: bk.0.table.end_cur_scope(), ..bk.0 }, true)
                } else {
                    bk
                },
                rv_block_kids(ast@, a as int, kids@.len() as int, s2) == rv_block_kids(
                    ast@,
                    a as int,
                    k as int,
                    self.rv(symbol_table@),
                ),
            decreases k,
        {
            let ghost before = self.rv(symbol_table@);
            k = k - 1;
            match kid_exec(ast, &kids, a, k) {
                Some(c) => {
                    match ast.node(c) {
                        SyntaxTreeNode::NonTerminalAst(nt) => {
                            let res = match nt {
                                NonTerminalsAst::Block => self.code_gen_block(ast, c, symbol_table),
                                NonTerminalsAst::VarDecl => self.code_gen_var_decl(ast, c, symbol_table),
                                NonTerminalsAst::Assign => self.code_gen_assignment(ast, c, symbol_table),
                                NonTerminalsAst::Print => self.code_gen_print(ast, c, symbol_table),
                                NonTerminalsAst::If => self.code_gen_if(ast, c, symbol_table),
                                NonTerminalsAst::While => self.code_gen_while(ast, c, symbol_table),
                                _ => false,
                            };
                            if !res {
                                assert(rv_block_kids(ast@, a as int, k + 1, before) == (self.rv(symbol_table@), false));
                                return false;
                            }
                        },
                        _ => {},
                    }
                },
                None => {},
            }
        }
        let ghost s3 = self.rv(symbol_table@);
        symbol_table.end_cur_scope();
        assert(self.rv(symbol_table@) =~= RvState { table: s3.table.end_cur_scope(), ..s3 });
        true
    }

    /// Code for a declaration: a static byte (integers and booleans, set to
    /// zero by code) or word (strings, the address of their text).
    fn code_gen_var_decl(&mut self, ast: &SyntaxTree, a: usize, symbol_table: &mut SymbolTable) -> (r: bool)
        requires
            ast@.wf(),
            a < ast@.nodes.len(),
            old(symbol_table)@.wf(),
        ensures
            old(self).grows_to(&*final(self)),
            final(symbol_table)@.wf(),
            final(self).rv(final(symbol_table)@) == rv_var_decl(ast@, a as int, old(self).rv(old(symbol_table)@)).0,
            r == rv_var_decl(ast@, a as int, old(self).rv(old(symbol_table)@)).1,
    {
        let kids = ast.children(a);
        let id_index = match kid_exec(ast, &kids, a, 0) {
            Some(i) => i,
            None => {
                return false;
            },
        };
        match ast.node(id_index) {
            SyntaxTreeNode::Terminal(token) => {
                let entry = match Self::symbol_of(symbol_table, token.text.as_str()) {
                    Some(e) => e,
                    None => {
                        return false;
                    },
                };
                match entry.symbol_type {
                    Type::Int | Type::Boolean => {
                        push_owned(&mut self.static_arr, variable_line("", token.text.as_str(), entry.scope, ": .byte 0"));
                        let ghost s1 = self.rv(symbol_table@);
                        self.code_owned(variable_line("la  t1, ", token.text.as_str(), entry.scope, ""));
                        self.code_line("li  t0, 0");
                        self.code_line("sb  t0, 0(t1)");
                        proof {
                            assert(s1 =~= old(self).rv(symbol_table@).emit_static(
                                var_line(""@, token.text@, entry.scope, ": .byte 0"@),
                            ));
                            assert(self.rv(symbol_table@) =~= s1.emit(var_line("la  t1, "@, token.text@, entry.scope, ""@)).emit(
                                "li  t0, 0"@,
                            ).emit("sb  t0, 0(t1)"@));
                        }
                    },
                    Type::String => {
                        push_owned(&mut self.static_arr, variable_line("", token.text.as_str(), entry.scope, ": .word 0"));
                        assert(self.rv(symbol_table@) =~= old(self).rv(symbol_table@).emit_static(
                            var_line(""@, token.text@, entry.scope, ": .word 0"@),
                        ));
                    },
                }
            },
            _ => {},
        }
        true
    }

    /// Load a variable's value into a register: a byte for integers and
    /// booleans, a word for strings (through the address register).
    fn load_variable(&mut self, symbol_table: &SymbolTable, id: &str, label_id: &str, addr_reg: &str, load_byte: &str, load_word: &str) -> (r: bool)
        requires
            symbol_table@.wf(),
        ensures
            old(self).grows_to(&*final(self)),
            final(self).string_history == old(self).string_history,
            final(self).rv(symbol_table@) == rv_load_variable(
                old(self).rv(symbol_table@),
                id@,
                label_id@,
                addr_reg@,
                load_byte@,
                load_word@,
            ).0,
            r == rv_load_variable(old(self).rv(symbol_table@), id@, label_id@, addr_reg@, load_byte@, load_word@).1,
    {
        let entry = match Self::symbol_of(symbol_table, id) {
            Some(e) => e,
            None => {
                return false;
            },
        };
        self.code_owned(variable_line(addr_reg, label_id, entry.scope, ""));
        match entry.symbol_type {
            Type::Int | Type::Boolean => self.code_line(load_byte),
            Type::String => self.code_line(load_word),
        }
        proof {
            let s1 = old(self).rv(symbol_table@).emit(var_line(addr_reg@, label_id@, entry.scope, ""@));
            match entry.symbol_type {
                Type::String => assert(self.rv(symbol_table@) =~= s1.emit(load_word@)),
                _ => assert(self.rv(symbol_table@) =~= s1.emit(load_byte@)),
            }
        }
        true
    }

    /// Code for an assignment: the value into t0, then stored at the
    /// variable (a byte, or a word for strings).
    fn code_gen_assignment(&mut self, ast: &SyntaxTree, a: usize, symbol_table: &mut SymbolTable) -> (r: bool)
        requires
            ast@.wf(),
            a < ast@.nodes.len(),
            old(symbol_table)@.wf(),
        ensures
            old(self).grows_to(&*final(self)),
            final(symbol_table)@.wf(),
            final(self).rv(final(symbol_table)@) == rv_assign(ast@, a as int, old(self).rv(old(symbol_table)@)).0,
            r == rv_assign(ast@, a as int, old(self).rv(old(symbol_table)@)).1,
        decreases ast@.nodes.len() - a,
    {
        let ghost st = self.rv(symbol_table@);
        let kids = ast.children(a);
        let (value_index, id_index) = match (kid_exec(ast, &kids, a, 0), kid_exec(ast, &kids, a, 1)) {
            (Some(v), Some(i)) => (v, i),
            _ => {
                return false;
            },
        };
        match ast.node(value_index) {
            SyntaxTreeNode::Terminal(token) => {
                match &token.token_type {
                    TokenType::Identifier(id_name) => {
                        if !self.load_variable(symbol_table, token.text.as_str(), id_name.as_str(), "la  t2, ", "lbu t0, 0(t2)", "lwu t0, 0(t2)") {
                            return false;
                        }
                    },
                    TokenType::Digit(val) => {
                        self.code_owned(numbered_line("li  t0, ", *val as usize, ""));
                        assert(self.rv(symbol_table@) =~= st.emit(num_line("li  t0, "@, *val as nat, ""@)));
                    },
                    TokenType::Char(string) => {
                        let index = self.store_string(string.as_str());
                        let ghost s2 = self.rv(symbol_table@);
                        self.code_owned(numbered_line("la  t0, string_", index, ""));
                        assert(self.rv(symbol_table@) =~= s2.emit(num_line("la  t0, string_"@, index as nat, ""@)));
                    },
                    TokenType::Keyword(Keywords::True) => {
                        self.code_line("li  t0, 1");
                        assert(self.rv(symbol_table@) =~= st.emit("li  t0, 1"@));
                    },
                    TokenType::Keyword(Keywords::False) => {
                        self.code_line("li  t0, 0");
                        assert(self.rv(symbol_table@) =~= st.emit("li  t0, 0"@));
                    },
                    _ => {},
                }
            },
            SyntaxTreeNode::NonTerminalAst(nt) => {
                match nt {
                    NonTerminalsAst::Add => {
                        if !self.code_gen_add(ast, value_index, symbol_table, true) {
                            return false;
                        }
                    },
                    NonTerminalsAst::IsEq | NonTerminalsAst::NotEq => {
                        let is_eq = matches!(nt, NonTerminalsAst::IsEq);
                        if !self.code_gen_compare(ast, value_index, symbol_table, is_eq) {
                            return false;
                        }
                        let ghost s2 = self.rv(symbol_table@);
                        self.code_line("mv  t0, a0");
                        assert(self.rv(symbol_table@) =~= s2.emit("mv  t0, a0"@));
                    },
                    _ => {},
                }
            },
            _ => {},
        }
        let ghost s1 = self.rv(symbol_table@);
        match ast.node(id_index) {
            SyntaxTreeNode::Terminal(token) => {
                let entry = match Self::symbol_of(symbol_table, token.text.as_str()) {
                    Some(e) => e,
                    None => {
                        return false;
                    },
                };
                self.code_owned(variable_line("la  t1, ", token.text.as_str(), entry.scope, ""));
                match entry.symbol_type {
                    Type::Int | Type::Boolean => self.code_line("sb  t0, 0(t1)"),
                    Type::String => self.code_line("sw  t0, 0(t1)"),
                }
                assert(self.rv(symbol_table@) =~= s1.emit(var_line("la  t1, "@, token.text@, entry.scope, ""@)).emit(
                    match entry.symbol_type {
                        Type::String => "sw  t0, 0(t1)"@,
                        _ => "sb  t0, 0(t1)"@,
                    },
                ));
            },
            _ => {},
        }
        true
    }

    /// Code for a print statement: the value into a0, the matching print
    /// subroutine, then a line break.
    fn code_gen_print(&mut self, ast: &SyntaxTree, a: usize, symbol_table: &mut SymbolTable) -> (r: bool)
        requires
            ast@.wf(),
            a < ast@.nodes.len(),
            old(symbol_table)@.wf(),
        ensures
            old(self).grows_to(&*final(self)),
            final(symbol_table)@.wf(),
            final(self).rv(final(symbol_table)@) == rv_print(ast@, a as int, old(self).rv(old(symbol_table)@)).0,
            r == rv_print(ast@, a as int, old(self).rv(old(symbol_table)@)).1,
        decreases ast@.nodes.len() - a,
    {
        let ghost st = self.rv(symbol_table@);
        let kids = ast.children(a);
        let c = match kid_exec(ast, &kids, a, 0) {
            Some(c) => c,
            None => {
                return false;
            },
        };
        match ast.node(c) {
            SyntaxTreeNode::Terminal(token) => {
                match &token.token_type {
                    TokenType::Identifier(id_name) => {
                        let entry = match Self::symbol_of(symbol_table, id_name.as_str()) {
                            Some(e) => e,
                            None => {
                                return false;
                            },
                        };
                        match entry.symbol_type {
                            Type::Int => {
                                self.code_owned(variable_line("la  t0, ", id_name.as_str(), entry.scope, ""));
                                self.code_line("lbu  a0, 0(t0)");
                                self.code_line("call print_int");
                                assert(self.rv(symbol_table@) =~= st.emit(var_line("la  t0, "@, id_name@, entry.scope, ""@)).emit(
                                    "lbu  a0, 0(t0)"@,
                                ).emit("call print_int"@));
                            },
                            Type::String => {
                                self.code_owned(variable_line("lwu  a0, ", id_name.as_str(), entry.scope, ""));
                                self.code_line("call print_string");
                                assert(self.rv(symbol_table@) =~= st.emit(var_line("lwu  a0, "@, id_name@, entry.scope, ""@)).emit(
                                    "call print_string"@,
                                ));
                            },
                            Type::Boolean => {
                                self.code_owned(variable_line("lbu  a0, ", id_name.as_str(), entry.scope, ""));
                                self.code_line("call print_boolean");
                                assert(self.rv(symbol_table@) =~= st.emit(var_line("lbu  a0, "@, id_name@, entry.scope, ""@)).emit(
                                    "call print_boolean"@,
                                ));
                            },
                        }
                    },
                    TokenType::Digit(digit) => {
                        self.code_owned(numbered_line("li  a0, ", *digit as usize, ""));
                        self.code_line("call print_int");
                        assert(self.rv(symbol_table@) =~= st.emit(num_line("li  a0, "@, *digit as nat, ""@)).emit(
                            "call print_int"@,
                        ));
                    },
                    TokenType::Char(string) => {
                        let index = self.store_string(string.as_str());
                        let ghost s2 = self.rv(symbol_table@);
                        self.code_owned(numbered_line("la  a0, string_", index, ""));
                        self.code_line("call print_string");
                        assert(self.rv(symbol_table@) =~= s2.emit(num_line("la  a0, string_"@, index as nat, ""@)).emit(
                            "call print_string"@,
                        ));
                    },
                    TokenType::Keyword(keyword) => {
                        match keyword {
                            Keywords::True => self.code_line("la  a0, string_1"),
                            Keywords::False => self.code_line("la  a0, string_0"),
                            _ => {},
                        }
                        let ghost s2 = self.rv(symbol_table@);
                        assert(s2 =~= match *keyword {
                            Keywords::True => st.emit("la  a0, string_1"@),
                            Keywords::False => st.emit("la  a0, string_0"@),
                            _ => st,
                        });
                        self.code_line("call print_string");
                        assert(self.rv(symbol_table@) =~= s2.emit("call print_string"@));
                    },
                    _ => {},
                }
            },
            SyntaxTreeNode::NonTerminalAst(nt) => {
                match nt {
                    NonTerminalsAst::Add => {
                        if !self.code_gen_add(ast, c, symbol_table, true) {
                            return false;
                        }
                        let ghost s2 = self.rv(symbol_table@);
                        self.code_line("mv  a0, t0");
                        self.code_line("call print_int");
                        assert(self.rv(symbol_table@) =~= s2.emit("mv  a0, t0"@).emit("call print_int"@));
                    },
                    NonTerminalsAst::IsEq | NonTerminalsAst::NotEq => {
                        let is_eq = matches!(nt, NonTerminalsAst::IsEq);
                        self.code_gen_compare(ast, c, symbol_table, is_eq);
                        let ghost s2 = self.rv(symbol_table@);
                        self.code_line("call print_boolean");
                        assert(self.rv(symbol_table@) =~= s2.emit("call print_boolean"@));
                    },
                    _ => {},
                }
            },
            _ => {},
        }
        let ghost s1 = self.rv(symbol_table@);
        self.code_line("call print_new_line");
        assert(self.rv(symbol_table@) =~= s1.emit("call print_new_line"@));
        true
    }

    /// Code for an addition: the sum ends in t0 for the outermost addition
    /// and in t1 for a nested one.
    fn code_gen_add(&mut self, ast: &SyntaxTree, a: usize, symbol_table: &mut SymbolTable, is_first: bool) -> (r: bool)
        requires
            ast@.wf(),
            a < ast@.nodes.len(),
            old(symbol_table)@.wf(),
        ensures
            old(self).grows_to(&*final(self)),
            final(symbol_table)@.wf(),
            final(self).rv(final(symbol_table)@) == rv_add(ast@, a as int, old(self).rv(old(symbol_table)@), is_first).0,
            r == rv_add(ast@, a as int, old(self).rv(old(symbol_table)@), is_first).1,
        decreases ast@.nodes.len() - a,
    {
        let ghost st = self.rv(symbol_table@);
        let kids = ast.children(a);
        let (right_index, left_index) = match (kid_exec(ast, &kids, a, 0), kid_exec(ast, &kids, a, 1)) {
            (Some(rk), Some(l)) => (rk, l),
            _ => {
                return false;
            },
        };
        match ast.node(right_index) {
            SyntaxTreeNode::Terminal(token) => {
                match &token.token_type {
                    TokenType::Digit(num) => {
                        self.code_owned(numbered_line("li  t1, ", *num as usize, ""));
                        assert(self.rv(symbol_table@) =~= st.emit(num_line("li  t1, "@, *num as nat, ""@)));
                    },
                    TokenType::Identifier(id_name) => {
                        let entry = match Self::symbol_of(symbol_table, token.text.as_str()) {
                            Some(e) => e,
                            None => {
                                return false;
                            },
                        };
                        self.code_owned(variable_line("la  t2, ", id_name.as_str(), entry.scope, ""));
                        self.code_line("lbu  t1, 0(t2)");
                        assert(self.rv(symbol_table@) =~= st.emit(var_line("la  t2, "@, id_name@, entry.scope, ""@)).emit(
                            "lbu  t1, 0(t2)"@,
                        ));
                    },
                    _ => {},
                }
            },
            SyntaxTreeNode::NonTerminalAst(_) => {
                if !self.code_gen_add(ast, right_index, symbol_table, false) {
                    return false;
                }
            },
            _ => {},
        }
        let ghost s1 = self.rv(symbol_table@);
        match ast.node(left_index) {
            SyntaxTreeNode::Terminal(token) => {
                match &token.token_type {
                    TokenType::Digit(num) => {
                        self.code_owned(numbered_line("li  t0, ", *num as usize, ""));
                        if is_first {
                            self.code_line("add  t0, t0, t1");
                        } else {
                            self.code_line("add  t1, t0, t1");
                        }
                        assert(self.rv(symbol_table@) =~= s1.emit(num_line("li  t0, "@, *num as nat, ""@)).emit(
                            if is_first {
                                "add  t0, t0, t1"@
                            } else {
                                "add  t1, t0, t1"@
                            },
                        ));
                    },
                    _ => {},
                }
            },
            _ => {},
        }
        true
    }

    /// Load a leaf value into a register: a variable, a digit, a string's
    /// address or a boolean.
    fn load_leaf(&mut self, token_type: &TokenType, text: &str, symbol_table: &SymbolTable, reg_is_a1: bool) -> (r: bool)
        requires
            symbol_table@.wf(),
        ensures
            old(self).grows_to(&*final(self)),
            final(self).rv(symbol_table@) == rv_load_leaf(old(self).rv(symbol_table@), token_type@, text@, reg_is_a1).0,
            r == rv_load_leaf(old(self).rv(symbol_table@), token_type@, text@, reg_is_a1).1,
    {
        let ghost t = symbol_table@;
        match token_type {
            TokenType::Identifier(id_name) => {
                if reg_is_a1 {
                    self.load_variable(symbol_table, text, id_name.as_str(), "la  t0, ", "lbu  a1, 0(t0)", "lwu  a1, 0(t0)")
                } else {
                    self.load_variable(symbol_table, text, id_name.as_str(), "la  t0, ", "lbu  a0, 0(t0)", "lwu  a0, 0(t0)")
                }
            },
            TokenType::Digit(num) => {
                let prefix = if reg_is_a1 {
                    "li  a1, "
                } else {
                    "li  a0, "
                };
                self.code_owned(numbered_line(prefix, *num as usize, ""));
                assert(self.rv(t) =~= rv_load_leaf(old(self).rv(t), token_type@, text@, reg_is_a1).0);
                true
            },
            TokenType::Char(string) => {
                let index = self.store_string(string.as_str());
                let ghost mid = self.rv(t);
                let prefix = if reg_is_a1 {
                    "la  a1, string_"
                } else {
                    "la  a0, string_"
                };
                self.code_owned(numbered_line(prefix, index, ""));
                assert(self.rv(t) =~= mid.emit(prefix@ + dec(index as nat) + ""@));
                true
            },
            TokenType::Keyword(Keywords::True) => {
                self.code_line(
                    if reg_is_a1 {
                        "li  a1, 1"
                    } else {
                        "li  a0, 1"
                    },
                );
                assert(self.rv(t) =~= rv_load_leaf(old(self).rv(t), token_type@, text@, reg_is_a1).0);
                true
            },
            TokenType::Keyword(Keywords::False) => {
                self.code_line(
                    if reg_is_a1 {
                        "li  a1, 0"
                    } else {
                        "li  a0, 0"
                    },
                );
                assert(self.rv(t) =~= rv_load_leaf(old(self).rv(t), token_type@, text@, reg_is_a1).0);
                true
            },
            _ => true,
        }
    }

    /// Code for a comparison: the left side into a0, the right into a1 (a
    /// nested right side saves a0 on the stack), then the comparison
    /// subroutine, which leaves the result in a0.
    fn code_gen_compare(&mut self, ast: &SyntaxTree, a: usize, symbol_table: &mut SymbolTable, is_eq: bool) -> (r: bool)
        requires
            ast@.wf(),
            a < ast@.nodes.len(),
            old(symbol_table)@.wf(),
        ensures
            old(self).grows_to(&*final(self)),
            final(symbol_table)@.wf(),
            final(self).rv(final(symbol_table)@) == rv_compare(ast@, a as int, old(self).rv(old(symbol_table)@), is_eq).0,
            r == rv_compare(ast@, a as int, old(self).rv(old(symbol_table)@), is_eq).1,
        decreases ast@.nodes.len() - a,
    {
        let ghost st = self.rv(symbol_table@);
        let kids = ast.children(a);
        let (right_index, left_index) = match (kid_exec(ast, &kids, a, 0), kid_exec(ast, &kids, a, 1)) {
            (Some(rk), Some(l)) => (rk, l),
            _ => {
                return false;
            },
        };
        match ast.node(left_index) {
            SyntaxTreeNode::Terminal(token) => {
                if !self.load_leaf(&token.token_type, token.text.as_str(), symbol_table, false) {
                    return false;
                }
            },
            SyntaxTreeNode::NonTerminalAst(nt) => {
                match nt {
                    NonTerminalsAst::Add => {
                        self.code_gen_add(ast, left_index, symbol_table, true);
                        self.code_line("mv  a0, t0");
                        assert(self.rv(symbol_table@) =~= rv_add(ast@, left_index as int, st, true).0.emit("mv  a0, t0"@));
                    },
                    NonTerminalsAst::IsEq | NonTerminalsAst::NotEq => {
                        let inner_eq = matches!(nt, NonTerminalsAst::IsEq);
                        if !self.code_gen_compare(ast, left_index, symbol_table, inner_eq) {
                            return false;
                        }
                    },
                    _ => {},
                }
            },
            _ => {},
        }
        let ghost s1 = self.rv(symbol_table@);
        match ast.node(right_index) {
            SyntaxTreeNode::Terminal(token) => {
                if !self.load_leaf(&token.token_type, token.text.as_str(), symbol_table, true) {
                    return false;
                }
            },
            SyntaxTreeNode::NonTerminalAst(nt) => {
                self.code_line("addi  sp, sp, -1");
                self.code_line("sb  a0, 0(sp)");
                let ghost s2 = self.rv(symbol_table@);
                assert(s2 =~= s1.emit("addi  sp, sp, -1"@).emit("sb  a0, 0(sp)"@));
                match nt {
                    NonTerminalsAst::Add => {
                        self.code_gen_add(ast, right_index, symbol_table, true);
                        self.code_line("mv  a1, t0");
                        assert(self.rv(symbol_table@) =~= rv_add(ast@, right_index as int, s2, true).0.emit("mv  a1, t0"@));
                    },
                    NonTerminalsAst::IsEq | NonTerminalsAst::NotEq => {
                        let inner_eq = matches!(nt, NonTerminalsAst::IsEq);
                        self.code_gen_compare(ast, right_index, symbol_table, inner_eq);
                        self.code_line("mv  a1, a0");
                        assert(self.rv(symbol_table@) =~= rv_compare(ast@, right_index as int, s2, inner_eq).0.emit(
                            "mv  a1, a0"@,
                        ));
                    },
                    _ => {},
                }
                let ghost s4 = self.rv(symbol_table@);
                self.code_line("lbu  a0, 0(sp)");
                self.code_line("addi  sp, sp, 1");
                assert(self.rv(symbol_table@) =~= s4.emit("lbu  a0, 0(sp)"@).emit("addi  sp, sp, 1"@));
            },
            _ => {},
        }
        let ghost s3 = self.rv(symbol_table@);
        if is_eq {
            self.code_line("call compare_eq");
        } else {
            self.code_line("call compare_neq");
        }
        assert(self.rv(symbol_table@) =~= s3.emit(
            if is_eq {
                "call compare_eq"@
            } else {
                "call compare_neq"@
            },
        ));
        true
    }

    /// Code for an if statement: skip the body to the end label when the
    /// condition is false; a false condition generates nothing.
    fn code_gen_if(&mut self, ast: &SyntaxTree, a: usize, symbol_table: &mut SymbolTable) -> (r: bool)
        requires
            ast@.wf(),
            a < ast@.nodes.len(),
            old(symbol_table)@.wf(),
        ensures
            old(self).grows_to(&*final(self)),
            final(symbol_table)@.wf(),
            final(self).rv(final(symbol_table)@) == rv_if(ast@, a as int, old(self).rv(old(symbol_table)@)).0,
            r == rv_if(ast@, a as int, old(self).rv(old(symbol_table)@)).1,
        decreases ast@.nodes.len() - a,
    {
        let ghost st = self.rv(symbol_table@);
        let kids = ast.children(a);
        let (body_index, cond_index) = match (kid_exec(ast, &kids, a, 0), kid_exec(ast, &kids, a, 1)) {
            (Some(b), Some(c)) => (b, c),
            _ => {
                return false;
            },
        };
        let if_index: usize = self.if_count;
        match ast.node(cond_index) {
            SyntaxTreeNode::NonTerminalAst(nt) => {
                match nt {
                    NonTerminalsAst::IsEq | NonTerminalsAst::NotEq => {
                        let is_eq = matches!(nt, NonTerminalsAst::IsEq);
                        if !self.code_gen_compare(ast, cond_index, symbol_table, is_eq) {
                            return false;
                        }
                    },
                    _ => {},
                }
                if self.if_count == usize::MAX {
                    return false;
                }
                let ghost s2 = self.rv(symbol_table@);
                self.code_owned(numbered_line("beq  a0, zero, if_end_", if_index, ""));
                self.if_count = self.if_count + 1;
                assert(self.rv(symbol_table@) =~= RvState {
                    ifs: (s2.ifs + 1) as usize,
                    ..s2.emit(num_line("beq  a0, zero, if_end_"@, if_index as nat, ""@))
                });
            },
            SyntaxTreeNode::Terminal(token) => {
                if token.token_type.is_keyword(Keywords::False) {
                    return true;
                }
            },
            _ => {},
        }
        let ghost s1 = self.rv(symbol_table@);
        if !self.code_gen_block(ast, body_index, symbol_table) {
            return false;
        }
        let ghost s3 = self.rv(symbol_table@);
        if if_index != self.if_count {
            self.code_owned(numbered_line("if_end_", if_index, ":"));
            assert(self.rv(symbol_table@) =~= s3.emit(num_line("if_end_"@, if_index as nat, ":"@)));
        }
        true
    }

    /// Code for a while statement: a start label, the condition with a
    /// branch to the end label, the body, and a jump back; a false
    /// condition generates only the start label.
    fn code_gen_while(&mut self, ast: &SyntaxTree, a: usize, symbol_table: &mut SymbolTable) -> (r: bool)
        requires
            ast@.wf(),
            a < ast@.nodes.len(),
            old(symbol_table)@.wf(),
        ensures
            old(self).grows_to(&*final(self)),
            final(symbol_table)@.wf(),
            final(self).rv(final(symbol_table)@) == rv_while(ast@, a as int, old(self).rv(old(symbol_table)@)).0,
            r == rv_while(ast@, a as int, old(self).rv(old(symbol_table)@)).1,
        decreases ast@.nodes.len() - a,
    {
        let ghost st = self.rv(symbol_table@);
        let kids = ast.children(a);
        let (body_index, cond_index) = match (kid_exec(ast, &kids, a, 0), kid_exec(ast, &kids, a, 1)) {
            (Some(b), Some(c)) => (b, c),
            _ => {
                return false;
            },
        };
        if self.while_count == usize::MAX {
            return false;
        }
        let while_index: usize = self.while_count;
        self.while_count = self.while_count + 1;
        self.code_owned(numbered_line("while_start_", while_index, ":"));
        let ghost s0 = self.rv(symbol_table@);
        assert(s0 =~= RvState { whiles: (st.whiles + 1) as usize, ..st }.emit(
            num_line("while_start_"@, while_index as nat, ":"@),
        ));
        match ast.node(cond_index) {
            SyntaxTreeNode::NonTerminalAst(nt) => {
                match nt {
                    NonTerminalsAst::IsEq | NonTerminalsAst::NotEq => {
                        let is_eq = matches!(nt, NonTerminalsAst::IsEq);
                        if !self.code_gen_compare(ast, cond_index, symbol_table, is_eq) {
                            return false;
                        }
                    },
                    _ => {},
                }
                let ghost s2 = self.rv(symbol_table@);
                self.code_owned(numbered_line("beq  a0, zero, while_end_", while_index, ""));
                assert(self.rv(symbol_table@) =~= s2.emit(num_line("beq  a0, zero, while_end_"@, while_index as nat, ""@)));
            },
            SyntaxTreeNode::Terminal(token) => {
                if token.token_type.is_keyword(Keywords::False) {
                    return true;
                }
            },
            _ => {},
        }
        if !self.code_gen_block(ast, body_index, symbol_table) {
            return false;
        }
        let ghost s3 = self.rv(symbol_table@);
        self.code_owned(numbered_line("j  while_start_", while_index, ""));
        self.code_owned(numbered_line("while_end_", while_index, ":"));
        assert(self.rv(symbol_table@) =~= s3.emit(num_line("j  while_start_"@, while_index as nat, ""@)).emit(
            num_line("while_end_"@, while_index as nat, ":"@),
        ));
        true
    }

    /// Generate the RISC-V assembly of an analyzed AST (the symbol table is
    /// the one semantic analysis built for it): the program's code, the exit
    /// and the print and compare subroutines, then the static variables and
    /// the heap data, which starts with a line break, a digit buffer and the
    /// strings "false" (label 0) and "true" (label 1).
    pub fn generate_code(&mut self, ast: &SyntaxTree, symbol_table: &mut SymbolTable) -> (r: String)
        requires
            ast@.wf(),
            old(symbol_table)@.wf(),
        ensures
            final(symbol_table)@.wf(),
            r@ == final(self).output(),
            r@ == rv_output(rv_program(ast@, old(symbol_table)@)),
            final(symbol_table)@ == rv_program(ast@, old(symbol_table)@).table,
            program_header().is_prefix_of(r@),
            final(self).heap().len() >= 8,
            final(self).heap().take(8) == heap_preamble() + string_lines(0, "false"@) + string_lines(
                1,
                "true"@,
            ),
            final(self).code().len() >= runtime_lines().len(),
            final(self).code().skip(final(self).code().len() - runtime_lines().len()) == runtime_lines(),
    {
        *self = CodeGeneratorRiscV::new();
        push_line(&mut self.heap_arr, "new_line: .ascii \"\\n\"");
        push_line(&mut self.heap_arr, "print_int_char: .byte 0");
        proof {
            reveal_strlit("false");
            reveal_strlit("true");
            assert(self.heap() =~= heap_preamble());
        }
        self.store_string("false");
        proof {
            assert(self.string_history@.len() == 1);
        }
        assert(!(exists|k: int| 0 <= k < self.string_history@.len() && (#[trigger] self.string_history@[k]).0@ == "true"@)) by {
            assert(self.string_history@[0].0@ == "false"@);
        }
        self.store_string("true");
        let ghost start = *self;
        assert(start.heap() =~= heap_preamble() + string_lines(0, "false"@) + string_lines(1, "true"@));
        assert(start.rv(symbol_table@) =~= rv_start(symbol_table@)) by {
            reveal_strlit("false");
            reveal_strlit("true");
            assert(start.string_history@.map_values(|p: (String, usize)| (p.0@, p.1)) =~= seq![
                ("false"@, 0usize),
                ("true"@, 1usize),
            ]);
        }
        match ast.root_index() {
            Some(root) => {
                self.code_gen_block(ast, root, symbol_table);
            },
            None => {},
        }
        let ghost body = self.code();
        let ghost done = self.rv(symbol_table@);
        assert(done == rv_program(ast@, old(symbol_table)@));
        self.add_exit_code();
        self.add_print_int_code();
        self.add_print_string_code();
        self.add_print_boolean_code();
        self.add_print_new_line_code();
        self.add_compare_eq_code();
        self.add_compare_neq_code();
        proof {
            assert(self.heap() == start.heap() || extends(start.heap(), self.heap()));
            assert(self.heap().take(8) =~= start.heap());
            assert(self.code() =~= body + runtime_lines());
            assert(self.code().skip(self.code().len() - runtime_lines().len()) =~= runtime_lines());
        }
        let out = self.create_output_string();
        proof {
            assert(out@.subrange(0, program_header().len() as int) =~= program_header());
            assert(self.statics() == done.statics);
            assert(self.heap() == done.heap);
            assert(out@ =~= rv_output(done));
        }
        out
    }
}

} // verus!
