use vstd::prelude::*;

use crate::nexus::code_generator::{CodeGenBytes, IMAGE_SIZE, stored_bytes};
use crate::nexus::semantic_analyzer::kid;
use crate::nexus::symbol_table::{SpecSymbolTable, Type, visible_entry};
use crate::nexus::syntax_tree::SpecTree;
use crate::nexus::syntax_tree_node::{NonTerminalsAst, SpecSyntaxTreeNode};
use crate::nexus::token::{Keywords, SpecTokenType};

verus! {

// ---------------------------------------------------------------------------
// What the 6502 generator does, step by step. Every step either succeeds
// with the next state or fails (memory is full, or the tree or the symbol
// table is not one semantic analysis produced); a failure ends generation.
// ---------------------------------------------------------------------------
/// The state the 6502 generator threads through the tree: the image cells,
/// the code and heap pointers, the static variables (identifier, scope,
/// offset), the temporaries in use, the stored strings with their
/// addresses, the branch offsets, the last scope entered and the symbol
/// table.
#[verifier::ext_equal]
pub struct CgState {
    pub cells: Seq<CodeGenBytes>,
    pub cp: u8,
    pub hp: u8,
    pub statics: Seq<(Seq<char>, usize, usize)>,
    pub temps: usize,
    pub strings: Seq<(Seq<char>, u8)>,
    pub jumps: Seq<u8>,
    pub max_scope: usize,
    pub table: SpecSymbolTable,
}

impl CgState {
    /// Whether code, variables and temporaries still fit below the heap.
    pub open spec fn available(self) -> bool {
        &&& self.statics.len() <= IMAGE_SIZE
        &&& self.temps <= IMAGE_SIZE
        &&& self.cp + self.statics.len() + self.temps <= self.hp
    }

    /// A cell put at the code pointer, which moves on.
    pub open spec fn put(self, cell: CodeGenBytes) -> CgState {
        CgState { cells: self.cells.update(self.cp as int, cell), cp: (self.cp + 1) as u8, ..self }
    }
}

/// The outcome of a step: the state it leaves when it succeeds.
pub open spec fn outcome(ok: bool, st: CgState) -> Option<CgState> {
    if ok {
        Some(st)
    } else {
        None
    }
}

/// A byte of code.
pub open spec fn cg_add_code(st: CgState, b: u8) -> Option<CgState> {
    if st.available() {
        Some(st.put(CodeGenBytes::Code(b)))
    } else {
        None
    }
}

/// An address placeholder (a variable or a temporary) and its high-order
/// byte.
pub open spec fn cg_add_address(st: CgState, cell: CodeGenBytes) -> Option<CgState> {
    if st.available() && st.put(cell).available() {
        Some(st.put(cell).put(CodeGenBytes::HighOrderByte))
    } else {
        None
    }
}

/// One more temporary: the state and its index.
pub open spec fn cg_new_temp(st: CgState) -> Option<(CgState, usize)> {
    if st.available() {
        Some((CgState { temps: (st.temps + 1) as usize, ..st }, st.temps))
    } else {
        None
    }
}

/// The most recent temporary given back.
pub open spec fn cg_release_temp(st: CgState) -> CgState {
    CgState {
        temps: if st.temps > 0 {
            (st.temps - 1) as usize
        } else {
            0
        },
        ..st
    }
}

/// A byte of data at the heap pointer, which moves down.
pub open spec fn cg_add_data(st: CgState, d: u8) -> Option<CgState> {
    if st.hp > 0 && st.available() {
        Some(CgState { cells: st.cells.update(st.hp as int, CodeGenBytes::Data(d)), hp: (st.hp - 1) as u8, ..st })
    } else {
        None
    }
}

/// A branch offset placeholder, with a new branch offset (zero until it is
/// known).
pub open spec fn cg_add_jump(st: CgState) -> Option<CgState> {
    if st.available() {
        Some(CgState { jumps: st.jumps.push(0u8), ..st }.put(CodeGenBytes::Jump(st.jumps.len() as usize)))
    } else {
        None
    }
}

/// Bytes of code, one after another.
pub open spec fn cg_emit(st: CgState, codes: Seq<u8>) -> Option<CgState>
    decreases codes.len(),
{
    if codes.len() == 0 {
        Some(st)
    } else {
        match cg_add_code(st, codes[0]) {
            Some(s1) => cg_emit(s1, codes.drop_first()),
            None => None,
        }
    }
}

/// Bytes of code followed by an address placeholder.
pub open spec fn cg_op_addr(st: CgState, codes: Seq<u8>, cell: CodeGenBytes) -> Option<CgState> {
    match cg_emit(st, codes) {
        Some(s1) => cg_add_address(s1, cell),
        None => None,
    }
}

/// The accumulator stored at a new temporary and loaded back through
/// another instruction (`load`), the temporary given back.
pub open spec fn cg_through_temp(st: CgState, load: u8) -> Option<CgState> {
    match cg_new_temp(st) {
        Some((s1, tmp)) => match cg_op_addr(s1, seq![0x8Du8], CodeGenBytes::Temp(tmp)) {
            Some(s2) => match cg_op_addr(s2, seq![load], CodeGenBytes::Temp(tmp)) {
                Some(s3) => Some(cg_release_temp(s3)),
                None => None,
            },
            None => None,
        },
        None => None,
    }
}

/// The address of the first stored string equal to `s`, from `i` on.
pub open spec fn cg_find_string(h: Seq<(Seq<char>, u8)>, s: Seq<char>, i: int) -> Option<u8>
    decreases h.len() - i,
{
    if !(0 <= i < h.len()) {
        None
    } else if h[i].0 == s {
        Some(h[i].1)
    } else {
        cg_find_string(h, s, i + 1)
    }
}

/// Bytes of data put on the heap, the last first.
pub open spec fn cg_store_bytes(st: CgState, bytes: Seq<u8>) -> Option<CgState>
    decreases bytes.len(),
{
    if bytes.len() == 0 {
        Some(st)
    } else {
        match cg_add_data(st, bytes.last()) {
            Some(s1) => cg_store_bytes(s1, bytes.drop_last()),
            None => None,
        }
    }
}

/// A string on the heap (unless it is there already): the state and its
/// address.
pub open spec fn cg_store_string(st: CgState, s: Seq<char>) -> Option<(CgState, u8)> {
    match cg_find_string(st.strings, s, 0) {
        Some(a) => Some((st, a)),
        None => match cg_store_bytes(st, stored_bytes(s)) {
            Some(s1) => Some(
                (CgState { strings: s1.strings.push((s, (s1.hp + 1) as u8)), ..s1 }, (s1.hp + 1) as u8),
            ),
            None => None,
        },
    }
}

proof fn lemma_find_after_push(h: Seq<(Seq<char>, u8)>, s: Seq<char>, a: u8, i: int)
    requires
        0 <= i <= h.len(),
        cg_find_string(h, s, i) is None,
    ensures
        cg_find_string(h.push((s, a)), s, i) == Some(a),
    decreases h.len() - i,
{
    if i < h.len() {
        lemma_find_after_push(h, s, a, i + 1);
    }
}

/// A string is stored once: storing it again changes nothing and gives the
/// same address.
pub proof fn lemma_store_string_twice(st: CgState, s: Seq<char>, s1: CgState, a: u8)
    requires
        cg_store_string(st, s) == Some((s1, a)),
    ensures
        cg_store_string(s1, s) == Some((s1, a)),
{
    match cg_find_string(st.strings, s, 0) {
        Some(_) => {},
        None => {
            let s0 = cg_store_bytes(st, stored_bytes(s))->0;
            lemma_store_bytes_keeps_strings(st, stored_bytes(s));
            lemma_find_after_push(s0.strings, s, (s0.hp + 1) as u8, 0);
        },
    }
}

proof fn lemma_store_bytes_keeps_strings(st: CgState, bytes: Seq<u8>)
    requires
        cg_store_bytes(st, bytes) is Some,
    ensures
        cg_store_bytes(st, bytes)->0.strings == st.strings,
    decreases bytes.len(),
{
    if bytes.len() > 0 {
        lemma_store_bytes_keeps_strings(cg_add_data(st, bytes.last())->0, bytes.drop_last());
    }
}

/// The position of the first static variable of an identifier in a scope,
/// from `i` on.
pub open spec fn cg_static_index(t: Seq<(Seq<char>, usize, usize)>, id: Seq<char>, scope: usize, i: int) -> Option<int>
    decreases t.len() - i,
{
    if !(0 <= i < t.len()) {
        None
    } else if t[i].1 == scope && t[i].0 == id {
        Some(i)
    } else {
        cg_static_index(t, id, scope, i + 1)
    }
}

/// The static offset of an identifier in a scope.
pub open spec fn cg_static_lookup(t: Seq<(Seq<char>, usize, usize)>, id: Seq<char>, scope: usize) -> Option<usize> {
    match cg_static_index(t, id, scope, 0) {
        Some(k) => Some(t[k].2),
        None => None,
    }
}

/// The static variables with the offset of an identifier in a scope set.
pub open spec fn cg_static_insert(t: Seq<(Seq<char>, usize, usize)>, id: Seq<char>, scope: usize, off: usize) -> Seq<
    (Seq<char>, usize, usize),
> {
    match cg_static_index(t, id, scope, 0) {
        Some(k) => t.update(k, (id, scope, off)),
        None => t.push((id, scope, off)),
    }
}

/// The static offset of the variable an identifier refers to.
pub open spec fn cg_var_offset(st: CgState, id: Seq<char>) -> Option<usize> {
    match visible_entry(st.table, id) {
        Some(e) => cg_static_lookup(st.statics, id, e.scope),
        None => None,
    }
}

/// The Z flag into the accumulator.
pub open spec fn cg_get_z(st: CgState) -> Option<CgState> {
    cg_emit(st, seq![0xA9u8, 0x00, 0xD0, 0x02, 0xA9, 0x01])
}

/// The address of the stored "true" or "false" into Y.
pub open spec fn cg_load_bool_string(st: CgState, value: bool) -> Option<CgState> {
    match cg_find_string(
        st.strings,
        if value {
            "true"@
        } else {
            "false"@
        },
        0,
    ) {
        Some(a) => cg_emit(st, seq![0xA0u8, a]),
        None => None,
    }
}

/// The address of "true" or "false" into Y, chosen by the Z flag.
pub open spec fn cg_bool_by_z(st: CgState) -> Option<CgState> {
    match cg_emit(st, seq![0xD0u8, 0x07]) {
        Some(s1) => match cg_load_bool_string(s1, true) {
            Some(s2) => match cg_emit(s2, seq![0xECu8, 0xFF, 0x00, 0xD0, 0x02]) {
                Some(s3) => cg_load_bool_string(s3, false),
                None => None,
            },
            None => None,
        },
        None => None,
    }
}

/// A declaration: its static variable, set to zero for integers and
/// booleans.
pub open spec fn cg_var_decl(t: SpecTree, a: int, st: CgState) -> Option<CgState> {
    match kid(t, a, 0) {
        Some(i) => match t.nodes[i as int] {
            SpecSyntaxTreeNode::Terminal(tok) => match st.table.cur_scope {
                Some(cur) => {
                    let off = st.statics.len() as usize;
                    let s1 = CgState { statics: cg_static_insert(st.statics, tok.text, cur, off), ..st };
                    match st.table.lookup(tok.text) {
                        Some((_, e)) => match e.symbol_type {
                            Type::String => Some(s1),
                            _ => cg_op_addr(s1, seq![0xA9u8, 0x00, 0x8D], CodeGenBytes::Var(off)),
                        },
                        None => None,
                    }
                },
                None => None,
            },
            _ => Some(st),
        },
        None => None,
    }
}

/// A leaf value into the accumulator, or into X.
pub open spec fn cg_load_leaf(st: CgState, tt: SpecTokenType, text: Seq<char>, to_x: bool) -> Option<CgState> {
    let load_imm: u8 = if to_x {
        0xA2
    } else {
        0xA9
    };
    let load_mem: u8 = if to_x {
        0xAE
    } else {
        0xAD
    };
    match tt {
        SpecTokenType::Identifier(_) => match cg_var_offset(st, text) {
            Some(off) => cg_op_addr(st, seq![load_mem], CodeGenBytes::Var(off)),
            None => None,
        },
        SpecTokenType::Digit(n) => cg_emit(st, seq![load_imm, n]),
        SpecTokenType::Char(s) => match cg_store_string(st, s) {
            Some((s1, addr)) => cg_emit(s1, seq![load_imm, addr]),
            None => None,
        },
        SpecTokenType::Keyword(kw) => match cg_emit(st, seq![load_imm]) {
            Some(s1) => match kw {
                Keywords::True => cg_emit(s1, seq![0x01u8]),
                Keywords::False => cg_emit(s1, seq![0x00u8]),
                _ => Some(s1),
            },
            None => None,
        },
        _ => Some(st),
    }
}

/// Loading a boolean literal puts 1 (`true`) or 0 (`false`) in the register:
/// the immediate load opcode (`A9` for the accumulator, `A2` for X) and then
/// that byte are written at the code pointer, and it fails only when the two
/// bytes do not fit below the heap.
pub proof fn lemma_load_boolean_literal(st: CgState, b: bool, text: Seq<char>, to_x: bool)
    ensures
        ({
            let kw = if b {
                Keywords::True
            } else {
                Keywords::False
            };
            let op: u8 = if to_x {
                0xA2
            } else {
                0xA9
            };
            let val: u8 = if b {
                1
            } else {
                0
            };
            let s1 = st.put(CodeGenBytes::Code(op));
            &&& cg_load_leaf(st, SpecTokenType::Keyword(kw), text, to_x) is Some <==> (st.available()
                && s1.available())
            &&& cg_load_leaf(st, SpecTokenType::Keyword(kw), text, to_x) is Some ==> cg_load_leaf(
                st,
                SpecTokenType::Keyword(kw),
                text,
                to_x,
            )->0 == s1.put(CodeGenBytes::Code(val))
        }),
{
    let op: u8 = if to_x {
        0xA2
    } else {
        0xA9
    };
    let val: u8 = if b {
        1
    } else {
        0
    };
    let s1 = st.put(CodeGenBytes::Code(op));
    assert(seq![op].drop_first() =~= Seq::<u8>::empty());
    assert(seq![val].drop_first() =~= Seq::<u8>::empty());
    reveal_with_fuel(cg_emit, 2);
    assert(cg_emit(st, seq![op]) == cg_add_code(st, op));
    assert(cg_emit(s1, seq![val]) == cg_add_code(s1, val));
}

/// Loading a digit puts its value in the register: the immediate load opcode
/// (`A9` for the accumulator, `A2` for X) and then the value are written at
/// the code pointer, and it fails only when the two bytes do not fit below
/// the heap.
pub proof fn lemma_load_digit_literal(st: CgState, n: u8, text: Seq<char>, to_x: bool)
    ensures
        ({
            let op: u8 = if to_x {
                0xA2
            } else {
                0xA9
            };
            let s1 = st.put(CodeGenBytes::Code(op));
            &&& cg_load_leaf(st, SpecTokenType::Digit(n), text, to_x) is Some <==> (st.available()
                && s1.available())
            &&& cg_load_leaf(st, SpecTokenType::Digit(n), text, to_x) is Some ==> cg_load_leaf(
                st,
                SpecTokenType::Digit(n),
                text,
                to_x,
            )->0 == s1.put(CodeGenBytes::Code(n))
        }),
{
    let op: u8 = if to_x {
        0xA2
    } else {
        0xA9
    };
    let s1 = st.put(CodeGenBytes::Code(op));
    assert(seq![op, n].drop_first() =~= seq![n]);
    assert(seq![n].drop_first() =~= Seq::<u8>::empty());
    reveal_with_fuel(cg_emit, 3);
}

/// The right operand of an addition: a digit or a variable stored at the
/// temporary, or a nested addition.
pub open spec fn cg_add_right(t: SpecTree, rk: int, s0: CgState, tmp: usize) -> Option<CgState>
    decreases t.nodes.len() - rk, 2int,
{
    match t.nodes[rk] {
        SpecSyntaxTreeNode::Terminal(tok) => {
            let s2 = match tok.token_type {
                SpecTokenType::Digit(n) => cg_emit(s0, seq![0xA9u8, n]),
                SpecTokenType::Identifier(_) => cg_load_leaf(s0, tok.token_type, tok.text, false),
                _ => Some(s0),
            };
            match s2 {
                Some(s2) => cg_op_addr(s2, seq![0x8Du8], CodeGenBytes::Temp(tmp)),
                None => None,
            }
        },
        SpecSyntaxTreeNode::NonTerminalAst(_) => cg_add(t, rk, s0, false),
        _ => Some(s0),
    }
}

/// The left operand of an addition: a digit added to the temporary; the
/// sum stays in the accumulator (outermost) or goes back to the temporary
/// (nested).
pub open spec fn cg_add_left(t: SpecTree, l: int, s1: CgState, tmp: usize, is_first: bool) -> Option<CgState> {
    match t.nodes[l] {
        SpecSyntaxTreeNode::Terminal(tok) => match tok.token_type {
            SpecTokenType::Digit(n) => match cg_op_addr(s1, seq![0xA9u8, n, 0x6D], CodeGenBytes::Temp(tmp)) {
                Some(s3) => if is_first {
                    Some(cg_release_temp(s3))
                } else {
                    cg_op_addr(s3, seq![0x8Du8], CodeGenBytes::Temp(tmp))
                },
                None => None,
            },
            _ => Some(s1),
        },
        _ => Some(s1),
    }
}

/// An addition: the sum into the accumulator, through a temporary that the
/// outermost addition takes and the nested ones share.
pub open spec fn cg_add(t: SpecTree, a: int, st: CgState, is_first: bool) -> Option<CgState>
    decreases t.nodes.len() - a, 1int,
{
    match (kid(t, a, 0), kid(t, a, 1)) {
        (Some(rk), Some(l)) => {
            let start = if is_first {
                cg_new_temp(st)
            } else {
                Some((st, st.temps.wrapping_sub(1)))
            };
            match start {
                Some((s0, tmp)) => match cg_add_right(t, rk as int, s0, tmp) {
                    Some(s1) => cg_add_left(t, l as int, s1, tmp, is_first),
                    None => None,
                },
                None => None,
            }
        },
        _ => None,
    }
}

/// The value of one side of a comparison into the accumulator.
pub open spec fn cg_side_value(t: SpecTree, c: int, st: CgState) -> Option<CgState>
    decreases t.nodes.len() - c, 1int,
{
    match t.nodes[c] {
        SpecSyntaxTreeNode::NonTerminalAst(NonTerminalsAst::Add) => cg_add(t, c, st, true),
        SpecSyntaxTreeNode::NonTerminalAst(NonTerminalsAst::IsEq) => match cg_compare(t, c, st, true) {
            Some(s) => cg_get_z(s),
            None => None,
        },
        SpecSyntaxTreeNode::NonTerminalAst(NonTerminalsAst::NotEq) => match cg_compare(t, c, st, false) {
            Some(s) => cg_get_z(s),
            None => None,
        },
        _ => Some(st),
    }
}

/// One side of a comparison into the accumulator, or (through a
/// temporary) into X.
pub open spec fn cg_compare_side(t: SpecTree, c: int, st: CgState, to_x: bool) -> Option<CgState>
    decreases t.nodes.len() - c, 2int,
{
    match t.nodes[c] {
        SpecSyntaxTreeNode::Terminal(tok) => cg_load_leaf(st, tok.token_type, tok.text, to_x),
        SpecSyntaxTreeNode::NonTerminalAst(_) => match cg_side_value(t, c, st) {
            Some(s1) => if to_x {
                cg_through_temp(s1, 0xAE)
            } else {
                Some(s1)
            },
            None => None,
        },
        _ => Some(st),
    }
}

/// The end of a comparison: X compared with the left side at its
/// temporary, which is given back; for inequality, the Z flag inverted.
pub open spec fn cg_compare_finish(s5: CgState, lt: usize, is_eq: bool) -> Option<CgState> {
    match cg_op_addr(s5, seq![0xECu8], CodeGenBytes::Temp(lt)) {
        Some(s7) => {
            let s8 = cg_release_temp(s7);
            if is_eq {
                Some(s8)
            } else {
                cg_emit(s8, seq![0xA2u8, 0x00, 0xD0, 0x02, 0xA2, 0x01, 0xEC, 0xFF, 0x00])
            }
        },
        None => None,
    }
}

/// A comparison; the Z flag is set when it holds.
pub open spec fn cg_compare(t: SpecTree, a: int, st: CgState, is_eq: bool) -> Option<CgState>
    decreases t.nodes.len() - a, 0int,
{
    match (kid(t, a, 0), kid(t, a, 1)) {
        (Some(rk), Some(l)) => match cg_compare_side(t, l as int, st, false) {
            Some(s1) => match cg_new_temp(s1) {
                Some((s2, lt)) => match cg_op_addr(s2, seq![0x8Du8], CodeGenBytes::Temp(lt)) {
                    Some(s4) => match cg_compare_side(t, rk as int, s4, true) {
                        Some(s5) => cg_compare_finish(s5, lt, is_eq),
                        None => None,
                    },
                    None => None,
                },
                None => None,
            },
            None => None,
        },
        _ => None,
    }
}

/// An assignment: the value into the accumulator, then stored at the
/// variable.
pub open spec fn cg_assign(t: SpecTree, a: int, st: CgState) -> Option<CgState> {
    match (kid(t, a, 0), kid(t, a, 1)) {
        (Some(v), Some(i)) => {
            let s1 = match t.nodes[v as int] {
                SpecSyntaxTreeNode::Terminal(tok) => match tok.token_type {
                    SpecTokenType::Identifier(_)
                    | SpecTokenType::Digit(_)
                    | SpecTokenType::Char(_)
                    | SpecTokenType::Keyword(Keywords::True)
                    | SpecTokenType::Keyword(Keywords::False) => cg_load_leaf(st, tok.token_type, tok.text, false),
                    _ => Some(st),
                },
                SpecSyntaxTreeNode::NonTerminalAst(NonTerminalsAst::Add) => cg_add(t, v as int, st, true),
                SpecSyntaxTreeNode::NonTerminalAst(NonTerminalsAst::IsEq) => match cg_compare(t, v as int, st, true) {
                    Some(s) => cg_get_z(s),
                    None => None,
                },
                SpecSyntaxTreeNode::NonTerminalAst(NonTerminalsAst::NotEq) => match cg_compare(t, v as int, st, false) {
                    Some(s) => cg_get_z(s),
                    None => None,
                },
                _ => Some(st),
            };
            match s1 {
                Some(s1) => match t.nodes[i as int] {
                    SpecSyntaxTreeNode::Terminal(tok) => match cg_var_offset(s1, tok.text) {
                        Some(off) => cg_op_addr(s1, seq![0x8Du8], CodeGenBytes::Var(off)),
                        None => None,
                    },
                    _ => Some(s1),
                },
                None => None,
            }
        },
        _ => None,
    }
}

/// The print of a variable: Y and X set up by its type.
pub open spec fn cg_print_variable(st: CgState, name: Seq<char>) -> Option<CgState> {
    match visible_entry(st.table, name) {
        Some(e) => match cg_static_lookup(st.statics, name, e.scope) {
            Some(off) => match e.symbol_type {
                Type::Boolean => match cg_op_addr(st, seq![0xA2u8, 0x01, 0xEC], CodeGenBytes::Var(off)) {
                    Some(s2) => match cg_bool_by_z(s2) {
                        Some(s3) => cg_emit(s3, seq![0xA2u8, 0x02]),
                        None => None,
                    },
                    None => None,
                },
                _ => match cg_op_addr(st, seq![0xACu8], CodeGenBytes::Var(off)) {
                    Some(s2) => cg_emit(
                        s2,
                        seq![
                            0xA2u8,
                            if e.symbol_type == Type::Int {
                                0x01u8
                            } else {
                                0x02u8
                            },
                        ],
                    ),
                    None => None,
                },
            },
            None => None,
        },
        None => None,
    }
}

/// The value of a print statement set up in Y and X (X = 1 prints the
/// integer in Y, X = 2 the string at the address in Y).
pub open spec fn cg_print_value(t: SpecTree, c: int, st: CgState) -> Option<CgState> {
    match t.nodes[c] {
        SpecSyntaxTreeNode::Terminal(tok) => match tok.token_type {
            SpecTokenType::Identifier(name) => cg_print_variable(st, name),
            SpecTokenType::Digit(d) => cg_emit(st, seq![0xA0u8, d, 0xA2, 0x01]),
            SpecTokenType::Char(s) => match cg_store_string(st, s) {
                Some((s2, addr)) => cg_emit(s2, seq![0xA0u8, addr, 0xA2, 0x02]),
                None => None,
            },
            SpecTokenType::Keyword(kw) => {
                let s2 = match kw {
                    Keywords::True => cg_load_bool_string(st, true),
                    Keywords::False => cg_load_bool_string(st, false),
                    _ => cg_emit(st, seq![0xA0u8]),
                };
                match s2 {
                    Some(s2) => cg_emit(s2, seq![0xA2u8, 0x02]),
                    None => None,
                }
            },
            _ => Some(st),
        },
        SpecSyntaxTreeNode::NonTerminalAst(NonTerminalsAst::Add) => match cg_add(t, c, st, true) {
            Some(s2) => match cg_through_temp(s2, 0xAC) {
                Some(s3) => cg_emit(s3, seq![0xA2u8, 0x01]),
                None => None,
            },
            None => None,
        },
        SpecSyntaxTreeNode::NonTerminalAst(NonTerminalsAst::IsEq)
        | SpecSyntaxTreeNode::NonTerminalAst(NonTerminalsAst::NotEq) => match cg_compare(
            t,
            c,
            st,
            t.nodes[c] == SpecSyntaxTreeNode::NonTerminalAst(NonTerminalsAst::IsEq),
        ) {
            Some(s2) => match cg_emit(s2, seq![0xA2u8, 0x02]) {
                Some(s3) => cg_bool_by_z(s3),
                None => None,
            },
            None => None,
        },
        _ => Some(st),
    }
}

/// A print statement: its value set up, then the system call.
pub open spec fn cg_print(t: SpecTree, a: int, st: CgState) -> Option<CgState> {
    match kid(t, a, 0) {
        Some(c) => match cg_print_value(t, c as int, st) {
            Some(s1) => cg_emit(s1, seq![0xFFu8]),
            None => None,
        },
        None => None,
    }
}

/// The condition of an if or while: the comparison, a branch placeholder
/// past the body, and (with the state) the address after it and the index
/// of its branch offset; `done` when the condition is the constant false.
pub open spec fn cg_condition(t: SpecTree, cond: int, st: CgState) -> Option<(CgState, u8, usize, bool)> {
    match t.nodes[cond] {
        SpecSyntaxTreeNode::NonTerminalAst(nt) => {
            let s1 = match nt {
                NonTerminalsAst::IsEq => cg_compare(t, cond, st, true),
                NonTerminalsAst::NotEq => cg_compare(t, cond, st, false),
                _ => Some(st),
            };
            match s1 {
                Some(s1) => match cg_emit(s1, seq![0xD0u8]) {
                    Some(s2) => match cg_add_jump(s2) {
                        Some(s3) => Some((s3, s3.cp, s2.jumps.len() as usize, false)),
                        None => None,
                    },
                    None => None,
                },
                None => None,
            }
        },
        SpecSyntaxTreeNode::Terminal(tok) => Some((st, 0u8, 0usize, tok.token_type == SpecTokenType::Keyword(Keywords::False))),
        _ => Some((st, 0u8, 0usize, false)),
    }
}

/// The branch offset at `j` set to the distance from `start` to the code
/// pointer (no branch when `start` is zero).
pub open spec fn cg_set_forward(st: CgState, start: u8, j: usize) -> CgState {
    if start != 0 {
        CgState { jumps: st.jumps.update(j as int, (st.cp - start) as u8), ..st }
    } else {
        st
    }
}

/// An if statement: branch over the body when the condition fails; a false
/// condition generates nothing (and enters none of the body's scopes).
pub open spec fn cg_if(t: SpecTree, a: int, st: CgState) -> Option<CgState>
    decreases t.nodes.len() - a, 1int, 0int,
{
    match (kid(t, a, 0), kid(t, a, 1)) {
        (Some(body), Some(cond)) => match cg_condition(t, cond as int, st) {
            Some((s1, start, j, done)) => if done {
                Some(s1)
            } else {
                match cg_block(t, body as int, s1) {
                    Some(s2) => Some(cg_set_forward(s2, start, j)),
                    None => None,
                }
            },
            None => None,
        },
        _ => None,
    }
}

/// A while statement: the condition, a branch past the loop when it fails,
/// the body, and an unconditional branch back to the condition; a false
/// condition generates nothing (and enters none of the body's scopes).
pub open spec fn cg_while(t: SpecTree, a: int, st: CgState) -> Option<CgState>
    decreases t.nodes.len() - a, 1int, 0int,
{
    match (kid(t, a, 0), kid(t, a, 1)) {
        (Some(body), Some(cond)) => match cg_condition(t, cond as int, st) {
            Some((s1, start, j, done)) => if done {
                Some(s1)
            } else {
                match cg_block(t, body as int, s1) {
                    Some(s2) => match cg_emit(s2, seq![0xA2u8, 0x01, 0xEC, 0xFF, 0x00, 0xD0]) {
                        Some(s3) => match cg_add_jump(s3) {
                            Some(s4) => {
                                let s5 = cg_set_forward(s4, start, j);
                                let dist = (s5.cp - st.cp) as u8;
                                Some(
                                    CgState {
                                        jumps: s5.jumps.update(s3.jumps.len() as int, (!dist).wrapping_add(1)),
                                        ..s5
                                    },
                                )
                            },
                            None => None,
                        },
                        None => None,
                    },
                    None => None,
                }
            },
            None => None,
        },
        _ => None,
    }
}

/// A block: its statements in source order, in the next scope.
pub open spec fn cg_block(t: SpecTree, a: int, st: CgState) -> Option<CgState>
    decreases t.nodes.len() - a, 1int, 0int,
{
    if !(0 <= a < t.nodes.len()) {
        None
    } else {
        let ms: usize = if st.max_scope == usize::MAX {
            0
        } else {
            (st.max_scope + 1) as usize
        };
        if ms >= st.table.scopes.len() {
            None
        } else {
            let s1 = CgState {
                max_scope: ms,
                table: SpecSymbolTable { cur_scope: Some(ms), ..st.table },
                ..st
            };
            match cg_block_kids(t, a, t.children(a as usize).len() as int, s1) {
                Some(s2) => Some(CgState { table: s2.table.end_cur_scope(), ..s2 }),
                None => None,
            }
        }
    }
}

/// The first `k` statements of a block, the last of them first (source
/// order).
pub open spec fn cg_block_kids(t: SpecTree, a: int, k: int, st: CgState) -> Option<CgState>
    decreases t.nodes.len() - a, 0int, k,
{
    if k <= 0 {
        Some(st)
    } else {
        let s1 = match kid(t, a, k - 1) {
            Some(c) => match t.nodes[c as int] {
                SpecSyntaxTreeNode::NonTerminalAst(nt) => match nt {
                    NonTerminalsAst::Block => cg_block(t, c as int, st),
                    NonTerminalsAst::VarDecl => cg_var_decl(t, c as int, st),
                    NonTerminalsAst::Assign => cg_assign(t, c as int, st),
                    NonTerminalsAst::Print => cg_print(t, c as int, st),
                    NonTerminalsAst::If => cg_if(t, c as int, st),
                    NonTerminalsAst::While => cg_while(t, c as int, st),
                    _ => None,
                },
                _ => Some(st),
            },
            None => Some(st),
        };
        match s1 {
            Some(s1) => cg_block_kids(t, a, k - 1, s1),
            None => None,
        }
    }
}

/// The state before any code: an empty image, then "false" and "true" on
/// the heap.
pub open spec fn cg_fresh(table: SpecSymbolTable) -> CgState {
    CgState {
        cells: Seq::new(IMAGE_SIZE as nat, |i: int| CodeGenBytes::Empty),
        cp: 0,
        hp: 0xFE,
        statics: Seq::empty(),
        temps: 0,
        strings: Seq::empty(),
        jumps: Seq::empty(),
        max_scope: usize::MAX,
        table,
    }
}

/// The state with the boolean strings stored.
pub open spec fn cg_start(table: SpecSymbolTable) -> Option<CgState> {
    match cg_store_string(cg_fresh(table), "false"@) {
        Some((s1, _)) => match cg_store_string(s1, "true"@) {
            Some((s2, _)) => Some(s2),
            None => None,
        },
        None => None,
    }
}

/// The state after generating a whole tree: the root block and a final
/// halt.
pub open spec fn cg_program(t: SpecTree, table: SpecSymbolTable) -> Option<CgState> {
    match cg_start(table) {
        Some(s0) => match t.root {
            Some(root) => match cg_block(t, root as int, s0) {
                Some(s1) => cg_add_code(s1, 0x00),
                None => None,
            },
            None => None,
        },
        None => None,
    }
}

/// The final cell at an address: a variable's address is the code end plus
/// its static offset, a temporary's is the heap pointer minus its index, a
/// branch's is its offset, each as code, and the byte after an address is
/// a code zero; code, data and empty cells stay.
pub open spec fn cg_patched_cell(st: CgState, i: int) -> CodeGenBytes {
    if i > 0 && (st.cells[i - 1] is Var || st.cells[i - 1] is Temp) {
        CodeGenBytes::Code(0)
    } else {
        match st.cells[i] {
            CodeGenBytes::Var(o) => CodeGenBytes::Code(st.cp.wrapping_add(o as u8)),
            CodeGenBytes::Temp(o) => CodeGenBytes::Code(st.hp.wrapping_sub(o as u8)),
            CodeGenBytes::Jump(j) => CodeGenBytes::Code(st.jumps[j as int]),
            c => c,
        }
    }
}

/// The final byte at an address.
pub open spec fn cg_patched_byte(st: CgState, i: int) -> u8 {
    cg_patched_cell(st, i).byte()
}

/// The image a state backpatches to.
pub open spec fn cg_image(st: CgState) -> Seq<u8> {
    Seq::new(IMAGE_SIZE as nat, |i: int| cg_patched_byte(st, i))
}

} // verus!
