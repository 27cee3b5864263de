use vstd::prelude::*;

use crate::nexus::semantic_analyzer::{kid, kid_exec};
use crate::nexus::symbol_table::{SpecSymbolTable, SymbolTable, SymbolTableEntry, Type, str_eq};
use crate::nexus::syntax_tree::SyntaxTree;
use crate::nexus::syntax_tree_node::{NonTerminalsAst, SyntaxTreeNode};
use crate::nexus::token::{Keywords, TokenType};
use crate::nexus::code_generator_riscv::push_char;
use crate::nexus::code_image::{
    CgState, cg_add, cg_add_address, cg_add_code, cg_add_data, cg_add_jump, cg_add_left, cg_add_right, cg_assign,
    cg_block, cg_block_kids, cg_bool_by_z, cg_compare, cg_compare_finish, cg_compare_side, cg_condition, cg_emit,
    cg_find_string, cg_fresh, cg_get_z, cg_if, cg_image, cg_load_bool_string, cg_load_leaf, cg_new_temp, cg_op_addr,
    cg_patched_cell, cg_print, cg_print_value, cg_print_variable, cg_program, cg_release_temp, cg_set_forward, cg_side_value,
    cg_start, cg_static_index, cg_static_insert, cg_static_lookup, cg_store_bytes, cg_store_string,
    cg_through_temp, cg_var_decl, cg_var_offset, cg_while, outcome,
};

verus! {

/// One byte of the 256-byte 6502 image while code is generated.
#[derive(Debug, Clone, Copy, PartialEq, Eq, Structural)]
pub enum CodeGenBytes {
    /// Final code in memory.
    Code(u8),
    /// The address of a variable, by its static offset, until backpatching.
    Var(usize),
    /// The address of temporary data, by its index, until backpatching.
    Temp(usize),
    /// A byte nothing has taken.
    Empty,
    /// Data on the heap.
    Data(u8),
    /// A branch offset, by its index among the jumps, until backpatching.
    Jump(usize),
    /// The high-order byte of a variable or temporary address.
    HighOrderByte,
}

impl CodeGenBytes {
    pub open spec fn is_placeholder(self) -> bool {
        ||| self is Var
        ||| self is Temp
        ||| self is Jump
        ||| self is HighOrderByte
    }

    /// The byte this cell holds in the final image.
    pub open spec fn byte(self) -> u8 {
        match self {
            CodeGenBytes::Code(b) => b,
            CodeGenBytes::Data(b) => b,
            _ => 0,
        }
    }
}

/// The number of bytes in the image.
pub const IMAGE_SIZE: usize = 0x100;

/// Generates a 256-byte 6502 executable image from an analyzed AST: code
/// grows up from address 0, variables follow the code, and temporary data
/// and strings grow down from address 0xFE.
pub struct CodeGenerator {
    max_scope: usize,
    code_arr: Vec<CodeGenBytes>,
    code_pointer: u8,
    heap_pointer: u8,
    static_table: Vec<((String, usize), usize)>,
    temp_index: usize,
    string_history: Vec<(String, u8)>,
    jumps: Vec<u8>,
}

/// The bytes of a string as the image stores it: one byte per character.
pub open spec fn char_bytes(s: Seq<char>) -> Seq<u8> {
    s.map_values(|c: char| (c as u32) as u8)
}

/// The top twelve bytes of every image: "true" and "false", each with its
/// terminating zero, then the zero at the last address.
pub open spec fn boolean_strings() -> Seq<u8> {
    seq![0x74u8, 0x72, 0x75, 0x65, 0x00, 0x66, 0x61, 0x6C, 0x73, 0x65, 0x00, 0x00]
}

proof fn lemma_bool_bytes()
    ensures
        stored_bytes("false"@) == seq![0x66u8, 0x61, 0x6C, 0x73, 0x65, 0x00],
        stored_bytes("true"@) == seq![0x74u8, 0x72, 0x75, 0x65, 0x00],
{
    reveal_strlit("false");
    reveal_strlit("true");
    assert(stored_bytes("false"@) =~= seq![0x66u8, 0x61, 0x6C, 0x73, 0x65, 0x00]);
    assert(stored_bytes("true"@) =~= seq![0x74u8, 0x72, 0x75, 0x65, 0x00]);
}

/// The upper-case hexadecimal digit of a number below 16.
pub open spec fn hex_digit(d: nat) -> char {
    if d < 10 {
        ((48 + d) as u8) as char
    } else {
        ((55 + d) as u8) as char
    }
}

/// A byte as two upper-case hexadecimal digits.
pub open spec fn hex_byte(b: u8) -> Seq<char> {
    seq![hex_digit((b / 16) as nat), hex_digit((b % 16) as nat)]
}

/// Bytes as hexadecimal pairs separated by single spaces.
pub open spec fn hex_text(bytes: Seq<u8>) -> Seq<char>
    decreases bytes.len(),
{
    if bytes.len() == 0 {
        Seq::empty()
    } else if bytes.len() == 1 {
        hex_byte(bytes[0])
    } else {
        hex_text(bytes.drop_last()) + seq![' '] + hex_byte(bytes.last())
    }
}

fn hex_char(d: u8) -> (c: char)
    requires
        d < 16,
    ensures
        c == hex_digit(d as nat),
{
    if d < 10 {
        (48u8 + d) as char
    } else {
        (55u8 + d) as char
    }
}

/// The text of an image as the editor shows it: each byte as two upper-case
/// hexadecimal digits, separated by single spaces.
pub fn image_text(image: &Vec<u8>) -> (r: String)
    ensures
        r@ == hex_text(image@),
{
    let mut out = String::new();
    let mut i: usize = 0;
    while i < image.len()
        invariant
            i <= image@.len(),
            out@ == hex_text(image@.take(i as int)),
        decreases image.len() - i,
    {
        let b: u8 = image[i];
        assert(image@.take(i + 1).drop_last() =~= image@.take(i as int));
        if i > 0 {
            push_char(&mut out, ' ');
        }
        push_char(&mut out, hex_char(b / 16));
        push_char(&mut out, hex_char(b % 16));
        proof {
            if i == 0 {
                assert(out@ =~= hex_text(image@.take(1)));
            } else {
                assert(out@ =~= hex_text(image@.take(i + 1)));
            }
        }
        i = i + 1;
    }
    assert(image@.take(i as int) =~= image@);
    out
}

/// Whether a string history holds a string.
pub open spec fn history_has(h: Seq<(String, u8)>, s: Seq<char>) -> bool {
    exists|i: int| 0 <= i < h.len() && (#[trigger] h[i]).0@ == s
}

/// The bytes of a stored string: its characters and a terminating zero.
pub open spec fn stored_bytes(s: Seq<char>) -> Seq<u8> {
    char_bytes(s).push(0u8)
}

/// The layout of an image with code up to `cp` and heap data above `hp`:
/// the space between is empty, the heap holds no placeholder, every jump
/// placeholder names one of `nj` jumps, and every high-order byte follows an
/// address placeholder.
pub open spec fn layout_ok(code: Seq<CodeGenBytes>, cp: int, hp: int, nj: int) -> bool {
    &&& code.len() == IMAGE_SIZE
    &&& 0 <= cp <= hp + 1
    &&& hp <= 0xFE
    &&& forall|i: int| cp <= i <= hp ==> #[trigger] code[i] == CodeGenBytes::Empty
    &&& forall|i: int| hp < i < IMAGE_SIZE ==> !(#[trigger] code[i]).is_placeholder()
    &&& forall|i: int| 0 <= i < IMAGE_SIZE ==> (#[trigger] code[i] matches CodeGenBytes::Jump(j) ==> j < nj)
    &&& forall|i: int|
        0 <= i < IMAGE_SIZE ==> (#[trigger] code[i] is HighOrderByte ==> i > 0 && (code[i - 1] is Var
            || code[i - 1] is Temp))
    &&& forall|i: int|
        0 <= i && i + 1 < cp && (#[trigger] code[i] is Var || code[i] is Temp) ==> code[i + 1] is HighOrderByte
}

/// The last cell of code is not an address placeholder still waiting for its
/// high-order byte.
pub open spec fn clean_at(code: Seq<CodeGenBytes>, cp: int) -> bool {
    cp == 0 || !(code[cp - 1] is Var || code[cp - 1] is Temp)
}

proof fn lemma_put_code(code: Seq<CodeGenBytes>, cp: int, hp: int, nj: int, cell: CodeGenBytes)
    requires
        layout_ok(code, cp, hp, nj),
        clean_at(code, cp),
        cp <= hp,
        cell is Code || cell is Var || cell is Temp || (cell matches CodeGenBytes::Jump(j) && j < nj),
    ensures
        layout_ok(code.update(cp, cell), cp + 1, hp, nj),
{
    let n = code.update(cp, cell);
    assert forall|i: int| 0 <= i < IMAGE_SIZE implies (#[trigger] n[i] is HighOrderByte ==> i > 0 && (
    n[i - 1] is Var || n[i - 1] is Temp)) by {
        if n[i] is HighOrderByte {
            assert(i != cp);
            assert(code[i] is HighOrderByte);
            if i - 1 == cp {
                assert(code[i - 1] == CodeGenBytes::Empty);
            }
        }
    }
}

proof fn lemma_put_high(code: Seq<CodeGenBytes>, cp: int, hp: int, nj: int)
    requires
        layout_ok(code, cp, hp, nj),
        cp <= hp,
        cp > 0,
        code[cp - 1] is Var || code[cp - 1] is Temp,
    ensures
        layout_ok(code.update(cp, CodeGenBytes::HighOrderByte), cp + 1, hp, nj),
{
    let n = code.update(cp, CodeGenBytes::HighOrderByte);
    assert forall|i: int| 0 <= i < IMAGE_SIZE implies (#[trigger] n[i] is HighOrderByte ==> i > 0 && (
    n[i - 1] is Var || n[i - 1] is Temp)) by {
        if n[i] is HighOrderByte && i != cp {
            assert(code[i] is HighOrderByte);
            if i - 1 == cp {
                assert(code[i - 1] == CodeGenBytes::Empty);
            }
        }
    }
}

proof fn lemma_put_data(code: Seq<CodeGenBytes>, cp: int, hp: int, nj: int, d: u8)
    requires
        layout_ok(code, cp, hp, nj),
        cp <= hp,
        hp > 0,
    ensures
        layout_ok(code.update(hp, CodeGenBytes::Data(d)), cp, hp - 1, nj),
{
    let n = code.update(hp, CodeGenBytes::Data(d));
    assert forall|i: int| 0 <= i < IMAGE_SIZE implies (#[trigger] n[i] is HighOrderByte ==> i > 0 && (
    n[i - 1] is Var || n[i - 1] is Temp)) by {
        if n[i] is HighOrderByte {
            assert(i != hp);
            assert(code[i] is HighOrderByte);
            if i - 1 == hp {
                assert(code[i - 1] == CodeGenBytes::Empty);
            }
        }
    }
}

impl CodeGenerator {
    /// The memory layout every generator keeps: a full image, the code below
    /// the heap, placeholders where backpatching can resolve them.
    pub closed spec fn wf(&self) -> bool {
        layout_ok(self.code_arr@, self.code_pointer as int, self.heap_pointer as int, self.jumps@.len() as int)
    }

    /// The last cell of code is not an address waiting for its high-order
    /// byte.
    pub closed spec fn clean(&self) -> bool {
        clean_at(self.code_arr@, self.code_pointer as int)
    }

    /// Code only grows up, the heap only grows down, and neither rewrites
    /// what the other holds.
    pub closed spec fn grows_to(&self, other: &CodeGenerator) -> bool {
        &&& self.code_pointer <= other.code_pointer
        &&& other.heap_pointer <= self.heap_pointer
        &&& self.jumps@.len() <= other.jumps@.len()
        &&& forall|i: int| 0 <= i < self.code_pointer ==> #[trigger] other.code_arr@[i] == self.code_arr@[i]
        &&& forall|i: int|
            self.heap_pointer < i < IMAGE_SIZE ==> #[trigger] other.code_arr@[i] == self.code_arr@[i]
    }

    /// The generation state, with the symbol table it works against. The
    /// steps that do not touch the table state their effect for every
    /// table; naming the state after such a step (`let ghost s = self.cg(t)`)
    /// is what brings that statement to bear on `t`.
    pub closed spec fn cg(&self, table: SpecSymbolTable) -> CgState {
        CgState {
            cells: self.code_arr@,
            cp: self.code_pointer,
            hp: self.heap_pointer,
            statics: self.static_table@.map_values(|e: ((String, usize), usize)| (e.0.0@, e.0.1, e.1)),
            temps: self.temp_index,
            strings: self.string_history@.map_values(|p: (String, u8)| (p.0@, p.1)),
            jumps: self.jumps@,
            max_scope: self.max_scope,
            table,
        }
    }

    /// The image bytes, each cell as the final image holds it.
    pub closed spec fn image(&self) -> Seq<u8> {
        self.code_arr@.map_values(|b: CodeGenBytes| b.byte())
    }

    /// No cell is a placeholder.
    pub closed spec fn resolved(&self) -> bool {
        forall|i: int| 0 <= i < self.code_arr@.len() ==> !(#[trigger] self.code_arr@[i]).is_placeholder()
    }

    /// The address after the last byte of code.
    pub closed spec fn code_end(&self) -> int {
        self.code_pointer as int
    }

    /// Whether code, variables and temporary data still fit below the heap.
    pub closed spec fn available(&self) -> bool {
        &&& self.static_table@.len() <= IMAGE_SIZE
        &&& self.temp_index <= IMAGE_SIZE
        &&& self.code_pointer + self.static_table@.len() + self.temp_index <= self.heap_pointer
    }

    /// Nothing generated yet: an empty image, no variables, temporaries,
    /// strings or jumps.
    pub closed spec fn is_fresh(&self) -> bool {
        &&& self.code_pointer == 0
        &&& self.heap_pointer == 0xFE
        &&& self.static_table@.len() == 0
        &&& self.temp_index == 0
        &&& self.string_history@.len() == 0
        &&& self.jumps@.len() == 0
        &&& self.max_scope == usize::MAX
        &&& self.code_arr@.len() == IMAGE_SIZE
        &&& forall|i: int| 0 <= i < IMAGE_SIZE ==> #[trigger] self.code_arr@[i] == CodeGenBytes::Empty
    }

    /// A generator with an empty image.
    pub fn new() -> (r: Self)
        ensures
            r.wf(),
            r.is_fresh(),
    {
        let mut code_arr: Vec<CodeGenBytes> = Vec::new();
        let mut i: usize = 0;
        while i < IMAGE_SIZE
            invariant
                i <= IMAGE_SIZE,
                code_arr@.len() == i,
                forall|k: int| 0 <= k < i ==> code_arr@[k] == CodeGenBytes::Empty,
            decreases IMAGE_SIZE - i,
        {
            code_arr.push(CodeGenBytes::Empty);
            i = i + 1;
        }
        assert(code_arr@.len() == IMAGE_SIZE);
        CodeGenerator {
            max_scope: usize::MAX,
            code_arr,
            code_pointer: 0,
            heap_pointer: 0xFE,
            static_table: Vec::new(),
            temp_index: 0,
            string_history: Vec::new(),
            jumps: Vec::new(),
        }
    }

    /// Whether code, variables and temporary data still fit below the heap.
    fn has_available_memory(&self) -> (r: bool)
        ensures
            r == self.available(),
    {
        let num_vars: usize = self.static_table.len();
        if num_vars > IMAGE_SIZE || self.temp_index > IMAGE_SIZE {
            return false;
        }
        self.code_pointer as usize + num_vars + self.temp_index <= self.heap_pointer as usize
    }

    /// Put a cell at the code pointer and move it on.
    fn put_code_cell(&mut self, cell: CodeGenBytes)
        requires
            old(self).wf(),
            old(self).clean(),
            old(self).available(),
            cell is Code || cell is Var || cell is Temp || (cell matches CodeGenBytes::Jump(j) && j
                < old(self).jumps@.len()),
        ensures
            final(self).code_arr@ == old(self).code_arr@.update(old(self).code_pointer as int, cell),
            final(self).code_pointer == old(self).code_pointer + 1,
            final(self).heap_pointer == old(self).heap_pointer,
            final(self).static_table == old(self).static_table,
            final(self).temp_index == old(self).temp_index,
            final(self).string_history == old(self).string_history,
            final(self).jumps == old(self).jumps,
            final(self).max_scope == old(self).max_scope,
            final(self).wf(),
            old(self).grows_to(&*final(self)),
    {
        let cp = self.code_pointer;
        proof {
            lemma_put_code(self.code_arr@, cp as int, self.heap_pointer as int, self.jumps@.len() as int, cell);
        }
        self.code_arr.set(cp as usize, cell);
        self.code_pointer = cp + 1;
    }

    /// Add a byte of code; false (nothing changes) when memory is full.
    fn add_code(&mut self, code: u8) -> (r: bool)
        requires
            old(self).wf(),
            old(self).clean(),
        ensures
            final(self).wf(),
            r ==> final(self).clean(),
            old(self).grows_to(&*final(self)),
            r == old(self).available(),
            r ==> final(self).code_arr@ == old(self).code_arr@.update(
                old(self).code_pointer as int,
                CodeGenBytes::Code(code),
            ) && final(self).code_pointer == old(self).code_pointer + 1,
            !r ==> *final(self) == *old(self),
            final(self).heap_pointer == old(self).heap_pointer,
            final(self).static_table == old(self).static_table,
            final(self).temp_index == old(self).temp_index,
            final(self).string_history == old(self).string_history,
            final(self).jumps == old(self).jumps,
            final(self).max_scope == old(self).max_scope,
            forall|t: SpecSymbolTable| #![trigger final(self).cg(t)] cg_add_code(old(self).cg(t), code) == outcome(r, final(self).cg(t)),
    {
        if self.has_available_memory() {
            self.put_code_cell(CodeGenBytes::Code(code));
            assert forall|t: SpecSymbolTable| #[trigger] cg_add_code(old(self).cg(t), code) == outcome(true, self.cg(t)) by {
                assert(self.cg(t) =~= old(self).cg(t).put(CodeGenBytes::Code(code)));
            }
            true
        } else {
            false
        }
    }

    /// Add the placeholder for the high-order byte of an address.
    fn add_high_order_byte(&mut self) -> (r: bool)
        requires
            old(self).wf(),
            old(self).code_pointer > 0,
            old(self).code_arr@[old(self).code_pointer - 1] is Var || old(self).code_arr@[
                old(self).code_pointer - 1] is Temp,
        ensures
            final(self).wf(),
            old(self).grows_to(&*final(self)),
            r == old(self).available(),
            r ==> final(self).code_arr@ == old(self).code_arr@.update(
                old(self).code_pointer as int,
                CodeGenBytes::HighOrderByte,
            ) && final(self).code_pointer == old(self).code_pointer + 1,
            !r ==> *final(self) == *old(self),
            final(self).heap_pointer == old(self).heap_pointer,
            final(self).static_table == old(self).static_table,
            final(self).temp_index == old(self).temp_index,
            final(self).string_history == old(self).string_history,
            final(self).jumps == old(self).jumps,
            final(self).max_scope == old(self).max_scope,
    {
        if self.has_available_memory() {
            let cp = self.code_pointer;
            proof {
                lemma_put_high(self.code_arr@, cp as int, self.heap_pointer as int, self.jumps@.len() as int);
            }
            self.code_arr.set(cp as usize, CodeGenBytes::HighOrderByte);
            self.code_pointer = cp + 1;
            true
        } else {
            false
        }
    }

    /// Add a variable address placeholder (two bytes) for a static offset.
    fn add_var(&mut self, var: usize, Ghost(t): Ghost<SpecSymbolTable>) -> (r: bool)
        requires
            old(self).wf(),
            old(self).clean(),
        ensures
            cg_add_address(old(self).cg(t), CodeGenBytes::Var(var)) == outcome(r, final(self).cg(t)),
            final(self).wf(),
            r ==> final(self).clean(),
            old(self).grows_to(&*final(self)),
            final(self).heap_pointer == old(self).heap_pointer,
            final(self).static_table == old(self).static_table,
            final(self).temp_index == old(self).temp_index,
            final(self).string_history == old(self).string_history,
            final(self).jumps == old(self).jumps,
            final(self).max_scope == old(self).max_scope,
    {
        if self.has_available_memory() {
            self.put_code_cell(CodeGenBytes::Var(var));
            let ghost mid = *self;
            let r = self.add_high_order_byte();
            assert(mid.cg(t) =~= old(self).cg(t).put(CodeGenBytes::Var(var)));
            if r {
                assert(self.cg(t) =~= mid.cg(t).put(CodeGenBytes::HighOrderByte));
            }
            r
        } else {
            false
        }
    }

    /// Add a temporary data address placeholder (two bytes) for a temp index.
    fn add_temp(&mut self, temp: usize, Ghost(t): Ghost<SpecSymbolTable>) -> (r: bool)
        requires
            old(self).wf(),
            old(self).clean(),
        ensures
            cg_add_address(old(self).cg(t), CodeGenBytes::Temp(temp)) == outcome(r, final(self).cg(t)),
            final(self).wf(),
            r ==> final(self).clean(),
            old(self).grows_to(&*final(self)),
            final(self).heap_pointer == old(self).heap_pointer,
            final(self).static_table == old(self).static_table,
            final(self).temp_index == old(self).temp_index,
            final(self).string_history == old(self).string_history,
            final(self).jumps == old(self).jumps,
            final(self).max_scope == old(self).max_scope,
    {
        if self.has_available_memory() {
            self.put_code_cell(CodeGenBytes::Temp(temp));
            let ghost mid = *self;
            let r = self.add_high_order_byte();
            assert(mid.cg(t) =~= old(self).cg(t).put(CodeGenBytes::Temp(temp)));
            if r {
                assert(self.cg(t) =~= mid.cg(t).put(CodeGenBytes::HighOrderByte));
            }
            r
        } else {
            false
        }
    }

    /// Make room for one more byte of temporary data and give its index.
    fn new_temp(&mut self) -> (r: Option<usize>)
        requires
            old(self).wf(),
        ensures
            final(self).wf(),
            final(self).clean() == old(self).clean(),
            old(self).grows_to(&*final(self)),
            r is Some == old(self).available(),
            r matches Some(t) ==> t == old(self).temp_index && final(self).temp_index == t + 1,
            r is None ==> *final(self) == *old(self),
            final(self).code_arr == old(self).code_arr,
            final(self).code_pointer == old(self).code_pointer,
            final(self).heap_pointer == old(self).heap_pointer,
            final(self).static_table == old(self).static_table,
            final(self).string_history == old(self).string_history,
            final(self).jumps == old(self).jumps,
            final(self).max_scope == old(self).max_scope,
            forall|t: SpecSymbolTable| #![trigger final(self).cg(t)] cg_new_temp(old(self).cg(t)) == match r {
                Some(x) => Some((final(self).cg(t), x)),
                None => None,
            },
    {
        if self.has_available_memory() {
            let t = self.temp_index;
            self.temp_index = t + 1;
            assert forall|tb: SpecSymbolTable| #[trigger] cg_new_temp(old(self).cg(tb)) == Some((self.cg(tb), t)) by {
                assert(self.cg(tb) =~= CgState { temps: (t + 1) as usize, ..old(self).cg(tb) });
            }
            Some(t)
        } else {
            None
        }
    }

    /// Give back the most recent byte of temporary data.
    fn release_temp(&mut self)
        requires
            old(self).wf(),
        ensures
            final(self).wf(),
            final(self).clean() == old(self).clean(),
            old(self).grows_to(&*final(self)),
            final(self).temp_index == if old(self).temp_index > 0 {
                old(self).temp_index - 1
            } else {
                0
            },
            forall|t: SpecSymbolTable| #[trigger] final(self).cg(t) == cg_release_temp(old(self).cg(t)),
            final(self).code_arr == old(self).code_arr,
            final(self).code_pointer == old(self).code_pointer,
            final(self).heap_pointer == old(self).heap_pointer,
            final(self).static_table == old(self).static_table,
            final(self).string_history == old(self).string_history,
            final(self).jumps == old(self).jumps,
            final(self).max_scope == old(self).max_scope,
    {
        if self.temp_index > 0 {
            self.temp_index = self.temp_index - 1;
        }
        assert forall|t: SpecSymbolTable| #[trigger] self.cg(t) == cg_release_temp(old(self).cg(t)) by {
            assert(self.cg(t) =~= cg_release_temp(old(self).cg(t)));
        }
    }

    /// Add a byte of data at the heap pointer and move it down; false
    /// (nothing changes) when memory is full.
    fn add_data(&mut self, data: u8) -> (r: bool)
        requires
            old(self).wf(),
        ensures
            final(self).wf(),
            final(self).clean() == old(self).clean(),
            old(self).grows_to(&*final(self)),
            r == (old(self).available() && old(self).heap_pointer > 0),
            forall|t: SpecSymbolTable| #![trigger final(self).cg(t)] cg_add_data(old(self).cg(t), data) == outcome(r, final(self).cg(t)),
            r ==> final(self).code_arr@ == old(self).code_arr@.update(
                old(self).heap_pointer as int,
                CodeGenBytes::Data(data),
            ) && final(self).heap_pointer == old(self).heap_pointer - 1,
            !r ==> *final(self) == *old(self),
            final(self).code_pointer == old(self).code_pointer,
            final(self).static_table == old(self).static_table,
            final(self).temp_index == old(self).temp_index,
            final(self).string_history == old(self).string_history,
            final(self).jumps == old(self).jumps,
            final(self).max_scope == old(self).max_scope,
    {
        if self.heap_pointer > 0 && self.has_available_memory() {
            let hp = self.heap_pointer;
            proof {
                lemma_put_data(self.code_arr@, self.code_pointer as int, hp as int, self.jumps@.len() as int, data);
            }
            self.code_arr.set(hp as usize, CodeGenBytes::Data(data));
            self.heap_pointer = hp - 1;
            assert forall|t: SpecSymbolTable| #[trigger] cg_add_data(old(self).cg(t), data) == outcome(true, self.cg(t)) by {
                assert(self.cg(t) =~= CgState {
                    cells: old(self).code_arr@.update(hp as int, CodeGenBytes::Data(data)),
                    hp: (hp - 1) as u8,
                    ..old(self).cg(t)
                });
            }
            true
        } else {
            false
        }
    }

    /// Add a branch offset placeholder; its offset is filled in later.
    fn add_jump(&mut self) -> (r: bool)
        requires
            old(self).wf(),
            old(self).clean(),
        ensures
            final(self).wf(),
            r ==> final(self).clean(),
            old(self).grows_to(&*final(self)),
            r == old(self).available(),
            r ==> final(self).code_arr@ == old(self).code_arr@.update(
                old(self).code_pointer as int,
                CodeGenBytes::Jump(old(self).jumps@.len() as usize),
            ) && final(self).code_pointer == old(self).code_pointer + 1 && final(self).jumps@
                == old(self).jumps@.push(0),
            forall|t: SpecSymbolTable| #![trigger final(self).cg(t)] cg_add_jump(old(self).cg(t)) == outcome(r, final(self).cg(t)),
            !r ==> *final(self) == *old(self),
            final(self).heap_pointer == old(self).heap_pointer,
            final(self).static_table == old(self).static_table,
            final(self).temp_index == old(self).temp_index,
            final(self).string_history == old(self).string_history,
            final(self).max_scope == old(self).max_scope,
    {
        if self.has_available_memory() {
            let j = self.jumps.len();
            self.jumps.push(0);
            let ghost mid = *self;
            self.put_code_cell(CodeGenBytes::Jump(j));
            assert forall|t: SpecSymbolTable| #[trigger] cg_add_jump(old(self).cg(t)) == outcome(true, self.cg(t)) by {
                assert(mid.cg(t) =~= CgState { jumps: old(self).jumps@.push(0u8), ..old(self).cg(t) });
                assert(self.cg(t) =~= mid.cg(t).put(CodeGenBytes::Jump(j)));
            }
            true
        } else {
            false
        }
    }

    /// Add bytes of code one after another; false as soon as one does not
    /// fit (the earlier ones stay).
    fn emit(&mut self, codes: &[u8]) -> (r: bool)
        requires
            old(self).wf(),
            old(self).clean(),
        ensures
            final(self).wf(),
            r ==> final(self).clean(),
            old(self).grows_to(&*final(self)),
            r ==> final(self).code_pointer == old(self).code_pointer + codes@.len(),
            r ==> forall|k: int|
                0 <= k < codes@.len() ==> #[trigger] final(self).code_arr@[old(self).code_pointer + k]
                    == CodeGenBytes::Code(codes@[k]),
            final(self).heap_pointer == old(self).heap_pointer,
            final(self).static_table == old(self).static_table,
            final(self).temp_index == old(self).temp_index,
            final(self).string_history == old(self).string_history,
            final(self).jumps == old(self).jumps,
            final(self).max_scope == old(self).max_scope,
            forall|t: SpecSymbolTable| #![trigger final(self).cg(t)] cg_emit(old(self).cg(t), codes@) == outcome(r, final(self).cg(t)),
    {
        let mut i: usize = 0;
        assert(codes@.skip(0) =~= codes@);
        while i < codes.len()
            invariant
                i <= codes@.len(),
                forall|t: SpecSymbolTable| #[trigger] cg_emit(old(self).cg(t), codes@) == cg_emit(self.cg(t), codes@.skip(i as int)),
                self.wf(),
                self.clean(),
                old(self).grows_to(&*self),
                self.code_pointer == old(self).code_pointer + i,
                forall|k: int|
                    0 <= k < i ==> #[trigger] self.code_arr@[old(self).code_pointer + k] == CodeGenBytes::Code(
                        codes@[k],
                    ),
                self.heap_pointer == old(self).heap_pointer,
                self.static_table == old(self).static_table,
                self.temp_index == old(self).temp_index,
                self.string_history == old(self).string_history,
                self.jumps == old(self).jumps,
                self.max_scope == old(self).max_scope,
            decreases codes.len() - i,
        {
            let ghost before = *self;
            if !self.add_code(codes[i]) {
                assert forall|t: SpecSymbolTable| #[trigger] cg_emit(old(self).cg(t), codes@) == outcome(false, self.cg(t)) by {
                    assert(codes@.skip(i as int)[0] == codes@[i as int]);
                    assert(cg_add_code(before.cg(t), codes@[i as int]) is None);
                }
                return false;
            }
            assert forall|t: SpecSymbolTable| #[trigger] cg_emit(old(self).cg(t), codes@) == cg_emit(
                self.cg(t),
                codes@.skip(i + 1),
            ) by {
                assert(codes@.skip(i as int)[0] == codes@[i as int]);
                assert(codes@.skip(i as int).drop_first() =~= codes@.skip(i + 1));
                assert(cg_add_code(before.cg(t), codes@[i as int]) == Some(self.cg(t)));
            }
            i = i + 1;
        }
        assert forall|t: SpecSymbolTable| #[trigger] cg_emit(old(self).cg(t), codes@) == outcome(true, self.cg(t)) by {
            assert(codes@.skip(i as int).len() == 0);
        }
        true
    }

    /// Bytes of code followed by a variable's address placeholder.
    fn emit_var(&mut self, codes: &[u8], var: usize, Ghost(t): Ghost<SpecSymbolTable>) -> (r: bool)
        requires
            old(self).wf(),
            old(self).clean(),
        ensures
            cg_op_addr(old(self).cg(t), codes@, CodeGenBytes::Var(var)) == outcome(r, final(self).cg(t)),
            final(self).wf(),
            r ==> final(self).clean(),
            old(self).grows_to(&*final(self)),
    {
        let ok = self.emit(codes);
        let ghost s1 = self.cg(t);
        if !ok {
            return false;
        }
        self.add_var(var, Ghost(t))
    }

    /// Bytes of code followed by a temporary's address placeholder.
    fn emit_temp(&mut self, codes: &[u8], temp: usize, Ghost(t): Ghost<SpecSymbolTable>) -> (r: bool)
        requires
            old(self).wf(),
            old(self).clean(),
        ensures
            cg_op_addr(old(self).cg(t), codes@, CodeGenBytes::Temp(temp)) == outcome(r, final(self).cg(t)),
            final(self).wf(),
            r ==> final(self).clean(),
            old(self).grows_to(&*final(self)),
    {
        let ok = self.emit(codes);
        let ghost s1 = self.cg(t);
        if !ok {
            return false;
        }
        self.add_temp(temp, Ghost(t))
    }

    /// Store the accumulator at a new temporary and load it back with the
    /// instruction `load`; the temporary is given back.
    fn through_temp(&mut self, load: u8, Ghost(t): Ghost<SpecSymbolTable>) -> (r: bool)
        requires
            old(self).wf(),
            old(self).clean(),
        ensures
            cg_through_temp(old(self).cg(t), load) == outcome(r, final(self).cg(t)),
            final(self).wf(),
            r ==> final(self).clean(),
            old(self).grows_to(&*final(self)),
    {
        let tmp = match self.new_temp() {
            Some(x) => x,
            None => {
                let ghost s1 = self.cg(t);
                return false;
            },
        };
        let ghost s1 = self.cg(t);
        let store = [0x8Du8];
        assert(store@ =~= seq![0x8Du8]);
        if !self.emit_temp(&store, tmp, Ghost(t)) {
            return false;
        }
        let ghost s2 = self.cg(t);
        let codes = [load];
        assert(codes@ =~= seq![load]);
        if !self.emit_temp(&codes, tmp, Ghost(t)) {
            return false;
        }
        self.release_temp();
        let ghost s3 = self.cg(t);
        true
    }

    /// The heap address of a string already stored, if any.
    fn find_string(&self, string: &str) -> (r: Option<u8>)
        ensures
            r is None <==> !history_has(self.string_history@, string@),
            r == cg_find_string(self.string_history@.map_values(|p: (String, u8)| (p.0@, p.1)), string@, 0),
    {
        let ghost h = self.string_history@.map_values(|p: (String, u8)| (p.0@, p.1));
        let mut k: usize = 0;
        while k < self.string_history.len()
            invariant
                k <= self.string_history@.len(),
                h == self.string_history@.map_values(|p: (String, u8)| (p.0@, p.1)),
                cg_find_string(h, string@, 0) == cg_find_string(h, string@, k as int),
                forall|j: int| 0 <= j < k ==> (#[trigger] self.string_history@[j]).0@ != string@,
            decreases self.string_history.len() - k,
        {
            if str_eq(self.string_history[k].0.as_str(), string) {
                return Some(self.string_history[k].1);
            }
            k = k + 1;
        }
        None
    }

    /// Store a string on the heap (its characters and a terminating zero),
    /// unless it is already there; its address, or None when the heap is
    /// full.
    fn store_string(&mut self, string: &str) -> (r: Option<u8>)
        requires
            old(self).wf(),
        ensures
            final(self).wf(),
            final(self).clean() == old(self).clean(),
            old(self).grows_to(&*final(self)),
            history_has(old(self).string_history@, string@) ==> r is Some && *final(self) == *old(self),
            !history_has(old(self).string_history@, string@) && old(self).static_table@.len() <= IMAGE_SIZE
                && old(self).temp_index <= IMAGE_SIZE && old(self).code_pointer + old(self).static_table@.len() + old(self).temp_index + string@.len() <= old(self).heap_pointer
                && string@.len() < old(self).heap_pointer ==> r is Some,
            !history_has(old(self).string_history@, string@) && r is Some ==> {
                let a = r->0;
                &&& a == old(self).heap_pointer - string@.len()
                &&& final(self).heap_pointer == a - 1
                &&& forall|k: int|
                    0 <= k <= string@.len() ==> #[trigger] final(self).code_arr@[a + k] == CodeGenBytes::Data(
                        stored_bytes(string@)[k],
                    )
                &&& final(self).string_history@.len() == old(self).string_history@.len() + 1
                &&& final(self).string_history@.last().0@ == string@
                &&& final(self).string_history@.drop_last() == old(self).string_history@
            },
            final(self).code_pointer == old(self).code_pointer,
            final(self).static_table == old(self).static_table,
            final(self).temp_index == old(self).temp_index,
            final(self).jumps == old(self).jumps,
            final(self).max_scope == old(self).max_scope,
            forall|t: SpecSymbolTable| #![trigger final(self).cg(t)] cg_store_string(old(self).cg(t), string@) == match r {
                Some(a) => Some((final(self).cg(t), a)),
                None => None,
            },
    {
        match self.find_string(string) {
            Some(a) => {
                return Some(a);
            },
            None => {},
        }
        let ghost h0 = self.heap_pointer as int;
        let n: usize = string.unicode_len();
        let ghost cb = char_bytes(string@);
        assert(stored_bytes(string@).drop_last() =~= cb);
        if !self.add_data(0) {
            return None;
        }
        assert(cb.take(n as int) =~= cb);
        assert forall|t: SpecSymbolTable| #[trigger] cg_store_bytes(old(self).cg(t), stored_bytes(string@)) == cg_store_bytes(
            self.cg(t),
            cb.take(n as int),
        ) by {
            assert(cg_add_data(old(self).cg(t), 0u8) == Some(self.cg(t)));
        }
        let mut k: usize = n;
        let mut ok: bool = true;
        while k > 0 && ok
            invariant
                n == string@.len(),
                k <= n,
                self.wf(),
                self.clean() == old(self).clean(),
                old(self).grows_to(&*self),
                ok ==> self.heap_pointer as int == h0 - 1 - (n - k),
                ok ==> self.code_arr@[h0] == CodeGenBytes::Data(0),
                ok ==> forall|j: int|
                    k <= j < n ==> #[trigger] self.code_arr@[h0 - n + j] == CodeGenBytes::Data(
                        char_bytes(string@)[j],
                    ),
                !history_has(old(self).string_history@, string@) && old(self).static_table@.len()
                    <= IMAGE_SIZE && old(self).temp_index <= IMAGE_SIZE && old(self).code_pointer + old(self).static_table@.len() + old(self).temp_index + string@.len() <= old(self).heap_pointer
                    && string@.len() < old(self).heap_pointer ==> ok,
                cb == char_bytes(string@),
                ok ==> forall|t: SpecSymbolTable| #[trigger] cg_store_bytes(old(self).cg(t), stored_bytes(string@)) == cg_store_bytes(
                    self.cg(t),
                    cb.take(k as int),
                ),
                !ok ==> forall|t: SpecSymbolTable| #[trigger] cg_store_bytes(old(self).cg(t), stored_bytes(string@)) is None,
                h0 == old(self).heap_pointer,
                self.code_pointer == old(self).code_pointer,
                self.static_table == old(self).static_table,
                self.temp_index == old(self).temp_index,
                self.string_history == old(self).string_history,
                self.jumps == old(self).jumps,
                self.max_scope == old(self).max_scope,
            decreases k,
        {
            k = k - 1;
            let c: char = string.get_char(k);
            let b: u8 = (c as u32) as u8;
            let ghost before = *self;
            assert(b == cb[k as int]);
            if !self.add_data(b) {
                ok = false;
            }
            assert forall|t: SpecSymbolTable| #[trigger] cg_store_bytes(before.cg(t), cb.take(k + 1)) == if ok {
                cg_store_bytes(self.cg(t), cb.take(k as int))
            } else {
                None
            } by {
                assert(cb.take(k + 1).last() == b);
                assert(cb.take(k + 1).drop_last() =~= cb.take(k as int));
            }
        }
        if ok {
            let a: u8 = self.heap_pointer + 1;
            let key: String = string.to_owned();
            let ghost filled = *self;
            self.string_history.push((key, a));
            proof {
                assert(k == 0);
                assert forall|t: SpecSymbolTable| #[trigger] cg_store_string(old(self).cg(t), string@) == Some((self.cg(t), a)) by {
                    assert(cb.take(0) =~= Seq::<u8>::empty());
                    assert(cg_store_bytes(old(self).cg(t), stored_bytes(string@)) == Some(filled.cg(t)));
                    assert(self.string_history@.map_values(|p: (String, u8)| (p.0@, p.1)) =~= filled.string_history@.map_values(
                        |p: (String, u8)| (p.0@, p.1),
                    ).push((string@, a)));
                    assert(self.cg(t) =~= CgState { strings: filled.cg(t).strings.push((string@, a)), ..filled.cg(t) });
                }
                assert forall|j: int| 0 <= j <= n implies #[trigger] self.code_arr@[a + j] == CodeGenBytes::Data(
                    stored_bytes(string@)[j],
                ) by {
                    if j < n {
                        assert(self.code_arr@[h0 - n + j] == CodeGenBytes::Data(char_bytes(string@)[j]));
                    }
                }
                assert(self.string_history@.drop_last() =~= old(self).string_history@);
            }
            Some(a)
        } else {
            None
        }
    }

    /// Replace every placeholder with its final byte: a variable's address
    /// is the code end plus its static offset, a temporary's is the heap
    /// pointer minus its index, a jump's is its recorded offset, and every
    /// high-order byte is zero.
    #[verifier::rlimit(60)]
    fn backpatch_addresses(&mut self)
        requires
            old(self).wf(),
        ensures
            final(self).resolved(),
            final(self).code_arr@.len() == IMAGE_SIZE,
            final(self).code_pointer == old(self).code_pointer,
            final(self).heap_pointer == old(self).heap_pointer,
            final(self).jumps == old(self).jumps,
            final(self).string_history == old(self).string_history,
            forall|i: int|
                0 <= i < IMAGE_SIZE && !old(self).code_arr@[i].is_placeholder() && !(i > 0 && (old(self).code_arr@[i - 1] is Var || old(self).code_arr@[i - 1] is Temp)) ==> #[trigger] final(self).code_arr@[i] == old(self).code_arr@[i],
            forall|i: int|
                0 < i < IMAGE_SIZE && (old(self).code_arr@[i - 1] is Var || old(self).code_arr@[i
                    - 1] is Temp) ==> #[trigger] final(self).code_arr@[i] == CodeGenBytes::Code(0),
            forall|t: SpecSymbolTable| #![trigger old(self).cg(t)] final(self).image() == cg_image(old(self).cg(t)),
            forall|i: int|
                0 <= i < IMAGE_SIZE ==> #[trigger] final(self).code_arr@[i] == cg_patched_cell(
                    old(self).cg(SpecSymbolTable::empty()),
                    i,
                ),
    {
        let ghost o = self.code_arr@;
        let ghost ost = old(self).cg(SpecSymbolTable::empty());
        let mut i: usize = 0;
        while i < IMAGE_SIZE
            invariant
                i <= IMAGE_SIZE,
                self.code_arr@.len() == IMAGE_SIZE,
                layout_ok(o, self.code_pointer as int, self.heap_pointer as int, self.jumps@.len() as int),
                o == old(self).code_arr@,
                self.code_pointer == old(self).code_pointer,
                self.heap_pointer == old(self).heap_pointer,
                self.jumps == old(self).jumps,
                self.string_history == old(self).string_history,
                forall|j: int| 0 <= j < i ==> !(#[trigger] self.code_arr@[j]).is_placeholder(),
                forall|j: int| i < j < IMAGE_SIZE ==> #[trigger] self.code_arr@[j] == o[j],
                i < IMAGE_SIZE ==> if i > 0 && (o[i - 1] is Var || o[i - 1] is Temp) {
                    self.code_arr@[i as int] == CodeGenBytes::Code(0)
                } else {
                    self.code_arr@[i as int] == o[i as int]
                },
                forall|j: int|
                    0 <= j < i && !o[j].is_placeholder() && !(j > 0 && (o[j - 1] is Var || o[j - 1] is Temp))
                        ==> #[trigger] self.code_arr@[j] == o[j],
                forall|j: int|
                    0 < j < i && (o[j - 1] is Var || o[j - 1] is Temp) ==> #[trigger] self.code_arr@[j]
                        == CodeGenBytes::Code(0),
                forall|j: int| 0 <= j < i ==> #[trigger] self.code_arr@[j] == cg_patched_cell(ost, j),
                ost == old(self).cg(SpecSymbolTable::empty()),
            decreases IMAGE_SIZE - i,
        {
            proof {
                if self.code_arr@[i as int] is Var || self.code_arr@[i as int] is Temp {
                    assert(o[i as int] is Var || o[i as int] is Temp);
                }
                if let CodeGenBytes::Jump(j) = self.code_arr@[i as int] {
                    assert(o[i as int] == CodeGenBytes::Jump(j));
                }
                if self.code_arr@[i as int] is HighOrderByte {
                    assert(o[i as int] is HighOrderByte);
                }
            }
            let ghost before = self.code_arr@;
            self.patch_cell(i);
            proof {
                assert forall|j: int| 0 <= j < i + 1 implies !(#[trigger] self.code_arr@[j]).is_placeholder() by {
                    if j < i {
                        assert(self.code_arr@[j] == before[j]);
                    }
                }
                assert forall|j: int| 0 <= j < i + 1 implies #[trigger] self.code_arr@[j] == cg_patched_cell(ost, j) by {
                    if j < i {
                        assert(self.code_arr@[j] == before[j]);
                    }
                }
            }
            i = i + 1;
        }
        assert forall|t: SpecSymbolTable| #![trigger old(self).cg(t)] self.image() == cg_image(old(self).cg(t)) by {
            assert(self.image() =~= cg_image(ost));
            assert(cg_image(ost) =~= cg_image(old(self).cg(t)));
        }
    }

    /// Replace the placeholder at one cell (and the high-order byte after an
    /// address) with a byte of code.
    fn patch_cell(&mut self, i: usize)
        requires
            old(self).code_arr@.len() == IMAGE_SIZE,
            i < IMAGE_SIZE,
            old(self).code_arr@[i as int] is Var || old(self).code_arr@[i as int] is Temp ==> i + 1 < IMAGE_SIZE,
            old(self).code_arr@[i as int] matches CodeGenBytes::Jump(j) ==> j < old(self).jumps@.len(),
            !(old(self).code_arr@[i as int] is HighOrderByte),
        ensures
            final(self).code_arr@.len() == IMAGE_SIZE,
            final(self).code_pointer == old(self).code_pointer,
            final(self).heap_pointer == old(self).heap_pointer,
            final(self).jumps == old(self).jumps,
            final(self).string_history == old(self).string_history,
            !final(self).code_arr@[i as int].is_placeholder(),
            !old(self).code_arr@[i as int].is_placeholder() ==> final(self).code_arr@[i as int] == old(self).code_arr@[i as int],
            old(self).code_arr@[i as int] is Var || old(self).code_arr@[i as int] is Temp ==> final(self).code_arr@[i + 1]
                == CodeGenBytes::Code(0),
            final(self).code_arr@[i as int] == match old(self).code_arr@[i as int] {
                CodeGenBytes::Var(o) => CodeGenBytes::Code(old(self).code_pointer.wrapping_add(o as u8)),
                CodeGenBytes::Temp(o) => CodeGenBytes::Code(old(self).heap_pointer.wrapping_sub(o as u8)),
                CodeGenBytes::Jump(j) => CodeGenBytes::Code(old(self).jumps@[j as int]),
                c => c,
            },
            forall|j: int|
                0 <= j < IMAGE_SIZE && j != i && !(j == i + 1 && (old(self).code_arr@[i as int] is Var
                    || old(self).code_arr@[i as int] is Temp)) ==> #[trigger] final(self).code_arr@[j]
                    == old(self).code_arr@[j],
    {
        let cell = self.code_arr[i];
        match cell {
            CodeGenBytes::Var(offset) => {
                let new_addr: u8 = self.code_pointer.wrapping_add(offset as u8);
                self.code_arr.set(i, CodeGenBytes::Code(new_addr));
                let new_high: u8 = ((new_addr as u16) / 0x100) as u8;
                assert(new_high == 0);
                self.code_arr.set(i + 1, CodeGenBytes::Code(new_high));
            },
            CodeGenBytes::Temp(offset) => {
                let new_addr: u8 = self.heap_pointer.wrapping_sub(offset as u8);
                self.code_arr.set(i, CodeGenBytes::Code(new_addr));
                let new_high: u8 = ((new_addr as u16) / 0x100) as u8;
                assert(new_high == 0);
                self.code_arr.set(i + 1, CodeGenBytes::Code(new_high));
            },
            CodeGenBytes::Jump(j) => {
                let offset: u8 = self.jumps[j];
                self.code_arr.set(i, CodeGenBytes::Code(offset));
            },
            _ => {},
        }
    }

    /// The image as bytes.
    fn image_bytes(&self) -> (r: Vec<u8>)
        ensures
            r@ == self.image(),
    {
        let mut out: Vec<u8> = Vec::new();
        let mut i: usize = 0;
        while i < self.code_arr.len()
            invariant
                i <= self.code_arr@.len(),
                out@ =~= self.image().take(i as int),
            decreases self.code_arr.len() - i,
        {
            let b: u8 = match self.code_arr[i] {
                CodeGenBytes::Code(b) => b,
                CodeGenBytes::Data(b) => b,
                _ => 0,
            };
            out.push(b);
            i = i + 1;
        }
        assert(self.image().take(i as int) =~= self.image());
        out
    }

    /// The static offset recorded for an identifier in a scope.
    fn static_lookup(&self, id: &str, scope: usize) -> (r: Option<usize>)
        ensures
            r == cg_static_lookup(self.cg(SpecSymbolTable::empty()).statics, id@, scope),
    {
        let ghost v = self.cg(SpecSymbolTable::empty()).statics;
        let mut k: usize = 0;
        while k < self.static_table.len()
            invariant
                v == self.cg(SpecSymbolTable::empty()).statics,
                k <= self.static_table@.len(),
                cg_static_index(v, id@, scope, 0) == cg_static_index(v, id@, scope, k as int),
            decreases self.static_table.len() - k,
        {
            if self.static_table[k].0.1 == scope && str_eq(self.static_table[k].0.0.as_str(), id) {
                return Some(self.static_table[k].1);
            }
            k = k + 1;
        }
        None
    }

    /// Record the static offset of an identifier in a scope (replacing any
    /// earlier record for the same identifier and scope).
    fn static_insert(&mut self, id: String, scope: usize, offset: usize)
        ensures
            forall|t: SpecSymbolTable| #[trigger] final(self).cg(t) == (CgState {
                statics: cg_static_insert(old(self).cg(t).statics, id@, scope, offset),
                ..old(self).cg(t)
            }),
            final(self).code_arr == old(self).code_arr,
            final(self).code_pointer == old(self).code_pointer,
            final(self).heap_pointer == old(self).heap_pointer,
            final(self).temp_index == old(self).temp_index,
            final(self).string_history == old(self).string_history,
            final(self).jumps == old(self).jumps,
            final(self).max_scope == old(self).max_scope,
    {
        let ghost v = old(self).cg(SpecSymbolTable::empty()).statics;
        let mut k: usize = 0;
        while k < self.static_table.len()
            invariant
                self.static_table == old(self).static_table,
                v == old(self).cg(SpecSymbolTable::empty()).statics,
                k <= self.static_table@.len(),
                cg_static_index(v, id@, scope, 0) == cg_static_index(v, id@, scope, k as int),
                self.code_arr == old(self).code_arr,
                self.code_pointer == old(self).code_pointer,
                self.heap_pointer == old(self).heap_pointer,
                self.temp_index == old(self).temp_index,
                self.string_history == old(self).string_history,
                self.jumps == old(self).jumps,
                self.max_scope == old(self).max_scope,
            decreases self.static_table.len() - k,
        {
            if self.static_table[k].0.1 == scope && str_eq(self.static_table[k].0.0.as_str(), id.as_str()) {
                let ghost idv = id@;
                self.static_table.set(k, ((id, scope), offset));
                assert forall|t: SpecSymbolTable| #[trigger] self.cg(t) == CgState {
                    statics: cg_static_insert(old(self).cg(t).statics, idv, scope, offset),
                    ..old(self).cg(t)
                } by {
                    assert(self.cg(t).statics =~= v.update(k as int, (idv, scope, offset)));
                }
                return;
            }
            k = k + 1;
        }
        let ghost idv = id@;
        self.static_table.push(((id, scope), offset));
        assert forall|t: SpecSymbolTable| #[trigger] self.cg(t) == CgState {
            statics: cg_static_insert(old(self).cg(t).statics, idv, scope, offset),
            ..old(self).cg(t)
        } by {
            assert(self.cg(t).statics =~= v.push((idv, scope, offset)));
        }
    }

    /// The static offset of the variable an identifier refers to from the
    /// current scope.
    fn var_offset(&self, symbol_table: &SymbolTable, id: &str) -> (r: Option<usize>)
        requires
            symbol_table@.wf(),
        ensures
            r == cg_var_offset(self.cg(symbol_table@), id@),
    {
        if symbol_table.current_scope().is_none() {
            return None;
        }
        match symbol_table.get_symbol(id) {
            Some(entry) => self.static_lookup(id, entry.scope),
            None => None,
        }
    }

    /// Put the Z flag into the accumulator: 0 when it is clear, 1 when set.
    fn get_z_flag_value(&mut self) -> (r: bool)
        requires
            old(self).wf(),
            old(self).clean(),
        ensures
            forall|t: SpecSymbolTable| #![trigger final(self).cg(t)] cg_get_z(old(self).cg(t)) == outcome(r, final(self).cg(t)),
            final(self).wf(),
            r ==> final(self).clean(),
            old(self).grows_to(&*final(self)),
    {
        self.emit(&[0xA9, 0x00, 0xD0, 0x02, 0xA9, 0x01])
    }

    /// Load the Y register with the address of the stored "true" or "false"
    /// string.
    fn load_bool_string(&mut self, value: bool) -> (r: bool)
        requires
            old(self).wf(),
            old(self).clean(),
        ensures
            forall|t: SpecSymbolTable| #![trigger final(self).cg(t)] cg_load_bool_string(old(self).cg(t), value) == outcome(r, final(self).cg(t)),
            final(self).wf(),
            r ==> final(self).clean(),
            old(self).grows_to(&*final(self)),
    {
        let addr = if value {
            self.find_string("true")
        } else {
            self.find_string("false")
        };
        match addr {
            Some(a) => self.emit(&[0xA0, a]),
            None => false,
        }
    }

    /// Code for a block: its statements in source order, in the next scope.
    fn code_gen_block(&mut self, ast: &SyntaxTree, a: usize, symbol_table: &mut SymbolTable) -> (r: bool)
        requires
            old(self).wf(),
            old(self).clean(),
            ast@.wf(),
            old(symbol_table)@.wf(),
        ensures
            cg_block(ast@, a as int, old(self).cg(old(symbol_table)@)) == outcome(r, final(self).cg(final(symbol_table)@)),
            final(self).wf(),
            r ==> final(self).clean(),
            old(self).grows_to(&*final(self)),
            final(symbol_table)@.wf(),
        decreases ast@.nodes.len() - a, 1int, 0int,
    {
        if a >= ast.node_count() {
            return false;
        }
        if self.max_scope == usize::MAX {
            self.max_scope = 0;
        } else {
            self.max_scope = self.max_scope + 1;
        }
        if self.max_scope >= symbol_table.scope_count() {
            return false;
        }
        symbol_table.set_cur_scope(self.max_scope);
        let ghost s1 = self.cg(symbol_table@);
        let kids = ast.children(a);
        let ghost expect = cg_block(ast@, a as int, old(self).cg(old(symbol_table)@));
        let ghost bk = cg_block_kids(ast@, a as int, kids@.len() as int, s1);
        assert(s1 =~= CgState {
            max_scope: self.max_scope,
            table: SpecSymbolTable { cur_scope: Some(self.max_scope), ..old(symbol_table)@ },
            ..old(self).cg(old(symbol_table)@)
        });
        assert(expect == match bk {
            Some(s2) => Some(CgState { table: s2.table.end_cur_scope(), ..s2 }),
            None => None,
        });
        let mut k: usize = kids.len();
        while k > 0
            invariant
                ast@.wf(),
                a < ast@.nodes.len(),
                kids@ == ast@.children(a),
                k <= kids@.len(),
                self.wf(),
                self.clean(),
                old(self).grows_to(&*self),
                symbol_table@.wf(),
                bk == cg_block_kids(ast@, a as int, kids@.len() as int, s1),
                expect == cg_block(ast@, a as int, old(self).cg(old(symbol_table)@)),
                expect == match bk {
                    Some(s2) => Some(CgState { table: s2.table.end_cur_scope(), ..s2 }),
                    None => None,
                },
                bk == cg_block_kids(ast@, a as int, k as int, self.cg(symbol_table@)),
            decreases k,
        {
            let ghost before = self.cg(symbol_table@);
            k = k - 1;
            match kid_exec(ast, &kids, a, k) {
                Some(c) => {
                    match ast.node(c) {
                        SyntaxTreeNode::NonTerminalAst(nt) => {
                            let res = match nt {
                                NonTerminalsAst::Block => self.code_gen_block(ast, c, symbol_table),
                                NonTerminalsAst::VarDecl => self.code_gen_var_decl(ast, c, symbol_table),
                                NonTerminalsAst::Assign => self.code_gen_assignment(ast, c, symbol_table),
                                NonTerminalsAst::Print => self.code_gen_print(ast, c, symbol_table),
                                NonTerminalsAst::If => self.code_gen_if(ast, c, symbol_table),
                                NonTerminalsAst::While => self.code_gen_while(ast, c, symbol_table),
                                _ => false,
                            };
                            if !res {
                                assert(cg_block_kids(ast@, a as int, k + 1, before) is None);
                                return false;
                            }
                        },
                        _ => {},
                    }
                },
                None => {},
            }
        }
        let ghost s3 = self.cg(symbol_table@);
        symbol_table.end_cur_scope();
        assert(self.cg(symbol_table@) =~= CgState { table: s3.table.end_cur_scope(), ..s3 });
        true
    }

    /// Code for a declaration: integers and booleans start at zero; strings
    /// are left as they are.
    fn code_gen_var_decl(&mut self, ast: &SyntaxTree, a: usize, symbol_table: &mut SymbolTable) -> (r: bool)
        requires
            old(self).wf(),
            old(self).clean(),
            ast@.wf(),
            a < ast@.nodes.len(),
            old(symbol_table)@.wf(),
        ensures
            cg_var_decl(ast@, a as int, old(self).cg(old(symbol_table)@)) == outcome(r, final(self).cg(final(symbol_table)@)),
            final(self).wf(),
            r ==> final(self).clean(),
            old(self).grows_to(&*final(self)),
            final(symbol_table)@.wf(),
    {
        let kids = ast.children(a);
        let id_index = match kid_exec(ast, &kids, a, 0) {
            Some(i) => i,
            None => {
                return false;
            },
        };
        match ast.node(id_index) {
            SyntaxTreeNode::Terminal(token) => {
                let cur = match symbol_table.current_scope() {
                    Some(c) => c,
                    None => {
                        return false;
                    },
                };
                let static_offset: usize = self.static_table.len();
                self.static_insert(token.text.clone(), cur, static_offset);
                let entry: SymbolTableEntry = match symbol_table.get_symbol(token.text.as_str()) {
                    Some(e) => *e,
                    None => {
                        return false;
                    },
                };
                match entry.symbol_type {
                    Type::Int | Type::Boolean => {
                        let codes = [0xA9u8, 0x00, 0x8D];
                        assert(codes@ =~= seq![0xA9u8, 0x00, 0x8D]);
                        if !self.emit_var(&codes, static_offset, Ghost(symbol_table@)) {
                            return false;
                        }
                    },
                    Type::String => {},
                }
            },
            _ => {},
        }
        true
    }

    /// Load the accumulator (or, with `to_x`, the X register) with a leaf
    /// value: a variable, a digit, a string's address or a boolean.
    fn code_gen_load_leaf(&mut self, token_type: &TokenType, text: &str, symbol_table: &SymbolTable, to_x: bool) -> (r: bool)
        requires
            old(self).wf(),
            old(self).clean(),
            symbol_table@.wf(),
        ensures
            cg_load_leaf(old(self).cg(symbol_table@), token_type@, text@, to_x) == outcome(r, final(self).cg(symbol_table@)),
            final(self).wf(),
            r ==> final(self).clean(),
            old(self).grows_to(&*final(self)),
    {
        let ghost t = symbol_table@;
        let ghost st = self.cg(t);
        let load_imm: u8 = if to_x {
            0xA2
        } else {
            0xA9
        };
        let load_mem: u8 = if to_x {
            0xAE
        } else {
            0xAD
        };
        match token_type {
            TokenType::Identifier(_) => {
                let off = match self.var_offset(symbol_table, text) {
                    Some(o) => o,
                    None => {
                        return false;
                    },
                };
                let codes = [load_mem];
                assert(codes@ =~= seq![load_mem]);
                let ok = self.emit(&codes);
                let ghost s1 = self.cg(t);
                assert(cg_emit(st, seq![load_mem]) == outcome(ok, s1));
                if !ok {
                    return false;
                }
                self.add_var(off, Ghost(t))
            },
            TokenType::Digit(num) => {
                let codes = [load_imm, *num];
                assert(codes@ =~= seq![load_imm, *num]);
                let r = self.emit(&codes);
                let ghost s1 = self.cg(t);
                r
            },
            TokenType::Char(string) => {
                match self.store_string(string.as_str()) {
                    Some(addr) => {
                        let ghost s1 = self.cg(t);
                        assert(cg_store_string(st, string@) == Some((s1, addr)));
                        let codes = [load_imm, addr];
                        assert(codes@ =~= seq![load_imm, addr]);
                        let r = self.emit(&codes);
                        let ghost s2 = self.cg(t);
                        assert(cg_emit(s1, seq![load_imm, addr]) == outcome(r, s2));
                        r
                    },
                    None => {
                        let ghost s1 = self.cg(t);
                        false
                    },
                }
            },
            TokenType::Keyword(keyword) => {
                let codes = [load_imm];
                assert(codes@ =~= seq![load_imm]);
                let ok = self.emit(&codes);
                let ghost s1 = self.cg(t);
                assert(cg_emit(st, seq![load_imm]) == outcome(ok, s1));
                if !ok {
                    return false;
                }
                match keyword {
                    Keywords::True => {
                        let codes = [0x01u8];
                        assert(codes@ =~= seq![0x01u8]);
                        let r = self.emit(&codes);
                        let ghost s2 = self.cg(t);
                        r
                    },
                    Keywords::False => {
                        let codes = [0x00u8];
                        assert(codes@ =~= seq![0x00u8]);
                        let r = self.emit(&codes);
                        let ghost s2 = self.cg(t);
                        r
                    },
                    _ => true,
                }
            },
            _ => true,
        }
    }

    /// Code for an assignment: the value into the accumulator, then stored
    /// at the variable.
    fn code_gen_assignment(&mut self, ast: &SyntaxTree, a: usize, symbol_table: &mut SymbolTable) -> (r: bool)
        requires
            old(self).wf(),
            old(self).clean(),
            ast@.wf(),
            a < ast@.nodes.len(),
            old(symbol_table)@.wf(),
        ensures
            cg_assign(ast@, a as int, old(self).cg(old(symbol_table)@)) == outcome(r, final(self).cg(final(symbol_table)@)),
            final(self).wf(),
            r ==> final(self).clean(),
            old(self).grows_to(&*final(self)),
            final(symbol_table)@.wf(),
        decreases ast@.nodes.len() - a,
    {
        let ghost st = self.cg(symbol_table@);
        let kids = ast.children(a);
        let (value_index, id_index) = match (kid_exec(ast, &kids, a, 0), kid_exec(ast, &kids, a, 1)) {
            (Some(v), Some(i)) => (v, i),
            _ => {
                return false;
            },
        };
        match ast.node(value_index) {
            SyntaxTreeNode::Terminal(token) => {
                match &token.token_type {
                    TokenType::Identifier(_) | TokenType::Digit(_) | TokenType::Char(_)
                    | TokenType::Keyword(Keywords::True) | TokenType::Keyword(Keywords::False) => {
                        if !self.code_gen_load_leaf(&token.token_type, token.text.as_str(), symbol_table, false) {
                            return false;
                        }
                    },
                    _ => {},
                }
            },
            SyntaxTreeNode::NonTerminalAst(nt) => {
                match nt {
                    NonTerminalsAst::Add => {
                        if !self.code_gen_add(ast, value_index, symbol_table, true) {
                            return false;
                        }
                    },
                    NonTerminalsAst::IsEq | NonTerminalsAst::NotEq => {
                        let is_eq = matches!(nt, NonTerminalsAst::IsEq);
                        if !self.code_gen_compare(ast, value_index, symbol_table, is_eq) {
                            return false;
                        }
                        let ghost s2 = self.cg(symbol_table@);
                        let ok = self.get_z_flag_value();
                        let ghost s3 = self.cg(symbol_table@);
                        assert(cg_get_z(s2) == outcome(ok, s3));
                        if !ok {
                            return false;
                        }
                    },
                    _ => {},
                }
            },
            _ => {},
        }
        let ghost s1 = self.cg(symbol_table@);
        match ast.node(id_index) {
            SyntaxTreeNode::Terminal(token) => {
                let off = match self.var_offset(symbol_table, token.text.as_str()) {
                    Some(o) => o,
                    None => {
                        return false;
                    },
                };
                let codes = [0x8Du8];
                assert(codes@ =~= seq![0x8Du8]);
                let ok = self.emit(&codes);
                let ghost s2 = self.cg(symbol_table@);
                assert(cg_emit(s1, seq![0x8Du8]) == outcome(ok, s2));
                if !ok {
                    return false;
                }
                if !self.add_var(off, Ghost(symbol_table@)) {
                    return false;
                }
            },
            _ => {},
        }
        true
    }

    /// Code that picks the "true" or "false" string by the Z flag and puts
    /// its address in Y.
    fn code_gen_bool_string_by_z(&mut self) -> (r: bool)
        requires
            old(self).wf(),
            old(self).clean(),
        ensures
            forall|t: SpecSymbolTable| #![trigger final(self).cg(t)] cg_bool_by_z(old(self).cg(t)) == outcome(r, final(self).cg(t)),
            final(self).wf(),
            r ==> final(self).clean(),
            old(self).grows_to(&*final(self)),
    {
        if !self.emit(&[0xD0, 0x07]) {
            return false;
        }
        if !self.load_bool_string(true) {
            return false;
        }
        if !self.emit(&[0xEC, 0xFF, 0x00, 0xD0, 0x02]) {
            return false;
        }
        self.load_bool_string(false)
    }

    /// Code for a print statement: set up the Y and X registers for the
    /// system call (X = 1 prints the integer in Y, X = 2 the string at the
    /// address in Y), then the system call.
    fn code_gen_print(&mut self, ast: &SyntaxTree, a: usize, symbol_table: &mut SymbolTable) -> (r: bool)
        requires
            old(self).wf(),
            old(self).clean(),
            ast@.wf(),
            a < ast@.nodes.len(),
            old(symbol_table)@.wf(),
        ensures
            cg_print(ast@, a as int, old(self).cg(old(symbol_table)@)) == outcome(r, final(self).cg(final(symbol_table)@)),
            final(self).wf(),
            r ==> final(self).clean(),
            old(self).grows_to(&*final(self)),
            final(symbol_table)@.wf(),
    {
        let kids = ast.children(a);
        let c = match kid_exec(ast, &kids, a, 0) {
            Some(c) => c,
            None => {
                return false;
            },
        };
        if !self.code_gen_print_value(ast, c, symbol_table) {
            return false;
        }
        let ghost s1 = self.cg(symbol_table@);
        let codes = [0xFFu8];
        assert(codes@ =~= seq![0xFFu8]);
        self.emit(&codes)
    }

    /// The value of a print statement set up in Y and X.
    fn code_gen_print_value(&mut self, ast: &SyntaxTree, c: usize, symbol_table: &mut SymbolTable) -> (r: bool)
        requires
            old(self).wf(),
            old(self).clean(),
            ast@.wf(),
            c < ast@.nodes.len(),
            old(symbol_table)@.wf(),
        ensures
            cg_print_value(ast@, c as int, old(self).cg(old(symbol_table)@)) == outcome(r, final(self).cg(final(symbol_table)@)),
            final(self).wf(),
            r ==> final(self).clean(),
            old(self).grows_to(&*final(self)),
            final(symbol_table)@.wf(),
    {
        let ghost st = self.cg(symbol_table@);
        match ast.node(c) {
            SyntaxTreeNode::Terminal(token) => {
                match &token.token_type {
                    TokenType::Identifier(id_name) => self.print_variable(symbol_table, id_name.as_str()),
                    TokenType::Digit(digit) => {
                        let codes = [0xA0u8, *digit, 0xA2, 0x01];
                        assert(codes@ =~= seq![0xA0u8, *digit, 0xA2, 0x01]);
                        let r = self.emit(&codes);
                        let ghost s1 = self.cg(symbol_table@);
                        r
                    },
                    TokenType::Char(string) => {
                        let addr = match self.store_string(string.as_str()) {
                            Some(addr) => addr,
                            None => {
                                let ghost s1 = self.cg(symbol_table@);
                                return false;
                            },
                        };
                        let ghost s1 = self.cg(symbol_table@);
                        let codes = [0xA0u8, addr, 0xA2, 0x02];
                        assert(codes@ =~= seq![0xA0u8, addr, 0xA2, 0x02]);
                        let r = self.emit(&codes);
                        let ghost s2 = self.cg(symbol_table@);
                        r
                    },
                    TokenType::Keyword(keyword) => {
                        match keyword {
                            Keywords::True => {
                                let ok = self.load_bool_string(true);
                                let ghost s1 = self.cg(symbol_table@);
                                if !ok {
                                    return false;
                                }
                            },
                            Keywords::False => {
                                let ok = self.load_bool_string(false);
                                let ghost s1 = self.cg(symbol_table@);
                                if !ok {
                                    return false;
                                }
                            },
                            _ => {
                                let codes = [0xA0u8];
                                assert(codes@ =~= seq![0xA0u8]);
                                let ok = self.emit(&codes);
                                let ghost s1 = self.cg(symbol_table@);
                                if !ok {
                                    return false;
                                }
                            },
                        }
                        let ghost s1 = self.cg(symbol_table@);
                        let codes = [0xA2u8, 0x02];
                        assert(codes@ =~= seq![0xA2u8, 0x02]);
                        let r = self.emit(&codes);
                        let ghost s2 = self.cg(symbol_table@);
                        r
                    },
                    _ => true,
                }
            },
            SyntaxTreeNode::NonTerminalAst(nt) => {
                match nt {
                    NonTerminalsAst::Add => {
                        if !self.code_gen_add(ast, c, symbol_table, true) {
                            return false;
                        }
                        if !self.through_temp(0xAC, Ghost(symbol_table@)) {
                            return false;
                        }
                        let ghost s1 = self.cg(symbol_table@);
                        let codes = [0xA2u8, 0x01];
                        assert(codes@ =~= seq![0xA2u8, 0x01]);
                        let r = self.emit(&codes);
                        let ghost s2 = self.cg(symbol_table@);
                        r
                    },
                    NonTerminalsAst::IsEq | NonTerminalsAst::NotEq => {
                        let is_eq = matches!(nt, NonTerminalsAst::IsEq);
                        if !self.code_gen_compare(ast, c, symbol_table, is_eq) {
                            return false;
                        }
                        let ghost s1 = self.cg(symbol_table@);
                        let codes = [0xA2u8, 0x02];
                        assert(codes@ =~= seq![0xA2u8, 0x02]);
                        let ok = self.emit(&codes);
                        let ghost s2 = self.cg(symbol_table@);
                        if !ok {
                            return false;
                        }
                        let r = self.code_gen_bool_string_by_z();
                        let ghost s3 = self.cg(symbol_table@);
                        r
                    },
                    _ => true,
                }
            },
            _ => true,
        }
    }

    /// The print of a variable: Y and X set up by its type (a boolean picks
    /// the "true" or "false" string).
    fn print_variable(&mut self, symbol_table: &SymbolTable, id_name: &str) -> (r: bool)
        requires
            old(self).wf(),
            old(self).clean(),
            symbol_table@.wf(),
        ensures
            cg_print_variable(old(self).cg(symbol_table@), id_name@) == outcome(r, final(self).cg(symbol_table@)),
            final(self).wf(),
            r ==> final(self).clean(),
            old(self).grows_to(&*final(self)),
    {
        if symbol_table.current_scope().is_none() {
            return false;
        }
        let entry: SymbolTableEntry = match symbol_table.get_symbol(id_name) {
            Some(e) => *e,
            None => {
                return false;
            },
        };
        let off = match self.static_lookup(id_name, entry.scope) {
            Some(o) => o,
            None => {
                return false;
            },
        };
        match entry.symbol_type {
            Type::Int | Type::String => {
                let codes = [0xACu8];
                assert(codes@ =~= seq![0xACu8]);
                if !self.emit_var(&codes, off, Ghost(symbol_table@)) {
                    return false;
                }
                let ghost s2 = self.cg(symbol_table@);
                let kind: u8 = match entry.symbol_type {
                    Type::Int => 0x01,
                    _ => 0x02,
                };
                let codes = [0xA2u8, kind];
                assert(codes@ =~= seq![0xA2u8, kind]);
                let r = self.emit(&codes);
                let ghost s3 = self.cg(symbol_table@);
                r
            },
            Type::Boolean => {
                let codes = [0xA2u8, 0x01, 0xEC];
                assert(codes@ =~= seq![0xA2u8, 0x01, 0xEC]);
                if !self.emit_var(&codes, off, Ghost(symbol_table@)) {
                    return false;
                }
                let ghost s2 = self.cg(symbol_table@);
                let ok = self.code_gen_bool_string_by_z();
                let ghost s3 = self.cg(symbol_table@);
                if !ok {
                    return false;
                }
                let codes = [0xA2u8, 0x02];
                assert(codes@ =~= seq![0xA2u8, 0x02]);
                let r = self.emit(&codes);
                let ghost s4 = self.cg(symbol_table@);
                r
            },
        }
    }

    /// Code for an addition; the sum is left in the accumulator. The first
    /// (outermost) addition takes a byte of temporary data that the nested
    /// ones share.
    fn code_gen_add(&mut self, ast: &SyntaxTree, a: usize, symbol_table: &mut SymbolTable, is_first: bool) -> (r: bool)
        requires
            old(self).wf(),
            old(self).clean(),
            ast@.wf(),
            a < ast@.nodes.len(),
            old(symbol_table)@.wf(),
        ensures
            cg_add(ast@, a as int, old(self).cg(old(symbol_table)@), is_first) == outcome(r, final(self).cg(final(symbol_table)@)),
            final(self).wf(),
            r ==> final(self).clean(),
            old(self).grows_to(&*final(self)),
            final(symbol_table)@.wf(),
        decreases ast@.nodes.len() - a, 1int,
    {
        let ghost st = self.cg(symbol_table@);
        let kids = ast.children(a);
        let (right_index, left_index) = match (kid_exec(ast, &kids, a, 0), kid_exec(ast, &kids, a, 1)) {
            (Some(rk), Some(l)) => (rk, l),
            _ => {
                return false;
            },
        };
        let mut temp_addr: usize = self.temp_index.wrapping_sub(1);
        if is_first {
            temp_addr = match self.new_temp() {
                Some(t) => t,
                None => {
                    let ghost s0 = self.cg(symbol_table@);
                    return false;
                },
            };
        }
        let ghost s0 = self.cg(symbol_table@);
        assert((if is_first {
            cg_new_temp(st)
        } else {
            Some((st, st.temps.wrapping_sub(1)))
        }) == Some((s0, temp_addr)));
        let ok = self.code_gen_add_right(ast, right_index, symbol_table, temp_addr);
        let ghost s1 = self.cg(symbol_table@);
        if !ok {
            return false;
        }
        self.code_gen_add_left(ast, left_index, symbol_table, temp_addr, is_first)
    }

    /// The right operand of an addition: a digit or a variable stored at
    /// the temporary, or a nested addition.
    fn code_gen_add_right(&mut self, ast: &SyntaxTree, rk: usize, symbol_table: &mut SymbolTable, temp_addr: usize) -> (r: bool)
        requires
            old(self).wf(),
            old(self).clean(),
            ast@.wf(),
            rk < ast@.nodes.len(),
            old(symbol_table)@.wf(),
        ensures
            cg_add_right(ast@, rk as int, old(self).cg(old(symbol_table)@), temp_addr) == outcome(
                r,
                final(self).cg(final(symbol_table)@),
            ),
            final(self).wf(),
            r ==> final(self).clean(),
            old(self).grows_to(&*final(self)),
            final(symbol_table)@.wf(),
        decreases ast@.nodes.len() - rk, 2int,
    {
        let ghost st = self.cg(symbol_table@);
        match ast.node(rk) {
            SyntaxTreeNode::Terminal(token) => {
                match &token.token_type {
                    TokenType::Digit(num) => {
                        let codes = [0xA9u8, *num];
                        assert(codes@ =~= seq![0xA9u8, *num]);
                        let ok = self.emit(&codes);
                        let ghost s2 = self.cg(symbol_table@);
                        if !ok {
                            return false;
                        }
                    },
                    TokenType::Identifier(_) => {
                        if !self.code_gen_load_leaf(&token.token_type, token.text.as_str(), symbol_table, false) {
                            return false;
                        }
                    },
                    _ => {},
                }
                let ghost s2 = self.cg(symbol_table@);
                let codes = [0x8Du8];
                assert(codes@ =~= seq![0x8Du8]);
                self.emit_temp(&codes, temp_addr, Ghost(symbol_table@))
            },
            SyntaxTreeNode::NonTerminalAst(_) => self.code_gen_add(ast, rk, symbol_table, false),
            _ => true,
        }
    }

    /// The left operand of an addition: a digit added to the temporary.
    fn code_gen_add_left(&mut self, ast: &SyntaxTree, l: usize, symbol_table: &mut SymbolTable, temp_addr: usize, is_first: bool) -> (r: bool)
        requires
            old(self).wf(),
            old(self).clean(),
            ast@.wf(),
            l < ast@.nodes.len(),
            old(symbol_table)@.wf(),
        ensures
            cg_add_left(ast@, l as int, old(self).cg(old(symbol_table)@), temp_addr, is_first) == outcome(
                r,
                final(self).cg(final(symbol_table)@),
            ),
            final(self).wf(),
            r ==> final(self).clean(),
            old(self).grows_to(&*final(self)),
            final(symbol_table)@.wf(),
    {
        match ast.node(l) {
            SyntaxTreeNode::Terminal(token) => {
                match &token.token_type {
                    TokenType::Digit(num) => {
                        let codes = [0xA9u8, *num, 0x6D];
                        assert(codes@ =~= seq![0xA9u8, *num, 0x6D]);
                        if !self.emit_temp(&codes, temp_addr, Ghost(symbol_table@)) {
                            return false;
                        }
                        let ghost s3 = self.cg(symbol_table@);
                        if !is_first {
                            let codes = [0x8Du8];
                            assert(codes@ =~= seq![0x8Du8]);
                            self.emit_temp(&codes, temp_addr, Ghost(symbol_table@))
                        } else {
                            self.release_temp();
                            let ghost s4 = self.cg(symbol_table@);
                            true
                        }
                    },
                    _ => true,
                }
            },
            _ => true,
        }
    }

    /// Load one side of a comparison: into the accumulator (the left side)
    /// or into X (the right side).
    fn code_gen_compare_side(&mut self, ast: &SyntaxTree, c: usize, symbol_table: &mut SymbolTable, to_x: bool) -> (r: bool)
        requires
            old(self).wf(),
            old(self).clean(),
            ast@.wf(),
            c < ast@.nodes.len(),
            old(symbol_table)@.wf(),
        ensures
            cg_compare_side(ast@, c as int, old(self).cg(old(symbol_table)@), to_x) == outcome(r, final(self).cg(final(symbol_table)@)),
            final(self).wf(),
            r ==> final(self).clean(),
            old(self).grows_to(&*final(self)),
            final(symbol_table)@.wf(),
        decreases ast@.nodes.len() - c, 2int,
    {
        match ast.node(c) {
            SyntaxTreeNode::Terminal(token) => {
                self.code_gen_load_leaf(&token.token_type, token.text.as_str(), symbol_table, to_x)
            },
            SyntaxTreeNode::NonTerminalAst(_) => {
                if !self.code_gen_side_value(ast, c, symbol_table) {
                    return false;
                }
                if to_x {
                    self.through_temp(0xAE, Ghost(symbol_table@))
                } else {
                    true
                }
            },
            _ => true,
        }
    }

    /// The value of one side of a comparison into the accumulator.
    fn code_gen_side_value(&mut self, ast: &SyntaxTree, c: usize, symbol_table: &mut SymbolTable) -> (r: bool)
        requires
            old(self).wf(),
            old(self).clean(),
            ast@.wf(),
            c < ast@.nodes.len(),
            old(symbol_table)@.wf(),
        ensures
            cg_side_value(ast@, c as int, old(self).cg(old(symbol_table)@)) == outcome(r, final(self).cg(final(symbol_table)@)),
            final(self).wf(),
            r ==> final(self).clean(),
            old(self).grows_to(&*final(self)),
            final(symbol_table)@.wf(),
        decreases ast@.nodes.len() - c, 1int,
    {
        match ast.node(c) {
            SyntaxTreeNode::NonTerminalAst(nt) => {
                match nt {
                    NonTerminalsAst::Add => self.code_gen_add(ast, c, symbol_table, true),
                    NonTerminalsAst::IsEq | NonTerminalsAst::NotEq => {
                        let is_eq = matches!(nt, NonTerminalsAst::IsEq);
                        if !self.code_gen_compare(ast, c, symbol_table, is_eq) {
                            return false;
                        }
                        let ghost s1 = self.cg(symbol_table@);
                        let r = self.get_z_flag_value();
                        let ghost s2 = self.cg(symbol_table@);
                        r
                    },
                    _ => true,
                }
            },
            _ => true,
        }
    }

    /// Code for a comparison; the result is left in the Z flag (set when
    /// the comparison holds).
    fn code_gen_compare(&mut self, ast: &SyntaxTree, a: usize, symbol_table: &mut SymbolTable, is_eq: bool) -> (r: bool)
        requires
            old(self).wf(),
            old(self).clean(),
            ast@.wf(),
            a < ast@.nodes.len(),
            old(symbol_table)@.wf(),
        ensures
            cg_compare(ast@, a as int, old(self).cg(old(symbol_table)@), is_eq) == outcome(r, final(self).cg(final(symbol_table)@)),
            final(self).wf(),
            r ==> final(self).clean(),
            old(self).grows_to(&*final(self)),
            final(symbol_table)@.wf(),
        decreases ast@.nodes.len() - a, 0int,
    {
        let kids = ast.children(a);
        let (right_index, left_index) = match (kid_exec(ast, &kids, a, 0), kid_exec(ast, &kids, a, 1)) {
            (Some(rk), Some(l)) => (rk, l),
            _ => {
                return false;
            },
        };
        if !self.code_gen_compare_side(ast, left_index, symbol_table, false) {
            return false;
        }
        let left_temp = match self.new_temp() {
            Some(t) => t,
            None => {
                let ghost s2 = self.cg(symbol_table@);
                return false;
            },
        };
        let ghost s2 = self.cg(symbol_table@);
        let codes = [0x8Du8];
        assert(codes@ =~= seq![0x8Du8]);
        if !self.emit_temp(&codes, left_temp, Ghost(symbol_table@)) {
            return false;
        }
        if !self.code_gen_compare_side(ast, right_index, symbol_table, true) {
            return false;
        }
        self.compare_finish(left_temp, is_eq, Ghost(symbol_table@))
    }

    /// The end of a comparison: X compared with the left side at its
    /// temporary, which is given back; for inequality, the Z flag inverted.
    fn compare_finish(&mut self, left_temp: usize, is_eq: bool, Ghost(t): Ghost<SpecSymbolTable>) -> (r: bool)
        requires
            old(self).wf(),
            old(self).clean(),
        ensures
            cg_compare_finish(old(self).cg(t), left_temp, is_eq) == outcome(r, final(self).cg(t)),
            final(self).wf(),
            r ==> final(self).clean(),
            old(self).grows_to(&*final(self)),
    {
        let codes = [0xECu8];
        assert(codes@ =~= seq![0xECu8]);
        if !self.emit_temp(&codes, left_temp, Ghost(t)) {
            return false;
        }
        self.release_temp();
        let ghost s8 = self.cg(t);
        if !is_eq {
            let codes = [0xA2u8, 0x00, 0xD0, 0x02, 0xA2, 0x01, 0xEC, 0xFF, 0x00];
            assert(codes@ =~= seq![0xA2u8, 0x00, 0xD0, 0x02, 0xA2, 0x01, 0xEC, 0xFF, 0x00]);
            self.emit(&codes)
        } else {
            true
        }
    }

    /// The condition of an if or while: the comparison, then a branch
    /// placeholder past the body; the address after it and the index of its
    /// branch offset, and whether the condition is the constant false.
    fn code_gen_condition(&mut self, ast: &SyntaxTree, cond: usize, symbol_table: &mut SymbolTable) -> (r: Option<(u8, usize, bool)>)
        requires
            old(self).wf(),
            old(self).clean(),
            ast@.wf(),
            cond < ast@.nodes.len(),
            old(symbol_table)@.wf(),
        ensures
            cg_condition(ast@, cond as int, old(self).cg(old(symbol_table)@)) == match r {
                Some((start, j, done)) => Some((final(self).cg(final(symbol_table)@), start, j, done)),
                None => None,
            },
            r matches Some((start, j, done)) ==> start != 0 ==> start == final(self).code_pointer && j
                < final(self).jumps@.len(),
            final(self).wf(),
            r is Some ==> final(self).clean(),
            old(self).grows_to(&*final(self)),
            final(symbol_table)@.wf(),
    {
        match ast.node(cond) {
            SyntaxTreeNode::NonTerminalAst(nt) => {
                match nt {
                    NonTerminalsAst::IsEq | NonTerminalsAst::NotEq => {
                        let is_eq = matches!(nt, NonTerminalsAst::IsEq);
                        if !self.code_gen_compare(ast, cond, symbol_table, is_eq) {
                            return None;
                        }
                    },
                    _ => {},
                }
                let ghost s1 = self.cg(symbol_table@);
                let codes = [0xD0u8];
                assert(codes@ =~= seq![0xD0u8]);
                let ok = self.emit(&codes);
                let ghost s2 = self.cg(symbol_table@);
                if !ok {
                    return None;
                }
                let jump_index: usize = self.jumps.len();
                let ok = self.add_jump();
                let ghost s3 = self.cg(symbol_table@);
                if !ok {
                    return None;
                }
                Some((self.code_pointer, jump_index, false))
            },
            SyntaxTreeNode::Terminal(token) => Some((0, 0, token.token_type.is_keyword(Keywords::False))),
            _ => Some((0, 0, false)),
        }
    }

    /// Set the branch offset at `j` to the distance from `start` to the code
    /// pointer (nothing when `start` is zero).
    fn set_forward(&mut self, start: u8, j: usize, Ghost(t): Ghost<SpecSymbolTable>)
        requires
            old(self).wf(),
            start != 0 ==> start <= old(self).code_pointer && j < old(self).jumps@.len(),
        ensures
            final(self).cg(t) == cg_set_forward(old(self).cg(t), start, j),
            final(self).wf(),
            final(self).clean() == old(self).clean(),
            old(self).grows_to(&*final(self)),
            final(self).code_pointer == old(self).code_pointer,
            final(self).jumps@.len() == old(self).jumps@.len(),
    {
        if start != 0 {
            let offset: u8 = self.code_pointer - start;
            self.jumps.set(j, offset);
            assert(self.cg(t) =~= cg_set_forward(old(self).cg(t), start, j));
        }
    }

    /// Code for an if statement: branch over the body when the condition
    /// fails; a false condition generates nothing.
    fn code_gen_if(&mut self, ast: &SyntaxTree, a: usize, symbol_table: &mut SymbolTable) -> (r: bool)
        requires
            old(self).wf(),
            old(self).clean(),
            ast@.wf(),
            a < ast@.nodes.len(),
            old(symbol_table)@.wf(),
        ensures
            cg_if(ast@, a as int, old(self).cg(old(symbol_table)@)) == outcome(r, final(self).cg(final(symbol_table)@)),
            final(self).wf(),
            r ==> final(self).clean(),
            old(self).grows_to(&*final(self)),
            final(symbol_table)@.wf(),
        decreases ast@.nodes.len() - a, 1int, 0int,
    {
        let kids = ast.children(a);
        let (body_index, cond_index) = match (kid_exec(ast, &kids, a, 0), kid_exec(ast, &kids, a, 1)) {
            (Some(b), Some(c)) => (b, c),
            _ => {
                return false;
            },
        };
        let (start_addr, jump_index, done) = match self.code_gen_condition(ast, cond_index, symbol_table) {
            Some(x) => x,
            None => {
                return false;
            },
        };
        if done {
            return true;
        }
        let ghost s1 = self.cg(symbol_table@);
        if !self.code_gen_block(ast, body_index, symbol_table) {
            return false;
        }
        let ghost s2 = self.cg(symbol_table@);
        self.set_forward(start_addr, jump_index, Ghost(symbol_table@));
        true
    }

    /// Code for a while statement: the condition, a branch past the loop
    /// when it fails, the body, and an unconditional branch back to the
    /// condition; a false condition generates nothing.
    fn code_gen_while(&mut self, ast: &SyntaxTree, a: usize, symbol_table: &mut SymbolTable) -> (r: bool)
        requires
            old(self).wf(),
            old(self).clean(),
            ast@.wf(),
            a < ast@.nodes.len(),
            old(symbol_table)@.wf(),
        ensures
            cg_while(ast@, a as int, old(self).cg(old(symbol_table)@)) == outcome(r, final(self).cg(final(symbol_table)@)),
            final(self).wf(),
            r ==> final(self).clean(),
            old(self).grows_to(&*final(self)),
            final(symbol_table)@.wf(),
        decreases ast@.nodes.len() - a, 1int, 0int,
    {
        let ghost st = self.cg(symbol_table@);
        let kids = ast.children(a);
        let (body_index, cond_index) = match (kid_exec(ast, &kids, a, 0), kid_exec(ast, &kids, a, 1)) {
            (Some(b), Some(c)) => (b, c),
            _ => {
                return false;
            },
        };
        let loop_start_addr: u8 = self.code_pointer;
        let (body_start_addr, body_jump_index, done) = match self.code_gen_condition(ast, cond_index, symbol_table) {
            Some(x) => x,
            None => {
                return false;
            },
        };
        if done {
            return true;
        }
        let ghost s1 = self.cg(symbol_table@);
        if !self.code_gen_block(ast, body_index, symbol_table) {
            return false;
        }
        let ghost s2 = self.cg(symbol_table@);
        let codes = [0xA2u8, 0x01, 0xEC, 0xFF, 0x00, 0xD0];
        assert(codes@ =~= seq![0xA2u8, 0x01, 0xEC, 0xFF, 0x00, 0xD0]);
        let ok = self.emit(&codes);
        let ghost s3 = self.cg(symbol_table@);
        if !ok {
            return false;
        }
        let unconditional_jump_index: usize = self.jumps.len();
        let ok = self.add_jump();
        let ghost s4 = self.cg(symbol_table@);
        if !ok {
            return false;
        }
        self.set_forward(body_start_addr, body_jump_index, Ghost(symbol_table@));
        let ghost s5 = self.cg(symbol_table@);
        let distance: u8 = self.code_pointer - loop_start_addr;
        assert(distance > 0);
        assert(!distance == 255 - distance && (!distance).wrapping_add(1) == 256 - distance) by (bit_vector)
            requires
                distance > 0,
        ;
        let unconditional_branch_offset: u8 = !distance + 1;
        self.jumps.set(unconditional_jump_index, unconditional_branch_offset);
        assert(self.cg(symbol_table@) =~= CgState {
            jumps: s5.jumps.update(s3.jumps.len() as int, (!distance).wrapping_add(1)),
            ..s5
        });
        true
    }

    /// Whether the top twelve cells hold the boolean strings.
    pub closed spec fn top_holds_booleans(&self) -> bool {
        forall|k: int|
            0 <= k < 12 ==> (#[trigger] self.code_arr@[0xF4 + k]).byte() == boolean_strings()[k]
                && !self.code_arr@[0xF4 + k].is_placeholder()
    }

    /// Start over with an empty image holding only the strings "false" and
    /// "true" (in that order, from the top of the heap down).
    fn start_image(&mut self, Ghost(t): Ghost<SpecSymbolTable>) -> (r: bool)
        ensures
            cg_start(t) == outcome(r, final(self).cg(t)),
            final(self).wf(),
            final(self).clean(),
            r ==> final(self).heap_pointer == 0xF3,
            r ==> final(self).top_holds_booleans(),
    {
        let fresh = CodeGenerator::new();
        *self = fresh;
        let ghost s0 = *self;
        assert(self.cg(t) =~= cg_fresh(t)) by {
            assert(self.code_arr@ =~= cg_fresh(t).cells);
            assert(self.static_table@.map_values(|e: ((String, usize), usize)| (e.0.0@, e.0.1, e.1)) =~= Seq::<
                (Seq<char>, usize, usize),
            >::empty());
            assert(self.string_history@.map_values(|p: (String, u8)| (p.0@, p.1)) =~= Seq::<(Seq<char>, u8)>::empty());
        }
        proof {
            reveal_strlit("false");
            reveal_strlit("true");
            assert(!history_has(self.string_history@, "false"@));
        }
        let f = self.store_string("false");
        let ghost s1 = *self;
        let ghost c1 = self.cg(t);
        proof {
            assert(!history_has(self.string_history@, "true"@)) by {
                assert(self.string_history@.len() == 1);
                assert(self.string_history@[0].0@ == "false"@);
                assert("false"@.len() != "true"@.len());
            }
        }
        let tr = self.store_string("true");
        let ghost c2 = self.cg(t);
        if f.is_none() || tr.is_none() {
            return false;
        }
        proof {
            Self::lemma_boolean_cells(s0, s1, *self);
        }
        true
    }

    proof fn lemma_boolean_cells(s0: CodeGenerator, s1: CodeGenerator, s2: CodeGenerator)
        requires
            s0.is_fresh(),
            s0.grows_to(&s1),
            s1.grows_to(&s2),
            s1.heap_pointer == 0xF8,
            s2.heap_pointer == 0xF3,
            forall|k: int|
                0 <= k <= 5 ==> #[trigger] s1.code_arr@[0xF9 + k] == CodeGenBytes::Data(stored_bytes("false"@)[k]),
            forall|k: int|
                0 <= k <= 4 ==> #[trigger] s2.code_arr@[0xF4 + k] == CodeGenBytes::Data(stored_bytes("true"@)[k]),
        ensures
            s2.top_holds_booleans(),
    {
        lemma_bool_bytes();
        assert forall|k: int| 0 <= k < 12 implies (#[trigger] s2.code_arr@[0xF4 + k]).byte()
            == boolean_strings()[k] && !s2.code_arr@[0xF4 + k].is_placeholder() by {
            if k < 5 {
                assert(s2.code_arr@[0xF4 + k] == CodeGenBytes::Data(stored_bytes("true"@)[k]));
            } else if k < 11 {
                assert(s1.code_arr@[0xF9 + (k - 5)] == CodeGenBytes::Data(stored_bytes("false"@)[k - 5]));
                assert(s2.code_arr@[0xF4 + k] == s1.code_arr@[0xF4 + k]);
            } else {
                assert(s2.code_arr@[0xFF] == s1.code_arr@[0xFF]);
                assert(s1.code_arr@[0xFF] == s0.code_arr@[0xFF]);
            }
        }
    }

    /// Generate the 6502 image of an analyzed AST (the symbol table is the
    /// one semantic analysis built for it): the code, a halt, and the
    /// strings "true" and "false" at the top of the heap, every address
    /// backpatched; None when the program does not fit in 256 bytes or the
    /// tree is not one analysis accepted.
    pub fn generate_code(&mut self, ast: &SyntaxTree, symbol_table: &mut SymbolTable) -> (r: Option<Vec<u8>>)
        requires
            ast@.wf(),
            old(symbol_table)@.wf(),
        ensures
            final(self).wf(),
            final(symbol_table)@.wf(),
            r is Some <==> cg_program(ast@, old(symbol_table)@) is Some,
            r matches Some(img) ==> img@ == cg_image(cg_program(ast@, old(symbol_table)@)->0),
            r matches Some(img) ==> {
                &&& img@ == final(self).image()
                &&& final(self).resolved()
                &&& img@.len() == IMAGE_SIZE
                &&& 0 < final(self).code_end() <= 0xF4
                &&& img@[final(self).code_end() - 1] == 0
                &&& img@.subrange(0xF4, 0x100) == boolean_strings()
            },
    {
        let ghost t0 = symbol_table@;
        if !self.start_image(Ghost(symbol_table@)) {
            return None;
        }
        let ghost s0 = self.cg(t0);
        let root = match ast.root_index() {
            Some(rt) => rt,
            None => {
                return None;
            },
        };
        let ghost before_gen = *self;
        if !self.code_gen_block(ast, root, symbol_table) {
            return None;
        }
        let ghost s1 = self.cg(symbol_table@);
        if !self.add_code(0x00) {
            return None;
        }
        let ghost before_patch = *self;
        let ghost s2 = self.cg(symbol_table@);
        assert(cg_program(ast@, t0) == Some(s2));
        proof {
            self.lemma_top_kept(&before_gen);
        }
        self.backpatch_addresses();
        proof {
            self.lemma_after_patch(&before_patch);
        }
        let img = self.image_bytes();
        proof {
            assert(img@.subrange(0xF4, 0x100) =~= boolean_strings());
            assert(before_patch.cg(symbol_table@) == s2);
        }
        Some(img)
    }

    proof fn lemma_top_kept(&self, before: &CodeGenerator)
        requires
            before.wf(),
            before.heap_pointer == 0xF3,
            before.top_holds_booleans(),
            before.grows_to(self),
        ensures
            self.top_holds_booleans(),
    {
        assert forall|k: int| 0 <= k < 12 implies (#[trigger] self.code_arr@[0xF4 + k]).byte()
            == boolean_strings()[k] && !self.code_arr@[0xF4 + k].is_placeholder() by {
            assert(self.code_arr@[0xF4 + k] == before.code_arr@[0xF4 + k]);
        }
    }

    proof fn lemma_after_patch(&self, before: &CodeGenerator)
        requires
            before.wf(),
            before.clean(),
            before.heap_pointer <= 0xF3,
            before.code_pointer > 0,
            before.code_arr@[before.code_pointer - 1] == CodeGenBytes::Code(0),
            before.top_holds_booleans(),
            self.code_arr@.len() == IMAGE_SIZE,
            self.code_pointer == before.code_pointer,
            forall|i: int|
                0 <= i < IMAGE_SIZE && !before.code_arr@[i].is_placeholder() && !(i > 0 && (
                before.code_arr@[i - 1] is Var || before.code_arr@[i - 1] is Temp)) ==> #[trigger] self.code_arr@[i]
                    == before.code_arr@[i],
            forall|i: int|
                0 < i < IMAGE_SIZE && (before.code_arr@[i - 1] is Var || before.code_arr@[i - 1] is Temp)
                    ==> #[trigger] self.code_arr@[i] == CodeGenBytes::Code(0),
        ensures
            self.image().subrange(0xF4, 0x100) == boolean_strings(),
            self.image()[self.code_end() - 1] == 0,
            0 < self.code_end() <= 0xF4,
    {
        assert forall|k: int| 0 <= k < 12 implies #[trigger] self.code_arr@[0xF4 + k] == before.code_arr@[0xF4 + k] by {
            let i = 0xF4 + k;
            assert(!before.code_arr@[i].is_placeholder());
            if before.code_arr@[i - 1] is Var || before.code_arr@[i - 1] is Temp {
                assert(before.code_arr@[i - 1] != CodeGenBytes::Empty);
                assert(i - 1 < before.code_pointer);
            }
        }
        assert(self.image().subrange(0xF4, 0x100) =~= boolean_strings()) by {
            assert forall|k: int| 0 <= k < 12 implies self.image().subrange(0xF4, 0x100)[k] == boolean_strings()[k] by {
                assert(self.code_arr@[0xF4 + k] == before.code_arr@[0xF4 + k]);
            }
        }
        let last = before.code_pointer - 1;
        if last > 0 && (before.code_arr@[last - 1] is Var || before.code_arr@[last - 1] is Temp) {
            assert(self.code_arr@[last] == CodeGenBytes::Code(0));
        } else {
            assert(self.code_arr@[last] == before.code_arr@[last]);
        }
    }
}

} // verus!
