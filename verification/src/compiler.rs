//! The native-code generator: turns a single-run program whose symbols
//! are one byte long into assembly text that prints the initial tape
//! and installs a tape-printing routine specialized to its length.

use vstd::prelude::*;
use vstd::string::*;

use crate::bytes::dec_rep;
use crate::bytes::lit_vec;
use crate::bytes::push_bytes;
use crate::bytes::push_dec;
use crate::bytes::push_lit;
use crate::parser::seqs_view;
use crate::parser::RunCmd;
use crate::parser::InstrV;
use crate::parser::ProgV;
use crate::parser::Program;

verus! {

/// A precondition of the generator was violated.
#[derive(Clone, Copy, Debug, PartialEq, Eq, Structural)]
pub enum CompileErr {
    /// The program does not hold exactly one `#run` directive.
    MultiRun,
    /// A symbol of an instruction field or of the run's tape is not
    /// exactly one byte long.
    WideSym,
}

/// First index at or after `i` holding this key.
pub open spec fn key_index(keys: Seq<Seq<u8>>, k: Seq<u8>, i: int) -> Option<int>
    decreases keys.len() - i,
{
    if i < 0 || i >= keys.len() {
        None
    } else if keys[i] == k {
        Some(i)
    } else {
        key_index(keys, k, i + 1)
    }
}

/// The first `i` bytes of a symbol as decimal values joined by commas,
/// the form its bytes take in a `db` directive.
pub open spec fn db_upto(s: Seq<u8>, i: int) -> Seq<u8>
    decreases i,
{
    if i <= 0 {
        Seq::empty()
    } else if i == 1 {
        dec_rep(s[0] as nat)
    } else {
        db_upto(s, i - 1) + ",".spec_bytes() + dec_rep(s[i - 1] as nat)
    }
}

/// Model of the generator's symbol table: keys are symbol texts, names
/// the labels their string constants were emitted under; insertion
/// order is kept and the first name assigned to a key wins.
pub ghost struct CompilerV {
    pub keys: Seq<Seq<u8>>,
    pub names: Seq<Seq<u8>>,
}

/// Declaring a string constant: a new key emits one `db` line under its
/// label and is recorded; a key already present emits nothing.
pub open spec fn spec_add_str(cv: CompilerV, out: Seq<u8>, s: Seq<u8>, name: Seq<u8>) -> (
    CompilerV,
    Seq<u8>,
) {
    if key_index(cv.keys, s, 0) is Some {
        (cv, out)
    } else {
        (
            CompilerV { keys: cv.keys.push(s), names: cv.names.push(name) },
            out + "    str_".spec_bytes() + name + ": db ".spec_bytes() + db_upto(
                s,
                s.len() as int,
            ) + "\n".spec_bytes(),
        )
    }
}

/// The string constants of the instructions, declared in program order:
/// next state, read symbol, write symbol of each.
pub open spec fn spec_add_instr_strs(cv: CompilerV, out: Seq<u8>, instrs: Seq<InstrV>, i: int) -> (
    CompilerV,
    Seq<u8>,
)
    decreases instrs.len() - i,
{
    if i < 0 || i >= instrs.len() {
        (cv, out)
    } else {
        let (cv1, o1) = spec_add_str(cv, out, instrs[i].next_state, instrs[i].next_state);
        let (cv2, o2) = spec_add_str(cv1, o1, instrs[i].read, instrs[i].read);
        let (cv3, o3) = spec_add_str(cv2, o2, instrs[i].write, instrs[i].write);
        spec_add_instr_strs(cv3, o3, instrs, i + 1)
    }
}

/// The string constants of the run's tape symbols, in tape order.
pub open spec fn spec_add_tape_strs(cv: CompilerV, out: Seq<u8>, tape: Seq<Seq<u8>>, i: int) -> (
    CompilerV,
    Seq<u8>,
)
    decreases tape.len() - i,
{
    if i < 0 || i >= tape.len() {
        (cv, out)
    } else {
        let (cv1, o1) = spec_add_str(cv, out, tape[i], tape[i]);
        spec_add_tape_strs(cv1, o1, tape, i + 1)
    }
}

/// A print of a named string constant: its length and its label.
pub open spec fn spec_print_sym(cv: CompilerV, s: Seq<u8>) -> Seq<u8> {
    let name = cv.names[key_index(cv.keys, s, 0).unwrap()];
    "    mov rdx, ".spec_bytes() + dec_rep(s.len()) + "\n    mov rsi, str_".spec_bytes() + name
        + "\n    mov rdi, 1\n    mov rax, 1\n    syscall\n".spec_bytes()
}

/// A print of `len` bytes at a static address.
pub open spec fn spec_print_addr(addr: Seq<u8>, len: nat) -> Seq<u8> {
    "    mov rdx, ".spec_bytes() + dec_rep(len) + "\n    mov rsi, ".spec_bytes() + addr
        + "\n    mov rdi, 1\n    mov rax, 1\n    syscall\n".spec_bytes()
}

/// The stores that fill the static tape buffer with the run's initial
/// cells, one immediate byte store per cell.
pub open spec fn spec_tape_stores(tape: Seq<Seq<u8>>, i: int) -> Seq<u8>
    decreases i,
{
    if i <= 0 {
        Seq::empty()
    } else {
        spec_tape_stores(tape, i - 1) + "    mov byte [tape + ".spec_bytes() + dec_rep(
            (i - 1) as nat,
        ) + "], '".spec_bytes() + tape[i - 1] + "'\n".spec_bytes()
    }
}

/// The straight-line stores of the printing routine: cell `k` of the
/// tape lands at offset `(k + 1) * 2` of the print buffer, a space
/// right after it.
pub open spec fn spec_print_cells(i: int) -> Seq<u8>
    decreases i,
{
    if i <= 0 {
        Seq::empty()
    } else {
        spec_print_cells(i - 1) + "    mov rax, [tape+".spec_bytes() + dec_rep((i - 1) as nat)
            + "]\n    mov [print_buf+".spec_bytes() + dec_rep((i * 2) as nat)
            + "], rax\n    mov byte [print_buf+".spec_bytes() + dec_rep((i * 2 + 1) as nat)
            + "], ' '\n".spec_bytes()
    }
}

/// The tape-printing routine, specialized to a tape of `len` cells: the
/// opening bracket, one store pair per cell, the closing bracket and
/// newline at fixed offsets, then a counted loop that pads up to the
/// head's column and writes the caret.
pub open spec fn spec_tape_print(len: nat) -> Seq<u8> {
    "tape_print:\n    push rax\n    push rcx\n    mov byte [print_buf], '['\n    mov byte [print_buf+1], ' '\n".spec_bytes()
        + spec_print_cells(len as int) + "    mov byte [print_buf+".spec_bytes() + dec_rep(
        (len + 1) * 2,
    ) + "], ']'\n    mov byte [print_buf+".spec_bytes() + dec_rep((len + 1) * 2 + 1)
        + "], 10\n    mov ecx, head\n    mov rax, ".spec_bytes() + dec_rep((len + 1) * 2 + 2)
        + "\nl1:\n    mov byte [print_buf+rax], ' '\n    inc rax\n    loop l1\n    mov byte [print_buf+rax], '^'\n    pop rax\n    pop rcx\n    ret\n".spec_bytes()
}

/// The static storage: head and state cells, the tape buffer, and the
/// scratch buffer the printing routine builds its line in.
pub open spec fn spec_static_buf() -> Seq<u8> {
    "section '.bss' writable\n    head:      rb 1\n    state:     rb 1\n    tape:      rb 256\n    print_buf: rb 256\n".spec_bytes()
}

/// The process exit: a write-free syscall with status zero.
pub open spec fn spec_exit() -> Seq<u8> {
    "    mov rax, 60\n    mov rdi, 0\n    syscall\n".spec_bytes()
}

/// The fixed string constants every generated program declares.
pub open spec fn spec_fixed_strs(cv: CompilerV, out: Seq<u8>) -> (CompilerV, Seq<u8>) {
    let (cv1, o1) = spec_add_str(cv, out, "[".spec_bytes(), "bra".spec_bytes());
    let (cv2, o2) = spec_add_str(cv1, o1, "]".spec_bytes(), "ket".spec_bytes());
    let (cv3, o3) = spec_add_str(cv2, o2, "->".spec_bytes(), "rightarrow".spec_bytes());
    let (cv4, o4) = spec_add_str(cv3, o3, "<-".spec_bytes(), "leftarrow".spec_bytes());
    let (cv5, o5) = spec_add_str(cv4, o4, "^".spec_bytes(), "halt".spec_bytes());
    let (cv6, o6) = spec_add_str(cv5, o5, " ".spec_bytes(), "space".spec_bytes());
    let (cv7, o7) = spec_add_str(cv6, o6, "\n".spec_bytes(), "nl".spec_bytes());
    spec_add_str(cv7, o7, " -- HALT -- ".spec_bytes(), "halted".spec_bytes())
}

/// The whole generated text for a valid program: the data section with
/// its deduplicated string constants, the static buffers, and the
/// executable section that fills and prints the tape, calls the
/// printing routine, exits, and carries that routine.
pub open spec fn spec_compile(p: ProgV) -> Seq<u8> {
    let cv0 = CompilerV { keys: Seq::empty(), names: Seq::empty() };
    let o0 = "format ELF64\nsection '.data' writeable\n".spec_bytes();
    let (cv1, o1) = spec_fixed_strs(cv0, o0);
    let (cv2, o2) = spec_add_instr_strs(cv1, o1, p.instrs, 0);
    let (cv3, o3) = spec_add_tape_strs(cv2, o2, p.runs[0].tape, 0);
    let tape = p.runs[0].tape;
    let len = tape.len();
    o3 + spec_static_buf()
        + "section '.text' executable\npublic _start\n_start:\n    mov byte [head], 3\n".spec_bytes()
        + spec_tape_stores(tape, len as int) + spec_print_addr("tape".spec_bytes(), len)
        + spec_print_sym(cv3, "\n".spec_bytes()) + "    call tape_print\n".spec_bytes()
        + spec_print_addr("print_buf".spec_bytes(), ((len + 1) * 2 + 1) * 2) + spec_print_sym(
        cv3,
        "\n".spec_bytes(),
    ) + spec_exit() + spec_tape_print(len)
}

/// Every symbol of the tape is exactly one byte long.
pub open spec fn all_one_byte(tape: Seq<Seq<u8>>) -> bool {
    forall|j: int| 0 <= j < tape.len() ==> tape[j].len() == 1
}

/// Every symbol field of every instruction is exactly one byte long.
pub open spec fn instrs_one_byte(instrs: Seq<InstrV>) -> bool {
    forall|j: int|
        0 <= j < instrs.len() ==> instrs[j].state.len() == 1 && instrs[j].read.len() == 1
            && instrs[j].write.len() == 1 && instrs[j].next_state.len() == 1
}

/// The generator: the symbol table of string constants emitted so far.
pub struct Compiler {
    keys: Vec<Vec<u8>>,
    names: Vec<Vec<u8>>,
}

impl View for Compiler {
    type V = CompilerV;

    closed spec fn view(&self) -> CompilerV {
        CompilerV { keys: seqs_view(self.keys@), names: seqs_view(self.names@) }
    }
}

impl Default for Compiler {
    /// A generator with an empty symbol table.
    fn default() -> (r: Compiler)
        ensures
            r@.keys.len() == 0,
            r@.names.len() == 0,
    {
        let r = Compiler { keys: Vec::new(), names: Vec::new() };
        proof {
            assert(seqs_view(r.keys@) =~= Seq::<Seq<u8>>::empty());
            assert(seqs_view(r.names@) =~= Seq::<Seq<u8>>::empty());
        }
        r
    }
}

impl Compiler {
    /// Index of a key in the symbol table, if present.
    fn find_key(&self, k: &Vec<u8>) -> (r: Option<usize>)
        ensures
            match r {
                Some(i) => i < self@.keys.len() && key_index(self@.keys, k@, 0) == Some(i as int),
                None => key_index(self@.keys, k@, 0) is None,
            },
    {
        let mut i: usize = 0;
        while i < self.keys.len()
            invariant
                i <= self.keys@.len(),
                key_index(self@.keys, k@, 0) == key_index(self@.keys, k@, i as int),
            decreases self.keys@.len() - i,
        {
            proof {
                assert(self@.keys[i as int] == self.keys@[i as int]@);
            }
            if crate::interp::bytes_eq(&self.keys[i], k) {
                return Some(i);
            }
            i = i + 1;
        }
        None
    }

    /// Declares a string constant under the given label, unless the
    /// symbol already has one: the first name assigned wins.
    fn asm_str_name(&mut self, s: Vec<u8>, name: Vec<u8>, out: &mut Vec<u8>)
        requires
            old(self)@.keys.len() == old(self)@.names.len(),
        ensures
            final(self)@.keys.len() == final(self)@.names.len(),
            (final(self)@, final(out)@) == spec_add_str(old(self)@, old(out)@, s@, name@),
    {
        match self.find_key(&s) {
            Some(_) => {},
            None => {
                push_lit(out, "    str_");
                push_bytes(out, &name);
                push_lit(out, ": db ");
                let mut i: usize = 0;
                let ghost base = out@;
                proof {
                    assert(out@ =~= base + db_upto(s@, 0));
                }
                while i < s.len()
                    invariant
                        i <= s@.len(),
                        out@ == base + db_upto(s@, i as int),
                    decreases s@.len() - i,
                {
                    if i > 0 {
                        push_lit(out, ",");
                    }
                    push_dec(out, s[i] as u64);
                    i = i + 1;
                    assert(out@ =~= base + db_upto(s@, i as int));
                }
                push_lit(out, "\n");
                let ghost old_keys = self.keys@;
                let ghost old_names = self.names@;
                self.keys.push(s);
                self.names.push(name);
                proof {
                    assert(seqs_view(self.keys@) =~= seqs_view(old_keys).push(s@));
                    assert(seqs_view(self.names@) =~= seqs_view(old_names).push(name@));
                    assert(out@ =~= old(out)@ + "    str_".spec_bytes() + name@
                        + ": db ".spec_bytes() + db_upto(s@, s@.len() as int) + "\n".spec_bytes());
                }
            },
        }
    }

    /// Declares a symbol's string constant under its own text.
    fn asm_str(&mut self, s: Vec<u8>, out: &mut Vec<u8>)
        requires
            old(self)@.keys.len() == old(self)@.names.len(),
        ensures
            final(self)@.keys.len() == final(self)@.names.len(),
            (final(self)@, final(out)@) == spec_add_str(old(self)@, old(out)@, s@, s@),
    {
        let name = crate::lexer::copy_range(&s, 0, s.len());
        proof {
            assert(s@.subrange(0, s@.len() as int) =~= s@);
        }
        self.asm_str_name(s, name, out);
    }

    /// Emits a print of a declared string constant.
    fn asm_print(&self, s: &Vec<u8>, out: &mut Vec<u8>)
        requires
            self@.keys.len() == self@.names.len(),
            key_index(self@.keys, s@, 0) is Some,
        ensures
            final(out)@ == old(out)@ + spec_print_sym(self@, s@),
    {
        let idx = match self.find_key(s) {
            Some(i) => i,
            None => {
                proof {
                    assert(false);
                }
                0
            },
        };
        push_lit(out, "    mov rdx, ");
        push_dec(out, s.len() as u64);
        push_lit(out, "\n    mov rsi, str_");
        proof {
            assert(self@.names[idx as int] == self.names@[idx as int]@);
        }
        push_bytes(out, &self.names[idx]);
        push_lit(out, "\n    mov rdi, 1\n    mov rax, 1\n    syscall\n");
        proof {
            assert(out@ =~= old(out)@ + spec_print_sym(self@, s@));
        }
    }
}

/// A key found from the start keeps its place when the table grows at
/// the end.
proof fn lemma_key_index_prefix(keys1: Seq<Seq<u8>>, keys2: Seq<Seq<u8>>, k: Seq<u8>, i: int)
    requires
        keys1.len() <= keys2.len(),
        keys2.subrange(0, keys1.len() as int) == keys1,
        0 <= i <= keys1.len(),
        key_index(keys1, k, i) is Some,
    ensures
        key_index(keys2, k, i) == key_index(keys1, k, i),
    decreases keys1.len() - i,
{
    if i < keys1.len() {
        assert(keys2[i] == keys1[i]);
        if keys1[i] == k {
        } else {
            lemma_key_index_prefix(keys1, keys2, k, i + 1);
        }
    }
}

/// Declaring one string constant keeps the table's existing entries.
proof fn lemma_add_str_grows(cv: CompilerV, out: Seq<u8>, s: Seq<u8>, name: Seq<u8>)
    ensures
        ({
            let (cv2, o2) = spec_add_str(cv, out, s, name);
            cv2.keys.len() >= cv.keys.len() && cv2.keys.subrange(0, cv.keys.len() as int)
                == cv.keys && cv2.names.subrange(0, cv.names.len() as int) == cv.names
                && cv2.names.len() - cv2.keys.len() == cv.names.len() - cv.keys.len()
        }),
{
    let (cv2, o2) = spec_add_str(cv, out, s, name);
    assert(cv2.keys.subrange(0, cv.keys.len() as int) =~= cv.keys);
    assert(cv2.names.subrange(0, cv.names.len() as int) =~= cv.names);
}

/// Declaring the instructions' constants keeps the table's existing
/// entries.
proof fn lemma_add_instr_strs_grows(cv: CompilerV, out: Seq<u8>, instrs: Seq<InstrV>, i: int)
    ensures
        ({
            let (cv2, o2) = spec_add_instr_strs(cv, out, instrs, i);
            cv2.keys.len() >= cv.keys.len() && cv2.keys.subrange(0, cv.keys.len() as int)
                == cv.keys && cv2.names.len() - cv2.keys.len() == cv.names.len() - cv.keys.len()
        }),
    decreases instrs.len() - i,
{
    if 0 <= i < instrs.len() {
        let (cv1, o1) = spec_add_str(cv, out, instrs[i].next_state, instrs[i].next_state);
        lemma_add_str_grows(cv, out, instrs[i].next_state, instrs[i].next_state);
        let (cv2, o2) = spec_add_str(cv1, o1, instrs[i].read, instrs[i].read);
        lemma_add_str_grows(cv1, o1, instrs[i].read, instrs[i].read);
        let (cv3, o3) = spec_add_str(cv2, o2, instrs[i].write, instrs[i].write);
        lemma_add_str_grows(cv2, o2, instrs[i].write, instrs[i].write);
        lemma_add_instr_strs_grows(cv3, o3, instrs, i + 1);
        let (cv4, o4) = spec_add_instr_strs(cv3, o3, instrs, i + 1);
        assert(cv4.keys.subrange(0, cv.keys.len() as int) =~= cv.keys);
    }
}

/// Declaring the tape's constants keeps the table's existing entries.
proof fn lemma_add_tape_strs_grows(cv: CompilerV, out: Seq<u8>, tape: Seq<Seq<u8>>, i: int)
    ensures
        ({
            let (cv2, o2) = spec_add_tape_strs(cv, out, tape, i);
            cv2.keys.len() >= cv.keys.len() && cv2.keys.subrange(0, cv.keys.len() as int)
                == cv.keys && cv2.names.len() - cv2.keys.len() == cv.names.len() - cv.keys.len()
        }),
    decreases tape.len() - i,
{
    if 0 <= i < tape.len() {
        let (cv1, o1) = spec_add_str(cv, out, tape[i], tape[i]);
        lemma_add_str_grows(cv, out, tape[i], tape[i]);
        lemma_add_tape_strs_grows(cv1, o1, tape, i + 1);
        let (cv2, o2) = spec_add_tape_strs(cv1, o1, tape, i + 1);
        assert(cv2.keys.subrange(0, cv.keys.len() as int) =~= cv.keys);
    }
}

/// A key somewhere at or after `i` is always found.
proof fn lemma_key_index_finds(keys: Seq<Seq<u8>>, k: Seq<u8>, i: int)
    requires
        0 <= i <= keys.len(),
        exists|j: int| i <= j < keys.len() && keys[j] == k,
    ensures
        key_index(keys, k, i) is Some,
    decreases keys.len() - i,
{
    if keys[i] == k {
    } else {
        lemma_key_index_finds(keys, k, i + 1);
    }
}

/// After a string constant is declared, its key is in the table.
proof fn lemma_add_str_present(cv: CompilerV, out: Seq<u8>, s: Seq<u8>, name: Seq<u8>)
    ensures
        key_index(spec_add_str(cv, out, s, name).0.keys, s, 0) is Some,
{
    let cv2 = spec_add_str(cv, out, s, name).0;
    if key_index(cv.keys, s, 0) is Some {
    } else {
        assert(cv2.keys[cv.keys.len() as int] == s);
        lemma_key_index_finds(cv2.keys, s, 0);
    }
}

/// Emits a print of `len` bytes at a static address.
fn asm_print_addr(addr: &str, len: u64, out: &mut Vec<u8>)
    ensures
        final(out)@ == old(out)@ + spec_print_addr(addr.spec_bytes(), len as nat),
{
    push_lit(out, "    mov rdx, ");
    push_dec(out, len);
    push_lit(out, "\n    mov rsi, ");
    push_lit(out, addr);
    push_lit(out, "\n    mov rdi, 1\n    mov rax, 1\n    syscall\n");
    proof {
        assert(out@ =~= old(out)@ + spec_print_addr(addr.spec_bytes(), len as nat));
    }
}

/// Emits the immediate stores filling the tape buffer with the run's
/// initial cells.
#[verifier::rlimit(100)]
fn emit_tape_stores(run: &RunCmd, out: &mut Vec<u8>)
    ensures
        final(out)@ == old(out)@ + spec_tape_stores(run@.tape, run@.tape.len() as int),
{
    let mut i: usize = 0;
    proof {
        assert(out@ =~= old(out)@ + spec_tape_stores(run@.tape, 0));
    }
    while i < run.tape.len()
        invariant
            i <= run.tape@.len(),
            out@ == old(out)@ + spec_tape_stores(run@.tape, i as int),
        decreases run.tape@.len() - i,
    {
        proof {
            assert(seqs_view(run.tape@)[i as int] == run.tape@[i as int]@);
        }
        push_lit(out, "    mov byte [tape + ");
        push_dec(out, i as u64);
        push_lit(out, "], '");
        push_bytes(out, &run.tape[i]);
        push_lit(out, "'\n");
        i = i + 1;
        assert(out@ =~= old(out)@ + spec_tape_stores(run@.tape, i as int));
    }
}

/// Emits the tape-printing routine specialized to `len` cells.
#[verifier::rlimit(100)]
fn emit_tape_print(len: usize, out: &mut Vec<u8>)
    requires
        4 * len + 8 <= usize::MAX,
    ensures
        final(out)@ == old(out)@ + spec_tape_print(len as nat),
{
    push_lit(
        out,
        "tape_print:\n    push rax\n    push rcx\n    mov byte [print_buf], '['\n    mov byte [print_buf+1], ' '\n",
    );
    let ghost o5 = out@;
    let mut i: usize = 0;
    proof {
        assert(out@ =~= o5 + spec_print_cells(0));
    }
    while i < len
        invariant
            i <= len,
            4 * len + 8 <= usize::MAX,
            out@ == o5 + spec_print_cells(i as int),
        decreases len - i,
    {
        push_lit(out, "    mov rax, [tape+");
        push_dec(out, i as u64);
        push_lit(out, "]\n    mov [print_buf+");
        push_dec(out, ((i + 1) * 2) as u64);
        push_lit(out, "], rax\n    mov byte [print_buf+");
        push_dec(out, ((i + 1) * 2 + 1) as u64);
        push_lit(out, "], ' '\n");
        i = i + 1;
        assert(out@ =~= o5 + spec_print_cells(i as int));
    }
    push_lit(out, "    mov byte [print_buf+");
    push_dec(out, ((len + 1) * 2) as u64);
    push_lit(out, "], ']'\n    mov byte [print_buf+");
    push_dec(out, ((len + 1) * 2 + 1) as u64);
    push_lit(out, "], 10\n    mov ecx, head\n    mov rax, ");
    push_dec(out, ((len + 1) * 2 + 2) as u64);
    push_lit(
        out,
        "\nl1:\n    mov byte [print_buf+rax], ' '\n    inc rax\n    loop l1\n    mov byte [print_buf+rax], '^'\n    pop rax\n    pop rcx\n    ret\n",
    );
    proof {
        assert(out@ =~= old(out)@ + spec_tape_print(len as nat));
    }
}

impl Compiler {
    /// Generates the whole program text.  A program without exactly one
    /// run directive, or using any symbol wider than one byte (in an
    /// instruction field or on the run's tape), is rejected before
    /// anything is emitted.
    #[verifier::rlimit(100)]
    pub fn compile_program(&mut self, program: &Program) -> (r: Result<Vec<u8>, CompileErr>)
        requires
            old(self)@.keys.len() == 0,
            old(self)@.names.len() == 0,
            program@.runs.len() == 1 ==> 4 * program@.runs[0].tape.len() + 8 <= usize::MAX,
        ensures
            program@.runs.len() != 1 ==> r == Err::<Vec<u8>, CompileErr>(CompileErr::MultiRun),
            program@.runs.len() == 1 && !(instrs_one_byte(program@.instrs) && all_one_byte(
                program@.runs[0].tape,
            )) ==> r == Err::<Vec<u8>, CompileErr>(CompileErr::WideSym),
            program@.runs.len() == 1 && instrs_one_byte(program@.instrs) && all_one_byte(
                program@.runs[0].tape,
            ) ==> match r {
                Ok(out) => out@ == spec_compile(program@),
                Err(_) => false,
            },
    {
        let ghost pv = program@;
        proof {
            assert(pv.runs.len() == program.runs@.len());
        }
        if program.runs.len() != 1 {
            return Err(CompileErr::MultiRun);
        }
        let run = &program.runs[0];
        proof {
            assert(crate::parser::runs_view(program.runs@)[0] == program.runs@[0]@);
            assert(run@ == pv.runs[0]);
        }
        let mut w: usize = 0;
        while w < program.program.len()
            invariant
                w <= program.program@.len(),
                pv == program@,
                pv.runs.len() == 1,
                forall|q: int|
                    0 <= q < w ==> pv.instrs[q].state.len() == 1 && pv.instrs[q].read.len() == 1
                        && pv.instrs[q].write.len() == 1 && pv.instrs[q].next_state.len() == 1,
            decreases program.program@.len() - w,
        {
            proof {
                assert(crate::parser::instrs_view(program.program@)[w as int]
                    == program.program@[w as int]@);
            }
            let ins = &program.program[w];
            if ins.state.len() != 1 || ins.read.len() != 1 || ins.write.len() != 1
                || ins.next_state.len() != 1 {
                return Err(CompileErr::WideSym);
            }
            w = w + 1;
        }
        assert(instrs_one_byte(pv.instrs));
        let mut j: usize = 0;
        while j < run.tape.len()
            invariant
                j <= run.tape@.len(),
                pv == program@,
                pv.runs.len() == 1,
                run@ == pv.runs[0],
                forall|q: int| 0 <= q < j ==> pv.runs[0].tape[q].len() == 1,
            decreases run.tape@.len() - j,
        {
            proof {
                assert(seqs_view(run.tape@)[j as int] == run.tape@[j as int]@);
            }
            if run.tape[j].len() != 1 {
                return Err(CompileErr::WideSym);
            }
            j = j + 1;
        }
        assert(all_one_byte(pv.runs[0].tape));

        let mut out: Vec<u8> = Vec::new();
        let ghost cv0 = CompilerV { keys: Seq::empty(), names: Seq::empty() };
        push_lit(&mut out, "format ELF64\nsection '.data' writeable\n");
        let ghost o0 = "format ELF64\nsection '.data' writeable\n".spec_bytes();
        proof {
            assert(Seq::<u8>::empty() + o0 =~= o0);
            assert(self@.keys =~= Seq::<Seq<u8>>::empty());
            assert(self@.names =~= Seq::<Seq<u8>>::empty());
            assert(self@ == cv0);
        }
        self.asm_str_name(lit_vec("["), lit_vec("bra"), &mut out);
        self.asm_str_name(lit_vec("]"), lit_vec("ket"), &mut out);
        self.asm_str_name(lit_vec("->"), lit_vec("rightarrow"), &mut out);
        self.asm_str_name(lit_vec("<-"), lit_vec("leftarrow"), &mut out);
        self.asm_str_name(lit_vec("^"), lit_vec("halt"), &mut out);
        self.asm_str_name(lit_vec(" "), lit_vec("space"), &mut out);
        let ghost cv_nl_pre = self@;
        let ghost out_nl_pre = out@;
        self.asm_str_name(lit_vec("\n"), lit_vec("nl"), &mut out);
        proof {
            lemma_add_str_present(cv_nl_pre, out_nl_pre, "\n".spec_bytes(), "nl".spec_bytes());
        }
        self.asm_str_name(lit_vec(" -- HALT -- "), lit_vec("halted"), &mut out);
        let ghost cv1 = self@;
        let ghost o1 = out@;
        proof {
            lemma_add_str_grows(
                spec_add_str(cv_nl_pre, out_nl_pre, "\n".spec_bytes(), "nl".spec_bytes()).0,
                spec_add_str(cv_nl_pre, out_nl_pre, "\n".spec_bytes(), "nl".spec_bytes()).1,
                " -- HALT -- ".spec_bytes(),
                "halted".spec_bytes(),
            );
            lemma_key_index_prefix(
                spec_add_str(cv_nl_pre, out_nl_pre, "\n".spec_bytes(), "nl".spec_bytes()).0.keys,
                cv1.keys,
                "\n".spec_bytes(),
                0,
            );
            assert((cv1, o1) == spec_fixed_strs(cv0, o0));
            assert(key_index(cv1.keys, "\n".spec_bytes(), 0) is Some);
        }

        let mut i: usize = 0;
        while i < program.program.len()
            invariant
                i <= program.program@.len(),
                pv == program@,
                self@.keys.len() == self@.names.len(),
                key_index(self@.keys, "\n".spec_bytes(), 0) is Some,
                spec_add_instr_strs(cv1, o1, pv.instrs, 0) == spec_add_instr_strs(
                    self@,
                    out@,
                    pv.instrs,
                    i as int,
                ),
            decreases program.program@.len() - i,
        {
            let ins = &program.program[i];
            proof {
                assert(crate::parser::instrs_view(program.program@)[i as int]
                    == program.program@[i as int]@);
            }
            let ghost cv_a = self@;
            let ghost out_a = out@;
            self.asm_str(crate::interp::clone_bytes(&ins.next_state), &mut out);
            let ghost cv_b = self@;
            let ghost out_b = out@;
            self.asm_str(crate::interp::clone_bytes(&ins.read), &mut out);
            let ghost cv_c = self@;
            let ghost out_c = out@;
            self.asm_str(crate::interp::clone_bytes(&ins.write), &mut out);
            proof {
                lemma_add_str_grows(cv_a, out_a, ins@.next_state, ins@.next_state);
                lemma_add_str_grows(cv_b, out_b, ins@.read, ins@.read);
                lemma_add_str_grows(cv_c, out_c, ins@.write, ins@.write);
                lemma_key_index_prefix(cv_a.keys, cv_b.keys, "\n".spec_bytes(), 0);
                lemma_key_index_prefix(cv_b.keys, cv_c.keys, "\n".spec_bytes(), 0);
                lemma_key_index_prefix(cv_c.keys, self@.keys, "\n".spec_bytes(), 0);
            }
            i = i + 1;
        }
        let ghost cv2 = self@;
        let ghost o2 = out@;
        proof {
            assert((cv2, o2) == spec_add_instr_strs(cv1, o1, pv.instrs, 0));
        }

        let mut i2: usize = 0;
        while i2 < run.tape.len()
            invariant
                i2 <= run.tape@.len(),
                run@ == pv.runs[0],
                self@.keys.len() == self@.names.len(),
                key_index(self@.keys, "\n".spec_bytes(), 0) is Some,
                spec_add_tape_strs(cv2, o2, pv.runs[0].tape, 0) == spec_add_tape_strs(
                    self@,
                    out@,
                    pv.runs[0].tape,
                    i2 as int,
                ),
            decreases run.tape@.len() - i2,
        {
            proof {
                assert(seqs_view(run.tape@)[i2 as int] == run.tape@[i2 as int]@);
            }
            let ghost cv_a = self@;
            let ghost out_a = out@;
            self.asm_str(crate::interp::clone_bytes(&run.tape[i2]), &mut out);
            proof {
                lemma_add_str_grows(cv_a, out_a, pv.runs[0].tape[i2 as int], pv.runs[0].tape[i2 as int]);
                lemma_key_index_prefix(cv_a.keys, self@.keys, "\n".spec_bytes(), 0);
            }
            i2 = i2 + 1;
        }
        let ghost cv3 = self@;
        let ghost o3 = out@;
        proof {
            assert((cv3, o3) == spec_add_tape_strs(cv2, o2, pv.runs[0].tape, 0));
        }

        push_lit(
            &mut out,
            "section '.bss' writable\n    head:      rb 1\n    state:     rb 1\n    tape:      rb 256\n    print_buf: rb 256\n",
        );
        push_lit(
            &mut out,
            "section '.text' executable\npublic _start\n_start:\n    mov byte [head], 3\n",
        );

        let len = run.tape.len();
        emit_tape_stores(run, &mut out);
        asm_print_addr("tape", len as u64, &mut out);
        let nl = lit_vec("\n");
        self.asm_print(&nl, &mut out);
        push_lit(&mut out, "    call tape_print\n");
        asm_print_addr("print_buf", (((len + 1) * 2 + 1) * 2) as u64, &mut out);
        self.asm_print(&nl, &mut out);
        push_lit(&mut out, "    mov rax, 60\n    mov rdi, 0\n    syscall\n");

        emit_tape_print(len, &mut out);
        proof {
            assert(out@ =~= spec_compile(pv));
        }
        Ok(out)
    }
}

} // verus!
