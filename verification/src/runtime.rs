//! The execution engine: a register machine with a sparse byte-addressed
//! memory and a program memory, which runs until it halts and records one
//! trace row per executed instruction.

use vstd::prelude::*;
use std::collections::BTreeMap;
use crate::models::{
    Register, Instruction, InstructionFormat, ExecutionStep, ExecutionTrace, StepView, reg_index,
    reg_from_u32, lower_spec, steps_view, duplicate_steps, duplicate_words, FUNCT7_SUB, FUNCT7_MULDIV,
};
use crate::text::{hex_prefixed, push_hex_prefixed};
use vstd::string::StringExecFns;

verus! {

/// A run stops with an error once this many steps have been taken.
pub const MAX_STEPS: u32 = 10_000_000;

/// `x` reduced to 32 bits, as two's-complement hardware wraps it.
pub open spec fn wrap32(x: int) -> u32 {
    (x % 0x1_0000_0000) as u32
}

/// Reading a register: `X0` always reads zero.
pub open spec fn read_reg(regs: Seq<u32>, r: Register) -> u32 {
    if reg_index(r) == 0 {
        0
    } else {
        regs[reg_index(r) as int]
    }
}

/// Writing a register: writes to `X0` are discarded.
pub open spec fn write_reg(regs: Seq<u32>, r: Register, v: u32) -> Seq<u32> {
    if reg_index(r) == 0 {
        regs
    } else {
        regs.update(reg_index(r) as int, v)
    }
}

/// The value an R-type instruction computes: `sub` and `mul` by their
/// `funct7`, every other combination adds.
pub open spec fn rtype_value(funct7: u32, funct3: u32, a: u32, b: u32) -> u32 {
    if funct3 == 0 && funct7 == FUNCT7_SUB {
        wrap32(a - b)
    } else if funct3 == 0 && funct7 == FUNCT7_MULDIV {
        wrap32(a * b)
    } else {
        wrap32(a + b)
    }
}

/// What executing a decoded instruction does to the register file.
/// I-type instructions add their immediate to `rs1`; stores, branches and
/// the remaining formats leave the registers unchanged.
pub open spec fn execute_spec(regs: Seq<u32>, f: InstructionFormat) -> Seq<u32> {
    match f {
        InstructionFormat::IType { imm, rs1, rd, .. } => write_reg(
            regs,
            rd,
            wrap32(read_reg(regs, rs1) + imm),
        ),
        InstructionFormat::RType { funct7, rs2, rs1, funct3, rd, .. } => write_reg(
            regs,
            rd,
            rtype_value(funct7, funct3, read_reg(regs, rs1), read_reg(regs, rs2)),
        ),
        _ => regs,
    }
}

/// A byte of memory: unwritten addresses read zero.
pub open spec fn mem_byte(mem: Map<u32, u8>, a: u32) -> u8 {
    if mem.contains_key(a) {
        mem[a]
    } else {
        0
    }
}

/// The little-endian word stored at `addr` (addresses wrap around).
pub open spec fn fetch_word(mem: Map<u32, u8>, addr: u32) -> u32 {
    let b0 = mem_byte(mem, addr) as u32;
    let b1 = mem_byte(mem, wrap32(addr + 1)) as u32;
    let b2 = mem_byte(mem, wrap32(addr + 2)) as u32;
    let b3 = mem_byte(mem, wrap32(addr + 3)) as u32;
    b0 | (b1 << 8) | (b2 << 16) | (b3 << 24)
}

/// The immediate of an I-type word: bits 31..20, sign-extended.
pub open spec fn i_immediate(instr: u32) -> u32 {
    ((instr as i32) >> 20u32) as u32
}

/// Decoding a word: the formats by opcode, or the unsupported opcode.
pub open spec fn decode_spec(instr: u32) -> Result<InstructionFormat, u32> {
    let opcode = instr & 0x7F;
    let rd = reg_from_u32((instr >> 7) & 0x1F);
    let funct3 = (instr >> 12) & 0x07;
    let rs1 = reg_from_u32((instr >> 15) & 0x1F);
    let rs2 = reg_from_u32((instr >> 20) & 0x1F);
    let funct7 = (instr >> 25) & 0x7F;
    if opcode == 0x13 || opcode == 0x03 {
        Ok(InstructionFormat::IType { imm: i_immediate(instr), rs1, funct3, rd, opcode })
    } else if opcode == 0x33 {
        Ok(InstructionFormat::RType { funct7, rs2, rs1, funct3, rd, opcode })
    } else if opcode == 0x23 {
        Ok(
            InstructionFormat::SType {
                imm: ((instr >> 7) & 0x1F) | ((instr >> 20) & 0xFE0),
                rs2,
                rs1,
                funct3,
                opcode,
            },
        )
    } else if opcode == 0x63 {
        let imm = ((instr >> 8) & 0xF) | (((instr >> 25) & 0x3F) << 4) | (((instr >> 7) & 0x1)
            << 10) | (((instr >> 31) & 0x1) << 11);
        Ok(InstructionFormat::BType { imm: imm << 1, rs2, rs1, funct3, opcode })
    } else if opcode == 0x73 {
        Ok(InstructionFormat::Ecall)
    } else {
        Err(opcode)
    }
}

/// The opcodes the engine executes: loads and arithmetic with an
/// immediate, stores, register arithmetic, branches and `ecall`.
pub open spec fn supported_opcode(op: u32) -> bool {
    op == 0x03 || op == 0x13 || op == 0x23 || op == 0x33 || op == 0x63 || op == 0x73
}

/// A word is refused exactly when its low seven bits are not a supported
/// opcode, and the refusal names those bits.
pub proof fn law_decode_refuses_only_unsupported_opcodes(w: u32)
    ensures
        decode_spec(w) is Err <==> !supported_opcode(w & 0x7F),
        decode_spec(w) is Err ==> decode_spec(w)->Err_0 == w & 0x7F,
{
}

/// Loads (opcode `0x03`) and immediate arithmetic (opcode `0x13`) decode
/// by the RISC-V I-type layout: the immediate is bits 31..20 with bit 31
/// copied into the upper bits, `rs1` bits 19..15, `funct3` bits 14..12,
/// `rd` bits 11..7 and the opcode bits 6..0.
pub proof fn law_decode_i_type_layout(w: u32)
    requires
        (w & 0x7F) == 0x03 || (w & 0x7F) == 0x13,
    ensures
        decode_spec(w) is Ok,
        match decode_spec(w)->Ok_0 {
            InstructionFormat::IType { imm, rs1, funct3, rd, opcode } => {
                &&& imm == (if (w >> 31u32) == 1 { (w >> 20u32) | 0xFFFF_F000u32 } else { w >> 20u32 })
                &&& reg_index(rs1) == (w >> 15u32) & 0x1F
                &&& funct3 == (w >> 12u32) & 0x7
                &&& reg_index(rd) == (w >> 7u32) & 0x1F
                &&& opcode == w & 0x7F
            },
            _ => false,
        },
{
    assert(((w >> 15u32) & 0x1F) < 32) by (bit_vector);
    assert(((w >> 7u32) & 0x1F) < 32) by (bit_vector);
    crate::models::lemma_reg_from_u32_index((w >> 15u32) & 0x1F);
    crate::models::lemma_reg_from_u32_index((w >> 7u32) & 0x1F);
    assert(((w as i32) >> 20u32) as u32 == (if (w >> 31u32) == 1 { (w >> 20u32) | 0xFFFF_F000u32 } else { w >> 20u32 }))
        by (bit_vector);
}

/// Register arithmetic (opcode `0x33`) decodes by the RISC-V R-type
/// layout: `funct7` bits 31..25, `rs2` bits 24..20, `rs1` bits 19..15,
/// `funct3` bits 14..12 and `rd` bits 11..7.
pub proof fn law_decode_r_type_layout(w: u32)
    requires
        (w & 0x7F) == 0x33,
    ensures
        decode_spec(w) is Ok,
        match decode_spec(w)->Ok_0 {
            InstructionFormat::RType { funct7, rs2, rs1, funct3, rd, opcode } => {
                &&& funct7 == w >> 25u32
                &&& reg_index(rs2) == (w >> 20u32) & 0x1F
                &&& reg_index(rs1) == (w >> 15u32) & 0x1F
                &&& funct3 == (w >> 12u32) & 0x7
                &&& reg_index(rd) == (w >> 7u32) & 0x1F
                &&& opcode == 0x33
            },
            _ => false,
        },
{
    assert(((w >> 20u32) & 0x1F) < 32) by (bit_vector);
    assert(((w >> 15u32) & 0x1F) < 32) by (bit_vector);
    assert(((w >> 7u32) & 0x1F) < 32) by (bit_vector);
    assert((w >> 25u32) & 0x7F == w >> 25u32) by (bit_vector);
    crate::models::lemma_reg_from_u32_index((w >> 20u32) & 0x1F);
    crate::models::lemma_reg_from_u32_index((w >> 15u32) & 0x1F);
    crate::models::lemma_reg_from_u32_index((w >> 7u32) & 0x1F);
}

/// The outcome of fetching the instruction at the program counter.
#[derive(Debug, Clone, Copy, PartialEq, Eq, Structural)]
pub enum Fetched {
    /// Memory holds a zero word: the program has ended.
    Halt,
    /// The word's opcode is not supported.
    Unsupported(u32),
    /// An instruction to execute.
    Decoded(InstructionFormat),
}

/// Fetching at `pc`: the program memory is mapped from address 0, one
/// instruction per word; beyond it instructions are read from memory.
pub open spec fn fetch_spec(program: Seq<Instruction>, mem: Map<u32, u8>, pc: u32) -> Fetched {
    if pc % 4 == 0 && pc / 4 < program.len() {
        Fetched::Decoded(lower_spec(program[(pc / 4) as int]))
    } else {
        let w = fetch_word(mem, pc);
        if w == 0 {
            Fetched::Halt
        } else {
            match decode_spec(w) {
                Ok(f) => Fetched::Decoded(f),
                Err(op) => Fetched::Unsupported(op),
            }
        }
    }
}

/// The architectural state of a run.
pub struct Machine {
    pub registers: Seq<u32>,
    pub pc: u32,
    pub clk: u32,
    pub steps: Seq<StepView>,
}

/// One clock cycle: record the row, execute, advance the program counter.
pub open spec fn step_spec(m: Machine, f: InstructionFormat) -> Machine {
    Machine {
        registers: execute_spec(m.registers, f),
        pc: wrap32(m.pc + 4),
        clk: (m.clk + 1) as u32,
        steps: m.steps.push(
            StepView {
                clk: m.clk,
                pc: m.pc,
                decoded_instruction: f,
                registers: m.registers,
                memory_reads: seq![],
                memory_writes: seq![],
            },
        ),
    }
}

/// How a run ended.
#[derive(Debug, Clone, Copy, PartialEq, Eq, Structural)]
pub enum RunEnd {
    Halted,
    OutOfGas,
    Unsupported(u32),
}

/// A run from `m`: step until a zero word, an `Ecall`, an unsupported
/// opcode or the step limit.
pub open spec fn run(program: Seq<Instruction>, mem: Map<u32, u8>, m: Machine) -> (Machine, RunEnd)
    decreases MAX_STEPS - m.clk,
{
    if m.clk >= MAX_STEPS {
        (m, RunEnd::OutOfGas)
    } else {
        match fetch_spec(program, mem, m.pc) {
            Fetched::Halt => (m, RunEnd::Halted),
            Fetched::Unsupported(op) => (m, RunEnd::Unsupported(op)),
            Fetched::Decoded(f) => {
                let next = step_spec(m, f);
                if f is Ecall {
                    (next, RunEnd::Halted)
                } else {
                    run(program, mem, next)
                }
            },
        }
    }
}

/// A run is refused only on an opcode the engine does not execute: no
/// run ends on a load, an arithmetic, store or branch instruction, or an
/// `ecall`.
pub proof fn law_run_refuses_only_unsupported_opcodes(program: Seq<Instruction>, mem: Map<u32, u8>, m: Machine)
    ensures
        run(program, mem, m).1 is Unsupported ==> !supported_opcode(run(program, mem, m).1->Unsupported_0),
    decreases MAX_STEPS - m.clk,
{
    if m.clk < MAX_STEPS {
        match fetch_spec(program, mem, m.pc) {
            Fetched::Decoded(f) => {
                if !(f is Ecall) {
                    law_run_refuses_only_unsupported_opcodes(program, mem, step_spec(m, f));
                }
            },
            Fetched::Unsupported(op) => {
                let w = fetch_word(mem, m.pc);
                law_decode_refuses_only_unsupported_opcodes(w);
                assert((w & 0x7F) & 0x7F == w & 0x7F) by (bit_vector);
            },
            Fetched::Halt => {},
        }
    }
}

/// The error text of a run that hit the step limit.
pub open spec fn out_of_gas_message() -> Seq<char> {
    "Out of gas (step limit exceeded)"@
}

/// The error text of an unsupported opcode.
pub open spec fn unsupported_message(op: u32) -> Seq<char> {
    "Unimplemented opcode: "@ + hex_prefixed(op as nat)
}

/// A register file of zeros.
pub open spec fn zero_registers() -> Seq<u32> {
    Seq::new(32, |i: int| 0u32)
}

/// The ELF program header type of a loadable segment.
pub const PT_LOAD: u32 = 1;

/// What `goblin` reads of an ELF image: the entry point and, for each
/// program header in order, its type, file offset, virtual address and size
/// in the file; `None` where it rejects the image.
pub uninterp spec fn elf_layout(bytes: Seq<u8>) -> Option<(u64, Seq<(u32, u64, u64, u64)>)>;

/// Parses an ELF image with `goblin::elf::Elf::parse` and reads its entry
/// point and program headers (`p_type`, `p_offset`, `p_vaddr`,
/// `p_filesz`). The result is named, not stated: it is `elf_layout` of the
/// bytes, with the headers in goblin's order.
#[verifier::external_body]
fn parse_elf(bytes: &[u8]) -> (r: Option<(u64, Vec<(u32, u64, u64, u64)>)>)
    ensures
        match r {
            Some((entry, headers)) => elf_layout(bytes@) == Some((entry, headers@)),
            None => elf_layout(bytes@) is None,
        },
{
    match goblin::elf::Elf::parse(bytes) {
        Ok(elf) => Some(
            (
                elf.entry,
                elf.program_headers.iter().map(|ph| (ph.p_type, ph.p_offset, ph.p_vaddr, ph.p_filesz)).collect(),
            ),
        ),
        Err(_) => None,
    }
}

/// Every loadable segment lies within a file of `len` bytes.
pub open spec fn segments_in_file(len: nat, headers: Seq<(u32, u64, u64, u64)>) -> bool {
    forall|k: int|
        0 <= k < headers.len() && #[trigger] headers[k].0 == PT_LOAD ==> headers[k].1 + headers[k].3 <= len
}

/// Memory after writing `seg` byte by byte upward from `start`
/// (addresses wrap around).
pub open spec fn copy_bytes(mem: Map<u32, u8>, start: u32, seg: Seq<u8>) -> Map<u32, u8>
    decreases seg.len(),
{
    if seg.len() == 0 {
        mem
    } else {
        copy_bytes(mem, start, seg.drop_last()).insert(wrap32(start + seg.len() - 1), seg.last())
    }
}

/// Memory after loading every loadable segment in header order, each at
/// the low 32 bits of its virtual address.
pub open spec fn load_segments(mem: Map<u32, u8>, bytes: Seq<u8>, headers: Seq<(u32, u64, u64, u64)>) -> Map<u32, u8>
    decreases headers.len(),
{
    if headers.len() == 0 {
        mem
    } else {
        let (p_type, offset, vaddr, filesz) = headers.last();
        let m = load_segments(mem, bytes, headers.drop_last());
        if p_type == PT_LOAD {
            copy_bytes(m, vaddr as u32, bytes.subrange(offset as int, offset + filesz))
        } else {
            m
        }
    }
}

/// Whether header `h` is a loadable segment that writes address `a`.
pub open spec fn segment_writes(h: (u32, u64, u64, u64), a: u32) -> bool {
    h.0 == PT_LOAD && exists|i: int| 0 <= i < h.3 && #[trigger] wrap32(h.2 as u32 + i) == a
}

proof fn lemma_wrap32_distinct(x: int, y: int)
    requires
        0 <= x < y < x + 0x1_0000_0000,
    ensures
        wrap32(x) != wrap32(y),
{
    vstd::arithmetic::div_mod::lemma_mod_equivalence(y, x, 0x1_0000_0000int);
    vstd::arithmetic::div_mod::lemma_small_mod((y - x) as nat, 0x1_0000_0000nat);
}

proof fn lemma_copy_bytes_at(mem: Map<u32, u8>, start: u32, seg: Seq<u8>, i: int)
    requires
        0 <= i < seg.len(),
        seg.len() <= i + 0x1_0000_0000,
    ensures
        copy_bytes(mem, start, seg).contains_key(wrap32(start + i)),
        copy_bytes(mem, start, seg)[wrap32(start + i)] == seg[i],
    decreases seg.len(),
{
    if i < seg.len() - 1 {
        lemma_wrap32_distinct(start + i, start + seg.len() - 1);
        lemma_copy_bytes_at(mem, start, seg.drop_last(), i);
    }
}

proof fn lemma_copy_bytes_frame(mem: Map<u32, u8>, start: u32, seg: Seq<u8>, a: u32)
    requires
        forall|i: int| 0 <= i < seg.len() ==> #[trigger] wrap32(start + i) != a,
    ensures
        copy_bytes(mem, start, seg).contains_key(a) == mem.contains_key(a),
        mem.contains_key(a) ==> copy_bytes(mem, start, seg)[a] == mem[a],
    decreases seg.len(),
{
    if seg.len() > 0 {
        assert(wrap32(start + (seg.len() - 1)) != a);
        lemma_copy_bytes_frame(mem, start, seg.drop_last(), a);
    }
}

/// Every loadable segment lands in memory: byte `i` of segment `k` is at
/// its virtual address plus `i` (modulo 2^32), unless a later byte of the
/// same segment, or a later loadable segment, writes that address again.
pub proof fn law_every_loadable_segment_is_loaded(
    mem: Map<u32, u8>,
    bytes: Seq<u8>,
    headers: Seq<(u32, u64, u64, u64)>,
    k: int,
    i: int,
)
    requires
        segments_in_file(bytes.len(), headers),
        0 <= k < headers.len(),
        headers[k].0 == PT_LOAD,
        0 <= i < headers[k].3,
        headers[k].3 <= i + 0x1_0000_0000,
        forall|k2: int|
            k < k2 < headers.len() ==> !segment_writes(#[trigger] headers[k2], wrap32(headers[k].2 as u32 + i)),
    ensures
        load_segments(mem, bytes, headers).contains_key(wrap32(headers[k].2 as u32 + i)),
        load_segments(mem, bytes, headers)[wrap32(headers[k].2 as u32 + i)] == bytes[headers[k].1 + i],
    decreases headers.len(),
{
    let n = headers.len() - 1;
    let a = wrap32(headers[k].2 as u32 + i);
    let rest = headers.drop_last();
    let m = load_segments(mem, bytes, rest);
    let (p_type, offset, vaddr, filesz) = headers.last();
    if k == n {
        assert(headers[k].1 + headers[k].3 <= bytes.len());
        let seg = bytes.subrange(offset as int, offset + filesz);
        lemma_copy_bytes_at(m, vaddr as u32, seg, i);
    } else {
        assert forall|x: int| 0 <= x < rest.len() && #[trigger] rest[x].0 == PT_LOAD implies rest[x].1 + rest[x].3
            <= bytes.len() by {
            assert(rest[x] == headers[x]);
        }
        assert forall|k2: int| k < k2 < rest.len() implies !segment_writes(#[trigger] rest[k2], a) by {
            assert(rest[k2] == headers[k2]);
        }
        law_every_loadable_segment_is_loaded(mem, bytes, rest, k, i);
        assert(!segment_writes(headers[n], a));
        if p_type == PT_LOAD {
            let seg = bytes.subrange(offset as int, offset + filesz);
            assert forall|j: int| 0 <= j < seg.len() implies #[trigger] wrap32(vaddr as u32 + j) != a by {
                if wrap32(vaddr as u32 + j) == a {
                    assert(segment_writes(headers[n], a));
                }
            }
            lemma_copy_bytes_frame(m, vaddr as u32, seg, a);
        }
    }
}

/// Loading leaves every address that no loadable segment writes as it was.
pub proof fn law_unwritten_memory_is_kept(
    mem: Map<u32, u8>,
    bytes: Seq<u8>,
    headers: Seq<(u32, u64, u64, u64)>,
    a: u32,
)
    requires
        segments_in_file(bytes.len(), headers),
        forall|k: int| 0 <= k < headers.len() ==> !segment_writes(#[trigger] headers[k], a),
    ensures
        load_segments(mem, bytes, headers).contains_key(a) == mem.contains_key(a),
        mem.contains_key(a) ==> load_segments(mem, bytes, headers)[a] == mem[a],
    decreases headers.len(),
{
    if headers.len() > 0 {
        let n = headers.len() - 1;
        let rest = headers.drop_last();
        let m = load_segments(mem, bytes, rest);
        let (p_type, offset, vaddr, filesz) = headers.last();
        assert forall|x: int| 0 <= x < rest.len() && #[trigger] rest[x].0 == PT_LOAD implies rest[x].1 + rest[x].3
            <= bytes.len() by {
            assert(rest[x] == headers[x]);
        }
        assert forall|k: int| 0 <= k < rest.len() implies !segment_writes(#[trigger] rest[k], a) by {
            assert(rest[k] == headers[k]);
        }
        law_unwritten_memory_is_kept(mem, bytes, rest, a);
        assert(!segment_writes(headers[n], a));
        if p_type == PT_LOAD {
            assert(headers[n].1 + headers[n].3 <= bytes.len());
            let seg = bytes.subrange(offset as int, offset + filesz);
            assert forall|j: int| 0 <= j < seg.len() implies #[trigger] wrap32(vaddr as u32 + j) != a by {
                if wrap32(vaddr as u32 + j) == a {
                    assert(segment_writes(headers[n], a));
                }
            }
            lemma_copy_bytes_frame(m, vaddr as u32, seg, a);
        }
    }
}

/// The message of an image that cannot be loaded.
pub open spec fn elf_error_message() -> Seq<char> {
    "Failed to parse ELF binary"@
}

/// Register `X0` reads zero whatever was written to it, a write to any
/// other register is read back, and a write leaves every other register as
/// it was.
pub proof fn law_register_write_then_read(regs: Seq<u32>, written: Register, v: u32, read: Register)
    requires
        regs.len() == 32,
    ensures
        read_reg(write_reg(regs, written, v), read) == if reg_index(read) == 0 {
            0
        } else if read == written {
            v
        } else {
            read_reg(regs, read)
        },
{
    crate::models::lemma_reg_index_injective(read, written);
}

/// The trace has one row per clock cycle, in order: row `i` records
/// cycle `i`.
pub open spec fn rows_numbered(m: Machine) -> bool {
    &&& m.steps.len() == m.clk
    &&& forall|i: int| 0 <= i < m.steps.len() ==> #[trigger] m.steps[i].clk == i
}

proof fn lemma_step_keeps_rows_numbered(m: Machine, f: InstructionFormat)
    requires
        rows_numbered(m),
        m.clk < MAX_STEPS,
    ensures
        rows_numbered(step_spec(m, f)),
{
    let next = step_spec(m, f);
    assert forall|i: int| 0 <= i < next.steps.len() implies #[trigger] next.steps[i].clk == i by {
        if i < m.steps.len() {
            assert(next.steps[i] == m.steps[i]);
        }
    }
}

/// A run keeps the rows numbered by their cycles: from a machine whose
/// rows are its cycles `0..clk`, it ends in one whose rows are again its
/// cycles.
pub proof fn law_trace_rows_are_consecutive_cycles(program: Seq<Instruction>, mem: Map<u32, u8>, m: Machine)
    requires
        rows_numbered(m),
    ensures
        rows_numbered(run(program, mem, m).0),
    decreases MAX_STEPS - m.clk,
{
    if m.clk < MAX_STEPS {
        if let Fetched::Decoded(f) = fetch_spec(program, mem, m.pc) {
            lemma_step_keeps_rows_numbered(m, f);
            if !(f is Ecall) {
                law_trace_rows_are_consecutive_cycles(program, mem, step_spec(m, f));
            }
        }
    }
}

/// A well-formed register file: thirty-two registers, `X0` holding zero.
pub open spec fn registers_ok(regs: Seq<u32>) -> bool {
    regs.len() == 32 && regs[0] == 0
}

/// A machine whose register file, and the one recorded in each of its
/// trace rows, is well formed.
pub open spec fn machine_ok(m: Machine) -> bool {
    &&& registers_ok(m.registers)
    &&& forall|i: int| 0 <= i < m.steps.len() ==> registers_ok(#[trigger] m.steps[i].registers)
}

proof fn lemma_execute_keeps_registers_ok(regs: Seq<u32>, f: InstructionFormat)
    requires
        registers_ok(regs),
    ensures
        registers_ok(execute_spec(regs, f)),
{
    match f {
        InstructionFormat::IType { rd, .. } => {
            crate::models::lemma_reg_index_injective(rd, Register::X0);
            assert(reg_index(rd) < 32);
        },
        InstructionFormat::RType { rd, .. } => {
            crate::models::lemma_reg_index_injective(rd, Register::X0);
            assert(reg_index(rd) < 32);
        },
        _ => {},
    }
}

proof fn lemma_step_keeps_machine_ok(m: Machine, f: InstructionFormat)
    requires
        machine_ok(m),
    ensures
        machine_ok(step_spec(m, f)),
{
    lemma_execute_keeps_registers_ok(m.registers, f);
    let next = step_spec(m, f);
    assert forall|i: int| 0 <= i < next.steps.len() implies registers_ok(#[trigger] next.steps[i].registers) by {
        if i < m.steps.len() {
            assert(next.steps[i] == m.steps[i]);
        }
    }
}

/// `X0` reads zero in every state: a run from a well-formed machine ends
/// in a well-formed machine, every row it records included.
pub proof fn law_run_keeps_x0_zero(program: Seq<Instruction>, mem: Map<u32, u8>, m: Machine)
    requires
        machine_ok(m),
    ensures
        machine_ok(run(program, mem, m).0),
    decreases MAX_STEPS - m.clk,
{
    if m.clk < MAX_STEPS {
        if let Fetched::Decoded(f) = fetch_spec(program, mem, m.pc) {
            lemma_step_keeps_machine_ok(m, f);
            if !(f is Ecall) {
                law_run_keeps_x0_zero(program, mem, step_spec(m, f));
            }
        }
    }
}

/// The rows from position `from` on chain the register files: the first
/// records `start`, each next one is what executing the previous row's
/// instruction gives, and executing the last row's gives `end`. Without
/// such rows `end` is `start`.
pub open spec fn rows_chain(steps: Seq<StepView>, from: int, start: Seq<u32>, end: Seq<u32>) -> bool {
    if steps.len() <= from {
        end == start
    } else {
        &&& steps[from].registers == start
        &&& forall|i: int|
            from <= i < steps.len() - 1 ==> #[trigger] steps[i + 1].registers == execute_spec(
                steps[i].registers,
                steps[i].decoded_instruction,
            )
        &&& end == execute_spec(steps.last().registers, steps.last().decoded_instruction)
    }
}

/// A run keeps the rows it started with and appends rows that chain from
/// the starting register file to the final one: each row records the
/// registers before its instruction executed.
pub proof fn law_run_rows_follow_execution(program: Seq<Instruction>, mem: Map<u32, u8>, m: Machine)
    ensures
        ({
            let end = run(program, mem, m).0;
            &&& m.steps.len() <= end.steps.len()
            &&& end.steps.subrange(0, m.steps.len() as int) == m.steps
            &&& rows_chain(end.steps, m.steps.len() as int, m.registers, end.registers)
        }),
    decreases MAX_STEPS - m.clk,
{
    let end = run(program, mem, m).0;
    let from = m.steps.len() as int;
    if m.clk < MAX_STEPS {
        if let Fetched::Decoded(f) = fetch_spec(program, mem, m.pc) {
            let next = step_spec(m, f);
            assert(next.steps.subrange(0, from) =~= m.steps);
            if !(f is Ecall) {
                law_run_rows_follow_execution(program, mem, next);
                assert(end.steps.subrange(0, from + 1) == next.steps);
                assert(end.steps[from] == next.steps.subrange(0, from + 1)[from]);
                assert(end.steps.subrange(0, from) =~= end.steps.subrange(0, from + 1).subrange(0, from));
                if end.steps.len() > from + 1 {
                    assert forall|i: int|
                        from <= i < end.steps.len() - 1 implies #[trigger] end.steps[i + 1].registers
                        == execute_spec(end.steps[i].registers, end.steps[i].decoded_instruction) by {
                        if i == from {
                            assert(end.steps[from + 1].registers == next.registers);
                        }
                    }
                }
            }
        } else {
            assert(m.steps.subrange(0, from) =~= m.steps);
        }
    } else {
        assert(m.steps.subrange(0, from) =~= m.steps);
    }
}

/// The machine a fresh runtime starts from: zeroed registers at address 0,
/// no steps taken.
pub open spec fn initial_machine() -> Machine {
    Machine { registers: zero_registers(), pc: 0, clk: 0, steps: seq![] }
}

/// The virtual machine.
pub struct VmRuntime {
    registers: [u32; 32],
    pc: u32,
    memory: BTreeMap<u32, u8>,
    program: Vec<Instruction>,
    trace: ExecutionTrace,
    clk: u32,
}

impl VmRuntime {
    #[verifier::type_invariant]
    spec fn well_formed(&self) -> bool {
        machine_ok(self.machine()) && rows_numbered(self.machine())
    }

    /// The machine state.
    pub closed spec fn machine(&self) -> Machine {
        Machine {
            registers: self.registers@,
            pc: self.pc,
            clk: self.clk,
            steps: steps_view(self.trace.steps@),
        }
    }

    /// The data memory.
    pub closed spec fn memory(&self) -> Map<u32, u8> {
        self.memory@
    }

    /// The program memory.
    pub closed spec fn program(&self) -> Seq<Instruction> {
        self.program@
    }

    /// The public inputs of the run.
    pub closed spec fn public_inputs(&self) -> Seq<u32> {
        self.trace.public_inputs@
    }

    /// The private inputs of the run.
    pub closed spec fn private_inputs(&self) -> Seq<u32> {
        self.trace.private_inputs@
    }

    /// A machine about to run `program` from address 0, with zeroed
    /// registers, empty memory and an empty trace.
    pub fn new(program: Vec<Instruction>, public_inputs: Vec<u32>, private_inputs: Vec<u32>) -> (vm: Self)
        ensures
            vm.machine() == initial_machine(),
            machine_ok(vm.machine()),
            rows_numbered(vm.machine()),
            vm.memory() == Map::<u32, u8>::empty(),
            vm.program() == program@,
            vm.public_inputs() == public_inputs@,
            vm.private_inputs() == private_inputs@,
    {
        let vm = VmRuntime {
            registers: [0u32; 32],
            pc: 0,
            memory: BTreeMap::new(),
            program,
            trace: ExecutionTrace { steps: Vec::new(), public_inputs, private_inputs },
            clk: 0,
        };
        assert(vm.registers@ =~= zero_registers());
        assert(steps_view(vm.trace.steps@) =~= seq![]);
        vm
    }

    /// Writes a register; writes to `X0` are discarded.
    pub fn set_register(&mut self, reg: Register, value: u32)
        ensures
            final(self).machine() == (Machine {
                registers: write_reg(old(self).machine().registers, reg, value),
                ..old(self).machine()
            }),
            machine_ok(old(self).machine()),
            rows_numbered(old(self).machine()),
            machine_ok(final(self).machine()),
            rows_numbered(final(self).machine()),
            final(self).memory() == old(self).memory(),
            final(self).program() == old(self).program(),
            final(self).public_inputs() == old(self).public_inputs(),
            final(self).private_inputs() == old(self).private_inputs(),
    {
        proof {
            use_type_invariant(&*self);
        }
        let idx = reg.index();
        if idx != 0 {
            self.registers[idx] = value;
        }
        assert(self.registers@ =~= write_reg(old(self).registers@, reg, value));
    }

    /// Loads the segments an ELF image describes: every loadable segment's
    /// file bytes are copied to memory at its virtual address, and the
    /// program counter is set to the entry point. An image whose loadable
    /// segments reach past its end is rejected and nothing changes.
    pub fn load_elf_segments(&mut self, elf_bytes: &[u8], entry: u64, headers: &Vec<(u32, u64, u64, u64)>) -> (r: Result<(), &'static str>)
        ensures
            segments_in_file(elf_bytes@.len(), headers@) ==> {
                &&& r is Ok
                &&& final(self).memory() == load_segments(old(self).memory(), elf_bytes@, headers@)
                &&& final(self).machine() == (Machine { pc: entry as u32, ..old(self).machine() })
            },
            !segments_in_file(elf_bytes@.len(), headers@) ==> {
                &&& r is Err
                &&& r->Err_0@ == elf_error_message()
                &&& final(self).memory() == old(self).memory()
                &&& final(self).machine() == old(self).machine()
            },
            machine_ok(final(self).machine()),
            rows_numbered(final(self).machine()),
            final(self).program() == old(self).program(),
            final(self).public_inputs() == old(self).public_inputs(),
            final(self).private_inputs() == old(self).private_inputs(),
    {
        proof {
            use_type_invariant(&*self);
        }
        let n = elf_bytes.len();
        let n64 = n as u64;
        assert(n64 == elf_bytes@.len());
        let mut k: usize = 0;
        while k < headers.len()
            invariant
                k <= headers@.len(),
                n64 == elf_bytes@.len(),
                machine_ok(self.machine()),
                rows_numbered(self.machine()),
                forall|x: int|
                    0 <= x < k && #[trigger] headers@[x].0 == PT_LOAD ==> headers@[x].1 + headers@[x].3
                        <= elf_bytes@.len(),
            decreases headers@.len() - k,
        {
            let (p_type, offset, _vaddr, filesz) = headers[k];
            if p_type == PT_LOAD {
                let fits = match offset.checked_add(filesz) {
                    Some(end) => end <= n64,
                    None => false,
                };
                if !fits {
                    assert(headers@[k as int].0 == PT_LOAD);
                    assert(!(headers@[k as int].1 + headers@[k as int].3 <= elf_bytes@.len()));
                    return Err("Failed to parse ELF binary");
                }
            }
            k = k + 1;
        }
        let mut memory: BTreeMap<u32, u8> = BTreeMap::new();
        std::mem::swap(&mut memory, &mut self.memory);
        let ghost mem0 = memory@;
        let mut k: usize = 0;
        while k < headers.len()
            invariant
                k <= headers@.len(),
                n == elf_bytes@.len(),
                segments_in_file(elf_bytes@.len(), headers@),
                memory@ == load_segments(mem0, elf_bytes@, headers@.subrange(0, k as int)),
                self.machine() == old(self).machine(),
                self.program() == old(self).program(),
                self.public_inputs() == old(self).public_inputs(),
                self.private_inputs() == old(self).private_inputs(),
            decreases headers@.len() - k,
        {
            let (p_type, offset, vaddr, filesz) = headers[k];
            assert(headers@.subrange(0, k + 1).drop_last() =~= headers@.subrange(0, k as int));
            if p_type == PT_LOAD {
                assert(headers@[k as int].0 == PT_LOAD);
                assert(offset + filesz <= n);
                let start = vaddr as u32;
                let off = offset as usize;
                let size = filesz as usize;
                assert(off == offset && size == filesz);
                let ghost seg = elf_bytes@.subrange(off as int, off + size);
                let ghost m1 = memory@;
                let mut i: usize = 0;
                let mut addr: u32 = start;
                while i < size
                    invariant
                        i <= size,
                        addr == wrap32(start + i),
                        off + size <= n,
                        n == elf_bytes@.len(),
                        seg == elf_bytes@.subrange(off as int, off + size),
                        memory@ == copy_bytes(m1, start, seg.subrange(0, i as int)),
                        self.machine() == old(self).machine(),
                        self.program() == old(self).program(),
                        self.public_inputs() == old(self).public_inputs(),
                        self.private_inputs() == old(self).private_inputs(),
                    decreases size - i,
                {
                    assert(seg.subrange(0, i + 1).drop_last() =~= seg.subrange(0, i as int));
                    memory.insert(addr, elf_bytes[off + i]);
                    proof {
                        vstd::arithmetic::div_mod::lemma_add_mod_noop(start + i, 1, 0x1_0000_0000int);
                    }
                    addr = addr.wrapping_add(1);
                    i = i + 1;
                }
                assert(seg.subrange(0, i as int) =~= seg);
            }
            k = k + 1;
        }
        assert(headers@.subrange(0, k as int) =~= headers@);
        self.memory = memory;
        self.pc = entry as u32;
        Ok(())
    }

    /// Loads an ELF image into memory and points the program counter at
    /// its entry: the image is parsed with goblin and its segments loaded
    /// as `load_elf_segments` does.
    pub fn load_elf(&mut self, elf_bytes: &[u8]) -> (r: Result<(), &'static str>)
        ensures
            match elf_layout(elf_bytes@) {
                None => {
                    &&& r is Err
                    &&& r->Err_0@ == elf_error_message()
                    &&& final(self).memory() == old(self).memory()
                    &&& final(self).machine() == old(self).machine()
                },
                Some((entry, headers)) => {
                    &&& segments_in_file(elf_bytes@.len(), headers) ==> {
                        &&& r is Ok
                        &&& final(self).memory() == load_segments(old(self).memory(), elf_bytes@, headers)
                        &&& final(self).machine() == (Machine { pc: entry as u32, ..old(self).machine() })
                    }
                    &&& !segments_in_file(elf_bytes@.len(), headers) ==> {
                        &&& r is Err
                        &&& r->Err_0@ == elf_error_message()
                        &&& final(self).memory() == old(self).memory()
                        &&& final(self).machine() == old(self).machine()
                    }
                },
            },
            machine_ok(final(self).machine()),
            rows_numbered(final(self).machine()),
            final(self).program() == old(self).program(),
            final(self).public_inputs() == old(self).public_inputs(),
            final(self).private_inputs() == old(self).private_inputs(),
    {
        proof {
            use_type_invariant(&*self);
        }
        match parse_elf(elf_bytes) {
            None => Err("Failed to parse ELF binary"),
            Some((entry, headers)) => self.load_elf_segments(elf_bytes, entry, &headers),
        }
    }

    /// The byte at `addr`; unwritten memory reads zero.
    fn read_byte(&self, addr: u32) -> (b: u8)
        ensures
            b == mem_byte(self.memory@, addr),
    {
        match self.memory.get(&addr) {
            Some(b) => *b,
            None => 0,
        }
    }

    /// The little-endian word at `addr`.
    fn fetch_opcode(&self, addr: u32) -> (w: u32)
        ensures
            w == fetch_word(self.memory@, addr),
    {
        let b0 = self.read_byte(addr) as u32;
        let b1 = self.read_byte(addr.wrapping_add(1)) as u32;
        let b2 = self.read_byte(addr.wrapping_add(2)) as u32;
        let b3 = self.read_byte(addr.wrapping_add(3)) as u32;
        b0 | (b1 << 8) | (b2 << 16) | (b3 << 24)
    }

    /// Decodes a word into its instruction format.
    fn decode(&self, instr: u32) -> (r: Result<InstructionFormat, String>)
        ensures
            match decode_spec(instr) {
                Ok(f) => r == Ok::<InstructionFormat, String>(f),
                Err(op) => r is Err && r->Err_0@ == unsupported_message(op),
            },
    {
        let opcode = instr & 0x7F;
        let rd_reg = Register::from_u32((instr >> 7) & 0x1F);
        let funct3 = (instr >> 12) & 0x07;
        let rs1_reg = Register::from_u32((instr >> 15) & 0x1F);
        let rs2_reg = Register::from_u32((instr >> 20) & 0x1F);
        let funct7 = (instr >> 25) & 0x7F;

        if opcode == 0x13 || opcode == 0x03 {
            let imm = ((instr as i32) >> 20u32) as u32;
            Ok(InstructionFormat::IType { imm, rs1: rs1_reg, funct3, rd: rd_reg, opcode })
        } else if opcode == 0x33 {
            Ok(
                InstructionFormat::RType {
                    funct7,
                    rs2: rs2_reg,
                    rs1: rs1_reg,
                    funct3,
                    rd: rd_reg,
                    opcode,
                },
            )
        } else if opcode == 0x23 {
            let imm = ((instr >> 7) & 0x1F) | ((instr >> 20) & 0xFE0);
            Ok(InstructionFormat::SType { imm, rs2: rs2_reg, rs1: rs1_reg, funct3, opcode })
        } else if opcode == 0x63 {
            let imm = ((instr >> 8) & 0xF) | (((instr >> 25) & 0x3F) << 4) | (((instr >> 7) & 0x1)
                << 10) | (((instr >> 31) & 0x1) << 11);
            Ok(InstructionFormat::BType { imm: imm << 1, rs2: rs2_reg, rs1: rs1_reg, funct3, opcode })
        } else if opcode == 0x73 {
            Ok(InstructionFormat::Ecall)
        } else {
            let mut msg = String::from_str("Unimplemented opcode: ");
            push_hex_prefixed(&mut msg, opcode as u64);
            Err(msg)
        }
    }

    /// The instruction at the program counter: `Ok(None)` where memory
    /// holds a zero word.
    fn fetch(&self) -> (r: Result<Option<InstructionFormat>, String>)
        ensures
            match fetch_spec(self.program@, self.memory@, self.pc) {
                Fetched::Halt => r == Ok::<Option<InstructionFormat>, String>(None),
                Fetched::Decoded(f) => r == Ok::<Option<InstructionFormat>, String>(Some(f)),
                Fetched::Unsupported(op) => r is Err && r->Err_0@ == unsupported_message(op),
            },
    {
        let pc = self.pc;
        if pc % 4 == 0 && ((pc / 4) as usize) < self.program.len() {
            return Ok(Some(self.program[(pc / 4) as usize].lower()));
        }
        let instr_data = self.fetch_opcode(pc);
        if instr_data == 0 {
            return Ok(None);
        }
        match self.decode(instr_data) {
            Ok(f) => Ok(Some(f)),
            Err(e) => Err(e),
        }
    }

    /// Executes a decoded instruction on the registers and returns the
    /// address of the next instruction.
    fn execute_instruction(&mut self, decoded: &InstructionFormat) -> (next_pc: u32)
        ensures
            final(self).machine() == (Machine {
                registers: execute_spec(old(self).machine().registers, *decoded),
                ..old(self).machine()
            }),
            next_pc == wrap32(old(self).pc + 4),
            final(self).memory() == old(self).memory(),
            final(self).program() == old(self).program(),
            final(self).public_inputs() == old(self).public_inputs(),
            final(self).private_inputs() == old(self).private_inputs(),
    {
        let next_pc = self.pc.wrapping_add(4);
        match *decoded {
            InstructionFormat::IType { imm, rs1, funct3: _, rd, opcode: _ } => {
                let val = self.get_register(rs1).wrapping_add(imm);
                self.set_register(rd, val);
            },
            InstructionFormat::RType { funct7, rs2, rs1, funct3, rd, opcode: _ } => {
                let a = self.get_register(rs1);
                let b = self.get_register(rs2);
                let val = if funct3 == 0 && funct7 == FUNCT7_SUB {
                    a.wrapping_sub(b)
                } else if funct3 == 0 && funct7 == FUNCT7_MULDIV {
                    a.wrapping_mul(b)
                } else {
                    a.wrapping_add(b)
                };
                self.set_register(rd, val);
            },
            _ => {},
        }
        next_pc
    }

    /// A copy of the trace recorded so far.
    fn snapshot(&self) -> (t: ExecutionTrace)
        ensures
            steps_view(t.steps@) == steps_view(self.trace.steps@),
            t.public_inputs@ == self.trace.public_inputs@,
            t.private_inputs@ == self.trace.private_inputs@,
    {
        ExecutionTrace {
            steps: duplicate_steps(&self.trace.steps),
            public_inputs: duplicate_words(&self.trace.public_inputs),
            private_inputs: duplicate_words(&self.trace.private_inputs),
        }
    }

    /// Runs the machine until a zero word, an `Ecall`, an unsupported
    /// opcode or the step limit, and returns the trace of the run.
    pub fn execute(&mut self) -> (r: Result<ExecutionTrace, String>)
        ensures
            ({
                let (m, end) = run(old(self).program(), old(self).memory(), old(self).machine());
                &&& final(self).machine() == m
                &&& match end {
                    RunEnd::Halted => r is Ok && steps_view(r->Ok_0.steps@) == m.steps
                        && r->Ok_0.public_inputs@ == old(self).public_inputs()
                        && r->Ok_0.private_inputs@ == old(self).private_inputs(),
                    RunEnd::OutOfGas => r is Err && r->Err_0@ == out_of_gas_message(),
                    RunEnd::Unsupported(op) => r is Err && r->Err_0@ == unsupported_message(op),
                }
            }),
            final(self).memory() == old(self).memory(),
            machine_ok(final(self).machine()),
            rows_numbered(final(self).machine()),
            final(self).program() == old(self).program(),
            final(self).public_inputs() == old(self).public_inputs(),
            final(self).private_inputs() == old(self).private_inputs(),
    {
        proof {
            use_type_invariant(&*self);
        }
        let ghost goal = run(self.program@, self.memory@, self.machine());
        loop
            invariant
                machine_ok(self.machine()),
                rows_numbered(self.machine()),
                run(self.program@, self.memory@, self.machine()) == goal,
                goal == run(old(self).program(), old(self).memory(), old(self).machine()),
                self.memory@ == old(self).memory(),
                self.program@ == old(self).program(),
                self.trace.public_inputs@ == old(self).public_inputs(),
                self.trace.private_inputs@ == old(self).private_inputs(),
            decreases MAX_STEPS - self.clk,
        {
            if self.clk >= MAX_STEPS {
                return Err(String::from_str("Out of gas (step limit exceeded)"));
            }
            let decoded = match self.fetch() {
                Ok(Some(f)) => f,
                Ok(None) => {
                    return Ok(self.snapshot());
                },
                Err(e) => {
                    return Err(e);
                },
            };
            let ghost before = self.machine();
            let step_record = ExecutionStep {
                clk: self.clk,
                pc: self.pc,
                decoded_instruction: decoded,
                registers: self.registers,
                memory_reads: Vec::new(),
                memory_writes: Vec::new(),
            };
            proof {
                lemma_step_keeps_machine_ok(before, decoded);
                lemma_execute_keeps_registers_ok(before.registers, decoded);
            }
            proof {
                lemma_step_keeps_rows_numbered(before, decoded);
            }
            let next_pc = self.execute_instruction(&decoded);
            let mut vm = VmRuntime::new(Vec::new(), Vec::new(), Vec::new());
            std::mem::swap(&mut vm, self);
            let VmRuntime { registers, pc: _, memory, program, trace, clk } = vm;
            let ExecutionTrace { steps, public_inputs, private_inputs } = trace;
            let mut steps = steps;
            steps.push(step_record);
            assert(steps_view(steps@) =~= step_spec(before, decoded).steps);
            *self = VmRuntime {
                registers,
                pc: next_pc,
                memory,
                program,
                trace: ExecutionTrace { steps, public_inputs, private_inputs },
                clk: clk + 1,
            };
            assert(self.machine().steps =~= step_spec(before, decoded).steps);
            assert(self.machine() == step_spec(before, decoded));
            if let InstructionFormat::Ecall = decoded {
                return Ok(self.snapshot());
            }
        }
    }

    /// Reads a register; `X0` reads zero.
    pub fn get_register(&self, reg: Register) -> (v: u32)
        ensures
            v == read_reg(self.machine().registers, reg),
            machine_ok(self.machine()),
            rows_numbered(self.machine()),
    {
        proof {
            use_type_invariant(self);
        }
        let idx = reg.index();
        if idx == 0 {
            0
        } else {
            self.registers[idx]
        }
    }
}

} // verus!
