//! Architectural data of the RV32 execution engine: registers, the
//! instructions the compiler emits, decoded instruction formats and the
//! execution trace.

use vstd::prelude::*;

verus! {

/// The 32 general purpose registers of the RV32IM architecture.
#[derive(Debug, Clone, Copy, PartialEq, Eq, Structural)]
pub enum Register {
    X0, X1, X2, X3, X4, X5, X6, X7,
    X8, X9, X10, X11, X12, X13, X14, X15,
    X16, X17, X18, X19, X20, X21, X22, X23,
    X24, X25, X26, X27, X28, X29, X30, X31,
}

/// The position of a register in the register file.
pub open spec fn reg_index(r: Register) -> nat {
    match r {
        Register::X0 => 0,
        Register::X1 => 1,
        Register::X2 => 2,
        Register::X3 => 3,
        Register::X4 => 4,
        Register::X5 => 5,
        Register::X6 => 6,
        Register::X7 => 7,
        Register::X8 => 8,
        Register::X9 => 9,
        Register::X10 => 10,
        Register::X11 => 11,
        Register::X12 => 12,
        Register::X13 => 13,
        Register::X14 => 14,
        Register::X15 => 15,
        Register::X16 => 16,
        Register::X17 => 17,
        Register::X18 => 18,
        Register::X19 => 19,
        Register::X20 => 20,
        Register::X21 => 21,
        Register::X22 => 22,
        Register::X23 => 23,
        Register::X24 => 24,
        Register::X25 => 25,
        Register::X26 => 26,
        Register::X27 => 27,
        Register::X28 => 28,
        Register::X29 => 29,
        Register::X30 => 30,
        Register::X31 => 31,
    }
}

/// The registers in register-file order.
pub open spec fn all_registers() -> Seq<Register> {
    seq![
        Register::X0, Register::X1, Register::X2, Register::X3, Register::X4, Register::X5,
        Register::X6, Register::X7, Register::X8, Register::X9, Register::X10, Register::X11,
        Register::X12, Register::X13, Register::X14, Register::X15, Register::X16, Register::X17,
        Register::X18, Register::X19, Register::X20, Register::X21, Register::X22, Register::X23,
        Register::X24, Register::X25, Register::X26, Register::X27, Register::X28, Register::X29,
        Register::X30, Register::X31,
    ]
}

/// The register that a register field selects: out of range selects `X0`.
pub open spec fn reg_from_u32(idx: u32) -> Register {
    if idx < 32 {
        all_registers()[idx as int]
    } else {
        Register::X0
    }
}

/// The register a field value below 32 selects sits at that position.
pub proof fn lemma_reg_from_u32_index(n: u32)
    requires
        n < 32,
    ensures
        reg_index(reg_from_u32(n)) == n,
{
    if n == 0 {
        assert(reg_index(reg_from_u32(n)) == 0);
    } else if n == 1 {
        assert(reg_index(reg_from_u32(n)) == 1);
    } else if n == 2 {
        assert(reg_index(reg_from_u32(n)) == 2);
    } else if n == 3 {
        assert(reg_index(reg_from_u32(n)) == 3);
    } else if n == 4 {
        assert(reg_index(reg_from_u32(n)) == 4);
    } else if n == 5 {
        assert(reg_index(reg_from_u32(n)) == 5);
    } else if n == 6 {
        assert(reg_index(reg_from_u32(n)) == 6);
    } else if n == 7 {
        assert(reg_index(reg_from_u32(n)) == 7);
    } else if n == 8 {
        assert(reg_index(reg_from_u32(n)) == 8);
    } else if n == 9 {
        assert(reg_index(reg_from_u32(n)) == 9);
    } else if n == 10 {
        assert(reg_index(reg_from_u32(n)) == 10);
    } else if n == 11 {
        assert(reg_index(reg_from_u32(n)) == 11);
    } else if n == 12 {
        assert(reg_index(reg_from_u32(n)) == 12);
    } else if n == 13 {
        assert(reg_index(reg_from_u32(n)) == 13);
    } else if n == 14 {
        assert(reg_index(reg_from_u32(n)) == 14);
    } else if n == 15 {
        assert(reg_index(reg_from_u32(n)) == 15);
    } else if n == 16 {
        assert(reg_index(reg_from_u32(n)) == 16);
    } else if n == 17 {
        assert(reg_index(reg_from_u32(n)) == 17);
    } else if n == 18 {
        assert(reg_index(reg_from_u32(n)) == 18);
    } else if n == 19 {
        assert(reg_index(reg_from_u32(n)) == 19);
    } else if n == 20 {
        assert(reg_index(reg_from_u32(n)) == 20);
    } else if n == 21 {
        assert(reg_index(reg_from_u32(n)) == 21);
    } else if n == 22 {
        assert(reg_index(reg_from_u32(n)) == 22);
    } else if n == 23 {
        assert(reg_index(reg_from_u32(n)) == 23);
    } else if n == 24 {
        assert(reg_index(reg_from_u32(n)) == 24);
    } else if n == 25 {
        assert(reg_index(reg_from_u32(n)) == 25);
    } else if n == 26 {
        assert(reg_index(reg_from_u32(n)) == 26);
    } else if n == 27 {
        assert(reg_index(reg_from_u32(n)) == 27);
    } else if n == 28 {
        assert(reg_index(reg_from_u32(n)) == 28);
    } else if n == 29 {
        assert(reg_index(reg_from_u32(n)) == 29);
    } else if n == 30 {
        assert(reg_index(reg_from_u32(n)) == 30);
    } else if n == 31 {
        assert(reg_index(reg_from_u32(n)) == 31);
    }
}

/// Distinct registers sit at distinct positions.
pub proof fn lemma_reg_index_injective(a: Register, b: Register)
    ensures
        reg_index(a) == reg_index(b) <==> a == b,
{
}

/// Selecting a register by its own position gives it back.
pub proof fn law_register_index_round_trip(r: Register)
    ensures
        reg_index(r) < 32,
        reg_from_u32(reg_index(r) as u32) == r,
{
    lemma_reg_from_u32_index(reg_index(r) as u32);
    lemma_reg_index_injective(reg_from_u32(reg_index(r) as u32), r);
}

impl Register {
    /// Compiler-facing names for the first allocatable registers.
    pub const R1: Register = Register::X1;
    pub const R2: Register = Register::X2;
    pub const R3: Register = Register::X3;
    pub const R4: Register = Register::X4;
    pub const R5: Register = Register::X5;
    pub const R6: Register = Register::X6;
    pub const R7: Register = Register::X7;

    /// Maps a 5-bit register field to its register; any index outside the
    /// register file selects the hardwired zero register.
    pub fn from_u32(idx: u32) -> (r: Register)
        ensures
            r == reg_from_u32(idx),
            idx < 32 ==> reg_index(r) == idx,
            idx >= 32 ==> r == Register::X0,
    {
        match idx {
            0 => Register::X0,
            1 => Register::X1,
            2 => Register::X2,
            3 => Register::X3,
            4 => Register::X4,
            5 => Register::X5,
            6 => Register::X6,
            7 => Register::X7,
            8 => Register::X8,
            9 => Register::X9,
            10 => Register::X10,
            11 => Register::X11,
            12 => Register::X12,
            13 => Register::X13,
            14 => Register::X14,
            15 => Register::X15,
            16 => Register::X16,
            17 => Register::X17,
            18 => Register::X18,
            19 => Register::X19,
            20 => Register::X20,
            21 => Register::X21,
            22 => Register::X22,
            23 => Register::X23,
            24 => Register::X24,
            25 => Register::X25,
            26 => Register::X26,
            27 => Register::X27,
            28 => Register::X28,
            29 => Register::X29,
            30 => Register::X30,
            31 => Register::X31,
            _ => Register::X0,
        }
    }

    /// The position of this register in the register file.
    pub fn index(self) -> (i: usize)
        ensures
            i == reg_index(self),
            i < 32,
    {
        match self {
            Register::X0 => 0,
            Register::X1 => 1,
            Register::X2 => 2,
            Register::X3 => 3,
            Register::X4 => 4,
            Register::X5 => 5,
            Register::X6 => 6,
            Register::X7 => 7,
            Register::X8 => 8,
            Register::X9 => 9,
            Register::X10 => 10,
            Register::X11 => 11,
            Register::X12 => 12,
            Register::X13 => 13,
            Register::X14 => 14,
            Register::X15 => 15,
            Register::X16 => 16,
            Register::X17 => 17,
            Register::X18 => 18,
            Register::X19 => 19,
            Register::X20 => 20,
            Register::X21 => 21,
            Register::X22 => 22,
            Register::X23 => 23,
            Register::X24 => 24,
            Register::X25 => 25,
            Register::X26 => 26,
            Register::X27 => 27,
            Register::X28 => 28,
            Register::X29 => 29,
            Register::X30 => 30,
            Register::X31 => 31,
        }
    }
}

/// The instructions the compiler emits and the engine runs from its
/// program memory.
#[derive(Debug, Clone, Copy, PartialEq, Eq, Structural)]
pub enum Instruction {
    /// Load an immediate into a register.
    Li(Register, u32),
    /// `rd = rs1 + rs2`, wrapping.
    Add(Register, Register, Register),
    /// `rd = rs1 - rs2`, wrapping.
    Sub(Register, Register, Register),
    /// `rd = rs1 * rs2`, wrapping (low 32 bits).
    Mul(Register, Register, Register),
    /// Environment call: halts the machine.
    Ecall,
}

/// A decoded RISC-V instruction.
#[derive(Debug, Clone, Copy, PartialEq, Eq, Structural)]
pub enum InstructionFormat {
    RType { funct7: u32, rs2: Register, rs1: Register, funct3: u32, rd: Register, opcode: u32 },
    IType { imm: u32, rs1: Register, funct3: u32, rd: Register, opcode: u32 },
    SType { imm: u32, rs2: Register, rs1: Register, funct3: u32, opcode: u32 },
    BType { imm: u32, rs2: Register, rs1: Register, funct3: u32, opcode: u32 },
    UType { imm: u32, rd: Register, opcode: u32 },
    JType { imm: u32, rd: Register, opcode: u32 },
    Ecall,
}

/// RV32 opcode of register-register arithmetic.
pub const OPCODE_OP: u32 = 0x33;
/// RV32 opcode of register-immediate arithmetic.
pub const OPCODE_OP_IMM: u32 = 0x13;
/// `funct7` of `SUB`.
pub const FUNCT7_SUB: u32 = 0x20;
/// `funct7` of `MUL` (the M extension).
pub const FUNCT7_MULDIV: u32 = 0x01;

/// The decoded form under which an instruction is executed and traced:
/// `Li` is `addi rd, x0, imm`; `Add`, `Sub` and `Mul` are the R-type
/// `add`, `sub` and `mul`.
pub open spec fn lower_spec(i: Instruction) -> InstructionFormat {
    match i {
        Instruction::Li(rd, imm) => InstructionFormat::IType {
            imm,
            rs1: Register::X0,
            funct3: 0,
            rd,
            opcode: OPCODE_OP_IMM,
        },
        Instruction::Add(rd, rs1, rs2) => InstructionFormat::RType {
            funct7: 0,
            rs2,
            rs1,
            funct3: 0,
            rd,
            opcode: OPCODE_OP,
        },
        Instruction::Sub(rd, rs1, rs2) => InstructionFormat::RType {
            funct7: FUNCT7_SUB,
            rs2,
            rs1,
            funct3: 0,
            rd,
            opcode: OPCODE_OP,
        },
        Instruction::Mul(rd, rs1, rs2) => InstructionFormat::RType {
            funct7: FUNCT7_MULDIV,
            rs2,
            rs1,
            funct3: 0,
            rd,
            opcode: OPCODE_OP,
        },
        Instruction::Ecall => InstructionFormat::Ecall,
    }
}

impl Instruction {
    /// The decoded form of this instruction.
    pub fn lower(&self) -> (f: InstructionFormat)
        ensures
            f == lower_spec(*self),
    {
        match *self {
            Instruction::Li(rd, imm) => InstructionFormat::IType {
                imm,
                rs1: Register::X0,
                funct3: 0,
                rd,
                opcode: OPCODE_OP_IMM,
            },
            Instruction::Add(rd, rs1, rs2) => InstructionFormat::RType {
                funct7: 0,
                rs2,
                rs1,
                funct3: 0,
                rd,
                opcode: OPCODE_OP,
            },
            Instruction::Sub(rd, rs1, rs2) => InstructionFormat::RType {
                funct7: FUNCT7_SUB,
                rs2,
                rs1,
                funct3: 0,
                rd,
                opcode: OPCODE_OP,
            },
            Instruction::Mul(rd, rs1, rs2) => InstructionFormat::RType {
                funct7: FUNCT7_MULDIV,
                rs2,
                rs1,
                funct3: 0,
                rd,
                opcode: OPCODE_OP,
            },
            Instruction::Ecall => InstructionFormat::Ecall,
        }
    }
}

/// A single clock cycle of the machine: the state before the instruction
/// ran and the instruction itself. The prover consumes these rows.
#[derive(Debug, Clone)]
pub struct ExecutionStep {
    pub clk: u32,
    pub pc: u32,
    pub decoded_instruction: InstructionFormat,
    pub registers: [u32; 32],
    pub memory_reads: Vec<(u32, u32)>,
    pub memory_writes: Vec<(u32, u32)>,
}

/// The mathematical content of a trace row.
pub struct StepView {
    pub clk: u32,
    pub pc: u32,
    pub decoded_instruction: InstructionFormat,
    pub registers: Seq<u32>,
    pub memory_reads: Seq<(u32, u32)>,
    pub memory_writes: Seq<(u32, u32)>,
}

impl View for ExecutionStep {
    type V = StepView;

    open spec fn view(&self) -> StepView {
        StepView {
            clk: self.clk,
            pc: self.pc,
            decoded_instruction: self.decoded_instruction,
            registers: self.registers@,
            memory_reads: self.memory_reads@,
            memory_writes: self.memory_writes@,
        }
    }
}

impl ExecutionStep {
    /// A copy of this row.
    pub(crate) fn duplicate(&self) -> (r: ExecutionStep)
        ensures
            r@ == self@,
    {
        let mut reads: Vec<(u32, u32)> = Vec::new();
        let mut i: usize = 0;
        while i < self.memory_reads.len()
            invariant
                i <= self.memory_reads@.len(),
                reads@ == self.memory_reads@.subrange(0, i as int),
            decreases self.memory_reads@.len() - i,
        {
            reads.push(self.memory_reads[i]);
            i = i + 1;
            assert(reads@ =~= self.memory_reads@.subrange(0, i as int));
        }
        let mut writes: Vec<(u32, u32)> = Vec::new();
        let mut j: usize = 0;
        while j < self.memory_writes.len()
            invariant
                j <= self.memory_writes@.len(),
                writes@ == self.memory_writes@.subrange(0, j as int),
            decreases self.memory_writes@.len() - j,
        {
            writes.push(self.memory_writes[j]);
            j = j + 1;
            assert(writes@ =~= self.memory_writes@.subrange(0, j as int));
        }
        assert(reads@ =~= self.memory_reads@);
        assert(writes@ =~= self.memory_writes@);
        ExecutionStep {
            clk: self.clk,
            pc: self.pc,
            decoded_instruction: self.decoded_instruction,
            registers: self.registers,
            memory_reads: reads,
            memory_writes: writes,
        }
    }
}

/// The whole execution history of a run.
#[derive(Debug, Clone)]
pub struct ExecutionTrace {
    pub steps: Vec<ExecutionStep>,
    pub public_inputs: Vec<u32>,
    pub private_inputs: Vec<u32>,
}

impl Default for ExecutionTrace {
    fn default() -> (t: ExecutionTrace)
        ensures
            t.steps@.len() == 0,
            t.public_inputs@.len() == 0,
            t.private_inputs@.len() == 0,
    {
        ExecutionTrace { steps: Vec::new(), public_inputs: Vec::new(), private_inputs: Vec::new() }
    }
}

/// The rows of a trace, as mathematical values.
pub open spec fn steps_view(steps: Seq<ExecutionStep>) -> Seq<StepView> {
    steps.map_values(|s: ExecutionStep| s@)
}

/// A copy of a sequence of rows.
pub(crate) fn duplicate_steps(steps: &Vec<ExecutionStep>) -> (r: Vec<ExecutionStep>)
    ensures
        steps_view(r@) == steps_view(steps@),
{
    let mut out: Vec<ExecutionStep> = Vec::new();
    let mut i: usize = 0;
    while i < steps.len()
        invariant
            i <= steps@.len(),
            out@.len() == i,
            forall|k: int| 0 <= k < i ==> #[trigger] out@[k]@ == steps@[k]@,
        decreases steps@.len() - i,
    {
        let s = steps[i].duplicate();
        out.push(s);
        i = i + 1;
    }
    assert(steps_view(out@) =~= steps_view(steps@));
    out
}

/// A copy of a sequence of integers.
pub(crate) fn duplicate_words(v: &Vec<u32>) -> (r: Vec<u32>)
    ensures
        r@ == v@,
{
    let mut out: Vec<u32> = Vec::new();
    let mut i: usize = 0;
    while i < v.len()
        invariant
            i <= v@.len(),
            out@ == v@.subrange(0, i as int),
        decreases v@.len() - i,
    {
        out.push(v[i]);
        i = i + 1;
        assert(out@ =~= v@.subrange(0, i as int));
    }
    assert(out@ =~= v@);
    out
}

} // verus!
