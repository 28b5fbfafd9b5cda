use zkvm::models::{Instruction, InstructionFormat, Register};
use zkvm::runtime::VmRuntime;

/// A 64-bit little-endian RISC-V executable with one loadable segment
/// holding `code` at `vaddr`; `extra` is added to the segment's file size.
fn elf_image(entry: u64, vaddr: u64, code: &[u32], extra: u64) -> Vec<u8> {
    let mut b: Vec<u8> = Vec::new();
    b.extend_from_slice(&[0x7f, b'E', b'L', b'F', 2, 1, 1, 0]);
    b.extend_from_slice(&[0u8; 8]);
    b.extend_from_slice(&2u16.to_le_bytes()); // e_type: executable
    b.extend_from_slice(&0xF3u16.to_le_bytes()); // e_machine: RISC-V
    b.extend_from_slice(&1u32.to_le_bytes()); // e_version
    b.extend_from_slice(&entry.to_le_bytes()); // e_entry
    b.extend_from_slice(&64u64.to_le_bytes()); // e_phoff
    b.extend_from_slice(&0u64.to_le_bytes()); // e_shoff
    b.extend_from_slice(&0u32.to_le_bytes()); // e_flags
    b.extend_from_slice(&64u16.to_le_bytes()); // e_ehsize
    b.extend_from_slice(&56u16.to_le_bytes()); // e_phentsize
    b.extend_from_slice(&1u16.to_le_bytes()); // e_phnum
    b.extend_from_slice(&64u16.to_le_bytes()); // e_shentsize
    b.extend_from_slice(&0u16.to_le_bytes()); // e_shnum
    b.extend_from_slice(&0u16.to_le_bytes()); // e_shstrndx
    let size = (code.len() * 4) as u64;
    b.extend_from_slice(&1u32.to_le_bytes()); // p_type: PT_LOAD
    b.extend_from_slice(&5u32.to_le_bytes()); // p_flags
    b.extend_from_slice(&120u64.to_le_bytes()); // p_offset
    b.extend_from_slice(&vaddr.to_le_bytes()); // p_vaddr
    b.extend_from_slice(&vaddr.to_le_bytes()); // p_paddr
    b.extend_from_slice(&(size + extra).to_le_bytes()); // p_filesz
    b.extend_from_slice(&(size + extra).to_le_bytes()); // p_memsz
    b.extend_from_slice(&4u64.to_le_bytes()); // p_align
    for w in code {
        b.extend_from_slice(&w.to_le_bytes());
    }
    b
}

const ADD_X3_X1_X2: u32 = 0x002081B3;
const SUB_X3_X1_X2: u32 = 0x402081B3;
const MUL_X3_X1_X2: u32 = 0x022081B3;
const ADDI_X1_X0_5: u32 = 0x00500093;
const ECALL: u32 = 0x00000073;

fn loaded(code: &[u32]) -> VmRuntime {
    let mut vm = VmRuntime::new(vec![], vec![], vec![]);
    vm.load_elf(&elf_image(0x1000, 0x1000, code, 0)).unwrap();
    vm
}

#[test]
fn test_basic_addition() {
    // R1 = 5, R2 = 10, R3 = R1 + R2 (15)
    let program = vec![
        Instruction::Li(Register::R1, 5),
        Instruction::Li(Register::R2, 10),
        Instruction::Add(Register::R3, Register::R1, Register::R2),
    ];

    let mut vm = VmRuntime::new(program, vec![], vec![]);
    let trace = vm.execute().unwrap();

    assert_eq!(vm.get_register(Register::R3), 15);
    assert_eq!(trace.steps.len(), 3);
}

#[test]
fn trace_rows_record_state_before_each_step() {
    let program = vec![
        Instruction::Li(Register::R1, 5),
        Instruction::Li(Register::R2, 10),
        Instruction::Ecall,
        Instruction::Li(Register::R3, 99),
    ];
    let mut vm = VmRuntime::new(program, vec![7], vec![8, 9]);
    let trace = vm.execute().unwrap();
    // The Ecall is recorded and stops the run.
    assert_eq!(trace.steps.len(), 3);
    assert_eq!(vm.get_register(Register::R3), 0);
    for (i, step) in trace.steps.iter().enumerate() {
        assert_eq!(step.clk, i as u32);
        assert_eq!(step.pc, 4 * i as u32);
        assert!(step.memory_reads.is_empty());
        assert!(step.memory_writes.is_empty());
    }
    assert_eq!(trace.steps[1].registers[1], 5);
    assert_eq!(trace.steps[1].registers[2], 0);
    assert_eq!(
        trace.steps[0].decoded_instruction,
        InstructionFormat::IType { imm: 5, rs1: Register::X0, funct3: 0, rd: Register::X1, opcode: 0x13 }
    );
    assert_eq!(trace.steps[2].decoded_instruction, InstructionFormat::Ecall);
    assert_eq!(trace.public_inputs, vec![7]);
    assert_eq!(trace.private_inputs, vec![8, 9]);
}

#[test]
fn register_zero_is_hardwired() {
    let mut vm = VmRuntime::new(vec![], vec![], vec![]);
    vm.set_register(Register::X0, 77);
    assert_eq!(vm.get_register(Register::X0), 0);
    vm.set_register(Register::X31, 77);
    assert_eq!(vm.get_register(Register::X31), 77);
    assert_eq!(vm.get_register(Register::X30), 0);
}

#[test]
fn register_from_field_value() {
    assert_eq!(Register::from_u32(0), Register::X0);
    assert_eq!(Register::from_u32(17), Register::X17);
    assert_eq!(Register::from_u32(31), Register::X31);
    assert_eq!(Register::from_u32(32), Register::X0);
    assert_eq!(Register::from_u32(u32::MAX), Register::X0);
    assert_eq!(Register::X17.index(), 17);
    assert_eq!(Register::R7, Register::X7);
}

#[test]
fn empty_machine_halts_immediately() {
    let mut vm = VmRuntime::new(vec![], vec![], vec![]);
    let trace = vm.execute().unwrap();
    assert!(trace.steps.is_empty());
}

#[test]
fn elf_program_runs_from_entry() {
    let mut vm = loaded(&[ADDI_X1_X0_5, ECALL]);
    let trace = vm.execute().unwrap();
    assert_eq!(trace.steps.len(), 2);
    assert_eq!(trace.steps[0].pc, 0x1000);
    assert_eq!(trace.steps[1].pc, 0x1004);
    assert_eq!(vm.get_register(Register::X1), 5);
}

#[test]
fn itype_immediate_is_sign_extended() {
    // addi x1, x0, -1 and then addi x1, x1, 2047
    let mut vm = loaded(&[0xFFF00093, 0x7FF08093, ECALL]);
    let trace = vm.execute().unwrap();
    assert_eq!(trace.steps.len(), 3);
    assert_eq!(
        trace.steps[0].decoded_instruction,
        InstructionFormat::IType { imm: u32::MAX, rs1: Register::X0, funct3: 0, rd: Register::X1, opcode: 0x13 }
    );
    assert_eq!(vm.get_register(Register::X1), 2046);
}

#[test]
fn rtype_add_sub_mul() {
    for (word, expected) in [(ADD_X3_X1_X2, 5u32), (SUB_X3_X1_X2, u32::MAX), (MUL_X3_X1_X2, 6)] {
        let mut vm = loaded(&[word]);
        vm.set_register(Register::X1, 2);
        vm.set_register(Register::X2, 3);
        let trace = vm.execute().unwrap();
        // A zero word after the instruction ends the run.
        assert_eq!(trace.steps.len(), 1);
        assert_eq!(vm.get_register(Register::X3), expected);
    }
}

#[test]
fn unsupported_opcode_is_an_error() {
    let mut vm = loaded(&[ADDI_X1_X0_5, 0x0000_007F]);
    let err = vm.execute().unwrap_err();
    assert_eq!(err, "Unimplemented opcode: 0x7f");
    assert_eq!(vm.get_register(Register::X1), 5);
}

#[test]
fn store_and_branch_words_decode() {
    // sw x2, 0(x1) and beq x0, x0, 8: traced, registers unchanged.
    let mut vm = loaded(&[0x0020A023, 0x00000463, ECALL]);
    let trace = vm.execute().unwrap();
    assert_eq!(trace.steps.len(), 3);
    assert!(matches!(trace.steps[0].decoded_instruction, InstructionFormat::SType { .. }));
    assert!(matches!(trace.steps[1].decoded_instruction, InstructionFormat::BType { imm: 8, .. }));
}

#[test]
fn load_elf_rejects_garbage() {
    let mut vm = VmRuntime::new(vec![], vec![], vec![]);
    assert_eq!(vm.load_elf(&[1, 2, 3, 4]), Err("Failed to parse ELF binary"));
    let trace = vm.execute().unwrap();
    assert!(trace.steps.is_empty());
}

#[test]
fn load_elf_rejects_segment_past_end_of_file() {
    let mut vm = VmRuntime::new(vec![], vec![], vec![]);
    let image = elf_image(0x1000, 0x1000, &[ADDI_X1_X0_5, ECALL], 16);
    assert_eq!(vm.load_elf(&image), Err("Failed to parse ELF binary"));
}

#[test]
fn load_elf_segments_directly() {
    let mut vm = VmRuntime::new(vec![], vec![], vec![]);
    let bytes: Vec<u8> = ECALL.to_le_bytes().to_vec();
    // A non-loadable header is ignored; the loadable one is copied.
    let headers = vec![(4u32, 0u64, 0x9000u64, 4u64), (1u32, 0u64, 0x2000u64, 4u64)];
    assert_eq!(vm.load_elf_segments(&bytes, 0x2000, &headers), Ok(()));
    let trace = vm.execute().unwrap();
    assert_eq!(trace.steps.len(), 1);
    assert_eq!(trace.steps[0].pc, 0x2000);
    let bad = vec![(1u32, 2u64, 0x2000u64, 4u64)];
    assert_eq!(vm.load_elf_segments(&bytes, 0x2000, &bad), Err("Failed to parse ELF binary"));
}

#[test]
fn lowered_instruction_forms() {
    assert_eq!(
        Instruction::Sub(Register::X3, Register::X1, Register::X2).lower(),
        InstructionFormat::RType {
            funct7: 0x20,
            rs2: Register::X2,
            rs1: Register::X1,
            funct3: 0,
            rd: Register::X3,
            opcode: 0x33
        }
    );
    assert_eq!(Instruction::Ecall.lower(), InstructionFormat::Ecall);
}

#[test]
fn rows_record_registers_before_each_instruction() {
    let mut vm = VmRuntime::new(
        vec![
            Instruction::Li(Register::X1, 5),
            Instruction::Add(Register::X2, Register::X1, Register::X1),
            Instruction::Li(Register::X0, 7),
            Instruction::Ecall,
        ],
        vec![],
        vec![],
    );
    let trace = vm.execute().unwrap();
    assert_eq!(trace.steps.len(), 4);
    assert_eq!(trace.steps[0].registers, [0u32; 32]);
    assert_eq!(trace.steps[1].registers[1], 5);
    assert_eq!(trace.steps[2].registers[2], 10);
    for step in &trace.steps {
        assert_eq!(step.registers[0], 0);
    }
    assert_eq!(vm.get_register(Register::X0), 0);
    assert_eq!(vm.get_register(Register::X2), 10);
}

#[test]
fn set_then_get_register() {
    let mut vm = VmRuntime::new(vec![], vec![], vec![]);
    vm.set_register(Register::X5, 9);
    vm.set_register(Register::X0, 9);
    assert_eq!(vm.get_register(Register::X5), 9);
    assert_eq!(vm.get_register(Register::X0), 0);
    assert_eq!(vm.get_register(Register::X6), 0);
}
