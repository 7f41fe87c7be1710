//! Decoding of instruction words and the effect of each instruction on the
//! machine.
//!
//! The top four bits of a word select the instruction; the twelve bits below
//! them hold its operands.

use crate::bit_reader::bit_field;
pub use crate::bit_reader::BitReader;
use crate::vm::{MachineState, VirtualMachine, REGISTER_COUNT};
use vstd::arithmetic::power2::lemma2_to64;
use vstd::prelude::*;

verus! {

/// Conditional branch.
pub const OP_BR: u16 = 0b0000;

/// Addition.
pub const OP_ADD: u16 = 0b0001;

/// Bitwise and.
pub const OP_AND: u16 = 0b0101;

/// Bitwise complement.
pub const OP_NOT: u16 = 0b1001;

/// System call.
pub const OP_TRAP: u16 = 0b1111;

/// The trap vector that stops the machine.
pub const TRAP_HALT: u16 = 0x25;

/// Why an instruction could not be carried out.
#[derive(Debug, Clone, Copy, PartialEq, Eq)]
pub enum InstructionError {
    /// The operation code selects no instruction.
    InvalidOpCode(u16),
    /// A trap asked for a service that the machine does not offer.
    UnsupportedTrap(u16),
}

/// The operation code of an instruction word: its top four bits.
pub open spec fn opcode(instr: u16) -> u16 {
    bit_field(instr, 12, 4)
}

/// The signed word that is congruent to `x` modulo 65536.
pub open spec fn wrap_word(x: int) -> i16 {
    let m = x % 65536;
    if m >= 32768 {
        (m - 65536) as i16
    } else {
        m as i16
    }
}

/// The second operand of an addition or a conjunction: the five-bit
/// immediate, zero-extended, where the mode bit is set, else the content of
/// the register that the lowest three bits name.
pub open spec fn second_operand(instr: u16, s: MachineState) -> i16 {
    if bit_field(instr, 5, 1) == 1 {
        bit_field(instr, 0, 5) as i16
    } else {
        s.registers[bit_field(instr, 0, 3) as int]
    }
}

/// Effect of an addition: the destination register receives the sum of the
/// first source register and the second operand, modulo 65536.
pub open spec fn add_effect(instr: u16, s: MachineState) -> MachineState {
    let first = s.registers[bit_field(instr, 6, 3) as int];
    s.with_register(bit_field(instr, 9, 3), wrap_word(first + second_operand(instr, s)))
}

/// Effect of a conjunction: the destination register receives the bitwise
/// and of the first source register and the second operand.
pub open spec fn and_effect(instr: u16, s: MachineState) -> MachineState {
    let first = s.registers[bit_field(instr, 6, 3) as int];
    s.with_register(bit_field(instr, 9, 3), first & second_operand(instr, s))
}

/// The bitwise complement of a signed word. In two's complement, flipping
/// every bit of `value` gives `-1 - value`.
pub open spec fn complement(value: i16) -> i16 {
    (-1 - value) as i16
}

/// The arithmetic form of the complement is the bitwise one.
pub proof fn lemma_complement_flips_bits(value: i16)
    ensures
        complement(value) == !value,
{
    assert(!value == (-1 - value) as i16) by (bit_vector);
}

/// Effect of a complement: the destination register receives the bitwise
/// complement of the source register.
pub open spec fn not_effect(instr: u16, s: MachineState) -> MachineState {
    s.with_register(bit_field(instr, 9, 3), complement(s.registers[bit_field(instr, 6, 3) as int]))
}

/// Whether a branch instruction is taken: it names no class at all, or it
/// names the class (negative, zero, positive) of the condition value.
pub open spec fn branch_taken(instr: u16, s: MachineState) -> bool {
    let n = bit_field(instr, 11, 1) != 0;
    let z = bit_field(instr, 10, 1) != 0;
    let p = bit_field(instr, 9, 1) != 0;
    let condition = s.condition_value();
    (!n && !z && !p) || (n && condition < 0) || (z && condition == 0) || (p && condition > 0)
}

/// Effect of a branch: where it is taken, the program counter moves forward
/// by the nine-bit offset.
pub open spec fn branch_effect(instr: u16, s: MachineState) -> MachineState {
    if branch_taken(instr, s) {
        s.with_pc_moved(bit_field(instr, 0, 9))
    } else {
        s
    }
}

/// A complement instruction must end in six set bits; every other word is
/// well formed.
pub open spec fn well_formed(op_code: u16, instr: u16) -> bool {
    op_code == OP_NOT ==> bit_field(instr, 0, 6) == 0b111111
}

/// What the instruction selected by `op_code`, with its operands taken from
/// `instr`, does to the machine. Operation codes without defined behaviour
/// leave it unchanged.
pub open spec fn effect_of(op_code: u16, instr: u16, s: MachineState) -> MachineState {
    if op_code == OP_ADD {
        add_effect(instr, s)
    } else if op_code == OP_AND {
        and_effect(instr, s)
    } else if op_code == OP_BR {
        branch_effect(instr, s)
    } else if op_code == OP_NOT {
        not_effect(instr, s)
    } else {
        s
    }
}

/// What the dispatcher reports: `Ok(true)` to go on, `Ok(false)` to halt, or
/// the error.
pub open spec fn result_of(op_code: u16, instr: u16) -> Result<bool, InstructionError> {
    if op_code >= 16 {
        Err(InstructionError::InvalidOpCode(op_code))
    } else if op_code == OP_TRAP {
        if bit_field(instr, 0, 8) == TRAP_HALT {
            Ok(false)
        } else {
            Err(InstructionError::UnsupportedTrap(bit_field(instr, 0, 8)))
        }
    } else {
        Ok(true)
    }
}

/// What the instruction word does to the machine.
pub open spec fn instruction_effect(instr: u16, s: MachineState) -> MachineState {
    effect_of(opcode(instr), instr, s)
}

/// What executing the instruction word reports.
pub open spec fn instruction_result(instr: u16) -> Result<bool, InstructionError> {
    result_of(opcode(instr), instr)
}

/// Whether the instruction word can be executed.
pub open spec fn instruction_well_formed(instr: u16) -> bool {
    well_formed(opcode(instr), instr)
}

/// The fields of an instruction word in plain arithmetic: each is a quotient
/// of the word by a power of two, reduced modulo another.
pub proof fn lemma_field_values(instr: u16)
    ensures
        opcode(instr) == instr / 4096,
        opcode(instr) < 16,
        bit_field(instr, 11, 1) == (instr / 2048) % 2,
        bit_field(instr, 10, 1) == (instr / 1024) % 2,
        bit_field(instr, 9, 1) == (instr / 512) % 2,
        bit_field(instr, 9, 3) == (instr / 512) % 8,
        bit_field(instr, 6, 3) == (instr / 64) % 8,
        bit_field(instr, 5, 1) == (instr / 32) % 2,
        bit_field(instr, 0, 3) == instr % 8,
        bit_field(instr, 0, 5) == instr % 32,
        bit_field(instr, 0, 6) == instr % 64,
        bit_field(instr, 0, 8) == instr % 256,
        bit_field(instr, 0, 9) == instr % 512,
{
    lemma2_to64();
}

/// Every instruction keeps the machine well formed: whatever it writes, the
/// condition source still names one of the eight registers.
pub proof fn lemma_effect_preserves_wf(op_code: u16, instr: u16, s: MachineState)
    requires
        s.wf(),
    ensures
        effect_of(op_code, instr, s).wf(),
{
    lemma_field_values(instr);
}

/// Addition and conjunction are functions of the register contents and the
/// instruction word alone: on two machines with equal registers they leave
/// equal registers and the same condition source, and they touch neither
/// memory nor the program counter.
pub proof fn lemma_arithmetic_reads_registers_only(instr: u16, a: MachineState, b: MachineState)
    requires
        opcode(instr) == OP_ADD || opcode(instr) == OP_AND,
        a.registers == b.registers,
    ensures
        instruction_effect(instr, a).registers == instruction_effect(instr, b).registers,
        instruction_effect(instr, a).condition_register == instruction_effect(
            instr,
            b,
        ).condition_register,
        instruction_effect(instr, a).memory == a.memory,
        instruction_effect(instr, a).pc == a.pc,
{
}

/// An addition never faults: whatever the operands, the destination register
/// receives the signed word congruent to their sum modulo 65536, the
/// destination becomes the condition source and no other register changes.
pub proof fn lemma_add_wraps(instr: u16, s: MachineState)
    requires
        s.wf(),
        opcode(instr) == OP_ADD,
    ensures
        instruction_result(instr) == Ok::<bool, InstructionError>(true),
        ({
            let dest = bit_field(instr, 9, 3);
            let first = s.registers[bit_field(instr, 6, 3) as int];
            let second = second_operand(instr, s);
            let t = instruction_effect(instr, s);
            &&& dest < REGISTER_COUNT
            &&& bit_field(instr, 6, 3) < REGISTER_COUNT
            &&& bit_field(instr, 5, 1) == 1 ==> 0 <= second < 32
            &&& (t.registers[dest as int] - (first + second)) % 65536 == 0
            &&& t.condition_register == dest
            &&& forall|r: int| 0 <= r < 8 && r != dest ==> t.registers[r] == s.registers[r]
        }),
{
    lemma_field_values(instr);
}

/// After a write of `val` to any register, a branch that names no class is
/// taken, one that names the class of `val` is taken, and one that names
/// only other classes is not. A branch that is taken moves the program
/// counter forward by its offset; one that is not changes nothing.
pub proof fn lemma_branch_follows_last_write(s: MachineState, loc: u16, val: i16, instr: u16)
    requires
        s.wf(),
        loc < REGISTER_COUNT,
        opcode(instr) == OP_BR,
    ensures
        ({
            let written = s.with_register(loc, val);
            let n = bit_field(instr, 11, 1) == 1;
            let z = bit_field(instr, 10, 1) == 1;
            let p = bit_field(instr, 9, 1) == 1;
            let matching = (n && val < 0) || (z && val == 0) || (p && val > 0);
            let after = instruction_effect(instr, written);
            &&& instruction_result(instr) == Ok::<bool, InstructionError>(true)
            &&& (!n && !z && !p) || matching ==> after == written.with_pc_moved(
                bit_field(instr, 0, 9),
            )
            &&& (n || z || p) && !matching ==> after == written
        }),
{
    lemma_field_values(instr);
}

/// A trap with the halt vector stops the machine without an error; a trap
/// with any other vector fails with that vector. Neither changes the
/// machine.
pub proof fn lemma_trap_halts_or_fails(instr: u16, s: MachineState)
    requires
        opcode(instr) == OP_TRAP,
    ensures
        instruction_well_formed(instr),
        instruction_effect(instr, s) == s,
        bit_field(instr, 0, 8) == TRAP_HALT ==> instruction_result(instr) == Ok::<
            bool,
            InstructionError,
        >(false),
        bit_field(instr, 0, 8) != TRAP_HALT ==> instruction_result(instr) == Err::<
            bool,
            InstructionError,
        >(InstructionError::UnsupportedTrap(bit_field(instr, 0, 8))),
{
}

/// No instruction word is reported as an invalid operation code: the four
/// opcode bits always select an instruction. Only an operation code beyond
/// the sixteen slots is reported so, and then the machine is not touched.
pub proof fn lemma_invalid_opcode_only_beyond_table(op_code: u16, instr: u16, s: MachineState)
    ensures
        !(instruction_result(instr) matches Err(InstructionError::InvalidOpCode(_))),
        op_code >= 16 <==> result_of(op_code, instr) == Err::<bool, InstructionError>(
            InstructionError::InvalidOpCode(op_code),
        ),
        op_code >= 16 ==> effect_of(op_code, instr, s) == s,
{
    lemma_field_values(instr);
}


fn read_second_operand(reader: BitReader, vm: &VirtualMachine) -> (val: i16)
    requires
        reader.remaining() == 6,
    ensures
        val == second_operand(reader.word(), vm@),
{
    let mut reader = reader;
    proof {
        lemma2_to64();
    }
    if reader.read(1) == 1 {
        let imm: u16 = reader.read_to_end();
        imm as i16
    } else {
        reader.skip(2);
        let source_register: u16 = reader.read_to_end();
        vm.get_register(source_register)
    }
}

fn execute_add(reader: BitReader, vm: &mut VirtualMachine)
    requires
        reader.remaining() == 12,
    ensures
        final(vm)@ == add_effect(reader.word(), old(vm)@),
{
    let mut reader = reader;
    proof {
        lemma2_to64();
    }
    let dest_register: u16 = reader.read(3);
    let source_register: u16 = reader.read(3);
    let first: i16 = vm.get_register(source_register);
    let second: i16 = read_second_operand(reader, vm);
    vm.set_register(dest_register, first.wrapping_add(second));
}

fn execute_and(reader: BitReader, vm: &mut VirtualMachine)
    requires
        reader.remaining() == 12,
    ensures
        final(vm)@ == and_effect(reader.word(), old(vm)@),
{
    let mut reader = reader;
    proof {
        lemma2_to64();
    }
    let dest_register: u16 = reader.read(3);
    let source_register: u16 = reader.read(3);
    let first: i16 = vm.get_register(source_register);
    let second: i16 = read_second_operand(reader, vm);
    vm.set_register(dest_register, first & second);
}

fn execute_branch(reader: BitReader, vm: &mut VirtualMachine)
    requires
        reader.remaining() == 12,
    ensures
        final(vm)@ == branch_effect(reader.word(), old(vm)@),
{
    let mut reader = reader;
    let n = reader.read(1) != 0;
    let z = reader.read(1) != 0;
    let p = reader.read(1) != 0;
    let dist: u16 = reader.read_to_end();
    let condition: i16 = vm.get_register(vm.get_condition_register());
    if (!n && !z && !p) || (n && condition < 0) || (z && condition == 0) || (p && condition > 0) {
        vm.move_pc(dist);
    }
}

fn execute_not(reader: BitReader, vm: &mut VirtualMachine)
    requires
        reader.remaining() == 12,
        bit_field(reader.word(), 0, 6) == 0b111111,
    ensures
        final(vm)@ == not_effect(reader.word(), old(vm)@),
{
    let mut reader = reader;
    proof {
        lemma2_to64();
    }
    let dest_register: u16 = reader.read(3);
    let source_register: u16 = reader.read(3);
    let source: i16 = vm.get_register(source_register);
    proof {
        lemma_complement_flips_bits(source);
    }
    vm.set_register(dest_register, !source);
}

fn execute_trap(reader: BitReader) -> (result: Result<bool, InstructionError>)
    requires
        reader.remaining() == 12,
    ensures
        result == result_of(OP_TRAP, reader.word()),
{
    let mut reader = reader;
    reader.skip(4);
    let trap_code: u16 = reader.read_to_end();
    if trap_code == TRAP_HALT {
        Ok(false)
    } else {
        Err(InstructionError::UnsupportedTrap(trap_code))
    }
}

/// Carries out the instruction that `op_code` selects, with `operands`
/// positioned on the twelve operand bits of the instruction word.
///
/// An operation code that selects no instruction is reported as
/// `InvalidOpCode`, and the machine is left as it was.
pub fn dispatch(op_code: u16, operands: BitReader, vm: &mut VirtualMachine) -> (result: Result<
    bool,
    InstructionError,
>)
    requires
        operands.remaining() == 12,
        well_formed(op_code, operands.word()),
    ensures
        result == result_of(op_code, operands.word()),
        final(vm)@ == effect_of(op_code, operands.word(), old(vm)@),
        result is Err ==> final(vm)@ == old(vm)@,
        result == Err::<bool, InstructionError>(InstructionError::InvalidOpCode(op_code))
            <==> op_code >= 16,
{
    match op_code {
        0b0001 => execute_add(operands, vm),
        0b0101 => execute_and(operands, vm),
        0b0000 => execute_branch(operands, vm),
        0b1001 => execute_not(operands, vm),
        0b1111 => {
            return execute_trap(operands);
        },
        0b1100 | 0b0100 | 0b0010 | 0b1010 | 0b0110 | 0b1110 => {},
        0b1000 | 0b0011 | 0b1011 | 0b0111 | 0b1101 => {},
        _ => {
            return Err(InstructionError::InvalidOpCode(op_code));
        },
    }
    Ok(true)
}

/// Whether the instruction word can be executed: a complement instruction
/// whose last six bits are not all set cannot.
pub fn is_well_formed(instr: u16) -> (ok: bool)
    ensures
        ok == instruction_well_formed(instr),
{
    let mut reader = BitReader::new(instr);
    if reader.read(4) == OP_NOT {
        reader.skip(6);
        reader.read_to_end() == 0b111111
    } else {
        true
    }
}

/// Decodes one instruction word and carries it out on the machine.
///
/// Returns `Ok(true)` where execution goes on and `Ok(false)` where the
/// instruction halts the machine.
pub fn handle_instruction(instr: u16, vm: &mut VirtualMachine) -> (result: Result<
    bool,
    InstructionError,
>)
    requires
        instruction_well_formed(instr),
    ensures
        result == instruction_result(instr),
        final(vm)@ == instruction_effect(instr, old(vm)@),
        result is Err ==> final(vm)@ == old(vm)@,
        !(result matches Err(InstructionError::InvalidOpCode(_))),
{
    proof {
        lemma2_to64();
    }
    let mut reader = BitReader::new(instr);
    let op_code: u16 = reader.read(4);
    dispatch(op_code, reader, vm)
}

} // verus!
