//! The machine state: registers, memory, program counter and the register
//! that branches consult.

use crate::bit_reader::bit_field;
use crate::instructions::{
    handle_instruction, instruction_effect, instruction_result, instruction_well_formed,
    is_well_formed, lemma_trap_halts_or_fails, opcode, InstructionError, OP_TRAP, TRAP_HALT,
};
use vstd::prelude::*;

verus! {

/// Number of words of memory.
pub const MEMORY_SIZE: usize = 65536;

/// Number of registers.
pub const REGISTER_COUNT: u16 = 8;

/// The mathematical content of a machine.
pub ghost struct MachineState {
    /// Address of the next word to fetch.
    pub pc: u16,
    /// One signed word per address.
    pub memory: Seq<i16>,
    /// One signed word per register.
    pub registers: Seq<i16>,
    /// Index of the register written last, which branches classify.
    pub condition_register: u16,
}

impl MachineState {
    /// Memory and register file have their fixed sizes and the condition
    /// source names a register.
    pub open spec fn wf(self) -> bool {
        &&& self.memory.len() == MEMORY_SIZE
        &&& self.registers.len() == REGISTER_COUNT
        &&& self.condition_register < REGISTER_COUNT
    }

    /// The state of a machine that was just created.
    pub open spec fn initial() -> MachineState {
        MachineState {
            pc: 0,
            memory: Seq::new(MEMORY_SIZE as nat, |i: int| 0i16),
            registers: Seq::new(REGISTER_COUNT as nat, |i: int| 0i16),
            condition_register: 0,
        }
    }

    /// This state with the program counter at `addr`.
    pub open spec fn with_pc(self, addr: u16) -> MachineState {
        MachineState { pc: addr, ..self }
    }

    /// This state with the program counter moved forward by `dist`, modulo
    /// the size of the address space.
    pub open spec fn with_pc_moved(self, dist: u16) -> MachineState {
        MachineState { pc: ((self.pc + dist) % 65536) as u16, ..self }
    }

    /// This state with `value` stored at `addr`.
    pub open spec fn with_memory(self, addr: u16, value: i16) -> MachineState {
        MachineState { memory: self.memory.update(addr as int, value), ..self }
    }

    /// This state with `val` written to register `loc`, which becomes the
    /// condition source.
    pub open spec fn with_register(self, loc: u16, val: i16) -> MachineState {
        MachineState {
            registers: self.registers.update(loc as int, val),
            condition_register: loc,
            ..self
        }
    }

    /// The value that branches classify: the current content of the register
    /// written last.
    pub open spec fn condition_value(self) -> i16 {
        self.registers[self.condition_register as int]
    }
}

/// The top of the address space for the fetch-execute loop: a step that
/// leaves the program counter at or beyond this address halts instead of
/// moving on, so the program counter never runs off the end of memory.
pub const TOP_ADDRESS: u16 = 0xFFFE;

/// The bits of a signed word, read as an unsigned number.
pub open spec fn word_bits(value: i16) -> u16 {
    if value < 0 {
        (value + 65536) as u16
    } else {
        value as u16
    }
}

/// The instruction word at the program counter.
pub open spec fn fetched(s: MachineState) -> u16 {
    word_bits(s.memory[s.pc as int])
}

/// What one step reports: `Ok(true)` where the machine goes on, `Ok(false)`
/// where it has halted, because the instruction said so or because the
/// program counter has reached the top of the address space, or the error of
/// the instruction.
pub open spec fn step_result(s: MachineState) -> Result<bool, InstructionError> {
    match instruction_result(fetched(s)) {
        Ok(true) => Ok(instruction_effect(fetched(s), s).pc < TOP_ADDRESS),
        other => other,
    }
}

/// The state after one step: the fetched instruction is carried out, and
/// where the machine goes on the program counter advances by one.
pub open spec fn step_state(s: MachineState) -> MachineState {
    let t = instruction_effect(fetched(s), s);
    if step_result(s) == Ok::<bool, InstructionError>(true) {
        t.with_pc((t.pc + 1) as u16)
    } else {
        t
    }
}

/// The state after `count` steps.
pub open spec fn state_after(s: MachineState, count: nat) -> MachineState
    decreases count,
{
    if count == 0 {
        s
    } else {
        state_after(step_state(s), (count - 1) as nat)
    }
}

/// The machine stops within `fuel + 1` steps from `s`, and every
/// instruction that it fetches on the way is well formed.
pub open spec fn halts_within(s: MachineState, fuel: nat) -> bool
    decreases fuel,
{
    &&& instruction_well_formed(fetched(s))
    &&& (step_result(s) != Ok::<bool, InstructionError>(true) || (fuel > 0 && halts_within(
        step_state(s),
        (fuel - 1) as nat,
    )))
}

/// How many steps the machine takes from `s` until it stops, for a machine
/// that stops within `fuel + 1` steps.
pub open spec fn steps_taken(s: MachineState, fuel: nat) -> nat
    decreases fuel,
{
    if fuel == 0 || step_result(s) != Ok::<bool, InstructionError>(true) {
        1
    } else {
        1 + steps_taken(step_state(s), (fuel - 1) as nat)
    }
}

/// The state in which a run from `s` ends, for a machine that stops within
/// `fuel + 1` steps.
pub open spec fn run_state(s: MachineState, fuel: nat) -> MachineState
    decreases fuel,
{
    if fuel == 0 || step_result(s) != Ok::<bool, InstructionError>(true) {
        step_state(s)
    } else {
        run_state(step_state(s), (fuel - 1) as nat)
    }
}

/// What a run reports for the step that ended it.
pub open spec fn run_outcome(last: Result<bool, InstructionError>) -> Result<(), InstructionError> {
    match last {
        Ok(_) => Ok(()),
        Err(e) => Err(e),
    }
}

/// What a run from `s` reports, for a machine that stops within `fuel + 1`
/// steps.
pub open spec fn run_result(s: MachineState, fuel: nat) -> Result<(), InstructionError>
    decreases fuel,
{
    if fuel == 0 || step_result(s) != Ok::<bool, InstructionError>(true) {
        run_outcome(step_result(s))
    } else {
        run_result(step_state(s), (fuel - 1) as nat)
    }
}

/// Where a run ends and what it reports do not depend on the bound that
/// shows that it ends.
pub proof fn lemma_run_ignores_fuel(s: MachineState, a: nat, b: nat)
    requires
        halts_within(s, a),
        halts_within(s, b),
    ensures
        run_state(s, a) == run_state(s, b),
        run_result(s, a) == run_result(s, b),
        steps_taken(s, a) == steps_taken(s, b),
    decreases a,
{
    if step_result(s) == Ok::<bool, InstructionError>(true) {
        lemma_run_ignores_fuel(step_state(s), (a - 1) as nat, (b - 1) as nat);
    }
}

/// A run is a sequence of single steps: it ends in the state that the same
/// number of steps reaches one at a time, every step but the last reports
/// that the machine goes on, and the last one decides what the run reports.
pub proof fn lemma_run_is_repeated_step(s: MachineState, fuel: nat)
    requires
        halts_within(s, fuel),
    ensures
        steps_taken(s, fuel) >= 1,
        run_state(s, fuel) == state_after(s, steps_taken(s, fuel)),
        run_result(s, fuel) == run_outcome(
            step_result(state_after(s, (steps_taken(s, fuel) - 1) as nat)),
        ),
        step_result(state_after(s, (steps_taken(s, fuel) - 1) as nat)) != Ok::<
            bool,
            InstructionError,
        >(true),
        forall|j: nat|
            j < steps_taken(s, fuel) - 1 ==> #[trigger] step_result(state_after(s, j)) == Ok::<
                bool,
                InstructionError,
            >(true),
    decreases fuel,
{
    let next = step_state(s);
    if step_result(s) == Ok::<bool, InstructionError>(true) {
        let rest = (fuel - 1) as nat;
        lemma_run_is_repeated_step(next, rest);
        let k = steps_taken(next, rest);
        assert(state_after(s, k + 1) == state_after(next, k));
        assert(state_after(s, k) == state_after(next, (k - 1) as nat));
        assert forall|j: nat| j < steps_taken(s, fuel) - 1 implies #[trigger] step_result(
            state_after(s, j),
        ) == Ok::<bool, InstructionError>(true) by {
            if j > 0 {
                assert(state_after(s, j) == state_after(next, (j - 1) as nat));
            }
        }
    } else {
        assert(state_after(s, 1) == state_after(next, 0));
    }
}

/// A machine whose next instruction is a trap stops at once and unchanged:
/// with success where the vector is the halt vector, else with the error
/// that names the vector.
pub proof fn lemma_run_stops_at_trap(s: MachineState)
    requires
        opcode(fetched(s)) == OP_TRAP,
    ensures
        halts_within(s, 0),
        run_state(s, 0) == s,
        bit_field(fetched(s), 0, 8) == TRAP_HALT ==> run_result(s, 0) == Ok::<
            (),
            InstructionError,
        >(()),
        bit_field(fetched(s), 0, 8) != TRAP_HALT ==> run_result(s, 0) == Err::<
            (),
            InstructionError,
        >(InstructionError::UnsupportedTrap(bit_field(fetched(s), 0, 8))),
{
    lemma_trap_halts_or_fails(fetched(s), s);
}

/// How a run with a limit on its steps ended.
#[derive(Debug, Clone, Copy, PartialEq, Eq)]
pub enum RunStatus {
    /// The machine halted.
    Halted,
    /// An instruction failed.
    Failed(InstructionError),
    /// The machine came to this instruction word, which cannot be executed.
    /// The word was not executed.
    Malformed(u16),
    /// The machine was still going when the steps ran out.
    OutOfSteps,
}

/// How a run of at most `limit` steps from `s` ends.
pub open spec fn bounded_run_status(s: MachineState, limit: nat) -> RunStatus
    decreases limit,
{
    if limit == 0 {
        RunStatus::OutOfSteps
    } else if !instruction_well_formed(fetched(s)) {
        RunStatus::Malformed(fetched(s))
    } else {
        match step_result(s) {
            Err(e) => RunStatus::Failed(e),
            Ok(false) => RunStatus::Halted,
            Ok(true) => bounded_run_status(step_state(s), (limit - 1) as nat),
        }
    }
}

/// The state in which a run of at most `limit` steps from `s` ends.
pub open spec fn bounded_run_state(s: MachineState, limit: nat) -> MachineState
    decreases limit,
{
    if limit == 0 || !instruction_well_formed(fetched(s)) {
        s
    } else if step_result(s) != Ok::<bool, InstructionError>(true) {
        step_state(s)
    } else {
        bounded_run_state(step_state(s), (limit - 1) as nat)
    }
}

/// What a run with a limit reports where the run without one would report
/// `result`.
pub open spec fn status_of(result: Result<(), InstructionError>) -> RunStatus {
    match result {
        Ok(_) => RunStatus::Halted,
        Err(e) => RunStatus::Failed(e),
    }
}

/// With a limit that is large enough, a run with a limit ends where the run
/// without one ends, and reports the same.
pub proof fn lemma_bounded_run_agrees(s: MachineState, fuel: nat, limit: nat)
    requires
        halts_within(s, fuel),
        limit > fuel,
    ensures
        bounded_run_state(s, limit) == run_state(s, fuel),
        bounded_run_status(s, limit) == status_of(run_result(s, fuel)),
    decreases fuel,
{
    if step_result(s) == Ok::<bool, InstructionError>(true) {
        lemma_bounded_run_agrees(step_state(s), (fuel - 1) as nat, (limit - 1) as nat);
    }
}

/// A machine with 8 registers and 65536 words of memory.
#[derive(Debug)]
pub struct VirtualMachine {
    pc: u16,
    memory: [i16; 65536],
    registers: [i16; 8],
    condition_register: u16,
}

impl View for VirtualMachine {
    type V = MachineState;

    closed spec fn view(&self) -> MachineState {
        MachineState {
            pc: self.pc,
            memory: self.memory@,
            registers: self.registers@,
            condition_register: self.condition_register,
        }
    }
}

impl Default for VirtualMachine {
    /// A machine with every register and every word of memory zero, the
    /// program counter at address 0 and register 0 as condition source.
    fn default() -> (vm: Self)
        ensures
            vm@ == MachineState::initial(),
            vm@.wf(),
    {
        let vm = Self { pc: 0, memory: [0i16; 65536], registers: [0i16; 8], condition_register: 0 };
        assert(vm@.memory =~= MachineState::initial().memory);
        assert(vm@.registers =~= MachineState::initial().registers);
        vm
    }
}

impl VirtualMachine {
    #[verifier::type_invariant]
    spec fn condition_in_range(self) -> bool {
        self.condition_register < 8
    }

    /// Sets the program counter.
    pub fn set_pc(&mut self, addr: u16)
        ensures
            final(self)@ == old(self)@.with_pc(addr),
            old(self)@.wf(),
            final(self)@.wf(),
    {
        proof {
            use_type_invariant(&*self);
        }
        self.pc = addr;
    }

    /// The program counter.
    pub fn get_pc(&self) -> (addr: u16)
        ensures
            addr == self@.pc,
            self@.wf(),
    {
        proof {
            use_type_invariant(self);
        }
        self.pc
    }

    /// Moves the program counter forward by `dist`, wrapping round at the
    /// end of the address space.
    pub fn move_pc(&mut self, dist: u16)
        ensures
            final(self)@ == old(self)@.with_pc_moved(dist),
            old(self)@.wf(),
            final(self)@.wf(),
    {
        proof {
            use_type_invariant(&*self);
        }
        self.pc = self.pc.wrapping_add(dist);
    }

    /// Stores `value` at `addr`.
    pub fn set_memory(&mut self, addr: u16, value: i16)
        ensures
            final(self)@ == old(self)@.with_memory(addr, value),
            old(self)@.wf(),
            final(self)@.wf(),
    {
        proof {
            use_type_invariant(&*self);
        }
        self.memory[addr as usize] = value;
    }

    /// The word at `addr`.
    pub fn get_memory(&self, addr: u16) -> (value: i16)
        ensures
            value == self@.memory[addr as int],
            self@.wf(),
    {
        proof {
            use_type_invariant(self);
        }
        self.memory[addr as usize]
    }

    /// Writes `val` to register `loc` and makes that register the condition
    /// source.
    pub fn set_register(&mut self, loc: u16, val: i16)
        requires
            loc < REGISTER_COUNT,
        ensures
            final(self)@ == old(self)@.with_register(loc, val),
            old(self)@.wf(),
            final(self)@.wf(),
    {
        proof {
            use_type_invariant(&*self);
        }
        self.condition_register = loc;
        self.registers[loc as usize] = val;
    }

    /// The content of register `loc`.
    pub fn get_register(&self, loc: u16) -> (val: i16)
        requires
            loc < REGISTER_COUNT,
        ensures
            val == self@.registers[loc as int],
            self@.wf(),
    {
        proof {
            use_type_invariant(self);
        }
        self.registers[loc as usize]
    }

    /// Index of the register that was written last, or 0 if none was.
    pub fn get_condition_register(&self) -> (loc: u16)
        ensures
            loc == self@.condition_register,
            loc < REGISTER_COUNT,
            self@.wf(),
    {
        proof {
            use_type_invariant(self);
        }
        self.condition_register
    }

    /// The instruction word at the program counter.
    pub fn fetch(&self) -> (instr: u16)
        ensures
            instr == fetched(self@),
            self@.wf(),
    {
        let value: i16 = self.get_memory(self.pc);
        if value < 0 {
            (value as i32 + 65536) as u16
        } else {
            value as u16
        }
    }

    /// Carries out one cycle: fetches the word at the program counter,
    /// executes it and, unless the machine has halted, advances the program
    /// counter by one. Returns whether the machine goes on.
    pub fn step(&mut self) -> (result: Result<bool, InstructionError>)
        requires
            instruction_well_formed(fetched(old(self)@)),
        ensures
            result == step_result(old(self)@),
            final(self)@ == step_state(old(self)@),
            old(self)@.wf(),
            final(self)@.wf(),
    {
        proof {
            use_type_invariant(&*self);
        }
        let instr: u16 = self.fetch();
        let outcome = handle_instruction(instr, self);
        proof {
            use_type_invariant(&*self);
        }
        match outcome {
            Ok(true) => {
                if self.pc >= TOP_ADDRESS {
                    Ok(false)
                } else {
                    self.pc = self.pc + 1;
                    Ok(true)
                }
            },
            other => other,
        }
    }

    /// Steps the machine until it halts or an instruction fails.
    pub fn run(&mut self) -> (result: Result<(), InstructionError>)
        requires
            exists|fuel: nat| halts_within(old(self)@, fuel),
        ensures
            forall|fuel: nat| #[trigger]
                halts_within(old(self)@, fuel) ==> final(self)@ == run_state(old(self)@, fuel)
                    && result == run_result(old(self)@, fuel),
            old(self)@.wf(),
            final(self)@.wf(),
    {
        let ghost start = self@;
        let ghost bound: nat = choose|fuel: nat| halts_within(self@, fuel);
        let ghost mut fuel: nat = bound;
        proof {
            use_type_invariant(&*self);
        }
        loop
            invariant
                start == old(self)@,
                start.wf(),
                halts_within(start, bound),
                halts_within(self@, fuel),
                run_state(start, bound) == run_state(self@, fuel),
                run_result(start, bound) == run_result(self@, fuel),
            decreases fuel,
        {
            let outcome = self.step();
            proof {
                assert forall|other: nat| #[trigger] halts_within(start, other) implies run_state(
                    start,
                    other,
                ) == run_state(start, bound) && run_result(start, other) == run_result(
                    start,
                    bound,
                ) by {
                    lemma_run_ignores_fuel(start, other, bound);
                }
            }
            match outcome {
                Err(e) => {
                    return Err(e);
                },
                Ok(false) => {
                    return Ok(());
                },
                Ok(true) => {
                    proof {
                        fuel = (fuel - 1) as nat;
                    }
                },
            }
        }
    }

    /// Steps the machine until it halts, an instruction fails, the next
    /// instruction word is malformed, or `limit` steps have been taken.
    pub fn run_bounded(&mut self, limit: u64) -> (status: RunStatus)
        ensures
            status == bounded_run_status(old(self)@, limit as nat),
            final(self)@ == bounded_run_state(old(self)@, limit as nat),
            old(self)@.wf(),
            final(self)@.wf(),
    {
        let mut left: u64 = limit;
        proof {
            use_type_invariant(&*self);
        }
        loop
            invariant
                old(self)@.wf(),
                self@.wf(),
                bounded_run_status(old(self)@, limit as nat) == bounded_run_status(
                    self@,
                    left as nat,
                ),
                bounded_run_state(old(self)@, limit as nat) == bounded_run_state(
                    self@,
                    left as nat,
                ),
            decreases left,
        {
            if left == 0 {
                return RunStatus::OutOfSteps;
            }
            let instr: u16 = self.fetch();
            if !is_well_formed(instr) {
                return RunStatus::Malformed(instr);
            }
            match self.step() {
                Err(e) => {
                    return RunStatus::Failed(e);
                },
                Ok(false) => {
                    return RunStatus::Halted;
                },
                Ok(true) => {
                    left = left - 1;
                },
            }
        }
    }
}

} // verus!
