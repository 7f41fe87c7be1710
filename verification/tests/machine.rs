use lc3_vm::image::{load_image, ImageError};
use lc3_vm::instructions::InstructionError;
use lc3_vm::vm::{RunStatus, VirtualMachine};

const ADD_R0_R0_1: u16 = 0b0001_000_000_1_00001;
const ADD_R1_R0_R0: u16 = 0b0001_001_000_0_00_000;
const NOT_R2_R1: u16 = 0b1001_010_001_111111;
const HALT: u16 = 0b1111_0000_0010_0101;

fn image_of(origin: u16, words: &[u16]) -> Vec<u8> {
    let mut bytes = Vec::new();
    bytes.extend_from_slice(&origin.to_be_bytes());
    for word in words {
        bytes.extend_from_slice(&word.to_be_bytes());
    }
    bytes
}

fn registers_of(vm: &VirtualMachine) -> Vec<i16> {
    (0..8u16).map(|r| vm.get_register(r)).collect()
}

#[test]
fn fresh_machine_is_all_zero() {
    let vm = VirtualMachine::default();
    assert_eq!(vm.get_pc(), 0);
    assert_eq!(vm.get_condition_register(), 0);
    assert_eq!(registers_of(&vm), vec![0; 8]);
    assert_eq!(vm.get_memory(0), 0);
    assert_eq!(vm.get_memory(0x3000), 0);
    assert_eq!(vm.get_memory(0xFFFF), 0);
}

#[test]
fn memory_covers_the_whole_address_space() {
    let mut vm = VirtualMachine::default();
    vm.set_memory(0xFFFF, -7);
    vm.set_memory(0, 7);
    assert_eq!(vm.get_memory(0xFFFF), -7);
    assert_eq!(vm.get_memory(0), 7);
    assert_eq!(vm.get_memory(0xFFFE), 0);
}

#[test]
fn register_write_sets_condition_source() {
    let mut vm = VirtualMachine::default();
    vm.set_register(7, -3);
    assert_eq!(vm.get_register(7), -3);
    assert_eq!(vm.get_condition_register(), 7);
    vm.set_register(0, 3);
    assert_eq!(vm.get_condition_register(), 0);
    assert_eq!(vm.get_register(7), -3);
}

#[test]
fn move_pc_wraps() {
    let mut vm = VirtualMachine::default();
    vm.set_pc(0xFFF0);
    vm.move_pc(0x20);
    assert_eq!(vm.get_pc(), 0x0010);
    vm.move_pc(0);
    assert_eq!(vm.get_pc(), 0x0010);
    vm.move_pc(0xFFFF);
    assert_eq!(vm.get_pc(), 0x000F);
}

#[test]
fn step_advances_by_one() {
    let mut vm = VirtualMachine::default();
    vm.set_pc(0x3000);
    vm.set_memory(0x3000, ADD_R0_R0_1 as i16);
    assert_eq!(vm.step(), Ok(true));
    assert_eq!(vm.get_pc(), 0x3001);
    assert_eq!(vm.get_register(0), 1);
}

#[test]
fn step_through_taken_branch_adds_offset_and_one() {
    let mut vm = VirtualMachine::default();
    vm.set_pc(0x3000);
    vm.set_register(2, -5);
    vm.set_memory(0x3000, 0b0000_100_000000011);
    assert_eq!(vm.step(), Ok(true));
    assert_eq!(vm.get_pc(), 0x3004);
    vm.set_pc(0x3000);
    vm.set_memory(0x3000, 0b0000_010_000000011);
    assert_eq!(vm.step(), Ok(true));
    assert_eq!(vm.get_pc(), 0x3001);
}

#[test]
fn step_on_halt_keeps_pc() {
    let mut vm = VirtualMachine::default();
    vm.set_pc(0x3000);
    vm.set_memory(0x3000, HALT as i16);
    assert_eq!(vm.step(), Ok(false));
    assert_eq!(vm.get_pc(), 0x3000);
}

#[test]
fn step_reads_negative_words_as_their_bits() {
    let mut vm = VirtualMachine::default();
    vm.set_register(1, 0x0F0F);
    vm.set_memory(0, NOT_R2_R1 as i16);
    assert!(vm.get_memory(0) < 0);
    assert_eq!(vm.step(), Ok(true));
    assert_eq!(vm.get_register(2) as u16, 0xF0F0);
    assert_eq!(vm.get_pc(), 1);
}

#[test]
fn step_stops_at_top_of_address_space() {
    let mut vm = VirtualMachine::default();
    vm.set_pc(0xFFFD);
    assert_eq!(vm.step(), Ok(true));
    assert_eq!(vm.get_pc(), 0xFFFE);
    assert_eq!(vm.step(), Ok(false));
    assert_eq!(vm.get_pc(), 0xFFFE);
    vm.set_pc(0xFFFF);
    assert_eq!(vm.step(), Ok(false));
    assert_eq!(vm.get_pc(), 0xFFFF);
}

#[test]
fn run_halts_on_trap_halt() {
    let mut vm = VirtualMachine::default();
    vm.set_pc(0x3000);
    vm.set_memory(0x3000, ADD_R0_R0_1 as i16);
    vm.set_memory(0x3001, ADD_R0_R0_1 as i16);
    vm.set_memory(0x3002, HALT as i16);
    vm.set_memory(0x3003, ADD_R0_R0_1 as i16);
    assert_eq!(vm.run(), Ok(()));
    assert_eq!(vm.get_register(0), 2);
    assert_eq!(vm.get_pc(), 0x3002);
}

#[test]
fn run_reports_unsupported_trap() {
    let mut vm = VirtualMachine::default();
    vm.set_pc(0x3000);
    vm.set_memory(0x3000, ADD_R0_R0_1 as i16);
    vm.set_memory(0x3001, 0b1111_0000_0010_0011u16 as i16);
    vm.set_memory(0x3002, ADD_R0_R0_1 as i16);
    assert_eq!(vm.run(), Err(InstructionError::UnsupportedTrap(0x23)));
    assert_eq!(vm.get_register(0), 1);
    assert_eq!(vm.get_pc(), 0x3001);
}

#[test]
fn run_of_empty_memory_ends_at_the_top() {
    let mut vm = VirtualMachine::default();
    assert_eq!(vm.run(), Ok(()));
    assert_eq!(vm.get_pc(), 0xFFFE);
    assert_eq!(registers_of(&vm), vec![0; 8]);
}

#[test]
fn load_sets_pc_and_memory() {
    let mut vm = VirtualMachine::default();
    vm.set_memory(0x2FFF, 5);
    vm.set_memory(0x3002, 6);
    vm.set_register(3, 9);
    let bytes: Vec<u8> = vec![0x30, 0x00, 0x12, 0x34, 0xFF, 0xFE];
    assert_eq!(load_image(&mut vm, &bytes), Ok(()));
    assert_eq!(vm.get_pc(), 0x3000);
    assert_eq!(vm.get_memory(0x3000), 0x1234);
    assert_eq!(vm.get_memory(0x3001), -2);
    assert_eq!(vm.get_memory(0x2FFF), 5);
    assert_eq!(vm.get_memory(0x3002), 6);
    assert_eq!(vm.get_register(3), 9);
    assert_eq!(vm.get_condition_register(), 3);
}

#[test]
fn load_ignores_a_trailing_byte() {
    let mut vm = VirtualMachine::default();
    let bytes: Vec<u8> = vec![0x00, 0x10, 0x00, 0x01, 0x7F];
    assert_eq!(load_image(&mut vm, &bytes), Ok(()));
    assert_eq!(vm.get_pc(), 0x0010);
    assert_eq!(vm.get_memory(0x0010), 1);
    assert_eq!(vm.get_memory(0x0011), 0);
}

#[test]
fn load_of_origin_alone_sets_pc() {
    let mut vm = VirtualMachine::default();
    let bytes: Vec<u8> = vec![0xAB, 0xCD];
    assert_eq!(load_image(&mut vm, &bytes), Ok(()));
    assert_eq!(vm.get_pc(), 0xABCD);
    assert_eq!(vm.get_memory(0xABCD), 0);
}

#[test]
fn load_rejects_short_image() {
    let mut vm = VirtualMachine::default();
    vm.set_pc(77);
    let none: Vec<u8> = Vec::new();
    assert_eq!(load_image(&mut vm, &none), Err(ImageError::MissingOrigin));
    let one: Vec<u8> = vec![0x30];
    assert_eq!(load_image(&mut vm, &one), Err(ImageError::MissingOrigin));
    assert_eq!(vm.get_pc(), 77);
}

#[test]
fn load_rejects_image_beyond_memory() {
    let mut vm = VirtualMachine::default();
    vm.set_pc(77);
    let bytes = image_of(0xFFFF, &[1, 2]);
    assert_eq!(load_image(&mut vm, &bytes), Err(ImageError::TooLarge));
    assert_eq!(vm.get_pc(), 77);
    assert_eq!(vm.get_memory(0xFFFF), 0);
    assert_eq!(vm.get_memory(0), 0);
}

#[test]
fn load_fills_up_to_the_last_address() {
    let mut vm = VirtualMachine::default();
    let bytes = image_of(0xFFFE, &[0x0102, 0x8000]);
    assert_eq!(load_image(&mut vm, &bytes), Ok(()));
    assert_eq!(vm.get_memory(0xFFFE), 0x0102);
    assert_eq!(vm.get_memory(0xFFFF), -32768);
}

#[test]
fn run_equals_stepping() {
    let program: [u16; 6] = [
        ADD_R0_R0_1,
        ADD_R1_R0_R0,
        0b0000_001_000000001,
        HALT,
        NOT_R2_R1,
        HALT,
    ];
    let bytes = image_of(0x3000, &program);

    let mut ran = VirtualMachine::default();
    assert_eq!(load_image(&mut ran, &bytes), Ok(()));
    assert_eq!(ran.run(), Ok(()));

    let mut stepped = VirtualMachine::default();
    assert_eq!(load_image(&mut stepped, &bytes), Ok(()));
    let mut steps = 0;
    while stepped.step() == Ok(true) {
        steps += 1;
    }

    assert_eq!(steps, 4);
    assert_eq!(registers_of(&ran), vec![1, 2, -3, 0, 0, 0, 0, 0]);
    assert_eq!(registers_of(&ran), registers_of(&stepped));
    assert_eq!(ran.get_pc(), 0x3005);
    assert_eq!(ran.get_pc(), stepped.get_pc());
    assert_eq!(ran.get_condition_register(), stepped.get_condition_register());
    for addr in 0..=0xFFFFu16 {
        assert_eq!(ran.get_memory(addr), stepped.get_memory(addr));
    }
}

#[test]
fn fetch_reads_the_word_at_pc() {
    let mut vm = VirtualMachine::default();
    vm.set_pc(0x1234);
    vm.set_memory(0x1234, -1);
    assert_eq!(vm.fetch(), 0xFFFF);
    vm.set_memory(0x1234, -32768);
    assert_eq!(vm.fetch(), 0x8000);
    vm.set_memory(0x1234, 0x1234);
    assert_eq!(vm.fetch(), 0x1234);
}

#[test]
fn bounded_run_without_steps_does_nothing() {
    let mut vm = VirtualMachine::default();
    vm.set_memory(0, ADD_R0_R0_1 as i16);
    assert_eq!(vm.run_bounded(0), RunStatus::OutOfSteps);
    assert_eq!(vm.get_pc(), 0);
    assert_eq!(vm.get_register(0), 0);
}

#[test]
fn bounded_run_counts_steps() {
    let mut vm = VirtualMachine::default();
    vm.set_memory(0, ADD_R0_R0_1 as i16);
    vm.set_memory(1, ADD_R0_R0_1 as i16);
    vm.set_memory(2, ADD_R0_R0_1 as i16);
    vm.set_memory(3, HALT as i16);
    assert_eq!(vm.run_bounded(2), RunStatus::OutOfSteps);
    assert_eq!(vm.get_pc(), 2);
    assert_eq!(vm.get_register(0), 2);
    assert_eq!(vm.run_bounded(1), RunStatus::OutOfSteps);
    assert_eq!(vm.get_pc(), 3);
    assert_eq!(vm.run_bounded(1), RunStatus::Halted);
    assert_eq!(vm.get_pc(), 3);
    assert_eq!(vm.get_register(0), 3);
}

#[test]
fn bounded_run_reports_failure() {
    let mut vm = VirtualMachine::default();
    vm.set_memory(0, ADD_R0_R0_1 as i16);
    vm.set_memory(1, 0b1111_0000_0000_0001u16 as i16);
    assert_eq!(
        vm.run_bounded(10),
        RunStatus::Failed(InstructionError::UnsupportedTrap(1))
    );
    assert_eq!(vm.get_pc(), 1);
    assert_eq!(vm.get_register(0), 1);
}

#[test]
fn bounded_run_stops_before_malformed_word() {
    let bad_not: u16 = 0b1001_010_000_111011;
    let mut vm = VirtualMachine::default();
    vm.set_memory(0, ADD_R0_R0_1 as i16);
    vm.set_memory(1, bad_not as i16);
    assert_eq!(vm.run_bounded(10), RunStatus::Malformed(bad_not));
    assert_eq!(vm.get_pc(), 1);
    assert_eq!(vm.get_register(0), 1);
    assert_eq!(vm.get_register(2), 0);
    assert_eq!(vm.get_condition_register(), 0);
}

#[test]
fn bounded_run_ends_a_program_that_never_halts() {
    let mut vm = VirtualMachine::default();
    vm.set_pc(0xFFF0);
    vm.set_memory(0xFFF0, 0b0000_000_000100000);
    assert_eq!(vm.run_bounded(200_000), RunStatus::OutOfSteps);
    assert_eq!(vm.run_bounded(1), RunStatus::OutOfSteps);
}

#[test]
fn bounded_run_agrees_with_run() {
    let program: [u16; 4] = [ADD_R0_R0_1, ADD_R1_R0_R0, NOT_R2_R1, HALT];
    let bytes = image_of(0x3000, &program);
    let mut ran = VirtualMachine::default();
    assert_eq!(load_image(&mut ran, &bytes), Ok(()));
    assert_eq!(ran.run(), Ok(()));
    let mut bounded = VirtualMachine::default();
    assert_eq!(load_image(&mut bounded, &bytes), Ok(()));
    assert_eq!(bounded.run_bounded(4), RunStatus::Halted);
    assert_eq!(registers_of(&ran), vec![1, 2, -3, 0, 0, 0, 0, 0]);
    assert_eq!(registers_of(&ran), registers_of(&bounded));
    assert_eq!(ran.get_pc(), bounded.get_pc());
}
