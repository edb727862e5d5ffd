use mmachine::assembler::assemble;
use mmachine::bits::MValue;
use mmachine::cpu_component::Fault;
use mmachine::machine::{load_ram, run_input, run_output, Emission, Machine, StepOutcome};

fn image(words: &[u16]) -> Vec<u8> {
    let mut bytes = Vec::new();
    for w in words {
        bytes.push((w >> 8) as u8);
        bytes.push((w & 0xff) as u8);
    }
    bytes
}

fn boot(words: &[u16]) -> Machine {
    Machine::new(load_ram(&image(words)))
}

fn boot_source(source: &str) -> Machine {
    Machine::new(load_ram(&assemble(source.as_bytes()).unwrap()))
}

fn register(machine: &Machine, code: usize) -> u32 {
    machine.registers[code].value.as_u32()
}

#[test]
fn halt_after_first_fetch() {
    let mut machine = boot(&[0x0000]);
    let report = machine.run(&None, 1000);
    assert_eq!(report.outcome, StepOutcome::Halted);
    // two microsteps of fetch, then the one microstep of HLT
    assert_eq!(report.microsteps, 3);
    assert_eq!(register(&machine, 5), 1);
    assert!(report.outputs.is_empty());
}

#[test]
fn machine_starts_with_stack_pointer_at_top() {
    let machine = boot(&[]);
    for code in 0..8 {
        let expected = if code == 6 { 65535 } else { 0 };
        assert_eq!(register(&machine, code), expected);
    }
    assert_eq!(machine.control.microcode_counter, 0);
    assert_eq!(machine.control.current_microcodes, vec![vec![32, 1], vec![3, 39, 33]]);
    assert!(!machine.bus.is_pending());
}

#[test]
fn load_constant_and_halt() {
    let bytes = assemble(b"ldcnst a 42\nhlt\n").unwrap();
    assert_eq!(bytes, image(&[0x6000, 0x002A, 0x0000]));
    let mut machine = Machine::new(load_ram(&bytes));
    let report = machine.run(&None, 1000);
    assert_eq!(report.outcome, StepOutcome::Halted);
    assert_eq!(register(&machine, 0), 42);
    assert_eq!(register(&machine, 5), 3);
}

#[test]
fn addition_goes_to_destination() {
    let mut machine = boot_source("ldcnst a 5\nldcnst b 7\nadd a b\nhlt\n");
    let report = machine.run(&None, 1000);
    assert_eq!(report.outcome, StepOutcome::Halted);
    assert_eq!(register(&machine, 1), 12);
    assert_eq!(register(&machine, 0), 5);
    assert_eq!(machine.alu.reg_a.as_u32(), 5);
    assert_eq!(machine.alu.reg_b.as_u32(), 12);
}

#[test]
fn subtraction_multiplication_division() {
    let mut machine = boot_source("ldcnst a 20\nldcnst b 6\nsub a c\nmul a d\ndiv a e\nhlt\n");
    let report = machine.run(&None, 1000);
    assert_eq!(report.outcome, StepOutcome::Halted);
    assert_eq!(register(&machine, 2), 14);
    assert_eq!(register(&machine, 3), 120);
    assert_eq!(register(&machine, 4), 3);
}

#[test]
fn subtraction_wraps_below_zero() {
    let mut machine = boot_source("ldcnst a 3\nldcnst b 5\nsub a c\nhlt\n");
    machine.run(&None, 1000);
    assert_eq!(register(&machine, 2), 65534);
}

#[test]
fn memory_store_then_load() {
    let mut machine = boot_source(
        "ldcnst a 99\nldcnst b 100\nstore a b    ; memory[100] <- A\nldcnst c 100\nload c d\nhlt\n",
    );
    let report = machine.run(&None, 1000);
    assert_eq!(report.outcome, StepOutcome::Halted);
    assert_eq!(machine.ram.memory[100].as_u32(), 99);
    assert_eq!(register(&machine, 3), 99);
}

#[test]
fn load_takes_address_from_first_operand() {
    let mut machine = boot_source(
        "ldcnst a 99\nldcnst b 100\nstore a b\nldcnst c 100\nload d c\nhlt\n",
    );
    let report = machine.run(&None, 1000);
    assert_eq!(report.outcome, StepOutcome::Halted);
    assert_eq!(machine.ram.memory[100].as_u32(), 99);
    // D is the source: C receives the word at address D, which is the
    // first word of the program.
    assert_eq!(register(&machine, 3), 0);
    assert_eq!(register(&machine, 2), 0x6000);
}

#[test]
fn conditional_jump_taken() {
    let mut machine = boot_source(
        "ldcnst a 3\nldcnst b 3\nmov a b      ; forces ALU flags update: A==B\nldcnst c end\nje c\nldcnst d 1\nend: hlt\n",
    );
    let report = machine.run(&None, 1000);
    assert_eq!(report.outcome, StepOutcome::Halted);
    assert_eq!(register(&machine, 3), 0);
    assert_eq!(register(&machine, 2), 10);
}

#[test]
fn conditional_jump_not_taken() {
    let mut machine = boot_source(
        "ldcnst a 3\nldcnst b 4\nldcnst c end\nje c\nldcnst d 1\nend:\nhlt\n",
    );
    let report = machine.run(&None, 1000);
    assert_eq!(report.outcome, StepOutcome::Halted);
    assert_eq!(register(&machine, 3), 1);
}

#[test]
fn greater_and_less_jumps() {
    // A = 9, B = 4: greater is set, equal is not.
    let source = |jump: &str| {
        format!("ldcnst a 9\nldcnst b 4\nldcnst c end\n{} c\nldcnst d 1\nend:\nhlt\n", jump)
    };
    let skipped = |jump: &str| {
        let mut machine = boot_source(&source(jump));
        assert_eq!(machine.run(&None, 1000).outcome, StepOutcome::Halted);
        register(&machine, 3) == 0
    };
    assert!(skipped("jg"));
    assert!(skipped("jge"));
    assert!(skipped("jne"));
    assert!(!skipped("je"));
    assert!(!skipped("jl"));
    assert!(!skipped("jle"));
}

#[test]
fn character_output() {
    let mut machine = boot_source("ldcnst a 1        ; port 1\nldcnst b 65       ; 'A'\nout a b\nhlt\n");
    let report = machine.run(&None, 1000);
    assert_eq!(report.outcome, StepOutcome::Halted);
    let mut printed = String::new();
    for (port, value) in &report.outputs {
        match run_output(port, value) {
            Emission::Character(byte) => printed.push(byte as char),
            Emission::Log(port, value) => printed.push_str(&format!("OUTPUT: port {} value {}\n", port, value)),
        }
    }
    assert_eq!(printed, "A");
}

#[test]
fn output_on_other_port_is_logged() {
    let mut machine = boot_source("ldcnst a 7\nldcnst b 321\nout a b\nhlt\n");
    let report = machine.run(&None, 1000);
    assert_eq!(report.outputs.len(), 1);
    let (port, value) = &report.outputs[0];
    assert_eq!(run_output(port, value), Emission::Log(7, 321));
}

#[test]
fn output_character_keeps_low_byte() {
    let port = MValue::from_u32(1);
    let value = MValue::from_u32(0x1241);
    assert_eq!(run_output(&port, &value), Emission::Character(0x41));
}

#[test]
fn input_channel_is_silent() {
    assert!(run_input(&MValue::from_u32(1)).is_none());
}

#[test]
fn input_without_data_stalls() {
    let mut machine = boot_source("ldcnst a 1\nin a b\nhlt\n");
    let report = machine.run(&None, 1000);
    assert_eq!(report.outcome, StepOutcome::Stalled);
}

#[test]
fn input_with_data_reaches_register() {
    let mut machine = boot_source("ldcnst a 3\nin a b\nhlt\n");
    let answer = Some(MValue::from_u32(77));
    let mut asked = Vec::new();
    let mut outcome = StepOutcome::Advanced;
    let mut steps = 0;
    while outcome == StepOutcome::Advanced && steps < 100 {
        let report = machine.microstep(&answer);
        if let Some(port) = report.asked {
            asked.push(port.as_u32());
        }
        outcome = report.outcome;
        steps += 1;
    }
    assert_eq!(outcome, StepOutcome::Halted);
    assert_eq!(asked, vec![3]);
    assert_eq!(register(&machine, 1), 77);

    let mut machine = boot_source("ldcnst a 3\nin a b\nhlt\n");
    let report = machine.run(&answer, 100);
    assert_eq!(report.outcome, StepOutcome::Halted);
    assert_eq!(register(&machine, 1), 77);
}

#[test]
fn push_and_pop() {
    let mut machine = boot_source("ldcnst a 1234\npush a\npop b\nhlt\n");
    let report = machine.run(&None, 1000);
    assert_eq!(report.outcome, StepOutcome::Halted);
    assert_eq!(machine.ram.memory[65535].as_u32(), 1234);
    assert_eq!(register(&machine, 1), 1234);
    assert_eq!(register(&machine, 6), 65535);
}

#[test]
fn call_stores_return_address() {
    let mut machine = boot_source("ldcnst a target\ncall a\nhlt\ntarget:\nldcnst d 5\nhlt\n");
    let report = machine.run(&None, 1000);
    assert_eq!(report.outcome, StepOutcome::Halted);
    assert_eq!(register(&machine, 3), 5);
    assert_eq!(machine.ram.memory[65535].as_u32(), 3);
    assert_eq!(register(&machine, 6), 65534);
}

#[test]
fn increment_and_decrement() {
    let mut machine = boot_source("inc c\ninc c\ndec d\nhlt\n");
    machine.run(&None, 1000);
    assert_eq!(register(&machine, 2), 2);
    assert_eq!(register(&machine, 3), 65535);
}

#[test]
fn move_onto_itself_stalls() {
    let mut machine = boot_source("mov a a\nhlt\n");
    let report = machine.run(&None, 1000);
    assert_eq!(report.outcome, StepOutcome::Stalled);
    assert_eq!(report.microsteps, 3);
}

#[test]
fn division_by_zero_faults() {
    let mut machine = boot_source("ldcnst a 5\ndiv a c\nhlt\n");
    let report = machine.run(&None, 1000);
    assert_eq!(report.outcome, StepOutcome::Faulted(Fault::DivisionByZero));
}

#[test]
fn reserved_opcodes_fault() {
    let mut machine = boot(&[18 << 10]);
    assert_eq!(machine.run(&None, 1000).outcome, StepOutcome::Faulted(Fault::ReservedOpcode));
    let mut machine = boot(&[19 << 10]);
    assert_eq!(machine.run(&None, 1000).outcome, StepOutcome::Faulted(Fault::ReservedOpcode));
}

#[test]
fn undefined_opcodes_fault() {
    let mut machine = boot(&[17 << 10]);
    assert_eq!(machine.run(&None, 1000).outcome, StepOutcome::Faulted(Fault::UnknownOpcode));
    let mut machine = boot(&[63 << 10]);
    assert_eq!(machine.run(&None, 1000).outcome, StepOutcome::Faulted(Fault::UnknownOpcode));
}

#[test]
fn register_code_above_seven_faults() {
    // inc with destination field 8
    let mut machine = boot(&[(20 << 10) | 8]);
    assert_eq!(machine.run(&None, 1000).outcome, StepOutcome::Faulted(Fault::InvalidLine));
}

#[test]
fn run_stops_at_limit() {
    // jump to self for ever: ldcnst c 2 ; (2:) mov c pc
    let mut machine = boot_source("ldcnst c 2\nmov c pc\n");
    let report = machine.run(&None, 50);
    assert_eq!(report.outcome, StepOutcome::Advanced);
    assert_eq!(report.microsteps, 50);
    let report = machine.run(&None, 0);
    assert_eq!(report.outcome, StepOutcome::Advanced);
    assert_eq!(report.microsteps, 0);
}

#[test]
fn single_microsteps_follow_the_fetch() {
    let mut machine = boot(&[0x6000, 0x002A, 0x0000]);
    let silent = None;
    let report = machine.microstep(&silent);
    assert_eq!(report.outcome, StepOutcome::Advanced);
    assert_eq!(machine.ram.memory_address_register.as_u32(), 0);
    assert_eq!(machine.ram.ram_register.as_u32(), 0x6000);
    assert_eq!(machine.control.microcode_counter, 1);
    assert!(!machine.bus.is_pending());
    let report = machine.microstep(&silent);
    assert_eq!(report.outcome, StepOutcome::Advanced);
    assert_eq!(register(&machine, 7), 0x6000);
    assert_eq!(register(&machine, 5), 1);
    assert_eq!(machine.control.instruction_register.as_u32(), 0x6000);
    assert_eq!(machine.control.microcode_counter, 2);
}

#[test]
fn image_is_loaded_big_endian_and_padded() {
    let memory = load_ram(&[0x12, 0x34, 0xab, 0xcd, 0x77]);
    assert_eq!(memory.len(), 65536);
    assert_eq!(memory[0].as_u32(), 0x1234);
    assert_eq!(memory[1].as_u32(), 0xabcd);
    assert_eq!(memory[2].as_u32(), 0);
    assert_eq!(memory[65535].as_u32(), 0);
}

#[test]
fn image_longer_than_memory_is_cut() {
    let mut bytes = vec![0u8; 2 * 65536 + 2];
    bytes[2 * 65535] = 0x01;
    bytes[2 * 65535 + 1] = 0x02;
    bytes[2 * 65536] = 0xff;
    let memory = load_ram(&bytes);
    assert_eq!(memory.len(), 65536);
    assert_eq!(memory[65535].as_u32(), 0x0102);
}
