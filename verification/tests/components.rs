use mmachine::bits::MValue;
use mmachine::bus::Bus;
use mmachine::control_cables::{ControlCables, CONTROL_CABLES_SIZE, REGISTERS_NUM};
use mmachine::cpu_component::{
    assert_lines, reg_dec, reg_in, reg_inc, reg_out, step_is_valid, AluComponent, AluStatus,
    ControlCable, ControlCablesExt, ControlComponent, Fault, RamComponent, RegisterComponent,
    RAM_SIZE,
};
use mmachine::decode::{cable_at, cable_name, decode_instruction, dump_cables, op_name};
use mmachine::microcodes::{
    create_fetch_microcodes, create_microcodes, decode, dest_field, opcode_field, source_field,
    DecodeError,
};

fn cables_with(lines: &[usize]) -> ControlCables {
    let mut cables = ControlCables::new();
    for line in lines {
        cables.set(*line, true);
    }
    cables
}

fn word(n: u32) -> MValue {
    MValue::from_u32(n)
}

fn flags(equal: bool, greater: bool) -> MValue {
    let mut w = word(0);
    w.set_bit(0, equal);
    w.set_bit(1, greater);
    w
}

#[test]
fn bus_carries_every_word_of_a_sequence() {
    let mut bus = Bus::new();
    let sent: Vec<u32> = vec![5, 0, 65535, 5, 1234, 42];
    let mut seen = Vec::new();
    for w in &sent {
        assert!(bus.write_from(&word(*w)));
        let mut got = word(9999);
        assert!(bus.read_into(&mut got));
        seen.push(got.as_u32());
    }
    assert_eq!(seen, sent);
    assert!(!bus.is_pending());
}

#[test]
fn bus_read_without_write_would_block() {
    let mut bus = Bus::new();
    let mut got = word(7);
    assert!(!bus.read_into(&mut got));
    assert_eq!(got.as_u32(), 7);
    assert!(bus.write_from(&word(3)));
    assert!(bus.is_pending());
    assert!(bus.read_into(&mut got));
    assert_eq!(got.as_u32(), 3);
    // a second read without a write in between
    let mut again = word(8);
    assert!(!bus.read_into(&mut again));
    assert_eq!(again.as_u32(), 8);
    assert!(!bus.is_pending());
}

#[test]
fn bus_second_write_would_block() {
    let mut bus = Bus::new();
    assert!(bus.write_from(&word(1)));
    assert!(!bus.write_from(&word(2)));
    let mut got = word(0);
    assert!(bus.read_into(&mut got));
    assert_eq!(got.as_u32(), 1);
    assert!(bus.write_from(&word(2)));
}

#[test]
fn control_lines_start_released_and_reset() {
    let mut cables = ControlCables::new();
    assert_eq!(CONTROL_CABLES_SIZE, 43);
    assert_eq!(REGISTERS_NUM, 8);
    for i in 0..CONTROL_CABLES_SIZE {
        assert!(!cables.get(i));
    }
    cables.set(0, true);
    cables.set(42, true);
    cables.store(true, ControlCable::RamOut);
    assert!(cables.get(0) && cables.get(3) && cables.get(42));
    assert!(cables.load(ControlCable::Halt));
    assert!(cables.load(ControlCable::RamOut));
    assert!(!cables.load(ControlCable::RamIn));
    cables.store(false, ControlCable::Halt);
    assert!(!cables.get(0));
    cables.reset();
    for i in 0..CONTROL_CABLES_SIZE {
        assert!(!cables.get(i));
    }
    cables.set(7, true);
    ControlCablesExt::reset(&mut cables);
    assert!(!cables.get(7));
}

#[test]
fn line_indices() {
    assert_eq!(ControlCable::Halt.index(), 0);
    assert_eq!(ControlCable::MemoryAddressIn.index(), 1);
    assert_eq!(ControlCable::RamIn.index(), 2);
    assert_eq!(ControlCable::RamOut.index(), 3);
    assert_eq!(ControlCable::MemoryIsIO.index(), 4);
    assert_eq!(ControlCable::AddMul.index(), 5);
    assert_eq!(ControlCable::SubDiv.index(), 6);
    assert_eq!(ControlCable::AluOut.index(), 7);
    assert_eq!(ControlCable::Interrupt.index(), 8);
    assert_eq!(ControlCable::Equal.index(), 9);
    assert_eq!(ControlCable::Greater.index(), 10);
    assert_eq!(ControlCable::RegBase.index(), 11);
    for r in 0..8 {
        assert_eq!(reg_in(r), 11 + 4 * r);
        assert_eq!(reg_out(r), 12 + 4 * r);
        assert_eq!(reg_inc(r), 13 + 4 * r);
        assert_eq!(reg_dec(r), 14 + 4 * r);
    }
    assert_eq!(reg_dec(7), 42);
    assert_eq!(reg_in(31), 135);
}

#[test]
fn fetch_microcode() {
    assert_eq!(create_fetch_microcodes(), vec![vec![32, 1], vec![3, 39, 33]]);
}

#[test]
fn instruction_fields() {
    let instruction = (22 << 10) | (3 << 5) | 9;
    assert_eq!(opcode_field(instruction), 22);
    assert_eq!(source_field(instruction), 3);
    assert_eq!(dest_field(instruction), 9);
    assert_eq!(opcode_field(0xffff), 63);
    assert_eq!(source_field(0xffff), 31);
    assert_eq!(dest_field(0xffff), 31);
    assert_eq!(opcode_field(0x1_0000 | (5 << 10)), 5);
}

#[test]
fn microcode_of_every_operation() {
    let fetch = create_fetch_microcodes();
    let with_fetch = |mut steps: Vec<Vec<usize>>| {
        steps.extend(fetch.clone());
        steps
    };
    let none = word(0);
    // source register 2 (C), destination register 3 (D)
    let word_of = |op: u32| (op << 10) | (2 << 5) | 3;
    let (s_out, d_in, d_out, d_inc, d_dec) = (reg_out(2), reg_in(3), reg_out(3), reg_inc(3), reg_dec(3));
    let (sp_out, sp_inc, sp_dec, pc_out, pc_in, pc_inc) = (36, 37, 38, 32, 31, 33);
    let expect = |op: u32, steps: Vec<Vec<usize>>| {
        assert_eq!(create_microcodes(word_of(op), &none), with_fetch(steps), "opcode {}", op);
    };
    expect(0, vec![vec![0]]);
    expect(1, vec![vec![s_out, d_in]]);
    expect(2, vec![vec![7, d_in]]);
    expect(3, vec![vec![6, 7, d_in]]);
    expect(4, vec![vec![5, 7, d_in]]);
    expect(5, vec![vec![5, 6, 7, d_in]]);
    expect(6, vec![vec![sp_out, 1], vec![pc_out, 2, sp_dec], vec![d_out, pc_in]]);
    expect(13, vec![vec![sp_out, 1], vec![s_out, 2, sp_dec]]);
    expect(14, vec![vec![sp_inc], vec![sp_out, 1], vec![d_in, 3]]);
    expect(15, vec![vec![4, s_out, 1], vec![4, d_out, 2]]);
    expect(16, vec![vec![4, s_out, 1], vec![4, d_in, 3]]);
    expect(20, vec![vec![d_inc]]);
    expect(21, vec![vec![d_dec]]);
    expect(22, vec![vec![s_out, 1], vec![d_in, 3]]);
    expect(23, vec![vec![d_out, 1], vec![s_out, 2]]);
    expect(24, vec![vec![pc_out, 1], vec![d_in, 3, pc_inc]]);
    // a constant load into the program counter does not step over itself
    assert_eq!(
        create_microcodes((24 << 10) | 5, &none),
        with_fetch(vec![vec![pc_out, 1], vec![pc_in, 3]])
    );
}

#[test]
fn jumps_follow_the_flags() {
    let fetch = create_fetch_microcodes();
    let taken = |op: u32, equal: bool, greater: bool| {
        let list = create_microcodes((op << 10) | 3, &flags(equal, greater));
        if list == fetch {
            false
        } else {
            let mut expected = vec![vec![reg_out(3), reg_in(5)]];
            expected.extend(fetch.clone());
            assert_eq!(list, expected);
            true
        }
    };
    for (equal, greater) in [(false, false), (true, false), (false, true), (true, true)] {
        assert_eq!(taken(7, equal, greater), equal);
        assert_eq!(taken(8, equal, greater), !equal);
        assert_eq!(taken(9, equal, greater), greater);
        assert_eq!(taken(10, equal, greater), greater || equal);
        assert_eq!(taken(11, equal, greater), !greater && !equal);
        assert_eq!(taken(12, equal, greater), !greater);
    }
}

#[test]
fn decoding_rejects_reserved_and_undefined_opcodes() {
    let none = word(0);
    assert_eq!(decode(18 << 10, &none), Err(DecodeError::ReservedOpcode));
    assert_eq!(decode(19 << 10, &none), Err(DecodeError::ReservedOpcode));
    assert_eq!(decode(17 << 10, &none), Err(DecodeError::UnknownOpcode));
    for op in 25..64 {
        assert_eq!(decode(op << 10, &none), Err(DecodeError::UnknownOpcode));
    }
    assert_eq!(decode(0, &none), Ok(vec![vec![0], vec![32, 1], vec![3, 39, 33]]));
}

#[test]
fn register_step_in_then_inc() {
    let mut register = RegisterComponent::new(2, word(10));
    let mut bus = Bus::new();
    bus.write_from(&word(500));
    let report = register.step(&mut bus, &cables_with(&[reg_in(2), reg_inc(2)]));
    assert!(report.done);
    assert!(report.to_alu.is_none());
    assert_eq!(register.value.as_u32(), 501);
    assert!(!bus.is_pending());
}

#[test]
fn register_step_out_then_dec() {
    let mut register = RegisterComponent::new(6, word(0));
    let mut bus = Bus::new();
    let report = register.step(&mut bus, &cables_with(&[reg_out(6), reg_dec(6)]));
    assert!(report.done);
    assert_eq!(register.value.as_u32(), 65535);
    let mut got = word(1);
    assert!(bus.read_into(&mut got));
    assert_eq!(got.as_u32(), 0);
}

#[test]
fn register_step_inc_and_dec_cancel() {
    let mut register = RegisterComponent::new(4, word(65535));
    let mut bus = Bus::new();
    let report = register.step(&mut bus, &cables_with(&[reg_inc(4), reg_dec(4)]));
    assert!(report.done);
    assert_eq!(register.value.as_u32(), 65535);
    let report = register.step(&mut bus, &cables_with(&[reg_inc(4)]));
    assert!(report.done);
    assert_eq!(register.value.as_u32(), 0);
}

#[test]
fn register_step_waits_for_the_bus() {
    let mut register = RegisterComponent::new(3, word(10));
    let mut bus = Bus::new();
    // nothing to read
    let report = register.step(&mut bus, &cables_with(&[reg_in(3), reg_inc(3)]));
    assert!(!report.done);
    assert_eq!(register.value.as_u32(), 10);
    // nowhere to write
    bus.write_from(&word(1));
    let report = register.step(&mut bus, &cables_with(&[reg_out(3), reg_dec(3)]));
    assert!(!report.done);
    assert_eq!(register.value.as_u32(), 10);
    // lines of another register do not concern this one
    let report = register.step(&mut bus, &cables_with(&[reg_in(2), reg_out(4)]));
    assert!(report.done);
    assert_eq!(register.value.as_u32(), 10);
    assert!(bus.is_pending());
}

#[test]
fn registers_that_feed_the_alu() {
    for code in 0..8 {
        let mut register = RegisterComponent::new(code, word(0));
        let mut bus = Bus::new();
        bus.write_from(&word(77));
        let report = register.step(&mut bus, &cables_with(&[reg_in(code), reg_inc(code)]));
        match report.to_alu {
            Some((from, snapshot)) => {
                assert!(code == 0 || code == 1 || code == 7);
                assert_eq!(from, code);
                assert_eq!(snapshot.as_u32(), 77);
            }
            None => assert!(code >= 2 && code <= 6),
        }
        assert_eq!(register.value.as_u32(), 78);
    }
}

#[test]
fn alu_latches_and_flags() {
    let mut alu = AluComponent::new();
    assert!(alu.run(0, word(9)).is_none());
    assert_eq!(alu.reg_a.as_u32(), 9);
    assert!(!alu.flags_reg.bit(0));
    assert!(alu.flags_reg.bit(1));
    assert!(alu.run(1, word(9)).is_none());
    assert_eq!(alu.reg_b.as_u32(), 9);
    assert!(alu.flags_reg.bit(0));
    assert!(!alu.flags_reg.bit(1));
    assert_eq!(alu.flags_reg.as_u32(), 1);
    assert!(alu.run(1, word(10)).is_none());
    assert_eq!(alu.flags_reg.as_u32(), 0);
    let forwarded = alu.run(7, word(0x6000));
    assert_eq!(forwarded.unwrap().as_u32(), 0x6000);
    assert_eq!(alu.reg_a.as_u32(), 9);
    assert_eq!(alu.reg_b.as_u32(), 10);
    assert!(alu.run(3, word(1)).is_none());
    assert_eq!(alu.reg_a.as_u32(), 9);
}

#[test]
fn alu_step_selects_the_operation() {
    let mut alu = AluComponent::new();
    alu.run(0, word(20));
    alu.run(1, word(6));
    let result = |lines: &[usize]| {
        let mut bus = Bus::new();
        assert_eq!(alu.step(&mut bus, &cables_with(lines)), AluStatus::Done);
        let mut got = word(0);
        if bus.read_into(&mut got) {
            Some(got.as_u32())
        } else {
            None
        }
    };
    assert_eq!(result(&[7]), Some(26));
    assert_eq!(result(&[7, 6]), Some(14));
    assert_eq!(result(&[7, 5]), Some(120));
    assert_eq!(result(&[7, 5, 6]), Some(3));
    assert_eq!(result(&[5, 6]), None);
    assert_eq!(alu.reg_a.as_u32(), 20);
    assert_eq!(alu.reg_b.as_u32(), 6);
}

#[test]
fn alu_step_blocked_and_division_by_zero() {
    let mut alu = AluComponent::new();
    alu.run(0, word(20));
    let mut bus = Bus::new();
    assert_eq!(alu.step(&mut bus, &cables_with(&[7, 5, 6])), AluStatus::DivisionByZero);
    assert!(!bus.is_pending());
    bus.write_from(&word(1));
    assert_eq!(alu.step(&mut bus, &cables_with(&[7])), AluStatus::Blocked);
    assert_eq!(alu.step(&mut bus, &cables_with(&[7, 5, 6])), AluStatus::DivisionByZero);
    assert_eq!(alu.step(&mut bus, &cables_with(&[])), AluStatus::Done);
    let mut got = word(0);
    bus.read_into(&mut got);
    assert_eq!(got.as_u32(), 1);
}

fn empty_ram() -> RamComponent {
    let mut memory = Vec::new();
    for _ in 0..RAM_SIZE {
        memory.push(word(0));
    }
    RamComponent::new(memory)
}

#[test]
fn ram_address_in_prefetches() {
    let mut ram = empty_ram();
    ram.memory[300].set(&word(4242));
    let mut bus = Bus::new();
    bus.write_from(&word(300));
    let report = ram.step(&mut bus, &cables_with(&[1]), &None);
    assert!(report.done);
    assert_eq!(ram.memory_address_register.as_u32(), 300);
    assert_eq!(ram.ram_register.as_u32(), 4242);
    // with the I/O line the cell is not touched
    bus.write_from(&word(7));
    let report = ram.step(&mut bus, &cables_with(&[1, 4]), &None);
    assert!(report.done);
    assert_eq!(ram.memory_address_register.as_u32(), 7);
    assert_eq!(ram.ram_register.as_u32(), 4242);
}

#[test]
fn ram_in_stores_or_sends() {
    let mut ram = empty_ram();
    ram.memory_address_register.set(&word(65535));
    let mut bus = Bus::new();
    bus.write_from(&word(11));
    let report = ram.step(&mut bus, &cables_with(&[2]), &None);
    assert!(report.done && report.output.is_none());
    assert_eq!(ram.memory[65535].as_u32(), 11);
    assert_eq!(ram.ram_register.as_u32(), 11);
    bus.write_from(&word(12));
    let report = ram.step(&mut bus, &cables_with(&[2, 4]), &None);
    let (port, value) = report.output.unwrap();
    assert_eq!((port.as_u32(), value.as_u32()), (65535, 12));
    assert_eq!(ram.memory[65535].as_u32(), 11);
}

#[test]
fn ram_out_reads_memory_or_input() {
    let mut ram = empty_ram();
    ram.memory[5].set(&word(99));
    ram.memory_address_register.set(&word(5));
    let mut bus = Bus::new();
    let report = ram.step(&mut bus, &cables_with(&[3]), &None);
    assert!(report.done && report.asked.is_none());
    let mut got = word(0);
    assert!(bus.read_into(&mut got));
    assert_eq!(got.as_u32(), 99);
    assert_eq!(ram.ram_register.as_u32(), 99);
    // input without data leaves the bus alone
    let report = ram.step(&mut bus, &cables_with(&[3, 4]), &None);
    assert!(report.done);
    assert_eq!(report.asked.unwrap().as_u32(), 5);
    assert!(!bus.is_pending());
    // input with data
    let report = ram.step(&mut bus, &cables_with(&[3, 4]), &Some(word(321)));
    assert!(report.done);
    assert!(bus.read_into(&mut got));
    assert_eq!(got.as_u32(), 321);
}

#[test]
fn ram_waits_for_the_bus() {
    let mut ram = empty_ram();
    let mut bus = Bus::new();
    assert!(!ram.step(&mut bus, &cables_with(&[1]), &None).done);
    assert!(!ram.step(&mut bus, &cables_with(&[2]), &None).done);
    bus.write_from(&word(8));
    assert!(!ram.step(&mut bus, &cables_with(&[3]), &None).done);
    assert!(!ram.step(&mut bus, &cables_with(&[1, 2]), &None).done);
    assert!(!ram.step(&mut bus, &cables_with(&[3, 4]), &Some(word(1))).done);
    assert!(ram.step(&mut bus, &cables_with(&[3, 4]), &None).done);
    assert!(bus.is_pending());
    assert_eq!(ram.memory_address_register.as_u32(), 0);
}

#[test]
fn control_unit_walks_and_decodes() {
    let mut control = ControlComponent::new();
    let mut cables = ControlCables::new();
    let none = word(0);
    assert_eq!(control.set_cables(&mut cables, &none), Ok(()));
    assert_eq!(dump_cables(&cables), "MemoryAddressIn pc_out ");
    control.advance();
    assert_eq!(control.set_cables(&mut cables, &none), Ok(()));
    assert_eq!(dump_cables(&cables), "RamOut pc_inc inst_in ");
    control.advance();
    control.latch_instruction(&word((1 << 10) | (2 << 5) | 3));
    assert_eq!(control.set_cables(&mut cables, &none), Ok(()));
    assert_eq!(control.microcode_counter, 0);
    assert_eq!(control.current_microcodes.len(), 3);
    assert_eq!(dump_cables(&cables), "c_out d_in ");
}

#[test]
fn control_unit_faults() {
    let mut cables = cables_with(&[0, 5]);
    let none = word(0);
    let mut control = ControlComponent {
        microcode_counter: 0,
        current_microcodes: vec![],
        instruction_register: word(18 << 10),
    };
    assert_eq!(control.set_cables(&mut cables, &none), Err(Fault::ReservedOpcode));
    assert_eq!(dump_cables(&cables), "");
    control.latch_instruction(&word(40 << 10));
    assert_eq!(control.set_cables(&mut cables, &none), Err(Fault::UnknownOpcode));
    control.latch_instruction(&word((20 << 10) | 31));
    assert_eq!(control.set_cables(&mut cables, &none), Err(Fault::InvalidLine));
    assert_eq!(dump_cables(&cables), "");
}

#[test]
fn steps_are_checked_before_they_are_asserted() {
    assert!(step_is_valid(&vec![]));
    assert!(step_is_valid(&vec![0, 42, 7]));
    assert!(!step_is_valid(&vec![0, 43]));
    let mut cables = ControlCables::new();
    assert_lines(&mut cables, &vec![3, 11, 3]);
    for i in 0..CONTROL_CABLES_SIZE {
        assert_eq!(cables.get(i), i == 3 || i == 11);
    }
}

#[test]
fn names_of_lines() {
    assert_eq!(cable_name(ControlCable::MemoryIsIO), "MemoryIsIO");
    assert_eq!(cable_at(9), Some(ControlCable::Equal));
    assert_eq!(cable_at(11), None);
    assert_eq!(op_name(0), "in");
    assert_eq!(op_name(3), "dec");
    assert_eq!(op_name(4), "");
    let mut all = ControlCables::new();
    for i in 0..CONTROL_CABLES_SIZE {
        all.set(i, true);
    }
    assert_eq!(
        dump_cables(&all),
        "Halt MemoryAddressIn RamIn RamOut MemoryIsIO AddMul SubDiv AluOut Interrupt Equal Greater \
         a_in a_out a_inc a_dec b_in b_out b_inc b_dec c_in c_out c_inc c_dec d_in d_out d_inc d_dec \
         e_in e_out e_inc e_dec pc_in pc_out pc_inc pc_dec sp_in sp_out sp_inc sp_dec \
         inst_in inst_out inst_inc inst_dec "
    );
    assert_eq!(dump_cables(&ControlCables::new()), "");
}

#[test]
fn instruction_words_as_text() {
    assert_eq!(decode_instruction(0), Some("hlt a a".to_string()));
    assert_eq!(decode_instruction((1 << 10) | (0 << 5) | 1), Some("mov a b".to_string()));
    assert_eq!(decode_instruction((24 << 10) | 5), Some("ldcnst a pc".to_string()));
    assert_eq!(decode_instruction((23 << 10) | (6 << 5) | 7), Some("store sp inst".to_string()));
    assert_eq!(decode_instruction(17 << 10), None);
    assert_eq!(decode_instruction((1 << 10) | 8), None);
    assert_eq!(decode_instruction((1 << 10) | (8 << 5)), None);
}
