//! What the microsteps of the instruction set do to the machine, one kind
//! of microstep at a time.
//!
//! Each kind moves at most one word over the bus. Which component comes
//! first in the round of visits decides only whether the move takes one
//! round or two, never what is moved.
//!
//! The named lines appear here by their indices: 1 is `MemoryAddressIn`,
//! 2 `RamIn`, 3 `RamOut`, 4 `MemoryIsIO`, 5 `AddMul`, 6 `SubDiv` and 7
//! `AluOut`. Of the register lines, 33 is the Inc line of the program
//! counter and 38 the Dec line of the stack pointer.

use vstd::prelude::*;
use crate::control_cables::{CONTROL_CABLES_SIZE, REGISTERS_NUM};
use crate::cpu_component::{
    alu_result, asserted, feeds_alu, lines_valid, reg_dec, reg_in, reg_inc, reg_out, wrapping,
    ControlModel, Fault, RamModel, RAM_SIZE,
};
use crate::machine::{
    all_done, deliver, drain, fresh_progress, microstep_model, sweep, visit_alu, visit_ram,
    visit_register, visit_registers, MachineModel, ProgressModel, StepOutcome, Stepped,
    COMPONENTS_NUM,
};
use crate::rounds::{
    counted, counted_registers, lemma_asserted, lemma_round_of_latecomer, lemma_round_of_none,
    lemma_round_of_one, lemma_round_of_two, lemma_sweep_when_done, marked, marked_range,
    registers_wait, settled, uses_bus,
};

verus! {

/// Whether the machine is whole and its bus is free.
pub open spec fn ready(m: MachineModel) -> bool {
    &&& m.registers.len() == REGISTERS_NUM
    &&& m.ram.memory.len() == RAM_SIZE
    &&& m.bus is None
}

/// Whether the control unit stands inside its list, at a microstep that
/// names existing lines and does not halt.
pub open spec fn at_step(m: MachineModel) -> bool {
    &&& m.control.counter < m.control.microcodes.len()
    &&& lines_valid(m.control.microcodes[m.control.counter as int])
    &&& !m.control.microcodes[m.control.counter as int].contains(0)
}

/// The machine with the lines of the microstep under the pointer asserted.
pub open spec fn opened(m: MachineModel) -> MachineModel {
    MachineModel { lines: asserted(m.control.microcodes[m.control.counter as int]), ..m }
}

/// Two rounds of visits from a fresh start.
pub open spec fn rounds(m: MachineModel, input: Option<u16>) -> (MachineModel, ProgressModel) {
    let (first, progress) = sweep(m, fresh_progress(), input);
    sweep(first, progress, input)
}

/// The progress of a microstep in which every component has taken its
/// step and the mailbox holds `mailbox`.
pub open spec fn finished(mailbox: Seq<(usize, u16)>) -> ProgressModel {
    ProgressModel {
        done: Seq::new(COMPONENTS_NUM as nat, |k: int| true),
        mailbox,
        ..fresh_progress()
    }
}

/// What a register that has latched `word` sends to the ALU.
pub open spec fn message(dst: int, word: u16) -> Seq<(usize, u16)> {
    if feeds_alu(dst as usize) {
        seq![(dst as usize, word)]
    } else {
        seq![]
    }
}

/// The machine after the ALU has heard that register `dst` latched `word`.
pub open spec fn heard(m: MachineModel, dst: int, word: u16) -> MachineModel {
    if feeds_alu(dst as usize) {
        deliver(m, (dst as usize, word))
    } else {
        m
    }
}

/// The machine with its microcode pointer moved on.
pub open spec fn advanced(m: MachineModel) -> MachineModel {
    MachineModel { control: ControlModel { counter: m.control.counter + 1, ..m.control }, ..m }
}

/// Draining the mailbox of a register that latched a word.
pub proof fn lemma_drain_message(m: MachineModel, dst: int, word: u16)
    ensures
        drain(m, message(dst, word)) == heard(m, dst, word),
        drain(m, seq![]) == m,
{
    if feeds_alu(dst as usize) {
        assert(message(dst, word).drop_last() =~= seq![]);
        assert(drain(m, message(dst, word).drop_last()) == m);
    }
}

/// A microstep inside the list is its two rounds of visits, then the
/// draining of the mailbox and the move of the pointer.
pub proof fn lemma_microstep(m: MachineModel, input: Option<u16>)
    requires
        at_step(m),
    ensures
        ({
            let (after, progress) = rounds(opened(m), input);
            microstep_model(m, input) == match progress.fault {
                Some(fault) => Stepped {
                    machine: after,
                    outcome: StepOutcome::Faulted(fault),
                    output: progress.output,
                    asked: progress.asked,
                },
                None => if all_done(progress.done) {
                    Stepped {
                        machine: advanced(drain(after, progress.mailbox)),
                        outcome: StepOutcome::Advanced,
                        output: progress.output,
                        asked: progress.asked,
                    }
                } else {
                    Stepped {
                        machine: after,
                        outcome: StepOutcome::Stalled,
                        output: progress.output,
                        asked: progress.asked,
                    }
                },
            }
        }),
{
    let step = m.control.microcodes[m.control.counter as int];
    lemma_asserted(step);
}

/// The first visit of a round finds the RAM idle.
pub proof fn lemma_ram_idle(m: MachineModel, input: Option<u16>)
    requires
        m.lines.len() == CONTROL_CABLES_SIZE,
        !m.lines[1],
        !m.lines[2],
        !m.lines[3],
    ensures
        visit_ram(m, fresh_progress(), input) == (m, marked(fresh_progress(), 0)),
        registers_wait(marked(fresh_progress(), 0)),
{
}

/// The last visit of a round finds the ALU idle.
pub proof fn lemma_alu_idle(m: MachineModel, p: ProgressModel)
    requires
        m.lines.len() == CONTROL_CABLES_SIZE,
        !m.lines[7],
        p.done.len() == COMPONENTS_NUM,
        p.fault is None,
    ensures
        visit_alu(m, p) == (m, marked(p, 9)),
{
    if p.done[9] {
        assert(p.done.update(9, true) =~= p.done);
    }
}

/// Whether register `r` drives the bus and no other register touches it.
pub open spec fn writes_alone(lines: Seq<bool>, r: int) -> bool {
    &&& 0 <= r < REGISTERS_NUM
    &&& lines.len() == CONTROL_CABLES_SIZE
    &&& lines[reg_out(r as usize) as int]
    &&& !lines[reg_in(r as usize) as int]
    &&& forall|k: int| 0 <= k < REGISTERS_NUM && k != r ==> !uses_bus(lines, k)
}

/// Whether register `r` latches the bus and no other register touches it.
pub open spec fn reads_alone(lines: Seq<bool>, r: int) -> bool {
    &&& 0 <= r < REGISTERS_NUM
    &&& lines.len() == CONTROL_CABLES_SIZE
    &&& lines[reg_in(r as usize) as int]
    &&& !lines[reg_out(r as usize) as int]
    &&& forall|k: int| 0 <= k < REGISTERS_NUM && k != r ==> !uses_bus(lines, k)
}

/// Whether no register touches the bus.
pub open spec fn registers_off_bus(lines: Seq<bool>) -> bool {
    &&& lines.len() == CONTROL_CABLES_SIZE
    &&& forall|k: int| 0 <= k < REGISTERS_NUM ==> !uses_bus(lines, k)
}

/// The registers after each has counted as its lines say.
pub open spec fn all_counted(lines: Seq<bool>, registers: Seq<u16>) -> Seq<u16> {
    counted_registers(lines, registers, 0, REGISTERS_NUM as int)
}

/// The round of the registers when one of them drives the bus: the bus
/// takes its word, and every register counts.
pub proof fn lemma_writer_round(m: MachineModel, p: ProgressModel, r: int)
    requires
        ready(m),
        writes_alone(m.lines, r),
        registers_wait(p),
    ensures
        visit_registers(m, p, REGISTERS_NUM as nat) == (
            MachineModel {
                registers: all_counted(m.lines, m.registers),
                bus: Some(m.registers[r]),
                ..m
            },
            marked_range(p, 0, REGISTERS_NUM as int),
        ),
{
    lemma_round_of_one(m, p, r);
    let before = MachineModel { registers: counted_registers(m.lines, m.registers, 0, r), ..m };
    let pb = marked_range(p, 0, r);
    let reached = MachineModel {
        registers: before.registers.update(r, counted(m.lines, r, m.registers[r])),
        bus: Some(m.registers[r]),
        ..before
    };
    assert(visit_register(before, pb, r) == (reached, marked(pb, r + 1)));
    assert(counted_registers(m.lines, reached.registers, r + 1, 8) =~= all_counted(
        m.lines,
        m.registers,
    ));
    assert(marked_range(marked(pb, r + 1), r + 1, 8).done =~= marked_range(p, 0, 8).done);
}

/// The round of the registers when one of them latches the word on the
/// bus: it takes the word and counts, the ALU is told of the word where
/// the register feeds it, and every other register counts.
pub proof fn lemma_reader_round(m: MachineModel, p: ProgressModel, r: int, word: u16)
    requires
        m.registers.len() == REGISTERS_NUM,
        m.bus == Some(word),
        reads_alone(m.lines, r),
        registers_wait(p),
        p.mailbox == Seq::<(usize, u16)>::empty(),
    ensures
        visit_registers(m, p, REGISTERS_NUM as nat) == (
            MachineModel {
                registers: settled(m.lines, m.registers, r, counted(m.lines, r, word)),
                bus: None,
                ..m
            },
            ProgressModel { mailbox: message(r, word), ..marked_range(p, 0, REGISTERS_NUM as int) },
        ),
{
    lemma_round_of_one(m, p, r);
    let before = MachineModel { registers: counted_registers(m.lines, m.registers, 0, r), ..m };
    let pb = marked_range(p, 0, r);
    let reached = MachineModel {
        registers: before.registers.update(r, counted(m.lines, r, word)),
        bus: None,
        ..before
    };
    let progress = ProgressModel { mailbox: message(r, word), ..marked(pb, r + 1) };
    assert(visit_register(before, pb, r) == (reached, progress)) by {
        if feeds_alu(r as usize) {
            assert(pb.mailbox.push((r as usize, word)) =~= message(r, word));
        }
    }
    assert(counted_registers(m.lines, reached.registers, r + 1, 8) =~= settled(
        m.lines,
        m.registers,
        r,
        counted(m.lines, r, word),
    ));
    assert(marked_range(progress, r + 1, 8).done =~= marked_range(p, 0, 8).done);
}

/// The round of the registers when one of them waits for a word that is
/// not on the bus: every other register counts.
pub proof fn lemma_waiting_round(m: MachineModel, p: ProgressModel, r: int)
    requires
        ready(m),
        reads_alone(m.lines, r),
        registers_wait(p),
    ensures
        visit_registers(m, p, REGISTERS_NUM as nat) == (
            MachineModel { registers: settled(m.lines, m.registers, r, m.registers[r]), ..m },
            ProgressModel {
                done: Seq::new(
                    COMPONENTS_NUM as nat,
                    |k: int| p.done[k] || (1 <= k <= REGISTERS_NUM && k != r + 1),
                ),
                ..p
            },
        ),
{
    lemma_round_of_one(m, p, r);
    let before = MachineModel { registers: counted_registers(m.lines, m.registers, 0, r), ..m };
    let pb = marked_range(p, 0, r);
    assert(visit_register(before, pb, r) == (before, pb));
    assert(counted_registers(m.lines, before.registers, r + 1, 8) =~= settled(
        m.lines,
        m.registers,
        r,
        m.registers[r],
    ));
    assert(marked_range(pb, r + 1, 8).done =~= Seq::new(
        COMPONENTS_NUM as nat,
        |k: int| p.done[k] || (1 <= k <= REGISTERS_NUM && k != r + 1),
    ));
}

/// The round of the registers when none of them touches the bus: every
/// register counts.
pub proof fn lemma_counting_round(m: MachineModel, p: ProgressModel)
    requires
        m.registers.len() == REGISTERS_NUM,
        registers_off_bus(m.lines),
        registers_wait(p),
    ensures
        visit_registers(m, p, REGISTERS_NUM as nat) == (
            MachineModel { registers: all_counted(m.lines, m.registers), ..m },
            marked_range(p, 0, REGISTERS_NUM as int),
        ),
{
    crate::rounds::lemma_visit_all(m, p, REGISTERS_NUM as nat);
    crate::rounds::lemma_local_range(m, p, 0, REGISTERS_NUM as nat);
}

/// The RAM after it has taken `word` as an address: MAR holds the word
/// and, unless the address is that of a port, MDR the cell it names.
pub open spec fn addressed(ram: RamModel, word: u16, io: bool) -> RamModel {
    RamModel {
        mar: word,
        mdr: if io {
            ram.mdr
        } else {
            ram.memory[word as int]
        },
        ..ram
    }
}

/// A register gives its word to the RAM as an address: the register
/// drives the bus in the first round, the RAM latches it in the second.
/// `MemoryIsIO` makes the address that of a port.
pub proof fn lemma_address_rounds(m: MachineModel, r: int, input: Option<u16>)
    requires
        ready(m),
        writes_alone(m.lines, r),
        m.lines[1],
        !m.lines[2],
        !m.lines[3],
        !m.lines[7],
    ensures
        rounds(m, input) == (
            MachineModel {
                registers: all_counted(m.lines, m.registers),
                ram: addressed(m.ram, m.registers[r], m.lines[4]),
                ..m
            },
            finished(seq![]),
        ),
{
    let word = m.registers[r];
    let fresh = fresh_progress();
    assert(visit_ram(m, fresh, input) == (m, fresh));
    lemma_writer_round(m, fresh, r);
    let driven = MachineModel {
        registers: all_counted(m.lines, m.registers),
        bus: Some(word),
        ..m
    };
    let p8 = marked_range(fresh, 0, 8);
    lemma_alu_idle(driven, p8);
    let p9 = marked(p8, 9);
    assert(sweep(m, fresh, input) == (driven, p9));

    let latched = MachineModel { ram: addressed(m.ram, word, m.lines[4]), bus: None, ..driven };
    assert(visit_ram(driven, p9, input) == (latched, marked(p9, 0)));
    let p10 = marked(p9, 0);
    assert(p10.done =~= finished(seq![]).done);
    lemma_round_of_none(latched, p10);
    assert(visit_alu(latched, p10) == (latched, p10));
}

/// The RAM after it has taken `word` as data: MDR holds the word, and the
/// cell that MAR names holds it too unless MAR names a port.
pub open spec fn stored(ram: RamModel, word: u16, io: bool) -> RamModel {
    RamModel {
        memory: if io {
            ram.memory
        } else {
            ram.memory.update(ram.mar as int, word)
        },
        mdr: word,
        ..ram
    }
}

/// What the RAM sends to the output channel when it takes `word` as data.
pub open spec fn sent(ram: RamModel, word: u16, io: bool) -> Option<(u16, u16)> {
    if io {
        Some((ram.mar, word))
    } else {
        None
    }
}

/// A register gives its word to the RAM as data: the register drives the
/// bus in the first round, the RAM latches it in the second and stores it
/// or, with `MemoryIsIO`, sends it out.
pub proof fn lemma_store_rounds(m: MachineModel, r: int, input: Option<u16>)
    requires
        ready(m),
        writes_alone(m.lines, r),
        !m.lines[1],
        m.lines[2],
        !m.lines[3],
        !m.lines[7],
    ensures
        rounds(m, input) == (
            MachineModel {
                registers: all_counted(m.lines, m.registers),
                ram: stored(m.ram, m.registers[r], m.lines[4]),
                ..m
            },
            ProgressModel {
                output: sent(m.ram, m.registers[r], m.lines[4]),
                ..finished(seq![])
            },
        ),
{
    let word = m.registers[r];
    let fresh = fresh_progress();
    assert(visit_ram(m, fresh, input) == (m, fresh));
    lemma_writer_round(m, fresh, r);
    let driven = MachineModel {
        registers: all_counted(m.lines, m.registers),
        bus: Some(word),
        ..m
    };
    let p8 = marked_range(fresh, 0, 8);
    lemma_alu_idle(driven, p8);
    let p9 = marked(p8, 9);
    assert(sweep(m, fresh, input) == (driven, p9));

    let latched = MachineModel { ram: stored(m.ram, word, m.lines[4]), bus: None, ..driven };
    let p10 = ProgressModel { output: sent(m.ram, word, m.lines[4]), ..marked(p9, 0) };
    assert(visit_ram(driven, p9, input) == (latched, p10));
    assert(p10.done =~= finished(seq![]).done);
    lemma_round_of_none(latched, p10);
    assert(visit_alu(latched, p10) == (latched, p10));
}

/// The RAM gives the cell that MAR names to a register: the RAM drives
/// the bus and the register latches it, all in the first round.
pub proof fn lemma_load_rounds(m: MachineModel, r: int, input: Option<u16>)
    requires
        ready(m),
        reads_alone(m.lines, r),
        !m.lines[1],
        !m.lines[2],
        m.lines[3],
        !m.lines[4],
        !m.lines[7],
    ensures
        rounds(m, input) == (
            MachineModel {
                registers: settled(
                    m.lines,
                    m.registers,
                    r,
                    counted(m.lines, r, m.ram.memory[m.ram.mar as int]),
                ),
                ram: RamModel { mdr: m.ram.memory[m.ram.mar as int], ..m.ram },
                ..m
            },
            finished(message(r, m.ram.memory[m.ram.mar as int])),
        ),
{
    let word = m.ram.memory[m.ram.mar as int];
    let fresh = fresh_progress();
    let driven = MachineModel { ram: RamModel { mdr: word, ..m.ram }, bus: Some(word), ..m };
    let p0 = marked(fresh, 0);
    assert(visit_ram(m, fresh, input) == (driven, p0));
    lemma_reader_round(driven, p0, r, word);
    let latched = MachineModel {
        registers: settled(m.lines, m.registers, r, counted(m.lines, r, word)),
        bus: None,
        ..driven
    };
    let p8 = ProgressModel { mailbox: message(r, word), ..marked_range(p0, 0, 8) };
    lemma_alu_idle(latched, p8);
    let p9 = marked(p8, 9);
    assert(p9.done =~= finished(message(r, word)).done);
    assert(sweep(m, fresh, input) == (latched, p9));
    lemma_sweep_when_done(latched, p9, input);
}

/// The input channel gives a word to a register by way of the RAM: the
/// RAM puts the answer on the bus and the register latches it, all in the
/// first round. The channel was asked for the port that MAR names.
pub proof fn lemma_input_rounds(m: MachineModel, r: int, word: u16)
    requires
        ready(m),
        reads_alone(m.lines, r),
        !m.lines[1],
        !m.lines[2],
        m.lines[3],
        m.lines[4],
        !m.lines[7],
    ensures
        rounds(m, Some(word)) == (
            MachineModel {
                registers: settled(m.lines, m.registers, r, counted(m.lines, r, word)),
                ..m
            },
            ProgressModel { asked: Some(m.ram.mar), ..finished(message(r, word)) },
        ),
{
    let input = Some(word);
    let fresh = fresh_progress();
    let driven = MachineModel { bus: Some(word), ..m };
    let p0 = ProgressModel { asked: Some(m.ram.mar), ..marked(fresh, 0) };
    assert(visit_ram(m, fresh, input) == (driven, p0)) by {
        assert(m.ram == RamModel { memory: m.ram.memory, mar: m.ram.mar, mdr: m.ram.mdr });
    }
    lemma_reader_round(driven, p0, r, word);
    let latched = MachineModel {
        registers: settled(m.lines, m.registers, r, counted(m.lines, r, word)),
        bus: None,
        ..driven
    };
    let p8 = ProgressModel { mailbox: message(r, word), ..marked_range(p0, 0, 8) };
    lemma_alu_idle(latched, p8);
    let p9 = marked(p8, 9);
    assert(p9.done =~= finished(message(r, word)).done);
    assert(sweep(m, fresh, input) == (latched, p9));
    lemma_sweep_when_done(latched, p9, input);
}

/// Where the input channel has no word, the register that should latch it
/// waits through both rounds: the machine stalls.
pub proof fn lemma_input_stalls(m: MachineModel, r: int)
    requires
        ready(m),
        reads_alone(m.lines, r),
        !m.lines[1],
        !m.lines[2],
        m.lines[3],
        m.lines[4],
        !m.lines[7],
    ensures
        rounds(m, None).1.fault is None,
        !all_done(rounds(m, None).1.done),
        rounds(m, None).1.output is None,
        rounds(m, None).1.asked == Some(m.ram.mar),
{
    let input = None::<u16>;
    let fresh = fresh_progress();
    let p0 = ProgressModel { asked: Some(m.ram.mar), ..marked(fresh, 0) };
    assert(visit_ram(m, fresh, input) == (m, p0)) by {
        assert(m.ram == RamModel { memory: m.ram.memory, mar: m.ram.mar, mdr: m.ram.mdr });
    }
    lemma_waiting_round(m, p0, r);
    let waited = MachineModel { registers: settled(m.lines, m.registers, r, m.registers[r]), ..m };
    let p8 = ProgressModel {
        done: Seq::new(
            COMPONENTS_NUM as nat,
            |k: int| p0.done[k] || (1 <= k <= REGISTERS_NUM && k != r + 1),
        ),
        ..p0
    };
    lemma_alu_idle(waited, p8);
    let p9 = marked(p8, 9);
    assert(sweep(m, fresh, input) == (waited, p9));
    // second round: only the register is left, and it still waits
    assert(visit_ram(waited, p9, input) == (waited, p9));
    lemma_round_of_latecomer(waited, p9, r);
    assert(visit_register(waited, p9, r) == (waited, p9));
    assert(visit_alu(waited, p9) == (waited, p9));
    assert(!p9.done[r + 1]);
}

/// The ALU gives its result to a register: the register waits through the
/// first round, at whose end the ALU drives the bus, and latches the
/// result in the second.
pub proof fn lemma_alu_rounds(m: MachineModel, r: int, input: Option<u16>)
    requires
        ready(m),
        reads_alone(m.lines, r),
        !m.lines[1],
        !m.lines[2],
        !m.lines[3],
        m.lines[7],
        !(m.lines[5] && m.lines[6] && m.alu.b == 0),
    ensures
        rounds(m, input) == (
            MachineModel {
                registers: settled(
                    m.lines,
                    m.registers,
                    r,
                    counted(m.lines, r, alu_result(m.alu.a, m.alu.b, m.lines[5], m.lines[6])),
                ),
                ..m
            },
            finished(message(r, alu_result(m.alu.a, m.alu.b, m.lines[5], m.lines[6]))),
        ),
{
    let word = alu_result(m.alu.a, m.alu.b, m.lines[5], m.lines[6]);
    let fresh = fresh_progress();
    lemma_ram_idle(m, input);
    let p0 = marked(fresh, 0);
    lemma_waiting_round(m, p0, r);
    let waited = MachineModel { registers: settled(m.lines, m.registers, r, m.registers[r]), ..m };
    let p8 = ProgressModel {
        done: Seq::new(
            COMPONENTS_NUM as nat,
            |k: int| p0.done[k] || (1 <= k <= REGISTERS_NUM && k != r + 1),
        ),
        ..p0
    };
    let driven = MachineModel { bus: Some(word), ..waited };
    let p9 = marked(p8, 9);
    assert(visit_alu(waited, p8) == (driven, p9));
    assert(sweep(m, fresh, input) == (driven, p9));
    // second round: the register catches up
    assert(visit_ram(driven, p9, input) == (driven, p9));
    lemma_round_of_latecomer(driven, p9, r);
    let latched = MachineModel {
        registers: waited.registers.update(r, counted(m.lines, r, word)),
        bus: None,
        ..driven
    };
    let p10 = ProgressModel { mailbox: message(r, word), ..marked(p9, r + 1) };
    assert(visit_register(driven, p9, r) == (latched, p10)) by {
        if feeds_alu(r as usize) {
            assert(p9.mailbox.push((r as usize, word)) =~= message(r, word));
        }
    }
    assert(latched.registers =~= settled(m.lines, m.registers, r, counted(m.lines, r, word)));
    assert(p10.done =~= finished(message(r, word)).done);
    assert(visit_alu(latched, p10) == (latched, p10));
}

/// A division while latch B holds zero is a fault, whatever else the
/// microstep asks for.
pub proof fn lemma_division_faults(m: MachineModel, input: Option<u16>)
    requires
        ready(m),
        m.lines.len() == CONTROL_CABLES_SIZE,
        !m.lines[2],
        m.lines[5],
        m.lines[6],
        m.lines[7],
        m.alu.b == 0,
    ensures
        rounds(m, input).1.fault == Some(Fault::DivisionByZero),
        rounds(m, input).1.output is None,
{
    let fresh = fresh_progress();
    let (m1, p1) = visit_ram(m, fresh, input);
    crate::machine::lemma_visit_registers_frame(m1, p1, REGISTERS_NUM as nat);
    let (m2, p2) = visit_registers(m1, p1, REGISTERS_NUM as nat);
    lemma_registers_keep_fault(m1, p1, REGISTERS_NUM as nat);
    assert(!p2.done[9]);
    let (m3, p3) = visit_alu(m2, p2);
    assert(p3.fault == Some(Fault::DivisionByZero));
    let (m4, p4) = visit_ram(m3, p3, input);
    lemma_registers_keep_fault(m4, p4, REGISTERS_NUM as nat);
}

/// The visits to the registers neither raise nor clear a fault, and they
/// leave the ALU's mark alone.
pub proof fn lemma_registers_keep_fault(m: MachineModel, p: ProgressModel, n: nat)
    requires
        n <= REGISTERS_NUM,
        p.done.len() == COMPONENTS_NUM,
    ensures
        visit_registers(m, p, n).1.fault == p.fault,
        visit_registers(m, p, n).1.output == p.output,
        visit_registers(m, p, n).1.done.len() == COMPONENTS_NUM,
        visit_registers(m, p, n).1.done[9] == p.done[9],
        p.fault is Some ==> visit_registers(m, p, n) == (m, p),
    decreases n,
{
    if n > 0 {
        lemma_registers_keep_fault(m, p, (n - 1) as nat);
    }
}

/// No component touches the bus: every register counts, in a single
/// round.
pub proof fn lemma_counting_rounds(m: MachineModel, input: Option<u16>)
    requires
        ready(m),
        registers_off_bus(m.lines),
        !m.lines[1],
        !m.lines[2],
        !m.lines[3],
        !m.lines[7],
    ensures
        rounds(m, input) == (
            MachineModel { registers: all_counted(m.lines, m.registers), ..m },
            finished(seq![]),
        ),
{
    let fresh = fresh_progress();
    lemma_ram_idle(m, input);
    let p0 = marked(fresh, 0);
    lemma_counting_round(m, p0);
    let counted_all = MachineModel { registers: all_counted(m.lines, m.registers), ..m };
    let p8 = marked_range(p0, 0, 8);
    lemma_alu_idle(counted_all, p8);
    let p9 = marked(p8, 9);
    assert(p9.done =~= finished(seq![]).done);
    lemma_sweep_when_done(counted_all, p9, input);
}

/// Whether register `src` drives the bus, another register `dst` latches
/// it, and no other register touches it.
pub open spec fn transfer_lines(lines: Seq<bool>, src: int, dst: int) -> bool {
    &&& 0 <= src < REGISTERS_NUM
    &&& 0 <= dst < REGISTERS_NUM
    &&& src != dst
    &&& lines.len() == CONTROL_CABLES_SIZE
    &&& lines[reg_out(src as usize) as int]
    &&& !lines[reg_in(src as usize) as int]
    &&& lines[reg_in(dst as usize) as int]
    &&& !lines[reg_out(dst as usize) as int]
    &&& forall|k: int| 0 <= k < REGISTERS_NUM && k != src && k != dst ==> !uses_bus(lines, k)
}

/// The progress in which every component but register `r` has taken its
/// step and the mailbox is empty.
pub open spec fn all_but(r: int) -> ProgressModel {
    ProgressModel {
        done: Seq::new(COMPONENTS_NUM as nat, |k: int| k != r + 1),
        ..fresh_progress()
    }
}

/// A transfer whose source comes first: the destination latches the word
/// in the first round.
proof fn lemma_transfer_forward(m: MachineModel, src: int, dst: int, input: Option<u16>)
    requires
        ready(m),
        transfer_lines(m.lines, src, dst),
        src < dst,
        !m.lines[1],
        !m.lines[2],
        !m.lines[3],
        !m.lines[7],
    ensures
        sweep(m, fresh_progress(), input) == (
            MachineModel {
                registers: settled(
                    m.lines,
                    m.registers,
                    dst,
                    counted(m.lines, dst, m.registers[src]),
                ),
                ..m
            },
            finished(message(dst, m.registers[src])),
        ),
{
    let word = m.registers[src];
    let fresh = fresh_progress();
    lemma_ram_idle(m, input);
    let p0 = marked(fresh, 0);
    let result = settled(m.lines, m.registers, dst, counted(m.lines, dst, word));
    lemma_round_of_two(m, p0, src, dst);
    let before_a = MachineModel { registers: counted_registers(m.lines, m.registers, 0, src), ..m };
    let pa = marked_range(p0, 0, src);
    let first = MachineModel {
        registers: before_a.registers.update(src, counted(m.lines, src, word)),
        bus: Some(word),
        ..before_a
    };
    assert(visit_register(before_a, pa, src) == (first, marked(pa, src + 1)));
    let before_b = MachineModel {
        registers: counted_registers(m.lines, first.registers, src + 1, dst),
        ..first
    };
    let pb = marked_range(marked(pa, src + 1), src + 1, dst);
    let second = MachineModel {
        registers: before_b.registers.update(dst, counted(m.lines, dst, word)),
        bus: None,
        ..before_b
    };
    let pc = ProgressModel { mailbox: message(dst, word), ..marked(pb, dst + 1) };
    assert(visit_register(before_b, pb, dst) == (second, pc)) by {
        if feeds_alu(dst as usize) {
            assert(pb.mailbox.push((dst as usize, word)) =~= message(dst, word));
        }
    }
    assert(counted_registers(m.lines, second.registers, dst + 1, 8) =~= result);
    let moved = MachineModel { registers: result, ..m };
    let p8 = marked_range(pc, dst + 1, 8);
    assert(visit_registers(m, p0, 8) == (moved, p8));
    lemma_alu_idle(moved, p8);
    assert(marked(p8, 9).done =~= finished(message(dst, word)).done);
}

/// The first round of a transfer whose destination comes first: the
/// destination waits, the source drives the bus.
proof fn lemma_transfer_backward_first(m: MachineModel, src: int, dst: int, input: Option<u16>)
    requires
        ready(m),
        transfer_lines(m.lines, src, dst),
        dst < src,
        !m.lines[1],
        !m.lines[2],
        !m.lines[3],
        !m.lines[7],
    ensures
        sweep(m, fresh_progress(), input) == (
            MachineModel {
                registers: settled(m.lines, m.registers, dst, m.registers[dst]),
                bus: Some(m.registers[src]),
                ..m
            },
            all_but(dst),
        ),
{
    let word = m.registers[src];
    let fresh = fresh_progress();
    lemma_ram_idle(m, input);
    let p0 = marked(fresh, 0);
    lemma_round_of_two(m, p0, dst, src);
    let before_a = MachineModel { registers: counted_registers(m.lines, m.registers, 0, dst), ..m };
    let pa = marked_range(p0, 0, dst);
    assert(visit_register(before_a, pa, dst) == (before_a, pa));
    let before_b = MachineModel {
        registers: counted_registers(m.lines, before_a.registers, dst + 1, src),
        ..before_a
    };
    let pb = marked_range(pa, dst + 1, src);
    let second = MachineModel {
        registers: before_b.registers.update(src, counted(m.lines, src, word)),
        bus: Some(word),
        ..before_b
    };
    assert(visit_register(before_b, pb, src) == (second, marked(pb, src + 1)));
    let waited = settled(m.lines, m.registers, dst, m.registers[dst]);
    assert(counted_registers(m.lines, second.registers, src + 1, 8) =~= waited);
    let driven = MachineModel { registers: waited, bus: Some(word), ..m };
    let p8 = marked_range(marked(pb, src + 1), src + 1, 8);
    assert(visit_registers(m, p0, 8) == (driven, p8));
    lemma_alu_idle(driven, p8);
    assert(marked(p8, 9).done =~= all_but(dst).done);
}

/// A round in which only register `r` is left, with a word on the bus for
/// it to latch.
proof fn lemma_latecomer_latches(m: MachineModel, r: int, word: u16, input: Option<u16>)
    requires
        m.registers.len() == REGISTERS_NUM,
        m.bus == Some(word),
        0 <= r < REGISTERS_NUM,
        m.lines.len() == CONTROL_CABLES_SIZE,
        m.lines[reg_in(r as usize) as int],
        !m.lines[reg_out(r as usize) as int],
    ensures
        sweep(m, all_but(r), input) == (
            MachineModel {
                registers: m.registers.update(r, counted(m.lines, r, word)),
                bus: None,
                ..m
            },
            finished(message(r, word)),
        ),
{
    let p = all_but(r);
    assert(visit_ram(m, p, input) == (m, p));
    lemma_round_of_latecomer(m, p, r);
    let latched = MachineModel {
        registers: m.registers.update(r, counted(m.lines, r, word)),
        bus: None,
        ..m
    };
    let after = ProgressModel { mailbox: message(r, word), ..marked(p, r + 1) };
    assert(visit_register(m, p, r) == (latched, after)) by {
        if feeds_alu(r as usize) {
            assert(p.mailbox.push((r as usize, word)) =~= message(r, word));
        }
    }
    assert(after.done =~= finished(message(r, word)).done);
    assert(visit_alu(latched, after) == (latched, after));
}

/// A register gives its word to another register. Where the source comes
/// first in the round, the destination latches the word in the same round;
/// where the destination comes first, it waits for the second round. The
/// outcome is the same.
pub proof fn lemma_transfer_rounds(m: MachineModel, src: int, dst: int, input: Option<u16>)
    requires
        ready(m),
        transfer_lines(m.lines, src, dst),
        !m.lines[1],
        !m.lines[2],
        !m.lines[3],
        !m.lines[7],
    ensures
        rounds(m, input) == (
            MachineModel {
                registers: settled(
                    m.lines,
                    m.registers,
                    dst,
                    counted(m.lines, dst, m.registers[src]),
                ),
                ..m
            },
            finished(message(dst, m.registers[src])),
        ),
{
    let word = m.registers[src];
    let result = settled(m.lines, m.registers, dst, counted(m.lines, dst, word));
    if src < dst {
        lemma_transfer_forward(m, src, dst, input);
        lemma_sweep_when_done(
            MachineModel { registers: result, ..m },
            finished(message(dst, word)),
            input,
        );
    } else {
        lemma_transfer_backward_first(m, src, dst, input);
        let waited = settled(m.lines, m.registers, dst, m.registers[dst]);
        let driven = MachineModel { registers: waited, bus: Some(word), ..m };
        lemma_latecomer_latches(driven, dst, word, input);
        assert(waited.update(dst, counted(m.lines, dst, word)) =~= result);
    }
}

/// A register that should give its word to itself waits for ever: its
/// In comes before its Out and finds the bus empty.
pub proof fn lemma_self_transfer_stalls(m: MachineModel, r: int, input: Option<u16>)
    requires
        ready(m),
        0 <= r < REGISTERS_NUM,
        m.lines.len() == CONTROL_CABLES_SIZE,
        m.lines[reg_in(r as usize) as int],
        forall|k: int| 0 <= k < REGISTERS_NUM && k != r ==> !uses_bus(m.lines, k),
        !m.lines[1],
        !m.lines[2],
        !m.lines[3],
        !m.lines[7],
    ensures
        rounds(m, input).1.fault is None,
        !all_done(rounds(m, input).1.done),
        rounds(m, input).1.output is None,
        rounds(m, input).1.asked is None,
{
    let fresh = fresh_progress();
    lemma_ram_idle(m, input);
    let p0 = marked(fresh, 0);
    lemma_round_of_one(m, p0, r);
    let before = MachineModel { registers: counted_registers(m.lines, m.registers, 0, r), ..m };
    let pb = marked_range(p0, 0, r);
    assert(visit_register(before, pb, r) == (before, pb));
    let waited = MachineModel {
        registers: counted_registers(m.lines, before.registers, r + 1, 8),
        ..before
    };
    let p8 = marked_range(pb, r + 1, 8);
    assert(visit_registers(m, p0, 8) == (waited, p8));
    lemma_alu_idle(waited, p8);
    let p9 = marked(p8, 9);
    assert(sweep(m, fresh, input) == (waited, p9));
    assert(visit_ram(waited, p9, input) == (waited, p9));
    lemma_round_of_latecomer(waited, p9, r);
    assert(visit_register(waited, p9, r) == (waited, p9));
    assert(visit_alu(waited, p9) == (waited, p9));
    assert(!p9.done[r + 1]);
}

/// Whether exactly the lines `a`, `b`, `c` and `d` are asserted. A number
/// that is no index of a line stands for no line.
pub open spec fn only(lines: Seq<bool>, a: int, b: int, c: int, d: int) -> bool {
    &&& lines.len() == CONTROL_CABLES_SIZE
    &&& forall|i: int|
        0 <= i < CONTROL_CABLES_SIZE ==> (#[trigger] lines[i] <==> (i == a || i == b || i == c || i
            == d))
}

/// Whether `i` is the index of a control line other than `Halt`.
pub open spec fn plain_line(i: int) -> bool {
    0 < i < CONTROL_CABLES_SIZE
}

/// A microstep of one line asserts that line.
pub proof fn lemma_step_of_one(step: Seq<usize>, a: int)
    requires
        step == seq![a as usize],
        plain_line(a),
    ensures
        lines_valid(step),
        !step.contains(0),
        only(asserted(step), a, -1, -1, -1),
{
    lemma_asserted(step);
    assert(step.len() == 1 && step[0] == a);
}

/// A microstep of two lines asserts those lines.
pub proof fn lemma_step_of_two(step: Seq<usize>, a: int, b: int)
    requires
        step == seq![a as usize, b as usize],
        plain_line(a),
        plain_line(b),
    ensures
        lines_valid(step),
        !step.contains(0),
        only(asserted(step), a, b, -1, -1),
{
    lemma_asserted(step);
    assert(step.len() == 2 && step[0] == a && step[1] == b);
}

/// A microstep of three lines asserts those lines.
pub proof fn lemma_step_of_three(step: Seq<usize>, a: int, b: int, c: int)
    requires
        step == seq![a as usize, b as usize, c as usize],
        plain_line(a),
        plain_line(b),
        plain_line(c),
    ensures
        lines_valid(step),
        !step.contains(0),
        only(asserted(step), a, b, c, -1),
{
    lemma_asserted(step);
    assert(step.len() == 3 && step[0] == a && step[1] == b && step[2] == c);
}

/// A microstep of four lines asserts those lines.
pub proof fn lemma_step_of_four(step: Seq<usize>, a: int, b: int, c: int, d: int)
    requires
        step == seq![a as usize, b as usize, c as usize, d as usize],
        plain_line(a),
        plain_line(b),
        plain_line(c),
        plain_line(d),
    ensures
        lines_valid(step),
        !step.contains(0),
        only(asserted(step), a, b, c, d),
{
    lemma_asserted(step);
    assert(step.len() == 4 && step[0] == a && step[1] == b && step[2] == c && step[3] == d);
}

/// The microstep under the pointer.
pub open spec fn current(m: MachineModel) -> Seq<usize> {
    m.control.microcodes[m.control.counter as int]
}

/// The result of a microstep that advanced without output or input.
pub open spec fn quiet(machine: MachineModel) -> Stepped {
    Stepped { machine, outcome: StepOutcome::Advanced, output: None, asked: None }
}

/// A microstep `{src.Out, dst.In}` between two registers moves the word.
pub proof fn lemma_transfer_step(m: MachineModel, src: int, dst: int, input: Option<u16>)
    requires
        ready(m),
        at_step(m),
        0 <= src < REGISTERS_NUM,
        0 <= dst < REGISTERS_NUM,
        src != dst,
        only(asserted(current(m)), reg_out(src as usize) as int, reg_in(dst as usize) as int, -1, -1),
    ensures
        microstep_model(m, input) == quiet(
            advanced(
                heard(
                    MachineModel {
                        registers: m.registers.update(dst, m.registers[src]),
                        ..opened(m)
                    },
                    dst,
                    m.registers[src],
                ),
            ),
        ),
{
    let o = opened(m);
    let word = m.registers[src];
    lemma_microstep(m, input);
    lemma_transfer_rounds(o, src, dst, input);
    assert(settled(o.lines, m.registers, dst, counted(o.lines, dst, word)) =~= m.registers.update(
        dst,
        word,
    ));
    lemma_drain_message(
        MachineModel { registers: m.registers.update(dst, word), ..o },
        dst,
        word,
    );
    assert(all_done(finished(message(dst, word)).done));
}

/// A microstep `{r.In, r.Out}` on one register stalls the machine.
pub proof fn lemma_self_transfer_step(m: MachineModel, r: int, input: Option<u16>)
    requires
        ready(m),
        at_step(m),
        0 <= r < REGISTERS_NUM,
        only(asserted(current(m)), reg_out(r as usize) as int, reg_in(r as usize) as int, -1, -1),
    ensures
        microstep_model(m, input).outcome == StepOutcome::Stalled,
        microstep_model(m, input).output is None,
        microstep_model(m, input).asked is None,
{
    lemma_microstep(m, input);
    lemma_self_transfer_stalls(opened(m), r, input);
}

/// A microstep `{r.Out, MemoryAddressIn}`, with or without `MemoryIsIO`,
/// gives the word of the register to the RAM as an address.
pub proof fn lemma_address_step(m: MachineModel, r: int, io: bool, input: Option<u16>)
    requires
        ready(m),
        at_step(m),
        0 <= r < REGISTERS_NUM,
        only(
            asserted(current(m)),
            reg_out(r as usize) as int,
            1,
            if io {
                4
            } else {
                -1
            },
            -1,
        ),
    ensures
        microstep_model(m, input) == quiet(
            advanced(MachineModel { ram: addressed(m.ram, m.registers[r], io), ..opened(m) }),
        ),
{
    let o = opened(m);
    lemma_microstep(m, input);
    lemma_address_rounds(o, r, input);
    assert(all_counted(o.lines, m.registers) =~= m.registers);
    lemma_drain_message(MachineModel { ram: addressed(m.ram, m.registers[r], io), ..o }, 0, 0);
    assert(all_done(finished(seq![]).done));
}

/// The registers after the stack pointer has counted down, where the
/// microstep asks for it.
pub open spec fn stack_pushed(registers: Seq<u16>, push: bool) -> Seq<u16> {
    if push {
        registers.update(6, wrapping(registers[6], -1))
    } else {
        registers
    }
}

/// A microstep `{r.Out, RamIn}`, with or without `MemoryIsIO` and with or
/// without `SP.Dec`, gives the word of the register to the RAM as data:
/// the RAM stores it in the cell that MAR names, or sends it to the port
/// that MAR names. The stack pointer counts down after the word is out.
pub proof fn lemma_store_step(m: MachineModel, r: int, io: bool, push: bool, input: Option<u16>)
    requires
        ready(m),
        at_step(m),
        0 <= r < REGISTERS_NUM,
        only(
            asserted(current(m)),
            reg_out(r as usize) as int,
            2,
            if io {
                4
            } else {
                -1
            },
            if push {
                38
            } else {
                -1
            },
        ),
    ensures
        microstep_model(m, input) == (Stepped {
            machine: advanced(
                MachineModel {
                    registers: stack_pushed(m.registers, push),
                    ram: stored(m.ram, m.registers[r], io),
                    ..opened(m)
                },
            ),
            outcome: StepOutcome::Advanced,
            output: sent(m.ram, m.registers[r], io),
            asked: None,
        }),
{
    let o = opened(m);
    lemma_microstep(m, input);
    lemma_store_rounds(o, r, input);
    assert(all_counted(o.lines, m.registers) =~= stack_pushed(m.registers, push));
    lemma_drain_message(
        MachineModel {
            registers: stack_pushed(m.registers, push),
            ram: stored(m.ram, m.registers[r], io),
            ..o
        },
        0,
        0,
    );
    assert(all_done(finished(seq![]).done));
}

/// The registers after the program counter has counted up, where the
/// microstep asks for it.
pub open spec fn stepped_on(registers: Seq<u16>, step: bool) -> Seq<u16> {
    if step {
        registers.update(5, wrapping(registers[5], 1))
    } else {
        registers
    }
}

/// A microstep `{r.In, RamOut}`, with or without `PC.Inc` for a register
/// other than the program counter, gives the cell that MAR names to the
/// register.
pub proof fn lemma_load_step(m: MachineModel, r: int, step: bool, input: Option<u16>)
    requires
        ready(m),
        at_step(m),
        0 <= r < REGISTERS_NUM,
        step ==> r != 5,
        only(
            asserted(current(m)),
            reg_in(r as usize) as int,
            3,
            if step {
                33
            } else {
                -1
            },
            -1,
        ),
    ensures
        microstep_model(m, input) == quiet(
            advanced(
                heard(
                    MachineModel {
                        registers: stepped_on(m.registers, step).update(
                            r,
                            m.ram.memory[m.ram.mar as int],
                        ),
                        ram: RamModel { mdr: m.ram.memory[m.ram.mar as int], ..m.ram },
                        ..opened(m)
                    },
                    r,
                    m.ram.memory[m.ram.mar as int],
                ),
            ),
        ),
{
    let o = opened(m);
    let word = m.ram.memory[m.ram.mar as int];
    lemma_microstep(m, input);
    lemma_load_rounds(o, r, input);
    assert(settled(o.lines, m.registers, r, counted(o.lines, r, word)) =~= stepped_on(
        m.registers,
        step,
    ).update(r, word));
    lemma_drain_message(
        MachineModel {
            registers: stepped_on(m.registers, step).update(r, word),
            ram: RamModel { mdr: word, ..m.ram },
            ..o
        },
        r,
        word,
    );
    assert(all_done(finished(message(r, word)).done));
}

/// A microstep `{MemoryIsIO, r.In, RamOut}` gives the answer of the input
/// channel to the register, where the channel has one. The channel is
/// asked for the port that MAR names.
pub proof fn lemma_input_step(m: MachineModel, r: int, word: u16)
    requires
        ready(m),
        at_step(m),
        0 <= r < REGISTERS_NUM,
        only(asserted(current(m)), 4, reg_in(r as usize) as int, 3, -1),
    ensures
        microstep_model(m, Some(word)) == (Stepped {
            machine: advanced(
                heard(MachineModel { registers: m.registers.update(r, word), ..opened(m) }, r, word),
            ),
            outcome: StepOutcome::Advanced,
            output: None,
            asked: Some(m.ram.mar),
        }),
{
    let o = opened(m);
    lemma_microstep(m, Some(word));
    lemma_input_rounds(o, r, word);
    assert(settled(o.lines, m.registers, r, counted(o.lines, r, word)) =~= m.registers.update(
        r,
        word,
    ));
    lemma_drain_message(MachineModel { registers: m.registers.update(r, word), ..o }, r, word);
    assert(all_done(finished(message(r, word)).done));
}

/// A microstep `{MemoryIsIO, r.In, RamOut}` stalls the machine where the
/// input channel has no answer.
pub proof fn lemma_silent_input_step(m: MachineModel, r: int)
    requires
        ready(m),
        at_step(m),
        0 <= r < REGISTERS_NUM,
        only(asserted(current(m)), 4, reg_in(r as usize) as int, 3, -1),
    ensures
        microstep_model(m, None).outcome == StepOutcome::Stalled,
        microstep_model(m, None).output is None,
        microstep_model(m, None).asked == Some(m.ram.mar),
{
    lemma_microstep(m, None);
    lemma_input_stalls(opened(m), r);
}

/// A microstep `{AluOut, r.In}` with none, one or both of the mode lines
/// gives the result of the ALU to the register, unless it asks for a
/// division by zero.
pub proof fn lemma_alu_step(
    m: MachineModel,
    r: int,
    add_mul: bool,
    sub_div: bool,
    input: Option<u16>,
)
    requires
        ready(m),
        at_step(m),
        0 <= r < REGISTERS_NUM,
        !(add_mul && sub_div && m.alu.b == 0),
        only(
            asserted(current(m)),
            7,
            reg_in(r as usize) as int,
            if add_mul {
                5
            } else {
                -1
            },
            if sub_div {
                6
            } else {
                -1
            },
        ),
    ensures
        microstep_model(m, input) == quiet(
            advanced(
                heard(
                    MachineModel {
                        registers: m.registers.update(
                            r,
                            alu_result(m.alu.a, m.alu.b, add_mul, sub_div),
                        ),
                        ..opened(m)
                    },
                    r,
                    alu_result(m.alu.a, m.alu.b, add_mul, sub_div),
                ),
            ),
        ),
{
    let o = opened(m);
    let word = alu_result(m.alu.a, m.alu.b, add_mul, sub_div);
    lemma_microstep(m, input);
    lemma_alu_rounds(o, r, input);
    assert(settled(o.lines, m.registers, r, counted(o.lines, r, word)) =~= m.registers.update(
        r,
        word,
    ));
    lemma_drain_message(MachineModel { registers: m.registers.update(r, word), ..o }, r, word);
    assert(all_done(finished(message(r, word)).done));
}

/// A microstep that asks the ALU for a division while latch B holds zero
/// is a fault.
pub proof fn lemma_division_step(m: MachineModel, input: Option<u16>)
    requires
        ready(m),
        at_step(m),
        m.alu.b == 0,
        !asserted(current(m))[2],
        asserted(current(m))[5],
        asserted(current(m))[6],
        asserted(current(m))[7],
    ensures
        microstep_model(m, input).outcome == StepOutcome::Faulted(Fault::DivisionByZero),
        microstep_model(m, input).output is None,
{
    lemma_microstep(m, input);
    lemma_asserted(current(m));
    lemma_division_faults(opened(m), input);
}

/// A microstep `{r.Inc}` or `{r.Dec}` makes the register count by one.
pub proof fn lemma_count_step(m: MachineModel, r: int, up: bool, input: Option<u16>)
    requires
        ready(m),
        at_step(m),
        0 <= r < REGISTERS_NUM,
        only(
            asserted(current(m)),
            if up {
                reg_inc(r as usize) as int
            } else {
                reg_dec(r as usize) as int
            },
            -1,
            -1,
            -1,
        ),
    ensures
        microstep_model(m, input) == quiet(
            advanced(
                MachineModel {
                    registers: m.registers.update(
                        r,
                        wrapping(
                            m.registers[r],
                            if up {
                                1
                            } else {
                                -1
                            },
                        ),
                    ),
                    ..opened(m)
                },
            ),
        ),
{
    let o = opened(m);
    lemma_microstep(m, input);
    lemma_counting_rounds(o, input);
    let after = m.registers.update(
        r,
        wrapping(
            m.registers[r],
            if up {
                1
            } else {
                -1
            },
        ),
    );
    assert(all_counted(o.lines, m.registers) =~= after);
    lemma_drain_message(MachineModel { registers: after, ..o }, 0, 0);
    assert(all_done(finished(seq![]).done));
}

} // verus!
