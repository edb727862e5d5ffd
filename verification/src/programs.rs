//! Small programs, run from switch-on to halt.

use vstd::prelude::*;
use crate::bits::bit_of;
use crate::cpu_component::{alu_result, lemma_flags_follow_latches, wrapping, RAM_SIZE};
use crate::instructions::{
    assign, ended, execute, execute_all, execute_program, fetched, initial_cpu,
    lemma_execute_program, perform, went_on, Cpu, Performed,
};
use crate::machine::{
    emission_of, initial_machine, microstep_model, run_model, Emission, MachineModel, StepOutcome,
};
use crate::microcodes::{dest_of, opcode_of, source_of, INSTRUCTION};

verus! {

/// A run that has come to an end is not changed by a higher limit.
pub proof fn lemma_run_ended(m: MachineModel, input: Option<u16>, n: nat, limit: nat)
    requires
        run_model(m, input, n).outcome != StepOutcome::Advanced,
        n <= limit,
    ensures
        run_model(m, input, limit) == run_model(m, input, n),
    decreases n,
{
    if n > 0 {
        let stepped = microstep_model(m, input);
        if stepped.outcome == StepOutcome::Advanced {
            lemma_run_ended(stepped.machine, input, (n - 1) as nat, (limit - 1) as nat);
        }
    }
}

/// A program whose first word is a halt instruction halts in the third
/// microstep, after the two of the first fetch, with the program counter
/// at one. It puts nothing out.
pub proof fn lemma_halt_at_once(memory: Seq<u16>, input: Option<u16>, limit: nat)
    requires
        memory.len() == RAM_SIZE,
        opcode_of(memory[0] as u32) == INSTRUCTION::HLT.spec_code(),
        limit >= 3,
    ensures
        run_model(initial_machine(memory), input, limit).outcome == StepOutcome::Halted,
        run_model(initial_machine(memory), input, limit).microsteps == 3,
        run_model(initial_machine(memory), input, limit).outputs == Seq::<(u16, u16)>::empty(),
        run_model(initial_machine(memory), input, limit).machine.registers[5] == 1,
{
    let m = initial_machine(memory);
    lemma_execute_program(memory, input, 1);
    reveal_with_fuel(execute_all, 2);
    let booted = fetched(initial_cpu(memory));
    assert(booted.registers[7] == memory[0]);
    lemma_hlt(booted, input);
    assert(execute_program(memory, input, 1).microsteps == 3);
    lemma_run_ended(m, input, 3, limit);
}

/// The instruction word in the instruction register.
pub open spec fn word(c: Cpu) -> u32 {
    c.registers[7] as u32
}

/// `HLT` halts.
pub proof fn lemma_hlt(c: Cpu, input: Option<u16>)
    requires
        opcode_of(word(c)) == 0,
    ensures
        execute(c, input) == ended(c, StepOutcome::Halted, 1),
{
    reveal(perform);
}

/// The instruction that went on, with the fetch of the next.
pub open spec fn then_fetched(cpu: Cpu, microsteps: nat) -> Performed {
    went_on(fetched(cpu), microsteps)
}

/// `LDCNST dst` with a destination other than the program counter.
pub proof fn lemma_ldcnst(c: Cpu, input: Option<u16>)
    requires
        opcode_of(word(c)) == 24,
        dest_of(word(c)) < 8,
        dest_of(word(c)) != 5,
    ensures
        execute(c, input) == then_fetched(
            assign(
                Cpu { registers: c.registers.update(5, wrapping(c.registers[5], 1)), ..c },
                dest_of(word(c)) as int,
                c.memory[c.registers[5] as int],
            ),
            4,
        ),
{
    reveal(perform);
}

/// `MOV src dst` between two different registers.
pub proof fn lemma_mov(c: Cpu, input: Option<u16>)
    requires
        opcode_of(word(c)) == 1,
        source_of(word(c)) < 8,
        dest_of(word(c)) < 8,
        source_of(word(c)) != dest_of(word(c)),
    ensures
        execute(c, input) == then_fetched(
            assign(c, dest_of(word(c)) as int, c.registers[source_of(word(c)) as int]),
            3,
        ),
{
    reveal(perform);
}

/// `ADD dst`.
pub proof fn lemma_add(c: Cpu, input: Option<u16>)
    requires
        opcode_of(word(c)) == 2,
        dest_of(word(c)) < 8,
    ensures
        execute(c, input) == then_fetched(
            assign(c, dest_of(word(c)) as int, alu_result(c.alu.a, c.alu.b, false, false)),
            3,
        ),
{
    reveal(perform);
}

/// `STORE src dst`.
pub proof fn lemma_store(c: Cpu, input: Option<u16>)
    requires
        opcode_of(word(c)) == 23,
        source_of(word(c)) < 8,
        dest_of(word(c)) < 8,
    ensures
        execute(c, input) == then_fetched(
            Cpu {
                memory: c.memory.update(
                    c.registers[dest_of(word(c)) as int] as int,
                    c.registers[source_of(word(c)) as int],
                ),
                ..c
            },
            4,
        ),
{
    reveal(perform);
}

/// `LOAD src dst`.
pub proof fn lemma_load(c: Cpu, input: Option<u16>)
    requires
        opcode_of(word(c)) == 22,
        source_of(word(c)) < 8,
        dest_of(word(c)) < 8,
    ensures
        execute(c, input) == then_fetched(
            assign(
                c,
                dest_of(word(c)) as int,
                c.memory[c.registers[source_of(word(c)) as int] as int],
            ),
            4,
        ),
{
    reveal(perform);
}

/// `OUT src dst`.
pub proof fn lemma_out(c: Cpu, input: Option<u16>)
    requires
        opcode_of(word(c)) == 15,
        source_of(word(c)) < 8,
        dest_of(word(c)) < 8,
    ensures
        execute(c, input) == (Performed {
            cpu: fetched(c),
            outcome: StepOutcome::Advanced,
            output: Some(
                (c.registers[source_of(word(c)) as int], c.registers[dest_of(word(c)) as int]),
            ),
            microsteps: 4,
        }),
{
    reveal(perform);
}

/// The program `ldcnst a 42`, `hlt` halts after seven microsteps with 42
/// in register A and the program counter at three.
pub proof fn lemma_load_constant_and_halt(memory: Seq<u16>, input: Option<u16>, limit: nat)
    requires
        memory.len() == RAM_SIZE,
        memory[0] == 0x6000,
        memory[1] == 42,
        memory[2] == 0,
        limit >= 7,
    ensures
        run_model(initial_machine(memory), input, limit).outcome == StepOutcome::Halted,
        run_model(initial_machine(memory), input, limit).microsteps == 7,
        run_model(initial_machine(memory), input, limit).outputs == Seq::<(u16, u16)>::empty(),
        run_model(initial_machine(memory), input, limit).machine.registers[0] == 42,
        run_model(initial_machine(memory), input, limit).machine.registers[5] == 3,
{
    let m = initial_machine(memory);
    lemma_execute_program(memory, input, 2);
    reveal_with_fuel(execute_all, 3);
    let booted = fetched(initial_cpu(memory));
    assert(booted.registers[7] == 0x6000 && booted.registers[5] == 1);
    assert(opcode_of(0x6000) == 24 && dest_of(0x6000) == 0);
    lemma_ldcnst(booted, input);
    let loaded = execute(booted, input).cpu;
    assert(loaded.registers[0] == 42 && loaded.registers[5] == 3 && loaded.registers[7] == 0);
    assert(opcode_of(0) == 0);
    lemma_hlt(loaded, input);
    assert(execute_program(memory, input, 2).outputs =~= seq![]);
    lemma_run_ended(m, input, 7, limit);
}

/// `JE dst`, taken: the Equal flag is set.
pub proof fn lemma_je_taken(c: Cpu, input: Option<u16>)
    requires
        opcode_of(word(c)) == 7,
        dest_of(word(c)) < 8,
        dest_of(word(c)) != 5,
        bit_of(c.alu.flags as nat, 0),
    ensures
        execute(c, input) == then_fetched(assign(c, 5, c.registers[dest_of(word(c)) as int]), 3),
{
    reveal(perform);
}

/// After a fetch the Equal flag says whether the latches hold the same
/// word.
pub proof fn lemma_fetched_flags(c: Cpu)
    ensures
        fetched(c).alu.a == c.alu.a,
        fetched(c).alu.b == c.alu.b,
        bit_of(fetched(c).alu.flags as nat, 0) == (c.alu.a == c.alu.b),
        bit_of(fetched(c).alu.flags as nat, 1) == (c.alu.a > c.alu.b),
{
    lemma_flags_follow_latches(c.alu.flags, c.alu.a, c.alu.b);
}

/// The program `ldcnst a 5`, `ldcnst b 7`, `add a b`, `hlt` halts with
/// the sum in register B, the destination of the addition.
pub proof fn lemma_addition(memory: Seq<u16>, input: Option<u16>, limit: nat)
    requires
        memory.len() == RAM_SIZE,
        memory[0] == 0x6000,
        memory[1] == 5,
        memory[2] == 0x6001,
        memory[3] == 7,
        memory[4] == 0x0801,
        memory[5] == 0,
        limit >= 14,
    ensures
        run_model(initial_machine(memory), input, limit).outcome == StepOutcome::Halted,
        run_model(initial_machine(memory), input, limit).microsteps == 14,
        run_model(initial_machine(memory), input, limit).machine.registers[1] == 12,
        run_model(initial_machine(memory), input, limit).machine.registers[0] == 5,
{
    let m = initial_machine(memory);
    lemma_execute_program(memory, input, 4);
    reveal_with_fuel(execute_all, 5);
    let c0 = fetched(initial_cpu(memory));
    assert(c0.registers[7] == 0x6000 && c0.registers[5] == 1 && c0.memory == memory);
    assert(opcode_of(0x6000) == 24 && dest_of(0x6000) == 0);
    lemma_ldcnst(c0, input);
    let c1 = execute(c0, input).cpu;
    assert(c1.registers[7] == 0x6001 && c1.registers[5] == 3 && c1.memory == memory);
    assert(c1.registers[0] == 5 && c1.alu.a == 5);
    assert(opcode_of(0x6001) == 24 && dest_of(0x6001) == 1);
    lemma_ldcnst(c1, input);
    let c2 = execute(c1, input).cpu;
    assert(c2.registers[7] == 0x0801 && c2.registers[5] == 5 && c2.memory == memory);
    assert(c2.registers[0] == 5 && c2.registers[1] == 7 && c2.alu.a == 5 && c2.alu.b == 7);
    assert(opcode_of(0x0801) == 2 && dest_of(0x0801) == 1);
    lemma_add(c2, input);
    let c3 = execute(c2, input).cpu;
    assert(alu_result(5, 7, false, false) == 12);
    assert(c3.registers[7] == 0 && c3.registers[1] == 12 && c3.registers[0] == 5);
    assert(opcode_of(0) == 0);
    lemma_hlt(c3, input);
    lemma_run_ended(m, input, 14, limit);
}

/// The program `ldcnst a 99`, `ldcnst b 100`, `store a b`, `ldcnst c 100`,
/// `load c d`, `hlt` halts with 99 in cell 100 and in register D.
pub proof fn lemma_store_and_load(memory: Seq<u16>, input: Option<u16>, limit: nat)
    requires
        memory.len() == RAM_SIZE,
        memory[0] == 0x6000,
        memory[1] == 99,
        memory[2] == 0x6001,
        memory[3] == 100,
        memory[4] == 0x5c01,
        memory[5] == 0x6002,
        memory[6] == 100,
        memory[7] == 0x5843,
        memory[8] == 0,
        limit >= 23,
    ensures
        run_model(initial_machine(memory), input, limit).outcome == StepOutcome::Halted,
        run_model(initial_machine(memory), input, limit).microsteps == 23,
        run_model(initial_machine(memory), input, limit).machine.ram.memory[100] == 99,
        run_model(initial_machine(memory), input, limit).machine.registers[3] == 99,
{
    let m = initial_machine(memory);
    lemma_execute_program(memory, input, 6);
    reveal_with_fuel(execute_all, 7);
    let c0 = fetched(initial_cpu(memory));
    assert(c0.registers[7] == 0x6000 && c0.registers[5] == 1 && c0.memory == memory);
    assert(opcode_of(0x6000) == 24 && dest_of(0x6000) == 0);
    lemma_ldcnst(c0, input);
    let c1 = execute(c0, input).cpu;
    assert(c1.registers[7] == 0x6001 && c1.registers[5] == 3 && c1.memory == memory);
    assert(c1.registers[0] == 99);
    assert(opcode_of(0x6001) == 24 && dest_of(0x6001) == 1);
    lemma_ldcnst(c1, input);
    let c2 = execute(c1, input).cpu;
    assert(c2.registers[7] == 0x5c01 && c2.registers[5] == 5 && c2.memory == memory);
    assert(c2.registers[0] == 99 && c2.registers[1] == 100);
    assert(opcode_of(0x5c01) == 23 && source_of(0x5c01) == 0 && dest_of(0x5c01) == 1);
    lemma_store(c2, input);
    let c3 = execute(c2, input).cpu;
    let written = memory.update(100, 99);
    assert(c3.memory == written);
    assert(c3.registers[7] == 0x6002 && c3.registers[5] == 6);
    assert(opcode_of(0x6002) == 24 && dest_of(0x6002) == 2);
    lemma_ldcnst(c3, input);
    let c4 = execute(c3, input).cpu;
    assert(c4.registers[7] == 0x5843 && c4.registers[5] == 8 && c4.memory == written);
    assert(c4.registers[2] == 100);
    assert(opcode_of(0x5843) == 22 && source_of(0x5843) == 2 && dest_of(0x5843) == 3);
    lemma_load(c4, input);
    let c5 = execute(c4, input).cpu;
    assert(c5.registers[7] == 0 && c5.registers[3] == 99 && c5.memory == written);
    assert(opcode_of(0) == 0);
    lemma_hlt(c5, input);
    lemma_run_ended(m, input, 23, limit);
}

/// In the same program with `load d c` in place of `load c d`, register D
/// is the source: it keeps its zero, and register C takes the word of
/// cell zero, the first word of the program.
pub proof fn lemma_load_reads_through_source(memory: Seq<u16>, input: Option<u16>, limit: nat)
    requires
        memory.len() == RAM_SIZE,
        memory[0] == 0x6000,
        memory[1] == 99,
        memory[2] == 0x6001,
        memory[3] == 100,
        memory[4] == 0x5c01,
        memory[5] == 0x6002,
        memory[6] == 100,
        memory[7] == 0x5862,
        memory[8] == 0,
        limit >= 23,
    ensures
        run_model(initial_machine(memory), input, limit).outcome == StepOutcome::Halted,
        run_model(initial_machine(memory), input, limit).machine.ram.memory[100] == 99,
        run_model(initial_machine(memory), input, limit).machine.registers[3] == 0,
        run_model(initial_machine(memory), input, limit).machine.registers[2] == 0x6000,
{
    let m = initial_machine(memory);
    lemma_execute_program(memory, input, 6);
    reveal_with_fuel(execute_all, 7);
    let c0 = fetched(initial_cpu(memory));
    assert(c0.registers[7] == 0x6000 && c0.registers[5] == 1 && c0.memory == memory);
    assert(c0.registers[3] == 0);
    assert(opcode_of(0x6000) == 24 && dest_of(0x6000) == 0);
    lemma_ldcnst(c0, input);
    let c1 = execute(c0, input).cpu;
    assert(c1.registers[7] == 0x6001 && c1.registers[5] == 3 && c1.memory == memory);
    assert(c1.registers[0] == 99 && c1.registers[3] == 0);
    assert(opcode_of(0x6001) == 24 && dest_of(0x6001) == 1);
    lemma_ldcnst(c1, input);
    let c2 = execute(c1, input).cpu;
    assert(c2.registers[7] == 0x5c01 && c2.registers[5] == 5 && c2.memory == memory);
    assert(c2.registers[0] == 99 && c2.registers[1] == 100 && c2.registers[3] == 0);
    assert(opcode_of(0x5c01) == 23 && source_of(0x5c01) == 0 && dest_of(0x5c01) == 1);
    lemma_store(c2, input);
    let c3 = execute(c2, input).cpu;
    let written = memory.update(100, 99);
    assert(c3.memory == written);
    assert(c3.registers[7] == 0x6002 && c3.registers[5] == 6 && c3.registers[3] == 0);
    assert(opcode_of(0x6002) == 24 && dest_of(0x6002) == 2);
    lemma_ldcnst(c3, input);
    let c4 = execute(c3, input).cpu;
    assert(c4.registers[7] == 0x5862 && c4.registers[5] == 8 && c4.memory == written);
    assert(c4.registers[3] == 0);
    assert(opcode_of(0x5862) == 22 && source_of(0x5862) == 3 && dest_of(0x5862) == 2);
    lemma_load(c4, input);
    let c5 = execute(c4, input).cpu;
    assert(c5.registers[7] == 0 && c5.registers[3] == 0 && c5.registers[2] == 0x6000);
    assert(c5.memory == written);
    assert(opcode_of(0) == 0);
    lemma_hlt(c5, input);
    lemma_run_ended(m, input, 23, limit);
}

/// The program `ldcnst a 3`, `ldcnst b 3`, `mov a b`, `ldcnst c end`,
/// `je c`, `ldcnst d 1`, `end: hlt` takes the jump, for the latches are
/// equal, and halts with register D still at zero.
pub proof fn lemma_conditional_jump(memory: Seq<u16>, input: Option<u16>, limit: nat)
    requires
        memory.len() == RAM_SIZE,
        memory[0] == 0x6000,
        memory[1] == 3,
        memory[2] == 0x6001,
        memory[3] == 3,
        memory[4] == 0x0401,
        memory[5] == 0x6002,
        memory[6] == 10,
        memory[7] == 0x1c02,
        memory[8] == 0x6003,
        memory[9] == 1,
        memory[10] == 0,
        limit >= 21,
    ensures
        run_model(initial_machine(memory), input, limit).outcome == StepOutcome::Halted,
        run_model(initial_machine(memory), input, limit).microsteps == 21,
        run_model(initial_machine(memory), input, limit).machine.registers[3] == 0,
        run_model(initial_machine(memory), input, limit).machine.registers[5] == 11,
{
    let m = initial_machine(memory);
    lemma_execute_program(memory, input, 6);
    reveal_with_fuel(execute_all, 7);
    let c0 = fetched(initial_cpu(memory));
    assert(c0.registers[7] == 0x6000 && c0.registers[5] == 1 && c0.memory == memory);
    assert(c0.registers[3] == 0);
    assert(opcode_of(0x6000) == 24 && dest_of(0x6000) == 0);
    lemma_ldcnst(c0, input);
    let c1 = execute(c0, input).cpu;
    assert(c1.registers[7] == 0x6001 && c1.registers[5] == 3 && c1.memory == memory);
    assert(c1.registers[0] == 3 && c1.alu.a == 3 && c1.registers[3] == 0);
    assert(opcode_of(0x6001) == 24 && dest_of(0x6001) == 1);
    lemma_ldcnst(c1, input);
    let c2 = execute(c1, input).cpu;
    assert(c2.registers[7] == 0x0401 && c2.registers[5] == 5 && c2.memory == memory);
    assert(c2.registers[0] == 3 && c2.alu.a == 3 && c2.alu.b == 3 && c2.registers[3] == 0);
    assert(opcode_of(0x0401) == 1 && source_of(0x0401) == 0 && dest_of(0x0401) == 1);
    lemma_mov(c2, input);
    let c3 = execute(c2, input).cpu;
    assert(c3.registers[7] == 0x6002 && c3.registers[5] == 6 && c3.memory == memory);
    assert(c3.alu.a == 3 && c3.alu.b == 3 && c3.registers[3] == 0);
    assert(opcode_of(0x6002) == 24 && dest_of(0x6002) == 2);
    lemma_ldcnst(c3, input);
    let c4 = execute(c3, input).cpu;
    let before_fetch = assign(
        Cpu { registers: c3.registers.update(5, wrapping(c3.registers[5], 1)), ..c3 },
        2,
        10,
    );
    assert(c4 == fetched(before_fetch));
    assert(before_fetch.alu.a == 3 && before_fetch.alu.b == 3);
    lemma_fetched_flags(before_fetch);
    assert(c4.registers[7] == 0x1c02 && c4.registers[5] == 8 && c4.memory == memory);
    assert(c4.registers[2] == 10 && c4.registers[3] == 0);
    assert(opcode_of(0x1c02) == 7 && dest_of(0x1c02) == 2);
    lemma_je_taken(c4, input);
    let c5 = execute(c4, input).cpu;
    assert(c5.registers[7] == 0 && c5.registers[5] == 11 && c5.registers[3] == 0);
    assert(opcode_of(0) == 0);
    lemma_hlt(c5, input);
    lemma_run_ended(m, input, 21, limit);
}

/// The program `ldcnst a 1`, `ldcnst b 65`, `out a b`, `hlt` sends the
/// word 65 to port 1 and nothing else, and the output channel makes the
/// character `A` of it.
pub proof fn lemma_character_output(memory: Seq<u16>, input: Option<u16>, limit: nat)
    requires
        memory.len() == RAM_SIZE,
        memory[0] == 0x6000,
        memory[1] == 1,
        memory[2] == 0x6001,
        memory[3] == 65,
        memory[4] == 0x3c01,
        memory[5] == 0,
        limit >= 15,
    ensures
        run_model(initial_machine(memory), input, limit).outcome == StepOutcome::Halted,
        run_model(initial_machine(memory), input, limit).microsteps == 15,
        run_model(initial_machine(memory), input, limit).outputs == seq![(1u16, 65u16)],
        emission_of(1, 65) == Emission::Character(65),
{
    let m = initial_machine(memory);
    lemma_execute_program(memory, input, 4);
    reveal_with_fuel(execute_all, 5);
    let c0 = fetched(initial_cpu(memory));
    assert(c0.registers[7] == 0x6000 && c0.registers[5] == 1 && c0.memory == memory);
    assert(opcode_of(0x6000) == 24 && dest_of(0x6000) == 0);
    lemma_ldcnst(c0, input);
    let c1 = execute(c0, input).cpu;
    assert(c1.registers[7] == 0x6001 && c1.registers[5] == 3 && c1.memory == memory);
    assert(c1.registers[0] == 1);
    assert(opcode_of(0x6001) == 24 && dest_of(0x6001) == 1);
    lemma_ldcnst(c1, input);
    let c2 = execute(c1, input).cpu;
    assert(c2.registers[7] == 0x3c01 && c2.registers[5] == 5 && c2.memory == memory);
    assert(c2.registers[0] == 1 && c2.registers[1] == 65);
    assert(opcode_of(0x3c01) == 15 && source_of(0x3c01) == 0 && dest_of(0x3c01) == 1);
    lemma_out(c2, input);
    let c3 = execute(c2, input).cpu;
    assert(c3.registers[7] == 0);
    assert(opcode_of(0) == 0);
    lemma_hlt(c3, input);
    assert(execute_program(memory, input, 4).outputs =~= seq![(1u16, 65u16)]);
    lemma_run_ended(m, input, 15, limit);
}

} // verus!
