//! What the instructions do, as a program sees it, and the proof that the
//! microcode does just that.
//!
//! Between two instructions the control unit stands behind its microcode
//! list, the next instruction word is in the instruction register, and the
//! program counter points behind it. From there the machine decodes the
//! word, runs its microsteps and fetches the next word.
//!
//! Registers appear here by their codes: 5 is the program counter, 6 the
//! stack pointer and 7 the instruction register.

use vstd::prelude::*;
use crate::bits::bit_of;
use crate::control_cables::REGISTERS_NUM;
use crate::cpu_component::{
    alu_receive, alu_result, asserted, control_select, feeds_alu, lines_valid, reg_dec, reg_in,
    reg_inc, reg_out, wrapping, AluModel, ControlModel, Fault, EQUAL_BIT_NUM, GREATER_BIT_NUM,
    RAM_SIZE,
};
use crate::machine::{
    continued, initial_machine, initial_registers, microstep_model, output_seq, run_model,
    MachineModel, Ran, StepOutcome,
};
use crate::microcodes::{
    dest_of, fetch_steps, instruction_steps, jump_steps, microcode_steps, opcode_of, source_of,
    INSTRUCTION,
};
use crate::microsteps::{
    addressed, advanced, current, lemma_address_step, lemma_alu_step, lemma_count_step,
    lemma_division_step, lemma_input_step, lemma_load_step, lemma_self_transfer_step,
    lemma_silent_input_step, lemma_step_of_four, lemma_step_of_one, lemma_step_of_three,
    lemma_step_of_two, lemma_store_step, lemma_transfer_step, only, opened, quiet, ready,
};

verus! {

/// The machine as a program sees it: the registers, the latches and flags
/// of the ALU, and the memory.
pub struct Cpu {
    pub registers: Seq<u16>,
    pub alu: AluModel,
    pub memory: Seq<u16>,
}

/// What a program sees of a machine.
pub open spec fn cpu_of(m: MachineModel) -> Cpu {
    Cpu { registers: m.registers, alu: m.alu, memory: m.ram.memory }
}

/// Whether the machine stands between two instructions: its bus is free,
/// its control unit has used up its microcode list, and the control unit
/// holds the word of the instruction register.
pub open spec fn between_instructions(m: MachineModel) -> bool {
    &&& ready(m)
    &&& m.control.counter == m.control.microcodes.len()
    &&& m.control.ir == m.registers[7]
}

/// The machine once its control unit has made sure that its pointer
/// stands inside a list, decoding the instruction register where the list
/// was used up.
pub open spec fn selected(m: MachineModel) -> MachineModel {
    match control_select(m.control, m.alu.flags) {
        Ok(control) => MachineModel { control, ..m },
        Err(_) => m,
    }
}

/// A microstep begins with the selection of the microcode list, so it
/// makes no difference whether the selection has been made before.
pub proof fn lemma_select(m: MachineModel, input: Option<u16>)
    requires
        control_select(m.control, m.alu.flags) is Ok,
    ensures
        microstep_model(m, input) == microstep_model(selected(m), input),
        selected(m).control.counter < selected(m).control.microcodes.len() ==> control_select(
            selected(m).control,
            m.alu.flags,
        ) == Ok::<ControlModel, Fault>(selected(m).control),
{
    assert(fetch_steps().len() == 2);
}

/// Whether the fetch lies ahead: the two microsteps under and behind the
/// pointer are those of the fetch, and they end the list.
pub open spec fn at_fetch(m: MachineModel) -> bool {
    &&& m.control.counter + 2 == m.control.microcodes.len()
    &&& m.control.microcodes[m.control.counter as int] == fetch_steps()[0]
    &&& m.control.microcodes[m.control.counter as int + 1] == fetch_steps()[1]
}

/// A register takes a word, and the ALU hears of it where the register
/// feeds it: register A feeds latch A, register B feeds latch B, and with
/// every word it hears of the ALU brings the flags up to date.
pub open spec fn assign(c: Cpu, d: int, word: u16) -> Cpu {
    Cpu {
        registers: c.registers.update(d, word),
        alu: if feeds_alu(d as usize) {
            alu_receive(c.alu, d as usize, word)
        } else {
            c.alu
        },
        ..c
    }
}

/// The fetch: the word that the program counter points at goes into the
/// instruction register, and the program counter moves behind it.
pub open spec fn fetched(c: Cpu) -> Cpu {
    let word = c.memory[c.registers[5] as int];
    Cpu {
        registers: c.registers.update(5, wrapping(c.registers[5], 1)).update(7, word),
        alu: alu_receive(c.alu, 7, word),
        ..c
    }
}

/// A run of `n` microsteps followed by a run of `k` more is a run of
/// `n + k`, as long as the first did not come to an end.
pub proof fn lemma_run_split(m: MachineModel, input: Option<u16>, n: nat, k: nat)
    requires
        run_model(m, input, n).outcome == StepOutcome::Advanced,
        run_model(m, input, n).microsteps == n,
    ensures
        run_model(m, input, n + k) == continued(
            run_model(m, input, n).outputs,
            n,
            run_model(run_model(m, input, n).machine, input, k),
        ),
    decreases n,
{
    if n == 0 {
        let rest = run_model(m, input, k);
        assert(seq![] + rest.outputs =~= rest.outputs);
    } else {
        let stepped = microstep_model(m, input);
        if stepped.outcome == StepOutcome::Advanced {
            let rest = run_model(stepped.machine, input, (n - 1) as nat);
            lemma_run_split(stepped.machine, input, (n - 1) as nat, k);
            let tail = run_model(rest.machine, input, k);
            assert((output_seq(stepped.output) + rest.outputs) + tail.outputs =~= output_seq(
                stepped.output,
            ) + (rest.outputs + tail.outputs));
        }
    }
}

/// A run of one microstep is that microstep.
pub proof fn lemma_run_one(m: MachineModel, input: Option<u16>)
    ensures
        run_model(m, input, 1) == (Ran {
            machine: microstep_model(m, input).machine,
            outcome: microstep_model(m, input).outcome,
            microsteps: 1,
            outputs: output_seq(microstep_model(m, input).output),
        }),
{
    reveal_with_fuel(run_model, 2);
    let stepped = microstep_model(m, input);
    assert(output_seq(stepped.output) + seq![] =~= output_seq(stepped.output));
}

/// The fetch takes two microsteps and does to the machine what a program
/// sees as the fetch; the machine then stands between two instructions.
pub proof fn lemma_fetch(m: MachineModel, input: Option<u16>)
    requires
        ready(m),
        control_select(m.control, m.alu.flags) is Ok,
        at_fetch(selected(m)),
    ensures
        run_model(m, input, 2).outcome == StepOutcome::Advanced,
        run_model(m, input, 2).microsteps == 2,
        run_model(m, input, 2).outputs == Seq::<(u16, u16)>::empty(),
        between_instructions(run_model(m, input, 2).machine),
        cpu_of(run_model(m, input, 2).machine) == fetched(cpu_of(m)),
{
    let s = selected(m);
    lemma_select(m, input);
    let pc = m.registers[5];
    let word = m.ram.memory[pc as int];
    assert(fetch_steps()[0] == seq![reg_out(5), 1usize]);
    assert(fetch_steps()[1] == seq![3usize, reg_in(7), reg_inc(5)]);
    // first microstep: the program counter goes to the RAM as the address
    lemma_step_of_two(current(s), 32, 1);
    lemma_address_step(s, 5, false, input);
    let one = microstep_model(m, input);
    assert(one == quiet(advanced(MachineModel { ram: addressed(m.ram, pc, false), ..opened(s) })));
    // second microstep: the word comes back, the program counter moves on
    let a = one.machine;
    lemma_step_of_three(current(a), 3, 39, 33);
    assert(only(asserted(current(a)), 39, 3, 33, -1));
    lemma_load_step(a, 7, true, input);
    let two = microstep_model(a, input);
    lemma_run_one(m, input);
    lemma_run_one(a, input);
    lemma_run_split(m, input, 1, 1);
    assert(run_model(m, input, 2).outputs =~= seq![]);
    assert(two.machine.registers =~= fetched(cpu_of(m)).registers);
}

/// What became of an instruction, or of its own microsteps before the
/// fetch.
pub struct Performed {
    /// What the program sees afterwards.
    pub cpu: Cpu,
    /// How the last microstep ended.
    pub outcome: StepOutcome,
    /// The port and word sent to the output channel, if any.
    pub output: Option<(u16, u16)>,
    /// The number of microsteps that were begun.
    pub microsteps: nat,
}

/// The instruction went through in `microsteps` microsteps and left `cpu`.
pub open spec fn went_on(cpu: Cpu, microsteps: nat) -> Performed {
    Performed { cpu, outcome: StepOutcome::Advanced, output: None, microsteps }
}

/// The instruction came to an end in its microstep number `microsteps`.
pub open spec fn ended(cpu: Cpu, outcome: StepOutcome, microsteps: nat) -> Performed {
    Performed { cpu, outcome, output: None, microsteps }
}

/// The instruction names a register that does not exist: the microstep
/// number `microsteps`, which would use it, is a fault.
pub open spec fn no_register(cpu: Cpu, microsteps: nat) -> Performed {
    ended(cpu, StepOutcome::Faulted(Fault::InvalidLine), microsteps)
}

/// Whether a register field names a register.
pub open spec fn valid(r: usize) -> bool {
    r < REGISTERS_NUM
}

/// `MOV src dst`: the destination takes the word of the source. A move
/// of a register onto itself waits for ever.
pub open spec fn perform_mov(c: Cpu, s: usize, d: usize) -> Performed {
    if !valid(s) || !valid(d) {
        no_register(c, 1)
    } else if s == d {
        ended(c, StepOutcome::Stalled, 1)
    } else {
        went_on(assign(c, d as int, c.registers[s as int]), 1)
    }
}

/// `ADD`, `SUB`, `MUL`, `DIV dst`: the destination takes what the ALU
/// makes of its two latches. A division by zero is a fault.
pub open spec fn perform_arithmetic(c: Cpu, d: usize, add_mul: bool, sub_div: bool) -> Performed {
    if !valid(d) {
        no_register(c, 1)
    } else if add_mul && sub_div && c.alu.b == 0 {
        ended(c, StepOutcome::Faulted(Fault::DivisionByZero), 1)
    } else {
        went_on(assign(c, d as int, alu_result(c.alu.a, c.alu.b, add_mul, sub_div)), 1)
    }
}

/// `INC dst`, `DEC dst`: the destination counts by one. The ALU does not
/// hear of it.
pub open spec fn perform_count(c: Cpu, d: usize, delta: int) -> Performed {
    if !valid(d) {
        no_register(c, 1)
    } else {
        went_on(
            Cpu {
                registers: c.registers.update(d as int, wrapping(c.registers[d as int], delta)),
                ..c
            },
            1,
        )
    }
}

/// A jump to the address in `dst`: taken, the program counter takes the
/// word of the destination; not taken, nothing happens. A jump to the
/// address in the program counter waits for ever.
pub open spec fn perform_jump(c: Cpu, d: usize, taken: bool) -> Performed {
    if !taken {
        went_on(c, 0)
    } else if !valid(d) {
        no_register(c, 1)
    } else if d == 5 {
        ended(c, StepOutcome::Stalled, 1)
    } else {
        went_on(assign(c, 5, c.registers[d as int]), 1)
    }
}

/// The memory with `word` on top of the stack and the stack pointer one
/// cell further down.
pub open spec fn pushed(c: Cpu, word: u16) -> Cpu {
    Cpu {
        registers: c.registers.update(6, wrapping(c.registers[6], -1)),
        memory: c.memory.update(c.registers[6] as int, word),
        ..c
    }
}

/// `CALL dst`: the program counter goes onto the stack, then the program
/// counter takes the word of the destination.
pub open spec fn perform_call(c: Cpu, d: usize) -> Performed {
    if !valid(d) {
        no_register(c, 3)
    } else if d == 5 {
        ended(c, StepOutcome::Stalled, 3)
    } else {
        let saved = pushed(c, c.registers[5]);
        went_on(assign(saved, 5, saved.registers[d as int]), 3)
    }
}

/// `PUSH src`: the word of the source goes onto the stack.
pub open spec fn perform_push(c: Cpu, s: usize) -> Performed {
    if !valid(s) {
        no_register(c, 2)
    } else {
        went_on(pushed(c, c.registers[s as int]), 2)
    }
}

/// `POP dst`: the stack pointer moves one cell up, and the destination
/// takes the word it then points at.
pub open spec fn perform_pop(c: Cpu, d: usize) -> Performed {
    if !valid(d) {
        no_register(c, 3)
    } else {
        let top = wrapping(c.registers[6], 1);
        went_on(
            assign(Cpu { registers: c.registers.update(6, top), ..c }, d as int, c.memory[top as int]),
            3,
        )
    }
}

/// `OUT src dst`: the word of the destination goes to the port that the
/// source names.
pub open spec fn perform_out(c: Cpu, s: usize, d: usize) -> Performed {
    if !valid(s) {
        no_register(c, 1)
    } else if !valid(d) {
        no_register(c, 2)
    } else {
        Performed {
            cpu: c,
            outcome: StepOutcome::Advanced,
            output: Some((c.registers[s as int], c.registers[d as int])),
            microsteps: 2,
        }
    }
}

/// `IN src dst`: the destination takes the word that the port named by
/// the source has for it. Without such a word the machine waits for ever.
pub open spec fn perform_in(c: Cpu, s: usize, d: usize, input: Option<u16>) -> Performed {
    if !valid(s) {
        no_register(c, 1)
    } else if !valid(d) {
        no_register(c, 2)
    } else {
        match input {
            Some(word) => went_on(assign(c, d as int, word), 2),
            None => ended(c, StepOutcome::Stalled, 2),
        }
    }
}

/// `LOAD src dst`: the destination takes the word of the cell whose
/// address is in the source.
pub open spec fn perform_load(c: Cpu, s: usize, d: usize) -> Performed {
    if !valid(s) {
        no_register(c, 1)
    } else if !valid(d) {
        no_register(c, 2)
    } else {
        went_on(assign(c, d as int, c.memory[c.registers[s as int] as int]), 2)
    }
}

/// `STORE src dst`: the cell whose address is in the destination takes
/// the word of the source.
pub open spec fn perform_store(c: Cpu, s: usize, d: usize) -> Performed {
    if !valid(d) {
        no_register(c, 1)
    } else if !valid(s) {
        no_register(c, 2)
    } else {
        went_on(
            Cpu {
                memory: c.memory.update(c.registers[d as int] as int, c.registers[s as int]),
                ..c
            },
            2,
        )
    }
}

/// `LDCNST dst`: the destination takes the word behind the instruction
/// word, and the program counter steps over that word, unless it is the
/// destination itself.
pub open spec fn perform_ldcnst(c: Cpu, d: usize) -> Performed {
    let constant = c.memory[c.registers[5] as int];
    if !valid(d) {
        no_register(c, 2)
    } else if d == 5 {
        went_on(assign(c, 5, constant), 2)
    } else {
        went_on(
            assign(
                Cpu { registers: c.registers.update(5, wrapping(c.registers[5], 1)), ..c },
                d as int,
                constant,
            ),
            2,
        )
    }
}

/// What the instruction in the instruction register does before the
/// fetch of the next, `input` being what the input channel answers.
#[verifier::opaque]
pub open spec fn perform(c: Cpu, input: Option<u16>) -> Performed {
    let word = c.registers[7] as u32;
    let s = source_of(word);
    let d = dest_of(word);
    let equal = bit_of(c.alu.flags as nat, EQUAL_BIT_NUM as nat);
    let greater = bit_of(c.alu.flags as nat, GREATER_BIT_NUM as nat);
    match INSTRUCTION::spec_from_u32(opcode_of(word)) {
        None => ended(c, StepOutcome::Faulted(Fault::UnknownOpcode), 1),
        Some(op) => match op {
            INSTRUCTION::HLT => ended(c, StepOutcome::Halted, 1),
            INSTRUCTION::MOV => perform_mov(c, s, d),
            INSTRUCTION::ADD => perform_arithmetic(c, d, false, false),
            INSTRUCTION::SUB => perform_arithmetic(c, d, false, true),
            INSTRUCTION::MUL => perform_arithmetic(c, d, true, false),
            INSTRUCTION::DIV => perform_arithmetic(c, d, true, true),
            INSTRUCTION::CALL => perform_call(c, d),
            INSTRUCTION::JE => perform_jump(c, d, equal),
            INSTRUCTION::JNE => perform_jump(c, d, !equal),
            INSTRUCTION::JG => perform_jump(c, d, greater),
            INSTRUCTION::JGE => perform_jump(c, d, greater || equal),
            INSTRUCTION::JL => perform_jump(c, d, !greater && !equal),
            INSTRUCTION::JLE => perform_jump(c, d, !greater),
            INSTRUCTION::PUSH => perform_push(c, s),
            INSTRUCTION::POP => perform_pop(c, d),
            INSTRUCTION::OUT => perform_out(c, s, d),
            INSTRUCTION::IN => perform_in(c, s, d, input),
            INSTRUCTION::INT => ended(c, StepOutcome::Faulted(Fault::ReservedOpcode), 1),
            INSTRUCTION::EOI => ended(c, StepOutcome::Faulted(Fault::ReservedOpcode), 1),
            INSTRUCTION::INC => perform_count(c, d, 1),
            INSTRUCTION::DEC => perform_count(c, d, -1),
            INSTRUCTION::LOAD => perform_load(c, s, d),
            INSTRUCTION::STORE => perform_store(c, s, d),
            INSTRUCTION::LDCNST => perform_ldcnst(c, d),
        },
    }
}

/// What one instruction does, the fetch of the next included.
pub open spec fn execute(c: Cpu, input: Option<u16>) -> Performed {
    let done = perform(c, input);
    if done.outcome == StepOutcome::Advanced {
        Performed { cpu: fetched(done.cpu), microsteps: done.microsteps + 2, ..done }
    } else {
        done
    }
}

/// Whether the machine, run from `m`, does what `p` says, and stands
/// before the fetch where it went on.
pub open spec fn performs(m: MachineModel, input: Option<u16>, p: Performed) -> bool {
    let r = run_model(m, input, p.microsteps);
    &&& r.outcome == p.outcome
    &&& r.microsteps == p.microsteps
    &&& r.outputs == output_seq(p.output)
    &&& p.outcome == StepOutcome::Advanced ==> {
        &&& ready(r.machine)
        &&& cpu_of(r.machine) == p.cpu
        &&& control_select(r.machine.control, r.machine.alu.flags) is Ok
        &&& at_fetch(selected(r.machine))
    }
    &&& p.outcome == StepOutcome::Halted ==> cpu_of(r.machine) == p.cpu
}

/// The microcode list that the control unit decodes for the instruction
/// in its instruction register.
pub open spec fn decoded_list(m: MachineModel) -> Seq<Seq<usize>> {
    microcode_steps(
        m.control.ir as u32,
        bit_of(m.alu.flags as nat, EQUAL_BIT_NUM as nat),
        bit_of(m.alu.flags as nat, GREATER_BIT_NUM as nat),
    )
}

/// Between two instructions the control unit decodes the instruction
/// register, unless the opcode is undefined or reserved.
pub proof fn lemma_decoded(m: MachineModel, op: INSTRUCTION)
    requires
        between_instructions(m),
        INSTRUCTION::spec_from_u32(opcode_of(m.control.ir as u32)) == Some(op),
        op != INSTRUCTION::INT,
        op != INSTRUCTION::EOI,
    ensures
        control_select(m.control, m.alu.flags) == Ok::<ControlModel, Fault>(
            ControlModel { counter: 0, microcodes: decoded_list(m), ir: m.control.ir },
        ),
        selected(m) == (MachineModel {
            control: ControlModel { counter: 0, microcodes: decoded_list(m), ir: m.control.ir },
            ..m
        }),
        ready(selected(m)),
{
}

/// A microstep that names a line which does not exist is a fault.
pub proof fn lemma_invalid_step(m: MachineModel, input: Option<u16>)
    requires
        m.control.counter < m.control.microcodes.len(),
        !lines_valid(current(m)),
    ensures
        microstep_model(m, input).outcome == StepOutcome::Faulted(Fault::InvalidLine),
        microstep_model(m, input).output is None,
{
}

/// An instruction with an undefined or reserved opcode is a fault.
pub proof fn lemma_perform_undefined(m: MachineModel, input: Option<u16>)
    requires
        between_instructions(m),
        match INSTRUCTION::spec_from_u32(opcode_of(m.control.ir as u32)) {
            None => true,
            Some(op) => op == INSTRUCTION::INT || op == INSTRUCTION::EOI,
        },
    ensures
        performs(m, input, perform(cpu_of(m), input)),
{
    reveal(perform);
    lemma_run_one(m, input);
}

/// `HLT` halts the machine and changes nothing that a program sees.
pub proof fn lemma_perform_hlt(m: MachineModel, input: Option<u16>)
    requires
        between_instructions(m),
        INSTRUCTION::spec_from_u32(opcode_of(m.control.ir as u32)) == Some(INSTRUCTION::HLT),
    ensures
        performs(m, input, perform(cpu_of(m), input)),
{
    reveal(perform);
    lemma_decoded(m, INSTRUCTION::HLT);
    let list = decoded_list(m);
    let step = seq![0usize];
    assert(list[0] =~= step);
    crate::rounds::lemma_asserted(step);
    assert(step[0] == 0);
    assert(lines_valid(step));
    assert(asserted(step)[0]);
    lemma_run_one(m, input);
}

/// After the microsteps of an instruction the fetch lies ahead.
pub proof fn lemma_fetch_follows(body: Seq<Seq<usize>>, n: nat)
    requires
        body.len() == n,
    ensures
        (body + fetch_steps()).len() == n + 2,
        (body + fetch_steps())[n as int] == fetch_steps()[0],
        (body + fetch_steps())[n as int + 1] == fetch_steps()[1],
        forall|i: int| 0 <= i < n ==> (body + fetch_steps())[i] == body[i],
{
    assert(fetch_steps().len() == 2);
}

/// The source field of the instruction in the instruction register.
pub open spec fn source(m: MachineModel) -> usize {
    source_of(m.control.ir as u32)
}

/// The destination field of the instruction in the instruction register.
pub open spec fn dest(m: MachineModel) -> usize {
    dest_of(m.control.ir as u32)
}

/// Whether the instruction register holds an instruction of operation
/// `op`.
pub open spec fn holds(m: MachineModel, op: INSTRUCTION) -> bool {
    INSTRUCTION::spec_from_u32(opcode_of(m.control.ir as u32)) == Some(op)
}

/// The Equal flag.
pub open spec fn equal_flag(m: MachineModel) -> bool {
    bit_of(m.alu.flags as nat, EQUAL_BIT_NUM as nat)
}

/// The Greater flag.
pub open spec fn greater_flag(m: MachineModel) -> bool {
    bit_of(m.alu.flags as nat, GREATER_BIT_NUM as nat)
}

/// The microsteps of the instruction in the instruction register, without
/// the fetch.
pub open spec fn body(m: MachineModel, op: INSTRUCTION) -> Seq<Seq<usize>> {
    instruction_steps(op, source(m), dest(m), equal_flag(m), greater_flag(m))
}

/// A microstep that went on leaves the machine before the fetch, where
/// the fetch is next in the list.
pub proof fn lemma_before_fetch(after: MachineModel, list: Seq<Seq<usize>>, n: nat)
    requires
        after.control.microcodes == list,
        after.control.counter == n,
        n + 2 == list.len(),
        list[n as int] == fetch_steps()[0],
        list[n as int + 1] == fetch_steps()[1],
    ensures
        control_select(after.control, after.alu.flags) is Ok,
        at_fetch(selected(after)),
{
}

/// `MOV src dst` does what a program sees as a move.
pub proof fn lemma_perform_mov(m: MachineModel, input: Option<u16>)
    requires
        between_instructions(m),
        holds(m, INSTRUCTION::MOV),
    ensures
        performs(m, input, perform(cpu_of(m), input)),
{
    reveal(perform);
    lemma_decoded(m, INSTRUCTION::MOV);
    lemma_select(m, input);
    lemma_run_one(m, input);
    let s = selected(m);
    let src = source(m);
    let dst = dest(m);
    let steps = body(m, INSTRUCTION::MOV);
    lemma_fetch_follows(steps, 1);
    let step = seq![reg_out(src), reg_in(dst)];
    assert(current(s) == step);
    assert(step[0] == reg_out(src) && step[1] == reg_in(dst));
    if !valid(src) || !valid(dst) {
        lemma_invalid_step(s, input);
    } else if src == dst {
        lemma_step_of_two(step, reg_out(src) as int, reg_in(dst) as int);
        lemma_self_transfer_step(s, src as int, input);
    } else {
        lemma_step_of_two(step, reg_out(src) as int, reg_in(dst) as int);
        lemma_transfer_step(s, src as int, dst as int, input);
        lemma_before_fetch(microstep_model(m, input).machine, decoded_list(m), 1);
    }
}

/// The two mode lines of an arithmetic operation.
pub open spec fn modes(op: INSTRUCTION) -> (bool, bool) {
    match op {
        INSTRUCTION::SUB => (false, true),
        INSTRUCTION::MUL => (true, false),
        INSTRUCTION::DIV => (true, true),
        _ => (false, false),
    }
}

/// `ADD`, `SUB`, `MUL` and `DIV` do what a program sees as arithmetic.
pub proof fn lemma_perform_arithmetic(m: MachineModel, op: INSTRUCTION, input: Option<u16>)
    requires
        between_instructions(m),
        holds(m, op),
        op == INSTRUCTION::ADD || op == INSTRUCTION::SUB || op == INSTRUCTION::MUL || op
            == INSTRUCTION::DIV,
    ensures
        performs(m, input, perform(cpu_of(m), input)),
{
    reveal(perform);
    lemma_decoded(m, op);
    lemma_select(m, input);
    lemma_run_one(m, input);
    let s = selected(m);
    let dst = dest(m);
    let (add_mul, sub_div) = modes(op);
    let steps = body(m, op);
    lemma_fetch_follows(steps, 1);
    let step = current(s);
    assert(step == steps[0]);
    let latch = reg_in(dst) as int;
    if op == INSTRUCTION::ADD {
        assert(step == seq![7usize, reg_in(dst)]);
        assert(step[1] == reg_in(dst));
        if valid(dst) {
            lemma_step_of_two(step, 7, latch);
        }
    } else if op == INSTRUCTION::SUB {
        assert(step == seq![6usize, 7usize, reg_in(dst)]);
        assert(step[2] == reg_in(dst));
        if valid(dst) {
            lemma_step_of_three(step, 6, 7, latch);
            assert(only(asserted(step), 7, latch, -1, 6));
        }
    } else if op == INSTRUCTION::MUL {
        assert(step == seq![5usize, 7usize, reg_in(dst)]);
        assert(step[2] == reg_in(dst));
        if valid(dst) {
            lemma_step_of_three(step, 5, 7, latch);
            assert(only(asserted(step), 7, latch, 5, -1));
        }
    } else {
        assert(step == seq![5usize, 6usize, 7usize, reg_in(dst)]);
        assert(step[3] == reg_in(dst));
        if valid(dst) {
            lemma_step_of_four(step, 5, 6, 7, latch);
            assert(only(asserted(step), 7, latch, 5, 6));
        }
    }
    if !valid(dst) {
        lemma_invalid_step(s, input);
    } else if add_mul && sub_div && m.alu.b == 0 {
        lemma_division_step(s, input);
    } else {
        lemma_alu_step(s, dst as int, add_mul, sub_div, input);
        lemma_before_fetch(microstep_model(m, input).machine, decoded_list(m), 1);
    }
}

/// `INC` and `DEC` do what a program sees as counting.
pub proof fn lemma_perform_count(m: MachineModel, op: INSTRUCTION, input: Option<u16>)
    requires
        between_instructions(m),
        holds(m, op),
        op == INSTRUCTION::INC || op == INSTRUCTION::DEC,
    ensures
        performs(m, input, perform(cpu_of(m), input)),
{
    reveal(perform);
    lemma_decoded(m, op);
    lemma_select(m, input);
    lemma_run_one(m, input);
    let s = selected(m);
    let dst = dest(m);
    let up = op == INSTRUCTION::INC;
    let steps = body(m, op);
    lemma_fetch_follows(steps, 1);
    let line = if up {
        reg_inc(dst)
    } else {
        reg_dec(dst)
    };
    let step = seq![line];
    assert(current(s) == step);
    assert(step[0] == line);
    if !valid(dst) {
        lemma_invalid_step(s, input);
    } else {
        lemma_step_of_one(step, line as int);
        lemma_count_step(s, dst as int, up, input);
        lemma_before_fetch(microstep_model(m, input).machine, decoded_list(m), 1);
    }
}

/// Whether the jump of operation `op` is taken under the flags.
pub open spec fn jumps(op: INSTRUCTION, equal: bool, greater: bool) -> bool {
    match op {
        INSTRUCTION::JE => equal,
        INSTRUCTION::JNE => !equal,
        INSTRUCTION::JG => greater,
        INSTRUCTION::JGE => greater || equal,
        INSTRUCTION::JL => !greater && !equal,
        INSTRUCTION::JLE => !greater,
        _ => false,
    }
}

/// Whether `op` is one of the six conditional jumps.
pub open spec fn is_jump(op: INSTRUCTION) -> bool {
    op == INSTRUCTION::JE || op == INSTRUCTION::JNE || op == INSTRUCTION::JG || op
        == INSTRUCTION::JGE || op == INSTRUCTION::JL || op == INSTRUCTION::JLE
}

/// The conditional jumps do what a program sees as a jump, taken or not.
pub proof fn lemma_perform_jump(m: MachineModel, op: INSTRUCTION, input: Option<u16>)
    requires
        between_instructions(m),
        holds(m, op),
        is_jump(op),
    ensures
        performs(m, input, perform(cpu_of(m), input)),
{
    reveal(perform);
    lemma_decoded(m, op);
    lemma_select(m, input);
    let s = selected(m);
    let dst = dest(m);
    let taken = jumps(op, equal_flag(m), greater_flag(m));
    let steps = body(m, op);
    assert(steps == jump_steps(taken, dst));
    if !taken {
        lemma_fetch_follows(steps, 0);
        assert(decoded_list(m) =~= fetch_steps());
        assert(at_fetch(s));
    } else {
        lemma_run_one(m, input);
        lemma_fetch_follows(steps, 1);
        let step = seq![reg_out(dst), reg_in(5)];
        assert(current(s) == step);
        assert(step[0] == reg_out(dst) && step[1] == reg_in(5));
        if !valid(dst) {
            lemma_invalid_step(s, input);
        } else if dst == 5 {
            lemma_step_of_two(step, reg_out(dst) as int, reg_in(5) as int);
            lemma_self_transfer_step(s, 5, input);
        } else {
            lemma_step_of_two(step, reg_out(dst) as int, reg_in(5) as int);
            lemma_transfer_step(s, dst as int, 5, input);
            lemma_before_fetch(microstep_model(m, input).machine, decoded_list(m), 1);
        }
    }
}

/// A run that went on, followed by one more microstep.
pub proof fn lemma_run_next(m: MachineModel, input: Option<u16>, n: nat)
    requires
        run_model(m, input, n).outcome == StepOutcome::Advanced,
        run_model(m, input, n).microsteps == n,
    ensures
        run_model(m, input, n + 1) == (Ran {
            machine: microstep_model(run_model(m, input, n).machine, input).machine,
            outcome: microstep_model(run_model(m, input, n).machine, input).outcome,
            microsteps: n + 1,
            outputs: run_model(m, input, n).outputs + output_seq(
                microstep_model(run_model(m, input, n).machine, input).output,
            ),
        }),
{
    lemma_run_split(m, input, n, 1);
    lemma_run_one(run_model(m, input, n).machine, input);
}

/// The first microstep of an instruction, where it gives the word of
/// register `r` to the RAM as an address.
proof fn lemma_first_address(
    m: MachineModel,
    op: INSTRUCTION,
    r: usize,
    io: bool,
    n: nat,
    input: Option<u16>,
)
    requires
        between_instructions(m),
        holds(m, op),
        op != INSTRUCTION::INT,
        op != INSTRUCTION::EOI,
        body(m, op).len() == n,
        n >= 1,
        body(m, op)[0] == if io {
            seq![4usize, reg_out(r), 1usize]
        } else {
            seq![reg_out(r), 1usize]
        },
        r < 32,
    ensures
        !valid(r) ==> run_model(m, input, 1).outcome == StepOutcome::Faulted(Fault::InvalidLine)
            && run_model(m, input, 1).microsteps == 1 && run_model(m, input, 1).outputs == Seq::<
            (u16, u16),
        >::empty(),
        valid(r) ==> run_model(m, input, 1) == (Ran {
            machine: advanced(
                MachineModel {
                    ram: addressed(m.ram, m.registers[r as int], io),
                    ..opened(selected(m))
                },
            ),
            outcome: StepOutcome::Advanced,
            microsteps: 1,
            outputs: seq![],
        }),
        selected(m).control.microcodes == body(m, op) + fetch_steps(),
        opened(selected(m)).registers == m.registers,
        opened(selected(m)).alu == m.alu,
        opened(selected(m)).control == selected(m).control,
        selected(m).control.counter == 0,
        selected(m).control.ir == m.control.ir,
{
    lemma_decoded(m, op);
    lemma_select(m, input);
    lemma_run_one(m, input);
    let s = selected(m);
    lemma_fetch_follows(body(m, op), n);
    let step = current(s);
    if io {
        assert(step[1] == reg_out(r));
        if valid(r) {
            lemma_step_of_three(step, 4, reg_out(r) as int, 1);
            assert(only(asserted(step), reg_out(r) as int, 1, 4, -1));
        }
    } else {
        assert(step[0] == reg_out(r));
        if valid(r) {
            lemma_step_of_two(step, reg_out(r) as int, 1);
        }
    }
    if !valid(r) {
        lemma_invalid_step(s, input);
    } else {
        lemma_address_step(s, r as int, io, input);
    }
}

/// `LOAD src dst` does what a program sees as a load.
pub proof fn lemma_perform_load(m: MachineModel, input: Option<u16>)
    requires
        between_instructions(m),
        holds(m, INSTRUCTION::LOAD),
    ensures
        performs(m, input, perform(cpu_of(m), input)),
{
    reveal(perform);
    let src = source(m);
    let dst = dest(m);
    let steps = body(m, INSTRUCTION::LOAD);
    lemma_first_address(m, INSTRUCTION::LOAD, src, false, 2, input);
    if valid(src) {
        lemma_fetch_follows(steps, 2);
        let one = run_model(m, input, 1).machine;
        let step = seq![reg_in(dst), 3usize];
        assert(current(one) == step);
        assert(step[0] == reg_in(dst));
        lemma_run_next(m, input, 1);
        if !valid(dst) {
            lemma_invalid_step(one, input);
            assert(run_model(m, input, 2).outputs =~= seq![]);
        } else {
            lemma_step_of_two(step, reg_in(dst) as int, 3);
            lemma_load_step(one, dst as int, false, input);
            lemma_before_fetch(run_model(m, input, 2).machine, steps + fetch_steps(), 2);
            assert(run_model(m, input, 2).outputs =~= seq![]);
        }
    }
}

/// `STORE src dst` does what a program sees as a store.
pub proof fn lemma_perform_store(m: MachineModel, input: Option<u16>)
    requires
        between_instructions(m),
        holds(m, INSTRUCTION::STORE),
    ensures
        performs(m, input, perform(cpu_of(m), input)),
{
    reveal(perform);
    let src = source(m);
    let dst = dest(m);
    let steps = body(m, INSTRUCTION::STORE);
    lemma_first_address(m, INSTRUCTION::STORE, dst, false, 2, input);
    if valid(dst) {
        lemma_fetch_follows(steps, 2);
        let one = run_model(m, input, 1).machine;
        let step = seq![reg_out(src), 2usize];
        assert(current(one) == step);
        assert(step[0] == reg_out(src));
        lemma_run_next(m, input, 1);
        if !valid(src) {
            lemma_invalid_step(one, input);
            assert(run_model(m, input, 2).outputs =~= seq![]);
        } else {
            lemma_step_of_two(step, reg_out(src) as int, 2);
            lemma_store_step(one, src as int, false, false, input);
            lemma_before_fetch(run_model(m, input, 2).machine, steps + fetch_steps(), 2);
            assert(run_model(m, input, 2).outputs =~= seq![]);
        }
    }
}

/// `OUT src dst` does what a program sees as an output.
pub proof fn lemma_perform_out(m: MachineModel, input: Option<u16>)
    requires
        between_instructions(m),
        holds(m, INSTRUCTION::OUT),
    ensures
        performs(m, input, perform(cpu_of(m), input)),
{
    reveal(perform);
    let src = source(m);
    let dst = dest(m);
    let steps = body(m, INSTRUCTION::OUT);
    lemma_first_address(m, INSTRUCTION::OUT, src, true, 2, input);
    if valid(src) {
        lemma_fetch_follows(steps, 2);
        let one = run_model(m, input, 1).machine;
        let step = seq![4usize, reg_out(dst), 2usize];
        assert(current(one) == step);
        assert(step[1] == reg_out(dst));
        lemma_run_next(m, input, 1);
        if !valid(dst) {
            lemma_invalid_step(one, input);
            assert(run_model(m, input, 2).outputs =~= seq![]);
        } else {
            lemma_step_of_three(step, 4, reg_out(dst) as int, 2);
            assert(only(asserted(step), reg_out(dst) as int, 2, 4, -1));
            lemma_store_step(one, dst as int, true, false, input);
            lemma_before_fetch(run_model(m, input, 2).machine, steps + fetch_steps(), 2);
            assert(run_model(m, input, 2).outputs =~= seq![
                (m.registers[src as int], m.registers[dst as int]),
            ]);
        }
    }
}

/// `IN src dst` does what a program sees as an input.
pub proof fn lemma_perform_in(m: MachineModel, input: Option<u16>)
    requires
        between_instructions(m),
        holds(m, INSTRUCTION::IN),
    ensures
        performs(m, input, perform(cpu_of(m), input)),
{
    reveal(perform);
    let src = source(m);
    let dst = dest(m);
    let steps = body(m, INSTRUCTION::IN);
    lemma_first_address(m, INSTRUCTION::IN, src, true, 2, input);
    if valid(src) {
        lemma_fetch_follows(steps, 2);
        let one = run_model(m, input, 1).machine;
        let step = seq![4usize, reg_in(dst), 3usize];
        assert(current(one) == step);
        assert(step[1] == reg_in(dst));
        lemma_run_next(m, input, 1);
        if !valid(dst) {
            lemma_invalid_step(one, input);
        } else {
            lemma_step_of_three(step, 4, reg_in(dst) as int, 3);
            match input {
                Some(word) => {
                    lemma_input_step(one, dst as int, word);
                    lemma_before_fetch(run_model(m, input, 2).machine, steps + fetch_steps(), 2);
                },
                None => {
                    lemma_silent_input_step(one, dst as int);
                },
            }
        }
        assert(run_model(m, input, 2).outputs =~= seq![]);
    }
}

/// `LDCNST dst` does what a program sees as the load of a constant.
pub proof fn lemma_perform_ldcnst(m: MachineModel, input: Option<u16>)
    requires
        between_instructions(m),
        holds(m, INSTRUCTION::LDCNST),
    ensures
        performs(m, input, perform(cpu_of(m), input)),
{
    reveal(perform);
    let dst = dest(m);
    let steps = body(m, INSTRUCTION::LDCNST);
    lemma_first_address(m, INSTRUCTION::LDCNST, 5, false, 2, input);
    lemma_fetch_follows(steps, 2);
    let one = run_model(m, input, 1).machine;
    let step = current(one);
    assert(step == steps[1]);
    lemma_run_next(m, input, 1);
    if dst == 5 {
        assert(step == seq![reg_in(dst), 3usize]);
        lemma_step_of_two(step, reg_in(dst) as int, 3);
        lemma_load_step(one, 5, false, input);
        lemma_before_fetch(run_model(m, input, 2).machine, steps + fetch_steps(), 2);
    } else {
        assert(step == seq![reg_in(dst), 3usize, reg_inc(5)]);
        assert(step[0] == reg_in(dst));
        if !valid(dst) {
            lemma_invalid_step(one, input);
        } else {
            lemma_step_of_three(step, reg_in(dst) as int, 3, 33);
            lemma_load_step(one, dst as int, true, input);
            lemma_before_fetch(run_model(m, input, 2).machine, steps + fetch_steps(), 2);
        }
    }
    assert(run_model(m, input, 2).outputs =~= seq![]);
}

/// `PUSH src` does what a program sees as a push.
pub proof fn lemma_perform_push(m: MachineModel, input: Option<u16>)
    requires
        between_instructions(m),
        holds(m, INSTRUCTION::PUSH),
    ensures
        performs(m, input, perform(cpu_of(m), input)),
{
    reveal(perform);
    let src = source(m);
    let steps = body(m, INSTRUCTION::PUSH);
    lemma_first_address(m, INSTRUCTION::PUSH, 6, false, 2, input);
    lemma_fetch_follows(steps, 2);
    let one = run_model(m, input, 1).machine;
    let step = seq![reg_out(src), 2usize, reg_dec(6)];
    assert(current(one) == step);
    assert(step[0] == reg_out(src));
    lemma_run_next(m, input, 1);
    if !valid(src) {
        lemma_invalid_step(one, input);
    } else {
        lemma_step_of_three(step, reg_out(src) as int, 2, 38);
        assert(only(asserted(step), reg_out(src) as int, 2, -1, 38));
        lemma_store_step(one, src as int, false, true, input);
        lemma_before_fetch(run_model(m, input, 2).machine, steps + fetch_steps(), 2);
    }
    assert(run_model(m, input, 2).outputs =~= seq![]);
}

/// `CALL dst` does what a program sees as a call.
pub proof fn lemma_perform_call(m: MachineModel, input: Option<u16>)
    requires
        between_instructions(m),
        holds(m, INSTRUCTION::CALL),
    ensures
        performs(m, input, perform(cpu_of(m), input)),
{
    reveal(perform);
    let dst = dest(m);
    let steps = body(m, INSTRUCTION::CALL);
    lemma_first_address(m, INSTRUCTION::CALL, 6, false, 3, input);
    lemma_fetch_follows(steps, 3);
    let one = run_model(m, input, 1).machine;
    let second = seq![reg_out(5), 2usize, reg_dec(6)];
    assert(current(one) == second);
    lemma_run_next(m, input, 1);
    lemma_step_of_three(second, 32, 2, 38);
    assert(only(asserted(second), 32, 2, -1, 38));
    lemma_store_step(one, 5, false, true, input);
    assert(run_model(m, input, 2).outputs =~= seq![]);
    let two = run_model(m, input, 2).machine;
    let third = seq![reg_out(dst), reg_in(5)];
    assert(current(two) == third);
    assert(third[0] == reg_out(dst) && third[1] == reg_in(5));
    lemma_run_next(m, input, 2);
    if !valid(dst) {
        lemma_invalid_step(two, input);
    } else if dst == 5 {
        lemma_step_of_two(third, reg_out(dst) as int, reg_in(5) as int);
        lemma_self_transfer_step(two, 5, input);
    } else {
        lemma_step_of_two(third, reg_out(dst) as int, reg_in(5) as int);
        lemma_transfer_step(two, dst as int, 5, input);
        lemma_before_fetch(run_model(m, input, 3).machine, steps + fetch_steps(), 3);
    }
    assert(run_model(m, input, 3).outputs =~= seq![]);
}

/// `POP dst` does what a program sees as a pop.
pub proof fn lemma_perform_pop(m: MachineModel, input: Option<u16>)
    requires
        between_instructions(m),
        holds(m, INSTRUCTION::POP),
    ensures
        performs(m, input, perform(cpu_of(m), input)),
{
    reveal(perform);
    let dst = dest(m);
    let steps = body(m, INSTRUCTION::POP);
    lemma_decoded(m, INSTRUCTION::POP);
    lemma_select(m, input);
    lemma_run_one(m, input);
    let s = selected(m);
    lemma_fetch_follows(steps, 3);
    let first = seq![reg_inc(6)];
    assert(current(s) == first);
    lemma_step_of_one(first, 37);
    lemma_count_step(s, 6, true, input);
    let one = run_model(m, input, 1).machine;
    let second = seq![reg_out(6), 1usize];
    assert(current(one) == second);
    lemma_run_next(m, input, 1);
    lemma_step_of_two(second, 36, 1);
    lemma_address_step(one, 6, false, input);
    assert(run_model(m, input, 2).outputs =~= seq![]);
    let two = run_model(m, input, 2).machine;
    let third = seq![reg_in(dst), 3usize];
    assert(current(two) == third);
    assert(third[0] == reg_in(dst));
    lemma_run_next(m, input, 2);
    if !valid(dst) {
        lemma_invalid_step(two, input);
    } else {
        lemma_step_of_two(third, reg_in(dst) as int, 3);
        lemma_load_step(two, dst as int, false, input);
        lemma_before_fetch(run_model(m, input, 3).machine, steps + fetch_steps(), 3);
    }
    assert(run_model(m, input, 3).outputs =~= seq![]);
}

/// The microsteps of every instruction do what a program sees the
/// instruction do.
pub proof fn lemma_perform(m: MachineModel, input: Option<u16>)
    requires
        between_instructions(m),
    ensures
        performs(m, input, perform(cpu_of(m), input)),
{
    reveal(perform);
    match INSTRUCTION::spec_from_u32(opcode_of(m.control.ir as u32)) {
        None => {
            lemma_perform_undefined(m, input);
        },
        Some(op) => {
            match op {
                INSTRUCTION::HLT => lemma_perform_hlt(m, input),
                INSTRUCTION::MOV => lemma_perform_mov(m, input),
                INSTRUCTION::ADD => lemma_perform_arithmetic(m, op, input),
                INSTRUCTION::SUB => lemma_perform_arithmetic(m, op, input),
                INSTRUCTION::MUL => lemma_perform_arithmetic(m, op, input),
                INSTRUCTION::DIV => lemma_perform_arithmetic(m, op, input),
                INSTRUCTION::CALL => lemma_perform_call(m, input),
                INSTRUCTION::JE => lemma_perform_jump(m, op, input),
                INSTRUCTION::JNE => lemma_perform_jump(m, op, input),
                INSTRUCTION::JG => lemma_perform_jump(m, op, input),
                INSTRUCTION::JGE => lemma_perform_jump(m, op, input),
                INSTRUCTION::JL => lemma_perform_jump(m, op, input),
                INSTRUCTION::JLE => lemma_perform_jump(m, op, input),
                INSTRUCTION::PUSH => lemma_perform_push(m, input),
                INSTRUCTION::POP => lemma_perform_pop(m, input),
                INSTRUCTION::OUT => lemma_perform_out(m, input),
                INSTRUCTION::IN => lemma_perform_in(m, input),
                INSTRUCTION::INT => lemma_perform_undefined(m, input),
                INSTRUCTION::EOI => lemma_perform_undefined(m, input),
                INSTRUCTION::INC => lemma_perform_count(m, op, input),
                INSTRUCTION::DEC => lemma_perform_count(m, op, input),
                INSTRUCTION::LOAD => lemma_perform_load(m, input),
                INSTRUCTION::STORE => lemma_perform_store(m, input),
                INSTRUCTION::LDCNST => lemma_perform_ldcnst(m, input),
            }
        },
    }
}

/// Whether the machine, run from `m`, does what `e` says of a whole
/// instruction, and stands between two instructions where it went on.
pub open spec fn executes(m: MachineModel, input: Option<u16>, e: Performed) -> bool {
    let r = run_model(m, input, e.microsteps);
    &&& r.outcome == e.outcome
    &&& r.microsteps == e.microsteps
    &&& r.outputs == output_seq(e.output)
    &&& e.outcome == StepOutcome::Advanced ==> between_instructions(r.machine) && cpu_of(r.machine)
        == e.cpu
    &&& e.outcome == StepOutcome::Halted ==> cpu_of(r.machine) == e.cpu
}

/// The machine runs every instruction as a program sees it: from between
/// two instructions, the microsteps that `execute` counts lead to the
/// outcome, the output and the registers, latches, flags and memory that
/// `execute` gives, and where the instruction went on the machine stands
/// between two instructions again.
pub proof fn lemma_execute(m: MachineModel, input: Option<u16>)
    requires
        between_instructions(m),
    ensures
        executes(m, input, execute(cpu_of(m), input)),
{
    let p = perform(cpu_of(m), input);
    lemma_perform(m, input);
    if p.outcome == StepOutcome::Advanced {
        let before = run_model(m, input, p.microsteps);
        lemma_fetch(before.machine, input);
        lemma_run_split(m, input, p.microsteps, 2);
        assert(before.outputs + seq![] =~= before.outputs);
    }
}

/// What became of a number of instructions.
pub struct Executed {
    /// What the program sees afterwards.
    pub cpu: Cpu,
    /// How the last microstep ended.
    pub outcome: StepOutcome,
    /// The output events, oldest first.
    pub outputs: Seq<(u16, u16)>,
    /// The number of microsteps that were begun.
    pub microsteps: nat,
}

/// What at most `count` instructions do, one after the other, until one
/// of them does not go on.
pub open spec fn execute_all(c: Cpu, input: Option<u16>, count: nat) -> Executed
    decreases count,
{
    if count == 0 {
        Executed { cpu: c, outcome: StepOutcome::Advanced, outputs: seq![], microsteps: 0 }
    } else {
        let first = execute(c, input);
        if first.outcome == StepOutcome::Advanced {
            let rest = execute_all(first.cpu, input, (count - 1) as nat);
            Executed {
                cpu: rest.cpu,
                outcome: rest.outcome,
                outputs: output_seq(first.output) + rest.outputs,
                microsteps: first.microsteps + rest.microsteps,
            }
        } else {
            Executed {
                cpu: first.cpu,
                outcome: first.outcome,
                outputs: output_seq(first.output),
                microsteps: first.microsteps,
            }
        }
    }
}

/// Whether the machine, run from `m`, does what `e` says of a number of
/// instructions.
pub open spec fn executes_all(m: MachineModel, input: Option<u16>, e: Executed) -> bool {
    let r = run_model(m, input, e.microsteps);
    &&& r.outcome == e.outcome
    &&& r.microsteps == e.microsteps
    &&& r.outputs == e.outputs
    &&& e.outcome == StepOutcome::Advanced ==> between_instructions(r.machine) && cpu_of(r.machine)
        == e.cpu
    &&& e.outcome == StepOutcome::Halted ==> cpu_of(r.machine) == e.cpu
}

/// The machine runs every program as a program sees it.
pub proof fn lemma_execute_all(m: MachineModel, input: Option<u16>, count: nat)
    requires
        between_instructions(m),
    ensures
        executes_all(m, input, execute_all(cpu_of(m), input, count)),
    decreases count,
{
    if count > 0 {
        let first = execute(cpu_of(m), input);
        lemma_execute(m, input);
        if first.outcome == StepOutcome::Advanced {
            let after = run_model(m, input, first.microsteps).machine;
            let rest = execute_all(first.cpu, input, (count - 1) as nat);
            lemma_execute_all(after, input, (count - 1) as nat);
            lemma_run_split(m, input, first.microsteps, rest.microsteps);
        }
    }
}

/// What a program sees of a machine that is switched on over `memory`,
/// before the first fetch.
pub open spec fn initial_cpu(memory: Seq<u16>) -> Cpu {
    Cpu { registers: initial_registers(), alu: AluModel { a: 0, b: 0, flags: 0 }, memory }
}

/// What a program of at most `count` instructions does on a machine that
/// is switched on over `memory`: the first fetch, then the instructions.
pub open spec fn execute_program(memory: Seq<u16>, input: Option<u16>, count: nat) -> Executed {
    let run = execute_all(fetched(initial_cpu(memory)), input, count);
    Executed { microsteps: run.microsteps + 2, ..run }
}

/// A machine that is switched on fetches its first instruction from
/// address zero and then runs its program as a program sees it.
pub proof fn lemma_execute_program(memory: Seq<u16>, input: Option<u16>, count: nat)
    requires
        memory.len() == RAM_SIZE,
    ensures
        executes_all(initial_machine(memory), input, execute_program(memory, input, count)),
{
    let m = initial_machine(memory);
    assert(fetch_steps().len() == 2);
    assert(control_select(m.control, m.alu.flags) == Ok::<ControlModel, Fault>(m.control));
    lemma_fetch(m, input);
    let booted = run_model(m, input, 2);
    assert(cpu_of(m) == initial_cpu(memory));
    lemma_execute_all(booted.machine, input, count);
    let run = execute_all(fetched(initial_cpu(memory)), input, count);
    lemma_run_split(m, input, 2, run.microsteps);
    assert(seq![] + run.outputs =~= run.outputs);
}

} // verus!
