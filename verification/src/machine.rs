//! The whole machine: the components around one bus and one set of
//! control lines, and the microstep that moves them all by one clock edge.
//!
//! Within a microstep every component takes its step once. A component
//! whose step must wait for the bus is visited again after the others have
//! had their turn, which lets a reader that comes before its writer in the
//! visiting order catch up. Two rounds of visits are enough for every
//! microstep in which at most one component drives the bus and at most one
//! latches it, and the microcode of the instruction set asks for no more.
//! A component that still waits after the second round is taken to wait
//! for ever: the machine has stalled.

use vstd::prelude::*;
use crate::bits::{all_low, MValue};
use crate::bus::Bus;
use crate::control_cables::{ControlCables, REGISTERS_NUM};
use crate::cpu_component::{
    alu_forward, alu_receive, alu_step, control_set_cables, pair_view, ram_step, register_step,
    word_view, words, AluComponent, AluModel, AluStatus, ControlCable,
    ControlCablesExt, ControlComponent, ControlModel, Fault, RamComponent, RamModel,
    RegisterComponent, RAM_SIZE, STACK_POINTER_REG_NUM,
};
use crate::microcodes::fetch_steps;

verus! {

/// Number of components that take part in a microstep: the RAM, the eight
/// registers and the ALU, visited in this order.
pub const COMPONENTS_NUM: usize = 10;

/// The machine as plain values.
pub struct MachineModel {
    /// The words held by the registers, by register code.
    pub registers: Seq<u16>,
    pub alu: AluModel,
    pub ram: RamModel,
    pub control: ControlModel,
    /// The word waiting on the bus, if any.
    pub bus: Option<u16>,
    /// The levels of the control lines.
    pub lines: Seq<bool>,
}

/// What has happened so far within a microstep.
pub struct ProgressModel {
    /// Which components have taken their step, in visiting order.
    pub done: Seq<bool>,
    /// The messages that registers have sent to the ALU, oldest first.
    pub mailbox: Seq<(usize, u16)>,
    /// The port and word sent to the output channel, if any.
    pub output: Option<(u16, u16)>,
    /// The port that the input channel was asked for, if any.
    pub asked: Option<u16>,
    /// The fault that stopped the microstep, if any.
    pub fault: Option<Fault>,
}

/// The start of a microstep: nothing done, nothing sent.
pub open spec fn fresh_progress() -> ProgressModel {
    ProgressModel {
        done: Seq::new(COMPONENTS_NUM as nat, |k: int| false),
        mailbox: seq![],
        output: None,
        asked: None,
        fault: None,
    }
}

/// A visit to the RAM: it takes its step unless it already has, a fault
/// has occurred, or it must wait.
pub open spec fn visit_ram(m: MachineModel, p: ProgressModel, input: Option<u16>) -> (
    MachineModel,
    ProgressModel,
) {
    let out = ram_step(m.ram, m.bus, m.lines, input);
    if p.done[0] || p.fault is Some || !out.done {
        (m, p)
    } else {
        (
            MachineModel { ram: out.ram, bus: out.bus, ..m },
            ProgressModel { done: p.done.update(0, true), output: out.output, asked: out.asked, ..p },
        )
    }
}

/// A visit to register `r`: it takes its step unless it already has, a
/// fault has occurred, or it must wait. What it sends to the ALU joins the
/// mailbox.
pub open spec fn visit_register(m: MachineModel, p: ProgressModel, r: int) -> (
    MachineModel,
    ProgressModel,
) {
    let out = register_step(r as usize, m.registers[r], m.bus, m.lines);
    if p.done[r + 1] || p.fault is Some || !out.done {
        (m, p)
    } else {
        (
            MachineModel { registers: m.registers.update(r, out.value), bus: out.bus, ..m },
            ProgressModel {
                done: p.done.update(r + 1, true),
                mailbox: match out.to_alu {
                    Some(message) => p.mailbox.push(message),
                    None => p.mailbox,
                },
                ..p
            },
        )
    }
}

/// Visits to the registers `0` to `n - 1`, in this order.
pub open spec fn visit_registers(m: MachineModel, p: ProgressModel, n: nat) -> (
    MachineModel,
    ProgressModel,
)
    decreases n,
{
    if n == 0 {
        (m, p)
    } else {
        let (before, progress) = visit_registers(m, p, (n - 1) as nat);
        visit_register(before, progress, n - 1)
    }
}

/// A visit to the ALU: it takes its step unless it already has, a fault
/// has occurred, or it must wait. A division by zero is a fault.
pub open spec fn visit_alu(m: MachineModel, p: ProgressModel) -> (MachineModel, ProgressModel) {
    let (bus, status) = alu_step(m.alu, m.bus, m.lines);
    if p.done[9] || p.fault is Some {
        (m, p)
    } else {
        match status {
            AluStatus::Done => (
                MachineModel { bus, ..m },
                ProgressModel { done: p.done.update(9, true), ..p },
            ),
            AluStatus::Blocked => (m, p),
            AluStatus::DivisionByZero => (
                m,
                ProgressModel { fault: Some(Fault::DivisionByZero), ..p },
            ),
        }
    }
}

/// One round of visits: the RAM, the registers by code, the ALU.
pub open spec fn sweep(m: MachineModel, p: ProgressModel, input: Option<u16>) -> (
    MachineModel,
    ProgressModel,
) {
    let (machine_a, progress_a) = visit_ram(m, p, input);
    let (machine_b, progress_b) = visit_registers(machine_a, progress_a, REGISTERS_NUM as nat);
    visit_alu(machine_b, progress_b)
}

/// Visiting the registers leaves the control unit, the control lines, the
/// ALU and the RAM as they were.
pub proof fn lemma_visit_registers_frame(m: MachineModel, p: ProgressModel, n: nat)
    ensures
        visit_registers(m, p, n).0.control == m.control,
        visit_registers(m, p, n).0.lines == m.lines,
        visit_registers(m, p, n).0.alu == m.alu,
        visit_registers(m, p, n).0.ram == m.ram,
    decreases n,
{
    if n > 0 {
        lemma_visit_registers_frame(m, p, (n - 1) as nat);
    }
}

/// A round of visits leaves the control unit, the control lines and the
/// ALU as they were: within a microstep only the bus, the registers and
/// the RAM change.
pub proof fn lemma_sweep_frame(m: MachineModel, p: ProgressModel, input: Option<u16>)
    ensures
        sweep(m, p, input).0.control == m.control,
        sweep(m, p, input).0.lines == m.lines,
        sweep(m, p, input).0.alu == m.alu,
{
    let (machine_a, progress_a) = visit_ram(m, p, input);
    lemma_visit_registers_frame(machine_a, progress_a, REGISTERS_NUM as nat);
}

/// The machine after the ALU has taken one message: a latch and the flags
/// follow it, and a word from the instruction register reaches the control
/// unit.
pub open spec fn deliver(m: MachineModel, message: (usize, u16)) -> MachineModel {
    MachineModel {
        alu: alu_receive(m.alu, message.0, message.1),
        control: ControlModel {
            ir: match alu_forward(message.0, message.1) {
                Some(word) => word,
                None => m.control.ir,
            },
            ..m.control
        },
        ..m
    }
}

/// The machine after the ALU has taken every message of the mailbox,
/// oldest first.
pub open spec fn drain(m: MachineModel, mailbox: Seq<(usize, u16)>) -> MachineModel
    decreases mailbox.len(),
{
    if mailbox.len() == 0 {
        m
    } else {
        deliver(drain(m, mailbox.drop_last()), mailbox.last())
    }
}

/// Whether every component has taken its step.
pub open spec fn all_done(done: Seq<bool>) -> bool {
    forall|k: int| 0 <= k < COMPONENTS_NUM ==> done[k]
}

/// How a microstep ended.
#[derive(Debug, Clone, Copy, PartialEq, Eq, Structural)]
pub enum StepOutcome {
    /// Every component took its step and the control unit moved on.
    Advanced,
    /// The microstep asserted `Halt`: the machine has stopped.
    Halted,
    /// A component waits for the bus and nothing is left that could
    /// serve it.
    Stalled,
    /// The simulation cannot go on.
    Faulted(Fault),
}

/// The result of a microstep, as plain values.
pub struct Stepped {
    /// The machine afterwards.
    pub machine: MachineModel,
    /// How the microstep ended.
    pub outcome: StepOutcome,
    /// The port and word sent to the output channel, if any.
    pub output: Option<(u16, u16)>,
    /// The port that the input channel was asked for, if any.
    pub asked: Option<u16>,
}

/// One microstep of the machine, `input` being what the input channel
/// answers if it is asked.
///
/// 1. The control unit opens the microstep: it releases every line,
///    decodes the instruction register if its microcode list is used up,
///    and asserts the lines of the microstep under its pointer. A fault
///    here ends the microstep.
/// 2. If `Halt` is asserted the machine halts; nothing else happens.
/// 3. The components are visited twice over. A fault ends the microstep.
/// 4. If a component has still not taken its step, the machine has
///    stalled.
/// 5. Else the ALU takes the messages sent to it, the control unit's copy
///    of the instruction register follows, and the microcode pointer moves
///    on.
pub open spec fn microstep_model(m: MachineModel, input: Option<u16>) -> Stepped {
    let selected = control_set_cables(m.control, m.alu.flags);
    let opened = MachineModel { control: selected.control, lines: selected.lines, ..m };
    match selected.fault {
        Some(fault) => Stepped {
            machine: opened,
            outcome: StepOutcome::Faulted(fault),
            output: None,
            asked: None,
        },
        None => if opened.lines[ControlCable::Halt.index() as int] {
            Stepped { machine: opened, outcome: StepOutcome::Halted, output: None, asked: None }
        } else {
            let (machine_a, progress_a) = sweep(opened, fresh_progress(), input);
            let (machine_b, progress_b) = sweep(machine_a, progress_a, input);
            match progress_b.fault {
                Some(fault) => Stepped {
                    machine: machine_b,
                    outcome: StepOutcome::Faulted(fault),
                    output: progress_b.output,
                    asked: progress_b.asked,
                },
                None => if all_done(progress_b.done) {
                    let drained = drain(machine_b, progress_b.mailbox);
                    Stepped {
                        machine: MachineModel {
                            control: ControlModel {
                                counter: drained.control.counter + 1,
                                ..drained.control
                            },
                            ..drained
                        },
                        outcome: StepOutcome::Advanced,
                        output: progress_b.output,
                        asked: progress_b.asked,
                    }
                } else {
                    Stepped {
                        machine: machine_b,
                        outcome: StepOutcome::Stalled,
                        output: progress_b.output,
                        asked: progress_b.asked,
                    }
                },
            }
        },
    }
}

/// The messages of a mailbox as plain values.
pub open spec fn mailbox_view(mailbox: Seq<(usize, MValue)>) -> Seq<(usize, u16)> {
    mailbox.map_values(|message: (usize, MValue)| (message.0, message.1@))
}

/// What has happened so far within a microstep.
struct Progress {
    done: [bool; 10],
    mailbox: Vec<(usize, MValue)>,
    output: Option<(MValue, MValue)>,
    asked: Option<MValue>,
    fault: Option<Fault>,
}

impl View for Progress {
    type V = ProgressModel;

    closed spec fn view(&self) -> ProgressModel {
        ProgressModel {
            done: self.done@,
            mailbox: mailbox_view(self.mailbox@),
            output: pair_view(self.output),
            asked: word_view(self.asked),
            fault: self.fault,
        }
    }
}

/// Whether every component has taken its step.
fn every_component(done: &[bool; 10]) -> (all: bool)
    ensures
        all == all_done(done@),
{
    let mut k: usize = 0;
    while k < COMPONENTS_NUM
        invariant
            k <= COMPONENTS_NUM,
            forall|j: int| 0 <= j < k ==> done@[j],
        decreases COMPONENTS_NUM - k,
    {
        if !done[k] {
            return false;
        }
        k += 1;
    }
    true
}

/// What a microstep reports.
#[derive(Debug)]
pub struct StepReport {
    /// How the microstep ended.
    pub outcome: StepOutcome,
    /// The port and word for the output channel, if any.
    pub output: Option<(MValue, MValue)>,
    /// The port that the input channel was asked for, if any.
    pub asked: Option<MValue>,
}

/// The machine: RAM, register file, ALU and control unit around one bus
/// and one set of control lines.
#[derive(Debug)]
pub struct Machine {
    pub ram: RamComponent,
    pub registers: Vec<RegisterComponent>,
    pub alu: AluComponent,
    pub control: ControlComponent,
    pub bus: Bus,
    pub cables: ControlCables,
}

impl View for Machine {
    type V = MachineModel;

    open spec fn view(&self) -> MachineModel {
        MachineModel {
            registers: Seq::new(REGISTERS_NUM as nat, |r: int| self.registers@[r].value@),
            alu: self.alu@,
            ram: self.ram@,
            control: self.control@,
            bus: self.bus@,
            lines: self.cables@,
        }
    }
}

/// The words that the registers hold when the machine is switched on:
/// the stack pointer at the highest address, the others at zero.
pub open spec fn initial_registers() -> Seq<u16> {
    Seq::new(
        REGISTERS_NUM as nat,
        |r: int|
            if r == STACK_POINTER_REG_NUM {
                0xffffu16
            } else {
                0u16
            },
    )
}

/// The machine as it is switched on over the given memory: about to fetch
/// its first instruction from address zero.
pub open spec fn initial_machine(memory: Seq<u16>) -> MachineModel {
    MachineModel {
        registers: initial_registers(),
        alu: AluModel { a: 0, b: 0, flags: 0 },
        ram: RamModel { memory, mar: 0, mdr: 0 },
        control: ControlModel { counter: 0, microcodes: fetch_steps(), ir: 0 },
        bus: None,
        lines: Seq::new(crate::control_cables::CONTROL_CABLES_SIZE as nat, |i: int| false),
    }
}

impl Machine {
    /// Whether the machine is put together as it should be: a full memory,
    /// eight registers each under its own code, and a control unit whose
    /// pointer stands in its list.
    pub open spec fn wf(&self) -> bool {
        &&& self.ram.wf()
        &&& self.control.wf()
        &&& self.registers@.len() == REGISTERS_NUM
        &&& forall|r: int| 0 <= r < REGISTERS_NUM ==> self.registers@[r].reg_num == r
    }

    /// The machine switched on over the given memory.
    pub fn new(memory: Vec<MValue>) -> (machine: Machine)
        requires
            memory@.len() == RAM_SIZE,
        ensures
            machine.wf(),
            machine@ == initial_machine(words(memory@)),
    {
        let mut registers: Vec<RegisterComponent> = Vec::new();
        let mut i: usize = 0;
        while i < REGISTERS_NUM
            invariant
                i <= REGISTERS_NUM,
                registers@.len() == i,
                forall|r: int| 0 <= r < i ==> registers@[r].reg_num == r,
                forall|r: int| 0 <= r < i ==> registers@[r].value@ == initial_registers()[r],
            decreases REGISTERS_NUM - i,
        {
            let mut start_value: u32 = 0;
            if i == STACK_POINTER_REG_NUM {
                start_value = 0xffff;
            }
            registers.push(RegisterComponent::new(i, MValue::from_u32(start_value)));
            i += 1;
        }
        let machine = Machine {
            ram: RamComponent::new(memory),
            registers,
            alu: AluComponent::new(),
            control: ControlComponent::new(),
            bus: Bus::new(),
            cables: ControlCables::new(),
        };
        assert(machine@.registers =~= initial_registers());
        assert(machine@.lines =~= initial_machine(words(memory@)).lines);
        machine
    }

    fn visit_ram(&mut self, progress: &mut Progress, input: &Option<MValue>)
        requires
            old(self).wf(),
        ensures
            final(self).wf(),
            (final(self)@, final(progress)@) == visit_ram(
                old(self)@,
                old(progress)@,
                word_view(*input),
            ),
    {
        if progress.done[0] || progress.fault.is_some() {
            return ;
        }
        let report = self.ram.step(&mut self.bus, &self.cables, input);
        if report.done {
            progress.done[0] = true;
            progress.output = report.output;
            progress.asked = report.asked;
            assert(self@.registers =~= old(self)@.registers);
        }
    }

    fn visit_register(&mut self, progress: &mut Progress, r: usize)
        requires
            old(self).wf(),
            r < REGISTERS_NUM,
        ensures
            final(self).wf(),
            (final(self)@, final(progress)@) == visit_register(
                old(self)@,
                old(progress)@,
                r as int,
            ),
    {
        if progress.done[r + 1] || progress.fault.is_some() {
            return ;
        }
        let report = self.registers[r].step(&mut self.bus, &self.cables);
        if report.done {
            progress.done[r + 1] = true;
            let ghost before = progress.mailbox@;
            match report.to_alu {
                Some(message) => {
                    progress.mailbox.push(message);
                    assert(mailbox_view(progress.mailbox@) =~= mailbox_view(before).push(
                        (message.0, message.1@),
                    ));
                },
                None => {},
            }
            assert(self@.registers =~= old(self)@.registers.update(
                r as int,
                self.registers@[r as int].value@,
            ));
        } else {
            assert(self@.registers =~= old(self)@.registers);
        }
    }

    fn visit_alu(&mut self, progress: &mut Progress)
        requires
            old(self).wf(),
        ensures
            final(self).wf(),
            (final(self)@, final(progress)@) == visit_alu(old(self)@, old(progress)@),
    {
        if progress.done[9] || progress.fault.is_some() {
            return ;
        }
        match self.alu.step(&mut self.bus, &self.cables) {
            AluStatus::Done => {
                progress.done[9] = true;
            },
            AluStatus::Blocked => {},
            AluStatus::DivisionByZero => {
                progress.fault = Some(Fault::DivisionByZero);
            },
        }
        assert(self@.registers =~= old(self)@.registers);
    }

    fn sweep(&mut self, progress: &mut Progress, input: &Option<MValue>)
        requires
            old(self).wf(),
        ensures
            final(self).wf(),
            (final(self)@, final(progress)@) == sweep(
                old(self)@,
                old(progress)@,
                word_view(*input),
            ),
    {
        self.visit_ram(progress, input);
        let ghost machine_a = self@;
        let ghost progress_a = progress@;
        let mut r: usize = 0;
        while r < REGISTERS_NUM
            invariant
                r <= REGISTERS_NUM,
                self.wf(),
                (self@, progress@) == visit_registers(machine_a, progress_a, r as nat),
            decreases REGISTERS_NUM - r,
        {
            self.visit_register(progress, r);
            r += 1;
        }
        self.visit_alu(progress);
    }

    /// The ALU takes the messages of the mailbox, oldest first, and the
    /// control unit takes what the ALU passes on.
    fn drain(&mut self, mailbox: Vec<(usize, MValue)>)
        requires
            old(self).wf(),
        ensures
            final(self).wf(),
            final(self).control.microcode_counter == old(self).control.microcode_counter,
            final(self).control.current_microcodes == old(self).control.current_microcodes,
            final(self)@ == drain(old(self)@, mailbox_view(mailbox@)),
    {
        let mut mailbox = mailbox;
        let ghost all = mailbox_view(mailbox@);
        let mut taken: Vec<(usize, MValue)> = Vec::new();
        let count = mailbox.len();
        let mut i: usize = 0;
        assert(all.subrange(0, 0) =~= seq![]);
        while i < count
            invariant
                i <= count,
                count == mailbox@.len(),
                all == mailbox_view(mailbox@),
                self.wf(),
                self.control.microcode_counter == old(self).control.microcode_counter,
                self.control.current_microcodes == old(self).control.current_microcodes,
                self.registers == old(self).registers,
                self.ram == old(self).ram,
                self.bus == old(self).bus,
                self.cables == old(self).cables,
                self@ == drain(old(self)@, all.subrange(0, i as int)),
            decreases count - i,
        {
            let reg_num = mailbox[i].0;
            let word = mailbox[i].1.clone();
            proof {
                let upto = all.subrange(0, i + 1);
                assert(upto.drop_last() =~= all.subrange(0, i as int));
                assert(upto.last() == (reg_num, word@));
            }
            match self.alu.run(reg_num, word) {
                Some(instruction) => {
                    self.control.latch_instruction(&instruction);
                },
                None => {},
            }
            assert(self@.registers =~= old(self)@.registers);
            i += 1;
        }
        assert(all.subrange(0, count as int) =~= all);
    }

    /// One microstep. `input` is what the input channel answers if the
    /// RAM asks it in this microstep.
    pub fn microstep(&mut self, input: &Option<MValue>) -> (report: StepReport)
        requires
            old(self).wf(),
        ensures
            final(self).wf(),
            final(self)@ == microstep_model(old(self)@, word_view(*input)).machine,
            report.outcome == microstep_model(old(self)@, word_view(*input)).outcome,
            pair_view(report.output) == microstep_model(old(self)@, word_view(*input)).output,
            word_view(report.asked) == microstep_model(old(self)@, word_view(*input)).asked,
    {
        match self.control.set_cables(&mut self.cables, &self.alu.flags_reg) {
            Err(fault) => {
                assert(self@.registers =~= old(self)@.registers);
                return StepReport { outcome: StepOutcome::Faulted(fault), output: None, asked: None };
            },
            Ok(()) => {},
        }
        assert(self@.registers =~= old(self)@.registers);
        if self.cables.load(ControlCable::Halt) {
            return StepReport { outcome: StepOutcome::Halted, output: None, asked: None };
        }
        let mut progress = Progress {
            done: all_low::<10>(),
            mailbox: Vec::new(),
            output: None,
            asked: None,
            fault: None,
        };
        assert(progress@.done =~= fresh_progress().done);
        assert(progress@.mailbox =~= fresh_progress().mailbox);
        self.sweep(&mut progress, input);
        self.sweep(&mut progress, input);
        let Progress { done, mailbox, output, asked, fault } = progress;
        match fault {
            Some(fault) => {
                return StepReport { outcome: StepOutcome::Faulted(fault), output, asked };
            },
            None => {},
        }
        if !every_component(&done) {
            return StepReport { outcome: StepOutcome::Stalled, output, asked };
        }
        proof {
            let opened = MachineModel {
                control: control_set_cables(old(self)@.control, old(self)@.alu.flags).control,
                lines: control_set_cables(old(self)@.control, old(self)@.alu.flags).lines,
                ..old(self)@
            };
            let (machine_a, progress_a) = sweep(opened, fresh_progress(), word_view(*input));
            lemma_sweep_frame(opened, fresh_progress(), word_view(*input));
            lemma_sweep_frame(machine_a, progress_a, word_view(*input));
            assert(self@.control == opened.control);
            assert(self@.control.microcodes.len() == self.control.current_microcodes@.len());
            assert(opened.control.counter < opened.control.microcodes.len());
        }
        self.drain(mailbox);
        self.control.advance();
        StepReport { outcome: StepOutcome::Advanced, output, asked }
    }
}

/// An output event as a sequence of none or one.
pub open spec fn output_seq(output: Option<(u16, u16)>) -> Seq<(u16, u16)> {
    match output {
        Some(event) => seq![event],
        None => seq![],
    }
}

/// The output events of a run as plain values.
pub open spec fn outputs_view(outputs: Seq<(MValue, MValue)>) -> Seq<(u16, u16)> {
    outputs.map_values(|event: (MValue, MValue)| (event.0@, event.1@))
}

/// The result of a run, as plain values.
pub struct Ran {
    /// The machine afterwards.
    pub machine: MachineModel,
    /// How the last microstep ended.
    pub outcome: StepOutcome,
    /// The number of microsteps that were begun.
    pub microsteps: nat,
    /// The output events, oldest first.
    pub outputs: Seq<(u16, u16)>,
}

/// A run of at most `limit` microsteps, `input` being what the input
/// channel answers whenever it is asked: the run goes on while the
/// microsteps advance and ends with the first that does not.
pub open spec fn run_model(m: MachineModel, input: Option<u16>, limit: nat) -> Ran
    decreases limit,
{
    if limit == 0 {
        Ran { machine: m, outcome: StepOutcome::Advanced, microsteps: 0, outputs: seq![] }
    } else {
        let stepped = microstep_model(m, input);
        if stepped.outcome == StepOutcome::Advanced {
            let rest = run_model(stepped.machine, input, (limit - 1) as nat);
            Ran {
                machine: rest.machine,
                outcome: rest.outcome,
                microsteps: rest.microsteps + 1,
                outputs: output_seq(stepped.output) + rest.outputs,
            }
        } else {
            Ran {
                machine: stepped.machine,
                outcome: stepped.outcome,
                microsteps: 1,
                outputs: output_seq(stepped.output),
            }
        }
    }
}

/// A run that follows `count` microsteps which emitted `outputs`.
pub open spec fn continued(outputs: Seq<(u16, u16)>, count: nat, rest: Ran) -> Ran {
    Ran {
        machine: rest.machine,
        outcome: rest.outcome,
        microsteps: count + rest.microsteps,
        outputs: outputs + rest.outputs,
    }
}

/// What a run reports.
#[derive(Debug)]
pub struct RunReport {
    /// How the last microstep ended; `Advanced` where the limit was
    /// reached first.
    pub outcome: StepOutcome,
    /// The number of microsteps that were begun.
    pub microsteps: usize,
    /// The port and word of every output event, oldest first.
    pub outputs: Vec<(MValue, MValue)>,
}

impl Machine {
    /// Runs the machine until a microstep halts, stalls or faults, or
    /// until `limit` microsteps have been taken. `input` is what the input
    /// channel answers whenever it is asked.
    pub fn run(&mut self, input: &Option<MValue>, limit: usize) -> (report: RunReport)
        requires
            old(self).wf(),
        ensures
            final(self).wf(),
            final(self)@ == run_model(old(self)@, word_view(*input), limit as nat).machine,
            report.outcome == run_model(old(self)@, word_view(*input), limit as nat).outcome,
            report.microsteps == run_model(old(self)@, word_view(*input), limit as nat).microsteps,
            outputs_view(report.outputs@) == run_model(
                old(self)@,
                word_view(*input),
                limit as nat,
            ).outputs,
    {
        let mut outputs: Vec<(MValue, MValue)> = Vec::new();
        let mut count: usize = 0;
        let ghost answer = word_view(*input);
        assert(outputs_view(outputs@) =~= seq![]);
        assert(continued(seq![], 0, run_model(self@, answer, limit as nat)) =~= run_model(
            self@,
            answer,
            limit as nat,
        )) by {
            assert(seq![] + run_model(self@, answer, limit as nat).outputs =~= run_model(
                self@,
                answer,
                limit as nat,
            ).outputs);
        }
        while count < limit
            invariant
                count <= limit,
                self.wf(),
                answer == word_view(*input),
                run_model(old(self)@, answer, limit as nat) == continued(
                    outputs_view(outputs@),
                    count as nat,
                    run_model(self@, answer, (limit - count) as nat),
                ),
            decreases limit - count,
        {
            let ghost before = self@;
            let ghost seen = outputs_view(outputs@);
            let ghost stepped = microstep_model(before, answer);
            let StepReport { outcome, output, asked } = self.microstep(input);
            match output {
                Some(event) => {
                    outputs.push(event);
                },
                None => {},
            }
            assert(outputs_view(outputs@) =~= seen + output_seq(stepped.output));
            count += 1;
            if outcome != StepOutcome::Advanced {
                assert(run_model(old(self)@, answer, limit as nat).outputs =~= outputs_view(
                    outputs@,
                ));
                return RunReport { outcome, microsteps: count, outputs };
            }
            proof {
                let rest = run_model(stepped.machine, answer, (limit - count) as nat);
                assert((seen + output_seq(stepped.output)) + rest.outputs =~= seen + (output_seq(
                    stepped.output,
                ) + rest.outputs));
            }
        }
        assert(outputs_view(outputs@) + seq![] =~= outputs_view(outputs@));
        RunReport { outcome: StepOutcome::Advanced, microsteps: count, outputs }
    }
}

/// The word that a program image holds for address `i`: the big-endian
/// pair of bytes at that place, or zero where the image has no full pair.
pub open spec fn image_word(contents: Seq<u8>, i: int) -> u16 {
    if 2 * i + 1 < contents.len() {
        (contents[2 * i] * 256 + contents[2 * i + 1]) as u16
    } else {
        0
    }
}

/// The memory that a program image fills: the image's words from address
/// zero on, then zeros.
pub open spec fn image_memory(contents: Seq<u8>) -> Seq<u16> {
    Seq::new(RAM_SIZE as nat, |i: int| image_word(contents, i))
}

/// Lays a program image out in memory: big-endian words from address zero
/// on, the rest of the memory zero. What does not fit in the memory, and a
/// last byte without a partner, is left out.
pub fn load_ram(contents: &[u8]) -> (memory: Vec<MValue>)
    ensures
        memory@.len() == RAM_SIZE,
        words(memory@) == image_memory(contents@),
{
    let mut ret: Vec<MValue> = Vec::new();
    let pairs = contents.len() / 2;
    let mut i: usize = 0;
    while i < RAM_SIZE
        invariant
            i <= RAM_SIZE,
            pairs == contents@.len() / 2,
            ret@.len() == i,
            forall|j: int| 0 <= j < i ==> ret@[j]@ == image_word(contents@, j),
        decreases RAM_SIZE - i,
    {
        let mut x: u32 = 0;
        if i < pairs {
            let high: u32 = contents[2 * i] as u32;
            let low: u32 = contents[2 * i + 1] as u32;
            assert((high << 8) | low == high * 256 + low) by (bit_vector)
                requires
                    high < 256,
                    low < 256,
            ;
            x = (high << 8) | low;
        }
        ret.push(MValue::from_u32(x));
        i += 1;
    }
    assert(words(ret@) =~= image_memory(contents@));
    ret
}

/// What the output channel does with a word written to a port.
#[derive(Debug, Clone, Copy, PartialEq, Eq, Structural)]
pub enum Emission {
    /// The byte goes to standard output as a character.
    Character(u8),
    /// Port and word are logged.
    Log(u16, u16),
}

/// Port 1 prints the low eight bits of the word as a character; a word
/// for any other port is logged with its port.
pub open spec fn emission_of(port: u16, value: u16) -> Emission {
    if port == 1 {
        Emission::Character((value % 256) as u8)
    } else {
        Emission::Log(port, value)
    }
}

/// The output channel's answer to one output event.
pub fn run_output(port: &MValue, value: &MValue) -> (emission: Emission)
    ensures
        emission == emission_of(port@, value@),
{
    let p = port.as_u32();
    let v = value.as_u32();
    if p == 1 {
        Emission::Character((v % 256) as u8)
    } else {
        Emission::Log(p as u16, v as u16)
    }
}

/// The input channel's answer to a request for a port: no port has data.
pub fn run_input(port: &MValue) -> (answer: Option<MValue>)
    ensures
        answer is None,
{
    None
}

} // verus!
