//! The components that share the bus: registers, the ALU, the RAM and the
//! control unit, each as a step function over its own state.

use vstd::prelude::*;
use crate::bits::{bit_of, with_bit, MValue};
use crate::bus::{bus_read, bus_write, Bus};
use crate::control_cables::{ControlCables, CONTROL_CABLES_SIZE, REGISTERS_NUM};
use crate::microcodes::{
    create_fetch_microcodes, decode, decode_result, fetch_steps, steps_view, DecodeError,
    Microcodes,
};

verus! {

/// Number of words of RAM: one per address a word can hold.
pub const RAM_SIZE: usize = 0x1_0000;

/// Code of the instruction register.
pub const INSTRUCTION_REG_NUM: usize = 7;

/// Code of the stack pointer.
pub const STACK_POINTER_REG_NUM: usize = 6;

/// Code of the program counter.
pub const PROGRAM_COUNTER_REG_NUM: usize = 5;

/// Position of the Equal flag in the flags word.
pub const EQUAL_BIT_NUM: usize = 0;

/// Position of the Greater flag in the flags word.
pub const GREATER_BIT_NUM: usize = 1;

/// The named control lines, in the order of their indices. `RegBase` is
/// the index at which the per-register lines begin.
#[derive(Debug, Clone, Copy, PartialEq, Eq, Structural)]
pub enum ControlCable {
    Halt,
    MemoryAddressIn,
    RamIn,
    RamOut,
    MemoryIsIO,
    AddMul,
    SubDiv,
    AluOut,
    Interrupt,
    Equal,
    Greater,
    RegBase,
}

impl ControlCable {
    /// The index of the line in the control line set.
    pub open spec fn spec_index(self) -> usize {
        match self {
            ControlCable::Halt => 0,
            ControlCable::MemoryAddressIn => 1,
            ControlCable::RamIn => 2,
            ControlCable::RamOut => 3,
            ControlCable::MemoryIsIO => 4,
            ControlCable::AddMul => 5,
            ControlCable::SubDiv => 6,
            ControlCable::AluOut => 7,
            ControlCable::Interrupt => 8,
            ControlCable::Equal => 9,
            ControlCable::Greater => 10,
            ControlCable::RegBase => 11,
        }
    }

    /// The index of the line in the control line set.
    #[verifier::when_used_as_spec(spec_index)]
    pub fn index(self) -> (i: usize)
        ensures
            i == self.spec_index(),
            i < CONTROL_CABLES_SIZE,
    {
        match self {
            ControlCable::Halt => 0,
            ControlCable::MemoryAddressIn => 1,
            ControlCable::RamIn => 2,
            ControlCable::RamOut => 3,
            ControlCable::MemoryIsIO => 4,
            ControlCable::AddMul => 5,
            ControlCable::SubDiv => 6,
            ControlCable::AluOut => 7,
            ControlCable::Interrupt => 8,
            ControlCable::Equal => 9,
            ControlCable::Greater => 10,
            ControlCable::RegBase => 11,
        }
    }
}

/// Access to a control line set by the names of its lines.
pub trait ControlCablesExt {
    /// The levels of all lines, by index.
    spec fn levels(&self) -> Seq<bool>;

    /// Releases every line.
    fn reset(&mut self)
        ensures
            final(self).levels().len() == old(self).levels().len(),
            forall|i: int| 0 <= i < final(self).levels().len() ==> !final(self).levels()[i],
    ;

    /// The level of the named line.
    fn load(&self, c: ControlCable) -> (level: bool)
        ensures
            level == self.levels()[c.spec_index() as int],
    ;

    /// Drives the named line to `val`.
    fn store(&mut self, val: bool, c: ControlCable)
        ensures
            final(self).levels() == old(self).levels().update(c.spec_index() as int, val),
    ;
}

impl ControlCablesExt for ControlCables {
    open spec fn levels(&self) -> Seq<bool> {
        self@
    }

    fn reset(&mut self) {
        ControlCables::reset(self);
    }

    fn load(&self, c: ControlCable) -> (level: bool) {
        self.get(c.index())
    }

    fn store(&mut self, val: bool, c: ControlCable) {
        self.set(c.index(), val);
    }
}

/// Index of the In line of register `reg_num`.
pub open spec fn spec_reg_in(reg_num: usize) -> usize {
    (11 + 4 * reg_num) as usize
}

/// Index of the Out line of register `reg_num`.
pub open spec fn spec_reg_out(reg_num: usize) -> usize {
    (11 + 4 * reg_num + 1) as usize
}

/// Index of the Inc line of register `reg_num`.
pub open spec fn spec_reg_inc(reg_num: usize) -> usize {
    (11 + 4 * reg_num + 2) as usize
}

/// Index of the Dec line of register `reg_num`.
pub open spec fn spec_reg_dec(reg_num: usize) -> usize {
    (11 + 4 * reg_num + 3) as usize
}

/// Whether the four line indices of register `reg_num` fit the index type.
pub open spec fn lines_fit(reg_num: usize) -> bool {
    11 + 4 * reg_num + 3 <= usize::MAX
}

/// Index of the In line of register `reg_num`.
#[verifier::when_used_as_spec(spec_reg_in)]
pub fn reg_in(reg_num: usize) -> (line: usize)
    requires
        lines_fit(reg_num),
    ensures
        line == spec_reg_in(reg_num),
        line == 11 + 4 * reg_num,
{
    ControlCable::RegBase.index() + 4 * reg_num
}

/// Index of the Out line of register `reg_num`.
#[verifier::when_used_as_spec(spec_reg_out)]
pub fn reg_out(reg_num: usize) -> (line: usize)
    requires
        lines_fit(reg_num),
    ensures
        line == spec_reg_out(reg_num),
        line == 11 + 4 * reg_num + 1,
{
    ControlCable::RegBase.index() + 4 * reg_num + 1
}

/// Index of the Inc line of register `reg_num`.
#[verifier::when_used_as_spec(spec_reg_inc)]
pub fn reg_inc(reg_num: usize) -> (line: usize)
    requires
        lines_fit(reg_num),
    ensures
        line == spec_reg_inc(reg_num),
        line == 11 + 4 * reg_num + 2,
{
    ControlCable::RegBase.index() + 4 * reg_num + 2
}

/// Index of the Dec line of register `reg_num`.
#[verifier::when_used_as_spec(spec_reg_dec)]
pub fn reg_dec(reg_num: usize) -> (line: usize)
    requires
        lines_fit(reg_num),
    ensures
        line == spec_reg_dec(reg_num),
        line == 11 + 4 * reg_num + 3,
{
    ControlCable::RegBase.index() + 4 * reg_num + 3
}

/// `word` moved by `delta`, wrapping modulo `2^16`.
pub open spec fn wrapping(word: u16, delta: int) -> u16 {
    ((word + delta) % 0x1_0000) as u16
}

/// Whether what register `reg_num` latches is also sent to the ALU: the
/// two operand registers feed its latches, the instruction register feeds
/// the control unit through it.
pub open spec fn feeds_alu(reg_num: usize) -> bool {
    reg_num == 0 || reg_num == 1 || reg_num == INSTRUCTION_REG_NUM
}

/// A message for the ALU as plain values: the register code and the word.
pub open spec fn message_view(message: Option<(usize, MValue)>) -> Option<(usize, u16)> {
    match message {
        Some((reg_num, word)) => Some((reg_num, word@)),
        None => None,
    }
}

/// The result of a register's microstep, as plain values.
pub struct RegisterOutcome {
    /// The word the register holds afterwards.
    pub value: u16,
    /// The bus afterwards.
    pub bus: Option<u16>,
    /// The message for the ALU, where the register latched a word it feeds on.
    pub to_alu: Option<(usize, u16)>,
    /// Whether the step took place. A step that would have had to wait for
    /// the bus takes no effect at all.
    pub done: bool,
}

/// One microstep of register `reg_num` holding `value`: In, then Out, then
/// Inc, then Dec, each where its line is asserted.
///
/// In needs a word waiting on the bus. Out needs the bus free, which it is
/// after the register's own In.
pub open spec fn register_step(
    reg_num: usize,
    value: u16,
    bus: Option<u16>,
    lines: Seq<bool>,
) -> RegisterOutcome {
    let reads = lines[reg_in(reg_num) as int];
    let writes = lines[reg_out(reg_num) as int];
    if (reads && bus is None) || (writes && !reads && bus is Some) {
        RegisterOutcome { value, bus, to_alu: None, done: false }
    } else {
        let latched = if reads {
            bus.unwrap()
        } else {
            value
        };
        let after_read = if reads {
            bus_read(bus).0
        } else {
            bus
        };
        let after_write = if writes {
            bus_write(after_read, latched).0
        } else {
            after_read
        };
        let counted_up = if lines[reg_inc(reg_num) as int] {
            wrapping(latched, 1)
        } else {
            latched
        };
        let counted_down = if lines[reg_dec(reg_num) as int] {
            wrapping(counted_up, -1)
        } else {
            counted_up
        };
        RegisterOutcome {
            value: counted_down,
            bus: after_write,
            to_alu: if reads && feeds_alu(reg_num) {
                Some((reg_num, latched))
            } else {
                None
            },
            done: true,
        }
    }
}

/// What a register reports of its microstep.
#[derive(Debug)]
pub struct RegisterReport {
    /// Whether the step took place.
    pub done: bool,
    /// The message for the ALU, if the step produced one.
    pub to_alu: Option<(usize, MValue)>,
}

/// A register: one word and the code that selects its control lines.
#[derive(Debug)]
pub struct RegisterComponent {
    pub reg_num: usize,
    pub value: MValue,
}

impl RegisterComponent {
    /// A register with the given code and initial value.
    pub fn new(reg_num: usize, value: MValue) -> (reg: RegisterComponent)
        ensures
            reg.reg_num == reg_num,
            reg.value@ == value@,
    {
        RegisterComponent { reg_num, value }
    }

    /// The register's part in a microstep.
    pub fn step(&mut self, bus: &mut Bus, cables: &ControlCables) -> (report: RegisterReport)
        requires
            old(self).reg_num < REGISTERS_NUM,
        ensures
            final(self).reg_num == old(self).reg_num,
            final(self).value@ == register_step(
                old(self).reg_num,
                old(self).value@,
                old(bus)@,
                cables@,
            ).value,
            final(bus)@ == register_step(
                old(self).reg_num,
                old(self).value@,
                old(bus)@,
                cables@,
            ).bus,
            report.done == register_step(
                old(self).reg_num,
                old(self).value@,
                old(bus)@,
                cables@,
            ).done,
            message_view(report.to_alu) == register_step(
                old(self).reg_num,
                old(self).value@,
                old(bus)@,
                cables@,
            ).to_alu,
    {
        let reads = cables.get(reg_in(self.reg_num));
        let writes = cables.get(reg_out(self.reg_num));
        if (reads && !bus.is_pending()) || (writes && !reads && bus.is_pending()) {
            return RegisterReport { done: false, to_alu: None };
        }
        let mut to_alu: Option<(usize, MValue)> = None;
        if reads {
            bus.read_into(&mut self.value);
            if self.reg_num == 0 || self.reg_num == 1 || self.reg_num == INSTRUCTION_REG_NUM {
                to_alu = Some((self.reg_num, self.value.clone()));
            }
        }
        if writes {
            bus.write_from(&self.value);
        }
        if cables.get(reg_inc(self.reg_num)) {
            self.value.add(&MValue::from_u32(1));
        }
        if cables.get(reg_dec(self.reg_num)) {
            self.value.sub(&MValue::from_u32(1));
        }
        RegisterReport { done: true, to_alu }
    }
}

/// The ALU as plain values: its two latches and the flags word.
pub struct AluModel {
    pub a: u16,
    pub b: u16,
    pub flags: u16,
}

/// How the ALU's part in a microstep ended.
#[derive(Debug, Clone, Copy, PartialEq, Eq, Structural)]
pub enum AluStatus {
    /// The step took place.
    Done,
    /// The result could not be put on the bus, which still held a word.
    Blocked,
    /// A division was asked for while latch B held zero.
    DivisionByZero,
}

/// What the ALU puts out for latches `a` and `b` under the two mode lines.
/// Of a division by zero nothing is said.
pub open spec fn alu_result(a: u16, b: u16, add_mul: bool, sub_div: bool) -> u16 {
    if add_mul {
        if sub_div {
            (a / b) as u16
        } else {
            ((a * b) % 0x1_0000) as u16
        }
    } else {
        if sub_div {
            ((a - b) % 0x1_0000) as u16
        } else {
            ((a + b) % 0x1_0000) as u16
        }
    }
}

/// The bus after the ALU's part in a microstep, and how that part ended.
/// The latches are never changed by it.
pub open spec fn alu_step(alu: AluModel, bus: Option<u16>, lines: Seq<bool>) -> (
    Option<u16>,
    AluStatus,
) {
    let add_mul = lines[ControlCable::AddMul.index() as int];
    let sub_div = lines[ControlCable::SubDiv.index() as int];
    if !lines[ControlCable::AluOut.index() as int] {
        (bus, AluStatus::Done)
    } else if add_mul && sub_div && alu.b == 0 {
        (bus, AluStatus::DivisionByZero)
    } else if bus is Some {
        (bus, AluStatus::Blocked)
    } else {
        (Some(alu_result(alu.a, alu.b, add_mul, sub_div)), AluStatus::Done)
    }
}

/// The flags word once Equal and Greater have been set from the latches:
/// Equal says `a == b`, Greater says `a > b`, the other bits stay.
pub open spec fn flags_after(flags: u16, a: u16, b: u16) -> u16 {
    with_bit(
        with_bit(flags as nat, GREATER_BIT_NUM as nat, a > b) as nat,
        EQUAL_BIT_NUM as nat,
        a == b,
    ) as u16
}

/// The flags follow the latches: once they have been brought up to date,
/// Equal says whether the latches hold the same word and Greater whether
/// latch A holds more than latch B.
pub proof fn lemma_flags_follow_latches(flags: u16, a: u16, b: u16)
    ensures
        bit_of(flags_after(flags, a, b) as nat, EQUAL_BIT_NUM as nat) == (a == b),
        bit_of(flags_after(flags, a, b) as nat, GREATER_BIT_NUM as nat) == (a > b),
{
    vstd::arithmetic::power2::lemma2_to64();
    let first = with_bit(flags as nat, 1, a > b);
    assert(0 <= first <= 0xffff);
    let second = with_bit(first as nat, 0, a == b);
    assert(0 <= second <= 0xffff);
}

/// The ALU after the message `(reg_num, word)` from a register: code 0
/// loads latch A, code 1 loads latch B, and the flags follow the latches.
pub open spec fn alu_receive(alu: AluModel, reg_num: usize, word: u16) -> AluModel {
    let a = if reg_num == 0 {
        word
    } else {
        alu.a
    };
    let b = if reg_num == 1 {
        word
    } else {
        alu.b
    };
    AluModel { a, b, flags: flags_after(alu.flags, a, b) }
}

/// What the ALU passes on to the control unit from the message
/// `(reg_num, word)`: the word, where it came from the instruction register.
pub open spec fn alu_forward(reg_num: usize, word: u16) -> Option<u16> {
    if reg_num == INSTRUCTION_REG_NUM {
        Some(word)
    } else {
        None
    }
}

/// A word as a plain value, where there is one.
pub open spec fn word_view(word: Option<MValue>) -> Option<u16> {
    match word {
        Some(w) => Some(w@),
        None => None,
    }
}

/// The arithmetic unit: two operand latches and the flags they imply.
#[derive(Debug)]
pub struct AluComponent {
    pub reg_a: MValue,
    pub reg_b: MValue,
    pub flags_reg: MValue,
}

impl View for AluComponent {
    type V = AluModel;

    open spec fn view(&self) -> AluModel {
        AluModel { a: self.reg_a@, b: self.reg_b@, flags: self.flags_reg@ }
    }
}

impl AluComponent {
    /// An ALU with both latches and the flags word at zero.
    pub fn new() -> (alu: AluComponent)
        ensures
            alu@ == (AluModel { a: 0, b: 0, flags: 0 }),
    {
        AluComponent {
            reg_a: MValue::from_u32(0),
            reg_b: MValue::from_u32(0),
            flags_reg: MValue::from_u32(0),
        }
    }

    /// Takes one message from a register: loads the latch it is meant for,
    /// brings the flags up to date, and hands back the word where it is
    /// meant for the control unit.
    pub fn run(&mut self, reg_num: usize, mvalue: MValue) -> (forward: Option<MValue>)
        ensures
            final(self)@ == alu_receive(old(self)@, reg_num, mvalue@),
            word_view(forward) == alu_forward(reg_num, mvalue@),
            bit_of(final(self).flags_reg@ as nat, EQUAL_BIT_NUM as nat) == (final(self).reg_a@
                == final(self).reg_b@),
            bit_of(final(self).flags_reg@ as nat, GREATER_BIT_NUM as nat) == (final(self).reg_a@
                > final(self).reg_b@),
    {
        if reg_num == 0 {
            self.reg_a.set(&mvalue);
        }
        if reg_num == 1 {
            self.reg_b.set(&mvalue);
        }
        let a = self.reg_a.as_u32();
        let b = self.reg_b.as_u32();
        self.flags_reg.set_bit(GREATER_BIT_NUM, a > b);
        self.flags_reg.set_bit(EQUAL_BIT_NUM, a == b);
        if reg_num == INSTRUCTION_REG_NUM {
            Some(mvalue)
        } else {
            None
        }
    }

    /// The ALU's part in a microstep: where `AluOut` is asserted, the
    /// result selected by the mode lines goes onto the bus.
    pub fn step(&self, bus: &mut Bus, cables: &ControlCables) -> (status: AluStatus)
        ensures
            (final(bus)@, status) == alu_step(self@, old(bus)@, cables@),
    {
        if cables.load(ControlCable::AluOut) {
            let mut ret = self.reg_a.clone();
            if cables.load(ControlCable::AddMul) {
                if cables.load(ControlCable::SubDiv) {
                    if self.reg_b.as_u32() == 0 {
                        return AluStatus::DivisionByZero;
                    }
                    if bus.is_pending() {
                        return AluStatus::Blocked;
                    }
                    ret.div(&self.reg_b);
                } else {
                    if bus.is_pending() {
                        return AluStatus::Blocked;
                    }
                    ret.mul(&self.reg_b);
                }
            } else {
                if bus.is_pending() {
                    return AluStatus::Blocked;
                }
                if cables.load(ControlCable::SubDiv) {
                    ret.sub(&self.reg_b);
                } else {
                    ret.add(&self.reg_b);
                }
            }
            bus.write_from(&ret);
        }
        AluStatus::Done
    }
}

/// The words of a memory as plain values.
pub open spec fn words(memory: Seq<MValue>) -> Seq<u16> {
    memory.map_values(|word: MValue| word@)
}

/// A pair of words as plain values, where there is one.
pub open spec fn pair_view(pair: Option<(MValue, MValue)>) -> Option<(u16, u16)> {
    match pair {
        Some((first, second)) => Some((first@, second@)),
        None => None,
    }
}

/// The RAM as plain values: the memory cells, the address register (MAR)
/// and the data register (MDR).
pub struct RamModel {
    pub memory: Seq<u16>,
    pub mar: u16,
    pub mdr: u16,
}

/// The result of the RAM's microstep, as plain values.
pub struct RamOutcome {
    /// The RAM afterwards.
    pub ram: RamModel,
    /// The bus afterwards.
    pub bus: Option<u16>,
    /// The port and the word sent to the output channel, if any.
    pub output: Option<(u16, u16)>,
    /// The port that the input channel was asked for, if any.
    pub asked: Option<u16>,
    /// Whether the step took place. A step that would have had to wait for
    /// the bus takes no effect at all.
    pub done: bool,
}

/// One microstep of the RAM: `MemoryAddressIn`, then `RamIn`, then
/// `RamOut`, each where its line is asserted. `input` is what the input
/// channel answers, should it be asked.
///
/// - `MemoryAddressIn` latches the bus into MAR and, unless `MemoryIsIO`,
///   brings the addressed cell into MDR.
/// - `RamIn` latches the bus into MDR and sends it to the output channel
///   (with `MemoryIsIO`) or stores it in the addressed cell.
/// - `RamOut` puts on the bus the answer of the input channel, if it gave
///   one (with `MemoryIsIO`), or the addressed cell by way of MDR.
///
/// The bus hands out one word, so the two latching lines together wait
/// for ever.
pub open spec fn ram_step(
    ram: RamModel,
    bus: Option<u16>,
    lines: Seq<bool>,
    input: Option<u16>,
) -> RamOutcome {
    let address_in = lines[ControlCable::MemoryAddressIn.index() as int];
    let data_in = lines[ControlCable::RamIn.index() as int];
    let data_out = lines[ControlCable::RamOut.index() as int];
    let io = lines[ControlCable::MemoryIsIO.index() as int];
    let reads = address_in || data_in;
    let drives = data_out && (!io || input is Some);
    if (reads && bus is None) || (address_in && data_in) || (drives && !reads && bus is Some) {
        RamOutcome { ram, bus, output: None, asked: None, done: false }
    } else {
        let after_read = if reads {
            bus_read(bus).0
        } else {
            bus
        };
        let mar = if address_in {
            bus.unwrap()
        } else {
            ram.mar
        };
        let latched = if address_in && !io {
            ram.memory[mar as int]
        } else if data_in {
            bus.unwrap()
        } else {
            ram.mdr
        };
        let memory = if data_in && !io {
            ram.memory.update(mar as int, latched)
        } else {
            ram.memory
        };
        let mdr = if data_out && !io {
            memory[mar as int]
        } else {
            latched
        };
        RamOutcome {
            ram: RamModel { memory, mar, mdr },
            bus: if data_out {
                if io {
                    match input {
                        Some(word) => Some(word),
                        None => after_read,
                    }
                } else {
                    Some(mdr)
                }
            } else {
                after_read
            },
            output: if data_in && io {
                Some((mar, latched))
            } else {
                None
            },
            asked: if data_out && io {
                Some(mar)
            } else {
                None
            },
            done: true,
        }
    }
}

/// What the RAM reports of its microstep.
#[derive(Debug)]
pub struct RamReport {
    /// Whether the step took place.
    pub done: bool,
    /// The port and the word for the output channel, if any.
    pub output: Option<(MValue, MValue)>,
    /// The port that the input channel was asked for, if any.
    pub asked: Option<MValue>,
}

/// The memory: `RAM_SIZE` words, the address register and the data register.
#[derive(Debug)]
pub struct RamComponent {
    pub memory: Vec<MValue>,
    pub memory_address_register: MValue,
    pub ram_register: MValue,
}

impl View for RamComponent {
    type V = RamModel;

    open spec fn view(&self) -> RamModel {
        RamModel {
            memory: words(self.memory@),
            mar: self.memory_address_register@,
            mdr: self.ram_register@,
        }
    }
}

impl RamComponent {
    /// Whether the memory has a cell for every address.
    pub open spec fn wf(&self) -> bool {
        self.memory@.len() == RAM_SIZE
    }

    /// A RAM over the given cells, its two registers at zero.
    pub fn new(memory: Vec<MValue>) -> (ram: RamComponent)
        requires
            memory@.len() == RAM_SIZE,
        ensures
            ram.wf(),
            ram@ == (RamModel { memory: words(memory@), mar: 0, mdr: 0 }),
    {
        RamComponent {
            memory,
            memory_address_register: MValue::from_u32(0),
            ram_register: MValue::from_u32(0),
        }
    }

    /// The RAM's part in a microstep. `input` is what the input channel
    /// answers, should this step ask it.
    pub fn step(&mut self, bus: &mut Bus, cables: &ControlCables, input: &Option<MValue>) -> (report:
        RamReport)
        requires
            old(self).wf(),
        ensures
            final(self).wf(),
            final(self)@ == ram_step(old(self)@, old(bus)@, cables@, word_view(*input)).ram,
            final(bus)@ == ram_step(old(self)@, old(bus)@, cables@, word_view(*input)).bus,
            report.done == ram_step(old(self)@, old(bus)@, cables@, word_view(*input)).done,
            pair_view(report.output) == ram_step(
                old(self)@,
                old(bus)@,
                cables@,
                word_view(*input),
            ).output,
            word_view(report.asked) == ram_step(
                old(self)@,
                old(bus)@,
                cables@,
                word_view(*input),
            ).asked,
    {
        let address_in = cables.load(ControlCable::MemoryAddressIn);
        let data_in = cables.load(ControlCable::RamIn);
        let data_out = cables.load(ControlCable::RamOut);
        let io = cables.load(ControlCable::MemoryIsIO);
        let reads = address_in || data_in;
        let drives = data_out && (!io || input.is_some());
        if (reads && !bus.is_pending()) || (address_in && data_in) || (drives && !reads
            && bus.is_pending()) {
            return RamReport { done: false, output: None, asked: None };
        }
        let mut output: Option<(MValue, MValue)> = None;
        let mut asked: Option<MValue> = None;
        if address_in {
            bus.read_into(&mut self.memory_address_register);
            if !io {
                let memory_index = self.memory_address_register.as_u32() as usize;
                self.ram_register.set(&self.memory[memory_index]);
            }
        }
        if data_in {
            bus.read_into(&mut self.ram_register);
            if io {
                output = Some((self.memory_address_register.clone(), self.ram_register.clone()));
            } else {
                let memory_index = self.memory_address_register.as_u32() as usize;
                let ghost before = self.memory@;
                self.memory[memory_index].set(&self.ram_register);
                assert(words(self.memory@) =~= words(before).update(
                    memory_index as int,
                    self.ram_register@,
                ));
            }
        }
        if data_out {
            if io {
                asked = Some(self.memory_address_register.clone());
                match input {
                    Some(word) => {
                        bus.write_from(word);
                    },
                    None => {},
                }
            } else {
                let memory_index = self.memory_address_register.as_u32() as usize;
                self.ram_register.set(&self.memory[memory_index]);
                bus.write_from(&self.ram_register);
            }
        }
        RamReport { done: true, output, asked }
    }
}

/// Why the simulation cannot go on.
#[derive(Debug, Clone, Copy, PartialEq, Eq, Structural)]
pub enum Fault {
    /// The instruction register holds an opcode that names no operation.
    UnknownOpcode,
    /// The instruction register holds an operation reserved for interrupts.
    ReservedOpcode,
    /// A microstep names a control line that does not exist, as the
    /// microcode of an instruction does whose register field is above 7.
    InvalidLine,
    /// The ALU was asked to divide while latch B held zero.
    DivisionByZero,
}

/// The control unit as plain values: the microcode pointer, the current
/// microcode list and its copy of the instruction register.
pub struct ControlModel {
    pub counter: nat,
    pub microcodes: Seq<Seq<usize>>,
    pub ir: u16,
}

/// Whether every index in a microstep names a control line.
pub open spec fn lines_valid(step: Seq<usize>) -> bool {
    forall|k: int| 0 <= k < step.len() ==> step[k] < CONTROL_CABLES_SIZE
}

/// The control lines with the first `n` entries of `step` asserted and
/// every other line released.
pub open spec fn asserted_prefix(step: Seq<usize>, n: int) -> Seq<bool> {
    Seq::new(CONTROL_CABLES_SIZE as nat, |i: int| exists|k: int| 0 <= k < n && step[k] == i)
}

/// The control lines with exactly the lines of `step` asserted.
pub open spec fn asserted(step: Seq<usize>) -> Seq<bool> {
    asserted_prefix(step, step.len() as int)
}

/// The control lines with none asserted.
pub open spec fn released() -> Seq<bool> {
    Seq::new(CONTROL_CABLES_SIZE as nat, |i: int| false)
}

/// The fault that a failed decoding is reported as.
pub open spec fn decode_fault(error: DecodeError) -> Fault {
    match error {
        DecodeError::UnknownOpcode => Fault::UnknownOpcode,
        DecodeError::ReservedOpcode => Fault::ReservedOpcode,
    }
}

/// The control unit once it has made sure that its pointer stands inside a
/// microcode list: where the list is used up, the instruction register is
/// decoded under `flags` and the pointer goes back to the start.
pub open spec fn control_select(control: ControlModel, flags: u16) -> Result<ControlModel, Fault> {
    if control.counter == control.microcodes.len() {
        match decode_result(
            control.ir as u32,
            bit_of(flags as nat, EQUAL_BIT_NUM as nat),
            bit_of(flags as nat, GREATER_BIT_NUM as nat),
        ) {
            Ok(list) => Ok(ControlModel { counter: 0, microcodes: list, ir: control.ir }),
            Err(error) => Err(decode_fault(error)),
        }
    } else {
        Ok(control)
    }
}

/// What opening a microstep leaves behind.
pub struct Selected {
    /// The control unit afterwards.
    pub control: ControlModel,
    /// The control lines afterwards.
    pub lines: Seq<bool>,
    /// The fault that kept the microstep from being opened, if any.
    pub fault: Option<Fault>,
}

/// Opening a microstep: every line is released, the microstep under the
/// pointer is chosen (decoding first where the list is used up), and its
/// lines are asserted. On a fault every line stays released.
pub open spec fn control_set_cables(control: ControlModel, flags: u16) -> Selected {
    match control_select(control, flags) {
        Err(fault) => Selected { control, lines: released(), fault: Some(fault) },
        Ok(next) => {
            let step = next.microcodes[next.counter as int];
            if lines_valid(step) {
                Selected { control: next, lines: asserted(step), fault: None }
            } else {
                Selected { control: next, lines: released(), fault: Some(Fault::InvalidLine) }
            }
        },
    }
}

/// A fault as the error of a result.
pub open spec fn fault_result(fault: Option<Fault>) -> Result<(), Fault> {
    match fault {
        Some(f) => Err(f),
        None => Ok(()),
    }
}

/// Whether every index in `step` names a control line.
pub fn step_is_valid(step: &Vec<usize>) -> (valid: bool)
    ensures
        valid == lines_valid(step@),
{
    let mut k: usize = 0;
    while k < step.len()
        invariant
            k <= step@.len(),
            forall|j: int| 0 <= j < k ==> step@[j] < CONTROL_CABLES_SIZE,
        decreases step@.len() - k,
    {
        if step[k] >= CONTROL_CABLES_SIZE {
            return false;
        }
        k += 1;
    }
    true
}

/// Asserts the lines of `step` on a set of lines of which none is asserted.
pub fn assert_lines(cables: &mut ControlCables, step: &Vec<usize>)
    requires
        lines_valid(step@),
        old(cables)@ == released(),
    ensures
        final(cables)@ == asserted(step@),
{
    let mut k: usize = 0;
    assert(cables@ =~= asserted_prefix(step@, 0));
    while k < step.len()
        invariant
            k <= step@.len(),
            lines_valid(step@),
            cables@ == asserted_prefix(step@, k as int),
        decreases step@.len() - k,
    {
        cables.set(step[k], true);
        assert(cables@ =~= asserted_prefix(step@, k + 1));
        k += 1;
    }
}

/// The control unit: it walks through the microcode of the current
/// instruction and decodes the next one when that is used up.
#[derive(Debug)]
pub struct ControlComponent {
    pub microcode_counter: usize,
    pub current_microcodes: Microcodes,
    pub instruction_register: MValue,
}

impl View for ControlComponent {
    type V = ControlModel;

    open spec fn view(&self) -> ControlModel {
        ControlModel {
            counter: self.microcode_counter as nat,
            microcodes: steps_view(self.current_microcodes@),
            ir: self.instruction_register@,
        }
    }
}

impl ControlComponent {
    /// Whether the pointer stands inside the list or right behind it.
    pub open spec fn wf(&self) -> bool {
        self.microcode_counter <= self.current_microcodes@.len()
    }

    /// A control unit about to run the fetch sequence, its instruction
    /// register at zero.
    pub fn new() -> (control: ControlComponent)
        ensures
            control.wf(),
            control@ == (ControlModel { counter: 0, microcodes: fetch_steps(), ir: 0 }),
    {
        ControlComponent {
            microcode_counter: 0,
            current_microcodes: create_fetch_microcodes(),
            instruction_register: MValue::from_u32(0),
        }
    }

    /// Opens a microstep: releases every line, decodes the instruction
    /// register under the flags in `flags_reg` where the current list is
    /// used up, and asserts the lines of the microstep under the pointer.
    pub fn set_cables(&mut self, cables: &mut ControlCables, flags_reg: &MValue) -> (opened: Result<
        (),
        Fault,
    >)
        requires
            old(self).wf(),
        ensures
            final(self).wf(),
            final(self)@ == control_set_cables(old(self)@, flags_reg@).control,
            final(cables)@ == control_set_cables(old(self)@, flags_reg@).lines,
            opened == fault_result(control_set_cables(old(self)@, flags_reg@).fault),
            opened is Ok ==> final(self).microcode_counter < final(self).current_microcodes@.len(),
    {
        cables.reset();
        assert(cables@ =~= released());
        if self.microcode_counter == self.current_microcodes.len() {
            match decode(self.instruction_register.as_u32(), flags_reg) {
                Ok(list) => {
                    self.current_microcodes = list;
                    self.microcode_counter = 0;
                },
                Err(DecodeError::UnknownOpcode) => {
                    return Err(Fault::UnknownOpcode);
                },
                Err(DecodeError::ReservedOpcode) => {
                    return Err(Fault::ReservedOpcode);
                },
            }
        }
        assert(fetch_steps().len() == 2);
        assert(steps_view(self.current_microcodes@).len() == self.current_microcodes@.len());
        let current = &self.current_microcodes[self.microcode_counter];
        if !step_is_valid(current) {
            return Err(Fault::InvalidLine);
        }
        assert_lines(cables, current);
        Ok(())
    }

    /// Takes the word that the ALU passed on as the new content of the
    /// instruction register.
    pub fn latch_instruction(&mut self, word: &MValue)
        ensures
            final(self)@ == (ControlModel { ir: word@, ..old(self)@ }),
            final(self).microcode_counter == old(self).microcode_counter,
            final(self).current_microcodes == old(self).current_microcodes,
    {
        self.instruction_register.set(word);
    }

    /// Moves the pointer to the next microstep.
    pub fn advance(&mut self)
        requires
            old(self).microcode_counter < old(self).current_microcodes@.len(),
        ensures
            final(self)@ == (ControlModel { counter: old(self)@.counter + 1, ..old(self)@ }),
            final(self).wf(),
    {
        let length = self.current_microcodes.len();
        self.microcode_counter = self.microcode_counter + 1;
    }
}

} // verus!
