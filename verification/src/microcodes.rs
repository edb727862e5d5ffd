//! The instruction set: opcodes, register codes, the layout of an
//! instruction word, and the microcode that each instruction expands to.

use vstd::prelude::*;
use crate::bits::{bit_of, MValue};
use crate::cpu_component::{
    reg_dec, reg_in, reg_inc, reg_out, ControlCable, EQUAL_BIT_NUM, GREATER_BIT_NUM,
    INSTRUCTION_REG_NUM, PROGRAM_COUNTER_REG_NUM, STACK_POINTER_REG_NUM,
};

verus! {

/// A microcode list: microsteps in order, each the indices of the control
/// lines to assert.
pub type Microcodes = Vec<Vec<usize>>;

/// The operations of the machine. The code of each is the value of the
/// opcode field of its instruction word.
#[allow(non_camel_case_types)]
#[derive(PartialEq, Eq, Hash, Debug, Clone, Copy, Structural)]
pub enum INSTRUCTION {
    HLT,
    MOV,
    ADD,
    SUB,
    MUL,
    DIV,
    CALL,
    JE,
    JNE,
    JG,
    JGE,
    JL,
    JLE,
    PUSH,
    POP,
    OUT,
    IN,
    INT,
    EOI,
    INC,
    DEC,
    LOAD,
    STORE,
    LDCNST,
}

impl INSTRUCTION {
    /// The value of the opcode field for this operation.
    pub open spec fn spec_code(self) -> u32 {
        match self {
            INSTRUCTION::HLT => 0,
            INSTRUCTION::MOV => 1,
            INSTRUCTION::ADD => 2,
            INSTRUCTION::SUB => 3,
            INSTRUCTION::MUL => 4,
            INSTRUCTION::DIV => 5,
            INSTRUCTION::CALL => 6,
            INSTRUCTION::JE => 7,
            INSTRUCTION::JNE => 8,
            INSTRUCTION::JG => 9,
            INSTRUCTION::JGE => 10,
            INSTRUCTION::JL => 11,
            INSTRUCTION::JLE => 12,
            INSTRUCTION::PUSH => 13,
            INSTRUCTION::POP => 14,
            INSTRUCTION::OUT => 15,
            INSTRUCTION::IN => 16,
            INSTRUCTION::INT => 18,
            INSTRUCTION::EOI => 19,
            INSTRUCTION::INC => 20,
            INSTRUCTION::DEC => 21,
            INSTRUCTION::LOAD => 22,
            INSTRUCTION::STORE => 23,
            INSTRUCTION::LDCNST => 24,
        }
    }

    /// The value of the opcode field for this operation.
    #[verifier::when_used_as_spec(spec_code)]
    pub fn code(self) -> (code: u32)
        ensures
            code == self.spec_code(),
            code < 64,
    {
        match self {
            INSTRUCTION::HLT => 0,
            INSTRUCTION::MOV => 1,
            INSTRUCTION::ADD => 2,
            INSTRUCTION::SUB => 3,
            INSTRUCTION::MUL => 4,
            INSTRUCTION::DIV => 5,
            INSTRUCTION::CALL => 6,
            INSTRUCTION::JE => 7,
            INSTRUCTION::JNE => 8,
            INSTRUCTION::JG => 9,
            INSTRUCTION::JGE => 10,
            INSTRUCTION::JL => 11,
            INSTRUCTION::JLE => 12,
            INSTRUCTION::PUSH => 13,
            INSTRUCTION::POP => 14,
            INSTRUCTION::OUT => 15,
            INSTRUCTION::IN => 16,
            INSTRUCTION::INT => 18,
            INSTRUCTION::EOI => 19,
            INSTRUCTION::INC => 20,
            INSTRUCTION::DEC => 21,
            INSTRUCTION::LOAD => 22,
            INSTRUCTION::STORE => 23,
            INSTRUCTION::LDCNST => 24,
        }
    }

    /// The operation whose opcode field has this value, if there is one.
    pub open spec fn spec_from_u32(code: u32) -> Option<INSTRUCTION> {
        if code == 0 {
            Some(INSTRUCTION::HLT)
        } else if code == 1 {
            Some(INSTRUCTION::MOV)
        } else if code == 2 {
            Some(INSTRUCTION::ADD)
        } else if code == 3 {
            Some(INSTRUCTION::SUB)
        } else if code == 4 {
            Some(INSTRUCTION::MUL)
        } else if code == 5 {
            Some(INSTRUCTION::DIV)
        } else if code == 6 {
            Some(INSTRUCTION::CALL)
        } else if code == 7 {
            Some(INSTRUCTION::JE)
        } else if code == 8 {
            Some(INSTRUCTION::JNE)
        } else if code == 9 {
            Some(INSTRUCTION::JG)
        } else if code == 10 {
            Some(INSTRUCTION::JGE)
        } else if code == 11 {
            Some(INSTRUCTION::JL)
        } else if code == 12 {
            Some(INSTRUCTION::JLE)
        } else if code == 13 {
            Some(INSTRUCTION::PUSH)
        } else if code == 14 {
            Some(INSTRUCTION::POP)
        } else if code == 15 {
            Some(INSTRUCTION::OUT)
        } else if code == 16 {
            Some(INSTRUCTION::IN)
        } else if code == 18 {
            Some(INSTRUCTION::INT)
        } else if code == 19 {
            Some(INSTRUCTION::EOI)
        } else if code == 20 {
            Some(INSTRUCTION::INC)
        } else if code == 21 {
            Some(INSTRUCTION::DEC)
        } else if code == 22 {
            Some(INSTRUCTION::LOAD)
        } else if code == 23 {
            Some(INSTRUCTION::STORE)
        } else if code == 24 {
            Some(INSTRUCTION::LDCNST)
        } else {
            None
        }
    }

    /// The operation whose opcode field has this value, if there is one.
    #[verifier::when_used_as_spec(spec_from_u32)]
    pub fn from_u32(code: u32) -> (decoded: Option<INSTRUCTION>)
        ensures
            decoded == INSTRUCTION::spec_from_u32(code),
    {
        match code {
            0 => Some(INSTRUCTION::HLT),
            1 => Some(INSTRUCTION::MOV),
            2 => Some(INSTRUCTION::ADD),
            3 => Some(INSTRUCTION::SUB),
            4 => Some(INSTRUCTION::MUL),
            5 => Some(INSTRUCTION::DIV),
            6 => Some(INSTRUCTION::CALL),
            7 => Some(INSTRUCTION::JE),
            8 => Some(INSTRUCTION::JNE),
            9 => Some(INSTRUCTION::JG),
            10 => Some(INSTRUCTION::JGE),
            11 => Some(INSTRUCTION::JL),
            12 => Some(INSTRUCTION::JLE),
            13 => Some(INSTRUCTION::PUSH),
            14 => Some(INSTRUCTION::POP),
            15 => Some(INSTRUCTION::OUT),
            16 => Some(INSTRUCTION::IN),
            18 => Some(INSTRUCTION::INT),
            19 => Some(INSTRUCTION::EOI),
            20 => Some(INSTRUCTION::INC),
            21 => Some(INSTRUCTION::DEC),
            22 => Some(INSTRUCTION::LOAD),
            23 => Some(INSTRUCTION::STORE),
            24 => Some(INSTRUCTION::LDCNST),
            _ => None,
        }
    }
}

/// The registers, by the code that names them in an instruction word.
#[allow(non_camel_case_types)]
#[derive(PartialEq, Eq, Hash, Debug, Clone, Copy, Structural)]
pub enum REG {
    A,
    B,
    C,
    D,
    E,
    PC,
    SP,
    INST,
}

impl REG {
    /// The code that names this register.
    pub open spec fn spec_code(self) -> u32 {
        match self {
            REG::A => 0,
            REG::B => 1,
            REG::C => 2,
            REG::D => 3,
            REG::E => 4,
            REG::PC => 5,
            REG::SP => 6,
            REG::INST => 7,
        }
    }

    /// The code that names this register.
    #[verifier::when_used_as_spec(spec_code)]
    pub fn code(self) -> (code: u32)
        ensures
            code == self.spec_code(),
            code < 8,
    {
        match self {
            REG::A => 0,
            REG::B => 1,
            REG::C => 2,
            REG::D => 3,
            REG::E => 4,
            REG::PC => 5,
            REG::SP => 6,
            REG::INST => 7,
        }
    }

    /// The register that this code names, if there is one.
    pub open spec fn spec_from_u32(code: u32) -> Option<REG> {
        if code == 0 {
            Some(REG::A)
        } else if code == 1 {
            Some(REG::B)
        } else if code == 2 {
            Some(REG::C)
        } else if code == 3 {
            Some(REG::D)
        } else if code == 4 {
            Some(REG::E)
        } else if code == 5 {
            Some(REG::PC)
        } else if code == 6 {
            Some(REG::SP)
        } else if code == 7 {
            Some(REG::INST)
        } else {
            None
        }
    }

    /// The register that this code names, if there is one.
    #[verifier::when_used_as_spec(spec_from_u32)]
    pub fn from_u32(code: u32) -> (decoded: Option<REG>)
        ensures
            decoded == REG::spec_from_u32(code),
    {
        match code {
            0 => Some(REG::A),
            1 => Some(REG::B),
            2 => Some(REG::C),
            3 => Some(REG::D),
            4 => Some(REG::E),
            5 => Some(REG::PC),
            6 => Some(REG::SP),
            7 => Some(REG::INST),
            _ => None,
        }
    }
}

/// An opcode and the operation it decodes to name each other.
pub proof fn lemma_opcode_round_trip(op: INSTRUCTION, code: u32)
    ensures
        INSTRUCTION::spec_from_u32(op.spec_code()) == Some(op),
        INSTRUCTION::spec_from_u32(code) == Some(op) ==> op.spec_code() == code,
{
}

/// A register code and the register it decodes to name each other.
pub proof fn lemma_register_round_trip(reg: REG, code: u32)
    ensures
        REG::spec_from_u32(reg.spec_code()) == Some(reg),
        REG::spec_from_u32(code) == Some(reg) ==> reg.spec_code() == code,
{
}

/// How far the opcode field is shifted left in an instruction word.
pub const OPCODE_SHIFT: u8 = 10;

/// How far the source field is shifted left in an instruction word.
pub const SOURCE_SHIFT: u8 = 5;

/// The bits of the opcode field.
pub const OPCODE_MASK: u32 = 0b1111110000000000;

/// The bits of the source register field.
pub const SOURCE_MASK: u32 = 0b0000001111100000;

/// The bits of the destination register field.
pub const DEST_MASK: u32 = 0b0000000000011111;

/// The opcode field of an instruction word: bits 15 to 10.
pub open spec fn opcode_of(instruction: u32) -> u32 {
    (instruction / 1024) % 64
}

/// The source register field of an instruction word: bits 9 to 5.
pub open spec fn source_of(instruction: u32) -> usize {
    ((instruction / 32) % 32) as usize
}

/// The destination register field of an instruction word: bits 4 to 0.
pub open spec fn dest_of(instruction: u32) -> usize {
    (instruction % 32) as usize
}

/// The microstep that loads the program counter from register `dst`.
pub open spec fn jump_step(dst: usize) -> Seq<usize> {
    seq![reg_out(dst), reg_in(PROGRAM_COUNTER_REG_NUM)]
}

/// A taken jump is one microstep, a jump not taken is none.
pub open spec fn jump_steps(taken: bool, dst: usize) -> Seq<Seq<usize>> {
    if taken {
        seq![jump_step(dst)]
    } else {
        seq![]
    }
}

/// The two microsteps that bring the next instruction word into the
/// instruction register and advance the program counter.
pub open spec fn fetch_steps() -> Seq<Seq<usize>> {
    seq![
        seq![reg_out(PROGRAM_COUNTER_REG_NUM), ControlCable::MemoryAddressIn.index()],
        seq![
            ControlCable::RamOut.index(),
            reg_in(INSTRUCTION_REG_NUM),
            reg_inc(PROGRAM_COUNTER_REG_NUM),
        ],
    ]
}

/// The microsteps of one operation, before the fetch that follows it.
/// The reserved operations have none: they cannot be executed.
pub open spec fn instruction_steps(
    op: INSTRUCTION,
    src: usize,
    dst: usize,
    equal: bool,
    greater: bool,
) -> Seq<Seq<usize>> {
    match op {
        INSTRUCTION::HLT => seq![seq![ControlCable::Halt.index()]],
        INSTRUCTION::MOV => seq![seq![reg_out(src), reg_in(dst)]],
        INSTRUCTION::ADD => seq![seq![ControlCable::AluOut.index(), reg_in(dst)]],
        INSTRUCTION::SUB => seq![
            seq![ControlCable::SubDiv.index(), ControlCable::AluOut.index(), reg_in(dst)],
        ],
        INSTRUCTION::MUL => seq![
            seq![ControlCable::AddMul.index(), ControlCable::AluOut.index(), reg_in(dst)],
        ],
        INSTRUCTION::DIV => seq![
            seq![
                ControlCable::AddMul.index(),
                ControlCable::SubDiv.index(),
                ControlCable::AluOut.index(),
                reg_in(dst),
            ],
        ],
        INSTRUCTION::CALL => seq![
            seq![reg_out(STACK_POINTER_REG_NUM), ControlCable::MemoryAddressIn.index()],
            seq![
                reg_out(PROGRAM_COUNTER_REG_NUM),
                ControlCable::RamIn.index(),
                reg_dec(STACK_POINTER_REG_NUM),
            ],
            jump_step(dst),
        ],
        INSTRUCTION::JE => jump_steps(equal, dst),
        INSTRUCTION::JNE => jump_steps(!equal, dst),
        INSTRUCTION::JG => jump_steps(greater, dst),
        INSTRUCTION::JGE => jump_steps(greater || equal, dst),
        INSTRUCTION::JL => jump_steps(!greater && !equal, dst),
        INSTRUCTION::JLE => jump_steps(!greater, dst),
        INSTRUCTION::PUSH => seq![
            seq![reg_out(STACK_POINTER_REG_NUM), ControlCable::MemoryAddressIn.index()],
            seq![reg_out(src), ControlCable::RamIn.index(), reg_dec(STACK_POINTER_REG_NUM)],
        ],
        INSTRUCTION::POP => seq![
            seq![reg_inc(STACK_POINTER_REG_NUM)],
            seq![reg_out(STACK_POINTER_REG_NUM), ControlCable::MemoryAddressIn.index()],
            seq![reg_in(dst), ControlCable::RamOut.index()],
        ],
        INSTRUCTION::OUT => seq![
            seq![
                ControlCable::MemoryIsIO.index(),
                reg_out(src),
                ControlCable::MemoryAddressIn.index(),
            ],
            seq![ControlCable::MemoryIsIO.index(), reg_out(dst), ControlCable::RamIn.index()],
        ],
        INSTRUCTION::IN => seq![
            seq![
                ControlCable::MemoryIsIO.index(),
                reg_out(src),
                ControlCable::MemoryAddressIn.index(),
            ],
            seq![ControlCable::MemoryIsIO.index(), reg_in(dst), ControlCable::RamOut.index()],
        ],
        INSTRUCTION::INT => seq![],
        INSTRUCTION::EOI => seq![],
        INSTRUCTION::INC => seq![seq![reg_inc(dst)]],
        INSTRUCTION::DEC => seq![seq![reg_dec(dst)]],
        INSTRUCTION::LOAD => seq![
            seq![reg_out(src), ControlCable::MemoryAddressIn.index()],
            seq![reg_in(dst), ControlCable::RamOut.index()],
        ],
        INSTRUCTION::STORE => seq![
            seq![reg_out(dst), ControlCable::MemoryAddressIn.index()],
            seq![reg_out(src), ControlCable::RamIn.index()],
        ],
        INSTRUCTION::LDCNST => seq![
            seq![reg_out(PROGRAM_COUNTER_REG_NUM), ControlCable::MemoryAddressIn.index()],
            if dst == PROGRAM_COUNTER_REG_NUM {
                seq![reg_in(dst), ControlCable::RamOut.index()]
            } else {
                seq![reg_in(dst), ControlCable::RamOut.index(), reg_inc(PROGRAM_COUNTER_REG_NUM)]
            },
        ],
    }
}

/// Whether the control unit can run this instruction word: its opcode is
/// defined and not reserved.
pub open spec fn is_executable(instruction: u32) -> bool {
    match INSTRUCTION::spec_from_u32(opcode_of(instruction)) {
        Some(op) => op != INSTRUCTION::INT && op != INSTRUCTION::EOI,
        None => false,
    }
}

/// The microcode list of an instruction word under the given flags: the
/// microsteps of its operation, then the fetch. Empty where the word cannot
/// be executed.
pub open spec fn microcode_steps(instruction: u32, equal: bool, greater: bool) -> Seq<Seq<usize>> {
    match INSTRUCTION::spec_from_u32(opcode_of(instruction)) {
        Some(op) => instruction_steps(
            op,
            source_of(instruction),
            dest_of(instruction),
            equal,
            greater,
        ) + fetch_steps(),
        None => seq![],
    }
}

/// A microcode list as plain sequences of line indices.
pub open spec fn steps_view(list: Seq<Vec<usize>>) -> Seq<Seq<usize>> {
    list.map_values(|step: Vec<usize>| step@)
}

/// The opcode field of an instruction word.
pub fn opcode_field(instruction: u32) -> (opcode: u32)
    ensures
        opcode == opcode_of(instruction),
        opcode < 64,
{
    assert((instruction & 0b1111110000000000u32) >> 10u8 == (instruction / 1024) % 64)
        by (bit_vector);
    (instruction & OPCODE_MASK) >> OPCODE_SHIFT
}

/// The source register field of an instruction word.
pub fn source_field(instruction: u32) -> (src: usize)
    ensures
        src == source_of(instruction),
        src < 32,
{
    assert((instruction & 0b0000001111100000u32) >> 5u8 == (instruction / 32) % 32)
        by (bit_vector);
    ((instruction & SOURCE_MASK) >> SOURCE_SHIFT) as usize
}

/// The destination register field of an instruction word.
pub fn dest_field(instruction: u32) -> (dst: usize)
    ensures
        dst == dest_of(instruction),
        dst < 32,
{
    assert(instruction & 0b0000000000011111u32 == instruction % 32) by (bit_vector);
    (instruction & DEST_MASK) as usize
}

/// The fetch sequence, which follows the microsteps of every instruction.
pub fn create_fetch_microcodes() -> (list: Microcodes)
    ensures
        steps_view(list@) == fetch_steps(),
{
    let list = vec![
        vec![reg_out(PROGRAM_COUNTER_REG_NUM), ControlCable::MemoryAddressIn.index()],
        vec![
            ControlCable::RamOut.index(),
            reg_in(INSTRUCTION_REG_NUM),
            reg_inc(PROGRAM_COUNTER_REG_NUM),
        ],
    ];
    assert(steps_view(list@) =~~= fetch_steps());
    list
}

/// Why an instruction word cannot be turned into microcode.
#[derive(Debug, Clone, Copy, PartialEq, Eq, Structural)]
pub enum DecodeError {
    /// The opcode field holds a value that names no operation.
    UnknownOpcode,
    /// The operation is reserved for interrupts and has no microcode yet.
    ReservedOpcode,
}

/// What decoding an instruction word gives: its microcode, or the reason
/// it has none.
pub open spec fn decode_result(instruction: u32, equal: bool, greater: bool) -> Result<
    Seq<Seq<usize>>,
    DecodeError,
> {
    match INSTRUCTION::spec_from_u32(opcode_of(instruction)) {
        None => Err(DecodeError::UnknownOpcode),
        Some(op) => if op == INSTRUCTION::INT || op == INSTRUCTION::EOI {
            Err(DecodeError::ReservedOpcode)
        } else {
            Ok(microcode_steps(instruction, equal, greater))
        },
    }
}

/// The single microstep of a taken jump, or nothing.
fn push_jump(list: &mut Microcodes, taken: bool, dst: usize)
    requires
        dst < 32,
    ensures
        steps_view(final(list)@) == steps_view(old(list)@) + jump_steps(taken, dst),
{
    if taken {
        list.push(vec![reg_out(dst), reg_in(PROGRAM_COUNTER_REG_NUM)]);
    }
    assert(steps_view(list@) =~~= steps_view(old(list)@) + jump_steps(taken, dst));
}

/// The microcode list for an instruction word: the microsteps of its
/// operation under the flags in `flags_reg`, then the fetch.
pub fn create_microcodes(instruction: u32, flags_reg: &MValue) -> (list: Microcodes)
    requires
        is_executable(instruction),
    ensures
        steps_view(list@) == microcode_steps(
            instruction,
            bit_of(flags_reg@ as nat, EQUAL_BIT_NUM as nat),
            bit_of(flags_reg@ as nat, GREATER_BIT_NUM as nat),
        ),
{
    let opcode = opcode_field(instruction);
    let src: usize = source_field(instruction);
    let dst: usize = dest_field(instruction);
    let equal = flags_reg.bit(EQUAL_BIT_NUM);
    let greater = flags_reg.bit(GREATER_BIT_NUM);
    let ghost steps = instruction_steps(
        INSTRUCTION::spec_from_u32(opcode).unwrap(),
        src,
        dst,
        equal,
        greater,
    );

    let mut ret: Microcodes = Vec::new();
    assert(steps_view(ret@) =~= seq![]);

    match INSTRUCTION::from_u32(opcode) {
        None => {},
        Some(op) => match op {
            INSTRUCTION::HLT => {
                ret.push(vec![ControlCable::Halt.index()]);
            },
            INSTRUCTION::MOV => {
                ret.push(vec![reg_out(src), reg_in(dst)]);
            },
            INSTRUCTION::ADD => {
                ret.push(vec![ControlCable::AluOut.index(), reg_in(dst)]);
            },
            INSTRUCTION::SUB => {
                ret.push(
                    vec![ControlCable::SubDiv.index(), ControlCable::AluOut.index(), reg_in(dst)],
                );
            },
            INSTRUCTION::MUL => {
                ret.push(
                    vec![ControlCable::AddMul.index(), ControlCable::AluOut.index(), reg_in(dst)],
                );
            },
            INSTRUCTION::DIV => {
                ret.push(
                    vec![
                        ControlCable::AddMul.index(),
                        ControlCable::SubDiv.index(),
                        ControlCable::AluOut.index(),
                        reg_in(dst),
                    ],
                );
            },
            INSTRUCTION::CALL => {
                ret.push(
                    vec![reg_out(STACK_POINTER_REG_NUM), ControlCable::MemoryAddressIn.index()],
                );
                ret.push(
                    vec![
                        reg_out(PROGRAM_COUNTER_REG_NUM),
                        ControlCable::RamIn.index(),
                        reg_dec(STACK_POINTER_REG_NUM),
                    ],
                );
                ret.push(vec![reg_out(dst), reg_in(PROGRAM_COUNTER_REG_NUM)]);
            },
            INSTRUCTION::JE => {
                push_jump(&mut ret, equal, dst);
            },
            INSTRUCTION::JNE => {
                push_jump(&mut ret, !equal, dst);
            },
            INSTRUCTION::JG => {
                push_jump(&mut ret, greater, dst);
            },
            INSTRUCTION::JGE => {
                push_jump(&mut ret, greater || equal, dst);
            },
            INSTRUCTION::JL => {
                push_jump(&mut ret, !greater && !equal, dst);
            },
            INSTRUCTION::JLE => {
                push_jump(&mut ret, !greater, dst);
            },
            INSTRUCTION::PUSH => {
                ret.push(
                    vec![reg_out(STACK_POINTER_REG_NUM), ControlCable::MemoryAddressIn.index()],
                );
                ret.push(
                    vec![reg_out(src), ControlCable::RamIn.index(), reg_dec(STACK_POINTER_REG_NUM)],
                );
            },
            INSTRUCTION::POP => {
                ret.push(vec![reg_inc(STACK_POINTER_REG_NUM)]);
                ret.push(
                    vec![reg_out(STACK_POINTER_REG_NUM), ControlCable::MemoryAddressIn.index()],
                );
                ret.push(vec![reg_in(dst), ControlCable::RamOut.index()]);
            },
            INSTRUCTION::OUT => {
                ret.push(
                    vec![
                        ControlCable::MemoryIsIO.index(),
                        reg_out(src),
                        ControlCable::MemoryAddressIn.index(),
                    ],
                );
                ret.push(
                    vec![ControlCable::MemoryIsIO.index(), reg_out(dst), ControlCable::RamIn.index()],
                );
            },
            INSTRUCTION::IN => {
                ret.push(
                    vec![
                        ControlCable::MemoryIsIO.index(),
                        reg_out(src),
                        ControlCable::MemoryAddressIn.index(),
                    ],
                );
                ret.push(
                    vec![ControlCable::MemoryIsIO.index(), reg_in(dst), ControlCable::RamOut.index()],
                );
            },
            INSTRUCTION::INT => {},
            INSTRUCTION::EOI => {},
            INSTRUCTION::INC => {
                ret.push(vec![reg_inc(dst)]);
            },
            INSTRUCTION::DEC => {
                ret.push(vec![reg_dec(dst)]);
            },
            INSTRUCTION::LOAD => {
                ret.push(vec![reg_out(src), ControlCable::MemoryAddressIn.index()]);
                ret.push(vec![reg_in(dst), ControlCable::RamOut.index()]);
            },
            INSTRUCTION::STORE => {
                ret.push(vec![reg_out(dst), ControlCable::MemoryAddressIn.index()]);
                ret.push(vec![reg_out(src), ControlCable::RamIn.index()]);
            },
            INSTRUCTION::LDCNST => {
                ret.push(
                    vec![reg_out(PROGRAM_COUNTER_REG_NUM), ControlCable::MemoryAddressIn.index()],
                );
                if dst == PROGRAM_COUNTER_REG_NUM {
                    ret.push(vec![reg_in(dst), ControlCable::RamOut.index()]);
                } else {
                    ret.push(
                        vec![
                            reg_in(dst),
                            ControlCable::RamOut.index(),
                            reg_inc(PROGRAM_COUNTER_REG_NUM),
                        ],
                    );
                }
            },
        },
    }
    assert(steps_view(ret@) =~~= steps);
    let mut fetch = create_fetch_microcodes();
    let ghost body = ret@;
    let ghost tail = fetch@;
    ret.append(&mut fetch);
    assert(steps_view(ret@) =~~= steps_view(body) + steps_view(tail));
    ret
}

/// The microcode list for an instruction word, or the reason there is
/// none: decoding fails exactly on an undefined or a reserved opcode.
pub fn decode(instruction: u32, flags_reg: &MValue) -> (decoded: Result<Microcodes, DecodeError>)
    ensures
        match decoded {
            Ok(list) => decode_result(
                instruction,
                bit_of(flags_reg@ as nat, EQUAL_BIT_NUM as nat),
                bit_of(flags_reg@ as nat, GREATER_BIT_NUM as nat),
            ) == Ok::<Seq<Seq<usize>>, DecodeError>(steps_view(list@)),
            Err(e) => decode_result(
                instruction,
                bit_of(flags_reg@ as nat, EQUAL_BIT_NUM as nat),
                bit_of(flags_reg@ as nat, GREATER_BIT_NUM as nat),
            ) == Err::<Seq<Seq<usize>>, DecodeError>(e),
        },
{
    match INSTRUCTION::from_u32(opcode_field(instruction)) {
        None => Err(DecodeError::UnknownOpcode),
        Some(op) => {
            if op == INSTRUCTION::INT || op == INSTRUCTION::EOI {
                Err(DecodeError::ReservedOpcode)
            } else {
                Ok(create_microcodes(instruction, flags_reg))
            }
        },
    }
}

} // verus!
