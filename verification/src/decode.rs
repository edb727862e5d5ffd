//! The names of things: mnemonics, registers and control lines, and the
//! text that shows an instruction word or a set of control lines.

use vstd::prelude::*;
use crate::control_cables::{ControlCables, CONTROL_CABLES_SIZE};
use crate::cpu_component::ControlCable;
use crate::microcodes::{
    dest_field, dest_of, opcode_field, opcode_of, source_field, source_of, INSTRUCTION, REG,
};

verus! {

/// The mnemonic of an operation, in lower case.
pub open spec fn spec_mnemonic_name(item: INSTRUCTION) -> &'static str {
    match item {
        INSTRUCTION::HLT => "hlt",
        INSTRUCTION::MOV => "mov",
        INSTRUCTION::ADD => "add",
        INSTRUCTION::SUB => "sub",
        INSTRUCTION::MUL => "mul",
        INSTRUCTION::DIV => "div",
        INSTRUCTION::CALL => "call",
        INSTRUCTION::JE => "je",
        INSTRUCTION::JNE => "jne",
        INSTRUCTION::JG => "jg",
        INSTRUCTION::JGE => "jge",
        INSTRUCTION::JL => "jl",
        INSTRUCTION::JLE => "jle",
        INSTRUCTION::PUSH => "push",
        INSTRUCTION::POP => "pop",
        INSTRUCTION::OUT => "out",
        INSTRUCTION::IN => "in",
        INSTRUCTION::INT => "int",
        INSTRUCTION::EOI => "eoi",
        INSTRUCTION::INC => "inc",
        INSTRUCTION::DEC => "dec",
        INSTRUCTION::LOAD => "load",
        INSTRUCTION::STORE => "store",
        INSTRUCTION::LDCNST => "ldcnst",
    }
}

/// The mnemonic of an operation, in lower case.
#[verifier::when_used_as_spec(spec_mnemonic_name)]
pub fn mnemonic_name(item: INSTRUCTION) -> (name: &'static str)
    ensures
        name == spec_mnemonic_name(item),
{
    match item {
        INSTRUCTION::HLT => "hlt",
        INSTRUCTION::MOV => "mov",
        INSTRUCTION::ADD => "add",
        INSTRUCTION::SUB => "sub",
        INSTRUCTION::MUL => "mul",
        INSTRUCTION::DIV => "div",
        INSTRUCTION::CALL => "call",
        INSTRUCTION::JE => "je",
        INSTRUCTION::JNE => "jne",
        INSTRUCTION::JG => "jg",
        INSTRUCTION::JGE => "jge",
        INSTRUCTION::JL => "jl",
        INSTRUCTION::JLE => "jle",
        INSTRUCTION::PUSH => "push",
        INSTRUCTION::POP => "pop",
        INSTRUCTION::OUT => "out",
        INSTRUCTION::IN => "in",
        INSTRUCTION::INT => "int",
        INSTRUCTION::EOI => "eoi",
        INSTRUCTION::INC => "inc",
        INSTRUCTION::DEC => "dec",
        INSTRUCTION::LOAD => "load",
        INSTRUCTION::STORE => "store",
        INSTRUCTION::LDCNST => "ldcnst",
    }
}

/// The name of a register, in lower case.
pub open spec fn spec_reg_name(item: REG) -> &'static str {
    match item {
        REG::A => "a",
        REG::B => "b",
        REG::C => "c",
        REG::D => "d",
        REG::E => "e",
        REG::PC => "pc",
        REG::SP => "sp",
        REG::INST => "inst",
    }
}

/// The name of a register, in lower case.
#[verifier::when_used_as_spec(spec_reg_name)]
pub fn reg_name(item: REG) -> (name: &'static str)
    ensures
        name == spec_reg_name(item),
{
    match item {
        REG::A => "a",
        REG::B => "b",
        REG::C => "c",
        REG::D => "d",
        REG::E => "e",
        REG::PC => "pc",
        REG::SP => "sp",
        REG::INST => "inst",
    }
}

/// The name of a named control line. `RegBase` names the place where the
/// register lines begin.
pub open spec fn spec_cable_name(item: ControlCable) -> &'static str {
    match item {
        ControlCable::Halt => "Halt",
        ControlCable::MemoryAddressIn => "MemoryAddressIn",
        ControlCable::RamIn => "RamIn",
        ControlCable::RamOut => "RamOut",
        ControlCable::MemoryIsIO => "MemoryIsIO",
        ControlCable::AddMul => "AddMul",
        ControlCable::SubDiv => "SubDiv",
        ControlCable::AluOut => "AluOut",
        ControlCable::Interrupt => "Interrupt",
        ControlCable::Equal => "Equal",
        ControlCable::Greater => "Greater",
        ControlCable::RegBase => "RegBase",
    }
}

/// The name of a named control line. `RegBase` names the place where the
/// register lines begin.
#[verifier::when_used_as_spec(spec_cable_name)]
pub fn cable_name(item: ControlCable) -> (name: &'static str)
    ensures
        name == spec_cable_name(item),
{
    match item {
        ControlCable::Halt => "Halt",
        ControlCable::MemoryAddressIn => "MemoryAddressIn",
        ControlCable::RamIn => "RamIn",
        ControlCable::RamOut => "RamOut",
        ControlCable::MemoryIsIO => "MemoryIsIO",
        ControlCable::AddMul => "AddMul",
        ControlCable::SubDiv => "SubDiv",
        ControlCable::AluOut => "AluOut",
        ControlCable::Interrupt => "Interrupt",
        ControlCable::Equal => "Equal",
        ControlCable::Greater => "Greater",
        ControlCable::RegBase => "RegBase",
    }
}

/// The name of one of the four lines of a register, by its place among
/// them. Above 3 there is no such line and the name is empty.
pub open spec fn spec_op_name(op: usize) -> &'static str {
    if op == 0 {
        "in"
    } else if op == 1 {
        "out"
    } else if op == 2 {
        "inc"
    } else if op == 3 {
        "dec"
    } else {
        ""
    }
}

/// The name of one of the four lines of a register, by its place among
/// them. Above 3 there is no such line and the name is empty.
#[verifier::when_used_as_spec(spec_op_name)]
pub fn op_name(op: usize) -> (name: &'static str)
    ensures
        name == spec_op_name(op),
{
    if op == 0 {
        "in"
    } else if op == 1 {
        "out"
    } else if op == 2 {
        "inc"
    } else if op == 3 {
        "dec"
    } else {
        ""
    }
}

/// The named control line with index `index`, if it is below the register
/// lines.
pub open spec fn spec_cable_at(index: usize) -> Option<ControlCable> {
    if index == 0 {
        Some(ControlCable::Halt)
    } else if index == 1 {
        Some(ControlCable::MemoryAddressIn)
    } else if index == 2 {
        Some(ControlCable::RamIn)
    } else if index == 3 {
        Some(ControlCable::RamOut)
    } else if index == 4 {
        Some(ControlCable::MemoryIsIO)
    } else if index == 5 {
        Some(ControlCable::AddMul)
    } else if index == 6 {
        Some(ControlCable::SubDiv)
    } else if index == 7 {
        Some(ControlCable::AluOut)
    } else if index == 8 {
        Some(ControlCable::Interrupt)
    } else if index == 9 {
        Some(ControlCable::Equal)
    } else if index == 10 {
        Some(ControlCable::Greater)
    } else {
        None
    }
}

/// The named control line with index `index`, if it is below the register
/// lines.
#[verifier::when_used_as_spec(spec_cable_at)]
pub fn cable_at(index: usize) -> (cable: Option<ControlCable>)
    ensures
        cable == spec_cable_at(index),
        cable matches Some(c) ==> c.spec_index() == index,
        index < 11 ==> cable is Some,
{
    match index {
        0 => Some(ControlCable::Halt),
        1 => Some(ControlCable::MemoryAddressIn),
        2 => Some(ControlCable::RamIn),
        3 => Some(ControlCable::RamOut),
        4 => Some(ControlCable::MemoryIsIO),
        5 => Some(ControlCable::AddMul),
        6 => Some(ControlCable::SubDiv),
        7 => Some(ControlCable::AluOut),
        8 => Some(ControlCable::Interrupt),
        9 => Some(ControlCable::Equal),
        10 => Some(ControlCable::Greater),
        _ => None,
    }
}

/// The name under which control line `index` is shown: its own name for a
/// named line, else the register's name, an underscore and the name of the
/// register's line. Empty where there is no such line.
pub open spec fn line_name(index: usize) -> Seq<char> {
    match spec_cable_at(index) {
        Some(cable) => cable_name(cable)@,
        None => match REG::spec_from_u32(((index - 11) / 4) as u32) {
            Some(reg) => reg_name(reg)@ + "_"@ + op_name(((index - 11) % 4) as usize)@,
            None => seq![],
        },
    }
}

/// The names of the asserted lines among the first `n`, in the order of
/// their indices, each followed by a space.
pub open spec fn dump_upto(lines: Seq<bool>, n: nat) -> Seq<char>
    decreases n,
{
    if n == 0 {
        seq![]
    } else {
        dump_upto(lines, (n - 1) as nat) + if lines[n - 1] {
            line_name((n - 1) as usize) + " "@
        } else {
            seq![]
        }
    }
}

/// The names of the asserted control lines, in the order of their indices,
/// each followed by a space.
pub fn dump_cables(cables: &ControlCables) -> (text: String)
    ensures
        text@ == dump_upto(cables@, CONTROL_CABLES_SIZE as nat),
{
    let mut ret = String::new();
    let mut i: usize = 0;
    while i < CONTROL_CABLES_SIZE
        invariant
            i <= CONTROL_CABLES_SIZE,
            ret@ == dump_upto(cables@, i as nat),
        decreases CONTROL_CABLES_SIZE - i,
    {
        let ghost before = ret@;
        if cables.get(i) {
            match cable_at(i) {
                Some(cable) => {
                    ret.append(cable_name(cable));
                },
                None => {
                    let reg_num = (i - 11) / 4;
                    let reg_op = (i - 11) % 4;
                    match REG::from_u32(reg_num as u32) {
                        Some(reg) => {
                            ret.append(reg_name(reg));
                            ret.append("_");
                            ret.append(op_name(reg_op));
                        },
                        None => {},
                    }
                },
            }
            ret.append(" ");
            assert(ret@ =~= before + (line_name(i) + " "@));
        } else {
            assert(ret@ =~= before + seq![]);
        }
        i += 1;
    }
    ret
}

/// The text of an instruction word: mnemonic, source register and
/// destination register, a space between them. There is none where the
/// opcode names no operation or a register field names no register.
pub open spec fn instruction_text(instr: u32) -> Option<Seq<char>> {
    match (
        INSTRUCTION::spec_from_u32(opcode_of(instr)),
        REG::spec_from_u32(source_of(instr) as u32),
        REG::spec_from_u32(dest_of(instr) as u32),
    ) {
        (Some(op), Some(src), Some(dst)) => Some(
            mnemonic_name(op)@ + " "@ + reg_name(src)@ + " "@ + reg_name(dst)@,
        ),
        _ => None,
    }
}

/// A string as plain characters, where there is one.
pub open spec fn text_view(text: Option<String>) -> Option<Seq<char>> {
    match text {
        Some(t) => Some(t@),
        None => None,
    }
}

/// Shows an instruction word as text, where it has one.
pub fn decode_instruction(instr: u32) -> (text: Option<String>)
    ensures
        text_view(text) == instruction_text(instr),
{
    let op_num = opcode_field(instr);
    let src_num = source_field(instr);
    let dst_num = dest_field(instr);
    match (INSTRUCTION::from_u32(op_num), REG::from_u32(src_num as u32), REG::from_u32(dst_num as u32)) {
        (Some(op), Some(src), Some(dst)) => {
            let mut ret = String::new();
            ret.append(mnemonic_name(op));
            ret.append(" ");
            ret.append(reg_name(src));
            ret.append(" ");
            ret.append(reg_name(dst));
            assert(ret@ =~= mnemonic_name(op)@ + " "@ + reg_name(src)@ + " "@ + reg_name(dst)@);
            Some(ret)
        },
        _ => None,
    }
}

} // verus!
