#![allow(non_camel_case_types)]

use vstd::prelude::*;

verus! {

/// An operand place of `MOV`.
///
/// The four ports are kept in the set so that programs naming them still
/// assemble; a node has no neighbours, so reading a port yields 0 and writing
/// one discards the value.
#[derive(Debug, Clone, Copy, PartialEq, Eq, Structural)]
pub enum LOCATION {
    VALUE(i16),
    RIGHT,
    LEFT,
    DOWN,
    UP,
    REGISTER(u8),
    ACC,
    DISPLAY,
}

/// One decoded instruction. Jumps keep the label name; it is looked up in the
/// label table each time the jump is executed.
#[derive(Debug)]
pub enum INSTRUCTIONS {
    SWP,
    SAV,
    MOV(LOCATION, LOCATION),
    JMP(String),
    JEZ(String),
    JLZ(String),
    JGZ(String),
    ADD(i16),
    SUB(i16),
    IGNORE,
}

/// The mathematical value of an instruction: labels as character sequences.
pub enum Op {
    Swp,
    Sav,
    Mov(LOCATION, LOCATION),
    Jmp(Seq<char>),
    Jez(Seq<char>),
    Jlz(Seq<char>),
    Jgz(Seq<char>),
    Add(i16),
    Sub(i16),
    Ignore,
}

impl View for INSTRUCTIONS {
    type V = Op;

    open spec fn view(&self) -> Op {
        match self {
            INSTRUCTIONS::SWP => Op::Swp,
            INSTRUCTIONS::SAV => Op::Sav,
            INSTRUCTIONS::MOV(a, b) => Op::Mov(*a, *b),
            INSTRUCTIONS::JMP(l) => Op::Jmp(l@),
            INSTRUCTIONS::JEZ(l) => Op::Jez(l@),
            INSTRUCTIONS::JLZ(l) => Op::Jlz(l@),
            INSTRUCTIONS::JGZ(l) => Op::Jgz(l@),
            INSTRUCTIONS::ADD(v) => Op::Add(*v),
            INSTRUCTIONS::SUB(v) => Op::Sub(*v),
            INSTRUCTIONS::IGNORE => Op::Ignore,
        }
    }
}

/// The model of a program: each instruction's view, in order.
pub open spec fn program_view(p: Seq<INSTRUCTIONS>) -> Seq<Op> {
    p.map_values(|i: INSTRUCTIONS| i@)
}

} // verus!
